//! Laws about a plan as a whole, stated over what the server says.

use vstd::prelude::*;

use crate::direct_laws::{
    has_room, law_direct_is_set_for_a_reason, law_direct_rooms_follow_the_new_user,
};
use crate::ids::{UserId, UserKind};
use crate::json::JsonMergeError;
use crate::members::members_or_none;
use crate::plan::{
    answers, direct_rooms, DirectAccountDataPlanError, DirectMap, FatalPlanError,
    IgnoredUsersAccountDataPlanError, PlanError, Reply, RequestView,
};
use crate::plan_outcome::{direct_problems, ignored_problems, plan_outcome};
use crate::planner::{DraftView, PhaseView};
use crate::room::RoomContext;
use crate::room_laws::changes_nothing;
use crate::room_outcome::{answers_all, room_outcome, World};
use crate::text::{
    lemma_sorted_texts, lemma_text_order, sorted_texts, text_at_most, text_less, texts,
};

verus! {

/// What the server says about the accounts.
pub struct Accounts {
    pub old_user: UserId,
    pub new_user: UserId,
    pub old_rooms: Seq<Seq<char>>,
    pub new_rooms: Seq<Seq<char>>,
}

/// Whether the server says who both users are and which rooms they are in.
pub open spec fn has_accounts(world: World, accounts: Accounts) -> bool {
    &&& world(RequestView::UserId(UserKind::Old)) == Reply::UserId(Ok(accounts.old_user))
    &&& world(RequestView::UserId(UserKind::New)) == Reply::UserId(Ok(accounts.new_user))
    &&& world(RequestView::JoinedRooms(UserKind::Old)) matches Reply::JoinedRooms(Ok(rooms))
        && texts(rooms@) == accounts.old_rooms
    &&& world(RequestView::JoinedRooms(UserKind::New)) matches Reply::JoinedRooms(Ok(rooms))
        && texts(rooms@) == accounts.new_rooms
}

/// There is no plan at all exactly if it cannot be found out who one of the users is or which rooms
/// they are in; the error says what, for which user, and why.
pub proof fn law_accounts_must_be_known(world: World, leave: bool)
    requires
        answers_all(world),
    ensures
        ({
            let failed = |error: FatalPlanError| plan_outcome(world, leave) == (
            PhaseView::Failed { error });
            match world(RequestView::UserId(UserKind::Old)) {
                Reply::UserId(Err(cause)) => failed(FatalPlanError::GetUserId(UserKind::Old, cause)),
                _ => match world(RequestView::UserId(UserKind::New)) {
                    Reply::UserId(Err(cause)) => failed(
                        FatalPlanError::GetUserId(UserKind::New, cause),
                    ),
                    _ => match world(RequestView::JoinedRooms(UserKind::Old)) {
                        Reply::JoinedRooms(Err(cause)) => failed(
                            FatalPlanError::GetJoinedRooms(UserKind::Old, cause),
                        ),
                        _ => match world(RequestView::JoinedRooms(UserKind::New)) {
                            Reply::JoinedRooms(Err(cause)) => failed(
                                FatalPlanError::GetJoinedRooms(UserKind::New, cause),
                            ),
                            _ => !(plan_outcome(world, leave) is Failed),
                        },
                    },
                },
            }
        }),
{
    lemma_accounts_answered(world);
}

proof fn lemma_accounts_answered(world: World)
    requires
        answers_all(world),
    ensures
        forall|of: UserKind| #[trigger] world(RequestView::UserId(of)) is UserId,
        forall|of: UserKind| #[trigger] world(RequestView::JoinedRooms(of)) is JoinedRooms,
        forall|of: UserKind| #[trigger] world(RequestView::Direct(of)) is Direct,
        forall|of: UserKind| #[trigger] world(RequestView::IgnoredUsers(of)) is IgnoredUsers,
        forall|of: UserKind, room: Seq<char>| #[trigger]
            world(RequestView::Tags { of, room }) is Tags,
{
    assert forall|of: UserKind| #[trigger] world(RequestView::UserId(of)) is UserId by {
        assert(answers(RequestView::UserId(of), world(RequestView::UserId(of))));
    }
    assert forall|of: UserKind| #[trigger] world(RequestView::JoinedRooms(of)) is JoinedRooms by {
        assert(answers(RequestView::JoinedRooms(of), world(RequestView::JoinedRooms(of))));
    }
    assert forall|of: UserKind| #[trigger] world(RequestView::Direct(of)) is Direct by {
        assert(answers(RequestView::Direct(of), world(RequestView::Direct(of))));
    }
    assert forall|of: UserKind| #[trigger] world(RequestView::IgnoredUsers(of)) is IgnoredUsers by {
        assert(answers(RequestView::IgnoredUsers(of), world(RequestView::IgnoredUsers(of))));
    }
    assert forall|of: UserKind, room: Seq<char>| #[trigger]
        world(RequestView::Tags { of, room }) is Tags by {
        assert(answers(RequestView::Tags { of, room }, world(RequestView::Tags { of, room })));
    }
}

/// A plan is for the two users that the server names, and lists exactly the rooms of the old user
/// that there is something to do or to say about, each with what comes of planning for it: the new
/// user has to join exactly the rooms that they are not in, and rooms are left only if that is
/// wanted.
pub proof fn law_all_rooms_are_planned_for(
    world: World,
    leave: bool,
    accounts: Accounts,
    room: Seq<char>,
)
    requires
        has_accounts(world, accounts),
        plan_outcome(world, leave) is Done,
    ensures
        ({
            let plan = plan_outcome(world, leave)->plan;
            let context = RoomContext {
                old_user: accounts.old_user,
                new_user: accounts.new_user,
                leave,
            };
            let said = room_outcome(world, context, room, !accounts.new_rooms.contains(room));
            &&& plan.old_user_id == accounts.old_user
            &&& plan.new_user_id == accounts.new_user
            &&& plan.rooms.contains_key(room) <==> accounts.old_rooms.contains(room) && !(
            changes_nothing(said) && said.errors.len() == 0)
            &&& plan.rooms.contains_key(room) ==> plan.rooms[room] == said
        }),
{
}

/// The direct message mapping is set exactly if the old user has a room with somebody other than
/// the new user that the new user is in or is to join and does not have for them yet. It then has
/// all rooms that the new user had, and all such rooms.
pub proof fn law_direct_messages_are_planned(
    world: World,
    leave: bool,
    accounts: Accounts,
    old: DirectMap,
    new: Option<DirectMap>,
    user: Seq<char>,
    room: Seq<char>,
)
    requires
        has_accounts(world, accounts),
        plan_outcome(world, leave) is Done,
        world(RequestView::Direct(UserKind::Old)) == Reply::Direct(Ok(Some(old))),
        world(RequestView::Direct(UserKind::New)) == Reply::Direct(Ok(new)),
    ensures
        ({
            let plan = plan_outcome(world, leave)->plan;
            let before = match new {
                Some(new) => direct_rooms(new@),
                None => Map::empty(),
            };
            let will_be_in = |room: Seq<char>|
                accounts.new_rooms.contains(room) || plan.rooms.contains_key(room)
                    && plan.rooms[room].join;
            &&& plan.direct is Some <==> exists|user: Seq<char>, room: Seq<char>|
                {
                    &&& user != accounts.new_user@
                    &&& #[trigger] has_room(direct_rooms(old@), user, room)
                    &&& !has_room(before, user, room)
                    &&& will_be_in(room)
                }
            &&& plan.direct matches Some(after) ==> (has_room(after, user, room) <==> {
                ||| has_room(before, user, room)
                ||| user != accounts.new_user@ && has_room(direct_rooms(old@), user, room)
                    && will_be_in(room)
            })
        }),
{
    let plan = plan_outcome(world, leave)->plan;
    let before: Map<Seq<char>, Seq<Seq<char>>> = match new {
        Some(new) => direct_rooms(new@),
        None => Map::empty(),
    };
    law_direct_is_set_for_a_reason(
        direct_rooms(old@),
        before,
        accounts.new_user@,
        accounts.new_rooms,
        plan.rooms,
    );
    law_direct_rooms_follow_the_new_user(
        direct_rooms(old@),
        before,
        accounts.new_user@,
        accounts.new_rooms,
        plan.rooms,
        user,
        room,
    );
    let will_be_in = |room: Seq<char>|
        accounts.new_rooms.contains(room) || plan.rooms.contains_key(room) && plan.rooms[room].join;
    if plan.direct is Some {
        let (user, room) = choose|user: Seq<char>, room: Seq<char>|
            {
                &&& user != accounts.new_user@
                &&& #[trigger] has_room(direct_rooms(old@), user, room)
                &&& !has_room(before, user, room)
                &&& accounts.new_rooms.contains(room) || plan.rooms.contains_key(room)
                    && plan.rooms[room].join
            };
        assert(will_be_in(room));
    }
    if exists|user: Seq<char>, room: Seq<char>|
        {
            &&& user != accounts.new_user@
            &&& #[trigger] has_room(direct_rooms(old@), user, room)
            &&& !has_room(before, user, room)
            &&& will_be_in(room)
        } {
        let (user, room) = choose|user: Seq<char>, room: Seq<char>|
            {
                &&& user != accounts.new_user@
                &&& #[trigger] has_room(direct_rooms(old@), user, room)
                &&& !has_room(before, user, room)
                &&& will_be_in(room)
            };
        assert(has_room(direct_rooms(old@), user, room));
    }
}

/// What cannot be read of the account data is reported, and then it is not set. Without such data
/// of the old user, it is not set, and there is nothing to report. Conflicts between the ignored
/// users of both are reported, and nothing else is.
pub proof fn law_account_data_is_planned(
    world: World,
    leave: bool,
    accounts: Accounts,
    conflict: JsonMergeError,
)
    requires
        answers_all(world),
        has_accounts(world, accounts),
        plan_outcome(world, leave) is Done,
    ensures
        ({
            let plan = plan_outcome(world, leave)->plan;
            &&& match world(RequestView::Direct(UserKind::Old))->Direct_0 {
                Err(cause) => plan.direct is None && plan.errors.contains(
                    PlanError::DirectAccountDataFailed(
                        DirectAccountDataPlanError::GetEvent(UserKind::Old, cause),
                    ),
                ),
                Ok(None) => plan.direct is None,
                Ok(Some(_)) => match world(RequestView::Direct(UserKind::New))->Direct_0 {
                    Err(cause) => plan.direct is None && plan.errors.contains(
                        PlanError::DirectAccountDataFailed(
                            DirectAccountDataPlanError::GetEvent(UserKind::New, cause),
                        ),
                    ),
                    Ok(_) => true,
                },
            }
            &&& match world(RequestView::IgnoredUsers(UserKind::Old))->IgnoredUsers_0 {
                Err(cause) => plan.ignored_users is None && plan.errors.contains(
                    PlanError::IgnoredUsersAccountDataFailed(
                        IgnoredUsersAccountDataPlanError::GetEvent(UserKind::Old, cause),
                    ),
                ),
                Ok(None) => plan.ignored_users is None && !plan.errors.contains(
                    PlanError::IgnoredUserMerge(conflict),
                ),
                Ok(Some(old)) => match world(
                    RequestView::IgnoredUsers(UserKind::New),
                )->IgnoredUsers_0 {
                    Err(cause) => plan.ignored_users is None && plan.errors.contains(
                        PlanError::IgnoredUsersAccountDataFailed(
                            IgnoredUsersAccountDataPlanError::GetEvent(UserKind::New, cause),
                        ),
                    ),
                    Ok(new) => {
                        let new = members_or_none(new);
                        let name = "ignored_users"@;
                        &&& plan.ignored_users == if old@.adds_to(name, new) {
                            Some(old@.merged(name, new))
                        } else {
                            None
                        }
                        &&& plan.errors.contains(PlanError::IgnoredUserMerge(conflict))
                            <==> old.errors(name, new).contains(conflict)
                    },
                },
            }
        }),
{
    broadcast use vstd::seq_lib::group_seq_properties;

    lemma_accounts_answered(world);
    let plan = plan_outcome(world, leave)->plan;
    let direct = direct_problems(world);
    let ignored = ignored_problems(world);
    assert(plan.errors == direct + ignored);
    let merge = PlanError::IgnoredUserMerge(conflict);
    assert(plan.errors.contains(merge) <==> direct.contains(merge) || ignored.contains(merge));
    if direct.len() > 0 {
        assert(plan.errors[0] == direct[0]);
    }
    if ignored.len() > 0 {
        assert(plan.errors[direct.len() as int] == ignored[0]);
    }
    assert(!direct.contains(merge)) by {
        if direct.contains(merge) {
            let i = choose|i: int| 0 <= i < direct.len() && direct[i] == merge;
            assert(direct[i] == merge);
        }
    }
    if let Reply::IgnoredUsers(Ok(Some(old))) = world(RequestView::IgnoredUsers(UserKind::Old)) {
        if let Reply::IgnoredUsers(Ok(new)) = world(RequestView::IgnoredUsers(UserKind::New)) {
            let conflicts = old.errors("ignored_users"@, members_or_none(new));
            if conflicts.contains(conflict) {
                let i = choose|i: int| 0 <= i < conflicts.len() && conflicts[i] == conflict;
                assert(ignored[i] == merge);
            }
            if ignored.contains(merge) {
                let i = choose|i: int| 0 <= i < ignored.len() && ignored[i] == merge;
                assert(conflicts[i] == conflict);
            }
        }
    }
}

/// Nothing is reported about the account data that the server did not give cause for.
pub proof fn law_account_errors_have_causes(
    world: World,
    leave: bool,
    accounts: Accounts,
    error: PlanError,
)
    requires
        answers_all(world),
        has_accounts(world, accounts),
        plan_outcome(world, leave) is Done,
        plan_outcome(world, leave)->plan.errors.contains(error),
    ensures
        match error {
            PlanError::DirectAccountDataFailed(DirectAccountDataPlanError::GetEvent(of, cause)) => {
                world(RequestView::Direct(of)) == Reply::Direct(Err(cause))
            },
            PlanError::IgnoredUsersAccountDataFailed(
                IgnoredUsersAccountDataPlanError::GetEvent(of, cause),
            ) => world(RequestView::IgnoredUsers(of)) == Reply::IgnoredUsers(Err(cause)),
            PlanError::IgnoredUserMerge(_) => world(
                RequestView::IgnoredUsers(UserKind::Old),
            ) matches Reply::IgnoredUsers(Ok(Some(_))),
        },
{
    lemma_accounts_answered(world);
    let direct = direct_problems(world);
    let ignored = ignored_problems(world);
    let all = plan_outcome(world, leave)->plan.errors;
    let i = choose|i: int| 0 <= i < all.len() && all[i] == error;
    if i < direct.len() {
        assert(direct[i] == error);
    } else {
        assert(ignored[i - direct.len()] == error);
    }
}

/// Where it is known who both users are and which rooms they are in, there is a plan, unless tags
/// or ignored users of both have to be compared and are not read as JSON.
pub proof fn law_there_is_a_plan(world: World, leave: bool, accounts: Accounts)
    requires
        answers_all(world),
        has_accounts(world, accounts),
        forall|room: Seq<char>| #[trigger]
            accounts.old_rooms.contains(room) ==> {
                let old = world(RequestView::Tags { of: UserKind::Old, room })->Tags_0;
                let new = world(RequestView::Tags { of: UserKind::New, room })->Tags_0;
                old is Ok && old->Ok_0 is Some && new is Ok ==> old->Ok_0->0@.mergeable(
                    "tags"@,
                    members_or_none(new->Ok_0),
                )
            },
        ({
            let old = world(RequestView::IgnoredUsers(UserKind::Old))->IgnoredUsers_0;
            let new = world(RequestView::IgnoredUsers(UserKind::New))->IgnoredUsers_0;
            old is Ok && old->Ok_0 is Some && new is Ok ==> old->Ok_0->0@.mergeable(
                "ignored_users"@,
                members_or_none(new->Ok_0),
            )
        }),
    ensures
        plan_outcome(world, leave) is Done,
{
    lemma_accounts_answered(world);
    let context = RoomContext { old_user: accounts.old_user, new_user: accounts.new_user, leave };
    assert forall|i: int| 0 <= i < accounts.old_rooms.len() implies
        crate::room_outcome::room_readable(
        world,
        context,
        #[trigger] accounts.old_rooms[i],
        !accounts.new_rooms.contains(accounts.old_rooms[i]),
    ) by {
        assert(accounts.old_rooms.contains(accounts.old_rooms[i]));
    }
}

/// The rooms of the old user are planned for one by one, each as often as it is listed, in
/// ascending order; and those of the new user are known before the first.
pub proof fn law_rooms_are_planned_in_order(
    old_user: UserId,
    new_user: UserId,
    leave: bool,
    rooms: Vec<String>,
    joined: Vec<String>,
    draft: DraftView,
    pending: Seq<Seq<char>>,
)
    ensures
        ({
            let listed = (PhaseView::OldRooms { old_user, new_user });
            match listed.next(leave, Reply::JoinedRooms(Ok(rooms))) {
                PhaseView::NewRooms { old_user: old, new_user: new, rooms: sorted } => {
                    &&& old == old_user && new == new_user
                    &&& sorted.to_multiset() == texts(rooms@).to_multiset()
                    &&& forall|i: int, j: int|
                        0 <= i < j < sorted.len() ==> !text_less(
                            #[trigger] sorted[j],
                            #[trigger] sorted[i],
                        )
                },
                _ => false,
            }
        }),
        ({
            let known = (PhaseView::NewRooms { old_user, new_user, rooms: pending });
            let empty = (DraftView {
                context: (RoomContext { old_user, new_user, leave }),
                joined: texts(joined@),
                rooms: Map::empty(),
                direct: None,
                errors: Seq::empty(),
            });
            known.next(leave, Reply::JoinedRooms(Ok(joined))) == PhaseView::start_room(
                empty,
                pending,
            )
        }),
        pending.len() > 0 ==> match PhaseView::start_room(draft, pending) {
            PhaseView::Room { draft: kept, planner, pending: rest } => {
                &&& kept == draft
                &&& planner.room == pending.first()
                &&& planner.need_join <==> !draft.joined.contains(pending.first())
                &&& seq![pending.first()] + rest == pending
            },
            _ => false,
        },
{
    lemma_sorted_texts(texts(rooms@));
    let sorted = sorted_texts(texts(rooms@));
    assert forall|i: int, j: int| 0 <= i < j < sorted.len() implies !text_less(
        #[trigger] sorted[j],
        #[trigger] sorted[i],
    ) by {
        assert(text_at_most(sorted[i], sorted[j]));
        lemma_text_order(sorted[i], sorted[j]);
    }
    if pending.len() > 0 {
        assert(seq![pending.first()] + pending.drop_first() =~= pending);
    }
}

} // verus!
