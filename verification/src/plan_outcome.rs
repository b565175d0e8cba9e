//! What a planner arrives at, stated over everything the server has to say.

use vstd::prelude::*;

use crate::direct::{direct_changes, joined_rooms, migrated_direct};
use crate::ids::UserKind;
use crate::members::{
    law_covered_members_stay, members_or_none, Members, MembersView, IGNORED_USERS_MEMBER,
};
use crate::plan::{
    answers, conflict_errors, direct_rooms, DirectAccountDataPlanError, FatalPlanError,
    IgnoredUsersAccountDataPlanError, PlanError, PlanView, Reply, RequestView, RoomPlanView,
};
use crate::planner::{direct_or_none, DraftView, PhaseView};
use crate::room::{RoomContext, RoomPlannerView};
use crate::room_outcome::{
    answers_all, distance, law_room_planner_reaches_outcome, law_room_planning_ends,
    lemma_room_step, room_outcome, room_readable, room_run, World,
};
use crate::text::{lemma_sorted_texts, sorted_texts, texts};

verus! {

/// How many phases are left at most.
pub open spec fn phases_left(phase: PhaseView) -> nat {
    match phase {
        PhaseView::OldUserId => 9,
        PhaseView::NewUserId { .. } => 8,
        PhaseView::OldRooms { .. } => 7,
        PhaseView::NewRooms { .. } => 6,
        PhaseView::Room { .. } => 5,
        PhaseView::OldDirect { .. } => 4,
        PhaseView::NewDirect { .. } => 3,
        PhaseView::OldIgnored { .. } => 2,
        PhaseView::NewIgnored { .. } => 1,
        PhaseView::Done { .. } => 0,
        PhaseView::Failed { .. } => 0,
        PhaseView::Unreadable => 0,
    }
}

/// How many rooms are left after the current one.
pub open spec fn rooms_left(phase: PhaseView) -> nat {
    match phase {
        PhaseView::Room { pending, .. } => pending.len(),
        _ => 0,
    }
}

/// How far the planner of the current room is from its end.
pub open spec fn room_distance(phase: PhaseView) -> nat {
    match phase {
        PhaseView::Room { planner, .. } => distance(planner.stage),
        _ => 0,
    }
}

/// Every answered request brings a planner closer to the end: fewer phases are left, or fewer
/// rooms, or less of the current room.
pub proof fn law_planning_ends(phase: PhaseView, leave: bool, reply: Reply)
    requires
        phase.request() is Some,
        answers(phase.request()->0, reply),
    ensures
        ({
            let next = phase.next(leave, reply);
            ||| phases_left(next) < phases_left(phase)
            ||| phases_left(next) == phases_left(phase) && rooms_left(next) < rooms_left(phase)
            ||| phases_left(next) == phases_left(phase) && rooms_left(next) == rooms_left(phase)
                && room_distance(next) < room_distance(phase)
        }),
{
    if let PhaseView::Room { draft, planner, pending } = phase {
        law_room_planning_ends(planner, draft.context, reply);
    }
}

/// The phase after all requests were answered.
pub open spec fn plan_run(phase: PhaseView, leave: bool, world: World) -> PhaseView
    decreases phases_left(phase), rooms_left(phase), room_distance(phase),
{
    match phase.request() {
        None => phase,
        Some(request) => if answers(request, world(request)) {
            proof {
                law_planning_ends(phase, leave, world(request));
            }
            plan_run(phase.next(leave, world(request)), leave, world)
        } else {
            phase
        },
    }
}

/// The plans for some rooms: every room whose plan has something in it.
pub open spec fn rooms_outcome(
    world: World,
    context: RoomContext,
    joined: Seq<Seq<char>>,
    rooms: Seq<Seq<char>>,
) -> Map<Seq<char>, RoomPlanView> {
    Map::new(
        |room: Seq<char>|
            rooms.contains(room) && !room_outcome(
                world,
                context,
                room,
                !joined.contains(room),
            ).is_empty(),
        |room: Seq<char>| room_outcome(world, context, room, !joined.contains(room)),
    )
}

/// Whether all of some rooms can be planned for.
pub open spec fn rooms_readable(
    world: World,
    context: RoomContext,
    joined: Seq<Seq<char>>,
    rooms: Seq<Seq<char>>,
) -> bool {
    forall|i: int|
        0 <= i < rooms.len() ==> room_readable(
            world,
            context,
            #[trigger] rooms[i],
            !joined.contains(rooms[i]),
        )
}

/// The mapping for direct messages that is set for the new user.
pub open spec fn direct_to_set(
    world: World,
    context: RoomContext,
    joined: Seq<Seq<char>>,
    rooms: Map<Seq<char>, RoomPlanView>,
) -> Option<Map<Seq<char>, Seq<Seq<char>>>> {
    match (world(RequestView::Direct(UserKind::Old)), world(RequestView::Direct(UserKind::New))) {
        (Reply::Direct(Ok(Some(old))), Reply::Direct(Ok(new))) => {
            let kept = joined_rooms(joined, rooms);
            if direct_changes(
                direct_rooms(old@),
                direct_or_none(new),
                context.new_user@,
                kept,
            ) {
                Some(
                    migrated_direct(
                        direct_rooms(old@),
                        direct_or_none(new),
                        context.new_user@,
                        kept,
                    ),
                )
            } else {
                None
            }
        },
        _ => None,
    }
}

/// What went wrong with the mapping for direct messages.
pub open spec fn direct_problems(world: World) -> Seq<PlanError> {
    match world(RequestView::Direct(UserKind::Old))->Direct_0 {
        Err(error) => seq![
            PlanError::DirectAccountDataFailed(
                DirectAccountDataPlanError::GetEvent(UserKind::Old, error),
            ),
        ],
        Ok(None) => Seq::empty(),
        Ok(Some(_)) => match world(RequestView::Direct(UserKind::New))->Direct_0 {
            Err(error) => seq![
                PlanError::DirectAccountDataFailed(
                    DirectAccountDataPlanError::GetEvent(UserKind::New, error),
                ),
            ],
            Ok(_) => Seq::empty(),
        },
    }
}

/// Whether the lists of ignored users can be merged, as far as both have been read.
pub open spec fn ignored_readable(world: World) -> bool {
    match (
        world(RequestView::IgnoredUsers(UserKind::Old)),
        world(RequestView::IgnoredUsers(UserKind::New)),
    ) {
        (Reply::IgnoredUsers(Ok(Some(old))), Reply::IgnoredUsers(Ok(new))) => old@.mergeable(
            IGNORED_USERS_MEMBER@,
            members_or_none(new),
        ),
        _ => true,
    }
}

/// The list of ignored users that is set for the new user.
pub open spec fn ignored_to_set(world: World) -> Option<MembersView> {
    match (
        world(RequestView::IgnoredUsers(UserKind::Old)),
        world(RequestView::IgnoredUsers(UserKind::New)),
    ) {
        (Reply::IgnoredUsers(Ok(Some(old))), Reply::IgnoredUsers(Ok(new))) => if old@.adds_to(
            IGNORED_USERS_MEMBER@,
            members_or_none(new),
        ) {
            Some(old@.merged(IGNORED_USERS_MEMBER@, members_or_none(new)))
        } else {
            None
        },
        _ => None,
    }
}

/// What went wrong with the list of ignored users.
pub open spec fn ignored_problems(world: World) -> Seq<PlanError> {
    match world(RequestView::IgnoredUsers(UserKind::Old))->IgnoredUsers_0 {
        Err(error) => seq![
            PlanError::IgnoredUsersAccountDataFailed(
                IgnoredUsersAccountDataPlanError::GetEvent(UserKind::Old, error),
            ),
        ],
        Ok(None) => Seq::empty(),
        Ok(Some(old)) => match world(RequestView::IgnoredUsers(UserKind::New))->IgnoredUsers_0 {
            Err(error) => seq![
                PlanError::IgnoredUsersAccountDataFailed(
                    IgnoredUsersAccountDataPlanError::GetEvent(UserKind::New, error),
                ),
            ],
            Ok(new) => conflict_errors(old.errors(IGNORED_USERS_MEMBER@, members_or_none(new))),
        },
    }
}

/// The plan for two users, given the rooms they are in.
pub open spec fn users_outcome(
    world: World,
    context: RoomContext,
    old_rooms: Seq<Seq<char>>,
    new_rooms: Seq<Seq<char>>,
) -> PhaseView {
    if !rooms_readable(world, context, new_rooms, old_rooms) || !ignored_readable(world) {
        PhaseView::Unreadable
    } else {
        let rooms = rooms_outcome(world, context, new_rooms, old_rooms);
        PhaseView::Done {
            plan: PlanView {
                old_user_id: context.old_user,
                new_user_id: context.new_user,
                rooms,
                direct: direct_to_set(world, context, new_rooms, rooms),
                ignored_users: ignored_to_set(world),
                errors: direct_problems(world) + ignored_problems(world),
            },
        }
    }
}

/// What comes of planning: the first thing that prevents it entirely, or the plan.
pub open spec fn plan_outcome(world: World, leave: bool) -> PhaseView {
    match world(RequestView::UserId(UserKind::Old))->UserId_0 {
        Err(error) => PhaseView::Failed { error: FatalPlanError::GetUserId(UserKind::Old, error) },
        Ok(old_user) => match world(RequestView::UserId(UserKind::New))->UserId_0 {
            Err(error) => PhaseView::Failed {
                error: FatalPlanError::GetUserId(UserKind::New, error),
            },
            Ok(new_user) => match world(RequestView::JoinedRooms(UserKind::Old))->JoinedRooms_0 {
                Err(error) => PhaseView::Failed {
                    error: FatalPlanError::GetJoinedRooms(UserKind::Old, error),
                },
                Ok(old_rooms) => match world(
                    RequestView::JoinedRooms(UserKind::New),
                )->JoinedRooms_0 {
                    Err(error) => PhaseView::Failed {
                        error: FatalPlanError::GetJoinedRooms(UserKind::New, error),
                    },
                    Ok(new_rooms) => users_outcome(
                        world,
                        RoomContext { old_user, new_user, leave },
                        texts(old_rooms@),
                        texts(new_rooms@),
                    ),
                },
            },
        },
    }
}

proof fn lemma_plan_step(phase: PhaseView, leave: bool, world: World)
    requires
        answers_all(world),
        phase.request() is Some,
    ensures
        plan_run(phase, leave, world) == plan_run(
            phase.next(leave, world(phase.request()->0)),
            leave,
            world,
        ),
{
}

proof fn lemma_run_room(
    draft: DraftView,
    planner: RoomPlannerView,
    pending: Seq<Seq<char>>,
    leave: bool,
    world: World,
)
    requires
        answers_all(world),
        planner.request(draft.context.new_user@) is Some,
    ensures
        plan_run(PhaseView::Room { draft, planner, pending }, leave, world) == plan_run(
            PhaseView::after_room(draft, room_run(planner, draft.context, world), pending),
            leave,
            world,
        ),
    decreases distance(planner.stage),
{
    let phase = PhaseView::Room { draft, planner, pending };
    let request = planner.request(draft.context.new_user@)->0;
    let next = planner.next(draft.context, world(request));
    law_room_planning_ends(planner, draft.context, world(request));
    lemma_plan_step(phase, leave, world);
    lemma_room_step(planner, draft.context, world);
    if next.request(draft.context.new_user@) is Some {
        assert(PhaseView::after_room(draft, next, pending) == PhaseView::Room {
            draft,
            planner: next,
            pending,
        });
        lemma_run_room(draft, next, pending, leave, world);
    } else {
        assert(room_run(next, draft.context, world) == next);
    }
}

/// What comes of some rooms, in terms of the first one and the others.
proof fn lemma_first_room(draft: DraftView, pending: Seq<Seq<char>>, world: World)
    requires
        pending.len() > 0,
    ensures
        ({
            let room = pending[0];
            let rest = pending.drop_first();
            let need_join = !draft.joined.contains(room);
            let plan = room_outcome(world, draft.context, room, need_join);
            &&& rooms_readable(world, draft.context, draft.joined, pending) <==> room_readable(
                world,
                draft.context,
                room,
                need_join,
            ) && rooms_readable(world, draft.context, draft.joined, rest)
            &&& draft.rooms.union_prefer_right(
                rooms_outcome(world, draft.context, draft.joined, pending),
            ) == draft.with_room(room, plan).rooms.union_prefer_right(
                rooms_outcome(world, draft.context, draft.joined, rest),
            )
        }),
{
    let room = pending[0];
    let rest = pending.drop_first();
    let plan = room_outcome(world, draft.context, room, !draft.joined.contains(room));
    assert forall|i: int| 0 <= i < rest.len() implies #[trigger] rest[i] == pending[i + 1] by {}
    assert forall|i: int| 0 < i < pending.len() implies #[trigger] pending[i] == rest[i - 1] by {}
    assert forall|other: Seq<char>|
        pending.contains(other) <==> other == room || rest.contains(other) by {
        if rest.contains(other) {
            let i = choose|i: int| 0 <= i < rest.len() && rest[i] == other;
            assert(pending[i + 1] == other);
        }
        if pending.contains(other) && other != room {
            let i = choose|i: int| 0 <= i < pending.len() && pending[i] == other;
            assert(rest[i - 1] == other);
        }
    }
    assert(draft.rooms.union_prefer_right(
        rooms_outcome(world, draft.context, draft.joined, pending),
    ) =~= draft.with_room(room, plan).rooms.union_prefer_right(
        rooms_outcome(world, draft.context, draft.joined, rest),
    ));
}

proof fn lemma_run_rooms(draft: DraftView, pending: Seq<Seq<char>>, leave: bool, world: World)
    requires
        answers_all(world),
    ensures
        plan_run(PhaseView::start_room(draft, pending), leave, world) == if rooms_readable(
            world,
            draft.context,
            draft.joined,
            pending,
        ) {
            let rooms = draft.rooms.union_prefer_right(
                rooms_outcome(world, draft.context, draft.joined, pending),
            );
            plan_run(
                PhaseView::OldDirect { draft: DraftView { rooms, ..draft } },
                leave,
                world,
            )
        } else {
            PhaseView::Unreadable
        },
    decreases pending.len(),
{
    if pending.len() == 0 {
        assert(draft.rooms.union_prefer_right(
            rooms_outcome(world, draft.context, draft.joined, pending),
        ) =~= draft.rooms);
    } else {
        let room = pending[0];
        let need_join = !draft.joined.contains(room);
        let start = RoomPlannerView::start(room, need_join);
        let rest = pending.drop_first();
        lemma_run_room(draft, start, rest, leave, world);
        law_room_planner_reaches_outcome(world, draft.context, room, need_join);
        if room_readable(world, draft.context, room, need_join) {
            let plan = room_outcome(world, draft.context, room, need_join);
            let second = draft.with_room(room, plan);
            lemma_room_kept(start, draft.context, world);
            lemma_run_rooms(second, rest, leave, world);
        }
        lemma_first_room(draft, pending, world);
    }
}

/// A reply does not change which room is planned for.
proof fn lemma_step_keeps_room(planner: RoomPlannerView, context: RoomContext, reply: Reply)
    ensures
        planner.next(context, reply).room == planner.room,
{
}

/// Planning does not change which room is planned for.
proof fn lemma_room_kept(planner: RoomPlannerView, context: RoomContext, world: World)
    ensures
        room_run(planner, context, world).room == planner.room,
    decreases distance(planner.stage),
{
    if let Some(request) = planner.request(context.new_user@) {
        if answers(request, world(request)) {
            lemma_step_keeps_room(planner, context, world(request));
            law_room_planning_ends(planner, context, world(request));
            lemma_room_kept(planner.next(context, world(request)), context, world);
        }
    }
}

proof fn lemma_run_account_data(draft: DraftView, leave: bool, world: World)
    requires
        answers_all(world),
        draft.direct is None,
        draft.errors.len() == 0,
    ensures
        plan_run(PhaseView::OldDirect { draft }, leave, world) == if ignored_readable(world) {
            PhaseView::Done {
                plan: PlanView {
                    old_user_id: draft.context.old_user,
                    new_user_id: draft.context.new_user,
                    rooms: draft.rooms,
                    direct: direct_to_set(world, draft.context, draft.joined, draft.rooms),
                    ignored_users: ignored_to_set(world),
                    errors: direct_problems(world) + ignored_problems(world),
                },
            }
        } else {
            PhaseView::Unreadable
        },
{
    let old_direct = world(RequestView::Direct(UserKind::Old));
    let new_direct = world(RequestView::Direct(UserKind::New));
    let first = PhaseView::OldDirect { draft };
    lemma_plan_step(first, leave, world);
    let second = first.next(leave, old_direct);
    let third = if second is NewDirect {
        lemma_plan_step(second, leave, world);
        second.next(leave, new_direct)
    } else {
        second
    };
    assert(third is OldIgnored);
    let ready = third->OldIgnored_draft;
    assert(ready.errors =~= direct_problems(world));
    assert(ready.direct == direct_to_set(world, draft.context, draft.joined, draft.rooms));
    lemma_run_ignored(ready, leave, world);
}

proof fn lemma_run_ignored(draft: DraftView, leave: bool, world: World)
    requires
        answers_all(world),
    ensures
        plan_run(PhaseView::OldIgnored { draft }, leave, world) == if ignored_readable(world) {
            PhaseView::Done {
                plan: DraftView {
                    errors: draft.errors + ignored_problems(world),
                    ..draft
                }.complete(ignored_to_set(world)),
            }
        } else {
            PhaseView::Unreadable
        },
{
    let old_ignored = world(RequestView::IgnoredUsers(UserKind::Old));
    let new_ignored = world(RequestView::IgnoredUsers(UserKind::New));
    let first = PhaseView::OldIgnored { draft };
    lemma_plan_step(first, leave, world);
    let second = first.next(leave, old_ignored);
    let last = if second is NewIgnored {
        lemma_plan_step(second, leave, world);
        second.next(leave, new_ignored)
    } else {
        second
    };
    assert(plan_run(last, leave, world) == last);
    if last is Done {
        assert(last->plan.errors =~= draft.errors + ignored_problems(world));
    }
}

proof fn lemma_order_is_irrelevant(
    world: World,
    context: RoomContext,
    joined: Seq<Seq<char>>,
    a: Seq<Seq<char>>,
    b: Seq<Seq<char>>,
)
    requires
        forall|x: Seq<char>| a.contains(x) <==> b.contains(x),
    ensures
        rooms_readable(world, context, joined, a) == rooms_readable(world, context, joined, b),
        rooms_outcome(world, context, joined, a) == rooms_outcome(world, context, joined, b),
{
    assert(rooms_outcome(world, context, joined, a) =~= rooms_outcome(world, context, joined, b));
    if rooms_readable(world, context, joined, a) {
        assert forall|i: int| 0 <= i < b.len() implies room_readable(
            world,
            context,
            #[trigger] b[i],
            !joined.contains(b[i]),
        ) by {
            assert(b.contains(b[i]));
            let j = choose|j: int| 0 <= j < a.len() && a[j] == b[i];
            assert(a[j] == b[i]);
        }
    }
    if rooms_readable(world, context, joined, b) {
        assert forall|i: int| 0 <= i < a.len() implies room_readable(
            world,
            context,
            #[trigger] a[i],
            !joined.contains(a[i]),
        ) by {
            assert(a.contains(a[i]));
            let j = choose|j: int| 0 <= j < b.len() && b[j] == a[i];
            assert(b[j] == a[i]);
        }
    }
}

/// Answering everything that a planner asks ends with exactly the plan that the replies call for.
pub proof fn law_planner_reaches_outcome(world: World, leave: bool)
    requires
        answers_all(world),
    ensures
        plan_run(PhaseView::OldUserId, leave, world) == plan_outcome(world, leave),
{
    let a = PhaseView::OldUserId;
    lemma_plan_step(a, leave, world);
    let b = a.next(leave, world(RequestView::UserId(UserKind::Old)));
    if b is NewUserId {
        lemma_plan_step(b, leave, world);
        let c = b.next(leave, world(RequestView::UserId(UserKind::New)));
        if c is OldRooms {
            lemma_plan_step(c, leave, world);
            let d = c.next(leave, world(RequestView::JoinedRooms(UserKind::Old)));
            if d is NewRooms {
                lemma_plan_step(d, leave, world);
                let read = world(RequestView::JoinedRooms(UserKind::New))->JoinedRooms_0;
                if let Ok(joined) = read {
                    let old_user = world(RequestView::UserId(UserKind::Old))->UserId_0->Ok_0;
                    let new_user = world(RequestView::UserId(UserKind::New))->UserId_0->Ok_0;
                    let rooms = texts(
                        world(RequestView::JoinedRooms(UserKind::Old))->JoinedRooms_0->Ok_0@,
                    );
                    let draft = DraftView::start(old_user, new_user, leave, texts(joined@));
                    lemma_run_rooms(draft, sorted_texts(rooms), leave, world);
                    lemma_sorted_texts(rooms);
                    lemma_order_is_irrelevant(
                        world,
                        draft.context,
                        draft.joined,
                        sorted_texts(rooms),
                        rooms,
                    );
                    let all = rooms_outcome(world, draft.context, draft.joined, rooms);
                    assert(draft.rooms.union_prefer_right(all) =~= all);
                    if rooms_readable(world, draft.context, draft.joined, rooms) {
                        lemma_run_account_data(DraftView { rooms: all, ..draft }, leave, world);
                    }
                }
            }
        }
    }
}

/// The plan is about rooms of the old user only, has something to do or to report for each of them
/// that it lists, and never makes the new user join a room that they are in.
pub proof fn law_plan_is_about_old_rooms(
    world: World,
    context: RoomContext,
    old_rooms: Seq<Seq<char>>,
    new_rooms: Seq<Seq<char>>,
    room: Seq<char>,
)
    requires
        users_outcome(world, context, old_rooms, new_rooms) is Done,
        users_outcome(world, context, old_rooms, new_rooms)->plan.rooms.contains_key(room),
    ensures
        ({
            let plan = users_outcome(world, context, old_rooms, new_rooms)->plan.rooms[room];
            &&& old_rooms.contains(room)
            &&& !plan.is_empty()
            &&& plan.join ==> !new_rooms.contains(room)
        }),
{
    crate::room_outcome::law_rooms_are_joined_once(
        world,
        context,
        room,
        !new_rooms.contains(room),
    );
}

/// No room of the old user is forgotten: the new user is in it already, or the plan says to join,
/// or the plan says what is in the way.
pub proof fn law_no_room_is_forgotten(
    world: World,
    context: RoomContext,
    old_rooms: Seq<Seq<char>>,
    new_rooms: Seq<Seq<char>>,
    room: Seq<char>,
)
    requires
        users_outcome(world, context, old_rooms, new_rooms) is Done,
        old_rooms.contains(room),
    ensures
        ({
            let rooms = users_outcome(world, context, old_rooms, new_rooms)->plan.rooms;
            ||| new_rooms.contains(room)
            ||| rooms.contains_key(room) && rooms[room].join
            ||| rooms.contains_key(room) && rooms[room].errors.len() > 0
        }),
{
    let need_join = !new_rooms.contains(room);
    if need_join {
        let plan = room_outcome(world, context, room, need_join);
        if crate::room_outcome::obstacle(world, context, room, need_join) is Some {
            crate::room_outcome::law_obstacles_stop_everything(world, context, room, need_join);
        } else {
            assert(plan.join);
        }
    }
}

/// Where the new user ignores all users that the old one does, the list is not set, and nothing is
/// reported about it.
pub proof fn law_migrated_ignored_users_stay(world: World, old: Members, new: Members)
    requires
        world(RequestView::IgnoredUsers(UserKind::Old)) == Reply::IgnoredUsers(Ok(Some(old))),
        world(RequestView::IgnoredUsers(UserKind::New)) == Reply::IgnoredUsers(Ok(Some(new))),
        old.is_covered(IGNORED_USERS_MEMBER@, new@),
    ensures
        ignored_to_set(world) is None,
        ignored_problems(world).len() == 0,
{
    law_covered_members_stay(old, IGNORED_USERS_MEMBER@, new@);
}

} // verus!
