//! What the planner of a room arrives at, stated over everything the server has to say.

use vstd::prelude::*;

use crate::ids::{after_colon, UserKind};
use crate::members::{law_covered_members_stay, members_or_none, MembersView, TAGS_MEMBER};
use crate::plan::{
    answers, conflict_errors, Reply, RequestView, RoomPlanError, RoomPlanView, RoomTagsPlanError,
};
use crate::room::{
    is_restricted, level_errors, level_to_set, RoomContext, RoomPlannerView, RoomStage,
};
use crate::state::{JoinRule, Membership};

verus! {

/// What the server says in reply to each request.
pub type World = spec_fn(RequestView) -> Reply;

/// Whether every reply is of the kind that its request calls for.
pub open spec fn answers_all(world: World) -> bool {
    forall|request: RequestView| answers(request, #[trigger] world(request))
}

/// How far a planner is from having nothing left to ask.
pub open spec fn distance(stage: RoomStage) -> nat {
    match stage {
        RoomStage::PowerLevels => 8,
        RoomStage::Membership { .. } => 7,
        RoomStage::ServerAcl { .. } => 6,
        RoomStage::JoinRule { .. } => 5,
        RoomStage::OldTags => 4,
        RoomStage::NewTags { .. } => 3,
        RoomStage::HistoryVisibility => 2,
        RoomStage::Alias => 1,
        RoomStage::Done => 0,
        RoomStage::Unreadable => 0,
    }
}

/// The planner after all its requests were answered.
pub open spec fn room_run(
    planner: RoomPlannerView,
    context: RoomContext,
    world: World,
) -> RoomPlannerView
    decreases distance(planner.stage),
{
    match planner.request(context.new_user@) {
        None => planner,
        Some(request) => if answers(request, world(request)) {
            room_run(planner.next(context, world(request)), context, world)
        } else {
            planner
        },
    }
}

/// Every answered request brings a planner closer to the end.
pub proof fn law_room_planning_ends(planner: RoomPlannerView, context: RoomContext, reply: Reply)
    requires
        planner.request(context.new_user@) is Some,
        answers(planner.request(context.new_user@)->0, reply),
    ensures
        distance(planner.next(context, reply).stage) < distance(planner.stage),
{
}

/// An answered request is one step of a run.
pub proof fn lemma_room_step(planner: RoomPlannerView, context: RoomContext, world: World)
    requires
        answers_all(world),
        planner.request(context.new_user@) is Some,
    ensures
        room_run(planner, context, world) == room_run(
            planner.next(context, world(planner.request(context.new_user@)->0)),
            context,
            world,
        ),
{
}

/// What keeps the new user from joining a room, or from being planned for at all.
pub open spec fn obstacle(
    world: World,
    context: RoomContext,
    room: Seq<char>,
    need_join: bool,
) -> Option<RoomPlanError> {
    match world(RequestView::PowerLevels { room })->PowerLevels_0 {
        Err(error) => Some(RoomPlanError::GetPowerLevels(error)),
        Ok(levels) => if !need_join {
            None
        } else {
            match world(
                RequestView::Membership { room, user: context.new_user@ },
            )->Membership_0 {
                Err(error) => Some(RoomPlanError::GetMembership(error)),
                Ok(Some(Membership::Ban)) => Some(RoomPlanError::Banned),
                Ok(_) => match world(RequestView::ServerAcl { room })->ServerAcl_0 {
                    Err(error) => Some(RoomPlanError::GetServerAcl(error)),
                    Ok(acl) => if acl is Some && !acl->0.admits(
                        after_colon(context.new_user@)->0,
                    ) {
                        Some(RoomPlanError::AclBanned)
                    } else {
                        match world(RequestView::JoinRule { room })->JoinRule_0 {
                            Err(error) => Some(RoomPlanError::GetJoinRule(error)),
                            Ok(_) => if needs_invite(world, context, room) && !levels.reaches(
                                context.old_user@,
                                levels.content.invite,
                            ) {
                                Some(RoomPlanError::CannotInvite)
                            } else {
                                None
                            },
                        }
                    },
                },
            }
        },
    }
}

/// Whether the new user cannot join without being invited first: they were not invited yet, and
/// the room is not open to everybody.
pub open spec fn needs_invite(world: World, context: RoomContext, room: Seq<char>) -> bool {
    let membership = world(RequestView::Membership { room, user: context.new_user@ });
    let rule = world(RequestView::JoinRule { room });
    &&& membership != Reply::Membership(Ok(Some(Membership::Invite)))
    &&& rule != Reply::JoinRule(Ok(Some(JoinRule::Public)))
}

/// Whether the tags of both users can be merged, as far as both have been read.
pub open spec fn tags_readable(world: World, room: Seq<char>) -> bool {
    match (
        world(RequestView::Tags { of: UserKind::Old, room }),
        world(RequestView::Tags { of: UserKind::New, room }),
    ) {
        (Reply::Tags(Ok(Some(old))), Reply::Tags(Ok(new))) => old@.mergeable(
            TAGS_MEMBER@,
            members_or_none(new),
        ),
        _ => true,
    }
}

/// The tags that are set for the new user: those of both users, if the old user has more.
pub open spec fn tags_to_set(world: World, room: Seq<char>) -> Option<MembersView> {
    match (
        world(RequestView::Tags { of: UserKind::Old, room }),
        world(RequestView::Tags { of: UserKind::New, room }),
    ) {
        (Reply::Tags(Ok(Some(old))), Reply::Tags(Ok(new))) => if old@.adds_to(
            TAGS_MEMBER@,
            members_or_none(new),
        ) {
            Some(old@.merged(TAGS_MEMBER@, members_or_none(new)))
        } else {
            None
        },
        _ => None,
    }
}

/// What went wrong with the tags.
pub open spec fn tag_problems(world: World, room: Seq<char>) -> Seq<RoomPlanError> {
    match world(RequestView::Tags { of: UserKind::Old, room })->Tags_0 {
        Err(error) => seq![
            RoomPlanError::RoomTagsFailed(RoomTagsPlanError::GetEvent(UserKind::Old, error)),
        ],
        Ok(None) => Seq::empty(),
        Ok(Some(old)) => match world(RequestView::Tags { of: UserKind::New, room })->Tags_0 {
            Err(error) => seq![
                RoomPlanError::RoomTagsFailed(RoomTagsPlanError::GetEvent(UserKind::New, error)),
            ],
            Ok(new) => conflict_errors(old.errors(TAGS_MEMBER@, members_or_none(new))),
        },
    }
}

/// What is to be said about the history of a room.
pub open spec fn history_problems(world: World, room: Seq<char>, need_join: bool) -> Seq<
    RoomPlanError,
> {
    match world(RequestView::HistoryVisibility { room })->HistoryVisibility_0 {
        Err(error) => seq![RoomPlanError::GetHistoryVisibility(error)],
        Ok(visibility) => if visibility is Some && is_restricted(visibility->0) {
            seq![
                RoomPlanError::RestrictedHistoryVisibility {
                    visibility: visibility->0,
                    already_joined: !need_join,
                },
            ]
        } else {
            Seq::empty()
        },
    }
}

/// What is said about the power level of the new user.
pub open spec fn level_problems(world: World, context: RoomContext, room: Seq<char>) -> Seq<
    RoomPlanError,
> {
    match world(RequestView::PowerLevels { room })->PowerLevels_0 {
        Err(_) => Seq::empty(),
        Ok(levels) => level_errors(levels, context.old_user@, context.new_user@),
    }
}

/// The plan for a room but for its alias.
pub open spec fn unnamed_outcome(
    world: World,
    context: RoomContext,
    room: Seq<char>,
    need_join: bool,
) -> RoomPlanView {
    match obstacle(world, context, room, need_join) {
        Some(error) => RoomPlanView {
            errors: level_problems(world, context, room).push(error),
            ..RoomPlanView::nothing()
        },
        None => {
            let errors = level_problems(world, context, room) + tag_problems(world, room)
                + history_problems(world, room, need_join);
            RoomPlanView {
                alias: None,
                invite: need_join && needs_invite(world, context, room),
                join: need_join,
                leave: context.leave && errors.len() == 0,
                power_level: level_to_set(
                    world(RequestView::PowerLevels { room })->PowerLevels_0->Ok_0,
                    context.old_user@,
                    context.new_user@,
                ),
                account_data: tags_to_set(world, room),
                errors,
            }
        },
    }
}

/// A plan with the alias of its room, if there is anything to show.
pub open spec fn named(world: World, room: Seq<char>, plan: RoomPlanView) -> RoomPlanView {
    if plan.is_empty() {
        plan
    } else {
        match world(RequestView::Alias { room })->Alias_0 {
            Ok(alias) => RoomPlanView { alias, ..plan },
            Err(error) => plan.with_error(RoomPlanError::GetAlias(error)),
        }
    }
}

/// The plan for a room.
pub open spec fn room_outcome(
    world: World,
    context: RoomContext,
    room: Seq<char>,
    need_join: bool,
) -> RoomPlanView {
    named(world, room, unnamed_outcome(world, context, room, need_join))
}

/// Whether the planner of a room comes to the end: it does unless it has to merge tags that cannot
/// be merged.
pub open spec fn room_readable(
    world: World,
    context: RoomContext,
    room: Seq<char>,
    need_join: bool,
) -> bool {
    obstacle(world, context, room, need_join) is Some || tags_readable(world, room)
}

proof fn lemma_run_finish(planner: RoomPlannerView, context: RoomContext, world: World)
    requires
        answers_all(world),
    ensures
        ({
            let plan = RoomPlanView {
                leave: context.leave && planner.draft.errors.len() == 0,
                ..planner.draft
            };
            room_run(planner.finish(context.leave), context, world) == RoomPlannerView {
                stage: RoomStage::Done,
                draft: named(world, planner.room, plan),
                ..planner
            }
        }),
{
    reveal_with_fuel(room_run, 3);
}

proof fn lemma_run_history(planner: RoomPlannerView, context: RoomContext, world: World)
    requires
        answers_all(world),
        planner.stage is HistoryVisibility,
    ensures
        ({
            let errors = planner.draft.errors + history_problems(
                world,
                planner.room,
                planner.need_join,
            );
            let plan = RoomPlanView {
                leave: context.leave && errors.len() == 0,
                errors,
                ..planner.draft
            };
            room_run(planner, context, world) == RoomPlannerView {
                stage: RoomStage::Done,
                draft: named(world, planner.room, plan),
                ..planner
            }
        }),
{
    let problems = history_problems(world, planner.room, planner.need_join);
    if problems.len() == 0 {
        assert(planner.draft.errors + problems =~= planner.draft.errors);
        lemma_run_finish(planner, context, world);
    } else {
        assert(planner.draft.errors + problems =~= planner.draft.errors.push(problems[0]));
        lemma_run_finish(planner.with_error(problems[0]), context, world);
    }
}

proof fn lemma_run_tags(planner: RoomPlannerView, context: RoomContext, world: World)
    requires
        answers_all(world),
        planner.stage is OldTags,
        planner.draft.account_data is None,
    ensures
        ({
            let errors = planner.draft.errors + tag_problems(world, planner.room)
                + history_problems(world, planner.room, planner.need_join);
            let plan = RoomPlanView {
                leave: context.leave && errors.len() == 0,
                account_data: tags_to_set(world, planner.room),
                errors,
                ..planner.draft
            };
            if tags_readable(world, planner.room) {
                room_run(planner, context, world) == RoomPlannerView {
                    stage: RoomStage::Done,
                    draft: named(world, planner.room, plan),
                    ..planner
                }
            } else {
                room_run(planner, context, world).stage is Unreadable
            }
        }),
{
    let old_request = RequestView::Tags { of: UserKind::Old, room: planner.room };
    let new_request = RequestView::Tags { of: UserKind::New, room: planner.room };
    let problems = tag_problems(world, planner.room);
    let second = planner.next(context, world(old_request));
    assert(room_run(planner, context, world) == room_run(second, context, world));
    let last = if second.stage is NewTags {
        let third = second.next(context, world(new_request));
        assert(room_run(second, context, world) == room_run(third, context, world));
        third
    } else {
        second
    };
    if last.stage is HistoryVisibility {
        assert(last.draft.errors =~= planner.draft.errors + problems);
        lemma_run_history(last, context, world);
    }
}

/// Answering everything that the planner of a room asks ends with exactly the plan that the
/// replies call for. If tags have to be merged that cannot be, it ends without a plan.
pub proof fn law_room_planner_reaches_outcome(
    world: World,
    context: RoomContext,
    room: Seq<char>,
    need_join: bool,
)
    requires
        answers_all(world),
    ensures
        ({
            let end = room_run(RoomPlannerView::start(room, need_join), context, world);
            if room_readable(world, context, room, need_join) {
                &&& end.stage is Done
                &&& end.draft == room_outcome(world, context, room, need_join)
            } else {
                end.stage is Unreadable
            }
        }),
{
    let start = RoomPlannerView::start(room, need_join);
    let levels_request = RequestView::PowerLevels { room };
    let member_request = RequestView::Membership { room, user: context.new_user@ };
    let acl_request = RequestView::ServerAcl { room };
    let rule_request = RequestView::JoinRule { room };
    match world(levels_request)->PowerLevels_0 {
        Err(error) => {
            lemma_run_finish(
                start.with_error(RoomPlanError::GetPowerLevels(error)),
                context,
                world,
            );
        },
        Ok(levels) => {
            let a = start.next(context, world(levels_request));
            assert(a.draft.errors =~= level_problems(world, context, room));
            assert(room_run(start, context, world) == room_run(a, context, world));
            let obstacle = obstacle(world, context, room, need_join);
            let last = if !need_join {
                a
            } else {
                let b = a.next(context, world(member_request));
                assert(room_run(a, context, world) == room_run(b, context, world));
                if b.stage is ServerAcl {
                    let c = b.next(context, world(acl_request));
                    assert(room_run(b, context, world) == room_run(c, context, world));
                    if c.stage is JoinRule {
                        let d = c.next(context, world(rule_request));
                        assert(room_run(c, context, world) == room_run(d, context, world));
                        d
                    } else {
                        c
                    }
                } else {
                    b
                }
            };
            if obstacle is Some {
                assert(last == a.with_error(obstacle->0).finish(context.leave));
                lemma_run_finish(a.with_error(obstacle->0), context, world);
            } else {
                assert(last == a.commit(need_join && needs_invite(world, context, room)));
                lemma_run_tags(last, context, world);
            }
        },
    }
}

/// Where something keeps the new user from joining, it is reported, and nothing is planned.
pub proof fn law_obstacles_stop_everything(
    world: World,
    context: RoomContext,
    room: Seq<char>,
    need_join: bool,
)
    requires
        obstacle(world, context, room, need_join) is Some,
    ensures
        ({
            let plan = room_outcome(world, context, room, need_join);
            &&& plan.errors.contains(obstacle(world, context, room, need_join)->0)
            &&& !plan.invite
            &&& !plan.join
            &&& !plan.leave
            &&& plan.power_level is None
            &&& plan.account_data is None
        }),
{
    let error = obstacle(world, context, room, need_join)->0;
    let before = level_problems(world, context, room);
    assert(before.push(error)[before.len() as int] == error);
    let plan = unnamed_outcome(world, context, room, need_join);
    if let Err(alias_error) = world(RequestView::Alias { room })->Alias_0 {
        let errors = plan.errors.push(RoomPlanError::GetAlias(alias_error));
        assert(errors[before.len() as int] == error);
    }
}

/// A room that the new user is in already is not joined again, and an invitation always goes with
/// joining.
pub proof fn law_rooms_are_joined_once(
    world: World,
    context: RoomContext,
    room: Seq<char>,
    need_join: bool,
)
    ensures
        ({
            let plan = room_outcome(world, context, room, need_join);
            &&& plan.join ==> need_join
            &&& plan.invite ==> plan.join && needs_invite(world, context, room)
        }),
{
}

/// The new user is only invited by an old user who may invite, and is only given the level of the
/// old user, where it is higher than their own and the old user may set it.
pub proof fn law_power_is_not_exceeded(
    world: World,
    context: RoomContext,
    room: Seq<char>,
    need_join: bool,
)
    requires
        world(RequestView::PowerLevels { room }) matches Reply::PowerLevels(Ok(_)),
    ensures
        ({
            let plan = room_outcome(world, context, room, need_join);
            let levels = world(RequestView::PowerLevels { room })->PowerLevels_0->Ok_0;
            let old = context.old_user@;
            let new = context.new_user@;
            &&& plan.invite ==> levels.reaches(old, levels.content.invite)
            &&& plan.power_level matches Some(level) ==> {
                &&& level == levels.level_of(old).spec_as_int()
                &&& levels.level_of(new).spec_less(levels.level_of(old))
                &&& levels.may_change_level(old, new)
            }
        }),
{
}

/// A room is only left if that is wanted and it is fully migrated: nothing went wrong, except maybe
/// with its alias.
pub proof fn law_only_fully_migrated_rooms_are_left(
    world: World,
    context: RoomContext,
    room: Seq<char>,
    need_join: bool,
)
    requires
        room_outcome(world, context, room, need_join).leave,
    ensures
        context.leave,
        forall|i: int|
            0 <= i < room_outcome(world, context, room, need_join).errors.len() ==> (
            #[trigger] room_outcome(world, context, room, need_join).errors[i]) is GetAlias,
{
    let plan = unnamed_outcome(world, context, room, need_join);
    assert(plan.errors.len() == 0);
    if let Err(error) = world(RequestView::Alias { room })->Alias_0 {
        assert(plan.errors.push(RoomPlanError::GetAlias(error))[0] is GetAlias);
    }
}

/// Whether all tags of the old user are among those of the new user, with the same values.
pub open spec fn tags_migrated(world: World, room: Seq<char>) -> bool {
    match (
        world(RequestView::Tags { of: UserKind::Old, room }),
        world(RequestView::Tags { of: UserKind::New, room }),
    ) {
        (Reply::Tags(Ok(Some(old))), Reply::Tags(Ok(Some(new)))) => old.is_covered(
            TAGS_MEMBER@,
            new@,
        ),
        (Reply::Tags(Ok(None)), _) => true,
        _ => false,
    }
}

/// A room that was migrated has nothing left to do but to leave it: the new user is in it, has at
/// least the level of the old user and all their tags, and can see the history.
pub proof fn law_migrated_rooms_are_only_left(world: World, context: RoomContext, room: Seq<char>)
    requires
        world(RequestView::PowerLevels { room }) matches Reply::PowerLevels(Ok(levels))
            && !levels.level_of(context.new_user@).spec_less(levels.level_of(context.old_user@)),
        tags_migrated(world, room),
        history_problems(world, room, false).len() == 0,
    ensures
        unnamed_outcome(world, context, room, false) == (RoomPlanView {
            leave: context.leave,
            ..RoomPlanView::nothing()
        }),
{
    let plan = unnamed_outcome(world, context, room, false);
    if let Reply::Tags(Ok(Some(old))) = world(RequestView::Tags { of: UserKind::Old, room }) {
        let new = world(RequestView::Tags { of: UserKind::New, room })->Tags_0->Ok_0->0;
        law_covered_members_stay(old, TAGS_MEMBER@, new@);
    }
    assert(plan.errors =~= Seq::empty());
}

} // verus!
