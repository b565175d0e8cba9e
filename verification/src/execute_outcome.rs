//! What an execution does, stated over how every action would go.

use vstd::prelude::*;

use crate::execute::{
    action_after, action_at, any_global, called_for, go_on, has_failed, leave_from, room_at,
    room_failure, room_plan_at, start_global, start_ignored, start_leaving, start_rooms,
    step_after_invite, step_after_join, step_after_levels, write_levels, ActionView, Event,
    Failure, GlobalData, PowerLevelError, Progress, RoomError, RoomStep, Stage,
    JOIN_DELAY_MILLIS,
};
use crate::ids::after_colon;
use crate::json::array_object_text;
use crate::members::{IGNORED_USERS_MEMBER, TAGS_MEMBER};
use crate::plan::Plan;
use crate::state::AccessError;
use crate::text::lemma_text_order;
use crate::text_map::keys_of;

verus! {

/// How each action goes.
pub type Outcomes = spec_fn(ActionView) -> Event;

/// Whether an event is of the kind that an action brings about. Sleeping cannot fail.
pub open spec fn concludes(action: ActionView, event: Event) -> bool {
    match action {
        ActionView::ReadPowerLevels { .. } => event is PowerLevels,
        ActionView::Sleep { .. } => event is Finished && event->Finished_0 is Ok,
        _ => event is Finished,
    }
}

/// Whether every action brings about an event of its kind.
pub open spec fn concludes_all(outcomes: Outcomes) -> bool {
    forall|action: ActionView| concludes(action, #[trigger] outcomes(action))
}

/// Whether an action succeeds.
pub open spec fn succeeds(outcomes: Outcomes, action: ActionView) -> bool {
    outcomes(action).error() is None
}

/// What kind of stages are left.
pub open spec fn kinds_left(stage: Stage) -> nat {
    match stage {
        Stage::Room { .. } => 4,
        Stage::Global { data: GlobalData::Direct } => 3,
        Stage::Global { data: GlobalData::IgnoredUsers } => 2,
        Stage::Leave { .. } => 1,
        Stage::Done => 0,
        Stage::Broken => 0,
    }
}

/// How many rooms are left in a pass over the rooms.
pub open spec fn rooms_left(plan: Plan, stage: Stage) -> int {
    match stage {
        Stage::Room { at, .. } => plan.rooms.entries().len() - at,
        Stage::Leave { at } => plan.rooms.entries().len() - at,
        _ => 0,
    }
}

/// How many steps are left at most for a room.
pub open spec fn steps_left(stage: Stage) -> nat {
    match stage {
        Stage::Room { step: RoomStep::Invite, .. } => 7,
        Stage::Room { step: RoomStep::WaitForInvite, .. } => 6,
        Stage::Room { step: RoomStep::Pause, .. } => 5,
        Stage::Room { step: RoomStep::Join, .. } => 4,
        Stage::Room { step: RoomStep::ReadPowerLevels, .. } => 3,
        Stage::Room { step: RoomStep::WritePowerLevels, .. } => 2,
        Stage::Room { step: RoomStep::SetTags, .. } => 1,
        _ => 0,
    }
}

/// Whether a stage comes after another.
pub open spec fn is_later(plan: Plan, later: Stage, stage: Stage) -> bool {
    ||| kinds_left(later) < kinds_left(stage)
    ||| kinds_left(later) == kinds_left(stage) && 0 <= rooms_left(plan, later) < rooms_left(
        plan,
        stage,
    )
    ||| kinds_left(later) == kinds_left(stage) && rooms_left(plan, later) == rooms_left(plan, stage)
        && steps_left(later) < steps_left(stage)
}

proof fn lemma_leave_later(plan: Plan, failures: Seq<Failure>, at: int)
    requires
        0 <= at,
        plan.rooms.entries().len() <= usize::MAX,
    ensures
        match leave_from(plan, failures, at) {
            Stage::Leave { at: left } => at <= left < plan.rooms.entries().len(),
            Stage::Done => true,
            _ => false,
        },
    decreases plan.rooms.entries().len() - at,
{
    if at < plan.rooms.entries().len() {
        lemma_leave_later(plan, failures, at + 1);
    }
}

proof fn lemma_rooms_later(plan: Plan, failures: Seq<Failure>, at: int)
    requires
        0 <= at,
        plan.rooms.entries().len() <= usize::MAX,
    ensures
        match start_rooms(plan, failures, at) {
            Stage::Room { at: started, .. } => at <= started < plan.rooms.entries().len(),
            Stage::Broken => false,
            _ => true,
        },
    decreases plan.rooms.entries().len() - at,
{
    lemma_leave_later(plan, failures, 0);
    if at < plan.rooms.entries().len() {
        lemma_rooms_later(plan, failures, at + 1);
    }
}

/// Every action that is concluded brings an execution closer to its end.
pub proof fn law_execution_ends(plan: Plan, progress: Progress, event: Event)
    requires
        plan.rooms.entries().len() <= usize::MAX,
        called_for(plan, progress.stage),
        !(progress.stage is Done),
        !(progress.stage is Broken),
        progress.stage matches Stage::Room { step: RoomStep::ReadPowerLevels, .. }
            ==> event is PowerLevels,
    ensures
        is_later(plan, progress.next(plan, event).stage, progress.stage),
{
    let failures = progress.next(plan, event).failures;
    lemma_leave_later(plan, failures, 0);
    match progress.stage {
        Stage::Room { at, .. } => lemma_rooms_later(plan, failures, at + 1),
        Stage::Leave { at } => lemma_leave_later(plan, failures, at + 1),
        _ => {},
    }
}

/// Failures are never forgotten.
pub proof fn law_failures_stay(plan: Plan, progress: Progress, event: Event)
    ensures
        progress.failures.is_prefix_of(progress.next(plan, event).failures),
        progress.next(plan, event).failures.len() == progress.failures.len() + (
        if event.error() is None || progress.stage is Done || progress.stage is Broken {
            0int
        } else {
            1int
        }),
{
}

/// Whether it is safe to leave a room, if that is what is done next: the plan says so, and nothing
/// failed in that room or outside of rooms.
pub open spec fn leaves_safely(plan: Plan, progress: Progress) -> bool {
    progress.stage matches Stage::Leave { at } ==> {
        &&& at < plan.rooms.entries().len()
        &&& room_plan_at(plan, at as int).leave
        &&& !has_failed(progress.failures, room_at(plan, at as int))
        &&& !any_global(progress.failures)
    }
}

/// The old user only leaves a room if it is safe to: at the start, and after every action.
pub proof fn law_leaving_is_safe(plan: Plan, progress: Progress, event: Event)
    requires
        plan.rooms.entries().len() <= usize::MAX,
    ensures
        leaves_safely(plan, Progress::start(plan)),
        leaves_safely(plan, progress) ==> leaves_safely(plan, progress.next(plan, event)),
{
    let failures = progress.next(plan, event).failures;
    lemma_rooms_leave_is_safe(plan, Seq::empty(), 0);
    lemma_leave_is_safe(plan, failures, 0);
    match progress.stage {
        Stage::Room { at, .. } => {
            lemma_rooms_leave_is_safe(plan, failures, at + 1);
        },
        Stage::Leave { at } => {
            lemma_leave_is_safe(plan, failures, at + 1);
            if leaves_safely(plan, progress) && any_global(failures) {
                let i = choose|i: int| 0 <= i < failures.len() && #[trigger] failures[i] is Global;
                assert(progress.failures[i] is Global);
            }
        },
        _ => {},
    }
}

proof fn lemma_leave_is_safe(plan: Plan, failures: Seq<Failure>, at: int)
    requires
        0 <= at,
        plan.rooms.entries().len() <= usize::MAX,
    ensures
        leave_from(plan, failures, at) matches Stage::Leave { at } ==> {
            &&& at < plan.rooms.entries().len()
            &&& room_plan_at(plan, at as int).leave
            &&& !has_failed(failures, room_at(plan, at as int))
        },
    decreases plan.rooms.entries().len() - at,
{
    if at < plan.rooms.entries().len() {
        lemma_leave_is_safe(plan, failures, at + 1);
    }
}

proof fn lemma_rooms_leave_is_safe(plan: Plan, failures: Seq<Failure>, at: int)
    requires
        0 <= at,
        plan.rooms.entries().len() <= usize::MAX,
    ensures
        start_rooms(plan, failures, at) matches Stage::Leave { at } ==> {
            &&& at < plan.rooms.entries().len()
            &&& room_plan_at(plan, at as int).leave
            &&& !has_failed(failures, room_at(plan, at as int))
            &&& !any_global(failures)
        },
    decreases plan.rooms.entries().len() - at,
{
    lemma_leave_is_safe(plan, failures, 0);
    if at < plan.rooms.entries().len() {
        lemma_rooms_leave_is_safe(plan, failures, at + 1);
    }
}

/// What an execution does: the actions in their order, and what of them fails.
#[verifier::ext_equal]
pub struct History {
    pub actions: Seq<ActionView>,
    pub failures: Seq<Failure>,
}

impl History {
    pub open spec fn none() -> History {
        History { actions: Seq::empty(), failures: Seq::empty() }
    }

    /// One history followed by another.
    pub open spec fn then_also(self, other: History) -> History {
        History {
            actions: self.actions + other.actions,
            failures: self.failures + other.failures,
        }
    }
}

/// What follows when an action is the next one to do.
pub open spec fn execution(
    plan: Plan,
    progress: Progress,
    action: Option<ActionView>,
    outcomes: Outcomes,
) -> History
    decreases
            kinds_left(progress.stage),
            rooms_left(plan, progress.stage),
            steps_left(progress.stage),
{
    match action {
        None => History::none(),
        Some(action) => {
            let event = outcomes(action);
            let next = progress.next(plan, event);
            if is_later(plan, next.stage, progress.stage) {
                let rest = execution(plan, next, action_after(plan, progress, event), outcomes);
                History {
                    actions: seq![action] + rest.actions,
                    failures: next.failures.skip(progress.failures.len() as int) + rest.failures,
                }
            } else {
                History::none()
            }
        },
    }
}

/// A single action, with what it is reported as if it fails.
pub open spec fn attempt(
    outcomes: Outcomes,
    action: ActionView,
    report: spec_fn(AccessError) -> Failure,
) -> History {
    History {
        actions: seq![action],
        failures: match outcomes(action).error() {
            Some(error) => seq![report(error)],
            None => Seq::empty(),
        },
    }
}

pub open spec fn invite_action(plan: Plan, at: int) -> ActionView {
    ActionView::Invite { room: room_at(plan, at), user: plan.new_user_id@ }
}

pub open spec fn wait_action(plan: Plan, at: int) -> ActionView {
    ActionView::WaitForInvite { room: room_at(plan, at) }
}

pub open spec fn join_action(plan: Plan, at: int) -> ActionView {
    ActionView::Join { room: room_at(plan, at), via: after_colon(plan.old_user_id@)->0 }
}

pub open spec fn read_action(plan: Plan, at: int) -> ActionView {
    ActionView::ReadPowerLevels { room: room_at(plan, at) }
}

pub open spec fn tags_action(plan: Plan, at: int) -> ActionView {
    ActionView::SetTags {
        room: room_at(plan, at),
        content: room_plan_at(plan, at).account_data->0.text(TAGS_MEMBER@),
    }
}

/// Inviting the new user: the invitation, then waiting for it to arrive, then a short pause, each
/// only if what comes before it succeeds.
pub open spec fn invite_history(plan: Plan, at: int, outcomes: Outcomes) -> History {
    let invite = invite_action(plan, at);
    let wait = wait_action(plan, at);
    if !room_plan_at(plan, at).invite {
        History::none()
    } else {
        let invited = attempt(
            outcomes,
            invite,
            |error: AccessError| room_failure(plan, at, RoomError::Invite(error)),
        );
        if !succeeds(outcomes, invite) {
            invited
        } else {
            let waited = attempt(
                outcomes,
                wait,
                |error: AccessError| room_failure(plan, at, RoomError::WaitInvite(error)),
            );
            if !succeeds(outcomes, wait) {
                invited.then_also(waited)
            } else {
                invited.then_also(waited).then_also(
                    History {
                        actions: seq![ActionView::Sleep { millis: JOIN_DELAY_MILLIS }],
                        failures: Seq::empty(),
                    },
                )
            }
        }
    }
}

/// Whether the new user has been invited, as far as that is planned.
pub open spec fn admitted(plan: Plan, at: int, outcomes: Outcomes) -> bool {
    room_plan_at(plan, at).invite ==> {
        &&& succeeds(outcomes, invite_action(plan, at))
        &&& succeeds(outcomes, wait_action(plan, at))
    }
}

/// Joining, if the new user was admitted.
pub open spec fn join_history(plan: Plan, at: int, outcomes: Outcomes) -> History {
    if room_plan_at(plan, at).join && admitted(plan, at, outcomes) {
        attempt(
            outcomes,
            join_action(plan, at),
            |error: AccessError| room_failure(plan, at, RoomError::Join(error)),
        )
    } else {
        History::none()
    }
}

/// Whether the new user is in the room, as far as that is planned.
pub open spec fn entered(plan: Plan, at: int, outcomes: Outcomes) -> bool {
    &&& admitted(plan, at, outcomes)
    &&& room_plan_at(plan, at).join ==> succeeds(outcomes, join_action(plan, at))
}

/// Copying the power level, if the new user is in the room: the power levels are read, and if that
/// succeeds they are set.
pub open spec fn level_history(plan: Plan, at: int, outcomes: Outcomes) -> History {
    if room_plan_at(plan, at).power_level is Some && entered(plan, at, outcomes) {
        let read = attempt(
            outcomes,
            read_action(plan, at),
            |error: AccessError|
                room_failure(plan, at, RoomError::PowerLevel(PowerLevelError::Read(error))),
        );
        match outcomes(read_action(plan, at)) {
            Event::PowerLevels(Ok(levels)) => read.then_also(
                attempt(
                    outcomes,
                    write_levels(plan, at, levels),
                    |error: AccessError|
                        room_failure(plan, at, RoomError::PowerLevel(PowerLevelError::Write(error))),
                ),
            ),
            _ => read,
        }
    } else {
        History::none()
    }
}

/// Setting the tags, if the new user is in the room.
pub open spec fn tags_history(plan: Plan, at: int, outcomes: Outcomes) -> History {
    if room_plan_at(plan, at).account_data is Some && entered(plan, at, outcomes) {
        attempt(
            outcomes,
            tags_action(plan, at),
            |error: AccessError| room_failure(plan, at, RoomError::Tags(error)),
        )
    } else {
        History::none()
    }
}

/// What is done for a room.
pub open spec fn room_history(plan: Plan, at: int, outcomes: Outcomes) -> History {
    invite_history(plan, at, outcomes).then_also(join_history(plan, at, outcomes)).then_also(
        level_history(plan, at, outcomes),
    ).then_also(tags_history(plan, at, outcomes))
}

/// What is done for the rooms from a position on.
pub open spec fn rooms_history(plan: Plan, at: int, outcomes: Outcomes) -> History
    decreases plan.rooms.entries().len() - at,
{
    if at >= plan.rooms.entries().len() {
        History::none()
    } else {
        room_history(plan, at, outcomes).then_also(rooms_history(plan, at + 1, outcomes))
    }
}

pub open spec fn direct_action(plan: Plan) -> ActionView {
    ActionView::SetGlobal {
        data: GlobalData::Direct,
        content: array_object_text(plan.direct->0.entries()),
    }
}

pub open spec fn ignored_action(plan: Plan) -> ActionView {
    ActionView::SetGlobal {
        data: GlobalData::IgnoredUsers,
        content: plan.ignored_users->0.text(IGNORED_USERS_MEMBER@),
    }
}

pub open spec fn leave_action(plan: Plan, at: int) -> ActionView {
    ActionView::Leave { room: room_at(plan, at) }
}

/// What is done about the direct message mapping.
pub open spec fn direct_history(plan: Plan, outcomes: Outcomes) -> History {
    if plan.direct is Some {
        attempt(
            outcomes,
            direct_action(plan),
            |error: AccessError| Failure::Global { data: GlobalData::Direct, cause: error },
        )
    } else {
        History::none()
    }
}

/// What is done about the list of ignored users.
pub open spec fn ignored_history(plan: Plan, outcomes: Outcomes) -> History {
    if plan.ignored_users is Some {
        attempt(
            outcomes,
            ignored_action(plan),
            |error: AccessError| Failure::Global { data: GlobalData::IgnoredUsers, cause: error },
        )
    } else {
        History::none()
    }
}

/// Leaving the rooms from a position on that should be left and in which nothing failed.
pub open spec fn leave_history(
    plan: Plan,
    failures: Seq<Failure>,
    at: int,
    outcomes: Outcomes,
) -> History
    decreases plan.rooms.entries().len() - at,
{
    if at >= plan.rooms.entries().len() {
        History::none()
    } else if room_plan_at(plan, at).leave && !has_failed(failures, room_at(plan, at)) {
        attempt(
            outcomes,
            leave_action(plan, at),
            |error: AccessError| room_failure(plan, at, RoomError::Leave(error)),
        ).then_also(leave_history(plan, failures, at + 1, outcomes))
    } else {
        leave_history(plan, failures, at + 1, outcomes)
    }
}

/// Everything that is migrated, before any room is left.
pub open spec fn migration_history(plan: Plan, outcomes: Outcomes) -> History {
    rooms_history(plan, 0, outcomes).then_also(direct_history(plan, outcomes)).then_also(
        ignored_history(plan, outcomes),
    )
}

/// What the execution of a plan does: it migrates all rooms, then the global data. After that,
/// unless some global data failed, the old user leaves every room that should be left and in which
/// nothing failed.
pub open spec fn plan_history(plan: Plan, outcomes: Outcomes) -> History {
    let migration = migration_history(plan, outcomes);
    if any_global(migration.failures) {
        migration
    } else {
        migration.then_also(leave_history(plan, migration.failures, 0, outcomes))
    }
}

/// Whether the power levels that are read can be sent back: no privileged creator has an entry.
pub open spec fn levels_sendable(plan: Plan, outcomes: Outcomes) -> bool {
    forall|at: int|
        0 <= at < plan.rooms.entries().len() ==> match outcomes(#[trigger] read_action(plan, at)) {
            Event::PowerLevels(Ok(levels)) => !levels.lists_creator(),
            _ => true,
        }
}

/// What follows from a stage on.
spec fn from_stage(plan: Plan, stage: Stage, failures: Seq<Failure>, outcomes: Outcomes) -> History {
    execution(plan, Progress { stage, failures }, action_at(plan, stage), outcomes)
}

/// What follows once everything was migrated.
spec fn leaving_history(plan: Plan, failures: Seq<Failure>, outcomes: Outcomes) -> History {
    if any_global(failures) {
        History::none()
    } else {
        leave_history(plan, failures, 0, outcomes)
    }
}

/// The first action at a stage, and what follows it.
proof fn lemma_attempt(
    plan: Plan,
    stage: Stage,
    failures: Seq<Failure>,
    outcomes: Outcomes,
    report: spec_fn(AccessError) -> Failure,
)
    requires
        plan.rooms.entries().len() <= usize::MAX,
        called_for(plan, stage),
        concludes_all(outcomes),
        action_at(plan, stage) is Some,
        !(stage matches Stage::Room { step: RoomStep::ReadPowerLevels, .. }),
        ({
            let event = outcomes(action_at(plan, stage)->0);
            event.error() matches Some(error) ==> Progress { stage, failures }.next(
                plan,
                event,
            ).failures == failures.push(report(error))
        }),
    ensures
        ({
            let action = action_at(plan, stage)->0;
            let next = Progress { stage, failures }.next(plan, outcomes(action));
            &&& next.failures == failures + attempt(outcomes, action, report).failures
            &&& from_stage(plan, stage, failures, outcomes) == attempt(
                outcomes,
                action,
                report,
            ).then_also(from_stage(plan, next.stage, next.failures, outcomes))
        }),
{
    let progress = Progress { stage, failures };
    let action = action_at(plan, stage)->0;
    let event = outcomes(action);
    let next = progress.next(plan, event);
    let tried = attempt(outcomes, action, report);
    assert(concludes(action, event));
    law_execution_ends(plan, progress, event);
    law_failures_stay(plan, progress, event);
    assert(next.failures =~= failures + tried.failures);
    assert(next.failures.skip(failures.len() as int) =~= tried.failures);
    let rest = from_stage(plan, next.stage, next.failures, outcomes);
    assert(action_after(plan, progress, event) == action_at(plan, next.stage));
    assert(from_stage(plan, stage, failures, outcomes) =~= tried.then_also(rest));
}

proof fn lemma_leaving(
    plan: Plan,
    before: Seq<Failure>,
    failures: Seq<Failure>,
    at: int,
    outcomes: Outcomes,
)
    requires
        0 <= at,
        plan.rooms.entries().len() <= usize::MAX,
        plan.rooms.ordered(),
        concludes_all(outcomes),
        forall|i: int|
            at <= i < plan.rooms.entries().len() ==> has_failed(
                failures,
                #[trigger] room_at(plan, i),
            ) == has_failed(before, room_at(plan, i)),
    ensures
        from_stage(plan, leave_from(plan, failures, at), failures, outcomes) == leave_history(
            plan,
            before,
            at,
            outcomes,
        ),
    decreases plan.rooms.entries().len() - at,
{
    if at < plan.rooms.entries().len() {
        let room = room_at(plan, at);
        if room_plan_at(plan, at).leave && !has_failed(failures, room) {
            let stage = Stage::Leave { at: at as usize };
            let report = |error: AccessError| room_failure(plan, at, RoomError::Leave(error));
            lemma_attempt(plan, stage, failures, outcomes, report);
            let action = ActionView::Leave { room };
            let after = failures + attempt(outcomes, action, report).failures;
            assert forall|i: int| at < i < plan.rooms.entries().len() implies has_failed(
                after,
                #[trigger] room_at(plan, i),
            ) == has_failed(before, room_at(plan, i)) by {
                let other = room_at(plan, i);
                assert(keys_of(plan.rooms.entries())[at] == room);
                assert(keys_of(plan.rooms.entries())[i] == other);
                lemma_text_order(room, other);
                assert(room != other);
                lemma_other_room(failures, attempt(outcomes, action, report).failures, room, other);
            }
            lemma_leaving(plan, before, after, at + 1, outcomes);
        } else {
            lemma_leaving(plan, before, failures, at + 1, outcomes);
        }
    }
}

/// What fails in one room does not count for another.
proof fn lemma_other_room(
    failures: Seq<Failure>,
    more: Seq<Failure>,
    room: Seq<char>,
    other: Seq<char>,
)
    requires
        room != other,
        forall|i: int|
            0 <= i < more.len() ==> (#[trigger] more[i] matches Failure::Room { room: failed, .. }
                && failed@ == room),
    ensures
        has_failed(failures + more, other) == has_failed(failures, other),
{
    let all = failures + more;
    if has_failed(failures, other) {
        let i = choose|i: int|
            0 <= i < failures.len() && (#[trigger] failures[i] matches Failure::Room {
                room: failed,
                ..
            } && failed@ == other);
        assert(all[i] == failures[i]);
    }
    if has_failed(all, other) {
        let i = choose|i: int|
            0 <= i < all.len() && (#[trigger] all[i] matches Failure::Room { room: failed, .. }
                && failed@ == other);
        if i >= failures.len() {
            assert(more[i - failures.len()] == all[i]);
        } else {
            assert(failures[i] == all[i]);
        }
    }
}

proof fn lemma_start_leaving(plan: Plan, failures: Seq<Failure>, outcomes: Outcomes)
    requires
        plan.rooms.entries().len() <= usize::MAX,
        plan.rooms.ordered(),
        concludes_all(outcomes),
    ensures
        from_stage(plan, start_leaving(plan, failures), failures, outcomes) == leaving_history(
            plan,
            failures,
            outcomes,
        ),
{
    if !any_global(failures) {
        lemma_leaving(plan, failures, failures, 0, outcomes);
    }
}

proof fn lemma_start_ignored(plan: Plan, failures: Seq<Failure>, outcomes: Outcomes)
    requires
        plan.rooms.entries().len() <= usize::MAX,
        plan.rooms.ordered(),
        concludes_all(outcomes),
    ensures
        ({
            let ignored = ignored_history(plan, outcomes);
            from_stage(plan, start_ignored(plan, failures), failures, outcomes)
                == ignored.then_also(
                leaving_history(plan, failures + ignored.failures, outcomes),
            )
        }),
{
    if plan.ignored_users is Some {
        let report = |error: AccessError|
            Failure::Global { data: GlobalData::IgnoredUsers, cause: error };
        let stage = Stage::Global { data: GlobalData::IgnoredUsers };
        lemma_attempt(plan, stage, failures, outcomes, report);
        lemma_start_leaving(
            plan,
            failures + ignored_history(plan, outcomes).failures,
            outcomes,
        );
    } else {
        lemma_start_leaving(plan, failures, outcomes);
        assert(failures + History::none().failures =~= failures);
        lemma_none_first(leaving_history(plan, failures, outcomes));
    }
}

proof fn lemma_none_first(history: History)
    ensures
        History::none().then_also(history) == history,
        history.then_also(History::none()) == history,
{
    assert(History::none().then_also(history) =~= history);
    assert(history.then_also(History::none()) =~= history);
}

proof fn lemma_associative(a: History, b: History, c: History)
    ensures
        a.then_also(b).then_also(c) == a.then_also(b.then_also(c)),
{
    assert(a.then_also(b).then_also(c) =~= a.then_also(b.then_also(c)));
}

proof fn lemma_start_global(plan: Plan, failures: Seq<Failure>, outcomes: Outcomes)
    requires
        plan.rooms.entries().len() <= usize::MAX,
        plan.rooms.ordered(),
        concludes_all(outcomes),
    ensures
        ({
            let data = direct_history(plan, outcomes).then_also(ignored_history(plan, outcomes));
            from_stage(plan, start_global(plan, failures), failures, outcomes) == data.then_also(
                leaving_history(plan, failures + data.failures, outcomes),
            )
        }),
{
    let direct = direct_history(plan, outcomes);
    let ignored = ignored_history(plan, outcomes);
    assert(failures + direct.failures + ignored.failures =~= failures + direct.then_also(
        ignored,
    ).failures);
    let tail = leaving_history(plan, failures + direct.then_also(ignored).failures, outcomes);
    if plan.direct is Some {
        let report = |error: AccessError|
            Failure::Global { data: GlobalData::Direct, cause: error };
        let stage = Stage::Global { data: GlobalData::Direct };
        lemma_attempt(plan, stage, failures, outcomes, report);
        lemma_start_ignored(plan, failures + direct.failures, outcomes);
        lemma_associative(direct, ignored, tail);
    } else {
        lemma_start_ignored(plan, failures, outcomes);
        assert(failures + direct.failures =~= failures);
        lemma_none_first(ignored);
    }
}

/// What follows when the rooms from a position on are next.
spec fn from_room(plan: Plan, failures: Seq<Failure>, at: int, outcomes: Outcomes) -> History {
    from_stage(plan, start_rooms(plan, failures, at), failures, outcomes)
}

/// What follows when a step for a room is next, if there is one.
spec fn from_step(
    plan: Plan,
    failures: Seq<Failure>,
    at: int,
    step: Option<RoomStep>,
    outcomes: Outcomes,
) -> History {
    from_stage(plan, go_on(plan, failures, at, step), failures, outcomes)
}

proof fn lemma_tags(plan: Plan, failures: Seq<Failure>, at: int, outcomes: Outcomes)
    requires
        0 <= at < plan.rooms.entries().len() <= usize::MAX,
        concludes_all(outcomes),
        entered(plan, at, outcomes),
    ensures
        ({
            let tags = tags_history(plan, at, outcomes);
            from_step(plan, failures, at, step_after_levels(room_plan_at(plan, at)), outcomes)
                == tags.then_also(from_room(plan, failures + tags.failures, at + 1, outcomes))
        }),
{
    if room_plan_at(plan, at).account_data is Some {
        let report = |error: AccessError| room_failure(plan, at, RoomError::Tags(error));
        let stage = Stage::Room { at: at as usize, step: RoomStep::SetTags };
        lemma_attempt(plan, stage, failures, outcomes, report);
    } else {
        assert(failures + History::none().failures =~= failures);
        lemma_none_first(from_room(plan, failures, at + 1, outcomes));
    }
}

proof fn lemma_levels(plan: Plan, failures: Seq<Failure>, at: int, outcomes: Outcomes)
    requires
        0 <= at < plan.rooms.entries().len() <= usize::MAX,
        concludes_all(outcomes),
        levels_sendable(plan, outcomes),
        entered(plan, at, outcomes),
    ensures
        ({
            let room = room_plan_at(plan, at);
            let levels = level_history(plan, at, outcomes);
            from_step(plan, failures, at, step_after_join(room), outcomes) == levels.then_also(
                from_step(
                    plan,
                    failures + levels.failures,
                    at,
                    step_after_levels(room),
                    outcomes,
                ),
            )
        }),
{
    let room = room_plan_at(plan, at);
    let copied = level_history(plan, at, outcomes);
    let next_step = step_after_levels(room);
    if room.power_level is Some {
        let stage = Stage::Room { at: at as usize, step: RoomStep::ReadPowerLevels };
        let progress = Progress { stage, failures };
        let action = read_action(plan, at);
        let event = outcomes(action);
        assert(concludes(action, event));
        law_execution_ends(plan, progress, event);
        match event {
            Event::PowerLevels(Ok(levels)) => {
                let second_stage = Stage::Room { at: at as usize, step: RoomStep::WritePowerLevels };
                let second = Progress { stage: second_stage, failures };
                let write = write_levels(plan, at, levels);
                let written = outcomes(write);
                assert(concludes(write, written));
                assert(progress.next(plan, event) == second);
                assert(action_after(plan, progress, event) == Some(write));
                law_execution_ends(plan, second, written);
                let third = second.next(plan, written);
                let rest = from_stage(plan, third.stage, third.failures, outcomes);
                assert(third.failures =~= failures + copied.failures);
                assert(third.failures.skip(failures.len() as int) =~= copied.failures);
                assert(failures.skip(failures.len() as int) =~= Seq::<Failure>::empty());
                assert(execution(plan, second, Some(write), outcomes) =~= History {
                    actions: seq![write] + rest.actions,
                    failures: copied.failures + rest.failures,
                });
                assert(from_stage(plan, stage, failures, outcomes) =~= copied.then_also(rest));
            },
            Event::PowerLevels(Err(error)) => {
                let second = progress.next(plan, event);
                let rest = from_stage(plan, second.stage, second.failures, outcomes);
                assert(second.failures =~= failures + copied.failures);
                assert(second.failures.skip(failures.len() as int) =~= copied.failures);
                assert(from_stage(plan, stage, failures, outcomes) =~= copied.then_also(rest));
            },
            _ => {},
        }
    } else {
        assert(failures + History::none().failures =~= failures);
        lemma_none_first(from_step(plan, failures, at, next_step, outcomes));
    }
}

/// What follows once the new user is in the room.
proof fn lemma_entered(plan: Plan, failures: Seq<Failure>, at: int, outcomes: Outcomes)
    requires
        0 <= at < plan.rooms.entries().len() <= usize::MAX,
        concludes_all(outcomes),
        levels_sendable(plan, outcomes),
        entered(plan, at, outcomes),
    ensures
        ({
            let inside = level_history(plan, at, outcomes).then_also(
                tags_history(plan, at, outcomes),
            );
            from_step(plan, failures, at, step_after_join(room_plan_at(plan, at)), outcomes)
                == inside.then_also(from_room(plan, failures + inside.failures, at + 1, outcomes))
        }),
{
    let levels = level_history(plan, at, outcomes);
    let tags = tags_history(plan, at, outcomes);
    lemma_levels(plan, failures, at, outcomes);
    lemma_tags(plan, failures + levels.failures, at, outcomes);
    assert(failures + levels.failures + tags.failures =~= failures + levels.then_also(
        tags,
    ).failures);
    lemma_associative(
        levels,
        tags,
        from_room(plan, failures + levels.then_also(tags).failures, at + 1, outcomes),
    );
}

/// What follows once the new user is admitted to the room.
proof fn lemma_admitted(plan: Plan, failures: Seq<Failure>, at: int, outcomes: Outcomes)
    requires
        0 <= at < plan.rooms.entries().len() <= usize::MAX,
        concludes_all(outcomes),
        levels_sendable(plan, outcomes),
        admitted(plan, at, outcomes),
    ensures
        ({
            let inside = join_history(plan, at, outcomes).then_also(
                level_history(plan, at, outcomes).then_also(tags_history(plan, at, outcomes)),
            );
            from_step(plan, failures, at, step_after_invite(room_plan_at(plan, at)), outcomes)
                == inside.then_also(from_room(plan, failures + inside.failures, at + 1, outcomes))
        }),
{
    let join = join_history(plan, at, outcomes);
    let rest = level_history(plan, at, outcomes).then_also(tags_history(plan, at, outcomes));
    let inside = join.then_also(rest);
    assert(failures + join.failures + rest.failures =~= failures + inside.failures);
    let tail = from_room(plan, failures + inside.failures, at + 1, outcomes);
    lemma_associative(join, rest, tail);
    lemma_none_first(tail);
    lemma_none_first(rest);
    lemma_none_first(History::none());
    lemma_none_first(join);
    if room_plan_at(plan, at).join {
        let report = |error: AccessError| room_failure(plan, at, RoomError::Join(error));
        let stage = Stage::Room { at: at as usize, step: RoomStep::Join };
        lemma_attempt(plan, stage, failures, outcomes, report);
        if succeeds(outcomes, join_action(plan, at)) {
            lemma_entered(plan, failures + join.failures, at, outcomes);
        } else {
            assert(rest =~= History::none());
        }
    } else {
        lemma_entered(plan, failures, at, outcomes);
    }
}

proof fn lemma_room(plan: Plan, failures: Seq<Failure>, at: int, outcomes: Outcomes)
    requires
        0 <= at < plan.rooms.entries().len() <= usize::MAX,
        concludes_all(outcomes),
        levels_sendable(plan, outcomes),
    ensures
        ({
            let room = room_history(plan, at, outcomes);
            from_room(plan, failures, at, outcomes) == room.then_also(
                from_room(plan, failures + room.failures, at + 1, outcomes),
            )
        }),
{
    let invite = invite_history(plan, at, outcomes);
    let join = join_history(plan, at, outcomes);
    let levels = level_history(plan, at, outcomes);
    let tags = tags_history(plan, at, outcomes);
    let inside = join.then_also(levels.then_also(tags));
    let room = room_history(plan, at, outcomes);
    assert(room =~= invite.then_also(inside));
    assert(failures + invite.failures + inside.failures =~= failures + room.failures);
    let tail = from_room(plan, failures + room.failures, at + 1, outcomes);
    lemma_associative(invite, inside, tail);
    lemma_none_first(inside);
    lemma_none_first(invite);
    if room_plan_at(plan, at).invite {
        let first = Stage::Room { at: at as usize, step: RoomStep::Invite };
        let first_report = |error: AccessError| room_failure(plan, at, RoomError::Invite(error));
        lemma_attempt(plan, first, failures, outcomes, first_report);
        let invited = attempt(outcomes, invite_action(plan, at), first_report);
        if succeeds(outcomes, invite_action(plan, at)) {
            let second = Stage::Room { at: at as usize, step: RoomStep::WaitForInvite };
            let second_report = |error: AccessError|
                room_failure(plan, at, RoomError::WaitInvite(error));
            let known = failures + invited.failures;
            lemma_attempt(plan, second, known, outcomes, second_report);
            let waited = attempt(outcomes, wait_action(plan, at), second_report);
            if succeeds(outcomes, wait_action(plan, at)) {
                let third = Stage::Room { at: at as usize, step: RoomStep::Pause };
                assert(concludes(
                    ActionView::Sleep { millis: JOIN_DELAY_MILLIS },
                    outcomes(ActionView::Sleep { millis: JOIN_DELAY_MILLIS }),
                ));
                lemma_attempt(plan, third, known + waited.failures, outcomes, second_report);
                let paused = attempt(
                    outcomes,
                    ActionView::Sleep { millis: JOIN_DELAY_MILLIS },
                    second_report,
                );
                assert(known + waited.failures + paused.failures =~= failures + invite.failures);
                lemma_admitted(plan, failures + invite.failures, at, outcomes);
                assert(from_room(plan, failures, at, outcomes) =~= invite.then_also(
                    inside.then_also(tail),
                ));
            } else {
                assert(inside =~= History::none());
                assert(known + waited.failures =~= failures + invite.failures);
                assert(from_room(plan, failures, at, outcomes) =~= invite.then_also(tail));
            }
        } else {
            assert(inside =~= History::none());
        }
    } else {
        lemma_admitted(plan, failures, at, outcomes);
        assert(failures + inside.failures =~= failures + room.failures);
        assert(go_on(plan, failures, at, step_after_invite(room_plan_at(plan, at))) == start_rooms(
            plan,
            failures,
            at,
        ));
    }
}

proof fn lemma_rooms(plan: Plan, failures: Seq<Failure>, at: int, outcomes: Outcomes)
    requires
        0 <= at <= plan.rooms.entries().len() <= usize::MAX,
        plan.rooms.ordered(),
        concludes_all(outcomes),
        levels_sendable(plan, outcomes),
    ensures
        ({
            let all = rooms_history(plan, at, outcomes).then_also(
                direct_history(plan, outcomes),
            ).then_also(ignored_history(plan, outcomes));
            from_room(plan, failures, at, outcomes) == all.then_also(
                leaving_history(plan, failures + all.failures, outcomes),
            )
        }),
    decreases plan.rooms.entries().len() - at,
{
    let direct = direct_history(plan, outcomes);
    let ignored = ignored_history(plan, outcomes);
    let rooms = rooms_history(plan, at, outcomes);
    let all = rooms.then_also(direct).then_also(ignored);
    if at == plan.rooms.entries().len() {
        lemma_start_global(plan, failures, outcomes);
        lemma_none_first(direct);
    } else {
        let room = room_history(plan, at, outcomes);
        let others = rooms_history(plan, at + 1, outcomes);
        let rest = others.then_also(direct).then_also(ignored);
        lemma_room(plan, failures, at, outcomes);
        lemma_rooms(plan, failures + room.failures, at + 1, outcomes);
        assert(rooms == room.then_also(others));
        lemma_room_then_rest(
            failures,
            room,
            others,
            direct,
            ignored,
            leaving_history(plan, failures + all.failures, outcomes),
        );
    }
}

proof fn lemma_room_then_rest(
    failures: Seq<Failure>,
    room: History,
    others: History,
    direct: History,
    ignored: History,
    tail: History,
)
    ensures
        ({
            let rest = others.then_also(direct).then_also(ignored);
            let all = room.then_also(others).then_also(direct).then_also(ignored);
            &&& failures + room.failures + rest.failures == failures + all.failures
            &&& room.then_also(rest.then_also(tail)) == all.then_also(tail)
        }),
{
    let rest = others.then_also(direct).then_also(ignored);
    let all = room.then_also(others).then_also(direct).then_also(ignored);
    assert(failures + room.failures + rest.failures =~= failures + all.failures);
    assert(room.then_also(rest.then_also(tail)) =~= all.then_also(tail));
}

/// Doing everything that an executor says, and telling it how that went, comes to exactly the
/// history that the plan calls for, as long as the power levels that are read can be sent back.
pub proof fn law_executor_follows_plan(plan: Plan, outcomes: Outcomes)
    requires
        plan.rooms.entries().len() <= usize::MAX,
        plan.rooms.ordered(),
        concludes_all(outcomes),
        levels_sendable(plan, outcomes),
    ensures
        execution(
            plan,
            Progress::start(plan),
            action_at(plan, Progress::start(plan).stage),
            outcomes,
        ) == plan_history(plan, outcomes),
{
    lemma_rooms(plan, Seq::empty(), 0, outcomes);
    let migration = migration_history(plan, outcomes);
    assert(Seq::<Failure>::empty() + migration.failures =~= migration.failures);
    lemma_none_first(migration);
}

proof fn lemma_flawless_room(plan: Plan, at: int, outcomes: Outcomes)
    requires
        concludes_all(outcomes),
        forall|action: ActionView| #[trigger] succeeds(outcomes, action),
    ensures
        ({
            let room = room_plan_at(plan, at);
            let history = room_history(plan, at, outcomes);
            &&& history.failures.len() == 0
            &&& room.invite ==> history.actions.contains(invite_action(plan, at))
            &&& room.join ==> history.actions.contains(join_action(plan, at))
            &&& room.power_level is Some ==> history.actions.contains(
                write_levels(
                    plan,
                    at,
                    outcomes(read_action(plan, at))->PowerLevels_0->Ok_0,
                ),
            )
            &&& room.account_data is Some ==> history.actions.contains(tags_action(plan, at))
        }),
{
    let invite = invite_history(plan, at, outcomes);
    let join = join_history(plan, at, outcomes);
    let levels = level_history(plan, at, outcomes);
    let tags = tags_history(plan, at, outcomes);
    let room = room_plan_at(plan, at);
    let history = room_history(plan, at, outcomes);
    assert(succeeds(outcomes, invite_action(plan, at)));
    assert(succeeds(outcomes, wait_action(plan, at)));
    assert(succeeds(outcomes, join_action(plan, at)));
    assert(succeeds(outcomes, read_action(plan, at)));
    assert(succeeds(outcomes, tags_action(plan, at)));
    assert(concludes(read_action(plan, at), outcomes(read_action(plan, at))));
    let read = outcomes(read_action(plan, at))->PowerLevels_0->Ok_0;
    assert(succeeds(outcomes, write_levels(plan, at, read)));
    assert(admitted(plan, at, outcomes));
    assert(entered(plan, at, outcomes));
    assert(invite.failures.len() == 0);
    assert(join.failures.len() == 0);
    assert(levels.failures.len() == 0);
    assert(tags.failures.len() == 0);
    let n = invite.actions.len() as int;
    let m = n + join.actions.len();
    let k = m + levels.actions.len();
    if room.invite {
        assert(history.actions[0] == invite_action(plan, at));
    }
    if room.join {
        assert(history.actions[n] == join_action(plan, at));
    }
    if room.power_level is Some {
        assert(history.actions[m + 1] == write_levels(plan, at, read));
    }
    if room.account_data is Some {
        assert(history.actions[k] == tags_action(plan, at));
    }
}

proof fn lemma_contained(a: Seq<ActionView>, b: Seq<ActionView>, action: ActionView)
    ensures
        a.contains(action) || b.contains(action) ==> (a + b).contains(action),
{
    if a.contains(action) {
        let i = choose|i: int| 0 <= i < a.len() && a[i] == action;
        assert((a + b)[i] == action);
    }
    if b.contains(action) {
        let i = choose|i: int| 0 <= i < b.len() && b[i] == action;
        assert((a + b)[a.len() + i] == action);
    }
}

proof fn lemma_flawless_rooms(plan: Plan, from: int, at: int, action: ActionView, outcomes: Outcomes)
    requires
        0 <= from <= at < plan.rooms.entries().len(),
        concludes_all(outcomes),
        forall|action: ActionView| #[trigger] succeeds(outcomes, action),
        room_history(plan, at, outcomes).actions.contains(action),
    ensures
        rooms_history(plan, from, outcomes).actions.contains(action),
    decreases at - from,
{
    let first = room_history(plan, from, outcomes).actions;
    let rest = rooms_history(plan, from + 1, outcomes).actions;
    lemma_contained(first, rest, action);
    if from < at {
        lemma_flawless_rooms(plan, from + 1, at, action, outcomes);
    }
}

proof fn lemma_flawless_failures(plan: Plan, from: int, outcomes: Outcomes)
    requires
        concludes_all(outcomes),
        forall|action: ActionView| #[trigger] succeeds(outcomes, action),
    ensures
        rooms_history(plan, from, outcomes).failures.len() == 0,
    decreases plan.rooms.entries().len() - from,
{
    if from < plan.rooms.entries().len() {
        lemma_flawless_room(plan, from, outcomes);
        lemma_flawless_failures(plan, from + 1, outcomes);
    }
}

proof fn lemma_flawless_leaving(plan: Plan, from: int, at: int, outcomes: Outcomes)
    requires
        0 <= from <= at < plan.rooms.entries().len(),
        forall|action: ActionView| #[trigger] succeeds(outcomes, action),
        room_plan_at(plan, at).leave,
    ensures
        leave_history(plan, Seq::empty(), from, outcomes).actions.contains(leave_action(plan, at)),
    decreases at - from,
{
    let action = leave_action(plan, at);
    let rest = leave_history(plan, Seq::empty(), from + 1, outcomes).actions;
    assert(!has_failed(Seq::empty(), room_at(plan, from)));
    if from < at {
        lemma_flawless_leaving(plan, from + 1, at, outcomes);
        lemma_contained(seq![leave_action(plan, from)], rest, action);
    } else {
        assert(seq![action][0] == action);
        lemma_contained(seq![action], rest, action);
    }
}

/// If every action succeeds, nothing that is migrated fails, and everything that is planned is
/// done: the new user is invited, joins, and gets their power level and their tags; the global data
/// is set; and the old user leaves.
pub proof fn law_flawless_execution_is_complete(plan: Plan, at: int, outcomes: Outcomes)
    requires
        0 <= at < plan.rooms.entries().len(),
        concludes_all(outcomes),
        forall|action: ActionView| #[trigger] succeeds(outcomes, action),
    ensures
        ({
            let room = room_plan_at(plan, at);
            let actions = plan_history(plan, outcomes).actions;
            let levels = outcomes(read_action(plan, at))->PowerLevels_0->Ok_0;
            &&& migration_history(plan, outcomes).failures.len() == 0
            &&& room.invite ==> actions.contains(invite_action(plan, at))
            &&& room.join ==> actions.contains(join_action(plan, at))
            &&& room.power_level is Some ==> actions.contains(write_levels(plan, at, levels))
            &&& room.account_data is Some ==> actions.contains(tags_action(plan, at))
            &&& plan.direct is Some ==> actions.contains(direct_action(plan))
            &&& plan.ignored_users is Some ==> actions.contains(ignored_action(plan))
            &&& room.leave ==> actions.contains(leave_action(plan, at))
        }),
{
    let direct = direct_history(plan, outcomes);
    let ignored = ignored_history(plan, outcomes);
    let rooms = rooms_history(plan, 0, outcomes);
    let migration = migration_history(plan, outcomes);
    if plan.direct is Some {
        assert(succeeds(outcomes, direct_action(plan)));
        assert(direct.actions[0] == direct_action(plan));
        assert(direct.actions.contains(direct_action(plan)));
    }
    if plan.ignored_users is Some {
        assert(succeeds(outcomes, ignored_action(plan)));
        assert(ignored.actions[0] == ignored_action(plan));
        assert(ignored.actions.contains(ignored_action(plan)));
    }
    lemma_flawless_failures(plan, 0, outcomes);
    lemma_flawless_room(plan, at, outcomes);
    assert(migration.failures =~= Seq::empty());
    assert(!any_global(migration.failures));
    let leaving = leave_history(plan, migration.failures, 0, outcomes).actions;
    let done = room_history(plan, at, outcomes).actions;
    assert forall|action: ActionView|
        done.contains(action) || direct.actions.contains(action) || ignored.actions.contains(
            action,
        ) || leaving.contains(action) implies #[trigger] plan_history(
        plan,
        outcomes,
    ).actions.contains(action) by {
        if done.contains(action) {
            lemma_flawless_rooms(plan, 0, at, action, outcomes);
        }
        lemma_contained(rooms.actions, direct.actions, action);
        lemma_contained(rooms.actions + direct.actions, ignored.actions, action);
        lemma_contained(migration.actions, leaving, action);
    }
    if room_plan_at(plan, at).leave {
        lemma_flawless_leaving(plan, 0, at, outcomes);
        assert(leaving.contains(leave_action(plan, at)));
    }
}

} // verus!
