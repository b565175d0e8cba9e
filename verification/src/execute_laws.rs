//! Laws about executing a plan, stated over the plan and over how every action goes.

use vstd::prelude::*;

use crate::execute::{
    action_after, action_at, any_global, called_for, first_step, has_failed, is_kept,
    leave_from, room_failure, start_rooms, write_levels, ActionView, Event, Failure, GlobalData,
    PowerLevelError, Progress, RoomError, RoomStep, Stage,
};
use crate::execute_outcome::{
    attempt, concludes, concludes_all, direct_history, ignored_history, invite_history,
    join_history, leave_history, level_history, migration_history, plan_history, room_history, rooms_history,
    tags_history, History, Outcomes,
};
use crate::ids::after_colon;
use crate::json::array_object_text;
use crate::leave_outcome::{lemma_leaving, lemma_migration_never_leaves};
use crate::level_laws::law_creators_must_not_be_listed;
use crate::plan::{Plan, RoomPlan};
use crate::state::AccessError;

verus! {

/// The ID of the room at a position of a plan.
pub open spec fn id_at(plan: Plan, at: int) -> Seq<char> {
    plan.rooms.entries()[at].0@
}

/// What a plan says about the room at a position.
pub open spec fn said_at(plan: Plan, at: int) -> RoomPlan {
    plan.rooms.entries()[at].1
}

/// Why an action failed, if it did.
pub open spec fn cause_of(event: Event) -> Option<AccessError> {
    match event {
        Event::Finished(Ok(_)) => None,
        Event::Finished(Err(cause)) => Some(cause),
        Event::PowerLevels(Ok(_)) => None,
        Event::PowerLevels(Err(cause)) => Some(cause),
    }
}

/// What is written after the power levels of a room were read differs from what was read in the
/// entry of the new user and nowhere else: that entry is the planned level, every other user keeps
/// theirs or keeps having none, and everything else stays. Nothing is written only if a privileged
/// creator has an entry.
pub proof fn law_only_the_level_of_the_new_user_is_written(
    plan: Plan,
    progress: Progress,
    at: usize,
    event: Event,
    other: Seq<char>,
)
    requires
        progress.stage == (Stage::Room { at, step: RoomStep::ReadPowerLevels }),
        event matches Event::PowerLevels(Ok(_)),
    ensures
        ({
            let levels = event->PowerLevels_0->Ok_0;
            let read = levels.content;
            match action_after(plan, progress, event) {
                Some(ActionView::WritePowerLevels { room, levels: written }) => {
                    &&& room == id_at(plan, at as int)
                    &&& written.users.contains_key(plan.new_user_id@)
                    &&& written.users[plan.new_user_id@] == said_at(plan, at as int).power_level->0
                    &&& other != plan.new_user_id@ ==> {
                        &&& written.users.contains_key(other) <==> read.users@.contains_key(other)
                        &&& read.users@.contains_key(other) ==> written.users[other]
                            == read.users@[other]
                    }
                    &&& written.users_default == read.users_default
                    &&& written.events == read.events@
                    &&& written.events_default == read.events_default
                    &&& written.state_default == read.state_default
                    &&& written.ban == read.ban
                    &&& written.invite == read.invite
                    &&& written.kick == read.kick
                    &&& written.redact == read.redact
                },
                Some(_) => false,
                None => exists|user: Seq<char>|
                    levels.level_of(user) is Infinite && #[trigger] read.users@.contains_key(user),
            }
        }),
{
    law_creators_must_not_be_listed(event->PowerLevels_0->Ok_0);
}

/// Every action is about what the plan says: the new user is the one who is invited, to a room that
/// they are to be invited to; they join by way of the server of the old user a room that they are
/// to join; the tags and the account data that are set are those of the plan; and the old user
/// leaves a room that they are to leave.
pub proof fn law_actions_follow_the_plan(plan: Plan, stage: Stage)
    requires
        called_for(plan, stage),
    ensures
        match (stage, action_at(plan, stage)) {
            (Stage::Room { at, step }, Some(action)) => {
                let room = id_at(plan, at as int);
                let said = said_at(plan, at as int);
                &&& at < plan.rooms.entries().len()
                &&& match step {
                    RoomStep::Invite => said.invite && action == (ActionView::Invite {
                        room,
                        user: plan.new_user_id@,
                    }),
                    RoomStep::WaitForInvite => said.invite && action == (
                    ActionView::WaitForInvite { room }),
                    RoomStep::Pause => said.invite && action == (ActionView::Sleep { millis: 200 }),
                    RoomStep::Join => said.join && action == (ActionView::Join {
                        room,
                        via: after_colon(plan.old_user_id@)->0,
                    }),
                    RoomStep::ReadPowerLevels => said.power_level is Some && action == (
                    ActionView::ReadPowerLevels { room }),
                    RoomStep::WritePowerLevels => false,
                    RoomStep::SetTags => said.account_data is Some && action == (
                    ActionView::SetTags {
                        room,
                        content: said.account_data->0.text("tags"@),
                    }),
                }
            },
            (Stage::Room { step, .. }, None) => step is WritePowerLevels,
            (Stage::Global { data }, Some(action)) => match data {
                GlobalData::Direct => plan.direct is Some && action == (ActionView::SetGlobal {
                    data,
                    content: array_object_text(plan.direct->0.entries()),
                }),
                GlobalData::IgnoredUsers => plan.ignored_users is Some && action == (
                ActionView::SetGlobal {
                    data,
                    content: plan.ignored_users->0.text("ignored_users"@),
                }),
            },
            (Stage::Leave { at }, Some(action)) => {
                &&& at < plan.rooms.entries().len()
                &&& said_at(plan, at as int).leave
                &&& action == (ActionView::Leave { room: id_at(plan, at as int) })
            },
            (Stage::Done, None) => true,
            (Stage::Broken, None) => true,
            _ => false,
        },
{
}

/// Whatever fails is recorded once, as what it is, for the room or the data that it is about, with
/// its cause; and nothing else is recorded, nor anything forgotten.
pub proof fn law_failures_are_recorded(plan: Plan, progress: Progress, event: Event)
    requires
        !(progress.stage is Done),
        !(progress.stage is Broken),
    ensures
        ({
            let before = progress.failures;
            let after = progress.next(plan, event).failures;
            match cause_of(event) {
                None => after == before,
                Some(cause) => after.len() == before.len() + 1 && after.drop_last() == before
                    && match (progress.stage, after.last()) {
                    (Stage::Room { at, step }, Failure::Room { room, error }) => {
                        &&& room@ == id_at(plan, at as int)
                        &&& error == match step {
                            RoomStep::Invite => RoomError::Invite(cause),
                            RoomStep::WaitForInvite => RoomError::WaitInvite(cause),
                            RoomStep::Pause => RoomError::WaitInvite(cause),
                            RoomStep::Join => RoomError::Join(cause),
                            RoomStep::ReadPowerLevels => RoomError::PowerLevel(
                                PowerLevelError::Read(cause),
                            ),
                            RoomStep::WritePowerLevels => RoomError::PowerLevel(
                                PowerLevelError::Write(cause),
                            ),
                            RoomStep::SetTags => RoomError::Tags(cause),
                        }
                    },
                    (Stage::Global { data }, Failure::Global { data: failed, cause: why }) => failed
                        == data && why == cause,
                    (Stage::Leave { at }, Failure::Room { room, error }) => room@ == id_at(
                        plan,
                        at as int,
                    ) && error == RoomError::Leave(cause),
                    _ => false,
                },
            }
        }),
{
    let after = progress.next(plan, event).failures;
    if cause_of(event) is Some {
        assert(after.drop_last() =~= progress.failures);
    }
}

proof fn lemma_leaving_is_no_room(plan: Plan, failures: Seq<Failure>, from: int)
    ensures
        !(leave_from(plan, failures, from) is Room),
    decreases plan.rooms.entries().len() - from,
{
    if 0 <= from < plan.rooms.entries().len() {
        lemma_leaving_is_no_room(plan, failures, from + 1);
    }
}

/// A room is begun with its first step.
proof fn lemma_rooms_begin(plan: Plan, failures: Seq<Failure>, from: int)
    requires
        plan.rooms.entries().len() <= usize::MAX,
    ensures
        start_rooms(plan, failures, from) matches Stage::Room { at, step } ==> {
            &&& from <= at
            &&& first_step(said_at(plan, at as int)) == Some(step)
        },
    decreases plan.rooms.entries().len() - from,
{
    lemma_leaving_is_no_room(plan, failures, 0);
    if 0 <= from < plan.rooms.entries().len() {
        lemma_rooms_begin(plan, failures, from + 1);
    }
}

/// The new user joins a room that they are to be invited to only after the old user has invited
/// them, the invitation has arrived, and a short time has passed, one after the other and all
/// without failing.
pub proof fn law_joining_follows_the_invitation(
    plan: Plan,
    progress: Progress,
    event: Event,
    at: usize,
)
    requires
        plan.rooms.entries().len() <= usize::MAX,
    ensures
        ({
            let came_from = |step: RoomStep|
                progress.stage == (Stage::Room { at, step }) && cause_of(event) is None;
            let next = progress.next(plan, event).stage;
            &&& next == (Stage::Room { at, step: RoomStep::Join }) && said_at(
                plan,
                at as int,
            ).invite ==> came_from(RoomStep::Pause)
            &&& next == (Stage::Room { at, step: RoomStep::Pause }) ==> came_from(
                RoomStep::WaitForInvite,
            )
            &&& next == (Stage::Room { at, step: RoomStep::WaitForInvite }) ==> came_from(
                RoomStep::Invite,
            )
            &&& Progress::start(plan).stage matches Stage::Room { at: first, step } ==> {
                &&& step is Join ==> !said_at(plan, first as int).invite
                &&& !(step is Pause) && !(step is WaitForInvite)
            }
        }),
{
    let failures = progress.next(plan, event).failures;
    lemma_rooms_begin(plan, Seq::empty(), 0);
    lemma_leaving_is_no_room(plan, failures, 0);
    if let Stage::Room { at: now, .. } = progress.stage {
        lemma_rooms_begin(plan, failures, now + 1);
    }
    if let Stage::Leave { at: now } = progress.stage {
        lemma_leaving_is_no_room(plan, failures, now + 1);
    }
}

/// Nothing is done in a room that the new user is to join before they have joined it.
pub proof fn law_nothing_is_done_before_joining(
    plan: Plan,
    progress: Progress,
    event: Event,
    at: usize,
    step: RoomStep,
)
    requires
        plan.rooms.entries().len() <= usize::MAX,
        said_at(plan, at as int).join,
        step is ReadPowerLevels || step is WritePowerLevels || step is SetTags,
        progress.next(plan, event).stage == (Stage::Room { at, step }),
    ensures
        progress.stage matches Stage::Room { at: before, step: last } && {
            &&& before == at
            &&& last is Join && cause_of(event) is None || last is ReadPowerLevels
                || last is WritePowerLevels || last is SetTags
        },
{
    let failures = progress.next(plan, event).failures;
    lemma_leaving_is_no_room(plan, failures, 0);
    if let Stage::Room { at: now, .. } = progress.stage {
        lemma_rooms_begin(plan, failures, now + 1);
    }
    if let Stage::Leave { at: now } = progress.stage {
        lemma_leaving_is_no_room(plan, failures, now + 1);
    }
}

/// The room that an action is about, if it is about one.
pub open spec fn room_of(action: ActionView) -> Option<Seq<char>> {
    match action {
        ActionView::Invite { room, .. } => Some(room),
        ActionView::WaitForInvite { room } => Some(room),
        ActionView::Sleep { .. } => None,
        ActionView::Join { room, .. } => Some(room),
        ActionView::ReadPowerLevels { room } => Some(room),
        ActionView::WritePowerLevels { room, .. } => Some(room),
        ActionView::SetTags { room, .. } => Some(room),
        ActionView::SetGlobal { .. } => None,
        ActionView::Leave { room } => Some(room),
    }
}

/// Whether an action for a room was done and failed.
pub open spec fn fails_in(actions: Seq<ActionView>, outcomes: Outcomes, room: Seq<char>) -> bool {
    exists|i: int|
        0 <= i < actions.len() && room_of(#[trigger] actions[i]) == Some(room) && cause_of(
            outcomes(actions[i]),
        ) is Some
}

/// Whether account data was to be set and that failed.
pub open spec fn fails_globally(actions: Seq<ActionView>, outcomes: Outcomes) -> bool {
    exists|i: int|
        0 <= i < actions.len() && #[trigger] actions[i] is SetGlobal && cause_of(
            outcomes(actions[i]),
        ) is Some
}

/// The actions that fail.
pub open spec fn failing(actions: Seq<ActionView>, outcomes: Outcomes) -> Seq<ActionView> {
    actions.filter(|action: ActionView| cause_of(outcomes(action)) is Some)
}

/// Whether what is recorded is what fails.
spec fn is_faithful(history: History, outcomes: Outcomes) -> bool {
    &&& forall|room: Seq<char>| #[trigger]
        has_failed(history.failures, room) <==> fails_in(history.actions, outcomes, room)
    &&& any_global(history.failures) <==> fails_globally(history.actions, outcomes)
    &&& failing(history.actions, outcomes).len() == history.failures.len()
}

proof fn lemma_faithful_none(outcomes: Outcomes)
    ensures
        is_faithful(History::none(), outcomes),
{
    reveal(Seq::filter);
}

proof fn lemma_faithful_attempt(
    outcomes: Outcomes,
    action: ActionView,
    report: spec_fn(AccessError) -> Failure,
)
    requires
        forall|error: AccessError|
            match #[trigger] report(error) {
                Failure::Room { room, .. } => room_of(action) == Some(room@) && !(
                action is SetGlobal),
                Failure::Global { .. } => action is SetGlobal,
            },
    ensures
        is_faithful(attempt(outcomes, action, report), outcomes),
{
    let history = attempt(outcomes, action, report);
    let failed = failing(history.actions, outcomes);
    reveal_with_fuel(Seq::filter, 2);
    assert(history.actions.drop_last() =~= Seq::empty());
    assert(history.actions[0] == action);
    if let Some(error) = cause_of(outcomes(action)) {
        assert(history.failures[0] == report(error));
        assert(failed =~= seq![action]);
    } else {
        assert(failed =~= Seq::empty());
    }
    assert forall|room: Seq<char>| #[trigger] has_failed(history.failures, room) <==> fails_in(
        history.actions,
        outcomes,
        room,
    ) by {
        if has_failed(history.failures, room) {
            assert(room_of(history.actions[0]) == Some(room));
        }
        if fails_in(history.actions, outcomes, room) {
            assert(history.failures[0] is Room);
        }
    }
}

proof fn lemma_faithful_both(a: History, b: History, outcomes: Outcomes)
    requires
        is_faithful(a, outcomes),
        is_faithful(b, outcomes),
    ensures
        is_faithful(a.then_also(b), outcomes),
{
    let all = a.then_also(b);
    let n = a.actions.len() as int;
    let m = a.failures.len() as int;
    let pred = |action: ActionView| cause_of(outcomes(action)) is Some;
    Seq::filter_distributes_over_add(a.actions, b.actions, pred);
    assert forall|room: Seq<char>| #[trigger] has_failed(all.failures, room) <==> fails_in(
        all.actions,
        outcomes,
        room,
    ) by {
        if has_failed(all.failures, room) {
            let i = choose|i: int|
                0 <= i < all.failures.len() && (#[trigger] all.failures[i] matches Failure::Room {
                    room: failed,
                    ..
                } && failed@ == room);
            if i < m {
                assert(a.failures[i] == all.failures[i]);
                assert(has_failed(a.failures, room));
            } else {
                assert(b.failures[i - m] == all.failures[i]);
                assert(has_failed(b.failures, room));
            }
        }
        if has_failed(a.failures, room) {
            let i = choose|i: int|
                0 <= i < a.failures.len() && (#[trigger] a.failures[i] matches Failure::Room {
                    room: failed,
                    ..
                } && failed@ == room);
            assert(all.failures[i] == a.failures[i]);
            let k = choose|k: int|
                0 <= k < a.actions.len() && room_of(#[trigger] a.actions[k]) == Some(room)
                    && cause_of(outcomes(a.actions[k])) is Some;
            assert(all.actions[k] == a.actions[k]);
        }
        if has_failed(b.failures, room) {
            let i = choose|i: int|
                0 <= i < b.failures.len() && (#[trigger] b.failures[i] matches Failure::Room {
                    room: failed,
                    ..
                } && failed@ == room);
            assert(all.failures[m + i] == b.failures[i]);
            let k = choose|k: int|
                0 <= k < b.actions.len() && room_of(#[trigger] b.actions[k]) == Some(room)
                    && cause_of(outcomes(b.actions[k])) is Some;
            assert(all.actions[n + k] == b.actions[k]);
        }
        if fails_in(all.actions, outcomes, room) {
            let k = choose|k: int|
                0 <= k < all.actions.len() && room_of(#[trigger] all.actions[k]) == Some(room)
                    && cause_of(outcomes(all.actions[k])) is Some;
            if k < n {
                assert(a.actions[k] == all.actions[k]);
                assert(fails_in(a.actions, outcomes, room));
            } else {
                assert(b.actions[k - n] == all.actions[k]);
                assert(fails_in(b.actions, outcomes, room));
            }
        }
    }
    if any_global(all.failures) {
        let i = choose|i: int| 0 <= i < all.failures.len() && #[trigger] all.failures[i] is Global;
        if i < m {
            assert(a.failures[i] == all.failures[i]);
        } else {
            assert(b.failures[i - m] == all.failures[i]);
        }
        assert(any_global(a.failures) || any_global(b.failures));
    }
    if any_global(a.failures) {
        let i = choose|i: int| 0 <= i < a.failures.len() && #[trigger] a.failures[i] is Global;
        assert(all.failures[i] == a.failures[i]);
        let k = choose|k: int|
            0 <= k < a.actions.len() && #[trigger] a.actions[k] is SetGlobal && cause_of(
                outcomes(a.actions[k]),
            ) is Some;
        assert(all.actions[k] == a.actions[k]);
    }
    if any_global(b.failures) {
        let i = choose|i: int| 0 <= i < b.failures.len() && #[trigger] b.failures[i] is Global;
        assert(all.failures[m + i] == b.failures[i]);
        let k = choose|k: int|
            0 <= k < b.actions.len() && #[trigger] b.actions[k] is SetGlobal && cause_of(
                outcomes(b.actions[k]),
            ) is Some;
        assert(all.actions[n + k] == b.actions[k]);
    }
    if fails_globally(all.actions, outcomes) {
        let k = choose|k: int|
            0 <= k < all.actions.len() && #[trigger] all.actions[k] is SetGlobal && cause_of(
                outcomes(all.actions[k]),
            ) is Some;
        if k < n {
            assert(a.actions[k] == all.actions[k]);
            assert(fails_globally(a.actions, outcomes));
        } else {
            assert(b.actions[k - n] == all.actions[k]);
            assert(fails_globally(b.actions, outcomes));
        }
    }
}

proof fn lemma_faithful_room(plan: Plan, at: int, outcomes: Outcomes)
    requires
        concludes_all(outcomes),
    ensures
        is_faithful(room_history(plan, at, outcomes), outcomes),
{
    let room = id_at(plan, at);
    let invite = ActionView::Invite { room, user: plan.new_user_id@ };
    let wait = ActionView::WaitForInvite { room };
    let report_invite = |error: AccessError| room_failure(plan, at, RoomError::Invite(error));
    let report_wait = |error: AccessError| room_failure(plan, at, RoomError::WaitInvite(error));
    let invited = attempt(outcomes, invite, report_invite);
    let waited = attempt(outcomes, wait, report_wait);
    let sleep = ActionView::Sleep { millis: 200 };
    let paused = History { actions: seq![sleep], failures: Seq::empty() };
    lemma_faithful_none(outcomes);
    lemma_faithful_attempt(outcomes, invite, report_invite);
    lemma_faithful_attempt(outcomes, wait, report_wait);
    assert(concludes(sleep, outcomes(sleep)));
    assert(is_faithful(paused, outcomes)) by {
        reveal_with_fuel(Seq::filter, 2);
        assert(paused.actions.drop_last() =~= Seq::empty());
        assert(failing(paused.actions, outcomes) =~= Seq::empty());
    }
    lemma_faithful_both(invited, waited, outcomes);
    lemma_faithful_both(invited.then_also(waited), paused, outcomes);
    let a = invite_history(plan, at, outcomes);
    assert(is_faithful(a, outcomes));

    let join = ActionView::Join { room, via: after_colon(plan.old_user_id@)->0 };
    let report_join = |error: AccessError| room_failure(plan, at, RoomError::Join(error));
    lemma_faithful_attempt(outcomes, join, report_join);
    let b = join_history(plan, at, outcomes);
    assert(is_faithful(b, outcomes));

    let read = ActionView::ReadPowerLevels { room };
    let report_read = |error: AccessError|
        room_failure(plan, at, RoomError::PowerLevel(PowerLevelError::Read(error)));
    let report_write = |error: AccessError|
        room_failure(plan, at, RoomError::PowerLevel(PowerLevelError::Write(error)));
    lemma_faithful_attempt(outcomes, read, report_read);
    if let Event::PowerLevels(Ok(levels)) = outcomes(read) {
        let write = write_levels(plan, at, levels);
        lemma_faithful_attempt(outcomes, write, report_write);
        lemma_faithful_both(
            attempt(outcomes, read, report_read),
            attempt(outcomes, write, report_write),
            outcomes,
        );
    }
    let c = level_history(plan, at, outcomes);
    assert(is_faithful(c, outcomes));

    let tags = ActionView::SetTags {
        room,
        content: said_at(plan, at).account_data->0.text("tags"@),
    };
    let report_tags = |error: AccessError| room_failure(plan, at, RoomError::Tags(error));
    lemma_faithful_attempt(outcomes, tags, report_tags);
    let d = tags_history(plan, at, outcomes);
    assert(is_faithful(d, outcomes));

    lemma_faithful_both(a, b, outcomes);
    lemma_faithful_both(a.then_also(b), c, outcomes);
    lemma_faithful_both(a.then_also(b).then_also(c), d, outcomes);
}

proof fn lemma_faithful_rooms(plan: Plan, from: int, outcomes: Outcomes)
    requires
        concludes_all(outcomes),
    ensures
        is_faithful(rooms_history(plan, from, outcomes), outcomes),
    decreases plan.rooms.entries().len() - from,
{
    lemma_faithful_none(outcomes);
    if from < plan.rooms.entries().len() {
        lemma_faithful_room(plan, from, outcomes);
        lemma_faithful_rooms(plan, from + 1, outcomes);
        lemma_faithful_both(
            room_history(plan, from, outcomes),
            rooms_history(plan, from + 1, outcomes),
            outcomes,
        );
    }
}

proof fn lemma_faithful_migration(plan: Plan, outcomes: Outcomes)
    requires
        concludes_all(outcomes),
    ensures
        is_faithful(migration_history(plan, outcomes), outcomes),
{
    let rooms = rooms_history(plan, 0, outcomes);
    let direct = direct_history(plan, outcomes);
    let ignored = ignored_history(plan, outcomes);
    lemma_faithful_none(outcomes);
    lemma_faithful_rooms(plan, 0, outcomes);
    lemma_faithful_attempt(
        outcomes,
        ActionView::SetGlobal {
            data: GlobalData::Direct,
            content: array_object_text(plan.direct->0.entries()),
        },
        |error: AccessError| Failure::Global { data: GlobalData::Direct, cause: error },
    );
    assert(is_faithful(direct, outcomes));
    lemma_faithful_attempt(
        outcomes,
        ActionView::SetGlobal {
            data: GlobalData::IgnoredUsers,
            content: plan.ignored_users->0.text("ignored_users"@),
        },
        |error: AccessError| Failure::Global { data: GlobalData::IgnoredUsers, cause: error },
    );
    assert(is_faithful(ignored, outcomes));
    lemma_faithful_both(rooms, direct, outcomes);
    lemma_faithful_both(rooms.then_also(direct), ignored, outcomes);
}

proof fn lemma_faithful_leaving(plan: Plan, failures: Seq<Failure>, from: int, outcomes: Outcomes)
    ensures
        is_faithful(leave_history(plan, failures, from, outcomes), outcomes),
        forall|i: int|
            0 <= i < leave_history(plan, failures, from, outcomes).actions.len() ==> (
            #[trigger] leave_history(plan, failures, from, outcomes).actions[i]) is Leave,
    decreases plan.rooms.entries().len() - from,
{
    lemma_faithful_none(outcomes);
    if from < plan.rooms.entries().len() {
        lemma_faithful_leaving(plan, failures, from + 1, outcomes);
        let action = ActionView::Leave { room: id_at(plan, from) };
        let report = |error: AccessError| room_failure(plan, from, RoomError::Leave(error));
        lemma_faithful_attempt(outcomes, action, report);
        let first = attempt(outcomes, action, report);
        let rest = leave_history(plan, failures, from + 1, outcomes);
        lemma_faithful_both(first, rest, outcomes);
        let all = leave_history(plan, failures, from, outcomes);
        assert(all == rest || all == first.then_also(rest));
        assert forall|i: int| 0 <= i < all.actions.len() implies (
        #[trigger] all.actions[i]) is Leave by {
            if all == first.then_also(rest) && i > 0 {
                assert(all.actions[i] == rest.actions[i - 1]);
            } else if all == first.then_also(rest) {
                assert(all.actions[0] == action);
            } else {
                assert(all.actions[i] == rest.actions[i]);
            }
        }
    }
}

/// An execution reports as many failures as there are actions that fail.
pub proof fn law_failures_are_counted(plan: Plan, outcomes: Outcomes)
    requires
        concludes_all(outcomes),
    ensures
        ({
            let history = plan_history(plan, outcomes);
            history.failures.len() == failing(history.actions, outcomes).len()
        }),
{
    let migration = migration_history(plan, outcomes);
    lemma_faithful_migration(plan, outcomes);
    lemma_faithful_leaving(plan, migration.failures, 0, outcomes);
    lemma_faithful_both(
        migration,
        leave_history(plan, migration.failures, 0, outcomes),
        outcomes,
    );
}

/// The old user leaves a room exactly if they are to leave it, everything that was done for it
/// before went well, and so did everything that was done about the account data.
pub proof fn law_only_migrated_rooms_are_left(plan: Plan, at: int, outcomes: Outcomes)
    requires
        0 <= at < plan.rooms.entries().len(),
        plan.rooms.ordered(),
        concludes_all(outcomes),
    ensures
        ({
            let actions = plan_history(plan, outcomes).actions;
            let room = id_at(plan, at);
            actions.contains(ActionView::Leave { room }) <==> {
                &&& said_at(plan, at).leave
                &&& forall|i: int|
                    0 <= i < actions.len() && room_of(#[trigger] actions[i]) == Some(room) && !(
                    actions[i] is Leave) ==> cause_of(outcomes(actions[i])) is None
                &&& forall|i: int|
                    0 <= i < actions.len() && #[trigger] actions[i] is SetGlobal ==> cause_of(
                        outcomes(actions[i]),
                    ) is None
            }
        }),
{
    let room = id_at(plan, at);
    let migration = migration_history(plan, outcomes);
    let leaving = leave_history(plan, migration.failures, 0, outcomes);
    let all = plan_history(plan, outcomes);
    let n = migration.actions.len() as int;
    lemma_faithful_migration(plan, outcomes);
    lemma_faithful_leaving(plan, migration.failures, 0, outcomes);
    lemma_migration_never_leaves(plan, outcomes);
    lemma_leaving(plan, migration.failures, 0, at, outcomes);
    assert(has_failed(migration.failures, room) <==> fails_in(migration.actions, outcomes, room));
    let action = ActionView::Leave { room };
    assert(!migration.actions.contains(action));
    if fails_globally(migration.actions, outcomes) {
        let k = choose|k: int|
            0 <= k < migration.actions.len() && #[trigger] migration.actions[k] is SetGlobal
                && cause_of(outcomes(migration.actions[k])) is Some;
        assert(all.actions[k] == migration.actions[k]);
    } else {
        assert(all == migration.then_also(leaving));
        if fails_in(migration.actions, outcomes, room) {
            let k = choose|k: int|
                0 <= k < n && room_of(#[trigger] migration.actions[k]) == Some(room) && cause_of(
                    outcomes(migration.actions[k]),
                ) is Some;
            assert(all.actions[k] == migration.actions[k]);
            assert(!(all.actions[k] is Leave));
        }
        assert forall|i: int| n <= i < all.actions.len() implies (
        #[trigger] all.actions[i]) is Leave by {
            assert(all.actions[i] == leaving.actions[i - n]);
        }
        assert forall|i: int| 0 <= i < n implies #[trigger] all.actions[i] == migration.actions[i] by {
        }
        if leaving.actions.contains(action) {
            let i = choose|i: int| 0 <= i < leaving.actions.len() && leaving.actions[i] == action;
            assert(all.actions[n + i] == action);
        }
        if all.actions.contains(action) {
            let i = choose|i: int| 0 <= i < all.actions.len() && all.actions[i] == action;
            if i < n {
                assert(migration.actions[i] == action);
            } else {
                assert(leaving.actions[i - n] == action);
            }
        }
        if !fails_in(migration.actions, outcomes, room) {
            assert forall|i: int|
                0 <= i < all.actions.len() && room_of(#[trigger] all.actions[i]) == Some(room) && !(
                all.actions[i] is Leave) implies cause_of(outcomes(all.actions[i])) is None by {
                assert(all.actions[i] == migration.actions[i]);
            }
        }
    }
}

proof fn lemma_in_either(a: Seq<ActionView>, b: Seq<ActionView>, action: ActionView)
    ensures
        (a + b).contains(action) <==> a.contains(action) || b.contains(action),
{
    if a.contains(action) {
        let i = choose|i: int| 0 <= i < a.len() && a[i] == action;
        assert((a + b)[i] == action);
    }
    if b.contains(action) {
        let i = choose|i: int| 0 <= i < b.len() && b[i] == action;
        assert((a + b)[a.len() + i] == action);
    }
    if (a + b).contains(action) {
        let i = choose|i: int| 0 <= i < (a + b).len() && (a + b)[i] == action;
        if i < a.len() {
            assert(a[i] == action);
        } else {
            assert(b[i - a.len()] == action);
        }
    }
}

/// Whether an action succeeds.
spec fn goes_well(outcomes: Outcomes, action: ActionView) -> bool {
    cause_of(outcomes(action)) is None
}

/// What is done for a room is one of a few things, each for a reason.
spec fn is_justified(plan: Plan, at: int, outcomes: Outcomes, action: ActionView) -> bool {
    let room = id_at(plan, at);
    let said = said_at(plan, at);
    let invite = ActionView::Invite { room, user: plan.new_user_id@ };
    let wait = ActionView::WaitForInvite { room };
    let join = ActionView::Join { room, via: after_colon(plan.old_user_id@)->0 };
    let read = ActionView::ReadPowerLevels { room };
    let admitted = said.invite ==> goes_well(outcomes, invite) && goes_well(outcomes, wait);
    let entered = admitted && (said.join ==> goes_well(outcomes, join));
    match action {
        ActionView::Invite { .. } => said.invite && action == invite,
        ActionView::WaitForInvite { .. } => said.invite && goes_well(outcomes, invite) && action
            == wait,
        ActionView::Sleep { millis } => said.invite && goes_well(outcomes, invite) && goes_well(
            outcomes,
            wait,
        ) && millis == 200,
        ActionView::Join { .. } => said.join && admitted && action == join,
        ActionView::ReadPowerLevels { .. } => said.power_level is Some && entered && action == read,
        ActionView::WritePowerLevels { .. } => said.power_level is Some && entered && goes_well(
            outcomes,
            read,
        ) && action == write_levels(plan, at, outcomes(read)->PowerLevels_0->Ok_0),
        ActionView::SetTags { .. } => said.account_data is Some && entered && action == (
        ActionView::SetTags { room, content: said.account_data->0.text("tags"@) }),
        ActionView::SetGlobal { .. } => false,
        ActionView::Leave { .. } => false,
    }
}

proof fn lemma_one_action(action: ActionView, other: ActionView)
    ensures
        seq![action].contains(other) <==> action == other,
{
    assert(seq![action][0] == action);
}

proof fn lemma_room_actions(plan: Plan, at: int, outcomes: Outcomes, action: ActionView)
    requires
        concludes_all(outcomes),
    ensures
        room_history(plan, at, outcomes).actions.contains(action) <==> is_justified(
            plan,
            at,
            outcomes,
            action,
        ),
{
    let room = id_at(plan, at);
    let said = said_at(plan, at);
    let invite = ActionView::Invite { room, user: plan.new_user_id@ };
    let wait = ActionView::WaitForInvite { room };
    let sleep = ActionView::Sleep { millis: 200 };
    let join = ActionView::Join { room, via: after_colon(plan.old_user_id@)->0 };
    let read = ActionView::ReadPowerLevels { room };
    let levels = outcomes(read)->PowerLevels_0->Ok_0;
    let write = write_levels(plan, at, levels);
    let tags = ActionView::SetTags { room, content: said.account_data->0.text("tags"@) };
    assert(concludes(read, outcomes(read)));
    lemma_one_action(invite, action);
    lemma_one_action(wait, action);
    lemma_one_action(sleep, action);
    lemma_one_action(join, action);
    lemma_one_action(read, action);
    lemma_one_action(write, action);
    lemma_one_action(tags, action);
    lemma_in_either(seq![invite], seq![wait], action);
    lemma_in_either(seq![invite] + seq![wait], seq![sleep], action);
    lemma_in_either(seq![read], seq![write], action);
    let a = invite_history(plan, at, outcomes).actions;
    let b = join_history(plan, at, outcomes).actions;
    let c = level_history(plan, at, outcomes).actions;
    let d = tags_history(plan, at, outcomes).actions;
    lemma_in_either(a, b, action);
    lemma_in_either(a + b, c, action);
    lemma_in_either(a + b + c, d, action);
    assert(a.contains(action) <==> is_justified(plan, at, outcomes, action) && (action is Invite
        || action is WaitForInvite || action is Sleep));
    assert(b.contains(action) <==> is_justified(plan, at, outcomes, action) && action is Join);
    assert(c.contains(action) <==> is_justified(plan, at, outcomes, action) && (
    action is ReadPowerLevels || action is WritePowerLevels));
    assert(d.contains(action) <==> is_justified(plan, at, outcomes, action) && action is SetTags);
}

proof fn lemma_rooms_actions(plan: Plan, from: int, outcomes: Outcomes, action: ActionView)
    requires
        0 <= from,
        concludes_all(outcomes),
    ensures
        rooms_history(plan, from, outcomes).actions.contains(action) <==> exists|at: int|
            from <= at < plan.rooms.entries().len() && #[trigger] is_justified(
                plan,
                at,
                outcomes,
                action,
            ),
    decreases plan.rooms.entries().len() - from,
{
    if from < plan.rooms.entries().len() {
        lemma_room_actions(plan, from, outcomes, action);
        lemma_rooms_actions(plan, from + 1, outcomes, action);
        lemma_in_either(
            room_history(plan, from, outcomes).actions,
            rooms_history(plan, from + 1, outcomes).actions,
            action,
        );
    }
}

proof fn lemma_migration_actions(plan: Plan, outcomes: Outcomes, action: ActionView)
    requires
        concludes_all(outcomes),
    ensures
        migration_history(plan, outcomes).actions.contains(action) <==> {
            ||| exists|at: int|
                0 <= at < plan.rooms.entries().len() && #[trigger] is_justified(
                    plan,
                    at,
                    outcomes,
                    action,
                )
            ||| plan.direct is Some && action == (ActionView::SetGlobal {
                data: GlobalData::Direct,
                content: array_object_text(plan.direct->0.entries()),
            })
            ||| plan.ignored_users is Some && action == (ActionView::SetGlobal {
                data: GlobalData::IgnoredUsers,
                content: plan.ignored_users->0.text("ignored_users"@),
            })
        },
{
    let rooms = rooms_history(plan, 0, outcomes).actions;
    let direct = direct_history(plan, outcomes).actions;
    let ignored = ignored_history(plan, outcomes).actions;
    lemma_rooms_actions(plan, 0, outcomes, action);
    lemma_in_either(rooms, direct, action);
    lemma_in_either(rooms + direct, ignored, action);
    lemma_one_action(
        ActionView::SetGlobal {
            data: GlobalData::Direct,
            content: array_object_text(plan.direct->0.entries()),
        },
        action,
    );
    lemma_one_action(
        ActionView::SetGlobal {
            data: GlobalData::IgnoredUsers,
            content: plan.ignored_users->0.text("ignored_users"@),
        },
        action,
    );
}

/// What is done besides leaving is what is migrated.
proof fn lemma_plan_actions(plan: Plan, outcomes: Outcomes, action: ActionView)
    requires
        concludes_all(outcomes),
        !(action is Leave),
    ensures
        plan_history(plan, outcomes).actions.contains(action) <==> migration_history(
            plan,
            outcomes,
        ).actions.contains(action),
{
    let migration = migration_history(plan, outcomes);
    let leaving = leave_history(plan, migration.failures, 0, outcomes);
    lemma_faithful_leaving(plan, migration.failures, 0, outcomes);
    lemma_in_either(migration.actions, leaving.actions, action);
    if leaving.actions.contains(action) {
        let i = choose|i: int| 0 <= i < leaving.actions.len() && leaving.actions[i] == action;
        assert(leaving.actions[i] is Leave);
    }
}

/// Whatever fails elsewhere, each room gets what is planned for it: the new user is invited where
/// that is planned; if that goes well, the invitation is waited for; they join where that is
/// planned unless their invitation failed; and unless they could not be brought into the room, the
/// power levels are read and then written, and the tags are set, where that is planned, the one
/// whether or not the other fails. The account data is set whatever fails in rooms.
pub proof fn law_everything_planned_is_tried(plan: Plan, at: int, outcomes: Outcomes)
    requires
        0 <= at < plan.rooms.entries().len(),
        concludes_all(outcomes),
    ensures
        ({
            let actions = plan_history(plan, outcomes).actions;
            let room = id_at(plan, at);
            let said = said_at(plan, at);
            let well = |action: ActionView| cause_of(outcomes(action)) is None;
            let invite = ActionView::Invite { room, user: plan.new_user_id@ };
            let wait = ActionView::WaitForInvite { room };
            let join = ActionView::Join { room, via: after_colon(plan.old_user_id@)->0 };
            let read = ActionView::ReadPowerLevels { room };
            let admitted = said.invite ==> well(invite) && well(wait);
            let entered = admitted && (said.join ==> well(join));
            &&& said.invite ==> actions.contains(invite)
            &&& said.invite && well(invite) ==> actions.contains(wait)
            &&& said.invite && well(invite) && well(wait) ==> actions.contains(
                ActionView::Sleep { millis: 200 },
            )
            &&& said.join && admitted ==> actions.contains(join)
            &&& said.power_level is Some && entered ==> actions.contains(read)
            &&& said.power_level is Some && entered && well(read) ==> exists|i: int|
                0 <= i < actions.len() && (#[trigger] actions[i] matches ActionView::WritePowerLevels {
                    room: target,
                    ..
                } && target == room)
            &&& said.account_data is Some && entered ==> actions.contains(
                ActionView::SetTags { room, content: said.account_data->0.text("tags"@) },
            )
            &&& plan.direct is Some ==> actions.contains(
                ActionView::SetGlobal {
                    data: GlobalData::Direct,
                    content: array_object_text(plan.direct->0.entries()),
                },
            )
            &&& plan.ignored_users is Some ==> actions.contains(
                ActionView::SetGlobal {
                    data: GlobalData::IgnoredUsers,
                    content: plan.ignored_users->0.text("ignored_users"@),
                },
            )
        }),
{
    let actions = plan_history(plan, outcomes).actions;
    let room = id_at(plan, at);
    assert forall|action: ActionView| #[trigger]
        is_justified(plan, at, outcomes, action) implies actions.contains(action) by {
        lemma_migration_actions(plan, outcomes, action);
        lemma_plan_actions(plan, outcomes, action);
    }
    let said = said_at(plan, at);
    let read = ActionView::ReadPowerLevels { room };
    let write = write_levels(plan, at, outcomes(read)->PowerLevels_0->Ok_0);
    assert(is_justified(plan, at, outcomes, ActionView::Invite { room, user: plan.new_user_id@ })
        == said.invite);
    assert(said.invite ==> is_justified(plan, at, outcomes, ActionView::WaitForInvite { room })
        == goes_well(outcomes, ActionView::Invite { room, user: plan.new_user_id@ }));
    assert(said.invite && goes_well(
        outcomes,
        ActionView::Invite { room, user: plan.new_user_id@ },
    ) && goes_well(outcomes, ActionView::WaitForInvite { room }) ==> is_justified(
        plan,
        at,
        outcomes,
        ActionView::Sleep { millis: 200 },
    ));
    let join = ActionView::Join { room, via: after_colon(plan.old_user_id@)->0 };
    let tags = ActionView::SetTags { room, content: said.account_data->0.text("tags"@) };
    assert(is_justified(plan, at, outcomes, join) ==> actions.contains(join));
    assert(is_justified(plan, at, outcomes, read) ==> actions.contains(read));
    assert(is_justified(plan, at, outcomes, tags) ==> actions.contains(tags));
    if is_justified(plan, at, outcomes, write) {
        assert(actions.contains(write));
        let i = choose|i: int| 0 <= i < actions.len() && actions[i] == write;
        assert(actions[i] is WritePowerLevels);
    }
    let direct = ActionView::SetGlobal {
        data: GlobalData::Direct,
        content: array_object_text(plan.direct->0.entries()),
    };
    lemma_migration_actions(plan, outcomes, direct);
    lemma_plan_actions(plan, outcomes, direct);
    let ignored = ActionView::SetGlobal {
        data: GlobalData::IgnoredUsers,
        content: plan.ignored_users->0.text("ignored_users"@),
    };
    lemma_migration_actions(plan, outcomes, ignored);
    lemma_plan_actions(plan, outcomes, ignored);
}

/// Nothing is done that is not planned: for each action there is a room of the plan that it is
/// about and that calls for it, and nothing is done in a room that the new user could not be
/// brought into.
pub proof fn law_nothing_else_is_done(plan: Plan, outcomes: Outcomes, action: ActionView)
    requires
        concludes_all(outcomes),
        plan_history(plan, outcomes).actions.contains(action),
        !(action is Leave),
    ensures
        match action {
            ActionView::SetGlobal { data, .. } => match data {
                GlobalData::Direct => plan.direct is Some,
                GlobalData::IgnoredUsers => plan.ignored_users is Some,
            },
            _ => exists|at: int|
                {
                    let room = #[trigger] id_at(plan, at);
                    let said = said_at(plan, at);
                    let well = |action: ActionView| cause_of(outcomes(action)) is None;
                    let invite = ActionView::Invite { room, user: plan.new_user_id@ };
                    let wait = ActionView::WaitForInvite { room };
                    let join = ActionView::Join { room, via: after_colon(plan.old_user_id@)->0 };
                    let entered = (said.invite ==> well(invite) && well(wait)) && (said.join
                        ==> well(join));
                    &&& 0 <= at < plan.rooms.entries().len()
                    &&& action is Sleep || room_of(action) == Some(room)
                    &&& action is Invite ==> said.invite && action == invite
                    &&& action is WaitForInvite ==> said.invite && well(invite)
                    &&& action is Sleep ==> said.invite && well(invite) && well(wait)
                    &&& action is Join ==> said.join && action == join && (said.invite ==> well(
                        invite,
                    ) && well(wait))
                    &&& action is ReadPowerLevels || action is WritePowerLevels ==> entered
                        && said.power_level is Some
                    &&& action is SetTags ==> entered && said.account_data is Some
                },
        },
{
    lemma_plan_actions(plan, outcomes, action);
    lemma_migration_actions(plan, outcomes, action);
    if !(action is SetGlobal) {
        let at = choose|at: int|
            0 <= at < plan.rooms.entries().len() && #[trigger] is_justified(
                plan,
                at,
                outcomes,
                action,
            );
        assert(id_at(plan, at) == plan.rooms.entries()[at].0@);
    }
}

/// First everything is done for the rooms, then the direct message mapping is set, then the list of
/// ignored users, and only then are rooms left.
pub proof fn law_work_is_done_in_order(plan: Plan, outcomes: Outcomes, i: int, j: int)
    requires
        concludes_all(outcomes),
        0 <= i < j < plan_history(plan, outcomes).actions.len(),
    ensures
        ({
            let first = plan_history(plan, outcomes).actions[i];
            let second = plan_history(plan, outcomes).actions[j];
            &&& first is Leave ==> second is Leave
            &&& first is SetGlobal ==> second is Leave || (second matches ActionView::SetGlobal {
                data,
                ..
            } && data is IgnoredUsers && first->SetGlobal_data is Direct)
        }),
{
    let rooms = rooms_history(plan, 0, outcomes).actions;
    let direct = direct_history(plan, outcomes).actions;
    let ignored = ignored_history(plan, outcomes).actions;
    let migration = migration_history(plan, outcomes);
    let leaving = leave_history(plan, migration.failures, 0, outcomes).actions;
    let all = plan_history(plan, outcomes).actions;
    lemma_faithful_leaving(plan, migration.failures, 0, outcomes);
    lemma_migration_never_leaves(plan, outcomes);
    let n = migration.actions.len() as int;
    assert(forall|k: int| 0 <= k < n ==> #[trigger] all[k] == migration.actions[k]);
    assert(all.len() > n ==> all == migration.actions + leaving);
    if i >= n {
        assert(all[i] == leaving[i - n] && all[j] == leaving[j - n]);
    } else if j >= n {
        assert(all[j] == leaving[j - n]);
        assert(all[i] == migration.actions[i]);
    } else {
        assert(all[i] == migration.actions[i] && all[j] == migration.actions[j]);
        if i < rooms.len() {
            assert(migration.actions[i] == rooms[i]);
            assert(rooms.contains(rooms[i]));
            lemma_rooms_actions(plan, 0, outcomes, rooms[i]);
        }
    }
}

/// The old user stays in a room that should be left exactly if there is a failure in it, other than
/// that it could not be left; rooms stay altogether exactly if there is a failure outside of rooms.
/// One more failure never changes that back.
pub proof fn law_failures_keep_rooms(
    plan: Plan,
    failures: Seq<Failure>,
    failure: Failure,
    at: int,
)
    ensures
        !is_kept(plan, Seq::empty(), at),
        !any_global(Seq::empty()),
        !has_failed(Seq::empty(), id_at(plan, at)),
        is_kept(plan, failures.push(failure), at) <==> is_kept(plan, failures, at) || (said_at(
            plan,
            at,
        ).leave && (failure matches Failure::Room { room, error } && room@ == id_at(plan, at)
            && !(error is Leave))),
        any_global(failures.push(failure)) <==> any_global(failures) || failure is Global,
        has_failed(failures.push(failure), id_at(plan, at)) <==> has_failed(
            failures,
            id_at(plan, at),
        ) || (failure matches Failure::Room { room, .. } && room@ == id_at(plan, at)),
{
    let more = failures.push(failure);
    let last = failures.len() as int;
    assert(more[last] == failure);
    assert forall|i: int| 0 <= i < last implies #[trigger] more[i] == failures[i] by {}
    if is_kept(plan, failures, at) {
        let i = choose|i: int|
            0 <= i < failures.len() && (#[trigger] failures[i] matches Failure::Room {
                room,
                error,
            } && room@ == id_at(plan, at) && !(error is Leave));
        assert(more[i] == failures[i]);
    }
    if any_global(failures) {
        let i = choose|i: int| 0 <= i < failures.len() && #[trigger] failures[i] is Global;
        assert(more[i] == failures[i]);
    }
    if has_failed(failures, id_at(plan, at)) {
        let i = choose|i: int|
            0 <= i < failures.len() && (#[trigger] failures[i] matches Failure::Room { room, .. }
                && room@ == id_at(plan, at));
        assert(more[i] == failures[i]);
    }
}

} // verus!
