//! Which rooms an execution leaves, stated over how every action would go.

use vstd::prelude::*;

use crate::execute::{
    any_global, has_failed, is_kept, room_at, room_failure, room_plan_at, Failure, RoomError,
};
use crate::execute_outcome::{
    attempt, direct_history, ignored_history, invite_history, join_history, leave_action,
    leave_history, level_history, migration_history, plan_history, room_history, rooms_history,
    tags_history, History, Outcomes,
};
use crate::plan::Plan;
use crate::state::AccessError;
use crate::text::lemma_text_order;
use crate::text_map::keys_of;

verus! {

/// Whether no room is left.
pub open spec fn never_leaves(history: History) -> bool {
    &&& forall|i: int| 0 <= i < history.actions.len() ==> !(#[trigger] history.actions[i] is Leave)
    &&& forall|i: int|
        0 <= i < history.failures.len() ==> !(#[trigger] history.failures[i] matches Failure::Room {
            error,
            ..
        } && error is Leave)
}

proof fn lemma_never_leaves(a: History, b: History)
    requires
        never_leaves(a),
        never_leaves(b),
    ensures
        never_leaves(a.then_also(b)),
{
    let all = a.then_also(b);
    assert forall|i: int| 0 <= i < all.actions.len() implies !(
    #[trigger] all.actions[i] is Leave) by {
        if i >= a.actions.len() {
            assert(all.actions[i] == b.actions[i - a.actions.len()]);
        } else {
            assert(all.actions[i] == a.actions[i]);
        }
    }
    assert forall|i: int| 0 <= i < all.failures.len() implies !(
    #[trigger] all.failures[i] matches Failure::Room { error, .. } && error is Leave) by {
        if i >= a.failures.len() {
            assert(all.failures[i] == b.failures[i - a.failures.len()]);
        } else {
            assert(all.failures[i] == a.failures[i]);
        }
    }
}

proof fn lemma_room_never_leaves(plan: Plan, at: int, outcomes: Outcomes)
    ensures
        never_leaves(room_history(plan, at, outcomes)),
{
    let invite = invite_history(plan, at, outcomes);
    let join = join_history(plan, at, outcomes);
    let level = level_history(plan, at, outcomes);
    let tags = tags_history(plan, at, outcomes);
    assert(never_leaves(invite));
    assert(never_leaves(level));
    lemma_never_leaves(invite, join);
    lemma_never_leaves(invite.then_also(join), level);
    lemma_never_leaves(invite.then_also(join).then_also(level), tags);
}

proof fn lemma_rooms_never_leave(plan: Plan, at: int, outcomes: Outcomes)
    ensures
        never_leaves(rooms_history(plan, at, outcomes)),
    decreases plan.rooms.entries().len() - at,
{
    if at < plan.rooms.entries().len() {
        lemma_room_never_leaves(plan, at, outcomes);
        lemma_rooms_never_leave(plan, at + 1, outcomes);
        lemma_never_leaves(
            room_history(plan, at, outcomes),
            rooms_history(plan, at + 1, outcomes),
        );
    }
}

/// Nothing that is migrated leaves a room.
pub proof fn lemma_migration_never_leaves(plan: Plan, outcomes: Outcomes)
    ensures
        never_leaves(migration_history(plan, outcomes)),
{
    let rooms = rooms_history(plan, 0, outcomes);
    let direct = direct_history(plan, outcomes);
    let ignored = ignored_history(plan, outcomes);
    lemma_rooms_never_leave(plan, 0, outcomes);
    lemma_never_leaves(rooms, direct);
    lemma_never_leaves(rooms.then_also(direct), ignored);
}

/// Leaving rooms does nothing but leave the rooms that should be left and in which nothing failed,
/// and nothing else can fail.
pub proof fn lemma_leaving(
    plan: Plan,
    failures: Seq<Failure>,
    from: int,
    at: int,
    outcomes: Outcomes,
)
    requires
        0 <= from,
        0 <= at < plan.rooms.entries().len(),
        plan.rooms.ordered(),
    ensures
        ({
            let history = leave_history(plan, failures, from, outcomes);
            &&& history.actions.contains(leave_action(plan, at)) <==> from <= at && room_plan_at(
                plan,
                at,
            ).leave && !has_failed(failures, room_at(plan, at))
            &&& forall|i: int|
                0 <= i < history.failures.len() ==> (
                #[trigger] history.failures[i] matches Failure::Room { error, .. }
                    && error is Leave)
        }),
    decreases plan.rooms.entries().len() - from,
{
    if from < plan.rooms.entries().len() {
        lemma_leaving(plan, failures, from + 1, at, outcomes);
        let action = leave_action(plan, at);
        let rest = leave_history(plan, failures, from + 1, outcomes);
        let room = room_at(plan, from);
        if room_plan_at(plan, from).leave && !has_failed(failures, room) {
            let report = |error: AccessError| room_failure(plan, from, RoomError::Leave(error));
            let first = attempt(outcomes, leave_action(plan, from), report);
            let all = first.then_also(rest);
            assert(leave_history(plan, failures, from, outcomes) == all);
            assert(all.actions[0] == leave_action(plan, from));
            assert forall|i: int| 0 <= i < all.failures.len() implies (
            #[trigger] all.failures[i] matches Failure::Room { error, .. } && error is Leave) by {
                if i >= first.failures.len() {
                    assert(all.failures[i] == rest.failures[i - first.failures.len()]);
                }
            }
            if rest.actions.contains(action) {
                let i = choose|i: int| 0 <= i < rest.actions.len() && rest.actions[i] == action;
                assert(all.actions[i + 1] == action);
            }
            if all.actions.contains(action) && at != from {
                let i = choose|i: int| 0 <= i < all.actions.len() && all.actions[i] == action;
                if i > 0 {
                    assert(rest.actions[i - 1] == action);
                } else {
                    let other = room_at(plan, at);
                    let keys = keys_of(plan.rooms.entries());
                    assert(keys[from] == room && keys[at] == other);
                    lemma_text_order(room, other);
                    assert(false);
                }
            }
        }
    }
}

/// Of the rooms that should be left, the old user leaves or stays in each: unless some global data
/// failed, they try to leave a room exactly if it is not kept because its migration failed.
pub proof fn law_rooms_are_left_or_kept(plan: Plan, at: int, outcomes: Outcomes)
    requires
        0 <= at < plan.rooms.entries().len(),
        plan.rooms.ordered(),
        room_plan_at(plan, at).leave,
    ensures
        ({
            let history = plan_history(plan, outcomes);
            history.actions.contains(leave_action(plan, at)) <==> !any_global(history.failures)
                && !is_kept(plan, history.failures, at)
        }),
{
    let action = leave_action(plan, at);
    let room = room_at(plan, at);
    let migration = migration_history(plan, outcomes);
    let leaving = leave_history(plan, migration.failures, 0, outcomes);
    let all = plan_history(plan, outcomes);
    lemma_migration_never_leaves(plan, outcomes);
    lemma_leaving(plan, migration.failures, 0, at, outcomes);
    if migration.actions.contains(action) {
        let i = choose|i: int| 0 <= i < migration.actions.len() && migration.actions[i] == action;
        assert(migration.actions[i] is Leave);
    }
    if !any_global(migration.failures) {
        assert(all == migration.then_also(leaving));
        if any_global(all.failures) {
            let i = choose|i: int|
                0 <= i < all.failures.len() && #[trigger] all.failures[i] is Global;
            if i < migration.failures.len() {
                assert(migration.failures[i] is Global);
            } else {
                assert(leaving.failures[i - migration.failures.len()] == all.failures[i]);
            }
        }
        if leaving.actions.contains(action) {
            let i = choose|i: int| 0 <= i < leaving.actions.len() && leaving.actions[i] == action;
            assert(all.actions[migration.actions.len() + i] == action);
        }
        if all.actions.contains(action) {
            let i = choose|i: int| 0 <= i < all.actions.len() && all.actions[i] == action;
            if i < migration.actions.len() {
                assert(migration.actions[i] == action);
            } else {
                assert(leaving.actions[i - migration.actions.len()] == action);
            }
        }
        if has_failed(migration.failures, room) {
            let i = choose|i: int|
                0 <= i < migration.failures.len() && (
                #[trigger] migration.failures[i] matches Failure::Room { room: failed, .. }
                    && failed@ == room);
            assert(all.failures[i] == migration.failures[i]);
        }
        if is_kept(plan, all.failures, at) {
            let i = choose|i: int|
                0 <= i < all.failures.len() && (#[trigger] all.failures[i] matches Failure::Room {
                    room: failed,
                    error,
                } && failed@ == room && !(error is Leave));
            if i < migration.failures.len() {
                assert(all.failures[i] == migration.failures[i]);
            } else {
                assert(leaving.failures[i - migration.failures.len()] == all.failures[i]);
            }
        }
    }
}

} // verus!
