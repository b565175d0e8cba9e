//! Executing a migration plan.
//!
//! An [`Executor`] hands out one action at a time and takes in how it went. It decides what that
//! means for the rest of the migration.

use vstd::prelude::*;

use crate::ids::after_colon;
use crate::json::{array_object_text, array_object_to_text};
use crate::members::{IGNORED_USERS_MEMBER, TAGS_MEMBER};
use crate::plan::{Plan, RoomPlan};
use crate::power_levels::{PowerLevels, PowerLevelsContent, PowerLevelsContentView};
use crate::state::AccessError;
use crate::text::same_str;

verus! {

/// How long to wait between receiving an invitation and joining, in milliseconds.
///
/// Some servers have issues with joins immediately after receiving the invitation.
pub const JOIN_DELAY_MILLIS: u64 = 200;

/// What went wrong with a power level.
pub enum PowerLevelError {
    Read(AccessError),
    Write(AccessError),
}

/// What went wrong with a room.
pub enum RoomError {
    Invite(AccessError),
    WaitInvite(AccessError),
    Join(AccessError),
    Leave(AccessError),
    PowerLevel(PowerLevelError),
    Tags(AccessError),
}

/// The account data of a user that is migrated.
#[derive(Clone, Copy, PartialEq, Eq, Structural, Debug)]
pub enum GlobalData {
    Direct,
    IgnoredUsers,
}

/// An action that failed.
pub enum Failure {
    Room { room: String, error: RoomError },
    Global { data: GlobalData, cause: AccessError },
}

/// What is to be done next.
pub enum Action {
    /// The old user invites the new user.
    Invite { room: String, user: String },
    /// Wait until the new user has received the invitation.
    WaitForInvite { room: String },
    Sleep { millis: u64 },
    /// The new user joins, by way of a server.
    Join { room: String, via: String },
    /// The old user reads the power levels.
    ReadPowerLevels { room: String },
    /// The old user sets the power levels.
    WritePowerLevels { room: String, levels: PowerLevelsContent },
    /// The tags of the new user are set to a JSON object.
    SetTags { room: String, content: String },
    /// The account data of the new user is set to a JSON object.
    SetGlobal { data: GlobalData, content: String },
    /// The old user leaves.
    Leave { room: String },
}

/// The contents of an [`Action`].
#[verifier::ext_equal]
pub enum ActionView {
    Invite { room: Seq<char>, user: Seq<char> },
    WaitForInvite { room: Seq<char> },
    Sleep { millis: u64 },
    Join { room: Seq<char>, via: Seq<char> },
    ReadPowerLevels { room: Seq<char> },
    WritePowerLevels { room: Seq<char>, levels: PowerLevelsContentView },
    SetTags { room: Seq<char>, content: Seq<char> },
    SetGlobal { data: GlobalData, content: Seq<char> },
    Leave { room: Seq<char> },
}

impl View for Action {
    type V = ActionView;

    open spec fn view(&self) -> ActionView {
        match *self {
            Action::Invite { room, user } => ActionView::Invite { room: room@, user: user@ },
            Action::WaitForInvite { room } => ActionView::WaitForInvite { room: room@ },
            Action::Sleep { millis } => ActionView::Sleep { millis },
            Action::Join { room, via } => ActionView::Join { room: room@, via: via@ },
            Action::ReadPowerLevels { room } => ActionView::ReadPowerLevels { room: room@ },
            Action::WritePowerLevels { room, levels } => ActionView::WritePowerLevels {
                room: room@,
                levels: levels@,
            },
            Action::SetTags { room, content } => ActionView::SetTags {
                room: room@,
                content: content@,
            },
            Action::SetGlobal { data, content } => ActionView::SetGlobal {
                data,
                content: content@,
            },
            Action::Leave { room } => ActionView::Leave { room: room@ },
        }
    }
}

/// How an action went.
pub enum Event {
    Finished(Result<(), AccessError>),
    /// What reading the power levels gave.
    PowerLevels(Result<PowerLevels, AccessError>),
}

impl Event {
    /// The error of an action that failed.
    pub open spec fn error(self) -> Option<AccessError> {
        match self {
            Event::Finished(Err(error)) => Some(error),
            Event::PowerLevels(Err(error)) => Some(error),
            _ => None,
        }
    }
}

/// A step in the migration of a room.
#[derive(Clone, Copy, PartialEq, Eq, Structural, Debug)]
pub enum RoomStep {
    Invite,
    WaitForInvite,
    Pause,
    Join,
    ReadPowerLevels,
    WritePowerLevels,
    SetTags,
}

/// How far an execution has come.
#[derive(Clone, Copy, PartialEq, Eq, Structural, Debug)]
pub enum Stage {
    /// A step for the room at some position of the plan.
    Room { at: usize, step: RoomStep },
    Global { data: GlobalData },
    /// The old user leaves the room at some position of the plan.
    Leave { at: usize },
    Done,
    /// The power levels of a room cannot be sent back, because a privileged creator has an entry.
    Broken,
}

/// The room at a position of a plan.
pub open spec fn room_at(plan: Plan, at: int) -> Seq<char> {
    plan.rooms.entries()[at].0@
}

/// The plan for the room at a position.
pub open spec fn room_plan_at(plan: Plan, at: int) -> RoomPlan {
    plan.rooms.entries()[at].1
}

/// The first step of the migration of a room.
pub open spec fn first_step(room: RoomPlan) -> Option<RoomStep> {
    if room.invite {
        Some(RoomStep::Invite)
    } else {
        step_after_invite(room)
    }
}

pub open spec fn step_after_invite(room: RoomPlan) -> Option<RoomStep> {
    if room.join {
        Some(RoomStep::Join)
    } else {
        step_after_join(room)
    }
}

pub open spec fn step_after_join(room: RoomPlan) -> Option<RoomStep> {
    if room.power_level is Some {
        Some(RoomStep::ReadPowerLevels)
    } else {
        step_after_levels(room)
    }
}

pub open spec fn step_after_levels(room: RoomPlan) -> Option<RoomStep> {
    if room.account_data is Some {
        Some(RoomStep::SetTags)
    } else {
        None
    }
}

/// Whether something failed that does not belong to a room.
pub open spec fn any_global(failures: Seq<Failure>) -> bool {
    exists|i: int| 0 <= i < failures.len() && #[trigger] failures[i] is Global
}

/// Whether something failed in a room.
pub open spec fn has_failed(failures: Seq<Failure>, room: Seq<char>) -> bool {
    exists|i: int|
        0 <= i < failures.len() && (#[trigger] failures[i] matches Failure::Room { room: failed, .. }
            && failed@ == room)
}

/// Whether the old user stays in a room that should be left, because its migration failed in some
/// other way than that leaving it failed.
pub open spec fn is_kept(plan: Plan, failures: Seq<Failure>, at: int) -> bool {
    &&& room_plan_at(plan, at).leave
    &&& exists|i: int|
        0 <= i < failures.len() && (#[trigger] failures[i] matches Failure::Room { room, error }
            && room@ == room_at(plan, at) && !(error is Leave))
}

/// The stage that starts with the first room from a position on that the old user leaves: rooms
/// that should be left and in which nothing failed.
pub open spec fn leave_from(plan: Plan, failures: Seq<Failure>, at: int) -> Stage
    decreases plan.rooms.entries().len() - at,
{
    if at < 0 || at >= plan.rooms.entries().len() {
        Stage::Done
    } else if room_plan_at(plan, at).leave && !has_failed(failures, room_at(plan, at)) {
        Stage::Leave { at: at as usize }
    } else {
        leave_from(plan, failures, at + 1)
    }
}

/// The stage after everything was migrated: rooms are only left if all global data was migrated.
pub open spec fn start_leaving(plan: Plan, failures: Seq<Failure>) -> Stage {
    if any_global(failures) {
        Stage::Done
    } else {
        leave_from(plan, failures, 0)
    }
}

/// The stage after the direct message mapping.
pub open spec fn start_ignored(plan: Plan, failures: Seq<Failure>) -> Stage {
    if plan.ignored_users is Some {
        Stage::Global { data: GlobalData::IgnoredUsers }
    } else {
        start_leaving(plan, failures)
    }
}

/// The stage after all rooms.
pub open spec fn start_global(plan: Plan, failures: Seq<Failure>) -> Stage {
    if plan.direct is Some {
        Stage::Global { data: GlobalData::Direct }
    } else {
        start_ignored(plan, failures)
    }
}

/// The stage that starts with the room at a position.
pub open spec fn start_rooms(plan: Plan, failures: Seq<Failure>, at: int) -> Stage
    decreases plan.rooms.entries().len() - at,
{
    if at < 0 || at >= plan.rooms.entries().len() {
        start_global(plan, failures)
    } else {
        match first_step(room_plan_at(plan, at)) {
            Some(step) => Stage::Room { at: at as usize, step },
            None => start_rooms(plan, failures, at + 1),
        }
    }
}

/// The stage that goes on with a step for the room at a position, or with the next room.
pub open spec fn go_on(plan: Plan, failures: Seq<Failure>, at: int, step: Option<RoomStep>) -> Stage {
    match step {
        Some(step) => Stage::Room { at: at as usize, step },
        None => start_rooms(plan, failures, at + 1),
    }
}

/// How far an execution has come, and what has failed so far.
#[verifier::ext_equal]
pub struct Progress {
    pub stage: Stage,
    pub failures: Seq<Failure>,
}

/// A failure in the room at a position.
pub open spec fn room_failure(plan: Plan, at: int, error: RoomError) -> Failure {
    Failure::Room { room: plan.rooms.entries()[at].0, error }
}

/// What a failed step of the migration of a room is reported as.
pub open spec fn step_error(step: RoomStep, error: AccessError) -> RoomError {
    match step {
        RoomStep::Invite => RoomError::Invite(error),
        RoomStep::WaitForInvite => RoomError::WaitInvite(error),
        RoomStep::Pause => RoomError::WaitInvite(error),
        RoomStep::Join => RoomError::Join(error),
        RoomStep::ReadPowerLevels => RoomError::PowerLevel(PowerLevelError::Read(error)),
        RoomStep::WritePowerLevels => RoomError::PowerLevel(PowerLevelError::Write(error)),
        RoomStep::SetTags => RoomError::Tags(error),
    }
}

/// The step after one that failed. If the new user cannot be brought into the room, nothing more
/// is done for it; what else fails does not keep the rest from being done.
pub open spec fn step_on_failure(room: RoomPlan, step: RoomStep) -> Option<RoomStep> {
    match step {
        RoomStep::Invite => None,
        RoomStep::WaitForInvite => None,
        RoomStep::Pause => None,
        RoomStep::Join => None,
        RoomStep::ReadPowerLevels => step_after_levels(room),
        RoomStep::WritePowerLevels => step_after_levels(room),
        RoomStep::SetTags => None,
    }
}

/// The step after one that succeeded.
pub open spec fn step_on_success(room: RoomPlan, step: RoomStep) -> Option<RoomStep> {
    match step {
        RoomStep::Invite => Some(RoomStep::WaitForInvite),
        RoomStep::WaitForInvite => Some(RoomStep::Pause),
        RoomStep::Pause => step_after_invite(room),
        RoomStep::Join => step_after_join(room),
        RoomStep::ReadPowerLevels => Some(RoomStep::WritePowerLevels),
        RoomStep::WritePowerLevels => step_after_levels(room),
        RoomStep::SetTags => None,
    }
}

/// The progress after a step for a room.
pub open spec fn after_room_step(
    plan: Plan,
    failures: Seq<Failure>,
    at: int,
    step: RoomStep,
    event: Event,
) -> Progress {
    let room = room_plan_at(plan, at);
    match event.error() {
        Some(error) => {
            let failures = failures.push(room_failure(plan, at, step_error(step, error)));
            Progress { stage: go_on(plan, failures, at, step_on_failure(room, step)), failures }
        },
        None => if step is ReadPowerLevels && event is Finished {
            Progress { stage: Stage::Room { at: at as usize, step }, failures }
        } else if step is ReadPowerLevels && event->PowerLevels_0->Ok_0.lists_creator() {
            Progress { stage: Stage::Broken, failures }
        } else {
            Progress { stage: go_on(plan, failures, at, step_on_success(room, step)), failures }
        },
    }
}

/// The failures after a write outside of rooms.
pub open spec fn global_failures(
    failures: Seq<Failure>,
    data: GlobalData,
    event: Event,
) -> Seq<Failure> {
    match event.error() {
        Some(error) => failures.push(Failure::Global { data, cause: error }),
        None => failures,
    }
}

/// The failures after the old user tried to leave a room.
pub open spec fn leave_failures(
    plan: Plan,
    failures: Seq<Failure>,
    at: int,
    event: Event,
) -> Seq<Failure> {
    match event.error() {
        Some(error) => failures.push(room_failure(plan, at, RoomError::Leave(error))),
        None => failures,
    }
}

impl Progress {
    /// Nothing was done yet.
    pub open spec fn start(plan: Plan) -> Progress {
        Progress { stage: start_rooms(plan, Seq::empty(), 0), failures: Seq::empty() }
    }

    /// The progress after an action.
    pub open spec fn next(self, plan: Plan, event: Event) -> Progress {
        match self.stage {
            Stage::Room { at, step } => after_room_step(
                plan,
                self.failures,
                at as int,
                step,
                event,
            ),
            Stage::Global { data } => {
                let failures = global_failures(self.failures, data, event);
                Progress {
                    stage: match data {
                        GlobalData::Direct => start_ignored(plan, failures),
                        GlobalData::IgnoredUsers => start_leaving(plan, failures),
                    },
                    failures,
                }
            },
            Stage::Leave { at } => {
                let failures = leave_failures(plan, self.failures, at as int, event);
                Progress { stage: leave_from(plan, failures, at + 1), failures }
            },
            Stage::Done => self,
            Stage::Broken => self,
        }
    }
}

/// What is done at a stage, where that does not depend on what was read before.
pub open spec fn action_at(plan: Plan, stage: Stage) -> Option<ActionView> {
    match stage {
        Stage::Room { at, step } => {
            let room = room_at(plan, at as int);
            match step {
                RoomStep::Invite => Some(ActionView::Invite { room, user: plan.new_user_id@ }),
                RoomStep::WaitForInvite => Some(ActionView::WaitForInvite { room }),
                RoomStep::Pause => Some(ActionView::Sleep { millis: JOIN_DELAY_MILLIS }),
                RoomStep::Join => Some(
                    ActionView::Join { room, via: after_colon(plan.old_user_id@)->0 },
                ),
                RoomStep::ReadPowerLevels => Some(ActionView::ReadPowerLevels { room }),
                RoomStep::WritePowerLevels => None,
                RoomStep::SetTags => Some(
                    ActionView::SetTags {
                        room,
                        content: room_plan_at(plan, at as int).account_data->0.text(TAGS_MEMBER@),
                    },
                ),
            }
        },
        Stage::Global { data: GlobalData::Direct } => Some(
            ActionView::SetGlobal {
                data: GlobalData::Direct,
                content: array_object_text(plan.direct->0.entries()),
            },
        ),
        Stage::Global { data: GlobalData::IgnoredUsers } => Some(
            ActionView::SetGlobal {
                data: GlobalData::IgnoredUsers,
                content: plan.ignored_users->0.text(IGNORED_USERS_MEMBER@),
            },
        ),
        Stage::Leave { at } => Some(ActionView::Leave { room: room_at(plan, at as int) }),
        Stage::Done => None,
        Stage::Broken => None,
    }
}

/// The action that sets the power level of the new user and leaves the others as they were read.
pub open spec fn write_levels(plan: Plan, at: int, levels: PowerLevels) -> ActionView {
    ActionView::WritePowerLevels {
        room: room_at(plan, at),
        levels: levels.content@.with_level(
            plan.new_user_id@,
            room_plan_at(plan, at).power_level->0,
        ),
    }
}

/// What is done next after an action.
pub open spec fn action_after(plan: Plan, progress: Progress, event: Event) -> Option<ActionView> {
    match (progress.stage, event) {
        (
            Stage::Room { at, step: RoomStep::ReadPowerLevels },
            Event::PowerLevels(Ok(levels)),
        ) => if levels.lists_creator() {
            None
        } else {
            Some(write_levels(plan, at as int, levels))
        },
        _ => action_at(plan, progress.next(plan, event).stage),
    }
}

/// Whether the plan calls for what is done at a stage.
pub open spec fn called_for(plan: Plan, stage: Stage) -> bool {
    match stage {
        Stage::Room { at, step } => {
            let room = room_plan_at(plan, at as int);
            &&& at < plan.rooms.entries().len()
            &&& match step {
                RoomStep::Invite => room.invite,
                RoomStep::WaitForInvite => room.invite,
                RoomStep::Pause => room.invite,
                RoomStep::Join => room.join,
                RoomStep::ReadPowerLevels => room.power_level is Some,
                RoomStep::WritePowerLevels => room.power_level is Some,
                RoomStep::SetTags => room.account_data is Some,
            }
        },
        Stage::Global { data: GlobalData::Direct } => plan.direct is Some,
        Stage::Global { data: GlobalData::IgnoredUsers } => plan.ignored_users is Some,
        Stage::Leave { at } => at < plan.rooms.entries().len() && room_plan_at(
            plan,
            at as int,
        ).leave,
        Stage::Done => true,
        Stage::Broken => true,
    }
}

proof fn lemma_leave_called_for(plan: Plan, failures: Seq<Failure>, at: int)
    requires
        plan.rooms.entries().len() <= usize::MAX,
    ensures
        called_for(plan, leave_from(plan, failures, at)),
    decreases plan.rooms.entries().len() - at,
{
    if 0 <= at < plan.rooms.entries().len() {
        lemma_leave_called_for(plan, failures, at + 1);
    }
}

proof fn lemma_rooms_called_for(plan: Plan, failures: Seq<Failure>, at: int)
    requires
        plan.rooms.entries().len() <= usize::MAX,
    ensures
        called_for(plan, start_rooms(plan, failures, at)),
        called_for(plan, start_ignored(plan, failures)),
        called_for(plan, start_leaving(plan, failures)),
    decreases plan.rooms.entries().len() - at,
{
    lemma_leave_called_for(plan, failures, 0);
    if 0 <= at < plan.rooms.entries().len() {
        lemma_rooms_called_for(plan, failures, at + 1);
    }
}

/// Only what the plan calls for is ever done: at the start, and after every action.
pub proof fn law_actions_are_called_for(plan: Plan, progress: Progress, event: Event)
    requires
        plan.rooms.entries().len() <= usize::MAX,
    ensures
        called_for(plan, Progress::start(plan).stage),
        called_for(plan, progress.stage) ==> called_for(plan, progress.next(plan, event).stage),
{
    lemma_rooms_called_for(plan, Seq::empty(), 0);
    let failures = progress.next(plan, event).failures;
    lemma_rooms_called_for(plan, failures, 0);
    match progress.stage {
        Stage::Room { at, .. } => lemma_rooms_called_for(plan, failures, at + 1),
        Stage::Leave { at } => lemma_leave_called_for(plan, failures, at + 1),
        _ => {},
    }
}

/// The migration encountered unexpected errors.
pub struct ExecuteError {
    pub error_count: usize,
}

/// Executes a migration plan.
pub struct Executor {
    plan: Plan,
    stage: Stage,
    failures: Vec<Failure>,
}

impl Executor {
    /// The plan that is executed.
    pub closed spec fn spec_plan(self) -> Plan {
        self.plan
    }

    /// The progress that was made.
    pub closed spec fn progress(self) -> Progress {
        Progress { stage: self.stage, failures: self.failures@ }
    }

    #[verifier::type_invariant]
    closed spec fn valid(self) -> bool {
        &&& called_for(self.plan, self.stage)
        &&& self.plan.rooms.entries().len() <= usize::MAX
    }

    /// The plan that is executed.
    pub fn plan(&self) -> (plan: &Plan)
        ensures
            *plan == self.spec_plan(),
    {
        &self.plan
    }

    /// How far the execution has come.
    pub fn stage(&self) -> (stage: Stage)
        ensures
            stage == self.progress().stage,
    {
        self.stage
    }

    /// What has failed so far.
    pub fn failures(&self) -> (failures: &Vec<Failure>)
        ensures
            failures@ == self.progress().failures,
    {
        &self.failures
    }

    fn any_global_failure(failures: &Vec<Failure>) -> (any: bool)
        ensures
            any == any_global(failures@),
    {
        let mut i: usize = 0;
        while i < failures.len()
            invariant
                0 <= i <= failures@.len(),
                forall|j: int| 0 <= j < i ==> !(#[trigger] failures@[j] is Global),
            decreases failures@.len() - i,
        {
            match &failures[i] {
                Failure::Global { .. } => {
                    return true;
                },
                Failure::Room { .. } => {},
            }
            i = i + 1;
        }
        false
    }

    fn room_has_failed(failures: &Vec<Failure>, room: &str) -> (failed: bool)
        ensures
            failed == has_failed(failures@, room@),
    {
        let mut i: usize = 0;
        while i < failures.len()
            invariant
                0 <= i <= failures@.len(),
                forall|j: int|
                    0 <= j < i ==> !(#[trigger] failures@[j] matches Failure::Room {
                        room: failed,
                        ..
                    } && failed@ == room@),
            decreases failures@.len() - i,
        {
            match &failures[i] {
                Failure::Room { room: failed, .. } => {
                    if same_str(failed.as_str(), room) {
                        assert(failures@[i as int] is Room);
                        return true;
                    }
                },
                Failure::Global { .. } => {},
            }
            i = i + 1;
        }
        false
    }

    fn stage_leave_from(plan: &Plan, failures: &Vec<Failure>, at: usize) -> (stage: Stage)
        ensures
            stage == leave_from(*plan, failures@, at as int),
    {
        let mut i: usize = at;
        while i < plan.rooms.len()
            invariant
                0 <= at <= i,
                i <= plan.rooms.entries().len() || i == at,
                leave_from(*plan, failures@, at as int) == leave_from(*plan, failures@, i as int),
            decreases plan.rooms.entries().len() - i,
        {
            if plan.rooms.value_at(i).leave && !Executor::room_has_failed(
                failures,
                plan.rooms.key_at(i).as_str(),
            ) {
                return Stage::Leave { at: i };
            }
            i = i + 1;
        }
        Stage::Done
    }

    fn stage_leaving(plan: &Plan, failures: &Vec<Failure>) -> (stage: Stage)
        ensures
            stage == start_leaving(*plan, failures@),
    {
        if Executor::any_global_failure(failures) {
            Stage::Done
        } else {
            Executor::stage_leave_from(plan, failures, 0)
        }
    }

    fn stage_ignored(plan: &Plan, failures: &Vec<Failure>) -> (stage: Stage)
        ensures
            stage == start_ignored(*plan, failures@),
    {
        if plan.ignored_users.is_some() {
            Stage::Global { data: GlobalData::IgnoredUsers }
        } else {
            Executor::stage_leaving(plan, failures)
        }
    }

    fn step_after_levels(room: &RoomPlan) -> (step: Option<RoomStep>)
        ensures
            step == step_after_levels(*room),
    {
        if room.account_data.is_some() {
            Some(RoomStep::SetTags)
        } else {
            None
        }
    }

    fn step_after_join(room: &RoomPlan) -> (step: Option<RoomStep>)
        ensures
            step == step_after_join(*room),
    {
        if room.power_level.is_some() {
            Some(RoomStep::ReadPowerLevels)
        } else {
            Executor::step_after_levels(room)
        }
    }

    fn step_after_invite(room: &RoomPlan) -> (step: Option<RoomStep>)
        ensures
            step == step_after_invite(*room),
    {
        if room.join {
            Some(RoomStep::Join)
        } else {
            Executor::step_after_join(room)
        }
    }

    fn stage_rooms(plan: &Plan, failures: &Vec<Failure>, at: usize) -> (stage: Stage)
        ensures
            stage == start_rooms(*plan, failures@, at as int),
            plan.rooms.entries().len() <= usize::MAX,
    {
        let mut i: usize = at;
        while i < plan.rooms.len()
            invariant
                0 <= at <= i,
                i <= plan.rooms.entries().len() || i == at,
                start_rooms(*plan, failures@, at as int) == start_rooms(
                    *plan,
                    failures@,
                    i as int,
                ),
            decreases plan.rooms.entries().len() - i,
        {
            let room = plan.rooms.value_at(i);
            let step = if room.invite {
                Some(RoomStep::Invite)
            } else {
                Executor::step_after_invite(room)
            };
            match step {
                Some(step) => {
                    return Stage::Room { at: i, step };
                },
                None => {},
            }
            i = i + 1;
        }
        if plan.direct.is_some() {
            Stage::Global { data: GlobalData::Direct }
        } else {
            Executor::stage_ignored(plan, failures)
        }
    }

    fn stage_on(plan: &Plan, failures: &Vec<Failure>, at: usize, step: Option<RoomStep>) -> (stage:
        Stage)
        requires
            at < plan.rooms.entries().len(),
        ensures
            stage == go_on(*plan, failures@, at as int, step),
    {
        match step {
            Some(step) => Stage::Room { at, step },
            None => {
                let last: usize = plan.rooms.len() - 1;
                if at < last {
                    Executor::stage_rooms(plan, failures, at + 1)
                } else {
                    Executor::stage_rooms(plan, failures, plan.rooms.len())
                }
            },
        }
    }

    /// What to do at a stage.
    fn action(plan: &Plan, stage: Stage) -> (action: Option<Action>)
        requires
            called_for(*plan, stage),
        ensures
            match action {
                Some(action) => action_at(*plan, stage) == Some(action@),
                None => action_at(*plan, stage) is None,
            },
    {
        match stage {
            Stage::Room { at, step } => {
                let room = plan.rooms.key_at(at).clone();
                match step {
                    RoomStep::Invite => Some(
                        Action::Invite { room, user: plan.new_user_id.as_str().to_owned() },
                    ),
                    RoomStep::WaitForInvite => Some(Action::WaitForInvite { room }),
                    RoomStep::Pause => Some(Action::Sleep { millis: JOIN_DELAY_MILLIS }),
                    RoomStep::Join => Some(
                        Action::Join { room, via: plan.old_user_id.server_name().to_owned() },
                    ),
                    RoomStep::ReadPowerLevels => Some(Action::ReadPowerLevels { room }),
                    RoomStep::WritePowerLevels => None,
                    RoomStep::SetTags => match &plan.rooms.value_at(at).account_data {
                        Some(tags) => Some(
                            Action::SetTags { room, content: tags.to_text(TAGS_MEMBER) },
                        ),
                        None => None,
                    },
                }
            },
            Stage::Global { data: GlobalData::Direct } => match &plan.direct {
                Some(direct) => Some(
                    Action::SetGlobal {
                        data: GlobalData::Direct,
                        content: array_object_to_text(direct),
                    },
                ),
                None => None,
            },
            Stage::Global { data: GlobalData::IgnoredUsers } => match &plan.ignored_users {
                Some(users) => Some(
                    Action::SetGlobal {
                        data: GlobalData::IgnoredUsers,
                        content: users.to_text(IGNORED_USERS_MEMBER),
                    },
                ),
                None => None,
            },
            Stage::Leave { at } => Some(Action::Leave { room: plan.rooms.key_at(at).clone() }),
            Stage::Done => None,
            Stage::Broken => None,
        }
    }

    /// Starts to execute a plan. Besides the executor, returns what to do first.
    pub fn start(plan: Plan) -> (started: (Executor, Option<Action>))
        ensures
            started.0.spec_plan() == plan,
            started.0.progress() == Progress::start(plan),
            match started.1 {
                Some(action) => action_at(plan, Progress::start(plan).stage) == Some(action@),
                None => action_at(plan, Progress::start(plan).stage) is None,
            },
    {
        let failures: Vec<Failure> = Vec::new();
        let stage = Executor::stage_rooms(&plan, &failures, 0);
        proof {
            assert(failures@ =~= Seq::<Failure>::empty());
            lemma_rooms_called_for(plan, failures@, 0);
        }
        Executor::at_stage(plan, failures, stage)
    }

    fn step_error(step: RoomStep, error: AccessError) -> (reported: RoomError)
        ensures
            reported == step_error(step, error),
    {
        match step {
            RoomStep::Invite => RoomError::Invite(error),
            RoomStep::WaitForInvite => RoomError::WaitInvite(error),
            RoomStep::Pause => RoomError::WaitInvite(error),
            RoomStep::Join => RoomError::Join(error),
            RoomStep::ReadPowerLevels => RoomError::PowerLevel(PowerLevelError::Read(error)),
            RoomStep::WritePowerLevels => RoomError::PowerLevel(PowerLevelError::Write(error)),
            RoomStep::SetTags => RoomError::Tags(error),
        }
    }

    fn step_on_failure(room: &RoomPlan, step: RoomStep) -> (next: Option<RoomStep>)
        ensures
            next == step_on_failure(*room, step),
    {
        match step {
            RoomStep::ReadPowerLevels => Executor::step_after_levels(room),
            RoomStep::WritePowerLevels => Executor::step_after_levels(room),
            _ => None,
        }
    }

    fn step_on_success(room: &RoomPlan, step: RoomStep) -> (next: Option<RoomStep>)
        ensures
            next == step_on_success(*room, step),
    {
        match step {
            RoomStep::Invite => Some(RoomStep::WaitForInvite),
            RoomStep::WaitForInvite => Some(RoomStep::Pause),
            RoomStep::Pause => Executor::step_after_invite(room),
            RoomStep::Join => Executor::step_after_join(room),
            RoomStep::ReadPowerLevels => Some(RoomStep::WritePowerLevels),
            RoomStep::WritePowerLevels => Executor::step_after_levels(room),
            RoomStep::SetTags => None,
        }
    }

    /// The executor at a new stage, and what to do there.
    fn at_stage(plan: Plan, failures: Vec<Failure>, stage: Stage) -> (moved: (
        Executor,
        Option<Action>,
    ))
        requires
            called_for(plan, stage),
            plan.rooms.entries().len() <= usize::MAX,
        ensures
            moved.0.spec_plan() == plan,
            moved.0.progress() == (Progress { stage, failures: failures@ }),
            match moved.1 {
                Some(action) => action_at(plan, stage) == Some(action@),
                None => action_at(plan, stage) is None,
            },
    {
        let action = Executor::action(&plan, stage);
        (Executor { plan, stage, failures }, action)
    }

    /// Takes in how an action went. Besides the executor, returns what to do next.
    pub fn resume(self, event: Event) -> (resumed: (Executor, Option<Action>))
        ensures
            resumed.0.spec_plan() == self.spec_plan(),
            resumed.0.progress() == self.progress().next(self.spec_plan(), event),
            match resumed.1 {
                Some(action) => action_after(self.spec_plan(), self.progress(), event) == Some(
                    action@,
                ),
                None => action_after(self.spec_plan(), self.progress(), event) is None,
            },
    {
        proof {
            use_type_invariant(&self);
            law_actions_are_called_for(self.plan, self.progress(), event);
        }
        let Executor { plan, stage, mut failures } = self;
        match stage {
            Stage::Room { at, step } => {
                let error = match event {
                    Event::Finished(Ok(_)) => {
                        if step == RoomStep::ReadPowerLevels {
                            return Executor::at_stage(plan, failures, stage);
                        }
                        None
                    },
                    Event::Finished(Err(error)) => Some(error),
                    Event::PowerLevels(Err(error)) => Some(error),
                    Event::PowerLevels(Ok(levels)) => {
                        if step == RoomStep::ReadPowerLevels {
                            return Executor::write_levels(plan, failures, at, levels);
                        }
                        None
                    },
                };
                let next = match error {
                    Some(error) => {
                        failures.push(
                            Failure::Room {
                                room: plan.rooms.key_at(at).clone(),
                                error: Executor::step_error(step, error),
                            },
                        );
                        Executor::step_on_failure(plan.rooms.value_at(at), step)
                    },
                    None => Executor::step_on_success(plan.rooms.value_at(at), step),
                };
                let stage = Executor::stage_on(&plan, &failures, at, next);
                Executor::at_stage(plan, failures, stage)
            },
            Stage::Global { data } => {
                match event {
                    Event::Finished(Err(error)) | Event::PowerLevels(Err(error)) => {
                        failures.push(Failure::Global { data, cause: error });
                    },
                    _ => {},
                }
                let stage = match data {
                    GlobalData::Direct => Executor::stage_ignored(&plan, &failures),
                    GlobalData::IgnoredUsers => Executor::stage_leaving(&plan, &failures),
                };
                Executor::at_stage(plan, failures, stage)
            },
            Stage::Leave { at } => {
                match event {
                    Event::Finished(Err(error)) | Event::PowerLevels(Err(error)) => {
                        failures.push(
                            Failure::Room {
                                room: plan.rooms.key_at(at).clone(),
                                error: RoomError::Leave(error),
                            },
                        );
                    },
                    _ => {},
                }
                let stage = Executor::stage_leave_from(&plan, &failures, at + 1);
                Executor::at_stage(plan, failures, stage)
            },
            Stage::Done => Executor::at_stage(plan, failures, stage),
            Stage::Broken => Executor::at_stage(plan, failures, stage),
        }
    }

    /// Goes on once the power levels of a room were read.
    fn write_levels(plan: Plan, failures: Vec<Failure>, at: usize, levels: PowerLevels) -> (moved: (
        Executor,
        Option<Action>,
    ))
        requires
            called_for(plan, Stage::Room { at, step: RoomStep::ReadPowerLevels }),
            plan.rooms.entries().len() <= usize::MAX,
        ensures
            moved.0.spec_plan() == plan,
            moved.0.progress() == after_room_step(
                plan,
                failures@,
                at as int,
                RoomStep::ReadPowerLevels,
                Event::PowerLevels(Ok(levels)),
            ),
            match moved.1 {
                Some(action) => !levels.lists_creator() && action@ == write_levels(
                    plan,
                    at as int,
                    levels,
                ),
                None => levels.lists_creator(),
            },
    {
        let level = match plan.rooms.value_at(at).power_level {
            Some(level) => level,
            None => 0,
        };
        match levels.with_user_level(&plan.new_user_id, level) {
            Some(content) => {
                let room = plan.rooms.key_at(at).clone();
                let stage = Stage::Room { at, step: RoomStep::WritePowerLevels };
                (
                    Executor { plan, stage, failures },
                    Some(Action::WritePowerLevels { room, levels: content }),
                )
            },
            None => (Executor { plan, stage: Stage::Broken, failures }, None),
        }
    }

    /// Whether rooms stay because something failed that does not belong to a room.
    pub fn keeps_rooms(&self) -> (keeps: bool)
        ensures
            keeps == any_global(self.progress().failures),
    {
        Executor::any_global_failure(&self.failures)
    }

    /// Whether the old user stays in a room that should be left, because its migration failed.
    pub fn keeps_room(&self, at: usize) -> (keeps: bool)
        requires
            at < self.spec_plan().rooms.entries().len(),
        ensures
            keeps == is_kept(self.spec_plan(), self.progress().failures, at as int),
    {
        if !self.plan.rooms.value_at(at).leave {
            return false;
        }
        let id = self.plan.rooms.key_at(at);
        let failures = &self.failures;
        let mut i: usize = 0;
        while i < failures.len()
            invariant
                failures@ == self.progress().failures,
                room_plan_at(self.spec_plan(), at as int).leave,
                id@ == room_at(self.spec_plan(), at as int),
                0 <= i <= failures@.len(),
                forall|j: int|
                    0 <= j < i ==> !(#[trigger] failures@[j] matches Failure::Room { room, error }
                        && room@ == id@ && !(error is Leave)),
            decreases failures@.len() - i,
        {
            match &failures[i] {
                Failure::Room { room, error } => {
                    let leaving = match error {
                        RoomError::Leave(_) => true,
                        _ => false,
                    };
                    if !leaving && same_str(room.as_str(), id.as_str()) {
                        assert(failures@[i as int] is Room);
                        return true;
                    }
                },
                Failure::Global { .. } => {},
            }
            i = i + 1;
        }
        false
    }

    /// What came of the execution: an error that counts the failures, if there were any.
    pub fn result(&self) -> (result: Result<(), ExecuteError>)
        ensures
            match result {
                Ok(_) => self.progress().failures.len() == 0,
                Err(error) => error.error_count == self.progress().failures.len()
                    && error.error_count > 0,
            },
    {
        if self.failures.len() > 0 {
            Err(ExecuteError { error_count: self.failures.len() })
        } else {
            Ok(())
        }
    }
}

} // verus!
