//! Migration plans.

use vstd::prelude::*;
use vstd::std_specs::cmp::PartialEqSpec;

use crate::ids::{UserId, UserKind};
use crate::json::JsonMergeError;
use crate::members::{members_view, Members, MembersView};
use crate::power_levels::PowerLevels;
use crate::state::{AccessError, HistoryVisibility, JoinRule, Membership, ServerAcl};
use crate::text::texts;
use crate::text_map::TextMap;

verus! {

/// Whether a value is equal to a default value of its type.
pub fn is_default<T: Default + Eq>(value: &T) -> (same: bool)
    ensures
        exists|default: T| #[trigger]
            call_ensures(T::default, (), default) && (T::obeys_eq_spec() ==> same
                == value.eq_spec(&default)),
{
    let default = T::default();
    let same = value == &default;
    assert(call_ensures(T::default, (), default));
    same
}

/// What the user wants of a plan.
pub struct PlanSettings {
    /// Leave rooms that are fully migrated with the old user.
    pub leave: bool,
}

/// Rooms in which a user has direct messages with each other user.
pub type DirectMap = TextMap<Vec<String>>;

/// The rooms for each user, as texts.
pub open spec fn direct_rooms(map: Map<Seq<char>, Vec<String>>) -> Map<Seq<char>, Seq<Seq<char>>> {
    map.map_values(|rooms: Vec<String>| texts(rooms@))
}

/// The contents of an optional mapping for direct messages.
pub open spec fn direct_view(direct: Option<DirectMap>) -> Option<Map<Seq<char>, Seq<Seq<char>>>> {
    match direct {
        Some(direct) => Some(direct_rooms(direct@)),
        None => None,
    }
}

/// Why the tags of a room cannot be migrated.
pub enum RoomTagsPlanError {
    GetEvent(UserKind, AccessError),
}

/// Why the direct message mapping cannot be migrated.
pub enum DirectAccountDataPlanError {
    GetEvent(UserKind, AccessError),
}

/// Why the list of ignored users cannot be migrated.
pub enum IgnoredUsersAccountDataPlanError {
    GetEvent(UserKind, AccessError),
}

/// What keeps a room from being migrated fully.
pub enum RoomPlanError {
    GetAlias(AccessError),
    GetJoinRule(AccessError),
    GetMembership(AccessError),
    GetPowerLevels(AccessError),
    GetServerAcl(AccessError),
    CannotInvite,
    Banned,
    AclBanned,
    RoomTagsFailed(RoomTagsPlanError),
    RoomTagMerge(JsonMergeError),
    CopyPowerLevel { old_power_level: i64 },
    GetHistoryVisibility(AccessError),
    RestrictedHistoryVisibility { visibility: HistoryVisibility, already_joined: bool },
}

/// What keeps data outside of rooms from being migrated fully.
///
/// These may block migrating particular data, but are not fatal for the migration as a whole.
pub enum PlanError {
    DirectAccountDataFailed(DirectAccountDataPlanError),
    IgnoredUsersAccountDataFailed(IgnoredUsersAccountDataPlanError),
    IgnoredUserMerge(JsonMergeError),
}

/// An error that reports a key with two different values.
pub trait ReportsConflict: Sized {
    /// The error for a conflict.
    spec fn for_conflict(conflict: JsonMergeError) -> Self;

    /// The error for a conflict.
    fn from_conflict(conflict: JsonMergeError) -> (error: Self)
        ensures
            error == Self::for_conflict(conflict),
    ;
}

impl ReportsConflict for RoomPlanError {
    open spec fn for_conflict(conflict: JsonMergeError) -> RoomPlanError {
        RoomPlanError::RoomTagMerge(conflict)
    }

    fn from_conflict(conflict: JsonMergeError) -> (error: RoomPlanError) {
        RoomPlanError::RoomTagMerge(conflict)
    }
}

impl ReportsConflict for PlanError {
    open spec fn for_conflict(conflict: JsonMergeError) -> PlanError {
        PlanError::IgnoredUserMerge(conflict)
    }

    fn from_conflict(conflict: JsonMergeError) -> (error: PlanError) {
        PlanError::IgnoredUserMerge(conflict)
    }
}

/// The errors for conflicts.
pub open spec fn conflict_errors<E: ReportsConflict>(conflicts: Seq<JsonMergeError>) -> Seq<E> {
    conflicts.map_values(|conflict: JsonMergeError| E::for_conflict(conflict))
}

/// Adds an error for each conflict to a list.
pub fn report_conflicts<E: ReportsConflict>(conflicts: &Vec<JsonMergeError>, errors: &mut Vec<E>)
    ensures
        final(errors)@ == old(errors)@ + conflict_errors::<E>(conflicts@),
{
    let ghost before = errors@;
    let mut i: usize = 0;
    assert(errors@ =~= before + conflict_errors::<E>(conflicts@.take(0)));
    while i < conflicts.len()
        invariant
            0 <= i <= conflicts@.len(),
            errors@ == before + conflict_errors::<E>(conflicts@.take(i as int)),
        decreases conflicts@.len() - i,
    {
        let conflict = &conflicts[i];
        errors.push(
            E::from_conflict(
                JsonMergeError {
                    key: conflict.key.clone(),
                    old_value: conflict.old_value.clone(),
                    new_value: conflict.new_value.clone(),
                },
            ),
        );
        i = i + 1;
        assert(errors@ =~= before + conflict_errors::<E>(conflicts@.take(i as int)));
    }
    assert(conflicts@.take(i as int) =~= conflicts@);
}

/// What prevents determining a plan entirely.
pub enum FatalPlanError {
    GetUserId(UserKind, AccessError),
    GetJoinedRooms(UserKind, AccessError),
}

/// What is to be done about one room.
pub struct RoomPlan {
    pub alias: Option<String>,
    /// The old user invites the new user.
    pub invite: bool,
    /// The new user joins.
    pub join: bool,
    /// The old user leaves.
    pub leave: bool,
    /// The power level that the old user gives to the new user.
    pub power_level: Option<i64>,
    /// The tags that are set for the new user.
    pub account_data: Option<Members>,
    pub errors: Vec<RoomPlanError>,
}

/// The contents of a [`RoomPlan`].
#[verifier::ext_equal]
pub struct RoomPlanView {
    pub alias: Option<String>,
    pub invite: bool,
    pub join: bool,
    pub leave: bool,
    pub power_level: Option<i64>,
    pub account_data: Option<MembersView>,
    pub errors: Seq<RoomPlanError>,
}

impl View for RoomPlan {
    type V = RoomPlanView;

    open spec fn view(&self) -> RoomPlanView {
        RoomPlanView {
            alias: self.alias,
            invite: self.invite,
            join: self.join,
            leave: self.leave,
            power_level: self.power_level,
            account_data: members_view(self.account_data),
            errors: self.errors@,
        }
    }
}

impl RoomPlanView {
    /// The plan to do nothing.
    pub open spec fn nothing() -> RoomPlanView {
        RoomPlanView {
            alias: None,
            invite: false,
            join: false,
            leave: false,
            power_level: None,
            account_data: None,
            errors: Seq::empty(),
        }
    }

    /// Whether there is nothing to do and nothing to report.
    pub open spec fn is_empty(self) -> bool {
        &&& !self.invite
        &&& !self.join
        &&& !self.leave
        &&& self.power_level is None
        &&& self.account_data is None
        &&& self.errors.len() == 0
    }

    /// The plan with one more error.
    pub open spec fn with_error(self, error: RoomPlanError) -> RoomPlanView {
        RoomPlanView { errors: self.errors.push(error), ..self }
    }
}

impl Default for RoomPlan {
    fn default() -> (plan: RoomPlan)
        ensures
            plan@ == RoomPlanView::nothing(),
    {
        RoomPlan {
            alias: None,
            invite: false,
            join: false,
            leave: false,
            power_level: None,
            account_data: None,
            errors: Vec::new(),
        }
    }
}

impl RoomPlan {
    /// Returns `true` if no actions need to be taken for this room and no errors were recorded.
    pub fn is_empty(&self) -> (empty: bool)
        ensures
            empty == self@.is_empty(),
    {
        !self.invite && !self.join && !self.leave && self.power_level.is_none()
            && self.account_data.is_none() && self.errors.len() == 0
    }
}

/// A plan to migrate from the old account to the new one.
pub struct Plan {
    pub old_user_id: UserId,
    pub new_user_id: UserId,
    /// What is to be done about each room, by its ID.
    pub rooms: TextMap<RoomPlan>,
    /// The direct message mapping that is set for the new user.
    pub direct: Option<DirectMap>,
    /// The list of ignored users that is set for the new user.
    pub ignored_users: Option<Members>,
    pub errors: Vec<PlanError>,
}

/// The contents of a [`Plan`].
#[verifier::ext_equal]
pub struct PlanView {
    pub old_user_id: UserId,
    pub new_user_id: UserId,
    pub rooms: Map<Seq<char>, RoomPlanView>,
    pub direct: Option<Map<Seq<char>, Seq<Seq<char>>>>,
    pub ignored_users: Option<MembersView>,
    pub errors: Seq<PlanError>,
}

/// The plans of rooms, each by its contents.
pub open spec fn room_views(rooms: Map<Seq<char>, RoomPlan>) -> Map<Seq<char>, RoomPlanView> {
    rooms.map_values(|room: RoomPlan| room@)
}

impl View for Plan {
    type V = PlanView;

    open spec fn view(&self) -> PlanView {
        PlanView {
            old_user_id: self.old_user_id,
            new_user_id: self.new_user_id,
            rooms: room_views(self.rooms@),
            direct: direct_view(self.direct),
            ignored_users: members_view(self.ignored_users),
            errors: self.errors@,
        }
    }
}

/// What a planner needs to know next.
pub enum Request {
    UserId(UserKind),
    JoinedRooms(UserKind),
    PowerLevels { room: String },
    Membership { room: String, user: String },
    ServerAcl { room: String },
    JoinRule { room: String },
    Tags { of: UserKind, room: String },
    HistoryVisibility { room: String },
    Alias { room: String },
    Direct(UserKind),
    IgnoredUsers(UserKind),
}

/// The contents of a [`Request`].
pub enum RequestView {
    UserId(UserKind),
    JoinedRooms(UserKind),
    PowerLevels { room: Seq<char> },
    Membership { room: Seq<char>, user: Seq<char> },
    ServerAcl { room: Seq<char> },
    JoinRule { room: Seq<char> },
    Tags { of: UserKind, room: Seq<char> },
    HistoryVisibility { room: Seq<char> },
    Alias { room: Seq<char> },
    Direct(UserKind),
    IgnoredUsers(UserKind),
}

impl View for Request {
    type V = RequestView;

    open spec fn view(&self) -> RequestView {
        match self {
            Request::UserId(of) => RequestView::UserId(*of),
            Request::JoinedRooms(of) => RequestView::JoinedRooms(*of),
            Request::PowerLevels { room } => RequestView::PowerLevels { room: room@ },
            Request::Membership { room, user } => RequestView::Membership {
                room: room@,
                user: user@,
            },
            Request::ServerAcl { room } => RequestView::ServerAcl { room: room@ },
            Request::JoinRule { room } => RequestView::JoinRule { room: room@ },
            Request::Tags { of, room } => RequestView::Tags { of: *of, room: room@ },
            Request::HistoryVisibility { room } => RequestView::HistoryVisibility { room: room@ },
            Request::Alias { room } => RequestView::Alias { room: room@ },
            Request::Direct(of) => RequestView::Direct(*of),
            Request::IgnoredUsers(of) => RequestView::IgnoredUsers(*of),
        }
    }
}

/// What came back for a [`Request`].
pub enum Reply {
    UserId(Result<UserId, AccessError>),
    JoinedRooms(Result<Vec<String>, AccessError>),
    PowerLevels(Result<PowerLevels, AccessError>),
    Membership(Result<Option<Membership>, AccessError>),
    ServerAcl(Result<Option<ServerAcl>, AccessError>),
    JoinRule(Result<Option<JoinRule>, AccessError>),
    Tags(Result<Option<Members>, AccessError>),
    HistoryVisibility(Result<Option<HistoryVisibility>, AccessError>),
    Alias(Result<Option<String>, AccessError>),
    Direct(Result<Option<DirectMap>, AccessError>),
    IgnoredUsers(Result<Option<Members>, AccessError>),
}

/// Whether a reply is of the kind that a request calls for.
pub open spec fn answers(request: RequestView, reply: Reply) -> bool {
    match request {
        RequestView::UserId(_) => reply is UserId,
        RequestView::JoinedRooms(_) => reply is JoinedRooms,
        RequestView::PowerLevels { .. } => reply is PowerLevels,
        RequestView::Membership { .. } => reply is Membership,
        RequestView::ServerAcl { .. } => reply is ServerAcl,
        RequestView::JoinRule { .. } => reply is JoinRule,
        RequestView::Tags { .. } => reply is Tags,
        RequestView::HistoryVisibility { .. } => reply is HistoryVisibility,
        RequestView::Alias { .. } => reply is Alias,
        RequestView::Direct(_) => reply is Direct,
        RequestView::IgnoredUsers(_) => reply is IgnoredUsers,
    }
}

} // verus!
