//! Making a migration plan for two accounts.
//!
//! A [`Planner`] asks for what it needs to know about both accounts and the rooms of the old one,
//! one thing at a time, and takes in the replies.

use vstd::prelude::*;

use crate::direct::{direct_changes, joined_rooms, migrate_direct, migrated_direct};
use crate::ids::{UserId, UserKind};
use crate::members::{
    members_or_none, members_view, merge_members, Members, MembersView, IGNORED_USERS_MEMBER,
};
use crate::plan::{
    conflict_errors, direct_rooms, direct_view, report_conflicts, room_views,
    DirectAccountDataPlanError, DirectMap, FatalPlanError, IgnoredUsersAccountDataPlanError, Plan,
    PlanError, PlanSettings, PlanView, Reply, Request, RequestView, RoomPlan, RoomPlanView,
};
use crate::room::{RoomContext, RoomPlanner, RoomPlannerView, RoomStage};
use crate::state::AccessError;
use crate::text::{contains_str, sort_strings, sorted_texts, texts};
use crate::text_map::TextMap;

verus! {

/// What is planned so far.
pub struct Draft {
    pub context: RoomContext,
    /// The rooms that the new user is in.
    pub joined: Vec<String>,
    pub rooms: TextMap<RoomPlan>,
    pub direct: Option<DirectMap>,
    pub errors: Vec<PlanError>,
}

/// The contents of a [`Draft`].
#[verifier::ext_equal]
pub struct DraftView {
    pub context: RoomContext,
    pub joined: Seq<Seq<char>>,
    pub rooms: Map<Seq<char>, RoomPlanView>,
    pub direct: Option<Map<Seq<char>, Seq<Seq<char>>>>,
    pub errors: Seq<PlanError>,
}

impl View for Draft {
    type V = DraftView;

    open spec fn view(&self) -> DraftView {
        DraftView {
            context: self.context,
            joined: texts(self.joined@),
            rooms: room_views(self.rooms@),
            direct: direct_view(self.direct),
            errors: self.errors@,
        }
    }
}

/// What a planner waits for.
pub enum Phase {
    OldUserId,
    NewUserId { old_user: UserId },
    OldRooms { old_user: UserId, new_user: UserId },
    NewRooms { old_user: UserId, new_user: UserId, rooms: Vec<String> },
    /// Something about one room; others are pending.
    Room { draft: Draft, planner: RoomPlanner, pending: Vec<String> },
    OldDirect { draft: Draft },
    NewDirect { draft: Draft, old_direct: DirectMap },
    OldIgnored { draft: Draft },
    NewIgnored { draft: Draft, old_ignored: Members },
    /// The plan is complete.
    Done { plan: Plan },
    /// There can be no plan.
    Failed { error: FatalPlanError },
    /// Two values have to be compared, and one is not read as JSON.
    Unreadable,
}

/// The contents of a [`Phase`].
#[verifier::ext_equal]
pub enum PhaseView {
    OldUserId,
    NewUserId { old_user: UserId },
    OldRooms { old_user: UserId, new_user: UserId },
    NewRooms { old_user: UserId, new_user: UserId, rooms: Seq<Seq<char>> },
    Room { draft: DraftView, planner: RoomPlannerView, pending: Seq<Seq<char>> },
    OldDirect { draft: DraftView },
    NewDirect { draft: DraftView, old_direct: DirectMap },
    OldIgnored { draft: DraftView },
    NewIgnored { draft: DraftView, old_ignored: Members },
    Done { plan: PlanView },
    Failed { error: FatalPlanError },
    Unreadable,
}

impl View for Phase {
    type V = PhaseView;

    open spec fn view(&self) -> PhaseView {
        match *self {
            Phase::OldUserId => PhaseView::OldUserId,
            Phase::NewUserId { old_user } => PhaseView::NewUserId { old_user },
            Phase::OldRooms { old_user, new_user } => PhaseView::OldRooms { old_user, new_user },
            Phase::NewRooms { old_user, new_user, rooms } => PhaseView::NewRooms {
                old_user,
                new_user,
                rooms: texts(rooms@),
            },
            Phase::Room { draft, planner, pending } => PhaseView::Room {
                draft: draft@,
                planner: planner@,
                pending: texts(pending@),
            },
            Phase::OldDirect { draft } => PhaseView::OldDirect { draft: draft@ },
            Phase::NewDirect { draft, old_direct } => PhaseView::NewDirect {
                draft: draft@,
                old_direct,
            },
            Phase::OldIgnored { draft } => PhaseView::OldIgnored { draft: draft@ },
            Phase::NewIgnored { draft, old_ignored } => PhaseView::NewIgnored {
                draft: draft@,
                old_ignored,
            },
            Phase::Done { plan } => PhaseView::Done { plan: plan@ },
            Phase::Failed { error } => PhaseView::Failed { error },
            Phase::Unreadable => PhaseView::Unreadable,
        }
    }
}

impl DraftView {
    /// Nothing is planned yet.
    pub open spec fn start(
        old_user: UserId,
        new_user: UserId,
        leave: bool,
        joined: Seq<Seq<char>>,
    ) -> DraftView {
        DraftView {
            context: RoomContext { old_user, new_user, leave },
            joined,
            rooms: Map::empty(),
            direct: None,
            errors: Seq::empty(),
        }
    }

    /// The draft with the plan for one more room, if that has anything in it.
    pub open spec fn with_room(self, room: Seq<char>, plan: RoomPlanView) -> DraftView {
        if plan.is_empty() {
            self
        } else {
            DraftView { rooms: self.rooms.insert(room, plan), ..self }
        }
    }

    pub open spec fn with_error(self, error: PlanError) -> DraftView {
        DraftView { errors: self.errors.push(error), ..self }
    }

    /// The complete plan.
    pub open spec fn complete(self, ignored_users: Option<MembersView>) -> PlanView {
        PlanView {
            old_user_id: self.context.old_user,
            new_user_id: self.context.new_user,
            rooms: self.rooms,
            direct: self.direct,
            ignored_users,
            errors: self.errors,
        }
    }
}

/// The rooms of an optional mapping, none if there is no mapping.
pub open spec fn direct_or_none(map: Option<DirectMap>) -> Map<Seq<char>, Seq<Seq<char>>> {
    match map {
        Some(map) => direct_rooms(map@),
        None => Map::empty(),
    }
}

impl PhaseView {
    /// What is asked for next.
    pub open spec fn request(self) -> Option<RequestView> {
        match self {
            PhaseView::OldUserId => Some(RequestView::UserId(UserKind::Old)),
            PhaseView::NewUserId { .. } => Some(RequestView::UserId(UserKind::New)),
            PhaseView::OldRooms { .. } => Some(RequestView::JoinedRooms(UserKind::Old)),
            PhaseView::NewRooms { .. } => Some(RequestView::JoinedRooms(UserKind::New)),
            PhaseView::Room { draft, planner, .. } => planner.request(draft.context.new_user@),
            PhaseView::OldDirect { .. } => Some(RequestView::Direct(UserKind::Old)),
            PhaseView::NewDirect { .. } => Some(RequestView::Direct(UserKind::New)),
            PhaseView::OldIgnored { .. } => Some(RequestView::IgnoredUsers(UserKind::Old)),
            PhaseView::NewIgnored { .. } => Some(RequestView::IgnoredUsers(UserKind::New)),
            PhaseView::Done { .. } => None,
            PhaseView::Failed { .. } => None,
            PhaseView::Unreadable => None,
        }
    }

    /// Starts with the first of some rooms, or with what comes after the rooms.
    pub open spec fn start_room(draft: DraftView, pending: Seq<Seq<char>>) -> PhaseView {
        if pending.len() == 0 {
            PhaseView::OldDirect { draft }
        } else {
            PhaseView::Room {
                draft,
                planner: RoomPlannerView::start(pending[0], !draft.joined.contains(pending[0])),
                pending: pending.drop_first(),
            }
        }
    }

    pub open spec fn after_old_user(read: Result<UserId, AccessError>) -> PhaseView {
        match read {
            Err(error) => PhaseView::Failed {
                error: FatalPlanError::GetUserId(UserKind::Old, error),
            },
            Ok(old_user) => PhaseView::NewUserId { old_user },
        }
    }

    pub open spec fn after_new_user(
        old_user: UserId,
        read: Result<UserId, AccessError>,
    ) -> PhaseView {
        match read {
            Err(error) => PhaseView::Failed {
                error: FatalPlanError::GetUserId(UserKind::New, error),
            },
            Ok(new_user) => PhaseView::OldRooms { old_user, new_user },
        }
    }

    pub open spec fn after_old_rooms(
        old_user: UserId,
        new_user: UserId,
        read: Result<Vec<String>, AccessError>,
    ) -> PhaseView {
        match read {
            Err(error) => PhaseView::Failed {
                error: FatalPlanError::GetJoinedRooms(UserKind::Old, error),
            },
            Ok(rooms) => PhaseView::NewRooms {
                old_user,
                new_user,
                rooms: sorted_texts(texts(rooms@)),
            },
        }
    }

    pub open spec fn after_new_rooms(
        old_user: UserId,
        new_user: UserId,
        rooms: Seq<Seq<char>>,
        leave: bool,
        read: Result<Vec<String>, AccessError>,
    ) -> PhaseView {
        match read {
            Err(error) => PhaseView::Failed {
                error: FatalPlanError::GetJoinedRooms(UserKind::New, error),
            },
            Ok(joined) => PhaseView::start_room(
                DraftView::start(old_user, new_user, leave, texts(joined@)),
                rooms,
            ),
        }
    }

    /// What comes after a room planner took in a reply: once it has come to its end, the next room.
    pub open spec fn after_room(
        draft: DraftView,
        planner: RoomPlannerView,
        pending: Seq<Seq<char>>,
    ) -> PhaseView {
        match planner.stage {
            RoomStage::Done => PhaseView::start_room(
                draft.with_room(planner.room, planner.draft),
                pending,
            ),
            RoomStage::Unreadable => PhaseView::Unreadable,
            _ => PhaseView::Room { draft, planner, pending },
        }
    }

    pub open spec fn after_old_direct(
        draft: DraftView,
        read: Result<Option<DirectMap>, AccessError>,
    ) -> PhaseView {
        match read {
            Err(error) => PhaseView::OldIgnored {
                draft: draft.with_error(
                    PlanError::DirectAccountDataFailed(
                        DirectAccountDataPlanError::GetEvent(UserKind::Old, error),
                    ),
                ),
            },
            Ok(None) => PhaseView::OldIgnored { draft },
            Ok(Some(old_direct)) => PhaseView::NewDirect { draft, old_direct },
        }
    }

    pub open spec fn after_new_direct(
        draft: DraftView,
        old: DirectMap,
        read: Result<Option<DirectMap>, AccessError>,
    ) -> PhaseView {
        match read {
            Err(error) => PhaseView::OldIgnored {
                draft: draft.with_error(
                    PlanError::DirectAccountDataFailed(
                        DirectAccountDataPlanError::GetEvent(UserKind::New, error),
                    ),
                ),
            },
            Ok(new) => {
                let old = direct_rooms(old@);
                let new = direct_or_none(new);
                let user = draft.context.new_user@;
                let kept = joined_rooms(draft.joined, draft.rooms);
                PhaseView::OldIgnored {
                    draft: DraftView {
                        direct: if direct_changes(old, new, user, kept) {
                            Some(migrated_direct(old, new, user, kept))
                        } else {
                            None
                        },
                        ..draft
                    },
                }
            },
        }
    }

    pub open spec fn after_old_ignored(
        draft: DraftView,
        read: Result<Option<Members>, AccessError>,
    ) -> PhaseView {
        match read {
            Err(error) => PhaseView::Done {
                plan: draft.with_error(
                    PlanError::IgnoredUsersAccountDataFailed(
                        IgnoredUsersAccountDataPlanError::GetEvent(UserKind::Old, error),
                    ),
                ).complete(None),
            },
            Ok(None) => PhaseView::Done { plan: draft.complete(None) },
            Ok(Some(old_ignored)) => PhaseView::NewIgnored { draft, old_ignored },
        }
    }

    pub open spec fn after_new_ignored(
        draft: DraftView,
        old: Members,
        read: Result<Option<Members>, AccessError>,
    ) -> PhaseView {
        match read {
            Err(error) => PhaseView::Done {
                plan: draft.with_error(
                    PlanError::IgnoredUsersAccountDataFailed(
                        IgnoredUsersAccountDataPlanError::GetEvent(UserKind::New, error),
                    ),
                ).complete(None),
            },
            Ok(new) => {
                let new = members_or_none(new);
                if old@.mergeable(IGNORED_USERS_MEMBER@, new) {
                    let draft = DraftView {
                        errors: draft.errors + conflict_errors(
                            old.errors(IGNORED_USERS_MEMBER@, new),
                        ),
                        ..draft
                    };
                    PhaseView::Done {
                        plan: draft.complete(
                            if old@.adds_to(IGNORED_USERS_MEMBER@, new) {
                                Some(old@.merged(IGNORED_USERS_MEMBER@, new))
                            } else {
                                None
                            },
                        ),
                    }
                } else {
                    PhaseView::Unreadable
                }
            },
        }
    }

    /// What comes after a reply. One that does not answer the request changes nothing.
    pub open spec fn next(self, leave: bool, reply: Reply) -> PhaseView {
        match self {
            PhaseView::OldUserId => match reply {
                Reply::UserId(read) => PhaseView::after_old_user(read),
                _ => self,
            },
            PhaseView::NewUserId { old_user } => match reply {
                Reply::UserId(read) => PhaseView::after_new_user(old_user, read),
                _ => self,
            },
            PhaseView::OldRooms { old_user, new_user } => match reply {
                Reply::JoinedRooms(read) => PhaseView::after_old_rooms(old_user, new_user, read),
                _ => self,
            },
            PhaseView::NewRooms { old_user, new_user, rooms } => match reply {
                Reply::JoinedRooms(read) => PhaseView::after_new_rooms(
                    old_user,
                    new_user,
                    rooms,
                    leave,
                    read,
                ),
                _ => self,
            },
            PhaseView::Room { draft, planner, pending } => PhaseView::after_room(
                draft,
                planner.next(draft.context, reply),
                pending,
            ),
            PhaseView::OldDirect { draft } => match reply {
                Reply::Direct(read) => PhaseView::after_old_direct(draft, read),
                _ => self,
            },
            PhaseView::NewDirect { draft, old_direct } => match reply {
                Reply::Direct(read) => PhaseView::after_new_direct(draft, old_direct, read),
                _ => self,
            },
            PhaseView::OldIgnored { draft } => match reply {
                Reply::IgnoredUsers(read) => PhaseView::after_old_ignored(draft, read),
                _ => self,
            },
            PhaseView::NewIgnored { draft, old_ignored } => match reply {
                Reply::IgnoredUsers(read) => PhaseView::after_new_ignored(draft, old_ignored, read),
                _ => self,
            },
            PhaseView::Done { .. } => self,
            PhaseView::Failed { .. } => self,
            PhaseView::Unreadable => self,
        }
    }
}

impl Draft {
    fn with_room(self, room: String, plan: RoomPlan) -> (draft: Draft)
        ensures
            draft@ == self@.with_room(room@, plan@),
    {
        let mut draft = self;
        if !plan.is_empty() {
            let ghost before = draft.rooms@;
            draft.rooms.insert(room, plan);
            assert(room_views(draft.rooms@) =~= room_views(before).insert(room@, plan@));
        }
        draft
    }

    fn with_error(self, error: PlanError) -> (draft: Draft)
        ensures
            draft@ == self@.with_error(error),
    {
        let mut draft = self;
        draft.errors.push(error);
        draft
    }

    fn complete(self, ignored_users: Option<Members>) -> (plan: Plan)
        ensures
            plan@ == self@.complete(members_view(ignored_users)),
    {
        Plan {
            old_user_id: self.context.old_user,
            new_user_id: self.context.new_user,
            rooms: self.rooms,
            direct: self.direct,
            ignored_users,
            errors: self.errors,
        }
    }
}

impl Phase {
    fn start_room(draft: Draft, pending: Vec<String>) -> (phase: Phase)
        ensures
            phase@ == PhaseView::start_room(draft@, texts(pending@)),
    {
        if pending.len() == 0 {
            return Phase::OldDirect { draft };
        }
        let mut pending = pending;
        let ghost all = texts(pending@);
        let room = pending.remove(0);
        assert(texts(pending@) =~= all.drop_first());
        assert(room@ == all[0]);
        let need_join = !contains_str(&draft.joined, room.as_str());
        Phase::Room { draft, planner: RoomPlanner::new(room, need_join), pending }
    }

    fn see_new_rooms(
        old_user: UserId,
        new_user: UserId,
        rooms: Vec<String>,
        leave: bool,
        read: Result<Vec<String>, AccessError>,
    ) -> (phase: Phase)
        ensures
            phase@ == PhaseView::after_new_rooms(old_user, new_user, texts(rooms@), leave, read),
    {
        match read {
            Err(error) => Phase::Failed {
                error: FatalPlanError::GetJoinedRooms(UserKind::New, error),
            },
            Ok(joined) => {
                let draft = Draft {
                    context: RoomContext { old_user, new_user, leave },
                    joined,
                    rooms: TextMap::new(),
                    direct: None,
                    errors: Vec::new(),
                };
                assert(draft@ =~= DraftView::start(old_user, new_user, leave, texts(joined@)));
                Phase::start_room(draft, rooms)
            },
        }
    }

    fn see_room(draft: Draft, planner: RoomPlanner, pending: Vec<String>) -> (phase: Phase)
        ensures
            phase@ == PhaseView::after_room(draft@, planner@, texts(pending@)),
    {
        match &planner.stage {
            RoomStage::Done => {
                let draft = draft.with_room(planner.room, planner.draft);
                Phase::start_room(draft, pending)
            },
            RoomStage::Unreadable => Phase::Unreadable,
            _ => Phase::Room { draft, planner, pending },
        }
    }

    fn see_old_direct(draft: Draft, read: Result<Option<DirectMap>, AccessError>) -> (phase: Phase)
        ensures
            phase@ == PhaseView::after_old_direct(draft@, read),
    {
        match read {
            Err(error) => Phase::OldIgnored {
                draft: draft.with_error(
                    PlanError::DirectAccountDataFailed(
                        DirectAccountDataPlanError::GetEvent(UserKind::Old, error),
                    ),
                ),
            },
            Ok(None) => Phase::OldIgnored { draft },
            Ok(Some(old_direct)) => Phase::NewDirect { draft, old_direct },
        }
    }

    fn see_new_direct(
        draft: Draft,
        old: DirectMap,
        read: Result<Option<DirectMap>, AccessError>,
    ) -> (phase: Phase)
        ensures
            phase@ == PhaseView::after_new_direct(draft@, old, read),
    {
        let new = match read {
            Err(error) => {
                return Phase::OldIgnored {
                    draft: draft.with_error(
                        PlanError::DirectAccountDataFailed(
                            DirectAccountDataPlanError::GetEvent(UserKind::New, error),
                        ),
                    ),
                };
            },
            Ok(Some(new)) => new,
            Ok(None) => DirectMap::new(),
        };
        assert(direct_rooms(new@) =~= direct_or_none(read->Ok_0));
        let mut draft = draft;
        draft.direct = migrate_direct(
            old,
            new,
            &draft.context.new_user,
            &draft.joined,
            &draft.rooms,
        );
        Phase::OldIgnored { draft }
    }

    fn see_old_ignored(draft: Draft, read: Result<Option<Members>, AccessError>) -> (phase: Phase)
        ensures
            phase@ == PhaseView::after_old_ignored(draft@, read),
    {
        match read {
            Err(error) => Phase::Done {
                plan: draft.with_error(
                    PlanError::IgnoredUsersAccountDataFailed(
                        IgnoredUsersAccountDataPlanError::GetEvent(UserKind::Old, error),
                    ),
                ).complete(None),
            },
            Ok(None) => Phase::Done { plan: draft.complete(None) },
            Ok(Some(old_ignored)) => Phase::NewIgnored { draft, old_ignored },
        }
    }

    fn see_new_ignored(
        draft: Draft,
        old: Members,
        read: Result<Option<Members>, AccessError>,
    ) -> (phase: Phase)
        ensures
            phase@ == PhaseView::after_new_ignored(draft@, old, read),
    {
        let new = match read {
            Err(error) => {
                return Phase::Done {
                    plan: draft.with_error(
                        PlanError::IgnoredUsersAccountDataFailed(
                            IgnoredUsersAccountDataPlanError::GetEvent(UserKind::New, error),
                        ),
                    ).complete(None),
                };
            },
            Ok(Some(new)) => new,
            Ok(None) => Members::new(),
        };
        match merge_members(old, new, IGNORED_USERS_MEMBER) {
            Some((merged, errors)) => {
                let mut draft = draft;
                report_conflicts(&errors, &mut draft.errors);
                Phase::Done { plan: draft.complete(merged) }
            },
            None => Phase::Unreadable,
        }
    }

    fn resume(self, leave: bool, reply: Reply) -> (phase: Phase)
        ensures
            phase@ == self@.next(leave, reply),
    {
        match self {
            Phase::OldUserId => match reply {
                Reply::UserId(Err(error)) => Phase::Failed {
                    error: FatalPlanError::GetUserId(UserKind::Old, error),
                },
                Reply::UserId(Ok(old_user)) => Phase::NewUserId { old_user },
                _ => self,
            },
            Phase::NewUserId { old_user } => match reply {
                Reply::UserId(Err(error)) => Phase::Failed {
                    error: FatalPlanError::GetUserId(UserKind::New, error),
                },
                Reply::UserId(Ok(new_user)) => Phase::OldRooms { old_user, new_user },
                _ => Phase::NewUserId { old_user },
            },
            Phase::OldRooms { old_user, new_user } => match reply {
                Reply::JoinedRooms(Err(error)) => Phase::Failed {
                    error: FatalPlanError::GetJoinedRooms(UserKind::Old, error),
                },
                Reply::JoinedRooms(Ok(rooms)) => Phase::NewRooms {
                    old_user,
                    new_user,
                    rooms: sort_strings(rooms),
                },
                _ => Phase::OldRooms { old_user, new_user },
            },
            Phase::NewRooms { old_user, new_user, rooms } => match reply {
                Reply::JoinedRooms(read) => Phase::see_new_rooms(
                    old_user,
                    new_user,
                    rooms,
                    leave,
                    read,
                ),
                _ => Phase::NewRooms { old_user, new_user, rooms },
            },
            Phase::Room { draft, planner, pending } => {
                let planner = planner.resume(&draft.context, reply);
                Phase::see_room(draft, planner, pending)
            },
            Phase::OldDirect { draft } => match reply {
                Reply::Direct(read) => Phase::see_old_direct(draft, read),
                _ => Phase::OldDirect { draft },
            },
            Phase::NewDirect { draft, old_direct } => match reply {
                Reply::Direct(read) => Phase::see_new_direct(draft, old_direct, read),
                _ => Phase::NewDirect { draft, old_direct },
            },
            Phase::OldIgnored { draft } => match reply {
                Reply::IgnoredUsers(read) => Phase::see_old_ignored(draft, read),
                _ => Phase::OldIgnored { draft },
            },
            Phase::NewIgnored { draft, old_ignored } => match reply {
                Reply::IgnoredUsers(read) => Phase::see_new_ignored(draft, old_ignored, read),
                _ => Phase::NewIgnored { draft, old_ignored },
            },
            Phase::Done { plan } => Phase::Done { plan },
            Phase::Failed { error } => Phase::Failed { error },
            Phase::Unreadable => Phase::Unreadable,
        }
    }
}

/// Makes a migration plan.
pub struct Planner {
    pub settings: PlanSettings,
    pub phase: Phase,
}

impl Planner {
    /// A planner that has not asked anything yet.
    pub fn new(settings: PlanSettings) -> (planner: Planner)
        ensures
            planner.settings == settings,
            planner.phase@ is OldUserId,
    {
        Planner { settings, phase: Phase::OldUserId }
    }

    /// What the planner asks for next; `None` if there is nothing left to ask.
    pub fn request(&self) -> (request: Option<Request>)
        ensures
            match request {
                Some(request) => self.phase@.request() == Some(request@),
                None => self.phase@.request() is None,
            },
    {
        match &self.phase {
            Phase::OldUserId => Some(Request::UserId(UserKind::Old)),
            Phase::NewUserId { .. } => Some(Request::UserId(UserKind::New)),
            Phase::OldRooms { .. } => Some(Request::JoinedRooms(UserKind::Old)),
            Phase::NewRooms { .. } => Some(Request::JoinedRooms(UserKind::New)),
            Phase::Room { draft, planner, .. } => planner.request(&draft.context.new_user),
            Phase::OldDirect { .. } => Some(Request::Direct(UserKind::Old)),
            Phase::NewDirect { .. } => Some(Request::Direct(UserKind::New)),
            Phase::OldIgnored { .. } => Some(Request::IgnoredUsers(UserKind::Old)),
            Phase::NewIgnored { .. } => Some(Request::IgnoredUsers(UserKind::New)),
            Phase::Done { .. } => None,
            Phase::Failed { .. } => None,
            Phase::Unreadable => None,
        }
    }

    /// Takes in a reply. One that does not answer the request changes nothing.
    pub fn resume(self, reply: Reply) -> (planner: Planner)
        ensures
            planner.settings == self.settings,
            planner.phase@ == self.phase@.next(self.settings.leave, reply),
    {
        let leave = self.settings.leave;
        Planner { settings: self.settings, phase: self.phase.resume(leave, reply) }
    }
}

} // verus!
