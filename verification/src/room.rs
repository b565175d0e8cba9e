//! Planning what is to be done about one room.
//!
//! What is decided depends on what the server says about the room. A [`RoomPlanner`] asks for one
//! thing at a time and takes in the reply.

use vstd::prelude::*;

use crate::ids::{after_colon, UserId, UserKind};
use crate::members::{members_or_none, merge_members, Members, TAGS_MEMBER};
use crate::plan::{
    conflict_errors, report_conflicts, Reply, Request, RequestView, RoomPlan, RoomPlanError,
    RoomPlanView, RoomTagsPlanError,
};
use crate::power_levels::PowerLevels;
use crate::state::{AccessError, HistoryVisibility, JoinRule, Membership, ServerAcl};

verus! {

/// The power level that is set for the new user: that of the old user, if it is higher than that
/// of the new user and the old user may set it.
pub open spec fn level_to_set(levels: PowerLevels, old: Seq<char>, new: Seq<char>) -> Option<i64> {
    if levels.level_of(new).spec_less(levels.level_of(old)) && levels.may_change_level(old, new) {
        Some(levels.level_of(old).spec_as_int())
    } else {
        None
    }
}

/// The error for a power level that should be copied but cannot be.
pub open spec fn level_errors(
    levels: PowerLevels,
    old: Seq<char>,
    new: Seq<char>,
) -> Seq<RoomPlanError> {
    if levels.level_of(new).spec_less(levels.level_of(old)) && !levels.may_change_level(old, new) {
        seq![RoomPlanError::CopyPowerLevel { old_power_level: levels.level_of(old).spec_as_int() }]
    } else {
        Seq::empty()
    }
}

/// If the old user's power level needs to (and can) be propagated to the new user, returns the
/// power level to set.
pub fn plan_power_level(
    levels: &PowerLevels,
    old_user: &UserId,
    new_user: &UserId,
    errors: &mut Vec<RoomPlanError>,
) -> (level: Option<i64>)
    ensures
        level == level_to_set(*levels, old_user@, new_user@),
        final(errors)@ == old(errors)@ + level_errors(*levels, old_user@, new_user@),
        levels.level_of(new_user@).spec_less(levels.level_of(old_user@)) ==> {
            if levels.may_change_level(old_user@, new_user@) {
                level == Some(levels.level_of(old_user@).spec_as_int()) && final(errors)@ == old(
                    errors,
                )@
            } else {
                level is None && final(errors)@.len() == old(errors)@.len() + 1
            }
        },
{
    let old_level = levels.for_user(old_user.as_str());
    let new_level = levels.for_user(new_user.as_str());
    if new_level.less(old_level) {
        if levels.user_can_change_user_power_level(old_user.as_str(), new_user.as_str()) {
            return Some(old_level.as_int());
        }
        errors.push(RoomPlanError::CopyPowerLevel { old_power_level: old_level.as_int() });
    }
    None
}

/// What is the same for every room of a plan.
pub struct RoomContext {
    pub old_user: UserId,
    pub new_user: UserId,
    /// Leave rooms that are fully migrated.
    pub leave: bool,
}

/// What the planner of a room waits for.
pub enum RoomStage {
    PowerLevels,
    /// The membership of the new user.
    Membership { levels: PowerLevels },
    ServerAcl { levels: PowerLevels, invited: bool },
    JoinRule { levels: PowerLevels, invited: bool },
    OldTags,
    NewTags { old: Members },
    HistoryVisibility,
    Alias,
    /// The plan is complete.
    Done,
    /// Two tags have to be compared, and one is not read as JSON.
    Unreadable,
}

/// Decides what is to be done about one room.
pub struct RoomPlanner {
    pub room: String,
    /// The new user is not in the room yet.
    pub need_join: bool,
    pub stage: RoomStage,
    /// The power level that will be set once nothing speaks against joining.
    pub level: Option<i64>,
    pub draft: RoomPlan,
}

/// The contents of a [`RoomPlanner`].
#[verifier::ext_equal]
pub struct RoomPlannerView {
    pub room: Seq<char>,
    pub need_join: bool,
    pub stage: RoomStage,
    pub level: Option<i64>,
    pub draft: RoomPlanView,
}

impl View for RoomPlanner {
    type V = RoomPlannerView;

    open spec fn view(&self) -> RoomPlannerView {
        RoomPlannerView {
            room: self.room@,
            need_join: self.need_join,
            stage: self.stage,
            level: self.level,
            draft: self.draft@,
        }
    }
}

/// Whether a history visibility hides messages that were sent before a user came to the room.
pub open spec fn is_restricted(visibility: HistoryVisibility) -> bool {
    !(visibility is WorldReadable) && !(visibility is Shared)
}

impl RoomPlannerView {
    /// A planner that has not asked anything yet.
    pub open spec fn start(room: Seq<char>, need_join: bool) -> RoomPlannerView {
        RoomPlannerView {
            room,
            need_join,
            stage: RoomStage::PowerLevels,
            level: None,
            draft: RoomPlanView::nothing(),
        }
    }

    /// What the planner asks for next.
    pub open spec fn request(self, new_user: Seq<char>) -> Option<RequestView> {
        match self.stage {
            RoomStage::PowerLevels => Some(RequestView::PowerLevels { room: self.room }),
            RoomStage::Membership { .. } => Some(
                RequestView::Membership { room: self.room, user: new_user },
            ),
            RoomStage::ServerAcl { .. } => Some(RequestView::ServerAcl { room: self.room }),
            RoomStage::JoinRule { .. } => Some(RequestView::JoinRule { room: self.room }),
            RoomStage::OldTags => Some(RequestView::Tags { of: UserKind::Old, room: self.room }),
            RoomStage::NewTags { .. } => Some(
                RequestView::Tags { of: UserKind::New, room: self.room },
            ),
            RoomStage::HistoryVisibility => Some(
                RequestView::HistoryVisibility { room: self.room },
            ),
            RoomStage::Alias => Some(RequestView::Alias { room: self.room }),
            RoomStage::Done => None,
            RoomStage::Unreadable => None,
        }
    }

    pub open spec fn at(self, stage: RoomStage) -> RoomPlannerView {
        RoomPlannerView { stage, ..self }
    }

    pub open spec fn with_error(self, error: RoomPlanError) -> RoomPlannerView {
        RoomPlannerView { draft: self.draft.with_error(error), ..self }
    }

    /// Nothing speaks against joining: the actions enter the plan.
    pub open spec fn commit(self, invite: bool) -> RoomPlannerView {
        RoomPlannerView {
            stage: RoomStage::OldTags,
            draft: RoomPlanView {
                join: self.need_join,
                invite,
                power_level: self.level,
                ..self.draft
            },
            ..self
        }
    }

    /// All but the alias is known. A room without errors is fully migrated, so it can be left. The
    /// alias only matters if there is something to show.
    pub open spec fn finish(self, leave: bool) -> RoomPlannerView {
        let draft = RoomPlanView { leave: leave && self.draft.errors.len() == 0, ..self.draft };
        RoomPlannerView {
            stage: if draft.is_empty() {
                RoomStage::Done
            } else {
                RoomStage::Alias
            },
            draft,
            ..self
        }
    }

    /// The planner once it knows the power levels, or why it cannot know them.
    pub open spec fn after_levels(
        self,
        context: RoomContext,
        read: Result<PowerLevels, AccessError>,
    ) -> RoomPlannerView {
        match read {
            Err(error) => self.with_error(RoomPlanError::GetPowerLevels(error)).finish(
                context.leave,
            ),
            Ok(levels) => {
                let old = context.old_user@;
                let new = context.new_user@;
                let known = RoomPlannerView {
                    level: level_to_set(levels, old, new),
                    draft: RoomPlanView {
                        errors: self.draft.errors + level_errors(levels, old, new),
                        ..self.draft
                    },
                    ..self
                };
                if self.need_join {
                    known.at(RoomStage::Membership { levels })
                } else {
                    known.commit(false)
                }
            },
        }
    }

    /// The planner once it knows the membership of the new user.
    pub open spec fn after_membership(
        self,
        context: RoomContext,
        levels: PowerLevels,
        read: Result<Option<Membership>, AccessError>,
    ) -> RoomPlannerView {
        match read {
            Err(error) => self.with_error(RoomPlanError::GetMembership(error)).finish(
                context.leave,
            ),
            Ok(membership) => if membership == Some(Membership::Ban) {
                self.with_error(RoomPlanError::Banned).finish(context.leave)
            } else {
                self.at(
                    RoomStage::ServerAcl {
                        levels,
                        invited: membership == Some(Membership::Invite),
                    },
                )
            },
        }
    }

    /// The planner once it knows which servers may take part.
    pub open spec fn after_acl(
        self,
        context: RoomContext,
        levels: PowerLevels,
        invited: bool,
        read: Result<Option<ServerAcl>, AccessError>,
    ) -> RoomPlannerView {
        match read {
            Err(error) => self.with_error(RoomPlanError::GetServerAcl(error)).finish(context.leave),
            Ok(acl) => self.after_admission(
                context,
                levels,
                invited,
                acl is Some ==> acl->0.admits(after_colon(context.new_user@)->0),
            ),
        }
    }

    /// The planner once it knows whether the server of the new user may take part.
    pub open spec fn after_admission(
        self,
        context: RoomContext,
        levels: PowerLevels,
        invited: bool,
        admitted: bool,
    ) -> RoomPlannerView {
        if admitted {
            self.at(RoomStage::JoinRule { levels, invited })
        } else {
            self.with_error(RoomPlanError::AclBanned).finish(context.leave)
        }
    }

    /// The planner once it knows who can join.
    pub open spec fn after_join_rule(
        self,
        context: RoomContext,
        levels: PowerLevels,
        invited: bool,
        read: Result<Option<JoinRule>, AccessError>,
    ) -> RoomPlannerView {
        match read {
            Err(error) => self.with_error(RoomPlanError::GetJoinRule(error)).finish(context.leave),
            Ok(rule) => {
                let invite = !invited && rule != Some(JoinRule::Public);
                if invite && !levels.reaches(context.old_user@, levels.content.invite) {
                    self.with_error(RoomPlanError::CannotInvite).finish(context.leave)
                } else {
                    self.commit(invite)
                }
            },
        }
    }

    /// The planner once it knows the tags of the old user.
    pub open spec fn after_old_tags(
        self,
        read: Result<Option<Members>, AccessError>,
    ) -> RoomPlannerView {
        match read {
            Err(error) => self.with_error(
                RoomPlanError::RoomTagsFailed(RoomTagsPlanError::GetEvent(UserKind::Old, error)),
            ).at(RoomStage::HistoryVisibility),
            Ok(None) => self.at(RoomStage::HistoryVisibility),
            Ok(Some(old)) => self.at(RoomStage::NewTags { old }),
        }
    }

    /// The planner once it knows the tags of both users.
    pub open spec fn after_new_tags(
        self,
        old: Members,
        read: Result<Option<Members>, AccessError>,
    ) -> RoomPlannerView {
        match read {
            Err(error) => self.with_error(
                RoomPlanError::RoomTagsFailed(RoomTagsPlanError::GetEvent(UserKind::New, error)),
            ).at(RoomStage::HistoryVisibility),
            Ok(new) => {
                let new = members_or_none(new);
                if old@.mergeable(TAGS_MEMBER@, new) {
                    RoomPlannerView {
                        stage: RoomStage::HistoryVisibility,
                        draft: RoomPlanView {
                            account_data: if old@.adds_to(TAGS_MEMBER@, new) {
                                Some(old@.merged(TAGS_MEMBER@, new))
                            } else {
                                None
                            },
                            errors: self.draft.errors + conflict_errors(
                                old.errors(TAGS_MEMBER@, new),
                            ),
                            ..self.draft
                        },
                        ..self
                    }
                } else {
                    self.at(RoomStage::Unreadable)
                }
            },
        }
    }

    /// The planner once it knows who can see the history.
    pub open spec fn after_history(
        self,
        context: RoomContext,
        read: Result<Option<HistoryVisibility>, AccessError>,
    ) -> RoomPlannerView {
        match read {
            Err(error) => self.with_error(RoomPlanError::GetHistoryVisibility(error)).finish(
                context.leave,
            ),
            Ok(visibility) => if visibility is Some && is_restricted(visibility->0) {
                self.with_error(
                    RoomPlanError::RestrictedHistoryVisibility {
                        visibility: visibility->0,
                        already_joined: !self.need_join,
                    },
                ).finish(context.leave)
            } else {
                self.finish(context.leave)
            },
        }
    }

    /// The planner once it knows the alias.
    pub open spec fn after_alias(self, read: Result<Option<String>, AccessError>) -> RoomPlannerView {
        match read {
            Err(error) => self.with_error(RoomPlanError::GetAlias(error)).at(RoomStage::Done),
            Ok(alias) => RoomPlannerView {
                stage: RoomStage::Done,
                draft: RoomPlanView { alias, ..self.draft },
                ..self
            },
        }
    }

    /// The planner after it took in a reply. One that does not answer the request changes nothing.
    pub open spec fn next(self, context: RoomContext, reply: Reply) -> RoomPlannerView {
        match self.stage {
            RoomStage::PowerLevels => match reply {
                Reply::PowerLevels(read) => self.after_levels(context, read),
                _ => self,
            },
            RoomStage::Membership { levels } => match reply {
                Reply::Membership(read) => self.after_membership(context, levels, read),
                _ => self,
            },
            RoomStage::ServerAcl { levels, invited } => match reply {
                Reply::ServerAcl(read) => self.after_acl(context, levels, invited, read),
                _ => self,
            },
            RoomStage::JoinRule { levels, invited } => match reply {
                Reply::JoinRule(read) => self.after_join_rule(context, levels, invited, read),
                _ => self,
            },
            RoomStage::OldTags => match reply {
                Reply::Tags(read) => self.after_old_tags(read),
                _ => self,
            },
            RoomStage::NewTags { old } => match reply {
                Reply::Tags(read) => self.after_new_tags(old, read),
                _ => self,
            },
            RoomStage::HistoryVisibility => match reply {
                Reply::HistoryVisibility(read) => self.after_history(context, read),
                _ => self,
            },
            RoomStage::Alias => match reply {
                Reply::Alias(read) => self.after_alias(read),
                _ => self,
            },
            RoomStage::Done => self,
            RoomStage::Unreadable => self,
        }
    }
}

impl RoomPlanner {
    /// A planner that has not asked anything yet.
    pub fn new(room: String, need_join: bool) -> (planner: RoomPlanner)
        ensures
            planner@ == RoomPlannerView::start(room@, need_join),
    {
        RoomPlanner {
            room,
            need_join,
            stage: RoomStage::PowerLevels,
            level: None,
            draft: RoomPlan::default(),
        }
    }

    /// What the planner asks for next; `None` if there is nothing left to ask.
    pub fn request(&self, new_user: &UserId) -> (request: Option<Request>)
        ensures
            match request {
                Some(request) => self@.request(new_user@) == Some(request@),
                None => self@.request(new_user@) is None,
            },
    {
        let room = self.room.clone();
        match &self.stage {
            RoomStage::PowerLevels => Some(Request::PowerLevels { room }),
            RoomStage::Membership { .. } => Some(
                Request::Membership { room, user: new_user.as_str().to_owned() },
            ),
            RoomStage::ServerAcl { .. } => Some(Request::ServerAcl { room }),
            RoomStage::JoinRule { .. } => Some(Request::JoinRule { room }),
            RoomStage::OldTags => Some(Request::Tags { of: UserKind::Old, room }),
            RoomStage::NewTags { .. } => Some(Request::Tags { of: UserKind::New, room }),
            RoomStage::HistoryVisibility => Some(Request::HistoryVisibility { room }),
            RoomStage::Alias => Some(Request::Alias { room }),
            RoomStage::Done => None,
            RoomStage::Unreadable => None,
        }
    }

    fn at(self, stage: RoomStage) -> (planner: RoomPlanner)
        ensures
            planner@ == self@.at(stage),
    {
        RoomPlanner { stage, ..self }
    }

    fn with_error(self, error: RoomPlanError) -> (planner: RoomPlanner)
        ensures
            planner@ == self@.with_error(error),
    {
        let mut planner = self;
        planner.draft.errors.push(error);
        planner
    }

    fn commit(self, invite: bool) -> (planner: RoomPlanner)
        ensures
            planner@ == self@.commit(invite),
    {
        let mut planner = self;
        planner.draft.join = planner.need_join;
        planner.draft.invite = invite;
        planner.draft.power_level = planner.level;
        planner.stage = RoomStage::OldTags;
        planner
    }

    fn finish(self, leave: bool) -> (planner: RoomPlanner)
        ensures
            planner@ == self@.finish(leave),
    {
        let mut planner = self;
        planner.draft.leave = leave && planner.draft.errors.len() == 0;
        planner.stage = if planner.draft.is_empty() {
            RoomStage::Done
        } else {
            RoomStage::Alias
        };
        planner
    }

    fn see_levels(self, context: &RoomContext, read: Result<PowerLevels, AccessError>) -> (planner:
        RoomPlanner)
        ensures
            planner@ == self@.after_levels(*context, read),
    {
        match read {
            Err(error) => self.with_error(RoomPlanError::GetPowerLevels(error)).finish(
                context.leave,
            ),
            Ok(levels) => {
                let mut planner = self;
                planner.level = plan_power_level(
                    &levels,
                    &context.old_user,
                    &context.new_user,
                    &mut planner.draft.errors,
                );
                if planner.need_join {
                    planner.at(RoomStage::Membership { levels })
                } else {
                    planner.commit(false)
                }
            },
        }
    }

    fn see_membership(
        self,
        context: &RoomContext,
        levels: PowerLevels,
        read: Result<Option<Membership>, AccessError>,
    ) -> (planner: RoomPlanner)
        ensures
            planner@ == self@.after_membership(*context, levels, read),
    {
        let membership = match read {
            Err(error) => {
                return self.with_error(RoomPlanError::GetMembership(error)).finish(context.leave);
            },
            Ok(Some(membership)) => membership,
            Ok(None) => Membership::Leave,
        };
        if membership == Membership::Ban {
            self.with_error(RoomPlanError::Banned).finish(context.leave)
        } else {
            let invited = membership == Membership::Invite;
            self.at(RoomStage::ServerAcl { levels, invited })
        }
    }

    fn see_acl(
        self,
        context: &RoomContext,
        levels: PowerLevels,
        invited: bool,
        read: Result<Option<ServerAcl>, AccessError>,
    ) -> (planner: RoomPlanner)
        ensures
            planner@ == self@.after_acl(*context, levels, invited, read),
    {
        let admitted = match read {
            Err(error) => {
                return self.with_error(RoomPlanError::GetServerAcl(error)).finish(context.leave);
            },
            Ok(Some(acl)) => acl.is_allowed(&context.new_user),
            Ok(None) => true,
        };
        self.see_admission(context, levels, invited, admitted)
    }

    /// Takes in whether the server of the new user may take part in the room.
    pub fn see_admission(
        self,
        context: &RoomContext,
        levels: PowerLevels,
        invited: bool,
        admitted: bool,
    ) -> (planner: RoomPlanner)
        ensures
            planner@ == self@.after_admission(*context, levels, invited, admitted),
    {
        if admitted {
            self.at(RoomStage::JoinRule { levels, invited })
        } else {
            self.with_error(RoomPlanError::AclBanned).finish(context.leave)
        }
    }

    fn see_join_rule(
        self,
        context: &RoomContext,
        levels: PowerLevels,
        invited: bool,
        read: Result<Option<JoinRule>, AccessError>,
    ) -> (planner: RoomPlanner)
        ensures
            planner@ == self@.after_join_rule(*context, levels, invited, read),
    {
        let public = match read {
            Err(error) => {
                return self.with_error(RoomPlanError::GetJoinRule(error)).finish(context.leave);
            },
            Ok(Some(rule)) => rule == JoinRule::Public,
            Ok(None) => false,
        };
        let invite = !invited && !public;
        if invite && !levels.user_can_invite(context.old_user.as_str()) {
            self.with_error(RoomPlanError::CannotInvite).finish(context.leave)
        } else {
            self.commit(invite)
        }
    }

    fn see_old_tags(self, read: Result<Option<Members>, AccessError>) -> (planner: RoomPlanner)
        ensures
            planner@ == self@.after_old_tags(read),
    {
        match read {
            Err(error) => self.with_error(
                RoomPlanError::RoomTagsFailed(RoomTagsPlanError::GetEvent(UserKind::Old, error)),
            ).at(RoomStage::HistoryVisibility),
            Ok(None) => self.at(RoomStage::HistoryVisibility),
            Ok(Some(old)) => self.at(RoomStage::NewTags { old }),
        }
    }

    fn see_new_tags(self, old: Members, read: Result<Option<Members>, AccessError>) -> (planner:
        RoomPlanner)
        ensures
            planner@ == self@.after_new_tags(old, read),
    {
        let new = match read {
            Err(error) => {
                return self.with_error(
                    RoomPlanError::RoomTagsFailed(
                        RoomTagsPlanError::GetEvent(UserKind::New, error),
                    ),
                ).at(RoomStage::HistoryVisibility);
            },
            Ok(Some(new)) => new,
            Ok(None) => Members::new(),
        };
        match merge_members(old, new, TAGS_MEMBER) {
            Some((merged, errors)) => {
                let mut planner = self;
                planner.draft.account_data = merged;
                report_conflicts(&errors, &mut planner.draft.errors);
                planner.at(RoomStage::HistoryVisibility)
            },
            None => self.at(RoomStage::Unreadable),
        }
    }

    fn see_history(
        self,
        context: &RoomContext,
        read: Result<Option<HistoryVisibility>, AccessError>,
    ) -> (planner: RoomPlanner)
        ensures
            planner@ == self@.after_history(*context, read),
    {
        let already_joined = !self.need_join;
        match read {
            Err(error) => self.with_error(RoomPlanError::GetHistoryVisibility(error)).finish(
                context.leave,
            ),
            Ok(None) => self.finish(context.leave),
            Ok(Some(HistoryVisibility::WorldReadable)) => self.finish(context.leave),
            Ok(Some(HistoryVisibility::Shared)) => self.finish(context.leave),
            Ok(Some(visibility)) => self.with_error(
                RoomPlanError::RestrictedHistoryVisibility { visibility, already_joined },
            ).finish(context.leave),
        }
    }

    fn see_alias(self, read: Result<Option<String>, AccessError>) -> (planner: RoomPlanner)
        ensures
            planner@ == self@.after_alias(read),
    {
        match read {
            Err(error) => self.with_error(RoomPlanError::GetAlias(error)).at(RoomStage::Done),
            Ok(alias) => {
                let mut planner = self;
                planner.draft.alias = alias;
                planner.at(RoomStage::Done)
            },
        }
    }

    /// Takes in a reply. One that does not answer the request changes nothing.
    pub fn resume(self, context: &RoomContext, reply: Reply) -> (planner: RoomPlanner)
        ensures
            planner@ == self@.next(*context, reply),
    {
        let RoomPlanner { room, need_join, stage, level, draft } = self;
        let base = RoomPlanner { room, need_join, stage: RoomStage::Done, level, draft };
        match stage {
            RoomStage::PowerLevels => match reply {
                Reply::PowerLevels(read) => base.see_levels(context, read),
                _ => base.at(stage),
            },
            RoomStage::Membership { levels } => match reply {
                Reply::Membership(read) => base.see_membership(context, levels, read),
                _ => base.at(RoomStage::Membership { levels }),
            },
            RoomStage::ServerAcl { levels, invited } => match reply {
                Reply::ServerAcl(read) => base.see_acl(context, levels, invited, read),
                _ => base.at(RoomStage::ServerAcl { levels, invited }),
            },
            RoomStage::JoinRule { levels, invited } => match reply {
                Reply::JoinRule(read) => base.see_join_rule(context, levels, invited, read),
                _ => base.at(RoomStage::JoinRule { levels, invited }),
            },
            RoomStage::OldTags => match reply {
                Reply::Tags(read) => base.see_old_tags(read),
                _ => base.at(stage),
            },
            RoomStage::NewTags { old } => match reply {
                Reply::Tags(read) => base.see_new_tags(old, read),
                _ => base.at(RoomStage::NewTags { old }),
            },
            RoomStage::HistoryVisibility => match reply {
                Reply::HistoryVisibility(read) => base.see_history(context, read),
                _ => base.at(stage),
            },
            RoomStage::Alias => match reply {
                Reply::Alias(read) => base.see_alias(read),
                _ => base.at(stage),
            },
            RoomStage::Done => base,
            RoomStage::Unreadable => base.at(stage),
        }
    }
}

} // verus!
