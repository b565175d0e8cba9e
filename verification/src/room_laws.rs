//! Laws about the plan for a room, stated over what the server says.

use vstd::prelude::*;

use crate::ids::{after_colon, UserKind};
use crate::json::JsonMergeError;
use crate::members::{members_or_none, TAGS_MEMBER};
use crate::plan::{
    answers, Reply, RequestView, RoomPlanError, RoomPlanView, RoomTagsPlanError,
};
use crate::power_levels::UserPowerLevel;
use crate::room::RoomContext;
use crate::room_outcome::{
    answers_all, history_problems, level_problems, obstacle, room_outcome, tag_problems,
    unnamed_outcome, World,
};
use crate::state::{acl_admits, AccessError, HistoryVisibility, JoinRule, Membership};
use crate::text::texts;

verus! {

/// Whether the plan for a room changes nothing.
pub open spec fn changes_nothing(plan: RoomPlanView) -> bool {
    &&& !plan.invite
    &&& !plan.join
    &&& !plan.leave
    &&& plan.power_level is None
    &&& plan.account_data is None
}

/// What comes before the alias in a list of errors is in it, and nothing else is but the alias.
proof fn lemma_named_errors(
    world: World,
    context: RoomContext,
    room: Seq<char>,
    need_join: bool,
    error: RoomPlanError,
)
    ensures
        ({
            let before = unnamed_outcome(world, context, room, need_join).errors;
            let after = room_outcome(world, context, room, need_join).errors;
            &&& before.contains(error) ==> after.contains(error)
            &&& after.contains(error) && !before.contains(error) ==> {
                world(RequestView::Alias { room })->Alias_0 matches Err(cause) && error
                    == RoomPlanError::GetAlias(cause)
            }
        }),
{
    let before = unnamed_outcome(world, context, room, need_join).errors;
    let after = room_outcome(world, context, room, need_join).errors;
    if after != before {
        let last = after.last();
        assert(after =~= before.push(last));
        if before.contains(error) {
            let i = choose|i: int| 0 <= i < before.len() && before[i] == error;
            assert(after[i] == error);
        }
        if after.contains(error) && !before.contains(error) {
            let i = choose|i: int| 0 <= i < after.len() && after[i] == error;
            if i < before.len() {
                assert(before[i] == error);
            }
        }
    }
}

/// Errors about the level, the tags and the history are all listed where nothing is in the way.
proof fn lemma_listed(
    world: World,
    context: RoomContext,
    room: Seq<char>,
    need_join: bool,
    error: RoomPlanError,
)
    ensures
        ({
            let levels = level_problems(world, context, room);
            let tags = tag_problems(world, room);
            let history = history_problems(world, room, need_join);
            let errors = unnamed_outcome(world, context, room, need_join).errors;
            match obstacle(world, context, room, need_join) {
                Some(obstacle) => errors.contains(error) <==> error == obstacle || levels.contains(
                    error,
                ),
                None => errors.contains(error) <==> levels.contains(error) || tags.contains(error)
                    || history.contains(error),
            }
        }),
{
    broadcast use vstd::seq_lib::group_seq_properties;

    let levels = level_problems(world, context, room);
    let tags = tag_problems(world, room);
    let history = history_problems(world, room, need_join);
    if let Some(obstacle) = obstacle(world, context, room, need_join) {
        assert(levels.push(obstacle)[levels.len() as int] == obstacle);
        assert(levels.push(obstacle).contains(error) <==> error == obstacle || levels.contains(
            error,
        ));
    } else {
        assert((levels + tags + history).contains(error) <==> levels.contains(error)
            || tags.contains(error) || history.contains(error));
    }
}

/// The new user is invited exactly where they are to join a room to which they were not invited
/// before, and which is not open to everybody: neither without an invitation nor with a rule that
/// was not read as public can they join on their own.
pub proof fn law_uninvited_users_are_invited(
    world: World,
    context: RoomContext,
    room: Seq<char>,
    need_join: bool,
)
    ensures
        ({
            let plan = room_outcome(world, context, room, need_join);
            let membership = world(RequestView::Membership { room, user: context.new_user@ });
            let rule = world(RequestView::JoinRule { room });
            plan.invite <==> {
                &&& plan.join
                &&& membership != Reply::Membership(Ok(Some(Membership::Invite)))
                &&& rule != Reply::JoinRule(Ok(Some(JoinRule::Public)))
            }
        }),
{
}

/// What is in the way of joining a room is reported, and then nothing is planned: what could not be
/// read, a ban of the user, a ban of their server, or that the old user may not invite where an
/// invitation is needed. Where nothing of that is in the way, the new user joins if they are not in
/// the room.
pub proof fn law_the_new_user_joins_where_possible(
    world: World,
    context: RoomContext,
    room: Seq<char>,
    need_join: bool,
)
    requires
        world(RequestView::PowerLevels { room }) is PowerLevels,
        world(RequestView::Membership { room, user: context.new_user@ }) is Membership,
        world(RequestView::ServerAcl { room }) is ServerAcl,
        world(RequestView::JoinRule { room }) is JoinRule,
    ensures
        ({
            let plan = room_outcome(world, context, room, need_join);
            let server = after_colon(context.new_user@)->0;
            match world(RequestView::PowerLevels { room })->PowerLevels_0 {
                Err(error) => changes_nothing(plan) && plan.errors.contains(
                    RoomPlanError::GetPowerLevels(error),
                ),
                Ok(levels) => if !need_join {
                    !plan.join && !plan.invite
                } else {
                    match world(
                        RequestView::Membership { room, user: context.new_user@ },
                    )->Membership_0 {
                        Err(error) => changes_nothing(plan) && plan.errors.contains(
                            RoomPlanError::GetMembership(error),
                        ),
                        Ok(membership) => if membership == Some(Membership::Ban) {
                            changes_nothing(plan) && plan.errors.contains(RoomPlanError::Banned)
                        } else {
                            match world(RequestView::ServerAcl { room })->ServerAcl_0 {
                                Err(error) => changes_nothing(plan) && plan.errors.contains(
                                    RoomPlanError::GetServerAcl(error),
                                ),
                                Ok(acl) => if acl is Some && !acl_admits(
                                    acl->0.allow_ip_literals,
                                    texts(acl->0.allow@),
                                    texts(acl->0.deny@),
                                    server,
                                ) {
                                    changes_nothing(plan) && plan.errors.contains(
                                        RoomPlanError::AclBanned,
                                    )
                                } else {
                                    match world(RequestView::JoinRule { room })->JoinRule_0 {
                                        Err(error) => changes_nothing(plan) && plan.errors.contains(
                                            RoomPlanError::GetJoinRule(error),
                                        ),
                                        Ok(rule) => {
                                            let own = levels.level_of(context.old_user@);
                                            let may_invite = own is Infinite || own->Int_0
                                                >= levels.content.invite;
                                            if membership == Some(Membership::Invite) || rule
                                                == Some(JoinRule::Public) {
                                                plan.join && !plan.invite
                                            } else if may_invite {
                                                plan.join && plan.invite
                                            } else {
                                                changes_nothing(plan) && plan.errors.contains(
                                                    RoomPlanError::CannotInvite,
                                                )
                                            }
                                        },
                                    }
                                },
                            }
                        },
                    }
                },
            }
        }),
{
    if let Some(error) = obstacle(world, context, room, need_join) {
        lemma_listed(world, context, room, need_join, error);
        lemma_named_errors(world, context, room, need_join, error);
    }
}

/// Where the new user is in the room in the end, they have at least the level of the old user, or
/// that is reported: a level below that of the old user is raised to it if the old user may change
/// it, and else there is an error. A level that is not below stays, without an error.
pub proof fn law_power_is_copied_or_reported(
    world: World,
    context: RoomContext,
    room: Seq<char>,
    need_join: bool,
)
    requires
        world(RequestView::PowerLevels { room }) matches Reply::PowerLevels(Ok(_)),
    ensures
        ({
            let plan = room_outcome(world, context, room, need_join);
            let levels = world(RequestView::PowerLevels { room })->PowerLevels_0->Ok_0;
            let old = levels.level_of(context.old_user@);
            let new = levels.level_of(context.new_user@);
            let is_below = match (new, old) {
                (UserPowerLevel::Infinite, _) => false,
                (UserPowerLevel::Int(_), UserPowerLevel::Infinite) => true,
                (UserPowerLevel::Int(new), UserPowerLevel::Int(old)) => new < old,
            };
            let level = match old {
                UserPowerLevel::Infinite => 0x1f_ffff_ffff_ffff,
                UserPowerLevel::Int(level) => level,
            };
            let may_change = levels.may_change_level(context.old_user@, context.new_user@);
            &&& !need_join || plan.join ==> plan.power_level == if is_below && may_change {
                Some(level)
            } else {
                None
            }
            &&& plan.errors.contains(RoomPlanError::CopyPowerLevel { old_power_level: level })
                <==> is_below && !may_change
            &&& (!need_join || plan.join) && is_below && plan.power_level is None
                ==> plan.errors.len() > 0
        }),
{
    let levels = world(RequestView::PowerLevels { room })->PowerLevels_0->Ok_0;
    let old = levels.level_of(context.old_user@);
    let error = RoomPlanError::CopyPowerLevel { old_power_level: old.spec_as_int() };
    let problems = level_problems(world, context, room);
    if problems.len() > 0 {
        assert(problems[0] == error);
        assert(problems.contains(error));
    }
    if tag_problems(world, room).contains(error) {
        lemma_tag_problems(world, room, error);
    }
    lemma_listed(world, context, room, need_join, error);
    lemma_named_errors(world, context, room, need_join, error);
}

/// Errors about tags are that tags cannot be read or that two of them differ.
proof fn lemma_tag_problems(world: World, room: Seq<char>, error: RoomPlanError)
    requires
        tag_problems(world, room).contains(error),
    ensures
        error is RoomTagsFailed || error is RoomTagMerge,
{
    let problems = tag_problems(world, room);
    let i = choose|i: int| 0 <= i < problems.len() && problems[i] == error;
    assert(problems[i] == error);
}

/// Where the new user is in the room in the end, their tags are read, and they get the tags of both
/// users exactly if the old user has some that they lack. Two tags that differ are reported, and so
/// is it if the tags of one of the users cannot be read.
pub proof fn law_tags_are_merged_or_reported(
    world: World,
    context: RoomContext,
    room: Seq<char>,
    need_join: bool,
    conflict: JsonMergeError,
)
    requires
        world(RequestView::PowerLevels { room }) matches Reply::PowerLevels(Ok(_)),
        world(RequestView::Tags { of: UserKind::Old, room }) is Tags,
        world(RequestView::Tags { of: UserKind::New, room }) is Tags,
        !need_join || room_outcome(world, context, room, need_join).join,
    ensures
        ({
            let plan = room_outcome(world, context, room, need_join);
            match world(RequestView::Tags { of: UserKind::Old, room })->Tags_0 {
                Err(error) => plan.account_data is None && plan.errors.contains(
                    RoomPlanError::RoomTagsFailed(RoomTagsPlanError::GetEvent(UserKind::Old, error)),
                ),
                Ok(None) => plan.account_data is None && !plan.errors.contains(
                    RoomPlanError::RoomTagMerge(conflict),
                ),
                Ok(Some(old)) => match world(
                    RequestView::Tags { of: UserKind::New, room },
                )->Tags_0 {
                    Err(error) => plan.account_data is None && plan.errors.contains(
                        RoomPlanError::RoomTagsFailed(
                            RoomTagsPlanError::GetEvent(UserKind::New, error),
                        ),
                    ),
                    Ok(new) => {
                        let new = members_or_none(new);
                        &&& plan.account_data == if old@.adds_to(TAGS_MEMBER@, new) {
                            Some(old@.merged(TAGS_MEMBER@, new))
                        } else {
                            None
                        }
                        &&& plan.errors.contains(RoomPlanError::RoomTagMerge(conflict))
                            <==> old.errors(TAGS_MEMBER@, new).contains(conflict)
                    },
                },
            }
        }),
{
    let merge = RoomPlanError::RoomTagMerge(conflict);
    let problems = tag_problems(world, room);
    lemma_listed(world, context, room, need_join, merge);
    lemma_named_errors(world, context, room, need_join, merge);
    if problems.len() > 0 {
        assert(problems.contains(problems[0]));
        lemma_listed(world, context, room, need_join, problems[0]);
        lemma_named_errors(world, context, room, need_join, problems[0]);
    }
    if let Reply::Tags(Ok(Some(old))) = world(RequestView::Tags { of: UserKind::Old, room }) {
        if let Reply::Tags(Ok(new)) = world(RequestView::Tags { of: UserKind::New, room }) {
            let conflicts = old.errors(TAGS_MEMBER@, members_or_none(new));
            if conflicts.contains(conflict) {
                let i = choose|i: int| 0 <= i < conflicts.len() && conflicts[i] == conflict;
                assert(problems[i] == merge);
            }
            if problems.contains(merge) {
                let i = choose|i: int| 0 <= i < problems.len() && problems[i] == merge;
                assert(conflicts[i] == conflict);
            }
        }
    }
}

/// Where the new user is in the room in the end, it is reported exactly if they may not see
/// messages from before they came, along with whether they were in the room already, or if that
/// could not be found out. Without such a setting, or if everybody who joins or everybody at all
/// can see the messages, nothing is reported.
pub proof fn law_hidden_history_is_reported(
    world: World,
    context: RoomContext,
    room: Seq<char>,
    need_join: bool,
    visibility: HistoryVisibility,
    already_joined: bool,
)
    requires
        world(RequestView::PowerLevels { room }) matches Reply::PowerLevels(Ok(_)),
        world(RequestView::HistoryVisibility { room }) is HistoryVisibility,
        !need_join || room_outcome(world, context, room, need_join).join,
    ensures
        ({
            let plan = room_outcome(world, context, room, need_join);
            let read = world(RequestView::HistoryVisibility { room })->HistoryVisibility_0;
            &&& read matches Err(error) ==> plan.errors.contains(
                RoomPlanError::GetHistoryVisibility(error),
            )
            &&& plan.errors.contains(
                RoomPlanError::RestrictedHistoryVisibility { visibility, already_joined },
            ) <==> {
                &&& read == Ok::<_, AccessError>(Some(visibility))
                &&& !(visibility is WorldReadable) && !(visibility is Shared)
                &&& already_joined == !need_join
            }
        }),
{
    let error = RoomPlanError::RestrictedHistoryVisibility { visibility, already_joined };
    let problems = history_problems(world, room, need_join);
    lemma_listed(world, context, room, need_join, error);
    lemma_named_errors(world, context, room, need_join, error);
    if problems.len() > 0 {
        assert(problems.contains(problems[0]));
        lemma_listed(world, context, room, need_join, problems[0]);
        lemma_named_errors(world, context, room, need_join, problems[0]);
    }
    if tag_problems(world, room).contains(error) {
        lemma_tag_problems(world, room, error);
    }
}

/// A room is left exactly if that is wanted and there is nothing to report about it, except maybe
/// that its alias could not be read.
pub proof fn law_migrated_rooms_are_left(
    world: World,
    context: RoomContext,
    room: Seq<char>,
    need_join: bool,
)
    ensures
        ({
            let plan = room_outcome(world, context, room, need_join);
            plan.leave <==> context.leave && forall|i: int|
                0 <= i < plan.errors.len() ==> (#[trigger] plan.errors[i]) is GetAlias
        }),
{
    let plan = room_outcome(world, context, room, need_join);
    let unnamed = unnamed_outcome(world, context, room, need_join);
    if unnamed.errors.len() > 0 {
        let first = unnamed.errors[0];
        assert(unnamed.errors.contains(first));
        lemma_listed(world, context, room, need_join, first);
        if tag_problems(world, room).contains(first) {
            lemma_tag_problems(world, room, first);
        }
        assert(!(first is GetAlias));
        assert(plan.errors[0] == first);
    }
}

/// A room that there is anything to do or to say about is shown with its alias, or with why its
/// alias is not known; and a room that there is nothing to do or to say about has neither.
pub proof fn law_listed_rooms_are_named(
    world: World,
    context: RoomContext,
    room: Seq<char>,
    need_join: bool,
)
    requires
        world(RequestView::Alias { room }) is Alias,
    ensures
        ({
            let plan = room_outcome(world, context, room, need_join);
            if changes_nothing(plan) && plan.errors.len() == 0 {
                plan.alias is None
            } else {
                match world(RequestView::Alias { room })->Alias_0 {
                    Ok(alias) => plan.alias == alias,
                    Err(error) => plan.alias is None && plan.errors.len() > 0
                        && plan.errors.last() == RoomPlanError::GetAlias(error),
                }
            }
        }),
{
}

/// Nothing is reported that the server did not give cause for.
pub proof fn law_errors_have_causes(
    world: World,
    context: RoomContext,
    room: Seq<char>,
    need_join: bool,
    error: RoomPlanError,
)
    requires
        answers_all(world),
        room_outcome(world, context, room, need_join).errors.contains(error),
    ensures
        ({
            let user = context.new_user@;
            match error {
                RoomPlanError::GetAlias(cause) => world(RequestView::Alias { room })
                    == Reply::Alias(Err(cause)),
                RoomPlanError::GetJoinRule(cause) => need_join && world(
                    RequestView::JoinRule { room },
                ) == Reply::JoinRule(Err(cause)),
                RoomPlanError::GetMembership(cause) => need_join && world(
                    RequestView::Membership { room, user },
                ) == Reply::Membership(Err(cause)),
                RoomPlanError::GetPowerLevels(cause) => world(RequestView::PowerLevels { room })
                    == Reply::PowerLevels(Err(cause)),
                RoomPlanError::GetServerAcl(cause) => need_join && world(
                    RequestView::ServerAcl { room },
                ) == Reply::ServerAcl(Err(cause)),
                RoomPlanError::CannotInvite => need_join && world(
                    RequestView::Membership { room, user },
                ) != Reply::Membership(Ok(Some(Membership::Invite))) && world(
                    RequestView::JoinRule { room },
                ) != Reply::JoinRule(Ok(Some(JoinRule::Public))),
                RoomPlanError::Banned => need_join && world(
                    RequestView::Membership { room, user },
                ) == Reply::Membership(Ok(Some(Membership::Ban))),
                RoomPlanError::AclBanned => need_join && (world(
                    RequestView::ServerAcl { room },
                ) matches Reply::ServerAcl(Ok(Some(acl))) && !acl_admits(
                    acl.allow_ip_literals,
                    texts(acl.allow@),
                    texts(acl.deny@),
                    after_colon(user)->0,
                )),
                RoomPlanError::RoomTagsFailed(RoomTagsPlanError::GetEvent(of, cause)) => world(
                    RequestView::Tags { of, room },
                ) == Reply::Tags(Err(cause)),
                RoomPlanError::CopyPowerLevel { .. } => world(
                    RequestView::PowerLevels { room },
                ) matches Reply::PowerLevels(Ok(levels)) && !levels.may_change_level(
                    context.old_user@,
                    user,
                ),
                RoomPlanError::GetHistoryVisibility(cause) => world(
                    RequestView::HistoryVisibility { room },
                ) == Reply::HistoryVisibility(Err(cause)),
                RoomPlanError::RestrictedHistoryVisibility { visibility, .. } => world(
                    RequestView::HistoryVisibility { room },
                ) == Reply::HistoryVisibility(Ok(Some(visibility))),
                RoomPlanError::RoomTagMerge(_) => world(
                    RequestView::Tags { of: UserKind::Old, room },
                ) matches Reply::Tags(Ok(Some(_))),
            }
        }),
{
    lemma_listed(world, context, room, need_join, error);
    lemma_named_errors(world, context, room, need_join, error);
    lemma_answered(world, context, room);
    let problems = tag_problems(world, room);
    if problems.contains(error) {
        lemma_tag_problems(world, room, error);
        let i = choose|i: int| 0 <= i < problems.len() && problems[i] == error;
    }
}

proof fn lemma_answered(world: World, context: RoomContext, room: Seq<char>)
    requires
        answers_all(world),
    ensures
        world(RequestView::PowerLevels { room }) is PowerLevels,
        world(RequestView::Membership { room, user: context.new_user@ }) is Membership,
        world(RequestView::ServerAcl { room }) is ServerAcl,
        world(RequestView::JoinRule { room }) is JoinRule,
        world(RequestView::Tags { of: UserKind::Old, room }) is Tags,
        world(RequestView::Tags { of: UserKind::New, room }) is Tags,
        world(RequestView::HistoryVisibility { room }) is HistoryVisibility,
        world(RequestView::Alias { room }) is Alias,
{
    let levels = RequestView::PowerLevels { room };
    assert(answers(levels, world(levels)));
    let membership = RequestView::Membership { room, user: context.new_user@ };
    assert(answers(membership, world(membership)));
    let acl = RequestView::ServerAcl { room };
    assert(answers(acl, world(acl)));
    let rule = RequestView::JoinRule { room };
    assert(answers(rule, world(rule)));
    let old = RequestView::Tags { of: UserKind::Old, room };
    assert(answers(old, world(old)));
    let new = RequestView::Tags { of: UserKind::New, room };
    assert(answers(new, world(new)));
    let history = RequestView::HistoryVisibility { room };
    assert(answers(history, world(history)));
    let alias = RequestView::Alias { room };
    assert(answers(alias, world(alias)));
}

} // verus!
