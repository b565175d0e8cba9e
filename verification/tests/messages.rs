use matrix_user_swap::execute::{Failure, GlobalData, PowerLevelError, RoomError};
use matrix_user_swap::ids::{UserId, UserKind};
use matrix_user_swap::json::JsonMergeError;
use matrix_user_swap::members::Members;
use matrix_user_swap::messages::{describe_history_visibility, display_with_sources};
use matrix_user_swap::plan::{
    DirectAccountDataPlanError, DirectMap, FatalPlanError, IgnoredUsersAccountDataPlanError, Plan,
    PlanError, RoomPlan, RoomPlanError, RoomTagsPlanError,
};
use matrix_user_swap::report::{print_column, print_plan, print_warnings, summarize_plan};
use matrix_user_swap::state::{AccessError, HistoryVisibility};
use matrix_user_swap::text_map::TextMap;

fn cause() -> AccessError {
    AccessError { messages: vec!["request failed".to_string(), "timeout".to_string()] }
}

fn conflict() -> JsonMergeError {
    JsonMergeError {
        key: "k".to_string(),
        old_value: "{ \"a\": 1 }".to_string(),
        new_value: "[ 2 ]".to_string(),
    }
}

#[test]
fn messages_are_joined() {
    let messages = |list: &[&str]| list.iter().map(|s| s.to_string()).collect::<Vec<_>>();
    assert_eq!(display_with_sources(&messages(&[]), "-"), "");
    assert_eq!(display_with_sources(&messages(&["a"]), "-"), "a");
    assert_eq!(display_with_sources(&messages(&["a", "b", "c"]), " - "), "a - b - c");
}

#[test]
fn messages_of_rooms() {
    let first = |error: RoomPlanError| error.messages()[0].clone();
    let count = |error: RoomPlanError| error.messages().len();
    assert_eq!(
        RoomPlanError::GetAlias(cause()).messages(),
        vec![
            "failed to get alias. This is mostly inconsequential, and just might make it harder \
             to identify the room in log messages.",
            "request failed",
            "timeout",
        ]
    );
    assert_eq!(first(RoomPlanError::GetJoinRule(cause())), "failed to get join rules");
    assert_eq!(
        first(RoomPlanError::GetMembership(cause())),
        "failed to get new user membership state"
    );
    assert_eq!(first(RoomPlanError::GetPowerLevels(cause())), "failed to get power levels");
    assert_eq!(first(RoomPlanError::GetServerAcl(cause())), "failed to get server ACL");
    assert_eq!(count(RoomPlanError::GetServerAcl(cause())), 3);
    assert_eq!(
        RoomPlanError::CannotInvite.messages(),
        vec!["room is invite-only, but old user does not have permission to invite new user"]
    );
    assert_eq!(
        RoomPlanError::Banned.to_text(),
        "new user is banned from room. Will not attempt to join"
    );
    assert_eq!(
        RoomPlanError::AclBanned.to_text(),
        "new user's server is ACL banned from room. Will not attempt to join"
    );
    assert_eq!(
        RoomPlanError::RoomTagsFailed(RoomTagsPlanError::GetEvent(UserKind::New, cause()))
            .messages(),
        vec![
            "cannot migrate room tags",
            "failed to get tags for new user",
            "request failed",
            "timeout",
        ]
    );
    assert_eq!(
        RoomPlanError::RoomTagMerge(conflict()).messages(),
        vec![
            "cannot migrate k tag. Both the old and new users have a tag with this key, but they \
             have different values. Old value is {\"a\":1}. New value is [2].",
        ]
    );
    assert_eq!(
        RoomPlanError::CopyPowerLevel { old_power_level: -5 }.messages(),
        vec!["old user does not have permission to copy their power level (-5) to new user"]
    );
    assert_eq!(
        RoomPlanError::GetHistoryVisibility(cause()).messages(),
        vec![
            "failed to get history visibility state. Unable to determine whether message history \
             visible to the old user in this room may be hidden from the new user and lost if the \
             old user leaves.",
        ]
    );
    let restricted = |already_joined| {
        RoomPlanError::RestrictedHistoryVisibility {
            visibility: HistoryVisibility::Joined,
            already_joined,
        }
        .to_text()
    };
    let text = "some of the message history visible to the old user may not be visible to the new \
                user, because the room has restricted visible message history to only messages \
                sent after a user restricted visible history to only messages that were sent \
                after a user joined. If the old user leaves this room, some message history may \
                be lost.";
    assert_eq!(restricted(false), text);
    assert_eq!(
        restricted(true),
        format!(
            "{text}The new user has already joined this room, but may have joined it later than \
             the old user."
        )
    );
}

#[test]
fn visibilities_are_described() {
    assert_eq!(
        describe_history_visibility(&HistoryVisibility::WorldReadable),
        "allows even users that are not in the room to see message history"
    );
    assert_eq!(
        describe_history_visibility(&HistoryVisibility::Shared),
        "allows users to see all message history after they join the room"
    );
    assert_eq!(
        describe_history_visibility(&HistoryVisibility::Invited),
        "restricts visible history to only messages that were sent after a user was invited"
    );
    assert_eq!(
        describe_history_visibility(&HistoryVisibility::Joined),
        "restricted visible history to only messages that were sent after a user joined"
    );
    assert_eq!(
        describe_history_visibility(&HistoryVisibility::Custom("a \"b\"\n".to_string())),
        "has an unrecognized history visibility setting \"a \\\"b\\\"\\n\""
    );
}

#[test]
fn messages_of_plans() {
    assert_eq!(
        PlanError::DirectAccountDataFailed(DirectAccountDataPlanError::GetEvent(
            UserKind::Old,
            cause()
        ))
        .messages(),
        vec![
            "cannot migrate direct message mapping",
            "failed to get direct message mapping for old user",
            "request failed",
            "timeout",
        ]
    );
    assert_eq!(
        PlanError::IgnoredUsersAccountDataFailed(IgnoredUsersAccountDataPlanError::GetEvent(
            UserKind::New,
            cause()
        ))
        .messages()[..2],
        ["cannot migrate ignored users list", "failed to get ignored users list for new user"]
    );
    assert_eq!(
        PlanError::IgnoredUserMerge(conflict()).messages(),
        vec![
            "old user and new user both have entries in the ignored users list for the user k, \
             but they have different values. The 1.12 spec doesn't specify any semantics for \
             these values, so the old user's entry cannot be merged into the new user's safely. \
             The old value is\n         {\"a\":1}. The new value is [2].",
        ]
    );
    assert_eq!(
        FatalPlanError::GetUserId(UserKind::Old, cause()).messages()[0],
        "failed to get user id for old user"
    );
    assert_eq!(
        conflict().to_text(),
        "key k cannot be merged because the old and new maps have different values. Old value \
         {\"a\":1}, new value [2]"
    );
}

#[test]
fn messages_of_failures() {
    let room = |error| Failure::Room { room: "!a:x".to_string(), error };
    assert_eq!(
        room(RoomError::Invite(cause())).report(),
        "failed to invite new user to room\n  request failed\n  timeout"
    );
    assert_eq!(
        room(RoomError::WaitInvite(cause())).messages()[0],
        "failed waiting for new user to receive invite to room"
    );
    assert_eq!(
        room(RoomError::Join(cause())).messages()[0],
        "failed to join room room as new user"
    );
    assert_eq!(
        room(RoomError::Leave(cause())).messages()[0],
        "failed to leave room room as old user"
    );
    assert_eq!(
        room(RoomError::PowerLevel(PowerLevelError::Read(cause()))).messages()[..2],
        [
            "failed copy old user's power level to new user",
            "failed to get current power levels state",
        ]
    );
    assert_eq!(
        room(RoomError::PowerLevel(PowerLevelError::Write(cause()))).messages()[1],
        "failed to set new power levels state"
    );
    assert_eq!(
        room(RoomError::Tags(cause())).messages()[0],
        "failed set m.tag account data event"
    );
    assert_eq!(
        Failure::Global { data: GlobalData::IgnoredUsers, cause: cause() }.messages(),
        vec![
            "failed to set m.ignored_user_list global account data event",
            "request failed",
            "timeout",
        ]
    );
}

fn plan() -> Plan {
    let mut tags = Members::new();
    tags.object.insert("tags".to_string(), "{}".to_string());
    let mut rooms = TextMap::new();
    rooms.insert(
        "!a:x".to_string(),
        RoomPlan {
            alias: Some("#\u{e9}:x".to_string()),
            invite: true,
            join: true,
            power_level: Some(-3),
            ..RoomPlan::default()
        },
    );
    rooms.insert(
        format!("!{}:x", "b".repeat(50)),
        RoomPlan {
            leave: true,
            account_data: Some(tags),
            errors: vec![RoomPlanError::Banned, RoomPlanError::GetServerAcl(cause())],
            ..RoomPlan::default()
        },
    );
    let mut direct = DirectMap::new();
    direct.insert("@f:x".to_string(), vec!["!a:x".to_string()]);
    Plan {
        old_user_id: UserId::parse("@old:x".to_string()).unwrap(),
        new_user_id: UserId::parse("@new:x".to_string()).unwrap(),
        rooms,
        direct: Some(direct),
        ignored_users: None,
        errors: vec![PlanError::DirectAccountDataFailed(DirectAccountDataPlanError::GetEvent(
            UserKind::Old,
            cause(),
        ))],
    }
}

#[test]
fn columns_are_aligned() {
    let mut out = String::new();
    print_column(&mut out, "join", true);
    print_column(&mut out, "join", false);
    print_column(&mut out, "leave", true);
    assert_eq!(out, "  join        leave");
}

const KEY: &str = "\nKey:
  errors: one or more errors were encountered, which may prevent completely migrating this room
  invite: the old user will invite the new user to this room
  join: the new user will join this room
  leave: the old user will leave this room
  power_level: the old user will promote the new user to their current power level
  tags: room tags (from the m.room.tags account data event) will be copied from the old user to \
  the new user
";

#[test]
fn plans_are_shown() {
    let long = format!("!{}:x", "b".repeat(50));
    let expected = format!(
        "Attempting to migrate the following rooms:\n\n\
         {:<48}{:8}  invite  join{:7}  power_level{:6}\n\
         {long}\n{:48}  errors{:8}{:6}  leave{:13}  tags\n\
         {KEY}\n\
         Migrating the following global account data events:\n  - m.direct\n\n\
         Encountered the following errors:\n\n  \
         cannot migrate direct message mapping\n    \
         failed to get direct message mapping for old user\n    request failed\n    timeout\n\n  \
         In room {long}:\n    \
         new user is banned from room. Will not attempt to join\n    \
         failed to get server ACL\n      request failed\n      timeout\n\n",
        "#\u{e9}:x", "", "", "", "", "", "", ""
    );
    assert_eq!(print_plan(&plan()), expected);
}

#[test]
fn a_plan_without_trouble_shows_none() {
    let plan = Plan {
        rooms: TextMap::new(),
        direct: None,
        ignored_users: None,
        errors: vec![],
        ..plan()
    };
    assert_eq!(
        print_plan(&plan),
        format!("Attempting to migrate the following rooms:\n\n{KEY}\n")
    );
    assert_eq!(
        summarize_plan(&plan),
        "New userid: @new:x\nRooms:\nGlobal account data:\n"
    );
}

#[test]
fn plans_are_summarized() {
    assert_eq!(
        summarize_plan(&plan()),
        format!(
            "New userid: @new:x\nRooms:\n  - !a:x (invite,join) [#\u{e9}:x] (power=-3)\n  \
             - !{}:x (leave)\nGlobal account data:\nm.direct: {{\"@f:x\":[\"!a:x\"]}}\n",
            "b".repeat(50)
        )
    );
}

#[test]
fn warnings_are_shown() {
    let text = print_warnings();
    assert!(text.starts_with(
        "Warning: the tool will only attempt to migrate the following account data event types. "
    ));
    assert!(text.contains(
        "for unrecognized types:\n - m.direct (global)\n - m.ignored_user_list (global)\n \
         - m.tag (per-room)\n\nWarning: the tool will warn about rooms"
    ));
    assert!(text.ends_with(
        "this check may have false negatives.\n\nWarning: the tool does not currently attempt to \
         migrate per-room avatars or displaynames.\n"
    ));
}
