use matrix_user_swap::execute::{
    Action, Event, Executor, Failure, GlobalData, PowerLevelError, RoomError, RoomStep, Stage,
    JOIN_DELAY_MILLIS,
};
use matrix_user_swap::ids::UserId;
use matrix_user_swap::json::{object_to_text, JsonMap};
use matrix_user_swap::members::Members;
use matrix_user_swap::plan::{DirectMap, Plan, RoomPlan};
use matrix_user_swap::power_levels::{
    effective_power_levels, AuthorizationRules, PowerLevels, PowerLevelsContent,
};
use matrix_user_swap::state::AccessError;
use matrix_user_swap::text_map::TextMap;

fn plan(rooms: Vec<(&str, RoomPlan)>) -> Plan {
    let mut map = TextMap::new();
    for (id, room) in rooms {
        map.insert(id.to_string(), room);
    }
    Plan {
        old_user_id: UserId::parse("@old:old.org".to_string()).unwrap(),
        new_user_id: UserId::parse("@new:new.org".to_string()).unwrap(),
        rooms: map,
        direct: None,
        ignored_users: None,
        errors: vec![],
    }
}

fn members(name: &str, key: &str) -> Option<Members> {
    let mut inner = JsonMap::new();
    inner.insert(key.to_string(), "{}".to_string());
    let mut object = JsonMap::new();
    object.insert(name.to_string(), object_to_text(&inner));
    Some(Members { object, inner: Some(inner) })
}

fn full_room() -> RoomPlan {
    RoomPlan {
        invite: true,
        join: true,
        leave: true,
        power_level: Some(50),
        account_data: members("tags", "u.a"),
        ..RoomPlan::default()
    }
}

fn full_plan() -> Plan {
    let mut direct = DirectMap::new();
    direct.insert("@f:x".to_string(), vec!["!a:x".to_string()]);
    Plan {
        direct: Some(direct),
        ignored_users: members("ignored_users", "@t:x"),
        ..plan(vec![
            ("!a:x", full_room()),
            ("!b:x", RoomPlan { join: true, leave: true, ..RoomPlan::default() }),
        ])
    }
}

fn levels() -> PowerLevels {
    let mut users = TextMap::new();
    users.insert("@old:old.org".to_string(), 50);
    let content = PowerLevelsContent {
        ban: 50,
        events: TextMap::new(),
        events_default: 0,
        invite: 0,
        kick: 50,
        redact: 50,
        state_default: 50,
        users,
        users_default: 0,
    };
    effective_power_levels(Some(content), AuthorizationRules::V11, vec![])
}

fn describe(action: &Action) -> String {
    match action {
        Action::Invite { room, user } => format!("invite {user} {room}"),
        Action::WaitForInvite { room } => format!("wait {room}"),
        Action::Sleep { millis } => format!("sleep {millis}"),
        Action::Join { room, via } => format!("join {room} via {via}"),
        Action::ReadPowerLevels { room } => format!("read {room}"),
        Action::WritePowerLevels { room, levels } => {
            let users: Vec<String> = (0..levels.users.len())
                .map(|i| format!("{}={}", levels.users.key_at(i), levels.users.value_at(i)))
                .collect();
            format!("write {room} {}", users.join(","))
        }
        Action::SetTags { room, content } => format!("tags {room} {content}"),
        Action::SetGlobal { data, content } => format!("{} {content}", data.event_type()),
        Action::Leave { room } => format!("leave {room}"),
    }
}

/// Runs a plan. Actions whose description starts with one of the given words and rooms fail.
fn run(plan: Plan, failing: &[&str]) -> (Vec<String>, Executor) {
    let mut done = vec![];
    let (mut executor, mut next) = Executor::start(plan);
    while let Some(action) = next {
        let description = describe(&action);
        let fails = failing.iter().any(|failing| description.starts_with(failing));
        let error = AccessError { messages: vec![description.clone()] };
        done.push(description);
        let event = match action {
            Action::ReadPowerLevels { .. } if fails => Event::PowerLevels(Err(error)),
            Action::ReadPowerLevels { .. } => Event::PowerLevels(Ok(levels())),
            _ if fails => Event::Finished(Err(error)),
            _ => Event::Finished(Ok(())),
        };
        let resumed = executor.resume(event);
        executor = resumed.0;
        next = resumed.1;
    }
    (done, executor)
}

const DIRECT: &str = "m.direct {\"@f:x\":[\"!a:x\"]}";
const IGNORED: &str = "m.ignored_user_list {\"ignored_users\":{\"@t:x\":{}}}";

#[test]
fn everything_is_done_in_order() {
    let (done, executor) = run(full_plan(), &[]);
    assert_eq!(
        done,
        vec![
            "invite @new:new.org !a:x",
            "wait !a:x",
            "sleep 200",
            "join !a:x via old.org",
            "read !a:x",
            "write !a:x @new:new.org=50,@old:old.org=50",
            "tags !a:x {\"tags\":{\"u.a\":{}}}",
            "join !b:x via old.org",
            DIRECT,
            IGNORED,
            "leave !a:x",
            "leave !b:x",
        ]
    );
    assert_eq!(JOIN_DELAY_MILLIS, 200);
    assert_eq!(executor.stage(), Stage::Done);
    assert!(executor.result().is_ok());
    assert!(!executor.keeps_rooms());
    assert!(!executor.keeps_room(0) && !executor.keeps_room(1));
    assert_eq!(executor.plan().rooms.len(), 2);
}

#[test]
fn an_empty_plan_is_done_at_once() {
    let (done, executor) = run(plan(vec![("!a:x", RoomPlan::default())]), &[]);
    assert!(done.is_empty());
    assert!(executor.result().is_ok());
}

#[test]
fn a_room_that_cannot_be_entered_is_given_up() {
    for (failing, steps) in [("invite", 1), ("wait", 2), ("join !a", 4)] {
        let (done, executor) = run(full_plan(), &[failing]);
        assert_eq!(
            done[steps..],
            ["join !b:x via old.org", DIRECT, IGNORED, "leave !b:x"]
        );
        assert_eq!(executor.result().err().unwrap().error_count, 1);
        assert!(executor.keeps_room(0) && !executor.keeps_room(1));
        match &executor.failures()[..] {
            [Failure::Room { room, error }] => {
                assert_eq!(room, "!a:x");
                assert!(match failing {
                    "invite" => matches!(error, RoomError::Invite(_)),
                    "wait" => matches!(error, RoomError::WaitInvite(_)),
                    _ => matches!(error, RoomError::Join(_)),
                });
            }
            _ => panic!("the failure should be listed"),
        }
    }
}

#[test]
fn other_failures_do_not_stop_a_room() {
    let (done, executor) = run(full_plan(), &["read"]);
    assert_eq!(done[4..6], ["read !a:x", "tags !a:x {\"tags\":{\"u.a\":{}}}"]);
    assert!(matches!(
        executor.failures()[..],
        [Failure::Room { error: RoomError::PowerLevel(PowerLevelError::Read(_)), .. }]
    ));
    assert!(!done.contains(&"leave !a:x".to_string()));
    assert!(done.contains(&"leave !b:x".to_string()));

    let (done, executor) = run(full_plan(), &["write", "tags"]);
    assert_eq!(done[7], "join !b:x via old.org");
    assert!(matches!(
        executor.failures()[..],
        [
            Failure::Room { error: RoomError::PowerLevel(PowerLevelError::Write(_)), .. },
            Failure::Room { error: RoomError::Tags(_), .. },
        ]
    ));
    assert_eq!(executor.result().err().unwrap().error_count, 2);
    assert!(!done.contains(&"leave !a:x".to_string()));
}

#[test]
fn a_room_that_should_not_be_left_is_not_kept() {
    let room = RoomPlan { leave: false, ..full_room() };
    let (done, executor) = run(plan(vec![("!a:x", room)]), &["tags"]);
    assert_eq!(executor.failures().len(), 1);
    assert!(!executor.keeps_room(0));
    assert!(!done.contains(&"leave !a:x".to_string()));
}

#[test]
fn no_room_is_left_if_global_data_failed() {
    for failing in ["m.direct", "m.ignored"] {
        let (done, executor) = run(full_plan(), &[failing]);
        assert_eq!(done.last().unwrap(), IGNORED);
        assert!(executor.keeps_rooms());
        assert_eq!(executor.result().err().unwrap().error_count, 1);
        match &executor.failures()[..] {
            [Failure::Global { data, .. }] => assert_eq!(
                *data,
                if failing == "m.direct" { GlobalData::Direct } else { GlobalData::IgnoredUsers }
            ),
            _ => panic!("the failure should be listed"),
        }
    }
}

#[test]
fn a_room_that_cannot_be_left_counts() {
    let (done, executor) = run(full_plan(), &["leave !a"]);
    assert_eq!(done.last().unwrap(), "leave !b:x");
    assert!(matches!(
        executor.failures()[..],
        [Failure::Room { error: RoomError::Leave(_), .. }]
    ));
    // The room was not kept on purpose.
    assert!(!executor.keeps_room(0));
    assert_eq!(executor.result().err().unwrap().error_count, 1);
}

#[test]
fn power_levels_that_list_a_creator_break_the_execution() {
    let room = RoomPlan { power_level: Some(10), ..RoomPlan::default() };
    let (executor, action) = Executor::start(plan(vec![("!a:x", room)]));
    assert!(matches!(action, Some(Action::ReadPowerLevels { .. })));
    assert_eq!(
        executor.stage(),
        Stage::Room { at: 0, step: RoomStep::ReadPowerLevels }
    );
    let mut users = TextMap::new();
    users.insert("@c:x".to_string(), 100);
    let listed = PowerLevels {
        content: PowerLevelsContent { users, ..levels().content },
        privileged_creators: Some(vec!["@c:x".to_string()]),
    };
    let (executor, action) = executor.resume(Event::PowerLevels(Ok(listed)));
    assert!(action.is_none());
    assert_eq!(executor.stage(), Stage::Broken);
}
