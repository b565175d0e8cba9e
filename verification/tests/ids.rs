use matrix_user_swap::anonymize::{anonymize_plan, rename_rooms};
use matrix_user_swap::ids::{
    anonymize_room_alias, anonymize_room_id, numbered_room_alias, RoomIdentity, UserId, UserKind,
};
use matrix_user_swap::plan::{Plan, RoomPlan};
use matrix_user_swap::report::{print_overview, print_plan, ShownRoom};
use matrix_user_swap::state::{is_absent, ServerAcl};
use matrix_user_swap::text::{
    append_count, append_decimal, contains_str, same_str, sort_strings, str_less,
};
use matrix_user_swap::text_map::TextMap;

#[test]
fn user_ids_are_checked() {
    let user = UserId::parse("@old:x.org:8448".to_string()).unwrap();
    assert_eq!(user.as_str(), "@old:x.org:8448");
    assert_eq!(user.server_name(), "x.org:8448");
    assert_eq!(user.clone().as_str(), user.as_str());
    assert!(UserId::parse("old:x.org".to_string()).is_none());
    assert!(UserId::parse("@old".to_string()).is_none());
    assert!(UserId::parse("@old:".to_string()).is_none());
    assert!(UserId::parse("@o\0d:x.org".to_string()).is_none());
    // At most 255 bytes.
    let long = |length: usize| format!("@{}:x.org", "\u{e9}".repeat(length));
    assert_eq!(long(124).len(), 255);
    assert!(UserId::parse(long(124)).is_some());
    assert!(UserId::parse(long(125)).is_none());
    assert_eq!((UserKind::Old.name(), UserKind::New.name()), ("old", "new"));
}

fn is_random_room(room: &str, server: &str) -> bool {
    let local = room.strip_prefix('!').unwrap();
    let (local, name) = local.split_once(':').unwrap();
    local.len() == 18 && local.chars().all(|c| c.is_ascii_alphanumeric()) && name == server
}

#[test]
fn room_ids_are_made_up_on_the_same_server() {
    let room = anonymize_room_id("!secret:x.org:1").unwrap();
    assert!(is_random_room(&room, "x.org:1"));
    assert_ne!(anonymize_room_id("!secret:x.org:1").unwrap(), room);
    // Where there is no server, one stands in.
    let room = anonymize_room_id("!only-an-opaque-part").unwrap();
    assert!(is_random_room(&room, "invalid-server-name.com"));
}

#[test]
fn aliases_are_made_up_on_the_same_server() {
    assert_eq!(
        numbered_room_alias("#secret:x.org", 1023).as_deref(),
        Some("#alias-1023:x.org")
    );
    assert_eq!(numbered_room_alias("secret", 1), None);
    let alias = anonymize_room_alias("#secret:x.org").unwrap();
    let number = alias.strip_prefix("#alias-").unwrap().strip_suffix(":x.org").unwrap();
    assert!(number.parse::<u32>().unwrap() < 1024);
}

fn plan() -> Plan {
    let mut rooms = TextMap::new();
    rooms.insert(
        "!a:x.org".to_string(),
        RoomPlan {
            alias: Some("#a:y.org".to_string()),
            join: true,
            power_level: Some(7),
            ..RoomPlan::default()
        },
    );
    rooms.insert("!b:z.org".to_string(), RoomPlan { leave: true, ..RoomPlan::default() });
    Plan {
        old_user_id: UserId::parse("@old:x.org".to_string()).unwrap(),
        new_user_id: UserId::parse("@new:x.org".to_string()).unwrap(),
        rooms,
        direct: None,
        ignored_users: None,
        errors: vec![],
    }
}

#[test]
fn plans_are_anonymized() {
    let plan = plan();
    let names = anonymize_plan(&plan).unwrap();
    assert_eq!(names.len(), 2);
    assert!(is_random_room(&names[0].0, "x.org"));
    let alias = names[0].1.as_deref().unwrap();
    assert!(alias.starts_with("#alias-") && alias.ends_with(":y.org"));
    assert!(is_random_room(&names[1].0, "z.org"));
    assert_eq!(names[1].1, None);

    let shown = rename_rooms(&plan, &names);
    assert_eq!(shown.len(), 2);
    let joined = shown.get(&names[0].0).unwrap();
    assert_eq!(joined.alias, names[0].1);
    assert!(joined.plan.join && !joined.plan.leave);
    assert_eq!(joined.plan.power_level, Some(7));
    let left = shown.get(&names[1].0).unwrap();
    assert!(!left.plan.join && left.plan.leave);

    // Only the made-up names show, and the plan still has its own.
    let text = print_overview(&plan, &shown);
    assert!(text.contains(alias) && text.contains(&names[1].0));
    assert!(!text.contains("#a:y.org") && !text.contains("!b:z.org"));
    let text = print_plan(&plan);
    assert!(text.contains("#a:y.org") && text.contains("!b:z.org"));
}

#[test]
fn plans_with_unusable_aliases_are_not_anonymized() {
    let mut plan = plan();
    plan.rooms.insert(
        "!c:x.org".to_string(),
        RoomPlan { alias: Some("no alias".to_string()), ..RoomPlan::default() },
    );
    assert!(anonymize_plan(&plan).is_none());
}

#[test]
fn of_rooms_with_the_same_new_name_the_later_stays() {
    let names = vec![("!z:q".to_string(), None), ("!z:q".to_string(), Some("#n:q".to_string()))];
    let plan = plan();
    let shown = rename_rooms(&plan, &names);
    assert_eq!(shown.len(), 1);
    assert_eq!(shown.key_at(0), "!z:q");
    assert!(shown.value_at(0).plan.leave);
    assert_eq!(shown.value_at(0).alias.as_deref(), Some("#n:q"));
}

#[test]
fn rooms_under_their_own_names_are_shown_as_in_the_plan() {
    let plan = plan();
    let mut rooms = TextMap::new();
    for at in 0..plan.rooms.len() {
        let room = plan.rooms.value_at(at);
        rooms.insert(
            plan.rooms.key_at(at).clone(),
            ShownRoom { alias: room.alias.clone(), plan: room },
        );
    }
    assert_eq!(print_overview(&plan, &rooms), print_plan(&plan));
}

#[test]
fn rooms_are_identified() {
    let mut room = RoomIdentity { id: "!a:x".to_string(), alias: None };
    assert_eq!(room.to_text(), "!a:x");
    room.alias = Some("#a:x".to_string());
    assert_eq!(room.to_text(), "#a:x (!a:x)");
}

#[test]
fn server_lists_admit_servers() {
    let allowed = |allow: &[&str], deny: &[&str], ip: bool, user: &str| {
        ServerAcl {
            allow_ip_literals: ip,
            allow: allow.iter().map(|name| name.to_string()).collect(),
            deny: deny.iter().map(|name| name.to_string()).collect(),
        }
        .is_allowed(&UserId::parse(user.to_string()).unwrap())
    };
    assert!(allowed(&["*"], &[], true, "@u:x.org"));
    assert!(allowed(&["*.org"], &["y.org"], true, "@u:x.org:8448"));
    assert!(!allowed(&["*"], &["x.*"], true, "@u:x.org"));
    assert!(!allowed(&["y.org"], &[], true, "@u:x.org"));
    assert!(!allowed(&["*"], &[], false, "@u:127.0.0.1"));
    assert!(allowed(&["*"], &[], true, "@u:127.0.0.1"));
}

#[test]
fn missing_things_are_told_from_failures() {
    assert!(is_absent(true, None));
    assert!(is_absent(true, Some(500)));
    assert!(is_absent(false, Some(404)));
    assert!(!is_absent(false, Some(403)));
    assert!(!is_absent(false, None));
}

#[test]
fn strings_are_ordered_by_bytes() {
    let strings = |list: &[&str]| list.iter().map(|s| s.to_string()).collect::<Vec<_>>();
    assert_eq!(
        sort_strings(strings(&["b", "a\u{e9}", "", "a", "b", "az"])),
        strings(&["", "a", "az", "a\u{e9}", "b", "b"])
    );
    assert!(str_less("a", "ab") && !str_less("ab", "a") && !str_less("a", "a"));
    assert!(same_str("x", "x") && !same_str("x", "y"));
    assert!(contains_str(&strings(&["a", "b"]), "b"));
    assert!(!contains_str(&strings(&["a", "b"]), "c"));
}

#[test]
fn numbers_are_written_in_decimal() {
    for number in [0, 7, 10, -1, 1234567890, i64::MAX, i64::MIN] {
        let mut text = "n=".to_string();
        append_decimal(&mut text, number);
        assert_eq!(text, format!("n={number}"));
    }
    let mut text = String::new();
    append_count(&mut text, 42);
    assert_eq!(text, "42");
}
