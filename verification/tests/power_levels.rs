use matrix_user_swap::ids::UserId;
use matrix_user_swap::power_levels::{
    effective_power_levels, get_authorization_rules, room_creators, AuthorizationRules, PowerLevels,
    PowerLevelsContent, RoomCreate, UserPowerLevel, MAX_POWER_LEVEL,
};
use matrix_user_swap::state::{get_power_levels, AccessError};
use matrix_user_swap::text_map::TextMap;
use ruma::events::room::power_levels::{
    RedactedRoomPowerLevelsEventContent, RoomPowerLevels, RoomPowerLevelsEventContent,
    RoomPowerLevelsSource, UserPowerLevel as RumaLevel,
};
use ruma::room_version_rules::AuthorizationRules as RumaRules;

const USERS: [&str; 4] = ["@owner:x.org", "@admin:x.org", "@mod:x.org", "@nobody:x.org"];

fn content_from(redacted: &RedactedRoomPowerLevelsEventContent) -> PowerLevelsContent {
    let mut events = TextMap::new();
    for (kind, level) in &redacted.events {
        events.insert(kind.to_string(), i64::from(*level));
    }
    let mut users = TextMap::new();
    for (user, level) in &redacted.users {
        users.insert(user.to_string(), i64::from(*level));
    }
    PowerLevelsContent {
        ban: redacted.ban.into(),
        events,
        events_default: redacted.events_default.into(),
        invite: redacted.invite.into(),
        kick: redacted.kick.into(),
        redact: redacted.redact.into(),
        state_default: redacted.state_default.into(),
        users,
        users_default: redacted.users_default.into(),
    }
}

fn ruma_rules(version: Option<&str>) -> RumaRules {
    match get_authorization_rules(version) {
        AuthorizationRules::V1 => RumaRules::V1,
        AuthorizationRules::V3 => RumaRules::V3,
        AuthorizationRules::V6 => RumaRules::V6,
        AuthorizationRules::V7 => RumaRules::V7,
        AuthorizationRules::V8 => RumaRules::V8,
        AuthorizationRules::V10 => RumaRules::V10,
        AuthorizationRules::V11 => RumaRules::V11,
        AuthorizationRules::V12 => RumaRules::V12,
    }
}

fn both(content: Option<&str>, version: Option<&str>, creators: &[&str]) -> (PowerLevels, RoomPowerLevels) {
    let redacted: Option<RedactedRoomPowerLevelsEventContent> =
        content.map(|content| serde_json::from_str(content).unwrap());
    let ours = effective_power_levels(
        redacted.as_ref().map(content_from),
        get_authorization_rules(version),
        creators.iter().map(|user| user.to_string()).collect(),
    );
    let creators: Vec<ruma::OwnedUserId> =
        creators.iter().map(|user| ruma::UserId::parse(user).unwrap()).collect();
    let theirs = RoomPowerLevels::new(
        RoomPowerLevelsSource::from(redacted),
        &ruma_rules(version),
        creators,
    );
    (ours, theirs)
}

fn same_level(ours: UserPowerLevel, theirs: RumaLevel) -> bool {
    match (ours, theirs) {
        (UserPowerLevel::Infinite, RumaLevel::Infinite) => true,
        (UserPowerLevel::Int(ours), RumaLevel::Int(theirs)) => ours == i64::from(theirs),
        _ => false,
    }
}

#[test]
fn rules_agree_with_those_of_rooms() {
    let contents = [
        None,
        Some("{}"),
        Some("{\"users\": {\"@admin:x.org\": 100, \"@mod:x.org\": 50}, \"invite\": 50}"),
        Some(
            "{\"users\": {\"@admin:x.org\": 100, \"@mod:x.org\": 100, \"@nobody:x.org\": -10}, \
             \"users_default\": 60, \"events\": {\"m.room.power_levels\": 75}}",
        ),
        Some("{\"users\": {\"@owner:x.org\": 10}, \"state_default\": 0, \"invite\": 11}"),
    ];
    let versions = [None, Some("1"), Some("5"), Some("10"), Some("11"), Some("12"), Some("odd")];
    for content in contents {
        for version in versions {
            let (ours, theirs) = both(content, version, &["@owner:x.org"]);
            for acting in USERS {
                let acting_id = ruma::UserId::parse(acting).unwrap();
                assert!(same_level(ours.for_user(acting), theirs.for_user(&acting_id)));
                assert_eq!(ours.user_can_invite(acting), theirs.user_can_invite(&acting_id));
                for target in USERS {
                    let target_id = ruma::UserId::parse(target).unwrap();
                    assert_eq!(
                        ours.user_can_change_user_power_level(acting, target),
                        theirs.user_can_change_user_power_level(&acting_id, &target_id)
                    );
                    assert_eq!(
                        ours.for_user(acting).less(ours.for_user(target)),
                        theirs.for_user(&acting_id) < theirs.for_user(&target_id)
                    );
                }
            }
            let sendable = RoomPowerLevelsEventContent::try_from(theirs).is_ok();
            let user = UserId::parse("@nobody:x.org".to_string()).unwrap();
            let content = ours.with_user_level(&user, 42);
            assert_eq!(content.is_some(), sendable);
            if let Some(content) = content {
                assert_eq!(content.users.get("@nobody:x.org"), Some(&42));
            }
        }
    }
}

#[test]
fn a_level_that_is_set_leaves_the_rest() {
    let (ours, _) = both(
        Some("{\"ban\": 1, \"kick\": 2, \"redact\": 3, \"invite\": 4, \"events_default\": 5, \
              \"state_default\": 6, \"users_default\": 7, \"events\": {\"m.room.name\": 8}, \
              \"users\": {\"@admin:x.org\": 100}}"),
        Some("11"),
        &[],
    );
    let user = UserId::parse("@mod:x.org".to_string()).unwrap();
    let content = ours.with_user_level(&user, 50).unwrap();
    assert_eq!(
        (content.ban, content.kick, content.redact, content.invite),
        (1, 2, 3, 4)
    );
    assert_eq!(
        (content.events_default, content.state_default, content.users_default),
        (5, 6, 7)
    );
    assert_eq!(content.events.into_entries(), vec![("m.room.name".to_string(), 8)]);
    assert_eq!(
        content.users.into_entries(),
        vec![("@admin:x.org".to_string(), 100), ("@mod:x.org".to_string(), 50)]
    );
}

#[test]
fn a_listed_creator_cannot_be_sent_back() {
    let (ours, _) = both(
        Some("{\"users\": {\"@owner:x.org\": 100}}"),
        Some("12"),
        &["@owner:x.org"],
    );
    let user = UserId::parse("@mod:x.org".to_string()).unwrap();
    assert!(ours.with_user_level(&user, 50).is_none());
}

#[test]
fn versions_have_their_rules() {
    let rules = |version| get_authorization_rules(Some(version));
    assert_eq!(rules("1"), AuthorizationRules::V1);
    assert_eq!(rules("2"), AuthorizationRules::V1);
    assert_eq!(rules("3"), AuthorizationRules::V3);
    assert_eq!(rules("4"), AuthorizationRules::V3);
    assert_eq!(rules("5"), AuthorizationRules::V3);
    assert_eq!(rules("6"), AuthorizationRules::V6);
    assert_eq!(rules("7"), AuthorizationRules::V7);
    assert_eq!(rules("8"), AuthorizationRules::V8);
    assert_eq!(rules("9"), AuthorizationRules::V8);
    assert_eq!(rules("10"), AuthorizationRules::V10);
    assert_eq!(rules("11"), AuthorizationRules::V11);
    assert_eq!(rules("12"), AuthorizationRules::V12);
    assert_eq!(rules("13"), AuthorizationRules::V11);
    assert_eq!(rules(""), AuthorizationRules::V11);
    assert_eq!(get_authorization_rules(None), AuthorizationRules::V11);
}

#[test]
fn creators_are_unlimited_in_version_twelve_only() {
    for version in ["1", "6", "11", "12"] {
        let create = RoomCreate {
            creator: Some("@owner:x.org".to_string()),
            additional_creators: vec!["@admin:x.org".to_string()],
        };
        let levels = get_power_levels(None, Ok(Some(create)), Ok(Some(version.to_string())));
        for user in ["@owner:x.org", "@admin:x.org"] {
            let level = levels.for_user(user);
            if version == "12" {
                assert_eq!(level, UserPowerLevel::Infinite);
                assert_eq!(level.as_int(), MAX_POWER_LEVEL);
                assert_eq!(i64::from(ruma::Int::MAX), MAX_POWER_LEVEL);
            } else {
                assert_eq!(level, UserPowerLevel::Int(100));
                assert_eq!(level.as_int(), 100);
            }
        }
        assert_eq!(levels.for_user("@nobody:x.org"), UserPowerLevel::Int(0));
    }
}

#[test]
fn what_cannot_be_read_counts_as_missing() {
    let error = || AccessError { messages: vec!["down".to_string()] };
    let levels = get_power_levels(None, Err(error()), Err(error()));
    assert!(levels.privileged_creators.is_none());
    assert_eq!(levels.for_user("@owner:x.org"), UserPowerLevel::Int(0));
    assert_eq!(levels.content.ban, 50);
    assert_eq!(levels.content.invite, 0);
    assert_eq!(room_creators(None), Vec::<String>::new());
    assert_eq!(
        room_creators(Some(RoomCreate {
            creator: None,
            additional_creators: vec!["@b:x".to_string(), "@a:x".to_string()],
        })),
        vec!["@b:x".to_string(), "@a:x".to_string()]
    );
}
