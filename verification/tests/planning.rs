use matrix_user_swap::ids::{UserId, UserKind};
use matrix_user_swap::json::{array_object_to_text, JsonMap};
use matrix_user_swap::members::{Members, IGNORED_USERS_MEMBER, TAGS_MEMBER};
use matrix_user_swap::plan::{
    is_default, DirectAccountDataPlanError, DirectMap, FatalPlanError,
    IgnoredUsersAccountDataPlanError, Plan, PlanError, PlanSettings, Reply, Request, RoomPlan,
    RoomPlanError, RoomTagsPlanError,
};
use matrix_user_swap::planner::{Phase, Planner};
use matrix_user_swap::power_levels::{PowerLevelsContent, RoomCreate};
use matrix_user_swap::room::{RoomContext, RoomPlanner, RoomStage};
use matrix_user_swap::state::{
    get_power_levels, AccessError, HistoryVisibility, JoinRule, Membership, ServerAcl,
};
use matrix_user_swap::text_map::TextMap;
use ruma::events::room::power_levels::RedactedRoomPowerLevelsEventContent;
use serde_json::Value;
use std::collections::{BTreeMap, BTreeSet};

const OLD: &str = "@old:x.org";
const NEW: &str = "@new:x.org";

#[derive(Default)]
struct Mock {
    /// State events by room, type and key.
    state: BTreeMap<(String, String, String), Value>,
    /// Account data by user, room (or nothing) and type.
    data: BTreeMap<(String, String, String), Value>,
    /// What cannot be read.
    broken: BTreeSet<String>,
    asked: Vec<String>,
}

fn id_of(kind: UserKind) -> &'static str {
    match kind {
        UserKind::Old => OLD,
        UserKind::New => NEW,
    }
}

fn json_map(value: &Value) -> JsonMap {
    let mut map = JsonMap::new();
    for (key, value) in value.as_object().unwrap() {
        map.insert(key.clone(), value.to_string());
    }
    map
}

/// The content of an event that may hold an object under a name.
fn members(value: &Value, name: &str) -> Members {
    let inner = value.get(name).filter(|inner| inner.is_object()).map(json_map);
    Members { object: json_map(value), inner }
}

fn strings(value: &Value) -> Vec<String> {
    value.as_array().unwrap().iter().map(|item| item.as_str().unwrap().to_string()).collect()
}

fn levels_content(value: &Value) -> PowerLevelsContent {
    let redacted: RedactedRoomPowerLevelsEventContent =
        serde_json::from_value(value.clone()).unwrap();
    let mut events = TextMap::new();
    for (kind, level) in &redacted.events {
        events.insert(kind.to_string(), i64::from(*level));
    }
    let mut users = TextMap::new();
    for (user, level) in &redacted.users {
        users.insert(user.to_string(), i64::from(*level));
    }
    PowerLevelsContent {
        ban: redacted.ban.into(),
        events,
        events_default: redacted.events_default.into(),
        invite: redacted.invite.into(),
        kick: redacted.kick.into(),
        redact: redacted.redact.into(),
        state_default: redacted.state_default.into(),
        users,
        users_default: redacted.users_default.into(),
    }
}

impl Mock {
    fn set(&mut self, room: &str, kind: &str, key: &str, content: &str) -> &mut Mock {
        let content = serde_json::from_str(content).unwrap();
        self.state.insert((room.to_string(), kind.to_string(), key.to_string()), content);
        self
    }

    fn set_data(&mut self, user: &str, room: &str, kind: &str, content: &str) -> &mut Mock {
        let content = serde_json::from_str(content).unwrap();
        self.data.insert((user.to_string(), room.to_string(), kind.to_string()), content);
        self
    }

    fn join(&mut self, room: &str, user: &str) -> &mut Mock {
        self.set(room, "m.room.member", user, "{\"membership\": \"join\"}")
    }

    fn break_read(&mut self, what: &str) -> &mut Mock {
        self.broken.insert(what.to_string());
        self
    }

    fn get(&self, room: &str, kind: &str, key: &str) -> Option<&Value> {
        self.state.get(&(room.to_string(), kind.to_string(), key.to_string()))
    }

    fn get_data(&self, user: &str, room: &str, kind: &str) -> Option<&Value> {
        self.data.get(&(user.to_string(), room.to_string(), kind.to_string()))
    }

    fn check(&mut self, what: String) -> Result<(), AccessError> {
        let broken = self.broken.contains(&what);
        self.asked.push(what);
        if broken {
            Err(AccessError { messages: vec!["client api request failed".to_string()] })
        } else {
            Ok(())
        }
    }

    fn answer(&mut self, request: Request) -> Reply {
        match request {
            Request::UserId(of) => Reply::UserId(
                self.check(format!("user {}", of.name()))
                    .map(|_| UserId::parse(id_of(of).to_string()).unwrap()),
            ),
            Request::JoinedRooms(of) => {
                Reply::JoinedRooms(self.check(format!("rooms {}", of.name())).map(|_| {
                    // In descending order, to show that the planner does not depend on the order.
                    self.state
                        .iter()
                        .rev()
                        .filter(|((_, kind, key), content)| {
                            kind == "m.room.member"
                                && key == id_of(of)
                                && content["membership"] == Value::from("join")
                        })
                        .map(|((room, _, _), _)| room.clone())
                        .collect()
                }))
            }
            Request::PowerLevels { room } => {
                Reply::PowerLevels(self.check(format!("levels {room}")).map(|_| {
                    let content = self.get(&room, "m.room.power_levels", "").map(levels_content);
                    let create = self.get(&room, "m.room.create", "");
                    let version = create.and_then(|create| create["room_version"].as_str());
                    let create = create.map(|create| RoomCreate {
                        creator: create["creator"].as_str().map(str::to_string),
                        additional_creators: match &create["additional_creators"] {
                            Value::Null => vec![],
                            list => strings(list),
                        },
                    });
                    get_power_levels(content, Ok(create), Ok(version.map(str::to_string)))
                }))
            }
            Request::Membership { room, user } => {
                Reply::Membership(self.check(format!("member {room} {user}")).map(|_| {
                    let content = self.get(&room, "m.room.member", &user)?;
                    Some(match content["membership"].as_str().unwrap() {
                        "ban" => Membership::Ban,
                        "invite" => Membership::Invite,
                        "join" => Membership::Join,
                        "leave" => Membership::Leave,
                        _ => Membership::Other,
                    })
                }))
            }
            Request::ServerAcl { room } => {
                Reply::ServerAcl(self.check(format!("acl {room}")).map(|_| {
                    let content = self.get(&room, "m.room.server_acl", "")?;
                    Some(ServerAcl {
                        allow_ip_literals: true,
                        allow: strings(&content["allow"]),
                        deny: strings(&content["deny"]),
                    })
                }))
            }
            Request::JoinRule { room } => {
                Reply::JoinRule(self.check(format!("rule {room}")).map(|_| {
                    let content = self.get(&room, "m.room.join_rules", "")?;
                    Some(match content["join_rule"].as_str().unwrap() {
                        "public" => JoinRule::Public,
                        _ => JoinRule::Restricted,
                    })
                }))
            }
            Request::Tags { of, room } => Reply::Tags(
                self.check(format!("tags {} {room}", of.name())).map(|_| {
                    let content = self.get_data(id_of(of), &room, "m.tag")?;
                    Some(members(content, TAGS_MEMBER))
                }),
            ),
            Request::HistoryVisibility { room } => {
                Reply::HistoryVisibility(self.check(format!("history {room}")).map(|_| {
                    let content = self.get(&room, "m.room.history_visibility", "")?;
                    Some(match content["history_visibility"].as_str().unwrap() {
                        "invited" => HistoryVisibility::Invited,
                        "joined" => HistoryVisibility::Joined,
                        "shared" => HistoryVisibility::Shared,
                        "world_readable" => HistoryVisibility::WorldReadable,
                        other => HistoryVisibility::Custom(other.to_string()),
                    })
                }))
            }
            Request::Alias { room } => {
                Reply::Alias(self.check(format!("alias {room}")).map(|_| {
                    let content = self.get(&room, "m.room.canonical_alias", "")?;
                    content["alias"].as_str().map(str::to_string)
                }))
            }
            Request::Direct(of) => Reply::Direct(
                self.check(format!("direct {}", of.name())).map(|_| {
                    let content = self.get_data(id_of(of), "", "m.direct")?;
                    let mut map = DirectMap::new();
                    for (user, rooms) in content.as_object().unwrap() {
                        map.insert(user.clone(), strings(rooms));
                    }
                    Some(map)
                }),
            ),
            Request::IgnoredUsers(of) => Reply::IgnoredUsers(
                self.check(format!("ignored {}", of.name())).map(|_| {
                    let content = self.get_data(id_of(of), "", "m.ignored_user_list")?;
                    Some(members(content, IGNORED_USERS_MEMBER))
                }),
            ),
        }
    }

    fn run(&mut self, leave: bool) -> Phase {
        let mut planner = Planner::new(PlanSettings { leave });
        while let Some(request) = planner.request() {
            let reply = self.answer(request);
            planner = planner.resume(reply);
        }
        planner.phase
    }

    fn plan(&mut self) -> Plan {
        done(self.run(false))
    }
}

fn done(phase: Phase) -> Plan {
    match phase {
        Phase::Done { plan } => plan,
        _ => panic!("there should be a plan"),
    }
}

fn room<'a>(plan: &'a Plan, id: &str) -> &'a RoomPlan {
    plan.rooms.get(id).unwrap()
}

fn tags(plan: &RoomPlan) -> Option<String> {
    plan.account_data.as_ref().map(|tags| tags.to_text(TAGS_MEMBER))
}

fn ignored(plan: &Plan) -> Option<String> {
    plan.ignored_users.as_ref().map(|users| users.to_text(IGNORED_USERS_MEMBER))
}

/// A room that the old user owns.
fn owned() -> Mock {
    let mut mock = Mock::default();
    mock.join("!a:x.org", OLD).set(
        "!a:x.org",
        "m.room.power_levels",
        "",
        "{\"users\": {\"@old:x.org\": 100}}",
    );
    mock
}

#[test]
fn make_plan_tests() {
    // Nothing to migrate.
    let plan = Mock::default().plan();
    assert_eq!(plan.old_user_id.as_str(), OLD);
    assert_eq!(plan.new_user_id.as_str(), NEW);
    assert_eq!(plan.rooms.len(), 0);
    assert!(plan.direct.is_none());
    assert!(plan.ignored_users.is_none());
    assert!(plan.errors.is_empty());

    // A bit of everything.
    let mut mock = owned();
    mock.set("!a:x.org", "m.room.canonical_alias", "", "{\"alias\": \"#a:x.org\"}")
        .set_data(OLD, "!a:x.org", "m.tag", "{\"tags\": {\"m.favourite\": {}}}")
        .join("!b:x.org", OLD)
        .set("!b:x.org", "m.room.join_rules", "", "{\"join_rule\": \"public\"}")
        .join("!c:x.org", OLD)
        .join("!c:x.org", NEW)
        .set_data(
            OLD,
            "",
            "m.direct",
            "{\"@friend:x.org\": [\"!a:x.org\", \"!gone:x.org\"], \"@new:x.org\": [\"!c:x.org\"]}",
        )
        .set_data(OLD, "", "m.ignored_user_list", "{\"ignored_users\": {\"@troll:x.org\": {}}}");
    let plan = mock.plan();
    assert_eq!(plan.rooms.len(), 2);
    let a = room(&plan, "!a:x.org");
    assert_eq!(a.alias.as_deref(), Some("#a:x.org"));
    assert!(a.invite && a.join && !a.leave);
    assert_eq!(a.power_level, Some(100));
    assert_eq!(tags(a).as_deref(), Some("{\"tags\":{\"m.favourite\":{}}}"));
    assert!(a.errors.is_empty());
    let b = room(&plan, "!b:x.org");
    assert!(!b.invite && b.join && b.power_level.is_none() && tags(b).is_none());
    assert_eq!(
        array_object_to_text(plan.direct.as_ref().unwrap()),
        "{\"@friend:x.org\":[\"!a:x.org\"]}"
    );
    assert_eq!(
        ignored(&plan).as_deref(),
        Some("{\"ignored_users\":{\"@troll:x.org\":{}}}")
    );
    assert!(plan.errors.is_empty());
}

#[test]
fn rooms_are_asked_about_in_order() {
    let mut mock = owned();
    mock.join("!0:x.org", OLD).join("!0:x.org", NEW);
    mock.plan();
    assert_eq!(
        mock.asked,
        vec![
            "user old",
            "user new",
            "rooms old",
            "rooms new",
            "levels !0:x.org",
            "tags old !0:x.org",
            "history !0:x.org",
            "levels !a:x.org",
            "member !a:x.org @new:x.org",
            "acl !a:x.org",
            "rule !a:x.org",
            "tags old !a:x.org",
            "history !a:x.org",
            "alias !a:x.org",
            "direct old",
            "ignored old",
        ]
    );
}

#[test]
fn a_room_without_anything_to_do_is_left_out() {
    let mut mock = Mock::default();
    mock.join("!a:x.org", OLD).join("!a:x.org", NEW);
    assert_eq!(mock.plan().rooms.len(), 0);
    // But it can be left.
    let plan = done(mock.run(true));
    let a = room(&plan, "!a:x.org");
    assert!(a.leave && !a.join && !a.invite);
}

#[test]
fn only_fully_migrated_rooms_are_left() {
    let mut mock = owned();
    mock.join("!b:x.org", OLD)
        .set("!b:x.org", "m.room.history_visibility", "", "{\"history_visibility\": \"joined\"}")
        .join("!c:x.org", OLD)
        .set("!c:x.org", "m.room.member", NEW, "{\"membership\": \"ban\"}");
    let plan = done(mock.run(true));
    assert!(room(&plan, "!a:x.org").leave);
    assert!(!room(&plan, "!b:x.org").leave);
    assert!(!room(&plan, "!c:x.org").leave);
    // Trouble with the alias is inconsequential.
    mock.break_read("alias !a:x.org");
    let plan = done(mock.run(true));
    let a = room(&plan, "!a:x.org");
    assert!(a.leave);
    assert!(matches!(a.errors[..], [RoomPlanError::GetAlias(_)]));
    // Without the setting nothing is left.
    let plan = mock.plan();
    assert!(!room(&plan, "!a:x.org").leave);
}

#[test]
fn joining_needs_an_invitation_unless_there_is_one() {
    // The old user may not invite.
    let mut mock = Mock::default();
    mock.join("!a:x.org", OLD).set("!a:x.org", "m.room.power_levels", "", "{\"invite\": 50}");
    let plan = mock.plan();
    let a = room(&plan, "!a:x.org");
    assert!(matches!(a.errors[..], [RoomPlanError::CannotInvite]));
    assert!(!a.join && !a.invite && a.power_level.is_none());

    // That does not matter if the new user has been invited already.
    mock.set("!a:x.org", "m.room.member", NEW, "{\"membership\": \"invite\"}");
    let plan = mock.plan();
    let a = room(&plan, "!a:x.org");
    assert!(a.errors.is_empty());
    assert!(a.join && !a.invite);

    // Nor if the room is public.
    mock.set("!a:x.org", "m.room.member", NEW, "{\"membership\": \"leave\"}").set(
        "!a:x.org",
        "m.room.join_rules",
        "",
        "{\"join_rule\": \"public\"}",
    );
    let plan = mock.plan();
    let a = room(&plan, "!a:x.org");
    assert!(a.errors.is_empty());
    assert!(a.join && !a.invite);
}

#[test]
fn banned_users_do_not_join() {
    let mut mock = owned();
    mock.set("!a:x.org", "m.room.member", NEW, "{\"membership\": \"ban\"}");
    let plan = mock.plan();
    let a = room(&plan, "!a:x.org");
    assert!(matches!(a.errors[..], [RoomPlanError::Banned]));
    assert!(!a.join && !a.invite && a.power_level.is_none());

    let mut mock = owned();
    mock.set(
        "!a:x.org",
        "m.room.server_acl",
        "",
        "{\"allow\": [\"*\"], \"deny\": [\"x.*\"]}",
    );
    let plan = mock.plan();
    let a = room(&plan, "!a:x.org");
    assert!(matches!(a.errors[..], [RoomPlanError::AclBanned]));
    assert!(!a.join);

    mock.set(
        "!a:x.org",
        "m.room.server_acl",
        "",
        "{\"allow\": [\"*\"], \"deny\": [\"y.*\"]}",
    );
    assert!(room(&mock.plan(), "!a:x.org").join);
    mock.set("!a:x.org", "m.room.server_acl", "", "{\"allow\": [], \"deny\": []}");
    assert!(!room(&mock.plan(), "!a:x.org").join);
}

#[test]
fn admission_decides_how_planning_goes_on() {
    let context = RoomContext {
        old_user: UserId::parse(OLD.to_string()).unwrap(),
        new_user: UserId::parse(NEW.to_string()).unwrap(),
        leave: true,
    };
    let levels = || get_power_levels(None, Ok(None), Ok(None));
    let planner = RoomPlanner::new("!a:x.org".to_string(), true);
    let planner = planner.see_admission(&context, levels(), true, true);
    assert!(matches!(planner.stage, RoomStage::JoinRule { invited: true, .. }));
    assert!(planner.draft.errors.is_empty());
    let planner = RoomPlanner::new("!a:x.org".to_string(), true);
    let planner = planner.see_admission(&context, levels(), true, false);
    assert!(matches!(planner.stage, RoomStage::Alias));
    assert!(matches!(planner.draft.errors[..], [RoomPlanError::AclBanned]));
    assert!(!planner.draft.leave);
}

#[test]
fn a_migrated_room_is_only_left() {
    let mut mock = owned();
    mock.set_data(OLD, "!a:x.org", "m.tag", "{\"tags\": {\"u.one\": {}}}");
    let plan = mock.plan();
    assert!(room(&plan, "!a:x.org").join && tags(room(&plan, "!a:x.org")).is_some());
    // What the plan says has been done.
    mock.join("!a:x.org", NEW)
        .set(
            "!a:x.org",
            "m.room.power_levels",
            "",
            "{\"users\": {\"@old:x.org\": 100, \"@new:x.org\": 100}}",
        )
        .set_data(NEW, "!a:x.org", "m.tag", "{\"tags\": {\"u.one\": {}}}");
    assert_eq!(mock.plan().rooms.len(), 0);
    let plan = done(mock.run(true));
    let a = room(&plan, "!a:x.org");
    assert!(a.leave && !a.join && !a.invite && a.power_level.is_none() && tags(a).is_none());
}

#[test]
fn power_levels_are_copied_where_possible() {
    // The new user has a level that the old one may not change.
    let mut mock = Mock::default();
    mock.join("!a:x.org", OLD).join("!a:x.org", NEW).set(
        "!a:x.org",
        "m.room.power_levels",
        "",
        "{\"users\": {\"@old:x.org\": 40, \"@new:x.org\": 10}}",
    );
    let plan = mock.plan();
    let a = room(&plan, "!a:x.org");
    assert!(matches!(
        a.errors[..],
        [RoomPlanError::CopyPowerLevel { old_power_level: 40 }]
    ));
    assert_eq!(a.power_level, None);

    // The new user has at least the level of the old one.
    mock.set(
        "!a:x.org",
        "m.room.power_levels",
        "",
        "{\"users\": {\"@old:x.org\": 60, \"@new:x.org\": 60}}",
    );
    assert_eq!(mock.plan().rooms.len(), 0);

    mock.set(
        "!a:x.org",
        "m.room.power_levels",
        "",
        "{\"users\": {\"@old:x.org\": 60, \"@new:x.org\": 59}}",
    );
    assert_eq!(room(&mock.plan(), "!a:x.org").power_level, Some(60));
}

#[test]
fn the_level_of_a_creator_is_approximated() {
    let mut mock = Mock::default();
    mock.join("!a:x.org", OLD).set(
        "!a:x.org",
        "m.room.create",
        "",
        "{\"room_version\": \"12\", \"creator\": \"@old:x.org\"}",
    );
    let plan = mock.plan();
    assert_eq!(room(&plan, "!a:x.org").power_level, Some(9007199254740991));
    // Before version 12, creators have a level like any other.
    mock.set(
        "!a:x.org",
        "m.room.create",
        "",
        "{\"room_version\": \"10\", \"creator\": \"@old:x.org\"}",
    );
    assert_eq!(room(&mock.plan(), "!a:x.org").power_level, Some(100));
}

/// A room that both users are in, with the tags that each of them has given to it.
fn tagged(old: &str, new: &str) -> Mock {
    let mut mock = owned();
    mock.join("!a:x.org", NEW)
        .set("!a:x.org", "m.room.power_levels", "", "{}")
        .set_data(OLD, "!a:x.org", "m.tag", old)
        .set_data(NEW, "!a:x.org", "m.tag", new);
    mock
}

#[test]
fn tags_are_merged_tag_by_tag() {
    let mut mock = tagged("{\"tags\": {\"u.a\": {}}}", "{\"tags\": {\"u.b\": {}}}");
    let plan = mock.plan();
    let a = room(&plan, "!a:x.org");
    assert_eq!(tags(a).as_deref(), Some("{\"tags\":{\"u.a\":{},\"u.b\":{}}}"));
    assert!(a.errors.is_empty());
    // Once the new user has the tags of both, nothing is left to do.
    mock.set_data(NEW, "!a:x.org", "m.tag", "{\"tags\": {\"u.a\": {}, \"u.b\": {}}}");
    assert_eq!(mock.plan().rooms.len(), 0);
}

#[test]
fn tags_are_merged() {
    let mut mock = tagged(
        "{\"tags\": {\"u.one\": {}, \"u.two\": {\"order\": 0.2}, \"u.three\": {\"order\": 0.3}}}",
        "{\"tags\": {\"u.two\": {\"order\": 0.2}, \"u.three\": {\"order\": 0.4}}}",
    );
    let plan = mock.plan();
    let a = room(&plan, "!a:x.org");
    assert_eq!(
        tags(a).as_deref(),
        Some(
            "{\"tags\":{\"u.one\":{},\"u.three\":{\"order\":0.4},\"u.two\":{\"order\":0.2}}}"
        )
    );
    match &a.errors[..] {
        [RoomPlanError::RoomTagMerge(error)] => {
            assert_eq!(error.key, "u.three");
            assert_eq!(error.old_value, "{\"order\":0.3}");
            assert_eq!(error.new_value, "{\"order\":0.4}");
        }
        _ => panic!("the conflict should be reported"),
    }
    // Nothing to add.
    mock.set_data(OLD, "!a:x.org", "m.tag", "{\"tags\": {\"u.two\": {\"order\": 0.2}}}");
    assert_eq!(mock.plan().rooms.len(), 0);
}

#[test]
fn what_an_event_holds_besides_its_tags_is_merged_too() {
    let mut mock = tagged(
        "{\"tags\": {\"u.a\": {}}, \"a\": 0, \"x\": 1, \"y\": 2}",
        "{\"tags\": {\"u.a\": {}}, \"y\": 3}",
    );
    let plan = mock.plan();
    let a = room(&plan, "!a:x.org");
    assert_eq!(
        tags(a).as_deref(),
        Some("{\"a\":0,\"tags\":{\"u.a\":{}},\"x\":1,\"y\":3}")
    );
    match &a.errors[..] {
        [RoomPlanError::RoomTagMerge(error)] => assert_eq!(error.key, "y"),
        _ => panic!("the conflict should be reported"),
    }
}

#[test]
fn events_without_tags_are_merged_as_they_are() {
    // Nothing is added that neither user has.
    let plan = tagged("{\"x\": 1}", "{\"y\": 2}").plan();
    assert_eq!(tags(room(&plan, "!a:x.org")).as_deref(), Some("{\"x\":1,\"y\":2}"));
    // An empty object is copied like any other member.
    let plan = tagged("{\"tags\": {}}", "{\"y\": 2}").plan();
    assert_eq!(tags(room(&plan, "!a:x.org")).as_deref(), Some("{\"tags\":{},\"y\":2}"));
    let plan = tagged("{\"x\": 1}", "{\"tags\": {\"u.b\": {}}}").plan();
    assert_eq!(
        tags(room(&plan, "!a:x.org")).as_deref(),
        Some("{\"tags\":{\"u.b\":{}},\"x\":1}")
    );
    // What is not an object is compared as a whole.
    let plan = tagged("{\"tags\": 5}", "{\"tags\": {\"u.b\": {}}}").plan();
    let a = room(&plan, "!a:x.org");
    assert_eq!(tags(a), None);
    match &a.errors[..] {
        [RoomPlanError::RoomTagMerge(error)] => {
            assert_eq!(error.key, "tags");
            assert_eq!((error.old_value.as_str(), error.new_value.as_str()), ("5", "{\"u.b\":{}}"));
        }
        _ => panic!("the conflict should be reported"),
    }
    assert_eq!(tagged("{\"tags\": 5}", "{\"tags\": 5}").plan().rooms.len(), 0);
}

#[test]
fn restricted_history_is_reported() {
    for (setting, restricted) in [
        ("world_readable", false),
        ("shared", false),
        ("invited", true),
        ("joined", true),
        ("odd", true),
    ] {
        for joined in [false, true] {
            let mut mock = owned();
            mock.set("!a:x.org", "m.room.power_levels", "", "{}").set(
                "!a:x.org",
                "m.room.history_visibility",
                "",
                &format!("{{\"history_visibility\": \"{setting}\"}}"),
            );
            if joined {
                mock.join("!a:x.org", NEW);
            }
            let plan = mock.plan();
            let errors = plan.rooms.get("!a:x.org").map(|room| &room.errors[..]);
            match errors {
                Some([RoomPlanError::RestrictedHistoryVisibility { already_joined, .. }]) => {
                    assert!(restricted);
                    assert_eq!(*already_joined, joined);
                }
                Some([]) => assert!(!restricted && !joined),
                None => assert!(!restricted && joined),
                _ => panic!("unexpected errors"),
            }
        }
    }
}

#[test]
fn failed_reads_about_rooms_are_reported() {
    let plan_with = |what: &str| {
        let mut mock = owned();
        mock.set_data(OLD, "!a:x.org", "m.tag", "{\"tags\": {\"u.one\": {}}}").break_read(what);
        mock.plan()
    };
    let plan = plan_with("levels !a:x.org");
    assert!(matches!(room(&plan, "!a:x.org").errors[..], [RoomPlanError::GetPowerLevels(_)]));
    assert!(!room(&plan, "!a:x.org").join);
    let plan = plan_with("member !a:x.org @new:x.org");
    assert!(matches!(room(&plan, "!a:x.org").errors[..], [RoomPlanError::GetMembership(_)]));
    assert!(!room(&plan, "!a:x.org").join);
    let plan = plan_with("acl !a:x.org");
    assert!(matches!(room(&plan, "!a:x.org").errors[..], [RoomPlanError::GetServerAcl(_)]));
    assert!(!room(&plan, "!a:x.org").join);
    let plan = plan_with("rule !a:x.org");
    assert!(matches!(room(&plan, "!a:x.org").errors[..], [RoomPlanError::GetJoinRule(_)]));
    assert!(!room(&plan, "!a:x.org").join);
    // What follows does not keep the new user from joining.
    let plan = plan_with("tags old !a:x.org");
    assert!(matches!(
        room(&plan, "!a:x.org").errors[..],
        [RoomPlanError::RoomTagsFailed(RoomTagsPlanError::GetEvent(UserKind::Old, _))]
    ));
    assert!(room(&plan, "!a:x.org").join);
    let plan = plan_with("tags new !a:x.org");
    assert!(matches!(
        room(&plan, "!a:x.org").errors[..],
        [RoomPlanError::RoomTagsFailed(RoomTagsPlanError::GetEvent(UserKind::New, _))]
    ));
    assert!(room(&plan, "!a:x.org").join);
    let plan = plan_with("history !a:x.org");
    assert!(matches!(
        room(&plan, "!a:x.org").errors[..],
        [RoomPlanError::GetHistoryVisibility(_)]
    ));
    assert!(room(&plan, "!a:x.org").join);
    let plan = plan_with("alias !a:x.org");
    assert!(matches!(room(&plan, "!a:x.org").errors[..], [RoomPlanError::GetAlias(_)]));
    assert!(room(&plan, "!a:x.org").join);
}

#[test]
fn direct_messages_follow_the_new_user() {
    let mut mock = owned();
    mock.join("!b:x.org", OLD)
        .join("!b:x.org", NEW)
        .join("!c:x.org", OLD)
        .set("!c:x.org", "m.room.member", NEW, "{\"membership\": \"ban\"}")
        .set_data(
            OLD,
            "",
            "m.direct",
            "{\"@p:x.org\": [\"!a:x.org\", \"!b:x.org\", \"!c:x.org\", \"!a:x.org\"], \
             \"@q:x.org\": [\"!c:x.org\"], \"@new:x.org\": [\"!a:x.org\"]}",
        )
        .set_data(
            NEW,
            "",
            "m.direct",
            "{\"@p:x.org\": [\"!z:x.org\", \"!b:x.org\"], \"@r:x.org\": [\"!y:x.org\"]}",
        );
    let plan = mock.plan();
    assert_eq!(
        array_object_to_text(plan.direct.as_ref().unwrap()),
        "{\"@p:x.org\":[\"!z:x.org\",\"!b:x.org\",\"!a:x.org\"],\"@r:x.org\":[\"!y:x.org\"]}"
    );

    // The same again changes nothing.
    mock.set_data(
        NEW,
        "",
        "m.direct",
        "{\"@p:x.org\": [\"!z:x.org\", \"!b:x.org\", \"!a:x.org\"]}",
    );
    assert!(mock.plan().direct.is_none());
}

#[test]
fn failed_reads_about_accounts_are_reported() {
    let mut mock = Mock::default();
    mock.set_data(OLD, "", "m.direct", "{}")
        .set_data(OLD, "", "m.ignored_user_list", "{\"ignored_users\": {\"@a:x.org\": {}}}")
        .break_read("direct old")
        .break_read("ignored old");
    assert!(matches!(
        mock.plan().errors[..],
        [
            PlanError::DirectAccountDataFailed(DirectAccountDataPlanError::GetEvent(
                UserKind::Old,
                _
            )),
            PlanError::IgnoredUsersAccountDataFailed(IgnoredUsersAccountDataPlanError::GetEvent(
                UserKind::Old,
                _
            )),
        ]
    ));
    mock.broken.clear();
    mock.break_read("direct new").break_read("ignored new");
    let plan = mock.plan();
    assert!(matches!(
        plan.errors[..],
        [
            PlanError::DirectAccountDataFailed(DirectAccountDataPlanError::GetEvent(
                UserKind::New,
                _
            )),
            PlanError::IgnoredUsersAccountDataFailed(IgnoredUsersAccountDataPlanError::GetEvent(
                UserKind::New,
                _
            )),
        ]
    ));
    assert!(plan.direct.is_none() && plan.ignored_users.is_none());
}

#[test]
fn ignored_users_are_merged_user_by_user() {
    let mut mock = Mock::default();
    mock.set_data(OLD, "", "m.ignored_user_list", "{\"ignored_users\": {\"@a:x.org\": {}}}")
        .set_data(NEW, "", "m.ignored_user_list", "{\"ignored_users\": {\"@b:x.org\": {}}}");
    let plan = mock.plan();
    assert_eq!(
        ignored(&plan).as_deref(),
        Some("{\"ignored_users\":{\"@a:x.org\":{},\"@b:x.org\":{}}}")
    );
    assert!(plan.errors.is_empty());
    // Once the new user ignores the users of both, nothing is left to do.
    mock.set_data(
        NEW,
        "",
        "m.ignored_user_list",
        "{\"ignored_users\": {\"@a:x.org\": {}, \"@b:x.org\": {}}}",
    );
    assert!(mock.plan().ignored_users.is_none());
}

#[test]
fn ignored_users_are_merged() {
    let mut mock = Mock::default();
    mock.set_data(
        OLD,
        "",
        "m.ignored_user_list",
        "{\"ignored_users\": {\"@a:x.org\": {}, \"@b:x.org\": {}}}",
    )
    .set_data(
        NEW,
        "",
        "m.ignored_user_list",
        "{\"ignored_users\": {\"@b:x.org\": {\"since\": 3}}}",
    );
    let plan = mock.plan();
    assert_eq!(
        ignored(&plan).as_deref(),
        Some("{\"ignored_users\":{\"@a:x.org\":{},\"@b:x.org\":{\"since\":3}}}")
    );
    match &plan.errors[..] {
        [PlanError::IgnoredUserMerge(error)] => assert_eq!(error.key, "@b:x.org"),
        _ => panic!("the conflict should be reported"),
    }
}

#[test]
fn some_failures_prevent_a_plan() {
    for (what, kind, rooms) in [
        ("user old", UserKind::Old, false),
        ("user new", UserKind::New, false),
        ("rooms old", UserKind::Old, true),
        ("rooms new", UserKind::New, true),
    ] {
        let mut mock = owned();
        mock.break_read(what);
        match mock.run(false) {
            Phase::Failed { error: FatalPlanError::GetUserId(of, _) } => {
                assert!(!rooms && of == kind)
            }
            Phase::Failed { error: FatalPlanError::GetJoinedRooms(of, _) } => {
                assert!(rooms && of == kind)
            }
            _ => panic!("planning should fail"),
        }
        assert_eq!(mock.asked.last().unwrap(), what);
    }
}

#[test]
fn values_that_are_not_json_end_planning() {
    let mut planner = Planner::new(PlanSettings { leave: false });
    let mut mock = owned();
    while let Some(request) = planner.request() {
        let reply = match request {
            Request::Tags { .. } => {
                let mut tags = Members::new();
                tags.object.insert("u.a".to_string(), "{".to_string());
                Reply::Tags(Ok(Some(tags)))
            }
            request => mock.answer(request),
        };
        planner = planner.resume(reply);
    }
    assert!(matches!(planner.phase, Phase::Unreadable));
}

#[test]
fn replies_to_something_else_change_nothing() {
    let planner = Planner::new(PlanSettings { leave: false });
    let planner = planner.resume(Reply::Alias(Ok(None)));
    assert!(matches!(planner.request(), Some(Request::UserId(UserKind::Old))));
}

#[test]
fn defaults_are_recognized() {
    assert!(is_default(&0u32));
    assert!(!is_default(&1u32));
    assert!(is_default(&false));
    assert!(!is_default(&true));
    assert!(is_default(&None::<String>));
    assert!(!is_default(&Some(0i64)));
    assert!(RoomPlan::default().is_empty());
}
