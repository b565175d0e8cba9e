//! Power levels in a room, and what they allow.

use vstd::prelude::*;

use crate::ids::UserId;
use crate::text::{contains_str, same_str, texts};
use crate::text_map::TextMap;

verus! {

/// The authorization rules of room versions.
#[derive(Clone, Copy, PartialEq, Eq, Structural, Debug)]
pub enum AuthorizationRules {
    V1,
    V3,
    V6,
    V7,
    V8,
    V10,
    V11,
    V12,
}

/// The authorization rules that apply in a room version. Unknown versions follow those of
/// version 11.
pub open spec fn rules_of(version: Option<Seq<char>>) -> AuthorizationRules {
    match version {
        Some(v) => if v == "1"@ || v == "2"@ {
            AuthorizationRules::V1
        } else if v == "3"@ || v == "4"@ || v == "5"@ {
            AuthorizationRules::V3
        } else if v == "6"@ {
            AuthorizationRules::V6
        } else if v == "7"@ {
            AuthorizationRules::V7
        } else if v == "8"@ || v == "9"@ {
            AuthorizationRules::V8
        } else if v == "10"@ {
            AuthorizationRules::V10
        } else if v == "12"@ {
            AuthorizationRules::V12
        } else {
            AuthorizationRules::V11
        },
        None => AuthorizationRules::V11,
    }
}

/// Gets the authorization rules for a room version.
pub fn get_authorization_rules(room_version: Option<&str>) -> (rules: AuthorizationRules)
    ensures
        rules == rules_of(
            match room_version {
                Some(version) => Some(version@),
                None => None,
            },
        ),
{
    let version = match room_version {
        Some(version) => version,
        None => {
            return AuthorizationRules::V11;
        },
    };
    if same_str(version, "1") || same_str(version, "2") {
        AuthorizationRules::V1
    } else if same_str(version, "3") || same_str(version, "4") || same_str(version, "5") {
        AuthorizationRules::V3
    } else if same_str(version, "6") {
        AuthorizationRules::V6
    } else if same_str(version, "7") {
        AuthorizationRules::V7
    } else if same_str(version, "8") || same_str(version, "9") {
        AuthorizationRules::V8
    } else if same_str(version, "10") {
        AuthorizationRules::V10
    } else if same_str(version, "12") {
        AuthorizationRules::V12
    } else {
        AuthorizationRules::V11
    }
}

/// Reads the flag `explicitly_privilege_room_creators` of the constants of
/// `ruma::room_version_rules::AuthorizationRules`. It is set from version 12 on.
#[verifier::external_body]
fn privileges_creators(rules: AuthorizationRules) -> (privileged: bool)
    ensures
        privileged == (rules == AuthorizationRules::V12),
{
    let rules = match rules {
        AuthorizationRules::V1 => ruma::room_version_rules::AuthorizationRules::V1,
        AuthorizationRules::V3 => ruma::room_version_rules::AuthorizationRules::V3,
        AuthorizationRules::V6 => ruma::room_version_rules::AuthorizationRules::V6,
        AuthorizationRules::V7 => ruma::room_version_rules::AuthorizationRules::V7,
        AuthorizationRules::V8 => ruma::room_version_rules::AuthorizationRules::V8,
        AuthorizationRules::V10 => ruma::room_version_rules::AuthorizationRules::V10,
        AuthorizationRules::V11 => ruma::room_version_rules::AuthorizationRules::V11,
        AuthorizationRules::V12 => ruma::room_version_rules::AuthorizationRules::V12,
    };
    rules.explicitly_privilege_room_creators
}

/// The power level of a user.
#[derive(Clone, Copy, PartialEq, Eq, Structural, Debug)]
pub enum UserPowerLevel {
    /// The user is a privileged creator of the room.
    Infinite,
    Int(i64),
}

/// The greatest integer that a power level can be.
pub const MAX_POWER_LEVEL: i64 = 9007199254740991;

impl UserPowerLevel {
    /// Whether the level is less than another: no level is as great as an infinite one.
    pub open spec fn spec_less(self, other: UserPowerLevel) -> bool {
        match (self, other) {
            (UserPowerLevel::Infinite, _) => false,
            (UserPowerLevel::Int(_), UserPowerLevel::Infinite) => true,
            (UserPowerLevel::Int(a), UserPowerLevel::Int(b)) => a < b,
        }
    }

    /// Whether the level is less than another.
    pub fn less(self, other: UserPowerLevel) -> (less: bool)
        ensures
            less == self.spec_less(other),
    {
        match (self, other) {
            (UserPowerLevel::Infinite, _) => false,
            (UserPowerLevel::Int(_), UserPowerLevel::Infinite) => true,
            (UserPowerLevel::Int(a), UserPowerLevel::Int(b)) => a < b,
        }
    }

    /// The integer nearest to the level.
    pub open spec fn spec_as_int(self) -> i64 {
        match self {
            UserPowerLevel::Infinite => MAX_POWER_LEVEL,
            UserPowerLevel::Int(level) => level,
        }
    }

    /// The integer nearest to the level: that of a room creator can only be approximated.
    pub fn as_int(self) -> (level: i64)
        ensures
            level == self.spec_as_int(),
    {
        match self {
            UserPowerLevel::Infinite => MAX_POWER_LEVEL,
            UserPowerLevel::Int(level) => level,
        }
    }
}

/// The content of a power levels event, without the fields that redaction removes.
pub struct PowerLevelsContent {
    pub ban: i64,
    pub events: TextMap<i64>,
    pub events_default: i64,
    pub invite: i64,
    pub kick: i64,
    pub redact: i64,
    pub state_default: i64,
    pub users: TextMap<i64>,
    pub users_default: i64,
}

/// The contents of a [`PowerLevelsContent`].
#[verifier::ext_equal]
pub struct PowerLevelsContentView {
    pub ban: i64,
    pub events: Map<Seq<char>, i64>,
    pub events_default: i64,
    pub invite: i64,
    pub kick: i64,
    pub redact: i64,
    pub state_default: i64,
    pub users: Map<Seq<char>, i64>,
    pub users_default: i64,
}

impl View for PowerLevelsContent {
    type V = PowerLevelsContentView;

    open spec fn view(&self) -> PowerLevelsContentView {
        PowerLevelsContentView {
            ban: self.ban,
            events: self.events@,
            events_default: self.events_default,
            invite: self.invite,
            kick: self.kick,
            redact: self.redact,
            state_default: self.state_default,
            users: self.users@,
            users_default: self.users_default,
        }
    }
}

impl PowerLevelsContentView {
    /// The content with the level of one user set.
    pub open spec fn with_level(self, user: Seq<char>, level: i64) -> PowerLevelsContentView {
        PowerLevelsContentView { users: self.users.insert(user, level), ..self }
    }

    /// The content that a room without a power levels event is taken to have.
    pub open spec fn initial(users: Map<Seq<char>, i64>) -> PowerLevelsContentView {
        PowerLevelsContentView {
            ban: 50,
            events: Map::empty(),
            events_default: 0,
            invite: 0,
            kick: 50,
            redact: 50,
            state_default: 50,
            users,
            users_default: 0,
        }
    }
}

/// The effective power levels of a room.
pub struct PowerLevels {
    pub content: PowerLevelsContent,
    /// The creators whose power level is infinite, where the room version has such creators.
    pub privileged_creators: Option<Vec<String>>,
}

/// The type of the event that sets power levels.
pub open spec fn power_levels_type() -> Seq<char> {
    "m.room.power_levels"@
}

impl PowerLevels {
    /// Whether a user is a creator with infinite power level.
    pub open spec fn is_privileged(self, user: Seq<char>) -> bool {
        match self.privileged_creators {
            Some(creators) => texts(creators@).contains(user),
            None => false,
        }
    }

    /// The power level of a user: infinite for a privileged creator, else the user's own, else the
    /// default one.
    pub open spec fn level_of(self, user: Seq<char>) -> UserPowerLevel {
        if self.is_privileged(user) {
            UserPowerLevel::Infinite
        } else if self.content.users@.contains_key(user) {
            UserPowerLevel::Int(self.content.users@[user])
        } else {
            UserPowerLevel::Int(self.content.users_default)
        }
    }

    /// Whether the level of a user reaches a required one.
    pub open spec fn reaches(self, user: Seq<char>, required: i64) -> bool {
        !self.level_of(user).spec_less(UserPowerLevel::Int(required))
    }

    /// The level required to change power levels.
    pub open spec fn change_level(self) -> i64 {
        if self.content.events@.contains_key(power_levels_type()) {
            self.content.events@[power_levels_type()]
        } else {
            self.content.state_default
        }
    }

    /// Whether a user may change the power level of another: they must be allowed to send the
    /// event, nobody changes the level of a privileged creator, everybody else may change their
    /// own, and a level that is set can only be changed from above.
    pub open spec fn may_change_level(self, acting: Seq<char>, target: Seq<char>) -> bool {
        &&& self.reaches(acting, self.change_level())
        &&& !self.is_privileged(target)
        &&& acting == target || !self.content.users@.contains_key(target) || UserPowerLevel::Int(
            self.content.users@[target],
        ).spec_less(self.level_of(acting))
    }

    fn is_privileged_creator(&self, user: &str) -> (privileged: bool)
        ensures
            privileged == self.is_privileged(user@),
    {
        match &self.privileged_creators {
            Some(creators) => contains_str(creators, user),
            None => false,
        }
    }

    /// The power level of a user.
    pub fn for_user(&self, user: &str) -> (level: UserPowerLevel)
        ensures
            level == self.level_of(user@),
    {
        if self.is_privileged_creator(user) {
            return UserPowerLevel::Infinite;
        }
        match self.content.users.get(user) {
            Some(level) => UserPowerLevel::Int(*level),
            None => UserPowerLevel::Int(self.content.users_default),
        }
    }

    /// Whether a user may invite others.
    pub fn user_can_invite(&self, user: &str) -> (can: bool)
        ensures
            can == self.reaches(user@, self.content.invite),
    {
        !self.for_user(user).less(UserPowerLevel::Int(self.content.invite))
    }

    /// Whether a user may change the power level of another.
    pub fn user_can_change_user_power_level(&self, acting: &str, target: &str) -> (can: bool)
        ensures
            can == self.may_change_level(acting@, target@),
    {
        let required: i64 = match self.content.events.get("m.room.power_levels") {
            Some(level) => *level,
            None => self.content.state_default,
        };
        if self.for_user(acting).less(UserPowerLevel::Int(required)) {
            return false;
        }
        if self.is_privileged_creator(target) {
            return false;
        }
        if same_str(acting, target) {
            return true;
        }
        match self.content.users.get(target) {
            Some(level) => UserPowerLevel::Int(*level).less(self.for_user(acting)),
            None => true,
        }
    }

    /// Whether a privileged creator has an entry of their own, which the event must not hold.
    pub open spec fn lists_creator(self) -> bool {
        match self.privileged_creators {
            Some(creators) => exists|i: int|
                0 <= i < creators@.len() && self.content.users@.contains_key(
                    (#[trigger] creators@[i])@,
                ),
            None => false,
        }
    }

    /// The content of the event that sets the level of one user and leaves the rest as it is;
    /// `None` if a privileged creator has an entry of their own.
    pub fn with_user_level(self, user: &UserId, level: i64) -> (content: Option<PowerLevelsContent>)
        ensures
            content is Some <==> !self.lists_creator(),
            content matches Some(content) ==> content@ == self.content@.with_level(user@, level),
            content matches Some(content) ==> {
                &&& content.users@.contains_key(user@) && content.users@[user@] == level
                &&& forall|other: Seq<char>|
                    other != user@ ==> {
                        &&& content.users@.contains_key(other)
                            <==> self.content.users@.contains_key(other)
                        &&& #[trigger] content.users@[other] == self.content.users@[other]
                    }
                &&& content.events@ == self.content.events@
                &&& content.ban == self.content.ban && content.kick == self.content.kick
                &&& content.invite == self.content.invite && content.redact == self.content.redact
                &&& content.events_default == self.content.events_default
                &&& content.state_default == self.content.state_default
                &&& content.users_default == self.content.users_default
            },
    {
        match &self.privileged_creators {
            Some(creators) => {
                let mut i: usize = 0;
                while i < creators.len()
                    invariant
                        0 <= i <= creators@.len(),
                        forall|j: int|
                            0 <= j < i ==> !self.content.users@.contains_key(
                                (#[trigger] creators@[j])@,
                            ),
                        self.privileged_creators == Some(*creators),
                    decreases creators@.len() - i,
                {
                    if self.content.users.contains_key(creators[i].as_str()) {
                        assert(self.privileged_creators->0@[i as int] == creators@[i as int]);
                        return None;
                    }
                    i = i + 1;
                }
            },
            None => {},
        }
        let mut content = self.content;
        let mut users = content.users;
        users.insert(user.as_str().to_owned(), level);
        content.users = users;
        Some(content)
    }
}

/// What the creation event of a room says about its creators.
pub struct RoomCreate {
    /// The original creator, in room versions before 11.
    pub creator: Option<String>,
    /// More creators, in room versions from 12 on.
    pub additional_creators: Vec<String>,
}

/// The creators of a room: the original one, then the additional ones; none where there is no
/// creation event.
pub open spec fn creators_of(create: Option<RoomCreate>) -> Seq<String> {
    match create {
        Some(create) => match create.creator {
            Some(creator) => seq![creator] + create.additional_creators@,
            None => create.additional_creators@,
        },
        None => Seq::empty(),
    }
}

/// Lists the creators of a room.
pub fn room_creators(create: Option<RoomCreate>) -> (creators: Vec<String>)
    ensures
        creators@ == creators_of(create),
{
    let mut creators: Vec<String> = Vec::new();
    match create {
        Some(create) => {
            let mut additional = create.additional_creators;
            match create.creator {
                Some(creator) => {
                    creators.push(creator);
                },
                None => {},
            }
            creators.append(&mut additional);
        },
        None => {},
    }
    assert(creators@ =~= creators_of(create));
    creators
}

/// The users of a room without a power levels event: every creator has level 100, unless creators
/// are privileged.
pub open spec fn initial_users(
    privileged: bool,
    creators: Seq<Seq<char>>,
) -> Map<Seq<char>, i64> {
    if privileged {
        Map::empty()
    } else {
        Map::new(|user: Seq<char>| creators.contains(user), |user: Seq<char>| 100i64)
    }
}

/// Whether power levels are the effective ones of a room, given the content of its power levels
/// event (if it has one), the rules of its version and its creators.
pub open spec fn are_effective(
    levels: PowerLevels,
    content: Option<PowerLevelsContent>,
    rules: AuthorizationRules,
    creators: Seq<Seq<char>>,
) -> bool {
    &&& match levels.privileged_creators {
        Some(privileged) => rules == AuthorizationRules::V12 && texts(privileged@) == creators,
        None => rules != AuthorizationRules::V12,
    }
    &&& match content {
        Some(content) => levels.content == content,
        None => levels.content@ == PowerLevelsContentView::initial(
            initial_users(rules == AuthorizationRules::V12, creators),
        ),
    }
}

/// The effective power levels of a room.
pub fn effective_power_levels(
    content: Option<PowerLevelsContent>,
    rules: AuthorizationRules,
    creators: Vec<String>,
) -> (levels: PowerLevels)
    ensures
        are_effective(levels, content, rules, texts(creators@)),
{
    let privileged = privileges_creators(rules);
    let content = match content {
        Some(content) => content,
        None => {
            let mut users: TextMap<i64> = TextMap::new();
            if !privileged {
                let mut i: usize = 0;
                assert(users@ =~= initial_users(false, texts(creators@).take(0)));
                while i < creators.len()
                    invariant
                        0 <= i <= creators@.len(),
                        users@ == initial_users(false, texts(creators@).take(i as int)),
                    decreases creators@.len() - i,
                {
                    users.insert(creators[i].clone(), 100);
                    proof {
                        let all = texts(creators@);
                        assert(all.take(i + 1) =~= all.take(i as int).push(all[i as int]));
                        broadcast use vstd::seq_lib::group_seq_properties;

                        assert(users@ =~= initial_users(false, all.take(i + 1)));
                    }
                    i = i + 1;
                }
                assert(texts(creators@).take(creators@.len() as int) =~= texts(creators@));
            }
            PowerLevelsContent {
                ban: 50,
                events: TextMap::new(),
                events_default: 0,
                invite: 0,
                kick: 50,
                redact: 50,
                state_default: 50,
                users,
                users_default: 0,
            }
        },
    };
    let privileged_creators = if privileged {
        Some(creators)
    } else {
        None
    };
    PowerLevels { content, privileged_creators }
}

/// The power level of a user is infinite exactly if they created a room of version 12. In all other
/// rooms, creators are just regular users.
pub proof fn law_only_creators_are_unlimited(
    levels: PowerLevels,
    content: Option<PowerLevelsContent>,
    version: Option<Seq<char>>,
    creators: Seq<Seq<char>>,
    user: Seq<char>,
)
    requires
        are_effective(levels, content, rules_of(version), creators),
    ensures
        levels.level_of(user) is Infinite <==> version == Some("12"@) && creators.contains(user),
{
    reveal_strlit("1");
    reveal_strlit("2");
    reveal_strlit("3");
    reveal_strlit("4");
    reveal_strlit("5");
    reveal_strlit("6");
    reveal_strlit("7");
    reveal_strlit("8");
    reveal_strlit("9");
    reveal_strlit("10");
    reveal_strlit("12");
    assert("12"@.len() == 2);
    assert("10"@[1] != "12"@[1]);
    assert(rules_of(Some("12"@)) == AuthorizationRules::V12);
}

} // verus!
