//! Matrix identifiers.

use vstd::prelude::*;
use vstd::utf8::encode_utf8;

use crate::text::decimal;

verus! {

/// Which of the two accounts is meant.
#[derive(Clone, Copy, PartialEq, Eq, Structural, Debug)]
pub enum UserKind {
    Old,
    New,
}

impl UserKind {
    /// How the account is called in messages.
    pub open spec fn spec_name(self) -> Seq<char> {
        match self {
            UserKind::Old => "old"@,
            UserKind::New => "new"@,
        }
    }

    /// How the account is called in messages.
    pub fn name(self) -> (name: &'static str)
        ensures
            name@ == self.spec_name(),
    {
        match self {
            UserKind::Old => "old",
            UserKind::New => "new",
        }
    }
}

/// Whether `ruma` accepts a text as a server name.
pub uninterp spec fn is_server_name(text: Seq<char>) -> bool;

/// How long an identifier may be, in bytes.
pub const MAX_ID_BYTES: u8 = 255;

/// What follows the first colon of a text, if it has one.
pub open spec fn after_colon(text: Seq<char>) -> Option<Seq<char>>
    decreases text.len(),
{
    if text.len() == 0 {
        None
    } else if text[0] == ':' {
        Some(text.skip(1))
    } else {
        after_colon(text.skip(1))
    }
}

/// Whether a text begins like an identifier of some kind, is not too long and has no NUL in it.
pub open spec fn is_id(text: Seq<char>, sigil: char) -> bool {
    &&& text.len() > 0
    &&& text[0] == sigil
    &&& encode_utf8(text).len() <= MAX_ID_BYTES
    &&& !text.contains('\0')
}

/// Whether a text is an identifier that ends in a colon and a server name.
pub open spec fn is_id_on_server(text: Seq<char>, sigil: char) -> bool {
    is_id(text, sigil) && (after_colon(text) matches Some(name) && is_server_name(name))
}

/// Whether a text is a user ID.
pub open spec fn is_user_id(text: Seq<char>) -> bool {
    is_id_on_server(text, '@')
}

/// Whether a text is a room ID.
pub open spec fn is_room_id(text: Seq<char>) -> bool {
    is_id(text, '!')
}

/// Whether a text is a room alias.
pub open spec fn is_room_alias(text: Seq<char>) -> bool {
    is_id_on_server(text, '#')
}

/// The server name that a room ID ends in, if it does.
pub open spec fn server_of_room(room: Seq<char>) -> Option<Seq<char>> {
    match after_colon(room) {
        Some(name) => if is_room_id(room) && is_server_name(name) {
            Some(name)
        } else {
            None
        },
        None => None,
    }
}

/// Parses a user ID with `ruma::UserId::parse` and takes its `server_name`. Parsing succeeds if the
/// text starts with `@`, has at most 255 bytes, no NUL, and a server name after its first colon;
/// that server name is what is returned.
#[verifier::external_body]
fn user_server(text: &str) -> (server: Option<String>)
    ensures
        server is Some <==> is_user_id(text@),
        server matches Some(name) ==> after_colon(text@) == Some(name@),
{
    match ruma::UserId::parse(text) {
        Ok(user) => Some(user.server_name().as_str().to_owned()),
        Err(_) => None,
    }
}

/// Checks a server name with `ruma::ServerName::parse`. The outcome is named [`is_server_name`].
#[verifier::external_body]
fn check_server_name(text: &str) -> (valid: bool)
    ensures
        valid == is_server_name(text@),
{
    ruma::ServerName::parse(text).is_ok()
}

/// Parses a room ID with `ruma::RoomId::parse` and takes its `server_name`: what follows the first
/// colon, where there is a colon and a server name follows it. Parsing succeeds if the text starts
/// with `!`, has at most 255 bytes and no NUL.
#[verifier::external_body]
fn room_server(text: &str) -> (server: Option<String>)
    ensures
        match server {
            Some(name) => server_of_room(text@) == Some(name@),
            None => server_of_room(text@) is None,
        },
{
    match ruma::RoomId::parse(text) {
        Ok(room) => room.server_name().map(|name| name.as_str().to_owned()),
        Err(_) => None,
    }
}

/// Parses a room alias with `ruma::RoomAliasId::parse` and takes its `server_name`: what follows
/// the first colon. Parsing succeeds if the text starts with `#`, has at most 255 bytes, no NUL,
/// and a server name after its first colon.
#[verifier::external_body]
fn alias_server(text: &str) -> (server: Option<String>)
    ensures
        server is Some <==> is_room_alias(text@),
        server matches Some(name) ==> after_colon(text@) == Some(name@),
{
    match ruma::RoomAliasId::parse(text) {
        Ok(alias) => Some(alias.server_name().as_str().to_owned()),
        Err(_) => None,
    }
}

/// A letter or digit of ASCII.
pub open spec fn is_alphanumeric(c: char) -> bool {
    ('0' <= c && c <= '9') || ('A' <= c && c <= 'Z') || ('a' <= c && c <= 'z')
}

/// Whether a text is a room ID of 18 letters and digits on a server.
pub open spec fn is_random_room(text: Seq<char>, server: Seq<char>) -> bool {
    exists|local: Seq<char>|
        {
            &&& local.len() == 18
            &&& forall|i: int| 0 <= i < 18 ==> is_alphanumeric(#[trigger] local[i])
            &&& text == #[trigger] ("!"@ + local) + ":"@ + server
        }
}

/// Makes up a room ID with `ruma::RoomId::new_v1`: `!`, 18 random ASCII letters and digits, a
/// colon and the server name.
#[verifier::external_body]
fn random_room(server: &str) -> (room: String)
    requires
        is_server_name(server@),
    ensures
        is_random_room(room@, server@),
{
    let server = ruma::ServerName::parse(server).expect("the server name was checked");
    ruma::RoomId::new_v1(&server).as_str().to_owned()
}

/// Draws a number below a limit with `rand::Rng::gen_range` from the generator of the thread.
#[verifier::external_body]
fn random_below(limit: u32) -> (number: u32)
    requires
        limit > 0,
    ensures
        number < limit,
{
    rand::Rng::gen_range(&mut rand::thread_rng(), 0..limit)
}

/// A user ID.
pub struct UserId {
    id: String,
    server: String,
}

impl View for UserId {
    type V = Seq<char>;

    closed spec fn view(&self) -> Seq<char> {
        self.id@
    }
}

impl Clone for UserId {
    fn clone(&self) -> (copy: UserId)
        ensures
            copy == *self,
    {
        proof {
            use_type_invariant(self);
        }
        UserId { id: self.id.clone(), server: self.server.clone() }
    }
}

impl UserId {
    /// The text is a user ID, and the server name is the one it ends in.
    #[verifier::type_invariant]
    closed spec fn valid(self) -> bool {
        &&& is_user_id(self.id@)
        &&& after_colon(self.id@) == Some(self.server@)
    }

    /// Takes a text as a user ID, if it is one.
    pub fn parse(text: String) -> (user: Option<UserId>)
        ensures
            user is Some <==> is_user_id(text@),
            user matches Some(user) ==> user@ == text@,
    {
        match user_server(text.as_str()) {
            Some(server) => Some(UserId { id: text, server }),
            None => None,
        }
    }

    /// The text of the user ID.
    pub fn as_str(&self) -> (text: &str)
        ensures
            text@ == self@,
    {
        self.id.as_str()
    }

    /// The server of the user.
    pub fn server_name(&self) -> (server: &str)
        ensures
            after_colon(self@) == Some(server@),
            is_server_name(server@),
    {
        proof {
            use_type_invariant(self);
        }
        self.server.as_str()
    }
}

/// The server that stands in for that of a room whose ID does not name one.
pub open spec fn stand_in_server() -> Seq<char> {
    "invalid-server-name.com"@
}

/// The server on which a room is made up in place of another.
pub open spec fn anonymous_server(room: Seq<char>) -> Seq<char> {
    match server_of_room(room) {
        Some(name) => name,
        None => stand_in_server(),
    }
}

/// Makes up a room ID to show in place of `room_id`, on the same server.
///
/// There is none if the server that stands in for a missing one is not a server name.
pub fn anonymize_room_id(room_id: &str) -> (made_up: Option<String>)
    ensures
        made_up is Some <==> is_server_name(anonymous_server(room_id@)),
        made_up matches Some(room) ==> is_random_room(room@, anonymous_server(room_id@)),
{
    let server = match room_server(room_id) {
        Some(name) => name,
        None => "invalid-server-name.com".to_owned(),
    };
    if check_server_name(server.as_str()) {
        Some(random_room(server.as_str()))
    } else {
        None
    }
}

/// How many different aliases are made up for a server.
pub const ALIAS_NUMBERS: u32 = 1024;

/// A made-up alias.
pub open spec fn numbered_alias(number: int, server: Seq<char>) -> Seq<char> {
    "#alias-"@ + decimal(number) + ":"@ + server
}

/// The made-up alias with a given number on the server of `room_alias`; `None` if `room_alias` is
/// not an alias, or if what is made up is not one (it may be too long).
pub fn numbered_room_alias(room_alias: &str, number: u32) -> (made_up: Option<String>)
    ensures
        made_up matches Some(alias) ==> {
            &&& is_room_alias(room_alias@)
            &&& alias@ == numbered_alias(number as int, after_colon(room_alias@)->0)
            &&& is_room_alias(alias@)
        },
        made_up is None ==> !is_room_alias(room_alias@) || !is_room_alias(
            numbered_alias(number as int, after_colon(room_alias@)->0),
        ),
{
    let server = match alias_server(room_alias) {
        Some(server) => server,
        None => {
            return None;
        },
    };
    let mut alias = String::new();
    alias.append("#alias-");
    crate::text::append_decimal(&mut alias, number as i64);
    alias.append(":");
    alias.append(server.as_str());
    assert(alias@ =~= numbered_alias(number as int, server@));
    if alias_server(alias.as_str()).is_some() {
        Some(alias)
    } else {
        None
    }
}

/// Makes up an alias to show in place of `room_alias`, on the same server.
pub fn anonymize_room_alias(room_alias: &str) -> (made_up: Option<String>)
    ensures
        made_up matches Some(alias) ==> is_room_alias(room_alias@) && exists|number: int|
            0 <= number < ALIAS_NUMBERS && alias@ == #[trigger] numbered_alias(
                number,
                after_colon(room_alias@)->0,
            ),
        made_up is None ==> !is_room_alias(room_alias@) || exists|number: int|
            0 <= number < ALIAS_NUMBERS && !is_room_alias(
                #[trigger] numbered_alias(number, after_colon(room_alias@)->0),
            ),
{
    let number = random_below(ALIAS_NUMBERS);
    numbered_room_alias(room_alias, number)
}

/// A room ID along with the canonical alias of the room, if known.
///
/// This is used to identify rooms in a more human-readable way.
pub struct RoomIdentity {
    pub id: String,
    pub alias: Option<String>,
}

/// How a room is identified in messages.
pub open spec fn identity_text(id: Seq<char>, alias: Option<String>) -> Seq<char> {
    match alias {
        Some(alias) => alias@ + " ("@ + id + ")"@,
        None => id,
    }
}

impl RoomIdentity {
    /// The text that identifies the room.
    pub fn to_text(&self) -> (text: String)
        ensures
            text@ == identity_text(self.id@, self.alias),
    {
        match &self.alias {
            Some(alias) => {
                let mut text = alias.clone();
                text.append(" (");
                text.append(self.id.as_str());
                text.append(")");
                text
            },
            None => self.id.clone(),
        }
    }
}

} // verus!
