//! What is read from the server about accounts and rooms.

use vstd::prelude::*;

use crate::ids::is_server_name;
use crate::power_levels::{
    are_effective, creators_of, effective_power_levels, get_authorization_rules, room_creators,
    rules_of, PowerLevels, PowerLevelsContent, RoomCreate,
};
use crate::text::texts;

verus! {

/// A failed read or write: the message of the error, then the messages of its causes.
pub struct AccessError {
    pub messages: Vec<String>,
}

/// Whether a failed request only says that what was asked for does not exist: the error code is
/// that for missing things, or the status is 404.
pub open spec fn means_absent(not_found_code: bool, status: Option<u16>) -> bool {
    not_found_code || status == Some(404u16)
}

/// Whether a failed request only says that what was asked for does not exist.
pub fn is_absent(not_found_code: bool, status: Option<u16>) -> (absent: bool)
    ensures
        absent == means_absent(not_found_code, status),
{
    if not_found_code {
        return true;
    }
    match status {
        Some(status) => status == 404,
        None => false,
    }
}

/// The membership of a user in a room.
#[derive(Clone, Copy, PartialEq, Eq, Structural, Debug)]
pub enum Membership {
    Ban,
    Invite,
    Join,
    Leave,
    /// Any other membership.
    Other,
}

/// Who can join a room.
#[derive(Clone, Copy, PartialEq, Eq, Structural, Debug)]
pub enum JoinRule {
    /// Everybody.
    Public,
    /// Not everybody.
    Restricted,
}

/// Who can see the history of a room.
pub enum HistoryVisibility {
    Invited,
    Joined,
    Shared,
    WorldReadable,
    /// A setting that is not known.
    Custom(String),
}

/// Which servers may take part in a room.
pub struct ServerAcl {
    pub allow_ip_literals: bool,
    pub allow: Vec<String>,
    pub deny: Vec<String>,
}

/// What `ruma` says on whether an access control list admits a server.
pub uninterp spec fn acl_admits(
    allow_ip_literals: bool,
    allow: Seq<Seq<char>>,
    deny: Seq<Seq<char>>,
    server: Seq<char>,
) -> bool;

/// Asks `RoomServerAclEventContent::is_allowed` of `ruma` about a server name. The outcome is
/// named [`acl_admits`].
#[verifier::external_body]
fn acl_allows(allow_ip_literals: bool, allow: &Vec<String>, deny: &Vec<String>, server: &str) -> (
    allowed: bool)
    requires
        is_server_name(server@),
    ensures
        allowed == acl_admits(allow_ip_literals, texts(allow@), texts(deny@), server@),
{
    let server = ruma::ServerName::parse(server).expect("the server name was checked");
    let acl = ruma::events::room::server_acl::RoomServerAclEventContent::new(
        allow_ip_literals,
        allow.clone(),
        deny.clone(),
    );
    acl.is_allowed(&server)
}

impl ServerAcl {
    /// Whether the list admits a server.
    pub open spec fn admits(self, server: Seq<char>) -> bool {
        acl_admits(self.allow_ip_literals, texts(self.allow@), texts(self.deny@), server)
    }

    /// Whether the list admits the server of a user.
    pub fn is_allowed(&self, user: &crate::ids::UserId) -> (allowed: bool)
        ensures
            allowed == self.admits(crate::ids::after_colon(user@)->0),
    {
        acl_allows(self.allow_ip_literals, &self.allow, &self.deny, user.server_name())
    }
}

/// What a read found, or nothing if it failed.
pub open spec fn found<T>(read: Result<Option<T>, AccessError>) -> Option<T> {
    match read {
        Ok(value) => value,
        Err(_) => None,
    }
}

/// The text of an optional string.
pub open spec fn text_of(text: Option<String>) -> Option<Seq<char>> {
    match text {
        Some(text) => Some(text@),
        None => None,
    }
}

/// Puts together the effective power levels of a room from its power levels event, its creation
/// event and its version.
///
/// A creation event or version that cannot be read counts as missing.
pub fn get_power_levels(
    content: Option<PowerLevelsContent>,
    create: Result<Option<RoomCreate>, AccessError>,
    version: Result<Option<String>, AccessError>,
) -> (levels: PowerLevels)
    ensures
        are_effective(
            levels,
            content,
            rules_of(text_of(found(version))),
            texts(creators_of(found(create))),
        ),
{
    let creators = match create {
        Ok(create) => room_creators(create),
        Err(_) => room_creators(None),
    };
    let rules = match &version {
        Ok(Some(version)) => get_authorization_rules(Some(version.as_str())),
        Ok(None) => get_authorization_rules(None),
        Err(_) => get_authorization_rules(None),
    };
    effective_power_levels(content, rules, creators)
}

} // verus!
