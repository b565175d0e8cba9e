//! The messages of errors.
//!
//! An error has a message of its own, followed by the messages of its causes.

use vstd::prelude::*;

use crate::execute::{ExecuteError, Failure, GlobalData, PowerLevelError, RoomError};
use crate::ids::UserKind;
use crate::json::{show_value, shown, JsonMergeError};
use crate::plan::{
    DirectAccountDataPlanError, FatalPlanError, IgnoredUsersAccountDataPlanError, PlanError,
    RoomPlanError, RoomTagsPlanError,
};
use crate::state::{AccessError, HistoryVisibility};
use crate::text::{append_count, append_decimal, decimal, texts};

verus! {

/// Messages with a separator between them.
pub open spec fn joined(messages: Seq<Seq<char>>, infix: Seq<char>) -> Seq<char>
    decreases messages.len(),
{
    if messages.len() == 0 {
        Seq::empty()
    } else if messages.len() == 1 {
        messages[0]
    } else {
        joined(messages.drop_last(), infix) + infix + messages.last()
    }
}

/// Puts a separator between messages.
pub fn display_with_sources(messages: &Vec<String>, infix: &str) -> (text: String)
    ensures
        text@ == joined(texts(messages@), infix@),
{
    let mut text = String::new();
    let mut i: usize = 0;
    assert(texts(messages@).take(0) =~= Seq::empty());
    assert(text@ =~= Seq::empty());
    while i < messages.len()
        invariant
            0 <= i <= messages@.len(),
            text@ == joined(texts(messages@).take(i as int), infix@),
        decreases messages@.len() - i,
    {
        proof {
            let all = texts(messages@);
            assert(all.take(i + 1).drop_last() =~= all.take(i as int));
            assert(all.take(i + 1).last() == messages@[i as int]@);
            assert(Seq::<char>::empty() + messages@[i as int]@ =~= messages@[i as int]@);
        }
        if i > 0 {
            text.append(infix);
        }
        text.append(messages[i].as_str());
        i = i + 1;
    }
    assert(texts(messages@).take(messages@.len() as int) =~= texts(messages@));
    text
}

/// How the `Debug` impl of `str` prints a string.
pub uninterp spec fn debug_text(text: Seq<char>) -> Seq<char>;

/// Formats a string with the `Debug` impl of `str`. The outcome is named [`debug_text`].
#[verifier::external_body]
fn debug_str(text: &str) -> (printed: String)
    ensures
        printed@ == debug_text(text@),
{
    format!("{:?}", text)
}

/// What a history visibility means.
pub open spec fn visibility_text(visibility: HistoryVisibility) -> Seq<char> {
    match visibility {
        HistoryVisibility::WorldReadable =>
            "allows even users that are not in the room to see message history"@,
        HistoryVisibility::Shared =>
            "allows users to see all message history after they join the room"@,
        HistoryVisibility::Invited =>
            "restricts visible history to only messages that were sent after a user was invited"@,
        HistoryVisibility::Joined =>
            "restricted visible history to only messages that were sent after a user joined"@,
        HistoryVisibility::Custom(setting) => "has an unrecognized history visibility setting "@
            + debug_text(setting@),
    }
}

/// Describes a history visibility.
pub fn describe_history_visibility(visibility: &HistoryVisibility) -> (text: String)
    ensures
        text@ == visibility_text(*visibility),
{
    match visibility {
        HistoryVisibility::WorldReadable => String::from_str(
            "allows even users that are not in the room to see message history",
        ),
        HistoryVisibility::Shared => String::from_str(
            "allows users to see all message history after they join the room",
        ),
        HistoryVisibility::Invited => String::from_str(
            "restricts visible history to only messages that were sent after a user was invited",
        ),
        HistoryVisibility::Joined => String::from_str(
            "restricted visible history to only messages that were sent after a user joined",
        ),
        HistoryVisibility::Custom(setting) => {
            let mut text = String::from_str("has an unrecognized history visibility setting ");
            text.append(debug_str(setting.as_str()).as_str());
            text
        },
    }
}

/// A text with the kind of a user in the middle.
pub open spec fn about_user(before: Seq<char>, kind: UserKind) -> Seq<char> {
    before + kind.spec_name() + " user"@
}

pub(crate) fn text_about_user(before: &str, kind: UserKind) -> (text: String)
    ensures
        text@ == about_user(before@, kind),
{
    let mut text = String::from_str(before);
    text.append(kind.name());
    text.append(" user");
    text
}

/// A message and the messages of its cause.
pub open spec fn with_cause(message: Seq<char>, cause: AccessError) -> Seq<Seq<char>> {
    seq![message] + texts(cause.messages@)
}

fn push_text(messages: &mut Vec<String>, message: String)
    ensures
        texts(final(messages)@) == texts(old(messages)@).push(message@),
{
    let ghost before = texts(messages@);
    messages.push(message);
    assert(texts(messages@) =~= before.push(message@));
}

fn push_cause(messages: &mut Vec<String>, cause: &AccessError)
    ensures
        texts(final(messages)@) == texts(old(messages)@) + texts(cause.messages@),
{
    let ghost before = texts(messages@);
    let mut i: usize = 0;
    assert(texts(messages@) =~= before + texts(cause.messages@).take(0));
    while i < cause.messages.len()
        invariant
            0 <= i <= cause.messages@.len(),
            texts(messages@) == before + texts(cause.messages@).take(i as int),
        decreases cause.messages@.len() - i,
    {
        push_text(messages, cause.messages[i].clone());
        i = i + 1;
        assert(texts(messages@) =~= before + texts(cause.messages@).take(i as int));
    }
    assert(texts(cause.messages@).take(i as int) =~= texts(cause.messages@));
}

pub(crate) fn messages_with_cause(message: String, cause: &AccessError) -> (messages: Vec<String>)
    ensures
        texts(messages@) == with_cause(message@, *cause),
{
    let mut messages: Vec<String> = Vec::new();
    push_text(&mut messages, message);
    push_cause(&mut messages, cause);
    assert(texts(messages@) =~= with_cause(message@, *cause));
    messages
}

pub(crate) fn single_message(message: String) -> (messages: Vec<String>)
    ensures
        texts(messages@) == seq![message@],
{
    let mut messages: Vec<String> = Vec::new();
    push_text(&mut messages, message);
    assert(texts(messages@) =~= seq![message@]);
    messages
}

impl JsonMergeError {
    /// What the error says.
    pub open spec fn message(self) -> Seq<char> {
        "key "@ + self.key@
            + " cannot be merged because the old and new maps have different values. Old value "@
            + shown(self.old_value@) + ", new value "@ + shown(self.new_value@)
    }

    /// What the error says.
    pub fn to_text(&self) -> (text: String)
        ensures
            text@ == self.message(),
    {
        let mut text = String::from_str("key ");
        text.append(self.key.as_str());
        text.append(
            " cannot be merged because the old and new maps have different values. Old value ",
        );
        text.append(show_value(self.old_value.as_str()).as_str());
        text.append(", new value ");
        text.append(show_value(self.new_value.as_str()).as_str());
        text
    }
}

impl RoomTagsPlanError {
    /// The messages of the error and its causes.
    pub open spec fn spec_messages(self) -> Seq<Seq<char>> {
        match self {
            RoomTagsPlanError::GetEvent(kind, cause) => with_cause(
                about_user("failed to get tags for "@, kind),
                cause,
            ),
        }
    }

    /// The messages of the error and its causes.
    pub fn messages(&self) -> (messages: Vec<String>)
        ensures
            texts(messages@) == self.spec_messages(),
    {
        match self {
            RoomTagsPlanError::GetEvent(kind, cause) => messages_with_cause(
                text_about_user("failed to get tags for ", *kind),
                cause,
            ),
        }
    }
}

impl DirectAccountDataPlanError {
    /// The messages of the error and its causes.
    pub open spec fn spec_messages(self) -> Seq<Seq<char>> {
        match self {
            DirectAccountDataPlanError::GetEvent(kind, cause) => with_cause(
                about_user("failed to get direct message mapping for "@, kind),
                cause,
            ),
        }
    }

    /// The messages of the error and its causes.
    pub fn messages(&self) -> (messages: Vec<String>)
        ensures
            texts(messages@) == self.spec_messages(),
    {
        match self {
            DirectAccountDataPlanError::GetEvent(kind, cause) => messages_with_cause(
                text_about_user("failed to get direct message mapping for ", *kind),
                cause,
            ),
        }
    }
}

impl IgnoredUsersAccountDataPlanError {
    /// The messages of the error and its causes.
    pub open spec fn spec_messages(self) -> Seq<Seq<char>> {
        match self {
            IgnoredUsersAccountDataPlanError::GetEvent(kind, cause) => with_cause(
                about_user("failed to get ignored users list for "@, kind),
                cause,
            ),
        }
    }

    /// The messages of the error and its causes.
    pub fn messages(&self) -> (messages: Vec<String>)
        ensures
            texts(messages@) == self.spec_messages(),
    {
        match self {
            IgnoredUsersAccountDataPlanError::GetEvent(kind, cause) => messages_with_cause(
                text_about_user("failed to get ignored users list for ", *kind),
                cause,
            ),
        }
    }
}

impl FatalPlanError {
    /// The messages of the error and its causes.
    pub open spec fn spec_messages(self) -> Seq<Seq<char>> {
        match self {
            FatalPlanError::GetUserId(kind, cause) => with_cause(
                about_user("failed to get user id for "@, kind),
                cause,
            ),
            FatalPlanError::GetJoinedRooms(kind, cause) => with_cause(
                about_user("failed to get joined room list for "@, kind),
                cause,
            ),
        }
    }

    /// The messages of the error and its causes.
    pub fn messages(&self) -> (messages: Vec<String>)
        ensures
            texts(messages@) == self.spec_messages(),
    {
        match self {
            FatalPlanError::GetUserId(kind, cause) => messages_with_cause(
                text_about_user("failed to get user id for ", *kind),
                cause,
            ),
            FatalPlanError::GetJoinedRooms(kind, cause) => messages_with_cause(
                text_about_user("failed to get joined room list for ", *kind),
                cause,
            ),
        }
    }
}

/// A message before the messages of a cause that has causes of its own.
pub(crate) fn put_before(message: &str, causes: Vec<String>) -> (messages: Vec<String>)
    ensures
        texts(messages@) == seq![message@] + texts(causes@),
{
    let mut messages = causes;
    messages.insert(0, String::from_str(message));
    assert(texts(messages@) =~= seq![message@] + texts(causes@));
    messages
}

impl RoomPlanError {
    /// What the error itself says.
    pub open spec fn message(self) -> Seq<char> {
        match self {
            RoomPlanError::GetAlias(_) =>
                "failed to get alias. This is mostly inconsequential, and just might make it \
                 harder to identify the room in log messages."@,
            RoomPlanError::GetJoinRule(_) => "failed to get join rules"@,
            RoomPlanError::GetMembership(_) => "failed to get new user membership state"@,
            RoomPlanError::GetPowerLevels(_) => "failed to get power levels"@,
            RoomPlanError::GetServerAcl(_) => "failed to get server ACL"@,
            RoomPlanError::CannotInvite =>
                "room is invite-only, but old user does not have permission to invite new user"@,
            RoomPlanError::Banned => "new user is banned from room. Will not attempt to join"@,
            RoomPlanError::AclBanned =>
                "new user's server is ACL banned from room. Will not attempt to join"@,
            RoomPlanError::RoomTagsFailed(_) => "cannot migrate room tags"@,
            RoomPlanError::RoomTagMerge(error) => "cannot migrate "@ + error.key@
                + " tag. Both the old and new users have a tag with this key, but they have \
                 different values. Old value is "@ + shown(error.old_value@) + ". New value is "@
                + shown(error.new_value@) + "."@,
            RoomPlanError::CopyPowerLevel { old_power_level } =>
                "old user does not have permission to copy their power level ("@ + decimal(
                old_power_level as int,
            ) + ") to new user"@,
            RoomPlanError::GetHistoryVisibility(_) =>
                "failed to get history visibility state. Unable to determine whether message \
                 history visible to the old user in this room may be hidden from the new user \
                 and lost if the old user leaves."@,
            RoomPlanError::RestrictedHistoryVisibility { visibility, already_joined } =>
                "some of the message history visible to the old user may not be visible to the \
                 new user, because the room has restricted visible message history to only \
                 messages sent after a user "@ + visibility_text(visibility)
                + ". If the old user leaves this room, some message history may be lost."@
                + if already_joined {
                "The new user has already joined this room, but may have joined it later than \
                 the old user."@
            } else {
                ""@
            },
        }
    }

    /// The messages of the causes of the error. A history visibility that cannot be read shows no
    /// cause.
    pub open spec fn causes(self) -> Seq<Seq<char>> {
        match self {
            RoomPlanError::GetAlias(cause) => texts(cause.messages@),
            RoomPlanError::GetJoinRule(cause) => texts(cause.messages@),
            RoomPlanError::GetMembership(cause) => texts(cause.messages@),
            RoomPlanError::GetPowerLevels(cause) => texts(cause.messages@),
            RoomPlanError::GetServerAcl(cause) => texts(cause.messages@),
            RoomPlanError::RoomTagsFailed(cause) => cause.spec_messages(),
            _ => Seq::empty(),
        }
    }

    /// The messages of the error and its causes.
    pub open spec fn spec_messages(self) -> Seq<Seq<char>> {
        seq![self.message()] + self.causes()
    }

    /// What the error itself says.
    pub fn to_text(&self) -> (text: String)
        ensures
            text@ == self.message(),
    {
        match self {
            RoomPlanError::GetAlias(_) => String::from_str(
                "failed to get alias. This is mostly inconsequential, and just might make it \
                 harder to identify the room in log messages.",
            ),
            RoomPlanError::GetJoinRule(_) => String::from_str("failed to get join rules"),
            RoomPlanError::GetMembership(_) => String::from_str(
                "failed to get new user membership state",
            ),
            RoomPlanError::GetPowerLevels(_) => String::from_str("failed to get power levels"),
            RoomPlanError::GetServerAcl(_) => String::from_str("failed to get server ACL"),
            RoomPlanError::CannotInvite => String::from_str(
                "room is invite-only, but old user does not have permission to invite new user",
            ),
            RoomPlanError::Banned => String::from_str(
                "new user is banned from room. Will not attempt to join",
            ),
            RoomPlanError::AclBanned => String::from_str(
                "new user's server is ACL banned from room. Will not attempt to join",
            ),
            RoomPlanError::RoomTagsFailed(_) => String::from_str("cannot migrate room tags"),
            RoomPlanError::RoomTagMerge(error) => {
                let mut text = String::from_str("cannot migrate ");
                text.append(error.key.as_str());
                text.append(
                    " tag. Both the old and new users have a tag with this key, but they have \
                 different values. Old value is ",
                );
                text.append(show_value(error.old_value.as_str()).as_str());
                text.append(". New value is ");
                text.append(show_value(error.new_value.as_str()).as_str());
                text.append(".");
                text
            },
            RoomPlanError::CopyPowerLevel { old_power_level } => {
                let mut text = String::from_str(
                    "old user does not have permission to copy their power level (",
                );
                append_decimal(&mut text, *old_power_level);
                text.append(") to new user");
                text
            },
            RoomPlanError::GetHistoryVisibility(_) => String::from_str(
                "failed to get history visibility state. Unable to determine whether message \
                 history visible to the old user in this room may be hidden from the new user \
                 and lost if the old user leaves.",
            ),
            RoomPlanError::RestrictedHistoryVisibility { visibility, already_joined } => {
                let mut text = String::from_str(
                    "some of the message history visible to the old user may not be visible to the \
                 new user, because the room has restricted visible message history to only \
                 messages sent after a user ",
                );
                text.append(describe_history_visibility(visibility).as_str());
                text.append(". If the old user leaves this room, some message history may be lost.");
                if *already_joined {
                    text.append(
                        "The new user has already joined this room, but may have joined it later than \
                 the old user.",
                    );
                } else {
                    text.append("");
                }
                text
            },
        }
    }

    /// The messages of the error and its causes.
    pub fn messages(&self) -> (messages: Vec<String>)
        ensures
            texts(messages@) == self.spec_messages(),
    {
        let text = self.to_text();
        match self {
            RoomPlanError::GetAlias(cause) => messages_with_cause(text, cause),
            RoomPlanError::GetJoinRule(cause) => messages_with_cause(text, cause),
            RoomPlanError::GetMembership(cause) => messages_with_cause(text, cause),
            RoomPlanError::GetPowerLevels(cause) => messages_with_cause(text, cause),
            RoomPlanError::GetServerAcl(cause) => messages_with_cause(text, cause),
            RoomPlanError::RoomTagsFailed(cause) => put_before(text.as_str(), cause.messages()),
            _ => {
                let messages = single_message(text);
                assert(texts(messages@) =~= self.spec_messages());
                messages
            },
        }
    }
}

impl PlanError {
    /// What the error itself says.
    pub open spec fn message(self) -> Seq<char> {
        match self {
            PlanError::DirectAccountDataFailed(_) => "cannot migrate direct message mapping"@,
            PlanError::IgnoredUsersAccountDataFailed(_) => "cannot migrate ignored users list"@,
            PlanError::IgnoredUserMerge(error) =>
                "old user and new user both have entries in the ignored users list for the \
                 user "@ + error.key@
                + ", but they have different values. The 1.12 spec doesn't specify any semantics \
                 for these values, so the old user's entry cannot be merged into the new \
                 user's safely. The old value is\n         "@ + shown(error.old_value@)
                + ". The new value is "@ + shown(error.new_value@) + "."@,
        }
    }

    /// The messages of the causes of the error.
    pub open spec fn causes(self) -> Seq<Seq<char>> {
        match self {
            PlanError::DirectAccountDataFailed(cause) => cause.spec_messages(),
            PlanError::IgnoredUsersAccountDataFailed(cause) => cause.spec_messages(),
            PlanError::IgnoredUserMerge(_) => Seq::empty(),
        }
    }

    /// The messages of the error and its causes.
    pub open spec fn spec_messages(self) -> Seq<Seq<char>> {
        seq![self.message()] + self.causes()
    }

    /// What the error itself says.
    pub fn to_text(&self) -> (text: String)
        ensures
            text@ == self.message(),
    {
        match self {
            PlanError::DirectAccountDataFailed(_) => String::from_str(
                "cannot migrate direct message mapping",
            ),
            PlanError::IgnoredUsersAccountDataFailed(_) => String::from_str(
                "cannot migrate ignored users list",
            ),
            PlanError::IgnoredUserMerge(error) => {
                let mut text = String::from_str(
                    "old user and new user both have entries in the ignored users list for the \
                 user ",
                );
                text.append(error.key.as_str());
                text.append(
                    ", but they have different values. The 1.12 spec doesn't specify any semantics \
                 for these values, so the old user's entry cannot be merged into the new \
                 user's safely. The old value is\n         ",
                );
                text.append(show_value(error.old_value.as_str()).as_str());
                text.append(". The new value is ");
                text.append(show_value(error.new_value.as_str()).as_str());
                text.append(".");
                text
            },
        }
    }

    /// The messages of the error and its causes.
    pub fn messages(&self) -> (messages: Vec<String>)
        ensures
            texts(messages@) == self.spec_messages(),
    {
        let text = self.to_text();
        match self {
            PlanError::DirectAccountDataFailed(cause) => put_before(
                text.as_str(),
                cause.messages(),
            ),
            PlanError::IgnoredUsersAccountDataFailed(cause) => put_before(
                text.as_str(),
                cause.messages(),
            ),
            PlanError::IgnoredUserMerge(_) => {
                let messages = single_message(text);
                assert(texts(messages@) =~= self.spec_messages());
                messages
            },
        }
    }
}

impl GlobalData {
    /// The type of the account data event.
    pub open spec fn spec_event_type(self) -> Seq<char> {
        match self {
            GlobalData::Direct => "m.direct"@,
            GlobalData::IgnoredUsers => "m.ignored_user_list"@,
        }
    }

    /// The type of the account data event.
    pub fn event_type(self) -> (name: &'static str)
        ensures
            name@ == self.spec_event_type(),
    {
        match self {
            GlobalData::Direct => "m.direct",
            GlobalData::IgnoredUsers => "m.ignored_user_list",
        }
    }
}

impl PowerLevelError {
    /// The messages of the error and its causes.
    pub open spec fn spec_messages(self) -> Seq<Seq<char>> {
        match self {
            PowerLevelError::Read(cause) => with_cause(
                "failed to get current power levels state"@,
                cause,
            ),
            PowerLevelError::Write(cause) => with_cause(
                "failed to set new power levels state"@,
                cause,
            ),
        }
    }

    /// The messages of the error and its causes.
    pub fn messages(&self) -> (messages: Vec<String>)
        ensures
            texts(messages@) == self.spec_messages(),
    {
        match self {
            PowerLevelError::Read(cause) => messages_with_cause(
                String::from_str("failed to get current power levels state"),
                cause,
            ),
            PowerLevelError::Write(cause) => messages_with_cause(
                String::from_str("failed to set new power levels state"),
                cause,
            ),
        }
    }
}

impl RoomError {
    /// The messages of the error and its causes.
    pub open spec fn spec_messages(self) -> Seq<Seq<char>> {
        match self {
            RoomError::Invite(cause) => with_cause("failed to invite new user to room"@, cause),
            RoomError::WaitInvite(cause) => with_cause(
                "failed waiting for new user to receive invite to room"@,
                cause,
            ),
            RoomError::Join(cause) => with_cause("failed to join room room as new user"@, cause),
            RoomError::Leave(cause) => with_cause("failed to leave room room as old user"@, cause),
            RoomError::PowerLevel(cause) => seq!["failed copy old user's power level to new user"@]
                + cause.spec_messages(),
            RoomError::Tags(cause) => with_cause("failed set m.tag account data event"@, cause),
        }
    }

    /// The messages of the error and its causes.
    pub fn messages(&self) -> (messages: Vec<String>)
        ensures
            texts(messages@) == self.spec_messages(),
    {
        match self {
            RoomError::Invite(cause) => messages_with_cause(
                String::from_str("failed to invite new user to room"),
                cause,
            ),
            RoomError::WaitInvite(cause) => messages_with_cause(
                String::from_str("failed waiting for new user to receive invite to room"),
                cause,
            ),
            RoomError::Join(cause) => messages_with_cause(
                String::from_str("failed to join room room as new user"),
                cause,
            ),
            RoomError::Leave(cause) => messages_with_cause(
                String::from_str("failed to leave room room as old user"),
                cause,
            ),
            RoomError::PowerLevel(cause) => put_before(
                "failed copy old user's power level to new user",
                cause.messages(),
            ),
            RoomError::Tags(cause) => messages_with_cause(
                String::from_str("failed set m.tag account data event"),
                cause,
            ),
        }
    }
}

impl Failure {
    /// The messages of the failure and its causes.
    pub open spec fn spec_messages(self) -> Seq<Seq<char>> {
        match self {
            Failure::Room { error, .. } => error.spec_messages(),
            Failure::Global { data, cause } => with_cause(
                "failed to set "@ + data.spec_event_type() + " global account data event"@,
                cause,
            ),
        }
    }

    /// The messages of the failure and its causes.
    pub fn messages(&self) -> (messages: Vec<String>)
        ensures
            texts(messages@) == self.spec_messages(),
    {
        match self {
            Failure::Room { error, .. } => error.messages(),
            Failure::Global { data, cause } => {
                let mut text = String::from_str("failed to set ");
                text.append(data.event_type());
                text.append(" global account data event");
                messages_with_cause(text, cause)
            },
        }
    }
}

impl Failure {
    /// The failure and its causes, as they are shown to the user.
    pub fn report(&self) -> (text: String)
        ensures
            text@ == joined(self.spec_messages(), "\n  "@),
    {
        display_with_sources(&self.messages(), "\n  ")
    }
}

impl ExecuteError {
    /// What the error says.
    pub open spec fn message(self) -> Seq<char> {
        "migration encountered "@ + decimal(self.error_count as int)
            + " unexpected errors. See previous logs for details."@
    }

    /// What the error says.
    pub fn to_text(&self) -> (text: String)
        ensures
            text@ == self.message(),
    {
        let mut text = String::from_str("migration encountered ");
        append_count(&mut text, self.error_count);
        text.append(" unexpected errors. See previous logs for details.");
        text
    }
}

} // verus!
