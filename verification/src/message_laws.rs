//! Laws about what is said of errors.

use vstd::prelude::*;

use crate::execute::{Failure, PowerLevelError, RoomError};
use crate::ids::UserKind;
use crate::json::{shown, JsonMergeError};
use crate::messages::{about_user, debug_text, joined, visibility_text, with_cause};
use crate::plan::{
    DirectAccountDataPlanError, FatalPlanError, IgnoredUsersAccountDataPlanError, PlanError,
    RoomPlanError, RoomTagsPlanError,
};
use crate::session::Error;
use crate::show_laws::{is_part, lemma_middle};
use crate::state::{AccessError, HistoryVisibility};
use crate::text::{decimal, texts};

verus! {

/// Messages are put together in their order: one more comes behind a separator, and one alone
/// stands without any.
pub proof fn law_messages_are_put_together(
    messages: Seq<Seq<char>>,
    message: Seq<char>,
    infix: Seq<char>,
)
    ensures
        joined(Seq::empty(), infix) == Seq::<char>::empty(),
        joined(messages.push(message), infix) == if messages.len() == 0 {
            message
        } else {
            joined(messages, infix) + infix + message
        },
{
    assert(messages.push(message).drop_last() =~= messages);
}

/// A message with a cause comes first, and the messages of the cause follow it as they are.
pub proof fn law_causes_are_told(message: Seq<char>, cause: AccessError, before: Seq<char>)
    ensures
        with_cause(message, cause).len() == cause.messages@.len() + 1,
        with_cause(message, cause)[0] == message,
        forall|i: int|
            0 <= i < cause.messages@.len() ==> with_cause(message, cause)[i + 1] == (
            #[trigger] cause.messages@[i])@,
        about_user(before, UserKind::Old) == before + "old"@ + " user"@,
        about_user(before, UserKind::New) == before + "new"@ + " user"@,
{
}

/// What is said about a room that has causes tells all of them.
pub proof fn law_room_errors_tell_their_causes(error: RoomPlanError)
    ensures
        ({
            let told = error.spec_messages();
            &&& told.len() >= 1
            &&& match error {
                RoomPlanError::GetAlias(cause) => told.skip(1) == texts(cause.messages@),
                RoomPlanError::GetJoinRule(cause) => told.skip(1) == texts(cause.messages@),
                RoomPlanError::GetMembership(cause) => told.skip(1) == texts(cause.messages@),
                RoomPlanError::GetPowerLevels(cause) => told.skip(1) == texts(cause.messages@),
                RoomPlanError::GetServerAcl(cause) => told.skip(1) == texts(cause.messages@),
                RoomPlanError::RoomTagsFailed(RoomTagsPlanError::GetEvent(_, cause)) => told.skip(2)
                    == texts(cause.messages@),
                _ => told.len() == 1,
            }
        }),
{
    let told = error.spec_messages();
    match error {
        RoomPlanError::GetAlias(cause) => assert(told.skip(1) =~= texts(cause.messages@)),
        RoomPlanError::GetJoinRule(cause) => assert(told.skip(1) =~= texts(cause.messages@)),
        RoomPlanError::GetMembership(cause) => assert(told.skip(1) =~= texts(cause.messages@)),
        RoomPlanError::GetPowerLevels(cause) => assert(told.skip(1) =~= texts(cause.messages@)),
        RoomPlanError::GetServerAcl(cause) => assert(told.skip(1) =~= texts(cause.messages@)),
        RoomPlanError::RoomTagsFailed(RoomTagsPlanError::GetEvent(_, cause)) => assert(
            told.skip(2) =~= texts(cause.messages@)),
        _ => {},
    }
}

/// A conflict is told with its key and both values as they are shown, for tags and for ignored
/// users; a power level that cannot be copied is told with the level.
pub proof fn law_errors_tell_what_they_are_about(error: JsonMergeError, level: i64)
    ensures
        is_part(error.key@, RoomPlanError::RoomTagMerge(error).message()),
        is_part(shown(error.old_value@), RoomPlanError::RoomTagMerge(error).message()),
        is_part(shown(error.new_value@), RoomPlanError::RoomTagMerge(error).message()),
        is_part(error.key@, PlanError::IgnoredUserMerge(error).message()),
        is_part(shown(error.old_value@), PlanError::IgnoredUserMerge(error).message()),
        is_part(shown(error.new_value@), PlanError::IgnoredUserMerge(error).message()),
        is_part(
            decimal(level as int),
            RoomPlanError::CopyPowerLevel { old_power_level: level }.message(),
        ),
{
    let old = shown(error.old_value@);
    let new = shown(error.new_value@);
    let a = "cannot migrate "@;
    let b =
        " tag. Both the old and new users have a tag with this key, but they have \
                 different values. Old value is "@;
    let c = ". New value is "@;
    let tag = RoomPlanError::RoomTagMerge(error).message();
    assert(tag == a + error.key@ + b + old + c + new + "."@);
    assert(tag =~= a + error.key@ + (b + old + c + new + "."@));
    lemma_middle(a, error.key@, b + old + c + new + "."@);
    assert(tag =~= a + error.key@ + b + old + (c + new + "."@));
    lemma_middle(a + error.key@ + b, old, c + new + "."@);
    lemma_middle(a + error.key@ + b + old + c, new, "."@);
    let x =
        "old user and new user both have entries in the ignored users list for the \
                 user "@;
    let y =
        ", but they have different values. The 1.12 spec doesn't specify any semantics \
                 for these values, so the old user's entry cannot be merged into the new \
                 user's safely. The old value is\n         "@;
    let z = ". The new value is "@;
    let user = PlanError::IgnoredUserMerge(error).message();
    assert(user == x + error.key@ + y + old + z + new + "."@);
    assert(user =~= x + error.key@ + (y + old + z + new + "."@));
    lemma_middle(x, error.key@, y + old + z + new + "."@);
    assert(user =~= x + error.key@ + y + old + (z + new + "."@));
    lemma_middle(x + error.key@ + y, old, z + new + "."@);
    lemma_middle(x + error.key@ + y + old + z, new, "."@);
    lemma_middle(
        "old user does not have permission to copy their power level ("@,
        decimal(level as int),
        ") to new user"@,
    );
}

/// A conflict says the key and both values as they are shown.
pub proof fn law_conflicts_are_told(error: JsonMergeError)
    ensures
        is_part(error.key@, error.message()),
        is_part(shown(error.old_value@), error.message()),
        is_part(shown(error.new_value@), error.message()),
{
    let a = "key "@;
    let b = " cannot be merged because the old and new maps have different values. Old value "@;
    let c = ", new value "@;
    let old = shown(error.old_value@);
    let new = shown(error.new_value@);
    let text = error.message();
    assert(text == a + error.key@ + b + old + c + new);
    assert(text =~= a + error.key@ + (b + old + c + new));
    lemma_middle(a, error.key@, b + old + c + new);
    assert(text =~= a + error.key@ + b + old + (c + new));
    lemma_middle(a + error.key@ + b, old, c + new);
    assert(text =~= a + error.key@ + b + old + c + new + Seq::empty());
    lemma_middle(a + error.key@ + b + old + c, new, Seq::empty());
}

/// A history that may be hidden is told with what its visibility means, and with more if the new
/// user is in the room already. A setting that is not known is shown.
pub proof fn law_hidden_history_is_explained(visibility: HistoryVisibility)
    ensures
        ({
            let before = RoomPlanError::RestrictedHistoryVisibility {
                visibility,
                already_joined: false,
            }.message();
            let after = RoomPlanError::RestrictedHistoryVisibility {
                visibility,
                already_joined: true,
            }.message();
            &&& is_part(visibility_text(visibility), before)
            &&& before.is_prefix_of(after)
            &&& before.len() < after.len()
        }),
        visibility matches HistoryVisibility::Custom(setting) ==> is_part(
            debug_text(setting@),
            visibility_text(visibility),
        ),
{
    let a =
        "some of the message history visible to the old user may not be visible to the \
                 new user, because the room has restricted visible message history to only \
                 messages sent after a user "@;
    let b = ". If the old user leaves this room, some message history may be lost."@;
    let c =
        "The new user has already joined this room, but may have joined it later than \
                 the old user."@;
    let meaning = visibility_text(visibility);
    let before = RoomPlanError::RestrictedHistoryVisibility {
        visibility,
        already_joined: false,
    }.message();
    let after = RoomPlanError::RestrictedHistoryVisibility {
        visibility,
        already_joined: true,
    }.message();
    reveal_strlit("");
    reveal_strlit(
        "The new user has already joined this room, but may have joined it later than \
                 the old user.",
    );
    assert(before =~= a + meaning + b);
    lemma_middle(a, meaning, b);
    assert(after == a + meaning + b + c);
    assert(before =~= after.subrange(0, before.len() as int));
    match visibility {
        HistoryVisibility::Custom(setting) => {
            let start = "has an unrecognized history visibility setting "@;
            assert(meaning =~= start + debug_text(setting@) + Seq::empty());
            lemma_middle(start, debug_text(setting@), Seq::empty());
        },
        _ => {},
    }
}

/// A number below ten is written as one digit; ten times a number and one digit more is written as
/// that number with the digit behind it; and a negative number has a minus sign before it.
pub proof fn law_numbers_are_written_in_decimal(n: int, d: int)
    requires
        0 < n,
        0 <= d < 10,
    ensures
        decimal(d).len() == 1,
        decimal(d)[0] as int == '0' as int + d,
        decimal(10 * n + d) == decimal(n) + decimal(d),
        decimal(-n) == seq!['-'] + decimal(n),
{
    assert((10 * n + d) / 10 == n);
    assert((10 * n + d) % 10 == d);
    assert(decimal(10 * n + d) =~= decimal(n) + decimal(d));
}

/// What is said about the data outside of rooms tells all causes.
pub proof fn law_plan_errors_tell_their_causes(error: PlanError)
    ensures
        ({
            let told = error.spec_messages();
            match error {
                PlanError::DirectAccountDataFailed(
                    DirectAccountDataPlanError::GetEvent(_, cause),
                ) => told.len() == 2 + cause.messages@.len() && told.skip(2) == texts(
                    cause.messages@,
                ),
                PlanError::IgnoredUsersAccountDataFailed(
                    IgnoredUsersAccountDataPlanError::GetEvent(_, cause),
                ) => told.len() == 2 + cause.messages@.len() && told.skip(2) == texts(
                    cause.messages@,
                ),
                PlanError::IgnoredUserMerge(_) => told.len() == 1,
            }
        }),
{
    let told = error.spec_messages();
    match error {
        PlanError::DirectAccountDataFailed(DirectAccountDataPlanError::GetEvent(_, cause)) =>
            assert(told.skip(2) =~= texts(cause.messages@)),
        PlanError::IgnoredUsersAccountDataFailed(
            IgnoredUsersAccountDataPlanError::GetEvent(_, cause),
        ) => assert(told.skip(2) =~= texts(cause.messages@)),
        PlanError::IgnoredUserMerge(_) => {},
    }
}

/// What is said about a planning that cannot go on tells whose account it is about, and all causes.
pub proof fn law_fatal_errors_tell_their_causes(error: FatalPlanError)
    ensures
        ({
            let told = error.spec_messages();
            let (kind, cause) = match error {
                FatalPlanError::GetUserId(kind, cause) => (kind, cause),
                FatalPlanError::GetJoinedRooms(kind, cause) => (kind, cause),
            };
            &&& told.len() == 1 + cause.messages@.len()
            &&& told.skip(1) == texts(cause.messages@)
            &&& is_part(
                match kind {
                    UserKind::Old => "old"@,
                    UserKind::New => "new"@,
                },
                told[0],
            )
        }),
{
    let told = error.spec_messages();
    let (before, kind, cause) = match error {
        FatalPlanError::GetUserId(kind, cause) => ("failed to get user id for "@, kind, cause),
        FatalPlanError::GetJoinedRooms(kind, cause) => (
            "failed to get joined room list for "@,
            kind,
            cause,
        ),
    };
    assert(told.skip(1) =~= texts(cause.messages@));
    lemma_middle(before, kind.spec_name(), " user"@);
}

/// What is said about a failure tells all causes; where it has to do with global data, also the
/// type of the event.
pub proof fn law_failures_tell_their_causes(failure: Failure)
    ensures
        ({
            let told = failure.spec_messages();
            match failure {
                Failure::Room { error, .. } => match error {
                    RoomError::Invite(cause) => told.skip(1) == texts(cause.messages@),
                    RoomError::WaitInvite(cause) => told.skip(1) == texts(cause.messages@),
                    RoomError::Join(cause) => told.skip(1) == texts(cause.messages@),
                    RoomError::Leave(cause) => told.skip(1) == texts(cause.messages@),
                    RoomError::Tags(cause) => told.skip(1) == texts(cause.messages@),
                    RoomError::PowerLevel(PowerLevelError::Read(cause)) => told.skip(2) == texts(
                        cause.messages@,
                    ),
                    RoomError::PowerLevel(PowerLevelError::Write(cause)) => told.skip(2) == texts(
                        cause.messages@,
                    ),
                },
                Failure::Global { data, cause } => {
                    &&& told.skip(1) == texts(cause.messages@)
                    &&& is_part(data.spec_event_type(), told[0])
                },
            }
        }),
{
    let told = failure.spec_messages();
    match failure {
        Failure::Room { error, .. } => match error {
            RoomError::Invite(cause) => assert(told.skip(1) =~= texts(cause.messages@)),
            RoomError::WaitInvite(cause) => assert(told.skip(1) =~= texts(cause.messages@)),
            RoomError::Join(cause) => assert(told.skip(1) =~= texts(cause.messages@)),
            RoomError::Leave(cause) => assert(told.skip(1) =~= texts(cause.messages@)),
            RoomError::Tags(cause) => assert(told.skip(1) =~= texts(cause.messages@)),
            RoomError::PowerLevel(PowerLevelError::Read(cause)) => assert(told.skip(2) =~= texts(
                cause.messages@,
            )),
            RoomError::PowerLevel(PowerLevelError::Write(cause)) => assert(told.skip(2) =~= texts(
                cause.messages@,
            )),
        },
        Failure::Global { data, cause } => {
            assert(told.skip(1) =~= texts(cause.messages@));
            lemma_middle(
                "failed to set "@,
                data.spec_event_type(),
                " global account data event"@,
            );
        },
    }
}

/// What is said at the end of a run that failed tells all causes, and where an account has to do
/// with it, which one.
pub proof fn law_run_errors_tell_their_causes(error: Error)
    ensures
        ({
            let told = error.spec_messages();
            match error {
                Error::InitLogging(cause) => told.skip(1) == texts(cause.messages@),
                Error::DifferentServers => told.len() == 1,
                Error::InitClient(kind, cause) => told.skip(1) == texts(cause.messages@) && is_part(
                    kind.spec_name(),
                    told[0],
                ),
                Error::LogIn(kind, cause) => told.skip(1) == texts(cause.messages@) && is_part(
                    kind.spec_name(),
                    told[0],
                ),
                Error::LogOut => told.len() == 1,
                Error::InitClientState(kind, cause) => told.skip(1) == texts(cause.messages@)
                    && is_part(kind.spec_name(), told[0]),
                Error::MakePlan(error) => told.skip(1) == error.spec_messages(),
                Error::ExecutePlan(error) => told.len() == 2 && is_part(
                    decimal(error.error_count as int),
                    told[1],
                ),
            }
        }),
{
    let told = error.spec_messages();
    match error {
        Error::InitLogging(cause) => assert(told.skip(1) =~= texts(cause.messages@)),
        Error::InitClient(kind, cause) => {
            assert(told.skip(1) =~= texts(cause.messages@));
            lemma_middle("failed to initialize matrix client for "@, kind.spec_name(), " user"@);
        },
        Error::LogIn(kind, cause) => {
            assert(told.skip(1) =~= texts(cause.messages@));
            lemma_middle("failed to log in to "@, kind.spec_name(), " user"@);
        },
        Error::InitClientState(kind, cause) => {
            assert(told.skip(1) =~= texts(cause.messages@));
            lemma_middle("failed to initialize state accessor for "@, kind.spec_name(), " user"@);
        },
        Error::MakePlan(error) => assert(told.skip(1) =~= error.spec_messages()),
        Error::ExecutePlan(error) => lemma_middle(
            "migration encountered "@,
            decimal(error.error_count as int),
            " unexpected errors. See previous logs for details."@,
        ),
        _ => {},
    }
}

/// The two accounts are not called the same, nor are the two kinds of global data.
pub proof fn law_names_differ()
    ensures
        UserKind::Old.spec_name() == "old"@,
        UserKind::New.spec_name() == "new"@,
        UserKind::Old.spec_name() != UserKind::New.spec_name(),
{
    reveal_strlit("old");
    reveal_strlit("new");
    assert("old"@[0] == 'o');
    assert("new"@[0] == 'n');
}

} // verus!
