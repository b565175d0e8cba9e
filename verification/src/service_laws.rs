//! Laws about waiting: for rate limits, and for invitations.

use vstd::prelude::*;

use crate::rate_limit::{
    abandoned, begun, is_replied, unused_endpoint, Endpoint, Moment, RetryAfter, Verdict,
};
use crate::state::means_absent;
use crate::sync::{awaited, is_invited, law_waiting_is_answered, notified, received, InviteState};

verus! {

/// The greater of two moments.
pub open spec fn later(a: int, b: int) -> int {
    if a < b {
        b
    } else {
        a
    }
}

/// The next request to an endpoint is made as soon as it may be, and not before: 200 milliseconds
/// after a reply that did not say otherwise; after one that did, once the delay has passed that it
/// named, or at the moment that it named, as far as the clocks advance alike, or after 5 seconds if
/// it named nothing; and at once if there was no request before, or if the time has passed.
pub proof fn law_requests_are_made_in_time(
    before: Seq<Endpoint>,
    after: Seq<Endpoint>,
    at: int,
    reply_at: u64,
    system_now: Moment,
    verdict: Verdict,
    now: u64,
)
    requires
        is_replied(before, after, at, reply_at, system_now, verdict),
    ensures
        ({
            let second: int = 1_000_000_000;
            let from = match verdict {
                Verdict::Accepted => reply_at + 200_000_000,
                Verdict::Limited(None) => reply_at + 5 * second,
                Verdict::Limited(Some(RetryAfter::Delay { secs, nanos })) => reply_at + secs * second
                    + nanos,
                Verdict::Limited(Some(RetryAfter::DateTime(moment))) => reply_at + (moment.secs
                    - system_now.secs) * second + (moment.nanos - system_now.nanos),
            };
            now + after[at].limit.spec_wait(now) == later(now as int, from)
        }),
        unused_endpoint().limit.spec_wait(now) == 0,
{
    if let Verdict::Limited(Some(RetryAfter::DateTime(moment))) = verdict {
        assert((moment.secs - system_now.secs) * 1_000_000_000 == moment.secs * 1_000_000_000
            - system_now.secs * 1_000_000_000);
    }
}

/// Beginning a call and giving one up do not change when the next request may be made; a call that
/// is given up, or whose request was not rate limited, leaves its endpoint to others, and one whose
/// request was rate limited keeps it. An endpoint that was added is not in use.
pub proof fn law_endpoints_are_handed_on(
    before: Seq<Endpoint>,
    after: Seq<Endpoint>,
    at: int,
    reply_at: u64,
    system_now: Moment,
    verdict: Verdict,
)
    requires
        0 <= at < before.len(),
    ensures
        begun(before, at)[at].limit == before[at].limit,
        begun(before, at).len() == before.len(),
        abandoned(before, at)[at].limit == before[at].limit,
        abandoned(before, at).len() == before.len(),
        !abandoned(before, at)[at].in_use,
        is_replied(before, after, at, reply_at, system_now, verdict) ==> {
            &&& after.len() == before.len()
            &&& verdict is Accepted ==> !after[at].in_use
            &&& verdict is Limited ==> after[at].in_use
        },
        !unused_endpoint().in_use,
{
}

/// An invitation that arrives is known from then on, and what is known about other rooms stays.
pub proof fn law_invitations_arrive(
    invites: Map<Seq<char>, InviteState>,
    rooms: Seq<Seq<char>>,
    room: Seq<char>,
)
    ensures
        ({
            let after = received(invites, rooms);
            &&& rooms.contains(room) ==> after.contains_key(room) && after[room]
                == InviteState::Invited
            &&& !rooms.contains(room) ==> {
                &&& after.contains_key(room) <==> invites.contains_key(room)
                &&& invites.contains_key(room) ==> after[room] == invites[room]
            }
        }),
{
}

/// Whoever waits for an invitation is known to wait unless it has arrived; that changes nothing for
/// other rooms, nor for a room that was known. An invitation counts as arrived only if it has.
pub proof fn law_waiting_is_known(
    invites: Map<Seq<char>, InviteState>,
    room: Seq<char>,
    other: Seq<char>,
)
    ensures
        ({
            let after = awaited(invites, room);
            &&& after.contains_key(room)
            &&& invites.contains_key(room) ==> after[room] == invites[room]
            &&& !invites.contains_key(room) ==> after[room] == InviteState::Pending
            &&& other != room ==> {
                &&& after.contains_key(other) <==> invites.contains_key(other)
                &&& invites.contains_key(other) ==> after[other] == invites[other]
            }
            &&& is_invited(invites, room) <==> invites.contains_key(room) && invites[room]
                == InviteState::Invited
        }),
{
}

/// Exactly those who wait are told of an invitation when it arrives.
pub proof fn law_those_who_wait_are_told(
    invites: Map<Seq<char>, InviteState>,
    rooms: Seq<Seq<char>>,
    room: Seq<char>,
)
    ensures
        notified(invites, rooms).contains(room) <==> rooms.contains(room) && invites.contains_key(
            room,
        ) && invites[room] == InviteState::Pending,
        forall|i: int, j: int|
            0 <= i < j < notified(invites, rooms).len() ==> #[trigger] notified(invites, rooms)[i]
                != #[trigger] notified(invites, rooms)[j],
{
    law_waiting_is_answered(invites, rooms, room);
}

/// What is missing is told from what cannot be read by the error code for missing things or by the
/// status 404, and by nothing else.
pub proof fn law_missing_things_are_recognized(not_found_code: bool, status: Option<u16>)
    ensures
        not_found_code ==> means_absent(not_found_code, status),
        !not_found_code ==> (means_absent(not_found_code, status) <==> status is Some && status->0
            == 404),
{
}

} // verus!
