//! When the next request to an endpoint may be made.

use vstd::prelude::*;

verus! {

/// Default period to wait between requests that are not rate limited, in nanoseconds.
pub const DEFAULT_REQUEST_PERIOD: i128 = 200_000_000;

/// Default period to wait before a rate limited request is tried again, in nanoseconds, if the
/// server does not say when.
pub const DEFAULT_RETRY_AFTER: i128 = 5_000_000_000;

/// A moment as a system clock shows it, since the start of the year 1970.
#[derive(Clone, Copy)]
pub struct Moment {
    pub secs: i64,
    pub nanos: u32,
}

impl Moment {
    /// The nanoseconds since the start of the year 1970.
    pub open spec fn total(self) -> int {
        self.secs * 1_000_000_000 + self.nanos
    }

    fn to_nanos(&self) -> (nanos: i128)
        ensures
            nanos == self.total(),
    {
        self.secs as i128 * 1_000_000_000 + self.nanos as i128
    }
}

/// When a server wants a request to be tried again.
#[derive(Clone, Copy)]
pub enum RetryAfter {
    /// After some time.
    Delay { secs: u64, nanos: u32 },
    /// At some moment.
    DateTime(Moment),
}

/// What the reply to a request says about its rate.
#[derive(Clone, Copy)]
pub enum Verdict {
    /// The request was not rate limited.
    Accepted,
    /// The request was rate limited.
    Limited(Option<RetryAfter>),
}

/// How long after a reply the next request may be made, in nanoseconds. This is negative where the
/// server names a moment in the past.
pub open spec fn pause(verdict: Verdict, system_now: Moment) -> int {
    match verdict {
        Verdict::Accepted => DEFAULT_REQUEST_PERIOD as int,
        Verdict::Limited(None) => DEFAULT_RETRY_AFTER as int,
        Verdict::Limited(Some(RetryAfter::Delay { secs, nanos })) => secs * 1_000_000_000 + nanos,
        Verdict::Limited(Some(RetryAfter::DateTime(moment))) => moment.total() - system_now.total(),
    }
}

/// The rate limiting state of an endpoint. Times are in nanoseconds on a clock that does not jump.
#[derive(Clone, Copy)]
pub struct LimitState {
    /// The time from which on the next request may be made; `None` if there was no request yet.
    pub next_request: Option<i128>,
}

impl LimitState {
    /// The state of an endpoint that was not asked yet.
    pub fn new() -> (state: LimitState)
        ensures
            state.next_request is None,
    {
        LimitState { next_request: None }
    }

    /// How long to wait before the next request.
    pub open spec fn spec_wait(self, now: u64) -> int {
        match self.next_request {
            Some(time) => if time > now {
                time - now
            } else {
                0
            },
            None => 0,
        }
    }

    /// How long to wait before the next request.
    pub fn wait(&self, now: u64) -> (nanos: i128)
        ensures
            nanos == self.spec_wait(now),
    {
        match self.next_request {
            Some(time) => if time > now as i128 {
                time - now as i128
            } else {
                0
            },
            None => 0,
        }
    }

    /// Takes in the reply to a request. Returns whether the request has to be made again.
    pub fn record(&mut self, now: u64, system_now: Moment, verdict: Verdict) -> (again: bool)
        ensures
            final(self).next_request is Some,
            final(self).next_request->0 == now + pause(verdict, system_now),
            again == (verdict is Limited),
    {
        let pause: i128 = match verdict {
            Verdict::Accepted => DEFAULT_REQUEST_PERIOD,
            Verdict::Limited(None) => DEFAULT_RETRY_AFTER,
            Verdict::Limited(Some(RetryAfter::Delay { secs, nanos })) => secs as i128
                * 1_000_000_000 + nanos as i128,
            Verdict::Limited(Some(RetryAfter::DateTime(moment))) => moment.to_nanos()
                - system_now.to_nanos(),
        };
        self.next_request = Some(now as i128 + pause);
        match verdict {
            Verdict::Accepted => false,
            Verdict::Limited(_) => true,
        }
    }
}

/// What is known about an endpoint.
#[derive(Clone, Copy)]
pub struct Endpoint {
    pub limit: LimitState,
    /// A call is using the endpoint: it waits for its next attempt, or for a reply.
    pub in_use: bool,
}

/// An endpoint that was not asked yet.
pub open spec fn unused_endpoint() -> Endpoint {
    Endpoint { limit: LimitState { next_request: None }, in_use: false }
}

/// The endpoints once a call uses one of them.
pub open spec fn begun(endpoints: Seq<Endpoint>, at: int) -> Seq<Endpoint> {
    endpoints.update(at, Endpoint { in_use: true, ..endpoints[at] })
}

/// Whether a reply for one of the endpoints leaves some endpoints behind: the next request is put
/// off, and the endpoint stays in use exactly if the request has to be made again.
pub open spec fn is_replied(
    before: Seq<Endpoint>,
    after: Seq<Endpoint>,
    at: int,
    now: u64,
    system_now: Moment,
    verdict: Verdict,
) -> bool {
    &&& after == before.update(at, after[at])
    &&& after[at].limit.next_request is Some
    &&& after[at].limit.next_request->0 == now + pause(verdict, system_now)
    &&& after[at].in_use == (verdict is Limited)
}

/// The endpoints once the call that uses one of them is given up.
pub open spec fn abandoned(endpoints: Seq<Endpoint>, at: int) -> Seq<Endpoint> {
    endpoints.update(at, Endpoint { in_use: false, ..endpoints[at] })
}

/// The rate limiting states of all endpoints, by their numbers.
///
/// Endpoints are tracked independently, because servers may limit each of them on its own. Only
/// one call at a time uses an endpoint, so that not everybody tries again at once when the limit
/// is over.
pub struct Limits {
    endpoints: Vec<Endpoint>,
}

impl View for Limits {
    type V = Seq<Endpoint>;

    closed spec fn view(&self) -> Seq<Endpoint> {
        self.endpoints@
    }
}

impl Limits {
    /// No endpoint is known yet.
    pub fn new() -> (limits: Limits)
        ensures
            limits@ == Seq::<Endpoint>::empty(),
    {
        Limits { endpoints: Vec::new() }
    }

    /// Adds an endpoint. Returns its number, which no other endpoint has.
    pub fn add_endpoint(&mut self) -> (number: usize)
        ensures
            number == old(self)@.len(),
            final(self)@ == old(self)@.push(unused_endpoint()),
    {
        let number = self.endpoints.len();
        self.endpoints.push(Endpoint { limit: LimitState::new(), in_use: false });
        number
    }

    /// A call wants to use an endpoint. Returns how long it has to wait before its request; `None`
    /// if another call is using the endpoint.
    pub fn begin(&mut self, endpoint: usize, now: u64) -> (wait: Option<i128>)
        requires
            endpoint < old(self)@.len(),
        ensures
            match wait {
                Some(nanos) => {
                    &&& !old(self)@[endpoint as int].in_use
                    &&& nanos == old(self)@[endpoint as int].limit.spec_wait(now)
                    &&& final(self)@ == begun(old(self)@, endpoint as int)
                },
                None => old(self)@[endpoint as int].in_use && final(self)@ == old(self)@,
            },
    {
        let state = self.endpoints[endpoint];
        if state.in_use {
            return None;
        }
        self.endpoints.set(endpoint, Endpoint { in_use: true, ..state });
        Some(state.limit.wait(now))
    }

    /// The call that uses an endpoint has got a reply. Returns how long it has to wait before it
    /// makes the request again; `None` if it is done and others can use the endpoint.
    pub fn reply(&mut self, endpoint: usize, now: u64, system_now: Moment, verdict: Verdict) -> (
        wait: Option<i128>)
        requires
            endpoint < old(self)@.len(),
        ensures
            is_replied(old(self)@, final(self)@, endpoint as int, now, system_now, verdict),
            match wait {
                Some(nanos) => verdict is Limited && nanos
                    == final(self)@[endpoint as int].limit.spec_wait(now),
                None => verdict is Accepted,
            },
    {
        let mut limit = self.endpoints[endpoint].limit;
        let again = limit.record(now, system_now, verdict);
        self.endpoints.set(endpoint, Endpoint { limit, in_use: again });
        if again {
            Some(limit.wait(now))
        } else {
            None
        }
    }

    /// The call that uses an endpoint is given up, so that others can use the endpoint.
    pub fn abandon(&mut self, endpoint: usize)
        requires
            endpoint < old(self)@.len(),
        ensures
            final(self)@ == abandoned(old(self)@, endpoint as int),
    {
        let state = self.endpoints[endpoint];
        self.endpoints.set(endpoint, Endpoint { in_use: false, ..state });
    }
}

/// What happens on one endpoint leaves every other one as it was, so calls to different endpoints
/// do not delay each other.
pub proof fn law_endpoints_are_independent(
    before: Seq<Endpoint>,
    after: Seq<Endpoint>,
    at: int,
    other: int,
    now: u64,
    system_now: Moment,
    verdict: Verdict,
)
    requires
        0 <= at < before.len(),
        0 <= other < before.len(),
        at != other,
        after == begun(before, at) || after == abandoned(before, at) || is_replied(
            before,
            after,
            at,
            now,
            system_now,
            verdict,
        ),
    ensures
        after[other] == before[other],
        before.push(unused_endpoint())[other] == before[other],
{
}

/// Calls to one endpoint do not overlap: once a call uses it, no other can begin until the reply
/// that the call is done with, or until it is given up, whatever happens on other endpoints.
pub proof fn law_calls_do_not_overlap(
    before: Seq<Endpoint>,
    after: Seq<Endpoint>,
    at: int,
    acting: int,
    now: u64,
    system_now: Moment,
    verdict: Verdict,
)
    requires
        0 <= at < before.len(),
        0 <= acting < before.len(),
    ensures
        begun(before, at)[at].in_use,
        before[at].in_use ==> begun(before, acting)[at].in_use,
        before[at].in_use && acting != at ==> abandoned(before, acting)[at].in_use,
        is_replied(before, after, acting, now, system_now, verdict) && before[at].in_use
            && !after[at].in_use ==> acting == at && verdict is Accepted,
{
}

/// After a request that was not rate limited, the next one to the endpoint waits until the default
/// period has passed since the reply, and no longer.
pub proof fn law_requests_are_spaced(
    before: Seq<Endpoint>,
    after: Seq<Endpoint>,
    at: int,
    reply_at: u64,
    system_now: Moment,
    now: u64,
)
    requires
        is_replied(before, after, at, reply_at, system_now, Verdict::Accepted),
        reply_at <= now,
    ensures
        ({
            let wait = after[at].limit.spec_wait(now);
            &&& now + wait >= reply_at + DEFAULT_REQUEST_PERIOD
            &&& now >= reply_at + DEFAULT_REQUEST_PERIOD ==> wait == 0
        }),
{
}

/// A rate limited request is not made again before the server allows it: not before the delay has
/// passed, not before the moment that the server names, as far as the clocks advance alike, and not
/// before the default period has passed if the server does not say when.
pub proof fn law_limits_are_respected(
    before: Seq<Endpoint>,
    after: Seq<Endpoint>,
    at: int,
    reply_at: u64,
    system_now: Moment,
    retry_after: Option<RetryAfter>,
    now: u64,
)
    requires
        is_replied(before, after, at, reply_at, system_now, Verdict::Limited(retry_after)),
    ensures
        ({
            let wait = after[at].limit.spec_wait(now);
            match retry_after {
                Some(RetryAfter::Delay { secs, nanos }) => now + wait >= reply_at + secs
                    * 1_000_000_000 + nanos,
                Some(RetryAfter::DateTime(moment)) => system_now.total() + (now + wait - reply_at)
                    >= moment.total(),
                None => now + wait >= reply_at + DEFAULT_RETRY_AFTER,
            }
        }),
{
}

} // verus!
