//! The per-request decisions of the proxy: consult the cache, and settle an
//! upstream outcome into a reply, caching successes only.

use crate::cache::{expiry, fresh_payload, lemma_inserted_shape, ResponseCache};
use crate::lru_store::{inserted, keys_distinct, touched, Slot};
use crate::request_key::{request_key, request_key_of, ProxyQuery};
use vstd::prelude::*;

verus! {

/// The status of every locally generated failure (bad gateway).
pub const GATEWAY_FAILURE: u16 = 502;

/// What to do after consulting the cache.
pub enum Step {
    /// A fresh cached payload answers the request.
    Cached(String),
    /// Nothing fresh is cached: fetch this upstream URL.
    Fetch(String),
}

/// What the upstream exchange produced.
pub enum UpstreamOutcome {
    /// The request could not be sent or completed; the transport's message.
    SendFailed(String),
    /// A response came but its body was not JSON; the decoder's message.
    BodyUnreadable(String),
    /// A response with a JSON body (as text).
    Received { status: u16, body: String },
}

/// The JSON error object sent for a local failure.
pub struct ErrorResponse {
    pub error: String,
    pub status: u16,
}

pub enum ReplyBody {
    /// An upstream JSON body, relayed as it is.
    Payload(String),
    /// A locally generated error.
    Failure(ErrorResponse),
}

/// What the caller receives.
pub struct Reply {
    pub status: u16,
    pub body: ReplyBody,
}

pub open spec fn is_success(status: u16) -> bool {
    200 <= status && status <= 299
}

/// The status relayed for an upstream status: a valid code (three digits,
/// 100 to 999) as it is, anything else as an internal error.
pub open spec fn relayed_status(status: u16) -> u16 {
    if 100 <= status && status <= 999 {
        status
    } else {
        500
    }
}

pub open spec fn send_failure_text(m: Seq<char>) -> Seq<char> {
    "Failed to fetch from Songlink API: "@ + m
}

pub open spec fn parse_failure_text(m: Seq<char>) -> Seq<char> {
    "Failed to parse response: "@ + m
}

/// The reply is a gateway failure whose message is `msg`.
pub open spec fn is_gateway_failure(r: Reply, msg: Seq<char>) -> bool {
    &&& r.status == GATEWAY_FAILURE
    &&& r.body matches ReplyBody::Failure(e)
    &&& e.error@ == msg
    &&& e.status == GATEWAY_FAILURE
}

/// The reply relays `body` with `status`.
pub open spec fn is_payload(r: Reply, status: u16, body: Seq<char>) -> bool {
    &&& r.status == status
    &&& r.body matches ReplyBody::Payload(p)
    &&& p@ == body
}

/// The status to relay for an upstream status.
pub fn relay_status(status: u16) -> (r: u16)
    ensures
        r == relayed_status(status),
{
    if 100 <= status && status <= 999 {
        status
    } else {
        500
    }
}

fn failure(prefix: &str, message: &str) -> (r: Reply)
    ensures
        is_gateway_failure(r, prefix@ + message@),
{
    let mut text = String::new();
    text.append(prefix);
    text.append(message);
    Reply {
        status: GATEWAY_FAILURE,
        body: ReplyBody::Failure(ErrorResponse { error: text, status: GATEWAY_FAILURE }),
    }
}

/// Consults the cache for a lookup at time `now`: a fresh entry under the
/// lookup's key answers it; otherwise the key is the URL to fetch. Either
/// way a present key becomes the most recently used.
pub fn begin(cache: &mut ResponseCache, params: &ProxyQuery, now: u64) -> (r: Step)
    requires
        old(cache).wf(),
    ensures
        final(cache).wf(),
        final(cache).spec_capacity() == old(cache).spec_capacity(),
        final(cache).spec_ttl() == old(cache).spec_ttl(),
        final(cache)@ == touched(old(cache)@, request_key(*params)),
        match r {
            Step::Cached(p) => fresh_payload(old(cache)@, request_key(*params), now) == Some(p@),
            Step::Fetch(k) => k@ == request_key(*params) && fresh_payload(
                old(cache)@,
                request_key(*params),
                now,
            ) is None,
        },
{
    let key = request_key_of(params);
    match cache.get(&key, now) {
        Some(p) => Step::Cached(p),
        None => Step::Fetch(key),
    }
}

/// Turns the upstream outcome for `key` into the reply. A success (2xx) is
/// stored in the cache at `now` and relayed; any other status is relayed
/// with its body and leaves the cache alone; a failed exchange becomes a
/// gateway failure and leaves the cache alone.
pub fn settle(cache: &mut ResponseCache, key: String, outcome: UpstreamOutcome, now: u64) -> (r:
    Reply)
    requires
        old(cache).wf(),
    ensures
        final(cache).wf(),
        final(cache).spec_capacity() == old(cache).spec_capacity(),
        final(cache).spec_ttl() == old(cache).spec_ttl(),
        match outcome {
            UpstreamOutcome::SendFailed(m) => is_gateway_failure(r, send_failure_text(m@))
                && final(cache)@ == old(cache)@,
            UpstreamOutcome::BodyUnreadable(m) => is_gateway_failure(r, parse_failure_text(m@))
                && final(cache)@ == old(cache)@,
            UpstreamOutcome::Received { status, body } => if is_success(status) {
                is_payload(r, status, body@) && final(cache)@ == inserted(
                    old(cache)@,
                    old(cache).spec_capacity(),
                    (key@, body@, expiry(now, old(cache).spec_ttl())),
                )
            } else {
                is_payload(r, relayed_status(status), body@) && final(cache)@ == old(cache)@
            },
        },
{
    match outcome {
        UpstreamOutcome::SendFailed(m) => failure("Failed to fetch from Songlink API: ", m.as_str()),
        UpstreamOutcome::BodyUnreadable(m) => failure("Failed to parse response: ", m.as_str()),
        UpstreamOutcome::Received { status, body } => {
            if 200 <= status && status <= 299 {
                cache.put(key, body.clone(), now);
                Reply { status, body: ReplyBody::Payload(body) }
            } else {
                Reply { status: relay_status(status), body: ReplyBody::Payload(body) }
            }
        },
    }
}

/// A lookup repeated before the stored answer to the same lookup expires is
/// answered from the cache: once a success fetched at `t0` has been stored,
/// `begin` at `t1` finds a fresh payload and asks for no second fetch.
pub proof fn lemma_repeat_lookup_served_from_cache(
    es: Seq<Slot>,
    cap: nat,
    ttl: u64,
    q: ProxyQuery,
    body: Seq<char>,
    t0: u64,
    t1: u64,
)
    requires
        cap > 0,
        es.len() <= cap,
        keys_distinct(es),
        t1 < expiry(t0, ttl),
    ensures
        fresh_payload(
            inserted(es, cap, (request_key(q), body, expiry(t0, ttl))),
            request_key(q),
            t1,
        ) == Some(body),
{
    lemma_inserted_shape(es, cap, (request_key(q), body, expiry(t0, ttl)));
}

} // verus!
