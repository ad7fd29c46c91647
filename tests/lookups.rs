use songlink_proxy::cache::ResponseCache;
use songlink_proxy::proxy::{begin, relay_status, settle, Reply, ReplyBody, Step, UpstreamOutcome};
use songlink_proxy::request_key::ProxyQuery;

fn query(url: &str) -> ProxyQuery {
    ProxyQuery {
        url: url.to_string(),
        user_country: None,
        song_if_single: None,
        platform: None,
        entity_type: None,
        id: None,
        key: None,
    }
}

/// Runs one lookup against a scripted upstream, counting its calls.
fn lookup(
    cache: &mut ResponseCache,
    q: &ProxyQuery,
    now: u64,
    calls: &mut Vec<String>,
    upstream: &dyn Fn() -> UpstreamOutcome,
) -> Reply {
    match begin(cache, q, now) {
        Step::Cached(p) => Reply { status: 200, body: ReplyBody::Payload(p) },
        Step::Fetch(k) => {
            calls.push(k.clone());
            settle(cache, k, upstream(), now)
        }
    }
}

fn payload(r: &Reply) -> &str {
    match &r.body {
        ReplyBody::Payload(p) => p.as_str(),
        ReplyBody::Failure(_) => panic!("expected a payload"),
    }
}

#[test]
fn success_is_fetched_once_then_cached() {
    let mut cache = ResponseCache::with_defaults();
    let q = query("https://monochrome.tf/#/track/1");
    let mut calls = Vec::new();
    let ok = || UpstreamOutcome::Received { status: 200, body: "{\"entityUniqueId\":\"X\"}".to_string() };
    let first = lookup(&mut cache, &q, 0, &mut calls, &ok);
    assert_eq!(first.status, 200);
    assert_eq!(payload(&first), "{\"entityUniqueId\":\"X\"}");
    assert_eq!(
        calls,
        vec!["https://api.song.link/v1-alpha.1/links?url=https%3A%2F%2Flisten.tidal.com%2F%23%2Ftrack%2F1".to_string()]
    );
    let second = lookup(&mut cache, &q, 1000, &mut calls, &ok);
    assert_eq!(second.status, 200);
    assert_eq!(payload(&second), "{\"entityUniqueId\":\"X\"}");
    assert_eq!(calls.len(), 1);
}

#[test]
fn cached_answer_expires_after_ttl() {
    let mut cache = ResponseCache::new(4, 10);
    let q = query("https://example.com/a");
    let mut calls = Vec::new();
    let ok = || UpstreamOutcome::Received { status: 200, body: "{}".to_string() };
    lookup(&mut cache, &q, 0, &mut calls, &ok);
    lookup(&mut cache, &q, 9, &mut calls, &ok);
    assert_eq!(calls.len(), 1);
    lookup(&mut cache, &q, 10, &mut calls, &ok);
    assert_eq!(calls.len(), 2);
}

#[test]
fn upstream_error_is_relayed_and_not_cached() {
    let mut cache = ResponseCache::with_defaults();
    let q = query("https://example.com/missing");
    let mut calls = Vec::new();
    let not_found = || UpstreamOutcome::Received { status: 404, body: "{\"error\":\"not found\"}".to_string() };
    let first = lookup(&mut cache, &q, 0, &mut calls, &not_found);
    assert_eq!(first.status, 404);
    assert_eq!(payload(&first), "{\"error\":\"not found\"}");
    let second = lookup(&mut cache, &q, 1, &mut calls, &not_found);
    assert_eq!(second.status, 404);
    assert_eq!(calls.len(), 2);
}

#[test]
fn transport_failure_is_a_gateway_error() {
    let mut cache = ResponseCache::with_defaults();
    let q = query("https://example.com/slow");
    let mut calls = Vec::new();
    let timeout = || UpstreamOutcome::SendFailed("operation timed out".to_string());
    let r = lookup(&mut cache, &q, 0, &mut calls, &timeout);
    assert_eq!(r.status, 502);
    match &r.body {
        ReplyBody::Failure(e) => {
            assert_eq!(e.status, 502);
            assert_eq!(e.error, "Failed to fetch from Songlink API: operation timed out");
        }
        ReplyBody::Payload(_) => panic!("expected a failure"),
    }
    lookup(&mut cache, &q, 1, &mut calls, &timeout);
    assert_eq!(calls.len(), 2);
}

#[test]
fn unreadable_body_is_a_gateway_error() {
    let mut cache = ResponseCache::new(2, 10);
    let r = settle(&mut cache, "k".to_string(), UpstreamOutcome::BodyUnreadable("expected value".to_string()), 0);
    assert_eq!(r.status, 502);
    match &r.body {
        ReplyBody::Failure(e) => {
            assert_eq!(e.status, 502);
            assert_eq!(e.error, "Failed to parse response: expected value");
        }
        ReplyBody::Payload(_) => panic!("expected a failure"),
    }
    assert_eq!(cache.get(&"k".to_string(), 0), None);
}

#[test]
fn other_success_codes_are_cached_with_their_status() {
    let mut cache = ResponseCache::new(2, 10);
    let r = settle(&mut cache, "k".to_string(), UpstreamOutcome::Received { status: 203, body: "[1]".to_string() }, 0);
    assert_eq!(r.status, 203);
    assert_eq!(cache.get(&"k".to_string(), 1), Some("[1]".to_string()));
}

#[test]
fn relayed_status_codes() {
    assert_eq!(relay_status(404), 404);
    assert_eq!(relay_status(100), 100);
    assert_eq!(relay_status(999), 999);
    assert_eq!(relay_status(99), 500);
    assert_eq!(relay_status(1000), 500);
}
