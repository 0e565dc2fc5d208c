//! What an incoming request body is, how many calls it carries, and the
//! error replies of the proxy.
use crate::health::state::bumped;
use crate::metrics::ChainMetrics;
use vstd::prelude::*;
use vstd::string::*;

verus! {

/// A request body as JSON: not JSON, a batch array, a single object, or
/// some other JSON value.
#[derive(Debug)]
pub enum ParsedBody {
    Invalid,
    Batch(Vec<serde_json::Value>),
    Single(serde_json::Value),
    Other,
}

/// The shape of the JSON text `body`: `(0, 0)` when it is not JSON,
/// `(1, n)` for an array of `n` items, `(2, 0)` for an object and `(3, 0)`
/// for any other value.
pub uninterp spec fn json_shape(body: Seq<u8>) -> (int, nat);

/// `serde_json::from_slice::<serde_json::Value>`, split by the kind of value:
/// the result depends on the bytes alone and its shape is named `json_shape`.
#[verifier::external_body]
pub(crate) fn parse_body(body: &[u8]) -> (r: ParsedBody)
    ensures
        match r {
            ParsedBody::Invalid => json_shape(body@) == (0int, 0nat),
            ParsedBody::Batch(items) => json_shape(body@) == (1int, items@.len()),
            ParsedBody::Single(_) => json_shape(body@) == (2int, 0nat),
            ParsedBody::Other => json_shape(body@) == (3int, 0nat),
        },
{
    match serde_json::from_slice::<serde_json::Value>(body) {
        Err(_) => ParsedBody::Invalid,
        Ok(serde_json::Value::Array(items)) => ParsedBody::Batch(items),
        Ok(v @ serde_json::Value::Object(_)) => ParsedBody::Single(v),
        Ok(_) => ParsedBody::Other,
    }
}

/// An error answered by the proxy itself: an HTTP status and a message.
#[derive(Debug)]
pub struct ProxyReply {
    pub status: u16,
    pub message: String,
}

/// How many JSON-RPC calls a request carries, and whether it is a batch.
#[derive(Debug, Clone, Copy, PartialEq, Eq)]
pub struct RequestKind {
    pub count: u64,
    pub is_batch: bool,
}

/// The calls a body of this shape carries, or why it is refused (400).
pub open spec fn request_kind_of(shape: (int, nat)) -> Option<RequestKind> {
    if shape.0 == 1 && shape.1 > 0 {
        Some(RequestKind { count: shape.1 as u64, is_batch: true })
    } else if shape.0 == 2 {
        Some(RequestKind { count: 1, is_batch: false })
    } else {
        None
    }
}

/// Counts the calls of a request body; a body that is not JSON, an empty
/// batch, or a JSON value that is neither object nor array is refused
/// with status 400.
pub fn classify_request(parsed: &ParsedBody) -> (r: Result<RequestKind, ProxyReply>)
    ensures
        match parsed {
            ParsedBody::Invalid => r matches Err(e) && e.status == 400 && e.message@
                == "Invalid JSON body"@,
            ParsedBody::Batch(items) => if items@.len() == 0 {
                r matches Err(e) && e.status == 400 && e.message@ == "Empty batch request"@
            } else {
                r == Ok::<RequestKind, ProxyReply>(
                    RequestKind { count: items@.len() as u64, is_batch: true },
                )
            },
            ParsedBody::Single(_) => r == Ok::<RequestKind, ProxyReply>(
                RequestKind { count: 1, is_batch: false },
            ),
            ParsedBody::Other => r matches Err(e) && e.status == 400 && e.message@
                == "Request must be a JSON-RPC object or batch array"@,
        },
{
    match parsed {
        ParsedBody::Invalid => Err(
            ProxyReply { status: 400, message: String::from_str("Invalid JSON body") },
        ),
        ParsedBody::Batch(items) => {
            if items.len() == 0 {
                Err(ProxyReply { status: 400, message: String::from_str("Empty batch request") })
            } else {
                Ok(RequestKind { count: items.len() as u64, is_batch: true })
            }
        },
        ParsedBody::Single(_) => Ok(RequestKind { count: 1, is_batch: false }),
        ParsedBody::Other => Err(
            ProxyReply {
                status: 400,
                message: String::from_str("Request must be a JSON-RPC object or batch array"),
            },
        ),
    }
}

/// Reads a request body: its JSON value, and how many calls it carries or
/// why it is refused, by the shape of the JSON text.
pub fn read_request(body: &[u8]) -> (r: (ParsedBody, Result<RequestKind, ProxyReply>))
    ensures
        json_shape(body@).0 == 0 ==> (r.1 matches Err(e) && e.status == 400 && e.message@
            == "Invalid JSON body"@),
        json_shape(body@).0 == 1 && json_shape(body@).1 == 0 ==> (r.1 matches Err(e) && e.status
            == 400 && e.message@ == "Empty batch request"@),
        json_shape(body@).0 == 3 ==> (r.1 matches Err(e) && e.status == 400 && e.message@
            == "Request must be a JSON-RPC object or batch array"@),
        request_kind_of(json_shape(body@)) matches Some(k) ==> r.1 == Ok::<RequestKind, ProxyReply>(k),
        r.0 is Batch <==> json_shape(body@).0 == 1,
        r.0 is Single <==> json_shape(body@).0 == 2,
{
    let parsed = parse_body(body);
    let kind = classify_request(&parsed);
    (parsed, kind)
}

/// Counting the calls of a body follows its JSON shape alone.
pub proof fn lemma_request_kind_follows_shape(body: Seq<u8>, parsed: ParsedBody)
    requires
        match parsed {
            ParsedBody::Invalid => json_shape(body) == (0int, 0nat),
            ParsedBody::Batch(items) => json_shape(body) == (1int, items@.len()),
            ParsedBody::Single(_) => json_shape(body) == (2int, 0nat),
            ParsedBody::Other => json_shape(body) == (3int, 0nat),
        },
        json_shape(body).1 <= u64::MAX,
    ensures
        match request_kind_of(json_shape(body)) {
            Some(k) => (parsed matches ParsedBody::Batch(items) && items@.len() > 0 && k.count
                == items@.len() && k.is_batch) || (parsed is Single && k.count == 1 && !k.is_batch),
            None => parsed is Invalid || parsed is Other || (parsed matches ParsedBody::Batch(items)
                && items@.len() == 0),
        },
{
}

/// Accepts a classified request: its calls are counted, then the chain's
/// rate limit decides (`allowed` is what the limiter answered). A refused
/// request is counted as rate limited and answered 429.
pub fn accept_request(metrics: &mut ChainMetrics, kind: RequestKind, allowed: bool) -> (r: Result<(), ProxyReply>)
    ensures
        allowed ==> r is Ok && *final(metrics) == (ChainMetrics {
            total_requests: bumped(old(metrics).total_requests, kind.count),
            ..*old(metrics)
        }),
        !allowed ==> {
            &&& r matches Err(e) && e.status == 429 && e.message@ == "Rate limit exceeded"@
            &&& *final(metrics) == (ChainMetrics {
                total_requests: bumped(old(metrics).total_requests, kind.count),
                rate_limited_requests: bumped(old(metrics).rate_limited_requests, 1),
                ..*old(metrics)
            })
        },
{
    metrics.record_requests(kind.count);
    if allowed {
        Ok(())
    } else {
        metrics.record_rate_limited();
        Err(rate_limited_reply())
    }
}

/// Counts a cache lookup of a cacheable call: a hit, which for a single
/// request also counts as a success (the batch counts its successes once
/// every item is answered), or a miss.
pub fn count_cache_lookup(metrics: &mut ChainMetrics, hit: bool, single: bool)
    ensures
        hit && single ==> *final(metrics) == (ChainMetrics {
            cache_hits: bumped(old(metrics).cache_hits, 1),
            successful_requests: bumped(old(metrics).successful_requests, 1),
            ..*old(metrics)
        }),
        hit && !single ==> *final(metrics) == (ChainMetrics {
            cache_hits: bumped(old(metrics).cache_hits, 1),
            ..*old(metrics)
        }),
        !hit ==> *final(metrics) == (ChainMetrics {
            cache_misses: bumped(old(metrics).cache_misses, 1),
            ..*old(metrics)
        }),
{
    if hit {
        metrics.record_cache_hit();
        if single {
            metrics.record_successes(1);
        }
    } else {
        metrics.record_cache_miss();
    }
}

/// 404 for a path that names no chain.
pub fn unknown_chain_reply(chain: &str) -> (r: ProxyReply)
    ensures
        r.status == 404,
        r.message@ == "Unknown chain: "@ + chain@,
{
    ProxyReply { status: 404, message: String::from_str("Unknown chain: ").concat(chain) }
}

/// 429 when the chain's rate limit refuses the request.
pub fn rate_limited_reply() -> (r: ProxyReply)
    ensures
        r.status == 429,
        r.message@ == "Rate limit exceeded"@,
{
    ProxyReply { status: 429, message: String::from_str("Rate limit exceeded") }
}

/// 503 when no endpoint may serve `method`.
pub fn no_endpoints_for_method_reply(method: &str) -> (r: ProxyReply)
    ensures
        r.status == 503,
        r.message@ == "No endpoints configured for method: "@ + method@,
{
    ProxyReply {
        status: 503,
        message: String::from_str("No endpoints configured for method: ").concat(method),
    }
}

/// 503 when no endpoint can be selected.
pub fn all_unhealthy_reply() -> (r: ProxyReply)
    ensures
        r.status == 503,
        r.message@ == "All endpoints are unhealthy"@,
{
    ProxyReply { status: 503, message: String::from_str("All endpoints are unhealthy") }
}

/// 502 when every attempt failed; `last_error` tells the last failure.
pub fn all_attempts_failed_reply(last_error: &str) -> (r: ProxyReply)
    ensures
        r.status == 502,
        r.message@ == "All attempts failed: "@ + last_error@,
{
    ProxyReply { status: 502, message: String::from_str("All attempts failed: ").concat(last_error) }
}

} // verus!
