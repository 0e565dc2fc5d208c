//! API-key authentication of incoming requests.
use crate::text::{has_prefix, is_blank, starts_with, str_eq, str_is_blank, suffix_string};
use vstd::prelude::*;
use vstd::string::*;

verus! {

/// An authentication refusal: HTTP status, JSON-RPC error code and message.
#[derive(Debug)]
pub struct AuthReply {
    pub status: u16,
    pub code: i64,
    pub message: String,
}

/// What becomes of a request at the authentication step.
#[derive(Debug)]
pub enum AuthDecision {
    /// No keys are configured: every request passes.
    Open,
    /// The request presented the key at this position of the key list.
    Granted(usize),
    /// The request is refused.
    Denied(AuthReply),
}

/// `Bearer ` with its trailing space.
pub open spec fn bearer_prefix() -> Seq<char> {
    seq!['B', 'e', 'a', 'r', 'e', 'r', ' ']
}

/// The key a request presents: the rest of an `Authorization` header that
/// starts with `Bearer `, or else the `X-Api-Key` header.
pub open spec fn presented_key(authorization: Option<Seq<char>>, x_api_key: Option<Seq<char>>) -> Option<
    Seq<char>,
> {
    match authorization {
        Some(a) => if has_prefix(a, bearer_prefix()) {
            Some(a.subrange(7, a.len() as int))
        } else {
            x_api_key
        },
        None => x_api_key,
    }
}

/// The characters of a header, when present.
pub open spec fn header_text(h: Option<&str>) -> Option<Seq<char>> {
    match h {
        Some(s) => Some(s@),
        None => None,
    }
}

/// The characters of an owned string, when present.
pub open spec fn owned_text(h: Option<String>) -> Option<Seq<char>> {
    match h {
        Some(s) => Some(s@),
        None => None,
    }
}

/// The first position of `key` in `keys`.
pub open spec fn key_position(keys: Seq<Seq<char>>, key: Seq<char>, n: int) -> Option<int>
    decreases n,
{
    if n <= 0 {
        None
    } else {
        match key_position(keys, key, n - 1) {
            Some(i) => Some(i),
            None => if keys[n - 1] == key {
                Some(n - 1)
            } else {
                None
            },
        }
    }
}

proof fn lemma_key_position_stable(keys: Seq<Seq<char>>, key: Seq<char>, m: int, n: int)
    requires
        m <= n,
        key_position(keys, key, m) is Some,
    ensures
        key_position(keys, key, n) == key_position(keys, key, m),
    decreases n - m,
{
    if m < n {
        lemma_key_position_stable(keys, key, m, n - 1);
    }
}

/// The key a request presents, from the text of its `Authorization` and
/// `X-Api-Key` headers (absent, or not visible text).
pub fn extract_api_key(authorization: Option<&str>, x_api_key: Option<&str>) -> (r: Option<String>)
    ensures
        owned_text(r) == presented_key(header_text(authorization), header_text(x_api_key)),
{
    let bearer = String::from_str("Bearer ");
    proof {
        reveal_strlit("Bearer ");
        assert(bearer@ =~= bearer_prefix());
    }
    match authorization {
        Some(a) => {
            if starts_with(a, bearer.as_str()) {
                return Some(suffix_string(a, 7));
            }
        },
        None => {},
    }
    match x_api_key {
        Some(x) => Some(String::from_str(x)),
        None => None,
    }
}

/// The position of `key` in `keys`, if it is there.
fn find_key(keys: &Vec<String>, key: &str) -> (r: Option<usize>)
    ensures
        (match r { Some(i) => Some(i as int), None => None::<int> }) == key_position(keys.deep_view(), key@, keys@.len() as int),
{
    let mut i: usize = 0;
    while i < keys.len()
        invariant
            i <= keys@.len(),
            key_position(keys.deep_view(), key@, i as int) is None,
        decreases keys@.len() - i,
    {
        if str_eq(keys[i].as_str(), key) {
            assert(keys.deep_view()[i as int] == keys@[i as int]@);
            proof {
                lemma_key_position_stable(keys.deep_view(), key@, i + 1, keys@.len() as int);
            }
            return Some(i);
        }
        assert(keys.deep_view()[i as int] == keys@[i as int]@);
        i = i + 1;
    }
    None
}

/// Decides on a request from its headers and the configured keys. With no
/// keys every request passes. A missing or blank key is refused (401,
/// -32600, "Missing or invalid API key"), an unknown one likewise with
/// "Invalid API key"; a known key is granted by its position.
pub fn authorize(keys: &Vec<String>, authorization: Option<&str>, x_api_key: Option<&str>) -> (r: AuthDecision)
    ensures
        ({
            let presented = presented_key(header_text(authorization), header_text(x_api_key));
            if keys@.len() == 0 {
                r is Open
            } else {
                match presented {
                    None => r matches AuthDecision::Denied(e) && e.status == 401 && e.code == -32600
                        && e.message@ == "Missing or invalid API key"@,
                    Some(k) => if is_blank(k) {
                        r matches AuthDecision::Denied(e) && e.status == 401 && e.code == -32600
                            && e.message@ == "Missing or invalid API key"@
                    } else {
                        match key_position(keys.deep_view(), k, keys@.len() as int) {
                            Some(i) => r == AuthDecision::Granted(i as usize),
                            None => r matches AuthDecision::Denied(e) && e.status == 401 && e.code
                                == -32600 && e.message@ == "Invalid API key"@,
                        }
                    },
                }
            }
        }),
{
    if keys.len() == 0 {
        return AuthDecision::Open;
    }
    let missing = AuthDecision::Denied(
        AuthReply {
            status: 401,
            code: -32600,
            message: String::from_str("Missing or invalid API key"),
        },
    );
    match extract_api_key(authorization, x_api_key) {
        None => missing,
        Some(k) => {
            if str_is_blank(k.as_str()) {
                return missing;
            }
            match find_key(keys, k.as_str()) {
                Some(i) => AuthDecision::Granted(i),
                None => AuthDecision::Denied(
                    AuthReply { status: 401, code: -32600, message: String::from_str("Invalid API key") },
                ),
            }
        },
    }
}

/// The refusal when a key's own rate limit is exhausted (429, -32029).
pub fn key_rate_limited_reply() -> (r: AuthReply)
    ensures
        r.status == 429,
        r.code == -32029,
        r.message@ == "Rate limit exceeded for API key"@,
{
    AuthReply { status: 429, code: -32029, message: String::from_str("Rate limit exceeded for API key") }
}

} // verus!
