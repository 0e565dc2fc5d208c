//! Upstream forwarding: how upstream answers are classified and which
//! credentials go with a request.
use crate::config::EndpointAuth;
use crate::text::decimal_string;
use base64::Engine;
use vstd::prelude::*;
use vstd::string::*;

verus! {

/// Why forwarding to an upstream endpoint failed.
#[derive(Debug)]
pub enum ForwardError {
    Timeout,
    ConnectionFailed(String),
    RateLimited,
    ServerError(u16),
    RequestFailed(String),
}

/// The human-readable text of a forwarding error.
pub open spec fn error_text(e: ForwardError) -> Seq<char> {
    match e {
        ForwardError::Timeout => "Request timed out"@,
        ForwardError::ConnectionFailed(m) => "Connection failed: "@ + m@,
        ForwardError::RateLimited => "Rate limited (429)"@,
        ForwardError::ServerError(code) => "Server error ("@ + crate::text::decimal(code as nat) + ")"@,
        ForwardError::RequestFailed(m) => "Request failed: "@ + m@,
    }
}

impl ForwardError {
    /// The human-readable text of this error.
    pub fn message(&self) -> (r: String)
        ensures
            r@ == error_text(*self),
    {
        match self {
            ForwardError::Timeout => String::from_str("Request timed out"),
            ForwardError::ConnectionFailed(e) => String::from_str("Connection failed: ").concat(
                e.as_str(),
            ),
            ForwardError::RateLimited => String::from_str("Rate limited (429)"),
            ForwardError::ServerError(code) => {
                let d = decimal_string(*code as u64);
                String::from_str("Server error (").concat(d.as_str()).concat(")")
            },
            ForwardError::RequestFailed(e) => String::from_str("Request failed: ").concat(
                e.as_str(),
            ),
        }
    }
}

/// The error an upstream HTTP status stands for: 429 is rate limiting, any
/// status from 500 up is a server error; other statuses carry a response.
pub fn classify_status(status: u16) -> (r: Option<ForwardError>)
    ensures
        status == 429 ==> r == Some(ForwardError::RateLimited),
        status != 429 && status >= 500 ==> r == Some(ForwardError::ServerError(status)),
        status != 429 && status < 500 ==> r is None,
{
    if status == 429 {
        Some(ForwardError::RateLimited)
    } else if status >= 500 {
        Some(ForwardError::ServerError(status))
    } else {
        None
    }
}

/// The character of a 6-bit value in the standard base64 alphabet.
pub open spec fn base64_char(v: int) -> char {
    if 0 <= v < 26 {
        ('A' as int + v) as char
    } else if 26 <= v < 52 {
        ('a' as int + v - 26) as char
    } else if 52 <= v < 62 {
        ('0' as int + v - 52) as char
    } else if v == 62 {
        '+'
    } else {
        '/'
    }
}

/// Standard base64 (RFC 4648, with `=` padding) of `b`.
pub open spec fn base64_standard(b: Seq<u8>) -> Seq<char>
    decreases b.len(),
{
    if b.len() == 0 {
        Seq::empty()
    } else if b.len() == 1 {
        let n = b[0] * 65536;
        seq![base64_char(n / 262144), base64_char((n / 4096) % 64), '=', '=']
    } else if b.len() == 2 {
        let n = b[0] * 65536 + b[1] * 256;
        seq![base64_char(n / 262144), base64_char((n / 4096) % 64), base64_char((n / 64) % 64), '=']
    } else {
        let n = b[0] * 65536 + b[1] * 256 + b[2];
        seq![
            base64_char(n / 262144),
            base64_char((n / 4096) % 64),
            base64_char((n / 64) % 64),
            base64_char(n % 64),
        ] + base64_standard(b.subrange(3, b.len() as int))
    }
}

/// `base64::engine::general_purpose::STANDARD.encode`: standard base64 with
/// padding of the UTF-8 bytes of `text`. The crate panics when the encoded
/// length overflows `usize`, which `requires` rules out.
#[verifier::external_body]
fn base64_encode(text: &str) -> (r: String)
    requires
        (text.spec_bytes().len() / 3 + 1) * 4 <= usize::MAX,
    ensures
        r@ == base64_standard(text.spec_bytes()),
{
    base64::engine::general_purpose::STANDARD.encode(text)
}

/// The header an endpoint's credentials add to each upstream request:
/// `Authorization: Basic base64(user:password)`, `Authorization: Bearer
/// token`, or the configured custom header.
pub fn auth_header(auth: &EndpointAuth) -> (r: (String, String))
    requires
        auth matches EndpointAuth::Basic { username, password } ==> (vstd::utf8::encode_utf8(
            username@ + ":"@ + password@,
        ).len() / 3 + 1) * 4 <= usize::MAX,
    ensures
        match auth {
            EndpointAuth::Basic { username, password } => r.0@ == "Authorization"@ && r.1@
                == "Basic "@ + base64_standard(vstd::utf8::encode_utf8(username@ + ":"@ + password@)),
            EndpointAuth::Bearer(token) => r.0@ == "Authorization"@ && r.1@ == "Bearer "@ + token@,
            EndpointAuth::Header { name, value } => r.0@ == name@ && r.1@ == value@,
        },
{
    match auth {
        EndpointAuth::Basic { username, password } => {
            let credentials = username.clone().concat(":").concat(password.as_str());
            let encoded = base64_encode(credentials.as_str());
            (String::from_str("Authorization"), String::from_str("Basic ").concat(encoded.as_str()))
        },
        EndpointAuth::Bearer(token) => (
            String::from_str("Authorization"),
            String::from_str("Bearer ").concat(token.as_str()),
        ),
        EndpointAuth::Header { name, value } => (name.clone(), value.clone()),
    }
}

} // verus!
