//! The web client's request plumbing decisions: the bearer header, when a
//! 401 ends the session, which statuses succeed, how a failed response
//! becomes an error, and how an error reads.

use vstd::prelude::*;
use crate::board_rules::opt_view;
use crate::text::{owned, push_str, string_clone};

verus! {

/// A failed API call.
pub enum ApiError {
    /// The server answered with a non-success status.
    Http { status: u16, message: String, code: Option<String> },
    /// The server could not be reached.
    Network,
    /// Anything else (encoding or decoding).
    Unknown(String),
}

/// The `authorization` header value for a bearer token.
pub fn bearer_header(token: &str) -> (r: String)
    ensures
        r@ == "Bearer "@ + token@,
{
    let mut r = owned("Bearer ");
    push_str(&mut r, token);
    r
}

/// Does this 401 end the session? Only when the request carried a token
/// and that token is still the current one: a token-less request, or one
/// whose token has since been replaced, proves nothing about the session.
pub open spec fn expires_session(status: u16, sent: Option<Seq<char>>, current: Option<Seq<char>>) -> bool {
    status == 401 && sent is Some && current == sent
}

/// Whether a response with `status` ends the current session.
pub fn should_expire_session(status: u16, sent_token: Option<&str>, current_token: Option<&str>) -> (r: bool)
    ensures
        r == expires_session(
            status,
            match sent_token {
                Some(t) => Some(t@),
                None => None,
            },
            match current_token {
                Some(t) => Some(t@),
                None => None,
            },
        ),
{
    if status != 401 {
        return false;
    }
    match (sent_token, current_token) {
        (Some(s), Some(c)) => crate::text::str_eq(s, c),
        _ => false,
    }
}

/// Is `status` a success (2xx)?
pub fn is_success(status: u16) -> (r: bool)
    ensures
        r == (200 <= status < 300),
{
    200 <= status && status < 300
}

/// The error a failed response maps to: the error envelope's message and
/// code when the body held one, the raw body otherwise.
pub fn error_from_envelope(status: u16, body: &str, envelope: Option<(&str, &str)>) -> (r: ApiError)
    ensures
        r matches ApiError::Http { status: s, message, code } && s == status && match envelope {
            Some((c, m)) => message@ == m@ && opt_view(code) == Some(c@),
            None => message@ == body@ && code is None,
        },
{
    match envelope {
        Some((code, message)) => ApiError::Http { status, message: owned(message), code: Some(owned(code)) },
        None => ApiError::Http { status, message: owned(body), code: None },
    }
}

/// The error for a request body that could not be encoded.
pub fn encoding_error(path: &str, detail: &str) -> (r: ApiError)
    ensures
        r matches ApiError::Unknown(m) && m@ == "encoding "@ + path@ + ": "@ + detail@,
{
    let mut m = owned("encoding ");
    push_str(&mut m, path);
    push_str(&mut m, ": ");
    push_str(&mut m, detail);
    ApiError::Unknown(m)
}

/// The error for a response body that could not be decoded.
pub fn decoding_error(path: &str, detail: &str) -> (r: ApiError)
    ensures
        r matches ApiError::Unknown(m) && m@ == "decoding "@ + path@ + ": "@ + detail@,
{
    let mut m = owned("decoding ");
    push_str(&mut m, path);
    push_str(&mut m, ": ");
    push_str(&mut m, detail);
    ApiError::Unknown(m)
}

/// A short human line for a failed mutation.
pub open spec fn describe_spec(e: ApiError) -> Seq<char> {
    match e {
        ApiError::Http { code, message, .. } => match code {
            Some(c) => c@ + ": "@ + message@,
            None => message@,
        },
        ApiError::Network => "Could not reach the server."@,
        ApiError::Unknown(m) => m@,
    }
}

/// A short human line for a failed mutation.
pub fn describe(error: &ApiError) -> (r: String)
    ensures
        r@ == describe_spec(*error),
{
    match error {
        ApiError::Http { code, message, .. } => match code {
            Some(code) => {
                let mut r = string_clone(code);
                push_str(&mut r, ": ");
                push_str(&mut r, message.as_str());
                r
            },
            None => string_clone(message),
        },
        ApiError::Network => owned("Could not reach the server."),
        ApiError::Unknown(message) => string_clone(message),
    }
}

} // verus!
