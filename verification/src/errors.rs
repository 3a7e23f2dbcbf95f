//! Errors that the API answers with: an HTTP status and a message.

use vstd::prelude::*;
use crate::text::{append_str, chars_to_string, str_chars, str_equal};

verus! {

broadcast use vstd::string::group_string_axioms;

/// An API error: the HTTP status code of the answer and its message.
#[derive(Debug)]
pub struct ApiError {
    pub status: u16,
    pub message: String,
}

/// The reason phrase that the `http` crate knows for a status code
/// (`StatusCode::from_u16` then `canonical_reason`); `None` for a code it
/// does not accept or has no phrase for.
pub uninterp spec fn reason_phrase(code: u16) -> Option<Seq<char>>;

/// `http::StatusCode::canonical_reason` of the code `code`. Trusted: the
/// phrase is the one `reason_phrase` names for the code, `None` where
/// `StatusCode::from_u16` refuses the code or the crate has no phrase.
#[verifier::external_body]
fn canonical_reason(code: u16) -> (r: Option<&'static str>)
    ensures
        match r {
            Some(s) => reason_phrase(code) == Some(s@),
            None => reason_phrase(code) is None,
        },
{
    match http::StatusCode::from_u16(code) {
        Ok(status) => status.canonical_reason(),
        Err(_) => None,
    }
}

/// What went wrong in a database call, as far as the answer depends on it.
pub enum DbFailure {
    /// A record that was asked for does not exist.
    RecordNotFound,
    /// The database cannot be reached.
    Connection,
    /// Any other failure, with its text.
    Other(String),
}

/// Builds `prefix` followed by `detail`.
fn prefixed_message(prefix: &str, detail: &str) -> (r: String)
    ensures
        r@ == prefix@ + detail@,
{
    let mut v = str_chars(prefix);
    append_str(&mut v, detail);
    chars_to_string(&v)
}

impl ApiError {
    /// An error with the given status and message (`ApiError::new`).
    pub fn new(status: u16, message: String) -> (r: Self)
        ensures
            r.status == status,
            r.message@ == message@,
    {
        ApiError { status, message }
    }

    /// The answer to a failed database call: 404 for a missing record, 503
    /// when the database is unreachable, else 400 with the failure's text.
    pub fn from_db_failure(failure: DbFailure) -> (r: Self)
        ensures
            match failure {
                DbFailure::RecordNotFound => r.status == 404 && r.message@ == "Record not found"@,
                DbFailure::Connection => r.status == 503 && r.message@ == "Database unavailable"@,
                DbFailure::Other(text) => r.status == 400 && r.message@ == text@,
            },
    {
        match failure {
            DbFailure::RecordNotFound => ApiError::new(404, "Record not found".to_string()),
            DbFailure::Connection => ApiError::new(503, "Database unavailable".to_string()),
            DbFailure::Other(text) => ApiError::new(400, text),
        }
    }

    /// The answer for a bare status code: its reason phrase, or
    /// `Unknown error` where it has none.
    pub fn from_status(code: u16) -> (r: Self)
        ensures
            r.status == code,
            r.message@ == match reason_phrase(code) {
                Some(p) => p,
                None => "Unknown error"@,
            },
    {
        let message = match canonical_reason(code) {
            Some(p) => p.to_string(),
            None => "Unknown error".to_string(),
        };
        ApiError::new(code, message)
    }

    /// The answer to a malformed multipart upload: 400.
    pub fn from_multipart_failure(detail: &str) -> (r: Self)
        ensures
            r.status == 400,
            r.message@ == "Invalid multipart request: "@ + detail@,
    {
        ApiError::new(400, prefixed_message("Invalid multipart request: ", detail))
    }

    /// The answer to a JSON payload that does not parse: 400.
    pub fn from_json_failure(detail: &str) -> (r: Self)
        ensures
            r.status == 400,
            r.message@ == "Invalid JSON payload: "@ + detail@,
    {
        ApiError::new(400, prefixed_message("Invalid JSON payload: ", detail))
    }

    /// The answer to a failed object-storage request: 400.
    pub fn from_storage_failure(detail: &str) -> (r: Self)
        ensures
            r.status == 400,
            r.message@ == "Invalid S3 request: "@ + detail@,
    {
        ApiError::new(400, prefixed_message("Invalid S3 request: ", detail))
    }

    /// The answer to a failed file operation: 400.
    pub fn from_io_failure(detail: &str) -> (r: Self)
        ensures
            r.status == 400,
            r.message@ == "std::io::Error request: "@ + detail@,
    {
        ApiError::new(400, prefixed_message("std::io::Error request: ", detail))
    }
}

/// The API key check of a protected route: a request without a readable
/// `x-api-key` header is answered 401 with the status's reason phrase, one
/// with another key 401 with an empty message; the configured key passes.
pub fn check_api_key(provided: Option<&str>, expected: &str) -> (r: Result<(), ApiError>)
    ensures
        match provided {
            None => r matches Err(e) && e.status == 401 && e.message@ == match reason_phrase(401) {
                Some(p) => p,
                None => "Unknown error"@,
            },
            Some(k) => if k@ == expected@ {
                r is Ok
            } else {
                r matches Err(e) && e.status == 401 && e.message@ == Seq::<char>::empty()
            },
        },
{
    match provided {
        None => Err(ApiError::from_status(401)),
        Some(k) => if str_equal(k, expected) {
            Ok(())
        } else {
            Err(ApiError::new(401, String::new()))
        },
    }
}

} // verus!
