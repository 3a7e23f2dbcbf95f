//! Settings of the backend.

use vstd::prelude::*;
use crate::text::{append_str, chars_to_string, str_chars};

verus! {

broadcast use vstd::string::group_string_axioms;

/// Settings of the backend.
#[derive(Debug, Clone)]
pub struct Config {
    pub port: u16,
    pub database_url: String,
    pub jwt_secret: String,
    pub jwt_expiration_hours: u64,
    pub api_key: String,
    pub s3_access_key_id: String,
    pub s3_secret_access_key: String,
    pub s3_region: String,
    pub s3_endpoint: String,
    pub s3_bucket: String,
}

/// The message for a missing backend setting `key`.
pub fn missing_setting(key: &str) -> (r: String)
    ensures
        r@ == key@ + " must be set"@,
{
    let mut m = str_chars(key);
    append_str(&mut m, " must be set");
    chars_to_string(&m)
}

} // verus!
