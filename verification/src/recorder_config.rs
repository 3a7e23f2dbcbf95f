//! Settings of the recorder and the checks that they go through.

use vstd::prelude::*;
use std::time::Duration;
use crate::text::{
    append_str, ascii_lowercase, chars_ascii_lowercase, chars_end_with, chars_equal,
    chars_to_string, ends_with, parse_int, parse_int_range, str_chars, trim, trim_bounds,
    IntErrorKind,
};

verus! {

broadcast use vstd::string::group_string_axioms;

/// Settings of the recorder.
#[derive(Debug)]
pub struct Config {
    pub api_endpoint: String,
    pub api_key: String,
    pub user_id: String,
    pub midi_port_name: String,
    pub idle_timeout: Duration,
    pub live_ws_endpoint: Option<String>,
}

/// `s` without trailing `/`.
pub open spec fn trim_end_slashes(s: Seq<char>) -> Seq<char>
    decreases s.len(),
{
    if s.len() > 0 && s.last() == '/' {
        trim_end_slashes(s.drop_last())
    } else {
        s
    }
}

/// The upload endpoint for a configured API endpoint: trailing slashes
/// dropped, and `/add` appended to an endpoint that ends in `/sessions`.
pub open spec fn upload_endpoint(endpoint: Seq<char>) -> Seq<char> {
    let t = trim_end_slashes(endpoint);
    if ends_with(t, "/sessions"@) {
        t + "/add"@
    } else {
        t
    }
}

/// Trimming slashes leaves no trailing slash, and trimming again changes
/// nothing.
proof fn lemma_trim_end_slashes(s: Seq<char>)
    ensures
        trim_end_slashes(s).len() > 0 ==> trim_end_slashes(s).last() != '/',
        trim_end_slashes(trim_end_slashes(s)) == trim_end_slashes(s),
    decreases s.len(),
{
    if s.len() > 0 && s.last() == '/' {
        lemma_trim_end_slashes(s.drop_last());
    }
}

/// Law: normalizing an endpoint that is already normalized changes
/// nothing.
pub proof fn law_upload_endpoint_idempotent(endpoint: Seq<char>)
    ensures
        upload_endpoint(upload_endpoint(endpoint)) == upload_endpoint(endpoint),
{
    let t = trim_end_slashes(endpoint);
    lemma_trim_end_slashes(endpoint);
    reveal_strlit("/sessions");
    reveal_strlit("/add");
    if ends_with(t, "/sessions"@) {
        let y = t + "/add"@;
        assert(y.last() == 'd');
        assert(trim_end_slashes(y) == y);
        assert(y.skip(y.len() - 9)[8] == 'd');
        assert(!ends_with(y, "/sessions"@));
    } else {
        assert(trim_end_slashes(t) == t);
    }
}

/// Turns a configured API endpoint into the upload endpoint
/// (`normalize_upload_endpoint`).
pub fn normalize_upload_endpoint(endpoint: String) -> (r: String)
    ensures
        r@ == upload_endpoint(endpoint@),
{
    let v = str_chars(endpoint.as_str());
    let mut b: usize = v.len();
    assert(v@.subrange(0, b as int) =~= v@);
    while b > 0 && v[b - 1] == '/'
        invariant
            b <= v.len(),
            trim_end_slashes(v@) == trim_end_slashes(v@.subrange(0, b as int)),
        decreases b,
    {
        assert(v@.subrange(0, b as int).drop_last() =~= v@.subrange(0, b - 1));
        b = b - 1;
    }
    let mut t = crate::text::slice_chars(&v, 0, b);
    assert(t@ == trim_end_slashes(v@));
    if chars_end_with(&t, "/sessions") {
        append_str(&mut t, "/add");
    }
    chars_to_string(&t)
}

/// `c` is an ASCII hexadecimal digit.
pub open spec fn is_hex_digit(c: char) -> bool {
    let n = c as u32;
    (48 <= n <= 57) || (65 <= n <= 70) || (97 <= n <= 102)
}

/// `s` is a UUID in text form: 36 characters, `-` at positions 8, 13, 18
/// and 23 and hexadecimal digits elsewhere.
pub open spec fn is_uuid_text(s: Seq<char>) -> bool {
    s.len() == 36 && forall|i: int| 0 <= i < 36 ==> if i == 8 || i == 13 || i == 18 || i == 23 {
        #[trigger] s[i] == '-'
    } else {
        is_hex_digit(s[i])
    }
}

/// Accepts the configured user id when it is a UUID (`parse_user_id`).
pub fn parse_user_id(value: String) -> (r: Result<String, String>)
    ensures
        is_uuid_text(value@) ==> (r matches Ok(s) && s@ == value@),
        !is_uuid_text(value@) ==> (r matches Err(e) && e@ == "RECORDER_USER_ID must be a valid user UUID from the backend"@),
{
    let v = str_chars(value.as_str());
    let mut valid = v.len() == 36;
    if valid {
        let mut i: usize = 0;
        while i < 36
            invariant
                v.len() == 36,
                v@ == value@,
                i <= 36,
                valid == forall|k: int| 0 <= k < i ==> if k == 8 || k == 13 || k == 18 || k == 23 {
                    #[trigger] v@[k] == '-'
                } else {
                    is_hex_digit(v@[k])
                },
            decreases 36 - i,
        {
            let c = v[i];
            let n = c as u32;
            let ok = if i == 8 || i == 13 || i == 18 || i == 23 {
                c == '-'
            } else {
                (48 <= n && n <= 57) || (65 <= n && n <= 70) || (97 <= n && n <= 102)
            };
            valid = valid && ok;
            i = i + 1;
        }
    }
    if valid {
        Ok(value)
    } else {
        Err("RECORDER_USER_ID must be a valid user UUID from the backend".to_string())
    }
}

/// The live-stream endpoint for the value of `LIVE_WS_ENDPOINT`: none when
/// it is `off` in any letter case, the value when it holds more than white
/// space, else the local default.
pub open spec fn live_endpoint(value: Option<Seq<char>>) -> Option<Seq<char>> {
    match value {
        Some(v) => if ascii_lowercase(v) == "off"@ {
            None
        } else if trim(v).len() > 0 {
            Some(v)
        } else {
            Some("ws://localhost:3000/sessions/live/record"@)
        },
        None => Some("ws://localhost:3000/sessions/live/record"@),
    }
}

/// The live-stream endpoint for the value of `LIVE_WS_ENDPOINT`, if it is
/// set (`optional_live_endpoint`).
pub fn live_endpoint_setting(value: Option<String>) -> (r: Option<String>)
    ensures
        match r {
            Some(s) => live_endpoint(match value { Some(v) => Some(v@), None => None }) == Some(s@),
            None => live_endpoint(match value { Some(v) => Some(v@), None => None }) is None,
        },
{
    match value {
        Some(v) => {
            let lowered = chars_ascii_lowercase(v.as_str());
            if chars_equal(&lowered, &str_chars("off")) {
                return None;
            }
            let chars = str_chars(v.as_str());
            let (a, b) = trim_bounds(&chars, 0, chars.len());
            assert(chars@.subrange(0, chars.len() as int) =~= chars@);
            if a < b {
                Some(v)
            } else {
                Some("ws://localhost:3000/sessions/live/record".to_string())
            }
        },
        None => Some("ws://localhost:3000/sessions/live/record".to_string()),
    }
}

/// A required setting `key` with the value `value`: accepted when it holds
/// more than white space, else the message that it must be set.
pub fn required_setting(key: &str, value: Option<String>) -> (r: Result<String, String>)
    ensures
        match value {
            Some(v) => if trim(v@).len() > 0 {
                r matches Ok(s) && s@ == v@
            } else {
                r matches Err(e) && e@ == key@ + " must be set in recorder/.env"@
            },
            None => r matches Err(e) && e@ == key@ + " must be set in recorder/.env"@,
        },
{
    match value {
        Some(v) => {
            let chars = str_chars(v.as_str());
            let (a, b) = trim_bounds(&chars, 0, chars.len());
            assert(chars@.subrange(0, chars.len() as int) =~= chars@);
            if a < b {
                return Ok(v);
            }
        },
        None => {},
    }
    let mut m = str_chars(key);
    append_str(&mut m, " must be set in recorder/.env");
    Err(chars_to_string(&m))
}

/// The message that std gives for an integer that does not parse.
pub open spec fn int_error_text(kind: IntErrorKind) -> Seq<char> {
    match kind {
        IntErrorKind::Empty => "cannot parse integer from empty string"@,
        IntErrorKind::InvalidDigit => "invalid digit found in string"@,
        IntErrorKind::PosOverflow => "number too large to fit in target type"@,
        IntErrorKind::NegOverflow => "number too small to fit in target type"@,
    }
}

/// A numeric setting: the number that `value` spells, `default` where the
/// setting is absent, or std's message where it does not parse as a `u64`
/// (`parse_env`).
pub fn parse_setting_u64(value: Option<String>, default: u64) -> (r: Result<u64, String>)
    ensures
        match value {
            None => r == Ok::<u64, String>(default),
            Some(v) => match parse_int(v@, 0, 0xFFFF_FFFF_FFFF_FFFF) {
                Ok(n) => r matches Ok(x) && x == n,
                Err(k) => r matches Err(e) && e@ == int_error_text(k),
            },
        },
{
    match value {
        None => Ok(default),
        Some(v) => {
            let chars = str_chars(v.as_str());
            assert(chars@.subrange(0, chars.len() as int) =~= chars@);
            match parse_int_range(&chars, 0, chars.len(), 0, 0xFFFF_FFFF_FFFF_FFFF) {
                Ok(n) => Ok(n as u64),
                Err(k) => Err(
                    match k {
                        IntErrorKind::Empty => "cannot parse integer from empty string".to_string(),
                        IntErrorKind::InvalidDigit => "invalid digit found in string".to_string(),
                        IntErrorKind::PosOverflow => "number too large to fit in target type".to_string(),
                        IntErrorKind::NegOverflow => "number too small to fit in target type".to_string(),
                    },
                ),
            }
        },
    }
}

} // verus!
