//! Recorded sessions: the checks on an upload and the object-storage keys
//! of its MIDI file.

use vstd::prelude::*;
use crate::errors::ApiError;
use crate::text::{
    append_str, ascii_lowercase, chars_ascii_lowercase, chars_to_string, str_chars, trim,
    trim_bounds,
};

verus! {

broadcast use vstd::string::group_string_axioms;

#[verifier::external_type_specification]
#[verifier::external_body]
pub struct ExUuid(uuid::Uuid);

/// A point in time in UTC: whole seconds since the Unix epoch and the
/// nanoseconds within that second.
#[derive(Clone, Copy, Debug)]
pub struct Timestamp {
    pub seconds: i64,
    pub nanos: u32,
}

/// `a` lies before `b`.
pub open spec fn earlier_than(a: Timestamp, b: Timestamp) -> bool {
    a.seconds < b.seconds || (a.seconds == b.seconds && a.nanos < b.nanos)
}

/// Whether `a` lies before `b`.
pub fn is_earlier(a: Timestamp, b: Timestamp) -> (r: bool)
    ensures
        r == earlier_than(a, b),
{
    a.seconds < b.seconds || (a.seconds == b.seconds && a.nanos < b.nanos)
}

/// Law: time order on timestamps. A timestamp with an earlier second lies
/// before one with a later second, whatever their sub-second parts; within
/// the same second the nanoseconds decide.
pub proof fn law_earlier_is_time_order(a: Timestamp, b: Timestamp)
    ensures
        a.seconds < b.seconds ==> earlier_than(a, b),
        a.seconds > b.seconds ==> !earlier_than(a, b),
        a.seconds == b.seconds ==> (earlier_than(a, b) <==> a.nanos < b.nanos),
        !(earlier_than(a, b) && earlier_than(b, a)),
{
}

/// The metadata of an uploaded session.
pub struct AddSessionRequest {
    pub title: String,
    pub user_id: uuid::Uuid,
    pub start_time: Timestamp,
    pub end_time: Option<Timestamp>,
}

/// The reason an upload is refused, if it is: an empty title, an end before
/// the start, an empty file, or a file that does not begin with `MThd`, in
/// that order.
pub open spec fn upload_problem(title: Seq<char>, start: Timestamp, end: Option<Timestamp>, file: Seq<u8>) -> Option<Seq<char>> {
    if trim(title).len() == 0 {
        Some("title is required"@)
    } else if end matches Some(e) && earlier_than(e, start) {
        Some("end_time cannot be earlier than start_time"@)
    } else if file.len() == 0 {
        Some("midi file is empty"@)
    } else if !(file.len() >= 4 && file[0] == 77 && file[1] == 84 && file[2] == 104 && file[3] == 100) {
        Some("uploaded file is not a valid MIDI file"@)
    } else {
        None
    }
}

/// Law: an upload with a title is refused for its times exactly when its
/// end lies before its start: an earlier second, or the same second and
/// fewer nanoseconds. An end in a later second is never refused.
pub proof fn law_upload_refuses_end_before_start(title: Seq<char>, start: Timestamp, end: Timestamp, file: Seq<u8>)
    requires
        trim(title).len() > 0,
    ensures
        (upload_problem(title, start, Some(end), file) == Some("end_time cannot be earlier than start_time"@))
            <==> (end.seconds < start.seconds || (end.seconds == start.seconds && end.nanos < start.nanos)),
        end.seconds > start.seconds ==> upload_problem(title, start, Some(end), file)
            != Some("end_time cannot be earlier than start_time"@),
{
    reveal_strlit("end_time cannot be earlier than start_time");
    reveal_strlit("midi file is empty");
    reveal_strlit("uploaded file is not a valid MIDI file");
    let m = "end_time cannot be earlier than start_time"@;
    assert(m.len() != "midi file is empty"@.len());
    assert(m.len() != "uploaded file is not a valid MIDI file"@.len());
}

/// Checks an upload before it is stored (`validate_session_upload`); a
/// refused upload is answered 400 with the reason.
pub fn validate_session_upload(payload: &AddSessionRequest, file: &[u8]) -> (r: Result<(), ApiError>)
    ensures
        match upload_problem(payload.title@, payload.start_time, payload.end_time, file@) {
            None => r is Ok,
            Some(reason) => r matches Err(e) && e.status == 400 && e.message@ == reason,
        },
{
    let title = str_chars(payload.title.as_str());
    let (a, b) = trim_bounds(&title, 0, title.len());
    assert(title@.subrange(0, title.len() as int) =~= title@);
    if a == b {
        return Err(ApiError::new(400, "title is required".to_string()));
    }
    match payload.end_time {
        Some(end) => if is_earlier(end, payload.start_time) {
            return Err(ApiError::new(400, "end_time cannot be earlier than start_time".to_string()));
        },
        None => {},
    }
    if file.len() == 0 {
        return Err(ApiError::new(400, "midi file is empty".to_string()));
    }
    if !(file.len() >= 4 && file[0] == 77 && file[1] == 84 && file[2] == 104 && file[3] == 100) {
        return Err(ApiError::new(400, "uploaded file is not a valid MIDI file".to_string()));
    }
    Ok(())
}

/// The file extension under which an upload is stored: `mid` or `midi`
/// (any letter case, `mid` where the file name has none); any other
/// extension is refused with 400.
pub fn normalize_midi_extension(ext: Option<&str>) -> (r: Result<&'static str, ApiError>)
    ensures
        ({
            let lowered = match ext {
                Some(e) => ascii_lowercase(e@),
                None => "mid"@,
            };
            if lowered == "mid"@ {
                r matches Ok(s) && s@ == "mid"@
            } else if lowered == "midi"@ {
                r matches Ok(s) && s@ == "midi"@
            } else {
                r matches Err(e) && e.status == 400 && e.message@ == "midi_file must have a .mid or .midi extension"@
            }
        }),
{
    let lowered = match ext {
        Some(e) => chars_ascii_lowercase(e),
        None => str_chars("mid"),
    };
    if crate::text::chars_equal(&lowered, &str_chars("mid")) {
        Ok("mid")
    } else if crate::text::chars_equal(&lowered, &str_chars("midi")) {
        Ok("midi")
    } else {
        Err(ApiError::new(400, "midi_file must have a .mid or .midi extension".to_string()))
    }
}

/// A character that may stand in an object key as it is.
pub open spec fn key_safe(c: char) -> bool {
    let n = c as u32;
    (48 <= n <= 57) || (65 <= n <= 90) || (97 <= n <= 122) || n == 45 || n == 95 || n == 46
}

/// `s` with every character that is not an ASCII letter, digit, `-`, `_`
/// or `.` replaced by `-`.
pub open spec fn key_characters(s: Seq<char>) -> Seq<char> {
    s.map_values(|c: char| if key_safe(c) { c } else { '-' })
}

/// `s` without leading and trailing `-`.
pub open spec fn trim_dashes(s: Seq<char>) -> Seq<char>
    decreases s.len(),
{
    if s.len() > 0 && s[0] == '-' {
        trim_dashes(s.drop_first())
    } else if s.len() > 0 && s.last() == '-' {
        trim_dashes(s.drop_last())
    } else {
        s
    }
}

/// The object-key form of a title: its characters made key-safe, without
/// leading or trailing dashes, `session` where nothing is left.
pub open spec fn key_part(title: Seq<char>) -> Seq<char> {
    let t = trim_dashes(key_characters(title));
    if t.len() == 0 {
        "session"@
    } else {
        t
    }
}

/// Trimming dashes keeps a run of the characters of `s`, which neither
/// starts nor ends with a dash.
proof fn lemma_trim_dashes(s: Seq<char>)
    ensures
        forall|i: int| 0 <= i < trim_dashes(s).len() ==> s.contains(#[trigger] trim_dashes(s)[i]),
        trim_dashes(s).len() > 0 ==> trim_dashes(s)[0] != '-' && trim_dashes(s).last() != '-',
    decreases s.len(),
{
    if s.len() > 0 && s[0] == '-' {
        lemma_trim_dashes(s.drop_first());
        assert forall|i: int| 0 <= i < trim_dashes(s).len() implies s.contains(#[trigger] trim_dashes(s)[i]) by {
            let c = trim_dashes(s)[i];
            assert(s.drop_first().contains(c));
            let k = choose|k: int| 0 <= k < s.drop_first().len() && s.drop_first()[k] == c;
            assert(s[k + 1] == c);
        }
    } else if s.len() > 0 && s.last() == '-' {
        lemma_trim_dashes(s.drop_last());
        assert forall|i: int| 0 <= i < trim_dashes(s).len() implies s.contains(#[trigger] trim_dashes(s)[i]) by {
            let c = trim_dashes(s)[i];
            assert(s.drop_last().contains(c));
            let k = choose|k: int| 0 <= k < s.drop_last().len() && s.drop_last()[k] == c;
            assert(s[k] == c);
        }
    } else {
        assert forall|i: int| 0 <= i < trim_dashes(s).len() implies s.contains(#[trigger] trim_dashes(s)[i]) by {
            assert(s[i] == trim_dashes(s)[i]);
        }
    }
}

/// Law: the key form of any title is a non-empty run of ASCII letters,
/// digits, `-`, `_` and `.` that neither starts nor ends with a dash.
pub proof fn law_key_part_is_safe(title: Seq<char>)
    ensures
        key_part(title).len() > 0,
        forall|i: int| 0 <= i < key_part(title).len() ==> key_safe(#[trigger] key_part(title)[i]),
        key_part(title)[0] != '-',
        key_part(title).last() != '-',
{
    let m = key_characters(title);
    lemma_trim_dashes(m);
    let t = trim_dashes(m);
    if t.len() == 0 {
        reveal_strlit("session");
        assert forall|i: int| 0 <= i < key_part(title).len() implies key_safe(#[trigger] key_part(title)[i]) by {
            reveal_strlit("session");
        }
    } else {
        assert forall|i: int| 0 <= i < key_part(title).len() implies key_safe(#[trigger] key_part(title)[i]) by {
            let c = t[i];
            assert(m.contains(c));
            let k = choose|k: int| 0 <= k < m.len() && m[k] == c;
            assert(m[k] == if key_safe(title[k]) { title[k] } else { '-' });
        }
    }
}

/// An ASCII letter or digit.
pub open spec fn ascii_alphanumeric(c: char) -> bool {
    ('0' as u32 <= c as u32 <= '9' as u32) || ('a' as u32 <= c as u32 <= 'z' as u32) || ('A' as u32
        <= c as u32 <= 'Z' as u32)
}

/// One of `-`, `_` and `.`.
pub open spec fn key_punctuation(c: char) -> bool {
    c as u32 == '-' as u32 || c as u32 == '_' as u32 || c as u32 == '.' as u32
}

/// Law: making a title key-safe keeps its length; every ASCII letter and
/// digit and every `-`, `_` and `.` stays as it is, and every other
/// character becomes `-`.
pub proof fn law_key_characters_keep_safe_ones(title: Seq<char>)
    ensures
        key_characters(title).len() == title.len(),
        forall|i: int| 0 <= i < title.len() ==> #[trigger] key_characters(title)[i] == if ascii_alphanumeric(title[i])
            || key_punctuation(title[i]) {
            title[i]
        } else {
            '-'
        },
{
    assert forall|i: int| 0 <= i < title.len() implies #[trigger] key_characters(title)[i] == if ascii_alphanumeric(title[i])
        || key_punctuation(title[i]) {
        title[i]
    } else {
        '-'
    } by {
        let c = title[i];
        assert('0' as u32 == 48 && '9' as u32 == 57 && 'a' as u32 == 97 && 'z' as u32 == 122);
        assert('A' as u32 == 65 && 'Z' as u32 == 90);
        assert('-' as u32 == 45 && '_' as u32 == 95 && '.' as u32 == 46);
    }
}

/// Law: a title made only of ASCII letters, digits, `-`, `_` and `.` that
/// neither starts nor ends with `-` is its own key form (as the recorder's
/// `fp30x-<second>` names are).
pub proof fn law_clean_title_is_its_own_key(title: Seq<char>)
    requires
        title.len() > 0,
        forall|i: int| 0 <= i < title.len() ==> ascii_alphanumeric(#[trigger] title[i]) || key_punctuation(title[i]),
        title[0] != '-',
        title.last() != '-',
    ensures
        key_part(title) == title,
{
    law_key_characters_keep_safe_ones(title);
    assert(key_characters(title) =~= title);
}

/// Bounds `(a, b)` with `v[a..b]` equal to `v` without leading and trailing
/// dashes.
fn trim_dash_bounds(v: &Vec<char>) -> (r: (usize, usize))
    ensures
        r.0 <= r.1 <= v.len(),
        v@.subrange(r.0 as int, r.1 as int) == trim_dashes(v@),
{
    let mut a: usize = 0;
    assert(v@.subrange(0, v.len() as int) =~= v@);
    while a < v.len() && v[a] == '-'
        invariant
            a <= v.len(),
            trim_dashes(v@) == trim_dashes(v@.subrange(a as int, v.len() as int)),
        decreases v.len() - a,
    {
        assert(v@.subrange(a as int, v.len() as int).drop_first() =~= v@.subrange(a + 1, v.len() as int));
        a = a + 1;
    }
    let mut b: usize = v.len();
    while b > a && v[b - 1] == '-'
        invariant
            a <= b <= v.len(),
            a == v.len() || v@[a as int] != '-',
            trim_dashes(v@) == trim_dashes(v@.subrange(a as int, b as int)),
        decreases b - a,
    {
        assert(v@.subrange(a as int, b as int).drop_last() =~= v@.subrange(a as int, b - 1));
        b = b - 1;
    }
    if a == v.len() {
        assert(v@.subrange(a as int, v.len() as int) =~= Seq::<char>::empty());
    }
    (a, b)
}

/// The object-key form of a session title (`sanitize_s3_key_part`).
pub fn sanitize_s3_key_part(value: &str) -> (r: String)
    ensures
        r@ == key_part(value@),
{
    let v = str_chars(value);
    let mut mapped: Vec<char> = Vec::new();
    let mut i: usize = 0;
    while i < v.len()
        invariant
            i <= v.len(),
            v@ == value@,
            mapped@ == key_characters(v@.take(i as int)),
        decreases v.len() - i,
    {
        let c = v[i];
        let n = c as u32;
        let safe = (48 <= n && n <= 57) || (65 <= n && n <= 90) || (97 <= n && n <= 122) || n == 45
            || n == 95 || n == 46;
        mapped.push(if safe { c } else { '-' });
        i = i + 1;
        assert(mapped@ =~= key_characters(v@.take(i as int)));
    }
    assert(v@.take(v.len() as int) =~= v@);
    let (a, b) = trim_dash_bounds(&mapped);
    if a == b {
        return "session".to_string();
    }
    let kept = crate::text::slice_chars(&mapped, a, b);
    chars_to_string(&kept)
}

/// The object key of a session's MIDI file: the key form of its title, a
/// dot and the extension.
pub fn session_object_key(title: &str, ext: &str) -> (r: String)
    ensures
        r@ == key_part(title@) + "."@ + ext@,
{
    let part = sanitize_s3_key_part(title);
    let mut v = str_chars(part.as_str());
    append_str(&mut v, ".");
    append_str(&mut v, ext);
    chars_to_string(&v)
}

} // verus!
