//! Reading the measures of a MuseScore MusicXML score: where each measure
//! takes extra directions, its divisions per quarter note, its performed
//! length and the staff that pedal marks go to.

use vstd::prelude::*;
use crate::text::{
    contains_seq, find_from, find_str, lemma_find_from, parse_int, parse_int_range, slice_chars,
    str_chars, trim, trim_bounds,
};

verus! {

broadcast use vstd::string::group_string_axioms;

/// Largest value of `u32`.
pub open spec fn u32_max() -> int {
    0xFFFF_FFFF
}

/// `x`, or 1 where `x` is smaller (`max(1)`).
pub open spec fn at_least_one(x: int) -> int {
    if x < 1 { 1 } else { x }
}

/// Trimmed text between the first `open` tag of `s` and the first `close`
/// tag after it.
pub open spec fn tag_text(s: Seq<char>, open: Seq<char>, close: Seq<char>) -> Option<Seq<char>> {
    match find_from(s, open, 0) {
        None => None,
        Some(i) => match find_from(s, close, i + open.len()) {
            None => None,
            Some(e) => Some(trim(s.subrange(i + open.len(), e))),
        },
    }
}

/// The integer in `[min, max]` written between the first `open` and `close`
/// tags of `s`, if there is one (`tag_value` of the scanner).
pub open spec fn tag_int(s: Seq<char>, open: Seq<char>, close: Seq<char>, min: int, max: int) -> Option<int> {
    match tag_text(s, open, close) {
        None => None,
        Some(t) => match parse_int(t, min, max) {
            Ok(n) => Some(n),
            Err(_) => None,
        },
    }
}

/// Finds the first `open` tag of `v` and the first `close` tag after it, and
/// parses the trimmed text between them as an integer in `[min, max]`.
pub fn tag_value(v: &Vec<char>, open: &str, close: &str, min: i128, max: i128) -> (r: Option<i128>)
    requires
        -0x1_0000_0000_0000_0000 <= min <= 0 <= max <= 0x1_0000_0000_0000_0000,
    ensures
        match r {
            Some(n) => tag_int(v@, open@, close@, min as int, max as int) == Some(n as int) && min <= n
                <= max,
            None => tag_int(v@, open@, close@, min as int, max as int) is None,
        },
{
    let i = match find_str(v, open, 0) {
        None => return None,
        Some(i) => i,
    };
    let open_chars = str_chars(open);
    proof {
        lemma_find_from(v@, open@, 0);
        assert(i + open_chars.len() <= v.len());
    }
    let start = i + open_chars.len();
    let e = match find_str(v, close, start) {
        None => return None,
        Some(e) => e,
    };
    proof {
        lemma_find_from(v@, close@, start as int);
    }
    let (a, b) = trim_bounds(v, start, e);
    match parse_int_range(v, a, b, min, max) {
        Ok(n) => Some(n),
        Err(_) => None,
    }
}


/// Smallest value of `i64`.
pub open spec fn i64_min() -> int {
    -0x8000_0000_0000_0000
}

/// Largest value of `i64`.
pub open spec fn i64_max() -> int {
    0x7FFF_FFFF_FFFF_FFFF
}

/// Of two found blocks `(start, kind)`, the one that starts first; on a tie
/// the first argument (`min_by_key` keeps the first minimum).
pub open spec fn earlier(x: Option<(int, int)>, y: Option<(int, int)>) -> Option<(int, int)> {
    match x {
        None => y,
        Some(p) => match y {
            None => x,
            Some(q) => if q.0 < p.0 { y } else { x },
        },
    }
}

/// A found position tagged with the kind of block that starts there.
pub open spec fn tagged(p: Option<int>, kind: int) -> Option<(int, int)> {
    match p {
        Some(i) => Some((i, kind)),
        None => None,
    }
}

/// The next `<note` (kind 0), `<backup` (kind 1) or `<forward` (kind 2) of
/// `c` at or after `from`.
pub open spec fn next_block(c: Seq<char>, from: int) -> Option<(int, int)> {
    earlier(
        earlier(tagged(find_from(c, "<note"@, from), 0), tagged(find_from(c, "<backup"@, from), 1)),
        tagged(find_from(c, "<forward"@, from), 2),
    )
}

/// The closing tag of a block of the given kind.
pub open spec fn close_tag(kind: int) -> Seq<char> {
    if kind == 0 {
        "</note>"@
    } else if kind == 1 {
        "</backup>"@
    } else {
        "</forward>"@
    }
}

/// A block found by `next_block` starts at or after `from`, within `c`.
pub proof fn lemma_next_block(c: Seq<char>, from: int)
    requires
        0 <= from,
    ensures
        next_block(c, from) matches Some(b) ==> from <= b.0 <= c.len() && 0 <= b.1 <= 2,
{
    lemma_find_from(c, "<note"@, from);
    lemma_find_from(c, "<backup"@, from);
    lemma_find_from(c, "<forward"@, from);
}

/// Closing tags are not empty.
pub proof fn lemma_close_tag_len(kind: int)
    ensures
        close_tag(kind).len() > 0,
{
    reveal_strlit("</note>");
    reveal_strlit("</backup>");
    reveal_strlit("</forward>");
}

/// Duration written in a block, 0 where it has none.
pub open spec fn block_duration(block: Seq<char>) -> int {
    match tag_int(block, "<duration>"@, "</duration>"@, i64_min(), i64_max()) {
        Some(n) => n,
        None => 0,
    }
}

/// Walks the notes, backups and forwards of a measure from `from`, with the
/// voice cursor at `cursor` and the furthest point reached at `furthest`;
/// the furthest point reached at the end, or `None` where the cursor leaves
/// the range of `i64`.
pub open spec fn performed_from(c: Seq<char>, from: int, cursor: int, furthest: int) -> Option<int>
    decreases c.len() + 1 - from,
{
    if from < 0 || from >= c.len() {
        Some(furthest)
    } else {
        match next_block(c, from) {
            None => Some(furthest),
            Some(b) => match find_from(c, close_tag(b.1), b.0) {
                None => Some(furthest),
                Some(co) => {
                    proof {
                        lemma_next_block(c, from);
                        lemma_find_from(c, close_tag(b.1), b.0);
                        lemma_close_tag_len(b.1);
                    }
                    let end = co + close_tag(b.1).len();
                    let block = c.subrange(b.0, end);
                    let d = block_duration(block);
                    if (b.1 == 0 && !contains_seq(block, "<chord"@) && !contains_seq(block, "<grace"@))
                        || b.1 == 2 {
                        let nc = cursor + d;
                        if nc < i64_min() || nc > i64_max() {
                            None
                        } else {
                            performed_from(c, end, nc, if nc > furthest { nc } else { furthest })
                        }
                    } else if b.1 == 1 {
                        let nc = cursor - d;
                        if nc < i64_min() || nc > i64_max() {
                            None
                        } else {
                            performed_from(c, end, if nc < 0 { 0 } else { nc }, furthest)
                        }
                    } else {
                        performed_from(c, end, cursor, furthest)
                    }
                },
            },
        }
    }
}

/// The performed length of a measure: the furthest point that its voices
/// reach, as a `u32` (truncated as `as u32` does), `None` where no voice
/// moves forward; the outer `None` where the walk overflows `i64`.
pub open spec fn performed_duration(c: Seq<char>) -> Option<Option<int>> {
    match performed_from(c, 0, 0, 0) {
        None => None,
        Some(f) => Some(if f > 0 { Some(f % 0x1_0000_0000) } else { None }),
    }
}

/// Finds the next note, backup or forward block of `c` at or after `from`.
fn find_next_block(c: &Vec<char>, from: usize) -> (r: Option<(usize, u8)>)
    ensures
        match r {
            Some(b) => next_block(c@, from as int) == Some((b.0 as int, b.1 as int)),
            None => next_block(c@, from as int) is None,
        },
{
    let a = find_str(c, "<note", from);
    let b = find_str(c, "<backup", from);
    let f = find_str(c, "<forward", from);
    let mut best: Option<(usize, u8)> = match a {
        Some(i) => Some((i, 0u8)),
        None => None,
    };
    match b {
        Some(j) => match best {
            None => { best = Some((j, 1u8)); },
            Some(p) => if j < p.0 { best = Some((j, 1u8)); },
        },
        None => {},
    }
    match f {
        Some(j) => match best {
            None => { best = Some((j, 2u8)); },
            Some(p) => if j < p.0 { best = Some((j, 2u8)); },
        },
        None => {},
    }
    best
}

/// Performed length of the measure content `c`; `None` where the walk
/// leaves the range of `i64`.
pub fn performed_length(c: &Vec<char>) -> (r: Option<Option<u32>>)
    ensures
        match r {
            Some(Some(n)) => performed_duration(c@) == Some(Some(n as int)),
            Some(None) => performed_duration(c@) == Some(None::<int>),
            None => performed_duration(c@) is None,
        },
{
    let mut cursor: i64 = 0;
    let mut furthest: i64 = 0;
    let mut from: usize = 0;
    while from < c.len()
        invariant
            from <= c.len(),
            performed_from(c@, 0, 0, 0) == performed_from(c@, from as int, cursor as int, furthest as int),
        ensures
            performed_from(c@, 0, 0, 0) == Some(furthest as int),
        decreases c.len() - from,
    {
        let (start, kind) = match find_next_block(c, from) {
            None => break,
            Some(b) => b,
        };
        proof {
            lemma_next_block(c@, from as int);
        }
        let close = if kind == 0 {
            "</note>"
        } else if kind == 1 {
            "</backup>"
        } else {
            "</forward>"
        };
        assert(close@ == close_tag(kind as int));
        let co = match find_str(c, close, start) {
            None => break,
            Some(co) => co,
        };
        let close_chars = str_chars(close);
        proof {
            lemma_find_from(c@, close@, start as int);
            lemma_close_tag_len(kind as int);
        }
        let end = co + close_chars.len();
        let block = slice_chars(c, start, end);
        let d: i64 = match tag_value(&block, "<duration>", "</duration>", -0x8000_0000_0000_0000, 0x7FFF_FFFF_FFFF_FFFF) {
            Some(n) => n as i64,
            None => 0,
        };
        assert(d as int == block_duration(block@));
        let counts = kind == 2 || (kind == 0 && find_str(&block, "<chord", 0).is_none() && find_str(&block, "<grace", 0).is_none());
        if counts {
            let nc: i128 = cursor as i128 + d as i128;
            if nc < -0x8000_0000_0000_0000 || nc > 0x7FFF_FFFF_FFFF_FFFF {
                return None;
            }
            cursor = nc as i64;
            if cursor > furthest {
                furthest = cursor;
            }
        } else if kind == 1 {
            let nc: i128 = cursor as i128 - d as i128;
            if nc < -0x8000_0000_0000_0000 || nc > 0x7FFF_FFFF_FFFF_FFFF {
                return None;
            }
            cursor = if nc < 0 { 0 } else { nc as i64 };
        }
        from = end;
    }
    if furthest > 0 {
        Some(Some((furthest % 0x1_0000_0000) as u32))
    } else {
        Some(None)
    }
}

/// Performed length of the measure content `c`: the furthest point that its
/// voices reach, `None` where no voice moves forward.
pub fn performed_measure_duration(c: &str) -> (r: Option<u32>)
    requires
        performed_duration(c@) is Some,
    ensures
        match r {
            Some(n) => performed_duration(c@) == Some(Some(n as int)),
            None => performed_duration(c@) == Some(None::<int>),
        },
{
    let v = str_chars(c);
    match performed_length(&v) {
        Some(p) => p,
        None => None,
    }
}


/// A measure of the score: where directions go in the text, its divisions
/// per quarter note, its length in those divisions, and the staff that pedal
/// marks are put on.
#[derive(Clone, Copy, Debug)]
pub struct Measure {
    /// Where directions go, counted in characters of the score (not in
    /// UTF-8 bytes: the two differ where non-ASCII text comes before it).
    pub insertion_at: usize,
    pub divisions: u32,
    pub duration: u32,
    pub staff: u8,
}

/// A measure as plain integers `(insertion_at, divisions, duration, staff)`.
pub open spec fn measure_view(m: Measure) -> (int, int, int, int) {
    (m.insertion_at as int, m.divisions as int, m.duration as int, m.staff as int)
}

/// The measures of a vector, as plain integers.
pub open spec fn measures_view(v: Seq<Measure>) -> Seq<(int, int, int, int)> {
    v.map_values(|m: Measure| measure_view(m))
}

/// Where directions go in a measure whose content starts at `cs`: right after
/// the later of its `</print>` and `</attributes>`, else at its start.
pub open spec fn insertion_point(content: Seq<char>, cs: int) -> int {
    let p = find_from(content, "</print>"@, 0);
    let a = find_from(content, "</attributes>"@, 0);
    let pe = match p {
        Some(i) => cs + i + "</print>"@.len(),
        None => cs,
    };
    let ae = match a {
        Some(i) => cs + i + "</attributes>"@.len(),
        None => cs,
    };
    if pe >= ae { pe } else { ae }
}

/// The staff for a measure: 2 where it declares two or more staves, 1 where
/// it declares fewer, else the staff of the measure before.
pub open spec fn next_staff(content: Seq<char>, staff: int) -> int {
    match tag_int(content, "<staves>"@, "</staves>"@, 0, 255) {
        Some(n) => if n >= 2 { 2 } else { 1 },
        None => staff,
    }
}

/// The measures of `xml` from `from` on, with the divisions, time signature
/// and staff in force there. `Some(Err(_))` where a measure is malformed,
/// `None` where the `u32` and `i64` arithmetic of the scanner overflows.
pub open spec fn measures_from(xml: Seq<char>, from: int, div: int, beats: int, beat_type: int, staff: int) -> Option<Result<Seq<(int, int, int, int)>, Seq<char>>>
    decreases xml.len() + 1 - from,
{
    if from < 0 || from > xml.len() {
        Some(Ok(seq![]))
    } else {
        match find_from(xml, "<measure "@, from) {
            None => Some(Ok(seq![])),
            Some(ms) => match find_from(xml, ">"@, ms) {
                None => Some(Err("Malformed MusicXML measure"@)),
                Some(gt) => match find_from(xml, "</measure>"@, gt + 1) {
                    None => Some(Err("Unclosed MusicXML measure"@)),
                    Some(ce) => {
                        proof {
                            lemma_find_from(xml, "<measure "@, from);
                            lemma_find_from(xml, ">"@, ms);
                            lemma_find_from(xml, "</measure>"@, gt + 1);
                        }
                        match measure_step(xml, gt + 1, ce, div, beats, beat_type, staff) {
                            None => None,
                            Some(step) => match measures_from(
                                xml,
                                ce + "</measure>"@.len(),
                                step.1,
                                step.2,
                                step.3,
                                step.4,
                            ) {
                                None => None,
                                Some(Err(e)) => Some(Err(e)),
                                Some(Ok(rest)) => Some(Ok(seq![step.0] + rest)),
                            },
                        }
                    },
                },
            },
        }
    }
}

/// Directions go inside the measure content `content` that starts at `cs`.
pub proof fn lemma_insertion_point_bounds(content: Seq<char>, cs: int)
    ensures
        cs <= insertion_point(content, cs) <= cs + content.len(),
{
    lemma_find_from(content, "</print>"@, 0);
    lemma_find_from(content, "</attributes>"@, 0);
}

/// The measures of a scan from `from` go in increasing order of insertion
/// point, all within the text, with at least one division per quarter and a
/// length of at least one division.
pub proof fn lemma_measures_from_shape(xml: Seq<char>, from: int, div: int, beats: int, beat_type: int, staff: int)
    requires
        0 <= from,
        measures_from(xml, from, div, beats, beat_type, staff) matches Some(Ok(_)),
    ensures
        measures_from(xml, from, div, beats, beat_type, staff) matches Some(Ok(ms)) ==> {
            &&& forall|k: int| 0 <= k < ms.len() ==> from <= #[trigger] ms[k].0 <= xml.len()
            &&& forall|k: int| 0 <= k < ms.len() ==> 1 <= #[trigger] ms[k].1 && 1 <= ms[k].2
            &&& forall|j: int, k: int| 0 <= j < k < ms.len() ==> ms[j].0 < ms[k].0
        },
    decreases xml.len() + 1 - from,
{
    if from > xml.len() {
    } else {
        match find_from(xml, "<measure "@, from) {
            None => {},
            Some(mstart) => match find_from(xml, ">"@, mstart) {
                None => {},
                Some(gt) => match find_from(xml, "</measure>"@, gt + 1) {
                    None => {},
                    Some(ce) => {
                        lemma_find_from(xml, "<measure "@, from);
                        lemma_find_from(xml, ">"@, mstart);
                        lemma_find_from(xml, "</measure>"@, gt + 1);
                        reveal_strlit("</measure>");
                        let step = measure_step(xml, gt + 1, ce, div, beats, beat_type, staff).unwrap();
                        lemma_insertion_point_bounds(xml.subrange(gt + 1, ce), gt + 1);
                        let next = ce + "</measure>"@.len();
                        let rest = measures_from(xml, next, step.1, step.2, step.3, step.4);
                        if next <= xml.len() {
                            lemma_measures_from_shape(xml, next, step.1, step.2, step.3, step.4);
                        }
                        let ms = match measures_from(xml, from, div, beats, beat_type, staff) {
                            Some(Ok(ms)) => ms,
                            _ => seq![],
                        };
                        let tail = match rest {
                            Some(Ok(t)) => t,
                            _ => seq![],
                        };
                        assert(ms == seq![step.0] + tail);
                        assert forall|k: int| 0 <= k < ms.len() implies from <= #[trigger] ms[k].0 <= xml.len() by {
                            if k > 0 {
                                assert(ms[k] == tail[k - 1]);
                            }
                        }
                        assert forall|k: int| 0 <= k < ms.len() implies 1 <= #[trigger] ms[k].1 && 1 <= ms[k].2 by {
                            if k > 0 {
                                assert(ms[k] == tail[k - 1]);
                            }
                        }
                        assert forall|j: int, k: int| 0 <= j < k < ms.len() implies ms[j].0 < ms[k].0 by {
                            assert(ms[k] == tail[k - 1]);
                            if j > 0 {
                                assert(ms[j] == tail[j - 1]);
                            }
                        }
                    },
                },
            },
        }
    }
}

/// The measures of a whole score, starting from one division per quarter,
/// 4/4 time and staff 1.
pub open spec fn score_measures(xml: Seq<char>) -> Option<Result<Seq<(int, int, int, int)>, Seq<char>>> {
    measures_from(xml, 0, 1, 4, 4, 1)
}

/// The scanner's `u32` and `i64` arithmetic does not overflow on `xml`.
pub open spec fn measure_arithmetic_fits(xml: Seq<char>) -> bool {
    score_measures(xml) is Some
}

/// `pre` put in front of the measures of a successful scan.
pub open spec fn prepend_measures(pre: Seq<(int, int, int, int)>, r: Option<Result<Seq<(int, int, int, int)>, Seq<char>>>) -> Option<Result<Seq<(int, int, int, int)>, Seq<char>>> {
    match r {
        Some(Ok(rest)) => Some(Ok(pre + rest)),
        other => other,
    }
}

/// The measure that follows in a scan, with the divisions, time signature
/// and staff that it leaves in force; `None` where the arithmetic overflows.
pub open spec fn measure_step(xml: Seq<char>, cs: int, ce: int, div: int, beats: int, beat_type: int, staff: int) -> Option<((int, int, int, int), int, int, int, int)> {
    let content = xml.subrange(cs, ce);
    let d2 = at_least_one(
        match tag_int(content, "<divisions>"@, "</divisions>"@, 0, u32_max()) {
            Some(n) => n,
            None => div,
        },
    );
    let b2 = at_least_one(
        match tag_int(content, "<beats>"@, "</beats>"@, 0, u32_max()) {
            Some(n) => n,
            None => beats,
        },
    );
    let t2 = at_least_one(
        match tag_int(content, "<beat-type>"@, "</beat-type>"@, 0, u32_max()) {
            Some(n) => n,
            None => beat_type,
        },
    );
    let s2 = next_staff(content, staff);
    if b2 * 4 > u32_max() || b2 * 4 * d2 > u32_max() {
        None
    } else {
        match performed_duration(content) {
            None => None,
            Some(p) => {
                let dur = at_least_one(
                    match p {
                        Some(n) => n,
                        None => b2 * 4 * d2 / t2,
                    },
                );
                Some(((insertion_point(content, cs), d2, dur, s2), d2, b2, t2, s2))
            },
        }
    }
}

/// Law: a measure takes the divisions, time signature and staves written in
/// it, else those in force before it; its divisions and staff are those in
/// force after it. A measure where no voice moves forward lasts as long as
/// its time signature says: `beats` beats of a `1/beat_type` note, that is
/// `4 * beats * divisions / beat_type` divisions rounded down, and at least
/// one; otherwise it lasts as long as its voices reach.
pub proof fn law_measure_follows_its_settings(xml: Seq<char>, cs: int, ce: int, div: int, beats: int, beat_type: int, staff: int)
    requires
        0 <= cs <= ce <= xml.len(),
        div >= 1,
        beats >= 1,
        beat_type >= 1,
    ensures
        measure_step(xml, cs, ce, div, beats, beat_type, staff) matches Some(st) ==> {
            let content = xml.subrange(cs, ce);
            let (m, d, b, t, s) = st;
            &&& (tag_int(content, "<divisions>"@, "</divisions>"@, 0, u32_max()) matches Some(n) ==> (n >= 1 ==> d == n))
            &&& (tag_int(content, "<divisions>"@, "</divisions>"@, 0, u32_max()) is None ==> d == div)
            &&& (tag_int(content, "<beats>"@, "</beats>"@, 0, u32_max()) matches Some(n) ==> (n >= 1 ==> b == n))
            &&& (tag_int(content, "<beats>"@, "</beats>"@, 0, u32_max()) is None ==> b == beats)
            &&& (tag_int(content, "<beat-type>"@, "</beat-type>"@, 0, u32_max()) matches Some(n) ==> (n >= 1 ==> t == n))
            &&& (tag_int(content, "<beat-type>"@, "</beat-type>"@, 0, u32_max()) is None ==> t == beat_type)
            &&& (tag_int(content, "<staves>"@, "</staves>"@, 0, 255) matches Some(n) ==> s == if n >= 2 { 2int } else { 1int })
            &&& (tag_int(content, "<staves>"@, "</staves>"@, 0, 255) is None ==> s == staff)
            &&& d >= 1 && b >= 1 && t >= 1
            &&& m.1 == d && m.3 == s
            &&& (performed_duration(content) == Some(None::<int>) ==> {
                &&& (4 * b * d >= t ==> m.2 * t <= 4 * b * d < (m.2 + 1) * t)
                &&& (4 * b * d < t ==> m.2 == 1)
            })
            &&& (performed_duration(content) matches Some(Some(p)) ==> m.2 == if p < 1 { 1 } else { p })
        },
{
    match measure_step(xml, cs, ce, div, beats, beat_type, staff) {
        None => {},
        Some(st) => {
            let (m, d, b, t, s) = st;
            let x = b * 4 * d;
            assert(x == 4 * b * d) by (nonlinear_arith)
                requires
                    x == b * 4 * d,
            ;
            let q = x / t;
            vstd::arithmetic::div_mod::lemma_fundamental_div_mod(x, t);
            assert(x == t * q + x % t);
            assert(0 <= x % t < t);
            if x >= t {
                assert(q >= 1) by (nonlinear_arith)
                    requires
                        x >= t,
                        t >= 1,
                        x == t * q + x % t,
                        x % t < t,
                ;
                assert(q * t <= x < (q + 1) * t) by (nonlinear_arith)
                    requires
                        x == t * q + x % t,
                        0 <= x % t < t,
                ;
            } else {
                assert(x >= 0) by (nonlinear_arith)
                    requires
                        b >= 1,
                        d >= 1,
                        x == b * 4 * d,
                ;
                assert(q <= 0) by (nonlinear_arith)
                    requires
                        x < t,
                        x >= 0,
                        x == t * q + x % t,
                        x % t >= 0,
                        t >= 1,
                ;
            }
        },
    }
}

/// Reads the measure whose content is `xml[cs..ce]`.
fn read_measure(xml: &Vec<char>, cs: usize, ce: usize, divisions: u32, beats: u32, beat_type: u32, staff: u8) -> (r: Option<(Measure, u32, u32, u32, u8)>)
    requires
        cs <= ce <= xml.len(),
    ensures
        match r {
            Some(x) => measure_step(xml@, cs as int, ce as int, divisions as int, beats as int, beat_type as int, staff as int)
                == Some((measure_view(x.0), x.1 as int, x.2 as int, x.3 as int, x.4 as int)),
            None => measure_step(xml@, cs as int, ce as int, divisions as int, beats as int, beat_type as int, staff as int) is None,
        },
{
    let content = slice_chars(xml, cs, ce);
    let insertion_at = insertion_point_of(&content, cs);
    let d = match tag_value(&content, "<divisions>", "</divisions>", 0, 0xFFFF_FFFF) {
        Some(n) => n as u32,
        None => divisions,
    };
    let d2 = if d < 1 { 1 } else { d };
    let b = match tag_value(&content, "<beats>", "</beats>", 0, 0xFFFF_FFFF) {
        Some(n) => n as u32,
        None => beats,
    };
    let b2 = if b < 1 { 1 } else { b };
    let t = match tag_value(&content, "<beat-type>", "</beat-type>", 0, 0xFFFF_FFFF) {
        Some(n) => n as u32,
        None => beat_type,
    };
    let t2 = if t < 1 { 1 } else { t };
    let s2: u8 = match tag_value(&content, "<staves>", "</staves>", 0, 255) {
        Some(n) => if n >= 2 { 2 } else { 1 },
        None => staff,
    };
    if b2 > 0xFFFF_FFFF / 4 {
        return None;
    }
    let b4: u32 = b2 * 4;
    assert((b4 as u128) * (d2 as u128) <= 0xFFFF_FFFFu128 * 0xFFFF_FFFFu128) by (nonlinear_arith)
        requires
            b4 <= 0xFFFF_FFFFu32,
            d2 <= 0xFFFF_FFFFu32,
    ;
    let wide: u128 = b4 as u128 * d2 as u128;
    if wide > 0xFFFF_FFFF {
        return None;
    }
    let nominal = b4 * d2 / t2;
    let p = match performed_length(&content) {
        None => return None,
        Some(p) => p,
    };
    let dur = match p {
        Some(n) => n,
        None => nominal,
    };
    let duration = if dur < 1 { 1 } else { dur };
    Some((Measure { insertion_at, divisions: d2, duration, staff: s2 }, d2, b2, t2, s2))
}

/// Reads the measures of the score `xml`; `None` where the scanner's
/// arithmetic overflows.
pub fn scan_measures(xml: &Vec<char>) -> (r: Option<Result<Vec<Measure>, String>>)
    ensures
        match r {
            Some(Ok(ms)) => score_measures(xml@) == Some(Ok::<Seq<(int, int, int, int)>, Seq<char>>(measures_view(ms@))),
            Some(Err(e)) => score_measures(xml@) == Some(Err::<Seq<(int, int, int, int)>, Seq<char>>(e@)),
            None => score_measures(xml@) is None,
        },
{
    let mut result: Vec<Measure> = Vec::new();
    let mut from: usize = 0;
    let mut divisions: u32 = 1;
    let mut beats: u32 = 4;
    let mut beat_type: u32 = 4;
    let mut staff: u8 = 1;
    assert(measures_view(result@) =~= seq![]);
    loop
        invariant
            from <= xml.len(),
            score_measures(xml@) == prepend_measures(measures_view(result@), measures_from(xml@, from as int, divisions as int, beats as int, beat_type as int, staff as int)),
        decreases xml.len() + 1 - from,
    {
        let ghost (f0, d0, b0, t0, s0) = (from as int, divisions as int, beats as int, beat_type as int, staff as int);
        let ms = match find_str(xml, "<measure ", from) {
            None => {
                assert(measures_view(result@) + seq![] =~= measures_view(result@));
                return Some(Ok(result));
            },
            Some(ms) => ms,
        };
        let gt = match find_str(xml, ">", ms) {
            None => return Some(Err("Malformed MusicXML measure".to_string())),
            Some(gt) => gt,
        };
        proof {
            lemma_find_from(xml@, "<measure "@, from as int);
            lemma_find_from(xml@, ">"@, ms as int);
            reveal_strlit(">");
        }
        let cs = gt + 1;
        let ce = match find_str(xml, "</measure>", cs) {
            None => return Some(Err("Unclosed MusicXML measure".to_string())),
            Some(ce) => ce,
        };
        proof {
            lemma_find_from(xml@, "</measure>"@, cs as int);
        }
        let (m, d2, b2, t2, s2) = match read_measure(xml, cs, ce, divisions, beats, beat_type, staff) {
            None => return None,
            Some(x) => x,
        };
        divisions = d2;
        beats = b2;
        beat_type = t2;
        staff = s2;
        let ghost before = result@;
        result.push(m);
        assert(measures_view(result@) =~= measures_view(before) + seq![measure_view(m)]);
        let close_len = str_chars("</measure>").len();
        from = ce + close_len;
        assert(measures_from(xml@, f0, d0, b0, t0, s0) == prepend_measures(
            seq![measure_view(m)],
            measures_from(xml@, from as int, divisions as int, beats as int, beat_type as int, staff as int),
        ));
        assert(measures_view(before) + seq![measure_view(m)] =~= measures_view(result@));
        assert forall|rest: Seq<(int, int, int, int)>| measures_view(before) + (seq![measure_view(m)] + rest) =~= measures_view(result@) + rest by {}
    }
}

/// Where directions go in a measure whose content `content` starts at `cs`.
fn insertion_point_of(content: &Vec<char>, cs: usize) -> (r: usize)
    requires
        cs + content.len() <= usize::MAX,
    ensures
        r as int == insertion_point(content@, cs as int),
        cs <= r <= cs + content.len(),
{
    let pe = match find_str(content, "</print>", 0) {
        Some(i) => {
            proof { lemma_find_from(content@, "</print>"@, 0); }
            cs + i + str_chars("</print>").len()
        },
        None => cs,
    };
    let ae = match find_str(content, "</attributes>", 0) {
        Some(i) => {
            proof { lemma_find_from(content@, "</attributes>"@, 0); }
            cs + i + str_chars("</attributes>").len()
        },
        None => cs,
    };
    if pe >= ae { pe } else { ae }
}


/// Reads the measures of a MusicXML score (`measures`).
pub fn measures(xml: &str) -> (r: Result<Vec<Measure>, String>)
    requires
        measure_arithmetic_fits(xml@),
    ensures
        match r {
            Ok(ms) => score_measures(xml@) == Some(Ok::<Seq<(int, int, int, int)>, Seq<char>>(measures_view(ms@))),
            Err(e) => score_measures(xml@) == Some(Err::<Seq<(int, int, int, int)>, Seq<char>>(e@)),
        },
{
    let v = str_chars(xml);
    match scan_measures(&v) {
        Some(r) => r,
        None => Ok(Vec::new()),
    }
}

/// Whether reading the measures of `xml` stays within the `u32` and `i64`
/// arithmetic of the scanner.
pub fn measures_arithmetic_fits(xml: &str) -> (r: bool)
    ensures
        r == measure_arithmetic_fits(xml@),
{
    let v = str_chars(xml);
    scan_measures(&v).is_some()
}

} // verus!
