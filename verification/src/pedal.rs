//! Sustain-pedal notation: the pedal presses and releases of a MIDI take
//! placed as MusicXML `<pedal>` directions into the measures of its score.

use vstd::prelude::*;
use vstd::arithmetic::mul::{
    lemma_mul_is_associative, lemma_mul_is_commutative, lemma_mul_is_distributive_add,
    lemma_mul_is_distributive_sub_other_way,
};
use crate::musicxml::{
    lemma_measures_from_shape, measure_arithmetic_fits, measure_view, measures_arithmetic_fits, measures_view, scan_measures,
    score_measures, Measure,
};
use crate::text::{append_chars, append_str, chars_to_string, decimal, push_decimal, str_chars};
use crate::natural::{lemma_value_below_bounds, nat_from_u128, nat_mul_small, nat_sub, value};
use crate::tick_sort::{sort_by_tick, sort_by_tick_stable, ticks_of};

verus! {

broadcast use vstd::string::group_string_axioms;

/// What `midly::Smf::parse` reads from `bytes`: on success the ticks per
/// quarter note of a metrical file (`None` for SMPTE timing) and, track by
/// track, each event as `(delta, is a controller change, controller, value)`;
/// on failure the text of midly's error.
pub uninterp spec fn midi_file_contents(bytes: Seq<u8>) -> Result<(Option<u16>, Seq<Seq<(u32, bool, u8, u8)>>), Seq<char>>;

/// Reads a Standard MIDI File with `midly::Smf::parse`. Trusted: the result
/// is what `midi_file_contents` names for these bytes, with each event's
/// delta ticks, and controller number and value where the event is a MIDI
/// controller change, exactly as midly hands them out.
#[verifier::external_body]
fn read_midi_file(bytes: &[u8]) -> (r: Result<(Option<u16>, Vec<Vec<(u32, bool, u8, u8)>>), String>)
    ensures
        match r {
            Ok(c) => midi_file_contents(bytes@) == Ok::<(Option<u16>, Seq<Seq<(u32, bool, u8, u8)>>), Seq<char>>((c.0, c.1.deep_view())),
            Err(e) => midi_file_contents(bytes@) == Err::<(Option<u16>, Seq<Seq<(u32, bool, u8, u8)>>), Seq<char>>(e@),
        },
{
    match midly::Smf::parse(bytes) {
        Ok(smf) => Ok((
            match smf.header.timing {
                midly::Timing::Metrical(t) => Some(t.as_int()),
                midly::Timing::Timecode(..) => None,
            },
            smf.tracks.iter().map(|track| track.iter().map(|e| match e.kind {
                midly::TrackEventKind::Midi { message: midly::MidiMessage::Controller { controller, value }, .. }
                    => (e.delta.as_int(), true, controller.as_int(), value.as_int()),
                _ => (e.delta.as_int(), false, 0, 0),
            }).collect()).collect(),
        )),
        Err(error) => Err(error.to_string()),
    }
}

/// Whether the pedal goes down or comes up.
#[derive(Clone, Copy, Debug, PartialEq, Eq)]
pub enum PedalKind {
    Start,
    Stop,
}

/// A change of the sustain pedal at an absolute tick, with the controller
/// value that caused it.
#[derive(Clone, Copy, Debug)]
pub struct PedalEvent {
    pub tick: u128,
    pub kind: PedalKind,
    pub value: u8,
}

/// A pedal event as `(tick, goes down, value)`.
pub open spec fn pedal_event_view(e: PedalEvent) -> (int, bool, u8) {
    (e.tick as int, e.kind == PedalKind::Start, e.value)
}

/// Pedal events as plain values.
pub open spec fn pedal_events_view(v: Seq<PedalEvent>) -> Seq<(int, bool, u8)> {
    v.map_values(|e: PedalEvent| pedal_event_view(e))
}

/// Sum of the delta ticks of a track: the tick of its last event.
pub open spec fn track_ticks(track: Seq<(u32, bool, u8, u8)>) -> int
    decreases track.len(),
{
    if track.len() == 0 {
        0
    } else {
        track_ticks(track.drop_last()) + track.last().0
    }
}

/// The sustain-pedal (controller 64) changes of a track, as
/// `(absolute tick, value)`.
pub open spec fn track_pedal_changes(track: Seq<(u32, bool, u8, u8)>) -> Seq<(int, u8)>
    decreases track.len(),
{
    if track.len() == 0 {
        seq![]
    } else {
        let prev = track_pedal_changes(track.drop_last());
        let e = track.last();
        if e.1 && e.2 == 64 {
            prev.push((track_ticks(track), e.3))
        } else {
            prev
        }
    }
}

/// The sustain-pedal changes of all tracks, track after track.
pub open spec fn pedal_changes(tracks: Seq<Seq<(u32, bool, u8, u8)>>) -> Seq<(int, u8)>
    decreases tracks.len(),
{
    if tracks.len() == 0 {
        seq![]
    } else {
        pedal_changes(tracks.drop_last()) + track_pedal_changes(tracks.last())
    }
}

/// Whether the pedal is down after the changes `s` (a value of 64 or more
/// holds it down).
pub open spec fn pedal_down_after(s: Seq<(int, u8)>) -> bool {
    s.len() > 0 && s.last().1 >= 64
}

/// The changes of `s` that move the pedal, starting from a raised pedal:
/// `(tick, goes down, value)`.
pub open spec fn pedal_transitions(s: Seq<(int, u8)>) -> Seq<(int, bool, u8)>
    decreases s.len(),
{
    if s.len() == 0 {
        seq![]
    } else {
        let prev = pedal_transitions(s.drop_last());
        let down = s.last().1 >= 64;
        if down == pedal_down_after(s.drop_last()) {
            prev
        } else {
            prev.push((s.last().0, down, s.last().1))
        }
    }
}

/// Law: the pedal moves alternate, starting with a press; after any run of
/// changes the pedal is down exactly when an odd number of moves was kept.
pub proof fn law_transitions_alternate(s: Seq<(int, u8)>)
    ensures
        forall|i: int| 0 <= i < pedal_transitions(s).len() ==> #[trigger] pedal_transitions(s)[i].1 == (i % 2 == 0),
        pedal_down_after(s) == (pedal_transitions(s).len() % 2 == 1),
    decreases s.len(),
{
    if s.len() > 0 {
        law_transitions_alternate(s.drop_last());
    }
}

/// Ticks per quarter note and the pedal presses and releases of a MIDI file
/// in time order, or the error that `pedal_events` reports.
pub open spec fn midi_pedal_events(midi: Seq<u8>) -> Result<(int, Seq<(int, bool, u8)>), Seq<char>> {
    match midi_file_contents(midi) {
        Err(e) => Err("Invalid MIDI: "@ + e),
        Ok(c) => match c.0 {
            None => Err("SMPTE-timed MIDI is not supported for pedal notation"@),
            Some(t) => Ok((t as int, pedal_transitions(sort_by_tick(pedal_changes(c.1))))),
        },
    }
}

/// Collects the sustain-pedal changes of all tracks with absolute ticks.
fn collect_pedal_changes(tracks: &Vec<Vec<(u32, bool, u8, u8)>>) -> (r: Vec<(u128, u8)>)
    ensures
        ticks_of(r@) == pedal_changes(tracks.deep_view()),
{
    let mut r: Vec<(u128, u8)> = Vec::new();
    let mut t: usize = 0;
    while t < tracks.len()
        invariant
            t <= tracks.len(),
            ticks_of(r@) == pedal_changes(tracks.deep_view().take(t as int)),
        decreases tracks.len() - t,
    {
        let track = &tracks[t];
        let ghost base = ticks_of(r@);
        let mut tick: u128 = 0;
        let mut i: usize = 0;
        while i < track.len()
            invariant
                i <= track.len(),
                tick as int == track_ticks(track@.take(i as int)),
                tick <= i * 0xFFFF_FFFF,
                ticks_of(r@) == base + track_pedal_changes(track@.take(i as int)),
            decreases track.len() - i,
        {
            let e = track[i];
            assert(track@.take(i + 1).drop_last() =~= track@.take(i as int));
            assert(track@.take(i + 1).last() == e);
            tick = tick + e.0 as u128;
            if e.1 && e.2 == 64 {
                let ghost before = r@;
                r.push((tick, e.3));
                assert(ticks_of(r@) =~= ticks_of(before).push((tick as int, e.3)));
                assert(ticks_of(r@) =~= base + track_pedal_changes(track@.take(i + 1)));
            }
            i = i + 1;
        }
        proof {
            assert(track@.take(track.len() as int) =~= track@);
            assert(tracks.deep_view()[t as int] == track@);
            assert(tracks.deep_view().take(t + 1).drop_last() =~= tracks.deep_view().take(t as int));
        }
        t = t + 1;
    }
    assert(tracks.deep_view().take(tracks.len() as int) =~= tracks.deep_view());
    r
}

/// Keeps the changes that move the pedal.
fn pedal_transitions_of(changes: &Vec<(u128, u8)>) -> (r: Vec<PedalEvent>)
    ensures
        pedal_events_view(r@) == pedal_transitions(ticks_of(changes@)),
{
    let mut r: Vec<PedalEvent> = Vec::new();
    let mut down = false;
    let mut i: usize = 0;
    while i < changes.len()
        invariant
            i <= changes.len(),
            pedal_events_view(r@) == pedal_transitions(ticks_of(changes@).take(i as int)),
            down == pedal_down_after(ticks_of(changes@).take(i as int)),
        decreases changes.len() - i,
    {
        let (tick, value) = changes[i];
        let ghost s = ticks_of(changes@).take(i + 1);
        assert(s.drop_last() =~= ticks_of(changes@).take(i as int));
        assert(s.last() == (tick as int, value));
        let now_down = value >= 64;
        if now_down != down {
            let ghost before = r@;
            r.push(PedalEvent { tick, kind: if now_down { PedalKind::Start } else { PedalKind::Stop }, value });
            assert(pedal_events_view(r@) =~= pedal_events_view(before).push(pedal_event_view(r@.last())));
        }
        down = now_down;
        i = i + 1;
    }
    assert(ticks_of(changes@).take(changes.len() as int) =~= ticks_of(changes@));
    r
}

/// Ticks per quarter note of a MIDI file and its sustain-pedal presses and
/// releases in time order (`pedal_events`).
pub fn pedal_events(midi: &[u8]) -> (r: Result<(u16, Vec<PedalEvent>), String>)
    ensures
        match r {
            Ok(x) => midi_pedal_events(midi@) == Ok::<(int, Seq<(int, bool, u8)>), Seq<char>>((x.0 as int, pedal_events_view(x.1@))),
            Err(e) => midi_pedal_events(midi@) == Err::<(int, Seq<(int, bool, u8)>), Seq<char>>(e@),
        },
{
    let (timing, tracks) = match read_midi_file(midi) {
        Ok(c) => c,
        Err(e) => {
            let mut msg = str_chars("Invalid MIDI: ");
            append_str(&mut msg, e.as_str());
            return Err(chars_to_string(&msg));
        },
    };
    let ticks_per_quarter = match timing {
        Some(t) => t,
        None => return Err("SMPTE-timed MIDI is not supported for pedal notation".to_string()),
    };
    let changes = collect_pedal_changes(&tracks);
    let sorted = sort_by_tick_stable(&changes);
    let events = pedal_transitions_of(&sorted);
    Ok((ticks_per_quarter, events))
}


/// How far the pedal is pressed, in percent of the controller range
/// (`value * 100 / 127`).
pub open spec fn percentage_text(value: u8) -> Seq<char> {
    decimal((value as nat * 100) / 127)
}

/// The damper text of a `<sound>` for an event: its percentage when the
/// pedal goes down, `no` when it comes up.
pub open spec fn damper_text(start: bool, value: u8) -> Seq<char> {
    if start {
        percentage_text(value)
    } else {
        "no"@
    }
}

/// The MusicXML `<direction>` that marks a pedal event at `offset`
/// divisions into a measure, on `staff`.
pub open spec fn direction_text(offset: int, staff: int, start: bool, value: u8) -> Seq<char> {
    "\n      <direction placement=\"below\">\n        <direction-type>\n          <pedal type=\""@
        + (if start { "start"@ } else { "stop"@ })
        + "\" line=\"yes\"/>\n          </direction-type>\n        <offset sound=\"yes\">"@
        + decimal(offset as nat) + "</offset>\n        <staff>"@ + decimal(staff as nat)
        + "</staff>\n        <sound damper-pedal=\""@ + damper_text(start, value)
        + "\"/>\n        </direction>"@
}

/// Percentage of the pedal controller value, as text (`pedal_percentage`).
pub fn pedal_percentage(value: u8) -> (r: String)
    ensures
        r@ == percentage_text(value),
{
    let mut v: Vec<char> = Vec::new();
    let p: u16 = (value as u16 * 100) / 127;
    push_decimal(&mut v, p as u64);
    assert(v@ =~= percentage_text(value));
    chars_to_string(&v)
}

/// Appends the direction that marks `event` at `offset` on `staff`.
fn push_direction(out: &mut Vec<char>, offset: u32, staff: u8, event: PedalEvent)
    ensures
        final(out)@ == old(out)@ + direction_text(
            offset as int,
            staff as int,
            event.kind == PedalKind::Start,
            event.value,
        ),
{
    let start = match event.kind {
        PedalKind::Start => true,
        PedalKind::Stop => false,
    };
    let ghost o = out@;
    append_str(out, "\n      <direction placement=\"below\">\n        <direction-type>\n          <pedal type=\"");
    if start {
        append_str(out, "start");
    } else {
        append_str(out, "stop");
    }
    append_str(out, "\" line=\"yes\"/>\n          </direction-type>\n        <offset sound=\"yes\">");
    push_decimal(out, offset as u64);
    append_str(out, "</offset>\n        <staff>");
    push_decimal(out, staff as u64);
    append_str(out, "</staff>\n        <sound damper-pedal=\"");
    if start {
        let p: u16 = (event.value as u16 * 100) / 127;
        push_decimal(out, p as u64);
    } else {
        append_str(out, "no");
    }
    append_str(out, "\"/>\n        </direction>");
    assert(out@ =~= o + direction_text(offset as int, staff as int, start, event.value));
}

/// The MusicXML direction that marks `event` at `offset` divisions into a
/// measure, on `staff` (`pedal_direction`).
pub fn pedal_direction(offset: u32, staff: u8, event: PedalEvent) -> (r: String)
    ensures
        r@ == direction_text(offset as int, staff as int, event.kind == PedalKind::Start, event.value),
{
    let mut v: Vec<char> = Vec::new();
    push_direction(&mut v, offset, staff, event);
    assert(v@ =~= direction_text(offset as int, staff as int, event.kind == PedalKind::Start, event.value));
    chars_to_string(&v)
}


/// `num / den` rounded to the nearest integer, halves rounded up (for
/// `num >= 0`, `den > 0`, this is `f64::round`).
pub open spec fn round_half_up(num: int, den: int) -> int {
    num / den + if 2 * (num % den) >= den { 1int } else { 0int }
}

/// Measure and offset of an event that lies `num / den` divisions into
/// measure `k` (counted in the divisions of measure `k`): the first measure
/// that it falls short of the end of, else the last; its offset is that
/// position rounded and at most the measure's length. The position carries
/// on into the next measure scaled by the ratio of their divisions.
pub open spec fn place_from(ms: Seq<(int, int, int, int)>, k: int, num: int, den: int) -> (int, int)
    decreases ms.len() - k,
{
    if k < 0 || k >= ms.len() {
        (0, 0)
    } else {
        let v = ms[k].1;
        let d = ms[k].2;
        if num < d * den || k == ms.len() - 1 {
            let r = round_half_up(num, den);
            (k, if r > d { d } else { r })
        } else {
            let rest = num - d * den;
            let v2 = ms[k + 1].1;
            if v2 == v {
                place_from(ms, k + 1, rest, den)
            } else {
                place_from(ms, k + 1, rest * v2, den * v)
            }
        }
    }
}

/// Measure index and offset (in the measure's divisions) of a pedal event at
/// `tick` with `tpq` ticks per quarter note. With no ticks per quarter the
/// event goes to the last measure, at its end unless it lies at tick 0.
pub open spec fn pedal_placement(tick: int, tpq: int, ms: Seq<(int, int, int, int)>) -> (int, int) {
    if tpq == 0 {
        (ms.len() - 1, if tick > 0 { ms.last().2 } else { 0 })
    } else {
        place_from(ms, 0, tick * ms[0].1, tpq)
    }
}

/// Law: a placed event goes to one of the measures, at an offset between 0
/// and that measure's length.
pub proof fn law_placement_within_measure(tick: int, tpq: int, ms: Seq<(int, int, int, int)>)
    requires
        tick >= 0,
        tpq >= 0,
        ms.len() > 0,
        measures_well_formed(ms),
    ensures
        0 <= pedal_placement(tick, tpq, ms).0 < ms.len(),
        0 <= pedal_placement(tick, tpq, ms).1 <= ms[pedal_placement(tick, tpq, ms).0].2,
{
    assert(ms[ms.len() - 1].1 >= 1);
    if tpq != 0 {
        assert(tick * ms[0].1 >= 0) by (nonlinear_arith)
            requires
                tick >= 0,
                ms[0].1 >= 1,
        ;
        lemma_place_from_bounds(ms, 0, tick * ms[0].1, tpq);
    }
}

proof fn lemma_place_from_bounds(ms: Seq<(int, int, int, int)>, k: int, num: int, den: int)
    requires
        0 <= k,
        num >= 0,
        den > 0,
        measures_well_formed(ms),
    ensures
        k < ms.len() ==> k <= place_from(ms, k, num, den).0 < ms.len(),
        k < ms.len() ==> 0 <= place_from(ms, k, num, den).1 <= ms[place_from(ms, k, num, den).0].2,
    decreases ms.len() - k,
{
    if k < ms.len() {
        let v = ms[k].1;
        let d = ms[k].2;
        if num < d * den || k == ms.len() - 1 {
            assert(num / den >= 0) by (nonlinear_arith)
                requires
                    num >= 0,
                    den > 0,
            ;
        } else {
            let rest = num - d * den;
            let v2 = ms[k + 1].1;
            assert(ms[k + 1].1 >= 1);
            if v2 == v {
                lemma_place_from_bounds(ms, k + 1, rest, den);
            } else {
                assert(rest * v2 >= 0 && den * v > 0) by (nonlinear_arith)
                    requires
                        rest >= 0,
                        v2 >= 1,
                        den > 0,
                        v >= 1,
                ;
                lemma_place_from_bounds(ms, k + 1, rest * v2, den * v);
            }
        }
    }
}

/// Quarter notes elapsed before measure `k`, as a fraction
/// `(numerator, denominator)`: the sum of `duration / divisions` of the
/// measures before it.
pub open spec fn elapsed_quarters(ms: Seq<(int, int, int, int)>, k: int) -> (int, int)
    decreases k,
{
    if k <= 0 {
        (0, 1)
    } else {
        let e = elapsed_quarters(ms, k - 1);
        let v = ms[k - 1].1;
        let d = ms[k - 1].2;
        (e.0 * v + d * e.1, e.1 * v)
    }
}

proof fn lemma_elapsed_positive(ms: Seq<(int, int, int, int)>, k: int)
    requires
        measures_well_formed(ms),
        0 <= k <= ms.len(),
    ensures
        elapsed_quarters(ms, k).1 > 0,
        elapsed_quarters(ms, k).0 >= 0,
    decreases k,
{
    if k > 0 {
        lemma_elapsed_positive(ms, k - 1);
        let e = elapsed_quarters(ms, k - 1);
        let v = ms[k - 1].1;
        let d = ms[k - 1].2;
        assert(v >= 1 && d >= 1);
        assert(e.0 * v + d * e.1 >= 0 && e.1 * v > 0) by (nonlinear_arith)
            requires
                e.0 >= 0,
                e.1 > 0,
                v >= 1,
                d >= 1,
        ;
    }
}

/// Fractions that are equal round alike.
proof fn lemma_round_equal_fractions(n: int, m: int, n2: int, m2: int)
    requires
        m > 0,
        m2 > 0,
        n * m2 == n2 * m,
    ensures
        round_half_up(n, m) == round_half_up(n2, m2),
{
    let q = n / m;
    let r = n % m;
    vstd::arithmetic::div_mod::lemma_fundamental_div_mod(n, m);
    assert(0 <= r < m);
    let r2 = n2 - q * m2;
    assert(r2 * m == r * m2) by (nonlinear_arith)
        requires
            n * m2 == n2 * m,
            n == m * q + r,
            r2 == n2 - q * m2,
    ;
    assert(0 <= r2 < m2) by (nonlinear_arith)
        requires
            r2 * m == r * m2,
            0 <= r < m,
            m > 0,
            m2 > 0,
    ;
    assert(n2 == q * m2 + r2);
    vstd::arithmetic::div_mod::lemma_fundamental_div_mod_converse(n2, m2, q, r2);
    assert((2 * r >= m) == (2 * r2 >= m2)) by (nonlinear_arith)
        requires
            r2 * m == r * m2,
            m > 0,
            m2 > 0,
    ;
}

/// The meaning of the position that `place_from` carries: `num / den` is
/// how far the event lies past the start of measure `k`, in measure `k`'s
/// divisions.
pub open spec fn position_matches(t: int, p: int, ms: Seq<(int, int, int, int)>, k: int, num: int, den: int) -> bool {
    let e = elapsed_quarters(ms, k);
    num * (p * e.1) == (t * e.1 - p * e.0) * ms[k].1 * den
}

/// The event at tick `t` (with `p` ticks per quarter) lies at or after the
/// end of measure `j`.
pub open spec fn after_measure(t: int, p: int, ms: Seq<(int, int, int, int)>, j: int) -> bool {
    let e = elapsed_quarters(ms, j + 1);
    t * e.1 >= p * e.0
}

/// What a placement means: the event lies past the end of every measure
/// before its own, before the end of its own unless that is the last, and
/// its offset is its distance from the start of its measure in that
/// measure's divisions, rounded, and at most the measure's length.
pub open spec fn placement_meaning(t: int, p: int, ms: Seq<(int, int, int, int)>, k: int, off: int) -> bool {
    let e = elapsed_quarters(ms, k);
    let e2 = elapsed_quarters(ms, k + 1);
    let r = round_half_up((t * e.1 - p * e.0) * ms[k].1, p * e.1);
    &&& forall|j: int| 0 <= j < k ==> #[trigger] after_measure(t, p, ms, j)
    &&& (k < ms.len() - 1 ==> t * e2.1 < p * e2.0)
    &&& off == if r > ms[k].2 { ms[k].2 } else { r }
}

proof fn lemma_place_from_meaning(t: int, p: int, ms: Seq<(int, int, int, int)>, k: int, num: int, den: int)
    requires
        p > 0,
        t >= 0,
        measures_well_formed(ms),
        0 <= k < ms.len(),
        den > 0,
        num >= 0,
        position_matches(t, p, ms, k, num, den),
        forall|j: int| 0 <= j < k ==> #[trigger] after_measure(t, p, ms, j),
    ensures
        placement_meaning(t, p, ms, place_from(ms, k, num, den).0, place_from(ms, k, num, den).1),
    decreases ms.len() - k,
{
    let e = elapsed_quarters(ms, k);
    let e2 = elapsed_quarters(ms, k + 1);
    let v = ms[k].1;
    let d = ms[k].2;
    lemma_elapsed_positive(ms, k);
    assert(v >= 1 && d >= 1);
    let a = t * e.1 - p * e.0;
    let pd = p * e.1;
    assert(p * e2.1 == pd * v) by (nonlinear_arith)
        requires
            pd == p * e.1,
            e2.1 == e.1 * v,
    ;
    assert(pd > 0) by (nonlinear_arith)
        requires
            p > 0,
            e.1 > 0,
            pd == p * e.1,
    ;
    let a2 = t * e2.1 - p * e2.0;
    // distance past the end of measure k, scaled as the position in it
    assert(a2 == a * v - d * pd) by {
        assert(e2.0 == e.0 * v + d * e.1 && e2.1 == e.1 * v);
        lemma_mul_is_associative(t, e.1, v);
        lemma_mul_is_distributive_add(p, e.0 * v, d * e.1);
        lemma_mul_is_associative(p, e.0, v);
        lemma_mul_is_associative(p, d, e.1);
        lemma_mul_is_associative(d, p, e.1);
        lemma_mul_is_commutative(p, d);
        lemma_mul_is_distributive_sub_other_way(v, t * e.1, p * e.0);
    }
    // the event lies before the end of measure k exactly when its position
    // falls short of the measure's length
    assert((num < d * den) == (num * pd < d * den * pd)) by (nonlinear_arith)
        requires
            pd > 0,
    ;
    assert(num * pd == a * v * den);
    assert((a * v * den < d * den * pd) == (a * v < d * pd)) by (nonlinear_arith)
        requires
            den > 0,
    ;
    assert((num < d * den) == (t * e2.1 < p * e2.0));
    if num < d * den || k == ms.len() - 1 {
        assert(num * pd == (a * v) * den) by (nonlinear_arith)
            requires
                num * pd == a * v * den,
        ;
        lemma_round_equal_fractions(num, den, a * v, pd);
    } else {
        let rest = num - d * den;
        let v2 = ms[k + 1].1;
        assert(v2 >= 1);
        assert(after_measure(t, p, ms, k));
        assert forall|j: int| 0 <= j < k + 1 implies #[trigger] after_measure(t, p, ms, j) by {
            if j < k {
                assert(after_measure(t, p, ms, j));
            }
        }
        assert(rest >= 0);
        assert(rest * pd == num * pd - d * den * pd) by (nonlinear_arith)
            requires
                rest == num - d * den,
        ;
        assert(a2 * den == a * v * den - d * pd * den) by (nonlinear_arith)
            requires
                a2 == a * v - d * pd,
        ;
        assert(d * den * pd == d * pd * den) by (nonlinear_arith);
        assert(rest * pd == a2 * den);
        if v2 == v {
            assert(rest * (pd * v) == a2 * v * den) by (nonlinear_arith)
                requires
                    rest * pd == a2 * den,
            ;
            assert(rest * (p * e2.1) == a2 * v2 * den);
            lemma_place_from_meaning(t, p, ms, k + 1, rest, den);
        } else {
            assert((rest * v2) * (pd * v) == a2 * v2 * (den * v)) by (nonlinear_arith)
                requires
                    rest * pd == a2 * den,
            ;
            assert((rest * v2) * (p * e2.1) == a2 * v2 * (den * v));
            assert(rest * v2 >= 0 && den * v > 0) by (nonlinear_arith)
                requires
                    rest >= 0,
                    v2 >= 1,
                    den > 0,
                    v >= 1,
            ;
            lemma_place_from_meaning(t, p, ms, k + 1, rest * v2, den * v);
        }
    }
}

/// Law: where a pedal event at tick `t` with `p > 0` ticks per quarter note
/// is placed, its measure is the one whose span holds it (the last where it
/// lies beyond all of them), and its offset is its exact distance from the
/// start of that measure in the measure's divisions, rounded half up and at
/// most the measure's length.
pub proof fn law_placement_is_exact(t: int, p: int, ms: Seq<(int, int, int, int)>)
    requires
        p > 0,
        t >= 0,
        ms.len() > 0,
        measures_well_formed(ms),
    ensures
        placement_meaning(t, p, ms, pedal_placement(t, p, ms).0, pedal_placement(t, p, ms).1),
{
    {
        assert(ms[0].1 >= 1);
        assert(elapsed_quarters(ms, 0) == (0int, 1int));
        assert((t * ms[0].1) * (p * 1) == (t * 1 - p * 0) * ms[0].1 * p && t * ms[0].1 >= 0) by (nonlinear_arith)
            requires
                t >= 0,
                ms[0].1 >= 1,
        ;
        lemma_place_from_meaning(t, p, ms, 0, t * ms[0].1, p);
    }
}

/// Every measure has at least one division per quarter and a length of at
/// least one division.
pub open spec fn measures_well_formed(ms: Seq<(int, int, int, int)>) -> bool {
    forall|k: int| 0 <= k < ms.len() ==> 1 <= #[trigger] ms[k].1 && 1 <= ms[k].2
}

/// For `m >= 1`: `m` is at most `num / den` rounded half up exactly when
/// `(2m - 1) den <= 2 num`.
proof fn lemma_round_bound(num: int, den: int, m: int)
    requires
        num >= 0,
        den > 0,
        m >= 1,
    ensures
        ((2 * m - 1) * den <= 2 * num) == (m <= round_half_up(num, den)),
{
    let q = num / den;
    let r = num % den;
    vstd::arithmetic::div_mod::lemma_fundamental_div_mod(num, den);
    assert(0 <= r < den);
    if m <= q {
        assert((2 * m - 1) * den <= 2 * num) by (nonlinear_arith)
            requires
                m <= q,
                num == den * q + r,
                r >= 0,
                den > 0,
        ;
    } else if m == q + 1 {
        assert(((2 * m - 1) * den <= 2 * num) == (den <= 2 * r)) by (nonlinear_arith)
            requires
                m == q + 1,
                num == den * q + r,
        ;
    } else {
        assert((2 * m - 1) * den > 2 * num) by (nonlinear_arith)
            requires
                m >= q + 2,
                num == den * q + r,
                r < den,
                den > 0,
        ;
    }
}

/// `num / den` rounded half up, and at most `d`.
fn rounded_offset(num: &Vec<u32>, den: &Vec<u32>, d: u32) -> (r: u32)
    requires
        value(den@) > 0,
    ensures
        r as int == if round_half_up(value(num@), value(den@)) > d {
            d as int
        } else {
            round_half_up(value(num@), value(den@))
        },
{
    let ghost n = value(num@);
    let ghost dn = value(den@);
    let ghost target = if round_half_up(n, dn) > d { d as int } else { round_half_up(n, dn) };
    proof {
        lemma_value_below_bounds(num@, num@.len());
        assert(n / dn >= 0 && n % dn >= 0) by (nonlinear_arith)
            requires
                n >= 0,
                dn > 0,
        ;
    }
    let twice = nat_mul_small(num, 2);
    let mut lo: u32 = 0;
    let mut hi: u32 = d;
    while lo < hi
        invariant
            lo <= hi <= d,
            lo <= target <= hi,
            n == value(num@),
            dn == value(den@),
            n >= 0,
            dn > 0,
            value(twice@) == 2 * n,
            target == if round_half_up(n, dn) > d { d as int } else { round_half_up(n, dn) },
        decreases hi - lo,
    {
        let mid: u32 = (lo as u64 + (hi as u64 - lo as u64 + 1) / 2) as u32;
        let lhs = nat_mul_small(den, 2 * mid as u64 - 1);
        let (_, below) = nat_sub(&twice, &lhs);
        proof {
            lemma_round_bound(n, dn, mid as int);
        }
        if below {
            hi = mid - 1;
        } else {
            lo = mid;
        }
    }
    lo
}

/// Finds the measure and offset for a pedal event at `tick`.
fn place_event(tick: u128, tpq: u16, ms: &Vec<Measure>) -> (r: (usize, u32))
    requires
        ms.len() > 0,
        measures_well_formed(measures_view(ms@)),
    ensures
        pedal_placement(tick as int, tpq as int, measures_view(ms@)) == (r.0 as int, r.1 as int),
{
    let ghost mv = measures_view(ms@);
    let n = ms.len();
    if tpq == 0 {
        let last = ms[n - 1];
        assert(mv.last() == measure_view(last));
        return (n - 1, if tick > 0 { last.duration } else { 0 });
    }
    assert(mv[0] == measure_view(ms@[0]));
    let mut num = nat_mul_small(&nat_from_u128(tick), ms[0].divisions as u64);
    let mut den = nat_from_u128(tpq as u128);
    let mut k: usize = 0;
    loop
        invariant
            n == ms.len(),
            mv == measures_view(ms@),
            measures_well_formed(mv),
            k < n,
            value(den@) > 0,
            value(num@) >= 0,
            pedal_placement(tick as int, tpq as int, mv) == place_from(mv, k as int, value(num@), value(den@)),
        decreases n - k,
    {
        let m = ms[k];
        assert(mv[k as int] == measure_view(m));
        let end = nat_mul_small(&den, m.duration as u64);
        let (rest, short) = nat_sub(&num, &end);
        if short || k == n - 1 {
            let off = rounded_offset(&num, &den, m.duration);
            return (k, off);
        }
        let next = ms[k + 1];
        assert(mv[k + 1] == measure_view(next));
        if next.divisions != m.divisions {
            let ghost od = value(den@);
            let ghost rv = value(rest@);
            assert(rv * next.divisions >= 0 && od * m.divisions > 0) by (nonlinear_arith)
                requires
                    rv >= 0,
                    od > 0,
                    m.divisions >= 1,
                    next.divisions >= 1,
            ;
            num = nat_mul_small(&rest, next.divisions as u64);
            den = nat_mul_small(&den, m.divisions as u64);
        } else {
            num = rest;
        }
        k = k + 1;
    }
}

/// `xml` with each text of `ins` put in at its position; the positions do
/// not decrease and lie within `xml`.
pub open spec fn with_insertions(xml: Seq<char>, ins: Seq<(int, Seq<char>)>) -> Seq<char>
    decreases ins.len(),
{
    if ins.len() == 0 {
        xml
    } else {
        let l = ins.last();
        with_insertions(xml.take(l.0), ins.drop_last()) + l.1 + xml.skip(l.0)
    }
}

/// Cutting the text after every insertion point leaves the insertions as
/// they were.
proof fn lemma_with_insertions_prefix(s: Seq<char>, ins: Seq<(int, Seq<char>)>, p: int)
    requires
        0 <= p <= s.len(),
        forall|i: int| 0 <= i < ins.len() ==> 0 <= #[trigger] ins[i].0 <= p,
    ensures
        with_insertions(s, ins) == with_insertions(s.take(p), ins) + s.skip(p),
{
    if ins.len() == 0 {
        assert(s =~= s.take(p) + s.skip(p));
    } else {
        let l = ins.last();
        assert(s.take(p).take(l.0) =~= s.take(l.0));
        assert(s.take(p).skip(l.0) + s.skip(p) =~= s.skip(l.0));
    }
}

/// The directions for the events that go to measure `k`, in event order.
pub open spec fn measure_directions(events: Seq<(int, bool, u8)>, places: Seq<(int, int)>, staff: int, k: int) -> Seq<char>
    decreases events.len(),
{
    if events.len() == 0 || places.len() != events.len() {
        seq![]
    } else {
        let e = events.last();
        let p = places.last();
        measure_directions(events.drop_last(), places.drop_last(), staff, k) + if p.0 == k {
            direction_text(p.1, staff, e.1, e.2)
        } else {
            seq![]
        }
    }
}

/// The placement of each event.
pub open spec fn placements(events: Seq<(int, bool, u8)>, tpq: int, ms: Seq<(int, int, int, int)>) -> Seq<(int, int)> {
    Seq::new(events.len(), |i: int| pedal_placement(events[i].0, tpq, ms))
}

/// The text put in at each measure: its insertion point and its directions.
pub open spec fn measure_insertions(events: Seq<(int, bool, u8)>, tpq: int, ms: Seq<(int, int, int, int)>) -> Seq<(int, Seq<char>)> {
    Seq::new(
        ms.len(),
        |k: int| (ms[k].0, measure_directions(events, placements(events, tpq, ms), ms[k].3, k)),
    )
}

/// The score `xml` with the pedal marks of the MIDI take `midi`, or the
/// error that `add_pedal_markings` reports.
pub open spec fn pedal_markings(midi: Seq<u8>, xml: Seq<char>) -> Result<Seq<char>, Seq<char>> {
    match midi_pedal_events(midi) {
        Err(e) => Err(e),
        Ok(pe) => {
            let tpq = pe.0;
            let events = pe.1;
            if events.len() == 0 {
                Ok(xml)
            } else {
                match score_measures(xml) {
                    None => Ok(xml),
                    Some(Err(e)) => Err(e),
                    Some(Ok(ms)) => if ms.len() == 0 {
                        Err("MuseScore MusicXML contains no measures"@)
                    } else {
                        Ok(with_insertions(xml, measure_insertions(events, tpq, ms)))
                    },
                }
            }
        },
    }
}

/// Whether marking the pedal of `midi` into `xml` stays within the `u32` and
/// `i64` arithmetic of the measure scanner: always where the take has no
/// pedal moves, since the score is then not read.
pub open spec fn pedal_markings_in_range(midi: Seq<u8>, xml: Seq<char>) -> bool {
    (midi_pedal_events(midi) matches Ok(pe) && pe.1.len() > 0) ==> measure_arithmetic_fits(xml)
}

/// `add_pedal_markings` where its arithmetic stays in range; `None` where
/// the take has pedal moves and reading the score's measures would
/// overflow.
pub fn add_pedal_markings_in_range(midi: &[u8], musicxml: &str) -> (r: Option<Result<String, String>>)
    ensures
        r is None <==> !pedal_markings_in_range(midi@, musicxml@),
        match r {
            Some(Ok(s)) => pedal_markings(midi@, musicxml@) == Ok::<Seq<char>, Seq<char>>(s@),
            Some(Err(e)) => pedal_markings(midi@, musicxml@) == Err::<Seq<char>, Seq<char>>(e@),
            None => true,
        },
{
    if measures_arithmetic_fits(musicxml) {
        return Some(add_pedal_markings(midi, musicxml));
    }
    let moves = match pedal_events(midi) {
        Ok(x) => x.1.len(),
        Err(_) => 0,
    };
    if moves == 0 {
        Some(add_pedal_markings(midi, musicxml))
    } else {
        None
    }
}

/// The pedal events placed in measure `k`, in event order, each as
/// `(offset, goes down, value)`.
pub open spec fn placed_at(events: Seq<(int, bool, u8)>, places: Seq<(int, int)>, k: int) -> Seq<(int, bool, u8)>
    decreases events.len(),
{
    if events.len() == 0 || places.len() != events.len() {
        seq![]
    } else {
        let e = events.last();
        let p = places.last();
        placed_at(events.drop_last(), places.drop_last(), k) + if p.0 == k {
            seq![(p.1, e.1, e.2)]
        } else {
            seq![]
        }
    }
}

/// The directions for `items`, one after the other, all on staff `staff`.
pub open spec fn directions_on_staff(items: Seq<(int, bool, u8)>, staff: int) -> Seq<char>
    decreases items.len(),
{
    if items.len() == 0 {
        seq![]
    } else {
        directions_on_staff(items.drop_last(), staff) + direction_text(
            items.last().0,
            staff,
            items.last().1,
            items.last().2,
        )
    }
}

proof fn lemma_measure_directions_on_staff(events: Seq<(int, bool, u8)>, places: Seq<(int, int)>, staff: int, k: int)
    ensures
        measure_directions(events, places, staff, k) == directions_on_staff(placed_at(events, places, k), staff),
    decreases events.len(),
{
    if events.len() > 0 && places.len() == events.len() {
        lemma_measure_directions_on_staff(events.drop_last(), places.drop_last(), staff, k);
        let prev = placed_at(events.drop_last(), places.drop_last(), k);
        let p = places.last();
        let e = events.last();
        if p.0 == k {
            assert((prev + seq![(p.1, e.1, e.2)]).drop_last() =~= prev);
        } else {
            assert(prev + seq![] =~= prev);
        }
    }
}

/// Law: the text that marking the pedal puts into each measure is made of
/// the directions of the events placed in that measure, in event order, and
/// every one of them names the staff that the measure scan gives for that
/// measure (2 where the score declares two or more staves).
pub proof fn law_marks_name_the_measure_staff(midi: Seq<u8>, xml: Seq<char>)
    requires
        midi_pedal_events(midi) matches Ok(pe) && pe.1.len() > 0,
        score_measures(xml) matches Some(Ok(ms)) && ms.len() > 0,
    ensures
        ({
            let (tpq, events) = midi_pedal_events(midi)->Ok_0;
            let ms = score_measures(xml)->Some_0->Ok_0;
            let pl = Seq::new(events.len(), |i: int| pedal_placement(events[i].0, tpq, ms));
            pedal_markings(midi, xml) == Ok::<Seq<char>, Seq<char>>(with_insertions(
                xml,
                Seq::new(ms.len(), |k: int| (ms[k].0, directions_on_staff(placed_at(events, pl, k), ms[k].3))),
            ))
        }),
{
    let (tpq, events) = midi_pedal_events(midi)->Ok_0;
    let ms = score_measures(xml)->Some_0->Ok_0;
    let pl = Seq::new(events.len(), |i: int| pedal_placement(events[i].0, tpq, ms));
    assert(pl =~= placements(events, tpq, ms));
    let want = Seq::new(ms.len(), |k: int| (ms[k].0, directions_on_staff(placed_at(events, pl, k), ms[k].3)));
    assert forall|k: int| 0 <= k < ms.len() implies #[trigger] measure_insertions(events, tpq, ms)[k] == want[k] by {
        lemma_measure_directions_on_staff(events, pl, ms[k].3, k);
    }
    assert(measure_insertions(events, tpq, ms) =~= want);
}

/// Law: a take without pedal moves leaves the score exactly as it was.
pub proof fn law_no_pedal_no_change(midi: Seq<u8>, xml: Seq<char>)
    requires
        midi_pedal_events(midi) matches Ok(pe) && pe.1.len() == 0,
    ensures
        pedal_markings(midi, xml) == Ok::<Seq<char>, Seq<char>>(xml),
{
}

/// Writes the pedal presses and releases of the MIDI take `midi` into the
/// MusicXML score `musicxml` as `<pedal>` directions (`add_pedal_markings`).
/// Each event goes to the measure whose span holds it and to the offset,
/// in that measure's divisions, nearest to it.
#[verifier::rlimit(40)]
pub fn add_pedal_markings(midi: &[u8], musicxml: &str) -> (r: Result<String, String>)
    requires
        pedal_markings_in_range(midi@, musicxml@),
    ensures
        match r {
            Ok(s) => pedal_markings(midi@, musicxml@) == Ok::<Seq<char>, Seq<char>>(s@),
            Err(e) => pedal_markings(midi@, musicxml@) == Err::<Seq<char>, Seq<char>>(e@),
        },
{
    let (tpq, events) = match pedal_events(midi) {
        Ok(x) => x,
        Err(e) => return Err(e),
    };
    let ghost ev = pedal_events_view(events@);
    if events.len() == 0 {
        return Ok(musicxml.to_string());
    }
    let xml = str_chars(musicxml);
    let ms = match scan_measures(&xml) {
        None => return Ok(musicxml.to_string()),
        Some(Err(e)) => return Err(e),
        Some(Ok(ms)) => ms,
    };
    let ghost mv = measures_view(ms@);
    if ms.len() == 0 {
        return Err("MuseScore MusicXML contains no measures".to_string());
    }
    proof {
        lemma_measures_from_shape(xml@, 0, 1, 4, 4, 1);
    }
    let mut places: Vec<(usize, u32)> = Vec::new();
    let mut i: usize = 0;
    while i < events.len()
        invariant
            i <= events.len(),
            ms.len() > 0,
            midi_pedal_events(midi@) == Ok::<(int, Seq<(int, bool, u8)>), Seq<char>>((tpq as int, ev)),
            score_measures(musicxml@) == Some(Ok::<Seq<(int, int, int, int)>, Seq<char>>(mv)),
            ev.len() > 0,
            ev == pedal_events_view(events@),
            mv == measures_view(ms@),
            measures_well_formed(mv),
            places.len() == i,
            forall|j: int| 0 <= j < i ==> pedal_placement(ev[j].0, tpq as int, mv) == (
                #[trigger] places@[j].0 as int,
                places@[j].1 as int,
            ),
        decreases events.len() - i,
    {
        assert(ev[i as int] == pedal_event_view(events@[i as int]));
        let p = place_event(events[i].tick, tpq, &ms);
        places.push(p);
        i = i + 1;
    }
    let ghost pl = placements(ev, tpq as int, mv);
    assert forall|q: int| 0 <= q < events.len() implies pl[q] == (#[trigger] places@[q].0 as int, places@[q].1 as int) by {
        assert(pedal_placement(ev[q].0, tpq as int, mv) == (places@[q].0 as int, places@[q].1 as int));
    }
    let ghost ins = measure_insertions(ev, tpq as int, mv);
    let mut out: Vec<char> = Vec::new();
    let mut prev: usize = 0;
    let mut k: usize = 0;
    while k < ms.len()
        invariant
            k <= ms.len(),
            prev <= xml.len(),
            mv == measures_view(ms@),
            ins == measure_insertions(ev, tpq as int, mv),
            ev == pedal_events_view(events@),
            ev.len() == events.len(),
            places.len() == events.len(),
            pl == placements(ev, tpq as int, mv),
            pl.len() == events.len(),
            forall|q: int| 0 <= q < events.len() ==> pl[q] == (#[trigger] places@[q].0 as int, places@[q].1 as int),
            forall|j: int| 0 <= j < mv.len() ==> 0 <= #[trigger] mv[j].0 <= xml.len(),
            forall|a: int, b: int| 0 <= a < b < mv.len() ==> mv[a].0 < mv[b].0,
            k > 0 ==> prev as int == mv[k - 1].0,
            k == 0 ==> prev == 0,
            out@ == with_insertions(xml@.take(prev as int), ins.take(k as int)),
        decreases ms.len() - k,
    {
        let m = ms[k];
        assert(mv[k as int] == measure_view(m));
        let at = m.insertion_at;
        if k > 0 {
            assert(mv[k - 1].0 < mv[k as int].0);
        }
        assert(0 <= mv[k as int].0 <= xml.len());
        assert(prev <= at);
        assert(at <= xml.len());
        let ghost base = out@;
        let seg = crate::text::slice_chars(&xml, prev, at);
        append_chars(&mut out, &seg);
        let ghost mid = out@;
        let mut j: usize = 0;
        while j < events.len()
            invariant
                j <= events.len(),
                places.len() == events.len(),
                ev == pedal_events_view(events@),
                ev.len() == events.len(),
                pl.len() == events.len(),
                out@ == mid + measure_directions(ev.take(j as int), pl.take(j as int), m.staff as int, k as int),
                forall|q: int| 0 <= q < events.len() ==> pl[q] == (#[trigger] places@[q].0 as int, places@[q].1 as int),
            decreases events.len() - j,
        {
            assert(ev.take(j + 1).drop_last() =~= ev.take(j as int));
            assert(pl.take(j + 1).drop_last() =~= pl.take(j as int));
            assert(ev.take(j + 1).last() == pedal_event_view(events@[j as int]));
            if places[j].0 == k {
                push_direction(&mut out, places[j].1, m.staff, events[j]);
            }
            j = j + 1;
        }
        proof {
            assert(ev.take(events.len() as int) =~= ev);
            assert(pl.take(events.len() as int) =~= pl);
            assert(ins.take(k + 1).drop_last() =~= ins.take(k as int));
            assert(ins.take(k + 1).last() == ins[k as int]);
            let s = xml@.take(at as int);
            assert(s.take(at as int) =~= s);
            assert(s.skip(at as int) =~= Seq::<char>::empty());
            lemma_with_insertions_prefix(s, ins.take(k as int), prev as int);
            assert(s.take(prev as int) =~= xml@.take(prev as int));
            assert(s.skip(prev as int) =~= seg@);
        }
        prev = at;
        k = k + 1;
    }
    proof {
        assert(ins.take(ms.len() as int) =~= ins);
        lemma_with_insertions_prefix(xml@, ins, prev as int);
    }
    let rest = crate::text::slice_chars(&xml, prev, xml.len());
    append_chars(&mut out, &rest);
    assert(xml@.skip(prev as int) =~= rest@);
    Ok(chars_to_string(&out))
}

} // verus!
