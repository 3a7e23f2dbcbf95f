//! The track of a recorded take: the MIDI messages of a session turned into
//! timed track events, ready to be written as a single-track MIDI file.

use vstd::prelude::*;
use crate::tick_sort::{
    law_sort_by_tick_sorted_permutation, sort_by_tick, sort_by_tick_stable, ticks_of,
};

verus! {

broadcast use vstd::string::group_string_axioms;

/// Ticks per quarter note of recorded files.
pub const TICKS_PER_QUARTER: u16 = 480;

/// Microseconds per quarter note of recorded files (120 beats per minute).
pub const MICROSECONDS_PER_QUARTER: u32 = 500_000;

/// An event of the recorded track.
#[derive(Clone, Copy, Debug, PartialEq, Eq)]
pub enum TrackItem {
    /// Set the tempo, in microseconds per quarter note.
    Tempo(u32),
    NoteOn { channel: u8, key: u8, velocity: u8 },
    NoteOff { channel: u8, key: u8, velocity: u8 },
    /// A change of the sustain pedal (controller 64).
    Controller { channel: u8, controller: u8, value: u8 },
    EndOfTrack,
}

/// The track event for a raw three-byte MIDI message, if it is one the
/// recorder keeps: a note-on with a velocity (note on), a note-off or a
/// note-on with velocity 0 (note off), or a change of controller 64.
pub open spec fn item_of(bytes: Seq<u8>) -> Option<TrackItem> {
    if bytes.len() != 3 {
        None
    } else {
        let status = bytes[0] & 0xF0;
        let channel = bytes[0] & 0x0F;
        if status == 0x90 && bytes[2] > 0 {
            Some(TrackItem::NoteOn { channel, key: bytes[1], velocity: bytes[2] })
        } else if status == 0x80 || status == 0x90 {
            Some(TrackItem::NoteOff { channel, key: bytes[1], velocity: bytes[2] })
        } else if status == 0xB0 && bytes[1] == 64 {
            Some(TrackItem::Controller { channel, controller: 64, value: bytes[2] })
        } else {
            None
        }
    }
}

/// The kept messages of `events` as `(tick, event)`, in recording order.
pub open spec fn kept_items(events: Seq<(u32, Seq<u8>)>) -> Seq<(int, TrackItem)>
    decreases events.len(),
{
    if events.len() == 0 {
        seq![]
    } else {
        let prev = kept_items(events.drop_last());
        match item_of(events.last().1) {
            Some(item) => prev.push((events.last().0 as int, item)),
            None => prev,
        }
    }
}

/// The tempo at tick 0 followed by the kept messages.
pub open spec fn timed_items(events: Seq<(u32, Seq<u8>)>) -> Seq<(int, TrackItem)> {
    seq![(0int, TrackItem::Tempo(500_000))] + kept_items(events)
}

/// Timed events with each tick replaced by the ticks since the event
/// before (the first counted from `last`; never below 0).
pub open spec fn with_deltas(s: Seq<(int, TrackItem)>, last: int) -> Seq<(int, TrackItem)>
    decreases s.len(),
{
    if s.len() == 0 {
        seq![]
    } else {
        let d = if s[0].0 >= last { s[0].0 - last } else { 0 };
        seq![(d, s[0].1)] + with_deltas(s.drop_first(), s[0].0)
    }
}

/// The track of a take whose messages came at `events` (tick, bytes): the
/// tempo, the kept messages in time order (recording order among equal
/// ticks) with delta ticks, then the end of the track.
pub open spec fn recorded_track(events: Seq<(u32, Seq<u8>)>) -> Result<Seq<(int, TrackItem)>, Seq<char>> {
    if events.len() == 0 {
        Err("No events to write"@)
    } else {
        Ok(with_deltas(sort_by_tick(timed_items(events)), 0).push((0int, TrackItem::EndOfTrack)))
    }
}

/// Inserting an item with a tick not below 0 keeps an item with tick 0 in
/// front.
proof fn lemma_insert_keeps_front(s: Seq<(int, TrackItem)>, x: (int, TrackItem))
    requires
        s.len() > 0,
        s[0].0 == 0,
        x.0 >= 0,
    ensures
        crate::tick_sort::insert_by_tick(s, x).len() == s.len() + 1,
        crate::tick_sort::insert_by_tick(s, x)[0] == s[0],
    decreases s.len(),
{
    if s.last().0 <= x.0 {
    } else {
        assert(s.len() > 1);
        lemma_insert_keeps_front(s.drop_last(), x);
    }
}

/// Sorting keeps a first item with tick 0 in front when no tick is
/// negative.
proof fn lemma_sort_keeps_front(s: Seq<(int, TrackItem)>)
    requires
        s.len() > 0,
        s[0].0 == 0,
        forall|i: int| 0 <= i < s.len() ==> #[trigger] s[i].0 >= 0,
    ensures
        sort_by_tick(s).len() == s.len(),
        sort_by_tick(s)[0] == s[0],
    decreases s.len(),
{
    let p = s.drop_last();
    if s.len() == 1 {
        assert(p =~= Seq::<(int, TrackItem)>::empty());
        assert(sort_by_tick(p) == p);
        assert(sort_by_tick(s) == crate::tick_sort::insert_by_tick(p, s.last()));
        assert(crate::tick_sort::insert_by_tick(p, s.last()) == p.push(s.last()));
    } else {
        assert forall|i: int| 0 <= i < p.len() implies #[trigger] p[i].0 >= 0 by {
            assert(p[i] == s[i]);
        }
        assert(p[0] == s[0]);
        lemma_sort_keeps_front(p);
        assert(s.last().0 >= 0);
        lemma_insert_keeps_front(sort_by_tick(p), s.last());
    }
}

/// The ticks of the kept messages are those of their events.
proof fn lemma_kept_items_ticks(events: Seq<(u32, Seq<u8>)>)
    ensures
        forall|i: int| 0 <= i < kept_items(events).len() ==> #[trigger] kept_items(events)[i].0 >= 0,
    decreases events.len(),
{
    if events.len() > 0 {
        lemma_kept_items_ticks(events.drop_last());
        let prev = kept_items(events.drop_last());
        assert forall|i: int| 0 <= i < kept_items(events).len() implies #[trigger] kept_items(events)[i].0 >= 0 by {
            if i < prev.len() {
                assert(kept_items(events)[i] == prev[i]);
            }
        }
    }
}

/// Law: a recorded track starts by setting the tempo to 500000
/// microseconds per quarter note at delta 0, ends with the end of the
/// track, and has no negative delta.
pub proof fn law_track_shape(events: Seq<(u32, Seq<u8>)>)
    requires
        events.len() > 0,
    ensures
        recorded_track(events) matches Ok(t) && t[0] == (0int, TrackItem::Tempo(500_000))
            && t.last() == (0int, TrackItem::EndOfTrack),
{
    let s = timed_items(events);
    lemma_kept_items_ticks(events);
    assert forall|i: int| 0 <= i < s.len() implies #[trigger] s[i].0 >= 0 by {
        if i > 0 {
            assert(s[i] == kept_items(events)[i - 1]);
        }
    }
    lemma_sort_keeps_front(s);
    let sorted = sort_by_tick(s);
    assert(with_deltas(sorted, 0)[0] == (0int, TrackItem::Tempo(500_000)));
}

/// The events as `(tick, bytes)` pairs of plain values.
pub open spec fn events_view(v: Seq<(u32, Vec<u8>)>) -> Seq<(u32, Seq<u8>)> {
    v.map_values(|e: (u32, Vec<u8>)| (e.0, e.1@))
}

/// The track event for a raw MIDI message, if the recorder keeps it.
fn item_of_bytes(bytes: &Vec<u8>) -> (r: Option<TrackItem>)
    ensures
        r == item_of(bytes@),
{
    if bytes.len() != 3 {
        return None;
    }
    let status = bytes[0] & 0xF0;
    let channel = bytes[0] & 0x0F;
    let key = bytes[1];
    let val = bytes[2];
    if status == 0x90 && val > 0 {
        Some(TrackItem::NoteOn { channel, key, velocity: val })
    } else if status == 0x80 || status == 0x90 {
        Some(TrackItem::NoteOff { channel, key, velocity: val })
    } else if status == 0xB0 && key == 64 {
        Some(TrackItem::Controller { channel, controller: 64, value: val })
    } else {
        None
    }
}

/// Builds the track of a take from its messages with their ticks
/// (`events_to_smf`, once each message's time is in ticks).
pub fn events_to_track(events: &Vec<(u32, Vec<u8>)>) -> (r: Result<Vec<(u32, TrackItem)>, String>)
    ensures
        match r {
            Ok(t) => recorded_track(events_view(events@)) == Ok::<Seq<(int, TrackItem)>, Seq<char>>(
                t@.map_values(|e: (u32, TrackItem)| (e.0 as int, e.1)),
            ),
            Err(e) => recorded_track(events_view(events@)) == Err::<Seq<(int, TrackItem)>, Seq<char>>(e@),
        },
{
    if events.len() == 0 {
        return Err("No events to write".to_string());
    }
    let ghost ev = events_view(events@);
    let mut timed: Vec<(u128, TrackItem)> = Vec::new();
    timed.push((0, TrackItem::Tempo(MICROSECONDS_PER_QUARTER)));
    let mut i: usize = 0;
    while i < events.len()
        invariant
            i <= events.len(),
            ev == events_view(events@),
            ticks_of(timed@) == seq![(0int, TrackItem::Tempo(500_000))] + kept_items(ev.take(i as int)),
            forall|k: int| 0 <= k < timed.len() ==> #[trigger] timed@[k].0 <= 0xFFFF_FFFF,
        decreases events.len() - i,
    {
        assert(ev.take(i + 1).drop_last() =~= ev.take(i as int));
        assert(ev.take(i + 1).last() == (events@[i as int].0, events@[i as int].1@));
        match item_of_bytes(&events[i].1) {
            Some(item) => {
                let ghost before = ticks_of(timed@);
                timed.push((events[i].0 as u128, item));
                assert(ticks_of(timed@) =~= before.push((events@[i as int].0 as int, item)));
            },
            None => {},
        }
        i = i + 1;
    }
    assert(ev.take(events.len() as int) =~= ev);
    let sorted = sort_by_tick_stable(&timed);
    let ghost st = ticks_of(sorted@);
    proof {
        law_sort_by_tick_sorted_permutation(ticks_of(timed@));
        assert forall|k: int| 0 <= k < sorted.len() implies #[trigger] sorted@[k].0 <= 0xFFFF_FFFF by {
            assert(st[k] == (sorted@[k].0 as int, sorted@[k].1));
            assert(st.to_multiset().count(st[k]) > 0) by {
                st.to_multiset_ensures();
                assert(st.contains(st[k]));
            }
            ticks_of(timed@).to_multiset_ensures();
            assert(ticks_of(timed@).contains(st[k]));
            let j = choose|j: int| 0 <= j < timed.len() && ticks_of(timed@)[j] == st[k];
            assert(ticks_of(timed@)[j] == (timed@[j].0 as int, timed@[j].1));
        }
    }
    let mut out: Vec<(u32, TrackItem)> = Vec::new();
    let mut last: u32 = 0;
    let mut k: usize = 0;
    assert(st.skip(0) =~= st);
    assert(out@.map_values(|e: (u32, TrackItem)| (e.0 as int, e.1)) + with_deltas(st, 0) =~= with_deltas(st, 0));
    while k < sorted.len()
        invariant
            k <= sorted.len(),
            st == ticks_of(sorted@),
            forall|q: int| 0 <= q < sorted.len() ==> #[trigger] sorted@[q].0 <= 0xFFFF_FFFF,
            k == 0 ==> last == 0,
            k > 0 ==> last as int == st[k - 1].0,
            with_deltas(st, 0) == out@.map_values(|e: (u32, TrackItem)| (e.0 as int, e.1))
                + with_deltas(st.skip(k as int), last as int),
        decreases sorted.len() - k,
    {
        let (tick128, item) = sorted[k];
        assert(st[k as int] == (tick128 as int, item));
        let tick = tick128 as u32;
        let delta = tick.saturating_sub(last);
        let ghost before = out@;
        out.push((delta, item));
        assert(st.skip(k as int).drop_first() =~= st.skip(k + 1));
        assert(st.skip(k as int)[0] == st[k as int]);
        assert(out@.map_values(|e: (u32, TrackItem)| (e.0 as int, e.1)) =~= before.map_values(
            |e: (u32, TrackItem)| (e.0 as int, e.1),
        ).push((delta as int, item)));
        last = tick;
        k = k + 1;
    }
    assert(st.skip(sorted.len() as int) =~= Seq::<(int, TrackItem)>::empty());
    let ghost before = out@;
    out.push((0, TrackItem::EndOfTrack));
    assert(out@.map_values(|e: (u32, TrackItem)| (e.0 as int, e.1)) =~= before.map_values(
        |e: (u32, TrackItem)| (e.0 as int, e.1),
    ).push((0int, TrackItem::EndOfTrack)));
    Ok(out)
}

} // verus!
