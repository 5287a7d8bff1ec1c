//! The notes of a track as drawable bars: each note-on paired with the
//! note-off that ends it.
use vstd::prelude::*;

use crate::midi::{last_tick, ticks_nondecreasing, MidiEvent, MidiRegion, Message, Voice};

verus! {

/// A note drawn from tick `start` to tick `end`.
#[derive(Debug, Clone, Copy)]
pub struct PaintableNote {
    pub note: u8,
    pub start: u32,
    pub end: u32,
}

impl PaintableNote {
    pub fn new(note: u8, start: u32, end: u32) -> (r: Self)
        ensures
            r == (PaintableNote { note, start, end }),
    {
        Self { note, start, end }
    }
}

/// What a message does to the drawing: the note it starts (`true`) or
/// ends (`false`). A note-on with velocity zero ends its note.
pub open spec fn note_action(m: Message) -> Option<(u8, bool)> {
    match m {
        Message::Voice { voice, .. } => match voice {
            Voice::NoteOn { note, velocity } => Some((note, velocity > 0)),
            Voice::HighResNoteOn { note, velocity } => Some((note, velocity > 0)),
            Voice::NoteOff { note, .. } => Some((note, false)),
            Voice::HighResNoteOff { note, .. } => Some((note, false)),
            _ => None,
        },
        _ => None,
    }
}

/// The drawing in progress: for each of the 128 notes the tick at which it
/// was started and is still sounding, and the notes finished so far.
pub struct PaintScan {
    pub open: Seq<Option<u32>>,
    pub done: Seq<PaintableNote>,
}

pub open spec fn no_open_notes() -> Seq<Option<u32>> {
    Seq::new(128, |i: int| None::<u32>)
}

/// One event applied to the drawing: a start opens its note unless it is
/// already open; an end closes an open note into a finished bar.
pub open spec fn paint_step(s: PaintScan, e: MidiEvent) -> PaintScan {
    match note_action(e.msg) {
        None => s,
        Some((note, on)) => if note > 127 {
            s
        } else if on {
            if s.open[note as int] is None {
                PaintScan { open: s.open.update(note as int, Some(e.tick)), done: s.done }
            } else {
                s
            }
        } else {
            match s.open[note as int] {
                Some(start) => PaintScan {
                    open: s.open.update(note as int, None),
                    done: s.done.push(PaintableNote { note, start, end: e.tick }),
                },
                None => s,
            }
        },
    }
}

/// The drawing after all the events, in order.
pub open spec fn paint_scan(events: Seq<MidiEvent>) -> PaintScan
    decreases events.len(),
{
    if events.len() == 0 {
        PaintScan { open: no_open_notes(), done: Seq::empty() }
    } else {
        paint_step(paint_scan(events.drop_last()), events.last())
    }
}

/// The notes among the first `n` that are still open, drawn up to `end`,
/// in note order.
pub open spec fn unclosed(open: Seq<Option<u32>>, end: u32, n: nat) -> Seq<PaintableNote>
    decreases n,
{
    if n == 0 {
        Seq::empty()
    } else {
        let before = unclosed(open, end, (n - 1) as nat);
        match open[n - 1] {
            Some(start) => before.push(PaintableNote { note: (n - 1) as u8, start, end }),
            None => before,
        }
    }
}

/// The drawable notes of a track: the bars finished in the track, then the
/// notes left open, drawn up to the track's last tick.
pub open spec fn paint_notes(events: Seq<MidiEvent>) -> Seq<PaintableNote> {
    let s = paint_scan(events);
    s.done + unclosed(s.open, last_tick(events), 128)
}

proof fn lemma_scan_open_len(events: Seq<MidiEvent>)
    ensures
        paint_scan(events).open.len() == 128,
    decreases events.len(),
{
    if events.len() > 0 {
        lemma_scan_open_len(events.drop_last());
    }
}

/// The drawable notes of a region's events.
pub fn paint_region(region: &MidiRegion) -> (r: Vec<PaintableNote>)
    ensures
        r@ == paint_notes(region@),
{
    let events = region.events();
    let mut open: Vec<Option<u32>> = Vec::new();
    while open.len() < 128
        invariant
            open.len() <= 128,
            forall|k: int| 0 <= k < open.len() ==> open@[k] is None,
        decreases 128 - open.len(),
    {
        open.push(None);
    }
    assert(open@ =~= no_open_notes());
    let mut done: Vec<PaintableNote> = Vec::new();
    let mut i: usize = 0;
    while i < events.len()
        invariant
            events@ == region@,
            i <= events@.len(),
            open.len() == 128,
            paint_scan(events@.take(i as int)) == (PaintScan { open: open@, done: done@ }),
        decreases events@.len() - i,
    {
        let e = &events[i];
        assert(events@.take(i + 1).drop_last() =~= events@.take(i as int));
        assert(events@.take(i + 1).last() == events@[i as int]);
        let action: Option<(u8, bool)> = match &e.msg {
            Message::Voice { voice, .. } => match voice {
                Voice::NoteOn { note, velocity } => Some((*note, *velocity > 0)),
                Voice::HighResNoteOn { note, velocity } => Some((*note, *velocity > 0)),
                Voice::NoteOff { note, .. } => Some((*note, false)),
                Voice::HighResNoteOff { note, .. } => Some((*note, false)),
                _ => None,
            },
            _ => None,
        };
        assert(action == note_action(e.msg));
        if let Some((note, on)) = action {
            if note <= 127 {
                let idx = note as usize;
                if on {
                    if open[idx].is_none() {
                        open.set(idx, Some(e.tick));
                    }
                } else {
                    if let Some(start) = open[idx] {
                        open.set(idx, None);
                        done.push(PaintableNote { note, start, end: e.tick });
                    }
                }
            }
        }
        i += 1;
        assert(paint_scan(events@.take(i as int)) =~~= (PaintScan { open: open@, done: done@ }));
    }
    assert(events@.take(i as int) =~= events@);
    let end = region.length_in_ticks();
    let ghost scanned = done@;
    let mut n: usize = 0;
    while n < 128
        invariant
            n <= 128,
            open.len() == 128,
            paint_scan(events@) == (PaintScan { open: open@, done: scanned }),
            end == last_tick(events@),
            done@ == scanned + unclosed(open@, end, n as nat),
        decreases 128 - n,
    {
        if let Some(start) = open[n] {
            done.push(PaintableNote { note: n as u8, start, end });
        }
        n += 1;
        assert(done@ =~= scanned + unclosed(open@, end, n as nat));
    }
    done
}

/// A drawn note lies on the keyboard and does not end before it starts.
pub open spec fn note_well_drawn(n: PaintableNote, end_bound: u32) -> bool {
    n.note <= 127 && n.start <= n.end && n.end <= end_bound
}

proof fn lemma_scan_well_drawn(events: Seq<MidiEvent>)
    requires
        ticks_nondecreasing(events),
    ensures
        paint_scan(events).open.len() == 128,
        forall|n: int|
            0 <= n < 128 && paint_scan(events).open[n] is Some ==> paint_scan(events).open[n].unwrap()
                <= last_tick(events),
        forall|k: int|
            0 <= k < paint_scan(events).done.len() ==> note_well_drawn(
                #[trigger] paint_scan(events).done[k],
                last_tick(events),
            ),
    decreases events.len(),
{
    lemma_scan_open_len(events);
    if events.len() > 0 {
        let prev = events.drop_last();
        assert(ticks_nondecreasing(prev));
        lemma_scan_well_drawn(prev);
        if prev.len() > 0 {
            assert(prev.last().tick <= events.last().tick);
        }
    }
}

proof fn lemma_unclosed_well_drawn(open: Seq<Option<u32>>, end: u32, n: nat)
    requires
        n <= 128,
        open.len() == 128,
        forall|q: int| 0 <= q < 128 && open[q] is Some ==> open[q].unwrap() <= end,
    ensures
        forall|k: int| 0 <= k < unclosed(open, end, n).len() ==> note_well_drawn(#[trigger] unclosed(open, end, n)[k], end),
    decreases n,
{
    if n > 0 {
        lemma_unclosed_well_drawn(open, end, (n - 1) as nat);
        let before = unclosed(open, end, (n - 1) as nat);
        assert forall|k: int| 0 <= k < unclosed(open, end, n).len() implies note_well_drawn(#[trigger] unclosed(open, end, n)[k], end) by {
            if k < before.len() {
                assert(unclosed(open, end, n)[k] == before[k]);
            }
        }
    }
}

/// When a track's ticks never decrease, every drawn note lies on the
/// keyboard, starts no later than it ends, and ends by the track's last
/// tick.
pub proof fn lemma_paint_notes_well_drawn(events: Seq<MidiEvent>)
    requires
        ticks_nondecreasing(events),
    ensures
        forall|k: int|
            0 <= k < paint_notes(events).len() ==> note_well_drawn(#[trigger] paint_notes(events)[k], last_tick(events)),
{
    lemma_scan_well_drawn(events);
    let s = paint_scan(events);
    lemma_unclosed_well_drawn(s.open, last_tick(events), 128);
    assert forall|k: int| 0 <= k < paint_notes(events).len() implies note_well_drawn(#[trigger] paint_notes(events)[k], last_tick(events)) by {
        if k < s.done.len() {
            assert(paint_notes(events)[k] == s.done[k]);
        } else {
            assert(paint_notes(events)[k] == unclosed(s.open, last_tick(events), 128)[k - s.done.len()]);
        }
    }
}

proof fn lemma_open_kept(events: Seq<MidiEvent>, i: int, q: u8, n: int)
    requires
        0 <= i < events.len(),
        i + 1 <= n <= events.len(),
        q <= 127,
        note_action(events[i].msg) == Some((q, true)),
        forall|j: int|
            i < j < events.len() ==> !(#[trigger] note_action(events[j].msg) matches Some((k, _)) && k == q),
    ensures
        paint_scan(events.take(n)).open[q as int] is Some,
    decreases n,
{
    let t = events.take(n);
    assert(t.drop_last() =~= events.take(n - 1));
    assert(t.last() == events[n - 1]);
    lemma_scan_open_len(events.take(n - 1));
    if n > i + 1 {
        lemma_open_kept(events, i, q, n - 1);
        assert(!(note_action(events[n - 1].msg) matches Some((k, _)) && k == q));
    }
}

proof fn lemma_unclosed_has(open: Seq<Option<u32>>, end: u32, n: nat, q: int)
    requires
        0 <= q < n <= 128,
        open.len() == 128,
        open[q] is Some,
    ensures
        unclosed(open, end, n).contains(PaintableNote { note: q as u8, start: open[q].unwrap(), end }),
    decreases n,
{
    let x = PaintableNote { note: q as u8, start: open[q].unwrap(), end };
    let before = unclosed(open, end, (n - 1) as nat);
    if q == n - 1 {
        assert(unclosed(open, end, n)[before.len() as int] == x);
    } else {
        lemma_unclosed_has(open, end, (n - 1) as nat, q);
        let k = choose|k: int| 0 <= k < before.len() && before[k] == x;
        assert(unclosed(open, end, n)[k] == x);
    }
}

/// A note started in a track and never ended or restarted after it (a drum
/// hit with no note-off, say) is drawn running to the track's last tick:
/// some drawn note of that key ends at `last_tick`, whatever the events.
pub proof fn lemma_unended_note_runs_to_last_tick(events: Seq<MidiEvent>, i: int, q: u8)
    requires
        0 <= i < events.len(),
        q <= 127,
        note_action(events[i].msg) == Some((q, true)),
        forall|j: int|
            i < j < events.len() ==> !(#[trigger] note_action(events[j].msg) matches Some((k, _)) && k == q),
    ensures
        exists|start: u32| #[trigger]
            paint_notes(events).contains(PaintableNote { note: q, start, end: last_tick(events) }),
{
    lemma_open_kept(events, i, q, events.len() as int);
    assert(events.take(events.len() as int) =~= events);
    let s = paint_scan(events);
    lemma_scan_open_len(events);
    lemma_unclosed_has(s.open, last_tick(events), 128, q as int);
    let x = PaintableNote { note: q, start: s.open[q as int].unwrap(), end: last_tick(events) };
    let u = unclosed(s.open, last_tick(events), 128);
    let k = choose|k: int| 0 <= k < u.len() && u[k] == x;
    assert(paint_notes(events)[s.done.len() + k] == x);
    assert(paint_notes(events).contains(x));
}

} // verus!
