//! Mirroring notes around the middle of the keyboard, with transposition,
//! optional pitch-bend inversion and an exemption for the drum channel.
use vstd::prelude::*;

use crate::midi::{MidiEvent, MidiRegion, Message, Voice};

verus! {

/// The value that `m` folds to when it is brought into `0..=127` by whole
/// octaves (steps of 12), as the flipper does with out-of-range notes.
pub open spec fn fold_into_range(m: int) -> int {
    if m > 127 {
        m - 12 * ((m - 116) / 12)
    } else if m < 0 {
        m + 12 * ((11 - m) / 12)
    } else {
        m
    }
}

/// Brings `m` into `0..=127` by adding or removing whole octaves.
pub fn fold_note(m: i64) -> (r: u8)
    requires
        m > i64::MIN + 12,
    ensures
        r == fold_into_range(m as int),
        0 <= r <= 127,
        (r - m) % 12 == 0,
        m > 127 ==> 116 <= r,
        m < 0 ==> r <= 11,
        0 <= m <= 127 ==> r == m,
{
    if m > 127 {
        let k = (m - 116) / 12;
        assert(0 <= k);
        let r = m - 12 * k;
        assert(116 <= r <= 127) by(nonlinear_arith)
            requires k == (m - 116) / 12, r == m - 12 * k, m > 127;
        assert((r - m) % 12 == 0) by(nonlinear_arith)
            requires r == m - 12 * k;
        r as u8
    } else if m < 0 {
        let k = (11 - m) / 12;
        let r = m + 12 * k;
        assert(0 <= r <= 11) by(nonlinear_arith)
            requires k == (11 - m) / 12, r == m + 12 * k, m < 0;
        assert((r - m) % 12 == 0) by(nonlinear_arith)
            requires r == m + 12 * k;
        r as u8
    } else {
        m as u8
    }
}


/// How a track is flipped.
#[derive(Debug, Clone, Copy)]
pub struct FlipSettings {
    pub enabled: bool,
    pub global_transpose: i32,
    pub global_flip_bend: bool,
    pub transpose: i32,
    pub ignore_ch10: bool,
}

impl FlipSettings {
    /// Settings of a new track: flipping on, no own transposition, the drum
    /// channel left alone.
    pub fn new(global_transpose: i32, global_flip_bend: bool) -> (r: Self)
        ensures
            r.enabled,
            r.global_transpose == global_transpose,
            r.global_flip_bend == global_flip_bend,
            r.transpose == 0,
            r.ignore_ch10,
    {
        Self { enabled: true, global_transpose, global_flip_bend, transpose: 0, ignore_ch10: true }
    }
}

/// The channel index of General MIDI's drum channel, `Ch10`.
pub const DRUM_CHANNEL: u8 = 9u8;

/// The note a note becomes: mirrored (`127 - note`), transposed by both
/// transpositions, and folded back into `0..=127` by octaves.
pub open spec fn flipped_note(note: u8, s: FlipSettings) -> u8 {
    fold_into_range(127 - note + s.global_transpose + s.transpose) as u8
}

/// The arithmetic of flipping `note` stays within `i32`.
pub open spec fn note_flip_fits(note: u8, s: FlipSettings) -> bool {
    &&& i32::MIN <= s.global_transpose + s.transpose <= i32::MAX
    &&& i32::MIN <= 127 - note + s.global_transpose + s.transpose <= i32::MAX
}

/// The note a voice message carries, if any.
pub open spec fn voice_note(v: Voice) -> Option<u8> {
    match v {
        Voice::NoteOn { note, .. } => Some(note),
        Voice::NoteOff { note, .. } => Some(note),
        Voice::HighResNoteOn { note, .. } => Some(note),
        Voice::HighResNoteOff { note, .. } => Some(note),
        Voice::PolyPressure { note, .. } => Some(note),
        Voice::PitchBend { .. } => None,
    }
}

/// A voice message after flipping.
pub open spec fn flip_voice(v: Voice, s: FlipSettings) -> Voice {
    match v {
        Voice::NoteOn { note, velocity } => Voice::NoteOn { note: flipped_note(note, s), velocity },
        Voice::NoteOff { note, velocity } => Voice::NoteOff { note: flipped_note(note, s), velocity },
        Voice::HighResNoteOn { note, velocity } => Voice::HighResNoteOn {
            note: flipped_note(note, s),
            velocity,
        },
        Voice::HighResNoteOff { note, velocity } => Voice::HighResNoteOff {
            note: flipped_note(note, s),
            velocity,
        },
        Voice::PolyPressure { note, pressure } => Voice::PolyPressure {
            note: flipped_note(note, s),
            pressure,
        },
        Voice::PitchBend { bend } => if s.global_flip_bend {
            Voice::PitchBend { bend: (u16::MAX - bend) as u16 }
        } else {
            Voice::PitchBend { bend }
        },
    }
}

/// The message is left alone because it is on the drum channel and the
/// settings exempt that channel.
pub open spec fn exempt(m: Message, s: FlipSettings) -> bool {
    s.ignore_ch10 && (m matches Message::Voice { channel, .. } && channel == DRUM_CHANNEL)
}

/// A message after flipping: note and bend messages outside the exempt
/// drum channel change, all others stay as they are.
pub open spec fn flip_message(m: Message, s: FlipSettings) -> Message {
    match m {
        Message::Voice { channel, running, voice } => if exempt(m, s) {
            m
        } else {
            Message::Voice { channel, running, voice: flip_voice(voice, s) }
        },
        _ => m,
    }
}

/// Flipping the message stays within `i32` arithmetic.
pub open spec fn message_flip_fits(m: Message, s: FlipSettings) -> bool {
    match m {
        Message::Voice { voice, .. } => !exempt(m, s) && voice_note(voice) is Some ==> note_flip_fits(
            voice_note(voice).unwrap(),
            s,
        ),
        _ => true,
    }
}

/// Flipping every message of the events stays within `i32` arithmetic.
pub open spec fn events_flip_fit(events: Seq<MidiEvent>, s: FlipSettings) -> bool {
    forall|k: int| 0 <= k < events.len() ==> message_flip_fits(#[trigger] events[k].msg, s)
}

/// An event after flipping: same time and tick, flipped message.
pub open spec fn flip_event(e: MidiEvent, s: FlipSettings) -> MidiEvent {
    MidiEvent { time: e.time, tick: e.tick, msg: flip_message(e.msg, s) }
}

/// The events after flipping, one for one.
pub open spec fn flip_events(events: Seq<MidiEvent>, s: FlipSettings) -> Seq<MidiEvent> {
    events.map_values(|e: MidiEvent| flip_event(e, s))
}

/// The flipped value of one note.
pub fn flip_note(note: u8, settings: &FlipSettings) -> (r: u8)
    requires
        note_flip_fits(note, *settings),
    ensures
        r == flipped_note(note, *settings),
        r <= 127,
{
    let mut mapped: i32 = 127 - note as i32;
    mapped += settings.global_transpose + settings.transpose;
    fold_note(mapped as i64)
}

/// The flipped copy of a message.
pub fn flip_msg(m: &Message, settings: &FlipSettings) -> (r: Message)
    requires
        message_flip_fits(*m, *settings),
    ensures
        r == flip_message(*m, *settings),
{
    match m {
        Message::Voice { channel, running, voice } => {
            if settings.ignore_ch10 && *channel == DRUM_CHANNEL {
                return m.duplicate();
            }
            let v = match voice {
                Voice::NoteOn { note, velocity } => Voice::NoteOn {
                    note: flip_note(*note, settings),
                    velocity: *velocity,
                },
                Voice::NoteOff { note, velocity } => Voice::NoteOff {
                    note: flip_note(*note, settings),
                    velocity: *velocity,
                },
                Voice::HighResNoteOn { note, velocity } => Voice::HighResNoteOn {
                    note: flip_note(*note, settings),
                    velocity: *velocity,
                },
                Voice::HighResNoteOff { note, velocity } => Voice::HighResNoteOff {
                    note: flip_note(*note, settings),
                    velocity: *velocity,
                },
                Voice::PolyPressure { note, pressure } => Voice::PolyPressure {
                    note: flip_note(*note, settings),
                    pressure: *pressure,
                },
                Voice::PitchBend { bend } => {
                    if settings.global_flip_bend {
                        Voice::PitchBend { bend: u16::MAX - *bend }
                    } else {
                        Voice::PitchBend { bend: *bend }
                    }
                },
            };
            Message::Voice { channel: *channel, running: *running, voice: v }
        },
        _ => m.duplicate(),
    }
}

/// The flipped copy of a region's events.
pub fn flip_region_events(region: &MidiRegion, settings: &FlipSettings) -> (r: Vec<MidiEvent>)
    requires
        events_flip_fit(region@, *settings),
    ensures
        r@ == flip_events(region@, *settings),
{
    let events = region.events();
    let mut out: Vec<MidiEvent> = Vec::new();
    let mut i: usize = 0;
    while i < events.len()
        invariant
            events@ == region@,
            i <= events@.len(),
            events_flip_fit(region@, *settings),
            out@ == flip_events(region@, *settings).take(i as int),
        decreases events@.len() - i,
    {
        let e = &events[i];
        assert(message_flip_fits(region@[i as int].msg, *settings));
        out.push(MidiEvent { time: e.time, tick: e.tick, msg: flip_msg(&e.msg, settings) });
        i += 1;
        assert(out@ =~= flip_events(region@, *settings).take(i as int));
    }
    assert(flip_events(region@, *settings).take(i as int) =~= flip_events(region@, *settings));
    out
}

/// Whether flipping the message stays within `i32` arithmetic.
pub fn message_fits(m: &Message, settings: &FlipSettings) -> (r: bool)
    ensures
        r == message_flip_fits(*m, *settings),
{
    match m {
        Message::Voice { channel, voice, .. } => {
            if settings.ignore_ch10 && *channel == DRUM_CHANNEL {
                return true;
            }
            let note: u8 = match voice {
                Voice::NoteOn { note, .. } => *note,
                Voice::NoteOff { note, .. } => *note,
                Voice::HighResNoteOn { note, .. } => *note,
                Voice::HighResNoteOff { note, .. } => *note,
                Voice::PolyPressure { note, .. } => *note,
                Voice::PitchBend { .. } => {
                    return true;
                },
            };
            let shift = settings.global_transpose as i64 + settings.transpose as i64;
            let mapped = 127 - note as i64 + shift;
            i32::MIN as i64 <= shift && shift <= i32::MAX as i64 && i32::MIN as i64 <= mapped && mapped
                <= i32::MAX as i64
        },
        _ => true,
    }
}

/// Whether flipping every message of the events stays within `i32`
/// arithmetic.
pub fn events_fit(events: &[MidiEvent], settings: &FlipSettings) -> (r: bool)
    ensures
        r == events_flip_fit(events@, *settings),
{
    let mut i: usize = 0;
    while i < events.len()
        invariant
            i <= events.len(),
            forall|k: int| 0 <= k < i ==> message_flip_fits(#[trigger] events@[k].msg, *settings),
        decreases events.len() - i,
    {
        if !message_fits(&events[i].msg, settings) {
            return false;
        }
        i += 1;
    }
    true
}

/// Every flipped note is a valid MIDI note (`0..=127`), and differs from
/// the mirrored, transposed value by whole octaves.
pub proof fn lemma_flipped_note_valid(note: u8, s: FlipSettings)
    ensures
        flipped_note(note, s) <= 127,
        (flipped_note(note, s) - (127 - note + s.global_transpose + s.transpose)) % 12 == 0,
{
    let m = 127 - note + s.global_transpose + s.transpose;
    if m > 127 {
        let k = (m - 116) / 12;
        assert(116 <= m - 12 * k <= 127) by (nonlinear_arith)
            requires
                k == (m - 116) / 12,
                m > 127,
        ;
        assert((m - 12 * k - m) % 12 == 0) by (nonlinear_arith);
    } else if m < 0 {
        let k = (11 - m) / 12;
        assert(0 <= m + 12 * k <= 11) by (nonlinear_arith)
            requires
                k == (11 - m) / 12,
                m < 0,
        ;
        assert((m + 12 * k - m) % 12 == 0) by (nonlinear_arith);
    }
}

/// Without transposition a note is mirrored around the middle of the
/// keyboard: `n` becomes `127 - n`.
pub proof fn lemma_flip_mirrors(note: u8, s: FlipSettings)
    requires
        note <= 127,
        s.global_transpose + s.transpose == 0,
    ensures
        flipped_note(note, s) == 127 - note,
{
}

/// Without transposition, flipping twice gives back the message: notes are
/// mirrored back, and an inverted pitch bend is inverted back.
pub proof fn lemma_flip_twice(m: Message, s: FlipSettings)
    requires
        s.global_transpose + s.transpose == 0,
        match m {
            Message::Voice { voice, .. } => voice_note(voice) is Some ==> voice_note(voice).unwrap() <= 127,
            _ => true,
        },
    ensures
        flip_message(flip_message(m, s), s) == m,
{
    match m {
        Message::Voice { channel, running, voice } => {
            if !exempt(m, s) {
                let f = flip_message(m, s);
                assert(!exempt(f, s));
                match voice {
                    Voice::NoteOn { note, .. } => lemma_flip_mirrors(note, s),
                    Voice::NoteOff { note, .. } => lemma_flip_mirrors(note, s),
                    Voice::HighResNoteOn { note, .. } => lemma_flip_mirrors(note, s),
                    Voice::HighResNoteOff { note, .. } => lemma_flip_mirrors(note, s),
                    Voice::PolyPressure { note, .. } => lemma_flip_mirrors(note, s),
                    Voice::PitchBend { bend } => {},
                }
                match voice {
                    Voice::NoteOn { note, .. } => lemma_flip_mirrors((127 - note) as u8, s),
                    Voice::NoteOff { note, .. } => lemma_flip_mirrors((127 - note) as u8, s),
                    Voice::HighResNoteOn { note, .. } => lemma_flip_mirrors((127 - note) as u8, s),
                    Voice::HighResNoteOff { note, .. } => lemma_flip_mirrors((127 - note) as u8, s),
                    Voice::PolyPressure { note, .. } => lemma_flip_mirrors((127 - note) as u8, s),
                    Voice::PitchBend { bend } => {},
                }
            }
        },
        _ => {},
    }
}

/// Messages that flipping leaves alone: those on the drum channel when it
/// is exempt, and all messages without a note or a bend.
pub proof fn lemma_flip_leaves_others(m: Message, s: FlipSettings)
    requires
        exempt(m, s) || !(m is Voice),
    ensures
        flip_message(m, s) == m,
{
}

/// Flipping keeps the number of events and the time and tick of each.
pub proof fn lemma_flip_keeps_timing(events: Seq<MidiEvent>, s: FlipSettings)
    ensures
        flip_events(events, s).len() == events.len(),
        forall|k: int|
            0 <= k < events.len() ==> (#[trigger] flip_events(events, s)[k]).time == events[k].time
                && flip_events(events, s)[k].tick == events[k].tick,
{
}

/// Without transposition, flipping a region's events twice gives back the
/// events, when every note is a MIDI note (`0..=127`).
pub proof fn lemma_flip_events_twice(events: Seq<MidiEvent>, s: FlipSettings)
    requires
        s.global_transpose + s.transpose == 0,
        forall|k: int|
            0 <= k < events.len() ==> match (#[trigger] events[k]).msg {
                Message::Voice { voice, .. } => voice_note(voice) is Some ==> voice_note(voice).unwrap() <= 127,
                _ => true,
            },
    ensures
        flip_events(flip_events(events, s), s) == events,
{
    assert forall|k: int| 0 <= k < events.len() implies #[trigger] flip_events(flip_events(events, s), s)[k]
        == events[k] by {
        lemma_flip_twice(events[k].msg, s);
    }
    assert(flip_events(flip_events(events, s), s) =~= events);
}

} // verus!
