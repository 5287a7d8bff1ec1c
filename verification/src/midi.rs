//! The library's model of MIDI data: the messages the flipper reads and
//! rewrites, timed events, regions of events and file tracks.
use vstd::prelude::*;

verus! {

/// A message of the `midi_msg` crate that the flipper carries through
/// unchanged (controllers, system messages, meta events it does not read).
#[verifier::external_type_specification]
#[verifier::external_body]
pub struct ExMidiMsg(midi_msg::MidiMsg);

/// `<midi_msg::MidiMsg as Clone>::clone`, which `midi_msg` derives: the copy
/// is equal to the original.
#[verifier::external_body]
fn clone_outside_msg(m: &midi_msg::MidiMsg) -> (r: midi_msg::MidiMsg)
    ensures
        r == *m,
{
    m.clone()
}

/// The default tempo of a standard MIDI file, in microseconds per quarter
/// note (120 beats per minute).
pub const DEFAULT_TEMPO: u32 = 500_000u32;

/// The note-bearing and bend channel-voice messages.
#[allow(inconsistent_fields)]
pub enum Voice {
    NoteOn { note: u8, velocity: u8 },
    NoteOff { note: u8, velocity: u8 },
    HighResNoteOn { note: u8, velocity: u16 },
    HighResNoteOff { note: u8, velocity: u16 },
    PolyPressure { note: u8, pressure: u8 },
    PitchBend { bend: u16 },
}

impl Voice {
    pub fn duplicate(&self) -> (r: Voice)
        ensures
            r == *self,
    {
        match self {
            Voice::NoteOn { note, velocity } => Voice::NoteOn { note: *note, velocity: *velocity },
            Voice::NoteOff { note, velocity } => Voice::NoteOff { note: *note, velocity: *velocity },
            Voice::HighResNoteOn { note, velocity } => Voice::HighResNoteOn {
                note: *note,
                velocity: *velocity,
            },
            Voice::HighResNoteOff { note, velocity } => Voice::HighResNoteOff {
                note: *note,
                velocity: *velocity,
            },
            Voice::PolyPressure { note, pressure } => Voice::PolyPressure {
                note: *note,
                pressure: *pressure,
            },
            Voice::PitchBend { bend } => Voice::PitchBend { bend: *bend },
        }
    }
}

/// A time signature as stored in a MIDI file.
pub struct TimeSignature {
    pub numerator: u8,
    pub denominator: u16,
    pub clocks_per_metronome_tick: u8,
    pub thirty_second_notes_per_24_clocks: u8,
}

impl TimeSignature {
    pub fn duplicate(&self) -> (r: TimeSignature)
        ensures
            r == *self,
    {
        TimeSignature {
            numerator: self.numerator,
            denominator: self.denominator,
            clocks_per_metronome_tick: self.clocks_per_metronome_tick,
            thirty_second_notes_per_24_clocks: self.thirty_second_notes_per_24_clocks,
        }
    }
}

/// What the flipper reads of a meta event.
pub enum MetaInfo {
    TrackName(String),
    Marker(String),
    CuePoint(String),
    EndOfTrack,
    SetTempo(u32),
    TimeSignature(TimeSignature),
    /// Any other meta event, or a message that is not a meta event.
    NotRead,
}

impl MetaInfo {
    pub fn duplicate(&self) -> (r: MetaInfo)
        ensures
            r == *self,
    {
        match self {
            MetaInfo::TrackName(s) => MetaInfo::TrackName(s.clone()),
            MetaInfo::Marker(s) => MetaInfo::Marker(s.clone()),
            MetaInfo::CuePoint(s) => MetaInfo::CuePoint(s.clone()),
            MetaInfo::EndOfTrack => MetaInfo::EndOfTrack,
            MetaInfo::SetTempo(t) => MetaInfo::SetTempo(*t),
            MetaInfo::TimeSignature(ts) => MetaInfo::TimeSignature(ts.duplicate()),
            MetaInfo::NotRead => MetaInfo::NotRead,
        }
    }
}

/// A MIDI message. A note or bend channel-voice message is held as plain
/// values: its channel, numbered from 0 (`Ch1`) to 15 (`Ch16`), whether it
/// was written with running status, and the message. Any other message is
/// held as `midi_msg` has it, beside what the flipper reads of it when it
/// is a meta event. The library reads tempos, time signatures and names
/// from `meta` alone; `midi_file::message_of` fills it in from `msg`.
pub enum Message {
    Voice { channel: u8, running: bool, voice: Voice },
    Other { msg: midi_msg::MidiMsg, meta: MetaInfo },
}

impl Message {
    pub fn duplicate(&self) -> (r: Message)
        ensures
            r == *self,
    {
        match self {
            Message::Voice { channel, running, voice } => Message::Voice {
                channel: *channel,
                running: *running,
                voice: voice.duplicate(),
            },
            Message::Other { msg, meta } => Message::Other {
                msg: clone_outside_msg(msg),
                meta: meta.duplicate(),
            },
        }
    }

    /// What the flipper reads of the message as a meta event.
    pub open spec fn meta(self) -> MetaInfo {
        match self {
            Message::Other { meta, .. } => meta,
            _ => MetaInfo::NotRead,
        }
    }
}

/// A message placed on the song's time line: `time` is in nanoseconds from
/// the start, `tick` in file ticks.
pub struct MidiEvent {
    pub time: u64,
    pub tick: u32,
    pub msg: Message,
}

impl MidiEvent {
    pub fn new(time: u64, tick: u32, msg: Message) -> (r: Self)
        ensures
            r.time == time,
            r.tick == tick,
            r.msg == msg,
    {
        Self { time, tick, msg }
    }

    pub fn duplicate(&self) -> (r: MidiEvent)
        ensures
            r == *self,
    {
        MidiEvent { time: self.time, tick: self.tick, msg: self.msg.duplicate() }
    }
}

/// The events of one track, in playing order.
pub struct MidiRegion {
    events: Vec<MidiEvent>,
}

impl View for MidiRegion {
    type V = Seq<MidiEvent>;

    closed spec fn view(&self) -> Seq<MidiEvent> {
        self.events@
    }
}

/// The time of the last event, or zero for no events.
pub open spec fn last_time(events: Seq<MidiEvent>) -> u64 {
    if events.len() == 0 {
        0
    } else {
        events.last().time
    }
}

/// The tick of the last event, or zero for no events.
pub open spec fn last_tick(events: Seq<MidiEvent>) -> u32 {
    if events.len() == 0 {
        0
    } else {
        events.last().tick
    }
}

/// The ticks never decrease from one event to the next.
pub open spec fn ticks_nondecreasing(events: Seq<MidiEvent>) -> bool {
    forall|i: int, j: int| 0 <= i <= j < events.len() ==> events[i].tick <= events[j].tick
}

/// The first track name among the events.
pub open spec fn first_track_name(events: Seq<MidiEvent>) -> Option<String>
    decreases events.len(),
{
    if events.len() == 0 {
        None
    } else {
        match events[0].msg.meta() {
            MetaInfo::TrackName(name) => Some(name),
            _ => first_track_name(events.drop_first()),
        }
    }
}

/// A file track event: the ticks since the previous event of the track and
/// the message.
pub struct TrackEvent {
    pub delta_time: u32,
    pub msg: Message,
}

impl TrackEvent {
    pub fn duplicate(&self) -> (r: TrackEvent)
        ensures
            r == *self,
    {
        TrackEvent { delta_time: self.delta_time, msg: self.msg.duplicate() }
    }
}

/// The delta times that give the events' ticks.
pub open spec fn track_from_region(events: Seq<MidiEvent>) -> Seq<TrackEvent> {
    Seq::new(
        events.len(),
        |k: int|
            TrackEvent {
                delta_time: if k == 0 {
                    events[0].tick
                } else {
                    (events[k].tick - events[k - 1].tick) as u32
                },
                msg: events[k].msg,
            },
    )
}

impl MidiRegion {
    pub fn new(events: Vec<MidiEvent>) -> (r: Self)
        ensures
            r@ == events@,
    {
        Self { events }
    }

    pub fn events(&self) -> (r: &[MidiEvent])
        ensures
            r@ == self@,
    {
        self.events.as_slice()
    }

    pub fn duplicate(&self) -> (r: MidiRegion)
        ensures
            r@ == self@,
    {
        let mut events: Vec<MidiEvent> = Vec::new();
        let mut i: usize = 0;
        while i < self.events.len()
            invariant
                i <= self.events.len(),
                events@ == self.events@.take(i as int),
            decreases self.events.len() - i,
        {
            events.push(self.events[i].duplicate());
            i += 1;
            assert(events@ =~= self.events@.take(i as int));
        }
        assert(self.events@.take(i as int) =~= self.events@);
        MidiRegion { events }
    }

    /// The time of the last event (zero when there is none).
    pub fn duration(&self) -> (r: u64)
        ensures
            r == last_time(self@),
    {
        if self.events.len() == 0 {
            0
        } else {
            self.events[self.events.len() - 1].time
        }
    }

    /// The tick of the last event (zero when there is none).
    pub fn length_in_ticks(&self) -> (r: u32)
        ensures
            r == last_tick(self@),
    {
        if self.events.len() == 0 {
            0
        } else {
            self.events[self.events.len() - 1].tick
        }
    }

    /// The first track name among the events.
    pub fn find_name(&self) -> (r: Option<String>)
        ensures
            r == first_track_name(self@),
    {
        let mut i: usize = 0;
        assert(self@.skip(0) =~= self@);
        while i < self.events.len()
            invariant
                i <= self.events.len(),
                first_track_name(self@) == first_track_name(self@.skip(i as int)),
            decreases self.events.len() - i,
        {
            assert(self@.skip(i as int).drop_first() =~= self@.skip(i + 1));
            if let Message::Other { meta: MetaInfo::TrackName(name), .. } = &self.events[i].msg {
                return Some(name.clone());
            }
            i += 1;
        }
        None
    }

    /// The events as a file track: each delta time is the distance in ticks
    /// from the previous event (from tick zero for the first).
    pub fn to_midi_track(&self) -> (r: Vec<TrackEvent>)
        requires
            ticks_nondecreasing(self@),
        ensures
            r@ == track_from_region(self@),
    {
        let mut out: Vec<TrackEvent> = Vec::new();
        let mut tick: u32 = 0;
        let mut i: usize = 0;
        while i < self.events.len()
            invariant
                i <= self.events.len(),
                ticks_nondecreasing(self@),
                out@ == track_from_region(self@).take(i as int),
                i == 0 ==> tick == 0,
                i > 0 ==> tick == self@[i - 1].tick,
            decreases self.events.len() - i,
        {
            let event = &self.events[i];
            let delta_time = event.tick - tick;
            tick = event.tick;
            out.push(TrackEvent { delta_time, msg: event.msg.duplicate() });
            i += 1;
            assert(out@ =~= track_from_region(self@).take(i as int));
        }
        assert(track_from_region(self@).take(i as int) =~= track_from_region(self@));
        out
    }
}


/// Frames per second of a time-code division.
#[derive(Debug, Clone, Copy, PartialEq, Eq)]
pub enum TimeCodeType {
    FPS24,
    FPS25,
    DF30,
    NDF30,
}

/// The meaning of a file's ticks.
#[derive(Debug, Clone, Copy, PartialEq, Eq)]
pub enum Division {
    /// Metrical time: ticks per quarter note.
    TicksPerQuarterNote(u16),
    /// Time-code time.
    TimeCode { frames_per_second: TimeCodeType, ticks_per_frame: u8 },
}

/// The layout of a standard MIDI file.
#[derive(Debug, Clone, Copy, PartialEq, Eq)]
pub enum SmfFormat {
    SingleTrack,
    MultiTrack,
    MultiSong,
}

/// The header of a standard MIDI file.
#[derive(Debug, Clone, Copy, PartialEq, Eq)]
pub struct MidiHeader {
    pub format: SmfFormat,
    pub num_tracks: u16,
    pub division: Division,
}

/// A chunk of a standard MIDI file: a track of events or a chunk of
/// another kind, kept as its bytes.
pub enum TrackData {
    Midi(Vec<TrackEvent>),
    AlienChunk(Vec<u8>),
}

/// The events of a chunk (none for a chunk that is not a track).
pub open spec fn track_events(t: TrackData) -> Seq<TrackEvent> {
    match t {
        TrackData::Midi(events) => events@,
        TrackData::AlienChunk(_) => Seq::empty(),
    }
}

impl TrackData {
    /// The number of events (zero for a chunk that is not a track).
    pub fn event_count(&self) -> (r: usize)
        ensures
            r == track_events(*self).len(),
    {
        match self {
            TrackData::Midi(events) => events.len(),
            TrackData::AlienChunk(_) => 0,
        }
    }

    pub fn event(&self, j: usize) -> (r: &TrackEvent)
        requires
            j < track_events(*self).len(),
        ensures
            *r == track_events(*self)[j as int],
    {
        match self {
            TrackData::Midi(events) => &events[j],
            TrackData::AlienChunk(_) => vstd::pervasive::unreached(),
        }
    }

    pub fn is_midi(&self) -> (r: bool)
        ensures
            r == (*self is Midi),
    {
        match self {
            TrackData::Midi(_) => true,
            TrackData::AlienChunk(_) => false,
        }
    }
}

/// A standard MIDI file: header and chunks.
pub struct MidiFileData {
    pub header: MidiHeader,
    pub tracks: Vec<TrackData>,
}

} // verus!
