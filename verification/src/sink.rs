//! Handing messages to the `rustysynth` synthesizer: a message's bytes are
//! cut into the (channel, command, data) events that the synthesizer takes.
use vstd::prelude::*;

use midi_msg::{ChannelVoiceMsg, Meta};
use rustysynth::Synthesizer;

use crate::midi::{Message, Voice};
use crate::sequencer::{MidiSink, SinkCall};

verus! {

/// The synthesizer of `rustysynth`.
#[verifier::external_type_specification]
#[verifier::external_body]
pub struct ExSynthesizer(rustysynth::Synthesizer);

/// One event for the synthesizer.
#[derive(Debug, Clone, Copy, PartialEq, Eq)]
pub struct SynthEvent {
    pub channel: i32,
    pub command: i32,
    pub data1: i32,
    pub data2: i32,
}

/// The event for a status byte and two data bytes: the channel is the low
/// nibble of the status byte, the command its high nibble.
pub open spec fn raw_event(status: u8, data1: u8, data2: u8) -> SynthEvent {
    SynthEvent {
        channel: (status & 0x0f) as i32,
        command: (status & 0xf0) as i32,
        data1: data1 as i32,
        data2: data2 as i32,
    }
}

/// The events for a message's bytes: a two- or three-byte message is one
/// event (the missing data byte is zero); a five-byte message that sets a
/// parameter number (controller 0x62 or 0x64) with its most and least
/// significant parts is two events, the second part first; other messages
/// give none.
pub open spec fn synth_events_of(raw: Seq<u8>) -> Seq<SynthEvent> {
    if raw.len() == 2 {
        seq![raw_event(raw[0], raw[1], 0)]
    } else if raw.len() == 3 {
        seq![raw_event(raw[0], raw[1], raw[2])]
    } else if raw.len() == 5 && (raw[1] == 0x62 || raw[1] == 0x64) {
        seq![raw_event(raw[0], raw[3], raw[4]), raw_event(raw[0], raw[1], raw[2])]
    } else {
        Seq::empty()
    }
}

fn raw_event_of(status: u8, data1: u8, data2: u8) -> (r: SynthEvent)
    ensures
        r == raw_event(status, data1, data2),
{
    SynthEvent {
        channel: (status & 0x0f) as i32,
        command: (status & 0xf0) as i32,
        data1: data1 as i32,
        data2: data2 as i32,
    }
}

/// The synthesizer events for a message's bytes.
pub fn synth_events(raw: &[u8]) -> (r: Vec<SynthEvent>)
    ensures
        r@ == synth_events_of(raw@),
{
    let mut out: Vec<SynthEvent> = Vec::new();
    if raw.len() == 2 {
        out.push(raw_event_of(raw[0], raw[1], 0));
    } else if raw.len() == 3 {
        out.push(raw_event_of(raw[0], raw[1], raw[2]));
    } else if raw.len() == 5 {
        if raw[1] == 0x62 || raw[1] == 0x64 {
            out.push(raw_event_of(raw[0], raw[3], raw[4]));
            out.push(raw_event_of(raw[0], raw[1], raw[2]));
        }
    }
    assert(out@ =~= synth_events_of(raw@));
    out
}

/// The synthesizer after it processes one event.
pub uninterp spec fn after_event(synth: Synthesizer, e: SynthEvent) -> Synthesizer;

/// The synthesizer after a reset.
pub uninterp spec fn after_reset(synth: Synthesizer) -> Synthesizer;

/// `Synthesizer::process_midi_message`: plays one event. Claimed: the
/// synthesizer becomes `after_event` of itself and the event (the call
/// updates its channels and voices from these alone).
#[verifier::external_body]
fn synth_process(synth: &mut Synthesizer, e: SynthEvent)
    ensures
        *final(synth) == after_event(*old(synth), e),
{
    synth.process_midi_message(e.channel, e.command, e.data1, e.data2);
}

/// `Synthesizer::reset`: silences the synthesizer. Claimed: it becomes
/// `after_reset` of itself.
#[verifier::external_body]
fn synth_reset(synth: &mut Synthesizer)
    ensures
        *final(synth) == after_reset(*old(synth)),
{
    synth.reset();
}

/// The synthesizer after it processes the events in order.
pub open spec fn after_events(synth: Synthesizer, events: Seq<SynthEvent>) -> Synthesizer
    decreases events.len(),
{
    if events.len() == 0 {
        synth
    } else {
        after_event(after_events(synth, events.drop_last()), events.last())
    }
}

/// `x` as a 7-bit data byte, as `midi_msg` writes it: capped at 127.
pub open spec fn u7(x: u8) -> u8 {
    if x > 127 {
        127
    } else {
        x
    }
}

/// The high 7 bits of a 14-bit value, as `midi_msg` writes it (values
/// past 16383 are written as 16383).
pub open spec fn u14_msb(x: u16) -> u8 {
    if x > 16383 {
        0x7f
    } else {
        (x / 128) as u8
    }
}

/// The low 7 bits of a 14-bit value, as `midi_msg` writes it.
pub open spec fn u14_lsb(x: u16) -> u8 {
    if x > 16383 {
        0x7f
    } else {
        (x % 128) as u8
    }
}

/// The channel a channel number names (`Ch16` for any above 15).
pub open spec fn channel_nibble(c: u8) -> u8 {
    if c > 15 {
        15
    } else {
        c
    }
}

/// The status byte of a voice message on channel 0.
pub open spec fn voice_status(v: Voice) -> u8 {
    match v {
        Voice::NoteOff { .. } => 0x80,
        Voice::NoteOn { .. } => 0x90,
        Voice::HighResNoteOff { .. } => 0x80,
        Voice::HighResNoteOn { .. } => 0x90,
        Voice::PolyPressure { .. } => 0xA0,
        Voice::PitchBend { .. } => 0xE0,
    }
}

/// The data bytes of a voice message; a high-resolution note carries the
/// low bits of its velocity in a controller message with status `cc`.
pub open spec fn voice_data(v: Voice, cc: u8) -> Seq<u8> {
    match v {
        Voice::NoteOff { note, velocity } => seq![u7(note), u7(velocity)],
        Voice::NoteOn { note, velocity } => seq![u7(note), u7(velocity)],
        Voice::HighResNoteOff { note, velocity } => seq![
            u7(note),
            u14_msb(velocity),
            cc,
            0x58u8,
            u14_lsb(velocity),
        ],
        Voice::HighResNoteOn { note, velocity } => seq![
            u7(note),
            u14_msb(velocity),
            cc,
            0x58u8,
            u14_lsb(velocity),
        ],
        Voice::PolyPressure { note, pressure } => seq![u7(note), u7(pressure)],
        Voice::PitchBend { bend } => seq![u14_lsb(bend), u14_msb(bend)],
    }
}

/// The bytes `midi_msg` writes for a voice message on `channel`: with
/// running status only the data bytes, else the status byte with the
/// channel first (and the channel also in a high-resolution note's
/// controller status).
pub open spec fn voice_bytes_of(channel: u8, running: bool, v: Voice) -> Seq<u8> {
    let ch = channel_nibble(channel);
    if running {
        voice_data(v, 0xB0)
    } else {
        seq![(voice_status(v) + ch) as u8] + voice_data(v, (0xB0 + ch) as u8)
    }
}

/// `MidiMsg::to_midi` of the channel-voice message `voice` on channel
/// `channel` (`Channel::from_u8`): the bytes that `midi_msg`'s
/// `extend_midi` writes for it (see `voice_bytes_of`).
#[verifier::external_body]
fn voice_bytes(channel: u8, voice: &Voice) -> (r: Vec<u8>)
    ensures
        r@ == voice_bytes_of(channel, false, *voice),
{
    let msg = match *voice {
        Voice::NoteOn { note, velocity } => ChannelVoiceMsg::NoteOn { note, velocity },
        Voice::NoteOff { note, velocity } => ChannelVoiceMsg::NoteOff { note, velocity },
        Voice::HighResNoteOn { note, velocity } => ChannelVoiceMsg::HighResNoteOn { note, velocity },
        Voice::HighResNoteOff { note, velocity } => ChannelVoiceMsg::HighResNoteOff { note, velocity },
        Voice::PolyPressure { note, pressure } => ChannelVoiceMsg::PolyPressure { note, pressure },
        Voice::PitchBend { bend } => ChannelVoiceMsg::PitchBend { bend },
    };
    midi_msg::MidiMsg::ChannelVoice { channel: midi_msg::Channel::from_u8(channel), msg }.to_midi()
}

/// `MidiMsg::to_midi` of the same message with running status: the data
/// bytes only (see `voice_bytes_of`).
#[verifier::external_body]
fn running_voice_bytes(channel: u8, voice: &Voice) -> (r: Vec<u8>)
    ensures
        r@ == voice_bytes_of(channel, true, *voice),
{
    let msg = match *voice {
        Voice::NoteOn { note, velocity } => ChannelVoiceMsg::NoteOn { note, velocity },
        Voice::NoteOff { note, velocity } => ChannelVoiceMsg::NoteOff { note, velocity },
        Voice::HighResNoteOn { note, velocity } => ChannelVoiceMsg::HighResNoteOn { note, velocity },
        Voice::HighResNoteOff { note, velocity } => ChannelVoiceMsg::HighResNoteOff { note, velocity },
        Voice::PolyPressure { note, pressure } => ChannelVoiceMsg::PolyPressure { note, pressure },
        Voice::PitchBend { bend } => ChannelVoiceMsg::PitchBend { bend },
    };
    midi_msg::MidiMsg::RunningChannelVoice { channel: midi_msg::Channel::from_u8(channel), msg }.to_midi()
}

/// The length of the data that `midi_msg` writes with a variable-length
/// quantity before it for a meta event (a text's bytes, a
/// sequencer-specific or unknown event's data); zero for any other message.
pub uninterp spec fn meta_data_len(msg: midi_msg::MidiMsg) -> usize;

/// The largest length `midi_msg` can write as a variable-length quantity,
/// plus one.
pub const VLQ_LIMIT: usize = 0x1000_0000usize;

/// The variants of `Meta` told apart: the length of a text's bytes or of
/// the data of a sequencer-specific or unknown meta event; zero otherwise.
/// Claimed: `meta_data_len` of the message.
#[verifier::external_body]
pub(crate) fn meta_data_length(msg: &midi_msg::MidiMsg) -> (r: usize)
    ensures
        r == meta_data_len(*msg),
{
    match msg {
        midi_msg::MidiMsg::Meta { msg: Meta::Text(s) | Meta::Copyright(s) | Meta::TrackName(s) | Meta::InstrumentName(s) | Meta::Lyric(s) | Meta::Marker(s) | Meta::CuePoint(s) } => s.len(),
        midi_msg::MidiMsg::Meta { msg: Meta::SequencerSpecific(d) | Meta::Unknown { data: d, .. } } => d.len(),
        _ => 0,
    }
}

/// The length of the bytes `midi_msg` writes for a system-exclusive
/// message; zero for any other message.
pub uninterp spec fn sysex_len(msg: midi_msg::MidiMsg) -> usize;

/// The variants of `MidiMsg` told apart: the length of what `to_midi`
/// writes for a system-exclusive message (it writes no length for one, so
/// it does not panic); zero otherwise. Claimed: `sysex_len` of the message.
#[verifier::external_body]
pub(crate) fn sysex_length(msg: &midi_msg::MidiMsg) -> (r: usize)
    ensures
        r == sysex_len(*msg),
{
    match msg {
        midi_msg::MidiMsg::SystemExclusive { .. } => msg.to_midi().len(),
        _ => 0,
    }
}

/// The bytes `midi_msg` writes for a message.
pub uninterp spec fn midi_bytes(msg: midi_msg::MidiMsg) -> Seq<u8>;

/// `MidiMsg::to_midi` of a message the library does not read. Claimed: the
/// bytes are `midi_bytes` of the message. The call panics on a meta event
/// whose data is `VLQ_LIMIT` bytes or longer (its length cannot be written);
/// `requires` leaves those out. No other message kind's writer panics (a
/// channel's number added to a status byte stays below 0x100).
#[verifier::external_body]
fn outside_bytes(msg: &midi_msg::MidiMsg) -> (r: Vec<u8>)
    requires
        meta_data_len(*msg) < VLQ_LIMIT,
    ensures
        r@ == midi_bytes(*msg),
{
    msg.to_midi()
}

/// The bytes of a message as `midi_msg` writes them: those of
/// `voice_bytes_of` for a note or bend message, `midi_bytes` for any
/// other; `None` for a meta event whose data is too long to be written.
pub open spec fn message_wire(msg: Message) -> Option<Seq<u8>> {
    match msg {
        Message::Voice { channel, running, voice } => Some(voice_bytes_of(channel, running, voice)),
        Message::Other { msg: m, .. } => if meta_data_len(m) < VLQ_LIMIT {
            Some(midi_bytes(m))
        } else {
            None
        },
    }
}

/// The events a synthesizer is handed for a message: those of its bytes
/// (`synth_events_of`); none for a meta event too long to be written.
pub open spec fn message_events(msg: Message) -> Seq<SynthEvent> {
    match message_wire(msg) {
        Some(raw) => synth_events_of(raw),
        None => Seq::empty(),
    }
}

/// The bytes of a message (`message_wire`).
pub fn message_bytes(msg: &Message) -> (r: Option<Vec<u8>>)
    ensures
        match r {
            Some(b) => message_wire(*msg) == Some(b@),
            None => message_wire(*msg) is None,
        },
{
    match msg {
        Message::Voice { channel, running, voice } => {
            if *running {
                Some(running_voice_bytes(*channel, voice))
            } else {
                Some(voice_bytes(*channel, voice))
            }
        },
        Message::Other { msg, .. } => {
            if meta_data_length(msg) < VLQ_LIMIT {
                Some(outside_bytes(msg))
            } else {
                None
            }
        },
    }
}

/// The synthesizer as a sink. `calls` logs every call made on it through
/// `MidiSink`; the synthesizer is open to the caller for rendering.
pub struct SynthSink {
    pub synth: Synthesizer,
    log: Ghost<Seq<SinkCall>>,
}

impl SynthSink {
    /// The synthesizer played into.
    pub closed spec fn synthesizer(&self) -> Synthesizer {
        self.synth
    }

    /// A sink for `synth`, with no call made yet.
    pub fn new(synth: Synthesizer) -> (r: Self)
        ensures
            r.synthesizer() == synth,
            r.calls() == Seq::<SinkCall>::empty(),
    {
        SynthSink { synth, log: Ghost(Seq::empty()) }
    }
}

impl MidiSink for SynthSink {
    closed spec fn calls(&self) -> Seq<SinkCall> {
        self.log@
    }

    /// Plays the events that the message's bytes give (`message_events`),
    /// in order.
    fn receive_midi(&mut self, msg: &Message)
        ensures
            final(self).synthesizer() == after_events(old(self).synthesizer(), message_events(*msg)),
    {
        let events = match message_bytes(msg) {
            Some(raw) => synth_events(raw.as_slice()),
            None => Vec::new(),
        };
        assert(events@ == message_events(*msg));
        let mut i: usize = 0;
        while i < events.len()
            invariant
                i <= events.len(),
                self.log == old(self).log,
                self.synth == after_events(old(self).synth, events@.take(i as int)),
            decreases events.len() - i,
        {
            synth_process(&mut self.synth, events[i]);
            assert(events@.take(i + 1).drop_last() =~= events@.take(i as int));
            i += 1;
        }
        assert(events@.take(i as int) =~= events@);
        self.log = Ghost(self.log@.push(SinkCall::Midi(*msg)));
    }

    /// Resets the synthesizer.
    fn reset(&mut self)
        ensures
            final(self).synthesizer() == after_reset(old(self).synthesizer()),
    {
        synth_reset(&mut self.synth);
        self.log = Ghost(self.log@.push(SinkCall::Reset));
    }
}

} // verus!
