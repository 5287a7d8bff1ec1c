use midi_flipper::midi::{MetaInfo, Message, MidiEvent, MidiRegion, Voice};
use midi_flipper::paint::paint_region;
use midi_flipper::sequencer::{LogSink, MidiSequencer, SinkCall};
use midi_flipper::sink::{message_bytes, synth_events, SynthEvent};
use midi_flipper::transport::{
    is_playback_in_progress, is_playing, pause_shortcut, plan_play, play_button, play_stop_shortcut, playback_menu,
    refresh_mode, PlayIcon, PlayStep, PlayerStatus, RefreshMode, TransportCommand,
};

fn note(on: bool, note: u8, velocity: u8) -> Message {
    let voice = if on { Voice::NoteOn { note, velocity } } else { Voice::NoteOff { note, velocity } };
    Message::Voice { channel: 0, running: false, voice }
}

fn note_of(m: &Message) -> Option<u8> {
    match m {
        Message::Voice { voice: Voice::NoteOn { note, .. }, .. } => Some(*note),
        Message::Voice { voice: Voice::NoteOff { note, .. }, .. } => Some(*note),
        _ => None,
    }
}

fn notes(sink: &LogSink) -> Vec<Option<u8>> {
    sink.log()
        .iter()
        .filter_map(|c| match c {
            SinkCall::Midi(m) => Some(note_of(m)),
            SinkCall::Reset => None,
        })
        .collect()
}

fn resets(sink: &LogSink) -> usize {
    sink.log().iter().filter(|c| matches!(c, SinkCall::Reset)).count()
}

fn regions() -> Vec<MidiRegion> {
    vec![
        MidiRegion::new(vec![
            MidiEvent::new(0, 0, note(true, 60, 100)),
            MidiEvent::new(1_000, 10, note(false, 60, 0)),
        ]),
        MidiRegion::new(vec![MidiEvent::new(500, 5, note(true, 72, 100)), MidiEvent::new(3_000, 30, note(false, 72, 0))]),
    ]
}

#[test]
fn sequencer_song_duration_is_the_longest_region() {
    let seq = MidiSequencer::new(&regions());
    assert_eq!(seq.song_duration(), 3_000);
    assert_eq!(seq.song_position(), 0);
    assert!(!seq.end_of_sequence());
}

#[test]
fn sequencer_plays_events_as_they_fall_due() {
    let mut seq = MidiSequencer::new(&regions());
    let mut sink = LogSink::new();
    seq.update_events(&mut sink, 0);
    assert_eq!(notes(&sink), vec![Some(60)]);
    seq.update_events(&mut sink, 999);
    assert_eq!(notes(&sink), vec![Some(60), Some(72)]);
    seq.update_events(&mut sink, 1);
    assert_eq!(notes(&sink), vec![Some(60), Some(72), Some(60)]);
    seq.update_events(&mut sink, 5_000);
    assert_eq!(notes(&sink), vec![Some(60), Some(72), Some(60), Some(72)]);
    assert_eq!(seq.song_position(), 6_000);
    assert!(seq.end_of_sequence());
}

#[test]
fn sequencer_take_event_hands_out_the_first_due_track() {
    let mut seq = MidiSequencer::new(&regions());
    seq.advance_time(600);
    let first = seq.take_event().map(|(i, m)| (i, note_of(m)));
    assert_eq!(first, Some((0, Some(60))));
    let second = seq.take_event().map(|(i, m)| (i, note_of(m)));
    assert_eq!(second, Some((1, Some(72))));
    assert!(seq.take_event().is_none());
}

#[test]
fn sequencer_seek_back_resets_and_replays() {
    let mut seq = MidiSequencer::new(&regions());
    let mut sink = LogSink::new();
    seq.update_events(&mut sink, 2_000);
    assert_eq!(notes(&sink).len(), 3);
    seq.seek_to(std::slice::from_mut(&mut sink), 0);
    assert_eq!(seq.song_position(), 0);
    assert_eq!(resets(&sink), 1);
    assert_eq!(notes(&sink).len(), 3);
    let mut again = LogSink::new();
    seq.update_events(&mut again, 0);
    assert_eq!(notes(&again), vec![Some(60)]);
}

#[test]
fn sequencer_seek_resets_each_sink_once_going_back_only() {
    let mut seq = MidiSequencer::new(&regions());
    let mut sinks = vec![LogSink::new(), LogSink::new()];
    seq.seek_to(&mut sinks, 1_500);
    assert_eq!(seq.song_position(), 1_500);
    assert_eq!((resets(&sinks[0]), resets(&sinks[1])), (0, 0));
    seq.seek_to(&mut sinks, 1_500);
    assert_eq!((resets(&sinks[0]), resets(&sinks[1])), (0, 0));
    seq.seek_to(&mut sinks, 200);
    assert_eq!(seq.song_position(), 200);
    assert_eq!((resets(&sinks[0]), resets(&sinks[1])), (1, 1));
    assert!(sinks.iter().all(|s| notes(s).is_empty()));
    assert!(sinks.iter().all(|s| s.log().len() == 1));
    seq.seek_to(&mut sinks, 200);
    assert_eq!((resets(&sinks[0]), resets(&sinks[1])), (1, 1));
}

#[test]
fn update_events_sends_due_events_track_by_track() {
    let regions = vec![
        MidiRegion::new(vec![MidiEvent::new(100, 1, note(true, 50, 1)), MidiEvent::new(200, 2, note(true, 51, 1))]),
        MidiRegion::new(vec![MidiEvent::new(50, 1, note(true, 70, 1)), MidiEvent::new(900, 9, note(true, 71, 1))]),
    ];
    let mut seq = MidiSequencer::new(&regions);
    let mut sink = LogSink::new();
    seq.update_events(&mut sink, 300);
    assert_eq!(notes(&sink), vec![Some(50), Some(51), Some(70)]);
    assert_eq!(resets(&sink), 0);
}

#[test]
fn synth_events_split_bytes() {
    assert_eq!(synth_events(&[0x91, 60, 100]), vec![SynthEvent { channel: 1, command: 0x90, data1: 60, data2: 100 }]);
    assert_eq!(synth_events(&[0xC2, 5]), vec![SynthEvent { channel: 2, command: 0xC0, data1: 5, data2: 0 }]);
    assert_eq!(
        synth_events(&[0xB0, 0x64, 1, 0x65, 2]),
        vec![
            SynthEvent { channel: 0, command: 0xB0, data1: 0x65, data2: 2 },
            SynthEvent { channel: 0, command: 0xB0, data1: 0x64, data2: 1 },
        ]
    );
    assert_eq!(synth_events(&[0xB0, 0x07, 1, 0x65, 2]), vec![]);
    assert_eq!(synth_events(&[0xF8]), vec![]);
}

#[test]
fn message_bytes_are_written_by_midi_msg() {
    let m = Message::Voice { channel: 3, running: false, voice: Voice::NoteOn { note: 60, velocity: 100 } };
    assert_eq!(message_bytes(&m), Some(vec![0x93, 60, 100]));
    let m = Message::Voice { channel: 3, running: true, voice: Voice::NoteOff { note: 60, velocity: 0 } };
    assert_eq!(message_bytes(&m), Some(vec![60, 0]));
    let t = Message::Other {
        msg: midi_msg::MidiMsg::SystemRealTime { msg: midi_msg::SystemRealTimeMsg::TimingClock },
        meta: MetaInfo::NotRead,
    };
    assert_eq!(message_bytes(&t), Some(vec![0xF8]));
    let tempo = Message::Other {
        msg: midi_msg::MidiMsg::Meta { msg: midi_msg::Meta::SetTempo(500_000) },
        meta: MetaInfo::SetTempo(500_000),
    };
    assert_eq!(message_bytes(&tempo), Some(vec![0x51, 3, 0x07, 0xA1, 0x20]));
}

#[test]
fn voice_bytes_follow_midi_encoding() {
    let v = |channel: u8, running: bool, voice: Voice| message_bytes(&Message::Voice { channel, running, voice }).unwrap();
    assert_eq!(v(2, false, Voice::HighResNoteOn { note: 60, velocity: 300 }), vec![0x92, 60, 2, 0xB2, 0x58, 44]);
    assert_eq!(v(2, true, Voice::HighResNoteOff { note: 60, velocity: 300 }), vec![60, 2, 0xB0, 0x58, 44]);
    assert_eq!(v(0, false, Voice::PitchBend { bend: 8192 }), vec![0xE0, 0, 64]);
    assert_eq!(v(0, false, Voice::PitchBend { bend: 20000 }), vec![0xE0, 0x7f, 0x7f]);
    assert_eq!(v(20, false, Voice::NoteOn { note: 200, velocity: 200 }), vec![0x9F, 127, 127]);
    assert_eq!(v(5, false, Voice::PolyPressure { note: 1, pressure: 2 }), vec![0xA5, 1, 2]);
    assert_eq!(v(5, false, Voice::NoteOff { note: 1, velocity: 2 }), vec![0x85, 1, 2]);
}

#[test]
fn paint_pairs_note_on_with_note_off() {
    let region = MidiRegion::new(vec![
        MidiEvent::new(0, 0, note(true, 60, 100)),
        MidiEvent::new(0, 4, note(true, 64, 100)),
        MidiEvent::new(0, 8, note(false, 60, 0)),
        MidiEvent::new(0, 9, note(true, 64, 0)),
        MidiEvent::new(0, 12, note(true, 67, 90)),
    ]);
    let notes: Vec<(u8, u32, u32)> = paint_region(&region).iter().map(|n| (n.note, n.start, n.end)).collect();
    // a note-on with velocity zero ends the note; an unclosed note runs to the last tick
    assert_eq!(notes, vec![(60, 0, 8), (64, 4, 9), (67, 12, 12)]);
}

#[test]
fn transport_reads_the_player() {
    let heard = Some(PlayerStatus { paused: false, empty: false });
    let paused = Some(PlayerStatus { paused: true, empty: false });
    let ended = Some(PlayerStatus { paused: false, empty: true });
    assert!(is_playing(heard));
    assert!(!is_playing(paused));
    assert!(!is_playing(ended));
    assert!(!is_playing(None));
    assert!(is_playback_in_progress(paused));
    assert!(!is_playback_in_progress(ended));
    assert!(!is_playback_in_progress(None));
}

#[test]
fn transport_plans_play() {
    let paused = Some(PlayerStatus { paused: true, empty: false });
    let p = plan_play(false, None);
    assert!(p.refresh_first && p.seek_to_cursor);
    assert_eq!(p.step, PlayStep::StartNew);
    let p = plan_play(true, paused);
    assert!(!p.refresh_first && !p.seek_to_cursor);
    assert_eq!(p.step, PlayStep::Resume);
    assert_eq!(refresh_mode(paused), RefreshMode::Swap);
    assert_eq!(refresh_mode(None), RefreshMode::Replace);
}

#[test]
fn transport_shortcuts_and_buttons() {
    let heard = Some(PlayerStatus { paused: false, empty: false });
    let paused = Some(PlayerStatus { paused: true, empty: false });
    assert_eq!(play_stop_shortcut(heard), TransportCommand::Stop);
    assert_eq!(play_stop_shortcut(paused), TransportCommand::Play);
    assert_eq!(pause_shortcut(heard), TransportCommand::Pause);
    assert_eq!(pause_shortcut(paused), TransportCommand::Play);
    assert_eq!(pause_shortcut(None), TransportCommand::Nothing);
    assert_eq!(play_button(heard), (PlayIcon::Pause, TransportCommand::Pause));
    assert_eq!(play_button(paused), (PlayIcon::Resume, TransportCommand::Play));
    assert_eq!(play_button(None), (PlayIcon::Play, TransportCommand::Play));
    let m = playback_menu(true, paused);
    assert!(m.play && !m.pause && m.stop && !m.stop_shows_shortcut);
    let m = playback_menu(false, heard);
    assert!(!m.play && !m.pause && !m.stop && m.stop_shows_shortcut);
}
