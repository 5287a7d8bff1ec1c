use midi_flipper::error::MidiFlipperError;
use midi_flipper::midi::{Division, MetaInfo, Message, SmfFormat, TimeCodeType, TrackData, Voice};
use midi_flipper::midi_file::{check_escape_lengths, message_of, read_midi_file};

fn event(delta_time: u32, event: midi_msg::MidiMsg) -> midi_msg::TrackEvent {
    midi_msg::TrackEvent { delta_time, event, beat_or_frame: 0.0 }
}

fn sample_bytes(division: midi_msg::Division) -> Vec<u8> {
    let track = vec![
        event(0, midi_msg::MidiMsg::Meta { msg: midi_msg::Meta::TrackName("Lead".to_string()) }),
        event(0, midi_msg::MidiMsg::Meta { msg: midi_msg::Meta::SetTempo(600_000) }),
        event(
            0,
            midi_msg::MidiMsg::ChannelVoice {
                channel: midi_msg::Channel::Ch3,
                msg: midi_msg::ChannelVoiceMsg::NoteOn { note: 60, velocity: 90 },
            },
        ),
        event(
            48,
            midi_msg::MidiMsg::ChannelVoice {
                channel: midi_msg::Channel::Ch3,
                msg: midi_msg::ChannelVoiceMsg::ControlChange {
                    control: midi_msg::ControlChange::CC { control: 20, value: 5 },
                },
            },
        ),
        event(
            48,
            midi_msg::MidiMsg::ChannelVoice {
                channel: midi_msg::Channel::Ch3,
                msg: midi_msg::ChannelVoiceMsg::NoteOff { note: 60, velocity: 0 },
            },
        ),
        event(0, midi_msg::MidiMsg::Meta { msg: midi_msg::Meta::EndOfTrack }),
    ];
    let file = midi_msg::MidiFile {
        header: midi_msg::Header { format: midi_msg::SMFFormat::SingleTrack, num_tracks: 1, division },
        tracks: vec![midi_msg::Track::Midi(track)],
    };
    file.to_midi()
}

#[test]
fn read_midi_file_takes_a_file_apart() {
    let bytes = sample_bytes(midi_msg::Division::TicksPerQuarterNote(96));
    let (file, reparses) = read_midi_file(&bytes).ok().unwrap();
    assert!(reparses);
    assert_eq!(file.header.format, SmfFormat::SingleTrack);
    assert_eq!(file.header.num_tracks, 1);
    assert_eq!(file.header.division, Division::TicksPerQuarterNote(96));
    assert_eq!(file.tracks.len(), 1);
    let TrackData::Midi(events) = &file.tracks[0] else { panic!("expected a MIDI track") };
    let deltas: Vec<u32> = events.iter().map(|e| e.delta_time).collect();
    assert_eq!(deltas, vec![0, 0, 0, 48, 48, 0]);
    assert!(matches!(&events[0].msg, Message::Other { meta: MetaInfo::TrackName(n), .. } if n == "Lead"));
    assert!(matches!(events[1].msg, Message::Other { meta: MetaInfo::SetTempo(600_000), .. }));
    assert!(matches!(
        events[2].msg,
        Message::Voice { channel: 2, running: false, voice: Voice::NoteOn { note: 60, velocity: 90 } }
    ));
    assert!(matches!(events[3].msg, Message::Other { meta: MetaInfo::NotRead, .. }));
    assert!(matches!(events[5].msg, Message::Other { meta: MetaInfo::EndOfTrack, .. }));
}

#[test]
fn read_midi_file_reads_time_code_divisions() {
    let division =
        midi_msg::Division::TimeCode { frames_per_second: midi_msg::TimeCodeType::FPS25, ticks_per_frame: 40 };
    let (file, _) = read_midi_file(&sample_bytes(division)).ok().unwrap();
    assert_eq!(
        file.header.division,
        Division::TimeCode { frames_per_second: TimeCodeType::FPS25, ticks_per_frame: 40 }
    );
}

#[test]
fn read_midi_file_reports_parse_errors() {
    match read_midi_file(&[0x4d, 0x54, 0x00]) {
        Err(MidiFlipperError::MidiParse(text)) => assert!(!text.is_empty()),
        _ => panic!("expected a parse error"),
    }
}

#[test]
fn message_of_keeps_other_messages_whole() {
    let m = midi_msg::MidiMsg::SystemRealTime { msg: midi_msg::SystemRealTimeMsg::Start };
    match message_of(m.clone()) {
        Message::Other { msg, meta: MetaInfo::NotRead } => assert_eq!(msg, m),
        _ => panic!("expected an unread message"),
    }
    let bend = midi_msg::MidiMsg::RunningChannelVoice {
        channel: midi_msg::Channel::Ch16,
        msg: midi_msg::ChannelVoiceMsg::PitchBend { bend: 100 },
    };
    assert!(matches!(
        message_of(bend),
        Message::Voice { channel: 15, running: true, voice: Voice::PitchBend { bend: 100 } }
    ));
}

fn one_track_file(track: &[u8]) -> Vec<u8> {
    let mut bytes = b"MThd".to_vec();
    bytes.extend_from_slice(&[0, 0, 0, 6, 0, 0, 0, 1, 0, 96]);
    bytes.extend_from_slice(b"MTrk");
    bytes.extend_from_slice(&(track.len() as u32).to_be_bytes());
    bytes.extend_from_slice(track);
    bytes
}

#[test]
fn read_midi_file_refuses_an_escape_running_past_the_end() {
    let bytes = one_track_file(&[0x00, 0xF0, 0x05, 0x01]);
    assert!(!check_escape_lengths(&bytes));
    match read_midi_file(&bytes) {
        Err(MidiFlipperError::MidiParse(text)) => assert!(!text.is_empty()),
        _ => panic!("expected a parse error"),
    }
}

#[test]
fn escape_lengths_are_checked_against_the_bytes_left() {
    assert!(check_escape_lengths(&one_track_file(&[0x00, 0xF0, 0x03, 0x7D, 0x01, 0xF7, 0x00, 0xFF, 0x2F, 0x00])));
    assert!(!check_escape_lengths(&one_track_file(&[0x00, 0xF7, 0x81, 0x00, 0x01])));
    assert!(check_escape_lengths(&one_track_file(&[0x00, 0xF7, 0x81])));
    assert!(check_escape_lengths(&[0xF0, 0x05]));
    assert!(check_escape_lengths(&[]));
}

#[test]
fn meta_texts_are_skipped_whole_before_the_first_channel_message() {
    // A track name ending in an emoji: its F0 byte is text, not an event.
    let name = "Keys \u{1F3B9}".as_bytes().to_vec();
    let mut track = vec![0x00, 0xFF, 0x03, name.len() as u8];
    track.extend_from_slice(&name);
    track.extend_from_slice(&[0x00, 0x90, 60, 100, 0x00, 0xFF, 0x2F, 0x00]);
    let bytes = one_track_file(&track);
    assert!(check_escape_lengths(&bytes));
    let (file, _) = read_midi_file(&bytes).ok().unwrap();
    let TrackData::Midi(events) = &file.tracks[0] else { panic!("expected a MIDI track") };
    assert!(matches!(&events[0].msg, Message::Other { meta: MetaInfo::TrackName(n), .. } if n == "Keys \u{1F3B9}"));
}

#[test]
fn bytes_after_a_channel_message_are_all_checked() {
    let name = "Keys \u{1F3B9}".as_bytes().to_vec();
    let mut track = vec![0x00, 0x90, 60, 100, 0x00, 0xFF, 0x06, name.len() as u8];
    track.extend_from_slice(&name);
    track.extend_from_slice(&[0x00, 0xFF, 0x2F, 0x00]);
    assert!(!check_escape_lengths(&one_track_file(&track)));
}

#[test]
fn time_signatures_past_a_sixteen_bit_power_are_refused() {
    let bytes = one_track_file(&[0x00, 0xFF, 0x58, 0x04, 4, 16, 24, 8, 0x00, 0xFF, 0x2F, 0x00]);
    assert!(!check_escape_lengths(&bytes));
    assert!(matches!(read_midi_file(&bytes), Err(MidiFlipperError::MidiParse(_))));
    let bytes = one_track_file(&[0x00, 0xFF, 0x58, 0x04, 4, 15, 24, 8, 0x00, 0xFF, 0x2F, 0x00]);
    assert!(check_escape_lengths(&bytes));
    assert!(read_midi_file(&bytes).is_ok());
}

#[test]
fn read_midi_file_keeps_alien_chunks_and_checked_sysex() {
    let mut bytes = one_track_file(&[0x00, 0xF0, 0x03, 0x7D, 0x01, 0xF7, 0x00, 0xFF, 0x2F, 0x00]);
    bytes[11] = 2;
    let mut alien = b"XYZW".to_vec();
    alien.extend_from_slice(&[0, 0, 0, 200]);
    alien.extend_from_slice(&[9u8; 200]);
    bytes.extend_from_slice(&alien);
    let (file, reparses) = read_midi_file(&bytes).ok().unwrap();
    assert!(reparses);
    assert_eq!(file.header.num_tracks, 2);
    assert_eq!(file.tracks.len(), 2);
    assert_eq!(file.tracks[0].event_count(), 2);
    match &file.tracks[1] {
        TrackData::AlienChunk(b) => assert_eq!(b, &alien),
        _ => panic!("expected an alien chunk"),
    }
}

#[test]
fn message_of_leaves_other_channel_voice_messages_unread() {
    let m = midi_msg::MidiMsg::ChannelVoice {
        channel: midi_msg::Channel::Ch2,
        msg: midi_msg::ChannelVoiceMsg::ProgramChange { program: 7 },
    };
    match message_of(m.clone()) {
        Message::Other { msg, meta: MetaInfo::NotRead } => assert_eq!(msg, m),
        _ => panic!("expected an unread message"),
    }
    let ts = midi_msg::MidiMsg::Meta {
        msg: midi_msg::Meta::TimeSignature(midi_msg::FileTimeSignature {
            numerator: 3,
            denominator: 8,
            clocks_per_metronome_tick: 24,
            thirty_second_notes_per_24_clocks: 8,
        }),
    };
    assert!(matches!(
        message_of(ts),
        Message::Other { meta: MetaInfo::TimeSignature(t), .. }
            if t.numerator == 3 && t.denominator == 8 && t.clocks_per_metronome_tick == 24
    ));
}
