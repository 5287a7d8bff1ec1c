use midi_flipper::flip::{events_fit, flip_msg, flip_note, flip_region_events, fold_note, message_fits, FlipSettings};
use midi_flipper::midi::{Message, MetaInfo, MidiEvent, MidiRegion, Voice};

fn note_on(channel: u8, note: u8, velocity: u8) -> Message {
    Message::Voice { channel, running: false, voice: Voice::NoteOn { note, velocity } }
}

fn settings(global_transpose: i32, transpose: i32) -> FlipSettings {
    FlipSettings { enabled: true, global_transpose, global_flip_bend: false, transpose, ignore_ch10: true }
}

fn voice_note(m: &Message) -> Option<u8> {
    match m {
        Message::Voice { voice: Voice::NoteOn { note, .. }, .. } => Some(*note),
        Message::Voice { voice: Voice::NoteOff { note, .. }, .. } => Some(*note),
        _ => None,
    }
}

#[test]
fn fold_note_brings_values_into_range_by_octaves() {
    assert_eq!(fold_note(60), 60);
    assert_eq!(fold_note(0), 0);
    assert_eq!(fold_note(127), 127);
    assert_eq!(fold_note(128), 116);
    assert_eq!(fold_note(130), 118);
    assert_eq!(fold_note(140), 116);
    assert_eq!(fold_note(-1), 11);
    assert_eq!(fold_note(-12), 0);
    assert_eq!(fold_note(-13), 11);
}

#[test]
fn flip_note_mirrors_around_the_middle() {
    let s = settings(0, 0);
    assert_eq!(flip_note(60, &s), 67);
    assert_eq!(flip_note(0, &s), 127);
    assert_eq!(flip_note(127, &s), 0);
    assert_eq!(flip_note(64, &s), 63);
}

#[test]
fn flip_note_adds_both_transpositions() {
    assert_eq!(flip_note(60, &settings(12, 0)), 79);
    assert_eq!(flip_note(60, &settings(0, -12)), 55);
    assert_eq!(flip_note(60, &settings(5, 7)), 79);
    // 127 - 0 + 12 = 139 folds down an octave
    assert_eq!(flip_note(0, &settings(12, 0)), 127);
    assert_eq!(flip_note(0, &settings(13, 0)), 116);
}

#[test]
fn flipping_twice_without_transposition_restores_the_note() {
    let s = settings(0, 0);
    for n in 0u8..=127 {
        assert_eq!(flip_note(flip_note(n, &s), &s), n);
    }
}

#[test]
fn drum_channel_is_left_alone_when_exempt() {
    let m = note_on(9, 36, 100);
    let f = flip_msg(&m, &settings(0, 0));
    assert_eq!(voice_note(&f), Some(36));

    let mut s = settings(0, 0);
    s.ignore_ch10 = false;
    let f = flip_msg(&m, &s);
    assert_eq!(voice_note(&f), Some(91));
}

#[test]
fn pitch_bend_is_inverted_only_when_asked() {
    let m = Message::Voice { channel: 0, running: false, voice: Voice::PitchBend { bend: 1000 } };
    let f = flip_msg(&m, &settings(0, 0));
    assert!(matches!(f, Message::Voice { voice: Voice::PitchBend { bend: 1000 }, .. }));
    let mut s = settings(0, 0);
    s.global_flip_bend = true;
    let f = flip_msg(&m, &s);
    assert!(matches!(f, Message::Voice { voice: Voice::PitchBend { bend: 64535 }, .. }));
}

#[test]
fn other_messages_are_copied_unchanged() {
    let m = Message::Other {
        msg: midi_msg::MidiMsg::Meta { msg: midi_msg::Meta::SetTempo(400_000) },
        meta: MetaInfo::SetTempo(400_000),
    };
    let f = flip_msg(&m, &settings(3, 4));
    assert!(matches!(f, Message::Other { meta: MetaInfo::SetTempo(400_000), .. }));
}

#[test]
fn flipped_region_keeps_times_and_ticks() {
    let events = vec![
        MidiEvent::new(0, 0, note_on(0, 60, 90)),
        MidiEvent::new(500, 48, note_on(0, 62, 90)),
        MidiEvent::new(1000, 96, note_on(0, 64, 0)),
    ];
    let region = MidiRegion::new(events);
    let flipped = flip_region_events(&region, &settings(0, 0));
    assert_eq!(flipped.len(), 3);
    let expect = [(0u64, 0u32, 67u8), (500, 48, 65), (1000, 96, 63)];
    for (e, (time, tick, note)) in flipped.iter().zip(expect.iter()) {
        assert_eq!(e.time, *time);
        assert_eq!(e.tick, *tick);
        assert_eq!(voice_note(&e.msg), Some(*note));
    }
}

#[test]
fn flip_fits_only_within_i32() {
    let m = note_on(0, 0, 90);
    assert!(message_fits(&m, &settings(100, 27)));
    assert!(!message_fits(&m, &settings(i32::MAX, 1)));
    assert!(!message_fits(&m, &settings(i32::MAX - 100, 0)));
    assert!(message_fits(&note_on(9, 0, 90), &settings(i32::MAX, 1)));
    let events = vec![MidiEvent::new(0, 0, m)];
    assert!(events_fit(&events, &settings(0, 0)));
    assert!(!events_fit(&events, &settings(i32::MAX, 0)));
}

#[test]
fn flip_settings_new_track_defaults() {
    let s = FlipSettings::new(5, true);
    assert!(s.enabled);
    assert_eq!(s.global_transpose, 5);
    assert!(s.global_flip_bend);
    assert_eq!(s.transpose, 0);
    assert!(s.ignore_ch10);
}

#[test]
fn flipping_a_region_twice_restores_it() {
    let events = vec![
        MidiEvent::new(0, 0, note_on(0, 0, 90)),
        MidiEvent::new(10, 5, note_on(3, 127, 90)),
        MidiEvent::new(20, 9, note_on(9, 40, 90)),
    ];
    let s = settings(7, -7);
    let once = MidiRegion::new(flip_region_events(&MidiRegion::new(events), &s));
    let twice = flip_region_events(&once, &s);
    let notes: Vec<Option<u8>> = twice.iter().map(|e| voice_note(&e.msg)).collect();
    assert_eq!(notes, vec![Some(0), Some(127), Some(40)]);
}
