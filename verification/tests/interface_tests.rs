use std::collections::VecDeque;

use midi_flipper::error::MidiFlipperError;
use midi_flipper::grid::generate_grid;
use midi_flipper::log::{log_text, LOG_CAPACITY};
use midi_flipper::midi::{MetaInfo, Message, MidiEvent, MidiRegion, TimeSignature};
use midi_flipper::settings::AppSettings;
use midi_flipper::track::SessionTrack;
use midi_flipper::vu::{StereoVUReceiver, VUReceiver};
use midi_flipper::widgets::{
    decimal_string, dropped_kind, format_duration, format_transposition, meter_label, preview_plan, track_color,
    track_label, AppTab, DroppedKind, MeterLabel, StatusPage, TrackLabel, TranspositionControl,
};

fn meta(m: midi_msg::Meta, info: MetaInfo) -> Message {
    Message::Other { msg: midi_msg::MidiMsg::Meta { msg: m }, meta: info }
}

fn time_signature(numerator: u8, denominator: u16) -> Message {
    meta(
        midi_msg::Meta::TimeSignature(midi_msg::FileTimeSignature {
            numerator,
            denominator,
            clocks_per_metronome_tick: 24,
            thirty_second_notes_per_24_clocks: 8,
        }),
        MetaInfo::TimeSignature(TimeSignature {
            numerator,
            denominator,
            clocks_per_metronome_tick: 24,
            thirty_second_notes_per_24_clocks: 8,
        }),
    )
}

fn marker(text: &str) -> Message {
    meta(midi_msg::Meta::Marker(text.to_string()), MetaInfo::Marker(text.to_string()))
}

#[test]
fn format_transposition_labels() {
    assert_eq!(format_transposition(0), "0");
    assert_eq!(format_transposition(5), "+5");
    assert_eq!(format_transposition(-5), "-5");
    assert_eq!(format_transposition(12), "+1:0");
    assert_eq!(format_transposition(15), "+1:3");
    assert_eq!(format_transposition(-24), "-2:0");
    assert_eq!(format_transposition(127), "+10:7");
    assert_eq!(format_transposition(-127), "-10:7");
}

#[test]
fn decimal_string_writes_digits() {
    assert_eq!(decimal_string(0), "0");
    assert_eq!(decimal_string(7), "7");
    assert_eq!(decimal_string(10), "10");
    assert_eq!(decimal_string(4_294_967_295), "4294967295");
}

#[test]
fn transposition_control_nudges() {
    let mut t: i32 = 5;
    TranspositionControl::new(&mut t).nudge(12);
    assert_eq!(t, 17);
    TranspositionControl::new(&mut t).nudge(-1);
    assert_eq!(t, 16);
    let c = TranspositionControl::new(&mut t);
    assert_eq!(*c.transposition, 16);
}

#[test]
fn status_page_nothing_open() {
    let p = StatusPage::status_nothing_open();
    assert_eq!(p.title(), "Nothing Open");
    assert_eq!(p.subtitle(), "Open a midi file from the file menu.");
    let q = StatusPage::new("A", "B");
    assert_eq!((q.title(), q.subtitle()), ("A", "B"));
}

#[test]
fn track_colors_repeat_every_sixteen() {
    assert_eq!(track_color(0), (0xBC, 0x3B, 0x2B));
    assert_eq!(track_color(15), (0xF0, 0x87, 0x36));
    assert_eq!(track_color(17), track_color(1));
    assert_eq!(track_color(1), (0x97, 0x96, 0x34));
}

#[test]
fn preview_plan_highlights_what_plays() {
    let p = preview_plan(true, false);
    assert!(p.draw_flipped && !p.original_in_colour && p.flipped_in_colour);
    let p = preview_plan(true, true);
    assert!(p.draw_flipped && p.original_in_colour && !p.flipped_in_colour);
    let p = preview_plan(false, false);
    assert!(!p.draw_flipped && p.original_in_colour && !p.flipped_in_colour);
}

#[test]
fn meter_labels() {
    let t = MetaInfo::SetTempo(500_000);
    assert!(matches!(meter_label(&t), Some(MeterLabel::Tempo(s)) if s == "120bpm"));
    let t = MetaInfo::SetTempo(700_000);
    assert!(matches!(meter_label(&t), Some(MeterLabel::Tempo(s)) if s == "85bpm"));
    let ts = MetaInfo::TimeSignature(TimeSignature {
        numerator: 6,
        denominator: 8,
        clocks_per_metronome_tick: 24,
        thirty_second_notes_per_24_clocks: 8,
    });
    assert!(matches!(meter_label(&ts), Some(MeterLabel::Signature(s)) if s == "6/8"));
    assert!(meter_label(&MetaInfo::EndOfTrack).is_none());
    assert!(meter_label(&MetaInfo::Marker("x".to_string())).is_none());
}

#[test]
fn durations_as_minutes_and_seconds() {
    assert_eq!(format_duration(0), "00:00");
    assert_eq!(format_duration(61_500_000_000), "01:01");
    assert_eq!(format_duration(3_599_999_999_999), "59:59");
    assert_eq!(format_duration(6_000_000_000_000), "100:00");
}

#[test]
fn dropped_files_by_extension() {
    assert_eq!(dropped_kind("mid"), Some(DroppedKind::Midi));
    assert_eq!(dropped_kind("MIDI"), Some(DroppedKind::Midi));
    assert_eq!(dropped_kind("Mid"), Some(DroppedKind::Midi));
    assert_eq!(dropped_kind("sf2"), Some(DroppedKind::SoundFont));
    assert_eq!(dropped_kind("SF2"), Some(DroppedKind::SoundFont));
    assert_eq!(dropped_kind("txt"), None);
    assert_eq!(dropped_kind("mi"), None);
    assert_eq!(dropped_kind(""), None);
}

#[test]
fn app_tab_labels() {
    assert_eq!(AppTab::default(), AppTab::Tracks);
    assert_eq!(AppTab::Tracks.label(), "Tracks");
    assert_eq!(AppTab::Log.label(), "Log");
}

#[test]
fn track_labels() {
    let named = MidiRegion::new(vec![MidiEvent::new(
        0,
        0,
        meta(midi_msg::Meta::TrackName("Bass".to_string()), MetaInfo::TrackName("Bass".to_string())),
    )]);
    let t = SessionTrack::from_track(named, true, 0, false);
    assert!(matches!(track_label(&t), TrackLabel::Named(s) if s == "Bass"));
    let empty = MidiRegion::new(vec![MidiEvent::new(
        0,
        0,
        meta(midi_msg::Meta::TrackName(String::new()), MetaInfo::TrackName(String::new())),
    )]);
    assert!(matches!(track_label(&SessionTrack::from_track(empty, true, 0, false)), TrackLabel::EmptyName));
    let none = MidiRegion::new(vec![]);
    assert!(matches!(track_label(&SessionTrack::from_track(none, true, 0, false)), TrackLabel::Unnamed));
    let alien = MidiRegion::new(vec![]);
    assert!(matches!(track_label(&SessionTrack::from_track(alien, false, 0, false)), TrackLabel::UnknownType));
}

#[test]
fn log_keeps_the_last_hundred_lines() {
    let mut log: VecDeque<String> = VecDeque::new();
    for i in 0..150 {
        log_text(&mut log, format!("line {i}"));
    }
    assert_eq!(log.len(), LOG_CAPACITY);
    assert_eq!(log.front().unwrap(), "line 50");
    assert_eq!(log.back().unwrap(), "line 149");
}

#[test]
fn log_appends_while_short() {
    let mut log: VecDeque<String> = VecDeque::new();
    log_text(&mut log, "Hello there!".to_string());
    log_text(&mut log, "Opening".to_string());
    assert_eq!(log, VecDeque::from(vec!["Hello there!".to_string(), "Opening".to_string()]));
}

#[test]
fn error_messages_and_details() {
    let e = MidiFlipperError::Io("not found".to_string());
    assert_eq!(e.message(), "IO Error");
    assert_eq!(e.detail(), "not found");
    let e = MidiFlipperError::MidiParse("bad header".to_string());
    assert_eq!(e.message(), "Couldn't parse MIDI file");
    assert_eq!(e.detail(), "bad header");
    let e = MidiFlipperError::FontParse("bad font".to_string());
    assert_eq!(e.message(), "Couldn't parse soundfont");
    assert_eq!(e.detail(), "bad font");
    let e = MidiFlipperError::MidiValidationFailed;
    assert_eq!(e.message(), "MIDI file failed validation");
    assert_eq!(e.detail(), "MIDI file failed validation");
}

#[test]
fn app_settings_default() {
    let s = AppSettings::default();
    assert!(s.workdir.is_none());
    assert!(s.custom_soundfont_path.is_none());
    assert!(!s.border);
}

#[test]
fn vu_receivers_read_zero_when_nothing_publishes() {
    assert_eq!(VUReceiver::dummy().rms_bits(), 0);
    assert_eq!(StereoVUReceiver::dummy().rms_bits(), (0, 0));
    let cell = std::sync::Arc::new(std::sync::atomic::AtomicU32::new(0));
    let r = VUReceiver::from_shared(cell.clone());
    cell.store(0.5f32.to_bits(), std::sync::atomic::Ordering::Relaxed);
    assert_eq!(f32::from_bits(r.rms_bits()), 0.5);
}

#[test]
fn grid_follows_time_signatures() {
    // one tick to a quarter: a whole note is four ticks; the beat is a whole note over the
    // signature's denominator, and a bar starts every `denominator` beats
    let region = MidiRegion::new(vec![
        MidiEvent::new(0, 0, time_signature(3, 4)),
        MidiEvent::new(0, 4, marker("B")),
        MidiEvent::new(0, 6, time_signature(2, 2)),
        MidiEvent::new(0, 9, marker("end")),
    ]);
    let g = generate_grid(1, &vec![region]);
    let beats: Vec<(u64, bool)> = g.beats.clone();
    assert_eq!(
        beats,
        vec![(0, true), (1, false), (2, false), (3, false), (4, true), (5, false), (6, true), (8, false), (10, true)]
    );
    let starts: Vec<u64> = g.bars.iter().map(|b| b.start_position).collect();
    assert_eq!(starts, vec![0, 1, 2, 3, 4, 5, 6, 8, 10]);
    assert_eq!(g.bars[7].end_position, Some(10));
    assert_eq!(g.bars[8].end_position, None);
    // half a second a beat at the default tempo
    assert_eq!(g.bars[1].start_time, 500_000_000);
    assert_eq!(g.bars[8].start_time, 5_000_000_000);
    let markers: Vec<u64> = g.markers.iter().map(|(t, _)| *t).collect();
    assert_eq!(markers, vec![0, 4, 6, 9]);
}

#[test]
fn grid_of_nothing_is_one_beat() {
    let g = generate_grid(96, &vec![]);
    assert_eq!(g.beats, vec![(0, true)]);
    assert_eq!(g.bars.len(), 1);
    assert_eq!(g.bars[0].end_position, None);
    assert!(g.markers.is_empty());
}
