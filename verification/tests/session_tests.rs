use midi_flipper::error::MidiFlipperError;
use midi_flipper::merge::schedule;
use midi_flipper::midi::{
    Division, MetaInfo, Message, MidiFileData, MidiHeader, MidiRegion, SmfFormat, TimeSignature, TrackData,
    TrackEvent, Voice,
};
use midi_flipper::session::{can_load, Session};
use midi_flipper::timing::{step_times, tick_duration_ns};

fn note(on: bool, note: u8) -> Message {
    let voice = if on { Voice::NoteOn { note, velocity: 100 } } else { Voice::NoteOff { note, velocity: 0 } };
    Message::Voice { channel: 0, running: false, voice }
}

fn meta(m: midi_msg::Meta, info: MetaInfo) -> Message {
    Message::Other { msg: midi_msg::MidiMsg::Meta { msg: m }, meta: info }
}

fn name(s: &str) -> Message {
    meta(midi_msg::Meta::TrackName(s.to_string()), MetaInfo::TrackName(s.to_string()))
}

fn tempo(t: u32) -> Message {
    meta(midi_msg::Meta::SetTempo(t), MetaInfo::SetTempo(t))
}

fn end() -> Message {
    meta(midi_msg::Meta::EndOfTrack, MetaInfo::EndOfTrack)
}

fn ev(delta_time: u32, msg: Message) -> TrackEvent {
    TrackEvent { delta_time, msg }
}

fn header(tpq: u16) -> MidiHeader {
    MidiHeader { format: SmfFormat::MultiTrack, num_tracks: 2, division: Division::TicksPerQuarterNote(tpq) }
}

/// Two tracks: a named melody of two notes, and a tempo track.
fn two_tracks() -> MidiFileData {
    let melody = vec![
        ev(0, name("Melody")),
        ev(0, note(true, 60)),
        ev(96, note(false, 60)),
        ev(0, note(true, 64)),
        ev(96, note(false, 64)),
        ev(0, end()),
    ];
    let tempo_track = vec![ev(0, tempo(500_000)), ev(96, tempo(250_000)), ev(96, end())];
    MidiFileData { header: header(96), tracks: vec![TrackData::Midi(melody), TrackData::Midi(tempo_track)] }
}

fn note_of(m: &Message) -> Option<u8> {
    match m {
        Message::Voice { voice: Voice::NoteOn { note, .. }, .. } => Some(*note),
        Message::Voice { voice: Voice::NoteOff { note, .. }, .. } => Some(*note),
        _ => None,
    }
}

#[test]
fn schedule_orders_by_tick_then_track() {
    let file = two_tracks();
    let steps = schedule(&file.tracks);
    let order: Vec<(usize, usize, u32)> = steps.iter().map(|s| (s.track, s.event, s.tick)).collect();
    assert_eq!(
        order,
        vec![(0, 0, 0), (0, 1, 0), (1, 0, 0), (0, 2, 96), (0, 3, 96), (1, 1, 96), (0, 4, 192), (0, 5, 192), (1, 2, 192)]
    );
    let advances: Vec<u32> = steps.iter().map(|s| s.advance).collect();
    assert_eq!(advances, vec![0, 0, 0, 96, 0, 0, 96, 0, 0]);
    let tempos: Vec<u32> = steps.iter().map(|s| s.tempo).collect();
    assert_eq!(tempos, vec![500_000, 500_000, 500_000, 500_000, 500_000, 500_000, 250_000, 250_000, 250_000]);
}

#[test]
fn tick_duration_in_nanoseconds() {
    assert_eq!(tick_duration_ns(Division::TicksPerQuarterNote(96), 500_000), 5_208_333);
    assert_eq!(tick_duration_ns(Division::TicksPerQuarterNote(1), 500_000), 500_000_000);
    assert_eq!(
        tick_duration_ns(
            Division::TimeCode { frames_per_second: midi_flipper::midi::TimeCodeType::FPS25, ticks_per_frame: 40 },
            500_000
        ),
        1_000_000
    );
}

#[test]
fn tick_duration_rounds_to_the_nearest_nanosecond() {
    assert_eq!(tick_duration_ns(Division::TicksPerQuarterNote(3), 500_000), 166_666_667);
    assert_eq!(tick_duration_ns(Division::TicksPerQuarterNote(96), 250_000), 2_604_167);
    assert_eq!(
        tick_duration_ns(
            Division::TimeCode { frames_per_second: midi_flipper::midi::TimeCodeType::FPS24, ticks_per_frame: 7 },
            500_000
        ),
        5_952_381
    );
}

#[test]
fn step_times_follow_the_tempo_in_force() {
    let file = two_tracks();
    let steps = schedule(&file.tracks);
    let times = step_times(file.header.division, &steps);
    let q = 5_208_333u64 * 96;
    assert_eq!(times, vec![0, 0, 0, q, q, q, q + 2_604_167 * 96, q + 2_604_167 * 96, q + 2_604_167 * 96]);
}

#[test]
fn regions_cut_back_per_track() {
    let file = two_tracks();
    let steps = MidiRegion::schedule_midi_file(&file);
    let times = step_times(file.header.division, &steps);
    let regions = MidiRegion::from_midi_file(&file, &steps, &times);
    assert_eq!(regions.len(), 2);
    let ticks: Vec<u32> = regions[0].events().iter().map(|e| e.tick).collect();
    assert_eq!(ticks, vec![0, 0, 96, 96, 192, 192]);
    let ticks: Vec<u32> = regions[1].events().iter().map(|e| e.tick).collect();
    assert_eq!(ticks, vec![0, 96, 192]);
    assert_eq!(regions[0].duration(), 5_208_333 * 96 + 2_604_167 * 96);
    assert_eq!(regions[0].length_in_ticks(), 192);
    assert_eq!(regions[0].find_name(), Some("Melody".to_string()));
    assert_eq!(regions[1].find_name(), None);
    // written back as delta times
    let track = regions[0].to_midi_track();
    let deltas: Vec<u32> = track.iter().map(|e| e.delta_time).collect();
    assert_eq!(deltas, vec![0, 0, 96, 0, 96, 0]);
}

#[test]
fn can_load_accepts_a_plain_file() {
    assert!(can_load(&two_tracks()));
}

#[test]
fn can_load_refuses_ticks_past_u32() {
    let file = MidiFileData {
        header: header(96),
        tracks: vec![TrackData::Midi(vec![ev(u32::MAX - 1, end()), ev(2, end())])],
    };
    assert!(!can_load(&file));
    // reaching u32::MAX exactly is fine: nothing after it is counted
    let file = MidiFileData {
        header: header(96),
        tracks: vec![TrackData::Midi(vec![ev(u32::MAX, end()), ev(2, end())])],
    };
    assert!(can_load(&file));
}

#[test]
fn can_load_refuses_a_division_without_ticks() {
    let mut file = two_tracks();
    file.header.division = Division::TicksPerQuarterNote(0);
    assert!(!can_load(&file));
    let empty = MidiFileData { header: file.header, tracks: vec![TrackData::Midi(vec![])] };
    assert!(can_load(&empty));
}

#[test]
fn can_load_refuses_a_time_signature_without_beat_unit() {
    let ts = TimeSignature { numerator: 4, denominator: 0, clocks_per_metronome_tick: 24, thirty_second_notes_per_24_clocks: 8 };
    let msg = meta(
        midi_msg::Meta::TimeSignature(midi_msg::FileTimeSignature {
            numerator: 4,
            denominator: 0,
            clocks_per_metronome_tick: 24,
            thirty_second_notes_per_24_clocks: 8,
        }),
        MetaInfo::TimeSignature(ts),
    );
    let file = MidiFileData { header: header(96), tracks: vec![TrackData::Midi(vec![ev(0, msg)])] };
    assert!(!can_load(&file));
}

#[test]
fn session_refuses_a_file_that_does_not_reparse() {
    match Session::new("song.mid".to_string(), two_tracks(), false) {
        Err(MidiFlipperError::MidiValidationFailed) => {},
        _ => panic!("expected a validation failure"),
    }
}

#[test]
fn session_from_file_has_a_track_per_chunk() {
    let s = Session::new("song.mid".to_string(), two_tracks(), true).ok().unwrap();
    assert_eq!(s.name(), "song.mid");
    assert!(!s.is_placeholder());
    assert_eq!(s.tracks().len(), 2);
    assert_eq!(s.tracks()[0].name(), Some("Melody"));
    assert_eq!(s.tracks()[1].name(), None);
    assert!(s.tracks()[0].is_midi());
    assert_eq!(s.length(), 5_208_333 * 96 + 2_604_167 * 96);
    assert_eq!(s.global_transpose(), 0);
    assert!(!s.flip_bend());
    assert!(!s.playback_original());
    assert_eq!(s.midi_header(), header(96));
    // the flipped copy mirrors the notes
    let flipped: Vec<Option<u8>> =
        s.tracks()[0].track_flipped().midi_region().events().iter().map(|e| note_of(&e.msg)).collect();
    assert_eq!(flipped, vec![None, Some(67), Some(67), Some(63), Some(63), None]);
}

#[test]
fn session_grid_and_markers() {
    let s = Session::new("song.mid".to_string(), two_tracks(), true).ok().unwrap();
    // 96 ticks to a quarter, 4/4: a beat every 96 ticks up to tick 193
    let beats: Vec<(u64, bool)> = s.beats_paint_cache().to_vec();
    assert_eq!(beats, vec![(0, true), (96, false), (192, false)]);
    let bars = s.cached_bars();
    assert_eq!(bars.len(), 3);
    assert_eq!(bars[0].start_position, 0);
    assert_eq!(bars[0].end_position, Some(96));
    assert_eq!(bars[2].end_position, None);
    // tempo 500000 for the first beat, 250000 from tick 96
    assert_eq!(bars[1].start_time, 5_208_333 * 96);
    assert_eq!(bars[2].start_time, 5_208_333 * 96 + 2_604_167 * 96);
    let markers: Vec<u64> = s.marker_events().iter().map(|(t, _)| *t).collect();
    assert_eq!(markers, vec![0, 96, 192, 192]);
    assert!(matches!(s.marker_events()[0].1, MetaInfo::SetTempo(500_000)));
    assert!(matches!(s.marker_events()[2].1, MetaInfo::EndOfTrack));
}

#[test]
fn session_cursor_follows_bars() {
    let mut s = Session::new("song.mid".to_string(), two_tracks(), true).ok().unwrap();
    assert_eq!(s.cursor_pos(), 0);
    s.set_cursor_pos(100);
    assert_eq!(s.cursor_pos(), 96);
    assert_eq!(s.cursor_time(), 5_208_333 * 96);
    s.set_cursor_pos(95);
    assert_eq!(s.cursor_pos(), 0);
    s.set_cursor_pos(10_000);
    assert_eq!(s.cursor_pos(), 192);
    assert_eq!(s.playhead_pos(0), Some(0));
    assert_eq!(s.playhead_pos(5_208_333 * 96 + 1), Some(96));
    assert_eq!(s.playhead_pos(u64::MAX), Some(192));
}

#[test]
fn session_global_settings_reach_every_track() {
    let mut s = Session::new("song.mid".to_string(), two_tracks(), true).ok().unwrap();
    assert!(s.global_transpose_fits(12));
    assert!(!s.global_transpose_fits(i32::MAX));
    s.set_global_transpose(12);
    assert_eq!(s.global_transpose(), 12);
    for t in s.tracks() {
        assert_eq!(t.settings().global_transpose, 12);
    }
    let flipped: Vec<Option<u8>> =
        s.tracks()[0].track_flipped().midi_region().events().iter().map(|e| note_of(&e.msg)).collect();
    assert_eq!(flipped, vec![None, Some(79), Some(79), Some(75), Some(75), None]);
    s.reset_global_transpose();
    assert_eq!(s.global_transpose(), 0);
    s.set_flip_bend(true);
    assert!(s.tracks().iter().all(|t| t.settings().global_flip_bend));
}

#[test]
fn session_check_for_changes_asks_once() {
    let mut s = Session::new("song.mid".to_string(), two_tracks(), true).ok().unwrap();
    assert!(!s.check_for_changes());
    s.set_track_flip_enabled(0, false);
    assert!(s.check_for_changes());
    assert!(!s.check_for_changes());
    s.set_playback_original(true);
    s.set_track_ignore_ch10(0, false);
    assert!(!s.check_for_changes());
}

#[test]
fn session_track_transposition_is_limited() {
    let mut s = Session::new("song.mid".to_string(), two_tracks(), true).ok().unwrap();
    assert!(s.track_transposition_fits(0, 500));
    s.set_track_transposition(0, 500);
    assert_eq!(s.tracks()[0].transposition(), 127);
    s.set_track_transposition(0, -500);
    assert_eq!(s.tracks()[0].transposition(), -127);
    s.set_track_transposition(0, 3);
    assert_eq!(s.tracks()[0].transposition(), 3);
    assert!(s.track_ignore_ch10_fits(0, false));
}

#[test]
fn session_assembles_original_and_flipped_files() {
    let mut s = Session::new("song.mid".to_string(), two_tracks(), true).ok().unwrap();
    s.set_track_flip_enabled(1, false);
    let original = s.assemble_original_midi();
    let flipped = s.assemble_flipped_midi();
    assert_eq!(original.header, header(96));
    assert_eq!(original.tracks.len(), 2);
    let notes = |f: &MidiFileData, i: usize| -> Vec<Option<u8>> {
        match &f.tracks[i] {
            TrackData::Midi(evs) => evs.iter().map(|e| note_of(&e.msg)).collect(),
            TrackData::AlienChunk(_) => vec![],
        }
    };
    assert_eq!(notes(&original, 0), vec![None, Some(60), Some(60), Some(64), Some(64), None]);
    assert_eq!(notes(&flipped, 0), vec![None, Some(67), Some(67), Some(63), Some(63), None]);
    let deltas: Vec<u32> = match &flipped.tracks[1] {
        TrackData::Midi(evs) => evs.iter().map(|e| e.delta_time).collect(),
        TrackData::AlienChunk(_) => vec![],
    };
    assert_eq!(deltas, vec![0, 96, 96]);
    // playback follows the choice of original or flipped
    let regions = s.playback_regions();
    assert_eq!(note_of(&regions[0].events()[1].msg), Some(67));
    s.set_playback_original(true);
    let regions = s.playback_regions();
    assert_eq!(note_of(&regions[0].events()[1].msg), Some(60));
}

#[test]
fn placeholder_session_is_empty() {
    let s = Session::placeholder();
    assert_eq!(s.name(), "No File");
    assert!(s.is_placeholder());
    assert_eq!(s.tracks().len(), 0);
    assert_eq!(s.length(), 0);
    assert_eq!(s.cursor_pos(), 0);
    assert_eq!(s.cursor_time(), 0);
    assert_eq!(s.playhead_pos(0), None);
    assert_eq!(s.midi_header().division, Division::TicksPerQuarterNote(96));
}

#[test]
fn time_code_session_has_no_grid() {
    let mut file = two_tracks();
    file.header.division =
        Division::TimeCode { frames_per_second: midi_flipper::midi::TimeCodeType::FPS25, ticks_per_frame: 40 };
    let s = Session::new("tc.mid".to_string(), file, true).ok().unwrap();
    assert_eq!(s.beats_paint_cache().len(), 0);
    assert_eq!(s.cached_bars().len(), 0);
    assert_eq!(s.marker_events().len(), 0);
    // 1 ms a tick
    assert_eq!(s.length(), 192 * 1_000_000);
}

#[test]
fn unflipped_session_assembles_the_original() {
    let mut s = Session::new("song.mid".to_string(), two_tracks(), true).ok().unwrap();
    s.set_track_flip_enabled(0, false);
    s.set_track_flip_enabled(1, false);
    let a = s.assemble_flipped_midi();
    let b = s.assemble_original_midi();
    let shape = |f: &MidiFileData| -> Vec<Vec<(u32, Option<u8>)>> {
        f.tracks
            .iter()
            .map(|t| match t {
                TrackData::Midi(evs) => evs.iter().map(|e| (e.delta_time, note_of(&e.msg))).collect(),
                TrackData::AlienChunk(_) => vec![],
            })
            .collect()
    };
    assert_eq!(shape(&a), shape(&b));
}

#[test]
fn reassembled_file_plays_the_same() {
    let mut s = Session::new("song.mid".to_string(), two_tracks(), true).ok().unwrap();
    s.set_global_transpose(5);
    let file = s.assemble_flipped_midi();
    assert!(can_load(&file));
    let steps = MidiRegion::schedule_midi_file(&file);
    let times = step_times(file.header.division, &steps);
    let regions = MidiRegion::from_midi_file(&file, &steps, &times);
    let played = s.playback_regions();
    assert_eq!(regions.len(), played.len());
    for (r, p) in regions.iter().zip(played.iter()) {
        let a: Vec<(u32, Option<u8>)> = r.events().iter().map(|e| (e.tick, note_of(&e.msg))).collect();
        let b: Vec<(u32, Option<u8>)> = p.events().iter().map(|e| (e.tick, note_of(&e.msg))).collect();
        assert_eq!(a, b);
    }
}

#[test]
fn a_file_has_one_playing_order() {
    let file = two_tracks();
    let a: Vec<(usize, usize, u32, u32, u32)> =
        schedule(&file.tracks).iter().map(|s| (s.track, s.event, s.tick, s.advance, s.tempo)).collect();
    let b: Vec<(usize, usize, u32, u32, u32)> = MidiRegion::schedule_midi_file(&file)
        .iter()
        .map(|s| (s.track, s.event, s.tick, s.advance, s.tempo))
        .collect();
    assert_eq!(a, b);
}

#[test]
fn a_tempo_event_of_one_track_times_the_others() {
    let file = MidiFileData {
        header: header(250),
        tracks: vec![
            TrackData::Midi(vec![ev(100, tempo(1_000_000)), ev(100, end())]),
            TrackData::Midi(vec![ev(150, note(true, 60))]),
        ],
    };
    let steps = MidiRegion::schedule_midi_file(&file);
    let times = step_times(file.header.division, &steps);
    let regions = MidiRegion::from_midi_file(&file, &steps, &times);
    assert_eq!(regions.len(), 2);
    let first: Vec<(u64, u32)> = regions[0].events().iter().map(|e| (e.time, e.tick)).collect();
    assert_eq!(first, vec![(200_000_000, 100), (600_000_000, 200)]);
    let second: Vec<(u64, u32)> = regions[1].events().iter().map(|e| (e.time, e.tick)).collect();
    assert_eq!(second, vec![(400_000_000, 150)]);
    assert_eq!(note_of(&regions[1].events()[0].msg), Some(60));
}
