//! A session: an opened MIDI file as tracks that can each be flipped, the
//! bar grid of its song, and the file assembled back from its tracks.
use vstd::prelude::*;

use crate::error::MidiFlipperError;
use crate::flip::{events_flip_fit, flip_events, lemma_flip_keeps_timing, message_flip_fits, FlipSettings};
use crate::grid::{
    generate_grid, is_grid_of, reached_track, reading_of, reading_tracks, signatures_nonzero,
    track_signatures_nonzero, CachedBar, Grid,
};
use crate::merge::{
    abs_tick, file_events, is_schedule, lemma_abs_tick_mono, lemma_delta_round_trip, lemma_region_ticks_below_max,
    lemma_regions_follow_tracks, region_of, schedule, step_valid, track_ticks_fit, Step,
};
use crate::midi::{
    first_track_name, last_time, ticks_nondecreasing, track_events, track_from_region, Division, MetaInfo,
    Message, MidiEvent, MidiFileData, MidiHeader, MidiRegion, SmfFormat, TrackData, TrackEvent,
};
use crate::timing::{division_nonzero, saturate, step_time, step_times, times_of};
use crate::track::{clamp_transposition, new_track_settings, SessionTrack, SessionTrackModel, TrackMidiData};

verus! {

/// Every chunk of the file can be counted in `u32` ticks (see
/// `track_ticks_fit`).
pub open spec fn file_ticks_fit(tracks: Seq<TrackData>) -> bool {
    forall|i: int| 0 <= i < tracks.len() ==> track_ticks_fit(#[trigger] track_events(tracks[i]))
}

/// Some track has an event that will be played: its first event comes
/// before tick `u32::MAX`.
pub open spec fn has_timed_event(tr: Seq<Seq<TrackEvent>>) -> bool {
    exists|i: int| 0 <= i < tr.len() && (#[trigger] tr[i]).len() > 0 && tr[i][0].delta_time < u32::MAX
}

/// A session can be made from the file without its arithmetic failing:
/// the ticks fit in `u32`, a tick has a length if any event is played, and
/// in metrical time every time signature has a beat unit.
pub open spec fn loadable(file: MidiFileData) -> bool {
    let tr = file_events(file.tracks@);
    &&& file_ticks_fit(file.tracks@)
    &&& has_timed_event(tr) ==> division_nonzero(file.header.division)
    &&& file.header.division is TicksPerQuarterNote ==> signatures_nonzero(tr)
}

/// Whether the track's ticks can be counted in `u32`.
fn track_fits(t: &TrackData) -> (r: bool)
    ensures
        r == track_ticks_fit(track_events(*t)),
{
    let ghost evs = track_events(*t);
    let n = t.event_count();
    let mut acc: u64 = 0;
    let mut j: usize = 0;
    while j < n
        invariant
            n == evs.len(),
            evs == track_events(*t),
            j <= n,
            acc == abs_tick(evs, j - 1),
            acc < u32::MAX || j == 0,
            forall|k: int| 0 <= k < j ==> #[trigger] abs_tick(evs, k) < u32::MAX,
        decreases n - j,
    {
        let next = acc + t.event(j).delta_time as u64;
        assert(abs_tick(evs, j as int) == next);
        if next > u32::MAX as u64 {
            assert(!track_ticks_fit(evs));
            return false;
        }
        if next == u32::MAX as u64 {
            assert forall|q: int|
                #![trigger abs_tick(evs, q)]
                0 <= q < evs.len() && (forall|k: int| 0 <= k < q ==> #[trigger] abs_tick(evs, k) < u32::MAX)
                    implies abs_tick(evs, q) <= u32::MAX by {
                if q > j {
                    assert(abs_tick(evs, j as int) == u32::MAX);
                }
            }
            return true;
        }
        acc = next;
        j += 1;
    }
    true
}

/// Whether every time signature of the track has a beat unit.
fn track_signatures_ok(t: &TrackData) -> (r: bool)
    ensures
        r == track_signatures_nonzero(track_events(*t)),
{
    let ghost evs = track_events(*t);
    let n = t.event_count();
    let mut j: usize = 0;
    while j < n
        invariant
            n == evs.len(),
            evs == track_events(*t),
            j <= n,
            forall|k: int|
                0 <= k < j ==> match (#[trigger] evs[k]).msg.meta() {
                    MetaInfo::TimeSignature(ts) => ts.denominator > 0,
                    _ => true,
                },
        decreases n - j,
    {
        let e = t.event(j);
        if let Message::Other { meta: MetaInfo::TimeSignature(ts), .. } = &e.msg {
            if ts.denominator == 0 {
                assert(evs[j as int] == *e);
                return false;
            }
        }
        j += 1;
    }
    true
}

/// Whether a session can be made from the file (see `loadable`).
pub fn can_load(file: &MidiFileData) -> (r: bool)
    ensures
        r == loadable(*file),
{
    let ghost tr = file_events(file.tracks@);
    let n = file.tracks.len();
    let mut fits = true;
    let mut timed = false;
    let mut signatures = true;
    let mut i: usize = 0;
    while i < n
        invariant
            n == file.tracks.len(),
            tr == file_events(file.tracks@),
            i <= n,
            fits == (forall|q: int| 0 <= q < i ==> track_ticks_fit(#[trigger] track_events(file.tracks@[q]))),
            timed == (exists|q: int| 0 <= q < i && (#[trigger] tr[q]).len() > 0 && tr[q][0].delta_time < u32::MAX),
            signatures == (forall|q: int| 0 <= q < i ==> track_signatures_nonzero(#[trigger] tr[q])),
        decreases n - i,
    {
        let t = &file.tracks[i];
        assert(track_events(*t) == tr[i as int]);
        let f = track_fits(t);
        let s = track_signatures_ok(t);
        let c = t.event_count();
        let first_timed = c > 0 && t.event(0).delta_time < u32::MAX;
        proof {
            if !f {
                assert(!track_ticks_fit(track_events(file.tracks@[i as int])));
            }
            if !s {
                assert(!track_signatures_nonzero(tr[i as int]));
            }
            if first_timed {
                assert(tr[i as int].len() > 0 && tr[i as int][0].delta_time < u32::MAX);
            }
        }
        fits = fits && f;
        timed = timed || first_timed;
        signatures = signatures && s;
        i += 1;
    }
    let metrical = match file.header.division {
        crate::midi::Division::TicksPerQuarterNote(_) => true,
        _ => false,
    };
    let nonzero = match file.header.division {
        crate::midi::Division::TicksPerQuarterNote(t) => t > 0,
        crate::midi::Division::TimeCode { ticks_per_frame, .. } => ticks_per_frame > 0,
    };
    fits && (!timed || nonzero) && (!metrical || signatures)
}

/// The track that chunk `i` of a file gives: the chunk's events in playing
/// order (`steps`), named by its first track name, as long as its last
/// event, with new-track settings (no global transposition, no bend flip).
pub open spec fn track_of_file(file: MidiFileData, steps: Seq<Step>, i: int) -> SessionTrackModel {
    let r = region_of(
        file_events(file.tracks@),
        steps,
        times_of(file.header.division, steps),
        i,
        steps.len() as int,
    );
    SessionTrackModel {
        name: first_track_name(r),
        length: last_time(r),
        is_midi: file.tracks@[i] is Midi,
        changed: false,
        original: r,
        settings: new_track_settings(0, false),
    }
}

/// The length of the longest track (zero for none).
pub open spec fn longest(tracks: Seq<SessionTrackModel>) -> u64
    decreases tracks.len(),
{
    if tracks.len() == 0 {
        0
    } else {
        let m = longest(tracks.drop_last());
        if tracks.last().length > m {
            tracks.last().length
        } else {
            m
        }
    }
}

/// The original events of each track.
pub open spec fn originals(tracks: Seq<SessionTrackModel>) -> Seq<Seq<MidiEvent>> {
    tracks.map_values(|t: SessionTrackModel| t.original)
}

/// The grid laid out over the tracks' original events in metrical time;
/// none in time-code time.
pub open spec fn grid_matches(
    division: Division,
    tracks: Seq<SessionTrackModel>,
    beats: Seq<(u64, bool)>,
    bars: Seq<CachedBar>,
    markers: Seq<(u64, MetaInfo)>,
) -> bool {
    match division {
        Division::TicksPerQuarterNote(tpq) => exists|steps: Seq<Step>|
            #[trigger] is_grid_of(reading_tracks(originals(tracks)), steps, tpq, beats, bars, markers),
        Division::TimeCode { .. } => beats.len() == 0 && bars.len() == 0 && markers.len() == 0,
    }
}

/// What a session holds, as plain values.
pub struct SessionModel {
    pub name: Seq<char>,
    pub length: u64,
    pub header: MidiHeader,
    pub tracks: Seq<SessionTrackModel>,
    pub markers: Seq<(u64, MetaInfo)>,
    pub beats: Seq<(u64, bool)>,
    pub bars: Seq<CachedBar>,
    pub global_transpose: i32,
    pub flip_bend: bool,
    pub is_placeholder: bool,
    pub playback_original: bool,
    pub selected_bar: usize,
}

/// The tracks of a session are each in tick order below tick `u32::MAX`,
/// each is flipped with the session's global transposition and bend
/// setting, and each track's own transposition is within `-127..=127`.
pub open spec fn session_wf(m: SessionModel) -> bool {
    &&& forall|i: int| 0 <= i < m.tracks.len() ==> ticks_nondecreasing(#[trigger] m.tracks[i].original)
    &&& forall|i: int|
        0 <= i < m.tracks.len() ==> (#[trigger] m.tracks[i]).settings.global_transpose == m.global_transpose
            && m.tracks[i].settings.global_flip_bend == m.flip_bend
    &&& forall|i: int|
        0 <= i < m.tracks.len() ==> -127 <= (#[trigger] m.tracks[i]).settings.transpose <= 127
    &&& forall|i: int, q: int|
        0 <= i < m.tracks.len() && 0 <= q < m.tracks[i].original.len() ==> (#[trigger] m.tracks[i].original[q]).tick
            < u32::MAX
}

/// The session that a file gives, named `name`: a track per chunk (see
/// `track_of_file`), as long as its longest track, the file's header, the
/// grid over the tracks, and everything else at rest.
pub open spec fn session_of_file(name: Seq<char>, file: MidiFileData, m: SessionModel) -> bool {
    &&& exists|steps: Seq<Step>|
        #[trigger] is_schedule(file_events(file.tracks@), steps) && m.tracks == Seq::new(
            file.tracks.len() as nat,
            |i: int| track_of_file(file, steps, i),
        )
    &&& m.name == name
    &&& m.length == longest(m.tracks)
    &&& m.header == file.header
    &&& grid_matches(file.header.division, m.tracks, m.beats, m.bars, m.markers)
    &&& m.global_transpose == 0
    &&& !m.flip_bend
    &&& !m.is_placeholder
    &&& !m.playback_original
    &&& m.selected_bar == 0
}

/// An opened file: its tracks, the grid of its song, and the playback
/// choices made on it.
pub struct Session {
    name: String,
    length: u64,
    midi_header: MidiHeader,
    tracks: Vec<SessionTrack>,
    marker_events: Vec<(u64, MetaInfo)>,
    beats_paint_cache: Vec<(u64, bool)>,
    cached_bars: Vec<CachedBar>,
    global_transpose: i32,
    flip_bend: bool,
    is_placeholder: bool,
    playback_original: bool,
    selected_bar: usize,
}

impl View for Session {
    type V = SessionModel;

    closed spec fn view(&self) -> SessionModel {
        SessionModel {
            name: self.name@,
            length: self.length,
            header: self.midi_header,
            tracks: self.tracks@.map_values(|t: SessionTrack| t@),
            markers: self.marker_events@,
            beats: self.beats_paint_cache@,
            bars: self.cached_bars@,
            global_transpose: self.global_transpose,
            flip_bend: self.flip_bend,
            is_placeholder: self.is_placeholder,
            playback_original: self.playback_original,
            selected_bar: self.selected_bar,
        }
    }
}

/// A new track's settings allow any events to be flipped.
proof fn lemma_new_tracks_flip(events: Seq<MidiEvent>)
    ensures
        events_flip_fit(events, new_track_settings(0, false)),
{
    assert forall|k: int| 0 <= k < events.len() implies message_flip_fits(
        #[trigger] events[k].msg,
        new_track_settings(0, false),
    ) by {}
}

impl Session {
    pub open spec fn wf(&self) -> bool {
        session_wf(self@)
    }

    /// The session of a file, named `name`. `reencoding_parses` tells
    /// whether the file, written back to bytes, parses again; if not the
    /// file is refused.
    pub fn new(name: String, midi_file: MidiFileData, reencoding_parses: bool) -> (r: Result<
        Session,
        MidiFlipperError,
    >)
        requires
            reencoding_parses ==> loadable(midi_file),
        ensures
            match r {
                Ok(s) => reencoding_parses && s.wf() && session_of_file(name@, midi_file, s@),
                Err(e) => !reencoding_parses && e is MidiValidationFailed,
            },
    {
        if !reencoding_parses {
            return Err(MidiFlipperError::MidiValidationFailed);
        }
        let ghost tr = file_events(midi_file.tracks@);
        let steps = schedule(&midi_file.tracks);
        proof {
            if steps.len() > 0 {
                let s0 = steps@[0];
                assert(step_valid(tr, s0));
                lemma_abs_tick_mono(tr[s0.track as int], 0, s0.event as int);
                assert(abs_tick(tr[s0.track as int], -1) == 0);
                assert(abs_tick(tr[s0.track as int], 0) == tr[s0.track as int][0].delta_time);
                assert(tr[s0.track as int].len() > 0 && tr[s0.track as int][0].delta_time < u32::MAX);
            }
        }
        let times = step_times(midi_file.header.division, &steps);
        assert(times@ =~= times_of(midi_file.header.division, steps@));
        let regions = MidiRegion::from_midi_file(&midi_file, &steps, &times);
        let ghost models = Seq::new(midi_file.tracks.len() as nat, |q: int| track_of_file(midi_file, steps@, q));
        let mut tracks: Vec<SessionTrack> = Vec::new();
        let mut length: u64 = 0;
        let mut i: usize = 0;
        while i < regions.len()
            invariant
                tr == file_events(midi_file.tracks@),
                is_schedule(tr, steps@),
                times@ == times_of(midi_file.header.division, steps@),
                regions.len() == midi_file.tracks.len(),
                forall|q: int|
                    0 <= q < regions.len() ==> (#[trigger] regions@[q])@ == region_of(
                        tr,
                        steps@,
                        times@,
                        q,
                        steps.len() as int,
                    ),
                models == Seq::new(midi_file.tracks.len() as nat, |q: int| track_of_file(midi_file, steps@, q)),
                i <= regions.len(),
                tracks.len() == i,
                forall|q: int| 0 <= q < i ==> (#[trigger] tracks@[q])@ == models[q],
                length == longest(models.take(i as int)),
            decreases regions.len() - i,
        {
            let is_midi = midi_file.tracks[i].is_midi();
            proof {
                lemma_new_tracks_flip(regions@[i as int]@);
            }
            let track = SessionTrack::from_track(regions[i].duplicate(), is_midi, 0, false);
            assert(track@ == models[i as int]);
            if track.length() > length {
                length = track.length();
            }
            tracks.push(track);
            assert(models.take(i + 1).drop_last() =~= models.take(i as int));
            i += 1;
        }
        assert(models.take(i as int) =~= models);
        let grid = match midi_file.header.division {
            Division::TicksPerQuarterNote(tpq) => {
                proof {
                    assert forall|q: int, j: int|
                        0 <= q < regions.len() && 0 <= j < regions@[q]@.len() implies (#[trigger] regions@[q]@[j]).tick
                            < u32::MAX by {
                        lemma_region_ticks_below_max(tr, steps@, times@, q, steps.len() as int);
                    }
                    assert forall|q: int| 0 <= q < reading_of(regions@).len() implies track_signatures_nonzero(
                        #[trigger] reading_of(regions@)[q],
                    ) by {
                        lemma_regions_follow_tracks(tr, steps@, times@, q);
                        let r = regions@[q]@;
                        assert(reading_of(regions@)[q] == reached_track(r));
                        assert(track_signatures_nonzero(tr[q]));
                        assert forall|j: int| 0 <= j < reached_track(r).len() implies match (#[trigger] reached_track(r)[j]).msg.meta() {
                            MetaInfo::TimeSignature(ts) => ts.denominator > 0,
                            _ => true,
                        } by {
                            assert(reached_track(r)[j].msg == tr[q][j].msg);
                            assert(tr[q][j] == tr[q][j]);
                        }
                    }
                }
                generate_grid(tpq, &regions)
            },
            Division::TimeCode { .. } => Grid { beats: Vec::new(), bars: Vec::new(), markers: Vec::new() },
        };
        let s = Session {
            name,
            length,
            midi_header: midi_file.header,
            tracks,
            marker_events: grid.markers,
            beats_paint_cache: grid.beats,
            cached_bars: grid.bars,
            global_transpose: 0,
            flip_bend: false,
            is_placeholder: false,
            playback_original: false,
            selected_bar: 0,
        };
        proof {
            assert(s@.tracks =~= models);
            assert(originals(s@.tracks) =~= regions@.map_values(|r: MidiRegion| r@));
            assert forall|q: int| 0 <= q < s@.tracks.len() implies ticks_nondecreasing(
                #[trigger] s@.tracks[q].original,
            ) by {
                lemma_regions_follow_tracks(tr, steps@, times@, q);
            }
            assert forall|q: int, j: int|
                0 <= q < s@.tracks.len() && 0 <= j < s@.tracks[q].original.len() implies (#[trigger] s@.tracks[q].original[j]).tick
                    < u32::MAX by {
                lemma_region_ticks_below_max(tr, steps@, times@, q, steps.len() as int);
            }
            assert(is_schedule(file_events(midi_file.tracks@), steps@));
        }
        Ok(s)
    }
}

/// A track with its settings changed to `settings`, marked as changed.
pub open spec fn track_with(t: SessionTrackModel, settings: FlipSettings) -> SessionTrackModel {
    SessionTrackModel { settings, changed: true, ..t }
}

/// Every track can be flipped within `i32` arithmetic with the global
/// transposition `gt`.
pub open spec fn global_transpose_fits(m: SessionModel, gt: i32) -> bool {
    forall|i: int|
        0 <= i < m.tracks.len() ==> events_flip_fit(
            (#[trigger] m.tracks[i]).original,
            FlipSettings { global_transpose: gt, ..m.tracks[i].settings },
        )
}

/// The events a track plays: flipped if its flipping is on.
pub open spec fn played_events(t: SessionTrackModel) -> Seq<MidiEvent> {
    if t.settings.enabled {
        flip_events(t.original, t.settings)
    } else {
        t.original
    }
}

/// The file's header and, per track, a MIDI track of `events(track)`.
pub open spec fn assembled(
    m: SessionModel,
    file: MidiFileData,
    flipped: bool,
) -> bool {
    &&& file.header == m.header
    &&& file.tracks.len() == m.tracks.len()
    &&& forall|i: int|
        0 <= i < m.tracks.len() ==> (#[trigger] file.tracks@[i]) is Midi && track_events(file.tracks@[i])
            == track_from_region(
            if flipped {
                played_events(m.tracks[i])
            } else {
                m.tracks[i].original
            },
        )
}

/// The bar a cursor at tick `pos` falls in: the first bar that ends after
/// `pos` (an open-ended bar never ends), or bar 0 when none does.
pub open spec fn bar_index_from(bars: Seq<CachedBar>, pos: u64, k: int) -> int
    decreases bars.len() - k,
{
    if k < 0 || k >= bars.len() {
        0
    } else if ends_after(bars[k], pos) {
        k
    } else {
        bar_index_from(bars, pos, k + 1)
    }
}

/// The bar ends after tick `pos`.
pub open spec fn ends_after(bar: CachedBar, pos: u64) -> bool {
    match bar.end_position {
        Some(e) => pos < e,
        None => true,
    }
}

/// The session with every track's change mark cleared.
pub open spec fn changes_cleared(m: SessionModel) -> SessionModel {
    SessionModel {
        tracks: Seq::new(m.tracks.len(), |i: int| SessionTrackModel { changed: false, ..m.tracks[i] }),
        ..m
    }
}

/// The synthesizer must be given the file again: a track changed and the
/// flipped file is the one being played.
pub open spec fn refresh_needed(m: SessionModel) -> bool {
    (exists|i: int| 0 <= i < m.tracks.len() && (#[trigger] m.tracks[i]).changed) && !m.playback_original
}

/// The start of the first bar from `k` on that has not ended by `time`.
pub open spec fn playhead_from(bars: Seq<CachedBar>, time: u64, k: int) -> Option<u64>
    decreases bars.len() - k,
{
    if k < 0 || k >= bars.len() {
        None
    } else if (match bars[k].end_time {
        Some(e) => e < time,
        None => false,
    }) {
        playhead_from(bars, time, k + 1)
    } else {
        Some(bars[k].start_position)
    }
}

/// The selected bar, or the last bar when the selection is past the end
/// (`None` when there are no bars).
pub open spec fn cursor_bar(m: SessionModel) -> Option<CachedBar> {
    if m.selected_bar < m.bars.len() {
        Some(m.bars[m.selected_bar as int])
    } else if m.bars.len() > 0 {
        Some(m.bars.last())
    } else {
        None
    }
}

impl Session {
    /// The session shown when no file is open.
    pub fn placeholder() -> (r: Session)
        ensures
            r.wf(),
            r@ == (SessionModel {
                name: "No File"@,
                length: 0,
                header: MidiHeader {
                    format: SmfFormat::MultiTrack,
                    num_tracks: 0,
                    division: Division::TicksPerQuarterNote(96),
                },
                tracks: Seq::empty(),
                markers: Seq::empty(),
                beats: Seq::empty(),
                bars: Seq::empty(),
                global_transpose: 0,
                flip_bend: false,
                is_placeholder: true,
                playback_original: false,
                selected_bar: 0,
            }),
    {
        let s = Session {
            name: "No File".to_owned(),
            length: 0,
            midi_header: MidiHeader {
                format: SmfFormat::MultiTrack,
                num_tracks: 0,
                division: Division::TicksPerQuarterNote(96),
            },
            tracks: Vec::new(),
            marker_events: Vec::new(),
            beats_paint_cache: Vec::new(),
            cached_bars: Vec::new(),
            global_transpose: 0,
            flip_bend: false,
            is_placeholder: true,
            playback_original: false,
            selected_bar: 0,
        };
        assert(s@.tracks =~= Seq::empty());
        s
    }

    pub fn is_placeholder(&self) -> (r: bool)
        ensures
            r == self@.is_placeholder,
    {
        self.is_placeholder
    }

    pub fn name(&self) -> (r: &str)
        ensures
            r@ == self@.name,
    {
        self.name.as_str()
    }

    /// The length of the longest track, in nanoseconds.
    pub fn length(&self) -> (r: u64)
        ensures
            r == self@.length,
    {
        self.length
    }

    pub fn midi_header(&self) -> (r: MidiHeader)
        ensures
            r == self@.header,
    {
        self.midi_header
    }

    pub fn tracks(&self) -> (r: &[SessionTrack])
        ensures
            r@.len() == self@.tracks.len(),
            forall|i: int| 0 <= i < r@.len() ==> (#[trigger] r@[i])@ == self@.tracks[i],
    {
        self.tracks.as_slice()
    }

    /// The beats of the grid: their ticks, and whether each starts a bar.
    pub fn beats_paint_cache(&self) -> (r: &[(u64, bool)])
        ensures
            r@ == self@.beats,
    {
        self.beats_paint_cache.as_slice()
    }

    pub fn cached_bars(&self) -> (r: &[CachedBar])
        ensures
            r@ == self@.bars,
    {
        self.cached_bars.as_slice()
    }

    /// The meta events the time line shows, with their ticks.
    pub fn marker_events(&self) -> (r: &[(u64, MetaInfo)])
        ensures
            r@ == self@.markers,
    {
        self.marker_events.as_slice()
    }

    pub fn global_transpose(&self) -> (r: i32)
        ensures
            r == self@.global_transpose,
    {
        self.global_transpose
    }

    pub fn flip_bend(&self) -> (r: bool)
        ensures
            r == self@.flip_bend,
    {
        self.flip_bend
    }

    pub fn playback_original(&self) -> (r: bool)
        ensures
            r == self@.playback_original,
    {
        self.playback_original
    }

    /// Whether every track can be flipped with the global transposition
    /// `gt` (see `set_global_transpose`).
    pub fn global_transpose_fits(&self, gt: i32) -> (r: bool)
        ensures
            r == global_transpose_fits(self@, gt),
    {
        let mut i: usize = 0;
        while i < self.tracks.len()
            invariant
                i <= self.tracks.len(),
                forall|q: int|
                    0 <= q < i ==> events_flip_fit(
                        (#[trigger] self@.tracks[q]).original,
                        FlipSettings { global_transpose: gt, ..self@.tracks[q].settings },
                    ),
            decreases self.tracks.len() - i,
        {
            let t = &self.tracks[i];
            let settings = FlipSettings { global_transpose: gt, ..t.settings() };
            if !t.settings_fit(settings) {
                assert(self@.tracks[i as int] == t@);
                return false;
            }
            i += 1;
        }
        true
    }

    /// Sets the global transposition of the session and of every track.
    pub fn set_global_transpose(&mut self, global_transpose: i32)
        requires
            old(self).wf(),
            global_transpose_fits(old(self)@, global_transpose),
        ensures
            final(self).wf(),
            final(self)@ == (SessionModel {
                global_transpose,
                tracks: Seq::new(
                    old(self)@.tracks.len(),
                    |i: int|
                        track_with(
                            old(self)@.tracks[i],
                            FlipSettings { global_transpose, ..old(self)@.tracks[i].settings },
                        ),
                ),
                ..old(self)@
            }),
    {
        let ghost old_m = self@;
        let ghost goal = Seq::new(
            old_m.tracks.len(),
            |i: int| track_with(old_m.tracks[i], FlipSettings { global_transpose, ..old_m.tracks[i].settings }),
        );
        self.global_transpose = global_transpose;
        let mut i: usize = 0;
        while i < self.tracks.len()
            invariant
                self.tracks.len() == old_m.tracks.len(),
                i <= self.tracks.len(),
                global_transpose_fits(old_m, global_transpose),
                goal == Seq::new(
                    old_m.tracks.len(),
                    |q: int| track_with(old_m.tracks[q], FlipSettings { global_transpose, ..old_m.tracks[q].settings }),
                ),
                self@ == (SessionModel { global_transpose, tracks: self@.tracks, ..old_m }),
                forall|q: int| 0 <= q < i ==> (#[trigger] self@.tracks[q]) == goal[q],
                forall|q: int| i <= q < self.tracks.len() ==> (#[trigger] self@.tracks[q]) == old_m.tracks[q],
            decreases self.tracks.len() - i,
        {
            let ghost prev = self@.tracks;
            assert(prev[i as int] == old_m.tracks[i as int]);
            assert(global_transpose_fits(old_m, global_transpose));
            assert(events_flip_fit(
                old_m.tracks[i as int].original,
                FlipSettings { global_transpose, ..old_m.tracks[i as int].settings },
            ));
            self.tracks[i].set_global_transpose(global_transpose);
            assert(self@.tracks =~= prev.update(i as int, goal[i as int]));
            i += 1;
        }
        assert(self@.tracks =~= goal);
    }

    /// Sets the global transposition back to zero.
    pub fn reset_global_transpose(&mut self)
        requires
            old(self).wf(),
        ensures
            final(self).wf(),
            final(self)@ == (SessionModel {
                global_transpose: 0,
                tracks: Seq::new(
                    old(self)@.tracks.len(),
                    |i: int|
                        track_with(
                            old(self)@.tracks[i],
                            FlipSettings { global_transpose: 0, ..old(self)@.tracks[i].settings },
                        ),
                ),
                ..old(self)@
            }),
    {
        let ghost old_m = self@;
        proof {
            let m = self@;
            assert forall|i: int| 0 <= i < m.tracks.len() implies events_flip_fit(
                (#[trigger] m.tracks[i]).original,
                FlipSettings { global_transpose: 0, ..m.tracks[i].settings },
            ) by {
                let st = FlipSettings { global_transpose: 0, ..m.tracks[i].settings };
                assert forall|k: int| 0 <= k < m.tracks[i].original.len() implies message_flip_fits(
                    #[trigger] m.tracks[i].original[k].msg,
                    st,
                ) by {}
            }
        }
        self.set_global_transpose(0);
        assert(self@.tracks =~= Seq::new(
            old_m.tracks.len(),
            |i: int| track_with(old_m.tracks[i], FlipSettings { global_transpose: 0, ..old_m.tracks[i].settings }),
        ));
    }

    /// Sets whether pitch bends are inverted, for the session and every
    /// track.
    pub fn set_flip_bend(&mut self, flip_bend: bool)
        requires
            old(self).wf(),
        ensures
            final(self).wf(),
            final(self)@ == (SessionModel {
                flip_bend,
                tracks: Seq::new(
                    old(self)@.tracks.len(),
                    |i: int|
                        track_with(
                            old(self)@.tracks[i],
                            FlipSettings { global_flip_bend: flip_bend, ..old(self)@.tracks[i].settings },
                        ),
                ),
                ..old(self)@
            }),
    {
        let ghost old_m = self@;
        let ghost goal = Seq::new(
            old_m.tracks.len(),
            |i: int| track_with(old_m.tracks[i], FlipSettings { global_flip_bend: flip_bend, ..old_m.tracks[i].settings }),
        );
        self.flip_bend = flip_bend;
        let mut i: usize = 0;
        while i < self.tracks.len()
            invariant
                self.tracks.len() == old_m.tracks.len(),
                i <= self.tracks.len(),
                goal == Seq::new(
                    old_m.tracks.len(),
                    |q: int| track_with(old_m.tracks[q], FlipSettings { global_flip_bend: flip_bend, ..old_m.tracks[q].settings }),
                ),
                self@ == (SessionModel { flip_bend, tracks: self@.tracks, ..old_m }),
                forall|q: int| 0 <= q < i ==> (#[trigger] self@.tracks[q]) == goal[q],
                forall|q: int| i <= q < self.tracks.len() ==> (#[trigger] self@.tracks[q]) == old_m.tracks[q],
            decreases self.tracks.len() - i,
        {
            let ghost prev = self@.tracks;
            assert(prev[i as int] == old_m.tracks[i as int]);
            self.tracks[i].set_flip_bend(flip_bend);
            assert(self@.tracks =~= prev.update(i as int, goal[i as int]));
            i += 1;
        }
        assert(self@.tracks =~= goal);
    }

    /// Turns flipping of track `index` on or off.
    pub fn set_track_flip_enabled(&mut self, index: usize, flip_enabled: bool)
        requires
            old(self).wf(),
            index < old(self)@.tracks.len(),
        ensures
            final(self).wf(),
            final(self)@ == (SessionModel {
                tracks: old(self)@.tracks.update(
                    index as int,
                    track_with(
                        old(self)@.tracks[index as int],
                        FlipSettings { enabled: flip_enabled, ..old(self)@.tracks[index as int].settings },
                    ),
                ),
                ..old(self)@
            }),
    {
        self.tracks[index].set_flip_enabled(flip_enabled);
        assert(self@.tracks =~= old(self)@.tracks.update(
            index as int,
            track_with(
                old(self)@.tracks[index as int],
                FlipSettings { enabled: flip_enabled, ..old(self)@.tracks[index as int].settings },
            ),
        ));
    }

    /// Whether track `index` can be flipped with its own transposition set
    /// to `transposition` (limited to `-127..=127`).
    pub fn track_transposition_fits(&self, index: usize, transposition: i32) -> (r: bool)
        requires
            index < self@.tracks.len(),
        ensures
            r == events_flip_fit(
                self@.tracks[index as int].original,
                FlipSettings {
                    transpose: clamp_transposition(transposition),
                    ..self@.tracks[index as int].settings
                },
            ),
    {
        let t = &self.tracks[index];
        let clamped = if transposition < -127 {
            -127
        } else if transposition > 127 {
            127
        } else {
            transposition
        };
        t.settings_fit(FlipSettings { transpose: clamped, ..t.settings() })
    }

    /// Sets the own transposition of track `index`, limited to `-127..=127`.
    pub fn set_track_transposition(&mut self, index: usize, transposition: i32)
        requires
            old(self).wf(),
            index < old(self)@.tracks.len(),
            events_flip_fit(
                old(self)@.tracks[index as int].original,
                FlipSettings {
                    transpose: clamp_transposition(transposition),
                    ..old(self)@.tracks[index as int].settings
                },
            ),
        ensures
            final(self).wf(),
            final(self)@ == (SessionModel {
                tracks: old(self)@.tracks.update(
                    index as int,
                    track_with(
                        old(self)@.tracks[index as int],
                        FlipSettings {
                            transpose: clamp_transposition(transposition),
                            ..old(self)@.tracks[index as int].settings
                        },
                    ),
                ),
                ..old(self)@
            }),
    {
        self.tracks[index].set_transposition(transposition);
        assert(self@.tracks =~= old(self)@.tracks.update(
            index as int,
            track_with(
                old(self)@.tracks[index as int],
                FlipSettings {
                    transpose: clamp_transposition(transposition),
                    ..old(self)@.tracks[index as int].settings
                },
            ),
        ));
    }

    /// Whether track `index` can be flipped with the drum-channel exemption
    /// set to `ignore_ch10`.
    pub fn track_ignore_ch10_fits(&self, index: usize, ignore_ch10: bool) -> (r: bool)
        requires
            index < self@.tracks.len(),
        ensures
            r == events_flip_fit(
                self@.tracks[index as int].original,
                FlipSettings { ignore_ch10, ..self@.tracks[index as int].settings },
            ),
    {
        let t = &self.tracks[index];
        t.settings_fit(FlipSettings { ignore_ch10, ..t.settings() })
    }

    /// Sets whether track `index` leaves the drum channel alone.
    pub fn set_track_ignore_ch10(&mut self, index: usize, ignore_ch10: bool)
        requires
            old(self).wf(),
            index < old(self)@.tracks.len(),
            events_flip_fit(
                old(self)@.tracks[index as int].original,
                FlipSettings { ignore_ch10, ..old(self)@.tracks[index as int].settings },
            ),
        ensures
            final(self).wf(),
            final(self)@ == (SessionModel {
                tracks: old(self)@.tracks.update(
                    index as int,
                    track_with(
                        old(self)@.tracks[index as int],
                        FlipSettings { ignore_ch10, ..old(self)@.tracks[index as int].settings },
                    ),
                ),
                ..old(self)@
            }),
    {
        self.tracks[index].set_ignore_ch10(ignore_ch10);
        assert(self@.tracks =~= old(self)@.tracks.update(
            index as int,
            track_with(
                old(self)@.tracks[index as int],
                FlipSettings { ignore_ch10, ..old(self)@.tracks[index as int].settings },
            ),
        ));
    }

    /// Clears every track's change mark. Returns whether the synthesizer
    /// must be given the file again: some track changed and the flipped
    /// file is the one being played.
    pub fn check_for_changes(&mut self) -> (refresh: bool)
        requires
            old(self).wf(),
        ensures
            final(self).wf(),
            final(self)@ == changes_cleared(old(self)@),
            refresh == refresh_needed(old(self)@),
    {
        let ghost old_m = self@;
        let ghost goal = Seq::new(
            old_m.tracks.len(),
            |i: int| SessionTrackModel { changed: false, ..old_m.tracks[i] },
        );
        let mut has_changes = false;
        let mut i: usize = 0;
        while i < self.tracks.len()
            invariant
                self.tracks.len() == old_m.tracks.len(),
                i <= self.tracks.len(),
                goal == Seq::new(old_m.tracks.len(), |q: int| SessionTrackModel { changed: false, ..old_m.tracks[q] }),
                self@ == (SessionModel { tracks: self@.tracks, ..old_m }),
                forall|q: int| 0 <= q < i ==> (#[trigger] self@.tracks[q]) == goal[q],
                forall|q: int| i <= q < self.tracks.len() ==> (#[trigger] self@.tracks[q]) == old_m.tracks[q],
                has_changes == (exists|q: int| 0 <= q < i && (#[trigger] old_m.tracks[q]).changed),
            decreases self.tracks.len() - i,
        {
            let ghost prev = self@.tracks;
            assert(prev[i as int] == old_m.tracks[i as int]);
            let changed = self.tracks[i].clear_changed();
            assert(self@.tracks =~= prev.update(i as int, goal[i as int]));
            proof {
                if changed {
                    assert(old_m.tracks[i as int].changed);
                }
            }
            has_changes = has_changes || changed;
            i += 1;
        }
        assert(self@.tracks =~= goal);
        assert(self@ == changes_cleared(old_m));
        has_changes && !self.playback_original
    }

    /// Chooses whether the original file is played instead of the flipped
    /// one.
    pub fn set_playback_original(&mut self, playback_original: bool)
        requires
            old(self).wf(),
        ensures
            final(self).wf(),
            final(self)@ == (SessionModel { playback_original, ..old(self)@ }),
    {
        self.playback_original = playback_original;
    }

    /// The tick at which the cursor stands: the start of the selected bar
    /// (of the last bar when the selection is past the end; zero without
    /// bars).
    pub fn cursor_pos(&self) -> (r: u64)
        ensures
            r == match cursor_bar(self@) {
                Some(b) => b.start_position,
                None => 0,
            },
    {
        if self.selected_bar >= self.cached_bars.len() {
            if self.cached_bars.len() == 0 {
                0
            } else {
                self.cached_bars[self.cached_bars.len() - 1].start_position
            }
        } else {
            self.cached_bars[self.selected_bar].start_position
        }
    }

    /// The time at which the cursor stands, in nanoseconds (see
    /// `cursor_pos`).
    pub fn cursor_time(&self) -> (r: u64)
        ensures
            r == match cursor_bar(self@) {
                Some(b) => b.start_time,
                None => 0,
            },
    {
        if self.selected_bar >= self.cached_bars.len() {
            if self.cached_bars.len() == 0 {
                0
            } else {
                self.cached_bars[self.cached_bars.len() - 1].start_time
            }
        } else {
            self.cached_bars[self.selected_bar].start_time
        }
    }

    /// The bar that tick `pos` falls in (see `bar_index_from`).
    fn bar_index(&self, pos: u64) -> (r: usize)
        ensures
            r == bar_index_from(self@.bars, pos, 0),
    {
        let mut k: usize = 0;
        while k < self.cached_bars.len()
            invariant
                k <= self.cached_bars.len(),
                bar_index_from(self@.bars, pos, 0) == bar_index_from(self@.bars, pos, k as int),
            decreases self.cached_bars.len() - k,
        {
            let ends_later = match self.cached_bars[k].end_position {
                Some(e) => pos < e,
                None => true,
            };
            if ends_later {
                return k;
            }
            k += 1;
        }
        0
    }

    /// Moves the cursor to the bar that tick `cursor_pos` falls in: the
    /// first bar that ends after it, or the first bar when none does.
    pub fn set_cursor_pos(&mut self, cursor_pos: u64)
        requires
            old(self).wf(),
        ensures
            final(self).wf(),
            final(self)@ == (SessionModel {
                selected_bar: bar_index_from(old(self)@.bars, cursor_pos, 0) as usize,
                ..old(self)@
            }),
    {
        let index = self.bar_index(cursor_pos);
        self.selected_bar = index;
    }

    /// The tick at which the playhead is drawn at playback time `time`
    /// (nanoseconds): the start of the first bar that has not ended by then
    /// (an open-ended bar never ends); `None` when every bar has.
    pub fn playhead_pos(&self, time: u64) -> (r: Option<u64>)
        ensures
            r == playhead_from(self@.bars, time, 0),
    {
        let mut k: usize = 0;
        while k < self.cached_bars.len()
            invariant
                k <= self.cached_bars.len(),
                playhead_from(self@.bars, time, 0) == playhead_from(self@.bars, time, k as int),
            decreases self.cached_bars.len() - k,
        {
            let bar = self.cached_bars[k];
            let ended = match bar.end_time {
                Some(e) => e < time,
                None => false,
            };
            if !ended {
                return Some(bar.start_position);
            }
            k += 1;
        }
        None
    }

    /// The file of the tracks' original events.
    pub fn assemble_original_midi(&self) -> (r: MidiFileData)
        requires
            self.wf(),
        ensures
            assembled(self@, r, false),
    {
        self.assemble(false)
    }

    /// The file of the events the tracks play: flipped where flipping is
    /// on.
    pub fn assemble_flipped_midi(&self) -> (r: MidiFileData)
        requires
            self.wf(),
        ensures
            assembled(self@, r, true),
    {
        self.assemble(true)
    }

    fn assemble(&self, flipped: bool) -> (r: MidiFileData)
        requires
            self.wf(),
        ensures
            assembled(self@, r, flipped),
    {
        let mut tracks: Vec<TrackData> = Vec::new();
        let mut i: usize = 0;
        while i < self.tracks.len()
            invariant
                self.wf(),
                i <= self.tracks.len(),
                tracks.len() == i,
                forall|q: int|
                    0 <= q < i ==> (#[trigger] tracks@[q]) is Midi && track_events(tracks@[q]) == track_from_region(
                        if flipped {
                            played_events(self@.tracks[q])
                        } else {
                            self@.tracks[q].original
                        },
                    ),
            decreases self.tracks.len() - i,
        {
            let t = &self.tracks[i];
            assert(self@.tracks[i as int] == t@);
            let data: &TrackMidiData = if flipped && t.flip_enabled() {
                t.track_flipped()
            } else {
                t.track_original()
            };
            proof {
                assert(ticks_nondecreasing(t@.original));
                lemma_flip_keeps_timing(t@.original, t@.settings);
            }
            let events = data.midi_region().to_midi_track();
            tracks.push(TrackData::Midi(events));
            i += 1;
        }
        MidiFileData { header: self.midi_header, tracks }
    }

    /// The regions the synthesizer plays: the original events of every
    /// track when the original is chosen, else the events each track plays.
    pub fn playback_regions(&self) -> (r: Vec<MidiRegion>)
        ensures
            r.len() == self@.tracks.len(),
            forall|i: int|
                0 <= i < r.len() ==> (#[trigger] r@[i])@ == if self@.playback_original {
                    self@.tracks[i].original
                } else {
                    played_events(self@.tracks[i])
                },
    {
        let mut regions: Vec<MidiRegion> = Vec::new();
        let mut i: usize = 0;
        while i < self.tracks.len()
            invariant
                i <= self.tracks.len(),
                regions.len() == i,
                forall|q: int|
                    0 <= q < i ==> (#[trigger] regions@[q])@ == if self@.playback_original {
                        self@.tracks[q].original
                    } else {
                        played_events(self@.tracks[q])
                    },
            decreases self.tracks.len() - i,
        {
            let t = &self.tracks[i];
            assert(self@.tracks[i as int] == t@);
            let data: &TrackMidiData = if !self.playback_original && t.flip_enabled() {
                t.track_flipped()
            } else {
                t.track_original()
            };
            regions.push(data.midi_region().duplicate());
            i += 1;
        }
        regions
    }
}

/// Once the changes are looked at, looking again without a change in
/// between asks for no refresh.
pub proof fn lemma_second_check_quiet(m: SessionModel)
    ensures
        !refresh_needed(changes_cleared(m)),
{
}

/// With flipping off on every track, the flipped file is the original
/// file.
pub proof fn lemma_unflipped_assembly(m: SessionModel, file: MidiFileData)
    requires
        forall|i: int| 0 <= i < m.tracks.len() ==> !(#[trigger] m.tracks[i]).settings.enabled,
    ensures
        assembled(m, file, true) == assembled(m, file, false),
{
    assert forall|i: int| 0 <= i < m.tracks.len() implies #[trigger] played_events(m.tracks[i])
        == m.tracks[i].original by {}
}

/// The cursor always lands on a bar when there is one: the first bar that
/// ends after the tick, or the first bar when none does.
pub proof fn lemma_bar_index_in_range(bars: Seq<CachedBar>, pos: u64, k: int)
    requires
        0 <= k <= bars.len(),
    ensures
        ({
            let i = bar_index_from(bars, pos, k);
            &&& 0 <= i
            &&& bars.len() > 0 ==> i < bars.len()
            &&& (exists|j: int| k <= j < bars.len() && ends_after(#[trigger] bars[j], pos)) ==> {
                &&& k <= i
                &&& ends_after(bars[i], pos)
                &&& forall|j: int| k <= j < i ==> !ends_after(#[trigger] bars[j], pos)
            }
            &&& !(exists|j: int| k <= j < bars.len() && ends_after(#[trigger] bars[j], pos)) ==> i == 0
        }),
    decreases bars.len() - k,
{
    if k < bars.len() {
        lemma_bar_index_in_range(bars, pos, k + 1);
        if !ends_after(bars[k], pos) {
            if exists|j: int| k <= j < bars.len() && ends_after(#[trigger] bars[j], pos) {
                let j = choose|j: int| k <= j < bars.len() && ends_after(#[trigger] bars[j], pos);
                assert(k + 1 <= j);
            }
        }
    }
}

/// The tracks of a session made from a file hold the file's chunks' events
/// in their order, at their absolute ticks, with their messages: all of
/// them up to the first that would reach tick `u32::MAX`, and in
/// nondecreasing time.
pub proof fn lemma_session_follows_file(name: Seq<char>, file: MidiFileData, m: SessionModel)
    requires
        session_of_file(name, file, m),
    ensures
        m.tracks.len() == file.tracks.len(),
        forall|i: int|
            #![trigger m.tracks[i]]
            0 <= i < m.tracks.len() ==> {
                let r = m.tracks[i].original;
                let evs = track_events(file.tracks@[i]);
                &&& r.len() <= evs.len()
                &&& forall|q: int|
                    0 <= q < r.len() ==> (#[trigger] r[q]).tick == abs_tick(evs, q) && r[q].msg == evs[q].msg
                &&& forall|q: int| r.len() <= q < evs.len() ==> abs_tick(evs, q) >= u32::MAX
                &&& ticks_nondecreasing(r)
            },
{
    let tr = file_events(file.tracks@);
    let steps = choose|steps: Seq<Step>|
        #[trigger] is_schedule(file_events(file.tracks@), steps) && m.tracks == Seq::new(
            file.tracks.len() as nat,
            |i: int| track_of_file(file, steps, i),
        );
    assert forall|i: int| 0 <= i < m.tracks.len() implies {
        let r = #[trigger] m.tracks[i].original;
        let evs = track_events(file.tracks@[i]);
        &&& r.len() <= evs.len()
        &&& forall|q: int|
            0 <= q < r.len() ==> (#[trigger] r[q]).tick == abs_tick(evs, q) && r[q].msg == evs[q].msg
        &&& forall|q: int| r.len() <= q < evs.len() ==> abs_tick(evs, q) >= u32::MAX
        &&& ticks_nondecreasing(r)
    } by {
        lemma_regions_follow_tracks(tr, steps, times_of(file.header.division, steps), i);
        assert(tr[i] == track_events(file.tracks@[i]));
    }
}

/// A file assembled from a session and read back plays the same: every
/// track's region, cut from the file's playing order, holds the events the
/// track gives the file (flipped or original), at the same ticks and with
/// the same messages.
pub proof fn lemma_reassembled_file_plays_the_same(
    m: SessionModel,
    file: MidiFileData,
    flipped: bool,
    steps: Seq<Step>,
    times: Seq<u64>,
    i: int,
)
    requires
        session_wf(m),
        assembled(m, file, flipped),
        is_schedule(file_events(file.tracks@), steps),
        times.len() == steps.len(),
        0 <= i < m.tracks.len(),
    ensures
        ({
            let r = region_of(file_events(file.tracks@), steps, times, i, steps.len() as int);
            let p = if flipped {
                played_events(m.tracks[i])
            } else {
                m.tracks[i].original
            };
            &&& r.len() == p.len()
            &&& forall|q: int| 0 <= q < r.len() ==> (#[trigger] r[q]).tick == p[q].tick && r[q].msg == p[q].msg
        }),
{
    let tr = file_events(file.tracks@);
    let t = m.tracks[i];
    let p = if flipped {
        played_events(t)
    } else {
        t.original
    };
    lemma_flip_keeps_timing(t.original, t.settings);
    assert(ticks_nondecreasing(p)) by {
        assert(ticks_nondecreasing(t.original));
    }
    assert(tr[i] == track_from_region(p));
    lemma_regions_follow_tracks(tr, steps, times, i);
    let r = region_of(tr, steps, times, i, steps.len() as int);
    assert forall|q: int| 0 <= q < p.len() implies abs_tick(tr[i], q) == p[q].tick && tr[i][q].msg == p[q].msg
        && p[q].tick < u32::MAX by {
        lemma_delta_round_trip(p, q);
        assert(t.original[q].tick < u32::MAX);
    }
    if r.len() < p.len() {
        let q = r.len() as int;
        assert(abs_tick(tr[i], q) >= u32::MAX);
        assert(p[q].tick < u32::MAX);
    }
}

} // verus!
