//! The bar grid of a song: where its beats fall, which of them start a bar,
//! and the meta events shown on the time line.
use vstd::prelude::*;

use crate::merge::{abs_tick, is_schedule, schedule, Step, track_ticks_fit, file_events};
use crate::midi::{track_events, Division, MetaInfo, Message, MidiEvent, MidiRegion, TrackData, TrackEvent, DEFAULT_TEMPO};
use crate::timing::{lemma_tick_ns_nonneg, saturate, tick_duration_ns, tick_ns};

verus! {

/// The tick at which event `j` is reached when a track is read tick by
/// tick: the largest tick among it and the events before it.
pub open spec fn reached_tick(evs: Seq<MidiEvent>, j: int) -> int
    decreases j + 1,
{
    if j < 0 || j >= evs.len() {
        0
    } else {
        let prev = reached_tick(evs, j - 1);
        if evs[j].tick > prev {
            evs[j].tick as int
        } else {
            prev
        }
    }
}

/// A region's events with delta times that lead to the ticks at which they
/// are reached.
pub open spec fn reached_track(evs: Seq<MidiEvent>) -> Seq<TrackEvent> {
    Seq::new(
        evs.len(),
        |j: int|
            TrackEvent {
                delta_time: (reached_tick(evs, j) - reached_tick(evs, j - 1)) as u32,
                msg: evs[j].msg,
            },
    )
}

proof fn lemma_reached_bounds(evs: Seq<MidiEvent>, j: int)
    requires
        -1 <= j < evs.len(),
    ensures
        0 <= reached_tick(evs, j) <= u32::MAX,
        j >= 0 ==> reached_tick(evs, j - 1) <= reached_tick(evs, j),
        j >= 0 ==> evs[j].tick <= reached_tick(evs, j),
    decreases j + 1,
{
    if j >= 0 {
        lemma_reached_bounds(evs, j - 1);
    }
}

proof fn lemma_reached_abs(evs: Seq<MidiEvent>, j: int)
    requires
        -1 <= j < evs.len(),
    ensures
        abs_tick(reached_track(evs), j) == reached_tick(evs, j),
    decreases j + 1,
{
    if j >= 0 {
        lemma_reached_abs(evs, j - 1);
        lemma_reached_bounds(evs, j);
    }
}

/// The events of a region as a file track whose absolute ticks are the
/// ticks at which the events are reached.
fn reached_track_of(region: &MidiRegion) -> (r: Vec<TrackEvent>)
    ensures
        r@ == reached_track(region@),
{
    let events = region.events();
    let mut out: Vec<TrackEvent> = Vec::new();
    let mut reached: u32 = 0;
    let mut j: usize = 0;
    while j < events.len()
        invariant
            events@ == region@,
            j <= events.len(),
            reached == reached_tick(region@, j - 1),
            out@ == reached_track(region@).take(j as int),
        decreases events.len() - j,
    {
        proof {
            lemma_reached_bounds(region@, j as int);
        }
        let tick = events[j].tick;
        let next = if tick > reached {
            tick
        } else {
            reached
        };
        out.push(TrackEvent { delta_time: next - reached, msg: events[j].msg.duplicate() });
        reached = next;
        j += 1;
        assert(out@ =~= reached_track(region@).take(j as int));
    }
    assert(reached_track(region@).take(j as int) =~= reached_track(region@));
    out
}

/// The time signature a step sets, if it sets one.
pub open spec fn step_signature(tr: Seq<Seq<TrackEvent>>, s: Step) -> Option<u16> {
    match tr[s.track as int][s.event as int].msg.meta() {
        MetaInfo::TimeSignature(ts) => Some(ts.denominator),
        _ => None,
    }
}

/// The tempo a step sets, if it sets one.
pub open spec fn step_tempo(tr: Seq<Seq<TrackEvent>>, s: Step) -> Option<u32> {
    match tr[s.track as int][s.event as int].msg.meta() {
        MetaInfo::SetTempo(t) => Some(t),
        _ => None,
    }
}

/// The denominator of the last time signature among the first `m` steps
/// that are at tick `t`.
pub open spec fn signature_at(tr: Seq<Seq<TrackEvent>>, steps: Seq<Step>, t: int, m: int) -> Option<u16>
    decreases m,
{
    if m <= 0 {
        None
    } else {
        let s = steps[m - 1];
        if s.tick == t && step_signature(tr, s) is Some {
            step_signature(tr, s)
        } else {
            signature_at(tr, steps, t, m - 1)
        }
    }
}

/// The last tempo change among the first `m` steps that are at tick `t`.
pub open spec fn tempo_at(tr: Seq<Seq<TrackEvent>>, steps: Seq<Step>, t: int, m: int) -> Option<u32>
    decreases m,
{
    if m <= 0 {
        None
    } else {
        let s = steps[m - 1];
        if s.tick == t && step_tempo(tr, s) is Some {
            step_tempo(tr, s)
        } else {
            tempo_at(tr, steps, t, m - 1)
        }
    }
}

/// The state of the grid while the song is read tick by tick: the beat
/// unit (the time signature's denominator), the beat's place in its bar,
/// the tick of the next beat, the tempo, the time elapsed in nanoseconds,
/// and the beats so far (with whether each starts a bar) with their times.
pub struct GridState {
    pub den: int,
    pub beat: int,
    pub next_beat: int,
    pub tempo: u32,
    pub elapsed: int,
    pub beats: Seq<(u64, bool)>,
    pub times: Seq<u64>,
}

/// Tick `t` read: a time signature at `t` sets the beat unit and starts a
/// bar, a tempo change sets the tempo; if `t` is the next beat, it is
/// placed at the time elapsed so far, and the next beat is a whole note
/// (four quarter notes) divided by the beat unit further on. Then the tick
/// lasts one tick length at the tempo.
pub open spec fn grid_step(
    st: GridState,
    sig: Option<u16>,
    tempo_change: Option<u32>,
    ticks_per_quarter: u16,
    t: int,
) -> GridState {
    let (den, beat) = match sig {
        Some(d) => (d as int, 0int),
        None => (st.den, st.beat),
    };
    let tempo = match tempo_change {
        Some(tp) => tp,
        None => st.tempo,
    };
    let elapsed = st.elapsed + tick_ns(Division::TicksPerQuarterNote(ticks_per_quarter), tempo);
    if t == st.next_beat {
        GridState {
            den,
            beat: (beat + 1) % den,
            next_beat: st.next_beat + (4 * ticks_per_quarter) / den,
            tempo,
            elapsed,
            beats: st.beats.push((t as u64, beat == 0)),
            times: st.times.push(saturate(st.elapsed)),
        }
    } else {
        GridState { den, beat, next_beat: st.next_beat, tempo, elapsed, beats: st.beats, times: st.times }
    }
}

/// The grid after ticks `0..t` are read (four beats to the bar and the
/// default tempo until events say otherwise).
pub open spec fn grid_after(tr: Seq<Seq<TrackEvent>>, steps: Seq<Step>, ticks_per_quarter: u16, t: int) -> GridState
    decreases t,
{
    if t <= 0 {
        GridState {
            den: 4,
            beat: 0,
            next_beat: 0,
            tempo: DEFAULT_TEMPO,
            elapsed: 0,
            beats: Seq::empty(),
            times: Seq::empty(),
        }
    } else {
        grid_step(
            grid_after(tr, steps, ticks_per_quarter, t - 1),
            signature_at(tr, steps, t - 1, steps.len() as int),
            tempo_at(tr, steps, t - 1, steps.len() as int),
            ticks_per_quarter,
            t - 1,
        )
    }
}

/// The last tick the grid reaches: one past the last event, or zero.
pub open spec fn grid_end(steps: Seq<Step>) -> int {
    if steps.len() == 0 {
        0
    } else {
        steps.last().tick + 1
    }
}

/// The meta events the time line shows (time signatures, markers, ends of
/// tracks and tempo changes), with the tick at which they are reached, in
/// reading order, among the first `m` steps.
pub open spec fn markers_of(tr: Seq<Seq<TrackEvent>>, steps: Seq<Step>, m: int) -> Seq<(u64, MetaInfo)>
    decreases m,
{
    if m <= 0 {
        Seq::empty()
    } else {
        let prev = markers_of(tr, steps, m - 1);
        let s = steps[m - 1];
        let meta = tr[s.track as int][s.event as int].msg.meta();
        match meta {
            MetaInfo::TimeSignature(_) => prev.push((s.tick as u64, meta)),
            MetaInfo::Marker(_) => prev.push((s.tick as u64, meta)),
            MetaInfo::EndOfTrack => prev.push((s.tick as u64, meta)),
            MetaInfo::SetTempo(_) => prev.push((s.tick as u64, meta)),
            _ => prev,
        }
    }
}

/// Every time signature of a track has a nonzero denominator.
pub open spec fn track_signatures_nonzero(evs: Seq<TrackEvent>) -> bool {
    forall|j: int|
        0 <= j < evs.len() ==> match (#[trigger] evs[j]).msg.meta() {
            MetaInfo::TimeSignature(ts) => ts.denominator > 0,
            _ => true,
        }
}

/// Every time signature among the events has a nonzero denominator.
pub open spec fn signatures_nonzero(tr: Seq<Seq<TrackEvent>>) -> bool {
    forall|i: int| 0 <= i < tr.len() ==> track_signatures_nonzero(#[trigger] tr[i])
}

/// A bar of the grid: from its first beat to the next bar's first beat,
/// in ticks and in nanoseconds (`None`: open-ended).
#[derive(Debug, Clone, Copy, PartialEq, Eq)]
pub struct CachedBar {
    pub start_time: u64,
    pub start_position: u64,
    pub end_time: Option<u64>,
    pub end_position: Option<u64>,
}

/// The bars that follow beats placed at `times`: bar `k` runs from beat `k`
/// to beat `k + 1`, the last one is open-ended.
pub open spec fn bars_of(beats: Seq<(u64, bool)>, times: Seq<u64>) -> Seq<CachedBar> {
    Seq::new(
        beats.len(),
        |k: int|
            CachedBar {
                start_time: times[k],
                start_position: beats[k].0,
                end_time: if k + 1 < beats.len() {
                    Some(times[k + 1])
                } else {
                    None
                },
                end_position: if k + 1 < beats.len() {
                    Some(beats[k + 1].0)
                } else {
                    None
                },
            },
    )
}

/// The tracks as they are read tick by tick.
pub open spec fn reading_tracks(regions: Seq<Seq<MidiEvent>>) -> Seq<Seq<TrackEvent>> {
    regions.map_values(|r: Seq<MidiEvent>| reached_track(r))
}

/// The tracks of regions as they are read tick by tick.
pub open spec fn reading_of(regions: Seq<MidiRegion>) -> Seq<Seq<TrackEvent>> {
    reading_tracks(regions.map_values(|r: MidiRegion| r@))
}

/// The grid of a song in metrical time, its bars and its time-line events.
pub struct Grid {
    pub beats: Vec<(u64, bool)>,
    pub bars: Vec<CachedBar>,
    pub markers: Vec<(u64, MetaInfo)>,
}

/// The grid that reading `regions` tick by tick gives, with
/// `ticks_per_quarter` ticks to a quarter note: `steps` is the reading order.
pub open spec fn is_grid_of(
    rtr: Seq<Seq<TrackEvent>>,
    steps: Seq<Step>,
    ticks_per_quarter: u16,
    beats: Seq<(u64, bool)>,
    bars: Seq<CachedBar>,
    markers: Seq<(u64, MetaInfo)>,
) -> bool {
    let st = grid_after(rtr, steps, ticks_per_quarter, grid_end(steps) + 1);
    &&& is_schedule(rtr, steps)
    &&& beats == st.beats
    &&& bars == bars_of(st.beats, st.times)
    &&& markers == markers_of(rtr, steps, steps.len() as int)
}

proof fn lemma_block_skip(tr: Seq<Seq<TrackEvent>>, steps: Seq<Step>, t: int, m1: int, m2: int)
    requires
        0 <= m1 <= m2 <= steps.len(),
        forall|k: int| m1 <= k < m2 ==> (#[trigger] steps[k]).tick != t,
    ensures
        signature_at(tr, steps, t, m2) == signature_at(tr, steps, t, m1),
        tempo_at(tr, steps, t, m2) == tempo_at(tr, steps, t, m1),
    decreases m2 - m1,
{
    if m2 > m1 {
        lemma_block_skip(tr, steps, t, m1, m2 - 1);
    }
}

/// The regions as file tracks whose absolute ticks are the ticks at which
/// their events are reached.
fn reading_tracks_of(regions: &Vec<MidiRegion>) -> (tracks: Vec<TrackData>)
    requires
        forall|i: int, j: int|
            0 <= i < regions.len() && 0 <= j < regions@[i]@.len() ==> (#[trigger] regions@[i]@[j]).tick
                < u32::MAX,
    ensures
        file_events(tracks@) == reading_of(regions@),
        forall|q: int| 0 <= q < tracks.len() ==> track_ticks_fit(#[trigger] track_events(tracks@[q])),
{
    let ghost rtr = reading_of(regions@);
    let n = regions.len();
    let mut tracks: Vec<TrackData> = Vec::new();
    let mut i: usize = 0;
    while i < n
        invariant
            n == regions.len(),
            i <= n,
            tracks.len() == i,
            rtr == reading_of(regions@),
            forall|q: int| 0 <= q < i ==> track_events(#[trigger] tracks@[q]) == rtr[q],
        decreases n - i,
    {
        let t = reached_track_of(&regions[i]);
        tracks.push(TrackData::Midi(t));
        i += 1;
    }
    assert(file_events(tracks@) =~= rtr);
    assert forall|q: int| 0 <= q < tracks.len() implies track_ticks_fit(#[trigger] track_events(tracks@[q])) by {
        let evs = regions@[q]@;
        assert(track_events(tracks@[q]) == reached_track(evs));
        assert forall|j: int| 0 <= j < evs.len() implies #[trigger] abs_tick(reached_track(evs), j) <= u32::MAX by {
            lemma_reached_abs(evs, j);
            lemma_reached_bounds(evs, j);
        }
    }
    tracks
}

/// The time-line events along a reading order.
fn markers_along(tracks: &Vec<TrackData>, steps: &Vec<Step>) -> (markers: Vec<(u64, MetaInfo)>)
    requires
        is_schedule(file_events(tracks@), steps@),
    ensures
        markers@ == markers_of(file_events(tracks@), steps@, steps.len() as int),
{
    let ghost rtr = file_events(tracks@);
    let mut markers: Vec<(u64, MetaInfo)> = Vec::new();
    let mut k: usize = 0;
    while k < steps.len()
        invariant
            k <= steps.len(),
            rtr == file_events(tracks@),
            is_schedule(rtr, steps@),
            markers@ == markers_of(rtr, steps@, k as int),
        decreases steps.len() - k,
    {
        let s = steps[k];
        assert(crate::merge::step_valid(rtr, steps@[k as int]));
        let t = &tracks[s.track];
        assert(track_events(*t) == rtr[s.track as int]);
        let e = t.event(s.event);
        if let Message::Other { meta, .. } = &e.msg {
            match meta {
                MetaInfo::TimeSignature(_) | MetaInfo::Marker(_) | MetaInfo::EndOfTrack | MetaInfo::SetTempo(
                    _,
                ) => {
                    markers.push((s.tick as u64, meta.duplicate()));
                },
                _ => {},
            }
        }
        k += 1;
    }
    markers
}

/// The time signature (denominator) and the tempo set at tick `t`,
/// reading the steps from `p` on; returns them and the first step past
/// tick `t`.
fn signature_block(tracks: &Vec<TrackData>, steps: &Vec<Step>, t: u64, p: usize) -> (r: (
    Option<u16>,
    Option<u32>,
    usize,
))
    requires
        is_schedule(file_events(tracks@), steps@),
        signatures_nonzero(file_events(tracks@)),
        p <= steps.len(),
        forall|q: int| 0 <= q < p ==> (#[trigger] steps@[q]).tick < t,
        forall|q: int| p <= q < steps.len() ==> (#[trigger] steps@[q]).tick >= t,
    ensures
        r.0 == signature_at(file_events(tracks@), steps@, t as int, steps.len() as int),
        r.1 == tempo_at(file_events(tracks@), steps@, t as int, steps.len() as int),
        r.0 matches Some(d) ==> d > 0,
        p <= r.2 <= steps.len(),
        forall|q: int| 0 <= q < r.2 ==> (#[trigger] steps@[q]).tick < t + 1,
        forall|q: int| r.2 <= q < steps.len() ==> (#[trigger] steps@[q]).tick >= t + 1,
{
    let ghost rtr = file_events(tracks@);
    let ghost S = steps@;
    let mut p = p;
    let p0 = p;
    let mut sig: Option<u16> = None;
    let mut tempo: Option<u32> = None;
    proof {
        lemma_block_skip(rtr, S, t as int, 0, p as int);
    }
    while p < steps.len() && steps[p].tick as u64 == t
        invariant
            S == steps@,
            rtr == file_events(tracks@),
            is_schedule(rtr, S),
            signatures_nonzero(rtr),
            p0 <= p <= S.len(),
            forall|q: int| 0 <= q < p0 ==> (#[trigger] S[q]).tick < t,
            forall|q: int| p0 <= q < p ==> (#[trigger] S[q]).tick == t,
            forall|q: int| p0 <= q < S.len() ==> (#[trigger] S[q]).tick >= t,
            sig == signature_at(rtr, S, t as int, p as int),
            tempo == tempo_at(rtr, S, t as int, p as int),
            sig matches Some(d) ==> d > 0,
        decreases S.len() - p,
    {
        let s = steps[p];
        assert(crate::merge::step_valid(rtr, S[p as int]));
        let tr_ = &tracks[s.track];
        assert(track_events(*tr_) == rtr[s.track as int]);
        let e = tr_.event(s.event);
        assert(rtr[s.track as int][s.event as int] == *e);
        if let Message::Other { meta, .. } = &e.msg {
            match meta {
                MetaInfo::TimeSignature(ts) => {
                    sig = Some(ts.denominator);
                },
                MetaInfo::SetTempo(tp) => {
                    tempo = Some(*tp);
                },
                _ => {},
            }
        }
        p += 1;
    }
    proof {
        assert forall|q: int| p <= q < S.len() implies (#[trigger] S[q]).tick != t && S[q].tick >= t + 1 by {
            if q > p {
                assert(crate::merge::step_before(S[p as int], S[q]));
            }
        }
        lemma_block_skip(rtr, S, t as int, p as int, S.len() as int);
    }
    (sig, tempo, p)
}

/// The time of a tick's start, `elapsed` nanoseconds, as a `u64`.
fn saturated_time(elapsed: u128) -> (r: u64)
    ensures
        r == saturate(elapsed as int),
{
    if elapsed > u64::MAX as u128 {
        u64::MAX
    } else {
        elapsed as u64
    }
}

/// The beats of the grid along a reading order, with their times.
#[verifier::rlimit(40)]
#[verifier::spinoff_prover]
fn beats_along(tracks: &Vec<TrackData>, steps: &Vec<Step>, ticks_per_quarter: u16) -> (r: (
    Vec<(u64, bool)>,
    Vec<u64>,
))
    requires
        is_schedule(file_events(tracks@), steps@),
        signatures_nonzero(file_events(tracks@)),
    ensures
        r.0@ == grid_after(file_events(tracks@), steps@, ticks_per_quarter, grid_end(steps@) + 1).beats,
        r.1@ == grid_after(file_events(tracks@), steps@, ticks_per_quarter, grid_end(steps@) + 1).times,
{
    let ghost rtr = file_events(tracks@);
    let ghost S = steps@;
    let end: u64 = if steps.len() == 0 {
        0
    } else {
        steps[steps.len() - 1].tick as u64 + 1
    };
    proof {
        if S.len() > 0 {
            assert(crate::merge::step_valid(rtr, S[S.len() - 1]));
        }
        assert forall|q: int| 0 <= q < S.len() implies (#[trigger] S[q]).tick >= 0 by {}
    }
    let ticks_in_whole: u64 = ticks_per_quarter as u64 * 4;
    let mut den: u16 = 4;
    let mut beat: u16 = 0;
    let mut next_beat: u64 = 0;
    let mut tempo: u32 = DEFAULT_TEMPO;
    let mut elapsed: u128 = 0;
    let mut beats: Vec<(u64, bool)> = Vec::new();
    let mut times: Vec<u64> = Vec::new();
    let mut p: usize = 0;
    let mut t: u64 = 0;
    while t <= end
        invariant
            S == steps@,
            rtr == file_events(tracks@),
            is_schedule(rtr, S),
            signatures_nonzero(rtr),
            end == grid_end(S),
            end <= u32::MAX + 1,
            ticks_in_whole == 4 * ticks_per_quarter,
            t <= end + 1,
            0 < den,
            beat < den,
            next_beat <= t + ticks_in_whole,
            elapsed <= t * 0x400_0000_0000,
            grid_after(rtr, S, ticks_per_quarter, t as int) == (GridState {
                den: den as int,
                beat: beat as int,
                next_beat: next_beat as int,
                tempo,
                elapsed: elapsed as int,
                beats: beats@,
                times: times@,
            }),
            p <= S.len(),
            forall|q: int| 0 <= q < p ==> (#[trigger] S[q]).tick < t,
            forall|q: int| p <= q < S.len() ==> (#[trigger] S[q]).tick >= t,
        decreases end + 1 - t,
    {
        let (sig, tempo_change, np) = signature_block(tracks, steps, t, p);
        p = np;
        if let Some(d) = sig {
            den = d;
            beat = 0;
        }
        if let Some(tp) = tempo_change {
            tempo = tp;
        }
        if t == next_beat {
            beats.push((t, beat == 0));
            times.push(saturated_time(elapsed));
            next_beat = next_beat + ticks_in_whole / den as u64;
            beat = (beat + 1) % den;
        }
        let tick: u64 = if ticks_per_quarter == 0 {
            0
        } else {
            tick_duration_ns(Division::TicksPerQuarterNote(ticks_per_quarter), tempo)
        };
        elapsed = elapsed + tick as u128;
        t += 1;
    }
    (beats, times)
}

/// The bars that follow the beats placed at `times`.
fn bars_along(beats: &Vec<(u64, bool)>, times: &Vec<u64>) -> (bars: Vec<CachedBar>)
    requires
        times.len() == beats.len(),
    ensures
        bars@ == bars_of(beats@, times@),
{
    let mut bars: Vec<CachedBar> = Vec::new();
    let mut b: usize = 0;
    while b < beats.len()
        invariant
            b <= beats.len(),
            times.len() == beats.len(),
            bars@ == bars_of(beats@, times@).take(b as int),
        decreases beats.len() - b,
    {
        let (end_time, end_position) = if b + 1 < beats.len() {
            (Some(times[b + 1]), Some(beats[b + 1].0))
        } else {
            (None, None)
        };
        bars.push(CachedBar { start_time: times[b], start_position: beats[b].0, end_time, end_position });
        b += 1;
        assert(bars@ =~= bars_of(beats@, times@).take(b as int));
    }
    assert(bars_of(beats@, times@).take(b as int) =~= bars_of(beats@, times@));
    bars
}

/// Reads the regions tick by tick, with `ticks_per_quarter` ticks to a
/// quarter note, and lays out the grid: a beat wherever the next beat is
/// due, bars from beat to beat, and the time-line events.
pub fn generate_grid(ticks_per_quarter: u16, regions: &Vec<MidiRegion>) -> (g: Grid)
    requires
        forall|i: int, j: int|
            0 <= i < regions.len() && 0 <= j < regions@[i]@.len() ==> (#[trigger] regions@[i]@[j]).tick
                < u32::MAX,
        signatures_nonzero(reading_of(regions@)),
    ensures
        exists|steps: Seq<Step>|
            #[trigger] is_grid_of(reading_of(regions@), steps, ticks_per_quarter, g.beats@, g.bars@, g.markers@),
{
    let tracks = reading_tracks_of(regions);
    let steps = schedule(&tracks);
    let markers = markers_along(&tracks, &steps);
    let (beats, times) = beats_along(&tracks, &steps, ticks_per_quarter);
    proof {
        lemma_grid_times_follow_beats(file_events(tracks@), steps@, ticks_per_quarter, grid_end(steps@) + 1);
    }
    let bars = bars_along(&beats, &times);
    let g = Grid { beats, bars, markers };
    assert(is_grid_of(reading_of(regions@), steps@, ticks_per_quarter, g.beats@, g.bars@, g.markers@));
    g
}

/// Every beat of the grid has a time.
proof fn lemma_grid_times_follow_beats(tr: Seq<Seq<TrackEvent>>, steps: Seq<Step>, ticks_per_quarter: u16, t: int)
    ensures
        grid_after(tr, steps, ticks_per_quarter, t).times.len() == grid_after(
            tr,
            steps,
            ticks_per_quarter,
            t,
        ).beats.len(),
    decreases t,
{
    if t > 0 {
        lemma_grid_times_follow_beats(tr, steps, ticks_per_quarter, t - 1);
    }
}

/// Each bar ends where the next begins, in ticks and in time, and only
/// the last bar is open-ended.
pub proof fn lemma_bars_contiguous(beats: Seq<(u64, bool)>, times: Seq<u64>)
    requires
        times.len() == beats.len(),
    ensures
        bars_of(beats, times).len() == beats.len(),
        forall|k: int|
            0 <= k < beats.len() - 1 ==> (#[trigger] bars_of(beats, times)[k]).end_position == Some(
                bars_of(beats, times)[k + 1].start_position,
            ) && bars_of(beats, times)[k].end_time == Some(bars_of(beats, times)[k + 1].start_time),
        beats.len() > 0 ==> bars_of(beats, times).last().end_position is None,
{
}

/// The grid's beats lie at strictly increasing ticks before the tick read
/// last, at nondecreasing times; once any tick is read, the first beat is
/// at tick zero and starts a bar.
pub proof fn lemma_grid_beats_ordered(tr: Seq<Seq<TrackEvent>>, steps: Seq<Step>, ticks_per_quarter: u16, t: int)
    requires
        0 <= t <= u64::MAX,
    ensures
        ({
            let st = grid_after(tr, steps, ticks_per_quarter, t);
            &&& st.times.len() == st.beats.len()
            &&& forall|a: int, b: int|
                0 <= a < b < st.beats.len() ==> (#[trigger] st.beats[a]).0 < (#[trigger] st.beats[b]).0
            &&& forall|a: int, b: int|
                0 <= a < b < st.times.len() ==> (#[trigger] st.times[a]) <= (#[trigger] st.times[b])
            &&& forall|a: int| 0 <= a < st.beats.len() ==> (#[trigger] st.beats[a]).0 < t
            &&& forall|a: int| 0 <= a < st.times.len() ==> (#[trigger] st.times[a]) <= saturate(st.elapsed)
            &&& st.elapsed >= 0
            &&& t > 0 ==> st.beats.len() > 0 && st.beats[0] == (0u64, true)
        }),
    decreases t,
{
    lemma_grid_times_follow_beats(tr, steps, ticks_per_quarter, t);
    if t > 0 {
        lemma_grid_beats_ordered(tr, steps, ticks_per_quarter, t - 1);
        let prev = grid_after(tr, steps, ticks_per_quarter, t - 1);
        let tp = match tempo_at(tr, steps, t - 1, steps.len() as int) {
            Some(x) => x,
            None => prev.tempo,
        };
        lemma_tick_ns_nonneg(Division::TicksPerQuarterNote(ticks_per_quarter), tp);
        let st = grid_after(tr, steps, ticks_per_quarter, t);
        assert(st.elapsed >= prev.elapsed);
        assert(saturate(prev.elapsed) <= saturate(st.elapsed));
        if t - 1 == prev.next_beat {
            assert(st.beats == prev.beats.push(((t - 1) as u64, st.beats.last().1)));
            assert(st.times == prev.times.push(saturate(prev.elapsed)));
            assert forall|a: int, b: int| 0 <= a < b < st.beats.len() implies (#[trigger] st.beats[a]).0
                < (#[trigger] st.beats[b]).0 by {
                if b == st.beats.len() - 1 {
                    assert(prev.beats[a].0 < t - 1);
                }
            }
            assert forall|a: int, b: int| 0 <= a < b < st.times.len() implies (#[trigger] st.times[a])
                <= (#[trigger] st.times[b]) by {
                if b == st.times.len() - 1 {
                    assert(prev.times[a] <= saturate(prev.elapsed));
                }
            }
        } else {
            assert(st.beats == prev.beats);
            assert(st.times == prev.times);
        }
        if t == 1 {
            assert(prev.next_beat == 0);
            assert(prev.beats.len() == 0);
        } else {
            assert(prev.beats.len() > 0);
            assert(st.beats[0] == prev.beats[0]);
        }
    }
}

} // verus!
