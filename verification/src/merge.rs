//! Interleaving the tracks of a file into one playing order, and cutting
//! that order back into one region per track.
use vstd::prelude::*;

use crate::timing::times_of;
use crate::midi::{
    track_from_region, ticks_nondecreasing, track_events, Message, MetaInfo, MidiEvent, MidiFileData, MidiRegion, TrackData, TrackEvent,
    DEFAULT_TEMPO,
};

verus! {

/// The absolute tick of event `j` of a track: the sum of the delta times up
/// to and including it.
pub open spec fn abs_tick(evs: Seq<TrackEvent>, j: int) -> int
    decreases j + 1,
{
    if j < 0 || j >= evs.len() {
        0
    } else {
        abs_tick(evs, j - 1) + evs[j].delta_time
    }
}

/// Counting ticks in `u32` does not overflow before the track reaches the
/// last tick `u32::MAX`: every event that follows only events below it has
/// an absolute tick of at most `u32::MAX`.
pub open spec fn track_ticks_fit(evs: Seq<TrackEvent>) -> bool {
    forall|j: int|
        #![trigger abs_tick(evs, j)]
        0 <= j < evs.len() && (forall|k: int| 0 <= k < j ==> #[trigger] abs_tick(evs, k) < u32::MAX)
            ==> abs_tick(evs, j) <= u32::MAX
}

/// The events of every chunk of a file.
pub open spec fn file_events(tracks: Seq<TrackData>) -> Seq<Seq<TrackEvent>> {
    tracks.map_values(|t: TrackData| track_events(t))
}

/// One step of the playing order: event `event` of track `track`, at
/// absolute tick `tick`, `advance` ticks after the previous step, played
/// while the tempo is `tempo` (microseconds per quarter note).
#[derive(Debug, Clone, Copy, PartialEq, Eq)]
pub struct Step {
    pub track: usize,
    pub event: usize,
    pub tick: u32,
    pub advance: u32,
    pub tempo: u32,
}

/// `(tick, track, event)` of `a` comes before that of `b`.
pub open spec fn key_lt(t1: int, i1: int, j1: int, t2: int, i2: int, j2: int) -> bool {
    t1 < t2 || (t1 == t2 && (i1 < i2 || (i1 == i2 && j1 < j2)))
}

pub open spec fn step_before(a: Step, b: Step) -> bool {
    key_lt(a.tick as int, a.track as int, a.event as int, b.tick as int, b.track as int, b.event as int)
}

/// The tempo after the first `k` steps: that of the last tempo change among
/// them, or the default tempo.
pub open spec fn tempo_before(tr: Seq<Seq<TrackEvent>>, steps: Seq<Step>, k: int) -> u32
    decreases k,
{
    if k <= 0 {
        DEFAULT_TEMPO
    } else {
        match tr[steps[k - 1].track as int][steps[k - 1].event as int].msg.meta() {
            MetaInfo::SetTempo(t) => t,
            _ => tempo_before(tr, steps, k - 1),
        }
    }
}

/// Event `j` of track `i` has a step.
pub open spec fn scheduled(steps: Seq<Step>, i: int, j: int) -> bool {
    exists|k: int| 0 <= k < steps.len() && #[trigger] steps[k].track == i && steps[k].event == j
}

/// A step names an existing event below tick `u32::MAX` and carries its tick.
pub open spec fn step_valid(tr: Seq<Seq<TrackEvent>>, s: Step) -> bool {
    &&& s.track < tr.len()
    &&& s.event < tr[s.track as int].len()
    &&& s.tick == abs_tick(tr[s.track as int], s.event as int)
    &&& s.tick < u32::MAX
}

/// `steps` is the playing order of the tracks: every event below tick
/// `u32::MAX` once, in increasing order of (tick, track, position), each
/// step with its distance from the previous one and the tempo in force.
pub open spec fn is_schedule(tr: Seq<Seq<TrackEvent>>, steps: Seq<Step>) -> bool {
    &&& forall|k: int| 0 <= k < steps.len() ==> step_valid(tr, #[trigger] steps[k])
    &&& forall|k1: int, k2: int|
        0 <= k1 < k2 < steps.len() ==> step_before(#[trigger] steps[k1], #[trigger] steps[k2])
    &&& forall|i: int, j: int|
        #![trigger abs_tick(tr[i], j)]
        0 <= i < tr.len() && 0 <= j < tr[i].len() && abs_tick(tr[i], j) < u32::MAX ==> scheduled(
            steps,
            i,
            j,
        )
    &&& forall|k: int|
        0 <= k < steps.len() ==> (#[trigger] steps[k]).advance == steps[k].tick - (if k == 0 {
            0
        } else {
            steps[k - 1].tick as int
        })
    &&& forall|k: int| 0 <= k < steps.len() ==> (#[trigger] steps[k]).tempo == tempo_before(tr, steps, k)
}

/// Absolute ticks never decrease along a track.
pub proof fn lemma_abs_tick_mono(evs: Seq<TrackEvent>, j1: int, j2: int)
    requires
        -1 <= j1 <= j2 < evs.len(),
    ensures
        abs_tick(evs, j1) <= abs_tick(evs, j2),
    decreases j2 - j1,
{
    if j1 < j2 {
        lemma_abs_tick_mono(evs, j1, j2 - 1);
    }
}

proof fn lemma_tempo_prefix(tr: Seq<Seq<TrackEvent>>, s1: Seq<Step>, s2: Seq<Step>, q: int)
    requires
        0 <= q <= s1.len(),
        q <= s2.len(),
        forall|w: int| 0 <= w < q ==> s1[w] == s2[w],
    ensures
        tempo_before(tr, s1, q) == tempo_before(tr, s2, q),
    decreases q,
{
    if q > 0 {
        lemma_tempo_prefix(tr, s1, s2, q - 1);
    }
}

pub open spec fn sum_usize(s: Seq<usize>) -> int
    decreases s.len(),
{
    if s.len() == 0 {
        0
    } else {
        sum_usize(s.drop_last()) + s.last()
    }
}

proof fn lemma_sum_bump(s: Seq<usize>, i: int)
    requires
        0 <= i < s.len(),
        s[i] < usize::MAX,
    ensures
        sum_usize(s.update(i, (s[i] + 1) as usize)) == sum_usize(s) + 1,
    decreases s.len(),
{
    let t = s.update(i, (s[i] + 1) as usize);
    if i == s.len() - 1 {
        assert(t.drop_last() =~= s.drop_last());
    } else {
        assert(t.drop_last() =~= s.drop_last().update(i, (s[i] + 1) as usize));
        lemma_sum_bump(s.drop_last(), i);
    }
}

/// The number of events of all tracks together.
pub open spec fn total_events(tr: Seq<Seq<TrackEvent>>) -> int
    decreases tr.len(),
{
    if tr.len() == 0 {
        0
    } else {
        total_events(tr.drop_last()) + tr.last().len()
    }
}

proof fn lemma_sum_le(pos: Seq<usize>, tr: Seq<Seq<TrackEvent>>)
    requires
        pos.len() == tr.len(),
        forall|i: int| 0 <= i < pos.len() ==> pos[i] <= tr[i].len(),
    ensures
        sum_usize(pos) <= total_events(tr),
    decreases pos.len(),
{
    if pos.len() > 0 {
        lemma_sum_le(pos.drop_last(), tr.drop_last());
    }
}

proof fn lemma_sum_zeros(s: Seq<usize>)
    requires
        forall|i: int| 0 <= i < s.len() ==> s[i] == 0,
    ensures
        sum_usize(s) == 0,
    decreases s.len(),
{
    if s.len() > 0 {
        lemma_sum_zeros(s.drop_last());
    }
}

/// The tracks' heads: `pos[i]` events of track `i` are taken, all below
/// tick `u32::MAX`, and `ticks[i]` is the absolute tick of the last one.
pub open spec fn heads_ok(tr: Seq<Seq<TrackEvent>>, pos: Seq<usize>, ticks: Seq<u32>) -> bool {
    let n = tr.len();
    &&& forall|i: int| 0 <= i < n ==> track_ticks_fit(#[trigger] tr[i])
    &&& pos.len() == n
    &&& ticks.len() == n
    &&& forall|i: int|
        0 <= i < n ==> #[trigger] pos[i] <= tr[i].len() && ticks[i] == abs_tick(tr[i], pos[i] - 1)
    &&& forall|i: int, j: int| 0 <= i < n && 0 <= j < pos[i] ==> #[trigger] abs_tick(tr[i], j) < u32::MAX
}

/// The steps are exactly the taken events, in increasing order, and the
/// last one comes before every event not yet taken.
pub open spec fn steps_ok(tr: Seq<Seq<TrackEvent>>, pos: Seq<usize>, steps: Seq<Step>) -> bool {
    let n = tr.len();
    &&& forall|k: int| 0 <= k < steps.len() ==> step_valid(tr, #[trigger] steps[k])
    &&& forall|k: int| 0 <= k < steps.len() ==> (#[trigger] steps[k]).event < pos[steps[k].track as int]
    &&& forall|k1: int, k2: int|
        0 <= k1 < k2 < steps.len() ==> step_before(#[trigger] steps[k1], #[trigger] steps[k2])
    &&& forall|i: int, j: int| 0 <= i < n && 0 <= j < pos[i] ==> #[trigger] scheduled(steps, i, j)
    &&& steps.len() > 0 ==> forall|i: int, j: int|
        #![trigger abs_tick(tr[i], j)]
        0 <= i < n && pos[i] <= j < tr[i].len() ==> key_lt(
            steps.last().tick as int,
            steps.last().track as int,
            steps.last().event as int,
            abs_tick(tr[i], j),
            i,
            j,
        )
}

/// Each step's distance from the previous step and tempo are recorded.
pub open spec fn timing_ok(tr: Seq<Seq<TrackEvent>>, steps: Seq<Step>, last_event_tick: u32, tempo: u32) -> bool {
    &&& steps.len() == 0 ==> last_event_tick == 0
    &&& steps.len() > 0 ==> last_event_tick == steps.last().tick
    &&& forall|k: int|
        0 <= k < steps.len() ==> (#[trigger] steps[k]).advance == steps[k].tick - (if k == 0 {
            0
        } else {
            steps[k - 1].tick as int
        })
    &&& forall|k: int| 0 <= k < steps.len() ==> (#[trigger] steps[k]).tempo == tempo_before(tr, steps, k)
    &&& tempo == tempo_before(tr, steps, steps.len() as int)
}

/// The state of the merge after some steps.
#[verifier::opaque]
pub open spec fn merge_inv(
    tr: Seq<Seq<TrackEvent>>,
    pos: Seq<usize>,
    ticks: Seq<u32>,
    steps: Seq<Step>,
    last_event_tick: u32,
    tempo: u32,
) -> bool {
    &&& heads_ok(tr, pos, ticks)
    &&& steps_ok(tr, pos, steps)
    &&& timing_ok(tr, steps, last_event_tick, tempo)
    &&& steps.len() == sum_usize(pos)
}

/// Track `c` holds the next event: the smallest absolute tick among the
/// tracks' next events, the first such track on a tie, below `u32::MAX`.
pub open spec fn is_next(tr: Seq<Seq<TrackEvent>>, pos: Seq<usize>, c: int) -> bool {
    &&& 0 <= c < tr.len()
    &&& pos[c] < tr[c].len()
    &&& abs_tick(tr[c], pos[c] as int) < u32::MAX
    &&& forall|m: int|
        0 <= m < tr.len() && pos[m] < tr[m].len() ==> abs_tick(tr[c], pos[c] as int) <= abs_tick(
            tr[m],
            pos[m] as int,
        ) && (abs_tick(tr[m], pos[m] as int) == abs_tick(tr[c], pos[c] as int) ==> c <= m)
}

/// Finds the track that holds the next event, if any event below
/// `u32::MAX` is left.
fn pick_next(
    tracks: &Vec<TrackData>,
    pos: &Vec<usize>,
    ticks: &Vec<u32>,
    Ghost(steps): Ghost<Seq<Step>>,
    Ghost(last): Ghost<u32>,
    Ghost(tempo): Ghost<u32>,
) -> (next: Option<usize>)
    requires
        merge_inv(file_events(tracks@), pos@, ticks@, steps, last, tempo),
    ensures
        match next {
            Some(c) => is_next(file_events(tracks@), pos@, c as int),
            None => forall|m: int|
                0 <= m < tracks.len() && pos@[m] < file_events(tracks@)[m].len() ==> abs_tick(
                    file_events(tracks@)[m],
                    pos@[m] as int,
                ) >= u32::MAX,
        },
{
    let ghost tr = file_events(tracks@);
    proof {
        reveal(merge_inv);
    }
    let n = tracks.len();
    let mut lowest: u32 = u32::MAX;
    let mut next: Option<usize> = None;
    let mut i: usize = 0;
    while i < n
        invariant
            tr == file_events(tracks@),
            n == tracks.len(),
            tr.len() == n,
            i <= n,
            merge_inv(tr, pos@, ticks@, steps, last, tempo),
            match next {
                Some(c) => c < i && pos@[c as int] < tr[c as int].len() && lowest == abs_tick(
                    tr[c as int],
                    pos@[c as int] as int,
                ) && lowest < u32::MAX,
                None => lowest == u32::MAX,
            },
            forall|m: int|
                0 <= m < i && pos@[m] < tr[m].len() ==> lowest <= abs_tick(tr[m], pos@[m] as int) && (
                abs_tick(tr[m], pos@[m] as int) == lowest && lowest < u32::MAX ==> (next matches Some(
                    c,
                ) && c <= m)),
        decreases n - i,
    {
        proof {
            reveal(merge_inv);
        }
        let t = &tracks[i];
        assert(track_events(*t) == tr[i as int]);
        if pos[i] < t.event_count() {
            let e = t.event(pos[i]);
            proof {
                let evs = tr[i as int];
                let p = pos@[i as int] as int;
                assert(abs_tick(evs, p) == abs_tick(evs, p - 1) + evs[p].delta_time);
                assert(forall|k: int| 0 <= k < p ==> #[trigger] abs_tick(evs, k) < u32::MAX);
                assert(track_ticks_fit(evs));
                assert(abs_tick(evs, p) <= u32::MAX);
            }
            let et = ticks[i] + e.delta_time;
            if et < lowest {
                lowest = et;
                next = Some(i);
            }
        }
        i += 1;
    }
    next
}

/// The step that takes the next event of track `c`.
pub open spec fn next_step(tr: Seq<Seq<TrackEvent>>, pos: Seq<usize>, last: u32, tempo: u32, c: usize) -> Step {
    let p = pos[c as int];
    let t = abs_tick(tr[c as int], p as int);
    Step { track: c, event: p, tick: t as u32, advance: (t - last) as u32, tempo }
}

/// The tempo after the step that takes the next event of track `c`.
pub open spec fn next_tempo(tr: Seq<Seq<TrackEvent>>, pos: Seq<usize>, tempo: u32, c: usize) -> u32 {
    match tr[c as int][pos[c as int] as int].msg.meta() {
        MetaInfo::SetTempo(x) => x,
        _ => tempo,
    }
}

proof fn lemma_take_heads(tr: Seq<Seq<TrackEvent>>, pos: Seq<usize>, ticks: Seq<u32>, c: usize)
    requires
        heads_ok(tr, pos, ticks),
        is_next(tr, pos, c as int),
        pos[c as int] < usize::MAX,
    ensures
        abs_tick(tr[c as int], pos[c as int] as int) == ticks[c as int] + tr[c as int][pos[c as int] as int].delta_time,
        heads_ok(
            tr,
            pos.update(c as int, (pos[c as int] + 1) as usize),
            ticks.update(c as int, abs_tick(tr[c as int], pos[c as int] as int) as u32),
        ),
{
    let p = pos[c as int];
    let npos = pos.update(c as int, (p + 1) as usize);
    assert forall|i: int, j: int| 0 <= i < tr.len() && 0 <= j < npos[i] implies #[trigger] abs_tick(
        tr[i],
        j,
    ) < u32::MAX by {
        if i == c as int && j == p as int {
        } else {
            assert(j < pos[i]);
        }
    }
}

proof fn lemma_take_steps(tr: Seq<Seq<TrackEvent>>, pos: Seq<usize>, steps: Seq<Step>, last: u32, tempo: u32, c: usize)
    requires
        steps_ok(tr, pos, steps),
        pos.len() == tr.len(),
        forall|i: int| 0 <= i < tr.len() ==> #[trigger] pos[i] <= tr[i].len(),
        is_next(tr, pos, c as int),
        pos[c as int] < usize::MAX,
    ensures
        steps_ok(tr, pos.update(c as int, (pos[c as int] + 1) as usize), steps.push(next_step(tr, pos, last, tempo, c))),
{
    let n = tr.len();
    let p = pos[c as int];
    let step = next_step(tr, pos, last, tempo, c);
    let npos = pos.update(c as int, (p + 1) as usize);
    let nsteps = steps.push(step);
    let k = steps.len() as int;
    let t = abs_tick(tr[c as int], p as int);
    lemma_abs_tick_mono(tr[c as int], -1, p as int);
    assert(nsteps.last() == step);
    assert(step.tick as int == t);
    if steps.len() > 0 {
        assert(key_lt(
            steps.last().tick as int,
            steps.last().track as int,
            steps.last().event as int,
            abs_tick(tr[c as int], p as int),
            c as int,
            p as int,
        ));
    }
    assert forall|i2: int, j2: int|
        #![trigger abs_tick(tr[i2], j2)]
        0 <= i2 < n && npos[i2] <= j2 < tr[i2].len() implies key_lt(
        nsteps.last().tick as int,
        nsteps.last().track as int,
        nsteps.last().event as int,
        abs_tick(tr[i2], j2),
        i2,
        j2,
    ) by {
        assert(pos[i2] <= npos[i2]);
        assert(pos[i2] < tr[i2].len());
        lemma_abs_tick_mono(tr[i2], pos[i2] as int, j2);
        if i2 == c as int {
            lemma_abs_tick_mono(tr[i2], p as int, j2);
        } else {
            assert(t <= abs_tick(tr[i2], pos[i2] as int));
        }
    }
    assert forall|i2: int, j2: int| 0 <= i2 < n && 0 <= j2 < npos[i2] implies #[trigger] scheduled(
        nsteps,
        i2,
        j2,
    ) by {
        if i2 == c as int && j2 == p as int {
            assert(nsteps[k].track == i2 && nsteps[k].event == j2);
        } else {
            assert(scheduled(steps, i2, j2));
            let k2 = choose|k2: int|
                0 <= k2 < steps.len() && #[trigger] steps[k2].track == i2 && steps[k2].event == j2;
            assert(nsteps[k2] == steps[k2]);
        }
    }
    assert forall|k1: int, k2: int| 0 <= k1 < k2 < nsteps.len() implies step_before(
        #[trigger] nsteps[k1],
        #[trigger] nsteps[k2],
    ) by {
        if k2 == k && k1 < k - 1 {
            assert(step_before(steps[k1], steps.last()));
        }
    }
    assert forall|w: int| 0 <= w < nsteps.len() implies (#[trigger] nsteps[w]).event < npos[nsteps[w].track as int] by {
        if w < k {
            assert(nsteps[w] == steps[w]);
        }
    }
    assert forall|w: int| 0 <= w < nsteps.len() implies step_valid(tr, #[trigger] nsteps[w]) by {
        if w < k {
            assert(nsteps[w] == steps[w]);
        }
    }
}

proof fn lemma_take_timing(tr: Seq<Seq<TrackEvent>>, pos: Seq<usize>, steps: Seq<Step>, last: u32, tempo: u32, c: usize)
    requires
        timing_ok(tr, steps, last, tempo),
        steps_ok(tr, pos, steps),
        pos.len() == tr.len(),
        is_next(tr, pos, c as int),
    ensures
        last <= abs_tick(tr[c as int], pos[c as int] as int),
        timing_ok(
            tr,
            steps.push(next_step(tr, pos, last, tempo, c)),
            abs_tick(tr[c as int], pos[c as int] as int) as u32,
            next_tempo(tr, pos, tempo, c),
        ),
{
    let p = pos[c as int];
    let step = next_step(tr, pos, last, tempo, c);
    let nsteps = steps.push(step);
    let k = steps.len() as int;
    lemma_abs_tick_mono(tr[c as int], -1, p as int);
    if steps.len() > 0 {
        assert(key_lt(
            steps.last().tick as int,
            steps.last().track as int,
            steps.last().event as int,
            abs_tick(tr[c as int], p as int),
            c as int,
            p as int,
        ));
    }
    assert forall|q: int| 0 <= q <= k implies tempo_before(tr, nsteps, q) == tempo_before(tr, steps, q) by {
        lemma_tempo_prefix(tr, nsteps, steps, q);
    }
    assert(nsteps[k] == step);
    assert(tempo_before(tr, nsteps, k + 1) == next_tempo(tr, pos, tempo, c));
    assert forall|w: int| 0 <= w < nsteps.len() implies (#[trigger] nsteps[w]).tempo == tempo_before(
        tr,
        nsteps,
        w,
    ) by {
        if w < k {
            assert(nsteps[w] == steps[w]);
        }
    }
    assert forall|w: int| 0 <= w < nsteps.len() implies (#[trigger] nsteps[w]).advance == nsteps[w].tick
        - (if w == 0 {
        0
    } else {
        nsteps[w - 1].tick as int
    }) by {
        if w < k {
            assert(nsteps[w] == steps[w]);
        }
    }
}

/// Taking the next event keeps the merge state.
proof fn lemma_take_next(
    tr: Seq<Seq<TrackEvent>>,
    pos: Seq<usize>,
    ticks: Seq<u32>,
    steps: Seq<Step>,
    last: u32,
    tempo: u32,
    c: usize,
)
    requires
        merge_inv(tr, pos, ticks, steps, last, tempo),
        is_next(tr, pos, c as int),
        pos[c as int] < usize::MAX,
    ensures
        last <= abs_tick(tr[c as int], pos[c as int] as int),
        abs_tick(tr[c as int], pos[c as int] as int) == ticks[c as int] + tr[c as int][pos[c as int] as int].delta_time,
        merge_inv(
            tr,
            pos.update(c as int, (pos[c as int] + 1) as usize),
            ticks.update(c as int, abs_tick(tr[c as int], pos[c as int] as int) as u32),
            steps.push(next_step(tr, pos, last, tempo, c)),
            abs_tick(tr[c as int], pos[c as int] as int) as u32,
            next_tempo(tr, pos, tempo, c),
        ),
{
    reveal(merge_inv);
    lemma_take_heads(tr, pos, ticks, c);
    lemma_take_steps(tr, pos, steps, last, tempo, c);
    lemma_take_timing(tr, pos, steps, last, tempo, c);
    lemma_sum_bump(pos, c as int);
    reveal(merge_inv);
}

proof fn lemma_inv_facts(
    tr: Seq<Seq<TrackEvent>>,
    pos: Seq<usize>,
    ticks: Seq<u32>,
    steps: Seq<Step>,
    last: u32,
    tempo: u32,
)
    requires
        merge_inv(tr, pos, ticks, steps, last, tempo),
    ensures
        pos.len() == tr.len(),
        ticks.len() == tr.len(),
        forall|i: int| 0 <= i < tr.len() ==> #[trigger] pos[i] <= tr[i].len(),
        steps.len() <= total_events(tr),
{
    reveal(merge_inv);
    lemma_sum_le(pos, tr);
}

/// The playing order of a file's tracks.
pub fn schedule(tracks: &Vec<TrackData>) -> (steps: Vec<Step>)
    requires
        forall|i: int| 0 <= i < tracks.len() ==> track_ticks_fit(#[trigger] track_events(tracks@[i])),
    ensures
        is_schedule(file_events(tracks@), steps@),
{
    let ghost tr = file_events(tracks@);
    let n = tracks.len();
    let mut pos: Vec<usize> = Vec::new();
    let mut ticks: Vec<u32> = Vec::new();
    while pos.len() < n
        invariant
            pos.len() == ticks.len(),
            pos.len() <= n,
            forall|i: int| 0 <= i < pos.len() ==> pos@[i] == 0 && ticks@[i] == 0,
        decreases n - pos.len(),
    {
        pos.push(0);
        ticks.push(0);
    }
    let mut steps: Vec<Step> = Vec::new();
    let mut last_event_tick: u32 = 0;
    let mut tempo: u32 = DEFAULT_TEMPO;
    proof {
        lemma_sum_zeros(pos@);
        reveal(merge_inv);
        assert forall|i: int| 0 <= i < n implies track_ticks_fit(#[trigger] tr[i]) by {
            assert(track_events(tracks@[i]) == tr[i]);
        }
        assert(merge_inv(tr, pos@, ticks@, steps@, last_event_tick, tempo));
    }
    loop
        invariant
            tr == file_events(tracks@),
            n == tracks.len(),
            merge_inv(tr, pos@, ticks@, steps@, last_event_tick, tempo),
        ensures
            forall|m: int|
                0 <= m < n && 0 <= m < pos.len() && pos@[m] < tr[m].len() ==> abs_tick(tr[m], pos@[m] as int) >= u32::MAX,
        decreases total_events(tr) - steps.len(),
    {
        match pick_next(tracks, &pos, &ticks, Ghost(steps@), Ghost(last_event_tick), Ghost(tempo)) {
            None => {
                break;
            },
            Some(c) => {
                proof {
                    lemma_inv_facts(tr, pos@, ticks@, steps@, last_event_tick, tempo);
                }
                let t = &tracks[c];
                assert(track_events(*t) == tr[c as int]);
                let p = pos[c];
                let count = t.event_count();
                assert(p < count);
                let e = t.event(p);
                proof {
                    lemma_take_next(tr, pos@, ticks@, steps@, last_event_tick, tempo, c);
                }
                let new_tick = ticks[c] + e.delta_time;
                let advance = new_tick - last_event_tick;
                let step = Step { track: c, event: p, tick: new_tick, advance, tempo };
                assert(step == next_step(tr, pos@, last_event_tick, tempo, c));
                pos.set(c, p + 1);
                ticks.set(c, new_tick);
                steps.push(step);
                last_event_tick = new_tick;
                if let Message::Other { meta: MetaInfo::SetTempo(tp), .. } = &e.msg {
                    tempo = *tp;
                }
                proof {
                    lemma_inv_facts(tr, pos@, ticks@, steps@, last_event_tick, tempo);
                }
            },
        }
    }
    proof {
        reveal(merge_inv);
        assert forall|i: int, j: int|
            #![trigger abs_tick(tr[i], j)]
            0 <= i < tr.len() && 0 <= j < tr[i].len() && abs_tick(tr[i], j) < u32::MAX implies scheduled(
            steps@,
            i,
            j,
        ) by {
            if j >= pos@[i] {
                lemma_abs_tick_mono(tr[i], pos@[i] as int, j);
            }
        }
    }
    steps
}

/// The events that the first `m` steps give track `i`: each step of the
/// track in order, with its time from `times` and its absolute tick.
pub open spec fn region_of(
    tr: Seq<Seq<TrackEvent>>,
    steps: Seq<Step>,
    times: Seq<u64>,
    i: int,
    m: int,
) -> Seq<MidiEvent>
    decreases m,
{
    if m <= 0 {
        Seq::empty()
    } else {
        let prev = region_of(tr, steps, times, i, m - 1);
        let s = steps[m - 1];
        if s.track == i {
            prev.push(MidiEvent { time: times[m - 1], tick: s.tick, msg: tr[i][s.event as int].msg })
        } else {
            prev
        }
    }
}

impl MidiRegion {
    /// The playing order of a file's tracks (see `is_schedule`).
    pub fn schedule_midi_file(file: &MidiFileData) -> (steps: Vec<Step>)
        requires
            forall|i: int|
                0 <= i < file.tracks.len() ==> track_ticks_fit(#[trigger] track_events(file.tracks@[i])),
        ensures
            is_schedule(file_events(file.tracks@), steps@),
    {
        schedule(&file.tracks)
    }

    /// One region per chunk of the file: the chunk's events in playing
    /// order (`steps`, the file's schedule), each at the time of its step:
    /// `times` are the steps' times under the tempo in force, 120 beats per
    /// minute until the first tempo event of any track (`step_times`).
    pub fn from_midi_file(file: &MidiFileData, steps: &Vec<Step>, times: &Vec<u64>) -> (r: Vec<MidiRegion>)
        requires
            is_schedule(file_events(file.tracks@), steps@),
            times@ == times_of(file.header.division, steps@),
        ensures
            r.len() == file.tracks.len(),
            forall|i: int|
                0 <= i < r.len() ==> (#[trigger] r@[i])@ == region_of(
                    file_events(file.tracks@),
                    steps@,
                    times_of(file.header.division, steps@),
                    i,
                    steps.len() as int,
                ),
    {
        let ghost tr = file_events(file.tracks@);
        assert(times.len() == steps.len());
        let n = file.tracks.len();
        let mut regions: Vec<MidiRegion> = Vec::new();
        let mut i: usize = 0;
        while i < n
            invariant
                tr == file_events(file.tracks@),
                n == file.tracks.len(),
                i <= n,
                is_schedule(tr, steps@),
                times.len() == steps.len(),
                times@ == times_of(file.header.division, steps@),
                regions.len() == i,
                forall|q: int|
                    0 <= q < i ==> (#[trigger] regions@[q])@ == region_of(tr, steps@, times@, q, steps.len() as int),
            decreases n - i,
        {
            let t = &file.tracks[i];
            assert(track_events(*t) == tr[i as int]);
            let mut events: Vec<MidiEvent> = Vec::new();
            let mut k: usize = 0;
            while k < steps.len()
                invariant
                    tr == file_events(file.tracks@),
                    track_events(*t) == tr[i as int],
                    i < n,
                    is_schedule(tr, steps@),
                    times.len() == steps.len(),
                    k <= steps.len(),
                    events@ == region_of(tr, steps@, times@, i as int, k as int),
                decreases steps.len() - k,
            {
                let s = steps[k];
                if s.track == i {
                    assert(step_valid(tr, steps@[k as int]));
                    let e = t.event(s.event);
                    events.push(MidiEvent { time: times[k], tick: s.tick, msg: e.msg.duplicate() });
                }
                k += 1;
            }
            regions.push(MidiRegion::new(events));
            i += 1;
        }
        regions
    }
}

/// Every event the first `m` steps give a track lies below tick `u32::MAX`.
#[verifier::spinoff_prover]
#[verifier::rlimit(40)]
pub proof fn lemma_region_ticks_below_max(
    tr: Seq<Seq<TrackEvent>>,
    steps: Seq<Step>,
    times: Seq<u64>,
    i: int,
    m: int,
)
    requires
        is_schedule(tr, steps),
        0 <= m <= steps.len(),
    ensures
        forall|q: int|
            0 <= q < region_of(tr, steps, times, i, m).len() ==> (#[trigger] region_of(
                tr,
                steps,
                times,
                i,
                m,
            )[q]).tick < u32::MAX,
    decreases m,
{
    if m > 0 {
        lemma_region_ticks_below_max(tr, steps, times, i, m - 1);
        assert(step_valid(tr, steps[m - 1]));
    }
}

/// Event `q` of track `i` has a step among the first `m`.
pub open spec fn scheduled_before(steps: Seq<Step>, i: int, q: int, m: int) -> bool {
    exists|k: int| 0 <= k < m && #[trigger] steps[k].track == i && steps[k].event == q
}

proof fn lemma_region_prefix(
    tr: Seq<Seq<TrackEvent>>,
    steps: Seq<Step>,
    times: Seq<u64>,
    i: int,
    m: int,
)
    requires
        is_schedule(tr, steps),
        times.len() == steps.len(),
        0 <= i < tr.len(),
        0 <= m <= steps.len(),
    ensures
        ({
            let r = region_of(tr, steps, times, i, m);
            &&& r.len() <= tr[i].len()
            &&& forall|q: int|
                0 <= q < r.len() ==> (#[trigger] r[q]).tick == abs_tick(tr[i], q) && r[q].msg
                    == tr[i][q].msg
            &&& forall|k: int| 0 <= k < m && (#[trigger] steps[k]).track == i ==> steps[k].event < r.len()
            &&& forall|q: int| 0 <= q < r.len() ==> #[trigger] scheduled_before(steps, i, q, m)
        }),
    decreases m,
{
    if m > 0 {
        lemma_region_prefix(tr, steps, times, i, m - 1);
        let prev = region_of(tr, steps, times, i, m - 1);
        let c = prev.len() as int;
        let s = steps[m - 1];
        assert(step_valid(tr, s));
        if s.track == i {
            let e = s.event as int;
            // the new step takes event `c`
            if e < c {
                assert(scheduled_before(steps, i, e, m - 1));
                let k = choose|k: int| 0 <= k < m - 1 && #[trigger] steps[k].track == i && steps[k].event == e;
                assert(step_before(steps[k], steps[m - 1]));
            }
            if e > c {
                lemma_abs_tick_mono(tr[i], c, e);
                assert(abs_tick(tr[i], c) < u32::MAX);
                assert(scheduled(steps, i, c));
                let k = choose|k: int| 0 <= k < steps.len() && #[trigger] steps[k].track == i && steps[k].event == c;
                assert(step_valid(tr, steps[k]));
                if k >= m - 1 {
                    assert(k != m - 1);
                    assert(step_before(steps[m - 1], steps[k]));
                } else {
                    assert(steps[k].event < c);
                }
            }
            assert(e == c);
            let r = region_of(tr, steps, times, i, m);
            assert(r == prev.push(MidiEvent { time: times[m - 1], tick: s.tick, msg: tr[i][e].msg }));
            assert forall|q: int| 0 <= q < r.len() implies #[trigger] scheduled_before(steps, i, q, m) by {
                if q == c {
                    assert(steps[m - 1].track == i && steps[m - 1].event == q);
                } else {
                    assert(scheduled_before(steps, i, q, m - 1));
                    let k = choose|k: int| 0 <= k < m - 1 && #[trigger] steps[k].track == i && steps[k].event == q;
                    assert(0 <= k < m && steps[k].track == i && steps[k].event == q);
                }
            }
        } else {
            let r = region_of(tr, steps, times, i, m);
            assert(r == prev);
            assert forall|q: int| 0 <= q < r.len() implies #[trigger] scheduled_before(steps, i, q, m) by {
                assert(scheduled_before(steps, i, q, m - 1));
                let k = choose|k: int| 0 <= k < m - 1 && #[trigger] steps[k].track == i && steps[k].event == q;
                assert(0 <= k < m && steps[k].track == i && steps[k].event == q);
            }
        }
    }
}

/// Cutting the playing order back into tracks gives every track its own
/// events, in their original order and at their absolute ticks: all of
/// them, up to the first that would reach tick `u32::MAX`. The ticks of a
/// region never decrease.
pub proof fn lemma_regions_follow_tracks(
    tr: Seq<Seq<TrackEvent>>,
    steps: Seq<Step>,
    times: Seq<u64>,
    i: int,
)
    requires
        is_schedule(tr, steps),
        times.len() == steps.len(),
        0 <= i < tr.len(),
    ensures
        ({
            let r = region_of(tr, steps, times, i, steps.len() as int);
            &&& r.len() <= tr[i].len()
            &&& forall|q: int|
                0 <= q < r.len() ==> (#[trigger] r[q]).tick == abs_tick(tr[i], q) && r[q].msg
                    == tr[i][q].msg
            &&& forall|q: int| r.len() <= q < tr[i].len() ==> abs_tick(tr[i], q) >= u32::MAX
            &&& ticks_nondecreasing(r)
        }),
{
    lemma_region_prefix(tr, steps, times, i, steps.len() as int);
    let r = region_of(tr, steps, times, i, steps.len() as int);
    assert forall|q: int| r.len() <= q < tr[i].len() implies abs_tick(tr[i], q) >= u32::MAX by {
        if abs_tick(tr[i], q) < u32::MAX {
            assert(scheduled(steps, i, q));
            let k = choose|k: int| 0 <= k < steps.len() && #[trigger] steps[k].track == i && steps[k].event == q;
            assert(steps[k].event < r.len());
        }
    }
    assert forall|a: int, b: int| 0 <= a <= b < r.len() implies r[a].tick <= r[b].tick by {
        lemma_abs_tick_mono(tr[i], a, b);
    }
}

/// Writing a region as delta times and adding them up again gives back
/// each event's tick: the absolute ticks of `track_from_region(r)` are the
/// ticks of `r`, and its messages are those of `r`.
pub proof fn lemma_delta_round_trip(r: Seq<MidiEvent>, q: int)
    requires
        ticks_nondecreasing(r),
        0 <= q < r.len(),
    ensures
        abs_tick(track_from_region(r), q) == r[q].tick,
        track_from_region(r)[q].msg == r[q].msg,
    decreases q,
{
    let t = track_from_region(r);
    if q > 0 {
        lemma_delta_round_trip(r, q - 1);
        assert(t[q].delta_time == r[q].tick - r[q - 1].tick);
    } else {
        assert(abs_tick(t, -1) == 0);
    }
}

/// Two steps are of the same event.
pub open spec fn same_event(a: Step, b: Step) -> bool {
    a.track == b.track && a.event == b.event
}

/// `s` has a step of the same event as `x`.
pub open spec fn has_event(s: Seq<Step>, x: Step) -> bool {
    exists|j: int| 0 <= j < s.len() && same_event(#[trigger] s[j], x)
}

/// Steps in strictly increasing order, each naming an event with its tick.
pub open spec fn sorted_valid(tr: Seq<Seq<TrackEvent>>, s: Seq<Step>) -> bool {
    &&& forall|k: int| 0 <= k < s.len() ==> step_valid(tr, #[trigger] s[k])
    &&& forall|k1: int, k2: int| 0 <= k1 < k2 < s.len() ==> step_before(#[trigger] s[k1], #[trigger] s[k2])
}

proof fn lemma_sorted_same_events(tr: Seq<Seq<TrackEvent>>, a: Seq<Step>, b: Seq<Step>)
    requires
        sorted_valid(tr, a),
        sorted_valid(tr, b),
        forall|i: int| 0 <= i < a.len() ==> has_event(b, #[trigger] a[i]),
        forall|j: int| 0 <= j < b.len() ==> has_event(a, #[trigger] b[j]),
    ensures
        a.len() == b.len(),
        forall|k: int| 0 <= k < a.len() ==> same_event(#[trigger] a[k], b[k]) && a[k].tick == b[k].tick,
    decreases a.len(),
{
    if a.len() == 0 {
        if b.len() > 0 {
            assert(has_event(a, b[0]));
        }
    } else {
        assert(has_event(b, a[0]));
        if b.len() == 0 {
            let j = choose|j: int| 0 <= j < b.len() && same_event(#[trigger] b[j], a[0]);
        }
        assert(has_event(a, b[0]));
        let i = choose|i: int| 0 <= i < a.len() && same_event(#[trigger] a[i], b[0]);
        let j = choose|j: int| 0 <= j < b.len() && same_event(#[trigger] b[j], a[0]);
        assert(step_valid(tr, a[i]) && step_valid(tr, b[0]) && step_valid(tr, a[0]) && step_valid(tr, b[j]));
        if i > 0 && j > 0 {
            assert(step_before(a[0], a[i]));
            assert(step_before(b[0], b[j]));
            assert(false);
        }
        if i > 0 && j == 0 {
            assert(step_before(a[0], a[i]));
        }
        if i == 0 && j > 0 {
            assert(step_before(b[0], b[j]));
        }
        assert(same_event(a[0], b[0]) && a[0].tick == b[0].tick);
        let a2 = a.drop_first();
        let b2 = b.drop_first();
        assert forall|p: int| 0 <= p < a2.len() implies has_event(b2, #[trigger] a2[p]) by {
            assert(a2[p] == a[p + 1]);
            assert(has_event(b, a[p + 1]));
            let q = choose|q: int| 0 <= q < b.len() && same_event(#[trigger] b[q], a[p + 1]);
            assert(step_valid(tr, a[p + 1]) && step_valid(tr, b[q]));
            assert(step_before(a[0], a[p + 1]));
            if q == 0 {
                assert(false);
            }
            assert(b2[q - 1] == b[q]);
        }
        assert forall|p: int| 0 <= p < b2.len() implies has_event(a2, #[trigger] b2[p]) by {
            assert(b2[p] == b[p + 1]);
            assert(has_event(a, b[p + 1]));
            let q = choose|q: int| 0 <= q < a.len() && same_event(#[trigger] a[q], b[p + 1]);
            assert(step_valid(tr, b[p + 1]) && step_valid(tr, a[q]));
            assert(step_before(b[0], b[p + 1]));
            if q == 0 {
                assert(false);
            }
            assert(a2[q - 1] == a[q]);
        }
        assert(sorted_valid(tr, a2)) by {
            assert forall|k1: int, k2: int| 0 <= k1 < k2 < a2.len() implies step_before(
                #[trigger] a2[k1],
                #[trigger] a2[k2],
            ) by {
                assert(a2[k1] == a[k1 + 1] && a2[k2] == a[k2 + 1]);
            }
        }
        assert(sorted_valid(tr, b2)) by {
            assert forall|k1: int, k2: int| 0 <= k1 < k2 < b2.len() implies step_before(
                #[trigger] b2[k1],
                #[trigger] b2[k2],
            ) by {
                assert(b2[k1] == b[k1 + 1] && b2[k2] == b[k2 + 1]);
            }
        }
        lemma_sorted_same_events(tr, a2, b2);
        assert forall|k: int| 0 <= k < a.len() implies same_event(#[trigger] a[k], b[k]) && a[k].tick == b[k].tick by {
            if k > 0 {
                assert(a[k] == a2[k - 1] && b[k] == b2[k - 1]);
            }
        }
    }
}

/// A file has one playing order: two schedules of the same tracks are
/// equal, so a contract that names "a schedule" names the schedule.
pub proof fn lemma_schedule_unique(tr: Seq<Seq<TrackEvent>>, s1: Seq<Step>, s2: Seq<Step>)
    requires
        is_schedule(tr, s1),
        is_schedule(tr, s2),
    ensures
        s1 == s2,
{
    assert forall|i: int| 0 <= i < s1.len() implies has_event(s2, #[trigger] s1[i]) by {
        let x = s1[i];
        assert(step_valid(tr, x));
        assert(abs_tick(tr[x.track as int], x.event as int) < u32::MAX);
        assert(scheduled(s2, x.track as int, x.event as int));
        let k = choose|k: int| 0 <= k < s2.len() && #[trigger] s2[k].track == x.track && s2[k].event == x.event;
        assert(same_event(s2[k], x));
    }
    assert forall|j: int| 0 <= j < s2.len() implies has_event(s1, #[trigger] s2[j]) by {
        let x = s2[j];
        assert(step_valid(tr, x));
        assert(abs_tick(tr[x.track as int], x.event as int) < u32::MAX);
        assert(scheduled(s1, x.track as int, x.event as int));
        let k = choose|k: int| 0 <= k < s1.len() && #[trigger] s1[k].track == x.track && s1[k].event == x.event;
        assert(same_event(s1[k], x));
    }
    lemma_sorted_same_events(tr, s1, s2);
    lemma_schedule_prefix_equal(tr, s1, s2, s1.len() as int);
    assert(s1 =~= s2);
}

proof fn lemma_schedule_prefix_equal(tr: Seq<Seq<TrackEvent>>, s1: Seq<Step>, s2: Seq<Step>, n: int)
    requires
        is_schedule(tr, s1),
        is_schedule(tr, s2),
        s1.len() == s2.len(),
        0 <= n <= s1.len(),
        forall|k: int| 0 <= k < s1.len() ==> same_event(#[trigger] s1[k], s2[k]) && s1[k].tick == s2[k].tick,
    ensures
        forall|k: int| 0 <= k < n ==> #[trigger] s1[k] == s2[k],
    decreases n,
{
    if n > 0 {
        lemma_schedule_prefix_equal(tr, s1, s2, n - 1);
        let k = n - 1;
        lemma_tempo_prefix(tr, s1, s2, k);
        assert(s1[k].tempo == tempo_before(tr, s1, k));
        assert(s2[k].tempo == tempo_before(tr, s2, k));
        assert(same_event(s1[k], s2[k]) && s1[k].tick == s2[k].tick);
        if k > 0 {
            assert(same_event(s1[k - 1], s2[k - 1]) && s1[k - 1].tick == s2[k - 1].tick);
        }
        assert(s1[k].advance == s2[k].advance);
    }
}

} // verus!
