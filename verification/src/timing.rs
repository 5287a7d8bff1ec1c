//! Turning ticks into time: the length of a tick under a file's division
//! and tempo, and the time of each step of a playing order.
use vstd::prelude::*;

use crate::merge::Step;
use crate::midi::{Division, TimeCodeType};

verus! {

/// Frames per second of a time-code division (drop-frame 30 counts as 30).
pub open spec fn fps_of(t: TimeCodeType) -> int {
    match t {
        TimeCodeType::FPS24 => 24,
        TimeCodeType::FPS25 => 25,
        TimeCodeType::DF30 => 30,
        TimeCodeType::NDF30 => 30,
    }
}

/// `n / d` rounded to the nearest whole number, a half rounding up.
#[verifier::opaque]
pub open spec fn div_nearest(n: int, d: int) -> int {
    (2 * n + d) / (2 * d)
}

/// The length of one tick in nanoseconds, rounded to the nearest
/// nanosecond: a quarter note (`tempo` microseconds) over the ticks per
/// quarter note, or one frame over the ticks per frame (zero for a division
/// without ticks).
pub open spec fn tick_ns(division: Division, tempo: u32) -> int {
    match division {
        Division::TicksPerQuarterNote(t) => if t == 0 {
            0
        } else {
            div_nearest(tempo * 1000, t as int)
        },
        Division::TimeCode { frames_per_second, ticks_per_frame } => if ticks_per_frame == 0 {
            0
        } else {
            div_nearest(1_000_000_000int, fps_of(frames_per_second) * ticks_per_frame)
        },
    }
}

/// A tick never lasts less than nothing.
pub proof fn lemma_tick_ns_nonneg(division: Division, tempo: u32)
    ensures
        tick_ns(division, tempo) >= 0,
{
    match division {
        Division::TicksPerQuarterNote(t) => {
            if t > 0 {
                let q = tempo * 1000;
                reveal(div_nearest);
                assert((2 * q + t) / (2 * (t as int)) >= 0) by (nonlinear_arith)
                    requires
                        q == tempo * 1000,
                        tempo >= 0,
                        t > 0,
                ;
            }
        },
        Division::TimeCode { frames_per_second, ticks_per_frame } => {
            if ticks_per_frame > 0 {
                let f = fps_of(frames_per_second) * ticks_per_frame;
                assert(f > 0) by (nonlinear_arith)
                    requires
                        f == fps_of(frames_per_second) * ticks_per_frame,
                        fps_of(frames_per_second) >= 24,
                        ticks_per_frame > 0,
                ;
                reveal(div_nearest);
                assert((2 * 1_000_000_000int + f) / (2 * f) >= 0) by (nonlinear_arith)
                    requires
                        f > 0,
                ;
            }
        },
    }
}

/// A tick of the division has a length: it has ticks per quarter note, or
/// ticks per frame.
pub open spec fn division_nonzero(division: Division) -> bool {
    match division {
        Division::TicksPerQuarterNote(t) => t > 0,
        Division::TimeCode { ticks_per_frame, .. } => ticks_per_frame > 0,
    }
}

/// `x` as a `u64`, or `u64::MAX` when it is larger.
pub open spec fn saturate(x: int) -> u64 {
    if x > u64::MAX {
        u64::MAX
    } else {
        x as u64
    }
}

/// The time of step `k` in nanoseconds: each step adds its distance in
/// ticks, at the length of a tick under the tempo in force before it.
pub open spec fn step_time(division: Division, steps: Seq<Step>, k: int) -> int
    decreases k + 1,
{
    if k < 0 || k >= steps.len() {
        0
    } else {
        step_time(division, steps, k - 1) + tick_ns(division, steps[k].tempo) * steps[k].advance
    }
}

/// The times of a playing order's steps, in nanoseconds.
pub open spec fn times_of(division: Division, steps: Seq<Step>) -> Seq<u64> {
    Seq::new(steps.len(), |k: int| saturate(step_time(division, steps, k)))
}

/// The length of one tick, in nanoseconds (see `tick_ns`).
pub fn tick_duration_ns(division: Division, tempo: u32) -> (r: u64)
    requires
        division_nonzero(division),
    ensures
        r == tick_ns(division, tempo),
        r < 0x400_0000_0000,
{
    reveal(div_nearest);
    match division {
        Division::TicksPerQuarterNote(t) => {
            let q = tempo as u64 * 1000;
            let d = t as u64;
            let r = (2 * q + d) / (2 * d);
            assert(r <= q) by (nonlinear_arith)
                requires
                    r == (2 * q + d) / (2 * d),
                    d > 0,
                    q >= 0,
            ;
            r
        },
        Division::TimeCode { frames_per_second, ticks_per_frame } => {
            let fps: u64 = match frames_per_second {
                TimeCodeType::FPS24 => 24,
                TimeCodeType::FPS25 => 25,
                TimeCodeType::DF30 => 30,
                TimeCodeType::NDF30 => 30,
            };
            let per_frame = ticks_per_frame as u64;
            assert(fps * per_frame <= 30 * 255 && 0 < fps * per_frame) by (nonlinear_arith)
                requires
                    fps <= 30,
                    0 < fps,
                    0 < per_frame <= 255,
            ;
            let f = fps * per_frame;
            (2_000_000_000u64 + f) / (2 * f)
        },
    }
}

proof fn lemma_step_time_nonneg(division: Division, steps: Seq<Step>, k: int)
    ensures
        step_time(division, steps, k) >= 0,
    decreases k + 1,
{
    if 0 <= k < steps.len() {
        lemma_step_time_nonneg(division, steps, k - 1);
        lemma_tick_ns_nonneg(division, steps[k].tempo);
        assert(tick_ns(division, steps[k].tempo) * steps[k].advance >= 0) by (nonlinear_arith)
            requires
                tick_ns(division, steps[k].tempo) >= 0,
        ;
    }
}

/// The time of every step of a playing order, in nanoseconds from the
/// start; a time past `u64::MAX` nanoseconds reads `u64::MAX`.
pub fn step_times(division: Division, steps: &Vec<Step>) -> (times: Vec<u64>)
    requires
        steps.len() > 0 ==> division_nonzero(division),
    ensures
        times.len() == steps.len(),
        forall|k: int| 0 <= k < steps.len() ==> #[trigger] times@[k] == saturate(step_time(division, steps@, k)),
{
    let mut times: Vec<u64> = Vec::new();
    let mut acc: u64 = 0;
    let mut k: usize = 0;
    while k < steps.len()
        invariant
            k <= steps.len(),
            steps.len() > 0 ==> division_nonzero(division),
            times.len() == k,
            acc == saturate(step_time(division, steps@, k - 1)),
            forall|q: int| 0 <= q < k ==> #[trigger] times@[q] == saturate(step_time(division, steps@, q)),
        decreases steps.len() - k,
    {
        let s = steps[k];
        let tick = tick_duration_ns(division, s.tempo);
        let d = match tick.checked_mul(s.advance as u64) {
            Some(x) => x,
            None => u64::MAX,
        };
        proof {
            lemma_step_time_nonneg(division, steps@, k - 1);
            assert(tick * s.advance >= 0) by (nonlinear_arith)
                requires
                    tick >= 0,
            ;
        }
        acc = acc.saturating_add(d);
        times.push(acc);
        k += 1;
    }
    times
}

/// Steps later in the playing order never come earlier in time.
pub proof fn lemma_step_times_nondecreasing(division: Division, steps: Seq<Step>, j: int, k: int)
    requires
        0 <= j <= k < steps.len(),
    ensures
        step_time(division, steps, j) <= step_time(division, steps, k),
        saturate(step_time(division, steps, j)) <= saturate(step_time(division, steps, k)),
    decreases k - j,
{
    lemma_step_time_nonneg(division, steps, j);
    lemma_step_time_nonneg(division, steps, k);
    if j < k {
        lemma_step_times_nondecreasing(division, steps, j, k - 1);
        lemma_tick_ns_nonneg(division, steps[k].tempo);
        assert(tick_ns(division, steps[k].tempo) * steps[k].advance >= 0) by (nonlinear_arith)
            requires
                tick_ns(division, steps[k].tempo) >= 0,
        ;
    }
}

} // verus!
