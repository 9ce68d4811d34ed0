//! Where frames are taken from a video: evenly spread sample points for the
//! dataset, the stepping through a video during recognition, and the number
//! of parallel frame extractions.
use vstd::prelude::*;
use crate::binary64::{f64_scaled_ratio, lemma_scaled_ratio_close, scaled_ratio};
use vstd::arithmetic::power2::{lemma2_to64, lemma_pow2_adds, pow2};

verus! {

/// How many points are taken: `min(max_samples, duration_sec + 1)`.
pub open spec fn sample_target(duration_sec: u64, max_samples: usize) -> int {
    if (max_samples as int) <= duration_sec + 1 {
        max_samples as int
    } else {
        duration_sec + 1
    }
}

/// The `i`-th of `t` points spread over `[0, d]`:
/// `((i as f64 / (t - 1) as f64) * d as f64).round() as u64`.
pub open spec fn uniform_point(i: int, d: u64, t: int) -> u64 {
    scaled_ratio(i as nat, (t - 1) as nat, d as nat) as u64
}

/// `s` without the values equal to the one just before them.
pub open spec fn drop_repeats(s: Seq<u64>) -> Seq<u64>
    decreases s.len(),
{
    if s.len() == 0 {
        s
    } else {
        let r = drop_repeats(s.drop_last());
        if r.len() > 0 && r.last() == s.last() {
            r
        } else {
            r.push(s.last())
        }
    }
}

/// The sample points of a video of `duration_sec` seconds: none when no
/// sample is asked for, second 0 of an empty video, the middle when one
/// sample is asked for, and otherwise `min(max_samples, duration_sec + 1)`
/// points spread evenly from the first to the last second (see
/// `uniform_point`), a point equal to the one before it left out.
pub open spec fn uniform_points_spec(duration_sec: u64, max_samples: usize) -> Seq<u64> {
    let t = sample_target(duration_sec, max_samples);
    if max_samples == 0 {
        Seq::empty()
    } else if duration_sec == 0 {
        seq![0u64]
    } else if t <= 1 {
        seq![duration_sec / 2]
    } else {
        drop_repeats(Seq::new(t as nat, |i: int| uniform_point(i, duration_sec, t)))
    }
}

/// Videos shorter than this many seconds (about 35 million years) get
/// points that increase strictly and end at the last second: the binary64
/// rounding then stays within a second of the exact point.
pub const EXACT_SPREAD_LIMIT: u64 = 0x4_0000_0000_0000;

/// For `2 <= t <= d + 1` and `d < EXACT_SPREAD_LIMIT`: the points start at
/// 0, end at `d`, stay within `[0, d]` and never decrease.
pub proof fn lemma_uniform_points_spread(i: int, d: u64, t: int)
    requires
        2 <= t <= d + 1,
        d < EXACT_SPREAD_LIMIT,
        0 <= i < t,
    ensures
        uniform_point(i, d, t) <= d,
        i == 0 ==> uniform_point(i, d, t) == 0,
        i == t - 1 ==> uniform_point(i, d, t) == d,
        i + 1 < t ==> uniform_point(i, d, t) <= uniform_point(i + 1, d, t),
{
    lemma2_to64();
    lemma_pow2_adds(32, 18);
    assert(pow2(50) == EXACT_SPREAD_LIMIT);
    let m = (t - 1) as nat;
    lemma_scaled_ratio_close(i as nat, m, d as nat);
    let r = scaled_ratio(i as nat, m, d as nat);
    assert(r <= d) by (nonlinear_arith)
        requires
            (r as int) * m < i * d + m,
            i <= m,
            m >= 1,
    ;
    if i == t - 1 {
        assert(r == d) by (nonlinear_arith)
            requires
                (r as int) * m < i * d + m,
                (r as int) * m > i * d - m,
                i == m,
                m >= 1,
        ;
    }
    if i + 1 < t {
        lemma_scaled_ratio_close((i + 1) as nat, m, d as nat);
        let r2 = scaled_ratio((i + 1) as nat, m, d as nat);
        assert(r <= r2) by (nonlinear_arith)
            requires
                (r as int) * m < i * d + m,
                (r2 as int) * m > (i + 1) * d - m,
                m <= d,
                m >= 1,
        ;
    }
}

/// Evenly spread sample points of a video, in seconds (see
/// `uniform_points_spec`), computed as binary64 arithmetic rounds. No point
/// equals the one before it, and with two or more points the first is
/// second 0. For videos shorter than `EXACT_SPREAD_LIMIT` the points
/// increase strictly, stay within the video and, with two or more of them,
/// end at the last second.
pub fn build_uniform_sample_points(duration_sec: u64, max_samples: usize) -> (points: Vec<u64>)
    requires
        duration_sec < u64::MAX,
    ensures
        points@ == uniform_points_spec(duration_sec, max_samples),
        max_samples > 0 ==> points@.len() >= 1,
        forall|k: int| 0 <= k < points@.len() - 1 ==> #[trigger] points@[k] != points@[k + 1],
        points@.len() >= 2 ==> points@[0] == 0,
        duration_sec < EXACT_SPREAD_LIMIT ==> {
            &&& forall|i: int, j: int| 0 <= i < j < points@.len() ==> points@[i] < points@[j]
            &&& forall|i: int| 0 <= i < points@.len() ==> points@[i] <= duration_sec
            &&& points@.len() >= 2 ==> points@.last() == duration_sec
        },
{
    if max_samples == 0 {
        return Vec::new();
    }
    if duration_sec == 0 {
        let mut v: Vec<u64> = Vec::new();
        v.push(0);
        assert(v@ =~= seq![0u64]);
        return v;
    }
    let target: usize = if (max_samples as u128) <= (duration_sec as u128) + 1 {
        max_samples
    } else {
        (duration_sec + 1) as usize
    };
    assert(target == sample_target(duration_sec, max_samples));
    if target <= 1 {
        let mut v: Vec<u64> = Vec::new();
        v.push(duration_sec / 2);
        assert(v@ =~= seq![duration_sec / 2]);
        return v;
    }
    let ghost t = target as int;
    let ghost want = Seq::new(t as nat, |i: int| uniform_point(i, duration_sec, t));
    let m: u64 = (target - 1) as u64;
    let mut points: Vec<u64> = Vec::new();
    for i in 0..target
        invariant
            t == target as int,
            2 <= t,
            m == t - 1,
            duration_sec > 0,
            want == Seq::new(t as nat, |k: int| uniform_point(k, duration_sec, t)),
            points@ == drop_repeats(want.take(i as int)),
            i > 0 ==> points@.len() > 0 && points@.last() == want[i - 1],
            i > 0 ==> points@[0] == want[0],
            forall|k: int| 0 <= k < points@.len() - 1 ==> #[trigger] points@[k] != points@[k + 1],
            t <= duration_sec + 1,
            duration_sec < EXACT_SPREAD_LIMIT ==> forall|a: int, b: int|
                0 <= a < b < points@.len() ==> points@[a] < points@[b],
            duration_sec < EXACT_SPREAD_LIMIT ==> forall|a: int|
                0 <= a < points@.len() ==> points@[a] <= duration_sec,
    {
        let sec = f64_scaled_ratio(i as u64, m, duration_sec);
        assert(sec == want[i as int]);
        proof {
            if duration_sec < EXACT_SPREAD_LIMIT {
                lemma_uniform_points_spread(i as int, duration_sec, t);
                if i > 0 {
                    lemma_uniform_points_spread(i - 1, duration_sec, t);
                }
            }
        }
        assert(want.take(i + 1).drop_last() =~= want.take(i as int));
        if points.len() == 0 || points[points.len() - 1] != sec {
            points.push(sec);
        }
        assert(points@ =~= drop_repeats(want.take(i + 1)));
    }
    proof {
        assert(want.take(t) =~= want);
        assert(want[0] == 0);
        if duration_sec < EXACT_SPREAD_LIMIT {
            lemma_uniform_points_spread(t - 1, duration_sec, t);
        }
    }
    points
}

// ---------------------------------------------------------------------------
// Frame extraction workers
// ---------------------------------------------------------------------------

/// `x.clamp(lo, hi)` for `lo <= hi`.
pub open spec fn clamp_int(x: int, lo: int, hi: int) -> int {
    if x < lo { lo } else if x > hi { hi } else { x }
}

/// The bound that memory puts on parallel extractions: fewer workers when
/// more samples are taken per video.
pub open spec fn memory_bound(max_samples_per_video: usize) -> int {
    if max_samples_per_video >= 200 {
        2
    } else if max_samples_per_video >= 120 {
        3
    } else {
        4
    }
}

/// Half the CPUs, between 1 and 6, and no more than the memory bound.
pub open spec fn recommended_workers_spec(cpu: usize, max_samples_per_video: usize) -> int {
    let c = clamp_int(cpu as int / 2, 1, 6);
    let m = memory_bound(max_samples_per_video);
    if c <= m { c } else { m }
}

/// The number of parallel frame extractions when none is asked for, from the
/// number of CPUs that the machine reports.
pub fn recommended_extract_workers(cpu: usize, max_samples_per_video: usize) -> (r: usize)
    ensures
        r == recommended_workers_spec(cpu, max_samples_per_video),
        1 <= r <= 4,
{
    let half = cpu / 2;
    let cpu_bound: usize = if half < 1 { 1 } else if half > 6 { 6 } else { half };
    let memory: usize = if max_samples_per_video >= 200 {
        2
    } else if max_samples_per_video >= 120 {
        3
    } else {
        4
    };
    if cpu_bound <= memory { cpu_bound } else { memory }
}

/// Samples per video: 60 unless given, kept between 10 and 500.
pub open spec fn max_samples_spec(requested: Option<u32>) -> int {
    clamp_int(
        match requested {
            Some(v) => v as int,
            None => 60,
        },
        10,
        500,
    )
}

pub fn resolve_max_samples(requested: Option<u32>) -> (r: usize)
    ensures
        r == max_samples_spec(requested),
{
    let v: u32 = match requested {
        Some(v) => v,
        None => 60,
    };
    let c: u32 = if v < 10 { 10 } else if v > 500 { 500 } else { v };
    c as usize
}

/// Parallel extractions: the recommendation when none (or zero) is asked
/// for, otherwise the request kept between 1 and 8.
pub open spec fn extract_workers_spec(requested: Option<u32>, max_samples: usize, cpu: usize) -> int {
    let v = match requested {
        Some(v) => v,
        None => 0u32,
    };
    if v == 0 {
        recommended_workers_spec(cpu, max_samples)
    } else {
        clamp_int(v as int, 1, 8)
    }
}

pub fn resolve_extract_workers(requested: Option<u32>, max_samples: usize, cpu: usize) -> (r: usize)
    ensures
        r == extract_workers_spec(requested, max_samples, cpu),
        1 <= r <= 8,
{
    let v: u32 = match requested {
        Some(v) => v,
        None => 0,
    };
    if v == 0 {
        recommended_extract_workers(cpu, max_samples)
    } else if v > 8 {
        8
    } else {
        v as usize
    }
}

// ---------------------------------------------------------------------------
// Stepping through a video during recognition
// ---------------------------------------------------------------------------

/// The step between recognised frames: the given interval, at least 1 s.
pub fn frame_step(interval_sec: u32) -> (r: u64)
    ensures
        r == if interval_sec == 0 { 1 } else { interval_sec },
        r >= 1,
{
    if interval_sec == 0 { 1 } else { interval_sec as u64 }
}

/// The second after `sec` in `(0..=duration_sec).step_by(step)`: `sec + step`
/// while that is within the video.
pub fn next_frame_second(sec: u64, step: u64, duration_sec: u64) -> (r: Option<u64>)
    ensures
        r == (if sec + step <= duration_sec { Some((sec + step) as u64) } else { None::<u64> }),
{
    if step <= duration_sec && sec <= duration_sec - step {
        Some(sec + step)
    } else {
        None
    }
}

} // verus!
