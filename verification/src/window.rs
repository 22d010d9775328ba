//! Extremes of a sampled signal over a window of time that slides along it.
use vstd::prelude::*;

use crate::interpolation::InterpolationMethod;
use crate::order::{at_least_rank, Ranked};
use crate::signal::{interpolated_value_at, lemma_interpolate_in_domain, strictly_increasing, Signal};
use crate::sync::merge_within;
use crate::wedge::{at_least, is_purged, times_of, MonoWedge};

verus! {

/// `v` is the extreme (the maximum when `take_max`, else the minimum) of the values of
/// the samples whose time points lie between `lo` and `hi` (both included), and there
/// is such a sample.
pub open spec fn is_window_extreme<T: Ranked>(
    take_max: bool,
    v: T,
    ts: Seq<u64>,
    vs: Seq<T>,
    lo: int,
    hi: int,
) -> bool {
    &&& exists|j: int| #![trigger ts[j]] 0 <= j < ts.len() && lo <= ts[j] <= hi && vs[j] == v
    &&& forall|j: int|
        #![trigger ts[j]]
        0 <= j < ts.len() && lo <= ts[j] <= hi ==> at_least_rank(take_max, v, vs[j])
}

/// The samples with time points `ts` and values `vs`, as pairs.
pub open spec fn samples_of<T>(ts: Seq<u64>, vs: Seq<T>) -> Seq<(u64, T)> {
    Seq::new(ts.len(), |k: int| (ts[k], vs[k]))
}

/// Purging, at the time of the `i`-th sample, a run of samples that starts at or before
/// it leaves the samples from the `i`-th on.
proof fn lemma_purged_run<T>(s: Seq<(u64, T)>, lo: int, i: int, hi: int, after: Seq<(u64, T)>)
    requires
        0 <= lo <= i < hi <= s.len(),
        strictly_increasing(times_of(s)),
        is_purged(s.subrange(lo, hi), after, s[i].0 as int),
    ensures
        after == s.subrange(i, hi),
{
    let before = s.subrange(lo, hi);
    let d = choose|d: int|
        0 <= d <= before.len() && after == before.skip(d) && (forall|k: int|
            0 <= k < d ==> before[k].0 < s[i].0) && (forall|k: int|
            d <= k < before.len() ==> before[k].0 >= s[i].0);
    if d > i - lo {
        assert(before[i - lo].0 < s[i].0);
    }
    if d < i - lo {
        assert(before[d].0 >= s[i].0);
        assert(times_of(s)[lo + d] < times_of(s)[i]);
    }
    assert(after =~= s.subrange(i, hi));
}

/// The extreme of the values of the samples in the window from each time point to
/// `width` later, at each time point.
///
/// The time points must be strictly increasing, with one value for each.
pub fn sliding_extreme<T: Ranked>(times: &Vec<u64>, values: &Vec<T>, width: u64, take_max: bool) -> (r: Vec<T>)
    requires
        times@.len() == values@.len(),
        strictly_increasing(times@),
    ensures
        r@.len() == times@.len(),
        forall|i: int|
            0 <= i < r@.len() ==> is_window_extreme(
                take_max,
                #[trigger] r@[i],
                times@,
                values@,
                times@[i] as int,
                times@[i] + width,
            ),
{
    let n = times.len();
    let ghost s = samples_of(times@, values@);
    proof {
        assert(times_of(s) =~= times@);
    }
    let mut wedge: MonoWedge<T> = MonoWedge::new(take_max);
    let mut out: Vec<T> = Vec::with_capacity(n);
    let mut hi: usize = 0;
    let mut i: usize = 0;
    let ghost mut lo: int = 0;
    while i < n
        invariant
            n == times@.len(),
            n == values@.len(),
            s == samples_of(times@, values@),
            strictly_increasing(times@),
            strictly_increasing(times_of(s)),
            wedge.wf(),
            wedge.keeps_max() == take_max,
            0 <= lo <= i <= hi <= n,
            wedge.live() == s.subrange(lo, hi as int),
            forall|k: int| i <= k < hi ==> times@[k] <= times@[i as int] + width,
            out@.len() == i,
            forall|k: int|
                0 <= k < i ==> is_window_extreme(
                    take_max,
                    #[trigger] out@[k],
                    times@,
                    values@,
                    times@[k] as int,
                    times@[k] + width,
                ),
        decreases n - i,
    {
        // Take in the samples up to `width` after the current time point.
        while hi < n && times[hi] - times[i] <= width
            invariant
                n == times@.len(),
                n == values@.len(),
                s == samples_of(times@, values@),
                strictly_increasing(times@),
                wedge.wf(),
                wedge.keeps_max() == take_max,
                0 <= lo <= i <= hi <= n,
                i < n,
                wedge.live() == s.subrange(lo, hi as int),
                forall|k: int| i <= k < hi ==> times@[k] <= times@[i as int] + width,
            decreases n - hi,
        {
            proof {
                if hi > i {
                    assert(times@[i as int] < times@[hi as int]);
                }
                if hi as int > lo {
                    assert(times@[hi - 1] < times@[hi as int]);
                }
            }
            wedge.update((times[hi], values[hi]));
            proof {
                assert(s.subrange(lo, hi + 1) =~= s.subrange(lo, hi as int).push(s[hi as int]));
            }
            hi = hi + 1;
        }
        proof {
            if hi == i {
                assert(times@[i as int] - times@[i as int] <= width);
            }
        }
        wedge.purge_before(times[i]);
        proof {
            lemma_purged_run(s, lo, i as int, hi as int, wedge.live());
            lo = i as int;
        }
        let v = match wedge.front() {
            Some((_, v)) => *v,
            None => {
                proof {
                    assert(false);
                }
                values[i]
            },
        };
        proof {
            let live = wedge.live();
            let k0 = choose|k: int| 0 <= k < live.len() && live[k].1 == v;
            assert(s[i + k0].1 == v);
            assert(times@[i + k0] <= times@[i as int] + width);
            if k0 > 0 {
                assert(times@[i as int] < times@[i + k0]);
            }
            assert forall|j: int|
                #![trigger times@[j]]
                0 <= j < n && times@[i as int] <= times@[j] <= times@[i as int] + width implies at_least_rank(
                take_max,
                v,
                values@[j],
            ) by {
                if j < i {
                    assert(times@[j] < times@[i as int]);
                }
                if j >= hi {
                    if hi < n && j > hi {
                        assert(times@[hi as int] < times@[j]);
                    }
                    assert(hi < n);
                    assert(times@[hi as int] - times@[i as int] > width);
                }
                assert(live[j - i] == s[j]);
                assert(at_least(take_max, v, live[j - i].1));
            }
            assert(is_window_extreme(take_max, v, times@, values@, times@[i as int] as int, times@[i as int] + width));
        }
        out.push(v);
        proof {
            assert forall|k: int| i + 1 <= k < hi implies #[trigger] times@[k] <= times@[i + 1] + width by {
                assert(times@[i as int] < times@[i + 1]);
            }
        }
        i = i + 1;
    }
    out
}

/// `s` holds, in increasing order, the time points of `ts` and the time points, not
/// before the first of `ts`, that lie `width` before a time point of `ts`: the points at
/// which a window of that width starts or ends at a sample.
pub open spec fn is_window_grid(s: Seq<u64>, ts: Seq<u64>, width: u64) -> bool {
    &&& strictly_increasing(s)
    &&& forall|t: u64|
        s.contains(t) <==> (ts.contains(t) || (ts.len() > 0 && ts[0] <= t && t + width
            <= u64::MAX && ts.contains((t + width) as u64)))
}

/// The time points at which a window of `width` starts or ends at a time point of `ts`.
pub open spec fn window_grid(ts: Seq<u64>, width: u64) -> Seq<u64> {
    choose|s: Seq<u64>| is_window_grid(s, ts, width)
}

/// The time points, not before the first of `ts`, that lie `width` before a time point
/// of `ts`, in increasing order.
fn lead_points(ts: &Vec<u64>, width: u64) -> (r: Vec<u64>)
    requires
        strictly_increasing(ts@),
        ts@.len() > 0,
    ensures
        strictly_increasing(r@),
        forall|t: u64|
            r@.contains(t) <==> (ts@[0] <= t && t + width <= u64::MAX && ts@.contains(
                (t + width) as u64,
            )),
{
    let n = ts.len();
    let first = ts[0];
    let mut out: Vec<u64> = Vec::new();
    let mut j: usize = 0;
    while j < n
        invariant
            n == ts@.len(),
            n > 0,
            first == ts@[0],
            j <= n,
            strictly_increasing(ts@),
            strictly_increasing(out@),
            forall|k: int| 0 <= k < out@.len() ==> (j < n ==> out@[k] + width < ts@[j as int]),
            forall|t: u64|
                out@.contains(t) <==> (first <= t && t + width <= u64::MAX && ts@.take(
                    j as int,
                ).contains((t + width) as u64)),
        decreases n - j,
    {
        let ghost old_out = out@;
        proof {
            assert(ts@.take(j + 1) =~= ts@.take(j as int).push(ts@[j as int]));
            if j > 0 {
                assert(ts@[0] < ts@[j as int]);
            }
        }
        let pushed = ts[j] - first >= width;
        if pushed {
            out.push(ts[j] - width);
        }
        proof {
            let x = ts@[j as int];
            if pushed {
                assert(out@ == old_out.push((x - width) as u64));
            } else {
                assert(out@ == old_out);
            }
            assert forall|k: int| 0 <= k < out@.len() && j + 1 < n implies #[trigger] out@[k] + width
                < ts@[j + 1] by {
                {
                    assert(ts@[j as int] < ts@[j + 1]);
                    if k < old_out.len() {
                        assert(old_out[k] + width < x);
                    }
                }
            }
            assert forall|t: u64|
                out@.contains(t) <==> (first <= t && t + width <= u64::MAX && ts@.take(
                    j + 1,
                ).contains((t + width) as u64)) by {
                assert(ts@.take(j + 1) =~= ts@.take(j as int).push(x));
                vstd::seq_lib::lemma_seq_contains_after_push(ts@.take(j as int), x, (t + width) as u64);
                if pushed {
                    vstd::seq_lib::lemma_seq_contains_after_push(old_out, (x - width) as u64, t);
                }
                if old_out.contains(t) {
                    let k = choose|k: int| 0 <= k < old_out.len() && old_out[k] == t;
                    assert(old_out[k] + width < x);
                }
            }
        }
        j = j + 1;
    }
    proof {
        assert(ts@.take(n as int) =~= ts@);
    }
    out
}

/// The time points at which a window of `width` starts or ends at a time point of
/// `ts` (see [`window_grid`]).
pub fn window_grid_points(ts: &Vec<u64>, width: u64) -> (r: Vec<u64>)
    requires
        strictly_increasing(ts@),
        ts@.len() > 0,
    ensures
        r@ == window_grid(ts@, width),
        is_window_grid(r@, ts@, width),
        forall|i: int| 0 <= i < r@.len() ==> ts@[0] <= #[trigger] r@[i] <= ts@.last(),
{
    let n = ts.len();
    let lead = lead_points(ts, width);
    let r = merge_within(ts, &lead, ts[0], ts[n - 1]);
    proof {
        assert forall|t: u64| ts@.contains(t) implies ts@[0] <= t <= ts@[n - 1] by {
            let k = choose|k: int| 0 <= k < n && ts@[k] == t;
            if k > 0 {
                assert(ts@[0] < ts@[k]);
            }
            if k < n - 1 {
                assert(ts@[k] < ts@[n - 1]);
            }
        }
        assert(is_window_grid(r@, ts@, width));
        crate::sync::lemma_sorted_unique(r@, window_grid(ts@, width));
        assert forall|i: int| 0 <= i < r@.len() implies ts@[0] <= #[trigger] r@[i] <= ts@.last() by {
            assert(r@.contains(r@[i]));
        }
    }
    r
}

/// The values, interpolated by `I`, at the time points `points` of the samples with
/// time points `ts` and values `vs`.
pub open spec fn resampled_vals<T, I: InterpolationMethod<T>>(ts: Seq<u64>, vs: Seq<T>, points: Seq<u64>) -> Seq<T> {
    points.map_values(|t: u64| interpolated_value_at::<T, I>(ts, vs, t).unwrap())
}

/// The signal `sig` sampled at the time points `points`, which lie in its domain, with
/// values interpolated by `I`.
pub fn resample<T: Copy, I: InterpolationMethod<T>>(sig: &Signal<T>, points: Vec<u64>) -> (r: Signal<T>)
    requires
        sig.wf(),
        sig is Sampled,
        strictly_increasing(points@),
        forall|i: int| 0 <= i < points@.len() ==> sig.in_domain(#[trigger] points@[i]),
    ensures
        r.wf(),
        r is Sampled,
        r.times() == points@,
        r.vals() == resampled_vals::<T, I>(sig.times(), sig.vals(), points@),
{
    let n = points.len();
    let mut vals: Vec<T> = Vec::with_capacity(n);
    let mut i: usize = 0;
    while i < n
        invariant
            n == points@.len(),
            i <= n,
            sig.wf(),
            forall|k: int| 0 <= k < points@.len() ==> sig.in_domain(#[trigger] points@[k]),
            sig is Sampled,
            vals@ == resampled_vals::<T, I>(sig.times(), sig.vals(), points@).take(i as int),
        decreases n - i,
    {
        proof {
            lemma_interpolate_in_domain::<T, I>(*sig, points@[i as int]);
        }
        let v = sig.interpolate_at::<I>(points[i]).unwrap();
        vals.push(v);
        proof {
            assert(vals@ =~= resampled_vals::<T, I>(sig.times(), sig.vals(), points@).take(i + 1));
        }
        i = i + 1;
    }
    proof {
        assert(vals@ =~= resampled_vals::<T, I>(sig.times(), sig.vals(), points@));
    }
    Signal::Sampled { values: vals, time_points: points }
}

} // verus!
