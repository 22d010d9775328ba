//! Shifting signals in time.
use vstd::prelude::*;

use crate::interpolation::InterpolationMethod;
use crate::signal::{lemma_interpolate_in_domain, lower_index, strictly_increasing, Signal};

verus! {

/// `k` splits the sorted `ts` into the time points before `delta` and the rest.
pub open spec fn is_split_index(ts: Seq<u64>, delta: u64, k: int) -> bool {
    &&& 0 <= k <= ts.len()
    &&& forall|i: int| 0 <= i < k ==> ts[i] < delta
    &&& forall|i: int| k <= i < ts.len() ==> ts[i] >= delta
}

/// The number of time points of `ts` before `delta`.
pub open spec fn split_index(ts: Seq<u64>, delta: u64) -> int {
    choose|k: int| is_split_index(ts, delta, k)
}

/// There is exactly one split index.
pub proof fn lemma_split_index(ts: Seq<u64>, delta: u64, k: int)
    requires
        is_split_index(ts, delta, k),
    ensures
        split_index(ts, delta) == k,
{
    let j = split_index(ts, delta);
    assert(is_split_index(ts, delta, j));
    if j < k {
        assert(ts[j] >= delta);
    }
    if j > k {
        assert(ts[k] >= delta);
    }
}

/// Sorted time points always have a split index.
pub proof fn lemma_split_index_exists(ts: Seq<u64>, delta: u64)
    requires
        strictly_increasing(ts),
    ensures
        is_split_index(ts, delta, split_index(ts, delta)),
    decreases ts.len(),
{
    if ts.len() == 0 {
        assert(is_split_index(ts, delta, 0));
    } else {
        let p = ts.drop_last();
        lemma_split_index_exists(p, delta);
        let k = split_index(p, delta);
        if ts.last() < delta {
            assert forall|i: int| 0 <= i < ts.len() implies ts[i] < delta by {
                if i < ts.len() - 1 {
                    assert(ts[i] < ts.last());
                }
            }
            assert(is_split_index(ts, delta, ts.len() as int));
        } else {
            assert(is_split_index(p, delta, k));
            assert forall|i: int| k <= i < ts.len() implies ts[i] >= delta by {
                if i < ts.len() - 1 {
                    assert(p[i] >= delta);
                }
            }
            assert forall|i: int| 0 <= i < k implies ts[i] < delta by {
                assert(p[i] < delta);
            }
            assert(is_split_index(ts, delta, k));
        }
    }
}

/// The time points `ts` moved earlier by `delta`.
pub open spec fn shifted_times(ts: Seq<u64>, delta: u64) -> Seq<u64> {
    ts.map_values(|t: u64| (t - delta) as u64)
}

impl<T: Copy> Signal<T> {
    /// A value at `delta` is added at time zero when shifting left by `delta`: there is
    /// a sample at or after `delta`, one before it, and none exactly at it.
    pub open spec fn shift_adds_start(&self, delta: u64) -> bool {
        let ts = self.times();
        let k = split_index(ts, delta);
        0 < k < ts.len() && ts[k] != delta
    }

    /// The time points of the signal shifted left by `delta` (see [`Signal::shift_left`]).
    pub open spec fn left_shifted_times(&self, delta: u64) -> Seq<u64> {
        let ts = self.times();
        let k = split_index(ts, delta);
        if self.shift_adds_start(delta) {
            seq![0u64] + shifted_times(ts.skip(k), delta)
        } else {
            shifted_times(ts.skip(k), delta)
        }
    }

    /// The values of the signal shifted left by `delta` (see [`Signal::shift_left`]).
    pub open spec fn left_shifted_vals<I: InterpolationMethod<T>>(&self, delta: u64) -> Seq<T> {
        let k = split_index(self.times(), delta);
        if self.shift_adds_start(delta) {
            seq![self.spec_interpolate_at::<I>(delta).unwrap()] + self.vals().skip(k)
        } else {
            self.vals().skip(k)
        }
    }

    /// Shift all samples in the signal by `delta` amount to the right, that is, add
    /// `delta` to all time points.
    ///
    /// Empty and constant signals are returned as they are. No shifted time point may
    /// exceed the range of time points.
    pub fn shift_right(&self, delta: u64) -> (r: Self)
        requires
            self.wf(),
            self.has_samples() ==> self.times().last() + delta <= u64::MAX,
        ensures
            r.wf(),
            !(self is Sampled) ==> r == *self,
            self is Sampled ==> (r is Sampled) && r.vals() == self.vals() && r.times()
                == self.times().map_values(|t: u64| (t + delta) as u64),
    {
        match self {
            Signal::Empty => Signal::Empty,
            Signal::Constant { value } => Signal::Constant { value: *value },
            Signal::Sampled { values, time_points } => {
                let n = time_points.len();
                let mut times: Vec<u64> = Vec::with_capacity(n);
                let mut vals: Vec<T> = Vec::with_capacity(n);
                let mut i: usize = 0;
                while i < n
                    invariant
                        n == time_points@.len(),
                        n == values@.len(),
                        vals@ == values@.take(i as int),
                        strictly_increasing(time_points@),
                        n > 0 ==> time_points@[n - 1] + delta <= u64::MAX,
                        i <= n,
                        times@ == time_points@.take(i as int).map_values(|t: u64| (t + delta) as u64),
                    decreases n - i,
                {
                    proof {
                        if i < n - 1 {
                            assert(time_points@[i as int] < time_points@[n - 1]);
                        }
                    }
                    times.push(time_points[i] + delta);
                    vals.push(values[i]);
                    proof {
                        assert(values@.take(i + 1) =~= values@.take(i as int).push(values@[i as int]));
                        assert(time_points@.take(i + 1) =~= time_points@.take(i as int).push(
                            time_points@[i as int],
                        ));
                        assert(time_points@.take(i + 1).map_values(|t: u64| (t + delta) as u64)
                            =~= time_points@.take(i as int).map_values(|t: u64| (t + delta) as u64).push(
                            (time_points@[i as int] + delta) as u64,
                        ));
                    }
                    i = i + 1;
                }
                proof {
                    assert(time_points@.take(n as int) =~= time_points@);
                    assert(values@.take(n as int) =~= values@);
                    assert forall|a: int, b: int| 0 <= a < b < times@.len() implies times@[a]
                        < times@[b] by {
                        assert(time_points@[a] < time_points@[b]);
                    }
                }
                Signal::Sampled { values: vals, time_points: times }
            },
        }
    }

    /// Shift all samples in the signal by `delta` amount to the left.
    ///
    /// Samples before `delta` are dropped and `delta` is subtracted from the other
    /// time points. When the shifted signal would not start at time zero and there is
    /// an earlier sample, the value at `delta`, interpolated with `I`, is added at time
    /// zero. A sampled signal with no sample at or after `delta` becomes empty; empty
    /// and constant signals are returned as they are.
    pub fn shift_left<I: InterpolationMethod<T>>(&self, delta: u64) -> (r: Self)
        requires
            self.wf(),
        ensures
            r.wf(),
            !(self is Sampled) ==> r == *self,
            self is Sampled && split_index(self.times(), delta) == self.times().len() ==> (r is Empty),
            self is Sampled && split_index(self.times(), delta) < self.times().len() ==> {
                &&& r is Sampled
                &&& r.times() == self.left_shifted_times(delta)
                &&& r.vals() == self.left_shifted_vals::<I>(delta)
            },
    {
        match self {
            Signal::Empty => Signal::Empty,
            Signal::Constant { value } => Signal::Constant { value: *value },
            Signal::Sampled { values, time_points } => {
                let n = time_points.len();
                let k = lower_index(time_points, delta);
                proof {
                    lemma_split_index(time_points@, delta, k as int);
                }
                if k == n {
                    return Signal::Empty;
                }
                let (mut times, mut vals) = shifted_tail(values, time_points, k, delta);
                if k > 0 && time_points[k] != delta {
                    proof {
                        assert(time_points@[k - 1] < delta);
                        assert(self.in_domain(delta));
                        lemma_interpolate_in_domain::<T, I>(*self, delta);
                    }
                    let v = self.interpolate_at::<I>(delta).unwrap();
                    let ghost old_t = times@;
                    times.insert(0, 0);
                    vals.insert(0, v);
                    proof {
                        assert(times@ =~= seq![0u64] + old_t);
                        assert(old_t[0] > 0);
                        assert forall|a: int, b: int| 0 <= a < b < times@.len() implies times@[a]
                            < times@[b] by {
                            if a > 0 {
                                assert(old_t[a - 1] < old_t[b - 1]);
                            } else if b > 1 {
                                assert(old_t[0] < old_t[b - 1]);
                            }
                        }
                    }
                }
                Signal::Sampled { values: vals, time_points: times }
            },
        }
    }
}

/// The samples of `values`/`time_points` from index `k` on, moved earlier by `delta`.
fn shifted_tail<T: Copy>(values: &Vec<T>, time_points: &Vec<u64>, k: usize, delta: u64) -> (r: (
    Vec<u64>,
    Vec<T>,
))
    requires
        values@.len() == time_points@.len(),
        strictly_increasing(time_points@),
        k < time_points@.len(),
        forall|i: int| k <= i < time_points@.len() ==> time_points@[i] >= delta,
    ensures
        r.0@ == shifted_times(time_points@.skip(k as int), delta),
        r.1@ == values@.skip(k as int),
        strictly_increasing(r.0@),
        r.0@.len() > 0,
        r.0@[0] == time_points@[k as int] - delta,
{
    let n = time_points.len();
    let mut times: Vec<u64> = Vec::with_capacity(n - k);
    let mut vals: Vec<T> = Vec::with_capacity(n - k);
    let mut j: usize = k;
    while j < n
        invariant
            n == time_points@.len(),
            n == values@.len(),
            k < n,
            forall|i: int| k <= i < n ==> time_points@[i] >= delta,
            k <= j <= n,
            times@ == shifted_times(time_points@.subrange(k as int, j as int), delta),
            vals@ == values@.subrange(k as int, j as int),
        decreases n - j,
    {
        times.push(time_points[j] - delta);
        vals.push(values[j]);
        proof {
            assert(time_points@.subrange(k as int, j + 1) =~= time_points@.subrange(
                k as int,
                j as int,
            ).push(time_points@[j as int]));
            assert(shifted_times(time_points@.subrange(k as int, j + 1), delta) =~= shifted_times(
                time_points@.subrange(k as int, j as int),
                delta,
            ).push((time_points@[j as int] - delta) as u64));
            assert(values@.subrange(k as int, j + 1) =~= values@.subrange(k as int, j as int).push(
                values@[j as int],
            ));
        }
        j = j + 1;
    }
    proof {
        assert(time_points@.subrange(k as int, n as int) =~= time_points@.skip(k as int));
        assert(values@.subrange(k as int, n as int) =~= values@.skip(k as int));
        let sh = times@;
        assert forall|a: int, b: int| 0 <= a < b < sh.len() implies sh[a] < sh[b] by {
            assert(time_points@[k + a] < time_points@[k + b]);
        }
    }
    (times, vals)
}

} // verus!
