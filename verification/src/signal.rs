//! Concrete signal types.
//!
//! A signal is either empty, constant throughout the time domain, or sampled at a
//! finite set of strictly increasing time points (nanoseconds, as `u64`).
use vstd::prelude::*;

use crate::bound::Bound;
use crate::error::{ArgusResult, Error};
use crate::interpolation::InterpolationMethod;

verus! {

/// A sequence of time points in which every point is strictly later than the ones before it.
pub open spec fn strictly_increasing(s: Seq<u64>) -> bool {
    forall|i: int, j: int| 0 <= i < j < s.len() ==> s[i] < s[j]
}

/// The value of the sample at `time` among samples with time points `ts` and values `vs`.
pub open spec fn sample_value_at<T>(ts: Seq<u64>, vs: Seq<T>, time: u64) -> Option<T> {
    if exists|i: int| 0 <= i < ts.len() && ts[i] == time {
        Some(vs[choose|i: int| 0 <= i < ts.len() && ts[i] == time])
    } else {
        None
    }
}

/// The value at `time` among samples with time points `ts` and values `vs`: the value
/// of the sample at `time` if there is one; before the first sample or after the
/// last, what `I` gives from that end sample; else the interpolation by `I` between
/// the two samples around `time`; and none where there are no samples.
pub open spec fn interpolated_value_at<T, I: InterpolationMethod<T>>(
    ts: Seq<u64>,
    vs: Seq<T>,
    time: u64,
) -> Option<T> {
    if exists|i: int| 0 <= i < ts.len() && ts[i] == time {
        sample_value_at(ts, vs, time)
    } else if ts.len() > 0 && time < ts[0] {
        I::spec_beyond(Sample { time: ts[0], value: vs[0] }, time)
    } else if ts.len() > 0 && time > ts.last() {
        I::spec_beyond(Sample { time: ts.last(), value: vs.last() }, time)
    } else if exists|k: int| #![trigger ts[k]] 1 <= k < ts.len() && ts[k - 1] < time < ts[k] {
        let k = choose|k: int| #![trigger ts[k]] 1 <= k < ts.len() && ts[k - 1] < time < ts[k];
        I::spec_at(
            Sample { time: ts[k - 1], value: vs[k - 1] },
            Sample { time: ts[k], value: vs[k] },
            time,
        )
    } else {
        None
    }
}

/// A value of a signal at a time point.
#[derive(Clone, Copy, Debug)]
pub struct Sample<T> {
    /// The time point of the sample.
    pub time: u64,
    /// The value of the sample.
    pub value: T,
}

/// A typed signal.
///
/// A signal can either be empty, constant throughout its domain, or sampled at a
/// finite set of strictly monotonically increasing time points.
#[derive(Clone, Debug)]
pub enum Signal<T> {
    /// A signal that has no value at any time.
    Empty,
    /// A signal with the same value at every time.
    Constant {
        /// The value of the signal.
        value: T,
    },
    /// A signal with values at finitely many time points.
    Sampled {
        /// `values[i]` is the value of the signal at `time_points[i]`.
        values: Vec<T>,
        /// The time points of the samples, in strictly increasing order.
        time_points: Vec<u64>,
    },
}

impl<T> Signal<T> {
    /// The signal is in the shape the library keeps: as many values as time points,
    /// and the time points strictly increasing.
    pub open spec fn wf(&self) -> bool {
        match self {
            Signal::Sampled { values, time_points } => {
                &&& values@.len() == time_points@.len()
                &&& strictly_increasing(time_points@)
            },
            _ => true,
        }
    }

    /// The time points of the samples (no time points unless the signal is sampled).
    pub open spec fn times(&self) -> Seq<u64> {
        match self {
            Signal::Sampled { values: _, time_points } => time_points@,
            _ => Seq::empty(),
        }
    }

    /// The values of the samples (no values unless the signal is sampled).
    pub open spec fn vals(&self) -> Seq<T> {
        match self {
            Signal::Sampled { values, time_points: _ } => values@,
            _ => Seq::empty(),
        }
    }

    /// The `i`-th sample of a sampled signal.
    pub open spec fn sample(&self, i: int) -> Sample<T> {
        Sample { time: self.times()[i], value: self.vals()[i] }
    }

    /// The signal is sampled, at at least one time point.
    pub open spec fn has_samples(&self) -> bool {
        self is Sampled && self.times().len() > 0
    }

    /// The time point lies in the domain of the signal: anywhere for a constant signal,
    /// between the first and last time points for a sampled one.
    pub open spec fn in_domain(&self, t: u64) -> bool {
        self is Constant || (self.has_samples() && self.times()[0] <= t <= self.times().last())
    }

    /// The signal has no value at any time.
    pub open spec fn spec_is_empty(&self) -> bool {
        self is Empty || (self is Sampled && self.times().len() == 0)
    }

    /// The bounds of the domain of the signal.
    pub open spec fn spec_bounds(&self) -> Option<(Bound, Bound)> {
        match self {
            Signal::Empty => None,
            Signal::Constant { value: _ } => Some((Bound::Unbounded, Bound::Unbounded)),
            Signal::Sampled { values: _, time_points } => if time_points@.len() == 0 {
                None
            } else {
                Some((Bound::Included(time_points@[0]), Bound::Included(time_points@.last())))
            },
        }
    }

    /// The value of the signal at `time`, where the signal holds one (no interpolation).
    pub open spec fn spec_at(&self, time: u64) -> Option<T> {
        match self {
            Signal::Empty => None,
            Signal::Constant { value } => Some(*value),
            Signal::Sampled { values, time_points } => sample_value_at(time_points@, values@, time),
        }
    }

    /// The value of the signal at `time`, using the interpolation method `I` between
    /// the two samples around `time`.
    ///
    /// Outside the domain of a sampled signal, `I` gives the value, if any, from the
    /// nearer end sample (see [`interpolated_value_at`]).
    pub open spec fn spec_interpolate_at<I: InterpolationMethod<T>>(&self, time: u64) -> Option<T> {
        match self {
            Signal::Empty => None,
            Signal::Constant { value } => Some(*value),
            Signal::Sampled { values, time_points } => interpolated_value_at::<T, I>(
                time_points@,
                values@,
                time,
            ),
        }
    }

    /// Create a new empty signal
    pub fn new() -> (r: Self)
        ensures
            r is Empty,
    {
        Signal::Empty
    }

    /// Create a new constant signal
    pub fn constant(value: T) -> (r: Self)
        ensures
            r == (Signal::Constant { value }),
    {
        Signal::Constant { value }
    }

    /// Create a new sampled signal with no samples yet, with room for `size` samples.
    pub fn new_with_capacity(size: usize) -> (r: Self)
        ensures
            r is Sampled,
            r.times().len() == 0,
            r.vals().len() == 0,
            r.wf(),
    {
        Signal::Sampled { values: Vec::with_capacity(size), time_points: Vec::with_capacity(size) }
    }

    /// Get the bounds of the signal.
    ///
    /// Returns `None` if the signal is empty (either [`Signal::Empty`] or
    /// [`Signal::Sampled`] with no samples).
    pub fn bounds(&self) -> (r: Option<(Bound, Bound)>)
        requires
            self.wf(),
        ensures
            r == self.spec_bounds(),
    {
        match self {
            Signal::Empty => None,
            Signal::Constant { value: _ } => Some((Bound::Unbounded, Bound::Unbounded)),
            Signal::Sampled { values: _, time_points } => {
                if time_points.len() == 0 {
                    None
                } else {
                    Some(
                        (
                            Bound::Included(time_points[0]),
                            Bound::Included(time_points[time_points.len() - 1]),
                        ),
                    )
                }
            },
        }
    }

    /// Check if the signal is empty
    pub fn is_empty(&self) -> (r: bool)
        requires
            self.wf(),
        ensures
            r == self.spec_is_empty(),
            r == (self.spec_bounds() is None),
    {
        let bounds = match self.bounds() {
            Some(b) => b,
            None => return true,
        };
        match bounds {
            (Bound::Included(start), Bound::Included(end)) => start > end,
            (Bound::Included(start), Bound::Excluded(end)) => start >= end,
            (Bound::Excluded(start), Bound::Included(end)) => start >= end,
            (Bound::Excluded(start), Bound::Excluded(end)) => start >= end,
            _ => false,
        }
    }

    /// Get the time at which the given signal starts.
    pub fn start_time(&self) -> (r: Option<Bound>)
        requires
            self.wf(),
        ensures
            r == (match self.spec_bounds() {
                Some(b) => Some(b.0),
                None => None,
            }),
    {
        match self.bounds() {
            Some(b) => Some(b.0),
            None => None,
        }
    }

    /// Get the time at which the given signal ends.
    pub fn end_time(&self) -> (r: Option<Bound>)
        requires
            self.wf(),
        ensures
            r == (match self.spec_bounds() {
                Some(b) => Some(b.1),
                None => None,
            }),
    {
        match self.bounds() {
            Some(b) => Some(b.1),
            None => None,
        }
    }

    /// Push a new sample to the signal at the given time point.
    ///
    /// The time points of a signal must be strictly increasing: a sample at a time
    /// point that is not after the end of the signal is refused, and the signal is
    /// left unchanged. It is an error to push to an empty or a constant signal.
    pub fn push(&mut self, time: u64, value: T) -> (r: ArgusResult<()>)
        requires
            old(self).wf(),
        ensures
            final(self).wf(),
            !((*old(self)) is Sampled) ==> r == Err::<(), Error>(Error::InvalidPushToSignal),
            (*old(self)) is Sampled && old(self).times().len() > 0 && old(self).times().last()
                >= time ==> r == Err::<(), Error>(
                Error::NonMonotonicSignal {
                    end_time: old(self).times().last(),
                    current_sample: time,
                },
            ),
            r is Err ==> *final(self) == *old(self),
            r is Ok <==> ((*old(self)) is Sampled && (old(self).times().len() == 0
                || old(self).times().last() < time)),
            r is Ok ==> (*final(self)) is Sampled && final(self).times() == old(self).times().push(
                time,
            ) && final(self).vals() == old(self).vals().push(value),
    {
        match self {
            Signal::Sampled { values, time_points } => {
                let n = time_points.len();
                if n > 0 && time_points[n - 1] >= time {
                    Err(Error::NonMonotonicSignal { end_time: time_points[n - 1], current_sample: time })
                } else {
                    time_points.push(time);
                    values.push(value);
                    Ok(())
                }
            },
            _ => Err(Error::InvalidPushToSignal),
        }
    }

    /// Get the value of the signal at the given time point.
    ///
    /// If there exists a sample at the given time point then `Some(value)` is returned.
    /// Otherwise, `None` is returned. To interpolate the value at a given time, see
    /// [`interpolate_at`](Self::interpolate_at).
    pub fn at(&self, time: u64) -> (r: Option<&T>)
        requires
            self.wf(),
        ensures
            r is Some <==> self.spec_at(time) is Some,
            r is Some ==> *r.unwrap() == self.spec_at(time).unwrap(),
    {
        match self {
            Signal::Empty => None,
            Signal::Constant { value } => Some(value),
            Signal::Sampled { values, time_points } => {
                if time_points.len() == 0 {
                    return None;
                }
                let k = lower_index(time_points, time);
                if k < time_points.len() && time_points[k] == time {
                    proof {
                        lemma_index_unique(time_points@, k as int, time);
                    }
                    Some(&values[k])
                } else {
                    None
                }
            },
        }
    }
}

impl<T: Copy> Signal<T> {
    /// The samples of the signal as pairs of time point and value.
    ///
    /// Only sampled signals have samples; for empty and constant signals the list is empty.
    pub fn iter(&self) -> (r: Vec<(u64, T)>)
        requires
            self.wf(),
        ensures
            r@.len() == self.times().len(),
            forall|i: int| 0 <= i < r@.len() ==> r@[i] == (self.times()[i], self.vals()[i]),
    {
        let mut out: Vec<(u64, T)> = Vec::new();
        match self {
            Signal::Sampled { values, time_points } => {
                let n = time_points.len();
                let mut i: usize = 0;
                while i < n
                    invariant
                        n == time_points@.len(),
                        values@.len() == n,
                        i <= n,
                        out@.len() == i,
                        forall|j: int| 0 <= j < i ==> out@[j] == (time_points@[j], values@[j]),
                    decreases n - i,
                {
                    out.push((time_points[i], values[i]));
                    i = i + 1;
                }
            },
            _ => {},
        }
        out
    }

    /// The time points of the samples.
    ///
    /// Returns `None` for an empty signal, and no time points for a constant signal.
    pub fn time_points(&self) -> (r: Option<Vec<u64>>)
        requires
            self.wf(),
        ensures
            self is Empty <==> r is None,
            r matches Some(v) ==> v@ == self.times(),
    {
        match self {
            Signal::Empty => None,
            Signal::Constant { value: _ } => Some(Vec::new()),
            Signal::Sampled { values: _, time_points } => Some(time_points.clone()),
        }
    }

    /// Try to create a signal from a list of samples.
    ///
    /// Returns an `Err` if the samples are not in strictly increasing order of time,
    /// naming the first pair of samples out of order.
    pub fn try_from_iter(samples: Vec<(u64, T)>) -> (r: ArgusResult<Self>)
        ensures
            r is Ok <==> strictly_increasing(samples@.map_values(|s: (u64, T)| s.0)),
            r matches Ok(sig) ==> {
                &&& sig is Sampled
                &&& sig.wf()
                &&& sig.times() == samples@.map_values(|s: (u64, T)| s.0)
                &&& sig.vals() == samples@.map_values(|s: (u64, T)| s.1)
            },
            r matches Err(e) ==> exists|i: int|
                #![trigger samples@[i]]
                1 <= i < samples@.len() && strictly_increasing(
                    samples@.take(i).map_values(|s: (u64, T)| s.0),
                ) && samples@[i - 1].0 >= samples@[i].0 && e == (Error::NonMonotonicSignal {
                    end_time: samples@[i - 1].0,
                    current_sample: samples@[i].0,
                }),
    {
        let ghost times = samples@.map_values(|s: (u64, T)| s.0);
        let ghost vals = samples@.map_values(|s: (u64, T)| s.1);
        let n = samples.len();
        let mut signal: Signal<T> = Signal::new_with_capacity(n);
        let mut i: usize = 0;
        while i < n
            invariant
                n == samples@.len(),
                times == samples@.map_values(|s: (u64, T)| s.0),
                vals == samples@.map_values(|s: (u64, T)| s.1),
                i <= n,
                signal is Sampled,
                signal.wf(),
                signal.times() == times.take(i as int),
                signal.vals() == vals.take(i as int),
            decreases n - i,
        {
            let (t, v) = samples[i];
            let ghost before = signal;
            let res = signal.push(t, v);
            match res {
                Ok(()) => {},
                Err(e) => {
                    proof {
                        assert(samples@.take(i as int).map_values(|s: (u64, T)| s.0) =~= times.take(
                            i as int,
                        ));
                        assert(before.times().len() > 0);
                        assert(samples@[i as int - 1].0 == times[i as int - 1]);
                        assert(times[i as int] == t);
                        assert(times[i as int - 1] >= times[i as int]);
                    }
                    return Err(e);
                },
            }
            proof {
                assert(times.take(i + 1) =~= times.take(i as int).push(t));
                assert(vals.take(i + 1) =~= vals.take(i as int).push(v));
            }
            i = i + 1;
        }
        proof {
            assert(times.take(n as int) =~= times);
            assert(vals.take(n as int) =~= vals);
        }
        Ok(signal)
    }

    /// Interpolate the value of the signal at the given time point.
    ///
    /// If there exists a sample at the given time point then its value is returned.
    /// Otherwise, the interpolation method `I` computes the value from the samples
    /// just before and just after `time`; before the first sample and after the last,
    /// it computes the value, if any, from that end sample.
    pub fn interpolate_at<I: InterpolationMethod<T>>(&self, time: u64) -> (r: Option<T>)
        requires
            self.wf(),
        ensures
            r == self.spec_interpolate_at::<I>(time),
    {
        match self {
            Signal::Empty => None,
            Signal::Constant { value } => Some(*value),
            Signal::Sampled { values, time_points } => {
                if time_points.len() == 0 {
                    return None;
                }
                let k = lower_index(time_points, time);
                if k < time_points.len() && time_points[k] == time {
                    proof {
                        lemma_index_unique(time_points@, k as int, time);
                    }
                    return Some(values[k]);
                }
                proof {
                    lemma_absent(time_points@, k as int, time);
                }
                if k == 0 {
                    let first = Sample { time: time_points[0], value: values[0] };
                    return I::beyond(&first, time);
                }
                let n = time_points.len();
                if k == n {
                    let last = Sample { time: time_points[n - 1], value: values[n - 1] };
                    return I::beyond(&last, time);
                }
                let a = Sample { time: time_points[k - 1], value: values[k - 1] };
                let b = Sample { time: time_points[k], value: values[k] };
                proof {
                    lemma_bracket(time_points@, k as int, time);
                }
                I::at(&a, &b, time)
            },
        }
    }
}

/// The index at which `time` would be inserted into the sorted `ts`: every earlier
/// time point is before `time`, and no later one is.
pub fn lower_index(ts: &Vec<u64>, time: u64) -> (k: usize)
    requires
        strictly_increasing(ts@),
    ensures
        k <= ts@.len(),
        forall|i: int| 0 <= i < k ==> ts@[i] < time,
        forall|i: int| k <= i < ts@.len() ==> ts@[i] >= time,
{
    let mut lo: usize = 0;
    let mut hi: usize = ts.len();
    while lo < hi
        invariant
            lo <= hi <= ts@.len(),
            strictly_increasing(ts@),
            forall|i: int| 0 <= i < lo ==> ts@[i] < time,
            forall|i: int| hi <= i < ts@.len() ==> ts@[i] >= time,
        decreases hi - lo,
    {
        let mid = lo + (hi - lo) / 2;
        if ts[mid] < time {
            lo = mid + 1;
        } else {
            hi = mid;
        }
    }
    lo
}

/// The insertion index of a time point that is not in the sequence.
pub proof fn lemma_absent(ts: Seq<u64>, k: int, time: u64)
    requires
        strictly_increasing(ts),
        0 <= k <= ts.len(),
        forall|i: int| 0 <= i < k ==> ts[i] < time,
        forall|i: int| k <= i < ts.len() ==> ts[i] >= time,
        !(k < ts.len() && ts[k] == time),
    ensures
        !(exists|i: int| 0 <= i < ts.len() && ts[i] == time),
{
    assert forall|i: int| 0 <= i < ts.len() implies ts[i] != time by {
        if i > k {
            assert(ts[k] < ts[i]);
        }
    }
}

/// A time point strictly between two neighbours is bracketed by exactly those two.
pub proof fn lemma_bracket(ts: Seq<u64>, k: int, time: u64)
    requires
        strictly_increasing(ts),
        1 <= k < ts.len(),
        ts[k - 1] < time < ts[k],
    ensures
        exists|j: int| #![trigger ts[j]] 1 <= j < ts.len() && ts[j - 1] < time < ts[j],
        (choose|j: int| #![trigger ts[j]] 1 <= j < ts.len() && ts[j - 1] < time < ts[j]) == k,
{
    assert(ts[k - 1] < time < ts[k]);
    let j = choose|j: int| #![trigger ts[j]] 1 <= j < ts.len() && ts[j - 1] < time < ts[j];
    if j < k {
        assert(ts[j] <= ts[k - 1]);
    }
    if j > k {
        assert(ts[k] <= ts[j - 1]);
    }
}

/// In a strictly increasing sequence a time point occurs at most once.
pub proof fn lemma_index_unique(ts: Seq<u64>, k: int, time: u64)
    requires
        strictly_increasing(ts),
        0 <= k < ts.len(),
        ts[k] == time,
    ensures
        exists|i: int| 0 <= i < ts.len() && ts[i] == time,
        (choose|i: int| 0 <= i < ts.len() && ts[i] == time) == k,
{
    let i = choose|i: int| 0 <= i < ts.len() && ts[i] == time;
    if i < k {
        assert(ts[i] < ts[k]);
    } else if i > k {
        assert(ts[k] < ts[i]);
    }
}

} // verus!

verus! {

/// A time point strictly inside the span of a sorted sequence, and not one of its
/// points, lies between two neighbours.
pub proof fn lemma_bracket_exists(ts: Seq<u64>, time: u64)
    requires
        strictly_increasing(ts),
        ts.len() > 0,
        ts[0] < time < ts.last(),
    ensures
        exists|k: int| #![trigger ts[k]] 1 <= k < ts.len() && ts[k - 1] < time < ts[k]
            || (exists|i: int| 0 <= i < ts.len() && ts[i] == time),
    decreases ts.len(),
{
    if ts[1] == time {
        assert(0 <= 1 < ts.len() && ts[1] == time);
    } else if ts[1] > time {
        assert(1 <= 1 < ts.len() && ts[1 - 1] < time < ts[1]);
    } else {
        let rest = ts.drop_first();
        assert forall|i: int, j: int| 0 <= i < j < rest.len() implies rest[i] < rest[j] by {
            assert(ts[i + 1] < ts[j + 1]);
        }
        lemma_bracket_exists(rest, time);
        if exists|i: int| 0 <= i < rest.len() && rest[i] == time {
            let i = choose|i: int| 0 <= i < rest.len() && rest[i] == time;
            assert(ts[i + 1] == time);
        } else {
            let k = choose|k: int| #![trigger rest[k]] 1 <= k < rest.len() && rest[k - 1] < time < rest[k];
            assert(ts[k + 1] == rest[k]);
            assert(1 <= k + 1 < ts.len() && ts[k + 1 - 1] < time < ts[k + 1]);
        }
    }
}

/// A signal has a value at every time point of its domain.
pub proof fn lemma_interpolate_in_domain<T, I: InterpolationMethod<T>>(sig: Signal<T>, time: u64)
    requires
        sig.wf(),
        sig.in_domain(time),
    ensures
        sig.spec_interpolate_at::<I>(time) is Some,
{
    if let Signal::Sampled { values, time_points } = sig {
        let ts = time_points@;
        if exists|i: int| 0 <= i < ts.len() && ts[i] == time {
        } else {
            assert(ts.contains(ts[0]));
            assert(ts[0] != time);
            assert(ts[ts.len() - 1] != time);
            lemma_bracket_exists(ts, time);
            let k = choose|k: int| #![trigger ts[k]] 1 <= k < ts.len() && ts[k - 1] < time < ts[k];
            I::lemma_at_inside(
                Sample { time: ts[k - 1], value: values@[k - 1] },
                Sample { time: ts[k], value: values@[k] },
                time,
            );
        }
    }
}

} // verus!
