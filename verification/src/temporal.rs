//! Temporal operators over signals of totally ordered values.
//!
//! For boolean signals (`false < true`) the maximum is disjunction and the minimum is
//! conjunction, so "eventually" takes maxima and "always" takes minima.
use vstd::prelude::*;

use crate::bound::Bound;
use crate::error::{ArgusResult, Error};
use crate::interpolation::InterpolationMethod;
use crate::interval::Interval;
use crate::order::{at_least_rank, value_max, value_min, Ranked};
use crate::shift_ops::{lemma_split_index, lemma_split_index_exists, shifted_times, split_index};
use crate::signal::{strictly_increasing, Signal};
use crate::window::{
    is_window_extreme, resample, resampled_vals, sliding_extreme, window_grid,
    window_grid_points,
};

verus! {

/// `r` is `arg` with its values shifted by `steps` samples (see [`compute_oracle`]).
pub open spec fn is_oracle<T>(arg: Signal<T>, steps: nat, r: Signal<T>) -> bool {
    &&& r.wf()
    &&& steps == 0 ==> (r is Empty)
    &&& steps > 0 && arg is Empty ==> (r is Empty)
    &&& steps > 0 && arg is Constant ==> r == arg
    &&& steps > 0 && arg is Sampled && arg.times().len() <= steps ==> (r is Empty)
    &&& steps > 0 && arg is Sampled && arg.times().len() > steps ==> {
        &&& r is Sampled
        &&& r.times() == arg.times().take(arg.times().len() - steps)
        &&& r.vals() == arg.vals().skip(steps as int)
    }
}

/// Shift the values of a signal by `steps` samples: the value at the `i`-th time point
/// becomes the value of the `(i + steps)`-th sample, and the last `steps` time points
/// are dropped.
///
/// Zero steps, an empty signal, or a sampled signal with no more than `steps`
/// samples give an empty signal; a constant signal stays as it is.
pub fn compute_oracle<T: Copy>(arg: Signal<T>, steps: usize) -> (r: Signal<T>)
    requires
        arg.wf(),
    ensures
        is_oracle(arg, steps as nat, r),
{
    if steps == 0 {
        return Signal::Empty;
    }
    match arg {
        Signal::Empty => Signal::Empty,
        Signal::Constant { value } => Signal::Constant { value },
        Signal::Sampled { values, time_points } => {
            let n = values.len();
            if n <= steps {
                return Signal::Empty;
            }
            let mut vals: Vec<T> = Vec::with_capacity(n - steps);
            let mut times: Vec<u64> = Vec::with_capacity(n - steps);
            let mut i: usize = 0;
            while i < n - steps
                invariant
                    n == values@.len(),
                    n == time_points@.len(),
                    steps < n,
                    i <= n - steps,
                    vals@ == values@.subrange(steps as int, steps + i),
                    times@ == time_points@.take(i as int),
                decreases n - steps - i,
            {
                vals.push(values[i + steps]);
                times.push(time_points[i]);
                proof {
                    assert(vals@ =~= values@.subrange(steps as int, steps + i + 1));
                    assert(times@ =~= time_points@.take(i + 1));
                }
                i = i + 1;
            }
            proof {
                assert(vals@ =~= values@.skip(steps as int));
                assert forall|a: int, b: int| 0 <= a < b < times@.len() implies times@[a]
                    < times@[b] by {
                    assert(time_points@[a] < time_points@[b]);
                }
            }
            Signal::Sampled { values: vals, time_points: times }
        },
    }
}

/// The value of the signal at the next sample (see [`compute_oracle`]).
pub fn compute_next<T: Copy>(arg: Signal<T>) -> (r: Signal<T>)
    requires
        arg.wf(),
    ensures
        is_oracle(arg, 1, r),
        r.wf(),
        arg is Empty ==> (r is Empty),
        arg is Constant ==> r == arg,
        arg is Sampled && arg.times().len() <= 1 ==> (r is Empty),
        arg is Sampled && arg.times().len() > 1 ==> {
            &&& r is Sampled
            &&& r.times() == arg.times().drop_last()
            &&& r.vals() == arg.vals().drop_first()
        },
{
    let r = compute_oracle(arg, 1);
    proof {
        if arg is Sampled && arg.times().len() > 1 {
            assert(arg.times().take(arg.times().len() - 1) =~= arg.times().drop_last());
            assert(arg.vals().skip(1) =~= arg.vals().drop_first());
        }
    }
    r
}

/// `v` is the extreme (the maximum when `take_max`, else the minimum) of the values
/// `vs[lo..hi]`.
pub open spec fn is_extreme_of<T: Ranked>(take_max: bool, v: T, vs: Seq<T>, lo: int, hi: int) -> bool {
    &&& exists|j: int| lo <= j < hi && vs[j] == v
    &&& forall|j: int| lo <= j < hi ==> at_least_rank(take_max, v, #[trigger] vs[j])
}

/// The extreme of the values from each sample to the end, at each sample.
fn suffix_extreme<T: Ranked>(signal: Signal<T>, take_max: bool) -> (r: Signal<T>)
    requires
        signal.wf(),
        signal.has_samples(),
    ensures
        r.wf(),
        r is Sampled,
        r.times() == signal.times(),
        r.vals().len() == signal.vals().len(),
        forall|i: int|
            0 <= i < r.vals().len() ==> is_extreme_of(
                take_max,
                #[trigger] r.vals()[i],
                signal.vals(),
                i,
                signal.vals().len() as int,
            ),
{
    match signal {
        Signal::Sampled { mut values, time_points } => {
            let ghost orig = values@;
            let n = values.len();
            let mut i: usize = n - 1;
            proof {
                assert(is_extreme_of(take_max, orig[n - 1], orig, n - 1, n as int));
            }
            while i > 0
                invariant
                    n == orig.len(),
                    n > 0,
                    values@.len() == n,
                    i < n,
                    forall|j: int| 0 <= j < i ==> values@[j] == orig[j],
                    forall|j: int|
                        i <= j < n ==> is_extreme_of(take_max, #[trigger] values@[j], orig, j, n as int),
                decreases i,
            {
                let prev = values[i - 1];
                let later = values[i];
                let v = if take_max {
                    value_max(later, prev)
                } else {
                    value_min(later, prev)
                };
                values.set(i - 1, v);
                proof {
                    let k = i - 1;
                    assert(is_extreme_of(take_max, later, orig, i as int, n as int));
                    let w = choose|w: int| i <= w < n && orig[w] == later;
                    if v == prev {
                        assert(orig[k] == v);
                    } else {
                        assert(orig[w] == v);
                    }
                    assert forall|j: int| k <= j < n implies at_least_rank(take_max, v, #[trigger] orig[j]) by {
                        if j > k {
                            assert(at_least_rank(take_max, later, orig[j]));
                        }
                    }
                    assert(is_extreme_of(take_max, v, orig, k as int, n as int));
                }
                i = i - 1;
            }
            Signal::Sampled { values, time_points }
        },
        _ => {
            proof {
                assert(false);
            }
            Signal::Empty
        },
    }
}

/// Untimed "eventually": at each sample, the maximum of the values from that sample on.
///
/// The signal must be sampled at at least one time point.
pub fn compute_untimed_eventually<T: Ranked>(signal: Signal<T>) -> (r: Signal<T>)
    requires
        signal.wf(),
        signal.has_samples(),
    ensures
        r.wf(),
        r is Sampled,
        r.times() == signal.times(),
        r.vals().len() == signal.vals().len(),
        forall|i: int|
            0 <= i < r.vals().len() ==> is_extreme_of(
                true,
                #[trigger] r.vals()[i],
                signal.vals(),
                i,
                signal.vals().len() as int,
            ),
{
    suffix_extreme(signal, true)
}

/// Untimed "always": at each sample, the minimum of the values from that sample on.
///
/// The signal must be sampled at at least one time point.
pub fn compute_untimed_always<T: Ranked>(signal: Signal<T>) -> (r: Signal<T>)
    requires
        signal.wf(),
        signal.has_samples(),
    ensures
        r.wf(),
        r is Sampled,
        r.times() == signal.times(),
        r.vals().len() == signal.vals().len(),
        forall|i: int|
            0 <= i < r.vals().len() ==> is_extreme_of(
                false,
                #[trigger] r.vals()[i],
                signal.vals(),
                i,
                signal.vals().len() as int,
            ),
{
    suffix_extreme(signal, false)
}

/// `r` is the result of a timed "eventually" (`take_max`) or "always" over the window
/// from `a` to `b` (to the end of the signal when `b` is `None`) on the sampled
/// `signal`, with values between samples interpolated by `I`.
///
/// A signal that is not sampled is its own result. A sampled signal is first shifted
/// left by `a`; when no sample is left the result is empty.
/// Without an end, the value at each time point of the shifted signal is the extreme of
/// its values from there on. With an end, the shifted signal is resampled at the time
/// points where a window of width `b - a` starts or ends at one of its samples, and the
/// value at each of those points is the extreme of the resampled values within the
/// window that starts there.
pub open spec fn is_timed_extreme<T: Ranked, I: InterpolationMethod<T>>(
    take_max: bool,
    signal: Signal<T>,
    a: u64,
    b: Option<u64>,
    r: Signal<T>,
) -> bool {
    let ts = signal.times();
    let gt = signal.left_shifted_times(a);
    let gv = signal.left_shifted_vals::<I>(a);
    if !(signal is Sampled) {
        r == signal
    } else if split_index(ts, a) == ts.len() {
        r is Empty
    } else {
        &&& r is Sampled
        &&& r.wf()
        &&& r.vals().len() == r.times().len()
        &&& match b {
            None => {
                &&& r.times() == gt
                &&& forall|i: int|
                    0 <= i < r.vals().len() ==> is_extreme_of(
                        take_max,
                        #[trigger] r.vals()[i],
                        gv,
                        i,
                        gv.len() as int,
                    )
            },
            Some(b) => {
                &&& r.times() == window_grid(gt, (b - a) as u64)
                &&& forall|i: int|
                    0 <= i < r.vals().len() ==> is_window_extreme(
                        take_max,
                        #[trigger] r.vals()[i],
                        r.times(),
                        resampled_vals::<T, I>(gt, gv, r.times()),
                        r.times()[i] as int,
                        r.times()[i] + (b - a),
                    )
            },
        }
    }
}

/// The timed extreme of a signal (see [`is_timed_extreme`]).
pub(crate) fn timed_extreme<T: Ranked, I: InterpolationMethod<T>>(
    signal: &Signal<T>,
    a: u64,
    b: Option<u64>,
    take_max: bool,
) -> (r: Signal<T>)
    requires
        signal.wf(),
        b matches Some(bv) ==> a <= bv,
    ensures
        is_timed_extreme::<T, I>(take_max, *signal, a, b, r),
{
    match signal {
        Signal::Empty => {
            return Signal::Empty;
        },
        Signal::Constant { value } => {
            return Signal::Constant { value: *value };
        },
        _ => {},
    }
    proof {
        lemma_split_index_exists(signal.times(), a);
    }
    let shifted = signal.shift_left::<I>(a);
    let ghost gt = signal.left_shifted_times(a);
    let ghost gv = signal.left_shifted_vals::<I>(a);
    match shifted {
        Signal::Sampled { values, time_points } => {
            proof {
                assert(split_index(signal.times(), a) < signal.times().len());
                assert(time_points@ == gt);
                assert(values@ == gv);
                assert(time_points@.len() > 0);
            }
            match b {
                None => suffix_extreme(Signal::Sampled { values, time_points }, take_max),
                Some(bv) => {
                    let width = bv - a;
                    let grid = window_grid_points(&time_points, width);
                    let sig = Signal::Sampled { values, time_points };
                    let res = resample::<T, I>(&sig, grid);
                    match res {
                        Signal::Sampled { values: rv, time_points: rt } => {
                            let out = sliding_extreme(&rt, &rv, width, take_max);
                            Signal::Sampled { values: out, time_points: rt }
                        },
                        _ => {
                            proof {
                                assert(false);
                            }
                            Signal::Empty
                        },
                    }
                },
            }
        },
        _ => {
            proof {
                assert(!(split_index(signal.times(), a) < signal.times().len()));
            }
            Signal::Empty
        },
    }
}

/// Timed "eventually" over the window from `a` to `b`, or to the end of the signal when
/// `b` is `None`: at each time point, the maximum of the signal within the window that
/// starts `a` later (see [`is_timed_extreme`]).
pub fn compute_timed_eventually<T: Ranked, I: InterpolationMethod<T>>(
    signal: Signal<T>,
    a: u64,
    b: Option<u64>,
) -> (r: Signal<T>)
    requires
        signal.wf(),
        b matches Some(bv) ==> a <= bv,
    ensures
        is_timed_extreme::<T, I>(true, signal, a, b, r),
{
    timed_extreme::<T, I>(&signal, a, b, true)
}

/// Timed "always" over the window from `a` to `b`, or to the end of the signal when
/// `b` is `None`: at each time point, the minimum of the signal within the window that
/// starts `a` later (see [`is_timed_extreme`]).
pub fn compute_timed_always<T: Ranked, I: InterpolationMethod<T>>(
    signal: Signal<T>,
    a: u64,
    b: Option<u64>,
) -> (r: Signal<T>)
    requires
        signal.wf(),
        b matches Some(bv) ==> a <= bv,
    ensures
        is_timed_extreme::<T, I>(false, signal, a, b, r),
{
    timed_extreme::<T, I>(&signal, a, b, false)
}

/// The start of the window of a temporal operator over `interval` (zero when the
/// interval has no start).
pub open spec fn window_start(interval: Interval) -> u64 {
    match interval.start {
        Bound::Included(a) => a,
        _ => 0,
    }
}

/// The end of the window of a temporal operator over `interval` (`None` when the
/// interval has no end).
pub open spec fn window_end(interval: Interval) -> Option<u64> {
    match interval.end {
        Bound::Included(b) => Some(b),
        _ => None,
    }
}

/// The result of "eventually" (`take_max`) or "always" over `interval` on `signal`:
/// an error for an empty or singleton interval; otherwise the signal itself when it has
/// no samples, else its timed extreme over the window of the interval.
pub open spec fn is_temporal_result<T: Ranked, I: InterpolationMethod<T>>(
    take_max: bool,
    signal: Signal<T>,
    interval: Interval,
    r: ArgusResult<Signal<T>>,
) -> bool {
    if interval.spec_is_empty() || interval.spec_is_singleton() {
        r == Err::<Signal<T>, Error>(Error::InvalidInterval)
    } else {
        &&& r is Ok
        &&& !signal.has_samples() ==> r == Ok::<Signal<T>, Error>(signal)
        &&& signal.has_samples() ==> is_timed_extreme::<T, I>(
            take_max,
            signal,
            window_start(interval),
            window_end(interval),
            r->Ok_0,
        )
    }
}

/// "Eventually" or "always" over an interval (see [`is_temporal_result`]).
fn temporal_extreme<T: Ranked, I: InterpolationMethod<T>>(
    signal: Signal<T>,
    interval: &Interval,
    take_max: bool,
) -> (r: ArgusResult<Signal<T>>)
    requires
        signal.wf(),
        interval.is_normal(),
    ensures
        is_temporal_result::<T, I>(take_max, signal, *interval, r),
{
    if interval.is_empty() || interval.is_singleton() {
        return Err(Error::InvalidInterval);
    }
    let sampled = match &signal {
        Signal::Sampled { values: _, time_points } => time_points.len() > 0,
        _ => false,
    };
    if !sampled {
        return Ok(signal);
    }
    match (interval.start, interval.end) {
        (Bound::Included(a), Bound::Included(b)) => Ok(timed_extreme::<T, I>(&signal, a, Some(b), take_max)),
        (Bound::Included(a), Bound::Unbounded) => Ok(timed_extreme::<T, I>(&signal, a, None, take_max)),
        (Bound::Unbounded, Bound::Unbounded) => Ok(timed_extreme::<T, I>(&signal, 0, None, take_max)),
        _ => {
            proof {
                assert(false);
            }
            Err(Error::InvalidInterval)
        },
    }
}

/// Compute "eventually" over `interval`: at each time point, the maximum of the
/// signal within the interval from there (see [`is_temporal_result`]).
///
/// An empty or singleton interval is refused with [`Error::InvalidInterval`]; a signal
/// with no samples is returned as it is.
pub fn compute_eventually<T: Ranked, I: InterpolationMethod<T>>(
    signal: Signal<T>,
    interval: &Interval,
) -> (r: ArgusResult<Signal<T>>)
    requires
        signal.wf(),
        interval.is_normal(),
    ensures
        is_temporal_result::<T, I>(true, signal, *interval, r),
{
    temporal_extreme::<T, I>(signal, interval, true)
}

/// Compute "always" over `interval`: at each time point, the minimum of the signal
/// within the interval from there (see [`is_temporal_result`]).
///
/// An empty or singleton interval is refused with [`Error::InvalidInterval`]; a signal
/// with no samples is returned as it is.
pub fn compute_always<T: Ranked, I: InterpolationMethod<T>>(
    signal: Signal<T>,
    interval: &Interval,
) -> (r: ArgusResult<Signal<T>>)
    requires
        signal.wf(),
        interval.is_normal(),
    ensures
        is_temporal_result::<T, I>(false, signal, *interval, r),
{
    temporal_extreme::<T, I>(signal, interval, false)
}

} // verus!
