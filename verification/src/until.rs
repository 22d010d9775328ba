//! The "until" operator over signals of totally ordered values.
use vstd::prelude::*;

use crate::bound::Bound;
use crate::cmp_ops::with_crossings;
use crate::error::{ArgusResult, Error};
use crate::interpolation::InterpolationMethod;
use crate::interval::Interval;
use crate::temporal::{
    compute_eventually, compute_next, is_oracle, is_temporal_result, is_timed_extreme, timed_extreme,
    window_end, window_start,
};
use crate::order::{spec_max, spec_min, value_max, value_min, Ranked};
use crate::signal::{lemma_interpolate_in_domain, strictly_increasing, Signal};

verus! {

/// The value of untimed "until" at the `i`-th of the points where the left operand has
/// the values `v1` and the right operand the values `v2`: the larger of the smaller of
/// both operands there, and the smaller of the left operand there and "until" at the
/// next point (at the last point, the smaller of both operands).
pub open spec fn until_value<T: Ranked>(v1: Seq<T>, v2: Seq<T>, i: int) -> T
    decreases v1.len() - i,
{
    if 0 <= i < v1.len() - 1 {
        spec_max(spec_min(v1[i], v2[i]), spec_min(v1[i], until_value(v1, v2, i + 1)))
    } else {
        spec_min(v1[i], v2[i])
    }
}

/// The `i`-th of the values `u` is kept when the samples are compressed: it is the
/// first, the last, or differs from the one before it.
pub open spec fn is_kept<T>(u: Seq<T>, i: int) -> bool {
    i == 0 || i == u.len() - 1 || u[i] != u[i - 1]
}

/// Among the first `n` of the time points `pts` with values `u`, there is a kept one
/// at time `t` with value `v`.
pub open spec fn is_kept_sample<T>(pts: Seq<u64>, u: Seq<T>, n: int, t: u64, v: T) -> bool {
    exists|i: int| #![trigger pts[i]] 0 <= i < n && is_kept(u, i) && t == pts[i] && v == u[i]
}

/// The samples with time points `rt` and values `rv` are, in order, the samples among
/// the first `n` at the time points `pts` with values `u` that are kept (see [`is_kept`]).
#[verifier::opaque]
pub open spec fn is_compressed_upto<T>(pts: Seq<u64>, u: Seq<T>, n: int, rt: Seq<u64>, rv: Seq<T>) -> bool {
    &&& rt.len() == rv.len()
    &&& strictly_increasing(rt)
    &&& forall|k: int| #![trigger rt[k]] 0 <= k < rt.len() ==> is_kept_sample(pts, u, n, rt[k], rv[k])
    &&& forall|i: int| #![trigger pts[i]] 0 <= i < n && is_kept(u, i) ==> rt.contains(pts[i])
}

/// The samples with time points `rt` and values `rv` are, in order, the samples at the
/// time points `pts` with values `u` that are kept (see [`is_kept`]).
pub open spec fn is_compressed<T>(pts: Seq<u64>, u: Seq<T>, rt: Seq<u64>, rv: Seq<T>) -> bool {
    is_compressed_upto(pts, u, pts.len() as int, rt, rv)
}

/// Taking the next sample in, or passing it over when it is not kept.
proof fn lemma_compress_step<T>(pts: Seq<u64>, u: Seq<T>, i: int, rt: Seq<u64>, rv: Seq<T>)
    requires
        0 <= i < pts.len(),
        is_compressed_upto(pts, u, i, rt, rv),
        forall|k: int| 0 <= k < rt.len() ==> rt[k] < pts[i],
    ensures
        is_kept(u, i) ==> is_compressed_upto(pts, u, i + 1, rt.push(pts[i]), rv.push(u[i])),
        !is_kept(u, i) ==> is_compressed_upto(pts, u, i + 1, rt, rv),
{
    reveal(is_compressed_upto);
    assert forall|k: int| 0 <= k < rt.len() implies #[trigger] is_kept_sample(pts, u, i + 1, rt[k], rv[k]) by {
        assert(is_kept_sample(pts, u, i, rt[k], rv[k]));
        let j = choose|j: int| #![trigger pts[j]] 0 <= j < i && is_kept(u, j) && rt[k] == pts[j] && rv[k] == u[j];
        assert(0 <= j < i + 1 && is_kept(u, j) && rt[k] == pts[j] && rv[k] == u[j]);
    }
    assert forall|j: int| #![trigger pts[j]] 0 <= j < i && is_kept(u, j) implies rt.contains(pts[j]) by {
    }
    if is_kept(u, i) {
        let nt = rt.push(pts[i]);
        let nv = rv.push(u[i]);
        assert forall|a: int, b: int| 0 <= a < b < nt.len() implies nt[a] < nt[b] by {
            if b < rt.len() {
                assert(rt[a] < rt[b]);
            } else {
                assert(rt[a] < pts[i]);
            }
        }
        assert forall|k: int| #![trigger nt[k]] 0 <= k < nt.len() implies is_kept_sample(pts, u, i + 1, nt[k], nv[k]) by {
            if k < rt.len() {
                assert(is_kept_sample(pts, u, i + 1, rt[k], rv[k]));
            } else {
                assert(0 <= i < i + 1 && is_kept(u, i) && nt[k] == pts[i] && nv[k] == u[i]);
            }
        }
        assert forall|j: int| #![trigger pts[j]] 0 <= j < i + 1 && is_kept(u, j) implies nt.contains(pts[j]) by {
            if j < i {
                assert(rt.contains(pts[j]));
                let k = choose|k: int| 0 <= k < rt.len() && rt[k] == pts[j];
                assert(nt[k] == pts[j]);
            } else {
                assert(nt[rt.len() as int] == pts[j]);
            }
        }
    } else {
        assert forall|j: int| #![trigger pts[j]] 0 <= j < i + 1 && is_kept(u, j) implies rt.contains(pts[j]) by {
            if j < i {
                assert(rt.contains(pts[j]));
            }
        }
    }
}

/// The points at which untimed "until" of `lhs` and `rhs` is computed: their
/// synchronization points with their crossing points added.
pub open spec fn until_points<T: Ranked, I: InterpolationMethod<T>>(lhs: Signal<T>, rhs: Signal<T>) -> Seq<u64> {
    with_crossings::<T, I>(lhs, rhs, lhs.spec_sync_points(&rhs).unwrap())
}

/// The values of `sig`, interpolated by `I`, at the points `pts`.
pub open spec fn values_at<T, I: InterpolationMethod<T>>(sig: Signal<T>, pts: Seq<u64>) -> Seq<T> {
    pts.map_values(|t: u64| sig.spec_interpolate_at::<I>(t).unwrap())
}

/// The values of untimed "until" of `lhs` and `rhs` at [`until_points`].
pub open spec fn until_values<T: Ranked, I: InterpolationMethod<T>>(lhs: Signal<T>, rhs: Signal<T>) -> Seq<T> {
    let pts = until_points::<T, I>(lhs, rhs);
    let v1 = values_at::<T, I>(lhs, pts);
    let v2 = values_at::<T, I>(rhs, pts);
    Seq::new(pts.len(), |i: int| until_value(v1, v2, i))
}

/// `r` is untimed "until" of `lhs` and `rhs`: sampled at the kept [`until_points`],
/// with the [`until_values`] there.
pub open spec fn is_untimed_until<T: Ranked, I: InterpolationMethod<T>>(
    lhs: Signal<T>,
    rhs: Signal<T>,
    r: Signal<T>,
) -> bool {
    &&& r is Sampled
    &&& r.wf()
    &&& is_compressed(
        until_points::<T, I>(lhs, rhs),
        until_values::<T, I>(lhs, rhs),
        r.times(),
        r.vals(),
    )
}

/// The two values are the same.
fn same_value<T: Ranked>(a: &T, b: &T) -> (r: bool)
    ensures
        r == (*a == *b),
{
    let r = !a.less_than(b) && !b.less_than(a);
    proof {
        if r {
            T::lemma_rank_injective(*a, *b);
        }
    }
    r
}

/// The values of `sig` at the points `pts`, which lie in its domain.
fn values_of<T: Copy, I: InterpolationMethod<T>>(sig: &Signal<T>, pts: &Vec<u64>) -> (r: Vec<T>)
    requires
        sig.wf(),
        forall|i: int| 0 <= i < pts@.len() ==> sig.in_domain(#[trigger] pts@[i]),
    ensures
        r@ == values_at::<T, I>(*sig, pts@),
{
    let n = pts.len();
    let mut out: Vec<T> = Vec::with_capacity(n);
    let mut i: usize = 0;
    while i < n
        invariant
            n == pts@.len(),
            i <= n,
            sig.wf(),
            forall|k: int| 0 <= k < pts@.len() ==> sig.in_domain(#[trigger] pts@[k]),
            out@ == values_at::<T, I>(*sig, pts@).take(i as int),
        decreases n - i,
    {
        proof {
            lemma_interpolate_in_domain::<T, I>(*sig, pts@[i as int]);
        }
        out.push(sig.interpolate_at::<I>(pts[i]).unwrap());
        proof {
            assert(out@ =~= values_at::<T, I>(*sig, pts@).take(i + 1));
        }
        i = i + 1;
    }
    proof {
        assert(out@ =~= values_at::<T, I>(*sig, pts@));
    }
    out
}

/// The values of untimed "until", in reverse order: the `k`-th is the value at the
/// `k`-th point from the end.
fn until_values_reversed<T: Ranked>(v1: &Vec<T>, v2: &Vec<T>) -> (r: Vec<T>)
    requires
        v1@.len() == v2@.len(),
    ensures
        r@.len() == v1@.len(),
        forall|k: int|
            0 <= k < r@.len() ==> #[trigger] r@[k] == until_value(v1@, v2@, v1@.len() - 1 - k),
{
    let n = v1.len();
    let mut rev: Vec<T> = Vec::with_capacity(n);
    let mut next: Option<T> = None;
    let mut k: usize = n;
    while k > 0
        invariant
            n == v1@.len(),
            n == v2@.len(),
            k <= n,
            rev@.len() == n - k,
            forall|j: int| 0 <= j < rev@.len() ==> #[trigger] rev@[j] == until_value(v1@, v2@, n - 1 - j),
            next == (if k < n { Some(until_value(v1@, v2@, k as int)) } else { None::<T> }),
        decreases k,
    {
        k = k - 1;
        let m = value_min(v1[k], v2[k]);
        let z = match next {
            None => m,
            Some(nx) => value_max(m, value_min(v1[k], nx)),
        };
        rev.push(z);
        next = Some(z);
        proof {
            assert(rev@[n - 1 - k] == until_value(v1@, v2@, k as int));
        }
    }
    rev
}

/// Untimed "until" of `lhs` and `rhs` (see [`is_untimed_until`]).
///
/// At each point, going back from the last one, the value is the larger of the smaller
/// of both operands there and the smaller of the left operand there and the value at
/// the next point. Of a run of points with the same value only the first is kept,
/// and the last point is always kept. Neither signal may be empty.
pub fn compute_untimed_until<T: Ranked, I: InterpolationMethod<T>>(lhs: Signal<T>, rhs: Signal<T>) -> (r:
    Signal<T>)
    requires
        lhs.wf(),
        rhs.wf(),
        !lhs.spec_is_empty(),
        !rhs.spec_is_empty(),
    ensures
        is_untimed_until::<T, I>(lhs, rhs, r),
{
    let pts = lhs.sync_with_intersection::<I>(&rhs).unwrap();
    let n = pts.len();
    let v1 = values_of::<T, I>(&lhs, &pts);
    let v2 = values_of::<T, I>(&rhs, &pts);
    let rev = until_values_reversed(&v1, &v2);
    let ghost u = until_values::<T, I>(lhs, rhs);
    proof {
        assert forall|i: int| 0 <= i < n implies #[trigger] u[i] == rev@[n - 1 - i] by {
            assert(rev@[n - 1 - i] == until_value(v1@, v2@, n - 1 - (n - 1 - i)));
        }
    }
    let mut times: Vec<u64> = Vec::with_capacity(n);
    let mut vals: Vec<T> = Vec::with_capacity(n);
    let mut i: usize = 0;
    proof {
        reveal(is_compressed_upto);
        assert(is_compressed_upto(pts@, u, 0, times@, vals@));
    }
    while i < n
        invariant
            n == pts@.len(),
            n == rev@.len(),
            pts@ == until_points::<T, I>(lhs, rhs),
            u == until_values::<T, I>(lhs, rhs),
            u.len() == n,
            forall|j: int| 0 <= j < n ==> #[trigger] u[j] == rev@[n - 1 - j],
            strictly_increasing(pts@),
            i <= n,
            is_compressed_upto(pts@, u, i as int, times@, vals@),
            forall|k: int| 0 <= k < times@.len() ==> (i < n ==> times@[k] < pts@[i as int]),
        decreases n - i,
    {
        let ui = rev[n - 1 - i];
        let keep = if i == 0 || i == n - 1 {
            true
        } else {
            !same_value(&ui, &rev[n - i])
        };
        proof {
            assert(ui == u[i as int]);
            if i > 0 {
                assert(rev@[n - i] == u[i - 1]);
            }
            assert(keep == is_kept(u, i as int));
        }
        let ghost old_times = times@;
        proof {
            lemma_compress_step(pts@, u, i as int, times@, vals@);
        }
        if keep {
            times.push(pts[i]);
            vals.push(ui);
        }
        proof {
            if i + 1 < n {
                assert(pts@[i as int] < pts@[i + 1]);
                assert forall|k: int| 0 <= k < times@.len() implies times@[k] < pts@[i + 1] by {
                    if k < old_times.len() {
                        assert(old_times[k] < pts@[i as int]);
                    }
                }
            }
        }
        i = i + 1;
    }
    Signal::Sampled { values: vals, time_points: times }
}

/// `g` is `un` when `a` is zero, else "always" of `un` over the window from zero to `a`.
pub open spec fn is_held_over<T: Ranked, I: InterpolationMethod<T>>(un: Signal<T>, a: u64, g: Signal<T>) -> bool {
    if a == 0 {
        g == un
    } else {
        is_timed_extreme::<T, I>(false, un, 0, Some(a), g)
    }
}

/// `r` is timed "until" of `lhs` and `rhs` over the window from `a` to `b` (to the end
/// when `b` is `None`): the time-wise minimum of "eventually" of `rhs` over the window
/// and of untimed "until", which, when `a` is not zero, is first taken through "always"
/// over the window from zero to `a`. Where either part has no samples, `r` is empty.
pub open spec fn is_timed_until<T: Ranked, I: InterpolationMethod<T>>(
    lhs: Signal<T>,
    rhs: Signal<T>,
    a: u64,
    b: Option<u64>,
    r: Signal<T>,
) -> bool {
    exists|ev: Signal<T>, un: Signal<T>, g: Signal<T>|
        #![trigger is_timed_extreme::<T, I>(true, rhs, a, b, ev), is_untimed_until::<T, I>(lhs, rhs, un), is_held_over::<T, I>(un, a, g)]
        {
            &&& is_timed_extreme::<T, I>(true, rhs, a, b, ev)
            &&& is_untimed_until::<T, I>(lhs, rhs, un)
            &&& is_held_over::<T, I>(un, a, g)
            &&& if ev.spec_is_empty() || g.spec_is_empty() {
                r is Empty
            } else {
                ev.is_pointwise_extreme::<I>(&g, true, r)
            }
        }
}

/// Timed "until" of `lhs` and `rhs` over the window from `a` to `b`, or to the end when
/// `b` is `None` (see [`is_timed_until`]).
///
/// Following Donzé, Ferrère and Maler, `lhs U[a, b] rhs` is computed as
/// `F[a, b] rhs` and `G[0, a] (lhs U rhs)`. Neither signal may be empty.
pub fn compute_timed_until<T: Ranked, I: InterpolationMethod<T>>(
    lhs: Signal<T>,
    rhs: Signal<T>,
    a: u64,
    b: Option<u64>,
) -> (r: Signal<T>)
    requires
        lhs.wf(),
        rhs.wf(),
        !lhs.spec_is_empty(),
        !rhs.spec_is_empty(),
        b matches Some(bv) ==> a <= bv,
    ensures
        is_timed_until::<T, I>(lhs, rhs, a, b, r),
{
    let ghost (l0, r0) = (lhs, rhs);
    let ev = timed_extreme::<T, I>(&rhs, a, b, true);
    let untimed = compute_untimed_until::<T, I>(lhs, rhs);
    let ghost un = untimed;
    let g = if a == 0 {
        untimed
    } else {
        timed_extreme::<T, I>(&untimed, 0, Some(a), false)
    };
    let r = if ev.is_empty() || g.is_empty() {
        Signal::Empty
    } else {
        ev.min::<I>(&g)
    };
    proof {
        let w = (ev, un, g);
        assert({
            &&& is_timed_extreme::<T, I>(true, r0, a, b, w.0)
            &&& is_untimed_until::<T, I>(l0, r0, w.1)
            &&& is_held_over::<T, I>(w.1, a, w.2)
            &&& if w.0.spec_is_empty() || w.2.spec_is_empty() {
                r is Empty
            } else {
                w.0.is_pointwise_extreme::<I>(&w.2, true, r)
            }
        });
    }
    r
}

/// `r` is "until" of `lhs` and `rhs` over `interval`: the empty operand when one is
/// [`Signal::Empty`] (the left one first); otherwise an error for an empty interval,
/// else untimed "until" for an interval from zero without end, else timed "until" over
/// the window of the interval. Constant operands go through the same recurrence as
/// sampled ones.
pub open spec fn is_until_result<T: Ranked, I: InterpolationMethod<T>>(
    lhs: Signal<T>,
    rhs: Signal<T>,
    interval: Interval,
    r: ArgusResult<Signal<T>>,
) -> bool {
    if lhs is Empty {
        r == Ok::<Signal<T>, Error>(lhs)
    } else if rhs is Empty {
        r == Ok::<Signal<T>, Error>(rhs)
    } else if interval.spec_is_empty() {
        r == Err::<Signal<T>, Error>(Error::InvalidInterval)
    } else {
        &&& r is Ok
        &&& interval.spec_is_untimed() ==> is_untimed_until::<T, I>(lhs, rhs, r->Ok_0)
        &&& !interval.spec_is_untimed() ==> is_timed_until::<T, I>(
            lhs,
            rhs,
            window_start(interval),
            window_end(interval),
            r->Ok_0,
        )
    }
}

/// Neither operand is a sampled signal without samples, unless one of them is
/// [`Signal::Empty`]: the operands on which "until" is defined.
pub open spec fn until_operands<T>(lhs: Signal<T>, rhs: Signal<T>) -> bool {
    !(lhs is Empty) && !(rhs is Empty) ==> !lhs.spec_is_empty() && !rhs.spec_is_empty()
}

/// Compute "until" of `lhs` and `rhs` over `interval` (see [`is_until_result`]).
///
/// An operand that is [`Signal::Empty`] is passed through; otherwise an empty interval
/// is refused with [`Error::InvalidInterval`]. Constant operands are not singled out
/// here; for boolean signals, [`compute_boolean_until`] applies the identities of a
/// constant operand first.
pub fn compute_until<T: Ranked, I: InterpolationMethod<T>>(
    lhs: Signal<T>,
    rhs: Signal<T>,
    interval: &Interval,
) -> (r: ArgusResult<Signal<T>>)
    requires
        lhs.wf(),
        rhs.wf(),
        interval.is_normal(),
        until_operands(lhs, rhs),
    ensures
        is_until_result::<T, I>(lhs, rhs, *interval, r),
{
    if let Signal::Empty = lhs {
        return Ok(lhs);
    }
    if let Signal::Empty = rhs {
        return Ok(rhs);
    }
    if interval.is_empty() {
        return Err(Error::InvalidInterval);
    }
    if interval.is_untimed() {
        return Ok(compute_untimed_until::<T, I>(lhs, rhs));
    }
    match (interval.start, interval.end) {
        (Bound::Included(a), Bound::Included(b)) => Ok(compute_timed_until::<T, I>(lhs, rhs, a, Some(b))),
        (Bound::Included(a), Bound::Unbounded) => Ok(compute_timed_until::<T, I>(lhs, rhs, a, None)),
        _ => {
            proof {
                assert(false);
            }
            Err(Error::InvalidInterval)
        },
    }
}

/// `r` is "until" of the boolean signals `lhs` and `rhs` over `interval`: the empty
/// operand when one is [`Signal::Empty`]; `rhs` when it is constant (anything until
/// true is true, until false is false), whatever the interval; "eventually" of `rhs`
/// over the interval when `lhs` is constantly true; "next" of `rhs` when `lhs` is
/// constantly false; else, for two sampled signals, "until" as [`is_until_result`]
/// says.
pub open spec fn is_boolean_until_result<I: InterpolationMethod<bool>>(
    lhs: Signal<bool>,
    rhs: Signal<bool>,
    interval: Interval,
    r: ArgusResult<Signal<bool>>,
) -> bool {
    if lhs is Empty {
        r == Ok::<Signal<bool>, Error>(lhs)
    } else if rhs is Empty {
        r == Ok::<Signal<bool>, Error>(rhs)
    } else if rhs is Constant {
        r == Ok::<Signal<bool>, Error>(rhs)
    } else if lhs == (Signal::<bool>::Constant { value: true }) {
        is_temporal_result::<bool, I>(true, rhs, interval, r)
    } else if lhs is Constant {
        r is Ok && is_oracle(rhs, 1, r->Ok_0)
    } else {
        is_until_result::<bool, I>(lhs, rhs, interval, r)
    }
}

/// Compute "until" of the boolean signals `lhs` and `rhs` over `interval` (see
/// [`is_boolean_until_result`]).
///
/// A constant side is handled by the identities of "until": `phi U true` is true,
/// `phi U false` is false, `true U phi` is "eventually" of `phi`, and `false U phi` is
/// "next" of `phi`.
pub fn compute_boolean_until<I: InterpolationMethod<bool>>(
    lhs: Signal<bool>,
    rhs: Signal<bool>,
    interval: &Interval,
) -> (r: ArgusResult<Signal<bool>>)
    requires
        lhs.wf(),
        rhs.wf(),
        interval.is_normal(),
        lhs is Sampled && rhs is Sampled ==> until_operands(lhs, rhs),
    ensures
        is_boolean_until_result::<I>(lhs, rhs, *interval, r),
{
    match (lhs, rhs) {
        (Signal::Empty, _) => Ok(Signal::Empty),
        (_, Signal::Empty) => Ok(Signal::Empty),
        (_, Signal::Constant { value }) => Ok(Signal::Constant { value }),
        (Signal::Constant { value: true }, rhs) => compute_eventually::<bool, I>(rhs, interval),
        (Signal::Constant { value: false }, rhs) => Ok(compute_next(rhs)),
        (lhs, rhs) => compute_until::<bool, I>(lhs, rhs, interval),
    }
}

} // verus!
