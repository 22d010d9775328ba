//! Pointwise arithmetic on integer signals.
//!
//! Sums, products and quotients are computed at the synchronization points of the
//! two signals (see [`Signal::sync_points`]); differences and absolute differences also
//! at the points where the two signals cross (see [`Signal::sync_with_intersection`]).
//! Values between samples are interpolated with a method `I`.
use vstd::prelude::*;

use crate::abs::int_abs;
use crate::cmp_ops::with_crossings;
use crate::interpolation::InterpolationMethod;
use crate::order::Ranked;
use crate::signal::{lemma_interpolate_in_domain, strictly_increasing, Signal};

verus! {

/// The time points at which a pointwise operation on `a` and `b` is computed: their
/// synchronization points, with their crossing points added when `crossings`.
pub open spec fn op_points<T: Ranked, I: InterpolationMethod<T>>(
    a: Signal<T>,
    b: Signal<T>,
    crossings: bool,
) -> Seq<u64> {
    if crossings {
        with_crossings::<T, I>(a, b, a.spec_sync_points(&b).unwrap())
    } else {
        a.spec_sync_points(&b).unwrap()
    }
}

/// `ok` holds of the values of `a` and `b` wherever a pointwise operation on them is
/// computed (see [`op_points`]): of their values for two constant signals, and at each
/// of the points otherwise. Nothing is asked where either signal is empty.
pub open spec fn holds_at_points<T: Ranked, I: InterpolationMethod<T>>(
    a: Signal<T>,
    b: Signal<T>,
    crossings: bool,
    ok: spec_fn(int, int) -> bool,
) -> bool {
    if a.spec_is_empty() || b.spec_is_empty() {
        true
    } else if a is Constant && b is Constant {
        ok(a->Constant_value.rank(), b->Constant_value.rank())
    } else {
        let pts = op_points::<T, I>(a, b, crossings);
        forall|i: int|
            0 <= i < pts.len() ==> ok(
                a.spec_interpolate_at::<I>(#[trigger] pts[i]).unwrap().rank(),
                b.spec_interpolate_at::<I>(pts[i]).unwrap().rank(),
            )
    }
}

/// `r` is the pointwise result `f` of the values of `a` and `b`: empty where either is
/// empty, constant where both are constant, and otherwise sampled at the points where
/// the operation is computed (see [`op_points`]).
pub open spec fn is_pointwise_arith<T: Ranked, I: InterpolationMethod<T>>(
    a: Signal<T>,
    b: Signal<T>,
    crossings: bool,
    f: spec_fn(int, int) -> int,
    r: Signal<T>,
) -> bool {
    &&& r.wf()
    &&& (a.spec_is_empty() || b.spec_is_empty()) ==> r is Empty
    &&& !a.spec_is_empty() && !b.spec_is_empty() && a is Constant && b is Constant ==> {
        &&& r is Constant
        &&& r->Constant_value.rank() == f(a->Constant_value.rank(), b->Constant_value.rank())
    }
    &&& !a.spec_is_empty() && !b.spec_is_empty() && !(a is Constant && b is Constant) ==> {
        &&& r is Sampled
        &&& r.times() == op_points::<T, I>(a, b, crossings)
        &&& forall|i: int|
            0 <= i < r.times().len() ==> (#[trigger] r.vals()[i]).rank() == f(
                a.spec_interpolate_at::<I>(r.times()[i]).unwrap().rank(),
                b.spec_interpolate_at::<I>(r.times()[i]).unwrap().rank(),
            )
    }
}

/// The points where a pointwise operation on two signals, not both constant and neither
/// empty, is computed, with the values of each signal there.
fn operands<T: Ranked, I: InterpolationMethod<T>>(a: &Signal<T>, b: &Signal<T>, crossings: bool) -> (r: (
    Vec<u64>,
    Vec<T>,
    Vec<T>,
))
    requires
        a.wf(),
        b.wf(),
        !a.spec_is_empty(),
        !b.spec_is_empty(),
        !(*a is Constant && *b is Constant),
    ensures
        r.0@ == op_points::<T, I>(*a, *b, crossings),
        strictly_increasing(r.0@),
        r.1@.len() == r.0@.len(),
        r.2@.len() == r.0@.len(),
        forall|i: int|
            0 <= i < r.0@.len() ==> #[trigger] r.1@[i] == a.spec_interpolate_at::<I>(r.0@[i]).unwrap()
                && r.2@[i] == b.spec_interpolate_at::<I>(r.0@[i]).unwrap(),
{
    let pts = if crossings {
        a.sync_with_intersection::<I>(b).unwrap()
    } else {
        a.sync_points(b).unwrap()
    };
    proof {
        assert(pts@ == op_points::<T, I>(*a, *b, crossings));
    }
    let n = pts.len();
    let mut xs: Vec<T> = Vec::with_capacity(n);
    let mut ys: Vec<T> = Vec::with_capacity(n);
    let mut i: usize = 0;
    while i < n
        invariant
            n == pts@.len(),
            a.wf(),
            b.wf(),
            forall|j: int| 0 <= j < n ==> a.in_domain(#[trigger] pts@[j]) && b.in_domain(pts@[j]),
            i <= n,
            xs@.len() == i,
            ys@.len() == i,
            forall|j: int| 0 <= j < i ==> #[trigger] xs@[j] == a.spec_interpolate_at::<I>(pts@[j]).unwrap(),
            forall|j: int| 0 <= j < i ==> #[trigger] ys@[j] == b.spec_interpolate_at::<I>(pts@[j]).unwrap(),
        decreases n - i,
    {
        let t = pts[i];
        proof {
            lemma_interpolate_in_domain::<T, I>(*a, t);
            lemma_interpolate_in_domain::<T, I>(*b, t);
        }
        let x = a.interpolate_at::<I>(t).unwrap();
        let y = b.interpolate_at::<I>(t).unwrap();
        xs.push(x);
        ys.push(y);
        i = i + 1;
    }
    (pts, xs, ys)
}

/// Apply `op` to the values of `xs` and `ys` at each index.
fn combine<T: Copy, F: Fn(T, T) -> T>(xs: &Vec<T>, ys: &Vec<T>, op: F) -> (r: Vec<T>)
    requires
        xs@.len() == ys@.len(),
        forall|i: int| 0 <= i < xs@.len() ==> call_requires(op, (#[trigger] xs@[i], ys@[i])),
    ensures
        r@.len() == xs@.len(),
        forall|i: int| 0 <= i < xs@.len() ==> call_ensures(op, (xs@[i], ys@[i]), #[trigger] r@[i]),
{
    let n = xs.len();
    let mut out: Vec<T> = Vec::with_capacity(n);
    let mut i: usize = 0;
    while i < n
        invariant
            n == xs@.len(),
            n == ys@.len(),
            forall|j: int| 0 <= j < n ==> call_requires(op, (#[trigger] xs@[j], ys@[j])),
            i <= n,
            out@.len() == i,
            forall|j: int| 0 <= j < i ==> call_ensures(op, (xs@[j], ys@[j]), #[trigger] out@[j]),
        decreases n - i,
    {
        let v = op(xs[i], ys[i]);
        out.push(v);
        i = i + 1;
    }
    out
}

/// The value fits a signed integer.
pub open spec fn i64_fits(v: int) -> bool {
    i64::MIN <= v <= i64::MAX
}

/// The value fits an unsigned integer.
pub open spec fn u64_fits(v: int) -> bool {
    0 <= v <= u64::MAX
}

impl Signal<i64> {
    /// Perform sample-wise arithmetic negation over the signal; no value may be the
    /// least one, whose negation does not fit.
    pub fn negate(&self) -> (r: Self)
        requires
            self.wf(),
            self matches Signal::Constant { value } ==> value != i64::MIN,
            forall|i: int| 0 <= i < self.vals().len() ==> self.vals()[i] != i64::MIN,
        ensures
            r.wf(),
            *self is Empty ==> r is Empty,
            *self matches Signal::Constant { value } ==> r == (Signal::Constant { value: (-value) as i64 }),
            *self is Sampled ==> r is Sampled && r.times() == self.times() && r.vals()
                == self.vals().map_values(|v: i64| (-v) as i64),
    {
        match self {
            Signal::Empty => Signal::Empty,
            Signal::Constant { value } => Signal::Constant { value: -*value },
            Signal::Sampled { values, time_points } => {
                proof {
                    assert forall|j: int| 0 <= j < values@.len() implies values@[j] != i64::MIN by {
                        assert(self.vals()[j] == values@[j]);
                    }
                }
                let n = values.len();
                let mut out: Vec<i64> = Vec::with_capacity(n);
                let mut i: usize = 0;
                while i < n
                    invariant
                        n == values@.len(),
                        forall|j: int| 0 <= j < n ==> values@[j] != i64::MIN,
                        i <= n,
                        out@ == values@.take(i as int).map_values(|v: i64| (-v) as i64),
                    decreases n - i,
                {
                    out.push(-values[i]);
                    proof {
                        assert(values@.take(i + 1) =~= values@.take(i as int).push(values@[i as int]));
                        assert(out@ =~= values@.take(i + 1).map_values(|v: i64| (-v) as i64));
                    }
                    i = i + 1;
                }
                proof {
                    assert(values@.take(n as int) =~= values@);
                }
                Signal::Sampled { values: out, time_points: time_points.clone() }
            },
        }
    }

    /// Perform sample-wise addition of the two signals; every sum must fit.
    pub fn add<I: InterpolationMethod<i64>>(&self, other: &Self) -> (r: Self)
        requires
            self.wf(),
            other.wf(),
            holds_at_points::<i64, I>(*self, *other, false, |x: int, y: int| i64_fits(x + y)),
        ensures
            is_pointwise_arith::<i64, I>(*self, *other, false, |x: int, y: int| x + y, r),
    {
        if self.is_empty() || other.is_empty() {
            return Signal::Empty;
        }
        if let (Signal::Constant { value: x }, Signal::Constant { value: y }) = (self, other) {
            return Signal::Constant { value: *x + *y };
        }
        let (ts, xs, ys) = operands::<i64, I>(self, other, false);
        let vs = combine(
            &xs,
            &ys,
            |x: i64, y: i64| -> (o: i64) requires (i64_fits(x + y)) ensures (o == x + y) { x + y },
        );
        Signal::Sampled { values: vs, time_points: ts }
    }

    /// Perform sample-wise multiplication of the two signals; every product must fit.
    pub fn mul<I: InterpolationMethod<i64>>(&self, other: &Self) -> (r: Self)
        requires
            self.wf(),
            other.wf(),
            holds_at_points::<i64, I>(*self, *other, false, |x: int, y: int| i64_fits(x * y)),
        ensures
            is_pointwise_arith::<i64, I>(*self, *other, false, |x: int, y: int| x * y, r),
    {
        if self.is_empty() || other.is_empty() {
            return Signal::Empty;
        }
        if let (Signal::Constant { value: x }, Signal::Constant { value: y }) = (self, other) {
            return Signal::Constant { value: *x * *y };
        }
        let (ts, xs, ys) = operands::<i64, I>(self, other, false);
        let vs = combine(
            &xs,
            &ys,
            |x: i64, y: i64| -> (o: i64) requires (i64_fits(x * y)) ensures (o == x * y) { x * y },
        );
        Signal::Sampled { values: vs, time_points: ts }
    }

    /// Perform sample-wise subtraction of the two signals, also at the points where
    /// they cross; every difference must fit.
    pub fn sub<I: InterpolationMethod<i64>>(&self, other: &Self) -> (r: Self)
        requires
            self.wf(),
            other.wf(),
            holds_at_points::<i64, I>(*self, *other, true, |x: int, y: int| i64_fits(x - y)),
        ensures
            is_pointwise_arith::<i64, I>(*self, *other, true, |x: int, y: int| x - y, r),
    {
        if self.is_empty() || other.is_empty() {
            return Signal::Empty;
        }
        if let (Signal::Constant { value: x }, Signal::Constant { value: y }) = (self, other) {
            return Signal::Constant { value: *x - *y };
        }
        let (ts, xs, ys) = operands::<i64, I>(self, other, true);
        let vs = combine(
            &xs,
            &ys,
            |x: i64, y: i64| -> (o: i64) requires (i64_fits(x - y)) ensures (o == x - y) { x - y },
        );
        Signal::Sampled { values: vs, time_points: ts }
    }

    /// Perform sample-wise division of the two signals, rounding toward zero; no
    /// divisor may be zero, and no quotient may overflow.
    pub fn div<I: InterpolationMethod<i64>>(&self, other: &Self) -> (r: Self)
        requires
            self.wf(),
            other.wf(),
            holds_at_points::<i64, I>(
                *self,
                *other,
                false,
                |x: int, y: int| y != 0 && !(x == i64::MIN && y == -1),
            ),
        ensures
            is_pointwise_arith::<i64, I>(
                *self,
                *other,
                false,
                |x: int, y: int| if (x < 0) == (y < 0) { int_abs(x) / int_abs(y) } else { -(int_abs(x) / int_abs(y)) },
                r,
            ),
    {
        if self.is_empty() || other.is_empty() {
            return Signal::Empty;
        }
        if let (Signal::Constant { value: x }, Signal::Constant { value: y }) = (self, other) {
            return Signal::Constant { value: quotient(*x, *y) };
        }
        let (ts, xs, ys) = operands::<i64, I>(self, other, false);
        let vs = combine(&xs, &ys, |x: i64, y: i64| -> (o: i64) requires (y != 0 && !(x == i64::MIN && y == -1)) ensures (o == (if (x < 0) == (y < 0) { int_abs(x as int) / int_abs(y as int) } else { -(int_abs(x as int) / int_abs(y as int)) })) { quotient(x, y) });
        Signal::Sampled { values: vs, time_points: ts }
    }

    /// Perform sample-wise absolute difference of the two signals, also at the points
    /// where they cross; every difference must fit.
    pub fn abs_diff<I: InterpolationMethod<i64>>(&self, other: &Self) -> (r: Self)
        requires
            self.wf(),
            other.wf(),
            holds_at_points::<i64, I>(*self, *other, true, |x: int, y: int| i64_fits(int_abs(x - y))),
        ensures
            is_pointwise_arith::<i64, I>(*self, *other, true, |x: int, y: int| int_abs(x - y), r),
    {
        if self.is_empty() || other.is_empty() {
            return Signal::Empty;
        }
        if let (Signal::Constant { value: x }, Signal::Constant { value: y }) = (self, other) {
            return Signal::Constant { value: if *x < *y { *y - *x } else { *x - *y } };
        }
        let (ts, xs, ys) = operands::<i64, I>(self, other, true);
        let vs = combine(
            &xs,
            &ys,
            |x: i64, y: i64| -> (o: i64) requires (i64_fits(int_abs(x - y))) ensures (o == int_abs(x - y)) { if x < y { y - x } else { x - y } },
        );
        Signal::Sampled { values: vs, time_points: ts }
    }
}

impl Signal<u64> {
    /// Perform sample-wise addition of the two signals; every sum must fit.
    pub fn add<I: InterpolationMethod<u64>>(&self, other: &Self) -> (r: Self)
        requires
            self.wf(),
            other.wf(),
            holds_at_points::<u64, I>(*self, *other, false, |x: int, y: int| u64_fits(x + y)),
        ensures
            is_pointwise_arith::<u64, I>(*self, *other, false, |x: int, y: int| x + y, r),
    {
        if self.is_empty() || other.is_empty() {
            return Signal::Empty;
        }
        if let (Signal::Constant { value: x }, Signal::Constant { value: y }) = (self, other) {
            return Signal::Constant { value: *x + *y };
        }
        let (ts, xs, ys) = operands::<u64, I>(self, other, false);
        let vs = combine(
            &xs,
            &ys,
            |x: u64, y: u64| -> (o: u64) requires (u64_fits(x + y)) ensures (o == x + y) { x + y },
        );
        Signal::Sampled { values: vs, time_points: ts }
    }

    /// Perform sample-wise multiplication of the two signals; every product must fit.
    pub fn mul<I: InterpolationMethod<u64>>(&self, other: &Self) -> (r: Self)
        requires
            self.wf(),
            other.wf(),
            holds_at_points::<u64, I>(*self, *other, false, |x: int, y: int| u64_fits(x * y)),
        ensures
            is_pointwise_arith::<u64, I>(*self, *other, false, |x: int, y: int| x * y, r),
    {
        if self.is_empty() || other.is_empty() {
            return Signal::Empty;
        }
        if let (Signal::Constant { value: x }, Signal::Constant { value: y }) = (self, other) {
            return Signal::Constant { value: *x * *y };
        }
        let (ts, xs, ys) = operands::<u64, I>(self, other, false);
        let vs = combine(
            &xs,
            &ys,
            |x: u64, y: u64| -> (o: u64) requires (u64_fits(x * y)) ensures (o == x * y) { x * y },
        );
        Signal::Sampled { values: vs, time_points: ts }
    }

    /// Perform sample-wise subtraction, also at the points where they cross of the two signals; no difference may be negative.
    pub fn sub<I: InterpolationMethod<u64>>(&self, other: &Self) -> (r: Self)
        requires
            self.wf(),
            other.wf(),
            holds_at_points::<u64, I>(*self, *other, true, |x: int, y: int| u64_fits(x - y)),
        ensures
            is_pointwise_arith::<u64, I>(*self, *other, true, |x: int, y: int| x - y, r),
    {
        if self.is_empty() || other.is_empty() {
            return Signal::Empty;
        }
        if let (Signal::Constant { value: x }, Signal::Constant { value: y }) = (self, other) {
            return Signal::Constant { value: *x - *y };
        }
        let (ts, xs, ys) = operands::<u64, I>(self, other, true);
        let vs = combine(
            &xs,
            &ys,
            |x: u64, y: u64| -> (o: u64) requires (u64_fits(x - y)) ensures (o == x - y) { x - y },
        );
        Signal::Sampled { values: vs, time_points: ts }
    }

    /// Perform sample-wise division, rounding down of the two signals; no divisor may be zero.
    pub fn div<I: InterpolationMethod<u64>>(&self, other: &Self) -> (r: Self)
        requires
            self.wf(),
            other.wf(),
            holds_at_points::<u64, I>(*self, *other, false, |x: int, y: int| y != 0),
        ensures
            is_pointwise_arith::<u64, I>(*self, *other, false, |x: int, y: int| x / y, r),
    {
        if self.is_empty() || other.is_empty() {
            return Signal::Empty;
        }
        if let (Signal::Constant { value: x }, Signal::Constant { value: y }) = (self, other) {
            return Signal::Constant { value: *x / *y };
        }
        let (ts, xs, ys) = operands::<u64, I>(self, other, false);
        let vs = combine(
            &xs,
            &ys,
            |x: u64, y: u64| -> (o: u64) requires (y != 0) ensures (o == x / y) { x / y },
        );
        Signal::Sampled { values: vs, time_points: ts }
    }

    /// Perform sample-wise absolute difference of the two signals, also at the points
    /// where they cross.
    pub fn abs_diff<I: InterpolationMethod<u64>>(&self, other: &Self) -> (r: Self)
        requires
            self.wf(),
            other.wf(),
        ensures
            is_pointwise_arith::<u64, I>(*self, *other, true, |x: int, y: int| int_abs(x - y), r),
    {
        if self.is_empty() || other.is_empty() {
            return Signal::Empty;
        }
        if let (Signal::Constant { value: x }, Signal::Constant { value: y }) = (self, other) {
            return Signal::Constant { value: if *x < *y { *y - *x } else { *x - *y } };
        }
        let (ts, xs, ys) = operands::<u64, I>(self, other, true);
        let vs = combine(
            &xs,
            &ys,
            |x: u64, y: u64| -> (o: u64) ensures (o == int_abs(x - y)) { if x < y { y - x } else { x - y } },
        );
        Signal::Sampled { values: vs, time_points: ts }
    }
}

/// The quotient of `x` by `y`, rounded toward zero.
fn quotient(x: i64, y: i64) -> (q: i64)
    requires
        y != 0,
        !(x == i64::MIN && y == -1),
    ensures
        q == (if (x < 0) == (y < 0) { int_abs(x as int) / int_abs(y as int) } else { -(int_abs(
            x as int,
        ) / int_abs(y as int)) }),
{
    let ax: u64 = if x >= 0 { x as u64 } else { (-(x + 1)) as u64 + 1 };
    let ay: u64 = if y >= 0 { y as u64 } else { (-(y + 1)) as u64 + 1 };
    let m: u64 = ax / ay;
    proof {
        assert(ax == int_abs(x as int));
        assert(ay == int_abs(y as int));
        assert(m <= ax) by (nonlinear_arith)
            requires
                ay >= 1,
                m == ax / ay,
        ;
        if ay == 1 {
            assert(m == ax) by (nonlinear_arith)
                requires
                    ay == 1,
                    m == ax / ay,
            ;
        } else {
            assert(m <= ax / 2) by (nonlinear_arith)
                requires
                    ay >= 2,
                    m == ax / ay,
            ;
        }
    }
    if (x < 0) == (y < 0) {
        m as i64
    } else if m == 9223372036854775808u64 {
        i64::MIN
    } else {
        -(m as i64)
    }
}

} // verus!
