//! Pointwise operations on signals.
use vstd::prelude::*;

use crate::interpolation::InterpolationMethod;
use crate::signal::{lemma_interpolate_in_domain, Signal};

verus! {

/// Apply `op` to every value of the signal.
pub fn apply1<T: Copy, U, F: Fn(T) -> U>(signal: &Signal<T>, op: F) -> (r: Signal<U>)
    requires
        signal.wf(),
        forall|v: T| call_requires(op, (v,)),
    ensures
        r.wf(),
        signal is Empty ==> r is Empty,
        signal matches Signal::Constant { value } ==> r matches Signal::Constant { value: u }
            && call_ensures(op, (*value,), u),
        signal is Sampled ==> r is Sampled && r.times() == signal.times() && forall|i: int|
            0 <= i < r.times().len() ==> call_ensures(op, (signal.vals()[i],), #[trigger] r.vals()[i]),
{
    match signal {
        Signal::Empty => Signal::Empty,
        Signal::Constant { value } => Signal::Constant { value: op(*value) },
        Signal::Sampled { values, time_points } => {
            let n = values.len();
            let mut out: Vec<U> = Vec::with_capacity(n);
            let mut i: usize = 0;
            while i < n
                invariant
                    n == values@.len(),
                    forall|v: T| call_requires(op, (v,)),
                    i <= n,
                    out@.len() == i,
                    forall|j: int| 0 <= j < i ==> call_ensures(op, (values@[j],), #[trigger] out@[j]),
                decreases n - i,
            {
                let v = op(values[i]);
                out.push(v);
                i = i + 1;
            }
            Signal::Sampled { values: out, time_points: time_points.clone() }
        },
    }
}

/// Apply `op` to the values of two signals at each of their synchronization points
/// (see [`Signal::sync_points`]), interpolating each signal with `I`.
///
/// The result is empty when either signal is empty, constant when both are constant,
/// and sampled at the synchronization points otherwise.
pub fn apply2<T: Copy, U, F: Fn(T, T) -> U, I: InterpolationMethod<T>>(
    lhs: &Signal<T>,
    rhs: &Signal<T>,
    op: F,
) -> (r: Signal<U>)
    requires
        lhs.wf(),
        rhs.wf(),
        forall|a: T, b: T| call_requires(op, (a, b)),
    ensures
        r.wf(),
        (lhs.spec_is_empty() || rhs.spec_is_empty()) ==> r is Empty,
        !lhs.spec_is_empty() && !rhs.spec_is_empty() && lhs is Constant && rhs is Constant
            ==> r is Constant && call_ensures(
            op,
            (lhs->Constant_value, rhs->Constant_value),
            r->Constant_value,
        ),
        !lhs.spec_is_empty() && !rhs.spec_is_empty() && !(lhs is Constant && rhs is Constant) ==> {
            &&& r is Sampled
            &&& r.times() == lhs.spec_sync_points(rhs).unwrap()
            &&& forall|i: int|
                0 <= i < r.times().len() ==> lhs.in_domain(#[trigger] r.times()[i]) && rhs.in_domain(
                    r.times()[i],
                )
            &&& forall|i: int|
                0 <= i < r.times().len() ==> call_ensures(
                    op,
                    (
                        lhs.spec_interpolate_at::<I>(r.times()[i]).unwrap(),
                        rhs.spec_interpolate_at::<I>(r.times()[i]).unwrap(),
                    ),
                    #[trigger] r.vals()[i],
                )
        },
{
    if lhs.is_empty() || rhs.is_empty() {
        return Signal::Empty;
    }
    match (lhs, rhs) {
        (Signal::Constant { value: v1 }, Signal::Constant { value: v2 }) => Signal::Constant {
            value: op(*v1, *v2),
        },
        _ => {
            let time_points = lhs.sync_points(rhs).unwrap();
            let n = time_points.len();
            let mut out: Vec<U> = Vec::with_capacity(n);
            let mut i: usize = 0;
            while i < n
                invariant
                    n == time_points@.len(),
                    lhs.wf(),
                    rhs.wf(),
                    lhs.spec_sync_points(rhs) == Some(time_points@),
                    forall|j: int|
                        0 <= j < time_points@.len() ==> lhs.in_domain(#[trigger] time_points@[j])
                            && rhs.in_domain(time_points@[j]),
                    forall|a: T, b: T| call_requires(op, (a, b)),
                    i <= n,
                    out@.len() == i,
                    forall|j: int|
                        0 <= j < i ==> call_ensures(
                            op,
                            (
                                lhs.spec_interpolate_at::<I>(time_points@[j]).unwrap(),
                                rhs.spec_interpolate_at::<I>(time_points@[j]).unwrap(),
                            ),
                            #[trigger] out@[j],
                        ),
                decreases n - i,
            {
                let t = time_points[i];
                proof {
                    lemma_interpolate_in_domain::<T, I>(*lhs, t);
                    lemma_interpolate_in_domain::<T, I>(*rhs, t);
                }
                let a = lhs.interpolate_at::<I>(t).unwrap();
                let b = rhs.interpolate_at::<I>(t).unwrap();
                out.push(op(a, b));
                i = i + 1;
            }
            Signal::Sampled { values: out, time_points }
        },
    }
}

/// `r` is the negation of the boolean signal `s`, sample by sample.
pub open spec fn is_negation(s: Signal<bool>, r: Signal<bool>) -> bool {
    &&& r.wf()
    &&& s is Empty ==> r is Empty
    &&& s matches Signal::Constant { value } ==> r == (Signal::Constant { value: !value })
    &&& s is Sampled ==> r is Sampled && r.times() == s.times() && r.vals() == s.vals().map_values(
        |v: bool| !v,
    )
}

/// `r` is the disjunction (`disj`) or conjunction of the boolean signals `a` and `b`,
/// at their synchronization points (which lie in both domains) with values
/// interpolated by `I`: empty where either is empty, and constant where both are.
pub open spec fn is_pointwise_logic<I: InterpolationMethod<bool>>(
    a: Signal<bool>,
    b: Signal<bool>,
    disj: bool,
    r: Signal<bool>,
) -> bool {
    &&& r.wf()
    &&& (a.spec_is_empty() || b.spec_is_empty()) ==> r is Empty
    &&& !a.spec_is_empty() && !b.spec_is_empty() && a is Constant && b is Constant ==> r == (
    Signal::Constant {
        value: if disj {
            a->Constant_value || b->Constant_value
        } else {
            a->Constant_value && b->Constant_value
        },
    })
    &&& !a.spec_is_empty() && !b.spec_is_empty() && !(a is Constant && b is Constant) ==> {
        &&& r is Sampled
        &&& r.times() == a.spec_sync_points(&b).unwrap()
        &&& forall|i: int|
            0 <= i < r.times().len() ==> a.in_domain(#[trigger] r.times()[i]) && b.in_domain(
                r.times()[i],
            )
        &&& forall|i: int|
            0 <= i < r.times().len() ==> #[trigger] r.vals()[i] == if disj {
                a.spec_interpolate_at::<I>(r.times()[i]).unwrap() || b.spec_interpolate_at::<I>(
                    r.times()[i],
                ).unwrap()
            } else {
                a.spec_interpolate_at::<I>(r.times()[i]).unwrap() && b.spec_interpolate_at::<I>(
                    r.times()[i],
                ).unwrap()
            }
    }
}

impl Signal<bool> {
    /// Apply logical not for each sample across the signal.
    pub fn logical_not(&self) -> (r: Self)
        requires
            self.wf(),
        ensures
            is_negation(*self, r),
    {
        let r = apply1(self, |v: bool| -> (o: bool) ensures o == !v { !v });
        proof {
            if self is Sampled {
                assert(r.vals() =~= self.vals().map_values(|v: bool| !v));
            }
        }
        r
    }

    /// Apply logical conjunction for each sample across the two signals, at all points
    /// where the two signals are synchronized (see [`Signal::sync_points`]).
    pub fn and<I: InterpolationMethod<bool>>(&self, other: &Self) -> (r: Self)
        requires
            self.wf(),
            other.wf(),
        ensures
            is_pointwise_logic::<I>(*self, *other, false, r),
    {
        apply2::<bool, bool, _, I>(self, other, |a: bool, b: bool| -> (o: bool) ensures o == (a && b) { a && b })
    }

    /// Apply logical disjunction for each sample across the two signals, at all points
    /// where the two signals are synchronized (see [`Signal::sync_points`]).
    pub fn or<I: InterpolationMethod<bool>>(&self, other: &Self) -> (r: Self)
        requires
            self.wf(),
            other.wf(),
        ensures
            is_pointwise_logic::<I>(*self, *other, true, r),
    {
        apply2::<bool, bool, _, I>(self, other, |a: bool, b: bool| -> (o: bool) ensures o == (a || b) { a || b })
    }
}

} // verus!
