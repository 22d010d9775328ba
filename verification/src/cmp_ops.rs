//! Time-wise comparison, minimum and maximum of signals.
use vstd::prelude::*;

use crate::interpolation::{InterpolationMethod, Neighborhood};
use crate::order::{spec_max, spec_min, value_max, value_min, Ranked};
use crate::relation::Relation;
use crate::signal::{lemma_interpolate_in_domain, strictly_increasing, Sample, Signal};

verus! {

/// The time at which `x` and `y` cross strictly between the consecutive
/// synchronization points `tm1` and `t`, if they cross there: the order of their
/// values at `tm1` is the opposite of the order at `t`, and the interpolation method
/// finds an intersection strictly inside `(tm1, t)`.
pub open spec fn crossing_between<T: Ranked, I: InterpolationMethod<T>>(
    x: Signal<T>,
    y: Signal<T>,
    tm1: u64,
    t: u64,
) -> Option<u64> {
    let a1 = x.spec_interpolate_at::<I>(tm1).unwrap();
    let b1 = y.spec_interpolate_at::<I>(tm1).unwrap();
    let a2 = x.spec_interpolate_at::<I>(t).unwrap();
    let b2 = y.spec_interpolate_at::<I>(t).unwrap();
    if (a1.rank() < b1.rank() && a2.rank() > b2.rank()) || (a1.rank() > b1.rank() && a2.rank()
        < b2.rank()) {
        match I::spec_find_intersection(
            Neighborhood { first: Some(Sample { time: tm1, value: a1 }), second: Some(Sample { time: t, value: a2 }) },
            Neighborhood { first: Some(Sample { time: tm1, value: b1 }), second: Some(Sample { time: t, value: b2 }) },
        ) {
            Some(s) => if tm1 < s.time && s.time < t {
                Some(s.time)
            } else {
                None
            },
            None => None,
        }
    } else {
        None
    }
}

/// The points `pts`, with the crossing point of `x` and `y` added between each two
/// consecutive points where the signals cross.
pub open spec fn with_crossings<T: Ranked, I: InterpolationMethod<T>>(
    x: Signal<T>,
    y: Signal<T>,
    pts: Seq<u64>,
) -> Seq<u64>
    decreases pts.len(),
{
    if pts.len() <= 1 {
        pts
    } else {
        let prev = with_crossings::<T, I>(x, y, pts.drop_last());
        match crossing_between::<T, I>(x, y, pts[pts.len() - 2], pts.last()) {
            Some(c) => prev.push(c).push(pts.last()),
            None => prev.push(pts.last()),
        }
    }
}

/// Adding crossing points keeps the points strictly increasing and within the span
/// of `pts`, and keeps the last point.
pub proof fn lemma_with_crossings<T: Ranked, I: InterpolationMethod<T>>(
    x: Signal<T>,
    y: Signal<T>,
    pts: Seq<u64>,
)
    requires
        strictly_increasing(pts),
    ensures
        strictly_increasing(with_crossings::<T, I>(x, y, pts)),
        pts.len() > 0 ==> with_crossings::<T, I>(x, y, pts).len() > 0 && with_crossings::<T, I>(
            x,
            y,
            pts,
        ).last() == pts.last(),
        pts.len() == 0 ==> with_crossings::<T, I>(x, y, pts).len() == 0,
        forall|i: int|
            0 <= i < with_crossings::<T, I>(x, y, pts).len() ==> pts[0] <= #[trigger] with_crossings::<
                T,
                I,
            >(x, y, pts)[i] <= pts.last(),
    decreases pts.len(),
{
    if pts.len() > 1 {
        let init = pts.drop_last();
        assert forall|i: int, j: int| 0 <= i < j < init.len() implies init[i] < init[j] by {
            assert(pts[i] < pts[j]);
        }
        lemma_with_crossings::<T, I>(x, y, init);
        let prev = with_crossings::<T, I>(x, y, init);
        let w = with_crossings::<T, I>(x, y, pts);
        assert(init.last() == pts[pts.len() - 2]);
        assert(pts[pts.len() - 2] < pts.last());
        assert(init[0] == pts[0]);
        assert forall|i: int, j: int| 0 <= i < j < w.len() implies w[i] < w[j] by {
            if j >= prev.len() && i < prev.len() {
                assert(prev[i] <= init.last());
            }
        }
        assert forall|i: int| 0 <= i < w.len() implies pts[0] <= #[trigger] w[i] <= pts.last() by {
            if i < prev.len() {
                assert(prev[i] <= init.last());
            }
        }
    }
}

/// The order of two values of ranks, as "less than" and "greater than".
fn order_of<T: Ranked>(a: &T, b: &T) -> (r: (bool, bool))
    ensures
        r.0 == (a.rank() < b.rank()),
        r.1 == (a.rank() > b.rank()),
{
    (a.less_than(b), b.less_than(a))
}

impl<T: Ranked> Signal<T> {
    /// `r` is the time-wise comparison of the two signals by `rel`: none when either
    /// signal is empty, else a signal sampled at the synchronization points with the
    /// crossing points added, whose value at each point is whether `rel` holds between
    /// the two signals' values there.
    pub open spec fn is_signal_cmp<I: InterpolationMethod<T>>(
        &self,
        other: &Self,
        rel: Relation,
        r: Option<Signal<bool>>,
    ) -> bool {
        &&& r is None <==> self.spec_sync_points(other) is None
        &&& r matches Some(sig) ==> {
            &&& sig is Sampled
            &&& sig.wf()
            &&& sig.times() == with_crossings::<T, I>(
                *self,
                *other,
                self.spec_sync_points(other).unwrap(),
            )
            &&& forall|i: int|
                0 <= i < sig.times().len() ==> #[trigger] sig.vals()[i] == rel.holds(
                    self.spec_interpolate_at::<I>(sig.times()[i]).unwrap().rank(),
                    other.spec_interpolate_at::<I>(sig.times()[i]).unwrap().rank(),
                )
        }
    }

    /// `r` is the time-wise minimum (when `take_min`) or maximum of the two signals:
    /// of two constant signals, the constant signal of the smaller (larger) value;
    /// otherwise a signal sampled at the synchronization points with the crossing
    /// points added, whose value at each point is the smaller (larger) of the two
    /// signals' values.
    pub open spec fn is_pointwise_extreme<I: InterpolationMethod<T>>(
        &self,
        other: &Self,
        take_min: bool,
        r: Signal<T>,
    ) -> bool {
        if *self is Constant && *other is Constant {
            r == Signal::Constant {
                value: if take_min {
                    spec_min(self->Constant_value, other->Constant_value)
                } else {
                    spec_max(self->Constant_value, other->Constant_value)
                },
            }
        } else {
            self.is_sampled_extreme::<I>(other, take_min, r)
        }
    }

    /// `r` is a signal sampled at the synchronization points of the two signals with
    /// the crossing points added, whose value at each point is the smaller (when
    /// `take_min`) or larger of the two signals' values.
    pub open spec fn is_sampled_extreme<I: InterpolationMethod<T>>(
        &self,
        other: &Self,
        take_min: bool,
        r: Signal<T>,
    ) -> bool {
        &&& r is Sampled
        &&& r.wf()
        &&& r.times() == with_crossings::<T, I>(
            *self,
            *other,
            self.spec_sync_points(other).unwrap(),
        )
        &&& forall|i: int|
            0 <= i < r.times().len() ==> #[trigger] r.vals()[i] == if take_min {
                spec_min(
                    self.spec_interpolate_at::<I>(r.times()[i]).unwrap(),
                    other.spec_interpolate_at::<I>(r.times()[i]).unwrap(),
                )
            } else {
                spec_max(
                    self.spec_interpolate_at::<I>(r.times()[i]).unwrap(),
                    other.spec_interpolate_at::<I>(r.times()[i]).unwrap(),
                )
            }
    }

    /// Augment the synchronization points of two signals (see [`Signal::sync_points`])
    /// with the time points where the signals intersect.
    ///
    /// Between two consecutive synchronization points at which the order of the two
    /// signals' values is reversed, the intersection found by `I` is added when it lies
    /// strictly between the two points.
    pub fn sync_with_intersection<I: InterpolationMethod<T>>(&self, other: &Self) -> (r: Option<
        Vec<u64>,
    >)
        requires
            self.wf(),
            other.wf(),
        ensures
            r is None <==> self.spec_sync_points(other) is None,
            r matches Some(v) ==> v@ == with_crossings::<T, I>(
                *self,
                *other,
                self.spec_sync_points(other).unwrap(),
            ),
            r matches Some(v) ==> strictly_increasing(v@),
            r matches Some(v) ==> forall|i: int|
                0 <= i < v@.len() ==> self.in_domain(#[trigger] v@[i]) && other.in_domain(v@[i]),
    {
        let sync_points = match self.sync_points(other) {
            Some(p) => p,
            None => return None,
        };
        let n = sync_points.len();
        let mut out: Vec<u64> = Vec::with_capacity(n);
        let mut last: Option<(u64, T, T)> = None;
        let mut i: usize = 0;
        while i < n
            invariant
                n == sync_points@.len(),
                self.wf(),
                other.wf(),
                strictly_increasing(sync_points@),
                forall|j: int|
                    0 <= j < n ==> self.in_domain(#[trigger] sync_points@[j]) && other.in_domain(
                        sync_points@[j],
                    ),
                i <= n,
                out@ == with_crossings::<T, I>(*self, *other, sync_points@.take(i as int)),
                i == 0 ==> last is None,
                i > 0 ==> last == Some(
                    (
                        sync_points@[i - 1],
                        self.spec_interpolate_at::<I>(sync_points@[i - 1]).unwrap(),
                        other.spec_interpolate_at::<I>(sync_points@[i - 1]).unwrap(),
                    ),
                ),
            decreases n - i,
        {
            let t = sync_points[i];
            proof {
                lemma_interpolate_in_domain::<T, I>(*self, t);
                lemma_interpolate_in_domain::<T, I>(*other, t);
            }
            let lhs = self.interpolate_at::<I>(t).unwrap();
            let rhs = other.interpolate_at::<I>(t).unwrap();
            let ord = order_of(&lhs, &rhs);
            let ghost prefix = sync_points@.take(i + 1);
            proof {
                assert(prefix.drop_last() =~= sync_points@.take(i as int));
                assert(prefix.last() == t);
                if i > 0 {
                    assert(prefix[prefix.len() - 2] == sync_points@[i - 1]);
                }
            }
            if let Some((tm1, l1, r1)) = last {
                let prev_ord = order_of(&l1, &r1);
                if (prev_ord.0 && ord.1) || (prev_ord.1 && ord.0) {
                    let a = Neighborhood {
                        first: Some(Sample { time: tm1, value: l1 }),
                        second: Some(Sample { time: t, value: lhs }),
                    };
                    let b = Neighborhood {
                        first: Some(Sample { time: tm1, value: r1 }),
                        second: Some(Sample { time: t, value: rhs }),
                    };
                    match I::find_intersection(&a, &b) {
                        Some(s) => {
                            if tm1 < s.time && s.time < t {
                                out.push(s.time);
                            }
                        },
                        None => {},
                    }
                }
            }
            out.push(t);
            last = Some((t, lhs, rhs));
            i = i + 1;
        }
        proof {
            assert(sync_points@.take(n as int) =~= sync_points@);
            lemma_with_crossings::<T, I>(*self, *other, sync_points@);
            let w = with_crossings::<T, I>(*self, *other, sync_points@);
            assert forall|j: int| 0 <= j < w.len() implies self.in_domain(#[trigger] w[j])
                && other.in_domain(w[j]) by {
                assert(self.in_domain(sync_points@[0]));
                assert(other.in_domain(sync_points@[0]));
                assert(self.in_domain(sync_points@[n - 1]));
                assert(other.in_domain(sync_points@[n - 1]));
            }
        }
        Some(out)
    }

    /// Compare two signals within each of their domains and apply the relation `rel`
    /// to the comparison, at the synchronization points augmented with the crossing
    /// points (see [`Signal::sync_with_intersection`]).
    ///
    /// Returns `None` when either of the signals is empty.
    pub fn signal_cmp<I: InterpolationMethod<T>>(&self, other: &Self, rel: Relation) -> (r: Option<
        Signal<bool>,
    >)
        requires
            self.wf(),
            other.wf(),
        ensures
            self.is_signal_cmp::<I>(other, rel, r),
    {
        let time_points = match self.sync_with_intersection::<I>(other) {
            Some(p) => p,
            None => return None,
        };
        let n = time_points.len();
        let mut values: Vec<bool> = Vec::with_capacity(n);
        let mut i: usize = 0;
        while i < n
            invariant
                n == time_points@.len(),
                self.wf(),
                other.wf(),
                forall|j: int|
                    0 <= j < n ==> self.in_domain(#[trigger] time_points@[j]) && other.in_domain(
                        time_points@[j],
                    ),
                i <= n,
                values@.len() == i,
                forall|j: int|
                    0 <= j < i ==> #[trigger] values@[j] == rel.holds(
                        self.spec_interpolate_at::<I>(time_points@[j]).unwrap().rank(),
                        other.spec_interpolate_at::<I>(time_points@[j]).unwrap().rank(),
                    ),
            decreases n - i,
        {
            let t = time_points[i];
            proof {
                lemma_interpolate_in_domain::<T, I>(*self, t);
                lemma_interpolate_in_domain::<T, I>(*other, t);
            }
            let lhs = self.interpolate_at::<I>(t).unwrap();
            let rhs = other.interpolate_at::<I>(t).unwrap();
            let ord = order_of(&lhs, &rhs);
            let v = rel.decide(ord.0, ord.1);
            values.push(v);
            i = i + 1;
        }
        Some(Signal::Sampled { values, time_points })
    }

    /// Compute the time-wise `<` of two signals.
    pub fn signal_lt<I: InterpolationMethod<T>>(&self, other: &Self) -> (r: Option<Signal<bool>>)
        requires
            self.wf(),
            other.wf(),
        ensures
            self.is_signal_cmp::<I>(other, (Relation::Less { strict: true }), r),
    {
        self.signal_cmp::<I>(other, Relation::Less { strict: true })
    }

    /// Compute the time-wise `<=` of two signals.
    pub fn signal_le<I: InterpolationMethod<T>>(&self, other: &Self) -> (r: Option<Signal<bool>>)
        requires
            self.wf(),
            other.wf(),
        ensures
            self.is_signal_cmp::<I>(other, (Relation::Less { strict: false }), r),
    {
        self.signal_cmp::<I>(other, Relation::Less { strict: false })
    }

    /// Compute the time-wise `>` of two signals.
    pub fn signal_gt<I: InterpolationMethod<T>>(&self, other: &Self) -> (r: Option<Signal<bool>>)
        requires
            self.wf(),
            other.wf(),
        ensures
            self.is_signal_cmp::<I>(other, (Relation::Greater { strict: true }), r),
    {
        self.signal_cmp::<I>(other, Relation::Greater { strict: true })
    }

    /// Compute the time-wise `>=` of two signals.
    pub fn signal_ge<I: InterpolationMethod<T>>(&self, other: &Self) -> (r: Option<Signal<bool>>)
        requires
            self.wf(),
            other.wf(),
        ensures
            self.is_signal_cmp::<I>(other, (Relation::Greater { strict: false }), r),
    {
        self.signal_cmp::<I>(other, Relation::Greater { strict: false })
    }

    /// Compute the time-wise `==` of two signals.
    pub fn signal_eq<I: InterpolationMethod<T>>(&self, other: &Self) -> (r: Option<Signal<bool>>)
        requires
            self.wf(),
            other.wf(),
        ensures
            self.is_signal_cmp::<I>(other, (Relation::Eq), r),
    {
        self.signal_cmp::<I>(other, Relation::Eq)
    }

    /// Compute the time-wise `!=` of two signals.
    pub fn signal_ne<I: InterpolationMethod<T>>(&self, other: &Self) -> (r: Option<Signal<bool>>)
        requires
            self.wf(),
            other.wf(),
        ensures
            self.is_signal_cmp::<I>(other, (Relation::NotEq), r),
    {
        self.signal_cmp::<I>(other, Relation::NotEq)
    }
}

impl<T: Ranked> Signal<T> {
    /// The time-wise minimum or maximum of two non-empty signals.
    fn extreme<I: InterpolationMethod<T>>(&self, other: &Self, take_min: bool) -> (r: Self)
        requires
            self.wf(),
            other.wf(),
            !self.spec_is_empty(),
            !other.spec_is_empty(),
        ensures
            self.is_pointwise_extreme::<I>(other, take_min, r),
    {
        match (self, other) {
            (Signal::Constant { value: a }, Signal::Constant { value: b }) => {
                let v = if take_min {
                    value_min(*a, *b)
                } else {
                    value_max(*a, *b)
                };
                return Signal::Constant { value: v };
            },
            _ => {},
        }
        let time_points = self.sync_with_intersection::<I>(other).unwrap();
        let n = time_points.len();
        let mut values: Vec<T> = Vec::with_capacity(n);
        let mut i: usize = 0;
        while i < n
            invariant
                n == time_points@.len(),
                self.wf(),
                other.wf(),
                forall|j: int|
                    0 <= j < n ==> self.in_domain(#[trigger] time_points@[j]) && other.in_domain(
                        time_points@[j],
                    ),
                i <= n,
                values@.len() == i,
                forall|j: int|
                    0 <= j < i ==> #[trigger] values@[j] == if take_min {
                        spec_min(
                            self.spec_interpolate_at::<I>(time_points@[j]).unwrap(),
                            other.spec_interpolate_at::<I>(time_points@[j]).unwrap(),
                        )
                    } else {
                        spec_max(
                            self.spec_interpolate_at::<I>(time_points@[j]).unwrap(),
                            other.spec_interpolate_at::<I>(time_points@[j]).unwrap(),
                        )
                    },
            decreases n - i,
        {
            let t = time_points[i];
            proof {
                lemma_interpolate_in_domain::<T, I>(*self, t);
                lemma_interpolate_in_domain::<T, I>(*other, t);
            }
            let lhs = self.interpolate_at::<I>(t).unwrap();
            let rhs = other.interpolate_at::<I>(t).unwrap();
            let v = if take_min {
                value_min(lhs, rhs)
            } else {
                value_max(lhs, rhs)
            };
            values.push(v);
            i = i + 1;
        }
        Signal::Sampled { values, time_points }
    }

    /// Compute the time-wise min of two signals.
    ///
    /// Both signals must be non-empty.
    pub fn min<I: InterpolationMethod<T>>(&self, other: &Self) -> (r: Self)
        requires
            self.wf(),
            other.wf(),
            !self.spec_is_empty(),
            !other.spec_is_empty(),
        ensures
            self.is_pointwise_extreme::<I>(other, true, r),
    {
        self.extreme::<I>(other, true)
    }

    /// Compute the time-wise max of two signals.
    ///
    /// Both signals must be non-empty.
    pub fn max<I: InterpolationMethod<T>>(&self, other: &Self) -> (r: Self)
        requires
            self.wf(),
            other.wf(),
            !self.spec_is_empty(),
            !other.spec_is_empty(),
        ensures
            self.is_pointwise_extreme::<I>(other, false, r),
    {
        self.extreme::<I>(other, false)
    }
}

} // verus!
