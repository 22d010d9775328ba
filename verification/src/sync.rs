//! Time points at which two signals are synchronized for pointwise operations.
use vstd::prelude::*;

use crate::bound::{intersect_bounds, Bound};
use crate::signal::{strictly_increasing, Signal};

verus! {

/// `s` holds, in increasing order, exactly the time points of `a` or `b` that lie
/// between `lo` and `hi` (both included).
pub open spec fn is_merged_within(s: Seq<u64>, a: Seq<u64>, b: Seq<u64>, lo: int, hi: int) -> bool {
    &&& strictly_increasing(s)
    &&& forall|t: u64| s.contains(t) <==> ((a.contains(t) || b.contains(t)) && lo <= t <= hi)
}

/// Two strictly increasing sequences with the same elements are equal.
pub proof fn lemma_sorted_unique(a: Seq<u64>, b: Seq<u64>)
    requires
        strictly_increasing(a),
        strictly_increasing(b),
        forall|t: u64| a.contains(t) <==> b.contains(t),
    ensures
        a == b,
    decreases a.len(),
{
    if a.len() == 0 {
        if b.len() > 0 {
            assert(b.contains(b[0]));
        }
        assert(a =~= b);
    } else {
        assert(a.contains(a[0]));
        assert(b.len() > 0);
        assert(b.contains(b[0]));
        let i = choose|i: int| 0 <= i < b.len() && b[i] == a[0];
        let j = choose|j: int| 0 <= j < a.len() && a[j] == b[0];
        if i > 0 {
            assert(b[0] < b[i]);
            assert(a[j] < a[0]);
            assert(false);
        }
        assert(a[0] == b[0]);
        let a1 = a.drop_first();
        let b1 = b.drop_first();
        assert forall|t: u64| a1.contains(t) <==> b1.contains(t) by {
            if a1.contains(t) {
                let k = choose|k: int| 0 <= k < a1.len() && a1[k] == t;
                assert(a[k + 1] == t);
                assert(a[0] < a[k + 1]);
                assert(a.contains(t));
                let m = choose|m: int| 0 <= m < b.len() && b[m] == t;
                if m == 0 {
                    assert(false);
                }
                assert(b1[m - 1] == t);
            }
            if b1.contains(t) {
                let k = choose|k: int| 0 <= k < b1.len() && b1[k] == t;
                assert(b[k + 1] == t);
                assert(b[0] < b[k + 1]);
                assert(b.contains(t));
                let m = choose|m: int| 0 <= m < a.len() && a[m] == t;
                if m == 0 {
                    assert(false);
                }
                assert(a1[m - 1] == t);
            }
        }
        lemma_sorted_unique(a1, b1);
        assert(a =~= seq![a[0]] + a1);
        assert(b =~= seq![b[0]] + b1);
    }
}

/// Every time point of a sampled signal lies in its domain.
pub proof fn lemma_points_in_own_domain<T>(sig: Signal<T>)
    requires
        sig.wf(),
        sig.has_samples(),
    ensures
        forall|i: int| 0 <= i < sig.times().len() ==> sig.in_domain(#[trigger] sig.times()[i]),
{
    assert forall|i: int| 0 <= i < sig.times().len() implies sig.in_domain(#[trigger] sig.times()[i]) by {
        if i > 0 {
            assert(sig.times()[0] < sig.times()[i]);
        }
        if i < sig.times().len() - 1 {
            assert(sig.times()[i] < sig.times()[sig.times().len() - 1]);
        }
    }
}

/// The merge of `a` and `b` restricted to `[lo, hi]`.
pub open spec fn merged_within(a: Seq<u64>, b: Seq<u64>, lo: int, hi: int) -> Seq<u64> {
    choose|s: Seq<u64>| is_merged_within(s, a, b, lo, hi)
}

impl<T> Signal<T> {
    /// The points at which two signals are synchronized: none when either signal is
    /// empty; for two constant signals no points; for a constant and a sampled
    /// signal, the time points of the sampled one; for two sampled signals, the time
    /// points of either that lie within both signals' domains.
    pub open spec fn spec_sync_points(&self, other: &Self) -> Option<Seq<u64>> {
        if self.spec_is_empty() || other.spec_is_empty() {
            None
        } else if self is Constant && other is Constant {
            Some(Seq::empty())
        } else if self is Constant {
            Some(other.times())
        } else if other is Constant {
            Some(self.times())
        } else {
            let a = self.times();
            let b = other.times();
            Some(
                merged_within(
                    a,
                    b,
                    if a[0] > b[0] { a[0] as int } else { b[0] as int },
                    if a.last() < b.last() { a.last() as int } else { b.last() as int },
                ),
            )
        }
    }

    /// Return a list consisting of all the points where the two signals should be
    /// sampled and synchronized for operations.
    pub fn sync_points(&self, other: &Self) -> (r: Option<Vec<u64>>)
        requires
            self.wf(),
            other.wf(),
        ensures
            r is None <==> self.spec_sync_points(other) is None,
            r matches Some(v) ==> v@ == self.spec_sync_points(other).unwrap(),
            r matches Some(v) ==> strictly_increasing(v@),
            r matches Some(v) ==> forall|i: int|
                0 <= i < v@.len() ==> self.in_domain(#[trigger] v@[i]) && other.in_domain(v@[i]),
    {
        if self.is_empty() || other.is_empty() {
            return None;
        }
        match (self, other) {
            (Signal::Constant { value: _ }, Signal::Constant { value: _ }) => Some(Vec::new()),
            (Signal::Constant { value: _ }, Signal::Sampled { values: _, time_points }) => {
                proof {
                    lemma_points_in_own_domain(*other);
                }
                Some(time_points.clone())
            },
            (Signal::Sampled { values: _, time_points }, Signal::Constant { value: _ }) => {
                proof {
                    lemma_points_in_own_domain(*self);
                }
                Some(time_points.clone())
            },
            (Signal::Sampled { values: _, time_points: lhs }, Signal::Sampled {
                values: _,
                time_points: rhs,
            }) => {
                let lb = self.bounds().unwrap();
                let rb = other.bounds().unwrap();
                let (lo, hi) = match intersect_bounds(&lb, &rb) {
                    (Bound::Included(start), Bound::Included(end)) => (start, end),
                    _ => {
                        proof {
                            assert(false);
                        }
                        (0, 0)
                    },
                };
                let merged = merge_within(lhs, rhs, lo, hi);
                proof {
                    lemma_sorted_unique(merged@, merged_within(lhs@, rhs@, lo as int, hi as int));
                    assert forall|i: int| 0 <= i < merged@.len() implies self.in_domain(
                        #[trigger] merged@[i],
                    ) && other.in_domain(merged@[i]) by {
                        assert(merged@.contains(merged@[i]));
                    }
                }
                Some(merged)
            },
            _ => {
                proof {
                    assert(false);
                }
                None
            },
        }
    }
}

/// Merge two strictly increasing lists of time points into one, keeping the points
/// within `[lo, hi]` and each point once.
pub fn merge_within(a: &Vec<u64>, b: &Vec<u64>, lo: u64, hi: u64) -> (r: Vec<u64>)
    requires
        strictly_increasing(a@),
        strictly_increasing(b@),
    ensures
        is_merged_within(r@, a@, b@, lo as int, hi as int),
        exists|s: Seq<u64>| is_merged_within(s, a@, b@, lo as int, hi as int),
{
    let mut out: Vec<u64> = Vec::new();
    let mut i: usize = 0;
    let mut j: usize = 0;
    let na = a.len();
    let nb = b.len();
    while i < na || j < nb
        invariant
            na == a@.len(),
            nb == b@.len(),
            i <= na,
            j <= nb,
            strictly_increasing(a@),
            strictly_increasing(b@),
            strictly_increasing(out@),
            forall|k: int| 0 <= k < out@.len() ==> (i < na ==> out@[k] < a@[i as int]),
            forall|k: int| 0 <= k < out@.len() ==> (j < nb ==> out@[k] < b@[j as int]),
            forall|t: u64|
                out@.contains(t) <==> ((a@.take(i as int).contains(t) || b@.take(j as int).contains(
                    t,
                )) && lo <= t <= hi),
        decreases na + nb - i - j,
    {
        let ghost old_out = out@;
        let ghost (oi, oj) = (i as int, j as int);
        let t;
        if j >= nb || (i < na && a[i] < b[j]) {
            t = a[i];
            i = i + 1;
        } else if i >= na || b[j] < a[i] {
            t = b[j];
            j = j + 1;
        } else {
            t = a[i];
            i = i + 1;
            j = j + 1;
        }
        if lo <= t && t <= hi {
            out.push(t);
        }
        proof {
            assert(a@.take(i as int) =~= if i as int == oi { a@.take(oi) } else { a@.take(
                oi,
            ).push(a@[oi]) });
            assert(b@.take(j as int) =~= if j as int == oj { b@.take(oj) } else { b@.take(
                oj,
            ).push(b@[oj]) });
            assert forall|k: int| 0 <= k < out@.len() implies (i < na ==> out@[k] < a@[i as int])
                && (j < nb ==> out@[k] < b@[j as int]) by {
                if i < na {
                    if oi < i {
                        assert(a@[oi] < a@[i as int]);
                    }
                }
                if j < nb {
                    if oj < j {
                        assert(b@[oj] < b@[j as int]);
                    }
                }
            }
            assert forall|u: u64|
                out@.contains(u) <==> ((a@.take(i as int).contains(u) || b@.take(
                    j as int,
                ).contains(u)) && lo <= u <= hi) by {
                let ta = a@.take(oi);
                let tb = b@.take(oj);
                // What entered the prefixes in this step is `t`.
                assert(a@.take(i as int).contains(u) <==> (ta.contains(u) || (i as int > oi && u
                    == t))) by {
                    if i as int > oi {
                        assert(a@.take(i as int) =~= ta.push(t));
                        if ta.contains(u) {
                            let k = choose|k: int| 0 <= k < ta.len() && ta[k] == u;
                            assert(ta.push(t)[k] == u);
                        }
                        if u == t {
                            assert(ta.push(t)[ta.len() as int] == t);
                        }
                        if ta.push(t).contains(u) {
                            let k = choose|k: int| 0 <= k < ta.push(t).len() && ta.push(t)[k] == u;
                            if k < ta.len() {
                                assert(ta[k] == u);
                            }
                        }
                    }
                }
                assert(b@.take(j as int).contains(u) <==> (tb.contains(u) || (j as int > oj && u
                    == t))) by {
                    if j as int > oj {
                        assert(b@.take(j as int) =~= tb.push(t));
                        if tb.contains(u) {
                            let k = choose|k: int| 0 <= k < tb.len() && tb[k] == u;
                            assert(tb.push(t)[k] == u);
                        }
                        if u == t {
                            assert(tb.push(t)[tb.len() as int] == t);
                        }
                        if tb.push(t).contains(u) {
                            let k = choose|k: int| 0 <= k < tb.push(t).len() && tb.push(t)[k] == u;
                            if k < tb.len() {
                                assert(tb[k] == u);
                            }
                        }
                    }
                }
                assert(out@.contains(u) <==> (old_out.contains(u) || (lo <= t <= hi && u == t))) by {
                    if lo <= t && t <= hi {
                        assert(out@ =~= old_out.push(t));
                        if old_out.contains(u) {
                            let k = choose|k: int| 0 <= k < old_out.len() && old_out[k] == u;
                            assert(out@[k] == u);
                        }
                        if u == t {
                            assert(out@[old_out.len() as int] == t);
                        }
                        if out@.contains(u) {
                            let k = choose|k: int| 0 <= k < out@.len() && out@[k] == u;
                            if k < old_out.len() {
                                assert(old_out[k] == u);
                            }
                        }
                    } else {
                        assert(out@ =~= old_out);
                    }
                }
            }
        }
    }
    proof {
        assert(a@.take(na as int) =~= a@);
        assert(b@.take(nb as int) =~= b@);
    }
    out
}

} // verus!
