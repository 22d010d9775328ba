//! A streaming minimum/maximum over a sliding window of samples.
//!
//! This follows Lemire's streaming min-max filter, as adapted by Donzé, Ferrère and
//! Maler for the robust monitoring of signal temporal logic: the wedge keeps only the
//! samples that may still become the extreme value of the window.
use vstd::prelude::*;

use std::collections::{BTreeSet, VecDeque};

use crate::order::Ranked;
use crate::signal::strictly_increasing;

verus! {

/// `a` is strictly better than `b`: larger for a maximum, smaller for a minimum.
pub open spec fn better<T: Ranked>(keep_max: bool, a: T, b: T) -> bool {
    if keep_max { a.rank() > b.rank() } else { a.rank() < b.rank() }
}

/// `a` is at least as good as `b`.
pub open spec fn at_least<T: Ranked>(keep_max: bool, a: T, b: T) -> bool {
    if keep_max { a.rank() >= b.rank() } else { a.rank() <= b.rank() }
}

/// The time points of a list of samples.
pub open spec fn times_of<T>(s: Seq<(u64, T)>) -> Seq<u64> {
    s.map_values(|x: (u64, T)| x.0)
}

/// The window is strictly increasing in time and strictly worsening in value.
#[verifier::opaque]
pub open spec fn is_monotone<T: Ranked>(km: bool, w: Seq<(u64, T)>) -> bool {
    forall|i: int, j: int|
        0 <= i < j < w.len() ==> #[trigger] w[i].0 < #[trigger] w[j].0 && better(km, w[i].1, w[j].1)
}

/// Every sample of the window is live.
#[verifier::opaque]
pub open spec fn all_live<T>(w: Seq<(u64, T)>, live: Seq<(u64, T)>) -> bool {
    forall|i: int| 0 <= i < w.len() ==> live.contains(#[trigger] w[i])
}

/// The window holds a sample at the time of `s` or later that is at least as good as `s`.
pub open spec fn is_matched<T: Ranked>(km: bool, w: Seq<(u64, T)>, s: (u64, T)) -> bool {
    exists|j: int| 0 <= j < w.len() && #[trigger] w[j].0 >= s.0 && at_least(km, w[j].1, s.1)
}

/// Every live sample is matched, at its time or later, by a window sample at least as good.
#[verifier::opaque]
pub open spec fn is_dominated<T: Ranked>(km: bool, w: Seq<(u64, T)>, live: Seq<(u64, T)>) -> bool {
    forall|k: int| 0 <= k < live.len() ==> #[trigger] is_matched(km, w, live[k])
}

/// The invariant that ties the window to the live samples.
pub open spec fn wedge_inv<T: Ranked>(km: bool, w: Seq<(u64, T)>, live: Seq<(u64, T)>) -> bool {
    &&& strictly_increasing(times_of(live))
    &&& (live.len() == 0 <==> w.len() == 0)
    &&& w.len() > 0 ==> w.last() == live.last()
    &&& is_monotone(km, w)
    &&& all_live(w, live)
    &&& is_dominated(km, w, live)
}

/// The samples of a window that are all live are before any later sample.
proof fn lemma_window_before<T: Ranked>(w: Seq<(u64, T)>, live: Seq<(u64, T)>, t: u64)
    requires
        strictly_increasing(times_of(live)),
        all_live(w, live),
        live.len() > 0 ==> live.last().0 < t,
    ensures
        forall|i: int| 0 <= i < w.len() ==> #[trigger] w[i].0 < t,
{
    reveal(all_live);
    assert forall|i: int| 0 <= i < w.len() implies #[trigger] w[i].0 < t by {
        assert(live.contains(w[i]));
        let m = choose|m: int| 0 <= m < live.len() && live[m] == w[i];
        if m < live.len() - 1 {
            assert(times_of(live)[m] < times_of(live)[live.len() - 1]);
        }
    }
}

/// Pushing a sample after dropping the window samples it is at least as good as keeps
/// the invariant of the wedge.
proof fn lemma_update_keeps_invariant<T: Ranked>(
    old_w: Seq<(u64, T)>,
    kept: Seq<(u64, T)>,
    live: Seq<(u64, T)>,
    sample: (u64, T),
    km: bool,
)
    requires
        wedge_inv(km, old_w, live),
        live.len() > 0 ==> live.last().0 < sample.0,
        kept.len() <= old_w.len(),
        kept == old_w.subrange(0, kept.len() as int),
        forall|j: int| kept.len() <= j < old_w.len() ==> at_least(km, sample.1, #[trigger] old_w[j].1),
        kept.len() > 0 ==> !at_least(km, sample.1, kept.last().1),
    ensures
        wedge_inv(km, kept.push(sample), live.push(sample)),
{
    lemma_window_before(old_w, live, sample.0);
    lemma_push_times(live, sample);
    lemma_push_monotone(km, old_w, kept, sample);
    lemma_push_live(old_w, kept, live, sample);
    lemma_push_dominated(km, old_w, kept, live, sample);
}

proof fn lemma_push_times<T>(live: Seq<(u64, T)>, sample: (u64, T))
    requires
        strictly_increasing(times_of(live)),
        live.len() > 0 ==> live.last().0 < sample.0,
    ensures
        strictly_increasing(times_of(live.push(sample))),
{
    let lt = times_of(live);
    let nlt = times_of(live.push(sample));
    assert forall|a: int, b: int| 0 <= a < b < nlt.len() implies nlt[a] < nlt[b] by {
        if b < live.len() {
            assert(lt[a] < lt[b]);
        } else if a < live.len() - 1 {
            assert(lt[a] < lt[live.len() - 1]);
        }
    }
}

proof fn lemma_push_monotone<T: Ranked>(
    km: bool,
    old_w: Seq<(u64, T)>,
    kept: Seq<(u64, T)>,
    sample: (u64, T),
)
    requires
        is_monotone(km, old_w),
        forall|i: int| 0 <= i < old_w.len() ==> #[trigger] old_w[i].0 < sample.0,
        kept.len() <= old_w.len(),
        kept == old_w.subrange(0, kept.len() as int),
        kept.len() > 0 ==> !at_least(km, sample.1, kept.last().1),
    ensures
        is_monotone(km, kept.push(sample)),
{
    reveal(is_monotone);
    let w = kept.push(sample);
    assert forall|i: int, j: int| 0 <= i < j < w.len() implies #[trigger] w[i].0 < #[trigger] w[j].0
        && better(km, w[i].1, w[j].1) by {
        assert(w[i] == old_w[i]);
        if j == w.len() - 1 {
            assert(kept.last() == old_w[kept.len() - 1]);
            if i < kept.len() - 1 {
                assert(old_w[i].0 < old_w[kept.len() - 1].0);
            }
        } else {
            assert(w[j] == old_w[j]);
            assert(old_w[i].0 < old_w[j].0);
        }
    }
}

proof fn lemma_push_live<T>(
    old_w: Seq<(u64, T)>,
    kept: Seq<(u64, T)>,
    live: Seq<(u64, T)>,
    sample: (u64, T),
)
    requires
        all_live(old_w, live),
        kept.len() <= old_w.len(),
        kept == old_w.subrange(0, kept.len() as int),
    ensures
        all_live(kept.push(sample), live.push(sample)),
{
    reveal(all_live);
    let w = kept.push(sample);
    let nl = live.push(sample);
    assert forall|i: int| 0 <= i < w.len() implies nl.contains(#[trigger] w[i]) by {
        if i < kept.len() {
            assert(w[i] == old_w[i]);
            assert(live.contains(old_w[i]));
            let m = choose|m: int| 0 <= m < live.len() && live[m] == old_w[i];
            assert(nl[m] == w[i]);
        } else {
            assert(nl[live.len() as int] == sample);
        }
    }
}

proof fn lemma_push_dominated<T: Ranked>(
    km: bool,
    old_w: Seq<(u64, T)>,
    kept: Seq<(u64, T)>,
    live: Seq<(u64, T)>,
    sample: (u64, T),
)
    requires
        is_dominated(km, old_w, live),
        forall|i: int| 0 <= i < old_w.len() ==> #[trigger] old_w[i].0 < sample.0,
        kept.len() <= old_w.len(),
        kept == old_w.subrange(0, kept.len() as int),
        forall|j: int| kept.len() <= j < old_w.len() ==> at_least(km, sample.1, #[trigger] old_w[j].1),
    ensures
        is_dominated(km, kept.push(sample), live.push(sample)),
{
    reveal(is_dominated);
    let w = kept.push(sample);
    let nl = live.push(sample);
    assert forall|k: int| 0 <= k < nl.len() implies #[trigger] is_matched(km, w, nl[k]) by {
        let last = w.len() - 1;
        if k == live.len() {
            assert(w[last].0 >= nl[k].0 && at_least(km, w[last].1, nl[k].1));
        } else {
            assert(nl[k] == live[k]);
            assert(is_matched(km, old_w, live[k]));
            let j = choose|j: int|
                0 <= j < old_w.len() && #[trigger] old_w[j].0 >= live[k].0 && at_least(
                    km,
                    old_w[j].1,
                    live[k].1,
                );
            if j < kept.len() {
                assert(w[j] == old_w[j]);
                assert(w[j].0 >= nl[k].0 && at_least(km, w[j].1, nl[k].1));
            } else {
                assert(old_w[j].0 < sample.0);
                assert(w[last].0 >= nl[k].0 && at_least(km, w[last].1, nl[k].1));
            }
        }
    }
}

/// `after` is `before` without its samples earlier than `t`, which are all at the front.
pub open spec fn is_purged<T>(before: Seq<(u64, T)>, after: Seq<(u64, T)>, t: int) -> bool {
    exists|d: int|
        0 <= d <= before.len() && after == before.skip(d) && (forall|i: int|
            0 <= i < d ==> before[i].0 < t) && (forall|i: int| d <= i < before.len() ==> before[i].0 >= t)
}

/// Removing the samples before `t` from the front of the live samples and of the
/// window keeps the invariant of the wedge.
proof fn lemma_purge_keeps_invariant<T: Ranked>(
    old_w: Seq<(u64, T)>,
    live: Seq<(u64, T)>,
    d: int,
    dropped: int,
    t: int,
    km: bool,
)
    requires
        wedge_inv(km, old_w, live),
        0 <= dropped <= live.len(),
        forall|i: int| 0 <= i < dropped ==> live[i].0 < t,
        dropped < live.len() ==> live[dropped].0 >= t,
        0 <= d <= old_w.len(),
        forall|i: int| 0 <= i < d ==> old_w[i].0 < t,
        d < old_w.len() ==> old_w[d].0 >= t,
    ensures
        is_purged(live, live.skip(dropped), t),
        wedge_inv(km, old_w.skip(d), live.skip(dropped)),
{
    let nl = live.skip(dropped);
    let new_w = old_w.skip(d);
    let lt = times_of(live);
    assert forall|i: int| dropped <= i < live.len() implies live[i].0 >= t by {
        if i > dropped {
            assert(lt[dropped] < lt[i]);
        }
    }
    assert(is_purged(live, nl, t));
    lemma_purge_monotone(km, old_w, d, t);
    let nlt = times_of(nl);
    assert forall|a: int, b: int| 0 <= a < b < nlt.len() implies nlt[a] < nlt[b] by {
        assert(lt[a + dropped] < lt[b + dropped]);
    }
    if nl.len() > 0 {
        assert(live.last() == nl.last());
        assert(d < old_w.len());
        assert(new_w.last() == old_w.last());
    }
    if new_w.len() > 0 {
        assert(new_w.last() == old_w.last());
        assert(live.last().0 >= t);
        assert(dropped < live.len());
    }
    lemma_purge_live(old_w, live, d, dropped, t);
    lemma_purge_dominated(km, old_w, live, d, dropped, t);
}

proof fn lemma_purge_monotone<T: Ranked>(km: bool, old_w: Seq<(u64, T)>, d: int, t: int)
    requires
        is_monotone(km, old_w),
        0 <= d <= old_w.len(),
        d < old_w.len() ==> old_w[d].0 >= t,
    ensures
        is_monotone(km, old_w.skip(d)),
        forall|i: int| d <= i < old_w.len() ==> #[trigger] old_w[i].0 >= t,
{
    reveal(is_monotone);
    let new_w = old_w.skip(d);
    assert forall|i: int| d <= i < old_w.len() implies #[trigger] old_w[i].0 >= t by {
        if i > d {
            assert(old_w[d].0 < old_w[i].0);
        }
    }
    assert forall|i: int, j: int| 0 <= i < j < new_w.len() implies #[trigger] new_w[i].0
        < #[trigger] new_w[j].0 && better(km, new_w[i].1, new_w[j].1) by {
        assert(new_w[i] == old_w[i + d] && new_w[j] == old_w[j + d]);
        assert(old_w[i + d].0 < old_w[j + d].0);
    }
}

proof fn lemma_purge_live<T>(old_w: Seq<(u64, T)>, live: Seq<(u64, T)>, d: int, dropped: int, t: int)
    requires
        all_live(old_w, live),
        0 <= dropped <= live.len(),
        forall|i: int| 0 <= i < dropped ==> live[i].0 < t,
        0 <= d <= old_w.len(),
        forall|i: int| d <= i < old_w.len() ==> #[trigger] old_w[i].0 >= t,
    ensures
        all_live(old_w.skip(d), live.skip(dropped)),
{
    reveal(all_live);
    let nl = live.skip(dropped);
    let new_w = old_w.skip(d);
    assert forall|i: int| 0 <= i < new_w.len() implies nl.contains(#[trigger] new_w[i]) by {
        assert(new_w[i] == old_w[i + d]);
        assert(old_w[i + d].0 >= t);
        assert(live.contains(old_w[i + d]));
        let m = choose|m: int| 0 <= m < live.len() && live[m] == old_w[i + d];
        assert(m >= dropped);
        assert(nl[m - dropped] == new_w[i]);
    }
}

proof fn lemma_purge_dominated<T: Ranked>(
    km: bool,
    old_w: Seq<(u64, T)>,
    live: Seq<(u64, T)>,
    d: int,
    dropped: int,
    t: int,
)
    requires
        is_dominated(km, old_w, live),
        0 <= dropped <= live.len(),
        forall|i: int| dropped <= i < live.len() ==> live[i].0 >= t,
        0 <= d <= old_w.len(),
        forall|i: int| 0 <= i < d ==> old_w[i].0 < t,
    ensures
        is_dominated(km, old_w.skip(d), live.skip(dropped)),
{
    reveal(is_dominated);
    let nl = live.skip(dropped);
    let new_w = old_w.skip(d);
    assert forall|k: int| 0 <= k < nl.len() implies #[trigger] is_matched(km, new_w, nl[k]) by {
        assert(nl[k] == live[k + dropped]);
        assert(live[k + dropped].0 >= t);
        assert(is_matched(km, old_w, live[k + dropped]));
        let j = choose|j: int|
            0 <= j < old_w.len() && #[trigger] old_w[j].0 >= live[k + dropped].0 && at_least(
                km,
                old_w[j].1,
                live[k + dropped].1,
            );
        assert(j >= d);
        assert(new_w[j - d] == old_w[j]);
        assert(new_w[j - d].0 >= nl[k].0 && at_least(km, new_w[j - d].1, nl[k].1));
    }
}

/// The earliest element of a set of time points, by `BTreeSet::first`, which gives the
/// minimum of the set, or `None` for an empty set.
#[verifier::external_body]
fn first_time(s: &BTreeSet<u64>) -> (r: Option<&u64>)
    ensures
        r is None <==> s@.is_empty(),
        r matches Some(t) ==> s@.contains(*t) && forall|u: u64| #[trigger] s@.contains(u) ==> *t <= u,
{
    s.first()
}

/// Split a set of time points at `t` by `BTreeSet::split_off`: the set keeps the
/// points before `t`, and the points from `t` on are returned.
#[verifier::external_body]
fn split_times(s: &mut BTreeSet<u64>, t: u64) -> (r: BTreeSet<u64>)
    ensures
        final(s)@ == old(s)@.filter(|u: u64| u < t),
        r@ == old(s)@.filter(|u: u64| u >= t),
{
    s.split_off(&t)
}

/// The order of `u64` values obeys the laws that the specification of `BTreeSet`
/// asks of its keys.
proof fn lemma_u64_total_order()
    ensures
        vstd::laws_cmp::obeys_cmp::<u64>(),
{
    broadcast use vstd::laws_cmp::group_laws_cmp;
}

/// The number of live samples before `t`, which are all at the front.
proof fn lemma_time_prefix<T>(live: Seq<(u64, T)>, t: int) -> (d: int)
    requires
        strictly_increasing(times_of(live)),
    ensures
        0 <= d <= live.len(),
        forall|i: int| 0 <= i < d ==> live[i].0 < t,
        forall|i: int| d <= i < live.len() ==> live[i].0 >= t,
    decreases live.len(),
{
    if live.len() == 0 {
        0
    } else {
        let p = live.drop_last();
        let n = live.len() - 1;
        assert(times_of(p) =~= times_of(live).drop_last());
        assert forall|a: int, b: int| 0 <= a < b < times_of(p).len() implies times_of(p)[a]
            < times_of(p)[b] by {
            assert(times_of(live)[a] < times_of(live)[b]);
        }
        let dp = lemma_time_prefix(p, t);
        if live[n].0 < t {
            assert forall|i: int| 0 <= i < live.len() implies live[i].0 < t by {
                if i < n {
                    assert(times_of(live)[i] < times_of(live)[n]);
                }
            }
            live.len() as int
        } else {
            assert forall|i: int| 0 <= i < dp implies live[i].0 < t by {
                assert(live[i] == p[i]);
            }
            assert forall|i: int| dp <= i < live.len() implies live[i].0 >= t by {
                if i < n {
                    assert(live[i] == p[i]);
                }
            }
            dp
        }
    }
}

/// The time points of the live samples from `t` on are those of the samples after the
/// `d` earlier ones.
proof fn lemma_times_from<T>(live: Seq<(u64, T)>, d: int, t: int)
    requires
        0 <= d <= live.len(),
        forall|i: int| 0 <= i < d ==> live[i].0 < t,
        forall|i: int| d <= i < live.len() ==> live[i].0 >= t,
    ensures
        times_of(live).to_set().filter(|u: u64| u >= t) == times_of(live.skip(d)).to_set(),
{
    let a = times_of(live).to_set().filter(|u: u64| u >= t);
    let b = times_of(live.skip(d)).to_set();
    assert forall|u: u64| a.contains(u) <==> b.contains(u) by {
        if a.contains(u) {
            let k = choose|k: int| 0 <= k < times_of(live).len() && times_of(live)[k] == u;
            assert(k >= d);
            assert(times_of(live.skip(d))[k - d] == u);
        }
        if b.contains(u) {
            let k = choose|k: int| 0 <= k < times_of(live.skip(d)).len() && times_of(live.skip(d))[k] == u;
            assert(times_of(live)[k + d] == u);
        }
    }
    assert(a =~= b);
}

/// A monotonic wedge over a window of samples.
///
/// It holds the samples pushed with [`MonoWedge::update`] and not yet removed with
/// [`MonoWedge::purge_before`] (its live samples), and gives their maximum (or
/// minimum) and their earliest time point.
pub struct MonoWedge<T> {
    window: VecDeque<(u64, T)>,
    time_points: BTreeSet<u64>,
    keep_max: bool,
    live: Ghost<Seq<(u64, T)>>,
}

impl<T: Ranked> MonoWedge<T> {
    /// The samples pushed and not yet purged, in order of time.
    pub closed spec fn live(&self) -> Seq<(u64, T)> {
        self.live@
    }

    /// The samples that the wedge keeps as candidates for the extreme, front to back.
    pub closed spec fn window(&self) -> Seq<(u64, T)> {
        self.window@
    }

    /// The wedge gives maxima (else minima).
    pub closed spec fn keeps_max(&self) -> bool {
        self.keep_max
    }

    /// The internal invariant of the wedge.
    pub closed spec fn wf(&self) -> bool {
        &&& self.time_points@ == times_of(self.live@).to_set()
        &&& wedge_inv(self.keep_max, self.window@, self.live@)
    }

    /// Create an empty wedge that gives maxima when `keep_max`, else minima.
    pub fn new(keep_max: bool) -> (r: Self)
        ensures
            r.wf(),
            r.live() == Seq::<(u64, T)>::empty(),
            r.keeps_max() == keep_max,
    {
        let r = MonoWedge {
            window: VecDeque::new(),
            time_points: BTreeSet::new(),
            keep_max,
            live: Ghost(Seq::empty()),
        };
        proof {
            assert(r.time_points@ =~= times_of(r.live@).to_set());
            reveal(is_monotone);
            reveal(all_live);
            reveal(is_dominated);
        }
        r
    }

    /// An empty wedge that gives minima.
    pub fn min_wedge() -> (r: Self)
        ensures
            r.wf(),
            r.live() == Seq::<(u64, T)>::empty(),
            !r.keeps_max(),
    {
        Self::new(false)
    }

    /// An empty wedge that gives maxima.
    pub fn max_wedge() -> (r: Self)
        ensures
            r.wf(),
            r.live() == Seq::<(u64, T)>::empty(),
            r.keeps_max(),
    {
        Self::new(true)
    }

    /// The window holds a sample at its back that `sample` is at least as good as.
    fn should_drop(&self, sample: &(u64, T)) -> (r: bool)
        ensures
            r == (self.window@.len() > 0 && at_least(
                self.keep_max,
                sample.1,
                self.window@.last().1,
            )),
    {
        let n = self.window.len();
        if n == 0 {
            return false;
        }
        let back = self.window[n - 1].1;
        if self.keep_max {
            !sample.1.less_than(&back)
        } else {
            !back.less_than(&sample.1)
        }
    }

    /// Push a new sample, which must be later than every live sample.
    pub fn update(&mut self, sample: (u64, T))
        requires
            old(self).wf(),
            old(self).live().len() > 0 ==> old(self).live().last().0 < sample.0,
        ensures
            final(self).wf(),
            final(self).live() == old(self).live().push(sample),
            final(self).keeps_max() == old(self).keeps_max(),
            final(self).window().len() > 0,
            final(self).window().last() == sample,
            is_monotone(final(self).keeps_max(), final(self).window()),
            all_live(final(self).window(), final(self).live()),
            exists|k: int|
                #![trigger old(self).window().take(k)]
                {
                    &&& 0 <= k <= old(self).window().len()
                    &&& final(self).window() == old(self).window().take(k).push(sample)
                    &&& forall|j: int|
                        k <= j < old(self).window().len() ==> at_least(
                            old(self).keeps_max(),
                            sample.1,
                            #[trigger] old(self).window()[j].1,
                        )
                    &&& k > 0 ==> better(old(self).keeps_max(), old(self).window()[k - 1].1, sample.1)
                },
    {
        let ghost old_w = self.window@;
        let ghost live = self.live@;
        let ghost km = self.keep_max;
        // Drop the samples at the back that the new sample is at least as good as.
        while self.should_drop(&sample)
            invariant
                km == self.keep_max,
                live == self.live@,
                self.time_points@ == times_of(live).to_set(),
                self.window@.len() <= old_w.len(),
                self.window@ == old_w.subrange(0, self.window@.len() as int),
                forall|j: int|
                    self.window@.len() <= j < old_w.len() ==> at_least(km, sample.1, #[trigger] old_w[j].1),
            decreases self.window@.len(),
        {
            let ghost before = self.window@;
            let _ = self.window.pop_back();
            proof {
                assert(before.last() == old_w[before.len() - 1]);
            }
        }
        let ghost kept = self.window@;
        self.window.push_back(sample);
        proof {
            lemma_u64_total_order();
        }
        let _ = self.time_points.insert(sample.0);
        self.live = Ghost(live.push(sample));
        proof {
            lemma_update_keeps_invariant(old_w, kept, live, sample, km);
            let ts = times_of(live);
            let ns = ts.push(sample.0);
            assert(times_of(self.live@) =~= ns);
            assert forall|u: u64| ns.to_set().contains(u) <==> ts.to_set().insert(sample.0).contains(u) by {
                if ns.contains(u) {
                    let k = choose|k: int| 0 <= k < ns.len() && ns[k] == u;
                    if k < ts.len() {
                        assert(ts[k] == u);
                    }
                }
                if ts.contains(u) {
                    let k = choose|k: int| 0 <= k < ts.len() && ts[k] == u;
                    assert(ns[k] == u);
                }
                if u == sample.0 {
                    assert(ns[ns.len() - 1] == u);
                }
            }
            assert(self.time_points@ =~= times_of(self.live@).to_set());
            let k = kept.len() as int;
            assert(kept =~= old_w.take(k));
            assert(self.window@ == old_w.take(k).push(sample));
            if k > 0 {
                assert(kept.last() == old_w[k - 1]);
                assert(better(km, old_w[k - 1].1, sample.1));
            }
            assert(old_w == old(self).window());
            assert(km == old(self).keeps_max());
            assert(self.window@ == self.window());
            assert({
                &&& 0 <= k <= old(self).window().len()
                &&& self.window() == old(self).window().take(k).push(sample)
                &&& forall|j: int|
                    k <= j < old(self).window().len() ==> at_least(
                        old(self).keeps_max(),
                        sample.1,
                        #[trigger] old(self).window()[j].1,
                    )
                &&& k > 0 ==> better(old(self).keeps_max(), old(self).window()[k - 1].1, sample.1)
            });
        }
    }

    /// The live sample at the front of the window: the earliest live time point, and
    /// the maximum (or minimum) of the live values.
    pub fn front(&self) -> (r: Option<(&u64, &T)>)
        requires
            self.wf(),
        ensures
            r is None <==> self.live().len() == 0,
            r matches Some((t, v)) ==> {
                &&& *t == self.live()[0].0
                &&& *v == self.window()[0].1
                &&& exists|k: int| 0 <= k < self.live().len() && self.live()[k].1 == *v
                &&& forall|k: int|
                    0 <= k < self.live().len() ==> at_least(self.keeps_max(), *v, #[trigger] self.live()[k].1)
            },
    {
        if self.window.len() == 0 {
            return None;
        }
        let first = first_time(&self.time_points);
        proof {
            let w = self.window@;
            let live = self.live@;
            assert(times_of(live)[0] == live[0].0);
            assert(self.time_points@.contains(live[0].0));
            let f = *first.unwrap();
            let k = choose|k: int| 0 <= k < times_of(live).len() && times_of(live)[k] == f;
            if k > 0 {
                assert(times_of(live)[0] < times_of(live)[k]);
            }
            assert(f == live[0].0);
            reveal(all_live);
            assert(live.contains(w[0]));
            let m = choose|m: int| 0 <= m < live.len() && live[m] == w[0];
            assert(live[m].1 == w[0].1);
            assert(self.live()[m].1 == self.window@[0].1);
            reveal(is_dominated);
            reveal(is_monotone);
            assert forall|k: int| 0 <= k < live.len() implies at_least(
                self.keep_max,
                w[0].1,
                #[trigger] live[k].1,
            ) by {
                assert(is_matched(self.keep_max, w, live[k]));
                let j = choose|j: int|
                    0 <= j < w.len() && #[trigger] w[j].0 >= live[k].0 && at_least(
                        self.keep_max,
                        w[j].1,
                        live[k].1,
                    );
                if j > 0 {
                    assert(w[0].0 < w[j].0);
                }
            }
        }
        match first {
            Some(t) => Some((t, &self.window[0].1)),
            None => None,
        }
    }

    /// Remove all samples before `t`.
    pub fn purge_before(&mut self, t: u64)
        requires
            old(self).wf(),
        ensures
            final(self).wf(),
            is_purged(old(self).live(), final(self).live(), t as int),
            is_purged(old(self).window(), final(self).window(), t as int),
            final(self).keeps_max() == old(self).keeps_max(),
    {
        let ghost live = self.live@;
        let ghost old_w = self.window@;
        let ghost km = self.keep_max;
        let ghost mut dropped: int = 0;
        proof {
            // The time points are sorted, so the ones before `t` are at the front.
            dropped = lemma_time_prefix(live, t as int);
            lemma_times_from(live, dropped, t as int);
        }
        let kept = split_times(&mut self.time_points, t);
        self.time_points = kept;
        let d = self.remove_older_samples(t);
        proof {
            lemma_purge_keeps_invariant(old_w, live, d@, dropped, t as int, km);
            lemma_purge_monotone(km, old_w, d@, t as int);
            assert(is_purged(old_w, self.window@, t as int));
        }
        self.live = Ghost(live.skip(dropped));
    }

    /// Remove the sample at the front of the window, the best of the live samples,
    /// together with every live sample up to its time point; returns it, or `None`
    /// when no sample is live.
    pub fn pop_front(&mut self) -> (r: Option<(u64, T)>)
        requires
            old(self).wf(),
        ensures
            final(self).wf(),
            final(self).keeps_max() == old(self).keeps_max(),
            r is None <==> old(self).live().len() == 0,
            r is None ==> final(self).live() == old(self).live(),
            r matches Some(s) ==> {
                &&& old(self).live().contains(s)
                &&& forall|k: int|
                    0 <= k < old(self).live().len() ==> at_least(
                        old(self).keeps_max(),
                        s.1,
                        #[trigger] old(self).live()[k].1,
                    )
                &&& is_purged(old(self).live(), final(self).live(), s.0 + 1)
            },
    {
        let ghost live = self.live@;
        let ghost old_w = self.window@;
        let ghost km = self.keep_max;
        if self.window.len() == 0 {
            return None;
        }
        let s = self.window[0];
        let t = s.0;
        let ghost mut dropped: int = 0;
        proof {
            dropped = lemma_time_prefix(live, t + 1);
            lemma_times_from(live, dropped, t + 1);
        }
        if t < u64::MAX {
            let kept = split_times(&mut self.time_points, t + 1);
            self.time_points = kept;
        } else {
            self.time_points = BTreeSet::new();
            proof {
                assert(live.skip(dropped) =~= Seq::<(u64, T)>::empty());
                assert(times_of(live.skip(dropped)).to_set() =~= Set::<u64>::empty());
            }
        }
        let _ = self.window.pop_front();
        proof {
            reveal(is_monotone);
            reveal(all_live);
            reveal(is_dominated);
            if old_w.len() > 1 {
                assert(old_w[0].0 < old_w[1].0);
            }
            assert(self.window@ == old_w.skip(1));
            lemma_purge_keeps_invariant(old_w, live, 1, dropped, t + 1, km);
            assert(live.contains(old_w[0]));
            assert forall|k: int| 0 <= k < live.len() implies at_least(km, s.1, #[trigger] live[k].1) by {
                assert(is_matched(km, old_w, live[k]));
                let j = choose|j: int|
                    0 <= j < old_w.len() && #[trigger] old_w[j].0 >= live[k].0 && at_least(
                        km,
                        old_w[j].1,
                        live[k].1,
                    );
                if j > 0 {
                    assert(old_w[0].0 < old_w[j].0);
                }
            }
        }
        self.live = Ghost(live.skip(dropped));
        Some(s)
    }

    /// Remove the samples before `t` from the front of the window; returns how many.
    fn remove_older_samples(&mut self, t: u64) -> (d: Ghost<int>)
        ensures
            final(self).time_points@ == old(self).time_points@,
            final(self).keep_max == old(self).keep_max,
            final(self).live@ == old(self).live@,
            0 <= d@ <= old(self).window@.len(),
            final(self).window@ == old(self).window@.skip(d@),
            forall|i: int| 0 <= i < d@ ==> old(self).window@[i].0 < t,
            d@ < old(self).window@.len() ==> old(self).window@[d@].0 >= t,
    {
        let ghost old_w = self.window@;
        let ghost mut d: int = 0;
        while self.window.len() > 0 && self.window[0].0 < t
            invariant
                self.time_points@ == old(self).time_points@,
                self.keep_max == old(self).keep_max,
                self.live@ == old(self).live@,
                old_w == old(self).window@,
                0 <= d <= old_w.len(),
                self.window@ == old_w.skip(d),
                forall|i: int| 0 <= i < d ==> old_w[i].0 < t,
            decreases self.window@.len(),
        {
            let _ = self.window.pop_front();
            proof {
                d = d + 1;
            }
        }
        proof {
            if d < old_w.len() {
                assert(self.window@[0] == old_w[d]);
            }
        }
        Ghost(d)
    }
}

} // verus!
