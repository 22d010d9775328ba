//! Properties that relate the operations of the library to each other.
use vstd::prelude::*;

use crate::expr::Type;
use crate::interpolation::{Constant, InterpolationMethod, Linear, Nearest};
use crate::order::{at_least_rank, spec_max, spec_min};
use crate::parse::declare_all;
use crate::shift_ops::{lemma_split_index, shifted_times};
use crate::ops::{is_negation, is_pointwise_logic};
use crate::signal::{lemma_index_unique, lemma_interpolate_in_domain, strictly_increasing, Sample, Signal};
use crate::temporal::is_oracle;
use crate::order::Ranked;
use crate::wedge::{at_least, is_purged, times_of};
use crate::bool_ops::{is_conj_of, is_disj_of};
use crate::expr::BoolExpr;
use crate::until::{is_compressed, is_compressed_upto, is_kept, is_kept_sample, until_value};
use crate::lexer::{symbol_at, Span, Token};
use crate::syntax::{
    join, prefix_op, rel_op, spec_binary_op, spec_fold, spec_opt_interval, spec_parse, spec_unary_op, BinaryOps,
    Expr as Ast, Level, ParseError, Spanned,
};
use crate::parse::{is_bool, is_unary_result, is_num, temporal_interval, converts, corresponds, is_binary_result, is_read_from, later_errors, lex_errors_of, var_uses, well_formed};
use crate::relation::Relation;
use crate::expr::{BoolVar, FloatVar, NumExpr};
use crate::builder::{flat_and, flat_or};
use crate::bound::Bound;
use crate::interval::Interval;
use crate::window::is_window_extreme;

verus! {

/// Reading a signal at the time of the sample just pushed gives that sample's value,
/// and every other time point reads as before the push.
///
/// `after` is `before` with the sample (`time`, `value`) pushed at its end, as
/// [`Signal::push`] makes it.
pub proof fn law_push_then_at<T>(before: Signal<T>, after: Signal<T>, time: u64, value: T, other: u64)
    requires
        before.wf(),
        before is Sampled,
        after is Sampled,
        before.times().len() > 0 ==> before.times().last() < time,
        after.times() == before.times().push(time),
        after.vals() == before.vals().push(value),
        other != time,
    ensures
        after.spec_at(time) == Some(value),
        after.spec_at(other) == before.spec_at(other),
{
    let ts = after.times();
    let n = before.times().len();
    assert(strictly_increasing(ts)) by {
        assert forall|i: int, j: int| 0 <= i < j < ts.len() implies ts[i] < ts[j] by {
            if j < n {
                assert(before.times()[i] < before.times()[j]);
            } else if i < n - 1 {
                assert(before.times()[i] < before.times()[n - 1]);
            }
        }
    }
    lemma_index_unique(ts, n as int, time);
    if exists|i: int| 0 <= i < ts.len() && ts[i] == other {
        let i = choose|i: int| 0 <= i < ts.len() && ts[i] == other;
        lemma_index_unique(ts, i, other);
        lemma_index_unique(before.times(), i, other);
    } else {
        assert forall|i: int| 0 <= i < before.times().len() implies before.times()[i] != other by {
            assert(ts[i] == before.times()[i]);
        }
    }
}

/// Shifting a signal by `k` samples and then by one more is shifting it by `k + 1`:
/// an oracle over `k + 1` steps is a "next" of an oracle over `k` steps.
pub proof fn law_oracle_then_next<T>(arg: Signal<T>, k: nat, mid: Signal<T>, r: Signal<T>)
    requires
        arg.wf(),
        k >= 1,
        is_oracle(arg, k, mid),
        is_oracle(mid, 1, r),
    ensures
        is_oracle(arg, k + 1, r),
{
    if arg is Sampled && arg.times().len() > k + 1 {
        let n = arg.times().len();
        assert(mid.times().take(mid.times().len() - 1) =~= arg.times().take(n - (k + 1)));
        assert(mid.vals().skip(1) =~= arg.vals().skip((k + 1) as int));
    }
}

/// Negating a boolean signal twice gives back its samples.
///
/// `once` and `twice` are the negations that [`Signal::logical_not`] makes of `s` and
/// of `once`.
pub proof fn law_double_negation(s: Signal<bool>, once: Signal<bool>, twice: Signal<bool>)
    requires
        s is Sampled ==> once is Sampled && once.times() == s.times() && once.vals() == s.vals().map_values(
            |v: bool| !v,
        ),
        once is Sampled ==> twice is Sampled && twice.times() == once.times() && twice.vals()
            == once.vals().map_values(|v: bool| !v),
        s matches Signal::Constant { value } ==> once == (Signal::Constant { value: !value }),
        once matches Signal::Constant { value } ==> twice == (Signal::Constant { value: !value }),
        s is Empty ==> once is Empty,
        once is Empty ==> twice is Empty,
    ensures
        !(s is Sampled) ==> twice == s,
        s is Sampled ==> twice is Sampled && twice.times() == s.times() && twice.vals() == s.vals(),
{
    if s is Sampled {
        assert(twice.vals() =~= s.vals());
    }
}

/// The maximum of boolean values over a window is the negation of the minimum of their
/// negations: "eventually" is the dual of "always".
pub proof fn law_window_duality(v: bool, ts: Seq<u64>, vs: Seq<bool>, lo: int, hi: int)
    requires
        ts.len() == vs.len(),
    ensures
        is_window_extreme(true, v, ts, vs, lo, hi) <==> is_window_extreme(
            false,
            !v,
            ts,
            vs.map_values(|x: bool| !x),
            lo,
            hi,
        ),
{
    let ns = vs.map_values(|x: bool| !x);
    if is_window_extreme(true, v, ts, vs, lo, hi) {
        let j = choose|j: int| #![trigger ts[j]] 0 <= j < ts.len() && lo <= ts[j] <= hi && vs[j] == v;
        assert(0 <= j < ts.len() && lo <= ts[j] <= hi && ns[j] == !v);
        assert forall|k: int| #![trigger ts[k]] 0 <= k < ts.len() && lo <= ts[k] <= hi implies at_least_rank(
            false,
            !v,
            ns[k],
        ) by {
            assert(at_least_rank(true, v, vs[k]));
        }
    }
    if is_window_extreme(false, !v, ts, ns, lo, hi) {
        let j = choose|j: int| #![trigger ts[j]] 0 <= j < ts.len() && lo <= ts[j] <= hi && ns[j] == !v;
        assert(0 <= j < ts.len() && lo <= ts[j] <= hi && vs[j] == v);
        assert forall|k: int| #![trigger ts[k]] 0 <= k < ts.len() && lo <= ts[k] <= hi implies at_least_rank(
            true,
            v,
            vs[k],
        ) by {
            assert(at_least_rank(false, !v, ns[k]));
        }
    }
}

/// After the samples before `t` are purged from a window, its earliest sample is not
/// before `t`.
pub proof fn law_purge_then_front<T>(before: Seq<(u64, T)>, after: Seq<(u64, T)>, t: u64)
    requires
        is_purged(before, after, t as int),
        after.len() > 0,
    ensures
        after[0].0 >= t,
{
    let d = choose|d: int|
        0 <= d <= before.len() && after == before.skip(d) && (forall|i: int|
            0 <= i < d ==> before[i].0 < t) && (forall|i: int| d <= i < before.len() ==> before[i].0 >= t);
    assert(after[0] == before[d]);
}

/// The sample that [`MonoWedge::pop_front`](crate::wedge::MonoWedge::pop_front) removes
/// carries the value that [`MonoWedge::front`](crate::wedge::MonoWedge::front) gives for
/// the same live samples: both are the extreme of the live values, which is unique.
///
/// `v` is a value that `front` may give, and `s` a sample that `pop_front` may return.
pub proof fn law_pop_front_gives_front<T: Ranked>(keep_max: bool, live: Seq<(u64, T)>, v: T, s: (u64, T))
    requires
        exists|k: int| 0 <= k < live.len() && live[k].1 == v,
        forall|k: int| 0 <= k < live.len() ==> at_least(keep_max, v, #[trigger] live[k].1),
        live.contains(s),
        forall|k: int| 0 <= k < live.len() ==> at_least(keep_max, s.1, #[trigger] live[k].1),
    ensures
        s.1 == v,
{
    let kv = choose|k: int| 0 <= k < live.len() && live[k].1 == v;
    let ks = choose|k: int| 0 <= k < live.len() && live[k] == s;
    assert(at_least(keep_max, s.1, live[kv].1));
    assert(at_least(keep_max, v, live[ks].1));
    T::lemma_rank_injective(s.1, v);
}

/// Where a signal holds a sample, interpolating it there gives the sample's value.
pub proof fn law_interpolate_at_sample<T, I: InterpolationMethod<T>>(s: Signal<T>, time: u64)
    requires
        s.wf(),
        s.spec_at(time) is Some,
    ensures
        s.spec_interpolate_at::<I>(time) == s.spec_at(time),
{
}

/// Shifting a sampled signal right by `delta` and then left by `delta` gives back its
/// samples.
///
/// `r` is `s` shifted right by `delta`, as [`Signal::shift_right`] makes it.
pub proof fn law_shift_right_then_left<T: Copy, I: InterpolationMethod<T>>(s: Signal<T>, r: Signal<T>, delta: u64)
    requires
        s.wf(),
        s is Sampled,
        r is Sampled,
        r.times() == s.times().map_values(|t: u64| (t + delta) as u64),
        r.vals() == s.vals(),
        s.times().len() > 0 ==> s.times().last() + delta <= u64::MAX,
    ensures
        r.left_shifted_times(delta) == s.times(),
        r.left_shifted_vals::<I>(delta) == s.vals(),
{
    let ts = s.times();
    assert forall|i: int| 0 <= i < ts.len() implies ts[i] + delta <= u64::MAX by {
        if i < ts.len() - 1 {
            assert(ts[i] < ts.last());
        }
    }
    lemma_split_index(r.times(), delta, 0);
    assert(r.times().skip(0) =~= r.times());
    assert(r.vals().skip(0) =~= r.vals());
    assert(shifted_times(r.times(), delta) =~= ts);
}

/// A variable can be declared twice exactly when both declarations give it the same
/// type, which is known, and agrees with any declaration it already had.
pub proof fn law_declare_twice(d: Map<Seq<char>, Type>, name: Seq<char>, first: Type, second: Type)
    ensures
        declare_all(seq![(name, first), (name, second)], d) is Some <==> (first == second
            && !(first is Unknown) && (!d.contains_key(name) || d[name] == first)),
{
    reveal_with_fuel(declare_all, 3);
    let uses = seq![(name, first), (name, second)];
    assert(uses.drop_first() =~= seq![(name, second)]);
    assert(seq![(name, second)].drop_first() =~= Seq::<(Seq<char>, Type)>::empty());
}

/// The sample with the negated value.
pub open spec fn negated_sample(s: Sample<bool>) -> Sample<bool> {
    Sample { time: s.time, value: !s.value }
}

/// The negation of a boolean that may be missing.
pub open spec fn negated_opt(o: Option<bool>) -> Option<bool> {
    match o {
        Some(v) => Some(!v),
        None => None,
    }
}

/// The interpolation method `I` commutes with negation: between negated samples, and
/// beyond a negated end sample, it gives the negation of what it gives for them.
pub open spec fn commutes_with_not<I: InterpolationMethod<bool>>() -> bool {
    &&& forall|a: Sample<bool>, b: Sample<bool>, t: u64|
        #[trigger] I::spec_at(negated_sample(a), negated_sample(b), t) == negated_opt(I::spec_at(a, b, t))
    &&& forall|s: Sample<bool>, t: u64|
        #[trigger] I::spec_beyond(negated_sample(s), t) == negated_opt(I::spec_beyond(s, t))
}

/// Constant, nearest and linear interpolation commute with negation.
pub proof fn lemma_methods_commute_with_not()
    ensures
        commutes_with_not::<Constant>(),
        commutes_with_not::<Nearest>(),
        commutes_with_not::<Linear>(),
{
}

/// Interpolating a negated boolean signal gives the negation of interpolating it.
proof fn lemma_negated_interpolation<I: InterpolationMethod<bool>>(s: Signal<bool>, n: Signal<bool>, t: u64)
    requires
        commutes_with_not::<I>(),
        s.wf(),
        is_negation(s, n),
    ensures
        n.spec_interpolate_at::<I>(t) == negated_opt(s.spec_interpolate_at::<I>(t)),
{
    if s is Sampled {
        let ts = s.times();
        let vs = s.vals();
        let ns = n.vals();
        assert(n.times() == ts);
        if exists|i: int| 0 <= i < ts.len() && ts[i] == t {
            let i = choose|i: int| 0 <= i < ts.len() && ts[i] == t;
            assert(ns[i] == !vs[i]);
        } else if ts.len() > 0 && t < ts[0] {
            assert(Sample { time: ts[0], value: ns[0] } == negated_sample(Sample { time: ts[0], value: vs[0] }));
        } else if ts.len() > 0 && t > ts.last() {
            assert(ns.last() == !vs.last());
            assert(Sample { time: ts.last(), value: ns.last() } == negated_sample(
                Sample { time: ts.last(), value: vs.last() },
            ));
        } else if exists|k: int| #![trigger ts[k]] 1 <= k < ts.len() && ts[k - 1] < t < ts[k] {
            let k = choose|k: int| #![trigger ts[k]] 1 <= k < ts.len() && ts[k - 1] < t < ts[k];
            assert(Sample { time: ts[k - 1], value: ns[k - 1] } == negated_sample(
                Sample { time: ts[k - 1], value: vs[k - 1] },
            ));
            assert(Sample { time: ts[k], value: ns[k] } == negated_sample(
                Sample { time: ts[k], value: vs[k] },
            ));
        }
    }
}

/// De Morgan: the disjunction of two boolean signals is the negation of the
/// conjunction of their negations, for an interpolation method that commutes with
/// negation (see [`lemma_methods_commute_with_not`]).
///
/// `na` and `nb` are the negations of `a` and `b` that [`Signal::logical_not`] makes,
/// `c` their conjunction that [`Signal::and`] makes, and `r` the negation of `c`; `r`
/// is then what [`Signal::or`] makes of `a` and `b`.
pub proof fn law_de_morgan<I: InterpolationMethod<bool>>(
    a: Signal<bool>,
    b: Signal<bool>,
    na: Signal<bool>,
    nb: Signal<bool>,
    c: Signal<bool>,
    r: Signal<bool>,
)
    requires
        commutes_with_not::<I>(),
        a.wf(),
        b.wf(),
        is_negation(a, na),
        is_negation(b, nb),
        is_pointwise_logic::<I>(na, nb, false, c),
        is_negation(c, r),
    ensures
        is_pointwise_logic::<I>(a, b, true, r),
{
    assert(na.spec_is_empty() == a.spec_is_empty());
    assert(nb.spec_is_empty() == b.spec_is_empty());
    assert(na.spec_sync_points(&nb) == a.spec_sync_points(&b));
    if !a.spec_is_empty() && !b.spec_is_empty() && !(a is Constant && b is Constant) {
        let ts = r.times();
        assert forall|i: int| 0 <= i < ts.len() implies a.in_domain(#[trigger] ts[i]) && b.in_domain(
            ts[i],
        ) by {
            assert(na.in_domain(c.times()[i]) && nb.in_domain(c.times()[i]));
        }
        assert forall|i: int| 0 <= i < ts.len() implies #[trigger] r.vals()[i] == (
        a.spec_interpolate_at::<I>(ts[i]).unwrap() || b.spec_interpolate_at::<I>(ts[i]).unwrap()) by {
            let t = ts[i];
            assert(na.in_domain(c.times()[i]) && nb.in_domain(c.times()[i]));
            lemma_interpolate_in_domain::<bool, I>(a, t);
            lemma_interpolate_in_domain::<bool, I>(b, t);
            lemma_negated_interpolation::<I>(a, na, t);
            lemma_negated_interpolation::<I>(b, nb, t);
            assert(c.vals()[i] == (na.spec_interpolate_at::<I>(t).unwrap() && nb.spec_interpolate_at::<I>(
                t,
            ).unwrap()));
        }
    }
}

/// The start of the window of width `w` that ends at the time point `t`: `w` before
/// `t`, or zero when `t` is closer to zero.
pub open spec fn window_from(t: u64, w: u64) -> int {
    if t >= w {
        t - w
    } else {
        0
    }
}

/// The values of a list of samples.
pub open spec fn sample_values<T>(s: Seq<(u64, T)>) -> Seq<T> {
    s.map_values(|x: (u64, T)| x.1)
}

/// Sliding a window of width `w` along the samples `s`, one step per sample: where the
/// live samples before the step for the `k`-th sample are those of the samples before it
/// that lie in the window of the one before, purging the samples before the window of
/// the `k`-th sample and pushing it leaves exactly the samples up to the `k`-th that lie
/// in its window. With one sample per time unit, those are the last `w + 1` samples.
///
/// `before`, `mid` and `after` are the live samples of a wedge before the step, after
/// [`MonoWedge::purge_before`](crate::wedge::MonoWedge::purge_before) and after
/// [`MonoWedge::update`](crate::wedge::MonoWedge::update).
pub proof fn law_sliding_window<T>(
    s: Seq<(u64, T)>,
    k: int,
    w: u64,
    before: Seq<(u64, T)>,
    mid: Seq<(u64, T)>,
    after: Seq<(u64, T)>,
)
    requires
        strictly_increasing(times_of(s)),
        0 <= k < s.len(),
        k == 0 ==> before.len() == 0,
        k > 0 ==> is_purged(s.take(k), before, window_from(s[k - 1].0, w)),
        is_purged(before, mid, window_from(s[k].0, w)),
        after == mid.push(s[k]),
    ensures
        is_purged(s.take(k + 1), after, window_from(s[k].0, w)),
        (forall|i: int| 0 <= i < s.len() ==> s[i].0 == i) ==> after == s.subrange(
            if k >= w { k - w } else { 0 },
            k + 1,
        ),
{
    let t = window_from(s[k].0, w);
    let ts = times_of(s);
    let d2 = choose|d: int|
        0 <= d <= before.len() && mid == before.skip(d) && (forall|i: int|
            0 <= i < d ==> before[i].0 < t) && (forall|i: int| d <= i < before.len() ==> before[i].0 >= t);
    let mut d1: int = 0;
    if k > 0 {
        let t1 = window_from(s[k - 1].0, w);
        d1 = choose|d: int|
            0 <= d <= s.take(k).len() && before == s.take(k).skip(d) && (forall|i: int|
                0 <= i < d ==> s.take(k)[i].0 < t1) && (forall|i: int|
                d <= i < s.take(k).len() ==> s.take(k)[i].0 >= t1);
        assert(ts[k - 1] < ts[k]);
        assert(t1 <= t);
        assert forall|i: int| 0 <= i < d1 implies s[i].0 < t by {
            assert(s.take(k)[i] == s[i]);
        }
    } else {
        assert(before =~= s.take(0).skip(0));
    }
    let dd = d1 + d2;
    let pre = s.take(k + 1);
    assert(after =~= pre.skip(dd)) by {
        assert forall|i: int| 0 <= i < after.len() implies after[i] == pre.skip(dd)[i] by {
            if i < mid.len() {
                assert(after[i] == before[i + d2]);
                assert(before[i + d2] == s.take(k)[i + d2 + d1]);
            }
        }
    }
    assert forall|i: int| 0 <= i < dd implies pre[i].0 < t by {
        if i >= d1 {
            assert(before[i - d1] == s.take(k)[i]);
        }
    }
    assert forall|i: int| dd <= i < pre.len() implies pre[i].0 >= t by {
        if i < k {
            assert(before[i - d1] == s.take(k)[i]);
        }
    }
    assert(is_purged(pre, after, t));
    if forall|i: int| 0 <= i < s.len() ==> s[i].0 == i {
        let lo = if k >= w { k - w } else { 0 };
        assert(s[k].0 == k);
        if dd < lo {
            assert(pre[dd].0 == dd);
        }
        if dd > lo {
            assert(pre[lo].0 == lo);
        }
        assert(after =~= s.subrange(lo, k + 1));
    }
}

/// The extreme that a wedge gives after the steps of [`law_sliding_window`] is the
/// extreme (the maximum when `keep_max`, else the minimum) of the values of the samples
/// up to the `k`-th within its window of width `w`.
///
/// `live` are the live samples of the wedge, and `v` a value that
/// [`MonoWedge::front`](crate::wedge::MonoWedge::front) may give for them.
pub proof fn law_front_of_sliding_window<T: Ranked>(
    keep_max: bool,
    s: Seq<(u64, T)>,
    k: int,
    w: u64,
    live: Seq<(u64, T)>,
    v: T,
)
    requires
        strictly_increasing(times_of(s)),
        0 <= k < s.len(),
        is_purged(s.take(k + 1), live, window_from(s[k].0, w)),
        exists|j: int| 0 <= j < live.len() && live[j].1 == v,
        forall|j: int| 0 <= j < live.len() ==> at_least(keep_max, v, #[trigger] live[j].1),
    ensures
        is_window_extreme(keep_max, v, times_of(s), sample_values(s), window_from(s[k].0, w), s[k].0 as int),
{
    let t = window_from(s[k].0, w);
    let ts = times_of(s);
    let vs = sample_values(s);
    let pre = s.take(k + 1);
    let d = choose|d: int|
        0 <= d <= pre.len() && live == pre.skip(d) && (forall|i: int|
            0 <= i < d ==> pre[i].0 < t) && (forall|i: int| d <= i < pre.len() ==> pre[i].0 >= t);
    let j = choose|j: int| 0 <= j < live.len() && live[j].1 == v;
    assert(live[j] == s[j + d]);
    assert(ts[j + d] == s[j + d].0 && vs[j + d] == v);
    if j + d < k {
        assert(ts[j + d] < ts[k]);
    }
    assert(t <= ts[j + d] <= s[k].0);
    assert forall|m: int| #![trigger ts[m]] 0 <= m < ts.len() && t <= ts[m] <= s[k].0 implies at_least_rank(
        keep_max,
        v,
        vs[m],
    ) by {
        if m > k {
            assert(ts[k] < ts[m]);
        }
        if m < d {
            assert(pre[m].0 < t);
        }
        assert(live[m - d] == s[m]);
        assert(at_least(keep_max, v, live[m - d].1));
    }
}

/// The rank order of the integer types is their numeric order, and `false` comes
/// before `true`: so the minimum and maximum of values, and of signals, are the
/// numeric ones.
pub proof fn law_rank_is_numeric_order()
    ensures
        forall|a: u32, b: u32| #[trigger] a.rank() < #[trigger] b.rank() <==> a < b,
        forall|a: u64, b: u64| #[trigger] a.rank() < #[trigger] b.rank() <==> a < b,
        forall|a: i32, b: i32| #[trigger] a.rank() < #[trigger] b.rank() <==> a < b,
        forall|a: i64, b: i64| #[trigger] a.rank() < #[trigger] b.rank() <==> a < b,
        forall|a: bool, b: bool| #[trigger] a.rank() < #[trigger] b.rank() <==> (!a && b),
{
}

/// The smaller and the larger of two values are their numeric minimum and maximum.
pub proof fn law_min_max_are_numeric(a: u32, b: u32, c: i64, d: i64)
    ensures
        spec_min(a, b) as int == (if a <= b { a as int } else { b as int }),
        spec_max(a, b) as int == (if a >= b { a as int } else { b as int }),
        spec_min(c, d) as int == (if c <= d { c as int } else { d as int }),
        spec_max(c, d) as int == (if c >= d { c as int } else { d as int }),
{
}

/// Between two consecutive samples of a boolean signal, linear interpolation keeps
/// the value of the earlier sample, since a boolean cannot be interpolated on a line;
/// so does constant interpolation, for a signal of any value type.
pub proof fn law_between_samples_previous_holds<T: Copy>(
    s: Signal<bool>,
    u: Signal<T>,
    k: int,
    time: u64,
)
    requires
        s.wf(),
        s is Sampled,
        1 <= k < s.times().len(),
        s.times()[k - 1] < time < s.times()[k],
    ensures
        s.spec_interpolate_at::<Linear>(time) == Some(s.vals()[k - 1]),
        u.wf() && u is Sampled && u.times() == s.times() ==> u.spec_interpolate_at::<Constant>(time)
            == Some(u.vals()[k - 1]),
{
    let ts = s.times();
    assert forall|i: int| 0 <= i < ts.len() implies ts[i] != time by {
        if i < k - 1 {
            assert(ts[i] < ts[k - 1]);
        } else if i > k {
            assert(ts[k] < ts[i]);
        }
    }
    assert(ts[0] <= ts[k - 1]);
    assert(ts[k] <= ts.last());
    assert(1 <= k < ts.len() && ts[k - 1] < time < ts[k]);
    let c = choose|c: int| #![trigger ts[c]] 1 <= c < ts.len() && ts[c - 1] < time < ts[c];
    if c < k {
        assert(ts[c] <= ts[k - 1]);
    } else if c > k {
        assert(ts[k] <= ts[c - 1]);
    }
    assert(c == k);
}

/// The operands of a conjunction or disjunction side: its arguments when it is of the
/// kind `conj` names (a conjunction when `conj`, else a disjunction), else the side
/// itself.
pub open spec fn side_operands(conj: bool, e: BoolExpr) -> Seq<BoolExpr> {
    match e {
        BoolExpr::And(a) => if conj { a.args@ } else { seq![e] },
        BoolExpr::Or(o) => if conj { seq![e] } else { o.args@ },
        _ => seq![e],
    }
}

/// `lhs & rhs` and `lhs | rhs` keep every operand: the arguments of the result are
/// those of both sides (a side of the same kind counts with its arguments, any other
/// side as itself), each as often as there, and no others.
pub proof fn law_and_or_keep_operands(lhs: BoolExpr, rhs: BoolExpr, c: BoolExpr, d: BoolExpr)
    requires
        is_conj_of(c, lhs, rhs),
        is_disj_of(d, lhs, rhs),
    ensures
        c matches BoolExpr::And(a) && a.args@.to_multiset() == side_operands(true, lhs).to_multiset().add(
            side_operands(true, rhs).to_multiset(),
        ),
        c matches BoolExpr::And(a) && a.args@.len() == side_operands(true, lhs).len() + side_operands(
            true,
            rhs,
        ).len(),
        d matches BoolExpr::Or(o) && o.args@.to_multiset() == side_operands(false, lhs).to_multiset().add(
            side_operands(false, rhs).to_multiset(),
        ),
        d matches BoolExpr::Or(o) && o.args@.len() == side_operands(false, lhs).len() + side_operands(
            false,
            rhs,
        ).len(),
{
    broadcast use vstd::seq_lib::group_to_multiset_ensures;
    let l1 = side_operands(true, lhs);
    let r1 = side_operands(true, rhs);
    let l2 = side_operands(false, lhs);
    let r2 = side_operands(false, rhs);
    vstd::seq_lib::lemma_multiset_commutative(l1, r1);
    vstd::seq_lib::lemma_multiset_commutative(r1, l1);
    vstd::seq_lib::lemma_multiset_commutative(l2, r2);
    vstd::seq_lib::lemma_multiset_commutative(r2, l2);
    match (lhs, rhs) {
        (BoolExpr::And(l), BoolExpr::And(r)) => {},
        (BoolExpr::And(l), o) => {
            assert(l.args@.push(o) =~= l1 + r1);
        },
        (o, BoolExpr::And(r)) => {
            assert(r.args@.push(o) =~= r1 + l1);
        },
        (x, y) => {
            assert(seq![x, y] =~= l1 + r1);
        },
    }
    match (lhs, rhs) {
        (BoolExpr::Or(l), BoolExpr::Or(r)) => {},
        (BoolExpr::Or(l), o) => {
            assert(l.args@.push(o) =~= l2 + r2);
        },
        (o, BoolExpr::Or(r)) => {
            assert(r.args@.push(o) =~= r2 + l2);
        },
        (x, y) => {
            assert(seq![x, y] =~= l2 + r2);
        },
    }
}

/// Untimed "until" at the `i`-th point, of left values `v1` and right values `v2`, is the
/// best that can be reached by waiting for the right operand while the left one holds:
/// for some point `j` from `i` on, it is at most the right value at `j` and at most
/// every left value from `i` to `j`; and for every point `j` from `i` on, it is at
/// least the right value at `j` or at least some left value from `i` to `j`. So it is
/// the maximum over `j` of the minimum of `v2[j]` and of `v1[i..=j]`.
pub proof fn law_until_waits_while_left_holds<T: Ranked>(v1: Seq<T>, v2: Seq<T>, i: int)
    requires
        v1.len() == v2.len(),
        0 <= i < v1.len(),
    ensures
        exists|j: int|
            #![trigger v2[j]]
            i <= j < v1.len() && until_value(v1, v2, i).rank() <= v2[j].rank() && forall|k: int|
                i <= k <= j ==> until_value(v1, v2, i).rank() <= #[trigger] v1[k].rank(),
        forall|j: int|
            #![trigger v2[j]]
            i <= j < v1.len() ==> until_value(v1, v2, i).rank() >= v2[j].rank() || exists|k: int|
                i <= k <= j && until_value(v1, v2, i).rank() >= #[trigger] v1[k].rank(),
        until_value(v1, v2, i).rank() <= v1[i].rank(),
    decreases v1.len() - i,
{
    let u = until_value(v1, v2, i);
    if i == v1.len() - 1 {
        assert(i <= i < v1.len() && u.rank() <= v2[i].rank() && forall|k: int|
            i <= k <= i ==> u.rank() <= #[trigger] v1[k].rank());
        assert forall|j: int| #![trigger v2[j]] i <= j < v1.len() implies u.rank() >= v2[j].rank() || exists|k: int|
            i <= k <= j && u.rank() >= #[trigger] v1[k].rank() by {
            if u.rank() < v2[j].rank() {
                assert(i <= i <= j && u.rank() >= v1[i].rank());
            }
        }
    } else {
        law_until_waits_while_left_holds(v1, v2, i + 1);
        let n = until_value(v1, v2, i + 1);
        let m = spec_min(v1[i], v2[i]);
        let q = spec_min(v1[i], n);
        assert(u == spec_max(m, q));
        if u == m {
            assert(i <= i < v1.len() && u.rank() <= v2[i].rank() && forall|k: int|
                i <= k <= i ==> u.rank() <= #[trigger] v1[k].rank());
        } else {
            let j = choose|j: int|
                #![trigger v2[j]]
                i + 1 <= j < v1.len() && n.rank() <= v2[j].rank() && forall|k: int|
                    i + 1 <= k <= j ==> n.rank() <= #[trigger] v1[k].rank();
            assert forall|k: int| i <= k <= j implies u.rank() <= #[trigger] v1[k].rank() by {
                if k > i {
                    assert(n.rank() <= v1[k].rank());
                }
            }
            assert(i <= j < v1.len() && u.rank() <= v2[j].rank());
        }
        assert forall|j: int| #![trigger v2[j]] i <= j < v1.len() implies u.rank() >= v2[j].rank() || exists|k: int|
            i <= k <= j && u.rank() >= #[trigger] v1[k].rank() by {
            if j == i {
                if u.rank() < v2[j].rank() {
                    assert(i <= i <= j && u.rank() >= v1[i].rank());
                }
            } else if v1[i].rank() <= n.rank() {
                assert(i <= i <= j && u.rank() >= v1[i].rank());
            } else {
                assert(u.rank() >= n.rank());
                if n.rank() < v2[j].rank() {
                    let k = choose|k: int| i + 1 <= k <= j && n.rank() >= #[trigger] v1[k].rank();
                    assert(i <= k <= j && u.rank() >= v1[k].rank());
                }
            }
        }
    }
}

/// In a text, `<` and `>` that do not start a longer operator are read as the tokens
/// "less than" and "greater than".
pub proof fn law_angle_brackets_lex(b: Seq<u8>, i: int)
    requires
        0 <= i < b.len(),
        i + 1 < b.len() ==> b[i + 1] != 61 && b[i + 1] != 45,
    ensures
        b[i] == 60 ==> symbol_at(b, i) == Some((Token::Lt, i + 1)),
        b[i] == 62 ==> symbol_at(b, i) == Some((Token::Gt, i + 1)),
{
}

/// Between two consecutive samples, nearest-neighbour interpolation gives the value of
/// the nearer sample, and of the later one when both are as near.
pub proof fn law_nearest_between_samples<T: Copy>(s: Signal<T>, k: int, time: u64)
    requires
        s.wf(),
        s is Sampled,
        1 <= k < s.times().len(),
        s.times()[k - 1] < time < s.times()[k],
    ensures
        s.spec_interpolate_at::<Nearest>(time) == Some(
            if time - s.times()[k - 1] < s.times()[k] - time {
                s.vals()[k - 1]
            } else {
                s.vals()[k]
            },
        ),
{
    let ts = s.times();
    assert forall|i: int| 0 <= i < ts.len() implies ts[i] != time by {
        if i < k - 1 {
            assert(ts[i] < ts[k - 1]);
        } else if i > k {
            assert(ts[k] < ts[i]);
        }
    }
    assert(ts[0] <= ts[k - 1]);
    assert(ts[k] <= ts.last());
    assert(1 <= k < ts.len() && ts[k - 1] < time < ts[k]);
    let c = choose|c: int| #![trigger ts[c]] 1 <= c < ts.len() && ts[c - 1] < time < ts[c];
    if c < k {
        assert(ts[c] <= ts[k - 1]);
    } else if c > k {
        assert(ts[k] <= ts[c - 1]);
    }
    assert(c == k);
}

/// Outside the span of a sampled signal, constant and linear interpolation give no
/// value, and nearest-neighbour interpolation gives the value of the end sample on that
/// side.
pub proof fn law_outside_the_samples<T: Copy>(s: Signal<T>, b: Signal<bool>, time: u64)
    requires
        s.wf(),
        s.has_samples(),
        b.wf(),
        b.has_samples(),
    ensures
        time < s.times()[0] ==> s.spec_interpolate_at::<Nearest>(time) == Some(s.vals()[0])
            && s.spec_interpolate_at::<Constant>(time) is None,
        time > s.times().last() ==> s.spec_interpolate_at::<Nearest>(time) == Some(s.vals().last())
            && s.spec_interpolate_at::<Constant>(time) is None,
        time < b.times()[0] || time > b.times().last() ==> b.spec_interpolate_at::<Linear>(time) is None,
{
    let ts = s.times();
    if time < ts[0] || time > ts.last() {
        assert forall|i: int| 0 <= i < ts.len() implies ts[i] != time by {
            if i > 0 {
                assert(ts[0] < ts[i]);
            }
            if i < ts.len() - 1 {
                assert(ts[i] < ts[ts.len() - 1]);
            }
        }
    }
    let bt = b.times();
    if time < bt[0] || time > bt.last() {
        assert forall|i: int| 0 <= i < bt.len() implies bt[i] != time by {
            if i > 0 {
                assert(bt[0] < bt[i]);
            }
            if i < bt.len() - 1 {
                assert(bt[i] < bt[bt.len() - 1]);
            }
        }
    }
}

/// The comparison that each comparison token is read as: `<` and `<=` are "less than"
/// (strict and not), `>` and `>=` "greater than", `==` equality and `!=` inequality.
pub open spec fn token_relation(t: Token) -> Option<Relation> {
    match t {
        Token::Lt => Some(Relation::Less { strict: true }),
        Token::Le => Some(Relation::Less { strict: false }),
        Token::Gt => Some(Relation::Greater { strict: true }),
        Token::Ge => Some(Relation::Greater { strict: false }),
        Token::Eq => Some(Relation::Eq),
        Token::Neq => Some(Relation::NotEq),
        _ => None,
    }
}

/// In a text, each comparison operator is read as its token: `<=`, `>=`, `==` and `!=`
/// (but `<=` followed by `>` is an equivalence).
pub proof fn law_comparison_operators_lex(b: Seq<u8>, i: int)
    requires
        0 <= i,
        i + 1 < b.len(),
        b[i + 1] == 61,
        i + 2 < b.len() ==> b[i + 2] != 62,
    ensures
        b[i] == 60 ==> symbol_at(b, i) == Some((Token::Le, i + 2)),
        b[i] == 62 ==> symbol_at(b, i) == Some((Token::Ge, i + 2)),
        b[i] == 61 ==> symbol_at(b, i) == Some((Token::Eq, i + 2)),
        b[i] == 33 ==> symbol_at(b, i) == Some((Token::Neq, i + 2)),
{
}

/// Reading the tokens of a comparison `x op y` of two names, for any comparison token
/// and any spans, with no lexer error, gives that comparison (see [`token_relation`])
/// with `x` on the left and `y` on the right, both as floating-point variables.
pub proof fn law_comparison_is_read(
    x: String,
    y: String,
    t: Token,
    sx: Span,
    so: Span,
    sy: Span,
    ts: Seq<(Token, Span)>,
    r: Result<crate::expr::Expr, Vec<ParseError>>,
)
    requires
        token_relation(t) is Some,
        ts == seq![(Token::Ident(x), sx), (t, so), (Token::Ident(y), sy)],
        is_read_from(ts, Seq::empty(), r),
    ensures
        r == Ok::<crate::expr::Expr, Vec<ParseError>>(
            crate::expr::Expr::Bool(
                BoolExpr::Cmp(
                    crate::expr::Cmp {
                        op: token_relation(t).unwrap(),
                        lhs: Box::new(NumExpr::FloatVar(FloatVar { name: x })),
                        rhs: Box::new(NumExpr::FloatVar(FloatVar { name: y })),
                    },
                ),
            ),
        ),
{
    let vx: Spanned<Ast> = (Ast::Var { name: x, kind: Type::Unknown }, sx);
    let vy: Spanned<Ast> = (Ast::Var { name: y, kind: Type::Unknown }, sy);
    assert(spec_parse(Level::NumAtom, ts, 0) == Some((vx, 1int)));
    assert(spec_parse(Level::Neg, ts, 0) == Some((vx, 1int)));
    assert(spec_fold(Level::Product, ts, 1, vx) == Some((vx, 1int)));
    assert(spec_parse(Level::Product, ts, 0) == Some((vx, 1int)));
    assert(spec_fold(Level::Sum, ts, 1, vx) == Some((vx, 1int)));
    assert(spec_parse(Level::Sum, ts, 0) == Some((vx, 1int)));
    assert(spec_parse(Level::NumAtom, ts, 2) == Some((vy, 3int)));
    assert(spec_parse(Level::Neg, ts, 2) == Some((vy, 3int)));
    assert(spec_fold(Level::Product, ts, 3, vy) == Some((vy, 3int)));
    assert(spec_parse(Level::Product, ts, 2) == Some((vy, 3int)));
    assert(spec_fold(Level::Sum, ts, 3, vy) == Some((vy, 3int)));
    assert(spec_parse(Level::Sum, ts, 2) == Some((vy, 3int)));
    let op = rel_op(t).unwrap();
    let a: Spanned<Ast> = (spec_binary_op(op, vx, vy, None), join(sx, sy));
    assert(spec_parse(Level::Relational, ts, 0) == Some((a, 3int)));
    assert(spec_parse(Level::Atom, ts, 0) == Some((a, 3int)));
    assert(spec_parse(Level::Unary, ts, 0) == Some((a, 3int)));
    assert(spec_parse(Level::Until, ts, 0) == Some((a, 3int)));
    assert(spec_fold(Level::And, ts, 3, a) == Some((a, 3int)));
    assert(spec_parse(Level::And, ts, 0) == Some((a, 3int)));
    assert(spec_fold(Level::Or, ts, 3, a) == Some((a, 3int)));
    assert(spec_parse(Level::Or, ts, 0) == Some((a, 3int)));
    assert(spec_fold(Level::Xor, ts, 3, a) == Some((a, 3int)));
    assert(spec_parse(Level::Xor, ts, 0) == Some((a, 3int)));
    assert(spec_fold(Level::Expr, ts, 3, a) == Some((a, 3int)));
    assert(a.0.spec_make_typed(Type::Bool) == a.0);
    assert(spec_parse(Level::Expr, ts, 0) == Some((a, 3int)));
    let fx = Ast::Var { name: x, kind: Type::Float };
    let fy = Ast::Var { name: y, kind: Type::Float };
    assert(a.0 == Ast::Binary { op, interval: None, args: (Box::new((fx, sx)), Box::new((fy, sy))) });
    let uses = var_uses(a.0);
    assert(var_uses(fx) == seq![(x@, Type::Float)]);
    assert(var_uses(fy) == seq![(y@, Type::Float)]);
    assert(uses =~= seq![(x@, Type::Float), (y@, Type::Float)]);
    let d1 = Map::<Seq<char>, Type>::empty().insert(x@, Type::Float);
    assert(uses.drop_first() =~= seq![(y@, Type::Float)]);
    assert(uses.drop_first().drop_first() =~= Seq::<(Seq<char>, Type)>::empty());
    assert(declare_all(uses.drop_first().drop_first(), d1.insert(y@, Type::Float)) is Some);
    assert(declare_all(uses.drop_first(), d1) is Some);
    assert(declare_all(uses, Map::empty()) is Some);
    assert(well_formed(fx) && well_formed(fy) && is_num(fx) && is_num(fy));
    assert(temporal_interval(None) is Some);
    assert(op.is_relational() && !(op is Until));
    assert(well_formed(a.0));
    assert(converts(a.0));
    assert(later_errors(ts) =~= Seq::<ParseError>::empty());
    assert(lex_errors_of(Seq::<Span>::empty()) + later_errors(ts) =~= Seq::<ParseError>::empty());
    let e = r->Ok_0;
    let nx = crate::expr::Expr::Num(NumExpr::FloatVar(FloatVar { name: x }));
    let ny = crate::expr::Expr::Num(NumExpr::FloatVar(FloatVar { name: y }));
    assert(corresponds(a.0, e));
    let (cx, cy) = choose|cx: crate::expr::Expr, cy: crate::expr::Expr|
        #![trigger is_binary_result(op, None, cx, cy, e)]
        corresponds(fx, cx) && corresponds(fy, cy) && is_binary_result(op, None, cx, cy, e);
    assert(cx == nx);
    assert(cy == ny);
}

/// Along a run of values that are not kept, the value stays that of the run's start.
proof fn lemma_unkept_run<T>(u: Seq<T>, j: int, i: int)
    requires
        0 <= j <= i < u.len(),
        forall|m: int| j < m <= i ==> !is_kept(u, m),
    ensures
        u[i] == u[j],
    decreases i - j,
{
    if i > j {
        assert(!is_kept(u, i));
        lemma_unkept_run(u, j, i - 1);
    }
}

/// Compressing the values `u` at the strictly increasing points `pts` loses nothing:
/// read with constant interpolation, the compressed samples give, at each of the
/// points, its value. (The last point is kept, and a point is left out only where its
/// value is that of the point before.)
pub proof fn law_compressed_reads_back<T: Copy>(
    pts: Seq<u64>,
    u: Seq<T>,
    times: Vec<u64>,
    values: Vec<T>,
    i: int,
)
    requires
        strictly_increasing(pts),
        u.len() == pts.len(),
        is_compressed(pts, u, times@, values@),
        0 <= i < pts.len(),
    ensures
        (Signal::Sampled { values, time_points: times }).spec_interpolate_at::<Constant>(pts[i]) == Some(u[i]),
{
    reveal(is_compressed_upto);
    let rt = times@;
    let rv = values@;
    let n = pts.len() as int;
    let j = lemma_last_kept(u, i);
    lemma_unkept_run(u, j, i);
    assert(rt.contains(pts[j]));
    let q = choose|q: int| 0 <= q < rt.len() && rt[q] == pts[j];
    assert(is_kept_sample(pts, u, n, rt[q], rv[q]));
    let jq = choose|jq: int| #![trigger pts[jq]] 0 <= jq < n && is_kept(u, jq) && rt[q] == pts[jq] && rv[q] == u[jq];
    lemma_same_point(pts, j, jq);
    let time = pts[i];
    if j == i {
        lemma_index_unique(rt, q, time);
    } else {
        assert(is_kept(u, n - 1));
        assert(i < n - 1);
        assert(rt.contains(pts[n - 1]));
        let q2 = choose|q2: int| 0 <= q2 < rt.len() && rt[q2] == pts[n - 1];
        assert(pts[j] < pts[i] && pts[i] < pts[n - 1]);
        if q2 <= q {
            if q2 < q {
                assert(rt[q2] < rt[q]);
            }
        }
        assert(q + 1 < rt.len());
        assert(is_kept_sample(pts, u, n, rt[q + 1], rv[q + 1]));
        let j2 = choose|j2: int| #![trigger pts[j2]] 0 <= j2 < n && is_kept(u, j2) && rt[q + 1] == pts[j2] && rv[q + 1] == u[j2];
        assert(rt[q] < rt[q + 1]);
        if j2 <= j {
            if j2 < j {
                assert(pts[j2] < pts[j]);
            }
        }
        if j2 <= i {
            assert(!is_kept(u, j2));
        }
        assert(pts[i] < pts[j2]);
        assert forall|m: int| 0 <= m < rt.len() implies rt[m] != time by {
            assert(is_kept_sample(pts, u, n, rt[m], rv[m]));
            let jm = choose|jm: int| #![trigger pts[jm]] 0 <= jm < n && is_kept(u, jm) && rt[m] == pts[jm] && rv[m] == u[jm];
            if jm < i {
                assert(pts[jm] < pts[i]);
            } else if jm > i {
                assert(pts[i] < pts[jm]);
            }
        }
        if q > 0 {
            assert(rt[0] < rt[q]);
        }
        if q + 1 < rt.len() - 1 {
            assert(rt[q + 1] < rt[rt.len() - 1]);
        }
        assert(1 <= q + 1 < rt.len() && rt[q] < time < rt[q + 1]);
        let c = choose|c: int| #![trigger rt[c]] 1 <= c < rt.len() && rt[c - 1] < time < rt[c];
        if c < q + 1 {
            assert(rt[c] <= rt[q]);
        } else if c > q + 1 {
            assert(rt[q + 1] <= rt[c - 1]);
        }
        assert(c == q + 1);
    }
}

/// The last kept index up to `i` (the first is always kept).
proof fn lemma_last_kept<T>(u: Seq<T>, i: int) -> (j: int)
    requires
        0 <= i < u.len(),
    ensures
        0 <= j <= i,
        is_kept(u, j),
        forall|m: int| j < m <= i ==> !is_kept(u, m),
    decreases i,
{
    if is_kept(u, i) {
        i
    } else {
        lemma_last_kept(u, i - 1)
    }
}

/// Two indices of the same point of a strictly increasing sequence are the same.
proof fn lemma_same_point(pts: Seq<u64>, a: int, b: int)
    requires
        strictly_increasing(pts),
        0 <= a < pts.len(),
        0 <= b < pts.len(),
        pts[a] == pts[b],
    ensures
        a == b,
{
    if a < b {
        assert(pts[a] < pts[b]);
    } else if b < a {
        assert(pts[b] < pts[a]);
    }
}

/// The time-wise minimum `lo` and maximum `hi` of two signals `a` and `b`: at each of
/// their points, the minimum is no larger, and the maximum no smaller, than either
/// signal there, and each is the value of one of them; of two constants they are the
/// constant minimum and maximum.
pub proof fn law_min_max_of_signals<T: Ranked, I: InterpolationMethod<T>>(
    a: Signal<T>,
    b: Signal<T>,
    lo: Signal<T>,
    hi: Signal<T>,
)
    requires
        a.is_pointwise_extreme::<I>(&b, true, lo),
        a.is_pointwise_extreme::<I>(&b, false, hi),
    ensures
        a is Constant && b is Constant ==> {
            &&& lo matches Signal::Constant { value } && value.rank() <= a->Constant_value.rank()
                && value.rank() <= b->Constant_value.rank() && (value == a->Constant_value || value
                == b->Constant_value)
            &&& hi matches Signal::Constant { value } && value.rank() >= a->Constant_value.rank()
                && value.rank() >= b->Constant_value.rank() && (value == a->Constant_value || value
                == b->Constant_value)
        },
        !(a is Constant && b is Constant) ==> lo is Sampled && hi is Sampled && lo.times() == hi.times(),
        forall|i: int|
            0 <= i < lo.vals().len() && !(a is Constant && b is Constant) ==> {
                let t = lo.times()[i];
                let x = a.spec_interpolate_at::<I>(t).unwrap();
                let y = b.spec_interpolate_at::<I>(t).unwrap();
                &&& (#[trigger] lo.vals()[i]).rank() <= x.rank()
                &&& lo.vals()[i].rank() <= y.rank()
                &&& (lo.vals()[i] == x || lo.vals()[i] == y)
            },
        forall|i: int|
            0 <= i < hi.vals().len() && !(a is Constant && b is Constant) ==> {
                let t = hi.times()[i];
                let x = a.spec_interpolate_at::<I>(t).unwrap();
                let y = b.spec_interpolate_at::<I>(t).unwrap();
                &&& (#[trigger] hi.vals()[i]).rank() >= x.rank()
                &&& hi.vals()[i].rank() >= y.rank()
                &&& (hi.vals()[i] == x || hi.vals()[i] == y)
            },
{
    if !(a is Constant && b is Constant) {
        assert forall|i: int| 0 <= i < lo.vals().len() implies {
            let t = lo.times()[i];
            let x = a.spec_interpolate_at::<I>(t).unwrap();
            let y = b.spec_interpolate_at::<I>(t).unwrap();
            &&& (#[trigger] lo.vals()[i]).rank() <= x.rank()
            &&& lo.vals()[i].rank() <= y.rank()
            &&& (lo.vals()[i] == x || lo.vals()[i] == y)
        } by {
            assert(lo.wf());
        }
        assert forall|i: int| 0 <= i < hi.vals().len() implies {
            let t = hi.times()[i];
            let x = a.spec_interpolate_at::<I>(t).unwrap();
            let y = b.spec_interpolate_at::<I>(t).unwrap();
            &&& (#[trigger] hi.vals()[i]).rank() >= x.rank()
            &&& hi.vals()[i].rank() >= y.rank()
            &&& (hi.vals()[i] == x || hi.vals()[i] == y)
        } by {
            assert(hi.wf());
        }
    }
}

/// A token that joins two formulas: conjunction, disjunction, implication,
/// equivalence or exclusive or.
pub open spec fn is_logic_token(t: Token) -> bool {
    t is And || t is Or || t is Implies || t is Equiv || t is Xor
}

/// A name at `p` that ends the tokens or is followed by a logical operator is read, at
/// each level up to "until", as a variable of unknown type.
proof fn lemma_name_up_to_until(ts: Seq<(Token, Span)>, p: int, x: String)
    requires
        0 <= p < ts.len(),
        ts[p].0 == Token::Ident(x),
        p + 1 < ts.len() ==> is_logic_token(ts[p + 1].0),
    ensures
        spec_parse(Level::Until, ts, p) == Some(((Ast::Var { name: x, kind: Type::Unknown }, ts[p].1), p + 1)),
{
    let v: Spanned<Ast> = (Ast::Var { name: x, kind: Type::Unknown }, ts[p].1);
    assert(spec_parse(Level::NumAtom, ts, p) == Some((v, p + 1)));
    assert(spec_parse(Level::Neg, ts, p) == Some((v, p + 1)));
    assert(spec_fold(Level::Product, ts, p + 1, v) == Some((v, p + 1)));
    assert(spec_parse(Level::Product, ts, p) == Some((v, p + 1)));
    assert(spec_fold(Level::Sum, ts, p + 1, v) == Some((v, p + 1)));
    assert(spec_parse(Level::Sum, ts, p) == Some((v, p + 1)));
    assert(spec_parse(Level::Relational, ts, p) is None);
    assert(spec_parse(Level::Atom, ts, p) == Some((v, p + 1)));
    assert(spec_parse(Level::Unary, ts, p) == Some((v, p + 1)));
    assert(spec_parse(Level::Until, ts, p) == Some((v, p + 1)));
}

/// `e` is what `x t y` stands for, with `x` and `y` boolean variables: `&` the
/// conjunction and `|` the disjunction of both, `->` the disjunction of the negation of
/// `x` and of `y`.
pub open spec fn is_logic_of(t: Token, x: String, y: String, e: crate::expr::Expr) -> bool {
    let bx = BoolExpr::BoolVar(BoolVar { name: x });
    let by = BoolExpr::BoolVar(BoolVar { name: y });
    match t {
        Token::And => e matches crate::expr::Expr::Bool(BoolExpr::And(a)) && a.args@ == seq![bx, by],
        Token::Or => e matches crate::expr::Expr::Bool(BoolExpr::Or(a)) && a.args@ == seq![bx, by],
        Token::Implies => e matches crate::expr::Expr::Bool(BoolExpr::Or(a)) && a.args@ == seq![
            BoolExpr::Not(crate::expr::Not { arg: Box::new(bx) }),
            by,
        ],
        _ => false,
    }
}

/// Reading the tokens of `x & y`, `x | y` or `x -> y` for any two names and any spans,
/// with no lexer error, gives the conjunction, disjunction or implication of the two
/// boolean variables, in that order (see [`is_logic_of`]).
pub proof fn law_logic_is_read(
    x: String,
    y: String,
    t: Token,
    sx: Span,
    so: Span,
    sy: Span,
    ts: Seq<(Token, Span)>,
    r: Result<crate::expr::Expr, Vec<ParseError>>,
)
    requires
        t is And || t is Or || t is Implies,
        ts == seq![(Token::Ident(x), sx), (t, so), (Token::Ident(y), sy)],
        is_read_from(ts, Seq::empty(), r),
    ensures
        r matches Ok(e) && is_logic_of(t, x, y, e),
{
    let vx: Spanned<Ast> = (Ast::Var { name: x, kind: Type::Unknown }, sx);
    let vy: Spanned<Ast> = (Ast::Var { name: y, kind: Type::Unknown }, sy);
    lemma_name_up_to_until(ts, 0, x);
    lemma_name_up_to_until(ts, 2, y);
    assert(spec_fold(Level::And, ts, 3, vy) == Some((vy, 3int)));
    assert(spec_parse(Level::And, ts, 2) == Some((vy, 3int)));
    assert(spec_fold(Level::Or, ts, 3, vy) == Some((vy, 3int)));
    assert(spec_parse(Level::Or, ts, 2) == Some((vy, 3int)));
    assert(spec_fold(Level::Xor, ts, 3, vy) == Some((vy, 3int)));
    assert(spec_parse(Level::Xor, ts, 2) == Some((vy, 3int)));
    let op = if t is And {
        BinaryOps::And
    } else if t is Or {
        BinaryOps::Or
    } else {
        BinaryOps::Implies
    };
    let a: Spanned<Ast> = (spec_binary_op(op, vx, vy, None), join(sx, sy));
    if t is And {
        assert(spec_fold(Level::And, ts, 3, a) == Some((a, 3int)));
        assert(spec_fold(Level::And, ts, 1, vx) == Some((a, 3int)));
        assert(spec_parse(Level::And, ts, 0) == Some((a, 3int)));
        assert(spec_fold(Level::Or, ts, 3, a) == Some((a, 3int)));
        assert(spec_parse(Level::Or, ts, 0) == Some((a, 3int)));
        assert(spec_fold(Level::Xor, ts, 3, a) == Some((a, 3int)));
        assert(spec_parse(Level::Xor, ts, 0) == Some((a, 3int)));
    } else if t is Or {
        assert(spec_fold(Level::And, ts, 1, vx) == Some((vx, 1int)));
        assert(spec_parse(Level::And, ts, 0) == Some((vx, 1int)));
        assert(spec_fold(Level::Or, ts, 3, a) == Some((a, 3int)));
        assert(spec_fold(Level::Or, ts, 1, vx) == Some((a, 3int)));
        assert(spec_parse(Level::Or, ts, 0) == Some((a, 3int)));
        assert(spec_fold(Level::Xor, ts, 3, a) == Some((a, 3int)));
        assert(spec_parse(Level::Xor, ts, 0) == Some((a, 3int)));
    } else {
        assert(spec_fold(Level::And, ts, 1, vx) == Some((vx, 1int)));
        assert(spec_parse(Level::And, ts, 0) == Some((vx, 1int)));
        assert(spec_fold(Level::Or, ts, 1, vx) == Some((vx, 1int)));
        assert(spec_parse(Level::Or, ts, 0) == Some((vx, 1int)));
        assert(spec_fold(Level::Xor, ts, 1, vx) == Some((vx, 1int)));
        assert(spec_parse(Level::Xor, ts, 0) == Some((vx, 1int)));
    }
    assert(spec_fold(Level::Expr, ts, 3, a) == Some((a, 3int)));
    if t is Implies {
        assert(spec_fold(Level::Expr, ts, 1, vx) == Some((a, 3int)));
    } else {
        assert(spec_fold(Level::Expr, ts, 3, a) == Some((a, 3int)));
    }
    assert(a.0.spec_make_typed(Type::Bool) == a.0);
    assert(spec_parse(Level::Expr, ts, 0) == Some((a, 3int)));
    let fx = Ast::Var { name: x, kind: Type::Bool };
    let fy = Ast::Var { name: y, kind: Type::Bool };
    assert(a.0 == Ast::Binary { op, interval: None, args: (Box::new((fx, sx)), Box::new((fy, sy))) });
    let uses = var_uses(a.0);
    assert(var_uses(fx) == seq![(x@, Type::Bool)]);
    assert(var_uses(fy) == seq![(y@, Type::Bool)]);
    assert(uses =~= seq![(x@, Type::Bool), (y@, Type::Bool)]);
    let d1 = Map::<Seq<char>, Type>::empty().insert(x@, Type::Bool);
    assert(uses.drop_first() =~= seq![(y@, Type::Bool)]);
    assert(uses.drop_first().drop_first() =~= Seq::<(Seq<char>, Type)>::empty());
    assert(declare_all(uses.drop_first().drop_first(), d1.insert(y@, Type::Bool)) is Some);
    assert(declare_all(uses.drop_first(), d1) is Some);
    assert(declare_all(uses, Map::empty()) is Some);
    assert(well_formed(fx) && well_formed(fy) && is_bool(fx) && is_bool(fy));
    assert(temporal_interval(None) is Some);
    assert(well_formed(a.0));
    assert(converts(a.0));
    assert(later_errors(ts) =~= Seq::<ParseError>::empty());
    assert(lex_errors_of(Seq::<Span>::empty()) + later_errors(ts) =~= Seq::<ParseError>::empty());
    let e = r->Ok_0;
    let bx = BoolExpr::BoolVar(BoolVar { name: x });
    let by = BoolExpr::BoolVar(BoolVar { name: y });
    assert(corresponds(a.0, e));
    let (cx, cy) = choose|cx: crate::expr::Expr, cy: crate::expr::Expr|
        #![trigger is_binary_result(op, None, cx, cy, e)]
        corresponds(fx, cx) && corresponds(fy, cy) && is_binary_result(op, None, cx, cy, e);
    assert(cx == crate::expr::Expr::Bool(bx));
    assert(cy == crate::expr::Expr::Bool(by));
    reveal_with_fuel(flat_and, 3);
    reveal_with_fuel(flat_or, 3);
    assert(seq![bx, by].drop_first() =~= seq![by]);
    assert(seq![by].drop_first() =~= Seq::<BoolExpr>::empty());
    let nx = BoolExpr::Not(crate::expr::Not { arg: Box::new(bx) });
    assert(seq![nx, by].drop_first() =~= seq![by]);
    assert(flat_and(seq![bx, by]) =~= seq![bx, by]);
    assert(flat_or(seq![bx, by]) =~= seq![bx, by]);
    assert(flat_or(seq![nx, by]) =~= seq![nx, by]);
}

/// `e` is what the prefix operator `t` applied to the boolean variable `x` stands for:
/// negation, "next", or "eventually" or "always" over all time from zero on.
pub open spec fn is_prefix_of(t: Token, x: String, e: crate::expr::Expr) -> bool {
    let bx = Box::new(BoolExpr::BoolVar(BoolVar { name: x }));
    let all = Interval { start: Bound::Included(0), end: Bound::Unbounded };
    match t {
        Token::Not => e == crate::expr::Expr::Bool(BoolExpr::Not(crate::expr::Not { arg: bx })),
        Token::Next => e == crate::expr::Expr::Bool(BoolExpr::Next(crate::expr::Next { arg: bx })),
        Token::Eventually => e == crate::expr::Expr::Bool(
            BoolExpr::Eventually(crate::expr::Eventually { arg: bx, interval: all }),
        ),
        Token::Always => e == crate::expr::Expr::Bool(
            BoolExpr::Always(crate::expr::Always { arg: bx, interval: all }),
        ),
        _ => false,
    }
}

/// Reading the tokens of `!x`, `X x`, `F x` or `G x` (a prefix operator without an
/// interval before a name), for any name and any spans, with no lexer error, gives the
/// operator applied to the boolean variable (see [`is_prefix_of`]).
pub proof fn law_prefix_is_read(
    x: String,
    t: Token,
    so: Span,
    sx: Span,
    ts: Seq<(Token, Span)>,
    r: Result<crate::expr::Expr, Vec<ParseError>>,
)
    requires
        t is Not || t is Next || t is Eventually || t is Always,
        ts == seq![(t, so), (Token::Ident(x), sx)],
        is_read_from(ts, Seq::empty(), r),
    ensures
        r matches Ok(e) && is_prefix_of(t, x, e),
{
    let vx: Spanned<Ast> = (Ast::Var { name: x, kind: Type::Unknown }, sx);
    lemma_name_up_to_until(ts, 1, x);
    assert(spec_parse(Level::Unary, ts, 1) == Some((vx, 2int)));
    let op = prefix_op(t).unwrap();
    assert(spec_opt_interval(ts, 1) == (None::<Spanned<crate::syntax::Interval>>, 1int));
    let a: Spanned<Ast> = (spec_unary_op(op, vx, None), join(so, sx));
    assert(spec_parse(Level::Unary, ts, 0) == Some((a, 2int)));
    assert(spec_parse(Level::Until, ts, 0) == Some((a, 2int)));
    assert(spec_fold(Level::And, ts, 2, a) == Some((a, 2int)));
    assert(spec_parse(Level::And, ts, 0) == Some((a, 2int)));
    assert(spec_fold(Level::Or, ts, 2, a) == Some((a, 2int)));
    assert(spec_parse(Level::Or, ts, 0) == Some((a, 2int)));
    assert(spec_fold(Level::Xor, ts, 2, a) == Some((a, 2int)));
    assert(spec_parse(Level::Xor, ts, 0) == Some((a, 2int)));
    assert(spec_fold(Level::Expr, ts, 2, a) == Some((a, 2int)));
    assert(a.0.spec_make_typed(Type::Bool) == a.0);
    assert(spec_parse(Level::Expr, ts, 0) == Some((a, 2int)));
    let fx = Ast::Var { name: x, kind: Type::Bool };
    assert(a.0 == Ast::Unary { op, interval: None, arg: Box::new((fx, sx)) });
    assert(var_uses(a.0) == seq![(x@, Type::Bool)]);
    let uses = seq![(x@, Type::Bool)];
    assert(uses.drop_first() =~= Seq::<(Seq<char>, Type)>::empty());
    assert(declare_all(uses.drop_first(), Map::<Seq<char>, Type>::empty().insert(x@, Type::Bool)) is Some);
    assert(declare_all(uses, Map::empty()) is Some);
    assert(declare_all(var_uses(a.0), Map::empty()) is Some);
    assert(temporal_interval(None) is Some);
    assert(well_formed(a.0));
    assert(converts(a.0));
    assert(later_errors(ts) =~= Seq::<ParseError>::empty());
    assert(lex_errors_of(Seq::<Span>::empty()) + later_errors(ts) =~= Seq::<ParseError>::empty());
    let e = r->Ok_0;
    assert(corresponds(a.0, e));
    let cx = choose|cx: crate::expr::Expr|
        #![trigger is_unary_result(op, None, cx, e)]
        corresponds(fx, cx) && is_unary_result(op, None, cx, e);
    assert(cx == crate::expr::Expr::Bool(BoolExpr::BoolVar(BoolVar { name: x })));
    assert(is_prefix_of(t, x, e));
}

/// The time-wise comparison of two signals `a` and `b` by `rel` is, at each of its
/// points, whether the value of `a` there is less than (or at most, greater than, at
/// least, equal to, different from) that of `b`, as `rel` says.
pub proof fn law_signal_comparison<T: Ranked, I: InterpolationMethod<T>>(
    a: Signal<T>,
    b: Signal<T>,
    rel: Relation,
    sig: Signal<bool>,
    i: int,
)
    requires
        a.is_signal_cmp::<I>(&b, rel, Some(sig)),
        0 <= i < sig.times().len(),
    ensures
        ({
            let x = a.spec_interpolate_at::<I>(sig.times()[i]).unwrap().rank();
            let y = b.spec_interpolate_at::<I>(sig.times()[i]).unwrap().rank();
            &&& rel == Relation::Less { strict: true } ==> sig.vals()[i] == (x < y)
            &&& rel == Relation::Less { strict: false } ==> sig.vals()[i] == (x <= y)
            &&& rel == Relation::Greater { strict: true } ==> sig.vals()[i] == (x > y)
            &&& rel == Relation::Greater { strict: false } ==> sig.vals()[i] == (x >= y)
            &&& rel == Relation::Eq ==> sig.vals()[i] == (x == y)
            &&& rel == Relation::NotEq ==> sig.vals()[i] == (x != y)
        }),
{
    assert(sig.vals()[i] == rel.holds(
        a.spec_interpolate_at::<I>(sig.times()[i]).unwrap().rank(),
        b.spec_interpolate_at::<I>(sig.times()[i]).unwrap().rank(),
    ));
}

} // verus!
