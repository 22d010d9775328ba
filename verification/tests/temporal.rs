use argus::bound::Bound;
use argus::error::Error;
use argus::interpolation::{Constant, Linear};
use argus::interval::Interval;
use argus::signal::Signal;
use argus::temporal::{
    compute_always, compute_eventually, compute_next, compute_oracle, compute_timed_always,
    compute_timed_eventually, compute_untimed_always, compute_untimed_eventually,
};
use argus::until::{compute_boolean_until, compute_timed_until, compute_until, compute_untimed_until};

fn bools(samples: &[(u64, bool)]) -> Signal<bool> {
    Signal::try_from_iter(samples.to_vec()).unwrap()
}

fn untimed() -> Interval {
    Interval::new(Bound::Unbounded, Bound::Unbounded)
}

#[test]
fn untimed_eventually_and_always() {
    let a = bools(&[(0, false), (1, false), (2, true), (3, false)]);
    let ev = compute_untimed_eventually(a.clone());
    assert_eq!(ev.iter(), vec![(0, true), (1, true), (2, true), (3, false)]);
    let alw = compute_untimed_always(a.clone());
    assert_eq!(alw.iter(), vec![(0, false), (1, false), (2, false), (3, false)]);

    let ev = compute_eventually::<bool, Constant>(a.clone(), &untimed()).unwrap();
    assert_eq!(ev.iter(), vec![(0, true), (1, true), (2, true), (3, false)]);
    let alw = compute_always::<bool, Constant>(a, &untimed()).unwrap();
    assert!(alw.iter().iter().all(|&(_, v)| !v));
}

#[test]
fn integer_eventually_is_suffix_maximum() {
    let s = Signal::try_from_iter(vec![(0u64, 3i64), (1, 7), (2, -1), (5, 4)]).unwrap();
    let ev = compute_untimed_eventually(s.clone());
    assert_eq!(ev.iter(), vec![(0, 7), (1, 7), (2, 4), (5, 4)]);
    let alw = compute_untimed_always(s);
    assert_eq!(alw.iter(), vec![(0, -1), (1, -1), (2, -1), (5, 4)]);
}

#[test]
fn timed_eventually_and_always() {
    let a = bools(&[(0, false), (1, false), (2, true), (3, false)]);
    let ev = compute_timed_eventually::<bool, Constant>(a.clone(), 0, Some(1));
    assert_eq!(ev.at(0), Some(&false));
    assert_eq!(ev.at(1), Some(&true));
    assert_eq!(ev.at(2), Some(&true));
    assert_eq!(ev.at(3), Some(&false));

    let alw = compute_timed_always::<bool, Constant>(a.clone(), 0, Some(1));
    assert_eq!(alw.at(0), Some(&false));
    assert_eq!(alw.at(2), Some(&false));

    let b = bools(&[(0, true), (1, true), (2, true), (3, false)]);
    let alw = compute_timed_always::<bool, Constant>(b, 0, Some(1));
    assert_eq!(alw.at(0), Some(&true));
    assert_eq!(alw.at(1), Some(&true));
    assert_eq!(alw.at(2), Some(&false));
    assert_eq!(alw.at(3), Some(&false));

    // Through the interval interface: F[0,1] in nanoseconds.
    let iv = Interval::new(Bound::Included(0), Bound::Included(1));
    let ev2 = compute_eventually::<bool, Constant>(a, &iv).unwrap();
    assert_eq!(ev2.iter(), ev.iter());
}

#[test]
fn eventually_of_false_stays_false() {
    // F[0,2] over a signal that is false everywhere is false everywhere.
    let a = bools(&[(0, false), (1, false), (2002, false)]);
    let iv = Interval::new(Bound::Included(0), Bound::Included(2000));
    let ev = compute_eventually::<bool, Linear>(a, &iv).unwrap();
    assert!(!ev.is_empty());
    assert!(ev.iter().iter().all(|&(_, v)| !v));
}

#[test]
fn invalid_intervals() {
    let a = bools(&[(0, true), (1, false)]);
    let singleton = Interval::new(Bound::Included(2), Bound::Included(2));
    assert_eq!(compute_eventually::<bool, Constant>(a.clone(), &singleton).unwrap_err(), Error::InvalidInterval);
    assert_eq!(compute_always::<bool, Constant>(a.clone(), &singleton).unwrap_err(), Error::InvalidInterval);
    let empty = Interval::new(Bound::Included(3), Bound::Included(2));
    assert_eq!(compute_eventually::<bool, Constant>(a.clone(), &empty).unwrap_err(), Error::InvalidInterval);
    assert_eq!(
        compute_until::<bool, Constant>(a.clone(), a.clone(), &empty).unwrap_err(),
        Error::InvalidInterval
    );
    // A signal with no samples comes back as it is.
    let c = compute_eventually::<bool, Constant>(Signal::constant(true), &untimed()).unwrap();
    assert_eq!(c.at(17), Some(&true));
    let e = compute_always::<bool, Constant>(Signal::new(), &untimed()).unwrap();
    assert!(e.is_empty());
}

#[test]
fn next_and_oracle() {
    let a = Signal::try_from_iter(vec![(0u64, 1u32), (1, 2), (2, 3)]).unwrap();
    assert_eq!(compute_next(a.clone()).iter(), vec![(0, 2), (1, 3)]);
    assert_eq!(compute_oracle(a.clone(), 2).iter(), vec![(0, 3)]);
    assert!(compute_oracle(a.clone(), 3).is_empty());
    assert!(compute_oracle(a.clone(), 0).is_empty());
    assert_eq!(compute_oracle(Signal::constant(5u32), 4).at(9), Some(&5));
    // Two nexts are an oracle of two steps.
    assert_eq!(compute_next(compute_next(a.clone())).iter(), compute_oracle(a, 2).iter());
}

#[test]
fn untimed_until() {
    let lhs = bools(&[(0, true), (1, true), (2, true), (3, false)]);
    let rhs = bools(&[(0, false), (1, false), (2, true), (3, false)]);
    let u = compute_untimed_until::<bool, Constant>(lhs.clone(), rhs.clone());
    for t in 0..3 {
        assert_eq!(u.interpolate_at::<Constant>(t), Some(true), "at {}", t);
    }
    assert_eq!(u.at(3), Some(&false));

    let u2 = compute_until::<bool, Constant>(lhs, rhs, &untimed()).unwrap();
    assert_eq!(u2.iter(), u.iter());

    // `lhs` must hold where `rhs` is reached.
    let lhs = bools(&[(0, true), (1, true), (2, false), (3, true)]);
    let rhs = bools(&[(0, false), (1, false), (2, true), (3, false)]);
    let u = compute_untimed_until::<bool, Constant>(lhs, rhs);
    for t in 0..4 {
        assert_eq!(u.interpolate_at::<Constant>(t), Some(false), "at {}", t);
    }
}

#[test]
fn timed_until() {
    let lhs = bools(&[(0, true), (1, true), (2, true), (3, true)]);
    let rhs = bools(&[(0, false), (1, false), (2, false), (3, true)]);
    // Within [0, 1] of 0 and 1, `rhs` is not reached; from 2 it is.
    let u = compute_timed_until::<bool, Constant>(lhs.clone(), rhs.clone(), 0, Some(1));
    assert_eq!(u.interpolate_at::<Constant>(0), Some(false));
    assert_eq!(u.interpolate_at::<Constant>(2), Some(true));
    // Without an upper bound, `rhs` is reached from everywhere.
    let u = compute_timed_until::<bool, Constant>(lhs.clone(), rhs.clone(), 0, None);
    assert_eq!(u.interpolate_at::<Constant>(0), Some(true));

    let iv = Interval::new(Bound::Included(0), Bound::Included(1));
    let u3 = compute_until::<bool, Constant>(lhs, rhs, &iv).unwrap();
    assert_eq!(u3.interpolate_at::<Constant>(2), Some(true));
}

#[test]
fn window_duality() {
    // Always is the negation of eventually of the negation.
    let a = bools(&[(0, true), (2, false), (3, true), (7, true), (8, false)]);
    let iv = Interval::new(Bound::Included(0), Bound::Included(2));
    let alw = compute_always::<bool, Constant>(a.clone(), &iv).unwrap();
    let dual = compute_eventually::<bool, Constant>(a.logical_not(), &iv).unwrap().logical_not();
    assert_eq!(alw.iter(), dual.iter());
}

#[test]
fn until_a_constant() {
    let lhs = bools(&[(0, true), (1, false), (2, true)]);
    // Anything until true is true; until false is false, whatever the interval.
    let t = compute_boolean_until::<Constant>(lhs.clone(), Signal::constant(true), &untimed()).unwrap();
    assert!(matches!(t, Signal::Constant { value: true }));
    let iv = Interval::new(Bound::Included(0), Bound::Included(5));
    let f = compute_boolean_until::<Constant>(lhs.clone(), Signal::constant(false), &iv).unwrap();
    assert!(matches!(f, Signal::Constant { value: false }));
    let empty = Interval::new(Bound::Included(3), Bound::Included(1));
    let t = compute_boolean_until::<Constant>(lhs.clone(), Signal::constant(true), &empty).unwrap();
    assert!(matches!(t, Signal::Constant { value: true }));
    // A sampled left side without samples is no empty signal here.
    let none = Signal::<bool>::new_with_capacity(0);
    let f = compute_boolean_until::<Constant>(none, Signal::constant(false), &untimed()).unwrap();
    assert!(matches!(f, Signal::Constant { value: false }));
    // An empty side is passed through.
    assert!(compute_boolean_until::<Constant>(Signal::new(), lhs.clone(), &untimed()).unwrap().is_empty());
    assert!(compute_boolean_until::<Constant>(lhs.clone(), Signal::new(), &empty).unwrap().is_empty());
    assert!(compute_until::<bool, Constant>(Signal::new(), lhs, &untimed()).unwrap().is_empty());
}

#[test]
fn until_a_constant_left_side() {
    let rhs = bools(&[(0, false), (1, false), (2, true), (3, false)]);
    // True until phi is eventually phi.
    let iv = Interval::new(Bound::Included(0), Bound::Included(1));
    let u = compute_boolean_until::<Constant>(Signal::constant(true), rhs.clone(), &iv).unwrap();
    let ev = compute_eventually::<bool, Constant>(rhs.clone(), &iv).unwrap();
    assert_eq!(u.iter(), ev.iter());
    assert_eq!(u.iter(), vec![(0, false), (1, true), (2, true), (3, false)]);
    // ... and refuses a singleton interval as eventually does.
    let single = Interval::new(Bound::Included(1), Bound::Included(1));
    assert_eq!(
        compute_boolean_until::<Constant>(Signal::constant(true), rhs.clone(), &single).unwrap_err(),
        Error::InvalidInterval
    );
    // False until phi is next phi.
    let u = compute_boolean_until::<Constant>(Signal::constant(false), rhs.clone(), &iv).unwrap();
    assert_eq!(u.iter(), vec![(0, false), (1, true), (2, false)]);
    // Two sampled signals go through the recurrence.
    let lhs = bools(&[(0, true), (1, true), (2, true), (3, false)]);
    let u = compute_boolean_until::<Constant>(lhs.clone(), rhs.clone(), &untimed()).unwrap();
    assert_eq!(u.iter(), compute_until::<bool, Constant>(lhs, rhs, &untimed()).unwrap().iter());
}

#[test]
fn until_with_a_constant_right_side_runs_the_recurrence() {
    let lhs = Signal::try_from_iter(vec![(0u64, 1i64), (1, -1)]).unwrap();
    let u = compute_until::<i64, Constant>(lhs.clone(), Signal::constant(5), &untimed()).unwrap();
    assert_eq!(u.iter(), vec![(0, 1), (1, -1)]);
    // An empty interval is refused once neither side is empty.
    let empty = Interval::new(Bound::Included(3), Bound::Included(1));
    assert_eq!(
        compute_until::<i64, Constant>(lhs.clone(), Signal::constant(5), &empty).unwrap_err(),
        Error::InvalidInterval
    );
    assert!(compute_until::<i64, Constant>(lhs, Signal::new(), &empty).unwrap().is_empty());
}
