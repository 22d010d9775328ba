use argus::abs::SignalAbs;
use argus::bound::Bound;
use argus::error::Error;
use argus::interpolation::{Constant, Linear, Nearest};
use argus::ops::{apply1, apply2};
use argus::signal::Signal;

fn samples_of<T: Copy>(times: &[u64], values: &[T]) -> Vec<(u64, T)> {
    times.iter().copied().zip(values.iter().copied()).collect()
}

fn check_create<T: Copy + PartialEq + core::fmt::Debug>(values: &[T]) {
    let times: Vec<u64> = (0..values.len() as u64).map(|i| 3 * i + 1).collect();
    let samples = samples_of(&times, values);
    let signal = Signal::try_from_iter(samples.clone()).expect("strictly increasing time points");
    assert_eq!(signal.iter(), samples);

    // Swapping two samples breaks the order of the time points.
    for (a, b) in [(0, values.len() - 1), (1, 2), (0, 1)] {
        let mut swapped = samples.clone();
        swapped.swap(a, b);
        assert!(Signal::try_from_iter(swapped).is_err(), "swapped {} and {}", a, b);
    }
    // A repeated time point is refused too.
    let mut repeated = samples.clone();
    repeated[1].0 = repeated[0].0;
    assert!(Signal::try_from_iter(repeated).is_err());
}

#[test]
fn create_signals_from_samples() {
    check_create(&[true, false, false, true, true]);
    check_create(&[1i8, -2, 3, -4, 5]);
    check_create(&[1i16, -2, 3, -4, 5]);
    check_create(&[1i32, -2, 3, -4, 5]);
    check_create(&[1i64, -2, 3, -4, 5]);
    check_create(&[1u8, 2, 3, 4, 5]);
    check_create(&[1u16, 2, 3, 4, 5]);
    check_create(&[1u32, 2, 3, 4, 5]);
    check_create(&[1u64, 2, 3, 4, 5]);
    check_create(&[1.5f32, -2.0, 3.25, 0.0, 5.0]);
    check_create(&[1.5f64, -2.0, 3.25, 0.0, 5.0]);
}

#[test]
fn push_then_at() {
    let mut signal: Signal<i64> = Signal::new_with_capacity(4);
    assert_eq!(signal.push(2, 10), Ok(()));
    assert_eq!(signal.push(5, -3), Ok(()));
    assert_eq!(signal.at(2), Some(&10));
    assert_eq!(signal.at(5), Some(&-3));
    assert_eq!(signal.at(3), None);
    assert_eq!(signal.iter(), vec![(2, 10), (5, -3)]);
}

#[test]
fn push_errors() {
    let mut signal: Signal<u64> = Signal::new_with_capacity(2);
    assert_eq!(signal.push(4, 1), Ok(()));
    assert_eq!(
        signal.push(4, 2),
        Err(Error::NonMonotonicSignal { end_time: 4, current_sample: 4 })
    );
    assert_eq!(
        signal.push(3, 2),
        Err(Error::NonMonotonicSignal { end_time: 4, current_sample: 3 })
    );
    // A refused sample leaves the signal as it was.
    assert_eq!(signal.iter(), vec![(4, 1)]);

    let mut empty: Signal<u64> = Signal::new();
    assert_eq!(empty.push(0, 1), Err(Error::InvalidPushToSignal));
    let mut constant = Signal::constant(7u64);
    assert_eq!(constant.push(0, 1), Err(Error::InvalidPushToSignal));
}

#[test]
fn bounds_and_times() {
    let empty: Signal<bool> = Signal::new();
    assert!(empty.is_empty());
    assert_eq!(empty.bounds(), None);
    assert_eq!(empty.time_points(), None);

    let constant = Signal::constant(true);
    assert!(!constant.is_empty());
    assert_eq!(constant.bounds(), Some((Bound::Unbounded, Bound::Unbounded)));
    assert_eq!(constant.start_time(), Some(Bound::Unbounded));
    assert_eq!(constant.at(1000), Some(&true));

    let sampled = Signal::try_from_iter(vec![(1u64, 3i64), (4, 5), (9, 0)]).unwrap();
    assert!(!sampled.is_empty());
    assert_eq!(sampled.bounds(), Some((Bound::Included(1), Bound::Included(9))));
    assert_eq!(sampled.start_time(), Some(Bound::Included(1)));
    assert_eq!(sampled.end_time(), Some(Bound::Included(9)));
    assert_eq!(sampled.time_points(), Some(vec![1, 4, 9]));

    let fresh: Signal<u32> = Signal::new_with_capacity(3);
    assert!(fresh.is_empty());
    assert_eq!(fresh.time_points(), Some(vec![]));
}

#[test]
fn interpolation_methods() {
    let signal = Signal::try_from_iter(vec![(0u64, 1i64), (10, 5)]).unwrap();
    // Constant holds the earlier value, Nearest takes the closer sample.
    assert_eq!(signal.interpolate_at::<Constant>(3), Some(1));
    assert_eq!(signal.interpolate_at::<Nearest>(3), Some(1));
    assert_eq!(signal.interpolate_at::<Nearest>(7), Some(5));
    // On a sample, every method gives the sample's value.
    assert_eq!(signal.interpolate_at::<Constant>(10), Some(5));
    assert_eq!(signal.interpolate_at::<Nearest>(0), Some(1));
    // Outside the domain there is no value.
    assert_eq!(signal.interpolate_at::<Constant>(11), None);

    let b = Signal::try_from_iter(vec![(0u64, false), (4, true)]).unwrap();
    assert_eq!(b.interpolate_at::<Linear>(0), Some(false));
    assert_eq!(b.interpolate_at::<Linear>(4), Some(true));
    assert_eq!(Signal::constant(3u8).interpolate_at::<Constant>(99), Some(3));
}

#[test]
fn signal_ops() {
    // Boolean negation, disjunction and conjunction, sample by sample.
    let b1 = Signal::try_from_iter(vec![(0u64, true), (1, false), (3, true)]).unwrap();
    let b2 = Signal::try_from_iter(vec![(0u64, false), (2, false), (3, true)]).unwrap();
    for (t, v) in b1.logical_not().iter() {
        assert_eq!(!b1.interpolate_at::<Linear>(t).unwrap(), v);
    }
    for (t, v) in b1.or::<Linear>(&b2).iter() {
        assert_eq!(b1.interpolate_at::<Linear>(t).unwrap() | b2.interpolate_at::<Linear>(t).unwrap(), v);
    }
    for (t, v) in b1.and::<Linear>(&b2).iter() {
        assert_eq!(b1.interpolate_at::<Linear>(t).unwrap() & b2.interpolate_at::<Linear>(t).unwrap(), v);
    }

    // Negation of an integer signal, sample by sample.
    let sig = Signal::try_from_iter(vec![(0u64, 1i64), (2, -4), (3, 9)]).unwrap();
    let neg = sig.negate();
    for (t, v) in neg.iter() {
        assert_eq!(-sig.interpolate_at::<Constant>(t).unwrap(), v);
    }

    // Division of unsigned signals at their synchronization points.
    let lhs = Signal::try_from_iter(vec![(0u64, 10u64), (4, 20), (8, 30)]).unwrap();
    let rhs = Signal::try_from_iter(vec![(2u64, 2u64), (6, 5)]).unwrap();
    let div = lhs.div::<Constant>(&rhs);
    assert_eq!(div.iter(), vec![(2, 5), (4, 10), (6, 4)]);
    for (t, v) in div.iter() {
        let a = lhs.interpolate_at::<Constant>(t).unwrap();
        let b = rhs.interpolate_at::<Constant>(t).unwrap();
        assert_eq!(a / b, v);
    }

    // Division of signed signals rounds toward zero.
    let sl = Signal::try_from_iter(vec![(0u64, -7i64), (1, 7), (2, i64::MIN)]).unwrap();
    let sr = Signal::try_from_iter(vec![(0u64, 2i64), (1, -2), (2, 1)]).unwrap();
    let sdiv = sl.div::<Constant>(&sr);
    assert_eq!(sdiv.iter(), vec![(0, -3), (1, -3), (2, i64::MIN)]);

    // Sampled and constant: the constant holds everywhere.
    let c = Signal::constant(3i64);
    let sum = sig.add::<Constant>(&c);
    assert_eq!(sum.iter(), vec![(0, 4), (2, -1), (3, 12)]);

    // Two constants give a constant.
    let prod = c.mul::<Constant>(&Signal::constant(-2i64));
    match prod {
        Signal::Constant { value } => assert_eq!(value, -6),
        other => panic!("{:?}", other),
    }

    // The generic pointwise operations.
    let twice = apply1(&sig, |v: i64| v.wrapping_mul(2));
    assert_eq!(twice.iter(), vec![(0, 2), (2, -8), (3, 18)]);
    let gt = apply2::<i64, bool, _, Constant>(&sig, &c, |a: i64, b: i64| a > b);
    assert_eq!(gt.iter(), vec![(0, false), (2, false), (3, true)]);
}

#[test]
fn boolean_ops() {
    let a = Signal::try_from_iter(vec![(0u64, true), (2, false), (4, true)]).unwrap();
    let b = Signal::try_from_iter(vec![(1u64, true), (3, true)]).unwrap();

    let not_a = a.logical_not();
    assert_eq!(not_a.iter(), vec![(0, false), (2, true), (4, false)]);

    let and = a.and::<Constant>(&b);
    for (t, v) in and.iter() {
        let x = a.interpolate_at::<Constant>(t).unwrap();
        let y = b.interpolate_at::<Constant>(t).unwrap();
        assert_eq!(x & y, v);
    }
    let or = a.or::<Constant>(&b);
    for (t, v) in or.iter() {
        let x = a.interpolate_at::<Constant>(t).unwrap();
        let y = b.interpolate_at::<Constant>(t).unwrap();
        assert_eq!(x | y, v);
    }
    // The result is defined where both operands are.
    assert_eq!(and.start_time(), Some(Bound::Included(1)));
    assert_eq!(and.end_time(), Some(Bound::Included(3)));

    // With a constant operand the sampled one decides the time points.
    let and_true = a.and::<Constant>(&Signal::constant(true));
    assert_eq!(and_true.iter(), a.iter());
    let or_true = a.or::<Constant>(&Signal::constant(true));
    assert!(or_true.iter().iter().all(|&(_, v)| v));
}

#[test]
fn double_negation() {
    let a = Signal::try_from_iter(vec![(0u64, true), (5, false), (7, false)]).unwrap();
    assert_eq!(a.logical_not().logical_not().iter(), a.iter());
}

#[test]
fn comparisons() {
    let a = Signal::try_from_iter(vec![(0u64, 1i64), (2, 3), (4, 5)]).unwrap();
    let b = Signal::try_from_iter(vec![(0u64, 2i64), (2, 3), (4, 4)]).unwrap();
    assert_eq!(a.signal_lt::<Constant>(&b).unwrap().iter(), vec![(0, true), (2, false), (4, false)]);
    assert_eq!(a.signal_le::<Constant>(&b).unwrap().iter(), vec![(0, true), (2, true), (4, false)]);
    assert_eq!(a.signal_gt::<Constant>(&b).unwrap().iter(), vec![(0, false), (2, false), (4, true)]);
    assert_eq!(a.signal_ge::<Constant>(&b).unwrap().iter(), vec![(0, false), (2, true), (4, true)]);
    assert_eq!(a.signal_eq::<Constant>(&b).unwrap().iter(), vec![(0, false), (2, true), (4, false)]);
    assert_eq!(a.signal_ne::<Constant>(&b).unwrap().iter(), vec![(0, true), (2, false), (4, true)]);
    // An empty operand leaves nothing to compare.
    assert!(a.signal_lt::<Constant>(&Signal::new()).is_none());

    let m = a.min::<Constant>(&b);
    assert_eq!(m.iter(), vec![(0, 1), (2, 3), (4, 4)]);
    let m = a.max::<Constant>(&b);
    assert_eq!(m.iter(), vec![(0, 2), (2, 3), (4, 5)]);
}

#[test]
fn shifts() {
    let a = Signal::try_from_iter(vec![(1u64, 10u64), (3, 30), (6, 60)]).unwrap();
    let right = a.shift_right(4);
    assert_eq!(right.iter(), vec![(5, 10), (7, 30), (10, 60)]);
    let back = right.shift_left::<Constant>(4);
    assert_eq!(back.iter(), a.iter());

    // Shifting left past the start keeps the value at time zero.
    let left = a.shift_left::<Constant>(2);
    assert_eq!(left.iter(), vec![(0, 10), (1, 30), (4, 60)]);
    let gone = a.shift_left::<Constant>(10);
    assert!(gone.is_empty());
    let c = Signal::constant(1u64).shift_left::<Constant>(3);
    assert_eq!(c.at(0), Some(&1));
}

#[test]
fn absolute_values() {
    let s = Signal::try_from_iter(vec![(0u64, -3i64), (1, 0), (2, 7), (4, i64::MIN + 1)]).unwrap();
    assert_eq!(s.abs().iter(), vec![(0, 3), (1, 0), (2, 7), (4, i64::MAX)]);
    match Signal::constant(-5i64).abs() {
        Signal::Constant { value } => assert_eq!(value, 5),
        other => panic!("{:?}", other),
    }
    let u = Signal::try_from_iter(vec![(0u64, 3u64), (2, 9)]).unwrap();
    assert_eq!(u.abs().iter(), u.iter());
    assert!(Signal::<i64>::new().abs().is_empty());
}

#[test]
fn arithmetic() {
    let a = Signal::try_from_iter(vec![(0u64, 1i64), (2, 5), (4, -3)]).unwrap();
    let b = Signal::try_from_iter(vec![(1u64, 2i64), (3, 4)]).unwrap();
    assert_eq!(a.add::<Constant>(&b).iter(), vec![(1, 3), (2, 7), (3, 9)]);
    assert_eq!(a.mul::<Constant>(&b).iter(), vec![(1, 2), (2, 10), (3, 20)]);
    let c = Signal::constant(10i64);
    assert_eq!(a.sub::<Constant>(&c).iter(), vec![(0, -9), (2, -5), (4, -13)]);
    assert_eq!(a.abs_diff::<Constant>(&c).iter(), vec![(0, 9), (2, 5), (4, 13)]);
    match c.add::<Constant>(&Signal::constant(-4i64)) {
        Signal::Constant { value } => assert_eq!(value, 6),
        other => panic!("{:?}", other),
    }
    assert!(a.add::<Constant>(&Signal::new()).is_empty());

    let u = Signal::try_from_iter(vec![(0u64, 7u64), (5, 3)]).unwrap();
    let w = Signal::constant(2u64);
    assert_eq!(u.add::<Constant>(&w).iter(), vec![(0, 9), (5, 5)]);
    assert_eq!(u.mul::<Constant>(&w).iter(), vec![(0, 14), (5, 6)]);
    assert_eq!(u.sub::<Constant>(&w).iter(), vec![(0, 5), (5, 1)]);
    assert_eq!(u.abs_diff::<Constant>(&Signal::constant(5u64)).iter(), vec![(0, 2), (5, 2)]);
}

#[test]
fn nearest_beyond_the_samples() {
    let s = Signal::try_from_iter(vec![(10u64, 1i64), (20, 2)]).unwrap();
    assert_eq!(s.interpolate_at::<Nearest>(3), Some(1));
    assert_eq!(s.interpolate_at::<Nearest>(25), Some(2));
    assert_eq!(s.interpolate_at::<Nearest>(15), Some(2));
    assert_eq!(s.interpolate_at::<Nearest>(14), Some(1));
    assert_eq!(s.interpolate_at::<Constant>(3), None);
    assert_eq!(s.interpolate_at::<Constant>(25), None);
}

#[test]
fn extremes_of_constants() {
    let a = Signal::constant(3i64);
    let b = Signal::constant(-2i64);
    match a.min::<Constant>(&b) {
        Signal::Constant { value } => assert_eq!(value, -2),
        other => panic!("{:?}", other),
    }
    match a.max::<Constant>(&b) {
        Signal::Constant { value } => assert_eq!(value, 3),
        other => panic!("{:?}", other),
    }
    // The minimum with a top constant gives back the other signal.
    let s = Signal::try_from_iter(vec![(0u64, 4i64), (3, 1)]).unwrap();
    assert_eq!(Signal::constant(i64::MAX).min::<Constant>(&s).iter(), s.iter());
}

#[test]
fn de_morgan() {
    let a = Signal::try_from_iter(vec![(0u64, true), (2, false), (5, true), (6, false)]).unwrap();
    let b = Signal::try_from_iter(vec![(1u64, false), (3, true), (7, false)]).unwrap();
    let or = a.or::<Nearest>(&b);
    let dual = a.logical_not().and::<Nearest>(&b.logical_not()).logical_not();
    assert_eq!(or.iter(), dual.iter());
}
