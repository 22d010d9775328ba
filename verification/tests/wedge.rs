use argus::order::Ranked;
use argus::wedge::MonoWedge;
use argus::window::sliding_extreme;

fn run_test_min_max<T>(values: Vec<T>, width: usize)
where
    T: Ranked + Ord + core::fmt::Debug,
{
    // The window from `i` covers the time points `i..=i + width`.
    let expected_mins: Vec<T> = (0..values.len())
        .map(|i| {
            let j = usize::min(i + width + 1, values.len());
            values[i..j].iter().min().copied().unwrap()
        })
        .collect();
    assert_eq!(expected_mins.len(), values.len());
    let expected_maxs: Vec<T> = (0..values.len())
        .map(|i| {
            let j = usize::min(i + width + 1, values.len());
            values[i..j].iter().max().copied().unwrap()
        })
        .collect();
    assert_eq!(expected_maxs.len(), values.len());

    let time_points: Vec<u64> = (0..values.len() as u64).collect();
    let start_time: u64 = time_points.first().copied().unwrap();
    let width = width as u64;

    let mut min_wedge = MonoWedge::<T>::min_wedge();
    let mut max_wedge = MonoWedge::<T>::max_wedge();
    let mut ret_mins = Vec::with_capacity(time_points.len());
    let mut ret_maxs = Vec::with_capacity(time_points.len());

    let mut j: usize = 0;

    for (i, value) in time_points.iter().zip(&values) {
        min_wedge.purge_before(i.saturating_sub(width));
        min_wedge.update((*i, *value));
        max_wedge.purge_before(i.saturating_sub(width));
        max_wedge.update((*i, *value));
        if width <= *i - start_time {
            ret_mins.push(
                min_wedge
                    .front()
                    .map(|(&t, &v)| (t, v))
                    .unwrap_or_else(|| panic!("min_wedge should have at least 1 element")),
            );
            ret_maxs.push(
                max_wedge
                    .front()
                    .map(|(&t, &v)| (t, v))
                    .unwrap_or_else(|| panic!("max_wedge should have at least 1 element")),
            );
            j += 1;
        }
    }
    assert_eq!(j, ret_mins.len());
    assert_eq!(j, ret_maxs.len());
    assert!(j <= time_points.len());
    for i in &time_points[j..] {
        min_wedge.purge_before(*i);
        let min = min_wedge
            .front()
            .map(|(&t, &v)| (t, v))
            .unwrap_or_else(|| panic!("min_wedge should have at least 1 element"));
        assert_eq!(min.0, *i);
        ret_mins.push(min);

        max_wedge.purge_before(*i);
        let max = max_wedge
            .front()
            .map(|(&t, &v)| (t, v))
            .unwrap_or_else(|| panic!("max_wedge should have at least 1 element"));
        assert_eq!(max.0, *i);
        ret_maxs.push(max);
    }
    assert_eq!(time_points, ret_mins.iter().map(|s| s.0).collect::<Vec<_>>());
    assert_eq!(time_points, ret_maxs.iter().map(|s| s.0).collect::<Vec<_>>());

    let ret_mins: Vec<_> = ret_mins.into_iter().map(|s| s.1).collect();
    let ret_maxs: Vec<_> = ret_maxs.into_iter().map(|s| s.1).collect();
    assert_eq!(expected_mins, ret_mins, "window min incorrect");
    assert_eq!(expected_maxs, ret_maxs, "window max incorrect");
}

#[test]
fn lemire_minmax_smoketest_1() {
    let vec: Vec<u64> = vec![
        14978539203261649134,
        16311637665202408393,
        14583675943388486036,
        1550360951880186785,
        14850777793052200443,
    ];
    let width: usize = 2;

    run_test_min_max(vec, width)
}

#[test]
fn lemire_minmax_smoketest_2() {
    let vec: Vec<u64> = vec![0, 0, 0];
    let width: usize = 2;

    run_test_min_max(vec, width)
}

#[test]
fn rolling_minmax_signed() {
    run_test_min_max(vec![5i64, -3, 8, 8, -10, 2, 7, -1, 0], 3);
    run_test_min_max(vec![1i32, 2, 3, 4, 5, 6], 1);
    run_test_min_max(vec![true, false, true, true, false], 2);
}

#[test]
fn purge_then_front() {
    let mut w = MonoWedge::<u64>::max_wedge();
    assert_eq!(w.front(), None);
    w.update((1, 4));
    w.update((2, 9));
    w.update((5, 3));
    assert_eq!(w.front(), Some((&1, &9)));
    w.purge_before(3);
    // Only the sample at 5 is left.
    assert_eq!(w.front(), Some((&5, &3)));
    w.purge_before(6);
    assert_eq!(w.front(), None);
}

#[test]
fn pop_front_removes_best_and_earlier() {
    let mut w = MonoWedge::<i64>::min_wedge();
    assert_eq!(w.pop_front(), None);
    w.update((0, 7));
    w.update((1, 2));
    w.update((3, 5));
    w.update((4, 6));
    // The minimum is at 1; it goes, with the sample at 0 before it.
    assert_eq!(w.pop_front(), Some((1, 2)));
    assert_eq!(w.front(), Some((&3, &5)));
    assert_eq!(w.pop_front(), Some((3, 5)));
    assert_eq!(w.pop_front(), Some((4, 6)));
    assert_eq!(w.pop_front(), None);
    assert_eq!(w.front(), None);
}

#[test]
fn sliding_window_extremes() {
    let times = vec![0u64, 1, 2, 3, 4];
    let values = vec![3i64, 1, 4, 1, 5];
    // Each window covers [t, t + 2].
    assert_eq!(sliding_extreme(&times, &values, 2, true), vec![4, 4, 5, 5, 5]);
    assert_eq!(sliding_extreme(&times, &values, 2, false), vec![1, 1, 1, 1, 5]);
    assert_eq!(sliding_extreme(&times, &values, 0, true), values);
}

#[test]
fn pop_front_gives_front_value() {
    let mut w = MonoWedge::<u64>::max_wedge();
    for (t, v) in [(0u64, 3u64), (1, 8), (2, 8), (3, 1)] {
        w.update((t, v));
    }
    let front_value = *w.front().unwrap().1;
    let popped = w.pop_front().unwrap();
    assert_eq!(popped.1, front_value);
    // Equal values: the later one is kept, so the earlier samples go.
    assert_eq!(popped, (2, 8));
    assert_eq!(w.front(), Some((&3, &1)));
}

#[test]
fn trailing_window_with_irregular_times() {
    // Purging before `t - 4` and pushing the sample at `t` leaves the samples of the
    // last four time units, whose extreme the front gives.
    let samples = [(0u64, 5i64), (1, 2), (3, 9), (6, 4), (7, -3), (12, 1), (13, 8)];
    let width = 4u64;
    let mut mx = MonoWedge::<i64>::max_wedge();
    let mut mn = MonoWedge::<i64>::min_wedge();
    let mut maxima = Vec::new();
    let mut minima = Vec::new();
    for &(t, v) in &samples {
        mx.purge_before(t.saturating_sub(width));
        mx.update((t, v));
        mn.purge_before(t.saturating_sub(width));
        mn.update((t, v));
        maxima.push(*mx.front().unwrap().1);
        minima.push(*mn.front().unwrap().1);
    }
    assert_eq!(maxima, vec![5, 5, 9, 9, 9, 1, 8]);
    assert_eq!(minima, vec![5, 2, 2, 4, -3, 1, 1]);
    // The front's time point is the earliest sample within the window.
    assert_eq!(mx.front().map(|(t, _)| *t), Some(12));
}
