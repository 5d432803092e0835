use wavehacker::filters::mov_max::MovMax;
use wavehacker::filters::mov_rms::{RefreshSchedule, REFRESH_INTERVAL};

#[test]
fn test_mov_max() {
    let mut mov_max = MovMax::new(4);
    let data = vec![
        5.6, 7.3, 9.9, 5.7, 3.3, 5.1, 2.8, 6.4, 9.9, 4.8, 0.9, 4.7, 9.0, 7.4,
        8.2, 9.1, 7.4, 0.8, 2.6, 3.7, 0.5, 4.3, 7.6, 7.6, 4.3, 4.1, 1.2, 1.7,
    ];
    let expected = vec![
        5.6, 7.3, 9.9, 9.9, 9.9, 9.9, 5.7, 6.4, 9.9, 9.9, 9.9, 9.9, 9.0, 9.0,
        9.0, 9.1, 9.1, 9.1, 9.1, 7.4, 3.7, 4.3, 7.6, 7.6, 7.6, 7.6, 7.6, 4.3,
    ];

    let maxes: Vec<f64> = data.iter().map(|x| mov_max.process(*x)).collect();
    assert_eq!(maxes, expected);
}

fn brute_force_max(data: &[i64], w: usize, i: usize) -> i64 {
    let start = if i + 1 >= w { i + 1 - w } else { 0 };
    *data[start..=i].iter().max().unwrap()
}

#[test]
fn mov_max_matches_window_maximum_on_integers() {
    let data: Vec<i64> = vec![3, -1, 4, 1, -5, 9, 2, 6, 5, 3, 5, 8, 9, 7, 9, 3, 2, 3, 8, 4];
    for w in 1..8 {
        let mut mov_max = MovMax::new(w);
        for (i, x) in data.iter().enumerate() {
            assert_eq!(mov_max.process(*x), brute_force_max(&data, w, i));
        }
    }
}

#[test]
fn mov_max_keeps_equal_maxima() {
    let mut mov_max = MovMax::new(2);
    let out: Vec<i32> = [5, 5, 1, 1, 7, 7, 7].iter().map(|x| mov_max.process(*x)).collect();
    assert_eq!(out, vec![5, 5, 5, 1, 7, 7, 7]);
}

#[test]
fn mov_max_window_of_one_is_identity() {
    let mut mov_max = MovMax::new(1);
    let out: Vec<i64> = [4, -2, 8, 0].iter().map(|x| mov_max.process(*x)).collect();
    assert_eq!(out, vec![4, -2, 8, 0]);
}

#[test]
fn mov_max_empty_window_gives_zero() {
    let mut mov_max = MovMax::new(0);
    assert_eq!(mov_max.process(3.5), 0.0);
    assert_eq!(mov_max.process(-1.0), 0.0);
}

#[test]
fn mov_max_long_window_is_running_maximum() {
    let mut mov_max = MovMax::new(100);
    let out: Vec<i64> = [1, 3, 2, 5, 4].iter().map(|x| mov_max.process(*x)).collect();
    assert_eq!(out, vec![1, 3, 3, 5, 5]);
}

#[test]
fn refresh_schedule_recomputes_after_interval() {
    let mut schedule = RefreshSchedule::new();
    for _ in 0..=REFRESH_INTERVAL {
        assert!(!schedule.tick());
    }
    assert!(schedule.tick());
    assert!(!schedule.tick());
    schedule.restart();
    assert!(!schedule.tick());
}

#[test]
fn mov_max_empty_window_gives_zero_for_integers() {
    let mut mov_max: MovMax<i64> = MovMax::new(0);
    assert_eq!(mov_max.process(7), 0);
}
