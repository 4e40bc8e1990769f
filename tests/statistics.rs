use thokr::stats::{
    accuracy_percent, bucket_marker_ms, histogram, speed_curve, std_dev_centi, words_per_minute,
};

#[test]
fn bucket_edges() {
    assert_eq!(bucket_marker_ms(0, 0), 1000);
    assert_eq!(bucket_marker_ms(0, 5000), 1000);
    assert_eq!(bucket_marker_ms(500, 5000), 1000);
    assert_eq!(bucket_marker_ms(1000, 5000), 1000);
    assert_eq!(bucket_marker_ms(1001, 5000), 2000);
    assert_eq!(bucket_marker_ms(4500, 5999), 5000);
    assert_eq!(bucket_marker_ms(4500, 4200), 4200);
    assert_eq!(bucket_marker_ms(300, 700), 700);
}

#[test]
fn histogram_sorts_and_counts() {
    let h = histogram(vec![3000, 1000, 3000, 2000, 3000]);
    assert_eq!(h, vec![(1000, 1), (2000, 1), (3000, 3)]);
    assert!(histogram(vec![]).is_empty());
}

#[test]
fn speed_curve_is_cumulative() {
    let c = speed_curve(&vec![(1000, 5), (2000, 5), (0, 1)]);
    assert_eq!(c, vec![(1000, 60_000), (2000, 60_000), (0, 0)]);
}

#[test]
fn deviation_examples() {
    assert_eq!(std_dev_centi(&vec![]), 0);
    assert_eq!(std_dev_centi(&vec![7]), 0);
    assert_eq!(std_dev_centi(&vec![2, 4, 4, 4, 5, 5, 7, 9]), 200);
    // 0.5 exactly
    assert_eq!(std_dev_centi(&vec![1, 2]), 50);
    // sqrt(2/9) = 0.4714
    assert_eq!(std_dev_centi(&vec![1, 2, 2]), 47);
}

#[test]
fn accuracy_rounding() {
    assert_eq!(accuracy_percent(0, 0), 0);
    assert_eq!(accuracy_percent(11, 13), 85);
    assert_eq!(accuracy_percent(1, 2), 50);
    assert_eq!(accuracy_percent(1, 8), 13);
    assert_eq!(accuracy_percent(5, 5), 100);
}

#[test]
fn wpm_rounds_up() {
    assert_eq!(words_per_minute(3, 1000), 180);
    assert_eq!(words_per_minute(3, 1003), 180);
    assert_eq!(words_per_minute(3, 3000), 60);
    assert_eq!(words_per_minute(1, 7000), 9);
    assert_eq!(words_per_minute(5, 0), 0);
}
