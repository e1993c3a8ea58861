use gitfetch::contribution_analyzer::{bucket_index, calculate_contribution_ranges};
use gitfetch::date::Date;

const DEFAULT_PERCENTILES: [usize; 4] = [0, 30, 60, 90];

fn series(counts: &[u32]) -> Vec<(Date, u32)> {
    counts
        .iter()
        .enumerate()
        .map(|(i, &count)| (Date { days_from_ce: 738_000 + i as i32 }, count))
        .collect()
}

#[test]
fn empty_series_has_fallback_ranges() {
    let ranges = calculate_contribution_ranges(&[], &DEFAULT_PERCENTILES);
    assert_eq!(ranges, vec![0, 1, 2, 3, 4]);
}

#[test]
fn all_zero_series_has_fallback_ranges() {
    let ranges = calculate_contribution_ranges(&series(&[0, 0, 0, 0, 0, 0, 0]), &DEFAULT_PERCENTILES);
    assert_eq!(ranges, vec![0, 1, 2, 3, 4]);
}

#[test]
fn uniform_series_collapses_to_one_value() {
    let ranges = calculate_contribution_ranges(&series(&[5; 10]), &DEFAULT_PERCENTILES);
    assert_eq!(ranges, vec![0, 5, 5, 5, 5]);
}

#[test]
fn ranges_follow_percentiles_of_sorted_counts() {
    // Sorted: 1..=10. Q1 = 3, Q3 = 8, threshold = round(8 + 7.5) = 16.
    // Percentiles 30, 60, 90 read positions 3, 6, 9: 4, 7, 10.
    let ranges = calculate_contribution_ranges(
        &series(&[10, 0, 3, 7, 1, 9, 0, 2, 8, 4, 6, 5]),
        &DEFAULT_PERCENTILES,
    );
    assert_eq!(ranges, vec![0, 4, 7, 10, 10]);
}

#[test]
fn ranges_are_five_non_decreasing_values_from_zero() {
    let inputs: [&[u32]; 5] = [
        &[1],
        &[3, 1, 2],
        &[0, 0, 7, 0, 2, 2, 2, 9, 11],
        &[100, 1, 1, 1, 1, 1, 1, 1],
        &[4_294_967_295, 4_294_967_295, 1],
    ];
    for counts in inputs {
        let ranges = calculate_contribution_ranges(&series(counts), &DEFAULT_PERCENTILES);
        assert_eq!(ranges.len(), 5);
        assert_eq!(ranges[0], 0);
        for i in 0..4 {
            assert!(ranges[i] <= ranges[i + 1]);
        }
    }
}

#[test]
fn sparse_series_pads_with_repeated_maximum() {
    let ranges = calculate_contribution_ranges(&series(&[0, 2, 0, 1]), &DEFAULT_PERCENTILES);
    assert_eq!(ranges, vec![0, 1, 2, 2, 2]);
}

#[test]
fn outlier_threshold_rounds_half_up() {
    // Sorted: 1, 2, 4, 5, 11, 12. Q1 = 2 (position 1), Q3 = 11 (position 4).
    // Threshold = round(11 + 1.5 * 9) = round(24.5) = 25: 25 stays, 26 goes.
    let kept = calculate_contribution_ranges(
        &series(&[1, 2, 4, 5, 11, 12, 25]),
        &[0, 0, 0, 100],
    );
    // Sorted: 1, 2, 4, 5, 11, 12, 25. Q1 = 2 (position 1), Q3 = 12
    // (position 5). Threshold = round(12 + 15) = 27.
    assert_eq!(kept, vec![0, 1, 25, 25, 25]);
    let ranges = calculate_contribution_ranges(&series(&[1, 2, 2, 2, 3, 3, 5]), &[0, 0, 0, 100]);
    // Q1 = 2, Q3 = 3 (position 5), threshold = round(3 + 1.5) = round(4.5)
    // = 5: the count 5 is retained.
    assert_eq!(ranges, vec![0, 1, 5, 5, 5]);
    let ranges = calculate_contribution_ranges(&series(&[1, 2, 2, 2, 3, 3, 6]), &[0, 0, 0, 100]);
    // The count 6 exceeds the threshold 5 and is set aside.
    assert_eq!(ranges, vec![0, 1, 3, 3, 3]);
}

#[test]
fn outlier_is_excluded_from_ranges_but_lands_in_top_bucket() {
    let counts = [3, 5, 2, 8, 999, 4, 10, 1, 6, 7];
    let ranges = calculate_contribution_ranges(&series(&counts), &DEFAULT_PERCENTILES);
    // Sorted: 1 2 3 4 5 6 7 8 10 999. Q1 = 3, Q3 = 8, threshold = 16.
    // Retained: 1 2 3 4 5 6 7 8 10; percentiles read positions 2, 5, 8.
    assert_eq!(ranges, vec![0, 3, 6, 10, 10]);
    assert_eq!(bucket_index(999, &ranges), 4);
}

#[test]
fn percentile_beyond_hundred_reads_the_maximum() {
    let ranges = calculate_contribution_ranges(&series(&[1, 2, 3, 4]), &[0, 50, 1000, usize::MAX]);
    // Retained: 1 2 3 4. Percentile 50 reads position 2: 3. The larger
    // ones are held at the last position: 4.
    assert_eq!(ranges, vec![0, 3, 4, 4, 4]);
}

#[test]
fn bucket_of_zero_is_zero() {
    assert_eq!(bucket_index(0, &[0, 1, 2, 3, 4]), 0);
    assert_eq!(bucket_index(0, &[0, 5, 5, 5, 5]), 0);
}

#[test]
fn bucket_is_lowest_threshold_not_exceeded() {
    let thresholds = [0, 2, 4, 6, 8];
    assert_eq!(bucket_index(1, &thresholds), 1);
    assert_eq!(bucket_index(2, &thresholds), 1);
    assert_eq!(bucket_index(3, &thresholds), 2);
    assert_eq!(bucket_index(4, &thresholds), 2);
    assert_eq!(bucket_index(5, &thresholds), 3);
    assert_eq!(bucket_index(6, &thresholds), 3);
    assert_eq!(bucket_index(7, &thresholds), 4);
    assert_eq!(bucket_index(8, &thresholds), 4);
    assert_eq!(bucket_index(9, &thresholds), 4);
}

#[test]
fn bucket_with_collapsed_thresholds_is_the_lower_one() {
    let thresholds = [0, 5, 5, 5, 5];
    assert_eq!(bucket_index(5, &thresholds), 1);
    assert_eq!(bucket_index(4, &thresholds), 1);
    assert_eq!(bucket_index(6, &thresholds), 4);
}
