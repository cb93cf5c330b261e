use health_metrics::steps::interpolation::{interpolation_grid, INTERPOLATION_TIME};
use health_metrics::steps::{time_threshold, DataPoint, TIME_THRESHOLD};

const MS: u128 = 1_000_000;

fn peak(magnitude: i64, millis: u128) -> DataPoint {
    DataPoint { magnitude: Some(magnitude), timestamp: millis * MS }
}

#[test]
fn least_time_between_steps_is_200_ms() {
    assert_eq!(TIME_THRESHOLD, 200 * MS);
}

#[test]
fn time_threshold_of_nothing_or_one_peak_is_empty() {
    assert_eq!(time_threshold(vec![]), vec![]);
    assert_eq!(time_threshold(vec![peak(1, 0)]), vec![]);
}

#[test]
fn time_threshold_keeps_peaks_more_than_the_least_time_after_the_current_one() {
    let input = vec![peak(1, 0), peak(1, 200), peak(1, 201), peak(1, 401), peak(1, 402)];
    assert_eq!(time_threshold(input), vec![peak(1, 201), peak(1, 402)]);
}

#[test]
fn time_threshold_measures_against_the_highest_peak_since_the_last_kept() {
    // the peak at 100 ms is higher than the first and becomes the one measured against
    let input = vec![peak(1, 0), peak(5, 100), peak(2, 250), peak(0, 300), peak(9, 301)];
    assert_eq!(time_threshold(input), vec![peak(9, 301)]);
    // without it the peak at 250 ms is kept
    let input = vec![peak(1, 0), peak(1, 100), peak(2, 250), peak(0, 300), peak(9, 301)];
    assert_eq!(time_threshold(input), vec![peak(2, 250)]);
}

#[test]
fn time_threshold_takes_a_magnitude_that_is_no_number_as_neither_higher_nor_lower() {
    let nan = |millis: u128| DataPoint { magnitude: None, timestamp: millis * MS };
    // no peak is higher than one that is no number
    assert_eq!(time_threshold(vec![nan(0), peak(5, 100), peak(1, 201)]), vec![peak(1, 201)]);
    // and one that is no number is not higher than any
    assert_eq!(time_threshold(vec![peak(5, 0), nan(100), peak(1, 201)]), vec![peak(1, 201)]);
    assert_eq!(time_threshold(vec![peak(5, 0), nan(100), peak(1, 250)]), vec![peak(1, 250)]);
    assert_eq!(time_threshold(vec![peak(5, 0), peak(6, 100), peak(1, 250)]), vec![]);
}

fn grid_of(millis: &[u128]) -> Vec<(usize, u128)> {
    interpolation_grid(&millis.iter().map(|t| t * MS).collect())
}

fn points(at: &[(usize, u128)]) -> Vec<(usize, u128)> {
    at.iter().map(|&(seg, millis)| (seg, millis * MS)).collect()
}

#[test]
fn grid_points_are_10_ms_apart() {
    assert_eq!(INTERPOLATION_TIME, 10 * MS);
}

#[test]
fn interpolation_grid_of_fewer_than_two_samples_is_empty() {
    assert_eq!(grid_of(&[]), vec![]);
    assert_eq!(grid_of(&[5]), vec![]);
    assert_eq!(grid_of(&[5, 5]), vec![]);
}

#[test]
fn interpolation_grid_counts_time_from_the_first_sample() {
    assert_eq!(grid_of(&[0, 25]), points(&[(0, 0), (0, 10)]));
    assert_eq!(grid_of(&[1000, 1025]), points(&[(0, 0), (0, 10)]));
    assert_eq!(grid_of(&[7, 17]), points(&[(0, 0)]));
    assert_eq!(grid_of(&[7, 16]), vec![]);
}

#[test]
fn interpolation_grid_of_evenly_spaced_samples() {
    let expected: Vec<(usize, u128)> = (0..12).map(|k| (k as usize / 4, k * 10 * MS)).collect();
    assert_eq!(grid_of(&[0, 40, 80, 120]), expected);
}

#[test]
fn interpolation_grid_stalls_where_a_point_falls_behind_its_stretch() {
    // the first stretch has room for two points; the point at 20 ms, which lies
    // in it, is never taken, and no later stretch holds it
    assert_eq!(grid_of(&[100, 125, 130, 160]), points(&[(0, 0), (0, 10)]));
    // with the second sample at 130 ms the first stretch takes all three
    assert_eq!(
        grid_of(&[100, 130, 160]),
        points(&[(0, 0), (0, 10), (0, 20), (1, 30), (1, 40), (1, 50)])
    );
}

#[test]
fn interpolation_grid_measures_room_in_whole_milliseconds() {
    // from 0 to 10.5 ms there is room for one point; the next stretch begins after
    // the point at 10 ms, which is never taken
    assert_eq!(interpolation_grid(&vec![0, 10_500_000, 21 * MS]), points(&[(0, 0)]));
    // from 0.9 ms to 10.1 ms lie ten whole milliseconds, but no point of the grid
    assert_eq!(interpolation_grid(&vec![0, 900_000, 10_100_000]), vec![]);
    // from 0 to 19.999999 ms there is room for one point only
    assert_eq!(interpolation_grid(&vec![0, 19_999_999, 40 * MS]), points(&[(0, 0)]));
}

#[test]
fn interpolation_grid_at_the_end_of_time() {
    assert_eq!(
        interpolation_grid(&vec![u128::MAX - 25 * MS, u128::MAX]),
        points(&[(0, 0), (0, 10)])
    );
    assert_eq!(interpolation_grid(&vec![0, 15 * MS]), points(&[(0, 0)]));
}
