use health_metrics::period::classify::{
    classify_days, classify_one, DataPoint, LOWER_BAND_TENTHS, RISE_TENTHS, UPPER_BAND_TENTHS,
};
use health_metrics::period::daily::{
    daily_references, distinct_values, lowest_quarter_mean, DayReference,
};
use health_metrics::period::scan::scan_phases;
use health_metrics::period::store::{collate, Sample};
use health_metrics::period::{NormalF64, Period, PeriodStage, Record, DAY};

const ONE: i64 = 1 << 48;
const TENTH: i64 = ONE / 10;
const BASE: i64 = 73 << 47;

fn reading(value: f64, timestamp: u128) -> Record {
    Record {
        temperature: NormalF64::try_new(value.to_bits()).unwrap(),
        heart_rate_variability: 0,
        timestamp,
    }
}

fn sample(timestamp: u128, temperature: i64) -> Sample {
    Sample { timestamp, temperature }
}

fn day(n: u128, temperature: i64) -> DayReference {
    DayReference { start_timestamp: n * DAY, end_timestamp: n * DAY + 5, temperature }
}

fn low(n: u128) -> DataPoint {
    DataPoint::Start { start_timestamp: n * DAY, end_timestamp: n * DAY + 5 }
}

fn rise(n: u128, temperature: i64) -> DataPoint {
    DataPoint::MiddleUnchecked {
        start_timestamp: n * DAY,
        end_timestamp: n * DAY + 5,
        temperature,
    }
}

fn end(n: u128) -> DataPoint {
    DataPoint::End { start_timestamp: n * DAY, end_timestamp: n * DAY + 5 }
}

fn segment(from: u128, to: u128, kind: PeriodStage) -> Period {
    Period { start_timestamp: from * DAY, end_timestamp: to * DAY + 5, kind }
}

#[test]
fn constants_are_the_documented_ones() {
    assert_eq!(DAY, 86_400 * 1_000_000_000);
    assert_eq!(RISE_TENTHS, 1);
    assert_eq!(LOWER_BAND_TENTHS, 3);
    assert_eq!(UPPER_BAND_TENTHS, 7);
}

#[test]
fn collate_orders_by_time() {
    let store = collate(&vec![reading(36.5, 30), reading(36.25, 10), reading(37.0, 20)]);
    assert_eq!(
        store,
        vec![sample(10, 145 << 46), sample(20, 37 << 48), sample(30, 73 << 47)]
    );
}

#[test]
fn collate_keeps_the_last_reading_of_a_timestamp() {
    let store = collate(&vec![
        reading(36.5, 10),
        reading(36.0, 20),
        reading(37.0, 10),
        reading(38.0, 5),
        reading(36.25, 10),
    ]);
    assert_eq!(
        store,
        vec![sample(5, 38 << 48), sample(10, 145 << 46), sample(20, 36 << 48)]
    );
}

#[test]
fn collate_of_a_large_shuffled_batch_is_in_order_with_the_last_readings() {
    let n: u128 = 20_000;
    // every timestamp twice: first with a temperature to be overridden
    let mut records: Vec<Record> = (0..n).map(|t| reading(40.0, t)).collect();
    let mut state: u64 = 12345;
    for i in (1..records.len()).rev() {
        state = state.wrapping_mul(6364136223846793005).wrapping_add(1442695040888963407);
        records.swap(i, (state >> 33) as usize % (i + 1));
    }
    let mut later: Vec<Record> = (0..n).map(|t| reading(36.0 + (t % 8) as f64 * 0.125, t)).collect();
    for i in (1..later.len()).rev() {
        state = state.wrapping_mul(6364136223846793005).wrapping_add(1442695040888963407);
        later.swap(i, (state >> 33) as usize % (i + 1));
    }
    records.extend(later);
    let store = collate(&records);
    let expected: Vec<Sample> =
        (0..n).map(|t| sample(t, (36 << 48) + (t % 8) as i64 * (1 << 45))).collect();
    assert_eq!(store, expected);
}

#[test]
fn collate_of_nothing_is_empty() {
    assert!(collate(&vec![]).is_empty());
}

#[test]
fn distinct_values_are_ascending_and_each_once() {
    assert_eq!(distinct_values(&vec![]), Vec::<i64>::new());
    assert_eq!(distinct_values(&vec![7]), vec![7]);
    assert_eq!(distinct_values(&vec![7, 7, 7]), vec![7]);
    assert_eq!(distinct_values(&vec![3, -1, 3, 2, -1, 5, 2]), vec![-1, 2, 3, 5]);
    assert_eq!(
        distinct_values(&vec![i64::MAX, 0, i64::MIN, 0, i64::MAX]),
        vec![i64::MIN, 0, i64::MAX]
    );
    let many: Vec<i64> = (0..30_000).rev().map(|k| k % 10_007).collect();
    assert_eq!(distinct_values(&many), (0..10_007).collect::<Vec<i64>>());
}

#[test]
fn lowest_quarter_mean_of_few_values_is_the_lowest() {
    assert_eq!(lowest_quarter_mean(&vec![5]), 5);
    assert_eq!(lowest_quarter_mean(&vec![30, 10, 20]), 10);
    assert_eq!(lowest_quarter_mean(&vec![7, 6, 5, 4, 3, 2, 1]), 1);
}

#[test]
fn lowest_quarter_mean_averages_a_quarter_of_the_distinct_values() {
    // eight distinct values: the two lowest, 10 and 20
    assert_eq!(lowest_quarter_mean(&vec![80, 70, 60, 50, 40, 30, 20, 10]), 15);
    // twelve distinct values: the three lowest, 1, 2 and 6
    assert_eq!(lowest_quarter_mean(&vec![1, 2, 6, 10, 11, 12, 13, 14, 15, 16, 17, 18]), 3);
}

#[test]
fn lowest_quarter_mean_counts_each_value_once() {
    // eight readings but four distinct values: a quarter of four is one
    assert_eq!(lowest_quarter_mean(&vec![10, 10, 20, 20, 30, 30, 40, 40]), 10);
    // nine readings, eight distinct values
    assert_eq!(lowest_quarter_mean(&vec![10, 10, 20, 30, 40, 50, 60, 70, 80]), 15);
}

#[test]
fn lowest_quarter_mean_rounds_down() {
    assert_eq!(lowest_quarter_mean(&vec![10, 13, 30, 40, 50, 60, 70, 80]), 11);
    assert_eq!(lowest_quarter_mean(&vec![-13, -10, 30, 40, 50, 60, 70, 80]), -12);
    assert_eq!(lowest_quarter_mean(&vec![-1, 0, 30, 40, 50, 60, 70, 80]), -1);
    assert_eq!(lowest_quarter_mean(&vec![-2, 0, 30, 40, 50, 60, 70, 80]), -1);
}

#[test]
fn lowest_quarter_mean_holds_the_ends_of_the_range() {
    assert_eq!(lowest_quarter_mean(&vec![i64::MAX, i64::MAX]), i64::MAX);
    assert_eq!(lowest_quarter_mean(&vec![i64::MIN, i64::MAX]), i64::MIN);
    let mut many = vec![i64::MIN, i64::MIN + 1];
    many.extend((0..6).map(|k| i64::MAX - k));
    assert_eq!(lowest_quarter_mean(&many), i64::MIN);
}

#[test]
fn daily_references_lays_windows_from_the_first_sample() {
    let store = vec![
        sample(100, 50),
        sample(100 + DAY - 1, 40),
        sample(100 + DAY, 30),
        sample(100 + 2 * DAY + 7, 20),
    ];
    assert_eq!(
        daily_references(&store),
        vec![
            DayReference { start_timestamp: 100, end_timestamp: 100 + DAY - 1, temperature: 40 },
            DayReference {
                start_timestamp: 100 + DAY,
                end_timestamp: 100 + DAY,
                temperature: 30
            },
            DayReference {
                start_timestamp: 100 + 2 * DAY,
                end_timestamp: 100 + 2 * DAY + 7,
                temperature: 20
            },
        ]
    );
}

#[test]
fn daily_references_stops_at_the_first_day_without_a_sample() {
    let store = vec![sample(0, 50), sample(DAY, 40), sample(3 * DAY, 30), sample(4 * DAY, 20)];
    assert_eq!(
        daily_references(&store),
        vec![
            DayReference { start_timestamp: 0, end_timestamp: 0, temperature: 50 },
            DayReference { start_timestamp: DAY, end_timestamp: DAY, temperature: 40 },
        ]
    );
}

#[test]
fn daily_references_of_an_empty_store_is_empty() {
    assert!(daily_references(&vec![]).is_empty());
}

#[test]
fn daily_references_at_the_end_of_time() {
    let store = vec![sample(u128::MAX - 10, 50), sample(u128::MAX, 40)];
    assert_eq!(
        daily_references(&store),
        vec![DayReference {
            start_timestamp: u128::MAX - 10,
            end_timestamp: u128::MAX,
            temperature: 40
        }]
    );
}

#[test]
fn classify_at_or_below_the_baseline() {
    let in_band = 3 * ONE / 10;
    assert_eq!(classify_one(None, day(0, BASE), BASE), low(0));
    assert_eq!(classify_one(None, day(0, BASE - in_band), BASE), low(0));
    assert_eq!(classify_one(None, day(0, BASE - in_band - 1), BASE), end(0));
    assert_eq!(classify_one(None, day(0, i64::MIN), BASE), end(0));
}

#[test]
fn classify_above_the_baseline() {
    let in_band = 7 * ONE / 10;
    assert_eq!(classify_one(None, day(0, BASE + 1), BASE), rise(0, BASE + 1));
    assert_eq!(classify_one(None, day(0, BASE + in_band), BASE), rise(0, BASE + in_band));
    assert_eq!(
        classify_one(None, day(0, BASE + in_band + 1), BASE),
        DataPoint::UnknownOrCorruptedData
    );
    assert_eq!(classify_one(None, day(0, i64::MAX), BASE), DataPoint::UnknownOrCorruptedData);
    assert_eq!(classify_one(None, day(0, i64::MAX), i64::MIN), DataPoint::UnknownOrCorruptedData);
}

#[test]
fn classify_does_not_continue_a_rise_into_the_next_window() {
    // the day before ended before this day's window opened
    let before = Some(rise(0, BASE + TENTH));
    assert_eq!(classify_one(before, day(1, BASE - TENTH), BASE), low(1));
    assert_eq!(classify_one(before, day(1, BASE - ONE), BASE), end(1));
}

#[test]
fn classify_continues_a_rise_that_reaches_into_the_window() {
    let before = Some(DataPoint::MiddleUnchecked {
        start_timestamp: 0,
        end_timestamp: DAY,
        temperature: BASE + TENTH,
    });
    assert_eq!(classify_one(before, day(1, BASE - TENTH), BASE), rise(1, BASE - TENTH));
    assert_eq!(classify_one(before, day(1, BASE - ONE), BASE), rise(1, BASE - ONE));
    // a day above the baseline is judged by the bands alone
    assert_eq!(classify_one(before, day(1, BASE + ONE), BASE), DataPoint::UnknownOrCorruptedData);
    // only a rise is continued
    let before = Some(DataPoint::Start { start_timestamp: 0, end_timestamp: DAY });
    assert_eq!(classify_one(before, day(1, BASE - ONE), BASE), end(1));
}

#[test]
fn classify_days_judges_each_day_after_the_one_before() {
    let days = vec![
        day(0, BASE - TENTH),
        day(1, BASE + 2 * TENTH),
        day(2, BASE - ONE),
        day(3, BASE + ONE),
        day(4, BASE),
    ];
    assert_eq!(
        classify_days(&days, BASE),
        vec![
            low(0),
            rise(1, BASE + 2 * TENTH),
            end(2),
            DataPoint::UnknownOrCorruptedData,
            low(4),
        ]
    );
    assert!(classify_days(&vec![], BASE).is_empty());
}

#[test]
fn scan_low_days_are_pre_ovulation() {
    assert_eq!(
        scan_phases(&vec![low(0), low(1), DataPoint::UnknownOrCorruptedData, low(3)], BASE),
        vec![
            segment(0, 0, PeriodStage::PreOvulation),
            segment(1, 1, PeriodStage::PreOvulation),
            segment(3, 3, PeriodStage::PreOvulation),
        ]
    );
}

#[test]
fn scan_two_rises_confirm_ovulation() {
    let t = BASE + TENTH;
    let days = vec![rise(0, t), rise(1, t + 2 * TENTH), rise(2, t + 4 * TENTH)];
    assert_eq!(scan_phases(&days, BASE), vec![segment(0, 2, PeriodStage::Ovulation)]);
}

#[test]
fn scan_a_rise_of_exactly_the_least_rise_is_a_plateau() {
    let t = BASE + TENTH;
    // 10 * TENTH <= ONE: a change of TENTH steps is within a tenth of a degree
    let days = vec![rise(0, t), rise(1, t + TENTH), rise(2, t + 2 * TENTH)];
    assert_eq!(scan_phases(&days, BASE), vec![segment(0, 2, PeriodStage::PostOvulation)]);
    let days = vec![rise(0, t), rise(1, t + TENTH + 1), rise(2, t + 2 * TENTH + 2)];
    assert_eq!(scan_phases(&days, BASE), vec![segment(0, 2, PeriodStage::Ovulation)]);
}

#[test]
fn scan_two_plateaus_confirm_post_ovulation() {
    let t = BASE + 3 * TENTH;
    let days = vec![rise(0, t), rise(1, t), rise(2, t - TENTH)];
    assert_eq!(scan_phases(&days, BASE), vec![segment(0, 2, PeriodStage::PostOvulation)]);
}

#[test]
fn scan_one_rise_and_one_plateau_confirm_nothing() {
    let t = BASE + TENTH;
    let days = vec![rise(0, t), rise(1, t + 2 * TENTH), rise(2, t + 2 * TENTH)];
    assert_eq!(scan_phases(&days, BASE), vec![]);
}

#[test]
fn scan_a_fall_counts_as_neither() {
    let t = BASE + 5 * TENTH;
    // pairs: fall, plateau, plateau
    let days = vec![rise(0, t), rise(1, t - 3 * TENTH), rise(2, t - 3 * TENTH), rise(3, t - 3 * TENTH)];
    assert_eq!(
        scan_phases(&days, BASE),
        vec![
            segment(0, 3, PeriodStage::PostOvulation),
            segment(3, 3, PeriodStage::PostOvulation),
        ]
    );
}

#[test]
fn scan_the_look_ahead_takes_three_pairs_and_resumes_three_days_on() {
    let t = BASE + TENTH;
    let days = vec![
        rise(0, t),
        rise(1, t + 2 * TENTH),
        rise(2, t + 4 * TENTH),
        rise(3, t + 6 * TENTH),
        low(4),
    ];
    // the segment reaches to day 3; the scan resumes at day 3, where the
    // two days needed after a confirmed ovulation are missing
    assert_eq!(
        scan_phases(&days, BASE),
        vec![segment(0, 3, PeriodStage::Ovulation), segment(4, 4, PeriodStage::Ovulation)]
    );
}

#[test]
fn scan_the_look_ahead_stops_at_a_day_that_is_no_rise() {
    let t = BASE + TENTH;
    let days = vec![rise(0, t), low(1), rise(2, t), rise(3, t), rise(4, t)];
    assert_eq!(
        scan_phases(&days, BASE),
        vec![
            segment(1, 1, PeriodStage::PreOvulation),
            segment(2, 4, PeriodStage::PostOvulation),
        ]
    );
}

#[test]
fn scan_the_look_ahead_stops_at_a_gap_of_more_than_a_day() {
    let t = BASE + TENTH;
    let far = DataPoint::MiddleUnchecked {
        start_timestamp: DAY,
        end_timestamp: 5 + DAY + 1,
        temperature: t,
    };
    let near = DataPoint::MiddleUnchecked {
        start_timestamp: DAY,
        end_timestamp: 5 + DAY,
        temperature: t,
    };
    assert_eq!(scan_phases(&vec![rise(0, t), far, rise(2, t)], BASE), vec![]);
    assert_eq!(
        scan_phases(&vec![rise(0, t), near, rise(2, t)], BASE),
        vec![segment(0, 2, PeriodStage::PostOvulation)]
    );
}

#[test]
fn scan_after_ovulation_two_steady_days_confirm_post_ovulation() {
    let t = BASE + TENTH;
    let high = t + 5 * TENTH;
    let days = vec![
        rise(0, t),
        rise(1, t + 2 * TENTH),
        rise(2, t + 4 * TENTH),
        rise(3, high),
        rise(4, high),
        rise(5, high - TENTH),
        low(6),
    ];
    // the third pair of the look ahead, a change of a tenth, moves the end on to day 3
    assert_eq!(
        scan_phases(&days, BASE),
        vec![
            segment(0, 3, PeriodStage::Ovulation),
            segment(3, 5, PeriodStage::PostOvulation),
            segment(6, 6, PeriodStage::PeriodStart),
        ]
    );
}

#[test]
fn scan_after_ovulation_a_further_rise_is_ovulation_still() {
    let t = BASE + TENTH;
    let days = vec![
        rise(0, t),
        rise(1, t + 2 * TENTH),
        rise(2, t + 4 * TENTH),
        rise(3, t + 2 * TENTH),
        rise(4, t + 5 * TENTH),
        rise(5, t + 5 * TENTH),
    ];
    // day 3: the next day differs by more than the least rise, the two after agree
    // day 4: the next day agrees, but there is no second day
    assert_eq!(
        scan_phases(&days, BASE),
        vec![segment(0, 2, PeriodStage::Ovulation), segment(3, 3, PeriodStage::Ovulation)]
    );
}

#[test]
fn scan_after_ovulation_an_unsteady_day_is_passed_by() {
    let t = BASE + TENTH;
    let days = vec![
        rise(0, t),
        rise(1, t + 2 * TENTH),
        rise(2, t + 4 * TENTH),
        rise(3, t + 4 * TENTH),
        rise(4, t + 4 * TENTH),
        rise(5, t + 6 * TENTH),
    ];
    // the third pair of the look ahead is a plateau and moves the end on to day 3
    // day 3: the first day after agrees, the second does not
    // day 4: the next day differs, and there is no second day
    assert_eq!(scan_phases(&days, BASE), vec![segment(0, 3, PeriodStage::Ovulation)]);
}

#[test]
fn scan_after_ovulation_a_low_day_repeats_the_stage() {
    let t = BASE + TENTH;
    let days = vec![rise(0, t), rise(1, t + 2 * TENTH), rise(2, t + 4 * TENTH), low(3), end(4)];
    assert_eq!(
        scan_phases(&days, BASE),
        vec![segment(0, 2, PeriodStage::Ovulation), segment(3, 3, PeriodStage::Ovulation)]
    );
}

#[test]
fn scan_after_post_ovulation_a_steady_run_is_one_segment() {
    let t = BASE + 3 * TENTH;
    let days = vec![
        rise(0, t),
        rise(1, t),
        rise(2, t),
        rise(3, t + TENTH),
        rise(4, t),
        rise(5, t + 2 * TENTH),
        rise(6, t + 2 * TENTH + 1),
        rise(7, t + 4 * TENTH),
        low(8),
    ];
    // days 4 and 5 stay within the least rise of day 3; day 6 does not, by one step
    assert_eq!(
        scan_phases(&days, BASE),
        vec![
            segment(0, 3, PeriodStage::PostOvulation),
            segment(3, 5, PeriodStage::PostOvulation),
            segment(6, 6, PeriodStage::PostOvulation),
            segment(7, 7, PeriodStage::PostOvulation),
            segment(8, 8, PeriodStage::PeriodStart),
        ]
    );
}

#[test]
fn scan_after_post_ovulation_the_run_is_not_bound_to_neighbouring_days() {
    let t = BASE + 3 * TENTH;
    let days = vec![rise(0, t), rise(1, t), rise(2, t), rise(3, t), rise(9, t)];
    assert_eq!(
        scan_phases(&days, BASE),
        vec![segment(0, 3, PeriodStage::PostOvulation), segment(3, 9, PeriodStage::PostOvulation)]
    );
}

#[test]
fn scan_a_low_day_after_post_ovulation_starts_the_period_within_a_day() {
    let t = BASE + 3 * TENTH;
    let within = DataPoint::Start { start_timestamp: 3 * DAY, end_timestamp: 3 * DAY + 5 };
    let later = DataPoint::Start { start_timestamp: 3 * DAY, end_timestamp: 3 * DAY + 6 };
    assert_eq!(
        scan_phases(&vec![rise(0, t), rise(1, t), rise(2, t), within, low(4)], BASE),
        vec![
            segment(0, 2, PeriodStage::PostOvulation),
            segment(3, 3, PeriodStage::PeriodStart),
            segment(4, 4, PeriodStage::PreOvulation),
        ]
    );
    assert_eq!(
        scan_phases(&vec![rise(0, t), rise(1, t), rise(2, t), later], BASE),
        vec![
            segment(0, 2, PeriodStage::PostOvulation),
            Period {
                start_timestamp: 3 * DAY,
                end_timestamp: 3 * DAY + 6,
                kind: PeriodStage::PreOvulation
            },
        ]
    );
}

#[test]
fn scan_an_end_day_after_post_ovulation_starts_the_period_within_a_day() {
    let t = BASE + 3 * TENTH;
    assert_eq!(
        scan_phases(&vec![rise(0, t), rise(1, t), rise(2, t), end(3), end(4)], BASE),
        vec![segment(0, 2, PeriodStage::PostOvulation), segment(3, 3, PeriodStage::PeriodStart)]
    );
    assert_eq!(
        scan_phases(&vec![rise(0, t), rise(1, t), rise(2, t), end(4)], BASE),
        vec![segment(0, 2, PeriodStage::PostOvulation)]
    );
}

#[test]
fn scan_an_end_day_alone_confirms_nothing() {
    assert_eq!(scan_phases(&vec![end(0)], BASE), vec![]);
    assert_eq!(scan_phases(&vec![low(0), end(1), end(2)], BASE), vec![
        segment(0, 0, PeriodStage::PreOvulation)
    ]);
}

#[test]
fn scan_an_end_day_before_two_low_rises_starts_the_period() {
    let below = BASE - TENTH;
    let above = BASE + TENTH;
    // two of the three days after the end day are rises at or below the baseline
    assert_eq!(
        scan_phases(&vec![end(0), rise(1, above), rise(2, BASE), rise(3, below)], BASE),
        vec![segment(0, 0, PeriodStage::PeriodStart), segment(1, 3, PeriodStage::PostOvulation)]
    );
    // one is not enough
    assert_eq!(
        scan_phases(&vec![end(0), rise(1, above), rise(2, above), rise(3, below)], BASE),
        vec![]
    );
    // the fourth day after does not count
    assert_eq!(
        scan_phases(
            &vec![end(0), DataPoint::UnknownOrCorruptedData, rise(2, above), rise(3, below), rise(4, below)],
            BASE
        ),
        vec![]
    );
    // the day itself does not count
    assert_eq!(
        scan_phases(&vec![end(0), rise(1, below), DataPoint::UnknownOrCorruptedData], BASE),
        vec![]
    );
}

#[test]
fn scan_unknown_days_are_passed_by_without_effect() {
    let t = BASE + 3 * TENTH;
    let days = vec![
        DataPoint::UnknownOrCorruptedData,
        rise(1, t),
        rise(2, t),
        rise(3, t),
        DataPoint::UnknownOrCorruptedData,
        low(5),
    ];
    assert_eq!(
        scan_phases(&days, BASE),
        vec![
            segment(1, 3, PeriodStage::PostOvulation),
            segment(5, 5, PeriodStage::PreOvulation),
        ]
    );
    assert_eq!(scan_phases(&vec![], BASE), vec![]);
    assert_eq!(scan_phases(&vec![DataPoint::UnknownOrCorruptedData], BASE), vec![]);
}

#[test]
fn scan_takes_days_out_of_order_without_failing() {
    let t = BASE + 3 * TENTH;
    let days = vec![rise(9, t), rise(3, t), rise(0, t), low(1)];
    assert_eq!(
        scan_phases(&days, BASE),
        vec![
            Period {
                start_timestamp: 9 * DAY,
                end_timestamp: 5,
                kind: PeriodStage::PostOvulation
            },
            segment(1, 1, PeriodStage::PeriodStart),
        ]
    );
}
