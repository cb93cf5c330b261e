use std::time::Duration;

use health_metrics::activity_duration::{heart_activity, ActivityKind, ActivityRecord, Report};

fn secs(s: u64) -> u128 {
    Duration::from_secs(s).as_nanos()
}

fn report_of(data: Vec<(Duration, u8)>, age: u8, rhr: u8) -> Report {
    heart_activity(
        data.into_iter()
            .map(|(timestamp, heart_rate)| ActivityRecord::from((timestamp.as_nanos(), heart_rate)))
            .collect(),
        age,
        rhr,
    )
}

#[test]
fn test_empty_input() {
    let report = heart_activity(vec![], 30, 60);
    assert_eq!(report.total_resting_duration, Duration::ZERO.as_nanos());
    assert_eq!(report.total_exercise_duration, Duration::ZERO.as_nanos());
    assert!(report.activity.is_empty());
}

#[test]
fn test_single_entry() {
    let report = report_of(vec![(Duration::from_secs(0), 70)], 30, 60);
    assert_eq!(report.total_resting_duration, Duration::ZERO.as_nanos());
    assert_eq!(report.total_exercise_duration, Duration::ZERO.as_nanos());
    assert!(report.activity.is_empty());
}

#[test]
fn test_all_resting() {
    let data = vec![
        (Duration::from_secs(0), 60),
        (Duration::from_secs(10), 61),
        (Duration::from_secs(20), 62),
    ];
    let report = report_of(data, 40, 60);
    assert_eq!(report.total_exercise_duration, Duration::ZERO.as_nanos());
    assert_eq!(report.total_resting_duration, Duration::from_secs(20).as_nanos());
    assert!(report
        .activity
        .iter()
        .all(|a| a.kind == ActivityKind::Resting));
}

#[test]
fn test_all_vo2() {
    let data = vec![
        (Duration::from_secs(0), 200),
        (Duration::from_secs(10), 201),
        (Duration::from_secs(20), 202),
    ];
    let report = report_of(data, 20, 60);
    assert_eq!(report.total_resting_duration, Duration::ZERO.as_nanos());
    assert_eq!(report.total_exercise_duration, Duration::from_secs(20).as_nanos());
    assert!(report.activity.iter().all(|a| a.kind == ActivityKind::VO2));
}

#[test]
fn test_mixed_zones() {
    let age = 30;
    let rhr = 60_f64;
    let mhr = 207.0 - (age as f64 * 0.7);
    let zones = [
        ((mhr - rhr) * 0.5 + rhr).floor() as u8,
        ((mhr - rhr) * 0.6 + rhr).floor() as u8,
        ((mhr - rhr) * 0.7 + rhr).floor() as u8,
        ((mhr - rhr) * 0.8 + rhr).floor() as u8,
        ((mhr - rhr) * 0.9 + rhr).floor() as u8,
    ];

    let data = vec![
        (Duration::from_secs(0), 59),
        (Duration::from_secs(10), zones[0]),
        (Duration::from_secs(20), zones[1]),
        (Duration::from_secs(30), zones[2]),
        (Duration::from_secs(40), zones[3]),
        (Duration::from_secs(50), zones[4]),
    ];
    let report = report_of(data.clone(), age, rhr as u8);

    let expected_kinds = [
        ActivityKind::Resting,
        ActivityKind::WarmUp,
        ActivityKind::FatBurn,
        ActivityKind::Aerobic,
        ActivityKind::Anaerobic,
        ActivityKind::VO2,
    ];
    for (activity, expected_kind) in report.activity.iter().zip(expected_kinds.iter()) {
        assert_eq!(&activity.kind, expected_kind);
    }

    let mut expected_rest = Duration::ZERO;
    let mut expected_ex = Duration::ZERO;
    for i in 0..data.len() - 1 {
        let kind = report.activity[i].kind;
        let diff = Duration::from_secs(10);
        if kind.is_exercising() {
            expected_ex += diff;
        } else {
            expected_rest += diff;
        }
    }
    assert_eq!(report.total_resting_duration, expected_rest.as_nanos());
    assert_eq!(report.total_exercise_duration, expected_ex.as_nanos());
}

#[test]
fn test_transition_between_zones() {
    let age = 25;
    let rhr = 55_f64;
    let mhr = 207.0 - (age as f64 * 0.7);
    let aerobic = ((mhr - rhr) * 0.7 + rhr).floor() as u8;
    let anaerobic = ((mhr - rhr) * 0.8 + rhr).floor() as u8;

    let data = vec![
        (Duration::from_secs(0), 54),
        (Duration::from_secs(10), aerobic),
        (Duration::from_secs(20), anaerobic),
        (Duration::from_secs(30), 54),
    ];
    let report = report_of(data, age, rhr as u8);

    assert_eq!(report.total_resting_duration, Duration::from_secs(10).as_nanos());
    assert_eq!(report.total_exercise_duration, Duration::from_secs(20).as_nanos());
    assert_eq!(report.activity[0].kind, ActivityKind::Resting);
    assert_eq!(report.activity[1].kind, ActivityKind::Aerobic);
    assert_eq!(report.activity[2].kind, ActivityKind::Anaerobic);
}

#[test]
fn test_non_monotonic_timestamps() {
    let age = 35;
    let rhr = 65;
    let data = vec![
        (Duration::from_secs(20), 80),
        (Duration::from_secs(0), 60),
        (Duration::from_secs(10), 70),
    ];
    let report = report_of(data, age, rhr);
    assert_eq!(report.activity.len(), 2);
}

#[test]
fn test_large_dataset() {
    let age = 28;
    let rhr = 58;
    let mut data = Vec::new();
    for i in 0..1000 {
        let hr = if i % 2 == 0 { 60 } else { 180 };
        data.push((Duration::from_secs(i), hr));
    }
    let report = report_of(data, age, rhr);
    assert_eq!(report.activity.len(), 999);
    assert_eq!(
        report.total_resting_duration + report.total_exercise_duration,
        Duration::from_secs(999).as_nanos()
    );
}

#[test]
fn heart_activity_orders_records_and_keeps_ties_in_input_order() {
    let report = report_of(
        vec![
            (Duration::from_secs(20), 80),
            (Duration::from_secs(10), 200),
            (Duration::from_secs(0), 60),
            (Duration::from_secs(10), 61),
        ],
        35,
        65,
    );
    let rates: Vec<u8> = report.activity.iter().map(|a| a.heart_rate).collect();
    assert_eq!(rates, vec![60, 200, 61]);
    let durations: Vec<u128> = report.activity.iter().map(|a| a.duration).collect();
    assert_eq!(durations, vec![secs(10), 0, secs(10)]);
    assert_eq!(report.total_exercise_duration, 0);
    assert_eq!(report.total_resting_duration, secs(20));
}

#[test]
fn heart_activity_of_a_large_batch_in_reverse_order() {
    let n: u64 = 50_000;
    let data: Vec<(Duration, u8)> =
        (0..n).rev().map(|i| (Duration::from_secs(i / 2), (i % 200) as u8)).collect();
    let report = report_of(data, 28, 58);
    assert_eq!(report.activity.len() as u64, n - 1);
    // two records share each second; of the two the odd one comes first in the batch
    for (k, activity) in report.activity.iter().enumerate() {
        let i = if k % 2 == 0 { k as u64 + 1 } else { k as u64 - 1 };
        assert_eq!(activity.heart_rate, (i % 200) as u8);
        assert_eq!(activity.duration, if k % 2 == 0 { 0 } else { secs(1) });
    }
    assert_eq!(
        report.total_resting_duration + report.total_exercise_duration,
        secs(n / 2 - 1)
    );
}

#[test]
fn from_rate_zone_edges_for_age_30_resting_60() {
    // reserve = 207 - 21 - 60 = 126; zone floors: 123, 135, 148, 160, 173
    assert_eq!(ActivityKind::from_rate(30, 60, 122), ActivityKind::Resting);
    assert_eq!(ActivityKind::from_rate(30, 60, 123), ActivityKind::WarmUp);
    assert_eq!(ActivityKind::from_rate(30, 60, 134), ActivityKind::WarmUp);
    assert_eq!(ActivityKind::from_rate(30, 60, 135), ActivityKind::FatBurn);
    assert_eq!(ActivityKind::from_rate(30, 60, 147), ActivityKind::FatBurn);
    assert_eq!(ActivityKind::from_rate(30, 60, 148), ActivityKind::Aerobic);
    assert_eq!(ActivityKind::from_rate(30, 60, 159), ActivityKind::Aerobic);
    assert_eq!(ActivityKind::from_rate(30, 60, 160), ActivityKind::Anaerobic);
    assert_eq!(ActivityKind::from_rate(30, 60, 172), ActivityKind::Anaerobic);
    assert_eq!(ActivityKind::from_rate(30, 60, 173), ActivityKind::VO2);
    assert_eq!(ActivityKind::from_rate(30, 60, 255), ActivityKind::VO2);
}

#[test]
fn from_rate_with_resting_rate_above_the_maximum() {
    // reserve = 207 - 178.5 - 255 = -226.5: the highest zone has the lowest floor,
    // 255 + floor(-203.85) = 51
    assert_eq!(ActivityKind::from_rate(255, 255, 0), ActivityKind::Resting);
    assert_eq!(ActivityKind::from_rate(255, 255, 50), ActivityKind::Resting);
    assert_eq!(ActivityKind::from_rate(255, 255, 51), ActivityKind::VO2);
    assert_eq!(ActivityKind::from_rate(255, 255, 141), ActivityKind::VO2);
}

#[test]
fn from_rate_where_double_precision_falls_short_of_a_whole_beat() {
    // 207 - 28 - 9 = 170, of which seven tenths are 119: the bound is 128 in exact
    // arithmetic and 127 in doubles
    assert_eq!(ActivityKind::from_rate(40, 9, 126), ActivityKind::FatBurn);
    assert_eq!(ActivityKind::from_rate(40, 9, 127), ActivityKind::Aerobic);
    assert_eq!(ActivityKind::from_rate(50, 2, 119), ActivityKind::FatBurn);
    assert_eq!(ActivityKind::from_rate(50, 2, 120), ActivityKind::Aerobic);
    // the neighbours are exact
    assert_eq!(ActivityKind::from_rate(40, 8, 126), ActivityKind::FatBurn);
    assert_eq!(ActivityKind::from_rate(40, 8, 127), ActivityKind::Aerobic);
    assert_eq!(ActivityKind::from_rate(40, 10, 127), ActivityKind::FatBurn);
    assert_eq!(ActivityKind::from_rate(40, 10, 128), ActivityKind::Aerobic);
}

#[test]
fn from_rate_agrees_with_double_precision_for_every_input() {
    for age in 0..=255u8 {
        for rhr in 0..=255u8 {
            let mhr = 207.0 - (age as f64 * 0.7);
            let resting = rhr as f64;
            let bound = |share: f64| (((mhr - resting) * share) + resting).floor();
            let bounds = [bound(0.9), bound(0.8), bound(0.7), bound(0.6), bound(0.5)];
            let kinds = [
                ActivityKind::VO2,
                ActivityKind::Anaerobic,
                ActivityKind::Aerobic,
                ActivityKind::FatBurn,
                ActivityKind::WarmUp,
            ];
            for rate in 0..=255u8 {
                let expected = (0..5)
                    .find(|&k| rate as f64 >= bounds[k])
                    .map(|k| kinds[k])
                    .unwrap_or(ActivityKind::Resting);
                assert_eq!(ActivityKind::from_rate(age, rhr, rate), expected, "{age} {rhr} {rate}");
            }
        }
    }
}

#[test]
fn is_exercising_from_aerobic_up() {
    assert!(ActivityKind::VO2.is_exercising());
    assert!(ActivityKind::Anaerobic.is_exercising());
    assert!(ActivityKind::Aerobic.is_exercising());
    assert!(!ActivityKind::FatBurn.is_exercising());
    assert!(!ActivityKind::WarmUp.is_exercising());
    assert!(!ActivityKind::Resting.is_exercising());
}
