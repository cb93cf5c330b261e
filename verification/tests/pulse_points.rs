use health_metrics::activity_duration::pulse_points::{
    category_time, PulseRateCategory, PulseRecord,
};
use health_metrics::activity_duration::{Activity, ActivityKind};

#[test]
fn category_of_each_zone() {
    assert_eq!(PulseRateCategory::from(ActivityKind::VO2), PulseRateCategory::High);
    assert_eq!(PulseRateCategory::from(ActivityKind::Anaerobic), PulseRateCategory::High);
    assert_eq!(PulseRateCategory::from(ActivityKind::Aerobic), PulseRateCategory::High);
    assert_eq!(PulseRateCategory::from(ActivityKind::FatBurn), PulseRateCategory::Medium);
    assert_eq!(PulseRateCategory::from(ActivityKind::WarmUp), PulseRateCategory::Medium);
    assert_eq!(PulseRateCategory::from(ActivityKind::Resting), PulseRateCategory::Low);
}

#[test]
fn pulse_record_from_a_pair_and_from_an_activity() {
    assert_eq!(
        PulseRecord::from((PulseRateCategory::Medium, 90)),
        PulseRecord { duration: 90, category: PulseRateCategory::Medium }
    );
    assert_eq!(
        PulseRecord::from(Activity { heart_rate: 150, kind: ActivityKind::Aerobic, duration: 42 }),
        PulseRecord { duration: 42, category: PulseRateCategory::High }
    );
}

#[test]
fn category_time_adds_up_the_records_of_the_category() {
    let records = vec![
        PulseRecord { duration: 10, category: PulseRateCategory::Low },
        PulseRecord { duration: 20, category: PulseRateCategory::High },
        PulseRecord { duration: 30, category: PulseRateCategory::Low },
        PulseRecord { duration: 40, category: PulseRateCategory::High },
        PulseRecord { duration: 50, category: PulseRateCategory::High },
    ];
    assert_eq!(category_time(&records, PulseRateCategory::Low), Some(40));
    assert_eq!(category_time(&records, PulseRateCategory::Medium), Some(0));
    assert_eq!(category_time(&records, PulseRateCategory::High), Some(110));
    assert_eq!(category_time(&vec![], PulseRateCategory::High), Some(0));
}

#[test]
fn category_time_tells_when_the_sum_is_too_large() {
    let records = vec![
        PulseRecord { duration: u128::MAX - 5, category: PulseRateCategory::Low },
        PulseRecord { duration: u128::MAX, category: PulseRateCategory::High },
        PulseRecord { duration: 5, category: PulseRateCategory::Low },
    ];
    assert_eq!(category_time(&records, PulseRateCategory::Low), Some(u128::MAX));
    assert_eq!(category_time(&records, PulseRateCategory::High), Some(u128::MAX));
    let mut more = records.clone();
    more.push(PulseRecord { duration: 1, category: PulseRateCategory::Low });
    more.push(PulseRecord { duration: 0, category: PulseRateCategory::High });
    assert_eq!(category_time(&more, PulseRateCategory::Low), None);
    assert_eq!(category_time(&more, PulseRateCategory::High), Some(u128::MAX));
}
