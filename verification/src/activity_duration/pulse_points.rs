//! Heart-rate categories for the pulse-points score.

use vstd::prelude::*;

use super::{Activity, ActivityKind};

verus! {

/// How hard the heart works: the zones of a report in three classes.
#[derive(Clone, Copy, Debug, PartialEq, Eq, Structural)]
pub enum PulseRateCategory {
    Low,
    Medium,
    High,
}

/// The category of a zone: the zones of exercise are high, the light ones
/// medium, rest is low.
pub open spec fn category_of(kind: ActivityKind) -> PulseRateCategory {
    match kind {
        ActivityKind::VO2 | ActivityKind::Anaerobic | ActivityKind::Aerobic => {
            PulseRateCategory::High
        },
        ActivityKind::FatBurn | ActivityKind::WarmUp => PulseRateCategory::Medium,
        ActivityKind::Resting => PulseRateCategory::Low,
    }
}

impl vstd::std_specs::convert::FromSpecImpl<ActivityKind> for PulseRateCategory {
    open spec fn obeys_from_spec() -> bool {
        true
    }

    open spec fn from_spec(value: ActivityKind) -> Self {
        category_of(value)
    }
}

impl From<ActivityKind> for PulseRateCategory {
    fn from(value: ActivityKind) -> (category: Self) {
        match value {
            ActivityKind::VO2 | ActivityKind::Anaerobic | ActivityKind::Aerobic => {
                PulseRateCategory::High
            },
            ActivityKind::FatBurn | ActivityKind::WarmUp => PulseRateCategory::Medium,
            ActivityKind::Resting => PulseRateCategory::Low,
        }
    }
}

/// Time spent in one category, in nanoseconds.
#[derive(Clone, Copy, Debug, PartialEq, Eq, Structural)]
pub struct PulseRecord {
    pub duration: u128,
    pub category: PulseRateCategory,
}

impl vstd::std_specs::convert::FromSpecImpl<(PulseRateCategory, u128)> for PulseRecord {
    open spec fn obeys_from_spec() -> bool {
        true
    }

    open spec fn from_spec(pair: (PulseRateCategory, u128)) -> Self {
        PulseRecord { duration: pair.1, category: pair.0 }
    }
}

impl From<(PulseRateCategory, u128)> for PulseRecord {
    fn from(pair: (PulseRateCategory, u128)) -> (record: Self) {
        PulseRecord { duration: pair.1, category: pair.0 }
    }
}

impl vstd::std_specs::convert::FromSpecImpl<Activity> for PulseRecord {
    open spec fn obeys_from_spec() -> bool {
        true
    }

    open spec fn from_spec(activity: Activity) -> Self {
        PulseRecord {
            duration: activity.duration,
            category: category_of(activity.kind),
        }
    }
}

impl From<Activity> for PulseRecord {
    fn from(activity: Activity) -> (record: Self) {
        PulseRecord { duration: activity.duration, category: PulseRateCategory::from(activity.kind) }
    }
}

/// The time that the records of one category add up to.
pub open spec fn time_in(records: Seq<PulseRecord>, category: PulseRateCategory) -> int
    decreases records.len(),
{
    if records.len() == 0 {
        0
    } else {
        time_in(records.drop_last(), category) + if records.last().category == category {
            records.last().duration as int
        } else {
            0
        }
    }
}

/// The time of a category does not shrink as records are added.
pub proof fn lemma_time_in_grows(records: Seq<PulseRecord>, category: PulseRateCategory, n: int)
    requires
        0 <= n <= records.len(),
    ensures
        time_in(records.take(n), category) <= time_in(records, category),
    decreases records.len() - n,
{
    if n < records.len() {
        lemma_time_in_grows(records, category, n + 1);
        assert(records.take(n + 1).drop_last() =~= records.take(n));
    } else {
        assert(records.take(n) =~= records);
    }
}

/// Adds up the time of the records of one category, in nanoseconds, or
/// tells that the sum is too large to be held.
pub fn category_time(records: &Vec<PulseRecord>, category: PulseRateCategory) -> (total: Option<
    u128,
>)
    ensures
        match total {
            Some(t) => t == time_in(records@, category),
            None => time_in(records@, category) > u128::MAX,
        },
{
    let mut total: u128 = 0;
    let mut i: usize = 0;
    while i < records.len()
        invariant
            i <= records.len(),
            total == time_in(records@.take(i as int), category),
        decreases records.len() - i,
    {
        let record = records[i];
        proof {
            assert(records@.take(i + 1).drop_last() =~= records@.take(i as int));
        }
        if record.category == category {
            match total.checked_add(record.duration) {
                Some(sum) => {
                    total = sum;
                },
                None => {
                    proof {
                        lemma_time_in_grows(records@, category, i + 1);
                    }
                    return None;
                },
            }
        }
        i = i + 1;
    }
    proof {
        assert(records@.take(i as int) =~= records@);
    }
    Some(total)
}

} // verus!
