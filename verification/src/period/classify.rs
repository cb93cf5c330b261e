//! The day classifier: a provisional kind for each populated day.
//!
//! Each day is judged on its own reference temperature against the
//! baseline; only the kind given to the day before is looked at besides.

use vstd::prelude::*;

use super::daily::{consecutive, DayReference};
use super::normal_f64::ONE_DEGREE;
use super::DAY;

verus! {

/// The least rise, in tenths of a degree, that counts as a change of temperature.
pub const RISE_TENTHS: i64 = 1;

/// How far below the baseline, in tenths of a degree, a day still counts as near it.
pub const LOWER_BAND_TENTHS: i64 = 3;

/// How far above the baseline, in tenths of a degree, a rise is still taken
/// for one of the body and not for a fault of the sensor.
pub const UPPER_BAND_TENTHS: i64 = 7;

/// The provisional kind of a day.
#[derive(Clone, Copy, Debug, PartialEq, Eq, Structural)]
pub enum DataPoint {
    /// At or below the baseline and near it: a low-temperature day.
    Start { start_timestamp: u128, end_timestamp: u128 },
    /// Above the baseline within the upper band, or a dip inside such a run:
    /// a rise that is not confirmed yet.
    MiddleUnchecked { start_timestamp: u128, end_timestamp: u128, temperature: i64 },
    /// Below the baseline by more than the lower band.
    End { start_timestamp: u128, end_timestamp: u128 },
    /// Outside every band.
    UnknownOrCorruptedData,
}

/// The distance between two temperatures, in grid steps.
pub open spec fn gap(a: i64, b: i64) -> int {
    if a >= b {
        a - b
    } else {
        b - a
    }
}

/// Whether a distance in grid steps is at most the given tenths of a degree.
pub open spec fn within(distance: int, tenths: int) -> bool {
    10 * distance <= tenths * ONE_DEGREE
}

/// The kind of a day, given the kind of the day before it.
///
/// A day at or below the baseline continues an unconfirmed rise when the
/// day before is one and its last sample lies within one day-length of the
/// end of this day's window. Otherwise it is a low day when it is within
/// the lower band of the baseline, and an end when it is not. A day above
/// the baseline is an unconfirmed rise within the upper band and unknown
/// beyond it.
pub open spec fn classify_day(prev: Option<DataPoint>, day: DayReference, base: i64) -> DataPoint {
    let start_timestamp = day.start_timestamp;
    let end_timestamp = day.end_timestamp;
    let temperature = day.temperature;
    if temperature <= base {
        if prev matches Some(DataPoint::MiddleUnchecked { end_timestamp: prev_end, .. })
            && start_timestamp + DAY - prev_end <= DAY {
            DataPoint::MiddleUnchecked { start_timestamp, end_timestamp, temperature }
        } else if within(base - temperature, LOWER_BAND_TENTHS as int) {
            DataPoint::Start { start_timestamp, end_timestamp }
        } else {
            DataPoint::End { start_timestamp, end_timestamp }
        }
    } else if within(temperature - base, UPPER_BAND_TENTHS as int) {
        DataPoint::MiddleUnchecked { start_timestamp, end_timestamp, temperature }
    } else {
        DataPoint::UnknownOrCorruptedData
    }
}

/// The kinds of a series of days, each judged after the one before it.
pub open spec fn classified(days: Seq<DayReference>, base: i64) -> Seq<DataPoint>
    decreases days.len(),
{
    if days.len() == 0 {
        Seq::empty()
    } else {
        let before = classified(days.drop_last(), base);
        let prev = if before.len() > 0 {
            Some(before.last())
        } else {
            None
        };
        before.push(classify_day(prev, days.last(), base))
    }
}

/// One kind per day.
pub proof fn lemma_classified_len(days: Seq<DayReference>, base: i64)
    ensures
        classified(days, base).len() == days.len(),
    decreases days.len(),
{
    if days.len() > 0 {
        lemma_classified_len(days.drop_last(), base);
    }
}

/// Each kind is that of its day, judged after the kind before it.
pub proof fn lemma_classified_index(days: Seq<DayReference>, base: i64, k: int)
    requires
        0 <= k < days.len(),
    ensures
        classified(days, base).len() == days.len(),
        classified(days, base)[k] == classify_day(
            if k > 0 {
                Some(classified(days, base)[k - 1])
            } else {
                None
            },
            days[k],
            base,
        ),
    decreases days.len(),
{
    lemma_classified_len(days, base);
    lemma_classified_len(days.drop_last(), base);
    if k < days.len() - 1 {
        lemma_classified_index(days.drop_last(), base, k);
    }
}

/// The start of a day's window, for a kind that keeps it.
pub open spec fn start_of(p: DataPoint) -> u128 {
    match p {
        DataPoint::Start { start_timestamp, .. } => start_timestamp,
        DataPoint::MiddleUnchecked { start_timestamp, .. } => start_timestamp,
        DataPoint::End { start_timestamp, .. } => start_timestamp,
        DataPoint::UnknownOrCorruptedData => 0,
    }
}

/// The time of a day's last sample, for a kind that keeps it.
pub open spec fn end_of(p: DataPoint) -> u128 {
    match p {
        DataPoint::Start { end_timestamp, .. } => end_timestamp,
        DataPoint::MiddleUnchecked { end_timestamp, .. } => end_timestamp,
        DataPoint::End { end_timestamp, .. } => end_timestamp,
        DataPoint::UnknownOrCorruptedData => 0,
    }
}

/// Days in the order of time: among the days that keep their times, no day
/// starts before an earlier one, and none ends before it starts.
pub open spec fn ordered(kinds: Seq<DataPoint>) -> bool {
    forall|a: int, b: int|
        0 <= a <= b < kinds.len() && !(#[trigger] kinds[a] is UnknownOrCorruptedData) && !(
        #[trigger] kinds[b] is UnknownOrCorruptedData) ==> start_of(kinds[a]) <= start_of(kinds[b])
            <= end_of(kinds[b])
}

/// Among days that follow one another, a later day does not start earlier.
pub proof fn lemma_consecutive_monotone(days: Seq<DayReference>, a: int, b: int)
    requires
        consecutive(days),
        0 <= a <= b < days.len(),
    ensures
        days[a].start_timestamp <= days[b].start_timestamp,
    decreases b - a,
{
    if a < b {
        lemma_consecutive_monotone(days, a, b - 1);
        assert(days[b - 1 + 1].start_timestamp == days[b - 1].start_timestamp + DAY);
    }
}

/// The kinds of days that follow one another are in the order of time.
pub proof fn lemma_classified_ordered(days: Seq<DayReference>, base: i64)
    requires
        consecutive(days),
    ensures
        ordered(classified(days, base)),
{
    let kinds = classified(days, base);
    lemma_classified_len(days, base);
    assert forall|a: int, b: int|
        0 <= a <= b < kinds.len() && !(#[trigger] kinds[a] is UnknownOrCorruptedData) && !(
        #[trigger] kinds[b] is UnknownOrCorruptedData) implies start_of(kinds[a]) <= start_of(
        kinds[b],
    ) <= end_of(kinds[b]) by {
        lemma_classified_index(days, base, a);
        lemma_classified_index(days, base, b);
        lemma_consecutive_monotone(days, a, b);
        assert(days[b].start_timestamp <= days[b].end_timestamp);
    }
}

/// Among days that follow one another no rise is continued below the
/// baseline: the last sample of a day lies before the next window, so a
/// day at or below the baseline is a low day or an end, and every
/// unconfirmed rise lies above the baseline.
pub proof fn lemma_classified_rises(days: Seq<DayReference>, base: i64, k: int)
    requires
        consecutive(days),
        0 <= k < days.len(),
    ensures
        classified(days, base)[k] matches DataPoint::MiddleUnchecked { temperature, .. }
            ==> temperature > base,
{
    lemma_classified_index(days, base, k);
    if k > 0 {
        lemma_classified_index(days, base, k - 1);
        assert(days[k - 1 + 1].start_timestamp == days[k - 1].start_timestamp + DAY);
        assert(days[k - 1].end_timestamp < days[k - 1].start_timestamp + DAY);
    }
}

/// Days at or below the baseline and within the lower band of it are all low days.
pub proof fn lemma_classified_low(days: Seq<DayReference>, base: i64)
    requires
        forall|k: int|
            0 <= k < days.len() ==> (#[trigger] days[k]).temperature <= base && within(
                base - days[k].temperature,
                LOWER_BAND_TENTHS as int,
            ),
    ensures
        classified(days, base).len() == days.len(),
        forall|k: int| 0 <= k < days.len() ==> #[trigger] classified(days, base)[k] is Start,
    decreases days.len(),
{
    lemma_classified_len(days, base);
    if days.len() > 0 {
        let d = days.drop_last();
        assert forall|k: int| 0 <= k < d.len() implies (#[trigger] d[k]).temperature <= base
            && within(base - d[k].temperature, LOWER_BAND_TENTHS as int) by {
            assert(d[k] == days[k]);
        }
        lemma_classified_low(d, base);
        let before = classified(d, base);
        assert(days.last() == days[days.len() - 1]);
        if before.len() > 0 {
            assert(before[before.len() - 1] is Start);
        }
        assert forall|k: int| 0 <= k < days.len() implies #[trigger] classified(
            days,
            base,
        )[k] is Start by {
            if k < days.len() - 1 {
                assert(classified(days, base)[k] == before[k]);
            }
        }
    }
}

/// Days above the upper band are all unknown.
pub proof fn lemma_classified_unknown(days: Seq<DayReference>, base: i64)
    requires
        forall|k: int|
            0 <= k < days.len() ==> (#[trigger] days[k]).temperature > base && !within(
                days[k].temperature - base,
                UPPER_BAND_TENTHS as int,
            ),
    ensures
        classified(days, base).len() == days.len(),
        forall|k: int|
            0 <= k < days.len() ==> #[trigger] classified(days, base)[k] is UnknownOrCorruptedData,
    decreases days.len(),
{
    lemma_classified_len(days, base);
    if days.len() > 0 {
        let d = days.drop_last();
        assert forall|k: int| 0 <= k < d.len() implies (#[trigger] d[k]).temperature > base
            && !within(d[k].temperature - base, UPPER_BAND_TENTHS as int) by {
            assert(d[k] == days[k]);
        }
        lemma_classified_unknown(d, base);
        let before = classified(d, base);
        assert(days.last() == days[days.len() - 1]);
        assert forall|k: int| 0 <= k < days.len() implies #[trigger] classified(
            days,
            base,
        )[k] is UnknownOrCorruptedData by {
            if k < days.len() - 1 {
                assert(classified(days, base)[k] == before[k]);
            }
        }
    }
}

/// Whether two temperatures lie within the given tenths of a degree of each other.
pub(crate) fn apart_within(a: i64, b: i64, tenths: i64) -> (r: bool)
    requires
        0 <= tenths <= 10,
    ensures
        r == within(gap(a, b), tenths as int),
{
    let distance: i128 = if a >= b {
        a as i128 - b as i128
    } else {
        b as i128 - a as i128
    };
    assert(0 <= tenths * ONE_DEGREE <= 10 * 0x1_0000_0000_0000) by (nonlinear_arith)
        requires
            0 <= tenths <= 10,
            ONE_DEGREE == 0x1_0000_0000_0000,
    ;
    10 * distance <= (tenths as i128) * (ONE_DEGREE as i128)
}

/// Classifies one day, given the kind of the day before it.
pub fn classify_one(prev: Option<DataPoint>, day: DayReference, base: i64) -> (kind: DataPoint)
    ensures
        kind == classify_day(prev, day, base),
{
    let start_timestamp = day.start_timestamp;
    let end_timestamp = day.end_timestamp;
    let temperature = day.temperature;
    if temperature <= base {
        let continues = match prev {
            Some(DataPoint::MiddleUnchecked { end_timestamp: prev_end, .. }) => start_timestamp
                <= prev_end,
            _ => false,
        };
        if continues {
            DataPoint::MiddleUnchecked { start_timestamp, end_timestamp, temperature }
        } else if apart_within(base, temperature, LOWER_BAND_TENTHS) {
            DataPoint::Start { start_timestamp, end_timestamp }
        } else {
            DataPoint::End { start_timestamp, end_timestamp }
        }
    } else if apart_within(temperature, base, UPPER_BAND_TENTHS) {
        DataPoint::MiddleUnchecked { start_timestamp, end_timestamp, temperature }
    } else {
        DataPoint::UnknownOrCorruptedData
    }
}

/// Classifies a series of days against the baseline.
///
/// The kinds of days that follow one another are in the order of time.
pub fn classify_days(days: &Vec<DayReference>, base: i64) -> (kinds: Vec<DataPoint>)
    ensures
        kinds@ == classified(days@, base),
        kinds@.len() == days@.len(),
        consecutive(days@) ==> ordered(kinds@),
{
    proof {
        if consecutive(days@) {
            lemma_classified_ordered(days@, base);
        }
    }
    let mut kinds: Vec<DataPoint> = Vec::new();
    let mut i: usize = 0;
    while i < days.len()
        invariant
            i <= days.len(),
            kinds@ == classified(days@.take(i as int), base),
            kinds@.len() == i,
        decreases days.len() - i,
    {
        let prev = if i > 0 {
            Some(kinds[i - 1])
        } else {
            None
        };
        proof {
            assert(days@.take(i + 1).drop_last() =~= days@.take(i as int));
        }
        let kind = classify_one(prev, days[i], base);
        kinds.push(kind);
        i = i + 1;
    }
    proof {
        assert(days@.take(i as int) =~= days@);
    }
    kinds
}

} // verus!
