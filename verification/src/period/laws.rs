//! Laws of the engine as a whole.

use vstd::prelude::*;

use super::classify::{
    classified, classify_day, end_of, gap, lemma_classified_low, lemma_classified_unknown,
    start_of, within, DataPoint, LOWER_BAND_TENTHS, RISE_TENTHS, UPPER_BAND_TENTHS,
};
use super::daily::{
    daily, day_of, days_from, distinct_ascending, insert_distinct, lemma_daily_within, quarter,
    reference_temperature, temperatures, total, window_len, DayReference,
};
use super::normal_f64::ONE_DEGREE;
use super::scan::{
    first_rise, lemma_scan_low_days, lemma_scan_unknown_days, peek, scan_from, scanned, step,
    trend, trend_pair, Trend,
};
use super::store::{
    as_map, collated, in_batch, lemma_as_map_contents, lemma_ascending_unique, lemma_collated,
    lemma_collated_members, sample_of, single_valued, upsert, Sample,
};
use super::{period_segments, Period, PeriodStage, Record, DAY};

verus! {

/// Two batches hold the same readings: each time and temperature of one
/// occurs in the other, in whatever order and however often.
pub open spec fn same_readings(a: Seq<Record>, b: Seq<Record>) -> bool {
    &&& forall|i: int| 0 <= i < a.len() ==> in_batch(b, sample_of(#[trigger] a[i]))
    &&& forall|j: int| 0 <= j < b.len() ==> in_batch(a, sample_of(#[trigger] b[j]))
}

/// No timestamp of the batch comes with two different temperatures.
pub open spec fn one_temperature_per_timestamp(a: Seq<Record>) -> bool {
    forall|i: int, j: int|
        0 <= i < a.len() && 0 <= j < a.len() && (#[trigger] a[i]).timestamp == (
        #[trigger] a[j]).timestamp ==> a[i].temperature@ == a[j].temperature@
}

/// The order of the readings in a batch, and how often a reading is
/// repeated, makes no difference: two batches that hold the same readings,
/// each timestamp with one temperature, yield the same segments.
pub proof fn lemma_input_order_is_immaterial(a: Seq<Record>, b: Seq<Record>, base: i64)
    requires
        same_readings(a, b),
        one_temperature_per_timestamp(a),
    ensures
        collated(a) == collated(b),
        period_segments(a, base) == period_segments(b, base),
{
    let sa = a.map_values(|r: Record| sample_of(r));
    let sb = b.map_values(|r: Record| sample_of(r));
    assert(single_valued(sa)) by {
        assert forall|i: int, j: int|
            0 <= i < sa.len() && 0 <= j < sa.len() && sa[i].timestamp
                == sa[j].timestamp implies sa[i].temperature == sa[j].temperature by {
            assert(a[i].timestamp == a[j].timestamp);
        }
    }
    assert(single_valued(sb)) by {
        assert forall|i: int, j: int|
            0 <= i < sb.len() && 0 <= j < sb.len() && sb[i].timestamp
                == sb[j].timestamp implies sb[i].temperature == sb[j].temperature by {
            assert(in_batch(a, sample_of(b[i])));
            assert(in_batch(a, sample_of(b[j])));
            let x = choose|x: int| 0 <= x < a.len() && sample_of(#[trigger] a[x]) == sample_of(b[i]);
            let y = choose|y: int| 0 <= y < a.len() && sample_of(#[trigger] a[y]) == sample_of(b[j]);
            assert(a[x].timestamp == a[y].timestamp);
        }
    }
    lemma_as_map_contents(sa);
    lemma_as_map_contents(sb);
    assert forall|t: u128| as_map(sa).contains_key(t) implies as_map(sb).contains_key(t)
        && as_map(sb)[t] == as_map(sa)[t] by {
        let i = choose|i: int| 0 <= i < sa.len() && sa[i].timestamp == t;
        assert(in_batch(b, sample_of(a[i])));
        let j = choose|j: int| 0 <= j < b.len() && sample_of(#[trigger] b[j]) == sample_of(a[i]);
        assert(sb[j].timestamp == t);
        assert(as_map(sb)[sb[j].timestamp] == sb[j].temperature);
        assert(as_map(sa)[sa[i].timestamp] == sa[i].temperature);
    }
    assert forall|t: u128| as_map(sb).contains_key(t) implies as_map(sa).contains_key(t) by {
        let j = choose|j: int| 0 <= j < sb.len() && sb[j].timestamp == t;
        assert(in_batch(a, sample_of(b[j])));
        let i = choose|i: int| 0 <= i < a.len() && sample_of(#[trigger] a[i]) == sample_of(b[j]);
        assert(sa[i].timestamp == t);
    }
    assert(as_map(sa) =~= as_map(sb));
    lemma_collated(a);
    lemma_collated(b);
    lemma_ascending_unique(collated(a), collated(b));
}

/// A batch without readings yields no segment.
pub proof fn lemma_empty_batch(base: i64)
    ensures
        period_segments(Seq::empty(), base) == Seq::<Period>::empty(),
{
}

/// Whether a temperature makes a low day: at or below the baseline and
/// within the lower band of it.
pub open spec fn near_baseline(temperature: i64, base: i64) -> bool {
    temperature <= base && within(base - temperature, LOWER_BAND_TENTHS as int)
}

/// A single reading yields one pre-ovulation segment, from and to its own
/// time, when it makes a low day, and no segment when it does not.
pub proof fn lemma_single_reading(r: Record, base: i64)
    ensures
        period_segments(seq![r], base) == if near_baseline(r.temperature@, base) {
            seq![
                Period {
                    start_timestamp: r.timestamp,
                    end_timestamp: r.timestamp,
                    kind: PeriodStage::PreOvulation,
                },
            ]
        } else {
            Seq::empty()
        },
{
    let data = seq![r];
    let x = sample_of(r);
    let s = seq![x];
    assert(data.drop_last() =~= Seq::<Record>::empty());
    assert(collated(data.drop_last()) =~= Seq::<Sample>::empty());
    assert(collated(data) == upsert(Seq::<Sample>::empty(), x));
    assert(collated(data) =~= s);
    let limit = r.timestamp + DAY;
    assert(window_len(s, 1, limit) == 0);
    assert(window_len(s, 0, limit) == 1);
    let temps = temperatures(s, 0, 1);
    assert(temps =~= seq![x.temperature]);
    assert(temps.drop_last() =~= Seq::<i64>::empty());
    assert(distinct_ascending(temps.drop_last()) =~= Seq::<i64>::empty());
    assert(distinct_ascending(temps) == insert_distinct(Seq::<i64>::empty(), x.temperature));
    let distinct = seq![x.temperature];
    assert(distinct_ascending(temps) =~= distinct);
    assert(quarter(distinct.len()) == 1);
    assert(distinct.take(1) =~= distinct);
    assert(distinct.drop_last() =~= Seq::<i64>::empty());
    assert(total(distinct.drop_last()) == 0);
    assert(total(distinct) == x.temperature);
    assert(reference_temperature(temps) == x.temperature);
    let day = DayReference {
        start_timestamp: r.timestamp,
        end_timestamp: r.timestamp,
        temperature: x.temperature,
    };
    assert(day_of(s, 0, 1, r.timestamp as int) == day);
    assert(window_len(s, 1, limit + DAY) == 0);
    assert(days_from(s, 1, limit) =~= Seq::<DayReference>::empty());
    assert(days_from(s, 0, r.timestamp as int) =~= seq![day]);
    let days = seq![day];
    assert(daily(s) == days);
    assert(days.drop_last() =~= Seq::<DayReference>::empty());
    assert(classified(days.drop_last(), base) =~= Seq::<DataPoint>::empty());
    let kind = classify_day(None, day, base);
    assert(classified(days, base) =~= seq![kind]);
    let kinds = seq![kind];
    let st = step(kinds, 0, None, base);
    assert(st.advance >= 1);
    assert(scan_from(kinds, st.advance as int, None, base) =~= Seq::<Period>::empty());
    if near_baseline(x.temperature, base) {
        let p = Period {
            start_timestamp: r.timestamp,
            end_timestamp: r.timestamp,
            kind: PeriodStage::PreOvulation,
        };
        assert(st.segment == Some(p));
        assert(scan_from(kinds, st.advance as int, Some(p), base) =~= Seq::<Period>::empty());
        assert(scanned(kinds, base) =~= seq![p]);
    } else {
        assert(st.segment is None);
        assert(scanned(kinds, base) =~= Seq::<Period>::empty());
    }
}

/// Readings that all lie below the baseline, by no more than the lower
/// band, yield pre-ovulation segments and no others, and at least one.
pub proof fn lemma_readings_below_baseline(data: Seq<Record>, base: i64)
    requires
        data.len() >= 1,
        forall|i: int|
            0 <= i < data.len() ==> (#[trigger] data[i]).temperature@ < base && within(
                base - data[i].temperature@,
                LOWER_BAND_TENTHS as int,
            ),
    ensures
        period_segments(data, base).len() >= 1,
        forall|k: int|
            0 <= k < period_segments(data, base).len() ==> (#[trigger] period_segments(
                data,
                base,
            )[k]).kind == PeriodStage::PreOvulation,
{
    let s = collated(data);
    let band = (LOWER_BAND_TENTHS as int * ONE_DEGREE as int) / 10;
    assert(data[0].temperature@ < base);
    let lo = if base - band < i64::MIN {
        i64::MIN
    } else {
        (base - band) as i64
    };
    let hi = (base - 1) as i64;
    lemma_collated_members(data);
    assert forall|k: int| 0 <= k < s.len() implies lo <= (#[trigger] s[k]).temperature <= hi by {
        assert(in_batch(data, s[k]));
        let i = choose|i: int| 0 <= i < data.len() && sample_of(#[trigger] data[i]) == s[k];
        assert(data[i].temperature@ < base);
    }
    lemma_daily_within(s, lo, hi);
    let days = daily(s);
    assert forall|k: int| 0 <= k < days.len() implies (#[trigger] days[k]).temperature <= base
        && within(base - days[k].temperature, LOWER_BAND_TENTHS as int) by {
        assert(lo <= days[k].temperature <= hi);
    }
    lemma_classified_low(days, base);
    lemma_scan_low_days(classified(days, base), 0, None, base);
}

/// Readings that all lie at or above the baseline plus the upper band
/// yield no segment.
pub proof fn lemma_readings_above_upper_band(data: Seq<Record>, base: i64)
    requires
        forall|i: int|
            0 <= i < data.len() ==> 10 * ((#[trigger] data[i]).temperature@ - base)
                >= UPPER_BAND_TENTHS * ONE_DEGREE,
    ensures
        period_segments(data, base) == Seq::<Period>::empty(),
{
    let s = collated(data);
    if data.len() == 0 {
    } else {
        let band = (UPPER_BAND_TENTHS as int * ONE_DEGREE as int) / 10 + 1;
        assert(10 * (data[0].temperature@ - base) >= UPPER_BAND_TENTHS * ONE_DEGREE);
        let lo = (base + band) as i64;
        let hi = i64::MAX;
        lemma_collated_members(data);
        assert forall|k: int| 0 <= k < s.len() implies lo <= (#[trigger] s[k]).temperature
            <= hi by {
            assert(in_batch(data, s[k]));
            let i = choose|i: int| 0 <= i < data.len() && sample_of(#[trigger] data[i]) == s[k];
            assert(10 * (data[i].temperature@ - base) >= UPPER_BAND_TENTHS * ONE_DEGREE);
        }
        lemma_daily_within(s, lo, hi);
        let days = daily(s);
        assert forall|k: int| 0 <= k < days.len() implies (#[trigger] days[k]).temperature > base
            && !within(days[k].temperature - base, UPPER_BAND_TENTHS as int) by {
            assert(lo <= days[k].temperature <= hi);
        }
        lemma_classified_unknown(days, base);
        lemma_scan_unknown_days(classified(days, base), 0, None, base);
        assert(period_segments(data, base) =~= Seq::<Period>::empty());
    }
}

/// The segment of one day of the given stage.
pub open spec fn one_day(day: DataPoint, kind: PeriodStage) -> Period {
    Period { start_timestamp: start_of(day), end_timestamp: end_of(day), kind }
}

/// Three low days and then three days that each rise by more than the
/// least rise over the day before, each within one day-length of it, yield
/// three pre-ovulation segments and then one ovulation segment that spans
/// the three rising days.
pub proof fn lemma_low_days_then_rising_days(days: Seq<DataPoint>, base: i64)
    requires
        days.len() == 6,
        days[0] is Start,
        days[1] is Start,
        days[2] is Start,
        days[3] is MiddleUnchecked,
        days[4] is MiddleUnchecked,
        days[5] is MiddleUnchecked,
        days[4]->temperature > days[3]->temperature,
        days[5]->temperature > days[4]->temperature,
        !within(days[4]->temperature - days[3]->temperature, RISE_TENTHS as int),
        !within(days[5]->temperature - days[4]->temperature, RISE_TENTHS as int),
        end_of(days[4]) - end_of(days[3]) <= DAY,
        end_of(days[5]) - end_of(days[4]) <= DAY,
    ensures
        scanned(days, base) == seq![
            one_day(days[0], PeriodStage::PreOvulation),
            one_day(days[1], PeriodStage::PreOvulation),
            one_day(days[2], PeriodStage::PreOvulation),
            Period {
                start_timestamp: start_of(days[3]),
                end_timestamp: end_of(days[5]),
                kind: PeriodStage::Ovulation,
            },
        ],
{
    let p0 = one_day(days[0], PeriodStage::PreOvulation);
    let p1 = one_day(days[1], PeriodStage::PreOvulation);
    let p2 = one_day(days[2], PeriodStage::PreOvulation);
    let p3 = Period {
        start_timestamp: start_of(days[3]),
        end_timestamp: end_of(days[5]),
        kind: PeriodStage::Ovulation,
    };
    assert(step(days, 0, None, base).segment == Some(p0));
    assert(step(days, 1, Some(p0), base).segment == Some(p1));
    assert(step(days, 2, Some(p1), base).segment == Some(p2));
    let t0 = Trend { growth: 0, same: 0, end: end_of(days[3]) };
    let t1 = Trend { growth: 1, same: 0, end: end_of(days[4]) };
    let t2 = Trend { growth: 2, same: 0, end: end_of(days[5]) };
    assert(peek(days, 3, t0.end) == Some((end_of(days[3]), days[3]->temperature)));
    assert(peek(days, 4, end_of(days[3])) == Some((end_of(days[4]), days[4]->temperature)));
    assert(trend_pair(days, 3, t0) == Some(t1));
    assert(peek(days, 4, t1.end) == Some((end_of(days[4]), days[4]->temperature)));
    assert(peek(days, 5, end_of(days[4])) == Some((end_of(days[5]), days[5]->temperature)));
    assert(trend_pair(days, 4, t1) == Some(t2));
    assert(peek(days, 6, end_of(days[5])) is None);
    assert(trend_pair(days, 5, t2) is None);
    assert(trend(days, 3, end_of(days[3])) == t2);
    assert(first_rise(days, 3, start_of(days[3]), end_of(days[3])).segment == Some(p3));
    assert(step(days, 3, Some(p2), base).segment == Some(p3));
    assert(step(days, 3, Some(p2), base).advance == 3);
    assert(scan_from(days, 6, Some(p3), base) =~= Seq::<Period>::empty());
    assert(scan_from(days, 3, Some(p2), base) =~= seq![p3]);
    assert(scan_from(days, 2, Some(p1), base) =~= seq![p2, p3]);
    assert(scan_from(days, 1, Some(p0), base) =~= seq![p1, p2, p3]);
    assert(scan_from(days, 0, None, base) =~= seq![p0, p1, p2, p3]);
}

/// Three days of steady temperature above the baseline, each within one
/// day-length of the day before, and then a day at or below the baseline
/// that ends within one day-length of the last of them, yield one
/// post-ovulation segment that spans the three days and then the start of
/// the period.
pub proof fn lemma_steady_days_then_drop(days: Seq<DataPoint>, base: i64)
    requires
        days.len() == 4,
        days[0] is MiddleUnchecked,
        days[1] is MiddleUnchecked,
        days[2] is MiddleUnchecked,
        days[3] is Start || days[3] is End,
        within(gap(days[1]->temperature, days[0]->temperature), RISE_TENTHS as int),
        within(gap(days[2]->temperature, days[1]->temperature), RISE_TENTHS as int),
        end_of(days[1]) - end_of(days[0]) <= DAY,
        end_of(days[2]) - end_of(days[1]) <= DAY,
        end_of(days[3]) - end_of(days[2]) <= DAY,
    ensures
        scanned(days, base) == seq![
            Period {
                start_timestamp: start_of(days[0]),
                end_timestamp: end_of(days[2]),
                kind: PeriodStage::PostOvulation,
            },
            one_day(days[3], PeriodStage::PeriodStart),
        ],
{
    let p0 = Period {
        start_timestamp: start_of(days[0]),
        end_timestamp: end_of(days[2]),
        kind: PeriodStage::PostOvulation,
    };
    let p1 = one_day(days[3], PeriodStage::PeriodStart);
    let t0 = Trend { growth: 0, same: 0, end: end_of(days[0]) };
    let t1 = Trend { growth: 0, same: 1, end: end_of(days[1]) };
    let t2 = Trend { growth: 0, same: 2, end: end_of(days[2]) };
    assert(peek(days, 0, t0.end) == Some((end_of(days[0]), days[0]->temperature)));
    assert(peek(days, 1, end_of(days[0])) == Some((end_of(days[1]), days[1]->temperature)));
    assert(trend_pair(days, 0, t0) == Some(t1));
    assert(peek(days, 1, t1.end) == Some((end_of(days[1]), days[1]->temperature)));
    assert(peek(days, 2, end_of(days[1])) == Some((end_of(days[2]), days[2]->temperature)));
    assert(trend_pair(days, 1, t1) == Some(t2));
    assert(peek(days, 3, end_of(days[2])) is None);
    assert(trend_pair(days, 2, t2) is None);
    assert(trend(days, 0, end_of(days[0])) == t2);
    assert(first_rise(days, 0, start_of(days[0]), end_of(days[0])).segment == Some(p0));
    assert(step(days, 0, None, base).segment == Some(p0));
    assert(step(days, 0, None, base).advance == 3);
    assert(step(days, 3, Some(p0), base).segment == Some(p1));
    assert(scan_from(days, 4, Some(p1), base) =~= Seq::<Period>::empty());
    assert(scan_from(days, 3, Some(p0), base) =~= seq![p1]);
    assert(scan_from(days, 0, None, base) =~= seq![p0, p1]);
}

} // verus!
