//! The phase scanner: from provisional day kinds to confirmed segments.
//!
//! The scanner walks the days with a cursor. At each day it looks at the
//! segment confirmed last and, for a rise, at up to three days ahead, and
//! then confirms a segment or passes the day by. It never fails: a day it
//! cannot judge yields no segment.

use vstd::prelude::*;

use super::classify::{
    apart_within, end_of, gap, ordered, start_of, within, DataPoint, RISE_TENTHS,
};
use super::{Period, PeriodStage, DAY};

verus! {

/// The end and the temperature of the day at index `at`, if that day is an
/// unconfirmed rise whose last sample lies within one day-length of `end`.
pub open spec fn peek(days: Seq<DataPoint>, at: int, end: u128) -> Option<(u128, i64)> {
    if 0 <= at < days.len() {
        match days[at] {
            DataPoint::MiddleUnchecked { end_timestamp, temperature, .. } => if end_timestamp - end
                <= DAY {
                Some((end_timestamp, temperature))
            } else {
                None
            },
            _ => None,
        }
    } else {
        None
    }
}

/// The stage of a low day that ends at `end`, after the segment confirmed last.
///
/// The first low day, and one after a pre-ovulation or period-start segment,
/// is pre-ovulation. After a post-ovulation segment it is the start of the
/// period when it ends within one day-length of that segment's end, and a
/// fresh pre-ovulation day when it ends later. After an ovulation segment
/// it repeats that stage.
pub open spec fn low_day_stage(last: Option<Period>, end: u128) -> PeriodStage {
    match last {
        None => PeriodStage::PreOvulation,
        Some(l) => match l.kind {
            PeriodStage::PreOvulation | PeriodStage::PeriodStart => PeriodStage::PreOvulation,
            PeriodStage::PostOvulation => if end - l.end_timestamp <= DAY {
                PeriodStage::PeriodStart
            } else {
                PeriodStage::PreOvulation
            },
            PeriodStage::Ovulation => PeriodStage::Ovulation,
        },
    }
}

/// What the scanner does at one day: the segment it confirms, if any, and
/// by how many days the cursor moves on.
pub struct Step {
    pub segment: Option<Period>,
    pub advance: nat,
}

/// A rise after a confirmed ovulation needs the next two days to confirm it.
///
/// Both must be unconfirmed rises, each within one day-length of the day
/// before. When both temperatures are within the least rise of this day's,
/// the three days are a post-ovulation segment. When the first differs from
/// this day's by more and the two agree with each other, this day alone is
/// an ovulation segment. In every other case the day is passed by.
pub open spec fn after_ovulation(
    days: Seq<DataPoint>,
    i: int,
    start: u128,
    end: u128,
    t: i64,
) -> Step {
    match peek(days, i + 1, end) {
        None => Step { segment: None, advance: 1 },
        Some((end1, t1)) => match peek(days, i + 2, end1) {
            None => Step { segment: None, advance: 1 },
            Some((end2, t2)) => if within(gap(t, t1), RISE_TENTHS as int) && within(
                gap(t, t2),
                RISE_TENTHS as int,
            ) {
                Step {
                    segment: Some(
                        Period {
                            start_timestamp: start,
                            end_timestamp: end2,
                            kind: PeriodStage::PostOvulation,
                        },
                    ),
                    advance: 3,
                }
            } else if !within(gap(t, t1), RISE_TENTHS as int) && within(
                gap(t1, t2),
                RISE_TENTHS as int,
            ) {
                Step {
                    segment: Some(
                        Period {
                            start_timestamp: start,
                            end_timestamp: end,
                            kind: PeriodStage::Ovulation,
                        },
                    ),
                    advance: 1,
                }
            } else {
                Step { segment: None, advance: 1 }
            },
        },
    }
}

/// How many days in a row, from index `at` on, are unconfirmed rises with a
/// temperature within the least rise of `t`.
pub open spec fn run_len(days: Seq<DataPoint>, at: int, t: i64) -> nat
    decreases days.len() - at,
{
    if 0 <= at < days.len() && (days[at] matches DataPoint::MiddleUnchecked { temperature, .. }
        && within(gap(temperature, t), RISE_TENTHS as int)) {
        1 + run_len(days, at + 1, t)
    } else {
        0
    }
}

/// The end of the day at index `at`, or `otherwise` where that day has none.
pub open spec fn end_at(days: Seq<DataPoint>, at: int, otherwise: u128) -> u128 {
    if 0 <= at < days.len() {
        match days[at] {
            DataPoint::Start { end_timestamp, .. } => end_timestamp,
            DataPoint::MiddleUnchecked { end_timestamp, .. } => end_timestamp,
            DataPoint::End { end_timestamp, .. } => end_timestamp,
            DataPoint::UnknownOrCorruptedData => otherwise,
        }
    } else {
        otherwise
    }
}

/// A rise after a confirmed post-ovulation segment extends that phase: the
/// day and the run of days after it whose temperatures stay within the
/// least rise of its own form one post-ovulation segment.
pub open spec fn after_post_ovulation(
    days: Seq<DataPoint>,
    i: int,
    start: u128,
    end: u128,
    t: i64,
) -> Step {
    let n = run_len(days, i + 1, t);
    Step {
        segment: Some(
            Period {
                start_timestamp: start,
                end_timestamp: end_at(days, i + n, end),
                kind: PeriodStage::PostOvulation,
            },
        ),
        advance: 1 + n,
    }
}

/// What a look ahead has found so far: rises, plateaus, and the end of the
/// last day that was counted.
pub struct Trend {
    pub growth: nat,
    pub same: nat,
    pub end: u128,
}

/// One pair of the look ahead: the days at `at` and `at + 1`, each an
/// unconfirmed rise within one day-length of the day before it. A rise of
/// more than the least rise counts as growth, a change within it as a
/// plateau, and either moves the end on; a fall counts as neither. Where a
/// day of the pair is missing the look ahead stops.
pub open spec fn trend_pair(days: Seq<DataPoint>, at: int, so_far: Trend) -> Option<Trend> {
    match peek(days, at, so_far.end) {
        None => None,
        Some((end0, t0)) => match peek(days, at + 1, end0) {
            None => None,
            Some((end1, t1)) => if t1 > t0 && !within(t1 - t0, RISE_TENTHS as int) {
                Some(Trend { growth: so_far.growth + 1, same: so_far.same, end: end1 })
            } else if within(gap(t1, t0), RISE_TENTHS as int) {
                Some(Trend { growth: so_far.growth, same: so_far.same + 1, end: end1 })
            } else {
                Some(so_far)
            },
        },
    }
}

/// The look ahead from the day at `i`: up to three pairs of neighbouring days.
pub open spec fn trend(days: Seq<DataPoint>, i: int, end: u128) -> Trend {
    let t0 = Trend { growth: 0, same: 0, end };
    match trend_pair(days, i, t0) {
        None => t0,
        Some(t1) => match trend_pair(days, i + 1, t1) {
            None => t1,
            Some(t2) => match trend_pair(days, i + 2, t2) {
                None => t2,
                Some(t3) => t3,
            },
        },
    }
}

/// A rise with no confirmed rise before it: two rises among the pairs ahead
/// confirm an ovulation segment, two plateaus a post-ovulation segment, each
/// up to the last day counted, and the scan resumes three days on. With
/// less the day is passed by.
pub open spec fn first_rise(days: Seq<DataPoint>, i: int, start: u128, end: u128) -> Step {
    let found = trend(days, i, end);
    if found.growth >= 2 {
        Step {
            segment: Some(
                Period {
                    start_timestamp: start,
                    end_timestamp: found.end,
                    kind: PeriodStage::Ovulation,
                },
            ),
            advance: 3,
        }
    } else if found.same >= 2 {
        Step {
            segment: Some(
                Period {
                    start_timestamp: start,
                    end_timestamp: found.end,
                    kind: PeriodStage::PostOvulation,
                },
            ),
            advance: 3,
        }
    } else {
        Step { segment: None, advance: 1 }
    }
}

/// Whether the day at index `at` is an unconfirmed rise at or below the baseline.
pub open spec fn low_rise(days: Seq<DataPoint>, at: int, base: i64) -> bool {
    0 <= at < days.len() && (days[at] matches DataPoint::MiddleUnchecked { temperature, .. }
        && temperature <= base)
}

/// How many of the three days after the day at `i` are unconfirmed rises
/// at or below the baseline.
pub open spec fn low_rises_ahead(days: Seq<DataPoint>, i: int, base: i64) -> nat {
    let a: nat = if low_rise(days, i + 1, base) {
        1
    } else {
        0
    };
    let b: nat = if low_rise(days, i + 2, base) {
        1
    } else {
        0
    };
    let c: nat = if low_rise(days, i + 3, base) {
        1
    } else {
        0
    };
    a + b + c
}

/// Whether an end day confirms the start of a period: it ends within one
/// day-length of the end of a post-ovulation segment confirmed last, or two
/// of the three days after it are unconfirmed rises at or below the baseline.
pub open spec fn confirms_period_start(
    days: Seq<DataPoint>,
    i: int,
    last: Option<Period>,
    end: u128,
    base: i64,
) -> bool {
    (last matches Some(l) && l.kind == PeriodStage::PostOvulation && end - l.end_timestamp <= DAY)
        || low_rises_ahead(days, i, base) >= 2
}

/// The scanner's step at the day at index `i`, after the segment confirmed last.
pub open spec fn step(days: Seq<DataPoint>, i: int, last: Option<Period>, base: i64) -> Step
    recommends
        0 <= i < days.len(),
{
    match days[i] {
        DataPoint::Start { start_timestamp, end_timestamp } => Step {
            segment: Some(
                Period { start_timestamp, end_timestamp, kind: low_day_stage(last, end_timestamp) },
            ),
            advance: 1,
        },
        DataPoint::MiddleUnchecked { start_timestamp, end_timestamp, temperature } => match last {
            Some(l) => match l.kind {
                PeriodStage::Ovulation => after_ovulation(
                    days,
                    i,
                    start_timestamp,
                    end_timestamp,
                    temperature,
                ),
                PeriodStage::PostOvulation => after_post_ovulation(
                    days,
                    i,
                    start_timestamp,
                    end_timestamp,
                    temperature,
                ),
                _ => first_rise(days, i, start_timestamp, end_timestamp),
            },
            None => first_rise(days, i, start_timestamp, end_timestamp),
        },
        DataPoint::End { start_timestamp, end_timestamp } => Step {
            segment: if confirms_period_start(days, i, last, end_timestamp, base) {
                Some(Period { start_timestamp, end_timestamp, kind: PeriodStage::PeriodStart })
            } else {
                None
            },
            advance: 1,
        },
        DataPoint::UnknownOrCorruptedData => Step { segment: None, advance: 1 },
    }
}

/// How many days are left from index `i` on.
pub open spec fn days_left(days: Seq<DataPoint>, i: int) -> nat {
    if i < days.len() {
        (days.len() - i) as nat
    } else {
        0
    }
}

/// The segments confirmed from the day at index `i` on, after the segment
/// confirmed last.
pub open spec fn scan_from(days: Seq<DataPoint>, i: int, last: Option<Period>, base: i64) -> Seq<
    Period,
>
    decreases days_left(days, i),
    via scan_from_terminates
{
    if 0 <= i < days.len() {
        let s = step(days, i, last, base);
        match s.segment {
            Some(p) => seq![p] + scan_from(days, i + s.advance, Some(p), base),
            None => scan_from(days, i + s.advance, last, base),
        }
    } else {
        Seq::empty()
    }
}

#[via_fn]
proof fn scan_from_terminates(days: Seq<DataPoint>, i: int, last: Option<Period>, base: i64) {
    lemma_step_advances(days, i, last, base);
}

/// The segments that a series of days yields.
pub open spec fn scanned(days: Seq<DataPoint>, base: i64) -> Seq<Period> {
    scan_from(days, 0, None, base)
}

/// Every step moves the cursor on.
pub proof fn lemma_step_advances(days: Seq<DataPoint>, i: int, last: Option<Period>, base: i64)
    ensures
        step(days, i, last, base).advance >= 1,
{
}

/// Every day of a run is an unconfirmed rise.
pub proof fn lemma_run_members(days: Seq<DataPoint>, at: int, t: i64)
    requires
        0 <= at,
    ensures
        at + run_len(days, at, t) <= days.len() || run_len(days, at, t) == 0,
        forall|k: int| at <= k < at + run_len(days, at, t) ==> #[trigger] days[k] is MiddleUnchecked,
    decreases days.len() - at,
{
    if at < days.len() && (days[at] matches DataPoint::MiddleUnchecked { temperature, .. }
        && within(gap(temperature, t), RISE_TENTHS as int)) {
        lemma_run_members(days, at + 1, t);
    }
}

/// Among days in the order of time, a pair of the look ahead does not move
/// the end back before the start of the day the look ahead began at.
proof fn lemma_trend_pair_end(days: Seq<DataPoint>, i: int, at: int, so_far: Trend)
    requires
        ordered(days),
        0 <= i <= at,
        i < days.len(),
        !(days[i] is UnknownOrCorruptedData),
        start_of(days[i]) <= so_far.end,
    ensures
        trend_pair(days, at, so_far) matches Some(found) ==> start_of(days[i]) <= found.end,
{
    if let Some((end0, t0)) = peek(days, at, so_far.end) {
        if let Some((end1, t1)) = peek(days, at + 1, end0) {
            assert(days[at + 1] is MiddleUnchecked);
            assert(start_of(days[i]) <= start_of(days[at + 1]) <= end_of(days[at + 1]));
        }
    }
}

/// Among days in the order of time, a segment that a step confirms does not
/// end before it starts.
pub proof fn lemma_step_in_order(days: Seq<DataPoint>, i: int, last: Option<Period>, base: i64)
    requires
        ordered(days),
        0 <= i < days.len(),
    ensures
        step(days, i, last, base).segment matches Some(p) ==> p.start_timestamp <= p.end_timestamp,
{
    match days[i] {
        DataPoint::Start { .. } => {
            assert(start_of(days[i]) <= end_of(days[i]));
        },
        DataPoint::End { .. } => {
            assert(start_of(days[i]) <= end_of(days[i]));
        },
        DataPoint::UnknownOrCorruptedData => {},
        DataPoint::MiddleUnchecked { start_timestamp, end_timestamp, temperature } => {
            assert(start_of(days[i]) <= end_of(days[i]));
            let rising = last matches Some(l) && l.kind == PeriodStage::Ovulation;
            let falling = last matches Some(l) && l.kind == PeriodStage::PostOvulation;
            if rising {
                if let Some((end1, t1)) = peek(days, i + 1, end_timestamp) {
                    if let Some((end2, t2)) = peek(days, i + 2, end1) {
                        assert(days[i + 2] is MiddleUnchecked);
                        assert(start_of(days[i]) <= start_of(days[i + 2]) <= end_of(days[i + 2]));
                    }
                }
            } else if falling {
                let n = run_len(days, i + 1, temperature);
                lemma_run_members(days, i + 1, temperature);
                if n > 0 {
                    assert(days[i + n] is MiddleUnchecked);
                    assert(start_of(days[i]) <= start_of(days[i + n]) <= end_of(days[i + n]));
                }
            } else {
                let t0 = Trend { growth: 0, same: 0, end: end_timestamp };
                lemma_trend_pair_end(days, i, i, t0);
                if let Some(t1) = trend_pair(days, i, t0) {
                    lemma_trend_pair_end(days, i, i + 1, t1);
                    if let Some(t2) = trend_pair(days, i + 1, t1) {
                        lemma_trend_pair_end(days, i, i + 2, t2);
                    }
                }
            }
        },
    }
}

/// Among days in the order of time, no confirmed segment ends before it starts.
pub proof fn lemma_scan_in_order(days: Seq<DataPoint>, i: int, last: Option<Period>, base: i64)
    requires
        ordered(days),
    ensures
        forall|k: int|
            0 <= k < scan_from(days, i, last, base).len() ==> (#[trigger] scan_from(
                days,
                i,
                last,
                base,
            )[k]).start_timestamp <= scan_from(days, i, last, base)[k].end_timestamp,
    decreases days_left(days, i),
{
    if 0 <= i < days.len() {
        let s = step(days, i, last, base);
        lemma_step_advances(days, i, last, base);
        lemma_step_in_order(days, i, last, base);
        match s.segment {
            Some(p) => {
                lemma_scan_in_order(days, i + s.advance, Some(p), base);
            },
            None => {
                lemma_scan_in_order(days, i + s.advance, last, base);
            },
        }
    }
}

/// Whether a segment starts with a day at index `i` or later.
pub open spec fn starts_from(days: Seq<DataPoint>, i: int, p: Period) -> bool {
    exists|j: int|
        i <= j < days.len() && !(#[trigger] days[j] is UnknownOrCorruptedData) && start_of(days[j])
            == p.start_timestamp
}

/// Every segment confirmed from the day at `i` on starts with one of those days.
pub proof fn lemma_scan_starts(days: Seq<DataPoint>, i: int, last: Option<Period>, base: i64)
    requires
        0 <= i,
    ensures
        forall|k: int|
            0 <= k < scan_from(days, i, last, base).len() ==> starts_from(
                days,
                i,
                #[trigger] scan_from(days, i, last, base)[k],
            ),
    decreases days_left(days, i),
{
    if i < days.len() {
        let s = step(days, i, last, base);
        lemma_step_advances(days, i, last, base);
        let next = i + s.advance;
        let after = match s.segment {
            Some(p) => Some(p),
            None => last,
        };
        lemma_scan_starts(days, next, after, base);
        let rest = scan_from(days, next, after, base);
        let all = scan_from(days, i, last, base);
        assert forall|k: int| 0 <= k < all.len() implies starts_from(days, i, #[trigger] all[k]) by {
            if s.segment is Some && k == 0 {
                assert(!(days[i] is UnknownOrCorruptedData));
                assert(start_of(days[i]) == all[0].start_timestamp);
            } else {
                let r = if s.segment is Some {
                    k - 1
                } else {
                    k
                };
                assert(all[k] == rest[r]);
                assert(starts_from(days, next, rest[r]));
                let j = choose|j: int|
                    next <= j < days.len() && !(#[trigger] days[j] is UnknownOrCorruptedData)
                        && start_of(days[j]) == rest[r].start_timestamp;
                assert(!(days[j] is UnknownOrCorruptedData));
            }
        }
    }
}

/// Among days in the order of time, the segments come in the order of time:
/// none starts before an earlier one.
pub proof fn lemma_scan_sorted(days: Seq<DataPoint>, i: int, last: Option<Period>, base: i64)
    requires
        ordered(days),
        0 <= i,
    ensures
        forall|k: int, l: int|
            0 <= k <= l < scan_from(days, i, last, base).len() ==> (#[trigger] scan_from(
                days,
                i,
                last,
                base,
            )[k]).start_timestamp <= (#[trigger] scan_from(days, i, last, base)[l]).start_timestamp,
    decreases days_left(days, i),
{
    if i < days.len() {
        let s = step(days, i, last, base);
        lemma_step_advances(days, i, last, base);
        let next = i + s.advance;
        let after = match s.segment {
            Some(p) => Some(p),
            None => last,
        };
        lemma_scan_sorted(days, next, after, base);
        lemma_scan_starts(days, next, after, base);
        let rest = scan_from(days, next, after, base);
        let all = scan_from(days, i, last, base);
        assert forall|k: int, l: int| 0 <= k <= l < all.len() implies (#[trigger] all[
            k
        ]).start_timestamp <= (#[trigger] all[l]).start_timestamp by {
            if s.segment is Some {
                if k == 0 && l > 0 {
                    assert(all[l] == rest[l - 1]);
                    assert(starts_from(days, next, rest[l - 1]));
                    let j = choose|j: int|
                        next <= j < days.len() && !(#[trigger] days[j] is UnknownOrCorruptedData)
                            && start_of(days[j]) == rest[l - 1].start_timestamp;
                    assert(!(days[i] is UnknownOrCorruptedData));
                    assert(start_of(days[i]) <= start_of(days[j]));
                } else if k > 0 {
                    assert(all[k] == rest[k - 1] && all[l] == rest[l - 1]);
                }
            } else {
                assert(all[k] == rest[k] && all[l] == rest[l]);
            }
        }
    }
}

/// Low days alone, with no rise confirmed before them, yield one
/// pre-ovulation segment each.
pub proof fn lemma_scan_low_days(days: Seq<DataPoint>, i: int, last: Option<Period>, base: i64)
    requires
        0 <= i,
        forall|k: int| 0 <= k < days.len() ==> #[trigger] days[k] is Start,
        last matches Some(l) ==> l.kind == PeriodStage::PreOvulation,
    ensures
        scan_from(days, i, last, base).len() == days_left(days, i),
        forall|k: int|
            0 <= k < scan_from(days, i, last, base).len() ==> (#[trigger] scan_from(
                days,
                i,
                last,
                base,
            )[k]).kind == PeriodStage::PreOvulation,
    decreases days_left(days, i),
{
    if i < days.len() {
        assert(days[i] is Start);
        let s = step(days, i, last, base);
        let p = s.segment->0;
        lemma_scan_low_days(days, i + 1, Some(p), base);
    }
}

/// Unknown days alone yield no segment.
pub proof fn lemma_scan_unknown_days(days: Seq<DataPoint>, i: int, last: Option<Period>, base: i64)
    requires
        0 <= i,
        forall|k: int| 0 <= k < days.len() ==> #[trigger] days[k] is UnknownOrCorruptedData,
    ensures
        scan_from(days, i, last, base).len() == 0,
    decreases days_left(days, i),
{
    if i < days.len() {
        assert(days[i] is UnknownOrCorruptedData);
        lemma_scan_unknown_days(days, i + 1, last, base);
    }
}

/// Looks `ahead` days past the day at `i` for an unconfirmed rise within one
/// day-length of `end`.
fn peek_ahead(days: &Vec<DataPoint>, i: usize, ahead: usize, end: u128) -> (found: Option<
    (u128, i64),
>)
    requires
        i < days.len(),
        ahead <= 3,
    ensures
        found == peek(days@, i + ahead, end),
{
    if ahead >= days.len() - i {
        return None;
    }
    match days[i + ahead] {
        DataPoint::MiddleUnchecked { end_timestamp, temperature, .. } => {
            if end_timestamp <= end || end_timestamp - end <= DAY {
                Some((end_timestamp, temperature))
            } else {
                None
            }
        },
        _ => None,
    }
}

/// Whether a day that ends at `end` ends within one day-length of the end
/// of a post-ovulation segment confirmed last.
fn follows_post_ovulation(last: Option<Period>, end: u128) -> (r: bool)
    ensures
        r == (last matches Some(l) && l.kind == PeriodStage::PostOvulation && end - l.end_timestamp
            <= DAY),
{
    match last {
        Some(l) => match l.kind {
            PeriodStage::PostOvulation => end <= l.end_timestamp || end - l.end_timestamp <= DAY,
            _ => false,
        },
        None => false,
    }
}

/// The step at a rise that follows a confirmed ovulation.
fn step_after_ovulation(days: &Vec<DataPoint>, i: usize, start: u128, end: u128, t: i64) -> (r: (
    Option<Period>,
    usize,
))
    requires
        i < days.len(),
    ensures
        r.0 == after_ovulation(days@, i as int, start, end, t).segment,
        r.1 == after_ovulation(days@, i as int, start, end, t).advance,
{
    let (end1, t1) = match peek_ahead(days, i, 1, end) {
        Some(found) => found,
        None => {
            return (None, 1);
        },
    };
    let (end2, t2) = match peek_ahead(days, i, 2, end1) {
        Some(found) => found,
        None => {
            return (None, 1);
        },
    };
    let near1 = apart_within(t, t1, RISE_TENTHS);
    if near1 && apart_within(t, t2, RISE_TENTHS) {
        (
            Some(
                Period {
                    start_timestamp: start,
                    end_timestamp: end2,
                    kind: PeriodStage::PostOvulation,
                },
            ),
            3,
        )
    } else if !near1 && apart_within(t1, t2, RISE_TENTHS) {
        (
            Some(Period { start_timestamp: start, end_timestamp: end, kind: PeriodStage::Ovulation }),
            1,
        )
    } else {
        (None, 1)
    }
}

/// The step at a rise that follows a confirmed post-ovulation segment.
fn step_after_post_ovulation(
    days: &Vec<DataPoint>,
    i: usize,
    start: u128,
    end: u128,
    t: i64,
) -> (r: (Option<Period>, usize))
    requires
        i < days.len(),
        end_at(days@, i as int, end) == end,
    ensures
        r.0 == after_post_ovulation(days@, i as int, start, end, t).segment,
        r.1 == after_post_ovulation(days@, i as int, start, end, t).advance,
{
    let mut at: usize = i + 1;
    let mut reached: u128 = end;
    while at < days.len()
        invariant
            i < at <= days.len(),
            run_len(days@, i + 1, t) == (at - i - 1) + run_len(days@, at as int, t),
            reached == end_at(days@, at - 1, end),
        ensures
            run_len(days@, at as int, t) == 0,
        decreases days.len() - at,
    {
        match days[at] {
            DataPoint::MiddleUnchecked { end_timestamp, temperature, .. } => {
                if apart_within(temperature, t, RISE_TENTHS) {
                    reached = end_timestamp;
                } else {
                    break;
                }
            },
            _ => {
                break;
            },
        }
        at = at + 1;
    }
    (
        Some(
            Period {
                start_timestamp: start,
                end_timestamp: reached,
                kind: PeriodStage::PostOvulation,
            },
        ),
        at - i,
    )
}

/// One pair of the look ahead, `ahead` days past the day at `i`.
fn look_pair(
    days: &Vec<DataPoint>,
    i: usize,
    ahead: usize,
    growth: u8,
    same: u8,
    end: u128,
) -> (r: Option<(u8, u8, u128)>)
    requires
        i < days.len(),
        ahead <= 2,
        growth <= 2,
        same <= 2,
    ensures
        match trend_pair(days@, i + ahead, Trend { growth: growth as nat, same: same as nat, end }) {
            Some(found) => r == Some((found.growth as u8, found.same as u8, found.end))
                && found.growth <= growth + 1 && found.same <= same + 1,
            None => r is None,
        },
{
    let (end0, t0) = match peek_ahead(days, i, ahead, end) {
        Some(found) => found,
        None => {
            return None;
        },
    };
    let (end1, t1) = match peek_ahead(days, i, ahead + 1, end0) {
        Some(found) => found,
        None => {
            return None;
        },
    };
    let near = apart_within(t1, t0, RISE_TENTHS);
    if t1 > t0 && !near {
        Some((growth + 1, same, end1))
    } else if near {
        Some((growth, same + 1, end1))
    } else {
        Some((growth, same, end))
    }
}

/// The step at a rise with no confirmed rise before it.
fn step_first_rise(days: &Vec<DataPoint>, i: usize, start: u128, end: u128) -> (r: (
    Option<Period>,
    usize,
))
    requires
        i < days.len(),
    ensures
        r.0 == first_rise(days@, i as int, start, end).segment,
        r.1 == first_rise(days@, i as int, start, end).advance,
{
    let mut growth: u8 = 0;
    let mut same: u8 = 0;
    let mut reached: u128 = end;
    match look_pair(days, i, 0, growth, same, reached) {
        Some((g, s, e)) => {
            growth = g;
            same = s;
            reached = e;
            match look_pair(days, i, 1, growth, same, reached) {
                Some((g, s, e)) => {
                    growth = g;
                    same = s;
                    reached = e;
                    match look_pair(days, i, 2, growth, same, reached) {
                        Some((g, s, e)) => {
                            growth = g;
                            same = s;
                            reached = e;
                        },
                        None => {},
                    }
                },
                None => {},
            }
        },
        None => {},
    }
    assert(Trend { growth: growth as nat, same: same as nat, end: reached } == trend(
        days@,
        i as int,
        end,
    ));
    if growth >= 2 {
        (
            Some(
                Period { start_timestamp: start, end_timestamp: reached, kind: PeriodStage::Ovulation },
            ),
            3,
        )
    } else if same >= 2 {
        (
            Some(
                Period {
                    start_timestamp: start,
                    end_timestamp: reached,
                    kind: PeriodStage::PostOvulation,
                },
            ),
            3,
        )
    } else {
        (None, 1)
    }
}

/// Whether the day `ahead` days past the day at `i` is an unconfirmed rise
/// at or below the baseline.
fn is_low_rise(days: &Vec<DataPoint>, i: usize, ahead: usize, base: i64) -> (r: bool)
    requires
        i < days.len(),
        ahead <= 3,
    ensures
        r == low_rise(days@, i + ahead, base),
{
    if ahead >= days.len() - i {
        return false;
    }
    match days[i + ahead] {
        DataPoint::MiddleUnchecked { temperature, .. } => temperature <= base,
        _ => false,
    }
}

/// The scanner's step at the day at index `i`: the segment it confirms, if
/// any, and by how many days the cursor moves on.
fn scan_step(days: &Vec<DataPoint>, i: usize, last: Option<Period>, base: i64) -> (r: (
    Option<Period>,
    usize,
))
    requires
        i < days.len(),
    ensures
        r.0 == step(days@, i as int, last, base).segment,
        r.1 == step(days@, i as int, last, base).advance,
        r.1 >= 1,
{
    match days[i] {
        DataPoint::Start { start_timestamp, end_timestamp } => {
            let kind = match last {
                None => PeriodStage::PreOvulation,
                Some(l) => match l.kind {
                    PeriodStage::PreOvulation | PeriodStage::PeriodStart => PeriodStage::PreOvulation,
                    PeriodStage::PostOvulation => if follows_post_ovulation(last, end_timestamp) {
                        PeriodStage::PeriodStart
                    } else {
                        PeriodStage::PreOvulation
                    },
                    PeriodStage::Ovulation => PeriodStage::Ovulation,
                },
            };
            (Some(Period { start_timestamp, end_timestamp, kind }), 1)
        },
        DataPoint::MiddleUnchecked { start_timestamp, end_timestamp, temperature } => match last {
            Some(l) => match l.kind {
                PeriodStage::Ovulation => step_after_ovulation(
                    days,
                    i,
                    start_timestamp,
                    end_timestamp,
                    temperature,
                ),
                PeriodStage::PostOvulation => step_after_post_ovulation(
                    days,
                    i,
                    start_timestamp,
                    end_timestamp,
                    temperature,
                ),
                _ => step_first_rise(days, i, start_timestamp, end_timestamp),
            },
            None => step_first_rise(days, i, start_timestamp, end_timestamp),
        },
        DataPoint::End { start_timestamp, end_timestamp } => {
            let mut confirmed = follows_post_ovulation(last, end_timestamp);
            if !confirmed {
                let mut low: u8 = 0;
                if is_low_rise(days, i, 1, base) {
                    low = low + 1;
                }
                if is_low_rise(days, i, 2, base) {
                    low = low + 1;
                }
                if is_low_rise(days, i, 3, base) {
                    low = low + 1;
                }
                confirmed = low >= 2;
            }
            if confirmed {
                (
                    Some(Period { start_timestamp, end_timestamp, kind: PeriodStage::PeriodStart }),
                    1,
                )
            } else {
                (None, 1)
            }
        },
        DataPoint::UnknownOrCorruptedData => (None, 1),
    }
}

/// Scans a series of classified days into confirmed segments.
///
/// For days in the order of time no segment ends before it starts, and
/// none starts before an earlier one.
pub fn scan_phases(days: &Vec<DataPoint>, base: i64) -> (segments: Vec<Period>)
    ensures
        segments@ == scanned(days@, base),
        ordered(days@) ==> forall|k: int|
            0 <= k < segments@.len() ==> (#[trigger] segments@[k]).start_timestamp
                <= segments@[k].end_timestamp,
        ordered(days@) ==> forall|k: int, l: int|
            0 <= k <= l < segments@.len() ==> (#[trigger] segments@[k]).start_timestamp <= (
            #[trigger] segments@[l]).start_timestamp,
{
    proof {
        if ordered(days@) {
            lemma_scan_in_order(days@, 0, None, base);
            lemma_scan_sorted(days@, 0, None, base);
        }
    }
    let mut segments: Vec<Period> = Vec::new();
    let mut last: Option<Period> = None;
    let mut i: usize = 0;
    while i < days.len()
        invariant
            segments@ + scan_from(days@, i as int, last, base) == scanned(days@, base),
        decreases days.len() - i,
    {
        let (segment, advance) = scan_step(days, i, last, base);
        proof {
            let rest = scan_from(days@, i + advance, match segment {
                Some(p) => Some(p),
                None => last,
            }, base);
            match segment {
                Some(p) => {
                    assert(segments@.push(p) + rest =~= segments@ + (seq![p] + rest));
                },
                None => {},
            }
        }
        match segment {
            Some(p) => {
                segments.push(p);
                last = Some(p);
            },
            None => {},
        }
        i = if advance <= days.len() - i {
            i + advance
        } else {
            days.len()
        };
    }
    proof {
        assert(segments@ + Seq::<Period>::empty() =~= segments@);
    }
    segments
}

} // verus!
