//! Activity by heart-rate zone.
//!
//! The maximum heart rate for an age is taken as `207 - 0.7 * age`. The
//! target rate of a zone is the resting rate plus the zone's share of the
//! reserve between the resting and the maximum rate:
//!
//! - VO2 max: 0.9
//! - anaerobic: 0.8
//! - aerobic: 0.7
//! - fat burn: 0.6
//! - warm up: 0.5
//!
//! A heart rate belongs to the highest zone whose target rate, rounded
//! down to a whole beat, it reaches. The target rates are those of
//! double-precision arithmetic, stated here in whole numbers.

use vstd::prelude::*;

pub mod pulse_points;

verus! {

/// A heart rate measured at a time, in nanoseconds since an arbitrary epoch.
#[derive(Clone, Copy, Debug, PartialEq, Eq, Structural)]
pub struct ActivityRecord {
    pub heart_rate: u8,
    pub timestamp: u128,
}

impl vstd::std_specs::convert::FromSpecImpl<(u128, u8)> for ActivityRecord {
    open spec fn obeys_from_spec() -> bool {
        true
    }

    open spec fn from_spec(pair: (u128, u8)) -> Self {
        ActivityRecord { heart_rate: pair.1, timestamp: pair.0 }
    }
}

impl From<(u128, u8)> for ActivityRecord {
    fn from(pair: (u128, u8)) -> (record: Self) {
        ActivityRecord { heart_rate: pair.1, timestamp: pair.0 }
    }
}

/// Heart-rate zone.
#[derive(Clone, Copy, Debug, PartialEq, Eq, Structural)]
pub enum ActivityKind {
    VO2,
    Anaerobic,
    Aerobic,
    FatBurn,
    WarmUp,
    Resting,
}

/// The target rate of a zone in exact arithmetic, rounded down to a whole
/// beat: the resting rate plus `tenths` tenths of the reserve up to the
/// maximum rate.
pub open spec fn exact_zone_floor(age: u8, rhr: u8, tenths: int) -> int {
    rhr + ((2070 - 7 * age - 10 * rhr) * tenths) / 100
}

/// Where the target rate, worked out in double precision, comes to lie
/// just below a whole beat that it reaches in exact arithmetic: the aerobic
/// zone at age 40 with a resting rate of 9, and at age 50 with a resting
/// rate of 2.
pub open spec fn falls_short(age: u8, rhr: u8, tenths: int) -> bool {
    tenths == 7 && ((age == 40 && rhr == 9) || (age == 50 && rhr == 2))
}

/// The target rate of a zone, rounded down to a whole beat, as
/// double-precision arithmetic yields it for `(207 - 0.7 * age - rhr) *
/// tenths / 10 + rhr`: the exact value, but for the two places where the
/// double falls short of it, and there one beat less.
pub open spec fn zone_floor(age: u8, rhr: u8, tenths: int) -> int {
    if falls_short(age, rhr, tenths) {
        exact_zone_floor(age, rhr, tenths) - 1
    } else {
        exact_zone_floor(age, rhr, tenths)
    }
}

/// The zone of a heart rate for a person of the given age and resting rate.
pub open spec fn zone_of(age: u8, rhr: u8, rate: u8) -> ActivityKind {
    if rate >= zone_floor(age, rhr, 9) {
        ActivityKind::VO2
    } else if rate >= zone_floor(age, rhr, 8) {
        ActivityKind::Anaerobic
    } else if rate >= zone_floor(age, rhr, 7) {
        ActivityKind::Aerobic
    } else if rate >= zone_floor(age, rhr, 6) {
        ActivityKind::FatBurn
    } else if rate >= zone_floor(age, rhr, 5) {
        ActivityKind::WarmUp
    } else {
        ActivityKind::Resting
    }
}

/// The target rate of a zone, rounded down to a whole beat.
fn target_rate(age: u8, rhr: u8, tenths: i32) -> (beats: i32)
    requires
        5 <= tenths <= 9,
    ensures
        beats == zone_floor(age, rhr, tenths as int),
{
    let reserve: i32 = 2070 - 7 * (age as i32) - 10 * (rhr as i32);
    assert(-2265 * 9 <= reserve * tenths <= 2070 * 9) by (nonlinear_arith)
        requires
            -2265 <= reserve <= 2070,
            5 <= tenths <= 9,
    ;
    let scaled: i32 = reserve * tenths;
    let share: i32 = if scaled >= 0 {
        scaled / 100
    } else {
        let q: i32 = (-scaled + 99) / 100;
        proof {
            let r = q * 100 - (-scaled);
            vstd::arithmetic::div_mod::lemma_fundamental_div_mod_converse(
                scaled as int,
                100,
                -q as int,
                r as int,
            );
        }
        -q
    };
    if tenths == 7 && ((age == 40 && rhr == 9) || (age == 50 && rhr == 2)) {
        rhr as i32 + share - 1
    } else {
        rhr as i32 + share
    }
}

impl ActivityKind {
    /// Whether the zone counts as exercise.
    pub open spec fn exercising(self) -> bool {
        self is VO2 || self is Anaerobic || self is Aerobic
    }

    /// Whether the zone counts as exercise: aerobic and above.
    pub fn is_exercising(self) -> (r: bool)
        ensures
            r == self.exercising(),
    {
        match self {
            ActivityKind::VO2 | ActivityKind::Anaerobic | ActivityKind::Aerobic => true,
            _ => false,
        }
    }

    /// The zone of a heart rate for a person of the given age and resting rate.
    pub fn from_rate(age: u8, rhr: u8, rate: u8) -> (kind: Self)
        ensures
            kind == zone_of(age, rhr, rate),
    {
        let rate: i32 = rate as i32;
        if rate >= target_rate(age, rhr, 9) {
            return ActivityKind::VO2;
        }
        if rate >= target_rate(age, rhr, 8) {
            return ActivityKind::Anaerobic;
        }
        if rate >= target_rate(age, rhr, 7) {
            return ActivityKind::Aerobic;
        }
        if rate >= target_rate(age, rhr, 6) {
            return ActivityKind::FatBurn;
        }
        if rate >= target_rate(age, rhr, 5) {
            return ActivityKind::WarmUp;
        }
        ActivityKind::Resting
    }
}

/// A stretch of time spent at a heart rate: from one record to the next.
#[derive(Clone, Copy, Debug, PartialEq, Eq, Structural)]
pub struct Activity {
    pub heart_rate: u8,
    pub kind: ActivityKind,
    pub duration: u128,
}

/// What a series of heart rates amounts to: the stretches between the
/// records and the time spent at rest and in exercise, in nanoseconds.
#[derive(Clone, Debug, PartialEq, Eq)]
pub struct Report {
    pub total_resting_duration: u128,
    pub total_exercise_duration: u128,
    pub activity: Vec<Activity>,
}

/// Timestamps do not decrease along the sequence.
pub open spec fn in_time_order(s: Seq<ActivityRecord>) -> bool {
    forall|i: int, j: int| 0 <= i <= j < s.len() ==> s[i].timestamp <= s[j].timestamp
}

/// A sequence in time order with one more record put in, after every
/// record that is not later than it.
pub open spec fn insert_by_time(s: Seq<ActivityRecord>, x: ActivityRecord) -> Seq<ActivityRecord>
    decreases s.len(),
{
    if s.len() == 0 {
        seq![x]
    } else if s.last().timestamp <= x.timestamp {
        s.push(x)
    } else {
        insert_by_time(s.drop_last(), x).push(s.last())
    }
}

/// The records in time order, records of one timestamp in their input order.
pub open spec fn sorted_by_time(records: Seq<ActivityRecord>) -> Seq<ActivityRecord>
    decreases records.len(),
{
    if records.len() == 0 {
        Seq::empty()
    } else {
        insert_by_time(sorted_by_time(records.drop_last()), records.last())
    }
}

/// The stretch from the record at index `i` to the next one.
pub open spec fn stretch(sorted: Seq<ActivityRecord>, age: u8, rhr: u8, i: int) -> Activity {
    Activity {
        heart_rate: sorted[i].heart_rate,
        kind: zone_of(age, rhr, sorted[i].heart_rate),
        duration: (sorted[i + 1].timestamp - sorted[i].timestamp) as u128,
    }
}

/// The stretches between the records of a sequence in time order.
pub open spec fn stretches(sorted: Seq<ActivityRecord>, age: u8, rhr: u8) -> Seq<Activity> {
    Seq::new(
        if sorted.len() > 0 {
            (sorted.len() - 1) as nat
        } else {
            0
        },
        |i: int| stretch(sorted, age, rhr, i),
    )
}

/// The time spent in exercise, or at rest, over a series of stretches.
pub open spec fn time_spent(stretches: Seq<Activity>, exercising: bool) -> int
    decreases stretches.len(),
{
    if stretches.len() == 0 {
        0
    } else {
        time_spent(stretches.drop_last(), exercising) + if stretches.last().kind.exercising()
            == exercising {
            stretches.last().duration as int
        } else {
            0
        }
    }
}

/// Putting a record in keeps the time order, the number of records but one,
/// and the records themselves.
pub proof fn lemma_insert_by_time(s: Seq<ActivityRecord>, x: ActivityRecord)
    requires
        in_time_order(s),
    ensures
        in_time_order(insert_by_time(s, x)),
        insert_by_time(s, x).len() == s.len() + 1,
        insert_by_time(s, x).to_multiset() == s.to_multiset().insert(x),
    decreases s.len(),
{
    broadcast use vstd::seq_lib::group_to_multiset_ensures;

    let u = insert_by_time(s, x);
    if s.len() == 0 {
        assert(u =~= Seq::<ActivityRecord>::empty().push(x));
    } else if s.last().timestamp <= x.timestamp {
    } else {
        let d = s.drop_last();
        let w = insert_by_time(d, x);
        lemma_insert_by_time(d, x);
        assert(s =~= d.push(s.last()));
        assert(w.to_multiset().insert(s.last()) =~= s.to_multiset().insert(x));
        assert forall|i: int, j: int| 0 <= i <= j < u.len() implies u[i].timestamp
            <= u[j].timestamp by {
            if j == u.len() - 1 && i < j {
                assert(w.to_multiset().count(w[i]) > 0);
                if w[i] != x {
                    assert(d.to_multiset().count(w[i]) > 0);
                    assert(d.contains(w[i]));
                    let k = choose|k: int| 0 <= k < d.len() && d[k] == w[i];
                    assert(s[k].timestamp <= s[s.len() - 1].timestamp);
                }
            } else if i < j {
                assert(u[i] == w[i] && u[j] == w[j]);
            }
        }
    }
}

/// Sorting by time yields the same records in time order.
pub proof fn lemma_sorted_by_time(records: Seq<ActivityRecord>)
    ensures
        in_time_order(sorted_by_time(records)),
        sorted_by_time(records).len() == records.len(),
        sorted_by_time(records).to_multiset() == records.to_multiset(),
    decreases records.len(),
{
    broadcast use vstd::seq_lib::group_to_multiset_ensures;

    if records.len() > 0 {
        let d = records.drop_last();
        lemma_sorted_by_time(d);
        lemma_insert_by_time(sorted_by_time(d), records.last());
        assert(records =~= d.push(records.last()));
    }
}

/// Two sequences merged into one from their ends: the later of the two
/// last records goes last, that of the second sequence where they share a
/// timestamp.
pub open spec fn merge_by_time(a: Seq<ActivityRecord>, b: Seq<ActivityRecord>) -> Seq<
    ActivityRecord,
>
    decreases a.len() + b.len(),
{
    if a.len() == 0 {
        b
    } else if b.len() == 0 {
        a
    } else if a.last().timestamp <= b.last().timestamp {
        merge_by_time(a, b.drop_last()).push(b.last())
    } else {
        merge_by_time(a.drop_last(), b).push(a.last())
    }
}

/// Putting a record into a merged sequence is putting it into the second
/// of the two and merging then.
proof fn lemma_insert_into_merge(a: Seq<ActivityRecord>, b: Seq<ActivityRecord>, x: ActivityRecord)
    ensures
        insert_by_time(merge_by_time(a, b), x) == merge_by_time(a, insert_by_time(b, x)),
    decreases a.len() + b.len(),
{
    let with_x = insert_by_time(b, x);
    let m = merge_by_time(a, b);
    if a.len() == 0 {
    } else if b.len() == 0 {
        assert(with_x.drop_last() =~= b);
        if a.last().timestamp > x.timestamp {
            lemma_insert_into_merge(a.drop_last(), b, x);
            assert(merge_by_time(a.drop_last(), b) =~= a.drop_last());
        }
    } else if a.last().timestamp <= b.last().timestamp {
        assert(m.drop_last() =~= merge_by_time(a, b.drop_last()));
        if b.last().timestamp <= x.timestamp {
            assert(with_x.drop_last() =~= b);
        } else {
            lemma_insert_into_merge(a, b.drop_last(), x);
            assert(with_x.drop_last() =~= insert_by_time(b.drop_last(), x));
        }
    } else {
        assert(m.drop_last() =~= merge_by_time(a.drop_last(), b));
        if a.last().timestamp <= x.timestamp {
            assert(with_x.drop_last() =~= b);
        } else {
            lemma_insert_into_merge(a.drop_last(), b, x);
        }
    }
}

/// Sorting two sequences, one after the other, is sorting each and merging.
pub proof fn lemma_sorted_concat(p: Seq<ActivityRecord>, q: Seq<ActivityRecord>)
    ensures
        sorted_by_time(p + q) == merge_by_time(sorted_by_time(p), sorted_by_time(q)),
    decreases q.len(),
{
    if q.len() == 0 {
        assert(p + q =~= p);
    } else {
        lemma_sorted_concat(p, q.drop_last());
        assert((p + q).drop_last() =~= p + q.drop_last());
        lemma_insert_into_merge(sorted_by_time(p), sorted_by_time(q.drop_last()), q.last());
    }
}

/// Merges two vectors from their ends.
fn merge(left: &Vec<ActivityRecord>, right: &Vec<ActivityRecord>) -> (out: Vec<ActivityRecord>)
    requires
        left.len() + right.len() <= usize::MAX,
    ensures
        out@ == merge_by_time(left@, right@),
{
    let n = left.len() + right.len();
    let mut out: Vec<ActivityRecord> = Vec::new();
    if n == 0 {
        return out;
    }
    let filler = if left.len() > 0 {
        left[0]
    } else {
        right[0]
    };
    while out.len() < n
        invariant
            out.len() <= n,
        decreases n - out.len(),
    {
        out.push(filler);
    }
    let mut i: usize = left.len();
    let mut j: usize = right.len();
    proof {
        assert(left@.take(i as int) =~= left@);
        assert(right@.take(j as int) =~= right@);
        assert(merge_by_time(left@, right@) + out@.skip(n as int) =~= merge_by_time(
            left@,
            right@,
        ));
    }
    while i > 0 || j > 0
        invariant
            i <= left.len(),
            j <= right.len(),
            out.len() == n,
            n == left.len() + right.len(),
            merge_by_time(left@, right@) == merge_by_time(
                left@.take(i as int),
                right@.take(j as int),
            ) + out@.skip(i + j),
        decreases i + j,
    {
        let ghost a = left@.take(i as int);
        let ghost b = right@.take(j as int);
        let ghost written = out@.skip(i + j);
        let from_left = j == 0 || (i > 0 && left[i - 1].timestamp > right[j - 1].timestamp);
        if from_left {
            proof {
                assert(a.drop_last() =~= left@.take(i - 1));
                assert(a.last() == left@[i - 1]);
                if j == 0 {
                    assert(merge_by_time(a.drop_last(), b) =~= a.drop_last());
                }
                assert(merge_by_time(a, b) =~= merge_by_time(a.drop_last(), b).push(a.last()));
            }
            out.set(i + j - 1, left[i - 1]);
            i = i - 1;
        } else {
            proof {
                assert(b.drop_last() =~= right@.take(j - 1));
                assert(b.last() == right@[j - 1]);
                if i == 0 {
                    assert(merge_by_time(a, b.drop_last()) =~= b.drop_last());
                }
                assert(merge_by_time(a, b) =~= merge_by_time(a, b.drop_last()).push(b.last()));
            }
            out.set(i + j - 1, right[j - 1]);
            j = j - 1;
        }
        proof {
            assert(out@.skip(i + j) =~= seq![out@[i + j]] + written);
            assert(merge_by_time(left@.take(i as int), right@.take(j as int)).push(out@[i + j])
                + written =~= merge_by_time(left@.take(i as int), right@.take(j as int)) + out@.skip(
                i + j,
            ));
        }
    }
    proof {
        assert(merge_by_time(left@.take(0), right@.take(0)) =~= Seq::<ActivityRecord>::empty());
        assert(out@.skip(0) =~= out@);
    }
    out
}

/// Sorts the records from index `lo` up to `hi`.
fn sort_range(records: &Vec<ActivityRecord>, lo: usize, hi: usize) -> (sorted: Vec<ActivityRecord>)
    requires
        lo <= hi <= records.len(),
    ensures
        sorted@ == sorted_by_time(records@.subrange(lo as int, hi as int)),
        sorted@.len() == hi - lo,
    decreases hi - lo,
{
    let ghost part = records@.subrange(lo as int, hi as int);
    proof {
        lemma_sorted_by_time(part);
    }
    if hi - lo == 0 {
        return Vec::new();
    }
    if hi - lo == 1 {
        let mut sorted: Vec<ActivityRecord> = Vec::new();
        sorted.push(records[lo]);
        proof {
            assert(part.drop_last() =~= Seq::<ActivityRecord>::empty());
            assert(sorted_by_time(part.drop_last()) =~= Seq::<ActivityRecord>::empty());
            assert(sorted@ =~= sorted_by_time(part));
        }
        return sorted;
    }
    let mid = lo + (hi - lo) / 2;
    let left = sort_range(records, lo, mid);
    let right = sort_range(records, mid, hi);
    proof {
        let first = records@.subrange(lo as int, mid as int);
        let second = records@.subrange(mid as int, hi as int);
        assert(part =~= first + second);
        lemma_sorted_concat(first, second);
    }
    merge(&left, &right)
}

/// Puts the records in time order, records of one timestamp in their input order.
pub fn sort_by_time(records: &Vec<ActivityRecord>) -> (sorted: Vec<ActivityRecord>)
    ensures
        sorted@ == sorted_by_time(records@),
        in_time_order(sorted@),
        sorted@.len() == records@.len(),
{
    proof {
        assert(records@.subrange(0, records@.len() as int) =~= records@);
        lemma_sorted_by_time(records@);
    }
    sort_range(records, 0, records.len())
}

/// Reports the activity that a series of heart rates shows.
///
/// The records are put in time order. Each record but the last opens a
/// stretch that lasts until the next record and is given the zone of its
/// heart rate. The time of the stretches is added up, apart for the zones
/// that count as exercise and for those that do not; together they span
/// the time from the first record to the last.
pub fn heart_activity(heart_rates: Vec<ActivityRecord>, age: u8, rhr: u8) -> (report: Report)
    ensures
        report.activity@ == stretches(sorted_by_time(heart_rates@), age, rhr),
        report.total_resting_duration == time_spent(report.activity@, false),
        report.total_exercise_duration == time_spent(report.activity@, true),
        heart_rates@.len() >= 1 ==> report.total_resting_duration + report.total_exercise_duration
            == sorted_by_time(heart_rates@).last().timestamp - sorted_by_time(
            heart_rates@,
        ).first().timestamp,
        heart_rates@.len() == 0 ==> report.total_resting_duration + report.total_exercise_duration
            == 0,
{
    let sorted = sort_by_time(&heart_rates);
    let mut total_resting_duration: u128 = 0;
    let mut total_exercise_duration: u128 = 0;
    let mut activity: Vec<Activity> = Vec::new();
    if sorted.len() == 0 {
        assert(activity@ =~= stretches(sorted@, age, rhr));
        return Report { total_resting_duration, total_exercise_duration, activity };
    }
    let mut i: usize = 0;
    while i + 1 < sorted.len()
        invariant
            i < sorted.len(),
            in_time_order(sorted@),
            activity@ == stretches(sorted@, age, rhr).take(i as int),
            total_resting_duration == time_spent(activity@, false),
            total_exercise_duration == time_spent(activity@, true),
            total_resting_duration + total_exercise_duration == sorted@[i as int].timestamp
                - sorted@[0].timestamp,
        decreases sorted.len() - i,
    {
        let first = sorted[i];
        let second = sorted[i + 1];
        let duration: u128 = second.timestamp - first.timestamp;
        let kind = ActivityKind::from_rate(age, rhr, first.heart_rate);
        let item = Activity { heart_rate: first.heart_rate, kind, duration };
        proof {
            assert(item == stretch(sorted@, age, rhr, i as int));
            assert(activity@.push(item) =~= stretches(sorted@, age, rhr).take(i + 1));
            assert(activity@.push(item).drop_last() =~= activity@);
        }
        if kind.is_exercising() {
            total_exercise_duration = total_exercise_duration + duration;
        } else {
            total_resting_duration = total_resting_duration + duration;
        }
        activity.push(item);
        i = i + 1;
    }
    proof {
        assert(activity@ =~= stretches(sorted@, age, rhr));
    }
    Report { total_resting_duration, total_exercise_duration, activity }
}

} // verus!
