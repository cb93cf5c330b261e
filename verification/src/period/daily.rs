//! Daily aggregation: one reference temperature per populated day.
//!
//! Days are windows of fixed length laid end to end from the first sample
//! on. The reference temperature of a day is the mean of the lowest quarter
//! of the distinct temperatures seen in it, rounded down to the grid. The
//! series ends at the first window that holds no sample.

use vstd::arithmetic::div_mod::lemma_fundamental_div_mod_converse;
use vstd::prelude::*;

use super::store::{ascending, Sample};
use super::DAY;

verus! {

/// A populated day: the start of its window, the time of its last sample
/// and its reference temperature in grid steps.
#[derive(Clone, Copy, Debug, PartialEq, Eq, Structural)]
pub struct DayReference {
    pub start_timestamp: u128,
    pub end_timestamp: u128,
    pub temperature: i64,
}

/// Values strictly increase along the sequence.
pub open spec fn strictly_increasing(s: Seq<i64>) -> bool {
    forall|i: int, j: int| 0 <= i < j < s.len() ==> s[i] < s[j]
}

/// A strictly increasing sequence with one more value put in, unless it is
/// already there.
pub open spec fn insert_distinct(s: Seq<i64>, x: i64) -> Seq<i64>
    decreases s.len(),
{
    if s.len() == 0 {
        seq![x]
    } else if s.last() < x {
        s.push(x)
    } else if s.last() == x {
        s
    } else {
        insert_distinct(s.drop_last(), x).push(s.last())
    }
}

/// The distinct values of a sequence in ascending order.
pub open spec fn distinct_ascending(values: Seq<i64>) -> Seq<i64>
    decreases values.len(),
{
    if values.len() == 0 {
        Seq::empty()
    } else {
        insert_distinct(distinct_ascending(values.drop_last()), values.last())
    }
}

/// The sum of a sequence.
pub open spec fn total(s: Seq<i64>) -> int
    decreases s.len(),
{
    if s.len() == 0 {
        0
    } else {
        total(s.drop_last()) + s.last()
    }
}

/// How many of `distinct` values make up the lowest quarter: a quarter of
/// them, rounded down, but at least one.
pub open spec fn quarter(distinct: nat) -> nat {
    if distinct / 4 < 1 {
        1
    } else {
        distinct / 4
    }
}

/// The reference temperature of a day with the given temperatures: the mean
/// of the lowest quarter of the distinct values, rounded down.
pub open spec fn reference_temperature(temperatures: Seq<i64>) -> int {
    let distinct = distinct_ascending(temperatures);
    let n = quarter(distinct.len());
    total(distinct.take(n as int)) / (n as int)
}

/// The temperatures of the samples from index `from` up to `to`.
pub open spec fn temperatures(s: Seq<Sample>, from: int, to: int) -> Seq<i64> {
    s.subrange(from, to).map_values(|x: Sample| x.temperature)
}

/// How many samples, from index `from` on, come before the time `limit`.
pub open spec fn window_len(s: Seq<Sample>, from: int, limit: int) -> nat
    decreases s.len() - from,
{
    if 0 <= from < s.len() && s[from].timestamp < limit {
        1 + window_len(s, from + 1, limit)
    } else {
        0
    }
}

/// The day whose window opens at `start` and holds the `n` samples from
/// index `from` on.
pub open spec fn day_of(s: Seq<Sample>, from: int, n: int, start: int) -> DayReference {
    DayReference {
        start_timestamp: start as u128,
        end_timestamp: s[from + n - 1].timestamp,
        temperature: reference_temperature(temperatures(s, from, from + n)) as i64,
    }
}

/// The populated days from the window that opens at `start`, whose first
/// sample, if it has one, stands at index `from`.
pub open spec fn days_from(s: Seq<Sample>, from: int, start: int) -> Seq<DayReference>
    decreases s.len() - from,
    via days_from_terminates
{
    let n = window_len(s, from, start + DAY);
    if n == 0 {
        Seq::empty()
    } else {
        seq![day_of(s, from, n as int, start)] + days_from(s, from + n, start + DAY)
    }
}

#[via_fn]
proof fn days_from_terminates(s: Seq<Sample>, from: int, start: int) {
    lemma_window_len_bound(s, from, start + DAY);
}

/// A window holds no more samples than are left, and none before index 0.
pub proof fn lemma_window_len_bound(s: Seq<Sample>, from: int, limit: int)
    ensures
        window_len(s, from, limit) > 0 ==> 0 <= from,
        window_len(s, from, limit) > 0 ==> from + window_len(s, from, limit) <= s.len(),
    decreases s.len() - from,
{
    if 0 <= from < s.len() && s[from].timestamp < limit {
        lemma_window_len_bound(s, from + 1, limit);
    }
}

/// The populated days of a store, the first window opening at its first sample.
pub open spec fn daily(s: Seq<Sample>) -> Seq<DayReference> {
    if s.len() == 0 {
        Seq::empty()
    } else {
        days_from(s, 0, s[0].timestamp as int)
    }
}

/// Days that follow one another: each window opens where the one before
/// closes, and the last sample of a day lies inside its window.
pub open spec fn consecutive(days: Seq<DayReference>) -> bool {
    &&& forall|k: int|
        0 <= k < days.len() ==> (#[trigger] days[k]).start_timestamp <= days[k].end_timestamp
            < days[k].start_timestamp + DAY
    &&& forall|k: int|
        0 <= k < days.len() - 1 ==> days[k + 1].start_timestamp == (#[trigger] days[
            k
        ]).start_timestamp + DAY
}

/// A window is the run of samples before the limit: each of its samples
/// comes before the limit, and the sample after it, if any, does not.
pub proof fn lemma_window(s: Seq<Sample>, from: int, limit: int)
    requires
        0 <= from,
    ensures
        from + window_len(s, from, limit) <= s.len() || window_len(s, from, limit) == 0,
        forall|k: int|
            from <= k < from + window_len(s, from, limit) ==> (#[trigger] s[k]).timestamp < limit,
        from + window_len(s, from, limit) < s.len() ==> s[from + window_len(
            s,
            from,
            limit,
        )].timestamp >= limit,
    decreases s.len() - from,
{
    if from < s.len() && s[from].timestamp < limit {
        lemma_window(s, from + 1, limit);
    }
}

/// The days of an ascending store follow one another.
pub proof fn lemma_days_from_consecutive(s: Seq<Sample>, from: int, start: int)
    requires
        ascending(s),
        0 <= from,
        0 <= start,
        from < s.len() ==> s[from].timestamp >= start,
    ensures
        consecutive(days_from(s, from, start)),
        days_from(s, from, start).len() > 0 ==> days_from(s, from, start)[0].start_timestamp
            == start,
    decreases s.len() - from,
{
    let n = window_len(s, from, start + DAY);
    lemma_window(s, from, start + DAY);
    if n > 0 {
        let first = day_of(s, from, n as int, start);
        let rest = days_from(s, from + n, start + DAY);
        lemma_days_from_consecutive(s, from + n, start + DAY);
        let days = days_from(s, from, start);
        assert(days == seq![first] + rest);
        assert(s[from + n - 1].timestamp < start + DAY);
        assert(s[from].timestamp <= s[from + n - 1].timestamp);
        assert(first.start_timestamp == start);
        assert forall|k: int| 0 <= k < days.len() implies (#[trigger] days[k]).start_timestamp
            <= days[k].end_timestamp < days[k].start_timestamp + DAY by {
            if k > 0 {
                assert(days[k] == rest[k - 1]);
            }
        }
        assert forall|k: int| 0 <= k < days.len() - 1 implies days[k + 1].start_timestamp == (
        #[trigger] days[k]).start_timestamp + DAY by {
            assert(days[k + 1] == rest[k]);
            if k > 0 {
                assert(days[k] == rest[k - 1]);
            }
        }
    }
}

/// The days of an ascending store follow one another.
pub proof fn lemma_daily_consecutive(s: Seq<Sample>)
    requires
        ascending(s),
    ensures
        consecutive(daily(s)),
{
    if s.len() > 0 {
        lemma_days_from_consecutive(s, 0, s[0].timestamp as int);
    }
}

/// Putting a value in yields at least one value, at most one more than
/// before, each of them the new value or an old one.
pub proof fn lemma_insert_distinct_members(s: Seq<i64>, x: i64)
    ensures
        1 <= insert_distinct(s, x).len() <= s.len() + 1,
        s.len() <= insert_distinct(s, x).len(),
        insert_distinct(s, x).contains(x),
        forall|v: i64| #[trigger] s.contains(v) ==> insert_distinct(s, x).contains(v),
        forall|v: i64| #[trigger] insert_distinct(s, x).contains(v) ==> v == x || s.contains(v),
    decreases s.len(),
{
    let u = insert_distinct(s, x);
    if s.len() == 0 {
        assert(u[0] == x);
    } else if s.last() < x {
        assert(u[s.len() as int] == x);
        assert forall|v: i64| s.contains(v) implies u.contains(v) by {
            let i = choose|i: int| 0 <= i < s.len() && s[i] == v;
            assert(u[i] == v);
        }
    } else if s.last() == x {
        assert(s[s.len() - 1] == x);
    } else {
        let d = s.drop_last();
        let w = insert_distinct(d, x);
        lemma_insert_distinct_members(d, x);
        assert(u == w.push(s.last()));
        let at = choose|i: int| 0 <= i < w.len() && w[i] == x;
        assert(u[at] == x);
        assert forall|v: i64| s.contains(v) implies u.contains(v) by {
            let i = choose|i: int| 0 <= i < s.len() && s[i] == v;
            if i < s.len() - 1 {
                assert(d[i] == v);
                assert(d.contains(v));
                assert(w.contains(v));
                let k = choose|k: int| 0 <= k < w.len() && w[k] == v;
                assert(u[k] == v);
            } else {
                assert(u[w.len() as int] == v);
            }
        }
        assert forall|v: i64| #[trigger] u.contains(v) implies v == x || s.contains(v) by {
            let k = choose|k: int| 0 <= k < u.len() && u[k] == v;
            if k < w.len() {
                assert(w[k] == v);
                assert(w.contains(v));
                if v != x {
                    assert(d.contains(v));
                    let i = choose|i: int| 0 <= i < d.len() && d[i] == v;
                    assert(s[i] == v);
                }
            } else {
                assert(s[s.len() - 1] == v);
            }
        }
    }
}

/// Putting a value in keeps the sequence strictly increasing.
pub proof fn lemma_insert_distinct_increasing(s: Seq<i64>, x: i64)
    requires
        strictly_increasing(s),
    ensures
        strictly_increasing(insert_distinct(s, x)),
    decreases s.len(),
{
    if s.len() == 0 {
    } else if s.last() < x {
    } else if s.last() == x {
    } else {
        let d = s.drop_last();
        let w = insert_distinct(d, x);
        lemma_insert_distinct_increasing(d, x);
        lemma_insert_distinct_members(d, x);
        let u = w.push(s.last());
        assert forall|i: int, j: int| 0 <= i < j < u.len() implies u[i] < u[j] by {
            if j == u.len() - 1 {
                assert(w.contains(w[i]));
                if w[i] != x {
                    let k = choose|k: int| 0 <= k < d.len() && d[k] == w[i];
                    assert(s[k] == w[i]);
                }
            } else {
                assert(u[i] == w[i] && u[j] == w[j]);
            }
        }
    }
}

/// The distinct values in ascending order are just that: strictly
/// increasing, and the same values as those of the sequence.
pub proof fn lemma_distinct_ascending(values: Seq<i64>)
    ensures
        strictly_increasing(distinct_ascending(values)),
        distinct_ascending(values).len() <= values.len(),
        values.len() > 0 ==> distinct_ascending(values).len() >= 1,
        forall|v: i64| values.contains(v) <==> #[trigger] distinct_ascending(values).contains(v),
    decreases values.len(),
{
    if values.len() == 0 {
    } else {
        let d = values.drop_last();
        let x = values.last();
        lemma_distinct_ascending(d);
        lemma_insert_distinct_increasing(distinct_ascending(d), x);
        lemma_insert_distinct_members(distinct_ascending(d), x);
        let u = distinct_ascending(values);
        assert forall|v: i64| values.contains(v) implies u.contains(v) by {
            let i = choose|i: int| 0 <= i < values.len() && values[i] == v;
            if i < values.len() - 1 {
                assert(d[i] == v);
                assert(d.contains(v));
                assert(distinct_ascending(d).contains(v));
            }
        }
        assert forall|v: i64| u.contains(v) implies values.contains(v) by {
            if v == x {
                assert(values[values.len() - 1] == v);
            } else {
                assert(distinct_ascending(d).contains(v));
                assert(d.contains(v));
                let i = choose|i: int| 0 <= i < d.len() && d[i] == v;
                assert(values[i] == v);
            }
        }
    }
}

/// A sequence with one more value at its end holds that value and those it held.
proof fn lemma_push_contains(s: Seq<i64>, v: i64)
    ensures
        forall|x: i64| #[trigger] s.push(v).contains(x) <==> s.contains(x) || x == v,
{
    let u = s.push(v);
    assert forall|x: i64| #[trigger] u.contains(x) <==> s.contains(x) || x == v by {
        if u.contains(x) {
            let k = choose|k: int| 0 <= k < u.len() && u[k] == x;
            if k < s.len() {
                assert(s[k] == x);
            }
        }
        if s.contains(x) {
            let k = choose|k: int| 0 <= k < s.len() && s[k] == x;
            assert(u[k] == x);
        }
        if x == v {
            assert(u[s.len() as int] == x);
        }
    }
}

/// A strictly increasing sequence is set by its values: two of them with
/// the same values are equal.
pub proof fn lemma_increasing_unique(a: Seq<i64>, b: Seq<i64>)
    requires
        strictly_increasing(a),
        strictly_increasing(b),
        forall|x: i64| a.contains(x) <==> b.contains(x),
    ensures
        a == b,
    decreases a.len(),
{
    if a.len() == 0 {
        if b.len() > 0 {
            assert(b.contains(b[0]));
        }
        assert(a =~= b);
    } else {
        assert(a.contains(a[a.len() - 1]));
        assert(b.contains(a.last()));
        let jb = choose|j: int| 0 <= j < b.len() && b[j] == a.last();
        assert(b.contains(b[b.len() - 1]));
        assert(a.contains(b.last()));
        let ja = choose|j: int| 0 <= j < a.len() && a[j] == b.last();
        assert(a.last() == b.last());
        let da = a.drop_last();
        let db = b.drop_last();
        assert forall|x: i64| da.contains(x) <==> db.contains(x) by {
            if da.contains(x) {
                let k = choose|k: int| 0 <= k < da.len() && da[k] == x;
                assert(a[k] == x && a[k] < a[a.len() - 1]);
                assert(a.contains(x));
                let l = choose|l: int| 0 <= l < b.len() && b[l] == x;
                assert(db[l] == x);
            }
            if db.contains(x) {
                let k = choose|k: int| 0 <= k < db.len() && db[k] == x;
                assert(b[k] == x && b[k] < b[b.len() - 1]);
                assert(b.contains(x));
                let l = choose|l: int| 0 <= l < a.len() && a[l] == x;
                assert(da[l] == x);
            }
        }
        lemma_increasing_unique(da, db);
        assert(a =~= da.push(a.last()));
        assert(b =~= db.push(b.last()));
    }
}

/// Merges two strictly increasing vectors into one that holds each value once.
fn merge_distinct(left: &Vec<i64>, right: &Vec<i64>) -> (out: Vec<i64>)
    requires
        strictly_increasing(left@),
        strictly_increasing(right@),
    ensures
        strictly_increasing(out@),
        forall|x: i64| #[trigger] out@.contains(x) <==> left@.contains(x) || right@.contains(x),
{
    let mut out: Vec<i64> = Vec::new();
    let mut i: usize = 0;
    let mut j: usize = 0;
    while i < left.len() || j < right.len()
        invariant
            i <= left.len(),
            j <= right.len(),
            strictly_increasing(left@),
            strictly_increasing(right@),
            strictly_increasing(out@),
            forall|x: i64| #[trigger]
                out@.contains(x) <==> left@.take(i as int).contains(x) || right@.take(
                    j as int,
                ).contains(x),
            out@.len() > 0 && i < left.len() ==> out@.last() < left@[i as int],
            out@.len() > 0 && j < right.len() ==> out@.last() < right@[j as int],
        decreases (left.len() - i) + (right.len() - j),
    {
        let ghost before = out@;
        let from_left = j >= right.len() || (i < left.len() && left[i] <= right[j]);
        let from_right = i >= left.len() || (j < right.len() && right[j] <= left[i]);
        let x = if from_left {
            left[i]
        } else {
            right[j]
        };
        proof {
            lemma_push_contains(before, x);
            if from_left {
                lemma_push_contains(left@.take(i as int), x);
                assert(left@.take(i + 1) =~= left@.take(i as int).push(x));
            }
            if from_right {
                lemma_push_contains(right@.take(j as int), x);
                assert(right@.take(j + 1) =~= right@.take(j as int).push(x));
            }
        }
        out.push(x);
        if from_left {
            i = i + 1;
        }
        if from_right {
            j = j + 1;
        }
    }
    proof {
        assert(left@.take(i as int) =~= left@);
        assert(right@.take(j as int) =~= right@);
    }
    out
}

/// The distinct values among those from index `lo` up to `hi`, in ascending order.
fn distinct_range(values: &Vec<i64>, lo: usize, hi: usize) -> (out: Vec<i64>)
    requires
        lo <= hi <= values.len(),
    ensures
        strictly_increasing(out@),
        forall|x: i64| #[trigger]
            out@.contains(x) <==> values@.subrange(lo as int, hi as int).contains(x),
    decreases hi - lo,
{
    let ghost part = values@.subrange(lo as int, hi as int);
    if hi - lo == 0 {
        return Vec::new();
    }
    if hi - lo == 1 {
        let mut out: Vec<i64> = Vec::new();
        out.push(values[lo]);
        proof {
            assert(out@ =~= part);
        }
        return out;
    }
    let mid = lo + (hi - lo) / 2;
    let left = distinct_range(values, lo, mid);
    let right = distinct_range(values, mid, hi);
    let out = merge_distinct(&left, &right);
    proof {
        let first = values@.subrange(lo as int, mid as int);
        let second = values@.subrange(mid as int, hi as int);
        assert(part =~= first + second);
        assert forall|x: i64| #[trigger] out@.contains(x) <==> part.contains(x) by {
            if first.contains(x) {
                let k = choose|k: int| 0 <= k < first.len() && first[k] == x;
                assert(part[k] == x);
            }
            if second.contains(x) {
                let k = choose|k: int| 0 <= k < second.len() && second[k] == x;
                assert(part[first.len() + k] == x);
            }
            if part.contains(x) {
                let k = choose|k: int| 0 <= k < part.len() && part[k] == x;
                if k < first.len() {
                    assert(first[k] == x);
                } else {
                    assert(second[k - first.len()] == x);
                }
            }
        }
    }
    out
}

/// The distinct values of a vector in ascending order.
pub fn distinct_values(values: &Vec<i64>) -> (out: Vec<i64>)
    ensures
        out@ == distinct_ascending(values@),
        strictly_increasing(out@),
{
    let out = distinct_range(values, 0, values.len());
    proof {
        assert(values@.subrange(0, values@.len() as int) =~= values@);
        lemma_distinct_ascending(values@);
        lemma_increasing_unique(out@, distinct_ascending(values@));
    }
    out
}

/// The sum of values that lie between two bounds lies between the bounds
/// times their number.
pub proof fn lemma_total_bounds(s: Seq<i64>, lo: int, hi: int)
    requires
        forall|i: int| 0 <= i < s.len() ==> lo <= #[trigger] s[i] <= hi,
    ensures
        lo * s.len() <= total(s) <= hi * s.len(),
    decreases s.len(),
{
    if s.len() > 0 {
        lemma_total_bounds(s.drop_last(), lo, hi);
        assert(lo * s.len() == lo * (s.len() - 1) + lo) by (nonlinear_arith);
        assert(hi * s.len() == hi * (s.len() - 1) + hi) by (nonlinear_arith);
    }
}

/// The reference temperature lies between the lowest and the highest
/// temperature of the day.
pub proof fn lemma_reference_within(temperatures: Seq<i64>, lo: int, hi: int)
    requires
        temperatures.len() > 0,
        forall|i: int| 0 <= i < temperatures.len() ==> lo <= #[trigger] temperatures[i] <= hi,
    ensures
        lo <= reference_temperature(temperatures) <= hi,
{
    let distinct = distinct_ascending(temperatures);
    let n = quarter(distinct.len()) as int;
    lemma_distinct_ascending(temperatures);
    let lowest = distinct.take(n);
    assert forall|i: int| 0 <= i < lowest.len() implies lo <= #[trigger] lowest[i] <= hi by {
        assert(distinct.contains(distinct[i]));
        let k = choose|k: int| 0 <= k < temperatures.len() && temperatures[k] == distinct[i];
        assert(lo <= temperatures[k] <= hi);
    }
    lemma_total_bounds(lowest, lo, hi);
    let sum = total(lowest);
    assert(lo <= sum / n <= hi) by (nonlinear_arith)
        requires
            n > 0,
            lo * n <= sum <= hi * n,
    ;
}

/// Where every sample lies between two temperatures, so does every day.
pub proof fn lemma_days_within(s: Seq<Sample>, from: int, start: int, lo: i64, hi: i64)
    requires
        0 <= from,
        forall|k: int| 0 <= k < s.len() ==> lo <= (#[trigger] s[k]).temperature <= hi,
    ensures
        forall|k: int|
            0 <= k < days_from(s, from, start).len() ==> lo <= (#[trigger] days_from(
                s,
                from,
                start,
            )[k]).temperature <= hi,
    decreases s.len() - from,
{
    let n = window_len(s, from, start + DAY);
    lemma_window(s, from, start + DAY);
    if n > 0 {
        let first = day_of(s, from, n as int, start);
        let rest = days_from(s, from + n, start + DAY);
        lemma_days_within(s, from + n, start + DAY, lo, hi);
        let temps = temperatures(s, from, from + n);
        assert forall|i: int| 0 <= i < temps.len() implies lo <= #[trigger] temps[i] <= hi by {
            assert(temps[i] == s[from + i].temperature);
        }
        lemma_reference_within(temps, lo as int, hi as int);
        let days = days_from(s, from, start);
        assert forall|k: int| 0 <= k < days.len() implies lo <= (#[trigger] days[k]).temperature
            <= hi by {
            if k > 0 {
                assert(days[k] == rest[k - 1]);
            }
        }
    }
}

/// A store that is not empty has a first day, and where every sample lies
/// between two temperatures, so does every day.
pub proof fn lemma_daily_within(s: Seq<Sample>, lo: i64, hi: i64)
    requires
        forall|k: int| 0 <= k < s.len() ==> lo <= (#[trigger] s[k]).temperature <= hi,
    ensures
        s.len() > 0 ==> daily(s).len() > 0,
        forall|k: int| 0 <= k < daily(s).len() ==> lo <= (#[trigger] daily(s)[k]).temperature <= hi,
{
    if s.len() > 0 {
        lemma_days_within(s, 0, s[0].timestamp as int, lo, hi);
    }
}

/// A sum divided by a count, rounded down.
fn floor_mean(sum: i128, count: usize) -> (mean: i64)
    requires
        count > 0,
        i64::MIN * count <= sum <= i64::MAX * count,
        count <= 0x4000_0000_0000_0000,
    ensures
        mean == (sum as int) / (count as int),
{
    let n: i128 = count as i128;
    assert(i64::MIN * count >= -0x8000_0000_0000_0000 * 0x4000_0000_0000_0000) by (nonlinear_arith)
        requires
            0 < count <= 0x4000_0000_0000_0000,
    ;
    assert(i64::MAX * count <= 0x8000_0000_0000_0000 * 0x4000_0000_0000_0000) by (nonlinear_arith)
        requires
            0 < count <= 0x4000_0000_0000_0000,
    ;
    if sum >= 0 {
        let q: i128 = sum / n;
        assert(q <= i64::MAX) by (nonlinear_arith)
            requires
                q == (sum as int) / (n as int),
                0 <= sum <= i64::MAX * n,
                n > 0,
        ;
        q as i64
    } else {
        let up: i128 = (-sum) + (n - 1);
        let q: i128 = up / n;
        let ghost r = q * n - (-sum);
        assert(0 <= r < n && q <= 0x8000_0000_0000_0000) by (nonlinear_arith)
            requires
                q == (up as int) / (n as int),
                up == (-sum) + (n - 1),
                r == q * n - (-sum),
                0 < -sum <= 0x8000_0000_0000_0000 * n,
                n > 0,
        ;
        proof {
            assert(sum == (-q) * n + r) by (nonlinear_arith)
                requires
                    r == q * n - (-sum),
            ;
            lemma_fundamental_div_mod_converse(sum as int, n as int, -q, r);
        }
        (-q) as i64
    }
}

/// The mean of the lowest quarter of the distinct values, rounded down.
pub fn lowest_quarter_mean(temperatures: &Vec<i64>) -> (mean: i64)
    requires
        temperatures.len() > 0,
    ensures
        mean == reference_temperature(temperatures@),
{
    let distinct = distinct_values(temperatures);
    proof {
        lemma_distinct_ascending(temperatures@);
    }
    let n: usize = if distinct.len() / 4 < 1 {
        1
    } else {
        distinct.len() / 4
    };
    let mut sum: i128 = 0;
    let mut k: usize = 0;
    while k < n
        invariant
            k <= n <= distinct.len(),
            n <= 0x4000_0000_0000_0000,
            sum == total(distinct@.take(k as int)),
            i64::MIN * k <= sum <= i64::MAX * k,
        decreases n - k,
    {
        proof {
            assert(distinct@.take(k + 1).drop_last() =~= distinct@.take(k as int));
            assert(i64::MIN * (k + 1) == i64::MIN * k + i64::MIN) by (nonlinear_arith);
            assert(i64::MAX * (k + 1) == i64::MAX * k + i64::MAX) by (nonlinear_arith);
            assert(i64::MIN * k >= -0x8000_0000_0000_0000 * 0x4000_0000_0000_0000)
                by (nonlinear_arith)
                requires
                    0 <= k <= 0x4000_0000_0000_0000,
            ;
            assert(i64::MAX * k <= 0x8000_0000_0000_0000 * 0x4000_0000_0000_0000)
                by (nonlinear_arith)
                requires
                    0 <= k <= 0x4000_0000_0000_0000,
            ;
        }
        sum = sum + distinct[k] as i128;
        k = k + 1;
    }
    floor_mean(sum, n)
}

/// Aggregates a store into its populated days.
///
/// The first window opens at the first sample; each later one opens where
/// the one before closes. A day is reported with the start of its window,
/// the time of its last sample and its reference temperature. The first
/// window without a sample ends the series.
pub fn daily_references(samples: &Vec<Sample>) -> (days: Vec<DayReference>)
    ensures
        days@ == daily(samples@),
        ascending(samples@) ==> consecutive(days@),
{
    let mut days: Vec<DayReference> = Vec::new();
    proof {
        if ascending(samples@) {
            lemma_daily_consecutive(samples@);
        }
    }
    if samples.len() == 0 {
        return days;
    }
    let mut from: usize = 0;
    let mut start: u128 = samples[0].timestamp;
    loop
        invariant
            from <= samples.len(),
            days@ + days_from(samples@, from as int, start as int) == daily(samples@),
            ascending(samples@) ==> consecutive(daily(samples@)),
        ensures
            days@ == daily(samples@),
            ascending(samples@) ==> consecutive(daily(samples@)),
        decreases samples.len() - from,
    {
        let limit: Option<u128> = start.checked_add(DAY);
        let mut to: usize = from;
        let mut temps: Vec<i64> = Vec::new();
        while to < samples.len() && (limit.is_none() || samples[to].timestamp < limit.unwrap())
            invariant
                from <= to <= samples.len(),
                limit == if start + DAY <= u128::MAX {
                    Some((start + DAY) as u128)
                } else {
                    None
                },
                window_len(samples@, from as int, start + DAY) == (to - from) + window_len(
                    samples@,
                    to as int,
                    start + DAY,
                ),
                temps@ == temperatures(samples@, from as int, to as int),
            decreases samples.len() - to,
        {
            temps.push(samples[to].temperature);
            to = to + 1;
            assert(temps@ =~= temperatures(samples@, from as int, to as int));
        }
        if to == from {
            assert(days@ + Seq::<DayReference>::empty() =~= days@);
            break;
        }
        let temperature = lowest_quarter_mean(&temps);
        let day = DayReference {
            start_timestamp: start,
            end_timestamp: samples[to - 1].timestamp,
            temperature,
        };
        proof {
            let rest = days_from(samples@, to as int, start + DAY);
            assert(day == day_of(samples@, from as int, to - from, start as int));
            assert(days@.push(day) + rest =~= days@ + (seq![day] + rest));
            if limit is None {
                assert(to == samples.len());
                assert(days@.push(day) + rest =~= days@.push(day));
            }
        }
        days.push(day);
        from = to;
        match limit {
            Some(next) => {
                start = next;
            },
            None => {
                break;
            },
        }
    }
    days
}

} // verus!
