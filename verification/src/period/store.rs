//! The reading store: raw readings collated by time.
//!
//! Readings may arrive in any order and may repeat a timestamp. The store
//! keeps one sample per timestamp, the one written last, in ascending order
//! of time.

use vstd::prelude::*;

use super::Record;

verus! {

/// A reading as the engine keeps it: its time and its temperature in grid steps.
#[derive(Clone, Copy, Debug, PartialEq, Eq, Structural)]
pub struct Sample {
    pub timestamp: u128,
    pub temperature: i64,
}

/// The sample that a record contributes.
pub open spec fn sample_of(r: Record) -> Sample {
    Sample { timestamp: r.timestamp, temperature: r.temperature@ }
}

/// Timestamps strictly increase along the sequence.
pub open spec fn ascending(s: Seq<Sample>) -> bool {
    forall|i: int, j: int| 0 <= i < j < s.len() ==> s[i].timestamp < s[j].timestamp
}

/// The sequence as a map from timestamp to temperature, later entries
/// overriding earlier ones.
pub open spec fn as_map(s: Seq<Sample>) -> Map<u128, i64>
    decreases s.len(),
{
    if s.len() == 0 {
        Map::empty()
    } else {
        as_map(s.drop_last()).insert(s.last().timestamp, s.last().temperature)
    }
}

/// What the store holds after a sequence of writes: for each timestamp the
/// temperature written last.
pub open spec fn latest(data: Seq<Record>) -> Map<u128, i64> {
    as_map(data.map_values(|r: Record| sample_of(r)))
}

/// An ascending sequence with one more sample written into it: replaced
/// where its timestamp is already held, put in its place in time where not.
pub open spec fn upsert(s: Seq<Sample>, x: Sample) -> Seq<Sample>
    decreases s.len(),
{
    if s.len() == 0 {
        seq![x]
    } else if s.last().timestamp < x.timestamp {
        s.push(x)
    } else if s.last().timestamp == x.timestamp {
        s.drop_last().push(x)
    } else {
        upsert(s.drop_last(), x).push(s.last())
    }
}

/// The store's content for a batch of records, written in input order.
pub open spec fn collated(data: Seq<Record>) -> Seq<Sample>
    decreases data.len(),
{
    if data.len() == 0 {
        Seq::empty()
    } else {
        upsert(collated(data.drop_last()), sample_of(data.last()))
    }
}

/// Every sample of an upserted sequence is the new one or an old one.
proof fn lemma_upsert_members(s: Seq<Sample>, x: Sample)
    ensures
        upsert(s, x).len() >= 1,
        forall|k: int|
            0 <= k < upsert(s, x).len() ==> #[trigger] upsert(s, x)[k] == x || exists|i: int|
                0 <= i < s.len() && s[i] == upsert(s, x)[k],
    decreases s.len(),
{
    if s.len() == 0 {
    } else if s.last().timestamp < x.timestamp {
    } else if s.last().timestamp == x.timestamp {
        let u = s.drop_last().push(x);
        assert forall|k: int| 0 <= k < u.len() implies #[trigger] u[k] == x || exists|i: int|
            0 <= i < s.len() && s[i] == u[k] by {
            if k < s.len() - 1 {
                assert(s[k] == u[k]);
            }
        }
    } else {
        let d = s.drop_last();
        lemma_upsert_members(d, x);
        let u = upsert(d, x).push(s.last());
        assert forall|k: int| 0 <= k < u.len() implies #[trigger] u[k] == x || exists|i: int|
            0 <= i < s.len() && s[i] == u[k] by {
            if k < u.len() - 1 {
                assert(u[k] == upsert(d, x)[k]);
                if u[k] != x {
                    let i = choose|i: int| 0 <= i < d.len() && d[i] == upsert(d, x)[k];
                    assert(s[i] == u[k]);
                }
            } else {
                assert(s[s.len() - 1] == u[k]);
            }
        }
    }
}

/// Writing a sample keeps the sequence ascending.
pub proof fn lemma_upsert_ascending(s: Seq<Sample>, x: Sample)
    requires
        ascending(s),
    ensures
        ascending(upsert(s, x)),
    decreases s.len(),
{
    if s.len() == 0 {
    } else if s.last().timestamp < x.timestamp {
    } else if s.last().timestamp == x.timestamp {
    } else {
        let d = s.drop_last();
        lemma_upsert_ascending(d, x);
        lemma_upsert_members(d, x);
        let v = upsert(d, x);
        let u = v.push(s.last());
        assert forall|i: int, j: int| 0 <= i < j < u.len() implies u[i].timestamp
            < u[j].timestamp by {
            if j == u.len() - 1 {
                assert(u[i] == v[i]);
                if v[i] != x {
                    let k = choose|k: int| 0 <= k < d.len() && d[k] == v[i];
                    assert(s[k] == v[i]);
                }
            } else {
                assert(u[i] == v[i] && u[j] == v[j]);
            }
        }
    }
}

/// Writing a sample into the sequence writes it into the map.
pub proof fn lemma_upsert_as_map(s: Seq<Sample>, x: Sample)
    ensures
        as_map(upsert(s, x)) == as_map(s).insert(x.timestamp, x.temperature),
    decreases s.len(),
{
    if s.len() == 0 {
        assert(seq![x].drop_last() =~= s);
    } else if s.last().timestamp < x.timestamp {
        assert(s.push(x).drop_last() =~= s);
    } else if s.last().timestamp == x.timestamp {
        let d = s.drop_last();
        assert(d.push(x).drop_last() =~= d);
        assert(as_map(d).insert(x.timestamp, x.temperature) =~= as_map(s).insert(
            x.timestamp,
            x.temperature,
        ));
    } else {
        let d = s.drop_last();
        lemma_upsert_as_map(d, x);
        let v = upsert(d, x);
        assert(v.push(s.last()).drop_last() =~= v);
        assert(as_map(d).insert(x.timestamp, x.temperature).insert(
            s.last().timestamp,
            s.last().temperature,
        ) =~= as_map(s).insert(x.timestamp, x.temperature));
    }
}

/// The store is ascending in time and holds, for each timestamp, the
/// temperature written last.
pub proof fn lemma_collated(data: Seq<Record>)
    ensures
        ascending(collated(data)),
        as_map(collated(data)) == latest(data),
    decreases data.len(),
{
    let samples = data.map_values(|r: Record| sample_of(r));
    if data.len() == 0 {
    } else {
        let d = data.drop_last();
        lemma_collated(d);
        lemma_upsert_ascending(collated(d), sample_of(data.last()));
        lemma_upsert_as_map(collated(d), sample_of(data.last()));
        assert(samples.drop_last() =~= d.map_values(|r: Record| sample_of(r)));
    }
}

/// Whether a sample is that of a record of the batch.
pub open spec fn in_batch(data: Seq<Record>, x: Sample) -> bool {
    exists|i: int| 0 <= i < data.len() && sample_of(#[trigger] data[i]) == x
}

/// The store holds only samples of the batch, and at least one when the
/// batch is not empty.
pub proof fn lemma_collated_members(data: Seq<Record>)
    ensures
        data.len() > 0 ==> collated(data).len() > 0,
        forall|k: int| 0 <= k < collated(data).len() ==> in_batch(data, #[trigger] collated(data)[k]),
    decreases data.len(),
{
    if data.len() > 0 {
        let d = data.drop_last();
        let x = sample_of(data.last());
        lemma_collated_members(d);
        lemma_upsert_members(collated(d), x);
        let u = collated(data);
        assert forall|k: int| 0 <= k < u.len() implies in_batch(data, #[trigger] u[k]) by {
            if u[k] == x {
                assert(sample_of(data[data.len() - 1]) == u[k]);
            } else {
                let j = choose|j: int| 0 <= j < collated(d).len() && collated(d)[j] == u[k];
                assert(in_batch(d, collated(d)[j]));
                let i = choose|i: int| 0 <= i < d.len() && sample_of(#[trigger] d[i]) == collated(d)[j];
                assert(sample_of(data[i]) == u[k]);
            }
        }
    }
}

/// No timestamp occurs with two different temperatures.
pub open spec fn single_valued(s: Seq<Sample>) -> bool {
    forall|i: int, j: int|
        0 <= i < s.len() && 0 <= j < s.len() && s[i].timestamp == s[j].timestamp
            ==> s[i].temperature == s[j].temperature
}

/// The map of a sequence holds exactly the timestamps of the sequence, and
/// where no timestamp occurs with two temperatures, each with its temperature.
pub proof fn lemma_as_map_contents(s: Seq<Sample>)
    ensures
        forall|t: u128| #[trigger]
            as_map(s).contains_key(t) <==> exists|i: int| 0 <= i < s.len() && s[i].timestamp == t,
        single_valued(s) ==> forall|i: int|
            0 <= i < s.len() ==> as_map(s)[#[trigger] s[i].timestamp] == s[i].temperature,
    decreases s.len(),
{
    if s.len() > 0 {
        let d = s.drop_last();
        lemma_as_map_contents(d);
        assert forall|t: u128| #[trigger]
            as_map(s).contains_key(t) <==> exists|i: int|
                0 <= i < s.len() && s[i].timestamp == t by {
            if as_map(s).contains_key(t) {
                if t == s.last().timestamp {
                    assert(s[s.len() - 1].timestamp == t);
                } else {
                    assert(as_map(d).contains_key(t));
                    let i = choose|i: int| 0 <= i < d.len() && d[i].timestamp == t;
                    assert(s[i].timestamp == t);
                }
            }
            if exists|i: int| 0 <= i < s.len() && s[i].timestamp == t {
                let i = choose|i: int| 0 <= i < s.len() && s[i].timestamp == t;
                if i < s.len() - 1 {
                    assert(d[i].timestamp == t);
                    assert(as_map(d).contains_key(t));
                }
            }
        }
        if single_valued(s) {
            assert(single_valued(d)) by {
                assert forall|i: int, j: int|
                    0 <= i < d.len() && 0 <= j < d.len() && d[i].timestamp
                        == d[j].timestamp implies d[i].temperature == d[j].temperature by {
                    assert(s[i] == d[i] && s[j] == d[j]);
                }
            }
            assert forall|i: int| 0 <= i < s.len() implies as_map(s)[#[trigger] s[i].timestamp]
                == s[i].temperature by {
                if i < s.len() - 1 {
                    assert(d[i] == s[i]);
                    if s[i].timestamp != s.last().timestamp {
                        assert(as_map(d)[d[i].timestamp] == d[i].temperature);
                    }
                }
            }
        }
    }
}

/// An ascending sequence is set by its map: two of them with one map are equal.
pub proof fn lemma_ascending_unique(a: Seq<Sample>, b: Seq<Sample>)
    requires
        ascending(a),
        ascending(b),
        as_map(a) == as_map(b),
    ensures
        a == b,
    decreases a.len(),
{
    lemma_as_map_contents(a);
    lemma_as_map_contents(b);
    assert(single_valued(a));
    assert(single_valued(b));
    if a.len() == 0 {
        if b.len() > 0 {
            assert(as_map(b).contains_key(b[0].timestamp));
            assert(as_map(a).contains_key(b[0].timestamp));
        }
        assert(a =~= b);
    } else {
        let ta = a.last().timestamp;
        assert(as_map(a).contains_key(ta));
        assert(as_map(b).contains_key(ta));
        let jb = choose|j: int| 0 <= j < b.len() && b[j].timestamp == ta;
        let tb = b.last().timestamp;
        assert(as_map(b).contains_key(tb));
        assert(as_map(a).contains_key(tb));
        let ja = choose|j: int| 0 <= j < a.len() && a[j].timestamp == tb;
        assert(ta == tb);
        assert(as_map(a)[a[a.len() - 1].timestamp] == a[a.len() - 1].temperature);
        assert(as_map(b)[b[b.len() - 1].timestamp] == b[b.len() - 1].temperature);
        assert(a.last() == b.last());
        let da = a.drop_last();
        let db = b.drop_last();
        lemma_as_map_contents(da);
        lemma_as_map_contents(db);
        assert(as_map(da) =~= as_map(a).remove(ta)) by {
            assert(!as_map(da).contains_key(ta)) by {
                if as_map(da).contains_key(ta) {
                    let i = choose|i: int| 0 <= i < da.len() && da[i].timestamp == ta;
                    assert(a[i].timestamp < a[a.len() - 1].timestamp);
                }
            }
        }
        assert(as_map(db) =~= as_map(b).remove(tb)) by {
            assert(!as_map(db).contains_key(tb)) by {
                if as_map(db).contains_key(tb) {
                    let i = choose|i: int| 0 <= i < db.len() && db[i].timestamp == tb;
                    assert(b[i].timestamp < b[b.len() - 1].timestamp);
                }
            }
        }
        lemma_ascending_unique(da, db);
        assert(a =~= da.push(a.last()));
        assert(b =~= db.push(b.last()));
    }
}

/// The map of two sequences, one after the other, is the map of the first
/// overridden by the map of the second.
pub proof fn lemma_as_map_concat(a: Seq<Sample>, b: Seq<Sample>)
    ensures
        as_map(a + b) == as_map(a).union_prefer_right(as_map(b)),
    decreases b.len(),
{
    if b.len() == 0 {
        assert(a + b =~= a);
        assert(as_map(a).union_prefer_right(as_map(b)) =~= as_map(a));
    } else {
        let d = b.drop_last();
        lemma_as_map_concat(a, d);
        assert((a + b).drop_last() =~= a + d);
        assert((a + b).last() == b.last());
        assert(as_map(a).union_prefer_right(as_map(d)).insert(
            b.last().timestamp,
            b.last().temperature,
        ) =~= as_map(a).union_prefer_right(as_map(b)));
    }
}

/// Merges two ascending vectors into one; where both hold a timestamp the
/// sample of the second stays.
fn merge(left: &Vec<Sample>, right: &Vec<Sample>) -> (out: Vec<Sample>)
    requires
        ascending(left@),
        ascending(right@),
    ensures
        ascending(out@),
        as_map(out@) == as_map(left@).union_prefer_right(as_map(right@)),
{
    let mut out: Vec<Sample> = Vec::new();
    let mut i: usize = 0;
    let mut j: usize = 0;
    proof {
        assert(as_map(left@.take(0)).union_prefer_right(as_map(right@.take(0))) =~= as_map(out@));
    }
    while i < left.len() || j < right.len()
        invariant
            i <= left.len(),
            j <= right.len(),
            ascending(left@),
            ascending(right@),
            ascending(out@),
            as_map(out@) == as_map(left@.take(i as int)).union_prefer_right(
                as_map(right@.take(j as int)),
            ),
            out@.len() > 0 && i < left.len() ==> out@.last().timestamp < left@[i as int].timestamp,
            out@.len() > 0 && j < right.len() ==> out@.last().timestamp < right@[j as int].timestamp,
        decreases (left.len() - i) + (right.len() - j),
    {
        let ghost before = out@;
        let ghost held_left = as_map(left@.take(i as int));
        let ghost held_right = as_map(right@.take(j as int));
        let take_left = j >= right.len() || (i < left.len() && left[i].timestamp
            < right[j].timestamp);
        let take_both = i < left.len() && j < right.len() && left[i].timestamp
            == right[j].timestamp;
        let x = if take_left {
            left[i]
        } else {
            right[j]
        };
        proof {
            lemma_as_map_contents(before);
            lemma_as_map_contents(left@.take(i as int));
            lemma_as_map_contents(right@.take(j as int));
            assert(before.push(x).drop_last() =~= before);
            if i < left.len() {
                assert(left@.take(i + 1).drop_last() =~= left@.take(i as int));
            }
            if j < right.len() {
                assert(right@.take(j + 1).drop_last() =~= right@.take(j as int));
            }
            // the timestamp that goes out is held by neither side so far
            assert(!as_map(before).contains_key(x.timestamp)) by {
                if as_map(before).contains_key(x.timestamp) {
                    let k = choose|k: int| 0 <= k < before.len() && before[k].timestamp == x.timestamp;
                    assert(before[k].timestamp <= before[before.len() - 1].timestamp);
                }
            }
            assert(!held_left.contains_key(x.timestamp));
            assert(!held_right.contains_key(x.timestamp));
        }
        out.push(x);
        if take_left {
            proof {
                assert(held_left.insert(x.timestamp, x.temperature).union_prefer_right(held_right)
                    =~= held_left.union_prefer_right(held_right).insert(x.timestamp, x.temperature));
            }
            i = i + 1;
        } else if take_both {
            proof {
                assert(held_left.insert(left@[i as int].timestamp, left@[i as int].temperature)
                    .union_prefer_right(held_right.insert(x.timestamp, x.temperature))
                    =~= held_left.union_prefer_right(held_right).insert(x.timestamp, x.temperature));
            }
            i = i + 1;
            j = j + 1;
        } else {
            proof {
                assert(held_left.union_prefer_right(held_right.insert(x.timestamp, x.temperature))
                    =~= held_left.union_prefer_right(held_right).insert(x.timestamp, x.temperature));
            }
            j = j + 1;
        }
    }
    proof {
        assert(left@.take(i as int) =~= left@);
        assert(right@.take(j as int) =~= right@);
    }
    out
}

/// Collates the records from index `lo` up to `hi`.
fn collate_range(data: &Vec<Record>, lo: usize, hi: usize) -> (store: Vec<Sample>)
    requires
        lo <= hi <= data.len(),
    ensures
        ascending(store@),
        as_map(store@) == latest(data@.subrange(lo as int, hi as int)),
    decreases hi - lo,
{
    let ghost part = data@.subrange(lo as int, hi as int);
    let ghost samples = part.map_values(|r: Record| sample_of(r));
    if hi - lo == 0 {
        return Vec::new();
    }
    if hi - lo == 1 {
        let r = data[lo];
        let x = Sample { timestamp: r.timestamp, temperature: r.temperature.steps() };
        let mut store: Vec<Sample> = Vec::new();
        store.push(x);
        proof {
            assert(store@ =~= samples);
        }
        return store;
    }
    let mid = lo + (hi - lo) / 2;
    let left = collate_range(data, lo, mid);
    let right = collate_range(data, mid, hi);
    proof {
        let first = data@.subrange(lo as int, mid as int);
        let second = data@.subrange(mid as int, hi as int);
        assert(samples =~= first.map_values(|r: Record| sample_of(r)) + second.map_values(
            |r: Record| sample_of(r),
        ));
        lemma_as_map_concat(
            first.map_values(|r: Record| sample_of(r)),
            second.map_values(|r: Record| sample_of(r)),
        );
    }
    merge(&left, &right)
}

/// Collates a batch of records by time: one sample per timestamp, the one
/// that comes last in the batch, in ascending order of time.
pub fn collate(data: &Vec<Record>) -> (store: Vec<Sample>)
    ensures
        store@ == collated(data@),
        ascending(store@),
        as_map(store@) == latest(data@),
{
    let store = collate_range(data, 0, data.len());
    proof {
        assert(data@.subrange(0, data@.len() as int) =~= data@);
        lemma_collated(data@);
        lemma_ascending_unique(store@, collated(data@));
    }
    store
}

} // verus!
