//! Step detection: the time grid of the resampled signal, and thinning
//! out peaks that follow one another too closely.

use vstd::prelude::*;

pub mod interpolation;

verus! {

/// The least time between two steps, in nanoseconds.
pub const TIME_THRESHOLD: u128 = 200_000_000;

/// A peak of the acceleration signal. The magnitude is held as a rank: a
/// whole number that orders magnitudes as their values do, and none for a
/// magnitude that is not a number. Times are nanoseconds.
#[derive(Clone, Copy, Debug, PartialEq, Eq)]
pub struct DataPoint {
    pub magnitude: Option<i64>,
    pub timestamp: u128,
}

/// Whether one magnitude is greater than another. A magnitude that is not
/// a number is neither greater nor less than any.
pub open spec fn exceeds(a: Option<i64>, b: Option<i64>) -> bool {
    a is Some && b is Some && a->0 > b->0
}

/// Timestamps do not decrease along the peaks.
pub open spec fn in_time_order(input: Seq<DataPoint>) -> bool {
    forall|i: int, j: int| 0 <= i <= j < input.len() ==> input[i].timestamp <= input[j].timestamp
}

/// The peak that later ones are measured against, and the peaks kept so far.
pub struct Pick {
    pub current: DataPoint,
    pub kept: Seq<DataPoint>,
}

/// The pick after one more peak. A peak that comes more than the least
/// time after the current one is kept and becomes the current one. One that
/// comes sooner is dropped, but becomes the current one when it is higher.
pub open spec fn pick_next(pick: Pick, this: DataPoint) -> Pick {
    if this.timestamp - pick.current.timestamp > TIME_THRESHOLD {
        Pick { current: this, kept: pick.kept.push(this) }
    } else if exceeds(this.magnitude, pick.current.magnitude) {
        Pick { current: this, kept: pick.kept }
    } else {
        pick
    }
}

/// The pick after the first `n` peaks, the first of them being the first
/// current one.
pub open spec fn picked(input: Seq<DataPoint>, n: int) -> Pick
    decreases n,
{
    if n <= 1 {
        Pick { current: input[0], kept: Seq::empty() }
    } else {
        pick_next(picked(input, n - 1), input[n - 1])
    }
}

/// The peaks that are kept.
pub open spec fn thresholded(input: Seq<DataPoint>) -> Seq<DataPoint> {
    if input.len() == 0 {
        Seq::empty()
    } else {
        picked(input, input.len() as int).kept
    }
}

/// The current peak is one of the peaks seen.
proof fn lemma_picked_current(input: Seq<DataPoint>, n: int)
    requires
        1 <= n <= input.len(),
    ensures
        exists|k: int| 0 <= k < n && input[k] == picked(input, n).current,
    decreases n,
{
    if n > 1 {
        lemma_picked_current(input, n - 1);
        let k = choose|k: int| 0 <= k < n - 1 && input[k] == picked(input, n - 1).current;
        if picked(input, n).current == input[n - 1] {
        } else {
            assert(input[k] == picked(input, n).current);
        }
    }
}

/// Whether one magnitude is greater than another.
fn is_higher(a: Option<i64>, b: Option<i64>) -> (r: bool)
    ensures
        r == exceeds(a, b),
{
    match (a, b) {
        (Some(x), Some(y)) => x > y,
        _ => false,
    }
}

/// Keeps the peaks that come more than the least time between two steps
/// after the peak they are measured against.
///
/// The peaks must be in time order. The first peak is never kept; it is
/// the first that the others are measured against.
pub fn time_threshold(input: Vec<DataPoint>) -> (kept: Vec<DataPoint>)
    requires
        in_time_order(input@),
    ensures
        kept@ == thresholded(input@),
{
    let mut kept: Vec<DataPoint> = Vec::new();
    if input.len() == 0 {
        return kept;
    }
    let mut current = input[0];
    let mut i: usize = 1;
    while i < input.len()
        invariant
            1 <= i <= input.len(),
            in_time_order(input@),
            picked(input@, i as int) == (Pick { current, kept: kept@ }),
        decreases input.len() - i,
    {
        let this = input[i];
        proof {
            lemma_picked_current(input@, i as int);
        }
        if this.timestamp - current.timestamp > TIME_THRESHOLD {
            current = this;
            kept.push(this);
        } else if is_higher(this.magnitude, current.magnitude) {
            current = this;
        }
        i = i + 1;
    }
    kept
}

} // verus!
