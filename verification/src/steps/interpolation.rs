//! The time grid of the resampled acceleration signal.
//!
//! The signal is resampled at points ten milliseconds apart, counted from
//! the first sample. Each point lies in a stretch between two neighbouring
//! samples, from which its magnitude is drawn. A stretch takes no more
//! points than ten-millisecond spans fit between the whole milliseconds of
//! its ends, and none before the points of the stretches before it are
//! taken.

use vstd::prelude::*;

verus! {

/// The distance between two points of the grid, in nanoseconds.
pub const INTERPOLATION_TIME: u128 = 10_000_000;

/// Timestamps do not decrease along the sequence.
pub open spec fn in_time_order(timestamps: Seq<u128>) -> bool {
    forall|i: int, j: int| 0 <= i <= j < timestamps.len() ==> timestamps[i] <= timestamps[j]
}

/// How many points a stretch from `t1` to `t2` may take at most: the
/// ten-millisecond spans between the whole milliseconds of its ends.
pub open spec fn room(t1: int, t2: int) -> nat {
    ((t2 / 1_000_000 - t1 / 1_000_000) / 10) as nat
}

/// How many points the stretch from `t1` to `t2` takes, when `count`
/// points are taken already and `left` more may be: the points from number
/// `count` on that lie in the stretch.
pub open spec fn points_in(t1: int, t2: int, count: nat, left: nat) -> nat
    decreases left,
{
    if left > 0 && t1 <= count * INTERPOLATION_TIME < t2 {
        1 + points_in(t1, t2, count + 1, (left - 1) as nat)
    } else {
        0
    }
}

/// The points of the grid from the stretch that begins at the sample at
/// `seg` on, when `count` points are taken already: each with the index of
/// the sample that its stretch begins at and its time since the first sample.
pub open spec fn grid_from(timestamps: Seq<u128>, seg: int, count: nat) -> Seq<(usize, u128)>
    decreases timestamps.len() - seg,
{
    if 0 <= seg && seg + 1 < timestamps.len() {
        let t1 = timestamps[seg] - timestamps[0];
        let t2 = timestamps[seg + 1] - timestamps[0];
        let n = points_in(t1, t2, count, room(t1, t2));
        Seq::new(n, |j: int| (seg as usize, ((count + j) * INTERPOLATION_TIME) as u128))
            + grid_from(timestamps, seg + 1, count + n)
    } else {
        Seq::empty()
    }
}

/// The points of the grid for a series of samples.
pub open spec fn grid_points(timestamps: Seq<u128>) -> Seq<(usize, u128)> {
    grid_from(timestamps, 0, 0)
}

/// Lays the grid over a series of samples in time order.
///
/// Each point comes with the index of the sample that its stretch begins
/// at and with its time since the first sample, in nanoseconds. The points
/// are ten milliseconds apart from zero on, and each lies in its stretch.
pub fn interpolation_grid(timestamps: &Vec<u128>) -> (grid: Vec<(usize, u128)>)
    requires
        in_time_order(timestamps@),
    ensures
        grid@ == grid_points(timestamps@),
        forall|k: int| 0 <= k < grid@.len() ==> (#[trigger] grid@[k]).1 == k * 10_000_000,
        forall|k: int| 0 <= k < grid@.len() ==> (#[trigger] grid@[k]).0 + 1 < timestamps@.len(),
        forall|k: int|
            0 <= k < grid@.len() ==> timestamps@[(#[trigger] grid@[k]).0 as int] - timestamps@[0]
                <= grid@[k].1 < timestamps@[grid@[k].0 + 1] - timestamps@[0],
{
    let mut grid: Vec<(usize, u128)> = Vec::new();
    if timestamps.len() < 2 {
        return grid;
    }
    let first = timestamps[0];
    let mut seg: usize = 0;
    proof {
        assert(grid@ + grid_from(timestamps@, 0, 0) =~= grid_points(timestamps@));
    }
    while seg + 1 < timestamps.len()
        invariant
            seg < timestamps.len(),
            first == timestamps@[0],
            in_time_order(timestamps@),
            grid@ + grid_from(timestamps@, seg as int, grid@.len()) == grid_points(timestamps@),
            forall|k: int| 0 <= k < grid@.len() ==> (#[trigger] grid@[k]).1 == k * 10_000_000,
            forall|k: int| 0 <= k < grid@.len() ==> (#[trigger] grid@[k]).0 + 1 < timestamps@.len(),
            forall|k: int|
                0 <= k < grid@.len() ==> timestamps@[(#[trigger] grid@[k]).0 as int] - timestamps@[0]
                    <= grid@[k].1 < timestamps@[grid@[k].0 + 1] - timestamps@[0],
        decreases timestamps.len() - seg,
    {
        let t1: u128 = timestamps[seg] - first;
        let t2: u128 = timestamps[seg + 1] - first;
        let most: u128 = (t2 / 1_000_000 - t1 / 1_000_000) / 10;
        let ghost before = grid@;
        let ghost taken = before.len();
        let mut left: u128 = most;
        while left > 0
            invariant
                seg + 1 < timestamps.len(),
                first == timestamps@[0],
                t1 == timestamps@[seg as int] - timestamps@[0],
                t2 == timestamps@[seg + 1] - timestamps@[0],
                most == room(t1 as int, t2 as int),
                left <= most,
                taken == before.len(),
                grid@.len() == taken + (most - left),
                grid@ == before + Seq::new(
                    (most - left) as nat,
                    |j: int| (seg, ((taken + j) * INTERPOLATION_TIME) as u128),
                ),
                points_in(t1 as int, t2 as int, taken, most as nat) == (most - left) + points_in(
                    t1 as int,
                    t2 as int,
                    grid@.len(),
                    left as nat,
                ),
                forall|k: int| 0 <= k < grid@.len() ==> (#[trigger] grid@[k]).1 == k * 10_000_000,
                forall|k: int|
                    0 <= k < grid@.len() ==> (#[trigger] grid@[k]).0 + 1 < timestamps@.len(),
                forall|k: int|
                    0 <= k < grid@.len() ==> timestamps@[(#[trigger] grid@[k]).0 as int]
                        - timestamps@[0] <= grid@[k].1 < timestamps@[grid@[k].0 + 1]
                        - timestamps@[0],
            ensures
                taken == before.len(),
                left <= most,
                grid@.len() == taken + (most - left),
                grid@ == before + Seq::new(
                    (most - left) as nat,
                    |j: int| (seg, ((taken + j) * INTERPOLATION_TIME) as u128),
                ),
                points_in(t1 as int, t2 as int, taken, most as nat) == most - left,
                forall|k: int| 0 <= k < grid@.len() ==> (#[trigger] grid@[k]).1 == k * 10_000_000,
                forall|k: int|
                    0 <= k < grid@.len() ==> (#[trigger] grid@[k]).0 + 1 < timestamps@.len(),
                forall|k: int|
                    0 <= k < grid@.len() ==> timestamps@[(#[trigger] grid@[k]).0 as int]
                        - timestamps@[0] <= grid@[k].1 < timestamps@[grid@[k].0 + 1]
                        - timestamps@[0],
            decreases left,
        {
            let count: u128 = grid.len() as u128;
            let time: u128 = match count.checked_mul(INTERPOLATION_TIME) {
                Some(time) => time,
                None => {
                    break;
                },
            };
            if !(t1 <= time && time < t2) {
                break;
            }
            grid.push((seg, time));
            left = left - 1;
            proof {
                assert(grid@ =~= before + Seq::new(
                    (most - left) as nat,
                    |j: int| (seg, ((taken + j) * INTERPOLATION_TIME) as u128),
                ));
            }
        }
        proof {
            let n = points_in(t1 as int, t2 as int, taken, most as nat);
            let rest = grid_from(timestamps@, seg + 1, taken + n);
            let here = Seq::new(
                n,
                |j: int| (seg, ((taken + j) * INTERPOLATION_TIME) as u128),
            );
            assert(grid_from(timestamps@, seg as int, taken) == here + rest);
            assert(before + (here + rest) =~= (before + here) + rest);
        }
        seg = seg + 1;
    }
    proof {
        assert(grid_from(timestamps@, seg as int, grid@.len()) =~= Seq::<(usize, u128)>::empty());
        assert(grid@ + Seq::<(usize, u128)>::empty() =~= grid@);
    }
    grid
}

} // verus!
