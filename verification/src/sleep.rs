//! Sleep detection from movement and heart rate.
//!
//! A night is a series of samples. Each pair of neighbouring samples makes
//! a data point: the time between them, their two heart rates, and whether
//! the wearer moved in between. A data point counts as sleep when the
//! wearer has been still, with a heart rate near the resting rate, for long
//! enough up to and including it.

use vstd::prelude::*;

verus! {

/// One sample of a night. `moved` tells whether the magnitude of the
/// acceleration differs from that of the sample before by more than the
/// threshold for movement. Times are nanoseconds since an arbitrary epoch.
#[derive(Clone, Copy, Debug, PartialEq, Eq, Structural)]
pub struct SleepMetrics {
    pub moved: bool,
    pub heart_rate: u8,
    pub timestamp: u128,
}

/// What counts as sleep.
#[derive(Clone, Copy, Debug, PartialEq, Eq, Structural)]
pub struct DetectionOptions {
    /// How many movements are let pass as turning over in one's sleep.
    pub allowed_magnitude_jumps: usize,
    /// How far the heart rate may lie from the resting rate.
    pub max_heart_rate_diff: u8,
    /// How long the wearer must have been still before sleep is counted.
    pub duration_for_movement: u128,
    /// The longest gap between two samples; a longer one starts the count anew.
    pub max_delay: u128,
    /// The time after which the movements counted so far are forgotten.
    pub time_to_reset_jumps: u128,
}

/// The options in use where none are given: one movement let pass, five
/// beats from the resting rate, fifteen minutes of stillness, a minute
/// between samples at most, movements forgotten after fifteen minutes.
pub open spec fn default_options() -> DetectionOptions {
    DetectionOptions {
        allowed_magnitude_jumps: 1,
        max_heart_rate_diff: 5,
        duration_for_movement: 900_000_000_000,
        max_delay: 60_000_000_000,
        time_to_reset_jumps: 900_000_000_000,
    }
}

impl DetectionOptions {
    /// The default options.
    pub fn new() -> (options: Self)
        ensures
            options == default_options(),
    {
        DetectionOptions {
            allowed_magnitude_jumps: 1,
            max_heart_rate_diff: 5,
            duration_for_movement: 900_000_000_000,
            max_delay: 60_000_000_000,
            time_to_reset_jumps: 900_000_000_000,
        }
    }

    /// The same options with another time of stillness, in nanoseconds.
    pub fn set_duration_for_movement(self, duration_for_movement: u128) -> (options: Self)
        ensures
            options == (DetectionOptions { duration_for_movement, ..self }),
    {
        DetectionOptions { duration_for_movement, ..self }
    }

    /// The same options with another number of movements let pass.
    pub fn set_allowed_magnitude_jumps(self, allowed_magnitude_jumps: usize) -> (options: Self)
        ensures
            options == (DetectionOptions { allowed_magnitude_jumps, ..self }),
    {
        DetectionOptions { allowed_magnitude_jumps, ..self }
    }

    /// The same options with another distance from the resting heart rate.
    pub fn set_max_heart_rate_diff(self, max_heart_rate_diff: u8) -> (options: Self)
        ensures
            options == (DetectionOptions { max_heart_rate_diff, ..self }),
    {
        DetectionOptions { max_heart_rate_diff, ..self }
    }
}

impl Default for DetectionOptions {
    fn default() -> (options: Self)
        ensures
            options == default_options(),
    {
        DetectionOptions::new()
    }
}

/// The time between two neighbouring samples and what was measured at them.
#[derive(Clone, Copy, Debug, PartialEq, Eq)]
pub struct DataPoint {
    pub moved: bool,
    pub heart_rate: (u8, u8),
    pub timestamp_start: u128,
    pub timestamp_end: u128,
}

impl DataPoint {
    /// The time that the data point spans.
    pub open spec fn span(self) -> int {
        self.timestamp_end - self.timestamp_start
    }

    /// The time that the data point spans, in nanoseconds.
    pub fn duration(&self) -> (nanos: u128)
        requires
            self.timestamp_start <= self.timestamp_end,
        ensures
            nanos == self.span(),
    {
        self.timestamp_end - self.timestamp_start
    }
}

/// Phase of sleep.
#[derive(Clone, Copy, Debug, PartialEq, Eq, Structural)]
pub enum SleepPhase {
    Deep,
    Light,
    REM,
}

/// Timestamps do not decrease along the samples.
pub open spec fn in_time_order(data: Seq<SleepMetrics>) -> bool {
    forall|i: int, j: int| 0 <= i <= j < data.len() ==> data[i].timestamp <= data[j].timestamp
}

/// The data point between the samples at `i` and `i + 1`.
pub open spec fn point_at(data: Seq<SleepMetrics>, i: int) -> DataPoint {
    DataPoint {
        moved: data[i + 1].moved,
        heart_rate: (data[i].heart_rate, data[i + 1].heart_rate),
        timestamp_start: data[i].timestamp,
        timestamp_end: data[i + 1].timestamp,
    }
}

/// The data points of a night: one for each pair of neighbouring samples.
pub open spec fn points_of(data: Seq<SleepMetrics>) -> Seq<DataPoint> {
    Seq::new(
        if data.len() > 0 {
            (data.len() - 1) as nat
        } else {
            0
        },
        |i: int| point_at(data, i),
    )
}

/// What the detector keeps between data points: how long the wearer has
/// been still, how many movements it has counted, and for how long.
pub struct Watch {
    pub still_for: int,
    pub jumps: int,
    pub counting_for: int,
}

/// The distance between two heart rates.
pub open spec fn rate_gap(a: u8, b: u8) -> int {
    if a >= b {
        a - b
    } else {
        b - a
    }
}

/// The movements counted and the time they were counted for, once the time
/// of a data point has been added: both start anew when the time exceeds
/// the time to forget, and a movement at the data point is counted.
pub open spec fn count_jumps(w: Watch, p: DataPoint, opt: DetectionOptions) -> (int, int) {
    let counting_for = w.counting_for + p.span();
    let (jumps, counting_for) = if counting_for > opt.time_to_reset_jumps {
        (0int, 0int)
    } else {
        (w.jumps, counting_for)
    };
    (
        if p.moved {
            jumps + 1
        } else {
            jumps
        },
        counting_for,
    )
}

/// Whether a data point breaks the stillness: too many movements, a heart
/// rate too far from the resting rate at either end, or too long a gap.
pub open spec fn breaks(w: Watch, p: DataPoint, opt: DetectionOptions, resting: u8) -> bool {
    count_jumps(w, p, opt).0 > opt.allowed_magnitude_jumps || rate_gap(resting, p.heart_rate.0)
        > opt.max_heart_rate_diff || rate_gap(resting, p.heart_rate.1) > opt.max_heart_rate_diff
        || p.span() > opt.max_delay
}

/// The watch after a data point.
pub open spec fn watch_next(w: Watch, p: DataPoint, opt: DetectionOptions, resting: u8) -> Watch {
    let (jumps, counting_for) = count_jumps(w, p, opt);
    if breaks(w, p, opt, resting) {
        Watch { still_for: 0, jumps: 0, counting_for }
    } else {
        Watch { still_for: w.still_for + p.span(), jumps, counting_for }
    }
}

/// The watch after the first `n` data points.
pub open spec fn watch_after(
    points: Seq<DataPoint>,
    n: int,
    opt: DetectionOptions,
    resting: u8,
) -> Watch
    decreases n,
{
    if n <= 0 {
        Watch { still_for: 0, jumps: 0, counting_for: 0 }
    } else {
        watch_next(watch_after(points, n - 1, opt, resting), points[n - 1], opt, resting)
    }
}

/// Whether the data point at `i` counts as sleep: it does not break the
/// stillness, and with it the stillness has lasted long enough.
pub open spec fn asleep_at(points: Seq<DataPoint>, i: int, opt: DetectionOptions, resting: u8) -> bool {
    let w = watch_after(points, i, opt, resting);
    !breaks(w, points[i], opt, resting) && w.still_for + points[i].span()
        >= opt.duration_for_movement
}

/// The data points among the first `n` that count as sleep, each with its
/// index, in ascending order.
pub open spec fn asleep_among(
    points: Seq<DataPoint>,
    n: int,
    opt: DetectionOptions,
    resting: u8,
) -> Seq<(usize, DataPoint)>
    decreases n,
{
    if n <= 0 {
        Seq::empty()
    } else {
        let before = asleep_among(points, n - 1, opt, resting);
        if asleep_at(points, n - 1, opt, resting) {
            before.push(((n - 1) as usize, points[n - 1]))
        } else {
            before
        }
    }
}

/// The data points of a night that count as sleep, each with its index.
pub open spec fn detected(data: Seq<SleepMetrics>, opt: DetectionOptions, resting: u8) -> Seq<
    (usize, DataPoint),
> {
    asleep_among(points_of(data), points_of(data).len() as int, opt, resting)
}

/// The time slept over the first `n` detected data points, and the index of
/// the last of them. A data point adds its time when it directly follows
/// the one detected before it, and when none with an index above zero was
/// detected before it.
pub open spec fn slept(found: Seq<(usize, DataPoint)>, n: int) -> (int, int)
    decreases n,
{
    if n <= 0 {
        (0, 0)
    } else {
        let (prev, time) = slept(found, n - 1);
        let (index, point) = found[n - 1];
        let first = if prev == 0 {
            point.span()
        } else {
            0
        };
        let next = if prev + 1 == index {
            point.span()
        } else {
            0
        };
        (index as int, time + first + next)
    }
}

/// The time slept in a night.
pub open spec fn time_slept(data: Seq<SleepMetrics>, opt: DetectionOptions, resting: u8) -> int {
    slept(detected(data, opt, resting), detected(data, opt, resting).len() as int).1
}

/// The detected data points are data points of the night, in ascending
/// order of their indices.
pub proof fn lemma_asleep_among(points: Seq<DataPoint>, n: int, opt: DetectionOptions, resting: u8)
    requires
        0 <= n <= points.len() <= usize::MAX,
    ensures
        asleep_among(points, n, opt, resting).len() <= n,
        forall|k: int|
            0 <= k < asleep_among(points, n, opt, resting).len() ==> (#[trigger] asleep_among(
                points,
                n,
                opt,
                resting,
            )[k]).0 < n && asleep_among(points, n, opt, resting)[k].1 == points[asleep_among(
                points,
                n,
                opt,
                resting,
            )[k].0 as int],
        forall|k: int, l: int|
            0 <= k < l < asleep_among(points, n, opt, resting).len() ==> (#[trigger] asleep_among(
                points,
                n,
                opt,
                resting,
            )[k]).0 < (#[trigger] asleep_among(points, n, opt, resting)[l]).0,
    decreases n,
{
    if n > 0 {
        lemma_asleep_among(points, n - 1, opt, resting);
    }
}

/// The distance between two heart rates.
fn rate_distance(a: u8, b: u8) -> (d: u8)
    ensures
        d == rate_gap(a, b),
{
    if a >= b {
        a - b
    } else {
        b - a
    }
}

/// Finds the data points of a night that count as sleep.
///
/// The samples must be in time order. Each data point found comes with its
/// index among the data points of the night; the indices ascend.
pub fn sleep_detection(data: &Vec<SleepMetrics>, opt: DetectionOptions, resting_heart_rate: u8) -> (found:
    Vec<(usize, DataPoint)>)
    requires
        in_time_order(data@),
    ensures
        found@ == detected(data@, opt, resting_heart_rate),
{
    let mut found: Vec<(usize, DataPoint)> = Vec::new();
    if data.len() < 2 {
        return found;
    }
    let ghost points = points_of(data@);
    let mut still_for: u128 = 0;
    let mut jumps: usize = 0;
    let mut counting_for: u128 = 0;
    let mut i: usize = 0;
    while i + 1 < data.len()
        invariant
            i < data.len(),
            data.len() >= 2,
            in_time_order(data@),
            points == points_of(data@),
            found@ == asleep_among(points, i as int, opt, resting_heart_rate),
            watch_after(points, i as int, opt, resting_heart_rate) == (Watch {
                still_for: still_for as int,
                jumps: jumps as int,
                counting_for: counting_for as int,
            }),
            still_for <= data@[i as int].timestamp - data@[0].timestamp,
            counting_for <= data@[i as int].timestamp - data@[0].timestamp,
            jumps <= i,
        decreases data.len() - i,
    {
        let first = data[i];
        let second = data[i + 1];
        let point = DataPoint {
            moved: second.moved,
            heart_rate: (first.heart_rate, second.heart_rate),
            timestamp_start: first.timestamp,
            timestamp_end: second.timestamp,
        };
        assert(point == points[i as int]);
        let ghost before = Watch {
            still_for: still_for as int,
            jumps: jumps as int,
            counting_for: counting_for as int,
        };
        let time_diff: u128 = second.timestamp - first.timestamp;
        counting_for = counting_for + time_diff;
        if counting_for > opt.time_to_reset_jumps {
            jumps = 0;
            counting_for = 0;
        }
        if point.moved {
            jumps = jumps + 1;
        }
        assert((jumps as int, counting_for as int) == count_jumps(before, point, opt));
        if jumps > opt.allowed_magnitude_jumps || rate_distance(
            resting_heart_rate,
            first.heart_rate,
        ) > opt.max_heart_rate_diff || rate_distance(resting_heart_rate, second.heart_rate)
            > opt.max_heart_rate_diff || time_diff > opt.max_delay {
            assert(breaks(before, point, opt, resting_heart_rate));
            jumps = 0;
            still_for = 0;
        } else {
            assert(!breaks(before, point, opt, resting_heart_rate));
            still_for = still_for + time_diff;
            if still_for >= opt.duration_for_movement {
                found.push((i, point));
            }
        }
        i = i + 1;
    }
    found
}

/// The time slept in a night, in nanoseconds.
///
/// The samples must be in time order, and twice the time from the first
/// sample to the last must fit the result.
pub fn sleep_duration(data: &Vec<SleepMetrics>, opt: DetectionOptions, resting_heart_rate: u8) -> (nanos:
    u128)
    requires
        in_time_order(data@),
        data@.len() > 0 ==> 2 * (data@.last().timestamp - data@.first().timestamp) <= u128::MAX,
    ensures
        nanos == time_slept(data@, opt, resting_heart_rate),
{
    let found = sleep_detection(data, opt, resting_heart_rate);
    let ghost points = points_of(data@);
    let size = data.len();
    proof {
        assert(points.len() <= size);
        lemma_asleep_among(points, points.len() as int, opt, resting_heart_rate);
    }
    let mut prev_index: usize = 0;
    let mut time: u128 = 0;
    let mut reached: Ghost<int> = Ghost(0);
    let mut k: usize = 0;
    while k < found.len()
        invariant
            k <= found.len(),
            in_time_order(data@),
            points == points_of(data@),
            found@ == asleep_among(points, points.len() as int, opt, resting_heart_rate),
            data@.len() > 0 ==> 2 * (data@.last().timestamp - data@.first().timestamp) <= u128::MAX,
            forall|a: int|
                0 <= a < found@.len() ==> (#[trigger] found@[a]).0 < points.len() && found@[a].1
                    == points[found@[a].0 as int],
            forall|a: int, b: int|
                0 <= a < b < found@.len() ==> (#[trigger] found@[a]).0 < (#[trigger] found@[b]).0,
            slept(found@, k as int) == (prev_index as int, time as int),
            0 <= reached@ < data@.len() || k == 0,
            k == 0 ==> reached@ == 0 && time == 0,
            k > 0 ==> reached@ == found@[k - 1].0 + 1,
            k > 0 ==> time <= 2 * (data@[reached@].timestamp - data@[0].timestamp),
        decreases found.len() - k,
    {
        let (index, point) = found[k];
        proof {
            assert(found@[k as int].0 < points.len());
            assert(point == points[index as int]);
            assert(point == point_at(data@, index as int));
            if k > 0 {
                assert(found@[k - 1].0 < found@[k as int].0);
                assert(data@[reached@].timestamp <= data@[index as int].timestamp);
            }
            assert(data@[index + 1].timestamp <= data@[data@.len() - 1].timestamp);
            assert(data@[0].timestamp <= data@[index as int].timestamp);
        }
        let span = point.duration();
        if prev_index == 0 {
            time = time + span;
        }
        if prev_index < usize::MAX && prev_index + 1 == index {
            time = time + span;
        }
        prev_index = index;
        proof {
            reached@ = index + 1;
        }
        k = k + 1;
    }
    time
}

} // verus!
