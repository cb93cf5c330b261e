//! Menstrual-cycle phase inference from basal-temperature readings.
//!
//! A batch of readings passes through four stages, each a function of the
//! one before:
//!
//! 1. the [`store`] collates the readings by time, one per timestamp;
//! 2. [`daily`] aggregation lays day windows from the first reading on and
//!    gives each populated day a reference temperature;
//! 3. the day classifier in [`classify`] judges each day against the
//!    baseline and gives it a provisional kind;
//! 4. the phase scanner in [`scan`] walks the days, looking up to three
//!    days ahead, and confirms segments of the cycle.
//!
//! Temperatures are doubles, which the engine takes to a binary
//! fixed-point grid (see [`normal_f64`]); times are nanoseconds since an
//! arbitrary epoch. The bands that the
//! stages decide by are tenths of a degree: a rise counts from more than
//! one tenth, a day counts as near the baseline down to three tenths below
//! it, and a rise is believed up to seven tenths above it.

use vstd::prelude::*;

pub mod classify;
pub mod daily;
pub mod laws;
pub mod normal_f64;
pub mod scan;
pub mod store;

use self::classify::{classified, classify_days};
use self::daily::{daily, daily_references};
pub use self::normal_f64::NormalF64;
use self::normal_f64::{grid_steps, to_grid};
use self::scan::{scan_phases, scanned};
use self::store::{collate, collated};

verus! {

/// Length of a day window, in nanoseconds.
pub const DAY: u128 = 86_400_000_000_000;

/// One raw sensor reading. Times are nanoseconds since an arbitrary epoch.
#[derive(Clone, Copy, Debug, PartialEq, Eq, Structural)]
pub struct Record {
    pub temperature: NormalF64,
    pub heart_rate_variability: u128,
    pub timestamp: u128,
}

/// Phase of the cycle that a segment of time is assigned to.
#[derive(Clone, Copy, Debug, PartialEq, Eq, Structural)]
pub enum PeriodStage {
    PreOvulation,
    Ovulation,
    PostOvulation,
    PeriodStart,
}

/// A finished segment: a span of time and the phase assigned to it.
#[derive(Clone, Copy, Debug, PartialEq, Eq, Structural)]
pub struct Period {
    pub start_timestamp: u128,
    pub end_timestamp: u128,
    pub kind: PeriodStage,
}

/// Where an earlier cycle stood: the time of its last known event and its number.
#[derive(Clone, Copy, Debug, PartialEq, Eq, Structural)]
pub struct PreviousPeriod {
    pub timestamp: u128,
    pub cycle: u8,
}

/// The segments that a batch of readings yields against a baseline, given
/// in grid steps: the readings collated by time, aggregated by day,
/// classified and scanned.
pub open spec fn period_segments(data: Seq<Record>, base: i64) -> Seq<Period> {
    scanned(classified(daily(collated(data)), base), base)
}

/// Infers the phases of the cycle from a batch of readings and a baseline
/// temperature, which is given as the IEEE-754 encoding of a double and
/// may be any.
///
/// The readings may come in any order; of readings with one timestamp the
/// last counts. The segments come in the order of time. No input is an
/// error: readings that cannot be judged yield no segment, and an empty
/// batch yields none. No segment ends before it starts, and none starts
/// before an earlier one.
pub fn period(data: Vec<Record>, base_temperature: u64) -> (segments: Vec<Period>)
    ensures
        segments@ == period_segments(data@, grid_steps(base_temperature)),
        data@.len() == 0 ==> segments@.len() == 0,
        forall|k: int|
            0 <= k < segments@.len() ==> (#[trigger] segments@[k]).start_timestamp
                <= segments@[k].end_timestamp,
        forall|k: int, l: int|
            0 <= k <= l < segments@.len() ==> (#[trigger] segments@[k]).start_timestamp <= (
            #[trigger] segments@[l]).start_timestamp,
{
    let base = to_grid(base_temperature);
    let store = collate(&data);
    let days = daily_references(&store);
    let kinds = classify_days(&days, base);
    scan_phases(&kinds, base)
}

} // verus!
