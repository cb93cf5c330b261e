//! Verified analytics over wearable-sensor streams.

pub mod activity_duration;
pub mod calorie_burnt;
pub mod heart_rate;
pub mod period;
pub mod sleep;
pub mod steps;
