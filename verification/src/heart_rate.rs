//! Reference heart-rate figures: training zones and typical variability by age.

use vstd::prelude::*;

verus! {

/// Training zone.
#[derive(Clone, Copy, Debug, PartialEq, Eq, Structural)]
pub enum ActivityKind {
    VO2,
    Anaerobic,
    Aerobic,
    FatBurn,
    WarmUp,
}

impl Default for ActivityKind {
    fn default() -> (kind: Self)
        ensures
            kind == ActivityKind::Anaerobic,
    {
        ActivityKind::Anaerobic
    }
}

impl ActivityKind {
    /// The share of the heart-rate reserve that the zone aims at, in tenths.
    pub open spec fn intensity_tenths(self) -> u8 {
        match self {
            ActivityKind::VO2 => 9,
            ActivityKind::Anaerobic => 8,
            ActivityKind::Aerobic => 7,
            ActivityKind::FatBurn => 6,
            ActivityKind::WarmUp => 5,
        }
    }

    /// The share of the heart-rate reserve that the zone aims at, in tenths.
    pub fn intensity_coef(self) -> (tenths: u8)
        ensures
            tenths == self.intensity_tenths(),
    {
        match self {
            ActivityKind::VO2 => 9,
            ActivityKind::Anaerobic => 8,
            ActivityKind::Aerobic => 7,
            ActivityKind::FatBurn => 6,
            ActivityKind::WarmUp => 5,
        }
    }
}

/// Typical heart-rate variability of a man of the given age, in milliseconds.
pub open spec fn male_vhr_millis(age: u8) -> u64 {
    if age < 26 {
        61
    } else if age < 31 {
        56
    } else if age < 36 {
        49
    } else if age < 41 {
        43
    } else if age < 46 {
        37
    } else if age < 51 {
        34
    } else if age < 56 {
        32
    } else {
        31
    }
}

/// Typical heart-rate variability of a woman of the given age, in milliseconds.
pub open spec fn female_vhr_millis(age: u8) -> u64 {
    if age < 26 {
        57
    } else if age < 31 {
        53
    } else if age < 36 {
        47
    } else if age < 41 {
        42
    } else if age < 46 {
        37
    } else if age < 51 {
        34
    } else if age < 56 {
        33
    } else {
        31
    }
}

/// Average heart-rate variability for a man of `age` years, in milliseconds.
pub fn average_vhr_by_age_for_male(age: u8) -> (ms: u64)
    ensures
        ms == male_vhr_millis(age),
{
    if age < 26 {
        61
    } else if age < 31 {
        56
    } else if age < 36 {
        49
    } else if age < 41 {
        43
    } else if age < 46 {
        37
    } else if age < 51 {
        34
    } else if age < 56 {
        32
    } else {
        31
    }
}

/// Average heart-rate variability for a woman of `age` years, in milliseconds.
pub fn average_vhr_by_age_for_female(age: u8) -> (ms: u64)
    ensures
        ms == female_vhr_millis(age),
{
    if age < 26 {
        57
    } else if age < 31 {
        53
    } else if age < 36 {
        47
    } else if age < 41 {
        42
    } else if age < 46 {
        37
    } else if age < 51 {
        34
    } else if age < 56 {
        33
    } else {
        31
    }
}

} // verus!
