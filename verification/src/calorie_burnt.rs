//! Personal data for calorie estimates.

use vstd::prelude::*;

verus! {

/// Sex of a person.
#[derive(Clone, Copy, Debug, PartialEq, Eq, Structural)]
pub enum Sex {
    Male,
    Female,
}

impl vstd::std_specs::convert::FromSpecImpl<Sex> for bool {
    open spec fn obeys_from_spec() -> bool {
        true
    }

    open spec fn from_spec(value: Sex) -> bool {
        value is Male
    }
}

impl From<Sex> for bool {
    fn from(value: Sex) -> (male: bool) {
        match value {
            Sex::Male => true,
            Sex::Female => false,
        }
    }
}

impl vstd::std_specs::convert::FromSpecImpl<bool> for Sex {
    open spec fn obeys_from_spec() -> bool {
        true
    }

    open spec fn from_spec(male: bool) -> Sex {
        if male {
            Sex::Male
        } else {
            Sex::Female
        }
    }
}

impl From<bool> for Sex {
    fn from(male: bool) -> (sex: Self) {
        if male {
            Sex::Male
        } else {
            Sex::Female
        }
    }
}

} // verus!
