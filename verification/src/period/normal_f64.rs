//! Temperatures: doubles as they come from the sensor, and the grid that
//! the engine decides on.
//!
//! A reading is a double-precision number that is not subnormal, held by
//! its IEEE-754 encoding. The engine takes every temperature to a grid of
//! 2^-48 degree and compares whole numbers of grid steps, so that every
//! decision against the baseline and the bands is exact. A double of at
//! least a sixteenth of a degree and less than 2^15 degrees in magnitude
//! lies on the grid as it is. A finer one goes to the nearest step, one
//! beyond the range to the end of the range, and what is not a number to
//! the upper end.

use vstd::arithmetic::power2::*;
use vstd::bits::*;
use vstd::prelude::*;

verus! {

/// Number of fractional bits of the temperature grid.
pub const FRACTION_BITS: u64 = 48;

/// Grid steps in one degree: 2^48.
pub const ONE_DEGREE: i64 = 0x1_0000_0000_0000;

/// 2^52: the weight of the implicit leading bit of a double's significand.
pub const HIDDEN_BIT: u64 = 0x10_0000_0000_0000;

/// 2^63: the sign bit of a double.
pub const SIGN_BIT: u64 = 0x8000_0000_0000_0000;

/// The biased exponent at which the significand counts grid steps one for one.
pub const UNIT_EXPONENT: u64 = 1027;

/// The biased-exponent field of a double's encoding.
pub open spec fn exponent_field(bits: u64) -> int {
    (bits as int / HIDDEN_BIT as int) % 2048
}

/// The fraction field of a double's encoding.
pub open spec fn fraction_field(bits: u64) -> int {
    bits as int % HIDDEN_BIT as int
}

/// Whether the encoding denotes a subnormal number.
pub open spec fn is_subnormal(bits: u64) -> bool {
    exponent_field(bits) == 0 && fraction_field(bits) != 0
}

/// Whether the encoding denotes what is not a number.
pub open spec fn is_not_a_number(bits: u64) -> bool {
    exponent_field(bits) == 2047 && fraction_field(bits) != 0
}

/// Whether the encoded number is a whole number of grid steps below 2^15
/// degrees in magnitude: zero, or a normal double with a biased exponent
/// `e` up to 1037 whose significand `2^52 + f` is a multiple of
/// `2^(1027 - e)`.
pub open spec fn on_grid(bits: u64) -> bool {
    let e = exponent_field(bits);
    let m = HIDDEN_BIT as int + fraction_field(bits);
    if e == 0 {
        fraction_field(bits) == 0
    } else if e >= 1027 {
        e <= 1037
    } else {
        e >= 975 && m % (pow2((1027 - e) as nat) as int) == 0
    }
}

/// The magnitude of the encoded number in grid steps.
///
/// A normal double with biased exponent `e` and fraction `f` has the
/// magnitude `(2^52 + f) * 2^(e - 1075)`, which is `(2^52 + f) * 2^(e -
/// 1027)` steps. From 2^15 degrees on, and for infinities and what is not
/// a number, the magnitude is the greatest that the grid holds. Below one
/// degree it is rounded to the nearest whole step, a half away from zero;
/// zero, subnormal numbers and all below half a step come to no step.
pub open spec fn grid_magnitude(bits: u64) -> int {
    let e = exponent_field(bits);
    let m = HIDDEN_BIT as int + fraction_field(bits);
    if e >= 1038 {
        i64::MAX as int
    } else if e >= 1027 {
        m * pow2((e - 1027) as nat)
    } else if e >= 974 {
        (m + pow2((1026 - e) as nat)) / (pow2((1027 - e) as nat) as int)
    } else {
        0
    }
}

/// The encoded number in grid steps, with its sign; what is not a number
/// counts as the upper end of the grid.
pub open spec fn grid_steps(bits: u64) -> i64 {
    if bits >= SIGN_BIT && !is_not_a_number(bits) {
        (-grid_magnitude(bits)) as i64
    } else {
        grid_magnitude(bits) as i64
    }
}

/// The magnitude in grid steps fits the grid.
pub proof fn lemma_grid_magnitude_bounds(bits: u64)
    ensures
        0 <= grid_magnitude(bits) <= i64::MAX,
{
    let e = exponent_field(bits);
    let m = HIDDEN_BIT as int + fraction_field(bits);
    lemma2_to64();
    lemma2_to64_rest();
    if e >= 1038 {
    } else if e >= 1027 {
        let shift = (e - 1027) as nat;
        if shift < 10 {
            lemma_pow2_strictly_increases(shift, 10);
        }
        lemma_pow2_pos(shift);
        assert(0 <= m * pow2(shift) < 0x20_0000_0000_0000 * 0x400) by (nonlinear_arith)
            requires
                0 <= m < 0x20_0000_0000_0000,
                0 < pow2(shift) <= 0x400,
        ;
    } else if e >= 974 {
        let shift = (1027 - e) as nat;
        let half = pow2((shift - 1) as nat);
        lemma_pow2_pos(shift);
        lemma_pow2_pos((shift - 1) as nat);
        lemma_pow2_strictly_increases((shift - 1) as nat, 53);
        let d = pow2(shift) as int;
        assert(0 <= (m + half) / d <= m + half) by (nonlinear_arith)
            requires
                0 <= m + half,
                d >= 1,
        ;
    }
}

/// A number on the grid is held exactly: its steps, scaled back, are its
/// significand.
pub proof fn lemma_on_grid_is_exact(bits: u64)
    requires
        on_grid(bits),
    ensures
        exponent_field(bits) == 0 ==> grid_magnitude(bits) == 0,
        975 <= exponent_field(bits) < 1027 ==> grid_magnitude(bits) * pow2(
            (1027 - exponent_field(bits)) as nat,
        ) == HIDDEN_BIT + fraction_field(bits),
        1027 <= exponent_field(bits) ==> grid_magnitude(bits) == (HIDDEN_BIT + fraction_field(bits))
            * pow2((exponent_field(bits) - 1027) as nat),
{
    let e = exponent_field(bits);
    let m = HIDDEN_BIT as int + fraction_field(bits);
    if 975 <= e < 1027 {
        let shift = (1027 - e) as nat;
        let d = pow2(shift) as int;
        let half = pow2((shift - 1) as nat) as int;
        lemma_pow2_pos(shift);
        lemma_pow2_pos((shift - 1) as nat);
        lemma_pow2_strictly_increases((shift - 1) as nat, shift);
        let q = m / d;
        vstd::arithmetic::div_mod::lemma_fundamental_div_mod(m, d);
        assert(m == d * q);
        assert(m + half == q * d + half) by (nonlinear_arith)
            requires
                m == d * q,
        ;
        vstd::arithmetic::div_mod::lemma_fundamental_div_mod_converse(m + half, d, q, half);
        assert(q * d == m) by (nonlinear_arith)
            requires
                m == d * q,
        ;
    }
}

/// Takes the encoding of a double to the grid.
pub fn to_grid(bits: u64) -> (steps: i64)
    ensures
        steps == grid_steps(bits),
{
    let exponent: u64 = (bits / HIDDEN_BIT) % 2048;
    let fraction: u64 = bits % HIDDEN_BIT;
    let significand: u64 = HIDDEN_BIT + fraction;
    let not_a_number = exponent == 2047 && fraction != 0;
    proof {
        lemma_grid_magnitude_bounds(bits);
        lemma2_to64();
        lemma2_to64_rest();
    }
    let magnitude: u64 = if exponent >= UNIT_EXPONENT + 11 {
        0x7fff_ffff_ffff_ffff
    } else if exponent >= UNIT_EXPONENT {
        let shift: u64 = exponent - UNIT_EXPONENT;
        proof {
            lemma_u64_shl_is_mul(significand, shift);
        }
        significand << shift
    } else if exponent >= UNIT_EXPONENT - 53 {
        let shift: u64 = UNIT_EXPONENT - exponent;
        proof {
            lemma_pow2_strictly_increases((shift - 1) as nat, 53);
            lemma_pow2_pos(shift as nat);
            lemma_pow2_pos((shift - 1) as nat);
            if shift < 53 {
                lemma_pow2_strictly_increases(shift as nat, 53);
            }
            lemma_u64_shl_is_mul(1, shift);
            lemma_u64_shl_is_mul(1, (shift - 1) as u64);
        }
        let scale: u64 = 1u64 << shift;
        let half: u64 = 1u64 << (shift - 1);
        (significand + half) / scale
    } else {
        0
    };
    assert(magnitude == grid_magnitude(bits));
    if bits >= SIGN_BIT && !not_a_number {
        -(magnitude as i64)
    } else {
        magnitude as i64
    }
}

/// A temperature as the sensor gives it: a double-precision number that
/// is not subnormal, held by its encoding.
#[derive(Clone, Copy, Debug, PartialEq, Eq, Structural)]
pub struct NormalF64 {
    bits: u64,
}

impl View for NormalF64 {
    type V = i64;

    /// The temperature in grid steps.
    open spec fn view(&self) -> i64 {
        grid_steps(self.encoding())
    }
}

impl NormalF64 {
    /// The IEEE-754 encoding of the double.
    pub closed spec fn encoding(&self) -> u64 {
        self.bits
    }

    #[verifier::type_invariant]
    spec fn is_not_subnormal(&self) -> bool {
        !is_subnormal(self.bits)
    }

    /// Takes a double by its IEEE-754 encoding. Fails for subnormal
    /// numbers, and for those only.
    pub fn try_new(bits: u64) -> (r: Option<Self>)
        ensures
            r is None <==> is_subnormal(bits),
            r matches Some(t) ==> t.encoding() == bits,
    {
        let exponent: u64 = (bits / HIDDEN_BIT) % 2048;
        let fraction: u64 = bits % HIDDEN_BIT;
        if exponent == 0 && fraction != 0 {
            return None;
        }
        Some(NormalF64 { bits })
    }

    /// The IEEE-754 encoding of the double, which is not subnormal.
    pub fn into_inner(self) -> (bits: u64)
        ensures
            bits == self.encoding(),
            !is_subnormal(bits),
    {
        proof {
            use_type_invariant(&self);
        }
        self.bits
    }

    /// A temperature is set by its encoding: taking the encoding of one
    /// anew yields the same temperature.
    pub proof fn lemma_set_by_encoding(self, other: Self)
        requires
            self.encoding() == other.encoding(),
        ensures
            self == other,
    {
    }

    /// The temperature in grid steps of 2^-48 degree.
    pub fn steps(self) -> (steps: i64)
        ensures
            steps == self@,
    {
        to_grid(self.bits)
    }
}

} // verus!
