//! Numbers of IEEE 754's binary64 format, held by their bit patterns.
//!
//! Prices, sizes and balances are binary64 numbers. A number without its sign bit
//! is called its *code*. Codes up to the one of infinity are in the order of the
//! magnitudes that they stand for, and every finite magnitude is a whole number of
//! *grains*, a grain being the smallest positive number of the format (two to the
//! power of -1074).

use vstd::arithmetic::power2::pow2;
use vstd::prelude::*;

verus! {

/// Two to the power of 52: the number of codes that share one exponent.
pub const BINADE: u64 = 0x0010_0000_0000_0000;

/// The code of infinity. Greater codes are not numbers.
pub const INFINITE: u64 = 0x7ff0_0000_0000_0000;

/// The sign bit.
pub const SIGN: u64 = 0x8000_0000_0000_0000;

/// The code of the one NaN that arithmetic produces.
pub const QUIET: u64 = 0x7ff8_0000_0000_0000;

/// The number of grains in one is two to this power.
pub const GRAINS_LOG: u64 = 1074;

/// A number of the binary64 format.
#[derive(Clone, Copy, Debug)]
pub struct Binary64 {
    /// Sign bit, eleven exponent bits and fifty-two fraction bits.
    pub bits: u64,
}

/// The magnitude that `code` stands for, in grains. For the code of infinity this is
/// the first magnitude beyond the finite ones.
pub open spec fn magnitude(code: nat) -> nat {
    if code < BINADE {
        code
    } else {
        (BINADE + code % (BINADE as nat)) as nat * pow2((code / (BINADE as nat) - 1) as nat)
    }
}

/// The number with the given sign and code.
pub open spec fn signed(negative: bool, code: nat) -> Binary64 {
    Binary64 { bits: (code + if negative { SIGN as nat } else { 0 }) as u64 }
}

/// The NaN that arithmetic produces.
pub open spec fn nan() -> Binary64 {
    Binary64 { bits: QUIET }
}

impl Binary64 {
    /// Whether the sign bit is set.
    pub open spec fn negative(self) -> bool {
        self.bits >= SIGN
    }

    /// The bits without the sign.
    pub open spec fn code(self) -> nat {
        if self.bits >= SIGN {
            (self.bits - SIGN) as nat
        } else {
            self.bits as nat
        }
    }

    pub open spec fn is_nan(self) -> bool {
        self.code() > INFINITE
    }

    pub open spec fn is_infinite(self) -> bool {
        self.code() == INFINITE
    }

    pub open spec fn is_finite(self) -> bool {
        self.code() < INFINITE
    }

    pub open spec fn is_zero(self) -> bool {
        self.code() == 0
    }

    /// The magnitude in grains.
    pub open spec fn grains(self) -> nat {
        magnitude(self.code())
    }

    /// The value in grains, with its sign. Infinity counts as the first magnitude
    /// beyond the finite ones, so that values are ordered as their numbers are.
    pub open spec fn value(self) -> int {
        if self.negative() {
            -(self.grains() as int)
        } else {
            self.grains() as int
        }
    }

    /// Whether the two numbers are equal: both zeros are, and a NaN never is.
    pub open spec fn equals(self, other: Binary64) -> bool {
        !self.is_nan() && !other.is_nan() && self.value() == other.value()
    }

    /// Whether this number is at most `other`. A NaN is neither.
    pub open spec fn at_most(self, other: Binary64) -> bool {
        !self.is_nan() && !other.is_nan() && self.value() <= other.value()
    }

    /// Whether this number is less than `other`. A NaN is neither less nor greater.
    pub open spec fn less(self, other: Binary64) -> bool {
        !self.is_nan() && !other.is_nan() && self.value() < other.value()
    }
}

} // verus!
