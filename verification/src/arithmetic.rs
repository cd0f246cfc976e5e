//! Subtraction, multiplication, division and comparison of binary64 numbers.
//!
//! Each operation gives the number nearest to the exact result, and of two equally
//! near ones the one with the even code.

use vstd::arithmetic::mul::*;
use vstd::arithmetic::power2::*;
use vstd::prelude::*;

use crate::binary64::{magnitude, nan, signed, Binary64, BINADE, GRAINS_LOG, INFINITE, QUIET, SIGN};
use crate::rounding::{
    lemma_half_ratio, lemma_magnitude_increases, lemma_magnitude_parts, lemma_rounded_zero, raised,
    round_ratio, rounded,
};

verus! {

/// `a - b`.
pub open spec fn difference(a: Binary64, b: Binary64) -> Binary64 {
    if a.is_nan() || b.is_nan() || (a.is_infinite() && b.is_infinite() && a.negative()
        == b.negative()) {
        nan()
    } else if a.is_infinite() {
        a
    } else if b.is_infinite() {
        signed(!b.negative(), INFINITE as nat)
    } else {
        let exact = a.value() - b.value();
        if exact == 0 {
            signed(a.negative() && !b.negative(), 0)
        } else if exact > 0 {
            signed(false, rounded(exact as nat, 1))
        } else {
            signed(true, rounded((-exact) as nat, 1))
        }
    }
}

/// `a * b`.
pub open spec fn product(a: Binary64, b: Binary64) -> Binary64 {
    let negative = a.negative() != b.negative();
    if a.is_nan() || b.is_nan() || (a.is_infinite() && b.is_zero()) || (a.is_zero()
        && b.is_infinite()) {
        nan()
    } else if a.is_infinite() || b.is_infinite() {
        signed(negative, INFINITE as nat)
    } else {
        signed(negative, rounded(a.grains() * b.grains(), pow2(GRAINS_LOG as nat)))
    }
}

/// `a / b`.
pub open spec fn quotient(a: Binary64, b: Binary64) -> Binary64 {
    let negative = a.negative() != b.negative();
    if a.is_nan() || b.is_nan() || (a.is_infinite() && b.is_infinite()) || (a.is_zero()
        && b.is_zero()) {
        nan()
    } else if a.is_infinite() || b.is_zero() {
        signed(negative, INFINITE as nat)
    } else if b.is_infinite() {
        signed(negative, 0)
    } else {
        signed(negative, rounded(a.grains() * pow2(GRAINS_LOG as nat), b.grains()))
    }
}

/// The distance between the values of two numbers, in grains.
pub open spec fn gap(a: Binary64, b: Binary64) -> nat {
    if a.value() >= b.value() {
        (a.value() - b.value()) as nat
    } else {
        (b.value() - a.value()) as nat
    }
}

/// Two to the power of `n`.
fn power_of_two(n: u64) -> (r: u128)
    requires
        n <= 64,
    ensures
        r == pow2(n as nat),
        r <= 0x1_0000_0000_0000_0000,
{
    let mut r: u128 = 1;
    let mut i: u64 = 0;
    proof {
        lemma2_to64();
    }
    while i < n
        invariant
            i <= n <= 64,
            r == pow2(i as nat),
            r <= 0x1_0000_0000_0000_0000,
            pow2(64) == 0x1_0000_0000_0000_0000,
        decreases n - i,
    {
        proof {
            lemma_pow2_unfold((i + 1) as nat);
            if i + 1 < 64 {
                lemma_pow2_strictly_increases((i + 1) as nat, 64);
            }
        }
        r = 2 * r;
        i = i + 1;
    }
    r
}

/// Takes the magnitude of a code apart into `m * 2^t`.
pub(crate) fn parts(code: u64) -> (r: (u64, u64))
    requires
        code <= INFINITE,
    ensures
        magnitude(code as nat) == r.0 * pow2(r.1 as nat),
        code == r.1 * BINADE + r.0,
        r.0 < 2 * BINADE,
        r.1 == 0 || r.0 >= BINADE,
        r.1 <= 2046,
        code < INFINITE ==> r.1 <= 2045,
{
    let ghost expected = lemma_magnitude_parts(code as nat);
    if code < BINADE {
        (code, 0)
    } else {
        (BINADE + code % BINADE, code / BINADE - 1)
    }
}

/// The code nearest to the sum, or to the difference, of two finite magnitudes, or to
/// half of it.
fn combine(high: u64, low: u64, subtract: bool, halve: bool) -> (code: u64)
    requires
        low <= high < INFINITE,
    ensures
        !subtract ==> code == rounded(
            magnitude(high as nat) + magnitude(low as nat),
            if halve { 2 } else { 1 },
        ),
        subtract ==> code == rounded(
            (magnitude(high as nat) - magnitude(low as nat)) as nat,
            if halve { 2 } else { 1 },
        ),
        code <= INFINITE,
{
    let (m1, t1) = parts(high);
    let (m2, t2) = parts(low);
    let ghost big = magnitude(high as nat);
    let ghost small = magnitude(low as nat);
    let ghost p: nat = if subtract {
        (big - small) as nat
    } else {
        big + small
    };
    proof {
        if low < high {
            lemma_magnitude_increases(low as nat, high as nat);
        }
        assert(t2 <= t1) by (nonlinear_arith)
            requires
                t1 * BINADE + m1 >= t2 * BINADE + m2,
                m1 < 2 * BINADE,
                t1 == 0 || m1 >= BINADE,
                t2 == 0 || m2 >= BINADE,
                m1 >= 0,
                m2 >= 0,
                BINADE == 0x0010_0000_0000_0000,
        ;
        lemma2_to64();
    }
    let d: u64 = t1 - t2;
    let less: i32 = if halve {
        1
    } else {
        0
    };
    let ghost q: nat = if halve {
        2
    } else {
        1
    };
    if low == 0 {
        proof {
            lemma_mul_basics(pow2(t2 as nat) as int);
            lemma_mul_basics(p as int);
            lemma_mul_basics(pow2(t1 as nat) as int);
            lemma_half_ratio(m1 as nat, t1 as int, false, p);
        }
        round_ratio(m1 as u128, t1 as i32 - less, false, Ghost(p), Ghost(q))
    } else if d <= 64 {
        let scale = power_of_two(d);
        let ghost unit = pow2(t2 as nat);
        proof {
            lemma_pow2_adds(d as nat, t2 as nat);
            lemma_mul_basics(p as int);
            lemma_mul_basics(unit as int);
            lemma_mul_inequality(m1 as int, 2 * BINADE as int, scale as int);
            lemma_mul_inequality(scale as int, 0x1_0000_0000_0000_0000, 2 * BINADE as int);
            lemma_mul_is_commutative(2 * BINADE as int, scale as int);
            assert(big == (m1 * scale) * unit) by (nonlinear_arith)
                requires
                    big == m1 * (scale * unit),
            ;
            assert(big + small == (m1 * scale + m2) * unit) by (nonlinear_arith)
                requires
                    big == (m1 * scale) * unit,
                    small == m2 * unit,
            ;
            assert(big - small == (m1 * scale - m2) * unit) by (nonlinear_arith)
                requires
                    big == (m1 * scale) * unit,
                    small == m2 * unit,
            ;
            lemma_pow2_pos(t2 as nat);
            if subtract {
                assert(m1 * scale >= m2) by (nonlinear_arith)
                    requires
                        (m1 * scale - m2) * unit >= 0,
                        unit > 0,
                ;
            }
        }
        let h: u128 = if subtract {
            m1 as u128 * scale - m2 as u128
        } else {
            m1 as u128 * scale + m2 as u128
        };
        proof {
            lemma_half_ratio(h as nat, t2 as int, false, p);
        }
        round_ratio(h, t2 as i32 - less, false, Ghost(p), Ghost(q))
    } else {
        let ghost unit = pow2((t1 - 10) as nat);
        proof {
            lemma_pow2_adds(10, (t1 - 10) as nat);
            lemma_mul_basics(p as int);
            lemma_mul_basics(unit as int);
            assert(big == (m1 * 1024) * unit) by (nonlinear_arith)
                requires
                    big == m1 * (1024 * unit),
            ;
            assert(0 < small < unit) by {
                lemma2_to64_rest();
                assert(m2 > 0);
                lemma_pow2_adds(53, t2 as nat);
                lemma_pow2_pos(t2 as nat);
                lemma_pow2_strictly_increases((53 + t2) as nat, (t1 - 10) as nat);
                lemma_mul_strict_inequality(m2 as int, 2 * BINADE as int, pow2(t2 as nat) as int);
                lemma_mul_strictly_positive(m2 as int, pow2(t2 as nat) as int);
            }
            assert((m1 * 1024 + 1) * unit == big + unit) by (nonlinear_arith)
                requires
                    big == (m1 * 1024) * unit,
            ;
            assert((m1 * 1024 - 1) * unit == big - unit) by (nonlinear_arith)
                requires
                    big == (m1 * 1024) * unit,
            ;
        }
        let h: u128 = if subtract {
            m1 as u128 * 1024 - 1
        } else {
            m1 as u128 * 1024
        };
        proof {
            lemma_half_ratio(h as nat, t1 - 10, true, p);
        }
        round_ratio(h, t1 as i32 - 10 - less, true, Ghost(p), Ghost(q))
    }
}

/// The code nearest to the product of two finite magnitudes.
fn multiply(one: u64, two: u64) -> (code: u64)
    requires
        one < INFINITE,
        two < INFINITE,
    ensures
        code == rounded(
            magnitude(one as nat) * magnitude(two as nat),
            pow2(GRAINS_LOG as nat),
        ),
        code <= INFINITE,
{
    let (m1, t1) = parts(one);
    let (m2, t2) = parts(two);
    let e: i32 = t1 as i32 + t2 as i32 - 1074;
    let ghost q = pow2(GRAINS_LOG as nat);
    let ghost p = magnitude(one as nat) * magnitude(two as nat);
    proof {
        lemma_mul_inequality(m1 as int, 2 * BINADE as int, m2 as int);
        lemma_mul_inequality(m2 as int, 2 * BINADE as int, 2 * BINADE as int);
        lemma_mul_is_commutative(2 * BINADE as int, m2 as int);
        lemma_mul_nonnegative(m1 as int, m2 as int);
        lemma_pow2_pos(GRAINS_LOG as nat);
        lemma_pow2_adds(t1 as nat, t2 as nat);
        let joint = pow2((t1 + t2) as nat);
        assert(p == (m1 * m2) * joint) by (nonlinear_arith)
            requires
                p == (m1 * pow2(t1 as nat)) * (m2 * pow2(t2 as nat)),
                joint == pow2(t1 as nat) * pow2(t2 as nat),
        ;
        lemma2_to64();
        if e >= 0 {
            lemma_pow2_adds(e as nat, GRAINS_LOG as nat);
            lemma_mul_basics(p as int);
        } else {
            lemma_pow2_adds((-e) as nat, (t1 + t2) as nat);
            lemma_mul_basics(q as int);
            assert(((m1 * m2) * joint) * raised(-e) == (m1 * m2) * q) by (nonlinear_arith)
                requires
                    raised(-e) * joint == q,
            ;
        }
    }
    round_ratio(m1 as u128 * m2 as u128, e, false, Ghost(p), Ghost(q))
}

/// The code nearest to the quotient of two finite magnitudes.
fn divide(one: u64, two: u64) -> (code: u64)
    requires
        0 < one < INFINITE,
        0 < two < INFINITE,
    ensures
        code == rounded(
            magnitude(one as nat) * pow2(GRAINS_LOG as nat),
            magnitude(two as nat),
        ),
        code <= INFINITE,
{
    let (m1, t1) = parts(one);
    let (m2, t2) = parts(two);
    // The dividend is shifted up until it has the full number of bits.
    let mut m: u64 = m1;
    let mut z: u64 = 0;
    proof {
        lemma2_to64();
        lemma_mul_basics(m1 as int);
    }
    while m < BINADE
        invariant
            0 < m < 2 * BINADE,
            m == m1 * pow2(z as nat),
            m >= z + 1,
        decreases 2 * BINADE - m,
    {
        proof {
            lemma_pow2_unfold((z + 1) as nat);
            assert(2 * m == m1 * pow2((z + 1) as nat)) by (nonlinear_arith)
                requires
                    m == m1 * pow2(z as nat),
                    pow2((z + 1) as nat) == 2 * pow2(z as nat),
            ;
        }
        m = 2 * m;
        z = z + 1;
    }
    proof {
        assert(z <= 52) by {
            if z > 52 {
                lemma2_to64_rest();
                if z > 53 {
                    lemma_pow2_strictly_increases(53, z as nat);
                }
                lemma_mul_inequality(1, m1 as int, pow2(z as nat) as int);
            }
        }
    }
    let shifted: u128 = m as u128 * 0x1000_0000_0000_0000;
    let divisor: u128 = m2 as u128;
    let h: u128 = shifted / divisor;
    let rest: u128 = shifted % divisor;
    let e: i32 = t1 as i32 - t2 as i32 - z as i32 + 1014;
    let ghost p = magnitude(one as nat) * pow2(GRAINS_LOG as nat);
    let ghost q = magnitude(two as nat);
    proof {
        let g2 = pow2(t2 as nat);
        lemma_pow2_pos(t2 as nat);
        lemma_mul_strictly_positive(m2 as int, g2 as int);
        assert(shifted == h * divisor + rest && rest < divisor) by (nonlinear_arith)
            requires
                h == shifted / divisor,
                rest == shifted % divisor,
                divisor > 0,
        ;
        assert(h >= 2 * BINADE) by (nonlinear_arith)
            requires
                shifted == h * divisor + rest,
                rest < divisor,
                divisor < 2 * BINADE,
                shifted >= BINADE * 0x1000_0000_0000_0000,
                BINADE == 0x0010_0000_0000_0000,
                h >= 0,
        ;
        // Both sides of the ratio are multiples of the divisor's power of two.
        let up = raised(e as int);
        let side = (up * g2) as nat;
        assert(up > 0) by {
            if e >= 0 {
                lemma_pow2_pos(e as nat);
            }
        }
        lemma_mul_strictly_positive(up as int, g2 as int);
        assert(p * raised(-e) == shifted * side) by {
            lemma2_to64_rest();
            let x1 = pow2(t1 as nat);
            let xg = pow2(GRAINS_LOG as nat);
            let xz = pow2(z as nat);
            let x60 = pow2(60);
            let down = raised(-e);
            lemma_pow2_adds(t1 as nat, GRAINS_LOG as nat);
            lemma_pow2_adds(z as nat, 60);
            if e >= 0 {
                lemma_pow2_adds(e as nat, t2 as nat);
                lemma_pow2_adds((z + 60) as nat, (e + t2) as nat);
                lemma_mul_basics((x1 * xg) as int);
            } else {
                lemma_pow2_adds((t1 + GRAINS_LOG) as nat, (-e) as nat);
                lemma_pow2_adds((z + 60) as nat, t2 as nat);
                lemma_mul_basics(g2 as int);
            }
            assert((x1 * xg) * down == (xz * x60) * side);
            assert(p * down == shifted * side) by (nonlinear_arith)
                requires
                    p == (m1 * x1) * xg,
                    (x1 * xg) * down == (xz * x60) * side,
                    shifted == (m1 * xz) * x60,
            ;
        }
        assert(raised(e as int) * q == m2 * side) by (nonlinear_arith)
            requires
                side == up * g2,
                up == raised(e as int),
                q == m2 * g2,
        ;
        let unit = raised(e as int) * q;
        assert(h * unit == (h * divisor) * side) by (nonlinear_arith)
            requires
                unit == divisor * side,
        ;
        assert((h + 1) * unit == (h * divisor + divisor) * side) by (nonlinear_arith)
            requires
                unit == divisor * side,
        ;
        if rest != 0 {
            lemma_mul_strict_inequality(h * divisor, shifted as int, side as int);
            lemma_mul_strict_inequality(shifted as int, h * divisor + divisor, side as int);
        }
    }
    round_ratio(h, e, rest != 0, Ghost(p), Ghost(q))
}

impl Binary64 {
    /// The number with the given bits.
    pub fn from_bits(bits: u64) -> (r: Binary64)
        ensures
            r.bits == bits,
    {
        Binary64 { bits }
    }

    /// The bits of the number.
    pub fn to_bits(self) -> (bits: u64)
        ensures
            bits == self.bits,
    {
        self.bits
    }

    fn split(self) -> (r: (bool, u64))
        ensures
            r.0 == self.negative(),
            r.1 == self.code(),
            r.1 < SIGN,
    {
        if self.bits >= SIGN {
            (true, self.bits - SIGN)
        } else {
            (false, self.bits)
        }
    }

    /// The number with the given sign and code.
    pub(crate) fn join(negative: bool, code: u64) -> (r: Binary64)
        requires
            code < SIGN,
        ensures
            r == signed(negative, code as nat),
    {
        if negative {
            Binary64 { bits: code + SIGN }
        } else {
            Binary64 { bits: code }
        }
    }

    /// `self - other`.
    pub fn minus(self, other: Binary64) -> (r: Binary64)
        ensures
            r == difference(self, other),
    {
        let (n1, c1) = self.split();
        let (n2, c2) = other.split();
        if c1 > INFINITE || c2 > INFINITE || (c1 == INFINITE && c2 == INFINITE && n1 == n2) {
            return Binary64 { bits: QUIET };
        }
        if c1 == INFINITE {
            return self;
        }
        if c2 == INFINITE {
            return Binary64::join(!n2, INFINITE);
        }
        proof {
            if c1 < c2 {
                lemma_magnitude_increases(c1 as nat, c2 as nat);
            } else if c2 < c1 {
                lemma_magnitude_increases(c2 as nat, c1 as nat);
            }
        }
        if n1 != n2 {
            if c1 == 0 && c2 == 0 {
                return Binary64::join(n1, 0);
            }
            proof {
                if 0 < c1 {
                    lemma_magnitude_increases(0, c1 as nat);
                }
                if 0 < c2 {
                    lemma_magnitude_increases(0, c2 as nat);
                }
            }
            let code = if c1 >= c2 {
                combine(c1, c2, false, false)
            } else {
                combine(c2, c1, false, false)
            };
            Binary64::join(n1, code)
        } else if c1 == c2 {
            Binary64::join(false, 0)
        } else if c1 > c2 {
            Binary64::join(n1, combine(c1, c2, true, false))
        } else {
            Binary64::join(!n1, combine(c2, c1, true, false))
        }
    }

    /// The code nearest to half of the distance between two finite numbers.
    pub(crate) fn half_distance(self, other: Binary64) -> (code: u64)
        requires
            self.is_finite(),
            other.is_finite(),
        ensures
            code == rounded(gap(self, other), 2),
            code <= INFINITE,
    {
        let (n1, c1) = self.split();
        let (n2, c2) = other.split();
        proof {
            if c1 < c2 {
                lemma_magnitude_increases(c1 as nat, c2 as nat);
            } else if c2 < c1 {
                lemma_magnitude_increases(c2 as nat, c1 as nat);
            }
        }
        if c1 >= c2 {
            combine(c1, c2, n1 == n2, true)
        } else {
            combine(c2, c1, n1 == n2, true)
        }
    }

    /// `self * other`.
    pub fn times(self, other: Binary64) -> (r: Binary64)
        ensures
            r == product(self, other),
    {
        let (n1, c1) = self.split();
        let (n2, c2) = other.split();
        if c1 > INFINITE || c2 > INFINITE || (c1 == INFINITE && c2 == 0) || (c1 == 0 && c2
            == INFINITE) {
            Binary64 { bits: QUIET }
        } else if c1 == INFINITE || c2 == INFINITE {
            Binary64::join(n1 != n2, INFINITE)
        } else {
            Binary64::join(n1 != n2, multiply(c1, c2))
        }
    }

    /// `self / other`.
    pub fn over(self, other: Binary64) -> (r: Binary64)
        ensures
            r == quotient(self, other),
    {
        let (n1, c1) = self.split();
        let (n2, c2) = other.split();
        if c1 > INFINITE || c2 > INFINITE || (c1 == INFINITE && c2 == INFINITE) || (c1 == 0 && c2
            == 0) {
            Binary64 { bits: QUIET }
        } else if c1 == INFINITE || c2 == 0 {
            Binary64::join(n1 != n2, INFINITE)
        } else if c2 == INFINITE {
            Binary64::join(n1 != n2, 0)
        } else if c1 == 0 {
            proof {
                lemma_magnitude_increases(0, c2 as nat);
                lemma_rounded_zero(magnitude(c2 as nat));
                lemma_mul_basics(pow2(GRAINS_LOG as nat) as int);
            }
            Binary64::join(n1 != n2, 0)
        } else {
            Binary64::join(n1 != n2, divide(c1, c2))
        }
    }

    /// `self < other`.
    pub fn less_than(self, other: Binary64) -> (r: bool)
        ensures
            r == self.less(other),
    {
        let (n1, c1) = self.split();
        let (n2, c2) = other.split();
        proof {
            if c1 < c2 {
                lemma_magnitude_increases(c1 as nat, c2 as nat);
            } else if c2 < c1 {
                lemma_magnitude_increases(c2 as nat, c1 as nat);
            }
            if 0 < c1 {
                lemma_magnitude_increases(0, c1 as nat);
            }
            if 0 < c2 {
                lemma_magnitude_increases(0, c2 as nat);
            }
        }
        if c1 > INFINITE || c2 > INFINITE {
            false
        } else if n1 != n2 {
            n1 && (c1 != 0 || c2 != 0)
        } else if n1 {
            c1 > c2
        } else {
            c1 < c2
        }
    }

    /// `self <= other`.
    pub fn is_at_most(self, other: Binary64) -> (r: bool)
        ensures
            r == self.at_most(other),
    {
        let (_, c1) = self.split();
        let (_, c2) = other.split();
        c1 <= INFINITE && c2 <= INFINITE && !other.less_than(self)
    }

    /// Whether this is no number.
    pub fn is_not_a_number(self) -> (r: bool)
        ensures
            r == self.is_nan(),
    {
        self.split().1 > INFINITE
    }

    /// Whether this is neither infinite nor NaN.
    pub fn is_a_finite_number(self) -> (r: bool)
        ensures
            r == self.is_finite(),
    {
        self.split().1 < INFINITE
    }

    /// `self == 0`, of either sign.
    pub fn is_a_zero(self) -> (r: bool)
        ensures
            r == self.is_zero(),
    {
        self.split().1 == 0
    }
}

/// A number equals zero exactly if its code is zero.
pub proof fn lemma_equals_zero(a: Binary64)
    ensures
        a.is_zero() <==> a.equals(Binary64 { bits: 0 }),
        a.is_zero() ==> a.value() == 0,
        !a.is_zero() ==> a.grains() > 0,
{
    if a.code() > 0 {
        lemma_magnitude_increases(0, a.code());
    }
}

} // verus!
