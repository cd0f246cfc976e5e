//! Laws of the arithmetic.

use vstd::arithmetic::mul::*;
use vstd::arithmetic::power::*;
use vstd::arithmetic::power2::*;
use vstd::prelude::*;

use crate::arithmetic::{difference, lemma_equals_zero, product, quotient};
use crate::binary64::{magnitude, signed, Binary64, BINADE, GRAINS_LOG, INFINITE};
use crate::decimal::rounded_decimal;
use crate::rounding::{
    distance, lemma_magnitude_increases, lemma_magnitude_packed, lemma_nearest_unique,
    lemma_rounded_is, lemma_rounded_nearest, rounded,
};
use crate::strategy::{number, ONE, ZERO};

verus! {

/// Rounding goes no higher than a magnitude that the ratio does not exceed.
pub proof fn law_rounding_stays_below(p: nat, q: nat, code: nat)
    requires
        q > 0,
        code <= INFINITE,
        p <= magnitude(code) * q,
    ensures
        rounded(p, q) <= code,
{
    lemma_rounded_nearest(p, q);
    let r = rounded(p, q);
    if r > code {
        lemma_magnitude_increases(code, r);
        lemma_mul_strict_inequality(magnitude(code) as int, magnitude(r) as int, q as int);
        assert(distance(p, q, code) < distance(p, q, r));
    }
}

/// Rounding goes no lower than a magnitude that the ratio reaches.
pub proof fn law_rounding_stays_above(p: nat, q: nat, code: nat)
    requires
        q > 0,
        code <= INFINITE,
        magnitude(code) * q <= p,
    ensures
        rounded(p, q) >= code,
{
    lemma_rounded_nearest(p, q);
    let r = rounded(p, q);
    if r < code {
        lemma_magnitude_increases(r, code);
        lemma_mul_strict_inequality(magnitude(r) as int, magnitude(code) as int, q as int);
        assert(distance(p, q, code) < distance(p, q, r));
    }
}

/// A magnitude of the format is its own rounding.
pub proof fn law_rounding_keeps_exact(q: nat, code: nat)
    requires
        q > 0,
        code <= INFINITE,
    ensures
        rounded(magnitude(code) * q, q) == code,
{
    law_rounding_stays_below(magnitude(code) * q, q, code);
    law_rounding_stays_above(magnitude(code) * q, q, code);
}

/// Rounding depends on the ratio only, not on how it is written.
pub proof fn law_rounding_depends_on_the_ratio(p: nat, q: nat, scale: nat)
    requires
        q > 0,
        scale > 0,
    ensures
        rounded(p * scale, q * scale) == rounded(p, q),
{
    let code = rounded(p, q);
    lemma_rounded_nearest(p, q);
    lemma_mul_strictly_positive(q as int, scale as int);
    assert forall|other: nat| #[trigger]
        distance(p * scale, q * scale, other) == distance(p, q, other) * scale by {
        lemma_distance_scaled(p, q, scale, other);
    }
    assert forall|other: nat| other <= INFINITE && other != code implies {
        ||| distance(p * scale, q * scale, code) < #[trigger] distance(p * scale, q * scale, other)
        ||| distance(p * scale, q * scale, code) == distance(p * scale, q * scale, other) && code % 2
            == 0
    } by {
        let near = distance(p, q, code);
        let far = distance(p, q, other);
        if near < far {
            lemma_mul_strict_inequality(near as int, far as int, scale as int);
        }
    }
    lemma_rounded_is(p * scale, q * scale, code);
}

proof fn lemma_distance_scaled(p: nat, q: nat, scale: nat, code: nat)
    requires
        scale > 0,
    ensures
        distance(p * scale, q * scale, code) == distance(p, q, code) * scale,
{
    let m = magnitude(code);
    let there = m * q;
    assert(m * (q * scale) == there * scale) by (nonlinear_arith)
        requires
            there == m * q,
    ;
    if there >= p {
        lemma_mul_inequality(p as int, there as int, scale as int);
        lemma_mul_is_distributive_sub_other_way(scale as int, there as int, p as int);
    } else {
        lemma_mul_strict_inequality(there as int, p as int, scale as int);
        lemma_mul_is_distributive_sub_other_way(scale as int, p as int, there as int);
    }
}

/// A greater ratio never rounds to a lesser magnitude.
pub proof fn law_rounding_keeps_the_order(p1: nat, q1: nat, p2: nat, q2: nat)
    requires
        q1 > 0,
        q2 > 0,
        p1 * q2 <= p2 * q1,
    ensures
        rounded(p1, q1) <= rounded(p2, q2),
{
    law_rounding_depends_on_the_ratio(p1, q1, q2);
    law_rounding_depends_on_the_ratio(p2, q2, q1);
    lemma_mul_is_commutative(q1 as int, q2 as int);
    lemma_mul_strictly_positive(q1 as int, q2 as int);
    let q = q1 * q2;
    let low = p1 * q2;
    let high = p2 * q1;
    lemma_rounded_nearest(low, q);
    lemma_rounded_nearest(high, q);
    let r1 = rounded(low, q);
    let r2 = rounded(high, q);
    if r2 < r1 {
        lemma_magnitude_increases(r2, r1);
        lemma_mul_strict_inequality(magnitude(r2) as int, magnitude(r1) as int, q as int);
        assert(distance(low, q, r1) <= distance(low, q, r2));
        assert(distance(high, q, r2) <= distance(high, q, r1));
        lemma_nearest_unique(low, q, r1, r2);
    }
}

/// A zero behind the last decimal makes no difference to how a number is read.
pub proof fn law_trailing_zero_makes_no_difference(d: nat, k: int)
    ensures
        rounded_decimal(10 * d, k - 1) == rounded_decimal(d, k),
{
    let grain = pow2(GRAINS_LOG as nat);
    let grains = d * grain;
    lemma_pow1(10);
    lemma_pow0(10);
    assert((10 * d) * grain == grains * 10) by (nonlinear_arith)
        requires
            grains == d * grain,
    ;
    if k > 0 {
        let tens = pow(10, (k - 1) as nat);
        lemma_pow_adds(10, (k - 1) as nat, 1);
        assert((grains * 10) * tens == grains * (tens * 10)) by (nonlinear_arith);
    } else {
        lemma_pow_positive(10, (-k) as nat);
        lemma_pow_adds(10, (-k) as nat, 1);
        if k == 0 {
            lemma_mul_basics(grains as int);
        }
        law_rounding_depends_on_the_ratio(grains, pow(10, (-k) as nat) as nat, 10);
    }
}

/// What a sign and a code up to infinity make up.
proof fn lemma_signed(negative: bool, code: nat)
    requires
        code <= INFINITE,
    ensures
        ({
            let r = signed(negative, code);
            &&& r.negative() == negative
            &&& r.code() == code
            &&& !r.is_nan()
            &&& code == 0 <==> r.value() == 0
            &&& code > 0 && !negative ==> r.value() > 0
            &&& code > 0 && negative ==> r.value() < 0
        }),
{
    if code > 0 {
        lemma_magnitude_increases(0, code);
    }
}

/// Finite magnitudes are below that of infinity.
proof fn lemma_finite_below_infinite(a: Binary64)
    requires
        a.is_finite(),
    ensures
        a.grains() < magnitude(INFINITE as nat),
{
    lemma_magnitude_increases(a.code(), INFINITE as nat);
}

/// One is two to the power of 1074 grains.
pub proof fn lemma_one()
    ensures
        number(ONE).grains() == pow2(GRAINS_LOG as nat),
{
    lemma_magnitude_packed(BINADE as nat, 1022);
    lemma2_to64_rest();
    lemma_pow2_adds(52, 1022);
}

/// A difference is above zero exactly if the first number is the greater, and below
/// zero exactly if it is the lesser. It is never rounded to zero.
pub proof fn law_difference_has_the_sign_of_the_order(a: Binary64, b: Binary64)
    requires
        !a.is_nan(),
        !b.is_nan(),
    ensures
        number(ZERO).less(difference(a, b)) <==> b.less(a),
        difference(a, b).less(number(ZERO)) <==> a.less(b),
{
    lemma_equals_zero(number(ZERO));
    lemma_signed(true, INFINITE as nat);
    lemma_signed(false, INFINITE as nat);
    lemma_signed(a.negative(), a.code());
    lemma_signed(true, 0);
    lemma_signed(false, 0);
    if a.is_finite() {
        lemma_finite_below_infinite(a);
    }
    if b.is_finite() {
        lemma_finite_below_infinite(b);
    }
    if a.is_finite() && b.is_finite() {
        let exact = a.value() - b.value();
        assert(magnitude(1) == 1);
        if exact > 0 {
            lemma_rounded_nearest(exact as nat, 1);
            law_rounding_stays_above(exact as nat, 1, 1);
            lemma_signed(false, rounded(exact as nat, 1));
        } else if exact < 0 {
            lemma_rounded_nearest((-exact) as nat, 1);
            law_rounding_stays_above((-exact) as nat, 1, 1);
            lemma_signed(true, rounded((-exact) as nat, 1));
        }
    }
}

/// A product of numbers is not NaN unless an operand is or infinity meets zero, and
/// its sign bit tells whether the signs of the operands differ.
pub proof fn law_product_sign(a: Binary64, b: Binary64)
    ensures
        !product(a, b).is_nan() ==> product(a, b).negative() == (a.negative() != b.negative()),
        product(a, b).is_nan() <==> a.is_nan() || b.is_nan() || (a.is_infinite() && b.is_zero())
            || (a.is_zero() && b.is_infinite()),
{
    lemma_signed(a.negative() != b.negative(), INFINITE as nat);
    let q = pow2(GRAINS_LOG as nat);
    lemma_pow2_pos(GRAINS_LOG as nat);
    lemma_rounded_nearest(a.grains() * b.grains(), q);
    lemma_signed(a.negative() != b.negative(), rounded(a.grains() * b.grains(), q));
}

/// A quotient of numbers is not NaN unless an operand is, or both are zero, or both
/// are infinite, and its sign bit tells whether the signs of the operands differ.
pub proof fn law_quotient_sign(a: Binary64, b: Binary64)
    ensures
        !quotient(a, b).is_nan() ==> quotient(a, b).negative() == (a.negative() != b.negative()),
        quotient(a, b).is_nan() <==> a.is_nan() || b.is_nan() || (a.is_infinite()
            && b.is_infinite()) || (a.is_zero() && b.is_zero()),
{
    let negative = a.negative() != b.negative();
    lemma_signed(negative, INFINITE as nat);
    lemma_signed(negative, 0);
    if !b.is_zero() {
        lemma_equals_zero(b);
        let p = a.grains() * pow2(GRAINS_LOG as nat);
        lemma_rounded_nearest(p, b.grains());
        lemma_signed(negative, rounded(p, b.grains()));
    }
}

/// Multiplying by a number from zero to one does not increase a magnitude.
pub proof fn law_product_with_a_part(a: Binary64, part: Binary64)
    requires
        !a.is_nan(),
        !part.is_nan(),
        part.grains() <= number(ONE).grains(),
        !product(a, part).is_nan(),
    ensures
        product(a, part).grains() <= a.grains(),
{
    let q = pow2(GRAINS_LOG as nat);
    lemma_pow2_pos(GRAINS_LOG as nat);
    lemma_one();
    lemma_signed(a.negative() != part.negative(), INFINITE as nat);
    assert(!part.is_infinite()) by {
        if part.is_infinite() {
            lemma_magnitude_increases(ONE as nat, INFINITE as nat);
        }
    }
    if !a.is_infinite() {
        let p = a.grains() * part.grains();
        lemma_mul_inequality(part.grains() as int, q as int, a.grains() as int);
        lemma_mul_is_commutative(part.grains() as int, a.grains() as int);
        lemma_mul_is_commutative(q as int, a.grains() as int);
        law_rounding_stays_below(p, q, a.code());
        lemma_signed(a.negative() != part.negative(), rounded(p, q));
        if rounded(p, q) < a.code() {
            lemma_magnitude_increases(rounded(p, q), a.code());
        }
    }
}

/// Multiplying by a number from one on does not decrease a magnitude.
pub proof fn law_product_with_a_multiple(a: Binary64, multiple: Binary64)
    requires
        !a.is_nan(),
        !multiple.is_nan(),
        multiple.grains() >= number(ONE).grains(),
        !product(a, multiple).is_nan(),
    ensures
        product(a, multiple).grains() >= a.grains(),
{
    let q = pow2(GRAINS_LOG as nat);
    lemma_pow2_pos(GRAINS_LOG as nat);
    lemma_one();
    lemma_signed(a.negative() != multiple.negative(), INFINITE as nat);
    if a.is_infinite() {
    } else if multiple.is_infinite() {
        lemma_finite_below_infinite(a);
    } else {
        let p = a.grains() * multiple.grains();
        lemma_mul_inequality(q as int, multiple.grains() as int, a.grains() as int);
        lemma_mul_is_commutative(multiple.grains() as int, a.grains() as int);
        lemma_mul_is_commutative(q as int, a.grains() as int);
        law_rounding_stays_above(p, q, a.code());
        lemma_rounded_nearest(p, q);
        lemma_signed(a.negative() != multiple.negative(), rounded(p, q));
        if a.code() < rounded(p, q) {
            lemma_magnitude_increases(a.code(), rounded(p, q));
        }
    }
}

} // verus!
