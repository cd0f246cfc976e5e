//! Laws of single operations: what a bit pattern stands for, and that every result is the
//! number nearest to the exact one.

use vstd::arithmetic::mul::*;
use vstd::arithmetic::power::*;
use vstd::arithmetic::power2::*;
use vstd::prelude::*;

use crate::arithmetic::{difference, lemma_equals_zero, product, quotient};
use crate::binary64::{magnitude, signed, Binary64, BINADE, INFINITE};
use crate::decimal::{digits_value, rounded_decimal};
use crate::rounding::{
    distance, lemma_magnitude_increases, lemma_magnitude_packed, lemma_rounded_nearest,
    lemma_rounded_zero, rounded,
};

verus! {

/// The magnitude of a number.
pub open spec fn size_of(x: int) -> int {
    if x < 0 {
        -x
    } else {
        x
    }
}

/// The bits with the given sign, exponent and fraction.
pub open spec fn with_fields(negative: bool, exponent: int, fraction: int) -> Binary64 {
    Binary64 {
        bits: (fraction + exponent * 0x10_0000_0000_0000 + if negative {
            0x8000_0000_0000_0000int
        } else {
            0int
        }) as u64,
    }
}

/// What the fields of a number stand for, in grains: the fraction, with a leading bit
/// unless the exponent is zero, at the place that the exponent gives.
pub proof fn law_fields_make_the_value(negative: bool, exponent: int, fraction: int)
    requires
        0 <= exponent < 2047,
        0 <= fraction < 0x10_0000_0000_0000,
    ensures
        ({
            let x = with_fields(negative, exponent, fraction);
            let size = if exponent == 0 {
                fraction
            } else {
                (0x10_0000_0000_0000 + fraction) * pow2((exponent - 1) as nat)
            };
            &&& x.is_finite() && !x.is_infinite() && !x.is_nan()
            &&& x.negative() == negative
            &&& x.is_zero() <==> exponent == 0 && fraction == 0
            &&& x.value() == if negative {
                -size
            } else {
                size
            }
        }),
{
    let x = with_fields(negative, exponent, fraction);
    let code = exponent * 0x10_0000_0000_0000 + fraction;
    assert(x.code() == code && x.negative() == negative);
    if exponent > 0 {
        lemma_magnitude_packed((BINADE + fraction) as nat, (exponent - 1) as nat);
        assert((exponent - 1) * BINADE + (BINADE + fraction) == code);
    }
}

/// With the last exponent, a number without a fraction is infinite, beyond every finite
/// one and next to the greatest, and one with a fraction is NaN.
pub proof fn law_last_exponent_is_infinite_or_nan(negative: bool, fraction: int, other: Binary64)
    requires
        0 <= fraction < 0x10_0000_0000_0000,
    ensures
        ({
            let x = with_fields(negative, 2047, fraction);
            &&& !x.is_finite()
            &&& x.negative() == negative
            &&& x.is_infinite() <==> fraction == 0
            &&& x.is_nan() <==> fraction != 0
            &&& fraction == 0 && other.is_finite() ==> size_of(x.value()) > size_of(other.value())
            &&& fraction == 0 ==> (x.value() < 0 <==> negative)
            &&& fraction == 0 ==> size_of(x.value()) == 0x10_0000_0000_0000 * pow2(2046)
        }),
{
    let x = with_fields(negative, 2047, fraction);
    assert(x.code() == INFINITE + fraction && x.negative() == negative);
    if fraction == 0 {
        lemma_magnitude_increases(0, INFINITE as nat);
        lemma_magnitude_packed(BINADE as nat, 2046);
        if other.is_finite() {
            lemma_magnitude_increases(other.code(), INFINITE as nat);
        }
    }
}

/// Numbers are ordered by their values, and a NaN is neither below nor above nor equal to
/// anything.
pub proof fn law_order_is_that_of_the_values(a: Binary64, b: Binary64)
    ensures
        a.is_nan() || b.is_nan() ==> !a.less(b) && !a.at_most(b) && !a.equals(b),
        !a.is_nan() && !b.is_nan() ==> {
            &&& a.less(b) <==> a.value() < b.value()
            &&& a.at_most(b) <==> a.value() <= b.value()
            &&& a.equals(b) <==> a.value() == b.value()
        },
{
}

/// Of all magnitudes up to the one of infinity, rounding gives the one nearest to a
/// ratio, and of two equally near ones the one with the even code.
pub proof fn law_rounding_is_to_the_nearest(p: nat, q: nat, other: nat)
    requires
        q > 0,
        other <= INFINITE,
    ensures
        ({
            let r = rounded(p, q);
            let near = size_of(magnitude(r) * q - p);
            let far = size_of(magnitude(other) * q - p);
            &&& r <= INFINITE
            &&& near <= far
            &&& near == far && other != r ==> r % 2 == 0
        }),
{
    lemma_rounded_nearest(p, q);
    let r = rounded(p, q);
    assert(distance(p, q, r) <= distance(p, q, other));
}

proof fn lemma_signed_value(negative: bool, code: nat)
    requires
        code <= INFINITE,
    ensures
        signed(negative, code).code() == code,
        signed(negative, code).negative() == negative,
        !signed(negative, code).is_nan(),
        signed(negative, code).value() == if negative {
            -(magnitude(code) as int)
        } else {
            magnitude(code) as int
        },
{
}

/// The number with the sign of `exact` and the rounded magnitude is nearest to `exact / q`.
proof fn lemma_signed_nearest(exact: int, q: nat, negative: bool, other: Binary64)
    requires
        q > 0,
        exact > 0 ==> !negative,
        exact < 0 ==> negative,
        !other.is_nan(),
    ensures
        ({
            let r = signed(negative, rounded(size_of(exact) as nat, q));
            let near = size_of(r.value() * q - exact);
            let far = size_of(other.value() * q - exact);
            &&& !r.is_nan()
            &&& near <= far
            &&& near == far && other.value() != r.value() ==> r.code() % 2 == 0
        }),
{
    let p = size_of(exact) as nat;
    let code = rounded(p, q);
    let r = signed(negative, code);
    lemma_rounded_nearest(p, q);
    lemma_signed_value(negative, code);
    assert(magnitude(0) == 0);
    let m = magnitude(code) as int;
    let o = magnitude(other.code()) as int;
    lemma_mul_basics(q as int);
    lemma_mul_unary_negation(m, q as int);
    lemma_mul_unary_negation(o, q as int);
    lemma_mul_nonnegative(o, q as int);
    law_rounding_is_to_the_nearest(p, q, other.code());
    law_rounding_is_to_the_nearest(p, q, 0);
    if other.code() > 0 {
        lemma_magnitude_increases(0, other.code());
        lemma_mul_strictly_positive(o, q as int);
    }
}

/// The difference of two finite numbers is the number nearest to the exact difference,
/// with an even code if another one is as near. An exact zero is negative only as minus
/// zero less plus zero.
pub proof fn law_difference_is_the_nearest(a: Binary64, b: Binary64, other: Binary64)
    requires
        a.is_finite(),
        b.is_finite(),
        !other.is_nan(),
    ensures
        ({
            let exact = a.value() - b.value();
            let r = difference(a, b);
            let near = size_of(r.value() - exact);
            let far = size_of(other.value() - exact);
            &&& !r.is_nan()
            &&& near <= far
            &&& near == far && other.value() != r.value() ==> r.code() % 2 == 0
            &&& exact == 0 ==> r.is_zero() && r.negative() == (a.negative() && !b.negative())
            &&& exact != 0 ==> r.negative() == (exact < 0)
        }),
{
    let exact = a.value() - b.value();
    let negative = if exact == 0 {
        a.negative() && !b.negative()
    } else {
        exact < 0
    };
    lemma_rounded_zero(1);
    lemma_signed_nearest(exact, 1, negative, other);
    let r = difference(a, b);
    lemma_rounded_nearest(size_of(exact) as nat, 1);
    lemma_signed_value(negative, rounded(size_of(exact) as nat, 1));
    lemma_mul_basics(r.value());
    lemma_mul_basics(other.value());
}

/// The product of two finite numbers is the number nearest to the exact product, with an
/// even code if another one is as near, and is negative exactly if one operand is.
pub proof fn law_product_is_the_nearest(a: Binary64, b: Binary64, other: Binary64)
    requires
        a.is_finite(),
        b.is_finite(),
        !other.is_nan(),
    ensures
        ({
            let grain = pow2(1074);
            let r = product(a, b);
            let near = size_of(r.value() * grain - a.value() * b.value());
            let far = size_of(other.value() * grain - a.value() * b.value());
            &&& !r.is_nan()
            &&& near <= far
            &&& near == far && other.value() != r.value() ==> r.code() % 2 == 0
            &&& r.negative() == (a.negative() != b.negative())
        }),
{
    let (x, y) = (a.grains() as int, b.grains() as int);
    let exact = a.value() * b.value();
    let negative = a.negative() != b.negative();
    let q = pow2(1074);
    lemma_pow2_pos(1074);
    lemma_mul_nonnegative(x, y);
    lemma_mul_unary_negation(x, y);
    lemma_mul_cancels_negatives(x, y);
    assert(exact == if negative {
        -(x * y)
    } else {
        x * y
    });
    lemma_signed_nearest(exact, q, negative, other);
    lemma_rounded_nearest((x * y) as nat, q);
    lemma_signed_value(negative, rounded((x * y) as nat, q));
}

/// The quotient of two finite numbers, the second not zero, is the number nearest to the
/// exact quotient, with an even code if another one is as near, and is negative exactly
/// if one operand is.
pub proof fn law_quotient_is_the_nearest(a: Binary64, b: Binary64, other: Binary64)
    requires
        a.is_finite(),
        b.is_finite(),
        b.value() != 0,
        !other.is_nan(),
    ensures
        ({
            let grain = pow2(1074);
            let r = quotient(a, b);
            let near = size_of(r.value() * b.value() - a.value() * grain);
            let far = size_of(other.value() * b.value() - a.value() * grain);
            &&& !r.is_nan()
            &&& near <= far
            &&& near == far && other.value() != r.value() ==> r.code() % 2 == 0
            &&& r.negative() == (a.negative() != b.negative())
        }),
{
    let grain = pow2(1074) as int;
    let (x, y) = (a.grains() as int, b.grains() as int);
    let negative = a.negative() != b.negative();
    let r = quotient(a, b);
    lemma_equals_zero(b);
    lemma_pow2_pos(1074);
    lemma_mul_nonnegative(x, grain);
    lemma_mul_unary_negation(x, grain);
    let exact = if negative {
        -(x * grain)
    } else {
        x * grain
    };
    lemma_signed_nearest(exact, y as nat, negative, other);
    lemma_rounded_nearest((x * grain) as nat, y as nat);
    lemma_signed_value(negative, rounded((x * grain) as nat, y as nat));
    if a.is_zero() {
        lemma_mul_basics(grain);
        lemma_rounded_zero(y as nat);
    }
    assert(r == signed(negative, rounded((x * grain) as nat, y as nat)));
    lemma_mul_unary_negation(r.value(), y);
    lemma_mul_unary_negation(other.value(), y);
}

/// What becomes of infinite operands and of NaN: a NaN stays one, two infinities of the
/// same sign have no difference, infinity times zero and infinity by infinity are no
/// numbers, nor is zero by zero. Otherwise an infinite operand makes a difference or a
/// product infinite, dividing by zero gives infinity, and dividing by infinity gives zero.
pub proof fn law_special_operands(a: Binary64, b: Binary64)
    ensures
        a.is_nan() || b.is_nan() ==> {
            &&& difference(a, b).is_nan()
            &&& product(a, b).is_nan()
            &&& quotient(a, b).is_nan()
        },
        a.is_infinite() && b.is_infinite() ==> {
            &&& a.negative() == b.negative() ==> difference(a, b).is_nan()
            &&& a.negative() != b.negative() ==> difference(a, b) == a
            &&& quotient(a, b).is_nan()
        },
        a.is_infinite() && b.is_finite() ==> {
            &&& difference(a, b) == a
            &&& quotient(a, b).is_infinite() && quotient(a, b).negative() == (a.negative()
                != b.negative())
        },
        a.is_finite() && b.is_infinite() ==> {
            &&& difference(a, b).is_infinite() && difference(a, b).negative() == !b.negative()
            &&& quotient(a, b).is_zero() && quotient(a, b).negative() == (a.negative()
                != b.negative())
        },
        (a.is_infinite() && b.is_zero()) || (a.is_zero() && b.is_infinite()) ==> product(
            a,
            b,
        ).is_nan(),
        (a.is_infinite() && !b.is_nan() && !b.is_zero()) || (b.is_infinite() && !a.is_nan()
            && !a.is_zero()) ==> product(a, b).is_infinite() && product(a, b).negative() == (
        a.negative() != b.negative()),
        a.is_zero() && b.is_zero() ==> quotient(a, b).is_nan(),
        a.is_finite() && !a.is_zero() && b.is_zero() ==> quotient(a, b).is_infinite() && quotient(
            a,
            b,
        ).negative() == (a.negative() != b.negative()),
{
    lemma_signed_value(a.negative() != b.negative(), INFINITE as nat);
    lemma_signed_value(a.negative() != b.negative(), 0);
    lemma_signed_value(!b.negative(), INFINITE as nat);
}

/// A run of digits is read from the left: one digit more makes it ten times as much, and
/// that digit.
pub proof fn law_digits_are_read_from_the_left(digits: Seq<char>, digit: char)
    requires
        '0' <= digit <= '9',
    ensures
        digits_value(Seq::empty()) == 0,
        digits_value(digits.push(digit)) == 10 * digits_value(digits) + (digit as int - '0' as int),
{
    assert(digits.push(digit).drop_last() == digits);
}

/// A decimal is read as the nearest magnitude, with an even code if another one is as
/// near.
pub proof fn law_decimal_is_the_nearest(d: nat, k: int, other: nat)
    requires
        other <= INFINITE,
    ensures
        ({
            let r = rounded_decimal(d, k);
            let up = if k >= 0 {
                pow(10, k as nat)
            } else {
                1
            };
            let down = if k >= 0 {
                1
            } else {
                pow(10, (-k) as nat)
            };
            let exact = d * pow2(1074) * up;
            let near = size_of(magnitude(r) * down - exact);
            let far = size_of(magnitude(other) * down - exact);
            &&& r <= INFINITE
            &&& near <= far
            &&& near == far && other != r ==> r % 2 == 0
        }),
{
    let grains = d * pow2(1074);
    lemma_mul_basics(grains as int);
    if k >= 0 {
        lemma_pow_positive(10, k as nat);
        lemma_mul_nonnegative(grains as int, pow(10, k as nat));
        law_rounding_is_to_the_nearest((grains * pow(10, k as nat)) as nat, 1, other);
    } else {
        lemma_pow_positive(10, (-k) as nat);
        law_rounding_is_to_the_nearest(grains, pow(10, (-k) as nat) as nat, other);
    }
}

} // verus!
