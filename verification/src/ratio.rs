//! Magnitudes next to a ratio of naturals of any size.

use vstd::arithmetic::mul::*;
use vstd::arithmetic::power2::*;
use vstd::prelude::*;

use crate::arithmetic::parts;
use crate::binary64::{magnitude, INFINITE};
use crate::natural::Natural;
use crate::rounding::{
    lemma_magnitude_packed, lemma_nearest_between, lemma_nearest_infinite, lemma_rounded_is,
    rounded,
};

verus! {

/// The magnitude of `code`, times `q`.
pub fn scaled(q: &Natural, code: u64) -> (r: Natural)
    requires
        code <= INFINITE,
    ensures
        r@ == magnitude(code as nat) * q@,
{
    let (m, t) = parts(code);
    let mut r = q.copy();
    r.multiply_add(m, 0);
    r.times_power_of_two(t);
    proof {
        assert(magnitude(code as nat) * q@ == q@ * m * pow2(t as nat)) by (nonlinear_arith)
            requires
                magnitude(code as nat) == m * pow2(t as nat),
        ;
    }
    r
}

/// The greatest code up to the one of infinity whose magnitude is at most `p / q`.
pub fn floor(p: &Natural, q: &Natural) -> (low: u64)
    ensures
        low <= INFINITE,
        magnitude(low as nat) * q@ <= p@,
        low < INFINITE ==> p@ < magnitude((low + 1) as nat) * q@,
{
    if scaled(q, INFINITE).at_most(p) {
        return INFINITE;
    }
    let mut low: u64 = 0;
    let mut high: u64 = INFINITE;
    proof {
        lemma_mul_basics(q@ as int);
    }
    while high - low > 1
        invariant
            low < high <= INFINITE,
            magnitude(low as nat) * q@ <= p@,
            p@ < magnitude(high as nat) * q@,
        decreases high - low,
    {
        let middle: u64 = low + (high - low) / 2;
        if scaled(q, middle).at_most(p) {
            low = middle;
        } else {
            high = middle;
        }
    }
    assert(high == low + 1);
    low
}

/// The code of the magnitude nearest to `p / q`.
pub fn nearest(p: &Natural, q: &Natural) -> (code: u64)
    requires
        q@ > 0,
    ensures
        code == rounded(p@, q@),
        code <= INFINITE,
{
    let low: u64 = floor(p, q);
    if low == INFINITE {
        proof {
            lemma_nearest_infinite(p@, q@);
            lemma_rounded_is(p@, q@, INFINITE as nat);
        }
        return INFINITE;
    }
    // What lies between the two neighbours is weighed against their middle.
    let (m, t) = parts(low);
    let mut middle = q.copy();
    middle.multiply_add(2 * m + 1, 0);
    middle.times_power_of_two(t);
    let mut twice = p.copy();
    twice.multiply_add(2, 0);
    proof {
        lemma_magnitude_packed((m + 1) as nat, t as nat);
        let unit = pow2(t as nat);
        let odd = 2 * m + 1;
        assert(magnitude(low as nat) * q@ + magnitude((low + 1) as nat) * q@ == q@ * odd * unit)
            by (nonlinear_arith)
            requires
                magnitude(low as nat) == m * unit,
                magnitude((low + 1) as nat) == (m + 1) * unit,
                odd == 2 * m + 1,
        ;
    }
    let below = twice.at_most(&middle);
    let above = middle.at_most(&twice);
    let up = !below || (above && low % 2 == 1);
    proof {
        lemma_nearest_between(p@, q@, low as nat, up);
        lemma_rounded_is(p@, q@, if up { (low + 1) as nat } else { low as nat });
    }
    if up {
        low + 1
    } else {
        low
    }
}

} // verus!
