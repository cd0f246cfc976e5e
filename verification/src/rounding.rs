//! Rounding of a ratio of whole numbers to the nearest binary64 magnitude.

use vstd::arithmetic::mul::*;
use vstd::arithmetic::power2::*;
use vstd::prelude::*;

use crate::binary64::{magnitude, BINADE, INFINITE};

verus! {

/// How far the magnitude of `code` is from `p / q`, times `q`.
pub open spec fn distance(p: nat, q: nat, code: nat) -> nat {
    let there = (magnitude(code) * q) as int;
    if there >= p {
        (there - p) as nat
    } else {
        (p - there) as nat
    }
}

/// Whether `code` stands for the magnitude nearest to `p / q`. Of two that are
/// equally near, it is the one with the even code.
pub open spec fn nearest_even(p: nat, q: nat, code: nat) -> bool {
    &&& code <= INFINITE
    &&& forall|other: nat|
        other <= INFINITE && other != code ==> {
            ||| distance(p, q, code) < #[trigger] distance(p, q, other)
            ||| distance(p, q, code) == distance(p, q, other) && code % 2 == 0
        }
}

/// The code of the magnitude nearest to `p / q`.
pub open spec fn rounded(p: nat, q: nat) -> nat {
    choose|code: nat| nearest_even(p, q, code)
}

/// A magnitude of the form `m * 2^t` has the code `t * 2^52 + m`.
pub proof fn lemma_magnitude_packed(m: nat, t: nat)
    requires
        m <= 2 * BINADE,
        t == 0 || m >= BINADE,
    ensures
        magnitude((t * BINADE + m) as nat) == m * pow2(t),
{
    let b = BINADE as int;
    let code = (t * BINADE + m) as nat;
    lemma_pow2_unfold(t + 1);
    lemma2_to64();
    if m < b {
        assert(m * pow2(t) == m) by (nonlinear_arith)
            requires
                pow2(t) == 1,
        ;
    } else if m < 2 * b {
        assert(code as int / b == t + 1 && code as int % b == m - b) by (nonlinear_arith)
            requires
                code == t * b + m,
                b <= m < 2 * b,
                b == 0x0010_0000_0000_0000,
        ;
        assert((BINADE + code % (BINADE as nat)) as nat == m);
    } else {
        assert(code as int / b == t + 2 && code as int % b == 0) by (nonlinear_arith)
            requires
                code == t * b + m,
                m == 2 * b,
                b == 0x0010_0000_0000_0000,
        ;
        assert(b * pow2((t + 1) as nat) == m * pow2(t)) by (nonlinear_arith)
            requires
                m == 2 * b,
                pow2((t + 1) as nat) == 2 * pow2(t),
        ;
    }
}

/// The parts of a code: its magnitude is `m * 2^t`.
pub proof fn lemma_magnitude_parts(code: nat) -> (parts: (nat, nat))
    ensures
        ({
            let (m, t) = parts;
            &&& magnitude(code) == m * pow2(t)
            &&& code == t * BINADE + m
            &&& m < 2 * BINADE
            &&& t == 0 || m >= BINADE
            &&& t == if code < BINADE { 0int } else { code as int / BINADE as int - 1 }
        }),
{
    lemma2_to64();
    if code < BINADE {
        assert(code * pow2(0) == code) by (nonlinear_arith)
            requires
                pow2(0) == 1,
        ;
        (code, 0)
    } else {
        let t = (code / (BINADE as nat) - 1) as nat;
        let m = (BINADE + code % (BINADE as nat)) as nat;
        assert(code == t * BINADE + m) by (nonlinear_arith)
            requires
                t == code as int / BINADE as int - 1,
                m == BINADE + code as int % BINADE as int,
                BINADE == 0x0010_0000_0000_0000,
        ;
        (m, t)
    }
}

/// The next code stands for a greater magnitude.
pub proof fn lemma_magnitude_next(code: nat)
    ensures
        magnitude(code) < magnitude(code + 1),
{
    let (m, t) = lemma_magnitude_parts(code);
    lemma_magnitude_packed(m + 1, t);
    lemma_pow2_pos(t);
    assert(m * pow2(t) < (m + 1) * pow2(t)) by (nonlinear_arith)
        requires
            pow2(t) > 0,
    ;
}

/// Codes are in the order of their magnitudes.
pub proof fn lemma_magnitude_increases(low: nat, high: nat)
    requires
        low < high,
    ensures
        magnitude(low) < magnitude(high),
    decreases high,
{
    lemma_magnitude_next((high - 1) as nat);
    if low < high - 1 {
        lemma_magnitude_increases(low, (high - 1) as nat);
    }
}

/// Magnitudes keep their order when both are multiplied by a positive `q`.
proof fn lemma_scaled_increases(low: nat, high: nat, q: nat)
    requires
        low < high,
        q > 0,
    ensures
        magnitude(low) * q < magnitude(high) * q,
{
    lemma_magnitude_increases(low, high);
    lemma_mul_strict_inequality(magnitude(low) as int, magnitude(high) as int, q as int);
}

/// Between two neighbours, the nearer one is the nearest of all, and of two equally
/// near neighbours the even one is to be taken.
pub proof fn lemma_nearest_between(p: nat, q: nat, low: nat, up: bool)
    requires
        q > 0,
        low < INFINITE,
        magnitude(low) * q <= p < magnitude(low + 1) * q,
        up ==> {
            ||| 2 * p > magnitude(low) * q + magnitude(low + 1) * q
            ||| 2 * p == magnitude(low) * q + magnitude(low + 1) * q && low % 2 == 1
        },
        !up ==> {
            ||| 2 * p < magnitude(low) * q + magnitude(low + 1) * q
            ||| 2 * p == magnitude(low) * q + magnitude(low + 1) * q && low % 2 == 0
        },
    ensures
        nearest_even(p, q, if up { low + 1 } else { low }),
{
    let code: nat = if up {
        low + 1
    } else {
        low
    };
    assert forall|other: nat| other <= INFINITE && other != code implies {
        ||| distance(p, q, code) < #[trigger] distance(p, q, other)
        ||| distance(p, q, code) == distance(p, q, other) && code % 2 == 0
    } by {
        if other < low {
            lemma_scaled_increases(other, low, q);
        } else if other > low + 1 {
            lemma_scaled_increases(low + 1, other, q);
        }
    }
}

/// From the first magnitude beyond the finite ones on, infinity is the nearest.
pub proof fn lemma_nearest_infinite(p: nat, q: nat)
    requires
        q > 0,
        magnitude(INFINITE as nat) * q <= p,
    ensures
        nearest_even(p, q, INFINITE as nat),
{
    assert forall|other: nat| other <= INFINITE && other != INFINITE implies distance(
        p,
        q,
        INFINITE as nat,
    ) < #[trigger] distance(p, q, other) by {
        lemma_scaled_increases(other, INFINITE as nat, q);
    }
}

/// There is only one nearest magnitude.
pub proof fn lemma_nearest_unique(p: nat, q: nat, one: nat, two: nat)
    requires
        q > 0,
        nearest_even(p, q, one),
        nearest_even(p, q, two),
    ensures
        one == two,
{
    if one != two {
        let low = if one < two {
            one
        } else {
            two
        };
        let high = if one < two {
            two
        } else {
            one
        };
        assert(distance(p, q, low) == distance(p, q, high));
        assert(low + 1 < high);
        lemma_scaled_increases(low, low + 1, q);
        lemma_scaled_increases(low + 1, high, q);
        assert(distance(p, q, low + 1) < distance(p, q, low));
    }
}

/// What is nearest is what rounding gives.
pub proof fn lemma_rounded_is(p: nat, q: nat, code: nat)
    requires
        q > 0,
        nearest_even(p, q, code),
    ensures
        rounded(p, q) == code,
{
    lemma_nearest_unique(p, q, rounded(p, q), code);
}

/// The greatest code, from `top` down, whose magnitude is at most `p / q`.
pub proof fn lemma_floor_exists(p: nat, q: nat, top: nat) -> (low: nat)
    ensures
        low <= top,
        magnitude(low) * q <= p,
        low < top ==> p < magnitude(low + 1) * q,
    decreases top,
{
    if magnitude(top) * q <= p {
        top
    } else if top == 0 {
        lemma_mul_basics(q as int);
        0
    } else {
        lemma_floor_exists(p, q, (top - 1) as nat)
    }
}

/// Every ratio has a nearest magnitude.
pub proof fn lemma_rounded_nearest(p: nat, q: nat)
    requires
        q > 0,
    ensures
        nearest_even(p, q, rounded(p, q)),
{
    let low = lemma_floor_exists(p, q, INFINITE as nat);
    if low == INFINITE {
        lemma_nearest_infinite(p, q);
    } else {
        let middle = magnitude(low) * q + magnitude(low + 1) * q;
        lemma_nearest_between(p, q, low, 2 * p > middle || 2 * p == middle && low % 2 == 1);
    }
}

/// Zero is the nearest magnitude to zero.
pub proof fn lemma_rounded_zero(q: nat)
    requires
        q > 0,
    ensures
        rounded(0, q) == 0,
{
    lemma_mul_basics(q as int);
    lemma_nearest_between(0, q, 0, false);
    lemma_rounded_is(0, q, 0);
}

/// The part of a power of two that multiplies.
pub open spec fn raised(e: int) -> nat {
    if e >= 0 {
        pow2(e as nat)
    } else {
        1
    }
}

/// Whether `p / q` grains are `h * 2^e` grains when `inexact` is false, or lie
/// strictly between `h * 2^e` and `(h + 1) * 2^e` grains when it is true.
pub open spec fn holds_ratio(h: nat, e: int, inexact: bool, p: nat, q: nat) -> bool {
    let there = p * raised(-e);
    let unit = raised(e) * q;
    if inexact {
        h * unit < there < (h + 1) * unit
    } else {
        h * unit == there
    }
}

/// Halving `h` and raising `e` keeps the ratio, if the bit that falls off is noted.
proof fn lemma_halved(h: nat, e: int, inexact: bool, p: nat, q: nat)
    requires
        holds_ratio(h, e, inexact, p, q),
        q > 0,
    ensures
        holds_ratio(h / 2, e + 1, inexact || h % 2 == 1, p, q),
{
    let there = p * raised(-e);
    let unit = raised(e) * q;
    let there2 = p * raised(-(e + 1));
    let unit2 = raised(e + 1) * q;
    let k = h / 2;
    let b = h % 2;
    lemma2_to64();
    if e >= 0 {
        lemma_pow2_unfold((e + 1) as nat);
        lemma_pow2_pos(e as nat);
        assert(unit2 == 2 * unit && unit > 0) by (nonlinear_arith)
            requires
                unit2 == raised(e + 1) * q,
                unit == raised(e) * q,
                raised(e + 1) == 2 * raised(e),
                raised(e) > 0,
                q > 0,
        ;
        assert(there2 == there);
        assert(k * unit2 + b * unit == h * unit) by (nonlinear_arith)
            requires
                unit2 == 2 * unit,
                h == 2 * k + b,
        ;
        assert((k + 1) * unit2 == h * unit + (2 - b) * unit) by (nonlinear_arith)
            requires
                unit2 == 2 * unit,
                h == 2 * k + b,
        ;
        assert((h + 1) * unit == h * unit + unit) by (nonlinear_arith);
        lemma_mul_basics(unit as int);
        if b == 1 {
            assert((2 - b) * unit == unit);
        } else {
            assert((2 - b) * unit == 2 * unit);
        }
    } else {
        lemma_pow2_unfold((-e) as nat);
        assert(there == 2 * there2) by (nonlinear_arith)
            requires
                there == p * raised(-e),
                there2 == p * raised(-(e + 1)),
                raised(-e) == 2 * raised(-(e + 1)),
        ;
        assert(unit2 == unit && unit == q) by (nonlinear_arith)
            requires
                unit == raised(e) * q,
                unit2 == raised(e + 1) * q,
                raised(e) == 1,
                raised(e + 1) == 1,
        ;
        assert(h * unit == 2 * (k * unit) + b * unit) by (nonlinear_arith)
            requires
                h == 2 * k + b,
        ;
        assert((h + 1) * unit == h * unit + unit) by (nonlinear_arith);
        assert((k + 1) * unit == k * unit + unit) by (nonlinear_arith);
        lemma_mul_basics(unit as int);
    }
}

/// Doubling an exact `h` and lowering `e` keeps the ratio.
proof fn lemma_doubled(h: nat, e: int, p: nat, q: nat)
    requires
        holds_ratio(h, e, false, p, q),
    ensures
        holds_ratio(2 * h, e - 1, false, p, q),
{
    lemma2_to64();
    if e > 0 {
        lemma_pow2_unfold(e as nat);
        assert(2 * h * (raised(e - 1) * q) == h * (raised(e) * q)) by (nonlinear_arith)
            requires
                raised(e) == 2 * raised(e - 1),
        ;
    } else {
        lemma_pow2_unfold((1 - e) as nat);
        assert(p * raised(1 - e) == 2 * (p * raised(-e))) by (nonlinear_arith)
            requires
                raised(1 - e) == 2 * raised(-e),
        ;
        assert(2 * h * (raised(e - 1) * q) == 2 * (h * (raised(e) * q))) by (nonlinear_arith)
            requires
                raised(e - 1) == 1,
                raised(e) == 1,
        ;
    }
}

/// Half of a number is the same bits with `e` lowered.
pub proof fn lemma_half_ratio(h: nat, e: int, inexact: bool, p: nat)
    requires
        holds_ratio(h, e, inexact, p, 1),
    ensures
        holds_ratio(h, e - 1, inexact, p, 2),
{
    lemma2_to64();
    lemma_mul_basics(raised(e) as int);
    if e > 0 {
        lemma_pow2_unfold(e as nat);
    } else {
        lemma_pow2_unfold((1 - e) as nat);
        assert(p * raised(1 - e) == 2 * (p * raised(-e))) by (nonlinear_arith)
            requires
                raised(1 - e) == 2 * raised(-e),
        ;
        let unit = raised(e) * 1;
        let unit2 = raised(e - 1) * 2;
        assert(unit == 1 && unit2 == 2);
        assert(h * unit2 == 2 * (h * unit)) by (nonlinear_arith)
            requires
                unit2 == 2 * unit,
        ;
        assert((h + 1) * unit2 == 2 * ((h + 1) * unit)) by (nonlinear_arith)
            requires
                unit2 == 2 * unit,
        ;
    }
}

/// What the bits below the last place say: whether the ratio is to be rounded up.
pub open spec fn rounds_up(h: nat, inexact: bool) -> bool {
    h % 2 == 1 && (inexact || (h / 2) % 2 == 1)
}

/// Once `h` has one bit more than a magnitude has, the rounded code is known.
proof fn lemma_decided(h: nat, e: int, inexact: bool, p: nat, q: nat)
    requires
        holds_ratio(h, e, inexact, p, q),
        q > 0,
        e >= -1,
        h < 4 * BINADE,
        e == -1 || h >= 2 * BINADE,
    ensures
        e < 2045 ==> rounded(p, q) == (e + 1) * BINADE + h / 2 + if rounds_up(h, inexact) {
            1int
        } else {
            0int
        },
        e >= 2045 ==> rounded(p, q) == INFINITE,
{
    let m = h / 2;
    let t = (e + 1) as nat;
    let g = h % 2;
    let w = pow2(t) * q;
    lemma2_to64();
    lemma_pow2_pos(t);
    assert(w > 0) by (nonlinear_arith)
        requires
            w == pow2(t) * q,
            pow2(t) > 0,
            q > 0,
    ;
    // In units of half a place: h * w is at most 2 * p, which is below (h + 1) * w.
    assert(if inexact {
        h * w < 2 * p < (h + 1) * w
    } else {
        h * w == 2 * p
    }) by {
        let unit = raised(e) * q;
        if e == -1 {
            assert(p * raised(1) == 2 * p) by (nonlinear_arith)
                requires
                    raised(1) == 2,
            ;
            assert(unit == w) by (nonlinear_arith)
                requires
                    unit == raised(e) * q,
                    raised(e) == 1,
                    w == pow2(t) * q,
                    pow2(t) == 1,
            ;
        } else {
            lemma_pow2_unfold(t);
            assert(p * raised(-e) == p) by (nonlinear_arith)
                requires
                    raised(-e) == 1,
            ;
            assert(w == 2 * unit) by (nonlinear_arith)
                requires
                    unit == raised(e) * q,
                    w == pow2(t) * q,
                    pow2(t) == 2 * raised(e),
            ;
            assert(h * w == 2 * (h * unit)) by (nonlinear_arith)
                requires
                    w == 2 * unit,
            ;
            assert((h + 1) * w == 2 * ((h + 1) * unit)) by (nonlinear_arith)
                requires
                    w == 2 * unit,
            ;
        }
    }
    let mw = m * w;
    assert(h * w == 2 * mw + g * w) by (nonlinear_arith)
        requires
            h == 2 * m + g,
            mw == m * w,
    ;
    assert((h + 1) * w == h * w + w) by (nonlinear_arith);
    lemma_mul_basics(w as int);
    assert(g == 0 || g == 1);
    let low = (t * BINADE + m) as nat;
    lemma_magnitude_packed(m, t);
    lemma_magnitude_packed(m + 1, t);
    assert(magnitude(low) * q == mw) by (nonlinear_arith)
        requires
            magnitude(low) == m * pow2(t),
            w == pow2(t) * q,
            mw == m * w,
    ;
    assert(magnitude(low + 1) * q == mw + w) by (nonlinear_arith)
        requires
            magnitude(low + 1) == (m + 1) * pow2(t),
            w == pow2(t) * q,
            mw == m * w,
    ;
    assert((low as int) % 2 == (m as int) % 2) by (nonlinear_arith)
        requires
            low == t * BINADE + m,
            BINADE == 0x0010_0000_0000_0000,
    ;
    if e < 2045 {
        lemma_nearest_between(p, q, low, rounds_up(h, inexact));
        lemma_rounded_is(p, q, if rounds_up(h, inexact) { low + 1 } else { low });
    } else {
        assert(low >= INFINITE) by (nonlinear_arith)
            requires
                low == t * BINADE + m,
                t >= 2046,
                m >= BINADE,
                BINADE == 0x0010_0000_0000_0000,
                INFINITE == 0x7ff0_0000_0000_0000,
        ;
        if low > INFINITE {
            lemma_scaled_increases(INFINITE as nat, low, q);
        }
        lemma_nearest_infinite(p, q);
        lemma_rounded_is(p, q, INFINITE as nat);
    }
}

/// Rounds the ratio `p / q`, given as `h * 2^e` grains with the bits below `h`
/// summed up in `inexact`, to the code of the nearest magnitude.
pub(crate) fn round_ratio(
    h: u128,
    e: i32,
    inexact: bool,
    Ghost(p): Ghost<nat>,
    Ghost(q): Ghost<nat>,
) -> (code: u64)
    requires
        holds_ratio(h as nat, e as int, inexact, p, q),
        q > 0,
        -100_000 <= e <= 100_000,
        inexact ==> h >= 2 * BINADE,
    ensures
        code == rounded(p, q),
        code <= INFINITE,
{
    if h == 0 {
        proof {
            assert(p == 0) by {
                lemma_mul_basics((raised(e as int) * q) as int);
                assert(raised(-e) > 0) by {
                    if e < 0 {
                        lemma_pow2_pos((-e) as nat);
                    } else {
                        lemma2_to64();
                    }
                }
                if p > 0 {
                    lemma_mul_strictly_positive(p as int, raised(-e) as int);
                }
            }
            lemma_rounded_zero(q);
        }
        return 0;
    }
    let mut h = h;
    let mut e = e;
    let mut inexact = inexact;
    while h < 2 * (BINADE as u128) && e > -1
        invariant
            holds_ratio(h as nat, e as int, inexact, p, q),
            inexact ==> h >= 2 * BINADE,
            -100_000 <= e <= 100_000,
        decreases e + 1,
    {
        proof {
            lemma_doubled(h as nat, e as int, p, q);
        }
        h = 2 * h;
        e = e - 1;
    }
    let ghost mut halvings: nat = 0;
    proof {
        lemma_pow2_adds(64, 64);
        lemma2_to64();
        lemma2_to64_rest();
    }
    while h >= 4 * (BINADE as u128) || e < -1
        invariant
            halvings <= 128,
            h < pow2((128 - halvings) as nat),
            holds_ratio(h as nat, e as int, inexact, p, q),
            q > 0,
            h >= 2 * BINADE || e <= -1,
            -100_000 <= e <= 100_000 + halvings,
        decreases (if e < -1 { -1 - e } else { 0 }) + h,
    {
        proof {
            lemma_halved(h as nat, e as int, inexact, p, q);
            lemma2_to64();
            if halvings < 128 {
                lemma_pow2_unfold((128 - halvings) as nat);
                halvings = halvings + 1;
            }
        }
        inexact = inexact || h % 2 == 1;
        h = h / 2;
        e = e + 1;
    }
    proof {
        lemma_decided(h as nat, e as int, inexact, p, q);
    }
    if e >= 2045 {
        return INFINITE;
    }
    let m: u64 = (h / 2) as u64;
    let t: u64 = (e + 1) as u64;
    let up = h % 2 == 1 && (inexact || m % 2 == 1);
    if up {
        t * BINADE + m + 1
    } else {
        t * BINADE + m
    }
}

} // verus!
