//! Reading binary64 numbers from decimal text.
//!
//! A text is an optional sign followed by a number, by `inf` or `infinity`, or by
//! `nan`, the words in either case of letters. A number is a run of digits with at
//! most one decimal point, at least one digit, and an optional exponent of ten.

use vstd::arithmetic::mul::*;
use vstd::arithmetic::power::*;
use vstd::arithmetic::power2::*;
use vstd::prelude::*;

use crate::binary64::{magnitude, signed, Binary64, BINADE, GRAINS_LOG, INFINITE, QUIET};
use crate::natural::Natural;
use crate::ratio::nearest;
use crate::rounding::{
    lemma_magnitude_packed, lemma_nearest_between, lemma_nearest_infinite, lemma_rounded_is,
    lemma_rounded_zero, rounded,
};

verus! {

/// Whether `c` is a decimal digit.
pub open spec fn is_digit(c: char) -> bool {
    '0' <= c <= '9'
}

/// Where the run of digits that starts at `i` ends.
pub open spec fn digits_end(s: Seq<char>, i: int) -> int
    decreases s.len() - i,
{
    if 0 <= i < s.len() && is_digit(s[i]) {
        digits_end(s, i + 1)
    } else {
        i
    }
}

/// The number that a run of digits spells.
pub open spec fn digits_value(s: Seq<char>) -> nat
    decreases s.len(),
{
    if s.len() == 0 {
        0
    } else {
        (10 * digits_value(s.drop_last()) + (s.last() as int - '0' as int)) as nat
    }
}

/// The exponent that `s` spells as a whole, if it does: the letter, an optional
/// sign, and digits.
pub open spec fn exponent_of(s: Seq<char>) -> Option<int> {
    let from: int = if s.len() > 1 && (s[1] == '+' || s[1] == '-') {
        2
    } else {
        1
    };
    if s.len() > from && (s[0] == 'e' || s[0] == 'E') && digits_end(s, from) == s.len() {
        let size = digits_value(s.skip(from)) as int;
        Some(
            if s[1] == '-' {
                -size
            } else {
                size
            },
        )
    } else {
        None
    }
}

/// The number that `s` spells as a whole, if it does: with the result `(d, k)` it is
/// `d` times ten to the power of `k`.
pub open spec fn number_of(s: Seq<char>) -> Option<(nat, int)> {
    let whole_end = digits_end(s, 0);
    let pointed = whole_end < s.len() && s[whole_end] == '.';
    let end = if pointed {
        digits_end(s, whole_end + 1)
    } else {
        whole_end
    };
    let fraction = if pointed {
        s.subrange(whole_end + 1, end)
    } else {
        Seq::empty()
    };
    let digits = s.subrange(0, whole_end) + fraction;
    if digits.len() == 0 {
        None
    } else if end == s.len() {
        Some((digits_value(digits), -(fraction.len() as int)))
    } else {
        match exponent_of(s.skip(end)) {
            Some(x) => Some((digits_value(digits), x - fraction.len())),
            None => None,
        }
    }
}

/// The code of the magnitude nearest to `d` times ten to the power of `k`.
pub open spec fn rounded_decimal(d: nat, k: int) -> nat {
    let grains = d * pow2(GRAINS_LOG as nat);
    if k >= 0 {
        rounded((grains * pow(10, k as nat)) as nat, 1)
    } else {
        rounded(grains, pow(10, (-k) as nat) as nat)
    }
}

/// The lower case of an ASCII letter.
pub open spec fn lower(c: char) -> int {
    if 'A' <= c <= 'Z' {
        c as int + 32
    } else {
        c as int
    }
}

/// Whether `s` is `word`, in either case of letters.
pub open spec fn spells(s: Seq<char>, word: Seq<char>) -> bool {
    s.len() == word.len() && forall|i: int| 0 <= i < s.len() ==> #[trigger] lower(s[i]) == word[i] as int
}

/// The text behind its sign.
pub open spec fn unsigned(s: Seq<char>) -> Seq<char> {
    if s.len() > 0 && (s[0] == '+' || s[0] == '-') {
        s.skip(1)
    } else {
        s
    }
}

/// The number that `s` spells, if it spells one.
pub open spec fn parsed(s: Seq<char>) -> Option<Binary64> {
    let negative = s.len() > 0 && s[0] == '-';
    let body = unsigned(s);
    match number_of(body) {
        Some((d, k)) => Some(signed(negative, rounded_decimal(d, k))),
        None => {
            if spells(body, "inf"@) || spells(body, "infinity"@) {
                Some(signed(negative, INFINITE as nat))
            } else if spells(body, "nan"@) {
                Some(signed(negative, QUIET as nat))
            } else {
                None
            }
        },
    }
}

pub proof fn lemma_digits_end(s: Seq<char>, i: int)
    requires
        0 <= i <= s.len(),
    ensures
        i <= digits_end(s, i) <= s.len(),
        forall|j: int| i <= j < digits_end(s, i) ==> is_digit(#[trigger] s[j]),
    decreases s.len() - i,
{
    if i < s.len() && is_digit(s[i]) {
        lemma_digits_end(s, i + 1);
    }
}

proof fn lemma_digits_bounded(s: Seq<char>)
    requires
        forall|j: int| 0 <= j < s.len() ==> is_digit(#[trigger] s[j]),
    ensures
        digits_value(s) < pow(10, s.len()),
    decreases s.len(),
{
    if s.len() == 0 {
        lemma_pow0(10);
    } else {
        lemma_digits_bounded(s.drop_last());
        lemma_pow1(10);
        lemma_pow_adds(10, (s.len() - 1) as nat, 1);
        assert(is_digit(s[s.len() - 1]));
    }
}

/// Ten to the power of `n` is at least eight to the power of `n`.
proof fn lemma_ten_beyond_eight(n: nat)
    ensures
        pow(10, n) >= pow2(3 * n),
        pow(10, n) > 0,
    decreases n,
{
    lemma2_to64();
    lemma_pow2_pos(3 * n);
    if n == 0 {
        lemma_pow0(10);
    } else {
        let k = (n - 1) as nat;
        lemma_ten_beyond_eight(k);
        lemma_pow1(10);
        lemma_pow_adds(10, k, 1);
        lemma_pow2_adds(3 * k, 3);
    }
}

/// A magnitude beyond every finite one rounds to infinity.
proof fn lemma_decimal_large(d: nat, k: int)
    requires
        d > 0,
        k > 400,
    ensures
        rounded_decimal(d, k) == INFINITE,
{
    let g = pow2(GRAINS_LOG as nat);
    let tens = pow(10, k as nat);
    let p = (d * g * tens) as nat;
    lemma_ten_beyond_eight(k as nat);
    lemma_pow2_strictly_increases(1024, 3 * k as nat);
    lemma_pow2_pos(GRAINS_LOG as nat);
    lemma_pow2_adds(1024, GRAINS_LOG as nat);
    assert(d * g * tens >= pow2(1024) * g) by (nonlinear_arith)
        requires
            d >= 1,
            g > 0,
            tens >= pow2(1024),
            pow2(1024) >= 0,
    ;
    lemma_magnitude_packed(BINADE as nat, 2046);
    lemma2_to64();
    lemma2_to64_rest();
    lemma_pow2_adds(52, 2046);
    assert(magnitude(INFINITE as nat) * 1 == pow2(2098));
    lemma_nearest_infinite(p, 1);
    lemma_rounded_is(p, 1, INFINITE as nat);
}

/// A magnitude below half a grain rounds to zero.
proof fn lemma_decimal_small(d: nat, k: int, n: nat)
    requires
        d < pow(10, n),
        k < -(n + 400),
    ensures
        rounded_decimal(d, k) == 0,
{
    let g = pow2(GRAINS_LOG as nat);
    let q = pow(10, (-k) as nat) as nat;
    let rest = (-k - n) as nat;
    lemma_pow_adds(10, n, rest);
    lemma_ten_beyond_eight(n);
    lemma_ten_beyond_eight(rest);
    lemma_ten_beyond_eight((-k) as nat);
    lemma_pow2_strictly_increases(1075, 3 * rest);
    lemma_pow2_unfold(1075);
    lemma_pow2_pos(GRAINS_LOG as nat);
    assert(2 * (d * g) < pow(10, n) * pow(10, rest)) by (nonlinear_arith)
        requires
            d < pow(10, n),
            pow(10, rest) > 2 * g,
            g > 0,
            d >= 0,
    ;
    assert(magnitude(0) == 0 && magnitude(1) == 1);
    lemma_mul_basics(q as int);
    lemma_nearest_between((d * g) as nat, q, 0, false);
    lemma_rounded_is((d * g) as nat, q, 0);
}

/// The characters of a text from the one at `from` on.
fn characters(text: &str, from: usize) -> (r: Vec<char>)
    requires
        from <= text@.len(),
    ensures
        r@ == text@.skip(from as int),
{
    let n: usize = text.unicode_len();
    let mut r: Vec<char> = Vec::new();
    let mut i: usize = from;
    while i < n
        invariant
            from <= i <= n == text@.len(),
            r@ == text@.subrange(from as int, i as int),
        decreases n - i,
    {
        r.push(text.get_char(i));
        i = i + 1;
    }
    r
}

/// Where the run of digits that starts at `i` ends.
fn skip_digits(s: &Vec<char>, i: usize) -> (end: usize)
    requires
        i <= s@.len(),
    ensures
        end == digits_end(s@, i as int),
        i <= end <= s@.len(),
{
    let mut end: usize = i;
    while end < s.len() && '0' <= s[end] && s[end] <= '9'
        invariant
            i <= end <= s@.len(),
            digits_end(s@, i as int) == digits_end(s@, end as int),
        decreases s@.len() - end,
    {
        end = end + 1;
    }
    end
}

/// Where exponents stop being told apart.
const FAR: u128 = 1_000_000_000_000_000_000_000_000_000_000;

/// The number that the digits from `from` on spell, or `FAR` if it is at least that.
fn read_exponent(s: &Vec<char>, from: usize) -> (r: u128)
    requires
        from <= s@.len(),
        forall|j: int| from <= j < s@.len() ==> is_digit(#[trigger] s@[j]),
    ensures
        r <= FAR,
        r < FAR ==> r == digits_value(s@.skip(from as int)),
        r == FAR ==> digits_value(s@.skip(from as int)) >= FAR,
{
    let mut r: u128 = 0;
    let mut i: usize = from;
    while i < s.len()
        invariant
            from <= i <= s@.len(),
            forall|j: int| from <= j < s@.len() ==> is_digit(#[trigger] s@[j]),
            r <= FAR,
            r < FAR ==> r == digits_value(s@.subrange(from as int, i as int)),
            r == FAR ==> digits_value(s@.subrange(from as int, i as int)) >= FAR,
        decreases s@.len() - i,
    {
        proof {
            assert(is_digit(s@[i as int]));
            assert(s@.subrange(from as int, i + 1).drop_last() == s@.subrange(
                from as int,
                i as int,
            ));
        }
        if r < FAR {
            let digit: u128 = (s[i] as u32 - '0' as u32) as u128;
            let longer: u128 = 10 * r + digit;
            r = if longer < FAR {
                longer
            } else {
                FAR
            };
        }
        i = i + 1;
    }
    assert(s@.subrange(from as int, s@.len() as int) == s@.skip(from as int));
    r
}

/// The number that a run of digits spells.
fn read_digits(digits: &Vec<char>) -> (r: Natural)
    requires
        forall|j: int| 0 <= j < digits@.len() ==> is_digit(#[trigger] digits@[j]),
    ensures
        r@ == digits_value(digits@),
{
    let mut r = Natural::zero();
    let mut i: usize = 0;
    while i < digits.len()
        invariant
            i <= digits@.len(),
            forall|j: int| 0 <= j < digits@.len() ==> is_digit(#[trigger] digits@[j]),
            r@ == digits_value(digits@.take(i as int)),
        decreases digits@.len() - i,
    {
        proof {
            assert(is_digit(digits@[i as int]));
            assert(digits@.take(i + 1).drop_last() == digits@.take(i as int));
        }
        let digit: u64 = (digits[i] as u32 - '0' as u32) as u64;
        r.multiply_add(10, digit);
        i = i + 1;
    }
    assert(digits@.take(digits@.len() as int) == digits@);
    r
}

/// The code of the magnitude nearest to the number that `digits` spell times ten to
/// the power of `k`. An exponent too far away to matter may be given by another one
/// that is too far away in the same direction.
fn round_decimal(digits: &Vec<char>, k: i128, Ghost(exact): Ghost<int>) -> (code: u64)
    requires
        forall|j: int| 0 <= j < digits@.len() ==> is_digit(#[trigger] digits@[j]),
        ({
            ||| k == exact
            ||| k > 400 && exact > 400
            ||| k < -(digits@.len() + 400) && exact < -(digits@.len() + 400)
        }),
    ensures
        code == rounded_decimal(digits_value(digits@), exact),
        code <= INFINITE,
{
    let ghost d = digits_value(digits@);
    let mut p = read_digits(digits);
    let zero = Natural::zero();
    if p.at_most(&zero) {
        proof {
            lemma_mul_basics(pow2(GRAINS_LOG as nat) as int);
            if exact >= 0 {
                lemma_mul_basics(pow(10, exact as nat));
                lemma_rounded_zero(1);
            } else {
                lemma_ten_beyond_eight((-exact) as nat);
                lemma_rounded_zero(pow(10, (-exact) as nat) as nat);
            }
        }
        return 0;
    }
    if k > 400 {
        proof {
            lemma_decimal_large(d, exact);
        }
        return INFINITE;
    }
    if k < -(digits.len() as i128 + 400) {
        proof {
            lemma_digits_bounded(digits@);
            lemma_decimal_small(d, exact, digits@.len());
        }
        return 0;
    }
    let mut q = Natural::zero();
    q.multiply_add(1, 1);
    p.times_power_of_two(GRAINS_LOG);
    if k >= 0 {
        p.times_power_of_ten(k as u128);
    } else {
        let places: i128 = -k;
        proof {
            lemma_ten_beyond_eight(places as nat);
            lemma_mul_basics(pow(10, places as nat));
        }
        q.times_power_of_ten(places as u128);
    }
    nearest(&p, &q)
}

/// Whether `s` is `word`, in either case of letters.
fn is_word(s: &Vec<char>, word: &str) -> (r: bool)
    ensures
        r == spells(s@, word@),
{
    let n: usize = word.unicode_len();
    if s.len() != n {
        return false;
    }
    let mut i: usize = 0;
    while i < n
        invariant
            i <= n == s@.len() == word@.len(),
            forall|j: int| 0 <= j < i ==> #[trigger] lower(s@[j]) == word@[j] as int,
        decreases n - i,
    {
        let c: char = s[i];
        let w: char = word.get_char(i);
        let same = if 'A' <= c && c <= 'Z' {
            'a' <= w && w <= 'z' && c as u32 + 32 == w as u32
        } else {
            c == w
        };
        if !same {
            assert(lower(s@[i as int]) != word@[i as int] as int);
            return false;
        }
        i = i + 1;
    }
    true
}

/// The code of the number that `s` spells as a whole, if it spells one.
fn read_number(s: &Vec<char>) -> (r: Option<u64>)
    ensures
        match number_of(s@) {
            Some((d, k)) => r is Some && r->0 == rounded_decimal(d, k) && r->0 <= INFINITE,
            None => r is None,
        },
{
    let whole_end: usize = skip_digits(s, 0);
    let pointed = whole_end < s.len() && s[whole_end] == '.';
    let end: usize = if pointed {
        skip_digits(s, whole_end + 1)
    } else {
        whole_end
    };
    proof {
        lemma_digits_end(s@, 0);
        if pointed {
            lemma_digits_end(s@, whole_end + 1);
        }
    }
    let fraction_len: usize = if pointed {
        end - whole_end - 1
    } else {
        0
    };
    let ghost fraction: Seq<char> = if pointed {
        s@.subrange(whole_end + 1, end as int)
    } else {
        Seq::empty()
    };
    let mut digits: Vec<char> = Vec::new();
    let mut i: usize = 0;
    while i < end
        invariant
            whole_end <= end <= s@.len(),
            i <= end,
            pointed ==> whole_end < end && s@[whole_end as int] == '.',
            !pointed ==> whole_end == end,
            digits@ == if i <= whole_end {
                s@.subrange(0, i as int)
            } else {
                s@.subrange(0, whole_end as int) + s@.subrange(whole_end + 1, i as int)
            },
        decreases end - i,
    {
        if i != whole_end {
            digits.push(s[i]);
        }
        i = i + 1;
    }
    assert(digits@ == s@.subrange(0, whole_end as int) + fraction);
    assert forall|j: int| 0 <= j < digits@.len() implies is_digit(#[trigger] digits@[j]) by {
        if j < whole_end {
            assert(digits@[j] == s@[j]);
        } else {
            assert(digits@[j] == s@[j + 1]);
        }
    }
    if digits.len() == 0 {
        return None;
    }
    if end == s.len() {
        return Some(
            round_decimal(&digits, -(fraction_len as i128), Ghost(-(fraction_len as int))),
        );
    }
    let ghost tail = s@.skip(end as int);
    if s[end] != 'e' && s[end] != 'E' {
        return None;
    }
    let minus = end + 1 < s.len() && s[end + 1] == '-';
    let plus = end + 1 < s.len() && s[end + 1] == '+';
    let from: usize = if minus || plus {
        end + 2
    } else {
        end + 1
    };
    let last: usize = skip_digits(s, from);
    proof {
        lemma_digits_end(s@, from as int);
        lemma_digits_end_skip(s@, end as int, from as int);
        assert(tail.skip(from - end) == s@.skip(from as int));
    }
    if from >= s.len() || last < s.len() {
        return None;
    }
    let size: u128 = read_exponent(s, from);
    let ghost exact_size = digits_value(s@.skip(from as int)) as int;
    if minus {
        let k: i128 = -(size as i128) - fraction_len as i128;
        Some(round_decimal(&digits, k, Ghost(-exact_size - fraction_len)))
    } else {
        let k: i128 = size as i128 - fraction_len as i128;
        Some(round_decimal(&digits, k, Ghost(exact_size - fraction_len)))
    }
}

proof fn lemma_digits_end_skip(s: Seq<char>, start: int, i: int)
    requires
        0 <= start <= i <= s.len(),
    ensures
        digits_end(s, i) == digits_end(s.skip(start), i - start) + start,
    decreases s.len() - i,
{
    if i < s.len() && is_digit(s[i]) {
        lemma_digits_end_skip(s, start, i + 1);
    }
}

impl Binary64 {
    /// The number that `text` spells, if it spells one.
    pub fn parse(text: &str) -> (r: Option<Binary64>)
        ensures
            r == parsed(text@),
    {
        let n: usize = text.unicode_len();
        let minus = n > 0 && text.get_char(0) == '-';
        let plus = n > 0 && text.get_char(0) == '+';
        let body: Vec<char> = characters(
            text,
            if minus || plus {
                1
            } else {
                0
            },
        );
        assert(body@ == unsigned(text@));
        match read_number(&body) {
            Some(code) => Some(Binary64::join(minus, code)),
            None => {
                if is_word(&body, "inf") || is_word(&body, "infinity") {
                    Some(Binary64::join(minus, INFINITE))
                } else if is_word(&body, "nan") {
                    Some(Binary64::join(minus, QUIET))
                } else {
                    None
                }
            },
        }
    }
}

} // verus!
