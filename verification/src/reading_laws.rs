//! Laws of reading numbers: which texts spell a number, and which number each of them
//! spells.

use vstd::prelude::*;

use crate::arithmetic_laws::law_decimal_is_the_nearest;
use crate::decimal::{
    digits_end, digits_value, exponent_of, is_digit, lemma_digits_end, lower, number_of, parsed,
    rounded_decimal, spells, unsigned,
};

verus! {

/// The parts of a number as it is written.
pub struct Written {
    /// Nothing, a plus or a minus.
    pub sign: Seq<char>,
    /// The digits before the point.
    pub whole: Seq<char>,
    /// Nothing or a point.
    pub point: Seq<char>,
    /// The digits behind the point.
    pub fraction: Seq<char>,
    /// Nothing, or an `e` of either case.
    pub mark: Seq<char>,
    /// The sign of the exponent: nothing, a plus or a minus.
    pub power_sign: Seq<char>,
    /// The digits of the exponent.
    pub power: Seq<char>,
}

/// Whether `s` is made of decimal digits.
pub open spec fn all_digits(s: Seq<char>) -> bool {
    forall|i: int| 0 <= i < s.len() ==> '0' <= #[trigger] s[i] <= '9'
}

/// Whether `s` is nothing, a plus or a minus.
pub open spec fn is_sign(s: Seq<char>) -> bool {
    s.len() == 0 || s == seq!['+'] || s == seq!['-']
}

impl Written {
    /// Whether the parts make up a number: there is a digit before or behind the point, and
    /// one in the exponent if there is one.
    pub open spec fn fits(self) -> bool {
        &&& is_sign(self.sign)
        &&& all_digits(self.whole)
        &&& all_digits(self.fraction)
        &&& self.whole.len() + self.fraction.len() > 0
        &&& self.point == seq!['.'] || self.point.len() == 0 && self.fraction.len() == 0
        &&& is_sign(self.power_sign)
        &&& all_digits(self.power)
        &&& if self.mark.len() == 0 {
            self.power_sign.len() == 0 && self.power.len() == 0
        } else {
            (self.mark == seq!['e'] || self.mark == seq!['E']) && self.power.len() > 0
        }
    }

    /// The text without its sign.
    pub open spec fn body(self) -> Seq<char> {
        self.whole + self.point + self.fraction + self.mark + self.power_sign + self.power
    }

    /// The text.
    pub open spec fn text(self) -> Seq<char> {
        self.sign + self.body()
    }

    /// The power of ten by which the digits, taken together, are to be multiplied.
    pub open spec fn exponent(self) -> int {
        let size = digits_value(self.power) as int;
        (if self.power_sign == seq!['-'] {
            -size
        } else {
            size
        }) - self.fraction.len()
    }
}

/// Where a run of digits ends that is followed by something else.
proof fn lemma_digits_end_is(s: Seq<char>, i: int, end: int)
    requires
        0 <= i <= end <= s.len(),
        forall|j: int| i <= j < end ==> is_digit(#[trigger] s[j]),
        end < s.len() ==> !is_digit(s[end]),
    ensures
        digits_end(s, i) == end,
    decreases end - i,
{
    if i < end {
        assert(is_digit(s[i]));
        lemma_digits_end_is(s, i + 1, end);
    }
}

proof fn lemma_exponent_is_read(w: Written)
    requires
        w.fits(),
        w.mark.len() > 0,
    ensures
        exponent_of(w.mark + w.power_sign + w.power) == Some(w.exponent() + w.fraction.len()),
{
    let tail = w.mark + w.power_sign + w.power;
    let from = 1 + w.power_sign.len() as int;
    assert(tail[0] == w.mark[0]);
    assert(w.power[0] == tail[from]);
    assert forall|j: int| from <= j < tail.len() implies is_digit(#[trigger] tail[j]) by {
        assert(tail[j] == w.power[j - from]);
    }
    lemma_digits_end_is(tail, from, tail.len() as int);
    assert(tail.skip(from) == w.power);
    if w.power_sign.len() > 0 {
        assert(tail[1] == w.power_sign[0]);
    } else {
        assert(w.power_sign != seq!['-']) by {
            assert(seq!['-'].len() == 1);
        }
    }
}

proof fn lemma_body_is_read(w: Written)
    requires
        w.fits(),
    ensures
        number_of(w.body()) == Some((digits_value(w.whole + w.fraction), w.exponent())),
{
    let s = w.body();
    let n = w.whole.len() as int;
    let f = w.fraction.len() as int;
    let tail = w.mark + w.power_sign + w.power;
    let end = n + w.point.len() + f;
    assert forall|j: int| 0 <= j < n implies is_digit(#[trigger] s[j]) by {
        assert(s[j] == w.whole[j]);
    }
    assert(n < s.len() ==> !is_digit(s[n])) by {
        if w.point.len() > 0 {
            assert(s[n] == '.');
        } else if n < s.len() {
            assert(s[n] == w.mark[0]);
        }
    }
    lemma_digits_end_is(s, 0, n);
    assert(s.subrange(0, n) == w.whole);
    if w.point.len() > 0 {
        assert(s[n] == '.');
        assert forall|j: int| n + 1 <= j < end implies is_digit(#[trigger] s[j]) by {
            assert(s[j] == w.fraction[j - n - 1]);
        }
        if end < s.len() {
            assert(s[end] == w.mark[0]);
        }
        lemma_digits_end_is(s, n + 1, end);
        assert(s.subrange(n + 1, end) == w.fraction);
    } else {
        assert(w.fraction == Seq::<char>::empty());
        if n < s.len() {
            assert(s[n] == w.mark[0]);
        }
    }
    assert(s.skip(end) == tail);
    if w.mark.len() > 0 {
        lemma_exponent_is_read(w);
    } else {
        assert(s.len() == end);
        assert(digits_value(w.power) == 0);
        assert(w.power_sign != seq!['-']) by {
            assert(seq!['-'].len() == 1);
        }
    }
}

/// Every number that is written properly is read: its digits before and behind the point,
/// taken together, times ten to the power of its exponent less the digits behind the
/// point, rounded to the nearest number, and negative exactly if there is a minus.
pub proof fn law_written_numbers_are_read(w: Written)
    requires
        w.fits(),
    ensures
        parsed(w.text()) matches Some(x) && {
            &&& x.code() == rounded_decimal(digits_value(w.whole + w.fraction), w.exponent())
            &&& x.negative() == (w.sign == seq!['-'])
            &&& !x.is_nan()
        },
{
    let s = w.text();
    lemma_body_is_read(w);
    if w.sign.len() > 0 {
        assert(s[0] == w.sign[0]);
        assert(s.skip(1) == w.body());
    } else {
        assert(s == w.body());
        assert(w.sign != seq!['-']) by {
            assert(seq!['-'].len() == 1);
        }
        if w.whole.len() > 0 {
            assert(s[0] == w.whole[0]);
        } else {
            assert(s[0] == '.');
        }
    }
    law_decimal_is_the_nearest(digits_value(w.whole + w.fraction), w.exponent(), 0);
}

/// Whether `s` is a word, given in lower and in upper case, with letters of either case.
pub open spec fn in_any_case(s: Seq<char>, low: Seq<char>, high: Seq<char>) -> bool {
    s.len() == low.len() && forall|i: int|
        0 <= i < s.len() ==> #[trigger] s[i] == low[i] || s[i] == high[i]
}

/// Whether `s` is a word for infinity.
pub open spec fn is_infinity(s: Seq<char>) -> bool {
    ||| in_any_case(s, seq!['i', 'n', 'f'], seq!['I', 'N', 'F'])
    ||| in_any_case(
        s,
        seq!['i', 'n', 'f', 'i', 'n', 'i', 't', 'y'],
        seq!['I', 'N', 'F', 'I', 'N', 'I', 'T', 'Y'],
    )
}

/// Whether `s` is the word for what is no number.
pub open spec fn is_no_number(s: Seq<char>) -> bool {
    in_any_case(s, seq!['n', 'a', 'n'], seq!['N', 'A', 'N'])
}

proof fn lemma_words(s: Seq<char>)
    ensures
        is_infinity(s) <==> spells(s, "inf"@) || spells(s, "infinity"@),
        is_no_number(s) <==> spells(s, "nan"@),
{
    reveal_strlit("inf");
    reveal_strlit("infinity");
    reveal_strlit("nan");
    let low = seq!['i', 'n', 'f', 'i', 'n', 'i', 't', 'y'];
    assert("inf"@ == seq!['i', 'n', 'f']);
    assert("infinity"@ == low);
    assert("nan"@ == seq!['n', 'a', 'n']);
    lemma_word(s, seq!['i', 'n', 'f'], seq!['I', 'N', 'F']);
    lemma_word(s, low, seq!['I', 'N', 'F', 'I', 'N', 'I', 'T', 'Y']);
    lemma_word(s, seq!['n', 'a', 'n'], seq!['N', 'A', 'N']);
}

proof fn lemma_word(s: Seq<char>, low: Seq<char>, high: Seq<char>)
    requires
        low.len() == high.len(),
        forall|i: int|
            0 <= i < low.len() ==> 'a' <= #[trigger] low[i] <= 'z' && high[i] as int + 32
                == low[i] as int,
    ensures
        in_any_case(s, low, high) <==> spells(s, low),
{
    if in_any_case(s, low, high) {
        assert forall|i: int| 0 <= i < s.len() implies #[trigger] lower(s[i]) == low[i] as int by {
            assert(s[i] == low[i] || s[i] == high[i]);
        }
    }
    if spells(s, low) {
        assert forall|i: int| 0 <= i < s.len() implies #[trigger] s[i] == low[i] || s[i]
            == high[i] by {
            assert(lower(s[i]) == low[i] as int);
        }
    }
}

/// The words for infinity and for what is no number are read in any case of letters,
/// behind any sign.
pub proof fn law_words_are_read(sign: Seq<char>, word: Seq<char>)
    requires
        is_sign(sign),
        is_infinity(word) || is_no_number(word),
    ensures
        parsed(sign + word) matches Some(x) && {
            &&& is_infinity(word) ==> x.is_infinite()
            &&& is_no_number(word) ==> x.is_nan()
            &&& x.negative() == (sign == seq!['-'])
        },
{
    let s = sign + word;
    lemma_words(word);
    let first = word[0];
    assert(first == 'i' || first == 'I' || first == 'n' || first == 'N') by {
        assert(word.len() > 0);
    }
    assert(digits_end(word, 0) == 0);
    assert(number_of(word) is None);
    if sign.len() > 0 {
        assert(s[0] == sign[0]);
        assert(s.skip(1) == word);
    } else {
        assert(s == word);
        assert(sign != seq!['-']) by {
            assert(seq!['-'].len() == 1);
        }
    }
    if is_infinity(word) && is_no_number(word) {
        assert(word[0] == 'n' || word[0] == 'N');
        assert(word[0] == 'i' || word[0] == 'I');
    }
}

/// The parts of an exponent.
proof fn lemma_exponent_parts(tail: Seq<char>) -> (r: (Seq<char>, Seq<char>, Seq<char>))
    requires
        exponent_of(tail) is Some,
    ensures
        tail == r.0 + r.1 + r.2,
        r.0 == seq!['e'] || r.0 == seq!['E'],
        is_sign(r.1),
        all_digits(r.2),
        r.2.len() > 0,
{
    let from: int = if tail.len() > 1 && (tail[1] == '+' || tail[1] == '-') {
        2
    } else {
        1
    };
    lemma_digits_end(tail, from);
    let mark = seq![tail[0]];
    let power = tail.skip(from);
    let power_sign = tail.subrange(1, from);
    assert(tail == mark + power_sign + power);
    assert forall|i: int| 0 <= i < power.len() implies '0' <= #[trigger] power[i] <= '9' by {
        assert(is_digit(tail[from + i]));
    }
    if from == 2 {
        assert(power_sign == seq![tail[1]]);
    }
    (mark, power_sign, power)
}

/// The parts of a number without its sign.
proof fn lemma_body_parts(s: Seq<char>) -> (w: Written)
    requires
        number_of(s) is Some,
    ensures
        w.sign.len() == 0,
        w.fits(),
        w.body() == s,
{
    let none = Seq::<char>::empty();
    let n = digits_end(s, 0);
    lemma_digits_end(s, 0);
    let pointed = n < s.len() && s[n] == '.';
    if pointed {
        lemma_digits_end(s, n + 1);
    }
    let end = if pointed {
        digits_end(s, n + 1)
    } else {
        n
    };
    let whole = s.subrange(0, n);
    let point = if pointed {
        seq!['.']
    } else {
        none
    };
    let fraction = if pointed {
        s.subrange(n + 1, end)
    } else {
        none
    };
    let tail = s.skip(end);
    assert forall|i: int| 0 <= i < whole.len() implies '0' <= #[trigger] whole[i] <= '9' by {
        assert(is_digit(s[i]));
    }
    assert forall|i: int| 0 <= i < fraction.len() implies '0' <= #[trigger] fraction[i] <= '9' by {
        assert(is_digit(s[n + 1 + i]));
    }
    assert(whole + point + fraction == s.subrange(0, end));
    let (mark, power_sign, power) = if end == s.len() {
        (none, none, none)
    } else {
        lemma_exponent_parts(tail)
    };
    assert(mark + power_sign + power == tail);
    let w = Written { sign: none, whole, point, fraction, mark, power_sign, power };
    assert(w.body() == (whole + point + fraction) + (mark + power_sign + power));
    assert(w.body() == s);
    w
}

/// Nothing else is read: a text that is read is a number that is written properly, or a
/// sign and a word.
pub proof fn law_nothing_else_is_read(text: Seq<char>) -> (w: Written)
    requires
        parsed(text) is Some,
    ensures
        is_sign(w.sign),
        w.fits() && text == w.text() || text == w.sign + w.whole && (is_infinity(w.whole)
            || is_no_number(w.whole)),
{
    let s = unsigned(text);
    let none = Seq::<char>::empty();
    let sign = if text.len() > 0 && (text[0] == '+' || text[0] == '-') {
        seq![text[0]]
    } else {
        none
    };
    assert(text == sign + s);
    if number_of(s) is None {
        lemma_words(s);
        Written {
            sign,
            whole: s,
            point: none,
            fraction: none,
            mark: none,
            power_sign: none,
            power: none,
        }
    } else {
        let unsigned_parts = lemma_body_parts(s);
        let w = Written { sign, ..unsigned_parts };
        assert(w.body() == s);
        w
    }
}

} // verus!
