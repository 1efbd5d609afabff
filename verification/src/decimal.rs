//! Decimal text: reading and writing unsigned integers in base ten.

use vstd::prelude::*;

use crate::text::characters;

verus! {

/// Whether `c` is one of the ten ASCII digits.
pub open spec fn is_digit(c: char) -> bool {
    '0' <= c && c <= '9'
}

/// The number that the digit `c` stands for.
pub open spec fn digit_value(c: char) -> nat
    recommends
        is_digit(c),
{
    (c as nat - '0' as nat) as nat
}

/// The digit that stands for `d`.
pub open spec fn digit_char(d: nat) -> char
    recommends
        d < 10,
{
    ('0' as nat + d) as char
}

/// Whether `s` is made of ASCII digits only.
pub open spec fn all_digits(s: Seq<char>) -> bool {
    forall|i: int| 0 <= i < s.len() ==> is_digit(#[trigger] s[i])
}

/// The number that a run of digits stands for.
pub open spec fn value(s: Seq<char>) -> nat
    recommends
        all_digits(s),
    decreases s.len(),
{
    if s.len() == 0 {
        0
    } else {
        value(s.drop_last()) * 10 + digit_value(s.last())
    }
}

/// The decimal digits of `n`, without leading zeros.
pub open spec fn digits(n: nat) -> Seq<char>
    decreases n,
{
    if n < 10 {
        seq![digit_char(n)]
    } else {
        digits(n / 10).push(digit_char(n % 10))
    }
}

/// The last `width` decimal digits of `n`, padded with zeros on the left.
pub open spec fn fixed_digits(n: nat, width: nat) -> Seq<char>
    decreases width,
{
    if width == 0 {
        Seq::empty()
    } else {
        fixed_digits(n / 10, (width - 1) as nat).push(digit_char(n % 10))
    }
}

/// The digits of `s` after an optional leading plus sign.
pub open spec fn unsigned_part(s: Seq<char>) -> Seq<char> {
    if s.len() > 0 && s[0] == '+' {
        s.skip(1)
    } else {
        s
    }
}

/// The `u64` that `s` stands for: an optional plus sign, then one or more digits.
pub open spec fn parsed(s: Seq<char>) -> Option<u64> {
    let body = unsigned_part(s);
    if body.len() > 0 && all_digits(body) && value(body) <= u64::MAX {
        Some(value(body) as u64)
    } else {
        None
    }
}

/// Dropping digits from the end never makes a number larger.
proof fn lemma_value_prefix(s: Seq<char>, n: int)
    requires
        0 <= n <= s.len(),
    ensures
        value(s.take(n)) <= value(s),
    decreases s.len() - n,
{
    if n == s.len() {
        assert(s.take(n) == s);
    } else {
        lemma_value_prefix(s, n + 1);
        assert(s.take(n + 1).drop_last() == s.take(n));
    }
}

/// Ten to the power `n`.
pub open spec fn pow10(n: nat) -> nat
    decreases n,
{
    if n == 0 {
        1
    } else {
        10 * pow10((n - 1) as nat)
    }
}

/// Writing a number in decimal and reading it back gives the number.
pub proof fn law_digits_roundtrip(n: nat)
    ensures
        digits(n).len() > 0,
        all_digits(digits(n)),
        value(digits(n)) == n,
    decreases n,
{
    if n < 10 {
        let s = digits(n);
        assert(s.drop_last() == Seq::<char>::empty());
        assert(value(s.drop_last()) == 0);
        assert(s.last() == digit_char(n));
    } else {
        law_digits_roundtrip(n / 10);
        let s = digits(n);
        assert(s.drop_last() == digits(n / 10));
        assert(s.last() == digit_char(n % 10));
    }
}

/// Writing a number with a fixed count of digits that can hold it, and reading
/// it back, gives the number.
pub proof fn law_fixed_digits_roundtrip(n: nat, width: nat)
    requires
        n < pow10(width),
    ensures
        fixed_digits(n, width).len() == width,
        all_digits(fixed_digits(n, width)),
        value(fixed_digits(n, width)) == n,
    decreases width,
{
    if width > 0 {
        law_fixed_digits_roundtrip(n / 10, (width - 1) as nat);
        let s = fixed_digits(n, width);
        assert(s.drop_last() == fixed_digits(n / 10, (width - 1) as nat));
        assert(s.last() == digit_char(n % 10));
    }
}

/// Reads a `u64` written in decimal.
pub fn parse_u64(s: &str) -> (res: Option<u64>)
    ensures
        res == parsed(s@),
{
    let chars = characters(s);
    let start: usize = if chars.len() > 0 && chars[0] == '+' {
        1
    } else {
        0
    };
    let ghost body = unsigned_part(s@);
    if chars.len() == start {
        return None;
    }
    let mut total: u64 = 0;
    let mut i: usize = start;
    while i < chars.len()
        invariant
            chars@ == s@,
            start <= i <= chars@.len(),
            start <= 1,
            body == s@.skip(start as int),
            body == unsigned_part(s@),
            all_digits(body.take(i - start)),
            total == value(body.take(i - start)),
        decreases chars@.len() - i,
    {
        let c = chars[i];
        proof {
            assert(body.take(i - start + 1).drop_last() == body.take(i - start));
            assert(body.take(i - start + 1).last() == c);
            assert(body[i - start] == c);
            lemma_value_prefix(body, i - start + 1);
        }
        if c < '0' || c > '9' {
            return None;
        }
        let digit: u64 = c as u64 - 48;
        let shifted = match total.checked_mul(10) {
            Some(shifted) => shifted,
            None => return None,
        };
        total = match shifted.checked_add(digit) {
            Some(sum) => sum,
            None => return None,
        };
        i = i + 1;
    }
    proof {
        assert(body.take(body.len() as int) == body);
    }
    Some(total)
}

/// The digit character for a value below ten.
fn digit(d: u64) -> (c: char)
    requires
        d < 10,
    ensures
        c == digit_char(d as nat),
{
    (48 + d as u8) as char
}

/// Writes a `u64` in decimal.
pub fn decimal_string(n: u64) -> (text: String)
    ensures
        text@ == digits(n as nat),
    decreases n,
{
    if n < 10 {
        let mut text = String::new();
        text.push(digit(n));
        text
    } else {
        let mut text = decimal_string(n / 10);
        text.push(digit(n % 10));
        text
    }
}

/// Writes the last `width` decimal digits of `n`, zeros included.
pub fn fixed_decimal_string(n: u64, width: usize) -> (text: String)
    ensures
        text@ == fixed_digits(n as nat, width as nat),
    decreases width,
{
    if width == 0 {
        String::new()
    } else {
        let mut text = fixed_decimal_string(n / 10, width - 1);
        text.push(digit(n % 10));
        text
    }
}

/// A run of digits is read from left to right: each digit counts one, and what stands
/// before it ten times as much.
pub proof fn law_value_is_positional(s: Seq<char>, c: char)
    requires
        '0' <= c <= '9',
    ensures
        value(Seq::empty()) == 0,
        value(s.push(c)) == 10 * value(s) + (c as int - 48),
{
    assert(s.push(c).drop_last() == s);
}

/// Powers of ten are tens multiplied together.
pub proof fn law_pow10_is_repeated_product(n: nat)
    ensures
        pow10(0) == 1,
        pow10(n + 1) == 10 * pow10(n),
{
}

/// A run of digits stands for less than ten to the power of its length.
pub(crate) proof fn lemma_value_bound(s: Seq<char>)
    requires
        all_digits(s),
    ensures
        value(s) < pow10(s.len()),
    decreases s.len(),
{
    if s.len() > 0 {
        let rest = s.drop_last();
        assert forall|i: int| 0 <= i < rest.len() implies is_digit(#[trigger] rest[i]) by {
            assert(rest[i] == s[i]);
        }
        lemma_value_bound(rest);
        assert(is_digit(s[s.len() - 1]));
    }
}

/// Each zero that is put behind a run of digits makes it ten times as much.
pub(crate) proof fn lemma_value_zeros(s: Seq<char>, count: nat)
    ensures
        value(s + Seq::new(count, |i: int| '0')) == value(s) * pow10(count),
    decreases count,
{
    let zeros = Seq::new(count, |i: int| '0');
    if count == 0 {
        assert(s + zeros == s);
        assert(value(s) * pow10(0) == value(s)) by (nonlinear_arith)
            requires
                pow10(0) == 1,
        ;
    } else {
        let fewer = Seq::new((count - 1) as nat, |i: int| '0');
        lemma_value_zeros(s, (count - 1) as nat);
        assert((s + zeros).drop_last() == s + fewer);
        assert(value(s) * pow10(count) == value(s) * pow10((count - 1) as nat) * 10)
            by (nonlinear_arith)
            requires
                pow10(count) == 10 * pow10((count - 1) as nat),
        ;
    }
}

/// The decimal digits of a number start with a zero only where the number is zero.
pub proof fn law_digits_have_no_leading_zero(n: nat)
    ensures
        digits(n).len() > 0,
        forall|i: int| 0 <= i < digits(n).len() ==> '0' <= #[trigger] digits(n)[i] <= '9',
        digits(n)[0] == '0' ==> n == 0 && digits(n).len() == 1,
    decreases n,
{
    law_digits_roundtrip(n);
    assert forall|i: int| 0 <= i < digits(n).len() implies '0' <= #[trigger] digits(n)[i]
        <= '9' by {
        assert(is_digit(digits(n)[i]));
    }
    if n >= 10 {
        law_digits_have_no_leading_zero(n / 10);
        assert(digits(n)[0] == digits(n / 10)[0]);
    }
}

/// A run of digits is read as the number that it stands for, with or without a plus
/// sign in front, as long as 64 bits hold the number.
pub proof fn law_digits_are_read(s: Seq<char>)
    requires
        s.len() > 0,
        forall|i: int| 0 <= i < s.len() ==> '0' <= #[trigger] s[i] <= '9',
    ensures
        value(s) <= u64::MAX ==> parsed(s) == Some(value(s) as u64) && parsed(seq!['+'] + s)
            == Some(value(s) as u64),
        value(s) > u64::MAX ==> parsed(s) is None && parsed(seq!['+'] + s) is None,
{
    assert forall|i: int| 0 <= i < s.len() implies is_digit(#[trigger] s[i]) by {}
    assert((seq!['+'] + s).skip(1) == s);
}

/// Nothing else is read as a number: not the empty text, and not a text with another
/// character in it than digits and a plus sign in front.
pub proof fn law_other_text_is_not_read(s: Seq<char>, i: int)
    ensures
        parsed(Seq::empty()) is None,
        parsed(seq!['+']) is None,
        0 <= i < s.len() && !('0' <= s[i] <= '9') && !(i == 0 && s[i] == '+') ==> parsed(s) is None,
{
    assert(seq!['+'].skip(1) == Seq::<char>::empty());
    if 0 <= i < s.len() && !('0' <= s[i] <= '9') && !(i == 0 && s[i] == '+') {
        let body = unsigned_part(s);
        if s[0] == '+' {
            assert(body[i - 1] == s[i]);
            assert(!is_digit(body[i - 1]));
        } else {
            assert(!is_digit(body[i]));
        }
    }
}

} // verus!
