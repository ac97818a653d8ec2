//! Reading numbers and characters out of text.

use vstd::prelude::*;
use vstd::string::StringExecFns;

verus! {

/// The text that `str::trim` makes of a text: the same without the white
/// space at its ends.
pub uninterp spec fn trimmed(text: Seq<char>) -> Seq<char>;

/// The text that `str::to_lowercase` makes of a text.
pub uninterp spec fn lowercased(text: Seq<char>) -> Seq<char>;

/// `str::trim`. Trusted: what it returns is a function of the text alone.
#[verifier::external_body]
pub(crate) fn trim_text<'a>(text: &'a str) -> (r: &'a str)
    ensures
        r@ == trimmed(text@),
{
    text.trim()
}

/// `str::to_lowercase`. Trusted: what it returns is a function of the text
/// alone.
#[verifier::external_body]
pub(crate) fn lowercase_text(text: &str) -> (r: String)
    ensures
        r@ == lowercased(text@),
{
    text.to_lowercase()
}

/// The characters of a text, one by one.
pub fn chars_of(text: &str) -> (chars: Vec<char>)
    ensures
        chars@ == text@,
{
    let mut chars: Vec<char> = Vec::new();
    for c in it: text.chars()
        invariant
            it.seq() == text@,
            chars@ == text@.subrange(0, it.index() as int),
    {
        chars.push(c);
        assert(chars@ =~= text@.subrange(0, it.index() + 1));
    }
    assert(chars@ =~= text@);
    chars
}

/// Tells whether two texts are the same.
pub fn same_text(a: &str, b: &str) -> (same: bool)
    ensures
        same == (a@ == b@),
{
    let left = a.to_owned();
    let right = b.to_owned();
    left == right
}

/// The views of some texts.
pub open spec fn text_views(texts: Seq<String>) -> Seq<Seq<char>> {
    texts.map_values(|t: String| t@)
}

/// Whether `c` is one of the digits `0` to `9`.
pub open spec fn is_digit(c: char) -> bool {
    0x30 <= c as u32 <= 0x39
}

/// The number that the digit `c` stands for.
pub open spec fn digit_value(c: char) -> nat {
    (c as u32 - 0x30) as nat
}

/// Whether `text` is made of digits only.
pub open spec fn all_digits(text: Seq<char>) -> bool {
    forall|i: int| 0 <= i < text.len() ==> is_digit(#[trigger] text[i])
}

/// The number that a run of digits stands for, in base ten.
pub open spec fn digits_value(digits: Seq<char>) -> nat
    decreases digits.len(),
{
    if digits.len() == 0 {
        0
    } else {
        digits_value(digits.drop_last()) * 10 + digit_value(digits.last())
    }
}

/// The digits of a field: the field without a plus sign in front.
pub open spec fn digits_of(field: Seq<char>) -> Seq<char> {
    if field.len() > 0 && field[0] == '+' {
        field.drop_first()
    } else {
        field
    }
}

/// The number that `field` holds, if it is one or more digits, with or
/// without a plus sign in front, that stand for a number up to `max`.
pub open spec fn number_in(field: Seq<char>, max: nat) -> Option<nat> {
    let digits = digits_of(field);
    if digits.len() > 0 && all_digits(digits) && digits_value(digits) <= max {
        Some(digits_value(digits))
    } else {
        None
    }
}

/// A run of digits stands for no less than any of its beginnings.
proof fn lemma_value_grows(digits: Seq<char>, n: int)
    requires
        0 <= n <= digits.len(),
    ensures
        digits_value(digits.subrange(0, n)) <= digits_value(digits),
    decreases digits.len() - n,
{
    if n == digits.len() {
        assert(digits.subrange(0, n) =~= digits);
    } else {
        lemma_value_grows(digits, n + 1);
        assert(digits.subrange(0, n + 1).drop_last() =~= digits.subrange(0, n));
    }
}

/// Reads the number that the characters from `start` up to `end` hold.
pub fn parse_number(chars: &Vec<char>, start: usize, end: usize, max: u128) -> (r: Option<u128>)
    requires
        start <= end <= chars@.len(),
    ensures
        match number_in(chars@.subrange(start as int, end as int), max as nat) {
            Some(value) => r == Some(value as u128),
            None => r is None,
        },
{
    let ghost field = chars@.subrange(start as int, end as int);
    let mut i = start;
    if i < end && chars[i] == '+' {
        assert(field[0] == '+');
        i += 1;
    } else {
        assert(start < end ==> field[0] == chars@[start as int]);
    }
    let first = i;
    let ghost digits = chars@.subrange(first as int, end as int);
    assert(digits =~= digits_of(field));
    if i == end {
        return None;
    }
    let mut value: u128 = 0;
    while i < end
        invariant
            start <= first <= i <= end <= chars@.len(),
            field == chars@.subrange(start as int, end as int),
            digits == chars@.subrange(first as int, end as int),
            digits == digits_of(field),
            all_digits(digits.subrange(0, i - first)),
            value == digits_value(digits.subrange(0, i - first)),
            value <= max,
        decreases end - i,
    {
        let code = chars[i] as u32;
        if code < 0x30 || code > 0x39 {
            assert(!is_digit(digits[i - first]));
            return None;
        }
        let digit = (code - 0x30) as u128;
        proof {
            let longer = digits.subrange(0, i - first + 1);
            assert(longer.drop_last() =~= digits.subrange(0, i - first));
            assert(longer.last() == chars@[i as int]);
            assert(digits_value(longer) == value * 10 + digit);
            lemma_value_grows(digits, i - first + 1);
        }
        if digit > max || value > (max - digit) / 10 {
            return None;
        }
        value = value * 10 + digit;
        i += 1;
    }
    assert(digits.subrange(0, i - first) =~= digits);
    Some(value)
}

/// The digit that stands for `n`, a number below ten.
pub open spec fn digit_char(n: nat) -> char {
    if n == 0 {
        '0'
    } else if n == 1 {
        '1'
    } else if n == 2 {
        '2'
    } else if n == 3 {
        '3'
    } else if n == 4 {
        '4'
    } else if n == 5 {
        '5'
    } else if n == 6 {
        '6'
    } else if n == 7 {
        '7'
    } else if n == 8 {
        '8'
    } else {
        '9'
    }
}

/// The digits of `n` in base ten, without leading zeros.
pub open spec fn decimal_text(n: nat) -> Seq<char>
    decreases n,
{
    if n < 10 {
        seq![digit_char(n)]
    } else {
        decimal_text(n / 10).push(digit_char(n % 10))
    }
}

/// The digits of `n` in base ten, in two places at least.
pub open spec fn padded_text(n: nat) -> Seq<char> {
    if n < 10 {
        seq!['0'].push(digit_char(n))
    } else {
        decimal_text(n)
    }
}

/// The text of one digit.
fn digit_text(n: u64) -> (text: &'static str)
    requires
        n < 10,
    ensures
        text@ == seq![digit_char(n as nat)],
{
    proof {
        reveal_strlit("0");
        reveal_strlit("1");
        reveal_strlit("2");
        reveal_strlit("3");
        reveal_strlit("4");
        reveal_strlit("5");
        reveal_strlit("6");
        reveal_strlit("7");
        reveal_strlit("8");
        reveal_strlit("9");
    }
    let text = if n == 0 {
        "0"
    } else if n == 1 {
        "1"
    } else if n == 2 {
        "2"
    } else if n == 3 {
        "3"
    } else if n == 4 {
        "4"
    } else if n == 5 {
        "5"
    } else if n == 6 {
        "6"
    } else if n == 7 {
        "7"
    } else if n == 8 {
        "8"
    } else {
        "9"
    };
    assert(text@ =~= seq![digit_char(n as nat)]);
    text
}

/// Writes the digits of `n` behind what `out` holds.
pub fn append_decimal(out: &mut String, n: u64)
    ensures
        final(out)@ == old(out)@ + decimal_text(n as nat),
    decreases n,
{
    if n >= 10 {
        append_decimal(out, n / 10);
    }
    out.append(digit_text(n % 10));
    assert(out@ =~= old(out)@ + decimal_text(n as nat));
}

/// Writes the digits of `n`, in two places at least, behind what `out`
/// holds.
pub fn append_padded(out: &mut String, n: u64)
    ensures
        final(out)@ == old(out)@ + padded_text(n as nat),
{
    if n < 10 {
        out.append(digit_text(0));
        out.append(digit_text(n));
        assert(out@ =~= old(out)@ + padded_text(n as nat));
    } else {
        append_decimal(out, n);
    }
}

/// A run of digits with one more digit behind it stands for ten times as
/// much and the digit.
proof fn lemma_value_of_push(digits: Seq<char>, c: char)
    ensures
        digits_value(digits.push(c)) == digits_value(digits) * 10 + digit_value(c),
{
    assert(digits.push(c).drop_last() =~= digits);
}

/// The digit of a number below ten is a digit, and stands for the number.
proof fn lemma_digit_char(n: nat)
    requires
        n < 10,
    ensures
        is_digit(digit_char(n)),
        digit_value(digit_char(n)) == n,
        digit_char(n) != '-',
        digit_char(n) != '+',
        digit_char(n) != 't',
{
}

/// The digits of a number are digits, at least one, and stand for the
/// number.
pub proof fn lemma_decimal_text(n: nat)
    ensures
        decimal_text(n).len() >= 1,
        all_digits(decimal_text(n)),
        digits_value(decimal_text(n)) == n,
    decreases n,
{
    if n < 10 {
        lemma_digit_char(n);
        lemma_value_of_push(Seq::<char>::empty(), digit_char(n));
        assert(decimal_text(n) =~= Seq::<char>::empty().push(digit_char(n)));
    } else {
        lemma_decimal_text(n / 10);
        lemma_digit_char(n % 10);
        lemma_value_of_push(decimal_text(n / 10), digit_char(n % 10));
    }
}

/// The padded digits of a number are digits, at least one, and stand for
/// the number.
pub proof fn lemma_padded_text(n: nat)
    ensures
        padded_text(n).len() >= 1,
        all_digits(padded_text(n)),
        digits_value(padded_text(n)) == n,
{
    if n < 10 {
        lemma_digit_char(0);
        lemma_digit_char(n);
        let zero = Seq::<char>::empty().push('0');
        lemma_value_of_push(Seq::<char>::empty(), '0');
        lemma_value_of_push(zero, digit_char(n));
        assert(seq!['0'] =~= zero);
    } else {
        lemma_decimal_text(n);
    }
}

/// A field of digits only holds the number that they stand for, up to the
/// limit.
pub proof fn lemma_number_in_digits(digits: Seq<char>, max: nat)
    requires
        digits.len() >= 1,
        all_digits(digits),
        digits_value(digits) <= max,
    ensures
        number_in(digits, max) == Some(digits_value(digits)),
{
    assert(is_digit(digits[0]));
}

} // verus!
