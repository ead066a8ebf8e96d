//! Decimal numbers in text and bytes.
use vstd::prelude::*;
use vstd::utf8::*;

verus! {

pub open spec fn digit_char(digit: int) -> char {
    (('0' as int) + digit) as char
}

/// The shortest decimal text of `value`.
pub open spec fn decimal_text(value: nat) -> Seq<char>
    decreases value,
{
    if value < 10 {
        seq![digit_char(value as int)]
    } else {
        decimal_text(value / 10).push(digit_char((value % 10) as int))
    }
}

/// The characters of an ASCII text as bytes.
pub open spec fn text_bytes(text: Seq<char>) -> Seq<u8> {
    text.map_values(|c: char| c as u8)
}

/// The value of a run of digits, read after `start`.
pub open spec fn digits_value(digits: Seq<u8>, start: int) -> int
    decreases digits.len(),
{
    if digits.len() == 0 {
        start
    } else {
        digits_value(digits.drop_first(), start * 10 + digits[0] as int - '0' as int)
    }
}

pub open spec fn is_digit(byte: u8) -> bool {
    '0' as u8 <= byte <= '9' as u8
}

/// What is left of a number's text once an optional plus sign is taken off.
pub open spec fn unsigned_digits(text: Seq<u8>) -> Seq<u8> {
    if text.len() > 0 && text[0] == '+' as u8 {
        text.skip(1)
    } else {
        text
    }
}

/// The number that a text stands for: digits only, at least one, after an
/// optional plus sign.
pub open spec fn parsed_unsigned(text: Seq<u8>) -> Option<int> {
    let digits = unsigned_digits(text);
    if digits.len() > 0 && (forall|i: int| 0 <= i < digits.len() ==> is_digit(#[trigger] digits[i])) {
        Some(digits_value(digits, 0))
    } else {
        None
    }
}

/// Appends the decimal text of `value`.
pub fn push_decimal_text(out: &mut String, value: u64)
    ensures
        final(out)@ == old(out)@ + decimal_text(value as nat),
    decreases value,
{
    let ghost before = out@;
    if value >= 10 {
        push_decimal_text(out, value / 10);
    }
    let digit: u8 = (value % 10) as u8;
    out.push((digit + 48) as char);
    assert(out@ =~= before + decimal_text(value as nat));
}

/// Appends the decimal text of `value` to `out`.
pub fn push_decimal(out: &mut Vec<u8>, value: u64)
    ensures
        final(out)@ == old(out)@ + text_bytes(decimal_text(value as nat)),
    decreases value,
{
    if value >= 10 {
        push_decimal(out, value / 10);
    }
    let digit: u8 = (value % 10) as u8;
    out.push('0' as u8 + digit);
    assert(out@ =~= old(out)@ + text_bytes(decimal_text(value as nat)));
}

proof fn lemma_digits_value_grows(digits: Seq<u8>, start: int)
    requires
        forall|i: int| 0 <= i < digits.len() ==> is_digit(#[trigger] digits[i]),
        start >= 0,
    ensures
        digits_value(digits, start) >= start,
    decreases digits.len(),
{
    if digits.len() > 0 {
        lemma_digits_value_grows(digits.drop_first(), start * 10 + digits[0] as int - '0' as int);
    }
}

/// The number in `text`, where it is one and fits.
pub fn parse_unsigned(text: &[u8]) -> (value: Option<usize>)
    ensures
        match value {
            Some(value) => parsed_unsigned(text@) == Some(value as int),
            None => match parsed_unsigned(text@) {
                Some(number) => number > usize::MAX,
                None => true,
            },
        },
{
    let start: usize = if text.len() > 0 && text[0] == '+' as u8 {
        1
    } else {
        0
    };
    let ghost digits = unsigned_digits(text@);
    assert(digits =~= text@.skip(start as int));
    if text.len() == start {
        return None;
    }
    let mut i: usize = start;
    while i < text.len()
        invariant
            start <= i <= text@.len(),
            digits == text@.skip(start as int),
            digits == unsigned_digits(text@),
            forall|k: int| 0 <= k < i - start ==> is_digit(#[trigger] digits[k]),
        decreases text@.len() - i,
    {
        let byte: u8 = text[i];
        assert(byte == digits[i - start]);
        if !('0' as u8 <= byte && byte <= '9' as u8) {
            return None;
        }
        i = i + 1;
    }
    let mut value: usize = 0;
    i = start;
    assert(digits.skip(0) =~= digits);
    while i < text.len()
        invariant
            start <= i <= text@.len(),
            digits.len() > 0,
            digits == text@.skip(start as int),
            digits == unsigned_digits(text@),
            forall|k: int| 0 <= k < digits.len() ==> is_digit(#[trigger] digits[k]),
            digits_value(digits.skip(i - start), value as int) == digits_value(digits, 0),
        decreases text@.len() - i,
    {
        let ghost rest = digits.skip(i - start);
        assert(rest.drop_first() =~= digits.skip(i + 1 - start));
        assert(is_digit(digits[i - start]));
        let digit: usize = (text[i] - '0' as u8) as usize;
        proof {
            assert forall|k: int| 0 <= k < rest.drop_first().len() implies is_digit(
                #[trigger] rest.drop_first()[k],
            ) by {
                assert(is_digit(digits[i + 1 - start + k]));
            }
            lemma_digits_value_grows(rest.drop_first(), value * 10 + digit);
        }
        let shifted: usize = match value.checked_mul(10) {
            Some(shifted) => shifted,
            None => {
                return None;
            },
        };
        value = match shifted.checked_add(digit) {
            Some(sum) => sum,
            None => {
                return None;
            },
        };
        i = i + 1;
    }
    assert(digits.skip(i - start) =~= Seq::empty());
    Some(value)
}

proof fn lemma_digits_value_push(digits: Seq<u8>, last: u8, start: int)
    ensures
        digits_value(digits.push(last), start) == digits_value(digits, start) * 10 + last as int
            - '0' as int,
    decreases digits.len(),
{
    if digits.len() == 0 {
        assert(digits.push(last).drop_first() =~= digits);
        reveal_with_fuel(digits_value, 2);
    } else {
        assert(digits.push(last).drop_first() =~= digits.drop_first().push(last));
        lemma_digits_value_push(
            digits.drop_first(),
            last,
            start * 10 + digits[0] as int - '0' as int,
        );
    }
}

/// The decimal text of a number is made of digits, and stands for the number.
pub proof fn lemma_decimal_text(value: nat)
    ensures
        decimal_text(value).len() > 0,
        forall|i: int|
            0 <= i < decimal_text(value).len() ==> '0' <= #[trigger] decimal_text(value)[i] <= '9',
        digits_value(text_bytes(decimal_text(value)), 0) == value,
    decreases value,
{
    let text = decimal_text(value);
    if value < 10 {
        assert(text_bytes(text) =~= Seq::<u8>::empty().push(text[0] as u8));
        lemma_digits_value_push(Seq::empty(), text[0] as u8, 0);
    } else {
        lemma_decimal_text(value / 10);
        let front = decimal_text(value / 10);
        let last = digit_char((value % 10) as int);
        assert(text_bytes(text) =~= text_bytes(front).push(last as u8));
        lemma_digits_value_push(text_bytes(front), last as u8, 0);
    }
}

/// A number is read back from its decimal text.
pub proof fn lemma_decimal_round_trip(value: nat)
    ensures
        parsed_unsigned(encode_utf8(decimal_text(value))) == Some(value as int),
        decimal_text(value).len() > 0,
        forall|i: int|
            0 <= i < decimal_text(value).len() ==> '0' <= #[trigger] decimal_text(value)[i] <= '9',
{
    let text = decimal_text(value);
    lemma_decimal_text(value);
    assert(is_ascii_chars(text));
    is_ascii_chars_encode_utf8(text);
    let bytes = encode_utf8(text);
    assert(bytes =~= text_bytes(text));
    assert forall|i: int| 0 <= i < bytes.len() implies is_digit(#[trigger] bytes[i]) by {
        assert(bytes[i] == text[i] as u8);
    }
    assert(bytes[0] == text[0] as u8);
    assert(unsigned_digits(bytes) == bytes);
}

/// Each digit behind others stands for itself and ten times what they stand for.
pub proof fn digits_are_read_from_the_left(front: Seq<u8>, digit: u8, start: int)
    requires
        48 <= digit <= 57,
    ensures
        digits_value(front.push(digit), start) == 10 * digits_value(front, start) + (digit - 48),
        digits_value(Seq::empty(), start) == start,
    decreases front.len(),
{
    let all = front.push(digit);
    if front.len() == 0 {
        assert(all.drop_first() =~= Seq::empty());
        reveal_with_fuel(digits_value, 2);
    } else {
        assert(all.drop_first() =~= front.drop_first().push(digit));
        digits_are_read_from_the_left(
            front.drop_first(),
            digit,
            start * 10 + front[0] as int - '0' as int,
        );
    }
}

/// A number is read from digits, with a plus sign before them or without; nothing
/// and anything else is no number.
pub proof fn only_digits_are_a_number(digits: Seq<u8>, at: int)
    ensures
        digits.len() > 0 && (forall|i: int|
            0 <= i < digits.len() ==> 48 <= #[trigger] digits[i] <= 57) ==> parsed_unsigned(digits)
            == Some(digits_value(digits, 0)) && parsed_unsigned(seq![43u8] + digits) == Some(
            digits_value(digits, 0),
        ),
        parsed_unsigned(Seq::empty()) is None,
        parsed_unsigned(seq![43u8]) is None,
        0 < at < digits.len() && !(48 <= digits[at] <= 57) ==> parsed_unsigned(digits) is None,
{
    assert((seq![43u8] + digits).skip(1) =~= digits);
    assert(seq![43u8].skip(1).len() == 0);
    if 0 < at < digits.len() && !(48 <= digits[at] <= 57) {
        let read = unsigned_digits(digits);
        if digits[0] == '+' as u8 {
            assert(read[at - 1] == digits[at]);
        } else {
            assert(read[at] == digits[at]);
        }
    }
}

} // verus!
