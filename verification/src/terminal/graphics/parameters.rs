//! Key and value parameters of the graphics protocols.
use vstd::prelude::*;
use vstd::slice::*;
use vstd::string::*;

use crate::decimal::{decimal_text, parse_unsigned, parsed_unsigned, text_bytes};
use crate::text::same_bytes;

verus! {

/// Where `separator` first stands in `bytes`; their length where it does not.
pub open spec fn index_of(bytes: Seq<u8>, separator: u8) -> int
    decreases bytes.len(),
{
    if bytes.len() == 0 || bytes[0] == separator {
        0
    } else {
        1 + index_of(bytes.drop_first(), separator)
    }
}

/// What stands before and after the first `separator`.
pub open spec fn split_at_first(bytes: Seq<u8>, separator: u8) -> Option<(Seq<u8>, Seq<u8>)> {
    let index = index_of(bytes, separator);
    if index < bytes.len() {
        Some((bytes.take(index), bytes.skip(index + 1)))
    } else {
        None
    }
}

proof fn lemma_index_of(bytes: Seq<u8>, separator: u8, index: int)
    requires
        0 <= index <= bytes.len(),
        index < bytes.len() ==> bytes[index] == separator,
        forall|i: int| 0 <= i < index ==> bytes[i] != separator,
    ensures
        index_of(bytes, separator) == index,
    decreases bytes.len(),
{
    if index > 0 {
        lemma_index_of(bytes.drop_first(), separator, index - 1);
    }
}

/// `index_of` is where the first separator stands.
pub proof fn index_of_is_the_first(bytes: Seq<u8>, separator: u8)
    ensures
        0 <= index_of(bytes, separator) <= bytes.len(),
        index_of(bytes, separator) < bytes.len() ==> bytes[index_of(bytes, separator)]
            == separator,
        forall|i: int| 0 <= i < index_of(bytes, separator) ==> bytes[i] != separator,
    decreases bytes.len(),
{
    if bytes.len() > 0 && bytes[0] != separator {
        index_of_is_the_first(bytes.drop_first(), separator);
        assert forall|i: int| 0 <= i < index_of(bytes, separator) implies bytes[i] != separator by {
            if i > 0 {
                assert(bytes[i] == bytes.drop_first()[i - 1]);
            }
        }
    }
}

/// Where `separator` first stands in `bytes`; their length where it does not.
pub fn position_of(bytes: &[u8], separator: u8) -> (index: usize)
    ensures
        index == index_of(bytes@, separator),
        index <= bytes@.len(),
{
    let mut index: usize = 0;
    while index < bytes.len() && bytes[index] != separator
        invariant
            index <= bytes@.len(),
            forall|i: int| 0 <= i < index ==> bytes@[i] != separator,
        decreases bytes@.len() - index,
    {
        index = index + 1;
    }
    proof {
        lemma_index_of(bytes@, separator, index as int);
    }
    index
}

pub fn split_once_byte(bytes: &[u8], separator: u8) -> (parts: Option<(&[u8], &[u8])>)
    ensures
        match parts {
            Some((front, back)) => split_at_first(bytes@, separator) == Some((front@, back@)),
            None => split_at_first(bytes@, separator) is None,
        },
{
    let index: usize = position_of(bytes, separator);
    if index < bytes.len() {
        let front = slice_subrange(bytes, 0, index);
        let back = slice_subrange(bytes, index + 1, bytes.len());
        assert(front@ =~= bytes@.take(index as int));
        assert(back@ =~= bytes@.skip(index + 1));
        Some((front, back))
    } else {
        None
    }
}

/// The value that one part of the form `name=value` gives to `name`.
pub open spec fn part_value(part: Seq<u8>, name: Seq<u8>) -> Option<Seq<u8>> {
    match split_at_first(part, '=' as u8) {
        Some((front, back)) => if front == name {
            Some(back)
        } else {
            None
        },
        None => None,
    }
}

fn value_of_part<'a>(part: &'a [u8], name: &[u8]) -> (value: Option<&'a [u8]>)
    ensures
        match value {
            Some(value) => part_value(part@, name@) == Some(value@),
            None => part_value(part@, name@) is None,
        },
{
    match split_once_byte(part, '=' as u8) {
        Some((front, back)) => if same_bytes(front, name) {
            Some(back)
        } else {
            None
        },
        None => None,
    }
}

/// The value of the first comma separated part that names `key`.
pub open spec fn parameter_value(parameters: Seq<u8>, key: u8) -> Option<Seq<u8>>
    decreases parameters.len(),
{
    let end = index_of(parameters, ',' as u8);
    match part_value(parameters.take(end), seq![key]) {
        Some(value) => Some(value),
        None => if 0 <= end < parameters.len() {
            parameter_value(parameters.skip(end + 1), key)
        } else {
            None
        },
    }
}

pub fn parameter(parameters: &[u8], key: u8) -> (value: Option<&[u8]>)
    ensures
        match value {
            Some(value) => parameter_value(parameters@, key) == Some(value@),
            None => parameter_value(parameters@, key) is None,
        },
{
    let name: [u8; 1] = [key];
    assert(name@ =~= seq![key]);
    let mut rest: &[u8] = parameters;
    loop
        invariant
            name@ == seq![key],
            parameter_value(rest@, key) == parameter_value(parameters@, key),
        decreases rest@.len(),
    {
        let end: usize = position_of(rest, ',' as u8);
        let part = slice_subrange(rest, 0, end);
        assert(part@ =~= rest@.take(end as int));
        if let Some(value) = value_of_part(part, &name) {
            return Some(value);
        }
        if end == rest.len() {
            return None;
        }
        let ghost before = rest@;
        rest = slice_subrange(rest, end + 1, rest.len());
        assert(rest@ =~= before.skip(end + 1));
    }
}

/// Decimal reading as the protocols do it: every byte from `0` on counts by
/// its distance from `0`, and a value that does not fit 32 bits is none.
pub open spec fn loose_decimal(value: Seq<u8>) -> Option<int>
    decreases value.len(),
{
    if value.len() == 0 {
        Some(0)
    } else {
        match loose_decimal(value.drop_last()) {
            Some(front) => {
                let sum = front * 10 + value.last() as int - '0' as int;
                if value.last() >= '0' as u8 && sum <= u32::MAX {
                    Some(sum)
                } else {
                    None
                }
            },
            None => None,
        }
    }
}

/// The number that the parameters give to `key`.
pub open spec fn parameter_number(parameters: Seq<u8>, key: u8) -> Option<int> {
    match parameter_value(parameters, key) {
        Some(value) => loose_decimal(value),
        None => None,
    }
}

proof fn lemma_loose_decimal_prefix(value: Seq<u8>, end: int)
    requires
        0 <= end <= value.len(),
        loose_decimal(value.take(end)) is None,
    ensures
        loose_decimal(value) is None,
    decreases value.len() - end,
{
    if end < value.len() {
        assert(value.take(end + 1).drop_last() =~= value.take(end));
        lemma_loose_decimal_prefix(value, end + 1);
    } else {
        assert(value.take(end) =~= value);
    }
}

pub fn parameter_u32(parameters: &[u8], key: u8) -> (number: Option<u32>)
    ensures
        match number {
            Some(number) => parameter_number(parameters@, key) == Some(number as int),
            None => parameter_number(parameters@, key) is None,
        },
{
    let value: &[u8] = match parameter(parameters, key) {
        Some(value) => value,
        None => {
            return None;
        },
    };
    let mut number: u32 = 0;
    let mut i: usize = 0;
    assert(value@.take(0) =~= Seq::empty());
    while i < value.len()
        invariant
            i <= value@.len(),
            parameter_value(parameters@, key) == Some(value@),
            loose_decimal(value@.take(i as int)) == Some(number as int),
        decreases value@.len() - i,
    {
        assert(value@.take(i + 1).drop_last() =~= value@.take(i as int));
        let byte: u8 = value[i];
        let digit: Option<u32> = if byte >= '0' as u8 {
            Some((byte - '0' as u8) as u32)
        } else {
            None
        };
        let next: Option<u32> = match digit {
            Some(digit) => match number.checked_mul(10) {
                Some(shifted) => shifted.checked_add(digit),
                None => None,
            },
            None => None,
        };
        number = match next {
            Some(next) => next,
            None => {
                proof {
                    lemma_loose_decimal_prefix(value@, i + 1);
                }
                return None;
            },
        };
        i = i + 1;
    }
    assert(value@.take(i as int) =~= value@);
    Some(number)
}

/// The value of the last semicolon separated part that names `name`.
pub open spec fn option_value(options: Seq<u8>, name: Seq<u8>) -> Option<Seq<u8>>
    decreases options.len(),
{
    let end = index_of(options, ';' as u8);
    let here = part_value(options.take(end), name);
    if 0 <= end < options.len() {
        match option_value(options.skip(end + 1), name) {
            Some(later) => Some(later),
            None => here,
        }
    } else {
        here
    }
}

pub fn semicolon_option<'a>(options: &'a [u8], name: &[u8]) -> (value: Option<&'a [u8]>)
    ensures
        match value {
            Some(value) => option_value(options@, name@) == Some(value@),
            None => option_value(options@, name@) is None,
        },
{
    let mut rest: &[u8] = options;
    let mut found: Option<&[u8]> = None;
    loop
        invariant
            option_value(options@, name@) == match option_value(rest@, name@) {
                Some(later) => Some(later),
                None => match found {
                    Some(value) => Some(value@),
                    None => None,
                },
            },
        decreases rest@.len(),
    {
        let end: usize = position_of(rest, ';' as u8);
        let part = slice_subrange(rest, 0, end);
        assert(part@ =~= rest@.take(end as int));
        if let Some(value) = value_of_part(part, name) {
            found = Some(value);
        }
        if end == rest.len() {
            return found;
        }
        let ghost before = rest@;
        rest = slice_subrange(rest, end + 1, rest.len());
        assert(rest@ =~= before.skip(end + 1));
    }
}

/// A dimension without its unit, `px` or `%`.
pub open spec fn without_unit(value: Seq<u8>) -> Seq<u8> {
    let length = value.len() as int;
    if length >= 2 && value[length - 2] == 'p' as u8 && value[length - 1] == 'x' as u8 {
        value.take(length - 2)
    } else if length >= 1 && value[length - 1] == '%' as u8 {
        value.take(length - 1)
    } else {
        value
    }
}

/// The number that a dimension stands for, where it fits.
pub open spec fn dimension_number(value: Seq<u8>) -> Option<int> {
    match parsed_unsigned(without_unit(value)) {
        Some(number) => if number <= usize::MAX {
            Some(number)
        } else {
            None
        },
        None => None,
    }
}

pub fn parse_dimension(value: &[u8]) -> (number: Option<usize>)
    ensures
        match number {
            Some(number) => dimension_number(value@) == Some(number as int),
            None => dimension_number(value@) is None,
        },
{
    let length: usize = value.len();
    let end: usize = if length >= 2 && value[length - 2] == 'p' as u8 && value[length - 1]
        == 'x' as u8 {
        length - 2
    } else if length >= 1 && value[length - 1] == '%' as u8 {
        length - 1
    } else {
        length
    };
    let digits = slice_subrange(value, 0, end);
    assert(digits@ =~= without_unit(value@));
    parse_unsigned(digits)
}

proof fn lemma_part(name: Seq<u8>, value: Seq<u8>, asked: Seq<u8>)
    requires
        forall|i: int| 0 <= i < name.len() ==> #[trigger] name[i] != 0x3d,
    ensures
        part_value(name + seq![0x3du8] + value, asked) == if asked == name {
            Some(value)
        } else {
            None
        },
{
    let part = name + seq![0x3du8] + value;
    let at = name.len() as int;
    assert(part[at] == 0x3d);
    lemma_index_of(part, 0x3d, at);
    assert(part.take(at) =~= name);
    assert(part.skip(at + 1) =~= value);
}

proof fn lemma_first_part(part: Seq<u8>, rest: Seq<u8>, separator: u8)
    requires
        forall|i: int| 0 <= i < part.len() ==> #[trigger] part[i] != separator,
    ensures
        index_of(part, separator) == part.len(),
        part.take(part.len() as int) == part,
        index_of(part + seq![separator] + rest, separator) == part.len(),
        (part + seq![separator] + rest).take(part.len() as int) == part,
        (part + seq![separator] + rest).skip(part.len() as int + 1) == rest,
{
    let whole = part + seq![separator] + rest;
    lemma_index_of(part, separator, part.len() as int);
    assert(whole[part.len() as int] == separator);
    assert forall|i: int| 0 <= i < part.len() implies whole[i] != separator by {
        assert(whole[i] == part[i]);
    }
    lemma_index_of(whole, separator, part.len() as int);
    assert(part.take(part.len() as int) =~= part);
    assert(whole.take(part.len() as int) =~= part);
    assert(whole.skip(part.len() as int + 1) =~= rest);
}

/// A parameter has the value behind its key and the equals sign, up to the next
/// comma; the first one with the key counts, and others do not matter.
pub proof fn a_parameter_is_looked_up(key: u8, value: Seq<u8>, other: u8, rest: Seq<u8>)
    requires
        key != 0x2c,
        key != 0x3d,
        other != key,
        forall|i: int| 0 <= i < value.len() ==> #[trigger] value[i] != 0x2c,
    ensures
        parameter_value(seq![key, 0x3du8] + value, key) == Some(value),
        parameter_value(seq![key, 0x3du8] + value, other) is None,
        parameter_value(seq![key, 0x3du8] + value + seq![0x2cu8] + rest, key) == Some(value),
        parameter_value(seq![key, 0x3du8] + value + seq![0x2cu8] + rest, other) == parameter_value(
            rest,
            other,
        ),
{
    let part = seq![key, 0x3du8] + value;
    assert(part =~= seq![key] + seq![0x3du8] + value);
    lemma_part(seq![key], value, seq![key]);
    lemma_part(seq![key], value, seq![other]);
    assert(seq![key][0] != seq![other][0]);
    assert forall|i: int| 0 <= i < part.len() implies #[trigger] part[i] != 0x2c by {
        if i >= 2 {
            assert(part[i] == value[i - 2]);
        }
    }
    lemma_first_part(part, rest, 0x2c);
}

/// An option has the value behind its name and the equals sign, up to the next
/// semicolon; the last one with the name counts, and others do not matter.
pub proof fn an_option_is_looked_up(
    name: Seq<u8>,
    value: Seq<u8>,
    other: Seq<u8>,
    rest: Seq<u8>,
)
    requires
        forall|i: int| 0 <= i < name.len() ==> #[trigger] name[i] != 0x3b && name[i] != 0x3d,
        forall|i: int| 0 <= i < value.len() ==> #[trigger] value[i] != 0x3b,
        other != name,
    ensures
        option_value(name + seq![0x3du8] + value, name) == Some(value),
        option_value(name + seq![0x3du8] + value, other) is None,
        option_value(name + seq![0x3du8] + value + seq![0x3bu8] + rest, name) == match option_value(
            rest,
            name,
        ) {
            Some(later) => Some(later),
            None => Some(value),
        },
        option_value(name + seq![0x3du8] + value + seq![0x3bu8] + rest, other) == option_value(
            rest,
            other,
        ),
{
    let part = name + seq![0x3du8] + value;
    lemma_part(name, value, name);
    lemma_part(name, value, other);
    assert forall|i: int| 0 <= i < part.len() implies #[trigger] part[i] != 0x3b by {
        if i < name.len() {
            assert(part[i] == name[i]);
        } else if i > name.len() {
            assert(part[i] == value[i - name.len() - 1]);
        }
    }
    lemma_first_part(part, rest, 0x3b);
}

/// A number is read in decimal.
pub proof fn numbers_are_read_in_decimal(number: nat)
    requires
        number <= u32::MAX,
    ensures
        loose_decimal(text_bytes(decimal_text(number))) == Some(number as int),
    decreases number,
{
    let text = decimal_text(number);
    let bytes = text_bytes(text);
    if number < 10 {
        assert(bytes.drop_last() =~= Seq::empty());
        assert(bytes.last() == 48 + number);
        assert(loose_decimal(bytes.drop_last()) == Some(0int));
    } else {
        numbers_are_read_in_decimal(number / 10);
        assert(bytes.drop_last() =~= text_bytes(decimal_text(number / 10)));
        assert(bytes.last() == 48 + number % 10);
    }
}

/// A dimension may carry its unit: pixels and percent are counted like cells.
pub proof fn a_unit_is_taken_off(digits: Seq<u8>)
    requires
        digits.len() > 0,
        forall|i: int| 0 <= i < digits.len() ==> 0x30 <= #[trigger] digits[i] <= 0x39,
    ensures
        without_unit(digits) == digits,
        without_unit(digits + seq![0x70u8, 0x78]) == digits,
        without_unit(digits + seq![0x25u8]) == digits,
{
    assert(0x30 <= digits[digits.len() - 1] <= 0x39);
    assert((digits + seq![0x70u8, 0x78]).take(digits.len() as int) =~= digits);
    assert((digits + seq![0x25u8]).take(digits.len() as int) =~= digits);
}

} // verus!
