//! Offsets into text that are counted in UTF-16 code units, as input methods
//! count them.
use vstd::prelude::*;
use vstd::slice::*;
use vstd::string::*;
use vstd::utf8::*;

use crate::num::{max_of, min_of};
use crate::text::chars_of;

verus! {

/// How many UTF-16 code units a character takes.
pub open spec fn char_units(c: char) -> int {
    if c as u32 > 0xffff {
        2
    } else {
        1
    }
}

/// How many UTF-16 code units a text takes.
pub open spec fn units(text: Seq<char>) -> int
    decreases text.len(),
{
    if text.len() == 0 {
        0
    } else {
        units(text.drop_last()) + char_units(text.last())
    }
}

/// How many characters end at or before an offset.
pub open spec fn chars_before(text: Seq<char>, offset: int) -> int
    decreases text.len(),
{
    if text.len() == 0 || offset < char_units(text[0]) {
        0
    } else {
        1 + chars_before(text.drop_first(), offset - char_units(text[0]))
    }
}

/// How many characters begin before an offset.
pub open spec fn chars_until(text: Seq<char>, offset: int) -> int
    decreases text.len(),
{
    if text.len() == 0 || offset <= 0 {
        0
    } else {
        1 + chars_until(text.drop_first(), offset - char_units(text[0]))
    }
}

/// A range of offsets.
#[derive(Debug, Clone, Copy, PartialEq, Eq, Structural)]
pub struct TextRange {
    pub start: usize,
    pub end: usize,
}

/// A range within a text of some length; a range that runs backwards is empty.
pub open spec fn normalized(range: TextRange, length: int) -> TextRange {
    let start = min_of(range.start as int, length);
    let end = min_of(range.end as int, length);
    TextRange { start: min_of(start, end) as usize, end: end as usize }
}

pub fn normalize_utf16_range(range: TextRange, length: usize) -> (kept: TextRange)
    ensures
        kept == normalized(range, length as int),
        kept.start <= kept.end <= length,
{
    let start: usize = range.start.min(length);
    let end: usize = range.end.min(length);
    if start <= end {
        TextRange { start, end }
    } else {
        TextRange { start: end, end }
    }
}

fn char_len_utf16(c: char) -> (length: usize)
    ensures
        length == char_units(c),
{
    if c as u32 > 0xffff {
        2
    } else {
        1
    }
}

fn char_len_utf8(c: char) -> (length: usize)
    ensures
        length == encode_scalar(c as u32).len(),
{
    let code: u32 = c as u32;
    if code < 0x80 {
        1
    } else if code < 0x800 {
        2
    } else if code < 0x10000 {
        3
    } else {
        4
    }
}

pub proof fn lemma_encode_push(text: Seq<char>, c: char)
    ensures
        encode_utf8(text.push(c)).len() == encode_utf8(text).len() + encode_scalar(c as u32).len(),
    decreases text.len(),
{
    reveal_with_fuel(encode_utf8, 2);
    if text.len() == 0 {
        assert(text.push(c).drop_first() =~= text);
    } else {
        assert(text.push(c).drop_first() =~= text.drop_first().push(c));
        lemma_encode_push(text.drop_first(), c);
    }
}

proof fn lemma_prefix_fits(text: Seq<char>, end: int)
    requires
        0 <= end <= text.len(),
    ensures
        encode_utf8(text.take(end)).len() <= encode_utf8(text).len(),
        0 <= units(text.take(end)) <= encode_utf8(text.take(end)).len(),
        end <= encode_utf8(text.take(end)).len(),
    decreases text.len() - end, end,
{
    lemma_units_fit(text.take(end));
    if end < text.len() {
        lemma_prefix_fits(text, end + 1);
        assert(text.take(end + 1) =~= text.take(end).push(text[end]));
        lemma_encode_push(text.take(end), text[end]);
    } else {
        assert(text.take(end) =~= text);
    }
}

proof fn lemma_units_fit(text: Seq<char>)
    ensures
        0 <= units(text) <= encode_utf8(text).len(),
        text.len() <= encode_utf8(text).len(),
    decreases text.len(),
{
    if text.len() > 0 {
        lemma_units_fit(text.drop_last());
        lemma_encode_push(text.drop_last(), text.last());
        assert(text.drop_last().push(text.last()) =~= text);
    }
}

/// How many UTF-16 code units a text takes.
pub fn utf16_len(text: &str) -> (length: usize)
    ensures
        length == units(text@),
{
    let chars: Vec<char> = chars_of(text);
    let size: usize = text.as_bytes().len();
    assert(size == encode_utf8(text@).len());
    let mut length: usize = 0;
    let mut at: usize = 0;
    assert(chars@.take(0) =~= Seq::empty());
    while at < chars.len()
        invariant
            chars@ == text@,
            size == encode_utf8(text@).len(),
            at <= chars@.len(),
            length == units(chars@.take(at as int)),
        decreases chars@.len() - at,
    {
        proof {
            assert(chars@.take(at + 1).drop_last() =~= chars@.take(at as int));
            lemma_prefix_fits(chars@, at + 1);
        }
        length = length + char_len_utf16(chars[at]);
        at = at + 1;
    }
    assert(chars@.take(at as int) =~= chars@);
    length
}

/// How many characters end at or before an offset.
pub fn floor_index(chars: &[char], offset: usize) -> (index: usize)
    ensures
        index == chars_before(chars@, offset as int),
        index <= chars@.len(),
{
    let mut left: usize = offset;
    let mut at: usize = 0;
    assert(chars@.skip(0) =~= chars@);
    while at < chars.len() && left >= char_len_utf16(chars[at])
        invariant
            at <= chars@.len(),
            chars_before(chars@, offset as int) == at + chars_before(
                chars@.skip(at as int),
                left as int,
            ),
        decreases chars@.len() - at,
    {
        assert(chars@.skip(at as int)[0] == chars@[at as int]);
        assert(chars@.skip(at as int).drop_first() =~= chars@.skip(at + 1));
        left = left - char_len_utf16(chars[at]);
        at = at + 1;
    }
    assert(at < chars@.len() ==> chars@.skip(at as int)[0] == chars@[at as int]);
    at
}

/// How many characters begin before an offset.
pub fn ceil_index(chars: &[char], offset: usize) -> (index: usize)
    ensures
        index == chars_until(chars@, offset as int),
        index <= chars@.len(),
{
    let mut left: usize = offset;
    let mut at: usize = 0;
    assert(chars@.skip(0) =~= chars@);
    while at < chars.len() && left > 0
        invariant
            at <= chars@.len(),
            chars_until(chars@, offset as int) == at + chars_until(
                chars@.skip(at as int),
                left as int,
            ),
        decreases chars@.len() - at,
    {
        assert(chars@.skip(at as int)[0] == chars@[at as int]);
        assert(chars@.skip(at as int).drop_first() =~= chars@.skip(at + 1));
        let ghost rest = chars@.skip(at + 1);
        let ghost exact = left - char_units(chars@[at as int]);
        left = left.saturating_sub(char_len_utf16(chars[at]));
        assert(chars_until(rest, exact) == chars_until(rest, left as int));
        at = at + 1;
    }
    at
}

fn byte_of(text: &str, chars: &[char], index: usize) -> (byte: usize)
    requires
        chars@ == text@,
        index <= chars@.len(),
    ensures
        byte == encode_utf8(text@.take(index as int)).len(),
{
    let size: usize = text.as_bytes().len();
    assert(size == encode_utf8(text@).len());
    let mut byte: usize = 0;
    let mut at: usize = 0;
    assert(chars@.take(0) =~= Seq::empty());
    while at < index
        invariant
            chars@ == text@,
            size == encode_utf8(text@).len(),
            at <= index <= chars@.len(),
            byte == encode_utf8(chars@.take(at as int)).len(),
        decreases index - at,
    {
        proof {
            assert(chars@.take(at + 1) =~= chars@.take(at as int).push(chars@[at as int]));
            lemma_encode_push(chars@.take(at as int), chars@[at as int]);
            lemma_prefix_fits(chars@, at + 1);
        }
        byte = byte + char_len_utf8(chars[at]);
        at = at + 1;
    }
    byte
}

/// The byte at which an offset lies; within a character, the byte at which it
/// begins.
pub fn utf16_offset_to_byte(text: &str, offset: usize) -> (byte: usize)
    ensures
        byte == encode_utf8(text@.take(chars_before(text@, offset as int))).len(),
{
    let chars: Vec<char> = chars_of(text);
    let index: usize = floor_index(chars.as_slice(), offset);
    byte_of(text, chars.as_slice(), index)
}

/// The byte at which an offset lies; within a character, the byte behind it.
pub fn utf16_offset_to_byte_end(text: &str, offset: usize) -> (byte: usize)
    ensures
        byte == encode_utf8(text@.take(chars_until(text@, offset as int))).len(),
{
    let chars: Vec<char> = chars_of(text);
    let index: usize = ceil_index(chars.as_slice(), offset);
    byte_of(text, chars.as_slice(), index)
}

proof fn lemma_units_cons(text: Seq<char>)
    requires
        text.len() > 0,
    ensures
        units(text) == char_units(text[0]) + units(text.drop_first()),
    decreases text.len(),
{
    if text.len() == 1 {
        assert(text.drop_first() =~= Seq::empty());
        assert(text.drop_last() =~= Seq::empty());
    } else {
        lemma_units_cons(text.drop_last());
        assert(text.drop_last().drop_first() =~= text.drop_first().drop_last());
    }
}

pub proof fn lemma_units_nonnegative(text: Seq<char>)
    ensures
        units(text) >= 0,
    decreases text.len(),
{
    if text.len() > 0 {
        lemma_units_nonnegative(text.drop_last());
    }
}

/// The offset of a character leads back to the character.
pub proof fn offsets_lead_back(text: Seq<char>, index: int)
    requires
        0 <= index <= text.len(),
    ensures
        chars_before(text, units(text.take(index))) == index,
        chars_until(text, units(text.take(index))) == index,
    decreases index,
{
    if index == 0 {
        assert(text.take(0) =~= Seq::empty());
    } else {
        let rest = text.drop_first();
        assert(text.take(index).drop_first() =~= rest.take(index - 1));
        lemma_units_cons(text.take(index));
        lemma_units_nonnegative(rest.take(index - 1));
        offsets_lead_back(rest, index - 1);
    }
}

/// The start of a range never lies behind its end.
pub proof fn ranges_do_not_cross(text: Seq<char>, start: int, end: int)
    requires
        start <= end,
    ensures
        0 <= chars_before(text, start) <= chars_until(text, end) <= text.len(),
    decreases text.len(),
{
    if text.len() > 0 {
        let rest = text.drop_first();
        let width = char_units(text[0]);
        if start >= width {
            ranges_do_not_cross(rest, start - width, end - width);
        } else if end > 0 {
            ranges_do_not_cross(rest, min_of(0, end - width), end - width);
        }
    }
}

/// A character takes one code unit, and two beyond the basic plane; texts that
/// follow each other take as many as both.
pub proof fn code_units_add_up(c: char, front: Seq<char>, back: Seq<char>)
    ensures
        units(Seq::empty()) == 0,
        units(seq![c]) == if c as u32 >= 0x10000 {
            2int
        } else {
            1
        },
        units(front + back) == units(front) + units(back),
    decreases back.len(),
{
    assert(seq![c].drop_last() =~= Seq::empty());
    reveal_with_fuel(units, 2);
    if back.len() == 0 {
        assert(front + back =~= front);
    } else {
        code_units_add_up(c, front, back.drop_last());
        assert((front + back).drop_last() =~= front + back.drop_last());
    }
}

/// A range that lies in the text is kept; one that reaches beyond it ends where
/// the text does.
pub proof fn a_range_is_cut_to_the_text(range: TextRange, length: int)
    requires
        0 <= length <= usize::MAX,
    ensures
        range.start <= range.end <= length ==> normalized(range, length) == range,
        range.start <= length < range.end ==> normalized(range, length) == (TextRange {
            start: range.start,
            end: length as usize,
        }),
        range.end <= length && range.end < range.start ==> normalized(range, length) == (TextRange {
            start: range.end,
            end: range.end,
        }),
{
}

/// A part of a text is found by the code units before it and in it.
pub proof fn a_part_is_found_by_its_code_units(
    front: Seq<char>,
    part: Seq<char>,
    back: Seq<char>,
)
    ensures
        ({
            let text = front + part + back;
            &&& chars_before(text, units(front)) == front.len()
            &&& chars_until(text, units(front) + units(part)) == front.len() + part.len()
        }),
{
    let text = front + part + back;
    let end = (front.len() + part.len()) as int;
    offsets_lead_back(text, front.len() as int);
    offsets_lead_back(text, end);
    assert(text.take(front.len() as int) =~= front);
    assert(text.take(end) =~= front + part);
    code_units_add_up('a', front, part);
}

} // verus!
