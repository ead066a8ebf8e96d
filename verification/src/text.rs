//! Comparing, searching and building text.
use vstd::prelude::*;
use vstd::slice::*;
use vstd::string::*;
use vstd::utf8::*;

verus! {

/// `String::push` of the standard library appends one character.
pub assume_specification[ String::push ](s: &mut String, ch: char)
    ensures
        final(s)@ == old(s)@.push(ch),
;

/// What `String::from_utf8_lossy` of the standard library makes of bytes.
pub uninterp spec fn lossy_text(bytes: Seq<u8>) -> Seq<char>;

/// Reads bytes as UTF-8 with `String::from_utf8_lossy`, which puts a
/// replacement character where they are not and otherwise keeps them. The
/// claim is that the text depends on the bytes alone and that bytes that are
/// UTF-8 are read as such; where the replacement characters fall is left
/// unsaid.
#[verifier::external_body]
pub(crate) fn read_lossy(bytes: &[u8]) -> (text: String)
    ensures
        text@ == lossy_text(bytes@),
        valid_utf8(bytes@) ==> text@ == decode_utf8(bytes@),
{
    String::from_utf8_lossy(bytes).into_owned()
}

/// Reads bytes with `std::str::from_utf8`, which takes exactly the bytes that
/// are UTF-8 and keeps what they stand for.
#[verifier::external_body]
pub(crate) fn read_utf8(bytes: &[u8]) -> (text: Option<String>)
    ensures
        match text {
            Some(text) => valid_utf8(bytes@) && text@ == decode_utf8(bytes@),
            None => !valid_utf8(bytes@),
        },
{
    std::str::from_utf8(bytes).ok().map(|text| text.to_owned())
}

/// The character has the Unicode property `White_Space`.
pub open spec fn white_space(c: char) -> bool {
    let code = c as u32;
    ||| 0x9 <= code <= 0xd
    ||| code == 0x20
    ||| code == 0x85
    ||| code == 0xa0
    ||| code == 0x1680
    ||| 0x2000 <= code <= 0x200a
    ||| code == 0x2028
    ||| code == 0x2029
    ||| code == 0x202f
    ||| code == 0x205f
    ||| code == 0x3000
}

pub fn is_white_space(c: char) -> (is: bool)
    ensures
        is == white_space(c),
{
    let code: u32 = c as u32;
    (0x9 <= code && code <= 0xd) || code == 0x20 || code == 0x85 || code == 0xa0 || code == 0x1680
        || (0x2000 <= code && code <= 0x200a) || code == 0x2028 || code == 0x2029 || code == 0x202f
        || code == 0x205f || code == 0x3000
}

/// The text without the white space that it starts with.
pub open spec fn without_leading_space(text: Seq<char>) -> Seq<char>
    decreases text.len(),
{
    if text.len() > 0 && white_space(text[0]) {
        without_leading_space(text.drop_first())
    } else {
        text
    }
}

/// The text without the white space that it ends in.
pub open spec fn without_trailing_space(text: Seq<char>) -> Seq<char>
    decreases text.len(),
{
    if text.len() > 0 && white_space(text.last()) {
        without_trailing_space(text.drop_last())
    } else {
        text
    }
}

/// The text without white space on either side.
pub open spec fn trimmed(text: Seq<char>) -> Seq<char> {
    without_trailing_space(without_leading_space(text))
}

/// A text that neither starts nor ends in white space stays as it is.
pub proof fn lemma_trimmed_already(text: Seq<char>)
    requires
        text.len() > 0 ==> !white_space(text[0]) && !white_space(text.last()),
    ensures
        trimmed(text) == text,
{
}

/// Takes the white space off both sides of a text.
pub fn trim(text: &str) -> (kept: String)
    ensures
        kept@ == trimmed(text@),
{
    let chars: Vec<char> = chars_of(text);
    let mut start: usize = 0;
    assert(chars@.skip(0) =~= text@);
    while start < chars.len() && is_white_space(chars[start])
        invariant
            start <= chars@.len(),
            without_leading_space(text@) == without_leading_space(chars@.skip(start as int)),
        decreases chars@.len() - start,
    {
        assert(chars@.skip(start as int).drop_first() =~= chars@.skip(start + 1));
        start = start + 1;
    }
    let mut end: usize = chars.len();
    assert(chars@.subrange(start as int, end as int) =~= chars@.skip(start as int));
    while end > start && is_white_space(chars[end - 1])
        invariant
            start <= end <= chars@.len(),
            trimmed(text@) == without_trailing_space(chars@.subrange(start as int, end as int)),
        decreases end,
    {
        assert(chars@.subrange(start as int, end as int).drop_last() =~= chars@.subrange(
            start as int,
            end - 1,
        ));
        end = end - 1;
    }
    text_of(slice_subrange(chars.as_slice(), start, end))
}

/// The text without the characters `c` that it starts with.
pub open spec fn without_leading(text: Seq<char>, c: char) -> Seq<char>
    decreases text.len(),
{
    if text.len() > 0 && text[0] == c {
        without_leading(text.drop_first(), c)
    } else {
        text
    }
}

/// The text without the characters `c` that it ends in.
pub open spec fn without_trailing(text: Seq<char>, c: char) -> Seq<char>
    decreases text.len(),
{
    if text.len() > 0 && text.last() == c {
        without_trailing(text.drop_last(), c)
    } else {
        text
    }
}

/// Takes the characters `c` off the start of a text.
pub fn drop_leading(text: &str, c: char) -> (kept: String)
    ensures
        kept@ == without_leading(text@, c),
{
    let chars: Vec<char> = chars_of(text);
    let mut start: usize = 0;
    assert(chars@.skip(0) =~= text@);
    while start < chars.len() && chars[start] == c
        invariant
            start <= chars@.len(),
            without_leading(text@, c) == without_leading(chars@.skip(start as int), c),
        decreases chars@.len() - start,
    {
        assert(chars@.skip(start as int).drop_first() =~= chars@.skip(start + 1));
        start = start + 1;
    }
    let kept: &[char] = slice_subrange(chars.as_slice(), start, chars.len());
    assert(kept@ =~= chars@.skip(start as int));
    text_of(kept)
}

/// Takes the characters `c` off the end of a text.
pub fn drop_trailing(text: &str, c: char) -> (kept: String)
    ensures
        kept@ == without_trailing(text@, c),
{
    let chars: Vec<char> = chars_of(text);
    let mut end: usize = chars.len();
    assert(chars@.take(end as int) =~= text@);
    while end > 0 && chars[end - 1] == c
        invariant
            end <= chars@.len(),
            without_trailing(text@, c) == without_trailing(chars@.take(end as int), c),
        decreases end,
    {
        assert(chars@.take(end as int).drop_last() =~= chars@.take(end - 1));
        end = end - 1;
    }
    let kept: &[char] = slice_subrange(chars.as_slice(), 0, end);
    assert(kept@ =~= chars@.take(end as int));
    text_of(kept)
}

/// A control character: the general category `Cc` of Unicode.
pub open spec fn is_control_char(c: char) -> bool {
    (c as u32) < 0x20 || 0x7f <= c as u32 <= 0x9f
}

/// The text without control characters.
pub open spec fn without_controls(text: Seq<char>) -> Seq<char>
    decreases text.len(),
{
    if text.len() == 0 {
        text
    } else if is_control_char(text.last()) {
        without_controls(text.drop_last())
    } else {
        without_controls(text.drop_last()).push(text.last())
    }
}

/// Takes the control characters out of a text.
pub fn drop_controls(text: &str) -> (kept: String)
    ensures
        kept@ == without_controls(text@),
{
    let chars: Vec<char> = chars_of(text);
    let mut kept = String::new();
    let mut i: usize = 0;
    assert(chars@.take(0) =~= Seq::empty());
    while i < chars.len()
        invariant
            i <= chars@.len(),
            kept@ == without_controls(chars@.take(i as int)),
        decreases chars@.len() - i,
    {
        assert(chars@.take(i + 1).drop_last() =~= chars@.take(i as int));
        let code: u32 = chars[i] as u32;
        if !(code < 0x20 || (0x7f <= code && code <= 0x9f)) {
            kept.push(chars[i]);
        }
        i = i + 1;
    }
    assert(chars@.take(i as int) =~= text@);
    kept
}

/// `needle` stands somewhere in `haystack` without a gap.
pub open spec fn has_run<T>(haystack: Seq<T>, needle: Seq<T>) -> bool {
    exists|at: int|
        0 <= at && at + needle.len() <= haystack.len() && #[trigger] haystack.subrange(
            at,
            at + needle.len(),
        ) == needle
}

/// Whether two byte strings are equal.
pub fn same_bytes(a: &[u8], b: &[u8]) -> (same: bool)
    ensures
        same == (a@ == b@),
{
    if a.len() != b.len() {
        return false;
    }
    let mut i: usize = 0;
    while i < a.len()
        invariant
            i <= a@.len(),
            a@.len() == b@.len(),
            forall|k: int| 0 <= k < i ==> a@[k] == b@[k],
        decreases a@.len() - i,
    {
        if a[i] != b[i] {
            return false;
        }
        i = i + 1;
    }
    assert(a@ =~= b@);
    true
}

/// Whether two texts hold the same characters.
pub fn same_text(a: &str, b: &str) -> (same: bool)
    ensures
        same == (a@ == b@),
{
    let same = same_bytes(a.as_bytes(), b.as_bytes());
    proof {
        encode_utf8_decode_utf8(a@);
        encode_utf8_decode_utf8(b@);
    }
    same
}

/// Whether `needle` stands in `haystack`; the empty needle stands anywhere.
pub fn contains_bytes(haystack: &[u8], needle: &[u8]) -> (found: bool)
    ensures
        found == has_run(haystack@, needle@),
{
    if needle.len() > haystack.len() {
        return false;
    }
    let last: usize = haystack.len() - needle.len();
    let mut at: usize = 0;
    while at <= last
        invariant
            at <= last + 1,
            last == haystack@.len() - needle@.len(),
            forall|k: int|
                0 <= k < at ==> #[trigger] haystack@.subrange(k, k + needle@.len()) != needle@,
        decreases last + 1 - at,
    {
        let mut i: usize = 0;
        while i < needle.len() && haystack[at + i] == needle[i]
            invariant
                i <= needle@.len(),
                at + needle@.len() <= haystack@.len() == haystack.len(),
                forall|k: int| 0 <= k < i ==> haystack@[at + k] == needle@[k],
            decreases needle@.len() - i,
        {
            i = i + 1;
        }
        let ghost window = haystack@.subrange(at as int, at + needle@.len());
        if i == needle.len() {
            assert(window =~= needle@);
            return true;
        }
        assert(window[i as int] != needle@[i as int]);
        if at == last {
            return false;
        }
        at = at + 1;
    }
    false
}

/// The characters of a text.
pub fn chars_of(text: &str) -> (chars: Vec<char>)
    ensures
        chars@ == text@,
{
    let mut chars: Vec<char> = Vec::new();
    for c in iter: text.chars()
        invariant
            chars@ == text@.take(iter.index() as int),
            iter.seq() == text@,
    {
        chars.push(c);
        assert(chars@ =~= text@.take(iter.index() + 1));
    }
    assert(chars@ =~= text@);
    chars
}

/// The text of some characters.
pub fn text_of(chars: &[char]) -> (text: String)
    ensures
        text@ == chars@,
{
    let mut text = String::new();
    let mut i: usize = 0;
    while i < chars.len()
        invariant
            i <= chars@.len(),
            text@ == chars@.take(i as int),
        decreases chars@.len() - i,
    {
        text.push(chars[i]);
        i = i + 1;
        assert(chars@.take(i as int) =~= chars@.take(i - 1).push(chars@[i - 1]));
    }
    assert(chars@.take(i as int) =~= chars@);
    text
}

/// The text without as many leading characters as it takes to bring its
/// UTF-8 form within `max` bytes.
pub open spec fn tail_within(text: Seq<char>, max: int) -> Seq<char>
    decreases text.len(),
{
    if text.len() == 0 || encode_utf8(text).len() <= max {
        text
    } else {
        tail_within(text.drop_first(), max)
    }
}

proof fn lemma_tail_at_boundary(text: Seq<char>, max: int, index: int)
    requires
        0 <= max,
        0 <= index <= encode_utf8(text).len(),
        index >= encode_utf8(text).len() - max,
        is_char_boundary(encode_utf8(text), index),
        forall|j: int|
            0 <= j && encode_utf8(text).len() - max <= j < index ==> !#[trigger] is_char_boundary(
                encode_utf8(text),
                j,
            ),
    ensures
        decode_utf8(encode_utf8(text).subrange(index, encode_utf8(text).len() as int))
            == tail_within(text, max),
    decreases text.len(),
{
    let bytes = encode_utf8(text);
    encode_utf8_valid_utf8(text);
    encode_utf8_decode_utf8(text);
    if bytes.len() <= max || text.len() == 0 {
        assert(is_char_boundary(bytes, 0));
        assert(index == 0);
        assert(bytes.subrange(0, bytes.len() as int) =~= bytes);
    } else {
        let rest = text.drop_first();
        let tail = encode_utf8(rest);
        let width = length_of_first_scalar(bytes);
        encode_utf8_first_scalar(text);
        encode_utf8_valid_utf8(rest);
        assert(pop_first_scalar(bytes) =~= tail);
        reveal_with_fuel(is_char_boundary, 2);
        assert(index >= width);
        assert forall|j: int|
            0 <= j && tail.len() - max <= j < index - width implies !#[trigger] is_char_boundary(
            tail,
            j,
        ) by {
            assert(!is_char_boundary(bytes, j + width));
        }
        lemma_tail_at_boundary(rest, max, index - width);
        assert(tail.subrange(index - width, tail.len() as int) =~= bytes.subrange(
            index,
            bytes.len() as int,
        ));
    }
}

/// The tail of a text takes at most `max` bytes.
pub proof fn lemma_tail_fits(text: Seq<char>, max: int)
    requires
        0 <= max,
    ensures
        encode_utf8(tail_within(text, max)).len() <= max,
    decreases text.len(),
{
    if text.len() > 0 && encode_utf8(text).len() > max {
        lemma_tail_fits(text.drop_first(), max);
    }
}

/// Drops leading characters until the text takes at most `max` bytes.
pub fn keep_tail(text: &mut String, max: usize)
    ensures
        final(text)@ == tail_within(old(text)@, max as int),
{
    let whole = text.as_str();
    let length: usize = whole.as_bytes().len();
    if length <= max {
        return;
    }
    let mut remove: usize = length - max;
    let ghost bytes = encode_utf8(whole@);
    proof {
        encode_utf8_valid_utf8(whole@);
    }
    while remove < length && !whole.is_char_boundary(remove)
        invariant
            bytes == encode_utf8(whole@),
            length == bytes.len(),
            length - max <= remove <= length,
            max < length,
            forall|j: int|
                0 <= j && length - max <= j < remove ==> !#[trigger] is_char_boundary(bytes, j),
        decreases length - remove,
    {
        remove = remove + 1;
    }
    proof {
        is_char_boundary_start_end_of_seq(bytes);
        lemma_tail_at_boundary(whole@, max as int, remove as int);
    }
    let (_, kept) = whole.split_at(remove);
    proof {
        encode_utf8_decode_utf8(kept@);
    }
    let kept: String = kept.to_owned();
    *text = kept;
}

/// The texts of some strings.
pub open spec fn texts(strings: Seq<String>) -> Seq<Seq<char>> {
    strings.map_values(|string: String| string@)
}

/// Copies some strings.
pub fn copy_texts(strings: &Vec<String>) -> (copy: Vec<String>)
    ensures
        texts(copy@) == texts(strings@),
{
    let mut copy: Vec<String> = Vec::new();
    let mut i: usize = 0;
    while i < strings.len()
        invariant
            i <= strings@.len(),
            copy@.len() == i,
            forall|k: int| 0 <= k < i ==> (#[trigger] copy@[k])@ == strings@[k]@,
        decreases strings@.len() - i,
    {
        copy.push(strings[i].as_str().to_owned());
        i = i + 1;
    }
    assert(texts(copy@) =~= texts(strings@));
    copy
}

/// Whether two lists hold the same texts.
pub fn same_texts(a: &Vec<String>, b: &Vec<String>) -> (same: bool)
    ensures
        same == (texts(a@) == texts(b@)),
{
    if a.len() != b.len() {
        assert(texts(a@).len() != texts(b@).len());
        return false;
    }
    let mut i: usize = 0;
    while i < a.len()
        invariant
            i <= a@.len(),
            a@.len() == b@.len(),
            forall|k: int| 0 <= k < i ==> (#[trigger] a@[k])@ == b@[k]@,
        decreases a@.len() - i,
    {
        if !same_text(a[i].as_str(), b[i].as_str()) {
            assert(texts(a@)[i as int] != texts(b@)[i as int]);
            return false;
        }
        i = i + 1;
    }
    assert(texts(a@) =~= texts(b@));
    true
}

/// Taking characters off the end of a text leaves the front of it: what is
/// gone is that character only, and what is left does not end in it.
pub proof fn only_trailing_characters_go(text: Seq<char>, c: char)
    ensures
        ({
            let kept = without_trailing(text, c);
            &&& kept.len() <= text.len()
            &&& kept == text.take(kept.len() as int)
            &&& forall|i: int| kept.len() <= i < text.len() ==> #[trigger] text[i] == c
            &&& kept.len() > 0 ==> kept.last() != c
        }),
    decreases text.len(),
{
    let kept = without_trailing(text, c);
    if text.len() > 0 && text.last() == c {
        only_trailing_characters_go(text.drop_last(), c);
        assert(text.drop_last().take(kept.len() as int) =~= text.take(kept.len() as int));
        assert forall|i: int| kept.len() <= i < text.len() implies #[trigger] text[i] == c by {
            if i < text.len() - 1 {
                assert(text.drop_last()[i] == c);
            }
        }
    } else {
        assert(text.take(text.len() as int) =~= text);
    }
}

/// Taking characters off the start of a text leaves the rest of it: what is
/// gone is that character only, and what is left does not start with it.
pub proof fn only_leading_characters_go(text: Seq<char>, c: char)
    ensures
        ({
            let kept = without_leading(text, c);
            let gone = text.len() - kept.len();
            &&& 0 <= gone
            &&& kept == text.skip(gone)
            &&& forall|i: int| 0 <= i < gone ==> #[trigger] text[i] == c
            &&& kept.len() > 0 ==> kept[0] != c
        }),
    decreases text.len(),
{
    let kept = without_leading(text, c);
    let gone = text.len() - kept.len();
    if text.len() > 0 && text[0] == c {
        only_leading_characters_go(text.drop_first(), c);
        assert(text.drop_first().skip(gone - 1) =~= text.skip(gone));
        assert forall|i: int| 0 <= i < gone implies #[trigger] text[i] == c by {
            if i > 0 {
                assert(text.drop_first()[i - 1] == c);
            }
        }
    } else {
        assert(text.skip(0) =~= text);
    }
}

proof fn lemma_leading_space(text: Seq<char>)
    ensures
        ({
            let kept = without_leading_space(text);
            let gone = text.len() - kept.len();
            &&& 0 <= gone
            &&& kept == text.skip(gone)
            &&& forall|i: int| 0 <= i < gone ==> white_space(#[trigger] text[i])
            &&& kept.len() > 0 ==> !white_space(kept[0])
        }),
    decreases text.len(),
{
    let kept = without_leading_space(text);
    let gone = text.len() - kept.len();
    if text.len() > 0 && white_space(text[0]) {
        lemma_leading_space(text.drop_first());
        assert(text.drop_first().skip(gone - 1) =~= text.skip(gone));
        assert forall|i: int| 0 <= i < gone implies white_space(#[trigger] text[i]) by {
            if i > 0 {
                assert(white_space(text.drop_first()[i - 1]));
            }
        }
    } else {
        assert(text.skip(0) =~= text);
    }
}

proof fn lemma_trailing_space(text: Seq<char>)
    ensures
        ({
            let kept = without_trailing_space(text);
            &&& kept.len() <= text.len()
            &&& kept == text.take(kept.len() as int)
            &&& forall|i: int| kept.len() <= i < text.len() ==> white_space(#[trigger] text[i])
            &&& kept.len() > 0 ==> !white_space(kept.last())
        }),
    decreases text.len(),
{
    let kept = without_trailing_space(text);
    if text.len() > 0 && white_space(text.last()) {
        lemma_trailing_space(text.drop_last());
        assert(text.drop_last().take(kept.len() as int) =~= text.take(kept.len() as int));
        assert forall|i: int| kept.len() <= i < text.len() implies white_space(
            #[trigger] text[i],
        ) by {
            if i < text.len() - 1 {
                assert(white_space(text.drop_last()[i]));
            }
        }
    } else {
        assert(text.take(text.len() as int) =~= text);
    }
}

/// A trimmed text is the part of the text between the white space on either
/// side: only white space is gone, and none is left at either end. Spaces, tabs
/// and line ends are white space, visible ASCII characters are not.
pub proof fn only_white_space_is_trimmed(text: Seq<char>) -> (bounds: (int, int))
    ensures
        0 <= bounds.0 <= bounds.1 <= text.len(),
        trimmed(text) == text.subrange(bounds.0, bounds.1),
        forall|i: int| 0 <= i < bounds.0 ==> white_space(#[trigger] text[i]),
        forall|i: int| bounds.1 <= i < text.len() ==> white_space(#[trigger] text[i]),
        trimmed(text).len() > 0 ==> !white_space(trimmed(text)[0]) && !white_space(
            trimmed(text).last(),
        ),
        forall|c: char| 9 <= c as int <= 13 || c as int == 32 ==> #[trigger] white_space(c),
        forall|c: char| 33 <= c as int <= 126 ==> !#[trigger] white_space(c),
{
    let led = without_leading_space(text);
    lemma_leading_space(text);
    lemma_trailing_space(led);
    let start = text.len() - led.len();
    let end = start + trimmed(text).len();
    assert(trimmed(text) =~= text.subrange(start, end));
    assert forall|i: int| end <= i < text.len() implies white_space(#[trigger] text[i]) by {
        assert(white_space(led[i - start]));
    }
    (start, end)
}

/// Taking out control characters keeps every other one in its place in the
/// order, and control characters are those below the space and from delete up
/// to 0x9f.
pub proof fn only_control_characters_go(front: Seq<char>, c: char)
    ensures
        without_controls(Seq::<char>::empty()) == Seq::<char>::empty(),
        32 <= c as int <= 126 || c as int >= 160 ==> without_controls(front.push(c))
            == without_controls(front).push(c),
        (c as int) < 32 || 127 <= c as int <= 159 ==> without_controls(front.push(c))
            == without_controls(front),
{
    assert(front.push(c).drop_last() =~= front);
}

/// The tail of a text is the longest end of it that fits.
pub proof fn the_longest_tail_is_kept(text: Seq<char>, max: int, from: int)
    requires
        0 <= from <= text.len(),
        0 <= max,
    ensures
        ({
            let kept = tail_within(text, max);
            &&& kept.len() <= text.len()
            &&& kept == text.skip(text.len() - kept.len())
            &&& encode_utf8(kept).len() <= max
            &&& encode_utf8(text.skip(from)).len() <= max ==> kept.len() >= text.len() - from
        }),
    decreases text.len(),
{
    lemma_tail_fits(text, max);
    let kept = tail_within(text, max);
    assert(text.skip(0) =~= text);
    if text.len() > 0 && encode_utf8(text).len() > max {
        let rest = text.drop_first();
        if from > 0 {
            assert(rest.skip(from - 1) =~= text.skip(from));
            the_longest_tail_is_kept(rest, max, from - 1);
        } else {
            the_longest_tail_is_kept(rest, max, 0);
        }
        assert(rest.skip(rest.len() - kept.len()) =~= text.skip(text.len() - kept.len()));
    }
}

} // verus!
