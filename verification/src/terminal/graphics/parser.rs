//! Finding graphics escape sequences in a stream that arrives in pieces.
use vstd::prelude::*;
use vstd::slice::*;

verus! {

/// Bytes of an unfinished sequence that are kept waiting for its end.
pub const MAX_GRAPHICS_BUFFER_BYTES: usize = 64 * 1024 * 1024;

/// One complete graphics sequence, without its introducer and terminator.
#[derive(Debug)]
pub enum GraphicsEvent {
    Kitty(Vec<u8>),
    Iterm(Vec<u8>),
    Sixel(Vec<u8>),
}

#[derive(Debug, Clone, Copy, PartialEq, Eq, Structural)]
pub enum GraphicsKind {
    Kitty,
    Iterm,
    Sixel,
}

/// A sequence by its protocol and payload.
#[verifier::ext_equal]
pub struct GraphicsSequence {
    pub kind: GraphicsKind,
    pub payload: Seq<u8>,
}

impl View for GraphicsEvent {
    type V = GraphicsSequence;

    open spec fn view(&self) -> GraphicsSequence {
        match self {
            GraphicsEvent::Kitty(payload) => GraphicsSequence {
                kind: GraphicsKind::Kitty,
                payload: payload@,
            },
            GraphicsEvent::Iterm(payload) => GraphicsSequence {
                kind: GraphicsKind::Iterm,
                payload: payload@,
            },
            GraphicsEvent::Sixel(payload) => GraphicsSequence {
                kind: GraphicsKind::Sixel,
                payload: payload@,
            },
        }
    }
}

/// The byte at `at`, where the sequence reaches that far.
pub open spec fn byte_at(bytes: Seq<u8>, at: int) -> Option<u8> {
    if 0 <= at < bytes.len() {
        Some(bytes[at])
    } else {
        None
    }
}

/// The byte continues a UTF-8 scalar, where one stands before it.
pub open spec fn is_continuation(byte: u8) -> bool {
    0x80 <= byte <= 0xbf
}

/// How many continuation bytes a lead byte announces.
pub open spec fn announced_continuations(lead: u8) -> int {
    if 0xc2 <= lead <= 0xdf {
        1
    } else if 0xe0 <= lead <= 0xef {
        2
    } else if 0xf0 <= lead <= 0xf4 {
        3
    } else {
        0
    }
}

/// The byte `distance` before `index` leads a scalar that reaches `index`:
/// only continuation bytes stand between the two, and no more than it
/// announces.
pub open spec fn leads_to(bytes: Seq<u8>, index: int, distance: int) -> bool {
    &&& distance <= index
    &&& distance <= announced_continuations(bytes[index - distance])
    &&& forall|i: int| index - distance < i < index ==> is_continuation(#[trigger] bytes[i])
}

/// The byte at `index` is a continuation byte of a scalar, so it is no
/// control.
pub open spec fn continues_a_scalar(bytes: Seq<u8>, index: int) -> bool {
    is_continuation(bytes[index]) && (leads_to(bytes, index, 1) || leads_to(bytes, index, 2)
        || leads_to(bytes, index, 3))
}

pub fn is_utf8_continuation(bytes: &[u8], index: usize) -> (continuation: bool)
    requires
        index < bytes@.len(),
    ensures
        continuation == continues_a_scalar(bytes@, index as int),
{
    if !(0x80 <= bytes[index] && bytes[index] <= 0xbf) {
        return false;
    }
    let mut lead: usize = index;
    let mut preceding_continuations: usize = 0;
    while lead > 0 && preceding_continuations < 3 && 0x80 <= bytes[lead - 1] && bytes[lead - 1]
        <= 0xbf
        invariant
            lead == index - preceding_continuations,
            index < bytes@.len(),
            preceding_continuations <= 3,
            forall|i: int| lead <= i < index ==> is_continuation(#[trigger] bytes@[i]),
        decreases lead,
    {
        lead = lead - 1;
        preceding_continuations = preceding_continuations + 1;
    }
    let ghost before = preceding_continuations as int;
    proof {
        // A lead is no continuation byte, and none announces more than three.
        assert(before >= 1 ==> is_continuation(bytes@[index - 1]));
        assert(before >= 2 ==> is_continuation(bytes@[index - 2]));
        assert(before >= 3 ==> is_continuation(bytes@[index - 3]));
        if before < 3 && lead > 0 {
            assert(!is_continuation(bytes@[lead - 1]));
            assert(leads_to(bytes@, index as int, 3) ==> before == 2) by {
                if leads_to(bytes@, index as int, 3) && before < 2 {
                    assert(is_continuation(bytes@[lead - 1]));
                }
            }
            assert(leads_to(bytes@, index as int, 2) ==> before == 1) by {
                if leads_to(bytes@, index as int, 2) && before < 1 {
                    assert(is_continuation(bytes@[lead - 1]));
                }
            }
        }
    }
    if lead == 0 || preceding_continuations == 3 {
        return false;
    }
    let first: u8 = bytes[lead - 1];
    let required_continuations: usize = if 0xc2 <= first && first <= 0xdf {
        1
    } else if 0xe0 <= first && first <= 0xef {
        2
    } else if 0xf0 <= first && first <= 0xf4 {
        3
    } else {
        0
    };
    assert(leads_to(bytes@, index as int, before + 1) == (before < required_continuations));
    preceding_continuations < required_continuations
}

/// The protocol that a sequence starting at `index` would belong to.
pub open spec fn introducer_at(bytes: Seq<u8>, index: int) -> Option<GraphicsKind> {
    let next = byte_at(bytes, index + 1);
    if bytes[index] == 0x1b {
        if next == Some('_' as u8) && byte_at(bytes, index + 2) == Some('G' as u8) {
            Some(GraphicsKind::Kitty)
        } else if next == Some(']' as u8) {
            Some(GraphicsKind::Iterm)
        } else if next == Some('P' as u8) {
            Some(GraphicsKind::Sixel)
        } else {
            None
        }
    } else if continues_a_scalar(bytes, index) {
        None
    } else if bytes[index] == 0x9f && next == Some('G' as u8) {
        Some(GraphicsKind::Kitty)
    } else if bytes[index] == 0x9d {
        Some(GraphicsKind::Iterm)
    } else if bytes[index] == 0x90 {
        Some(GraphicsKind::Sixel)
    } else {
        None
    }
}

/// `index` is where the first graphics sequence of `bytes` starts.
pub open spec fn is_first_introducer(bytes: Seq<u8>, index: int) -> bool {
    &&& 0 <= index < bytes.len()
    &&& introducer_at(bytes, index) is Some
    &&& forall|i: int| 0 <= i < index ==> introducer_at(bytes, i) is None
}

pub open spec fn has_introducer(bytes: Seq<u8>) -> bool {
    exists|i: int| 0 <= i < bytes.len() && introducer_at(bytes, i) is Some
}

/// Where the first graphics sequence of `bytes` starts, if there is one.
pub open spec fn first_introducer(bytes: Seq<u8>) -> int {
    choose|index: int| is_first_introducer(bytes, index)
}

fn find_graphics_start(bytes: &[u8]) -> (start: Option<(usize, GraphicsKind)>)
    ensures
        match start {
            Some((index, kind)) => is_first_introducer(bytes@, index as int) && introducer_at(
                bytes@,
                index as int,
            ) == Some(kind),
            None => !has_introducer(bytes@),
        },
{
    let mut index: usize = 0;
    while index < bytes.len()
        invariant
            index <= bytes@.len(),
            forall|i: int| 0 <= i < index ==> introducer_at(bytes@, i) is None,
        decreases bytes@.len() - index,
    {
        let byte: u8 = bytes[index];
        let next: Option<u8> = if index + 1 < bytes.len() {
            Some(bytes[index + 1])
        } else {
            None
        };
        if byte != 0x1b {
            if !is_utf8_continuation(bytes, index) {
                if byte == 0x9f && next == Some('G' as u8) {
                    return Some((index, GraphicsKind::Kitty));
                }
                if byte == 0x9d {
                    return Some((index, GraphicsKind::Iterm));
                }
                if byte == 0x90 {
                    return Some((index, GraphicsKind::Sixel));
                }
            }
        } else {
            if next == Some('_' as u8) && index + 2 < bytes.len() && bytes[index + 2]
                == 'G' as u8 {
                return Some((index, GraphicsKind::Kitty));
            }
            if next == Some(']' as u8) {
                return Some((index, GraphicsKind::Iterm));
            }
            if next == Some('P' as u8) {
                return Some((index, GraphicsKind::Sixel));
            }
        }
        index = index + 1;
    }
    None
}

/// The length of the terminator at `index`, 0 where none stands there.
pub open spec fn terminator_at(bytes: Seq<u8>, index: int, allow_bel: bool) -> int {
    if allow_bel && bytes[index] == 0x07 {
        1
    } else if bytes[index] == 0x1b && byte_at(bytes, index + 1) == Some('\\' as u8) {
        2
    } else if bytes[index] == 0x9c {
        1
    } else {
        0
    }
}

pub open spec fn is_first_terminator(bytes: Seq<u8>, index: int, allow_bel: bool) -> bool {
    &&& 0 <= index < bytes.len()
    &&& terminator_at(bytes, index, allow_bel) > 0
    &&& forall|i: int| 0 <= i < index ==> terminator_at(bytes, i, allow_bel) == 0
}

pub open spec fn has_terminator(bytes: Seq<u8>, allow_bel: bool) -> bool {
    exists|i: int| 0 <= i < bytes.len() && terminator_at(bytes, i, allow_bel) > 0
}

pub open spec fn first_terminator(bytes: Seq<u8>, allow_bel: bool) -> int {
    choose|index: int| is_first_terminator(bytes, index, allow_bel)
}

fn find_graphics_terminator(bytes: &[u8], from: usize, allow_bel: bool) -> (end: Option<
    (usize, usize),
>)
    requires
        from <= bytes@.len(),
    ensures
        match end {
            Some((index, length)) => is_first_terminator(bytes@.skip(from as int), index as int, allow_bel)
                && length == terminator_at(bytes@.skip(from as int), index as int, allow_bel)
                && from + index + length <= bytes@.len(),
            None => !has_terminator(bytes@.skip(from as int), allow_bel),
        },
{
    let ghost tail = bytes@.skip(from as int);
    let mut index: usize = from;
    while index < bytes.len()
        invariant
            from <= index <= bytes@.len(),
            tail == bytes@.skip(from as int),
            forall|i: int| 0 <= i < index - from ==> terminator_at(tail, i, allow_bel) == 0,
        decreases bytes@.len() - index,
    {
        let byte: u8 = bytes[index];
        assert(tail[index - from] == byte);
        if allow_bel && byte == 0x07 {
            return Some((index - from, 1));
        }
        if byte == 0x1b && index + 1 < bytes.len() && bytes[index + 1] == '\\' as u8 {
            assert(tail[index - from + 1] == bytes@[index + 1]);
            return Some((index - from, 2));
        }
        if byte == 0x9c {
            return Some((index - from, 1));
        }
        index = index + 1;
    }
    None
}

/// The length of the introducer that `bytes` start with.
pub open spec fn introducer_length(bytes: Seq<u8>, kind: GraphicsKind) -> int {
    match kind {
        GraphicsKind::Kitty => if bytes[0] == 0x9f {
            2
        } else {
            3
        },
        GraphicsKind::Iterm => if bytes[0] == 0x9d {
            1
        } else {
            2
        },
        GraphicsKind::Sixel => if bytes[0] == 0x90 {
            1
        } else {
            2
        },
    }
}

/// What stands from `index` on may become something with more bytes: the
/// start of an introducer, or a scalar that is cut off.
pub open spec fn waits_from(bytes: Seq<u8>, index: int) -> bool {
    let byte = bytes[index];
    let left = bytes.len() - index;
    ||| byte == 0x1b && (left == 1 || left == 2 && bytes[index + 1] == '_' as u8)
    ||| byte == 0x9f && left == 1 && !continues_a_scalar(bytes, index)
    ||| left <= announced_continuations(byte) && forall|i: int|
        index < i < bytes.len() ==> is_continuation(#[trigger] bytes[i])
}

/// Where that part of a stream without a sequence starts which waits for
/// more: at most its last three bytes do.
pub open spec fn waiting_start(bytes: Seq<u8>) -> int {
    let length = bytes.len() as int;
    if length >= 3 && waits_from(bytes, length - 3) {
        length - 3
    } else if length >= 2 && waits_from(bytes, length - 2) {
        length - 2
    } else if length >= 1 && waits_from(bytes, length - 1) {
        length - 1
    } else {
        length
    }
}

/// The last bytes of a stream without a sequence that wait for more.
pub open spec fn retained_tail(bytes: Seq<u8>) -> Seq<u8> {
    bytes.skip(waiting_start(bytes))
}

fn may_become_more(bytes: &[u8], index: usize) -> (waits: bool)
    requires
        index < bytes@.len(),
    ensures
        waits == waits_from(bytes@, index as int),
{
    let byte: u8 = bytes[index];
    let left: usize = bytes.len() - index;
    if byte == 0x1b {
        return left == 1 || (left == 2 && bytes[index + 1] == '_' as u8);
    }
    if byte == 0x9f {
        return left == 1 && !is_utf8_continuation(bytes, index);
    }
    let announced: usize = if 0xc2 <= byte && byte <= 0xdf {
        1
    } else if 0xe0 <= byte && byte <= 0xef {
        2
    } else if 0xf0 <= byte && byte <= 0xf4 {
        3
    } else {
        0
    };
    if left > announced {
        return false;
    }
    let mut i: usize = index + 1;
    while i < bytes.len()
        invariant
            index < i <= bytes@.len(),
            byte == bytes@[index as int] && byte != 0x1b && byte != 0x9f,
            forall|k: int| index < k < i ==> is_continuation(#[trigger] bytes@[k]),
        decreases bytes@.len() - i,
    {
        if !(0x80 <= bytes[i] && bytes[i] <= 0xbf) {
            assert(!is_continuation(bytes@[i as int]));
            return false;
        }
        i = i + 1;
    }
    true
}

fn find_waiting_start(bytes: &[u8]) -> (start: usize)
    ensures
        start == waiting_start(bytes@),
        start <= bytes@.len(),
{
    let length: usize = bytes.len();
    if length >= 3 && may_become_more(bytes, length - 3) {
        length - 3
    } else if length >= 2 && may_become_more(bytes, length - 2) {
        length - 2
    } else if length >= 1 && may_become_more(bytes, length - 1) {
        length - 1
    } else {
        length
    }
}

/// What a scan of buffered bytes gives.
#[verifier::ext_equal]
pub struct Scan {
    /// The complete sequences, in order.
    pub sequences: Seq<GraphicsSequence>,
    /// The bytes that wait for more.
    pub rest: Seq<u8>,
}

/// The complete sequences at the front of `bytes` and what waits for more:
/// the unfinished sequence, unless it has grown too long, or the tail of what
/// holds none.
pub open spec fn scanned(bytes: Seq<u8>) -> Scan
    decreases bytes.len(),
{
    if !has_introducer(bytes) {
        Scan { sequences: Seq::empty(), rest: retained_tail(bytes) }
    } else {
        let start = first_introducer(bytes);
        let kind = introducer_at(bytes, start)->0;
        let body = bytes.skip(start);
        let header = introducer_length(body, kind);
        let tail = body.skip(header);
        let allow_bel = kind is Iterm;
        if !has_terminator(tail, allow_bel) {
            Scan {
                sequences: Seq::empty(),
                rest: if body.len() > MAX_GRAPHICS_BUFFER_BYTES {
                    Seq::empty()
                } else {
                    body
                },
            }
        } else {
            let end = first_terminator(tail, allow_bel);
            let sequence = GraphicsSequence { kind, payload: tail.take(end) };
            let after = tail.skip(end + terminator_at(tail, end, allow_bel));
            if after.len() < bytes.len() {
                let more = scanned(after);
                Scan { sequences: seq![sequence] + more.sequences, rest: more.rest }
            } else {
                Scan { sequences: Seq::empty(), rest: Seq::empty() }
            }
        }
    }
}

proof fn lemma_first_introducer(bytes: Seq<u8>, index: int)
    requires
        is_first_introducer(bytes, index),
    ensures
        has_introducer(bytes),
        first_introducer(bytes) == index,
{
    let other = first_introducer(bytes);
    assert(is_first_introducer(bytes, other));
    if other < index {
        assert(introducer_at(bytes, other) is None);
    } else if index < other {
        assert(introducer_at(bytes, index) is None);
    }
}

proof fn lemma_first_terminator(bytes: Seq<u8>, index: int, allow_bel: bool)
    requires
        is_first_terminator(bytes, index, allow_bel),
    ensures
        has_terminator(bytes, allow_bel),
        first_terminator(bytes, allow_bel) == index,
{
    let other = first_terminator(bytes, allow_bel);
    assert(is_first_terminator(bytes, other, allow_bel));
    if other < index {
        assert(terminator_at(bytes, other, allow_bel) == 0);
    } else if index < other {
        assert(terminator_at(bytes, index, allow_bel) == 0);
    }
}

proof fn lemma_has_first_introducer(bytes: Seq<u8>, bound: int) -> (index: int)
    requires
        0 <= bound < bytes.len(),
        introducer_at(bytes, bound) is Some,
    ensures
        is_first_introducer(bytes, index),
        index <= bound,
    decreases bound,
{
    if exists|i: int| 0 <= i < bound && introducer_at(bytes, i) is Some {
        let earlier = choose|i: int| 0 <= i < bound && introducer_at(bytes, i) is Some;
        lemma_has_first_introducer(bytes, earlier)
    } else {
        bound
    }
}

proof fn lemma_has_first_terminator(bytes: Seq<u8>, bound: int, allow_bel: bool) -> (index: int)
    requires
        0 <= bound < bytes.len(),
        terminator_at(bytes, bound, allow_bel) > 0,
    ensures
        is_first_terminator(bytes, index, allow_bel),
        index <= bound,
    decreases bound,
{
    if exists|i: int| 0 <= i < bound && terminator_at(bytes, i, allow_bel) > 0 {
        let earlier = choose|i: int| 0 <= i < bound && terminator_at(bytes, i, allow_bel) > 0;
        lemma_has_first_terminator(bytes, earlier, allow_bel)
    } else {
        bound
    }
}

/// What follows a byte does not decide on whether it continues a scalar.
proof fn lemma_context_is_before(front: Seq<u8>, bytes: Seq<u8>, index: int)
    requires
        0 <= index < front.len(),
    ensures
        continues_a_scalar(front + bytes, index) == continues_a_scalar(front, index),
{
    let whole = front + bytes;
    assert forall|distance: int| 1 <= distance <= 3 implies leads_to(whole, index, distance)
        == #[trigger] leads_to(front, index, distance) by {
        if distance <= index {
            assert(whole[index - distance] == front[index - distance]);
            assert forall|i: int| index - distance < i < index implies whole[i] == front[i] by {}
            if leads_to(whole, index, distance) {
                assert forall|i: int| index - distance < i < index implies is_continuation(
                    #[trigger] front[i],
                ) by {
                    assert(is_continuation(whole[i]));
                }
            }
            if leads_to(front, index, distance) {
                assert forall|i: int| index - distance < i < index implies is_continuation(
                    #[trigger] whole[i],
                ) by {
                    assert(is_continuation(front[i]));
                }
            }
        }
    }
    assert(whole[index] == front[index]);
    assert(leads_to(whole, index, 1) == leads_to(front, index, 1));
    assert(leads_to(whole, index, 2) == leads_to(front, index, 2));
    assert(leads_to(whole, index, 3) == leads_to(front, index, 3));
}

/// No scalar reaches over the point from which a stream waits.
proof fn lemma_no_lead_before_the_tail(front: Seq<u8>, bytes: Seq<u8>, index: int, distance: int)
    requires
        waiting_start(front) <= index < front.len() + bytes.len(),
        1 <= distance <= 3,
        is_continuation((front + bytes)[index]),
        leads_to(front + bytes, index, distance),
    ensures
        index - distance >= waiting_start(front),
{
    let whole = front + bytes;
    let cut = waiting_start(front);
    let lead = index - distance;
    if lead < cut {
        assert(whole[lead] == front[lead]);
        if cut == front.len() {
            // The scalar was cut off: its lead waits.
            assert forall|i: int| lead < i < front.len() implies is_continuation(
                #[trigger] front[i],
            ) by {
                assert(is_continuation(whole[i]));
            }
            assert(waits_from(front, lead));
            lemma_waiting_start(front, lead);
        } else {
            assert(waits_from(front, cut));
            assert(whole[cut] == front[cut]);
            assert(is_continuation(whole[cut]));
            assert(front[cut] == 0x9f);
            let nearer = cut - lead;
            assert forall|i: int| lead < i < cut implies is_continuation(#[trigger] front[i]) by {
                assert(is_continuation(whole[i]));
            }
            assert(leads_to(front, cut, nearer));
            assert(continues_a_scalar(front, cut));
            assert(false);
        }
    }
}

/// The tail that waits holds all that decides on whether a byte continues a
/// scalar.
proof fn lemma_context_is_kept(front: Seq<u8>, bytes: Seq<u8>, index: int)
    requires
        waiting_start(front) <= index < front.len() + bytes.len(),
    ensures
        continues_a_scalar(front + bytes, index) == continues_a_scalar(
            retained_tail(front) + bytes,
            index - waiting_start(front),
        ),
{
    let whole = front + bytes;
    let cut = waiting_start(front);
    let short = retained_tail(front) + bytes;
    assert(short =~= whole.skip(cut));
    let at = index - cut;
    assert(short[at] == whole[index]);
    assert forall|distance: int| 1 <= distance <= 3 && is_continuation(whole[index]) implies leads_to(
        whole,
        index,
        distance,
    ) == #[trigger] leads_to(short, at, distance) by {
        if leads_to(whole, index, distance) {
            lemma_no_lead_before_the_tail(front, bytes, index, distance);
            assert(short[at - distance] == whole[index - distance]);
            assert forall|i: int| at - distance < i < at implies is_continuation(
                #[trigger] short[i],
            ) by {
                assert(is_continuation(whole[i + cut]));
            }
        }
        if leads_to(short, at, distance) {
            assert(short[at - distance] == whole[index - distance]);
            assert forall|i: int| index - distance < i < index implies is_continuation(
                #[trigger] whole[i],
            ) by {
                assert(is_continuation(short[i - cut]));
            }
        }
    }
    if is_continuation(whole[index]) {
        assert(leads_to(whole, index, 1) == leads_to(short, at, 1));
        assert(leads_to(whole, index, 2) == leads_to(short, at, 2));
        assert(leads_to(whole, index, 3) == leads_to(short, at, 3));
    }
}

/// What waits is looked for far enough back.
proof fn lemma_waiting_start(bytes: Seq<u8>, index: int)
    requires
        0 <= index < bytes.len(),
        waits_from(bytes, index),
    ensures
        waiting_start(bytes) <= index,
{
    assert(bytes.len() - index <= 3);
}

/// The same bytes wait of a stream and of what is kept of it.
proof fn lemma_tail_of_tail(front: Seq<u8>, bytes: Seq<u8>)
    ensures
        retained_tail(front + bytes) == retained_tail(retained_tail(front) + bytes),
{
    let whole = front + bytes;
    let cut = waiting_start(front);
    let short = retained_tail(front) + bytes;
    assert(short =~= whole.skip(cut));
    assert forall|i: int| cut <= i < whole.len() implies waits_from(whole, i) == #[trigger] waits_from(
        short,
        i - cut,
    ) by {
        lemma_context_is_kept(front, bytes, i);
        assert(short[i - cut] == whole[i]);
        assert(i + 1 < whole.len() ==> short[i - cut + 1] == whole[i + 1]);
        if waits_from(short, i - cut) {
            assert forall|k: int|
                i < k < whole.len() && whole.len() - i <= announced_continuations(
                    whole[i],
                ) implies is_continuation(#[trigger] whole[k]) by {
                assert(short[k - cut] == whole[k]);
            }
        }
        if waits_from(whole, i) {
            assert forall|k: int|
                i - cut < k < short.len() && whole.len() - i <= announced_continuations(
                    whole[i],
                ) implies is_continuation(#[trigger] short[k]) by {
                assert(short[k] == whole[k + cut]);
            }
        }
    }
    assert forall|i: int| 0 <= i < cut implies !#[trigger] waits_from(whole, i) by {
        if waits_from(whole, i) {
            lemma_context_is_before(front, bytes, i);
            assert(whole[i] == front[i]);
            assert(i + 1 < front.len() ==> whole[i + 1] == front[i + 1]);
            assert forall|k: int|
                i < k < front.len() && whole.len() - i <= announced_continuations(
                    whole[i],
                ) implies is_continuation(#[trigger] front[k]) by {
                assert(is_continuation(whole[k]));
            }
            assert(waits_from(front, i));
            lemma_waiting_start(front, i);
        }
    }
    let length = whole.len() as int;
    assert(length - 3 >= cut ==> waits_from(whole, length - 3) == waits_from(short, length - 3 - cut));
    assert(length - 2 >= cut ==> waits_from(whole, length - 2) == waits_from(short, length - 2 - cut));
    assert(length - 1 >= cut ==> waits_from(whole, length - 1) == waits_from(short, length - 1 - cut));
    assert(waiting_start(whole) == waiting_start(short) + cut);
    assert(retained_tail(whole) =~= retained_tail(short));
}

/// Dropping a front without an introducer, all but the tail that waits, leaves
/// what a scan finds unchanged.
proof fn lemma_scan_without_front(front: Seq<u8>, bytes: Seq<u8>)
    requires
        !has_introducer(front),
    ensures
        scanned(front + bytes) == scanned(retained_tail(front) + bytes),
{
    let whole = front + bytes;
    let short = retained_tail(front) + bytes;
    let cut = waiting_start(front);
    assert(short =~= whole.skip(cut));
    assert forall|i: int| 0 <= i < cut implies introducer_at(whole, i) is None by {
        assert(introducer_at(front, i) is None);
        if waits_from(front, i) {
            lemma_waiting_start(front, i);
        }
        lemma_context_is_before(front, bytes, i);
        assert(whole[i] == front[i]);
        if i + 1 < front.len() {
            assert(whole[i + 1] == front[i + 1]);
        }
        if i + 2 < front.len() {
            assert(whole[i + 2] == front[i + 2]);
        }
    }
    assert forall|i: int| cut <= i < whole.len() implies introducer_at(whole, i) == introducer_at(
        short,
        i - cut,
    ) by {
        lemma_context_is_kept(front, bytes, i);
        assert(byte_at(whole, i + 1) == byte_at(short, i - cut + 1));
        assert(byte_at(whole, i + 2) == byte_at(short, i - cut + 2));
    }
    if has_introducer(whole) {
        let some = choose|i: int| 0 <= i < whole.len() && introducer_at(whole, i) is Some;
        let start = lemma_has_first_introducer(whole, some);
        lemma_first_introducer(whole, start);
        assert(introducer_at(short, start - cut) is Some);
        assert forall|i: int| 0 <= i < start - cut implies introducer_at(short, i) is None by {
            assert(introducer_at(whole, i + cut) is None);
        }
        lemma_first_introducer(short, start - cut);
        assert(whole.skip(start) =~= short.skip(start - cut));
        let kind = introducer_at(whole, start)->0;
        let allow_bel = kind is Iterm;
        let body = whole.skip(start);
        let tail = body.skip(introducer_length(body, kind));
        assert(introducer_length(body, kind) <= body.len());
        if has_terminator(tail, allow_bel) {
            let some = choose|i: int| 0 <= i < tail.len() && terminator_at(tail, i, allow_bel) > 0;
            let end = lemma_has_first_terminator(tail, some, allow_bel);
            lemma_first_terminator(tail, end, allow_bel);
        }
        assert(scanned(whole) =~= scanned(short));
    } else {
        assert forall|i: int| 0 <= i < short.len() implies introducer_at(short, i) is None by {
            assert(introducer_at(whole, i + cut) is None);
        }
        lemma_tail_of_tail(front, bytes);
    }
}

/// The first introducer of a stream stays the first when more bytes follow.
proof fn lemma_introducer_with_more(front: Seq<u8>, start: int, bytes: Seq<u8>)
    requires
        is_first_introducer(front, start),
    ensures
        is_first_introducer(front + bytes, start),
        introducer_at(front + bytes, start) == introducer_at(front, start),
{
    let whole = front + bytes;
    lemma_context_is_before(front, bytes, start);
    assert(whole[start] == front[start]);
    assert(byte_at(front, start + 1) is Some ==> byte_at(whole, start + 1) == byte_at(
        front,
        start + 1,
    ));
    assert(byte_at(front, start + 2) is Some ==> byte_at(whole, start + 2) == byte_at(
        front,
        start + 2,
    ));
    assert forall|i: int| 0 <= i < start implies introducer_at(whole, i) is None by {
        assert(introducer_at(front, i) is None);
        lemma_context_is_before(front, bytes, i);
        assert(whole[i] == front[i]);
        assert(whole[i + 1] == front[i + 1]);
        if i + 2 < front.len() {
            assert(whole[i + 2] == front[i + 2]);
        } else {
            assert(start == i + 1);
        }
    }
}

/// The first terminator stays the first when more bytes follow.
proof fn lemma_terminator_with_more(front: Seq<u8>, end: int, bytes: Seq<u8>, allow_bel: bool)
    requires
        is_first_terminator(front, end, allow_bel),
    ensures
        is_first_terminator(front + bytes, end, allow_bel),
        terminator_at(front + bytes, end, allow_bel) == terminator_at(front, end, allow_bel),
{
    let whole = front + bytes;
    assert forall|i: int| 0 <= i <= end implies terminator_at(whole, i, allow_bel)
        == terminator_at(front, i, allow_bel) by {
        assert(whole[i] == front[i]);
        if i + 1 < front.len() {
            assert(whole[i + 1] == front[i + 1]);
        }
    }
}

/// The first sequence of a stream starts here.
#[verifier::opaque]
spec fn starts_at(bytes: Seq<u8>, start: int, kind: GraphicsKind) -> bool {
    is_first_introducer(bytes, start) && introducer_at(bytes, start) == Some(kind)
}

/// A sequence of a kind ends here, with a terminator of a length.
#[verifier::opaque]
spec fn ends_at(tail: Seq<u8>, kind: GraphicsKind, end: int, length: int) -> bool {
    is_first_terminator(tail, end, kind is Iterm) && terminator_at(tail, end, kind is Iterm)
        == length
}

/// What stands behind the header of the sequence at `start`.
spec fn behind_header(bytes: Seq<u8>, start: int, kind: GraphicsKind) -> Seq<u8> {
    let body = bytes.skip(start);
    body.skip(introducer_length(body, kind))
}

proof fn lemma_header_with_more(front: Seq<u8>, start: int, kind: GraphicsKind, back: Seq<u8>)
    requires
        starts_at(front, start, kind),
    ensures
        0 <= start < front.len(),
        starts_at(front + back, start, kind),
        (front + back).skip(start) == front.skip(start) + back,
        behind_header(front + back, start, kind) == behind_header(front, start, kind) + back,
        behind_header(front, start, kind).len() < front.len(),
{
    reveal(starts_at);
    lemma_introducer_with_more(front, start, back);
    let body = front.skip(start);
    let header = introducer_length(body, kind);
    assert(header <= body.len());
    assert((front + back).skip(start) =~= body + back);
    assert((body + back).skip(header) =~= body.skip(header) + back);
}

proof fn lemma_end_with_more(
    tail: Seq<u8>,
    kind: GraphicsKind,
    end: int,
    length: int,
    back: Seq<u8>,
)
    requires
        ends_at(tail, kind, end, length),
    ensures
        ends_at(tail + back, kind, end, length),
        (tail + back).take(end) == tail.take(end),
        (tail + back).skip(end + length) == tail.skip(end + length) + back,
        tail.skip(end + length).len() <= tail.len(),
{
    reveal(ends_at);
    lemma_terminator_with_more(tail, end, back, kind is Iterm);
    assert((tail + back).skip(end + length) =~= tail.skip(end + length) + back);
    assert((tail + back).take(end) =~= tail.take(end));
}

proof fn lemma_has_start(bytes: Seq<u8>) -> (start: (int, GraphicsKind))
    requires
        has_introducer(bytes),
    ensures
        starts_at(bytes, start.0, start.1),
{
    reveal(starts_at);
    let some = choose|i: int| 0 <= i < bytes.len() && introducer_at(bytes, i) is Some;
    let start = lemma_has_first_introducer(bytes, some);
    (start, introducer_at(bytes, start)->0)
}

proof fn lemma_has_end(tail: Seq<u8>, kind: GraphicsKind) -> (end: (int, int))
    requires
        has_terminator(tail, kind is Iterm),
    ensures
        ends_at(tail, kind, end.0, end.1),
{
    reveal(ends_at);
    let bell = kind is Iterm;
    let some = choose|i: int| 0 <= i < tail.len() && terminator_at(tail, i, bell) > 0;
    let end = lemma_has_first_terminator(tail, some, bell);
    (end, terminator_at(tail, end, bell))
}

/// A sequence that starts a stream starts it on its own too.
proof fn lemma_body_starts(bytes: Seq<u8>, start: int, kind: GraphicsKind)
    requires
        starts_at(bytes, start, kind),
    ensures
        starts_at(bytes.skip(start), 0, kind),
        behind_header(bytes.skip(start), 0, kind) == behind_header(bytes, start, kind),
{
    reveal(starts_at);
    let body = bytes.skip(start);
    assert(body[0] == bytes[start]);
    assert(byte_at(body, 1) == byte_at(bytes, start + 1));
    assert(byte_at(body, 2) == byte_at(bytes, start + 2));
    assert(!continues_a_scalar(body, 0));
    assert(body.skip(0) =~= body);
}

proof fn lemma_scan_unfinished(bytes: Seq<u8>, start: int, kind: GraphicsKind)
    requires
        starts_at(bytes, start, kind),
        !has_terminator(behind_header(bytes, start, kind), kind is Iterm),
        bytes.len() <= MAX_GRAPHICS_BUFFER_BYTES,
    ensures
        scanned(bytes).sequences == Seq::<GraphicsSequence>::empty(),
        scanned(bytes).rest == bytes.skip(start),
{
    reveal(starts_at);
    lemma_first_introducer(bytes, start);
}

proof fn lemma_scan_finished(
    bytes: Seq<u8>,
    start: int,
    kind: GraphicsKind,
    end: int,
    length: int,
)
    requires
        starts_at(bytes, start, kind),
        ends_at(behind_header(bytes, start, kind), kind, end, length),
    ensures
        ({
            let tail = behind_header(bytes, start, kind);
            let more = scanned(tail.skip(end + length));
            &&& scanned(bytes).sequences == seq![
                GraphicsSequence { kind, payload: tail.take(end) },
            ] + more.sequences
            &&& scanned(bytes).rest == more.rest
        }),
{
    lemma_header_with_more(bytes, start, kind, Seq::empty());
    lemma_end_with_more(behind_header(bytes, start, kind), kind, end, length, Seq::empty());
    reveal(starts_at);
    reveal(ends_at);
    lemma_first_introducer(bytes, start);
    lemma_first_terminator(behind_header(bytes, start, kind), end, kind is Iterm);
}

/// An unfinished sequence waits and starts what follows, so that the rest of
/// the stream is read as with all that came before.
proof fn lemma_unfinished_goes_on(front: Seq<u8>, start: int, kind: GraphicsKind, back: Seq<u8>)
    requires
        starts_at(front, start, kind),
        front.len() + back.len() <= MAX_GRAPHICS_BUFFER_BYTES,
    ensures
        scanned(front + back) == scanned(front.skip(start) + back),
{
    let whole = front + back;
    let waiting = front.skip(start) + back;
    lemma_header_with_more(front, start, kind, back);
    lemma_body_starts(front, start, kind);
    lemma_header_with_more(front.skip(start), 0, kind, back);
    let tail = behind_header(whole, start, kind);
    assert(behind_header(waiting, 0, kind) == tail);
    assert(waiting.skip(0) =~= waiting);
    if has_terminator(tail, kind is Iterm) {
        let (end, length) = lemma_has_end(tail, kind);
        lemma_scan_finished(whole, start, kind, end, length);
        lemma_scan_finished(waiting, 0, kind, end, length);
    } else {
        lemma_scan_unfinished(whole, start, kind);
        assert(waiting.len() <= whole.len());
        lemma_scan_unfinished(waiting, 0, kind);
    }
    assert(scanned(whole) =~= scanned(waiting));
}

/// The stream may be cut here.
spec fn may_be_cut(front: Seq<u8>, back: Seq<u8>) -> bool {
    let first = scanned(front);
    let second = scanned(first.rest + back);
    let both = scanned(front + back);
    both.sequences == first.sequences + second.sequences && both.rest == second.rest
}

proof fn lemma_cut_in_text(front: Seq<u8>, back: Seq<u8>)
    requires
        !has_introducer(front),
    ensures
        may_be_cut(front, back),
{
    lemma_scan_without_front(front, back);
    let later = scanned(retained_tail(front) + back).sequences;
    assert(Seq::<GraphicsSequence>::empty() + later =~= later);
}

proof fn lemma_cut_in_sequence(front: Seq<u8>, start: int, kind: GraphicsKind, back: Seq<u8>)
    requires
        starts_at(front, start, kind),
        !has_terminator(behind_header(front, start, kind), kind is Iterm),
        front.len() + back.len() <= MAX_GRAPHICS_BUFFER_BYTES,
    ensures
        may_be_cut(front, back),
{
    lemma_scan_unfinished(front, start, kind);
    lemma_unfinished_goes_on(front, start, kind, back);
    let later = scanned(front.skip(start) + back).sequences;
    assert(Seq::<GraphicsSequence>::empty() + later =~= later);
}

proof fn lemma_cut_after_sequence(
    front: Seq<u8>,
    start: int,
    kind: GraphicsKind,
    end: int,
    length: int,
    back: Seq<u8>,
)
    requires
        starts_at(front, start, kind),
        ends_at(behind_header(front, start, kind), kind, end, length),
        may_be_cut(behind_header(front, start, kind).skip(end + length), back),
    ensures
        may_be_cut(front, back),
{
    let tail = behind_header(front, start, kind);
    let after = tail.skip(end + length);
    lemma_scan_finished(front, start, kind, end, length);
    lemma_header_with_more(front, start, kind, back);
    lemma_end_with_more(tail, kind, end, length, back);
    lemma_scan_finished(front + back, start, kind, end, length);
    let sequence = seq![GraphicsSequence { kind, payload: tail.take(end) }];
    let later = scanned(scanned(after).rest + back).sequences;
    assert(sequence + (scanned(after).sequences + later) =~= (sequence + scanned(after).sequences)
        + later);
}

proof fn lemma_cut(front: Seq<u8>, back: Seq<u8>)
    requires
        front.len() + back.len() <= MAX_GRAPHICS_BUFFER_BYTES,
    ensures
        may_be_cut(front, back),
    decreases front.len(),
{
    if !has_introducer(front) {
        lemma_cut_in_text(front, back);
    } else {
        let (start, kind) = lemma_has_start(front);
        let tail = behind_header(front, start, kind);
        if !has_terminator(tail, kind is Iterm) {
            lemma_cut_in_sequence(front, start, kind, back);
        } else {
            let (end, length) = lemma_has_end(tail, kind);
            lemma_header_with_more(front, start, kind, back);
            lemma_end_with_more(tail, kind, end, length, back);
            lemma_cut(tail.skip(end + length), back);
            lemma_cut_after_sequence(front, start, kind, end, length, back);
        }
    }
}

/// A stream may be cut anywhere: feeding its pieces one after the other finds
/// the sequences of the whole, and leaves the same bytes waiting, as long as
/// what waits stays within the limit.
pub proof fn sequences_survive_splitting(front: Seq<u8>, back: Seq<u8>)
    requires
        front.len() + back.len() <= MAX_GRAPHICS_BUFFER_BYTES,
    ensures
        scanned(front + back).sequences == scanned(front).sequences + scanned(
            scanned(front).rest + back,
        ).sequences,
        scanned(front + back).rest == scanned(scanned(front).rest + back).rest,
{
    lemma_cut(front, back);
}

/// Collects graphics sequences from a stream that arrives in pieces.
#[derive(Debug)]
pub struct GraphicsParser {
    buffer: Vec<u8>,
}

impl View for GraphicsParser {
    type V = Seq<u8>;

    /// The bytes that wait for more.
    closed spec fn view(&self) -> Seq<u8> {
        self.buffer@
    }
}

/// The events as sequences.
pub open spec fn sequences_of(events: Seq<GraphicsEvent>) -> Seq<GraphicsSequence> {
    events.map_values(|event: GraphicsEvent| event@)
}

impl Default for GraphicsParser {
    fn default() -> (parser: Self)
        ensures
            parser@ == Seq::<u8>::empty(),
    {
        Self { buffer: Vec::new() }
    }
}

impl GraphicsParser {
    /// Takes the next piece of the stream and returns the sequences that it
    /// completes.
    #[verifier::rlimit(60)]
    pub fn feed(&mut self, bytes: &[u8]) -> (events: Vec<GraphicsEvent>)
        ensures
            sequences_of(events@) == scanned(old(self)@ + bytes@).sequences,
            final(self)@ == scanned(old(self)@ + bytes@).rest,
    {
        let mut events: Vec<GraphicsEvent> = Vec::new();
        let mut buffer: Vec<u8> = Vec::new();
        buffer.append(&mut self.buffer);
        buffer.extend_from_slice(bytes);
        let ghost whole = old(self)@ + bytes@;
        assert(buffer@ =~= whole);
        assert(sequences_of(events@) + scanned(whole).sequences =~= scanned(whole).sequences);
        loop
            invariant
                whole == old(self)@ + bytes@,
                scanned(whole).sequences == sequences_of(events@) + scanned(buffer@).sequences,
                scanned(whole).rest == scanned(buffer@).rest,
            decreases buffer@.len(),
        {
            let (start, kind): (usize, GraphicsKind) = match find_graphics_start(
                buffer.as_slice(),
            ) {
                Some(found) => found,
                None => {
                    // Keep enough UTF-8 context to distinguish a C1 control
                    // from a continuation byte when the text stream splits a
                    // scalar.
                    let split_at: usize = find_waiting_start(buffer.as_slice());
                    self.buffer = slice_to_vec(
                        slice_subrange(buffer.as_slice(), split_at, buffer.len()),
                    );
                    assert(self.buffer@ =~= retained_tail(buffer@));
                    assert(sequences_of(events@) =~= scanned(whole).sequences);
                    return events;
                },
            };
            let end: usize = buffer.len();
            let first: u8 = buffer[start];
            let header_len: usize = match kind {
                GraphicsKind::Kitty => if first == 0x9f {
                    2
                } else {
                    3
                },
                GraphicsKind::Iterm => if first == 0x9d {
                    1
                } else {
                    2
                },
                GraphicsKind::Sixel => if first == 0x90 {
                    1
                } else {
                    2
                },
            };
            let ghost body = buffer@.skip(start as int);
            proof {
                lemma_first_introducer(buffer@, start as int);
                assert(buffer@.skip(start + header_len) =~= body.skip(header_len as int));
            }
            let allow_bel: bool = match kind {
                GraphicsKind::Iterm => true,
                _ => false,
            };
            let from: usize = start + header_len;
            let (terminator, terminator_len): (usize, usize) = match find_graphics_terminator(
                buffer.as_slice(),
                from,
                allow_bel,
            ) {
                Some(found) => found,
                None => {
                    if buffer.len() - start > MAX_GRAPHICS_BUFFER_BYTES {
                        self.buffer = Vec::new();
                    } else {
                        self.buffer = slice_to_vec(
                            slice_subrange(buffer.as_slice(), start, buffer.len()),
                        );
                        assert(self.buffer@ =~= body);
                    }
                    assert(self.buffer@ =~= scanned(buffer@).rest);
                    assert(sequences_of(events@) =~= scanned(whole).sequences);
                    return events;
                },
            };
            let payload: Vec<u8> = slice_to_vec(
                slice_subrange(buffer.as_slice(), from, from + terminator),
            );
            let after: usize = from + terminator + terminator_len;
            let rest: Vec<u8> = slice_to_vec(
                slice_subrange(buffer.as_slice(), after, end),
            );
            let ghost tail = body.skip(header_len as int);
            proof {
                lemma_first_terminator(tail, terminator as int, allow_bel);
                assert(payload@ =~= tail.take(terminator as int));
                assert(rest@ =~= tail.skip(terminator + terminator_len));
            }
            let ghost before = events@;
            let event: GraphicsEvent = match kind {
                GraphicsKind::Kitty => GraphicsEvent::Kitty(payload),
                GraphicsKind::Iterm => GraphicsEvent::Iterm(payload),
                GraphicsKind::Sixel => GraphicsEvent::Sixel(payload),
            };
            events.push(event);
            proof {
                assert(sequences_of(events@) =~= sequences_of(before).push(event@));
                assert(sequences_of(before).push(event@) + scanned(rest@).sequences
                    =~= sequences_of(before) + (seq![event@] + scanned(rest@).sequences));
            }
            buffer = rest;
        }
    }
}

/// Plain bytes: no control character and nothing beyond ASCII.
pub open spec fn is_plain(bytes: Seq<u8>) -> bool {
    forall|i: int| 0 <= i < bytes.len() ==> 0x20 <= #[trigger] bytes[i] < 0x7f
}

/// What a sequence of a protocol begins with.
pub open spec fn introducer(kind: GraphicsKind) -> Seq<u8> {
    match kind {
        GraphicsKind::Kitty => seq![0x1bu8, 0x5f, 0x47],
        GraphicsKind::Iterm => seq![0x1bu8, 0x5d],
        GraphicsKind::Sixel => seq![0x1bu8, 0x50],
    }
}

proof fn lemma_plain_then_introducer(text: Seq<u8>, kind: GraphicsKind, back: Seq<u8>)
    requires
        is_plain(text),
    ensures
        ({
            let stream = text + introducer(kind) + back;
            let start = text.len() as int;
            &&& starts_at(stream, start, kind)
            &&& behind_header(stream, start, kind) == back
            &&& stream.skip(start) == introducer(kind) + back
        }),
{
    reveal(starts_at);
    let header = introducer(kind);
    let stream = text + header + back;
    let start = text.len() as int;
    assert forall|i: int| 0 <= i < start implies introducer_at(stream, i) is None by {
        assert(stream[i] == text[i]);
    }
    assert(stream[start] == header[0] && stream[start + 1] == header[1]);
    if kind is Kitty {
        assert(stream[start + 2] == header[2]);
    }
    assert(introducer_at(stream, start) == Some(kind));
    let body = stream.skip(start);
    assert(body =~= header + back);
    assert(body[0] == 0x1b);
    assert(introducer_length(body, kind) == header.len());
    assert(body.skip(header.len() as int) =~= back);
}

proof fn lemma_plain_then_terminator(payload: Seq<u8>, rest: Seq<u8>, kind: GraphicsKind)
    requires
        is_plain(payload),
    ensures
        ({
            let tail = payload + seq![0x1bu8, 0x5c] + rest;
            let end = payload.len() as int;
            &&& ends_at(tail, kind, end, 2)
            &&& tail.take(end) == payload
            &&& tail.skip(end + 2) == rest
        }),
{
    reveal(ends_at);
    let tail = payload + seq![0x1bu8, 0x5c] + rest;
    let end = payload.len() as int;
    let bel = kind is Iterm;
    assert forall|i: int| 0 <= i < end implies terminator_at(tail, i, bel) == 0 by {
        assert(tail[i] == payload[i]);
    }
    assert(tail[end] == 0x1b && tail[end + 1] == 0x5c);
    assert(tail.take(end) =~= payload);
    assert(tail.skip(end + 2) =~= rest);
}

/// A sequence in the stream is found with its protocol and its payload, whole
/// and without what stands around it, and what follows it is read on: a Kitty
/// sequence begins with `ESC _ G`, one of iTerm2 with `ESC ]` and a Sixel
/// sequence with `ESC P`, and all end with `ESC \`.
pub proof fn a_sequence_is_found_whole(
    text: Seq<u8>,
    kind: GraphicsKind,
    payload: Seq<u8>,
    rest: Seq<u8>,
)
    requires
        is_plain(text),
        is_plain(payload),
    ensures
        ({
            let stream = text + introducer(kind) + payload + seq![0x1bu8, 0x5c] + rest;
            let found = scanned(stream);
            &&& found.sequences.len() == scanned(rest).sequences.len() + 1
            &&& found.sequences[0].kind == kind
            &&& found.sequences[0].payload == payload
            &&& found.sequences.skip(1) == scanned(rest).sequences
            &&& found.rest == scanned(rest).rest
        }),
{
    let stream = text + introducer(kind) + payload + seq![0x1bu8, 0x5c] + rest;
    let start = text.len() as int;
    let tail = payload + seq![0x1bu8, 0x5c] + rest;
    assert(stream =~= text + introducer(kind) + tail);
    lemma_plain_then_introducer(text, kind, tail);
    lemma_plain_then_terminator(payload, rest, kind);
    lemma_scan_finished(stream, start, kind, payload.len() as int, 2);
    let sequence = GraphicsSequence { kind, payload };
    assert((seq![sequence] + scanned(rest).sequences).skip(1) =~= scanned(rest).sequences);
}

/// Text holds no sequence, and nothing of it waits.
pub proof fn text_holds_no_sequence(text: Seq<u8>)
    requires
        is_plain(text),
    ensures
        scanned(text).sequences.len() == 0,
        scanned(text).rest.len() == 0,
{
    assert forall|i: int| 0 <= i < text.len() implies introducer_at(text, i) is None by {
        assert(0x20 <= text[i] < 0x7f);
    }
    assert(!has_introducer(text));
    let length = text.len() as int;
    if length >= 1 {
        assert(0x20 <= text[length - 1] < 0x7f);
        assert(!waits_from(text, length - 1));
    }
    if length >= 2 {
        assert(0x20 <= text[length - 2] < 0x7f);
        assert(!waits_from(text, length - 2));
    }
    if length >= 3 {
        assert(0x20 <= text[length - 3] < 0x7f);
        assert(!waits_from(text, length - 3));
    }
}

/// A sequence that has not ended yet waits as it is.
pub proof fn an_unfinished_sequence_waits(text: Seq<u8>, kind: GraphicsKind, payload: Seq<u8>)
    requires
        is_plain(text),
        is_plain(payload),
        payload.len() + 3 <= MAX_GRAPHICS_BUFFER_BYTES,
    ensures
        scanned(text + introducer(kind) + payload).sequences.len() == 0,
        scanned(text + introducer(kind) + payload).rest == introducer(kind) + payload,
{
    let stream = text + introducer(kind) + payload;
    let start = text.len() as int;
    lemma_plain_then_introducer(text, kind, payload);
    let bel = kind is Iterm;
    assert forall|i: int| 0 <= i < payload.len() implies terminator_at(payload, i, bel) == 0 by {
        assert(0x20 <= payload[i] < 0x7f);
    }
    assert(!has_terminator(payload, bel));
    reveal(starts_at);
    lemma_first_introducer(stream, start);
}

/// A sequence ends with `ESC \` or its eight-bit form, and one of iTerm2 with a
/// bell too; it begins with an eight-bit form as well, but not in the midst of a
/// character that is written in UTF-8.
pub proof fn eight_bit_forms_are_found(bytes: Seq<u8>, bel: bool)
    requires
        bytes.len() >= 2,
    ensures
        bytes[0] == 0x9c ==> terminator_at(bytes, 0, bel) == 1,
        bytes[0] == 0x1b && bytes[1] == 0x5c ==> terminator_at(bytes, 0, bel) == 2,
        bytes[0] == 0x1b && bytes[1] != 0x5c ==> terminator_at(bytes, 0, bel) == 0,
        bytes[0] == 0x07 ==> terminator_at(bytes, 0, true) == 1 && terminator_at(bytes, 0, false)
            == 0,
        bytes[0] == 0x9f && bytes[1] == 0x47 ==> introducer_at(bytes, 0) == Some(
            GraphicsKind::Kitty,
        ) && introducer_length(bytes, GraphicsKind::Kitty) == 2,
        bytes[0] == 0x9d ==> introducer_at(bytes, 0) == Some(GraphicsKind::Iterm)
            && introducer_length(bytes, GraphicsKind::Iterm) == 1,
        bytes[0] == 0x90 ==> introducer_at(bytes, 0) == Some(GraphicsKind::Sixel)
            && introducer_length(bytes, GraphicsKind::Sixel) == 1,
        0xc2 <= bytes[0] <= 0xf4 && bytes[1] != 0x1b ==> introducer_at(bytes, 1) is None || !(0x80
            <= bytes[1] <= 0xbf),
        0x20 <= bytes[0] < 0x7f && bytes[1] == 0x9d ==> introducer_at(bytes, 1) == Some(
            GraphicsKind::Iterm,
        ),
{
    assert(bytes[1 - 1] == bytes[0]);
    if 0xc2 <= bytes[0] <= 0xf4 && 0x80 <= bytes[1] <= 0xbf {
        assert(leads_to(bytes, 1, 1));
    }
}

} // verus!
