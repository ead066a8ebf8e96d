//! Ordered raw PTY stream events.
//!
//! The server owns PTY output; it never renders it. Every terminal produces
//! a strictly ordered stream of `Output`, `Resize`, and `Exit` events with a
//! monotonically increasing sequence. The GUI (and any replay consumer)
//! rebuilds its local emulator by applying the events in order: historical
//! replay first, then the live tail. Clients deduplicate by sequence, so an
//! overlap between the replay and the live tail is safe.
use std::sync::Arc;

use vstd::arithmetic::div_mod::lemma_fundamental_div_mod_converse;
use vstd::prelude::*;
use vstd::string::*;
use vstd::utf8::*;

use super::snapshot::TerminalSize;
use crate::shared::share;

verus! {

/// The most output that one event carries.
pub const MAX_OUTPUT_EVENT_BYTES: usize = 64 * 1024;

/// Monotonic per-terminal sequence assigned by the PTY worker.
pub type TerminalSeq = u64;

/// One ordered raw event on a terminal's stream.
///
/// `size` is the geometry the event was produced at; it is what makes
/// eviction of the oldest ring events safe (every surviving event still
/// carries its geometry context).
#[derive(Debug, Clone, PartialEq, Eq)]
pub enum TerminalStreamEvent {
    Output { seq: TerminalSeq, size: TerminalSize, bytes: Arc<[u8]> },
    Resize { seq: TerminalSeq, size: TerminalSize },
    Exit { seq: TerminalSeq, code: Option<i32> },
}

/// What an event says, with its output as a sequence of bytes.
#[verifier::ext_equal]
pub enum StreamEvent {
    Output { seq: u64, size: TerminalSize, bytes: Seq<u8> },
    Resize { seq: u64, size: TerminalSize },
    Exit { seq: u64, code: Option<i32> },
}

impl StreamEvent {
    pub open spec fn seq(self) -> u64 {
        match self {
            StreamEvent::Output { seq, .. } => seq,
            StreamEvent::Resize { seq, .. } => seq,
            StreamEvent::Exit { seq, .. } => seq,
        }
    }

    pub open spec fn size(self) -> Option<TerminalSize> {
        match self {
            StreamEvent::Output { size, .. } => Some(size),
            StreamEvent::Resize { size, .. } => Some(size),
            StreamEvent::Exit { .. } => None,
        }
    }

    pub open spec fn output(self) -> Seq<u8> {
        match self {
            StreamEvent::Output { bytes, .. } => bytes,
            _ => Seq::empty(),
        }
    }
}

/// The events are numbered one after the other.
pub open spec fn numbered_in_a_row(events: Seq<StreamEvent>) -> bool {
    forall|i: int, j: int|
        0 <= i && j == i + 1 && j < events.len() ==> (#[trigger] events[j]).seq() == (
        #[trigger] events[i]).seq() + 1
}

impl View for TerminalStreamEvent {
    type V = StreamEvent;

    open spec fn view(&self) -> StreamEvent {
        match self {
            TerminalStreamEvent::Output { seq, size, bytes } => StreamEvent::Output {
                seq: *seq,
                size: *size,
                bytes: bytes@,
            },
            TerminalStreamEvent::Resize { seq, size } => StreamEvent::Resize {
                seq: *seq,
                size: *size,
            },
            TerminalStreamEvent::Exit { seq, code } => StreamEvent::Exit { seq: *seq, code: *code },
        }
    }
}

/// Wire form of a stream event (JSON-friendly: base64 bytes).
#[derive(Debug, Clone, PartialEq, Eq)]
pub enum WireTerminalEvent {
    Output { seq: TerminalSeq, bytes: String },
    Resize { seq: TerminalSeq, columns: usize, lines: usize },
    Exit { seq: TerminalSeq, code: Option<i32> },
}

/// What a wire event says, with its payload as a sequence of characters.
#[verifier::ext_equal]
pub enum WireEvent {
    Output { seq: u64, text: Seq<char> },
    Resize { seq: u64, columns: usize, lines: usize },
    Exit { seq: u64, code: Option<i32> },
}

impl View for WireTerminalEvent {
    type V = WireEvent;

    open spec fn view(&self) -> WireEvent {
        match self {
            WireTerminalEvent::Output { seq, bytes } => WireEvent::Output {
                seq: *seq,
                text: bytes@,
            },
            WireTerminalEvent::Resize { seq, columns, lines } => WireEvent::Resize {
                seq: *seq,
                columns: *columns,
                lines: *lines,
            },
            WireTerminalEvent::Exit { seq, code } => WireEvent::Exit { seq: *seq, code: *code },
        }
    }
}

/// The wire form of an event: the geometry of an output event stays behind.
pub open spec fn wire_of(event: StreamEvent) -> WireEvent {
    match event {
        StreamEvent::Output { seq, bytes, .. } => WireEvent::Output {
            seq,
            text: base64_text(bytes),
        },
        StreamEvent::Resize { seq, size } => WireEvent::Resize {
            seq,
            columns: size.columns,
            lines: size.lines,
        },
        StreamEvent::Exit { seq, code } => WireEvent::Exit { seq, code },
    }
}

/// The event that a wire form stands for at a geometry known from elsewhere.
pub open spec fn event_of_wire(wire: WireEvent, fallback: TerminalSize) -> Option<StreamEvent> {
    match wire {
        WireEvent::Output { seq, text } => match base64_bytes(text) {
            Some(bytes) => Some(StreamEvent::Output { seq, size: fallback, bytes }),
            None => None,
        },
        WireEvent::Resize { seq, columns, lines } => Some(
            StreamEvent::Resize {
                seq,
                size: TerminalSize::clamped_size(columns as int, lines as int),
            },
        ),
        WireEvent::Exit { seq, code } => Some(StreamEvent::Exit { seq, code }),
    }
}

impl TerminalStreamEvent {
    pub fn seq(&self) -> (seq: TerminalSeq)
        ensures
            seq == self@.seq(),
    {
        match self {
            Self::Output { seq, .. } => *seq,
            Self::Resize { seq, .. } => *seq,
            Self::Exit { seq, .. } => *seq,
        }
    }

    pub fn size(&self) -> (size: Option<TerminalSize>)
        ensures
            size == self@.size(),
    {
        match self {
            Self::Output { size, .. } => Some(*size),
            Self::Resize { size, .. } => Some(*size),
            Self::Exit { .. } => None,
        }
    }

    /// Raw output byte length (0 for Resize/Exit).
    pub fn output_bytes(&self) -> (length: usize)
        ensures
            length == self@.output().len(),
    {
        match self {
            Self::Output { bytes, .. } => bytes.len(),
            _ => 0,
        }
    }

    /// Wire form: base64 output bytes, geometry only where it matters.
    pub fn to_wire(&self) -> (wire: WireTerminalEvent)
        ensures
            wire@ == wire_of(self@),
    {
        match self {
            Self::Output { seq, bytes, .. } => WireTerminalEvent::Output {
                seq: *seq,
                bytes: encode_base64(bytes),
            },
            Self::Resize { seq, size } => WireTerminalEvent::Resize {
                seq: *seq,
                columns: size.columns,
                lines: size.lines,
            },
            Self::Exit { seq, code } => WireTerminalEvent::Exit { seq: *seq, code: *code },
        }
    }

    /// Inverse of [`TerminalStreamEvent::to_wire`]. Returns `None` when the
    /// payload is not base64; the geometry of an output event is carried by
    /// the stream frame or an earlier event.
    pub fn from_wire(wire: &WireTerminalEvent, fallback_size: TerminalSize) -> (event: Option<Self>)
        ensures
            match event {
                Some(event) => event_of_wire(wire@, fallback_size) == Some(event@),
                None => event_of_wire(wire@, fallback_size) is None,
            },
    {
        match wire {
            WireTerminalEvent::Output { seq, bytes } => {
                match decode_base64(bytes.as_str()) {
                    Some(bytes) => Some(
                        Self::Output { seq: *seq, size: fallback_size, bytes: share(bytes) },
                    ),
                    None => None,
                }
            },
            WireTerminalEvent::Resize { seq, columns, lines } => Some(
                Self::Resize { seq: *seq, size: TerminalSize::new(*columns, *lines) },
            ),
            WireTerminalEvent::Exit { seq, code } => Some(Self::Exit { seq: *seq, code: *code }),
        }
    }
}

/// The character that stands for a six bit value.
pub open spec fn sextet_char(value: int) -> char {
    if value < 26 {
        (('A' as int) + value) as char
    } else if value < 52 {
        (('a' as int) + value - 26) as char
    } else if value < 62 {
        (('0' as int) + value - 52) as char
    } else if value == 62 {
        '+'
    } else {
        '/'
    }
}

/// The base64 text of `bytes`: four characters for every three bytes, the
/// last group filled up with `=`.
pub open spec fn base64_text(bytes: Seq<u8>) -> Seq<char>
    decreases bytes.len(),
{
    if bytes.len() == 0 {
        Seq::empty()
    } else if bytes.len() == 1 {
        seq![sextet_char(bytes[0] as int / 4), sextet_char(bytes[0] as int % 4 * 16), '=', '=']
    } else if bytes.len() == 2 {
        seq![
            sextet_char(bytes[0] as int / 4),
            sextet_char(bytes[0] as int % 4 * 16 + bytes[1] as int / 16),
            sextet_char(bytes[1] as int % 16 * 4),
            '=',
        ]
    } else {
        seq![
            sextet_char(bytes[0] as int / 4),
            sextet_char(bytes[0] as int % 4 * 16 + bytes[1] as int / 16),
            sextet_char(bytes[1] as int % 16 * 4 + bytes[2] as int / 64),
            sextet_char(bytes[2] as int % 64),
        ] + base64_text(bytes.skip(3))
    }
}

fn sextet_to_char(value: u32) -> (character: char)
    requires
        value < 64,
    ensures
        character == sextet_char(value as int),
{
    let byte: u8 = if value < 26 {
        ('A' as u8) + value as u8
    } else if value < 52 {
        ('a' as u8) + (value - 26) as u8
    } else if value < 62 {
        ('0' as u8) + (value - 52) as u8
    } else if value == 62 {
        '+' as u8
    } else {
        '/' as u8
    };
    byte as char
}

/// Standard base64 with padding.
pub fn encode_base64(bytes: &[u8]) -> (text: String)
    ensures
        text@ == base64_text(bytes@),
{
    let mut text = String::new();
    let mut i: usize = 0;
    proof {
        assert(bytes@.skip(0) =~= bytes@);
    }
    while bytes.len() - i >= 3
        invariant
            i <= bytes@.len(),
            text@ + base64_text(bytes@.skip(i as int)) == base64_text(bytes@),
        decreases bytes@.len() - i,
    {
        let first: u32 = bytes[i] as u32;
        let second: u32 = bytes[i + 1] as u32;
        let third: u32 = bytes[i + 2] as u32;
        text.push(sextet_to_char(first / 4));
        text.push(sextet_to_char(first % 4 * 16 + second / 16));
        text.push(sextet_to_char(second % 16 * 4 + third / 64));
        text.push(sextet_to_char(third % 64));
        proof {
            let rest = bytes@.skip(i as int);
            assert(rest.skip(3) =~= bytes@.skip(i + 3));
            assert(text@ + base64_text(bytes@.skip(i + 3)) =~= base64_text(bytes@));
        }
        i = i + 3;
    }
    let ghost rest = bytes@.skip(i as int);
    if bytes.len() - i == 1 {
        let first: u32 = bytes[i] as u32;
        text.push(sextet_to_char(first / 4));
        text.push(sextet_to_char(first % 4 * 16));
        text.push('=');
        text.push('=');
    } else if bytes.len() - i == 2 {
        let first: u32 = bytes[i] as u32;
        let second: u32 = bytes[i + 1] as u32;
        text.push(sextet_to_char(first / 4));
        text.push(sextet_to_char(first % 4 * 16 + second / 16));
        text.push(sextet_to_char(second % 16 * 4));
        text.push('=');
    }
    assert(text@ =~= base64_text(bytes@));
    text
}

/// The six bits that a byte of base64 text stands for.
pub open spec fn sextet_of(byte: u8) -> Option<int> {
    if ('A' as u8) <= byte <= ('Z' as u8) {
        Some(byte as int - ('A' as u8) as int)
    } else if ('a' as u8) <= byte <= ('z' as u8) {
        Some(byte as int - ('a' as u8) as int + 26)
    } else if ('0' as u8) <= byte <= ('9' as u8) {
        Some(byte as int - ('0' as u8) as int + 52)
    } else if byte == ('+' as u8) {
        Some(62)
    } else if byte == ('/' as u8) {
        Some(63)
    } else {
        None
    }
}

/// A byte that decoding skips: ASCII white space and the padding sign.
pub open spec fn is_base64_filler(byte: u8) -> bool {
    byte == (' ' as u8) || byte == ('\t' as u8) || byte == ('\n' as u8) || byte == 12 || byte == ('\r' as u8) || byte == ('=' as u8)
}

/// The six bit values of a text, or `None` where a byte is neither a value
/// nor filler.
pub open spec fn sextets(text: Seq<u8>) -> Option<Seq<int>>
    decreases text.len(),
{
    if text.len() == 0 {
        Some(Seq::empty())
    } else {
        match sextets(text.drop_last()) {
            None => None,
            Some(values) => if is_base64_filler(text.last()) {
                Some(values)
            } else {
                match sextet_of(text.last()) {
                    Some(value) => Some(values.push(value)),
                    None => None,
                }
            },
        }
    }
}

/// The whole bytes that a sequence of six bit values holds, most significant
/// bits first.
pub open spec fn bytes_of_sextets(values: Seq<int>) -> Seq<u8>
    decreases values.len(),
{
    if values.len() < 2 {
        Seq::empty()
    } else if values.len() == 2 {
        seq![(values[0] * 4 + values[1] / 16) as u8]
    } else if values.len() == 3 {
        seq![
            (values[0] * 4 + values[1] / 16) as u8,
            (values[1] % 16 * 16 + values[2] / 4) as u8,
        ]
    } else {
        seq![
            (values[0] * 4 + values[1] / 16) as u8,
            (values[1] % 16 * 16 + values[2] / 4) as u8,
            (values[2] % 4 * 64 + values[3]) as u8,
        ] + bytes_of_sextets(values.skip(4))
    }
}

/// The bytes that a base64 text stands for.
pub open spec fn base64_bytes(text: Seq<char>) -> Option<Seq<u8>> {
    bytes_of_base64(encode_utf8(text))
}

fn b64_value(byte: u8) -> (value: Option<u32>)
    ensures
        match value {
            Some(value) => sextet_of(byte) == Some(value as int) && value < 64,
            None => sextet_of(byte) is None,
        },
{
    if ('A' as u8) <= byte && byte <= ('Z' as u8) {
        Some((byte - ('A' as u8)) as u32)
    } else if ('a' as u8) <= byte && byte <= ('z' as u8) {
        Some((byte - ('a' as u8)) as u32 + 26)
    } else if ('0' as u8) <= byte && byte <= ('9' as u8) {
        Some((byte - ('0' as u8)) as u32 + 52)
    } else if byte == ('+' as u8) {
        Some(62)
    } else if byte == ('/' as u8) {
        Some(63)
    } else {
        None
    }
}

/// One more value completes a byte, except where it starts a group of four.
proof fn lemma_bytes_of_sextets_push(values: Seq<int>, value: int)
    ensures
        values.len() % 4 == 0 ==> bytes_of_sextets(values.push(value)) == bytes_of_sextets(values),
        values.len() % 4 == 1 ==> bytes_of_sextets(values.push(value)) == bytes_of_sextets(
            values,
        ).push((values.last() * 4 + value / 16) as u8),
        values.len() % 4 == 2 ==> bytes_of_sextets(values.push(value)) == bytes_of_sextets(
            values,
        ).push((values.last() % 16 * 16 + value / 4) as u8),
        values.len() % 4 == 3 ==> bytes_of_sextets(values.push(value)) == bytes_of_sextets(
            values,
        ).push((values.last() % 4 * 64 + value) as u8),
    decreases values.len(),
{
    if values.len() >= 4 {
        lemma_bytes_of_sextets_push(values.skip(4), value);
        assert(values.push(value).skip(4) =~= values.skip(4).push(value));
    } else if values.len() == 3 {
        assert(values.push(value).skip(4) =~= Seq::<int>::empty());
        assert(bytes_of_sextets(Seq::<int>::empty()) =~= Seq::<u8>::empty());
    }
    let more = bytes_of_sextets(values.push(value));
    let less = bytes_of_sextets(values);
    assert(values.len() % 4 == 0 ==> more =~= less);
    assert(values.len() % 4 == 1 ==> more =~= less.push((values.last() * 4 + value / 16) as u8));
    assert(values.len() % 4 == 2 ==> more =~= less.push(
        (values.last() % 16 * 16 + value / 4) as u8,
    ));
    assert(values.len() % 4 == 3 ==> more =~= less.push((values.last() % 4 * 64 + value) as u8));
}

/// A text whose front does not decode does not decode.
proof fn lemma_sextets_prefix(text: Seq<u8>, end: int)
    requires
        0 <= end <= text.len(),
        sextets(text.take(end)) is None,
    ensures
        sextets(text) is None,
    decreases text.len() - end,
{
    if end < text.len() {
        assert(text.take(end + 1).drop_last() =~= text.take(end));
        lemma_sextets_prefix(text, end + 1);
    } else {
        assert(text.take(end) =~= text);
    }
}

/// The bytes that base64 text, taken as bytes, stands for.
pub open spec fn bytes_of_base64(text: Seq<u8>) -> Option<Seq<u8>> {
    match sextets(text) {
        Some(values) => Some(bytes_of_sextets(values)),
        None => None,
    }
}

/// The bytes of a base64 text. White space and padding are skipped wherever
/// they stand; any other byte outside the alphabet gives `None`.
pub fn decode_base64(encoded: &str) -> (decoded: Option<Vec<u8>>)
    ensures
        match decoded {
            Some(decoded) => base64_bytes(encoded@) == Some(decoded@),
            None => base64_bytes(encoded@) is None,
        },
{
    decode_base64_bytes(encoded.as_bytes())
}

/// [`decode_base64`] of text that is still bytes; what is not text holds a
/// byte outside the alphabet.
pub fn decode_base64_bytes(bytes: &[u8]) -> (decoded: Option<Vec<u8>>)
    ensures
        match decoded {
            Some(decoded) => bytes_of_base64(bytes@) == Some(decoded@),
            None => bytes_of_base64(bytes@) is None,
        },
{
    let mut out: Vec<u8> = Vec::new();
    let mut buffer: u32 = 0;
    let mut bits: u32 = 0;
    let mut i: usize = 0;
    let ghost mut values: Seq<int> = Seq::empty();
    proof {
        assert(bytes@.take(0) =~= Seq::empty());
    }
    while i < bytes.len()
        invariant
            i <= bytes@.len(),
            sextets(bytes@.take(i as int)) == Some(values),
            out@ == bytes_of_sextets(values),
            values.len() % 4 == 0 ==> bits == 0,
            values.len() % 4 == 1 ==> bits == 6 && buffer % 64 == values.last(),
            values.len() % 4 == 2 ==> bits == 4 && buffer % 16 == values.last() % 16,
            values.len() % 4 == 3 ==> bits == 2 && buffer % 4 == values.last() % 4,
        decreases bytes@.len() - i,
    {
        let byte: u8 = bytes[i];
        assert(bytes@.take(i + 1).drop_last() =~= bytes@.take(i as int));
        if byte == (' ' as u8) || byte == ('\t' as u8) || byte == ('\n' as u8) || byte == 12 || byte == ('\r' as u8) || byte
            == ('=' as u8) {
            i = i + 1;
            continue ;
        }
        let value: u32 = match b64_value(byte) {
            Some(value) => value,
            None => {
                proof {
                    lemma_sextets_prefix(bytes@, i + 1);
                }
                return None;
            },
        };
        let ghost before = buffer;
        buffer = (buffer << 6) | value;
        proof {
            lemma_bytes_of_sextets_push(values, value as int);
            assert(value < 64 ==> ((before << 6) | value) % 64 == value) by (bit_vector);
            assert(value < 64 ==> (((before << 6) | value) >> 4u32) as u8 == ((before % 64) * 4
                + value / 16) as u8) by (bit_vector);
            assert(value < 64 ==> ((before << 6) | value) % 16 == value % 16) by (bit_vector);
            assert(value < 64 ==> (((before << 6) | value) >> 2u32) as u8 == ((before % 16) * 16
                + value / 4) as u8) by (bit_vector);
            assert(value < 64 ==> ((before << 6) | value) % 4 == value % 4) by (bit_vector);
            assert(value < 64 ==> (((before << 6) | value) >> 0u32) as u8 == ((before % 4) * 64
                + value) as u8) by (bit_vector);
            values = values.push(value as int);
        }
        bits = bits + 6;
        if bits >= 8 {
            bits = bits - 8;
            out.push((buffer >> bits) as u8);
        }
        i = i + 1;
    }
    assert(bytes@.take(i as int) =~= bytes@);
    Some(out)
}

/// What a sextet's character is, and that reading it back gives the sextet.
proof fn lemma_sextet_char(value: int)
    requires
        0 <= value < 64,
    ensures
        (sextet_char(value) as int) < 128,
        !is_base64_filler(sextet_char(value) as u8),
        sextet_of(sextet_char(value) as u8) == Some(value),
{
}

/// The values of a text and of a text put before it stand one after the other.
proof fn lemma_sextets_concat(front: Seq<u8>, back: Seq<u8>)
    requires
        sextets(front) is Some,
        sextets(back) is Some,
    ensures
        sextets(front + back) == Some(sextets(front)->0 + sextets(back)->0),
    decreases back.len(),
{
    if back.len() == 0 {
        assert(front + back =~= front);
        assert(sextets(front)->0 + sextets(back)->0 =~= sextets(front)->0);
    } else {
        assert((front + back).drop_last() =~= front + back.drop_last());
        lemma_sextets_concat(front, back.drop_last());
        let start = sextets(front)->0;
        let middle = sextets(back.drop_last())->0;
        if !is_base64_filler(back.last()) {
            let value = sextet_of(back.last())->0;
            assert((start + middle).push(value) =~= start + middle.push(value));
        }
    }
}

/// Base64 text is ASCII, so that its bytes are its characters.
proof fn lemma_base64_text_is_ascii(bytes: Seq<u8>)
    ensures
        is_ascii_chars(base64_text(bytes)),
    decreases bytes.len(),
{
    let text = base64_text(bytes);
    if bytes.len() >= 3 {
        lemma_base64_text_is_ascii(bytes.skip(3));
    }
    assert forall|i: int| 0 <= i < text.len() implies (text[i] as int) < 128 by {
        if bytes.len() >= 3 && i >= 4 {
            assert(text[i] == base64_text(bytes.skip(3))[i - 4]);
        }
    }
}

spec fn ascii_bytes(text: Seq<char>) -> Seq<u8> {
    Seq::new(text.len(), |i: int| text[i] as u8)
}

proof fn lemma_sextets_of_quad(a: char, b: char, c: char, d: char)
    ensures
        sextets(ascii_bytes(seq![a, b, c, d])) == sextets(seq![a as u8, b as u8, c as u8, d as u8]),
{
    assert(ascii_bytes(seq![a, b, c, d]) =~= seq![a as u8, b as u8, c as u8, d as u8]);
}

/// The values of four bytes of text that are values or padding.
proof fn lemma_sextets_of_four(a: u8, b: u8, c: u8, d: u8)
    requires
        sextet_of(a) is Some,
        sextet_of(b) is Some,
        sextet_of(c) is Some || c == '=' as u8,
        sextet_of(d) is Some || d == '=' as u8,
        c == '=' as u8 ==> d == '=' as u8,
    ensures
        sextet_of(d) is Some ==> sextets(seq![a, b, c, d]) == Some(
            seq![sextet_of(a)->0, sextet_of(b)->0, sextet_of(c)->0, sextet_of(d)->0],
        ),
        d == '=' as u8 && sextet_of(c) is Some ==> sextets(seq![a, b, c, d]) == Some(
            seq![sextet_of(a)->0, sextet_of(b)->0, sextet_of(c)->0],
        ),
        c == '=' as u8 ==> sextets(seq![a, b, c, d]) == Some(
            seq![sextet_of(a)->0, sextet_of(b)->0],
        ),
{
    reveal_with_fuel(sextets, 5);
    let text = seq![a, b, c, d];
    assert(text.drop_last() =~= seq![a, b, c]);
    assert(seq![a, b, c].drop_last() =~= seq![a, b]);
    assert(seq![a, b].drop_last() =~= seq![a]);
    assert(seq![a].drop_last() =~= Seq::empty());
    let one = seq![sextet_of(a)->0];
    assert(Seq::<int>::empty().push(sextet_of(a)->0) =~= one);
    let two = seq![sextet_of(a)->0, sextet_of(b)->0];
    assert(one.push(sextet_of(b)->0) =~= two);
    let three = seq![sextet_of(a)->0, sextet_of(b)->0, sextet_of(c)->0];
    assert(two.push(sextet_of(c)->0) =~= three);
    assert(three.push(sextet_of(d)->0) =~= seq![
        sextet_of(a)->0,
        sextet_of(b)->0,
        sextet_of(c)->0,
        sextet_of(d)->0,
    ]);
}

#[verifier::spinoff_prover]
#[verifier::rlimit(60)]
proof fn lemma_decode_encoded(bytes: Seq<u8>)
    ensures
        sextets(ascii_bytes(base64_text(bytes))) is Some,
        bytes_of_sextets(sextets(ascii_bytes(base64_text(bytes)))->0) == bytes,
    decreases bytes.len(),
{
    let text = base64_text(bytes);
    if bytes.len() == 0 {
        assert(ascii_bytes(text) =~= Seq::empty());
        assert(bytes_of_sextets(Seq::empty()) =~= bytes);
    } else {
        let v0 = bytes[0] as int / 4;
        let v1 = bytes[0] as int % 4 * 16 + (if bytes.len() > 1 {
            bytes[1] as int / 16
        } else {
            0
        });
        let v2 = if bytes.len() > 1 {
            bytes[1] as int % 16 * 4 + (if bytes.len() > 2 {
                bytes[2] as int / 64
            } else {
                0
            })
        } else {
            0
        };
        let v3 = if bytes.len() > 2 {
            bytes[2] as int % 64
        } else {
            0
        };
        lemma_sextet_char(v0);
        lemma_sextet_char(v1);
        lemma_sextet_char(v2);
        lemma_sextet_char(v3);
        let c0 = sextet_char(v0);
        let c1 = sextet_char(v1);
        let c2 = if bytes.len() > 1 {
            sextet_char(v2)
        } else {
            '='
        };
        let c3 = if bytes.len() > 2 {
            sextet_char(v3)
        } else {
            '='
        };
        lemma_sextets_of_four(c0 as u8, c1 as u8, c2 as u8, c3 as u8);
        lemma_sextets_of_quad(c0, c1, c2, c3);
        let group = seq![c0, c1, c2, c3];
        if bytes.len() < 3 {
            assert(text =~= group);
            assert(bytes_of_sextets(sextets(ascii_bytes(text))->0) =~= bytes);
        } else {
            let rest = base64_text(bytes.skip(3));
            lemma_decode_encoded(bytes.skip(3));
            assert(text =~= group + rest);
            assert(ascii_bytes(text) =~= ascii_bytes(group) + ascii_bytes(rest));
            lemma_sextets_concat(ascii_bytes(group), ascii_bytes(rest));
            let values = sextets(ascii_bytes(text))->0;
            assert(values.skip(4) =~= sextets(ascii_bytes(rest))->0);
            assert(bytes_of_sextets(values) =~= bytes);
        }
    }
}

/// Decoding undoes encoding: the base64 text of any bytes stands for them.
pub proof fn base64_round_trip(bytes: Seq<u8>)
    ensures
        base64_bytes(base64_text(bytes)) == Some(bytes),
{
    lemma_base64_text_is_ascii(bytes);
    is_ascii_chars_encode_utf8(base64_text(bytes));
    assert(encode_utf8(base64_text(bytes)) =~= ascii_bytes(base64_text(bytes)));
    lemma_decode_encoded(bytes);
}

/// An event read back from its wire form is the event, where the reader knows
/// the geometry of an output event and a resize is within the limits.
pub proof fn wire_round_trip(event: StreamEvent, fallback: TerminalSize)
    requires
        match event {
            StreamEvent::Output { size, .. } => size == fallback,
            StreamEvent::Resize { size, .. } => size.within_limits(),
            StreamEvent::Exit { .. } => true,
        },
    ensures
        event_of_wire(wire_of(event), fallback) == Some(event),
{
    base64_round_trip(event.output());
}

/// The alphabet of base64 is the usual one: the capital letters, the small
/// letters, the digits, the plus sign and the slash, in this order.
pub proof fn the_alphabet_is_the_usual_one(value: int)
    requires
        0 <= value < 64,
    ensures
        value < 26 ==> sextet_char(value) as int == 65 + value,
        26 <= value < 52 ==> sextet_char(value) as int == 97 + (value - 26),
        52 <= value < 62 ==> sextet_char(value) as int == 48 + (value - 52),
        value == 62 ==> sextet_char(value) == '+',
        value == 63 ==> sextet_char(value) == '/',
        sextet_of(sextet_char(value) as u8) == Some(value),
{
}

proof fn lemma_bits_of_a_group(x: int, y: int, z: int)
    requires
        0 <= x < 256,
        0 <= y < 256,
        0 <= z < 256,
    ensures
        ({
            let bits = x * 0x10000 + y * 0x100 + z;
            &&& bits / 0x40000 == x / 4
            &&& bits / 0x1000 % 64 == x % 4 * 16 + y / 16
            &&& bits / 0x40 % 64 == y % 16 * 4 + z / 64
            &&& bits % 64 == z % 64
        }),
        ({
            let bits = x * 0x100 + y;
            &&& bits / 0x400 == x / 4
            &&& bits / 0x10 % 64 == x % 4 * 16 + y / 16
            &&& bits % 16 * 4 == y % 16 * 4
        }),
{
    let first = x / 4;
    let second = x % 4 * 16 + y / 16;
    let third = y % 16 * 4 + z / 64;
    let fourth = z % 64;
    let bits = x * 0x10000 + y * 0x100 + z;
    lemma_fundamental_div_mod_converse(
        bits,
        0x40000,
        first,
        second * 0x1000 + third * 0x40 + fourth,
    );
    lemma_fundamental_div_mod_converse(
        bits,
        0x1000,
        first * 64 + second,
        third * 0x40 + fourth,
    );
    lemma_fundamental_div_mod_converse(first * 64 + second, 64, first, second);
    lemma_fundamental_div_mod_converse(
        bits,
        0x40,
        first * 4096 + second * 64 + third,
        fourth,
    );
    lemma_fundamental_div_mod_converse(
        first * 4096 + second * 64 + third,
        64,
        first * 64 + second,
        third,
    );
    let two = x * 0x100 + y;
    lemma_fundamental_div_mod_converse(two, 0x400, first, second * 0x10 + y % 16);
    lemma_fundamental_div_mod_converse(two, 0x10, first * 64 + second, y % 16);
}

/// Three bytes are four characters of six bits each, the highest bits first;
/// a last group of one or two bytes is filled up with equals signs.
pub proof fn three_bytes_are_four_characters(a: u8, b: u8, c: u8, rest: Seq<u8>)
    ensures
        ({
            let bits = a * 0x10000 + b * 0x100 + c;
            base64_text(seq![a, b, c] + rest) == seq![
                sextet_char(bits / 0x40000),
                sextet_char(bits / 0x1000 % 64),
                sextet_char(bits / 0x40 % 64),
                sextet_char(bits % 64),
            ] + base64_text(rest)
        }),
        ({
            let bits = a * 0x100 + b;
            base64_text(seq![a, b]) == seq![
                sextet_char(bits / 0x400),
                sextet_char(bits / 0x10 % 64),
                sextet_char(bits % 16 * 4),
                '=',
            ]
        }),
        base64_text(seq![a]) == seq![sextet_char(a as int / 4), sextet_char(a as int % 4 * 16), '=', '='],
{
    let bytes = seq![a, b, c] + rest;
    assert(bytes.skip(3) =~= rest);
    assert(bytes[0] == a && bytes[1] == b && bytes[2] == c);
    lemma_bits_of_a_group(a as int, b as int, c as int);
}

/// What stands for nothing in base64 does not matter: white space and padding
/// are passed over wherever they stand, and any other byte spoils the text.
pub proof fn white_space_is_passed_over(front: Seq<u8>, byte: u8)
    ensures
        byte == 32 || byte == 9 || byte == 10 || byte == 13 || byte == 12 || byte == 61
            ==> bytes_of_base64(front.push(byte)) == bytes_of_base64(front),
        byte == 33 || byte == 45 || byte == 95 || byte >= 128 ==> bytes_of_base64(
            front.push(byte),
        ) is None,
{
    assert(front.push(byte).drop_last() =~= front);
}

/// An event travels under its number and as what it is; a resize has its
/// columns and its lines.
pub proof fn an_event_travels_as_what_it_is(event: StreamEvent)
    ensures
        event matches StreamEvent::Output { seq, bytes, .. } ==> wire_of(event)
            == (WireEvent::Output { seq, text: base64_text(bytes) }),
        event matches StreamEvent::Resize { seq, size } ==> wire_of(event) == (WireEvent::Resize {
            seq,
            columns: size.columns,
            lines: size.lines,
        }),
        event matches StreamEvent::Exit { seq, code } ==> wire_of(event) == (WireEvent::Exit {
            seq,
            code,
        }),
{
}

} // verus!
