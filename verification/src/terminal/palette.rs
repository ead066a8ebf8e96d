//! Colours that a program sets.
//!
//! A program sets a colour with an operating system command, `ESC ] 4`, `10`,
//! `11` or `12`, whose parameters give it as `#` and hexadecimal digits. Twelve
//! digits say all that can be said of a colour. The emulator shifts by their
//! number, and far more of them than that are beyond its arithmetic: they are
//! taken out of the output before it is interpreted.
use vstd::prelude::*;

use crate::num::min_of;

verus! {

/// The digits behind `#` that a colour may have: a third of them, and those
/// left over, are one of its three parts and at most eight.
pub const MAX_COLOR_DIGITS: u8 = 22;

/// Where in an operating system command a stream of output has come to.
#[derive(Debug, Clone, Copy, PartialEq, Eq, Structural)]
pub enum Place {
    /// In none.
    Text,
    /// Behind an escape character.
    Escape,
    /// At the start of a command.
    Start,
    /// Behind a first `1`.
    One,
    /// Behind the number of a command that sets colours.
    Number,
    /// In a command that sets none.
    Other,
    /// At the start of a parameter of a command that sets colours.
    Parameter,
    /// In a parameter that does not start with `#`.
    Plain,
    /// In one that does, behind so many digits; one more than the most stands
    /// for any greater number.
    Digits(u8),
}

impl Place {
    /// No colour has too many digits here.
    pub open spec fn fits(self) -> bool {
        self matches Place::Digits(count) ==> count <= MAX_COLOR_DIGITS
    }

    /// The place within a command after a byte that is part of it.
    pub open spec fn within(self, byte: u8) -> Place {
        let separates = byte == 0x3b;
        match self {
            Place::Start => if byte == 0x34 {
                Place::Number
            } else if byte == 0x31 {
                Place::One
            } else {
                Place::Other
            },
            Place::One => if 0x30 <= byte <= 0x32 {
                Place::Number
            } else {
                Place::Other
            },
            Place::Number => if separates {
                Place::Parameter
            } else {
                Place::Other
            },
            Place::Parameter => if separates {
                Place::Parameter
            } else if byte == 0x23 {
                Place::Digits(0)
            } else {
                Place::Plain
            },
            Place::Plain => if separates {
                Place::Parameter
            } else {
                Place::Plain
            },
            Place::Digits(count) => if separates {
                Place::Parameter
            } else if count <= MAX_COLOR_DIGITS {
                Place::Digits((count + 1) as u8)
            } else {
                self
            },
            _ => self,
        }
    }

    /// The place after one more byte. An escape character and the two that
    /// cancel end a command, and so does a bell; other control characters are
    /// no part of it.
    pub open spec fn after(self, byte: u8) -> Place {
        if byte == 0x1b {
            Place::Escape
        } else if byte == 0x18 || byte == 0x1a {
            Place::Text
        } else if self is Text {
            self
        } else if self is Escape {
            if byte == 0x5d {
                Place::Start
            } else if byte < 0x20 || byte >= 0x7f {
                self
            } else {
                Place::Text
            }
        } else if byte == 0x07 {
            Place::Text
        } else if byte < 0x20 {
            self
        } else {
            self.within(byte)
        }
    }

    /// The place after some bytes.
    pub open spec fn after_all(self, bytes: Seq<u8>) -> Place
        decreases bytes.len(),
    {
        if bytes.len() == 0 {
            self
        } else {
            self.after_all(bytes.drop_last()).after(bytes.last())
        }
    }

    /// No colour in the bytes has too many digits.
    pub open spec fn colors_fit(self, bytes: Seq<u8>) -> bool {
        forall|end: int| 0 <= end <= bytes.len() ==> #[trigger] self.after_all(bytes.take(end)).fits()
    }

    /// The bytes without the digits that are too many.
    pub open spec fn tamed(self, bytes: Seq<u8>) -> Seq<u8>
        decreases bytes.len(),
    {
        if bytes.len() == 0 {
            bytes
        } else {
            let kept = self.tamed(bytes.drop_last());
            if self.after_all(kept).after(bytes.last()).fits() {
                kept.push(bytes.last())
            } else {
                kept
            }
        }
    }

    fn step(self, byte: u8) -> (place: Self)
        ensures
            place == self.after(byte),
    {
        if byte == 0x1b {
            return Place::Escape;
        }
        if byte == 0x18 || byte == 0x1a {
            return Place::Text;
        }
        let separates: bool = byte == 0x3b;
        match self {
            Place::Text => Place::Text,
            Place::Escape => if byte == 0x5d {
                Place::Start
            } else if byte < 0x20 || byte >= 0x7f {
                Place::Escape
            } else {
                Place::Text
            },
            _ if byte == 0x07 => Place::Text,
            _ if byte < 0x20 => self,
            Place::Start => if byte == 0x34 {
                Place::Number
            } else if byte == 0x31 {
                Place::One
            } else {
                Place::Other
            },
            Place::One => if 0x30 <= byte && byte <= 0x32 {
                Place::Number
            } else {
                Place::Other
            },
            Place::Other => Place::Other,
            Place::Number => if separates {
                Place::Parameter
            } else {
                Place::Other
            },
            Place::Parameter if byte == 0x23 => Place::Digits(0),
            Place::Digits(count) if !separates => if count <= MAX_COLOR_DIGITS {
                Place::Digits(count + 1)
            } else {
                self
            },
            _ => if separates {
                Place::Parameter
            } else {
                Place::Plain
            },
        }
    }
}

proof fn lemma_after_push(place: Place, bytes: Seq<u8>, byte: u8)
    ensures
        place.after_all(bytes.push(byte)) == place.after_all(bytes).after(byte),
{
    assert(bytes.push(byte).drop_last() =~= bytes);
}

proof fn lemma_fitting_push(place: Place, bytes: Seq<u8>, byte: u8)
    requires
        place.colors_fit(bytes),
        place.after_all(bytes).after(byte).fits(),
    ensures
        place.colors_fit(bytes.push(byte)),
{
    let longer = bytes.push(byte);
    lemma_after_push(place, bytes, byte);
    assert forall|end: int| 0 <= end <= longer.len() implies #[trigger] place.after_all(
        longer.take(end),
    ).fits() by {
        if end == longer.len() {
            assert(longer.take(end) =~= longer);
        } else {
            assert(longer.take(end) =~= bytes.take(end));
        }
    }
}

/// What is left of output has no colour with too many digits.
pub proof fn tamed_colors_fit(place: Place, bytes: Seq<u8>)
    requires
        place.fits(),
    ensures
        place.colors_fit(place.tamed(bytes)),
    decreases bytes.len(),
{
    if bytes.len() == 0 {
        assert forall|end: int| 0 <= end <= bytes.len() implies #[trigger] place.after_all(
            bytes.take(end),
        ).fits() by {
            assert(bytes.take(end) =~= bytes);
        }
    } else {
        tamed_colors_fit(place, bytes.drop_last());
        let kept = place.tamed(bytes.drop_last());
        if place.after_all(kept).after(bytes.last()).fits() {
            lemma_fitting_push(place, kept, bytes.last());
        }
    }
}

/// Output whose colours have no digits too many is left as it is.
pub proof fn proper_output_is_kept(place: Place, bytes: Seq<u8>)
    requires
        place.colors_fit(bytes),
    ensures
        place.tamed(bytes) == bytes,
    decreases bytes.len(),
{
    if bytes.len() > 0 {
        let front = bytes.drop_last();
        assert forall|end: int| 0 <= end <= front.len() implies #[trigger] place.after_all(
            front.take(end),
        ).fits() by {
            assert(front.take(end) =~= bytes.take(end));
        }
        proper_output_is_kept(place, front);
        assert(bytes.take(bytes.len() as int) =~= bytes);
        assert(place.after_all(bytes).fits());
        assert(front.push(bytes.last()) =~= bytes);
    }
}

proof fn lemma_after_pieces(place: Place, front: Seq<u8>, back: Seq<u8>)
    ensures
        place.after_all(front + back) == place.after_all(front).after_all(back),
    decreases back.len(),
{
    if back.len() == 0 {
        assert(front + back =~= front);
    } else {
        lemma_after_pieces(place, front, back.drop_last());
        assert((front + back).drop_last() =~= front + back.drop_last());
    }
}

/// What is taken out does not depend on how the output is cut.
pub proof fn digits_are_counted_across_pieces(place: Place, front: Seq<u8>, back: Seq<u8>)
    ensures
        ({
            let kept = place.tamed(front);
            place.tamed(front + back) == kept + place.after_all(kept).tamed(back)
        }),
    decreases back.len(),
{
    let kept = place.tamed(front);
    let there = place.after_all(kept);
    if back.len() == 0 {
        assert(front + back =~= front);
        assert(kept + there.tamed(back) =~= kept);
    } else {
        let less = back.drop_last();
        digits_are_counted_across_pieces(place, front, less);
        assert((front + back).drop_last() =~= front + less);
        lemma_after_pieces(place, kept, there.tamed(less));
        assert((kept + there.tamed(less)).push(back.last()) =~= kept + there.tamed(less).push(
            back.last(),
        ));
    }
}

/// Takes the digits that are too many out of the colours of a stream that
/// arrives in pieces.
#[derive(Debug)]
pub struct ColorFilter {
    place: Place,
}

impl View for ColorFilter {
    type V = Place;

    closed spec fn view(&self) -> Place {
        self.place
    }
}

impl ColorFilter {
    pub fn new() -> (filter: Self)
        ensures
            filter@ == Place::Text,
    {
        Self { place: Place::Text }
    }

    /// Takes the next piece of the stream and returns what is left of it.
    pub fn feed(&mut self, bytes: &[u8]) -> (kept: Vec<u8>)
        ensures
            kept@ == old(self)@.tamed(bytes@),
            final(self)@ == old(self)@.after_all(kept@),
    {
        let mut kept: Vec<u8> = Vec::new();
        let mut i: usize = 0;
        assert(bytes@.take(0) =~= Seq::empty());
        assert(kept@ =~= Seq::empty());
        while i < bytes.len()
            invariant
                i <= bytes@.len(),
                kept@ == old(self)@.tamed(bytes@.take(i as int)),
                self@ == old(self)@.after_all(kept@),
            decreases bytes@.len() - i,
        {
            let byte: u8 = bytes[i];
            assert(bytes@.take(i + 1).drop_last() =~= bytes@.take(i as int));
            proof {
                lemma_after_push(old(self)@, kept@, byte);
            }
            let next: Place = self.place.step(byte);
            let too_many: bool = match next {
                Place::Digits(count) => count > MAX_COLOR_DIGITS,
                _ => false,
            };
            if !too_many {
                kept.push(byte);
                self.place = next;
            }
            i = i + 1;
        }
        assert(bytes@.take(i as int) =~= bytes@);
        kept
    }
}

/// None of the bytes belongs to a command: they hold no control character and no
/// separator.
pub open spec fn are_digits(bytes: Seq<u8>) -> bool {
    forall|i: int| 0 <= i < bytes.len() ==> 0x20 <= #[trigger] bytes[i] && bytes[i] != 0x3b
}

proof fn lemma_digits_tamed(place: Place, digits: Seq<u8>, count: int)
    requires
        place == Place::Digits(count as u8),
        0 <= count <= MAX_COLOR_DIGITS,
        are_digits(digits),
    ensures
        ({
            let kept = min_of(digits.len() as int, MAX_COLOR_DIGITS - count);
            &&& place.tamed(digits) == digits.take(kept)
            &&& place.after_all(digits.take(kept)) == Place::Digits((count + kept) as u8)
        }),
    decreases digits.len(),
{
    if digits.len() == 0 {
        assert(digits.take(0) =~= digits);
    } else {
        let less = digits.drop_last();
        lemma_digits_tamed(place, less, count);
        let kept = min_of(less.len() as int, MAX_COLOR_DIGITS - count);
        if less.len() < MAX_COLOR_DIGITS - count {
            assert(less.take(kept) =~= less);
            assert(digits.take(kept + 1) =~= digits);
            assert(less.push(digits.last()) =~= digits);
        } else {
            assert(less.take(kept) =~= digits.take(kept));
        }
    }
}

/// Of a colour that is set the first 22 digits are kept, and the commands that
/// set one are 4, 10, 11 and 12.
pub proof fn surplus_digits_are_taken_out(number: Seq<u8>, digits: Seq<u8>)
    requires
        number == seq![52u8] || number == seq![49u8, 48u8] || number == seq![49u8, 49u8]
            || number == seq![49u8, 50u8],
        are_digits(digits),
    ensures
        ({
            let head = seq![0x1bu8, 0x5du8] + number + seq![0x3bu8, 0x23u8];
            Place::Text.tamed(head + digits) == head + digits.take(
                if digits.len() < 22 {
                    digits.len() as int
                } else {
                    22
                },
            )
        }),
{
    let head = seq![0x1bu8, 0x5du8] + number + seq![0x3bu8, 0x23u8];
    lemma_head_tamed(number);
    digits_are_counted_across_pieces(Place::Text, head, digits);
    lemma_digits_tamed(Place::Digits(0), digits, 0);
}

proof fn lemma_head_tamed(number: Seq<u8>)
    requires
        number == seq![52u8] || number == seq![49u8, 48u8] || number == seq![49u8, 49u8]
            || number == seq![49u8, 50u8],
    ensures
        ({
            let head = seq![0x1bu8, 0x5du8] + number + seq![0x3bu8, 0x23u8];
            &&& Place::Text.tamed(head) == head
            &&& Place::Text.after_all(head) == Place::Digits(0)
        }),
{
    let empty = Seq::<u8>::empty();
    let start = empty.push(0x1bu8).push(0x5du8);
    assert(Place::Text.tamed(empty) == empty);
    lemma_tamed_push(Place::Text, empty, 0x1b);
    lemma_tamed_push(Place::Text, empty.push(0x1b), 0x5d);
    assert(Place::Text.after_all(start) == Place::Start);
    let head = seq![0x1bu8, 0x5du8] + number + seq![0x3bu8, 0x23u8];
    if number.len() == 1 {
        let then = start.push(52u8);
        lemma_tamed_push(Place::Text, start, 52);
        lemma_tamed_push(Place::Text, then, 0x3b);
        lemma_tamed_push(Place::Text, then.push(0x3b), 0x23);
        assert(head =~= then.push(0x3b).push(0x23));
    } else {
        let then = start.push(49u8).push(number[1]);
        lemma_tamed_push(Place::Text, start, 49);
        lemma_tamed_push(Place::Text, start.push(49u8), number[1]);
        lemma_tamed_push(Place::Text, then, 0x3b);
        lemma_tamed_push(Place::Text, then.push(0x3b), 0x23);
        assert(head =~= then.push(0x3b).push(0x23));
    }
}

proof fn lemma_tamed_push(place: Place, bytes: Seq<u8>, byte: u8)
    requires
        place.tamed(bytes) == bytes,
        place.after_all(bytes).after(byte).fits(),
    ensures
        place.tamed(bytes.push(byte)) == bytes.push(byte),
        place.after_all(bytes.push(byte)) == place.after_all(bytes).after(byte),
{
    assert(bytes.push(byte).drop_last() =~= bytes);
}

/// Output without an escape character is left as it is.
pub proof fn plain_output_is_kept(bytes: Seq<u8>)
    requires
        forall|i: int| 0 <= i < bytes.len() ==> #[trigger] bytes[i] != 0x1b,
    ensures
        Place::Text.tamed(bytes) == bytes,
        Place::Text.after_all(bytes) == Place::Text,
    decreases bytes.len(),
{
    if bytes.len() > 0 {
        plain_output_is_kept(bytes.drop_last());
        assert(bytes.drop_last().push(bytes.last()) =~= bytes);
    }
}

/// Nothing but what stands behind `#` in a command that sets colours is taken
/// out.
pub proof fn only_digits_are_taken_out(place: Place, front: Seq<u8>, byte: u8)
    ensures
        ({
            let kept = place.tamed(front);
            let there = place.after_all(kept);
            &&& place.tamed(front.push(byte)) == kept || place.tamed(front.push(byte))
                == kept.push(byte)
            &&& !(there is Digits) || byte < 0x20 || byte == 0x3b ==> (there.fits()
                ==> place.tamed(front.push(byte)) == kept.push(byte))
            &&& there matches Place::Digits(count) ==> (count < 22 ==> place.tamed(
                front.push(byte),
            ) == kept.push(byte))
        }),
{
    assert(front.push(byte).drop_last() =~= front);
}

} // verus!
