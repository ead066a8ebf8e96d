//! Window titles in raw output.
use vstd::prelude::*;
use vstd::slice::*;
use vstd::string::*;
use vstd::utf8::*;

use crate::text::{read_utf8, trim, trimmed};

verus! {

/// Bound for OSC title payloads; longer titles are ignored.
pub const MAX_TITLE_BYTES: usize = 1024;

#[derive(Debug, Clone, Copy, PartialEq, Eq, Structural)]
pub enum TitleState {
    Ground,
    Escape,
    Osc,
}

/// A scanner by its values.
#[verifier::ext_equal]
pub struct ScannerView {
    pub state: TitleState,
    /// The parameters that are complete.
    pub params: Seq<Seq<u8>>,
    /// The parameter that is being read.
    pub param: Seq<u8>,
    /// How many bytes of the sequence were read, its separators included.
    pub length: int,
    /// The title is too long, so the sequence sets none.
    pub overlong: bool,
}

/// What the parameters that are UTF-8 say, joined by semicolons; `None` where
/// there is no such parameter.
pub open spec fn joined(params: Seq<Seq<u8>>) -> Option<Seq<char>>
    decreases params.len(),
{
    if params.len() == 0 {
        None
    } else {
        let front = joined(params.drop_last());
        if !valid_utf8(params.last()) {
            front
        } else {
            match front {
                Some(front) => Some(front.push(';') + decode_utf8(params.last())),
                None => Some(decode_utf8(params.last())),
            }
        }
    }
}

/// The title that the parameters of an OSC sequence set: the first one is `0`
/// or `2`, and the others are the title.
pub open spec fn title_of(params: Seq<Seq<u8>>) -> Option<Seq<char>> {
    if params.len() < 2 || (params[0] != seq!['0' as u8] && params[0] != seq!['2' as u8]) {
        None
    } else {
        match joined(params.skip(1)) {
            Some(title) => Some(trimmed(title)),
            None => Some(trimmed(Seq::empty())),
        }
    }
}

/// An OSC sequence ends at BEL, CAN, SUB or ESC.
pub open spec fn ends_osc(byte: u8) -> bool {
    byte == 0x07 || byte == 0x18 || byte == 0x1a || byte == 0x1b
}

impl ScannerView {
    pub open spec fn started() -> ScannerView {
        ScannerView {
            state: TitleState::Ground,
            params: Seq::empty(),
            param: Seq::empty(),
            length: 0,
            overlong: false,
        }
    }

    /// With `byte` the title passes the bound. The kind of the sequence, one
    /// byte, and the separator behind it are no part of the title, and neither
    /// is a separator that nothing follows.
    pub open spec fn passes_the_bound(self, byte: u8) -> bool {
        self.length + (if byte == 0x3b {
            0int
        } else {
            1
        }) > MAX_TITLE_BYTES + 2
    }

    /// All parameters of the sequence, where it ends here.
    pub open spec fn all_params(self) -> Seq<Seq<u8>> {
        if self.param.len() > 0 {
            self.params.push(self.param)
        } else {
            self.params
        }
    }

    /// The scanner after one more byte, and the title that is complete with
    /// it.
    pub open spec fn step(self, byte: u8) -> (ScannerView, Option<Seq<char>>) {
        match self.state {
            TitleState::Ground => (
                ScannerView {
                    state: if byte == 0x1b {
                        TitleState::Escape
                    } else {
                        TitleState::Ground
                    },
                    ..self
                },
                None,
            ),
            TitleState::Escape => if byte == 0x5d {
                (
                    ScannerView {
                        state: TitleState::Osc,
                        ..ScannerView::started()
                    },
                    None,
                )
            } else if byte == 0x1b {
                (self, None)
            } else {
                (ScannerView { state: TitleState::Ground, ..self }, None)
            },
            TitleState::Osc => if ends_osc(byte) {
                (
                    ScannerView {
                        state: if byte == 0x1b {
                            TitleState::Escape
                        } else {
                            TitleState::Ground
                        },
                        ..ScannerView::started()
                    },
                    if self.overlong {
                        None
                    } else {
                        title_of(self.all_params())
                    },
                )
            } else if byte < 0x20 || self.overlong {
                (self, None)
            } else if self.passes_the_bound(byte) {
                (ScannerView { overlong: true, ..self }, None)
            } else if byte == 0x3b {
                (
                    ScannerView {
                        params: self.params.push(self.param),
                        param: Seq::empty(),
                        length: self.length + 1,
                        ..self
                    },
                    None,
                )
            } else {
                (
                    ScannerView {
                        param: self.param.push(byte),
                        length: self.length + 1,
                        ..self
                    },
                    None,
                )
            },
        }
    }

    /// The scanner after some bytes, and the titles in them.
    pub open spec fn fed(self, bytes: Seq<u8>) -> (ScannerView, Seq<Seq<char>>)
        decreases bytes.len(),
    {
        if bytes.len() == 0 {
            (self, Seq::empty())
        } else {
            let (before, titles) = self.fed(bytes.drop_last());
            let (after, title) = before.step(bytes.last());
            (
                after,
                match title {
                    Some(title) => titles.push(title),
                    None => titles,
                },
            )
        }
    }
}

/// However output is cut into pieces, the same titles are found in it.
pub proof fn titles_do_not_depend_on_pieces(scanner: ScannerView, front: Seq<u8>, back: Seq<u8>)
    ensures
        scanner.fed(front + back).0 == scanner.fed(front).0.fed(back).0,
        scanner.fed(front + back).1 == scanner.fed(front).1 + scanner.fed(front).0.fed(back).1,
    decreases back.len(),
{
    if back.len() == 0 {
        assert(front + back =~= front);
        assert(scanner.fed(front).1 + Seq::empty() =~= scanner.fed(front).1);
    } else {
        assert((front + back).drop_last() =~= front + back.drop_last());
        titles_do_not_depend_on_pieces(scanner, front, back.drop_last());
        let middle = scanner.fed(front).0;
        let (before, titles) = middle.fed(back.drop_last());
        match before.step(back.last()).1 {
            Some(title) => {
                assert((scanner.fed(front).1 + titles).push(title) =~= scanner.fed(front).1
                    + titles.push(title));
            },
            None => {},
        }
    }
}

proof fn lemma_reading_a_title(text: Seq<u8>, kind: u8)
    requires
        kind == '0' as u8 || kind == '2' as u8,
        forall|i: int| 0 <= i < text.len() ==> 0x20 <= #[trigger] text[i] && text[i] != 0x3b,
    ensures
        ({
            let (scanner, titles) = ScannerView::started().fed(
                seq![0x1bu8, 0x5du8, kind, 0x3bu8] + text,
            );
            &&& titles.len() == 0
            &&& scanner.state is Osc
            &&& scanner.overlong == (text.len() > MAX_TITLE_BYTES)
            &&& !scanner.overlong ==> scanner.params == seq![seq![kind]] && scanner.param == text
                && scanner.length == text.len() + 2
        }),
    decreases text.len(),
{
    let head = seq![0x1bu8, 0x5du8, kind, 0x3bu8];
    if text.len() == 0 {
        assert(head + text =~= head);
        let start = ScannerView::started();
        assert(head.drop_last().drop_last().drop_last().drop_last() =~= Seq::empty());
        assert(head.drop_last().drop_last().drop_last().last() == 0x1b);
        assert(head.drop_last().drop_last().last() == 0x5d);
        assert(head.drop_last().last() == kind);
        reveal_with_fuel(ScannerView::fed, 5);
        assert(Seq::<u8>::empty().push(kind) =~= seq![kind]);
        assert(Seq::<Seq<u8>>::empty().push(seq![kind]) =~= seq![seq![kind]]);
        assert(start.fed(head).0.param =~= text);
    } else {
        assert((head + text).drop_last() =~= head + text.drop_last());
        assert((head + text).last() == text.last());
        lemma_reading_a_title(text.drop_last(), kind);
        assert(text.drop_last().push(text.last()) =~= text);
    }
}

/// A title is set where it is no longer than the bound, and a longer one is
/// ignored.
pub proof fn long_titles_are_ignored(text: Seq<u8>, kind: u8)
    requires
        kind == '0' as u8 || kind == '2' as u8,
        text.len() > 0,
        valid_utf8(text),
        forall|i: int| 0 <= i < text.len() ==> 0x20 <= #[trigger] text[i] && text[i] != 0x3b,
    ensures
        ScannerView::started().fed(seq![0x1bu8, 0x5du8, kind, 0x3bu8] + text + seq![0x07u8]).1
            == if text.len() <= MAX_TITLE_BYTES {
            seq![trimmed(decode_utf8(text))]
        } else {
            Seq::empty()
        },
{
    let head = seq![0x1bu8, 0x5du8, kind, 0x3bu8];
    let whole = head + text + seq![0x07u8];
    lemma_reading_a_title(text, kind);
    assert(whole.drop_last() =~= head + text);
    assert(whole.last() == 0x07);
    let before = ScannerView::started().fed(head + text).0;
    if text.len() <= MAX_TITLE_BYTES {
        let params = before.all_params();
        assert(params =~= seq![seq![kind], text]);
        assert(params.skip(1) =~= seq![text]);
        assert(seq![text].drop_last() =~= Seq::empty());
        reveal_with_fuel(joined, 2);
        assert(joined(params.skip(1)) == Some(decode_utf8(text)));
        assert(ScannerView::started().fed(whole).1 =~= seq![trimmed(decode_utf8(text))]);
    } else {
        assert(ScannerView::started().fed(whole).1 =~= Seq::empty());
    }
}

/// The bytes of some parameters.
pub open spec fn param_bytes(params: Seq<Vec<u8>>) -> Seq<Seq<u8>> {
    params.map_values(|param: Vec<u8>| param@)
}

/// Mirrors the OSC 0/2 title rule: first param "0" or "2", remaining
/// params joined with ";" and trimmed.
pub fn title_from_params(params: &[Vec<u8>]) -> (title: Option<String>)
    ensures
        match title {
            Some(title) => title_of(param_bytes(params@)) == Some(title@),
            None => title_of(param_bytes(params@)) is None,
        },
{
    let ghost all = param_bytes(params@);
    if params.len() < 2 {
        return None;
    }
    let kind: &Vec<u8> = &params[0];
    assert(all[0] == kind@);
    if !(kind.len() == 1 && (kind[0] == '0' as u8 || kind[0] == '2' as u8)) {
        assert(all[0] != seq!['0' as u8]) by {
            if all[0] == seq!['0' as u8] {
                assert(kind@[0] == '0' as u8);
            }
        }
        assert(all[0] != seq!['2' as u8]) by {
            if all[0] == seq!['2' as u8] {
                assert(kind@[0] == '2' as u8);
            }
        }
        return None;
    }
    assert(all[0] =~= seq![kind@[0]]);
    let mut title = String::new();
    let mut found: bool = false;
    let mut i: usize = 1;
    assert(all.skip(1).take(0) =~= Seq::empty());
    while i < params.len()
        invariant
            1 <= i <= params@.len(),
            all == param_bytes(params@),
            joined(all.skip(1).take(i - 1)) == if found {
                Some(title@)
            } else {
                None
            },
            !found ==> title@.len() == 0,
        decreases params@.len() - i,
    {
        assert(all.skip(1).take(i as int).drop_last() =~= all.skip(1).take(i - 1));
        assert(all.skip(1).take(i as int).last() == params@[i as int]@);
        if let Some(text) = read_utf8(params[i].as_slice()) {
            let ghost before = title@;
            if found {
                title.push(';');
            }
            title.append(text.as_str());
            assert(!found ==> title@ =~= text@);
            found = true;
        }
        i = i + 1;
    }
    assert(all.skip(1).take(i - 1) =~= all.skip(1));
    assert(!found ==> title@ =~= Seq::empty());
    Some(trim(title.as_str()))
}

/// Stateful, O(output bytes) scanner for OSC window-title sequences.
///
/// This is the only terminal-escape knowledge the server keeps: it follows
/// the OSC 0/2 title rule (`OSC 0/2 ; <text>` terminated by
/// BEL, CAN/SUB, or ESC) without a grid, cursor, or full VT state machine.
#[derive(Debug)]
pub struct TitleScanner {
    state: TitleState,
    params: Vec<Vec<u8>>,
    param: Vec<u8>,
    length: usize,
    overlong: bool,
}

impl View for TitleScanner {
    type V = ScannerView;

    closed spec fn view(&self) -> ScannerView {
        ScannerView {
            state: self.state,
            params: param_bytes(self.params@),
            param: self.param@,
            length: self.length as int,
            overlong: self.overlong,
        }
    }
}

/// The texts of some titles.
pub open spec fn title_texts(titles: Seq<String>) -> Seq<Seq<char>> {
    titles.map_values(|title: String| title@)
}

impl TitleScanner {
    pub fn new() -> (scanner: Self)
        ensures
            scanner@ == ScannerView::started(),
    {
        let scanner = Self {
            state: TitleState::Ground,
            params: Vec::new(),
            param: Vec::new(),
            length: 0,
            overlong: false,
        };
        assert(scanner@ =~= ScannerView::started());
        scanner
    }

    fn step(&mut self, byte: u8) -> (title: Option<String>)
        ensures
            final(self)@ == old(self)@.step(byte).0,
            match title {
                Some(title) => old(self)@.step(byte).1 == Some(title@),
                None => old(self)@.step(byte).1 is None,
            },
    {
        match self.state {
            TitleState::Ground => {
                if byte == 0x1b {
                    self.state = TitleState::Escape;
                }
                None
            },
            TitleState::Escape => {
                if byte == 0x5d {
                    self.state = TitleState::Osc;
                    self.params = Vec::new();
                    self.param = Vec::new();
                    self.length = 0;
                    self.overlong = false;
                    assert(param_bytes(self.params@) =~= Seq::empty());
                } else if byte != 0x1b {
                    self.state = TitleState::Ground;
                }
                None
            },
            TitleState::Osc => {
                // BEL, CAN, SUB, or ESC terminate the OSC.
                if byte == 0x07 || byte == 0x18 || byte == 0x1a || byte == 0x1b {
                    let mut params: Vec<Vec<u8>> = Vec::new();
                    std::mem::swap(&mut params, &mut self.params);
                    assert(param_bytes(self.params@) =~= Seq::empty());
                    let mut param: Vec<u8> = Vec::new();
                    std::mem::swap(&mut param, &mut self.param);
                    if param.len() > 0 {
                        params.push(param);
                    }
                    assert(param_bytes(params@) =~= old(self)@.all_params());
                    assert(self.param@ =~= Seq::empty());
                    let overlong: bool = self.overlong;
                    self.length = 0;
                    self.overlong = false;
                    self.state = if byte == 0x1b {
                        TitleState::Escape
                    } else {
                        TitleState::Ground
                    };
                    if overlong {
                        None
                    } else {
                        title_from_params(params.as_slice())
                    }
                } else if byte < 0x20 || self.overlong {
                    // Other C0 controls are skipped inside OSC payloads.
                    None
                } else if self.length > MAX_TITLE_BYTES + 2 || (byte != 0x3b && self.length
                    == MAX_TITLE_BYTES + 2) {
                    self.overlong = true;
                    None
                } else {
                    self.length = self.length + 1;
                    if byte == 0x3b {
                        let mut param: Vec<u8> = Vec::new();
                        std::mem::swap(&mut param, &mut self.param);
                        self.params.push(param);
                        assert(param_bytes(self.params@) =~= old(self)@.params.push(
                            old(self)@.param,
                        ));
                    } else {
                        self.param.push(byte);
                    }
                    None
                }
            },
        }
    }

    /// Reads some output and returns the titles that are complete with it.
    pub fn feed(&mut self, bytes: &[u8]) -> (titles: Vec<String>)
        ensures
            (final(self)@, title_texts(titles@)) == old(self)@.fed(bytes@),
    {
        let mut titles: Vec<String> = Vec::new();
        let mut i: usize = 0;
        let ghost start = self@;
        assert(bytes@.take(0) =~= Seq::empty());
        assert(title_texts(titles@) =~= Seq::empty());
        while i < bytes.len()
            invariant
                i <= bytes@.len(),
                (self@, title_texts(titles@)) == start.fed(bytes@.take(i as int)),
            decreases bytes@.len() - i,
        {
            assert(bytes@.take(i + 1).drop_last() =~= bytes@.take(i as int));
            let ghost before = titles@;
            if let Some(title) = self.step(bytes[i]) {
                titles.push(title);
                assert(title_texts(titles@) =~= title_texts(before).push(title@));
            }
            i = i + 1;
        }
        assert(bytes@.take(i as int) =~= bytes@);
        titles
    }
}

/// A command of another kind sets no title, whatever it holds.
pub proof fn other_commands_set_no_title(params: Seq<Seq<u8>>)
    ensures
        params.len() < 2 || (params[0] != seq![48u8] && params[0] != seq![50u8]) ==> title_of(
            params,
        ) is None,
{
}

/// A title with a semicolon in it is set in full.
pub proof fn a_semicolon_is_part_of_a_title(kind: u8, front: Seq<u8>, back: Seq<u8>)
    requires
        kind == 48 || kind == 50,
        valid_utf8(front),
        valid_utf8(back),
    ensures
        title_of(seq![seq![kind], front, back]) == Some(
            trimmed(decode_utf8(front) + seq![';'] + decode_utf8(back)),
        ),
{
    let params = seq![seq![kind], front, back];
    assert(params.skip(1) =~= seq![front, back]);
    assert(seq![front, back].drop_last() =~= seq![front]);
    assert(seq![front].drop_last() =~= Seq::empty());
    reveal_with_fuel(joined, 3);
    assert(decode_utf8(front).push(';') + decode_utf8(back) =~= decode_utf8(front) + seq![';']
        + decode_utf8(back));
}

/// A title that ends at an escape character is set as one that ends at a bell.
pub proof fn an_escape_ends_a_title(text: Seq<u8>, kind: u8)
    requires
        kind == 48 || kind == 50,
        0 < text.len() <= 1024,
        valid_utf8(text),
        forall|i: int| 0 <= i < text.len() ==> 0x20 <= #[trigger] text[i] && text[i] != 0x3b,
    ensures
        ScannerView::started().fed(seq![0x1bu8, 0x5du8, kind, 0x3bu8] + text + seq![0x1bu8]).1
            == seq![trimmed(decode_utf8(text))],
{
    let head = seq![0x1bu8, 0x5du8, kind, 0x3bu8];
    let whole = head + text + seq![0x1bu8];
    lemma_reading_a_title(text, kind);
    assert(whole.drop_last() =~= head + text);
    assert(whole.last() == 0x1b);
    let params = ScannerView::started().fed(head + text).0.all_params();
    assert(params =~= seq![seq![kind], text]);
    assert(params.skip(1) =~= seq![text]);
    assert(seq![text].drop_last() =~= Seq::empty());
    reveal_with_fuel(joined, 2);
    assert(ScannerView::started().fed(whole).1 =~= seq![trimmed(decode_utf8(text))]);
}

/// Output without an escape character sets no title.
pub proof fn plain_output_sets_no_title(bytes: Seq<u8>)
    requires
        forall|i: int| 0 <= i < bytes.len() ==> #[trigger] bytes[i] != 0x1b,
    ensures
        ScannerView::started().fed(bytes) == (ScannerView::started(), Seq::<Seq<char>>::empty()),
    decreases bytes.len(),
{
    if bytes.len() > 0 {
        plain_output_sets_no_title(bytes.drop_last());
    }
}

} // verus!
