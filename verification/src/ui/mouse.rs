//! What the mouse reports to a terminal's process.
use vstd::prelude::*;
use vstd::utf8::*;

use super::input::scroll_count;
use super::keystroke::Modifiers;
use crate::decimal::{decimal_text, digits_value, lemma_decimal_text, push_decimal, text_bytes};
use crate::num::min_of;
use crate::terminal::snapshot::TerminalModes;

verus! {

#[derive(Debug, Clone, Copy, PartialEq, Eq, Structural)]
pub enum TerminalMouseReportKind {
    Press,
    Release,
    Motion,
}

#[derive(Debug, Clone, Copy, PartialEq, Eq, Structural)]
pub enum MouseButton {
    Left,
    Middle,
    Right,
    /// A button that goes back or forward.
    Navigate,
}

/// The cell under the mouse, both counted from 1.
#[derive(Debug, Clone, Copy, PartialEq, Eq, Structural)]
pub struct MouseCell {
    pub column: usize,
    pub row: usize,
}

/// The number of a button in a report.
pub fn mouse_button_code(button: MouseButton) -> (code: Option<u16>)
    ensures
        code == match button {
            MouseButton::Left => Some(0u16),
            MouseButton::Middle => Some(1),
            MouseButton::Right => Some(2),
            MouseButton::Navigate => None,
        },
{
    match button {
        MouseButton::Left => Some(0),
        MouseButton::Middle => Some(1),
        MouseButton::Right => Some(2),
        MouseButton::Navigate => None,
    }
}

/// The number that a report gives for a button: a release has none of its own,
/// and motion and modifiers are added.
pub open spec fn reported_button(
    button: int,
    modifiers: Modifiers,
    kind: TerminalMouseReportKind,
) -> int {
    (match kind {
        TerminalMouseReportKind::Release => 3,
        TerminalMouseReportKind::Motion => button + 32,
        TerminalMouseReportKind::Press => button,
    }) + (if modifiers.shift {
        4int
    } else {
        0
    }) + (if modifiers.alt {
        8int
    } else {
        0
    }) + (if modifiers.control {
        16int
    } else {
        0
    })
}

/// A coordinate of a report that is not in decimal: one byte, or a character
/// in UTF-8.
pub open spec fn coordinate(value: int, utf8: bool) -> Seq<u8> {
    if utf8 {
        encode_scalar(value as u32)
    } else {
        seq![value as u8]
    }
}

/// One report of the mouse.
pub open spec fn mouse_report(
    button: int,
    cell: MouseCell,
    modes: TerminalModes,
    release: bool,
) -> Seq<u8> {
    if modes.sgr_mouse {
        seq![0x1bu8, 0x5bu8, 0x3cu8] + text_bytes(decimal_text(button as nat)) + seq![0x3bu8]
            + text_bytes(decimal_text(cell.column as nat)) + seq![0x3bu8] + text_bytes(
            decimal_text(cell.row as nat),
        ) + seq![
            if release {
                0x6du8
            } else {
                0x4du8
            },
        ]
    } else {
        let most = if modes.utf8_mouse {
            2_047
        } else {
            223
        };
        seq![0x1bu8, 0x5bu8, 0x4du8] + coordinate(32 + button, modes.utf8_mouse) + coordinate(
            32 + min_of(cell.column as int, most),
            modes.utf8_mouse,
        ) + coordinate(32 + min_of(cell.row as int, most), modes.utf8_mouse)
    }
}

/// The same bytes so many times.
pub open spec fn repeated(bytes: Seq<u8>, count: int) -> Seq<u8>
    decreases count,
{
    if count <= 0 {
        Seq::empty()
    } else {
        repeated(bytes, count - 1) + bytes
    }
}

/// Appends a coordinate of a report.
pub fn push_mouse_coordinate(input: &mut Vec<u8>, value: u16, utf8: bool)
    requires
        value < 0xd800,
        !utf8 ==> value < 256,
    ensures
        final(input)@ == old(input)@ + coordinate(value as int, utf8),
{
    if utf8 {
        let scalar: u32 = value as u32;
        if scalar <= 0x7f {
            input.push((scalar & 0x7f) as u8);
        } else if scalar <= 0x7ff {
            input.push(0xc0 | ((scalar >> 6) & 0x1f) as u8);
            input.push(0x80 | (scalar & 0x3f) as u8);
        } else {
            input.push(0xe0 | ((scalar >> 12) & 0x0f) as u8);
            input.push(0x80 | ((scalar >> 6) & 0x3f) as u8);
            input.push(0x80 | (scalar & 0x3f) as u8);
        }
    } else {
        input.push(value as u8);
    }
    assert(input@ =~= old(input)@ + coordinate(value as int, utf8));
}

fn push_report(
    input: &mut Vec<u8>,
    button: u16,
    cell: MouseCell,
    modes: TerminalModes,
    release: bool,
)
    requires
        button <= 200,
    ensures
        final(input)@ == old(input)@ + mouse_report(button as int, cell, modes, release),
{
    input.push(0x1b);
    input.push(0x5b);
    if modes.sgr_mouse {
        input.push(0x3c);
        push_decimal(input, button as u64);
        input.push(0x3b);
        push_decimal(input, cell.column as u64);
        input.push(0x3b);
        push_decimal(input, cell.row as u64);
        input.push(
            if release {
                0x6d
            } else {
                0x4d
            },
        );
    } else {
        let most: usize = if modes.utf8_mouse {
            2_047
        } else {
            223
        };
        input.push(0x4d);
        push_mouse_coordinate(input, 32 + button, modes.utf8_mouse);
        push_mouse_coordinate(input, 32 + cell.column.min(most) as u16, modes.utf8_mouse);
        push_mouse_coordinate(input, 32 + cell.row.min(most) as u16, modes.utf8_mouse);
    }
    assert(input@ =~= old(input)@ + mouse_report(button as int, cell, modes, release));
}

/// The reports of a button at a cell, so many times.
pub fn terminal_mouse_sequence(
    button: u16,
    count: usize,
    cell: MouseCell,
    modifiers: Modifiers,
    modes: TerminalModes,
    kind: TerminalMouseReportKind,
) -> (input: Vec<u8>)
    requires
        button <= 127,
    ensures
        input@ == repeated(
            mouse_report(
                reported_button(button as int, modifiers, kind),
                cell,
                modes,
                kind is Release,
            ),
            count as int,
        ),
{
    let release: bool = matches!(kind, TerminalMouseReportKind::Release);
    let motion: bool = matches!(kind, TerminalMouseReportKind::Motion);
    let mut reported: u16 = if release {
        3
    } else if motion {
        button + 32
    } else {
        button
    };
    if modifiers.shift {
        reported = reported + 4;
    }
    if modifiers.alt {
        reported = reported + 8;
    }
    if modifiers.control {
        reported = reported + 16;
    }
    assert(reported == reported_button(button as int, modifiers, kind));
    let mut input: Vec<u8> = Vec::new();
    let mut sent: usize = 0;
    let ghost report = mouse_report(reported as int, cell, modes, release);
    assert(input@ =~= repeated(report, 0));
    while sent < count
        invariant
            sent <= count,
            reported <= 200,
            report == mouse_report(reported as int, cell, modes, release),
            input@ == repeated(report, sent as int),
        decreases count - sent,
    {
        push_report(&mut input, reported, cell, modes, release);
        sent = sent + 1;
    }
    input
}

/// What turning the wheel by some lines reports.
pub fn terminal_mouse_input(
    lines: i32,
    cell: MouseCell,
    modifiers: Modifiers,
    modes: TerminalModes,
) -> (input: Option<Vec<u8>>)
    ensures
        match input {
            Some(input) => lines != 0 && input@ == repeated(
                mouse_report(
                    reported_button(
                        if lines > 0 {
                            64
                        } else {
                            65
                        },
                        modifiers,
                        TerminalMouseReportKind::Press,
                    ),
                    cell,
                    modes,
                    false,
                ),
                scroll_count(lines as int),
            ),
            None => lines == 0,
        },
{
    if lines == 0 {
        return None;
    }
    let button: u16 = if lines > 0 {
        64
    } else {
        65
    };
    let count: usize = if lines >= 100 || lines <= -100 {
        100
    } else if lines < 0 {
        (-lines) as usize
    } else {
        lines as usize
    };
    Some(
        terminal_mouse_sequence(
            button,
            count,
            cell,
            modifiers,
            modes,
            TerminalMouseReportKind::Press,
        ),
    )
}

/// What a press, a release or a motion with a button reports. Buttons that
/// navigate are not reported.
pub fn terminal_mouse_button_input(
    cell: MouseCell,
    button: MouseButton,
    pressed: bool,
    motion: bool,
    modifiers: Modifiers,
    modes: TerminalModes,
) -> (input: Option<Vec<u8>>)
    ensures
        ({
            let kind = report_kind(pressed, motion);
            match input {
                Some(input) => !(button is Navigate) && input@ == mouse_report(
                    reported_button(button_number(button), modifiers, kind),
                    cell,
                    modes,
                    kind is Release,
                ),
                None => button is Navigate,
            }
        }),
{
    let code: u16 = match mouse_button_code(button) {
        Some(code) => code,
        None => {
            return None;
        },
    };
    let kind: TerminalMouseReportKind = if pressed {
        if motion {
            TerminalMouseReportKind::Motion
        } else {
            TerminalMouseReportKind::Press
        }
    } else {
        TerminalMouseReportKind::Release
    };
    let input: Vec<u8> = terminal_mouse_sequence(code, 1, cell, modifiers, modes, kind);
    proof {
        reveal_with_fuel(repeated, 2);
        let report = mouse_report(
            reported_button(code as int, modifiers, kind),
            cell,
            modes,
            kind is Release,
        );
        assert(input@ =~= report);
    }
    Some(input)
}

/// The number of a button that is reported.
pub open spec fn button_number(button: MouseButton) -> int {
    match button {
        MouseButton::Left => 0,
        MouseButton::Middle => 1,
        _ => 2,
    }
}

/// What is reported of a button.
pub open spec fn report_kind(pressed: bool, motion: bool) -> TerminalMouseReportKind {
    if !pressed {
        TerminalMouseReportKind::Release
    } else if motion {
        TerminalMouseReportKind::Motion
    } else {
        TerminalMouseReportKind::Press
    }
}

/// The bits of a reported button: a press and a motion name the button, a
/// release names none, a motion is marked, and every modifier has a bit of its
/// own.
pub proof fn a_report_tells_what_is_held(
    button: int,
    modifiers: Modifiers,
    kind: TerminalMouseReportKind,
)
    requires
        0 <= button < 3 || 64 <= button < 67,
    ensures
        ({
            let reported = reported_button(button, modifiers, kind);
            &&& reported % 4 == (if kind is Release {
                3
            } else {
                button % 4
            })
            &&& (reported / 4 % 2 == 1) == modifiers.shift
            &&& (reported / 8 % 2 == 1) == modifiers.alt
            &&& (reported / 16 % 2 == 1) == modifiers.control
            &&& (reported / 32 % 2 == 1) == (kind is Motion)
            &&& (reported / 64 == 1) == (button >= 64 && !(kind is Release))
            &&& 0 <= reported < 128
        }),
{
}

proof fn lemma_decimal_bytes(value: nat)
    ensures
        text_bytes(decimal_text(value)).len() > 0,
        digits_value(text_bytes(decimal_text(value)), 0) == value,
        forall|i: int|
            0 <= i < text_bytes(decimal_text(value)).len() ==> 0x30 <= #[trigger] text_bytes(
                decimal_text(value),
            )[i] <= 0x39,
{
    lemma_decimal_text(value);
    let text = decimal_text(value);
    assert forall|i: int| 0 <= i < text_bytes(text).len() implies 0x30 <= #[trigger] text_bytes(
        text,
    )[i] <= 0x39 by {
        assert('0' <= text[i] <= '9');
    }
}

/// A report in decimal can be read: `ESC [ <`, three runs of digits that stand
/// for the button, the column and the row, in this order and with semicolons
/// between them, and `M`, or `m` of a release.
pub proof fn a_decimal_report_is_read_back(
    button: int,
    cell: MouseCell,
    modes: TerminalModes,
    release: bool,
) -> (digits: (Seq<u8>, Seq<u8>, Seq<u8>))
    requires
        modes.sgr_mouse,
        button >= 0,
    ensures
        mouse_report(button, cell, modes, release) == seq![0x1bu8, 0x5b, 0x3c] + digits.0 + seq![
            0x3bu8,
        ] + digits.1 + seq![0x3bu8] + digits.2 + seq![
            if release {
                0x6du8
            } else {
                0x4du8
            },
        ],
        digits_value(digits.0, 0) == button,
        digits_value(digits.1, 0) == cell.column,
        digits_value(digits.2, 0) == cell.row,
        digits.0.len() > 0 && digits.1.len() > 0 && digits.2.len() > 0,
        forall|i: int| 0 <= i < digits.0.len() ==> 0x30 <= #[trigger] digits.0[i] <= 0x39,
        forall|i: int| 0 <= i < digits.1.len() ==> 0x30 <= #[trigger] digits.1[i] <= 0x39,
        forall|i: int| 0 <= i < digits.2.len() ==> 0x30 <= #[trigger] digits.2[i] <= 0x39,
{
    lemma_decimal_bytes(button as nat);
    lemma_decimal_bytes(cell.column as nat);
    lemma_decimal_bytes(cell.row as nat);
    (
        text_bytes(decimal_text(button as nat)),
        text_bytes(decimal_text(cell.column as nat)),
        text_bytes(decimal_text(cell.row as nat)),
    )
}

/// A report in single bytes is `ESC [ M` and the button, the column and the
/// row, each with 32 added; cells beyond the last one that a byte can tell are
/// reported as that one.
pub proof fn a_short_report_has_six_bytes(
    button: int,
    cell: MouseCell,
    modes: TerminalModes,
    release: bool,
)
    requires
        !modes.sgr_mouse,
        !modes.utf8_mouse,
        0 <= button < 128,
    ensures
        ({
            let report = mouse_report(button, cell, modes, release);
            &&& report.len() == 6
            &&& report.take(3) == seq![0x1bu8, 0x5b, 0x4d]
            &&& report[3] == button + 32
            &&& cell.column <= 223 ==> report[4] == cell.column + 32
            &&& cell.column > 223 ==> report[4] == 255
            &&& cell.row <= 223 ==> report[5] == cell.row + 32
            &&& cell.row > 223 ==> report[5] == 255
        }),
{
    let report = mouse_report(button, cell, modes, release);
    assert(report.take(3) =~= seq![0x1bu8, 0x5b, 0x4d]);
}

/// A report in UTF-8 is `ESC [ M` and the characters whose numbers are the
/// button, the column and the row, each with 32 added.
pub proof fn a_wide_report_names_characters(
    button: int,
    cell: MouseCell,
    modes: TerminalModes,
    release: bool,
)
    requires
        !modes.sgr_mouse,
        modes.utf8_mouse,
        0 <= button < 128,
        cell.column <= 2_047,
        cell.row <= 2_047,
    ensures
        mouse_report(button, cell, modes, release) == seq![0x1bu8, 0x5b, 0x4d] + encode_scalar(
            (32 + button) as u32,
        ) + encode_scalar((32 + cell.column) as u32) + encode_scalar((32 + cell.row) as u32),
{
}

/// So many reports are as many copies, one behind the other.
pub proof fn reports_are_repeated(bytes: Seq<u8>, count: int)
    requires
        count >= 0,
    ensures
        repeated(bytes, count).len() == count * bytes.len(),
        repeated(bytes, count + 1) == repeated(bytes, count) + bytes,
        repeated(bytes, count + 1) == bytes + repeated(bytes, count),
        repeated(bytes, 1) == bytes,
        repeated(bytes, 0) == Seq::<u8>::empty(),
    decreases count,
{
    reveal_with_fuel(repeated, 2);
    assert(repeated(bytes, 1) =~= bytes);
    if count > 0 {
        reports_are_repeated(bytes, count - 1);
        assert((count - 1) * bytes.len() + bytes.len() == count * bytes.len()) by (nonlinear_arith);
        assert(repeated(bytes, count + 1) =~= bytes + repeated(bytes, count));
    } else {
        assert(count * bytes.len() == 0) by (nonlinear_arith)
            requires
                count == 0,
        ;
        assert(bytes + repeated(bytes, 0) =~= bytes);
    }
}

/// The left button has the number zero, the middle one one and the right one two;
/// what is not pressed was let go, and what is pressed was pressed or moved.
pub proof fn buttons_have_their_numbers(motion: bool)
    ensures
        button_number(MouseButton::Left) == 0,
        button_number(MouseButton::Middle) == 1,
        button_number(MouseButton::Right) == 2,
        report_kind(false, motion) == TerminalMouseReportKind::Release,
        report_kind(true, true) == TerminalMouseReportKind::Motion,
        report_kind(true, false) == TerminalMouseReportKind::Press,
{
}

} // verus!
