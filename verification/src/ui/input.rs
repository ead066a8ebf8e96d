//! What keys send to a terminal's process.
use vstd::prelude::*;
use vstd::string::*;

use super::keystroke::{KeyView, Keystroke, Modifiers};
use crate::decimal::{decimal_text, push_decimal_text};
use crate::terminal::snapshot::TerminalModes;
use crate::text::{chars_of, is_control_char, same_text};

verus! {

/// The keys that send a sequence of their own.
#[derive(Debug, Clone, Copy, PartialEq, Eq, Structural)]
pub enum SpecialKey {
    Enter,
    Backspace,
    Tab,
    Escape,
    Left,
    Right,
    Up,
    Down,
    Home,
    End,
    Insert,
    Delete,
    PageUp,
    PageDown,
    F1,
    F2,
    F3,
    F4,
    F5,
    F6,
    F7,
    F8,
    F9,
    F10,
    F11,
    F12,
}

/// The key that a name stands for.
pub open spec fn key_named(name: Seq<char>) -> Option<SpecialKey> {
    if name == "enter"@ || name == "return"@ {
        Some(SpecialKey::Enter)
    } else if name == "backspace"@ {
        Some(SpecialKey::Backspace)
    } else if name == "tab"@ {
        Some(SpecialKey::Tab)
    } else if name == "escape"@ {
        Some(SpecialKey::Escape)
    } else if name == "left"@ {
        Some(SpecialKey::Left)
    } else if name == "right"@ {
        Some(SpecialKey::Right)
    } else if name == "up"@ {
        Some(SpecialKey::Up)
    } else if name == "down"@ {
        Some(SpecialKey::Down)
    } else if name == "home"@ {
        Some(SpecialKey::Home)
    } else if name == "end"@ {
        Some(SpecialKey::End)
    } else if name == "insert"@ {
        Some(SpecialKey::Insert)
    } else if name == "delete"@ {
        Some(SpecialKey::Delete)
    } else if name == "pageup"@ {
        Some(SpecialKey::PageUp)
    } else if name == "pagedown"@ {
        Some(SpecialKey::PageDown)
    } else if name == "f1"@ {
        Some(SpecialKey::F1)
    } else if name == "f2"@ {
        Some(SpecialKey::F2)
    } else if name == "f3"@ {
        Some(SpecialKey::F3)
    } else if name == "f4"@ {
        Some(SpecialKey::F4)
    } else if name == "f5"@ {
        Some(SpecialKey::F5)
    } else if name == "f6"@ {
        Some(SpecialKey::F6)
    } else if name == "f7"@ {
        Some(SpecialKey::F7)
    } else if name == "f8"@ {
        Some(SpecialKey::F8)
    } else if name == "f9"@ {
        Some(SpecialKey::F9)
    } else if name == "f10"@ {
        Some(SpecialKey::F10)
    } else if name == "f11"@ {
        Some(SpecialKey::F11)
    } else if name == "f12"@ {
        Some(SpecialKey::F12)
    } else {
        None
    }
}

/// Reads the name of a key.
pub fn special_key(name: &str) -> (key: Option<SpecialKey>)
    ensures
        key == key_named(name@),
{
    if same_text(name, "enter") || same_text(name, "return") {
        Some(SpecialKey::Enter)
    } else if same_text(name, "backspace") {
        Some(SpecialKey::Backspace)
    } else if same_text(name, "tab") {
        Some(SpecialKey::Tab)
    } else if same_text(name, "escape") {
        Some(SpecialKey::Escape)
    } else if same_text(name, "left") {
        Some(SpecialKey::Left)
    } else if same_text(name, "right") {
        Some(SpecialKey::Right)
    } else if same_text(name, "up") {
        Some(SpecialKey::Up)
    } else if same_text(name, "down") {
        Some(SpecialKey::Down)
    } else if same_text(name, "home") {
        Some(SpecialKey::Home)
    } else if same_text(name, "end") {
        Some(SpecialKey::End)
    } else if same_text(name, "insert") {
        Some(SpecialKey::Insert)
    } else if same_text(name, "delete") {
        Some(SpecialKey::Delete)
    } else if same_text(name, "pageup") {
        Some(SpecialKey::PageUp)
    } else if same_text(name, "pagedown") {
        Some(SpecialKey::PageDown)
    } else if same_text(name, "f1") {
        Some(SpecialKey::F1)
    } else if same_text(name, "f2") {
        Some(SpecialKey::F2)
    } else if same_text(name, "f3") {
        Some(SpecialKey::F3)
    } else if same_text(name, "f4") {
        Some(SpecialKey::F4)
    } else if same_text(name, "f5") {
        Some(SpecialKey::F5)
    } else if same_text(name, "f6") {
        Some(SpecialKey::F6)
    } else if same_text(name, "f7") {
        Some(SpecialKey::F7)
    } else if same_text(name, "f8") {
        Some(SpecialKey::F8)
    } else if same_text(name, "f9") {
        Some(SpecialKey::F9)
    } else if same_text(name, "f10") {
        Some(SpecialKey::F10)
    } else if same_text(name, "f11") {
        Some(SpecialKey::F11)
    } else if same_text(name, "f12") {
        Some(SpecialKey::F12)
    } else {
        None
    }
}

/// The parameter that stands for the modifiers in a sequence.
pub open spec fn modifier_parameter(modifiers: Modifiers) -> int {
    1 + (if modifiers.shift {
        1int
    } else {
        0
    }) + (if modifiers.alt {
        2int
    } else {
        0
    }) + (if modifiers.control {
        4int
    } else {
        0
    })
}

/// The parameter that stands for the modifiers in a sequence.
pub fn terminal_modifier_parameter(modifiers: Modifiers) -> (parameter: u8)
    ensures
        parameter == modifier_parameter(modifiers),
        1 <= parameter <= 8,
{
    let mut parameter: u8 = 1;
    if modifiers.shift {
        parameter = parameter + 1;
    }
    if modifiers.alt {
        parameter = parameter + 2;
    }
    if modifiers.control {
        parameter = parameter + 4;
    }
    parameter
}

/// The sequence of a cursor key.
pub open spec fn cursor_text(final_character: char, modifier: int, application: bool) -> Seq<char> {
    if modifier == 1 && application {
        seq!['\u{1b}', 'O', final_character]
    } else if modifier == 1 {
        seq!['\u{1b}', '[', final_character]
    } else {
        seq!['\u{1b}', '[', '1', ';'] + decimal_text(modifier as nat) + seq![final_character]
    }
}

/// The sequence of a cursor key.
pub fn cursor_sequence(final_character: char, modifier: u8, application_cursor: bool) -> (text:
    String)
    ensures
        text@ == cursor_text(final_character, modifier as int, application_cursor),
{
    let mut text: String = String::new();
    text.push('\u{1b}');
    if modifier == 1 && application_cursor {
        text.push('O');
    } else if modifier == 1 {
        text.push('[');
    } else {
        text.push('[');
        text.push('1');
        text.push(';');
        assert(text@ =~= seq!['\u{1b}', '[', '1', ';']);
        push_decimal_text(&mut text, modifier as u64);
    }
    text.push(final_character);
    assert(text@ =~= cursor_text(final_character, modifier as int, application_cursor));
    text
}

/// The sequence of a numbered key.
pub open spec fn numbered_text(number: int, final_character: char, modifier: int) -> Seq<char> {
    if modifier == 1 {
        seq!['\u{1b}', '['] + decimal_text(number as nat) + seq![final_character]
    } else {
        seq!['\u{1b}', '['] + decimal_text(number as nat) + seq![';'] + decimal_text(
            modifier as nat,
        ) + seq![final_character]
    }
}

/// The sequence of a numbered key.
pub fn numbered_sequence(number: u8, final_character: char, modifier: u8) -> (text: String)
    ensures
        text@ == numbered_text(number as int, final_character, modifier as int),
{
    let mut text: String = String::new();
    text.push('\u{1b}');
    text.push('[');
    assert(text@ =~= seq!['\u{1b}', '[']);
    push_decimal_text(&mut text, number as u64);
    if modifier != 1 {
        text.push(';');
        push_decimal_text(&mut text, modifier as u64);
    }
    text.push(final_character);
    assert(text@ =~= numbered_text(number as int, final_character, modifier as int));
    text
}

/// The sequence of the first four function keys.
pub open spec fn function_key_text(number: int, modifier: int) -> Seq<char> {
    let final_character = if number == 1 {
        'P'
    } else if number == 2 {
        'Q'
    } else if number == 3 {
        'R'
    } else {
        'S'
    };
    cursor_text(final_character, modifier, true)
}

/// The sequence of the first four function keys.
pub fn function_key_sequence(number: u8, modifier: u8) -> (text: String)
    requires
        1 <= number <= 4,
    ensures
        text@ == function_key_text(number as int, modifier as int),
{
    let final_character: char = if number == 1 {
        'P'
    } else if number == 2 {
        'Q'
    } else if number == 3 {
        'R'
    } else {
        'S'
    };
    cursor_sequence(final_character, modifier, true)
}

/// What a special key sends.
pub open spec fn special_text(key: SpecialKey, modifiers: Modifiers, modes: TerminalModes) -> Seq<
    char,
> {
    let modifier = modifier_parameter(modifiers);
    match key {
        SpecialKey::Enter => seq!['\r'],
        SpecialKey::Backspace => if modifiers.alt {
            seq!['\u{1b}', '\u{7f}']
        } else if modifiers.control {
            seq!['\u{8}']
        } else {
            seq!['\u{7f}']
        },
        SpecialKey::Tab => if modifiers.shift && !modifiers.control && !modifiers.alt {
            seq!['\u{1b}', '[', 'Z']
        } else {
            seq!['\t']
        },
        SpecialKey::Escape => seq!['\u{1b}'],
        SpecialKey::Left => cursor_text('D', modifier, modes.application_cursor),
        SpecialKey::Right => cursor_text('C', modifier, modes.application_cursor),
        SpecialKey::Up => cursor_text('A', modifier, modes.application_cursor),
        SpecialKey::Down => cursor_text('B', modifier, modes.application_cursor),
        SpecialKey::Home => cursor_text('H', modifier, modes.application_cursor),
        SpecialKey::End => cursor_text('F', modifier, modes.application_cursor),
        SpecialKey::Insert => numbered_text(2, '~', modifier),
        SpecialKey::Delete => numbered_text(3, '~', modifier),
        SpecialKey::PageUp => numbered_text(5, '~', modifier),
        SpecialKey::PageDown => numbered_text(6, '~', modifier),
        SpecialKey::F1 => function_key_text(1, modifier),
        SpecialKey::F2 => function_key_text(2, modifier),
        SpecialKey::F3 => function_key_text(3, modifier),
        SpecialKey::F4 => function_key_text(4, modifier),
        SpecialKey::F5 => numbered_text(15, '~', modifier),
        SpecialKey::F6 => numbered_text(17, '~', modifier),
        SpecialKey::F7 => numbered_text(18, '~', modifier),
        SpecialKey::F8 => numbered_text(19, '~', modifier),
        SpecialKey::F9 => numbered_text(20, '~', modifier),
        SpecialKey::F10 => numbered_text(21, '~', modifier),
        SpecialKey::F11 => numbered_text(23, '~', modifier),
        SpecialKey::F12 => numbered_text(24, '~', modifier),
    }
}

/// A text of one character.
fn single(c: char) -> (text: String)
    ensures
        text@ == seq![c],
{
    let mut text: String = String::new();
    text.push(c);
    assert(text@ =~= seq![c]);
    text
}

/// What a special key sends.
pub fn terminal_special_key_input_with_modes(
    key: &str,
    modifiers: Modifiers,
    modes: TerminalModes,
) -> (text: Option<String>)
    ensures
        match text {
            Some(text) => key_named(key@) matches Some(special) && text@ == special_text(
                special,
                modifiers,
                modes,
            ),
            None => key_named(key@) is None,
        },
{
    let modifier: u8 = terminal_modifier_parameter(modifiers);
    let special: SpecialKey = match special_key(key) {
        Some(special) => special,
        None => {
            return None;
        },
    };
    let text: String = match special {
        SpecialKey::Enter => single('\r'),
        SpecialKey::Backspace => if modifiers.alt {
            let mut text: String = single('\u{1b}');
            text.push('\u{7f}');
            text
        } else if modifiers.control {
            single('\u{8}')
        } else {
            single('\u{7f}')
        },
        SpecialKey::Tab => if modifiers.shift && !modifiers.control && !modifiers.alt {
            let mut text: String = single('\u{1b}');
            text.push('[');
            text.push('Z');
            text
        } else {
            single('\t')
        },
        SpecialKey::Escape => single('\u{1b}'),
        SpecialKey::Left => cursor_sequence('D', modifier, modes.application_cursor),
        SpecialKey::Right => cursor_sequence('C', modifier, modes.application_cursor),
        SpecialKey::Up => cursor_sequence('A', modifier, modes.application_cursor),
        SpecialKey::Down => cursor_sequence('B', modifier, modes.application_cursor),
        SpecialKey::Home => cursor_sequence('H', modifier, modes.application_cursor),
        SpecialKey::End => cursor_sequence('F', modifier, modes.application_cursor),
        SpecialKey::Insert => numbered_sequence(2, '~', modifier),
        SpecialKey::Delete => numbered_sequence(3, '~', modifier),
        SpecialKey::PageUp => numbered_sequence(5, '~', modifier),
        SpecialKey::PageDown => numbered_sequence(6, '~', modifier),
        SpecialKey::F1 => function_key_sequence(1, modifier),
        SpecialKey::F2 => function_key_sequence(2, modifier),
        SpecialKey::F3 => function_key_sequence(3, modifier),
        SpecialKey::F4 => function_key_sequence(4, modifier),
        SpecialKey::F5 => numbered_sequence(15, '~', modifier),
        SpecialKey::F6 => numbered_sequence(17, '~', modifier),
        SpecialKey::F7 => numbered_sequence(18, '~', modifier),
        SpecialKey::F8 => numbered_sequence(19, '~', modifier),
        SpecialKey::F9 => numbered_sequence(20, '~', modifier),
        SpecialKey::F10 => numbered_sequence(21, '~', modifier),
        SpecialKey::F11 => numbered_sequence(23, '~', modifier),
        SpecialKey::F12 => numbered_sequence(24, '~', modifier),
    };
    assert(text@ =~= special_text(special, modifiers, modes));
    Some(text)
}

/// A letter in lower case.
pub open spec fn lower_ascii(c: char) -> char {
    if 'A' <= c && c <= 'Z' {
        ((c as int) + 32) as char
    } else {
        c
    }
}

/// The character that control makes of another one.
pub open spec fn control_of(c: char) -> Option<char> {
    let c = lower_ascii(c);
    if 'a' <= c && c <= 'z' {
        Some(((c as int) - 96) as char)
    } else if c == '@' || c == '2' || c == ' ' {
        Some('\u{0}')
    } else if c == '[' || c == '3' {
        Some('\u{1b}')
    } else if c == '\\' || c == '4' {
        Some('\u{1c}')
    } else if c == ']' || c == '5' {
        Some('\u{1d}')
    } else if c == '^' || c == '6' {
        Some('\u{1e}')
    } else if c == '_' || c == '7' {
        Some('\u{1f}')
    } else if c == '?' || c == '8' {
        Some('\u{7f}')
    } else {
        None
    }
}

fn read_control(c: char) -> (control: Option<char>)
    ensures
        control == control_of(c),
{
    if 'a' <= c && c <= 'z' {
        let code: u8 = (c as u32 - 96) as u8;
        Some(code as char)
    } else if 'A' <= c && c <= 'Z' {
        let code: u8 = (c as u32 - 64) as u8;
        Some(code as char)
    } else if c == '@' || c == '2' || c == ' ' {
        Some('\u{0}')
    } else if c == '[' || c == '3' {
        Some('\u{1b}')
    } else if c == '\\' || c == '4' {
        Some('\u{1c}')
    } else if c == ']' || c == '5' {
        Some('\u{1d}')
    } else if c == '^' || c == '6' {
        Some('\u{1e}')
    } else if c == '_' || c == '7' {
        Some('\u{1f}')
    } else if c == '?' || c == '8' {
        Some('\u{7f}')
    } else {
        None
    }
}

/// The character that a key types together with control.
pub open spec fn typed_with_control(key: Seq<char>, key_char: Option<Seq<char>>) -> Option<char> {
    if key == "space"@ {
        Some(' ')
    } else if key_char is Some && key_char->0.len() > 0 {
        Some(key_char->0[0])
    } else if key.len() > 0 {
        Some(key[0])
    } else {
        None
    }
}

/// What a key sends together with control.
pub open spec fn control_text(key: Seq<char>, key_char: Option<Seq<char>>) -> Option<Seq<char>> {
    match typed_with_control(key, key_char) {
        Some(c) => match control_of(c) {
            Some(control) => Some(seq![control]),
            None => None,
        },
        None => None,
    }
}

fn first_char(text: &str) -> (c: Option<char>)
    ensures
        c == if text@.len() > 0 {
            Some(text@[0])
        } else {
            None
        },
{
    let chars: Vec<char> = chars_of(text);
    if chars.len() > 0 {
        Some(chars[0])
    } else {
        None
    }
}

/// What a key sends together with control.
pub fn terminal_control_input(key: &str, key_char: Option<&str>) -> (text: Option<String>)
    ensures
        match text {
            Some(text) => control_text(
                key@,
                match key_char {
                    Some(typed) => Some(typed@),
                    None => None,
                },
            ) == Some(text@),
            None => control_text(
                key@,
                match key_char {
                    Some(typed) => Some(typed@),
                    None => None,
                },
            ) is None,
        },
{
    let typed: Option<char> = if same_text(key, "space") {
        Some(' ')
    } else {
        let own: Option<char> = match key_char {
            Some(text) => first_char(text),
            None => None,
        };
        match own {
            Some(c) => Some(c),
            None => first_char(key),
        }
    };
    let c: char = match typed {
        Some(c) => c,
        None => {
            return None;
        },
    };
    match read_control(c) {
        Some(control) => Some(single(control)),
        None => None,
    }
}

/// The text that a key types, if it types any.
pub open spec fn plain_text(key: KeyView) -> Option<Seq<char>> {
    if key.key_char is Some && key.key_char->0.len() > 0 {
        key.key_char
    } else if key.key.len() == 1 {
        Some(key.key)
    } else if key.key == "space"@ {
        Some(seq![' '])
    } else {
        None
    }
}

/// What a key sends to the terminal's process.
pub open spec fn key_text(key: KeyView, modes: TerminalModes) -> Option<Seq<char>> {
    if key.modifiers.platform || key.modifiers.function {
        None
    } else if let Some(special) = key_named(key.key) {
        Some(special_text(special, key.modifiers, modes))
    } else if key.modifiers.control {
        control_text(key.key, key.key_char)
    } else {
        match plain_text(key) {
            Some(text) => Some(
                if key.modifiers.alt {
                    seq!['\u{1b}'] + text
                } else {
                    text
                },
            ),
            None => None,
        }
    }
}

/// What a key sends to the terminal's process.
pub fn terminal_input_for_keystroke_with_modes(keystroke: &Keystroke, modes: TerminalModes) -> (
text: Option<String>)
    ensures
        match text {
            Some(text) => key_text(keystroke@, modes) == Some(text@),
            None => key_text(keystroke@, modes) is None,
        },
{
    let modifiers: Modifiers = keystroke.modifiers;
    if modifiers.platform || modifiers.function {
        return None;
    }
    let key: &str = keystroke.key.as_str();
    if let Some(text) = terminal_special_key_input_with_modes(key, modifiers, modes) {
        return Some(text);
    }
    if modifiers.control {
        let typed: Option<&str> = match &keystroke.key_char {
            Some(typed) => Some(typed.as_str()),
            None => None,
        };
        return terminal_control_input(key, typed);
    }
    let mut input: String = String::new();
    if modifiers.alt {
        input.push('\u{1b}');
    }
    let ghost escape = input@;
    assert(escape =~= if modifiers.alt {
        seq!['\u{1b}']
    } else {
        Seq::empty()
    });
    if let Some(typed) = &keystroke.key_char {
        if !typed.as_str().is_empty() {
            input.append(typed.as_str());
            assert(input@ =~= key_text(keystroke@, modes)->0);
            return Some(input);
        }
    }
    let length: usize = chars_of(key).len();
    if length == 1 {
        input.append(key);
    } else if same_text(key, "space") {
        input.push(' ');
    } else {
        return None;
    }
    assert(input@ =~= key_text(keystroke@, modes)->0);
    Some(input)
}

/// The text has characters, and none of them is a control character.
pub open spec fn is_printable(text: Seq<char>) -> bool {
    text.len() > 0 && forall|i: int| 0 <= i < text.len() ==> !is_control_char(#[trigger] text[i])
}

fn read_printable(text: &str) -> (printable: bool)
    ensures
        printable == is_printable(text@),
{
    let chars: Vec<char> = chars_of(text);
    if chars.len() == 0 {
        return false;
    }
    let mut at: usize = 0;
    while at < chars.len()
        invariant
            chars@ == text@,
            at <= chars@.len(),
            forall|i: int| 0 <= i < at ==> !is_control_char(#[trigger] text@[i]),
        decreases chars@.len() - at,
    {
        let code: u32 = chars[at] as u32;
        if code < 0x20 || (0x7f <= code && code <= 0x9f) {
            assert(is_control_char(text@[at as int]));
            return false;
        }
        at = at + 1;
    }
    true
}

/// The key is left to the input method, which sends what it types.
pub open spec fn is_typed(key: KeyView) -> bool {
    &&& (key.key_char is Some && is_printable(key.key_char->0)) || key.key.len() == 1 || key.key
        == "space"@
    &&& !key.modifiers.control && !key.modifiers.alt
    &&& !key.modifiers.platform && !key.modifiers.function
}

/// Whether a key is left to the input method.
pub fn terminal_key_uses_text_input_handler(keystroke: &Keystroke) -> (typed: bool)
    ensures
        typed == is_typed(keystroke@),
{
    let printable: bool = match &keystroke.key_char {
        Some(text) => read_printable(text.as_str()),
        None => false,
    };
    let key: &str = keystroke.key.as_str();
    let length: usize = chars_of(key).len();
    (printable || length == 1 || same_text(key, "space")) && !keystroke.modifiers.control
        && !keystroke.modifiers.alt && !keystroke.modifiers.platform
        && !keystroke.modifiers.function
}

/// What pasting a text sends.
pub open spec fn pasted(text: Seq<char>, bracketed: bool) -> Seq<char> {
    if bracketed {
        seq!['\u{1b}', '[', '2', '0', '0', '~'] + text + seq!['\u{1b}', '[', '2', '0', '1', '~']
    } else {
        text
    }
}

fn push_bracket(out: &mut String, last: char)
    ensures
        final(out)@ == old(out)@ + seq!['\u{1b}', '[', '2', '0', last, '~'],
{
    out.push('\u{1b}');
    out.push('[');
    out.push('2');
    out.push('0');
    out.push(last);
    out.push('~');
    assert(out@ =~= old(out)@ + seq!['\u{1b}', '[', '2', '0', last, '~']);
}

/// What pasting a text sends.
pub fn paste_input(text: &str, bracketed_paste: bool) -> (input: String)
    ensures
        input@ == pasted(text@, bracketed_paste),
{
    let mut input: String = String::new();
    if bracketed_paste {
        push_bracket(&mut input, '0');
        input.append(text);
        push_bracket(&mut input, '1');
    } else {
        input.append(text);
    }
    assert(input@ =~= pasted(text@, bracketed_paste));
    input
}

/// What scrolling sends to a program on the alternate screen: so many cursor
/// keys.
pub open spec fn alternate_scroll(count: int, sequence: Seq<char>) -> Seq<char>
    decreases count,
{
    if count <= 0 {
        Seq::empty()
    } else {
        alternate_scroll(count - 1, sequence) + sequence
    }
}

/// How often a scroll by some lines is reported.
pub open spec fn scroll_count(lines: int) -> int {
    let distance = if lines < 0 {
        -lines
    } else {
        lines
    };
    if distance > 100 {
        100
    } else {
        distance
    }
}

fn count_scroll(lines: i32) -> (count: u32)
    ensures
        count == scroll_count(lines as int),
{
    if lines >= 100 || lines <= -100 {
        100
    } else if lines < 0 {
        (-lines) as u32
    } else {
        lines as u32
    }
}

/// What scrolling sends to a program on the alternate screen.
pub fn terminal_alternate_scroll_input(lines: i32, modes: TerminalModes) -> (text: String)
    ensures
        text@ == alternate_scroll(
            scroll_count(lines as int),
            cursor_text(
                if lines > 0 {
                    'A'
                } else {
                    'B'
                },
                1,
                modes.application_cursor,
            ),
        ),
{
    let final_character: char = if lines > 0 {
        'A'
    } else {
        'B'
    };
    let sequence: String = cursor_sequence(final_character, 1, modes.application_cursor);
    let count: u32 = count_scroll(lines);
    let mut text: String = String::new();
    let mut sent: u32 = 0;
    assert(text@ =~= Seq::empty());
    while sent < count
        invariant
            sent <= count,
            text@ == alternate_scroll(sent as int, sequence@),
        decreases count - sent,
    {
        text.append(sequence.as_str());
        sent = sent + 1;
    }
    text
}

/// Keys with the platform modifier send nothing to the terminal.
pub proof fn platform_keys_are_not_sent(key: KeyView, modes: TerminalModes)
    requires
        key.modifiers.platform,
    ensures
        key_text(key, modes) is None,
        !is_typed(key),
{
}

/// A key that the input method handles is one that sends what it types, so
/// that nothing is lost or sent twice.
pub proof fn typed_keys_send_their_text(key: KeyView, modes: TerminalModes)
    requires
        is_typed(key),
        key_named(key.key) is None,
    ensures
        key_text(key, modes) == plain_text(key),
        key_text(key, modes) is Some,
{
    assert(is_printable(key.key_char->0) ==> key.key_char->0.len() > 0);
}

/// The names of the special keys are told apart.
proof fn lemma_key_names()
    ensures
        key_named("enter"@) == Some(SpecialKey::Enter),
        key_named("return"@) == Some(SpecialKey::Enter),
        key_named("backspace"@) == Some(SpecialKey::Backspace),
        key_named("tab"@) == Some(SpecialKey::Tab),
        key_named("escape"@) == Some(SpecialKey::Escape),
        key_named("left"@) == Some(SpecialKey::Left),
        key_named("right"@) == Some(SpecialKey::Right),
        key_named("up"@) == Some(SpecialKey::Up),
        key_named("down"@) == Some(SpecialKey::Down),
        key_named("home"@) == Some(SpecialKey::Home),
        key_named("end"@) == Some(SpecialKey::End),
        key_named("insert"@) == Some(SpecialKey::Insert),
        key_named("delete"@) == Some(SpecialKey::Delete),
        key_named("pageup"@) == Some(SpecialKey::PageUp),
        key_named("pagedown"@) == Some(SpecialKey::PageDown),
        key_named("f1"@) == Some(SpecialKey::F1),
        key_named("f2"@) == Some(SpecialKey::F2),
        key_named("f3"@) == Some(SpecialKey::F3),
        key_named("f4"@) == Some(SpecialKey::F4),
        key_named("f5"@) == Some(SpecialKey::F5),
        key_named("f6"@) == Some(SpecialKey::F6),
        key_named("f7"@) == Some(SpecialKey::F7),
        key_named("f8"@) == Some(SpecialKey::F8),
        key_named("f9"@) == Some(SpecialKey::F9),
        key_named("f10"@) == Some(SpecialKey::F10),
        key_named("f11"@) == Some(SpecialKey::F11),
        key_named("f12"@) == Some(SpecialKey::F12),
{
    reveal_strlit("enter");
    reveal_strlit("return");
    reveal_strlit("backspace");
    reveal_strlit("tab");
    reveal_strlit("escape");
    reveal_strlit("left");
    reveal_strlit("right");
    reveal_strlit("up");
    reveal_strlit("down");
    reveal_strlit("home");
    reveal_strlit("end");
    reveal_strlit("insert");
    reveal_strlit("delete");
    reveal_strlit("pageup");
    reveal_strlit("pagedown");
    reveal_strlit("f1");
    reveal_strlit("f2");
    reveal_strlit("f3");
    reveal_strlit("f4");
    reveal_strlit("f5");
    reveal_strlit("f6");
    reveal_strlit("f7");
    reveal_strlit("f8");
    reveal_strlit("f9");
    reveal_strlit("f10");
    reveal_strlit("f11");
    reveal_strlit("f12");
    // Names differ in their length or in one of these characters.
    assert("enter"@.len() == 5);
    assert("return"@.len() == 6);
    assert("backspace"@.len() == 9);
    assert("tab"@.len() == 3);
    assert("escape"@.len() == 6);
    assert("left"@.len() == 4);
    assert("right"@.len() == 5);
    assert("up"@.len() == 2);
    assert("down"@.len() == 4);
    assert("home"@.len() == 4);
    assert("end"@.len() == 3);
    assert("insert"@.len() == 6);
    assert("delete"@.len() == 6);
    assert("pageup"@.len() == 6);
    assert("pagedown"@.len() == 8);
    assert("f1"@.len() == 2);
    assert("f2"@.len() == 2);
    assert("f3"@.len() == 2);
    assert("f4"@.len() == 2);
    assert("f5"@.len() == 2);
    assert("f6"@.len() == 2);
    assert("f7"@.len() == 2);
    assert("f8"@.len() == 2);
    assert("f9"@.len() == 2);
    assert("f10"@.len() == 3);
    assert("f11"@.len() == 3);
    assert("f12"@.len() == 3);
    assert("up"@[0] == 'u'
        && "f1"@[0] == 'f'
        && "f2"@[0] == 'f'
        && "f3"@[0] == 'f'
        && "f4"@[0] == 'f'
        && "f5"@[0] == 'f'
        && "f6"@[0] == 'f'
        && "f7"@[0] == 'f'
        && "f8"@[0] == 'f'
        && "f9"@[0] == 'f');
    assert("f1"@[1] == '1'
        && "f2"@[1] == '2'
        && "f3"@[1] == '3'
        && "f4"@[1] == '4'
        && "f5"@[1] == '5'
        && "f6"@[1] == '6'
        && "f7"@[1] == '7'
        && "f8"@[1] == '8'
        && "f9"@[1] == '9');
    assert("tab"@[0] == 't'
        && "end"@[0] == 'e'
        && "f10"@[0] == 'f'
        && "f11"@[0] == 'f'
        && "f12"@[0] == 'f');
    assert("f10"@[2] == '0'
        && "f11"@[2] == '1'
        && "f12"@[2] == '2');
    assert("left"@[0] == 'l'
        && "down"@[0] == 'd'
        && "home"@[0] == 'h');
    assert("enter"@[0] == 'e'
        && "right"@[0] == 'r');
    assert("return"@[0] == 'r'
        && "escape"@[0] == 'e'
        && "insert"@[0] == 'i'
        && "delete"@[0] == 'd'
        && "pageup"@[0] == 'p');
    assert("pagedown"@[0] == 'p');
    assert("backspace"@[0] == 'b');
}

proof fn lemma_small_numbers()
    ensures
        forall|n: nat| 0 <= n < 10 ==> #[trigger] decimal_text(n) == seq![(48 + n) as char],
        forall|n: nat|
            10 <= n < 100 ==> #[trigger] decimal_text(n) == seq![
                (48 + n / 10) as char,
                (48 + n % 10) as char,
            ],
{
    assert forall|n: nat| 10 <= n < 100 implies #[trigger] decimal_text(n) == seq![
        (48 + n / 10) as char,
        (48 + n % 10) as char,
    ] by {
        assert(decimal_text(n / 10) == seq![(48 + n / 10) as char]);
        assert(decimal_text(n) =~= seq![(48 + n / 10) as char, (48 + n % 10) as char]);
    }
}

/// The keys that send a sequence send exactly this one where no modifier is
/// held, whatever they type.
pub proof fn unmodified_keys_send_their_sequences(key: KeyView, modes: TerminalModes)
    requires
        !key.modifiers.control && !key.modifiers.alt && !key.modifiers.shift,
        !key.modifiers.platform && !key.modifiers.function,
    ensures
        ({
            let sent = key_text(key, modes);
            let introducer = if modes.application_cursor {
                'O'
            } else {
                '['
            };
            &&& key.key == "enter"@ || key.key == "return"@ ==> sent == Some(seq!['\r'])
            &&& key.key == "backspace"@ ==> sent == Some(seq!['\u{7f}'])
            &&& key.key == "tab"@ ==> sent == Some(seq!['\t'])
            &&& key.key == "escape"@ ==> sent == Some(seq!['\u{1b}'])
            &&& key.key == "up"@ ==> sent == Some(seq!['\u{1b}', introducer, 'A'])
            &&& key.key == "down"@ ==> sent == Some(seq!['\u{1b}', introducer, 'B'])
            &&& key.key == "right"@ ==> sent == Some(seq!['\u{1b}', introducer, 'C'])
            &&& key.key == "left"@ ==> sent == Some(seq!['\u{1b}', introducer, 'D'])
            &&& key.key == "home"@ ==> sent == Some(seq!['\u{1b}', introducer, 'H'])
            &&& key.key == "end"@ ==> sent == Some(seq!['\u{1b}', introducer, 'F'])
            &&& key.key == "insert"@ ==> sent == Some(seq!['\u{1b}', '[', '2', '~'])
            &&& key.key == "delete"@ ==> sent == Some(seq!['\u{1b}', '[', '3', '~'])
            &&& key.key == "pageup"@ ==> sent == Some(seq!['\u{1b}', '[', '5', '~'])
            &&& key.key == "pagedown"@ ==> sent == Some(seq!['\u{1b}', '[', '6', '~'])
            &&& key.key == "f1"@ ==> sent == Some(seq!['\u{1b}', 'O', 'P'])
            &&& key.key == "f2"@ ==> sent == Some(seq!['\u{1b}', 'O', 'Q'])
            &&& key.key == "f3"@ ==> sent == Some(seq!['\u{1b}', 'O', 'R'])
            &&& key.key == "f4"@ ==> sent == Some(seq!['\u{1b}', 'O', 'S'])
            &&& key.key == "f5"@ ==> sent == Some(seq!['\u{1b}', '[', '1', '5', '~'])
            &&& key.key == "f6"@ ==> sent == Some(seq!['\u{1b}', '[', '1', '7', '~'])
            &&& key.key == "f7"@ ==> sent == Some(seq!['\u{1b}', '[', '1', '8', '~'])
            &&& key.key == "f8"@ ==> sent == Some(seq!['\u{1b}', '[', '1', '9', '~'])
            &&& key.key == "f9"@ ==> sent == Some(seq!['\u{1b}', '[', '2', '0', '~'])
            &&& key.key == "f10"@ ==> sent == Some(seq!['\u{1b}', '[', '2', '1', '~'])
            &&& key.key == "f11"@ ==> sent == Some(seq!['\u{1b}', '[', '2', '3', '~'])
            &&& key.key == "f12"@ ==> sent == Some(seq!['\u{1b}', '[', '2', '4', '~'])
        }),
{
    lemma_key_names();
    lemma_small_numbers();
    assert forall|n: nat| 0 <= n < 10 implies #[trigger] numbered_text(n as int, '~', 1) == seq![
        '\u{1b}',
        '[',
        (48 + n) as char,
        '~',
    ] by {
        assert(decimal_text(n) == seq![(48 + n) as char]);
        assert(numbered_text(n as int, '~', 1) =~= seq!['\u{1b}', '[', (48 + n) as char, '~']);
    }
    assert forall|n: nat| 10 <= n < 100 implies #[trigger] numbered_text(n as int, '~', 1) == seq![
        '\u{1b}',
        '[',
        (48 + n / 10) as char,
        (48 + n % 10) as char,
        '~',
    ] by {
        assert(decimal_text(n) == seq![(48 + n / 10) as char, (48 + n % 10) as char]);
        assert(numbered_text(n as int, '~', 1) =~= seq![
            '\u{1b}',
            '[',
            (48 + n / 10) as char,
            (48 + n % 10) as char,
            '~',
        ]);
    }
}

/// The digit that stands for the modifiers that are held, one for none: shift
/// counts one, alt two and control four.
pub open spec fn modifier_digit(control: bool, alt: bool, shift: bool) -> char {
    match (control, alt, shift) {
        (false, false, false) => '1',
        (false, false, true) => '2',
        (false, true, false) => '3',
        (false, true, true) => '4',
        (true, false, false) => '5',
        (true, false, true) => '6',
        (true, true, false) => '7',
        (true, true, true) => '8',
    }
}

/// Where a modifier is held, the sequence of a key names the modifiers too,
/// whatever the mode.
pub proof fn modified_keys_name_their_modifiers(key: KeyView, modes: TerminalModes)
    requires
        key.modifiers.control || key.modifiers.alt || key.modifiers.shift,
        !key.modifiers.platform && !key.modifiers.function,
    ensures
        ({
            let sent = key_text(key, modes);
            let held = modifier_digit(key.modifiers.control, key.modifiers.alt, key.modifiers.shift);
            &&& key.key == "enter"@ || key.key == "return"@ ==> sent == Some(seq!['\r'])
            &&& key.key == "escape"@ ==> sent == Some(seq!['\u{1b}'])
            &&& key.key == "backspace"@ && key.modifiers.alt ==> sent == Some(
                seq!['\u{1b}', '\u{7f}'],
            )
            &&& key.key == "backspace"@ && !key.modifiers.alt && key.modifiers.control ==> sent
                == Some(seq!['\u{8}'])
            &&& key.key == "backspace"@ && !key.modifiers.alt && !key.modifiers.control ==> sent
                == Some(seq!['\u{7f}'])
            &&& key.key == "tab"@ && !key.modifiers.control && !key.modifiers.alt ==> sent == Some(
                seq!['\u{1b}', '[', 'Z'],
            )
            &&& key.key == "tab"@ && (key.modifiers.control || key.modifiers.alt) ==> sent == Some(
                seq!['\t'],
            )
            &&& key.key == "up"@ ==> sent == Some(seq!['\u{1b}', '[', '1', ';', held, 'A'])
            &&& key.key == "down"@ ==> sent == Some(seq!['\u{1b}', '[', '1', ';', held, 'B'])
            &&& key.key == "right"@ ==> sent == Some(seq!['\u{1b}', '[', '1', ';', held, 'C'])
            &&& key.key == "left"@ ==> sent == Some(seq!['\u{1b}', '[', '1', ';', held, 'D'])
            &&& key.key == "home"@ ==> sent == Some(seq!['\u{1b}', '[', '1', ';', held, 'H'])
            &&& key.key == "end"@ ==> sent == Some(seq!['\u{1b}', '[', '1', ';', held, 'F'])
            &&& key.key == "f1"@ ==> sent == Some(seq!['\u{1b}', '[', '1', ';', held, 'P'])
            &&& key.key == "f2"@ ==> sent == Some(seq!['\u{1b}', '[', '1', ';', held, 'Q'])
            &&& key.key == "f3"@ ==> sent == Some(seq!['\u{1b}', '[', '1', ';', held, 'R'])
            &&& key.key == "f4"@ ==> sent == Some(seq!['\u{1b}', '[', '1', ';', held, 'S'])
            &&& key.key == "insert"@ ==> sent == Some(seq!['\u{1b}', '[', '2', ';', held, '~'])
            &&& key.key == "delete"@ ==> sent == Some(seq!['\u{1b}', '[', '3', ';', held, '~'])
            &&& key.key == "pageup"@ ==> sent == Some(seq!['\u{1b}', '[', '5', ';', held, '~'])
            &&& key.key == "pagedown"@ ==> sent == Some(seq!['\u{1b}', '[', '6', ';', held, '~'])
            &&& key.key == "f5"@ ==> sent == Some(seq!['\u{1b}', '[', '1', '5', ';', held, '~'])
            &&& key.key == "f6"@ ==> sent == Some(seq!['\u{1b}', '[', '1', '7', ';', held, '~'])
            &&& key.key == "f7"@ ==> sent == Some(seq!['\u{1b}', '[', '1', '8', ';', held, '~'])
            &&& key.key == "f8"@ ==> sent == Some(seq!['\u{1b}', '[', '1', '9', ';', held, '~'])
            &&& key.key == "f9"@ ==> sent == Some(seq!['\u{1b}', '[', '2', '0', ';', held, '~'])
            &&& key.key == "f10"@ ==> sent == Some(seq!['\u{1b}', '[', '2', '1', ';', held, '~'])
            &&& key.key == "f11"@ ==> sent == Some(seq!['\u{1b}', '[', '2', '3', ';', held, '~'])
            &&& key.key == "f12"@ ==> sent == Some(seq!['\u{1b}', '[', '2', '4', ';', held, '~'])
        }),
{
    lemma_key_names();
    lemma_small_numbers();
    let modifier = modifier_parameter(key.modifiers);
    let held = modifier_digit(key.modifiers.control, key.modifiers.alt, key.modifiers.shift);
    assert(2 <= modifier <= 8);
    assert(decimal_text(modifier as nat) == seq![held]);
    assert forall|last: char, application: bool| #[trigger]
        cursor_text(last, modifier, application) == seq!['\u{1b}', '[', '1', ';', held, last] by {
        assert(cursor_text(last, modifier, application) =~= seq![
            '\u{1b}',
            '[',
            '1',
            ';',
            held,
            last,
        ]);
    }
    assert forall|n: nat| 0 <= n < 10 implies #[trigger] numbered_text(n as int, '~', modifier)
        == seq!['\u{1b}', '[', (48 + n) as char, ';', held, '~'] by {
        assert(decimal_text(n) == seq![(48 + n) as char]);
        assert(numbered_text(n as int, '~', modifier) =~= seq![
            '\u{1b}',
            '[',
            (48 + n) as char,
            ';',
            held,
            '~',
        ]);
    }
    assert forall|n: nat| 10 <= n < 100 implies #[trigger] numbered_text(n as int, '~', modifier)
        == seq!['\u{1b}', '[', (48 + n / 10) as char, (48 + n % 10) as char, ';', held, '~'] by {
        assert(decimal_text(n) == seq![(48 + n / 10) as char, (48 + n % 10) as char]);
        assert(numbered_text(n as int, '~', modifier) =~= seq![
            '\u{1b}',
            '[',
            (48 + n / 10) as char,
            (48 + n % 10) as char,
            ';',
            held,
            '~',
        ]);
    }
}

/// The key moves the cursor.
pub open spec fn is_cursor_key(name: Seq<char>) -> bool {
    name == "up"@ || name == "down"@ || name == "right"@ || name == "left"@ || name == "home"@
        || name == "end"@
}

/// Two keys that move the cursor never send the same, whatever else is held
/// with either and in whatever mode.
pub proof fn cursor_keys_are_told_apart(
    one: KeyView,
    other: KeyView,
    modes: TerminalModes,
    other_modes: TerminalModes,
)
    requires
        is_cursor_key(one.key),
        is_cursor_key(other.key),
        one.key != other.key,
        !one.modifiers.platform && !one.modifiers.function,
        !other.modifiers.platform && !other.modifiers.function,
    ensures
        key_text(one, modes) is Some,
        key_text(other, other_modes) is Some,
        key_text(one, modes) != key_text(other, other_modes),
        (key_text(one, modes)->0).last() != (key_text(other, other_modes)->0).last(),
{
    if one.modifiers.control || one.modifiers.alt || one.modifiers.shift {
        modified_keys_name_their_modifiers(one, modes);
    } else {
        unmodified_keys_send_their_sequences(one, modes);
    }
    if other.modifiers.control || other.modifiers.alt || other.modifiers.shift {
        modified_keys_name_their_modifiers(other, other_modes);
    } else {
        unmodified_keys_send_their_sequences(other, other_modes);
    }
}

/// A key whose name is one character is no special key.
proof fn lemma_characters_are_not_special(name: Seq<char>)
    requires
        name.len() == 1,
    ensures
        key_named(name) is None,
        name != "space"@,
{
    reveal_strlit("enter");
    reveal_strlit("return");
    reveal_strlit("backspace");
    reveal_strlit("tab");
    reveal_strlit("escape");
    reveal_strlit("left");
    reveal_strlit("right");
    reveal_strlit("up");
    reveal_strlit("down");
    reveal_strlit("home");
    reveal_strlit("end");
    reveal_strlit("insert");
    reveal_strlit("delete");
    reveal_strlit("pageup");
    reveal_strlit("pagedown");
    reveal_strlit("f1");
    reveal_strlit("f2");
    reveal_strlit("f3");
    reveal_strlit("f4");
    reveal_strlit("f5");
    reveal_strlit("f6");
    reveal_strlit("f7");
    reveal_strlit("f8");
    reveal_strlit("f9");
    reveal_strlit("f10");
    reveal_strlit("f11");
    reveal_strlit("f12");
    reveal_strlit("space");
}

/// Control with a letter, or with one of the characters around the letters in
/// ASCII, sends the control character that has its last five bits; some digits
/// stand for characters that are hard to type, and nothing else is sent.
pub proof fn control_sends_control_characters(key: KeyView, modes: TerminalModes)
    requires
        key.modifiers.control,
        !key.modifiers.platform && !key.modifiers.function,
        key.key.len() == 1,
        key.key_char is None,
    ensures
        ({
            let code = key.key[0] as int;
            let sent = key_text(key, modes);
            &&& 64 <= code < 96 || 97 <= code <= 122 || code == 32 ==> sent == Some(
                seq![(code % 32) as char],
            )
            &&& code == 50 ==> sent == Some(seq!['\u{0}'])
            &&& 51 <= code <= 55 ==> sent == Some(seq![(code - 24) as char])
            &&& code == 56 || code == 63 ==> sent == Some(seq!['\u{7f}'])
            &&& code < 32 || 33 <= code <= 49 || 57 <= code <= 62 || code == 96 || code > 122
                ==> sent is None
        }),
{
    lemma_characters_are_not_special(key.key);
}

/// A key that types a text sends it, all of it and nothing else, behind an
/// escape character where alt is held.
pub proof fn typed_text_is_sent(key: KeyView, modes: TerminalModes)
    requires
        key.key.len() == 1,
        !key.modifiers.control && !key.modifiers.platform && !key.modifiers.function,
    ensures
        ({
            let typed = if key.key_char is Some && key.key_char->0.len() > 0 {
                key.key_char->0
            } else {
                key.key
            };
            let sent = key_text(key, modes);
            &&& !key.modifiers.alt ==> sent == Some(typed)
            &&& key.modifiers.alt ==> sent is Some && (sent->0).len() == typed.len() + 1
                && (sent->0)[0] == '\u{1b}' && (sent->0).skip(1) == typed
        }),
{
    lemma_characters_are_not_special(key.key);
    let typed = plain_text(key)->0;
    assert((seq!['\u{1b}'] + typed).skip(1) =~= typed);
}

/// A pasted text arrives as it is; where the program asked for it, it stands
/// between two marks that are no part of it.
pub proof fn pasted_text_is_sent(text: Seq<char>)
    ensures
        pasted(text, false) == text,
        ({
            let sent = pasted(text, true);
            &&& sent.len() == text.len() + 12
            &&& sent.take(6) == seq!['\u{1b}', '[', '2', '0', '0', '~']
            &&& sent.subrange(6, 6 + text.len() as int) == text
            &&& sent.skip(6 + text.len() as int) == seq!['\u{1b}', '[', '2', '0', '1', '~']
        }),
{
    let sent = pasted(text, true);
    assert(sent.take(6) =~= seq!['\u{1b}', '[', '2', '0', '0', '~']);
    assert(sent.subrange(6, 6 + text.len() as int) =~= text);
    assert(sent.skip(6 + text.len() as int) =~= seq!['\u{1b}', '[', '2', '0', '1', '~']);
}

/// Scrolling on the alternate screen sends one cursor key for each line, a
/// hundred at most.
pub proof fn a_scroll_is_sent_line_by_line(lines: int, sequence: Seq<char>, at: int)
    requires
        0 <= at < scroll_count(lines) * sequence.len(),
    ensures
        0 <= scroll_count(lines) <= 100,
        -100 <= lines <= 100 ==> scroll_count(lines) == lines || scroll_count(lines) == -lines,
        lines > 100 || lines < -100 ==> scroll_count(lines) == 100,
        alternate_scroll(scroll_count(lines), sequence).len() == scroll_count(lines)
            * sequence.len(),
        alternate_scroll(scroll_count(lines), sequence)[at] == sequence[at % sequence.len() as int],
{
    lemma_scroll_length(scroll_count(lines), sequence);
    lemma_scroll_characters(scroll_count(lines), sequence, at);
}

proof fn lemma_scroll_length(count: int, sequence: Seq<char>)
    requires
        count >= 0,
    ensures
        alternate_scroll(count, sequence).len() == count * sequence.len(),
    decreases count,
{
    if count > 0 {
        lemma_scroll_length(count - 1, sequence);
        assert((count - 1) * sequence.len() + sequence.len() == count * sequence.len())
            by (nonlinear_arith);
    } else {
        assert(count * sequence.len() == 0) by (nonlinear_arith)
            requires
                count == 0,
        ;
    }
}

proof fn lemma_scroll_characters(count: int, sequence: Seq<char>, at: int)
    requires
        0 <= at < count * sequence.len(),
    ensures
        alternate_scroll(count, sequence)[at] == sequence[at % sequence.len() as int],
    decreases count,
{
    let length = sequence.len() as int;
    assert(count > 0 && length > 0) by (nonlinear_arith)
        requires
            0 <= at < count * length,
            length >= 0,
    ;
    lemma_scroll_length(count - 1, sequence);
    assert((count - 1) * length + length == count * length) by (nonlinear_arith);
    if at < (count - 1) * length {
        lemma_scroll_characters(count - 1, sequence, at);
    } else {
        let within = at - (count - 1) * length;
        vstd::arithmetic::div_mod::lemma_fundamental_div_mod_converse(
            at,
            length,
            count - 1,
            within,
        );
    }
}

/// Together with control it is what a key types that counts, by its first
/// character, and else the key itself; the space bar sends a zero.
pub proof fn control_goes_by_what_is_typed(key: Seq<char>, typed: Seq<char>)
    requires
        key.len() == 1,
        typed.len() > 0,
    ensures
        97 <= typed[0] as int <= 122 ==> control_text(key, Some(typed)) == Some(
            seq![(typed[0] as int - 96) as char],
        ),
        97 <= key[0] as int <= 122 ==> control_text(key, None) == Some(
            seq![(key[0] as int - 96) as char],
        ),
        97 <= key[0] as int <= 122 ==> control_text(key, Some(Seq::empty())) == Some(
            seq![(key[0] as int - 96) as char],
        ),
        control_text("space"@, Some(typed)) == Some(seq!['\u{0}']),
        control_text("space"@, None) == Some(seq!['\u{0}']),
{
    reveal_strlit("space");
    assert("space"@.len() == 5);
}

} // verus!
