//! Colours that a program sets.
use std::sync::Arc;

use water::ids::TerminalId;
use water::terminal::emulator::TerminalEmulator;
use water::terminal::palette::{ColorFilter, MAX_COLOR_DIGITS};
use water::terminal::snapshot::TerminalSize;
use water::terminal::stream::TerminalStreamEvent;
use water::terminal::TerminalTheme;

fn digits(count: usize) -> String {
    "0".repeat(count)
}

fn filtered(text: &str) -> String {
    String::from_utf8(ColorFilter::new().feed(text.as_bytes())).unwrap()
}

#[test]
fn a_colour_keeps_the_digits_that_it_may_have() {
    let most = MAX_COLOR_DIGITS as usize;
    for command in ["10;", "11;", "12;", "4;1;", "4;1;rgb:1/2/3;2;"] {
        let proper = format!("a\u{1b}]{command}#{}\u{7}#b", digits(most));
        assert_eq!(filtered(&proper), proper);
        for count in [most + 1, 47, 49, 400] {
            let long = format!("a\u{1b}]{command}#{}\u{7}#b", digits(count));
            assert_eq!(filtered(&long), proper);
        }
    }
}

#[test]
fn what_sets_no_colour_is_left_alone() {
    let long = digits(60);
    for text in [
        format!("#{long}"),
        format!("\u{1b}]0;#{long}\u{7}"),
        format!("\u{1b}]2;#{long}\u{1b}\\"),
        format!("\u{1b}]104;#{long}\u{7}"),
        format!("\u{1b}]4;1;rgb:{long}\u{7}"),
        format!("\u{1b}]10;x#{long}\u{7}"),
        format!("\u{1b}[31m#{long}"),
        format!("\u{1b}]10;#fff\u{7}#{long}"),
        format!("\u{1b}]10;#fff\u{18}#{long}"),
    ] {
        assert_eq!(filtered(&text), text);
    }
}

#[test]
fn digits_are_counted_over_pieces_of_output() {
    let text = format!("\u{1b}]4;1;#{};2;#{}\u{7}", digits(50), digits(6));
    let whole = filtered(&text);
    assert_eq!(whole, format!("\u{1b}]4;1;#{};2;#{}\u{7}", digits(22), digits(6)));
    for cut in 0..=text.len() {
        let mut filter = ColorFilter::new();
        let mut kept = filter.feed(&text.as_bytes()[..cut]);
        kept.extend(filter.feed(&text.as_bytes()[cut..]));
        assert_eq!(kept, whole.as_bytes());
    }
}

#[test]
fn the_emulator_takes_a_colour_of_any_length() {
    let size = TerminalSize::new(20, 4);
    let mut seq = 0;
    for count in [3, 12, 16, 22, 46, 47, 48, 49, 64, 500] {
        let mut emulator = TerminalEmulator::with_theme(
            TerminalId::new(1),
            size,
            100,
            TerminalTheme::new(0x112233, 0x445566, 0x778899),
        );
        emulator.start_live();
        let text = format!(
            "\u{1b}]4;1;#{};2;#{}\u{7}\u{1b}]10;#{};?\u{7}shown",
            digits(count),
            digits(count),
            digits(count)
        );
        for byte in text.as_bytes() {
            seq += 1;
            let bytes: Arc<[u8]> = Arc::from(vec![*byte]);
            emulator.apply(&TerminalStreamEvent::Output { seq, size, bytes });
        }
        assert!(emulator.snapshot(None).visible_text().starts_with("shown"));
        // The question behind the colour is answered all the same.
        assert_eq!(emulator.pty_writes(), vec![b"\x1b]11;rgb:4444/5555/6666\x07".to_vec()]);
        seq = 0;
    }
}
