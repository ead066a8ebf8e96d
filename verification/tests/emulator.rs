//! The emulator that rebuilds a screen from its event stream.
use std::sync::Arc;

use water::ids::TerminalId;
use water::terminal::emulator::{EmulatorEffect, TerminalEmulator};
use water::terminal::screen::terminal_dynamic_color;
use water::terminal::snapshot::{TerminalProcessState, TerminalSize};
use water::terminal::stream::{TerminalSeq, TerminalStreamEvent};
use water::terminal::TerminalTheme;

fn output(seq: TerminalSeq, bytes: &[u8], size: TerminalSize) -> TerminalStreamEvent {
    TerminalStreamEvent::Output { seq, size, bytes: Arc::from(bytes.to_vec()) }
}

#[test]
fn replay_then_live_rebuilds_the_same_screen() {
    let size = TerminalSize::new(80, 24);
    let mut replay_emulator = TerminalEmulator::new(TerminalId::new(1), size, 500);
    let mut live_emulator = TerminalEmulator::new(TerminalId::new(1), size, 500);
    live_emulator.start_live();

    let history: [&[u8]; 3] = [b"line one\r\n", b"line two\r\n", b"line three\r\n"];
    for (index, chunk) in history.iter().enumerate() {
        let event = output(index as TerminalSeq + 1, chunk, size);
        replay_emulator.apply(&event);
        live_emulator.apply(&event);
    }
    assert_eq!(
        replay_emulator.snapshot(None).visible_text(),
        live_emulator.snapshot(None).visible_text()
    );
    assert!(live_emulator.snapshot(None).visible_text().contains("line three"));
}

#[test]
fn duplicate_sequences_are_skipped() {
    let size = TerminalSize::new(80, 24);
    let mut emulator = TerminalEmulator::new(TerminalId::new(2), size, 100);
    let first = output(1, b"hello", size);
    emulator.apply(&first);
    // The live tail overlaps the replay tail by design.
    let effects = emulator.apply(&first);
    assert!(effects.is_empty());
    let second = output(2, b" world", size);
    emulator.apply(&second);
    assert_eq!(
        emulator
            .snapshot(None)
            .visible_text()
            .lines()
            .next()
            .unwrap_or("")
            .trim_end(),
        "hello world"
    );
}

#[test]
fn scrollback_pins_the_viewport_while_scrolled_up() {
    let size = TerminalSize::new(10, 3);
    let mut emulator = TerminalEmulator::new(TerminalId::new(3), size, 100);
    for i in 0..30u32 {
        emulator.apply(&output(
            i as TerminalSeq + 1,
            &format!("row {i}\r\n").into_bytes(),
            size,
        ));
    }
    assert!(emulator.history_len() > 0);
    emulator.scroll_by(2);
    let position_before = emulator.viewport_position();
    assert!(position_before > 0);
    let visible_before = emulator.snapshot(None).visible_text();
    // Explicitly pin the viewport for browsing.
    emulator.set_viewport_pinned(true);
    // More output while scrolled up: the viewport stays pinned.
    for i in 30..60u32 {
        emulator.apply(&output(
            i as TerminalSeq + 1,
            &format!("row {i}\r\n").into_bytes(),
            size,
        ));
    }
    assert_eq!(
        emulator.viewport_position(),
        position_before,
        "pinned viewport must not move when new output arrives"
    );
    assert_eq!(
        emulator.snapshot(None).visible_text(),
        visible_before,
        "output behind a pinned viewport must not move the visible rows"
    );
    emulator.scroll_to_bottom();
    assert!(emulator.at_bottom());
    assert_eq!(emulator.viewport_position(), 0);
}

#[test]
fn pinned_viewport_scrolling_down_follows_content() {
    let size = TerminalSize::new(10, 3);
    let mut emulator = TerminalEmulator::new(TerminalId::new(5), size, 100);
    for i in 0..30u32 {
        emulator.apply(&output(
            i as TerminalSeq + 1,
            &format!("row {i}\r\n").into_bytes(),
            size,
        ));
    }
    emulator.scroll_by(5);
    emulator.set_viewport_pinned(true);
    let pos = emulator.viewport_position();
    // Scroll down 2 rows (toward live): viewport should move down and the pin
    // position should update to the new offset.
    emulator.scroll_by(-2);
    assert_eq!(emulator.viewport_position(), pos - 2);
    // New output while still pinned at the new position: viewport stays.
    emulator.apply(&output(31, &b"new row 1\r\nnew row 2\r\n".to_vec()[..], size));
    assert_eq!(
        emulator.viewport_position(),
        pos - 2,
        "pinned viewport must stay after user scrolled down"
    );
    emulator.scroll_to_bottom();
    assert!(emulator.at_bottom());
}

#[test]
fn pinned_viewport_scroll_to_unpins() {
    let size = TerminalSize::new(10, 3);
    let mut emulator = TerminalEmulator::new(TerminalId::new(6), size, 100);
    for i in 0..30u32 {
        emulator.apply(&output(
            i as TerminalSeq + 1,
            &format!("row {i}\r\n").into_bytes(),
            size,
        ));
    }
    emulator.scroll_by(3);
    emulator.set_viewport_pinned(true);
    let pos = emulator.viewport_position();
    // Scroll to a non-zero position: stays pinned.
    emulator.scroll_to(pos);
    // New output: viewport stays.
    emulator.apply(&output(31, b"a\r\nb\r\nc\r\n".to_vec().as_slice(), size));
    assert_eq!(emulator.viewport_position(), pos);
    // Scroll to bottom: unpins.
    emulator.scroll_to(0);
    assert!(emulator.at_bottom());
}

#[test]
fn pinned_output_can_overflow_temporarily_then_restores_scrollback_limit() {
    let size = TerminalSize::new(12, 3);
    let configured_scrollback = 5;
    let mut emulator = TerminalEmulator::new(TerminalId::new(10), size, configured_scrollback);
    for i in 0..10u32 {
        emulator.apply(&output(
            i as TerminalSeq + 1,
            &format!("old {i}\r\n").into_bytes(),
            size,
        ));
    }
    emulator.scroll_by(2);
    let visible_before = emulator.snapshot(None).visible_text();
    emulator.set_viewport_pinned(true);
    for i in 10..30u32 {
        emulator.apply(&output(
            i as TerminalSeq + 1,
            &format!("new {i}\r\n").into_bytes(),
            size,
        ));
    }
    assert_eq!(emulator.snapshot(None).visible_text(), visible_before);
    assert!(emulator.history_len() > configured_scrollback as i64);

    // Moving toward the live tail is the point at which temporary rows become
    // disposable. The grid must return to the configured bound.
    emulator.scroll_by(-1);
    assert_eq!(emulator.history_len(), configured_scrollback as i64);
}

#[test]
fn protected_scrollback_ignores_split_clear_sequence() {
    let size = TerminalSize::new(12, 3);
    let mut emulator = TerminalEmulator::with_theme_and_scrollback_protection(
        TerminalId::new(8),
        size,
        100,
        TerminalTheme::default(),
        true,
    );
    for i in 0..12u32 {
        emulator.apply(&output(
            i as TerminalSeq + 1,
            &format!("history {i}\r\n").into_bytes(),
            size,
        ));
    }
    emulator.scroll_by(2);
    let visible_before = emulator.snapshot(None).visible_text();
    emulator.advance(b"\x1b[3");
    emulator.advance(b"J");
    let snapshot = emulator.snapshot(None);
    assert_eq!(snapshot.visible_text(), visible_before);
    assert!(
        snapshot
            .rows_before
            .iter()
            .any(|row| row.iter().any(|cell| cell.character != ' ')),
        "protected CSI 3 J must not erase retained history"
    );
}

#[test]
fn alternate_screen_restores_primary_scrollback() {
    let size = TerminalSize::new(12, 3);
    let mut emulator = TerminalEmulator::new(TerminalId::new(9), size, 100);
    emulator.apply(&output(1, b"primary one\r\nprimary two\r\n", size));
    emulator.apply(&output(2, b"\x1b[?1049h\x1b[2J\x1b[Hagent screen", size));
    assert!(emulator.alternate_screen());
    emulator.apply(&output(3, b"\x1b[?1049l", size));
    let snapshot = emulator.snapshot(None);
    assert!(!emulator.alternate_screen());
    assert!(snapshot.visible_text().contains("primary two"));
    assert!(!snapshot.visible_text().contains("agent screen"));
}

#[test]
fn resize_history_is_honored_in_order() {
    let size = TerminalSize::new(10, 3);
    let mut emulator = TerminalEmulator::new(TerminalId::new(4), size, 100);
    emulator.apply(&TerminalStreamEvent::Resize { seq: 1, size: TerminalSize::new(120, 40) });
    assert_eq!(emulator.size(), TerminalSize::new(120, 40));
    emulator.apply(&output(2, b"after resize", TerminalSize::new(120, 40)));
    assert!(emulator.snapshot(None).visible_text().contains("after resize"));
}

#[test]
fn exit_event_records_the_code() {
    let size = TerminalSize::new(10, 3);
    let mut emulator = TerminalEmulator::new(TerminalId::new(5), size, 100);
    let effects = emulator.apply(&TerminalStreamEvent::Exit { seq: 1, code: Some(7) });
    assert_eq!(effects, vec![EmulatorEffect::Exited { code: Some(7) }]);
    assert_eq!(emulator.exited(), Some(Some(7)));
}

#[test]
fn replay_suppresses_terminal_query_writes_and_live_restores_them() {
    let size = TerminalSize::new(80, 24);
    let mut emulator = TerminalEmulator::with_theme(
        TerminalId::new(6),
        size,
        100,
        TerminalTheme::new(0x112233, 0x445566, 0x778899),
    );
    let historical_queries =
        output(1, b"\x1b[6n\x1b[c\x1b]10;?\x07\x1b]11;?\x07\x1b]12;?\x07", size);
    emulator.apply(&historical_queries);
    assert!(
        emulator.pty_writes().is_empty(),
        "historical DSR/DA/color queries must never write to the live PTY"
    );

    emulator.start_live();
    emulator.apply(&output(2, b"\x1b[6n\x1b[c\x1b]10;?\x07", size));
    assert!(
        !emulator.pty_writes().is_empty(),
        "live terminal query responses must use the shared PTY input path"
    );
}

#[test]
fn live_sequence_gap_requests_a_replay_resync() {
    let size = TerminalSize::new(80, 24);
    let mut emulator = TerminalEmulator::new(TerminalId::new(7), size, 100);
    emulator.apply(&output(10, b"replay", size));
    emulator.start_live();
    let effects = emulator.apply(&output(12, b"gap", size));
    assert_eq!(effects, vec![EmulatorEffect::SequenceGap { expected: 11, actual: 12 }]);
}

#[test]
fn colour_queries_are_answered_with_the_theme() {
    let size = TerminalSize::new(80, 24);
    let mut emulator = TerminalEmulator::with_theme(
        TerminalId::new(6),
        size,
        100,
        TerminalTheme::new(0x112233, 0x445566, 0x778899),
    );
    emulator.start_live();
    emulator.apply(&output(1, b"\x1b]10;?\x07\x1b[6n", size));
    let writes = emulator.pty_writes();
    assert_eq!(
        writes,
        vec![b"\x1b]10;rgb:1111/2222/3333\x07".to_vec(), b"\x1b[1;1R".to_vec()]
    );
    // The writes are handed out once.
    assert!(emulator.pty_writes().is_empty());
}

#[test]
fn dynamic_colours_are_those_of_the_theme() {
    let theme = TerminalTheme::new(0x112233, 0x445566, 0x778899);
    assert_eq!(terminal_dynamic_color(theme, 256), Some((0x11, 0x22, 0x33)));
    assert_eq!(terminal_dynamic_color(theme, 257), Some((0x44, 0x55, 0x66)));
    assert_eq!(terminal_dynamic_color(theme, 258), Some((0x77, 0x88, 0x99)));
    assert_eq!(terminal_dynamic_color(theme, 255), None);
}

#[test]
fn an_unprotected_history_is_cleared() {
    let size = TerminalSize::new(12, 3);
    let mut emulator = TerminalEmulator::new(TerminalId::new(8), size, 100);
    for i in 0..12u32 {
        emulator.apply(&output(
            i as TerminalSeq + 1,
            &format!("history {i}\r\n").into_bytes(),
            size,
        ));
    }
    assert!(emulator.history_len() > 0);
    emulator.advance(b"\x1b[3J");
    assert_eq!(emulator.history_len(), 0);
}

#[test]
fn protection_can_be_changed_later() {
    let size = TerminalSize::new(12, 3);
    let mut emulator = TerminalEmulator::new(TerminalId::new(8), size, 100);
    for i in 0..12u32 {
        emulator.advance(&format!("history {i}\r\n").into_bytes());
    }
    emulator.set_scrollback_protected(true);
    emulator.advance(b"\x1b[3J");
    assert!(emulator.history_len() > 0);
    emulator.set_scrollback_protected(false);
    emulator.advance(b"\x1b[3J");
    assert_eq!(emulator.history_len(), 0);
}

#[test]
fn the_history_limit_can_be_lowered() {
    let size = TerminalSize::new(12, 3);
    let mut emulator = TerminalEmulator::new(TerminalId::new(8), size, 100);
    for i in 0..40u32 {
        emulator.advance(&format!("history {i}\r\n").into_bytes());
    }
    emulator.set_scrollback_lines(10);
    assert_eq!(emulator.history_len(), 10);
}

#[test]
fn scrolling_stays_within_the_history() {
    let size = TerminalSize::new(12, 3);
    let mut emulator = TerminalEmulator::new(TerminalId::new(8), size, 100);
    for i in 0..10u32 {
        emulator.advance(&format!("history {i}\r\n").into_bytes());
    }
    assert_eq!(emulator.history_len(), 8);
    emulator.scroll_by(1_000);
    assert_eq!(emulator.viewport_position(), 8);
    emulator.scroll_by(-3);
    assert_eq!(emulator.viewport_position(), 5);
    emulator.scroll_to(2);
    assert_eq!(emulator.viewport_position(), 2);
    assert!(emulator.try_scroll_by(1));
    assert_eq!(emulator.viewport_position(), 3);
    assert!(emulator.try_scroll_to(0));
    assert!(emulator.at_bottom());
}

#[test]
fn a_screen_carries_its_cursor_and_modes() {
    let size = TerminalSize::new(20, 4);
    let mut emulator = TerminalEmulator::new(TerminalId::new(8), size, 100);
    emulator.advance(b"ab\r\ncd\x1b[?1h\x1b[?2004h\x1b[?1000h\x1b[?1006h");
    assert!(emulator.mouse_reporting());
    assert!(emulator.cursor_visible());
    let snapshot = emulator.try_snapshot(None).unwrap();
    assert_eq!((snapshot.cursor.row, snapshot.cursor.column), (1, 2));
    assert!(snapshot.cursor.visible);
    assert!(snapshot.modes.application_cursor);
    assert!(snapshot.modes.bracketed_paste);
    assert!(snapshot.modes.mouse_reporting);
    assert!(snapshot.modes.sgr_mouse);
    assert!(!snapshot.modes.utf8_mouse);
    assert!(!snapshot.modes.alternate_screen);
    assert_eq!(snapshot.process, TerminalProcessState::Running);
    emulator.advance(b"\x1b[?25l");
    assert!(!emulator.cursor_visible());
    assert!(!emulator.snapshot(None).cursor.visible);
}

#[test]
fn a_batch_is_its_events_in_order() {
    let size = TerminalSize::new(20, 4);
    let mut one_by_one = TerminalEmulator::new(TerminalId::new(8), size, 100);
    let mut at_once = TerminalEmulator::new(TerminalId::new(8), size, 100);
    let events = vec![
        output(1, b"first ", size),
        output(2, b"second", size),
        TerminalStreamEvent::Exit { seq: 3, code: None },
    ];
    let mut effects = Vec::new();
    for event in &events {
        effects.extend(one_by_one.apply(event));
    }
    assert_eq!(at_once.apply_batch(&events), effects);
    assert_eq!(at_once.last_seq(), 3);
    assert!(at_once.take_dirty());
    assert!(!at_once.take_dirty());
    assert_eq!(
        at_once.snapshot(None).visible_text(),
        one_by_one.snapshot(None).visible_text()
    );
}

#[test]
fn only_what_is_new_of_an_overlapping_tail_is_applied() {
    let size = TerminalSize::new(80, 24);
    let events = [output(1, b"one ", size), output(2, b"two ", size), output(3, b"three", size)];
    let mut whole = TerminalEmulator::new(TerminalId::new(7), size, 100);
    whole.apply_batch(&events);
    let mut handed_over = TerminalEmulator::new(TerminalId::new(7), size, 100);
    handed_over.apply_batch(&events[..2]);
    handed_over.start_live();
    let effects = handed_over.apply_batch(&events);
    assert!(effects.is_empty());
    assert_eq!(handed_over.last_seq(), 3);
    assert_eq!(
        handed_over.snapshot(None).visible_text(),
        whole.snapshot(None).visible_text()
    );
}

#[test]
fn a_browsed_history_outlives_a_narrower_window() {
    for lines in [1, 3] {
        let size = TerminalSize::new(12, lines);
        let mut emulator = TerminalEmulator::new(TerminalId::new(11), size, 5);
        for i in 0..10u32 {
            let text = format!("old {i}\r\n").into_bytes();
            emulator.apply(&output(i as TerminalSeq + 1, &text, size));
        }
        emulator.scroll_by(2);
        emulator.set_viewport_pinned(true);
        for i in 10..30u32 {
            let text = format!("new {i}\r\n").into_bytes();
            emulator.apply(&output(i as TerminalSeq + 1, &text, size));
        }
        let rows = emulator.history_len();
        assert!(rows > 5);
        let narrow = TerminalSize::new(4, lines);
        emulator.apply(&TerminalStreamEvent::Resize { seq: 31, size: narrow });
        assert_eq!(emulator.size(), narrow);
        assert!(emulator.history_len() >= rows);
        emulator.scroll_to_bottom();
        assert_eq!(emulator.history_len(), 5);
    }
}

#[test]
fn any_history_limit_is_accepted() {
    let size = TerminalSize::new(10, 2);
    let mut emulator = TerminalEmulator::new(TerminalId::new(12), size, usize::MAX);
    for i in 0..20u32 {
        let text = format!("row {i}\r\n").into_bytes();
        emulator.apply(&output(i as TerminalSeq + 1, &text, size));
    }
    assert_eq!(emulator.history_len(), 19);
    emulator.apply(&TerminalStreamEvent::Resize { seq: 21, size: TerminalSize::new(3, 2) });
    assert!(emulator.history_len() > 19);
    emulator.set_scrollback_lines(usize::MAX);
    emulator.set_viewport_pinned(true);
    emulator.apply(&TerminalStreamEvent::Resize { seq: 22, size: TerminalSize::new(2, 1) });
    assert!(emulator.history_len() > 19);
}
