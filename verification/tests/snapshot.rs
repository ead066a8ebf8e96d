//! Screens as values, and how they travel.
use std::sync::Arc;

use alacritty_terminal::event::VoidListener;
use alacritty_terminal::grid::Scroll;
use alacritty_terminal::term::cell::Flags;
use alacritty_terminal::term::{Config, Term};
use alacritty_terminal::vte::ansi::{Processor, StdSyncHandler};
use water::ids::TerminalId;
use water::terminal::snapshot::{
    scrollback_row_bytes, CellStyle, TerminalCell, TerminalCellFlags, TerminalColor, TerminalCursor,
    TerminalModes, TerminalProcessState, TerminalSize, TerminalSnapshot, MAX_COLUMNS, MAX_LINES,
    VIEWPORT_OVERSCAN_ROWS,
};
use water::terminal::wire::{CellWire, SnapshotWire};

fn test_term(size: TerminalSize, scrollback_lines: usize) -> Term<VoidListener> {
    Term::new(
        Config { scrolling_history: scrollback_lines, ..Config::default() },
        &size,
        VoidListener,
    )
}

fn taken(
    terminal_id: TerminalId,
    term: &Term<VoidListener>,
    revision: u64,
) -> TerminalSnapshot {
    assert!(TerminalSnapshot::grid_fits(term.grid()));
    TerminalSnapshot::from_term(
        terminal_id,
        term.grid(),
        term.mode().bits(),
        TerminalProcessState::Running,
        revision,
    )
}

#[test]
fn extracts_nearest_overscan_rows_and_respects_grid_bounds() {
    let terminal_id = TerminalId::new(1);
    let size = TerminalSize::new(8, 2);
    let mut term = test_term(size, 8);
    let mut processor = Processor::<StdSyncHandler>::new();
    processor.advance(&mut term, b"zero\r\none\r\ntwo\r\nthree\r\nfour\r\nfive\r\n");

    let at_bottom = taken(terminal_id, &term, 1);
    assert!(at_bottom.rows_before.len() > 1);
    assert!(at_bottom.rows_before.len() <= VIEWPORT_OVERSCAN_ROWS);
    assert!(at_bottom.rows_after.is_empty());
    assert_eq!(at_bottom.relative_row(-1), Some(at_bottom.rows_before[0].as_ref()));
    assert_eq!(at_bottom.relative_row(0), Some(at_bottom.rows[0].as_ref()));

    term.scroll_display(Scroll::Delta(1));
    let (one_row_up, materialized_cells) = TerminalSnapshot::from_term_with_previous_counted(
        terminal_id,
        term.grid(),
        term.mode().bits(),
        TerminalProcessState::Running,
        2,
        1,
        Some(&at_bottom),
    );
    assert_eq!(materialized_cells, 0);
    assert_eq!(one_row_up.rows_before.len() + 1, at_bottom.rows_before.len());
    assert_eq!(one_row_up.rows_after.len(), 1);
    assert_eq!(one_row_up.rows[0].as_ref(), at_bottom.rows_before[0].as_ref());
    assert!(Arc::ptr_eq(&one_row_up.rows[0], &at_bottom.rows_before[0]));
    assert_eq!(one_row_up.rows_after[0].as_ref(), at_bottom.rows[1].as_ref());
    assert!(Arc::ptr_eq(&one_row_up.rows_after[0], &at_bottom.rows[1]));

    term.scroll_display(Scroll::Top);
    let at_top = taken(terminal_id, &term, 3);
    assert!(at_top.rows_before.is_empty());
    assert!(at_top.rows_after.len() > 1);
    assert!(at_top.rows_after.len() <= VIEWPORT_OVERSCAN_ROWS);
    assert_eq!(at_top.relative_row(size.lines as i32), Some(at_top.rows_after[0].as_ref()));
}

#[test]
fn empty_and_legacy_snapshots_default_to_empty_overscan() {
    let terminal_id = TerminalId::new(1);
    let size = TerminalSize::new(8, 2);
    let empty = TerminalSnapshot::empty(terminal_id, size);
    assert!(empty.rows_before.is_empty());
    assert!(empty.rows_after.is_empty());

    let mut legacy = SnapshotWire::from_snapshot(&empty, false);
    legacy.rows_before = Vec::new();
    legacy.rows_after = Vec::new();
    let decoded = legacy.into_snapshot();
    assert!(decoded.rows_before.is_empty());
    assert!(decoded.rows_after.is_empty());
}

#[test]
fn dim_cell_style_survives_snapshot_projection_and_wire_roundtrip() {
    let flags = TerminalCellFlags::from_alacritty(Flags::DIM.bits());
    assert!(flags.dim());

    let mut snapshot = TerminalSnapshot::empty(TerminalId::new(1), TerminalSize::new(2, 1));
    snapshot.cell_mut(0, 0).unwrap().flags = flags;
    let wire = SnapshotWire::from_snapshot(&snapshot, false);
    let decoded = wire.into_snapshot();
    assert!(decoded.cell(0, 0).unwrap().flags.dim());
}

#[test]
fn negotiated_compact_cell_wire_omits_defaults_and_restores_serializer_mode() {
    let default_cell = TerminalCell::default();
    let full = CellWire::from_cell(&default_cell, false);
    assert_eq!(full.field_count(), 5);

    let compact = CellWire::from_cell(&default_cell, true);
    assert_eq!(compact.field_count(), 0);
    assert_eq!(compact.to_cell(), default_cell);
    assert_eq!(CellWire::from_cell(&default_cell, false).field_count(), 5);

    let mut styled = TerminalCell { character: 'A', ..TerminalCell::default() };
    styled.flags = TerminalCellFlags::from_alacritty(Flags::DIM.bits());
    let compact = CellWire::from_cell(&styled, true);
    let dim = CellStyle { dim: true, ..TerminalCellFlags::default().style() };
    assert_eq!(
        compact,
        CellWire {
            character: Some('A'),
            fg: None,
            bg: None,
            flags: Some(dim),
            zerowidth: None,
        }
    );
    assert_eq!(compact.to_cell(), styled);
}

#[test]
fn every_style_bit_is_read() {
    let cases = [
        (Flags::INVERSE, CellStyle { inverse: true, ..plain() }),
        (Flags::BOLD, CellStyle { bold: true, ..plain() }),
        (Flags::ITALIC, CellStyle { italic: true, ..plain() }),
        (Flags::UNDERLINE, CellStyle { underline: true, ..plain() }),
        (Flags::DOUBLE_UNDERLINE, CellStyle { underline: true, ..plain() }),
        (Flags::UNDERCURL, CellStyle { underline: true, ..plain() }),
        (Flags::DOTTED_UNDERLINE, CellStyle { underline: true, ..plain() }),
        (Flags::DASHED_UNDERLINE, CellStyle { underline: true, ..plain() }),
        (Flags::STRIKEOUT, CellStyle { strike: true, ..plain() }),
        (Flags::WIDE_CHAR, CellStyle { wide: true, ..plain() }),
        (Flags::WIDE_CHAR_SPACER, CellStyle { wide_spacer: true, ..plain() }),
        (Flags::LEADING_WIDE_CHAR_SPACER, CellStyle { leading_wide_spacer: true, ..plain() }),
        (Flags::WRAPLINE, CellStyle { wrapline: true, ..plain() }),
        (Flags::DIM, CellStyle { dim: true, ..plain() }),
        (Flags::HIDDEN, plain()),
        (Flags::BOLD_ITALIC, CellStyle { bold: true, italic: true, ..plain() }),
    ];
    for (flags, style) in cases {
        assert_eq!(TerminalCellFlags::from_alacritty(flags.bits()).style(), style);
        assert_eq!(TerminalCellFlags::from_style(style).style(), style);
    }
}

fn plain() -> CellStyle {
    TerminalCellFlags::default().style()
}

#[test]
fn cells_keep_their_text_colours_and_marks() {
    let size = TerminalSize::new(12, 2);
    let mut term = test_term(size, 8);
    let mut processor = Processor::<StdSyncHandler>::new();
    processor.advance(
        &mut term,
        "\x1b[1;31ma\x1b[0me\u{301}\u{754c}\x1b[38;2;1;2;3mz\x1b[48;5;200my".as_bytes(),
    );
    let snapshot = taken(TerminalId::new(1), &term, 1);
    let bold = snapshot.cell(0, 0).unwrap();
    assert_eq!(bold.character, 'a');
    assert!(bold.flags.bold());
    assert_eq!(bold.fg, TerminalColor::Named { value: 1 });
    let accented = snapshot.cell(0, 1).unwrap();
    assert_eq!(accented.character, 'e');
    assert_eq!(accented.marks(), &['\u{301}']);
    assert_eq!(accented.fg, TerminalColor::Named { value: 256 });
    assert_eq!(accented.bg, TerminalColor::Named { value: 257 });
    assert!(snapshot.cell(0, 2).unwrap().flags.wide());
    assert!(snapshot.cell(0, 3).unwrap().flags.wide_spacer());
    let coloured = snapshot.cell(0, 4).unwrap();
    assert_eq!(coloured.fg, TerminalColor::Rgb { red: 1, green: 2, blue: 3 });
    assert_eq!(snapshot.cell(0, 5).unwrap().bg, TerminalColor::Indexed { value: 200 });
    assert_eq!(snapshot.cell(2, 0), None);
    assert_eq!(snapshot.cell(0, 12), None);
    assert!(snapshot.visible_text().starts_with("ae\u{301}\u{754c}zy"));
    assert!(snapshot.contains_text("\u{754c}z"));
    assert!(!snapshot.contains_text("zz"));
    assert_eq!(snapshot.cell_count(), 24);
}

#[test]
fn mode_bits_are_those_of_the_emulator() {
    let size = TerminalSize::new(8, 2);
    let cases: [(&[u8], TerminalModes); 8] = [
        (b"\x1b[?1h", TerminalModes { application_cursor: true, ..quiet() }),
        (b"\x1b[?2004h", TerminalModes { bracketed_paste: true, ..quiet() }),
        (b"\x1b[?1000h", TerminalModes { mouse_reporting: true, ..quiet() }),
        (
            b"\x1b[?1002h",
            TerminalModes { mouse_reporting: true, mouse_drag: true, ..quiet() },
        ),
        (
            b"\x1b[?1003h",
            TerminalModes { mouse_reporting: true, mouse_motion: true, ..quiet() },
        ),
        (b"\x1b[?1006h", TerminalModes { sgr_mouse: true, ..quiet() }),
        (b"\x1b[?1005h", TerminalModes { utf8_mouse: true, ..quiet() }),
        (b"\x1b[?1049h", TerminalModes { alternate_screen: true, ..quiet() }),
    ];
    for (sequence, modes) in cases {
        let mut term = test_term(size, 8);
        let mut processor = Processor::<StdSyncHandler>::new();
        processor.advance(&mut term, sequence);
        assert_eq!(taken(TerminalId::new(1), &term, 1).modes, modes);
    }
    let mut term = test_term(size, 8);
    let mut processor = Processor::<StdSyncHandler>::new();
    processor.advance(&mut term, b"\x1b[?1007l");
    assert!(!taken(TerminalId::new(1), &term, 1).modes.alternate_scroll);
}

/// The modes that a terminal starts with.
fn quiet() -> TerminalModes {
    TerminalModes { alternate_scroll: true, ..TerminalModes::default() }
}

#[test]
fn a_screen_survives_the_wire_without_its_history() {
    let size = TerminalSize::new(8, 2);
    let mut term = test_term(size, 8);
    let mut processor = Processor::<StdSyncHandler>::new();
    processor.advance(&mut term, b"zero\r\none\r\n\x1b[1mtwo\r\nthree\r\nfour");
    term.scroll_display(Scroll::Delta(1));
    let mut snapshot = taken(TerminalId::new(3), &term, 4);
    snapshot.process_name = "zsh".to_owned();
    snapshot.cwd = "/tmp".to_owned();
    assert!(snapshot.history_len > 0);
    assert_eq!(snapshot.history_bottom, snapshot.history_len);
    for compact in [false, true] {
        let decoded = SnapshotWire::from_snapshot(&snapshot, compact).into_snapshot();
        assert_eq!(decoded.rows, snapshot.rows);
        assert_eq!(decoded.rows_before, snapshot.rows_before);
        assert_eq!(decoded.rows_after, snapshot.rows_after);
        assert_eq!(decoded.process_name, "zsh");
        assert_eq!(decoded.cwd, "/tmp");
        assert_eq!(decoded.revision, 4);
        assert_eq!(decoded.display_offset, 1);
        assert_eq!((decoded.history_len, decoded.history_bottom), (0, 0));
    }
}

#[test]
fn cells_that_are_missing_on_the_wire_are_blank() {
    let empty = TerminalSnapshot::empty(TerminalId::new(1), TerminalSize::new(3, 2));
    let mut wire = SnapshotWire::from_snapshot(&empty, true);
    assert_eq!(wire.cells.len(), 6);
    wire.cells.truncate(1);
    wire.cells[0].character = Some('x');
    let decoded = wire.into_snapshot();
    assert_eq!(decoded.visible_text(), "x  \n   ");
}

#[test]
fn a_tail_keeps_the_last_rows() {
    let size = TerminalSize::new(8, 4);
    let mut term = test_term(size, 8);
    let mut processor = Processor::<StdSyncHandler>::new();
    processor.advance(&mut term, b"one\r\ntwo\r\nthree\r\nfour");
    let snapshot = taken(TerminalId::new(1), &term, 1);
    let tail = snapshot.compacted_tail(2);
    assert_eq!(tail.size, TerminalSize { columns: 8, lines: 2 });
    assert_eq!(tail.visible_text(), "three   \nfour    ");
    assert_eq!(tail.cursor, TerminalCursor { row: 1, column: 4, visible: true });
    assert!(tail.rows_before.is_empty());
    assert_eq!(snapshot.compacted_tail(0).size.lines, 1);
    assert_eq!(snapshot.compacted_tail(100).size.lines, 4);
}

#[test]
fn a_summary_has_no_cells() {
    let mut snapshot = TerminalSnapshot::empty(TerminalId::new(5), TerminalSize::new(8, 4));
    snapshot.process_name = "vim".to_owned();
    snapshot.cwd = "/srv".to_owned();
    snapshot.process = TerminalProcessState::Exited { code: Some(2) };
    let summary = snapshot.summary();
    assert_eq!(summary.terminal_id, TerminalId::new(5));
    assert_eq!(summary.size, TerminalSize::new(8, 4));
    assert_eq!(summary.process_name, "vim");
    assert_eq!(summary.cwd, "/srv");
    assert_eq!(summary.process, TerminalProcessState::Exited { code: Some(2) });
}

#[test]
fn geometry_is_clamped() {
    assert_eq!(TerminalSize::new(0, 0), TerminalSize { columns: 2, lines: 1 });
    assert_eq!(
        TerminalSize::new(usize::MAX, usize::MAX),
        TerminalSize { columns: MAX_COLUMNS, lines: MAX_LINES }
    );
    assert_eq!(TerminalSize::default(), TerminalSize { columns: 80, lines: 24 });
}

#[test]
fn a_row_costs_its_cells_and_an_overhead() {
    let cell = scrollback_row_bytes(2) - scrollback_row_bytes(1);
    assert_eq!(scrollback_row_bytes(80), 80 * cell + 64);
    assert_eq!(scrollback_row_bytes(0), scrollback_row_bytes(1));
    assert_eq!(
        cell,
        core::mem::size_of::<alacritty_terminal::term::cell::Cell>()
    );
}
