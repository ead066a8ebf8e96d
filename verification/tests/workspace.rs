//! A window on the workspaces: keys, mouse, selection and text input.
use std::sync::Arc;

use water::ids::{PaneId, TabId, TerminalId, WorkspaceId};
use water::terminal::snapshot::{TerminalModes, TerminalSize, TerminalSnapshot};
use water::ui::bindings::WindowAction;
use water::ui::colors::{color_to_rgb, indexed_color, theme_color, ThemeColors};
use water::ui::input::{
    paste_input, terminal_alternate_scroll_input, terminal_input_for_keystroke_with_modes,
    terminal_key_uses_text_input_handler,
};
use water::ui::keystroke::{Keystroke, Modifiers};
use water::ui::lookup::fitting_model;
use water::ui::mouse::{
    terminal_mouse_button_input, terminal_mouse_input, MouseButton, MouseCell,
};
use water::ui::row::{terminal_row_data, RowOptions};
use water::ui::selection::{
    is_terminal_cell_selected, selected_terminal_text, selection_bounds,
    terminal_selection_endpoint_at, update_terminal_selection_for_viewport, TerminalCellPosition,
    TerminalMousePosition, TerminalSelection, TerminalSelectionEndpoint, TerminalSelectionSide,
};
use water::ui::surface::{pane_content, PaneContent, SurfaceKind};
use water::ui::tree::{LeafTerminal, ModelSnapshot, PaneTreeDump, TabDump, WorkspaceDump};
use water::ui::utf16::{
    normalize_utf16_range, utf16_len, utf16_offset_to_byte, utf16_offset_to_byte_end, TextRange,
};
use water::ui::window::{
    ContextMenuTarget, FocusDirection, RenameTarget, SplitDirection, WindowCommand, WindowFeatures,
};
use water::ui::workspace::WorkspaceView;

fn keystroke(key: &str, key_char: Option<&str>, modifiers: Modifiers) -> Keystroke {
    Keystroke { key: key.to_owned(), key_char: key_char.map(str::to_owned), modifiers }
}

fn control() -> Modifiers {
    Modifiers { control: true, ..Modifiers::none() }
}

fn shift() -> Modifiers {
    Modifiers { shift: true, ..Modifiers::none() }
}

fn endpoint(row: usize, column: usize, side: TerminalSelectionSide) -> TerminalSelectionEndpoint {
    TerminalSelectionEndpoint {
        position: TerminalCellPosition { row: row as i32, column },
        side,
    }
}

fn write(snapshot: &mut TerminalSnapshot, row: usize, text: &str) {
    for (column, character) in text.chars().enumerate() {
        snapshot.cell_mut(row, column).unwrap().character = character;
    }
}

#[test]
fn terminal_input_preserves_printable_text_and_control_bytes() {
    assert!(terminal_key_uses_text_input_handler(&keystroke(
        "a",
        Some("a"),
        Modifiers::none(),
    )));
    assert!(!terminal_key_uses_text_input_handler(&keystroke(
        "enter",
        Some("\r"),
        Modifiers::none(),
    )));
    assert!(!terminal_key_uses_text_input_handler(&keystroke(
        "return",
        None,
        Modifiers::none(),
    )));
    assert_eq!(
        terminal_input_for_keystroke_with_modes(
            &keystroke("a", Some("a"), Modifiers::none()),
            TerminalModes::default(),
        ),
        Some("a".to_owned())
    );
    assert_eq!(
        terminal_input_for_keystroke_with_modes(
            &keystroke("c", Some("c"), control()),
            TerminalModes::default(),
        ),
        Some("\u{3}".to_owned())
    );
    assert_eq!(
        terminal_input_for_keystroke_with_modes(
            &keystroke("backspace", None, Modifiers::none()),
            TerminalModes::default(),
        ),
        Some("\u{7f}".to_owned())
    );
    assert_eq!(
        terminal_input_for_keystroke_with_modes(
            &keystroke("enter", None, Modifiers::none()),
            TerminalModes::default(),
        ),
        Some("\r".to_owned())
    );
}

#[test]
fn terminal_home_and_end_use_standard_and_application_sequences() {
    let normal = TerminalModes::default();
    assert_eq!(
        terminal_input_for_keystroke_with_modes(
            &keystroke("home", None, Modifiers::none()),
            normal,
        ),
        Some("\u{1b}[H".to_owned())
    );
    assert_eq!(
        terminal_input_for_keystroke_with_modes(&keystroke("end", None, Modifiers::none()), normal),
        Some("\u{1b}[F".to_owned())
    );

    let application = TerminalModes { application_cursor: true, ..normal };
    assert_eq!(
        terminal_input_for_keystroke_with_modes(
            &keystroke("home", None, Modifiers::none()),
            application,
        ),
        Some("\u{1b}OH".to_owned())
    );
    assert_eq!(
        terminal_input_for_keystroke_with_modes(
            &keystroke("end", None, Modifiers::none()),
            application,
        ),
        Some("\u{1b}OF".to_owned())
    );
    assert_eq!(
        terminal_input_for_keystroke_with_modes(&keystroke("home", None, shift()), application),
        Some("\u{1b}[1;2H".to_owned())
    );
}

#[test]
fn terminal_selection_extracts_text_without_wide_spacers_or_padding() {
    let terminal_id = TerminalId::new(1);
    let mut snapshot = TerminalSnapshot::empty(terminal_id, TerminalSize::new(8, 2));
    write(&mut snapshot, 0, "hello");
    write(&mut snapshot, 1, "world");
    snapshot.cell_mut(0, 5).unwrap().flags.set_wide_spacer(true);
    snapshot.cell_mut(0, 4).unwrap().character = '界';
    snapshot.cell_mut(0, 4).unwrap().flags.set_wide(true);
    let selection = TerminalSelection {
        terminal_id,
        anchor: endpoint(0, 0, TerminalSelectionSide::Left),
        head: endpoint(1, 7, TerminalSelectionSide::Right),
    };
    assert_eq!(selected_terminal_text(&snapshot, selection), "hell界\nworld");
}

#[test]
fn selection_sides_choose_only_fully_covered_cells() {
    let terminal_id = TerminalId::new(1);
    let mut snapshot = TerminalSnapshot::empty(terminal_id, TerminalSize::new(4, 1));
    write(&mut snapshot, 0, "abcd");

    let first_cell = TerminalSelection {
        terminal_id,
        anchor: endpoint(0, 0, TerminalSelectionSide::Left),
        head: endpoint(0, 1, TerminalSelectionSide::Left),
    };
    assert_eq!(selection_bounds(&snapshot, first_cell).unwrap().1.column, 0);

    let boundary_only = TerminalSelection {
        terminal_id,
        anchor: endpoint(0, 0, TerminalSelectionSide::Right),
        head: endpoint(0, 1, TerminalSelectionSide::Left),
    };
    assert!(selection_bounds(&snapshot, boundary_only).is_none());

    let second_cell = TerminalSelection {
        terminal_id,
        anchor: endpoint(0, 0, TerminalSelectionSide::Right),
        head: endpoint(0, 1, TerminalSelectionSide::Right),
    };
    let (start, end) = selection_bounds(&snapshot, second_cell).unwrap();
    assert_eq!((start.column, end.column), (1, 1));
}

#[test]
fn selection_follows_user_viewport_scroll() {
    let terminal_id = TerminalId::new(1);
    let mut previous = TerminalSnapshot::empty(terminal_id, TerminalSize::new(8, 4));
    previous.display_offset = 2;
    previous.viewport_position = 2;
    let mut next = previous.clone();
    next.display_offset = 6;
    next.viewport_position = 6;

    let mut selection = TerminalSelection {
        terminal_id,
        anchor: endpoint(1, 2, TerminalSelectionSide::Left),
        head: endpoint(2, 4, TerminalSelectionSide::Right),
    };
    update_terminal_selection_for_viewport(
        &mut selection,
        previous.viewport_position,
        next.viewport_position,
    );

    assert_eq!(selection.anchor.position.row, 5);
    assert_eq!(selection.head.position.row, 6);
}

#[test]
fn output_growth_does_not_move_selection_in_a_pinned_viewport() {
    let terminal_id = TerminalId::new(1);
    let mut previous = TerminalSnapshot::empty(terminal_id, TerminalSize::new(8, 4));
    previous.display_offset = 2;
    previous.viewport_position = 2;
    let mut next = previous.clone();
    next.display_offset = 6;
    // Output can increase display_offset while the pinned viewport stays on
    // the same visible cells. It must not move the selection highlight.
    next.viewport_position = previous.viewport_position;

    let mut selection = TerminalSelection {
        terminal_id,
        anchor: endpoint(1, 2, TerminalSelectionSide::Left),
        head: endpoint(2, 4, TerminalSelectionSide::Right),
    };
    update_terminal_selection_for_viewport(
        &mut selection,
        previous.viewport_position,
        next.viewport_position,
    );

    assert_eq!(selection.anchor.position.row, 1);
    assert_eq!(selection.head.position.row, 2);
}

#[test]
fn wide_character_selection_expands_to_both_grid_cells() {
    let terminal_id = TerminalId::new(1);
    let mut snapshot = TerminalSnapshot::empty(terminal_id, TerminalSize::new(5, 1));
    snapshot.cell_mut(0, 1).unwrap().character = '界';
    snapshot.cell_mut(0, 1).unwrap().flags.set_wide(true);
    snapshot.cell_mut(0, 2).unwrap().flags.set_wide_spacer(true);
    let selection = TerminalSelection {
        terminal_id,
        anchor: endpoint(0, 0, TerminalSelectionSide::Left),
        head: endpoint(0, 1, TerminalSelectionSide::Right),
    };

    let (_, end) = selection_bounds(&snapshot, selection).unwrap();
    assert_eq!(end.column, 2);
    assert!(is_terminal_cell_selected(&snapshot, Some(selection), terminal_id, 0, 1));
    assert!(is_terminal_cell_selected(&snapshot, Some(selection), terminal_id, 0, 2));

    let half_cell_drag = TerminalSelection {
        terminal_id,
        anchor: endpoint(0, 1, TerminalSelectionSide::Left),
        head: endpoint(0, 2, TerminalSelectionSide::Right),
    };
    assert!(is_terminal_cell_selected(&snapshot, Some(half_cell_drag), terminal_id, 0, 1));
    assert!(is_terminal_cell_selected(&snapshot, Some(half_cell_drag), terminal_id, 0, 2));
}

#[test]
fn leading_wide_placeholders_do_not_become_a_second_character() {
    let terminal_id = TerminalId::new(1);
    let mut snapshot = TerminalSnapshot::empty(terminal_id, TerminalSize::new(4, 2));
    snapshot.cell_mut(0, 3).unwrap().flags.set_leading_wide_spacer(true);
    snapshot.cell_mut(1, 0).unwrap().character = '界';
    snapshot.cell_mut(1, 0).unwrap().flags.set_wide(true);
    snapshot.cell_mut(1, 1).unwrap().flags.set_wide_spacer(true);

    let wrapped_wide_character = TerminalSelection {
        terminal_id,
        anchor: endpoint(0, 3, TerminalSelectionSide::Left),
        head: endpoint(1, 0, TerminalSelectionSide::Right),
    };
    let (start, end) = selection_bounds(&snapshot, wrapped_wide_character).unwrap();
    assert_eq!((start.row, start.column), (1, 0));
    assert_eq!((end.row, end.column), (1, 1));
    assert_eq!(selected_terminal_text(&snapshot, wrapped_wide_character), "界");

    let placeholder_only = TerminalSelection {
        terminal_id,
        anchor: endpoint(0, 3, TerminalSelectionSide::Left),
        head: endpoint(0, 3, TerminalSelectionSide::Right),
    };
    assert!(selection_bounds(&snapshot, placeholder_only).is_none());
}

fn theme() -> ThemeColors {
    ThemeColors {
        terminal_background: 0,
        terminal_foreground: 1,
        selection_background: 2,
        cursor_foreground: 3,
        cursor_background: 4,
        inactive_cursor: 5,
        inverse_foreground: 6,
        inverse_background: 7,
        pane_background: 8,
        active_pane_border: 9,
        inactive_pane_border: 10,
        chrome_background: 11,
        tab_active_background: 12,
        tab_inactive_background: 13,
        tab_add_background: 14,
        ui_foreground: 15,
    }
}

#[test]
fn terminal_rows_shape_wide_cells_with_two_cell_advances() {
    let terminal_id = TerminalId::new(1);
    let mut snapshot = TerminalSnapshot::empty(terminal_id, TerminalSize::new(5, 1));
    snapshot.cell_mut(0, 0).unwrap().character = 'a';
    snapshot.cell_mut(0, 1).unwrap().character = '界';
    snapshot.cell_mut(0, 1).unwrap().flags.set_wide(true);
    snapshot.cell_mut(0, 2).unwrap().flags.set_wide_spacer(true);
    snapshot.cell_mut(0, 3).unwrap().character = 'b';
    let options = RowOptions { theme: theme(), selected: None, cursor_focused: false };
    let (chunks, _) = terminal_row_data(&snapshot, 0, options);
    assert_eq!(
        chunks
            .iter()
            .map(|chunk| (chunk.start_column, chunk.width_columns, chunk.text.as_str()))
            .collect::<Vec<_>>(),
        vec![(0, 1, "a"), (1, 2, "界"), (3, 1, "b ")]
    );
}

#[test]
fn selected_cells_get_the_selection_background() {
    let mut snapshot = TerminalSnapshot::empty(TerminalId::new(1), TerminalSize::new(6, 1));
    write(&mut snapshot, 0, "abcdef");
    let options = RowOptions {
        theme: theme(),
        selected: Some((
            TerminalCellPosition { row: 0, column: 1 },
            TerminalCellPosition { row: 0, column: 3 },
        )),
        cursor_focused: false,
    };
    let (_, backgrounds) = terminal_row_data(&snapshot, 0, options);
    assert!(backgrounds
        .iter()
        .any(|span| span.start_column == 1 && span.width_columns == 3 && span.color == 2));
}

#[test]
fn utf16_ime_offsets_follow_unicode_scalar_boundaries() {
    let text = "a界😀";
    assert_eq!(utf16_len(text), 4);
    assert_eq!(utf16_offset_to_byte(text, 0), 0);
    assert_eq!(utf16_offset_to_byte(text, 1), 1);
    assert_eq!(utf16_offset_to_byte(text, 2), 4);
    assert_eq!(utf16_offset_to_byte(text, 3), 4);
    assert_eq!(utf16_offset_to_byte(text, 4), text.len());
    assert_eq!(
        normalize_utf16_range(TextRange { start: 0, end: 99 }, 4),
        TextRange { start: 0, end: 4 }
    );
    assert_eq!(
        normalize_utf16_range(TextRange { start: 3, end: 1 }, 4),
        TextRange { start: 1, end: 1 }
    );
}

#[test]
fn an_offset_inside_a_character_ends_after_it() {
    let text = "a界😀";
    assert_eq!(utf16_offset_to_byte_end(text, 3), text.len());
    assert_eq!(utf16_offset_to_byte_end(text, 2), 4);
    assert_eq!(utf16_offset_to_byte(text, 99), text.len());
}

#[test]
fn terminal_input_honors_application_cursor_and_mouse_reporting_modes() {
    assert_eq!(
        terminal_input_for_keystroke_with_modes(
            &keystroke("up", None, Modifiers::none()),
            TerminalModes { application_cursor: true, ..TerminalModes::default() },
        ),
        Some("\u{1b}OA".to_owned())
    );
    assert_eq!(
        terminal_mouse_input(
            1,
            MouseCell { column: 1, row: 1 },
            Modifiers::none(),
            TerminalModes { mouse_reporting: true, sgr_mouse: true, ..TerminalModes::default() },
        ),
        Some(b"\x1b[<64;1;1M".to_vec())
    );
}

#[test]
fn terminal_input_encodes_navigation_and_alt_sequences() {
    assert_eq!(
        terminal_input_for_keystroke_with_modes(
            &keystroke("up", None, Modifiers::none()),
            TerminalModes::default(),
        ),
        Some("\u{1b}[A".to_owned())
    );
    assert_eq!(
        terminal_input_for_keystroke_with_modes(
            &keystroke("left", None, control()),
            TerminalModes::default(),
        ),
        Some("\u{1b}[1;5D".to_owned())
    );
    assert_eq!(
        terminal_input_for_keystroke_with_modes(
            &keystroke("x", Some("x"), Modifiers { alt: true, ..Modifiers::none() }),
            TerminalModes::default(),
        ),
        Some("\u{1b}x".to_owned())
    );
    assert_eq!(
        terminal_input_for_keystroke_with_modes(
            &keystroke("tab", None, shift()),
            TerminalModes::default(),
        ),
        Some("\u{1b}[Z".to_owned())
    );
}

#[test]
fn mouse_reports_have_three_forms() {
    let cell = MouseCell { column: 3, row: 2 };
    let reporting = TerminalModes { mouse_reporting: true, ..TerminalModes::default() };
    assert_eq!(
        terminal_mouse_button_input(cell, MouseButton::Left, true, false, Modifiers::none(), reporting),
        Some(vec![0x1b, b'[', b'M', 32, 35, 34])
    );
    let sgr = TerminalModes { sgr_mouse: true, ..reporting };
    assert_eq!(
        terminal_mouse_button_input(cell, MouseButton::Right, false, false, control(), sgr),
        Some(b"\x1b[<19;3;2m".to_vec())
    );
    let utf8 = TerminalModes { utf8_mouse: true, ..reporting };
    let far = MouseCell { column: 300, row: 2 };
    let mut expected = b"\x1b[M".to_vec();
    expected.push(32 + 1 + 32);
    expected.extend_from_slice("\u{14c}".as_bytes());
    expected.push(34);
    assert_eq!(
        terminal_mouse_button_input(far, MouseButton::Middle, true, true, Modifiers::none(), utf8),
        Some(expected)
    );
    assert_eq!(
        terminal_mouse_button_input(far, MouseButton::Left, true, false, Modifiers::none(), reporting),
        Some(vec![0x1b, b'[', b'M', 32, 255, 34])
    );
    assert_eq!(
        terminal_mouse_button_input(cell, MouseButton::Navigate, true, false, Modifiers::none(), sgr),
        None
    );
}

#[test]
fn the_wheel_moves_the_cursor_on_the_alternate_screen() {
    let modes = TerminalModes {
        alternate_screen: true,
        alternate_scroll: true,
        ..TerminalModes::default()
    };
    assert_eq!(terminal_alternate_scroll_input(2, modes), "\u{1b}[A\u{1b}[A");
    assert_eq!(terminal_alternate_scroll_input(-1, modes), "\u{1b}[B");
}

#[test]
fn pasted_text_is_bracketed_on_request() {
    assert_eq!(paste_input("ls", true), "\u{1b}[200~ls\u{1b}[201~");
    assert_eq!(paste_input("ls", false), "ls");
}

#[test]
fn colours_come_from_the_theme_or_the_cube() {
    assert_eq!(indexed_color(16), 0x000000);
    assert_eq!(indexed_color(231), 0xffffff);
    assert_eq!(indexed_color(232), 0x080808);
    assert_eq!(color_to_rgb(theme_color(0x123456), true, theme()), 0x123456);
}

#[test]
fn a_mouse_position_becomes_a_cell() {
    let size = TerminalSize::new(10, 4);
    let mouse = TerminalMousePosition { column: 99, row: 2, side: TerminalSelectionSide::Right };
    let endpoint = terminal_selection_endpoint_at(mouse, size);
    assert_eq!(endpoint.position, TerminalCellPosition { row: 1, column: 9 });
    assert_eq!(endpoint.side, TerminalSelectionSide::Right);
}

fn leaf(pane: u64, terminal: u64, text: &str) -> PaneTreeDump {
    let size = TerminalSize::new(20, 4);
    let mut snapshot = TerminalSnapshot::empty(TerminalId::new(terminal), size);
    write(&mut snapshot, 0, text);
    PaneTreeDump::Leaf {
        pane_id: PaneId::new(pane),
        terminal: Some(LeafTerminal { terminal_id: TerminalId::new(terminal), size }),
        snapshot: Some(Arc::new(snapshot)),
    }
}

fn workspaces() -> Vec<WorkspaceDump> {
    vec![
        WorkspaceDump {
            id: WorkspaceId::new(1),
            title: "work".to_owned(),
            tabs: vec![
                TabDump {
                    id: TabId::new(1),
                    title: "one".to_owned(),
                    tree: leaf(1, 1, "first screen"),
                    active_pane: PaneId::new(1),
                },
                TabDump {
                    id: TabId::new(2),
                    title: "two".to_owned(),
                    tree: leaf(2, 2, "second screen"),
                    active_pane: PaneId::new(2),
                },
            ],
            active_tab: Some(TabId::new(1)),
        },
        WorkspaceDump {
            id: WorkspaceId::new(2),
            title: "play".to_owned(),
            tabs: Vec::new(),
            active_tab: None,
        },
    ]
}

fn model(revision: u64) -> ModelSnapshot {
    ModelSnapshot {
        state_revision: revision,
        active_workspace: Some(WorkspaceId::new(1)),
        workspace: workspaces().into_iter().next(),
        workspaces: workspaces(),
        focused_pane: Some(PaneId::new(1)),
        agents: Vec::new(),
    }
}

fn view() -> WorkspaceView {
    WorkspaceView::new(
        fitting_model(model(1)),
        WindowFeatures { selection: true, mouse_reporting: true, bracketed_paste: true },
    )
}

#[test]
fn a_screen_beyond_the_limits_is_not_shown() {
    let shown = format!("{:?}", model(1));
    assert_eq!(format!("{:?}", fitting_model(model(1))), shown);
    let mut screen = TerminalSnapshot::empty(TerminalId::new(1), TerminalSize::new(20, 4));
    screen.size.columns = 100_000;
    let mut wide = model(1);
    let mut workspace = workspaces().into_iter().next().unwrap();
    workspace.tabs[0].tree = PaneTreeDump::Leaf {
        pane_id: PaneId::new(1),
        terminal: Some(LeafTerminal {
            terminal_id: TerminalId::new(1),
            size: TerminalSize::new(20, 4),
        }),
        snapshot: Some(Arc::new(screen)),
    };
    wide.workspace = Some(workspace);
    let kept = fitting_model(wide);
    let workspace = kept.workspace.unwrap();
    assert_eq!(workspace.tabs.len(), workspaces()[0].tabs.len());
    assert!(matches!(
        &workspace.tabs[0].tree,
        PaneTreeDump::Leaf { terminal: Some(_), snapshot: None, .. }
    ));
    let listed = format!("{:?}", workspaces());
    assert_eq!(format!("{:?}", kept.workspaces), listed);
}

#[test]
fn ime_composition_state_commits_once_to_the_focused_terminal() {
    let mut view = view();
    view.install_input_handler();
    assert!(view.replace_and_mark_text_in_range(
        None,
        "拼音",
        Some(TextRange { start: 2, end: 2 }),
    ));
    assert_eq!(view.ime_marked_text_for(TerminalId::new(1)), Some("拼音".to_owned()));
    assert_eq!(view.selected_text_range(), Some(TextRange { start: 2, end: 2 }));

    let command = view.replace_text_in_range("print -r -- IME_中");
    assert!(matches!(
        command,
        Some(WindowCommand::SendText { terminal_id, text })
            if terminal_id == TerminalId::new(1) && text == "print -r -- IME_中"
    ));
    assert_eq!(view.ime_marked_text_for(TerminalId::new(1)), None);
    let reply = view.handle_key_down(&keystroke("enter", None, Modifiers::none()));
    assert!(matches!(
        reply.command,
        Some(WindowCommand::SendText { text, .. }) if text == "\r"
    ));
}

#[test]
fn keys_go_to_the_active_terminal() {
    let mut view = view();
    assert_eq!(view.active_terminal_id(), Some(TerminalId::new(1)));
    let reply = view.handle_key_down(&keystroke("up", None, Modifiers::none()));
    assert!(!reply.taken);
    assert!(matches!(
        reply.command,
        Some(WindowCommand::SendText { terminal_id, text })
            if terminal_id == TerminalId::new(1) && text == "\u{1b}[A"
    ));
    let platform = Modifiers { platform: true, ..Modifiers::none() };
    let reply = view.handle_key_down(&keystroke("h", None, platform));
    assert!(matches!(
        reply.command,
        Some(WindowCommand::FocusNext { direction: FocusDirection::Left })
    ));
    let reply = view.handle_key_down(&keystroke("pageup", None, shift()));
    assert!(matches!(reply.command, Some(WindowCommand::Scroll { lines: 20, .. })));
    let reply = view.handle_key_down(&keystroke("v", None, platform));
    assert!(matches!(
        reply.command,
        Some(WindowCommand::Paste { terminal_id, bracketed: false }) if terminal_id == TerminalId::new(1)
    ));
    // Nothing is selected, so copying interrupts.
    let reply = view.handle_key_down(&keystroke("c", None, platform));
    assert!(matches!(
        reply.command,
        Some(WindowCommand::SendText { text, .. }) if text == "\u{3}"
    ));
}

#[test]
fn renaming_takes_the_keys_until_it_ends() {
    let mut view = view();
    view.begin_rename(RenameTarget::Tab(TabId::new(1)));
    assert!(view.has_transient_ui());
    let reply = view.handle_key_down(&keystroke("x", Some("x"), Modifiers::none()));
    assert!(reply.taken);
    assert!(reply.command.is_none());
    assert_eq!(view.shown_title(RenameTarget::Tab(TabId::new(1)), "one"), "onex▌");
    let reply = view.handle_key_down(&keystroke("enter", None, Modifiers::none()));
    assert!(matches!(
        reply.command,
        Some(WindowCommand::RenameTab { tab_id, title }) if tab_id == TabId::new(1) && title == "onex"
    ));
    assert!(!view.has_transient_ui());
}

#[test]
fn a_cancelled_rename_changes_nothing() {
    let mut view = view();
    view.begin_rename(RenameTarget::Workspace(WorkspaceId::new(1)));
    let reply = view.handle_key_down(&keystroke("escape", None, Modifiers::none()));
    assert!(reply.taken);
    assert!(reply.command.is_none());
    assert!(!view.has_transient_ui());
}

#[test]
fn closing_a_workspace_with_tabs_asks_first() {
    let mut view = view();
    assert!(view.request_close_workspace(WorkspaceId::new(1)).is_none());
    let message = view.dialog_message().unwrap();
    assert!(message.contains("work"));
    assert!(matches!(
        view.confirm_dialog(),
        Some(WindowCommand::CloseWorkspace { workspace_id }) if workspace_id == WorkspaceId::new(1)
    ));
    assert!(view.dialog_message().is_none());
    view.request_close_workspace(WorkspaceId::new(1));
    view.cancel_dialog();
    assert!(view.confirm_dialog().is_none());
}

#[test]
fn menus_rename_and_close() {
    let mut view = view();
    view.open_menu(ContextMenuTarget::Tab(TabId::new(2)));
    assert!(view.has_transient_ui());
    assert!(matches!(
        view.menu_close(ContextMenuTarget::Tab(TabId::new(2))),
        Some(WindowCommand::CloseTab { tab_id }) if tab_id == TabId::new(2)
    ));
    view.open_menu(ContextMenuTarget::Workspace(WorkspaceId::new(2)));
    view.menu_rename(ContextMenuTarget::Workspace(WorkspaceId::new(2)));
    assert!(matches!(
        view.commit_rename(),
        Some(WindowCommand::RenameWorkspace { workspace_id, .. }) if workspace_id == WorkspaceId::new(2)
    ));
}

#[test]
fn actions_become_commands() {
    let mut view = view();
    assert!(matches!(view.act(WindowAction::NewTerminalTab), Some(WindowCommand::NewTab)));
    assert!(matches!(view.act(WindowAction::NewWorkspace), Some(WindowCommand::NewWorkspace)));
    assert!(matches!(
        view.press_tab(TabId::new(2), PaneId::new(2)),
        Some(WindowCommand::ActivateTab { tab_id }) if tab_id == TabId::new(2)
    ));
    assert!(matches!(
        view.act(WindowAction::SplitRight),
        Some(WindowCommand::SplitPane { pane_id, direction: SplitDirection::Right })
            if pane_id == PaneId::new(2)
    ));
    assert!(matches!(
        view.press_workspace(WorkspaceId::new(2)),
        WindowCommand::ActivateWorkspace { workspace_id } if workspace_id == WorkspaceId::new(2)
    ));
}

#[test]
fn a_drag_selects_text_that_can_be_copied() {
    let mut view = view();
    let at = |column: usize, side: TerminalSelectionSide| TerminalMousePosition {
        column,
        row: 1,
        side,
    };
    let (_, command, focus) = view.press_pane(
        PaneId::new(1),
        Some(TerminalId::new(1)),
        Modifiers::none(),
        at(1, TerminalSelectionSide::Left),
    );
    assert!(command.is_none());
    assert!(matches!(focus, WindowCommand::FocusPane { pane_id } if pane_id == PaneId::new(1)));
    assert_eq!(view.tracked_terminal(), Some(TerminalId::new(1)));
    view.update_terminal_selection(
        Some(MouseButton::Left),
        Modifiers::none(),
        at(5, TerminalSelectionSide::Right),
    );
    view.finish_terminal_selection(
        MouseButton::Left,
        Modifiers::none(),
        at(5, TerminalSelectionSide::Right),
    );
    assert!(view.selection().is_some());
    assert_eq!(
        view.copy_terminal_selection(TerminalId::new(1)),
        Some("first".to_owned())
    );
}

#[test]
fn older_projections_are_not_shown() {
    let mut view = view();
    assert!(view.install_snapshot(model(5)));
    assert!(!view.install_snapshot(model(4)));
    assert_eq!(view.snapshot().state_revision, 5);
}

#[test]
fn a_size_is_asked_for_once() {
    let mut view = view();
    let id = TerminalId::new(1);
    let old = TerminalSize::new(20, 4);
    let new = TerminalSize::new(40, 8);
    assert!(view.request_resize(id, old, new));
    assert!(!view.request_resize(id, old, new));
    assert!(!view.request_resize(id, new, new));
}

#[test]
fn the_wheel_scrolls_the_history() {
    let view = view();
    let command = view.scroll_pane(
        PaneId::new(1),
        TerminalModes::default(),
        3,
        Modifiers::none(),
        MouseCell { column: 1, row: 1 },
    );
    assert!(matches!(
        command,
        Some(WindowCommand::Scroll { terminal_id, lines: 3 }) if terminal_id == TerminalId::new(1)
    ));
}

#[test]
fn composed_text_follows_the_active_terminal() {
    let mut view = view();
    assert!(view.accepts_text_for(TerminalId::new(9)));
    assert_eq!(view.ime_target(), Some(TerminalId::new(1)));
    assert_eq!(view.route_ime(TerminalId::new(2)), TerminalId::new(1));
    assert_eq!(view.ime_target(), Some(TerminalId::new(1)));

    // Without an active terminal, the element that asks gets the text.
    let mut empty = WorkspaceView::new(
        ModelSnapshot {
            state_revision: 1,
            active_workspace: None,
            workspace: None,
            workspaces: Vec::new(),
            focused_pane: None,
            agents: Vec::new(),
        },
        WindowFeatures { selection: true, mouse_reporting: true, bracketed_paste: true },
    );
    assert!(!empty.accepts_text_for(TerminalId::new(2)));
    assert_eq!(empty.ime_target(), None);
    assert_eq!(empty.route_ime(TerminalId::new(2)), TerminalId::new(2));
    assert!(empty.accepts_text_for(TerminalId::new(2)));
    assert!(!empty.accepts_text_for(TerminalId::new(3)));
}

#[test]
fn the_caret_stands_on_the_cursor() {
    let mut wide = TerminalSnapshot::empty(TerminalId::new(1), TerminalSize::new(20, 4));
    write(&mut wide, 1, "ab");
    wide.cursor.row = 1;
    wide.cursor.column = 1;
    let mut model = model(1);
    let mut workspaces = workspaces();
    workspaces[0].tabs[0].tree = PaneTreeDump::Leaf {
        pane_id: PaneId::new(1),
        terminal: Some(LeafTerminal {
            terminal_id: TerminalId::new(1),
            size: TerminalSize::new(20, 4),
        }),
        snapshot: Some(Arc::new(wide)),
    };
    model.workspace = workspaces.into_iter().next();
    let view = WorkspaceView::new(
        fitting_model(model),
        WindowFeatures { selection: true, mouse_reporting: true, bracketed_paste: true },
    );
    assert_eq!(view.caret(TerminalId::new(1), (7, 7)), ((1, 1), 1));
    assert_eq!(view.caret(TerminalId::new(9), (7, 7)), ((7, 7), 1));
}

#[test]
fn a_window_tells_what_is_open() {
    let mut view = view();
    assert_eq!(view.focused_pane(), Some(PaneId::new(1)));
    assert!(!view.is_sidebar_collapsed());
    view.toggle_sidebar();
    assert!(view.is_sidebar_collapsed());
    assert_eq!(view.context_menu(), None);
    let target = ContextMenuTarget::Tab(TabId::new(2));
    view.open_menu(target);
    assert_eq!(view.context_menu(), Some(target));
    assert_eq!(target.labels(), ("Rename tab", "Close tab"));
    assert_eq!(
        ContextMenuTarget::Workspace(WorkspaceId::new(1)).labels(),
        ("Rename workspace", "Close workspace")
    );
    view.close_menu();
    assert_eq!(view.context_menu(), None);
}

#[test]
fn a_pane_without_a_screen_says_what_it_is() {
    let pane = PaneId::new(7);
    assert!(matches!(pane_content(pane, SurfaceKind::Terminal, true), PaneContent::Screen));
    let PaneContent::Text(text) = pane_content(pane, SurfaceKind::Terminal, false) else {
        panic!("nothing has arrived yet")
    };
    assert_eq!(text, "Starting terminal…");
    let PaneContent::Text(text) = pane_content(pane, SurfaceKind::Diff, true) else {
        panic!("a diff has no screen")
    };
    assert_eq!(text, "Pane 7 · DiffSurface");
    assert_eq!(SurfaceKind::MarkdownPreview.label(), "MarkdownPreviewSurface");
}
