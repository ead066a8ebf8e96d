//! The state of a window: what is focused, selected, renamed, asked and typed.
use std::sync::Arc;

use vstd::prelude::*;

use super::bindings::WindowAction;
use super::input::{is_typed, key_text};
use super::keystroke::{KeyView, Modifiers};
use super::lookup::{
    active_snapshot, active_terminal, active_workspace, shown_snapshot, tab_with, workspace_with,
};
use super::mouse::{
    button_number, mouse_report, repeated, report_kind, reported_button, MouseButton, MouseCell,
    TerminalMouseReportKind,
};
use super::input::{alternate_scroll, cursor_text, scroll_count};
use super::row::cursor_cell;
use super::selection::{
    bounds_of, endpoint_under, selected_text, shifted, TerminalCellPosition, TerminalMousePosition,
    TerminalSelection,
};
use super::tree::{tab_at, ModelSnapshot};
use super::utf16::{
    a_part_is_found_by_its_code_units, chars_before, chars_until, code_units_add_up,
    lemma_units_nonnegative, normalized, units, TextRange,
};
use crate::ids::{PaneId, TabId, TerminalId, WorkspaceId};
use crate::num::{clamped, max_of, min_of};
use crate::terminal::snapshot::{TerminalModes, TerminalSize, TerminalSnapshot};
use crate::text::trimmed;

verus! {

#[derive(Debug, Clone, Copy, PartialEq, Eq, Structural)]
pub enum RenameTarget {
    Workspace(WorkspaceId),
    Tab(TabId),
}

#[derive(Debug, Clone, Copy, PartialEq, Eq, Structural)]
pub enum ContextMenuTarget {
    Workspace(WorkspaceId),
    Tab(TabId),
}

impl ContextMenuTarget {
    /// The two entries of the menu.
    pub fn labels(self) -> (labels: (&'static str, &'static str))
        ensures
            (labels.0@, labels.1@) == match self {
                ContextMenuTarget::Workspace(_) => ("Rename workspace"@, "Close workspace"@),
                ContextMenuTarget::Tab(_) => ("Rename tab"@, "Close tab"@),
            },
    {
        match self {
            ContextMenuTarget::Workspace(_) => ("Rename workspace", "Close workspace"),
            ContextMenuTarget::Tab(_) => ("Rename tab", "Close tab"),
        }
    }
}

/// In-window dialogs are kept as view state so their presentation and
/// dismissal share one path without introducing model-owned UI state.
#[derive(Debug, Clone, Copy, PartialEq, Eq, Structural)]
pub enum DialogState {
    ConfirmCloseWorkspace { workspace_id: WorkspaceId },
}

#[derive(Debug, Clone, Copy, PartialEq, Eq, Structural)]
pub enum SplitDirection {
    Right,
    Down,
}

#[derive(Debug, Clone, Copy, PartialEq, Eq, Structural)]
pub enum FocusDirection {
    Left,
    Down,
    Up,
    Right,
}

/// Which features are switched on.
#[derive(Debug, Clone, Copy, PartialEq, Eq, Structural)]
pub struct WindowFeatures {
    pub selection: bool,
    pub mouse_reporting: bool,
    pub bracketed_paste: bool,
}

/// What a window asks of the server, the clipboard or the terminal.
#[derive(Debug)]
pub enum WindowCommand {
    NewTab,
    NewWorkspace,
    ActivateTab { tab_id: TabId },
    ActivateWorkspace { workspace_id: WorkspaceId },
    CloseTab { tab_id: TabId },
    CloseWorkspace { workspace_id: WorkspaceId },
    RenameWorkspace { workspace_id: WorkspaceId, title: String },
    RenameTab { tab_id: TabId, title: String },
    SplitPane { pane_id: PaneId, direction: SplitDirection },
    FocusNext { direction: FocusDirection },
    FocusPane { pane_id: PaneId },
    ClosePane { pane_id: PaneId },
    SendText { terminal_id: TerminalId, text: String },
    SendBytes { terminal_id: TerminalId, bytes: Vec<u8> },
    Scroll { terminal_id: TerminalId, lines: i32 },
    /// Read the clipboard and send its text.
    Paste { terminal_id: TerminalId, bracketed: bool },
    /// Write a text to the clipboard.
    Copy { text: String },
}

/// What a window asks, by its values.
#[verifier::ext_equal]
pub enum CommandView {
    NewTab,
    NewWorkspace,
    ActivateTab { tab_id: TabId },
    ActivateWorkspace { workspace_id: WorkspaceId },
    CloseTab { tab_id: TabId },
    CloseWorkspace { workspace_id: WorkspaceId },
    RenameWorkspace { workspace_id: WorkspaceId, title: Seq<char> },
    RenameTab { tab_id: TabId, title: Seq<char> },
    SplitPane { pane_id: PaneId, direction: SplitDirection },
    FocusNext { direction: FocusDirection },
    FocusPane { pane_id: PaneId },
    ClosePane { pane_id: PaneId },
    SendText { terminal_id: TerminalId, text: Seq<char> },
    SendBytes { terminal_id: TerminalId, bytes: Seq<u8> },
    Scroll { terminal_id: TerminalId, lines: int },
    Paste { terminal_id: TerminalId, bracketed: bool },
    Copy { text: Seq<char> },
}

impl View for WindowCommand {
    type V = CommandView;

    open spec fn view(&self) -> CommandView {
        match self {
            WindowCommand::NewTab => CommandView::NewTab,
            WindowCommand::NewWorkspace => CommandView::NewWorkspace,
            WindowCommand::ActivateTab { tab_id } => CommandView::ActivateTab { tab_id: *tab_id },
            WindowCommand::ActivateWorkspace { workspace_id } => CommandView::ActivateWorkspace {
                workspace_id: *workspace_id,
            },
            WindowCommand::CloseTab { tab_id } => CommandView::CloseTab { tab_id: *tab_id },
            WindowCommand::CloseWorkspace { workspace_id } => CommandView::CloseWorkspace {
                workspace_id: *workspace_id,
            },
            WindowCommand::RenameWorkspace { workspace_id, title } => CommandView::RenameWorkspace {
                workspace_id: *workspace_id,
                title: title@,
            },
            WindowCommand::RenameTab { tab_id, title } => CommandView::RenameTab {
                tab_id: *tab_id,
                title: title@,
            },
            WindowCommand::SplitPane { pane_id, direction } => CommandView::SplitPane {
                pane_id: *pane_id,
                direction: *direction,
            },
            WindowCommand::FocusNext { direction } => CommandView::FocusNext {
                direction: *direction,
            },
            WindowCommand::FocusPane { pane_id } => CommandView::FocusPane { pane_id: *pane_id },
            WindowCommand::ClosePane { pane_id } => CommandView::ClosePane { pane_id: *pane_id },
            WindowCommand::SendText { terminal_id, text } => CommandView::SendText {
                terminal_id: *terminal_id,
                text: text@,
            },
            WindowCommand::SendBytes { terminal_id, bytes } => CommandView::SendBytes {
                terminal_id: *terminal_id,
                bytes: bytes@,
            },
            WindowCommand::Scroll { terminal_id, lines } => CommandView::Scroll {
                terminal_id: *terminal_id,
                lines: *lines as int,
            },
            WindowCommand::Paste { terminal_id, bracketed } => CommandView::Paste {
                terminal_id: *terminal_id,
                bracketed: *bracketed,
            },
            WindowCommand::Copy { text } => CommandView::Copy { text: text@ },
        }
    }
}

/// A command that may be missing, by its values.
pub open spec fn asked(command: Option<WindowCommand>) -> Option<CommandView> {
    match command {
        Some(command) => Some(command@),
        None => None,
    }
}

/// What became of a key: whether the window has taken it, and what it asks.
#[derive(Debug)]
pub struct KeyReply {
    pub taken: bool,
    pub command: Option<WindowCommand>,
}

/// The state of a window.
#[verifier::ext_equal]
pub struct WindowState {
    pub model: ModelSnapshot,
    pub focused_pane: Option<PaneId>,
    pub selection: Option<TerminalSelection>,
    /// The terminal that the input method writes to.
    pub ime_terminal: Option<TerminalId>,
    /// The text that the input method has not decided on.
    pub marked: Seq<char>,
    pub marked_range: TextRange,
    /// The terminal on which a selection is being drawn.
    pub dragging: Option<TerminalId>,
    /// The terminal to which a pressed button was reported.
    pub reported: Option<(TerminalId, MouseButton)>,
    pub reported_cell: Option<(TerminalId, TerminalCellPosition)>,
    pub sidebar_collapsed: bool,
    pub rename: Option<RenameTarget>,
    pub rename_value: Seq<char>,
    pub menu: Option<ContextMenuTarget>,
    pub dialog: Option<DialogState>,
    /// The terminal that an input handler was installed for.
    pub input_handler: Option<TerminalId>,
    /// The geometry that was asked for last, by terminal.
    pub resizes: Map<u64, TerminalSize>,
    pub features: WindowFeatures,
}

/// The direction that a key moves the focus in.
pub open spec fn focus_key(key: Seq<char>) -> Option<FocusDirection> {
    if key == "h"@ {
        Some(FocusDirection::Left)
    } else if key == "j"@ {
        Some(FocusDirection::Down)
    } else if key == "k"@ {
        Some(FocusDirection::Up)
    } else if key == "l"@ {
        Some(FocusDirection::Right)
    } else {
        None
    }
}

/// The key confirms.
pub open spec fn is_confirm(key: Seq<char>) -> bool {
    key == "enter"@ || key == "return"@
}

impl WindowState {
    pub open spec fn opened(model: ModelSnapshot, features: WindowFeatures) -> WindowState {
        WindowState {
            model,
            focused_pane: model.focused_pane,
            selection: None,
            ime_terminal: None,
            marked: Seq::empty(),
            marked_range: TextRange { start: 0, end: 0 },
            dragging: None,
            reported: None,
            reported_cell: None,
            sidebar_collapsed: false,
            rename: None,
            rename_value: Seq::empty(),
            menu: None,
            dialog: None,
            input_handler: None,
            resizes: Map::empty(),
            features,
        }
    }

    /// Something is open that takes the keys.
    pub open spec fn is_transient(self) -> bool {
        self.rename is Some || self.menu is Some || self.dialog is Some
    }

    /// The terminal that keys go to.
    pub open spec fn terminal(self) -> Option<TerminalId> {
        active_terminal(self.model, self.focused_pane)
    }

    /// The modes of the terminal that keys go to.
    pub open spec fn modes(self) -> TerminalModes {
        match active_snapshot(self.model, self.focused_pane) {
            Some(snapshot) => snapshot.modes,
            None => TerminalModes::none(),
        }
    }

    pub open spec fn with_marked_reset(self) -> WindowState {
        WindowState {
            marked: Seq::empty(),
            marked_range: TextRange { start: 0, end: 0 },
            ..self
        }
    }

    pub open spec fn with_ime_cleared(self) -> WindowState {
        WindowState { ime_terminal: None, ..self.with_marked_reset() }
    }

    pub open spec fn without_rename(self) -> WindowState {
        WindowState { rename: None, rename_value: Seq::empty(), ..self }
    }

    /// Closing a workspace is asked for: an empty one is closed at once, any
    /// other after a question.
    pub open spec fn closing(self, id: WorkspaceId) -> (WindowState, Option<CommandView>) {
        match workspace_with(self.model, id) {
            None => (self, None),
            Some(workspace) => if workspace.tabs@.len() == 0 {
                (
                    WindowState { menu: None, ..self },
                    Some(CommandView::CloseWorkspace { workspace_id: id }),
                )
            } else {
                (
                    WindowState {
                        menu: None,
                        dialog: Some(DialogState::ConfirmCloseWorkspace { workspace_id: id }),
                        ..self
                    },
                    None,
                )
            },
        }
    }

    /// A dialog is confirmed.
    pub open spec fn confirmed(self) -> (WindowState, Option<CommandView>) {
        match self.dialog {
            Some(DialogState::ConfirmCloseWorkspace { workspace_id }) => (
                WindowState { dialog: None, ..self },
                Some(CommandView::CloseWorkspace { workspace_id }),
            ),
            None => (self, None),
        }
    }

    /// A key while a dialog is open.
    pub open spec fn dialog_key(self, key: KeyView) -> (WindowState, Option<CommandView>) {
        if is_confirm(key.key) {
            self.confirmed()
        } else if key.key == "escape"@ {
            (WindowState { dialog: None, ..self }, None)
        } else {
            (self, None)
        }
    }

    /// A workspace or a tab can be renamed: nothing else is open, and it is
    /// there.
    pub open spec fn renaming(self, target: RenameTarget) -> WindowState {
        let title = match target {
            RenameTarget::Workspace(id) => match workspace_with(self.model, id) {
                Some(workspace) => Some(workspace.title@),
                None => None,
            },
            RenameTarget::Tab(id) => match tab_with(self.model, id) {
                Some(tab) => Some(tab.title@),
                None => None,
            },
        };
        if self.is_transient() || title is None {
            self
        } else {
            WindowState { rename: Some(target), rename_value: title->0, ..self }
        }
    }

    /// The tab that is active in the active workspace.
    pub open spec fn current_tab(self) -> Option<TabId> {
        match active_workspace(self.model) {
            Some(id) => match workspace_with(self.model, id) {
                Some(workspace) => workspace.active_tab,
                None => None,
            },
            None => None,
        }
    }

    /// A new name is taken over; a blank one changes nothing.
    pub open spec fn renamed(self) -> (WindowState, Option<CommandView>) {
        let title = trimmed(self.rename_value);
        match self.rename {
            None => (self, None),
            Some(target) => (
                self.without_rename(),
                if title.len() == 0 {
                    None
                } else {
                    match target {
                        RenameTarget::Workspace(workspace_id) => Some(
                            CommandView::RenameWorkspace { workspace_id, title },
                        ),
                        RenameTarget::Tab(tab_id) => Some(CommandView::RenameTab { tab_id, title }),
                    }
                },
            ),
        }
    }

    /// A key while something is renamed.
    pub open spec fn rename_key(self, key: KeyView) -> (WindowState, Option<CommandView>) {
        if is_confirm(key.key) {
            self.renamed()
        } else if key.key == "escape"@ {
            (self.without_rename(), None)
        } else if key.key == "backspace"@ {
            (
                WindowState {
                    rename_value: if self.rename_value.len() > 0 {
                        self.rename_value.drop_last()
                    } else {
                        self.rename_value
                    },
                    ..self
                },
                None,
            )
        } else if !key.modifiers.platform && !key.modifiers.control && !key.modifiers.alt
            && key.key_char is Some {
            (WindowState { rename_value: self.rename_value + key.key_char->0, ..self }, None)
        } else {
            (self, None)
        }
    }

    /// The text that copying takes from a terminal.
    pub open spec fn copied(self, id: TerminalId) -> Option<Seq<char>> {
        match self.selection {
            Some(selection) => if selection.terminal_id == id {
                match shown_snapshot(self.model, id) {
                    Some(snapshot) => if bounds_of(snapshot@, selection) is Some && selected_text(
                        snapshot@,
                        selection,
                    ).len() > 0 {
                        Some(selected_text(snapshot@, selection))
                    } else {
                        None
                    },
                    None => None,
                }
            } else {
                None
            },
            None => None,
        }
    }

    /// A shortcut of the window, if the key is one.
    pub open spec fn shortcut(self, key: KeyView) -> Option<Option<CommandView>> {
        if !key.modifiers.platform {
            None
        } else if focus_key(key.key) is Some && !key.modifiers.shift {
            Some(
                if self.focused_pane is None {
                    None
                } else {
                    Some(CommandView::FocusNext { direction: focus_key(key.key)->0 })
                },
            )
        } else if key.key == "w"@ && key.modifiers.shift {
            Some(
                match self.focused_pane {
                    Some(pane_id) => Some(CommandView::ClosePane { pane_id }),
                    None => None,
                },
            )
        } else if key.key == "v"@ && !key.modifiers.shift {
            Some(
                match self.terminal() {
                    Some(terminal_id) => Some(
                        CommandView::Paste {
                            terminal_id,
                            bracketed: self.modes().bracketed_paste
                                && self.features.bracketed_paste,
                        },
                    ),
                    None => None,
                },
            )
        } else if key.key == "c"@ && !key.modifiers.shift {
            Some(
                match self.terminal() {
                    Some(terminal_id) => Some(
                        match self.copied(terminal_id) {
                            Some(text) => CommandView::Copy { text },
                            None => CommandView::SendText { terminal_id, text: seq!['\u{3}'] },
                        },
                    ),
                    None => None,
                },
            )
        } else if key.key == "d"@ && !key.modifiers.shift {
            Some(
                match self.terminal() {
                    Some(terminal_id) => Some(
                        CommandView::SendText { terminal_id, text: seq!['\u{4}'] },
                    ),
                    None => None,
                },
            )
        } else {
            None
        }
    }

    /// A key for the terminal: pages are scrolled, and what a key types is
    /// sent, unless the input method sends it.
    pub open spec fn terminal_key(self, key: KeyView) -> (WindowState, Option<CommandView>) {
        match self.terminal() {
            None => (self, None),
            Some(terminal_id) => if key.modifiers.shift && (key.key == "pageup"@ || key.key
                == "pagedown"@) {
                (
                    self,
                    Some(
                        CommandView::Scroll {
                            terminal_id,
                            lines: if key.key == "pageup"@ {
                                20
                            } else {
                                -20
                            },
                        },
                    ),
                )
            } else {
                match key_text(key, self.modes()) {
                    None => (self, None),
                    Some(text) => if is_typed(key) && self.input_handler is Some {
                        (self, None)
                    } else {
                        (
                            WindowState { selection: None, ..self }.with_ime_cleared(),
                            Some(CommandView::SendText { terminal_id, text }),
                        )
                    },
                }
            },
        }
    }

    /// A pressed key: the state, whether the window has taken the key, and
    /// what it asks. What is open comes first.
    pub open spec fn pressed(self, key: KeyView) -> (WindowState, bool, Option<CommandView>) {
        if self.dialog is Some {
            let (next, command) = self.dialog_key(key);
            (next, true, command)
        } else if self.menu is Some {
            (WindowState { menu: None, ..self }, true, None)
        } else if self.rename is Some {
            let (next, command) = self.rename_key(key);
            (next, true, command)
        } else {
            match self.shortcut(key) {
                Some(command) => (self, false, command),
                None => {
                    let (next, command) = self.terminal_key(key);
                    (next, false, command)
                },
            }
        }
    }

    /// The selection once another projection is shown: it moves along with
    /// the viewport of its terminal.
    pub open spec fn selection_in(self, model: ModelSnapshot) -> Option<TerminalSelection> {
        match self.selection {
            Some(selection) => match (
                shown_snapshot(self.model, selection.terminal_id),
                shown_snapshot(model, selection.terminal_id),
            ) {
                (Some(previous), Some(next)) => Some(
                    shifted(
                        selection,
                        clamped(
                            next.viewport_position - previous.viewport_position,
                            i64::MIN as int,
                            i64::MAX as int,
                        ),
                    ),
                ),
                _ => Some(selection),
            },
            None => None,
        }
    }

    /// What a menu is about is there.
    pub open spec fn menu_target_exists(self, target: ContextMenuTarget) -> bool {
        match target {
            ContextMenuTarget::Workspace(id) => workspace_with(self.model, id) is Some,
            ContextMenuTarget::Tab(id) => tab_with(self.model, id) is Some,
        }
    }

    /// What is renamed is there.
    pub open spec fn rename_target_exists(self, target: RenameTarget) -> bool {
        match target {
            RenameTarget::Workspace(id) => workspace_with(self.model, id) is Some,
            RenameTarget::Tab(id) => tab_with(self.model, id) is Some,
        }
    }

    /// What a dialog is about is there.
    pub open spec fn dialog_target_exists(self, dialog: DialogState) -> bool {
        match dialog {
            DialogState::ConfirmCloseWorkspace { workspace_id } => workspace_with(
                self.model,
                workspace_id,
            ) is Some,
        }
    }

    /// Whatever is open about something that is gone is closed.
    pub open spec fn tidied(self) -> WindowState {
        let no_menu = if self.menu is Some && !self.menu_target_exists(self.menu->0) {
            WindowState { menu: None, ..self }
        } else {
            self
        };
        let no_rename = if self.rename is Some && !self.rename_target_exists(self.rename->0) {
            no_menu.without_rename()
        } else {
            no_menu
        };
        let no_dialog = if self.dialog is Some && !self.dialog_target_exists(self.dialog->0) {
            WindowState { dialog: None, ..no_rename }
        } else {
            no_rename
        };
        if self.ime_terminal is Some && self.ime_terminal != self.terminal() {
            no_dialog.with_ime_cleared()
        } else {
            no_dialog
        }
    }

    /// Once a newer projection is shown.
    pub open spec fn installed(self, model: ModelSnapshot) -> WindowState {
        if model.state_revision <= self.model.state_revision {
            self
        } else {
            WindowState {
                selection: self.selection_in(model),
                focused_pane: model.focused_pane,
                model,
                ..self
            }.tidied()
        }
    }

    /// The terminal that the input method writes to.
    pub open spec fn ime_target(self) -> Option<TerminalId> {
        match self.ime_terminal {
            Some(id) => Some(id),
            None => self.terminal(),
        }
    }

    /// The input method has decided on a text.
    pub open spec fn composed(self, text: Seq<char>) -> (WindowState, Option<CommandView>) {
        match self.ime_target() {
            None => (self, None),
            Some(terminal_id) => (
                WindowState {
                    ime_terminal: Some(terminal_id),
                    selection: None,
                    ..self
                }.with_marked_reset(),
                if text.len() == 0 {
                    None
                } else {
                    Some(CommandView::SendText { terminal_id, text })
                },
            ),
        }
    }

    /// The input method has replaced a part of the text it has not decided on.
    pub open spec fn marking(
        self,
        range: Option<TextRange>,
        text: Seq<char>,
        selected: Option<TextRange>,
    ) -> WindowState {
        match self.ime_target() {
            None => self,
            Some(terminal_id) => {
                let length = units(self.marked);
                let replaced = match range {
                    Some(range) => normalized(range, length),
                    None => TextRange { start: 0, end: length as usize },
                };
                let start = chars_before(self.marked, replaced.start as int);
                let end = chars_until(self.marked, replaced.end as int);
                let fresh = units(text);
                WindowState {
                    ime_terminal: Some(terminal_id),
                    marked: self.marked.take(start) + text + self.marked.skip(end),
                    marked_range: match selected {
                        Some(selected) => {
                            let within = normalized(selected, fresh);
                            TextRange {
                                start: min_of(
                                    replaced.start + within.start,
                                    usize::MAX as int,
                                ) as usize,
                                end: min_of(
                                    replaced.start + within.end,
                                    usize::MAX as int,
                                ) as usize,
                            }
                        },
                        None => {
                            let behind = min_of(
                                replaced.start + fresh,
                                usize::MAX as int,
                            ) as usize;
                            TextRange { start: behind, end: behind }
                        },
                    },
                    selection: None,
                    ..self
                }
            },
        }
    }

    /// The part of the undecided text that a range covers.
    pub open spec fn marked_part(self, range: TextRange) -> Seq<char> {
        let kept = normalized(range, units(self.marked));
        self.marked.subrange(
            chars_before(self.marked, kept.start as int),
            chars_until(self.marked, kept.end as int),
        )
    }

    /// The offset in the undecided text that a cell lies at, if it is behind
    /// the cursor.
    pub open spec fn offset_at(self, row: int, column: int) -> Option<int> {
        match self.ime_target() {
            None => None,
            Some(id) => {
                let (cursor_row, cursor_column) = match shown_snapshot(self.model, id) {
                    Some(snapshot) => cursor_cell(snapshot@),
                    None => (0, 0),
                };
                Some(
                    if row == cursor_row && column >= cursor_column {
                        min_of(units(self.marked), column - cursor_column)
                    } else {
                        0
                    },
                )
            },
        }
    }

    /// What a button reports to a terminal, if the terminal is shown and wants
    /// to know.
    pub open spec fn report(
        self,
        id: TerminalId,
        button: MouseButton,
        pressed: bool,
        motion: bool,
        modifiers: Modifiers,
        mouse: TerminalMousePosition,
    ) -> Option<CommandView> {
        match shown_snapshot(self.model, id) {
            Some(snapshot) => if button is Navigate {
                None
            } else {
                let kind = report_kind(pressed, motion);
                Some(
                    CommandView::SendBytes {
                        terminal_id: id,
                        bytes: mouse_report(
                            reported_button(button_number(button), modifiers, kind),
                            MouseCell { column: mouse.column, row: mouse.row },
                            snapshot.modes,
                            kind is Release,
                        ),
                    },
                )
            },
            None => None,
        }
    }

    /// The terminal wants to know of the mouse.
    pub open spec fn wants_mouse(self, id: TerminalId) -> bool {
        self.features.mouse_reporting && match shown_snapshot(self.model, id) {
            Some(snapshot) => snapshot.modes.mouse_reporting,
            None => false,
        }
    }

    /// The cell of a terminal under the mouse.
    pub open spec fn cell_under(self, id: TerminalId, mouse: TerminalMousePosition) -> Option<
        TerminalCellPosition,
    > {
        match shown_snapshot(self.model, id) {
            Some(snapshot) => Some(endpoint_under(mouse, snapshot.size).position),
            None => None,
        }
    }

    /// A button goes down on a terminal: it is reported, or a selection
    /// begins.
    pub open spec fn grabbed(
        self,
        id: TerminalId,
        button: MouseButton,
        modifiers: Modifiers,
        mouse: TerminalMousePosition,
    ) -> (WindowState, bool, Option<CommandView>) {
        let report = self.report(id, button, true, false, modifiers, mouse);
        if self.wants_mouse(id) && report is Some {
            (
                WindowState {
                    reported: Some((id, button)),
                    reported_cell: match self.cell_under(id, mouse) {
                        Some(cell) => Some((id, cell)),
                        None => None,
                    },
                    ..self.with_marked_reset()
                },
                true,
                report,
            )
        } else {
            match shown_snapshot(self.model, id) {
                Some(snapshot) => if self.features.selection {
                    let endpoint = endpoint_under(mouse, snapshot.size);
                    (
                        WindowState {
                            selection: Some(
                                TerminalSelection {
                                    terminal_id: id,
                                    anchor: endpoint,
                                    head: endpoint,
                                },
                            ),
                            dragging: Some(id),
                            ..self.with_ime_cleared()
                        },
                        false,
                        None,
                    )
                } else {
                    (self, false, None)
                },
                None => (self, false, None),
            }
        }
    }

    /// The mouse moves while a button that was reported is down: another cell
    /// is reported, if the terminal wants motion.
    pub open spec fn report_moved(
        self,
        id: TerminalId,
        button: MouseButton,
        pressed: Option<MouseButton>,
        modifiers: Modifiers,
        mouse: TerminalMousePosition,
    ) -> (WindowState, Option<CommandView>) {
        let cell = self.cell_under(id, mouse);
        let report = self.report(id, button, true, true, modifiers, mouse);
        let wants = match shown_snapshot(self.model, id) {
            Some(snapshot) => snapshot.modes.mouse_motion || snapshot.modes.mouse_drag,
            None => false,
        };
        if pressed != Some(button) || !wants || self.reported_cell == Some((id, cell->0))
            || report is None {
            (self, None)
        } else {
            (WindowState { reported_cell: Some((id, cell->0)), ..self }, report)
        }
    }

    /// The mouse moves while a selection is drawn.
    pub open spec fn selection_moved(
        self,
        id: TerminalId,
        mouse: TerminalMousePosition,
    ) -> WindowState {
        match (self.selection, shown_snapshot(self.model, id)) {
            (Some(selection), Some(snapshot)) => WindowState {
                selection: Some(
                    TerminalSelection { head: endpoint_under(mouse, snapshot.size), ..selection },
                ),
                ..self
            },
            _ => self,
        }
    }

    /// The mouse moves.
    pub open spec fn moved(
        self,
        pressed: Option<MouseButton>,
        modifiers: Modifiers,
        mouse: TerminalMousePosition,
    ) -> (WindowState, Option<CommandView>) {
        match self.reported {
            Some((id, button)) => self.report_moved(id, button, pressed, modifiers, mouse),
            None => match self.dragging {
                Some(id) => if pressed == Some(MouseButton::Left) {
                    (self.selection_moved(id, mouse), None)
                } else {
                    (self, None)
                },
                None => (self, None),
            },
        }
    }

    /// A button goes up. Where a selection is drawn, this is its end.
    pub open spec fn released(
        self,
        button: MouseButton,
        modifiers: Modifiers,
        mouse: TerminalMousePosition,
    ) -> (WindowState, Option<CommandView>) {
        match self.reported {
            Some((id, down)) => (
                WindowState { reported: None, reported_cell: None, dragging: None, ..self },
                if down == button {
                    self.report(id, down, false, false, modifiers, mouse)
                } else {
                    None
                },
            ),
            None => (
                WindowState {
                    dragging: None,
                    ..(match self.dragging {
                        Some(id) => if button is Left && self.features.selection
                            && self.selection is Some && self.selection->0.terminal_id == id {
                            self.selection_moved(id, mouse)
                        } else {
                            self
                        },
                        None => self,
                    })
                },
                None,
            ),
        }
    }

    /// The wheel turns over a terminal: it is reported, sent as cursor keys,
    /// or scrolls the history.
    pub open spec fn wheel(
        self,
        id: TerminalId,
        modes: TerminalModes,
        lines: int,
        modifiers: Modifiers,
        cell: MouseCell,
    ) -> Option<CommandView> {
        if lines == 0 {
            None
        } else if modes.mouse_reporting && self.features.mouse_reporting {
            Some(
                CommandView::SendBytes {
                    terminal_id: id,
                    bytes: repeated(
                        mouse_report(
                            reported_button(
                                if lines > 0 {
                                    64
                                } else {
                                    65
                                },
                                modifiers,
                                TerminalMouseReportKind::Press,
                            ),
                            cell,
                            modes,
                            false,
                        ),
                        scroll_count(lines),
                    ),
                },
            )
        } else if modes.alternate_screen && modes.alternate_scroll {
            Some(
                CommandView::SendText {
                    terminal_id: id,
                    text: alternate_scroll(
                        scroll_count(lines),
                        cursor_text(
                            if lines > 0 {
                                'A'
                            } else {
                                'B'
                            },
                            1,
                            modes.application_cursor,
                        ),
                    ),
                },
            )
        } else {
            Some(CommandView::Scroll { terminal_id: id, lines })
        }
    }

    /// A key binding or a menu item. While something is open, only a rename
    /// is looked at, and it changes nothing.
    pub open spec fn acted(self, action: WindowAction) -> (WindowState, Option<CommandView>) {
        match action {
            WindowAction::RenameWorkspace => match active_workspace(self.model) {
                Some(id) => (self.renaming(RenameTarget::Workspace(id)), None),
                None => (self, None),
            },
            WindowAction::RenameTab => match self.current_tab() {
                Some(id) => (self.renaming(RenameTarget::Tab(id)), None),
                None => (self, None),
            },
            _ => if self.is_transient() {
                (self, None)
            } else {
                match action {
                    WindowAction::NewTerminalTab => (self, Some(CommandView::NewTab)),
                    WindowAction::NewWorkspace => (self, Some(CommandView::NewWorkspace)),
                    WindowAction::ToggleSidebar => (
                        WindowState { sidebar_collapsed: !self.sidebar_collapsed, ..self },
                        None,
                    ),
                    WindowAction::SplitRight => (self, self.splitting(SplitDirection::Right)),
                    WindowAction::SplitDown => (self, self.splitting(SplitDirection::Down)),
                    _ => (self, None),
                }
            },
        }
    }

    /// What splitting the focused pane asks.
    pub open spec fn splitting(self, direction: SplitDirection) -> Option<CommandView> {
        match self.focused_pane {
            Some(pane_id) => Some(CommandView::SplitPane { pane_id, direction }),
            None => None,
        }
    }

    /// The pane that activating a workspace focuses.
    pub open spec fn pane_of_workspace(self, id: WorkspaceId) -> Option<PaneId> {
        match workspace_with(self.model, id) {
            Some(workspace) => match workspace.active_tab {
                Some(tab) => match tab_at(workspace.tabs@, tab) {
                    Some(at) => Some(workspace.tabs@[at].active_pane),
                    None => None,
                },
                None => None,
            },
            None => None,
        }
    }
}

/// While a dialog is open, no key reaches the terminal.
pub proof fn dialogs_keep_the_keys(state: WindowState, key: KeyView)
    requires
        state.dialog is Some,
    ensures
        state.pressed(key).1,
        !(state.pressed(key).2 matches Some(CommandView::SendText { .. })),
        state.pressed(key).0.model == state.model,
{
}

/// While something is renamed and nothing else is open, no key reaches the
/// terminal.
pub proof fn renaming_keeps_the_keys(state: WindowState, key: KeyView)
    requires
        state.rename is Some,
        state.dialog is None,
        state.menu is None,
    ensures
        state.pressed(key).1,
        !(state.pressed(key).2 matches Some(CommandView::SendText { .. })),
{
}

/// A blank name is not taken over.
pub proof fn a_blank_name_changes_nothing(state: WindowState)
    requires
        trimmed(state.rename_value).len() == 0,
    ensures
        state.renamed().1 is None,
{
}

/// A projection that is not newer changes nothing, and the one that is shown
/// is never older than the one before.
pub proof fn older_projections_are_ignored(state: WindowState, model: ModelSnapshot)
    ensures
        model.state_revision <= state.model.state_revision ==> state.installed(model) == state,
        state.installed(model).model.state_revision >= state.model.state_revision,
{
}

/// Nothing stays open about a workspace or a tab that is gone.
pub proof fn nothing_open_is_about_something_gone(state: WindowState, model: ModelSnapshot)
    requires
        model.state_revision > state.model.state_revision,
    ensures
        ({
            let next = state.installed(model);
            &&& next.menu is Some ==> next.menu_target_exists(next.menu->0)
            &&& next.rename is Some ==> next.rename_target_exists(next.rename->0)
            &&& next.dialog is Some ==> next.dialog_target_exists(next.dialog->0)
            &&& next.ime_terminal is Some ==> next.ime_terminal == next.terminal()
        }),
{
}

/// What the input method has decided on is sent once, and nothing of it stays
/// marked.
pub proof fn composed_text_is_sent_once(state: WindowState, text: Seq<char>)
    requires
        state.ime_target() is Some,
        text.len() > 0,
    ensures
        state.composed(text).1 == Some(
            CommandView::SendText { terminal_id: state.ime_target()->0, text },
        ),
        state.composed(text).0.marked.len() == 0,
        state.composed(text).0.composed(Seq::empty()).1 is None,
{
}

proof fn lemma_window_keys()
    ensures
        "h"@ == seq!['h'],
        "j"@ == seq!['j'],
        "k"@ == seq!['k'],
        "l"@ == seq!['l'],
        "w"@ == seq!['w'],
        "v"@ == seq!['v'],
        "c"@ == seq!['c'],
        "d"@ == seq!['d'],
        forall|a: char, b: char| a != b ==> #[trigger] seq![a] != #[trigger] seq![b],
        "enter"@.len() == 5,
        "return"@.len() == 6,
        "return"@[0] == 'r',
        "escape"@.len() == 6,
        "escape"@[0] == 'e',
        "backspace"@.len() == 9,
        "pageup"@.len() == 6,
        "pagedown"@.len() == 8,
{
    reveal_strlit("h");
    reveal_strlit("j");
    reveal_strlit("k");
    reveal_strlit("l");
    reveal_strlit("w");
    reveal_strlit("v");
    reveal_strlit("c");
    reveal_strlit("d");
    reveal_strlit("enter");
    reveal_strlit("return");
    reveal_strlit("escape");
    reveal_strlit("backspace");
    reveal_strlit("pageup");
    reveal_strlit("pagedown");
    assert("h"@ =~= seq!['h']);
    assert("j"@ =~= seq!['j']);
    assert("k"@ =~= seq!['k']);
    assert("l"@ =~= seq!['l']);
    assert("w"@ =~= seq!['w']);
    assert("v"@ =~= seq!['v']);
    assert("c"@ =~= seq!['c']);
    assert("d"@ =~= seq!['d']);
    assert forall|a: char, b: char| a != b implies #[trigger] seq![a] != #[trigger] seq![b] by {
        assert(seq![a][0] == a);
        assert(seq![b][0] == b);
    }
}

/// With the platform key, `h`, `j`, `k` and `l` move the focus left, down, up and
/// right, and with shift `w` closes the focused pane.
pub proof fn focus_keys_move_the_focus(state: WindowState, key: KeyView, pane: PaneId)
    requires
        !state.is_transient(),
        key.modifiers.platform,
        state.focused_pane == Some(pane),
    ensures
        ({
            let (next, _, command) = state.pressed(key);
            let plain = !key.modifiers.shift;
            &&& key.key == "h"@ && plain ==> next == state && command == Some(
                CommandView::FocusNext { direction: FocusDirection::Left },
            )
            &&& key.key == "j"@ && plain ==> next == state && command == Some(
                CommandView::FocusNext { direction: FocusDirection::Down },
            )
            &&& key.key == "k"@ && plain ==> next == state && command == Some(
                CommandView::FocusNext { direction: FocusDirection::Up },
            )
            &&& key.key == "l"@ && plain ==> next == state && command == Some(
                CommandView::FocusNext { direction: FocusDirection::Right },
            )
            &&& key.key == "w"@ && key.modifiers.shift ==> next == state && command == Some(
                CommandView::ClosePane { pane_id: pane },
            )
        }),
{
    lemma_window_keys();
}

/// With the platform key, `v` pastes into the focused terminal, `c` copies what is
/// selected in it and else interrupts it, and `d` ends its input.
pub proof fn clipboard_keys_reach_the_terminal(state: WindowState, key: KeyView, id: TerminalId)
    requires
        !state.is_transient(),
        key.modifiers.platform,
        !key.modifiers.shift,
        state.terminal() == Some(id),
    ensures
        ({
            let (next, _, command) = state.pressed(key);
            &&& key.key == "v"@ ==> command == Some(
                CommandView::Paste {
                    terminal_id: id,
                    bracketed: state.modes().bracketed_paste && state.features.bracketed_paste,
                },
            )
            &&& key.key == "c"@ && state.copied(id) is Some ==> command == Some(
                CommandView::Copy { text: state.copied(id)->0 },
            )
            &&& key.key == "c"@ && state.copied(id) is None ==> command == Some(
                CommandView::SendText { terminal_id: id, text: seq!['\u{3}'] },
            )
            &&& key.key == "d"@ ==> command == Some(
                CommandView::SendText { terminal_id: id, text: seq!['\u{4}'] },
            )
            &&& key.key == "v"@ || key.key == "c"@ || key.key == "d"@ ==> next == state
        }),
{
    lemma_window_keys();
}

/// What is copied of a terminal is what is selected in it, where that is
/// something.
pub proof fn only_a_selection_is_copied(
    state: WindowState,
    id: TerminalId,
    selection: TerminalSelection,
    snapshot: Arc<TerminalSnapshot>,
)
    requires
        shown_snapshot(state.model, id) == Some(snapshot),
    ensures
        state.selection is None ==> state.copied(id) is None,
        state.selection == Some(selection) && selection.terminal_id != id ==> state.copied(
            id,
        ) is None,
        state.selection == Some(selection) && selection.terminal_id == id && bounds_of(
            snapshot@,
            selection,
        ) is Some && selected_text(snapshot@, selection).len() > 0 ==> state.copied(id) == Some(
            selected_text(snapshot@, selection),
        ),
{
}

/// With shift, the page keys scroll by twenty lines, up and down.
pub proof fn page_keys_scroll(state: WindowState, key: KeyView, id: TerminalId)
    requires
        !state.is_transient(),
        !key.modifiers.platform,
        key.modifiers.shift,
        state.terminal() == Some(id),
    ensures
        key.key == "pageup"@ ==> state.pressed(key).0 == state && state.pressed(key).2 == Some(
            CommandView::Scroll { terminal_id: id, lines: 20 },
        ),
        key.key == "pagedown"@ ==> state.pressed(key).0 == state && state.pressed(key).2 == Some(
            CommandView::Scroll { terminal_id: id, lines: -20 },
        ),
{
    lemma_window_keys();
}

/// Any other key sends the terminal what it stands for, and what was selected is
/// selected no longer; what an input method will report itself is not sent twice.
pub proof fn other_keys_reach_the_terminal(state: WindowState, key: KeyView, id: TerminalId)
    requires
        !state.is_transient(),
        !key.modifiers.platform,
        !key.modifiers.shift,
        state.terminal() == Some(id),
    ensures
        ({
            let (next, _, command) = state.pressed(key);
            let text = key_text(key, state.modes());
            let reported = is_typed(key) && state.input_handler is Some;
            &&& text is None || reported ==> next == state && command is None
            &&& text is Some && !reported ==> command == Some(
                CommandView::SendText { terminal_id: id, text: text->0 },
            ) && next.selection is None && next.marked.len() == 0 && next.ime_terminal is None
        }),
{
}

/// A key confirms or leaves what is asked: the workspace that was asked about is
/// closed on confirming, and nothing is on escaping.
pub proof fn a_question_is_answered_by_a_key(state: WindowState, key: KeyView, id: WorkspaceId)
    requires
        state.dialog == Some(DialogState::ConfirmCloseWorkspace { workspace_id: id }),
    ensures
        ({
            let (next, handled, command) = state.pressed(key);
            let close = Some(CommandView::CloseWorkspace { workspace_id: id });
            &&& handled
            &&& key.key == "enter"@ || key.key == "return"@ ==> command == close
                && next.dialog is None
            &&& key.key == "escape"@ ==> command is None && next.dialog is None
            &&& key.key != "enter"@ && key.key != "return"@ && key.key != "escape"@
                ==> command is None && next == state
        }),
{
    lemma_window_keys();
}

/// A workspace with tabs is closed only once that is confirmed, one without at
/// once.
pub proof fn closing_asks_where_tabs_are_open(
    state: WindowState,
    id: WorkspaceId,
)
    requires
        workspace_with(state.model, id) is Some,
    ensures
        ({
            let tabs = (workspace_with(state.model, id)->0).tabs@.len();
            let (next, command) = state.closing(id);
            &&& next.menu is None
            &&& tabs == 0 ==> command == Some(CommandView::CloseWorkspace { workspace_id: id })
            &&& tabs > 0 ==> command is None && next.dialog == Some(
                DialogState::ConfirmCloseWorkspace { workspace_id: id },
            ) && next.confirmed().1 == Some(CommandView::CloseWorkspace { workspace_id: id })
        }),
{
}

/// A rename starts with the title that there is, takes what is typed, loses its
/// last character to backspace, and is sent trimmed.
pub proof fn a_name_is_edited_by_keys(state: WindowState, key: KeyView, target: RenameTarget)
    requires
        state.rename == Some(target),
        state.dialog is None,
        state.menu is None,
    ensures
        ({
            let (next, _, command) = state.pressed(key);
            let name = state.rename_value;
            let types = !key.modifiers.platform && !key.modifiers.control && !key.modifiers.alt;
            let confirms = key.key == "enter"@ || key.key == "return"@;
            &&& key.key == "escape"@ ==> next.rename is None && command is None
            &&& key.key == "backspace"@ ==> command is None && next.rename == state.rename && (
            name.len() > 0 ==> next.rename_value == name.drop_last())
            &&& !confirms && key.key != "escape"@ && key.key != "backspace"@ && types
                && key.key_char is Some ==> next.rename_value == name + key.key_char->0
                && next.rename == state.rename && command is None
            &&& confirms ==> next.rename is None
            &&& confirms && trimmed(name).len() > 0 ==> command == Some(
                match target {
                    RenameTarget::Workspace(workspace_id) => CommandView::RenameWorkspace {
                        workspace_id,
                        title: trimmed(name),
                    },
                    RenameTarget::Tab(tab_id) => CommandView::RenameTab {
                        tab_id,
                        title: trimmed(name),
                    },
                },
            )
        }),
{
    lemma_window_keys();
}

/// A rename starts with the title that there is.
pub proof fn a_rename_starts_with_the_title(state: WindowState, id: WorkspaceId, tab: TabId)
    requires
        !state.is_transient(),
        workspace_with(state.model, id) is Some,
        tab_with(state.model, tab) is Some,
    ensures
        ({
            let next = state.renaming(RenameTarget::Workspace(id));
            &&& next.rename == Some(RenameTarget::Workspace(id))
            &&& next.rename_value == (workspace_with(state.model, id)->0).title@
        }),
        ({
            let next = state.renaming(RenameTarget::Tab(tab));
            &&& next.rename == Some(RenameTarget::Tab(tab))
            &&& next.rename_value == (tab_with(state.model, tab)->0).title@
        }),
{
}

/// An action does what it is called: it asks for a tab, a workspace or a split of
/// the focused pane, or shows and hides the sidebar.
pub proof fn actions_do_what_they_are_called(state: WindowState, pane: PaneId)
    requires
        !state.is_transient(),
        state.focused_pane == Some(pane),
    ensures
        state.acted(WindowAction::NewTerminalTab) == (state, Some(CommandView::NewTab)),
        state.acted(WindowAction::NewWorkspace) == (state, Some(CommandView::NewWorkspace)),
        state.acted(WindowAction::SplitRight) == (
            state,
            Some(CommandView::SplitPane { pane_id: pane, direction: SplitDirection::Right }),
        ),
        state.acted(WindowAction::SplitDown) == (
            state,
            Some(CommandView::SplitPane { pane_id: pane, direction: SplitDirection::Down }),
        ),
        state.acted(WindowAction::ToggleSidebar).1 is None,
        state.acted(WindowAction::ToggleSidebar).0.sidebar_collapsed == !state.sidebar_collapsed,
        state.acted(WindowAction::ToggleSidebar).0.acted(WindowAction::ToggleSidebar).0 == state,
{
}

/// A newer projection is shown: it and its focused pane replace those before.
pub proof fn a_newer_projection_is_shown(state: WindowState, model: ModelSnapshot)
    requires
        model.state_revision > state.model.state_revision,
    ensures
        state.installed(model).model == model,
        state.installed(model).focused_pane == model.focused_pane,
        state.selection is None ==> state.installed(model).selection is None,
        state.installed(model).sidebar_collapsed == state.sidebar_collapsed,
        state.installed(model).dragging == state.dragging,
{
}

/// A selection stays on the text that it was made on: it moves with the rows of
/// the screen.
pub proof fn a_selection_stays_on_its_text(
    state: WindowState,
    model: ModelSnapshot,
    selection: TerminalSelection,
    before: Arc<TerminalSnapshot>,
    after: Arc<TerminalSnapshot>,
)
    requires
        model.state_revision > state.model.state_revision,
        state.selection == Some(selection),
        shown_snapshot(state.model, selection.terminal_id) == Some(before),
        shown_snapshot(model, selection.terminal_id) == Some(after),
        i64::MIN <= after.viewport_position - before.viewport_position <= i64::MAX,
    ensures
        state.installed(model).selection == Some(
            shifted(selection, after.viewport_position - before.viewport_position),
        ),
{
}

/// What is marked is replaced where the input method says, and without a place as
/// a whole; a part of it is read back by its place.
pub proof fn marked_text_is_replaced_in_its_place(
    state: WindowState,
    front: Seq<char>,
    part: Seq<char>,
    back: Seq<char>,
    text: Seq<char>,
    id: TerminalId,
)
    requires
        state.marked == front + part + back,
        units(state.marked) <= usize::MAX,
        state.ime_target() == Some(id),
    ensures
        ({
            let range = TextRange {
                start: units(front) as usize,
                end: (units(front) + units(part)) as usize,
            };
            &&& state.marking(Some(range), text, None).marked == front + text + back
            &&& state.marking(None, text, None).marked == text
            &&& state.marking(Some(range), text, None).ime_terminal == Some(id)
            &&& state.marked_part(range) == part
            &&& units(front) + units(text) <= usize::MAX ==> state.marking(
                Some(range),
                text,
                None,
            ).marked_range == (TextRange {
                start: (units(front) + units(text)) as usize,
                end: (units(front) + units(text)) as usize,
            })
        }),
{
    code_units_add_up('a', front, part);
    code_units_add_up('a', front + part, back);
    lemma_units_nonnegative(front);
    lemma_units_nonnegative(part);
    lemma_units_nonnegative(back);
    lemma_units_nonnegative(text);
    a_part_is_found_by_its_code_units(front, part, back);
    a_part_is_found_by_its_code_units(Seq::empty(), state.marked, Seq::empty());
    code_units_add_up('a', Seq::empty(), state.marked);
    assert(Seq::<char>::empty() + state.marked + Seq::empty() =~= state.marked);
    let start = front.len() as int;
    let end = (front.len() + part.len()) as int;
    assert(state.marked.take(start) =~= front);
    assert(state.marked.skip(end) =~= back);
    assert(state.marked.subrange(start, end) =~= part);
    assert(state.marked.take(0) + text + state.marked.skip(state.marked.len() as int) =~= text);
}

/// A press starts a selection where the mouse is, moving it moves its end alone,
/// and letting go ends the drag.
pub proof fn dragging_selects(
    state: WindowState,
    id: TerminalId,
    snapshot: Arc<TerminalSnapshot>,
    modifiers: Modifiers,
    down: TerminalMousePosition,
    up: TerminalMousePosition,
)
    requires
        shown_snapshot(state.model, id) == Some(snapshot),
        state.features.selection,
        !state.features.mouse_reporting || !snapshot.modes.mouse_reporting,
        state.reported is None,
    ensures
        ({
            let (pressed, taken, sent) = state.grabbed(id, MouseButton::Left, modifiers, down);
            let (dragged, moved) = pressed.moved(Some(MouseButton::Left), modifiers, up);
            let (released, ended) = dragged.released(MouseButton::Left, modifiers, up);
            let start = endpoint_under(down, snapshot.size);
            let end = endpoint_under(up, snapshot.size);
            &&& !taken && sent is None && moved is None && ended is None
            &&& pressed.dragging == Some(id)
            &&& pressed.selection == Some(
                TerminalSelection { terminal_id: id, anchor: start, head: start },
            )
            &&& dragged.selection == Some(
                TerminalSelection { terminal_id: id, anchor: start, head: end },
            )
            &&& released.selection == dragged.selection
            &&& released.dragging is None
        }),
{
}

/// Where the program asks for the mouse, a press and the letting go are reported
/// to it, and nothing is selected.
pub proof fn a_program_is_told_of_the_mouse(
    state: WindowState,
    id: TerminalId,
    snapshot: Arc<TerminalSnapshot>,
    button: MouseButton,
    modifiers: Modifiers,
    down: TerminalMousePosition,
    up: TerminalMousePosition,
)
    requires
        shown_snapshot(state.model, id) == Some(snapshot),
        state.features.mouse_reporting,
        snapshot.modes.mouse_reporting,
        !(button is Navigate),
    ensures
        ({
            let (pressed, taken, sent) = state.grabbed(id, button, modifiers, down);
            let (released, ended) = pressed.released(button, modifiers, up);
            &&& taken
            &&& pressed.selection == state.selection
            &&& sent == Some(
                CommandView::SendBytes {
                    terminal_id: id,
                    bytes: mouse_report(
                        reported_button(
                            button_number(button),
                            modifiers,
                            TerminalMouseReportKind::Press,
                        ),
                        MouseCell { column: down.column, row: down.row },
                        snapshot.modes,
                        false,
                    ),
                },
            )
            &&& ended == Some(
                CommandView::SendBytes {
                    terminal_id: id,
                    bytes: mouse_report(
                        reported_button(
                            button_number(button),
                            modifiers,
                            TerminalMouseReportKind::Release,
                        ),
                        MouseCell { column: up.column, row: up.row },
                        snapshot.modes,
                        true,
                    ),
                },
            )
            &&& released.reported is None
        }),
{
}

/// The wheel scrolls the display, moves the cursor of a program on the alternate
/// screen, or is reported to one that asks for the mouse: up with the fifth
/// button and down with the sixth.
pub proof fn the_wheel_goes_where_it_is_wanted(
    state: WindowState,
    id: TerminalId,
    modes: TerminalModes,
    lines: int,
    modifiers: Modifiers,
    cell: MouseCell,
)
    ensures
        ({
            let sent = state.wheel(id, modes, lines, modifiers, cell);
            let reports = modes.mouse_reporting && state.features.mouse_reporting;
            let moves = modes.alternate_screen && modes.alternate_scroll;
            &&& lines == 0 ==> sent is None
            &&& lines != 0 && !reports && !moves ==> sent == Some(
                CommandView::Scroll { terminal_id: id, lines },
            )
            &&& lines > 0 && !reports && moves ==> sent == Some(
                CommandView::SendText {
                    terminal_id: id,
                    text: alternate_scroll(
                        scroll_count(lines),
                        cursor_text('A', 1, modes.application_cursor),
                    ),
                },
            )
            &&& lines < 0 && !reports && moves ==> sent == Some(
                CommandView::SendText {
                    terminal_id: id,
                    text: alternate_scroll(
                        scroll_count(lines),
                        cursor_text('B', 1, modes.application_cursor),
                    ),
                },
            )
            &&& lines > 0 && reports ==> sent == Some(
                CommandView::SendBytes {
                    terminal_id: id,
                    bytes: repeated(
                        mouse_report(
                            reported_button(64, modifiers, TerminalMouseReportKind::Press),
                            cell,
                            modes,
                            false,
                        ),
                        scroll_count(lines),
                    ),
                },
            )
            &&& lines < 0 && reports ==> sent == Some(
                CommandView::SendBytes {
                    terminal_id: id,
                    bytes: repeated(
                        mouse_report(
                            reported_button(65, modifiers, TerminalMouseReportKind::Press),
                            cell,
                            modes,
                            false,
                        ),
                        scroll_count(lines),
                    ),
                },
            )
        }),
{
}

/// A window opens with nothing selected, marked, renamed or asked.
pub proof fn a_window_opens_quietly(model: ModelSnapshot, features: WindowFeatures)
    ensures
        ({
            let state = WindowState::opened(model, features);
            &&& state.model == model
            &&& state.focused_pane == model.focused_pane
            &&& state.features == features
            &&& state.selection is None && state.dragging is None && state.reported is None
            &&& state.marked.len() == 0 && state.ime_terminal is None
            &&& state.marked_range == (TextRange { start: 0, end: 0 })
            &&& !state.is_transient()
            &&& !state.sidebar_collapsed
        }),
{
}

/// What is open about something that is still there stays open.
pub proof fn what_still_exists_stays_open(state: WindowState, model: ModelSnapshot)
    requires
        model.state_revision > state.model.state_revision,
    ensures
        ({
            let next = state.installed(model);
            let kept = WindowState { model, ..state };
            &&& state.menu is Some && kept.menu_target_exists(state.menu->0) ==> next.menu
                == state.menu
            &&& state.rename is Some && kept.rename_target_exists(state.rename->0) ==> next.rename
                == state.rename && next.rename_value == state.rename_value
            &&& state.dialog is Some && kept.dialog_target_exists(state.dialog->0) ==> next.dialog
                == state.dialog
            &&& state.ime_terminal is Some && state.ime_terminal == next.terminal() ==> next.marked
                == state.marked && next.ime_terminal == state.ime_terminal
        }),
{
}

/// A drag is reported once for each cell it comes to, while its button is held
/// and the program asks for it.
pub proof fn a_drag_is_reported_cell_by_cell(
    state: WindowState,
    id: TerminalId,
    snapshot: Arc<TerminalSnapshot>,
    button: MouseButton,
    modifiers: Modifiers,
    mouse: TerminalMousePosition,
)
    requires
        shown_snapshot(state.model, id) == Some(snapshot),
        state.reported == Some((id, button)),
        !(button is Navigate),
    ensures
        ({
            let cell = endpoint_under(mouse, snapshot.size).position;
            let (next, sent) = state.moved(Some(button), modifiers, mouse);
            let asked = snapshot.modes.mouse_motion || snapshot.modes.mouse_drag;
            &&& !asked || state.reported_cell == Some((id, cell)) ==> next == state && sent is None
            &&& asked && state.reported_cell != Some((id, cell)) ==> sent == state.report(
                id,
                button,
                true,
                true,
                modifiers,
                mouse,
            ) && sent is Some && next.reported_cell == Some((id, cell)) && next.moved(
                Some(button),
                modifiers,
                mouse,
            ).1 is None
            &&& state.moved(None, modifiers, mouse) == (state, None::<CommandView>)
        }),
{
}

/// A place on the screen is a place in the marked text where it is on the cursor's
/// row, not before the cursor.
pub proof fn marked_text_begins_at_the_cursor(
    state: WindowState,
    id: TerminalId,
    snapshot: Arc<TerminalSnapshot>,
    row: int,
    column: int,
)
    requires
        state.ime_target() == Some(id),
        shown_snapshot(state.model, id) == Some(snapshot),
    ensures
        ({
            let (cursor_row, cursor_column) = cursor_cell(snapshot@);
            let offset = state.offset_at(row, column);
            let distance = column - cursor_column;
            &&& row == cursor_row && 0 <= distance <= units(state.marked) ==> offset == Some(
                distance,
            )
            &&& row == cursor_row && distance > units(state.marked) ==> offset == Some(
                units(state.marked),
            )
            &&& row != cursor_row || distance < 0 ==> offset == Some(0int)
        }),
{
    lemma_units_nonnegative(state.marked);
}

/// The pane of a workspace is the active one of its active tab.
pub proof fn a_workspace_is_entered_at_its_active_pane(
    state: WindowState,
    id: WorkspaceId,
    tab: TabId,
    at: int,
)
    requires
        workspace_with(state.model, id) is Some,
        (workspace_with(state.model, id)->0).active_tab == Some(tab),
        tab_at((workspace_with(state.model, id)->0).tabs@, tab) == Some(at),
    ensures
        state.pane_of_workspace(id) == Some(
            (workspace_with(state.model, id)->0).tabs@[at].active_pane,
        ),
{
}

} // verus!
