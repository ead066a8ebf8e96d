//! A window onto the workspaces of a server.
use std::sync::Arc;

use vstd::prelude::*;
use vstd::slice::*;
use vstd::string::*;

use super::bindings::WindowAction;
use super::input::{
    terminal_alternate_scroll_input, terminal_input_for_keystroke_with_modes,
    terminal_key_uses_text_input_handler,
};
use super::keystroke::{KeyView, Keystroke, Modifiers};
use super::lookup::{
    active_snapshot, active_tab, active_terminal, active_terminal_id, active_terminal_snapshot,
    active_workspace, active_workspace_id, found, lemma_shown_snapshot_fits, model_fits,
    shown_pane_terminal, shown_snapshot, shown_tab, tab_by_id, tab_with, terminal_for_pane,
    terminal_snapshot_for, workspace_by_id, workspace_with,
};
use super::mouse::{
    terminal_mouse_button_input, terminal_mouse_input, MouseButton, MouseCell,
};
use super::row::{cursor_cell, cursor_columns, cursor_width, terminal_cursor_position};
use super::selection::{
    countable, endpoint_under, selected_terminal_text, selection_bounds,
    terminal_selection_endpoint_at, update_terminal_selection_for_viewport, TerminalCellPosition,
    TerminalMousePosition, TerminalSelection, TerminalSelectionEndpoint,
};
use super::tree::{find_tab, ModelSnapshot, TabDump, WorkspaceDump};
use super::utf16::{
    ceil_index, chars_before, chars_until, floor_index, normalize_utf16_range, normalized,
    ranges_do_not_cross, units, utf16_len, TextRange,
};
use super::window::{
    asked, focus_key, is_confirm, CommandView, ContextMenuTarget, DialogState, FocusDirection,
    KeyReply, RenameTarget, SplitDirection, WindowCommand, WindowFeatures, WindowState,
};
use crate::decimal::{decimal_text, push_decimal_text};
use crate::idmap::IdMap;
use crate::ids::{PaneId, TabId, TerminalId, WorkspaceId};
use crate::terminal::snapshot::{TerminalModes, TerminalSize, TerminalSnapshot};
use crate::text::{chars_of, same_text, text_of, trim};

verus! {

pub struct WorkspaceView {
    snapshot: ModelSnapshot,
    features: WindowFeatures,
    resize_requests: IdMap<TerminalSize>,
    input_handler_terminal: Option<TerminalId>,
    focused_pane: Option<PaneId>,
    selection: Option<TerminalSelection>,
    ime_terminal: Option<TerminalId>,
    ime_marked_text: String,
    ime_selected_range: TextRange,
    dragging_terminal: Option<TerminalId>,
    reported_mouse: Option<(TerminalId, MouseButton)>,
    last_reported_mouse_cell: Option<(TerminalId, TerminalCellPosition)>,
    sidebar_collapsed: bool,
    rename_target: Option<RenameTarget>,
    rename_value: String,
    context_menu: Option<ContextMenuTarget>,
    dialog: Option<DialogState>,
}

impl View for WorkspaceView {
    type V = WindowState;

    closed spec fn view(&self) -> WindowState {
        WindowState {
            model: self.snapshot,
            focused_pane: self.focused_pane,
            selection: self.selection,
            ime_terminal: self.ime_terminal,
            marked: self.ime_marked_text@,
            marked_range: self.ime_selected_range,
            dragging: self.dragging_terminal,
            reported: self.reported_mouse,
            reported_cell: self.last_reported_mouse_cell,
            sidebar_collapsed: self.sidebar_collapsed,
            rename: self.rename_target,
            rename_value: self.rename_value@,
            menu: self.context_menu,
            dialog: self.dialog,
            input_handler: self.input_handler_terminal,
            resizes: self.resize_requests@,
            features: self.features,
        }
    }
}

/// The text without its last character.
fn without_last(text: &str) -> (kept: String)
    ensures
        kept@ == if text@.len() > 0 {
            text@.drop_last()
        } else {
            text@
        },
{
    let chars: Vec<char> = chars_of(text);
    if chars.len() == 0 {
        return text.to_owned();
    }
    let kept: &[char] = slice_subrange(chars.as_slice(), 0, chars.len() - 1);
    assert(kept@ =~= text@.drop_last());
    text_of(kept)
}

/// A text of one character.
fn single(c: char) -> (text: String)
    ensures
        text@ == seq![c],
{
    let mut text: String = String::new();
    text.push(c);
    assert(text@ =~= seq![c]);
    text
}

fn read_focus_key(key: &str) -> (direction: Option<FocusDirection>)
    ensures
        direction == focus_key(key@),
{
    if same_text(key, "h") {
        Some(FocusDirection::Left)
    } else if same_text(key, "j") {
        Some(FocusDirection::Down)
    } else if same_text(key, "k") {
        Some(FocusDirection::Up)
    } else if same_text(key, "l") {
        Some(FocusDirection::Right)
    } else {
        None
    }
}

fn confirms(key: &str) -> (confirms: bool)
    ensures
        confirms == is_confirm(key@),
{
    same_text(key, "enter") || same_text(key, "return")
}

impl WorkspaceView {
    /// What is shown is within the limits, and the selection can be counted.
    pub closed spec fn wf(&self) -> bool {
        &&& model_fits(self.snapshot)
        &&& match self.selection {
            Some(selection) => countable(selection.anchor) && countable(selection.head),
            None => true,
        }
    }

    pub fn new(snapshot: ModelSnapshot, features: WindowFeatures) -> (view: Self)
        requires
            model_fits(snapshot),
        ensures
            view.wf(),
            view@ == WindowState::opened(snapshot, features),
    {
        let focused_pane: Option<PaneId> = snapshot.focused_pane;
        let view = Self {
            snapshot,
            features,
            resize_requests: IdMap::new(),
            input_handler_terminal: None,
            focused_pane,
            selection: None,
            ime_terminal: None,
            ime_marked_text: String::new(),
            ime_selected_range: TextRange { start: 0, end: 0 },
            dragging_terminal: None,
            reported_mouse: None,
            last_reported_mouse_cell: None,
            sidebar_collapsed: false,
            rename_target: None,
            rename_value: String::new(),
            context_menu: None,
            dialog: None,
        };
        assert(view@ =~= WindowState::opened(snapshot, features));
        view
    }

    pub fn snapshot(&self) -> (snapshot: &ModelSnapshot)
        ensures
            *snapshot == self@.model,
    {
        &self.snapshot
    }

    pub fn selection(&self) -> (selection: Option<TerminalSelection>)
        ensures
            selection == self@.selection,
    {
        self.selection
    }

    pub fn focused_pane(&self) -> (pane: Option<PaneId>)
        ensures
            pane == self@.focused_pane,
    {
        self.focused_pane
    }

    pub fn is_sidebar_collapsed(&self) -> (collapsed: bool)
        ensures
            collapsed == self@.sidebar_collapsed,
    {
        self.sidebar_collapsed
    }

    pub fn context_menu(&self) -> (target: Option<ContextMenuTarget>)
        ensures
            target == self@.menu,
    {
        self.context_menu
    }

    pub fn has_transient_ui(&self) -> (transient: bool)
        ensures
            transient == self@.is_transient(),
    {
        self.rename_target.is_some() || self.context_menu.is_some() || self.dialog.is_some()
    }

    pub fn active_terminal_id(&self) -> (id: Option<TerminalId>)
        ensures
            id == self@.terminal(),
    {
        active_terminal_id(&self.snapshot, self.focused_pane)
    }

    fn active_modes(&self) -> (modes: TerminalModes)
        ensures
            modes == self@.modes(),
    {
        match active_terminal_snapshot(&self.snapshot, self.focused_pane) {
            Some(snapshot) => snapshot.modes,
            None => TerminalModes::default(),
        }
    }

    /// Notes the terminal that an input handler is installed for.
    pub fn install_input_handler(&mut self)
        requires
            old(self).wf(),
        ensures
            final(self).wf(),
            final(self)@ == (WindowState {
                input_handler: match active_snapshot(old(self)@.model, old(self)@.focused_pane) {
                    Some(snapshot) => Some(snapshot.terminal_id),
                    None => None,
                },
                ..old(self)@
            }),
    {
        let terminal: Option<TerminalId> = match active_terminal_snapshot(
            &self.snapshot,
            self.focused_pane,
        ) {
            Some(snapshot) => Some(snapshot.terminal_id),
            None => None,
        };
        self.input_handler_terminal = terminal;
    }

    pub fn clear_ime(&mut self)
        requires
            old(self).wf(),
        ensures
            final(self).wf(),
            final(self)@ == old(self)@.with_ime_cleared(),
    {
        self.ime_terminal = None;
        self.reset_ime_marked_text();
    }

    /// Gives up the text that the input method has not decided on.
    pub fn reset_ime_marked_text(&mut self)
        requires
            old(self).wf(),
        ensures
            final(self).wf(),
            final(self)@ == old(self)@.with_marked_reset(),
    {
        self.ime_marked_text = String::new();
        self.ime_selected_range = TextRange { start: 0, end: 0 };
        assert(self@ =~= old(self)@.with_marked_reset());
    }

    pub fn toggle_sidebar(&mut self)
        requires
            old(self).wf(),
        ensures
            final(self).wf(),
            final(self)@ == (WindowState {
                sidebar_collapsed: !old(self)@.sidebar_collapsed,
                ..old(self)@
            }),
    {
        self.sidebar_collapsed = !self.sidebar_collapsed;
    }

    /// Closing a workspace is asked for.
    pub fn request_close_workspace(&mut self, workspace_id: WorkspaceId) -> (command: Option<
        WindowCommand,
    >)
        requires
            old(self).wf(),
        ensures
            final(self).wf(),
            (final(self)@, asked(command)) == old(self)@.closing(workspace_id),
    {
        let empty: bool = match workspace_by_id(&self.snapshot, workspace_id) {
            Some(workspace) => workspace.tabs.len() == 0,
            None => {
                return None;
            },
        };
        self.context_menu = None;
        if empty {
            Some(WindowCommand::CloseWorkspace { workspace_id })
        } else {
            self.dialog = Some(DialogState::ConfirmCloseWorkspace { workspace_id });
            None
        }
    }

    pub fn confirm_dialog(&mut self) -> (command: Option<WindowCommand>)
        requires
            old(self).wf(),
        ensures
            final(self).wf(),
            (final(self)@, asked(command)) == old(self)@.confirmed(),
    {
        match self.dialog {
            Some(DialogState::ConfirmCloseWorkspace { workspace_id }) => {
                self.dialog = None;
                Some(WindowCommand::CloseWorkspace { workspace_id })
            },
            None => None,
        }
    }

    pub fn cancel_dialog(&mut self)
        requires
            old(self).wf(),
        ensures
            final(self).wf(),
            final(self)@ == (WindowState { dialog: None, ..old(self)@ }),
    {
        self.dialog = None;
    }

    /// Begins to rename a workspace or a tab, unless something is open.
    pub fn begin_rename(&mut self, target: RenameTarget)
        requires
            old(self).wf(),
        ensures
            final(self).wf(),
            final(self)@ == old(self)@.renaming(target),
    {
        if self.has_transient_ui() {
            return;
        }
        let title: String = match target {
            RenameTarget::Workspace(id) => match workspace_by_id(&self.snapshot, id) {
                Some(workspace) => workspace.title.as_str().to_owned(),
                None => {
                    return;
                },
            },
            RenameTarget::Tab(id) => match tab_by_id(&self.snapshot, id) {
                Some(tab) => tab.title.as_str().to_owned(),
                None => {
                    return;
                },
            },
        };
        self.rename_target = Some(target);
        self.rename_value = title;
    }

    pub fn cancel_rename(&mut self)
        requires
            old(self).wf(),
        ensures
            final(self).wf(),
            final(self)@ == if old(self)@.rename is Some {
                old(self)@.without_rename()
            } else {
                old(self)@
            },
    {
        if self.rename_target.is_some() {
            self.rename_target = None;
            self.rename_value = String::new();
            assert(self@ =~= old(self)@.without_rename());
        }
    }

    /// Takes the new name over.
    pub fn commit_rename(&mut self) -> (command: Option<WindowCommand>)
        requires
            old(self).wf(),
        ensures
            final(self).wf(),
            (final(self)@, asked(command)) == old(self)@.renamed(),
    {
        let target: RenameTarget = match self.rename_target {
            Some(target) => target,
            None => {
                return None;
            },
        };
        let title: String = trim(self.rename_value.as_str());
        self.rename_target = None;
        self.rename_value = String::new();
        assert(self@ =~= old(self)@.without_rename());
        if title.as_str().is_empty() {
            return None;
        }
        match target {
            RenameTarget::Workspace(workspace_id) => Some(
                WindowCommand::RenameWorkspace { workspace_id, title },
            ),
            RenameTarget::Tab(tab_id) => Some(WindowCommand::RenameTab { tab_id, title }),
        }
    }

    fn handle_dialog_key(&mut self, keystroke: &Keystroke) -> (command: Option<WindowCommand>)
        requires
            old(self).wf(),
        ensures
            final(self).wf(),
            (final(self)@, asked(command)) == old(self)@.dialog_key(keystroke@),
    {
        let key: &str = keystroke.key.as_str();
        if confirms(key) {
            self.confirm_dialog()
        } else {
            if same_text(key, "escape") {
                self.cancel_dialog();
            }
            None
        }
    }

    fn handle_rename_key(&mut self, keystroke: &Keystroke) -> (command: Option<WindowCommand>)
        requires
            old(self).wf(),
            old(self)@.rename is Some,
        ensures
            final(self).wf(),
            (final(self)@, asked(command)) == old(self)@.rename_key(keystroke@),
    {
        let key: &str = keystroke.key.as_str();
        if confirms(key) {
            return self.commit_rename();
        }
        if same_text(key, "escape") {
            self.cancel_rename();
        } else if same_text(key, "backspace") {
            let kept: String = without_last(self.rename_value.as_str());
            self.rename_value = kept;
        } else if !keystroke.modifiers.platform && !keystroke.modifiers.control
            && !keystroke.modifiers.alt {
            if let Some(typed) = &keystroke.key_char {
                self.rename_value.append(typed.as_str());
            }
        }
        None
    }

    /// The text that copying takes from a terminal.
    pub fn copy_terminal_selection(&self, terminal_id: TerminalId) -> (text: Option<String>)
        requires
            self.wf(),
        ensures
            match text {
                Some(text) => self@.copied(terminal_id) == Some(text@),
                None => self@.copied(terminal_id) is None,
            },
    {
        let selection: TerminalSelection = match self.selection {
            Some(selection) => selection,
            None => {
                return None;
            },
        };
        if selection.terminal_id != terminal_id {
            return None;
        }
        proof {
            lemma_shown_snapshot_fits(self.snapshot, terminal_id);
        }
        match terminal_snapshot_for(&self.snapshot, terminal_id) {
            Some(snapshot) => {
                if selection_bounds(&**snapshot, selection).is_none() {
                    return None;
                }
                let text: String = selected_terminal_text(&**snapshot, selection);
                if text.as_str().is_empty() {
                    None
                } else {
                    Some(text)
                }
            },
            None => None,
        }
    }

    /// A shortcut of the window, if the key is one.
    fn handle_shortcut(&self, keystroke: &Keystroke) -> (reply: Option<Option<WindowCommand>>)
        requires
            self.wf(),
        ensures
            match reply {
                Some(command) => self@.shortcut(keystroke@) == Some(asked(command)),
                None => self@.shortcut(keystroke@) is None,
            },
    {
        if !keystroke.modifiers.platform {
            return None;
        }
        let key: &str = keystroke.key.as_str();
        let shift: bool = keystroke.modifiers.shift;
        if let Some(direction) = read_focus_key(key) {
            if !shift {
                return Some(
                    if self.focused_pane.is_none() {
                        None
                    } else {
                        Some(WindowCommand::FocusNext { direction })
                    },
                );
            }
        }
        if same_text(key, "w") && shift {
            return Some(
                match self.focused_pane {
                    Some(pane_id) => Some(WindowCommand::ClosePane { pane_id }),
                    None => None,
                },
            );
        }
        if shift {
            return None;
        }
        let terminal: Option<TerminalId> = self.active_terminal_id();
        if same_text(key, "v") {
            return Some(
                match terminal {
                    Some(terminal_id) => Some(
                        WindowCommand::Paste {
                            terminal_id,
                            bracketed: self.active_modes().bracketed_paste
                                && self.features.bracketed_paste,
                        },
                    ),
                    None => None,
                },
            );
        }
        if same_text(key, "c") {
            return Some(
                match terminal {
                    Some(terminal_id) => match self.copy_terminal_selection(terminal_id) {
                        Some(text) => Some(WindowCommand::Copy { text }),
                        None => Some(
                            WindowCommand::SendText { terminal_id, text: single('\u{3}') },
                        ),
                    },
                    None => None,
                },
            );
        }
        if same_text(key, "d") {
            return Some(
                match terminal {
                    Some(terminal_id) => Some(
                        WindowCommand::SendText { terminal_id, text: single('\u{4}') },
                    ),
                    None => None,
                },
            );
        }
        None
    }

    fn handle_terminal_key(&mut self, keystroke: &Keystroke) -> (command: Option<WindowCommand>)
        requires
            old(self).wf(),
        ensures
            final(self).wf(),
            (final(self)@, asked(command)) == old(self)@.terminal_key(keystroke@),
    {
        let terminal_id: TerminalId = match self.active_terminal_id() {
            Some(terminal_id) => terminal_id,
            None => {
                return None;
            },
        };
        let modes: TerminalModes = self.active_modes();
        let key: &str = keystroke.key.as_str();
        if keystroke.modifiers.shift {
            if same_text(key, "pageup") {
                return Some(WindowCommand::Scroll { terminal_id, lines: 20 });
            }
            if same_text(key, "pagedown") {
                proof {
                    reveal_strlit("pageup");
                    reveal_strlit("pagedown");
                    assert("pageup"@.len() != "pagedown"@.len());
                }
                return Some(WindowCommand::Scroll { terminal_id, lines: -20 });
            }
        }
        let text: String = match terminal_input_for_keystroke_with_modes(keystroke, modes) {
            Some(text) => text,
            None => {
                return None;
            },
        };
        if terminal_key_uses_text_input_handler(keystroke) && self.input_handler_terminal.is_some() {
            // Printable text is forwarded to the focused input handler after
            // the key event. Let the handler own it so a printable character
            // is never sent to the PTY twice.
            return None;
        }
        self.selection = None;
        self.clear_ime();
        Some(WindowCommand::SendText { terminal_id, text })
    }

    /// A pressed key.
    pub fn handle_key_down(&mut self, keystroke: &Keystroke) -> (reply: KeyReply)
        requires
            old(self).wf(),
        ensures
            final(self).wf(),
            (final(self)@, reply.taken, asked(reply.command)) == old(self)@.pressed(keystroke@),
    {
        if self.dialog.is_some() {
            let command: Option<WindowCommand> = self.handle_dialog_key(keystroke);
            return KeyReply { taken: true, command };
        }
        if self.context_menu.is_some() {
            self.context_menu = None;
            return KeyReply { taken: true, command: None };
        }
        if self.rename_target.is_some() {
            let command: Option<WindowCommand> = self.handle_rename_key(keystroke);
            return KeyReply { taken: true, command };
        }
        if let Some(command) = self.handle_shortcut(keystroke) {
            return KeyReply { taken: false, command };
        }
        let command: Option<WindowCommand> = self.handle_terminal_key(keystroke);
        KeyReply { taken: false, command }
    }

    /// Shows a newer projection of the server; returns whether it is one.
    pub fn install_snapshot(&mut self, snapshot: ModelSnapshot) -> (installed: bool)
        requires
            old(self).wf(),
            model_fits(snapshot),
        ensures
            final(self).wf(),
            final(self)@ == old(self)@.installed(snapshot),
            installed == (snapshot.state_revision > old(self)@.model.state_revision),
    {
        if snapshot.state_revision <= self.snapshot.state_revision {
            return false;
        }
        let selection: Option<TerminalSelection> = match self.selection {
            Some(selection) => {
                let mut selection: TerminalSelection = selection;
                if let Some(previous) = terminal_snapshot_for(
                    &self.snapshot,
                    selection.terminal_id,
                ) {
                    if let Some(next) = terminal_snapshot_for(&snapshot, selection.terminal_id) {
                        update_terminal_selection_for_viewport(
                            &mut selection,
                            previous.viewport_position,
                            next.viewport_position,
                        );
                    }
                }
                Some(selection)
            },
            None => None,
        };
        assert(selection == old(self)@.selection_in(snapshot));
        self.selection = selection;
        self.focused_pane = snapshot.focused_pane;
        self.snapshot = snapshot;
        self.tidy();
        true
    }

    /// Closes whatever is open about something that is gone.
    fn tidy(&mut self)
        requires
            old(self).wf(),
        ensures
            final(self).wf(),
            final(self)@ == old(self)@.tidied(),
    {
        let lost_menu: bool = match self.context_menu {
            Some(ContextMenuTarget::Workspace(id)) => workspace_by_id(
                &self.snapshot,
                id,
            ).is_none(),
            Some(ContextMenuTarget::Tab(id)) => tab_by_id(&self.snapshot, id).is_none(),
            None => false,
        };
        if lost_menu {
            self.context_menu = None;
        }
        let lost_rename: bool = match self.rename_target {
            Some(RenameTarget::Workspace(id)) => workspace_by_id(&self.snapshot, id).is_none(),
            Some(RenameTarget::Tab(id)) => tab_by_id(&self.snapshot, id).is_none(),
            None => false,
        };
        if lost_rename {
            self.rename_target = None;
            self.rename_value = String::new();
        }
        let lost_dialog: bool = match self.dialog {
            Some(DialogState::ConfirmCloseWorkspace { workspace_id }) => workspace_by_id(
                &self.snapshot,
                workspace_id,
            ).is_none(),
            None => false,
        };
        if lost_dialog {
            self.dialog = None;
        }
        let lost_ime: bool = match self.ime_terminal {
            Some(id) => match self.active_terminal_id() {
                Some(active) => id != active,
                None => true,
            },
            None => false,
        };
        if lost_ime {
            self.clear_ime();
        }
        assert(self@ =~= old(self)@.tidied());
    }

    /// A key binding or a menu item.
    pub fn act(&mut self, action: WindowAction) -> (command: Option<WindowCommand>)
        requires
            old(self).wf(),
        ensures
            final(self).wf(),
            (final(self)@, asked(command)) == old(self)@.acted(action),
    {
        match action {
            WindowAction::RenameWorkspace => {
                if let Some(id) = active_workspace_id(&self.snapshot) {
                    self.begin_rename(RenameTarget::Workspace(id));
                }
                None
            },
            WindowAction::RenameTab => {
                let tab: Option<TabId> = match active_workspace_id(&self.snapshot) {
                    Some(id) => match workspace_by_id(&self.snapshot, id) {
                        Some(workspace) => workspace.active_tab,
                        None => None,
                    },
                    None => None,
                };
                if let Some(id) = tab {
                    self.begin_rename(RenameTarget::Tab(id));
                }
                None
            },
            _ => {
                if self.has_transient_ui() {
                    return None;
                }
                match action {
                    WindowAction::NewTerminalTab => Some(WindowCommand::NewTab),
                    WindowAction::NewWorkspace => Some(WindowCommand::NewWorkspace),
                    WindowAction::ToggleSidebar => {
                        self.toggle_sidebar();
                        None
                    },
                    WindowAction::SplitRight => self.split_active_pane(SplitDirection::Right),
                    WindowAction::SplitDown => self.split_active_pane(SplitDirection::Down),
                    _ => None,
                }
            },
        }
    }

    pub fn split_active_pane(&self, direction: SplitDirection) -> (command: Option<WindowCommand>)
        ensures
            asked(command) == self@.splitting(direction),
    {
        match self.focused_pane {
            Some(pane_id) => Some(WindowCommand::SplitPane { pane_id, direction }),
            None => None,
        }
    }

    /// A click on a tab activates it, unless something is open.
    pub fn press_tab(&mut self, tab_id: TabId, active_pane: PaneId) -> (command: Option<
        WindowCommand,
    >)
        requires
            old(self).wf(),
        ensures
            final(self).wf(),
            if old(self)@.is_transient() {
                command is None && final(self)@ == old(self)@
            } else {
                &&& asked(command) == Some(CommandView::ActivateTab { tab_id })
                &&& final(self)@ == (WindowState {
                    focused_pane: Some(active_pane),
                    selection: None,
                    ..old(self)@
                })
            },
    {
        if self.has_transient_ui() {
            return None;
        }
        self.focused_pane = Some(active_pane);
        self.selection = None;
        Some(WindowCommand::ActivateTab { tab_id })
    }

    /// A click on the plus sign opens a tab, unless something is open.
    pub fn press_new_tab(&self) -> (command: Option<WindowCommand>)
        ensures
            asked(command) == if self@.is_transient() {
                None
            } else {
                Some(CommandView::NewTab)
            },
    {
        if self.has_transient_ui() {
            None
        } else {
            Some(WindowCommand::NewTab)
        }
    }

    /// A click on a workspace activates it and focuses its active pane.
    pub fn press_workspace(&mut self, workspace_id: WorkspaceId) -> (command: WindowCommand)
        requires
            old(self).wf(),
        ensures
            final(self).wf(),
            command@ == (CommandView::ActivateWorkspace { workspace_id }),
            final(self)@ == (WindowState {
                menu: None,
                focused_pane: old(self)@.pane_of_workspace(workspace_id),
                selection: None,
                ..old(self)@
            }),
    {
        let pane: Option<PaneId> = match workspace_by_id(&self.snapshot, workspace_id) {
            Some(workspace) => match workspace.active_tab {
                Some(tab) => match find_tab(&workspace.tabs, tab) {
                    Some(at) => Some(workspace.tabs[at].active_pane),
                    None => None,
                },
                None => None,
            },
            None => None,
        };
        self.context_menu = None;
        self.focused_pane = pane;
        self.selection = None;
        WindowCommand::ActivateWorkspace { workspace_id }
    }

    pub fn open_menu(&mut self, target: ContextMenuTarget)
        requires
            old(self).wf(),
        ensures
            final(self).wf(),
            final(self)@ == (WindowState { menu: Some(target), ..old(self)@ }),
    {
        self.context_menu = Some(target);
    }

    pub fn close_menu(&mut self)
        requires
            old(self).wf(),
        ensures
            final(self).wf(),
            final(self)@ == (WindowState { menu: None, ..old(self)@ }),
    {
        self.context_menu = None;
    }

    /// The menu item that renames what the menu is about.
    pub fn menu_rename(&mut self, target: ContextMenuTarget)
        requires
            old(self).wf(),
        ensures
            final(self).wf(),
            final(self)@ == (WindowState { menu: None, ..old(self)@ }).renaming(
                match target {
                    ContextMenuTarget::Workspace(id) => RenameTarget::Workspace(id),
                    ContextMenuTarget::Tab(id) => RenameTarget::Tab(id),
                },
            ),
    {
        self.context_menu = None;
        match target {
            ContextMenuTarget::Workspace(id) => self.begin_rename(RenameTarget::Workspace(id)),
            ContextMenuTarget::Tab(id) => self.begin_rename(RenameTarget::Tab(id)),
        }
    }

    /// The menu item that closes what the menu is about.
    pub fn menu_close(&mut self, target: ContextMenuTarget) -> (command: Option<WindowCommand>)
        requires
            old(self).wf(),
        ensures
            final(self).wf(),
            (final(self)@, asked(command)) == match target {
                ContextMenuTarget::Workspace(id) => old(self)@.closing(id),
                ContextMenuTarget::Tab(id) => (
                    WindowState { menu: None, ..old(self)@ },
                    Some(CommandView::CloseTab { tab_id: id }),
                ),
            },
    {
        match target {
            ContextMenuTarget::Workspace(id) => self.request_close_workspace(id),
            ContextMenuTarget::Tab(id) => {
                self.context_menu = None;
                Some(WindowCommand::CloseTab { tab_id: id })
            },
        }
    }
}

impl WorkspaceView {
    /// The undecided text of the input method, where it is drawn on a
    /// terminal.
    pub fn ime_marked_text_for(&self, terminal_id: TerminalId) -> (text: Option<String>)
        ensures
            match text {
                Some(text) => self@.ime_terminal == Some(terminal_id) && text@ == self@.marked
                    && text@.len() > 0,
                None => self@.ime_terminal != Some(terminal_id) || self@.marked.len() == 0,
            },
    {
        let here: bool = match self.ime_terminal {
            Some(id) => id == terminal_id,
            None => false,
        };
        if here && !self.ime_marked_text.as_str().is_empty() {
            Some(self.ime_marked_text.as_str().to_owned())
        } else {
            None
        }
    }

    /// The terminal that composed text goes to.
    pub fn ime_target(&self) -> (id: Option<TerminalId>)
        ensures
            id == self@.ime_target(),
    {
        match self.ime_terminal {
            Some(id) => Some(id),
            None => self.active_terminal_id(),
        }
    }

    /// The part of the undecided text that a range covers, and the range as
    /// far as it lies within the text.
    pub fn text_for_range(&self, range: TextRange) -> (part: (String, TextRange))
        ensures
            part.0@ == self@.marked_part(range),
            part.1 == normalized(range, units(self@.marked)),
    {
        let marked: &str = self.ime_marked_text.as_str();
        let kept: TextRange = normalize_utf16_range(range, utf16_len(marked));
        let chars: Vec<char> = chars_of(marked);
        let start: usize = floor_index(chars.as_slice(), kept.start);
        let end: usize = ceil_index(chars.as_slice(), kept.end);
        proof {
            ranges_do_not_cross(self@.marked, kept.start as int, kept.end as int);
        }
        let part: String = text_of(slice_subrange(chars.as_slice(), start, end));
        (part, kept)
    }

    /// The selected range of the undecided text, if a terminal takes input.
    pub fn selected_text_range(&self) -> (range: Option<TextRange>)
        ensures
            range == if self@.terminal() is None && self@.ime_terminal is None {
                None
            } else {
                Some(normalized(self@.marked_range, units(self@.marked)))
            },
    {
        if self.active_terminal_id().is_none() && self.ime_terminal.is_none() {
            return None;
        }
        Some(
            normalize_utf16_range(
                self.ime_selected_range,
                utf16_len(self.ime_marked_text.as_str()),
            ),
        )
    }

    /// The range of the undecided text.
    pub fn marked_text_range(&self) -> (range: Option<TextRange>)
        ensures
            range == if self@.marked.len() > 0 && self@.ime_terminal is Some {
                Some(TextRange { start: 0, end: units(self@.marked) as usize })
            } else {
                None
            },
    {
        if !self.ime_marked_text.as_str().is_empty() && self.ime_terminal.is_some() {
            Some(TextRange { start: 0, end: utf16_len(self.ime_marked_text.as_str()) })
        } else {
            None
        }
    }

    /// The input method has decided on a text.
    pub fn replace_text_in_range(&mut self, new_text: &str) -> (command: Option<WindowCommand>)
        requires
            old(self).wf(),
        ensures
            final(self).wf(),
            (final(self)@, asked(command)) == old(self)@.composed(new_text@),
    {
        let terminal_id: TerminalId = match self.ime_target() {
            Some(terminal_id) => terminal_id,
            None => {
                return None;
            },
        };
        self.ime_terminal = Some(terminal_id);
        self.selection = None;
        self.reset_ime_marked_text();
        if new_text.is_empty() {
            None
        } else {
            Some(WindowCommand::SendText { terminal_id, text: new_text.to_owned() })
        }
    }

    /// The input method has replaced a part of the text it has not decided on;
    /// returns whether a terminal takes it.
    pub fn replace_and_mark_text_in_range(
        &mut self,
        range: Option<TextRange>,
        new_text: &str,
        new_selected_range: Option<TextRange>,
    ) -> (marked: bool)
        requires
            old(self).wf(),
        ensures
            final(self).wf(),
            final(self)@ == old(self)@.marking(range, new_text@, new_selected_range),
            marked == (old(self)@.ime_target() is Some),
    {
        let terminal_id: TerminalId = match self.ime_target() {
            Some(terminal_id) => terminal_id,
            None => {
                return false;
            },
        };
        let ghost current = self@.marked;
        let length: usize = utf16_len(self.ime_marked_text.as_str());
        let replaced: TextRange = match range {
            Some(range) => normalize_utf16_range(range, length),
            None => TextRange { start: 0, end: length },
        };
        let chars: Vec<char> = chars_of(self.ime_marked_text.as_str());
        let start: usize = floor_index(chars.as_slice(), replaced.start);
        let end: usize = ceil_index(chars.as_slice(), replaced.end);
        let mut updated: String = text_of(slice_subrange(chars.as_slice(), 0, start));
        updated.append(new_text);
        let rest: String = text_of(slice_subrange(chars.as_slice(), end, chars.len()));
        updated.append(rest.as_str());
        assert(updated@ =~= current.take(start as int) + new_text@ + current.skip(end as int));
        let fresh: usize = utf16_len(new_text);
        let selected: TextRange = match new_selected_range {
            Some(selected) => {
                let within: TextRange = normalize_utf16_range(selected, fresh);
                TextRange {
                    start: replaced.start.saturating_add(within.start),
                    end: replaced.start.saturating_add(within.end),
                }
            },
            None => {
                let behind: usize = replaced.start.saturating_add(fresh);
                TextRange { start: behind, end: behind }
            },
        };
        self.ime_terminal = Some(terminal_id);
        self.ime_marked_text = updated;
        self.ime_selected_range = selected;
        self.selection = None;
        assert(self@ =~= old(self)@.marking(range, new_text@, new_selected_range));
        true
    }

    /// The offset in the undecided text that the cell under the mouse lies at.
    pub fn character_index_for_point(&self, mouse: TerminalMousePosition) -> (offset: Option<usize>)
        ensures
            match offset {
                Some(offset) => self@.offset_at(
                    if mouse.row > 0 {
                        mouse.row - 1
                    } else {
                        0
                    },
                    if mouse.column > 0 {
                        mouse.column - 1
                    } else {
                        0
                    },
                ) == Some(offset as int),
                None => self@.ime_target() is None,
            },
    {
        let terminal_id: TerminalId = match self.ime_target() {
            Some(terminal_id) => terminal_id,
            None => {
                return None;
            },
        };
        let row: usize = mouse.row.saturating_sub(1);
        let column: usize = mouse.column.saturating_sub(1);
        let (cursor_row, cursor_column) = match terminal_snapshot_for(&self.snapshot, terminal_id) {
            Some(snapshot) => terminal_cursor_position(&**snapshot),
            None => (0, 0),
        };
        Some(
            if row == cursor_row && column >= cursor_column {
                utf16_len(self.ime_marked_text.as_str()).min(column - cursor_column)
            } else {
                0
            },
        )
    }

    pub fn set_selected_text_range(&mut self, range: TextRange)
        requires
            old(self).wf(),
        ensures
            final(self).wf(),
            final(self)@ == (WindowState {
                marked_range: normalized(range, units(old(self)@.marked)),
                ..old(self)@
            }),
    {
        let length: usize = utf16_len(self.ime_marked_text.as_str());
        self.ime_selected_range = normalize_utf16_range(range, length);
    }

    /// The length of the undecided text, if a terminal takes input.
    pub fn text_length_utf16(&self) -> (length: Option<usize>)
        ensures
            match length {
                Some(length) => (self@.terminal() is Some || self@.ime_terminal is Some) && length
                    == units(self@.marked),
                None => self@.terminal() is None && self@.ime_terminal is None,
            },
    {
        if self.accepts_text_input() {
            Some(utf16_len(self.ime_marked_text.as_str()))
        } else {
            None
        }
    }

    /// Sends what is composed next to the active terminal, or to the one whose
    /// element asks where none is active.
    pub fn route_ime(&mut self, element_terminal: TerminalId) -> (terminal_id: TerminalId)
        requires
            old(self).wf(),
        ensures
            final(self).wf(),
            terminal_id == match old(self)@.terminal() {
                Some(active) => active,
                None => element_terminal,
            },
            final(self)@ == (WindowState { ime_terminal: Some(terminal_id), ..old(self)@ }),
    {
        let terminal_id: TerminalId = match self.active_terminal_id() {
            Some(active) => active,
            None => element_terminal,
        };
        self.ime_terminal = Some(terminal_id);
        terminal_id
    }

    /// Whether the element of a terminal takes typed text.
    pub fn accepts_text_for(&self, terminal_id: TerminalId) -> (accepts: bool)
        ensures
            accepts == (self@.terminal() is Some || self@.ime_terminal == Some(terminal_id)),
    {
        let composing: bool = match self.ime_terminal {
            Some(id) => id == terminal_id,
            None => false,
        };
        self.active_terminal_id().is_some() || composing
    }

    /// The row and column of a terminal's cursor and how many columns it
    /// takes; where nothing of the terminal has arrived, a given cell.
    pub fn caret(&self, terminal_id: TerminalId, unknown: (usize, usize)) -> (caret: (
        (usize, usize),
        usize,
    ))
        ensures
            match shown_snapshot(self@.model, terminal_id) {
                Some(snapshot) => (caret.0.0 as int, caret.0.1 as int) == cursor_cell(snapshot@)
                    && caret.1 == cursor_width(snapshot@),
                None => caret == (unknown, 1usize),
            },
    {
        match terminal_snapshot_for(&self.snapshot, terminal_id) {
            Some(snapshot) => (
                terminal_cursor_position(&**snapshot),
                cursor_columns(&**snapshot),
            ),
            None => (unknown, 1),
        }
    }

    pub fn accepts_text_input(&self) -> (accepts: bool)
        ensures
            accepts == (self@.terminal() is Some || self@.ime_terminal is Some),
    {
        self.active_terminal_id().is_some() || self.ime_terminal.is_some()
    }

    fn report_button(
        &self,
        terminal_id: TerminalId,
        button: MouseButton,
        pressed: bool,
        motion: bool,
        modifiers: Modifiers,
        mouse: TerminalMousePosition,
    ) -> (command: Option<WindowCommand>)
        ensures
            asked(command) == self@.report(terminal_id, button, pressed, motion, modifiers, mouse),
    {
        match terminal_snapshot_for(&self.snapshot, terminal_id) {
            Some(snapshot) => {
                let cell = MouseCell { column: mouse.column, row: mouse.row };
                match terminal_mouse_button_input(
                    cell,
                    button,
                    pressed,
                    motion,
                    modifiers,
                    snapshot.modes,
                ) {
                    Some(bytes) => Some(WindowCommand::SendBytes { terminal_id, bytes }),
                    None => None,
                }
            },
            None => None,
        }
    }

    fn endpoint_at(&self, terminal_id: TerminalId, mouse: TerminalMousePosition) -> (endpoint:
        Option<TerminalSelectionEndpoint>)
        requires
            self.wf(),
        ensures
            endpoint == match shown_snapshot(self@.model, terminal_id) {
                Some(snapshot) => Some(endpoint_under(mouse, snapshot.size)),
                None => None,
            },
            match endpoint {
                Some(endpoint) => countable(endpoint),
                None => true,
            },
    {
        proof {
            lemma_shown_snapshot_fits(self.snapshot, terminal_id);
        }
        match terminal_snapshot_for(&self.snapshot, terminal_id) {
            Some(snapshot) => Some(terminal_selection_endpoint_at(mouse, snapshot.size)),
            None => None,
        }
    }

    /// A button goes down on a terminal; returns whether the terminal was told
    /// of it, and how.
    pub fn begin_mouse(
        &mut self,
        terminal_id: TerminalId,
        button: MouseButton,
        modifiers: Modifiers,
        mouse: TerminalMousePosition,
    ) -> (reply: (bool, Option<WindowCommand>))
        requires
            old(self).wf(),
        ensures
            final(self).wf(),
            (final(self)@, reply.0, asked(reply.1)) == old(self)@.grabbed(
                terminal_id,
                button,
                modifiers,
                mouse,
            ),
    {
        let wants: bool = self.features.mouse_reporting && match terminal_snapshot_for(
            &self.snapshot,
            terminal_id,
        ) {
            Some(snapshot) => snapshot.modes.mouse_reporting,
            None => false,
        };
        let endpoint: Option<TerminalSelectionEndpoint> = self.endpoint_at(terminal_id, mouse);
        if wants {
            let report: Option<WindowCommand> = self.report_button(
                terminal_id,
                button,
                true,
                false,
                modifiers,
                mouse,
            );
            if report.is_some() {
                self.reset_ime_marked_text();
                self.reported_mouse = Some((terminal_id, button));
                self.last_reported_mouse_cell = match endpoint {
                    Some(endpoint) => Some((terminal_id, endpoint.position)),
                    None => None,
                };
                return (true, report);
            }
        }
        if self.features.selection {
            if let Some(endpoint) = endpoint {
                self.clear_ime();
                self.selection = Some(
                    TerminalSelection { terminal_id, anchor: endpoint, head: endpoint },
                );
                self.dragging_terminal = Some(terminal_id);
            }
        }
        (false, None)
    }

    /// A click on a pane focuses it. On a terminal, the button is reported or
    /// a selection begins; elsewhere the selection goes.
    pub fn press_pane(
        &mut self,
        pane_id: PaneId,
        terminal_id: Option<TerminalId>,
        modifiers: Modifiers,
        mouse: TerminalMousePosition,
    ) -> (reply: (bool, Option<WindowCommand>, WindowCommand))
        requires
            old(self).wf(),
        ensures
            final(self).wf(),
            reply.2@ == (CommandView::FocusPane { pane_id }),
            ({
                let focused = WindowState { focused_pane: Some(pane_id), ..old(self)@ };
                match terminal_id {
                    Some(id) => (final(self)@, reply.0, asked(reply.1)) == focused.grabbed(
                        id,
                        MouseButton::Left,
                        modifiers,
                        mouse,
                    ),
                    None => final(self)@ == (WindowState { selection: None, ..focused })
                        && !reply.0 && reply.1 is None,
                }
            }),
    {
        self.focused_pane = Some(pane_id);
        let (told, report) = match terminal_id {
            Some(terminal_id) => self.begin_mouse(terminal_id, MouseButton::Left, modifiers, mouse),
            None => {
                self.selection = None;
                (false, None)
            },
        };
        (told, report, WindowCommand::FocusPane { pane_id })
    }

    /// The terminal that the movement of the mouse is about.
    pub fn tracked_terminal(&self) -> (id: Option<TerminalId>)
        ensures
            id == match self@.reported {
                Some((id, _)) => Some(id),
                None => self@.dragging,
            },
    {
        match self.reported_mouse {
            Some((id, _)) => Some(id),
            None => self.dragging_terminal,
        }
    }

    fn move_selection(&mut self, terminal_id: TerminalId, mouse: TerminalMousePosition)
        requires
            old(self).wf(),
        ensures
            final(self).wf(),
            final(self)@ == old(self)@.selection_moved(terminal_id, mouse),
    {
        if let Some(endpoint) = self.endpoint_at(terminal_id, mouse) {
            if let Some(selection) = self.selection {
                self.selection = Some(
                    TerminalSelection {
                        terminal_id: selection.terminal_id,
                        anchor: selection.anchor,
                        head: endpoint,
                    },
                );
            }
        }
    }

    /// The mouse moves; its position is on the terminal that is tracked.
    pub fn update_terminal_selection(
        &mut self,
        pressed_button: Option<MouseButton>,
        modifiers: Modifiers,
        mouse: TerminalMousePosition,
    ) -> (command: Option<WindowCommand>)
        requires
            old(self).wf(),
        ensures
            final(self).wf(),
            (final(self)@, asked(command)) == old(self)@.moved(pressed_button, modifiers, mouse),
    {
        if let Some((terminal_id, button)) = self.reported_mouse {
            return self.update_reported_mouse(
                terminal_id,
                button,
                pressed_button,
                modifiers,
                mouse,
            );
        }
        if let Some(terminal_id) = self.dragging_terminal {
            let left: bool = match pressed_button {
                Some(button) => matches!(button, MouseButton::Left),
                None => false,
            };
            if left {
                self.move_selection(terminal_id, mouse);
            }
        }
        None
    }

    fn update_reported_mouse(
        &mut self,
        terminal_id: TerminalId,
        button: MouseButton,
        pressed_button: Option<MouseButton>,
        modifiers: Modifiers,
        mouse: TerminalMousePosition,
    ) -> (command: Option<WindowCommand>)
        requires
            old(self).wf(),
        ensures
            final(self).wf(),
            (final(self)@, asked(command)) == old(self)@.report_moved(
                terminal_id,
                button,
                pressed_button,
                modifiers,
                mouse,
            ),
    {
        let held: bool = match pressed_button {
            Some(pressed) => pressed == button,
            None => false,
        };
        if !held {
            return None;
        }
        let wants: bool = match terminal_snapshot_for(&self.snapshot, terminal_id) {
            Some(snapshot) => snapshot.modes.mouse_motion || snapshot.modes.mouse_drag,
            None => false,
        };
        if !wants {
            return None;
        }
        let cell: TerminalCellPosition = match self.endpoint_at(terminal_id, mouse) {
            Some(endpoint) => endpoint.position,
            None => {
                return None;
            },
        };
        let known: bool = match self.last_reported_mouse_cell {
            Some((id, last)) => id == terminal_id && last == cell,
            None => false,
        };
        if known {
            return None;
        }
        let report: Option<WindowCommand> = self.report_button(
            terminal_id,
            button,
            true,
            true,
            modifiers,
            mouse,
        );
        if report.is_some() {
            self.last_reported_mouse_cell = Some((terminal_id, cell));
        }
        report
    }

    /// A button goes up; its position is on the terminal that is tracked.
    /// Mouse-up is the authoritative endpoint of a selection: a platform may
    /// leave out the last movement.
    pub fn finish_terminal_selection(
        &mut self,
        button: MouseButton,
        modifiers: Modifiers,
        mouse: TerminalMousePosition,
    ) -> (command: Option<WindowCommand>)
        requires
            old(self).wf(),
        ensures
            final(self).wf(),
            (final(self)@, asked(command)) == old(self)@.released(button, modifiers, mouse),
    {
        if let Some((terminal_id, down)) = self.reported_mouse {
            let report: Option<WindowCommand> = if down == button {
                self.report_button(terminal_id, down, false, false, modifiers, mouse)
            } else {
                None
            };
            self.reported_mouse = None;
            self.last_reported_mouse_cell = None;
            self.dragging_terminal = None;
            return report;
        }
        if matches!(button, MouseButton::Left) && self.features.selection {
            if let Some(terminal_id) = self.dragging_terminal {
                let own: bool = match self.selection {
                    Some(selection) => selection.terminal_id == terminal_id,
                    None => false,
                };
                if own {
                    self.move_selection(terminal_id, mouse);
                }
            }
        }
        self.dragging_terminal = None;
        None
    }

    /// The wheel turns over a pane by some lines.
    pub fn scroll_pane(
        &self,
        pane_id: PaneId,
        modes: TerminalModes,
        lines: i32,
        modifiers: Modifiers,
        cell: MouseCell,
    ) -> (command: Option<WindowCommand>)
        ensures
            asked(command) == match shown_pane_terminal(self@.model, pane_id) {
                Some(id) => self@.wheel(id, modes, lines as int, modifiers, cell),
                None => None,
            },
    {
        let terminal_id: TerminalId = match terminal_for_pane(&self.snapshot, pane_id) {
            Some(terminal_id) => terminal_id,
            None => {
                return None;
            },
        };
        if lines == 0 {
            return None;
        }
        if modes.mouse_reporting && self.features.mouse_reporting {
            match terminal_mouse_input(lines, cell, modifiers, modes) {
                Some(bytes) => Some(WindowCommand::SendBytes { terminal_id, bytes }),
                None => None,
            }
        } else if modes.alternate_screen && modes.alternate_scroll {
            Some(
                WindowCommand::SendText {
                    terminal_id,
                    text: terminal_alternate_scroll_input(lines, modes),
                },
            )
        } else {
            Some(WindowCommand::Scroll { terminal_id, lines })
        }
    }

    /// Whether a terminal is to be resized: its geometry differs from the one
    /// that is drawn, and that one was not asked for last.
    pub fn request_resize(
        &mut self,
        terminal_id: TerminalId,
        current_size: TerminalSize,
        size: TerminalSize,
    ) -> (resize: bool)
        requires
            old(self).wf(),
        ensures
            final(self).wf(),
            resize == (size != current_size && old(self)@.resizes.get(terminal_id.value) != Some(
                size,
            )),
            final(self)@ == if resize {
                WindowState {
                    resizes: old(self)@.resizes.insert(terminal_id.value, size),
                    ..old(self)@
                }
            } else {
                old(self)@
            },
    {
        if size == current_size {
            return false;
        }
        if let Some(asked) = self.resize_requests.get(terminal_id.value) {
            if *asked == size {
                return false;
            }
        }
        let _ = self.resize_requests.insert(terminal_id.value, size);
        true
    }

    /// The title of a tab or a workspace as it is drawn: the new name with a
    /// cursor while it is renamed.
    pub fn shown_title(&self, target: RenameTarget, title: &str) -> (shown: String)
        ensures
            shown@ == if self@.rename == Some(target) {
                self@.rename_value + "▌"@
            } else {
                title@
            },
    {
        let renamed: bool = match self.rename_target {
            Some(renamed) => renamed == target,
            None => false,
        };
        if renamed {
            let mut shown: String = self.rename_value.as_str().to_owned();
            shown.append("▌");
            shown
        } else {
            title.to_owned()
        }
    }

    /// The question that the open dialog asks, if what it is about is there.
    pub fn dialog_message(&self) -> (message: Option<String>)
        ensures
            match message {
                Some(message) => {
                    &&& self@.dialog matches Some(
                        DialogState::ConfirmCloseWorkspace { workspace_id },
                    )
                    &&& workspace_with(self@.model, workspace_id) matches Some(workspace)
                    &&& message@ == close_question(workspace)
                },
                None => match self@.dialog {
                    Some(DialogState::ConfirmCloseWorkspace { workspace_id }) => workspace_with(
                        self@.model,
                        workspace_id,
                    ) is None,
                    None => true,
                },
            },
    {
        match self.dialog {
            Some(DialogState::ConfirmCloseWorkspace { workspace_id }) => {
                match workspace_by_id(&self.snapshot, workspace_id) {
                    Some(workspace) => {
                        let mut message: String = "Close “".to_owned();
                        message.append(workspace.title.as_str());
                        message.append("” and its ");
                        push_decimal_text(&mut message, workspace.tabs.len() as u64);
                        if workspace.tabs.len() == 1 {
                            message.append(" tab?");
                        } else {
                            message.append(" tabs?");
                        }
                        Some(message)
                    },
                    None => None,
                }
            },
            None => None,
        }
    }

    /// What is shown instead of panes, if there are none to show.
    pub fn placeholder(&self) -> (text: Option<&'static str>)
        ensures
            match text {
                Some(text) => shown_tab(self@.model) is None && text@ == match self@.model.workspace {
                    None => "No workspace"@,
                    Some(workspace) => if workspace.active_tab is None {
                        "No tab"@
                    } else {
                        "Active tab is unavailable"@
                    },
                },
                None => shown_tab(self@.model) is Some,
            },
    {
        match &self.snapshot.workspace {
            None => Some("No workspace"),
            Some(workspace) => {
                if workspace.active_tab.is_none() {
                    Some("No tab")
                } else if active_tab(&self.snapshot).is_none() {
                    Some("Active tab is unavailable")
                } else {
                    None
                }
            },
        }
    }
}

/// The question before a workspace is closed.
pub open spec fn close_question(workspace: WorkspaceDump) -> Seq<char> {
    "Close “"@ + workspace.title@ + "” and its "@ + decimal_text(workspace.tabs@.len()) + (
    if workspace.tabs@.len() == 1 {
        " tab?"@
    } else {
        " tabs?"@
    })
}

/// The question before a workspace is closed names it and counts its tabs.
pub proof fn a_question_names_the_workspace(workspace: WorkspaceDump)
    ensures
        workspace.tabs@.len() == 1 ==> close_question(workspace) == "Close “"@ + workspace.title@
            + "” and its "@ + decimal_text(1) + " tab?"@,
        workspace.tabs@.len() != 1 ==> close_question(workspace) == "Close “"@ + workspace.title@
            + "” and its "@ + decimal_text(workspace.tabs@.len()) + " tabs?"@,
{
}

} // verus!
