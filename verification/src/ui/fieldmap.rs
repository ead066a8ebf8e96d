//! Values by the settings they belong to.
use vstd::prelude::*;

use super::fields::SettingField;
use crate::idmap::IdMap;

verus! {

/// The number of a setting. The colours of the agents are numbered on their
/// own.
pub open spec fn number_of(field: SettingField) -> u64 {
    match field {
        SettingField::AgentColor(agent) => agent as u64,
        SettingField::DefaultCwd => 0,
        SettingField::ControlSocket => 1,
        SettingField::InitialWorkspace => 2,
        SettingField::InitialTerminal => 3,
        SettingField::WindowWidth => 4,
        SettingField::WindowHeight => 5,
        SettingField::WindowMinWidth => 6,
        SettingField::WindowMinHeight => 7,
        SettingField::ShellProgram => 8,
        SettingField::ShellArgs => 9,
        SettingField::DefaultColumns => 10,
        SettingField::DefaultLines => 11,
        SettingField::ScrollbackLines => 12,
        SettingField::InactiveScrollbackLines => 13,
        SettingField::MaxTotalScrollbackBytes => 14,
        SettingField::FontFamily => 15,
        SettingField::FontSize => 16,
        SettingField::LineHeight => 17,
        SettingField::MouseReporting => 18,
        SettingField::BracketedPaste => 19,
        SettingField::Selection => 20,
        SettingField::UiFontSize => 21,
        SettingField::SidebarVisible => 22,
        SettingField::SidebarShowAgentCount => 23,
        SettingField::TabBarVerticalWheelScroll => 24,
        SettingField::SidebarWidth => 25,
        SettingField::SidebarMinWidth => 26,
        SettingField::SidebarMaxWidth => 27,
        SettingField::SidebarResizeHandleWidth => 28,
        SettingField::TitlebarHeight => 29,
        SettingField::TabHeight => 30,
        SettingField::SidebarHeaderHeight => 31,
        SettingField::PaneMargin => 32,
        SettingField::PanePadding => 33,
        SettingField::ThemeTerminalBackground => 34,
        SettingField::ThemeTerminalForeground => 35,
        SettingField::ThemeSelectionBackground => 36,
        SettingField::ThemeCursorForeground => 37,
        SettingField::ThemeCursorBackground => 38,
        SettingField::ThemeInactiveCursor => 39,
        SettingField::ThemeInverseForeground => 40,
        SettingField::ThemeInverseBackground => 41,
        SettingField::ThemePaneBackground => 42,
        SettingField::ThemeActivePaneBorder => 43,
        SettingField::ThemeInactivePaneBorder => 44,
        SettingField::ThemeChromeBackground => 45,
        SettingField::ThemeTabActiveBackground => 46,
        SettingField::ThemeTabInactiveBackground => 47,
        SettingField::ThemeTabAddBackground => 48,
        SettingField::ThemeUiForeground => 49,
        SettingField::ThemeSidebarBackground => 50,
        SettingField::ThemeSidebarConnectionBackground => 51,
        SettingField::ThemeSidebarConnectionActiveBackground => 52,
        SettingField::ThemeSidebarWorkspaceBackground => 53,
        SettingField::ThemeSidebarAgentBackground => 54,
        SettingField::ThemeSidebarWorkspaceActiveBackground => 55,
        SettingField::ThemeSidebarAgentActiveBackground => 56,
        SettingField::ThemeSidebarDragIndicator => 57,
        SettingField::ShortcutOpenSettings => 58,
        SettingField::ShortcutNewWindow => 59,
        SettingField::ShortcutHideWindow => 60,
        SettingField::ShortcutMinimizeWindow => 61,
        SettingField::ShortcutIgnoreQuit => 62,
        SettingField::ShortcutNewTerminalTab => 63,
        SettingField::ShortcutNewWorkspace => 64,
        SettingField::ShortcutToggleSidebar => 65,
        SettingField::ShortcutSwitchTab => 66,
        SettingField::ShortcutNextTab => 67,
        SettingField::ShortcutPreviousTab => 68,
        SettingField::ShortcutNextWorkspace => 69,
        SettingField::ShortcutPreviousWorkspace => 70,
        SettingField::ShortcutRenameWorkspace => 71,
        SettingField::ShortcutRenameTab => 72,
        SettingField::ShortcutSplitRight => 73,
        SettingField::ShortcutSplitDown => 74,
        SettingField::ShortcutClosePane => 75,
        SettingField::ShortcutFocusLeft => 76,
        SettingField::ShortcutFocusRight => 77,
        SettingField::ShortcutFocusUp => 78,
        SettingField::ShortcutFocusDown => 79,
        SettingField::ShortcutPaste => 80,
        SettingField::ShortcutCopyOrInterrupt => 81,
        SettingField::ShortcutEof => 82,
        SettingField::ShortcutScrollPageUp => 83,
        SettingField::ShortcutScrollPageDown => 84,
    }
}

fn number(field: SettingField) -> (number: u64)
    ensures
        number == number_of(field),
{
    match field {
        SettingField::AgentColor(agent) => agent as u64,
        SettingField::DefaultCwd => 0,
        SettingField::ControlSocket => 1,
        SettingField::InitialWorkspace => 2,
        SettingField::InitialTerminal => 3,
        SettingField::WindowWidth => 4,
        SettingField::WindowHeight => 5,
        SettingField::WindowMinWidth => 6,
        SettingField::WindowMinHeight => 7,
        SettingField::ShellProgram => 8,
        SettingField::ShellArgs => 9,
        SettingField::DefaultColumns => 10,
        SettingField::DefaultLines => 11,
        SettingField::ScrollbackLines => 12,
        SettingField::InactiveScrollbackLines => 13,
        SettingField::MaxTotalScrollbackBytes => 14,
        SettingField::FontFamily => 15,
        SettingField::FontSize => 16,
        SettingField::LineHeight => 17,
        SettingField::MouseReporting => 18,
        SettingField::BracketedPaste => 19,
        SettingField::Selection => 20,
        SettingField::UiFontSize => 21,
        SettingField::SidebarVisible => 22,
        SettingField::SidebarShowAgentCount => 23,
        SettingField::TabBarVerticalWheelScroll => 24,
        SettingField::SidebarWidth => 25,
        SettingField::SidebarMinWidth => 26,
        SettingField::SidebarMaxWidth => 27,
        SettingField::SidebarResizeHandleWidth => 28,
        SettingField::TitlebarHeight => 29,
        SettingField::TabHeight => 30,
        SettingField::SidebarHeaderHeight => 31,
        SettingField::PaneMargin => 32,
        SettingField::PanePadding => 33,
        SettingField::ThemeTerminalBackground => 34,
        SettingField::ThemeTerminalForeground => 35,
        SettingField::ThemeSelectionBackground => 36,
        SettingField::ThemeCursorForeground => 37,
        SettingField::ThemeCursorBackground => 38,
        SettingField::ThemeInactiveCursor => 39,
        SettingField::ThemeInverseForeground => 40,
        SettingField::ThemeInverseBackground => 41,
        SettingField::ThemePaneBackground => 42,
        SettingField::ThemeActivePaneBorder => 43,
        SettingField::ThemeInactivePaneBorder => 44,
        SettingField::ThemeChromeBackground => 45,
        SettingField::ThemeTabActiveBackground => 46,
        SettingField::ThemeTabInactiveBackground => 47,
        SettingField::ThemeTabAddBackground => 48,
        SettingField::ThemeUiForeground => 49,
        SettingField::ThemeSidebarBackground => 50,
        SettingField::ThemeSidebarConnectionBackground => 51,
        SettingField::ThemeSidebarConnectionActiveBackground => 52,
        SettingField::ThemeSidebarWorkspaceBackground => 53,
        SettingField::ThemeSidebarAgentBackground => 54,
        SettingField::ThemeSidebarWorkspaceActiveBackground => 55,
        SettingField::ThemeSidebarAgentActiveBackground => 56,
        SettingField::ThemeSidebarDragIndicator => 57,
        SettingField::ShortcutOpenSettings => 58,
        SettingField::ShortcutNewWindow => 59,
        SettingField::ShortcutHideWindow => 60,
        SettingField::ShortcutMinimizeWindow => 61,
        SettingField::ShortcutIgnoreQuit => 62,
        SettingField::ShortcutNewTerminalTab => 63,
        SettingField::ShortcutNewWorkspace => 64,
        SettingField::ShortcutToggleSidebar => 65,
        SettingField::ShortcutSwitchTab => 66,
        SettingField::ShortcutNextTab => 67,
        SettingField::ShortcutPreviousTab => 68,
        SettingField::ShortcutNextWorkspace => 69,
        SettingField::ShortcutPreviousWorkspace => 70,
        SettingField::ShortcutRenameWorkspace => 71,
        SettingField::ShortcutRenameTab => 72,
        SettingField::ShortcutSplitRight => 73,
        SettingField::ShortcutSplitDown => 74,
        SettingField::ShortcutClosePane => 75,
        SettingField::ShortcutFocusLeft => 76,
        SettingField::ShortcutFocusRight => 77,
        SettingField::ShortcutFocusUp => 78,
        SettingField::ShortcutFocusDown => 79,
        SettingField::ShortcutPaste => 80,
        SettingField::ShortcutCopyOrInterrupt => 81,
        SettingField::ShortcutEof => 82,
        SettingField::ShortcutScrollPageUp => 83,
        SettingField::ShortcutScrollPageDown => 84,
    }
}

/// Two settings of the same sort have different numbers.
proof fn lemma_numbers_differ(one: SettingField, other: SettingField)
    requires
        one is AgentColor == other is AgentColor,
        number_of(one) == number_of(other),
    ensures
        one == other,
{
}

/// Values by settings.
#[derive(Debug)]
pub struct FieldMap<V> {
    settings: IdMap<V>,
    agent_colors: IdMap<V>,
}

impl<V> View for FieldMap<V> {
    type V = Map<SettingField, V>;

    closed spec fn view(&self) -> Map<SettingField, V> {
        Map::new(
            |field: SettingField| self.part(field).contains_key(number_of(field)),
            |field: SettingField| self.part(field)[number_of(field)],
        )
    }
}

impl<V> FieldMap<V> {
    /// The part that holds the settings of a sort.
    spec fn part(&self, field: SettingField) -> Map<u64, V> {
        if field is AgentColor {
            self.agent_colors@
        } else {
            self.settings@
        }
    }

    pub fn new() -> (map: Self)
        ensures
            map@ == Map::<SettingField, V>::empty(),
    {
        let map = Self { settings: IdMap::new(), agent_colors: IdMap::new() };
        assert(map@ =~= Map::empty());
        map
    }

    pub fn get(&self, field: SettingField) -> (value: Option<&V>)
        ensures
            match value {
                Some(value) => self@.contains_key(field) && *value == self@[field],
                None => !self@.contains_key(field),
            },
    {
        let number: u64 = number(field);
        match field {
            SettingField::AgentColor(_) => self.agent_colors.get(number),
            _ => self.settings.get(number),
        }
    }

    pub fn insert(&mut self, field: SettingField, value: V)
        ensures
            final(self)@ == old(self)@.insert(field, value),
    {
        let number: u64 = number(field);
        let _ = match field {
            SettingField::AgentColor(_) => self.agent_colors.insert(number, value),
            _ => self.settings.insert(number, value),
        };
        assert forall|other: SettingField|
            other != field && (other is AgentColor == field is AgentColor) implies #[trigger] number_of(
            other,
        ) != number by {
            if number_of(other) == number {
                lemma_numbers_differ(other, field);
            }
        }
        assert(self@ =~= old(self)@.insert(field, value));
    }

    pub fn remove(&mut self, field: SettingField)
        ensures
            final(self)@ == old(self)@.remove(field),
    {
        let number: u64 = number(field);
        let _ = match field {
            SettingField::AgentColor(_) => self.agent_colors.remove(number),
            _ => self.settings.remove(number),
        };
        assert forall|other: SettingField|
            other != field && (other is AgentColor == field is AgentColor) implies #[trigger] number_of(
            other,
        ) != number by {
            if number_of(other) == number {
                lemma_numbers_differ(other, field);
            }
        }
        assert(self@ =~= old(self)@.remove(field));
    }
}

} // verus!
