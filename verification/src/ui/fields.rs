//! The settings that the settings window shows.
use vstd::prelude::*;
use vstd::string::*;

verus! {

/// When a changed setting takes effect.
#[derive(Debug, Clone, Copy, PartialEq, Eq, Structural)]
pub enum ApplyKind {
    Immediate,
    NewWindow,
    Restart,
}

impl ApplyKind {
    pub open spec fn text(self) -> Seq<char> {
        match self {
            ApplyKind::Immediate => "立即生效"@,
            ApplyKind::NewWindow => "新窗口生效"@,
            ApplyKind::Restart => "重启后生效"@,
        }
    }

    pub fn label(self) -> (label: &'static str)
        ensures
            label@ == self.text(),
    {
        match self {
            Self::Immediate => "立即生效",
            Self::NewWindow => "新窗口生效",
            Self::Restart => "重启后生效",
        }
    }
}

/// A setting. The colour of an agent is known by the agent's place in the
/// list of agents.
#[derive(Debug, Clone, Copy, PartialEq, Eq, Structural)]
pub enum SettingField {
    DefaultCwd,
    ControlSocket,
    InitialWorkspace,
    InitialTerminal,
    WindowWidth,
    WindowHeight,
    WindowMinWidth,
    WindowMinHeight,
    ShellProgram,
    ShellArgs,
    DefaultColumns,
    DefaultLines,
    ScrollbackLines,
    InactiveScrollbackLines,
    MaxTotalScrollbackBytes,
    FontFamily,
    FontSize,
    LineHeight,
    MouseReporting,
    BracketedPaste,
    Selection,
    UiFontSize,
    SidebarVisible,
    SidebarShowAgentCount,
    TabBarVerticalWheelScroll,
    SidebarWidth,
    SidebarMinWidth,
    SidebarMaxWidth,
    SidebarResizeHandleWidth,
    TitlebarHeight,
    TabHeight,
    SidebarHeaderHeight,
    PaneMargin,
    PanePadding,
    ThemeTerminalBackground,
    ThemeTerminalForeground,
    ThemeSelectionBackground,
    ThemeCursorForeground,
    ThemeCursorBackground,
    ThemeInactiveCursor,
    ThemeInverseForeground,
    ThemeInverseBackground,
    ThemePaneBackground,
    ThemeActivePaneBorder,
    ThemeInactivePaneBorder,
    ThemeChromeBackground,
    ThemeTabActiveBackground,
    ThemeTabInactiveBackground,
    ThemeTabAddBackground,
    ThemeUiForeground,
    ThemeSidebarBackground,
    ThemeSidebarConnectionBackground,
    ThemeSidebarConnectionActiveBackground,
    ThemeSidebarWorkspaceBackground,
    ThemeSidebarAgentBackground,
    ThemeSidebarWorkspaceActiveBackground,
    ThemeSidebarAgentActiveBackground,
    ThemeSidebarDragIndicator,
    AgentColor(usize),
    ShortcutOpenSettings,
    ShortcutNewWindow,
    ShortcutHideWindow,
    ShortcutMinimizeWindow,
    ShortcutIgnoreQuit,
    ShortcutNewTerminalTab,
    ShortcutNewWorkspace,
    ShortcutToggleSidebar,
    ShortcutSwitchTab,
    ShortcutNextTab,
    ShortcutPreviousTab,
    ShortcutNextWorkspace,
    ShortcutPreviousWorkspace,
    ShortcutRenameWorkspace,
    ShortcutRenameTab,
    ShortcutSplitRight,
    ShortcutSplitDown,
    ShortcutClosePane,
    ShortcutFocusLeft,
    ShortcutFocusRight,
    ShortcutFocusUp,
    ShortcutFocusDown,
    ShortcutPaste,
    ShortcutCopyOrInterrupt,
    ShortcutEof,
    ShortcutScrollPageUp,
    ShortcutScrollPageDown,
}

/// How a setting is stored and edited.
#[derive(Debug, Clone, Copy, PartialEq, Eq, Structural)]
pub enum FieldKind {
    /// A text that may be absent.
    OptionalText,
    /// A text that is not empty.
    RequiredText,
    /// A list of words.
    Words,
    /// A whole number.
    Count,
    /// A decimal number.
    Number,
    /// On or off.
    Switch,
    Color,
    Shortcut,
}

/// An agent that a terminal may run.
#[derive(Debug)]
pub struct AgentInfo {
    /// The name that the configuration knows the agent by.
    pub key: String,
    pub label: String,
    pub default_color: u32,
}

impl SettingField {
    /// The name of a setting that is not an agent's colour.
    pub open spec fn name(self) -> Seq<char> {
        match self {
            SettingField::DefaultCwd => "default-cwd"@,
            SettingField::ControlSocket => "control-socket"@,
            SettingField::InitialWorkspace => "initial-workspace"@,
            SettingField::InitialTerminal => "initial-terminal"@,
            SettingField::WindowWidth => "window-width"@,
            SettingField::WindowHeight => "window-height"@,
            SettingField::WindowMinWidth => "window-min-width"@,
            SettingField::WindowMinHeight => "window-min-height"@,
            SettingField::ShellProgram => "shell-program"@,
            SettingField::ShellArgs => "shell-args"@,
            SettingField::DefaultColumns => "default-columns"@,
            SettingField::DefaultLines => "default-lines"@,
            SettingField::ScrollbackLines => "scrollback-lines"@,
            SettingField::InactiveScrollbackLines => "inactive-scrollback-lines"@,
            SettingField::MaxTotalScrollbackBytes => "max-total-scrollback-bytes"@,
            SettingField::FontFamily => "font-family"@,
            SettingField::FontSize => "font-size"@,
            SettingField::LineHeight => "line-height"@,
            SettingField::MouseReporting => "mouse-reporting"@,
            SettingField::BracketedPaste => "bracketed-paste"@,
            SettingField::Selection => "selection"@,
            SettingField::UiFontSize => "ui-font-size"@,
            SettingField::SidebarVisible => "sidebar-visible"@,
            SettingField::SidebarShowAgentCount => "sidebar-show-agent-count"@,
            SettingField::TabBarVerticalWheelScroll => "tab-bar-vertical-wheel-scroll"@,
            SettingField::SidebarWidth => "sidebar-width"@,
            SettingField::SidebarMinWidth => "sidebar-min-width"@,
            SettingField::SidebarMaxWidth => "sidebar-max-width"@,
            SettingField::SidebarResizeHandleWidth => "sidebar-resize-handle-width"@,
            SettingField::TitlebarHeight => "titlebar-height"@,
            SettingField::TabHeight => "tab-height"@,
            SettingField::SidebarHeaderHeight => "sidebar-header-height"@,
            SettingField::PaneMargin => "pane-margin"@,
            SettingField::PanePadding => "pane-padding"@,
            SettingField::ThemeTerminalBackground => "theme-terminal-background"@,
            SettingField::ThemeTerminalForeground => "theme-terminal-foreground"@,
            SettingField::ThemeSelectionBackground => "theme-selection-background"@,
            SettingField::ThemeCursorForeground => "theme-cursor-foreground"@,
            SettingField::ThemeCursorBackground => "theme-cursor-background"@,
            SettingField::ThemeInactiveCursor => "theme-inactive-cursor"@,
            SettingField::ThemeInverseForeground => "theme-inverse-foreground"@,
            SettingField::ThemeInverseBackground => "theme-inverse-background"@,
            SettingField::ThemePaneBackground => "theme-pane-background"@,
            SettingField::ThemeActivePaneBorder => "theme-active-pane-border"@,
            SettingField::ThemeInactivePaneBorder => "theme-inactive-pane-border"@,
            SettingField::ThemeChromeBackground => "theme-chrome-background"@,
            SettingField::ThemeTabActiveBackground => "theme-tab-active-background"@,
            SettingField::ThemeTabInactiveBackground => "theme-tab-inactive-background"@,
            SettingField::ThemeTabAddBackground => "theme-tab-add-background"@,
            SettingField::ThemeUiForeground => "theme-ui-foreground"@,
            SettingField::ThemeSidebarBackground => "theme-sidebar-background"@,
            SettingField::ThemeSidebarConnectionBackground => "theme-sidebar-connection-background"@,
            SettingField::ThemeSidebarConnectionActiveBackground => "theme-sidebar-connection-active-background"@,
            SettingField::ThemeSidebarWorkspaceBackground => "theme-sidebar-workspace-background"@,
            SettingField::ThemeSidebarAgentBackground => "theme-sidebar-agent-background"@,
            SettingField::ThemeSidebarWorkspaceActiveBackground => "theme-sidebar-workspace-active-background"@,
            SettingField::ThemeSidebarAgentActiveBackground => "theme-sidebar-agent-active-background"@,
            SettingField::ThemeSidebarDragIndicator => "theme-sidebar-drag-indicator"@,
            SettingField::ShortcutOpenSettings => "shortcut-open-settings"@,
            SettingField::ShortcutNewWindow => "shortcut-new-window"@,
            SettingField::ShortcutHideWindow => "shortcut-hide-window"@,
            SettingField::ShortcutMinimizeWindow => "shortcut-minimize-window"@,
            SettingField::ShortcutIgnoreQuit => "shortcut-ignore-quit"@,
            SettingField::ShortcutNewTerminalTab => "shortcut-new-terminal-tab"@,
            SettingField::ShortcutNewWorkspace => "shortcut-new-workspace"@,
            SettingField::ShortcutToggleSidebar => "shortcut-toggle-sidebar"@,
            SettingField::ShortcutSwitchTab => "shortcut-switch-tab"@,
            SettingField::ShortcutNextTab => "shortcut-next-tab"@,
            SettingField::ShortcutPreviousTab => "shortcut-previous-tab"@,
            SettingField::ShortcutNextWorkspace => "shortcut-next-workspace"@,
            SettingField::ShortcutPreviousWorkspace => "shortcut-previous-workspace"@,
            SettingField::ShortcutRenameWorkspace => "shortcut-rename-workspace"@,
            SettingField::ShortcutRenameTab => "shortcut-rename-tab"@,
            SettingField::ShortcutSplitRight => "shortcut-split-right"@,
            SettingField::ShortcutSplitDown => "shortcut-split-down"@,
            SettingField::ShortcutClosePane => "shortcut-close-pane"@,
            SettingField::ShortcutFocusLeft => "shortcut-focus-left"@,
            SettingField::ShortcutFocusRight => "shortcut-focus-right"@,
            SettingField::ShortcutFocusUp => "shortcut-focus-up"@,
            SettingField::ShortcutFocusDown => "shortcut-focus-down"@,
            SettingField::ShortcutPaste => "shortcut-paste"@,
            SettingField::ShortcutCopyOrInterrupt => "shortcut-copy-or-interrupt"@,
            SettingField::ShortcutEof => "shortcut-eof"@,
            SettingField::ShortcutScrollPageUp => "shortcut-scroll-page-up"@,
            SettingField::ShortcutScrollPageDown => "shortcut-scroll-page-down"@,
            SettingField::AgentColor(_) => Seq::empty(),
        }
    }

    /// The name of the setting.
    pub open spec fn id_text(self, agents: Seq<AgentInfo>) -> Seq<char> {
        match self {
            SettingField::AgentColor(agent) => "agent-color-"@ + agents[agent as int].key@,
            _ => self.name(),
        }
    }

    fn plain_id(self) -> (id: &'static str)
        ensures
            !(self is AgentColor) ==> id@ == self.name(),
    {
        match self {
            Self::DefaultCwd => "default-cwd",
            Self::ControlSocket => "control-socket",
            Self::InitialWorkspace => "initial-workspace",
            Self::InitialTerminal => "initial-terminal",
            Self::WindowWidth => "window-width",
            Self::WindowHeight => "window-height",
            Self::WindowMinWidth => "window-min-width",
            Self::WindowMinHeight => "window-min-height",
            Self::ShellProgram => "shell-program",
            Self::ShellArgs => "shell-args",
            Self::DefaultColumns => "default-columns",
            Self::DefaultLines => "default-lines",
            Self::ScrollbackLines => "scrollback-lines",
            Self::InactiveScrollbackLines => "inactive-scrollback-lines",
            Self::MaxTotalScrollbackBytes => "max-total-scrollback-bytes",
            Self::FontFamily => "font-family",
            Self::FontSize => "font-size",
            Self::LineHeight => "line-height",
            Self::MouseReporting => "mouse-reporting",
            Self::BracketedPaste => "bracketed-paste",
            Self::Selection => "selection",
            Self::UiFontSize => "ui-font-size",
            Self::SidebarVisible => "sidebar-visible",
            Self::SidebarShowAgentCount => "sidebar-show-agent-count",
            Self::TabBarVerticalWheelScroll => "tab-bar-vertical-wheel-scroll",
            Self::SidebarWidth => "sidebar-width",
            Self::SidebarMinWidth => "sidebar-min-width",
            Self::SidebarMaxWidth => "sidebar-max-width",
            Self::SidebarResizeHandleWidth => "sidebar-resize-handle-width",
            Self::TitlebarHeight => "titlebar-height",
            Self::TabHeight => "tab-height",
            Self::SidebarHeaderHeight => "sidebar-header-height",
            Self::PaneMargin => "pane-margin",
            Self::PanePadding => "pane-padding",
            Self::ThemeTerminalBackground => "theme-terminal-background",
            Self::ThemeTerminalForeground => "theme-terminal-foreground",
            Self::ThemeSelectionBackground => "theme-selection-background",
            Self::ThemeCursorForeground => "theme-cursor-foreground",
            Self::ThemeCursorBackground => "theme-cursor-background",
            Self::ThemeInactiveCursor => "theme-inactive-cursor",
            Self::ThemeInverseForeground => "theme-inverse-foreground",
            Self::ThemeInverseBackground => "theme-inverse-background",
            Self::ThemePaneBackground => "theme-pane-background",
            Self::ThemeActivePaneBorder => "theme-active-pane-border",
            Self::ThemeInactivePaneBorder => "theme-inactive-pane-border",
            Self::ThemeChromeBackground => "theme-chrome-background",
            Self::ThemeTabActiveBackground => "theme-tab-active-background",
            Self::ThemeTabInactiveBackground => "theme-tab-inactive-background",
            Self::ThemeTabAddBackground => "theme-tab-add-background",
            Self::ThemeUiForeground => "theme-ui-foreground",
            Self::ThemeSidebarBackground => "theme-sidebar-background",
            Self::ThemeSidebarConnectionBackground => "theme-sidebar-connection-background",
            Self::ThemeSidebarConnectionActiveBackground => "theme-sidebar-connection-active-background",
            Self::ThemeSidebarWorkspaceBackground => "theme-sidebar-workspace-background",
            Self::ThemeSidebarAgentBackground => "theme-sidebar-agent-background",
            Self::ThemeSidebarWorkspaceActiveBackground => "theme-sidebar-workspace-active-background",
            Self::ThemeSidebarAgentActiveBackground => "theme-sidebar-agent-active-background",
            Self::ThemeSidebarDragIndicator => "theme-sidebar-drag-indicator",
            Self::ShortcutOpenSettings => "shortcut-open-settings",
            Self::ShortcutNewWindow => "shortcut-new-window",
            Self::ShortcutHideWindow => "shortcut-hide-window",
            Self::ShortcutMinimizeWindow => "shortcut-minimize-window",
            Self::ShortcutIgnoreQuit => "shortcut-ignore-quit",
            Self::ShortcutNewTerminalTab => "shortcut-new-terminal-tab",
            Self::ShortcutNewWorkspace => "shortcut-new-workspace",
            Self::ShortcutToggleSidebar => "shortcut-toggle-sidebar",
            Self::ShortcutSwitchTab => "shortcut-switch-tab",
            Self::ShortcutNextTab => "shortcut-next-tab",
            Self::ShortcutPreviousTab => "shortcut-previous-tab",
            Self::ShortcutNextWorkspace => "shortcut-next-workspace",
            Self::ShortcutPreviousWorkspace => "shortcut-previous-workspace",
            Self::ShortcutRenameWorkspace => "shortcut-rename-workspace",
            Self::ShortcutRenameTab => "shortcut-rename-tab",
            Self::ShortcutSplitRight => "shortcut-split-right",
            Self::ShortcutSplitDown => "shortcut-split-down",
            Self::ShortcutClosePane => "shortcut-close-pane",
            Self::ShortcutFocusLeft => "shortcut-focus-left",
            Self::ShortcutFocusRight => "shortcut-focus-right",
            Self::ShortcutFocusUp => "shortcut-focus-up",
            Self::ShortcutFocusDown => "shortcut-focus-down",
            Self::ShortcutPaste => "shortcut-paste",
            Self::ShortcutCopyOrInterrupt => "shortcut-copy-or-interrupt",
            Self::ShortcutEof => "shortcut-eof",
            Self::ShortcutScrollPageUp => "shortcut-scroll-page-up",
            Self::ShortcutScrollPageDown => "shortcut-scroll-page-down",
            Self::AgentColor(_) => "",
        }
    }

    pub fn id(self, agents: &[AgentInfo]) -> (id: String)
        requires
            self is AgentColor ==> self->0 < agents@.len(),
        ensures
            id@ == self.id_text(agents@),
    {
        if let Self::AgentColor(agent) = self {
            let mut id = "agent-color-".to_owned();
            id.append(agents[agent].key.as_str());
            id
        } else {
            self.plain_id().to_owned()
        }
    }

    /// How the setting is stored and edited.
    pub open spec fn kind(self) -> FieldKind {
        match self {
            SettingField::DefaultCwd
            | SettingField::ControlSocket => FieldKind::OptionalText,
            SettingField::ShellProgram
            | SettingField::FontFamily => FieldKind::RequiredText,
            SettingField::ShellArgs => FieldKind::Words,
            SettingField::DefaultColumns
            | SettingField::DefaultLines
            | SettingField::ScrollbackLines
            | SettingField::InactiveScrollbackLines
            | SettingField::MaxTotalScrollbackBytes => FieldKind::Count,
            SettingField::WindowWidth
            | SettingField::WindowHeight
            | SettingField::WindowMinWidth
            | SettingField::WindowMinHeight
            | SettingField::FontSize
            | SettingField::LineHeight
            | SettingField::UiFontSize
            | SettingField::SidebarWidth
            | SettingField::SidebarMinWidth
            | SettingField::SidebarMaxWidth
            | SettingField::SidebarResizeHandleWidth
            | SettingField::TitlebarHeight
            | SettingField::TabHeight
            | SettingField::SidebarHeaderHeight
            | SettingField::PaneMargin
            | SettingField::PanePadding => FieldKind::Number,
            SettingField::InitialWorkspace
            | SettingField::InitialTerminal
            | SettingField::MouseReporting
            | SettingField::BracketedPaste
            | SettingField::Selection
            | SettingField::SidebarVisible
            | SettingField::SidebarShowAgentCount
            | SettingField::TabBarVerticalWheelScroll => FieldKind::Switch,
            SettingField::ThemeTerminalBackground
            | SettingField::ThemeTerminalForeground
            | SettingField::ThemeSelectionBackground
            | SettingField::ThemeCursorForeground
            | SettingField::ThemeCursorBackground
            | SettingField::ThemeInactiveCursor
            | SettingField::ThemeInverseForeground
            | SettingField::ThemeInverseBackground
            | SettingField::ThemePaneBackground
            | SettingField::ThemeActivePaneBorder
            | SettingField::ThemeInactivePaneBorder
            | SettingField::ThemeChromeBackground
            | SettingField::ThemeTabActiveBackground
            | SettingField::ThemeTabInactiveBackground
            | SettingField::ThemeTabAddBackground
            | SettingField::ThemeUiForeground
            | SettingField::ThemeSidebarBackground
            | SettingField::ThemeSidebarConnectionBackground
            | SettingField::ThemeSidebarConnectionActiveBackground
            | SettingField::ThemeSidebarWorkspaceBackground
            | SettingField::ThemeSidebarAgentBackground
            | SettingField::ThemeSidebarWorkspaceActiveBackground
            | SettingField::ThemeSidebarAgentActiveBackground
            | SettingField::ThemeSidebarDragIndicator
            | SettingField::AgentColor(_) => FieldKind::Color,
            SettingField::ShortcutOpenSettings
            | SettingField::ShortcutNewWindow
            | SettingField::ShortcutHideWindow
            | SettingField::ShortcutMinimizeWindow
            | SettingField::ShortcutIgnoreQuit
            | SettingField::ShortcutNewTerminalTab
            | SettingField::ShortcutNewWorkspace
            | SettingField::ShortcutToggleSidebar
            | SettingField::ShortcutSwitchTab
            | SettingField::ShortcutNextTab
            | SettingField::ShortcutPreviousTab
            | SettingField::ShortcutNextWorkspace
            | SettingField::ShortcutPreviousWorkspace
            | SettingField::ShortcutRenameWorkspace
            | SettingField::ShortcutRenameTab
            | SettingField::ShortcutSplitRight
            | SettingField::ShortcutSplitDown
            | SettingField::ShortcutClosePane
            | SettingField::ShortcutFocusLeft
            | SettingField::ShortcutFocusRight
            | SettingField::ShortcutFocusUp
            | SettingField::ShortcutFocusDown
            | SettingField::ShortcutPaste
            | SettingField::ShortcutCopyOrInterrupt
            | SettingField::ShortcutEof
            | SettingField::ShortcutScrollPageUp
            | SettingField::ShortcutScrollPageDown => FieldKind::Shortcut,
        }
    }

    pub fn field_kind(self) -> (kind: FieldKind)
        ensures
            kind == self.kind(),
    {
        match self {
            Self::DefaultCwd
            | Self::ControlSocket => FieldKind::OptionalText,
            Self::ShellProgram
            | Self::FontFamily => FieldKind::RequiredText,
            Self::ShellArgs => FieldKind::Words,
            Self::DefaultColumns
            | Self::DefaultLines
            | Self::ScrollbackLines
            | Self::InactiveScrollbackLines
            | Self::MaxTotalScrollbackBytes => FieldKind::Count,
            Self::WindowWidth
            | Self::WindowHeight
            | Self::WindowMinWidth
            | Self::WindowMinHeight
            | Self::FontSize
            | Self::LineHeight
            | Self::UiFontSize
            | Self::SidebarWidth
            | Self::SidebarMinWidth
            | Self::SidebarMaxWidth
            | Self::SidebarResizeHandleWidth
            | Self::TitlebarHeight
            | Self::TabHeight
            | Self::SidebarHeaderHeight
            | Self::PaneMargin
            | Self::PanePadding => FieldKind::Number,
            Self::InitialWorkspace
            | Self::InitialTerminal
            | Self::MouseReporting
            | Self::BracketedPaste
            | Self::Selection
            | Self::SidebarVisible
            | Self::SidebarShowAgentCount
            | Self::TabBarVerticalWheelScroll => FieldKind::Switch,
            Self::ThemeTerminalBackground
            | Self::ThemeTerminalForeground
            | Self::ThemeSelectionBackground
            | Self::ThemeCursorForeground
            | Self::ThemeCursorBackground
            | Self::ThemeInactiveCursor
            | Self::ThemeInverseForeground
            | Self::ThemeInverseBackground
            | Self::ThemePaneBackground
            | Self::ThemeActivePaneBorder
            | Self::ThemeInactivePaneBorder
            | Self::ThemeChromeBackground
            | Self::ThemeTabActiveBackground
            | Self::ThemeTabInactiveBackground
            | Self::ThemeTabAddBackground
            | Self::ThemeUiForeground
            | Self::ThemeSidebarBackground
            | Self::ThemeSidebarConnectionBackground
            | Self::ThemeSidebarConnectionActiveBackground
            | Self::ThemeSidebarWorkspaceBackground
            | Self::ThemeSidebarAgentBackground
            | Self::ThemeSidebarWorkspaceActiveBackground
            | Self::ThemeSidebarAgentActiveBackground
            | Self::ThemeSidebarDragIndicator
            | Self::AgentColor(_) => FieldKind::Color,
            Self::ShortcutOpenSettings
            | Self::ShortcutNewWindow
            | Self::ShortcutHideWindow
            | Self::ShortcutMinimizeWindow
            | Self::ShortcutIgnoreQuit
            | Self::ShortcutNewTerminalTab
            | Self::ShortcutNewWorkspace
            | Self::ShortcutToggleSidebar
            | Self::ShortcutSwitchTab
            | Self::ShortcutNextTab
            | Self::ShortcutPreviousTab
            | Self::ShortcutNextWorkspace
            | Self::ShortcutPreviousWorkspace
            | Self::ShortcutRenameWorkspace
            | Self::ShortcutRenameTab
            | Self::ShortcutSplitRight
            | Self::ShortcutSplitDown
            | Self::ShortcutClosePane
            | Self::ShortcutFocusLeft
            | Self::ShortcutFocusRight
            | Self::ShortcutFocusUp
            | Self::ShortcutFocusDown
            | Self::ShortcutPaste
            | Self::ShortcutCopyOrInterrupt
            | Self::ShortcutEof
            | Self::ShortcutScrollPageUp
            | Self::ShortcutScrollPageDown => FieldKind::Shortcut,
        }
    }

    pub fn is_boolean(self) -> (is: bool)
        ensures
            is == (self.kind() == FieldKind::Switch),
    {
        matches!(self.field_kind(), FieldKind::Switch)
    }

    pub fn is_color(self) -> (is: bool)
        ensures
            is == (self.kind() == FieldKind::Color),
    {
        matches!(self.field_kind(), FieldKind::Color)
    }

    /// What a number is called where it is refused.
    pub open spec fn label_text(self) -> Seq<char> {
        match self {
            SettingField::DefaultColumns => "默认列数"@,
            SettingField::DefaultLines => "默认行数"@,
            SettingField::ScrollbackLines => "终端滚动历史"@,
            SettingField::InactiveScrollbackLines => "非活跃终端滚动历史"@,
            SettingField::MaxTotalScrollbackBytes => "滚动历史总字节预算"@,
            SettingField::WindowWidth => "窗口宽度"@,
            SettingField::WindowHeight => "窗口高度"@,
            SettingField::WindowMinWidth => "窗口最小宽度"@,
            SettingField::WindowMinHeight => "窗口最小高度"@,
            SettingField::FontSize => "字体大小"@,
            SettingField::LineHeight => "行高"@,
            SettingField::UiFontSize => "界面字体大小"@,
            SettingField::SidebarWidth => "侧边栏宽度"@,
            SettingField::SidebarMinWidth => "侧边栏最小宽度"@,
            SettingField::SidebarMaxWidth => "侧边栏最大宽度"@,
            SettingField::SidebarResizeHandleWidth => "侧边栏拖拽手柄宽度"@,
            SettingField::TitlebarHeight => "标题栏高度"@,
            SettingField::TabHeight => "标签栏高度"@,
            SettingField::SidebarHeaderHeight => "侧边栏标题高度"@,
            SettingField::PaneMargin => "面板外边距"@,
            SettingField::PanePadding => "面板内边距"@,
            _ => Seq::empty(),
        }
    }

    pub fn number_label(self) -> (label: &'static str)
        requires
            self.kind() == FieldKind::Count || self.kind() == FieldKind::Number,
        ensures
            label@ == self.label_text(),
    {
        match self {
            Self::DefaultColumns => "默认列数",
            Self::DefaultLines => "默认行数",
            Self::ScrollbackLines => "终端滚动历史",
            Self::InactiveScrollbackLines => "非活跃终端滚动历史",
            Self::MaxTotalScrollbackBytes => "滚动历史总字节预算",
            Self::WindowWidth => "窗口宽度",
            Self::WindowHeight => "窗口高度",
            Self::WindowMinWidth => "窗口最小宽度",
            Self::WindowMinHeight => "窗口最小高度",
            Self::FontSize => "字体大小",
            Self::LineHeight => "行高",
            Self::UiFontSize => "界面字体大小",
            Self::SidebarWidth => "侧边栏宽度",
            Self::SidebarMinWidth => "侧边栏最小宽度",
            Self::SidebarMaxWidth => "侧边栏最大宽度",
            Self::SidebarResizeHandleWidth => "侧边栏拖拽手柄宽度",
            Self::TitlebarHeight => "标题栏高度",
            Self::TabHeight => "标签栏高度",
            Self::SidebarHeaderHeight => "侧边栏标题高度",
            Self::PaneMargin => "面板外边距",
            Self::PanePadding => "面板内边距",
            _ => "",
        }
    }
}

pub fn is_shortcut(field: SettingField) -> (is: bool)
    ensures
        is == (field.kind() == FieldKind::Shortcut),
{
    matches!(field.field_kind(), FieldKind::Shortcut)
}

/// The colour of an agent is named after the agent, and every other setting after
/// itself.
pub proof fn agent_colors_are_named_after_their_agents(
    field: SettingField,
    agents: Seq<AgentInfo>,
    agent: usize,
)
    requires
        agent < agents.len(),
    ensures
        SettingField::AgentColor(agent).id_text(agents) == "agent-color-"@
            + agents[agent as int].key@,
        !(field is AgentColor) ==> field.id_text(agents) == field.name(),
{
}

} // verus!
