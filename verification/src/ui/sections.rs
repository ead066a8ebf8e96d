//! The sections of the settings window and their rows.
use vstd::prelude::*;
use vstd::string::*;

use super::fields::{AgentInfo, ApplyKind, FieldKind, SettingField};
use super::shortcuts::labels;

verus! {

/// A part of the settings window.
#[derive(Debug, Clone, Copy, PartialEq, Eq, Structural)]
pub enum SectionKind {
    Startup,
    Shell,
    Terminal,
    Features,
    Layout,
    Colors,
    AgentColors,
    Shortcuts,
}

/// A row of the settings window.
#[derive(Debug)]
pub struct SettingRow {
    pub field: SettingField,
    pub label: String,
    pub description: &'static str,
    pub apply: ApplyKind,
}

/// A row by its values.
#[verifier::ext_equal]
pub struct RowView {
    pub field: SettingField,
    pub label: Seq<char>,
    pub description: Seq<char>,
    pub apply: ApplyKind,
}

impl View for SettingRow {
    type V = RowView;

    open spec fn view(&self) -> RowView {
        RowView {
            field: self.field,
            label: self.label@,
            description: self.description@,
            apply: self.apply,
        }
    }
}

pub open spec fn rows_of(rows: Seq<SettingRow>) -> Seq<RowView> {
    rows.map_values(|row: SettingRow| row@)
}

fn push_row(
    rows: &mut Vec<SettingRow>,
    field: SettingField,
    label: &str,
    description: &'static str,
    apply: ApplyKind,
)
    ensures
        rows_of(final(rows)@) == rows_of(old(rows)@).push(
            RowView { field, label: label@, description: description@, apply },
        ),
{
    let ghost before = rows@;
    rows.push(SettingRow { field, label: label.to_owned(), description, apply });
    assert(rows_of(rows@) =~= rows_of(before).push(
        RowView { field, label: label@, description: description@, apply },
    ));
}

impl SectionKind {
    /// The sections, from the top of the window down.
    pub open spec fn in_order() -> Seq<SectionKind> {
        seq![
            SectionKind::Startup,
            SectionKind::Shell,
            SectionKind::Terminal,
            SectionKind::Features,
            SectionKind::Layout,
            SectionKind::Colors,
            SectionKind::AgentColors,
            SectionKind::Shortcuts,
        ]
    }

    pub fn all() -> (sections: Vec<SectionKind>)
        ensures
            sections@ == Self::in_order(),
    {
        let sections: Vec<SectionKind> = vec![
            Self::Startup,
            Self::Shell,
            Self::Terminal,
            Self::Features,
            Self::Layout,
            Self::Colors,
            Self::AgentColors,
            Self::Shortcuts,
        ];
        assert(sections@ =~= Self::in_order());
        sections
    }

    /// The title of the section.
    pub open spec fn title_text(self) -> Seq<char> {
        match self {
            SectionKind::Startup => "启动与窗口"@,
            SectionKind::Shell => "Shell"@,
            SectionKind::Terminal => "终端"@,
            SectionKind::Features => "终端交互功能"@,
            SectionKind::Layout => "界面布局"@,
            SectionKind::Colors => "配色"@,
            SectionKind::AgentColors => "Agent Colors"@,
            SectionKind::Shortcuts => "快捷键"@,
        }
    }

    pub fn title(self) -> (title: &'static str)
        ensures
            title@ == self.title_text(),
    {
        match self {
            Self::Startup => "启动与窗口",
            Self::Shell => "Shell",
            Self::Terminal => "终端",
            Self::Features => "终端交互功能",
            Self::Layout => "界面布局",
            Self::Colors => "配色",
            Self::AgentColors => "Agent Colors",
            Self::Shortcuts => "快捷键",
        }
    }

    /// The rows of the section, but for the colours of the agents.
    pub open spec fn fixed_rows(self) -> Seq<RowView> {
        match self {
            SectionKind::Startup => seq![
                RowView {
                    field: SettingField::DefaultCwd,
                    label: "默认 cwd"@,
                    description: "没有可继承终端时使用；支持 ~，留空表示当前进程目录"@,
                    apply: ApplyKind::Restart,
                },
                RowView {
                    field: SettingField::ControlSocket,
                    label: "控制 socket"@,
                    description: "Unix 控制接口路径；CLI 和 WATER_CONTROL_SOCKET 优先"@,
                    apply: ApplyKind::Restart,
                },
                RowView {
                    field: SettingField::InitialWorkspace,
                    label: "启动时创建工作区"@,
                    description: "应用启动时是否自动创建第一个工作区"@,
                    apply: ApplyKind::Restart,
                },
                RowView {
                    field: SettingField::InitialTerminal,
                    label: "启动时创建终端"@,
                    description: "应用启动时是否在工作区中打开默认终端"@,
                    apply: ApplyKind::Restart,
                },
                RowView {
                    field: SettingField::WindowWidth,
                    label: "默认窗口宽度"@,
                    description: "新建 Water 窗口的初始逻辑像素宽度"@,
                    apply: ApplyKind::NewWindow,
                },
                RowView {
                    field: SettingField::WindowHeight,
                    label: "默认窗口高度"@,
                    description: "新建 Water 窗口的初始逻辑像素高度"@,
                    apply: ApplyKind::NewWindow,
                },
                RowView {
                    field: SettingField::WindowMinWidth,
                    label: "窗口最小宽度"@,
                    description: "窗口可自由缩小到的最小逻辑像素宽度"@,
                    apply: ApplyKind::NewWindow,
                },
                RowView {
                    field: SettingField::WindowMinHeight,
                    label: "窗口最小高度"@,
                    description: "窗口可自由缩小到的最小逻辑像素高度"@,
                    apply: ApplyKind::NewWindow,
                },
            ],
            SectionKind::Shell => seq![
                RowView {
                    field: SettingField::ShellProgram,
                    label: "Shell 命令"@,
                    description: "默认终端启动的可执行文件，例如 /opt/homebrew/bin/zsh"@,
                    apply: ApplyKind::Restart,
                },
                RowView {
                    field: SettingField::ShellArgs,
                    label: "Shell 参数"@,
                    description: "JSON 字符串数组，例如 [\"-l\"]"@,
                    apply: ApplyKind::Restart,
                },
            ],
            SectionKind::Terminal => seq![
                RowView {
                    field: SettingField::DefaultColumns,
                    label: "默认列数"@,
                    description: "新终端第一次布局前使用的列数"@,
                    apply: ApplyKind::Restart,
                },
                RowView {
                    field: SettingField::DefaultLines,
                    label: "默认行数"@,
                    description: "新终端第一次布局前使用的行数"@,
                    apply: ApplyKind::Restart,
                },
                RowView {
                    field: SettingField::ScrollbackLines,
                    label: "每个终端滚动历史"@,
                    description: "焦点终端保留的滚动行数，最大 10000"@,
                    apply: ApplyKind::Restart,
                },
                RowView {
                    field: SettingField::InactiveScrollbackLines,
                    label: "非活跃终端滚动历史"@,
                    description: "失去焦点后每个后台标签仅保留的行尾滚动行数"@,
                    apply: ApplyKind::Restart,
                },
                RowView {
                    field: SettingField::MaxTotalScrollbackBytes,
                    label: "滚动历史总字节预算"@,
                    description: "所有 PTY 滚动网格共享的堆字节预算（按宽度计价，而非行数）"@,
                    apply: ApplyKind::Restart,
                },
                RowView {
                    field: SettingField::FontFamily,
                    label: "终端字体"@,
                    description: "终端使用的等宽字体族"@,
                    apply: ApplyKind::Immediate,
                },
                RowView {
                    field: SettingField::FontSize,
                    label: "终端字体大小"@,
                    description: "逻辑像素，范围 8–32"@,
                    apply: ApplyKind::Immediate,
                },
                RowView {
                    field: SettingField::LineHeight,
                    label: "终端行高"@,
                    description: "逻辑像素，范围 8–64"@,
                    apply: ApplyKind::Immediate,
                },
            ],
            SectionKind::Features => seq![
                RowView {
                    field: SettingField::MouseReporting,
                    label: "终端鼠标报告"@,
                    description: "允许 TUI 程序接管鼠标点击和滚轮"@,
                    apply: ApplyKind::Immediate,
                },
                RowView {
                    field: SettingField::BracketedPaste,
                    label: "Bracketed paste"@,
                    description: "终端请求时为 Cmd-V 包裹 bracketed-paste 标记"@,
                    apply: ApplyKind::Immediate,
                },
                RowView {
                    field: SettingField::Selection,
                    label: "终端文本选择"@,
                    description: "允许拖拽选择和 Cmd-C 复制"@,
                    apply: ApplyKind::Immediate,
                },
            ],
            SectionKind::Layout => seq![
                RowView {
                    field: SettingField::UiFontSize,
                    label: "界面字体大小"@,
                    description: "Water 标题栏、标签、侧边栏、设置页面等 UI 文本的基础字号，范围 8–32"@,
                    apply: ApplyKind::Immediate,
                },
                RowView {
                    field: SettingField::SidebarVisible,
                    label: "默认显示侧边栏"@,
                    description: "打开新窗口时侧边栏是否可见"@,
                    apply: ApplyKind::Immediate,
                },
                RowView {
                    field: SettingField::SidebarShowAgentCount,
                    label: "显示运行中 Agent 数量"@,
                    description: "在每个工作区右侧显示当前运行中的 Agent 数量"@,
                    apply: ApplyKind::Immediate,
                },
                RowView {
                    field: SettingField::TabBarVerticalWheelScroll,
                    label: "纵向滚轮滚动标签栏"@,
                    description: "默认关闭；开启后在标签栏上滚动鼠标滚轮可横向滚动标签（触控板横向滑动始终可用）"@,
                    apply: ApplyKind::Immediate,
                },
                RowView {
                    field: SettingField::SidebarWidth,
                    label: "侧边栏宽度"@,
                    description: "逻辑像素，拖拽范围由最小/最大宽度限制"@,
                    apply: ApplyKind::Immediate,
                },
                RowView {
                    field: SettingField::SidebarMinWidth,
                    label: "侧边栏最小宽度"@,
                    description: "逻辑像素"@,
                    apply: ApplyKind::Immediate,
                },
                RowView {
                    field: SettingField::SidebarMaxWidth,
                    label: "侧边栏最大宽度"@,
                    description: "逻辑像素"@,
                    apply: ApplyKind::Immediate,
                },
                RowView {
                    field: SettingField::SidebarResizeHandleWidth,
                    label: "侧边栏拖拽手柄宽度"@,
                    description: "逻辑像素"@,
                    apply: ApplyKind::Immediate,
                },
                RowView {
                    field: SettingField::TitlebarHeight,
                    label: "标题栏高度"@,
                    description: "逻辑像素"@,
                    apply: ApplyKind::Immediate,
                },
                RowView {
                    field: SettingField::TabHeight,
                    label: "标签栏高度"@,
                    description: "逻辑像素"@,
                    apply: ApplyKind::Immediate,
                },
                RowView {
                    field: SettingField::SidebarHeaderHeight,
                    label: "侧边栏标题高度"@,
                    description: "逻辑像素"@,
                    apply: ApplyKind::Immediate,
                },
                RowView {
                    field: SettingField::PaneMargin,
                    label: "面板外边距"@,
                    description: "终端面板之间的外边距，逻辑像素"@,
                    apply: ApplyKind::Immediate,
                },
                RowView {
                    field: SettingField::PanePadding,
                    label: "面板内边距"@,
                    description: "终端面板内容的内边距，逻辑像素"@,
                    apply: ApplyKind::Immediate,
                },
            ],
            SectionKind::Colors => seq![
                RowView {
                    field: SettingField::ThemeTerminalBackground,
                    label: "终端背景色"@,
                    description: "支持 #rgb、#rrggbb、0xrrggbb"@,
                    apply: ApplyKind::Immediate,
                },
                RowView {
                    field: SettingField::ThemeTerminalForeground,
                    label: "终端前景色"@,
                    description: "支持 #rgb、#rrggbb、0xrrggbb"@,
                    apply: ApplyKind::Immediate,
                },
                RowView {
                    field: SettingField::ThemeSelectionBackground,
                    label: "选择背景色"@,
                    description: "支持 #rgb、#rrggbb、0xrrggbb"@,
                    apply: ApplyKind::Immediate,
                },
                RowView {
                    field: SettingField::ThemeCursorForeground,
                    label: "光标前景色"@,
                    description: "支持 #rgb、#rrggbb、0xrrggbb"@,
                    apply: ApplyKind::Immediate,
                },
                RowView {
                    field: SettingField::ThemeCursorBackground,
                    label: "光标背景色"@,
                    description: "支持 #rgb、#rrggbb、0xrrggbb"@,
                    apply: ApplyKind::Immediate,
                },
                RowView {
                    field: SettingField::ThemeInactiveCursor,
                    label: "非焦点光标色"@,
                    description: "支持 #rgb、#rrggbb、0xrrggbb"@,
                    apply: ApplyKind::Immediate,
                },
                RowView {
                    field: SettingField::ThemeInverseForeground,
                    label: "反色前景色"@,
                    description: "支持 #rgb、#rrggbb、0xrrggbb"@,
                    apply: ApplyKind::Immediate,
                },
                RowView {
                    field: SettingField::ThemeInverseBackground,
                    label: "反色背景色"@,
                    description: "支持 #rgb、#rrggbb、0xrrggbb"@,
                    apply: ApplyKind::Immediate,
                },
                RowView {
                    field: SettingField::ThemePaneBackground,
                    label: "面板背景色"@,
                    description: "支持 #rgb、#rrggbb、0xrrggbb"@,
                    apply: ApplyKind::Immediate,
                },
                RowView {
                    field: SettingField::ThemeActivePaneBorder,
                    label: "活动面板边框色"@,
                    description: "支持 #rgb、#rrggbb、0xrrggbb"@,
                    apply: ApplyKind::Immediate,
                },
                RowView {
                    field: SettingField::ThemeInactivePaneBorder,
                    label: "非活动面板边框色"@,
                    description: "支持 #rgb、#rrggbb、0xrrggbb"@,
                    apply: ApplyKind::Immediate,
                },
                RowView {
                    field: SettingField::ThemeChromeBackground,
                    label: "窗口 chrome 背景色"@,
                    description: "支持 #rgb、#rrggbb、0xrrggbb"@,
                    apply: ApplyKind::Immediate,
                },
                RowView {
                    field: SettingField::ThemeTabActiveBackground,
                    label: "活动标签背景色"@,
                    description: "支持 #rgb、#rrggbb、0xrrggbb"@,
                    apply: ApplyKind::Immediate,
                },
                RowView {
                    field: SettingField::ThemeTabInactiveBackground,
                    label: "非活动标签背景色"@,
                    description: "支持 #rgb、#rrggbb、0xrrggbb"@,
                    apply: ApplyKind::Immediate,
                },
                RowView {
                    field: SettingField::ThemeTabAddBackground,
                    label: "标签悬停/添加背景色"@,
                    description: "支持 #rgb、#rrggbb、0xrrggbb"@,
                    apply: ApplyKind::Immediate,
                },
                RowView {
                    field: SettingField::ThemeUiForeground,
                    label: "界面前景色"@,
                    description: "支持 #rgb、#rrggbb、0xrrggbb"@,
                    apply: ApplyKind::Immediate,
                },
                RowView {
                    field: SettingField::ThemeSidebarBackground,
                    label: "侧边栏背景色"@,
                    description: "支持 #rgb、#rrggbb、0xrrggbb"@,
                    apply: ApplyKind::Immediate,
                },
                RowView {
                    field: SettingField::ThemeSidebarConnectionBackground,
                    label: "未选中主机背景色"@,
                    description: "支持 #rgb、#rrggbb、0xrrggbb"@,
                    apply: ApplyKind::Immediate,
                },
                RowView {
                    field: SettingField::ThemeSidebarConnectionActiveBackground,
                    label: "选中主机背景色"@,
                    description: "支持 #rgb、#rrggbb、0xrrggbb"@,
                    apply: ApplyKind::Immediate,
                },
                RowView {
                    field: SettingField::ThemeSidebarWorkspaceBackground,
                    label: "未选中工作区背景色"@,
                    description: "支持 #rgb、#rrggbb、0xrrggbb"@,
                    apply: ApplyKind::Immediate,
                },
                RowView {
                    field: SettingField::ThemeSidebarAgentBackground,
                    label: "未选中 Agent 背景色"@,
                    description: "支持 #rgb、#rrggbb、0xrrggbb"@,
                    apply: ApplyKind::Immediate,
                },
                RowView {
                    field: SettingField::ThemeSidebarWorkspaceActiveBackground,
                    label: "选中工作区背景色"@,
                    description: "支持 #rgb、#rrggbb、0xrrggbb"@,
                    apply: ApplyKind::Immediate,
                },
                RowView {
                    field: SettingField::ThemeSidebarAgentActiveBackground,
                    label: "选中 Agent 背景色"@,
                    description: "支持 #rgb、#rrggbb、0xrrggbb"@,
                    apply: ApplyKind::Immediate,
                },
                RowView {
                    field: SettingField::ThemeSidebarDragIndicator,
                    label: "侧边栏拖拽指示线颜色"@,
                    description: "支持 #rgb、#rrggbb、0xrrggbb"@,
                    apply: ApplyKind::Immediate,
                },
            ],
            SectionKind::AgentColors => Seq::empty(),
            SectionKind::Shortcuts => seq![
                RowView {
                    field: SettingField::ShortcutOpenSettings,
                    label: "打开设置"@,
                    description: "GPUI keystroke 格式，例如 cmd-shift-n"@,
                    apply: ApplyKind::Immediate,
                },
                RowView {
                    field: SettingField::ShortcutNewWindow,
                    label: "新建窗口"@,
                    description: "GPUI keystroke 格式，例如 cmd-shift-n"@,
                    apply: ApplyKind::Immediate,
                },
                RowView {
                    field: SettingField::ShortcutHideWindow,
                    label: "隐藏窗口"@,
                    description: "GPUI keystroke 格式，例如 cmd-shift-n"@,
                    apply: ApplyKind::Immediate,
                },
                RowView {
                    field: SettingField::ShortcutMinimizeWindow,
                    label: "最小化窗口"@,
                    description: "GPUI keystroke 格式，例如 cmd-shift-n"@,
                    apply: ApplyKind::Immediate,
                },
                RowView {
                    field: SettingField::ShortcutIgnoreQuit,
                    label: "忽略退出"@,
                    description: "GPUI keystroke 格式，例如 cmd-shift-n"@,
                    apply: ApplyKind::Immediate,
                },
                RowView {
                    field: SettingField::ShortcutNewTerminalTab,
                    label: "新建终端标签"@,
                    description: "GPUI keystroke 格式，例如 cmd-shift-n"@,
                    apply: ApplyKind::Immediate,
                },
                RowView {
                    field: SettingField::ShortcutNewWorkspace,
                    label: "新建工作区"@,
                    description: "GPUI keystroke 格式，例如 cmd-shift-n"@,
                    apply: ApplyKind::Immediate,
                },
                RowView {
                    field: SettingField::ShortcutToggleSidebar,
                    label: "切换侧边栏"@,
                    description: "GPUI keystroke 格式，例如 cmd-shift-n"@,
                    apply: ApplyKind::Immediate,
                },
                RowView {
                    field: SettingField::ShortcutSwitchTab,
                    label: "切换到指定标签"@,
                    description: "GPUI keystroke 格式，例如 cmd-#（# 会替换为标签序号）"@,
                    apply: ApplyKind::Immediate,
                },
                RowView {
                    field: SettingField::ShortcutNextTab,
                    label: "下一个标签"@,
                    description: "GPUI keystroke 格式，例如 cmd-shift-n"@,
                    apply: ApplyKind::Immediate,
                },
                RowView {
                    field: SettingField::ShortcutPreviousTab,
                    label: "上一个标签"@,
                    description: "GPUI keystroke 格式，例如 cmd-shift-n"@,
                    apply: ApplyKind::Immediate,
                },
                RowView {
                    field: SettingField::ShortcutNextWorkspace,
                    label: "下一个工作区"@,
                    description: "GPUI keystroke 格式，例如 cmd-shift-n"@,
                    apply: ApplyKind::Immediate,
                },
                RowView {
                    field: SettingField::ShortcutPreviousWorkspace,
                    label: "上一个工作区"@,
                    description: "GPUI keystroke 格式，例如 cmd-shift-n"@,
                    apply: ApplyKind::Immediate,
                },
                RowView {
                    field: SettingField::ShortcutRenameWorkspace,
                    label: "重命名工作区"@,
                    description: "GPUI keystroke 格式，例如 cmd-shift-n"@,
                    apply: ApplyKind::Immediate,
                },
                RowView {
                    field: SettingField::ShortcutRenameTab,
                    label: "重命名标签"@,
                    description: "GPUI keystroke 格式，例如 cmd-shift-n"@,
                    apply: ApplyKind::Immediate,
                },
                RowView {
                    field: SettingField::ShortcutSplitRight,
                    label: "右侧分屏"@,
                    description: "GPUI keystroke 格式，例如 cmd-shift-n"@,
                    apply: ApplyKind::Immediate,
                },
                RowView {
                    field: SettingField::ShortcutSplitDown,
                    label: "向下分屏"@,
                    description: "GPUI keystroke 格式，例如 cmd-shift-n"@,
                    apply: ApplyKind::Immediate,
                },
                RowView {
                    field: SettingField::ShortcutClosePane,
                    label: "关闭面板"@,
                    description: "GPUI keystroke 格式，例如 cmd-shift-n"@,
                    apply: ApplyKind::Immediate,
                },
                RowView {
                    field: SettingField::ShortcutFocusLeft,
                    label: "聚焦左侧面板"@,
                    description: "GPUI keystroke 格式，例如 cmd-shift-n"@,
                    apply: ApplyKind::Immediate,
                },
                RowView {
                    field: SettingField::ShortcutFocusRight,
                    label: "聚焦右侧面板"@,
                    description: "GPUI keystroke 格式，例如 cmd-shift-n"@,
                    apply: ApplyKind::Immediate,
                },
                RowView {
                    field: SettingField::ShortcutFocusUp,
                    label: "聚焦上方面板"@,
                    description: "GPUI keystroke 格式，例如 cmd-shift-n"@,
                    apply: ApplyKind::Immediate,
                },
                RowView {
                    field: SettingField::ShortcutFocusDown,
                    label: "聚焦下方面板"@,
                    description: "GPUI keystroke 格式，例如 cmd-shift-n"@,
                    apply: ApplyKind::Immediate,
                },
                RowView {
                    field: SettingField::ShortcutPaste,
                    label: "粘贴到终端"@,
                    description: "GPUI keystroke 格式，例如 cmd-shift-n"@,
                    apply: ApplyKind::Immediate,
                },
                RowView {
                    field: SettingField::ShortcutCopyOrInterrupt,
                    label: "复制或发送 Ctrl-C"@,
                    description: "GPUI keystroke 格式，例如 cmd-shift-n"@,
                    apply: ApplyKind::Immediate,
                },
                RowView {
                    field: SettingField::ShortcutEof,
                    label: "发送 EOF"@,
                    description: "GPUI keystroke 格式，例如 cmd-shift-n"@,
                    apply: ApplyKind::Immediate,
                },
                RowView {
                    field: SettingField::ShortcutScrollPageUp,
                    label: "向上滚动一页"@,
                    description: "GPUI keystroke 格式，例如 cmd-shift-n"@,
                    apply: ApplyKind::Immediate,
                },
                RowView {
                    field: SettingField::ShortcutScrollPageDown,
                    label: "向下滚动一页"@,
                    description: "GPUI keystroke 格式，例如 cmd-shift-n"@,
                    apply: ApplyKind::Immediate,
                },
            ],
        }
    }

    /// The rows of the section.
    pub open spec fn all_rows(self, agents: Seq<AgentInfo>) -> Seq<RowView> {
        match self {
            SectionKind::AgentColors => Seq::new(
                agents.len(),
                |i: int| RowView {
                    field: SettingField::AgentColor(i as usize),
                    label: agents[i].label@,
                    description: "Agent 代表色；支持 #rgb、#rrggbb、0xrrggbb"@,
                    apply: ApplyKind::Immediate,
                },
            ),
            _ => self.fixed_rows(),
        }
    }

    /// The rows of the section, in the order in which they are shown.
    pub fn rows(self, agents: &[AgentInfo]) -> (rows: Vec<SettingRow>)
        ensures
            rows_of(rows@) == self.all_rows(agents@),
    {
        match self {
            Self::Startup => startup_rows(),
            Self::Shell => shell_rows(),
            Self::Terminal => terminal_rows(),
            Self::Features => features_rows(),
            Self::Layout => layout_rows(),
            Self::Colors => colors_rows(),
            Self::AgentColors => agent_rows(agents),
            Self::Shortcuts => shortcuts_rows(),
        }
    }
}

fn agent_rows(agents: &[AgentInfo]) -> (rows: Vec<SettingRow>)
    ensures
        rows_of(rows@) == SectionKind::AgentColors.all_rows(agents@),
{
    let mut rows: Vec<SettingRow> = Vec::new();
    let ghost all = SectionKind::AgentColors.all_rows(agents@);
    let mut i: usize = 0;
    assert(rows_of(rows@) =~= all.take(0));
    while i < agents.len()
        invariant
            i <= agents@.len(),
            all == SectionKind::AgentColors.all_rows(agents@),
            rows_of(rows@) == all.take(i as int),
        decreases agents@.len() - i,
    {
        push_row(
            &mut rows,
            SettingField::AgentColor(i),
            agents[i].label.as_str(),
            "Agent 代表色；支持 #rgb、#rrggbb、0xrrggbb",
            ApplyKind::Immediate,
        );
        assert(rows_of(rows@) =~= all.take(i + 1));
        i = i + 1;
    }
    assert(all.take(i as int) =~= all);
    rows
}

fn startup_rows() -> (rows: Vec<SettingRow>)
    ensures
        rows_of(rows@) == SectionKind::Startup.fixed_rows(),
{
    let mut rows: Vec<SettingRow> = Vec::new();
    push_row(
        &mut rows,
        SettingField::DefaultCwd,
        "默认 cwd",
        "没有可继承终端时使用；支持 ~，留空表示当前进程目录",
        ApplyKind::Restart,
    );
    push_row(
        &mut rows,
        SettingField::ControlSocket,
        "控制 socket",
        "Unix 控制接口路径；CLI 和 WATER_CONTROL_SOCKET 优先",
        ApplyKind::Restart,
    );
    push_row(
        &mut rows,
        SettingField::InitialWorkspace,
        "启动时创建工作区",
        "应用启动时是否自动创建第一个工作区",
        ApplyKind::Restart,
    );
    push_row(
        &mut rows,
        SettingField::InitialTerminal,
        "启动时创建终端",
        "应用启动时是否在工作区中打开默认终端",
        ApplyKind::Restart,
    );
    push_row(
        &mut rows,
        SettingField::WindowWidth,
        "默认窗口宽度",
        "新建 Water 窗口的初始逻辑像素宽度",
        ApplyKind::NewWindow,
    );
    push_row(
        &mut rows,
        SettingField::WindowHeight,
        "默认窗口高度",
        "新建 Water 窗口的初始逻辑像素高度",
        ApplyKind::NewWindow,
    );
    push_row(
        &mut rows,
        SettingField::WindowMinWidth,
        "窗口最小宽度",
        "窗口可自由缩小到的最小逻辑像素宽度",
        ApplyKind::NewWindow,
    );
    push_row(
        &mut rows,
        SettingField::WindowMinHeight,
        "窗口最小高度",
        "窗口可自由缩小到的最小逻辑像素高度",
        ApplyKind::NewWindow,
    );
    assert(rows_of(rows@) =~= SectionKind::Startup.fixed_rows());
    rows
}

fn shell_rows() -> (rows: Vec<SettingRow>)
    ensures
        rows_of(rows@) == SectionKind::Shell.fixed_rows(),
{
    let mut rows: Vec<SettingRow> = Vec::new();
    push_row(
        &mut rows,
        SettingField::ShellProgram,
        "Shell 命令",
        "默认终端启动的可执行文件，例如 /opt/homebrew/bin/zsh",
        ApplyKind::Restart,
    );
    push_row(
        &mut rows,
        SettingField::ShellArgs,
        "Shell 参数",
        "JSON 字符串数组，例如 [\"-l\"]",
        ApplyKind::Restart,
    );
    assert(rows_of(rows@) =~= SectionKind::Shell.fixed_rows());
    rows
}

fn terminal_rows() -> (rows: Vec<SettingRow>)
    ensures
        rows_of(rows@) == SectionKind::Terminal.fixed_rows(),
{
    let mut rows: Vec<SettingRow> = Vec::new();
    push_row(
        &mut rows,
        SettingField::DefaultColumns,
        "默认列数",
        "新终端第一次布局前使用的列数",
        ApplyKind::Restart,
    );
    push_row(
        &mut rows,
        SettingField::DefaultLines,
        "默认行数",
        "新终端第一次布局前使用的行数",
        ApplyKind::Restart,
    );
    push_row(
        &mut rows,
        SettingField::ScrollbackLines,
        "每个终端滚动历史",
        "焦点终端保留的滚动行数，最大 10000",
        ApplyKind::Restart,
    );
    push_row(
        &mut rows,
        SettingField::InactiveScrollbackLines,
        "非活跃终端滚动历史",
        "失去焦点后每个后台标签仅保留的行尾滚动行数",
        ApplyKind::Restart,
    );
    push_row(
        &mut rows,
        SettingField::MaxTotalScrollbackBytes,
        "滚动历史总字节预算",
        "所有 PTY 滚动网格共享的堆字节预算（按宽度计价，而非行数）",
        ApplyKind::Restart,
    );
    push_row(
        &mut rows,
        SettingField::FontFamily,
        "终端字体",
        "终端使用的等宽字体族",
        ApplyKind::Immediate,
    );
    push_row(
        &mut rows,
        SettingField::FontSize,
        "终端字体大小",
        "逻辑像素，范围 8–32",
        ApplyKind::Immediate,
    );
    push_row(
        &mut rows,
        SettingField::LineHeight,
        "终端行高",
        "逻辑像素，范围 8–64",
        ApplyKind::Immediate,
    );
    assert(rows_of(rows@) =~= SectionKind::Terminal.fixed_rows());
    rows
}

fn features_rows() -> (rows: Vec<SettingRow>)
    ensures
        rows_of(rows@) == SectionKind::Features.fixed_rows(),
{
    let mut rows: Vec<SettingRow> = Vec::new();
    push_row(
        &mut rows,
        SettingField::MouseReporting,
        "终端鼠标报告",
        "允许 TUI 程序接管鼠标点击和滚轮",
        ApplyKind::Immediate,
    );
    push_row(
        &mut rows,
        SettingField::BracketedPaste,
        "Bracketed paste",
        "终端请求时为 Cmd-V 包裹 bracketed-paste 标记",
        ApplyKind::Immediate,
    );
    push_row(
        &mut rows,
        SettingField::Selection,
        "终端文本选择",
        "允许拖拽选择和 Cmd-C 复制",
        ApplyKind::Immediate,
    );
    assert(rows_of(rows@) =~= SectionKind::Features.fixed_rows());
    rows
}

fn layout_rows() -> (rows: Vec<SettingRow>)
    ensures
        rows_of(rows@) == SectionKind::Layout.fixed_rows(),
{
    let mut rows: Vec<SettingRow> = Vec::new();
    push_row(
        &mut rows,
        SettingField::UiFontSize,
        "界面字体大小",
        "Water 标题栏、标签、侧边栏、设置页面等 UI 文本的基础字号，范围 8–32",
        ApplyKind::Immediate,
    );
    push_row(
        &mut rows,
        SettingField::SidebarVisible,
        "默认显示侧边栏",
        "打开新窗口时侧边栏是否可见",
        ApplyKind::Immediate,
    );
    push_row(
        &mut rows,
        SettingField::SidebarShowAgentCount,
        "显示运行中 Agent 数量",
        "在每个工作区右侧显示当前运行中的 Agent 数量",
        ApplyKind::Immediate,
    );
    push_row(
        &mut rows,
        SettingField::TabBarVerticalWheelScroll,
        "纵向滚轮滚动标签栏",
        "默认关闭；开启后在标签栏上滚动鼠标滚轮可横向滚动标签（触控板横向滑动始终可用）",
        ApplyKind::Immediate,
    );
    push_row(
        &mut rows,
        SettingField::SidebarWidth,
        "侧边栏宽度",
        "逻辑像素，拖拽范围由最小/最大宽度限制",
        ApplyKind::Immediate,
    );
    push_row(
        &mut rows,
        SettingField::SidebarMinWidth,
        "侧边栏最小宽度",
        "逻辑像素",
        ApplyKind::Immediate,
    );
    push_row(
        &mut rows,
        SettingField::SidebarMaxWidth,
        "侧边栏最大宽度",
        "逻辑像素",
        ApplyKind::Immediate,
    );
    push_row(
        &mut rows,
        SettingField::SidebarResizeHandleWidth,
        "侧边栏拖拽手柄宽度",
        "逻辑像素",
        ApplyKind::Immediate,
    );
    push_row(
        &mut rows,
        SettingField::TitlebarHeight,
        "标题栏高度",
        "逻辑像素",
        ApplyKind::Immediate,
    );
    push_row(
        &mut rows,
        SettingField::TabHeight,
        "标签栏高度",
        "逻辑像素",
        ApplyKind::Immediate,
    );
    push_row(
        &mut rows,
        SettingField::SidebarHeaderHeight,
        "侧边栏标题高度",
        "逻辑像素",
        ApplyKind::Immediate,
    );
    push_row(
        &mut rows,
        SettingField::PaneMargin,
        "面板外边距",
        "终端面板之间的外边距，逻辑像素",
        ApplyKind::Immediate,
    );
    push_row(
        &mut rows,
        SettingField::PanePadding,
        "面板内边距",
        "终端面板内容的内边距，逻辑像素",
        ApplyKind::Immediate,
    );
    assert(rows_of(rows@) =~= SectionKind::Layout.fixed_rows());
    rows
}

fn colors_rows() -> (rows: Vec<SettingRow>)
    ensures
        rows_of(rows@) == SectionKind::Colors.fixed_rows(),
{
    let mut rows: Vec<SettingRow> = Vec::new();
    push_row(
        &mut rows,
        SettingField::ThemeTerminalBackground,
        "终端背景色",
        "支持 #rgb、#rrggbb、0xrrggbb",
        ApplyKind::Immediate,
    );
    push_row(
        &mut rows,
        SettingField::ThemeTerminalForeground,
        "终端前景色",
        "支持 #rgb、#rrggbb、0xrrggbb",
        ApplyKind::Immediate,
    );
    push_row(
        &mut rows,
        SettingField::ThemeSelectionBackground,
        "选择背景色",
        "支持 #rgb、#rrggbb、0xrrggbb",
        ApplyKind::Immediate,
    );
    push_row(
        &mut rows,
        SettingField::ThemeCursorForeground,
        "光标前景色",
        "支持 #rgb、#rrggbb、0xrrggbb",
        ApplyKind::Immediate,
    );
    push_row(
        &mut rows,
        SettingField::ThemeCursorBackground,
        "光标背景色",
        "支持 #rgb、#rrggbb、0xrrggbb",
        ApplyKind::Immediate,
    );
    push_row(
        &mut rows,
        SettingField::ThemeInactiveCursor,
        "非焦点光标色",
        "支持 #rgb、#rrggbb、0xrrggbb",
        ApplyKind::Immediate,
    );
    push_row(
        &mut rows,
        SettingField::ThemeInverseForeground,
        "反色前景色",
        "支持 #rgb、#rrggbb、0xrrggbb",
        ApplyKind::Immediate,
    );
    push_row(
        &mut rows,
        SettingField::ThemeInverseBackground,
        "反色背景色",
        "支持 #rgb、#rrggbb、0xrrggbb",
        ApplyKind::Immediate,
    );
    push_row(
        &mut rows,
        SettingField::ThemePaneBackground,
        "面板背景色",
        "支持 #rgb、#rrggbb、0xrrggbb",
        ApplyKind::Immediate,
    );
    push_row(
        &mut rows,
        SettingField::ThemeActivePaneBorder,
        "活动面板边框色",
        "支持 #rgb、#rrggbb、0xrrggbb",
        ApplyKind::Immediate,
    );
    push_row(
        &mut rows,
        SettingField::ThemeInactivePaneBorder,
        "非活动面板边框色",
        "支持 #rgb、#rrggbb、0xrrggbb",
        ApplyKind::Immediate,
    );
    push_row(
        &mut rows,
        SettingField::ThemeChromeBackground,
        "窗口 chrome 背景色",
        "支持 #rgb、#rrggbb、0xrrggbb",
        ApplyKind::Immediate,
    );
    push_row(
        &mut rows,
        SettingField::ThemeTabActiveBackground,
        "活动标签背景色",
        "支持 #rgb、#rrggbb、0xrrggbb",
        ApplyKind::Immediate,
    );
    push_row(
        &mut rows,
        SettingField::ThemeTabInactiveBackground,
        "非活动标签背景色",
        "支持 #rgb、#rrggbb、0xrrggbb",
        ApplyKind::Immediate,
    );
    push_row(
        &mut rows,
        SettingField::ThemeTabAddBackground,
        "标签悬停/添加背景色",
        "支持 #rgb、#rrggbb、0xrrggbb",
        ApplyKind::Immediate,
    );
    push_row(
        &mut rows,
        SettingField::ThemeUiForeground,
        "界面前景色",
        "支持 #rgb、#rrggbb、0xrrggbb",
        ApplyKind::Immediate,
    );
    push_row(
        &mut rows,
        SettingField::ThemeSidebarBackground,
        "侧边栏背景色",
        "支持 #rgb、#rrggbb、0xrrggbb",
        ApplyKind::Immediate,
    );
    push_row(
        &mut rows,
        SettingField::ThemeSidebarConnectionBackground,
        "未选中主机背景色",
        "支持 #rgb、#rrggbb、0xrrggbb",
        ApplyKind::Immediate,
    );
    push_row(
        &mut rows,
        SettingField::ThemeSidebarConnectionActiveBackground,
        "选中主机背景色",
        "支持 #rgb、#rrggbb、0xrrggbb",
        ApplyKind::Immediate,
    );
    push_row(
        &mut rows,
        SettingField::ThemeSidebarWorkspaceBackground,
        "未选中工作区背景色",
        "支持 #rgb、#rrggbb、0xrrggbb",
        ApplyKind::Immediate,
    );
    push_row(
        &mut rows,
        SettingField::ThemeSidebarAgentBackground,
        "未选中 Agent 背景色",
        "支持 #rgb、#rrggbb、0xrrggbb",
        ApplyKind::Immediate,
    );
    push_row(
        &mut rows,
        SettingField::ThemeSidebarWorkspaceActiveBackground,
        "选中工作区背景色",
        "支持 #rgb、#rrggbb、0xrrggbb",
        ApplyKind::Immediate,
    );
    push_row(
        &mut rows,
        SettingField::ThemeSidebarAgentActiveBackground,
        "选中 Agent 背景色",
        "支持 #rgb、#rrggbb、0xrrggbb",
        ApplyKind::Immediate,
    );
    push_row(
        &mut rows,
        SettingField::ThemeSidebarDragIndicator,
        "侧边栏拖拽指示线颜色",
        "支持 #rgb、#rrggbb、0xrrggbb",
        ApplyKind::Immediate,
    );
    assert(rows_of(rows@) =~= SectionKind::Colors.fixed_rows());
    rows
}

fn shortcuts_rows() -> (rows: Vec<SettingRow>)
    ensures
        rows_of(rows@) == SectionKind::Shortcuts.fixed_rows(),
{
    let mut rows: Vec<SettingRow> = Vec::new();
    push_row(
        &mut rows,
        SettingField::ShortcutOpenSettings,
        "打开设置",
        "GPUI keystroke 格式，例如 cmd-shift-n",
        ApplyKind::Immediate,
    );
    push_row(
        &mut rows,
        SettingField::ShortcutNewWindow,
        "新建窗口",
        "GPUI keystroke 格式，例如 cmd-shift-n",
        ApplyKind::Immediate,
    );
    push_row(
        &mut rows,
        SettingField::ShortcutHideWindow,
        "隐藏窗口",
        "GPUI keystroke 格式，例如 cmd-shift-n",
        ApplyKind::Immediate,
    );
    push_row(
        &mut rows,
        SettingField::ShortcutMinimizeWindow,
        "最小化窗口",
        "GPUI keystroke 格式，例如 cmd-shift-n",
        ApplyKind::Immediate,
    );
    push_row(
        &mut rows,
        SettingField::ShortcutIgnoreQuit,
        "忽略退出",
        "GPUI keystroke 格式，例如 cmd-shift-n",
        ApplyKind::Immediate,
    );
    push_row(
        &mut rows,
        SettingField::ShortcutNewTerminalTab,
        "新建终端标签",
        "GPUI keystroke 格式，例如 cmd-shift-n",
        ApplyKind::Immediate,
    );
    push_row(
        &mut rows,
        SettingField::ShortcutNewWorkspace,
        "新建工作区",
        "GPUI keystroke 格式，例如 cmd-shift-n",
        ApplyKind::Immediate,
    );
    push_row(
        &mut rows,
        SettingField::ShortcutToggleSidebar,
        "切换侧边栏",
        "GPUI keystroke 格式，例如 cmd-shift-n",
        ApplyKind::Immediate,
    );
    push_row(
        &mut rows,
        SettingField::ShortcutSwitchTab,
        "切换到指定标签",
        "GPUI keystroke 格式，例如 cmd-#（# 会替换为标签序号）",
        ApplyKind::Immediate,
    );
    push_row(
        &mut rows,
        SettingField::ShortcutNextTab,
        "下一个标签",
        "GPUI keystroke 格式，例如 cmd-shift-n",
        ApplyKind::Immediate,
    );
    push_row(
        &mut rows,
        SettingField::ShortcutPreviousTab,
        "上一个标签",
        "GPUI keystroke 格式，例如 cmd-shift-n",
        ApplyKind::Immediate,
    );
    push_row(
        &mut rows,
        SettingField::ShortcutNextWorkspace,
        "下一个工作区",
        "GPUI keystroke 格式，例如 cmd-shift-n",
        ApplyKind::Immediate,
    );
    push_row(
        &mut rows,
        SettingField::ShortcutPreviousWorkspace,
        "上一个工作区",
        "GPUI keystroke 格式，例如 cmd-shift-n",
        ApplyKind::Immediate,
    );
    push_row(
        &mut rows,
        SettingField::ShortcutRenameWorkspace,
        "重命名工作区",
        "GPUI keystroke 格式，例如 cmd-shift-n",
        ApplyKind::Immediate,
    );
    push_row(
        &mut rows,
        SettingField::ShortcutRenameTab,
        "重命名标签",
        "GPUI keystroke 格式，例如 cmd-shift-n",
        ApplyKind::Immediate,
    );
    push_row(
        &mut rows,
        SettingField::ShortcutSplitRight,
        "右侧分屏",
        "GPUI keystroke 格式，例如 cmd-shift-n",
        ApplyKind::Immediate,
    );
    push_row(
        &mut rows,
        SettingField::ShortcutSplitDown,
        "向下分屏",
        "GPUI keystroke 格式，例如 cmd-shift-n",
        ApplyKind::Immediate,
    );
    push_row(
        &mut rows,
        SettingField::ShortcutClosePane,
        "关闭面板",
        "GPUI keystroke 格式，例如 cmd-shift-n",
        ApplyKind::Immediate,
    );
    push_row(
        &mut rows,
        SettingField::ShortcutFocusLeft,
        "聚焦左侧面板",
        "GPUI keystroke 格式，例如 cmd-shift-n",
        ApplyKind::Immediate,
    );
    push_row(
        &mut rows,
        SettingField::ShortcutFocusRight,
        "聚焦右侧面板",
        "GPUI keystroke 格式，例如 cmd-shift-n",
        ApplyKind::Immediate,
    );
    push_row(
        &mut rows,
        SettingField::ShortcutFocusUp,
        "聚焦上方面板",
        "GPUI keystroke 格式，例如 cmd-shift-n",
        ApplyKind::Immediate,
    );
    push_row(
        &mut rows,
        SettingField::ShortcutFocusDown,
        "聚焦下方面板",
        "GPUI keystroke 格式，例如 cmd-shift-n",
        ApplyKind::Immediate,
    );
    push_row(
        &mut rows,
        SettingField::ShortcutPaste,
        "粘贴到终端",
        "GPUI keystroke 格式，例如 cmd-shift-n",
        ApplyKind::Immediate,
    );
    push_row(
        &mut rows,
        SettingField::ShortcutCopyOrInterrupt,
        "复制或发送 Ctrl-C",
        "GPUI keystroke 格式，例如 cmd-shift-n",
        ApplyKind::Immediate,
    );
    push_row(
        &mut rows,
        SettingField::ShortcutEof,
        "发送 EOF",
        "GPUI keystroke 格式，例如 cmd-shift-n",
        ApplyKind::Immediate,
    );
    push_row(
        &mut rows,
        SettingField::ShortcutScrollPageUp,
        "向上滚动一页",
        "GPUI keystroke 格式，例如 cmd-shift-n",
        ApplyKind::Immediate,
    );
    push_row(
        &mut rows,
        SettingField::ShortcutScrollPageDown,
        "向下滚动一页",
        "GPUI keystroke 格式，例如 cmd-shift-n",
        ApplyKind::Immediate,
    );
    assert(rows_of(rows@) =~= SectionKind::Shortcuts.fixed_rows());
    rows
}

/// The section and the row of a setting that is not an agent's colour.
pub open spec fn place_of(field: SettingField) -> (SectionKind, int) {
    match field {
        SettingField::DefaultCwd => (SectionKind::Startup, 0),
        SettingField::ControlSocket => (SectionKind::Startup, 1),
        SettingField::InitialWorkspace => (SectionKind::Startup, 2),
        SettingField::InitialTerminal => (SectionKind::Startup, 3),
        SettingField::WindowWidth => (SectionKind::Startup, 4),
        SettingField::WindowHeight => (SectionKind::Startup, 5),
        SettingField::WindowMinWidth => (SectionKind::Startup, 6),
        SettingField::WindowMinHeight => (SectionKind::Startup, 7),
        SettingField::ShellProgram => (SectionKind::Shell, 0),
        SettingField::ShellArgs => (SectionKind::Shell, 1),
        SettingField::DefaultColumns => (SectionKind::Terminal, 0),
        SettingField::DefaultLines => (SectionKind::Terminal, 1),
        SettingField::ScrollbackLines => (SectionKind::Terminal, 2),
        SettingField::InactiveScrollbackLines => (SectionKind::Terminal, 3),
        SettingField::MaxTotalScrollbackBytes => (SectionKind::Terminal, 4),
        SettingField::FontFamily => (SectionKind::Terminal, 5),
        SettingField::FontSize => (SectionKind::Terminal, 6),
        SettingField::LineHeight => (SectionKind::Terminal, 7),
        SettingField::MouseReporting => (SectionKind::Features, 0),
        SettingField::BracketedPaste => (SectionKind::Features, 1),
        SettingField::Selection => (SectionKind::Features, 2),
        SettingField::UiFontSize => (SectionKind::Layout, 0),
        SettingField::SidebarVisible => (SectionKind::Layout, 1),
        SettingField::SidebarShowAgentCount => (SectionKind::Layout, 2),
        SettingField::TabBarVerticalWheelScroll => (SectionKind::Layout, 3),
        SettingField::SidebarWidth => (SectionKind::Layout, 4),
        SettingField::SidebarMinWidth => (SectionKind::Layout, 5),
        SettingField::SidebarMaxWidth => (SectionKind::Layout, 6),
        SettingField::SidebarResizeHandleWidth => (SectionKind::Layout, 7),
        SettingField::TitlebarHeight => (SectionKind::Layout, 8),
        SettingField::TabHeight => (SectionKind::Layout, 9),
        SettingField::SidebarHeaderHeight => (SectionKind::Layout, 10),
        SettingField::PaneMargin => (SectionKind::Layout, 11),
        SettingField::PanePadding => (SectionKind::Layout, 12),
        SettingField::ThemeTerminalBackground => (SectionKind::Colors, 0),
        SettingField::ThemeTerminalForeground => (SectionKind::Colors, 1),
        SettingField::ThemeSelectionBackground => (SectionKind::Colors, 2),
        SettingField::ThemeCursorForeground => (SectionKind::Colors, 3),
        SettingField::ThemeCursorBackground => (SectionKind::Colors, 4),
        SettingField::ThemeInactiveCursor => (SectionKind::Colors, 5),
        SettingField::ThemeInverseForeground => (SectionKind::Colors, 6),
        SettingField::ThemeInverseBackground => (SectionKind::Colors, 7),
        SettingField::ThemePaneBackground => (SectionKind::Colors, 8),
        SettingField::ThemeActivePaneBorder => (SectionKind::Colors, 9),
        SettingField::ThemeInactivePaneBorder => (SectionKind::Colors, 10),
        SettingField::ThemeChromeBackground => (SectionKind::Colors, 11),
        SettingField::ThemeTabActiveBackground => (SectionKind::Colors, 12),
        SettingField::ThemeTabInactiveBackground => (SectionKind::Colors, 13),
        SettingField::ThemeTabAddBackground => (SectionKind::Colors, 14),
        SettingField::ThemeUiForeground => (SectionKind::Colors, 15),
        SettingField::ThemeSidebarBackground => (SectionKind::Colors, 16),
        SettingField::ThemeSidebarConnectionBackground => (SectionKind::Colors, 17),
        SettingField::ThemeSidebarConnectionActiveBackground => (SectionKind::Colors, 18),
        SettingField::ThemeSidebarWorkspaceBackground => (SectionKind::Colors, 19),
        SettingField::ThemeSidebarAgentBackground => (SectionKind::Colors, 20),
        SettingField::ThemeSidebarWorkspaceActiveBackground => (SectionKind::Colors, 21),
        SettingField::ThemeSidebarAgentActiveBackground => (SectionKind::Colors, 22),
        SettingField::ThemeSidebarDragIndicator => (SectionKind::Colors, 23),
        SettingField::ShortcutOpenSettings => (SectionKind::Shortcuts, 0),
        SettingField::ShortcutNewWindow => (SectionKind::Shortcuts, 1),
        SettingField::ShortcutHideWindow => (SectionKind::Shortcuts, 2),
        SettingField::ShortcutMinimizeWindow => (SectionKind::Shortcuts, 3),
        SettingField::ShortcutIgnoreQuit => (SectionKind::Shortcuts, 4),
        SettingField::ShortcutNewTerminalTab => (SectionKind::Shortcuts, 5),
        SettingField::ShortcutNewWorkspace => (SectionKind::Shortcuts, 6),
        SettingField::ShortcutToggleSidebar => (SectionKind::Shortcuts, 7),
        SettingField::ShortcutSwitchTab => (SectionKind::Shortcuts, 8),
        SettingField::ShortcutNextTab => (SectionKind::Shortcuts, 9),
        SettingField::ShortcutPreviousTab => (SectionKind::Shortcuts, 10),
        SettingField::ShortcutNextWorkspace => (SectionKind::Shortcuts, 11),
        SettingField::ShortcutPreviousWorkspace => (SectionKind::Shortcuts, 12),
        SettingField::ShortcutRenameWorkspace => (SectionKind::Shortcuts, 13),
        SettingField::ShortcutRenameTab => (SectionKind::Shortcuts, 14),
        SettingField::ShortcutSplitRight => (SectionKind::Shortcuts, 15),
        SettingField::ShortcutSplitDown => (SectionKind::Shortcuts, 16),
        SettingField::ShortcutClosePane => (SectionKind::Shortcuts, 17),
        SettingField::ShortcutFocusLeft => (SectionKind::Shortcuts, 18),
        SettingField::ShortcutFocusRight => (SectionKind::Shortcuts, 19),
        SettingField::ShortcutFocusUp => (SectionKind::Shortcuts, 20),
        SettingField::ShortcutFocusDown => (SectionKind::Shortcuts, 21),
        SettingField::ShortcutPaste => (SectionKind::Shortcuts, 22),
        SettingField::ShortcutCopyOrInterrupt => (SectionKind::Shortcuts, 23),
        SettingField::ShortcutEof => (SectionKind::Shortcuts, 24),
        SettingField::ShortcutScrollPageUp => (SectionKind::Shortcuts, 25),
        SettingField::ShortcutScrollPageDown => (SectionKind::Shortcuts, 26),
        SettingField::AgentColor(agent) => (SectionKind::AgentColors, agent as int),
    }
}

/// Every section is shown, and only once.
pub proof fn every_section_is_shown_once(section: SectionKind)
    ensures
        exists|at: int|
            0 <= at < SectionKind::in_order().len() && SectionKind::in_order()[at] == section,
        SectionKind::in_order().no_duplicates(),
{
    let order = SectionKind::in_order();
    assert(order[0] is Startup && order[1] is Shell && order[2] is Terminal && order[3] is Features);
    assert(order[4] is Layout && order[5] is Colors && order[6] is AgentColors);
    assert(order[7] is Shortcuts);
}

/// Every setting has a row, and only one.
pub proof fn every_setting_has_one_row(field: SettingField, agents: Seq<AgentInfo>)
    requires
        agents.len() <= usize::MAX,
        field is AgentColor ==> field->0 < agents.len(),
    ensures
        ({
            let (section, at) = place_of(field);
            0 <= at < section.all_rows(agents).len() && section.all_rows(agents)[at].field == field
        }),
        forall|section: SectionKind, at: int|
            0 <= at < section.all_rows(agents).len() && (#[trigger] section.all_rows(
                agents,
            )[at]).field == field ==> (section, at) == place_of(field),
{
}

/// A setting stands among those of its kind: the colours of the theme, the
/// shortcuts and the colours of the agents have sections of their own.
pub proof fn settings_stand_among_their_kind(field: SettingField)
    ensures
        (place_of(field).0 == SectionKind::Shortcuts) == (field.kind() == FieldKind::Shortcut),
        (place_of(field).0 == SectionKind::AgentColors) == (field is AgentColor),
        (place_of(field).0 == SectionKind::Colors) == (field.kind() == FieldKind::Color && !(
        field is AgentColor)),
        place_of(field).0 == SectionKind::Features ==> field.kind() == FieldKind::Switch,
        field.kind() == FieldKind::Words ==> place_of(field).0 == SectionKind::Shell,
        field.kind() == FieldKind::Count ==> place_of(field).0 == SectionKind::Terminal,
{
}

/// A shortcut is called the same where it is set and where it is refused; only
/// the one that switches tabs has two names.
pub proof fn shortcuts_are_called_the_same(at: int)
    requires
        0 <= at < labels().len(),
    ensures
        SectionKind::Shortcuts.fixed_rows().len() == labels().len(),
        SectionKind::Shortcuts.fixed_rows()[at].field == labels()[at].0,
        labels()[at].0 != SettingField::ShortcutSwitchTab
            ==> SectionKind::Shortcuts.fixed_rows()[at].label == labels()[at].1,
{
}

/// How a window looks takes effect at once; what a shell is started with, and
/// what a terminal keeps, with the next start.
pub proof fn sections_say_when_they_take_effect(section: SectionKind, at: int)
    requires
        0 <= at < section.fixed_rows().len(),
    ensures
        section == SectionKind::Features || section == SectionKind::Layout || section
            == SectionKind::Colors || section == SectionKind::Shortcuts
            ==> section.fixed_rows()[at].apply == ApplyKind::Immediate,
        section == SectionKind::Shell ==> section.fixed_rows()[at].apply == ApplyKind::Restart,
        section == SectionKind::Terminal ==> (section.fixed_rows()[at].apply == ApplyKind::Restart)
            == (section.fixed_rows()[at].field.kind() == FieldKind::Count),
        ApplyKind::Immediate.text() == "立即生效"@,
        ApplyKind::NewWindow.text() == "新窗口生效"@,
        ApplyKind::Restart.text() == "重启后生效"@,
{
}

} // verus!
