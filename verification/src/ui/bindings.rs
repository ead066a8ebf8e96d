//! The key bindings of the windows, and the menus.
use vstd::prelude::*;
use vstd::string::*;

use super::keystroke::{KeyView, Keystroke};
use crate::text::{same_text, trim, trimmed};

verus! {

/// What a key binding or a menu item does.
#[derive(Debug, Clone, Copy, PartialEq, Eq, Structural)]
pub enum WindowAction {
    OpenSettings,
    NewWindow,
    HideWindow,
    MinimizeWindow,
    IgnoreQuit,
    NewTerminalTab,
    NewWorkspace,
    ConnectRemote,
    ToggleSidebar,
    RenameWorkspace,
    RenameTab,
    NextTab,
    PreviousTab,
    NextWorkspace,
    PreviousWorkspace,
    SplitRight,
    SplitDown,
    /// Activates a tab by its place.
    ActivateTab(usize),
    QuitApplication,
    QuitApplicationAndServer,
}

/// The text of a shortcut, and whether each of its words is a keystroke.
#[derive(Debug)]
pub struct ShortcutText {
    pub text: String,
    pub words_are_keystrokes: bool,
}

/// The shortcuts of the windows.
#[derive(Debug)]
pub struct WindowShortcuts {
    pub open_settings: ShortcutText,
    pub new_window: ShortcutText,
    pub hide_window: ShortcutText,
    pub minimize_window: ShortcutText,
    pub ignore_quit: ShortcutText,
    pub new_terminal_tab: ShortcutText,
    pub new_workspace: ShortcutText,
    pub connect_remote: ShortcutText,
    pub toggle_sidebar: ShortcutText,
    pub rename_workspace: ShortcutText,
    pub rename_tab: ShortcutText,
    pub next_tab: ShortcutText,
    pub previous_tab: ShortcutText,
    pub next_workspace: ShortcutText,
    pub previous_workspace: ShortcutText,
    pub split_right: ShortcutText,
    pub split_down: ShortcutText,
    /// The shortcuts that activate the first ten tabs.
    pub switch_tab: Vec<ShortcutText>,
}

/// A text can be bound: it has words, and each of them is a keystroke.
pub open spec fn can_be_bound(text: Seq<char>, words_are_keystrokes: bool) -> bool {
    trimmed(text).len() > 0 && words_are_keystrokes
}

/// Whether a text can be bound.
pub fn shortcut_is_valid(text: &str, words_are_keystrokes: bool) -> (valid: bool)
    ensures
        valid == can_be_bound(text@, words_are_keystrokes),
{
    !trim(text).as_str().is_empty() && words_are_keystrokes
}

/// The keys that an action is bound to: those of its shortcut, or the usual
/// ones where the shortcut cannot be bound.
pub open spec fn bound_keys(shortcut: ShortcutText, fallback: Seq<char>) -> Seq<char> {
    if can_be_bound(shortcut.text@, shortcut.words_are_keystrokes) {
        shortcut.text@
    } else {
        fallback
    }
}

/// The usual keys that activate a tab.
pub open spec fn tab_keys(tab: int) -> Seq<char> {
    if tab == 0 {
        "cmd-1"@
    } else if tab == 1 {
        "cmd-2"@
    } else if tab == 2 {
        "cmd-3"@
    } else if tab == 3 {
        "cmd-4"@
    } else if tab == 4 {
        "cmd-5"@
    } else if tab == 5 {
        "cmd-6"@
    } else if tab == 6 {
        "cmd-7"@
    } else if tab == 7 {
        "cmd-8"@
    } else if tab == 8 {
        "cmd-9"@
    } else {
        "cmd-0"@
    }
}

/// An action and the keys it is bound to.
#[derive(Debug)]
pub struct WindowBinding {
    pub keys: String,
    pub action: WindowAction,
}

/// The bindings with their keys as text.
pub open spec fn binding_views(bindings: Seq<WindowBinding>) -> Seq<(Seq<char>, WindowAction)> {
    bindings.map_values(|binding: WindowBinding| (binding.keys@, binding.action))
}

/// The bindings of the windows.
pub open spec fn window_bindings(shortcuts: WindowShortcuts) -> Seq<(Seq<char>, WindowAction)> {
    seq![
        (bound_keys(shortcuts.open_settings, "cmd-,"@), WindowAction::OpenSettings),
        (bound_keys(shortcuts.new_window, "cmd-n"@), WindowAction::NewWindow),
        (bound_keys(shortcuts.hide_window, "cmd-w"@), WindowAction::HideWindow),
        (bound_keys(shortcuts.minimize_window, "cmd-m"@), WindowAction::MinimizeWindow),
        (bound_keys(shortcuts.ignore_quit, "cmd-q"@), WindowAction::IgnoreQuit),
        (bound_keys(shortcuts.new_terminal_tab, "cmd-t"@), WindowAction::NewTerminalTab),
        (bound_keys(shortcuts.new_workspace, "cmd-shift-n"@), WindowAction::NewWorkspace),
        (bound_keys(shortcuts.connect_remote, "cmd-shift-k"@), WindowAction::ConnectRemote),
        (bound_keys(shortcuts.toggle_sidebar, "cmd-e"@), WindowAction::ToggleSidebar),
        (bound_keys(shortcuts.rename_workspace, "cmd-shift-e"@), WindowAction::RenameWorkspace),
        (bound_keys(shortcuts.rename_tab, "cmd-shift-t"@), WindowAction::RenameTab),
        (bound_keys(shortcuts.next_tab, "cmd-]"@), WindowAction::NextTab),
        (bound_keys(shortcuts.previous_tab, "cmd-["@), WindowAction::PreviousTab),
        (bound_keys(shortcuts.next_workspace, "ctrl-tab"@), WindowAction::NextWorkspace),
        (bound_keys(shortcuts.previous_workspace, "ctrl-shift-tab"@), WindowAction::PreviousWorkspace),
        (bound_keys(shortcuts.split_right, "cmd-\\"@), WindowAction::SplitRight),
        (bound_keys(shortcuts.split_down, "cmd--"@), WindowAction::SplitDown),
    ] + Seq::new(
        10,
        |tab: int|
            (
                bound_keys(shortcuts.switch_tab@[tab], tab_keys(tab)),
                WindowAction::ActivateTab(tab as usize),
            ),
    )
}

/// Binds an action to its shortcut, or to the usual keys.
pub fn safe_key_binding(shortcut: &ShortcutText, fallback: &str, action: WindowAction) -> (binding:
    WindowBinding)
    ensures
        binding.keys@ == bound_keys(*shortcut, fallback@),
        binding.action == action,
{
    let keys: String = if shortcut_is_valid(
        shortcut.text.as_str(),
        shortcut.words_are_keystrokes,
    ) {
        shortcut.text.as_str().to_owned()
    } else {
        fallback.to_owned()
    };
    WindowBinding { keys, action }
}

fn usual_tab_keys(tab: usize) -> (keys: &'static str)
    ensures
        keys@ == tab_keys(tab as int),
{
    if tab == 0 {
        "cmd-1"
    } else if tab == 1 {
        "cmd-2"
    } else if tab == 2 {
        "cmd-3"
    } else if tab == 3 {
        "cmd-4"
    } else if tab == 4 {
        "cmd-5"
    } else if tab == 5 {
        "cmd-6"
    } else if tab == 6 {
        "cmd-7"
    } else if tab == 7 {
        "cmd-8"
    } else if tab == 8 {
        "cmd-9"
    } else {
        "cmd-0"
    }
}

/// The key bindings of the windows.
pub fn configured_window_key_bindings(shortcuts: &WindowShortcuts) -> (bindings: Vec<WindowBinding>)
    requires
        shortcuts.switch_tab@.len() == 10,
    ensures
        binding_views(bindings@) == window_bindings(*shortcuts),
{
    let mut bindings: Vec<WindowBinding> = Vec::new();
    bindings.push(safe_key_binding(&shortcuts.open_settings, "cmd-,", WindowAction::OpenSettings));
    bindings.push(safe_key_binding(&shortcuts.new_window, "cmd-n", WindowAction::NewWindow));
    bindings.push(safe_key_binding(&shortcuts.hide_window, "cmd-w", WindowAction::HideWindow));
    bindings.push(safe_key_binding(&shortcuts.minimize_window, "cmd-m", WindowAction::MinimizeWindow));
    bindings.push(safe_key_binding(&shortcuts.ignore_quit, "cmd-q", WindowAction::IgnoreQuit));
    bindings.push(safe_key_binding(&shortcuts.new_terminal_tab, "cmd-t", WindowAction::NewTerminalTab));
    bindings.push(safe_key_binding(&shortcuts.new_workspace, "cmd-shift-n", WindowAction::NewWorkspace));
    bindings.push(safe_key_binding(&shortcuts.connect_remote, "cmd-shift-k", WindowAction::ConnectRemote));
    bindings.push(safe_key_binding(&shortcuts.toggle_sidebar, "cmd-e", WindowAction::ToggleSidebar));
    bindings.push(safe_key_binding(&shortcuts.rename_workspace, "cmd-shift-e", WindowAction::RenameWorkspace));
    bindings.push(safe_key_binding(&shortcuts.rename_tab, "cmd-shift-t", WindowAction::RenameTab));
    bindings.push(safe_key_binding(&shortcuts.next_tab, "cmd-]", WindowAction::NextTab));
    bindings.push(safe_key_binding(&shortcuts.previous_tab, "cmd-[", WindowAction::PreviousTab));
    bindings.push(safe_key_binding(&shortcuts.next_workspace, "ctrl-tab", WindowAction::NextWorkspace));
    bindings.push(safe_key_binding(&shortcuts.previous_workspace, "ctrl-shift-tab", WindowAction::PreviousWorkspace));
    bindings.push(safe_key_binding(&shortcuts.split_right, "cmd-\\", WindowAction::SplitRight));
    bindings.push(safe_key_binding(&shortcuts.split_down, "cmd--", WindowAction::SplitDown));
    let ghost named = bindings@;
    let mut tab: usize = 0;
    while tab < 10
        invariant
            tab <= 10,
            shortcuts.switch_tab@.len() == 10,
            bindings@.len() == 17 + tab,
            named.len() == 17,
            bindings@.take(17) == named,
            forall|i: int|
                0 <= i < tab ==> (#[trigger] bindings@[17 + i]).keys@ == bound_keys(
                    shortcuts.switch_tab@[i],
                    tab_keys(i),
                ) && bindings@[17 + i].action == WindowAction::ActivateTab(i as usize),
        decreases 10 - tab,
    {
        let binding = safe_key_binding(
            &shortcuts.switch_tab[tab],
            usual_tab_keys(tab),
            WindowAction::ActivateTab(tab),
        );
        let ghost before = bindings@;
        bindings.push(binding);
        assert(bindings@.take(17) =~= before.take(17));
        assert forall|i: int| 0 <= i < tab + 1 implies (#[trigger] bindings@[17 + i]).keys@
            == bound_keys(shortcuts.switch_tab@[i], tab_keys(i)) && bindings@[17 + i].action
            == WindowAction::ActivateTab(i as usize) by {
            if i < tab {
                assert(bindings@[17 + i] == before[17 + i]);
            }
        }
        tab = tab + 1;
    }
    proof {
        let expected = window_bindings(*shortcuts);
        let views = binding_views(bindings@);
        assert forall|i: int| 0 <= i < 27 implies #[trigger] views[i] == expected[i] by {
            if i < 17 {
                assert(bindings@[i] == bindings@.take(17)[i]);
                assert(bindings@[i] == named[i]);
            } else {
                let k = i - 17;
                assert(bindings@[17 + k].keys@ == bound_keys(shortcuts.switch_tab@[k], tab_keys(k)));
            }
        }
        assert(views =~= expected);
    }
    bindings
}

/// Quitting has no key binding: it is a deliberate click in the menu.
pub proof fn quitting_is_never_bound(shortcuts: WindowShortcuts)
    ensures
        forall|i: int|
            0 <= i < window_bindings(shortcuts).len() ==> (#[trigger] window_bindings(
                shortcuts,
            )[i]).1 != WindowAction::QuitApplication && window_bindings(shortcuts)[i].1
                != WindowAction::QuitApplicationAndServer,
{
}

/// No action is bound twice.
pub proof fn an_action_is_bound_once(shortcuts: WindowShortcuts)
    ensures
        forall|i: int, j: int|
            0 <= i < j < window_bindings(shortcuts).len() ==> (#[trigger] window_bindings(
                shortcuts,
            )[i]).1 != (#[trigger] window_bindings(shortcuts)[j]).1,
{
}

/// Whether a key is the one that a shortcut begins with, if it begins with a
/// keystroke.
pub open spec fn is_pressed(expected: Option<KeyView>, actual: KeyView) -> bool {
    match expected {
        Some(expected) => expected.modifiers == actual.modifiers && expected.key == actual.key,
        None => false,
    }
}

/// A keystroke that may be missing, by its values.
pub open spec fn key_view(keystroke: Option<&Keystroke>) -> Option<KeyView> {
    match keystroke {
        Some(keystroke) => Some(keystroke@),
        None => None,
    }
}

/// Whether a key matches the keystroke that a shortcut begins with.
pub fn shortcut_matches(expected: Option<&Keystroke>, actual: &Keystroke) -> (matches: bool)
    ensures
        matches == is_pressed(key_view(expected), actual@),
{
    match expected {
        Some(expected) => expected.modifiers == actual.modifiers && same_text(
            expected.key.as_str(),
            actual.key.as_str(),
        ),
        None => false,
    }
}

/// Whether a key matches a shortcut, or the usual one where the shortcut
/// cannot be bound.
pub fn shortcut_matches_or_default(
    shortcut: &ShortcutText,
    first: Option<&Keystroke>,
    fallback: Option<&Keystroke>,
    actual: &Keystroke,
) -> (matches: bool)
    ensures
        matches == if can_be_bound(shortcut.text@, shortcut.words_are_keystrokes) {
            is_pressed(key_view(first), actual@)
        } else {
            is_pressed(key_view(fallback), actual@)
        },
{
    if shortcut_is_valid(shortcut.text.as_str(), shortcut.words_are_keystrokes) {
        shortcut_matches(first, actual)
    } else {
        shortcut_matches(fallback, actual)
    }
}

/// One line of a menu.
#[derive(Debug, Clone, Copy)]
pub enum MenuEntry {
    Action { name: &'static str, action: WindowAction },
    Separator,
    /// The system's menu of services.
    Services { name: &'static str },
}

/// One line of a menu by its text.
#[verifier::ext_equal]
pub enum MenuLine {
    Action { name: Seq<char>, action: WindowAction },
    Separator,
    Services { name: Seq<char> },
}

impl View for MenuEntry {
    type V = MenuLine;

    open spec fn view(&self) -> MenuLine {
        match self {
            MenuEntry::Action { name, action } => MenuLine::Action { name: name@, action: *action },
            MenuEntry::Separator => MenuLine::Separator,
            MenuEntry::Services { name } => MenuLine::Services { name: name@ },
        }
    }
}

#[derive(Debug)]
pub struct MenuBar {
    pub name: &'static str,
    pub items: Vec<MenuEntry>,
}

/// The lines of a menu.
pub open spec fn menu_lines(items: Seq<MenuEntry>) -> Seq<MenuLine> {
    items.map_values(|entry: MenuEntry| entry@)
}

fn action_entry(name: &'static str, action: WindowAction) -> (entry: MenuEntry)
    ensures
        entry@ == (MenuLine::Action { name: name@, action }),
{
    MenuEntry::Action { name, action }
}

/// The lines of the menu "Water".
pub open spec fn water_menu() -> Seq<MenuLine> {
    seq![
        MenuLine::Action { name: "Settings…"@, action: WindowAction::OpenSettings },
        MenuLine::Separator,
        MenuLine::Services { name: "Services"@ },
        MenuLine::Separator,
        MenuLine::Action { name: "Quit Water"@, action: WindowAction::QuitApplication },
        MenuLine::Action { name: "Quit GUI and Server"@, action: WindowAction::QuitApplicationAndServer },
    ]
}

/// The lines of the menu "File".
pub open spec fn file_menu() -> Seq<MenuLine> {
    seq![
        MenuLine::Action { name: "New Window"@, action: WindowAction::NewWindow },
        MenuLine::Action { name: "New Workspace"@, action: WindowAction::NewWorkspace },
        MenuLine::Action { name: "New Terminal Tab"@, action: WindowAction::NewTerminalTab },
        MenuLine::Separator,
        MenuLine::Action { name: "Rename Workspace"@, action: WindowAction::RenameWorkspace },
        MenuLine::Action { name: "Rename Tab"@, action: WindowAction::RenameTab },
    ]
}

/// The lines of the menu "View".
pub open spec fn view_menu() -> Seq<MenuLine> {
    seq![
        MenuLine::Action { name: "Toggle Sidebar"@, action: WindowAction::ToggleSidebar },
        MenuLine::Separator,
        MenuLine::Action { name: "Next Tab"@, action: WindowAction::NextTab },
        MenuLine::Action { name: "Previous Tab"@, action: WindowAction::PreviousTab },
        MenuLine::Action { name: "Next Workspace"@, action: WindowAction::NextWorkspace },
        MenuLine::Action { name: "Previous Workspace"@, action: WindowAction::PreviousWorkspace },
        MenuLine::Separator,
        MenuLine::Action { name: "Split Right"@, action: WindowAction::SplitRight },
        MenuLine::Action { name: "Split Down"@, action: WindowAction::SplitDown },
    ]
}

/// The lines of the menu "Window".
pub open spec fn window_menu() -> Seq<MenuLine> {
    seq![
        MenuLine::Action { name: "Hide Window"@, action: WindowAction::HideWindow },
        MenuLine::Action { name: "Minimize"@, action: WindowAction::MinimizeWindow },
    ]
}

/// The menus of the application.
pub fn application_menus() -> (menus: Vec<MenuBar>)
    ensures
        menus@.len() == 4,
        menus@[0].name@ == "Water"@ && menu_lines(menus@[0].items@) == water_menu(),
        menus@[1].name@ == "File"@ && menu_lines(menus@[1].items@) == file_menu(),
        menus@[2].name@ == "View"@ && menu_lines(menus@[2].items@) == view_menu(),
        menus@[3].name@ == "Window"@ && menu_lines(menus@[3].items@) == window_menu(),
{
    let mut water: Vec<MenuEntry> = Vec::new();
    water.push(action_entry("Settings…", WindowAction::OpenSettings));
    water.push(MenuEntry::Separator);
    water.push(MenuEntry::Services { name: "Services" });
    water.push(MenuEntry::Separator);
    water.push(action_entry("Quit Water", WindowAction::QuitApplication));
    water.push(action_entry("Quit GUI and Server", WindowAction::QuitApplicationAndServer));
    assert(menu_lines(water@) =~= water_menu());
    let mut file: Vec<MenuEntry> = Vec::new();
    file.push(action_entry("New Window", WindowAction::NewWindow));
    file.push(action_entry("New Workspace", WindowAction::NewWorkspace));
    file.push(action_entry("New Terminal Tab", WindowAction::NewTerminalTab));
    file.push(MenuEntry::Separator);
    file.push(action_entry("Rename Workspace", WindowAction::RenameWorkspace));
    file.push(action_entry("Rename Tab", WindowAction::RenameTab));
    assert(menu_lines(file@) =~= file_menu());
    let mut view: Vec<MenuEntry> = Vec::new();
    view.push(action_entry("Toggle Sidebar", WindowAction::ToggleSidebar));
    view.push(MenuEntry::Separator);
    view.push(action_entry("Next Tab", WindowAction::NextTab));
    view.push(action_entry("Previous Tab", WindowAction::PreviousTab));
    view.push(action_entry("Next Workspace", WindowAction::NextWorkspace));
    view.push(action_entry("Previous Workspace", WindowAction::PreviousWorkspace));
    view.push(MenuEntry::Separator);
    view.push(action_entry("Split Right", WindowAction::SplitRight));
    view.push(action_entry("Split Down", WindowAction::SplitDown));
    assert(menu_lines(view@) =~= view_menu());
    let mut window: Vec<MenuEntry> = Vec::new();
    window.push(action_entry("Hide Window", WindowAction::HideWindow));
    window.push(action_entry("Minimize", WindowAction::MinimizeWindow));
    assert(menu_lines(window@) =~= window_menu());
    let mut menus: Vec<MenuBar> = Vec::new();
    menus.push(MenuBar { name: "Water", items: water });
    menus.push(MenuBar { name: "File", items: file });
    menus.push(MenuBar { name: "View", items: view });
    menus.push(MenuBar { name: "Window", items: window });
    menus
}

/// A shortcut that is set is bound as it is set, and one that is not by its
/// default.
pub proof fn a_set_shortcut_is_bound(shortcut: ShortcutText, fallback: Seq<char>)
    ensures
        shortcut.words_are_keystrokes && trimmed(shortcut.text@).len() > 0 ==> bound_keys(
            shortcut,
            fallback,
        ) == shortcut.text@,
        !shortcut.words_are_keystrokes || trimmed(shortcut.text@).len() == 0 ==> bound_keys(
            shortcut,
            fallback,
        ) == fallback,
{
}

/// Without a setting, the first ten tabs are activated by the platform key and
/// the digits from one on, zero for the tenth.
pub proof fn tabs_are_counted_by_digits(tab: int)
    requires
        0 <= tab < 10,
    ensures
        tab_keys(tab) == "cmd-"@.push(((49 + tab) as char)) || tab == 9,
        tab_keys(9) == "cmd-"@.push('0'),
{
    reveal_strlit("cmd-");
    reveal_strlit("cmd-0");
    reveal_strlit("cmd-1");
    reveal_strlit("cmd-2");
    reveal_strlit("cmd-3");
    reveal_strlit("cmd-4");
    reveal_strlit("cmd-5");
    reveal_strlit("cmd-6");
    reveal_strlit("cmd-7");
    reveal_strlit("cmd-8");
    reveal_strlit("cmd-9");
    assert("cmd-0"@ =~= "cmd-"@.push('0'));
    assert("cmd-1"@ =~= "cmd-"@.push('1'));
    assert("cmd-2"@ =~= "cmd-"@.push('2'));
    assert("cmd-3"@ =~= "cmd-"@.push('3'));
    assert("cmd-4"@ =~= "cmd-"@.push('4'));
    assert("cmd-5"@ =~= "cmd-"@.push('5'));
    assert("cmd-6"@ =~= "cmd-"@.push('6'));
    assert("cmd-7"@ =~= "cmd-"@.push('7'));
    assert("cmd-8"@ =~= "cmd-"@.push('8'));
    assert("cmd-9"@ =~= "cmd-"@.push('9'));
}

/// An action is bound to the shortcut that is named after it.
pub proof fn actions_are_bound_to_their_shortcuts(shortcuts: WindowShortcuts, at: int, tab: int)
    requires
        0 <= at < window_bindings(shortcuts).len(),
        0 <= tab < 10,
    ensures
        ({
            let (keys, action) = window_bindings(shortcuts)[at];
            &&& action == WindowAction::OpenSettings ==> keys == bound_keys(
                shortcuts.open_settings,
                "cmd-,"@,
            )
            &&& action == WindowAction::NewWindow ==> keys == bound_keys(
                shortcuts.new_window,
                "cmd-n"@,
            )
            &&& action == WindowAction::HideWindow ==> keys == bound_keys(
                shortcuts.hide_window,
                "cmd-w"@,
            )
            &&& action == WindowAction::MinimizeWindow ==> keys == bound_keys(
                shortcuts.minimize_window,
                "cmd-m"@,
            )
            &&& action == WindowAction::IgnoreQuit ==> keys == bound_keys(
                shortcuts.ignore_quit,
                "cmd-q"@,
            )
            &&& action == WindowAction::NewTerminalTab ==> keys == bound_keys(
                shortcuts.new_terminal_tab,
                "cmd-t"@,
            )
            &&& action == WindowAction::NewWorkspace ==> keys == bound_keys(
                shortcuts.new_workspace,
                "cmd-shift-n"@,
            )
            &&& action == WindowAction::ConnectRemote ==> keys == bound_keys(
                shortcuts.connect_remote,
                "cmd-shift-k"@,
            )
            &&& action == WindowAction::ToggleSidebar ==> keys == bound_keys(
                shortcuts.toggle_sidebar,
                "cmd-e"@,
            )
            &&& action == WindowAction::RenameWorkspace ==> keys == bound_keys(
                shortcuts.rename_workspace,
                "cmd-shift-e"@,
            )
            &&& action == WindowAction::RenameTab ==> keys == bound_keys(
                shortcuts.rename_tab,
                "cmd-shift-t"@,
            )
            &&& action == WindowAction::NextTab ==> keys == bound_keys(
                shortcuts.next_tab,
                "cmd-]"@,
            )
            &&& action == WindowAction::PreviousTab ==> keys == bound_keys(
                shortcuts.previous_tab,
                "cmd-["@,
            )
            &&& action == WindowAction::NextWorkspace ==> keys == bound_keys(
                shortcuts.next_workspace,
                "ctrl-tab"@,
            )
            &&& action == WindowAction::PreviousWorkspace ==> keys == bound_keys(
                shortcuts.previous_workspace,
                "ctrl-shift-tab"@,
            )
            &&& action == WindowAction::SplitRight ==> keys == bound_keys(
                shortcuts.split_right,
                "cmd-\\"@,
            )
            &&& action == WindowAction::SplitDown ==> keys == bound_keys(
                shortcuts.split_down,
                "cmd--"@,
            )
            &&& action == WindowAction::ActivateTab(tab as usize) ==> keys == bound_keys(
                shortcuts.switch_tab@[tab],
                tab_keys(tab),
            )
        }),
        window_bindings(shortcuts).len() == 27,
{
}

/// What an item of the menus that starts an action is called.
pub open spec fn action_name(action: WindowAction) -> Seq<char> {
    match action {
        WindowAction::OpenSettings => "Settings…"@,
        WindowAction::QuitApplication => "Quit Water"@,
        WindowAction::QuitApplicationAndServer => "Quit GUI and Server"@,
        WindowAction::NewWindow => "New Window"@,
        WindowAction::NewWorkspace => "New Workspace"@,
        WindowAction::NewTerminalTab => "New Terminal Tab"@,
        WindowAction::RenameWorkspace => "Rename Workspace"@,
        WindowAction::RenameTab => "Rename Tab"@,
        WindowAction::ToggleSidebar => "Toggle Sidebar"@,
        WindowAction::NextTab => "Next Tab"@,
        WindowAction::PreviousTab => "Previous Tab"@,
        WindowAction::NextWorkspace => "Next Workspace"@,
        WindowAction::PreviousWorkspace => "Previous Workspace"@,
        WindowAction::SplitRight => "Split Right"@,
        WindowAction::SplitDown => "Split Down"@,
        WindowAction::HideWindow => "Hide Window"@,
        WindowAction::MinimizeWindow => "Minimize"@,
        _ => Seq::empty(),
    }
}

/// Every item of the menus does what it is called.
pub proof fn menu_items_do_what_they_are_called(at: int)
    ensures
        0 <= at < water_menu().len() ==> (water_menu()[at] matches MenuLine::Action { name, action }
            ==> name == action_name(action)),
        0 <= at < file_menu().len() ==> (file_menu()[at] matches MenuLine::Action { name, action }
            ==> name == action_name(action)),
        0 <= at < view_menu().len() ==> (view_menu()[at] matches MenuLine::Action { name, action }
            ==> name == action_name(action)),
        0 <= at < window_menu().len() ==> (window_menu()[at] matches MenuLine::Action {
            name,
            action,
        } ==> name == action_name(action)),
{
}

/// A key is the one of a shortcut where it has the same name and the same
/// modifiers, whatever it types.
pub proof fn a_shortcut_is_pressed_by_its_key(expected: KeyView, actual: KeyView)
    ensures
        is_pressed(Some(expected), actual) == (expected.key == actual.key && expected.modifiers
            == actual.modifiers),
        !is_pressed(None, actual),
        is_pressed(Some(actual), actual),
{
}

} // verus!
