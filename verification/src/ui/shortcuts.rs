//! Checking shortcuts for mistakes and conflicts.
use vstd::prelude::*;
use vstd::string::*;

use super::config::{SettingValue, SettingsConfig, ValueView};
use super::fields::{FieldKind, SettingField};
use crate::text::{
    chars_of, copy_texts, is_white_space, same_text, text_of, texts, trim, trimmed, white_space,
};
use vstd::slice::*;

verus! {

/// A shortcut as it is called where it is refused.
#[derive(Debug, Clone, Copy)]
pub struct ShortcutLabel {
    pub field: SettingField,
    pub label: &'static str,
}

/// The shortcuts and what they are called, in the order in which they are
/// checked.
pub open spec fn labels() -> Seq<(SettingField, Seq<char>)> {
    seq![
        (SettingField::ShortcutOpenSettings, "打开设置"@),
        (SettingField::ShortcutNewWindow, "新建窗口"@),
        (SettingField::ShortcutHideWindow, "隐藏窗口"@),
        (SettingField::ShortcutMinimizeWindow, "最小化窗口"@),
        (SettingField::ShortcutIgnoreQuit, "忽略退出"@),
        (SettingField::ShortcutNewTerminalTab, "新建终端标签"@),
        (SettingField::ShortcutNewWorkspace, "新建工作区"@),
        (SettingField::ShortcutToggleSidebar, "切换侧边栏"@),
        (SettingField::ShortcutSwitchTab, "切换标签"@),
        (SettingField::ShortcutNextTab, "下一个标签"@),
        (SettingField::ShortcutPreviousTab, "上一个标签"@),
        (SettingField::ShortcutNextWorkspace, "下一个工作区"@),
        (SettingField::ShortcutPreviousWorkspace, "上一个工作区"@),
        (SettingField::ShortcutRenameWorkspace, "重命名工作区"@),
        (SettingField::ShortcutRenameTab, "重命名标签"@),
        (SettingField::ShortcutSplitRight, "右侧分屏"@),
        (SettingField::ShortcutSplitDown, "向下分屏"@),
        (SettingField::ShortcutClosePane, "关闭面板"@),
        (SettingField::ShortcutFocusLeft, "聚焦左侧面板"@),
        (SettingField::ShortcutFocusRight, "聚焦右侧面板"@),
        (SettingField::ShortcutFocusUp, "聚焦上方面板"@),
        (SettingField::ShortcutFocusDown, "聚焦下方面板"@),
        (SettingField::ShortcutPaste, "粘贴到终端"@),
        (SettingField::ShortcutCopyOrInterrupt, "复制或发送 Ctrl-C"@),
        (SettingField::ShortcutEof, "发送 EOF"@),
        (SettingField::ShortcutScrollPageUp, "向上滚动一页"@),
        (SettingField::ShortcutScrollPageDown, "向下滚动一页"@),
    ]
}

pub open spec fn label_pairs(labels: Seq<ShortcutLabel>) -> Seq<(SettingField, Seq<char>)> {
    labels.map_values(|label: ShortcutLabel| (label.field, label.label@))
}

pub fn shortcut_labels() -> (table: Vec<ShortcutLabel>)
    ensures
        label_pairs(table@) == labels(),
{
    let mut table: Vec<ShortcutLabel> = Vec::new();
    table.push(ShortcutLabel { field: SettingField::ShortcutOpenSettings, label: "打开设置" });
    table.push(ShortcutLabel { field: SettingField::ShortcutNewWindow, label: "新建窗口" });
    table.push(ShortcutLabel { field: SettingField::ShortcutHideWindow, label: "隐藏窗口" });
    table.push(ShortcutLabel { field: SettingField::ShortcutMinimizeWindow, label: "最小化窗口" });
    table.push(ShortcutLabel { field: SettingField::ShortcutIgnoreQuit, label: "忽略退出" });
    table.push(ShortcutLabel { field: SettingField::ShortcutNewTerminalTab, label: "新建终端标签" });
    table.push(ShortcutLabel { field: SettingField::ShortcutNewWorkspace, label: "新建工作区" });
    table.push(ShortcutLabel { field: SettingField::ShortcutToggleSidebar, label: "切换侧边栏" });
    table.push(ShortcutLabel { field: SettingField::ShortcutSwitchTab, label: "切换标签" });
    table.push(ShortcutLabel { field: SettingField::ShortcutNextTab, label: "下一个标签" });
    table.push(ShortcutLabel { field: SettingField::ShortcutPreviousTab, label: "上一个标签" });
    table.push(ShortcutLabel { field: SettingField::ShortcutNextWorkspace, label: "下一个工作区" });
    table.push(ShortcutLabel { field: SettingField::ShortcutPreviousWorkspace, label: "上一个工作区" });
    table.push(ShortcutLabel { field: SettingField::ShortcutRenameWorkspace, label: "重命名工作区" });
    table.push(ShortcutLabel { field: SettingField::ShortcutRenameTab, label: "重命名标签" });
    table.push(ShortcutLabel { field: SettingField::ShortcutSplitRight, label: "右侧分屏" });
    table.push(ShortcutLabel { field: SettingField::ShortcutSplitDown, label: "向下分屏" });
    table.push(ShortcutLabel { field: SettingField::ShortcutClosePane, label: "关闭面板" });
    table.push(ShortcutLabel { field: SettingField::ShortcutFocusLeft, label: "聚焦左侧面板" });
    table.push(ShortcutLabel { field: SettingField::ShortcutFocusRight, label: "聚焦右侧面板" });
    table.push(ShortcutLabel { field: SettingField::ShortcutFocusUp, label: "聚焦上方面板" });
    table.push(ShortcutLabel { field: SettingField::ShortcutFocusDown, label: "聚焦下方面板" });
    table.push(ShortcutLabel { field: SettingField::ShortcutPaste, label: "粘贴到终端" });
    table.push(ShortcutLabel { field: SettingField::ShortcutCopyOrInterrupt, label: "复制或发送 Ctrl-C" });
    table.push(ShortcutLabel { field: SettingField::ShortcutEof, label: "发送 EOF" });
    table.push(ShortcutLabel { field: SettingField::ShortcutScrollPageUp, label: "向上滚动一页" });
    table.push(ShortcutLabel { field: SettingField::ShortcutScrollPageDown, label: "向下滚动一页" });
    assert(label_pairs(table@) =~= labels());
    table
}

/// Every shortcut is checked.
pub proof fn every_shortcut_is_checked(field: SettingField)
    requires
        field.kind() == FieldKind::Shortcut,
    ensures
        exists|i: int| 0 <= i < labels().len() && (#[trigger] labels()[i]).0 == field,
{
    let at: int = match field {
        SettingField::ShortcutOpenSettings => 0,
        SettingField::ShortcutNewWindow => 1,
        SettingField::ShortcutHideWindow => 2,
        SettingField::ShortcutMinimizeWindow => 3,
        SettingField::ShortcutIgnoreQuit => 4,
        SettingField::ShortcutNewTerminalTab => 5,
        SettingField::ShortcutNewWorkspace => 6,
        SettingField::ShortcutToggleSidebar => 7,
        SettingField::ShortcutSwitchTab => 8,
        SettingField::ShortcutNextTab => 9,
        SettingField::ShortcutPreviousTab => 10,
        SettingField::ShortcutNextWorkspace => 11,
        SettingField::ShortcutPreviousWorkspace => 12,
        SettingField::ShortcutRenameWorkspace => 13,
        SettingField::ShortcutRenameTab => 14,
        SettingField::ShortcutSplitRight => 15,
        SettingField::ShortcutSplitDown => 16,
        SettingField::ShortcutClosePane => 17,
        SettingField::ShortcutFocusLeft => 18,
        SettingField::ShortcutFocusRight => 19,
        SettingField::ShortcutFocusUp => 20,
        SettingField::ShortcutFocusDown => 21,
        SettingField::ShortcutPaste => 22,
        SettingField::ShortcutCopyOrInterrupt => 23,
        SettingField::ShortcutEof => 24,
        SettingField::ShortcutScrollPageUp => 25,
        SettingField::ShortcutScrollPageDown => 26,
        _ => -1,
    };
    assert(labels()[at].0 == field);
}

/// Where the first character stands from an index on that is white space, or
/// is not.
pub open spec fn next_space(text: Seq<char>, from: int, space: bool) -> int
    decreases text.len() - from,
{
    if from < 0 || from >= text.len() || white_space(text[from]) == space {
        from
    } else {
        next_space(text, from + 1, space)
    }
}

pub proof fn lemma_next_space(text: Seq<char>, from: int, space: bool)
    requires
        0 <= from <= text.len(),
    ensures
        from <= next_space(text, from, space) <= text.len(),
        next_space(text, from, space) < text.len() ==> white_space(
            text[next_space(text, from, space)],
        ) == space,
    decreases text.len() - from,
{
    if from < text.len() && white_space(text[from]) != space {
        lemma_next_space(text, from + 1, space);
    }
}

/// The words of a text from an index on.
pub open spec fn words_from(text: Seq<char>, from: int) -> Seq<Seq<char>>
    decreases text.len() - from,
    when 0 <= from
{
    proof {
        if from <= text.len() {
            lemma_next_space(text, from, false);
            lemma_next_space(text, next_space(text, from, false), true);
        }
    }
    let start = next_space(text, from, false);
    let end = next_space(text, start, true);
    if from >= text.len() || start >= text.len() {
        Seq::empty()
    } else {
        seq![text.subrange(start, end)] + words_from(text, end)
    }
}

fn find_space(chars: &[char], from: usize, space: bool) -> (at: usize)
    requires
        from <= chars@.len(),
    ensures
        at == next_space(chars@, from as int, space),
        from <= at <= chars@.len(),
        at < chars@.len() ==> white_space(chars@[at as int]) == space,
{
    let mut at: usize = from;
    while at < chars.len() && is_white_space(chars[at]) != space
        invariant
            from <= at <= chars@.len(),
            next_space(chars@, from as int, space) == next_space(chars@, at as int, space),
        decreases chars@.len() - at,
    {
        at = at + 1;
    }
    at
}

/// The words of a text.
pub fn words(text: &str) -> (list: Vec<String>)
    ensures
        texts(list@) == words_from(text@, 0),
{
    let chars: Vec<char> = chars_of(text);
    let mut list: Vec<String> = Vec::new();
    let mut at: usize = 0;
    assert(texts(list@) + words_from(text@, 0) =~= words_from(text@, 0));
    while at < chars.len()
        invariant
            chars@ == text@,
            at <= chars@.len(),
            words_from(text@, 0) == texts(list@) + words_from(text@, at as int),
        decreases chars@.len() - at,
    {
        let start: usize = find_space(chars.as_slice(), at, false);
        let end: usize = find_space(chars.as_slice(), start, true);
        if start < chars.len() {
            let word: String = text_of(slice_subrange(chars.as_slice(), start, end));
            let ghost before = texts(list@);
            let ghost rest = words_from(text@, end as int);
            list.push(word);
            assert(texts(list@) =~= before.push(word@));
            assert(before + (seq![word@] + rest) =~= before.push(word@) + rest);
        } else {
            assert(texts(list@) + words_from(text@, at as int) =~= texts(list@) + words_from(
                text@,
                end as int,
            ));
        }
        at = end;
    }
    assert(texts(list@) + Seq::empty() =~= texts(list@));
    list
}

/// The text has the form of a shortcut, where its words are keystrokes.
pub open spec fn is_shortcut_text(text: Seq<char>, words_are_keystrokes: bool) -> bool {
    let value = trimmed(text);
    value.len() > 0 && !value.contains('#') && words_are_keystrokes
}

fn has_char(chars: &Vec<char>, c: char) -> (found: bool)
    ensures
        found == chars@.contains(c),
{
    let mut i: usize = 0;
    while i < chars.len()
        invariant
            i <= chars@.len(),
            forall|k: int| 0 <= k < i ==> chars@[k] != c,
        decreases chars@.len() - i,
    {
        if chars[i] == c {
            return true;
        }
        i = i + 1;
    }
    false
}

/// Whether a text is a shortcut. Whether each of its words is a keystroke is
/// given along.
pub fn shortcut_is_valid(value: &str, words_are_keystrokes: bool) -> (valid: bool)
    ensures
        valid == is_shortcut_text(value@, words_are_keystrokes),
{
    let kept: String = trim(value);
    let chars: Vec<char> = chars_of(kept.as_str());
    chars.len() > 0 && !has_char(&chars, '#') && words_are_keystrokes
}

/// A text may be entered for a shortcut. The one that switches to a tab is a
/// template.
pub open spec fn fits_shortcut(
    field: SettingField,
    text: Seq<char>,
    words_are_keystrokes: bool,
    is_template: bool,
) -> bool {
    if field == SettingField::ShortcutSwitchTab {
        is_template
    } else {
        is_shortcut_text(text, words_are_keystrokes)
    }
}

/// Whether a text may be entered for a shortcut. The one that switches to a
/// tab is a template, and whether it is a proper one is given along.
pub fn shortcut_is_valid_for(
    field: SettingField,
    value: &str,
    words_are_keystrokes: bool,
    is_template: bool,
) -> (valid: bool)
    ensures
        valid == fits_shortcut(field, value@, words_are_keystrokes, is_template),
{
    if field == SettingField::ShortcutSwitchTab {
        is_template
    } else {
        shortcut_is_valid(value, words_are_keystrokes)
    }
}

/// The keystrokes that a shortcut stands for.
pub open spec fn expansions(
    field: SettingField,
    text: Seq<char>,
    template_bindings: Seq<Seq<char>>,
) -> Seq<Seq<char>> {
    if field == SettingField::ShortcutSwitchTab {
        template_bindings
    } else {
        seq![trimmed(text)]
    }
}

/// Concrete keystroke(s) a shortcut value can produce at runtime. The
/// tab-template (`cmd-#`) expands to its ten digit bindings, which are given;
/// every other shortcut contributes exactly itself.
pub fn shortcut_expansions(field: SettingField, value: &str, template_bindings: Vec<String>) -> (
    bindings: Vec<String>)
    ensures
        texts(bindings@) == expansions(field, value@, texts(template_bindings@)),
{
    if field == SettingField::ShortcutSwitchTab {
        template_bindings
    } else {
        let mut bindings: Vec<String> = Vec::new();
        bindings.push(trim(value));
        assert(texts(bindings@) =~= seq![trimmed(value@)]);
        bindings
    }
}

/// A shortcut that is checked: whether it is valid, and the keystrokes it
/// stands for.
#[derive(Debug)]
pub struct ShortcutEntry {
    pub label: &'static str,
    pub valid: bool,
    pub bindings: Vec<String>,
}

/// A shortcut that is checked, by its values.
#[verifier::ext_equal]
pub struct ShortcutView {
    pub label: Seq<char>,
    pub valid: bool,
    pub bindings: Seq<Seq<char>>,
}

impl View for ShortcutEntry {
    type V = ShortcutView;

    open spec fn view(&self) -> ShortcutView {
        ShortcutView { label: self.label@, valid: self.valid, bindings: texts(self.bindings@) }
    }
}

pub open spec fn entry_views(entries: Seq<ShortcutEntry>) -> Seq<ShortcutView> {
    entries.map_values(|entry: ShortcutEntry| entry@)
}

/// The first keystroke of some that is among others.
pub open spec fn common(some: Seq<Seq<char>>, others: Seq<Seq<char>>) -> Option<Seq<char>>
    decreases some.len(),
{
    if some.len() == 0 {
        None
    } else if others.contains(some[0]) {
        Some(some[0])
    } else {
        common(some.drop_first(), others)
    }
}

/// What is wrong with a shortcut and those from `other` on: the first
/// conflict.
pub open spec fn conflict(entries: Seq<ShortcutView>, at: int, other: int) -> Option<Seq<char>>
    decreases entries.len() - other,
{
    if other < 0 || other >= entries.len() {
        None
    } else {
        match common(entries[at].bindings, entries[other].bindings) {
            Some(hit) => Some(
                "快捷键冲突："@ + entries[at].label + "和"@ + entries[other].label + "都使用 "@ + hit,
            ),
            None => conflict(entries, at, other + 1),
        }
    }
}

/// What is wrong with the shortcuts from an index on: the first mistake.
pub open spec fn first_mistake(entries: Seq<ShortcutView>, at: int) -> Option<Seq<char>>
    decreases entries.len() - at,
{
    if at < 0 || at >= entries.len() {
        None
    } else if !entries[at].valid {
        Some(entries[at].label + "的快捷键格式无效"@)
    } else {
        match conflict(entries, at, at + 1) {
            Some(message) => Some(message),
            None => first_mistake(entries, at + 1),
        }
    }
}

fn find_common(some: &Vec<String>, others: &Vec<String>) -> (at: Option<usize>)
    ensures
        match at {
            Some(at) => at < some@.len() && common(texts(some@), texts(others@)) == Some(
                some@[at as int]@,
            ),
            None => common(texts(some@), texts(others@)) is None,
        },
{
    let ghost all = texts(some@);
    let ghost targets = texts(others@);
    let mut i: usize = 0;
    assert(all.skip(0) =~= all);
    while i < some.len()
        invariant
            i <= some@.len(),
            all == texts(some@),
            targets == texts(others@),
            common(all, targets) == common(all.skip(i as int), targets),
        decreases some@.len() - i,
    {
        let mut j: usize = 0;
        while j < others.len()
            invariant
                i < some@.len(),
                j <= others@.len(),
                all == texts(some@),
                targets == texts(others@),
                forall|k: int| 0 <= k < j ==> targets[k] != all[i as int],
                common(all, targets) == common(all.skip(i as int), targets),
            decreases others@.len() - j,
        {
            if same_text(some[i].as_str(), others[j].as_str()) {
                assert(targets[j as int] == all[i as int]);
                assert(all.skip(i as int)[0] == all[i as int]);
                return Some(i);
            }
            j = j + 1;
        }
        assert(all.skip(i as int)[0] == all[i as int]);
        assert(all.skip(i as int).drop_first() =~= all.skip(i + 1));
        i = i + 1;
    }
    None
}

/// Checks that every shortcut is valid and that no two stand for the same
/// keystroke.
pub fn validate_shortcuts(entries: &[ShortcutEntry]) -> (result: Result<(), String>)
    ensures
        match result {
            Ok(_) => first_mistake(entry_views(entries@), 0) is None,
            Err(message) => first_mistake(entry_views(entries@), 0) == Some(message@),
        },
{
    let ghost views = entry_views(entries@);
    let mut at: usize = 0;
    while at < entries.len()
        invariant
            at <= entries@.len(),
            views == entry_views(entries@),
            first_mistake(views, 0) == first_mistake(views, at as int),
        decreases entries@.len() - at,
    {
        assert(views[at as int] == entries@[at as int]@);
        if !entries[at].valid {
            let mut message = entries[at].label.to_owned();
            message.append("的快捷键格式无效");
            return Err(message);
        }
        let mut other: usize = at + 1;
        while other < entries.len()
            invariant
                at < other <= entries@.len() == entries.len(),
                views == entry_views(entries@),
                views[at as int] == entries@[at as int]@,
                views[at as int].valid,
                conflict(views, at as int, at + 1) == conflict(views, at as int, other as int),
                first_mistake(views, 0) == first_mistake(views, at as int),
            decreases entries@.len() - other,
        {
            assert(views[other as int] == entries@[other as int]@);
            if let Some(hit) = find_common(&entries[at].bindings, &entries[other].bindings) {
                let mut message = "快捷键冲突：".to_owned();
                message.append(entries[at].label);
                message.append("和");
                message.append(entries[other].label);
                message.append("都使用 ");
                message.append(entries[at].bindings[hit].as_str());
                return Err(message);
            }
            other = other + 1;
        }
        at = at + 1;
    }
    Ok(())
}

/// What is known of the shortcuts of a configuration: whether the words of
/// each are keystrokes, in the order in which they are checked, whether the
/// one for the tabs is a proper template, and the keystrokes it stands for.
#[derive(Debug)]
pub struct ShortcutVerdicts {
    pub words_are_keystrokes: Vec<bool>,
    pub is_template: bool,
    pub template_bindings: Vec<String>,
}

/// The text of a shortcut in a configuration.
pub open spec fn shortcut_text(values: Map<SettingField, ValueView>, field: SettingField) -> Seq<
    char,
> {
    if values.contains_key(field) {
        match values[field] {
            ValueView::Text(text) => text,
            _ => Seq::empty(),
        }
    } else {
        Seq::empty()
    }
}

/// The shortcuts of a configuration as they are checked.
pub open spec fn configured(
    values: Map<SettingField, ValueView>,
    verdicts: ShortcutVerdicts,
) -> Seq<ShortcutView> {
    Seq::new(
        labels().len(),
        |i: int|
            {
                let (field, label) = labels()[i];
                let text = shortcut_text(values, field);
                ShortcutView {
                    label,
                    valid: fits_shortcut(
                        field,
                        text,
                        verdicts.words_are_keystrokes@[i],
                        verdicts.is_template,
                    ),
                    bindings: expansions(field, text, texts(verdicts.template_bindings@)),
                }
            },
    )
}

/// The shortcuts of a configuration as they are checked.
pub fn shortcut_entries(config: &SettingsConfig, verdicts: &ShortcutVerdicts) -> (entries: Vec<
    ShortcutEntry,
>)
    requires
        verdicts.words_are_keystrokes@.len() == labels().len(),
    ensures
        entry_views(entries@) == configured(config@, *verdicts),
{
    let table: Vec<ShortcutLabel> = shortcut_labels();
    let ghost expected = configured(config@, *verdicts);
    let mut entries: Vec<ShortcutEntry> = Vec::new();
    assert(label_pairs(table@).len() == table@.len());
    while entries.len() < table.len()
        invariant
            entries@.len() <= table@.len(),
            table@.len() == labels().len(),
            label_pairs(table@) == labels(),
            verdicts.words_are_keystrokes@.len() == labels().len(),
            expected == configured(config@, *verdicts),
            forall|k: int| 0 <= k < entries@.len() ==> (#[trigger] entries@[k])@ == expected[k],
        decreases table@.len() - entries@.len(),
    {
        let at: usize = entries.len();
        let field: SettingField = table[at].field;
        assert(label_pairs(table@)[at as int] == labels()[at as int]);
        let value: String = match config.get(field) {
            Some(SettingValue::Text(text)) => text.as_str().to_owned(),
            _ => {
                let text = String::new();
                assert(text@ =~= Seq::empty());
                text
            },
        };
        let valid: bool = shortcut_is_valid_for(
            field,
            value.as_str(),
            verdicts.words_are_keystrokes[at],
            verdicts.is_template,
        );
        let bindings: Vec<String> = shortcut_expansions(
            field,
            value.as_str(),
            copy_texts(&verdicts.template_bindings),
        );
        entries.push(ShortcutEntry { label: table[at].label, valid, bindings });
    }
    assert(entry_views(entries@) =~= expected);
    entries
}

/// Checks the shortcuts of a configuration.
pub fn validate_config_shortcuts(config: &SettingsConfig, verdicts: &ShortcutVerdicts) -> (result:
    Result<(), String>)
    requires
        verdicts.words_are_keystrokes@.len() == labels().len(),
    ensures
        match result {
            Ok(_) => first_mistake(configured(config@, *verdicts), 0) is None,
            Err(message) => first_mistake(configured(config@, *verdicts), 0) == Some(message@),
        },
{
    let entries: Vec<ShortcutEntry> = shortcut_entries(config, verdicts);
    validate_shortcuts(entries.as_slice())
}

proof fn lemma_common(some: Seq<Seq<char>>, others: Seq<Seq<char>>)
    ensures
        common(some, others) is None <==> forall|i: int|
            0 <= i < some.len() ==> !others.contains(#[trigger] some[i]),
    decreases some.len(),
{
    if some.len() > 0 {
        lemma_common(some.drop_first(), others);
        if common(some, others) is None {
            assert forall|i: int| 0 <= i < some.len() implies !others.contains(
                #[trigger] some[i],
            ) by {
                if i > 0 {
                    assert(some[i] == some.drop_first()[i - 1]);
                }
            }
        } else if !others.contains(some[0]) {
            let rest = some.drop_first();
            let i = choose|i: int| 0 <= i < rest.len() && others.contains(#[trigger] rest[i]);
            assert(others.contains(some[i + 1]));
        }
    }
}

proof fn lemma_conflict(entries: Seq<ShortcutView>, at: int, other: int)
    requires
        0 <= other <= entries.len(),
    ensures
        conflict(entries, at, other) is None <==> forall|j: int|
            other <= j < entries.len() ==> common(
                entries[at].bindings,
                (#[trigger] entries[j]).bindings,
            ) is None,
    decreases entries.len() - other,
{
    if other < entries.len() {
        lemma_conflict(entries, at, other + 1);
    }
}

proof fn lemma_first_mistake(entries: Seq<ShortcutView>, at: int)
    requires
        0 <= at <= entries.len(),
    ensures
        first_mistake(entries, at) is None <==> forall|i: int|
            at <= i < entries.len() ==> (#[trigger] entries[i]).valid && conflict(
                entries,
                i,
                i + 1,
            ) is None,
    decreases entries.len() - at,
{
    if at < entries.len() {
        lemma_first_mistake(entries, at + 1);
    }
}

/// The shortcuts are accepted exactly where each is valid and no two of them
/// stand for the same keystroke.
pub proof fn accepted_shortcuts_do_not_conflict(entries: Seq<ShortcutView>)
    ensures
        first_mistake(entries, 0) is None <==> {
            &&& forall|i: int| 0 <= i < entries.len() ==> (#[trigger] entries[i]).valid
            &&& forall|i: int, j: int, keystroke: Seq<char>|
                0 <= i < j < entries.len() && #[trigger] entries[i].bindings.contains(
                    keystroke,
                ) ==> !#[trigger] entries[j].bindings.contains(keystroke)
        },
{
    lemma_first_mistake(entries, 0);
    assert forall|i: int, j: int| 0 <= i < j < entries.len() implies (common(
        (#[trigger] entries[i]).bindings,
        (#[trigger] entries[j]).bindings,
    ) is None <==> forall|keystroke: Seq<char>| #[trigger]
        entries[i].bindings.contains(keystroke) ==> !#[trigger] entries[j].bindings.contains(keystroke)) by {
        let some = entries[i].bindings;
        let others = entries[j].bindings;
        lemma_common(some, others);
        if common(some, others) is Some {
            let k = choose|k: int| 0 <= k < some.len() && others.contains(#[trigger] some[k]);
            assert(some.contains(some[k]));
        }
    }
    assert forall|i: int| 0 <= i < entries.len() implies (conflict(entries, i, i + 1) is None
        <==> forall|j: int|
        i + 1 <= j < entries.len() ==> common(
            (#[trigger] entries[i]).bindings,
            (#[trigger] entries[j]).bindings,
        ) is None) by {
        lemma_conflict(entries, i, i + 1);
    }
    if first_mistake(entries, 0) is None {
        assert forall|i: int, j: int, keystroke: Seq<char>|
            0 <= i < j < entries.len() && #[trigger] entries[i].bindings.contains(
                keystroke,
            ) implies !#[trigger] entries[j].bindings.contains(keystroke) by {
            assert(entries[i].valid && conflict(entries, i, i + 1) is None);
            assert(common(entries[i].bindings, entries[j].bindings) is None);
        }
    } else {
        let i = choose|i: int|
            0 <= i < entries.len() && !((#[trigger] entries[i]).valid && conflict(
                entries,
                i,
                i + 1,
            ) is None);
        if entries[i].valid {
            let j = choose|j: int|
                i + 1 <= j < entries.len() && common(
                    entries[i].bindings,
                    (#[trigger] entries[j]).bindings,
                ) is Some;
            assert(0 <= i < j < entries.len());
        }
    }
}

/// Some words, each followed by a space.
pub open spec fn spaced(words: Seq<Seq<char>>) -> Seq<char>
    decreases words.len(),
{
    if words.len() == 0 {
        Seq::empty()
    } else {
        words[0].push(' ') + spaced(words.drop_first())
    }
}

/// A word has characters, and none of them is white space.
pub open spec fn is_word(word: Seq<char>) -> bool {
    word.len() > 0 && forall|i: int| 0 <= i < word.len() ==> !white_space(#[trigger] word[i])
}

proof fn lemma_space_found(text: Seq<char>, from: int, length: int)
    requires
        0 <= from,
        0 <= length,
        from + length < text.len(),
        white_space(text[from + length]),
        forall|i: int| from <= i < from + length ==> !white_space(#[trigger] text[i]),
    ensures
        next_space(text, from, true) == from + length,
    decreases length,
{
    if length > 0 {
        lemma_space_found(text, from + 1, length - 1);
    }
}

proof fn lemma_spaced_words(front: Seq<char>, words: Seq<Seq<char>>)
    requires
        front.len() > 0 ==> front.last() == ' ',
        forall|i: int| 0 <= i < words.len() ==> is_word(#[trigger] words[i]),
    ensures
        words_from(front + spaced(words), front.len() as int) == words,
        front.len() > 0 ==> words_from(front + spaced(words), front.len() - 1) == words,
    decreases words.len(),
{
    let text = front + spaced(words);
    let from = front.len() as int;
    assert(white_space(' '));
    if words.len() == 0 {
        assert(text =~= front);
        assert(words =~= Seq::empty());
        if from > 0 {
            assert(white_space(text[from - 1]));
            assert(next_space(text, from, false) == from);
            assert(next_space(text, from - 1, false) == from);
        }
    } else {
        let word = words[0];
        let rest = words.drop_first();
        let next = front + word.push(' ');
        assert(text =~= next + spaced(rest));
        let end = from + word.len();
        assert forall|i: int| from <= i < end implies !white_space(#[trigger] text[i]) by {
            assert(text[i] == word[i - from]);
        }
        assert(text[end] == ' ');
        assert(!white_space(text[from]));
        assert(next_space(text, from, false) == from);
        lemma_space_found(text, from, word.len() as int);
        assert(text.subrange(from, end) =~= word);
        assert forall|i: int| 0 <= i < rest.len() implies is_word(#[trigger] rest[i]) by {
            assert(rest[i] == words[i + 1]);
        }
        lemma_spaced_words(next, rest);
        assert(next.len() - 1 == end);
        assert(words_from(text, end) == rest);
        assert(seq![word] + rest =~= words);
        assert(words_from(text, from) == words);
        if from > 0 {
            assert(white_space(text[from - 1]));
            assert(next_space(text, from - 1, false) == from);
        }
    }
}

/// The words of a text are what stands between its spaces.
pub proof fn words_stand_between_spaces(words: Seq<Seq<char>>)
    requires
        forall|i: int| 0 <= i < words.len() ==> is_word(#[trigger] words[i]),
    ensures
        words_from(spaced(words), 0) == words,
{
    lemma_spaced_words(Seq::empty(), words);
    assert(Seq::<char>::empty() + spaced(words) =~= spaced(words));
}

/// A shortcut is accepted where it has words, each of them a keystroke, and no
/// mark for a number; the one that switches tabs is accepted as a template.
pub proof fn a_shortcut_is_made_of_keystrokes(
    field: SettingField,
    text: Seq<char>,
    words_are_keystrokes: bool,
    is_template: bool,
)
    ensures
        field == SettingField::ShortcutSwitchTab ==> fits_shortcut(
            field,
            text,
            words_are_keystrokes,
            is_template,
        ) == is_template,
        field != SettingField::ShortcutSwitchTab ==> fits_shortcut(
            field,
            text,
            words_are_keystrokes,
            is_template,
        ) == (trimmed(text).len() > 0 && !trimmed(text).contains('#') && words_are_keystrokes),
        field != SettingField::ShortcutSwitchTab ==> expansions(field, text, Seq::empty()) == seq![
            trimmed(text),
        ],
{
}

/// A conflict names the two shortcuts and a keystroke that both have.
pub proof fn a_conflict_names_what_is_shared(some: Seq<Seq<char>>, others: Seq<Seq<char>>)
    ensures
        match common(some, others) {
            Some(shared) => some.contains(shared) && others.contains(shared),
            None => forall|i: int|
                0 <= i < some.len() ==> !others.contains(#[trigger] some[i]),
        },
    decreases some.len(),
{
    if some.len() > 0 {
        let rest = some.drop_first();
        a_conflict_names_what_is_shared(rest, others);
        assert(some[0] == some.first());
        if others.contains(some[0]) {
            assert(some.contains(some[0]));
        } else {
            match common(rest, others) {
                Some(shared) => {
                    let i = choose|i: int| 0 <= i < rest.len() && rest[i] == shared;
                    assert(some[i + 1] == shared);
                },
                None => {
                    assert forall|i: int| 0 <= i < some.len() implies !others.contains(
                        #[trigger] some[i],
                    ) by {
                        if i > 0 {
                            assert(rest[i - 1] == some[i]);
                        }
                    }
                },
            }
        }
    }
}

/// A shortcut is checked by the text of its own setting.
pub proof fn a_shortcut_is_checked_by_its_setting(
    values: Map<SettingField, ValueView>,
    verdicts: ShortcutVerdicts,
    field: SettingField,
    text: Seq<char>,
    at: int,
)
    requires
        0 <= at < labels().len(),
    ensures
        values.contains_key(field) && values[field] == ValueView::Text(text) ==> shortcut_text(
            values,
            field,
        ) == text,
        !values.contains_key(field) ==> shortcut_text(values, field).len() == 0,
        configured(values, verdicts).len() == labels().len(),
        configured(values, verdicts)[at].label == labels()[at].1,
        configured(values, verdicts)[at].valid == fits_shortcut(
            labels()[at].0,
            shortcut_text(values, labels()[at].0),
            verdicts.words_are_keystrokes@[at],
            verdicts.is_template,
        ),
        configured(values, verdicts)[at].bindings == expansions(
            labels()[at].0,
            shortcut_text(values, labels()[at].0),
            texts(verdicts.template_bindings@),
        ),
{
}

} // verus!
