//! The settings window: a working copy of the configuration that is edited
//! until saving it succeeds.
use vstd::prelude::*;
use vstd::string::*;

use super::config::{
    absent_text, entered, is_on, value_text, with_entry, Entry, RawValue, Reading, SettingsConfig,
    ValueView,
};
use super::fields::{AgentInfo, ApplyKind, FieldKind, SettingField};
use super::keystroke::{KeyView, Keystroke};
use crate::text::{chars_of, is_control_char, text_of, trimmed};
use vstd::slice::*;

verus! {

/// The state of the settings window by its values.
#[verifier::ext_equal]
pub struct SettingsState {
    pub config: Map<SettingField, ValueView>,
    pub editing: Option<SettingField>,
    pub edit_value: Seq<char>,
    pub dirty: bool,
    pub saving: bool,
    pub restart_after_save: bool,
    pub pending_restart: bool,
    pub status: Option<Seq<char>>,
    pub status_is_error: bool,
    /// The configuration was changed and its values are not yet put into
    /// their ranges.
    pub unnormalized: bool,
}

/// The text of a setting as it is edited; a decimal number is written
/// elsewhere and given along.
pub open spec fn edit_text(
    config: Map<SettingField, ValueView>,
    field: SettingField,
    agents: Seq<AgentInfo>,
    number_text: Seq<char>,
) -> Seq<char> {
    if config.contains_key(field) {
        match value_text(config[field]) {
            Some(text) => text,
            None => number_text,
        }
    } else {
        absent_text(field, agents)
    }
}

/// The text of a key that is typed into a setting: what the key types,
/// without control characters and unless another key changes its meaning.
pub open spec fn typed(key: KeyView) -> Option<Seq<char>> {
    match key.key_char {
        Some(text) => if !key.modifiers.control && !key.modifiers.alt && !key.modifiers.platform
            && !key.modifiers.function && text.len() > 0 && (forall|i: int|
            0 <= i < text.len() ==> !is_control_char(#[trigger] text[i])) {
            Some(text)
        } else {
            None
        },
        None => None,
    }
}

/// What the window does about a key.
#[derive(Debug, Clone, Copy, PartialEq, Eq, Structural)]
pub enum SettingsKey {
    /// The key is left to others.
    Ignored,
    /// The key is taken.
    Taken,
    /// The clipboard is to be read for a setting.
    Paste(SettingField),
    /// The window is to be closed.
    Close,
}

/// What asking for a restart comes to.
#[derive(Debug, Clone, Copy, PartialEq, Eq, Structural)]
pub enum RestartStep {
    Nothing,
    /// The configuration is to be saved first.
    Save,
    Restart,
}

/// What saving came to.
#[derive(Debug)]
pub enum SaveResult {
    Saved { config: SettingsConfig, requires_restart: bool, path: String },
    Failed(String),
}

impl SettingsState {
    pub open spec fn opened(config: Map<SettingField, ValueView>) -> SettingsState {
        SettingsState {
            config,
            editing: None,
            edit_value: Seq::empty(),
            dirty: false,
            saving: false,
            restart_after_save: false,
            pending_restart: false,
            status: None,
            status_is_error: false,
            unnormalized: false,
        }
    }

    /// The values are put into their ranges, as every change asks for.
    pub open spec fn normalized(self, config: Map<SettingField, ValueView>) -> SettingsState {
        if self.unnormalized {
            SettingsState { config, unnormalized: false, ..self }
        } else {
            self
        }
    }

    /// Editing a setting begins with its text. Switches are not edited, and
    /// nothing is while the configuration is saved.
    pub open spec fn begun(
        self,
        field: SettingField,
        agents: Seq<AgentInfo>,
        number_text: Seq<char>,
    ) -> SettingsState {
        if field.kind() == FieldKind::Switch || self.saving {
            self
        } else {
            SettingsState {
                editing: Some(field),
                edit_value: edit_text(self.config, field, agents, number_text),
                status: None,
                status_is_error: false,
                ..self
            }
        }
    }

    pub open spec fn cancelled(self) -> SettingsState {
        if self.editing is Some {
            SettingsState {
                editing: None,
                edit_value: Seq::empty(),
                status: None,
                status_is_error: false,
                ..self
            }
        } else {
            self
        }
    }

    /// What was edited is taken, or refused with a message.
    pub open spec fn committed(self, reading: Reading) -> SettingsState {
        match self.editing {
            Some(field) => {
                let entry = entered(field, trimmed(self.edit_value), reading);
                match entry {
                    Entry::Refused(message) => SettingsState {
                        status: Some(message),
                        status_is_error: true,
                        ..self
                    },
                    _ => SettingsState {
                        config: with_entry(self.config, field, entry),
                        editing: None,
                        edit_value: Seq::empty(),
                        dirty: true,
                        status: Some("有未保存的修改"@),
                        status_is_error: false,
                        unnormalized: true,
                        ..self
                    },
                }
            },
            None => self,
        }
    }

    pub open spec fn toggled(self, field: SettingField) -> SettingsState {
        if self.saving || field.kind() != FieldKind::Switch {
            self
        } else {
            SettingsState {
                config: self.config.insert(
                    field,
                    ValueView::Switch(!is_on(self.config, field)),
                ),
                dirty: true,
                status: Some("有未保存的修改"@),
                status_is_error: false,
                unnormalized: true,
                ..self
            }
        }
    }

    pub open spec fn reset(self, defaults: Map<SettingField, ValueView>) -> SettingsState {
        if self.saving {
            self
        } else {
            SettingsState {
                config: defaults,
                editing: None,
                edit_value: Seq::empty(),
                dirty: true,
                restart_after_save: false,
                pending_restart: false,
                status: Some("已恢复内置默认值，点击保存后生效"@),
                status_is_error: false,
                unnormalized: false,
                ..self
            }
        }
    }

    /// What is being edited is taken before a save or a restart; they go on
    /// where that worked.
    pub open spec fn settled(self, reading: Reading) -> (SettingsState, bool) {
        let after = self.committed(reading);
        (after, after.editing is None)
    }

    /// Saving begins, unless the shortcuts have a mistake.
    pub open spec fn saving_started(self, mistake: Option<Seq<char>>) -> SettingsState {
        match mistake {
            Some(message) => SettingsState {
                status: Some(message),
                status_is_error: true,
                restart_after_save: false,
                ..self
            },
            None => SettingsState {
                saving: true,
                status: Some(
                    if self.restart_after_save {
                        "正在保存配置，保存成功后将重启 Water…"@
                    } else {
                        "正在保存配置…"@
                    },
                ),
                status_is_error: false,
                ..self
            },
        }
    }

    /// Saving has ended.
    pub open spec fn saving_ended(self, result: SaveResult) -> SettingsState {
        match result {
            SaveResult::Saved { config, requires_restart, path } => SettingsState {
                config: config@,
                dirty: false,
                saving: false,
                restart_after_save: false,
                pending_restart: self.pending_restart || requires_restart,
                status: Some(
                    if self.pending_restart || requires_restart {
                        "已保存到 "@ + path@ + "；部分设置将在重启 Water 后生效"@
                    } else {
                        "已保存到 "@ + path@
                    },
                ),
                status_is_error: false,
                unnormalized: false,
                ..self
            },
            SaveResult::Failed(error) => SettingsState {
                saving: false,
                restart_after_save: false,
                status: Some("保存失败："@ + error@),
                status_is_error: true,
                ..self
            },
        }
    }

    /// A restart is asked for: changes are saved first, and without any there
    /// is nothing to restart for.
    pub open spec fn restarting(self, reading: Reading) -> (SettingsState, RestartStep) {
        if self.saving {
            (
                SettingsState {
                    status: Some("配置正在保存，请稍候再重启"@),
                    status_is_error: true,
                    ..self
                },
                RestartStep::Nothing,
            )
        } else {
            let (after, goes_on) = self.settled(reading);
            if !goes_on {
                (after, RestartStep::Nothing)
            } else if after.dirty {
                (SettingsState { restart_after_save: true, ..after }, RestartStep::Save)
            } else if !after.pending_restart {
                (
                    SettingsState {
                        status: Some("当前没有需要重启后生效的配置"@),
                        status_is_error: false,
                        ..after
                    },
                    RestartStep::Nothing,
                )
            } else {
                (after, RestartStep::Restart)
            }
        }
    }

    /// A key is pressed in the window.
    pub open spec fn keyed(self, key: KeyView, reading: Reading) -> (SettingsState, SettingsKey) {
        match self.editing {
            Some(field) => if key.modifiers.platform && key.key == "v"@ {
                (self, SettingsKey::Paste(field))
            } else if key.key == "enter"@ || key.key == "return"@ {
                (self.committed(reading), SettingsKey::Taken)
            } else if key.key == "escape"@ {
                (self.cancelled(), SettingsKey::Taken)
            } else if key.key == "backspace"@ || key.key == "delete"@ {
                (
                    SettingsState {
                        edit_value: if self.edit_value.len() > 0 {
                            self.edit_value.drop_last()
                        } else {
                            self.edit_value
                        },
                        ..self
                    },
                    SettingsKey::Taken,
                )
            } else {
                match typed(key) {
                    Some(text) => (
                        SettingsState { edit_value: self.edit_value + text, ..self },
                        SettingsKey::Taken,
                    ),
                    None => (self, SettingsKey::Taken),
                }
            },
            None => if key.key == "escape"@ {
                (self, SettingsKey::Close)
            } else {
                (self, SettingsKey::Ignored)
            },
        }
    }

    /// What is shown for a setting.
    pub open spec fn shown(
        self,
        field: SettingField,
        agents: Seq<AgentInfo>,
        number_text: Seq<char>,
    ) -> Seq<char> {
        if self.editing == Some(field) {
            self.edit_value + "▌"@
        } else if field.kind() == FieldKind::Switch {
            if is_on(self.config, field) {
                "开启"@
            } else {
                "关闭"@
            }
        } else if field == SettingField::DefaultCwd && !self.config.contains_key(field) {
            "(当前进程目录)"@
        } else if field == SettingField::ControlSocket && !self.config.contains_key(field) {
            "(环境变量或 /tmp/water.sock)"@
        } else {
            edit_text(self.config, field, agents, number_text)
        }
    }
}

/// A standalone, model-independent configuration editor. It keeps a working
/// copy until saving succeeds; the immediate part of the effective
/// configuration is handed to every workspace window after that.
#[derive(Debug)]
pub struct SettingsView {
    config: SettingsConfig,
    editing: Option<SettingField>,
    edit_value: String,
    dirty: bool,
    saving: bool,
    restart_after_save: bool,
    pending_restart: bool,
    status: Option<String>,
    status_is_error: bool,
    unnormalized: bool,
}

pub open spec fn status_text(status: Option<String>) -> Option<Seq<char>> {
    match status {
        Some(status) => Some(status@),
        None => None,
    }
}

impl View for SettingsView {
    type V = SettingsState;

    closed spec fn view(&self) -> SettingsState {
        SettingsState {
            config: self.config@,
            editing: self.editing,
            edit_value: self.edit_value@,
            dirty: self.dirty,
            saving: self.saving,
            restart_after_save: self.restart_after_save,
            pending_restart: self.pending_restart,
            status: status_text(self.status),
            status_is_error: self.status_is_error,
            unnormalized: self.unnormalized,
        }
    }
}

pub fn on_off(value: bool) -> (text: String)
    ensures
        text@ == if value {
            "开启"@
        } else {
            "关闭"@
        },
{
    if value {
        "开启".to_owned()
    } else {
        "关闭".to_owned()
    }
}

fn empty_text() -> (text: String)
    ensures
        text@ == Seq::<char>::empty(),
{
    let text = String::new();
    assert(text@ =~= Seq::empty());
    text
}

fn no_controls(chars: &Vec<char>) -> (none: bool)
    ensures
        none == forall|i: int| 0 <= i < chars@.len() ==> !is_control_char(#[trigger] chars@[i]),
{
    let mut i: usize = 0;
    while i < chars.len()
        invariant
            i <= chars@.len(),
            forall|k: int| 0 <= k < i ==> !is_control_char(#[trigger] chars@[k]),
        decreases chars@.len() - i,
    {
        let code: u32 = chars[i] as u32;
        if code < 0x20 || (0x7f <= code && code <= 0x9f) {
            assert(is_control_char(chars@[i as int]));
            return false;
        }
        i = i + 1;
    }
    true
}

/// The text that a key types into a setting.
pub fn typed_text(key: &Keystroke) -> (text: Option<String>)
    ensures
        match text {
            Some(text) => typed(key@) == Some(text@),
            None => typed(key@) is None,
        },
{
    match &key.key_char {
        Some(text) => {
            let chars: Vec<char> = chars_of(text.as_str());
            if !key.modifiers.control && !key.modifiers.alt && !key.modifiers.platform
                && !key.modifiers.function && chars.len() > 0 && no_controls(&chars) {
                Some(text.as_str().to_owned())
            } else {
                None
            }
        },
        None => None,
    }
}

/// The text without its last character.
fn without_last(text: &str) -> (shorter: String)
    ensures
        shorter@ == if text@.len() > 0 {
            text@.drop_last()
        } else {
            text@
        },
{
    let chars: Vec<char> = chars_of(text);
    if chars.len() == 0 {
        let shorter: String = text.to_owned();
        return shorter;
    }
    let kept: &[char] = slice_subrange(chars.as_slice(), 0, chars.len() - 1);
    assert(kept@ =~= text@.drop_last());
    text_of(kept)
}

impl SettingsView {
    pub fn new(config: SettingsConfig) -> (view: Self)
        ensures
            view@ == SettingsState::opened(config@),
    {
        Self {
            config,
            editing: None,
            edit_value: empty_text(),
            dirty: false,
            saving: false,
            restart_after_save: false,
            pending_restart: false,
            status: None,
            status_is_error: false,
            unnormalized: false,
        }
    }

    /// The working copy.
    pub fn config(&self) -> (config: &SettingsConfig)
        ensures
            config@ == self@.config,
    {
        &self.config
    }

    /// Whether a change asks for the values to be put into their ranges.
    pub fn is_unnormalized(&self) -> (unnormalized: bool)
        ensures
            unnormalized == self@.unnormalized,
    {
        self.unnormalized
    }

    /// Takes the configuration with its values in their ranges, after a
    /// change.
    pub fn take_normalized(&mut self, config: SettingsConfig)
        ensures
            final(self)@ == old(self)@.normalized(config@),
    {
        if self.unnormalized {
            self.config = config;
            self.unnormalized = false;
        }
    }

    pub fn editing(&self) -> (field: Option<SettingField>)
        ensures
            field == self@.editing,
    {
        self.editing
    }

    pub fn edit_value(&self) -> (text: &str)
        ensures
            text@ == self@.edit_value,
    {
        self.edit_value.as_str()
    }

    pub fn pending_restart(&self) -> (pending: bool)
        ensures
            pending == self@.pending_restart,
    {
        self.pending_restart
    }

    /// What the window says at its bottom, and whether that is an error.
    pub fn status(&self) -> (status: Option<(&str, bool)>)
        ensures
            match status {
                Some((text, is_error)) => self@.status == Some(text@) && is_error
                    == self@.status_is_error,
                None => self@.status is None,
            },
    {
        match &self.status {
            Some(text) => Some((text.as_str(), self.status_is_error)),
            None => None,
        }
    }

    fn text_to_edit(&self, field: SettingField, agents: &[AgentInfo], number_text: &str) -> (text:
        String)
        requires
            field is AgentColor ==> field->0 < agents@.len(),
        ensures
            text@ == edit_text(self@.config, field, agents@, number_text@),
    {
        match self.config.raw_value(field, agents) {
            RawValue::Text(text) => text,
            RawValue::Number(_) => number_text.to_owned(),
        }
    }

    pub fn begin_edit(&mut self, field: SettingField, agents: &[AgentInfo], number_text: &str)
        requires
            field is AgentColor ==> field->0 < agents@.len(),
        ensures
            final(self)@ == old(self)@.begun(field, agents@, number_text@),
    {
        if field.is_boolean() || self.saving {
            return;
        }
        let text: String = self.text_to_edit(field, agents, number_text);
        self.editing = Some(field);
        self.edit_value = text;
        self.status = None;
        self.status_is_error = false;
    }

    pub fn cancel_edit(&mut self)
        ensures
            final(self)@ == old(self)@.cancelled(),
    {
        if self.editing.is_some() {
            self.editing = None;
            self.edit_value = empty_text();
            self.status = None;
            self.status_is_error = false;
        }
    }

    pub fn commit_edit(&mut self, reading: Reading)
        ensures
            final(self)@ == old(self)@.committed(reading),
    {
        if let Some(field) = self.editing {
            let value: String = self.edit_value.as_str().to_owned();
            match self.config.set_field(field, value.as_str(), reading) {
                Ok(_) => {
                    self.editing = None;
                    self.edit_value = empty_text();
                    self.dirty = true;
                    self.status = Some("有未保存的修改".to_owned());
                    self.status_is_error = false;
                    self.unnormalized = true;
                },
                Err(error) => {
                    self.status = Some(error);
                    self.status_is_error = true;
                },
            }
        }
    }

    pub fn toggle_field(&mut self, field: SettingField)
        ensures
            final(self)@ == old(self)@.toggled(field),
    {
        if self.saving {
            return;
        }
        if self.config.toggle(field) {
            self.dirty = true;
            self.status = Some("有未保存的修改".to_owned());
            self.status_is_error = false;
            self.unnormalized = true;
        }
    }

    pub fn reset_to_defaults(&mut self, defaults: SettingsConfig)
        ensures
            final(self)@ == old(self)@.reset(defaults@),
    {
        if self.saving {
            return;
        }
        self.config = defaults;
        self.editing = None;
        self.edit_value = empty_text();
        self.dirty = true;
        self.restart_after_save = false;
        self.pending_restart = false;
        self.status = Some("已恢复内置默认值，点击保存后生效".to_owned());
        self.status_is_error = false;
        self.unnormalized = false;
    }

    /// Takes what is being edited before a save; returns whether the save
    /// goes on.
    pub fn prepare_save(&mut self, reading: Reading) -> (goes_on: bool)
        ensures
            if old(self)@.saving {
                final(self)@ == old(self)@ && !goes_on
            } else {
                (final(self)@, goes_on) == old(self)@.settled(reading)
            },
    {
        if self.saving {
            return false;
        }
        if self.editing.is_some() {
            self.commit_edit(reading);
        }
        self.editing.is_none()
    }

    /// Begins to save, unless the shortcuts have a mistake; returns whether
    /// it did.
    pub fn start_save(&mut self, shortcuts: Result<(), String>) -> (started: bool)
        ensures
            final(self)@ == old(self)@.saving_started(
                match shortcuts {
                    Ok(_) => None,
                    Err(message) => Some(message@),
                },
            ),
            started == shortcuts is Ok,
    {
        match shortcuts {
            Err(message) => {
                self.status = Some(message);
                self.status_is_error = true;
                self.restart_after_save = false;
                false
            },
            Ok(_) => {
                self.saving = true;
                self.status = Some(
                    if self.restart_after_save {
                        "正在保存配置，保存成功后将重启 Water…".to_owned()
                    } else {
                        "正在保存配置…".to_owned()
                    },
                );
                self.status_is_error = false;
                true
            },
        }
    }

    /// Takes in what saving came to; returns whether a restart follows.
    pub fn finish_save(&mut self, result: SaveResult) -> (restarts: bool)
        ensures
            final(self)@ == old(self)@.saving_ended(result),
            restarts == (result is Saved && old(self)@.restart_after_save),
    {
        self.saving = false;
        let restart_after_save: bool = self.restart_after_save;
        self.restart_after_save = false;
        match result {
            SaveResult::Saved { config, requires_restart, path } => {
                self.config = config;
                self.dirty = false;
                self.pending_restart = self.pending_restart || requires_restart;
                let mut status = "已保存到 ".to_owned();
                status.append(path.as_str());
                if self.pending_restart {
                    status.append("；部分设置将在重启 Water 后生效");
                }
                self.status = Some(status);
                self.status_is_error = false;
                self.unnormalized = false;
                restart_after_save
            },
            SaveResult::Failed(error) => {
                let mut status = "保存失败：".to_owned();
                status.append(error.as_str());
                self.status = Some(status);
                self.status_is_error = true;
                false
            },
        }
    }

    pub fn restart(&mut self, reading: Reading) -> (step: RestartStep)
        ensures
            (final(self)@, step) == old(self)@.restarting(reading),
    {
        if self.saving {
            self.status = Some("配置正在保存，请稍候再重启".to_owned());
            self.status_is_error = true;
            return RestartStep::Nothing;
        }
        if self.editing.is_some() {
            self.commit_edit(reading);
            if self.editing.is_some() {
                return RestartStep::Nothing;
            }
        }
        if self.dirty {
            self.restart_after_save = true;
            return RestartStep::Save;
        }
        if !self.pending_restart {
            self.status = Some("当前没有需要重启后生效的配置".to_owned());
            self.status_is_error = false;
            return RestartStep::Nothing;
        }
        RestartStep::Restart
    }

    pub fn handle_key_down(&mut self, key: &Keystroke, reading: Reading) -> (outcome: SettingsKey)
        ensures
            (final(self)@, outcome) == old(self)@.keyed(key@, reading),
    {
        match self.editing {
            Some(field) => {
                if key.modifiers.platform && key.is("v") {
                    return SettingsKey::Paste(field);
                }
                if key.is("enter") || key.is("return") {
                    self.commit_edit(reading);
                } else if key.is("escape") {
                    self.cancel_edit();
                } else if key.is("backspace") || key.is("delete") {
                    let shorter: String = without_last(self.edit_value.as_str());
                    self.edit_value = shorter;
                } else if let Some(text) = typed_text(key) {
                    self.edit_value.append(text.as_str());
                }
                SettingsKey::Taken
            },
            None => if key.is("escape") {
                SettingsKey::Close
            } else {
                SettingsKey::Ignored
            },
        }
    }

    /// Takes text from the clipboard, where the setting is still edited.
    pub fn paste(&mut self, field: SettingField, text: &str)
        ensures
            final(self)@ == if old(self)@.editing == Some(field) {
                SettingsState { edit_value: old(self)@.edit_value + text@, ..old(self)@ }
            } else {
                old(self)@
            },
    {
        if let Some(editing) = self.editing {
            if editing == field {
                self.edit_value.append(text);
            }
        }
    }

    /// What is shown for a setting.
    pub fn value(&self, field: SettingField, agents: &[AgentInfo], number_text: &str) -> (text:
        String)
        requires
            field is AgentColor ==> field->0 < agents@.len(),
        ensures
            text@ == self@.shown(field, agents@, number_text@),
    {
        if let Some(editing) = self.editing {
            if editing == field {
                let mut text: String = self.edit_value.as_str().to_owned();
                text.append("▌");
                return text;
            }
        }
        if field.is_boolean() {
            return on_off(self.config.is_on(field));
        }
        if self.config.get(field).is_none() {
            if field == SettingField::DefaultCwd {
                return "(当前进程目录)".to_owned();
            }
            if field == SettingField::ControlSocket {
                return "(环境变量或 /tmp/water.sock)".to_owned();
            }
        }
        self.text_to_edit(field, agents, number_text)
    }

    /// What the button says that saves.
    fn save_label(&self) -> (label: &'static str)
        ensures
            label@ == if self@.saving {
                "保存中…"@
            } else if self@.dirty {
                "保存"@
            } else {
                "已保存"@
            },
    {
        if self.saving {
            "保存中…"
        } else if self.dirty {
            "保存"
        } else {
            "已保存"
        }
    }

    /// What the button says that restarts.
    fn restart_label(&self) -> (label: &'static str)
        ensures
            label@ == if self@.saving {
                "重启中…"@
            } else if self@.pending_restart || self@.dirty {
                "重启 Water"@
            } else {
                "重启"@
            },
    {
        if self.saving {
            "重启中…"
        } else if self.pending_restart || self.dirty {
            "重启 Water"
        } else {
            "重启"
        }
    }
}

/// What the row of a setting shows.
#[derive(Debug)]
pub struct SettingDisplay {
    pub row_id: String,
    pub value_id: String,
    pub value: String,
    /// Whether the value is being edited, which its border shows.
    pub editing: bool,
    /// Whether a swatch of the colour stands beside the value.
    pub swatch: bool,
    /// Whether a click switches the value instead of editing it.
    pub toggles: bool,
    pub apply: &'static str,
}

/// What the top of the window shows.
#[derive(Debug)]
pub struct HeaderDisplay {
    pub save_label: &'static str,
    pub save_highlighted: bool,
    pub restart_label: &'static str,
    pub restart_highlighted: bool,
}

fn prefixed(prefix: &str, text: &str) -> (whole: String)
    ensures
        whole@ == prefix@ + text@,
{
    let mut whole: String = prefix.to_owned();
    whole.append(text);
    whole
}

impl SettingsView {
    /// What the row of a setting shows.
    pub fn render_setting(
        &self,
        field: SettingField,
        apply: ApplyKind,
        agents: &[AgentInfo],
        number_text: &str,
    ) -> (display: SettingDisplay)
        requires
            field is AgentColor ==> field->0 < agents@.len(),
        ensures
            display.row_id@ == "setting-row-"@ + field.id_text(agents@),
            display.value_id@ == "setting-value-"@ + field.id_text(agents@),
            display.value@ == self@.shown(field, agents@, number_text@),
            display.editing == (self@.editing == Some(field)),
            display.swatch == (field.kind() == FieldKind::Color),
            display.toggles == (field.kind() == FieldKind::Switch),
            display.apply@ == apply.text(),
    {
        let id: String = field.id(agents);
        let editing: bool = match self.editing {
            Some(editing) => editing == field,
            None => false,
        };
        SettingDisplay {
            row_id: prefixed("setting-row-", id.as_str()),
            value_id: prefixed("setting-value-", id.as_str()),
            value: self.value(field, agents, number_text),
            editing,
            swatch: field.is_color(),
            toggles: field.is_boolean(),
            apply: apply.label(),
        }
    }

    /// What the top of the window shows.
    pub fn render_header(&self) -> (display: HeaderDisplay)
        ensures
            display.save_label@ == if self@.saving {
                "保存中…"@
            } else if self@.dirty {
                "保存"@
            } else {
                "已保存"@
            },
            display.restart_label@ == if self@.saving {
                "重启中…"@
            } else if self@.pending_restart || self@.dirty {
                "重启 Water"@
            } else {
                "重启"@
            },
            display.save_highlighted == self@.dirty,
            display.restart_highlighted == (self@.pending_restart || self@.dirty),
    {
        HeaderDisplay {
            save_label: self.save_label(),
            save_highlighted: self.dirty,
            restart_label: self.restart_label(),
            restart_highlighted: self.pending_restart || self.dirty,
        }
    }
}

/// Nothing that is edited or switched while the configuration is saved
/// changes it.
pub proof fn saving_freezes_the_settings(
    state: SettingsState,
    field: SettingField,
    agents: Seq<AgentInfo>,
    number_text: Seq<char>,
    defaults: Map<SettingField, ValueView>,
)
    requires
        state.saving,
    ensures
        state.begun(field, agents, number_text) == state,
        state.toggled(field) == state,
        state.reset(defaults) == state,
{
}

/// A text that is refused changes no setting and stays open for correction.
pub proof fn a_refused_text_changes_nothing(state: SettingsState, reading: Reading)
    requires
        state.editing is Some,
        entered(state.editing->0, trimmed(state.edit_value), reading) is Refused,
    ensures
        state.committed(reading).config == state.config,
        state.committed(reading).editing == state.editing,
        state.committed(reading).edit_value == state.edit_value,
        state.committed(reading).dirty == state.dirty,
        state.committed(reading).status_is_error,
{
}

/// Whatever changes the settings, an edit that is taken or a switch, asks for
/// the values to be put into their ranges, and the window has no values out of
/// them once it was told.
pub proof fn every_change_is_normalized(
    state: SettingsState,
    field: SettingField,
    reading: Reading,
    config: Map<SettingField, ValueView>,
)
    requires
        !state.unnormalized,
    ensures
        state.committed(reading).config != state.config ==> state.committed(reading).normalized(
            config,
        ).config == config,
        state.toggled(field).config != state.config ==> state.toggled(field).normalized(
            config,
        ).config == config,
        !state.committed(reading).normalized(config).unnormalized,
        !state.toggled(field).normalized(config).unnormalized,
{
}

/// Giving up an edit leaves the configuration as it was.
pub proof fn cancelling_changes_no_setting(state: SettingsState)
    ensures
        state.cancelled().config == state.config,
        state.cancelled().dirty == state.dirty,
        state.cancelled().editing is None,
{
}

proof fn lemma_settings_keys()
    ensures
        "v"@.len() == 1,
        "enter"@.len() == 5,
        "return"@.len() == 6,
        "return"@[0] == 'r',
        "escape"@.len() == 6,
        "escape"@[0] == 'e',
        "escape"@[1] == 's',
        "backspace"@.len() == 9,
        "delete"@.len() == 6,
        "delete"@[0] == 'd',
{
    reveal_strlit("v");
    reveal_strlit("enter");
    reveal_strlit("return");
    reveal_strlit("escape");
    reveal_strlit("backspace");
    reveal_strlit("delete");
}

/// A setting is edited by keys: what is typed is appended, backspace and delete
/// take off the last character, escape gives up, and enter takes the text over.
pub proof fn a_setting_is_edited_by_keys(
    state: SettingsState,
    key: KeyView,
    field: SettingField,
    reading: Reading,
)
    requires
        state.editing == Some(field),
        !key.modifiers.platform,
    ensures
        ({
            let (next, step) = state.keyed(key, reading);
            let value = state.edit_value;
            let named = key.key == "enter"@ || key.key == "return"@ || key.key == "escape"@
                || key.key == "backspace"@ || key.key == "delete"@;
            &&& step == SettingsKey::Taken
            &&& key.key == "backspace"@ || key.key == "delete"@ ==> next.editing == state.editing
                && (value.len() > 0 ==> next.edit_value == value.drop_last())
            &&& key.key == "escape"@ ==> next.editing is None && next.config == state.config
            &&& key.key == "enter"@ || key.key == "return"@ ==> next == state.committed(reading)
            &&& !named && key.key_char is Some && (key.key_char->0).len() > 0
                && !key.modifiers.control && !key.modifiers.alt && !key.modifiers.function && (
            forall|i: int|
                0 <= i < (key.key_char->0).len() ==> !is_control_char(
                    #[trigger] (key.key_char->0)[i],
                )) ==> next.edit_value == value + key.key_char->0 && next.editing == state.editing
            &&& !named && (key.modifiers.control || key.modifiers.alt) ==> next == state
        }),
{
    lemma_settings_keys();
}

/// Without an edit, escape closes the window and other keys are not taken; with
/// one, the platform key and `v` paste into it.
pub proof fn other_keys_close_or_paste(state: SettingsState, key: KeyView, reading: Reading)
    ensures
        state.editing is None && key.key == "escape"@ ==> state.keyed(key, reading) == (
            state,
            SettingsKey::Close,
        ),
        state.editing is None && key.key != "escape"@ ==> state.keyed(key, reading) == (
            state,
            SettingsKey::Ignored,
        ),
        state.editing is Some && key.modifiers.platform && key.key == "v"@ ==> state.keyed(
            key,
            reading,
        ) == (state, SettingsKey::Paste(state.editing->0)),
{
    lemma_settings_keys();
}

/// A text that is taken over is the value of its setting, no other setting
/// changes, and there is something to save.
pub proof fn an_edit_is_taken_over(
    state: SettingsState,
    field: SettingField,
    other: SettingField,
    value: ValueView,
    reading: Reading,
)
    requires
        state.editing == Some(field),
        entered(field, trimmed(state.edit_value), reading) == Entry::Value(value),
        other != field,
    ensures
        ({
            let after = state.committed(reading);
            &&& after.config.contains_key(field)
            &&& after.config[field] == value
            &&& after.config.contains_key(other) == state.config.contains_key(other)
            &&& state.config.contains_key(other) ==> after.config[other] == state.config[other]
            &&& after.editing is None
            &&& after.dirty
            &&& !after.status_is_error
        }),
{
}

/// A switch is turned on where it was off and off where it was on, and no other
/// setting changes.
pub proof fn a_switch_is_turned(state: SettingsState, field: SettingField, other: SettingField)
    requires
        field.kind() == FieldKind::Switch,
        !state.saving,
        other != field,
    ensures
        ({
            let after = state.toggled(field);
            let was_on = state.config.contains_key(field) && state.config[field]
                == ValueView::Switch(true);
            &&& after.config.contains_key(field)
            &&& after.config[field] == ValueView::Switch(!was_on)
            &&& after.config.contains_key(other) == state.config.contains_key(other)
            &&& state.config.contains_key(other) ==> after.config[other] == state.config[other]
            &&& after.dirty
        }),
{
}

/// An edit starts with the text that the setting has.
pub proof fn an_edit_starts_with_the_value(
    state: SettingsState,
    field: SettingField,
    text: Seq<char>,
    agents: Seq<AgentInfo>,
    number_text: Seq<char>,
)
    requires
        field.kind() != FieldKind::Switch,
        !state.saving,
        state.config.contains_key(field),
    ensures
        ({
            let next = state.begun(field, agents, number_text);
            &&& next.editing == Some(field)
            &&& next.config == state.config
            &&& state.config[field] == ValueView::Text(text) ==> next.edit_value == text
            &&& state.config[field] is Number ==> next.edit_value == number_text
            &&& next.shown(field, agents, number_text) == next.edit_value + "▌"@
        }),
{
}

/// A switch is shown as on or off.
pub proof fn a_switch_shows_its_state(
    state: SettingsState,
    field: SettingField,
    agents: Seq<AgentInfo>,
    number_text: Seq<char>,
)
    requires
        field.kind() == FieldKind::Switch,
        state.editing != Some(field),
        state.config.contains_key(field),
    ensures
        state.config[field] == ValueView::Switch(true) ==> state.shown(field, agents, number_text)
            == "开启"@,
        state.config[field] == ValueView::Switch(false) ==> state.shown(field, agents, number_text)
            == "关闭"@,
{
}

/// Saving that succeeds leaves nothing to save and shows what was saved; saving
/// that fails keeps every change and says so.
pub proof fn saving_ends_with_what_was_saved(
    state: SettingsState,
    config: SettingsConfig,
    requires_restart: bool,
    path: String,
    error: String,
)
    ensures
        ({
            let saved = state.saving_ended(SaveResult::Saved { config, requires_restart, path });
            &&& saved.config == config@
            &&& !saved.dirty
            &&& !saved.saving
            &&& !saved.status_is_error
            &&& saved.pending_restart == (state.pending_restart || requires_restart)
        }),
        ({
            let failed = state.saving_ended(SaveResult::Failed(error));
            &&& failed.config == state.config
            &&& failed.dirty == state.dirty
            &&& !failed.saving
            &&& failed.status_is_error
            &&& failed.status == Some("保存失败："@ + error@)
        }),
        state.saving_started(None).saving,
        !state.saving_started(None).status_is_error,
{
}

/// The settings go back to their defaults as a whole, which is a change to save.
pub proof fn defaults_replace_all_settings(
    state: SettingsState,
    defaults: Map<SettingField, ValueView>,
)
    requires
        !state.saving,
    ensures
        state.reset(defaults).config == defaults,
        state.reset(defaults).dirty,
        state.reset(defaults).editing is None,
{
}

/// Restarting saves first what is not saved, and happens only where something
/// waits for it.
pub proof fn restarting_saves_first(state: SettingsState, reading: Reading)
    requires
        state.editing is None,
    ensures
        ({
            let (after, step) = state.restarting(reading);
            &&& state.saving ==> step == RestartStep::Nothing && after.status_is_error
            &&& !state.saving && state.dirty ==> step == RestartStep::Save
                && after.restart_after_save
            &&& !state.saving && !state.dirty && state.pending_restart ==> step
                == RestartStep::Restart
            &&& !state.saving && !state.dirty && !state.pending_restart ==> step
                == RestartStep::Nothing
            &&& after.config == state.config
        }),
{
}

/// The settings window opens with the settings as they are: nothing is edited,
/// changed or saved.
pub proof fn the_window_opens_unchanged(config: Map<SettingField, ValueView>)
    ensures
        ({
            let state = SettingsState::opened(config);
            &&& state.config == config
            &&& state.editing is None
            &&& !state.dirty && !state.saving
            &&& !state.pending_restart && !state.restart_after_save
            &&& state.status is None
        }),
{
}

/// A directory and a socket that are not set say what is used in their place, and
/// any other setting shows its own text.
pub proof fn unset_places_say_what_is_used(
    state: SettingsState,
    field: SettingField,
    text: Seq<char>,
    agents: Seq<AgentInfo>,
    number_text: Seq<char>,
)
    requires
        state.editing != Some(field),
    ensures
        field == SettingField::DefaultCwd && !state.config.contains_key(field) ==> state.shown(
            field,
            agents,
            number_text,
        ) == "(当前进程目录)"@,
        field == SettingField::ControlSocket && !state.config.contains_key(field) ==> state.shown(
            field,
            agents,
            number_text,
        ) == "(环境变量或 /tmp/water.sock)"@,
        field.kind() != FieldKind::Switch && state.config.contains_key(field)
            && state.config[field] == ValueView::Text(text) ==> state.shown(
            field,
            agents,
            number_text,
        ) == text,
{
}

} // verus!
