//! The values of the settings, and reading and writing them as text.
use vstd::prelude::*;
use vstd::string::*;

use super::fieldmap::FieldMap;
use super::fields::{AgentInfo, FieldKind, SettingField};
use super::shortcuts::{fits_shortcut, shortcut_is_valid_for};
use crate::decimal::{
    decimal_text, lemma_decimal_round_trip, parse_unsigned, parsed_unsigned, push_decimal_text,
    text_bytes,
};
use crate::text::{copy_texts, texts, trim, trimmed, lemma_trimmed_already};

verus! {

/// The value of a setting. A decimal number is kept by the bits of its
/// single-precision form.
#[derive(Debug)]
pub enum SettingValue {
    Text(String),
    Words(Vec<String>),
    Count(usize),
    Number(u32),
    Switch(bool),
}

/// The value of a setting, by what it holds.
#[verifier::ext_equal]
pub enum ValueView {
    Text(Seq<char>),
    Words(Seq<Seq<char>>),
    Count(usize),
    Number(u32),
    Switch(bool),
}

impl View for SettingValue {
    type V = ValueView;

    open spec fn view(&self) -> ValueView {
        match self {
            SettingValue::Text(text) => ValueView::Text(text@),
            SettingValue::Words(words) => ValueView::Words(texts(words@)),
            SettingValue::Count(count) => ValueView::Count(*count),
            SettingValue::Number(bits) => ValueView::Number(*bits),
            SettingValue::Switch(on) => ValueView::Switch(*on),
        }
    }
}

/// What `serde_json::to_string` makes of a list of strings.
pub uninterp spec fn words_json(words: Seq<Seq<char>>) -> Seq<char>;

/// What `serde_json::from_str` reads as a list of strings.
pub uninterp spec fn json_words(text: Seq<char>) -> Option<Seq<Seq<char>>>;

/// Writes a list of strings with `serde_json::to_string`. The claim is that
/// this does not fail on strings, that the text depends on them alone, that
/// it is a JSON array, and that `serde_json::from_str` reads the strings back
/// from it. How the strings are written is left unsaid.
#[verifier::external_body]
fn write_words(words: &Vec<String>) -> (text: Option<String>)
    ensures
        match text {
            Some(text) => {
                &&& text@ == words_json(texts(words@))
                &&& text@.len() >= 2
                &&& text@[0] == '['
                &&& text@.last() == ']'
                &&& json_words(text@) == Some(texts(words@))
            },
            None => false,
        },
{
    serde_json::to_string(words).ok()
}

/// Reads a list of strings with `serde_json::from_str`. The claim is that the
/// outcome depends on the text alone; which texts are taken is left unsaid.
#[verifier::external_body]
fn read_words(text: &str) -> (words: Option<Vec<String>>)
    ensures
        match words {
            Some(words) => json_words(text@) == Some(texts(words@)),
            None => json_words(text@) is None,
        },
{
    serde_json::from_str::<Vec<String>>(text).ok()
}

/// What a text says about a decimal number.
#[derive(Debug, Clone, Copy, PartialEq, Eq, Structural)]
pub enum NumberReading {
    /// A number, by the bits of its single-precision form.
    Finite(u32),
    /// A number that is not finite.
    Infinite,
    NotANumber,
}

/// What is known of a text that was entered: the number it is, whether it is a
/// colour, whether each of its words is a keystroke, and whether it is a
/// template for the shortcuts of the tabs.
#[derive(Debug, Clone, Copy)]
pub struct Reading {
    pub number: NumberReading,
    pub color: bool,
    pub words_are_keystrokes: bool,
    pub is_template: bool,
}

/// What entering a text comes to: a new value, none, or a refusal.
#[verifier::ext_equal]
pub enum Entry {
    Value(ValueView),
    Absent,
    Refused(Seq<char>),
}

/// What entering a text, without white space around it, comes to.
pub open spec fn entered(field: SettingField, text: Seq<char>, reading: Reading) -> Entry {
    match field.kind() {
        FieldKind::OptionalText => if text.len() == 0 {
            Entry::Absent
        } else {
            Entry::Value(ValueView::Text(text))
        },
        FieldKind::RequiredText => if text.len() == 0 {
            Entry::Refused(
                if field == SettingField::ShellProgram {
                    "shell 命令不能为空"@
                } else {
                    "字体不能为空"@
                },
            )
        } else {
            Entry::Value(ValueView::Text(text))
        },
        FieldKind::Words => match json_words(text) {
            Some(words) => Entry::Value(ValueView::Words(words)),
            None => Entry::Refused("shell 参数必须是 JSON 字符串数组，例如 [\"-l\"]"@),
        },
        FieldKind::Count => match counted(text) {
            Some(count) => Entry::Value(ValueView::Count(count)),
            None => Entry::Refused(field.label_text() + "必须是非负整数"@),
        },
        FieldKind::Number => match reading.number {
            NumberReading::Finite(bits) => Entry::Value(ValueView::Number(bits)),
            NumberReading::Infinite => Entry::Refused(field.label_text() + "必须是有限数字"@),
            NumberReading::NotANumber => Entry::Refused(field.label_text() + "必须是数字"@),
        },
        FieldKind::Color => if reading.color {
            Entry::Value(ValueView::Text(text))
        } else {
            Entry::Refused("颜色必须是 3 位或 6 位十六进制值，例如 #339966"@)
        },
        FieldKind::Shortcut => if fits_shortcut(
            field,
            text,
            reading.words_are_keystrokes,
            reading.is_template,
        ) {
            Entry::Value(ValueView::Text(text))
        } else {
            Entry::Refused(
                "快捷键格式无效，请使用 cmd-k、ctrl-k、shift-pageup，或用 # 表示标签序号"@,
            )
        },
        FieldKind::Switch => Entry::Refused("布尔项请直接点击开关"@),
    }
}

/// The number that a text counts, where it is one and fits.
pub open spec fn counted(text: Seq<char>) -> Option<usize> {
    match parsed_unsigned(vstd::utf8::encode_utf8(text)) {
        Some(number) => if number <= usize::MAX {
            Some(number as usize)
        } else {
            None
        },
        None => None,
    }
}

/// The digit of a value below sixteen.
pub open spec fn hex_digit(value: int) -> char {
    if value < 10 {
        ('0' as int + value) as char
    } else {
        ('a' as int + value - 10) as char
    }
}

/// A value in hexadecimal, with at least so many digits.
pub open spec fn hex_text(value: nat, digits: nat) -> Seq<char>
    decreases value, digits,
{
    if value < 16 && digits <= 1 {
        seq![hex_digit(value as int)]
    } else {
        hex_text(value / 16, if digits > 0 { (digits - 1) as nat } else { 0 }).push(
            hex_digit((value % 16) as int),
        )
    }
}

fn push_hex(text: &mut String, value: u32, digits: u32)
    ensures
        final(text)@ == old(text)@ + hex_text(value as nat, digits as nat),
    decreases value, digits,
{
    let ghost before = text@;
    if value >= 16 || digits > 1 {
        push_hex(text, value / 16, digits.saturating_sub(1));
    }
    let digit: u8 = (value % 16) as u8;
    if digit < 10 {
        text.push((48 + digit) as char);
    } else {
        text.push((87 + digit) as char);
    }
    assert(text@ =~= before + hex_text(value as nat, digits as nat));
}

/// The text of a value: `None` where the value is a decimal number, which is
/// written elsewhere.
pub open spec fn value_text(value: ValueView) -> Option<Seq<char>> {
    match value {
        ValueView::Text(text) => Some(text),
        ValueView::Words(words) => Some(words_json(words)),
        ValueView::Count(count) => Some(decimal_text(count as nat)),
        ValueView::Number(_) => None,
        ValueView::Switch(on) => Some(
            if on {
                "true"@
            } else {
                "false"@
            },
        ),
    }
}

/// The text of a setting that has no value.
pub open spec fn absent_text(field: SettingField, agents: Seq<AgentInfo>) -> Seq<char> {
    match field {
        SettingField::AgentColor(agent) => "#"@ + hex_text(
            agents[agent as int].default_color as nat,
            6,
        ),
        _ => Seq::empty(),
    }
}

/// A text, or a decimal number by its bits.
#[derive(Debug)]
pub enum RawValue {
    Text(String),
    Number(u32),
}

/// The values of the settings.
#[derive(Debug)]
pub struct SettingsConfig {
    values: FieldMap<SettingValue>,
}

impl View for SettingsConfig {
    type V = Map<SettingField, ValueView>;

    closed spec fn view(&self) -> Map<SettingField, ValueView> {
        self.values@.map_values(|value: SettingValue| value@)
    }
}

/// The values after a text was entered for a setting.
pub open spec fn with_entry(
    values: Map<SettingField, ValueView>,
    field: SettingField,
    entry: Entry,
) -> Map<SettingField, ValueView> {
    match entry {
        Entry::Value(value) => values.insert(field, value),
        Entry::Absent => values.remove(field),
        Entry::Refused(_) => values,
    }
}

fn labelled(label: &str, problem: &str) -> (text: String)
    ensures
        text@ == label@ + problem@,
{
    let mut text = label.to_owned();
    text.append(problem);
    text
}

impl SettingsConfig {
    pub fn new() -> (config: Self)
        ensures
            config@ == Map::<SettingField, ValueView>::empty(),
    {
        let config = Self { values: FieldMap::new() };
        assert(config@ =~= Map::empty());
        config
    }

    pub fn get(&self, field: SettingField) -> (value: Option<&SettingValue>)
        ensures
            match value {
                Some(value) => self@.contains_key(field) && value@ == self@[field],
                None => !self@.contains_key(field),
            },
    {
        self.values.get(field)
    }

    pub fn set(&mut self, field: SettingField, value: SettingValue)
        ensures
            final(self)@ == old(self)@.insert(field, value@),
    {
        self.values.insert(field, value);
        assert(self@ =~= old(self)@.insert(field, value@));
    }

    pub fn clear(&mut self, field: SettingField)
        ensures
            final(self)@ == old(self)@.remove(field),
    {
        self.values.remove(field);
        assert(self@ =~= old(self)@.remove(field));
    }

    /// The value of a setting as it is edited.
    pub fn raw_value(&self, field: SettingField, agents: &[AgentInfo]) -> (value: RawValue)
        requires
            field is AgentColor ==> field->0 < agents@.len(),
        ensures
            ({
                let text = if self@.contains_key(field) {
                    value_text(self@[field])
                } else {
                    Some(absent_text(field, agents@))
                };
                match value {
                    RawValue::Text(value) => text == Some(value@),
                    RawValue::Number(bits) => text is None && self@[field] == ValueView::Number(
                        bits,
                    ),
                }
            }),
            // A list of words that is shown is read back as the same words.
            self@.contains_key(field) ==> match self@[field] {
                ValueView::Words(words) => json_words(trimmed(words_json(words))) == Some(words),
                _ => true,
            },
    {
        match self.get(field) {
            Some(SettingValue::Text(text)) => RawValue::Text(text.as_str().to_owned()),
            Some(SettingValue::Words(words)) => match write_words(words) {
                Some(text) => {
                    proof {
                        lemma_trimmed_already(text@);
                    }
                    RawValue::Text(text)
                },
                None => RawValue::Text("[]".to_owned()),
            },
            Some(SettingValue::Count(count)) => {
                let mut text = String::new();
                push_decimal_text(&mut text, *count as u64);
                assert(text@ =~= decimal_text(*count as nat));
                RawValue::Text(text)
            },
            Some(SettingValue::Number(bits)) => RawValue::Number(*bits),
            Some(SettingValue::Switch(on)) => RawValue::Text(
                if *on {
                    "true".to_owned()
                } else {
                    "false".to_owned()
                },
            ),
            None => match field {
                SettingField::AgentColor(agent) => {
                    let mut text = "#".to_owned();
                    push_hex(&mut text, agents[agent].default_color, 6);
                    RawValue::Text(text)
                },
                _ => {
                    let text = String::new();
                    assert(text@ =~= Seq::empty());
                    RawValue::Text(text)
                },
            },
        }
    }

    /// Takes a text that was entered for a setting. What the text is read as
    /// is given along.
    pub fn set_field(&mut self, field: SettingField, value: &str, reading: Reading) -> (result:
        Result<(), String>)
        ensures
            ({
                let entry = entered(field, trimmed(value@), reading);
                &&& final(self)@ == with_entry(old(self)@, field, entry)
                &&& match result {
                    Ok(_) => !(entry is Refused),
                    Err(message) => entry == Entry::Refused(message@),
                }
            }),
    {
        let text: String = trim(value);
        match field.field_kind() {
            FieldKind::OptionalText => {
                if text.as_str().is_empty() {
                    self.clear(field);
                } else {
                    self.set(field, SettingValue::Text(text));
                }
            },
            FieldKind::RequiredText => {
                if text.as_str().is_empty() {
                    return Err(
                        if field == SettingField::ShellProgram {
                            "shell 命令不能为空".to_owned()
                        } else {
                            "字体不能为空".to_owned()
                        },
                    );
                }
                self.set(field, SettingValue::Text(text));
            },
            FieldKind::Words => match read_words(text.as_str()) {
                Some(words) => self.set(field, SettingValue::Words(words)),
                None => {
                    return Err(
                        "shell 参数必须是 JSON 字符串数组，例如 [\"-l\"]".to_owned(),
                    );
                },
            },
            FieldKind::Count => match parse_unsigned(text.as_str().as_bytes()) {
                Some(count) => self.set(field, SettingValue::Count(count)),
                None => {
                    return Err(labelled(field.number_label(), "必须是非负整数"));
                },
            },
            FieldKind::Number => match reading.number {
                NumberReading::Finite(bits) => self.set(field, SettingValue::Number(bits)),
                NumberReading::Infinite => {
                    return Err(labelled(field.number_label(), "必须是有限数字"));
                },
                NumberReading::NotANumber => {
                    return Err(labelled(field.number_label(), "必须是数字"));
                },
            },
            FieldKind::Color => {
                if !reading.color {
                    return Err(
                        "颜色必须是 3 位或 6 位十六进制值，例如 #339966".to_owned(),
                    );
                }
                self.set(field, SettingValue::Text(text));
            },
            FieldKind::Shortcut => {
                if !shortcut_is_valid_for(
                    field,
                    text.as_str(),
                    reading.words_are_keystrokes,
                    reading.is_template,
                ) {
                    return Err(
                        "快捷键格式无效，请使用 cmd-k、ctrl-k、shift-pageup，或用 # 表示标签序号".to_owned(),
                    );
                }
                self.set(field, SettingValue::Text(text));
            },
            FieldKind::Switch => {
                return Err("布尔项请直接点击开关".to_owned());
            },
        }
        Ok(())
    }

    /// Turns a switch over; a switch that was never set is off. Returns
    /// whether the setting is a switch.
    pub fn toggle(&mut self, field: SettingField) -> (toggled: bool)
        ensures
            toggled == (field.kind() == FieldKind::Switch),
            final(self)@ == if toggled {
                old(self)@.insert(field, ValueView::Switch(!is_on(old(self)@, field)))
            } else {
                old(self)@
            },
    {
        if !field.is_boolean() {
            return false;
        }
        let on: bool = self.is_on(field);
        self.set(field, SettingValue::Switch(!on));
        true
    }

    /// Whether a switch is on.
    pub fn is_on(&self, field: SettingField) -> (on: bool)
        ensures
            on == is_on(self@, field),
    {
        match self.get(field) {
            Some(SettingValue::Switch(on)) => *on,
            _ => false,
        }
    }
}

/// The switch is on.
pub open spec fn is_on(values: Map<SettingField, ValueView>, field: SettingField) -> bool {
    values.contains_key(field) && values[field] == ValueView::Switch(true)
}

/// Entering a text for a setting leaves every other setting as it is.
pub proof fn entering_changes_one_setting(
    values: Map<SettingField, ValueView>,
    field: SettingField,
    entry: Entry,
    other: SettingField,
)
    requires
        other != field,
    ensures
        ({
            let after = with_entry(values, field, entry);
            &&& after.contains_key(other) == values.contains_key(other)
            &&& values.contains_key(other) ==> after[other] == values[other]
        }),
{
}

/// Turning a switch over twice leaves it as it was.
pub proof fn toggling_twice_changes_nothing(
    values: Map<SettingField, ValueView>,
    field: SettingField,
)
    requires
        values.contains_key(field),
        values[field] is Switch,
    ensures
        ({
            let once = values.insert(field, ValueView::Switch(!is_on(values, field)));
            once.insert(field, ValueView::Switch(!is_on(once, field))) == values
        }),
{
    let once = values.insert(field, ValueView::Switch(!is_on(values, field)));
    assert(once.insert(field, ValueView::Switch(!is_on(once, field))) =~= values);
}

/// A count that is shown is read back as the same count.
pub proof fn a_count_is_read_back(field: SettingField, count: usize, reading: Reading)
    requires
        field.kind() == FieldKind::Count,
    ensures
        entered(field, trimmed(value_text(ValueView::Count(count))->0), reading) == Entry::Value(
            ValueView::Count(count),
        ),
{
    let text = decimal_text(count as nat);
    lemma_decimal_round_trip(count as nat);
    lemma_trimmed_already(text);
}

/// A text is read as the kind of its setting asks: as it stands, as a number, as
/// a colour or as a shortcut that was found to be one; what is none is refused.
pub proof fn a_text_is_read_by_its_kind(
    field: SettingField,
    text: Seq<char>,
    bits: u32,
    reading: Reading,
)
    requires
        text.len() > 0,
    ensures
        ({
            let entry = entered(field, text, reading);
            let kept = Entry::Value(ValueView::Text(text));
            &&& field.kind() == FieldKind::OptionalText || field.kind() == FieldKind::RequiredText
                ==> entry == kept
            &&& field.kind() == FieldKind::Number ==> match reading.number {
                NumberReading::Finite(bits) => entry == Entry::Value(ValueView::Number(bits)),
                _ => entry is Refused,
            }
            &&& field.kind() == FieldKind::Color ==> if reading.color {
                entry == kept
            } else {
                entry is Refused
            }
            &&& field.kind() == FieldKind::Switch ==> entry is Refused
        }),
        field.kind() == FieldKind::OptionalText ==> entered(field, Seq::empty(), reading)
            == Entry::Absent,
        field.kind() == FieldKind::RequiredText ==> entered(field, Seq::empty(), reading) is Refused,
        field.kind() == FieldKind::Count ==> entered(field, Seq::empty(), reading) is Refused,
{
    assert(vstd::utf8::encode_utf8(Seq::<char>::empty()) =~= Seq::empty());
}

/// A value that is entered is found under its setting, and an empty one is found
/// no longer.
pub proof fn an_entry_is_found_again(
    values: Map<SettingField, ValueView>,
    field: SettingField,
    value: ValueView,
    message: Seq<char>,
)
    ensures
        with_entry(values, field, Entry::Value(value)).contains_key(field),
        with_entry(values, field, Entry::Value(value))[field] == value,
        !with_entry(values, field, Entry::Absent).contains_key(field),
        with_entry(values, field, Entry::Refused(message)) == values,
{
}

/// What hexadecimal digits stand for.
pub open spec fn hex_value(text: Seq<char>) -> int
    decreases text.len(),
{
    if text.len() == 0 {
        0
    } else {
        16 * hex_value(text.drop_last()) + if text.last() as int <= 57 {
            text.last() as int - 48
        } else {
            text.last() as int - 87
        }
    }
}

/// A number in hexadecimal digits stands for itself and has the digits that it
/// is given, each of them `0` to `9` or `a` to `f`.
pub proof fn hexadecimal_digits_are_read_back(value: nat, digits: nat)
    ensures
        hex_value(hex_text(value, digits)) == value,
        hex_text(value, digits).len() >= digits,
        hex_text(value, digits).len() > 0,
        forall|i: int|
            0 <= i < hex_text(value, digits).len() ==> {
                let c = #[trigger] hex_text(value, digits)[i] as int;
                48 <= c <= 57 || 97 <= c <= 102
            },
    decreases value, digits,
{
    let text = hex_text(value, digits);
    if value < 16 && digits <= 1 {
        assert(text.drop_last() =~= Seq::empty());
        reveal_with_fuel(hex_value, 2);
    } else {
        let fewer = if digits > 0 {
            (digits - 1) as nat
        } else {
            0
        };
        hexadecimal_digits_are_read_back(value / 16, fewer);
        assert(text.drop_last() =~= hex_text(value / 16, fewer));
    }
}

/// The colour of an agent that has none of its own is shown in six digits.
pub proof fn a_color_has_six_digits(value: nat)
    requires
        value < 0x1000000,
    ensures
        hex_text(value, 6).len() == 6,
{
    reveal_with_fuel(hex_text, 7);
}

/// A value is written as it is read: text as it stands, counts in decimal digits
/// and switches as `true` and `false`.
pub proof fn values_are_written_out(text: Seq<char>, count: usize)
    ensures
        value_text(ValueView::Text(text)) == Some(text),
        value_text(ValueView::Count(count)) == Some(decimal_text(count as nat)),
        value_text(ValueView::Switch(true)) == Some("true"@),
        value_text(ValueView::Switch(false)) == Some("false"@),
{
}

/// An agent that has no colour of its own shows its default, and any other setting
/// without a value shows nothing.
pub proof fn what_is_not_set_shows_its_default(
    field: SettingField,
    agents: Seq<AgentInfo>,
    agent: usize,
)
    requires
        agent < agents.len(),
    ensures
        absent_text(SettingField::AgentColor(agent), agents) == "#"@ + hex_text(
            agents[agent as int].default_color as nat,
            6,
        ),
        !(field is AgentColor) ==> absent_text(field, agents).len() == 0,
{
}

} // verus!
