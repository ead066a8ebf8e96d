//! The settings window.
use water::ui::config::{NumberReading, RawValue, Reading, SettingValue, SettingsConfig};
use water::ui::fields::{is_shortcut, AgentInfo, ApplyKind, SettingField};
use water::ui::keystroke::{Keystroke, Modifiers};
use water::ui::sections::SectionKind;
use water::ui::settings::{RestartStep, SaveResult, SettingsKey, SettingsView};
use water::ui::shortcuts::{
    shortcut_expansions, shortcut_is_valid, shortcut_is_valid_for, shortcut_labels,
    validate_config_shortcuts, validate_shortcuts, words, ShortcutEntry, ShortcutVerdicts,
};

fn reading() -> Reading {
    Reading {
        number: NumberReading::NotANumber,
        color: false,
        words_are_keystrokes: false,
        is_template: false,
    }
}

fn number(bits: u32) -> Reading {
    Reading { number: NumberReading::Finite(bits), ..reading() }
}

fn agents() -> Vec<AgentInfo> {
    vec![AgentInfo {
        key: "codex".to_owned(),
        label: "Codex".to_owned(),
        default_color: 0x112233,
    }]
}

fn text_of(config: &SettingsConfig, field: SettingField) -> String {
    match config.raw_value(field, &agents()) {
        RawValue::Text(text) => text,
        RawValue::Number(bits) => format!("bits {bits}"),
    }
}

fn typed(key: &str) -> Keystroke {
    Keystroke {
        modifiers: Modifiers::none(),
        key: key.to_owned(),
        key_char: Some(key.to_owned()),
    }
}

#[test]
fn texts_are_entered_and_read_back() {
    let mut config = SettingsConfig::new();
    config.set_field(SettingField::FontFamily, " Menlo ", reading()).unwrap();
    assert_eq!(text_of(&config, SettingField::FontFamily), "Menlo");
    assert!(config.set_field(SettingField::FontFamily, "   ", reading()).is_err());
    assert_eq!(text_of(&config, SettingField::FontFamily), "Menlo");
    config.set_field(SettingField::ShellArgs, " [\"-l\", \"a b\"] ", reading()).unwrap();
    assert_eq!(text_of(&config, SettingField::ShellArgs), "[\"-l\",\"a b\"]");
    assert!(matches!(
        config.get(SettingField::ShellArgs),
        Some(SettingValue::Words(words)) if *words == ["-l", "a b"]
    ));
    assert!(config.set_field(SettingField::ShellArgs, "-l", reading()).is_err());
    config.set_field(SettingField::DefaultCwd, "/srv", reading()).unwrap();
    assert_eq!(text_of(&config, SettingField::DefaultCwd), "/srv");
    config.set_field(SettingField::DefaultCwd, "  ", reading()).unwrap();
    assert!(config.get(SettingField::DefaultCwd).is_none());
}

#[test]
fn counts_are_entered_and_read_back() {
    let mut config = SettingsConfig::new();
    config.set_field(SettingField::ScrollbackLines, "2000", reading()).unwrap();
    assert_eq!(text_of(&config, SettingField::ScrollbackLines), "2000");
    let error = config.set_field(SettingField::ScrollbackLines, "many", reading()).unwrap_err();
    assert!(!error.is_empty());
    assert_eq!(text_of(&config, SettingField::ScrollbackLines), "2000");
}

#[test]
fn numbers_must_be_finite() {
    let mut config = SettingsConfig::new();
    let bits = 14.0f32.to_bits();
    config.set_field(SettingField::FontSize, "14", number(bits)).unwrap();
    assert!(matches!(config.get(SettingField::FontSize), Some(SettingValue::Number(stored)) if *stored == bits));
    assert_eq!(text_of(&config, SettingField::FontSize), format!("bits {bits}"));
    assert!(config.set_field(SettingField::FontSize, "x", reading()).is_err());
    let infinite = Reading { number: NumberReading::Infinite, ..reading() };
    assert!(config.set_field(SettingField::FontSize, "inf", infinite).is_err());
}

#[test]
fn colours_and_shortcuts_are_checked() {
    let mut config = SettingsConfig::new();
    assert!(config.set_field(SettingField::ThemePaneBackground, "#123", reading()).is_err());
    let color = Reading { color: true, ..reading() };
    config.set_field(SettingField::ThemePaneBackground, "#112233", color).unwrap();
    assert_eq!(text_of(&config, SettingField::ThemePaneBackground), "#112233");
    assert!(config.set_field(SettingField::ShortcutPaste, "nope", reading()).is_err());
    let shortcut = Reading { words_are_keystrokes: true, ..reading() };
    config.set_field(SettingField::ShortcutPaste, "cmd-v", shortcut).unwrap();
    assert_eq!(text_of(&config, SettingField::ShortcutPaste), "cmd-v");
    // Keystrokes alone are no shortcut for the tabs: that takes a template.
    assert!(config.set_field(SettingField::ShortcutSwitchTab, "cmd-1", shortcut).is_err());
    let template = Reading { is_template: true, ..reading() };
    config.set_field(SettingField::ShortcutSwitchTab, "cmd-{n}", template).unwrap();
    assert_eq!(text_of(&config, SettingField::ShortcutSwitchTab), "cmd-{n}");
    assert!(config.set_field(SettingField::ShortcutPaste, "cmd-{n}", template).is_err());
}

#[test]
fn switches_are_toggled() {
    let mut config = SettingsConfig::new();
    config.set(SettingField::Selection, SettingValue::Switch(true));
    assert!(config.is_on(SettingField::Selection));
    assert!(config.toggle(SettingField::Selection));
    assert!(!config.is_on(SettingField::Selection));
    assert!(!config.toggle(SettingField::FontFamily));
}

#[test]
fn an_edit_is_typed_and_committed() {
    let mut config = SettingsConfig::new();
    config.set(SettingField::FontFamily, SettingValue::Text("Menlo".to_owned()));
    let mut view = SettingsView::new(config);
    view.begin_edit(SettingField::FontFamily, &agents(), "");
    assert_eq!(view.editing(), Some(SettingField::FontFamily));
    assert_eq!(view.edit_value(), "Menlo");
    assert_eq!(view.handle_key_down(&typed("X"), reading()), SettingsKey::Taken);
    assert_eq!(view.edit_value(), "MenloX");
    let back = Keystroke {
        modifiers: Modifiers::none(),
        key: "backspace".to_owned(),
        key_char: None,
    };
    view.handle_key_down(&back, reading());
    assert_eq!(view.edit_value(), "Menlo");
    view.paste(SettingField::FontFamily, " Pro\n");
    view.commit_edit(reading());
    assert_eq!(view.editing(), None);
    assert_eq!(text_of(view.config(), SettingField::FontFamily), "Menlo Pro");
    let header = view.render_header();
    assert!(header.save_highlighted);
}

#[test]
fn a_refused_edit_stays_open() {
    let mut view = SettingsView::new(SettingsConfig::new());
    view.begin_edit(SettingField::FontFamily, &agents(), "");
    view.commit_edit(reading());
    let (_, is_error) = view.status().unwrap();
    assert!(is_error);
    assert_eq!(view.editing(), Some(SettingField::FontFamily));
    view.cancel_edit();
    assert_eq!(view.editing(), None);
}

#[test]
fn saving_goes_through_its_steps() {
    let mut config = SettingsConfig::new();
    config.set(SettingField::Selection, SettingValue::Switch(true));
    let mut view = SettingsView::new(config);
    view.toggle_field(SettingField::Selection);
    assert!(view.prepare_save(reading()));
    assert!(!view.start_save(Err("two shortcuts are the same".to_owned())));
    assert!(view.status().unwrap().1);
    assert!(view.start_save(Ok(())));
    // While it is saving, nothing can be changed.
    view.toggle_field(SettingField::Selection);
    assert!(!view.config().is_on(SettingField::Selection));
    let mut saved = SettingsConfig::new();
    saved.set(SettingField::Selection, SettingValue::Switch(false));
    let restarts = view.finish_save(SaveResult::Saved {
        config: saved,
        requires_restart: true,
        path: "/tmp/config.toml".to_owned(),
    });
    assert!(!restarts);
    assert!(view.pending_restart());
    assert_eq!(view.restart(reading()), RestartStep::Restart);
}

#[test]
fn a_change_is_put_into_its_range() {
    let mut config = SettingsConfig::new();
    config.set(SettingField::Selection, SettingValue::Switch(true));
    config.set(SettingField::ScrollbackLines, SettingValue::Count(2000));
    let mut view = SettingsView::new(config);
    assert!(!view.is_unnormalized());
    // Nothing has changed: nothing is taken.
    view.take_normalized(SettingsConfig::new());
    assert_eq!(text_of(view.config(), SettingField::ScrollbackLines), "2000");
    view.begin_edit(SettingField::ScrollbackLines, &agents(), "");
    view.paste(SettingField::ScrollbackLines, "0");
    view.commit_edit(reading());
    assert!(view.is_unnormalized());
    assert_eq!(text_of(view.config(), SettingField::ScrollbackLines), "20000");
    let mut normalized = SettingsConfig::new();
    normalized.set(SettingField::ScrollbackLines, SettingValue::Count(10000));
    view.take_normalized(normalized);
    assert!(!view.is_unnormalized());
    assert_eq!(text_of(view.config(), SettingField::ScrollbackLines), "10000");
}

#[test]
fn a_failed_save_is_told() {
    let mut view = SettingsView::new(SettingsConfig::new());
    view.toggle_field(SettingField::Selection);
    view.prepare_save(reading());
    view.start_save(Ok(()));
    assert!(!view.finish_save(SaveResult::Failed("disk full".to_owned())));
    let (status, is_error) = view.status().unwrap();
    assert!(status.contains("disk full"));
    assert!(is_error);
}

#[test]
fn every_section_has_rows() {
    let sections = SectionKind::all();
    assert_eq!(
        sections,
        vec![
            SectionKind::Startup,
            SectionKind::Shell,
            SectionKind::Terminal,
            SectionKind::Features,
            SectionKind::Layout,
            SectionKind::Colors,
            SectionKind::AgentColors,
            SectionKind::Shortcuts,
        ]
    );
    let agents = agents();
    let mut fields = Vec::new();
    for section in sections {
        assert!(!section.title().is_empty());
        for row in section.rows(&agents) {
            assert!(!fields.contains(&row.field));
            fields.push(row.field);
        }
    }
    assert!(fields.contains(&SettingField::AgentColor(0)));
    assert_eq!(SectionKind::AgentColors.rows(&agents).len(), 1);
}

#[test]
fn a_row_shows_its_value() {
    let mut config = SettingsConfig::new();
    config.set(SettingField::Selection, SettingValue::Switch(true));
    let view = SettingsView::new(config);
    let display = view.render_setting(SettingField::Selection, ApplyKind::Immediate, &agents(), "");
    assert!(display.toggles);
    assert!(!display.editing);
    assert_eq!(display.apply, ApplyKind::Immediate.label());
    let color = view.render_setting(SettingField::AgentColor(0), ApplyKind::Immediate, &agents(), "");
    assert!(color.swatch);
}

fn entry(label: &'static str, binding: &str) -> ShortcutEntry {
    ShortcutEntry { label, valid: true, bindings: vec![binding.to_owned()] }
}

#[test]
fn shortcuts_must_not_conflict() {
    assert!(validate_shortcuts(&[entry("Copy", "cmd-c"), entry("Paste", "cmd-v")]).is_ok());
    let error = validate_shortcuts(&[entry("Copy", "cmd-c"), entry("Paste", "cmd-c")]).unwrap_err();
    assert!(error.contains("Copy"));
    assert!(error.contains("Paste"));
    let invalid = ShortcutEntry { label: "Copy", valid: false, bindings: Vec::new() };
    assert!(validate_shortcuts(&[invalid]).is_err());
}

#[test]
fn the_shortcuts_of_a_configuration_are_checked() {
    let labels = shortcut_labels();
    let mut config = SettingsConfig::new();
    for (index, label) in labels.iter().enumerate() {
        config.set(label.field, SettingValue::Text(format!("cmd-f{index}")));
    }
    let template: Vec<String> = (1..10).map(|digit| format!("ctrl-{digit}")).collect();
    config.set(SettingField::ShortcutSwitchTab, SettingValue::Text("ctrl-{n}".to_owned()));
    let mut verdicts = ShortcutVerdicts {
        words_are_keystrokes: vec![true; labels.len()],
        is_template: true,
        template_bindings: template,
    };
    assert!(validate_config_shortcuts(&config, &verdicts).is_ok());
    // A shortcut that the template also stands for.
    config.set(SettingField::ShortcutPaste, SettingValue::Text("ctrl-3".to_owned()));
    let paste = labels.iter().position(|label| label.field == SettingField::ShortcutPaste).unwrap();
    let error = validate_config_shortcuts(&config, &verdicts).unwrap_err();
    assert!(error.contains(labels[paste].label));
    // One that is none at all.
    config.set(SettingField::ShortcutPaste, SettingValue::Text("nope".to_owned()));
    verdicts.words_are_keystrokes[paste] = false;
    let error = validate_config_shortcuts(&config, &verdicts).unwrap_err();
    assert!(error.contains(labels[paste].label));
}

#[test]
fn shortcut_texts_are_split_and_expanded() {
    assert_eq!(words("  ctrl-x   ctrl-c "), vec!["ctrl-x", "ctrl-c"]);
    assert!(shortcut_is_valid("cmd-c", true));
    assert!(!shortcut_is_valid("cmd-c", false));
    assert!(!shortcut_is_valid("   ", true));
    assert!(shortcut_is_valid_for(SettingField::ShortcutSwitchTab, "cmd-{n}", false, true));
    let template: Vec<String> = (0..10).map(|digit| format!("cmd-{digit}")).collect();
    assert_eq!(
        shortcut_expansions(SettingField::ShortcutSwitchTab, "cmd-{n}", template.clone()),
        template
    );
    assert_eq!(
        shortcut_expansions(SettingField::ShortcutPaste, "cmd-v", Vec::new()),
        vec!["cmd-v"]
    );
    for label in shortcut_labels() {
        assert!(is_shortcut(label.field));
    }
}
