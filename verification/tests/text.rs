//! Texts, numbers and paths.
use water::decimal::{parse_unsigned, push_decimal, push_decimal_text};
use water::idmap::IdMap;
use water::ids::{PaneId, TabId, WorkspaceId};
use water::num::{clamp_i64, clamp_usize, saturating_add_i32, saturating_mul_usize};
use water::paths::{default_extension, file_name};
use water::text::{contains_bytes, drop_controls, drop_leading, keep_tail, trim};
use water::workspace::model::{PaneNode, Tab, Workspace};

#[test]
fn texts_are_trimmed() {
    assert_eq!(trim("  a b\u{3000}\n"), "a b");
    assert_eq!(trim("\u{2028}"), "");
    assert_eq!(drop_leading("--zsh", '-'), "zsh");
    assert_eq!(drop_controls("a\u{7}b\nc"), "abc");
}

#[test]
fn a_tail_starts_at_a_character() {
    let mut text = "ab\u{754c}cd".to_owned();
    keep_tail(&mut text, 4);
    assert_eq!(text, "cd");
    let mut text = "ab\u{754c}cd".to_owned();
    keep_tail(&mut text, 5);
    assert_eq!(text, "\u{754c}cd");
    keep_tail(&mut text, 100);
    assert_eq!(text, "\u{754c}cd");
}

#[test]
fn bytes_are_searched() {
    assert!(contains_bytes(b"haystack", b"sta"));
    assert!(!contains_bytes(b"haystack", b"stb"));
    assert!(!contains_bytes(b"a", b"ab"));
}

#[test]
fn decimals_are_written_and_read() {
    let mut text = "n=".to_owned();
    push_decimal_text(&mut text, u64::MAX);
    assert_eq!(text, "n=18446744073709551615");
    let mut bytes = Vec::new();
    push_decimal(&mut bytes, 0);
    assert_eq!(bytes, b"0");
    assert_eq!(parse_unsigned(b"0042"), Some(42));
    assert_eq!(parse_unsigned(b""), None);
    assert_eq!(parse_unsigned(b"-1"), None);
    assert_eq!(parse_unsigned(b"99999999999999999999999"), None);
}

#[test]
fn numbers_stay_in_range() {
    assert_eq!(clamp_usize(5, 1, 3), 3);
    assert_eq!(clamp_i64(-5, -1, 3), -1);
    assert_eq!(saturating_mul_usize(usize::MAX, 2), usize::MAX);
    assert_eq!(saturating_add_i32(i32::MAX, 1), i32::MAX);
    assert_eq!(saturating_add_i32(i32::MIN, -1), i32::MIN);
}

#[test]
fn the_last_part_of_a_path_is_its_name() {
    for path in ["/bin/zsh", "zsh", "/a/b/", "/", "", "..", "a/..", "a/.", "a/./", "//x//"] {
        let expected = std::path::Path::new(path)
            .file_name()
            .map(|name| name.to_str().unwrap().to_owned());
        assert_eq!(file_name(path), expected, "{path}");
    }
}

#[test]
fn an_extension_is_added_where_there_is_none() {
    for path in ["/tmp/shot", "shot.png", "a.b/c", ".hidden", "x.", "/tmp/"] {
        let given = std::path::Path::new(path);
        let expected = if given.extension().is_none() {
            given.with_extension("png").to_str().unwrap().to_owned()
        } else {
            path.to_owned()
        };
        assert_eq!(default_extension(path, "png"), expected, "{path}");
    }
}

#[test]
fn a_map_keeps_one_value_for_an_id() {
    let mut map: IdMap<char> = IdMap::new();
    assert_eq!(map.insert(3, 'a'), None);
    assert_eq!(map.insert(1, 'b'), None);
    assert_eq!(map.insert(3, 'c'), Some('a'));
    assert_eq!(map.len(), 2);
    assert_eq!(map.get(3), Some(&'c'));
    assert!(map.contains(1));
    assert_eq!(map.remove(3), Some('c'));
    assert_eq!(map.remove(3), None);
    assert_eq!(map.into_entries(), vec![(1, 'b')]);
}

#[test]
fn new_workspaces_and_tabs() {
    let workspace = Workspace::new(WorkspaceId::new(4));
    assert_eq!(workspace.id, WorkspaceId::new(4));
    assert!(workspace.tabs.is_empty());
    assert_eq!(workspace.active_tab, None);
    let tab = Tab::new(TabId::new(2), "logs".to_owned(), PaneId::new(9));
    assert_eq!(tab.root, PaneNode::Leaf { pane_id: PaneId::new(9) });
    assert_eq!(tab.active_pane, PaneId::new(9));
    assert_eq!(tab.title, "logs");
}
