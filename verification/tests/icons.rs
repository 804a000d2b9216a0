use ignition::apps::AppId;
use ignition::icons::IconManager;
use ignition::idset::IdSet;
use ignition::model::{IconEntryModel, IconsModel};
use ignition::shortcuts::ShortcutId;

fn shortcut(text: &str) -> ShortcutId {
    ShortcutId(text.to_string())
}

fn key(text: &str) -> AppId {
    AppId(text.to_string())
}

fn record(source: &str, export_id: Option<usize>) -> IconEntryModel {
    IconEntryModel { source_location: source.to_string(), export_id }
}

fn plain_manager(entries: Vec<(&str, IconEntryModel)>) -> IconManager {
    let model = IconsModel::from_entries(entries.into_iter().map(|(k, v)| (key(k), v)).collect());
    IconManager::new("/cache/icons".to_string(), model)
}

#[test]
fn a_new_plain_manager_has_seen_nothing() {
    let m = plain_manager(vec![("old", record("old", Some(0)))]);
    assert_eq!(m.icon_image_dir, "/cache/icons");
    assert_eq!(m.model.len(), 1);
    assert!(!m.seen_icons.contains(&key("old")));
}

#[test]
fn plain_paths_name_the_slot() {
    let m = plain_manager(vec![
        ("with", record("a", Some(12))),
        ("without", record("b", None)),
    ]);
    assert_eq!(m.icon_path(0), "/cache/icons/0.png");
    assert_eq!(m.icon_path(12), "/cache/icons/12.png");
    assert_eq!(m.read_icon(&shortcut("with")), Some("/cache/icons/12.png".to_string()));
    assert_eq!(m.read_icon(&shortcut("without")), None);
    assert_eq!(m.read_icon(&shortcut("missing")), None);
}

#[test]
fn a_shortcut_without_icon_is_not_seen() {
    let mut m = plain_manager(vec![]);
    assert!(!m.prepare_icon(&shortcut("plain"), None));
    assert!(!m.seen_icons.contains(&key("plain")));
    assert_eq!(m.model.len(), 0);
}

#[test]
fn a_source_on_record_is_not_rendered_again() {
    let mut m = plain_manager(vec![("old", record("old", Some(0)))]);
    assert!(!m.prepare_icon(&shortcut("old"), Some("old")));
    assert!(m.seen_icons.contains(&key("old")));
    assert_eq!(m.model.get(&key("old")), Some(&record("old", Some(0))));
    assert!(m.prepare_icon(&shortcut("old"), Some("changed")));
    assert!(m.prepare_icon(&shortcut("new"), Some("new")));
    // Asking changes no record: the render does.
    assert_eq!(m.model.get(&key("old")), Some(&record("old", Some(0))));
    assert_eq!(m.model.get(&key("new")), None);
}

#[test]
fn icon_manager_renders_what_is_new() {
    let mut m = plain_manager(vec![("old", record("old", Some(0)))]);
    assert!(m.prepare_icon(&shortcut("new"), Some("new")));
    assert_eq!(m.free_slot(), 1);
    assert_eq!(m.rendered(&shortcut("new"), "new".to_string(), true), Some(1));
    assert_eq!(m.model.get(&key("new")), Some(&record("new", Some(1))));
    assert!(!m.prepare_icon(&shortcut("new"), Some("new")));
    assert_eq!(m.read_icon(&shortcut("new")), Some("/cache/icons/1.png".to_string()));
    assert_eq!(m.free_slot(), 2);
}

#[test]
fn a_failed_render_leaves_the_shortcut_without_slot() {
    let mut m = plain_manager(vec![("old", record("old", Some(0)))]);
    assert!(m.prepare_icon(&shortcut("broken"), Some("broken")));
    assert_eq!(m.rendered(&shortcut("broken"), "broken".to_string(), false), None);
    assert_eq!(m.model.get(&key("broken")), Some(&record("broken", None)));
    assert_eq!(m.read_icon(&shortcut("broken")), None);
    // The failure is on record: the same source is not tried again.
    assert!(!m.prepare_icon(&shortcut("broken"), Some("broken")));
    assert_eq!(m.free_slot(), 1);
}

#[test]
fn a_render_takes_the_first_gap() {
    let mut m = plain_manager(vec![
        ("a", record("a", Some(0))),
        ("b", record("b", Some(2))),
        ("c", record("c", None)),
    ]);
    assert_eq!(m.rendered(&shortcut("c"), "c2".to_string(), true), Some(1));
    assert_eq!(m.rendered(&shortcut("d"), "d".to_string(), true), Some(3));
    // The slot that a changed record held is still taken while the new one is chosen.
    assert_eq!(m.rendered(&shortcut("a"), "a2".to_string(), true), Some(4));
    assert_eq!(m.model.get(&key("a")), Some(&record("a2", Some(4))));
    assert_eq!(m.model.len(), 4);
}

#[test]
fn icon_manager_frees_the_slots_of_what_was_not_seen() {
    let mut m = plain_manager(vec![
        ("gone", record("gone", Some(0))),
        ("kept", record("kept", Some(1))),
        ("never", record("never", None)),
    ]);
    m.prepare_icon(&shortcut("kept"), Some("kept"));
    assert_eq!(m.save(), vec![0]);
    assert_eq!(m.model.len(), 1);
    assert_eq!(m.model.get(&key("gone")), None);
    assert_eq!(m.model.get(&key("never")), None);
    assert_eq!(m.model.get(&key("kept")), Some(&record("kept", Some(1))));
    assert_eq!(m.read_icon(&shortcut("gone")), None);
    assert_eq!(m.read_icon(&shortcut("kept")), Some("/cache/icons/1.png".to_string()));
    assert!(m.seen_icons.contains(&key("kept")));
    assert!(m.save().is_empty());
    assert_eq!(m.model.len(), 1);
}

#[test]
fn save_without_a_scan_throws_every_record_away() {
    let mut m = plain_manager(vec![
        ("a", record("a", Some(3))),
        ("b", record("b", None)),
        ("c", record("c", Some(1))),
    ]);
    let mut slots = m.save();
    slots.sort();
    assert_eq!(slots, vec![1, 3]);
    assert_eq!(m.model.len(), 0);
}

#[test]
fn save_keeps_every_record_that_was_seen() {
    let mut m = plain_manager(vec![
        ("a", record("a", Some(3))),
        ("b", record("b", None)),
    ]);
    m.prepare_icon(&shortcut("a"), Some("a"));
    m.prepare_icon(&shortcut("b"), Some("b"));
    assert!(m.save().is_empty());
    assert_eq!(m.model.get(&key("a")), Some(&record("a", Some(3))));
    assert_eq!(m.model.get(&key("b")), Some(&record("b", None)));
}

#[test]
fn keep_seen_restricts_the_records() {
    let mut model = IconsModel::from_entries(vec![
        (key("a"), record("a", Some(5))),
        (key("b"), record("b", Some(6))),
        (key("c"), record("c", Some(7))),
        (key("d"), record("d", None)),
    ]);
    let mut seen = IdSet::new();
    seen.insert(key("b"));
    seen.insert(key("elsewhere"));
    let mut slots = model.keep_seen(&seen);
    slots.sort();
    assert_eq!(slots, vec![5, 7]);
    assert_eq!(model.len(), 1);
    assert_eq!(model.get(&key("b")), Some(&record("b", Some(6))));
    assert!(model.keep_seen(&IdSet::new()) == vec![6]);
    assert_eq!(model.len(), 0);
}
