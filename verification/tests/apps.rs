use ignition::apps::{App, AppId, AppManager, ParseError, Properties};
use ignition::finder::icon_theme_base_paths;
use ignition::model::{IconEntryModel, IconsModel};
use ignition::ui::ResultsEvent;

use base64::Engine;
use sha2::Digest;

fn properties(entries: &[(&str, &str)]) -> Properties {
    Properties { entries: entries.iter().map(|(k, v)| (k.to_string(), v.to_string())).collect() }
}

fn digest_of(parts: &[&str]) -> String {
    let mut hasher = sha2::Sha256::new();
    for part in parts {
        hasher.update(part.as_bytes());
    }
    base64::engine::general_purpose::STANDARD.encode(hasher.finalize())
}

#[test]
fn properties_give_the_first_value_of_a_key() {
    let p = properties(&[("Name", "one"), ("Icon", "i"), ("Name", "two")]);
    assert_eq!(p.get("Name"), Some(&"one".to_string()));
    assert_eq!(p.get("Icon"), Some(&"i".to_string()));
    assert_eq!(p.get("name"), None);
    assert!(!p.is_set("Terminal"));
    assert!(properties(&[("Terminal", "true")]).is_set("Terminal"));
    assert!(!properties(&[("Terminal", "True")]).is_set("Terminal"));
    assert!(!properties(&[("Terminal", "false"), ("Terminal", "true")]).is_set("Terminal"));
}

#[test]
fn parse_makes_an_application() {
    let p = properties(&[
        ("Name", "Firefox"),
        ("Comment", "Browse the web"),
        ("Icon", "firefox"),
        ("GenericName", "Web Browser"),
        ("Keywords", "web;browser;"),
        ("Exec", "firefox %u"),
        ("Categories", "Network;WebBrowser;"),
        ("Terminal", "false"),
    ]);
    let app = App::parse("/usr/share/applications/firefox.desktop".to_string(), &p).unwrap().unwrap();
    assert_eq!(
        app,
        App {
            id: AppId(digest_of(&["Firefox", "Browse the web", "firefox", "Web Browser", "web;browser;"])),
            path: "/usr/share/applications/firefox.desktop".to_string(),
            name: "Firefox".to_string(),
            command: "firefox %u".to_string(),
            icon: Some("firefox".to_string()),
            comment: Some("Browse the web".to_string()),
            generic_name: Some("Web Browser".to_string()),
            keywords: Some("web;browser;".to_string()),
            categories: Some(vec!["Network".to_string(), "WebBrowser".to_string(), "".to_string()]),
            terminal: false,
        }
    );
    assert!(!app.is_penalized());
}

#[test]
fn parse_makes_the_identity_from_what_is_there() {
    let p = properties(&[("Name", "xterm"), ("Exec", "xterm"), ("Terminal", "true")]);
    let app = App::parse("/x.desktop".to_string(), &p).unwrap().unwrap();
    assert_eq!(app.id, AppId(digest_of(&["xterm"])));
    // The digest of `xterm`, in base64.
    assert_eq!(app.id.0.len(), 44);
    assert_eq!(app.icon, None);
    assert_eq!(app.categories, None);
    assert!(app.terminal);
    assert!(app.is_penalized());
    let moved = properties(&[("Name", "xter"), ("Comment", "m"), ("Exec", "xterm")]);
    // The texts are put together without anything between them.
    assert_eq!(App::parse("/y.desktop".to_string(), &moved).unwrap().unwrap().id, app.id);
    let other = properties(&[("Name", "xterm2"), ("Exec", "xterm")]);
    assert_ne!(App::parse("/z.desktop".to_string(), &other).unwrap().unwrap().id, app.id);
    assert_eq!(
        App::make_id("", &None, &None, &None, &None).0,
        "47DEQpj8HBSa+/TImW+5JCeuQeRkm5NMpJWZG3hSuFU="
    );
}

#[test]
fn parse_skips_what_is_not_to_be_shown_or_cannot_run() {
    let hidden = properties(&[("NoDisplay", "true"), ("Exec", "x")]);
    assert_eq!(App::parse("/a".to_string(), &hidden), Ok(None));
    let no_exec = properties(&[("Name", "x")]);
    assert_eq!(App::parse("/a".to_string(), &no_exec), Ok(None));
    let no_name = properties(&[("Exec", "x"), ("NoDisplay", "false")]);
    assert_eq!(App::parse("/a".to_string(), &no_name), Err(ParseError::NoName));
    assert_eq!(App::parse("/a".to_string(), &properties(&[])), Err(ParseError::NoName));
}

#[test]
fn settings_rank_lower() {
    let p = properties(&[("Name", "Displays"), ("Exec", "d"), ("Categories", "GNOME;Settings;")]);
    assert!(App::parse("/a".to_string(), &p).unwrap().unwrap().is_penalized());
    let p = properties(&[("Name", "Displays"), ("Exec", "d"), ("Categories", "GNOME;SettingsX")]);
    assert!(!App::parse("/a".to_string(), &p).unwrap().unwrap().is_penalized());
}

#[test]
fn app_manager_keeps_each_identity_once() {
    let app = |name: &str, command: &str| {
        let p = properties(&[("Name", name), ("Exec", command)]);
        App::parse(format!("/{name}.desktop"), &p).unwrap().unwrap()
    };
    let mut apps = AppManager::new();
    apps.insert(app("a", "one"));
    apps.insert(app("b", "two"));
    apps.insert(app("a", "three"));
    assert_eq!(apps.applications.len(), 2);
    let id = app("a", "").id;
    assert_eq!(apps.position(&id), Some(0));
    assert_eq!(apps.get(&id).unwrap().command, "three");
    assert!(apps.get(&AppId("missing".to_string())).is_none());
}

#[test]
fn hovering_selects_the_entry_of_the_application() {
    let entries = vec![AppId("a".to_string()), AppId("b".to_string()), AppId("a".to_string())];
    let hover = |id: &str| ResultsEvent::Hovered(AppId(id.to_string()));
    assert_eq!(hover("b").selection(&entries, false, Some(0)), Some(1));
    assert_eq!(hover("a").selection(&entries, false, Some(2)), Some(0));
    assert_eq!(hover("b").selection(&entries, true, Some(0)), Some(0));
    assert_eq!(hover("c").selection(&entries, false, None), None);
    assert_eq!(hover("c").selection(&entries, false, Some(2)), Some(2));
    let press = ResultsEvent::Pressed(AppId("b".to_string()));
    assert_eq!(press.selection(&entries, false, Some(0)), Some(0));
}

#[test]
fn base_paths_name_icons_and_pixmaps() {
    let dirs = vec!["/usr/local/share".to_string(), "/usr/share/".to_string()];
    assert_eq!(
        icon_theme_base_paths(Some((&dirs, "/home/u/.local/share")), "/home/u"),
        vec![
            "/usr/local/share/icons",
            "/usr/local/share/pixmaps",
            "/usr/share/icons",
            "/usr/share/pixmaps",
            "/home/u/.local/share/icons",
            "/home/u/.local/share/pixmaps",
            "/home/u/.icons",
        ]
    );
    assert_eq!(icon_theme_base_paths(None, "/home/u"), vec!["/home/u/.icons"]);
    assert_eq!(
        icon_theme_base_paths(Some((&vec![], "/d")), "/h"),
        vec!["/d/icons", "/d/pixmaps", "/h/.icons"]
    );
}

fn entry(source: &str, export_id: Option<usize>) -> IconEntryModel {
    IconEntryModel { source_location: source.to_string(), export_id }
}

#[test]
fn from_entries_keeps_the_later_of_two() {
    let model = IconsModel::from_entries(vec![
        (AppId("a".to_string()), entry("one", Some(0))),
        (AppId("b".to_string()), entry("two", None)),
        (AppId("a".to_string()), entry("three", Some(2))),
    ]);
    assert_eq!(model.len(), 2);
    assert_eq!(model.get(&AppId("a".to_string())), Some(&entry("three", Some(2))));
}

#[test]
fn distinct_slots_are_told_from_shared_ones() {
    let model = IconsModel::from_entries(vec![
        (AppId("a".to_string()), entry("one", Some(0))),
        (AppId("b".to_string()), entry("two", None)),
        (AppId("c".to_string()), entry("three", None)),
        (AppId("d".to_string()), entry("four", Some(1))),
    ]);
    assert!(model.has_distinct_slots());
    let model = IconsModel::from_entries(vec![
        (AppId("a".to_string()), entry("one", Some(1))),
        (AppId("b".to_string()), entry("two", Some(0))),
        (AppId("c".to_string()), entry("three", Some(1))),
    ]);
    assert!(!model.has_distinct_slots());
    // The later entry of one application takes the place of the earlier one.
    let model = IconsModel::from_entries(vec![
        (AppId("a".to_string()), entry("one", Some(1))),
        (AppId("a".to_string()), entry("two", Some(1))),
    ]);
    assert!(model.has_distinct_slots());
    assert!(IconsModel::new().has_distinct_slots());
}
