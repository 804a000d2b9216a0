use std::collections::HashMap;

use ignition::descriptor::{IconDescriptor, IconSize};
use ignition::finder::{candidate, has_exact, keep_exact, FindStep, IconFinder, IconLocation};
use ignition::select::{choose_icon_path, is_better, select_best, LocateStep};
use ignition::tree::{CachedDir, CachedDirEntry, EntryKind, ListedEntry};

type Disk = HashMap<String, Vec<ListedEntry>>;

fn dir(name: &str) -> ListedEntry {
    ListedEntry { name: name.to_string(), kind: EntryKind::Directory }
}

fn file(name: &str) -> ListedEntry {
    ListedEntry { name: name.to_string(), kind: EntryKind::File }
}

fn disk(listings: &[(&str, Vec<ListedEntry>)]) -> Disk {
    listings.iter().map(|(path, entries)| (path.to_string(), entries.clone())).collect()
}

/// Runs a search to its end, listing directories as the finder asks for them.
/// Returns what was found and the directories that were read, in order.
fn search(finder: &mut IconFinder, disk: &Disk, icon: &str) -> (Vec<IconLocation>, Vec<String>) {
    let mut read = Vec::new();
    loop {
        match finder.find(icon) {
            FindStep::Found(found) => return (found, read),
            FindStep::Read { paths, stage } => {
                assert!(!paths.is_empty());
                assert!(stage < 4);
                for path in paths {
                    let listing = disk.get(&path).cloned().unwrap_or_default();
                    finder.resolve(&path, &listing);
                    read.push(path);
                }
            }
        }
    }
}

fn paths(found: &[IconLocation]) -> Vec<&str> {
    found.iter().map(|l| l.path.as_str()).collect()
}

fn themed_disk() -> Disk {
    disk(&[
        ("/usr/share/icons", vec![dir("hicolor"), dir("Adwaita"), file("stray.png")]),
        ("/usr/share/icons/hicolor", vec![dir("48x48"), dir("scalable"), dir("32x32@2x")]),
        ("/usr/share/icons/hicolor/48x48", vec![dir("apps")]),
        ("/usr/share/icons/hicolor/48x48/apps", vec![file("firefox.png"), file("firefox-esr.png")]),
        ("/usr/share/icons/hicolor/scalable", vec![dir("apps")]),
        ("/usr/share/icons/hicolor/scalable/apps", vec![file("firefox.svg"), file("gimp.svg")]),
        ("/usr/share/icons/hicolor/32x32@2x", vec![dir("apps")]),
        ("/usr/share/icons/hicolor/32x32@2x/apps", vec![file("firefox.png"), file("firefox.xpm")]),
        ("/usr/share/icons/Adwaita", vec![dir("16x16")]),
        ("/usr/share/icons/Adwaita/16x16", vec![file("adwaita-only.png"), file("firefox.png")]),
        ("/usr/share/pixmaps", vec![file("pix.png"), file("gimp.xpm"), dir("deep")]),
        ("/usr/share/pixmaps/deep", vec![file("buried.png")]),
    ])
}

fn themed_finder() -> IconFinder {
    IconFinder::new(&vec!["/usr/share/icons".to_string(), "/usr/share/pixmaps".to_string()]).unwrap()
}

#[test]
fn visit_names_a_directory_by_its_final_component() {
    let d = CachedDir::visit("/usr/share/icons/").unwrap();
    assert_eq!(d.path, "/usr/share/icons/");
    assert_eq!(d.name, "icons");
    assert!(d.entries.is_none());
    assert!(!d.is_resolved());
    assert!(d.entries().is_none());
    assert!(d.files().is_empty());
    assert!(d.dirs().is_empty());
    assert!(d.join("hicolor").is_none());
    assert!(CachedDir::visit("/").is_none());
    assert!(CachedDir::visit("/usr/..").is_none());
}

#[test]
fn entry_visit_keeps_files_and_directories_only() {
    match CachedDirEntry::visit("/a/b.png", EntryKind::File) {
        Some(CachedDirEntry::File(name)) => assert_eq!(name, "b.png"),
        other => panic!("{other:?}"),
    }
    match CachedDirEntry::visit("/a/sub", EntryKind::Directory) {
        Some(CachedDirEntry::Directory(d)) => {
            assert_eq!(d.path, "/a/sub");
            assert_eq!(d.name, "sub");
            assert!(d.entries.is_none());
        }
        other => panic!("{other:?}"),
    }
    assert!(CachedDirEntry::visit("/a/socket", EntryKind::Other).is_none());
    assert!(CachedDirEntry::visit("/", EntryKind::Directory).is_none());
}

#[test]
fn resolve_takes_the_first_listing_only() {
    let mut d = CachedDir::visit("/icons").unwrap();
    d.resolve(&vec![
        file("a.png"),
        dir("hicolor"),
        ListedEntry { name: "fifo".to_string(), kind: EntryKind::Other },
        file("b.svg"),
        dir("default"),
    ]);
    assert!(d.is_resolved());
    assert_eq!(d.entries().unwrap().len(), 4);
    assert_eq!(d.files(), vec!["a.png", "b.svg"]);
    let dirs = d.dirs();
    assert_eq!(dirs.len(), 2);
    assert_eq!(dirs[0].path, "/icons/hicolor");
    assert_eq!(dirs[1].name, "default");
    assert_eq!(d.join("default").unwrap().path, "/icons/default");
    assert!(d.join("a.png").is_none());
    assert!(d.join("missing").is_none());

    d.resolve(&vec![file("late.png")]);
    assert_eq!(d.files(), vec!["a.png", "b.svg"]);
}

#[test]
fn resolve_drops_names_that_are_no_entry() {
    let mut d = CachedDir::visit("/icons/").unwrap();
    d.resolve(&vec![file(""), dir(""), dir("a/b"), file("/x.png"), dir(".."), dir("."), file("ok.png")]);
    assert_eq!(d.files(), vec!["ok.png"]);
    assert!(d.dirs().is_empty());
}

#[test]
fn resolve_takes_the_first_of_two_lines_with_one_name() {
    let mut d = CachedDir::visit("/icons").unwrap();
    d.resolve(&vec![file("a.png"), dir("a.png"), dir("sub"), file("sub"), file("a.png"), file("b.png")]);
    assert_eq!(d.files(), vec!["a.png", "b.png"]);
    assert_eq!(d.dirs().len(), 1);
    assert_eq!(d.dirs()[0].name, "sub");
    assert!(CachedDir::listed_before(&vec![file("x"), file("y"), file("x")], 2));
    assert!(!CachedDir::listed_before(&vec![file("x"), file("y"), file("x")], 1));
    assert!(!CachedDir::listed_before(&vec![file("x")], 0));
}

#[test]
fn what_is_found_has_a_path_of_its_own() {
    let mut finder = themed_finder();
    let disk = themed_disk();
    for icon in ["firefox", "e", "", "png", "i"] {
        let (found, _) = search(&mut finder, &disk, icon);
        let mut paths: Vec<&str> = found.iter().map(|l| l.path.as_str()).collect();
        let count = paths.len();
        paths.sort();
        paths.dedup();
        assert_eq!(paths.len(), count, "{icon}");
    }
}

#[test]
fn resolve_drops_what_could_not_be_read() {
    let mut d = CachedDir::visit("/icons").unwrap();
    d.resolve(&vec![
        ListedEntry { name: String::new(), kind: EntryKind::Unreadable },
        ListedEntry { name: "lost.png".to_string(), kind: EntryKind::Unreadable },
        file("ok.png"),
    ]);
    assert_eq!(d.entries().unwrap().len(), 1);
    assert_eq!(d.files(), vec!["ok.png"]);
}

#[test]
fn what_is_found_lies_below_a_root_and_is_no_xpm() {
    let mut finder = themed_finder();
    let disk = themed_disk();
    for icon in ["firefox", "fire", "gimp", "pix", "buried", "e", ""] {
        let (found, _) = search(&mut finder, &disk, icon);
        for location in &found {
            assert!(
                location.path.starts_with("/usr/share/icons/")
                    || location.path.starts_with("/usr/share/pixmaps/"),
                "{location:?}"
            );
            assert!(!location.path.ends_with(".xpm"), "{location:?}");
            assert!(location.file_name.contains(icon), "{location:?}");
        }
    }
    let (found, _) = search(&mut finder, &disk, "firefox");
    assert!(found.iter().all(|l| l.path.starts_with("/usr/share/icons/hicolor/")));
}

#[test]
fn supplied_resolves_the_directory_with_the_path() {
    let mut root = CachedDir::visit("/icons").unwrap();
    root.resolve(&vec![dir("hicolor"), dir("default")]);
    let root = root.supplied("/icons/default", &vec![file("x.png")]);
    assert!(!root.join("hicolor").unwrap().is_resolved());
    assert_eq!(root.join("default").unwrap().files(), vec!["x.png"]);
    // A second listing for the same path changes nothing.
    let root = root.supplied("/icons/default", &vec![file("y.png")]);
    assert_eq!(root.join("default").unwrap().files(), vec!["x.png"]);
    // A path that is not in the tree changes nothing.
    let root = root.supplied("/elsewhere", &vec![file("z.png")]);
    assert!(!root.join("hicolor").unwrap().is_resolved());
}

#[test]
fn candidate_needs_the_name_in_the_stem() {
    let icon = |s: &str| s.chars().collect::<Vec<char>>();
    assert!(candidate("firefox.png", &icon("firefox")));
    assert!(candidate("firefox-esr.svg", &icon("firefox")));
    assert!(candidate("firefox", &icon("firefox")));
    assert!(!candidate("firefox.xpm", &icon("firefox")));
    assert!(!candidate("gimp.png", &icon("firefox")));
    // The extension is no part of the stem.
    assert!(!candidate("logo.png", &icon("png")));
    assert!(!candidate("logo.png", &icon("logo.png")));
}

#[test]
fn new_refuses_a_root_without_a_name() {
    assert!(IconFinder::new(&vec!["/usr/share/icons".to_string(), "/".to_string()]).is_none());
    assert_eq!(IconFinder::new(&vec![]).unwrap().dirs.len(), 0);
}

#[test]
fn find_asks_for_the_roots_first() {
    let finder = themed_finder();
    match finder.find("firefox") {
        FindStep::Read { paths, stage } => {
            assert_eq!(paths, vec!["/usr/share/icons", "/usr/share/pixmaps"]);
            assert_eq!(stage, 0);
        }
        other => panic!("{other:?}"),
    }
}

#[test]
fn find_stops_in_the_hicolor_theme() {
    let mut finder = themed_finder();
    let (found, read) = search(&mut finder, &themed_disk(), "firefox");
    assert_eq!(
        paths(&found),
        vec![
            "/usr/share/icons/hicolor/48x48/apps/firefox.png",
            "/usr/share/icons/hicolor/scalable/apps/firefox.svg",
            "/usr/share/icons/hicolor/32x32@2x/apps/firefox.png",
        ]
    );
    for location in &found {
        assert_eq!(location.file_name, "firefox");
        assert_eq!(location.descriptor.theme, Some("hicolor".to_string()));
    }
    assert_eq!(found[0].descriptor.size, Some(IconSize::Fixed(48)));
    assert_eq!(found[0].descriptor.scale, 1);
    assert_eq!(found[1].descriptor.size, Some(IconSize::Scalable));
    assert_eq!(found[2].descriptor.size, Some(IconSize::Fixed(32)));
    assert_eq!(found[2].descriptor.scale, 2);
    // Nothing outside the hicolor theme was listed.
    assert!(read.iter().all(|p| !p.contains("Adwaita") && !p.contains("deep")), "{read:?}");
}

#[test]
fn find_reads_every_directory_once() {
    let mut finder = themed_finder();
    let disk = themed_disk();
    let (_, first) = search(&mut finder, &disk, "firefox");
    assert!(!first.is_empty());
    let (found, second) = search(&mut finder, &disk, "firefox");
    assert_eq!(found.len(), 3);
    assert!(second.is_empty());
    let (_, third) = search(&mut finder, &disk, "gimp");
    assert!(third.is_empty());
}

#[test]
fn find_filters_to_exact_matches() {
    let mut finder = IconFinder::new(&vec!["/icons".to_string()]).unwrap();
    let disk = disk(&[
        ("/icons", vec![dir("hicolor")]),
        ("/icons/hicolor", vec![file("foo.png"), file("foobar.png")]),
    ]);
    let (found, _) = search(&mut finder, &disk, "foo");
    assert_eq!(paths(&found), vec!["/icons/hicolor/foo.png"]);
    let (found, _) = search(&mut finder, &disk, "oo");
    assert_eq!(paths(&found), vec!["/icons/hicolor/foo.png", "/icons/hicolor/foobar.png"]);
}

#[test]
fn keep_exact_keeps_all_without_an_exact_match() {
    let location = |stem: &str| IconLocation {
        path: format!("/icons/{stem}.png"),
        file_name: stem.to_string(),
        descriptor: IconDescriptor::default(),
    };
    let found = keep_exact(vec![location("foo"), location("foobar"), location("foo")], "foo");
    assert_eq!(paths(&found), vec!["/icons/foo.png", "/icons/foo.png"]);
    let found = keep_exact(vec![location("foobar"), location("barfoo")], "foo");
    assert_eq!(paths(&found), vec!["/icons/foobar.png", "/icons/barfoo.png"]);
    assert!(keep_exact(vec![], "foo").is_empty());
    assert!(has_exact(&vec![location("foobar"), location("foo")], "foo"));
    assert!(!has_exact(&vec![location("foobar")], "foo"));
    assert!(!has_exact(&vec![], "foo"));
}

#[test]
fn find_falls_back_to_the_default_theme() {
    let mut finder = IconFinder::new(&vec!["/icons".to_string()]).unwrap();
    let disk = disk(&[
        ("/icons", vec![dir("hicolor"), dir("default"), file("cursor.png")]),
        ("/icons/hicolor", vec![file("other.png")]),
        ("/icons/default", vec![dir("24")]),
        ("/icons/default/24", vec![file("cursor.png")]),
    ]);
    let (found, _) = search(&mut finder, &disk, "cursor");
    assert_eq!(paths(&found), vec!["/icons/default/24/cursor.png"]);
    assert_eq!(found[0].descriptor.theme, Some("default".to_string()));
    assert_eq!(found[0].descriptor.size, Some(IconSize::Fixed(24)));
}

#[test]
fn find_looks_at_the_files_of_the_roots_before_the_whole_tree() {
    let mut finder = themed_finder();
    let (found, read) = search(&mut finder, &themed_disk(), "pix");
    assert_eq!(paths(&found), vec!["/usr/share/pixmaps/pix.png"]);
    // The theme of a file directly in a root is the name of the root.
    assert_eq!(found[0].descriptor.theme, Some("pixmaps".to_string()));
    assert_eq!(found[0].descriptor.size, None);
    assert!(read.iter().all(|p| !p.contains("Adwaita") && !p.contains("deep")), "{read:?}");
}

#[test]
fn find_scans_the_whole_tree_at_last() {
    let mut finder = themed_finder();
    let (found, read) = search(&mut finder, &themed_disk(), "adwaita-only");
    assert_eq!(paths(&found), vec!["/usr/share/icons/Adwaita/16x16/adwaita-only.png"]);
    assert_eq!(found[0].descriptor.theme, Some("icons".to_string()));
    assert_eq!(found[0].descriptor.size, Some(IconSize::Fixed(16)));
    assert!(read.contains(&"/usr/share/pixmaps/deep".to_string()));

    let (found, _) = search(&mut finder, &themed_disk(), "buried");
    assert_eq!(paths(&found), vec!["/usr/share/pixmaps/deep/buried.png"]);
}

#[test]
fn find_finds_nothing_where_nothing_matches() {
    let mut finder = themed_finder();
    let (found, _) = search(&mut finder, &themed_disk(), "no-such-icon");
    assert!(found.is_empty());
    // An xpm file is never a candidate.
    let (found, _) = search(&mut finder, &themed_disk(), "gimp.xpm");
    assert!(found.is_empty());
}

#[test]
fn start_find_runs_one_stage_on_one_root() {
    let mut finder = themed_finder();
    let disk = themed_disk();
    search(&mut finder, &disk, "no-such-icon");
    let root = &finder.dirs[0];
    let mut out = Vec::new();
    // A stage counts every candidate, exact or not.
    assert_eq!(IconFinder::start_find(root, "firefox", &mut out, 0), 4);
    assert_eq!(IconFinder::start_find(root, "firefox", &mut out, 1), 0);
    assert_eq!(IconFinder::start_find(root, "stray", &mut out, 2), 1);
    assert_eq!(IconFinder::start_find(root, "firefox", &mut out, 3), 5);
    assert_eq!(IconFinder::start_find(root, "firefox", &mut out, 4), 0);
    assert_eq!(out.len(), 10);
    assert_eq!(out[1].file_name, "firefox-esr");
    let mut pending = Vec::new();
    IconFinder::start_unresolved(root, &mut pending, 3);
    assert!(pending.is_empty());
}

fn location(path: &str, size: Option<IconSize>, scale: u32, theme: Option<&str>) -> IconLocation {
    IconLocation {
        path: path.to_string(),
        file_name: "icon".to_string(),
        descriptor: IconDescriptor { size, scale, theme: theme.map(|t| t.to_string()) },
    }
}

#[test]
fn select_best_prefers_the_best_fit() {
    let found = vec![
        location("/a/16.png", Some(IconSize::Fixed(16)), 1, Some("hicolor")),
        location("/a/48.png", Some(IconSize::Fixed(48)), 1, Some("hicolor")),
        location("/a/32.png", Some(IconSize::Fixed(32)), 1, Some("hicolor")),
        location("/a/s.svg", Some(IconSize::Scalable), 1, Some("hicolor")),
        location("/a/unknown.png", None, 1, Some("hicolor")),
    ];
    assert_eq!(select_best(&found, 32), Some(2));
    assert_eq!(select_best(&found, 48), Some(1));
    assert_eq!(select_best(&found, 64), Some(3));
    assert_eq!(select_best(&vec![], 32), None);
    assert_eq!(choose_icon_path("icon", &found), "/a/32.png");
}

#[test]
fn select_best_breaks_ties_by_theme_then_path() {
    let found = vec![
        location("/b/icon.png", Some(IconSize::Fixed(32)), 1, Some("hicolor")),
        location("/z/icon.png", Some(IconSize::Fixed(32)), 1, Some("Adwaita")),
        location("/c/icon.png", Some(IconSize::Fixed(32)), 1, Some("Adwaita")),
        location("/a/icon.png", Some(IconSize::Fixed(32)), 1, Some("hicolor")),
    ];
    assert_eq!(select_best(&found, 32), Some(2));
    // No theme sorts before any theme.
    let found = vec![
        location("/b/icon.png", Some(IconSize::Fixed(32)), 1, Some("Adwaita")),
        location("/z/icon.png", Some(IconSize::Fixed(32)), 1, None),
    ];
    assert_eq!(select_best(&found, 32), Some(1));
    // A higher scale wins before theme and path are looked at.
    let found = vec![
        location("/a/icon.png", Some(IconSize::Fixed(32)), 1, None),
        location("/z/icon.png", Some(IconSize::Fixed(32)), 2, Some("zzz")),
    ];
    assert_eq!(select_best(&found, 32), Some(1));
    // Paths compare component by component.
    let found = vec![
        location("/icons/apps-extra/icon.png", None, 1, None),
        location("/icons/apps/icon.png", None, 1, None),
    ];
    assert_eq!(select_best(&found, 32), Some(1));
    // Of equal locations the first is picked.
    let found = vec![
        location("/icons/icon.png", None, 1, None),
        location("/icons/icon.png", None, 1, None),
    ];
    assert_eq!(select_best(&found, 32), Some(0));
}

#[test]
fn is_better_is_strict() {
    let a = location("/a/icon.png", Some(IconSize::Fixed(32)), 1, None);
    let b = location("/b/icon.png", Some(IconSize::Fixed(32)), 1, None);
    assert!(is_better(&a, &b, 32));
    assert!(!is_better(&b, &a, 32));
    assert!(!is_better(&a, &a, 32));
}

#[test]
fn choose_icon_path_falls_back_to_the_source() {
    assert_eq!(choose_icon_path("no-such-icon", &vec![]), "no-such-icon");
}

#[test]
fn locate_takes_an_absolute_path_as_it_is() {
    let finder = themed_finder();
    match finder.locate("/opt/app/icon.png") {
        LocateStep::Located { path, ambiguous } => {
            assert_eq!(path, "/opt/app/icon.png");
            assert!(!ambiguous);
        }
        other => panic!("{other:?}"),
    }
}

#[test]
fn locate_searches_for_a_name() {
    let mut finder = themed_finder();
    let disk = themed_disk();
    let mut stages = Vec::new();
    let mut locate = |finder: &mut IconFinder, source: &str| loop {
        match finder.locate(source) {
            LocateStep::Located { path, ambiguous } => break (path, ambiguous),
            LocateStep::Read { paths, stage } => {
                stages.push(stage);
                for path in paths {
                    let listing = disk.get(&path).cloned().unwrap_or_default();
                    finder.resolve(&path, &listing);
                }
            }
        }
    };
    // The 32 pixel icon at twice the scale is the exact fit.
    assert_eq!(
        locate(&mut finder, "firefox"),
        ("/usr/share/icons/hicolor/32x32@2x/apps/firefox.png".to_string(), false)
    );
    assert_eq!(
        locate(&mut finder, "firefo"),
        ("/usr/share/icons/hicolor/32x32@2x/apps/firefox.png".to_string(), true)
    );
    assert_eq!(locate(&mut finder, "no-such-icon"), ("no-such-icon".to_string(), true));
    assert_eq!(stages.first(), Some(&0));
    assert_eq!(stages.last(), Some(&3));
    assert!(stages.windows(2).all(|w| w[0] <= w[1]));
}
