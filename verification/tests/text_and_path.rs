use ignition::path::{
    entry_name, extension, file_name, file_stem, is_absolute, join, path_extension,
};
use ignition::search::SearchQuery;
use ignition::text::{
    char_rank, contains, find_char, lex_less_exec, matches_at, parse_u16, split, str_contains,
    to_chars,
};

fn chars(s: &str) -> Vec<char> {
    s.chars().collect()
}

#[test]
fn to_chars_keeps_every_character() {
    assert_eq!(to_chars("a/é✓"), vec!['a', '/', 'é', '✓']);
    assert_eq!(to_chars(""), Vec::<char>::new());
}

#[test]
fn find_char_gives_the_first_position() {
    assert_eq!(find_char(&chars("a@b@c"), '@', 0), 1);
    assert_eq!(find_char(&chars("a@b@c"), '@', 2), 3);
    assert_eq!(find_char(&chars("abc"), '@', 0), 3);
    assert_eq!(find_char(&chars(""), '@', 0), 0);
}

#[test]
fn contains_finds_substrings() {
    assert!(str_contains("firefox-esr", "fox"));
    assert!(str_contains("firefox", "firefox"));
    assert!(str_contains("firefox", ""));
    assert!(str_contains("", ""));
    assert!(!str_contains("firefox", "foxy"));
    assert!(!str_contains("fox", "firefox"));
    assert!(!str_contains("", "a"));
    assert!(contains(&chars("aab"), &chars("ab")));
    assert!(matches_at(&chars("aab"), &chars("ab"), 1));
    assert!(!matches_at(&chars("aab"), &chars("ab"), 0));
}

#[test]
fn parse_u16_reads_decimal_numbers() {
    let parse = |s: &str| {
        let c = chars(s);
        parse_u16(&c, 0, c.len())
    };
    assert_eq!(parse("0"), Some(0));
    assert_eq!(parse("32"), Some(32));
    assert_eq!(parse("+32"), Some(32));
    assert_eq!(parse("00032"), Some(32));
    assert_eq!(parse("65535"), Some(65535));
    assert_eq!(parse("65536"), None);
    assert_eq!(parse("99999999999999999999"), None);
    assert_eq!(parse(""), None);
    assert_eq!(parse("+"), None);
    assert_eq!(parse("-1"), None);
    assert_eq!(parse("1a"), None);
    assert_eq!(parse(" 1"), None);
    assert_eq!(parse("١"), None);
    let c = chars("ab12cd");
    assert_eq!(parse_u16(&c, 2, 4), Some(12));
}

#[test]
fn text_order_is_by_character() {
    assert!(lex_less_exec(&chars("a"), &chars("b"), false));
    assert!(lex_less_exec(&chars("a"), &chars("ab"), false));
    assert!(lex_less_exec(&chars(""), &chars("a"), false));
    assert!(!lex_less_exec(&chars("a"), &chars("a"), false));
    assert!(!lex_less_exec(&chars("b"), &chars("a"), false));
    assert!(lex_less_exec(&chars("a-b"), &chars("a/b"), false));
}

#[test]
fn path_order_is_by_component() {
    // As text `a-b` sorts before `a/b`; as paths the shorter component wins.
    assert!(lex_less_exec(&chars("a/b"), &chars("a-b"), true));
    assert!(!lex_less_exec(&chars("a-b"), &chars("a/b"), true));
    assert!(lex_less_exec(&chars("/usr/share/icons/a.png"), &chars("/usr/share/icons/b.png"), true));
    assert!(lex_less_exec(&chars("/usr/share"), &chars("/usr/share/icons"), true));
    assert_eq!(char_rank('/', true), 0);
    assert_eq!(char_rank('/', false), 48);
    assert_eq!(char_rank('a', true), 98);
}

#[test]
fn split_gives_one_piece_more_than_separators() {
    assert_eq!(split("a b", ' '), vec!["a", "b"]);
    assert_eq!(split("a  b ", ' '), vec!["a", "", "b", ""]);
    assert_eq!(split("", ' '), vec![""]);
    assert_eq!(split("abc", ' '), vec!["abc"]);
    assert_eq!(split("Utility;Settings;", ';'), vec!["Utility", "Settings", ""]);
}

#[test]
fn search_query_keeps_the_text_and_its_words() {
    let q = SearchQuery::from("fire fox".to_string());
    assert_eq!(q.text, "fire fox");
    assert_eq!(q.parts, vec!["fire", "fox"]);
    let q = SearchQuery::from("".to_string());
    assert_eq!(q.text, "");
    assert_eq!(q.parts, vec![""]);
}

#[test]
fn join_puts_one_separator_between() {
    assert_eq!(join("/usr/share/icons", "hicolor"), "/usr/share/icons/hicolor");
    assert_eq!(join("/usr/share/icons/", "hicolor"), "/usr/share/icons/hicolor");
    assert_eq!(join("", "hicolor"), "hicolor");
    assert_eq!(join("/", "usr"), "/usr");
}

#[test]
fn file_name_is_the_final_component() {
    assert_eq!(file_name("/usr/share/icons"), Some("icons".to_string()));
    assert_eq!(file_name("/usr/share/icons/"), Some("icons".to_string()));
    assert_eq!(file_name("icons"), Some("icons".to_string()));
    assert_eq!(file_name("/usr/bin/foo.txt"), Some("foo.txt".to_string()));
    assert_eq!(file_name("/"), None);
    assert_eq!(file_name(""), None);
    assert_eq!(file_name("/usr/.."), None);
    assert_eq!(file_name("."), None);
}

#[test]
fn stem_and_extension_divide_at_the_last_dot() {
    assert_eq!(file_stem("foo.png"), "foo");
    assert_eq!(extension("foo.png"), Some("png".to_string()));
    assert_eq!(file_stem("foo.tar.gz"), "foo.tar");
    assert_eq!(extension("foo.tar.gz"), Some("gz".to_string()));
    assert_eq!(file_stem("foo"), "foo");
    assert_eq!(extension("foo"), None);
    assert_eq!(file_stem(".bashrc"), ".bashrc");
    assert_eq!(extension(".bashrc"), None);
    assert_eq!(file_stem("foo."), "foo");
    assert_eq!(extension("foo."), Some("".to_string()));
    assert_eq!(file_stem(".."), "..");
    assert_eq!(extension(".."), None);
    assert_eq!(path_extension("/usr/share/pixmaps/foo.svg"), "svg");
    assert_eq!(path_extension("/usr/share.d/pixmaps/foo"), "");
}

#[test]
fn entry_names_hold_no_separator() {
    assert!(entry_name("firefox.png"));
    assert!(entry_name(".."));
    assert!(!entry_name(""));
    assert!(!entry_name("a/b"));
    assert!(!entry_name("/"));
}

#[test]
fn absolute_paths_start_at_the_root() {
    assert!(is_absolute("/usr/share/icons/foo.png"));
    assert!(!is_absolute("firefox"));
    assert!(!is_absolute(""));
}

#[test]
fn join_lets_a_name_from_the_root_stand_for_itself() {
    assert_eq!(join("/usr/share/icons", "/opt/app/icon.png"), "/opt/app/icon.png");
    assert_eq!(join("", "/opt"), "/opt");
    assert_eq!(join("/usr", "/"), "/");
    assert_eq!(join("/usr", ""), "/usr/");
    assert_eq!(join("/usr", "share/icons"), "/usr/share/icons");
    assert_eq!(
        std::path::Path::new("/usr/share/icons").join("/opt/app/icon.png").to_str(),
        Some("/opt/app/icon.png")
    );
    assert_eq!(std::path::Path::new("/usr").join("").to_str(), Some("/usr/"));
}
