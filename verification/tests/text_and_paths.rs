use sherlock::paths::{desktop_stem, expand_path, join_path, path_ends_with};
use sherlock::text::{
    chars_of, eq_ignore_ascii_case, has_white_space_property, str_eq, string_of,
    to_ascii_lower_char, to_ascii_lowercase, trim_bounds,
};
use sherlock::ui::{focus_next, focus_prev, next_var, prev_var};

#[test]
fn joins() {
    assert_eq!(join_path("/a", "b"), "/a/b");
    assert_eq!(join_path("/a/", "b"), "/a/b");
    assert_eq!(join_path("", "b"), "b");
    assert_eq!(join_path("/", "b"), "/b");
    assert_eq!(join_path("/a", ""), "/a/");
    // an absolute path takes the place of the base
    assert_eq!(join_path("/a", "/b"), "/b");
    assert_eq!(join_path("", "/"), "/");
    assert_eq!(join_path("/a/", "//b"), "//b");
    assert_eq!(
        join_path("/a", "b/c"),
        std::path::PathBuf::from("/a").join("b/c").to_str().unwrap()
    );
    for (base, rel) in [
        ("/a", "b"),
        ("/a/", "b/"),
        ("", "b"),
        ("rel", "x.y"),
        ("/", "applications/"),
        ("/a", "/b"),
        ("/a/b", "/"),
        ("", "/x"),
        ("/a", ""),
    ] {
        assert_eq!(join_path(base, rel), std::path::PathBuf::from(base).join(rel).to_str().unwrap());
    }
}

#[test]
fn home_is_expanded_at_the_start_only() {
    assert_eq!(expand_path("~/x/y", "/home/u"), "/home/u/x/y");
    assert_eq!(expand_path("~/", "/home/u"), "/home/u/");
    assert_eq!(expand_path("~", "/home/u"), "~");
    assert_eq!(expand_path("~x", "/home/u"), "~x");
    assert_eq!(expand_path("/a/~/b", "/home/u"), "/a/~/b");
    assert_eq!(expand_path("", "/home/u"), "");
    // what follows the home sign is absolute: it takes the place of the home
    assert_eq!(expand_path("~//x", "/home/u"), "/x");
}

#[test]
fn ends_with_whole_components() {
    assert!(path_ends_with("/a/b/c", "b/c"));
    assert!(path_ends_with("/a/b/c/", "b/c"));
    assert!(path_ends_with("b/c", "b/c"));
    assert!(!path_ends_with("/a/xb/c", "b/c"));
    assert!(!path_ends_with("c", "b/c"));
    assert!(!path_ends_with("/a/b/c/d", "b/c"));
    assert!(!path_ends_with("", "b"));
}

#[test]
fn stems_of_desktop_entries() {
    assert_eq!(desktop_stem("firefox.desktop"), Some("firefox".to_string()));
    assert_eq!(desktop_stem("org.mozilla.firefox.desktop"), Some("org.mozilla.firefox".to_string()));
    assert_eq!(desktop_stem("firefox.Desktop"), None);
    assert_eq!(desktop_stem("firefox.desktop.bak"), None);
    assert_eq!(desktop_stem(".desktop"), None);
    assert_eq!(desktop_stem("desktop"), None);
    assert_eq!(desktop_stem(""), None);
}

#[test]
fn text_helpers() {
    assert_eq!(chars_of("aé"), vec!['a', 'é']);
    assert_eq!(string_of(&vec!['a', 'b', 'c', 'd'], 1, 3), "bc");
    assert_eq!(string_of(&vec!['a'], 1, 1), "");
    assert!(str_eq("größe", "größe"));
    assert!(!str_eq("a", "b"));
    assert!(!str_eq("a", "ab"));
    assert!(str_eq("", ""));
    assert!(eq_ignore_ascii_case("TrUe", "true"));
    assert!(!eq_ignore_ascii_case("Ä", "ä"));
    assert_eq!(to_ascii_lowercase("ABC xyz Ä"), "abc xyz Ä");
    assert_eq!(to_ascii_lower_char('Z'), 'z');
    assert_eq!(to_ascii_lower_char('A'), 'a');
    assert_eq!(to_ascii_lower_char('@'), '@');
    assert_eq!(to_ascii_lower_char('['), '[');
    let chars = chars_of(" \t a b \u{a0}\n");
    assert_eq!(trim_bounds(&chars, 0, chars.len()), (3, 6));
    assert_eq!(trim_bounds(&chars, 0, 2), (2, 2));
    assert_eq!(trim_bounds(&chars, 4, 5), (5, 5));
}

#[test]
fn the_cursor_stays_in_the_list() {
    assert_eq!(focus_next(0, 3), 1);
    assert_eq!(focus_next(1, 3), 2);
    assert_eq!(focus_next(2, 3), 2);
    assert_eq!(focus_next(0, 0), 0);
    assert_eq!(focus_next(0, 1), 0);
    assert_eq!(focus_prev(2), 1);
    assert_eq!(focus_prev(0), 0);
    // the search bar and two inputs
    assert_eq!(next_var(0, 2), 1);
    assert_eq!(next_var(1, 2), 2);
    assert_eq!(next_var(2, 2), 2);
    assert_eq!(next_var(0, 0), 0);
    assert_eq!(prev_var(2), 1);
    assert_eq!(prev_var(0), 0);
}

#[test]
fn white_space_is_what_the_standard_library_says() {
    let mut count = 0;
    for code in 0u32..=0x10ffff {
        if let Some(c) = char::from_u32(code) {
            assert_eq!(has_white_space_property(c), c.is_whitespace(), "U+{:04X}", code);
            if c.is_whitespace() {
                count += 1;
            }
        }
    }
    assert_eq!(count, 25);
    assert!(has_white_space_property(' '));
    assert!(has_white_space_property('\u{3000}'));
    assert!(!has_white_space_property('\u{200b}'));
    assert!(!has_white_space_property('a'));
}
