use sherlock::errors::SherlockErrorType;
use sherlock::launcher::bookmark_launcher::{
    parse_bookmarks, process_bookmark, Browser, ChromeBookmark, MozillaSqliteParser,
};
use sherlock::launcher::BookmarkLauncher;
use sherlock::priority::Priority;

fn link(name: &str, url: &str) -> ChromeBookmark {
    ChromeBookmark { name: name.to_string(), kind: "url".to_string(), children: None, url: Some(url.to_string()) }
}

fn folder(name: &str, children: Vec<ChromeBookmark>) -> ChromeBookmark {
    ChromeBookmark { name: name.to_string(), kind: "folder".to_string(), children: Some(children), url: None }
}

#[test]
fn browsers_are_known_by_name_or_command() {
    assert_eq!(BookmarkLauncher::find_bookmarks("zen").unwrap(), Browser::Zen);
    assert_eq!(BookmarkLauncher::find_bookmarks("Zen-Browser").unwrap(), Browser::Zen);
    assert_eq!(BookmarkLauncher::find_bookmarks("/opt/zen-browser-bin/zen-bin %u").unwrap(), Browser::Zen);
    assert_eq!(BookmarkLauncher::find_bookmarks("BRAVE").unwrap(), Browser::Brave);
    assert_eq!(BookmarkLauncher::find_bookmarks("brave %u").unwrap(), Browser::Brave);
    assert_eq!(BookmarkLauncher::find_bookmarks("Firefox").unwrap(), Browser::Firefox);
    assert_eq!(BookmarkLauncher::find_bookmarks("/usr/lib/firefox/firefox %u").unwrap(), Browser::Firefox);
    assert_eq!(BookmarkLauncher::find_bookmarks("chrome").unwrap(), Browser::Chrome);
    assert_eq!(BookmarkLauncher::find_bookmarks("google-chrome").unwrap(), Browser::Chrome);
    assert_eq!(BookmarkLauncher::find_bookmarks("/usr/bin/google-chrome-stable %u").unwrap(), Browser::Chrome);
    assert_eq!(BookmarkLauncher::find_bookmarks("thorium").unwrap(), Browser::Thorium);
    assert_eq!(BookmarkLauncher::find_bookmarks("/usr/bin/thorium-browser %u").unwrap(), Browser::Thorium);
}

#[test]
fn an_unknown_browser_is_an_error() {
    match BookmarkLauncher::find_bookmarks("Netscape") {
        Err(e) => {
            assert!(matches!(e.error, SherlockErrorType::UnsupportedBrowser(ref b) if b == "Netscape"));
            assert_eq!(e.traceback, "The browser \"<i>Netscape</i>\" is either not supported or not recognized.");
        },
        Ok(b) => panic!("{:?}", b),
    }
    assert!(BookmarkLauncher::find_bookmarks("").is_err());
    assert!(BookmarkLauncher::find_bookmarks("firefox ").is_err());
}

#[test]
fn where_browsers_keep_their_bookmarks() {
    assert_eq!(
        Browser::Brave.bookmark_file("/home/u"),
        Some("/home/u/.config/BraveSoftware/Brave-Browser/Default/Bookmarks".to_string())
    );
    assert_eq!(Browser::Thorium.bookmark_file("/home/u"), Some("/home/u/.config/thorium/Default/Bookmarks".to_string()));
    assert_eq!(Browser::Chrome.bookmark_file("/home/u/"), Some("/home/u/.config/google-chrome/Default/Bookmarks".to_string()));
    assert_eq!(Browser::Zen.bookmark_file("/home/u"), None);
    assert_eq!(Browser::Firefox.bookmark_file("/home/u"), None);
    let zen = Browser::Zen.profiles_dir("/home/u").unwrap();
    assert_eq!((zen.dir.as_str(), zen.prefix.as_str()), ("/home/u/.zen", "zen"));
    let firefox = Browser::Firefox.profiles_dir("/home/u").unwrap();
    assert_eq!((firefox.dir.as_str(), firefox.prefix.as_str()), ("/home/u/.mozilla/firefox/", "firefox"));
    assert!(Browser::Chrome.profiles_dir("/home/u").is_none());
}

#[test]
fn the_database_is_read_from_a_copy() {
    assert_eq!(
        MozillaSqliteParser::new("/home/u/.zen/p/places.sqlite", Some("/home/u/.cache/sherlock"), "zen").path,
        "/home/u/.cache/sherlock/bookmarks/zen-places.sqlite"
    );
    assert_eq!(
        MozillaSqliteParser::new("/home/u/.zen/p/places.sqlite", None, "zen").path,
        "/home/u/.zen/p/places.sqlite"
    );
    assert_eq!(MozillaSqliteParser::cache_file("/c", "firefox"), "/c/bookmarks/firefox-cache.bin");
}

#[test]
fn the_copy_is_made_again_when_the_source_is_newer() {
    assert!(MozillaSqliteParser::should_update_cache(false, Some(1), Some(2)));
    assert!(MozillaSqliteParser::should_update_cache(true, Some(3), Some(2)));
    assert!(!MozillaSqliteParser::should_update_cache(true, Some(2), Some(2)));
    assert!(!MozillaSqliteParser::should_update_cache(true, Some(1), Some(2)));
    assert!(MozillaSqliteParser::should_update_cache(true, None, Some(2)));
    assert!(MozillaSqliteParser::should_update_cache(true, Some(1), None));
}

#[test]
fn the_record_of_a_bookmark() {
    let icon = Some("/icons/bookmark.png".to_string());
    let priority = Priority::from_bits(3.0f32.to_bits());
    let record = BookmarkLauncher::bookmark("Rust Book", "https://doc.rust-lang.org/book", &icon, priority);
    assert_eq!(record.name, Some("Rust Book".to_string()));
    assert_eq!(record.command, Some("https://doc.rust-lang.org/book".to_string()));
    assert_eq!(record.search_string, "rust book;https://doc.rust-lang.org/book");
    assert_eq!(record.icon, icon);
    assert_eq!(record.priority, Some(priority));
    assert_eq!(record.desktop_file, None);
    assert!(record.actions.is_empty() && record.vars.is_empty() && !record.terminal);
}

#[test]
fn bookmarks_are_gathered_depth_first() {
    let bar = folder(
        "bar",
        vec![
            link("A", "https://a"),
            folder("sub", vec![link("B", "https://b"), folder("empty", vec![]), link("C", "https://c")]),
            ChromeBookmark { name: "no address".to_string(), kind: "url".to_string(), children: None, url: None },
            ChromeBookmark { name: "other".to_string(), kind: "separator".to_string(), children: None, url: Some("x".to_string()) },
            ChromeBookmark { name: "no children".to_string(), kind: "folder".to_string(), children: None, url: Some("x".to_string()) },
            link("D", "https://d"),
        ],
    );
    let other = folder("other", vec![link("E", "https://e")]);
    let priority = Priority::from_u32(2);
    let records = parse_bookmarks(&vec![bar, other], &None, priority);
    let names: Vec<String> = records.iter().map(|r| r.name.clone().unwrap()).collect();
    assert_eq!(names, vec!["A", "B", "C", "D", "E"]);
    assert_eq!(records[1].command, Some("https://b".to_string()));
    let mut more = records;
    process_bookmark(&mut more, &link("F", "https://f"), &None, priority);
    assert_eq!(more.len(), 6);
    assert_eq!(more[5].search_string, "f;https://f");
}
