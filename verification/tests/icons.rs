use sherlock::errors::SherlockErrorType;
use sherlock::icons::{CustomIconTheme, IconEntry, IconThemeGuard};

fn icon(name: &str, path: Option<&str>) -> IconEntry {
    IconEntry { name: name.to_string(), path: path.map(|p| p.to_string()) }
}

#[test]
fn the_first_path_of_a_name_stays() {
    let mut theme = CustomIconTheme::new();
    assert_eq!(theme.lookup_icon("firefox"), None);
    theme.add_path(&vec![
        icon("firefox", Some("/icons/firefox.png")),
        icon("kitty", Some("/icons/kitty.svg")),
        icon("firefox", Some("/icons/sub/firefox.svg")),
    ]);
    theme.add_path(&vec![icon("kitty", Some("/other/kitty.png")), icon("vim", Some("/other/vim.png"))]);
    assert_eq!(theme.lookup_icon("firefox"), Some(Some("/icons/firefox.png".to_string())));
    assert_eq!(theme.lookup_icon("kitty"), Some(Some("/icons/kitty.svg".to_string())));
    assert_eq!(theme.lookup_icon("vim"), Some(Some("/other/vim.png".to_string())));
    assert_eq!(theme.lookup_icon("Firefox"), None);
}

#[test]
fn what_a_name_resolved_to_is_remembered() {
    let mut theme = CustomIconTheme::new();
    theme.insert("missing", None);
    assert_eq!(theme.lookup_icon("missing"), Some(None));
    theme.insert("missing", Some("/found.png".to_string()));
    assert_eq!(theme.lookup_icon("missing"), Some(Some("/found.png".to_string())));
    theme.add_path(&vec![icon("missing", Some("/late.png"))]);
    assert_eq!(theme.lookup_icon("missing"), Some(Some("/found.png".to_string())));
}

#[test]
fn icon_files_are_told_by_their_extension() {
    assert_eq!(CustomIconTheme::icon_name("firefox.png"), Some("firefox".to_string()));
    assert_eq!(CustomIconTheme::icon_name("firefox.SVG"), Some("firefox".to_string()));
    assert_eq!(CustomIconTheme::icon_name("a.b.Png"), Some("a.b".to_string()));
    assert_eq!(CustomIconTheme::icon_name("firefox.jpg"), None);
    assert_eq!(CustomIconTheme::icon_name("firefoxpng"), None);
    assert_eq!(CustomIconTheme::icon_name(".png"), None);
    assert_eq!(CustomIconTheme::icon_name("png"), None);
    assert_eq!(CustomIconTheme::icon_name(""), None);
    assert_eq!(CustomIconTheme::icon_name("größe.svg"), Some("größe".to_string()));
}

#[test]
fn the_directory_to_scan() {
    assert_eq!(CustomIconTheme::scan_dir("~/icons", Some("/home/u")), Some("/home/u/icons".to_string()));
    assert_eq!(CustomIconTheme::scan_dir("/usr/icons", Some("/home/u")), Some("/usr/icons".to_string()));
    assert_eq!(CustomIconTheme::scan_dir("/usr/icons", None), Some("/usr/icons".to_string()));
    assert_eq!(CustomIconTheme::scan_dir("~/icons", None), None);
    assert_eq!(CustomIconTheme::scan_dir("~icons", None), Some("~icons".to_string()));
}

#[test]
fn the_guard_fails_until_the_theme_is_set_up() {
    let mut guard = IconThemeGuard::new();
    match guard.lookup_icon("firefox") {
        Err(e) => assert!(matches!(e.error, SherlockErrorType::ConfigError(None))),
        Ok(_) => panic!(),
    }
    assert!(guard.add_path(&vec![icon("firefox", Some("/f.png"))]).is_err());
    guard.set(CustomIconTheme::new());
    assert_eq!(guard.lookup_icon("firefox").unwrap(), None);
    assert!(guard.add_path(&vec![icon("firefox", Some("/f.png"))]).is_ok());
    assert_eq!(guard.lookup_icon("firefox").unwrap(), Some(Some("/f.png".to_string())));
}

#[test]
fn the_guard_remembers_what_a_name_resolved_to() {
    let mut guard = IconThemeGuard::new();
    let refused = guard.insert("firefox", Some("/icons/firefox.png".to_string()));
    assert!(matches!(refused.unwrap_err().error, SherlockErrorType::ConfigError(None)));
    guard.set(CustomIconTheme::new());
    assert!(guard.insert("firefox", None).is_ok());
    assert_eq!(guard.lookup_icon("firefox").unwrap(), Some(None));
    assert!(guard.insert("firefox", Some("/icons/firefox.png".to_string())).is_ok());
    assert_eq!(guard.lookup_icon("firefox").unwrap(), Some(Some("/icons/firefox.png".to_string())));
    assert_eq!(guard.lookup_icon("kitty").unwrap(), None);
}
