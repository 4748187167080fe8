use sherlock::manifest::{classify_line, parse_desktop_entry, IgnoreList, Line};

fn lines(text: &str) -> Vec<String> {
    text.lines().map(|l| l.to_string()).collect()
}

fn ignore(patterns: &[&str]) -> IgnoreList {
    IgnoreList::from_lines(&patterns.iter().map(|p| p.to_string()).collect())
}

const FIREFOX: &str = "[Desktop Entry]
Version=1.0
Name=Firefox
# a comment
Name[de]=Feuerfuchs
Exec=/usr/lib/firefox/firefox %u
Icon = firefox
Terminal=false
Keywords=Internet;WWW;Browser;
Type=Application

[Desktop Action new-window]
Name=New Window
Exec=/usr/lib/firefox/firefox --new-window %u

[Desktop Action new-private-window]
Name=New Private Window
Exec=/usr/lib/firefox/firefox --private-window %u
Icon=firefox-private

[Desktop Action profile-manager]
Name=Profile Manager
";

#[test]
fn reads_the_record_of_an_entry() {
    let entry = parse_desktop_entry(&lines(FIREFOX), "/usr/share/applications/firefox.desktop", &IgnoreList::empty())
        .unwrap();
    assert_eq!(entry.name, Some("Firefox".to_string()));
    assert_eq!(entry.command, Some("/usr/lib/firefox/firefox %u".to_string()));
    assert_eq!(entry.icon, Some("firefox".to_string()));
    assert_eq!(entry.search_string, "internet;www;browser;");
    assert_eq!(entry.desktop_file, Some("/usr/share/applications/firefox.desktop".to_string()));
    assert!(!entry.terminal);
    assert_eq!(entry.priority, None);
    assert!(entry.vars.is_empty());
}

#[test]
fn reads_the_actions_of_an_entry() {
    let entry = parse_desktop_entry(&lines(FIREFOX), "firefox.desktop", &IgnoreList::empty()).unwrap();
    // the first action is committed at the next header and takes the icon of the record;
    // the second is committed once it is full; the third has no command and is lost
    assert_eq!(entry.actions.len(), 2);
    assert_eq!(entry.actions[0].name, Some("New Window".to_string()));
    assert_eq!(entry.actions[0].command, Some("/usr/lib/firefox/firefox --new-window %u".to_string()));
    assert_eq!(entry.actions[0].icon, Some("firefox".to_string()));
    assert_eq!(entry.actions[0].method, "app_launcher");
    assert!(entry.actions[0].exit);
    assert_eq!(entry.actions[1].name, Some("New Private Window".to_string()));
    assert_eq!(entry.actions[1].icon, Some("firefox-private".to_string()));
}

#[test]
fn a_valid_action_at_the_end_of_the_file_is_not_committed() {
    let text = "[Desktop Entry]\nName=A\nExec=a\n[Desktop Action x]\nName=X\nExec=x\n";
    let entry = parse_desktop_entry(&lines(text), "a.desktop", &IgnoreList::empty()).unwrap();
    assert_eq!(entry.actions.len(), 0);
    let text = "[Desktop Entry]\nName=A\nExec=a\n[Desktop Action x]\nName=X\nExec=x\n[Other]\n";
    let entry = parse_desktop_entry(&lines(text), "a.desktop", &IgnoreList::empty()).unwrap();
    assert_eq!(entry.actions.len(), 1);
    assert_eq!(entry.actions[0].icon, None);
}

#[test]
fn lines_after_a_full_action_wait_for_the_next_header() {
    let text = "[Desktop Entry]\nName=A\n[Desktop Action x]\nName=X\nExec=x\nIcon=i\nName=Y\nExec=y\n[Desktop Action z]\nName=Z\nExec=z\nIcon=j\n";
    let entry = parse_desktop_entry(&lines(text), "a.desktop", &IgnoreList::empty()).unwrap();
    let names: Vec<Option<String>> = entry.actions.iter().map(|a| a.name.clone()).collect();
    assert_eq!(names, vec![Some("X".to_string()), Some("Z".to_string())]);
}

#[test]
fn no_display_drops_the_entry() {
    for flag in ["NoDisplay=true", "nodisplay = TRUE", "Hidden=True", "  HIDDEN=true  "] {
        let text = format!("[Desktop Entry]\nName=Firefox\nExec=firefox\n{}\nIcon=firefox\n", flag);
        assert!(parse_desktop_entry(&lines(&text), "f.desktop", &IgnoreList::empty()).is_none(), "{}", flag);
    }
    for flag in ["NoDisplay=false", "Hidden=no", "NoDisplay=truee", "#NoDisplay=true"] {
        let text = format!("[Desktop Entry]\nName=Firefox\nExec=firefox\n{}\n", flag);
        assert!(parse_desktop_entry(&lines(&text), "f.desktop", &IgnoreList::empty()).is_some(), "{}", flag);
    }
}

#[test]
fn no_display_counts_in_the_entry_section_only() {
    let text = "NoDisplay=true\n[Desktop Entry]\nName=A\n[Desktop Action x]\nNoDisplay=true\nHidden=true\n";
    assert!(parse_desktop_entry(&lines(text), "a.desktop", &IgnoreList::empty()).is_some());
}

#[test]
fn terminal_and_last_name_win() {
    let text = "[Desktop Entry]\nName=First\nName=Second\nTerminal=TRUE\nExec=top\n";
    let entry = parse_desktop_entry(&lines(text), "t.desktop", &IgnoreList::empty()).unwrap();
    assert_eq!(entry.name, Some("Second".to_string()));
    assert!(entry.terminal);
    let text = "[Desktop Entry]\nName=First\nTerminal=true\nTerminal=yes\n";
    assert!(!parse_desktop_entry(&lines(text), "t.desktop", &IgnoreList::empty()).unwrap().terminal);
}

#[test]
fn lines_before_the_first_header_are_skipped() {
    let text = "Name=Ghost\nExec=ghost\n\n[Desktop Entry]\nExec=real\n";
    let entry = parse_desktop_entry(&lines(text), "g.desktop", &IgnoreList::empty()).unwrap();
    assert_eq!(entry.name, None);
    assert_eq!(entry.command, Some("real".to_string()));
}

#[test]
fn an_empty_file_is_an_empty_record() {
    let entry = parse_desktop_entry(&vec![], "e.desktop", &IgnoreList::empty()).unwrap();
    assert_eq!(entry.name, None);
    assert_eq!(entry.command, None);
    assert_eq!(entry.desktop_file, Some("e.desktop".to_string()));
    assert_eq!(entry.search_string, "");
}

#[test]
fn ignored_names_are_dropped() {
    let list = ignore(&["Fire*", "avahi-*", "exact", "[bad"]);
    assert_eq!(list.patterns, vec!["fire*", "avahi-*", "exact", "[bad"]);
    assert!(list.should_ignore("Firefox"));
    assert!(list.should_ignore("FIRE"));
    assert!(list.should_ignore("Avahi-Discover"));
    assert!(list.should_ignore("Exact"));
    assert!(!list.should_ignore("Exactly"));
    assert!(!list.should_ignore("Kitty"));
    assert!(!list.should_ignore("[bad"));
    assert!(!IgnoreList::empty().should_ignore("Firefox"));
    let text = "[Desktop Entry]\nName=Firefox\nExec=firefox\n";
    assert!(parse_desktop_entry(&lines(text), "f.desktop", &list).is_none());
    let text = "[Desktop Entry]\nName=Kitty\nExec=kitty\n";
    assert!(parse_desktop_entry(&lines(text), "k.desktop", &list).is_some());
    // an action's name is not held against the list
    let text = "[Desktop Entry]\nName=Kitty\n[Desktop Action f]\nName=Firefox\nExec=f\nIcon=f\n";
    assert!(parse_desktop_entry(&lines(text), "k.desktop", &list).is_some());
}

#[test]
fn classifies_lines() {
    assert!(matches!(classify_line(""), Line::Blank));
    assert!(matches!(classify_line("   \t "), Line::Blank));
    assert!(matches!(classify_line("  # Name=x"), Line::Blank));
    assert!(matches!(classify_line("no equals sign"), Line::Other));
    assert!(matches!(classify_line("["), Line::Other));
    match classify_line("  [Desktop Entry]  ") {
        Line::Section(name) => assert_eq!(name, "Desktop Entry"),
        other => panic!("{:?}", other),
    }
    match classify_line("[]") {
        Line::Section(name) => assert_eq!(name, ""),
        other => panic!("{:?}", other),
    }
    match classify_line(" NoDisplay = a=b ") {
        Line::Pair(key, value) => {
            assert_eq!(key, "nodisplay");
            assert_eq!(value, "a=b");
        },
        other => panic!("{:?}", other),
    }
    match classify_line("=") {
        Line::Pair(key, value) => {
            assert_eq!(key, "");
            assert_eq!(value, "");
        },
        other => panic!("{:?}", other),
    }
    match classify_line("Name[de]=Größe") {
        Line::Pair(key, value) => {
            assert_eq!(key, "name[de]");
            assert_eq!(value, "Größe");
        },
        other => panic!("{:?}", other),
    }
}

#[test]
fn keywords_are_lowercased_by_the_unicode_rules() {
    let text = "[Desktop Entry]\nName=Ä\nKeywords=ÄÖÜ;Straße\n";
    let entry = parse_desktop_entry(&lines(text), "a.desktop", &IgnoreList::empty()).unwrap();
    assert_eq!(entry.search_string, "äöü;straße");
}
