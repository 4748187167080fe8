use sherlock::appdata::{AppData, SherlockAlias};
use sherlock::desktop_files::{
    get_applications_dir, get_desktop_files, is_local_dir, split, xdg_application_dirs, DesktopFile,
};
use sherlock::errors::SherlockErrorType;
use sherlock::indexer::{
    file_has_changed, AliasEntry, EntryFile, FileOutcome, LoadPlan, Loader, PathHelpers,
};
use sherlock::manifest::IgnoreList;
use sherlock::usage::UsageTable;
use std::collections::HashSet;

fn file(stem: &str, path: &str) -> DesktopFile {
    DesktopFile { stem: stem.to_string(), path: path.to_string() }
}

fn entry(path: &str, text: &str) -> EntryFile {
    EntryFile { path: path.to_string(), lines: Some(text.lines().map(|l| l.to_string()).collect()) }
}

fn cached(path: Option<&str>, name: &str) -> AppData {
    let mut data = AppData::new();
    data.name = Some(name.to_string());
    data.desktop_file = path.map(|p| p.to_string());
    data
}

fn no_alias() -> SherlockAlias {
    SherlockAlias {
        name: None,
        icon: None,
        command: None,
        keywords: None,
        actions: None,
        add_actions: None,
        variables: None,
    }
}

#[test]
fn test_get_applications_dir() {
    // Test input path
    let test_path = Some("/home/cinnamon/.local/share/flatpak/exports/share:/var/lib/flatpak/exports/share:/home/cinnamon/.nix-profile/share:/nix/profile/share:/home/cinnamon/.local/state/nix/profile/share:/etc/profiles/per-user/cinnamon/share:/nix/var/nix/profiles/default/share:/run/current-system/sw/share".to_string());

    // Compute result based on input path
    let res: HashSet<String> = match test_path {
        Some(path) => xdg_application_dirs(&path).into_iter().collect(),
        _ => HashSet::from(["/usr/share/applications/".to_string()]),
    };

    // Manually insert the paths into HashSet for expected result
    let expected_app_dirs: HashSet<String> = HashSet::from([
        "/home/cinnamon/.local/share/flatpak/exports/share/applications/".to_string(),
        "/var/lib/flatpak/exports/share/applications/".to_string(),
        "/home/cinnamon/.nix-profile/share/applications/".to_string(),
        "/nix/profile/share/applications/".to_string(),
        "/home/cinnamon/.local/state/nix/profile/share/applications/".to_string(),
        "/etc/profiles/per-user/cinnamon/share/applications/".to_string(),
        "/nix/var/nix/profiles/default/share/applications/".to_string(),
        "/run/current-system/sw/share/applications/".to_string(),
    ]);

    // Assert that the result matches the expected HashSet
    assert_eq!(res, expected_app_dirs);
}

#[test]
fn applications_dirs_are_listed_once() {
    let dirs = get_applications_dir(
        Some("/usr/share:/opt/share/:/usr/share"),
        Some("/home/u"),
        &vec!["~/apps/".to_string(), "/usr/share/applications/".to_string()],
    );
    assert_eq!(
        dirs,
        vec![
            "/usr/share/applications/",
            "/home/u/.local/share/applications/",
            "/home/u/apps/",
            "/opt/share/applications/",
        ]
    );
    let dirs = get_applications_dir(None, None, &vec![]);
    assert_eq!(dirs, vec!["/usr/share/applications/", "~/.local/share/applications/"]);
}

#[test]
fn split_keeps_empty_pieces() {
    assert_eq!(split("a:b", ':'), vec!["a", "b"]);
    assert_eq!(split("", ':'), vec![""]);
    assert_eq!(split(":a::", ':'), vec!["", "a", "", ""]);
    assert_eq!(xdg_application_dirs(""), vec!["applications/"]);
}

#[test]
fn the_local_directory_is_told_apart() {
    assert!(is_local_dir("/home/u/.local/share/applications"));
    assert!(is_local_dir("/home/u/.local/share/applications/"));
    assert!(is_local_dir(".local/share/applications"));
    assert!(!is_local_dir("/usr/share/applications/"));
    assert!(!is_local_dir("/home/u/x.local/share/applications"));
    assert!(!is_local_dir("/home/u/.local/share/applications/sub"));
}

#[test]
fn the_local_entry_wins() {
    // two entries named firefox, in the system's directory and in the user's
    let system = vec![
        file("firefox", "/usr/share/applications/firefox.desktop"),
        file("kitty", "/usr/share/applications/kitty.desktop"),
    ];
    let local = vec![file("firefox", "/home/u/.local/share/applications/firefox.desktop")];
    let paths = get_desktop_files(&system, &local);
    assert_eq!(
        paths,
        vec!["/home/u/.local/share/applications/firefox.desktop", "/usr/share/applications/kitty.desktop"]
    );
    // and the record of the name is read from the local entry
    let files = vec![
        entry(&paths[0], "[Desktop Entry]\nName=Firefox\nExec=firefox --local\n"),
        entry(&paths[1], "[Desktop Entry]\nName=Kitty\nExec=kitty\n"),
    ];
    let apps =
        Loader::load_applications_from_disk(&files, &IgnoreList::empty(), &vec![], None, true, &UsageTable::new());
    let firefox: Vec<&AppData> =
        apps.iter().map(|s| &s.data).filter(|d| d.name == Some("Firefox".to_string())).collect();
    assert_eq!(firefox.len(), 1);
    assert_eq!(firefox[0].command, Some("firefox --local".to_string()));
}

#[test]
fn among_system_directories_the_later_entry_stays() {
    let system = vec![file("a", "/one/a.desktop"), file("b", "/one/b.desktop"), file("a", "/two/a.desktop")];
    assert_eq!(get_desktop_files(&system, &vec![]), vec!["/two/a.desktop", "/one/b.desktop"]);
    assert_eq!(get_desktop_files(&vec![], &vec![]), Vec::<String>::new());
    let local = vec![file("c", "/home/c.desktop")];
    assert_eq!(get_desktop_files(&vec![], &local), vec!["/home/c.desktop"]);
}

#[test]
fn a_file_has_changed_when_it_is_strictly_newer() {
    assert!(file_has_changed(Some(11), Some(10)));
    assert!(!file_has_changed(Some(10), Some(11)));
    assert!(!file_has_changed(Some(10), Some(10)));
    assert!(file_has_changed(None, Some(10)));
    assert!(file_has_changed(Some(10), None));
    assert!(file_has_changed(None, None));
    assert!(!file_has_changed(Some(0), Some(u64::MAX)));
    assert!(file_has_changed(Some(u64::MAX), Some(0)));
}

struct Stamp(Option<u64>);

impl PathHelpers for Stamp {
    fn modtime(&self) -> Option<u64> {
        self.0
    }
}

#[test]
fn paths_are_compared_by_their_times() {
    assert!(file_has_changed(Stamp(Some(2)).modtime(), Stamp(Some(1)).modtime()));
    assert!(!file_has_changed(Stamp(Some(1)).modtime(), Stamp(Some(2)).modtime()));
    assert!(file_has_changed(Stamp(None).modtime(), Stamp(Some(2)).modtime()));
}

#[test]
fn a_missing_configuration_file_is_empty() {
    let lines = vec!["fire*".to_string()];
    assert_eq!(Loader::optional_lines("/c/sherlockignore", FileOutcome::Read(lines.clone())).unwrap(), lines);
    assert_eq!(Loader::optional_lines("/c/sherlockignore", FileOutcome::NotFound).unwrap(), Vec::<String>::new());
    match Loader::optional_lines("/c/sherlockignore", FileOutcome::Failed("Permission denied".to_string())) {
        Err(e) => {
            assert!(matches!(e.error, SherlockErrorType::FileReadError(ref p) if p == "/c/sherlockignore"));
            assert_eq!(e.traceback, "Permission denied");
        },
        Ok(_) => panic!(),
    }
}

#[test]
fn cached_records_get_their_counts() {
    let mut counts = UsageTable::new();
    counts.set("firefox", 7);
    let mut a = cached(Some("/a.desktop"), "A");
    a.command = Some("firefox".to_string());
    let mut b = cached(Some("/b.desktop"), "B");
    b.command = Some("kitty".to_string());
    let c = cached(None, "C");
    assert_eq!(Loader::cached_usage(&vec![a, b, c], &counts), vec![7, 0, 0]);
}

#[test]
fn a_changed_trigger_asks_for_a_full_scan() {
    assert_eq!(Loader::load_applications(Some(100), Some(50), Some(60), Some(70)), LoadPlan::UseCache);
    assert_eq!(Loader::load_applications(Some(100), Some(100), Some(100), Some(100)), LoadPlan::UseCache);
    assert_eq!(Loader::load_applications(Some(100), Some(101), Some(60), Some(70)), LoadPlan::FullScan);
    assert_eq!(Loader::load_applications(Some(100), Some(50), Some(101), Some(70)), LoadPlan::FullScan);
    assert_eq!(Loader::load_applications(Some(100), Some(50), Some(60), Some(101)), LoadPlan::FullScan);
    assert_eq!(Loader::load_applications(None, Some(50), Some(60), Some(70)), LoadPlan::FullScan);
    assert_eq!(Loader::load_applications(Some(100), None, Some(60), Some(70)), LoadPlan::FullScan);
    assert_eq!(Loader::load_applications(Some(100), Some(50), Some(60), Some(70)), LoadPlan::UseCache);
}

#[test]
fn a_refresh_keeps_what_is_fresh_and_scans_the_rest() {
    let cache = vec![
        cached(Some("/a.desktop"), "A"),
        cached(Some("/b.desktop"), "B"),
        cached(Some("/gone.desktop"), "Gone"),
        cached(None, "Bookmark"),
        cached(Some("/c.desktop"), "C"),
        cached(Some("/d.desktop"), "D"),
    ];
    let on_disk: Vec<String> =
        ["/a.desktop", "/b.desktop", "/c.desktop", "/d.desktop", "/new.desktop"].iter().map(|p| p.to_string()).collect();
    // a was written before the cache, b after it, c at the same time, d at an unknown time
    let modtimes = vec![Some(50), Some(150), Some(10), None, Some(100), None];
    let plan = Loader::get_new_applications(cache, &on_disk, &modtimes, Some(100));
    let kept: Vec<Option<String>> = plan.kept.iter().map(|d| d.name.clone()).collect();
    assert_eq!(kept, vec![Some("A".to_string())]);
    assert_eq!(plan.to_scan, vec!["/b.desktop", "/c.desktop", "/d.desktop", "/new.desktop"]);
}

#[test]
fn without_the_time_of_the_cache_everything_is_scanned() {
    let cache = vec![cached(Some("/a.desktop"), "A")];
    let on_disk = vec!["/a.desktop".to_string()];
    let plan = Loader::get_new_applications(cache, &on_disk, &vec![Some(1)], None);
    assert!(plan.kept.is_empty());
    assert_eq!(plan.to_scan, vec!["/a.desktop"]);
    // a list of times that is too short counts as unknown times
    let cache = vec![cached(Some("/a.desktop"), "A"), cached(Some("/b.desktop"), "B")];
    let on_disk = vec!["/a.desktop".to_string(), "/b.desktop".to_string()];
    let plan = Loader::get_new_applications(cache, &on_disk, &vec![Some(1)], Some(5));
    assert_eq!(plan.kept.len(), 1);
    assert_eq!(plan.to_scan, vec!["/b.desktop"]);
}

#[test]
fn a_scan_overlays_aliases_and_looks_up_counts() {
    let mut counts = UsageTable::new();
    counts.set("firefox", 7);
    let mut alias = no_alias();
    alias.name = Some("Fox".to_string());
    alias.keywords = Some("Browser".to_string());
    let aliases = vec![AliasEntry { name: "Firefox".to_string(), alias, resolved_icon: None }];
    let files = vec![
        entry("/f.desktop", "[Desktop Entry]\nName=Firefox\nExec=firefox\nKeywords=Web\n"),
        EntryFile { path: "/unreadable.desktop".to_string(), lines: None },
        entry("/h.desktop", "[Desktop Entry]\nName=Hidden\nNoDisplay=true\n"),
        entry("/k.desktop", "[Desktop Entry]\nName=Kitty\nExec=kitty\nKeywords=Terminal\n"),
        entry("/n.desktop", "[Desktop Entry]\nExec=nameless\n"),
    ];
    let apps = Loader::load_applications_from_disk(
        &files,
        &IgnoreList::empty(),
        &aliases,
        Some("Application"),
        true,
        &counts,
    );
    assert_eq!(apps.len(), 3);
    assert_eq!(apps[0].data.name, Some("Fox".to_string()));
    assert_eq!(apps[0].data.search_string, "fox;browser");
    assert_eq!(apps[0].usage, 7);
    assert_eq!(apps[1].data.name, Some("Kitty".to_string()));
    assert_eq!(apps[1].data.search_string, "kitty;terminal");
    assert_eq!(apps[1].usage, 0);
    assert_eq!(apps[2].data.name, None);
    assert_eq!(apps[2].data.search_string, "application;");
    let single = Loader::scan_entry(&files[3], &IgnoreList::empty(), &aliases, None, false, &counts).unwrap();
    assert_eq!(single.data.search_string, "kitty");
    assert!(Loader::scan_entry(&files[1], &IgnoreList::empty(), &aliases, None, false, &counts).is_none());
}
