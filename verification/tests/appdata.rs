use sherlock::appdata::{
    construct_search, AppData, ApplicationAction, ExecVariable, SherlockAlias,
};
use sherlock::launcher::{
    AppLauncher, BookmarkLauncher, CalculatorLauncher, CategoryLauncher, CommandLauncher, ExecMode,
    Launcher, LauncherType, WebLauncher,
};
use sherlock::config::HomeType;
use sherlock::text::opt_text_eq;

fn launcher(kind: LauncherType) -> Launcher {
    Launcher {
        name: Some("Apps".to_string()),
        display_name: Some("Application".to_string()),
        icon: None,
        alias: None,
        tag_end: None,
        method: "app_launcher".to_string(),
        exit: true,
        next_content: None,
        priority: 1,
        is_async: false,
        home: HomeType::default(),
        launcher_type: kind,
        shortcut: true,
        spawn_focus: true,
        actions: None,
        add_actions: None,
    }
}

fn alias() -> SherlockAlias {
    SherlockAlias {
        name: None,
        icon: None,
        command: None,
        keywords: None,
        actions: None,
        add_actions: None,
        variables: None,
    }
}

fn action(name: &str, icon: Option<&str>) -> ApplicationAction {
    let mut a = ApplicationAction::new("command");
    a.name = Some(name.to_string());
    a.command = Some(name.to_lowercase());
    a.icon = icon.map(|i| i.to_string());
    a
}

fn record() -> AppData {
    let mut data = AppData::new();
    data.name = Some("Firefox".to_string());
    data.command = Some("firefox %u".to_string());
    data.icon = Some("/icons/firefox.png".to_string());
    data.search_string = "web;browser".to_string();
    data.desktop_file = Some("/usr/share/applications/firefox.desktop".to_string());
    data.actions = vec![action("Window", None)];
    data.vars = vec![ExecVariable::StringInput("url".to_string())];
    data
}

#[test]
fn search_keys() {
    assert_eq!(construct_search(Some("Firefox"), "Web;Browser", true), "firefox;web;browser");
    assert_eq!(construct_search(Some("Firefox"), "Web;Browser", false), "firefox");
    assert_eq!(construct_search(None, "Web", true), ";web");
    assert_eq!(construct_search(None, "Web", false), "");
    assert_eq!(construct_search(Some(""), "", true), ";");
    // only ASCII letters are lowercased
    assert_eq!(construct_search(Some("ÄBC"), "ÖX", true), "Äbc;Öx");
}

#[test]
fn new_values() {
    let data = AppData::new();
    assert_eq!(data.name, None);
    assert_eq!(data.command, None);
    assert_eq!(data.search_string, "");
    assert_eq!(data.priority, None);
    assert_eq!(data.icon, None);
    assert_eq!(data.desktop_file, None);
    assert!(data.actions.is_empty());
    assert!(data.vars.is_empty());
    assert!(!data.terminal);
    let a = ApplicationAction::new("app_launcher");
    assert_eq!(a.method, "app_launcher");
    assert!(a.exit);
    assert!(!a.is_valid());
    assert!(!a.is_full());
}

#[test]
fn valid_and_full_actions() {
    let mut a = ApplicationAction::new("command");
    a.name = Some("n".to_string());
    assert!(!a.is_valid());
    a.command = Some("e".to_string());
    assert!(a.is_valid());
    assert!(!a.is_full());
    a.icon = Some("i".to_string());
    assert!(a.is_valid());
    assert!(a.is_full());
    a.name = None;
    assert!(!a.is_valid());
    assert!(!a.is_full());
}

#[test]
fn records_are_the_same_by_command_and_file() {
    let a = record();
    let mut b = record();
    b.name = Some("Other".to_string());
    b.search_string = "other".to_string();
    b.terminal = true;
    assert!(a.same_key(&b));
    b.command = Some("firefox".to_string());
    assert!(!a.same_key(&b));
    let mut c = record();
    c.desktop_file = None;
    assert!(!a.same_key(&c));
    assert!(c.same_key(&c.clone()));
    assert!(opt_text_eq(&None, &None));
    assert!(!opt_text_eq(&Some("a".to_string()), &None));
    assert!(opt_text_eq(&Some("a".to_string()), &Some("a".to_string())));
}

#[test]
fn clones_are_equal() {
    let a = record();
    let b = a.clone();
    assert_eq!(b.name, a.name);
    assert_eq!(b.actions.len(), 1);
    assert_eq!(b.actions[0].name, Some("Window".to_string()));
    assert_eq!(b.vars.len(), 1);
    assert_eq!(b.vars[0].placeholder(), "url");
    assert_eq!(ExecVariable::PasswordInput("secret".to_string()).clone().placeholder(), "secret");
}

#[test]
fn without_an_alias_only_the_search_key_changes() {
    let mut data = record();
    data.apply_alias(Some("Application"), None, Some("ignored".to_string()), true);
    assert_eq!(data.search_string, "firefox;web;browser");
    assert_eq!(data.name, Some("Firefox".to_string()));
    assert_eq!(data.icon, Some("/icons/firefox.png".to_string()));
    assert_eq!(data.actions.len(), 1);
    assert_eq!(data.actions[0].icon, None);
    let mut nameless = AppData::new();
    nameless.search_string = "kw".to_string();
    nameless.apply_alias(Some("Application"), None, None, true);
    assert_eq!(nameless.search_string, "application;kw");
    nameless.apply_alias(None, None, None, false);
    assert_eq!(nameless.search_string, "");
}

#[test]
fn an_alias_overlays_the_record() {
    let mut data = record();
    let mut a = alias();
    a.name = Some("Fox".to_string());
    a.icon = Some("fox".to_string());
    a.command = Some("fox %u".to_string());
    a.keywords = Some("Den".to_string());
    a.add_actions = Some(vec![action("Added", None), action("Own", Some("/own.png"))]);
    a.variables = Some(vec![ExecVariable::PasswordInput("pw".to_string())]);
    data.apply_alias(Some("Application"), Some(a), Some("/icons/fox.png".to_string()), true);
    assert_eq!(data.name, Some("Fox".to_string()));
    assert_eq!(data.icon, Some("/icons/fox.png".to_string()));
    assert_eq!(data.command, Some("fox %u".to_string()));
    assert_eq!(data.search_string, "fox;den");
    let names: Vec<(Option<String>, Option<String>)> =
        data.actions.iter().map(|a| (a.name.clone(), a.icon.clone())).collect();
    assert_eq!(
        names,
        vec![
            (Some("Window".to_string()), None),
            (Some("Added".to_string()), Some("/icons/fox.png".to_string())),
            (Some("Own".to_string()), Some("/own.png".to_string())),
        ]
    );
    assert_eq!(data.vars.len(), 2);
    assert_eq!(data.vars[1].placeholder(), "pw");
    assert_eq!(data.desktop_file, Some("/usr/share/applications/firefox.desktop".to_string()));
}

#[test]
fn the_actions_of_an_alias_replace_all_others() {
    let mut data = record();
    let mut a = alias();
    a.add_actions = Some(vec![action("Added", None)]);
    a.actions = Some(vec![action("Only", None)]);
    data.apply_alias(None, Some(a), None, false);
    assert_eq!(data.actions.len(), 1);
    assert_eq!(data.actions[0].name, Some("Only".to_string()));
    assert_eq!(data.actions[0].icon, Some("/icons/firefox.png".to_string()));
    // an alias without fields keeps the record, but for its search key
    assert_eq!(data.search_string, "firefox");
    assert_eq!(data.name, Some("Firefox".to_string()));
}

#[test]
fn an_icon_of_an_alias_that_resolves_to_nothing_removes_the_icon() {
    let mut data = record();
    let mut a = alias();
    a.icon = Some("missing".to_string());
    data.apply_alias(None, Some(a), None, true);
    assert_eq!(data.icon, None);
}

#[test]
fn what_is_counted() {
    let data = record();
    assert_eq!(data.get_exec(&launcher(LauncherType::App(AppLauncher { use_keywords: true }))), Some("firefox %u".to_string()));
    assert_eq!(data.get_exec(&launcher(LauncherType::Command(CommandLauncher {}))), Some("firefox %u".to_string()));
    assert_eq!(data.get_exec(&launcher(LauncherType::Category(CategoryLauncher {}))), Some("firefox %u".to_string()));
    assert_eq!(
        data.get_exec(&launcher(LauncherType::Web(WebLauncher { engine: "google".to_string(), browser: None }))),
        Some("websearch-google".to_string())
    );
    assert_eq!(data.get_exec(&launcher(LauncherType::Calc(CalculatorLauncher {}))), None);
    assert_eq!(data.get_exec(&launcher(LauncherType::Empty)), None);
    assert_eq!(data.get_exec(&launcher(LauncherType::default())), None);
}

#[test]
fn what_running_a_record_means() {
    let mut data = record();
    data.terminal = true;
    let l = launcher(LauncherType::App(AppLauncher { use_keywords: true }));
    match ExecMode::from_appdata(&data, &l) {
        ExecMode::App { command, terminal } => {
            assert_eq!(command, "firefox %u");
            assert!(terminal);
        },
        other => panic!("{:?}", other),
    }
    let l = launcher(LauncherType::Command(CommandLauncher {}));
    let empty = AppData::new();
    match ExecMode::from_appdata(&empty, &l) {
        ExecMode::Commmand { command } => assert_eq!(command, ""),
        other => panic!("{:?}", other),
    }
    let l = launcher(LauncherType::Bookmark(BookmarkLauncher { target_browser: "firefox".to_string() }));
    match ExecMode::from_appdata(&data, &l) {
        ExecMode::Web { engine, browser, command } => {
            assert_eq!(engine, None);
            assert_eq!(browser, Some("firefox"));
            assert_eq!(command, Some("firefox %u"));
        },
        other => panic!("{:?}", other),
    }
    let l = launcher(LauncherType::Web(WebLauncher { engine: "bing".to_string(), browser: None }));
    match ExecMode::from_appdata(&empty, &l) {
        ExecMode::Web { engine, browser, command } => {
            assert_eq!(engine, Some("bing"));
            assert_eq!(browser, None);
            assert_eq!(command, None);
        },
        other => panic!("{:?}", other),
    }
    let l = launcher(LauncherType::Calc(CalculatorLauncher {}));
    assert!(matches!(ExecMode::from_appdata(&data, &l), ExecMode::Nothing));
}

#[test]
fn what_running_an_action_means() {
    let l = launcher(LauncherType::Empty);
    let a = action("Window", None);
    match ExecMode::from_app_action(&a, &l) {
        ExecMode::Commmand { command } => assert_eq!(command, "window"),
        other => panic!("{:?}", other),
    }
    let mut b = ApplicationAction::new("app_launcher");
    match ExecMode::from_app_action(&b, &l) {
        ExecMode::Commmand { command } => assert_eq!(command, ""),
        other => panic!("{:?}", other),
    }
    b.method = "web".to_string();
    assert!(matches!(ExecMode::from_app_action(&b, &l), ExecMode::Nothing));
}
