use sherlock::appdata::AppData;
use sherlock::assets::{starts_with, AssetPlace, Assets};
use sherlock::config::HomeType;
use sherlock::indexer::Loader;
use sherlock::launcher::children::{CalcData, RenderableChild};
use sherlock::launcher::{
    AppLauncher, CalculatorLauncher, ExecMode, Execution, Launcher, LauncherArgs, LauncherType,
    WebLauncher,
};
use sherlock::session::LauncherMode;
use sherlock::websearch::contains;
use std::sync::Arc;

fn launcher(name: Option<&str>, alias: Option<&str>, kind: LauncherType) -> Launcher {
    Launcher {
        name: name.map(|n| n.to_string()),
        display_name: None,
        icon: None,
        alias: alias.map(|a| a.to_string()),
        tag_end: None,
        method: "app_launcher".to_string(),
        exit: true,
        next_content: None,
        priority: 1,
        is_async: false,
        home: HomeType::Home,
        launcher_type: kind,
        shortcut: true,
        spawn_focus: true,
        actions: None,
        add_actions: None,
    }
}

fn calc(capabilities: &[&str]) -> CalcData {
    CalcData::new(capabilities.iter().map(|c| c.to_string()).collect())
}

fn s(text: &str) -> Option<String> {
    Some(text.to_string())
}

#[test]
fn a_calculator_shows_where_there_is_a_result() {
    let c = calc(&["calc.math", "calc.units"]);
    assert_eq!(c.based_show("1+1", s("2"), None), Some(("2".to_string(), "= 2".to_string())));
    assert_eq!(c.based_show("  1+1  ", s("2"), None), Some(("2".to_string(), "= 2".to_string())));
    // a number evaluates to itself: nothing to show
    assert_eq!(c.based_show(" 2 ", s("2"), None), None);
    assert_eq!(c.based_show("firefox", None, None), None);
    // a conversion wins over an expression
    assert_eq!(c.based_show("5m to ft", s("5"), s("16.40 ft")), Some(("16.40 ft".to_string(), "16.40 ft".to_string())));
    // an empty query shows nothing
    assert_eq!(c.based_show("", s("2"), s("x")), None);
    assert_eq!(c.based_show("   ", s("2"), s("x")), None);
}

#[test]
fn a_calculator_evaluates_what_it_may() {
    let units_only = calc(&["calc.units"]);
    assert_eq!(units_only.based_show("1+1", s("2"), None), None);
    assert_eq!(units_only.based_show("1m to cm", None, s("100 cm")), Some(("100 cm".to_string(), "100 cm".to_string())));
    assert!(units_only.can("calc.units"));
    assert!(!units_only.can("calc.math"));
    assert!(!units_only.can("calc"));
    assert_eq!(CalcData::default_capabilities(), vec!["calc.math", "calc.units"]);
}

#[test]
fn what_follows_from_running() {
    match Launcher::execute(&ExecMode::App { command: "htop", terminal: true }, "kw") {
        Execution::Spawn { command, counted } => {
            assert_eq!(command, "{terminal} htop");
            assert_eq!(counted, "htop");
        },
        other => panic!("{:?}", other),
    }
    match Launcher::execute(&ExecMode::App { command: "firefox", terminal: false }, "kw") {
        Execution::Spawn { command, counted } => {
            assert_eq!(command, "firefox");
            assert_eq!(counted, "firefox");
        },
        other => panic!("{:?}", other),
    }
    match Launcher::execute(&ExecMode::Commmand { command: "reboot" }, "kw") {
        Execution::Spawn { command, counted } => {
            assert_eq!(command, "reboot");
            assert_eq!(counted, "reboot");
        },
        other => panic!("{:?}", other),
    }
    match Launcher::execute(&ExecMode::Web { engine: None, browser: Some("brave"), command: None }, "kw") {
        Execution::Search { engine, query, browser } => {
            assert_eq!(engine, "plain");
            assert_eq!(query, "kw");
            assert_eq!(browser, Some("brave".to_string()));
        },
        other => panic!("{:?}", other),
    }
    match Launcher::execute(
        &ExecMode::Web { engine: Some("google"), browser: None, command: Some("https://x") },
        "kw",
    ) {
        Execution::Search { engine, query, browser } => {
            assert_eq!(engine, "google");
            assert_eq!(query, "https://x");
            assert_eq!(browser, None);
        },
        other => panic!("{:?}", other),
    }
    assert!(matches!(Launcher::execute(&ExecMode::Nothing, "kw"), Execution::Nothing));
}

#[test]
fn launchers_of_a_sub_menu() {
    assert!(Launcher::in_submenu(&None, "all"));
    assert!(Launcher::in_submenu(&s("pm"), "all"));
    assert!(Launcher::in_submenu(&s("pm"), "pm"));
    assert!(!Launcher::in_submenu(&s("calc"), "pm"));
    assert!(!Launcher::in_submenu(&None, "pm"));
    assert!(!Launcher::in_submenu(&s("PM"), "pm"));
}

#[test]
fn launchers_with_alias_and_name_give_modes() {
    let launchers = vec![
        launcher(Some("Apps"), None, LauncherType::Empty),
        launcher(Some("Power Menu"), Some("pm"), LauncherType::Empty),
        launcher(None, Some("nameless"), LauncherType::Empty),
        launcher(Some("Calculator"), Some("calc"), LauncherType::Calc(CalculatorLauncher {})),
    ];
    let modes = Launcher::modes_of(&launchers);
    let names: Vec<(String, String)> = modes
        .iter()
        .map(|m| match m {
            LauncherMode::Alias { short, name } => (short.clone(), name.clone()),
            _ => panic!(),
        })
        .collect();
    assert_eq!(
        names,
        vec![("pm".to_string(), "Power Menu".to_string()), ("calc".to_string(), "Calculator".to_string())]
    );
}

#[test]
fn a_first_run_counts_everything_as_unused() {
    let apps = Arc::new(launcher(Some("Apps"), None, LauncherType::App(AppLauncher { use_keywords: true })));
    let web = Arc::new(launcher(
        Some("Web"),
        None,
        LauncherType::Web(WebLauncher { engine: "google".to_string(), browser: None }),
    ));
    let calculator = Arc::new(launcher(Some("Calc"), None, LauncherType::Calc(CalculatorLauncher {})));
    let app = |l: &Arc<Launcher>, command: Option<&str>| {
        let mut inner = AppData::new();
        inner.command = command.map(|c| c.to_string());
        RenderableChild::AppLike { launcher: Arc::clone(l), inner }
    };
    let renders = vec![
        app(&apps, Some("firefox")),
        app(&apps, None),
        app(&web, None),
        app(&apps, Some("firefox")),
        app(&apps, Some("kitty")),
        RenderableChild::CalcLike { launcher: calculator, inner: calc(&[]) },
    ];
    let table = Loader::initial_counts(&renders);
    assert_eq!(
        table.to_pairs(),
        vec![("firefox".to_string(), 0), ("websearch-google".to_string(), 0), ("kitty".to_string(), 0)]
    );
}

#[test]
fn assets_are_located() {
    assert_eq!(Assets::locate(""), AssetPlace::Nothing);
    assert_eq!(Assets::locate("/usr/share/icons/x.svg"), AssetPlace::File);
    assert_eq!(Assets::locate("icons/x.svg"), AssetPlace::Embedded);
    let assets = Assets {
        names: vec!["icons/a.svg".to_string(), "fonts/b.ttf".to_string(), "icons/sub/c.svg".to_string()],
    };
    assert_eq!(assets.list("icons/"), vec!["icons/a.svg", "icons/sub/c.svg"]);
    assert_eq!(assets.list(""), vec!["icons/a.svg", "fonts/b.ttf", "icons/sub/c.svg"]);
    assert_eq!(assets.list("x"), Vec::<String>::new());
    assert!(starts_with("icons/a", "icons/"));
    assert!(starts_with("a", ""));
    assert!(!starts_with("ic", "icons"));
}

#[test]
fn texts_contain_texts() {
    assert!(contains("firefox %u", "%u"));
    assert!(contains("%u", "%u"));
    assert!(!contains("firefox", "%u"));
    assert!(!contains("%", "%u"));
    assert!(contains("abc", ""));
    assert!(contains("", ""));
    assert!(contains("aab", "ab"));
}

fn args() -> LauncherArgs {
    LauncherArgs {
        use_keywords: None,
        browser: None,
        search_engine: None,
        location: None,
        update_interval: None,
        show_datetime: None,
    }
}

#[test]
fn launchers_are_made_from_their_kind() {
    assert!(matches!(LauncherType::parse("app_launcher", &args(), None), LauncherType::App(AppLauncher { use_keywords: true })));
    let mut a = args();
    a.use_keywords = Some(false);
    assert!(matches!(LauncherType::parse("App_Launcher", &a, None), LauncherType::App(AppLauncher { use_keywords: false })));
    assert!(matches!(LauncherType::parse("calculation", &args(), None), LauncherType::Calc(_)));
    assert!(matches!(LauncherType::parse("categories", &args(), None), LauncherType::Category(_)));
    assert!(matches!(LauncherType::parse("command", &args(), None), LauncherType::Command(_)));
    assert!(matches!(LauncherType::parse("debug", &args(), None), LauncherType::Command(_)));
    assert!(matches!(LauncherType::parse("clipboard", &args(), None), LauncherType::Empty));
    assert!(matches!(LauncherType::parse("", &args(), None), LauncherType::Empty));
}

#[test]
fn a_bookmark_launcher_needs_a_browser() {
    assert!(matches!(LauncherType::parse("bookmarks", &args(), None), LauncherType::Empty));
    match LauncherType::parse("bookmarks", &args(), Some("firefox")) {
        LauncherType::Bookmark(b) => assert_eq!(b.target_browser, "firefox"),
        other => panic!("{:?}", other),
    }
    let mut a = args();
    a.browser = Some("brave".to_string());
    match LauncherType::parse("bookmarks", &a, Some("firefox")) {
        LauncherType::Bookmark(b) => assert_eq!(b.target_browser, "brave"),
        other => panic!("{:?}", other),
    }
}

#[test]
fn weather_and_web_launchers_read_their_settings() {
    assert!(matches!(LauncherType::parse("weather", &args(), None), LauncherType::Empty));
    let mut a = args();
    a.location = Some("berlin".to_string());
    match LauncherType::parse("weather", &a, None) {
        LauncherType::Weather(w) => {
            assert_eq!(w.location, "berlin");
            assert_eq!(w.update_interval, 60);
            assert!(w.show_datetime);
        },
        other => panic!("{:?}", other),
    }
    a.update_interval = Some(5);
    a.show_datetime = Some(false);
    match LauncherType::parse("weather", &a, None) {
        LauncherType::Weather(w) => {
            assert_eq!(w.update_interval, 5);
            assert!(!w.show_datetime);
        },
        other => panic!("{:?}", other),
    }
    match LauncherType::parse("web_launcher", &args(), Some("firefox")) {
        LauncherType::Web(w) => {
            assert_eq!(w.engine, "");
            assert_eq!(w.browser, None);
        },
        other => panic!("{:?}", other),
    }
    let mut a = args();
    a.search_engine = Some("google".to_string());
    a.browser = Some("brave".to_string());
    match LauncherType::parse("web_launcher", &a, None) {
        LauncherType::Web(w) => {
            assert_eq!(w.engine, "google");
            assert_eq!(w.browser, Some("brave".to_string()));
        },
        other => panic!("{:?}", other),
    }
}
