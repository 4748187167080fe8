use sherlock::config::defaults::{BindDefaults, ConstantDefaults, FileDefaults, OtherDefaults};
use sherlock::config::flags::SherlockFlags;
use sherlock::config::{
    ConfigBehavior, ConfigBinds, ConfigCaching, ConfigDebug, ConfigExpand, ConfigFiles, ConfigGuard,
    ConfigUnits, HomeType, Runtime, SearchBarIcon, StatusBar, WithRoot,
};
use sherlock::errors::SherlockErrorType;

fn args(list: &[&str]) -> Vec<String> {
    list.iter().map(|a| a.to_string()).collect()
}

#[test]
fn constant_defaults() {
    assert_eq!(
        ConstantDefaults::teams(),
        "teams-for-linux --enable-features=UseOzonePlatform --ozone-platform=wayland --url {meeting_url}"
    );
    assert_eq!(ConstantDefaults::calendar_client(), "thunderbird");
    assert_eq!(ConstantDefaults::lengths(), "meters");
    assert_eq!(ConstantDefaults::weights(), "kg");
    assert_eq!(ConstantDefaults::volumes(), "l");
    assert_eq!(ConstantDefaults::temperatures(), "C");
    assert_eq!(ConstantDefaults::currency(), "eur");
}

#[test]
fn the_terminal_is_the_first_that_is_installed() {
    let names = ConstantDefaults::terminals();
    assert_eq!(names.len(), 20);
    assert_eq!(names[0], "kitty");
    assert_eq!(names[19], "tilix");
    let mut installed = vec![false; 20];
    installed[17] = true;
    installed[4] = true;
    assert_eq!(ConstantDefaults::get_terminal(None, false, &installed).unwrap(), "alacritty");
    assert_eq!(ConstantDefaults::get_terminal(Some("st"), true, &installed).unwrap(), "st");
    assert_eq!(ConstantDefaults::get_terminal(Some("st"), false, &installed).unwrap(), "alacritty");
    assert_eq!(ConstantDefaults::terminal(Some("my-term"), true, &vec![]), "my-term");
    let none = vec![false; 20];
    match ConstantDefaults::get_terminal(Some("st"), false, &none) {
        Err(e) => {
            assert!(matches!(e.error, SherlockErrorType::ConfigError(Some(ref m)) if m == "Failed to get terminal"))
        },
        Ok(t) => panic!("{}", t),
    }
    assert_eq!(ConstantDefaults::terminal(None, false, &none), "");
    assert_eq!(ConstantDefaults::terminal(None, false, &vec![]), "");
    // what is told of terminals that are not known is not read
    let mut long = vec![false; 25];
    long[22] = true;
    assert_eq!(ConstantDefaults::terminal(None, false, &long), "");
    assert_eq!(ConstantDefaults::terminal(None, false, &vec![false, true]), "gnome-terminal");
}

#[test]
fn the_browser_is_read_from_its_entry() {
    let lines = args(&["[Desktop Entry]", "Name=Firefox", "TryExec=firefox", "Exec=/usr/lib/firefox/firefox %u", "Exec=other"]);
    assert_eq!(ConstantDefaults::browser(&lines), Some("/usr/lib/firefox/firefox %u".to_string()));
    assert_eq!(ConstantDefaults::browser(&args(&["Name=x", " Exec=x", "exec=y"])), None);
    assert_eq!(ConstantDefaults::browser(&args(&["Exec="])), Some(String::new()));
    assert_eq!(ConstantDefaults::browser(&vec![]), None);
}

#[test]
fn bind_defaults() {
    assert_eq!(BindDefaults::modkey_ascii(), vec!["⇧", "⇧", "⌘", "⌘", "⎇", "✦", "✦", "⌘"]);
    assert_eq!(BindDefaults::shortcut_mod(), "⌘");
    assert_eq!(BindDefaults::up(), Some("control-k".to_string()));
    assert_eq!(BindDefaults::down(), Some("control-j".to_string()));
    assert_eq!(BindDefaults::left(), Some("control-ih".to_string()));
    assert_eq!(BindDefaults::right(), Some("control-l".to_string()));
    assert_eq!(BindDefaults::context(), Some("control-i".to_string()));
    assert_eq!(BindDefaults::modifier(), Some("control".to_string()));
    assert_eq!(BindDefaults::exec_inplace(), Some("control-return".to_string()));
}

#[test]
fn file_defaults() {
    assert_eq!(FileDefaults::cache("/home/u/.cache/sherlock"), "/home/u/.cache/sherlock/desktop_files.bin");
    assert_eq!(FileDefaults::config("/c"), "/c/config.toml");
    assert_eq!(FileDefaults::fallback("/c/"), "/c/fallback.json");
    assert_eq!(FileDefaults::css("/c"), "/c/main.css");
    assert_eq!(FileDefaults::alias("/c"), "/c/sherlock_alias.json");
    assert_eq!(FileDefaults::ignore("/c"), "/c/sherlockignore");
    assert_eq!(FileDefaults::actions("/c"), "/c/sherlock_actions.json");
    assert_eq!(FileDefaults::icon_paths("/c"), vec!["/c/icons/"]);
    assert_eq!(FileDefaults::config(""), "config.toml");
}

#[test]
fn other_defaults() {
    assert!(OtherDefaults::bool_true());
    assert_eq!(OtherDefaults::five(), 5);
    assert_eq!(OtherDefaults::backdrop_edge(), "top");
    assert_eq!(OtherDefaults::icon_size(), 22);
    assert_eq!(OtherDefaults::search_icon(), "system-search-symbolic");
    assert_eq!(OtherDefaults::search_icon_back(), "sherlock-back");
    assert_eq!(OtherDefaults::placeholder(), "Search:");
}

#[test]
fn default_parts() {
    assert_eq!(HomeType::default(), HomeType::Search);
    let units = ConfigUnits::default();
    assert_eq!(
        (units.lengths, units.weights, units.volumes, units.temperatures, units.currency),
        ("meters".to_string(), "kg".to_string(), "l".to_string(), "C".to_string(), "eur".to_string())
    );
    let debug = ConfigDebug::default();
    assert!(!debug.try_suppress_errors && !debug.try_suppress_warnings && debug.app_paths.is_empty());
    let behavior = ConfigBehavior::default();
    assert!(behavior.animate && !behavior.use_lr_nav && !behavior.remember_query);
    assert_eq!(behavior.n_clicks, Some(2));
    let binds = ConfigBinds::default();
    assert_eq!(binds.up, Some("control-k".to_string()));
    assert_eq!(binds.exec_inplace, Some("control-return".to_string()));
    let runtime = Runtime::default();
    assert!(!runtime.multi && !runtime.daemonize && runtime.sub_menu.is_none() && runtime.input.is_none());
    let expand = ConfigExpand::default();
    assert!(!expand.enable);
    assert_eq!(expand.edge, "top");
    assert_eq!(expand.margin, 0);
    let icon = SearchBarIcon::default();
    assert!(icon.enable);
    assert_eq!(icon.icon, "system-search-symbolic");
    assert_eq!(icon.icon_back, "sherlock-back");
    assert_eq!(icon.size, 22);
    assert!(StatusBar::default().enable);
}

#[test]
fn files_below_a_root() {
    let files = ConfigFiles::with_root("/tmp/sherlock/");
    assert_eq!(files.config, "/tmp/sherlock/config.toml");
    assert_eq!(files.css, "/tmp/sherlock/main.css");
    assert_eq!(files.fallback, "/tmp/sherlock/fallback.json");
    assert_eq!(files.alias, "/tmp/sherlock/sherlock_alias.json");
    assert_eq!(files.ignore, "/tmp/sherlock/sherlockignore");
    assert_eq!(files.actions, "/tmp/sherlock/sherlock_actions.json");
    assert_eq!(ConfigFiles::with_root("/r").config, "/r/config.toml");
    let caching = ConfigCaching::with_root("/cache/");
    assert!(caching.enable);
    assert_eq!(caching.cache, "/cache/desktop_files.bin");
}

#[test]
fn the_guard_holds_one_configuration() {
    let mut guard: ConfigGuard<Runtime> = ConfigGuard::new();
    match guard.read() {
        Err(e) => assert!(matches!(e.error, SherlockErrorType::ConfigError(None))),
        Ok(_) => panic!(),
    }
    let mut runtime = Runtime::default();
    runtime.multi = true;
    assert!(guard.set(runtime).is_ok());
    assert!(guard.read().unwrap().multi);
    assert!(guard.set(Runtime::default()).is_err());
    assert!(guard.read().unwrap().multi);
}

#[test]
fn flag_values() {
    let a = args(&["sherlock", "--config", "/c.toml", "-sm", "pm", "--multi", "--input", "maybe", "--cache"]);
    assert_eq!(SherlockFlags::extract_flag_value(&a, "--config", None), Some("/c.toml".to_string()));
    assert_eq!(SherlockFlags::extract_flag_value(&a, "--sub-menu", Some("-sm")), Some("pm".to_string()));
    assert_eq!(SherlockFlags::extract_flag_value(&a, "--sub-menu", None), None);
    // a flag at the end has no value
    assert_eq!(SherlockFlags::extract_flag_value(&a, "--cache", None), None);
    // the value of a flag may look like a flag
    assert_eq!(SherlockFlags::extract_flag_value(&a, "pm", None), Some("--multi".to_string()));
    assert!(SherlockFlags::has_flag(&a, "--multi"));
    assert!(!SherlockFlags::has_flag(&a, "--photo"));
    assert_eq!(SherlockFlags::extract_flag_truth(&a, "--input", None), None);
    let b = args(&["--input", "maybe", "-i", "true", "--input", "false"]);
    // the first occurrence counts; where it is no truth value the short form is read
    assert_eq!(SherlockFlags::extract_flag_truth(&b, "--input", Some("-i")), Some(true));
    assert_eq!(SherlockFlags::extract_flag_truth(&args(&["--input", "false"]), "--input", None), Some(false));
    assert_eq!(SherlockFlags::extract_flag_truth(&args(&["--input", "True"]), "--input", None), None);
    // the long form wins over the short one
    let c = args(&["-p", "short", "--placeholder", "long"]);
    assert_eq!(SherlockFlags::extract_flag_value(&c, "--placeholder", Some("-p")), Some("long".to_string()));
}

#[test]
fn flags_from_the_command_line() {
    let a = args(&[
        "sherlock", "--config", "~/my.toml", "--style", "/s.css", "--daemonize", "--sub-menu", "pm",
        "--input", "true", "-p", "Type here", "--center", "--method", "print", "--field", "name",
        "--display-raw", "--photo", "--alias", "/a.json", "--ignore", "/i", "--fallback", "/f.json",
        "--cache", "~/c.bin", "--config-dir", "/cd",
    ]);
    let mut flags = SherlockFlags::new(&a);
    assert_eq!(flags.config, Some("~/my.toml".to_string()));
    assert_eq!(flags.style, Some("/s.css".to_string()));
    assert_eq!(flags.config_dir, Some("/cd".to_string()));
    assert!(flags.daemonize && flags.center_raw && flags.display_raw && flags.photo_mode && !flags.multi);
    assert_eq!(flags.sub_menu, Some("pm".to_string()));
    assert_eq!(flags.input, Some(true));
    assert_eq!(flags.placeholder, Some("Type here".to_string()));

    let mut files = ConfigFiles::with_root("~/.config/sherlock");
    let mut caching = ConfigCaching::with_root("/cache");
    let mut runtime = Runtime::default();
    let mut placeholder = OtherDefaults::placeholder();
    flags.apply_flags(&mut files, &mut caching, &mut runtime, &mut placeholder, "/home/u");
    assert_eq!(files.config, "/home/u/my.toml");
    assert_eq!(files.css, "/s.css");
    assert_eq!(files.alias, "/a.json");
    assert_eq!(files.ignore, "/i");
    assert_eq!(files.fallback, "/f.json");
    // a path that no flag gave is expanded too
    assert_eq!(files.actions, "~/.config/sherlock/sherlock_actions.json");
    assert_eq!(caching.cache, "/home/u/c.bin");
    assert_eq!(runtime.sub_menu, Some("pm".to_string()));
    assert_eq!(runtime.method, Some("print".to_string()));
    assert_eq!(runtime.field, Some("name".to_string()));
    assert_eq!(runtime.input, Some(true));
    assert!(runtime.center && runtime.display_raw && runtime.photo_mode && runtime.daemonize && !runtime.multi);
    assert_eq!(placeholder, "Type here");
    // the flags gave their values up
    assert_eq!(flags.sub_menu, None);
    assert_eq!(flags.placeholder, None);
    assert_eq!(flags.config, Some("~/my.toml".to_string()));

    let mut none = SherlockFlags::new(&args(&["sherlock"]));
    let mut files = ConfigFiles::with_root("~/.config/sherlock");
    let mut placeholder = "Search:".to_string();
    none.apply_flags(&mut files, &mut caching, &mut runtime, &mut placeholder, "/home/u");
    assert_eq!(files.config, "/home/u/.config/sherlock/config.toml");
    assert_eq!(files.css, "/home/u/.config/sherlock/main.css");
    assert_eq!(placeholder, "Search:");
    assert_eq!(runtime.sub_menu, None);
    assert!(!runtime.daemonize);
}
