//! Default values of the configuration.

use crate::errors::{ErrorKind, SherlockError, SherlockErrorType};
use crate::paths::{join_path, joined};
use crate::text::{chars_of, duplicate, string_of};
use vstd::prelude::*;

verus! {

/// Defaults of the applications and units.
pub struct ConstantDefaults {}

/// The terminals that are tried in turn, by their commands.
pub open spec fn known_terminals() -> Seq<Seq<char>> {
    seq![
        "kitty"@,
        "gnome-terminal"@,
        "xterm"@,
        "konsole"@,
        "alacritty"@,
        "urxvt"@,
        "mate-terminal"@,
        "terminator"@,
        "sakura"@,
        "terminology"@,
        "st"@,
        "xfce4-terminal"@,
        "guake"@,
        "x11-terminal"@,
        "macos-terminal"@,
        "iterm2"@,
        "lxterminal"@,
        "foot"@,
        "wezterm"@,
        "tilix"@,
    ]
}

/// The index of the first terminal from `from` on that is installed, or
/// `-1`. `installed[i]` tells whether terminal `i` is.
pub open spec fn first_installed(installed: Seq<bool>, from: int) -> int
    decreases known_terminals().len() - from,
{
    if from < 0 || from >= known_terminals().len() {
        -1
    } else if from < installed.len() && installed[from] {
        from
    } else {
        first_installed(installed, from + 1)
    }
}

/// The terminal to use: the preferred one where it is installed, else the
/// first known terminal that is.
pub open spec fn chosen_terminal(
    preferred: Option<Seq<char>>,
    preferred_installed: bool,
    installed: Seq<bool>,
) -> Option<Seq<char>> {
    if preferred is Some && preferred_installed {
        preferred
    } else if first_installed(installed, 0) >= 0 {
        Some(known_terminals()[first_installed(installed, 0)])
    } else {
        None
    }
}

/// The command after `Exec=` of the first line that starts so.
pub open spec fn exec_line(lines: Seq<Seq<char>>, from: int) -> Option<Seq<char>>
    decreases lines.len() - from,
{
    if from < 0 || from >= lines.len() {
        None
    } else if lines[from].len() >= 5 && lines[from].subrange(0, 5) == "Exec="@ {
        Some(lines[from].subrange(5, lines[from].len() as int))
    } else {
        exec_line(lines, from + 1)
    }
}

impl ConstantDefaults {
    /// The commands of the terminals that are tried in turn.
    pub fn terminals() -> (names: Vec<String>)
        ensures
            names.deep_view() == known_terminals(),
    {
        let mut names: Vec<String> = Vec::new();
        names.push(duplicate("kitty"));
        names.push(duplicate("gnome-terminal"));
        names.push(duplicate("xterm"));
        names.push(duplicate("konsole"));
        names.push(duplicate("alacritty"));
        names.push(duplicate("urxvt"));
        names.push(duplicate("mate-terminal"));
        names.push(duplicate("terminator"));
        names.push(duplicate("sakura"));
        names.push(duplicate("terminology"));
        names.push(duplicate("st"));
        names.push(duplicate("xfce4-terminal"));
        names.push(duplicate("guake"));
        names.push(duplicate("x11-terminal"));
        names.push(duplicate("macos-terminal"));
        names.push(duplicate("iterm2"));
        names.push(duplicate("lxterminal"));
        names.push(duplicate("foot"));
        names.push(duplicate("wezterm"));
        names.push(duplicate("tilix"));
        assert(names.deep_view() =~= known_terminals());
        names
    }

    /// Chooses the terminal. `preferred` is the terminal that the
    /// environment names and `preferred_installed` whether it is
    /// installed; `installed[i]` tells whether the known terminal `i` is.
    pub fn get_terminal(
        preferred: Option<&str>,
        preferred_installed: bool,
        installed: &Vec<bool>,
    ) -> (terminal: Result<String, SherlockError>)
        ensures
            match chosen_terminal(preferred.deep_view(), preferred_installed, installed@) {
                Some(t) => terminal is Ok && terminal->Ok_0@ == t,
                None => terminal is Err && terminal->Err_0.error@ == ErrorKind::ConfigError(
                    Some("Failed to get terminal"@),
                ),
            },
    {
        match preferred {
            Some(term) => {
                if preferred_installed {
                    return Ok(duplicate(term));
                }
            },
            None => {},
        }
        let names = ConstantDefaults::terminals();
        let mut i: usize = 0;
        while i < names.len()
            invariant
                i <= names@.len(),
                names.deep_view() == known_terminals(),
                !(preferred is Some && preferred_installed),
                first_installed(installed@, 0) == first_installed(installed@, i as int),
            decreases names@.len() - i,
        {
            if i < installed.len() && installed[i] {
                assert(names.deep_view()[i as int] == names@[i as int]@);
                return Ok(names[i].clone());
            }
            i += 1;
        }
        Err(
            SherlockError::new(
                SherlockErrorType::ConfigError(Some(duplicate("Failed to get terminal"))),
                "Unable to locate or parse a valid terminal app. Ensure that the terminal app is correctly specified in the configuration file or environment variables.",
            ),
        )
    }

    /// The terminal to use, the empty text where none is installed.
    pub fn terminal(preferred: Option<&str>, preferred_installed: bool, installed: &Vec<bool>) -> (name:
        String)
        ensures
            name@ == match chosen_terminal(preferred.deep_view(), preferred_installed, installed@) {
                Some(t) => t,
                None => Seq::empty(),
            },
    {
        match ConstantDefaults::get_terminal(preferred, preferred_installed, installed) {
            Ok(name) => name,
            Err(_) => String::new(),
        }
    }

    /// The command of the browser whose desktop entry has the lines
    /// `lines`: what follows `Exec=` on the first line that starts so.
    pub fn browser(lines: &Vec<String>) -> (command: Option<String>)
        ensures
            command.deep_view() == exec_line(lines.deep_view(), 0),
    {
        let mut i: usize = 0;
        while i < lines.len()
            invariant
                i <= lines@.len(),
                exec_line(lines.deep_view(), 0) == exec_line(lines.deep_view(), i as int),
            decreases lines@.len() - i,
        {
            assert(lines.deep_view()[i as int] == lines@[i as int]@);
            let chars = chars_of(lines[i].as_str());
            if chars.len() >= 5 {
                let head = string_of(&chars, 0, 5);
                if crate::text::str_eq(head.as_str(), "Exec=") {
                    return Some(string_of(&chars, 5, chars.len()));
                }
            }
            i += 1;
        }
        None
    }

    /// The command that opens a meeting.
    pub fn teams() -> (s: String)
        ensures
            s@ == "teams-for-linux --enable-features=UseOzonePlatform --ozone-platform=wayland --url {meeting_url}"@,
    {
        duplicate(
            "teams-for-linux --enable-features=UseOzonePlatform --ozone-platform=wayland --url {meeting_url}",
        )
    }

    /// The calendar program.
    pub fn calendar_client() -> (s: String)
        ensures
            s@ == "thunderbird"@,
    {
        duplicate("thunderbird")
    }

    /// The unit of lengths.
    pub fn lengths() -> (s: String)
        ensures
            s@ == "meters"@,
    {
        duplicate("meters")
    }

    /// The unit of weights.
    pub fn weights() -> (s: String)
        ensures
            s@ == "kg"@,
    {
        duplicate("kg")
    }

    /// The unit of volumes.
    pub fn volumes() -> (s: String)
        ensures
            s@ == "l"@,
    {
        duplicate("l")
    }

    /// The unit of temperatures.
    pub fn temperatures() -> (s: String)
        ensures
            s@ == "C"@,
    {
        duplicate("C")
    }

    /// The currency.
    pub fn currency() -> (s: String)
        ensures
            s@ == "eur"@,
    {
        duplicate("eur")
    }
}

/// Defaults of the key bindings.
pub struct BindDefaults {}

/// The symbols shown for the modifier keys: shift, lock, control, meta,
/// alt, super, hyper, and the default.
pub open spec fn modkey_symbols() -> Seq<Seq<char>> {
    seq!["⇧"@, "⇧"@, "⌘"@, "⌘"@, "⎇"@, "✦"@, "✦"@, "⌘"@]
}

impl BindDefaults {
    /// The symbols shown for the modifier keys.
    pub fn modkey_ascii() -> (symbols: Vec<String>)
        ensures
            symbols.deep_view() == modkey_symbols(),
    {
        let mut symbols: Vec<String> = Vec::new();
        symbols.push(duplicate("⇧"));
        symbols.push(duplicate("⇧"));
        symbols.push(duplicate("⌘"));
        symbols.push(duplicate("⌘"));
        symbols.push(duplicate("⎇"));
        symbols.push(duplicate("✦"));
        symbols.push(duplicate("✦"));
        symbols.push(duplicate("⌘"));
        assert(symbols.deep_view() =~= modkey_symbols());
        symbols
    }

    /// The symbol shown for the modifier of the shortcuts.
    pub fn shortcut_mod() -> (s: String)
        ensures
            s@ == "⌘"@,
    {
        duplicate("⌘")
    }

    /// The key that moves the cursor up.
    pub fn up() -> (s: Option<String>)
        ensures
            s.deep_view() == Some("control-k"@),
    {
        Some(duplicate("control-k"))
    }

    /// The key that moves the cursor down.
    pub fn down() -> (s: Option<String>)
        ensures
            s.deep_view() == Some("control-j"@),
    {
        Some(duplicate("control-j"))
    }

    /// The key that moves the cursor left.
    pub fn left() -> (s: Option<String>)
        ensures
            s.deep_view() == Some("control-ih"@),
    {
        Some(duplicate("control-ih"))
    }

    /// The key that moves the cursor right.
    pub fn right() -> (s: Option<String>)
        ensures
            s.deep_view() == Some("control-l"@),
    {
        Some(duplicate("control-l"))
    }

    /// The key that opens the menu of secondary actions.
    pub fn context() -> (s: Option<String>)
        ensures
            s.deep_view() == Some("control-i"@),
    {
        Some(duplicate("control-i"))
    }

    /// The modifier of the shortcuts.
    pub fn modifier() -> (s: Option<String>)
        ensures
            s.deep_view() == Some("control"@),
    {
        Some(duplicate("control"))
    }

    /// The key that runs a candidate without closing the window.
    pub fn exec_inplace() -> (s: Option<String>)
        ensures
            s.deep_view() == Some("control-return"@),
    {
        Some(duplicate("control-return"))
    }
}

/// Defaults of the files, each below the directory it belongs to.
pub struct FileDefaults {}

impl FileDefaults {
    /// The cache of the desktop entries, below the cache directory.
    pub fn cache(cache_dir: &str) -> (path: String)
        ensures
            path@ == joined(cache_dir@, "desktop_files.bin"@),
    {
        join_path(cache_dir, "desktop_files.bin")
    }

    /// The configuration file, below the configuration directory.
    pub fn config(config_dir: &str) -> (path: String)
        ensures
            path@ == joined(config_dir@, "config.toml"@),
    {
        join_path(config_dir, "config.toml")
    }

    /// The file of the launchers, below the configuration directory.
    pub fn fallback(config_dir: &str) -> (path: String)
        ensures
            path@ == joined(config_dir@, "fallback.json"@),
    {
        join_path(config_dir, "fallback.json")
    }

    /// The style sheet, below the configuration directory.
    pub fn css(config_dir: &str) -> (path: String)
        ensures
            path@ == joined(config_dir@, "main.css"@),
    {
        join_path(config_dir, "main.css")
    }

    /// The alias file, below the configuration directory.
    pub fn alias(config_dir: &str) -> (path: String)
        ensures
            path@ == joined(config_dir@, "sherlock_alias.json"@),
    {
        join_path(config_dir, "sherlock_alias.json")
    }

    /// The ignore file, below the configuration directory.
    pub fn ignore(config_dir: &str) -> (path: String)
        ensures
            path@ == joined(config_dir@, "sherlockignore"@),
    {
        join_path(config_dir, "sherlockignore")
    }

    /// The file of the actions, below the configuration directory.
    pub fn actions(config_dir: &str) -> (path: String)
        ensures
            path@ == joined(config_dir@, "sherlock_actions.json"@),
    {
        join_path(config_dir, "sherlock_actions.json")
    }

    /// The directories of the user's icons: one, below the configuration
    /// directory.
    pub fn icon_paths(config_dir: &str) -> (paths: Vec<String>)
        ensures
            paths.deep_view() == seq![joined(config_dir@, "icons/"@)],
    {
        let mut paths: Vec<String> = Vec::new();
        paths.push(join_path(config_dir, "icons/"));
        assert(paths.deep_view() =~= seq![joined(config_dir@, "icons/"@)]);
        paths
    }
}

/// Defaults of everything else.
pub struct OtherDefaults {}

impl OtherDefaults {
    /// The default of a switch that is on.
    pub fn bool_true() -> (b: bool)
        ensures
            b,
    {
        true
    }

    /// The number of shortcuts.
    pub fn five() -> (n: u8)
        ensures
            n == 5,
    {
        5
    }

    /// The edge that the window grows from.
    pub fn backdrop_edge() -> (s: String)
        ensures
            s@ == "top"@,
    {
        duplicate("top")
    }

    /// The size of an icon, in pixels.
    pub fn icon_size() -> (n: i32)
        ensures
            n == 22,
    {
        22
    }

    /// The icon of the search bar.
    pub fn search_icon() -> (s: String)
        ensures
            s@ == "system-search-symbolic"@,
    {
        duplicate("system-search-symbolic")
    }

    /// The icon of the search bar while a mode is active.
    pub fn search_icon_back() -> (s: String)
        ensures
            s@ == "sherlock-back"@,
    {
        duplicate("sherlock-back")
    }

    /// The text of the empty search bar.
    pub fn placeholder() -> (s: String)
        ensures
            s@ == "Search:"@,
    {
        duplicate("Search:")
    }
}

} // verus!
