//! Configuration values that the engine reads.

pub mod defaults;
pub mod flags;

use crate::config::defaults::{BindDefaults, ConstantDefaults, FileDefaults, OtherDefaults};
use crate::errors::{ErrorKind, SherlockError, SherlockErrorType};
use crate::paths::{joined, without_trailing_slash};
use crate::text::{chars_of, duplicate, string_of};
use vstd::prelude::*;

verus! {

/// Where a candidate shows: with an empty query (the home view), with a
/// query (a search), or both.
#[derive(Debug, Copy, Clone, PartialEq, Eq, Structural)]
pub enum HomeType {
    /// Only while searching.
    Search,
    /// Only on the home view.
    OnlyHome,
    /// On the home view, and in a search where it matches.
    Home,
    /// Always, whatever the query.
    Persist,
}

impl Default for HomeType {
    fn default() -> (home: Self)
        ensures
            home == HomeType::Search,
    {
        HomeType::Search
    }
}

/// The place of the configuration in the application's context: empty
/// until the configuration is loaded.
#[derive(Debug)]
pub struct ConfigGuard<T> {
    config: Option<T>,
}

impl<T> ConfigGuard<T> {
    /// The configuration, once it is loaded.
    pub closed spec fn config(&self) -> Option<T> {
        self.config
    }

    /// A guard without a configuration.
    pub fn new() -> (guard: Self)
        ensures
            guard.config() is None,
    {
        ConfigGuard { config: None }
    }

    /// Puts the configuration in place. Fails, and changes nothing, where
    /// one is in place already.
    pub fn set(&mut self, config: T) -> (done: Result<(), SherlockError>)
        ensures
            match old(self).config() {
                None => done is Ok && final(self).config() == Some(config),
                Some(_) => done is Err && done->Err_0.error@ == ErrorKind::ConfigError(None)
                    && final(self).config() == old(self).config(),
            },
    {
        if self.config.is_some() {
            return Err(SherlockError::new(SherlockErrorType::ConfigError(None), ""));
        }
        self.config = Some(config);
        Ok(())
    }

    /// The configuration. Fails where none is loaded.
    pub fn read(&self) -> (config: Result<&T, SherlockError>)
        ensures
            match self.config() {
                Some(c) => config is Ok && *config->Ok_0 == c,
                None => config is Err && config->Err_0.error@ == ErrorKind::ConfigError(None),
            },
    {
        match &self.config {
            Some(c) => Ok(c),
            None => Err(
                SherlockError::new(SherlockErrorType::ConfigError(None), "Config not initialized"),
            ),
        }
    }
}

/// The applications that the launcher starts for the user.
#[derive(Debug)]
pub struct ConfigDefaultApps {
    pub teams: String,
    pub calendar_client: String,
    pub terminal: String,
    pub browser: Option<String>,
    pub mpris: Option<String>,
}

/// The units that conversions prefer.
#[derive(Debug)]
pub struct ConfigUnits {
    pub lengths: String,
    pub weights: String,
    pub volumes: String,
    pub temperatures: String,
    pub currency: String,
}

impl Default for ConfigUnits {
    fn default() -> (units: Self)
        ensures
            units.lengths@ == "meters"@,
            units.weights@ == "kg"@,
            units.volumes@ == "l"@,
            units.temperatures@ == "C"@,
            units.currency@ == "eur"@,
    {
        ConfigUnits {
            lengths: ConstantDefaults::lengths(),
            weights: ConstantDefaults::weights(),
            volumes: ConstantDefaults::volumes(),
            temperatures: ConstantDefaults::temperatures(),
            currency: ConstantDefaults::currency(),
        }
    }
}

/// Settings for fault finding.
#[derive(Debug)]
pub struct ConfigDebug {
    pub try_suppress_errors: bool,
    pub try_suppress_warnings: bool,
    /// Further directories of desktop entries.
    pub app_paths: Vec<String>,
}

impl Default for ConfigDebug {
    fn default() -> (debug: Self)
        ensures
            !debug.try_suppress_errors,
            !debug.try_suppress_warnings,
            debug.app_paths@.len() == 0,
    {
        ConfigDebug { try_suppress_errors: false, try_suppress_warnings: false, app_paths: Vec::new() }
    }
}

/// How the launcher behaves.
#[derive(Debug)]
pub struct ConfigBehavior {
    pub use_xdg_data_dir_icons: bool,
    pub animate: bool,
    pub global_prefix: Option<String>,
    pub global_flags: Option<String>,
    pub use_lr_nav: bool,
    pub n_clicks: Option<u8>,
    pub remember_query: bool,
}

impl Default for ConfigBehavior {
    fn default() -> (behavior: Self)
        ensures
            !behavior.use_xdg_data_dir_icons,
            behavior.animate,
            behavior.global_prefix is None,
            behavior.global_flags is None,
            !behavior.use_lr_nav,
            !behavior.remember_query,
            behavior.n_clicks == Some(2u8),
    {
        ConfigBehavior {
            use_xdg_data_dir_icons: false,
            animate: true,
            global_prefix: None,
            global_flags: None,
            use_lr_nav: false,
            remember_query: false,
            n_clicks: Some(2),
        }
    }
}

/// The files of the configuration.
#[derive(Debug)]
pub struct ConfigFiles {
    pub config: String,
    pub css: String,
    pub fallback: String,
    pub alias: String,
    pub ignore: String,
    pub actions: String,
}

/// The key bindings.
#[derive(Debug)]
pub struct ConfigBinds {
    pub up: Option<String>,
    pub down: Option<String>,
    pub left: Option<String>,
    pub right: Option<String>,
    pub context: Option<String>,
    pub modifier: Option<String>,
    pub exec_inplace: Option<String>,
}

impl Default for ConfigBinds {
    fn default() -> (binds: Self)
        ensures
            binds.up.deep_view() == Some("control-k"@),
            binds.down.deep_view() == Some("control-j"@),
            binds.left.deep_view() == Some("control-ih"@),
            binds.right.deep_view() == Some("control-l"@),
            binds.context.deep_view() == Some("control-i"@),
            binds.modifier.deep_view() == Some("control"@),
            binds.exec_inplace.deep_view() == Some("control-return"@),
    {
        ConfigBinds {
            up: BindDefaults::up(),
            down: BindDefaults::down(),
            left: BindDefaults::left(),
            right: BindDefaults::right(),
            context: BindDefaults::context(),
            modifier: BindDefaults::modifier(),
            exec_inplace: BindDefaults::exec_inplace(),
        }
    }
}

/// What the command line asked of this run.
#[derive(Debug)]
pub struct Runtime {
    pub method: Option<String>,
    pub multi: bool,
    pub center: bool,
    pub photo_mode: bool,
    pub display_raw: bool,
    pub input: Option<bool>,
    pub sub_menu: Option<String>,
    pub daemonize: bool,
    pub field: Option<String>,
}

impl Default for Runtime {
    fn default() -> (runtime: Self)
        ensures
            runtime.method is None,
            !runtime.multi,
            !runtime.center,
            !runtime.photo_mode,
            !runtime.display_raw,
            runtime.input is None,
            runtime.sub_menu is None,
            !runtime.daemonize,
            runtime.field is None,
    {
        Runtime {
            method: None,
            multi: false,
            center: false,
            photo_mode: false,
            display_raw: false,
            input: None,
            sub_menu: None,
            daemonize: false,
            field: None,
        }
    }
}

/// The cache of the desktop entries.
#[derive(Debug)]
pub struct ConfigCaching {
    pub enable: bool,
    pub cache: String,
}

/// The expanding window.
#[derive(Debug)]
pub struct ConfigExpand {
    pub enable: bool,
    pub edge: String,
    pub margin: i32,
}

impl Default for ConfigExpand {
    fn default() -> (expand: Self)
        ensures
            !expand.enable,
            expand.edge@ == "top"@,
            expand.margin == 0,
    {
        ConfigExpand { enable: false, edge: OtherDefaults::backdrop_edge(), margin: 0 }
    }
}

/// The icon of the search bar.
#[derive(Debug)]
pub struct SearchBarIcon {
    pub enable: bool,
    pub icon: String,
    pub icon_back: String,
    pub size: i32,
}

impl Default for SearchBarIcon {
    fn default() -> (icon: Self)
        ensures
            icon.enable,
            icon.icon@ == "system-search-symbolic"@,
            icon.icon_back@ == "sherlock-back"@,
            icon.size == 22,
    {
        SearchBarIcon {
            enable: true,
            icon: OtherDefaults::search_icon(),
            icon_back: OtherDefaults::search_icon_back(),
            size: OtherDefaults::icon_size(),
        }
    }
}

/// The status bar.
#[derive(Debug)]
pub struct StatusBar {
    pub enable: bool,
}

impl Default for StatusBar {
    fn default() -> (bar: Self)
        ensures
            bar.enable,
    {
        StatusBar { enable: true }
    }
}

/// The files that a configuration file pulls in.
#[derive(Debug)]
pub struct ConfigSourceFiles {
    pub source: Vec<ConfigSource>,
}

/// One file that a configuration file pulls in.
#[derive(Debug)]
pub struct ConfigSource {
    pub file: String,
}

/// A part of the configuration whose defaults lie below a directory.
pub trait WithRoot: Sized {
    /// Whether the value holds the defaults for the directory `root`.
    spec fn rooted_at(&self, root: Seq<char>) -> bool;

    /// The defaults for the directory `root`, a trailing `/` of which does
    /// not count.
    fn with_root(root: &str) -> (rooted: Self)
        ensures
            rooted.rooted_at(without_trailing_slash(root@)),
    ;
}

impl WithRoot for ConfigFiles {
    open spec fn rooted_at(&self, root: Seq<char>) -> bool {
        &&& self.config@ == joined(root, "config.toml"@)
        &&& self.css@ == joined(root, "main.css"@)
        &&& self.fallback@ == joined(root, "fallback.json"@)
        &&& self.alias@ == joined(root, "sherlock_alias.json"@)
        &&& self.ignore@ == joined(root, "sherlockignore"@)
        &&& self.actions@ == joined(root, "sherlock_actions.json"@)
    }

    fn with_root(root: &str) -> (rooted: Self) {
        let chars = chars_of(root);
        let dir = if chars.len() > 0 && chars[chars.len() - 1] == '/' {
            string_of(&chars, 0, chars.len() - 1)
        } else {
            duplicate(root)
        };
        assert(dir@ =~= without_trailing_slash(root@));
        ConfigFiles {
            config: FileDefaults::config(dir.as_str()),
            css: FileDefaults::css(dir.as_str()),
            fallback: FileDefaults::fallback(dir.as_str()),
            alias: FileDefaults::alias(dir.as_str()),
            ignore: FileDefaults::ignore(dir.as_str()),
            actions: FileDefaults::actions(dir.as_str()),
        }
    }
}

impl WithRoot for ConfigCaching {
    open spec fn rooted_at(&self, root: Seq<char>) -> bool {
        self.enable && self.cache@ == joined(root, "desktop_files.bin"@)
    }

    fn with_root(root: &str) -> (rooted: Self) {
        let chars = chars_of(root);
        let dir = if chars.len() > 0 && chars[chars.len() - 1] == '/' {
            string_of(&chars, 0, chars.len() - 1)
        } else {
            duplicate(root)
        };
        assert(dir@ =~= without_trailing_slash(root@));
        ConfigCaching { enable: true, cache: FileDefaults::cache(dir.as_str()) }
    }
}

} // verus!
