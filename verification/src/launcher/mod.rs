//! Launchers: the sources of candidates, and what running one means.

pub mod bookmark_launcher;
pub mod children;

use crate::appdata::{AppData, ApplicationAction};
use crate::config::HomeType;
use crate::session::{LauncherMode, ModeModel};
use crate::text::{duplicate, duplicate_opt, str_eq, unicode_lower};
use vstd::string::StringExecFns;
use vstd::prelude::*;

verus! {

/// Launcher of installed applications.
#[derive(Clone, Debug)]
pub struct AppLauncher {
    pub use_keywords: bool,
}

/// Launcher of the bookmarks of a browser.
#[derive(Clone, Debug)]
pub struct BookmarkLauncher {
    pub target_browser: String,
}

/// Launcher that evaluates what was typed.
#[derive(Clone, Debug)]
pub struct CalculatorLauncher {}

/// Launcher of categories.
#[derive(Clone, Debug)]
pub struct CategoryLauncher {}

/// Launcher of configured commands.
#[derive(Clone, Debug)]
pub struct CommandLauncher {}

/// Launcher of calendar events.
#[derive(Clone, Debug)]
pub struct EventLauncher {}

/// Launcher of the running music player.
#[derive(Clone, Debug)]
pub struct MusicPlayerLauncher {}

/// Launcher of the weather report.
#[derive(Clone, Debug)]
pub struct WeatherLauncher {
    pub location: String,
    pub update_interval: u64,
    pub show_datetime: bool,
}

/// Launcher of web searches.
#[derive(Clone, Debug)]
pub struct WebLauncher {
    pub engine: String,
    pub browser: Option<String>,
}

/// The kind of a launcher, with what is particular to the kind.
#[derive(Clone, Debug)]
pub enum LauncherType {
    App(AppLauncher),
    Bookmark(BookmarkLauncher),
    Calc(CalculatorLauncher),
    Category(CategoryLauncher),
    Command(CommandLauncher),
    Event(EventLauncher),
    MusicPlayer(MusicPlayerLauncher),
    Weather(WeatherLauncher),
    Web(WebLauncher),
    Empty,
}

/// What the configuration of a launcher says besides its kind.
#[derive(Debug)]
pub struct LauncherArgs {
    /// Whether the keywords of an application are searched, for a launcher
    /// of applications.
    pub use_keywords: Option<bool>,
    /// The browser, for a launcher of bookmarks or of web searches.
    pub browser: Option<String>,
    /// The search engine, for a launcher of web searches.
    pub search_engine: Option<String>,
    /// The place, for a launcher of the weather report.
    pub location: Option<String>,
    /// The minutes between two updates, for a launcher of the weather
    /// report.
    pub update_interval: Option<u64>,
    /// Whether date and time are shown, for a launcher of the weather
    /// report.
    pub show_datetime: Option<bool>,
}

/// The launcher of the kind that `kind` names in lowercase.
///
/// A launcher of applications searches keywords unless told otherwise. A
/// launcher of bookmarks reads the browser that its configuration names,
/// or else the default browser, and is empty without either. A launcher of
/// the weather report is empty without a place; it updates every 60
/// minutes and shows date and time unless told otherwise. A kind that is
/// not known gives the empty launcher.
pub open spec fn launcher_of_kind(
    lowered: Seq<char>,
    use_keywords: Option<bool>,
    browser: Option<Seq<char>>,
    search_engine: Option<Seq<char>>,
    location: Option<Seq<char>>,
    update_interval: Option<u64>,
    show_datetime: Option<bool>,
    default_browser: Option<Seq<char>>,
) -> LauncherKindModel {
    if lowered == "app_launcher"@ {
        LauncherKindModel::App(
            match use_keywords {
                Some(b) => b,
                None => true,
            },
        )
    } else if lowered == "bookmarks"@ {
        if browser is Some {
            LauncherKindModel::Bookmark(browser->0)
        } else if default_browser is Some {
            LauncherKindModel::Bookmark(default_browser->0)
        } else {
            LauncherKindModel::Empty
        }
    } else if lowered == "calculation"@ {
        LauncherKindModel::Calc
    } else if lowered == "categories"@ {
        LauncherKindModel::Category
    } else if lowered == "command"@ || lowered == "debug"@ {
        LauncherKindModel::Command
    } else if lowered == "weather"@ {
        match location {
            Some(place) => LauncherKindModel::Weather(
                place,
                match update_interval {
                    Some(n) => n,
                    None => 60u64,
                },
                match show_datetime {
                    Some(b) => b,
                    None => true,
                },
            ),
            None => LauncherKindModel::Empty,
        }
    } else if lowered == "web_launcher"@ {
        LauncherKindModel::Web(text_or_empty(search_engine), browser)
    } else {
        LauncherKindModel::Empty
    }
}

/// The mathematical value of a [`LauncherType`] that the configuration can
/// ask for.
pub enum LauncherKindModel {
    App(bool),
    Bookmark(Seq<char>),
    Calc,
    Category,
    Command,
    Weather(Seq<char>, u64, bool),
    Web(Seq<char>, Option<Seq<char>>),
    Empty,
}

impl LauncherType {
    /// What the launcher is, as far as the configuration can ask for it.
    pub open spec fn kind_model(&self) -> LauncherKindModel {
        match self {
            LauncherType::App(a) => LauncherKindModel::App(a.use_keywords),
            LauncherType::Bookmark(b) => LauncherKindModel::Bookmark(b.target_browser@),
            LauncherType::Calc(_) => LauncherKindModel::Calc,
            LauncherType::Category(_) => LauncherKindModel::Category,
            LauncherType::Command(_) => LauncherKindModel::Command,
            LauncherType::Weather(w) => LauncherKindModel::Weather(
                w.location@,
                w.update_interval,
                w.show_datetime,
            ),
            LauncherType::Web(w) => LauncherKindModel::Web(w.engine@, w.browser.deep_view()),
            _ => LauncherKindModel::Empty,
        }
    }

    /// Makes the launcher of the kind that `kind` names, in any case of
    /// letters, from what its configuration says.
    pub fn parse(kind: &str, args: &LauncherArgs, default_browser: Option<&str>) -> (launcher: Self)
        ensures
            launcher.kind_model() == launcher_of_kind(
                unicode_lower(kind@),
                args.use_keywords,
                args.browser.deep_view(),
                args.search_engine.deep_view(),
                args.location.deep_view(),
                args.update_interval,
                args.show_datetime,
                default_browser.deep_view(),
            ),
    {
        let lowered = kind.to_lowercase();
        let name = lowered.as_str();
        if str_eq(name, "app_launcher") {
            LauncherType::App(
                AppLauncher {
                    use_keywords: match args.use_keywords {
                        Some(b) => b,
                        None => true,
                    },
                },
            )
        } else if str_eq(name, "bookmarks") {
            match (&args.browser, default_browser) {
                (Some(b), _) => LauncherType::Bookmark(BookmarkLauncher { target_browser: b.clone() }),
                (None, Some(b)) => LauncherType::Bookmark(
                    BookmarkLauncher { target_browser: duplicate(b) },
                ),
                (None, None) => LauncherType::Empty,
            }
        } else if str_eq(name, "calculation") {
            LauncherType::Calc(CalculatorLauncher {  })
        } else if str_eq(name, "categories") {
            LauncherType::Category(CategoryLauncher {  })
        } else if str_eq(name, "command") || str_eq(name, "debug") {
            LauncherType::Command(CommandLauncher {  })
        } else if str_eq(name, "weather") {
            match &args.location {
                Some(place) => LauncherType::Weather(
                    WeatherLauncher {
                        location: place.clone(),
                        update_interval: match args.update_interval {
                            Some(n) => n,
                            None => 60,
                        },
                        show_datetime: match args.show_datetime {
                            Some(b) => b,
                            None => true,
                        },
                    },
                ),
                None => LauncherType::Empty,
            }
        } else if str_eq(name, "web_launcher") {
            LauncherType::Web(
                WebLauncher {
                    engine: match &args.search_engine {
                        Some(e) => e.clone(),
                        None => String::new(),
                    },
                    browser: duplicate_opt(&args.browser),
                },
            )
        } else {
            LauncherType::Empty
        }
    }
}

impl Default for LauncherType {
    fn default() -> (kind: Self)
        ensures
            kind is Empty,
    {
        LauncherType::Empty
    }
}

/// A source of candidates. All candidates of a launcher share its mode
/// (`alias`), its visibility (`home`) and its base priority.
#[derive(Clone, Debug)]
pub struct Launcher {
    pub name: Option<String>,
    pub display_name: Option<String>,
    pub icon: Option<String>,
    pub alias: Option<String>,
    pub tag_end: Option<String>,
    pub method: String,
    pub exit: bool,
    pub next_content: Option<String>,
    pub priority: u32,
    pub is_async: bool,
    pub home: HomeType,
    pub launcher_type: LauncherType,
    pub shortcut: bool,
    pub spawn_focus: bool,
    pub actions: Option<Vec<ApplicationAction>>,
    pub add_actions: Option<Vec<ApplicationAction>>,
}

/// The step that follows from running a candidate.
#[derive(Debug)]
pub enum Execution {
    /// Start `command` detached, then count one use of `counted`.
    Spawn { command: String, counted: String },
    /// Open a web search for `query` with `engine` in `browser`, the
    /// default browser where none is named.
    Search { engine: String, query: String, browser: Option<String> },
    /// Nothing to run.
    Nothing,
}

/// The mathematical value of an [`Execution`].
pub enum ExecutionModel {
    Spawn { command: Seq<char>, counted: Seq<char> },
    Search { engine: Seq<char>, query: Seq<char>, browser: Option<Seq<char>> },
    Nothing,
}

impl View for Execution {
    type V = ExecutionModel;

    open spec fn view(&self) -> ExecutionModel {
        match self {
            Execution::Spawn { command, counted } => ExecutionModel::Spawn {
                command: command@,
                counted: counted@,
            },
            Execution::Search { engine, query, browser } => ExecutionModel::Search {
                engine: engine@,
                query: query@,
                browser: browser.deep_view(),
            },
            Execution::Nothing => ExecutionModel::Nothing,
        }
    }
}

/// The step that follows from `what`, the query being `keyword`. An
/// application that asks for a terminal runs behind the placeholder of
/// the terminal. A web search uses the engine `plain` where none is named,
/// and searches for the keyword where the record holds no query.
pub open spec fn execution_of(what: ExecModel, keyword: Seq<char>) -> ExecutionModel {
    match what {
        ExecModel::App { command, terminal } => ExecutionModel::Spawn {
            command: if terminal {
                "{terminal} "@ + command
            } else {
                command
            },
            counted: command,
        },
        ExecModel::Commmand { command } => ExecutionModel::Spawn { command, counted: command },
        ExecModel::Web { engine, browser, command } => ExecutionModel::Search {
            engine: match engine {
                Some(e) => e,
                None => "plain"@,
            },
            query: match command {
                Some(q) => q,
                None => keyword,
            },
            browser,
        },
        ExecModel::Nothing => ExecutionModel::Nothing,
    }
}

/// The modes that the first `n` launchers give: one for each launcher
/// that has an alias and a name.
pub open spec fn modes_upto(launchers: Seq<Launcher>, n: int) -> Seq<ModeModel>
    decreases n,
{
    if n <= 0 {
        Seq::empty()
    } else {
        let before = modes_upto(launchers, n - 1);
        let l = launchers[n - 1];
        if l.alias is Some && l.name is Some {
            before.push(ModeModel::Alias { short: l.alias->0@, name: l.name->0@ })
        } else {
            before
        }
    }
}

impl Launcher {
    /// Decides what running `what` means for the surrounding program.
    pub fn execute(what: &ExecMode, keyword: &str) -> (step: Execution)
        ensures
            step@ == execution_of(what@, keyword@),
    {
        match what {
            ExecMode::App { command, terminal } => {
                let line = if *terminal {
                    let mut line = duplicate("{terminal} ");
                    line.append(command);
                    line
                } else {
                    duplicate(command)
                };
                Execution::Spawn { command: line, counted: duplicate(command) }
            },
            ExecMode::Commmand { command } => Execution::Spawn {
                command: duplicate(command),
                counted: duplicate(command),
            },
            ExecMode::Web { engine, browser, command } => Execution::Search {
                engine: match engine {
                    Some(e) => duplicate(e),
                    None => duplicate("plain"),
                },
                query: match command {
                    Some(q) => duplicate(q),
                    None => duplicate(keyword),
                },
                browser: match browser {
                    Some(b) => Some(duplicate(b)),
                    None => None,
                },
            },
            ExecMode::Nothing => Execution::Nothing,
        }
    }

    /// Whether a launcher with the alias `alias` is loaded when the
    /// program was asked for the sub menu `submenu`: every launcher for
    /// `all`, else those of that alias.
    pub fn in_submenu(alias: &Option<String>, submenu: &str) -> (loaded: bool)
        ensures
            loaded == (submenu@ == "all"@ || alias.deep_view() == Some(submenu@)),
    {
        if str_eq(submenu, "all") {
            return true;
        }
        match alias {
            Some(a) => str_eq(a.as_str(), submenu),
            None => false,
        }
    }

    /// The modes that the launchers give, in their order.
    pub fn modes_of(launchers: &Vec<Launcher>) -> (modes: Vec<LauncherMode>)
        ensures
            modes.deep_view() == modes_upto(launchers@, launchers@.len() as int),
    {
        let mut modes: Vec<LauncherMode> = Vec::new();
        let mut i: usize = 0;
        assert(modes.deep_view() =~= Seq::<ModeModel>::empty());
        while i < launchers.len()
            invariant
                i <= launchers@.len(),
                modes.deep_view() == modes_upto(launchers@, i as int),
            decreases launchers@.len() - i,
        {
            match (&launchers[i].alias, &launchers[i].name) {
                (Some(alias), Some(name)) => {
                    let ghost before = modes.deep_view();
                    modes.push(LauncherMode::Alias { short: alias.clone(), name: name.clone() });
                    assert(modes.deep_view() =~= before.push(
                        ModeModel::Alias { short: alias@, name: name@ },
                    ));
                },
                _ => {},
            }
            i += 1;
        }
        modes
    }
}

/// What to run for a candidate or for one of its actions.
#[derive(Debug)]
pub enum ExecMode<'a> {
    App { command: &'a str, terminal: bool },
    Commmand { command: &'a str },
    Web { engine: Option<&'a str>, browser: Option<&'a str>, command: Option<&'a str> },
    Nothing,
}

/// The mathematical value of an [`ExecMode`].
pub enum ExecModel {
    App { command: Seq<char>, terminal: bool },
    Commmand { command: Seq<char> },
    Web { engine: Option<Seq<char>>, browser: Option<Seq<char>>, command: Option<Seq<char>> },
    Nothing,
}

impl<'a> View for ExecMode<'a> {
    type V = ExecModel;

    open spec fn view(&self) -> ExecModel {
        match self {
            ExecMode::App { command, terminal } => ExecModel::App {
                command: command@,
                terminal: *terminal,
            },
            ExecMode::Commmand { command } => ExecModel::Commmand { command: command@ },
            ExecMode::Web { engine, browser, command } => ExecModel::Web {
                engine: engine.deep_view(),
                browser: browser.deep_view(),
                command: command.deep_view(),
            },
            ExecMode::Nothing => ExecModel::Nothing,
        }
    }
}

/// The text of an optional string, the empty text where there is none.
pub open spec fn text_or_empty(text: Option<Seq<char>>) -> Seq<char> {
    match text {
        Some(t) => t,
        None => Seq::empty(),
    }
}

fn borrow_opt<'a>(text: &'a Option<String>) -> (borrowed: Option<&'a str>)
    ensures
        borrowed.deep_view() == text.deep_view(),
{
    match text {
        Some(t) => Some(t.as_str()),
        None => None,
    }
}

fn borrow_or_empty<'a>(text: &'a Option<String>) -> (borrowed: &'a str)
    ensures
        borrowed@ == text_or_empty(text.deep_view()),
{
    match text {
        Some(t) => t.as_str(),
        None => {
            proof {
                reveal_strlit("");
            }
            assert(""@ =~= Seq::<char>::empty());
            ""
        },
    }
}

impl<'a> ExecMode<'a> {
    /// What running `app_data` means under its launcher: an application
    /// runs its command, in a terminal where it asks for one; a command
    /// runs as it is; a bookmark or a web search opens in a browser;
    /// any other launcher runs nothing.
    pub fn from_appdata(app_data: &'a AppData, launcher: &'a Launcher) -> (mode: Self)
        ensures
            mode@ == match launcher.launcher_type {
                LauncherType::App(_) => ExecModel::App {
                    command: text_or_empty(app_data@.command),
                    terminal: app_data.terminal,
                },
                LauncherType::Bookmark(bkm) => ExecModel::Web {
                    engine: None,
                    browser: Some(bkm.target_browser@),
                    command: app_data@.command,
                },
                LauncherType::Command(_) => ExecModel::Commmand {
                    command: text_or_empty(app_data@.command),
                },
                LauncherType::Web(web) => ExecModel::Web {
                    engine: Some(web.engine@),
                    browser: web.browser.deep_view(),
                    command: app_data@.command,
                },
                _ => ExecModel::Nothing,
            },
    {
        match &launcher.launcher_type {
            LauncherType::App(_) => ExecMode::App {
                command: borrow_or_empty(&app_data.command),
                terminal: app_data.terminal,
            },
            LauncherType::Bookmark(bkm) => ExecMode::Web {
                engine: None,
                browser: Some(bkm.target_browser.as_str()),
                command: borrow_opt(&app_data.command),
            },
            LauncherType::Command(_) => ExecMode::Commmand {
                command: borrow_or_empty(&app_data.command),
            },
            LauncherType::Web(web) => ExecMode::Web {
                engine: Some(web.engine.as_str()),
                browser: borrow_opt(&web.browser),
                command: borrow_opt(&app_data.command),
            },
            _ => ExecMode::Nothing,
        }
    }

    /// What running a secondary action means: an action of an application
    /// or of a command runs its command, any other runs nothing.
    pub fn from_app_action(action: &'a ApplicationAction, _launcher: &'a Launcher) -> (mode: Self)
        ensures
            mode@ == if action.method@ == "app_launcher"@ || action.method@ == "command"@ {
                ExecModel::Commmand { command: text_or_empty(action@.command) }
            } else {
                ExecModel::Nothing
            },
    {
        if str_eq(action.method.as_str(), "app_launcher") || str_eq(
            action.method.as_str(),
            "command",
        ) {
            ExecMode::Commmand { command: borrow_or_empty(&action.command) }
        } else {
            ExecMode::Nothing
        }
    }
}

} // verus!
