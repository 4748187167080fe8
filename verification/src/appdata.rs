//! Candidate records and the alias overlay.
//!
//! A record describes one launchable entry. Its identity is the pair of its
//! executable and the file it came from. A user alias, keyed by the name
//! that the record's desktop entry gives, may replace the name, icon,
//! executable, keywords and actions of a record, and add actions and input
//! variables to it.

use crate::launcher::{Launcher, LauncherType};
use crate::priority::Priority;
use crate::text::{ascii_lower, duplicate, duplicate_opt, opt_text_eq, push_ascii_lower};
use vstd::prelude::*;

verus! {

/// The mathematical value of an [`ApplicationAction`].
pub struct ActionModel {
    pub name: Option<Seq<char>>,
    pub command: Option<Seq<char>>,
    pub icon: Option<Seq<char>>,
    pub method: Seq<char>,
    pub exit: bool,
}

/// A secondary action of a record.
#[derive(Debug)]
pub struct ApplicationAction {
    pub name: Option<String>,
    pub command: Option<String>,
    pub icon: Option<String>,
    pub method: String,
    pub exit: bool,
}

impl View for ApplicationAction {
    type V = ActionModel;

    open spec fn view(&self) -> ActionModel {
        ActionModel {
            name: self.name.deep_view(),
            command: self.command.deep_view(),
            icon: self.icon.deep_view(),
            method: self.method@,
            exit: self.exit,
        }
    }
}

impl DeepView for ApplicationAction {
    type V = ActionModel;

    open spec fn deep_view(&self) -> ActionModel {
        self@
    }
}

impl Clone for ApplicationAction {
    fn clone(&self) -> (copy: Self)
        ensures
            copy@ == self@,
    {
        ApplicationAction {
            name: duplicate_opt(&self.name),
            command: duplicate_opt(&self.command),
            icon: duplicate_opt(&self.icon),
            method: self.method.clone(),
            exit: self.exit,
        }
    }
}

impl ActionModel {
    /// Name and executable are present.
    pub open spec fn is_valid(self) -> bool {
        self.name is Some && self.command is Some
    }

    /// Name, executable and icon are present.
    pub open spec fn is_full(self) -> bool {
        self.name is Some && self.command is Some && self.icon is Some
    }

    /// The action with the fallback icon where it has none of its own.
    pub open spec fn with_icon_fallback(self, icon: Option<Seq<char>>) -> ActionModel {
        if self.icon is None {
            ActionModel { icon, ..self }
        } else {
            self
        }
    }
}

impl ApplicationAction {
    /// An action without name, executable or icon, that exits on launch.
    pub fn new(method: &str) -> (action: Self)
        ensures
            action@ == (ActionModel {
                name: None,
                command: None,
                icon: None,
                method: method@,
                exit: true,
            }),
    {
        ApplicationAction { name: None, command: None, icon: None, method: duplicate(method), exit: true }
    }

    /// Whether the action can be launched: it has a name and an executable.
    pub fn is_valid(&self) -> (valid: bool)
        ensures
            valid == self@.is_valid(),
    {
        self.name.is_some() && self.command.is_some()
    }

    /// Whether the action is complete: name, executable and icon.
    pub fn is_full(&self) -> (full: bool)
        ensures
            full == self@.is_full(),
    {
        self.name.is_some() && self.command.is_some() && self.icon.is_some()
    }
}

/// An input that a record asks for before it runs.
#[derive(Debug)]
pub enum ExecVariable {
    StringInput(String),
    PasswordInput(String),
}

/// The mathematical value of an [`ExecVariable`].
pub enum VariableModel {
    StringInput(Seq<char>),
    PasswordInput(Seq<char>),
}

impl View for ExecVariable {
    type V = VariableModel;

    open spec fn view(&self) -> VariableModel {
        match self {
            ExecVariable::StringInput(s) => VariableModel::StringInput(s@),
            ExecVariable::PasswordInput(s) => VariableModel::PasswordInput(s@),
        }
    }
}

impl DeepView for ExecVariable {
    type V = VariableModel;

    open spec fn deep_view(&self) -> VariableModel {
        self@
    }
}

impl Clone for ExecVariable {
    fn clone(&self) -> (copy: Self)
        ensures
            copy@ == self@,
    {
        match self {
            ExecVariable::StringInput(s) => ExecVariable::StringInput(s.clone()),
            ExecVariable::PasswordInput(s) => ExecVariable::PasswordInput(s.clone()),
        }
    }
}

impl VariableModel {
    /// The text shown while the input is empty.
    pub open spec fn placeholder(self) -> Seq<char> {
        match self {
            VariableModel::StringInput(s) => s,
            VariableModel::PasswordInput(s) => s,
        }
    }
}

impl ExecVariable {
    /// The text shown while the input is empty.
    pub fn placeholder(&self) -> (text: String)
        ensures
            text@ == self@.placeholder(),
    {
        match self {
            ExecVariable::StringInput(s) => s.clone(),
            ExecVariable::PasswordInput(s) => s.clone(),
        }
    }
}

/// The mathematical value of an [`AppData`].
pub struct AppModel {
    pub name: Option<Seq<char>>,
    pub command: Option<Seq<char>>,
    pub search_string: Seq<char>,
    pub priority: Option<Priority>,
    pub icon: Option<Seq<char>>,
    pub desktop_file: Option<Seq<char>>,
    pub actions: Seq<ActionModel>,
    pub vars: Seq<VariableModel>,
    pub terminal: bool,
}

/// One candidate record.
#[derive(Debug)]
pub struct AppData {
    pub name: Option<String>,
    pub command: Option<String>,
    pub search_string: String,
    pub priority: Option<Priority>,
    pub icon: Option<String>,
    pub desktop_file: Option<String>,
    pub actions: Vec<ApplicationAction>,
    pub vars: Vec<ExecVariable>,
    pub terminal: bool,
}

impl View for AppData {
    type V = AppModel;

    open spec fn view(&self) -> AppModel {
        AppModel {
            name: self.name.deep_view(),
            command: self.command.deep_view(),
            search_string: self.search_string@,
            priority: self.priority,
            icon: self.icon.deep_view(),
            desktop_file: self.desktop_file.deep_view(),
            actions: self.actions.deep_view(),
            vars: self.vars.deep_view(),
            terminal: self.terminal,
        }
    }
}

impl DeepView for AppData {
    type V = AppModel;

    open spec fn deep_view(&self) -> AppModel {
        self@
    }
}

/// A copy of a list of actions.
pub fn duplicate_actions(actions: &Vec<ApplicationAction>) -> (copy: Vec<ApplicationAction>)
    ensures
        copy.deep_view() == actions.deep_view(),
{
    let mut copy: Vec<ApplicationAction> = Vec::new();
    let mut i: usize = 0;
    while i < actions.len()
        invariant
            i <= actions@.len(),
            copy@.len() == i,
            forall|j: int| 0 <= j < i ==> copy@[j]@ == actions@[j]@,
        decreases actions@.len() - i,
    {
        copy.push(actions[i].clone());
        i += 1;
    }
    assert(copy.deep_view() =~= actions.deep_view());
    copy
}

/// A copy of a list of input variables.
pub fn duplicate_vars(vars: &Vec<ExecVariable>) -> (copy: Vec<ExecVariable>)
    ensures
        copy.deep_view() == vars.deep_view(),
{
    let mut copy: Vec<ExecVariable> = Vec::new();
    let mut i: usize = 0;
    while i < vars.len()
        invariant
            i <= vars@.len(),
            copy@.len() == i,
            forall|j: int| 0 <= j < i ==> copy@[j]@ == vars@[j]@,
        decreases vars@.len() - i,
    {
        copy.push(vars[i].clone());
        i += 1;
    }
    assert(copy.deep_view() =~= vars.deep_view());
    copy
}

impl Clone for AppData {
    fn clone(&self) -> (copy: Self)
        ensures
            copy@ == self@,
    {
        AppData {
            name: duplicate_opt(&self.name),
            command: duplicate_opt(&self.command),
            search_string: self.search_string.clone(),
            priority: self.priority,
            icon: duplicate_opt(&self.icon),
            desktop_file: duplicate_opt(&self.desktop_file),
            actions: duplicate_actions(&self.actions),
            vars: duplicate_vars(&self.vars),
            terminal: self.terminal,
        }
    }
}

impl AppModel {
    /// The identity of a record: its executable and the file it came from.
    pub open spec fn key(self) -> (Option<Seq<char>>, Option<Seq<char>>) {
        (self.command, self.desktop_file)
    }

    /// The identifier under which a use of the record is counted: the
    /// search engine for a web search, the command for an application, a
    /// command or a category, nothing for any other launcher.
    pub open spec fn counted_as(self, kind: LauncherType) -> Option<Seq<char>> {
        match kind {
            LauncherType::Web(web) => Some("websearch-"@ + web.engine@),
            LauncherType::App(_) | LauncherType::Command(_) | LauncherType::Category(_) => {
                self.command
            },
            _ => None,
        }
    }
}

/// A user's override for the records of a given name.
#[derive(Debug)]
pub struct SherlockAlias {
    pub name: Option<String>,
    pub icon: Option<String>,
    pub command: Option<String>,
    pub keywords: Option<String>,
    pub actions: Option<Vec<ApplicationAction>>,
    pub add_actions: Option<Vec<ApplicationAction>>,
    pub variables: Option<Vec<ExecVariable>>,
}

/// The mathematical value of a [`SherlockAlias`].
pub struct AliasModel {
    pub name: Option<Seq<char>>,
    pub icon: Option<Seq<char>>,
    pub command: Option<Seq<char>>,
    pub keywords: Option<Seq<char>>,
    pub actions: Option<Seq<ActionModel>>,
    pub add_actions: Option<Seq<ActionModel>>,
    pub variables: Option<Seq<VariableModel>>,
}

impl View for SherlockAlias {
    type V = AliasModel;

    open spec fn view(&self) -> AliasModel {
        AliasModel {
            name: self.name.deep_view(),
            icon: self.icon.deep_view(),
            command: self.command.deep_view(),
            keywords: self.keywords.deep_view(),
            actions: self.actions.deep_view(),
            add_actions: self.add_actions.deep_view(),
            variables: self.variables.deep_view(),
        }
    }
}

impl DeepView for SherlockAlias {
    type V = AliasModel;

    open spec fn deep_view(&self) -> AliasModel {
        self@
    }
}

/// The search key of a record: its name, then, where keywords are in use,
/// a semicolon and the keywords; all of it in ASCII lowercase.
pub open spec fn search_key(name: Option<Seq<char>>, keywords: Seq<char>, use_keywords: bool) -> Seq<
    char,
> {
    let shown = match name {
        Some(n) => n,
        None => Seq::empty(),
    };
    if use_keywords {
        ascii_lower(shown + seq![';'] + keywords)
    } else {
        ascii_lower(shown)
    }
}

/// Builds the search key of a record.
pub fn construct_search(name: Option<&str>, search_str: &str, use_keywords: bool) -> (key: String)
    ensures
        key@ == search_key(name.deep_view(), search_str@, use_keywords),
{
    let shown: &str = match name {
        Some(n) => n,
        None => "",
    };
    proof {
        reveal_strlit("");
        reveal_strlit(";");
        assert(";"@ =~= seq![';']);
    }
    let mut key = String::new();
    push_ascii_lower(&mut key, shown);
    if use_keywords {
        push_ascii_lower(&mut key, ";");
        push_ascii_lower(&mut key, search_str);
        assert(key@ =~= ascii_lower(shown@ + seq![';'] + search_str@));
    } else {
        assert(key@ =~= ascii_lower(shown@));
    }
    assert(match name {
        Some(n) => n@,
        None => Seq::empty(),
    } =~= shown@);
    key
}

/// The actions, each with the fallback icon where it has none of its own.
pub open spec fn with_icon_fallbacks(actions: Seq<ActionModel>, icon: Option<Seq<char>>) -> Seq<
    ActionModel,
> {
    actions.map_values(|a: ActionModel| a.with_icon_fallback(icon))
}

/// The name under which a record is shown and searched: its own, or else
/// the display name of its launcher.
pub open spec fn shown_name(own: Option<Seq<char>>, launcher: Option<Seq<char>>) -> Option<
    Seq<char>,
> {
    if own is Some {
        own
    } else {
        launcher
    }
}

/// The record after the overlay of `alias`. `resolved_icon` is what the
/// alias's icon name resolved to.
pub open spec fn overlaid(
    data: AppModel,
    display_name: Option<Seq<char>>,
    alias: Option<AliasModel>,
    resolved_icon: Option<Seq<char>>,
    use_keywords: bool,
) -> AppModel {
    match alias {
        None => AppModel {
            search_string: search_key(
                shown_name(data.name, display_name),
                data.search_string,
                use_keywords,
            ),
            ..data
        },
        Some(a) => {
            let name = if a.name is Some {
                a.name
            } else {
                data.name
            };
            let icon = if a.icon is Some {
                resolved_icon
            } else {
                data.icon
            };
            let keywords = match a.keywords {
                Some(k) => k,
                None => data.search_string,
            };
            let added = match a.add_actions {
                Some(more) => data.actions + with_icon_fallbacks(more, icon),
                None => data.actions,
            };
            AppModel {
                name,
                icon,
                search_string: search_key(shown_name(name, display_name), keywords, use_keywords),
                command: if a.command is Some {
                    a.command
                } else {
                    data.command
                },
                actions: match a.actions {
                    Some(replacement) => with_icon_fallbacks(replacement, icon),
                    None => added,
                },
                vars: match a.variables {
                    Some(v) => data.vars + v,
                    None => data.vars,
                },
                ..data
            }
        },
    }
}

/// Appends `more` to `into`, giving each action the fallback icon where it
/// has none of its own.
fn append_with_icon(
    into: &mut Vec<ApplicationAction>,
    more: Vec<ApplicationAction>,
    icon: &Option<String>,
)
    ensures
        final(into).deep_view() == old(into).deep_view() + with_icon_fallbacks(
            more.deep_view(),
            icon.deep_view(),
        ),
{
    let ghost before = into.deep_view();
    let ghost added = with_icon_fallbacks(more.deep_view(), icon.deep_view());
    let mut i: usize = 0;
    while i < more.len()
        invariant
            i <= more@.len(),
            added == with_icon_fallbacks(more.deep_view(), icon.deep_view()),
            into.deep_view() == before + added.take(i as int),
        decreases more@.len() - i,
    {
        let mut action = more[i].clone();
        if action.icon.is_none() {
            action.icon = duplicate_opt(icon);
        }
        proof {
            assert(more.deep_view()[i as int] == more@[i as int]@);
            assert(action@ == added[i as int]);
        }
        let ghost prev = into.deep_view();
        into.push(action);
        assert(into.deep_view() =~= prev.push(added[i as int]));
        i += 1;
        assert(added.take(i as int) =~= added.take(i - 1).push(added[i - 1]));
        assert(into.deep_view() =~= before + added.take(i as int));
    }
    assert(added.take(i as int) =~= added);
}

/// Appends copies of `more` to `into`.
fn append_vars(into: &mut Vec<ExecVariable>, more: &Vec<ExecVariable>)
    ensures
        final(into).deep_view() == old(into).deep_view() + more.deep_view(),
{
    let ghost before = into.deep_view();
    let mut i: usize = 0;
    while i < more.len()
        invariant
            i <= more@.len(),
            into.deep_view() == before + more.deep_view().take(i as int),
        decreases more@.len() - i,
    {
        let ghost prev = into.deep_view();
        let v = more[i].clone();
        proof {
            assert(more.deep_view()[i as int] == more@[i as int]@);
        }
        into.push(v);
        assert(into.deep_view() =~= prev.push(more.deep_view()[i as int]));
        i += 1;
        assert(more.deep_view().take(i as int) =~= more.deep_view().take(i - 1).push(
            more.deep_view()[i - 1],
        ));
        assert(into.deep_view() =~= before + more.deep_view().take(i as int));
    }
    assert(more.deep_view().take(i as int) =~= more.deep_view());
}

impl AppData {
    /// The empty record.
    pub fn new() -> (data: Self)
        ensures
            data@ == (AppModel {
                name: None,
                command: None,
                search_string: Seq::empty(),
                priority: None,
                icon: None,
                desktop_file: None,
                actions: Seq::empty(),
                vars: Seq::empty(),
                terminal: false,
            }),
    {
        let data = AppData {
            name: None,
            command: None,
            search_string: String::new(),
            priority: None,
            icon: None,
            desktop_file: None,
            actions: Vec::new(),
            vars: Vec::new(),
            terminal: false,
        };
        assert(data.actions.deep_view() =~= Seq::empty());
        assert(data.vars.deep_view() =~= Seq::empty());
        data
    }

    /// The identifier under which a use of the record is counted.
    pub fn get_exec(&self, launcher: &Launcher) -> (command: Option<String>)
        ensures
            command.deep_view() == self@.counted_as(launcher.launcher_type),
    {
        match &launcher.launcher_type {
            LauncherType::Web(web) => {
                let mut id = duplicate("websearch-");
                vstd::string::StringExecFns::append(&mut id, web.engine.as_str());
                Some(id)
            },
            LauncherType::App(_) | LauncherType::Command(_) | LauncherType::Category(_) => {
                duplicate_opt(&self.command)
            },
            _ => None,
        }
    }

    /// Whether two records are the same candidate: they agree in their
    /// executable and in the file they came from.
    pub fn same_key(&self, other: &AppData) -> (same: bool)
        ensures
            same == (self@.key() == other@.key()),
    {
        opt_text_eq(&self.command, &other.command) && opt_text_eq(
            &self.desktop_file,
            &other.desktop_file,
        )
    }

    /// Overlays `alias` on the record, or, without an alias, only rebuilds
    /// the search key. `display_name` is the display name of the record's
    /// launcher; `resolved_icon` is what the icon name of the alias
    /// resolved to, and is read only where the alias names an icon.
    pub fn apply_alias(
        &mut self,
        display_name: Option<&str>,
        alias: Option<SherlockAlias>,
        resolved_icon: Option<String>,
        use_keywords: bool,
    )
        ensures
            final(self)@ == overlaid(
                old(self)@,
                display_name.deep_view(),
                alias.deep_view(),
                resolved_icon.deep_view(),
                use_keywords,
            ),
    {
        let ghost before = self@;
        match alias {
            Some(alias) => {
                if alias.name.is_some() {
                    self.name = alias.name;
                }
                if alias.icon.is_some() {
                    self.icon = resolved_icon;
                }
                let key = {
                    let name: Option<&str> = match &self.name {
                        Some(n) => Some(n.as_str()),
                        None => display_name,
                    };
                    match &alias.keywords {
                        Some(k) => construct_search(name, k.as_str(), use_keywords),
                        None => construct_search(name, self.search_string.as_str(), use_keywords),
                    }
                };
                self.search_string = key;
                if alias.command.is_some() {
                    self.command = alias.command;
                }
                match alias.add_actions {
                    Some(more) => {
                        append_with_icon(&mut self.actions, more, &self.icon);
                    },
                    None => {},
                }
                match alias.actions {
                    Some(replacement) => {
                        let mut actions: Vec<ApplicationAction> = Vec::new();
                        assert(actions.deep_view() =~= Seq::empty());
                        append_with_icon(&mut actions, replacement, &self.icon);
                        self.actions = actions;
                        assert(self.actions.deep_view() =~= with_icon_fallbacks(
                            replacement.deep_view(),
                            self.icon.deep_view(),
                        ));
                    },
                    None => {},
                }
                match alias.variables {
                    Some(v) => {
                        append_vars(&mut self.vars, &v);
                    },
                    None => {},
                }
            },
            None => {
                let key = {
                    let name: Option<&str> = match &self.name {
                        Some(n) => Some(n.as_str()),
                        None => display_name,
                    };
                    construct_search(name, self.search_string.as_str(), use_keywords)
                };
                self.search_string = key;
            },
        }
    }
}

} // verus!
