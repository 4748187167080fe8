//! The state of a query session.
//!
//! Each change of the query starts a computation of its own and supersedes
//! the one that was under way. A computation is known by its ticket; only
//! the one whose ticket is current may publish its ranking.

use crate::launcher::children::RenderableChild;
use crate::text::{ascii_lower, chars_of, eq_ignore_ascii_case, str_eq, string_of, unicode_lower};
use vstd::prelude::*;

verus! {

/// The scope of a search.
#[derive(Debug)]
pub enum LauncherMode {
    /// Nothing typed.
    Home,
    /// Searching the candidates of every mode.
    Search,
    /// Restricted to the launchers with the alias `short`.
    Alias { short: String, name: String },
}

/// The mathematical value of a [`LauncherMode`].
pub enum ModeModel {
    Home,
    Search,
    Alias { short: Seq<char>, name: Seq<char> },
}

impl View for LauncherMode {
    type V = ModeModel;

    open spec fn view(&self) -> ModeModel {
        match self {
            LauncherMode::Home => ModeModel::Home,
            LauncherMode::Search => ModeModel::Search,
            LauncherMode::Alias { short, name } => ModeModel::Alias { short: short@, name: name@ },
        }
    }
}

impl DeepView for LauncherMode {
    type V = ModeModel;

    open spec fn deep_view(&self) -> ModeModel {
        self@
    }
}

impl Clone for LauncherMode {
    fn clone(&self) -> (copy: Self)
        ensures
            copy@ == self@,
    {
        match self {
            LauncherMode::Home => LauncherMode::Home,
            LauncherMode::Search => LauncherMode::Search,
            LauncherMode::Alias { short, name } => LauncherMode::Alias {
                short: short.clone(),
                name: name.clone(),
            },
        }
    }
}

impl ModeModel {
    /// The name by which candidates are scoped: `all`, or the alias.
    pub open spec fn scope(self) -> Seq<char> {
        match self {
            ModeModel::Alias { short, .. } => short,
            _ => "all"@,
        }
    }

    /// The text shown for the mode.
    pub open spec fn display(self) -> Seq<char> {
        match self {
            ModeModel::Home => "All"@,
            ModeModel::Search => "Search"@,
            ModeModel::Alias { name, .. } => name,
        }
    }

    /// Whether this is the mode of an alias that `input` names, whatever
    /// the case of its ASCII letters.
    pub open spec fn answers_to(self, input: Seq<char>) -> bool {
        match self {
            ModeModel::Alias { short, .. } => ascii_lower(short) == ascii_lower(input),
            _ => false,
        }
    }
}

/// The index of the first mode that answers to `input`, from `from` on, or
/// `-1`.
pub open spec fn first_answering(modes: Seq<ModeModel>, input: Seq<char>, from: int) -> int
    decreases modes.len() - from,
{
    if from < 0 || from >= modes.len() {
        -1
    } else if modes[from].answers_to(input) {
        from
    } else {
        first_answering(modes, input, from + 1)
    }
}

/// The mode that follows `mode` when the query becomes `query`, and whether
/// the query named an alias and is to be cleared.
///
/// An empty query brings a search back home; the first character leaves
/// home for a search. While searching, or within an alias, a query that
/// ends in a space and names an alias before it enters that alias.
pub open spec fn transition(mode: ModeModel, query: Seq<char>, modes: Seq<ModeModel>) -> (
    ModeModel,
    bool,
) {
    if query.len() == 0 {
        if mode is Search {
            (ModeModel::Home, false)
        } else {
            (mode, false)
        }
    } else if mode is Home {
        (ModeModel::Search, false)
    } else if query.last() == ' ' {
        let found = first_answering(modes, query.drop_last(), 0);
        if found >= 0 {
            (modes[found], true)
        } else {
            (mode, false)
        }
    } else {
        (mode, false)
    }
}

impl LauncherMode {
    /// The name by which candidates are scoped.
    pub fn as_str(&self) -> (scope: &str)
        ensures
            scope@ == self@.scope(),
    {
        match self {
            LauncherMode::Alias { short, .. } => short.as_str(),
            _ => "all",
        }
    }

    /// Whether an alias restricts the search.
    pub fn is_active(&self) -> (active: bool)
        ensures
            active == (self@ is Alias),
    {
        match self {
            LauncherMode::Alias { .. } => true,
            _ => false,
        }
    }

    /// The text shown for the mode.
    pub fn display_str(&self) -> (text: String)
        ensures
            text@ == self@.display(),
    {
        match self {
            LauncherMode::Home => crate::text::duplicate("All"),
            LauncherMode::Search => crate::text::duplicate("Search"),
            LauncherMode::Alias { name, .. } => name.clone(),
        }
    }

    /// Moves to the mode that `query` asks for. Returns whether the query
    /// named an alias, in which case the search bar is to be cleared.
    pub fn transition_for_query(&mut self, query: &str, modes: &Vec<LauncherMode>) -> (cleared:
        bool)
        ensures
            (final(self)@, cleared) == transition(old(self)@, query@, modes.deep_view()),
    {
        let chars = chars_of(query);
        if chars.len() == 0 {
            match self {
                LauncherMode::Search => {
                    *self = LauncherMode::Home;
                },
                _ => {},
            }
            return false;
        }
        match self {
            LauncherMode::Home => {
                *self = LauncherMode::Search;
                return false;
            },
            _ => {},
        }
        if chars[chars.len() - 1] != ' ' {
            return false;
        }
        let input = string_of(&chars, 0, chars.len() - 1);
        assert(input@ =~= query@.drop_last());
        let mut i: usize = 0;
        while i < modes.len()
            invariant
                i <= modes@.len(),
                *self == *old(self),
                !(self@ is Home),
                query@.len() > 0,
                query@.last() == ' ',
                input@ == query@.drop_last(),
                first_answering(modes.deep_view(), input@, 0) == first_answering(
                    modes.deep_view(),
                    input@,
                    i as int,
                ),
            decreases modes@.len() - i,
        {
            assert(modes.deep_view()[i as int] == modes@[i as int]@);
            let answers = match &modes[i] {
                LauncherMode::Alias { short, .. } => eq_ignore_ascii_case(
                    short.as_str(),
                    input.as_str(),
                ),
                _ => false,
            };
            if answers {
                *self = modes[i].clone();
                return true;
            }
            i += 1;
        }
        false
    }
}

/// What the surrounding program is to do after a change of the query.
#[derive(Debug)]
pub enum QueryAction {
    /// The query is the one whose ranking is shown: nothing to do.
    Unchanged,
    /// Drop the computation `superseded`, if any, and start one for
    /// `query` in the scope `mode`, to be handed back with `ticket`.
    /// `reset_input` tells that the query named an alias and the search
    /// bar is to be cleared.
    Compute { ticket: u64, query: String, mode: String, reset_input: bool, superseded: Option<u64> },
}

/// What became of the inputs for the variables of the first candidate.
#[derive(Clone, Copy, Debug, PartialEq, Eq, Structural)]
pub enum InputUpdate {
    /// The inputs stay as they are.
    Keep,
    /// The first candidate asks for nothing: the inputs are removed.
    Clear,
    /// The first candidate changed: the inputs are rebuilt from the
    /// variables of the candidate at this snapshot index.
    Rebuild(usize),
}

/// What became of a ranking that a computation handed back.
#[derive(Clone, Copy, Debug, PartialEq, Eq, Structural)]
pub enum Publication {
    /// The computation was superseded: its ranking is dropped.
    Discarded,
    /// The ranking is shown.
    Published(InputUpdate),
}

/// Whether a computation is under way.
#[derive(Clone, Copy, Debug, PartialEq, Eq, Structural)]
pub enum SessionState {
    /// No computation is under way: the ranking that is shown is current.
    Idle,
    /// A computation is under way for the last query.
    Computing,
}

/// The state of a query session.
#[derive(Debug)]
pub struct QuerySession {
    /// The scope of the search.
    pub mode: LauncherMode,
    /// The modes that an alias can enter.
    pub modes: Vec<LauncherMode>,
    /// The query whose ranking is shown.
    pub last_query: Option<String>,
    /// The ranking that is shown: indices into the snapshot.
    pub filtered_indices: Vec<usize>,
    /// The position of the cursor in the ranking.
    pub selected_index: usize,
    /// The input that has the focus: 0 for the search bar.
    pub active_bar: usize,
    /// The ticket of the computation under way.
    pub in_flight: Option<u64>,
    /// The ticket of the next computation.
    pub next_ticket: u64,
}

/// The query as it is matched: in lowercase, and empty where it named an
/// alias.
pub open spec fn effective_query(mode: ModeModel, text: Seq<char>, modes: Seq<ModeModel>) -> Seq<
    char,
> {
    if transition(mode, unicode_lower(text), modes).1 {
        Seq::empty()
    } else {
        unicode_lower(text)
    }
}

/// The ticket after `ticket`.
pub open spec fn following(ticket: u64) -> u64 {
    if ticket == u64::MAX {
        0
    } else {
        (ticket + 1) as u64
    }
}

/// The update of the inputs when the ranking `results` replaces the
/// ranking `shown`. An empty ranking leaves the inputs alone. A first
/// candidate that asks for nothing clears them. A first candidate that
/// asks for input has them rebuilt, unless it was the first candidate
/// before.
pub open spec fn input_update(
    snapshot: Seq<RenderableChild>,
    shown: Seq<usize>,
    results: Seq<usize>,
) -> InputUpdate {
    if results.len() == 0 {
        InputUpdate::Keep
    } else {
        let first = results[0];
        if first < snapshot.len() && snapshot[first as int] is AppLike {
            if shown.len() > 0 && shown[0] == first {
                InputUpdate::Keep
            } else {
                InputUpdate::Rebuild(first)
            }
        } else {
            InputUpdate::Clear
        }
    }
}

impl QuerySession {
    /// A session that shows nothing yet.
    pub fn new(modes: Vec<LauncherMode>) -> (session: Self)
        ensures
            session.mode@ is Home,
            session.modes == modes,
            session.last_query is None,
            session.filtered_indices@.len() == 0,
            session.selected_index == 0,
            session.active_bar == 0,
            session.in_flight is None,
    {
        QuerySession {
            mode: LauncherMode::Home,
            modes,
            last_query: None,
            filtered_indices: Vec::new(),
            selected_index: 0,
            active_bar: 0,
            in_flight: None,
            next_ticket: 0,
        }
    }

    /// Whether a computation is under way.
    pub fn state(&self) -> (state: SessionState)
        ensures
            state == if self.in_flight is Some {
                SessionState::Computing
            } else {
                SessionState::Idle
            },
    {
        match self.in_flight {
            Some(_) => SessionState::Computing,
            None => SessionState::Idle,
        }
    }

    /// Takes a change of the query. A text that, lowercased, is the query
    /// whose ranking is shown changes nothing. Any other text supersedes
    /// the computation under way and starts a new one.
    pub fn submit_query(&mut self, text: &str) -> (action: QueryAction)
        ensures
            old(self).last_query.deep_view() == Some(unicode_lower(text@)) ==> action is Unchanged
                && *final(self) == *old(self),
            old(self).last_query.deep_view() != Some(unicode_lower(text@)) ==> {
                &&& action matches QueryAction::Compute {
                    ticket,
                    query,
                    mode,
                    reset_input,
                    superseded,
                }
                &&& ticket == old(self).next_ticket
                &&& superseded == old(self).in_flight
                &&& (final(self).mode@, reset_input) == transition(
                    old(self).mode@,
                    unicode_lower(text@),
                    old(self).modes.deep_view(),
                )
                &&& query@ == effective_query(old(self).mode@, text@, old(self).modes.deep_view())
                &&& mode@ == final(self).mode@.scope()
                &&& final(self).in_flight == Some(ticket)
                &&& final(self).next_ticket == following(ticket)
                &&& final(self).modes == old(self).modes
                &&& final(self).last_query == old(self).last_query
                &&& final(self).filtered_indices == old(self).filtered_indices
                &&& final(self).selected_index == old(self).selected_index
                &&& final(self).active_bar == old(self).active_bar
            },
    {
        let lowered = text.to_lowercase();
        let same = match &self.last_query {
            Some(last) => str_eq(last.as_str(), lowered.as_str()),
            None => false,
        };
        if same {
            return QueryAction::Unchanged;
        }
        let superseded = self.in_flight;
        let reset_input = self.mode.transition_for_query(lowered.as_str(), &self.modes);
        let query = if reset_input {
            String::new()
        } else {
            lowered
        };
        let ticket = self.next_ticket;
        self.next_ticket = if ticket == u64::MAX {
            0
        } else {
            ticket + 1
        };
        self.in_flight = Some(ticket);
        let mode = crate::text::duplicate(self.mode.as_str());
        QueryAction::Compute { ticket, query, mode, reset_input, superseded }
    }

    /// Takes the ranking that the computation `ticket` handed back for
    /// `query`. The ranking of a superseded computation is dropped and
    /// changes nothing. Any other ranking is shown from its first element
    /// on, and `query` becomes the query that is shown.
    pub fn apply_results(
        &mut self,
        ticket: u64,
        results: Vec<usize>,
        query: String,
        snapshot: &Vec<RenderableChild>,
    ) -> (outcome: Publication)
        ensures
            old(self).in_flight != Some(ticket) ==> outcome == Publication::Discarded
                && *final(self) == *old(self),
            old(self).in_flight == Some(ticket) ==> {
                &&& outcome == Publication::Published(
                    input_update(snapshot@, old(self).filtered_indices@, results@),
                )
                &&& final(self).filtered_indices == results
                &&& final(self).last_query == Some(query)
                &&& final(self).selected_index == 0
                &&& final(self).active_bar == 0
                &&& final(self).in_flight is None
                &&& final(self).mode == old(self).mode
                &&& final(self).modes == old(self).modes
                &&& final(self).next_ticket == old(self).next_ticket
            },
    {
        match self.in_flight {
            Some(current) => {
                if current != ticket {
                    return Publication::Discarded;
                }
            },
            None => {
                return Publication::Discarded;
            },
        }
        let update = if results.len() == 0 {
            InputUpdate::Keep
        } else {
            let first = results[0];
            let asks = if first < snapshot.len() {
                snapshot[first].vars().is_some()
            } else {
                false
            };
            if asks {
                let same_top = if self.filtered_indices.len() > 0 {
                    self.filtered_indices[0] == first
                } else {
                    false
                };
                if same_top {
                    InputUpdate::Keep
                } else {
                    InputUpdate::Rebuild(first)
                }
            } else {
                InputUpdate::Clear
            }
        };
        self.selected_index = 0;
        self.active_bar = 0;
        self.filtered_indices = results;
        self.last_query = Some(query);
        self.in_flight = None;
        Publication::Published(update)
    }
}

} // verus!
