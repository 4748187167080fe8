//! The candidates that the search pipeline filters and ranks.

use crate::appdata::{AppData, ApplicationAction, ExecVariable};
use crate::config::HomeType;
use crate::launcher::{Launcher, LauncherType};
use crate::priority::{u32_pattern, Priority};
use crate::text::{chars_of, duplicate_opt, str_eq, string_of, trim_bounds, trimmed};
use std::sync::Arc;
use vstd::prelude::*;

verus! {

/// What a weather candidate shows.
#[derive(Debug)]
pub struct WeatherData {
    pub temperature: String,
    pub icon: Option<String>,
    pub format_str: String,
}

/// What a calculator candidate can evaluate.
#[derive(Debug)]
pub struct CalcData {
    pub capabilities: Vec<String>,
}

/// Whether the list names the capability.
pub open spec fn has_capability(capabilities: Seq<Seq<char>>, name: Seq<char>) -> bool {
    exists|i: int| 0 <= i < capabilities.len() && #[trigger] capabilities[i] == name
}

/// What a calculator shows for a query: the result to copy and the text
/// to show, or nothing.
///
/// `math` is what the query evaluates to as an expression, `intent` what
/// it converts to as a conversion, each `None` where the query is no such
/// thing. An empty query shows nothing. A conversion wins over an
/// expression. An expression is shown only where the calculator may
/// evaluate expressions and the value differs from the trimmed query.
pub open spec fn calc_result(
    capabilities: Seq<Seq<char>>,
    keyword: Seq<char>,
    math: Option<Seq<char>>,
    intent: Option<Seq<char>>,
) -> Option<(Seq<char>, Seq<char>)> {
    if trimmed(keyword).len() == 0 {
        None
    } else if intent is Some {
        Some((intent->0, intent->0))
    } else if has_capability(capabilities, "calc.math"@) && math is Some && math->0 != trimmed(
        keyword,
    ) {
        Some((math->0, "= "@ + math->0))
    } else {
        None
    }
}

impl CalcData {
    /// A calculator with the given capabilities.
    pub fn new(capabilities: Vec<String>) -> (calc: Self)
        ensures
            calc.capabilities == capabilities,
    {
        CalcData { capabilities }
    }

    /// The capabilities of a calculator that was given none.
    pub fn default_capabilities() -> (capabilities: Vec<String>)
        ensures
            capabilities.deep_view() == seq!["calc.math"@, "calc.units"@],
    {
        let mut capabilities: Vec<String> = Vec::new();
        capabilities.push(crate::text::duplicate("calc.math"));
        capabilities.push(crate::text::duplicate("calc.units"));
        assert(capabilities.deep_view() =~= seq!["calc.math"@, "calc.units"@]);
        capabilities
    }

    /// Whether the calculator has the capability `name`.
    pub fn can(&self, name: &str) -> (able: bool)
        ensures
            able == has_capability(self.capabilities.deep_view(), name@),
    {
        let mut i: usize = 0;
        while i < self.capabilities.len()
            invariant
                i <= self.capabilities@.len(),
                forall|j: int| 0 <= j < i ==> self.capabilities.deep_view()[j] != name@,
            decreases self.capabilities@.len() - i,
        {
            assert(self.capabilities.deep_view()[i as int] == self.capabilities@[i as int]@);
            if str_eq(self.capabilities[i].as_str(), name) {
                return true;
            }
            i += 1;
        }
        false
    }

    /// Decides what the calculator shows for `keyword`, given what the
    /// query evaluates and converts to. The candidate shows exactly where
    /// there is a result.
    pub fn based_show(&self, keyword: &str, math: Option<String>, intent: Option<String>) -> (result:
        Option<(String, String)>)
        ensures
            match calc_result(
                self.capabilities.deep_view(),
                keyword@,
                math.deep_view(),
                intent.deep_view(),
            ) {
                Some(r) => result is Some && (result->0).0@ == r.0 && (result->0).1@ == r.1,
                None => result is None,
            },
    {
        let chars = chars_of(keyword);
        let (a, b) = trim_bounds(&chars, 0, chars.len());
        assert(chars@.subrange(0, chars@.len() as int) =~= keyword@);
        if a == b {
            return None;
        }
        match intent {
            Some(r) => {
                return Some((r.clone(), r));
            },
            None => {},
        }
        if !self.can("calc.math") {
            return None;
        }
        match math {
            Some(r) => {
                let query = string_of(&chars, a, b);
                if str_eq(r.as_str(), query.as_str()) {
                    None
                } else {
                    let mut shown = crate::text::duplicate("= ");
                    vstd::string::StringExecFns::append(&mut shown, r.as_str());
                    Some((r, shown))
                }
            },
            None => None,
        }
    }
}

/// One candidate of the snapshot, with the launcher it belongs to.
#[derive(Debug)]
pub enum RenderableChild {
    AppLike { launcher: Arc<Launcher>, inner: AppData },
    WeatherLike { launcher: Arc<Launcher>, inner: WeatherData },
    CalcLike { launcher: Arc<Launcher>, inner: CalcData },
}

impl RenderableChild {
    /// The launcher of the candidate.
    pub open spec fn spec_launcher(&self) -> Launcher {
        match self {
            RenderableChild::AppLike { launcher, .. } => **launcher,
            RenderableChild::WeatherLike { launcher, .. } => **launcher,
            RenderableChild::CalcLike { launcher, .. } => **launcher,
        }
    }

    /// The text that a query is matched against: the search key of a
    /// record, nothing for the other candidates.
    pub open spec fn spec_search(&self) -> Seq<char> {
        match self {
            RenderableChild::AppLike { inner, .. } => inner.search_string@,
            _ => Seq::empty(),
        }
    }

    /// The ranking key: a record's own priority where it has one, else the
    /// base priority of the launcher.
    pub open spec fn spec_priority(&self) -> Priority {
        match self {
            RenderableChild::AppLike { inner, launcher } => match inner.priority {
                Some(p) => p,
                None => Priority { bits: u32_pattern(launcher.priority) as u32 },
            },
            _ => Priority { bits: u32_pattern(self.spec_launcher().priority) as u32 },
        }
    }

    /// The launcher of the candidate.
    pub fn launcher(&self) -> (launcher: &Launcher)
        ensures
            *launcher == self.spec_launcher(),
    {
        match self {
            RenderableChild::AppLike { launcher, .. } => launcher,
            RenderableChild::WeatherLike { launcher, .. } => launcher,
            RenderableChild::CalcLike { launcher, .. } => launcher,
        }
    }

    /// The name of the launcher.
    pub fn name(&self) -> (name: Option<&str>)
        ensures
            name.deep_view() == self.spec_launcher().name.deep_view(),
    {
        match &self.launcher().name {
            Some(n) => Some(n.as_str()),
            None => None,
        }
    }

    /// The display name of the launcher.
    pub fn display_name(&self) -> (name: Option<String>)
        ensures
            name.deep_view() == self.spec_launcher().display_name.deep_view(),
    {
        duplicate_opt(&self.launcher().display_name)
    }

    /// The mode that the candidate belongs to.
    pub fn alias(&self) -> (alias: Option<&str>)
        ensures
            alias.deep_view() == self.spec_launcher().alias.deep_view(),
    {
        match &self.launcher().alias {
            Some(a) => Some(a.as_str()),
            None => None,
        }
    }

    /// Where the candidate shows.
    pub fn home(&self) -> (home: HomeType)
        ensures
            home == self.spec_launcher().home,
    {
        self.launcher().home
    }

    /// Whether the candidate loads in the background.
    pub fn is_async(&self) -> (flag: bool)
        ensures
            flag == self.spec_launcher().is_async,
    {
        self.launcher().is_async
    }

    /// The kind of the launcher.
    pub fn launcher_type(&self) -> (kind: &LauncherType)
        ensures
            *kind == self.spec_launcher().launcher_type,
    {
        &self.launcher().launcher_type
    }

    /// The ranking key of the candidate.
    pub fn priority(&self) -> (priority: Priority)
        ensures
            priority == self.spec_priority(),
    {
        match self {
            RenderableChild::AppLike { inner, launcher } => match inner.priority {
                Some(p) => p,
                None => Priority::from_u32(launcher.priority),
            },
            _ => Priority::from_u32(self.launcher().priority),
        }
    }

    /// The text that a query is matched against.
    pub fn search(&self) -> (key: &str)
        ensures
            key@ == self.spec_search(),
    {
        match self {
            RenderableChild::AppLike { inner, .. } => inner.search_string.as_str(),
            _ => {
                proof {
                    reveal_strlit("");
                }
                assert(""@ =~= Seq::<char>::empty());
                ""
            },
        }
    }

    /// The inputs that a record asks for; other candidates have none.
    pub fn vars(&self) -> (vars: Option<&Vec<ExecVariable>>)
        ensures
            match self {
                RenderableChild::AppLike { inner, .. } => vars == Some(&inner.vars),
                _ => vars is None,
            },
    {
        match self {
            RenderableChild::AppLike { inner, .. } => Some(&inner.vars),
            _ => None,
        }
    }

    /// The secondary actions of a record; other candidates have none.
    pub fn actions(&self) -> (actions: Option<&Vec<ApplicationAction>>)
        ensures
            match self {
                RenderableChild::AppLike { inner, .. } => actions == Some(&inner.actions),
                _ => actions is None,
            },
    {
        match self {
            RenderableChild::AppLike { inner, .. } => Some(&inner.actions),
            _ => None,
        }
    }

    /// The identifier under which a use of the candidate is counted, if it
    /// is counted at all.
    pub fn get_exec(&self) -> (command: Option<String>)
        ensures
            command.deep_view() == match self {
                RenderableChild::AppLike { inner, launcher } => inner@.counted_as(
                    launcher.launcher_type,
                ),
                _ => None,
            },
    {
        match self {
            RenderableChild::AppLike { inner, launcher } => inner.get_exec(launcher),
            _ => None,
        }
    }
}

} // verus!
