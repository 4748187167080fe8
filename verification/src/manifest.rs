//! Desktop entry files.
//!
//! A desktop entry is read line by line. Lines of the section
//! `Desktop Entry` describe the record; the lines of every other section
//! describe one secondary action. An entry that asks not to be shown, or
//! whose name is on the user's ignore list, yields no record.

use crate::appdata::{ActionModel, AppData, AppModel, ApplicationAction};
use crate::text::{
    ascii_lower, chars_of, duplicate, duplicate_opt, eq_ignore_ascii_case, find_char, find_in,
    is_white_space, lemma_find_char, lemma_trimmed_unchanged, str_eq, string_of,
    to_ascii_lowercase, trim_bounds, trimmed, unicode_lower,
};
use vstd::prelude::*;

verus! {

/// What a glob pattern says of a name: `None` where the pattern is not
/// well formed, else whether the whole name matches it. This is
/// `glob::Pattern::new` followed by `glob::Pattern::matches`.
pub uninterp spec fn glob_match(pattern: Seq<char>, name: Seq<char>) -> Option<bool>;

/// `glob::Pattern::new` and `glob::Pattern::matches`: compiles `pattern`
/// and matches `name` against it with the default options. A pattern that
/// does not compile gives `None`.
#[verifier::external_body]
fn glob_pattern_matches(pattern: &str, name: &str) -> (verdict: Option<bool>)
    ensures
        verdict == glob_match(pattern@, name@),
{
    match glob::Pattern::new(pattern) {
        Ok(compiled) => Some(compiled.matches(name)),
        Err(_) => None,
    }
}

/// Whether some pattern of the list is well formed and matches `name`.
pub open spec fn any_pattern_matches(patterns: Seq<Seq<char>>, name: Seq<char>) -> bool {
    exists|i: int| 0 <= i < patterns.len() && glob_match(#[trigger] patterns[i], name) == Some(true)
}

/// The user's ignore list: glob patterns, held in lowercase.
#[derive(Debug)]
pub struct IgnoreList {
    pub patterns: Vec<String>,
}

impl View for IgnoreList {
    type V = Seq<Seq<char>>;

    open spec fn view(&self) -> Seq<Seq<char>> {
        self.patterns.deep_view()
    }
}

impl IgnoreList {
    /// The list that ignores nothing.
    pub fn empty() -> (list: Self)
        ensures
            list@ == Seq::<Seq<char>>::empty(),
    {
        let list = IgnoreList { patterns: Vec::new() };
        assert(list@ =~= Seq::<Seq<char>>::empty());
        list
    }

    /// The list made of the lines of an ignore file, one pattern per line,
    /// each lowercased.
    pub fn from_lines(lines: &Vec<String>) -> (list: Self)
        ensures
            list@ == lines.deep_view().map_values(|l: Seq<char>| unicode_lower(l)),
    {
        let mut patterns: Vec<String> = Vec::new();
        let mut i: usize = 0;
        while i < lines.len()
            invariant
                i <= lines@.len(),
                patterns@.len() == i,
                forall|j: int| 0 <= j < i ==> patterns@[j]@ == unicode_lower(lines@[j]@),
            decreases lines@.len() - i,
        {
            patterns.push(lines[i].as_str().to_lowercase());
            i += 1;
        }
        let list = IgnoreList { patterns };
        assert(list@ =~= lines.deep_view().map_values(|l: Seq<char>| unicode_lower(l)));
        list
    }

    /// Whether an entry with this name is ignored: its lowercased name
    /// matches one of the patterns.
    pub open spec fn ignores(self, name: Seq<char>) -> bool {
        any_pattern_matches(self@, unicode_lower(name))
    }

    /// Whether an entry named `app` is to be dropped.
    pub fn should_ignore(&self, app: &str) -> (ignored: bool)
        ensures
            ignored == self.ignores(app@),
    {
        let app_name = app.to_lowercase();
        let mut i: usize = 0;
        while i < self.patterns.len()
            invariant
                i <= self.patterns@.len(),
                app_name@ == unicode_lower(app@),
                forall|j: int|
                    0 <= j < i ==> glob_match(#[trigger] self@[j], app_name@) != Some(true),
            decreases self.patterns@.len() - i,
        {
            assert(self@[i as int] == self.patterns@[i as int]@);
            match glob_pattern_matches(self.patterns[i].as_str(), app_name.as_str()) {
                Some(true) => {
                    return true;
                },
                _ => {},
            }
            i += 1;
        }
        false
    }
}

/// What one line of a desktop entry says.
pub enum LineModel {
    /// An empty line or a comment.
    Blank,
    /// A section header, with the name between the brackets.
    Section(Seq<char>),
    /// A `key=value` line, the key in ASCII lowercase, both sides trimmed.
    Pair(Seq<char>, Seq<char>),
    /// Anything else.
    Other,
}

/// What one line of a desktop entry says.
#[derive(Debug)]
pub enum Line {
    Blank,
    Section(String),
    Pair(String, String),
    Other,
}

impl View for Line {
    type V = LineModel;

    open spec fn view(&self) -> LineModel {
        match self {
            Line::Blank => LineModel::Blank,
            Line::Section(name) => LineModel::Section(name@),
            Line::Pair(key, value) => LineModel::Pair(key@, value@),
            Line::Other => LineModel::Other,
        }
    }
}

/// The meaning of a line. White space around the line is ignored. A line
/// that is empty or starts with `#` is blank; one in square brackets is a
/// section header; one with an `=` is a pair, cut at the first `=`.
pub open spec fn classify(line: Seq<char>) -> LineModel {
    let t = trimmed(line);
    if t.len() == 0 || t[0] == '#' {
        LineModel::Blank
    } else if t[0] == '[' && t.last() == ']' {
        LineModel::Section(t.subrange(1, t.len() - 1))
    } else {
        let eq = find_char(t, '=', 0);
        if eq < 0 {
            LineModel::Other
        } else {
            LineModel::Pair(ascii_lower(trimmed(t.subrange(0, eq))), trimmed(t.subrange(eq + 1, t.len() as int)))
        }
    }
}

/// Reads one line of a desktop entry.
pub fn classify_line(line: &str) -> (meaning: Line)
    ensures
        meaning@ == classify(line@),
{
    let chars = chars_of(line);
    let (a, b) = trim_bounds(&chars, 0, chars.len());
    assert(chars@.subrange(0, chars@.len() as int) =~= line@);
    let ghost t = chars@.subrange(a as int, b as int);
    if a == b || chars[a] == '#' {
        return Line::Blank;
    }
    if chars[a] == '[' && chars[b - 1] == ']' {
        assert(t[0] == chars@[a as int] && t.last() == chars@[b - 1]);
        // a header has at least its two brackets
        let name = string_of(&chars, a + 1, b - 1);
        assert(chars@.subrange(a + 1, b - 1) =~= t.subrange(1, t.len() - 1));
        return Line::Section(name);
    }
    assert(t[0] == chars@[a as int] && t.last() == chars@[b - 1]);
    match find_in(&chars, '=', a, b) {
        None => Line::Other,
        Some(eq) => {
            let (ka, kb) = trim_bounds(&chars, a, eq);
            let (va, vb) = trim_bounds(&chars, eq + 1, b);
            let raw_key = string_of(&chars, ka, kb);
            let key = to_ascii_lowercase(raw_key.as_str());
            let value = string_of(&chars, va, vb);
            proof {
                assert(chars@.subrange(a as int, eq as int) =~= t.subrange(0, eq - a));
                assert(chars@.subrange(eq + 1, b as int) =~= t.subrange(
                    eq - a + 1,
                    t.len() as int,
                ));
            }
            Line::Pair(key, value)
        },
    }
}

/// The state of reading a desktop entry.
pub struct ParseModel {
    /// The record as far as it was read.
    pub data: AppModel,
    /// The section that the lines belong to; `None` before the first header
    /// and after an action was completed.
    pub section: Option<Seq<char>>,
    /// The action that the current section describes.
    pub action: ActionModel,
    /// The entry asked not to be shown, or its name is ignored.
    pub dropped: bool,
}

/// The action that a section starts with.
pub open spec fn fresh_action() -> ActionModel {
    ActionModel { name: None, command: None, icon: None, method: "app_launcher"@, exit: true }
}

/// The state before the first line of the entry at `desktop_file`.
pub open spec fn initial_state(desktop_file: Seq<char>) -> ParseModel {
    ParseModel {
        data: AppModel {
            name: None,
            command: None,
            search_string: Seq::empty(),
            priority: None,
            icon: None,
            desktop_file: Some(desktop_file),
            actions: Seq::empty(),
            vars: Seq::empty(),
            terminal: false,
        },
        section: None,
        action: fresh_action(),
        dropped: false,
    }
}

/// Whether the value says `true`, in any case of letters.
pub open spec fn says_true(value: Seq<char>) -> bool {
    ascii_lower(value) == "true"@
}

/// The state after a pair of the section `Desktop Entry`.
pub open spec fn entry_pair(
    st: ParseModel,
    key: Seq<char>,
    value: Seq<char>,
    ignore: IgnoreList,
) -> ParseModel {
    if key == "name"@ {
        if ignore.ignores(value) {
            ParseModel { dropped: true, ..st }
        } else {
            ParseModel { data: AppModel { name: Some(value), ..st.data }, ..st }
        }
    } else if key == "icon"@ {
        ParseModel { data: AppModel { icon: Some(value), ..st.data }, ..st }
    } else if key == "exec"@ {
        ParseModel { data: AppModel { command: Some(value), ..st.data }, ..st }
    } else if (key == "nodisplay"@ || key == "hidden"@) && says_true(value) {
        ParseModel { dropped: true, ..st }
    } else if key == "terminal"@ {
        ParseModel { data: AppModel { terminal: says_true(value), ..st.data }, ..st }
    } else if key == "keywords"@ {
        ParseModel { data: AppModel { search_string: unicode_lower(value), ..st.data }, ..st }
    } else {
        st
    }
}

/// The state after a pair of any other section: the pair fills the
/// action, and an action that is full joins the record and ends its
/// section.
pub open spec fn action_pair(st: ParseModel, key: Seq<char>, value: Seq<char>) -> ParseModel {
    let action = if key == "name"@ {
        ActionModel { name: Some(value), ..st.action }
    } else if key == "exec"@ {
        ActionModel { command: Some(value), ..st.action }
    } else if key == "icon"@ {
        ActionModel { icon: Some(value), ..st.action }
    } else {
        st.action
    };
    if action.is_full() {
        ParseModel {
            data: AppModel { actions: st.data.actions.push(action), ..st.data },
            section: None,
            action: fresh_action(),
            ..st
        }
    } else {
        ParseModel { action, ..st }
    }
}

/// The state after one more line.
pub open spec fn step(st: ParseModel, line: LineModel, ignore: IgnoreList) -> ParseModel {
    if st.dropped {
        st
    } else {
        match line {
            LineModel::Blank => st,
            LineModel::Other => st,
            LineModel::Section(name) => ParseModel {
                data: if st.action.is_valid() {
                    AppModel { actions: st.data.actions.push(st.action), ..st.data }
                } else {
                    st.data
                },
                section: Some(name),
                action: fresh_action(),
                ..st
            },
            LineModel::Pair(key, value) => match st.section {
                None => st,
                Some(section) => if section == "Desktop Entry"@ {
                    entry_pair(st, key, value, ignore)
                } else {
                    action_pair(st, key, value)
                },
            },
        }
    }
}

/// The state after the first `n` lines.
pub open spec fn state_after(
    lines: Seq<Seq<char>>,
    n: int,
    desktop_file: Seq<char>,
    ignore: IgnoreList,
) -> ParseModel
    decreases n,
{
    if n <= 0 {
        initial_state(desktop_file)
    } else {
        step(state_after(lines, n - 1, desktop_file, ignore), classify(lines[n - 1]), ignore)
    }
}

/// The record that a desktop entry yields, if it yields one: what its
/// lines say, each action without an icon taking the icon of the record.
pub open spec fn parsed_entry(
    lines: Seq<Seq<char>>,
    desktop_file: Seq<char>,
    ignore: IgnoreList,
) -> Option<AppModel> {
    let end = state_after(lines, lines.len() as int, desktop_file, ignore);
    if end.dropped {
        None
    } else {
        Some(
            AppModel {
                actions: crate::appdata::with_icon_fallbacks(end.data.actions, end.data.icon),
                ..end.data
            },
        )
    }
}

/// The line that heads the section `name`.
pub open spec fn header_line(name: Seq<char>) -> Seq<char> {
    seq!['['] + name + seq![']']
}

/// The line that gives `key` the value `value`.
pub open spec fn pair_line(key: Seq<char>, value: Seq<char>) -> Seq<char> {
    key + seq!['='] + value
}

/// Whether a text is empty or neither begins nor ends with white space.
pub open spec fn is_trimmed(s: Seq<char>) -> bool {
    s.len() > 0 ==> !is_white_space(s[0]) && !is_white_space(s.last())
}

/// Whether a text can stand as the key of a pair: it is not empty, holds
/// no `=`, begins with neither `#` nor `[`, and neither begins nor ends
/// with white space.
pub open spec fn is_plain_key(key: Seq<char>) -> bool {
    &&& key.len() > 0
    &&& is_trimmed(key)
    &&& key[0] != '#'
    &&& key[0] != '['
    &&& forall|i: int| 0 <= i < key.len() ==> key[i] != '='
}

/// A name in square brackets is read as the header of its section.
pub proof fn lemma_header_line(name: Seq<char>)
    ensures
        classify(header_line(name)) == LineModel::Section(name),
{
    let line = header_line(name);
    assert(line[0] == '[' && line.last() == ']');
    lemma_trimmed_unchanged(line);
    assert(line.subrange(1, line.len() - 1) =~= name);
}

/// A key, an `=` and a value are read as that pair, the key in ASCII
/// lowercase.
pub proof fn lemma_pair_line(key: Seq<char>, value: Seq<char>)
    requires
        is_plain_key(key),
        is_trimmed(value),
    ensures
        classify(pair_line(key, value)) == LineModel::Pair(ascii_lower(key), value),
{
    let line = pair_line(key, value);
    let at = key.len() as int;
    assert(line[0] == key[0]);
    assert(line[at] == '=');
    assert(line.last() == if value.len() > 0 {
        value.last()
    } else {
        '='
    });
    lemma_trimmed_unchanged(line);
    lemma_find_char(line, '=', 0);
    let eq = find_char(line, '=', 0);
    assert(eq == at) by {
        if eq < at && eq >= 0 {
            assert(line[eq] == key[eq]);
        }
    }
    assert(line.subrange(0, eq) =~= key);
    assert(line.subrange(eq + 1, line.len() as int) =~= value);
    lemma_trimmed_unchanged(key);
    lemma_trimmed_unchanged(value);
}

/// The lines of an entry that says its name and its command, and nothing
/// else.
pub open spec fn plain_entry(name: Seq<char>, command: Seq<char>) -> Seq<Seq<char>> {
    seq![header_line("Desktop Entry"@), pair_line("Name"@, name), pair_line("Exec"@, command)]
}

/// The record of an entry that says its name and its command, and nothing
/// else: it has that name and that command, and comes from the file of the
/// entry.
pub open spec fn plain_record(name: Seq<char>, command: Seq<char>, desktop_file: Seq<char>) -> AppModel {
    AppModel { name: Some(name), command: Some(command), ..initial_state(desktop_file).data }
}

/// An entry that says its name and its command and nothing else yields
/// the record with that name and that command, unless the name is
/// ignored.
pub proof fn lemma_plain_entry(
    name: Seq<char>,
    command: Seq<char>,
    desktop_file: Seq<char>,
    ignore: IgnoreList,
)
    requires
        is_trimmed(name),
        is_trimmed(command),
        !ignore.ignores(name),
    ensures
        parsed_entry(plain_entry(name, command), desktop_file, ignore) == Some(
            plain_record(name, command, desktop_file),
        ),
{
    reveal_strlit("Name");
    reveal_strlit("Exec");
    reveal_strlit("name");
    reveal_strlit("exec");
    reveal_strlit("icon");
    let lines = plain_entry(name, command);
    lemma_header_line("Desktop Entry"@);
    lemma_pair_line("Name"@, name);
    lemma_pair_line("Exec"@, command);
    assert(ascii_lower("Name"@) =~= "name"@);
    assert(ascii_lower("Exec"@) =~= "exec"@);
    assert("exec"@ != "name"@ && "exec"@ != "icon"@) by {
        assert("exec"@[0] == 'e');
    }
    let s0 = state_after(lines, 0, desktop_file, ignore);
    let s1 = state_after(lines, 1, desktop_file, ignore);
    let s2 = state_after(lines, 2, desktop_file, ignore);
    let s3 = state_after(lines, 3, desktop_file, ignore);
    assert(s0 == initial_state(desktop_file));
    assert(s1 == step(s0, classify(lines[0]), ignore));
    assert(s2 == step(s1, classify(lines[1]), ignore));
    assert(s3 == step(s2, classify(lines[2]), ignore));
    assert(!s0.action.is_valid()) by {
        assert(s0.action == fresh_action());
    }
    assert(s1.section == Some("Desktop Entry"@) && s1.data == s0.data && !s1.dropped);
    assert(s2.data == AppModel { name: Some(name), ..s0.data } && !s2.dropped);
    assert(s3.data == plain_record(name, command, desktop_file) && !s3.dropped);
    assert(crate::appdata::with_icon_fallbacks(s3.data.actions, s3.data.icon) =~= s3.data.actions);
}

/// Whatever the lines say, the record under way is that of the file it is
/// read from.
pub proof fn lemma_state_keeps_file(
    lines: Seq<Seq<char>>,
    n: int,
    desktop_file: Seq<char>,
    ignore: IgnoreList,
)
    ensures
        state_after(lines, n, desktop_file, ignore).data.desktop_file == Some(desktop_file),
        state_after(lines, n, desktop_file, ignore).data.priority is None,
        state_after(lines, n, desktop_file, ignore).data.vars.len() == 0,
    decreases n,
{
    if n > 0 {
        lemma_state_keeps_file(lines, n - 1, desktop_file, ignore);
    }
}

/// A record that a desktop entry yields names the file of the entry as
/// the file it came from; it has no priority yet and asks for no input.
pub proof fn lemma_parsed_entry_keeps_file(
    lines: Seq<Seq<char>>,
    desktop_file: Seq<char>,
    ignore: IgnoreList,
)
    ensures
        match parsed_entry(lines, desktop_file, ignore) {
            Some(record) => record.desktop_file == Some(desktop_file) && record.priority is None
                && record.vars.len() == 0,
            None => true,
        },
{
    lemma_state_keeps_file(lines, lines.len() as int, desktop_file, ignore);
}

/// Once an entry is dropped, no later line brings it back.
pub proof fn lemma_dropped_stays(
    lines: Seq<Seq<char>>,
    n: int,
    m: int,
    desktop_file: Seq<char>,
    ignore: IgnoreList,
)
    requires
        0 <= n <= m,
        state_after(lines, n, desktop_file, ignore).dropped,
    ensures
        state_after(lines, m, desktop_file, ignore).dropped,
    decreases m - n,
{
    if n < m {
        lemma_dropped_stays(lines, n, m - 1, desktop_file, ignore);
    }
}

/// An entry that says `NoDisplay=true` or `Hidden=true` within its section
/// `Desktop Entry` yields no record, whatever its other lines say.
pub proof fn lemma_hidden_entry_yields_nothing(
    lines: Seq<Seq<char>>,
    i: int,
    desktop_file: Seq<char>,
    ignore: IgnoreList,
)
    requires
        0 <= i < lines.len(),
        state_after(lines, i, desktop_file, ignore).section == Some("Desktop Entry"@),
        classify(lines[i]) matches LineModel::Pair(key, value) && (key == "nodisplay"@ || key
            == "hidden"@) && says_true(value),
    ensures
        parsed_entry(lines, desktop_file, ignore) is None,
{
    reveal_strlit("nodisplay");
    reveal_strlit("hidden");
    reveal_strlit("name");
    reveal_strlit("icon");
    reveal_strlit("exec");
    let before = state_after(lines, i, desktop_file, ignore);
    let after = state_after(lines, i + 1, desktop_file, ignore);
    assert(after == step(before, classify(lines[i]), ignore));
    assert(after.dropped) by {
        if !before.dropped {
            let key = classify(lines[i])->Pair_0;
            assert(key.len() >= 6);
            assert(key != "name"@ && key != "icon"@ && key != "exec"@);
        }
    }
    lemma_dropped_stays(lines, i + 1, lines.len() as int, desktop_file, ignore);
}

struct ParseState {
    data: AppData,
    section: Option<String>,
    action: ApplicationAction,
    dropped: bool,
}

impl View for ParseState {
    type V = ParseModel;

    closed spec fn view(&self) -> ParseModel {
        ParseModel {
            data: self.data@,
            section: self.section.deep_view(),
            action: self.action@,
            dropped: self.dropped,
        }
    }
}

fn commit_action(st: &mut ParseState)
    ensures
        final(st)@ == (ParseModel {
            data: AppModel { actions: old(st)@.data.actions.push(old(st)@.action), ..old(st)@.data },
            action: fresh_action(),
            ..old(st)@
        }),
{
    let ghost before = st.data.actions.deep_view();
    let ghost added = st.action@;
    let mut done = ApplicationAction::new("app_launcher");
    std::mem::swap(&mut st.action, &mut done);
    st.data.actions.push(done);
    assert(st.data.actions.deep_view() =~= before.push(added));
}

fn apply_entry_pair(st: &mut ParseState, key: &str, value: String, ignore: &IgnoreList)
    ensures
        final(st)@ == entry_pair(old(st)@, key@, value@, *ignore),
{
    proof {
        lemma_true_is_lower();
    }
    if str_eq(key, "name") {
        if ignore.should_ignore(value.as_str()) {
            st.dropped = true;
        } else {
            st.data.name = Some(value);
        }
    } else if str_eq(key, "icon") {
        st.data.icon = Some(value);
    } else if str_eq(key, "exec") {
        st.data.command = Some(value);
    } else if (str_eq(key, "nodisplay") || str_eq(key, "hidden")) && eq_ignore_ascii_case(
        value.as_str(),
        "true",
    ) {
        st.dropped = true;
    } else if str_eq(key, "terminal") {
        st.data.terminal = eq_ignore_ascii_case(value.as_str(), "true");
    } else if str_eq(key, "keywords") {
        st.data.search_string = value.as_str().to_lowercase();
    }
}

proof fn lemma_true_is_lower()
    ensures
        ascii_lower("true"@) == "true"@,
{
    reveal_strlit("true");
    assert(ascii_lower("true"@) =~= "true"@);
}

fn apply_action_pair(st: &mut ParseState, key: &str, value: String)
    ensures
        final(st)@ == action_pair(old(st)@, key@, value@),
{
    if str_eq(key, "name") {
        st.action.name = Some(value);
    } else if str_eq(key, "exec") {
        st.action.command = Some(value);
    } else if str_eq(key, "icon") {
        st.action.icon = Some(value);
    }
    if st.action.is_full() {
        commit_action(st);
        st.section = None;
    }
}

fn apply_line(st: &mut ParseState, line: Line, ignore: &IgnoreList)
    requires
        !old(st)@.dropped,
    ensures
        final(st)@ == step(old(st)@, line@, *ignore),
{
    match line {
        Line::Blank => {},
        Line::Other => {},
        Line::Section(name) => {
            if st.action.is_valid() {
                commit_action(st);
            } else {
                st.action = ApplicationAction::new("app_launcher");
            }
            st.section = Some(name);
        },
        Line::Pair(key, value) => {
            let in_entry = match &st.section {
                None => {
                    return ;
                },
                Some(section) => str_eq(section.as_str(), "Desktop Entry"),
            };
            if in_entry {
                apply_entry_pair(st, key.as_str(), value, ignore);
            } else {
                apply_action_pair(st, key.as_str(), value);
            }
        },
    }
}

/// Gives every action without an icon the icon `icon`.
fn fill_action_icons(actions: &mut Vec<ApplicationAction>, icon: &Option<String>)
    ensures
        final(actions).deep_view() == crate::appdata::with_icon_fallbacks(
            old(actions).deep_view(),
            icon.deep_view(),
        ),
{
    let ghost before = actions.deep_view();
    let ghost wanted = crate::appdata::with_icon_fallbacks(before, icon.deep_view());
    let mut i: usize = 0;
    while i < actions.len()
        invariant
            i <= actions@.len(),
            actions@.len() == before.len(),
            wanted == crate::appdata::with_icon_fallbacks(before, icon.deep_view()),
            forall|j: int| 0 <= j < i ==> actions@[j]@ == wanted[j],
            forall|j: int| i <= j < before.len() ==> actions@[j]@ == before[j],
        decreases actions@.len() - i,
    {
        if actions[i].icon.is_none() {
            let mut action = actions[i].clone();
            action.icon = duplicate_opt(icon);
            actions[i] = action;
        }
        i += 1;
    }
    assert(actions.deep_view() =~= wanted);
}

/// Reads the desktop entry at `desktop_file` from its lines. Returns the
/// record, or `None` where the entry is hidden, not to be displayed, or
/// named on the ignore list.
pub fn parse_desktop_entry(lines: &Vec<String>, desktop_file: &str, ignore: &IgnoreList) -> (entry:
    Option<AppData>)
    ensures
        entry.deep_view() == parsed_entry(lines.deep_view(), desktop_file@, *ignore),
{
    let mut data = AppData::new();
    data.desktop_file = Some(duplicate(desktop_file));
    let mut st = ParseState {
        data,
        section: None,
        action: ApplicationAction::new("app_launcher"),
        dropped: false,
    };
    let mut i: usize = 0;
    while i < lines.len()
        invariant
            i <= lines@.len(),
            !st@.dropped,
            st@ == state_after(lines.deep_view(), i as int, desktop_file@, *ignore),
        decreases lines@.len() - i,
    {
        let line = classify_line(lines[i].as_str());
        assert(lines.deep_view()[i as int] == lines@[i as int]@);
        apply_line(&mut st, line, ignore);
        i += 1;
        if st.dropped {
            proof {
                lemma_dropped_stays(
                    lines.deep_view(),
                    i as int,
                    lines@.len() as int,
                    desktop_file@,
                    *ignore,
                );
            }
            return None;
        }
    }
    let ParseState { data, .. } = st;
    let mut data = data;
    fill_action_icons(&mut data.actions, &data.icon);
    Some(data)
}

} // verus!
