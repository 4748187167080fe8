//! Command lines: splitting one into its words, and filling in the
//! placeholders of a command template.

use crate::text::{duplicate, is_white_space, str_eq};
use vstd::prelude::*;
use vstd::string::{StringExecFns, StringSliceAdditionalSpecFns};
use vstd::utf8::{
    decode_utf8, encode_utf8, encode_utf8_decode_utf8, encode_utf8_valid_utf8, is_char_boundary,
    is_char_boundary_iff_not_is_continuation_byte, is_char_boundary_start_end_of_seq, valid_utf8,
    valid_utf8_split,
};

verus! {

/// The state of splitting a command line.
pub struct SplitModel {
    /// The words that are complete.
    pub parts: Seq<Seq<char>>,
    /// The word under way.
    pub current: Seq<char>,
    /// Within double quotes.
    pub double_quoting: bool,
    /// Within single quotes.
    pub single_quoting: bool,
    /// The last character was a backslash that escapes the next.
    pub escaped: bool,
}

/// The state after one more character. An escaped character is taken as it
/// is. Outside single quotes a backslash escapes and a double quote opens
/// or closes; outside double quotes a single quote opens or closes. White
/// space outside quotes ends the word under way; any other character joins
/// it.
pub open spec fn split_step(st: SplitModel, c: char) -> SplitModel {
    if st.escaped {
        SplitModel { current: st.current.push(c), escaped: false, ..st }
    } else if c == '\\' && !st.single_quoting {
        SplitModel { escaped: true, ..st }
    } else if c == '"' && !st.single_quoting {
        SplitModel { double_quoting: !st.double_quoting, ..st }
    } else if c == '\'' && !st.double_quoting {
        SplitModel { single_quoting: !st.single_quoting, ..st }
    } else if is_white_space(c) && !st.double_quoting && !st.single_quoting {
        if st.current.len() > 0 {
            SplitModel { parts: st.parts.push(st.current), current: Seq::empty(), ..st }
        } else {
            st
        }
    } else {
        SplitModel { current: st.current.push(c), ..st }
    }
}

/// The state after the first `n` characters of `cmd`.
pub open spec fn split_upto(cmd: Seq<char>, n: int) -> SplitModel
    decreases n,
{
    if n <= 0 {
        SplitModel {
            parts: Seq::empty(),
            current: Seq::empty(),
            double_quoting: false,
            single_quoting: false,
            escaped: false,
        }
    } else {
        split_step(split_upto(cmd, n - 1), cmd[n - 1])
    }
}

/// All words of `cmd`, the last one included.
pub open spec fn all_words(cmd: Seq<char>) -> Seq<Seq<char>> {
    let end = split_upto(cmd, cmd.len() as int);
    if end.current.len() > 0 {
        end.parts.push(end.current)
    } else {
        end.parts
    }
}

/// Whether a word is a field code of a desktop entry, such as `%u`.
pub open spec fn is_field_code(word: Seq<char>) -> bool {
    word.len() > 0 && word[0] == '%'
}

/// The first `n` words without the field codes.
pub open spec fn without_field_codes(words: Seq<Seq<char>>, n: int) -> Seq<Seq<char>>
    decreases n,
{
    if n <= 0 {
        Seq::empty()
    } else if is_field_code(words[n - 1]) {
        without_field_codes(words, n - 1)
    } else {
        without_field_codes(words, n - 1).push(words[n - 1])
    }
}

/// The words of a command line: as a shell would split it, without the
/// field codes.
pub open spec fn command_words(cmd: Seq<char>) -> Seq<Seq<char>> {
    without_field_codes(all_words(cmd), all_words(cmd).len() as int)
}

/// Splits a command line into the program and its arguments.
pub fn split_as_command(cmd: &str) -> (words: Vec<String>)
    ensures
        words.deep_view() == command_words(cmd@),
{
    let mut parts: Vec<String> = Vec::new();
    let mut current = String::new();
    let mut double_quoting = false;
    let mut single_quoting = false;
    let mut escaped = false;
    assert(parts.deep_view() =~= Seq::<Seq<char>>::empty());
    for c in it: cmd.chars()
        invariant
            it.seq() == cmd@,
            split_upto(cmd@, it.index() as int) == (SplitModel {
                parts: parts.deep_view(),
                current: current@,
                double_quoting,
                single_quoting,
                escaped,
            }),
    {
        let ghost before = parts.deep_view();
        if escaped {
            current.push(c);
            escaped = false;
        } else if c == '\\' && !single_quoting {
            escaped = true;
        } else if c == '"' && !single_quoting {
            double_quoting = !double_quoting;
        } else if c == '\'' && !double_quoting {
            single_quoting = !single_quoting;
        } else if c.is_whitespace() && !double_quoting && !single_quoting {
            if !current.as_str().is_empty() {
                let ghost word = current@;
                let mut done = String::new();
                std::mem::swap(&mut current, &mut done);
                parts.push(done);
                assert(parts.deep_view() =~= before.push(word));
            }
        } else {
            current.push(c);
        }
    }
    assert(split_upto(cmd@, cmd@.len() as int).parts == parts.deep_view());
    if !current.as_str().is_empty() {
        let ghost before = parts.deep_view();
        let ghost word = current@;
        parts.push(current);
        assert(parts.deep_view() =~= before.push(word));
    }
    assert(parts.deep_view() == all_words(cmd@));
    let mut words: Vec<String> = Vec::new();
    let mut i: usize = 0;
    assert(words.deep_view() =~= Seq::<Seq<char>>::empty());
    while i < parts.len()
        invariant
            i <= parts@.len(),
            words.deep_view() == without_field_codes(parts.deep_view(), i as int),
        decreases parts@.len() - i,
    {
        assert(parts.deep_view()[i as int] == parts@[i as int]@);
        let word = parts[i].as_str();
        let code = !word.is_empty() && word.get_char(0) == '%';
        if !code {
            let ghost before = words.deep_view();
            words.push(duplicate(word));
            assert(words.deep_view() =~= before.push(word@));
        }
        i += 1;
    }
    words
}

/// One match of a pattern in a text.
#[derive(Debug)]
pub struct Match {
    /// The offset of the first byte of the match in the text.
    pub start: usize,
    /// The offset of the byte after the match.
    pub end: usize,
    /// What each group of the pattern captured, in order; group 0 is the
    /// whole match.
    pub groups: Vec<Option<String>>,
}

/// The mathematical value of a [`Match`].
pub struct MatchModel {
    pub start: int,
    pub end: int,
    pub groups: Seq<Option<Seq<char>>>,
}

impl View for Match {
    type V = MatchModel;

    open spec fn view(&self) -> MatchModel {
        MatchModel { start: self.start as int, end: self.end as int, groups: self.groups.deep_view() }
    }
}

impl DeepView for Match {
    type V = MatchModel;

    open spec fn deep_view(&self) -> MatchModel {
        self@
    }
}

/// The successive matches of the regular expression `pattern` in `text`,
/// `None` where the pattern is not well formed. This is
/// `regex::Regex::new` followed by `regex::Regex::captures_iter`.
pub uninterp spec fn regex_matches(pattern: Seq<char>, text: Seq<char>) -> Option<Seq<MatchModel>>;

/// Whether the matches lie in the text one after the other: each starts no
/// later than it ends, within the bytes of the text and on the boundaries
/// of characters, and none starts before the one before it has ended.
pub open spec fn well_placed(found: Seq<MatchModel>, bytes: Seq<u8>) -> bool {
    &&& forall|i: int|
        0 <= i < found.len() ==> {
            &&& 0 <= (#[trigger] found[i]).start <= found[i].end <= bytes.len()
            &&& is_char_boundary(bytes, found[i].start)
            &&& is_char_boundary(bytes, found[i].end)
        }
    &&& forall|i: int, j: int|
        0 <= i < j < found.len() ==> (#[trigger] found[i]).end <= (#[trigger] found[j]).start
}

/// `regex::Regex::new` and `regex::Regex::captures_iter`: compiles
/// `pattern` and finds its successive non-overlapping matches in `text`,
/// each with the byte offsets of its start and end and the captures of its
/// groups. The offsets of a match lie within the text, on the boundaries
/// of characters, the start not after the end. A pattern that does not
/// compile gives `None`.
#[verifier::external_body]
fn find_matches(pattern: &str, text: &str) -> (found: Option<Vec<Match>>)
    ensures
        found.deep_view() == regex_matches(pattern@, text@),
        found is Some ==> well_placed(found->0.deep_view(), encode_utf8(text@)),
{
    let compiled = regex::Regex::new(pattern).ok()?;
    let found = compiled.captures_iter(text).map(|caps| Match {
        start: caps.get_match().start(),
        end: caps.get_match().end(),
        groups: caps.iter().map(|g| g.map(|m| m.as_str().to_string())).collect(),
    });
    Some(found.collect())
}

/// What a group captured, nothing where the match has no such group.
pub open spec fn group(m: MatchModel, i: int) -> Option<Seq<char>> {
    if 0 <= i < m.groups.len() {
        m.groups[i]
    } else {
        None
    }
}

/// The text that matched.
pub open spec fn whole(m: MatchModel) -> Seq<char> {
    match group(m, 0) {
        Some(text) => text,
        None => Seq::empty(),
    }
}

/// The value that the user gave for the variable `name`, from `from` on.
pub open spec fn variable_value(
    variables: Seq<(Seq<char>, Seq<char>)>,
    name: Seq<char>,
    from: int,
) -> Option<Seq<char>>
    decreases variables.len() - from,
{
    if from < 0 || from >= variables.len() {
        None
    } else if variables[from].0 == name {
        Some(variables[from].1)
    } else {
        variable_value(variables, name, from + 1)
    }
}

/// What takes the place of a placeholder `{key}` or `{key:value}`, whose
/// first group is the key and whose second the value: the terminal and
/// its flag to run a command, the keyword, the value of the named
/// variable; the placeholder itself where it asks for none of these or
/// for a variable that is not there.
pub open spec fn placeholder_text(
    m: MatchModel,
    keyword: Seq<char>,
    variables: Seq<(Seq<char>, Seq<char>)>,
    terminal: Seq<char>,
) -> Seq<char> {
    let key = group(m, 1);
    if key == Some("terminal"@) {
        terminal + " -e"@
    } else if key == Some("keyword"@) {
        keyword
    } else if key == Some("variable"@) {
        match group(m, 2) {
            Some(name) => match variable_value(variables, name, 0) {
                Some(v) => v,
                None => whole(m),
            },
            None => whole(m),
        }
    } else {
        whole(m)
    }
}

/// What takes the place of a prefix `{prefix[name]:text}`, whose first
/// group is the name and whose second the text: the text where the user
/// gave a value for the variable `name`, else nothing.
pub open spec fn prefix_text(m: MatchModel, variables: Seq<(Seq<char>, Seq<char>)>) -> Seq<char> {
    match (group(m, 1), group(m, 2)) {
        (Some(name), Some(text)) => match variable_value(variables, name, 0) {
            Some(v) => if v.len() > 0 {
                text
            } else {
                Seq::empty()
            },
            None => Seq::empty(),
        },
        _ => Seq::empty(),
    }
}

/// The part of a text between two byte offsets of its UTF-8 encoding.
pub open spec fn slice_text(text: Seq<char>, from: int, to: int) -> Seq<char> {
    decode_utf8(encode_utf8(text).subrange(from, to))
}

/// The offset at which the match before the match `n` ends; the start of
/// the text for the first match.
pub open spec fn end_before(found: Seq<MatchModel>, n: int) -> int {
    if n <= 0 {
        0
    } else {
        found[n - 1].end
    }
}

/// The text up to the end of the match `n - 1`, with each match replaced:
/// what lies between the matches stays as it is.
pub open spec fn replaced_upto(
    text: Seq<char>,
    found: Seq<MatchModel>,
    replacement: spec_fn(MatchModel) -> Seq<char>,
    n: int,
) -> Seq<char>
    decreases n,
{
    if n <= 0 {
        Seq::empty()
    } else {
        replaced_upto(text, found, replacement, n - 1) + slice_text(
            text,
            end_before(found, n - 1),
            found[n - 1].start,
        ) + replacement(found[n - 1])
    }
}

/// The text with every match replaced.
pub open spec fn replaced(
    text: Seq<char>,
    found: Seq<MatchModel>,
    replacement: spec_fn(MatchModel) -> Seq<char>,
) -> Seq<char> {
    replaced_upto(text, found, replacement, found.len() as int) + slice_text(
        text,
        end_before(found, found.len() as int),
        encode_utf8(text).len() as int,
    )
}

/// A text without a match stays as it is.
pub proof fn lemma_nothing_to_replace(text: Seq<char>, replacement: spec_fn(MatchModel) -> Seq<char>)
    ensures
        replaced(text, Seq::empty(), replacement) == text,
{
    let bytes = encode_utf8(text);
    assert(bytes.subrange(0, bytes.len() as int) =~= bytes);
    encode_utf8_decode_utf8(text);
    assert(replaced(text, Seq::empty(), replacement) =~= text);
}

/// The pattern of the placeholders `{key}` and `{key:value}`.
pub open spec fn placeholder_pattern() -> Seq<char> {
    r#"\{([a-zA-Z_]+)(?::(.*?))?\}"#@
}

/// The pattern of the prefixes `{prefix[name]:text}`.
pub open spec fn prefix_pattern() -> Seq<char> {
    r#"\{prefix\[(.*?)\]:(.*?)\}"#@
}

/// The command with its placeholders filled in, given how the placeholders
/// and then the prefixes were matched.
pub open spec fn filled_in(
    command: Seq<char>,
    keyword: Seq<char>,
    variables: Seq<(Seq<char>, Seq<char>)>,
    terminal: Seq<char>,
) -> Seq<char> {
    let first = match regex_matches(placeholder_pattern(), command) {
        Some(found) => replaced(
            command,
            found,
            |m: MatchModel| placeholder_text(m, keyword, variables, terminal),
        ),
        None => command,
    };
    match regex_matches(prefix_pattern(), first) {
        Some(found) => replaced(first, found, |m: MatchModel| prefix_text(m, variables)),
        None => first,
    }
}

/// An offset that is a boundary of characters in a text is one in the
/// part of the text up to a later boundary.
proof fn lemma_boundary_in_prefix(bytes: Seq<u8>, from: int, to: int)
    requires
        valid_utf8(bytes),
        0 <= from <= to <= bytes.len(),
        is_char_boundary(bytes, from),
        is_char_boundary(bytes, to),
    ensures
        valid_utf8(bytes.subrange(0, to)),
        is_char_boundary(bytes.subrange(0, to), from),
{
    let prefix = bytes.subrange(0, to);
    valid_utf8_split(bytes, to);
    if from == to {
        is_char_boundary_start_end_of_seq(prefix);
    } else {
        is_char_boundary_iff_not_is_continuation_byte(bytes, from);
        is_char_boundary_iff_not_is_continuation_byte(prefix, from);
        assert(prefix[from] == bytes[from]);
    }
}

/// The part of `text` between the byte offsets `from` and `to`.
fn cut<'a>(text: &'a str, from: usize, to: usize) -> (piece: &'a str)
    requires
        from <= to <= encode_utf8(text@).len(),
        is_char_boundary(encode_utf8(text@), from as int),
        is_char_boundary(encode_utf8(text@), to as int),
    ensures
        piece@ == slice_text(text@, from as int, to as int),
{
    let ghost bytes = encode_utf8(text@);
    proof {
        encode_utf8_valid_utf8(text@);
        lemma_boundary_in_prefix(bytes, from as int, to as int);
    }
    let (head, _) = text.split_at(to);
    assert(head.spec_bytes() =~= bytes.subrange(0, to as int));
    let (_, piece) = head.split_at(from);
    proof {
        assert(piece.spec_bytes() =~= bytes.subrange(from as int, to as int));
        encode_utf8_decode_utf8(piece@);
    }
    piece
}

fn lookup_variable<'a>(variables: &'a Vec<(String, String)>, name: &str) -> (value: Option<&'a str>)
    ensures
        value.deep_view() == variable_value(variables.deep_view(), name@, 0),
{
    let mut i: usize = 0;
    while i < variables.len()
        invariant
            i <= variables@.len(),
            variable_value(variables.deep_view(), name@, 0) == variable_value(
                variables.deep_view(),
                name@,
                i as int,
            ),
        decreases variables@.len() - i,
    {
        assert(variables.deep_view()[i as int] == (variables@[i as int].0@, variables@[i as int].1@));
        if str_eq(variables[i].0.as_str(), name) {
            return Some(variables[i].1.as_str());
        }
        i += 1;
    }
    None
}

fn group_of<'a>(m: &'a Match, i: usize) -> (captured: Option<&'a str>)
    ensures
        captured.deep_view() == group(m@, i as int),
{
    if i < m.groups.len() {
        assert(m.groups.deep_view()[i as int] == m.groups@[i as int].deep_view());
        match &m.groups[i] {
            Some(text) => Some(text.as_str()),
            None => None,
        }
    } else {
        None
    }
}

/// Appends to `out` the text that matched.
fn push_whole(out: &mut String, m: &Match)
    ensures
        final(out)@ == old(out)@ + whole(m@),
{
    match group_of(m, 0) {
        Some(text) => {
            out.append(text);
        },
        None => {
            assert(out@ =~= old(out)@ + Seq::<char>::empty());
        },
    }
}

/// Appends to `out` what takes the place of the placeholder `m`.
fn push_placeholder(
    out: &mut String,
    m: &Match,
    keyword: &str,
    variables: &Vec<(String, String)>,
    terminal: &str,
)
    ensures
        final(out)@ == old(out)@ + placeholder_text(m@, keyword@, variables.deep_view(), terminal@),
{
    let key = group_of(m, 1);
    match key {
        Some(k) => {
            if str_eq(k, "terminal") {
                out.append(terminal);
                out.append(" -e");
                assert(out@ =~= old(out)@ + (terminal@ + " -e"@));
                return ;
            } else if str_eq(k, "keyword") {
                out.append(keyword);
                return ;
            } else if str_eq(k, "variable") {
                match group_of(m, 2) {
                    Some(name) => match lookup_variable(variables, name) {
                        Some(v) => {
                            out.append(v);
                            return ;
                        },
                        None => {},
                    },
                    None => {},
                }
            }
        },
        None => {},
    }
    push_whole(out, m);
}

/// Appends to `out` what takes the place of the prefix `m`.
fn push_prefix(out: &mut String, m: &Match, variables: &Vec<(String, String)>)
    ensures
        final(out)@ == old(out)@ + prefix_text(m@, variables.deep_view()),
{
    match (group_of(m, 1), group_of(m, 2)) {
        (Some(name), Some(text)) => match lookup_variable(variables, name) {
            Some(v) => {
                if !v.is_empty() {
                    out.append(text);
                    return ;
                }
            },
            None => {},
        },
        _ => {},
    }
    assert(out@ =~= old(out)@ + Seq::<char>::empty());
}

/// The text with its placeholders replaced.
fn fill_placeholders(
    text: &str,
    found: &Vec<Match>,
    keyword: &str,
    variables: &Vec<(String, String)>,
    terminal: &str,
) -> (out: String)
    requires
        well_placed(found.deep_view(), encode_utf8(text@)),
    ensures
        out@ == replaced(
            text@,
            found.deep_view(),
            |m: MatchModel| placeholder_text(m, keyword@, variables.deep_view(), terminal@),
        ),
{
    let ghost replacement = |m: MatchModel|
        placeholder_text(m, keyword@, variables.deep_view(), terminal@);
    let ghost bytes = encode_utf8(text@);
    let ghost models = found.deep_view();
    proof {
        encode_utf8_valid_utf8(text@);
        is_char_boundary_start_end_of_seq(bytes);
    }
    let total = text.as_bytes().len();
    let mut out = String::new();
    let mut last: usize = 0;
    let mut i: usize = 0;
    while i < found.len()
        invariant
            i <= found@.len(),
            models == found.deep_view(),
            bytes == encode_utf8(text@),
            total == bytes.len(),
            valid_utf8(bytes),
            is_char_boundary(bytes, total as int),
            well_placed(models, bytes),
            replacement == |m: MatchModel|
                placeholder_text(m, keyword@, variables.deep_view(), terminal@),
            last == end_before(models, i as int),
            last <= bytes.len(),
            is_char_boundary(bytes, last as int),
            out@ == replaced_upto(text@, models, replacement, i as int),
        decreases found@.len() - i,
    {
        assert(models[i as int] == found@[i as int]@);
        if i > 0 {
            assert(models[i - 1].end <= models[i as int].start);
        }
        out.append(cut(text, last, found[i].start));
        push_placeholder(&mut out, &found[i], keyword, variables, terminal);
        last = found[i].end;
        i += 1;
    }
    out.append(cut(text, last, total));
    out
}

/// The text with its prefixes replaced.
fn fill_prefixes(text: &str, found: &Vec<Match>, variables: &Vec<(String, String)>) -> (out: String)
    requires
        well_placed(found.deep_view(), encode_utf8(text@)),
    ensures
        out@ == replaced(
            text@,
            found.deep_view(),
            |m: MatchModel| prefix_text(m, variables.deep_view()),
        ),
{
    let ghost replacement = |m: MatchModel| prefix_text(m, variables.deep_view());
    let ghost bytes = encode_utf8(text@);
    let ghost models = found.deep_view();
    proof {
        encode_utf8_valid_utf8(text@);
        is_char_boundary_start_end_of_seq(bytes);
    }
    let total = text.as_bytes().len();
    let mut out = String::new();
    let mut last: usize = 0;
    let mut i: usize = 0;
    while i < found.len()
        invariant
            i <= found@.len(),
            models == found.deep_view(),
            bytes == encode_utf8(text@),
            total == bytes.len(),
            valid_utf8(bytes),
            is_char_boundary(bytes, total as int),
            well_placed(models, bytes),
            replacement == |m: MatchModel| prefix_text(m, variables.deep_view()),
            last == end_before(models, i as int),
            last <= bytes.len(),
            is_char_boundary(bytes, last as int),
            out@ == replaced_upto(text@, models, replacement, i as int),
        decreases found@.len() - i,
    {
        assert(models[i as int] == found@[i as int]@);
        if i > 0 {
            assert(models[i - 1].end <= models[i as int].start);
        }
        out.append(cut(text, last, found[i].start));
        push_prefix(&mut out, &found[i], variables);
        last = found[i].end;
        i += 1;
    }
    out.append(cut(text, last, total));
    out
}

/// Fills in the placeholders of a command. `{terminal}` becomes the
/// terminal with its flag to run a command, `{keyword}` the keyword,
/// `{variable:name}` the value that the user gave for `name`; after that,
/// `{prefix[name]:text}` becomes `text` where the user gave a value for
/// `name`, and nothing where not.
pub fn parse_variables(
    exec_input: &str,
    keyword: &str,
    variables: &Vec<(String, String)>,
    terminal: &str,
) -> (command: String)
    ensures
        command@ == filled_in(exec_input@, keyword@, variables.deep_view(), terminal@),
{
    let first = match find_matches(r#"\{([a-zA-Z_]+)(?::(.*?))?\}"#, exec_input) {
        Some(found) => fill_placeholders(exec_input, &found, keyword, variables, terminal),
        None => duplicate(exec_input),
    };
    match find_matches(r#"\{prefix\[(.*?)\]:(.*?)\}"#, first.as_str()) {
        Some(found) => fill_prefixes(first.as_str(), &found, variables),
        None => first,
    }
}

} // verus!
