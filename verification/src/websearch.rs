//! Web searches: telling an address from a query, and building the command
//! that opens a search in a browser.

use crate::text::{
    ascii_lower, chars_of, duplicate, eq_ignore_ascii_case, str_eq, string_of, trim_bounds, trimmed,
};
use vstd::prelude::*;
use vstd::string::{StringExecFns, StringSliceAdditionalSpecFns};
use vstd::utf8::encode_utf8;

verus! {

/// Whether the byte occurs in the bytes.
pub open spec fn has_byte(bytes: Seq<u8>, byte: u8) -> bool {
    exists|i: int| 0 <= i < bytes.len() && bytes[i] == byte
}

/// The index of the first occurrence of a byte that occurs.
pub open spec fn first_byte(bytes: Seq<u8>, byte: u8) -> int {
    choose|i: int|
        0 <= i < bytes.len() && bytes[i] == byte && forall|j: int| 0 <= j < i ==> bytes[j] != byte
}

/// Whether the byte is an ASCII digit.
pub open spec fn is_digit(byte: u8) -> bool {
    0x30 <= byte <= 0x39
}

/// The number of dots counted when the scan for a dotted address stops.
/// The scan counts dots and the digits since the last dot. It stops at the
/// fourth dot, at a dot that follows no digit, and at a fourth digit in a
/// row; any other byte stops it with no dots counted.
pub open spec fn dots_counted(bytes: Seq<u8>, i: int, dots: int, digits: int) -> int
    decreases bytes.len() - i,
{
    if i < 0 || i >= bytes.len() {
        dots
    } else if bytes[i] == 0x2e {
        if dots + 1 > 3 || digits == 0 {
            dots + 1
        } else {
            dots_counted(bytes, i + 1, dots + 1, 0)
        }
    } else if is_digit(bytes[i]) {
        if digits + 1 > 3 {
            dots
        } else {
            dots_counted(bytes, i + 1, dots, digits + 1)
        }
    } else {
        0
    }
}

/// Whether the trimmed input reads as an address rather than as a query.
///
/// With a colon in it, the text is an address exactly where the first
/// colon is not the first character and `//` follows it. Without a colon,
/// it is an address where it is `localhost`, where the scan for a dotted
/// address counts three dots, or where it has a dot, does not end in one
/// and holds no space.
pub open spec fn reads_as_url(input: Seq<char>) -> bool {
    let s = trimmed(input);
    let bytes = encode_utf8(s);
    if s.len() == 0 {
        false
    } else if has_byte(bytes, 0x3a) {
        let colon = first_byte(bytes, 0x3a);
        colon != 0 && colon + 2 < bytes.len() && bytes[colon + 1] == 0x2f && bytes[colon + 2]
            == 0x2f
    } else if ascii_lower(s) == "localhost"@ {
        true
    } else if dots_counted(bytes, 0, 0, 0) == 3 {
        true
    } else {
        !has_byte(bytes, 0x20) && bytes.last() != 0x2e && has_byte(bytes, 0x2e)
    }
}

proof fn lemma_first_byte(bytes: Seq<u8>, byte: u8, at: int)
    requires
        0 <= at < bytes.len(),
        bytes[at] == byte,
        forall|j: int| 0 <= j < at ==> bytes[j] != byte,
    ensures
        has_byte(bytes, byte),
        first_byte(bytes, byte) == at,
{
    let f = first_byte(bytes, byte);
    if f < at {
        assert(bytes[f] != byte);
    } else if at < f {
        assert(bytes[at] != byte);
    }
}

proof fn lemma_localhost_is_lower()
    ensures
        ascii_lower("localhost"@) == "localhost"@,
{
    reveal_strlit("localhost");
    assert(ascii_lower("localhost"@) =~= "localhost"@);
}

/// Tells whether the input is an address that a browser can open as it is.
pub fn is_url(input: &str) -> (url: bool)
    ensures
        url == reads_as_url(input@),
{
    let chars = chars_of(input);
    let (a, b) = trim_bounds(&chars, 0, chars.len());
    assert(chars@.subrange(0, chars@.len() as int) =~= input@);
    let s = string_of(&chars, a, b);
    if a == b {
        return false;
    }
    let bytes = s.as_str().as_bytes();
    proof {
        crate::search::lemma_encoding_empty_iff(s@);
        lemma_localhost_is_lower();
    }
    match memchr::memchr(0x3a, bytes) {
        Some(colon) => {
            proof {
                lemma_first_byte(bytes@, 0x3a, colon as int);
            }
            if colon == 0 {
                return false;
            }
            if bytes.len() - colon <= 2 {
                return false;
            }
            return bytes[colon + 1] == 0x2f && bytes[colon + 2] == 0x2f;
        },
        None => {},
    }
    if eq_ignore_ascii_case(s.as_str(), "localhost") {
        return true;
    }
    let mut dots: u8 = 0;
    let mut digits: u8 = 0;
    let mut i: usize = 0;
    while i < bytes.len()
        invariant_except_break
            dots <= 3,
            digits <= 3,
            dots_counted(bytes@, 0, 0, 0) == dots_counted(bytes@, i as int, dots as int, digits as int),
        invariant
            i <= bytes@.len(),
        ensures
            dots as int == dots_counted(bytes@, 0, 0, 0),
        decreases bytes@.len() - i,
    {
        let c = bytes[i];
        if c == 0x2e {
            dots += 1;
            if dots > 3 || digits == 0 {
                break ;
            }
            digits = 0;
        } else if c >= 0x30 && c <= 0x39 {
            digits += 1;
            if digits > 3 {
                digits = 3;
                break ;
            }
        } else {
            dots = 0;
            break ;
        }
        i += 1;
    }
    if dots == 3 {
        return true;
    }
    let spaced = memchr::memchr(0x20, bytes).is_some();
    let dotted = memchr::memchr(0x2e, bytes).is_some();
    proof {
        if spaced {
            let at = memchr_witness(bytes@, 0x20);
        }
        if dotted {
            let at = memchr_witness(bytes@, 0x2e);
        }
    }
    !spaced && bytes[bytes.len() - 1] != 0x2e && dotted
}

proof fn memchr_witness(bytes: Seq<u8>, byte: u8) -> (at: int)
    requires
        exists|i: int| 0 <= i < bytes.len() && bytes[i] == byte,
    ensures
        0 <= at < bytes.len(),
        bytes[at] == byte,
        has_byte(bytes, byte),
{
    choose|i: int| 0 <= i < bytes.len() && bytes[i] == byte
}

/// The text from index `i` on with every occurrence of `from` replaced by
/// `to`, reading from the left.
pub open spec fn replaced_from(s: Seq<char>, from: Seq<char>, to: Seq<char>, i: int) -> Seq<char>
    decreases s.len() - i,
{
    if i < 0 || i >= s.len() {
        Seq::empty()
    } else if from.len() > 0 && i + from.len() <= s.len() && s.subrange(i, i + from.len()) == from {
        to + replaced_from(s, from, to, i + from.len())
    } else {
        seq![s[i]] + replaced_from(s, from, to, i + 1)
    }
}

/// The text with every occurrence of `from` replaced by `to`.
pub open spec fn replaced_all(s: Seq<char>, from: Seq<char>, to: Seq<char>) -> Seq<char> {
    replaced_from(s, from, to, 0)
}

/// Whether `chars` holds `pattern` at index `at`.
fn holds_at(chars: &Vec<char>, at: usize, pattern: &Vec<char>) -> (holds: bool)
    requires
        at <= chars@.len(),
    ensures
        holds == (at + pattern@.len() <= chars@.len() && chars@.subrange(
            at as int,
            at + pattern@.len(),
        ) == pattern@),
{
    if chars.len() - at < pattern.len() {
        return false;
    }
    let mut k: usize = 0;
    while k < pattern.len()
        invariant
            k <= pattern@.len(),
            at + pattern@.len() <= chars@.len(),
            chars@.len() <= usize::MAX,
            chars@.subrange(at as int, at + k) == pattern@.subrange(0, k as int),
        decreases pattern@.len() - k,
    {
        if chars[at + k] != pattern[k] {
            assert(chars@.subrange(at as int, at + pattern@.len())[k as int] != pattern@[k as int]);
            return false;
        }
        k += 1;
        assert(chars@.subrange(at as int, at + k) =~= chars@.subrange(at as int, at + k - 1).push(
            chars@[at + k - 1],
        ));
        assert(pattern@.subrange(0, k as int) =~= pattern@.subrange(0, k - 1).push(pattern@[k - 1]));
    }
    assert(pattern@.subrange(0, k as int) =~= pattern@);
    true
}

/// Replaces every occurrence of `from` in `s` by `to`.
pub fn replace_all(s: &str, from: &str, to: &str) -> (replaced: String)
    ensures
        replaced@ == replaced_all(s@, from@, to@),
{
    let chars = chars_of(s);
    let pattern = chars_of(from);
    let mut out = String::new();
    let mut i: usize = 0;
    while i < chars.len()
        invariant
            i <= chars@.len(),
            chars@ == s@,
            pattern@ == from@,
            out@ + replaced_from(s@, from@, to@, i as int) == replaced_all(s@, from@, to@),
        decreases chars@.len() - i,
    {
        let ghost before = out@;
        if pattern.len() > 0 && holds_at(&chars, i, &pattern) {
            out.append(to);
            assert(before + (to@ + replaced_from(s@, from@, to@, i + pattern@.len())) =~= (before
                + to@) + replaced_from(s@, from@, to@, i + pattern@.len()));
            i += pattern.len();
        } else {
            out.push(chars[i]);
            assert(before + (seq![s@[i as int]] + replaced_from(s@, from@, to@, i + 1)) =~= before.push(
                s@[i as int],
            ) + replaced_from(s@, from@, to@, i + 1));
            i += 1;
        }
    }
    assert(out@ + Seq::<char>::empty() =~= out@);
    out
}

/// The address template of a search engine: that of a known engine by its
/// name, any other text being a template itself.
pub open spec fn engine_template(engine: Seq<char>) -> Seq<char> {
    if engine == "google"@ {
        "https://www.google.com/search?q={keyword}"@
    } else if engine == "bing"@ {
        "https://www.bing.com/search?q={keyword}"@
    } else if engine == "duckduckgo"@ {
        "https://duckduckgo.com/?q={keyword}"@
    } else if engine == "yahoo"@ {
        "https://search.yahoo.com/search?p={keyword}"@
    } else if engine == "baidu"@ {
        "https://www.baidu.com/s?wd={keyword}"@
    } else if engine == "yandex"@ {
        "https://yandex.com/search/?text={keyword}"@
    } else if engine == "ask"@ {
        "https://www.ask.com/web?q={keyword}"@
    } else if engine == "ecosia"@ {
        "https://www.ecosia.org/search?q={keyword}"@
    } else if engine == "qwant"@ {
        "https://www.qwant.com/?q={keyword}"@
    } else if engine == "startpage"@ {
        "https://www.startpage.com/sp/search?q={keyword}"@
    } else if engine == "plain"@ {
        "{keyword}"@
    } else {
        engine
    }
}

/// The address that a search for `query` opens: the template of the
/// engine, or of `plain` where the query is an address itself, with the
/// query, its spaces turned to `+`, in the place of `{keyword}`.
pub open spec fn search_address(engine: Seq<char>, query: Seq<char>) -> Seq<char> {
    let template = if reads_as_url(query) {
        engine_template("plain"@)
    } else {
        engine_template(engine)
    };
    replaced_all(template, "{keyword}"@, replaced_all(query, " "@, "+"@))
}

/// Whether `s` holds `pattern` at index `i`.
pub open spec fn occurs_at(s: Seq<char>, pattern: Seq<char>, i: int) -> bool {
    0 <= i && i + pattern.len() <= s.len() && s.subrange(i, i + pattern.len()) == pattern
}

/// Whether `pattern` occurs in `s`.
pub open spec fn occurs_in(s: Seq<char>, pattern: Seq<char>) -> bool {
    exists|i: int| occurs_at(s, pattern, i)
}

/// Whether `pattern` occurs in `s`.
pub fn contains(s: &str, pattern: &str) -> (found: bool)
    ensures
        found == occurs_in(s@, pattern@),
{
    let chars = chars_of(s);
    let wanted = chars_of(pattern);
    let n = chars.len();
    let mut i: usize = 0;
    while i <= n
        invariant
            i <= n,
            n == chars@.len(),
            chars@ == s@,
            wanted@ == pattern@,
            forall|j: int| 0 <= j < i ==> !occurs_at(s@, pattern@, j),
        decreases n - i,
    {
        if holds_at(&chars, i, &wanted) {
            assert(occurs_at(s@, pattern@, i as int));
            return true;
        }
        if i == n {
            assert forall|j: int| !occurs_at(s@, pattern@, j) by {}
            return false;
        }
        i += 1;
    }
    false
}

/// The command that opens `address` in `browser`: the address, quoted and
/// after a space, in the place of every `%u` of the browser's command, or
/// at its end where the command has no `%u`.
pub open spec fn browser_command(browser: Seq<char>, address: Seq<char>) -> Seq<char> {
    let quoted = " \""@ + address + "\""@;
    if occurs_in(browser, "%u"@) {
        replaced_all(browser, "%u"@, quoted)
    } else {
        browser + quoted
    }
}

fn template_of(engine: &str) -> (template: String)
    ensures
        template@ == engine_template(engine@),
{
    if str_eq(engine, "google") {
        duplicate("https://www.google.com/search?q={keyword}")
    } else if str_eq(engine, "bing") {
        duplicate("https://www.bing.com/search?q={keyword}")
    } else if str_eq(engine, "duckduckgo") {
        duplicate("https://duckduckgo.com/?q={keyword}")
    } else if str_eq(engine, "yahoo") {
        duplicate("https://search.yahoo.com/search?p={keyword}")
    } else if str_eq(engine, "baidu") {
        duplicate("https://www.baidu.com/s?wd={keyword}")
    } else if str_eq(engine, "yandex") {
        duplicate("https://yandex.com/search/?text={keyword}")
    } else if str_eq(engine, "ask") {
        duplicate("https://www.ask.com/web?q={keyword}")
    } else if str_eq(engine, "ecosia") {
        duplicate("https://www.ecosia.org/search?q={keyword}")
    } else if str_eq(engine, "qwant") {
        duplicate("https://www.qwant.com/?q={keyword}")
    } else if str_eq(engine, "startpage") {
        duplicate("https://www.startpage.com/sp/search?q={keyword}")
    } else if str_eq(engine, "plain") {
        duplicate("{keyword}")
    } else {
        duplicate(engine)
    }
}

/// Builds the command that searches for `query` with `engine` in
/// `browser`.
pub fn websearch(engine: &str, query: &str, browser: &str) -> (command: String)
    ensures
        command@ == browser_command(browser@, search_address(engine@, query@)),
{
    let template = if is_url(query) {
        template_of("plain")
    } else {
        template_of(engine)
    };
    let keyword = replace_all(query, " ", "+");
    let address = replace_all(template.as_str(), "{keyword}", keyword.as_str());
    let mut quoted = duplicate(" \"");
    quoted.append(address.as_str());
    quoted.append("\"");
    if contains(browser, "%u") {
        replace_all(browser, "%u", quoted.as_str())
    } else {
        let mut command = duplicate(browser);
        command.append(quoted.as_str());
        command
    }
}

} // verus!
