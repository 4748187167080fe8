//! Paths, as texts with `/` between their components.

use crate::text::{chars_of, duplicate, string_of};
use vstd::prelude::*;
use vstd::string::StringExecFns;

verus! {

/// The path `rel` taken from `base`: `rel` itself where it is absolute,
/// that is where it starts with a `/`; else `base`, a `/` unless `base` is
/// empty or ends in one, then `rel`.
pub open spec fn joined(base: Seq<char>, rel: Seq<char>) -> Seq<char> {
    if rel.len() > 0 && rel[0] == '/' {
        rel
    } else if base.len() == 0 || base.last() == '/' {
        base + rel
    } else {
        base + seq!['/'] + rel
    }
}

/// The path `rel` taken from `base`: below `base` where `rel` is relative,
/// `rel` itself where it is absolute.
pub fn join_path(base: &str, rel: &str) -> (path: String)
    ensures
        path@ == joined(base@, rel@),
{
    if !rel.is_empty() && rel.get_char(0) == '/' {
        return duplicate(rel);
    }
    let chars = chars_of(base);
    let mut path = duplicate(base);
    if chars.len() > 0 && chars[chars.len() - 1] != '/' {
        proof {
            reveal_strlit("/");
            assert("/"@ =~= seq!['/']);
        }
        path.append("/");
    }
    path.append(rel);
    path
}

/// The path with a leading `~/` replaced by the home directory.
pub open spec fn home_expanded(path: Seq<char>, home: Seq<char>) -> Seq<char> {
    if path.len() >= 2 && path[0] == '~' && path[1] == '/' {
        joined(home, path.subrange(2, path.len() as int))
    } else {
        path
    }
}

/// Replaces a leading `~/` by the home directory.
pub fn expand_path(path: &str, home: &str) -> (expanded: String)
    ensures
        expanded@ == home_expanded(path@, home@),
{
    let chars = chars_of(path);
    if chars.len() >= 2 && chars[0] == '~' && chars[1] == '/' {
        let rest = string_of(&chars, 2, chars.len());
        join_path(home, rest.as_str())
    } else {
        duplicate(path)
    }
}

/// The path without one trailing `/`.
pub open spec fn without_trailing_slash(path: Seq<char>) -> Seq<char> {
    if path.len() > 0 && path.last() == '/' {
        path.drop_last()
    } else {
        path
    }
}

/// Whether the path ends with the components of `tail`, a trailing `/` of
/// the path not counting: the path is `tail`, or ends in a `/` and `tail`.
pub open spec fn ends_with_components(path: Seq<char>, tail: Seq<char>) -> bool {
    let p = without_trailing_slash(path);
    p == tail || (p.len() > tail.len() && p.subrange(p.len() - tail.len(), p.len() as int) == tail
        && p[p.len() - tail.len() - 1] == '/')
}

/// Whether `path` ends with the components of `tail`. `tail` is a relative
/// path without a trailing `/`.
pub fn path_ends_with(path: &str, tail: &str) -> (ends: bool)
    ensures
        ends == ends_with_components(path@, tail@),
{
    let p = chars_of(path);
    let t = chars_of(tail);
    let n: usize = if p.len() > 0 && p[p.len() - 1] == '/' {
        p.len() - 1
    } else {
        p.len()
    };
    let ghost stripped = without_trailing_slash(path@);
    assert(stripped =~= p@.subrange(0, n as int));
    if n < t.len() {
        return false;
    }
    let start: usize = n - t.len();
    let mut i: usize = 0;
    while i < t.len()
        invariant
            i <= t@.len(),
            start + t@.len() == n,
            n <= p@.len(),
            p@.len() <= usize::MAX,
            stripped == p@.subrange(0, n as int),
            stripped == without_trailing_slash(path@),
            t@ == tail@,
            p@.subrange(start as int, start + i) == t@.subrange(0, i as int),
        decreases t@.len() - i,
    {
        if p[start + i] != t[i] {
            assert(p@.subrange(start as int, n as int)[i as int] != t@[i as int]);
            assert(stripped.subrange(stripped.len() - t@.len(), stripped.len() as int)[i as int]
                != t@[i as int]);
            assert(stripped.len() == t@.len() ==> stripped[i as int] != t@[i as int]);
            return false;
        }
        i += 1;
        assert(p@.subrange(start as int, start + i) =~= p@.subrange(start as int, start + i - 1).push(
            p@[start + i - 1],
        ));
        assert(t@.subrange(0, i as int) =~= t@.subrange(0, i - 1).push(t@[i - 1]));
    }
    assert(t@.subrange(0, i as int) =~= t@);
    assert(stripped.subrange(stripped.len() - t@.len(), stripped.len() as int) =~= p@.subrange(
        start as int,
        n as int,
    ));
    if start == 0 {
        assert(stripped =~= t@);
        true
    } else {
        p[start - 1] == '/'
    }
}

/// The stem of a desktop entry's file name: the name without its
/// extension `.desktop`, where it has that extension.
pub open spec fn desktop_stem_of(file_name: Seq<char>) -> Option<Seq<char>> {
    let ext = ".desktop"@;
    if file_name.len() > ext.len() && file_name.subrange(
        file_name.len() - ext.len(),
        file_name.len() as int,
    ) == ext {
        Some(file_name.subrange(0, file_name.len() - ext.len()))
    } else {
        None
    }
}

/// The stem of the file name of a desktop entry, `None` for any other
/// file name.
pub fn desktop_stem(file_name: &str) -> (stem: Option<String>)
    ensures
        stem.deep_view() == desktop_stem_of(file_name@),
{
    let name = chars_of(file_name);
    let ext = chars_of(".desktop");
    if name.len() <= ext.len() {
        return None;
    }
    let start: usize = name.len() - ext.len();
    let mut i: usize = 0;
    while i < ext.len()
        invariant
            i <= ext@.len(),
            start + ext@.len() == name@.len(),
            name@.len() <= usize::MAX,
            ext@ == ".desktop"@,
            name@ == file_name@,
            name@.subrange(start as int, start + i) == ext@.subrange(0, i as int),
        decreases ext@.len() - i,
    {
        if name[start + i] != ext[i] {
            assert(name@.subrange(start as int, name@.len() as int)[i as int] != ext@[i as int]);
            return None;
        }
        i += 1;
        assert(name@.subrange(start as int, start + i) =~= name@.subrange(
            start as int,
            start + i - 1,
        ).push(name@[start + i - 1]));
        assert(ext@.subrange(0, i as int) =~= ext@.subrange(0, i - 1).push(ext@[i - 1]));
    }
    assert(ext@.subrange(0, i as int) =~= ext@);
    Some(string_of(&name, 0, start))
}

} // verus!
