//! The assets that the program carries with it.

use crate::text::{chars_of, duplicate, string_of, str_eq};
use vstd::prelude::*;

verus! {

/// The index of the assets that are built into the program.
#[derive(Debug)]
pub struct Assets {
    /// The paths of the built-in assets.
    pub names: Vec<String>,
}

/// Where an asset is to be read from.
#[derive(Clone, Copy, Debug, PartialEq, Eq, Structural)]
pub enum AssetPlace {
    /// The empty path names no asset.
    Nothing,
    /// An absolute path names a file on disk.
    File,
    /// Any other path names a built-in asset, which may be missing.
    Embedded,
}

/// Whether `s` begins with `prefix`.
pub open spec fn begins_with(s: Seq<char>, prefix: Seq<char>) -> bool {
    prefix.len() <= s.len() && s.subrange(0, prefix.len() as int) == prefix
}

/// The texts among the first `n` that begin with `prefix`, in order.
pub open spec fn beginning_with(names: Seq<Seq<char>>, prefix: Seq<char>, n: int) -> Seq<Seq<char>>
    decreases n,
{
    if n <= 0 {
        Seq::empty()
    } else if begins_with(names[n - 1], prefix) {
        beginning_with(names, prefix, n - 1).push(names[n - 1])
    } else {
        beginning_with(names, prefix, n - 1)
    }
}

/// Whether `s` begins with `prefix`.
pub fn starts_with(s: &str, prefix: &str) -> (begins: bool)
    ensures
        begins == begins_with(s@, prefix@),
{
    let chars = chars_of(s);
    let wanted = chars_of(prefix);
    if chars.len() < wanted.len() {
        return false;
    }
    let head = string_of(&chars, 0, wanted.len());
    assert(wanted@.subrange(0, wanted@.len() as int) =~= wanted@);
    str_eq(head.as_str(), prefix)
}

impl Assets {
    /// Where the asset at `path` is to be read from.
    pub fn locate(path: &str) -> (place: AssetPlace)
        ensures
            place == if path@.len() == 0 {
                AssetPlace::Nothing
            } else if path@[0] == '/' {
                AssetPlace::File
            } else {
                AssetPlace::Embedded
            },
    {
        let chars = chars_of(path);
        if chars.len() == 0 {
            AssetPlace::Nothing
        } else if chars[0] == '/' {
            AssetPlace::File
        } else {
            AssetPlace::Embedded
        }
    }

    /// The built-in assets whose paths begin with `path`.
    pub fn list(&self, path: &str) -> (found: Vec<String>)
        ensures
            found.deep_view() == beginning_with(
                self.names.deep_view(),
                path@,
                self.names@.len() as int,
            ),
    {
        let mut found: Vec<String> = Vec::new();
        let mut i: usize = 0;
        assert(found.deep_view() =~= Seq::<Seq<char>>::empty());
        while i < self.names.len()
            invariant
                i <= self.names@.len(),
                found.deep_view() == beginning_with(self.names.deep_view(), path@, i as int),
            decreases self.names@.len() - i,
        {
            assert(self.names.deep_view()[i as int] == self.names@[i as int]@);
            if starts_with(self.names[i].as_str(), path) {
                let ghost before = found.deep_view();
                found.push(duplicate(self.names[i].as_str()));
                assert(found.deep_view() =~= before.push(self.names@[i as int]@));
            }
            i += 1;
        }
        found
    }
}

} // verus!
