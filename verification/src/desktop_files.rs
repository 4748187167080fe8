//! Where desktop entries are looked for, and which of them count.
//!
//! Desktop entries lie in the system's directories and in the user's local
//! directory. Entries with the same file stem stand for the same
//! application; of those the local one wins.

use crate::indexer::{lists, path_listed};
use crate::paths::{join_path, joined};
use crate::table::{
    entered_upto, has_key, keys_distinct, lemma_entered, lemma_key_index, lemma_last_entry_stays,
    value_of,
};
use crate::text::str_eq;
use crate::websearch::{replace_all, replaced_all};
use vstd::prelude::*;

verus! {

/// A desktop entry found in a directory.
#[derive(Debug)]
pub struct DesktopFile {
    /// The file name without its extension: the name under which entries
    /// of different directories stand for the same application.
    pub stem: String,
    /// The path of the file.
    pub path: String,
}

impl View for DesktopFile {
    type V = (Seq<char>, Seq<char>);

    open spec fn view(&self) -> (Seq<char>, Seq<char>) {
        (self.stem@, self.path@)
    }
}

impl DeepView for DesktopFile {
    type V = (Seq<char>, Seq<char>);

    open spec fn deep_view(&self) -> (Seq<char>, Seq<char>) {
        self@
    }
}

/// One path for each stem: that of the last entry with the stem, the
/// entries of the local directory coming after those of the system
/// directories.
pub open spec fn merged_files(
    system: Seq<(Seq<char>, Seq<char>)>,
    local: Seq<(Seq<char>, Seq<char>)>,
) -> Seq<(Seq<char>, Seq<char>)> {
    entered_upto(system + local, (system + local).len() as int)
}

/// An entry of the local directory wins over every entry of the system
/// directories with the same stem: the merged table holds, for the stem of
/// the last local entry with that stem, the local path.
pub proof fn lemma_local_wins(
    system: Seq<(Seq<char>, Seq<char>)>,
    local: Seq<(Seq<char>, Seq<char>)>,
    i: int,
)
    requires
        0 <= i < local.len(),
        forall|j: int| i < j < local.len() ==> (#[trigger] local[j]).0 != local[i].0,
    ensures
        value_of(merged_files(system, local), local[i].0) == Some(local[i].1),
        keys_distinct(merged_files(system, local)),
{
    let all = system + local;
    let at = system.len() + i;
    assert(all[at] == local[i]);
    assert forall|j: int| at < j < all.len() implies (#[trigger] all[j]).0 != all[at].0 by {
        assert(all[j] == local[j - system.len()]);
    }
    lemma_last_entry_stays(all, all.len() as int, at);
    lemma_entered(all, all.len() as int);
}

fn find_stem(table: &Vec<DesktopFile>, stem: &str) -> (found: Option<usize>)
    ensures
        match found {
            Some(i) => i < table@.len() && table.deep_view()[i as int].0 == stem@,
            None => !has_key(table.deep_view(), stem@),
        },
{
    let mut i: usize = 0;
    while i < table.len()
        invariant
            i <= table@.len(),
            forall|j: int| 0 <= j < i ==> table.deep_view()[j].0 != stem@,
        decreases table@.len() - i,
    {
        assert(table.deep_view()[i as int] == table@[i as int]@);
        if str_eq(table[i].stem.as_str(), stem) {
            return Some(i);
        }
        i += 1;
    }
    None
}

fn enter_all(table: &mut Vec<DesktopFile>, entries: &Vec<DesktopFile>, Ghost(all): Ghost<
    Seq<(Seq<char>, Seq<char>)>,
>, Ghost(offset): Ghost<int>)
    requires
        0 <= offset,
        offset + entries@.len() <= all.len(),
        forall|j: int| 0 <= j < entries@.len() ==> all[offset + j] == #[trigger] entries.deep_view()[j],
        old(table).deep_view() == entered_upto(all, offset),
    ensures
        final(table).deep_view() == entered_upto(all, offset + entries@.len()),
{
    let mut i: usize = 0;
    while i < entries.len()
        invariant
            i <= entries@.len(),
            0 <= offset,
            offset + entries@.len() <= all.len(),
            forall|j: int|
                0 <= j < entries@.len() ==> all[offset + j] == #[trigger] entries.deep_view()[j],
            table.deep_view() == entered_upto(all, offset + i),
        decreases entries@.len() - i,
    {
        let ghost before = table.deep_view();
        proof {
            lemma_entered(all, offset + i);
            assert(entries.deep_view()[i as int] == entries@[i as int]@);
        }
        let entry = DesktopFile { stem: entries[i].stem.clone(), path: entries[i].path.clone() };
        match find_stem(table, entry.stem.as_str()) {
            Some(at) => {
                proof {
                    lemma_key_index(before, entry.stem@, at as int);
                }
                table[at] = entry;
                assert(table.deep_view() =~= before.update(at as int, all[offset + i]));
            },
            None => {
                table.push(entry);
                assert(table.deep_view() =~= before.push(all[offset + i]));
            },
        }
        i += 1;
    }
}

/// Merges the desktop entries of the system directories with those of the
/// user's local directory into one list of paths, one per stem. Where two
/// entries share a stem the later one stays, and every local entry comes
/// after the system entries: the local directory always wins.
pub fn get_desktop_files(system: &Vec<DesktopFile>, local: &Vec<DesktopFile>) -> (paths: Vec<
    String,
>)
    ensures
        paths.deep_view() == merged_files(system.deep_view(), local.deep_view()).map_values(
            |e: (Seq<char>, Seq<char>)| e.1,
        ),
{
    let ghost all = system.deep_view() + local.deep_view();
    let mut table: Vec<DesktopFile> = Vec::new();
    assert(table.deep_view() =~= entered_upto(all, 0));
    enter_all(&mut table, system, Ghost(all), Ghost(0));
    enter_all(&mut table, local, Ghost(all), Ghost(system@.len() as int));
    let mut paths: Vec<String> = Vec::new();
    let mut i: usize = 0;
    while i < table.len()
        invariant
            i <= table@.len(),
            paths@.len() == i,
            forall|j: int| 0 <= j < i ==> paths@[j]@ == table@[j].path@,
        decreases table@.len() - i,
    {
        paths.push(table[i].path.clone());
        i += 1;
    }
    assert(paths.deep_view() =~= table.deep_view().map_values(|e: (Seq<char>, Seq<char>)| e.1));
    paths
}

/// The pieces of `s` between the separators, from index `from` on, the
/// piece under way being `piece`.
pub open spec fn pieces_from(s: Seq<char>, sep: char, from: int, piece: Seq<char>) -> Seq<Seq<char>>
    decreases s.len() - from,
{
    if from < 0 || from >= s.len() {
        seq![piece]
    } else if s[from] == sep {
        seq![piece] + pieces_from(s, sep, from + 1, Seq::empty())
    } else {
        pieces_from(s, sep, from + 1, piece.push(s[from]))
    }
}

/// The pieces of `s` between the separators; a text without separator is
/// one piece.
pub open spec fn split_on(s: Seq<char>, sep: char) -> Seq<Seq<char>> {
    pieces_from(s, sep, 0, Seq::empty())
}

/// Splits a text at every separator.
pub fn split(s: &str, sep: char) -> (pieces: Vec<String>)
    ensures
        pieces.deep_view() == split_on(s@, sep),
{
    let mut pieces: Vec<String> = Vec::new();
    let mut piece = String::new();
    assert(pieces.deep_view() =~= Seq::<Seq<char>>::empty());
    for c in it: s.chars()
        invariant
            it.seq() == s@,
            pieces.deep_view() + pieces_from(s@, sep, it.index() as int, piece@) == split_on(s@, sep),
    {
        let ghost before = pieces.deep_view();
        let ghost i = it.index() as int;
        if c == sep {
            let ghost word = piece@;
            let mut done = String::new();
            std::mem::swap(&mut piece, &mut done);
            pieces.push(done);
            assert(pieces.deep_view() =~= before.push(word));
            assert(before + (seq![word] + pieces_from(s@, sep, i + 1, Seq::empty())) =~= before.push(
                word,
            ) + pieces_from(s@, sep, i + 1, Seq::empty()));
        } else {
            piece.push(c);
        }
    }
    let ghost before = pieces.deep_view();
    let ghost word = piece@;
    pieces.push(piece);
    assert(pieces.deep_view() =~= before + seq![word]);
    pieces
}

/// The directory of desktop entries below each data directory of a list
/// separated by `:`.
pub open spec fn xdg_dirs(xdg_data_dirs: Seq<char>) -> Seq<Seq<char>> {
    split_on(xdg_data_dirs, ':').map_values(|p: Seq<char>| joined(p, "applications/"@))
}

/// The directories of desktop entries that a list of data directories
/// names: `applications/` below each directory of the list.
pub fn xdg_application_dirs(xdg_data_dirs: &str) -> (dirs: Vec<String>)
    ensures
        dirs.deep_view() == xdg_dirs(xdg_data_dirs@),
{
    let pieces = split(xdg_data_dirs, ':');
    let mut dirs: Vec<String> = Vec::new();
    let mut i: usize = 0;
    while i < pieces.len()
        invariant
            i <= pieces@.len(),
            dirs@.len() == i,
            forall|j: int| 0 <= j < i ==> dirs@[j]@ == joined(pieces@[j]@, "applications/"@),
        decreases pieces@.len() - i,
    {
        dirs.push(join_path(pieces[i].as_str(), "applications/"));
        i += 1;
    }
    assert(dirs.deep_view() =~= pieces.deep_view().map_values(
        |p: Seq<char>| joined(p, "applications/"@),
    ));
    dirs
}

/// The directories that are searched for desktop entries before any are
/// added: the system's and the user's, and those that the configuration
/// names, each with `~` replaced by the home directory; then those of the
/// data directories.
pub open spec fn candidate_dirs(
    xdg_data_dirs: Option<Seq<char>>,
    home: Seq<char>,
    extra: Seq<Seq<char>>,
) -> Seq<Seq<char>> {
    (seq!["/usr/share/applications/"@, "~/.local/share/applications/"@] + extra).map_values(
        |p: Seq<char>| replaced_all(p, "~"@, home),
    ) + match xdg_data_dirs {
        Some(list) => xdg_dirs(list),
        None => Seq::empty(),
    }
}

/// The first `n` texts, each once: a text that came before is passed over.
pub open spec fn distinct_upto(texts: Seq<Seq<char>>, n: int) -> Seq<Seq<char>>
    decreases n,
{
    if n <= 0 {
        Seq::empty()
    } else {
        let before = distinct_upto(texts, n - 1);
        if lists(before, texts[n - 1]) {
            before
        } else {
            before.push(texts[n - 1])
        }
    }
}

/// The distinct texts are the texts, each once: no text occurs twice among
/// them, and a text is among them exactly where it is among the texts.
pub proof fn lemma_distinct_upto(texts: Seq<Seq<char>>, n: int)
    requires
        0 <= n <= texts.len(),
    ensures
        distinct_upto(texts, n).no_duplicates(),
        distinct_upto(texts, n).len() <= n,
        forall|t: Seq<char>|
            lists(distinct_upto(texts, n), t) <==> exists|i: int| 0 <= i < n && #[trigger] texts[i] == t,
    decreases n,
{
    if n > 0 {
        lemma_distinct_upto(texts, n - 1);
        let before = distinct_upto(texts, n - 1);
        let after = distinct_upto(texts, n);
        let last = texts[n - 1];
        assert forall|t: Seq<char>|
            lists(after, t) <==> exists|i: int| 0 <= i < n && #[trigger] texts[i] == t by {
            if lists(after, t) {
                let j = choose|j: int| 0 <= j < after.len() && after[j] == t;
                if j < before.len() {
                    assert(before[j] == t);
                    assert(lists(before, t));
                    let i = choose|i: int| 0 <= i < n - 1 && #[trigger] texts[i] == t;
                    assert(texts[i] == t);
                } else {
                    assert(texts[n - 1] == t);
                }
            }
            if exists|i: int| 0 <= i < n && #[trigger] texts[i] == t {
                let i = choose|i: int| 0 <= i < n && #[trigger] texts[i] == t;
                if i < n - 1 {
                    assert(lists(before, t));
                    let j = choose|j: int| 0 <= j < before.len() && before[j] == t;
                    assert(after[j] == t);
                } else if lists(before, last) {
                } else {
                    assert(after[after.len() - 1] == t);
                }
            }
        }
        if !lists(before, last) {
            assert forall|a: int, b: int| 0 <= a < after.len() && 0 <= b < after.len() && a
                != b implies after[a] != after[b] by {
                if a == before.len() {
                    assert(before[b] != last);
                } else if b == before.len() {
                    assert(before[a] != last);
                }
            }
        }
    }
}

/// The directories to search for desktop entries, each once.
///
/// `xdg_data_dirs` is the list of data directories of the environment,
/// `home` the home directory, for which `~` stands where it is not known,
/// and `extra` the directories that the configuration adds.
pub fn get_applications_dir(xdg_data_dirs: Option<&str>, home: Option<&str>, extra: &Vec<String>) -> (dirs:
    Vec<String>)
    ensures
        dirs.deep_view() == distinct_upto(
            candidate_dirs(xdg_data_dirs.deep_view(), match home {
                Some(h) => h@,
                None => "~"@,
            }, extra.deep_view()),
            candidate_dirs(xdg_data_dirs.deep_view(), match home {
                Some(h) => h@,
                None => "~"@,
            }, extra.deep_view()).len() as int,
        ),
{
    let home: &str = match home {
        Some(h) => h,
        None => "~",
    };
    let ghost wanted = candidate_dirs(xdg_data_dirs.deep_view(), home@, extra.deep_view());
    let mut all: Vec<String> = Vec::new();
    all.push(replace_all("/usr/share/applications/", "~", home));
    all.push(replace_all("~/.local/share/applications/", "~", home));
    let mut i: usize = 0;
    while i < extra.len()
        invariant
            i <= extra@.len(),
            all@.len() == 2 + i,
            all@[0]@ == replaced_all("/usr/share/applications/"@, "~"@, home@),
            all@[1]@ == replaced_all("~/.local/share/applications/"@, "~"@, home@),
            forall|j: int| 0 <= j < i ==> all@[2 + j]@ == replaced_all(extra@[j]@, "~"@, home@),
        decreases extra@.len() - i,
    {
        all.push(replace_all(extra[i].as_str(), "~", home));
        i += 1;
    }
    match xdg_data_dirs {
        Some(list) => {
            let mut more = xdg_application_dirs(list);
            let ghost head = all.deep_view();
            let ghost tail = more.deep_view();
            all.append(&mut more);
            assert(all.deep_view() =~= head + tail);
            assert(head =~= (seq!["/usr/share/applications/"@, "~/.local/share/applications/"@]
                + extra.deep_view()).map_values(|p: Seq<char>| replaced_all(p, "~"@, home@)));
        },
        None => {
            assert(all.deep_view() =~= (seq![
                "/usr/share/applications/"@,
                "~/.local/share/applications/"@,
            ] + extra.deep_view()).map_values(|p: Seq<char>| replaced_all(p, "~"@, home@))
                + Seq::<Seq<char>>::empty());
        },
    }
    assert(all.deep_view() == wanted);
    let mut dirs: Vec<String> = Vec::new();
    let mut k: usize = 0;
    assert(dirs.deep_view() =~= Seq::<Seq<char>>::empty());
    while k < all.len()
        invariant
            k <= all@.len(),
            dirs.deep_view() == distinct_upto(all.deep_view(), k as int),
        decreases all@.len() - k,
    {
        assert(all.deep_view()[k as int] == all@[k as int]@);
        if !path_listed(&dirs, all[k].as_str()) {
            let ghost before = dirs.deep_view();
            dirs.push(all[k].clone());
            assert(dirs.deep_view() =~= before.push(all@[k as int]@));
        }
        k += 1;
    }
    dirs
}

/// Whether a directory is the user's local directory of desktop entries.
pub fn is_local_dir(dir: &str) -> (local: bool)
    ensures
        local == crate::paths::ends_with_components(dir@, ".local/share/applications"@),
{
    crate::paths::path_ends_with(dir, ".local/share/applications")
}

} // verus!
