//! The user's icon theme: icons found in the user's icon directories, by
//! name.

use crate::errors::{ErrorKind, SherlockError, SherlockErrorType};
use crate::paths::{expand_path, home_expanded};
use crate::table::{has_key, keys_distinct, lemma_key_index, lemma_store_lookup, stored, value_of};
use crate::text::{ascii_lower, chars_of, duplicate, duplicate_opt, str_eq, string_of, to_ascii_lowercase};
use vstd::prelude::*;

verus! {

/// The mathematical icon table: for each icon name the path of its file,
/// or `None` where the name is known to resolve to nothing.
pub type Icons = Seq<(Seq<char>, Option<Seq<char>>)>;

/// One entry of the theme.
#[derive(Debug)]
pub struct IconEntry {
    pub name: String,
    pub path: Option<String>,
}

/// The icons of the user's icon directories.
#[derive(Debug)]
pub struct CustomIconTheme {
    buf: Vec<IconEntry>,
}

impl View for CustomIconTheme {
    type V = Icons;

    closed spec fn view(&self) -> Icons {
        Seq::new(self.buf@.len(), |i: int| (self.buf@[i].name@, self.buf@[i].path.deep_view()))
    }
}

/// The table with the icons entered in order, an icon whose name is
/// already there being passed over.
pub open spec fn with_icons(t: Icons, found: Icons, n: int) -> Icons
    decreases n,
{
    if n <= 0 {
        t
    } else {
        let before = with_icons(t, found, n - 1);
        if has_key(before, found[n - 1].0) {
            before
        } else {
            before.push(found[n - 1])
        }
    }
}

/// The name of an icon file: the file name without its extension, where
/// the extension is `png` or `svg` in any case of letters.
pub open spec fn icon_name_of(file_name: Seq<char>) -> Option<Seq<char>> {
    if file_name.len() > 4 && file_name[file_name.len() - 4] == '.' && (ascii_lower(
        file_name.subrange(file_name.len() - 3, file_name.len() as int),
    ) == "png"@ || ascii_lower(file_name.subrange(file_name.len() - 3, file_name.len() as int))
        == "svg"@) {
        Some(file_name.subrange(0, file_name.len() - 4))
    } else {
        None
    }
}

impl CustomIconTheme {
    /// The theme's invariant: every name has one entry.
    pub open spec fn wf(&self) -> bool {
        keys_distinct(self@)
    }

    /// The empty theme.
    pub fn new() -> (theme: Self)
        ensures
            theme@ == Seq::<(Seq<char>, Option<Seq<char>>)>::empty(),
            theme.wf(),
    {
        let theme = CustomIconTheme { buf: Vec::new() };
        assert(theme@ =~= Seq::<(Seq<char>, Option<Seq<char>>)>::empty());
        theme
    }

    /// The directory to scan for `path`: the path with a leading `~/`
    /// replaced by the home directory, or `None` where the path needs a
    /// home directory and there is none.
    pub fn scan_dir(path: &str, home: Option<&str>) -> (dir: Option<String>)
        ensures
            dir.deep_view() == match home {
                Some(h) => Some(home_expanded(path@, h@)),
                None => if path@.len() >= 2 && path@[0] == '~' && path@[1] == '/' {
                    None
                } else {
                    Some(path@)
                },
            },
    {
        match home {
            Some(h) => Some(expand_path(path, h)),
            None => {
                let chars = chars_of(path);
                if chars.len() >= 2 && chars[0] == '~' && chars[1] == '/' {
                    None
                } else {
                    Some(duplicate(path))
                }
            },
        }
    }

    /// The name under which the file `file_name` is an icon, `None` where
    /// it is no icon file.
    pub fn icon_name(file_name: &str) -> (name: Option<String>)
        ensures
            name.deep_view() == icon_name_of(file_name@),
    {
        let chars = chars_of(file_name);
        let n = chars.len();
        if n <= 4 || chars[n - 4] != '.' {
            return None;
        }
        let ext = string_of(&chars, n - 3, n);
        let lower = to_ascii_lowercase(ext.as_str());
        if str_eq(lower.as_str(), "png") || str_eq(lower.as_str(), "svg") {
            Some(string_of(&chars, 0, n - 4))
        } else {
            None
        }
    }

    fn find(&self, name: &str) -> (found: Option<usize>)
        ensures
            match found {
                Some(i) => i < self@.len() && self@[i as int].0 == name@,
                None => !has_key(self@, name@),
            },
    {
        let mut i: usize = 0;
        while i < self.buf.len()
            invariant
                i <= self.buf@.len(),
                forall|j: int| 0 <= j < i ==> self@[j].0 != name@,
            decreases self.buf@.len() - i,
        {
            if str_eq(self.buf[i].name.as_str(), name) {
                return Some(i);
            }
            i += 1;
        }
        None
    }

    /// Adds the icons found below one directory, in the order in which
    /// they were found. An icon whose name the theme already knows is
    /// passed over: the first path found for a name stays.
    pub fn add_path(&mut self, found: &Vec<IconEntry>)
        requires
            old(self).wf(),
        ensures
            final(self).wf(),
            final(self)@ == with_icons(
                old(self)@,
                Seq::new(found@.len(), |i: int| (found@[i].name@, found@[i].path.deep_view())),
                found@.len() as int,
            ),
    {
        let ghost icons = Seq::new(
            found@.len(),
            |i: int| (found@[i].name@, found@[i].path.deep_view()),
        );
        let ghost start = self@;
        let mut i: usize = 0;
        while i < found.len()
            invariant
                i <= found@.len(),
                self.wf(),
                icons == Seq::new(found@.len(), |i: int| (found@[i].name@, found@[i].path.deep_view())),
                self@ == with_icons(start, icons, i as int),
            decreases found@.len() - i,
        {
            let ghost before = self@;
            match self.find(found[i].name.as_str()) {
                Some(_) => {},
                None => {
                    self.buf.push(
                        IconEntry {
                            name: found[i].name.clone(),
                            path: duplicate_opt(&found[i].path),
                        },
                    );
                    assert(self@ =~= before.push(icons[i as int]));
                    assert forall|a: int, b: int| 0 <= a < b < self@.len() implies self@[a].0
                        != self@[b].0 by {
                        if b == before.len() {
                            assert(before[a].0 != icons[i as int].0);
                        }
                    }
                },
            }
            i += 1;
        }
    }

    /// Remembers what `name` resolved to, in place of what was known.
    pub fn insert(&mut self, name: &str, path: Option<String>)
        requires
            old(self).wf(),
        ensures
            final(self).wf(),
            final(self)@ == stored(old(self)@, name@, path.deep_view()),
            value_of(final(self)@, name@) == Some(path.deep_view()),
    {
        let ghost before = self@;
        proof {
            lemma_store_lookup(before, name@, path.deep_view());
        }
        match self.find(name) {
            Some(i) => {
                proof {
                    lemma_key_index(before, name@, i as int);
                }
                self.buf[i] = IconEntry { name: duplicate(name), path };
                assert(self@ =~= before.update(i as int, (name@, path.deep_view())));
            },
            None => {
                self.buf.push(IconEntry { name: duplicate(name), path });
                assert(self@ =~= before.push((name@, path.deep_view())));
            },
        }
    }

    /// What the theme knows of the icon `name`: nothing, that it resolves
    /// to no file, or the path of its file.
    pub fn lookup_icon(&self, name: &str) -> (known: Option<Option<String>>)
        requires
            self.wf(),
        ensures
            known.deep_view() == value_of(self@, name@),
    {
        match self.find(name) {
            Some(i) => {
                proof {
                    lemma_key_index(self@, name@, i as int);
                }
                Some(duplicate_opt(&self.buf[i].path))
            },
            None => None,
        }
    }
}

/// The place of the icon theme in the application's context: empty until
/// the theme is set up.
#[derive(Debug)]
pub struct IconThemeGuard {
    theme: Option<CustomIconTheme>,
}

impl IconThemeGuard {
    /// The theme, once it is set up.
    pub closed spec fn theme(&self) -> Option<CustomIconTheme> {
        self.theme
    }

    /// The guard's invariant: a theme that is set up is well formed.
    pub open spec fn wf(&self) -> bool {
        self.theme() is Some ==> self.theme()->0.wf()
    }

    /// A guard without a theme.
    pub fn new() -> (guard: Self)
        ensures
            guard.theme() is None,
            guard.wf(),
    {
        IconThemeGuard { theme: None }
    }

    /// Sets the theme up.
    pub fn set(&mut self, theme: CustomIconTheme)
        requires
            theme.wf(),
        ensures
            final(self).theme() == Some(theme),
            final(self).wf(),
    {
        self.theme = Some(theme);
    }

    fn not_initialized() -> (e: SherlockError)
        ensures
            e.error@ == ErrorKind::ConfigError(None),
    {
        SherlockError::new(SherlockErrorType::ConfigError(None), "Config not initialized")
    }

    /// Adds the icons found below one directory to the theme. Fails where
    /// the theme is not set up.
    pub fn add_path(&mut self, found: &Vec<IconEntry>) -> (done: Result<(), SherlockError>)
        requires
            old(self).wf(),
        ensures
            final(self).wf(),
            match old(self).theme() {
                Some(before) => {
                    &&& done is Ok
                    &&& final(self).theme() is Some
                    &&& final(self).theme()->0@ == with_icons(
                        before@,
                        Seq::new(
                            found@.len(),
                            |i: int| (found@[i].name@, found@[i].path.deep_view()),
                        ),
                        found@.len() as int,
                    )
                },
                None => {
                    &&& done is Err
                    &&& done->Err_0.error@ == ErrorKind::ConfigError(None)
                    &&& final(self).theme() is None
                },
            },
    {
        match &mut self.theme {
            Some(theme) => {
                theme.add_path(found);
                Ok(())
            },
            None => Err(IconThemeGuard::not_initialized()),
        }
    }

    /// Remembers what `name` resolved to, in place of what the theme knew
    /// of it. Fails where the theme is not set up.
    pub fn insert(&mut self, name: &str, path: Option<String>) -> (done: Result<(), SherlockError>)
        requires
            old(self).wf(),
        ensures
            final(self).wf(),
            match old(self).theme() {
                Some(before) => {
                    &&& done is Ok
                    &&& final(self).theme() is Some
                    &&& final(self).theme()->0@ == stored(before@, name@, path.deep_view())
                    &&& value_of(final(self).theme()->0@, name@) == Some(path.deep_view())
                },
                None => {
                    &&& done is Err
                    &&& done->Err_0.error@ == ErrorKind::ConfigError(None)
                    &&& final(self).theme() is None
                },
            },
    {
        match &mut self.theme {
            Some(theme) => {
                theme.insert(name, path);
                Ok(())
            },
            None => Err(IconThemeGuard::not_initialized()),
        }
    }

    /// What the theme knows of the icon `name`. Fails where the theme is
    /// not set up.
    pub fn lookup_icon(&self, name: &str) -> (known: Result<Option<Option<String>>, SherlockError>)
        requires
            self.wf(),
        ensures
            match self.theme() {
                Some(theme) => known is Ok && known->Ok_0.deep_view() == value_of(theme@, name@),
                None => known is Err && known->Err_0.error@ == ErrorKind::ConfigError(None),
            },
    {
        match &self.theme {
            Some(theme) => Ok(theme.lookup_icon(name)),
            None => Err(IconThemeGuard::not_initialized()),
        }
    }
}

} // verus!
