//! Bookmarks of the browsers.

use crate::appdata::{construct_search, search_key, AppData, AppModel};
use crate::errors::{ErrorKind, SherlockError, SherlockErrorType};
use crate::launcher::BookmarkLauncher;
use crate::paths::{join_path, joined};
use crate::priority::Priority;
use crate::text::{duplicate, duplicate_opt, str_eq, unicode_lower};
use vstd::prelude::*;
use vstd::string::StringExecFns;

verus! {

/// The browsers whose bookmarks can be read.
#[derive(Clone, Copy, Debug, PartialEq, Eq, Structural)]
pub enum Browser {
    Zen,
    Brave,
    Firefox,
    Chrome,
    Thorium,
}

/// The browser that a name or a command stands for, in lowercase.
pub open spec fn browser_named(lowered: Seq<char>) -> Option<Browser> {
    if lowered == "zen"@ || lowered == "zen-browser"@ || lowered == "/opt/zen-browser-bin/zen-bin %u"@ {
        Some(Browser::Zen)
    } else if lowered == "brave"@ || lowered == "brave %u"@ {
        Some(Browser::Brave)
    } else if lowered == "firefox"@ || lowered == "/usr/lib/firefox/firefox %u"@ {
        Some(Browser::Firefox)
    } else if lowered == "chrome"@ || lowered == "google-chrome"@ || lowered
        == "/usr/bin/google-chrome-stable %u"@ {
        Some(Browser::Chrome)
    } else if lowered == "thorium"@ || lowered == "/usr/bin/thorium-browser %u"@ {
        Some(Browser::Thorium)
    } else {
        None
    }
}

/// The record of one bookmark.
pub open spec fn bookmark_model(
    title: Seq<char>,
    url: Seq<char>,
    icon: Option<Seq<char>>,
    priority: Priority,
) -> AppModel {
    AppModel {
        name: Some(title),
        command: Some(url),
        search_string: search_key(Some(title), url, true),
        priority: Some(priority),
        icon,
        desktop_file: None,
        actions: Seq::empty(),
        vars: Seq::empty(),
        terminal: false,
    }
}

impl Browser {
    /// The file below the home directory that holds the bookmarks of a
    /// browser that keeps them in one file; `None` for a browser that
    /// keeps them in a database of a profile directory.
    pub fn bookmark_file(&self, home: &str) -> (path: Option<String>)
        ensures
            path.deep_view() == match self {
                Browser::Brave => Some(
                    joined(home@, ".config/BraveSoftware/Brave-Browser/Default/Bookmarks"@),
                ),
                Browser::Thorium => Some(joined(home@, ".config/thorium/Default/Bookmarks"@)),
                Browser::Chrome => Some(joined(home@, ".config/google-chrome/Default/Bookmarks"@)),
                _ => None,
            },
    {
        match self {
            Browser::Brave => Some(
                join_path(home, ".config/BraveSoftware/Brave-Browser/Default/Bookmarks"),
            ),
            Browser::Thorium => Some(join_path(home, ".config/thorium/Default/Bookmarks")),
            Browser::Chrome => Some(join_path(home, ".config/google-chrome/Default/Bookmarks")),
            _ => None,
        }
    }

    /// The directory below the home directory that holds the profiles of
    /// a browser that keeps its bookmarks in a database, with the prefix
    /// of its cache files; `None` for any other browser.
    pub fn profiles_dir(&self, home: &str) -> (found: Option<Profiles>)
        ensures
            match self {
                Browser::Zen => found is Some && found->0.dir@ == joined(home@, ".zen"@)
                    && found->0.prefix@ == "zen"@,
                Browser::Firefox => found is Some && found->0.dir@ == joined(
                    home@,
                    ".mozilla/firefox/"@,
                ) && found->0.prefix@ == "firefox"@,
                _ => found is None,
            },
    {
        match self {
            Browser::Zen => Some(Profiles { dir: join_path(home, ".zen"), prefix: duplicate("zen") }),
            Browser::Firefox => Some(
                Profiles { dir: join_path(home, ".mozilla/firefox/"), prefix: duplicate("firefox") },
            ),
            _ => None,
        }
    }
}

/// Where a browser keeps its profiles, and the prefix of the cache files
/// made for it.
#[derive(Debug)]
pub struct Profiles {
    pub dir: String,
    pub prefix: String,
}

impl BookmarkLauncher {
    /// Tells which browser's bookmarks to read. The name is taken in any
    /// case of letters. A browser that is not known is an error.
    pub fn find_bookmarks(browser: &str) -> (kind: Result<Browser, SherlockError>)
        ensures
            match browser_named(unicode_lower(browser@)) {
                Some(b) => kind == Ok::<Browser, SherlockError>(b),
                None => kind is Err && kind->Err_0.error@ == ErrorKind::UnsupportedBrowser(browser@),
            },
    {
        let lowered = browser.to_lowercase();
        let name = lowered.as_str();
        if str_eq(name, "zen") || str_eq(name, "zen-browser") || str_eq(
            name,
            "/opt/zen-browser-bin/zen-bin %u",
        ) {
            Ok(Browser::Zen)
        } else if str_eq(name, "brave") || str_eq(name, "brave %u") {
            Ok(Browser::Brave)
        } else if str_eq(name, "firefox") || str_eq(name, "/usr/lib/firefox/firefox %u") {
            Ok(Browser::Firefox)
        } else if str_eq(name, "chrome") || str_eq(name, "google-chrome") || str_eq(
            name,
            "/usr/bin/google-chrome-stable %u",
        ) {
            Ok(Browser::Chrome)
        } else if str_eq(name, "thorium") || str_eq(name, "/usr/bin/thorium-browser %u") {
            Ok(Browser::Thorium)
        } else {
            let mut message = duplicate("The browser \"<i>");
            message.append(browser);
            message.append("</i>\" is either not supported or not recognized.");
            Err(
                SherlockError::new(
                    SherlockErrorType::UnsupportedBrowser(duplicate(browser)),
                    message.as_str(),
                ),
            )
        }
    }

    /// The record of one bookmark: named by its title, found by title and
    /// address, and opening the address.
    pub fn bookmark(title: &str, url: &str, icon: &Option<String>, priority: Priority) -> (record:
        AppData)
        ensures
            record@ == bookmark_model(title@, url@, icon.deep_view(), priority),
    {
        let record = AppData {
            name: Some(duplicate(title)),
            command: Some(duplicate(url)),
            search_string: construct_search(Some(title), url, true),
            priority: Some(priority),
            icon: duplicate_opt(icon),
            desktop_file: None,
            actions: Vec::new(),
            vars: Vec::new(),
            terminal: false,
        };
        assert(record.actions.deep_view() =~= Seq::empty());
        assert(record.vars.deep_view() =~= Seq::empty());
        record
    }
}

/// The copy of a browser's bookmark database in the cache directory.
pub struct MozillaSqliteParser {
    pub path: String,
}

impl MozillaSqliteParser {
    /// The place of the copy in the cache directory, for the browser with
    /// the prefix `prefix`.
    pub open spec fn copy_path(cache_dir: Seq<char>, prefix: Seq<char>) -> Seq<char> {
        joined(cache_dir, "bookmarks/"@ + prefix + "-places.sqlite"@)
    }

    /// The place of the bookmark cache in the cache directory.
    pub open spec fn cache_path(cache_dir: Seq<char>, prefix: Seq<char>) -> Seq<char> {
        joined(cache_dir, "bookmarks/"@ + prefix + "-cache.bin"@)
    }

    /// The parser of the database `file`. It reads from a copy in the
    /// cache directory, or from the file itself where there is no cache
    /// directory.
    pub fn new(file: &str, cache_dir: Option<&str>, prefix: &str) -> (parser: Self)
        ensures
            parser.path@ == match cache_dir {
                Some(dir) => Self::copy_path(dir@, prefix@),
                None => file@,
            },
    {
        match cache_dir {
            Some(dir) => {
                let mut rel = duplicate("bookmarks/");
                rel.append(prefix);
                rel.append("-places.sqlite");
                MozillaSqliteParser { path: join_path(dir, rel.as_str()) }
            },
            None => MozillaSqliteParser { path: duplicate(file) },
        }
    }

    /// The place of the cache of the records of this browser.
    pub fn cache_file(cache_dir: &str, prefix: &str) -> (path: String)
        ensures
            path@ == Self::cache_path(cache_dir@, prefix@),
    {
        let mut rel = duplicate("bookmarks/");
        rel.append(prefix);
        rel.append("-cache.bin");
        join_path(cache_dir, rel.as_str())
    }

    /// Whether the copy of the database is to be made again: there is no
    /// copy, the source is strictly newer than the copy, or a modification
    /// time is not known.
    pub fn should_update_cache(dest_exists: bool, source: Option<u64>, dest: Option<u64>) -> (update:
        bool)
        ensures
            update == (!dest_exists || match (source, dest) {
                (Some(s), Some(d)) => s > d,
                _ => true,
            }),
    {
        if !dest_exists {
            return true;
        }
        match (source, dest) {
            (Some(s), Some(d)) => s > d,
            _ => true,
        }
    }
}

/// A node of a browser's bookmark file: a folder with children, or an
/// address.
#[derive(Debug)]
pub struct ChromeBookmark {
    pub name: String,
    pub kind: String,
    pub children: Option<Vec<ChromeBookmark>>,
    pub url: Option<String>,
}

/// The mathematical value of a bookmark tree.
pub enum BookmarkTree {
    /// A folder, with its children in order.
    Folder(Seq<BookmarkTree>),
    /// An address with its title.
    Link(Seq<char>, Seq<char>),
    /// A node that holds nothing: a folder without children, an address
    /// without its address, or a node of another kind.
    Nothing,
}

/// The bookmarks of the first `n` trees, in order.
pub open spec fn links_of_all(trees: Seq<BookmarkTree>, n: int) -> Seq<(Seq<char>, Seq<char>)>
    decreases trees, n,
{
    if n <= 0 || n > trees.len() {
        Seq::empty()
    } else {
        links_of_all(trees, n - 1) + links_of(trees[n - 1])
    }
}

/// The bookmarks of a tree, in order: depth first.
pub open spec fn links_of(tree: BookmarkTree) -> Seq<(Seq<char>, Seq<char>)>
    decreases tree,
{
    match tree {
        BookmarkTree::Folder(children) => links_of_all(children, children.len() as int),
        BookmarkTree::Link(title, url) => seq![(title, url)],
        BookmarkTree::Nothing => Seq::empty(),
    }
}

impl ChromeBookmark {
    /// The tree that the node stands for. A node of the kind `folder`
    /// holds its children, one of the kind `url` its address.
    pub open spec fn tree(&self) -> BookmarkTree
        decreases self,
    {
        if self.kind@ == "folder"@ {
            match self.children {
                Some(children) => BookmarkTree::Folder(
                    Seq::new(
                        children@.len(),
                        |i: int|
                            if 0 <= i < children@.len() {
                                children@[i].tree()
                            } else {
                                BookmarkTree::Nothing
                            },
                    ),
                ),
                None => BookmarkTree::Nothing,
            }
        } else if self.kind@ == "url"@ {
            match self.url {
                Some(url) => BookmarkTree::Link(self.name@, url@),
                None => BookmarkTree::Nothing,
            }
        } else {
            BookmarkTree::Nothing
        }
    }
}

/// The records of a list of bookmarks.
pub open spec fn bookmark_models(
    links: Seq<(Seq<char>, Seq<char>)>,
    icon: Option<Seq<char>>,
    priority: Priority,
) -> Seq<AppModel> {
    links.map_values(|l: (Seq<char>, Seq<char>)| bookmark_model(l.0, l.1, icon, priority))
}

/// Appends to `bookmarks` the records of the bookmarks below `bookmark`,
/// depth first.
pub fn process_bookmark(
    bookmarks: &mut Vec<AppData>,
    bookmark: &ChromeBookmark,
    icon: &Option<String>,
    priority: Priority,
)
    ensures
        final(bookmarks).deep_view() == old(bookmarks).deep_view() + bookmark_models(
            links_of(bookmark.tree()),
            icon.deep_view(),
            priority,
        ),
    decreases bookmark,
{
    let ghost before = bookmarks.deep_view();
    if str_eq(bookmark.kind.as_str(), "folder") {
        match &bookmark.children {
            Some(children) => {
                let ghost trees = bookmark.tree()->Folder_0;
                let mut i: usize = 0;
                assert(links_of_all(trees, 0) =~= Seq::empty());
                assert(bookmarks.deep_view() =~= before + bookmark_models(
                    links_of_all(trees, 0),
                    icon.deep_view(),
                    priority,
                ));
                while i < children.len()
                    invariant
                        i <= children@.len(),
                        bookmark.children == Some(*children),
                        bookmark.kind@ == "folder"@,
                        trees == bookmark.tree()->Folder_0,
                        trees.len() == children@.len(),
                        bookmarks.deep_view() == before + bookmark_models(
                            links_of_all(trees, i as int),
                            icon.deep_view(),
                            priority,
                        ),
                    decreases children@.len() - i,
                {
                    let ghost sofar = bookmarks.deep_view();
                    process_bookmark(bookmarks, &children[i], icon, priority);
                    proof {
                        assert(trees[i as int] == children@[i as int].tree());
                        let a = links_of_all(trees, i as int);
                        let b = links_of(trees[i as int]);
                        assert(links_of_all(trees, i + 1) == a + b);
                        assert(bookmark_models(a + b, icon.deep_view(), priority) =~= bookmark_models(
                            a,
                            icon.deep_view(),
                            priority,
                        ) + bookmark_models(b, icon.deep_view(), priority));
                        assert(bookmarks.deep_view() =~= before + bookmark_models(
                            a + b,
                            icon.deep_view(),
                            priority,
                        ));
                    }
                    i += 1;
                }
            },
            None => {
                assert(bookmark_models(Seq::empty(), icon.deep_view(), priority) =~= Seq::empty());
                assert(bookmarks.deep_view() =~= before + Seq::<AppModel>::empty());
            },
        }
    } else if str_eq(bookmark.kind.as_str(), "url") {
        match &bookmark.url {
            Some(url) => {
                let record = BookmarkLauncher::bookmark(
                    bookmark.name.as_str(),
                    url.as_str(),
                    icon,
                    priority,
                );
                bookmarks.push(record);
                assert(bookmarks.deep_view() =~= before + bookmark_models(
                    seq![(bookmark.name@, url@)],
                    icon.deep_view(),
                    priority,
                ));
            },
            None => {
                assert(bookmark_models(Seq::empty(), icon.deep_view(), priority) =~= Seq::empty());
                assert(bookmarks.deep_view() =~= before + Seq::<AppModel>::empty());
            },
        }
    } else {
        assert(bookmark_models(Seq::empty(), icon.deep_view(), priority) =~= Seq::empty());
        assert(bookmarks.deep_view() =~= before + Seq::<AppModel>::empty());
    }
}

/// The records of all bookmarks in the trees of a bookmark file, the
/// trees taken in the given order.
pub fn parse_bookmarks(roots: &Vec<ChromeBookmark>, icon: &Option<String>, priority: Priority) -> (bookmarks:
    Vec<AppData>)
    ensures
        bookmarks.deep_view() == bookmark_models(
            links_of_all(
                Seq::new(roots@.len(), |i: int| roots@[i].tree()),
                roots@.len() as int,
            ),
            icon.deep_view(),
            priority,
        ),
{
    let ghost trees = Seq::new(roots@.len(), |i: int| roots@[i].tree());
    let mut bookmarks: Vec<AppData> = Vec::new();
    let mut i: usize = 0;
    assert(links_of_all(trees, 0) =~= Seq::empty());
    assert(bookmarks.deep_view() =~= bookmark_models(links_of_all(trees, 0), icon.deep_view(), priority));
    while i < roots.len()
        invariant
            i <= roots@.len(),
            trees == Seq::new(roots@.len(), |i: int| roots@[i].tree()),
            bookmarks.deep_view() == bookmark_models(
                links_of_all(trees, i as int),
                icon.deep_view(),
                priority,
            ),
        decreases roots@.len() - i,
    {
        process_bookmark(&mut bookmarks, &roots[i], icon, priority);
        proof {
            let a = links_of_all(trees, i as int);
            let b = links_of(trees[i as int]);
            assert(links_of_all(trees, i + 1) == a + b);
            assert(bookmark_models(a + b, icon.deep_view(), priority) =~= bookmark_models(
                a,
                icon.deep_view(),
                priority,
            ) + bookmark_models(b, icon.deep_view(), priority));
        }
        i += 1;
    }
    bookmarks
}

} // verus!
