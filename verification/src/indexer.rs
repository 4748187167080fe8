//! Indexing the applications and keeping the candidate cache fresh.
//!
//! A full scan reads every desktop entry; an incremental refresh keeps the
//! cached records whose files were not touched and reads the others.
//! Freshness is judged by modification times alone. A time is a number of
//! nanoseconds since the Unix epoch, `None` where the file system gave none.

use crate::appdata::{overlaid, AliasModel, AppData, AppModel, SherlockAlias};
use crate::cache::BinaryCache;
use crate::errors::{ErrorKind, SherlockError};
use crate::launcher::children::RenderableChild;
use crate::desktop_files::merged_files;
use crate::launcher::text_or_empty;
use crate::manifest::{
    is_trimmed, lemma_parsed_entry_keeps_file, lemma_plain_entry, parse_desktop_entry,
    parsed_entry, plain_entry, IgnoreList,
};
use crate::text::duplicate_opt;
use crate::usage::UsageTable;
use crate::table::{has_key, key_index, value_of};
use crate::text::str_eq;
use vstd::prelude::*;

verus! {

/// Access to the modification time of a file.
pub trait PathHelpers {
    /// The time of the last modification, if the file system tells it.
    fn modtime(&self) -> Option<u64>;
}

/// Whether a file that was modified at `modified` has changed since the
/// file it is compared to was modified at `compared`: it is strictly newer.
/// A time that is not known counts as a change.
pub open spec fn changed_since(modified: Option<u64>, compared: Option<u64>) -> bool {
    match (modified, compared) {
        (Some(t1), Some(t2)) => t1 > t2,
        _ => true,
    }
}

/// Decides from two modification times whether the first file has changed
/// since the second was written.
pub fn file_has_changed(modified: Option<u64>, compared: Option<u64>) -> (changed: bool)
    ensures
        changed == changed_since(modified, compared),
        modified is None || compared is None ==> changed,
        modified is Some && compared is Some ==> (changed <==> modified->0 > compared->0),
{
    match (modified, compared) {
        (Some(t1), Some(t2)) => t1 > t2,
        _ => true,
    }
}

/// How the candidates of the applications are obtained.
#[derive(Clone, Copy, Debug, PartialEq, Eq, Structural)]
pub enum LoadPlan {
    /// Scan every desktop entry now, then write the cache.
    FullScan,
    /// Return the cached records, then refresh the cache from the entries
    /// that are new or were edited.
    UseCache,
}

/// Whether `files` lists `path`.
pub open spec fn lists(files: Seq<Seq<char>>, path: Seq<char>) -> bool {
    exists|i: int| 0 <= i < files.len() && files[i] == path
}

/// The modification time recorded for the cached record `i`, `None` where
/// the list has no entry for it.
pub open spec fn time_at(modtimes: Seq<Option<u64>>, i: int) -> Option<u64> {
    if 0 <= i < modtimes.len() {
        modtimes[i]
    } else {
        None
    }
}

/// Whether a cached record is still good: its file is on disk and was last
/// modified strictly before the cache was written.
pub open spec fn still_fresh(
    app: AppModel,
    on_disk: Seq<Seq<char>>,
    modified: Option<u64>,
    last_changed: Option<u64>,
) -> bool {
    &&& app.desktop_file is Some
    &&& lists(on_disk, app.desktop_file->0)
    &&& modified is Some
    &&& last_changed is Some
    &&& modified->0 < last_changed->0
}

/// The records among the first `n` cached ones that are still good, in
/// their order.
pub open spec fn kept_upto(
    cached: Seq<AppModel>,
    on_disk: Seq<Seq<char>>,
    modtimes: Seq<Option<u64>>,
    last_changed: Option<u64>,
    n: int,
) -> Seq<AppModel>
    decreases n,
{
    if n <= 0 {
        Seq::empty()
    } else {
        let before = kept_upto(cached, on_disk, modtimes, last_changed, n - 1);
        if still_fresh(cached[n - 1], on_disk, time_at(modtimes, n - 1), last_changed) {
            before.push(cached[n - 1])
        } else {
            before
        }
    }
}

/// Whether one of the records came from the file `path`.
pub open spec fn covers(kept: Seq<AppModel>, path: Seq<char>) -> bool {
    exists|i: int| 0 <= i < kept.len() && (#[trigger] kept[i]).desktop_file == Some(path)
}

/// The files among the first `n` on disk that no kept record came from, in
/// their order.
pub open spec fn uncovered_upto(on_disk: Seq<Seq<char>>, kept: Seq<AppModel>, n: int) -> Seq<
    Seq<char>,
>
    decreases n,
{
    if n <= 0 {
        Seq::empty()
    } else {
        let before = uncovered_upto(on_disk, kept, n - 1);
        if covers(kept, on_disk[n - 1]) {
            before
        } else {
            before.push(on_disk[n - 1])
        }
    }
}

/// What an incremental refresh keeps and what it has to read again.
#[derive(Debug)]
pub struct RefreshPlan {
    /// The cached records that are still good.
    pub kept: Vec<AppData>,
    /// The desktop entries to parse: those that are new or were edited.
    pub to_scan: Vec<String>,
}

/// Whether `files` lists `path`.
pub fn path_listed(files: &Vec<String>, path: &str) -> (listed: bool)
    ensures
        listed == lists(files.deep_view(), path@),
{
    let mut i: usize = 0;
    while i < files.len()
        invariant
            i <= files@.len(),
            forall|j: int| 0 <= j < i ==> files.deep_view()[j] != path@,
        decreases files@.len() - i,
    {
        assert(files.deep_view()[i as int] == files@[i as int]@);
        if str_eq(files[i].as_str(), path) {
            return true;
        }
        i += 1;
    }
    false
}

fn record_covers(kept: &Vec<AppData>, path: &str) -> (covered: bool)
    ensures
        covered == covers(kept.deep_view(), path@),
{
    let mut i: usize = 0;
    while i < kept.len()
        invariant
            i <= kept@.len(),
            forall|j: int| 0 <= j < i ==> (#[trigger] kept.deep_view()[j]).desktop_file != Some(path@),
        decreases kept@.len() - i,
    {
        assert(kept.deep_view()[i as int] == kept@[i as int]@);
        match &kept[i].desktop_file {
            Some(file) => {
                if str_eq(file.as_str(), path) {
                    return true;
                }
            },
            None => {},
        }
        i += 1;
    }
    false
}

/// The loader of the candidates.
pub struct Loader;

/// The identifier under which a use of a candidate is counted, if any.
pub open spec fn counted_of(child: RenderableChild) -> Option<Seq<char>> {
    match child {
        RenderableChild::AppLike { inner, launcher } => inner@.counted_as(launcher.launcher_type),
        _ => None,
    }
}

/// A desktop entry as it was read from disk.
#[derive(Debug)]
pub struct EntryFile {
    /// The path of the file.
    pub path: String,
    /// The lines of the file, `None` where it could not be read.
    pub lines: Option<Vec<String>>,
}

/// The mathematical value of an [`EntryFile`].
pub struct EntryFileModel {
    pub path: Seq<char>,
    pub lines: Option<Seq<Seq<char>>>,
}

impl View for EntryFile {
    type V = EntryFileModel;

    open spec fn view(&self) -> EntryFileModel {
        EntryFileModel { path: self.path@, lines: self.lines.deep_view() }
    }
}

impl DeepView for EntryFile {
    type V = EntryFileModel;

    open spec fn deep_view(&self) -> EntryFileModel {
        self@
    }
}

/// A user's alias for the records with the name `name`.
#[derive(Debug)]
pub struct AliasEntry {
    /// The name, as their desktop entries give it, of the records that
    /// the alias is for.
    pub name: String,
    /// The override.
    pub alias: SherlockAlias,
    /// What the icon name of the alias resolved to.
    pub resolved_icon: Option<String>,
}

/// The mathematical value of an [`AliasEntry`].
pub struct AliasEntryModel {
    pub name: Seq<char>,
    pub alias: AliasModel,
    pub resolved_icon: Option<Seq<char>>,
}

impl View for AliasEntry {
    type V = AliasEntryModel;

    open spec fn view(&self) -> AliasEntryModel {
        AliasEntryModel {
            name: self.name@,
            alias: self.alias@,
            resolved_icon: self.resolved_icon.deep_view(),
        }
    }
}

impl DeepView for AliasEntry {
    type V = AliasEntryModel;

    open spec fn deep_view(&self) -> AliasEntryModel {
        self@
    }
}

/// The index of the first alias from `from` on that is for `name`, or
/// `-1`.
pub open spec fn alias_index(aliases: Seq<AliasEntryModel>, name: Seq<char>, from: int) -> int
    decreases aliases.len() - from,
{
    if from < 0 || from >= aliases.len() {
        -1
    } else if aliases[from].name == name {
        from
    } else {
        alias_index(aliases, name, from + 1)
    }
}

/// A record that a scan produced, with the usage count of its command.
#[derive(Debug)]
pub struct Scanned {
    /// The record; its priority is still to be set.
    pub data: AppData,
    /// How often the command of the record was used.
    pub usage: u32,
}

/// The mathematical value of a [`Scanned`].
pub struct ScannedModel {
    pub data: AppModel,
    pub usage: u32,
}

impl View for Scanned {
    type V = ScannedModel;

    open spec fn view(&self) -> ScannedModel {
        ScannedModel { data: self.data@, usage: self.usage }
    }
}

impl DeepView for Scanned {
    type V = ScannedModel;

    open spec fn deep_view(&self) -> ScannedModel {
        self@
    }
}

/// The usage count of a command: the stored count, zero where there is no
/// command or no count for it.
pub open spec fn usage_count(counts: Seq<(Seq<char>, u32)>, command: Option<Seq<char>>) -> u32 {
    match command {
        Some(c) => match value_of(counts, c) {
            Some(n) => n,
            None => 0u32,
        },
        None => 0u32,
    }
}

/// What the scan of one desktop entry yields: nothing where the file could
/// not be read or the entry is dropped; else the record that its lines
/// describe, overlaid with the alias for its name, and the usage count of
/// its command.
pub open spec fn scanned_entry(
    file: EntryFileModel,
    ignore: IgnoreList,
    aliases: Seq<AliasEntryModel>,
    display_name: Option<Seq<char>>,
    use_keywords: bool,
    counts: Seq<(Seq<char>, u32)>,
) -> Option<ScannedModel> {
    match file.lines {
        None => None,
        Some(lines) => match parsed_entry(lines, file.path, ignore) {
            None => None,
            Some(parsed) => {
                let at = alias_index(aliases, text_or_empty(parsed.name), 0);
                let data = if at >= 0 {
                    overlaid(
                        parsed,
                        display_name,
                        Some(aliases[at].alias),
                        aliases[at].resolved_icon,
                        use_keywords,
                    )
                } else {
                    overlaid(parsed, display_name, None, None, use_keywords)
                };
                Some(ScannedModel { data, usage: usage_count(counts, data.command) })
            },
        },
    }
}

/// What the scan of the first `n` files yields, in their order.
pub open spec fn scanned_upto(
    files: Seq<EntryFileModel>,
    ignore: IgnoreList,
    aliases: Seq<AliasEntryModel>,
    display_name: Option<Seq<char>>,
    use_keywords: bool,
    counts: Seq<(Seq<char>, u32)>,
    n: int,
) -> Seq<ScannedModel>
    decreases n,
{
    if n <= 0 {
        Seq::empty()
    } else {
        let before = scanned_upto(files, ignore, aliases, display_name, use_keywords, counts, n - 1);
        match scanned_entry(files[n - 1], ignore, aliases, display_name, use_keywords, counts) {
            Some(s) => before.push(s),
            None => before,
        }
    }
}

fn find_alias(aliases: &Vec<AliasEntry>, name: &str) -> (found: Option<usize>)
    ensures
        match found {
            Some(i) => i < aliases@.len() && i == alias_index(aliases.deep_view(), name@, 0),
            None => alias_index(aliases.deep_view(), name@, 0) == -1,
        },
{
    let mut i: usize = 0;
    while i < aliases.len()
        invariant
            i <= aliases@.len(),
            alias_index(aliases.deep_view(), name@, 0) == alias_index(
                aliases.deep_view(),
                name@,
                i as int,
            ),
        decreases aliases@.len() - i,
    {
        assert(aliases.deep_view()[i as int] == aliases@[i as int]@);
        if str_eq(aliases[i].name.as_str(), name) {
            return Some(i);
        }
        i += 1;
    }
    None
}

fn duplicate_alias(alias: &SherlockAlias) -> (copy: SherlockAlias)
    ensures
        copy@ == alias@,
{
    SherlockAlias {
        name: duplicate_opt(&alias.name),
        icon: duplicate_opt(&alias.icon),
        command: duplicate_opt(&alias.command),
        keywords: duplicate_opt(&alias.keywords),
        actions: match &alias.actions {
            Some(a) => Some(crate::appdata::duplicate_actions(a)),
            None => None,
        },
        add_actions: match &alias.add_actions {
            Some(a) => Some(crate::appdata::duplicate_actions(a)),
            None => None,
        },
        variables: match &alias.variables {
            Some(v) => Some(crate::appdata::duplicate_vars(v)),
            None => None,
        },
    }
}

/// What became of reading a file of the user's configuration.
#[derive(Debug)]
pub enum FileOutcome {
    /// The file was read; holds its lines.
    Read(Vec<String>),
    /// There is no such file.
    NotFound,
    /// The file could not be read; holds the reason.
    Failed(String),
}

impl Loader {
    /// The lines of a file of the user's configuration that need not
    /// exist: those of the file, none where there is no file. Any other
    /// failure to read the file at `path` is an error.
    pub fn optional_lines(path: &str, outcome: FileOutcome) -> (lines: Result<
        Vec<String>,
        SherlockError,
    >)
        ensures
            match outcome {
                FileOutcome::Read(read) => lines is Ok && lines->Ok_0 == read,
                FileOutcome::NotFound => lines is Ok && lines->Ok_0@.len() == 0,
                FileOutcome::Failed(reason) => lines is Err && lines->Err_0.error@
                    == ErrorKind::FileReadError(path@) && lines->Err_0.traceback@ == reason@,
            },
    {
        match outcome {
            FileOutcome::Read(read) => Ok(read),
            FileOutcome::NotFound => Ok(Vec::new()),
            FileOutcome::Failed(reason) => Err(BinaryCache::read_error(path, reason.as_str())),
        }
    }

    /// The usage counts of the commands of cached records, in the order of
    /// the records.
    pub fn cached_usage(apps: &Vec<AppData>, counts: &UsageTable) -> (usage: Vec<u32>)
        requires
            counts.wf(),
        ensures
            usage@.len() == apps@.len(),
            forall|i: int|
                0 <= i < apps@.len() ==> usage@[i] == usage_count(counts@, apps@[i]@.command),
    {
        let mut usage: Vec<u32> = Vec::new();
        let mut i: usize = 0;
        while i < apps.len()
            invariant
                i <= apps@.len(),
                counts.wf(),
                usage@.len() == i,
                forall|j: int| 0 <= j < i ==> usage@[j] == usage_count(counts@, apps@[j]@.command),
            decreases apps@.len() - i,
        {
            let command: Option<&str> = match &apps[i].command {
                Some(c) => Some(c.as_str()),
                None => None,
            };
            usage.push(counts.usage_of(command));
            i += 1;
        }
        usage
    }

    /// The table of a first run: a count of zero for the identifier of
    /// every candidate that is counted, and for nothing else.
    pub fn initial_counts(renders: &Vec<RenderableChild>) -> (table: UsageTable)
        ensures
            table.wf(),
            forall|key: Seq<char>|
                has_key(table@, key) <==> exists|i: int|
                    0 <= i < renders@.len() && #[trigger] counted_of(renders@[i]) == Some(key),
            forall|key: Seq<char>| has_key(table@, key) ==> value_of(table@, key) == Some(0u32),
    {
        let mut table = UsageTable::new();
        let mut i: usize = 0;
        assert forall|key: Seq<char>| !has_key(table@, key) by {}
        while i < renders.len()
            invariant
                i <= renders@.len(),
                table.wf(),
                forall|key: Seq<char>|
                    has_key(table@, key) <==> exists|j: int|
                        0 <= j < i && #[trigger] counted_of(renders@[j]) == Some(key),
                forall|key: Seq<char>| has_key(table@, key) ==> value_of(table@, key) == Some(0u32),
            decreases renders@.len() - i,
        {
            let ghost before = table@;
            match renders[i].get_exec() {
                Some(key) => {
                    table.set(key.as_str(), 0);
                    proof {
                        assert(counted_of(renders@[i as int]) == Some(key@));
                        assert forall|other: Seq<char>|
                            has_key(table@, other) <==> exists|j: int|
                                0 <= j < i + 1 && #[trigger] counted_of(renders@[j]) == Some(
                                    other,
                                ) by {
                            if other != key@ {
                                assert(value_of(table@, other) == value_of(before, other));
                                if has_key(before, other) {
                                    let j = choose|j: int|
                                        0 <= j < i && #[trigger] counted_of(renders@[j]) == Some(
                                            other,
                                        );
                                    assert(counted_of(renders@[j]) == Some(other));
                                }
                                if exists|j: int|
                                    0 <= j < i + 1 && #[trigger] counted_of(renders@[j]) == Some(
                                        other,
                                    ) {
                                    let j = choose|j: int|
                                        0 <= j < i + 1 && #[trigger] counted_of(renders@[j])
                                            == Some(other);
                                    assert(j < i);
                                }
                            } else {
                                assert(value_of(table@, key@) == Some(0u32));
                            }
                        }
                        assert forall|other: Seq<char>| has_key(table@, other) implies value_of(
                            table@,
                            other,
                        ) == Some(0u32) by {
                            if other != key@ {
                                assert(value_of(table@, other) == value_of(before, other));
                            }
                        }
                    }
                },
                None => {
                    proof {
                        assert(counted_of(renders@[i as int]) is None);
                        assert forall|other: Seq<char>|
                            has_key(table@, other) <==> exists|j: int|
                                0 <= j < i + 1 && #[trigger] counted_of(renders@[j]) == Some(
                                    other,
                                ) by {
                            if has_key(before, other) {
                                let j = choose|j: int|
                                    0 <= j < i && #[trigger] counted_of(renders@[j]) == Some(other);
                                assert(counted_of(renders@[j]) == Some(other));
                            }
                            if exists|j: int|
                                0 <= j < i + 1 && #[trigger] counted_of(renders@[j]) == Some(other) {
                                let j = choose|j: int|
                                    0 <= j < i + 1 && #[trigger] counted_of(renders@[j]) == Some(
                                        other,
                                    );
                                assert(j < i);
                            }
                        }
                    }
                },
            }
            i += 1;
        }
        table
    }

    /// Scans one desktop entry.
    pub fn scan_entry(
        file: &EntryFile,
        ignore: &IgnoreList,
        aliases: &Vec<AliasEntry>,
        display_name: Option<&str>,
        use_keywords: bool,
        counts: &UsageTable,
    ) -> (scanned: Option<Scanned>)
        requires
            counts.wf(),
        ensures
            scanned.deep_view() == scanned_entry(
                file@,
                *ignore,
                aliases.deep_view(),
                display_name.deep_view(),
                use_keywords,
                counts@,
            ),
    {
        let lines = match &file.lines {
            Some(lines) => lines,
            None => {
                return None;
            },
        };
        let mut data = match parse_desktop_entry(lines, file.path.as_str(), ignore) {
            Some(data) => data,
            None => {
                return None;
            },
        };
        let found = {
            let name: &str = match &data.name {
                Some(n) => n.as_str(),
                None => {
                    proof {
                        reveal_strlit("");
                    }
                    assert(""@ =~= Seq::<char>::empty());
                    ""
                },
            };
            find_alias(aliases, name)
        };
        match found {
            Some(at) => {
                assert(aliases.deep_view()[at as int] == aliases@[at as int]@);
                data.apply_alias(
                    display_name,
                    Some(duplicate_alias(&aliases[at].alias)),
                    duplicate_opt(&aliases[at].resolved_icon),
                    use_keywords,
                );
            },
            None => {
                data.apply_alias(display_name, None, None, use_keywords);
            },
        }
        let usage = {
            let command: Option<&str> = match &data.command {
                Some(c) => Some(c.as_str()),
                None => None,
            };
            counts.usage_of(command)
        };
        Some(Scanned { data, usage })
    }

    /// Scans desktop entries: reads each from its lines, drops those that
    /// are hidden or ignored, overlays the aliases and looks up the usage
    /// counts. The records come in the order of their files.
    pub fn load_applications_from_disk(
        files: &Vec<EntryFile>,
        ignore: &IgnoreList,
        aliases: &Vec<AliasEntry>,
        display_name: Option<&str>,
        use_keywords: bool,
        counts: &UsageTable,
    ) -> (apps: Vec<Scanned>)
        requires
            counts.wf(),
        ensures
            apps.deep_view() == scanned_upto(
                files.deep_view(),
                *ignore,
                aliases.deep_view(),
                display_name.deep_view(),
                use_keywords,
                counts@,
                files@.len() as int,
            ),
    {
        let mut apps: Vec<Scanned> = Vec::new();
        let mut i: usize = 0;
        assert(apps.deep_view() =~= Seq::<ScannedModel>::empty());
        while i < files.len()
            invariant
                i <= files@.len(),
                counts.wf(),
                apps.deep_view() == scanned_upto(
                    files.deep_view(),
                    *ignore,
                    aliases.deep_view(),
                    display_name.deep_view(),
                    use_keywords,
                    counts@,
                    i as int,
                ),
            decreases files@.len() - i,
        {
            assert(files.deep_view()[i as int] == files@[i as int]@);
            match Loader::scan_entry(&files[i], ignore, aliases, display_name, use_keywords, counts) {
                Some(scanned) => {
                    let ghost before = apps.deep_view();
                    let ghost added = scanned@;
                    apps.push(scanned);
                    assert(apps.deep_view() =~= before.push(added));
                },
                None => {},
            }
            i += 1;
        }
        apps
    }

    /// Decides how to load the applications: from the cache, unless the
    /// alias file, the ignore file or the configuration changed since the
    /// cache was written. The arguments are the modification times of the
    /// cache and of the three files.
    pub fn load_applications(
        cache: Option<u64>,
        alias: Option<u64>,
        ignore: Option<u64>,
        config: Option<u64>,
    ) -> (plan: LoadPlan)
        ensures
            plan == if changed_since(alias, cache) || changed_since(ignore, cache)
                || changed_since(config, cache) {
                LoadPlan::FullScan
            } else {
                LoadPlan::UseCache
            },
            cache is None ==> plan == LoadPlan::FullScan,
    {
        if file_has_changed(alias, cache) || file_has_changed(ignore, cache) || file_has_changed(
            config,
            cache,
        ) {
            LoadPlan::FullScan
        } else {
            LoadPlan::UseCache
        }
    }

    /// Plans an incremental refresh of the cache.
    ///
    /// `cached` are the records of the cache, `on_disk` the desktop entries
    /// that exist now, `modtimes[i]` the modification time of the file that
    /// `cached[i]` came from, and `last_changed` the time at which the cache
    /// was written. A record is kept where its file still exists and was
    /// modified strictly before the cache was written; every file from which
    /// no kept record came is to be read again.
    pub fn get_new_applications(
        cached: Vec<AppData>,
        on_disk: &Vec<String>,
        modtimes: &Vec<Option<u64>>,
        last_changed: Option<u64>,
    ) -> (plan: RefreshPlan)
        ensures
            plan.kept.deep_view() == kept_upto(
                cached.deep_view(),
                on_disk.deep_view(),
                modtimes@,
                last_changed,
                cached@.len() as int,
            ),
            plan.to_scan.deep_view() == uncovered_upto(
                on_disk.deep_view(),
                plan.kept.deep_view(),
                on_disk@.len() as int,
            ),
    {
        let mut kept: Vec<AppData> = Vec::new();
        let mut i: usize = 0;
        assert(kept.deep_view() =~= Seq::<AppModel>::empty());
        while i < cached.len()
            invariant
                i <= cached@.len(),
                kept.deep_view() == kept_upto(
                    cached.deep_view(),
                    on_disk.deep_view(),
                    modtimes@,
                    last_changed,
                    i as int,
                ),
            decreases cached@.len() - i,
        {
            let modified: Option<u64> = if i < modtimes.len() {
                modtimes[i]
            } else {
                None
            };
            assert(cached.deep_view()[i as int] == cached@[i as int]@);
            let fresh = match (&cached[i].desktop_file, modified, last_changed) {
                (Some(path), Some(m), Some(l)) => m < l && path_listed(on_disk, path.as_str()),
                _ => false,
            };
            if fresh {
                let ghost prev = kept.deep_view();
                kept.push(cached[i].clone());
                assert(kept.deep_view() =~= prev.push(cached@[i as int]@));
            }
            i += 1;
        }
        let mut to_scan: Vec<String> = Vec::new();
        let mut k: usize = 0;
        assert(to_scan.deep_view() =~= Seq::<Seq<char>>::empty());
        while k < on_disk.len()
            invariant
                k <= on_disk@.len(),
                to_scan.deep_view() == uncovered_upto(on_disk.deep_view(), kept.deep_view(), k as int),
            decreases on_disk@.len() - k,
        {
            assert(on_disk.deep_view()[k as int] == on_disk@[k as int]@);
            if !record_covers(&kept, on_disk[k].as_str()) {
                let ghost prev = to_scan.deep_view();
                to_scan.push(on_disk[k].clone());
                assert(to_scan.deep_view() =~= prev.push(on_disk@[k as int]@));
            }
            k += 1;
        }
        RefreshPlan { kept, to_scan }
    }
}

/// A record that the scan of a file yields names that file as the file it
/// came from, whatever alias was laid over it.
pub proof fn lemma_scanned_entry_keeps_file(
    file: EntryFileModel,
    ignore: IgnoreList,
    aliases: Seq<AliasEntryModel>,
    display_name: Option<Seq<char>>,
    use_keywords: bool,
    counts: Seq<(Seq<char>, u32)>,
)
    ensures
        match scanned_entry(file, ignore, aliases, display_name, use_keywords, counts) {
            Some(scanned) => scanned.data.desktop_file == Some(file.path) && file.lines is Some,
            None => true,
        },
{
    if file.lines is Some {
        lemma_parsed_entry_keeps_file(file.lines->0, file.path, ignore);
    }
}

/// The values among the first `n` items that are there, in order.
pub open spec fn yielded_upto<T>(items: Seq<Option<T>>, n: int) -> Seq<T>
    decreases n,
{
    if n <= 0 {
        Seq::empty()
    } else {
        match items[n - 1] {
            Some(value) => yielded_upto(items, n - 1).push(value),
            None => yielded_upto(items, n - 1),
        }
    }
}

/// The place among the first `n` items of the item that yielded the value
/// at `k`.
pub open spec fn source_of<T>(items: Seq<Option<T>>, n: int, k: int) -> int
    decreases n,
{
    if n <= 0 {
        -1
    } else if items[n - 1] is Some && k == yielded_upto(items, n - 1).len() {
        n - 1
    } else {
        source_of(items, n - 1, k)
    }
}

/// Each yielded value is the value of its source, the sources come in the
/// order of the values, and every item that is there is the source of a
/// value.
pub proof fn lemma_yielded<T>(items: Seq<Option<T>>, n: int)
    requires
        0 <= n <= items.len(),
    ensures
        yielded_upto(items, n).len() <= n,
        forall|k: int|
            0 <= k < yielded_upto(items, n).len() ==> 0 <= #[trigger] source_of(items, n, k) < n
                && items[source_of(items, n, k)] == Some(yielded_upto(items, n)[k]),
        forall|a: int, b: int|
            0 <= a < b < yielded_upto(items, n).len() ==> #[trigger] source_of(items, n, a)
                < #[trigger] source_of(items, n, b),
        forall|i: int|
            0 <= i < n && (#[trigger] items[i]) is Some ==> exists|k: int|
                0 <= k < yielded_upto(items, n).len() && #[trigger] source_of(items, n, k) == i,
    decreases n,
{
    if n > 0 {
        lemma_yielded(items, n - 1);
        let before = yielded_upto(items, n - 1);
        let after = yielded_upto(items, n);
        assert forall|k: int| 0 <= k < after.len() implies 0 <= #[trigger] source_of(items, n, k) < n
            && items[source_of(items, n, k)] == Some(after[k]) by {
            if k < before.len() {
                assert(source_of(items, n, k) == source_of(items, n - 1, k));
            }
        }
        assert forall|a: int, b: int| 0 <= a < b < after.len() implies #[trigger] source_of(
            items,
            n,
            a,
        ) < #[trigger] source_of(items, n, b) by {
            assert(source_of(items, n, a) == source_of(items, n - 1, a));
            if b < before.len() {
                assert(source_of(items, n, b) == source_of(items, n - 1, b));
            }
        }
        assert forall|i: int| 0 <= i < n && (#[trigger] items[i]) is Some implies exists|k: int|
            0 <= k < after.len() && #[trigger] source_of(items, n, k) == i by {
            if i < n - 1 {
                let m = n - 1;
                let k = choose|k: int| 0 <= k < before.len() && #[trigger] source_of(items, m, k) == i;
                assert(source_of(items, n, k) == i);
            } else {
                assert(source_of(items, n, before.len() as int) == i);
            }
        }
    }
}

/// What the scan of each file yields.
pub open spec fn scan_results(
    files: Seq<EntryFileModel>,
    ignore: IgnoreList,
    aliases: Seq<AliasEntryModel>,
    display_name: Option<Seq<char>>,
    use_keywords: bool,
    counts: Seq<(Seq<char>, u32)>,
) -> Seq<Option<ScannedModel>> {
    files.map_values(
        |file: EntryFileModel|
            scanned_entry(file, ignore, aliases, display_name, use_keywords, counts),
    )
}

/// The records of a scan are what the scans of the files yield, in the
/// order of the files.
pub proof fn lemma_scan_is_yielded(
    files: Seq<EntryFileModel>,
    ignore: IgnoreList,
    aliases: Seq<AliasEntryModel>,
    display_name: Option<Seq<char>>,
    use_keywords: bool,
    counts: Seq<(Seq<char>, u32)>,
    n: int,
)
    requires
        0 <= n <= files.len(),
    ensures
        scanned_upto(files, ignore, aliases, display_name, use_keywords, counts, n) == yielded_upto(
            scan_results(files, ignore, aliases, display_name, use_keywords, counts),
            n,
        ),
    decreases n,
{
    if n > 0 {
        lemma_scan_is_yielded(files, ignore, aliases, display_name, use_keywords, counts, n - 1);
    }
}

/// Every record of a scan is what the scan of one file yields, and names
/// that file as the file it came from; the records come in the order of
/// their files, so that no file has two of them; and every file whose scan
/// yields a record has that record in the scan.
///
/// The file of the record at `k` is the file at
/// `source_of(scan_results(..), files.len(), k)`.
pub proof fn lemma_scan_keeps_files(
    files: Seq<EntryFileModel>,
    ignore: IgnoreList,
    aliases: Seq<AliasEntryModel>,
    display_name: Option<Seq<char>>,
    use_keywords: bool,
    counts: Seq<(Seq<char>, u32)>,
)
    ensures
        ({
            let n = files.len() as int;
            let results = scan_results(files, ignore, aliases, display_name, use_keywords, counts);
            let scan = scanned_upto(files, ignore, aliases, display_name, use_keywords, counts, n);
            &&& scan.len() <= n
            &&& forall|k: int|
                0 <= k < scan.len() ==> {
                    let i = #[trigger] source_of(results, n, k);
                    &&& 0 <= i < n
                    &&& results[i] == Some(scan[k])
                    &&& scan[k].data.desktop_file == Some(files[i].path)
                }
            &&& forall|a: int, b: int|
                0 <= a < b < scan.len() ==> #[trigger] source_of(results, n, a)
                    < #[trigger] source_of(results, n, b)
            &&& forall|i: int|
                0 <= i < n && (#[trigger] results[i]) is Some ==> exists|k: int|
                    0 <= k < scan.len() && #[trigger] source_of(results, n, k) == i
        }),
{
    let n = files.len() as int;
    let results = scan_results(files, ignore, aliases, display_name, use_keywords, counts);
    let scan = scanned_upto(files, ignore, aliases, display_name, use_keywords, counts, n);
    lemma_scan_is_yielded(files, ignore, aliases, display_name, use_keywords, counts, n);
    lemma_yielded(results, n);
    assert forall|k: int| 0 <= k < scan.len() implies {
        let i = #[trigger] source_of(results, n, k);
        &&& 0 <= i < n
        &&& results[i] == Some(scan[k])
        &&& scan[k].data.desktop_file == Some(files[i].path)
    } by {
        let i = source_of(results, n, k);
        lemma_scanned_entry_keeps_file(
            files[i],
            ignore,
            aliases,
            display_name,
            use_keywords,
            counts,
        );
    }
}

/// A scan of the merged desktop entries yields at most one record for each
/// stem, and the record of a stem that the local directory holds comes
/// from the local file.
///
/// `files` are the files at the merged paths, in their order. The record
/// at `k` then comes from the merged entry at
/// `source_of(scan_results(..), files.len(), k)`.
pub proof fn lemma_scan_of_merged_files(
    system: Seq<(Seq<char>, Seq<char>)>,
    local: Seq<(Seq<char>, Seq<char>)>,
    files: Seq<EntryFileModel>,
    ignore: IgnoreList,
    aliases: Seq<AliasEntryModel>,
    display_name: Option<Seq<char>>,
    use_keywords: bool,
    counts: Seq<(Seq<char>, u32)>,
)
    requires
        files.len() == merged_files(system, local).len(),
        forall|i: int| 0 <= i < files.len() ==> (#[trigger] files[i]).path == merged_files(system, local)[i].1,
    ensures
        ({
            let n = files.len() as int;
            let merged = merged_files(system, local);
            let results = scan_results(files, ignore, aliases, display_name, use_keywords, counts);
            let scan = scanned_upto(files, ignore, aliases, display_name, use_keywords, counts, n);
            &&& forall|k: int|
                0 <= k < scan.len() ==> {
                    let i = #[trigger] source_of(results, n, k);
                    0 <= i < n && scan[k].data.desktop_file == Some(merged[i].1)
                }
            &&& forall|a: int, b: int|
                0 <= a < b < scan.len() ==> merged[#[trigger] source_of(results, n, a)].0
                    != merged[#[trigger] source_of(results, n, b)].0
            &&& forall|k: int, l: int|
                0 <= k < scan.len() && 0 <= l < local.len() && (forall|j: int|
                    l < j < local.len() ==> (#[trigger] local[j]).0 != local[l].0) && merged[#[trigger] source_of(
                    results,
                    n,
                    k,
                )].0 == (#[trigger] local[l]).0 ==> scan[k].data.desktop_file == Some(local[l].1)
        }),
{
    let n = files.len() as int;
    let merged = merged_files(system, local);
    let results = scan_results(files, ignore, aliases, display_name, use_keywords, counts);
    let scan = scanned_upto(files, ignore, aliases, display_name, use_keywords, counts, n);
    lemma_scan_keeps_files(files, ignore, aliases, display_name, use_keywords, counts);
    let all = system + local;
    crate::table::lemma_entered(all, all.len() as int);
    assert forall|k: int| 0 <= k < scan.len() implies {
        let i = #[trigger] source_of(results, n, k);
        0 <= i < n && scan[k].data.desktop_file == Some(merged[i].1)
    } by {
        let i = source_of(results, n, k);
        assert(files[i].path == merged[i].1);
    }
    assert forall|k: int, l: int|
        0 <= k < scan.len() && 0 <= l < local.len() && (forall|j: int|
            l < j < local.len() ==> (#[trigger] local[j]).0 != local[l].0) && merged[#[trigger] source_of(
            results,
            n,
            k,
        )].0 == (#[trigger] local[l]).0 implies scan[k].data.desktop_file == Some(local[l].1) by {
        let i = source_of(results, n, k);
        crate::desktop_files::lemma_local_wins(system, local, l);
        crate::table::lemma_key_index(merged, local[l].0, i);
        assert(files[i].path == merged[i].1);
    }
}

/// The scan of a file whose entry says its name and its command and
/// nothing else yields the record with that name and that command, where
/// the name is neither ignored nor has an alias.
pub proof fn lemma_scan_of_plain_entry(
    file: EntryFileModel,
    name: Seq<char>,
    command: Seq<char>,
    ignore: IgnoreList,
    aliases: Seq<AliasEntryModel>,
    display_name: Option<Seq<char>>,
    use_keywords: bool,
    counts: Seq<(Seq<char>, u32)>,
)
    requires
        file.lines == Some(plain_entry(name, command)),
        is_trimmed(name),
        is_trimmed(command),
        !ignore.ignores(name),
        alias_index(aliases, name, 0) < 0,
    ensures
        ({
            let found = scanned_entry(file, ignore, aliases, display_name, use_keywords, counts);
            &&& found is Some
            &&& found->0.data.name == Some(name)
            &&& found->0.data.command == Some(command)
            &&& found->0.data.desktop_file == Some(file.path)
            &&& found->0.usage == usage_count(counts, Some(command))
        }),
{
    lemma_plain_entry(name, command, file.path, ignore);
}

/// Where the local directory holds an entry that says its name and its
/// command and nothing else, the scan of the merged desktop entries yields
/// one record for the stem of that entry: the record with that name and
/// that command, from the local file, whatever the system directories
/// hold under the same stem.
///
/// `files` are the files at the merged paths, in their order, and `at` is
/// the place of the entry in the local directory, the last of its stem
/// there.
pub proof fn lemma_local_entry_wins(
    system: Seq<(Seq<char>, Seq<char>)>,
    local: Seq<(Seq<char>, Seq<char>)>,
    files: Seq<EntryFileModel>,
    at: int,
    name: Seq<char>,
    command: Seq<char>,
    ignore: IgnoreList,
    aliases: Seq<AliasEntryModel>,
    display_name: Option<Seq<char>>,
    use_keywords: bool,
    counts: Seq<(Seq<char>, u32)>,
)
    requires
        files.len() == merged_files(system, local).len(),
        forall|i: int| 0 <= i < files.len() ==> (#[trigger] files[i]).path == merged_files(system, local)[i].1,
        0 <= at < local.len(),
        forall|j: int| at < j < local.len() ==> (#[trigger] local[j]).0 != local[at].0,
        forall|i: int|
            0 <= i < files.len() && (#[trigger] files[i]).path == local[at].1 ==> files[i].lines == Some(
                plain_entry(name, command),
            ),
        is_trimmed(name),
        is_trimmed(command),
        !ignore.ignores(name),
        alias_index(aliases, name, 0) < 0,
    ensures
        ({
            let n = files.len() as int;
            let merged = merged_files(system, local);
            let results = scan_results(files, ignore, aliases, display_name, use_keywords, counts);
            let scan = scanned_upto(files, ignore, aliases, display_name, use_keywords, counts, n);
            &&& exists|k: int|
                0 <= k < scan.len() && merged[#[trigger] source_of(results, n, k)].0 == local[at].0
            &&& forall|k: int|
                0 <= k < scan.len() && merged[#[trigger] source_of(results, n, k)].0 == local[at].0 ==> {
                    &&& scan[k].data.name == Some(name)
                    &&& scan[k].data.command == Some(command)
                    &&& scan[k].data.desktop_file == Some(local[at].1)
                }
        }),
{
    let n = files.len() as int;
    let merged = merged_files(system, local);
    let results = scan_results(files, ignore, aliases, display_name, use_keywords, counts);
    let scan = scanned_upto(files, ignore, aliases, display_name, use_keywords, counts, n);
    lemma_scan_keeps_files(files, ignore, aliases, display_name, use_keywords, counts);
    crate::desktop_files::lemma_local_wins(system, local, at);
    let stem = local[at].0;
    let place = key_index(merged, stem);
    assert(0 <= place < n && merged[place].0 == stem && merged[place].1 == local[at].1);
    assert(files[place].path == local[at].1);
    lemma_scan_of_plain_entry(
        files[place],
        name,
        command,
        ignore,
        aliases,
        display_name,
        use_keywords,
        counts,
    );
    assert(results[place] is Some);
    let k0 = choose|k: int| 0 <= k < scan.len() && #[trigger] source_of(results, n, k) == place;
    assert(0 <= k0 < scan.len() && merged[source_of(results, n, k0)].0 == stem);
    assert forall|k: int|
        0 <= k < scan.len() && merged[#[trigger] source_of(results, n, k)].0 == stem implies {
        &&& scan[k].data.name == Some(name)
        &&& scan[k].data.command == Some(command)
        &&& scan[k].data.desktop_file == Some(local[at].1)
    } by {
        let i = source_of(results, n, k);
        crate::table::lemma_key_index(merged, stem, i);
        assert(i == place);
        assert(results[place] == Some(scan[k]));
    }
}

/// Every kept record was cached, is still fresh, and its file is not read
/// again; every file on disk is either covered by a kept record or read
/// again.
pub proof fn lemma_refresh_plan(
    cached: Seq<AppModel>,
    on_disk: Seq<Seq<char>>,
    modtimes: Seq<Option<u64>>,
    last_changed: Option<u64>,
)
    ensures
        ({
            let kept = kept_upto(cached, on_disk, modtimes, last_changed, cached.len() as int);
            let to_scan = uncovered_upto(on_disk, kept, on_disk.len() as int);
            &&& forall|k: int|
                0 <= k < kept.len() ==> (#[trigger] kept[k]).desktop_file is Some && lists(
                    on_disk,
                    kept[k].desktop_file->0,
                ) && !lists(to_scan, kept[k].desktop_file->0)
            &&& forall|i: int|
                0 <= i < on_disk.len() ==> (covers(kept, #[trigger] on_disk[i]) != lists(
                    to_scan,
                    on_disk[i],
                ))
            &&& last_changed is None ==> kept.len() == 0
        }),
{
    let kept = kept_upto(cached, on_disk, modtimes, last_changed, cached.len() as int);
    let to_scan = uncovered_upto(on_disk, kept, on_disk.len() as int);
    lemma_kept_are_fresh(cached, on_disk, modtimes, last_changed, cached.len() as int);
    lemma_uncovered(on_disk, kept, on_disk.len() as int);
    assert forall|k: int| 0 <= k < kept.len() implies !lists(
        to_scan,
        (#[trigger] kept[k]).desktop_file->0,
    ) by {
        if lists(to_scan, kept[k].desktop_file->0) {
            let j = choose|j: int| 0 <= j < to_scan.len() && to_scan[j] == kept[k].desktop_file->0;
            assert(!covers(kept, to_scan[j]));
        }
    }
    assert forall|i: int| 0 <= i < on_disk.len() implies (covers(kept, #[trigger] on_disk[i])
        != lists(to_scan, on_disk[i])) by {
        if lists(to_scan, on_disk[i]) {
            let j = choose|j: int| 0 <= j < to_scan.len() && to_scan[j] == on_disk[i];
            assert(!covers(kept, to_scan[j]));
        }
    }
}

proof fn lemma_kept_are_fresh(
    cached: Seq<AppModel>,
    on_disk: Seq<Seq<char>>,
    modtimes: Seq<Option<u64>>,
    last_changed: Option<u64>,
    n: int,
)
    requires
        0 <= n <= cached.len(),
    ensures
        ({
            let kept = kept_upto(cached, on_disk, modtimes, last_changed, n);
            &&& forall|k: int|
                0 <= k < kept.len() ==> (#[trigger] kept[k]).desktop_file is Some && lists(
                    on_disk,
                    kept[k].desktop_file->0,
                )
            &&& last_changed is None ==> kept.len() == 0
        }),
    decreases n,
{
    if n > 0 {
        lemma_kept_are_fresh(cached, on_disk, modtimes, last_changed, n - 1);
    }
}

proof fn lemma_uncovered(on_disk: Seq<Seq<char>>, kept: Seq<AppModel>, n: int)
    requires
        0 <= n <= on_disk.len(),
    ensures
        ({
            let rest = uncovered_upto(on_disk, kept, n);
            &&& forall|j: int| 0 <= j < rest.len() ==> !covers(kept, #[trigger] rest[j])
            &&& forall|i: int|
                0 <= i < n && !covers(kept, on_disk[i]) ==> lists(rest, #[trigger] on_disk[i])
        }),
    decreases n,
{
    if n > 0 {
        lemma_uncovered(on_disk, kept, n - 1);
        let before = uncovered_upto(on_disk, kept, n - 1);
        let rest = uncovered_upto(on_disk, kept, n);
        assert forall|i: int| 0 <= i < n && !covers(kept, on_disk[i]) implies lists(
            rest,
            #[trigger] on_disk[i],
        ) by {
            if i < n - 1 {
                let j = choose|j: int| 0 <= j < before.len() && before[j] == on_disk[i];
                assert(rest[j] == on_disk[i]);
            } else {
                assert(rest[rest.len() - 1] == on_disk[i]);
            }
        }
    }
}

} // verus!
