//! The binary cache.
//!
//! A cache file holds one value in a fixed-width binary encoding. A file
//! that does not decode is no error: it counts as a cache that was never
//! written, and is removed so that it is not tried again.

use crate::appdata::{
    ActionModel, AppData, AppModel, ApplicationAction, ExecVariable, VariableModel,
};
use crate::codec::{
    enc_bool, enc_opt_text, enc_opt_u32, enc_seq, enc_text, enc_u32, fits, lemma_bool_unique,
    lemma_opt_text_unique, lemma_opt_u32_unique, lemma_prefix_and_rest, lemma_seq_unique,
    lemma_text_unique, lemma_u32_unique, opt_text_fits, tells_apart, text_fits,
};
use crate::errors::{ErrorKind, SherlockError, SherlockErrorType};
use crate::priority::Priority;
use crate::text::{duplicate, duplicate_opt};
use vstd::prelude::*;

verus! {

/// What reading a cache gave.
#[derive(Debug)]
pub struct CacheRead<T> {
    /// The value of the cache.
    pub value: T,
    /// The file did not decode and is to be removed.
    pub remove_file: bool,
}

/// The binary cache of a value.
pub struct BinaryCache;

impl BinaryCache {
    /// The error of a cache file that could not be read.
    pub fn read_error(path: &str, reason: &str) -> (e: SherlockError)
        ensures
            e.error@ == crate::errors::ErrorKind::FileReadError(path@),
            e.traceback@ == reason@,
    {
        SherlockError::new(SherlockErrorType::FileReadError(duplicate(path)), reason)
    }

    /// The error of a cache file that could not be written.
    pub fn write_error(path: &str, reason: &str) -> (e: SherlockError)
        ensures
            e.error@ == crate::errors::ErrorKind::FileWriteError(path@),
            e.traceback@ == reason@,
    {
        SherlockError::new(SherlockErrorType::FileWriteError(duplicate(path)), reason)
    }

    /// The error of a value that could not be encoded.
    pub fn serialization_error(reason: &str) -> (e: SherlockError)
        ensures
            e.error@ == crate::errors::ErrorKind::SerializationError,
            e.traceback@ == reason@,
    {
        SherlockError::new(SherlockErrorType::SerializationError, reason)
    }

    /// What a read returns once the bytes of the file were decoded:
    /// the decoded value, or, where they did not decode, `fallback` and
    /// the order to remove the file.
    pub fn recover<T>(decoded: Option<T>, fallback: T) -> (read: CacheRead<T>)
        ensures
            read.value == match decoded {
                Some(v) => v,
                None => fallback,
            },
            read.remove_file == (decoded is None),
    {
        match decoded {
            Some(value) => CacheRead { value, remove_file: false },
            None => CacheRead { value: fallback, remove_file: true },
        }
    }

    /// What a read returns for the outcome of reading the file and of
    /// decoding its bytes: the error of the read where the file could not
    /// be read, else what [`BinaryCache::recover`] gives.
    pub fn read<T>(path: &str, unreadable: Option<&str>, decoded: Option<T>, fallback: T) -> (read:
        Result<CacheRead<T>, SherlockError>)
        ensures
            match unreadable {
                Some(reason) => read is Err && read->Err_0.error@
                    == crate::errors::ErrorKind::FileReadError(path@) && read->Err_0.traceback@
                    == reason@,
                None => read is Ok && read->Ok_0.value == match decoded {
                    Some(v) => v,
                    None => fallback,
                } && read->Ok_0.remove_file == (decoded is None),
            },
    {
        match unreadable {
            Some(reason) => Err(BinaryCache::read_error(path, reason)),
            None => Ok(BinaryCache::recover(decoded, fallback)),
        }
    }
}

/// An action as the cache holds it: name, command, icon, method, exit.
pub type ActionTuple = (Option<String>, Option<String>, Option<String>, String, bool);

/// An input variable as the cache holds it: 0 for a plain input, 1 for a
/// masked one, and the placeholder.
pub type VariableTuple = (u32, String);

/// A record as the cache holds it: name, command, search key, priority
/// pattern, icon, file, actions, variables, terminal.
pub type AppTuple = (
    Option<String>,
    Option<String>,
    String,
    Option<u32>,
    Option<String>,
    Option<String>,
    Vec<ActionTuple>,
    Vec<VariableTuple>,
    bool,
);

/// The mathematical value of an [`ActionTuple`].
pub type ActionFields = (Option<Seq<char>>, Option<Seq<char>>, Option<Seq<char>>, Seq<char>, bool);

/// The mathematical value of an [`AppTuple`].
pub type AppFields = (
    Option<Seq<char>>,
    Option<Seq<char>>,
    Seq<char>,
    Option<u32>,
    Option<Seq<char>>,
    Option<Seq<char>>,
    Seq<ActionFields>,
    Seq<(u32, Seq<char>)>,
    bool,
);

/// The fields of an action.
pub open spec fn action_fields(a: ActionModel) -> ActionFields {
    (a.name, a.command, a.icon, a.method, a.exit)
}

/// The action with the given fields.
pub open spec fn fields_action(f: ActionFields) -> ActionModel {
    ActionModel { name: f.0, command: f.1, icon: f.2, method: f.3, exit: f.4 }
}

/// The fields of an input variable.
pub open spec fn variable_fields(v: VariableModel) -> (u32, Seq<char>) {
    match v {
        VariableModel::StringInput(s) => (0u32, s),
        VariableModel::PasswordInput(s) => (1u32, s),
    }
}

/// The input variable with the given fields, where there is one.
pub open spec fn fields_variable(f: (u32, Seq<char>)) -> Option<VariableModel> {
    if f.0 == 0 {
        Some(VariableModel::StringInput(f.1))
    } else if f.0 == 1 {
        Some(VariableModel::PasswordInput(f.1))
    } else {
        None
    }
}

/// The pattern of an optional priority.
pub open spec fn priority_bits(p: Option<Priority>) -> Option<u32> {
    match p {
        Some(p) => Some(p.bits),
        None => None,
    }
}

/// The fields of a record.
pub open spec fn app_fields(m: AppModel) -> AppFields {
    (
        m.name,
        m.command,
        m.search_string,
        priority_bits(m.priority),
        m.icon,
        m.desktop_file,
        m.actions.map_values(|a: ActionModel| action_fields(a)),
        m.vars.map_values(|v: VariableModel| variable_fields(v)),
        m.terminal,
    )
}

/// Whether each of the fields stands for an input variable.
pub open spec fn all_variables(fields: Seq<(u32, Seq<char>)>) -> bool {
    forall|i: int| 0 <= i < fields.len() ==> (#[trigger] fields[i]).0 <= 1
}

/// The record with the given fields, where there is one: each of its
/// variables must be of a known kind.
pub open spec fn fields_app(f: AppFields) -> Option<AppModel> {
    if all_variables(f.7) {
        Some(
            AppModel {
                name: f.0,
                command: f.1,
                search_string: f.2,
                priority: match f.3 {
                    Some(bits) => Some(Priority { bits }),
                    None => None,
                },
                icon: f.4,
                desktop_file: f.5,
                actions: f.6.map_values(|a: ActionFields| fields_action(a)),
                vars: f.7.map_values(|v: (u32, Seq<char>)| fields_variable(v)->0),
                terminal: f.8,
            },
        )
    } else {
        None
    }
}

/// Whether each of the first `n` lists of fields stands for a record.
pub open spec fn all_apps(fields: Seq<AppFields>) -> bool {
    forall|i: int| 0 <= i < fields.len() ==> fields_app(#[trigger] fields[i]) is Some
}

/// The records with the given fields, where each list of fields stands for
/// a record.
pub open spec fn fields_apps(fields: Seq<AppFields>) -> Option<Seq<AppModel>> {
    if all_apps(fields) {
        Some(fields.map_values(|f: AppFields| fields_app(f)->0))
    } else {
        None
    }
}

/// A record is read back from its fields as it was.
pub proof fn lemma_fields_round_trip(m: AppModel)
    ensures
        fields_app(app_fields(m)) == Some(m),
{
    let f = app_fields(m);
    assert(all_variables(f.7));
    let back = fields_app(f)->0;
    assert(back.actions =~= m.actions);
    assert(back.vars =~= m.vars) by {
        assert forall|i: int| 0 <= i < m.vars.len() implies back.vars[i] == m.vars[i] by {
            assert(f.7[i] == variable_fields(m.vars[i]));
        }
    }
    assert(back.priority == m.priority);
}

/// A list of records is read back from its fields as it was.
pub proof fn lemma_cache_round_trip(apps: Seq<AppModel>)
    ensures
        fields_apps(apps.map_values(|m: AppModel| app_fields(m))) == Some(apps),
{
    let fields = apps.map_values(|m: AppModel| app_fields(m));
    assert forall|i: int| 0 <= i < fields.len() implies fields_app(#[trigger] fields[i]) == Some(
        apps[i],
    ) by {
        lemma_fields_round_trip(apps[i]);
    }
    assert(fields_apps(fields)->0 =~= apps);
}

/// The bytes of an action: its name, command, icon and method, and
/// whether it exits.
pub open spec fn enc_action(a: ActionFields) -> Seq<u8> {
    enc_opt_text(a.0) + enc_opt_text(a.1) + enc_opt_text(a.2) + enc_text(a.3) + enc_bool(a.4)
}

/// How an action is written.
pub open spec fn action_encoder() -> spec_fn(ActionFields) -> Seq<u8> {
    |a: ActionFields| enc_action(a)
}

/// Which actions can be written: those whose texts fit.
pub open spec fn action_fits() -> spec_fn(ActionFields) -> bool {
    |a: ActionFields| opt_text_fits(a.0) && opt_text_fits(a.1) && opt_text_fits(a.2) && text_fits(a.3)
}

/// The bytes of an input variable: its kind as a number of 32 bits, then
/// its placeholder.
pub open spec fn enc_variable(v: (u32, Seq<char>)) -> Seq<u8> {
    enc_u32(v.0) + enc_text(v.1)
}

/// How an input variable is written.
pub open spec fn variable_encoder() -> spec_fn((u32, Seq<char>)) -> Seq<u8> {
    |v: (u32, Seq<char>)| enc_variable(v)
}

/// Which input variables can be written: those whose placeholder fits.
pub open spec fn variable_fits() -> spec_fn((u32, Seq<char>)) -> bool {
    |v: (u32, Seq<char>)| text_fits(v.1)
}

/// The bytes of a record: its fields in their order.
pub open spec fn enc_app(f: AppFields) -> Seq<u8> {
    enc_opt_text(f.0) + enc_opt_text(f.1) + enc_text(f.2) + enc_opt_u32(f.3) + enc_opt_text(f.4)
        + enc_opt_text(f.5) + enc_seq(f.6, action_encoder()) + enc_seq(f.7, variable_encoder())
        + enc_bool(f.8)
}

/// How a record is written.
pub open spec fn app_encoder() -> spec_fn(AppFields) -> Seq<u8> {
    |f: AppFields| enc_app(f)
}

/// Whether a record can be written: its texts and lists fit.
pub open spec fn app_fits(f: AppFields) -> bool {
    &&& opt_text_fits(f.0)
    &&& opt_text_fits(f.1)
    &&& text_fits(f.2)
    &&& opt_text_fits(f.4)
    &&& opt_text_fits(f.5)
    &&& fits(f.6.len())
    &&& forall|i: int| 0 <= i < f.6.len() ==> action_fits()(#[trigger] f.6[i])
    &&& fits(f.7.len())
    &&& forall|i: int| 0 <= i < f.7.len() ==> variable_fits()(#[trigger] f.7[i])
}

/// Which records can be written.
pub open spec fn app_ok() -> spec_fn(AppFields) -> bool {
    |f: AppFields| app_fits(f)
}

/// Whether a list of records can be written.
pub open spec fn apps_fit(v: Seq<AppFields>) -> bool {
    fits(v.len()) && forall|i: int| 0 <= i < v.len() ==> app_fits(#[trigger] v[i])
}

/// The bytes of a list of records: the number of records, then each.
pub open spec fn apps_bytes(v: Seq<AppFields>) -> Seq<u8> {
    enc_seq(v, app_encoder())
}

/// Whether the bytes begin with the list of records `v`.
pub open spec fn holds_apps(bytes: Seq<u8>, v: Seq<AppFields>) -> bool {
    apps_fit(v) && apps_bytes(v).is_prefix_of(bytes)
}

/// The list of records that the bytes begin with, `None` where they begin
/// with none.
#[verifier::opaque]
pub open spec fn held_apps(bytes: Seq<u8>) -> Option<Seq<AppFields>> {
    if exists|v: Seq<AppFields>| holds_apps(bytes, v) {
        Some(choose|v: Seq<AppFields>| holds_apps(bytes, v))
    } else {
        None
    }
}

/// Bytes put together one after the other can be read as the first of
/// them and the rest.
proof fn lemma_first_and_rest(parts: Seq<Seq<u8>>, x: Seq<u8>)
    requires
        parts.len() > 0,
    ensures
        joined_bytes(parts) + x == parts[0] + (joined_bytes(parts.drop_first()) + x),
{
    assert(joined_bytes(parts) + x =~= parts[0] + (joined_bytes(parts.drop_first()) + x));
}

/// The parts one after the other.
pub open spec fn joined_bytes(parts: Seq<Seq<u8>>) -> Seq<u8>
    decreases parts.len(),
{
    if parts.len() == 0 {
        Seq::empty()
    } else {
        parts[0] + joined_bytes(parts.drop_first())
    }
}

/// The parts of the bytes of an action.
pub open spec fn action_parts(a: ActionFields) -> Seq<Seq<u8>> {
    seq![enc_opt_text(a.0), enc_opt_text(a.1), enc_opt_text(a.2), enc_text(a.3), enc_bool(a.4)]
}

/// The parts of the bytes of a record.
pub open spec fn app_parts(f: AppFields) -> Seq<Seq<u8>> {
    seq![
        enc_opt_text(f.0),
        enc_opt_text(f.1),
        enc_text(f.2),
        enc_opt_u32(f.3),
        enc_opt_text(f.4),
        enc_opt_text(f.5),
        enc_seq(f.6, action_encoder()),
        enc_seq(f.7, variable_encoder()),
        enc_bool(f.8),
    ]
}

/// The bytes of parts from an index on, followed by `x`.
pub open spec fn rest_from(parts: Seq<Seq<u8>>, from: int, x: Seq<u8>) -> Seq<u8> {
    joined_bytes(parts.skip(from)) + x
}

proof fn lemma_rest_step(parts: Seq<Seq<u8>>, from: int, x: Seq<u8>)
    requires
        0 <= from < parts.len(),
    ensures
        rest_from(parts, from, x) == parts[from] + rest_from(parts, from + 1, x),
{
    let tail = parts.skip(from);
    assert(tail[0] == parts[from]);
    assert(tail.drop_first() =~= parts.skip(from + 1));
    lemma_first_and_rest(tail, x);
}

proof fn lemma_rest_end(parts: Seq<Seq<u8>>, x: Seq<u8>)
    ensures
        rest_from(parts, parts.len() as int, x) == x,
{
    assert(parts.skip(parts.len() as int) =~= Seq::<Seq<u8>>::empty());
    assert(joined_bytes(Seq::<Seq<u8>>::empty()) + x =~= x);
}

proof fn lemma_join_last(parts: Seq<Seq<u8>>)
    requires
        parts.len() > 0,
    ensures
        joined_bytes(parts) == joined_bytes(parts.drop_last()) + parts.last(),
    decreases parts.len(),
{
    if parts.len() == 1 {
        assert(parts.drop_last() =~= Seq::<Seq<u8>>::empty());
        assert(parts.drop_first() =~= Seq::<Seq<u8>>::empty());
        assert(joined_bytes(parts.drop_first()) =~= Seq::<u8>::empty());
        assert(joined_bytes(parts) =~= parts[0]);
        assert(joined_bytes(parts.drop_last()) + parts.last() =~= parts[0]);
    } else {
        lemma_join_last(parts.drop_first());
        assert(parts.drop_first().drop_last() =~= parts.drop_last().drop_first());
        assert(parts.drop_last()[0] == parts[0]);
        assert(joined_bytes(parts) =~= joined_bytes(parts.drop_last()) + parts.last());
    }
}

proof fn lemma_action_is_its_parts(a: ActionFields)
    ensures
        enc_action(a) == joined_bytes(action_parts(a)),
{
    let upto4 = action_parts(a);
    let upto3 = upto4.drop_last();
    let upto2 = upto3.drop_last();
    let upto1 = upto2.drop_last();
    let upto0 = upto1.drop_last();
    lemma_join_last(upto4);
    lemma_join_last(upto3);
    lemma_join_last(upto2);
    lemma_join_last(upto1);
    lemma_join_last(upto0);
    assert(upto0.drop_last() =~= Seq::<Seq<u8>>::empty());
    assert(joined_bytes(upto0.drop_last()) =~= Seq::<u8>::empty());
    assert(joined_bytes(upto0) =~= upto4[0]);
}

proof fn lemma_app_is_its_parts(f: AppFields)
    ensures
        enc_app(f) == joined_bytes(app_parts(f)),
{
    let upto8 = app_parts(f);
    let upto7 = upto8.drop_last();
    let upto6 = upto7.drop_last();
    let upto5 = upto6.drop_last();
    let upto4 = upto5.drop_last();
    let upto3 = upto4.drop_last();
    let upto2 = upto3.drop_last();
    let upto1 = upto2.drop_last();
    let upto0 = upto1.drop_last();
    lemma_join_last(upto8);
    lemma_join_last(upto7);
    lemma_join_last(upto6);
    lemma_join_last(upto5);
    lemma_join_last(upto4);
    lemma_join_last(upto3);
    lemma_join_last(upto2);
    lemma_join_last(upto1);
    lemma_join_last(upto0);
    assert(upto0.drop_last() =~= Seq::<Seq<u8>>::empty());
    assert(joined_bytes(upto0.drop_last()) =~= Seq::<u8>::empty());
    assert(joined_bytes(upto0) =~= upto8[0]);
}

/// An action tells itself apart from what follows.
pub proof fn lemma_action_fields_unique(p: ActionFields, q: ActionFields, x: Seq<u8>, y: Seq<u8>)
    requires
        action_fits()(p),
        action_fits()(q),
        enc_action(p) + x == enc_action(q) + y,
    ensures
        p == q,
        x == y,
{
    let pp = action_parts(p);
    let qq = action_parts(q);
    lemma_action_is_its_parts(p);
    lemma_action_is_its_parts(q);
    assert(pp.skip(0) =~= pp);
    assert(qq.skip(0) =~= qq);
    lemma_rest_step(pp, 0, x);
    lemma_rest_step(qq, 0, y);
    lemma_opt_text_unique(p.0, q.0, rest_from(pp, 1, x), rest_from(qq, 1, y));
    lemma_rest_step(pp, 1, x);
    lemma_rest_step(qq, 1, y);
    lemma_opt_text_unique(p.1, q.1, rest_from(pp, 2, x), rest_from(qq, 2, y));
    lemma_rest_step(pp, 2, x);
    lemma_rest_step(qq, 2, y);
    lemma_opt_text_unique(p.2, q.2, rest_from(pp, 3, x), rest_from(qq, 3, y));
    lemma_rest_step(pp, 3, x);
    lemma_rest_step(qq, 3, y);
    lemma_text_unique(p.3, q.3, rest_from(pp, 4, x), rest_from(qq, 4, y));
    lemma_rest_step(pp, 4, x);
    lemma_rest_step(qq, 4, y);
    lemma_rest_end(pp, x);
    lemma_rest_end(qq, y);
    lemma_bool_unique(p.4, q.4, x, y);
}

/// An action tells itself apart from what follows.
pub proof fn lemma_action_unique()
    ensures
        tells_apart(action_encoder(), action_fits()),
{
    reveal(tells_apart);
    assert forall|p: ActionFields, q: ActionFields, x: Seq<u8>, y: Seq<u8>|
        action_fits()(p) && action_fits()(q) && #[trigger] (action_encoder()(p) + x)
            == #[trigger] (action_encoder()(q) + y) implies p == q && x == y by {
        lemma_action_fields_unique(p, q, x, y);
    }
}

/// An input variable tells itself apart from what follows.
pub proof fn lemma_variable_fields_unique(
    p: (u32, Seq<char>),
    q: (u32, Seq<char>),
    x: Seq<u8>,
    y: Seq<u8>,
)
    requires
        variable_fits()(p),
        variable_fits()(q),
        enc_variable(p) + x == enc_variable(q) + y,
    ensures
        p == q,
        x == y,
{
    assert(enc_variable(p) + x =~= enc_u32(p.0) + (enc_text(p.1) + x));
    assert(enc_variable(q) + y =~= enc_u32(q.0) + (enc_text(q.1) + y));
    lemma_u32_unique(p.0, q.0, enc_text(p.1) + x, enc_text(q.1) + y);
    lemma_text_unique(p.1, q.1, x, y);
}

/// An input variable tells itself apart from what follows.
pub proof fn lemma_variable_unique()
    ensures
        tells_apart(variable_encoder(), variable_fits()),
{
    reveal(tells_apart);
    assert forall|p: (u32, Seq<char>), q: (u32, Seq<char>), x: Seq<u8>, y: Seq<u8>|
        variable_fits()(p) && variable_fits()(q) && #[trigger] (variable_encoder()(p) + x)
            == #[trigger] (variable_encoder()(q) + y) implies p == q && x == y by {
        lemma_variable_fields_unique(p, q, x, y);
    }
}

/// The texts at the head of a record tell themselves apart from what
/// follows.
proof fn lemma_app_head_unique(p: AppFields, q: AppFields, x: Seq<u8>, y: Seq<u8>)
    requires
        app_fits(p),
        app_fits(q),
        rest_from(app_parts(p), 0, x) == rest_from(app_parts(q), 0, y),
    ensures
        p.0 == q.0,
        p.1 == q.1,
        p.2 == q.2,
        rest_from(app_parts(p), 3, x) == rest_from(app_parts(q), 3, y),
{
    let pp = app_parts(p);
    let qq = app_parts(q);
    lemma_rest_step(pp, 0, x);
    lemma_rest_step(qq, 0, y);
    lemma_opt_text_unique(p.0, q.0, rest_from(pp, 1, x), rest_from(qq, 1, y));
    lemma_rest_step(pp, 1, x);
    lemma_rest_step(qq, 1, y);
    lemma_opt_text_unique(p.1, q.1, rest_from(pp, 2, x), rest_from(qq, 2, y));
    lemma_rest_step(pp, 2, x);
    lemma_rest_step(qq, 2, y);
    lemma_text_unique(p.2, q.2, rest_from(pp, 3, x), rest_from(qq, 3, y));
}

/// The priority, the icon and the file of a record tell themselves apart
/// from what follows.
proof fn lemma_app_middle_unique(p: AppFields, q: AppFields, x: Seq<u8>, y: Seq<u8>)
    requires
        app_fits(p),
        app_fits(q),
        rest_from(app_parts(p), 3, x) == rest_from(app_parts(q), 3, y),
    ensures
        p.3 == q.3,
        p.4 == q.4,
        p.5 == q.5,
        rest_from(app_parts(p), 6, x) == rest_from(app_parts(q), 6, y),
{
    let pp = app_parts(p);
    let qq = app_parts(q);
    lemma_rest_step(pp, 3, x);
    lemma_rest_step(qq, 3, y);
    lemma_opt_u32_unique(p.3, q.3, rest_from(pp, 4, x), rest_from(qq, 4, y));
    lemma_rest_step(pp, 4, x);
    lemma_rest_step(qq, 4, y);
    lemma_opt_text_unique(p.4, q.4, rest_from(pp, 5, x), rest_from(qq, 5, y));
    lemma_rest_step(pp, 5, x);
    lemma_rest_step(qq, 5, y);
    lemma_opt_text_unique(p.5, q.5, rest_from(pp, 6, x), rest_from(qq, 6, y));
}

/// The actions of a record tell themselves apart from what follows.
proof fn lemma_app_actions_unique(p: AppFields, q: AppFields, x: Seq<u8>, y: Seq<u8>)
    requires
        app_fits(p),
        app_fits(q),
        rest_from(app_parts(p), 6, x) == rest_from(app_parts(q), 6, y),
    ensures
        p.6 == q.6,
        rest_from(app_parts(p), 7, x) == rest_from(app_parts(q), 7, y),
{
    let pp = app_parts(p);
    let qq = app_parts(q);
    lemma_action_unique();
    lemma_rest_step(pp, 6, x);
    lemma_rest_step(qq, 6, y);
    lemma_seq_unique(
        p.6,
        q.6,
        rest_from(pp, 7, x),
        rest_from(qq, 7, y),
        action_encoder(),
        action_fits(),
    );
}

/// The input variables of a record and its last field tell themselves
/// apart from what follows.
proof fn lemma_app_tail_unique(p: AppFields, q: AppFields, x: Seq<u8>, y: Seq<u8>)
    requires
        app_fits(p),
        app_fits(q),
        rest_from(app_parts(p), 7, x) == rest_from(app_parts(q), 7, y),
    ensures
        p.7 == q.7,
        p.8 == q.8,
        x == y,
{
    let pp = app_parts(p);
    let qq = app_parts(q);
    lemma_variable_unique();
    lemma_rest_step(pp, 7, x);
    lemma_rest_step(qq, 7, y);
    lemma_seq_unique(
        p.7,
        q.7,
        rest_from(pp, 8, x),
        rest_from(qq, 8, y),
        variable_encoder(),
        variable_fits(),
    );
    lemma_rest_step(pp, 8, x);
    lemma_rest_step(qq, 8, y);
    lemma_rest_end(pp, x);
    lemma_rest_end(qq, y);
    lemma_bool_unique(p.8, q.8, x, y);
}

/// A record tells itself apart from what follows.
pub proof fn lemma_app_fields_unique(p: AppFields, q: AppFields, x: Seq<u8>, y: Seq<u8>)
    requires
        app_fits(p),
        app_fits(q),
        enc_app(p) + x == enc_app(q) + y,
    ensures
        p == q,
        x == y,
{
    let pp = app_parts(p);
    let qq = app_parts(q);
    lemma_app_is_its_parts(p);
    lemma_app_is_its_parts(q);
    assert(pp.skip(0) =~= pp);
    assert(qq.skip(0) =~= qq);
    lemma_app_head_unique(p, q, x, y);
    lemma_app_middle_unique(p, q, x, y);
    lemma_app_actions_unique(p, q, x, y);
    lemma_app_tail_unique(p, q, x, y);
}

/// A record tells itself apart from what follows.
pub proof fn lemma_app_unique()
    ensures
        tells_apart(app_encoder(), app_ok()),
{
    reveal(tells_apart);
    assert forall|p: AppFields, q: AppFields, x: Seq<u8>, y: Seq<u8>|
        app_ok()(p) && app_ok()(q) && #[trigger] (app_encoder()(p) + x) == #[trigger] (app_encoder()(
            q,
        ) + y) implies p == q && x == y by {
        lemma_app_fields_unique(p, q, x, y);
    }
}

/// Bytes begin with at most one list of records.
pub proof fn lemma_held_apps_unique(bytes: Seq<u8>, v: Seq<AppFields>, w: Seq<AppFields>)
    requires
        holds_apps(bytes, v),
        holds_apps(bytes, w),
    ensures
        v == w,
{
    let x = bytes.skip(apps_bytes(v).len() as int);
    let y = bytes.skip(apps_bytes(w).len() as int);
    lemma_prefix_and_rest(apps_bytes(v), bytes);
    lemma_prefix_and_rest(apps_bytes(w), bytes);
    lemma_app_unique();
    lemma_seq_unique(v, w, x, y, app_encoder(), app_ok());
}

/// What was written is what is read back: the bytes of a list of records,
/// whatever follows them, begin with that list and with no other.
pub proof fn lemma_apps_round_trip(v: Seq<AppFields>, rest: Seq<u8>)
    requires
        apps_fit(v),
    ensures
        held_apps(apps_bytes(v) + rest) == Some(v),
{
    reveal(held_apps);
    let bytes = apps_bytes(v) + rest;
    assert(apps_bytes(v) =~= bytes.subrange(0, apps_bytes(v).len() as int));
    assert(holds_apps(bytes, v));
    let w = choose|w: Seq<AppFields>| holds_apps(bytes, w);
    lemma_held_apps_unique(bytes, v, w);
}

/// Whether, and to what bytes, a list of records is encoded. This is
/// `bincode::serde::encode_to_vec` with the standard configuration and
/// fixed-width integers.
pub uninterp spec fn apps_blob(fields: Seq<AppFields>) -> Option<Seq<u8>>;

/// `bincode::serde::encode_to_vec`: encodes the records, field by field,
/// with the standard configuration and fixed-width integers. The bytes
/// are those of the format: a length as eight bytes and a number of 32
/// bits as four, lowest first; a text as the length of its UTF-8 encoding
/// and the encoding; an optional value as a byte 0, or a byte 1 and the
/// value; a truth value as a byte 0 or 1; a list as its length and its
/// items. An encoding error gives `None`.
#[verifier::external_body]
fn encode_apps(fields: &Vec<AppTuple>) -> (blob: Option<Vec<u8>>)
    ensures
        blob.deep_view() == apps_blob(fields.deep_view()),
        blob is Some ==> blob->0@ == apps_bytes(fields.deep_view()),
{
    let config = bincode::config::standard().with_fixed_int_encoding();
    match bincode::serde::encode_to_vec(fields, config) {
        Ok(bytes) => Some(bytes),
        Err(_) => None,
    }
}

/// An action as it is read from the cache, its texts borrowed from the
/// bytes of the cache.
pub type ActionRef<'a> = (Option<&'a str>, Option<&'a str>, Option<&'a str>, &'a str, bool);

/// A record as it is read from the cache, its texts borrowed from the
/// bytes of the cache.
pub type AppRef<'a> = (
    Option<&'a str>,
    Option<&'a str>,
    &'a str,
    Option<u32>,
    Option<&'a str>,
    Option<&'a str>,
    Vec<ActionRef<'a>>,
    Vec<(u32, &'a str)>,
    bool,
);

/// `bincode::serde::borrow_decode_from_slice`: decodes a list of records
/// from the start of the bytes, with the standard configuration and
/// fixed-width integers. It gives the list whose bytes, in the format,
/// the given bytes begin with, and `None` where they begin with no list:
/// where they end too early, a text is no UTF-8, or the byte of an
/// optional or a truth value is neither 0 nor 1. The texts are borrowed
/// from the bytes: a length that the bytes cannot hold is refused before
/// anything is read or set aside for it.
#[verifier::external_body]
fn decode_apps<'a>(bytes: &'a [u8]) -> (fields: Option<Vec<AppRef<'a>>>)
    ensures
        fields.deep_view() == held_apps(bytes@),
{
    let config = bincode::config::standard().with_fixed_int_encoding();
    match bincode::serde::borrow_decode_from_slice(bytes, config) {
        Ok((fields, _)) => Some(fields),
        Err(_) => None,
    }
}

fn owned(text: &Option<&str>) -> (copy: Option<String>)
    ensures
        copy.deep_view() == text.deep_view(),
{
    match text {
        Some(t) => Some(duplicate(t)),
        None => None,
    }
}

fn action_to_tuple(a: &ApplicationAction) -> (t: ActionTuple)
    ensures
        t.deep_view() == action_fields(a@),
{
    (
        duplicate_opt(&a.name),
        duplicate_opt(&a.command),
        duplicate_opt(&a.icon),
        a.method.clone(),
        a.exit,
    )
}

fn tuple_to_action(t: &ActionRef) -> (a: ApplicationAction)
    ensures
        a@ == fields_action(t.deep_view()),
{
    ApplicationAction {
        name: owned(&t.0),
        command: owned(&t.1),
        icon: owned(&t.2),
        method: duplicate(t.3),
        exit: t.4,
    }
}

fn variable_to_tuple(v: &ExecVariable) -> (t: VariableTuple)
    ensures
        t.deep_view() == variable_fields(v@),
{
    match v {
        ExecVariable::StringInput(s) => (0, s.clone()),
        ExecVariable::PasswordInput(s) => (1, s.clone()),
    }
}

fn tuple_to_variable(t: &(u32, &str)) -> (v: Option<ExecVariable>)
    ensures
        v.deep_view() == fields_variable(t.deep_view()),
{
    if t.0 == 0 {
        Some(ExecVariable::StringInput(duplicate(t.1)))
    } else if t.0 == 1 {
        Some(ExecVariable::PasswordInput(duplicate(t.1)))
    } else {
        None
    }
}

fn app_to_tuple(d: &AppData) -> (t: AppTuple)
    ensures
        t.deep_view() == app_fields(d@),
{
    let mut actions: Vec<ActionTuple> = Vec::new();
    let mut i: usize = 0;
    while i < d.actions.len()
        invariant
            i <= d.actions@.len(),
            actions@.len() == i,
            forall|j: int| 0 <= j < i ==> (#[trigger] actions@[j]).deep_view() == action_fields(d.actions@[j]@),
        decreases d.actions@.len() - i,
    {
        actions.push(action_to_tuple(&d.actions[i]));
        i += 1;
    }
    let mut vars: Vec<VariableTuple> = Vec::new();
    let mut k: usize = 0;
    while k < d.vars.len()
        invariant
            k <= d.vars@.len(),
            vars@.len() == k,
            forall|j: int| 0 <= j < k ==> (#[trigger] vars@[j]).deep_view() == variable_fields(d.vars@[j]@),
        decreases d.vars@.len() - k,
    {
        vars.push(variable_to_tuple(&d.vars[k]));
        k += 1;
    }
    let priority: Option<u32> = match d.priority {
        Some(p) => Some(p.bits),
        None => None,
    };
    assert(actions.deep_view() =~= d@.actions.map_values(|a: ActionModel| action_fields(a)));
    assert(vars.deep_view() =~= d@.vars.map_values(|v: VariableModel| variable_fields(v)));
    (
        duplicate_opt(&d.name),
        duplicate_opt(&d.command),
        d.search_string.clone(),
        priority,
        duplicate_opt(&d.icon),
        duplicate_opt(&d.desktop_file),
        actions,
        vars,
        d.terminal,
    )
}

fn tuple_to_app(t: &AppRef) -> (d: Option<AppData>)
    ensures
        d.deep_view() == fields_app(t.deep_view()),
{
    let ghost f = t.deep_view();
    let mut vars: Vec<ExecVariable> = Vec::new();
    let mut k: usize = 0;
    while k < t.7.len()
        invariant
            k <= t.7@.len(),
            f == t.deep_view(),
            vars@.len() == k,
            forall|j: int| 0 <= j < k ==> (#[trigger] f.7[j]).0 <= 1,
            forall|j: int| 0 <= j < k ==> Some((#[trigger] vars@[j])@) == fields_variable(f.7[j]),
        decreases t.7@.len() - k,
    {
        assert(f.7[k as int] == t.7@[k as int].deep_view());
        match tuple_to_variable(&t.7[k]) {
            Some(v) => {
                vars.push(v);
            },
            None => {
                assert(!all_variables(f.7));
                return None;
            },
        }
        k += 1;
    }
    let mut actions: Vec<ApplicationAction> = Vec::new();
    let mut i: usize = 0;
    while i < t.6.len()
        invariant
            i <= t.6@.len(),
            f == t.deep_view(),
            actions@.len() == i,
            forall|j: int| 0 <= j < i ==> (#[trigger] actions@[j])@ == fields_action(f.6[j]),
        decreases t.6@.len() - i,
    {
        assert(f.6[i as int] == t.6@[i as int].deep_view());
        actions.push(tuple_to_action(&t.6[i]));
        i += 1;
    }
    let priority: Option<Priority> = match t.3 {
        Some(bits) => Some(Priority::from_bits(bits)),
        None => None,
    };
    let d = AppData {
        name: owned(&t.0),
        command: owned(&t.1),
        search_string: duplicate(t.2),
        priority,
        icon: owned(&t.4),
        desktop_file: owned(&t.5),
        actions,
        vars,
        terminal: t.8,
    };
    proof {
        assert(all_variables(f.7));
        assert(d@.actions =~= f.6.map_values(|a: ActionFields| fields_action(a)));
        assert(d@.vars =~= f.7.map_values(|v: (u32, Seq<char>)| fields_variable(v)->0));
    }
    Some(d)
}

/// The records that a cache file holds: the decoded records, or none where
/// there is no file, where the bytes do not decode, or where they decode
/// to what is no list of records.
pub open spec fn cached_apps(stored: Option<Seq<u8>>) -> Option<Seq<AppModel>> {
    match stored {
        None => None,
        Some(bytes) => match held_apps(bytes) {
            None => None,
            Some(fields) => fields_apps(fields),
        },
    }
}

/// Records that were written are read again as they were: the bytes of a
/// list of records, as [`CandidateCache::write`] gives them, hold that
/// list.
pub proof fn lemma_candidate_cache_round_trip(apps: Seq<AppModel>)
    requires
        apps_fit(apps.map_values(|m: AppModel| app_fields(m))),
    ensures
        cached_apps(Some(apps_bytes(apps.map_values(|m: AppModel| app_fields(m))))) == Some(apps),
{
    let fields = apps.map_values(|m: AppModel| app_fields(m));
    lemma_apps_round_trip(fields, Seq::empty());
    assert(apps_bytes(fields) + Seq::<u8>::empty() =~= apps_bytes(fields));
    lemma_cache_round_trip(apps);
}

/// The cache of the candidate records.
pub struct CandidateCache;

impl CandidateCache {
    /// The bytes to write for a list of records. Fails where the records
    /// cannot be encoded.
    pub fn write(apps: &Vec<AppData>) -> (blob: Result<Vec<u8>, SherlockError>)
        ensures
            match apps_blob(apps.deep_view().map_values(|m: AppModel| app_fields(m))) {
                Some(bytes) => blob is Ok && blob->Ok_0@ == bytes,
                None => blob is Err && blob->Err_0.error@ == ErrorKind::SerializationError,
            },
            blob is Ok ==> blob->Ok_0@ == apps_bytes(
                apps.deep_view().map_values(|m: AppModel| app_fields(m)),
            ),
    {
        let mut fields: Vec<AppTuple> = Vec::new();
        let mut i: usize = 0;
        while i < apps.len()
            invariant
                i <= apps@.len(),
                fields@.len() == i,
                forall|j: int| 0 <= j < i ==> (#[trigger] fields@[j]).deep_view() == app_fields(apps@[j]@),
            decreases apps@.len() - i,
        {
            fields.push(app_to_tuple(&apps[i]));
            i += 1;
        }
        assert(fields.deep_view() =~= apps.deep_view().map_values(|m: AppModel| app_fields(m)));
        match encode_apps(&fields) {
            Some(bytes) => Ok(bytes),
            None => Err(BinaryCache::serialization_error("the records could not be encoded")),
        }
    }

    /// The records of the cache file at `path`. `stored` are the bytes of
    /// the file, or, where it could not be read, the reason. A file that
    /// could not be read is an error. Bytes that hold no list of records
    /// give the empty list and the order to remove the file.
    pub fn read(path: &str, stored: Result<&[u8], &str>) -> (read: Result<
        CacheRead<Vec<AppData>>,
        SherlockError,
    >)
        ensures
            match stored {
                Err(reason) => read is Err && read->Err_0.error@ == ErrorKind::FileReadError(path@)
                    && read->Err_0.traceback@ == reason@,
                Ok(bytes) => read is Ok && match cached_apps(Some(bytes@)) {
                    Some(apps) => read->Ok_0.value.deep_view() == apps && !read->Ok_0.remove_file,
                    None => read->Ok_0.value@.len() == 0 && read->Ok_0.remove_file,
                },
            },
    {
        let bytes = match stored {
            Ok(bytes) => bytes,
            Err(reason) => {
                return Err(BinaryCache::read_error(path, reason));
            },
        };
        let fields = match decode_apps(bytes) {
            Some(fields) => fields,
            None => {
                return Ok(CacheRead { value: Vec::new(), remove_file: true });
            },
        };
        let mut apps: Vec<AppData> = Vec::new();
        let mut i: usize = 0;
        while i < fields.len()
            invariant
                i <= fields@.len(),
                stored == Ok::<&[u8], &str>(bytes),
                held_apps(bytes@) == Some(fields.deep_view()),
                apps@.len() == i,
                forall|j: int|
                    0 <= j < i ==> Some((#[trigger] apps@[j])@) == fields_app(fields.deep_view()[j]),
            decreases fields@.len() - i,
        {
            assert(fields.deep_view()[i as int] == fields@[i as int].deep_view());
            match tuple_to_app(&fields[i]) {
                Some(app) => {
                    apps.push(app);
                },
                None => {
                    assert(!all_apps(fields.deep_view()));
                    return Ok(CacheRead { value: Vec::new(), remove_file: true });
                },
            }
            i += 1;
        }
        proof {
            assert forall|j: int| 0 <= j < fields.deep_view().len() implies fields_app(
                #[trigger] fields.deep_view()[j],
            ) is Some by {
                assert(Some(apps@[j]@) == fields_app(fields.deep_view()[j]));
            }
            assert(all_apps(fields.deep_view()));
            assert(apps.deep_view() =~= fields.deep_view().map_values(
                |f: AppFields| fields_app(f)->0,
            ));
        }
        Ok(CacheRead { value: apps, remove_file: false })
    }
}

} // verus!
