//! Usage counters.
//!
//! The table maps the identifier of an executable to the number of times it
//! was invoked. Before each increment the stored counts are compressed to
//! their ranks among the distinct counts, so that the counts stay small
//! whatever the number of invocations.

use crate::priority::{decimal_digits, decimal_precision};
use crate::cache::{BinaryCache, CacheRead};
use crate::codec::{
    enc_seq, enc_text, enc_u32, fits, lemma_seq_unique, lemma_text_unique, lemma_u32_unique, tells_apart,
    text_fits,
};
use crate::errors::{ErrorKind, SherlockError};
use crate::paths::{join_path, joined};
use crate::table::{
    entered_upto, stored, value_of, has_key, key_index, keys_distinct, lemma_key_index, lemma_store_lookup,
};
use crate::text::str_eq;
use vstd::prelude::*;

verus! {

/// The mathematical table: one `(key, count)` pair per entry.
pub type Counts = Seq<(Seq<char>, u32)>;

/// The set of count values that occur in the table.
pub open spec fn stored_counts(t: Counts) -> Set<u32> {
    t.map_values(|e: (Seq<char>, u32)| e.1).to_set()
}

/// The 1-based rank of `v` among `values`: how many of them are at most `v`.
pub open spec fn rank_among(values: Set<u32>, v: u32) -> nat {
    values.filter(|w: u32| w <= v).len()
}

/// The table with every count replaced by its rank among the stored counts.
pub open spec fn compressed(t: Counts) -> Counts {
    Seq::new(t.len(), |i: int| (t[i].0, rank_among(stored_counts(t), t[i].1) as u32))
}

/// The table with the count of `key` raised by one; a key that is absent
/// enters with count one.
pub open spec fn bumped(t: Counts, key: Seq<char>) -> Counts {
    if has_key(t, key) {
        let i = key_index(t, key);
        t.update(i, (key, (t[i].1 + 1) as u32))
    } else {
        t.push((key, 1u32))
    }
}

/// The largest count in the table; zero for the empty table.
pub open spec fn max_count(t: Counts) -> u32
    decreases t.len(),
{
    if t.len() == 0 {
        0
    } else {
        let rest = max_count(t.drop_last());
        if t.last().1 > rest {
            t.last().1
        } else {
            rest
        }
    }
}

/// The table after `increment` was called once for each of `keys`, in
/// order, starting from `t`.
pub open spec fn after_increments(t: Counts, keys: Seq<Seq<char>>) -> Counts
    decreases keys.len(),
{
    if keys.len() == 0 {
        t
    } else {
        bumped(compressed(after_increments(t, keys.drop_last())), keys.last())
    }
}

/// One entry of the table.
#[derive(Clone, Debug)]
pub struct UsageEntry {
    pub key: String,
    pub count: u32,
}

/// The persistent usage table, held in insertion order.
#[derive(Debug)]
pub struct UsageTable {
    entries: Vec<UsageEntry>,
}

impl View for UsageTable {
    type V = Counts;

    closed spec fn view(&self) -> Counts {
        Seq::new(self.entries@.len(), |i: int| (self.entries@[i].key@, self.entries@[i].count))
    }
}

impl UsageTable {
    /// The table's invariant: every key has one entry.
    pub open spec fn wf(&self) -> bool {
        keys_distinct(self@)
    }

    /// The empty table.
    pub fn new() -> (table: UsageTable)
        ensures
            table@ == Seq::<(Seq<char>, u32)>::empty(),
            table.wf(),
    {
        let table = UsageTable { entries: Vec::new() };
        assert(table@ =~= Seq::<(Seq<char>, u32)>::empty());
        table
    }

    /// The table made of the pairs in order, a later pair taking the
    /// place of an earlier one with the same key.
    pub fn from_pairs(pairs: &Vec<(String, u32)>) -> (table: UsageTable)
        ensures
            table@ == entered_upto(pairs.deep_view(), pairs@.len() as int),
            table.wf(),
    {
        let mut table = UsageTable::new();
        let mut i: usize = 0;
        while i < pairs.len()
            invariant
                i <= pairs@.len(),
                table.wf(),
                table@ == entered_upto(pairs.deep_view(), i as int),
            decreases pairs@.len() - i,
        {
            assert(pairs.deep_view()[i as int] == (pairs@[i as int].0@, pairs@[i as int].1));
            table.set(pairs[i].0.as_str(), pairs[i].1);
            i += 1;
        }
        table
    }

    /// The entries of the table as pairs, in order.
    pub fn to_pairs(&self) -> (pairs: Vec<(String, u32)>)
        ensures
            pairs.deep_view() == self@,
    {
        let mut pairs: Vec<(String, u32)> = Vec::new();
        let mut i: usize = 0;
        while i < self.entries.len()
            invariant
                i <= self.entries@.len(),
                pairs@.len() == i,
                forall|j: int|
                    0 <= j < i ==> (#[trigger] pairs@[j]).0@ == self.entries@[j].key@ && pairs@[j].1
                        == self.entries@[j].count,
            decreases self.entries@.len() - i,
        {
            pairs.push((self.entries[i].key.clone(), self.entries[i].count));
            i += 1;
        }
        assert(pairs.deep_view() =~= self@);
        pairs
    }

    /// Number of entries.
    pub fn len(&self) -> (n: usize)
        ensures
            n == self@.len(),
    {
        self.entries.len()
    }

    /// The key of entry `i`.
    pub fn key_at(&self, i: usize) -> (key: &str)
        requires
            i < self@.len(),
        ensures
            key@ == self@[i as int].0,
    {
        self.entries[i].key.as_str()
    }

    /// The count of entry `i`.
    pub fn count_at(&self, i: usize) -> (count: u32)
        requires
            i < self@.len(),
        ensures
            count == self@[i as int].1,
    {
        self.entries[i].count
    }

    fn find(&self, key: &str) -> (found: Option<usize>)
        ensures
            match found {
                Some(i) => i < self@.len() && self@[i as int].0 == key@,
                None => !has_key(self@, key@),
            },
    {
        let mut i: usize = 0;
        while i < self.entries.len()
            invariant
                i <= self.entries@.len(),
                forall|j: int| 0 <= j < i ==> self@[j].0 != key@,
            decreases self.entries@.len() - i,
        {
            if str_eq(self.entries[i].key.as_str(), key) {
                return Some(i);
            }
            i += 1;
        }
        None
    }

    /// The count stored for `key`, if the table has one.
    pub fn get(&self, key: &str) -> (count: Option<u32>)
        requires
            self.wf(),
        ensures
            count == value_of(self@, key@),
    {
        match self.find(key) {
            Some(i) => {
                proof {
                    lemma_key_index(self@, key@, i as int);
                }
                Some(self.entries[i].count)
            },
            None => None,
        }
    }

    /// The count to rank `exec` with: the stored count, zero when there is
    /// no executable or no entry for it.
    pub fn usage_of(&self, exec: Option<&str>) -> (count: u32)
        requires
            self.wf(),
        ensures
            count == match exec {
                Some(e) => match value_of(self@, e@) {
                    Some(c) => c,
                    None => 0u32,
                },
                None => 0u32,
            },
    {
        match exec {
            Some(e) => match self.get(e) {
                Some(c) => c,
                None => 0,
            },
            None => 0,
        }
    }

    /// Stores `count` for `key`, replacing the count of an entry that is
    /// already there.
    pub fn set(&mut self, key: &str, count: u32)
        requires
            old(self).wf(),
        ensures
            final(self).wf(),
            final(self)@ == stored(old(self)@, key@, count),
            final(self)@.len() == if has_key(old(self)@, key@) {
                old(self)@.len()
            } else {
                old(self)@.len() + 1
            },
            value_of(final(self)@, key@) == Some(count),
            forall|other: Seq<char>|
                other != key@ ==> value_of(final(self)@, other) == value_of(old(self)@, other),
    {
        let ghost before = self@;
        match self.find(key) {
            Some(i) => {
                proof {
                    lemma_key_index(before, key@, i as int);
                }
                let entry = UsageEntry { key: key.to_owned(), count };
                self.entries[i] = entry;
                assert(self@ =~= before.update(i as int, (key@, count)));
            },
            None => {
                self.entries.push(UsageEntry { key: key.to_owned(), count });
                assert(self@ =~= before.push((key@, count)));
            },
        }
        proof {
            lemma_store_lookup(before, key@, count);
        }
    }

    /// The largest stored count, zero for the empty table.
    pub fn max(&self) -> (m: u32)
        ensures
            m == max_count(self@),
            forall|i: int| 0 <= i < self@.len() ==> self@[i].1 <= m,
    {
        let mut m: u32 = 0;
        let mut i: usize = 0;
        assert(self@.take(0) =~= Seq::<(Seq<char>, u32)>::empty());
        while i < self.entries.len()
            invariant
                i <= self.entries@.len(),
                self.entries@.len() == self@.len(),
                m == max_count(self@.take(i as int)),
                forall|j: int| 0 <= j < i ==> self@[j].1 <= m,
            decreases self.entries@.len() - i,
        {
            let c = self.entries[i].count;
            proof {
                let next = self@.take(i + 1);
                assert(next.drop_last() =~= self@.take(i as int));
                assert(next.last() == self@[i as int]);
            }
            if c > m {
                m = c;
            }
            i += 1;
        }
        assert(self@.take(i as int) =~= self@);
        m
    }

    /// The decimal precision of a pass over this table: the number of
    /// decimal digits of its largest count.
    pub fn max_decimals(&self) -> (precision: i32)
        ensures
            precision == decimal_digits(max_count(self@) as nat),
            self@.len() == 0 ==> precision == 0,
    {
        decimal_precision(self.max())
    }

    /// Replaces every count by its rank among the distinct stored counts.
    pub fn compress(&mut self)
        requires
            old(self).wf(),
            old(self)@.len() <= u32::MAX,
        ensures
            final(self).wf(),
            final(self)@ == compressed(old(self)@),
            final(self)@.len() == old(self)@.len(),
            forall|i: int| 0 <= i < old(self)@.len() ==> final(self)@[i].0 == old(self)@[i].0,
    {
        let ghost before = self@;
        let mut distinct: Vec<u32> = Vec::new();
        let mut i: usize = 0;
        assert(before.take(0) =~= Seq::<(Seq<char>, u32)>::empty());
        assert(stored_counts(before.take(0)) =~= distinct@.to_set());
        while i < self.entries.len()
            invariant
                self@ == before,
                i <= self.entries@.len(),
                self.entries@.len() == before.len(),
                strictly_increasing(distinct@),
                distinct@.to_set() == stored_counts(before.take(i as int)),
                distinct@.len() <= i,
            decreases self.entries@.len() - i,
        {
            let c = self.entries[i].count;
            insert_sorted(&mut distinct, c);
            proof {
                lemma_stored_counts_push(before, i as int);
            }
            i += 1;
        }
        assert(before.take(i as int) =~= before);
        let mut k: usize = 0;
        while k < self.entries.len()
            invariant
                k <= self.entries@.len(),
                self.entries@.len() == before.len(),
                before.len() <= u32::MAX,
                strictly_increasing(distinct@),
                distinct@.to_set() == stored_counts(before),
                distinct@.len() <= before.len(),
                forall|j: int| 0 <= j < k ==> self@[j] == compressed(before)[j],
                forall|j: int| k <= j < before.len() ==> self@[j] == before[j],
            decreases self.entries@.len() - k,
        {
            let c = self.entries[k].count;
            proof {
                assert(before.map_values(|e: (Seq<char>, u32)| e.1)[k as int] == c);
                assert(stored_counts(before).contains(c));
                assert(distinct@.contains(c));
            }
            let p = position_in_sorted(&distinct, c);
            proof {
                lemma_rank_in_sorted(distinct@, p as int);
            }
            let ghost prev = self@;
            let key = self.entries[k].key.clone();
            self.entries[k] = UsageEntry { key, count: (p + 1) as u32 };
            assert(self@ =~= prev.update(k as int, compressed(before)[k as int]));
            k += 1;
        }
        assert(self@ =~= compressed(before));
    }

    /// Compresses the counts to ranks, then counts one more use of `key`.
    pub fn increment(&mut self, key: &str)
        requires
            old(self).wf(),
            old(self)@.len() < u32::MAX,
        ensures
            final(self).wf(),
            final(self)@ == bumped(compressed(old(self)@), key@),
            forall|i: int|
                0 <= i < final(self)@.len() ==> 1 <= #[trigger] final(self)@[i].1
                    <= stored_counts(old(self)@).len() + 1,
            has_key(final(self)@, key@),
            final(self)@.len() == if has_key(old(self)@, key@) {
                old(self)@.len()
            } else {
                old(self)@.len() + 1
            },
            forall|other: Seq<char>|
                has_key(final(self)@, other) <==> has_key(old(self)@, other) || other == key@,
    {
        let ghost before = self@;
        self.compress();
        let ghost mid = self@;
        proof {
            lemma_compressed_bounds(before);
            lemma_same_keys(before, mid);
        }
        match self.find(key) {
            Some(i) => {
                proof {
                    lemma_key_index(mid, key@, i as int);
                }
                let count = self.entries[i].count + 1;
                self.entries[i] = UsageEntry { key: key.to_owned(), count };
                assert(self@ =~= mid.update(i as int, (key@, count)));
                assert(self@[i as int].0 == key@);
                proof {
                    lemma_same_keys(mid, self@);
                    assert(has_key(before, key@));
                }
            },
            None => {
                self.entries.push(UsageEntry { key: key.to_owned(), count: 1 });
                assert(self@ =~= mid.push((key@, 1u32)));
                assert(self@[mid.len() as int].0 == key@);
                assert forall|other: Seq<char>|
                    has_key(self@, other) <==> has_key(before, other) || other == key@ by {
                    if has_key(self@, other) {
                        let j = choose|j: int| 0 <= j < self@.len() && self@[j].0 == other;
                        if j < mid.len() {
                            assert(mid[j].0 == other);
                        }
                    }
                    if has_key(mid, other) {
                        let j = choose|j: int| 0 <= j < mid.len() && mid[j].0 == other;
                        assert(self@[j].0 == other);
                    }
                }
            },
        }
    }
}

/// The bytes of one entry: its key, then its count.
pub open spec fn enc_count(e: (Seq<char>, u32)) -> Seq<u8> {
    enc_text(e.0) + enc_u32(e.1)
}

/// How an entry is written.
pub open spec fn count_encoder() -> spec_fn((Seq<char>, u32)) -> Seq<u8> {
    |e: (Seq<char>, u32)| enc_count(e)
}

/// Which entries can be written: those whose key fits.
pub open spec fn count_fits() -> spec_fn((Seq<char>, u32)) -> bool {
    |e: (Seq<char>, u32)| text_fits(e.0)
}

/// Whether a list of counts can be written.
pub open spec fn counts_fit(v: Counts) -> bool {
    fits(v.len()) && forall|i: int| 0 <= i < v.len() ==> text_fits((#[trigger] v[i]).0)
}

/// The bytes of a list of counts: the number of entries, then each entry.
pub open spec fn counts_bytes(v: Counts) -> Seq<u8> {
    enc_seq(v, count_encoder())
}

/// Whether the bytes begin with the list of counts `v`.
pub open spec fn holds_counts(bytes: Seq<u8>, v: Counts) -> bool {
    counts_fit(v) && counts_bytes(v).is_prefix_of(bytes)
}

/// The list of counts that the bytes begin with, `None` where they begin
/// with none.
#[verifier::opaque]
pub open spec fn held_counts(bytes: Seq<u8>) -> Option<Counts> {
    if exists|v: Counts| holds_counts(bytes, v) {
        Some(choose|v: Counts| holds_counts(bytes, v))
    } else {
        None
    }
}

/// An entry tells itself apart from what follows.
pub proof fn lemma_count_unique()
    ensures
        tells_apart(count_encoder(), count_fits()),
{
    reveal(tells_apart);
    assert forall|p: (Seq<char>, u32), q: (Seq<char>, u32), x: Seq<u8>, y: Seq<u8>|
        count_fits()(p) && count_fits()(q) && #[trigger] (count_encoder()(p) + x)
            == #[trigger] (count_encoder()(q) + y) implies p == q && x == y by {
        assert(enc_count(p) + x =~= enc_text(p.0) + (enc_u32(p.1) + x));
        assert(enc_count(q) + y =~= enc_text(q.0) + (enc_u32(q.1) + y));
        lemma_text_unique(p.0, q.0, enc_u32(p.1) + x, enc_u32(q.1) + y);
        lemma_u32_unique(p.1, q.1, x, y);
    }
}

/// Bytes begin with at most one list of counts.
pub proof fn lemma_held_counts_unique(bytes: Seq<u8>, v: Counts, w: Counts)
    requires
        holds_counts(bytes, v),
        holds_counts(bytes, w),
    ensures
        v == w,
{
    let x = bytes.skip(counts_bytes(v).len() as int);
    let y = bytes.skip(counts_bytes(w).len() as int);
    assert(counts_bytes(v) + x =~= bytes);
    assert(counts_bytes(w) + y =~= bytes);
    lemma_count_unique();
    lemma_seq_unique(v, w, x, y, count_encoder(), count_fits());
}

/// What was written is what is read back: the bytes of a list of counts,
/// whatever follows them, begin with that list and with no other.
pub proof fn lemma_counts_round_trip(v: Counts, rest: Seq<u8>)
    requires
        counts_fit(v),
    ensures
        held_counts(counts_bytes(v) + rest) == Some(v),
{
    reveal(held_counts);
    let bytes = counts_bytes(v) + rest;
    assert(counts_bytes(v) =~= bytes.subrange(0, counts_bytes(v).len() as int));
    assert(holds_counts(bytes, v));
    let w = choose|w: Counts| holds_counts(bytes, w);
    lemma_held_counts_unique(bytes, v, w);
}

/// Whether, and to what bytes, a list of counts is encoded. This is
/// `bincode::serde::encode_to_vec` with the standard configuration and
/// fixed-width integers.
pub uninterp spec fn counts_blob(pairs: Seq<(Seq<char>, u32)>) -> Option<Seq<u8>>;

/// `bincode::serde::encode_to_vec`: encodes the pairs, in order, with the
/// standard configuration and fixed-width integers. The bytes are those of
/// the format: the number of pairs as eight bytes, lowest first; then for
/// each pair the length of the key's UTF-8 encoding as eight bytes, the
/// encoding, and the count as four bytes. An encoding error gives `None`.
#[verifier::external_body]
fn encode_counts(pairs: &Vec<(String, u32)>) -> (blob: Option<Vec<u8>>)
    ensures
        blob.deep_view() == counts_blob(pairs.deep_view()),
        blob is Some ==> blob->0@ == counts_bytes(pairs.deep_view()),
{
    let config = bincode::config::standard().with_fixed_int_encoding();
    match bincode::serde::encode_to_vec(pairs, config) {
        Ok(bytes) => Some(bytes),
        Err(_) => None,
    }
}

/// `bincode::serde::borrow_decode_from_slice`: decodes a list of pairs from
/// the start of the bytes, with the standard configuration and fixed-width
/// integers. It gives the list whose bytes, in the format, the given bytes
/// begin with, and `None` where they begin with no list: where they end
/// too early or a key is no UTF-8. The keys are borrowed from the bytes:
/// a length that the bytes cannot hold is refused before anything is read
/// or set aside for it.
#[verifier::external_body]
fn decode_counts<'a>(bytes: &'a [u8]) -> (pairs: Option<Vec<(&'a str, u32)>>)
    ensures
        pairs.deep_view() == held_counts(bytes@),
{
    let config = bincode::config::standard().with_fixed_int_encoding();
    match bincode::serde::borrow_decode_from_slice(bytes, config) {
        Ok((pairs, _)) => Some(pairs),
        Err(_) => None,
    }
}

/// The table made of the pairs in order, a later pair taking the place of
/// an earlier one with the same key.
fn table_of(pairs: &Vec<(&str, u32)>) -> (table: UsageTable)
    ensures
        table@ == entered_upto(pairs.deep_view(), pairs@.len() as int),
        table.wf(),
{
    let mut table = UsageTable::new();
    let mut i: usize = 0;
    while i < pairs.len()
        invariant
            i <= pairs@.len(),
            table.wf(),
            table@ == entered_upto(pairs.deep_view(), i as int),
        decreases pairs@.len() - i,
    {
        assert(pairs.deep_view()[i as int] == (pairs@[i as int].0@, pairs@[i as int].1));
        table.set(pairs[i].0, pairs[i].1);
        i += 1;
    }
    table
}

/// The table that a counter file holds: the empty table where there is no
/// file or where its bytes do not decode, else the decoded pairs entered
/// in order.
pub open spec fn loaded_counts(stored: Option<Seq<u8>>) -> Counts {
    match stored {
        None => Seq::empty(),
        Some(bytes) => match held_counts(bytes) {
            None => Seq::empty(),
            Some(pairs) => entered_upto(pairs, pairs.len() as int),
        },
    }
}

/// A table that was written is loaded again as it was: the bytes of a
/// table, as [`CounterReader::encode`] gives them, load to that table, and
/// the file stays.
pub proof fn lemma_counter_file_round_trip(t: Counts)
    requires
        keys_distinct(t),
        counts_fit(t),
    ensures
        loaded_counts(Some(counts_bytes(t))) == t,
        held_counts(counts_bytes(t)) is Some,
{
    lemma_counts_round_trip(t, Seq::empty());
    assert(counts_bytes(t) + Seq::<u8>::empty() =~= counts_bytes(t));
    crate::table::lemma_entered_distinct(t, t.len() as int);
    assert(t.take(t.len() as int) =~= t);
}

/// The bytes of a file that may be missing.
pub open spec fn file_bytes(stored: Option<&[u8]>) -> Option<Seq<u8>> {
    match stored {
        Some(bytes) => Some(bytes@),
        None => None,
    }
}

/// The handle of the counter file.
#[derive(Debug)]
pub struct CounterReader {
    /// The path of the file.
    pub path: String,
}

impl CounterReader {
    /// The handle of the counter file in the data directory `data_dir`.
    pub fn new(data_dir: &str) -> (reader: Self)
        ensures
            reader.path@ == joined(data_dir@, "counts.bin"@),
    {
        CounterReader { path: join_path(data_dir, "counts.bin") }
    }

    /// The table that the file holds. `stored` are the bytes of the file,
    /// `None` where there is no file. Bytes that do not decode give the
    /// empty table and the order to remove the file.
    pub fn load(&self, stored: Option<&[u8]>) -> (read: CacheRead<UsageTable>)
        ensures
            read.value@ == loaded_counts(file_bytes(stored)),
            read.value.wf(),
            read.remove_file == (stored is Some && held_counts(stored->0@) is None),
    {
        match stored {
            None => CacheRead { value: UsageTable::new(), remove_file: false },
            Some(bytes) => {
                let decoded = match decode_counts(bytes) {
                    Some(pairs) => Some(table_of(&pairs)),
                    None => None,
                };
                BinaryCache::recover(decoded, UsageTable::new())
            },
        }
    }

    /// Counts one more use of `key`: loads the table from `stored`,
    /// compresses its counts to ranks, raises the count of `key` and
    /// returns the bytes to write back. Fails where the table cannot be
    /// encoded or cannot take another count.
    pub fn increment(&self, stored: Option<&[u8]>, key: &str) -> (blob: Result<
        Vec<u8>,
        SherlockError,
    >)
        ensures
            ({
                let before = loaded_counts(file_bytes(stored));
                let after = bumped(compressed(before), key@);
                if before.len() < u32::MAX {
                    match counts_blob(after) {
                        Some(bytes) => blob is Ok && blob->Ok_0@ == bytes,
                        None => blob is Err && blob->Err_0.error@ == ErrorKind::SerializationError,
                    }
                } else {
                    blob is Err && blob->Err_0.error@ == ErrorKind::SerializationError
                }
            }),
    {
        let mut table = self.load(stored).value;
        if table.len() >= u32::MAX as usize {
            return Err(BinaryCache::serialization_error("the usage table is full"));
        }
        table.increment(key);
        CounterReader::encode(&table)
    }

    /// The bytes that hold `table`. Fails where the table cannot be
    /// encoded.
    pub fn encode(table: &UsageTable) -> (blob: Result<Vec<u8>, SherlockError>)
        ensures
            match counts_blob(table@) {
                Some(bytes) => blob is Ok && blob->Ok_0@ == bytes,
                None => blob is Err && blob->Err_0.error@ == ErrorKind::SerializationError,
            },
            blob is Ok ==> blob->Ok_0@ == counts_bytes(table@),
    {
        let pairs = table.to_pairs();
        match encode_counts(&pairs) {
            Some(bytes) => Ok(bytes),
            None => Err(BinaryCache::serialization_error("the usage table could not be encoded")),
        }
    }
}

/// Tables with the same keys at the same places hold the same keys.
proof fn lemma_same_keys(a: Counts, b: Counts)
    requires
        a.len() == b.len(),
        forall|i: int| 0 <= i < a.len() ==> a[i].0 == b[i].0,
    ensures
        forall|key: Seq<char>| has_key(a, key) <==> has_key(b, key),
{
    assert forall|key: Seq<char>| has_key(a, key) <==> has_key(b, key) by {
        if has_key(a, key) {
            let j = choose|j: int| 0 <= j < a.len() && a[j].0 == key;
            assert(b[j].0 == key);
        }
        if has_key(b, key) {
            let j = choose|j: int| 0 <= j < b.len() && b[j].0 == key;
            assert(a[j].0 == key);
        }
    }
}

/// Every element is smaller than the one after it.
pub open spec fn strictly_increasing(s: Seq<u32>) -> bool {
    forall|i: int, j: int| 0 <= i < j < s.len() ==> s[i] < s[j]
}

/// A value put into an increasing sequence at its place leaves the
/// sequence increasing, with that value as its only new element.
proof fn lemma_insert_in_place(before: Seq<u32>, p: int, v: u32)
    requires
        strictly_increasing(before),
        0 <= p <= before.len(),
        forall|j: int| 0 <= j < p ==> before[j] < v,
        p < before.len() ==> v < before[p],
    ensures
        strictly_increasing(before.insert(p, v)),
        before.insert(p, v).to_set() == before.to_set().insert(v),
{
    let after = before.insert(p, v);
    assert forall|x: u32| after.to_set().contains(x) == before.to_set().insert(v).contains(x) by {
        if after.contains(x) {
            let j = choose|j: int| 0 <= j < after.len() && after[j] == x;
            if j < p {
                assert(before[j] == x);
            } else if j > p {
                assert(before[j - 1] == x);
            }
        }
        if before.contains(x) {
            let j = choose|j: int| 0 <= j < before.len() && before[j] == x;
            if j < p {
                assert(after[j] == x);
            } else {
                assert(after[j + 1] == x);
            }
        }
        if x == v {
            assert(after[p] == x);
        }
    }
    assert(after.to_set() =~= before.to_set().insert(v));
    assert forall|a: int, b: int| 0 <= a < b < after.len() implies after[a] < after[b] by {
        if b < p {
            assert(after[a] == before[a] && after[b] == before[b]);
        } else if b == p {
            assert(after[a] == before[a]);
        } else if a < p {
            assert(after[a] == before[a] && after[b] == before[b - 1]);
            if p < b - 1 {
                assert(before[p] < before[b - 1]);
            }
        } else if a == p {
            assert(after[b] == before[b - 1]);
            if p < b - 1 {
                assert(before[p] < before[b - 1]);
            }
        } else {
            assert(after[a] == before[a - 1] && after[b] == before[b - 1]);
        }
    }
}

/// Inserts `v` into the sorted vector unless it is already there.
fn insert_sorted(sorted: &mut Vec<u32>, v: u32)
    requires
        strictly_increasing(old(sorted)@),
    ensures
        strictly_increasing(final(sorted)@),
        final(sorted)@.to_set() == old(sorted)@.to_set().insert(v),
        final(sorted)@.len() <= old(sorted)@.len() + 1,
{
    let ghost before = sorted@;
    let mut p: usize = 0;
    while p < sorted.len() && sorted[p] < v
        invariant
            sorted@ == before,
            p <= sorted@.len(),
            forall|j: int| 0 <= j < p ==> sorted@[j] < v,
        decreases sorted@.len() - p,
    {
        p += 1;
    }
    if p < sorted.len() && sorted[p] == v {
        assert(before.to_set().insert(v) =~= before.to_set()) by {
            assert(before.contains(v));
        }
    } else {
        proof {
            lemma_insert_in_place(before, p as int, v);
        }
        sorted.insert(p, v);
    }
}

/// The index of `v` in a sorted vector that holds it.
fn position_in_sorted(sorted: &Vec<u32>, v: u32) -> (p: usize)
    requires
        strictly_increasing(sorted@),
        sorted@.contains(v),
    ensures
        p < sorted@.len(),
        sorted@[p as int] == v,
{
    let mut p: usize = 0;
    while p < sorted.len() && sorted[p] != v
        invariant
            p <= sorted@.len(),
            forall|j: int| 0 <= j < p ==> sorted@[j] != v,
        decreases sorted@.len() - p,
    {
        p += 1;
    }
    p
}

/// The counts of a prefix that is one entry longer: one more value.
proof fn lemma_stored_counts_push(t: Counts, i: int)
    requires
        0 <= i < t.len(),
    ensures
        stored_counts(t.take(i + 1)) == stored_counts(t.take(i)).insert(t[i].1),
{
    let f = |e: (Seq<char>, u32)| e.1;
    let a = t.take(i).map_values(f);
    let b = t.take(i + 1).map_values(f);
    assert(b =~= a.push(t[i].1));
    assert forall|x: u32| b.to_set().contains(x) == a.to_set().insert(t[i].1).contains(x) by {
        if b.contains(x) {
            let j = choose|j: int| 0 <= j < b.len() && b[j] == x;
            if j < i {
                assert(a[j] == x);
            }
        }
        if a.contains(x) {
            let j = choose|j: int| 0 <= j < a.len() && a[j] == x;
            assert(b[j] == x);
        }
        if x == t[i].1 {
            assert(b[i] == x);
        }
    }
    assert(b.to_set() =~= a.to_set().insert(t[i].1));
}

/// In a strictly increasing sequence the rank of an element among all of
/// them is its position, counted from one.
pub proof fn lemma_rank_in_sorted(d: Seq<u32>, p: int)
    requires
        strictly_increasing(d),
        0 <= p < d.len(),
    ensures
        rank_among(d.to_set(), d[p]) == p + 1,
        d.to_set().len() == d.len(),
{
    let head = d.take(p + 1);
    let below = d.to_set().filter(|w: u32| w <= d[p]);
    assert forall|x: u32| below.contains(x) == head.to_set().contains(x) by {
        if below.contains(x) {
            let j = choose|j: int| 0 <= j < d.len() && d[j] == x;
            if j > p {
                assert(d[p] < d[j]);
            }
            assert(head[j] == x);
        }
        if head.contains(x) {
            let j = choose|j: int| 0 <= j < head.len() && head[j] == x;
            assert(d[j] == x);
            if j < p {
                assert(d[j] < d[p]);
            }
        }
    }
    assert(below =~= head.to_set());
    assert(head.no_duplicates());
    head.unique_seq_to_set();
    assert(d.no_duplicates());
    d.unique_seq_to_set();
}

/// After compression every count is a rank: at least one and at most the
/// number of distinct counts that were stored; the keys are unchanged.
pub proof fn lemma_compressed_bounds(t: Counts)
    ensures
        compressed(t).len() == t.len(),
        forall|i: int| 0 <= i < t.len() ==> compressed(t)[i].0 == t[i].0,
        forall|i: int|
            0 <= i < t.len() ==> 1 <= rank_among(stored_counts(t), #[trigger] t[i].1)
                <= stored_counts(t).len(),
        stored_counts(t).len() <= t.len(),
        keys_distinct(t) ==> keys_distinct(compressed(t)),
{
    let values = t.map_values(|e: (Seq<char>, u32)| e.1);
    vstd::seq_lib::seq_to_set_is_finite(values);
    values.lemma_cardinality_of_set();
    assert forall|i: int| 0 <= i < t.len() implies 1 <= rank_among(
        stored_counts(t),
        #[trigger] t[i].1,
    ) <= stored_counts(t).len() by {
        let below = stored_counts(t).filter(|w: u32| w <= t[i].1);
        assert(values[i] == t[i].1);
        assert(below.contains(t[i].1));
        vstd::set_lib::lemma_len_subset(below, stored_counts(t));
        assert(below.finite());
        if below.len() == 0 {
            assert(below =~= Set::empty()) by {
                below.lemma_len0_is_empty();
            }
        }
    }
}

/// The sorted sequence with `v` entered at its place, unless it is there.
pub open spec fn entered_sorted(d: Seq<u32>, v: u32) -> Seq<u32>
    decreases d.len(),
{
    if d.len() == 0 {
        seq![v]
    } else if d.last() < v {
        d.push(v)
    } else if d.last() == v {
        d
    } else {
        entered_sorted(d.drop_last(), v).push(d.last())
    }
}

/// The values in ascending order, each once.
pub open spec fn ascending_values(values: Seq<u32>) -> Seq<u32>
    decreases values.len(),
{
    if values.len() == 0 {
        Seq::empty()
    } else {
        entered_sorted(ascending_values(values.drop_last()), values.last())
    }
}

proof fn lemma_entered_sorted(d: Seq<u32>, v: u32)
    requires
        strictly_increasing(d),
    ensures
        strictly_increasing(entered_sorted(d, v)),
        entered_sorted(d, v).to_set() == d.to_set().insert(v),
        entered_sorted(d, v).len() >= 1,
    decreases d.len(),
{
    let r = entered_sorted(d, v);
    if d.len() == 0 {
        assert(r.to_set() =~= d.to_set().insert(v)) by {
            assert(r[0] == v);
            assert forall|x: u32| r.to_set().contains(x) == d.to_set().insert(v).contains(x) by {
                if r.contains(x) {
                    let j = choose|j: int| 0 <= j < r.len() && r[j] == x;
                }
            }
        }
    } else if d.last() < v {
        assert forall|a: int, b: int| 0 <= a < b < r.len() implies r[a] < r[b] by {
            if b == d.len() {
                if a < d.len() - 1 {
                    assert(d[a] < d[d.len() - 1]);
                }
            }
        }
        assert forall|x: u32| r.to_set().contains(x) == d.to_set().insert(v).contains(x) by {
            if r.contains(x) {
                let j = choose|j: int| 0 <= j < r.len() && r[j] == x;
                if j < d.len() {
                    assert(d[j] == x);
                }
            }
            if d.contains(x) {
                let j = choose|j: int| 0 <= j < d.len() && d[j] == x;
                assert(r[j] == x);
            }
            if x == v {
                assert(r[d.len() as int] == x);
            }
        }
        assert(r.to_set() =~= d.to_set().insert(v));
    } else if d.last() == v {
        assert(d.contains(v)) by {
            assert(d[d.len() - 1] == v);
        }
        assert(d.to_set().insert(v) =~= d.to_set());
    } else {
        let head = d.drop_last();
        let inner = entered_sorted(head, v);
        assert(strictly_increasing(head));
        lemma_entered_sorted(head, v);
        assert forall|j: int| 0 <= j < inner.len() implies inner[j] < d.last() by {
            assert(inner.to_set().contains(inner[j]));
            assert(head.to_set().insert(v).contains(inner[j]));
            if inner[j] != v {
                assert(head.contains(inner[j]));
                let k = choose|k: int| 0 <= k < head.len() && head[k] == inner[j];
                assert(d[k] < d[d.len() - 1]);
            }
        }
        assert forall|a: int, b: int| 0 <= a < b < r.len() implies r[a] < r[b] by {
            if b < inner.len() {
                assert(r[a] == inner[a] && r[b] == inner[b]);
            }
        }
        assert forall|x: u32| r.to_set().contains(x) == d.to_set().insert(v).contains(x) by {
            if r.contains(x) {
                let j = choose|j: int| 0 <= j < r.len() && r[j] == x;
                if j < inner.len() {
                    assert(inner.to_set().contains(inner[j]));
                    if x != v {
                        assert(head.contains(x));
                        let k = choose|k: int| 0 <= k < head.len() && head[k] == x;
                        assert(d[k] == x);
                    }
                } else {
                    assert(d[d.len() - 1] == x);
                }
            }
            if d.contains(x) {
                let j = choose|j: int| 0 <= j < d.len() && d[j] == x;
                if j < head.len() {
                    assert(head[j] == x);
                    assert(head.to_set().insert(v).contains(x));
                    assert(inner.contains(x));
                    let k = choose|k: int| 0 <= k < inner.len() && inner[k] == x;
                    assert(r[k] == x);
                } else {
                    assert(r[r.len() - 1] == x);
                }
            }
            if x == v {
                assert(head.to_set().insert(v).contains(v));
                assert(inner.contains(v));
                let k = choose|k: int| 0 <= k < inner.len() && inner[k] == v;
                assert(r[k] == v);
            }
        }
        assert(r.to_set() =~= d.to_set().insert(v));
    }
}

/// The ascending values are strictly increasing and are the values.
pub proof fn lemma_ascending_values(values: Seq<u32>)
    ensures
        strictly_increasing(ascending_values(values)),
        ascending_values(values).to_set() == values.to_set(),
    decreases values.len(),
{
    if values.len() == 0 {
        assert(ascending_values(values).to_set() =~= values.to_set());
    } else {
        let head = values.drop_last();
        lemma_ascending_values(head);
        lemma_entered_sorted(ascending_values(head), values.last());
        assert forall|x: u32| head.to_set().insert(values.last()).contains(x)
            == values.to_set().contains(x) by {
            if head.contains(x) {
                let j = choose|j: int| 0 <= j < head.len() && head[j] == x;
                assert(values[j] == x);
            }
            if values.contains(x) {
                let j = choose|j: int| 0 <= j < values.len() && values[j] == x;
                if j < head.len() {
                    assert(head[j] == x);
                }
            }
            if x == values.last() {
                assert(values[values.len() - 1] == x);
            }
        }
        assert(head.to_set().insert(values.last()) =~= values.to_set());
    }
}

/// After compression the stored counts are exactly the ranks from one to
/// the number of distinct counts that were stored.
pub proof fn lemma_compressed_counts_are_ranks(t: Counts)
    requires
        t.len() <= u32::MAX,
    ensures
        forall|v: u32|
            stored_counts(compressed(t)).contains(v) <==> 1 <= v <= stored_counts(t).len(),
        stored_counts(t).len() <= t.len(),
{
    let values = t.map_values(|e: (Seq<char>, u32)| e.1);
    let d = ascending_values(values);
    lemma_ascending_values(values);
    lemma_compressed_bounds(t);
    let after = compressed(t).map_values(|e: (Seq<char>, u32)| e.1);
    if d.len() > 0 {
        lemma_rank_in_sorted(d, 0);
    } else {
        assert(stored_counts(t) =~= Set::<u32>::empty());
    }
    assert(stored_counts(t).len() == d.len());
    assert forall|v: u32| stored_counts(compressed(t)).contains(v) <==> 1 <= v <= d.len() by {
        if after.contains(v) {
            let i = choose|i: int| 0 <= i < after.len() && after[i] == v;
            assert(values[i] == t[i].1);
            assert(values.contains(t[i].1));
            assert(d.to_set().contains(t[i].1));
            assert(d.contains(t[i].1));
            let p = choose|p: int| 0 <= p < d.len() && d[p] == t[i].1;
            lemma_rank_in_sorted(d, p);
            assert(after[i] == compressed(t)[i].1);
            assert(rank_among(stored_counts(t), t[i].1) == p + 1);
            assert(v == p + 1);
        }
        if 1 <= v <= d.len() {
            let p = v - 1;
            lemma_rank_in_sorted(d, p);
            assert(d.contains(d[p]));
            assert(d.to_set().contains(d[p]));
            assert(values.contains(d[p]));
            let i = choose|i: int| 0 <= i < values.len() && values[i] == d[p];
            assert(values[i] == t[i].1);
            assert(after[i] == compressed(t)[i].1);
            assert(rank_among(stored_counts(t), t[i].1) == p + 1);
            assert(after[i] == v);
            assert(after.contains(v));
        }
    }
}

/// Compression is idempotent: counts that are ranks already stay.
pub proof fn lemma_compress_idempotent(t: Counts)
    requires
        t.len() <= u32::MAX,
    ensures
        compressed(compressed(t)) == compressed(t),
{
    let once = compressed(t);
    lemma_compressed_counts_are_ranks(t);
    lemma_compressed_bounds(t);
    let k = stored_counts(t).len();
    let ranks = Seq::new(k, |i: int| (i + 1) as u32);
    assert(strictly_increasing(ranks));
    assert forall|v: u32| ranks.to_set().contains(v) == stored_counts(once).contains(v) by {
        if ranks.contains(v) {
            let j = choose|j: int| 0 <= j < ranks.len() && ranks[j] == v;
        }
        if 1 <= v <= k {
            assert(ranks[v - 1] == v);
        }
    }
    assert(ranks.to_set() =~= stored_counts(once));
    assert forall|i: int| 0 <= i < once.len() implies compressed(once)[i] == once[i] by {
        let r = rank_among(stored_counts(t), t[i].1);
        assert(1 <= r <= k);
        assert(once[i].1 == r as u32);
        lemma_rank_in_sorted(ranks, r - 1);
        assert(ranks[r - 1] == once[i].1);
    }
    assert(compressed(once) =~= once);
}

/// Counting one use of each of a list of distinct keys, starting from the
/// empty table, leaves one entry per key, each with count one: the stored
/// values are the ranks `1..=k` with `k = 1`, however many keys there were.
pub proof fn lemma_increments_of_distinct_keys(keys: Seq<Seq<char>>)
    requires
        keys.no_duplicates(),
    ensures
        ({
            let t = after_increments(Seq::empty(), keys);
            &&& t.len() == keys.len()
            &&& forall|i: int| 0 <= i < keys.len() ==> t[i] == (keys[i], 1u32)
            &&& keys.len() > 0 ==> stored_counts(t) == set![1u32]
            &&& keys_distinct(t)
        }),
    decreases keys.len(),
{
    let t = after_increments(Seq::empty(), keys);
    if keys.len() > 0 {
        let head = keys.drop_last();
        let prev = after_increments(Seq::empty(), head);
        assert(head.no_duplicates());
        lemma_increments_of_distinct_keys(head);
        assert(compressed(prev) =~= prev) by {
            if prev.len() > 0 {
                lemma_rank_of_one();
            }
        }
        assert(!has_key(prev, keys.last())) by {
            if has_key(prev, keys.last()) {
                let i = key_index(prev, keys.last());
                assert(keys[i] == keys[keys.len() - 1]);
            }
        }
        assert(t == prev.push((keys.last(), 1u32)));
        let values = t.map_values(|e: (Seq<char>, u32)| e.1);
        assert forall|x: u32| values.to_set().contains(x) == set![1u32].contains(x) by {
            if values.contains(x) {
                let j = choose|j: int| 0 <= j < values.len() && values[j] == x;
                assert(t[j].1 == 1);
            }
            if x == 1 {
                assert(values[0] == 1u32);
            }
        }
        assert(stored_counts(t) =~= set![1u32]);
    }
}

proof fn lemma_rank_of_one()
    ensures
        rank_among(set![1u32], 1u32) == 1,
{
    assert(set![1u32].filter(|w: u32| w <= 1u32) =~= set![1u32]);
}

} // verus!
