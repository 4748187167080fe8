//! The binary format of the cache files.
//!
//! Integers are written with a fixed width, lowest byte first: a count
//! with four bytes, a length with eight. A text is the length of its UTF-8
//! encoding, then the encoding. An optional value is a byte 0, or a byte 1
//! and the value. A truth value is a byte 0 or 1. A list is its length,
//! then its items; the fields of an item follow each other as they are.
//!
//! No value of the format is the beginning of another: bytes hold at most
//! one value at their start, and what was written is what is read back.

use vstd::prelude::*;
use vstd::utf8::{encode_utf8, encode_utf8_decode_utf8};

verus! {

/// The `k` low bytes of `n`, lowest first.
pub open spec fn le_bytes(n: nat, k: nat) -> Seq<u8>
    decreases k,
{
    if k == 0 {
        Seq::empty()
    } else {
        seq![(n % 256) as u8] + le_bytes(n / 256, (k - 1) as nat)
    }
}

/// 256 to the power `k`: the number of values that `k` bytes tell apart.
pub open spec fn pow256(k: nat) -> nat
    decreases k,
{
    if k == 0 {
        1
    } else {
        256 * pow256((k - 1) as nat)
    }
}

/// Whether a length can be written: it is below `2^64`.
pub open spec fn fits(n: nat) -> bool {
    n < pow256(8)
}

/// A length.
pub open spec fn enc_len(n: nat) -> Seq<u8> {
    le_bytes(n, 8)
}

/// A number of 32 bits.
pub open spec fn enc_u32(n: u32) -> Seq<u8> {
    le_bytes(n as nat, 4)
}

/// A truth value.
pub open spec fn enc_bool(b: bool) -> Seq<u8> {
    seq![if b { 1u8 } else { 0u8 }]
}

/// A text.
pub open spec fn enc_text(s: Seq<char>) -> Seq<u8> {
    enc_len(encode_utf8(s).len()) + encode_utf8(s)
}

/// An optional text.
pub open spec fn enc_opt_text(o: Option<Seq<char>>) -> Seq<u8> {
    match o {
        None => seq![0u8],
        Some(s) => seq![1u8] + enc_text(s),
    }
}

/// An optional number of 32 bits.
pub open spec fn enc_opt_u32(o: Option<u32>) -> Seq<u8> {
    match o {
        None => seq![0u8],
        Some(n) => seq![1u8] + enc_u32(n),
    }
}

/// The items of a list, one after the other.
pub open spec fn enc_items<T>(items: Seq<T>, enc: spec_fn(T) -> Seq<u8>) -> Seq<u8>
    decreases items.len(),
{
    if items.len() == 0 {
        Seq::empty()
    } else {
        enc(items[0]) + enc_items(items.drop_first(), enc)
    }
}

/// A list: its length, then its items.
pub open spec fn enc_seq<T>(items: Seq<T>, enc: spec_fn(T) -> Seq<u8>) -> Seq<u8> {
    enc_len(items.len()) + enc_items(items, enc)
}

/// Whether a text can be written: the length of its encoding fits.
pub open spec fn text_fits(s: Seq<char>) -> bool {
    fits(encode_utf8(s).len())
}

/// Whether an optional text can be written.
pub open spec fn opt_text_fits(o: Option<Seq<char>>) -> bool {
    match o {
        Some(s) => text_fits(s),
        None => true,
    }
}

/// Whether `enc` writes no item that fits as the beginning of another:
/// where two items, each followed by any bytes, give the same bytes, the
/// items are the same and so are the bytes that follow.
#[verifier::opaque]
pub open spec fn tells_apart<T>(enc: spec_fn(T) -> Seq<u8>, ok: spec_fn(T) -> bool) -> bool {
    forall|p: T, q: T, u: Seq<u8>, v: Seq<u8>|
        ok(p) && ok(q) && #[trigger] (enc(p) + u) == #[trigger] (enc(q) + v) ==> p == q && u == v
}

/// Two sequences of the same length that begin the same bytes are the
/// same, and so is what follows them.
pub proof fn lemma_same_length_split<T>(a: Seq<T>, x: Seq<T>, b: Seq<T>, y: Seq<T>)
    requires
        a + x == b + y,
        a.len() == b.len(),
    ensures
        a == b,
        x == y,
{
    assert(a =~= (a + x).subrange(0, a.len() as int));
    assert(b =~= (b + y).subrange(0, b.len() as int));
    assert(x =~= (a + x).subrange(a.len() as int, (a + x).len() as int));
    assert(y =~= (b + y).subrange(b.len() as int, (b + y).len() as int));
}

/// `k` bytes are written for a number.
pub proof fn lemma_le_bytes_len(n: nat, k: nat)
    ensures
        le_bytes(n, k).len() == k,
    decreases k,
{
    if k > 0 {
        lemma_le_bytes_len(n / 256, (k - 1) as nat);
    }
}

/// Numbers that `k` bytes can hold are written differently.
pub proof fn lemma_le_bytes_unique(a: nat, b: nat, k: nat)
    requires
        a < pow256(k),
        b < pow256(k),
        le_bytes(a, k) == le_bytes(b, k),
    ensures
        a == b,
    decreases k,
{
    if k > 0 {
        let ra = le_bytes(a / 256, (k - 1) as nat);
        let rb = le_bytes(b / 256, (k - 1) as nat);
        lemma_le_bytes_len(a / 256, (k - 1) as nat);
        lemma_le_bytes_len(b / 256, (k - 1) as nat);
        lemma_same_length_split(seq![(a % 256) as u8], ra, seq![(b % 256) as u8], rb);
        assert(seq![(a % 256) as u8][0] == seq![(b % 256) as u8][0]);
        assert(a % 256 == b % 256);
        lemma_le_bytes_unique(a / 256, b / 256, (k - 1) as nat);
    }
}

proof fn lemma_pow256_values()
    ensures
        pow256(4) == 0x1_0000_0000,
        pow256(8) == 0x1_0000_0000_0000_0000,
{
    reveal_with_fuel(pow256, 9);
}

/// A length tells itself apart from what follows.
pub proof fn lemma_len_unique(a: nat, b: nat, x: Seq<u8>, y: Seq<u8>)
    requires
        fits(a),
        fits(b),
        enc_len(a) + x == enc_len(b) + y,
    ensures
        a == b,
        x == y,
{
    lemma_le_bytes_len(a, 8);
    lemma_le_bytes_len(b, 8);
    lemma_same_length_split(enc_len(a), x, enc_len(b), y);
    lemma_le_bytes_unique(a, b, 8);
}

/// A number of 32 bits tells itself apart from what follows.
pub proof fn lemma_u32_unique(a: u32, b: u32, x: Seq<u8>, y: Seq<u8>)
    requires
        enc_u32(a) + x == enc_u32(b) + y,
    ensures
        a == b,
        x == y,
{
    lemma_pow256_values();
    lemma_le_bytes_len(a as nat, 4);
    lemma_le_bytes_len(b as nat, 4);
    lemma_same_length_split(enc_u32(a), x, enc_u32(b), y);
    lemma_le_bytes_unique(a as nat, b as nat, 4);
}

/// A truth value tells itself apart from what follows.
pub proof fn lemma_bool_unique(a: bool, b: bool, x: Seq<u8>, y: Seq<u8>)
    requires
        enc_bool(a) + x == enc_bool(b) + y,
    ensures
        a == b,
        x == y,
{
    lemma_same_length_split(enc_bool(a), x, enc_bool(b), y);
    assert(enc_bool(a)[0] == enc_bool(b)[0]);
}

/// A text tells itself apart from what follows.
pub proof fn lemma_text_unique(s: Seq<char>, t: Seq<char>, x: Seq<u8>, y: Seq<u8>)
    requires
        text_fits(s),
        text_fits(t),
        enc_text(s) + x == enc_text(t) + y,
    ensures
        s == t,
        x == y,
{
    let us = encode_utf8(s);
    let ut = encode_utf8(t);
    assert(enc_text(s) + x =~= enc_len(us.len()) + (us + x));
    assert(enc_text(t) + y =~= enc_len(ut.len()) + (ut + y));
    lemma_len_unique(us.len(), ut.len(), us + x, ut + y);
    lemma_same_length_split(us, x, ut, y);
    encode_utf8_decode_utf8(s);
    encode_utf8_decode_utf8(t);
}

/// An optional text tells itself apart from what follows.
pub proof fn lemma_opt_text_unique(
    a: Option<Seq<char>>,
    b: Option<Seq<char>>,
    x: Seq<u8>,
    y: Seq<u8>,
)
    requires
        opt_text_fits(a),
        opt_text_fits(b),
        enc_opt_text(a) + x == enc_opt_text(b) + y,
    ensures
        a == b,
        x == y,
{
    let ta: Seq<u8> = match a {
        Some(s) => enc_text(s),
        None => Seq::empty(),
    };
    let tb: Seq<u8> = match b {
        Some(s) => enc_text(s),
        None => Seq::empty(),
    };
    let tag_a = seq![if a is Some { 1u8 } else { 0u8 }];
    let tag_b = seq![if b is Some { 1u8 } else { 0u8 }];
    assert(enc_opt_text(a) + x =~= tag_a + (ta + x));
    assert(enc_opt_text(b) + y =~= tag_b + (tb + y));
    lemma_same_length_split(tag_a, ta + x, tag_b, tb + y);
    assert(tag_a[0] == tag_b[0]);
    if a is Some {
        lemma_text_unique(a->0, b->0, x, y);
    } else {
        assert(ta + x =~= x);
        assert(tb + y =~= y);
    }
}

/// An optional number tells itself apart from what follows.
pub proof fn lemma_opt_u32_unique(a: Option<u32>, b: Option<u32>, x: Seq<u8>, y: Seq<u8>)
    requires
        enc_opt_u32(a) + x == enc_opt_u32(b) + y,
    ensures
        a == b,
        x == y,
{
    let ta: Seq<u8> = match a {
        Some(n) => enc_u32(n),
        None => Seq::empty(),
    };
    let tb: Seq<u8> = match b {
        Some(n) => enc_u32(n),
        None => Seq::empty(),
    };
    let tag_a = seq![if a is Some { 1u8 } else { 0u8 }];
    let tag_b = seq![if b is Some { 1u8 } else { 0u8 }];
    assert(enc_opt_u32(a) + x =~= tag_a + (ta + x));
    assert(enc_opt_u32(b) + y =~= tag_b + (tb + y));
    lemma_same_length_split(tag_a, ta + x, tag_b, tb + y);
    assert(tag_a[0] == tag_b[0]);
    if a is Some {
        lemma_u32_unique(a->0, b->0, x, y);
    } else {
        assert(ta + x =~= x);
        assert(tb + y =~= y);
    }
}

/// As many items, written one after the other, tell themselves apart from
/// what follows, where each item does.
pub proof fn lemma_items_unique<T>(
    a: Seq<T>,
    b: Seq<T>,
    x: Seq<u8>,
    y: Seq<u8>,
    enc: spec_fn(T) -> Seq<u8>,
    ok: spec_fn(T) -> bool,
)
    requires
        a.len() == b.len(),
        forall|i: int| 0 <= i < a.len() ==> ok(#[trigger] a[i]),
        forall|i: int| 0 <= i < b.len() ==> ok(#[trigger] b[i]),
        tells_apart(enc, ok),
        enc_items(a, enc) + x == enc_items(b, enc) + y,
    ensures
        a == b,
        x == y,
    decreases a.len(),
{
    reveal(tells_apart);
    if a.len() == 0 {
        assert(enc_items(a, enc) + x =~= x);
        assert(enc_items(b, enc) + y =~= y);
        assert(a =~= b);
    } else {
        let ra = enc_items(a.drop_first(), enc);
        let rb = enc_items(b.drop_first(), enc);
        assert(enc_items(a, enc) + x =~= enc(a[0]) + (ra + x));
        assert(enc_items(b, enc) + y =~= enc(b[0]) + (rb + y));
        assert(ok(a[0]) && ok(b[0]));
        assert(a[0] == b[0] && ra + x == rb + y);
        assert forall|i: int| 0 <= i < a.drop_first().len() implies ok(
            #[trigger] a.drop_first()[i],
        ) by {
            assert(a.drop_first()[i] == a[i + 1]);
        }
        assert forall|i: int| 0 <= i < b.drop_first().len() implies ok(
            #[trigger] b.drop_first()[i],
        ) by {
            assert(b.drop_first()[i] == b[i + 1]);
        }
        lemma_items_unique(a.drop_first(), b.drop_first(), x, y, enc, ok);
        assert(a =~= seq![a[0]] + a.drop_first());
        assert(b =~= seq![b[0]] + b.drop_first());
    }
}

/// Bytes are what they begin with and the rest.
pub proof fn lemma_prefix_and_rest(head: Seq<u8>, bytes: Seq<u8>)
    requires
        head.is_prefix_of(bytes),
    ensures
        head + bytes.skip(head.len() as int) == bytes,
{
    assert(head + bytes.skip(head.len() as int) =~= bytes);
}

/// A list tells itself apart from what follows, where each item does.
pub proof fn lemma_seq_unique<T>(
    a: Seq<T>,
    b: Seq<T>,
    x: Seq<u8>,
    y: Seq<u8>,
    enc: spec_fn(T) -> Seq<u8>,
    ok: spec_fn(T) -> bool,
)
    requires
        fits(a.len()),
        fits(b.len()),
        forall|i: int| 0 <= i < a.len() ==> ok(#[trigger] a[i]),
        forall|i: int| 0 <= i < b.len() ==> ok(#[trigger] b[i]),
        tells_apart(enc, ok),
        enc_seq(a, enc) + x == enc_seq(b, enc) + y,
    ensures
        a == b,
        x == y,
{
    assert(enc_seq(a, enc) + x =~= enc_len(a.len()) + (enc_items(a, enc) + x));
    assert(enc_seq(b, enc) + y =~= enc_len(b.len()) + (enc_items(b, enc) + y));
    lemma_len_unique(a.len(), b.len(), enc_items(a, enc) + x, enc_items(b, enc) + y);
    lemma_items_unique(a, b, x, y, enc, ok);
}

} // verus!
