//! The search pipeline: which candidates a query shows, and in what order.
//!
//! A candidate is judged by a fixed list of rules, the first that applies
//! deciding. The candidates that pass are ranked by ascending priority.

use crate::config::HomeType;
use crate::launcher::children::RenderableChild;
use crate::priority::{bits_less, Priority, ONE_BITS};
use crate::search::{fuzzy_match_bytes, fuzzy_matches};
use crate::text::str_eq;
use vstd::prelude::*;
use vstd::string::StringSliceAdditionalSpecFns;
use vstd::utf8::encode_utf8;

verus! {

/// The name of the mode that shows the candidates of every launcher.
pub open spec fn universal_mode() -> Seq<char> {
    "all"@
}

/// The home view: nothing typed, no mode chosen.
pub open spec fn is_home_view(query: Seq<char>, mode: Seq<char>) -> bool {
    query.len() == 0 && mode == universal_mode()
}

/// Whether the mode shuts the candidate out. A candidate of another mode
/// never shows in a named mode; in the universal mode it shows only from
/// priority one on.
pub open spec fn excluded_by_mode(child: RenderableChild, mode: Seq<char>) -> bool {
    child.spec_launcher().alias.deep_view() != Some(mode) && (mode != universal_mode()
        || bits_less(child.spec_priority().bits, ONE_BITS))
}

/// Whether `child` shows for `query` in `mode`. `based_show` is what the
/// candidate itself decided for this query, where it decides at all.
///
/// The rules, the first that applies deciding:
/// the mode shuts the candidate out; the candidate always shows; the
/// candidate decided for itself; a home-only candidate hides from a search;
/// a search-only candidate hides from the home view; the search key must
/// fuzzy-match the query.
pub open spec fn visible(
    child: RenderableChild,
    based_show: Option<bool>,
    query: Seq<char>,
    mode: Seq<char>,
) -> bool {
    let home = child.spec_launcher().home;
    let at_home = is_home_view(query, mode);
    if excluded_by_mode(child, mode) {
        false
    } else if home == HomeType::Persist {
        true
    } else if based_show is Some {
        based_show->0
    } else if !at_home && home == HomeType::OnlyHome {
        false
    } else if at_home && home == HomeType::Search {
        false
    } else {
        fuzzy_matches(encode_utf8(child.spec_search()), encode_utf8(query))
    }
}

/// A candidate that neither always shows nor decided for itself shows only
/// where its search key fuzzy-matches the query, whatever its priority;
/// and, for a query that is not empty, it shows exactly where the key
/// matches, unless the mode or its being home-only shuts it out.
pub proof fn lemma_shown_candidates_match(child: RenderableChild, query: Seq<char>, mode: Seq<char>)
    requires
        child.spec_launcher().home != HomeType::Persist,
    ensures
        visible(child, None, query, mode) ==> fuzzy_matches(
            encode_utf8(child.spec_search()),
            encode_utf8(query),
        ),
        query.len() > 0 && !excluded_by_mode(child, mode) && child.spec_launcher().home
            != HomeType::OnlyHome ==> (visible(child, None, query, mode) <==> fuzzy_matches(
            encode_utf8(child.spec_search()),
            encode_utf8(query),
        )),
{
}

/// Decides whether one candidate shows for `query` in `mode`. Search key
/// and query are compared as they are: the caller lowercases the query.
pub fn is_visible(
    child: &RenderableChild,
    based_show: Option<bool>,
    query: &str,
    mode: &str,
) -> (shown: bool)
    ensures
        shown == visible(*child, based_show, query@, mode@),
{
    let universal = str_eq(mode, "all");
    let in_mode = match child.alias() {
        Some(a) => str_eq(a, mode),
        None => false,
    };
    if !in_mode {
        if !universal || child.priority().less(&Priority::from_bits(ONE_BITS)) {
            return false;
        }
    }
    let home = child.home();
    let at_home = query.is_empty() && universal;
    if home == HomeType::Persist {
        return true;
    }
    match based_show {
        Some(decided) => {
            return decided;
        },
        None => {},
    }
    if !at_home && home == HomeType::OnlyHome {
        return false;
    }
    if at_home && home == HomeType::Search {
        return false;
    }
    fuzzy_match_bytes(child.search().as_bytes(), query.as_bytes())
}

/// A candidate that passed the rules: its index in the snapshot and the
/// priority it is ranked by.
#[derive(Clone, Copy, Debug, PartialEq, Eq, Structural)]
pub struct Ranked {
    pub index: usize,
    pub priority: Priority,
}

/// No element ranks strictly before its predecessor.
pub open spec fn ascending(s: Seq<Ranked>) -> bool {
    forall|k: int| 0 <= k < s.len() - 1 ==> !bits_less(#[trigger] s[k + 1].priority.bits, s[k].priority.bits)
}

/// No element ranks strictly before any earlier element.
pub open spec fn sorted(s: Seq<Ranked>) -> bool {
    forall|a: int, b: int| 0 <= a < b < s.len() ==> !bits_less(s[b].priority.bits, s[a].priority.bits)
}

/// Every priority encodes a number.
pub open spec fn all_numbers(s: Seq<Ranked>) -> bool {
    forall|k: int| 0 <= k < s.len() ==> !(#[trigger] s[k]).priority.spec_is_nan()
}

/// Where every priority is a number, the order of neighbours is the order
/// of the whole list.
pub proof fn lemma_ascending_numbers_sorted(s: Seq<Ranked>)
    requires
        ascending(s),
        all_numbers(s),
    ensures
        sorted(s),
{
    assert forall|a: int, b: int| 0 <= a < b < s.len() implies !bits_less(
        s[b].priority.bits,
        s[a].priority.bits,
    ) by {
        lemma_reach(s, a, b);
    }
}

proof fn lemma_reach(s: Seq<Ranked>, a: int, b: int)
    requires
        ascending(s),
        all_numbers(s),
        0 <= a < b < s.len(),
    ensures
        !bits_less(s[b].priority.bits, s[a].priority.bits),
    decreases b - a,
{
    assert(!s[a].priority.spec_is_nan());
    assert(!s[b].priority.spec_is_nan());
    if a + 1 < b {
        lemma_reach(s, a, b - 1);
        assert(!s[b - 1].priority.spec_is_nan());
        assert(!bits_less(s[b - 1 + 1].priority.bits, s[b - 1].priority.bits));
    } else {
        assert(!bits_less(s[a + 1].priority.bits, s[a].priority.bits));
    }
}

/// The elements of a concatenation are those of its parts.
pub proof fn lemma_concat_multiset<A>(a: Seq<A>, b: Seq<A>)
    ensures
        (a + b).to_multiset() == a.to_multiset().add(b.to_multiset()),
    decreases b.len(),
{
    broadcast use vstd::multiset::group_multiset_axioms;

    if b.len() == 0 {
        assert(a + b =~= a);
        b.to_multiset_ensures();
        assert(b.to_multiset().len() == 0);
        assert(a.to_multiset().add(b.to_multiset()) =~= a.to_multiset());
    } else {
        let head = b.drop_last();
        lemma_concat_multiset(a, head);
        assert(a + b =~= (a + head).push(b.last()));
        assert(b =~= head.push(b.last()));
        vstd::seq_lib::to_multiset_build(a + head, b.last());
        vstd::seq_lib::to_multiset_build(head, b.last());
        assert(a.to_multiset().add(head.to_multiset()).insert(b.last()) =~= a.to_multiset().add(
            head.to_multiset().insert(b.last()),
        ));
    }
}

/// The elements from an index on are the element at the index and the
/// elements after it.
proof fn lemma_skip_multiset<A>(s: Seq<A>, i: int)
    requires
        0 <= i < s.len(),
    ensures
        s.skip(i).to_multiset() == s.skip(i + 1).to_multiset().insert(s[i]),
{
    broadcast use vstd::multiset::group_multiset_axioms;

    assert(s.skip(i) =~= seq![s[i]] + s.skip(i + 1));
    lemma_concat_multiset(seq![s[i]], s.skip(i + 1));
    assert(seq![s[i]] =~= Seq::<A>::empty().push(s[i]));
    vstd::seq_lib::to_multiset_build(Seq::<A>::empty(), s[i]);
    Seq::<A>::empty().to_multiset_ensures();
    assert(Seq::<A>::empty().to_multiset().len() == 0);
    assert(seq![s[i]].to_multiset() =~= vstd::multiset::Multiset::<A>::empty().insert(s[i]));
    assert(seq![s[i]].to_multiset().add(s.skip(i + 1).to_multiset()) =~= s.skip(i + 1).to_multiset().insert(
        s[i],
    ));
}

/// Merges two ascending lists into one. Of two elements of which neither
/// ranks before the other, the one of the left list comes first.
fn merge(left: &Vec<Ranked>, right: &Vec<Ranked>) -> (out: Vec<Ranked>)
    requires
        ascending(left@),
        ascending(right@),
        left@.len() + right@.len() <= usize::MAX,
    ensures
        out@.to_multiset() == left@.to_multiset().add(right@.to_multiset()),
        out@.len() == left@.len() + right@.len(),
        ascending(out@),
{
    broadcast use vstd::multiset::group_multiset_axioms;

    let mut out: Vec<Ranked> = Vec::new();
    let mut i: usize = 0;
    let mut j: usize = 0;
    proof {
        assert(left@.skip(0) =~= left@);
        assert(right@.skip(0) =~= right@);
        out@.to_multiset_ensures();
        assert(out@.to_multiset().len() == 0);
        assert(out@.to_multiset().add(left@.to_multiset()).add(right@.to_multiset())
            =~= left@.to_multiset().add(right@.to_multiset()));
    }
    while i < left.len() || j < right.len()
        invariant
            i <= left@.len(),
            j <= right@.len(),
            out@.len() == i + j,
            ascending(left@),
            ascending(right@),
            ascending(out@),
            out@.to_multiset().add(left@.skip(i as int).to_multiset()).add(
                right@.skip(j as int).to_multiset(),
            ) == left@.to_multiset().add(right@.to_multiset()),
            out@.len() > 0 && i < left@.len() ==> !bits_less(
                left@[i as int].priority.bits,
                out@.last().priority.bits,
            ),
            out@.len() > 0 && j < right@.len() ==> !bits_less(
                right@[j as int].priority.bits,
                out@.last().priority.bits,
            ),
        decreases left@.len() - i + right@.len() - j,
    {
        let ghost before = out@;
        let take_right = if i >= left.len() {
            true
        } else if j >= right.len() {
            false
        } else {
            right[j].priority.less(&left[i].priority)
        };
        if take_right {
            let x = right[j];
            proof {
                lemma_skip_multiset(right@, j as int);
                vstd::seq_lib::to_multiset_build(before, x);
                if j + 1 < right@.len() {
                    assert(!bits_less(right@[j + 1].priority.bits, right@[j as int].priority.bits));
                }
            }
            out.push(x);
            j += 1;
            assert(out@.to_multiset().add(left@.skip(i as int).to_multiset()).add(
                right@.skip(j as int).to_multiset(),
            ) =~= before.to_multiset().add(left@.skip(i as int).to_multiset()).add(
                right@.skip(j - 1).to_multiset(),
            ));
        } else {
            let x = left[i];
            proof {
                lemma_skip_multiset(left@, i as int);
                vstd::seq_lib::to_multiset_build(before, x);
                if i + 1 < left@.len() {
                    assert(!bits_less(left@[i + 1].priority.bits, left@[i as int].priority.bits));
                }
            }
            out.push(x);
            i += 1;
            assert(out@.to_multiset().add(left@.skip(i as int).to_multiset()).add(
                right@.skip(j as int).to_multiset(),
            ) =~= before.to_multiset().add(left@.skip(i - 1).to_multiset()).add(
                right@.skip(j as int).to_multiset(),
            ));
        }
        proof {
            assert forall|k: int| 0 <= k < out@.len() - 1 implies !bits_less(
                #[trigger] out@[k + 1].priority.bits,
                out@[k].priority.bits,
            ) by {
                if k + 1 < before.len() {
                    assert(out@[k + 1] == before[k + 1]);
                    assert(out@[k] == before[k]);
                } else {
                    assert(out@[k] == before.last());
                }
            }
        }
    }
    proof {
        assert(left@.skip(i as int) =~= Seq::<Ranked>::empty());
        assert(right@.skip(j as int) =~= Seq::<Ranked>::empty());
        Seq::<Ranked>::empty().to_multiset_ensures();
        assert(Seq::<Ranked>::empty().to_multiset().len() == 0);
        assert(out@.to_multiset().add(left@.skip(i as int).to_multiset()).add(
            right@.skip(j as int).to_multiset(),
        ) =~= out@.to_multiset());
    }
    out
}

/// The elements of `v[from..to]` in ascending order.
fn sorted_range(v: &Vec<Ranked>, from: usize, to: usize) -> (out: Vec<Ranked>)
    requires
        from <= to <= v@.len(),
    ensures
        out@.to_multiset() == v@.subrange(from as int, to as int).to_multiset(),
        out@.len() == to - from,
        ascending(out@),
    decreases to - from,
{
    if to - from <= 1 {
        let mut out: Vec<Ranked> = Vec::new();
        if to - from == 1 {
            out.push(v[from]);
        }
        assert(out@ =~= v@.subrange(from as int, to as int));
        return out;
    }
    let mid: usize = from + (to - from) / 2;
    let left = sorted_range(v, from, mid);
    let right = sorted_range(v, mid, to);
    let out = merge(&left, &right);
    proof {
        assert(v@.subrange(from as int, to as int) =~= v@.subrange(from as int, mid as int) + v@.subrange(
            mid as int,
            to as int,
        ));
        lemma_concat_multiset(v@.subrange(from as int, mid as int), v@.subrange(mid as int, to as int));
    }
    out
}

/// Sorts by ascending priority: afterwards no element ranks strictly before
/// its predecessor. A priority that encodes no number ranks neither before
/// nor after anything; where there is none, no element ranks strictly
/// before any earlier one.
pub fn sort_by_priority(v: &mut Vec<Ranked>)
    ensures
        final(v)@.to_multiset() == old(v)@.to_multiset(),
        final(v)@.len() == old(v)@.len(),
        ascending(final(v)@),
        all_numbers(old(v)@) ==> sorted(final(v)@),
{
    let ghost start = v@;
    let out = sorted_range(v, 0, v.len());
    assert(start.subrange(0, start.len() as int) =~= start);
    *v = out;
    proof {
        if all_numbers(start) {
            assert forall|k: int| 0 <= k < v@.len() implies !(#[trigger] v@[k]).priority.spec_is_nan() by {
                vstd::seq_lib::to_multiset_contains(v@, v@[k]);
                vstd::seq_lib::to_multiset_contains(start, v@[k]);
                assert(v@.contains(v@[k]));
                let w = choose|w: int| 0 <= w < start.len() && start[w] == v@[k];
                assert(!start[w].priority.spec_is_nan());
            }
            lemma_ascending_numbers_sorted(v@);
        }
    }
}

/// What the candidate at `i` decided for itself, where the list has an
/// entry for it.
pub open spec fn override_at(overrides: Seq<Option<bool>>, i: int) -> Option<bool> {
    if 0 <= i < overrides.len() {
        overrides[i]
    } else {
        None
    }
}

/// Whether the candidate at snapshot index `i` shows.
pub open spec fn shows(
    snapshot: Seq<RenderableChild>,
    overrides: Seq<Option<bool>>,
    query: Seq<char>,
    mode: Seq<char>,
    i: int,
) -> bool {
    0 <= i < snapshot.len() && visible(snapshot[i], override_at(overrides, i), query, mode)
}

/// The candidates that show among the first `n`, in snapshot order, each
/// with its priority.
pub open spec fn shown_upto(
    snapshot: Seq<RenderableChild>,
    overrides: Seq<Option<bool>>,
    query: Seq<char>,
    mode: Seq<char>,
    n: int,
) -> Seq<Ranked>
    decreases n,
{
    if n <= 0 {
        Seq::empty()
    } else {
        let before = shown_upto(snapshot, overrides, query, mode, n - 1);
        if shows(snapshot, overrides, query, mode, n - 1) {
            before.push(Ranked { index: (n - 1) as usize, priority: snapshot[n - 1].spec_priority() })
        } else {
            before
        }
    }
}

/// `shown_upto` lists exactly the candidates that show, each once and
/// with its own priority.
pub proof fn lemma_shown_upto(
    snapshot: Seq<RenderableChild>,
    overrides: Seq<Option<bool>>,
    query: Seq<char>,
    mode: Seq<char>,
    n: int,
)
    requires
        0 <= n <= snapshot.len(),
        snapshot.len() <= usize::MAX,
    ensures
        ({
            let s = shown_upto(snapshot, overrides, query, mode, n);
            &&& s.len() <= n
            &&& forall|k: int|
                0 <= k < s.len() ==> {
                    &&& (#[trigger] s[k]).index < n
                    &&& shows(snapshot, overrides, query, mode, s[k].index as int)
                    &&& s[k].priority == snapshot[s[k].index as int].spec_priority()
                }
            &&& forall|i: int|
                0 <= i < n && shows(snapshot, overrides, query, mode, i) ==> exists|k: int|
                    0 <= k < s.len() && (#[trigger] s[k]).index == i
            &&& forall|a: int, b: int| 0 <= a < b < s.len() ==> s[a].index < s[b].index
        }),
    decreases n,
{
    if n > 0 {
        lemma_shown_upto(snapshot, overrides, query, mode, n - 1);
        let before = shown_upto(snapshot, overrides, query, mode, n - 1);
        let s = shown_upto(snapshot, overrides, query, mode, n);
        assert forall|i: int|
            0 <= i < n && shows(snapshot, overrides, query, mode, i) implies exists|k: int|
            0 <= k < s.len() && (#[trigger] s[k]).index == i by {
            if i < n - 1 {
                let k = choose|k: int| 0 <= k < before.len() && (#[trigger] before[k]).index == i;
                assert(s[k].index == i);
            } else {
                assert(s[s.len() - 1].index == i);
            }
        }
    }
}

/// The indices of the candidates that show for `query` in `mode`, ranked
/// by ascending priority.
///
/// `overrides[i]` is what candidate `i` decided for itself for this query;
/// a candidate without an entry decided nothing. The query is matched as
/// it is given: the caller lowercases it.
pub fn filter_and_sort(
    snapshot: &Vec<RenderableChild>,
    overrides: &Vec<Option<bool>>,
    query: &str,
    mode: &str,
) -> (ranking: Vec<usize>)
    ensures
        // only candidates that show are listed, and each of them once
        ranking@.no_duplicates(),
        ranking@.len() <= snapshot@.len(),
        forall|i: usize|
            ranking@.contains(i) <==> shows(snapshot@, overrides@, query@, mode@, i as int),
        // no candidate ranks strictly before its predecessor
        forall|k: int|
            0 <= k < ranking@.len() - 1 ==> !bits_less(
                snapshot@[(#[trigger] ranking@[k + 1]) as int].spec_priority().bits,
                snapshot@[ranking@[k] as int].spec_priority().bits,
            ),
        // and, where every listed priority is a number, before none at all
        (forall|k: int|
            0 <= k < ranking@.len() ==> !snapshot@[(#[trigger] ranking@[k]) as int].spec_priority().spec_is_nan())
            ==> forall|a: int, b: int|
            0 <= a < b < ranking@.len() ==> !bits_less(
                snapshot@[ranking@[b] as int].spec_priority().bits,
                snapshot@[ranking@[a] as int].spec_priority().bits,
            ),
{
    let mut results: Vec<Ranked> = Vec::new();
    let mut i: usize = 0;
    while i < snapshot.len()
        invariant
            i <= snapshot@.len(),
            results@ == shown_upto(snapshot@, overrides@, query@, mode@, i as int),
        decreases snapshot@.len() - i,
    {
        let decided: Option<bool> = if i < overrides.len() {
            overrides[i]
        } else {
            None
        };
        if is_visible(&snapshot[i], decided, query, mode) {
            results.push(Ranked { index: i, priority: snapshot[i].priority() });
        }
        i += 1;
    }
    let ghost listed = results@;
    proof {
        lemma_shown_upto(snapshot@, overrides@, query@, mode@, snapshot@.len() as int);
        assert(listed.no_duplicates());
    }
    sort_by_priority(&mut results);
    let ghost ranked = results@;
    proof {
        listed.lemma_multiset_has_no_duplicates();
        ranked.lemma_multiset_has_no_duplicates_conv();
        assert forall|k: int| 0 <= k < ranked.len() implies listed.contains(#[trigger] ranked[k]) by {
            vstd::seq_lib::to_multiset_contains(ranked, ranked[k]);
            vstd::seq_lib::to_multiset_contains(listed, ranked[k]);
            assert(ranked.contains(ranked[k]));
        }
        assert forall|k: int| 0 <= k < listed.len() implies ranked.contains(#[trigger] listed[k]) by {
            vstd::seq_lib::to_multiset_contains(ranked, listed[k]);
            vstd::seq_lib::to_multiset_contains(listed, listed[k]);
            assert(listed.contains(listed[k]));
        }
    }
    let mut ranking: Vec<usize> = Vec::new();
    let mut k: usize = 0;
    while k < results.len()
        invariant
            k <= results@.len(),
            results@ == ranked,
            ranking@.len() == k,
            forall|j: int| 0 <= j < k ==> ranking@[j] == ranked[j].index,
        decreases results@.len() - k,
    {
        ranking.push(results[k].index);
        k += 1;
    }
    proof {
        // every ranked element is a listed one: it shows and carries its priority
        assert forall|j: int| 0 <= j < ranked.len() implies {
            &&& shows(snapshot@, overrides@, query@, mode@, (#[trigger] ranked[j]).index as int)
            &&& ranked[j].priority == snapshot@[ranked[j].index as int].spec_priority()
        } by {
            assert(listed.contains(ranked[j]));
            let w = choose|w: int| 0 <= w < listed.len() && listed[w] == ranked[j];
            assert(shows(snapshot@, overrides@, query@, mode@, listed[w].index as int));
        }
        assert forall|a: int, b: int| 0 <= a < b < ranking@.len() implies ranking@[a] != ranking@[b] by {
            if ranked[a].index == ranked[b].index {
                assert(shows(snapshot@, overrides@, query@, mode@, ranked[a].index as int));
                assert(shows(snapshot@, overrides@, query@, mode@, ranked[b].index as int));
                assert(ranked[a] == ranked[b]);
            }
        }
        assert forall|i: usize|
            ranking@.contains(i) <==> shows(snapshot@, overrides@, query@, mode@, i as int) by {
            if ranking@.contains(i) {
                let j = choose|j: int| 0 <= j < ranking@.len() && ranking@[j] == i;
                assert(shows(snapshot@, overrides@, query@, mode@, ranked[j].index as int));
            }
            if shows(snapshot@, overrides@, query@, mode@, i as int) {
                let w = choose|w: int| 0 <= w < listed.len() && (#[trigger] listed[w]).index == i as int;
                assert(ranked.contains(listed[w]));
                let j = choose|j: int| 0 <= j < ranked.len() && ranked[j] == listed[w];
                assert(ranking@[j] == i);
            }
        }
        assert forall|k: int| 0 <= k < ranking@.len() - 1 implies !bits_less(
            snapshot@[(#[trigger] ranking@[k + 1]) as int].spec_priority().bits,
            snapshot@[ranking@[k] as int].spec_priority().bits,
        ) by {
            assert(!bits_less(ranked[k + 1].priority.bits, ranked[k].priority.bits));
            assert(shows(snapshot@, overrides@, query@, mode@, ranked[k].index as int));
            assert(shows(snapshot@, overrides@, query@, mode@, ranked[k + 1].index as int));
        }
        if forall|k: int|
            0 <= k < ranking@.len() ==> !snapshot@[(#[trigger] ranking@[k]) as int].spec_priority().spec_is_nan() {
            assert forall|w: int| 0 <= w < listed.len() implies !(#[trigger] listed[w]).priority.spec_is_nan() by {
                assert(ranked.contains(listed[w]));
                let j = choose|j: int| 0 <= j < ranked.len() && ranked[j] == listed[w];
                assert(shows(snapshot@, overrides@, query@, mode@, ranked[j].index as int));
                assert(ranking@[j] == ranked[j].index);
            }
            assert(all_numbers(listed));
            assert forall|a: int, b: int| 0 <= a < b < ranking@.len() implies !bits_less(
                snapshot@[ranking@[b] as int].spec_priority().bits,
                snapshot@[ranking@[a] as int].spec_priority().bits,
            ) by {
                assert(!bits_less(ranked[b].priority.bits, ranked[a].priority.bits));
                assert(shows(snapshot@, overrides@, query@, mode@, ranked[a].index as int));
                assert(shows(snapshot@, overrides@, query@, mode@, ranked[b].index as int));
            }
        }
    }
    ranking
}

} // verus!
