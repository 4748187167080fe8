//! Bounded-window fuzzy matching over byte strings.
//!
//! A pattern matches a haystack when its first byte occurs somewhere in the
//! haystack and every following pattern byte is found, in order, within a
//! window of [`WINDOW_SIZE`] bytes after the previous match. Each step takes
//! the first occurrence inside its window, so the gap between two matched
//! bytes is bounded and the choice of positions is fixed by the anchor.

use vstd::prelude::*;
use vstd::slice::slice_subrange;
use vstd::string::StringSliceAdditionalSpecFns;

verus! {

/// Number of haystack bytes inspected for each pattern byte after the anchor.
pub const WINDOW_SIZE: usize = 5;

/// The first index in `[from, limit)` at which `target` holds `byte`, or `-1`
/// when the byte does not occur in that range.
pub open spec fn first_in_window(target: Seq<u8>, from: int, limit: int, byte: u8) -> int
    decreases limit - from,
{
    if from >= limit || from < 0 || limit > target.len() {
        -1
    } else if target[from] == byte {
        from
    } else {
        first_in_window(target, from + 1, limit, byte)
    }
}

/// The end of the window that starts at `from`: `window` bytes later, or the
/// end of the target if that comes first.
pub open spec fn window_limit(target: Seq<u8>, from: int, window: int) -> int {
    if from + window < target.len() {
        from + window
    } else {
        target.len() as int
    }
}

/// Whether the pattern bytes from index `k` on can be matched in order,
/// starting the search for `pattern[k]` at `target[from]`, each byte being
/// taken at its first occurrence within `window` bytes.
pub open spec fn chain_matches(
    pattern: Seq<u8>,
    k: int,
    target: Seq<u8>,
    from: int,
    window: int,
) -> bool
    decreases pattern.len() - k,
{
    if k >= pattern.len() {
        true
    } else {
        let found = first_in_window(target, from, window_limit(target, from, window), pattern[k]);
        found >= 0 && chain_matches(pattern, k + 1, target, found + 1, window)
    }
}

/// Whether the match succeeds when the first pattern byte is anchored at
/// `haystack[anchor]`.
pub open spec fn matches_at(haystack: Seq<u8>, pattern: Seq<u8>, anchor: int) -> bool {
    &&& 0 <= anchor < haystack.len()
    &&& pattern.len() > 0
    &&& haystack[anchor] == pattern[0]
    &&& chain_matches(pattern, 1, haystack, anchor + 1, WINDOW_SIZE as int)
}

/// The fuzzy match relation: the empty pattern matches everything, any other
/// pattern matches when some anchor succeeds.
pub open spec fn fuzzy_matches(haystack: Seq<u8>, pattern: Seq<u8>) -> bool {
    pattern.len() == 0 || exists|anchor: int| matches_at(haystack, pattern, anchor)
}

/// `first_in_window` returns either `-1` or an index in range that holds the
/// byte and is preceded, from `from` on, only by other bytes.
pub proof fn lemma_first_in_window(target: Seq<u8>, from: int, limit: int, byte: u8)
    requires
        0 <= from,
        limit <= target.len(),
    ensures
        ({
            let r = first_in_window(target, from, limit, byte);
            &&& r == -1 || (from <= r < limit && target[r] == byte)
            &&& forall|i: int| from <= i < limit && (r == -1 || i < r) ==> target[i] != byte
        }),
    decreases limit - from,
{
    if from < limit && target[from] != byte {
        lemma_first_in_window(target, from + 1, limit, byte);
    }
}

/// Matching a chain against a suffix of the target is matching it against
/// the whole target at shifted positions.
pub proof fn lemma_chain_on_suffix(
    pattern: Seq<u8>,
    k: int,
    target: Seq<u8>,
    start: int,
    from: int,
    window: int,
)
    requires
        0 <= start <= target.len(),
        0 <= from,
        0 <= k,
        0 <= window,
    ensures
        chain_matches(pattern, k, target.skip(start), from, window) == chain_matches(
            pattern,
            k,
            target,
            start + from,
            window,
        ),
    decreases pattern.len() - k,
{
    if k < pattern.len() {
        let suffix = target.skip(start);
        let limit_s = window_limit(suffix, from, window);
        let limit_t = window_limit(target, start + from, window);
        assert(limit_t == start + limit_s);
        lemma_first_on_suffix(target, start, from, limit_s, pattern[k]);
        lemma_first_in_window(suffix, from, limit_s, pattern[k]);
        let found = first_in_window(suffix, from, limit_s, pattern[k]);
        if found >= 0 {
            lemma_chain_on_suffix(pattern, k + 1, target, start, found + 1, window);
        }
    }
}

proof fn lemma_first_on_suffix(target: Seq<u8>, start: int, from: int, limit: int, byte: u8)
    requires
        0 <= start <= target.len(),
        0 <= from,
    ensures
        ({
            let s = first_in_window(target.skip(start), from, limit, byte);
            let t = first_in_window(target, start + from, start + limit, byte);
            if s == -1 {
                t == -1
            } else {
                t == start + s
            }
        }),
    decreases limit - from,
{
    let suffix = target.skip(start);
    if from < limit && limit <= suffix.len() {
        if suffix[from] != byte {
            lemma_first_on_suffix(target, start, from + 1, limit, byte);
        }
    }
}

/// `memchr::memchr`: the index of the first occurrence of `needle` in
/// `haystack`, or `None` when the byte does not occur.
pub assume_specification[ memchr::memchr ](needle: u8, haystack: &[u8]) -> (found: Option<usize>)
    ensures
        match found {
            Some(i) => {
                &&& i < haystack@.len()
                &&& haystack@[i as int] == needle
                &&& forall|j: int| 0 <= j < i ==> haystack@[j] != needle
            },
            None => forall|j: int| 0 <= j < haystack@.len() ==> haystack@[j] != needle,
        },
;

/// Checks the pattern bytes after the first against `target`, whose first
/// byte is the anchor that already matched `pattern[0]`.
pub fn sequential_check(pattern: &[u8], target: &[u8], window_size: usize) -> (matched: bool)
    requires
        pattern@.len() >= 1,
    ensures
        matched == chain_matches(pattern@, 1, target@, 1, window_size as int),
{
    let mut t_idx: usize = 1;
    let mut k: usize = 1;
    while k < pattern.len()
        invariant
            1 <= k <= pattern@.len(),
            1 <= t_idx,
            t_idx <= target@.len() || t_idx == 1,
            chain_matches(pattern@, 1, target@, 1, window_size as int) == chain_matches(
                pattern@,
                k as int,
                target@,
                t_idx as int,
                window_size as int,
            ),
        decreases pattern@.len() - k,
    {
        let pattern_char = pattern[k];
        let limit: usize = if window_size < target.len() && t_idx < target.len() - window_size {
            t_idx + window_size
        } else {
            target.len()
        };
        let ghost from = t_idx as int;
        let mut found = false;
        while t_idx < limit
            invariant_except_break
                t_idx <= limit || t_idx == from,
                !found,
                first_in_window(target@, from, limit as int, pattern_char) == first_in_window(
                    target@,
                    t_idx as int,
                    limit as int,
                    pattern_char,
                ),
            invariant
                from <= t_idx,
                limit <= target@.len(),
                limit as int == window_limit(target@, from, window_size as int),
            ensures
                from <= t_idx,
                t_idx <= target@.len() || t_idx == from,
                found ==> t_idx == first_in_window(target@, from, limit as int, pattern_char) + 1,
                !found ==> first_in_window(target@, from, limit as int, pattern_char) == -1,
            decreases limit - t_idx,
        {
            if target[t_idx] == pattern_char {
                t_idx += 1;
                found = true;
                break;
            }
            t_idx += 1;
        }
        if !found {
            return false;
        }
        k += 1;
    }
    true
}

/// Whether `pattern` fuzzy-matches `haystack`, byte for byte. Neither side
/// is case folded.
pub fn fuzzy_match_bytes(haystack: &[u8], pattern: &[u8]) -> (matched: bool)
    ensures
        matched == fuzzy_matches(haystack@, pattern@),
        pattern@.len() == 0 ==> matched,
        haystack@.len() == 0 && pattern@.len() > 0 ==> !matched,
{
    if pattern.len() == 0 {
        return true;
    }
    if haystack.len() == 0 {
        return false;
    }
    let mut start: usize = 0;
    loop
        invariant
            pattern@.len() > 0,
            start < haystack@.len(),
            forall|anchor: int| 0 <= anchor < start ==> !matches_at(haystack@, pattern@, anchor),
        decreases haystack@.len() - start,
    {
        let rest = slice_subrange(haystack, start, haystack.len());
        match memchr::memchr(pattern[0], rest) {
            None => {
                assert forall|anchor: int| !matches_at(haystack@, pattern@, anchor) by {
                    if start <= anchor < haystack@.len() {
                        assert(rest@[anchor - start] == haystack@[anchor]);
                    }
                }
                return false;
            },
            Some(pos) => {
                let anchor: usize = start + pos;
                let anchored = slice_subrange(haystack, anchor, haystack.len());
                let ok = sequential_check(pattern, anchored, WINDOW_SIZE);
                proof {
                    assert(anchored@ == haystack@.skip(anchor as int));
                    lemma_chain_on_suffix(
                        pattern@,
                        1,
                        haystack@,
                        anchor as int,
                        1,
                        WINDOW_SIZE as int,
                    );
                    assert(rest@[pos as int] == haystack@[anchor as int]);
                    assert forall|a: int| start <= a < anchor implies !matches_at(
                        haystack@,
                        pattern@,
                        a,
                    ) by {
                        assert(rest@[a - start] == haystack@[a]);
                    }
                }
                if ok {
                    assert(matches_at(haystack@, pattern@, anchor as int));
                    return true;
                }
                if anchor + 1 >= haystack.len() {
                    assert forall|a: int| !matches_at(haystack@, pattern@, a) by {}
                    return false;
                }
                start = anchor + 1;
            },
        }
    }
}

/// Fuzzy matching of a search key against a query.
pub trait SherlockSearch {
    /// The bytes that are matched: the UTF-8 encoding of the text.
    spec fn search_bytes(&self) -> Seq<u8>;

    /// Whether `substring` fuzzy-matches this text. Both sides should
    /// already be lowercased: the matcher folds no case.
    fn fuzzy_match(&self, substring: &str) -> (matched: bool)
        ensures
            matched == fuzzy_matches(self.search_bytes(), substring.spec_bytes()),
            substring@.len() == 0 ==> matched,
            self.search_bytes().len() == 0 && substring@.len() > 0 ==> !matched,
    ;
}

impl SherlockSearch for str {
    open spec fn search_bytes(&self) -> Seq<u8> {
        self.spec_bytes()
    }

    fn fuzzy_match(&self, substring: &str) -> (matched: bool) {
        proof {
            lemma_encoding_empty_iff(substring@);
        }
        fuzzy_match_bytes(self.as_bytes(), substring.as_bytes())
    }
}

impl SherlockSearch for String {
    open spec fn search_bytes(&self) -> Seq<u8> {
        vstd::utf8::encode_utf8(self@)
    }

    fn fuzzy_match(&self, substring: &str) -> (matched: bool) {
        proof {
            lemma_encoding_empty_iff(substring@);
        }
        fuzzy_match_bytes(self.as_str().as_bytes(), substring.as_bytes())
    }
}

/// A text is empty exactly when its UTF-8 encoding is.
pub proof fn lemma_encoding_empty_iff(chars: Seq<char>)
    ensures
        (vstd::utf8::encode_utf8(chars).len() == 0) == (chars.len() == 0),
{
    reveal_with_fuel(vstd::utf8::encode_utf8, 2);
    if chars.len() > 0 {
        vstd::utf8::encode_utf8_first_scalar(chars);
    }
}

} // verus!
