//! The mathematical model: what it means to search, split and strip a
//! sequence of characters, and to enter key-value pairs into a mapping.

use vstd::prelude::*;

verus! {

/// `pat` occurs in `s` at position `i`.
pub open spec fn matches_at(s: Seq<char>, pat: Seq<char>, i: int) -> bool {
    &&& 0 <= i
    &&& i + pat.len() <= s.len()
    &&& s.subrange(i, i + pat.len()) == pat
}

/// `pat` occurs in `s` at position `i` and at no earlier position.
pub open spec fn is_first_match(s: Seq<char>, pat: Seq<char>, i: int) -> bool {
    &&& matches_at(s, pat, i)
    &&& forall|j: int| 0 <= j < i ==> !matches_at(s, pat, j)
}

/// The least position at which `pat` occurs in `s`, if it occurs at all.
pub open spec fn first_match(s: Seq<char>, pat: Seq<char>) -> Option<int> {
    if exists|i: int| is_first_match(s, pat, i) {
        Some(choose|i: int| is_first_match(s, pat, i))
    } else {
        None
    }
}

/// `s` cut in two at the first occurrence of `sep`: what stands before it and
/// what stands after it. `None` where `sep` does not occur in `s`.
pub open spec fn split_once(s: Seq<char>, sep: Seq<char>) -> Option<(Seq<char>, Seq<char>)> {
    match first_match(s, sep) {
        Some(i) => Some((s.take(i), s.skip(i + sep.len()))),
        None => None,
    }
}

/// Each character of `s` as a sequence of its own.
pub open spec fn singles(s: Seq<char>) -> Seq<Seq<char>> {
    Seq::new(s.len(), |i: int| seq![s[i]])
}

/// The segments that an empty separator cuts `s` into: an empty segment, then
/// each character by itself, then an empty segment.
pub open spec fn split_between_chars(s: Seq<char>) -> Seq<Seq<char>> {
    seq![Seq::<char>::empty()] + singles(s) + seq![Seq::<char>::empty()]
}

/// The segments that `sep` cuts `s` into, in order. Occurrences of `sep` are
/// taken from left to right and do not overlap.
pub open spec fn split(s: Seq<char>, sep: Seq<char>) -> Seq<Seq<char>>
    decreases s.len(),
{
    if sep.len() == 0 {
        split_between_chars(s)
    } else {
        match first_match(s, sep) {
            Some(i) => seq![s.take(i)] + split(s.skip(i + sep.len()), sep),
            None => seq![s],
        }
    }
}

/// The text that holds `segments` in order, with `sep` between each two.
pub open spec fn join(segments: Seq<Seq<char>>, sep: Seq<char>) -> Seq<char>
    decreases segments.len(),
{
    if segments.len() == 0 {
        Seq::empty()
    } else if segments.len() == 1 {
        segments[0]
    } else {
        segments[0] + sep + join(segments.drop_first(), sep)
    }
}

/// `s` ends with `suffix`.
pub open spec fn ends_with(s: Seq<char>, suffix: Seq<char>) -> bool {
    suffix.len() <= s.len() && s.skip(s.len() - suffix.len()) == suffix
}

/// `s` without one line terminator at its end: a carriage return with a line
/// feed where `s` ends with both, else a line feed alone. A text that ends with
/// neither is left as it is.
pub open spec fn strip_trailing_newline(s: Seq<char>) -> Seq<char> {
    if ends_with(s, seq!['\r', '\n']) {
        s.take(s.len() - 2)
    } else if ends_with(s, seq!['\n']) {
        s.take(s.len() - 1)
    } else {
        s
    }
}

/// The mapping that results from entering the pairs of `segments` into
/// `entries`, one after the other. Each segment is cut at the first occurrence
/// of `sep` into a key and a value, and a later pair replaces an earlier one
/// with the same key. The first segment in which `sep` does not occur is the
/// error.
pub open spec fn insert_pairs(
    entries: Map<Seq<char>, Seq<char>>,
    segments: Seq<Seq<char>>,
    sep: Seq<char>,
) -> Result<Map<Seq<char>, Seq<char>>, Seq<char>>
    decreases segments.len(),
{
    if segments.len() == 0 {
        Ok(entries)
    } else {
        match split_once(segments[0], sep) {
            Some((key, value)) => insert_pairs(
                entries.insert(key, value),
                segments.drop_first(),
                sep,
            ),
            None => Err(segments[0]),
        }
    }
}

/// What reading `text` does to `entries`: one trailing line terminator is
/// taken off, the rest is cut into segments at `pair_sep`, and the pair of
/// each segment is entered.
pub open spec fn parse(
    entries: Map<Seq<char>, Seq<char>>,
    text: Seq<char>,
    pair_sep: Seq<char>,
    key_value_sep: Seq<char>,
) -> Result<Map<Seq<char>, Seq<char>>, Seq<char>> {
    insert_pairs(entries, split(strip_trailing_newline(text), pair_sep), key_value_sep)
}

/// The key of the `i`-th of `segments`: what stands before its first `sep`.
pub open spec fn key_at(segments: Seq<Seq<char>>, sep: Seq<char>, i: int) -> Seq<char> {
    split_once(segments[i], sep).unwrap().0
}

/// The value of the `i`-th of `segments`: what stands after its first `sep`.
pub open spec fn value_at(segments: Seq<Seq<char>>, sep: Seq<char>, i: int) -> Seq<char> {
    split_once(segments[i], sep).unwrap().1
}

/// The segment that holds `key` and `value` with `sep` between them, for each
/// of `pairs`.
pub open spec fn segments_of(pairs: Seq<(Seq<char>, Seq<char>)>, sep: Seq<char>) -> Seq<
    Seq<char>,
> {
    Seq::new(pairs.len(), |i: int| pairs[i].0 + sep + pairs[i].1)
}

/// `entries` after each of `pairs` was entered, one after the other.
pub open spec fn insert_all(
    entries: Map<Seq<char>, Seq<char>>,
    pairs: Seq<(Seq<char>, Seq<char>)>,
) -> Map<Seq<char>, Seq<char>>
    decreases pairs.len(),
{
    if pairs.len() == 0 {
        entries
    } else {
        insert_all(entries.insert(pairs[0].0, pairs[0].1), pairs.drop_first())
    }
}

/// Where `pat` occurs at `i` and no earlier, `first_match` is `i`.
pub proof fn lemma_first_match_is(s: Seq<char>, pat: Seq<char>, i: int)
    requires
        is_first_match(s, pat, i),
    ensures
        first_match(s, pat) == Some(i),
{
    let j = choose|j: int| is_first_match(s, pat, j);
    if j < i {
    } else if i < j {
    }
}

/// Where `pat` occurs at `i`, it has a first occurrence, at `i` or before it.
pub proof fn lemma_match_has_first(s: Seq<char>, pat: Seq<char>, i: int)
    requires
        matches_at(s, pat, i),
    ensures
        first_match(s, pat) is Some,
        first_match(s, pat).unwrap() <= i,
    decreases i,
{
    if exists|j: int| 0 <= j < i && matches_at(s, pat, j) {
        let j = choose|j: int| 0 <= j < i && matches_at(s, pat, j);
        lemma_match_has_first(s, pat, j);
    } else {
        lemma_first_match_is(s, pat, i);
    }
}

/// `first_match` is `None` exactly where `pat` occurs nowhere in `s`.
pub proof fn lemma_first_match_none(s: Seq<char>, pat: Seq<char>)
    ensures
        first_match(s, pat) is None <==> forall|i: int| !matches_at(s, pat, i),
{
    if first_match(s, pat) is None {
        assert forall|i: int| !matches_at(s, pat, i) by {
            if matches_at(s, pat, i) {
                lemma_match_has_first(s, pat, i);
            }
        }
    }
}

/// An occurrence in what follows the first `k` characters of `s` is an
/// occurrence in `s`, `k` positions further on.
pub proof fn lemma_match_shift(s: Seq<char>, pat: Seq<char>, k: int, i: int)
    requires
        0 <= k <= s.len(),
        0 <= i,
    ensures
        matches_at(s.skip(k), pat, i) <==> matches_at(s, pat, k + i),
{
    if i + pat.len() <= s.len() - k {
        assert(s.skip(k).subrange(i, i + pat.len()) =~= s.subrange(k + i, k + i + pat.len()));
    }
}

} // verus!
