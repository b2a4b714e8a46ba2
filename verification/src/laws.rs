//! What holds of every text, every choice of separators and every mapping.

use crate::mapping::FileToMapView;
use crate::mapping::{default_key_value_separator, default_pair_separator};
use crate::model::{
    ends_with, first_match, insert_all, insert_pairs, is_first_match, join, key_at,
    lemma_first_match_is, lemma_first_match_none, lemma_match_has_first, matches_at, parse,
    segments_of, singles, split, split_once, strip_trailing_newline, value_at,
};
use vstd::prelude::*;

verus! {

/// Stripping takes off one line terminator and nothing else: the text is what
/// is left, followed by a carriage return and a line feed, by a line feed
/// alone, or by nothing.
pub proof fn lemma_strip_takes_one_terminator(s: Seq<char>)
    ensures
        ends_with(s, seq!['\r', '\n']) ==> s == strip_trailing_newline(s) + seq!['\r', '\n'],
        !ends_with(s, seq!['\r', '\n']) && ends_with(s, seq!['\n']) ==> s
            == strip_trailing_newline(s) + seq!['\n'],
        !ends_with(s, seq!['\n']) ==> s == strip_trailing_newline(s),
{
    if !ends_with(s, seq!['\n']) && ends_with(s, seq!['\r', '\n']) {
        assert(s.skip(s.len() - 1) =~= s.skip(s.len() - 2).skip(1));
        assert(seq!['\r', '\n'].skip(1) =~= seq!['\n']);
    }
}

/// Stripping a second time changes nothing, except where what the first
/// stripping left still ends with a line feed: there the second stripping
/// takes one more terminator off.
pub proof fn lemma_strip_twice(s: Seq<char>)
    ensures
        !ends_with(strip_trailing_newline(s), seq!['\n']) ==> strip_trailing_newline(
            strip_trailing_newline(s),
        ) == strip_trailing_newline(s),
        ends_with(strip_trailing_newline(s), seq!['\n']) ==> strip_trailing_newline(
            strip_trailing_newline(s),
        ) != strip_trailing_newline(s),
{
    lemma_strip_takes_one_terminator(strip_trailing_newline(s));
}

/// A text is cut into at least one segment.
pub proof fn lemma_split_is_not_empty(s: Seq<char>, sep: Seq<char>)
    ensures
        split(s, sep).len() >= 1,
{
}

/// The characters of `s`, each by itself and followed by one empty segment,
/// joined with nothing between them give `s`.
proof fn lemma_join_singles(s: Seq<char>)
    ensures
        join(singles(s) + seq![Seq::<char>::empty()], Seq::empty()) == s,
    decreases s.len(),
{
    let segments = singles(s) + seq![Seq::<char>::empty()];
    if s.len() > 0 {
        lemma_join_singles(s.drop_first());
        assert(segments.drop_first() =~= singles(s.drop_first()) + seq![Seq::<char>::empty()]);
    }
}

/// Nothing is lost: the segments of a text, joined with the separator between
/// each two, give the text.
pub proof fn lemma_join_of_split(s: Seq<char>, sep: Seq<char>)
    ensures
        join(split(s, sep), sep) == s,
    decreases s.len(),
{
    let segments = split(s, sep);
    if sep.len() == 0 {
        lemma_join_singles(s);
        assert(segments.drop_first() =~= singles(s) + seq![Seq::<char>::empty()]);
    } else if let Some(i) = first_match(s, sep) {
        let rest = s.skip(i + sep.len());
        lemma_join_of_split(rest, sep);
        lemma_split_is_not_empty(rest, sep);
        assert(segments.drop_first() =~= split(rest, sep));
    }
}

/// The separator occurs in no segment, unless it is empty.
pub proof fn lemma_segments_hold_no_separator(s: Seq<char>, sep: Seq<char>, k: int)
    requires
        sep.len() > 0,
        0 <= k < split(s, sep).len(),
    ensures
        first_match(split(s, sep)[k], sep) is None,
    decreases s.len(),
{
    if let Some(i) = first_match(s, sep) {
        if k == 0 {
            let head = s.take(i);
            assert forall|j: int| !matches_at(head, sep, j) by {
                if matches_at(head, sep, j) {
                    assert(s.subrange(j, j + sep.len()) =~= head.subrange(j, j + sep.len()));
                    assert(matches_at(s, sep, j));
                }
            }
            lemma_first_match_none(head, sep);
        } else {
            lemma_segments_hold_no_separator(s.skip(i + sep.len()), sep, k - 1);
        }
    }
}

/// Splitting undoes joining: where the separator occurs in no segment, nor
/// earlier than at the end of a segment with the separator behind it, the
/// joined text is cut into the segments it was made of.
pub proof fn lemma_split_of_join(segments: Seq<Seq<char>>, sep: Seq<char>)
    requires
        sep.len() > 0,
        segments.len() > 0,
        forall|k: int|
            0 <= k < segments.len() - 1 ==> is_first_match(
                #[trigger] segments[k] + sep,
                sep,
                segments[k].len() as int,
            ),
        first_match(segments.last(), sep) is None,
    ensures
        split(join(segments, sep), sep) == segments,
    decreases segments.len(),
{
    if segments.len() > 1 {
        let head = segments[0];
        let tail = segments.drop_first();
        let text = join(segments, sep);
        let at = head.len() as int;
        assert(text.subrange(at, at + sep.len()) =~= sep);
        assert forall|j: int| 0 <= j < at implies !matches_at(text, sep, j) by {
            assert(text.subrange(j, j + sep.len()) =~= (head + sep).subrange(j, j + sep.len()));
            assert(!matches_at(head + sep, sep, j));
        }
        lemma_first_match_is(text, sep, at);
        assert(text.take(at) =~= head);
        assert(text.skip(at + sep.len()) =~= join(tail, sep));
        lemma_split_of_join(tail, sep);
    }
}

/// A text that ends with a separator of one character has an empty last
/// segment.
pub proof fn lemma_last_segment_is_empty(s: Seq<char>, c: char)
    ensures
        split(s.push(c), seq![c]).last() == Seq::<char>::empty(),
    decreases s.len(),
{
    let text = s.push(c);
    let sep = seq![c];
    let end = s.len() as int;
    assert(text.subrange(end, end + 1) =~= sep);
    lemma_match_has_first(text, sep, end);
    let i = first_match(text, sep).unwrap();
    let rest = text.skip(i + 1);
    lemma_split_is_not_empty(rest, sep);
    if i == end {
        lemma_first_match_none(rest, sep);
    } else {
        assert(rest =~= s.skip(i + 1).push(c));
        lemma_last_segment_is_empty(s.skip(i + 1), c);
    }
}

/// Only one line terminator is taken off: a text that ends with two line
/// feeds keeps an empty last line, which has no key-value separator, so that
/// the text cannot be read.
pub proof fn lemma_blank_last_line_fails(
    entries: Map<Seq<char>, Seq<char>>,
    text: Seq<char>,
    key_value_sep: Seq<char>,
)
    requires
        ends_with(text, seq!['\n', '\n']),
        key_value_sep.len() > 0,
    ensures
        split(strip_trailing_newline(text), seq!['\n']).last() == Seq::<char>::empty(),
        parse(entries, text, seq!['\n'], key_value_sep) is Err,
{
    let stripped = strip_trailing_newline(text);
    let shorter = text.take(text.len() - 2);
    assert(text.skip(text.len() - 1) =~= seq!['\n']);
    assert(stripped =~= shorter.push('\n'));
    lemma_last_segment_is_empty(shorter, '\n');
    let segments = split(stripped, seq!['\n']);
    lemma_split_is_not_empty(stripped, seq!['\n']);
    lemma_first_match_none(Seq::<char>::empty(), key_value_sep);
    lemma_first_bad_segment_fails(entries, segments, key_value_sep);
}

/// The two separators are set independently of each other: the order of the
/// two calls does not matter.
pub proof fn lemma_separators_commute(v: FileToMapView, pair: Seq<char>, key_value: Seq<char>)
    ensures
        v.with_pair_separator(pair).with_key_value_separator(key_value)
            == v.with_key_value_separator(key_value).with_pair_separator(pair),
        v.with_pair_separator(pair).key_value_separator == v.key_value_separator,
        v.with_key_value_separator(key_value).pair_separator == v.pair_separator,
{
}

/// Of several values given to one separator, the last one stands.
pub proof fn lemma_last_separator_wins(v: FileToMapView, first: Seq<char>, second: Seq<char>)
    ensures
        v.with_pair_separator(first).with_pair_separator(second) == v.with_pair_separator(
            second,
        ),
        v.with_key_value_separator(first).with_key_value_separator(second)
            == v.with_key_value_separator(second),
{
}

/// Entering pairs fails exactly where some segment has no separator, and the
/// error is the first such segment.
pub proof fn lemma_first_bad_segment_fails(
    entries: Map<Seq<char>, Seq<char>>,
    segments: Seq<Seq<char>>,
    sep: Seq<char>,
)
    ensures
        match insert_pairs(entries, segments, sep) {
            Ok(_) => forall|i: int|
                0 <= i < segments.len() ==> split_once(#[trigger] segments[i], sep) is Some,
            Err(bad) => exists|i: int|
                {
                    &&& 0 <= i < segments.len()
                    &&& #[trigger] segments[i] == bad
                    &&& split_once(segments[i], sep) is None
                    &&& forall|j: int| 0 <= j < i ==> split_once(#[trigger] segments[j], sep) is Some
                },
        },
    decreases segments.len(),
{
    if segments.len() > 0 {
        match split_once(segments[0], sep) {
            Some((key, value)) => {
                let rest = segments.drop_first();
                lemma_first_bad_segment_fails(entries.insert(key, value), rest, sep);
                match insert_pairs(entries.insert(key, value), rest, sep) {
                    Ok(_) => {
                        assert forall|i: int| 0 <= i < segments.len() implies split_once(
                            #[trigger] segments[i],
                            sep,
                        ) is Some by {
                            if i > 0 {
                                assert(segments[i] == rest[i - 1]);
                            }
                        }
                    },
                    Err(bad) => {
                        let i = choose|i: int|
                            {
                                &&& 0 <= i < rest.len()
                                &&& #[trigger] rest[i] == bad
                                &&& split_once(rest[i], sep) is None
                                &&& forall|j: int|
                                    0 <= j < i ==> split_once(#[trigger] rest[j], sep) is Some
                            };
                        assert forall|j: int| 0 <= j < i + 1 implies split_once(
                            #[trigger] segments[j],
                            sep,
                        ) is Some by {
                            if j > 0 {
                                assert(segments[j] == rest[j - 1]);
                            }
                        }
                    },
                }
            },
            None => {},
        }
    }
}

/// A key that no segment has keeps what it had before: it is in the mapping
/// after the pairs were entered exactly if it was there before, with the same
/// value.
pub proof fn lemma_other_keys_stay(
    entries: Map<Seq<char>, Seq<char>>,
    segments: Seq<Seq<char>>,
    sep: Seq<char>,
    key: Seq<char>,
)
    requires
        insert_pairs(entries, segments, sep) is Ok,
        forall|i: int| 0 <= i < segments.len() ==> key_at(segments, sep, i) != key,
    ensures
        insert_pairs(entries, segments, sep) matches Ok(after) && {
            &&& after.contains_key(key) == entries.contains_key(key)
            &&& entries.contains_key(key) ==> after[key] == entries[key]
        },
    decreases segments.len(),
{
    if segments.len() > 0 {
        let (first_key, first_value) = split_once(segments[0], sep).unwrap();
        let rest = segments.drop_first();
        assert(key_at(segments, sep, 0) != key);
        assert forall|i: int| 0 <= i < rest.len() implies key_at(rest, sep, i) != key by {
            assert(key_at(segments, sep, i + 1) != key);
        }
        lemma_other_keys_stay(entries.insert(first_key, first_value), rest, sep, key);
    }
}

/// Last write wins: where the `i`-th segment has `key` and no later segment
/// has it, the mapping gives `key` the value of the `i`-th segment.
pub proof fn lemma_last_pair_wins(
    entries: Map<Seq<char>, Seq<char>>,
    segments: Seq<Seq<char>>,
    sep: Seq<char>,
    key: Seq<char>,
    i: int,
)
    requires
        insert_pairs(entries, segments, sep) is Ok,
        0 <= i < segments.len(),
        key_at(segments, sep, i) == key,
        forall|j: int| i < j < segments.len() ==> key_at(segments, sep, j) != key,
    ensures
        insert_pairs(entries, segments, sep) matches Ok(after) && {
            &&& after.contains_key(key)
            &&& after[key] == value_at(segments, sep, i)
        },
    decreases segments.len(),
{
    let (first_key, first_value) = split_once(segments[0], sep).unwrap();
    let rest = segments.drop_first();
    let entered = entries.insert(first_key, first_value);
    if i == 0 {
        assert forall|j: int| 0 <= j < rest.len() implies key_at(rest, sep, j) != key by {
            assert(key_at(segments, sep, j + 1) != key);
        }
        lemma_other_keys_stay(entered, rest, sep, key);
    } else {
        assert forall|j: int| i - 1 < j < rest.len() implies key_at(rest, sep, j) != key by {
            assert(key_at(segments, sep, j + 1) != key);
        }
        lemma_last_pair_wins(entered, rest, sep, key, i - 1);
    }
}

/// A key, the separator and a value are cut into the key and the value, where
/// the separator does not occur earlier than behind the key.
pub proof fn lemma_split_once_of_pair(key: Seq<char>, value: Seq<char>, sep: Seq<char>)
    requires
        is_first_match(key + sep, sep, key.len() as int),
    ensures
        split_once(key + sep + value, sep) == Some((key, value)),
{
    let segment = key + sep + value;
    let at = key.len() as int;
    assert(segment.subrange(at, at + sep.len()) =~= sep);
    assert forall|j: int| 0 <= j < at implies !matches_at(segment, sep, j) by {
        assert(segment.subrange(j, j + sep.len()) =~= (key + sep).subrange(j, j + sep.len()));
        assert(!matches_at(key + sep, sep, j));
    }
    lemma_first_match_is(segment, sep, at);
}

/// Segments that were made of pairs give the pairs back: entering them is
/// entering each pair in order, where the separator occurs in no key earlier
/// than behind it.
pub proof fn lemma_insert_pairs_of_segments(
    entries: Map<Seq<char>, Seq<char>>,
    pairs: Seq<(Seq<char>, Seq<char>)>,
    sep: Seq<char>,
)
    requires
        forall|i: int|
            0 <= i < pairs.len() ==> is_first_match(
                (#[trigger] pairs[i]).0 + sep,
                sep,
                pairs[i].0.len() as int,
            ),
    ensures
        insert_pairs(entries, segments_of(pairs, sep), sep) == Ok::<_, Seq<char>>(
            insert_all(entries, pairs),
        ),
    decreases pairs.len(),
{
    let segments = segments_of(pairs, sep);
    if pairs.len() > 0 {
        let (key, value) = pairs[0];
        lemma_split_once_of_pair(key, value, sep);
        let rest = pairs.drop_first();
        assert(segments.drop_first() =~= segments_of(rest, sep));
        lemma_insert_pairs_of_segments(entries.insert(key, value), rest, sep);
    }
}

/// A text that was written from pairs is read as those pairs: with the
/// key-value separator between a key and its value, the pair separator between
/// two pairs, and at most one line terminator at the end, where neither
/// separator occurs earlier than it was written.
pub proof fn lemma_parse_of_written_pairs(
    entries: Map<Seq<char>, Seq<char>>,
    pairs: Seq<(Seq<char>, Seq<char>)>,
    text: Seq<char>,
    pair_sep: Seq<char>,
    key_value_sep: Seq<char>,
)
    requires
        pair_sep.len() > 0,
        pairs.len() > 0,
        strip_trailing_newline(text) == join(segments_of(pairs, key_value_sep), pair_sep),
        forall|i: int|
            0 <= i < pairs.len() ==> is_first_match(
                (#[trigger] pairs[i]).0 + key_value_sep,
                key_value_sep,
                pairs[i].0.len() as int,
            ),
        forall|i: int|
            0 <= i < pairs.len() - 1 ==> is_first_match(
                #[trigger] segments_of(pairs, key_value_sep)[i] + pair_sep,
                pair_sep,
                segments_of(pairs, key_value_sep)[i].len() as int,
            ),
        first_match(segments_of(pairs, key_value_sep).last(), pair_sep) is None,
    ensures
        parse(entries, text, pair_sep, key_value_sep) == Ok::<_, Seq<char>>(
            insert_all(entries, pairs),
        ),
{
    lemma_split_of_join(segments_of(pairs, key_value_sep), pair_sep);
    lemma_insert_pairs_of_segments(entries, pairs, key_value_sep);
}

/// A character that does not occur in `s` occurs in `s` with the character
/// behind it at the end and no earlier.
proof fn lemma_absent_char(s: Seq<char>, c: char)
    requires
        !s.contains(c),
    ensures
        first_match(s, seq![c]) is None,
        is_first_match(s + seq![c], seq![c], s.len() as int),
{
    let sep = seq![c];
    assert forall|j: int| !matches_at(s, sep, j) by {
        if matches_at(s, sep, j) {
            assert(s.subrange(j, j + 1)[0] == c);
        }
    }
    lemma_first_match_none(s, sep);
    let longer = s + sep;
    let at = s.len() as int;
    assert(longer.subrange(at, at + 1) =~= sep);
    assert forall|j: int| 0 <= j < at implies !matches_at(longer, sep, j) by {
        if matches_at(longer, sep, j) {
            assert(longer.subrange(j, j + 1)[0] == c);
        }
    }
}

/// A joined text ends as its last segment does, where that one is not empty.
proof fn lemma_join_ends_with_last(segments: Seq<Seq<char>>, sep: Seq<char>)
    requires
        segments.len() > 0,
        segments.last().len() > 0,
    ensures
        join(segments, sep).len() > 0,
        join(segments, sep).last() == segments.last().last(),
    decreases segments.len(),
{
    if segments.len() > 1 {
        lemma_join_ends_with_last(segments.drop_first(), sep);
    }
}

/// With the default separators a text of lines is read line by line: each line
/// a key, an equals sign and a value, with a line feed between two lines and
/// at most one at the end, where no key holds an equals sign or a line feed and
/// no value holds a line feed.
pub proof fn lemma_default_separators_read_lines(
    entries: Map<Seq<char>, Seq<char>>,
    pairs: Seq<(Seq<char>, Seq<char>)>,
    text: Seq<char>,
)
    requires
        pairs.len() > 0,
        forall|i: int|
            0 <= i < pairs.len() ==> !(#[trigger] pairs[i]).0.contains('=')
                && !pairs[i].0.contains('\n') && !pairs[i].1.contains('\n'),
        text == join(segments_of(pairs, seq!['=']), seq!['\n']) || (text == join(
            segments_of(pairs, seq!['=']),
            seq!['\n'],
        ).push('\n') && !ends_with(pairs.last().1, seq!['\r'])),
    ensures
        parse(entries, text, default_pair_separator(), default_key_value_separator()) == Ok::<
            _,
            Seq<char>,
        >(insert_all(entries, pairs)),
{
    let equals = seq!['='];
    let line_feed = seq!['\n'];
    let lines = segments_of(pairs, equals);
    let joined = join(lines, line_feed);
    assert forall|i: int| 0 <= i < pairs.len() implies is_first_match(
        (#[trigger] pairs[i]).0 + equals,
        equals,
        pairs[i].0.len() as int,
    ) by {
        lemma_absent_char(pairs[i].0, '=');
    }
    assert forall|i: int| 0 <= i < pairs.len() - 1 implies is_first_match(
        #[trigger] lines[i] + line_feed,
        line_feed,
        lines[i].len() as int,
    ) by {
        lemma_absent_char(lines[i], '\n');
    }
    lemma_absent_char(lines.last(), '\n');
    lemma_join_ends_with_last(lines, line_feed);
    let last_value = pairs.last().1;
    assert(!ends_with(joined, line_feed)) by {
        if ends_with(joined, line_feed) {
            assert(joined.skip(joined.len() - 1)[0] == '\n');
        }
    }
    if text != joined {
        assert(text.skip(text.len() - 1) =~= line_feed);
        assert(!ends_with(text, seq!['\r', '\n'])) by {
            if ends_with(text, seq!['\r', '\n']) {
                if last_value.len() > 0 {
                    assert(last_value.skip(last_value.len() - 1) =~= seq!['\r']);
                }
            }
        }
        assert(text.take(text.len() - 1) =~= joined);
    }
    lemma_parse_of_written_pairs(entries, pairs, text, line_feed, equals);
}

} // verus!
