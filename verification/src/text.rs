//! Searching and splitting strings, character by character.

use crate::model;
use crate::model::{first_match, matches_at};
use vstd::prelude::*;

verus! {

/// The characters of `s`, in order.
pub fn chars_of(s: &str) -> (chars: Vec<char>)
    ensures
        chars@ == s@,
{
    let mut chars: Vec<char> = Vec::new();
    for c in it: s.chars()
        invariant
            chars@ == it.seq().take(it.index() as int),
            it.seq() == s@,
    {
        chars.push(c);
    }
    chars
}

/// `String::push` of std appends one character to the end of the string and
/// leaves what stood there before as it was.
pub assume_specification[ String::push ](s: &mut String, c: char)
    ensures
        final(s)@ == old(s)@.push(c),
;

/// The string that holds `chars[from..to]`.
fn string_of(chars: &[char], from: usize, to: usize) -> (s: String)
    requires
        from <= to <= chars@.len(),
    ensures
        s@ == chars@.subrange(from as int, to as int),
{
    let mut s = String::new();
    let mut i: usize = from;
    while i < to
        invariant
            from <= i <= to <= chars@.len(),
            s@ == chars@.subrange(from as int, i as int),
        decreases to - i,
    {
        s.push(chars[i]);
        i += 1;
    }
    s
}

/// Whether `needle` occurs in `hay` at position `at`.
fn occurs_at(hay: &[char], needle: &[char], at: usize) -> (r: bool)
    requires
        at + needle@.len() <= hay@.len() <= usize::MAX,
    ensures
        r == matches_at(hay@, needle@, at as int),
{
    let mut k: usize = 0;
    while k < needle.len()
        invariant
            at + needle@.len() <= hay@.len() <= usize::MAX,
            k <= needle@.len(),
            forall|j: int| 0 <= j < k ==> hay@[at + j] == needle@[j],
        decreases needle@.len() - k,
    {
        if hay[at + k] != needle[k] {
            return false;
        }
        k += 1;
    }
    assert(hay@.subrange(at as int, at + needle@.len()) =~= needle@);
    true
}

/// The first position at or after `from` at which `needle` occurs in `hay`.
fn find_from(hay: &[char], needle: &[char], from: usize) -> (r: Option<usize>)
    requires
        from <= hay@.len(),
    ensures
        match r {
            Some(i) => {
                &&& from <= i
                &&& i + needle@.len() <= hay@.len()
                &&& first_match(hay@.skip(from as int), needle@) == Some(i - from)
            },
            None => first_match(hay@.skip(from as int), needle@) is None,
        },
{
    let ghost rest = hay@.skip(from as int);
    if needle.len() > hay.len() - from {
        proof {
            model::lemma_first_match_none(rest, needle@);
        }
        return None;
    }
    let last: usize = hay.len() - needle.len();
    let mut i: usize = from;
    loop
        invariant
            from <= i <= last,
            last + needle@.len() == hay@.len() <= usize::MAX,
            rest == hay@.skip(from as int),
            forall|j: int| 0 <= j < i - from ==> !matches_at(rest, needle@, j),
        decreases last - i,
    {
        let here = occurs_at(hay, needle, i);
        proof {
            model::lemma_match_shift(hay@, needle@, from as int, i - from);
        }
        if here {
            proof {
                model::lemma_first_match_is(rest, needle@, i - from);
            }
            return Some(i);
        }
        if i == last {
            proof {
                model::lemma_first_match_none(rest, needle@);
            }
            return None;
        }
        i += 1;
    }
}

/// Cuts `hay` at each occurrence of `needle`.
fn split_chars(hay: &[char], needle: &[char]) -> (segments: Vec<String>)
    ensures
        segments.deep_view() == model::split(hay@, needle@),
{
    let mut segments: Vec<String> = Vec::new();
    if needle.len() == 0 {
        segments.push(String::new());
        let mut i: usize = 0;
        while i < hay.len()
            invariant
                i <= hay@.len(),
                segments.deep_view() == seq![Seq::<char>::empty()] + model::singles(
                    hay@.take(i as int),
                ),
            decreases hay@.len() - i,
        {
            let one = string_of(hay, i, i + 1);
            let ghost before = segments.deep_view();
            segments.push(one);
            assert(one@ =~= seq![hay@[i as int]]);
            assert(segments.deep_view() =~= before.push(one@));
            i += 1;
        }
        let ghost before = segments.deep_view();
        segments.push(String::new());
        assert(segments.deep_view() =~= before.push(Seq::<char>::empty()));
        return segments;
    }
    let end: usize = hay.len();
    let mut start: usize = 0;
    assert(hay@.skip(0) =~= hay@);
    loop
        invariant
            needle@.len() > 0,
            start <= hay@.len() == end,
            model::split(hay@, needle@) == segments.deep_view() + model::split(
                hay@.skip(start as int),
                needle@,
            ),
        decreases hay@.len() - start,
    {
        let ghost rest = hay@.skip(start as int);
        match find_from(hay, needle, start) {
            Some(i) => {
                let segment = string_of(hay, start, i);
                segments.push(segment);
                proof {
                    assert(rest.take(i - start) =~= hay@.subrange(start as int, i as int));
                    assert(rest.skip(i - start + needle@.len()) =~= hay@.skip(
                        i + needle@.len(),
                    ));
                }
                start = i + needle.len();
            },
            None => {
                let segment = string_of(hay, start, end);
                segments.push(segment);
                return segments;
            },
        }
    }
}

/// Cuts `text` into segments at each occurrence of `sep`, from left to right.
///
/// With an empty `sep` the segments are an empty one, each character of `text`
/// by itself, and an empty one.
pub fn split(text: &str, sep: &str) -> (segments: Vec<String>)
    ensures
        segments.deep_view() == model::split(text@, sep@),
{
    let hay = chars_of(text);
    let needle = chars_of(sep);
    split_chars(hay.as_slice(), needle.as_slice())
}

/// Cuts `text` in two at the first occurrence of `sep`; `None` where `sep`
/// does not occur in it.
pub fn split_once(text: &str, sep: &str) -> (parts: Option<(String, String)>)
    ensures
        match parts {
            Some((before, after)) => model::split_once(text@, sep@) == Some((before@, after@)),
            None => model::split_once(text@, sep@) is None,
        },
{
    let hay = chars_of(text);
    let needle = chars_of(sep);
    let end: usize = hay.len();
    assert(hay@.skip(0) =~= hay@);
    match find_from(hay.as_slice(), needle.as_slice(), 0) {
        Some(i) => {
            let before = string_of(hay.as_slice(), 0, i);
            let after = string_of(hay.as_slice(), i + needle.len(), end);
            Some((before, after))
        },
        None => None,
    }
}

} // verus!
