//! The mapping and its configuration.

use crate::error::ParseError;
use crate::model;
use crate::text;
use vstd::hash_map::StringHashMap;
use vstd::prelude::*;
use vstd::string::StringExecFns;

verus! {

/// The separator between a key and its value, unless another one is set.
const DEFAULT_KEY_VALUE_SEP: &'static str = "=";

/// The separator between two pairs, unless another one is set.
const DEFAULT_PAIR_SEP: &'static str = "\n";

/// The pair separator of a new `FileToMap`: a line feed.
pub open spec fn default_pair_separator() -> Seq<char> {
    seq!['\n']
}

/// The key-value separator of a new `FileToMap`: an equals sign.
pub open spec fn default_key_value_separator() -> Seq<char> {
    seq!['=']
}

/// What a `FileToMap` stands for: its configuration and its entries.
pub struct FileToMapView {
    /// The path of the file that the text comes from.
    pub file_name: Seq<char>,
    /// The separator between two pairs.
    pub pair_separator: Seq<char>,
    /// The separator between a key and its value.
    pub key_value_separator: Seq<char>,
    /// The value of each key.
    pub entries: Map<Seq<char>, Seq<char>>,
}

impl FileToMapView {
    /// The same, with `sep` between two pairs.
    pub open spec fn with_pair_separator(self, sep: Seq<char>) -> FileToMapView {
        FileToMapView { pair_separator: sep, ..self }
    }

    /// The same, with `sep` between a key and its value.
    pub open spec fn with_key_value_separator(self, sep: Seq<char>) -> FileToMapView {
        FileToMapView { key_value_separator: sep, ..self }
    }

    /// The same, with `entries` as the value of each key.
    pub open spec fn with_entries(self, entries: Map<Seq<char>, Seq<char>>) -> FileToMapView {
        FileToMapView { entries, ..self }
    }
}

/// A mapping from keys to values that is read from a text of key-value pairs,
/// together with the separators that the text is cut at.
pub struct FileToMap<'a> {
    key_value_sep: &'a str,
    pair_sep: &'a str,
    map: StringHashMap<String>,
    file_name: &'a str,
}

impl<'a> View for FileToMap<'a> {
    type V = FileToMapView;

    closed spec fn view(&self) -> FileToMapView {
        FileToMapView {
            file_name: self.file_name@,
            pair_separator: self.pair_sep@,
            key_value_separator: self.key_value_sep@,
            entries: self.map@.map_values(|value: String| value@),
        }
    }
}

impl<'a> FileToMap<'a> {
    /// An empty mapping for the file at `file_name`, with the default
    /// separators. Nothing is read.
    pub fn new(file_name: &'a str) -> (r: Self)
        ensures
            r@ == (FileToMapView {
                file_name: file_name@,
                pair_separator: default_pair_separator(),
                key_value_separator: default_key_value_separator(),
                entries: Map::empty(),
            }),
    {
        proof {
            reveal_strlit("=");
            reveal_strlit("\n");
        }
        let r = FileToMap {
            key_value_sep: DEFAULT_KEY_VALUE_SEP,
            pair_sep: DEFAULT_PAIR_SEP,
            map: StringHashMap::new(),
            file_name,
        };
        assert(r@.entries =~= Map::empty());
        assert(r@.pair_separator =~= default_pair_separator());
        assert(r@.key_value_separator =~= default_key_value_separator());
        r
    }

    /// Replaces the separator between a key and its value.
    pub fn set_key_value_separator(self, sep: &'a str) -> (r: Self)
        ensures
            r@ == self@.with_key_value_separator(sep@),
    {
        FileToMap { key_value_sep: sep, ..self }
    }

    /// Replaces the separator between two pairs.
    pub fn set_pair_separator(self, sep: &'a str) -> (r: Self)
        ensures
            r@ == self@.with_pair_separator(sep@),
    {
        FileToMap { pair_sep: sep, ..self }
    }

    /// The path of the file that the text comes from.
    pub fn file_name(&self) -> (name: &'a str)
        ensures
            name@ == self@.file_name,
    {
        self.file_name
    }

    /// Reads `contents` and enters its pairs into the mapping.
    ///
    /// One trailing line terminator is taken off `contents`, the rest is cut
    /// into segments at the pair separator, and each segment is cut into a key
    /// and a value at the first occurrence of the key-value separator. A later
    /// pair replaces an earlier one with the same key. The first segment
    /// without a key-value separator fails the whole: no mapping is returned.
    pub fn build(self, contents: &str) -> (r: Result<Self, ParseError>)
        ensures
            match model::parse(
                self@.entries,
                contents@,
                self@.pair_separator,
                self@.key_value_separator,
            ) {
                Ok(entries) => r matches Ok(built) && built@ == self@.with_entries(entries),
                Err(segment) => r matches Err(e) && e.separator@ == self@.key_value_separator
                    && e.segment@ == segment,
            },
    {
        let data = self.strip_trailing_newline(contents);
        let segments = text::split(data, self.pair_sep);
        let ghost all = segments.deep_view();
        let mut building = self;
        let mut i: usize = 0;
        assert(all.skip(0) =~= all);
        while i < segments.len()
            invariant
                i <= segments.len(),
                all == segments.deep_view(),
                all == model::split(
                    model::strip_trailing_newline(contents@),
                    self@.pair_separator,
                ),
                building@ == self@.with_entries(building@.entries),
                model::insert_pairs(self@.entries, all, self@.key_value_separator)
                    == model::insert_pairs(
                    building@.entries,
                    all.skip(i as int),
                    self@.key_value_separator,
                ),
            decreases segments.len() - i,
        {
            let ghost rest = all.skip(i as int);
            assert(rest.drop_first() =~= all.skip(i + 1));
            match text::split_once(segments[i].as_str(), building.key_value_sep) {
                Some((key, value)) => {
                    let ghost entries = building@.entries;
                    building.map.insert(key, value);
                    assert(building@.entries =~= entries.insert(key@, value@));
                },
                None => {
                    return Err(
                        ParseError {
                            separator: String::from_str(building.key_value_sep),
                            segment: segments[i].clone(),
                        },
                    );
                },
            }
            i += 1;
        }
        Ok(building)
    }

    /// The value of `key`, or `None` where the mapping has no such key.
    pub fn get(&self, key: &str) -> (value: Option<&String>)
        ensures
            match value {
                Some(v) => self@.entries.contains_key(key@) && v@ == self@.entries[key@],
                None => !self@.entries.contains_key(key@),
            },
    {
        self.map.get(key)
    }

    /// The number of keys in the mapping.
    pub fn len(&self) -> (n: usize)
        ensures
            n == self@.entries.len(),
    {
        assert(self@.entries.dom() =~= self.map@.dom());
        self.map.len()
    }

    /// `input` without one line terminator at its end, if it has one.
    pub fn strip_trailing_newline(&self, input: &'a str) -> (stripped: &'a str)
        ensures
            stripped@ == model::strip_trailing_newline(input@),
    {
        let n: usize = input.unicode_len();
        if n >= 1 && input.get_char(n - 1) == '\n' {
            assert(input@.skip(n - 1) =~= seq!['\n']);
            if n >= 2 && input.get_char(n - 2) == '\r' {
                assert(input@.skip(n - 2) =~= seq!['\r', '\n']);
                input.substring_char(0, n - 2)
            } else {
                input.substring_char(0, n - 1)
            }
        } else {
            assert(!model::ends_with(input@, seq!['\n'])) by {
                if model::ends_with(input@, seq!['\n']) {
                    assert(input@.skip(n - 1)[0] == '\n');
                }
            }
            input
        }
    }
}

impl<'a> std::ops::Index<&str> for FileToMap<'a> {
    type Output = String;

    /// The value of `key`, for a key that the mapping has.
    ///
    /// A caller that is not verified and asks for a key that the mapping has
    /// not gets a panic.
    fn index(&self, key: &str) -> (value: &String)
        ensures
            value@ == self@.entries[key@],
    {
        match self.map.get(key) {
            Some(value) => value,
            None => unreached(),
        }
    }
}

impl<'a> vstd::std_specs::core::IndexSpecImpl<&str> for FileToMap<'a> {
    open spec fn index_req(&self, key: &&str) -> bool {
        self@.entries.contains_key(key@)
    }
}

} // verus!
