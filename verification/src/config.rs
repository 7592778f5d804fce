//! The configuration store: an ordered table of unique keys with their
//! values, with the file it belongs to and the way it is shown.

use crate::error::ConfigError;
use crate::order::{is_sorted_form, lemma_rearranged_distinct, lemma_sorted_form, sorted_form};
use crate::ordered::{
    map_contains_key, map_entries, map_get, map_insert, map_new, map_pairs, map_reverse,
    map_shift_remove, map_sort_keys,
};
use crate::pairs::{
    distinct_keys, fed, has_key, keys_of, lemma_merged, lemma_removed, lemma_with_line,
    lemma_with_pair, merged, pairs_of, prepended, removed, rendered, shown_lines, value_of,
    values_of, with_line, with_pair, Pair,
};
use crate::path::{copy_parts, normalize_path, normalized, parts_of, Part, PathPart};
use crate::pattern::{
    create_regex, create_value_regex, lemma_kept_matching, matching, pair_hit, pattern_is_valid,
    regex_is_match, regex_is_plain, retain_hits, source_of, value_pattern,
};
use crate::style::{is_plain_style, key_text, shown_as, value_text};
use crate::text::{
    format_pair, join_lines, joined, lines_of, opt_text, pair_line, parsed_line, replace_all,
    replaced, split_lines, texts_of, trimmed,
};
use indexmap::IndexMap;
use regex::Regex;
use vstd::prelude::*;

verus! {

/// What a store is, as plain values.
pub struct ConfigModel {
    /// The file the store belongs to, if any: the components of its path,
    /// in normal form.
    pub path: Option<Seq<Part>>,
    /// The code of the decoration used when the store is shown.
    pub style: u8,
    /// The text put between two lines when the store is written out.
    pub lineending: Seq<char>,
    /// The pairs, oldest insertion first. Output runs the other way.
    pub entries: Seq<Pair>,
}

/// An ordered table of unique keys with their values.
#[derive(Debug)]
pub struct Config {
    /// The file that the store is read from and written to: the components
    /// of its path, in normal form.
    pub path: Option<Vec<PathPart>>,
    /// A code for colouring and styling keys and values when they are shown.
    pub style: u8,
    /// The line terminator used when the store is written out.
    pub lineending: &'static str,
    /// The pairs, oldest insertion first.
    pub data: IndexMap<String, String>,
}

impl View for Config {
    type V = ConfigModel;

    open spec fn view(&self) -> ConfigModel {
        ConfigModel {
            path: opt_parts(self.path),
            style: self.style,
            lineending: self.lineending@,
            entries: map_pairs(self.data),
        }
    }
}

impl Default for Config {
    /// An empty store without a file, shown plain, with nothing between
    /// lines.
    fn default() -> (c: Config)
        ensures
            c.wf(),
            c@ == (ConfigModel {
                path: None,
                style: 0,
                lineending: Seq::empty(),
                entries: Seq::empty(),
            }),
    {
        proof {
            reveal_strlit("");
            assert(""@ =~= Seq::<char>::empty());
        }
        Config { path: None, style: 0, lineending: "", data: map_new() }
    }
}

impl Config {
    /// The pairs, oldest insertion first.
    pub open spec fn entries(&self) -> Seq<Pair> {
        map_pairs(self.data)
    }

    /// The pairs in the order in which they are shown and written: newest
    /// insertion first.
    pub open spec fn output(&self) -> Seq<Pair> {
        self.entries().reverse()
    }

    /// No key occurs twice.
    pub open spec fn wf(&self) -> bool {
        distinct_keys(self.entries())
    }

    /// An empty store without a file, shown plain, with a line feed between
    /// lines.
    pub fn new() -> (c: Config)
        ensures
            c.wf(),
            c@ == (ConfigModel {
                path: None,
                style: 0,
                lineending: seq!['\n'],
                entries: Seq::empty(),
            }),
    {
        proof {
            reveal_strlit("\n");
            assert("\n"@ =~= seq!['\n']);
        }
        Config { path: None, style: 0, lineending: "\n", data: map_new() }
    }

    /// The value of `key`, if the store has the key.
    pub fn get(&self, key: &str) -> (r: Option<String>)
        ensures
            opt_text(r) == value_of(self.entries(), key@),
    {
        map_get(&self.data, key)
    }

    /// Whether the store has `key`.
    pub fn has_key(&self, key: &str) -> (b: bool)
        ensures
            b == has_key(self.entries(), key@),
    {
        map_contains_key(&self.data, key)
    }

    /// Gives `key` the value `value`. An existing key keeps its place; a new
    /// key becomes the newest entry, the first in output. Returns the value
    /// that the key had.
    pub fn set(&mut self, key: &str, value: &str) -> (r: Option<String>)
        ensures
            old(self).wf() ==> final(self).wf(),
            final(self)@ == (ConfigModel {
                entries: with_pair(old(self).entries(), key@, value@),
                ..old(self)@
            }),
            opt_text(r) == value_of(old(self).entries(), key@),
    {
        proof {
            if self.wf() {
                lemma_with_pair(self.entries(), key@, value@);
            }
        }
        map_insert(&mut self.data, key, value)
    }

    /// Replaces, in the value of `key`, every match of the literal text
    /// `search` by `replace`, and returns the value that the key had. Without
    /// the key nothing changes and nothing is returned.
    pub fn replace(&mut self, key: &str, search: &str, replace: &str) -> (r: Option<String>)
        ensures
            old(self).wf() ==> final(self).wf(),
            opt_text(r) == value_of(old(self).entries(), key@),
            final(self)@ == (ConfigModel {
                entries: match value_of(old(self).entries(), key@) {
                    Some(value) => with_pair(
                        old(self).entries(),
                        key@,
                        replaced(value, search@, replace@),
                    ),
                    None => old(self).entries(),
                },
                ..old(self)@
            }),
    {
        match map_get(&self.data, key) {
            Some(value) => {
                let new_value = replace_all(value.as_str(), search, replace);
                proof {
                    if self.wf() {
                        lemma_with_pair(self.entries(), key@, new_value@);
                    }
                }
                map_insert(&mut self.data, key, new_value.as_str())
            },
            None => None,
        }
    }

    /// Adds `key` with `value` unless the store has the key already, and
    /// returns the value that the key had; the store then stays as it was.
    pub fn add(&mut self, key: &str, value: &str) -> (r: Option<String>)
        ensures
            old(self).wf() ==> final(self).wf(),
            opt_text(r) == value_of(old(self).entries(), key@),
            final(self)@ == (ConfigModel {
                entries: if has_key(old(self).entries(), key@) {
                    old(self).entries()
                } else {
                    old(self).entries().push((key@, value@))
                },
                ..old(self)@
            }),
    {
        if map_contains_key(&self.data, key) {
            map_get(&self.data, key)
        } else {
            proof {
                if self.wf() {
                    lemma_with_pair(self.entries(), key@, value@);
                }
            }
            map_insert(&mut self.data, key, value)
        }
    }

    /// Takes `key` out and returns its value. The other entries keep their
    /// order. Without the key nothing changes and nothing is returned.
    pub fn remove(&mut self, key: &str) -> (r: Option<String>)
        ensures
            old(self).wf() ==> final(self).wf(),
            opt_text(r) == value_of(old(self).entries(), key@),
            final(self)@ == (ConfigModel {
                entries: removed(old(self).entries(), key@),
                ..old(self)@
            }),
            !has_key(final(self).entries(), key@),
            !has_key(old(self).entries(), key@) ==> final(self)@ == old(self)@,
    {
        proof {
            if self.wf() {
                lemma_removed(self.entries(), key@);
            }
        }
        map_shift_remove(&mut self.data, key)
    }

    /// Takes `key` out, if it is there, and puts it back with `value` as the
    /// newest entry, the first in output. The other entries keep their
    /// order. Nothing is returned.
    pub fn prepend(&mut self, key: &str, value: &str) -> (r: Option<String>)
        ensures
            old(self).wf() ==> final(self).wf(),
            r is None,
            final(self)@ == (ConfigModel {
                entries: removed(old(self).entries(), key@).push((key@, value@)),
                ..old(self)@
            }),
            final(self).entries() == prepended(old(self).entries(), key@, value@),
    {
        proof {
            if self.wf() {
                lemma_removed(self.entries(), key@);
                lemma_with_pair(removed(self.entries(), key@), key@, value@);
            }
        }
        map_shift_remove(&mut self.data, key);
        map_insert(&mut self.data, key, value)
    }

    /// Orders the entries by key, so that output strictly ascends by code
    /// point. The entries are the same as before.
    pub fn sort(&mut self)
        ensures
            final(self).wf(),
            is_sorted_form(old(self).entries(), final(self).entries()),
            final(self).entries() == sorted_form(old(self).entries()),
            final(self)@ == (ConfigModel { entries: final(self).entries(), ..old(self)@ }),
    {
        let ghost before = self.entries();
        map_sort_keys(&mut self.data);
        let ghost ordered = self.entries();
        map_reverse(&mut self.data);
        proof {
            ordered.lemma_reverse_to_multiset();
            assert(self.entries().reverse() =~= ordered);
            lemma_rearranged_distinct(ordered, self.entries());
            lemma_sorted_form(before, self.entries());
        }
    }

    /// Gives each pair of `config` to this store, oldest first, as `set`
    /// gives one: the value that comes in replaces the one that is here.
    pub fn insert_from_config(&mut self, config: &Config)
        ensures
            old(self).wf() ==> final(self).wf(),
            final(self)@ == (ConfigModel {
                entries: merged(old(self).entries(), config.entries()),
                ..old(self)@
            }),
    {
        let list = map_entries(&config.data);
        self.insert_pairs(&list);
    }

    /// Gives each pair of `map` to this store, oldest first, as `set` gives
    /// one.
    pub fn insert_from_map(&mut self, map: IndexMap<String, String>)
        ensures
            old(self).wf() ==> final(self).wf(),
            final(self)@ == (ConfigModel {
                entries: merged(old(self).entries(), map_pairs(map)),
                ..old(self)@
            }),
    {
        let list = map_entries(&map);
        self.insert_pairs(&list);
    }

    /// Gives each pair of `list` to this store, first to last, as `set`
    /// gives one.
    fn insert_pairs(&mut self, list: &Vec<(String, String)>)
        ensures
            old(self).wf() ==> final(self).wf(),
            final(self)@ == (ConfigModel {
                entries: merged(old(self).entries(), pairs_of(list@)),
                ..old(self)@
            }),
    {
        let ghost before = self.entries();
        let ghost incoming = pairs_of(list@);
        let mut i: usize = 0;
        while i < list.len()
            invariant
                i <= list.len(),
                incoming == pairs_of(list@),
                before == old(self).entries(),
                self.entries() == merged(before, incoming.take(i as int)),
                self@ == (ConfigModel { entries: self.entries(), ..old(self)@ }),
            decreases list.len() - i,
        {
            proof {
                assert(incoming.take(i + 1).drop_last() =~= incoming.take(i as int));
                assert(incoming.take(i + 1).last() == (list@[i as int].0@, list@[i as int].1@));
            }
            map_insert(&mut self.data, list[i].0.as_str(), list[i].1.as_str());
            i += 1;
        }
        proof {
            assert(incoming.take(i as int) =~= incoming);
            if distinct_keys(before) {
                lemma_merged(before, incoming);
            }
        }
    }

    /// Reads one line: without `=` nothing; else the text before the first
    /// `=`, trimmed, as the key, and the text after it, trimmed and then freed
    /// of one layer of quotation marks, as the value.
    pub fn parse_line(line: &str) -> (r: Option<(String, String)>)
        ensures
            match r {
                Some((key, value)) => parsed_line(line@) == Some((key@, value@)),
                None => parsed_line(line@) is None,
            },
    {
        crate::text::parse_line(line)
    }

    /// Reads one line into the store: the pair that it holds is given as
    /// `set` gives one, and a line without `=` is passed over.
    pub fn insert_line(&mut self, line: &str)
        ensures
            old(self).wf() ==> final(self).wf(),
            final(self)@ == (ConfigModel {
                entries: with_line(old(self).entries(), line@),
                ..old(self)@
            }),
    {
        proof {
            if self.wf() {
                lemma_with_line(self.entries(), line@);
            }
        }
        if let Some((key, value)) = Config::parse_line(line) {
            map_insert(&mut self.data, key.as_str(), value.as_str());
        }
    }

    /// Reads a text into the store, last line first, so that of two lines
    /// with one key the upper one gives the value.
    pub fn insert_from_string(&mut self, text: &str)
        ensures
            old(self).wf() ==> final(self).wf(),
            final(self)@ == (ConfigModel {
                entries: fed(old(self).entries(), lines_of(text@).reverse()),
                ..old(self)@
            }),
    {
        let lines = split_lines(text);
        let ghost before = self.entries();
        let ghost turned = lines_of(text@).reverse();
        let mut i: usize = lines.len();
        proof {
            assert(texts_of(lines@).len() == lines@.len());
        }
        while i > 0
            invariant
                i <= lines.len(),
                texts_of(lines@) == lines_of(text@),
                turned == lines_of(text@).reverse(),
                lines@.len() == turned.len(),
                before == old(self).entries(),
                self.entries() == fed(before, turned.take(lines.len() - i)),
                self@ == (ConfigModel { entries: self.entries(), ..old(self)@ }),
                old(self).wf() ==> self.wf(),
            decreases i,
        {
            i -= 1;
            proof {
                let n = lines.len() as int;
                assert(turned.take(n - i).drop_last() =~= turned.take(n - i - 1));
                assert(turned.take(n - i).last() == texts_of(lines@)[i as int]);
            }
            self.insert_line(lines[i].as_str());
        }
        proof {
            assert(turned.take(lines.len() as int) =~= turned);
        }
    }

    /// Reads the lines of the store's file into the store, in the order
    /// given, where the file can be read: see `check_read`. The lines are to
    /// be given last line first, so that of two lines with one key the upper
    /// one gives the value. Where the file cannot be read the store stays as
    /// it was, and the error says why.
    pub fn read_file(&mut self, is_file: bool, is_dir: bool, lines: &Vec<String>) -> (r: Result<
        (),
        ConfigError,
    >)
        ensures
            old(self).wf() ==> final(self).wf(),
            r is Ok == (old(self).path is Some && is_file),
            r is Ok ==> final(self)@ == (ConfigModel {
                entries: fed(old(self).entries(), texts_of(lines@)),
                ..old(self)@
            }),
            r matches Err(e) ==> final(self)@ == old(self)@ && e == read_error(
                old(self).path is Some,
                is_dir,
            ),
    {
        match self.check_read(is_file, is_dir) {
            Ok(()) => {
                self.read_lines(lines);
                Ok(())
            },
            Err(e) => Err(e),
        }
    }

    /// Reads lines into the store, in the order given.
    fn read_lines(&mut self, lines: &Vec<String>)
        ensures
            old(self).wf() ==> final(self).wf(),
            final(self)@ == (ConfigModel {
                entries: fed(old(self).entries(), texts_of(lines@)),
                ..old(self)@
            }),
    {
        let ghost before = self.entries();
        let ghost given = texts_of(lines@);
        let mut i: usize = 0;
        while i < lines.len()
            invariant
                i <= lines.len(),
                given == texts_of(lines@),
                before == old(self).entries(),
                self.entries() == fed(before, given.take(i as int)),
                self@ == (ConfigModel { entries: self.entries(), ..old(self)@ }),
                old(self).wf() ==> self.wf(),
            decreases lines.len() - i,
        {
            proof {
                assert(given.take(i + 1).drop_last() =~= given.take(i as int));
                assert(given.take(i + 1).last() == lines@[i as int]@);
            }
            self.insert_line(lines[i].as_str());
            i += 1;
        }
        proof {
            assert(given.take(i as int) =~= given);
        }
    }

    /// The pairs whose key matches the expression `key` and whose value
    /// matches the expression `value`, in output order. An empty `value`
    /// selects the pairs whose value is empty. Both patterns are to be ones
    /// that the engine accepts: `query` tests that.
    pub fn find(&self, key: &str, value: &str) -> (list: Vec<(String, String)>)
        requires
            pattern_is_valid(key@),
            pattern_is_valid(value_pattern(value@)),
        ensures
            pairs_of(list@) == matching(self.output(), Some(key@), Some(value_pattern(value@))),
    {
        let re_key = create_regex(key);
        let re_value = create_value_regex(value);
        self.search(Some(&re_key), Some(&re_value))
    }

    /// The pairs whose key matches the expression `key`, in output order.
    /// The pattern is to be one that the engine accepts: `query` tests that.
    pub fn find_by_key(&self, key: &str) -> (list: Vec<(String, String)>)
        requires
            pattern_is_valid(key@),
        ensures
            pairs_of(list@) == matching(self.output(), Some(key@), None),
    {
        let re_key = create_regex(key);
        self.search(Some(&re_key), None)
    }

    /// The pairs whose value matches the expression `value`, in output
    /// order. An empty `value` selects the pairs whose value is empty. The
    /// pattern is to be one that the engine accepts: `query` tests that.
    pub fn find_by_value(&self, value: &str) -> (list: Vec<(String, String)>)
        requires
            pattern_is_valid(value_pattern(value@)),
        ensures
            pairs_of(list@) == matching(self.output(), None, Some(value_pattern(value@))),
    {
        let re_value = create_value_regex(value);
        self.search(None, Some(&re_value))
    }

    /// The pairs that the expressions given select, in output order.
    fn search(&self, re_key: Option<&Regex>, re_value: Option<&Regex>) -> (list: Vec<
        (String, String),
    >)
        requires
            re_key matches Some(re) ==> regex_is_plain(*re),
            re_value matches Some(re) ==> regex_is_plain(*re),
        ensures
            pairs_of(list@) == matching(self.output(), source_of(re_key), source_of(re_value)),
    {
        let all = as_rev_list(&self.data);
        let mut hits: Vec<bool> = Vec::new();
        let mut i: usize = 0;
        while i < all.len()
            invariant
                i <= all.len(),
                hits@.len() == i,
                re_key matches Some(re) ==> regex_is_plain(*re),
                re_value matches Some(re) ==> regex_is_plain(*re),
                forall|j: int|
                    0 <= j < i ==> hits@[j] == pair_hit(
                        #[trigger] pairs_of(all@)[j],
                        source_of(re_key),
                        source_of(re_value),
                    ),
            decreases all.len() - i,
        {
            let key_hit = match re_key {
                Some(re) => regex_is_match(re, all[i].0.as_str()),
                None => true,
            };
            let value_hit = match re_value {
                Some(re) => regex_is_match(re, all[i].1.as_str()),
                None => true,
            };
            hits.push(key_hit && value_hit);
            i += 1;
        }
        proof {
            lemma_kept_matching(
                pairs_of(all@),
                hits@,
                source_of(re_key),
                source_of(re_value),
            );
        }
        retain_hits(&all, &hits)
    }

    /// Makes the path with the components `parts`, brought into normal form,
    /// the store's file.
    pub fn set_path(&mut self, parts: &Vec<PathPart>)
        ensures
            final(self)@ == (ConfigModel {
                path: Some(normalized(parts_of(parts@))),
                ..old(self)@
            }),
            final(self).wf() == old(self).wf(),
    {
        self.path = Some(normalize_path(parts));
    }

    /// A copy of the components of the store's file path, if it has one.
    pub fn path(&self) -> (r: Option<Vec<PathPart>>)
        ensures
            opt_parts(r) == self@.path,
    {
        match &self.path {
            Some(parts) => Some(copy_parts(parts)),
            None => None,
        }
    }

    /// Whether the store's file can be read, given what is at its path: a
    /// file can. A directory cannot, nor anything else that is no file, nor
    /// can a store without a path be read.
    pub fn check_read(&self, is_file: bool, is_dir: bool) -> (r: Result<(), ConfigError>)
        ensures
            r is Ok == (self.path is Some && is_file),
            r matches Err(e) ==> e == read_error(self.path is Some, is_dir),
    {
        match &self.path {
            None => Err(ConfigError::NoPathSet),
            Some(_) => if is_file {
                Ok(())
            } else if is_dir {
                Err(ConfigError::PathIsDirectory)
            } else {
                Err(ConfigError::PathNotFile)
            },
        }
    }

    /// Whether the store's file can be written, given what is at its path:
    /// it can unless the path is a directory or the store has none.
    pub fn check_write(&self, is_dir: bool) -> (r: Result<(), ConfigError>)
        ensures
            r is Ok == (self.path is Some && !is_dir),
            r matches Err(e) ==> e == (if self.path is Some {
                ConfigError::PathIsDirectory
            } else {
                ConfigError::NoPathSet
            }),
    {
        match &self.path {
            None => Err(ConfigError::NoPathSet),
            Some(_) => if is_dir {
                Err(ConfigError::PathIsDirectory)
            } else {
                Ok(())
            },
        }
    }

    /// Makes the path with the components `parts`, in normal form, the
    /// store's file, and reads the file's lines, given last line first, into
    /// the store where the file can be read: see `read_file`.
    pub fn load(&mut self, parts: &Vec<PathPart>, is_file: bool, is_dir: bool, lines: &Vec<
        String,
    >) -> (r: Result<(), ConfigError>)
        ensures
            old(self).wf() ==> final(self).wf(),
            r is Ok == is_file,
            final(self)@ == (ConfigModel {
                path: Some(normalized(parts_of(parts@))),
                entries: if is_file {
                    fed(old(self).entries(), texts_of(lines@))
                } else {
                    old(self).entries()
                },
                ..old(self)@
            }),
            r matches Err(e) ==> e == read_error(true, is_dir),
    {
        self.set_path(parts);
        self.read_file(is_file, is_dir, lines)
    }

    /// The line that shows a pair in this store's style.
    pub fn pair_text(&self, key: &str, value: &str) -> (line: String)
        ensures
            is_plain_style(self.style) ==> line@ == pair_line(trimmed(key@), trimmed(value@)),
            shows(line@, key@, value@),
    {
        let shown_key = key_text(key, self.style);
        let shown_value = value_text(value, self.style);
        proof {
            assert(pair_line(shown_key@, shown_value@) == pair_line(shown_key@, shown_value@));
        }
        format_pair(shown_key.as_str(), shown_value.as_str())
    }

    /// The keys in output order, one per line, in this store's style.
    pub fn keys_list_text(&self) -> (text: String)
        ensures
            is_plain_style(self.style) ==> text@ == trimmed(
                joined(keys_of(self.output()), self.lineending@),
            ),
            shown_as(text@, trimmed(joined(keys_of(self.output()), self.lineending@))),
    {
        let keys = self.list_keys();
        let all = join_lines(&keys, self.lineending);
        key_text(all.as_str(), self.style)
    }

    /// The store as text: a line for each pair, in output order, with the
    /// line ending between each two. Without decoration this is the text
    /// that `rendered` gives.
    pub fn to_string(&self) -> (text: String)
        ensures
            is_plain_style(self.style) ==> text@ == rendered(self.output(), self.lineending@),
            exists|lines: Seq<Seq<char>>|
                shows_all(lines, self.output()) && text@ == joined(lines, self.lineending@),
    {
        let list = as_rev_list(&self.data);
        let mut lines: Vec<String> = Vec::new();
        let mut i: usize = 0;
        while i < list.len()
            invariant
                i <= list.len(),
                pairs_of(list@) == self.output(),
                lines@.len() == i,
                forall|j: int|
                    0 <= j < i ==> shows(
                        (#[trigger] lines@[j])@,
                        self.output()[j].0,
                        self.output()[j].1,
                    ),
                is_plain_style(self.style) ==> forall|j: int|
                    0 <= j < i ==> (#[trigger] lines@[j])@ == shown_lines(self.output())[j],
            decreases list.len() - i,
        {
            proof {
                assert(pairs_of(list@).len() == list@.len());
                assert(pairs_of(list@)[i as int] == (list@[i as int].0@, list@[i as int].1@));
            }
            lines.push(self.pair_text(list[i].0.as_str(), list[i].1.as_str()));
            i += 1;
        }
        proof {
            assert(pairs_of(list@).len() == list@.len());
            if is_plain_style(self.style) {
                assert(texts_of(lines@) =~= shown_lines(self.output()));
            }
            assert(texts_of(lines@).len() == self.output().len());
            assert forall|i: int| 0 <= i < texts_of(lines@).len() implies shows(
                #[trigger] texts_of(lines@)[i],
                self.output()[i].0,
                self.output()[i].1,
            ) by {
                assert(texts_of(lines@)[i] == lines@[i]@);
            }
            assert(shows_all(texts_of(lines@), self.output()));
        }
        join_lines(&lines, self.lineending)
    }

    /// The keys in output order.
    pub fn list_keys(&self) -> (keys: Vec<String>)
        ensures
            texts_of(keys@) == keys_of(self.output()),
    {
        let list = as_rev_list(&self.data);
        let mut keys: Vec<String> = Vec::new();
        let mut i: usize = 0;
        while i < list.len()
            invariant
                i <= list.len(),
                pairs_of(list@) == self.output(),
                keys@.len() == i,
                forall|j: int| 0 <= j < i ==> (#[trigger] keys@[j])@ == list@[j].0@,
            decreases list.len() - i,
        {
            keys.push(list[i].0.clone());
            i += 1;
        }
        proof {
            assert forall|j: int| 0 <= j < keys@.len() implies texts_of(keys@)[j] == keys_of(
                self.output(),
            )[j] by {
                assert(pairs_of(list@)[j] == self.output()[j]);
            }
            assert(pairs_of(list@).len() == list@.len());
            assert(texts_of(keys@) =~= keys_of(self.output()));
        }
        keys
    }

    /// The values in output order.
    pub fn list_values(&self) -> (values: Vec<String>)
        ensures
            texts_of(values@) == values_of(self.output()),
    {
        let list = as_rev_list(&self.data);
        let mut values: Vec<String> = Vec::new();
        let mut i: usize = 0;
        while i < list.len()
            invariant
                i <= list.len(),
                pairs_of(list@) == self.output(),
                values@.len() == i,
                forall|j: int| 0 <= j < i ==> (#[trigger] values@[j])@ == list@[j].1@,
            decreases list.len() - i,
        {
            values.push(list[i].1.clone());
            i += 1;
        }
        proof {
            assert forall|j: int| 0 <= j < values@.len() implies texts_of(values@)[j]
                == values_of(self.output())[j] by {
                assert(pairs_of(list@)[j] == self.output()[j]);
            }
            assert(pairs_of(list@).len() == list@.len());
            assert(texts_of(values@) =~= values_of(self.output()));
        }
        values
    }
}

/// The components of an optional path, as plain text.
pub open spec fn opt_parts(o: Option<Vec<PathPart>>) -> Option<Seq<Part>> {
    match o {
        Some(parts) => Some(parts_of(parts@)),
        None => None,
    }
}

/// Why a store whose file is no file cannot be read: it has no path, or its
/// path is a directory, or something else that is no file.
pub open spec fn read_error(has_path: bool, is_dir: bool) -> ConfigError {
    if !has_path {
        ConfigError::NoPathSet
    } else if is_dir {
        ConfigError::PathIsDirectory
    } else {
        ConfigError::PathNotFile
    }
}

/// Whether `line` shows the pair of `key` and `value`: the key, trimmed, as
/// it may be printed, then ` = `, then the value, trimmed, as it may be
/// printed, between quotation marks.
pub open spec fn shows(line: Seq<char>, key: Seq<char>, value: Seq<char>) -> bool {
    exists|k: Seq<char>, v: Seq<char>|
        line == #[trigger] pair_line(k, v) && shown_as(k, trimmed(key)) && shown_as(
            v,
            trimmed(value),
        )
}

/// Whether `lines` show `pairs`, line for line.
pub open spec fn shows_all(lines: Seq<Seq<char>>, pairs: Seq<Pair>) -> bool {
    &&& lines.len() == pairs.len()
    &&& forall|i: int|
        0 <= i < lines.len() ==> shows(#[trigger] lines[i], pairs[i].0, pairs[i].1)
}

/// The pairs of a map in output order: newest insertion first.
pub fn as_rev_list(data: &IndexMap<String, String>) -> (list: Vec<(String, String)>)
    ensures
        pairs_of(list@) == map_pairs(*data).reverse(),
{
    let forward = map_entries(data);
    let mut list: Vec<(String, String)> = Vec::new();
    let mut i: usize = forward.len();
    while i > 0
        invariant
            i <= forward.len(),
            pairs_of(forward@) == map_pairs(*data),
            list@.len() == forward.len() - i,
            forall|j: int|
                0 <= j < list@.len() ==> pairs_of(list@)[j] == #[trigger] pairs_of(forward@)[
                    forward.len() - 1 - j],
        decreases i,
    {
        i -= 1;
        let ghost prior = list@;
        list.push((forward[i].0.clone(), forward[i].1.clone()));
        proof {
            assert forall|j: int| 0 <= j < list@.len() implies pairs_of(list@)[j] == pairs_of(
                forward@,
            )[forward.len() - 1 - j] by {
                if j < prior.len() {
                    assert(list@[j] == prior[j]);
                    assert(pairs_of(prior)[j] == pairs_of(forward@)[forward.len() - 1 - j]);
                }
            }
        }
    }
    proof {
        assert(pairs_of(forward@).len() == forward@.len());
        assert(pairs_of(list@) =~= map_pairs(*data).reverse());
    }
    list
}

} // verus!
