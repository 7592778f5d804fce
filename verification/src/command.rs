//! What a command line asks of a store, and the order in which it is done:
//! first what comes in from other stores, then the edits, then the views.

use crate::config::{Config, ConfigModel};
use crate::order::sorted_form;
use crate::pairs::{merged, pairs_of, removed, value_of, with_pair, Pair};
use crate::error::ConfigError;
use crate::pattern::{
    matching, pattern_is_valid, pattern_refusal, try_create_regex, try_create_value_regex,
    value_pattern,
};
use crate::text::{replaced, texts_of};
use vstd::prelude::*;

verus! {

/// The line ending that the flags force on a written file: both letters, or
/// the flag for both, give a carriage return and a line feed; one letter
/// gives itself; no flag forces nothing.
pub fn forced_line_ending(lf: bool, cr: bool, crlf: bool) -> (r: Option<&'static str>)
    ensures
        match r {
            Some(ending) => ending@ == (if crlf || (lf && cr) {
                seq!['\r', '\n']
            } else if lf {
                seq!['\n']
            } else {
                seq!['\r']
            }),
            None => !lf && !cr && !crlf,
        },
        r is Some == (lf || cr || crlf),
{
    proof {
        reveal_strlit("\r\n");
        reveal_strlit("\n");
        reveal_strlit("\r");
        assert("\r\n"@ =~= seq!['\r', '\n']);
        assert("\n"@ =~= seq!['\n']);
        assert("\r"@ =~= seq!['\r']);
    }
    if crlf || (lf && cr) {
        Some("\r\n")
    } else if lf {
        Some("\n")
    } else if cr {
        Some("\r")
    } else {
        None
    }
}

/// A key, the text to look for in its value, and the text to put there.
pub type Swap = (Seq<char>, Seq<char>, Seq<char>);

/// The edits that a command line asks for.
pub struct Edits {
    /// Whether the store is sorted by key, which is done after the edits.
    pub sort: bool,
    /// Keys with the values they are to get.
    pub set: Vec<(String, String)>,
    /// Keys with a text to look for in their values and a text to put there.
    pub replace: Vec<(String, String, String)>,
    /// Keys to take out.
    pub delete: Vec<String>,
}

/// The swaps of a list of owned strings.
pub open spec fn swaps_of(list: Seq<(String, String, String)>) -> Seq<Swap> {
    Seq::new(list.len(), |i: int| (list[i].0@, list[i].1@, list[i].2@))
}

/// The entries of each store of a list.
pub open spec fn entries_of(stores: Seq<Config>) -> Seq<Seq<Pair>> {
    Seq::new(stores.len(), |i: int| stores[i].entries())
}

/// `pairs` after every store of `incoming` was merged into it in turn.
pub open spec fn merged_all(pairs: Seq<Pair>, incoming: Seq<Seq<Pair>>) -> Seq<Pair>
    decreases incoming.len(),
{
    if incoming.len() == 0 {
        pairs
    } else {
        merged(merged_all(pairs, incoming.drop_last()), incoming.last())
    }
}

/// `pairs` after one swap: the value of the key with every match of the text
/// replaced, or `pairs` itself where the key is not there.
pub open spec fn swapped(pairs: Seq<Pair>, swap: Swap) -> Seq<Pair> {
    match value_of(pairs, swap.0) {
        Some(value) => with_pair(pairs, swap.0, replaced(value, swap.1, swap.2)),
        None => pairs,
    }
}

/// `pairs` after every swap of `swaps` in turn.
pub open spec fn swapped_all(pairs: Seq<Pair>, swaps: Seq<Swap>) -> Seq<Pair>
    decreases swaps.len(),
{
    if swaps.len() == 0 {
        pairs
    } else {
        swapped(swapped_all(pairs, swaps.drop_last()), swaps.last())
    }
}

/// `pairs` after every key of `keys` was taken out in turn.
pub open spec fn removed_all(pairs: Seq<Pair>, keys: Seq<Seq<char>>) -> Seq<Pair>
    decreases keys.len(),
{
    if keys.len() == 0 {
        pairs
    } else {
        removed(removed_all(pairs, keys.drop_last()), keys.last())
    }
}

/// `pairs` after the edits, in their fixed order: the keys set, then the
/// swaps, then the keys taken out, and at last sorted if that is asked for.
pub open spec fn edited(
    pairs: Seq<Pair>,
    sort: bool,
    set: Seq<Pair>,
    replace: Seq<Swap>,
    delete: Seq<Seq<char>>,
) -> Seq<Pair> {
    let changed = removed_all(swapped_all(merged(pairs, set), replace), delete);
    if sort {
        sorted_form(changed)
    } else {
        changed
    }
}

/// One thing to print.
#[derive(Debug, Clone, PartialEq, Eq)]
pub enum Shown {
    /// A key alone.
    Key(String),
    /// A value alone, without quotation marks.
    Value(String),
    /// A key with its value, as a line of the file.
    Pair(String, String),
    /// All keys of the store, one per line.
    KeysList,
}

/// One thing to print, as plain text.
pub enum ShownModel {
    /// A key alone.
    Key(Seq<char>),
    /// A value alone.
    Value(Seq<char>),
    /// A key with its value.
    Pair(Seq<char>, Seq<char>),
    /// All keys of the store.
    KeysList,
}

impl View for Shown {
    type V = ShownModel;

    open spec fn view(&self) -> ShownModel {
        match self {
            Shown::Key(key) => ShownModel::Key(key@),
            Shown::Value(value) => ShownModel::Value(value@),
            Shown::Pair(key, value) => ShownModel::Pair(key@, value@),
            Shown::KeysList => ShownModel::KeysList,
        }
    }
}

/// The things of a list, as plain text.
pub open spec fn shown_of(list: Seq<Shown>) -> Seq<ShownModel> {
    Seq::new(list.len(), |i: int| list[i]@)
}

/// What is printed of the pairs that key and value pattern selected
/// together: each pair as a line, or, in list mode, its key and then its
/// value.
pub open spec fn both_views(found: Seq<Pair>, list: bool) -> Seq<ShownModel>
    decreases found.len(),
{
    if found.len() == 0 {
        Seq::empty()
    } else if list {
        both_views(found.drop_last(), list).push(ShownModel::Key(found.last().0)).push(
            ShownModel::Value(found.last().1),
        )
    } else {
        both_views(found.drop_last(), list).push(ShownModel::Pair(found.last().0, found.last().1))
    }
}

/// What is printed of the pairs that a key pattern selected: each pair as a
/// line, or, in list mode, its key.
pub open spec fn key_views(found: Seq<Pair>, list: bool) -> Seq<ShownModel> {
    Seq::new(
        found.len(),
        |i: int|
            if list {
                ShownModel::Key(found[i].0)
            } else {
                ShownModel::Pair(found[i].0, found[i].1)
            },
    )
}

/// What is printed of the pairs that a value pattern selected: each pair as
/// a line, or, in list mode, its value.
pub open spec fn value_views(found: Seq<Pair>, list: bool) -> Seq<ShownModel> {
    Seq::new(
        found.len(),
        |i: int|
            if list {
                ShownModel::Value(found[i].1)
            } else {
                ShownModel::Pair(found[i].0, found[i].1)
            },
    )
}

/// What a query prints of the pairs `output`. With both patterns a pair has
/// to match both. With none, list mode prints all keys and nothing is
/// printed otherwise. With one, or in turn with each, the pairs that match
/// it are printed.
pub open spec fn query_views(
    output: Seq<Pair>,
    key: Option<Seq<char>>,
    value: Option<Seq<char>>,
    list: bool,
) -> Seq<ShownModel> {
    match (key, value) {
        (Some(k), Some(v)) => both_views(matching(output, Some(k), Some(value_pattern(v))), list),
        (Some(k), None) => key_views(matching(output, Some(k), None), list),
        (None, Some(v)) => value_views(matching(output, None, Some(value_pattern(v))), list),
        (None, None) => if list {
            seq![ShownModel::KeysList]
        } else {
            Seq::empty()
        },
    }
}

/// The pattern of a query that the engine refuses, if there is one: that
/// of the key before that of the value.
pub open spec fn refused_pattern(key: Option<Seq<char>>, value: Option<Seq<char>>) -> Option<
    Seq<char>,
> {
    match (key, value) {
        (Some(k), _) if !pattern_is_valid(k) => key,
        (_, Some(v)) if !pattern_is_valid(value_pattern(v)) => Some(value_pattern(v)),
        _ => None,
    }
}

/// The values of the keys of `keys` that `pairs` has, in the order of the
/// keys.
pub open spec fn values_got(pairs: Seq<Pair>, keys: Seq<Seq<char>>) -> Seq<Seq<char>>
    decreases keys.len(),
{
    if keys.len() == 0 {
        Seq::empty()
    } else {
        match value_of(pairs, keys.last()) {
            Some(value) => values_got(pairs, keys.drop_last()).push(value),
            None => values_got(pairs, keys.drop_last()),
        }
    }
}

impl Config {
    /// Merges every store of `updates` into this one, first to last: what
    /// comes in later replaces what came in before.
    pub fn apply_updates(&mut self, updates: &Vec<Config>)
        ensures
            old(self).wf() ==> final(self).wf(),
            final(self)@ == (ConfigModel {
                entries: merged_all(old(self).entries(), entries_of(updates@)),
                ..old(self)@
            }),
    {
        let ghost incoming = entries_of(updates@);
        let mut i: usize = 0;
        while i < updates.len()
            invariant
                i <= updates.len(),
                incoming == entries_of(updates@),
                old(self).wf() ==> self.wf(),
                self@ == (ConfigModel {
                    entries: merged_all(old(self).entries(), incoming.take(i as int)),
                    ..old(self)@
                }),
            decreases updates.len() - i,
        {
            proof {
                assert(incoming.take(i + 1).drop_last() =~= incoming.take(i as int));
                assert(incoming.take(i + 1).last() == updates@[i as int].entries());
            }
            self.insert_from_config(&updates[i]);
            i += 1;
        }
        proof {
            assert(incoming.take(i as int) =~= incoming);
        }
    }

    /// Makes the edits in their fixed order: sets the keys, then makes the
    /// swaps, then takes the keys out, and at last sorts if that is asked
    /// for.
    pub fn apply_edits(&mut self, edits: &Edits)
        ensures
            old(self).wf() ==> final(self).wf(),
            final(self)@ == (ConfigModel {
                entries: edited(
                    old(self).entries(),
                    edits.sort,
                    pairs_of(edits.set@),
                    swaps_of(edits.replace@),
                    texts_of(edits.delete@),
                ),
                ..old(self)@
            }),
    {
        let ghost before = self.entries();
        let ghost set = pairs_of(edits.set@);
        let ghost swaps = swaps_of(edits.replace@);
        let ghost keys = texts_of(edits.delete@);
        let mut i: usize = 0;
        while i < edits.set.len()
            invariant
                i <= edits.set.len(),
                set == pairs_of(edits.set@),
                old(self).wf() ==> self.wf(),
                self.entries() == merged(before, set.take(i as int)),
                self@ == (ConfigModel { entries: self.entries(), ..old(self)@ }),
            decreases edits.set.len() - i,
        {
            proof {
                assert(set.take(i + 1).drop_last() =~= set.take(i as int));
                assert(set.take(i + 1).last() == (
                    edits.set@[i as int].0@,
                    edits.set@[i as int].1@,
                ));
            }
            self.set(edits.set[i].0.as_str(), edits.set[i].1.as_str());
            i += 1;
        }
        proof {
            assert(set.take(i as int) =~= set);
        }
        let ghost after_set = self.entries();
        let mut j: usize = 0;
        while j < edits.replace.len()
            invariant
                j <= edits.replace.len(),
                swaps == swaps_of(edits.replace@),
                old(self).wf() ==> self.wf(),
                self.entries() == swapped_all(after_set, swaps.take(j as int)),
                self@ == (ConfigModel { entries: self.entries(), ..old(self)@ }),
            decreases edits.replace.len() - j,
        {
            proof {
                assert(swaps.take(j + 1).drop_last() =~= swaps.take(j as int));
                assert(swaps.take(j + 1).last() == (
                    edits.replace@[j as int].0@,
                    edits.replace@[j as int].1@,
                    edits.replace@[j as int].2@,
                ));
            }
            self.replace(
                edits.replace[j].0.as_str(),
                edits.replace[j].1.as_str(),
                edits.replace[j].2.as_str(),
            );
            j += 1;
        }
        proof {
            assert(swaps.take(j as int) =~= swaps);
        }
        let ghost after_swaps = self.entries();
        let mut k: usize = 0;
        while k < edits.delete.len()
            invariant
                k <= edits.delete.len(),
                keys == texts_of(edits.delete@),
                old(self).wf() ==> self.wf(),
                self.entries() == removed_all(after_swaps, keys.take(k as int)),
                self@ == (ConfigModel { entries: self.entries(), ..old(self)@ }),
            decreases edits.delete.len() - k,
        {
            proof {
                assert(keys.take(k + 1).drop_last() =~= keys.take(k as int));
                assert(keys.take(k + 1).last() == edits.delete@[k as int]@);
            }
            self.remove(edits.delete[k].as_str());
            k += 1;
        }
        proof {
            assert(keys.take(k as int) =~= keys);
        }
        if edits.sort {
            self.sort();
        }
    }

    /// The values of the keys of `keys` that the store has, in the order of
    /// the keys.
    pub fn get_all(&self, keys: &Vec<String>) -> (values: Vec<String>)
        ensures
            texts_of(values@) == values_got(self.entries(), texts_of(keys@)),
    {
        let ghost wanted = texts_of(keys@);
        let mut values: Vec<String> = Vec::new();
        let mut i: usize = 0;
        proof {
            assert(texts_of(values@) =~= values_got(self.entries(), wanted.take(0)));
        }
        while i < keys.len()
            invariant
                i <= keys.len(),
                wanted == texts_of(keys@),
                texts_of(values@) == values_got(self.entries(), wanted.take(i as int)),
            decreases keys.len() - i,
        {
            let ghost prior = values@;
            proof {
                assert(wanted.take(i + 1).drop_last() =~= wanted.take(i as int));
                assert(wanted.take(i + 1).last() == keys@[i as int]@);
            }
            if let Some(value) = self.get(keys[i].as_str()) {
                values.push(value);
                proof {
                    assert(texts_of(values@) =~= texts_of(prior).push(value@));
                }
            }
            i += 1;
        }
        proof {
            assert(wanted.take(i as int) =~= wanted);
        }
        values
    }

    /// What a query prints: see `query_views`. The patterns are tested
    /// first: one that the engine refuses is an error, that of the key
    /// before that of the value, and nothing is looked for then.
    pub fn query(&self, key: Option<&str>, value: Option<&str>, list: bool) -> (r: Result<
        Vec<Shown>,
        ConfigError,
    >)
        ensures
            r is Ok == refused_pattern(opt_str(key), opt_str(value)) is None,
            r matches Ok(views) ==> shown_of(views@) == query_views(
                self.output(),
                opt_str(key),
                opt_str(value),
                list,
            ),
            r matches Err(e) ==> e is InvalidRegex && Some(e.refused()) == refused_pattern(
                opt_str(key),
                opt_str(value),
            ) && e.told() == pattern_refusal(e.refused()),
    {
        match (key, value) {
            (Some(k), Some(v)) => {
                if let Err(e) = try_create_regex(k) {
                    return Err(e);
                }
                if let Err(e) = try_create_value_regex(v) {
                    return Err(e);
                }
                let found = self.find(k, v);
                Ok(views_of_both(&found, list))
            },
            (Some(k), None) => {
                if let Err(e) = try_create_regex(k) {
                    return Err(e);
                }
                let found = self.find_by_key(k);
                Ok(views_of_one(&found, list, true))
            },
            (None, Some(v)) => {
                if let Err(e) = try_create_value_regex(v) {
                    return Err(e);
                }
                let found = self.find_by_value(v);
                Ok(views_of_one(&found, list, false))
            },
            (None, None) => {
                let mut views: Vec<Shown> = Vec::new();
                if list {
                    views.push(Shown::KeysList);
                }
                proof {
                    assert(shown_of(views@) =~= query_views(self.output(), None, None, list));
                }
                Ok(views)
            },
        }
    }
    /// What one store goes through, in its fixed order: the updates come
    /// in, the edits are made, the values of the wanted keys are got, and
    /// the query is made. The values come back in the order of the keys, and
    /// what the query prints behind them. An error of the query leaves the
    /// updates and edits made.
    pub fn process(
        &mut self,
        updates: &Vec<Config>,
        edits: &Edits,
        wanted: &Vec<String>,
        key: Option<&str>,
        value: Option<&str>,
        list: bool,
    ) -> (r: Result<(Vec<String>, Vec<Shown>), ConfigError>)
        ensures
            old(self).wf() ==> final(self).wf(),
            final(self)@ == (ConfigModel {
                entries: edited(
                    merged_all(old(self).entries(), entries_of(updates@)),
                    edits.sort,
                    pairs_of(edits.set@),
                    swaps_of(edits.replace@),
                    texts_of(edits.delete@),
                ),
                ..old(self)@
            }),
            r is Ok == refused_pattern(opt_str(key), opt_str(value)) is None,
            r matches Ok(out) ==> texts_of(out.0@) == values_got(
                final(self).entries(),
                texts_of(wanted@),
            ) && shown_of(out.1@) == query_views(
                final(self).output(),
                opt_str(key),
                opt_str(value),
                list,
            ),
            r matches Err(e) ==> e is InvalidRegex && Some(e.refused()) == refused_pattern(
                opt_str(key),
                opt_str(value),
            ) && e.told() == pattern_refusal(e.refused()),
    {
        self.apply_updates(updates);
        self.apply_edits(edits);
        let values = self.get_all(wanted);
        match self.query(key, value, list) {
            Ok(views) => Ok((values, views)),
            Err(e) => Err(e),
        }
    }
}

/// The text of an optional string slice.
pub open spec fn opt_str(o: Option<&str>) -> Option<Seq<char>> {
    match o {
        Some(s) => Some(s@),
        None => None,
    }
}

/// What is printed of pairs that were found by key and value together: see
/// `both_views`.
pub fn views_of_both(found: &Vec<(String, String)>, list: bool) -> (views: Vec<Shown>)
    ensures
        shown_of(views@) == both_views(pairs_of(found@), list),
{
    let ghost all = pairs_of(found@);
    let mut views: Vec<Shown> = Vec::new();
    let mut i: usize = 0;
    proof {
        assert(shown_of(views@) =~= both_views(all.take(0), list));
    }
    while i < found.len()
        invariant
            i <= found.len(),
            all == pairs_of(found@),
            shown_of(views@) == both_views(all.take(i as int), list),
        decreases found.len() - i,
    {
        let ghost prior = views@;
        proof {
            assert(all.take(i + 1).drop_last() =~= all.take(i as int));
            assert(all.take(i + 1).last() == (found@[i as int].0@, found@[i as int].1@));
        }
        if list {
            views.push(Shown::Key(found[i].0.clone()));
            views.push(Shown::Value(found[i].1.clone()));
            proof {
                assert(shown_of(views@) =~= shown_of(prior).push(
                    ShownModel::Key(found@[i as int].0@),
                ).push(ShownModel::Value(found@[i as int].1@)));
            }
        } else {
            views.push(Shown::Pair(found[i].0.clone(), found[i].1.clone()));
            proof {
                assert(shown_of(views@) =~= shown_of(prior).push(
                    ShownModel::Pair(found@[i as int].0@, found@[i as int].1@),
                ));
            }
        }
        i += 1;
    }
    proof {
        assert(all.take(i as int) =~= all);
    }
    views
}

/// What is printed of pairs that were found by one pattern: each pair as a
/// line, or, in list mode, the part of it that the pattern was for: the key
/// where `by_key` is set, else the value.
pub fn views_of_one(found: &Vec<(String, String)>, list: bool, by_key: bool) -> (views: Vec<Shown>)
    ensures
        shown_of(views@) == if by_key {
            key_views(pairs_of(found@), list)
        } else {
            value_views(pairs_of(found@), list)
        },
{
    let mut views: Vec<Shown> = Vec::new();
    let mut i: usize = 0;
    while i < found.len()
        invariant
            i <= found.len(),
            views@.len() == i,
            forall|j: int|
                0 <= j < i ==> (#[trigger] views@[j])@ == (if by_key {
                    key_views(pairs_of(found@), list)[j]
                } else {
                    value_views(pairs_of(found@), list)[j]
                }),
        decreases found.len() - i,
    {
        if !list {
            views.push(Shown::Pair(found[i].0.clone(), found[i].1.clone()));
        } else if by_key {
            views.push(Shown::Key(found[i].0.clone()));
        } else {
            views.push(Shown::Value(found[i].1.clone()));
        }
        i += 1;
    }
    proof {
        if by_key {
            assert(shown_of(views@) =~= key_views(pairs_of(found@), list));
        } else {
            assert(shown_of(views@) =~= value_views(pairs_of(found@), list));
        }
    }
    views
}

} // verus!
