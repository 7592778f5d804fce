//! The entries of a store as a sequence of pairs, oldest insertion first,
//! and what the editing operations make of it.

use crate::text::{joined, pair_line, parsed_line, trimmed};
use vstd::prelude::*;

verus! {

/// A key with its value, as plain text.
pub type Pair = (Seq<char>, Seq<char>);

/// Whether some pair of `pairs` has the key `key`.
pub open spec fn has_key(pairs: Seq<Pair>, key: Seq<char>) -> bool {
    exists|i: int| 0 <= i < pairs.len() && (#[trigger] pairs[i]).0 == key
}

/// The index at which `key` stands in `pairs`. Among distinct keys there is
/// one such index at most.
pub open spec fn position(pairs: Seq<Pair>, key: Seq<char>) -> int {
    choose|i: int| 0 <= i < pairs.len() && (#[trigger] pairs[i]).0 == key
}

/// No two pairs share a key.
pub open spec fn distinct_keys(pairs: Seq<Pair>) -> bool {
    forall|i: int, j: int|
        0 <= i < pairs.len() && 0 <= j < pairs.len() && (#[trigger] pairs[i]).0 == (
        #[trigger] pairs[j]).0 ==> i == j
}

/// The value stored under `key`, if any.
pub open spec fn value_of(pairs: Seq<Pair>, key: Seq<char>) -> Option<Seq<char>> {
    if has_key(pairs, key) {
        Some(pairs[position(pairs, key)].1)
    } else {
        None
    }
}

/// `pairs` after `key` was given `value`: an existing key keeps its place and
/// takes the new value, a new key goes to the end.
pub open spec fn with_pair(pairs: Seq<Pair>, key: Seq<char>, value: Seq<char>) -> Seq<Pair> {
    if has_key(pairs, key) {
        pairs.update(position(pairs, key), (key, value))
    } else {
        pairs.push((key, value))
    }
}

/// `pairs` after `key` was taken out: the others stay in their order.
pub open spec fn removed(pairs: Seq<Pair>, key: Seq<char>) -> Seq<Pair> {
    if has_key(pairs, key) {
        pairs.remove(position(pairs, key))
    } else {
        pairs
    }
}

/// The pairs of a list of owned strings.
pub open spec fn pairs_of(list: Seq<(String, String)>) -> Seq<Pair> {
    Seq::new(list.len(), |i: int| (list[i].0@, list[i].1@))
}

/// The keys of `pairs`, in their order.
pub open spec fn keys_of(pairs: Seq<Pair>) -> Seq<Seq<char>> {
    Seq::new(pairs.len(), |i: int| pairs[i].0)
}

/// The values of `pairs`, in their order.
pub open spec fn values_of(pairs: Seq<Pair>) -> Seq<Seq<char>> {
    Seq::new(pairs.len(), |i: int| pairs[i].1)
}

/// `base` after each pair of `incoming` was given to it in turn, as
/// `with_pair` gives one.
pub open spec fn merged(base: Seq<Pair>, incoming: Seq<Pair>) -> Seq<Pair>
    decreases incoming.len(),
{
    if incoming.len() == 0 {
        base
    } else {
        with_pair(merged(base, incoming.drop_last()), incoming.last().0, incoming.last().1)
    }
}

/// Merging keeps the keys distinct. A key of `incoming` then has the value
/// of its last pair there, and any other key has the value it had.
pub proof fn lemma_merged(base: Seq<Pair>, incoming: Seq<Pair>)
    requires
        distinct_keys(base),
    ensures
        distinct_keys(merged(base, incoming)),
        forall|key: Seq<char>|
            !has_key(incoming, key) ==> value_of(merged(base, incoming), key) == value_of(
                base,
                key,
            ),
        forall|i: int|
            0 <= i < incoming.len() && (forall|j: int|
                i < j < incoming.len() ==> incoming[j].0 != incoming[i].0) ==> value_of(
                merged(base, incoming),
                (#[trigger] incoming[i]).0,
            ) == Some(incoming[i].1),
    decreases incoming.len(),
{
    if incoming.len() > 0 {
        let front = incoming.drop_last();
        let last = incoming.last();
        lemma_merged(base, front);
        lemma_with_pair(merged(base, front), last.0, last.1);
        assert forall|key: Seq<char>| !has_key(incoming, key) implies value_of(
            merged(base, incoming),
            key,
        ) == value_of(base, key) by {
            assert(key != last.0) by {
                if key == last.0 {
                    assert(incoming[incoming.len() - 1].0 == key);
                }
            }
            if has_key(front, key) {
                let i = position(front, key);
                assert(front[i].0 == key);
                assert(incoming[i].0 == key);
            }
        }
        assert forall|i: int|
            0 <= i < incoming.len() && (forall|j: int|
                i < j < incoming.len() ==> incoming[j].0 != incoming[i].0) implies value_of(
            merged(base, incoming),
            (#[trigger] incoming[i]).0,
        ) == Some(incoming[i].1) by {
            if i < incoming.len() - 1 {
                assert(incoming[incoming.len() - 1].0 != incoming[i].0);
                assert(front[i] == incoming[i]);
                assert forall|j: int| i < j < front.len() implies front[j].0 != front[i].0 by {
                    assert(front[j] == incoming[j]);
                }
            }
        }
    }
}

/// The lines that show `pairs`, in their order: each key and value trimmed.
pub open spec fn shown_lines(pairs: Seq<Pair>) -> Seq<Seq<char>> {
    Seq::new(pairs.len(), |i: int| pair_line(trimmed(pairs[i].0), trimmed(pairs[i].1)))
}

/// The pairs as they are shown: each key and value trimmed.
pub open spec fn shown_pairs(pairs: Seq<Pair>) -> Seq<Pair> {
    Seq::new(pairs.len(), |i: int| (trimmed(pairs[i].0), trimmed(pairs[i].1)))
}

/// The text that shows `pairs` without decoration: their lines with `sep`
/// between each two.
pub open spec fn rendered(pairs: Seq<Pair>, sep: Seq<char>) -> Seq<char> {
    joined(shown_lines(pairs), sep)
}

/// The store after `key` was taken out and put back with `value` as its
/// newest entry, the first in output.
pub open spec fn prepended(pairs: Seq<Pair>, key: Seq<char>, value: Seq<char>) -> Seq<Pair> {
    removed(pairs, key).push((key, value))
}

/// `pairs` after one line was read into it: a line that holds a pair gives
/// it as `with_pair` does, any other line changes nothing.
pub open spec fn with_line(pairs: Seq<Pair>, line: Seq<char>) -> Seq<Pair> {
    match parsed_line(line) {
        Some((key, value)) => with_pair(pairs, key, value),
        None => pairs,
    }
}

/// `base` after each of `lines` was read into it in turn.
pub open spec fn fed(base: Seq<Pair>, lines: Seq<Seq<char>>) -> Seq<Pair>
    decreases lines.len(),
{
    if lines.len() == 0 {
        base
    } else {
        with_line(fed(base, lines.drop_last()), lines.last())
    }
}

/// Reading a line keeps the keys distinct.
pub proof fn lemma_with_line(pairs: Seq<Pair>, line: Seq<char>)
    requires
        distinct_keys(pairs),
    ensures
        distinct_keys(with_line(pairs, line)),
{
    match parsed_line(line) {
        Some((key, value)) => {
            lemma_with_pair(pairs, key, value);
        },
        None => {},
    }
}

/// Reading lines keeps the keys distinct.
pub proof fn lemma_fed(base: Seq<Pair>, lines: Seq<Seq<char>>)
    requires
        distinct_keys(base),
    ensures
        distinct_keys(fed(base, lines)),
    decreases lines.len(),
{
    if lines.len() > 0 {
        lemma_fed(base, lines.drop_last());
        lemma_with_line(fed(base, lines.drop_last()), lines.last());
    }
}

/// Giving a key a value keeps the keys distinct, and the key then has that
/// value.
pub proof fn lemma_with_pair(pairs: Seq<Pair>, key: Seq<char>, value: Seq<char>)
    requires
        distinct_keys(pairs),
    ensures
        distinct_keys(with_pair(pairs, key, value)),
        has_key(with_pair(pairs, key, value), key),
        value_of(with_pair(pairs, key, value), key) == Some(value),
        forall|other: Seq<char>|
            other != key ==> has_key(with_pair(pairs, key, value), other) == has_key(pairs, other),
        forall|other: Seq<char>|
            other != key ==> value_of(with_pair(pairs, key, value), other) == value_of(
                pairs,
                other,
            ),
{
    let after = with_pair(pairs, key, value);
    let at = if has_key(pairs, key) {
        position(pairs, key)
    } else {
        pairs.len() as int
    };
    assert(after[at] == (key, value));
    assert(after.len() > at);
    assert forall|i: int| 0 <= i < after.len() && i != at implies 0 <= i < pairs.len()
        && #[trigger] after[i] == pairs[i] && after[i].0 != key by {
        if has_key(pairs, key) {
            assert(pairs[at].0 == key);
        } else {
            assert(pairs[i].0 != key);
        }
    }
    assert forall|i: int| 0 <= i < pairs.len() && i != at implies #[trigger] pairs[i]
        == after[i] by {}
    assert(distinct_keys(after)) by {
        assert forall|i: int, j: int|
            0 <= i < after.len() && 0 <= j < after.len() && (#[trigger] after[i]).0 == (
            #[trigger] after[j]).0 implies i == j by {
            if i != at && j != at {
                assert(pairs[i].0 == pairs[j].0);
            }
        }
    }
    assert(has_key(after, key));
    assert(position(after, key) == at);
    assert forall|other: Seq<char>| other != key implies has_key(after, other) == has_key(
        pairs,
        other,
    ) && value_of(after, other) == value_of(pairs, other) by {
        if has_key(pairs, other) {
            let i = position(pairs, other);
            assert(pairs[i].0 == other);
            assert(after[i] == pairs[i]);
            assert(has_key(after, other));
            let j = position(after, other);
            assert(after[j].0 == other);
            assert(after[i].0 == after[j].0);
        } else if has_key(after, other) {
            let j = position(after, other);
            assert(after[j].0 == other);
            assert(pairs[j].0 == other);
        }
    }
}

/// Where keys are distinct, a key stands at the one index that holds it.
pub proof fn lemma_position(pairs: Seq<Pair>, i: int)
    requires
        distinct_keys(pairs),
        0 <= i < pairs.len(),
    ensures
        has_key(pairs, pairs[i].0),
        position(pairs, pairs[i].0) == i,
        value_of(pairs, pairs[i].0) == Some(pairs[i].1),
{
    let key = pairs[i].0;
    assert(has_key(pairs, key));
    let j = position(pairs, key);
    assert(pairs[j].0 == pairs[i].0);
}

/// Taking a key out keeps the keys distinct and every other key with its
/// value, and the key is then gone.
pub proof fn lemma_removed(pairs: Seq<Pair>, key: Seq<char>)
    requires
        distinct_keys(pairs),
    ensures
        distinct_keys(removed(pairs, key)),
        !has_key(removed(pairs, key), key),
        forall|other: Seq<char>|
            other != key ==> value_of(removed(pairs, key), other) == value_of(pairs, other),
        forall|other: Seq<char>|
            other != key ==> has_key(removed(pairs, key), other) == has_key(pairs, other),
{
    let after = removed(pairs, key);
    if has_key(pairs, key) {
        let at = position(pairs, key);
        assert(pairs[at].0 == key);
        assert forall|i: int| 0 <= i < after.len() implies #[trigger] after[i] == (if i < at {
            pairs[i]
        } else {
            pairs[i + 1]
        }) by {}
        assert(distinct_keys(after)) by {
            assert forall|i: int, j: int|
                0 <= i < after.len() && 0 <= j < after.len() && (#[trigger] after[i]).0 == (
                #[trigger] after[j]).0 implies i == j by {
                let a = if i < at {
                    i
                } else {
                    i + 1
                };
                let b = if j < at {
                    j
                } else {
                    j + 1
                };
                assert(pairs[a].0 == pairs[b].0);
            }
        }
        assert(!has_key(after, key)) by {
            if has_key(after, key) {
                let i = position(after, key);
                assert(after[i].0 == key);
                let a = if i < at {
                    i
                } else {
                    i + 1
                };
                assert(pairs[a].0 == pairs[at].0);
            }
        }
        assert forall|other: Seq<char>| other != key implies value_of(after, other) == value_of(
            pairs,
            other,
        ) && has_key(after, other) == has_key(pairs, other) by {
            if has_key(pairs, other) {
                let i = position(pairs, other);
                assert(pairs[i].0 == other);
                let a = if i < at {
                    i
                } else {
                    i - 1
                };
                assert(after[a] == pairs[i]);
                lemma_position(after, a);
            } else if has_key(after, other) {
                let j = position(after, other);
                assert(after[j].0 == other);
                let a = if j < at {
                    j
                } else {
                    j + 1
                };
                assert(pairs[a].0 == other);
            }
        }
    }
}

} // verus!
