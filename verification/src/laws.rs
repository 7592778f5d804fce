//! What holds of the store whatever it contains: the order of entries
//! under the editing operations, which of two values wins, and what reading
//! back a written store gives.

use crate::order::{is_sorted_form, keys_strictly_ascend, lemma_sorted_form_unique};
use crate::pairs::{
    distinct_keys, fed, has_key, keys_of, lemma_fed, lemma_merged, lemma_position,
    lemma_removed, lemma_with_pair, merged, position, prepended, removed, rendered,
    shown_lines, shown_pairs, value_of, with_pair, Pair,
};
use crate::text::{
    is_first_at, is_line_break, is_space, is_whole_line, lemma_first_index,
    lemma_lines_of_joined, lemma_trimmed, lines_of, pair_line, parsed_line, trim_end, trim_start,
    trimmed, unquoted,
};
use vstd::prelude::*;

verus! {

/// A pair that is written as a line and read again is the pair that was
/// written: key and value trimmed, as the line shows them. This holds of
/// every key that, trimmed, holds no `=`.
pub proof fn shown_line_reads_back(key: Seq<char>, value: Seq<char>)
    requires
        !trimmed(key).contains('='),
    ensures
        parsed_line(pair_line(trimmed(key), trimmed(value))) == Some(
            (trimmed(key), trimmed(value)),
        ),
{
    let k = trimmed(key);
    let v = trimmed(value);
    let line = pair_line(k, v);
    let at = k.len() as int + 1;
    lemma_trimmed(key);
    lemma_trimmed(value);
    lemma_trimmed(k);
    assert(line[at] == '=');
    assert forall|j: int| 0 <= j < at implies line[j] != '=' by {
        if j < k.len() {
            assert(line[j] == k[j]);
            assert(k.contains(k[j]));
        }
    }
    assert(is_first_at(line, '=', at));
    lemma_first_index(line, '=', at);
    // the key side
    let left = line.take(at);
    assert(left =~= k.push(' '));
    assert(is_space(' '));
    assert(left.drop_last() =~= k);
    if k.len() == 0 {
        assert(left.drop_first() =~= Seq::<char>::empty());
        assert(trim_start(left) == trim_start(left.drop_first()));
        assert(trimmed(left) =~= k);
    } else {
        assert(left[0] == k[0]);
        assert(trim_start(left) == left);
        assert(trim_end(left) == trim_end(k));
        assert(trim_start(k) == k);
        assert(trimmed(left) == k);
    }
    // the value side
    let right = line.skip(at + 1);
    let quoted = seq!['"'] + v + seq!['"'];
    assert(right =~= seq![' '] + quoted);
    assert(right.drop_first() =~= quoted);
    assert(!is_space('"'));
    assert(quoted[0] == '"');
    assert(quoted.last() == '"');
    assert(trim_start(right) == trim_start(quoted));
    assert(trim_start(quoted) == quoted);
    assert(trim_end(quoted) == quoted);
    assert(trimmed(right) == quoted);
    assert(quoted.drop_first() =~= v + seq!['"']);
    assert(quoted.drop_first().drop_last() =~= v);
    assert(unquoted(quoted) == v);
}

/// Whether a text can stand in a line as a key or a value: it holds no line
/// feed.
pub open spec fn fits_a_line(text: Seq<char>) -> bool {
    !text.contains('\n')
}

/// A store that is written and read again is the store that was written,
/// entry for entry and in the same order, each key and value trimmed as it
/// was written. This holds where the line ending is a line feed, alone or
/// behind a carriage return, where no two keys are the same once trimmed, and
/// where no key or value, trimmed, holds a line feed and no key an `=`.
pub proof fn written_store_reads_back(pairs: Seq<Pair>, sep: Seq<char>)
    requires
        is_line_break(sep),
        distinct_keys(shown_pairs(pairs)),
        forall|i: int|
            0 <= i < pairs.len() ==> {
                &&& fits_a_line(trimmed((#[trigger] pairs[i]).0))
                &&& fits_a_line(trimmed(pairs[i].1))
                &&& !trimmed(pairs[i].0).contains('=')
            },
    ensures
        fed(Seq::empty(), lines_of(rendered(pairs.reverse(), sep)).reverse()) == shown_pairs(pairs),
{
    let output = pairs.reverse();
    let lines = shown_lines(output);
    assert forall|i: int| 0 <= i < lines.len() implies is_whole_line(#[trigger] lines[i]) by {
        let pair = output[i];
        assert(pair == pairs[pairs.len() - 1 - i]);
        lemma_shown_line_is_whole(pair.0, pair.1);
    }
    lemma_lines_of_joined(lines, sep);
    assert(lines.reverse() =~= shown_lines(pairs));
    lemma_shown_lines_read_back(pairs);
}

/// The line that shows a pair is a whole line where key and value fit one.
proof fn lemma_shown_line_is_whole(key: Seq<char>, value: Seq<char>)
    requires
        fits_a_line(trimmed(key)),
        fits_a_line(trimmed(value)),
    ensures
        is_whole_line(pair_line(trimmed(key), trimmed(value))),
{
    let k = trimmed(key);
    let v = trimmed(value);
    let line = pair_line(k, v);
    assert(line.last() == '"');
    if line.contains('\n') {
        let j = choose|j: int| 0 <= j < line.len() && line[j] == '\n';
        if j < k.len() {
            assert(line[j] == k[j]);
            assert(k.contains('\n'));
        } else if j < k.len() + 4 {
            assert(line[j] == seq![' ', '=', ' ', '"'][j - k.len()]);
        } else if j < k.len() + 4 + v.len() {
            assert(line[j] == v[j - k.len() - 4]);
            assert(v.contains('\n'));
        }
    }
}

/// The lines that show the pairs of a store, read in turn into an empty
/// store, give the pairs as they are shown.
proof fn lemma_shown_lines_read_back(pairs: Seq<Pair>)
    requires
        distinct_keys(shown_pairs(pairs)),
        forall|i: int| 0 <= i < pairs.len() ==> !trimmed((#[trigger] pairs[i]).0).contains('='),
    ensures
        fed(Seq::empty(), shown_lines(pairs)) == shown_pairs(pairs),
    decreases pairs.len(),
{
    let lines = shown_lines(pairs);
    let shown = shown_pairs(pairs);
    if pairs.len() == 0 {
        assert(fed(Seq::empty(), lines) =~= shown);
    } else {
        let front = pairs.drop_last();
        let last = pairs.last();
        assert(lines.drop_last() =~= shown_lines(front));
        assert(shown.drop_last() =~= shown_pairs(front));
        assert forall|i: int, j: int|
            0 <= i < front.len() && 0 <= j < front.len() && (#[trigger] shown_pairs(front)[i]).0
                == (#[trigger] shown_pairs(front)[j]).0 implies i == j by {
            assert(shown[i].0 == shown[j].0);
        }
        assert forall|i: int| 0 <= i < front.len() implies !trimmed(
            (#[trigger] front[i]).0,
        ).contains('=') by {
            assert(front[i] == pairs[i]);
        }
        lemma_shown_lines_read_back(front);
        assert(pairs[pairs.len() - 1] == last);
        shown_line_reads_back(last.0, last.1);
        let key = trimmed(last.0);
        assert(!has_key(shown_pairs(front), key)) by {
            if has_key(shown_pairs(front), key) {
                let i = position(shown_pairs(front), key);
                assert(shown_pairs(front)[i].0 == key);
                assert(shown[i].0 == shown[pairs.len() - 1].0);
            }
        }
        assert(shown_pairs(front).push((key, trimmed(last.1))) =~= shown);
    }
}

/// Of the lines of a text that give one key, the topmost gives the value:
/// after the text was read bottom line first, the key has the value of the
/// first line that holds it.
pub proof fn first_occurrence_wins(
    base: Seq<Pair>,
    lines: Seq<Seq<char>>,
    i: int,
    key: Seq<char>,
    value: Seq<char>,
)
    requires
        distinct_keys(base),
        0 <= i < lines.len(),
        parsed_line(lines[i]) == Some((key, value)),
        forall|j: int| 0 <= j < i ==> !gives_key(#[trigger] lines[j], key),
    ensures
        value_of(fed(base, lines.reverse()), key) == Some(value),
{
    let turned = lines.reverse();
    let n = lines.len() as int;
    assert(turned[n - 1 - i] == lines[i]);
    assert forall|m: int| n - 1 - i < m < n implies !gives_key(#[trigger] turned[m], key) by {
        assert(turned[m] == lines[n - 1 - m]);
    }
    last_line_wins(base, turned, n - 1 - i, key, value);
}

/// Whether a line holds a pair with the key `key`.
pub open spec fn gives_key(line: Seq<char>, key: Seq<char>) -> bool {
    match parsed_line(line) {
        Some((k, _)) => k == key,
        None => false,
    }
}

/// Of the lines read in turn that give one key, the last gives the value.
pub proof fn last_line_wins(
    base: Seq<Pair>,
    lines: Seq<Seq<char>>,
    i: int,
    key: Seq<char>,
    value: Seq<char>,
)
    requires
        distinct_keys(base),
        0 <= i < lines.len(),
        parsed_line(lines[i]) == Some((key, value)),
        forall|j: int| i < j < lines.len() ==> !gives_key(#[trigger] lines[j], key),
    ensures
        value_of(fed(base, lines), key) == Some(value),
    decreases lines.len(),
{
    let front = lines.drop_last();
    let last = lines.last();
    lemma_fed(base, front);
    if i == lines.len() - 1 {
        lemma_with_pair(fed(base, front), key, value);
    } else {
        assert(front[i] == lines[i]);
        assert forall|j: int| i < j < front.len() implies !gives_key(#[trigger] front[j], key) by {
            assert(front[j] == lines[j]);
        }
        last_line_wins(base, front, i, key, value);
        assert(!gives_key(lines[lines.len() - 1], key));
        match parsed_line(last) {
            Some((k, v)) => {
                lemma_with_pair(fed(base, front), k, v);
            },
            None => {},
        }
    }
}

/// Where a key is in both stores, merging gives it the value of the store
/// that comes in; a key of this store alone keeps its value.
pub proof fn merge_takes_incoming_value(base: Seq<Pair>, incoming: Seq<Pair>, key: Seq<char>)
    requires
        distinct_keys(base),
        distinct_keys(incoming),
    ensures
        value_of(merged(base, incoming), key) == if has_key(incoming, key) {
            value_of(incoming, key)
        } else {
            value_of(base, key)
        },
{
    lemma_merged(base, incoming);
    if has_key(incoming, key) {
        let i = position(incoming, key);
        assert(incoming[i].0 == key);
        lemma_position(incoming, i);
    }
}

/// Giving a value to a key that the store has leaves every key at its
/// place, in the store and so in output, and every other key with its value.
pub proof fn set_keeps_order(pairs: Seq<Pair>, key: Seq<char>, value: Seq<char>)
    requires
        distinct_keys(pairs),
        has_key(pairs, key),
    ensures
        keys_of(with_pair(pairs, key, value)) == keys_of(pairs),
        keys_of(with_pair(pairs, key, value).reverse()) == keys_of(pairs.reverse()),
        forall|other: Seq<char>|
            other != key ==> value_of(with_pair(pairs, key, value), other) == value_of(
                pairs,
                other,
            ),
{
    let after = with_pair(pairs, key, value);
    let at = position(pairs, key);
    assert(pairs[at].0 == key);
    assert(keys_of(after) =~= keys_of(pairs));
    assert(keys_of(after.reverse()) =~= keys_of(pairs.reverse()));
    lemma_with_pair(pairs, key, value);
}

/// Giving a value to a key that the store lacks makes the key the first in
/// output and leaves the others in their order behind it.
pub proof fn set_puts_new_key_first(pairs: Seq<Pair>, key: Seq<char>, value: Seq<char>)
    requires
        !has_key(pairs, key),
    ensures
        with_pair(pairs, key, value).reverse() == seq![(key, value)] + pairs.reverse(),
{
    assert(with_pair(pairs, key, value).reverse() =~= seq![(key, value)] + pairs.reverse());
}

/// After `prepend` the key is the first in output with its new value,
/// whatever the store held, and behind it come the other entries in the
/// order and with the values they had.
pub proof fn prepend_puts_key_first(pairs: Seq<Pair>, key: Seq<char>, value: Seq<char>)
    requires
        distinct_keys(pairs),
    ensures
        prepended(pairs, key, value).reverse()[0] == (key, value),
        prepended(pairs, key, value).reverse().drop_first() == removed(pairs, key).reverse(),
        value_of(prepended(pairs, key, value), key) == Some(value),
        forall|other: Seq<char>|
            other != key ==> value_of(prepended(pairs, key, value), other) == value_of(
                pairs,
                other,
            ),
        distinct_keys(prepended(pairs, key, value)),
        prepended(pairs, key, value).len() == pairs.len() + if has_key(pairs, key) {
            0int
        } else {
            1int
        },
{
    let rest = removed(pairs, key);
    lemma_removed(pairs, key);
    lemma_with_pair(rest, key, value);
    assert(prepended(pairs, key, value).reverse().drop_first() =~= rest.reverse());
}

/// Taking a key out leaves the other entries in their order: what stood
/// before the key stands where it stood, and what stood behind it has moved
/// up by one.
pub proof fn remove_keeps_order(pairs: Seq<Pair>, key: Seq<char>)
    requires
        distinct_keys(pairs),
        has_key(pairs, key),
    ensures
        removed(pairs, key).len() == pairs.len() - 1,
        forall|i: int|
            0 <= i < position(pairs, key) ==> #[trigger] removed(pairs, key)[i] == pairs[i],
        forall|i: int|
            position(pairs, key) <= i < pairs.len() - 1 ==> #[trigger] removed(pairs, key)[i]
                == pairs[i + 1],
{
}

/// Sorting a sorted store changes nothing, and in a sorted store output
/// strictly ascends by key.
pub proof fn sorting_twice_is_sorting_once(before: Seq<Pair>, once: Seq<Pair>, twice: Seq<Pair>)
    requires
        is_sorted_form(before, once),
        is_sorted_form(once, twice),
    ensures
        twice == once,
        keys_strictly_ascend(once.reverse()),
{
    lemma_sorted_form_unique(once, once, twice);
}

} // verus!
