//! The order of keys: text by code point, and what sorting a store by key
//! comes to.

use crate::pairs::{distinct_keys, Pair};
use vstd::prelude::*;
use vstd::relations::{sorted_by, total_ordering};
use vstd::seq_lib::lemma_sorted_unique;

verus! {

/// Code-point order on text, strict: the first difference decides, and a
/// proper prefix comes first.
pub open spec fn text_lt(a: Seq<char>, b: Seq<char>) -> bool
    decreases a.len(),
{
    if b.len() == 0 {
        false
    } else if a.len() == 0 {
        true
    } else if a[0] != b[0] {
        (a[0] as u32) < (b[0] as u32)
    } else {
        text_lt(a.drop_first(), b.drop_first())
    }
}

/// Code-point order on text.
pub open spec fn text_le(a: Seq<char>, b: Seq<char>) -> bool {
    a == b || text_lt(a, b)
}

/// The keys of `pairs` never descend.
pub open spec fn keys_ascend(pairs: Seq<Pair>) -> bool {
    forall|i: int, j: int|
        0 <= i < j < pairs.len() ==> text_le((#[trigger] pairs[i]).0, (#[trigger] pairs[j]).0)
}

/// The keys of `pairs` ascend, and no key comes twice.
pub open spec fn keys_strictly_ascend(pairs: Seq<Pair>) -> bool {
    forall|i: int, j: int|
        0 <= i < j < pairs.len() ==> text_lt((#[trigger] pairs[i]).0, (#[trigger] pairs[j]).0)
}

/// `after` holds the pairs of `before`, ordered so that output, which runs
/// from the newest entry to the oldest, ascends by key.
pub open spec fn is_sorted_form(before: Seq<Pair>, after: Seq<Pair>) -> bool {
    &&& after.to_multiset() == before.to_multiset()
    &&& keys_strictly_ascend(after.reverse())
}

/// The sorted form of `pairs`, where they have one: pairs with distinct keys
/// have exactly one.
pub open spec fn sorted_form(pairs: Seq<Pair>) -> Seq<Pair> {
    choose|after: Seq<Pair>| is_sorted_form(pairs, after)
}

/// No text comes before itself.
pub proof fn lemma_text_lt_irreflexive(a: Seq<char>)
    ensures
        !text_lt(a, a),
    decreases a.len(),
{
    if a.len() > 0 {
        lemma_text_lt_irreflexive(a.drop_first());
    }
}

/// Of two different texts one comes before the other.
pub proof fn lemma_text_lt_total(a: Seq<char>, b: Seq<char>)
    ensures
        a == b || text_lt(a, b) || text_lt(b, a),
    decreases a.len(),
{
    if a.len() == 0 || b.len() == 0 {
        if a.len() == 0 && b.len() == 0 {
            assert(a =~= b);
        }
    } else if a[0] == b[0] {
        lemma_text_lt_total(a.drop_first(), b.drop_first());
        if a.drop_first() == b.drop_first() {
            assert(a =~= seq![a[0]] + a.drop_first());
            assert(b =~= seq![b[0]] + b.drop_first());
        }
    } else {
        vstd::utf8::char_u32_cast(a[0], a[0] as u32);
        vstd::utf8::char_u32_cast(b[0], b[0] as u32);
    }
}

/// What comes before a text comes before all that comes after it.
pub proof fn lemma_text_lt_transitive(a: Seq<char>, b: Seq<char>, c: Seq<char>)
    requires
        text_lt(a, b),
        text_lt(b, c),
    ensures
        text_lt(a, c),
    decreases a.len(),
{
    if a.len() > 0 && a[0] == b[0] && b[0] == c[0] {
        lemma_text_lt_transitive(a.drop_first(), b.drop_first(), c.drop_first());
    }
}

/// Two texts never come before each other.
pub proof fn lemma_text_lt_asymmetric(a: Seq<char>, b: Seq<char>)
    requires
        text_lt(a, b),
    ensures
        !text_lt(b, a),
{
    if text_lt(b, a) {
        lemma_text_lt_transitive(a, b, a);
        lemma_text_lt_irreflexive(a);
    }
}

/// Pairs by key, and by value where the keys agree.
pub open spec fn pair_le(p: Pair, q: Pair) -> bool {
    text_lt(p.0, q.0) || (p.0 == q.0 && text_le(p.1, q.1))
}

/// `pair_le` is a total order.
pub proof fn lemma_pair_le_total_order()
    ensures
        total_ordering(|p: Pair, q: Pair| pair_le(p, q)),
{
    let r = |p: Pair, q: Pair| pair_le(p, q);
    assert forall|x: Pair| #[trigger] r(x, x) by {}
    assert forall|x: Pair, y: Pair| #[trigger] r(x, y) && #[trigger] r(y, x) implies x == y by {
        if text_lt(x.0, y.0) {
            if text_lt(y.0, x.0) {
                lemma_text_lt_asymmetric(x.0, y.0);
            } else {
                lemma_text_lt_irreflexive(x.0);
            }
        } else if text_lt(y.0, x.0) {
            lemma_text_lt_irreflexive(x.0);
        } else if x.1 != y.1 {
            lemma_text_lt_asymmetric(x.1, y.1);
        }
    }
    assert forall|x: Pair, y: Pair, z: Pair| #[trigger] r(x, y) && #[trigger] r(y, z) implies r(
        x,
        z,
    ) by {
        if text_lt(x.0, y.0) && text_lt(y.0, z.0) {
            lemma_text_lt_transitive(x.0, y.0, z.0);
        } else if x.0 == y.0 && y.0 == z.0 {
            if text_lt(x.1, y.1) && text_lt(y.1, z.1) {
                lemma_text_lt_transitive(x.1, y.1, z.1);
            }
        }
    }
    assert forall|x: Pair, y: Pair| #[trigger] r(x, y) || #[trigger] r(y, x) by {
        lemma_text_lt_total(x.0, y.0);
        lemma_text_lt_total(x.1, y.1);
    }
}

/// Rearranging pairs keeps their keys distinct.
pub proof fn lemma_rearranged_distinct(before: Seq<Pair>, after: Seq<Pair>)
    requires
        distinct_keys(before),
        after.to_multiset() == before.to_multiset(),
    ensures
        distinct_keys(after),
{
    broadcast use vstd::seq_lib::group_to_multiset_ensures;

    assert(before.no_duplicates()) by {
        assert forall|i: int, j: int|
            0 <= i < before.len() && 0 <= j < before.len() && i != j implies before[i]
            != before[j] by {
            if before[i] == before[j] {
                assert(before[i].0 == before[j].0);
            }
        }
    }
    before.lemma_multiset_has_no_duplicates();
    after.lemma_multiset_has_no_duplicates_conv();
    assert forall|i: int, j: int|
        0 <= i < after.len() && 0 <= j < after.len() && (#[trigger] after[i]).0 == (
        #[trigger] after[j]).0 implies i == j by {
        if i != j {
            assert(after[i] != after[j]);
            assert(after.contains(after[i]));
            assert(after.contains(after[j]));
            assert(before.to_multiset().count(after[i]) > 0);
            assert(before.to_multiset().count(after[j]) > 0);
            assert(before.contains(after[i]));
            assert(before.contains(after[j]));
            let a = choose|a: int| 0 <= a < before.len() && before[a] == after[i];
            let b = choose|b: int| 0 <= b < before.len() && before[b] == after[j];
            assert(before[a].0 == before[b].0);
        }
    }
}

/// There is one sorted form at most.
pub proof fn lemma_sorted_form_unique(before: Seq<Pair>, x: Seq<Pair>, y: Seq<Pair>)
    requires
        is_sorted_form(before, x),
        is_sorted_form(before, y),
    ensures
        x == y,
{
    let r = |p: Pair, q: Pair| pair_le(p, q);
    lemma_pair_le_total_order();
    let xr = x.reverse();
    let yr = y.reverse();
    x.lemma_reverse_to_multiset();
    y.lemma_reverse_to_multiset();
    assert(sorted_by(xr, r));
    assert(sorted_by(yr, r));
    lemma_sorted_unique(xr, yr, r);
    assert(x =~= xr.reverse());
    assert(y =~= yr.reverse());
}

/// A sorted form of `pairs` is their sorted form.
pub proof fn lemma_sorted_form(before: Seq<Pair>, after: Seq<Pair>)
    requires
        is_sorted_form(before, after),
    ensures
        sorted_form(before) == after,
{
    lemma_sorted_form_unique(before, sorted_form(before), after);
}

} // verus!
