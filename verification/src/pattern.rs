//! Regular expressions: what is taken on trust about the engine, and the
//! selection of pairs by the answers it gives.

use crate::error::ConfigError;
use crate::pairs::{pairs_of, Pair};
use regex::Regex;
use vstd::prelude::*;

verus! {

/// `regex::Regex`, a compiled regular expression.
#[verifier::external_type_specification]
#[verifier::external_body]
pub struct ExRegex(Regex);

/// `regex::Error`, what the engine says of a pattern that it refuses.
#[verifier::external_type_specification]
#[verifier::external_body]
pub struct ExRegexError(regex::Error);

/// Whether `Regex::new` accepts `pattern` as a regular expression.
pub uninterp spec fn pattern_is_valid(pattern: Seq<char>) -> bool;

/// The pattern that a compiled expression was made from, as `Regex::as_str`
/// gives it.
pub uninterp spec fn regex_source(re: Regex) -> Seq<char>;

/// Whether the expression that `Regex::new` makes from `pattern` matches
/// somewhere in `text`, as `Regex::is_match` tells.
pub uninterp spec fn pattern_matches(pattern: Seq<char>, text: Seq<char>) -> bool;

/// Whether an expression is as `Regex::new` makes one: from its pattern
/// alone, with none of the options that a builder can set.
pub uninterp spec fn regex_is_plain(re: Regex) -> bool;

/// What the engine says of an error, as the `Display` of `regex::Error`
/// gives it.
pub uninterp spec fn regex_error_message(error: regex::Error) -> Seq<char>;

/// What the engine says of `pattern` where `Regex::new` refuses it: the
/// message of the error that it returns.
pub uninterp spec fn pattern_refusal(pattern: Seq<char>) -> Seq<char>;

/// `Regex::new`: compiles a pattern. It succeeds on the patterns that the
/// engine accepts; the expression made remembers its pattern and has no
/// options set. On a pattern that the engine refuses the error is the one
/// whose message belongs to that pattern.
#[verifier::external_body]
pub(crate) fn regex_new(pattern: &str) -> (r: Result<Regex, regex::Error>)
    ensures
        r is Ok == pattern_is_valid(pattern@),
        r matches Ok(re) ==> regex_source(re) == pattern@ && regex_is_plain(re),
        r matches Err(e) ==> regex_error_message(e) == pattern_refusal(pattern@),
{
    Regex::new(pattern)
}

/// `Regex::is_match`: whether the expression matches somewhere in the text.
/// Of an expression without options that is decided by its pattern and the
/// text; of one with options nothing is claimed.
#[verifier::external_body]
pub(crate) fn regex_is_match(re: &Regex, text: &str) -> (b: bool)
    ensures
        regex_is_plain(*re) ==> b == pattern_matches(regex_source(*re), text@),
{
    re.is_match(text)
}

/// The `Display` of `regex::Error`: the engine's own words for an error.
#[verifier::external_body]
pub(crate) fn regex_error_text(error: &regex::Error) -> (text: String)
    ensures
        text@ == regex_error_message(*error),
{
    error.to_string()
}

/// Compiles a pattern that the engine accepts. `try_create_regex` is there
/// for a pattern of which that is not known.
pub fn create_regex(pattern: &str) -> (re: Regex)
    requires
        pattern_is_valid(pattern@),
    ensures
        regex_source(re) == pattern@,
        regex_is_plain(re),
{
    match regex_new(pattern) {
        Ok(re) => re,
        Err(_) => vstd::pervasive::unreached(),
    }
}

/// Compiles a pattern, or says that the engine refuses it.
pub fn try_create_regex(pattern: &str) -> (r: Result<Regex, ConfigError>)
    ensures
        r is Ok == pattern_is_valid(pattern@),
        r matches Ok(re) ==> regex_source(re) == pattern@ && regex_is_plain(re),
        r matches Err(e) ==> e is InvalidRegex && e.refused() == pattern@ && e.told()
            == pattern_refusal(pattern@),
{
    match regex_new(pattern) {
        Ok(re) => Ok(re),
        Err(error) => Err(
            ConfigError::InvalidRegex {
                pattern: pattern.to_owned(),
                message: regex_error_text(&error),
            },
        ),
    }
}

/// The pattern that a value is held against: the pattern given, or, where
/// none is given, the one that only the empty text matches.
pub open spec fn value_pattern(given: Seq<char>) -> Seq<char> {
    if given.len() == 0 {
        seq!['^', '$']
    } else {
        given
    }
}

/// The pattern of an expression, where one is given.
pub open spec fn source_of(re: Option<&Regex>) -> Option<Seq<char>> {
    match re {
        Some(re) => Some(regex_source(*re)),
        None => None,
    }
}

/// Compiles the pattern that a value is held against: see `value_pattern`.
/// It is to be one that the engine accepts.
pub fn create_value_regex(value: &str) -> (re: Regex)
    requires
        pattern_is_valid(value_pattern(value@)),
    ensures
        regex_source(re) == value_pattern(value@),
        regex_is_plain(re),
{
    if value.is_empty() {
        proof {
            reveal_strlit("^$");
            assert("^$"@ =~= seq!['^', '$']);
        }
        create_regex("^$")
    } else {
        create_regex(value)
    }
}

/// Compiles the pattern that a value is held against, or says that the
/// engine refuses it.
pub fn try_create_value_regex(value: &str) -> (r: Result<Regex, ConfigError>)
    ensures
        r is Ok == pattern_is_valid(value_pattern(value@)),
        r matches Ok(re) ==> regex_source(re) == value_pattern(value@) && regex_is_plain(re),
        r matches Err(e) ==> e is InvalidRegex && e.refused() == value_pattern(value@) && e.told()
            == pattern_refusal(value_pattern(value@)),
{
    if value.is_empty() {
        proof {
            reveal_strlit("^$");
            assert("^$"@ =~= seq!['^', '$']);
        }
        try_create_regex("^$")
    } else {
        try_create_regex(value)
    }
}

/// Whether a pair is selected: its key by the key pattern and its value by
/// the value pattern, as far as each is given.
pub open spec fn pair_hit(pair: Pair, key_pattern: Option<Seq<char>>, value_pattern: Option<
    Seq<char>,
>) -> bool {
    &&& key_pattern matches Some(kp) ==> pattern_matches(kp, pair.0)
    &&& value_pattern matches Some(vp) ==> pattern_matches(vp, pair.1)
}

/// The pairs of `pairs` that the patterns select, in their order.
pub open spec fn matching(
    pairs: Seq<Pair>,
    key_pattern: Option<Seq<char>>,
    value_pattern: Option<Seq<char>>,
) -> Seq<Pair>
    decreases pairs.len(),
{
    if pairs.len() == 0 {
        Seq::empty()
    } else {
        let front = matching(pairs.drop_last(), key_pattern, value_pattern);
        if pair_hit(pairs.last(), key_pattern, value_pattern) {
            front.push(pairs.last())
        } else {
            front
        }
    }
}

/// The items of `items` whose mark in `hits` is set, in their order. An item
/// without a mark is left out.
pub open spec fn kept<A>(items: Seq<A>, hits: Seq<bool>) -> Seq<A>
    decreases items.len(),
{
    if items.len() == 0 {
        Seq::empty()
    } else {
        let front = kept(items.drop_last(), hits);
        if items.len() <= hits.len() && hits[items.len() - 1] {
            front.push(items.last())
        } else {
            front
        }
    }
}

/// Where each mark says whether its pair is selected, the pairs kept by the
/// marks are the pairs that the patterns select.
pub proof fn lemma_kept_matching(
    pairs: Seq<Pair>,
    hits: Seq<bool>,
    key_pattern: Option<Seq<char>>,
    value_pattern: Option<Seq<char>>,
)
    requires
        pairs.len() <= hits.len(),
        forall|i: int| 0 <= i < pairs.len() ==> hits[i] == pair_hit(
            #[trigger] pairs[i],
            key_pattern,
            value_pattern,
        ),
    ensures
        kept(pairs, hits) == matching(pairs, key_pattern, value_pattern),
    decreases pairs.len(),
{
    if pairs.len() > 0 {
        let front = pairs.drop_last();
        assert forall|i: int| 0 <= i < front.len() implies hits[i] == pair_hit(
            #[trigger] front[i],
            key_pattern,
            value_pattern,
        ) by {
            assert(front[i] == pairs[i]);
        }
        lemma_kept_matching(front, hits, key_pattern, value_pattern);
        assert(hits[pairs.len() - 1] == pair_hit(
            pairs[pairs.len() - 1],
            key_pattern,
            value_pattern,
        ));
    }
}

/// Copies of the pairs of `list` whose mark in `hits` is set, in their
/// order. A pair without a mark is left out.
pub fn retain_hits(list: &Vec<(String, String)>, hits: &Vec<bool>) -> (out: Vec<(String, String)>)
    ensures
        pairs_of(out@) == kept(pairs_of(list@), hits@),
{
    let mut out: Vec<(String, String)> = Vec::new();
    let mut i: usize = 0;
    while i < list.len()
        invariant
            i <= list.len(),
            pairs_of(out@) == kept(pairs_of(list@).take(i as int), hits@),
        decreases list.len() - i,
    {
        let ghost prior = out@;
        proof {
            assert(pairs_of(list@).take(i + 1).drop_last() =~= pairs_of(list@).take(i as int));
        }
        if i < hits.len() && hits[i] {
            out.push((list[i].0.clone(), list[i].1.clone()));
            proof {
                assert(pairs_of(out@) =~= pairs_of(prior).push(pairs_of(list@)[i as int]));
            }
        }
        i += 1;
    }
    proof {
        assert(pairs_of(list@).take(i as int) =~= pairs_of(list@));
    }
    out
}

} // verus!
