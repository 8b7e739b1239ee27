//! Fuzzy matching of a query against text, as the skim algorithm of
//! `fuzzy_matcher` scores it.

use vstd::prelude::*;

use fuzzy_matcher::skim::SkimMatcherV2;
use fuzzy_matcher::FuzzyMatcher;

verus! {

/// What `SkimMatcherV2::default().fuzzy_match(choice, pattern)` returns.
pub uninterp spec fn skim_match(choice: Seq<char>, pattern: Seq<char>) -> Option<i64>;

/// The positions (character indices into the choice) of the matched characters
/// that `SkimMatcherV2::default().fuzzy_indices(choice, pattern)` returns beside
/// its score, or `None` when it returns `None`.
pub uninterp spec fn skim_match_positions(choice: Seq<char>, pattern: Seq<char>) -> Option<Seq<usize>>;

/// `c` with an ASCII capital letter turned into its small letter.
pub open spec fn ascii_lower(c: char) -> char {
    if 'A' <= c && c <= 'Z' {
        ((c as u32) + 32) as char
    } else {
        c
    }
}

/// Whether `s` holds an ASCII capital letter (the matcher's "smart case" turns
/// case sensitivity on exactly then).
pub open spec fn has_ascii_upper(s: Seq<char>) -> bool {
    exists|i: int| 0 <= i < s.len() && 'A' <= #[trigger] s[i] && s[i] <= 'Z'
}

/// Character equality as the matcher uses it.
pub open spec fn chars_match(a: char, b: char, case_sensitive: bool) -> bool {
    if case_sensitive {
        a == b
    } else {
        ascii_lower(a) == ascii_lower(b)
    }
}

/// Whether the characters of `pattern` occur in `choice` in order (not
/// necessarily next to each other).
pub open spec fn is_fuzzy_subsequence(choice: Seq<char>, pattern: Seq<char>, case_sensitive: bool) -> bool
    decreases choice.len(),
{
    if pattern.len() == 0 {
        true
    } else if choice.len() == 0 {
        false
    } else if chars_match(choice[0], pattern[0], case_sensitive) {
        is_fuzzy_subsequence(choice.drop_first(), pattern.drop_first(), case_sensitive)
    } else {
        is_fuzzy_subsequence(choice.drop_first(), pattern, case_sensitive)
    }
}

/// Skipping the first character of the choice never spoils a match.
proof fn lemma_subsequence_extend_choice(choice: Seq<char>, pattern: Seq<char>, case_sensitive: bool)
    requires
        choice.len() > 0,
        is_fuzzy_subsequence(choice.drop_first(), pattern, case_sensitive),
    ensures
        is_fuzzy_subsequence(choice, pattern, case_sensitive),
    decreases choice.len(), 0int,
{
    if pattern.len() > 0 && chars_match(choice[0], pattern[0], case_sensitive) {
        lemma_subsequence_drop_first(choice.drop_first(), pattern, case_sensitive);
    }
}

/// A choice that matches a pattern also matches the pattern without its first
/// character.
proof fn lemma_subsequence_drop_first(choice: Seq<char>, pattern: Seq<char>, case_sensitive: bool)
    requires
        pattern.len() > 0,
        is_fuzzy_subsequence(choice, pattern, case_sensitive),
    ensures
        is_fuzzy_subsequence(choice, pattern.drop_first(), case_sensitive),
    decreases choice.len(), 1int,
{
    if choice.len() > 0 {
        if !chars_match(choice[0], pattern[0], case_sensitive) {
            lemma_subsequence_drop_first(choice.drop_first(), pattern, case_sensitive);
        }
        lemma_subsequence_extend_choice(choice, pattern.drop_first(), case_sensitive);
    }
}

/// A choice that matches a pattern also matches every prefix of it.
proof fn lemma_subsequence_prefix(choice: Seq<char>, pattern: Seq<char>, c: char, case_sensitive: bool)
    requires
        is_fuzzy_subsequence(choice, pattern.push(c), case_sensitive),
    ensures
        is_fuzzy_subsequence(choice, pattern, case_sensitive),
    decreases choice.len(),
{
    if pattern.len() > 0 && choice.len() > 0 {
        assert(pattern.push(c)[0] == pattern[0]);
        if chars_match(choice[0], pattern[0], case_sensitive) {
            assert(pattern.push(c).drop_first() =~= pattern.drop_first().push(c));
            lemma_subsequence_prefix(choice.drop_first(), pattern.drop_first(), c, case_sensitive);
        } else {
            lemma_subsequence_prefix(choice.drop_first(), pattern, c, case_sensitive);
        }
    }
}

/// A case-sensitive match is also a match when case is ignored.
proof fn lemma_subsequence_ignore_case(choice: Seq<char>, pattern: Seq<char>)
    requires
        is_fuzzy_subsequence(choice, pattern, true),
    ensures
        is_fuzzy_subsequence(choice, pattern, false),
    decreases choice.len(),
{
    if pattern.len() > 0 && choice.len() > 0 {
        if choice[0] == pattern[0] {
            lemma_subsequence_ignore_case(choice.drop_first(), pattern.drop_first());
        } else {
            lemma_subsequence_ignore_case(choice.drop_first(), pattern);
            lemma_subsequence_extend_choice(choice, pattern, false);
        }
    }
}

/// A choice that matches a query also matches the query without its last
/// character, each compared with its own (smart) case sensitivity.
pub proof fn lemma_longer_query_matches_less(choice: Seq<char>, query: Seq<char>, c: char)
    requires
        is_fuzzy_subsequence(choice, query.push(c), has_ascii_upper(query.push(c))),
    ensures
        is_fuzzy_subsequence(choice, query, has_ascii_upper(query)),
{
    lemma_subsequence_prefix(choice, query, c, has_ascii_upper(query.push(c)));
    if has_ascii_upper(query) {
        let i = choose|i: int| 0 <= i < query.len() && 'A' <= #[trigger] query[i] && query[i] <= 'Z';
        assert(query.push(c)[i] == query[i]);
        assert(has_ascii_upper(query.push(c)));
    } else if has_ascii_upper(query.push(c)) {
        lemma_subsequence_ignore_case(choice, query);
    }
}

/// Calls `fuzzy_match` of a default `SkimMatcherV2` (smart case, no element
/// limit) on `choice` and `pattern`.
///
/// The score is named by `skim_match`. The crate's source shows that an empty
/// pattern scores `Some(0)`, and that otherwise a score comes back exactly when
/// the pattern's characters occur in the choice in order (its `cheap_matches`
/// pre-check), compared case-sensitively only when the pattern holds an ASCII
/// capital letter. What the score is beyond that is not stated.
#[verifier::external_body]
pub(crate) fn skim_fuzzy_match(choice: &str, pattern: &str) -> (r: Option<i64>)
    ensures
        r == skim_match(choice@, pattern@),
        r is Some <==> is_fuzzy_subsequence(choice@, pattern@, has_ascii_upper(pattern@)),
        pattern@.len() == 0 ==> r == Some(0i64),
{
    SkimMatcherV2::default().fuzzy_match(choice, pattern)
}

/// Calls `fuzzy_indices` of a default `SkimMatcherV2` on `choice` and `pattern`
/// and keeps the positions it returns beside the score.
///
/// The positions are named by `skim_match_positions`. As for `fuzzy_match`, the
/// crate's source shows that an empty pattern gives no positions, and that
/// otherwise a result comes back exactly when the pattern's characters occur in
/// the choice in order (smart case). The positions are collected while walking
/// back through the score matrix, one column further left at each step, and
/// then reversed, so they strictly increase and lie within the choice. Which
/// positions the walk picks is not stated.
#[verifier::external_body]
pub(crate) fn skim_fuzzy_positions(choice: &str, pattern: &str) -> (r: Option<Vec<usize>>)
    ensures
        r is Some <==> skim_match_positions(choice@, pattern@) is Some,
        r matches Some(p) ==> skim_match_positions(choice@, pattern@) == Some(p@),
        r is Some <==> is_fuzzy_subsequence(choice@, pattern@, has_ascii_upper(pattern@)),
        r matches Some(p) ==> (pattern@.len() == 0 ==> p@.len() == 0),
        r matches Some(p) ==> (forall|a: int|
            forall|b: int| 0 <= a < b < p@.len() ==> #[trigger] p@[a] < #[trigger] p@[b]),
        r matches Some(p) ==> (forall|a: int| 0 <= a < p@.len() ==> #[trigger] p@[a] < choice@.len()),
{
    SkimMatcherV2::default().fuzzy_indices(choice, pattern).map(|(_, positions)| positions)
}

} // verus!
