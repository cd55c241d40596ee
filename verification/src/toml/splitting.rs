//! How the tokens of a text are made of the tokens of its parts.

use crate::toml::lexer::{
    key_char, key_run, lemma_key_run_bound, lemma_token_extent, lemma_value_run_bound,
    rest_of_line, token_at, tokenize, tokens_from, value_char, value_run,
};
use vstd::prelude::*;

verus! {

/// Whether `s` holds no `#`, so that no comment starts in it.
pub open spec fn comment_free(s: Seq<char>) -> bool {
    forall|i: int| 0 <= i < s.len() ==> #[trigger] s[i] != '#'
}

/// Whether every token that starts in `s` ends in `s`, whatever follows:
/// no comment starts in `s`, and its last character belongs to no value.
pub open spec fn closed(s: Seq<char>) -> bool {
    comment_free(s) && (s.len() > 0 ==> !value_char(s.last()))
}

proof fn lemma_key_run_in_prefix(a: Seq<char>, b: Seq<char>, i: int)
    requires
        0 <= i < a.len(),
        !key_char(a.last()),
    ensures
        key_run(a + b, i) == key_run(a, i),
    decreases a.len() - i,
{
    assert((a + b)[i] == a[i]);
    if key_char(a[i]) {
        lemma_key_run_in_prefix(a, b, i + 1);
    }
}

proof fn lemma_value_run_in_prefix(a: Seq<char>, b: Seq<char>, i: int)
    requires
        0 <= i < a.len(),
        !value_char(a.last()),
    ensures
        value_run(a + b, i) == value_run(a, i),
    decreases a.len() - i,
{
    assert((a + b)[i] == a[i]);
    if value_char(a[i]) {
        lemma_value_run_in_prefix(a, b, i + 1);
    }
}

/// A token that starts in a closed part is the same with and without what
/// follows the part.
pub proof fn lemma_token_at_in_prefix(a: Seq<char>, b: Seq<char>, i: int)
    requires
        0 <= i < a.len(),
        closed(a),
    ensures
        token_at(a + b, i) == token_at(a, i),
{
    assert((a + b)[i] == a[i]);
    assert(a[i] != '#');
    if key_char(a[i]) || value_char(a[i]) {
        assert(i + 1 < a.len());
        lemma_key_run_in_prefix(a, b, i + 1);
        lemma_value_run_in_prefix(a, b, i + 1);
        lemma_key_run_bound(a, i + 1);
        lemma_value_run_bound(a, i + 1);
        let key_end = i + 1 + key_run(a, i + 1);
        let value_end = i + 1 + value_run(a, i + 1);
        assert((a + b).subrange(i, key_end) =~= a.subrange(i, key_end));
        assert((a + b).subrange(i, value_end) =~= a.subrange(i, value_end));
    }
}

proof fn lemma_key_run_shift(a: Seq<char>, b: Seq<char>, k: int)
    requires
        0 <= k <= b.len(),
    ensures
        key_run(a + b, a.len() + k) == key_run(b, k),
    decreases b.len() - k,
{
    if k < b.len() {
        assert((a + b)[a.len() + k] == b[k]);
        lemma_key_run_shift(a, b, k + 1);
    }
}

proof fn lemma_value_run_shift(a: Seq<char>, b: Seq<char>, k: int)
    requires
        0 <= k <= b.len(),
    ensures
        value_run(a + b, a.len() + k) == value_run(b, k),
    decreases b.len() - k,
{
    if k < b.len() {
        assert((a + b)[a.len() + k] == b[k]);
        lemma_value_run_shift(a, b, k + 1);
    }
}

proof fn lemma_rest_of_line_shift(a: Seq<char>, b: Seq<char>, k: int)
    requires
        0 <= k <= b.len(),
    ensures
        rest_of_line(a + b, a.len() + k) == rest_of_line(b, k),
    decreases b.len() - k,
{
    if k < b.len() {
        assert((a + b)[a.len() + k] == b[k]);
        lemma_rest_of_line_shift(a, b, k + 1);
    }
}

/// A token of `b` is the same token in `a + b`, further on by the length of
/// `a`.
pub proof fn lemma_token_at_shift(a: Seq<char>, b: Seq<char>, k: int)
    requires
        0 <= k < b.len(),
    ensures
        token_at(a + b, a.len() + k) == match token_at(b, k) {
            Some((token, end)) => Some((token, end + a.len())),
            None => None,
        },
{
    assert((a + b)[a.len() + k] == b[k]);
    lemma_key_run_shift(a, b, k + 1);
    lemma_value_run_shift(a, b, k + 1);
    lemma_rest_of_line_shift(a, b, k + 1);
    lemma_key_run_bound(b, k + 1);
    lemma_value_run_bound(b, k + 1);
    let key_end = k + 1 + key_run(b, k + 1);
    let value_end = k + 1 + value_run(b, k + 1);
    assert((a + b).subrange(a.len() + k, a.len() + key_end) =~= b.subrange(k, key_end));
    assert((a + b).subrange(a.len() + k, a.len() + value_end) =~= b.subrange(k, value_end));
}

/// The tokens of `a + b` from an offset in `b` on are the tokens of `b` from
/// there on.
pub proof fn lemma_tokens_shift(a: Seq<char>, b: Seq<char>, k: int)
    requires
        0 <= k <= b.len(),
    ensures
        tokens_from(a + b, a.len() + k) == tokens_from(b, k),
    decreases b.len() - k,
{
    if k < b.len() {
        lemma_token_at_shift(a, b, k);
        lemma_token_extent(b, k);
        match token_at(b, k) {
            Some((token, end)) => {
                lemma_tokens_shift(a, b, end);
            },
            None => {
                lemma_tokens_shift(a, b, k + 1);
            },
        }
    }
}

/// The tokens of `a + b` from an offset in a closed `a` on are the tokens
/// of `a` from there on, and then the tokens of `b`.
pub proof fn lemma_tokens_split_from(a: Seq<char>, b: Seq<char>, i: int)
    requires
        0 <= i <= a.len(),
        closed(a),
    ensures
        tokens_from(a + b, i) == tokens_from(a, i) + tokens_from(b, 0),
    decreases a.len() - i,
{
    if i == a.len() {
        lemma_tokens_shift(a, b, 0);
        assert(tokens_from(a, i) + tokens_from(b, 0) =~= tokens_from(b, 0));
    } else {
        lemma_token_at_in_prefix(a, b, i);
        lemma_token_extent(a, i);
        match token_at(a, i) {
            Some((token, end)) => {
                lemma_tokens_split_from(a, b, end);
                assert(seq![token] + (tokens_from(a, end) + tokens_from(b, 0)) =~= (seq![token]
                    + tokens_from(a, end)) + tokens_from(b, 0));
            },
            None => {
                lemma_tokens_split_from(a, b, i + 1);
            },
        }
    }
}

/// The tokens of a text are the tokens of its parts, one after the other,
/// where the first part is closed.
pub proof fn law_tokens_split(a: Seq<char>, b: Seq<char>)
    requires
        closed(a),
    ensures
        tokenize(a + b) == tokenize(a) + tokenize(b),
{
    lemma_tokens_split_from(a, b, 0);
}

} // verus!
