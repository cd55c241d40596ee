//! What holds of every document that the parser yields.

use crate::toml::data::{
    find_from, has_key, index_of, lemma_find_from, lemma_index_of, lookup, put, unique_keys,
    well_formed, well_formed_table, without, Entry, Value,
};
use crate::toml::lexer::{TokenType, TokenView};
use crate::toml::parser::{
    add_entry, add_found, after_three, classify, lemma_table_body_end, pair_at, parse_from,
    parse_tokens, table_at, table_body,
};
use vstd::prelude::*;

verus! {

/// Whether `doc` starts with the entries of `start`, in their order.
pub open spec fn starts_with(doc: Seq<Entry>, start: Seq<Entry>) -> bool {
    start.len() <= doc.len() && doc.take(start.len() as int) == start
}

/// Adding an entry keeps every entry that is there in its place, and keeps
/// the keys apart.
pub proof fn lemma_add_entry(doc: Seq<Entry>, entry: Entry)
    ensures
        starts_with(add_entry(doc, entry), doc),
        unique_keys(doc) ==> unique_keys(add_entry(doc, entry)),
        has_key(add_entry(doc, entry), entry.key),
{
    let after = add_entry(doc, entry);
    if has_key(doc, entry.key) {
        assert(doc.take(doc.len() as int) =~= doc);
    } else {
        assert(after.take(doc.len() as int) =~= doc);
        assert(after[doc.len() as int].key == entry.key);
        if unique_keys(doc) {
            assert forall|i: int, j: int| 0 <= i < j < after.len() implies (#[trigger] after[i]).key
                != (#[trigger] after[j]).key by {
                if j < doc.len() {
                    assert(after[i] == doc[i] && after[j] == doc[j]);
                } else {
                    assert(after[i] == doc[i]);
                    assert(after[j] == entry);
                }
            }
        }
    }
}

/// The first occurrence wins inside a table: the entries read so far stay
/// in place whatever follows, no key comes to stand twice, and no entry is
/// a table.
pub proof fn law_table_first_occurrence_wins(tokens: Seq<TokenView>, p: int, entries: Seq<Entry>)
    requires
        0 <= p,
    ensures
        starts_with(table_body(tokens, p, entries).0, entries),
        well_formed_table(entries) ==> well_formed_table(table_body(tokens, p, entries).0),
    decreases tokens.len() - p,
{
    if p >= tokens.len() {
        assert(entries.take(entries.len() as int) =~= entries);
    } else {
        let q = if tokens[p].kind == TokenType::Newline {
            p + 1
        } else {
            p
        };
        if q > p && q < tokens.len() && tokens[q].kind == TokenType::Newline {
            assert(entries.take(entries.len() as int) =~= entries);
        } else {
            let next = add_found(entries, pair_at(tokens, q));
            assert(starts_with(next, entries) && (well_formed_table(entries)
                ==> well_formed_table(next))) by {
                match pair_at(tokens, q) {
                    Some(entry) => {
                        lemma_add_entry(entries, entry);
                        if well_formed_table(entries) {
                            assert forall|j: int| 0 <= j < next.len() implies !((
                            #[trigger] next[j]).value is Table) by {
                                if j < entries.len() {
                                    assert(next[j] == entries[j]);
                                }
                            }
                        }
                    },
                    None => {
                        assert(entries.take(entries.len() as int) =~= entries);
                    },
                }
            }
            law_table_first_occurrence_wins(tokens, after_three(tokens, q), next);
            let last = table_body(tokens, p, entries).0;
            assert(last.take(entries.len() as int) =~= last.take(next.len() as int).take(
                entries.len() as int,
            ));
        }
    }
}

/// The first occurrence wins: the entries read so far stay in place
/// whatever tokens follow, and the document stays well formed. So of
/// several entries with one key the document holds the first, and only it.
pub proof fn law_first_occurrence_wins(tokens: Seq<TokenView>, p: int, doc: Seq<Entry>)
    requires
        0 <= p,
    ensures
        starts_with(parse_from(tokens, p, doc), doc),
        well_formed(doc) ==> well_formed(parse_from(tokens, p, doc)),
    decreases tokens.len() - p,
{
    if p >= tokens.len() {
        assert(doc.take(doc.len() as int) =~= doc);
    } else if tokens[p].kind == TokenType::Key || tokens[p].kind == TokenType::LeftBracket {
        let found = if tokens[p].kind == TokenType::Key {
            pair_at(tokens, p)
        } else {
            table_at(tokens, p).0
        };
        let end = if tokens[p].kind == TokenType::Key {
            after_three(tokens, p)
        } else {
            table_at(tokens, p).1
        };
        let next = add_found(doc, found);
        if p + 3 <= tokens.len() {
            lemma_table_body_end(tokens, p + 3, Seq::empty());
            law_table_first_occurrence_wins(tokens, p + 3, Seq::empty());
        }
        assert(starts_with(next, doc) && (well_formed(doc) ==> well_formed(next))) by {
            match found {
                Some(entry) => {
                    lemma_add_entry(doc, entry);
                    if well_formed(doc) {
                        assert forall|i: int| 0 <= i < next.len() implies ((
                        #[trigger] next[i]).value matches Value::Table(entries)
                            ==> well_formed_table(entries)) by {
                            if i < doc.len() {
                                assert(next[i] == doc[i]);
                            }
                        }
                    }
                },
                None => {
                    assert(doc.take(doc.len() as int) =~= doc);
                },
            }
        }
        law_first_occurrence_wins(tokens, end, next);
        let last = parse_from(tokens, p, doc);
        assert(last.take(doc.len() as int) =~= last.take(next.len() as int).take(
            doc.len() as int,
        ));
    } else {
        law_first_occurrence_wins(tokens, p + 1, doc);
    }
}

/// Every document that the parser yields is well formed.
pub proof fn law_parsed_is_well_formed(tokens: Seq<TokenView>)
    ensures
        well_formed(parse_tokens(tokens)),
{
    law_first_occurrence_wins(tokens, 0, Seq::empty());
}

/// A key-value pair whose key the document has already is dropped, and one
/// whose key is new comes to stand at the end.
pub proof fn law_duplicate_is_dropped(tokens: Seq<TokenView>, p: int, doc: Seq<Entry>)
    requires
        0 <= p,
        p + 3 <= tokens.len(),
        tokens[p].kind == TokenType::Key,
    ensures
        has_key(doc, tokens[p].text) ==> parse_from(tokens, p, doc) == parse_from(
            tokens,
            p + 3,
            doc,
        ),
        !has_key(doc, tokens[p].text) ==> parse_from(tokens, p, doc) == parse_from(
            tokens,
            p + 3,
            doc.push(Entry { key: tokens[p].text, value: classify(tokens[p + 2].text) }),
        ),
{
}

/// A token that is neither a key nor an opening bracket starts nothing at
/// the top level: it is passed over.
pub proof fn law_other_tokens_are_passed_over(tokens: Seq<TokenView>, p: int, doc: Seq<Entry>)
    requires
        0 <= p < tokens.len(),
        tokens[p].kind != TokenType::Key,
        tokens[p].kind != TokenType::LeftBracket,
    ensures
        parse_from(tokens, p, doc) == parse_from(tokens, p + 1, doc),
{
}

/// A blank line ends a table: at a line break that another line break
/// follows the table is complete, and the second line break stays unread.
pub proof fn law_blank_line_ends_table(tokens: Seq<TokenView>, p: int, entries: Seq<Entry>)
    requires
        0 <= p,
        p + 1 < tokens.len(),
        tokens[p].kind == TokenType::Newline,
        tokens[p + 1].kind == TokenType::Newline,
    ensures
        table_body(tokens, p, entries) == (entries, p + 1),
{
}

/// The end of the tokens ends a table.
pub proof fn law_end_of_input_ends_table(tokens: Seq<TokenView>, p: int, entries: Seq<Entry>)
    requires
        p >= tokens.len(),
    ensures
        table_body(tokens, p, entries) == (entries, tokens.len() as int),
{
}

/// What follows the end of a table is read at the top level: the tokens
/// from the end of the table on add to the document that holds the table,
/// not to the table.
pub proof fn law_after_table_is_top_level(tokens: Seq<TokenView>, p: int, doc: Seq<Entry>)
    requires
        0 <= p < tokens.len(),
        tokens[p].kind == TokenType::LeftBracket,
    ensures
        p < table_at(tokens, p).1 <= tokens.len(),
        parse_from(tokens, p, doc) == parse_from(
            tokens,
            table_at(tokens, p).1,
            add_found(doc, table_at(tokens, p).0),
        ),
{
    if p + 3 <= tokens.len() {
        lemma_table_body_end(tokens, p + 3, Seq::empty());
    }
}

/// Setting a key gives it the new value in the place where it stood, or at
/// the end where it is new; every other entry stays as it is, and keys
/// that were apart stay apart.
pub proof fn law_set(doc: Seq<Entry>, entry: Entry)
    ensures
        lookup(put(doc, entry), entry.key) == Some(entry.value),
        has_key(doc, entry.key) ==> put(doc, entry).len() == doc.len(),
        !has_key(doc, entry.key) ==> put(doc, entry) == doc.push(entry),
        forall|i: int|
            0 <= i < doc.len() && (#[trigger] doc[i]).key != entry.key ==> put(doc, entry)[i]
                == doc[i],
        forall|key: Seq<char>| key != entry.key ==> lookup(put(doc, entry), key) == lookup(doc, key),
        unique_keys(doc) ==> unique_keys(put(doc, entry)),
{
    let after = put(doc, entry);
    lemma_index_of(doc, entry.key);
    lemma_index_of(after, entry.key);
    match index_of(doc, entry.key) {
        Some(at) => {
            assert(after[at].key == entry.key);
            assert forall|j: int| 0 <= j < at implies (#[trigger] after[j]).key != entry.key by {
                assert(after[j] == doc[j]);
            }
            assert(index_of(after, entry.key) == Some(at)) by {
                let found = index_of(after, entry.key);
                assert(found is Some);
                if found->0 < at {
                    assert(after[found->0].key == entry.key);
                } else if found->0 > at {
                    assert(after[at].key != entry.key);
                }
            }
            assert forall|key: Seq<char>| key != entry.key implies lookup(after, key) == lookup(
                doc,
                key,
            ) by {
                lemma_same_keys_same_index(doc, after, key, 0);
            }
            if unique_keys(doc) {
                assert forall|i: int, j: int| 0 <= i < j < after.len() implies (
                #[trigger] after[i]).key != (#[trigger] after[j]).key by {
                    assert(after[i].key == doc[i].key);
                    assert(after[j].key == doc[j].key);
                }
            }
        },
        None => {
            lemma_add_entry(doc, entry);
            assert(after[doc.len() as int].key == entry.key);
            assert(index_of(after, entry.key) == Some(doc.len() as int)) by {
                let found = index_of(after, entry.key);
                assert(found is Some);
                if found->0 < doc.len() {
                    assert(doc[found->0].key == after[found->0].key);
                }
            }
            assert forall|key: Seq<char>| key != entry.key implies lookup(after, key) == lookup(
                doc,
                key,
            ) by {
                lemma_index_of(doc, key);
                lemma_index_of(after, key);
                match index_of(doc, key) {
                    Some(i) => {
                        assert(after[i] == doc[i]);
                        let found = index_of(after, key);
                        assert(after[i].key == key);
                        assert(found is Some);
                        if found->0 < i {
                            assert(doc[found->0].key == after[found->0].key);
                        }
                    },
                    None => {
                        if has_key(after, key) {
                            let i = choose|i: int|
                                0 <= i < after.len() && (#[trigger] after[i]).key == key;
                            if i < doc.len() {
                                assert(doc[i].key == key);
                            }
                        }
                    },
                }
            }
        },
    }
}

/// Two documents of one length with the same keys in the same places find a
/// key in the same place.
proof fn lemma_same_keys_same_index(a: Seq<Entry>, b: Seq<Entry>, key: Seq<char>, from: int)
    requires
        0 <= from <= a.len(),
        a.len() == b.len(),
        forall|i: int| 0 <= i < a.len() ==> (#[trigger] a[i]).key == b[i].key,
        forall|i: int| 0 <= i < a.len() && (#[trigger] a[i]).key == key ==> a[i] == b[i],
    ensures
        find_from(a, key, from) == find_from(b, key, from),
        from == 0 ==> lookup(a, key) == lookup(b, key),
    decreases a.len() - from,
{
    if from < a.len() {
        assert(a[from].key == b[from].key);
        if a[from].key != key {
            lemma_same_keys_same_index(a, b, key, from + 1);
        }
    }
    if from == 0 {
        lemma_find_from(a, key, 0);
        let i = find_from(a, key, 0);
        if i < a.len() {
            assert(a[i] == b[i]);
        }
    }
}

/// What `without` keeps of a document with one more entry at its end.
proof fn lemma_without_push(doc: Seq<Entry>, entry: Entry, key: Seq<char>)
    ensures
        without(doc.push(entry), key) == if entry.key == key {
            without(doc, key)
        } else {
            without(doc, key).push(entry)
        },
{
    reveal(Seq::filter);
    assert(doc.push(entry).drop_last() =~= doc);
}

/// The first entry with a key in a document with one more entry at its end.
proof fn lemma_lookup_push(doc: Seq<Entry>, entry: Entry, key: Seq<char>)
    ensures
        lookup(doc.push(entry), key) == if has_key(doc, key) {
            lookup(doc, key)
        } else if entry.key == key {
            Some(entry.value)
        } else {
            None
        },
        has_key(doc.push(entry), key) == (has_key(doc, key) || entry.key == key),
{
    let longer = doc.push(entry);
    lemma_index_of(doc, key);
    lemma_index_of(longer, key);
    if has_key(doc, key) {
        let i = index_of(doc, key)->0;
        assert(longer[i] == doc[i]);
        assert(has_key(longer, key));
        let found = index_of(longer, key)->0;
        if found < i {
            assert(doc[found].key == longer[found].key);
        }
    } else if entry.key == key {
        assert(longer[doc.len() as int].key == key);
        let found = index_of(longer, key)->0;
        if found < doc.len() {
            assert(doc[found].key == longer[found].key);
        }
    } else {
        if has_key(longer, key) {
            let i = choose|i: int| 0 <= i < longer.len() && (#[trigger] longer[i]).key == key;
            if i < doc.len() {
                assert(doc[i].key == key);
            }
        }
    }
}

/// Deleting a key leaves no entry with that key and changes nothing where
/// there was none; every other key keeps its value, and keys that were
/// apart stay apart.
pub proof fn law_delete(doc: Seq<Entry>, key: Seq<char>)
    ensures
        !has_key(without(doc, key), key),
        !has_key(doc, key) ==> without(doc, key) == doc,
        forall|other: Seq<char>| other != key ==> lookup(without(doc, key), other) == lookup(
            doc,
            other,
        ),
        forall|other: Seq<char>| has_key(without(doc, key), other) ==> has_key(doc, other),
        unique_keys(doc) ==> unique_keys(without(doc, key)),
    decreases doc.len(),
{
    if doc.len() == 0 {
        reveal(Seq::filter);
        assert(without(doc, key) =~= doc);
        assert forall|other: Seq<char>| has_key(without(doc, key), other) implies has_key(
            doc,
            other,
        ) by {}
    } else {
        let front = doc.drop_last();
        let last = doc.last();
        assert(doc =~= front.push(last));
        law_delete(front, key);
        lemma_without_push(front, last, key);
        let kept = without(front, key);
        lemma_lookup_push(kept, last, key);
        lemma_lookup_push(front, last, key);
        assert forall|other: Seq<char>| other != key implies lookup(without(doc, key), other)
            == lookup(doc, other) by {
            lemma_lookup_push(kept, last, other);
            lemma_lookup_push(front, last, other);
            lemma_index_of(kept, other);
            lemma_index_of(front, other);
            if has_key(front, other) && !has_key(kept, other) {
                assert(lookup(kept, other) == lookup(front, other));
            }
        }
        assert forall|other: Seq<char>| has_key(without(doc, key), other) implies has_key(
            doc,
            other,
        ) by {
            lemma_lookup_push(kept, last, other);
            lemma_lookup_push(front, last, other);
        }
        if unique_keys(doc) {
            assert(unique_keys(front)) by {
                assert forall|i: int, j: int| 0 <= i < j < front.len() implies (
                #[trigger] front[i]).key != (#[trigger] front[j]).key by {
                    assert(front[i] == doc[i] && front[j] == doc[j]);
                }
            }
            if last.key != key {
                assert(!has_key(kept, last.key)) by {
                    if has_key(kept, last.key) {
                        assert(has_key(front, last.key));
                        let i = choose|i: int|
                            0 <= i < front.len() && (#[trigger] front[i]).key == last.key;
                        assert(doc[i].key == doc[doc.len() - 1].key);
                    }
                }
                lemma_add_entry(kept, last);
            }
        }
    }
}

} // verus!
