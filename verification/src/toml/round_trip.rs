//! Writing a document and reading the text again gives the document back.

use crate::text::{
    all_digits, decimal, digits_value, integer_text, is_digit, is_whitespace, parse_integer,
    trim_end, trimmed_len,
};
use crate::toml::data::{
    body_upto, entry_text, has_key, lines_upto, render, scalar_line, unique_keys, valid_key, Entry,
    Value,
};
use crate::toml::lexer::{
    key_char, key_run, token_at, tokenize, tokens_from, unquote, value_char, value_run, TokenType,
    TokenView,
};
use crate::toml::parser::{
    add_found, after_three, classify, pair_at, parse_from, parse_tokens, table_at, table_body,
};
use crate::toml::splitting::{closed, comment_free, law_tokens_split};
use vstd::prelude::*;

verus! {

/// A key that the grammar can write: letters, digits and `_`, at least
/// one, and no digit first.
pub open spec fn bare_key(key: Seq<char>) -> bool {
    valid_key(key) && !is_digit(key[0])
}

/// Whether every character of `text` is one that a value is made of.
pub open spec fn value_text(text: Seq<char>) -> bool {
    forall|i: int| 0 <= i < text.len() ==> value_char(#[trigger] text[i])
}

/// A scalar value that the grammar can write: a text made of value
/// characters that reads as a text, an integer that is not negative, or a
/// boolean.
pub open spec fn representable_value(value: Value) -> bool {
    match value {
        Value::Text(text) => value_text(text) && classify(text) == value,
        Value::Integer(n) => n >= 0,
        Value::Boolean(_) => true,
        Value::Table(_) => false,
    }
}

/// A scalar entry that the grammar can write.
pub open spec fn representable_scalar(entry: Entry) -> bool {
    bare_key(entry.key) && representable_value(entry.value)
}

/// An entry that the grammar can write: a scalar entry, or a table of
/// scalar entries with a key each.
pub open spec fn representable_entry(entry: Entry) -> bool {
    bare_key(entry.key) && match entry.value {
        Value::Table(entries) => unique_keys(entries) && forall|j: int|
            0 <= j < entries.len() ==> representable_scalar(#[trigger] entries[j]),
        _ => representable_value(entry.value),
    }
}

/// A document that the grammar can write.
pub open spec fn representable(doc: Seq<Entry>) -> bool {
    unique_keys(doc) && forall|i: int|
        0 <= i < doc.len() ==> representable_entry(#[trigger] doc[i])
}

/// A run of key characters that ends at `j` has the length that lies
/// between.
proof fn lemma_key_run_exact(s: Seq<char>, i: int, j: int)
    requires
        0 <= i <= j <= s.len(),
        forall|k: int| i <= k < j ==> key_char(#[trigger] s[k]),
        j < s.len() ==> !key_char(s[j]),
    ensures
        key_run(s, i) == j - i,
    decreases j - i,
{
    if i < j {
        assert(key_char(s[i]));
        lemma_key_run_exact(s, i + 1, j);
    }
}

/// A run of value characters that ends at `j` has the length that lies
/// between.
proof fn lemma_value_run_exact(s: Seq<char>, i: int, j: int)
    requires
        0 <= i <= j <= s.len(),
        forall|k: int| i <= k < j ==> value_char(#[trigger] s[k]),
        j < s.len() ==> !value_char(s[j]),
    ensures
        value_run(s, i) == j - i,
    decreases j - i,
{
    if i < j {
        assert(value_char(s[i]));
        lemma_value_run_exact(s, i + 1, j);
    }
}

/// The token of a word of key characters.
pub open spec fn word_token(word: Seq<char>) -> TokenView {
    TokenView {
        kind: if is_digit(word[0]) {
            TokenType::Value
        } else {
            TokenType::Key
        },
        text: word,
    }
}

/// A word of key characters before a character of another kind is one
/// token, and the tokens after it are those of that character.
proof fn lemma_lex_word(word: Seq<char>, end: char)
    requires
        valid_key(word),
        !key_char(end),
    ensures
        tokenize(word.push(end)) == seq![word_token(word)] + tokenize(seq![end]),
{
    let s = word.push(end);
    assert forall|k: int| 1 <= k < word.len() implies key_char(#[trigger] s[k]) by {
        assert(s[k] == word[k]);
    }
    assert(s[0] == word[0]);
    assert(key_char(word[0]));
    lemma_key_run_exact(s, 1, word.len() as int);
    assert(s.subrange(0, word.len() as int) =~= word);
    assert(token_at(s, 0) == Some((word_token(word), word.len() as int)));
    assert(s =~= word + seq![end]);
    crate::toml::splitting::lemma_tokens_shift(word, seq![end], 0);
}

/// A word of value characters that starts with none that a key may hold,
/// before a character that no value holds, is one value token, and the
/// tokens after it are those of that character.
proof fn lemma_lex_value_word(word: Seq<char>, end: char)
    requires
        word.len() > 0,
        value_text(word),
        !key_char(word[0]),
        !value_char(end),
    ensures
        tokenize(word.push(end)) == seq![
            TokenView { kind: TokenType::Value, text: unquote(word) },
        ] + tokenize(seq![end]),
{
    let s = word.push(end);
    assert forall|k: int| 1 <= k < word.len() implies value_char(#[trigger] s[k]) by {
        assert(s[k] == word[k]);
    }
    assert(s[0] == word[0]);
    assert(value_char(word[0]));
    lemma_value_run_exact(s, 1, word.len() as int);
    assert(s.subrange(0, word.len() as int) =~= word);
    assert(token_at(s, 0) == Some(
        (TokenView { kind: TokenType::Value, text: unquote(word) }, word.len() as int),
    ));
    assert(s =~= word + seq![end]);
    crate::toml::splitting::lemma_tokens_shift(word, seq![end], 0);
}

/// The token of a line break.
pub open spec fn newline_token() -> TokenView {
    TokenView { kind: TokenType::Newline, text: seq!['\n'] }
}

/// The token of an equals sign.
pub open spec fn equals_token() -> TokenView {
    TokenView { kind: TokenType::Equals, text: seq!['='] }
}

/// The tokens of single characters: a space has none, a line feed and a
/// closing bracket have one each.
proof fn lemma_lex_single()
    ensures
        tokenize(seq![' ']) == Seq::<TokenView>::empty(),
        tokenize(seq!['\n']) == seq![newline_token()],
        tokenize(seq!['[']) == seq![TokenView { kind: TokenType::LeftBracket, text: seq!['['] }],
        tokenize(seq![']', '\n']) == seq![
            TokenView { kind: TokenType::RightBracket, text: seq![']'] },
            newline_token(),
        ],
        tokenize(seq!['=', ' ']) == seq![equals_token()],
        tokenize(seq![']']) == seq![TokenView { kind: TokenType::RightBracket, text: seq![']'] }],
{
    assert(tokenize(seq![']']) =~= seq![
        TokenView { kind: TokenType::RightBracket, text: seq![']'] },
    ]) by {
        reveal_with_fuel(tokens_from, 3);
    }
    reveal_with_fuel(tokens_from, 3);
    assert(tokenize(seq![' ']) =~= Seq::<TokenView>::empty());
    assert(tokenize(seq!['\n']) =~= seq![newline_token()]);
    assert(tokenize(seq!['[']) =~= seq![
        TokenView { kind: TokenType::LeftBracket, text: seq!['['] },
    ]);
    assert(tokenize(seq![']', '\n']) =~= seq![
        TokenView { kind: TokenType::RightBracket, text: seq![']'] },
        newline_token(),
    ]);
    assert(tokenize(seq!['=', ' ']) =~= seq![equals_token()]);
}

/// The decimal notation of a number is made of digits, at least one.
pub proof fn lemma_decimal_digits(n: nat)
    ensures
        decimal(n).len() > 0,
        all_digits(decimal(n)),
    decreases n,
{
    if n >= 10 {
        lemma_decimal_digits(n / 10);
        assert forall|i: int| 0 <= i < decimal(n).len() implies is_digit(
            #[trigger] decimal(n)[i],
        ) by {
            if i < decimal(n / 10).len() {
                assert(decimal(n)[i] == decimal(n / 10)[i]);
            }
        }
    }
}

/// The decimal notation of a number writes that number.
pub proof fn lemma_decimal_value(n: nat)
    ensures
        digits_value(decimal(n)) == n,
    decreases n,
{
    if n >= 10 {
        lemma_decimal_value(n / 10);
        assert(decimal(n).drop_last() =~= decimal(n / 10));
    } else {
        assert(decimal(n).drop_last() =~= Seq::<char>::empty());
        assert(digits_value(decimal(n).drop_last()) == 0);
    }
}

/// What is written for an integer that is not negative reads as that
/// integer.
pub proof fn lemma_integer_round_trip(n: i64)
    requires
        n >= 0,
    ensures
        parse_integer(integer_text(n as int)) == Some(n),
        classify(integer_text(n as int)) == Value::Integer(n),
{
    lemma_decimal_digits(n as nat);
    lemma_decimal_value(n as nat);
    let text = decimal(n as nat);
    assert(is_digit(text[0]));
}

/// The token that the value of a scalar entry is written as.
pub open spec fn value_token(value: Value) -> TokenView {
    match value {
        Value::Text(text) => TokenView { kind: TokenType::Value, text },
        Value::Integer(n) => TokenView { kind: TokenType::Value, text: integer_text(n as int) },
        Value::Boolean(b) => TokenView {
            kind: TokenType::Key,
            text: if b {
                seq!['t', 'r', 'u', 'e']
            } else {
                seq!['f', 'a', 'l', 's', 'e']
            },
        },
        Value::Table(_) => newline_token(),
    }
}

/// The tokens that the line of a scalar entry is made of.
pub open spec fn line_tokens(entry: Entry) -> Seq<TokenView> {
    seq![word_token(entry.key), equals_token(), value_token(entry.value), newline_token()]
}

/// Whether `s` ends with a line feed after a character that is no white
/// space.
pub open spec fn ends_line(s: Seq<char>) -> bool {
    s.len() >= 2 && s.last() == '\n' && !is_whitespace(s[s.len() - 2])
}

/// What is written for the value of a scalar entry, and the line feed
/// after it, are the token of the value and that of the line feed.
proof fn lemma_lex_value(value: Value)
    requires
        representable_value(value),
    ensures
        ({
            let written = scalar_line(Entry { key: Seq::empty(), value }).skip(3);
            &&& tokenize(written) == seq![value_token(value), newline_token()]
            &&& comment_free(written)
            &&& ends_line(written)
        }),
{
    let written = scalar_line(Entry { key: Seq::empty(), value }).skip(3);
    lemma_lex_single();
    match value {
        Value::Text(text) => {
            let word = seq!['"'] + text + seq!['"'];
            assert(written =~= word.push('\n'));
            assert(value_text(word)) by {
                assert forall|i: int| 0 <= i < word.len() implies value_char(
                    #[trigger] word[i],
                ) by {
                    if 1 <= i < word.len() - 1 {
                        assert(word[i] == text[i - 1]);
                    }
                }
            }
            lemma_lex_value_word(word, '\n');
            assert(unquote(word) =~= text);
            assert(written[written.len() - 2] == '"');
        },
        Value::Integer(n) => {
            let word = decimal(n as nat);
            lemma_decimal_digits(n as nat);
            assert(written =~= word.push('\n'));
            lemma_lex_word(word, '\n');
            assert(is_digit(word[0]));
            assert(written[written.len() - 2] == word.last());
            assert(is_digit(word.last()));
        },
        Value::Boolean(b) => {
            let word = if b {
                seq!['t', 'r', 'u', 'e']
            } else {
                seq!['f', 'a', 'l', 's', 'e']
            };
            assert(written =~= word.push('\n'));
            lemma_lex_word(word, '\n');
            assert(written[written.len() - 2] == 'e');
        },
        Value::Table(_) => {},
    }
    assert(comment_free(written)) by {
        assert forall|i: int| 0 <= i < written.len() implies #[trigger] written[i] != '#' by {
            if i < written.len() - 1 {
                match value {
                    Value::Text(text) => {
                        let word = seq!['"'] + text + seq!['"'];
                        assert(written[i] == word[i]);
                        if 1 <= i < word.len() - 1 {
                            assert(word[i] == text[i - 1]);
                            assert(value_char(text[i - 1]));
                        }
                    },
                    Value::Integer(n) => {
                        assert(written[i] == decimal(n as nat)[i]);
                        assert(is_digit(decimal(n as nat)[i]));
                    },
                    _ => {},
                }
            }
        }
    }
}

/// The line of a scalar entry is made of the tokens of the entry; every
/// token that starts in the line ends in it.
pub proof fn lemma_lex_line(entry: Entry)
    requires
        valid_key(entry.key),
        representable_value(entry.value),
    ensures
        tokenize(scalar_line(entry)) == line_tokens(entry),
        closed(scalar_line(entry)),
        ends_line(scalar_line(entry)),
{
    let line = scalar_line(entry);
    let head = entry.key.push(' ');
    let sign = seq!['=', ' '];
    let written = scalar_line(Entry { key: Seq::empty(), value: entry.value }).skip(3);
    lemma_lex_value(entry.value);
    lemma_lex_single();
    lemma_lex_word(entry.key, ' ');
    assert(line =~= head + (sign + written));
    assert(closed(head)) by {
        assert forall|i: int| 0 <= i < head.len() implies #[trigger] head[i] != '#' by {
            if i < entry.key.len() {
                assert(key_char(entry.key[i]));
            }
        }
    }
    assert(closed(sign));
    law_tokens_split(head, sign + written);
    law_tokens_split(sign, written);
    assert(tokenize(line) =~= line_tokens(entry));
    assert(comment_free(line)) by {
        assert forall|i: int| 0 <= i < line.len() implies #[trigger] line[i] != '#' by {
            if i < head.len() {
                assert(line[i] == head[i]);
            } else if i < head.len() + 2 {
                assert(line[i] == sign[i - head.len()]);
            } else {
                assert(line[i] == written[i - head.len() - 2]);
            }
        }
    }
    assert(line.last() == written.last());
    assert(line[line.len() - 2] == written[written.len() - 2]);
}

/// The tokens that the lines of the first `n` of `entries` are made of.
pub open spec fn lines_tokens(entries: Seq<Entry>, n: int) -> Seq<TokenView>
    decreases n,
{
    if n <= 0 {
        Seq::empty()
    } else {
        lines_tokens(entries, n - 1) + line_tokens(entries[n - 1])
    }
}

/// The tokens of the header of a table.
pub open spec fn header_tokens(name: Seq<char>) -> Seq<TokenView> {
    seq![
        TokenView { kind: TokenType::LeftBracket, text: seq!['['] },
        word_token(name),
        TokenView { kind: TokenType::RightBracket, text: seq![']'] },
        newline_token(),
    ]
}

/// The section of a table without the blank line at its end.
pub open spec fn table_core(name: Seq<char>, entries: Seq<Entry>, first: bool) -> Seq<char> {
    (if first {
        Seq::empty()
    } else {
        seq!['\n']
    }) + seq!['['] + name + seq![']', '\n'] + lines_upto(entries, entries.len() as int)
}

/// The tokens of the section of a table without the blank line at its end.
pub open spec fn table_tokens(name: Seq<char>, entries: Seq<Entry>, first: bool) -> Seq<TokenView> {
    (if first {
        Seq::empty()
    } else {
        seq![newline_token()]
    }) + header_tokens(name) + lines_tokens(entries, entries.len() as int)
}

/// The tokens that the text of the entry `doc[i]` is made of.
pub open spec fn entry_tokens(doc: Seq<Entry>, i: int) -> Seq<TokenView> {
    match doc[i].value {
        Value::Table(entries) => table_tokens(doc[i].key, entries, i == 0).push(newline_token()),
        _ => line_tokens(doc[i]),
    }
}

/// The tokens that the text of the first `n` entries of `doc` is made of.
pub open spec fn doc_tokens(doc: Seq<Entry>, n: int) -> Seq<TokenView>
    decreases n,
{
    if n <= 0 {
        Seq::empty()
    } else {
        doc_tokens(doc, n - 1) + entry_tokens(doc, n - 1)
    }
}

/// Parts without a comment make a text without a comment.
proof fn lemma_comment_free_add(a: Seq<char>, b: Seq<char>)
    requires
        comment_free(a),
        comment_free(b),
    ensures
        comment_free(a + b),
{
    assert forall|i: int| 0 <= i < (a + b).len() implies #[trigger] (a + b)[i] != '#' by {
        if i < a.len() {
            assert((a + b)[i] == a[i]);
        } else {
            assert((a + b)[i] == b[i - a.len()]);
        }
    }
}

/// A closed text before a text that ends a line is a text that ends a line
/// and is closed.
proof fn lemma_closed_add(a: Seq<char>, b: Seq<char>)
    requires
        comment_free(a),
        comment_free(b),
        ends_line(b),
    ensures
        closed(a + b),
        ends_line(a + b),
{
    lemma_comment_free_add(a, b);
    assert((a + b).last() == b.last());
    assert((a + b)[(a + b).len() - 2] == b[b.len() - 2]);
}

/// The lines of scalar entries are made of the tokens of the entries, one
/// entry after the other.
pub proof fn lemma_lex_lines(entries: Seq<Entry>, n: int)
    requires
        0 <= n <= entries.len(),
        forall|j: int| 0 <= j < entries.len() ==> representable_scalar(#[trigger] entries[j]),
    ensures
        tokenize(lines_upto(entries, n)) == lines_tokens(entries, n),
        comment_free(lines_upto(entries, n)),
        n > 0 ==> ends_line(lines_upto(entries, n)),
    decreases n,
{
    if n <= 0 {
        assert(tokenize(lines_upto(entries, n)) =~= lines_tokens(entries, n));
    } else {
        let before = lines_upto(entries, n - 1);
        let line = scalar_line(entries[n - 1]);
        lemma_lex_lines(entries, n - 1);
        assert(representable_scalar(entries[n - 1]));
        lemma_lex_line(entries[n - 1]);
        lemma_closed_add(before, line);
        if n - 1 > 0 {
            assert(closed(before));
        } else {
            assert(before =~= Seq::<char>::empty());
        }
        law_tokens_split(before, line);
    }
}

/// The section of a table, without the blank line at its end, is made of
/// the tokens of its header and of its entries.
pub proof fn lemma_lex_table(name: Seq<char>, entries: Seq<Entry>, first: bool)
    requires
        valid_key(name),
        forall|j: int| 0 <= j < entries.len() ==> representable_scalar(#[trigger] entries[j]),
    ensures
        tokenize(table_core(name, entries, first)) == table_tokens(name, entries, first),
        comment_free(table_core(name, entries, first)),
        ends_line(table_core(name, entries, first)),
{
    let blank = if first {
        Seq::<char>::empty()
    } else {
        seq!['\n']
    };
    let open = seq!['['];
    let named = name.push(']');
    let feed = seq!['\n'];
    let lines = lines_upto(entries, entries.len() as int);
    let core = table_core(name, entries, first);
    lemma_lex_single();
    lemma_lex_word(name, ']');
    lemma_lex_lines(entries, entries.len() as int);
    assert(core =~= blank + (open + (named + (feed + lines))));
    assert(closed(blank));
    assert(closed(open));
    assert(closed(named)) by {
        assert forall|i: int| 0 <= i < named.len() implies #[trigger] named[i] != '#' by {
            if i < name.len() {
                assert(key_char(name[i]));
            }
        }
    }
    assert(closed(feed));
    law_tokens_split(blank, open + (named + (feed + lines)));
    law_tokens_split(open, named + (feed + lines));
    law_tokens_split(named, feed + lines);
    law_tokens_split(feed, lines);
    assert(tokenize(blank) =~= if first {
        Seq::<TokenView>::empty()
    } else {
        seq![newline_token()]
    });
    assert(tokenize(core) =~= table_tokens(name, entries, first));
    let header = blank + (open + (named + feed));
    assert(core =~= header + lines);
    assert(comment_free(header)) by {
        lemma_comment_free_add(named, feed);
        lemma_comment_free_add(open, named + feed);
        lemma_comment_free_add(blank, open + (named + feed));
    }
    assert(ends_line(header)) by {
        assert(header.last() == '\n');
        assert(header[header.len() - 2] == ']');
    }
    if entries.len() > 0 {
        lemma_closed_add(header, lines);
    } else {
        assert(core =~= header);
    }
}

/// The text of the first `n` entries of a document that the grammar can
/// write is made of the tokens of these entries.
pub proof fn lemma_lex_body(doc: Seq<Entry>, n: int)
    requires
        0 <= n <= doc.len(),
        representable(doc),
    ensures
        tokenize(body_upto(doc, n)) == doc_tokens(doc, n),
        closed(body_upto(doc, n)),
        n > 0 && !(doc[n - 1].value is Table) ==> ends_line(body_upto(doc, n)),
    decreases n,
{
    if n <= 0 {
        assert(tokenize(body_upto(doc, n)) =~= doc_tokens(doc, n));
    } else {
        let before = body_upto(doc, n - 1);
        let text = entry_text(doc, n - 1);
        lemma_lex_body(doc, n - 1);
        assert(representable_entry(doc[n - 1]));
        law_tokens_split(before, text);
        match doc[n - 1].value {
            Value::Table(entries) => {
                let core = table_core(doc[n - 1].key, entries, n - 1 == 0);
                lemma_lex_table(doc[n - 1].key, entries, n - 1 == 0);
                lemma_lex_single();
                assert(text =~= core + seq!['\n']);
                assert(closed(core));
                law_tokens_split(core, seq!['\n']);
                assert(tokenize(text) =~= entry_tokens(doc, n - 1));
                lemma_comment_free_add(core, seq!['\n']);
                lemma_comment_free_add(before, text);
                assert((before + text).last() == '\n');
            },
            _ => {
                lemma_lex_line(doc[n - 1]);
                lemma_closed_add(before, text);
            },
        }
    }
}

/// A pair of `b` is the same pair in `a + b`.
proof fn lemma_pair_at_shift(a: Seq<TokenView>, b: Seq<TokenView>, k: int)
    requires
        0 <= k,
    ensures
        pair_at(a + b, a.len() + k) == pair_at(b, k),
        after_three(a + b, a.len() + k) == after_three(b, k) + a.len(),
{
    if k + 3 <= b.len() {
        assert((a + b)[a.len() + k] == b[k]);
        assert((a + b)[a.len() + k + 2] == b[k + 2]);
    }
}

/// A table of `b` is the same table in `a + b`, further on by the length
/// of `a`.
proof fn lemma_table_body_shift(a: Seq<TokenView>, b: Seq<TokenView>, k: int, entries: Seq<Entry>)
    requires
        0 <= k,
    ensures
        table_body(a + b, a.len() + k, entries) == (
            table_body(b, k, entries).0,
            table_body(b, k, entries).1 + a.len(),
        ),
    decreases b.len() - k,
{
    if k < b.len() {
        assert((a + b)[a.len() + k] == b[k]);
        let q = if b[k].kind == TokenType::Newline {
            k + 1
        } else {
            k
        };
        if q < b.len() {
            assert((a + b)[a.len() + q] == b[q]);
        }
        if q > k && q < b.len() && b[q].kind == TokenType::Newline {
        } else {
            lemma_pair_at_shift(a, b, q);
            lemma_table_body_shift(a, b, after_three(b, q), add_found(entries, pair_at(b, q)));
        }
    }
}

/// What the tokens of `a + b` from an offset in `b` on add to a document is
/// what the tokens of `b` from there on add to it.
pub proof fn lemma_parse_shift(a: Seq<TokenView>, b: Seq<TokenView>, k: int, doc: Seq<Entry>)
    requires
        0 <= k,
    ensures
        parse_from(a + b, a.len() + k, doc) == parse_from(b, k, doc),
    decreases b.len() - k,
{
    if k < b.len() {
        assert((a + b)[a.len() + k] == b[k]);
        if b[k].kind == TokenType::Key {
            lemma_pair_at_shift(a, b, k);
            lemma_parse_shift(a, b, after_three(b, k), add_found(doc, pair_at(b, k)));
        } else if b[k].kind == TokenType::LeftBracket {
            if k + 3 <= b.len() {
                assert((a + b)[a.len() + k + 1] == b[k + 1]);
                lemma_table_body_shift(a, b, k + 3, Seq::empty());
                crate::toml::parser::lemma_table_body_end(b, k + 3, Seq::empty());
            }
            lemma_parse_shift(a, b, table_at(b, k).1, add_found(doc, table_at(b, k).0));
        } else {
            lemma_parse_shift(a, b, k + 1, doc);
        }
    }
}

/// The token of a value that the grammar can write reads as that value.
proof fn lemma_value_token_reads(value: Value)
    requires
        representable_value(value),
    ensures
        classify(value_token(value).text) == value,
{
    match value {
        Value::Integer(n) => {
            lemma_integer_round_trip(n);
        },
        Value::Boolean(b) => {
            let text = value_token(value).text;
            assert(!is_digit(text[0]));
            assert(text.len() == if b {
                4int
            } else {
                5int
            });
            assert(seq!['t', 'r', 'u', 'e'].len() == 4);
            assert(seq!['f', 'a', 'l', 's', 'e'].len() == 5);
        },
        _ => {},
    }
}

/// The tokens of the line of a scalar entry add that entry to a document
/// that does not have its key.
proof fn lemma_parse_line(entry: Entry, rest: Seq<TokenView>, doc: Seq<Entry>)
    requires
        representable_scalar(entry),
        !has_key(doc, entry.key),
    ensures
        parse_from(line_tokens(entry) + rest, 0, doc) == parse_from(rest, 0, doc.push(entry)),
{
    let line = line_tokens(entry);
    let tokens = line + rest;
    lemma_value_token_reads(entry.value);
    assert(tokens[0] == line[0] && tokens[2] == line[2] && tokens[3] == line[3]);
    assert(pair_at(tokens, 0) == Some(entry));
    assert(parse_from(tokens, 0, doc) == parse_from(tokens, 3, doc.push(entry)));
    assert(parse_from(tokens, 3, doc.push(entry)) == parse_from(tokens, 4, doc.push(entry)));
    lemma_parse_shift(line, rest, 0, doc.push(entry));
}

/// The tokens of the lines of `n` entries are four for each entry.
proof fn lemma_lines_tokens(entries: Seq<Entry>, n: int, j: int)
    requires
        0 <= j < n <= entries.len(),
    ensures
        lines_tokens(entries, n).len() == 4 * n,
        lines_tokens(entries, n).subrange(4 * j, 4 * j + 4) == line_tokens(entries[j]),
    decreases n,
{
    lemma_lines_tokens_len(entries, n);
    lemma_lines_tokens_len(entries, n - 1);
    if j < n - 1 {
        lemma_lines_tokens(entries, n - 1, j);
        assert(lines_tokens(entries, n).subrange(4 * j, 4 * j + 4) =~= lines_tokens(
            entries,
            n - 1,
        ).subrange(4 * j, 4 * j + 4));
    } else {
        assert(lines_tokens(entries, n).subrange(4 * j, 4 * j + 4) =~= line_tokens(entries[j]));
    }
}

proof fn lemma_lines_tokens_len(entries: Seq<Entry>, n: int)
    requires
        0 <= n,
    ensures
        lines_tokens(entries, n).len() == 4 * n,
    decreases n,
{
    if n > 0 {
        lemma_lines_tokens_len(entries, n - 1);
    }
}

/// The lines of a table, read from the line break before the line `j` on,
/// give the entries of the table, and the table ends after the last line.
proof fn lemma_parse_table_lines(
    tokens: Seq<TokenView>,
    base: int,
    entries: Seq<Entry>,
    j: int,
)
    requires
        0 <= base,
        0 <= j <= entries.len(),
        base + 4 * entries.len() < tokens.len(),
        unique_keys(entries),
        forall|i: int| 0 <= i < entries.len() ==> representable_scalar(#[trigger] entries[i]),
        tokens[base].kind == TokenType::Newline,
        tokens.subrange(base + 1, base + 1 + 4 * entries.len()) == lines_tokens(
            entries,
            entries.len() as int,
        ),
        base + 4 * entries.len() + 1 == tokens.len() || tokens[base + 4 * entries.len()
            + 1].kind == TokenType::Newline,
    ensures
        table_body(tokens, base + 4 * j, entries.take(j)) == (entries, base + 4 * entries.len() + 1),
    decreases entries.len() - j,
{
    let m = entries.len() as int;
    let p = base + 4 * j;
    let lines = tokens.subrange(base + 1, base + 1 + 4 * m);
    if j > 0 {
        lemma_lines_tokens(entries, m, j - 1);
        assert(tokens[p] == lines[4 * (j - 1) + 3]);
        assert(lines[4 * (j - 1) + 3] == lines.subrange(4 * (j - 1), 4 * (j - 1) + 4)[3]);
    }
    assert(tokens[p].kind == TokenType::Newline);
    if j == m {
        assert(entries.take(j) =~= entries);
        if p + 1 == tokens.len() {
            assert(table_body(tokens, p + 1, entries) == (entries, tokens.len() as int));
        }
    } else {
        lemma_lines_tokens(entries, m, j);
        let line = lines.subrange(4 * j, 4 * j + 4);
        assert(tokens[p + 1] == lines[4 * j] && lines[4 * j] == line[0]);
        assert(tokens[p + 3] == lines[4 * j + 2] && lines[4 * j + 2] == line[2]);
        assert(representable_scalar(entries[j]));
        lemma_value_token_reads(entries[j].value);
        assert(pair_at(tokens, p + 1) == Some(entries[j]));
        assert(!has_key(entries.take(j), entries[j].key)) by {
            if has_key(entries.take(j), entries[j].key) {
                let i = choose|i: int|
                    0 <= i < entries.take(j).len() && (#[trigger] entries.take(j)[i]).key
                        == entries[j].key;
                assert(entries[i].key == entries[j].key);
            }
        }
        assert(entries.take(j).push(entries[j]) =~= entries.take(j + 1));
        lemma_parse_table_lines(tokens, base, entries, j + 1);
    }
}

/// The tokens of the section of a table, before the end of the tokens or a
/// line break, add that table to a document that does not have its key.
proof fn lemma_parse_table(
    name: Seq<char>,
    entries: Seq<Entry>,
    first: bool,
    rest: Seq<TokenView>,
    doc: Seq<Entry>,
)
    requires
        bare_key(name),
        unique_keys(entries),
        forall|i: int| 0 <= i < entries.len() ==> representable_scalar(#[trigger] entries[i]),
        !has_key(doc, name),
        rest.len() == 0 || rest[0].kind == TokenType::Newline,
    ensures
        parse_from(table_tokens(name, entries, first) + rest, 0, doc) == parse_from(
            rest,
            0,
            doc.push(Entry { key: name, value: Value::Table(entries) }),
        ),
{
    let m = entries.len() as int;
    let section = table_tokens(name, entries, first);
    let tokens = section + rest;
    let start: int = if first {
        0
    } else {
        1
    };
    let base = start + 3;
    let table = Entry { key: name, value: Value::Table(entries) };
    lemma_lines_tokens_len(entries, m);
    assert(section.len() == start + 4 + 4 * m);
    assert(tokens[start] == header_tokens(name)[0]);
    assert(tokens[start + 1] == header_tokens(name)[1]);
    assert(tokens[base] == header_tokens(name)[3]);
    assert(tokens.subrange(base + 1, base + 1 + 4 * m) =~= lines_tokens(entries, m));
    if rest.len() > 0 {
        assert(tokens[base + 4 * m + 1] == rest[0]);
    }
    assert(entries.take(0) =~= Seq::<Entry>::empty());
    lemma_parse_table_lines(tokens, base, entries, 0);
    assert(table_at(tokens, start) == (Some(table), base + 4 * m + 1));
    if !first {
        assert(tokens[0] == newline_token());
        assert(parse_from(tokens, 0, doc) == parse_from(tokens, 1, doc));
    }
    assert(parse_from(tokens, start, doc) == parse_from(tokens, base + 4 * m + 1, doc.push(table)));
    lemma_parse_shift(section, rest, 0, doc.push(table));
}

/// The tokens of the first `n` entries of a document that the grammar can
/// write give these entries.
proof fn lemma_parse_doc(doc: Seq<Entry>, n: int, rest: Seq<TokenView>)
    requires
        representable(doc),
        0 <= n <= doc.len(),
    ensures
        parse_from(doc_tokens(doc, n) + rest, 0, Seq::empty()) == parse_from(rest, 0, doc.take(n)),
    decreases n,
{
    if n <= 0 {
        assert(doc_tokens(doc, n) + rest =~= rest);
        assert(doc.take(n) =~= Seq::<Entry>::empty());
    } else {
        let entry = doc[n - 1];
        let before = doc.take(n - 1);
        let group = entry_tokens(doc, n - 1);
        assert(doc_tokens(doc, n) + rest =~= doc_tokens(doc, n - 1) + (group + rest));
        lemma_parse_doc(doc, n - 1, group + rest);
        assert(representable_entry(entry));
        assert(!has_key(before, entry.key)) by {
            if has_key(before, entry.key) {
                let i = choose|i: int|
                    0 <= i < before.len() && (#[trigger] before[i]).key == entry.key;
                assert(doc[i].key == doc[n - 1].key);
            }
        }
        assert(before.push(entry) =~= doc.take(n));
        match entry.value {
            Value::Table(entries) => {
                let section = table_tokens(entry.key, entries, n - 1 == 0);
                let tail = seq![newline_token()] + rest;
                assert(group + rest =~= section + tail);
                lemma_parse_table(entry.key, entries, n - 1 == 0, tail, before);
                assert(parse_from(tail, 0, doc.take(n)) == parse_from(tail, 1, doc.take(n)));
                lemma_parse_shift(seq![newline_token()], rest, 0, doc.take(n));
            },
            _ => {
                lemma_parse_line(entry, rest, before);
            },
        }
    }
}

/// A text that ends a line stays as it is when its white space at the end
/// is taken off and a line feed is put there; with one more line feed at
/// its end it becomes the text itself.
proof fn lemma_trim_line(s: Seq<char>)
    requires
        ends_line(s),
    ensures
        trim_end(s) + seq!['\n'] == s,
        trim_end(s.push('\n')) + seq!['\n'] == s,
{
    let shorter = s.drop_last();
    assert(shorter.last() == s[s.len() - 2]);
    assert(trimmed_len(shorter) == shorter.len());
    assert(trimmed_len(s) == shorter.len());
    assert(s.push('\n').drop_last() =~= s);
    assert(trimmed_len(s.push('\n')) == shorter.len());
    assert(trim_end(s) + seq!['\n'] =~= s);
    assert(trim_end(s.push('\n')) + seq!['\n'] =~= s);
}

/// Round trip: the text of a document that the grammar can write reads as
/// that document, entry for entry, in the same order.
pub proof fn law_round_trip(doc: Seq<Entry>)
    requires
        representable(doc),
    ensures
        parse_tokens(tokenize(render(doc))) == doc,
{
    let n = doc.len() as int;
    let body = body_upto(doc, n);
    if n == 0 {
        assert(render(doc) =~= seq!['\n']);
        lemma_lex_single();
        let tokens = seq![newline_token()];
        assert(parse_from(tokens, 0, Seq::empty()) == parse_from(tokens, 1, Seq::empty()));
        assert(parse_tokens(tokens) =~= doc);
    } else {
        assert(representable_entry(doc[n - 1]));
        lemma_lex_body(doc, n);
        lemma_lex_body(doc, n - 1);
        match doc[n - 1].value {
            Value::Table(entries) => {
                let before = body_upto(doc, n - 1);
                let core = table_core(doc[n - 1].key, entries, n - 1 == 0);
                let section = table_tokens(doc[n - 1].key, entries, n - 1 == 0);
                lemma_lex_table(doc[n - 1].key, entries, n - 1 == 0);
                lemma_closed_add(before, core);
                lemma_trim_line(before + core);
                assert(body =~= (before + core).push('\n'));
                assert(render(doc) == before + core);
                law_tokens_split(before, core);
                lemma_parse_doc(doc, n - 1, section);
                assert(!has_key(doc.take(n - 1), doc[n - 1].key)) by {
                    if has_key(doc.take(n - 1), doc[n - 1].key) {
                        let i = choose|i: int|
                            0 <= i < doc.take(n - 1).len() && (#[trigger] doc.take(n - 1)[i]).key
                                == doc[n - 1].key;
                        assert(doc[i].key == doc[n - 1].key);
                    }
                }
                lemma_parse_table(
                    doc[n - 1].key,
                    entries,
                    n - 1 == 0,
                    Seq::empty(),
                    doc.take(n - 1),
                );
                assert(section + Seq::<TokenView>::empty() =~= section);
                assert(doc.take(n - 1).push(doc[n - 1]) =~= doc);
            },
            _ => {
                lemma_trim_line(body);
                assert(render(doc) == body);
                lemma_parse_doc(doc, n, Seq::empty());
                assert(doc_tokens(doc, n) + Seq::<TokenView>::empty() =~= doc_tokens(doc, n));
                assert(doc.take(n) =~= doc);
            },
        }
    }
}

/// Round trip of scalars: the text of a document of scalar entries that the
/// grammar can write, no two with one key, reads as that document.
pub proof fn law_scalars_round_trip(doc: Seq<Entry>)
    requires
        unique_keys(doc),
        forall|i: int| 0 <= i < doc.len() ==> representable_scalar(#[trigger] doc[i]),
    ensures
        parse_tokens(tokenize(render(doc))) == doc,
{
    assert forall|i: int| 0 <= i < doc.len() implies representable_entry(#[trigger] doc[i]) by {
        assert(representable_scalar(doc[i]));
    }
    law_round_trip(doc);
}

/// Digit-leading tie-break: a word of key characters that starts with a
/// digit is a value token, not a key, so that no key-value pair starts with
/// it at the top level: the parser passes it over.
pub proof fn law_digit_leading_word_is_no_key(word: Seq<char>, rest: Seq<char>)
    requires
        valid_key(word),
        is_digit(word[0]),
        rest.len() == 0 || !key_char(rest[0]),
    ensures
        tokenize(word + rest).len() > 0,
        tokenize(word + rest)[0] == (TokenView { kind: TokenType::Value, text: word }),
        parse_tokens(tokenize(word + rest)) == parse_from(
            tokenize(word + rest),
            1,
            Seq::empty(),
        ),
{
    let s = word + rest;
    assert forall|k: int| 1 <= k < word.len() implies key_char(#[trigger] s[k]) by {
        assert(s[k] == word[k]);
    }
    assert(s[0] == word[0]);
    assert(key_char(word[0]));
    if rest.len() > 0 {
        assert(s[word.len() as int] == rest[0]);
    }
    lemma_key_run_exact(s, 1, word.len() as int);
    assert(s.subrange(0, word.len() as int) =~= word);
    assert(token_at(s, 0) == Some(
        (TokenView { kind: TokenType::Value, text: word }, word.len() as int),
    ));
}

/// Duplicate suppression: where the text of a document is followed by the
/// line of an entry whose key the document has already, the text reads as
/// the document alone: the first occurrence of the key stays, with its
/// value, and the later one is left out.
pub proof fn law_duplicate_line_is_dropped(doc: Seq<Entry>, entry: Entry)
    requires
        representable(doc),
        representable_scalar(entry),
        has_key(doc, entry.key),
    ensures
        parse_tokens(tokenize(body_upto(doc, doc.len() as int) + scalar_line(entry))) == doc,
{
    let n = doc.len() as int;
    let line = line_tokens(entry);
    lemma_lex_body(doc, n);
    lemma_lex_line(entry);
    law_tokens_split(body_upto(doc, n), scalar_line(entry));
    lemma_parse_doc(doc, n, line);
    assert(doc.take(n) =~= doc);
    lemma_value_token_reads(entry.value);
    assert(pair_at(line, 0) == Some(entry));
    assert(parse_from(line, 0, doc) == parse_from(line, 3, doc));
    assert(parse_from(line, 3, doc) == parse_from(line, 4, doc));
}

/// Table boundary: in the text of a document that the grammar can write,
/// the blank line after a table ends the table, so that the entry after the
/// table is read as an entry of the document, and the table holds its own
/// entries and no others.
pub proof fn law_entry_after_table_is_top_level(doc: Seq<Entry>, i: int)
    requires
        representable(doc),
        0 <= i,
        i + 1 < doc.len(),
        doc[i].value is Table,
    ensures
        parse_tokens(tokenize(render(doc))).len() == doc.len(),
        parse_tokens(tokenize(render(doc)))[i] == doc[i],
        parse_tokens(tokenize(render(doc)))[i + 1] == doc[i + 1],
{
    law_round_trip(doc);
}

/// Idempotence: writing a document that the grammar can write, reading the
/// text, and writing what was read gives the same text again.
pub proof fn law_idempotent(doc: Seq<Entry>)
    requires
        representable(doc),
    ensures
        render(parse_tokens(tokenize(render(doc)))) == render(doc),
{
    law_round_trip(doc);
}

} // verus!
