//! The parser: from tokens to a document.

use crate::text::{chars_of, parse_i64, parse_integer, push_str, string_of};
use crate::toml::data::{
    entries_of, has_key, lemma_table_view, well_formed, Entry, Toml, TomlValue, TomlValueKind,
    Value,
};
use crate::toml::lexer::{token_views, Token, TokenType, TokenView};
use vstd::prelude::*;

verus! {

/// The value that the payload `text` of a token writes: an integer where it
/// writes one, else a boolean where it is `true` or `false`, else the text
/// itself.
pub open spec fn classify(text: Seq<char>) -> Value {
    match parse_integer(text) {
        Some(n) => Value::Integer(n),
        None => if text == seq!['t', 'r', 'u', 'e'] {
            Value::Boolean(true)
        } else if text == seq!['f', 'a', 'l', 's', 'e'] {
            Value::Boolean(false)
        } else {
            Value::Text(text)
        },
    }
}

/// `doc` with `entry` at its end, unless an entry of `doc` has the same key
/// already: the first occurrence of a key stays.
pub open spec fn add_entry(doc: Seq<Entry>, entry: Entry) -> Seq<Entry> {
    if has_key(doc, entry.key) {
        doc
    } else {
        doc.push(entry)
    }
}

/// `doc` with what was found, if anything, added by `add_entry`.
pub open spec fn add_found(doc: Seq<Entry>, found: Option<Entry>) -> Seq<Entry> {
    match found {
        Some(entry) => add_entry(doc, entry),
        None => doc,
    }
}

/// Where a key stood that the document had already.
#[derive(Debug, PartialEq, Eq, Clone, Copy, Structural)]
pub enum DuplicatePlace {
    /// A key-value pair inside a table.
    TablePair,
    /// A key-value pair outside the tables.
    Pair,
    /// The name of a table.
    TableName,
}

/// An entry that was left out because its key was there already.
#[derive(Debug)]
pub struct Duplicate {
    pub place: DuplicatePlace,
    pub key: String,
}

/// What a [`Duplicate`] stands for.
pub struct DuplicateView {
    pub place: DuplicatePlace,
    pub key: Seq<char>,
}

impl View for Duplicate {
    type V = DuplicateView;

    open spec fn view(&self) -> DuplicateView {
        DuplicateView { place: self.place, key: self.key@ }
    }
}

/// What a list of duplicates stands for.
pub open spec fn duplicate_views(items: Seq<Duplicate>) -> Seq<DuplicateView> {
    Seq::new(items.len(), |i: int| items[i]@)
}

/// The sentence that tells of a duplicate.
pub open spec fn duplicate_text(duplicate: DuplicateView) -> Seq<char> {
    match duplicate.place {
        DuplicatePlace::TablePair => "Duplicate key for table key-value pair found: '"@
            + duplicate.key + "'"@,
        DuplicatePlace::Pair => "Duplicate key for key-value pair found: "@ + duplicate.key,
        DuplicatePlace::TableName => "Duplicate key for table name found: "@ + duplicate.key,
    }
}

impl Duplicate {
    /// The sentence that tells of this duplicate.
    pub fn message(&self) -> (text: String)
        ensures
            text@ == duplicate_text(self@),
    {
        let mut out: Vec<char> = Vec::new();
        match self.place {
            DuplicatePlace::TablePair => {
                push_str(&mut out, "Duplicate key for table key-value pair found: '");
                push_str(&mut out, self.key.as_str());
                push_str(&mut out, "'");
            },
            DuplicatePlace::Pair => {
                push_str(&mut out, "Duplicate key for key-value pair found: ");
                push_str(&mut out, self.key.as_str());
            },
            DuplicatePlace::TableName => {
                push_str(&mut out, "Duplicate key for table name found: ");
                push_str(&mut out, self.key.as_str());
            },
        }
        assert(out@ =~= duplicate_text(self@));
        string_of(&out)
    }
}

/// What there is to tell when `found` is added to `doc`: that its key is a
/// duplicate, where `doc` has that key already.
pub open spec fn note_of(doc: Seq<Entry>, found: Option<Entry>, place: DuplicatePlace) -> Seq<
    DuplicateView,
> {
    match found {
        Some(entry) => if has_key(doc, entry.key) {
            seq![DuplicateView { place, key: entry.key }]
        } else {
            Seq::empty()
        },
        None => Seq::empty(),
    }
}

/// Offset after the three tokens from `p` on, or the end of `tokens` where
/// fewer are left.
pub open spec fn after_three(tokens: Seq<TokenView>, p: int) -> int {
    if p + 3 <= tokens.len() {
        p + 3
    } else {
        tokens.len() as int
    }
}

/// The key-value pair that the three tokens from `p` on write: the first
/// gives the key, the second stands for the equals sign, the third gives the
/// value. The kinds of the three tokens are not looked at. `None` where
/// fewer than three tokens are left.
pub open spec fn pair_at(tokens: Seq<TokenView>, p: int) -> Option<Entry> {
    if 0 <= p && p + 3 <= tokens.len() {
        Some(Entry { key: tokens[p].text, value: classify(tokens[p + 2].text) })
    } else {
        None
    }
}

/// The entries of a table whose lines start at `p`, added to `entries`, and
/// the offset at which the table ends. A line break is passed over; a second
/// one right after it (a blank line) ends the table and stays unread; so does
/// the end of the tokens. Anything else is read as a key-value pair.
pub open spec fn table_body(tokens: Seq<TokenView>, p: int, entries: Seq<Entry>) -> (
    Seq<Entry>,
    int,
)
    decreases tokens.len() - p,
{
    if p < 0 || p >= tokens.len() {
        (entries, tokens.len() as int)
    } else {
        let q = if tokens[p].kind == TokenType::Newline {
            p + 1
        } else {
            p
        };
        if q > p && q < tokens.len() && tokens[q].kind == TokenType::Newline {
            (entries, q)
        } else {
            table_body(tokens, after_three(tokens, q), add_found(entries, pair_at(tokens, q)))
        }
    }
}

/// The duplicates among the key-value pairs of a table whose lines start at
/// `p`, in the order of the pairs; `entries` are the entries read so far.
pub open spec fn table_notes(tokens: Seq<TokenView>, p: int, entries: Seq<Entry>) -> Seq<
    DuplicateView,
>
    decreases tokens.len() - p,
{
    if p < 0 || p >= tokens.len() {
        Seq::empty()
    } else {
        let q = if tokens[p].kind == TokenType::Newline {
            p + 1
        } else {
            p
        };
        if q > p && q < tokens.len() && tokens[q].kind == TokenType::Newline {
            Seq::empty()
        } else {
            note_of(entries, pair_at(tokens, q), DuplicatePlace::TablePair) + table_notes(
                tokens,
                after_three(tokens, q),
                add_found(entries, pair_at(tokens, q)),
            )
        }
    }
}

/// The duplicates inside the table whose header starts at `p`.
pub open spec fn notes_in_table(tokens: Seq<TokenView>, p: int) -> Seq<DuplicateView> {
    if 0 <= p && p + 3 <= tokens.len() {
        table_notes(tokens, p + 3, Seq::empty())
    } else {
        Seq::empty()
    }
}

/// The table whose header starts at `p`, and the offset at which the table
/// ends. The header is three tokens: the opening bracket, the name, and one
/// that stands for the closing bracket; only the name is looked at. `None`
/// where fewer than three tokens are left.
pub open spec fn table_at(tokens: Seq<TokenView>, p: int) -> (Option<Entry>, int) {
    if 0 <= p && p + 3 <= tokens.len() {
        let (entries, end) = table_body(tokens, p + 3, Seq::empty());
        (Some(Entry { key: tokens[p + 1].text, value: Value::Table(entries) }), end)
    } else {
        (None, tokens.len() as int)
    }
}

/// The document that the tokens from `p` on add to `doc`. A key token
/// starts a key-value pair, an opening bracket starts a table, any other
/// token is passed over.
pub open spec fn parse_from(tokens: Seq<TokenView>, p: int, doc: Seq<Entry>) -> Seq<Entry>
    decreases tokens.len() - p,
    via parse_from_decreases
{
    if p < 0 || p >= tokens.len() {
        doc
    } else if tokens[p].kind == TokenType::Key {
        parse_from(tokens, after_three(tokens, p), add_found(doc, pair_at(tokens, p)))
    } else if tokens[p].kind == TokenType::LeftBracket {
        parse_from(tokens, table_at(tokens, p).1, add_found(doc, table_at(tokens, p).0))
    } else {
        parse_from(tokens, p + 1, doc)
    }
}

#[via_fn]
proof fn parse_from_decreases(tokens: Seq<TokenView>, p: int, doc: Seq<Entry>) {
    if 0 <= p && p + 3 <= tokens.len() {
        lemma_table_body_end(tokens, p + 3, Seq::empty());
    }
}

/// The duplicates that the tokens from `p` on hold, in the order in which
/// they are met; `doc` is the document read so far. Those inside a table
/// come before the one of the name of that table.
pub open spec fn notes_from(tokens: Seq<TokenView>, p: int, doc: Seq<Entry>) -> Seq<DuplicateView>
    decreases tokens.len() - p,
    via notes_from_decreases
{
    if p < 0 || p >= tokens.len() {
        Seq::empty()
    } else if tokens[p].kind == TokenType::Key {
        note_of(doc, pair_at(tokens, p), DuplicatePlace::Pair) + notes_from(
            tokens,
            after_three(tokens, p),
            add_found(doc, pair_at(tokens, p)),
        )
    } else if tokens[p].kind == TokenType::LeftBracket {
        notes_in_table(tokens, p) + note_of(doc, table_at(tokens, p).0, DuplicatePlace::TableName)
            + notes_from(tokens, table_at(tokens, p).1, add_found(doc, table_at(tokens, p).0))
    } else {
        notes_from(tokens, p + 1, doc)
    }
}

#[via_fn]
proof fn notes_from_decreases(tokens: Seq<TokenView>, p: int, doc: Seq<Entry>) {
    if 0 <= p && p + 3 <= tokens.len() {
        lemma_table_body_end(tokens, p + 3, Seq::empty());
    }
}


/// The document that `tokens` write.
pub open spec fn parse_tokens(tokens: Seq<TokenView>) -> Seq<Entry> {
    parse_from(tokens, 0, Seq::empty())
}

/// A table ends at or after the offset at which its lines start, and inside
/// the tokens.
pub proof fn lemma_table_body_end(tokens: Seq<TokenView>, p: int, entries: Seq<Entry>)
    requires
        0 <= p <= tokens.len(),
    ensures
        p <= table_body(tokens, p, entries).1 <= tokens.len(),
    decreases tokens.len() - p,
{
    if p < tokens.len() {
        let q = if tokens[p].kind == TokenType::Newline {
            p + 1
        } else {
            p
        };
        if q > p && q < tokens.len() && tokens[q].kind == TokenType::Newline {
        } else {
            lemma_table_body_end(
                tokens,
                after_three(tokens, q),
                add_found(entries, pair_at(tokens, q)),
            );
        }
    }
}

/// The value that the payload of a token writes.
pub fn classify_text(value: String) -> (kind: TomlValueKind)
    ensures
        kind@ == classify(value@),
{
    let chars = chars_of(value.as_str());
    match parse_i64(&chars) {
        Some(n) => TomlValueKind::Integer(n),
        None => {
            if chars.len() == 4 && chars[0] == 't' && chars[1] == 'r' && chars[2] == 'u'
                && chars[3] == 'e' {
                assert(chars@ =~= seq!['t', 'r', 'u', 'e']);
                TomlValueKind::Boolean(true)
            } else if chars.len() == 5 && chars[0] == 'f' && chars[1] == 'a' && chars[2]
                == 'l' && chars[3] == 's' && chars[4] == 'e' {
                assert(chars@ =~= seq!['f', 'a', 'l', 's', 'e']);
                TomlValueKind::Boolean(false)
            } else {
                assert(chars@ != seq!['t', 'r', 'u', 'e']) by {
                    let t = seq!['t', 'r', 'u', 'e'];
                    assert(t.len() == 4 && t[0] == 't' && t[1] == 'r' && t[2] == 'u' && t[3]
                        == 'e');
                }
                assert(chars@ != seq!['f', 'a', 'l', 's', 'e']) by {
                    let f = seq!['f', 'a', 'l', 's', 'e'];
                    assert(f.len() == 5 && f[0] == 'f' && f[1] == 'a' && f[2] == 'l' && f[3]
                        == 's' && f[4] == 'e');
                }
                TomlValueKind::String(value)
            }
        },
    }
}

/// Whether an item of `items` has the key `key`.
fn contains_key(items: &Vec<TomlValue>, key: &String) -> (b: bool)
    ensures
        b == has_key(entries_of(items@), key@),
{
    let mut i: usize = 0;
    while i < items.len()
        invariant
            i <= items.len(),
            forall|j: int| 0 <= j < i ==> (#[trigger] entries_of(items@)[j]).key != key@,
        decreases items.len() - i,
    {
        if items[i].key == *key {
            assert(entries_of(items@)[i as int].key == key@);
            return true;
        }
        i += 1;
    }
    false
}

/// Appends `item` to `items` unless an item of `items` has its key already;
/// the key comes back where it has.
fn push_unless_present(items: &mut Vec<TomlValue>, item: TomlValue) -> (dropped: Option<String>)
    ensures
        entries_of(final(items)@) == add_entry(entries_of(old(items)@), item@),
        match dropped {
            Some(key) => has_key(entries_of(old(items)@), item@.key) && key@ == item@.key,
            None => !has_key(entries_of(old(items)@), item@.key),
        },
{
    if !contains_key(items, &item.key) {
        items.push(item);
        assert(entries_of(items@) =~= entries_of(old(items)@).push(item@));
        None
    } else {
        Some(item.key)
    }
}

/// Parser over the tokens of one document.
pub struct Parser {
    /// Tokens returned from the lexer.
    tokens: Vec<Token>,
    /// Offset of the next token to read.
    position: usize,
    /// What was left out so far because its key was there already.
    duplicates: Vec<Duplicate>,
}

impl Parser {
    /// The tokens that this parser reads.
    pub closed spec fn tokens(&self) -> Seq<TokenView> {
        token_views(self.tokens@)
    }

    /// Offset of the next token to read; the number of tokens once all
    /// are read.
    pub closed spec fn offset(&self) -> int {
        if self.position <= self.tokens.len() {
            self.position as int
        } else {
            self.tokens.len() as int
        }
    }

    /// The duplicates that were met so far, in the order in which they
    /// were met.
    pub closed spec fn reported(&self) -> Seq<DuplicateView> {
        duplicate_views(self.duplicates@)
    }

    /// A parser at the start of `tokens`.
    pub fn new(tokens: Vec<Token>) -> (parser: Parser)
        ensures
            parser.tokens() == token_views(tokens@),
            parser.offset() == 0,
            parser.reported() == Seq::<DuplicateView>::empty(),
    {
        let parser = Parser { tokens, position: 0, duplicates: Vec::new() };
        assert(parser.reported() =~= Seq::<DuplicateView>::empty());
        parser
    }

    /// The duplicates that were met so far: each is an entry that was left
    /// out because its key was there already.
    pub fn duplicates(&self) -> (found: &Vec<Duplicate>)
        ensures
            duplicate_views(found@) == self.reported(),
    {
        &self.duplicates
    }

    /// Takes note of a duplicate, if there is one.
    fn report(&mut self, place: DuplicatePlace, dropped: Option<String>)
        ensures
            final(self).tokens() == old(self).tokens(),
            final(self).offset() == old(self).offset(),
            final(self).reported() == old(self).reported() + match dropped {
                Some(key) => seq![DuplicateView { place, key: key@ }],
                None => Seq::empty(),
            },
    {
        match dropped {
            Some(key) => {
                let ghost before = self.reported();
                self.duplicates.push(Duplicate { place, key });
                assert(self.reported() =~= before + seq![DuplicateView { place, key: key@ }]);
            },
            None => {
                assert(self.reported() =~= old(self).reported() + Seq::<DuplicateView>::empty());
            },
        }
    }

    /// Reads the next token, if one is left.
    pub fn consume_token(&mut self) -> (token: Option<&Token>)
        ensures
            final(self).tokens() == old(self).tokens(),
            final(self).reported() == old(self).reported(),
            0 <= old(self).offset() <= old(self).tokens().len(),
            match token {
                Some(t) => old(self).offset() < old(self).tokens().len() && t@ == old(
                    self,
                ).tokens()[old(self).offset()] && final(self).offset() == old(self).offset() + 1,
                None => old(self).offset() == old(self).tokens().len() && final(self).offset()
                    == old(self).offset(),
            },
    {
        if self.position < self.tokens.len() {
            let index = self.position;
            self.position = self.position + 1;
            Some(&self.tokens[index])
        } else {
            None
        }
    }

    /// Reads a key-value pair: three tokens, or all that are left where
    /// they are fewer, in which case there is no pair.
    pub fn parse_key(&mut self) -> (r: Option<TomlValue>)
        ensures
            final(self).tokens() == old(self).tokens(),
            final(self).reported() == old(self).reported(),
            0 <= old(self).offset() <= old(self).tokens().len(),
            final(self).offset() == after_three(old(self).tokens(), old(self).offset()),
            match pair_at(old(self).tokens(), old(self).offset()) {
                Some(entry) => r matches Some(item) && item@ == entry,
                None => r is None,
            },
    {
        let key = match self.consume_token() {
            Some(token) => token.value.clone(),
            None => {
                return None;
            },
        };
        if self.consume_token().is_none() {
            return None;
        }
        let value = match self.consume_token() {
            Some(token) => token.value.clone(),
            None => {
                return None;
            },
        };
        let kind = classify_text(value);
        Some(TomlValue { key, kind })
    }

    /// Reads a table: the three tokens of its header and then its lines, up
    /// to a blank line or the end. There is no table where fewer than three
    /// tokens are left; they are read all the same. A key-value pair whose
    /// key the table has already is left out and noted as a duplicate.
    pub fn parse_table(&mut self) -> (r: Option<TomlValue>)
        ensures
            final(self).tokens() == old(self).tokens(),
            final(self).reported() == old(self).reported() + notes_in_table(
                old(self).tokens(),
                old(self).offset(),
            ),
            0 <= old(self).offset() <= old(self).tokens().len(),
            final(self).offset() == table_at(old(self).tokens(), old(self).offset()).1,
            match table_at(old(self).tokens(), old(self).offset()).0 {
                Some(entry) => r matches Some(item) && item@ == entry,
                None => r is None,
            },
    {
        let ghost ts = self.tokens();
        let ghost told = self.reported();
        assert(told + Seq::<DuplicateView>::empty() =~= told);
        if self.consume_token().is_none() {
            return None;
        }
        let name = match self.consume_token() {
            Some(token) => token.value.clone(),
            None => {
                return None;
            },
        };
        if self.consume_token().is_none() {
            return None;
        }
        let ghost start = self.offset();
        let mut key_values: Vec<TomlValue> = Vec::new();
        let mut open = true;
        assert(entries_of(key_values@) =~= Seq::<Entry>::empty());
        while open
            invariant
                self.tokens() == ts,
                0 <= self.offset() <= ts.len(),
                open ==> table_body(ts, self.offset(), entries_of(key_values@))
                    == table_body(ts, start, Seq::empty()),
                !open ==> (entries_of(key_values@), self.offset()) == table_body(
                    ts,
                    start,
                    Seq::empty(),
                ),
                open ==> self.reported() + table_notes(
                    ts,
                    self.offset(),
                    entries_of(key_values@),
                ) == told + table_notes(ts, start, Seq::empty()),
                !open ==> self.reported() == told + table_notes(ts, start, Seq::empty()),
            decreases ts.len() - self.offset() + (if open { 1int } else { 0int }),
        {
            let at_newline = match self.peek_token() {
                Some(token) => Some(token.token_type == TokenType::Newline),
                None => None,
            };
            let ghost so_far = self.reported();
            let ghost here = self.offset();
            let ghost entries = entries_of(key_values@);
            match at_newline {
                None => {
                    open = false;
                    assert(so_far + Seq::<DuplicateView>::empty() =~= so_far);
                },
                Some(newline) => {
                    let mut blank = false;
                    if newline {
                        let _ = self.consume_token();
                        match self.peek_token() {
                            Some(token) => {
                                if token.token_type == TokenType::Newline {
                                    blank = true;
                                }
                            },
                            None => {},
                        }
                    }
                    if blank {
                        open = false;
                        assert(so_far + Seq::<DuplicateView>::empty() =~= so_far);
                    } else {
                        let ghost q = self.offset();
                        let ghost note = note_of(
                            entries,
                            pair_at(ts, q),
                            DuplicatePlace::TablePair,
                        );
                        let ghost rest = table_notes(
                            ts,
                            after_three(ts, q),
                            add_found(entries, pair_at(ts, q)),
                        );
                        let dropped = match self.parse_key() {
                            Some(kv) => push_unless_present(&mut key_values, kv),
                            None => None,
                        };
                        self.report(DuplicatePlace::TablePair, dropped);
                        assert(self.reported() == so_far + note);
                        assert((so_far + note) + rest =~= so_far + (note + rest));
                    }
                },
            }
        }
        proof {
            lemma_table_view(key_values);
        }
        Some(TomlValue { key: name, kind: TomlValueKind::Table(key_values) })
    }

    /// Reads all the tokens that are left and gives the document that they
    /// write. Nothing is an error: what cannot be read is left out. An entry
    /// whose key the document has already is left out and noted as a
    /// duplicate.
    pub fn parse(&mut self) -> (toml: Toml)
        ensures
            final(self).tokens() == old(self).tokens(),
            final(self).reported() == old(self).reported() + notes_from(
                old(self).tokens(),
                old(self).offset(),
                Seq::empty(),
            ),
            well_formed(toml@),
            final(self).offset() == old(self).tokens().len(),
            0 <= old(self).offset() <= old(self).tokens().len(),
            toml@ == parse_from(old(self).tokens(), old(self).offset(), Seq::empty()),
    {
        let ghost ts = self.tokens();
        let ghost told = self.reported();
        let ghost start = self.offset();
        proof {
            crate::toml::laws::law_first_occurrence_wins(ts, start, Seq::empty());
        }
        let mut elements: Vec<TomlValue> = Vec::new();
        let mut more = true;
        assert(entries_of(elements@) =~= Seq::<Entry>::empty());
        while more
            invariant
                self.tokens() == ts,
                0 <= self.offset() <= ts.len(),
                more ==> self.reported() + notes_from(
                    ts,
                    self.offset(),
                    entries_of(elements@),
                ) == told + notes_from(ts, start, Seq::empty()),
                !more ==> self.reported() == told + notes_from(ts, start, Seq::empty()),
                more ==> parse_from(ts, self.offset(), entries_of(elements@))
                    == parse_from(ts, start, Seq::empty()),
                !more ==> self.offset() == ts.len() && entries_of(elements@) == parse_from(
                    ts,
                    start,
                    Seq::empty(),
                ),
            decreases ts.len() - self.offset() + (if more { 1int } else { 0int }),
        {
            let kind = match self.peek_token() {
                Some(token) => Some(token.token_type),
                None => None,
            };
            let ghost so_far = self.reported();
            let ghost here = self.offset();
            let ghost doc = entries_of(elements@);
            match kind {
                None => {
                    more = false;
                    assert(so_far + Seq::<DuplicateView>::empty() =~= so_far);
                },
                Some(TokenType::Key) => {
                    let ghost note = note_of(doc, pair_at(ts, here), DuplicatePlace::Pair);
                    let ghost rest = notes_from(
                        ts,
                        after_three(ts, here),
                        add_found(doc, pair_at(ts, here)),
                    );
                    let dropped = match self.parse_key() {
                        Some(kv) => push_unless_present(&mut elements, kv),
                        None => None,
                    };
                    self.report(DuplicatePlace::Pair, dropped);
                    assert(self.reported() == so_far + note);
                    assert((so_far + note) + rest =~= so_far + (note + rest));
                },
                Some(TokenType::LeftBracket) => {
                    proof {
                        if self.offset() + 3 <= ts.len() {
                            lemma_table_body_end(ts, self.offset() + 3, Seq::empty());
                        }
                    }
                    let ghost inner = notes_in_table(ts, here);
                    let ghost note = note_of(
                        doc,
                        table_at(ts, here).0,
                        DuplicatePlace::TableName,
                    );
                    let ghost rest = notes_from(
                        ts,
                        table_at(ts, here).1,
                        add_found(doc, table_at(ts, here).0),
                    );
                    let dropped = match self.parse_table() {
                        Some(kv) => push_unless_present(&mut elements, kv),
                        None => None,
                    };
                    self.report(DuplicatePlace::TableName, dropped);
                    assert(self.reported() == (so_far + inner) + note);
                    assert(((so_far + inner) + note) + rest =~= so_far + ((inner + note) + rest));
                },
                Some(_) => {
                    let _ = self.consume_token();
                },
            }
        }
        Toml { data: elements }
    }

    /// The next token, if one is left; it stays unread.
    pub fn peek_token(&self) -> (token: Option<&Token>)
        ensures
            0 <= self.offset() <= self.tokens().len(),
            match token {
                Some(t) => self.offset() < self.tokens().len() && t@ == self.tokens()[self.offset()],
                None => self.offset() == self.tokens().len(),
            },
    {
        if self.position < self.tokens.len() {
            Some(&self.tokens[self.position])
        } else {
            None
        }
    }
}

} // verus!
