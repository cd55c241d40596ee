//! The document model: an ordered list of keyed values.

use crate::text::{
    char_is_alphanumeric, chars_of, integer_text, push_integer, push_str, string_of, trim_end,
    truncate_trailing_whitespace,
};
use crate::toml::laws::{law_delete, law_parsed_is_well_formed, law_set};
use crate::toml::lexer::{key_char, tokenize, Lexer};
use crate::toml::parser::{parse_tokens, Parser};
use vstd::prelude::*;

verus! {

/// What a [`TomlValueKind`] stands for.
pub enum Value {
    Text(Seq<char>),
    Integer(i64),
    Boolean(bool),
    Table(Seq<Entry>),
}

/// What a [`TomlValue`] stands for: a key and its value.
pub struct Entry {
    pub key: Seq<char>,
    pub value: Value,
}

#[derive(Debug)]
pub enum TomlValueKind {
    String(String),
    Integer(i64),
    Boolean(bool),
    Table(Vec<TomlValue>),
}

#[derive(Debug)]
pub struct TomlValue {
    pub key: String,
    pub kind: TomlValueKind,
}

#[derive(Debug)]
pub struct Toml {
    pub data: Vec<TomlValue>,
}

/// The value that `kind` stands for.
pub open spec fn value_of(kind: TomlValueKind) -> Value
    decreases kind,
{
    match kind {
        TomlValueKind::String(s) => Value::Text(s@),
        TomlValueKind::Integer(n) => Value::Integer(n),
        TomlValueKind::Boolean(b) => Value::Boolean(b),
        TomlValueKind::Table(entries) => Value::Table(
            Seq::new(
                entries@.len(),
                |i: int|
                    if 0 <= i < entries@.len() {
                        Entry { key: entries@[i].key@, value: value_of(entries@[i].kind) }
                    } else {
                        arbitrary()
                    },
            ),
        ),
    }
}

impl View for TomlValueKind {
    type V = Value;

    open spec fn view(&self) -> Value {
        value_of(*self)
    }
}

impl View for TomlValue {
    type V = Entry;

    open spec fn view(&self) -> Entry {
        Entry { key: self.key@, value: self.kind@ }
    }
}

/// The entries that a list of items stands for.
pub open spec fn entries_of(items: Seq<TomlValue>) -> Seq<Entry> {
    Seq::new(items.len(), |i: int| items[i]@)
}

impl View for Toml {
    type V = Seq<Entry>;

    open spec fn view(&self) -> Seq<Entry> {
        entries_of(self.data@)
    }
}

/// A table stands for the entries that its items stand for.
pub proof fn lemma_table_view(items: Vec<TomlValue>)
    ensures
        TomlValueKind::Table(items)@ == Value::Table(entries_of(items@)),
{
    assert(TomlValueKind::Table(items)@->Table_0 =~= entries_of(items@));
}

/// A key that `set` accepts: one or more ASCII letters, digits or `_`.
pub open spec fn valid_key(key: Seq<char>) -> bool {
    key.len() > 0 && forall|i: int| 0 <= i < key.len() ==> key_char(#[trigger] key[i])
}

/// Whether an entry of `doc` has the key `key`.
pub open spec fn has_key(doc: Seq<Entry>, key: Seq<char>) -> bool {
    exists|i: int| 0 <= i < doc.len() && (#[trigger] doc[i]).key == key
}

/// Whether no two entries of `doc` have the same key.
pub open spec fn unique_keys(doc: Seq<Entry>) -> bool {
    forall|i: int, j: int|
        0 <= i < j < doc.len() ==> (#[trigger] doc[i]).key != (#[trigger] doc[j]).key
}

/// Whether `doc` keeps what a document promises: no two entries have one
/// key, and the same holds inside each table, where no table stands.
pub open spec fn well_formed(doc: Seq<Entry>) -> bool {
    &&& unique_keys(doc)
    &&& forall|i: int|
        0 <= i < doc.len() ==> ((#[trigger] doc[i]).value matches Value::Table(entries)
            ==> well_formed_table(entries))
}

/// Whether no two of `entries` have one key and none of them is a table.
pub open spec fn well_formed_table(entries: Seq<Entry>) -> bool {
    &&& unique_keys(entries)
    &&& forall|j: int| 0 <= j < entries.len() ==> !((#[trigger] entries[j]).value is Table)
}

/// Offset of the first entry of `doc` at or after `from` whose key is `key`;
/// the length of `doc` where there is none.
pub open spec fn find_from(doc: Seq<Entry>, key: Seq<char>, from: int) -> int
    decreases doc.len() - from,
{
    if from < 0 || from >= doc.len() {
        doc.len() as int
    } else if doc[from].key == key {
        from
    } else {
        find_from(doc, key, from + 1)
    }
}

/// Offset of the first entry of `doc` whose key is `key`.
pub open spec fn index_of(doc: Seq<Entry>, key: Seq<char>) -> Option<int> {
    if find_from(doc, key, 0) < doc.len() {
        Some(find_from(doc, key, 0))
    } else {
        None
    }
}

/// The value of the first entry of `doc` whose key is `key`.
pub open spec fn lookup(doc: Seq<Entry>, key: Seq<char>) -> Option<Value> {
    match index_of(doc, key) {
        Some(i) => Some(doc[i].value),
        None => None,
    }
}

/// `doc` with `entry` in the place of the first entry that has its key, or
/// at the end where no entry has that key.
pub open spec fn put(doc: Seq<Entry>, entry: Entry) -> Seq<Entry> {
    match index_of(doc, entry.key) {
        Some(i) => doc.update(i, entry),
        None => doc.push(entry),
    }
}

/// `doc` without the entries whose key is `key`.
pub open spec fn without(doc: Seq<Entry>, key: Seq<char>) -> Seq<Entry> {
    doc.filter(|e: Entry| e.key != key)
}

/// What `find_from` finds is in range, has the key, and is the first such
/// entry from `from` on.
pub proof fn lemma_find_from(doc: Seq<Entry>, key: Seq<char>, from: int)
    requires
        0 <= from <= doc.len(),
    ensures
        from <= find_from(doc, key, from) <= doc.len(),
        find_from(doc, key, from) < doc.len() ==> doc[find_from(doc, key, from)].key == key,
        forall|j: int| from <= j < find_from(doc, key, from) ==> (#[trigger] doc[j]).key != key,
    decreases doc.len() - from,
{
    if from < doc.len() && doc[from].key != key {
        lemma_find_from(doc, key, from + 1);
    }
}

/// `index_of` gives the first entry with the key, and `None` exactly where
/// no entry has it.
pub proof fn lemma_index_of(doc: Seq<Entry>, key: Seq<char>)
    ensures
        index_of(doc, key) is Some <==> has_key(doc, key),
        index_of(doc, key) matches Some(i) ==> 0 <= i < doc.len() && doc[i].key == key
            && forall|j: int| 0 <= j < i ==> (#[trigger] doc[j]).key != key,
{
    lemma_find_from(doc, key, 0);
    if has_key(doc, key) {
        let i = choose|i: int| 0 <= i < doc.len() && (#[trigger] doc[i]).key == key;
        assert(doc[i].key == key);
    }
}

/// The line that writes a scalar entry; nothing for a table.
pub open spec fn scalar_line(entry: Entry) -> Seq<char> {
    match entry.value {
        Value::Text(text) => entry.key + seq![' ', '=', ' ', '"'] + text + seq!['"', '\n'],
        Value::Integer(n) => entry.key + seq![' ', '=', ' '] + integer_text(n as int) + seq!['\n'],
        Value::Boolean(b) => entry.key + seq![' ', '=', ' '] + (if b {
            seq!['t', 'r', 'u', 'e']
        } else {
            seq!['f', 'a', 'l', 's', 'e']
        }) + seq!['\n'],
        Value::Table(_) => Seq::empty(),
    }
}

/// The lines that write the scalar entries among the first `n` of
/// `entries`, in order.
pub open spec fn lines_upto(entries: Seq<Entry>, n: int) -> Seq<char>
    decreases n,
{
    if n <= 0 {
        Seq::empty()
    } else {
        lines_upto(entries, n - 1) + scalar_line(entries[n - 1])
    }
}

/// The section that writes a table: a blank line unless the table comes
/// `first`, the header, the lines of its scalar entries, and a blank line.
pub open spec fn table_text(name: Seq<char>, entries: Seq<Entry>, first: bool) -> Seq<char> {
    (if first {
        Seq::empty()
    } else {
        seq!['\n']
    }) + seq!['['] + name + seq![']', '\n'] + lines_upto(entries, entries.len() as int) + seq![
        '\n',
    ]
}

/// The text that writes the entry `doc[i]`.
pub open spec fn entry_text(doc: Seq<Entry>, i: int) -> Seq<char> {
    match doc[i].value {
        Value::Table(entries) => table_text(doc[i].key, entries, i == 0),
        _ => scalar_line(doc[i]),
    }
}

/// The text that writes the first `n` entries of `doc`, in order.
pub open spec fn body_upto(doc: Seq<Entry>, n: int) -> Seq<char>
    decreases n,
{
    if n <= 0 {
        Seq::empty()
    } else {
        body_upto(doc, n - 1) + entry_text(doc, n - 1)
    }
}

/// The text of `doc`: its entries in order, without white space at the end,
/// and one line feed after that.
pub open spec fn render(doc: Seq<Entry>) -> Seq<char> {
    trim_end(body_upto(doc, doc.len() as int)) + seq!['\n']
}

/// Appends ` = ` to `out`.
fn push_assign(out: &mut Vec<char>)
    ensures
        final(out)@ == old(out)@ + seq![' ', '=', ' '],
{
    out.push(' ');
    out.push('=');
    out.push(' ');
    assert(out@ =~= old(out)@ + seq![' ', '=', ' ']);
}

/// Appends the line of `item` to `out` where `item` is a scalar.
fn push_scalar_line(out: &mut Vec<char>, item: &TomlValue)
    ensures
        final(out)@ == old(out)@ + scalar_line(item@),
{
    match &item.kind {
        TomlValueKind::String(text) => {
            push_str(out, item.key.as_str());
            push_assign(out);
            out.push('"');
            push_str(out, text.as_str());
            out.push('"');
            out.push('\n');
            assert(out@ =~= old(out)@ + scalar_line(item@));
        },
        TomlValueKind::Integer(n) => {
            push_str(out, item.key.as_str());
            push_assign(out);
            push_integer(out, *n);
            out.push('\n');
            assert(out@ =~= old(out)@ + scalar_line(item@));
        },
        TomlValueKind::Boolean(b) => {
            push_str(out, item.key.as_str());
            push_assign(out);
            if *b {
                out.push('t');
                out.push('r');
                out.push('u');
                out.push('e');
            } else {
                out.push('f');
                out.push('a');
                out.push('l');
                out.push('s');
                out.push('e');
            }
            out.push('\n');
            assert(out@ =~= old(out)@ + scalar_line(item@));
        },
        TomlValueKind::Table(_) => {
            assert(out@ =~= old(out)@ + scalar_line(item@));
        },
    }
}

impl From<String> for Toml {
    /// The document that the text `value` writes.
    fn from(value: String) -> (toml: Toml)
        ensures
            toml@ == parse_tokens(tokenize(value@)),
            well_formed(toml@),
    {
        proof {
            law_parsed_is_well_formed(tokenize(value@));
        }
        let mut lexer = Lexer::new(value.as_str());
        Parser::new(lexer.collect()).parse()
    }
}

impl vstd::std_specs::convert::FromSpecImpl<String> for Toml {
    open spec fn obeys_from_spec() -> bool {
        false
    }

    open spec fn from_spec(value: String) -> Toml {
        arbitrary()
    }
}

impl From<Option<Vec<TomlValue>>> for Toml {
    /// The document of the items `value`; an empty one where there are none.
    fn from(value: Option<Vec<TomlValue>>) -> (toml: Toml)
        ensures
            toml@ == match value {
                Some(data) => entries_of(data@),
                None => Seq::empty(),
            },
    {
        match value {
            Some(data) => Toml { data },
            None => Toml::new(),
        }
    }
}

impl vstd::std_specs::convert::FromSpecImpl<Option<Vec<TomlValue>>> for Toml {
    open spec fn obeys_from_spec() -> bool {
        false
    }

    open spec fn from_spec(value: Option<Vec<TomlValue>>) -> Toml {
        arbitrary()
    }
}

/// Offset of the first of `items` whose key is `key`.
pub fn find_item(items: &Vec<TomlValue>, key: &String) -> (r: Option<usize>)
    ensures
        match r {
            Some(i) => index_of(entries_of(items@), key@) == Some(i as int) && i < items.len(),
            None => index_of(entries_of(items@), key@) is None,
        },
{
    let mut i: usize = 0;
    while i < items.len()
        invariant
            i <= items.len(),
            find_from(entries_of(items@), key@, i as int) == find_from(
                entries_of(items@),
                key@,
                0,
            ),
        decreases items.len() - i,
    {
        if items[i].key == *key {
            return Some(i);
        }
        i += 1;
    }
    None
}

/// The key that `try_set` refused.
#[derive(Debug)]
pub struct InvalidKey {
    pub key: String,
}

impl Toml {
    /// An empty document.
    pub fn new() -> (toml: Toml)
        ensures
            toml@ == Seq::<Entry>::empty(),
    {
        Toml { data: Vec::new() }
    }

    /// Offset of the first item whose key is `key`.
    fn position(&self, key: &String) -> (r: Option<usize>)
        ensures
            match r {
                Some(i) => index_of(self@, key@) == Some(i as int) && i < self.data.len(),
                None => index_of(self@, key@) is None,
            },
    {
        find_item(&self.data, key)
    }

    /// The value of the first entry whose key is `key`. Tables are not
    /// searched.
    pub fn get(&self, key: &str) -> (r: Option<&TomlValueKind>)
        ensures
            match index_of(self@, key@) {
                Some(i) => r == Some(&self.data@[i].kind),
                None => r is None,
            },
    {
        let key = key.to_owned();
        match self.position(&key) {
            Some(i) => Some(&self.data[i].kind),
            None => None,
        }
    }
}

impl Toml {
    /// Mutable access to the value of the first entry whose key is `key`.
    /// Tables are not searched.
    pub fn get_mut(&mut self, key: &str) -> (r: Option<&mut TomlValueKind>)
        ensures
            match index_of(old(self)@, key@) {
                Some(i) => r matches Some(kind) && *kind == old(self).data@[i].kind
                    && final(self).data@ == old(self).data@.update(
                    i,
                    TomlValue { key: old(self).data@[i].key, kind: *final(kind) },
                ),
                None => r is None && *final(self) == *old(self),
            },
    {
        let key = key.to_owned();
        match self.position(&key) {
            Some(i) => Some(&mut self.data[i].kind),
            None => None,
        }
    }

    /// Whether `set` accepts `key`.
    pub fn is_valid_key(key: &str) -> (b: bool)
        ensures
            b == valid_key(key@),
    {
        let chars = chars_of(key);
        if chars.len() == 0 {
            return false;
        }
        let mut i: usize = 0;
        while i < chars.len()
            invariant
                i <= chars.len(),
                chars@ == key@,
                forall|j: int| 0 <= j < i ==> key_char(#[trigger] chars@[j]),
            decreases chars.len() - i,
        {
            let c = chars[i];
            if !(char_is_alphanumeric(c) || c == '_') {
                return false;
            }
            i += 1;
        }
        true
    }

    /// Gives `key` the value `kind`: in the place of the first entry that
    /// has this key, or in a new entry at the end where none has it.
    pub fn set(&mut self, key: String, kind: TomlValueKind)
        requires
            valid_key(key@),
        ensures
            final(self)@ == put(old(self)@, Entry { key: key@, value: kind@ }),
            lookup(final(self)@, key@) == Some(kind@),
            unique_keys(old(self)@) ==> unique_keys(final(self)@),
    {
        proof {
            law_set(self@, Entry { key: key@, value: kind@ });
        }
        let found = self.position(&key);
        let data = TomlValue { key, kind };
        match found {
            Some(index) => {
                self.data.set(index, data);
            },
            None => {
                self.data.push(data);
            },
        }
        assert(self@ =~= put(old(self)@, data@));
    }

    /// As `set`, but a key that `set` does not accept leaves the document as
    /// it is and comes back as the error.
    pub fn try_set(&mut self, key: String, kind: TomlValueKind) -> (r: Result<(), InvalidKey>)
        ensures
            valid_key(key@) ==> r is Ok && final(self)@ == put(
                old(self)@,
                Entry { key: key@, value: kind@ },
            ),
            !valid_key(key@) ==> (r matches Err(e) && e.key@ == key@) && *final(self) == *old(self),
    {
        if Toml::is_valid_key(key.as_str()) {
            self.set(key, kind);
            Ok(())
        } else {
            Err(InvalidKey { key })
        }
    }

    /// The text of the document.
    pub fn to_toml(&self) -> (text: String)
        ensures
            text@ == render(self@),
    {
        let mut out: Vec<char> = Vec::new();
        let mut i: usize = 0;
        while i < self.data.len()
            invariant
                i <= self.data.len(),
                out@ == body_upto(self@, i as int),
            decreases self.data.len() - i,
        {
            let ghost before = out@;
            let value = &self.data[i];
            match &value.kind {
                TomlValueKind::Table(val) => {
                    proof {
                        lemma_table_view(*val);
                    }
                    if i != 0 {
                        out.push('\n');
                    }
                    out.push('[');
                    push_str(&mut out, value.key.as_str());
                    out.push(']');
                    out.push('\n');
                    let ghost head = out@;
                    let mut j: usize = 0;
                    while j < val.len()
                        invariant
                            j <= val.len(),
                            out@ == head + lines_upto(entries_of(val@), j as int),
                        decreases val.len() - j,
                    {
                        let ghost lines = lines_upto(entries_of(val@), j as int);
                        push_scalar_line(&mut out, &val[j]);
                        assert(out@ =~= head + (lines + scalar_line(val@[j as int]@)));
                        j += 1;
                    }
                    out.push('\n');
                    assert(out@ =~= before + entry_text(self@, i as int));
                },
                _ => {
                    push_scalar_line(&mut out, value);
                },
            }
            i += 1;
        }
        truncate_trailing_whitespace(&mut out);
        out.push('\n');
        string_of(&out)
    }

    /// Removes every entry whose key is `key`; the other entries keep their
    /// order.
    pub fn delete(&mut self, key: &str)
        ensures
            final(self)@ == without(old(self)@, key@),
            !has_key(final(self)@, key@),
            unique_keys(old(self)@) ==> unique_keys(final(self)@),
    {
        proof {
            law_delete(self@, key@);
        }
        let key = key.to_owned();
        let mut kept: Vec<TomlValue> = Vec::new();
        std::mem::swap(&mut self.data, &mut kept);
        let ghost all = kept@;
        let ghost keep = |e: Entry| e.key != key@;
        assert(entries_of(all) == old(self)@);
        assert(entries_of(all).take(0).filter(keep) =~= Seq::<Entry>::empty()) by {
            reveal(Seq::filter);
        }
        for item in it: kept
            invariant
                it.seq() == all,
                keep == |e: Entry| e.key != key@,
                entries_of(self.data@) == entries_of(all).take(it.index() as int).filter(keep),
        {
            let ghost n = it.index() as int;
            let ghost before = entries_of(self.data@);
            proof {
                reveal(Seq::filter);
                assert(entries_of(all).take(n + 1).drop_last() =~= entries_of(all).take(n));
                assert(entries_of(all).take(n + 1).last() == item@);
            }
            if item.key != key {
                self.data.push(item);
                assert(entries_of(self.data@) =~= before.push(item@));
            }
        }
        assert(entries_of(all).take(all.len() as int) =~= entries_of(all));
    }
}

} // verus!

