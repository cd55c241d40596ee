//! The tokenizer: from the characters of a document to its tokens.

use crate::text::{
    char_is_alphanumeric, char_is_digit, chars_of, is_alphanumeric, is_digit, string_of_range,
};
use vstd::prelude::*;

verus! {

#[derive(Debug, PartialEq, Eq, Clone, Copy, Structural)]
pub enum TokenType {
    Key,
    Value,
    Equals,
    Newline,
    LeftBracket,
    RightBracket,
}

#[derive(Debug)]
pub struct Token {
    pub token_type: TokenType,
    pub value: String,
}

/// What a [`Token`] stands for: its kind and the characters of its payload.
pub struct TokenView {
    pub kind: TokenType,
    pub text: Seq<char>,
}

impl View for Token {
    type V = TokenView;

    open spec fn view(&self) -> TokenView {
        TokenView { kind: self.token_type, text: self.value@ }
    }
}

/// What a list of tokens stands for.
pub open spec fn token_views(tokens: Seq<Token>) -> Seq<TokenView> {
    Seq::new(tokens.len(), |i: int| tokens[i]@)
}

/// A line break: line feed or carriage return.
pub open spec fn newline_char(c: char) -> bool {
    c == '\n' || c == '\r'
}

/// A character that a key is made of.
pub open spec fn key_char(c: char) -> bool {
    is_alphanumeric(c) || c == '_'
}

/// A character that a value is made of.
pub open spec fn value_char(c: char) -> bool {
    is_alphanumeric(c) || c == '"' || c == '_' || c == '\'' || c == '/' || c == '.'
}

/// Number of key characters that follow one another from `s[i]` on.
pub open spec fn key_run(s: Seq<char>, i: int) -> nat
    decreases s.len() - i,
{
    if 0 <= i < s.len() && key_char(s[i]) {
        1 + key_run(s, i + 1)
    } else {
        0
    }
}

/// Number of value characters that follow one another from `s[i]` on.
pub open spec fn value_run(s: Seq<char>, i: int) -> nat
    decreases s.len() - i,
{
    if 0 <= i < s.len() && value_char(s[i]) {
        1 + value_run(s, i + 1)
    } else {
        0
    }
}

/// Number of characters from `s[i]` up to and including the first line
/// break, or up to the end of `s` where no line break follows.
pub open spec fn rest_of_line(s: Seq<char>, i: int) -> nat
    decreases s.len() - i,
{
    if 0 <= i < s.len() {
        if newline_char(s[i]) {
            1
        } else {
            1 + rest_of_line(s, i + 1)
        }
    } else {
        0
    }
}

/// `t` without the pair of equal quotes around it, if it has one.
pub open spec fn unquote(t: Seq<char>) -> Seq<char> {
    if t.len() >= 2 && t.first() == t.last() && (t.first() == '"' || t.first() == '\'') {
        t.subrange(1, t.len() - 1)
    } else {
        t
    }
}

/// The token that starts with the character `s[i]`, and the offset of the
/// character after that token. `None` where `s[i]` starts no token, or `i`
/// is no offset into `s`.
pub open spec fn token_at(s: Seq<char>, i: int) -> Option<(TokenView, int)> {
    if i < 0 || i >= s.len() {
        None
    } else if newline_char(s[i]) {
        Some((TokenView { kind: TokenType::Newline, text: seq![s[i]] }, i + 1))
    } else if s[i] == '#' {
        Some(
            (TokenView { kind: TokenType::Newline, text: seq!['\n'] }, i + 1 + rest_of_line(s, i + 1)),
        )
    } else if s[i] == '=' {
        Some((TokenView { kind: TokenType::Equals, text: seq!['='] }, i + 1))
    } else if s[i] == '[' {
        Some((TokenView { kind: TokenType::LeftBracket, text: seq!['['] }, i + 1))
    } else if s[i] == ']' {
        Some((TokenView { kind: TokenType::RightBracket, text: seq![']'] }, i + 1))
    } else if key_char(s[i]) {
        let end = i + 1 + key_run(s, i + 1);
        let kind = if is_digit(s[i]) {
            TokenType::Value
        } else {
            TokenType::Key
        };
        Some((TokenView { kind, text: s.subrange(i, end) }, end))
    } else if value_char(s[i]) {
        let end = i + 1 + value_run(s, i + 1);
        Some((TokenView { kind: TokenType::Value, text: unquote(s.subrange(i, end)) }, end))
    } else {
        None
    }
}

/// The first token at or after offset `i`, and the offset of the character
/// after it. Characters that start no token are passed over.
pub open spec fn next_from(s: Seq<char>, i: int) -> Option<(TokenView, int)>
    decreases s.len() - i,
{
    if i < 0 || i >= s.len() {
        None
    } else if token_at(s, i) is Some {
        token_at(s, i)
    } else {
        next_from(s, i + 1)
    }
}

/// The tokens of `s` from offset `i` on.
pub open spec fn tokens_from(s: Seq<char>, i: int) -> Seq<TokenView>
    decreases s.len() - i,
    via tokens_from_decreases
{
    if i < 0 || i >= s.len() {
        Seq::empty()
    } else {
        match token_at(s, i) {
            Some((token, end)) => seq![token] + tokens_from(s, end),
            None => tokens_from(s, i + 1),
        }
    }
}

#[via_fn]
proof fn tokens_from_decreases(s: Seq<char>, i: int) {
    lemma_token_extent(s, i);
}

/// The tokens of `s`.
pub open spec fn tokenize(s: Seq<char>) -> Seq<TokenView> {
    tokens_from(s, 0)
}

/// A run of key characters ends inside `s`.
pub proof fn lemma_key_run_bound(s: Seq<char>, i: int)
    requires
        0 <= i <= s.len(),
    ensures
        i + key_run(s, i) <= s.len(),
        i + key_run(s, i) < s.len() ==> !key_char(s[i + key_run(s, i)]),
        forall|j: int| i <= j < i + key_run(s, i) ==> key_char(#[trigger] s[j]),
    decreases s.len() - i,
{
    if i < s.len() && key_char(s[i]) {
        lemma_key_run_bound(s, i + 1);
    }
}

/// A run of value characters ends inside `s`.
pub proof fn lemma_value_run_bound(s: Seq<char>, i: int)
    requires
        0 <= i <= s.len(),
    ensures
        i + value_run(s, i) <= s.len(),
        i + value_run(s, i) < s.len() ==> !value_char(s[i + value_run(s, i)]),
        forall|j: int| i <= j < i + value_run(s, i) ==> value_char(#[trigger] s[j]),
    decreases s.len() - i,
{
    if i < s.len() && value_char(s[i]) {
        lemma_value_run_bound(s, i + 1);
    }
}

/// The rest of a line ends inside `s`.
pub proof fn lemma_rest_of_line_bound(s: Seq<char>, i: int)
    requires
        0 <= i <= s.len(),
    ensures
        i + rest_of_line(s, i) <= s.len(),
    decreases s.len() - i,
{
    if i < s.len() && !newline_char(s[i]) {
        lemma_rest_of_line_bound(s, i + 1);
    }
}

/// A token is at least one character long and ends inside `s`.
pub proof fn lemma_token_extent(s: Seq<char>, i: int)
    ensures
        token_at(s, i) matches Some((_, end)) ==> i < end <= s.len(),
{
    if 0 <= i < s.len() {
        lemma_key_run_bound(s, i + 1);
        lemma_value_run_bound(s, i + 1);
        lemma_rest_of_line_bound(s, i + 1);
    }
}

/// The first token at or after an offset is at least one character long and
/// ends inside `s`.
pub proof fn lemma_next_extent(s: Seq<char>, i: int)
    ensures
        next_from(s, i) matches Some((_, end)) ==> i < end <= s.len(),
    decreases s.len() - i,
{
    if 0 <= i < s.len() {
        lemma_token_extent(s, i);
        if token_at(s, i) is None {
            lemma_next_extent(s, i + 1);
        }
    }
}

/// The tokens from an offset on are the first token at or after it, then
/// the tokens from the end of that token on.
pub proof fn lemma_tokens_from_next(s: Seq<char>, i: int)
    ensures
        tokens_from(s, i) == match next_from(s, i) {
            Some((token, end)) => seq![token] + tokens_from(s, end),
            None => Seq::empty(),
        },
    decreases s.len() - i,
{
    if 0 <= i < s.len() {
        if token_at(s, i) is None {
            lemma_tokens_from_next(s, i + 1);
        }
    }
}

/// Tokenizer over the characters of one document.
pub struct Lexer {
    /// The characters of the document.
    input: Vec<char>,
    /// Offset of the next character to read.
    position: usize,
}

impl Lexer {
    #[verifier::type_invariant]
    spec fn in_bounds(&self) -> bool {
        self.position <= self.input.len()
    }

    /// The characters of the document that this lexer reads.
    pub closed spec fn source(&self) -> Seq<char> {
        self.input@
    }

    /// Offset into the document of the next character to read.
    pub closed spec fn offset(&self) -> int {
        self.position as int
    }

    /// A lexer at the start of `input`.
    pub fn new(input: &str) -> (lexer: Lexer)
        ensures
            lexer.source() == input@,
            lexer.offset() == 0,
    {
        Lexer { input: chars_of(input), position: 0 }
    }

    /// Reads the next character, if one is left.
    pub fn consume_char(&mut self) -> (c: Option<char>)
        ensures
            final(self).source() == old(self).source(),
            match c {
                Some(ch) => old(self).offset() < old(self).source().len() && ch == old(
                    self,
                ).source()[old(self).offset()] && final(self).offset() == old(self).offset() + 1,
                None => old(self).offset() == old(self).source().len() && final(self).offset()
                    == old(self).offset(),
            },
    {
        proof {
            use_type_invariant(&*self);
        }
        if self.position < self.input.len() {
            let c = self.input[self.position];
            self.position = self.position + 1;
            Some(c)
        } else {
            None
        }
    }

    /// The next character, if one is left; it stays unread.
    pub fn peek_char(&self) -> (c: Option<char>)
        ensures
            match c {
                Some(ch) => self.offset() < self.source().len() && ch == self.source()[self.offset()],
                None => self.offset() == self.source().len(),
            },
    {
        proof {
            use_type_invariant(self);
        }
        if self.position < self.input.len() {
            Some(self.input[self.position])
        } else {
            None
        }
    }

    /// Reads the next token, passing over the characters before it that
    /// start no token. `None` once no token is left; the lexer is then at the
    /// end of the document.
    pub fn next_token(&mut self) -> (token: Option<Token>)
        ensures
            final(self).source() == old(self).source(),
            old(self).offset() <= final(self).offset() <= old(self).source().len(),
            match next_from(old(self).source(), old(self).offset()) {
                Some((t, end)) => token matches Some(tok) && tok@ == t && final(self).offset()
                    == end,
                None => token is None && final(self).offset() == old(self).source().len(),
            },
    {
        proof {
            use_type_invariant(&*self);
        }
        let ghost s = self.input@;
        loop
            invariant
                self.input@ == s,
                s == old(self).input@,
                old(self).position <= self.position <= s.len(),
                next_from(s, self.position as int) == next_from(s, old(self).position as int),
            decreases s.len() - self.position,
        {
            let start = self.position;
            proof {
                lemma_token_extent(s, start as int);
            }
            match self.consume_char() {
                None => {
                    return None;
                },
                Some(c) => {
                    if self.is_newline(c) {
                        let mut value = String::new();
                        value.push(c);
                        return Some(Token { token_type: TokenType::Newline, value });
                    } else if c == '#' {
                        self.skip_line();
                        let mut value = String::new();
                        value.push('\n');
                        return Some(Token { token_type: TokenType::Newline, value });
                    } else if c == '=' {
                        let mut value = String::new();
                        value.push(c);
                        return Some(Token { token_type: TokenType::Equals, value });
                    } else if c == '[' {
                        let mut value = String::new();
                        value.push(c);
                        return Some(Token { token_type: TokenType::LeftBracket, value });
                    } else if c == ']' {
                        let mut value = String::new();
                        value.push(c);
                        return Some(Token { token_type: TokenType::RightBracket, value });
                    } else if self.is_key_char(c) {
                        self.skip_key_chars();
                        let value = string_of_range(&self.input, start, self.position);
                        let token_type = if char_is_digit(c) {
                            TokenType::Value
                        } else {
                            TokenType::Key
                        };
                        return Some(Token { token_type, value });
                    } else if self.is_value_char(c) {
                        self.skip_value_chars();
                        let end = self.position;
                        let first = self.input[start];
                        let quoted = end - start >= 2 && first == self.input[end - 1] && (first
                            == '"' || first == '\'');
                        let value = if quoted {
                            assert(s.subrange(start as int, end as int).subrange(
                                1,
                                end - start - 1,
                            ) =~= s.subrange(start + 1, end - 1));
                            string_of_range(&self.input, start + 1, end - 1)
                        } else {
                            string_of_range(&self.input, start, end)
                        };
                        return Some(Token { token_type: TokenType::Value, value });
                    }
                },
            }
        }
    }

    /// Reads up to and including the next line break, or to the end.
    fn skip_line(&mut self)
        ensures
            final(self).source() == old(self).source(),
            final(self).offset() == old(self).offset() + rest_of_line(
                old(self).source(),
                old(self).offset(),
            ),
            final(self).offset() <= old(self).source().len(),
    {
        proof {
            use_type_invariant(&*self);
        }
        let ghost s = self.input@;
        let ghost end = self.position + rest_of_line(s, self.position as int);
        let mut in_line = true;
        while in_line
            invariant
                self.input@ == s,
                self.position <= s.len(),
                in_line ==> self.position + rest_of_line(s, self.position as int) == end,
                !in_line ==> self.position == end,
            decreases s.len() - self.position + (if in_line { 1int } else { 0int }),
        {
            match self.consume_char() {
                None => {
                    in_line = false;
                },
                Some(c) => {
                    if self.is_newline(c) {
                        in_line = false;
                    }
                },
            }
        }
    }

    /// Reads the key characters that follow one another from here on.
    fn skip_key_chars(&mut self)
        ensures
            final(self).source() == old(self).source(),
            final(self).offset() == old(self).offset() + key_run(
                old(self).source(),
                old(self).offset(),
            ),
            final(self).offset() <= old(self).source().len(),
    {
        proof {
            use_type_invariant(&*self);
        }
        let ghost s = self.input@;
        let ghost end = self.position + key_run(s, self.position as int);
        let mut in_run = true;
        while in_run
            invariant
                self.input@ == s,
                self.position <= s.len(),
                in_run ==> self.position + key_run(s, self.position as int) == end,
                !in_run ==> self.position == end,
            decreases s.len() - self.position + (if in_run { 1int } else { 0int }),
        {
            match self.peek_char() {
                None => {
                    in_run = false;
                },
                Some(c) => {
                    if self.is_key_char(c) {
                        let _ = self.consume_char();
                    } else {
                        in_run = false;
                    }
                },
            }
        }
    }

    /// Reads the value characters that follow one another from here on.
    fn skip_value_chars(&mut self)
        ensures
            final(self).source() == old(self).source(),
            final(self).offset() == old(self).offset() + value_run(
                old(self).source(),
                old(self).offset(),
            ),
            final(self).offset() <= old(self).source().len(),
    {
        proof {
            use_type_invariant(&*self);
        }
        let ghost s = self.input@;
        let ghost end = self.position + value_run(s, self.position as int);
        let mut in_run = true;
        while in_run
            invariant
                self.input@ == s,
                self.position <= s.len(),
                in_run ==> self.position + value_run(s, self.position as int) == end,
                !in_run ==> self.position == end,
            decreases s.len() - self.position + (if in_run { 1int } else { 0int }),
        {
            match self.peek_char() {
                None => {
                    in_run = false;
                },
                Some(c) => {
                    if self.is_value_char(c) {
                        let _ = self.consume_char();
                    } else {
                        in_run = false;
                    }
                },
            }
        }
    }

    /// Reads all the tokens that are left.
    pub fn collect(&mut self) -> (tokens: Vec<Token>)
        ensures
            final(self).source() == old(self).source(),
            final(self).offset() == old(self).source().len(),
            token_views(tokens@) == tokens_from(old(self).source(), old(self).offset()),
    {
        proof {
            use_type_invariant(&*self);
        }
        let ghost s = self.input@;
        let mut tokens: Vec<Token> = Vec::new();
        let mut more = true;
        while more
            invariant
                self.input@ == s,
                s == old(self).input@,
                self.position <= s.len(),
                more ==> token_views(tokens@) + tokens_from(s, self.position as int)
                    == tokens_from(s, old(self).position as int),
                !more ==> self.position == s.len() && token_views(tokens@) == tokens_from(
                    s,
                    old(self).position as int,
                ),
            decreases s.len() - self.position + (if more { 1int } else { 0int }),
        {
            let ghost before = token_views(tokens@);
            proof {
                lemma_tokens_from_next(s, self.position as int);
                lemma_next_extent(s, self.position as int);
            }
            match self.next_token() {
                Some(token) => {
                    tokens.push(token);
                    assert(token_views(tokens@) =~= before.push(token@));
                    assert(before.push(token@) + tokens_from(s, self.position as int) =~= before + (
                    seq![token@] + tokens_from(s, self.position as int)));
                },
                None => {
                    more = false;
                    assert(before + Seq::<TokenView>::empty() =~= before);
                },
            }
        }
        tokens
    }

    /// Whether `c` is a line break.
    pub fn is_newline(&self, c: char) -> (b: bool)
        ensures
            b == newline_char(c),
    {
        c == '\n' || c == '\r'
    }

    /// Whether a key may hold `c`.
    pub fn is_key_char(&self, c: char) -> (b: bool)
        ensures
            b == key_char(c),
    {
        char_is_alphanumeric(c) || c == '_'
    }

    /// Whether a value may hold `c`.
    pub fn is_value_char(&self, c: char) -> (b: bool)
        ensures
            b == value_char(c),
    {
        char_is_alphanumeric(c) || c == '"' || c == '_' || c == '\'' || c == '/' || c == '.'
    }
}

} // verus!
