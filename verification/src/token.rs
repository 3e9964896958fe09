//! The lexical level of the query language: tokens, syntax errors, and the
//! lexer that cuts a text into tokens.
//!
//! A text is a sequence of tokens, with any number of spaces, tabs and line
//! ends before, between and after them. A token is the longest piece that
//! fits one of these forms:
//!
//! ```text
//! word     := (letter | "_") (letter | digit | "_")*
//! integer  := digit+
//! decimal  := digit+ "." digit+
//! text     := '"' (any character but '"')* '"'
//! symbol   := "*" | "," | "(" | ")" | "=" | "<" | ">"
//! ```
//!
//! Letters and digits are those of ASCII. A word that is spelled like a
//! keyword is that keyword; every other word is an identifier.

use vstd::prelude::*;
use vstd::string::*;
use crate::text::chars_of;

verus! {

/// The reserved words of the language. They are written in lower case.
#[derive(Debug, Clone, Copy, PartialEq, Eq, Structural)]
pub enum Keyword {
    Select,
    From,
    Where,
    And,
    Order,
    By,
    Limit,
    Offset,
    Asc,
    Desc,
    In,
    Like,
}

/// The kinds of token.
#[derive(Debug, Clone, Copy, PartialEq, Eq, Structural)]
pub enum TokenKind {
    Keyword(Keyword),
    Ident,
    Integer,
    Decimal,
    Text,
    Star,
    Comma,
    LParen,
    RParen,
    Equal,
    Less,
    Greater,
}

/// A token: its kind, and the characters `start..end` of the text that it
/// was cut from. The span of a `Text` token includes both quotes.
#[derive(Debug, Clone, Copy, PartialEq, Eq, Structural)]
pub struct Token {
    pub kind: TokenKind,
    pub start: usize,
    pub end: usize,
}

/// What the parser was ready to accept where it stopped.
#[derive(Debug, Clone, Copy, PartialEq, Eq, Structural)]
pub enum Expected {
    /// A character that starts a token.
    Token,
    /// The quote that closes a text.
    ClosingQuote,
    /// The given keyword.
    Keyword(Keyword),
    /// A star or an identifier.
    Selection,
    /// An identifier.
    Identifier,
    /// One of `=`, `<`, `>`, `in`, `like`.
    Operator,
    /// A literal or a name.
    Value,
    /// An integer literal.
    Integer,
    /// An opening parenthesis.
    OpenParen,
    /// A closing parenthesis.
    CloseParen,
    /// The end of the text.
    End,
}

/// What stood where the parser stopped.
#[derive(Debug, Clone, Copy, PartialEq, Eq, Structural)]
pub enum Found {
    /// The end of the text.
    End,
    /// A character that starts no token.
    Character(char),
    /// A token of the given kind.
    Token(TokenKind),
}

/// The first deviation of a text from the language. `position` counts
/// characters from the start of the text.
#[derive(Debug, Clone, Copy, PartialEq, Eq, Structural)]
pub struct SyntaxError {
    pub expected: Expected,
    pub found: Found,
    pub position: usize,
}

/// Whether `c` separates tokens.
pub open spec fn space(c: char) -> bool {
    c == ' ' || c == '\t' || c == '\n' || c == '\r'
}

/// Whether `c` is a digit.
pub open spec fn digit(c: char) -> bool {
    '0' <= c <= '9'
}

/// Whether a word may begin with `c`.
pub open spec fn word_start(c: char) -> bool {
    'a' <= c <= 'z' || 'A' <= c <= 'Z' || c == '_'
}

/// Whether a word may go on with `c`.
pub open spec fn word_char(c: char) -> bool {
    word_start(c) || digit(c)
}

/// The keyword that `word` spells, if it spells one.
pub open spec fn keyword_of(word: Seq<char>) -> Option<Keyword> {
    if word == "select"@ {
        Some(Keyword::Select)
    } else if word == "from"@ {
        Some(Keyword::From)
    } else if word == "where"@ {
        Some(Keyword::Where)
    } else if word == "and"@ {
        Some(Keyword::And)
    } else if word == "order"@ {
        Some(Keyword::Order)
    } else if word == "by"@ {
        Some(Keyword::By)
    } else if word == "limit"@ {
        Some(Keyword::Limit)
    } else if word == "offset"@ {
        Some(Keyword::Offset)
    } else if word == "asc"@ {
        Some(Keyword::Asc)
    } else if word == "desc"@ {
        Some(Keyword::Desc)
    } else if word == "in"@ {
        Some(Keyword::In)
    } else if word == "like"@ {
        Some(Keyword::Like)
    } else {
        None
    }
}

/// The kind of the symbol that `c` writes, if it writes one.
pub open spec fn symbol_of(c: char) -> Option<TokenKind> {
    if c == '*' {
        Some(TokenKind::Star)
    } else if c == ',' {
        Some(TokenKind::Comma)
    } else if c == '(' {
        Some(TokenKind::LParen)
    } else if c == ')' {
        Some(TokenKind::RParen)
    } else if c == '=' {
        Some(TokenKind::Equal)
    } else if c == '<' {
        Some(TokenKind::Less)
    } else if c == '>' {
        Some(TokenKind::Greater)
    } else {
        None
    }
}

/// Where the run of word characters that begins at `pos` ends.
pub open spec fn word_end(s: Seq<char>, pos: int) -> int
    decreases s.len() - pos,
{
    if 0 <= pos < s.len() && word_char(s[pos]) {
        word_end(s, pos + 1)
    } else {
        pos
    }
}

/// Where the run of digits that begins at `pos` ends.
pub open spec fn digits_end(s: Seq<char>, pos: int) -> int
    decreases s.len() - pos,
{
    if 0 <= pos < s.len() && digit(s[pos]) {
        digits_end(s, pos + 1)
    } else {
        pos
    }
}

/// The place of the first quote at or after `pos`, or the length of the text
/// where there is none.
pub open spec fn quote_at(s: Seq<char>, pos: int) -> int
    decreases s.len() - pos,
{
    if 0 <= pos < s.len() && s[pos] != '"' {
        quote_at(s, pos + 1)
    } else {
        pos
    }
}

/// The end of a number that begins at `pos`, and whether it has a fraction:
/// a point belongs to the number only where a digit follows it.
pub open spec fn number_end(s: Seq<char>, pos: int) -> (int, bool) {
    let whole = digits_end(s, pos);
    if whole + 1 < s.len() && s[whole] == '.' && digit(s[whole + 1]) {
        (digits_end(s, whole + 1), true)
    } else {
        (whole, false)
    }
}

/// The token that begins at `pos`, as its kind and its end, where `pos` is
/// inside the text and holds no space.
pub open spec fn token_at(s: Seq<char>, pos: int) -> Result<(TokenKind, int), SyntaxError> {
    let c = s[pos];
    if word_start(c) {
        let end = word_end(s, pos);
        match keyword_of(s.subrange(pos, end)) {
            Some(k) => Ok((TokenKind::Keyword(k), end)),
            None => Ok((TokenKind::Ident, end)),
        }
    } else if digit(c) {
        let (end, fraction) = number_end(s, pos);
        Ok((if fraction { TokenKind::Decimal } else { TokenKind::Integer }, end))
    } else if c == '"' {
        let close = quote_at(s, pos + 1);
        if close < s.len() {
            Ok((TokenKind::Text, close + 1))
        } else {
            Err(
                SyntaxError {
                    expected: Expected::ClosingQuote,
                    found: Found::End,
                    position: s.len() as usize,
                },
            )
        }
    } else {
        match symbol_of(c) {
            Some(kind) => Ok((kind, pos + 1)),
            None => Err(
                SyntaxError {
                    expected: Expected::Token,
                    found: Found::Character(c),
                    position: pos as usize,
                },
            ),
        }
    }
}

/// A run of word characters: where it ends, and that it holds nothing
/// else and cannot be longer.
pub proof fn lemma_word_end(s: Seq<char>, pos: int)
    requires
        0 <= pos <= s.len(),
    ensures
        pos <= word_end(s, pos) <= s.len(),
        pos < s.len() && word_char(s[pos]) ==> pos < word_end(s, pos),
        forall|p: int| pos <= p < word_end(s, pos) ==> word_char(#[trigger] s[p]),
        word_end(s, pos) < s.len() ==> !word_char(s[word_end(s, pos)]),
    decreases s.len() - pos,
{
    if pos < s.len() && word_char(s[pos]) {
        lemma_word_end(s, pos + 1);
    }
}

/// A run of digits: where it ends, and that it holds nothing else and
/// cannot be longer.
pub proof fn lemma_digits_end(s: Seq<char>, pos: int)
    requires
        0 <= pos <= s.len(),
    ensures
        pos <= digits_end(s, pos) <= s.len(),
        pos < s.len() && digit(s[pos]) ==> pos < digits_end(s, pos),
        forall|p: int| pos <= p < digits_end(s, pos) ==> digit(#[trigger] s[p]),
        digits_end(s, pos) < s.len() ==> !digit(s[digits_end(s, pos)]),
    decreases s.len() - pos,
{
    if pos < s.len() && digit(s[pos]) {
        lemma_digits_end(s, pos + 1);
    }
}

/// The first quote from a place on: nothing before it is a quote.
pub proof fn lemma_quote_at(s: Seq<char>, pos: int)
    requires
        0 <= pos <= s.len(),
    ensures
        pos <= quote_at(s, pos) <= s.len(),
        forall|p: int| pos <= p < quote_at(s, pos) ==> #[trigger] s[p] != '"',
        quote_at(s, pos) < s.len() ==> s[quote_at(s, pos)] == '"',
    decreases s.len() - pos,
{
    if pos < s.len() && s[pos] != '"' {
        lemma_quote_at(s, pos + 1);
    }
}

/// A token is not empty and ends inside the text; a text token holds at
/// least its two quotes.
pub proof fn lemma_token_at(s: Seq<char>, pos: int)
    requires
        0 <= pos < s.len(),
    ensures
        token_at(s, pos) matches Ok((kind, end)) ==> pos < end <= s.len() && (kind == TokenKind::Text
            ==> pos + 2 <= end),
{
    lemma_word_end(s, pos);
    lemma_digits_end(s, pos);
    let whole = digits_end(s, pos);
    if whole + 1 < s.len() {
        lemma_digits_end(s, whole + 1);
    }
    lemma_quote_at(s, pos + 1);
}

/// The tokens of the text from `pos` on, or the first lexical error. (A
/// token always ends after its start and inside the text: the test below
/// only shows that the recursion ends.)
pub open spec fn tokens_from(s: Seq<char>, pos: int) -> Result<Seq<Token>, SyntaxError>
    decreases s.len() - pos,
{
    if pos < 0 || pos >= s.len() {
        Ok(Seq::empty())
    } else if space(s[pos]) {
        tokens_from(s, pos + 1)
    } else {
        match token_at(s, pos) {
            Err(e) => Err(e),
            Ok((kind, end)) => {
                if pos < end <= s.len() {
                    match tokens_from(s, end) {
                        Err(e) => Err(e),
                        Ok(rest) => Ok(
                            seq![Token { kind, start: pos as usize, end: end as usize }] + rest,
                        ),
                    }
                } else {
                    Ok(Seq::empty())
                }
            },
        }
    }
}

/// The tokens of a text, or its first lexical error.
pub open spec fn tokens_of(s: Seq<char>) -> Result<Seq<Token>, SyntaxError> {
    tokens_from(s, 0)
}

/// Every token lies inside the text, and a text token holds its two quotes.
pub open spec fn spans_fit(s: Seq<char>, tokens: Seq<Token>) -> bool {
    forall|i: int|
        0 <= i < tokens.len() ==> {
            let t = #[trigger] tokens[i];
            t.start <= t.end <= s.len() && (t.kind == TokenKind::Text ==> t.start + 2 <= t.end)
        }
}

/// The tokens that the lexer cuts lie inside the text.
pub proof fn lemma_tokens_fit(s: Seq<char>, pos: int)
    requires
        0 <= pos,
        s.len() <= usize::MAX,
    ensures
        tokens_from(s, pos) matches Ok(tokens) ==> spans_fit(s, tokens),
    decreases s.len() - pos,
{
    if pos >= s.len() {
    } else if space(s[pos]) {
        lemma_tokens_fit(s, pos + 1);
    } else {
        lemma_token_at(s, pos);
        match token_at(s, pos) {
            Err(e) => {},
            Ok((kind, end)) => {
                lemma_tokens_fit(s, end);
            },
        }
    }
}

/// Whether `c` separates tokens.
pub fn is_space(c: char) -> (b: bool)
    ensures
        b == space(c),
{
    c == ' ' || c == '\t' || c == '\n' || c == '\r'
}

/// Whether `c` is a digit.
pub fn is_digit(c: char) -> (b: bool)
    ensures
        b == digit(c),
{
    '0' <= c && c <= '9'
}

/// Whether a word may begin with `c`.
pub fn is_word_start(c: char) -> (b: bool)
    ensures
        b == word_start(c),
{
    ('a' <= c && c <= 'z') || ('A' <= c && c <= 'Z') || c == '_'
}

/// Whether a word may go on with `c`.
pub fn is_word_char(c: char) -> (b: bool)
    ensures
        b == word_char(c),
{
    is_word_start(c) || is_digit(c)
}

/// Whether the characters `start..end` of `chars` spell `word`.
pub fn spells(chars: &Vec<char>, start: usize, end: usize, word: &str) -> (b: bool)
    requires
        start <= end <= chars.len(),
    ensures
        b == (chars@.subrange(start as int, end as int) == word@),
{
    if end - start != word.unicode_len() {
        return false;
    }
    let letters = chars_of(word);
    let n: usize = letters.len();
    let ghost piece = chars@.subrange(start as int, end as int);
    for i in 0..n
        invariant
            n == letters.len(),
            n == end - start,
            start <= end <= chars.len(),
            letters@ == word@,
            piece == chars@.subrange(start as int, end as int),
            piece.take(i as int) =~= word@.take(i as int),
    {
        if chars[start + i] != letters[i] {
            assert(piece[i as int] != word@[i as int]);
            return false;
        }
        assert(piece.take(i + 1) =~= piece.take(i as int).push(piece[i as int]));
        assert(word@.take(i + 1) =~= word@.take(i as int).push(word@[i as int]));
    }
    assert(piece.take(n as int) =~= piece);
    assert(word@.take(n as int) =~= word@);
    true
}

/// The keyword that the characters `start..end` of `chars` spell, if any.
pub fn keyword(chars: &Vec<char>, start: usize, end: usize) -> (k: Option<Keyword>)
    requires
        start <= end <= chars.len(),
    ensures
        k == keyword_of(chars@.subrange(start as int, end as int)),
{
    if spells(chars, start, end, "select") {
        Some(Keyword::Select)
    } else if spells(chars, start, end, "from") {
        Some(Keyword::From)
    } else if spells(chars, start, end, "where") {
        Some(Keyword::Where)
    } else if spells(chars, start, end, "and") {
        Some(Keyword::And)
    } else if spells(chars, start, end, "order") {
        Some(Keyword::Order)
    } else if spells(chars, start, end, "by") {
        Some(Keyword::By)
    } else if spells(chars, start, end, "limit") {
        Some(Keyword::Limit)
    } else if spells(chars, start, end, "offset") {
        Some(Keyword::Offset)
    } else if spells(chars, start, end, "asc") {
        Some(Keyword::Asc)
    } else if spells(chars, start, end, "desc") {
        Some(Keyword::Desc)
    } else if spells(chars, start, end, "in") {
        Some(Keyword::In)
    } else if spells(chars, start, end, "like") {
        Some(Keyword::Like)
    } else {
        None
    }
}

/// The kind of the symbol that `c` writes, if it writes one.
pub fn symbol(c: char) -> (kind: Option<TokenKind>)
    ensures
        kind == symbol_of(c),
{
    if c == '*' {
        Some(TokenKind::Star)
    } else if c == ',' {
        Some(TokenKind::Comma)
    } else if c == '(' {
        Some(TokenKind::LParen)
    } else if c == ')' {
        Some(TokenKind::RParen)
    } else if c == '=' {
        Some(TokenKind::Equal)
    } else if c == '<' {
        Some(TokenKind::Less)
    } else if c == '>' {
        Some(TokenKind::Greater)
    } else {
        None
    }
}

fn scan_word(chars: &Vec<char>, pos: usize) -> (end: usize)
    requires
        pos <= chars.len(),
    ensures
        end == word_end(chars@, pos as int),
        pos <= end <= chars.len(),
{
    let mut end: usize = pos;
    while end < chars.len() && is_word_char(chars[end])
        invariant
            pos <= end <= chars.len(),
            word_end(chars@, pos as int) == word_end(chars@, end as int),
        decreases chars.len() - end,
    {
        end += 1;
    }
    end
}

fn scan_digits(chars: &Vec<char>, pos: usize) -> (end: usize)
    requires
        pos <= chars.len(),
    ensures
        end == digits_end(chars@, pos as int),
        pos <= end <= chars.len(),
{
    let mut end: usize = pos;
    while end < chars.len() && is_digit(chars[end])
        invariant
            pos <= end <= chars.len(),
            digits_end(chars@, pos as int) == digits_end(chars@, end as int),
        decreases chars.len() - end,
    {
        end += 1;
    }
    end
}

fn scan_quote(chars: &Vec<char>, pos: usize) -> (end: usize)
    requires
        pos <= chars.len(),
    ensures
        end == quote_at(chars@, pos as int),
        pos <= end <= chars.len(),
{
    let mut end: usize = pos;
    while end < chars.len() && chars[end] != '"'
        invariant
            pos <= end <= chars.len(),
            quote_at(chars@, pos as int) == quote_at(chars@, end as int),
        decreases chars.len() - end,
    {
        end += 1;
    }
    end
}

/// What [`token_at`] gives, as a token that begins at `pos`.
pub open spec fn spanned(pos: int, r: Result<(TokenKind, int), SyntaxError>) -> Result<
    Token,
    SyntaxError,
> {
    match r {
        Ok((kind, end)) => Ok(Token { kind, start: pos as usize, end: end as usize }),
        Err(e) => Err(e),
    }
}

/// Cuts the token that begins at `pos`, which holds no space.
pub fn scan_token(chars: &Vec<char>, pos: usize) -> (r: Result<Token, SyntaxError>)
    requires
        pos < chars.len(),
    ensures
        r == spanned(pos as int, token_at(chars@, pos as int)),
        r matches Ok(t) ==> pos < t.end <= chars.len(),
{
    proof {
        lemma_token_at(chars@, pos as int);
    }
    let c = chars[pos];
    if is_word_start(c) {
        let end = scan_word(chars, pos);
        match keyword(chars, pos, end) {
            Some(k) => Ok(Token { kind: TokenKind::Keyword(k), start: pos, end }),
            None => Ok(Token { kind: TokenKind::Ident, start: pos, end }),
        }
    } else if is_digit(c) {
        let whole = scan_digits(chars, pos);
        if whole < chars.len() && chars[whole] == '.' && whole + 1 < chars.len() && is_digit(
            chars[whole + 1],
        ) {
            let end = scan_digits(chars, whole + 1);
            Ok(Token { kind: TokenKind::Decimal, start: pos, end })
        } else {
            Ok(Token { kind: TokenKind::Integer, start: pos, end: whole })
        }
    } else if c == '"' {
        let close = scan_quote(chars, pos + 1);
        if close < chars.len() {
            Ok(Token { kind: TokenKind::Text, start: pos, end: close + 1 })
        } else {
            Err(
                SyntaxError {
                    expected: Expected::ClosingQuote,
                    found: Found::End,
                    position: chars.len(),
                },
            )
        }
    } else {
        match symbol(c) {
            Some(kind) => Ok(Token { kind, start: pos, end: pos + 1 }),
            None => Err(
                SyntaxError { expected: Expected::Token, found: Found::Character(c), position: pos },
            ),
        }
    }
}

/// The tokens `acc`, followed by what `tail` gives.
pub open spec fn prepend(acc: Seq<Token>, tail: Result<Seq<Token>, SyntaxError>) -> Result<
    Seq<Token>,
    SyntaxError,
> {
    match tail {
        Ok(rest) => Ok(acc + rest),
        Err(e) => Err(e),
    }
}

/// The outcome of the lexer, with the tokens as a sequence.
pub open spec fn lexed(r: Result<Vec<Token>, SyntaxError>) -> Result<Seq<Token>, SyntaxError> {
    match r {
        Ok(tokens) => Ok(tokens@),
        Err(e) => Err(e),
    }
}

/// Cuts `chars` into tokens, or reports the first lexical error.
pub fn tokenize_chars(chars: &Vec<char>) -> (r: Result<Vec<Token>, SyntaxError>)
    ensures
        lexed(r) == tokens_of(chars@),
        r matches Ok(tokens) ==> spans_fit(chars@, tokens@),
{
    let mut tokens: Vec<Token> = Vec::new();
    let mut pos: usize = 0;
    let n: usize = chars.len();
    proof {
        lemma_tokens_fit(chars@, 0);
        assert(Seq::<Token>::empty() + tokens_from(chars@, 0)->Ok_0 =~= tokens_from(
            chars@,
            0,
        )->Ok_0);
    }
    while pos < n
        invariant
            n == chars.len(),
            pos <= n,
            tokens_of(chars@) == prepend(tokens@, tokens_from(chars@, pos as int)),
        decreases n - pos,
    {
        if is_space(chars[pos]) {
            pos += 1;
        } else {
            match scan_token(chars, pos) {
                Err(e) => {
                    return Err(e);
                },
                Ok(t) => {
                    proof {
                        lemma_token_at(chars@, pos as int);
                        let tail = tokens_from(chars@, t.end as int);
                        let (kind, end) = token_at(chars@, pos as int)->Ok_0;
                        assert(end == t.end);
                        assert(tokens_from(chars@, pos as int) == match tail {
                            Ok(rest) => Ok(seq![t] + rest),
                            Err(e) => Err(e),
                        });
                        match tail {
                            Ok(rest) => {
                                assert(tokens@ + (seq![t] + rest) =~= tokens@.push(t) + rest);
                            },
                            Err(e) => {},
                        }
                    }
                    tokens.push(t);
                    pos = t.end;
                },
            }
        }
    }
    assert(tokens@ + Seq::<Token>::empty() =~= tokens@);
    Ok(tokens)
}

/// Cuts `text` into tokens, or reports the first lexical error.
pub fn tokenize(text: &str) -> (r: Result<Vec<Token>, SyntaxError>)
    ensures
        lexed(r) == tokens_of(text@),
        r matches Ok(tokens) ==> spans_fit(text@, tokens@),
{
    let chars = chars_of(text);
    tokenize_chars(&chars)
}

} // verus!
