//! The grammar of the query language, over the tokens of a text:
//!
//! ```text
//! query      := "select" selection "from" ident "where" condition ("and" condition)*
//!               [order-by] [limit]
//! selection  := "*" | ident ("," ident)*
//! condition  := ident operator value-form
//! operator   := "=" | "<" ["="] | ">" ["="] | "in" | "like"
//! value-form := "(" value ("," value)* ")"     after "in"
//!             | value                          after every other operator
//! value      := integer | decimal | text | ident
//! order-by   := "order" "by" order-term ("," order-term)*
//! order-term := ident ["asc" | "desc"]
//! limit      := "limit" integer ["offset" value]
//! ```
//!
//! Parsing stops at the first token that the grammar does not allow, and
//! reports what was expected there. No field or name is looked up here.

use vstd::prelude::*;
use crate::ast::{
    limit_view, order_by_view, Condition, ConditionView, FieldSelection, FieldSelectionView,
    LimitSpec, LimitSpecView, OrderTerm, OrderTermView, ParsedQuery, ParsedQueryView, TermKind,
    ValueTerm, ValueTermView,
};
use crate::query::{Operator, Order};
use crate::text::{chars_of, text_of, texts, views};
use crate::token::{
    spans_fit, tokenize_chars, tokens_of, Expected, Found, Keyword, SyntaxError, Token, TokenKind,
};

verus! {

/// The kind of the token at `i`, if there is one.
pub open spec fn kind_at(ts: Seq<Token>, i: int) -> Option<TokenKind> {
    if 0 <= i < ts.len() {
        Some(ts[i].kind)
    } else {
        None
    }
}

/// The error of a parser that wanted `expected` at `i`: it names the token
/// there and its place, or the end of the text.
pub open spec fn unexpected(s: Seq<char>, ts: Seq<Token>, i: int, expected: Expected) -> SyntaxError {
    if 0 <= i < ts.len() {
        SyntaxError { expected, found: Found::Token(ts[i].kind), position: ts[i].start }
    } else {
        SyntaxError { expected, found: Found::End, position: s.len() as usize }
    }
}

/// The characters of a token.
pub open spec fn lexeme(s: Seq<char>, t: Token) -> Seq<char> {
    s.subrange(t.start as int, t.end as int)
}

/// The characters between the quotes of a text token.
pub open spec fn content(s: Seq<char>, t: Token) -> Seq<char> {
    s.subrange(t.start + 1, t.end - 1)
}

/// The value term at `i`.
pub open spec fn value_at(s: Seq<char>, ts: Seq<Token>, i: int) -> Result<
    (ValueTermView, int),
    SyntaxError,
> {
    match kind_at(ts, i) {
        Some(TokenKind::Integer) => Ok(
            (ValueTermView { kind: TermKind::Integer, text: lexeme(s, ts[i]) }, i + 1),
        ),
        Some(TokenKind::Decimal) => Ok(
            (ValueTermView { kind: TermKind::Decimal, text: lexeme(s, ts[i]) }, i + 1),
        ),
        Some(TokenKind::Text) => Ok(
            (ValueTermView { kind: TermKind::Text, text: content(s, ts[i]) }, i + 1),
        ),
        Some(TokenKind::Ident) => Ok(
            (ValueTermView { kind: TermKind::Name, text: lexeme(s, ts[i]) }, i + 1),
        ),
        _ => Err(unexpected(s, ts, i, Expected::Value)),
    }
}

/// The value terms from `i` on, separated by commas, after the terms `acc`.
pub open spec fn values_from(s: Seq<char>, ts: Seq<Token>, i: int, acc: Seq<ValueTermView>) -> Result<
    (Seq<ValueTermView>, int),
    SyntaxError,
>
    decreases ts.len() - i,
{
    match value_at(s, ts, i) {
        Err(e) => Err(e),
        Ok((v, j)) => {
            if kind_at(ts, j) == Some(TokenKind::Comma) {
                values_from(s, ts, j + 1, acc.push(v))
            } else {
                Ok((acc.push(v), j))
            }
        },
    }
}

/// The operator at `i`. After `<` or `>`, one token more decides whether an
/// `=` belongs to it.
pub open spec fn operator_at(s: Seq<char>, ts: Seq<Token>, i: int) -> Result<
    (Operator, int),
    SyntaxError,
> {
    match kind_at(ts, i) {
        Some(TokenKind::Equal) => Ok((Operator::Equal, i + 1)),
        Some(TokenKind::Less) => {
            if kind_at(ts, i + 1) == Some(TokenKind::Equal) {
                Ok((Operator::LessEqual, i + 2))
            } else {
                Ok((Operator::Less, i + 1))
            }
        },
        Some(TokenKind::Greater) => {
            if kind_at(ts, i + 1) == Some(TokenKind::Equal) {
                Ok((Operator::GreaterEqual, i + 2))
            } else {
                Ok((Operator::Greater, i + 1))
            }
        },
        Some(TokenKind::Keyword(Keyword::In)) => Ok((Operator::In, i + 1)),
        Some(TokenKind::Keyword(Keyword::Like)) => Ok((Operator::Like, i + 1)),
        _ => Err(unexpected(s, ts, i, Expected::Operator)),
    }
}

/// The condition at `i`.
pub open spec fn condition_at(s: Seq<char>, ts: Seq<Token>, i: int) -> Result<
    (ConditionView, int),
    SyntaxError,
> {
    if kind_at(ts, i) != Some(TokenKind::Ident) {
        Err(unexpected(s, ts, i, Expected::Identifier))
    } else {
        let field = lexeme(s, ts[i]);
        match operator_at(s, ts, i + 1) {
            Err(e) => Err(e),
            Ok((operator, j)) => {
                if operator == Operator::In {
                    if kind_at(ts, j) != Some(TokenKind::LParen) {
                        Err(unexpected(s, ts, j, Expected::OpenParen))
                    } else {
                        match values_from(s, ts, j + 1, Seq::empty()) {
                            Err(e) => Err(e),
                            Ok((values, k)) => {
                                if kind_at(ts, k) != Some(TokenKind::RParen) {
                                    Err(unexpected(s, ts, k, Expected::CloseParen))
                                } else {
                                    Ok((ConditionView { field, operator, values }, k + 1))
                                }
                            },
                        }
                    }
                } else {
                    match value_at(s, ts, j) {
                        Err(e) => Err(e),
                        Ok((v, k)) => Ok((ConditionView { field, operator, values: seq![v] }, k)),
                    }
                }
            },
        }
    }
}

/// Values are parsed forwards and end inside the tokens.
pub proof fn lemma_values_advance(s: Seq<char>, ts: Seq<Token>, i: int, acc: Seq<ValueTermView>)
    ensures
        values_from(s, ts, i, acc) matches Ok((values, j)) ==> i < j <= ts.len() && values.len()
            > acc.len(),
    decreases ts.len() - i,
{
    match value_at(s, ts, i) {
        Err(e) => {},
        Ok((v, j)) => {
            if kind_at(ts, j) == Some(TokenKind::Comma) {
                lemma_values_advance(s, ts, j + 1, acc.push(v));
            }
        },
    }
}

/// A condition is parsed forwards, ends inside the tokens, and is well
/// formed.
pub proof fn lemma_condition_advances(s: Seq<char>, ts: Seq<Token>, i: int)
    ensures
        condition_at(s, ts, i) matches Ok((c, j)) ==> i < j <= ts.len() && c.wf(),
{
    if kind_at(ts, i) == Some(TokenKind::Ident) {
        match operator_at(s, ts, i + 1) {
            Err(e) => {},
            Ok((operator, j)) => {
                if operator == Operator::In {
                    lemma_values_advance(s, ts, j + 1, Seq::empty());
                }
            },
        }
    }
}

/// The conditions from `i` on, joined by `and`, after the conditions `acc`.
pub open spec fn conditions_from(
    s: Seq<char>,
    ts: Seq<Token>,
    i: int,
    acc: Seq<ConditionView>,
) -> Result<(Seq<ConditionView>, int), SyntaxError>
    decreases ts.len() - i,
{
    match condition_at(s, ts, i) {
        Err(e) => Err(e),
        Ok((c, j)) => {
            if kind_at(ts, j) == Some(TokenKind::Keyword(Keyword::And)) {
                proof {
                    lemma_condition_advances(s, ts, i);
                }
                conditions_from(s, ts, j + 1, acc.push(c))
            } else {
                Ok((acc.push(c), j))
            }
        },
    }
}

/// The order term at `i`.
pub open spec fn order_term_at(s: Seq<char>, ts: Seq<Token>, i: int) -> Result<
    (OrderTermView, int),
    SyntaxError,
> {
    if kind_at(ts, i) != Some(TokenKind::Ident) {
        Err(unexpected(s, ts, i, Expected::Identifier))
    } else {
        let field = lexeme(s, ts[i]);
        match kind_at(ts, i + 1) {
            Some(TokenKind::Keyword(Keyword::Asc)) => Ok(
                (OrderTermView { field, direction: Some(Order::Asc) }, i + 2),
            ),
            Some(TokenKind::Keyword(Keyword::Desc)) => Ok(
                (OrderTermView { field, direction: Some(Order::Desc) }, i + 2),
            ),
            _ => Ok((OrderTermView { field, direction: None }, i + 1)),
        }
    }
}

/// The order terms from `i` on, separated by commas, after the terms `acc`.
pub open spec fn order_terms_from(
    s: Seq<char>,
    ts: Seq<Token>,
    i: int,
    acc: Seq<OrderTermView>,
) -> Result<(Seq<OrderTermView>, int), SyntaxError>
    decreases ts.len() - i,
{
    match order_term_at(s, ts, i) {
        Err(e) => Err(e),
        Ok((term, j)) => {
            if kind_at(ts, j) == Some(TokenKind::Comma) {
                order_terms_from(s, ts, j + 1, acc.push(term))
            } else {
                Ok((acc.push(term), j))
            }
        },
    }
}

/// The optional `order by` clause at `i`.
pub open spec fn order_by_at(s: Seq<char>, ts: Seq<Token>, i: int) -> Result<
    (Option<Seq<OrderTermView>>, int),
    SyntaxError,
> {
    if kind_at(ts, i) != Some(TokenKind::Keyword(Keyword::Order)) {
        Ok((None, i))
    } else if kind_at(ts, i + 1) != Some(TokenKind::Keyword(Keyword::By)) {
        Err(unexpected(s, ts, i + 1, Expected::Keyword(Keyword::By)))
    } else {
        match order_terms_from(s, ts, i + 2, Seq::empty()) {
            Err(e) => Err(e),
            Ok((terms, j)) => Ok((Some(terms), j)),
        }
    }
}

/// The optional `limit` clause at `i`.
pub open spec fn limit_at(s: Seq<char>, ts: Seq<Token>, i: int) -> Result<
    (Option<LimitSpecView>, int),
    SyntaxError,
> {
    if kind_at(ts, i) != Some(TokenKind::Keyword(Keyword::Limit)) {
        Ok((None, i))
    } else if kind_at(ts, i + 1) != Some(TokenKind::Integer) {
        Err(unexpected(s, ts, i + 1, Expected::Integer))
    } else {
        let count = lexeme(s, ts[i + 1]);
        if kind_at(ts, i + 2) == Some(TokenKind::Keyword(Keyword::Offset)) {
            match value_at(s, ts, i + 3) {
                Err(e) => Err(e),
                Ok((v, j)) => Ok((Some(LimitSpecView { count, offset: Some(v) }), j)),
            }
        } else {
            Ok((Some(LimitSpecView { count, offset: None }), i + 2))
        }
    }
}

/// The identifiers from `i` on, separated by commas, after the names `acc`.
pub open spec fn idents_from(s: Seq<char>, ts: Seq<Token>, i: int, acc: Seq<Seq<char>>) -> Result<
    (Seq<Seq<char>>, int),
    SyntaxError,
>
    decreases ts.len() - i,
{
    if kind_at(ts, i) != Some(TokenKind::Ident) {
        Err(unexpected(s, ts, i, Expected::Identifier))
    } else if kind_at(ts, i + 1) == Some(TokenKind::Comma) {
        idents_from(s, ts, i + 2, acc.push(lexeme(s, ts[i])))
    } else {
        Ok((acc.push(lexeme(s, ts[i])), i + 1))
    }
}

/// The selection at `i`: a star, or a list of identifiers.
pub open spec fn selection_at(s: Seq<char>, ts: Seq<Token>, i: int) -> Result<
    (FieldSelectionView, int),
    SyntaxError,
> {
    match kind_at(ts, i) {
        Some(TokenKind::Star) => Ok((FieldSelectionView::All, i + 1)),
        Some(TokenKind::Ident) => match idents_from(s, ts, i, Seq::empty()) {
            Err(e) => Err(e),
            Ok((names, j)) => Ok((FieldSelectionView::Specific(names), j)),
        },
        _ => Err(unexpected(s, ts, i, Expected::Selection)),
    }
}

/// The part of a query that follows the selection, which ended at `a`.
pub open spec fn query_after(
    s: Seq<char>,
    ts: Seq<Token>,
    fields: FieldSelectionView,
    a: int,
) -> Result<ParsedQueryView, SyntaxError> {
    if kind_at(ts, a) != Some(TokenKind::Keyword(Keyword::From)) {
        Err(unexpected(s, ts, a, Expected::Keyword(Keyword::From)))
    } else if kind_at(ts, a + 1) != Some(TokenKind::Ident) {
        Err(unexpected(s, ts, a + 1, Expected::Identifier))
    } else if kind_at(ts, a + 2) != Some(TokenKind::Keyword(Keyword::Where)) {
        Err(unexpected(s, ts, a + 2, Expected::Keyword(Keyword::Where)))
    } else {
        let target = lexeme(s, ts[a + 1]);
        match conditions_from(s, ts, a + 3, Seq::empty()) {
            Err(e) => Err(e),
            Ok((conditions, b)) => match order_by_at(s, ts, b) {
                Err(e) => Err(e),
                Ok((order_by, c)) => match limit_at(s, ts, c) {
                    Err(e) => Err(e),
                    Ok((limit, d)) => {
                        if 0 <= d < ts.len() {
                            Err(unexpected(s, ts, d, Expected::End))
                        } else {
                            Ok(ParsedQueryView { fields, target, conditions, order_by, limit })
                        }
                    },
                },
            },
        }
    }
}

/// The query that the tokens `ts` of the text `s` spell, or the first
/// deviation from the grammar.
pub open spec fn query_of(s: Seq<char>, ts: Seq<Token>) -> Result<ParsedQueryView, SyntaxError> {
    if kind_at(ts, 0) != Some(TokenKind::Keyword(Keyword::Select)) {
        Err(unexpected(s, ts, 0, Expected::Keyword(Keyword::Select)))
    } else {
        match selection_at(s, ts, 1) {
            Err(e) => Err(e),
            Ok((fields, a)) => query_after(s, ts, fields, a),
        }
    }
}

/// The query that a text spells, or its first lexical or syntactic error.
pub open spec fn parsed(s: Seq<char>) -> Result<ParsedQueryView, SyntaxError> {
    match tokens_of(s) {
        Err(e) => Err(e),
        Ok(ts) => query_of(s, ts),
    }
}

/// A list of conditions is parsed forwards, grows by at least one
/// condition, and holds well-formed conditions only.
pub proof fn lemma_conditions_wf(s: Seq<char>, ts: Seq<Token>, i: int, acc: Seq<ConditionView>)
    requires
        forall|k: int| 0 <= k < acc.len() ==> (#[trigger] acc[k]).wf(),
    ensures
        conditions_from(s, ts, i, acc) matches Ok((conditions, j)) ==> {
            &&& i < j <= ts.len()
            &&& conditions.len() > acc.len()
            &&& forall|k: int| 0 <= k < conditions.len() ==> (#[trigger] conditions[k]).wf()
        },
    decreases ts.len() - i,
{
    lemma_condition_advances(s, ts, i);
    match condition_at(s, ts, i) {
        Err(e) => {},
        Ok((c, j)) => {
            if kind_at(ts, j) == Some(TokenKind::Keyword(Keyword::And)) {
                lemma_conditions_wf(s, ts, j + 1, acc.push(c));
            }
        },
    }
}

/// A list of identifiers grows by at least one name.
pub proof fn lemma_idents_grow(s: Seq<char>, ts: Seq<Token>, i: int, acc: Seq<Seq<char>>)
    ensures
        idents_from(s, ts, i, acc) matches Ok((names, j)) ==> names.len() > acc.len(),
    decreases ts.len() - i,
{
    if kind_at(ts, i) == Some(TokenKind::Ident) && kind_at(ts, i + 1) == Some(TokenKind::Comma) {
        lemma_idents_grow(s, ts, i + 2, acc.push(lexeme(s, ts[i])));
    }
}

/// A list of order terms grows by at least one term.
pub proof fn lemma_order_terms_grow(s: Seq<char>, ts: Seq<Token>, i: int, acc: Seq<OrderTermView>)
    ensures
        order_terms_from(s, ts, i, acc) matches Ok((terms, j)) ==> terms.len() > acc.len(),
    decreases ts.len() - i,
{
    match order_term_at(s, ts, i) {
        Err(e) => {},
        Ok((term, j)) => {
            if kind_at(ts, j) == Some(TokenKind::Comma) {
                lemma_order_terms_grow(s, ts, j + 1, acc.push(term));
            }
        },
    }
}

/// Every tree that the grammar gives is well formed. In particular it has
/// at least one condition: a query without one is a syntax error.
pub proof fn lemma_query_wf(s: Seq<char>, ts: Seq<Token>)
    ensures
        query_of(s, ts) matches Ok(q) ==> q.wf(),
{
    if kind_at(ts, 0) == Some(TokenKind::Keyword(Keyword::Select)) {
        lemma_idents_grow(s, ts, 1, Seq::empty());
        match selection_at(s, ts, 1) {
            Err(e) => {},
            Ok((fields, a)) => {
                lemma_conditions_wf(s, ts, a + 3, Seq::empty());
                match conditions_from(s, ts, a + 3, Seq::empty()) {
                    Err(e) => {},
                    Ok((conditions, b)) => {
                        lemma_order_terms_grow(s, ts, b + 2, Seq::empty());
                    },
                }
            },
        }
    }
}

/// Every tree that a text parses to is well formed.
pub proof fn lemma_parsed_wf(s: Seq<char>)
    ensures
        parsed(s) matches Ok(q) ==> q.wf(),
{
    match tokens_of(s) {
        Err(e) => {},
        Ok(ts) => {
            lemma_query_wf(s, ts);
        },
    }
}

/// Whether a parser's outcome is what the grammar gives.
pub open spec fn agrees<T: View>(
    r: Result<(T, usize), SyntaxError>,
    m: Result<(T::V, int), SyntaxError>,
) -> bool {
    match r {
        Ok((x, j)) => m == Ok::<(T::V, int), SyntaxError>((x@, j as int)),
        Err(e) => m == Err::<(T::V, int), SyntaxError>(e),
    }
}

/// Whether a list parser's outcome is what the grammar gives.
pub open spec fn agrees_list<T: View>(
    r: Result<(Vec<T>, usize), SyntaxError>,
    m: Result<(Seq<T::V>, int), SyntaxError>,
) -> bool {
    match r {
        Ok((x, j)) => m == Ok::<(Seq<T::V>, int), SyntaxError>((views(x@), j as int)),
        Err(e) => m == Err::<(Seq<T::V>, int), SyntaxError>(e),
    }
}

/// Whether a parser stopped inside the tokens.
pub open spec fn ends_within<T>(r: Result<(T, usize), SyntaxError>, ts: Seq<Token>) -> bool {
    r matches Ok((_, j)) ==> j <= ts.len()
}

fn is_kind(tokens: &Vec<Token>, i: usize, kind: TokenKind) -> (b: bool)
    ensures
        b == (kind_at(tokens@, i as int) == Some(kind)),
        b ==> i < tokens.len(),
{
    i < tokens.len() && tokens[i].kind == kind
}

fn fail(chars: &Vec<char>, tokens: &Vec<Token>, i: usize, expected: Expected) -> (e: SyntaxError)
    ensures
        e == unexpected(chars@, tokens@, i as int, expected),
{
    if i < tokens.len() {
        SyntaxError { expected, found: Found::Token(tokens[i].kind), position: tokens[i].start }
    } else {
        SyntaxError { expected, found: Found::End, position: chars.len() }
    }
}

fn word(chars: &Vec<char>, tokens: &Vec<Token>, i: usize) -> (out: String)
    requires
        spans_fit(chars@, tokens@),
        i < tokens.len(),
    ensures
        out@ == lexeme(chars@, tokens@[i as int]),
{
    text_of(chars, tokens[i].start, tokens[i].end)
}

/// Parses the value term at `i`.
pub fn parse_value(chars: &Vec<char>, tokens: &Vec<Token>, i: usize) -> (r: Result<
    (ValueTerm, usize),
    SyntaxError,
>)
    requires
        spans_fit(chars@, tokens@),
    ensures
        agrees(r, value_at(chars@, tokens@, i as int)),
        ends_within(r, tokens@),
{
    if i >= tokens.len() {
        return Err(fail(chars, tokens, i, Expected::Value));
    }
    match tokens[i].kind {
        TokenKind::Integer => Ok(
            (ValueTerm { kind: TermKind::Integer, text: word(chars, tokens, i) }, i + 1),
        ),
        TokenKind::Decimal => Ok(
            (ValueTerm { kind: TermKind::Decimal, text: word(chars, tokens, i) }, i + 1),
        ),
        TokenKind::Text => Ok(
            (
                ValueTerm {
                    kind: TermKind::Text,
                    text: text_of(chars, tokens[i].start + 1, tokens[i].end - 1),
                },
                i + 1,
            ),
        ),
        TokenKind::Ident => Ok(
            (ValueTerm { kind: TermKind::Name, text: word(chars, tokens, i) }, i + 1),
        ),
        _ => Err(fail(chars, tokens, i, Expected::Value)),
    }
}

/// Parses the value terms from `i` on, separated by commas.
pub fn parse_values(chars: &Vec<char>, tokens: &Vec<Token>, i: usize) -> (r: Result<
    (Vec<ValueTerm>, usize),
    SyntaxError,
>)
    requires
        spans_fit(chars@, tokens@),
    ensures
        agrees_list(r, values_from(chars@, tokens@, i as int, Seq::empty())),
        ends_within(r, tokens@),
{
    let mut values: Vec<ValueTerm> = Vec::new();
    let mut at: usize = i;
    assert(views(values@) =~= Seq::empty());
    loop
        invariant
            spans_fit(chars@, tokens@),
            values_from(chars@, tokens@, i as int, Seq::empty()) == values_from(
                chars@,
                tokens@,
                at as int,
                views(values@),
            ),
        decreases tokens.len() - at,
    {
        match parse_value(chars, tokens, at) {
            Err(e) => {
                return Err(e);
            },
            Ok((v, j)) => {
                let ghost before = values@;
                values.push(v);
                assert(views(values@) =~= views(before).push(v@));
                if is_kind(tokens, j, TokenKind::Comma) {
                    at = j + 1;
                } else {
                    return Ok((values, j));
                }
            },
        }
    }
}

/// Parses the operator at `i`.
pub fn parse_operator(chars: &Vec<char>, tokens: &Vec<Token>, i: usize) -> (r: Result<
    (Operator, usize),
    SyntaxError,
>)
    ensures
        match r {
            Ok((op, j)) => operator_at(chars@, tokens@, i as int) == Ok::<
                (Operator, int),
                SyntaxError,
            >((op, j as int)),
            Err(e) => operator_at(chars@, tokens@, i as int) == Err::<(Operator, int), SyntaxError>(
                e,
            ),
        },
        ends_within(r, tokens@),
{
    if i >= tokens.len() {
        return Err(fail(chars, tokens, i, Expected::Operator));
    }
    match tokens[i].kind {
        TokenKind::Equal => Ok((Operator::Equal, i + 1)),
        TokenKind::Less => {
            if is_kind(tokens, i + 1, TokenKind::Equal) {
                Ok((Operator::LessEqual, i + 2))
            } else {
                Ok((Operator::Less, i + 1))
            }
        },
        TokenKind::Greater => {
            if is_kind(tokens, i + 1, TokenKind::Equal) {
                Ok((Operator::GreaterEqual, i + 2))
            } else {
                Ok((Operator::Greater, i + 1))
            }
        },
        TokenKind::Keyword(Keyword::In) => Ok((Operator::In, i + 1)),
        TokenKind::Keyword(Keyword::Like) => Ok((Operator::Like, i + 1)),
        _ => Err(fail(chars, tokens, i, Expected::Operator)),
    }
}

/// Parses the condition at `i`.
pub fn parse_condition(chars: &Vec<char>, tokens: &Vec<Token>, i: usize) -> (r: Result<
    (Condition, usize),
    SyntaxError,
>)
    requires
        spans_fit(chars@, tokens@),
    ensures
        agrees(r, condition_at(chars@, tokens@, i as int)),
        ends_within(r, tokens@),
{
    if !is_kind(tokens, i, TokenKind::Ident) {
        return Err(fail(chars, tokens, i, Expected::Identifier));
    }
    let field = word(chars, tokens, i);
    let (operator, j) = match parse_operator(chars, tokens, i + 1) {
        Err(e) => {
            return Err(e);
        },
        Ok(found) => found,
    };
    match operator {
        Operator::In => {
            if !is_kind(tokens, j, TokenKind::LParen) {
                return Err(fail(chars, tokens, j, Expected::OpenParen));
            }
            let (values, k) = match parse_values(chars, tokens, j + 1) {
                Err(e) => {
                    return Err(e);
                },
                Ok(found) => found,
            };
            if !is_kind(tokens, k, TokenKind::RParen) {
                return Err(fail(chars, tokens, k, Expected::CloseParen));
            }
            Ok((Condition { field, operator, values }, k + 1))
        },
        _ => {
            let (v, k) = match parse_value(chars, tokens, j) {
                Err(e) => {
                    return Err(e);
                },
                Ok(found) => found,
            };
            let mut values: Vec<ValueTerm> = Vec::new();
            values.push(v);
            assert(views(values@) =~= seq![v@]);
            Ok((Condition { field, operator, values }, k))
        },
    }
}

/// Parses the conditions from `i` on, joined by `and`.
pub fn parse_conditions(chars: &Vec<char>, tokens: &Vec<Token>, i: usize) -> (r: Result<
    (Vec<Condition>, usize),
    SyntaxError,
>)
    requires
        spans_fit(chars@, tokens@),
    ensures
        agrees_list(r, conditions_from(chars@, tokens@, i as int, Seq::empty())),
        ends_within(r, tokens@),
{
    let mut conditions: Vec<Condition> = Vec::new();
    let mut at: usize = i;
    assert(views(conditions@) =~= Seq::empty());
    loop
        invariant
            spans_fit(chars@, tokens@),
            conditions_from(chars@, tokens@, i as int, Seq::empty()) == conditions_from(
                chars@,
                tokens@,
                at as int,
                views(conditions@),
            ),
        decreases tokens.len() - at,
    {
        proof {
            lemma_condition_advances(chars@, tokens@, at as int);
        }
        match parse_condition(chars, tokens, at) {
            Err(e) => {
                return Err(e);
            },
            Ok((c, j)) => {
                let ghost before = conditions@;
                conditions.push(c);
                assert(views(conditions@) =~= views(before).push(c@));
                if is_kind(tokens, j, TokenKind::Keyword(Keyword::And)) {
                    at = j + 1;
                } else {
                    return Ok((conditions, j));
                }
            },
        }
    }
}

/// Parses the order term at `i`.
pub fn parse_order_term(chars: &Vec<char>, tokens: &Vec<Token>, i: usize) -> (r: Result<
    (OrderTerm, usize),
    SyntaxError,
>)
    requires
        spans_fit(chars@, tokens@),
    ensures
        agrees(r, order_term_at(chars@, tokens@, i as int)),
        ends_within(r, tokens@),
{
    if !is_kind(tokens, i, TokenKind::Ident) {
        return Err(fail(chars, tokens, i, Expected::Identifier));
    }
    let field = word(chars, tokens, i);
    if is_kind(tokens, i + 1, TokenKind::Keyword(Keyword::Asc)) {
        Ok((OrderTerm { field, direction: Some(Order::Asc) }, i + 2))
    } else if is_kind(tokens, i + 1, TokenKind::Keyword(Keyword::Desc)) {
        Ok((OrderTerm { field, direction: Some(Order::Desc) }, i + 2))
    } else {
        Ok((OrderTerm { field, direction: None }, i + 1))
    }
}

/// Parses the order terms from `i` on, separated by commas.
pub fn parse_order_terms(chars: &Vec<char>, tokens: &Vec<Token>, i: usize) -> (r: Result<
    (Vec<OrderTerm>, usize),
    SyntaxError,
>)
    requires
        spans_fit(chars@, tokens@),
    ensures
        agrees_list(r, order_terms_from(chars@, tokens@, i as int, Seq::empty())),
        ends_within(r, tokens@),
{
    let mut terms: Vec<OrderTerm> = Vec::new();
    let mut at: usize = i;
    assert(views(terms@) =~= Seq::empty());
    loop
        invariant
            spans_fit(chars@, tokens@),
            order_terms_from(chars@, tokens@, i as int, Seq::empty()) == order_terms_from(
                chars@,
                tokens@,
                at as int,
                views(terms@),
            ),
        decreases tokens.len() - at,
    {
        match parse_order_term(chars, tokens, at) {
            Err(e) => {
                return Err(e);
            },
            Ok((term, j)) => {
                let ghost before = terms@;
                terms.push(term);
                assert(views(terms@) =~= views(before).push(term@));
                if is_kind(tokens, j, TokenKind::Comma) {
                    at = j + 1;
                } else {
                    return Ok((terms, j));
                }
            },
        }
    }
}

/// Parses the `order by` clause at `i`, if one begins there.
pub fn parse_order_by(chars: &Vec<char>, tokens: &Vec<Token>, i: usize) -> (r: Result<
    (Option<Vec<OrderTerm>>, usize),
    SyntaxError,
>)
    requires
        spans_fit(chars@, tokens@),
        i <= tokens.len(),
    ensures
        match r {
            Ok((order_by, j)) => order_by_at(chars@, tokens@, i as int) == Ok::<
                (Option<Seq<OrderTermView>>, int),
                SyntaxError,
            >((order_by_view(order_by), j as int)),
            Err(e) => order_by_at(chars@, tokens@, i as int) == Err::<
                (Option<Seq<OrderTermView>>, int),
                SyntaxError,
            >(e),
        },
        ends_within(r, tokens@),
{
    if !is_kind(tokens, i, TokenKind::Keyword(Keyword::Order)) {
        return Ok((None, i));
    }
    if !is_kind(tokens, i + 1, TokenKind::Keyword(Keyword::By)) {
        return Err(fail(chars, tokens, i + 1, Expected::Keyword(Keyword::By)));
    }
    match parse_order_terms(chars, tokens, i + 2) {
        Err(e) => Err(e),
        Ok((terms, j)) => Ok((Some(terms), j)),
    }
}

/// Parses the `limit` clause at `i`, if one begins there.
pub fn parse_limit(chars: &Vec<char>, tokens: &Vec<Token>, i: usize) -> (r: Result<
    (Option<LimitSpec>, usize),
    SyntaxError,
>)
    requires
        spans_fit(chars@, tokens@),
        i <= tokens.len(),
    ensures
        match r {
            Ok((limit, j)) => limit_at(chars@, tokens@, i as int) == Ok::<
                (Option<LimitSpecView>, int),
                SyntaxError,
            >((limit_view(limit), j as int)),
            Err(e) => limit_at(chars@, tokens@, i as int) == Err::<
                (Option<LimitSpecView>, int),
                SyntaxError,
            >(e),
        },
        ends_within(r, tokens@),
{
    if !is_kind(tokens, i, TokenKind::Keyword(Keyword::Limit)) {
        return Ok((None, i));
    }
    if !is_kind(tokens, i + 1, TokenKind::Integer) {
        return Err(fail(chars, tokens, i + 1, Expected::Integer));
    }
    let count = word(chars, tokens, i + 1);
    if is_kind(tokens, i + 2, TokenKind::Keyword(Keyword::Offset)) {
        match parse_value(chars, tokens, i + 3) {
            Err(e) => Err(e),
            Ok((v, j)) => Ok((Some(LimitSpec { count, offset: Some(v) }), j)),
        }
    } else {
        Ok((Some(LimitSpec { count, offset: None }), i + 2))
    }
}

/// Parses the identifiers from `i` on, separated by commas.
pub fn parse_idents(chars: &Vec<char>, tokens: &Vec<Token>, i: usize) -> (r: Result<
    (Vec<String>, usize),
    SyntaxError,
>)
    requires
        spans_fit(chars@, tokens@),
    ensures
        match r {
            Ok((names, j)) => idents_from(chars@, tokens@, i as int, Seq::empty()) == Ok::<
                (Seq<Seq<char>>, int),
                SyntaxError,
            >((texts(names@), j as int)),
            Err(e) => idents_from(chars@, tokens@, i as int, Seq::empty()) == Err::<
                (Seq<Seq<char>>, int),
                SyntaxError,
            >(e),
        },
        ends_within(r, tokens@),
{
    let mut names: Vec<String> = Vec::new();
    let mut at: usize = i;
    assert(texts(names@) =~= Seq::empty());
    loop
        invariant
            spans_fit(chars@, tokens@),
            idents_from(chars@, tokens@, i as int, Seq::empty()) == idents_from(
                chars@,
                tokens@,
                at as int,
                texts(names@),
            ),
        decreases tokens.len() - at,
    {
        if !is_kind(tokens, at, TokenKind::Ident) {
            return Err(fail(chars, tokens, at, Expected::Identifier));
        }
        let name = word(chars, tokens, at);
        let ghost before = names@;
        names.push(name);
        assert(texts(names@) =~= texts(before).push(name@));
        if is_kind(tokens, at + 1, TokenKind::Comma) {
            at = at + 2;
        } else {
            return Ok((names, at + 1));
        }
    }
}

/// Parses the selection at `i`.
pub fn parse_selection(chars: &Vec<char>, tokens: &Vec<Token>, i: usize) -> (r: Result<
    (FieldSelection, usize),
    SyntaxError,
>)
    requires
        spans_fit(chars@, tokens@),
    ensures
        agrees(r, selection_at(chars@, tokens@, i as int)),
        ends_within(r, tokens@),
{
    if is_kind(tokens, i, TokenKind::Star) {
        Ok((FieldSelection::All, i + 1))
    } else if is_kind(tokens, i, TokenKind::Ident) {
        match parse_idents(chars, tokens, i) {
            Err(e) => Err(e),
            Ok((names, j)) => Ok((FieldSelection::Specific(names), j)),
        }
    } else {
        Err(fail(chars, tokens, i, Expected::Selection))
    }
}

/// The outcome of the parser, with the tree as its view.
pub open spec fn parsed_view(r: Result<ParsedQuery, SyntaxError>) -> Result<
    ParsedQueryView,
    SyntaxError,
> {
    match r {
        Ok(q) => Ok(q@),
        Err(e) => Err(e),
    }
}

/// Parses the tokens of a text as a query.
pub fn parse_query(chars: &Vec<char>, tokens: &Vec<Token>) -> (r: Result<ParsedQuery, SyntaxError>)
    requires
        spans_fit(chars@, tokens@),
    ensures
        parsed_view(r) == query_of(chars@, tokens@),
        r matches Ok(q) ==> q@.wf(),
{
    proof {
        lemma_query_wf(chars@, tokens@);
    }
    if !is_kind(tokens, 0, TokenKind::Keyword(Keyword::Select)) {
        return Err(fail(chars, tokens, 0, Expected::Keyword(Keyword::Select)));
    }
    let (fields, a) = match parse_selection(chars, tokens, 1) {
        Err(e) => {
            return Err(e);
        },
        Ok(found) => found,
    };
    if !is_kind(tokens, a, TokenKind::Keyword(Keyword::From)) {
        return Err(fail(chars, tokens, a, Expected::Keyword(Keyword::From)));
    }
    if !is_kind(tokens, a + 1, TokenKind::Ident) {
        return Err(fail(chars, tokens, a + 1, Expected::Identifier));
    }
    if !is_kind(tokens, a + 2, TokenKind::Keyword(Keyword::Where)) {
        return Err(fail(chars, tokens, a + 2, Expected::Keyword(Keyword::Where)));
    }
    let target = word(chars, tokens, a + 1);
    let (conditions, b) = match parse_conditions(chars, tokens, a + 3) {
        Err(e) => {
            return Err(e);
        },
        Ok(found) => found,
    };
    let (order_by, c) = match parse_order_by(chars, tokens, b) {
        Err(e) => {
            return Err(e);
        },
        Ok(found) => found,
    };
    let (limit, d) = match parse_limit(chars, tokens, c) {
        Err(e) => {
            return Err(e);
        },
        Ok(found) => found,
    };
    if d < tokens.len() {
        return Err(fail(chars, tokens, d, Expected::End));
    }
    Ok(ParsedQuery { fields, target, conditions, order_by, limit })
}

/// Parses `text` as a query: the tree of the text, or its first lexical or
/// syntactic error. No tree is returned for a text with an error.
pub fn parse(text: &str) -> (r: Result<ParsedQuery, SyntaxError>)
    ensures
        parsed_view(r) == parsed(text@),
        r matches Ok(q) ==> q@.wf(),
{
    let chars = chars_of(text);
    match tokenize_chars(&chars) {
        Err(e) => Err(e),
        Ok(tokens) => parse_query(&chars, &tokens),
    }
}

} // verus!
