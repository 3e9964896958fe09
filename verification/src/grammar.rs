//! The grammar, read from the tree to the text: how a tree is spelled as a
//! sequence of words, and the proof that the parser accepts a sequence of
//! tokens only as the spelling of the tree that it returns.

use vstd::prelude::*;
use crate::ast::{
    ConditionView, FieldSelectionView, LimitSpecView, OrderTermView, ParsedQueryView, TermKind,
    ValueTermView,
};
use crate::parser::{
    condition_at, conditions_from, content, idents_from, kind_at, lexeme, limit_at, operator_at,
    order_by_at, order_term_at, order_terms_from, parsed, query_after, query_of, selection_at,
    value_at, values_from,
};
use crate::query::{Operator, Order};
use crate::text::{joined, lemma_joined_front};
use crate::token::{tokens_of, Keyword, Token, TokenKind};

verus! {

/// A word of a text: the kind of a token, and the text that it carries. An
/// identifier and a number carry their characters, a text literal carries
/// what stands between its quotes, and every other token carries nothing.
pub struct Word {
    pub kind: TokenKind,
    pub text: Seq<char>,
}

/// The text that a token carries.
pub open spec fn token_text(s: Seq<char>, t: Token) -> Seq<char> {
    match t.kind {
        TokenKind::Ident => lexeme(s, t),
        TokenKind::Integer => lexeme(s, t),
        TokenKind::Decimal => lexeme(s, t),
        TokenKind::Text => content(s, t),
        _ => Seq::empty(),
    }
}

/// The word of a token.
pub open spec fn word_of(s: Seq<char>, t: Token) -> Word {
    Word { kind: t.kind, text: token_text(s, t) }
}

/// The words of the tokens of a text.
pub open spec fn words(s: Seq<char>, ts: Seq<Token>) -> Seq<Word> {
    ts.map_values(|t: Token| word_of(s, t))
}

/// The word of a token that carries no text.
pub open spec fn mark(kind: TokenKind) -> Word {
    Word { kind, text: Seq::empty() }
}

/// The word of a keyword.
pub open spec fn keyword(k: Keyword) -> Word {
    mark(TokenKind::Keyword(k))
}

/// The word of an identifier.
pub open spec fn ident(text: Seq<char>) -> Word {
    Word { kind: TokenKind::Ident, text }
}

/// `value := integer | decimal | text | ident`
pub open spec fn spell_value(v: ValueTermView) -> Seq<Word> {
    seq![
        Word {
            kind: match v.kind {
                TermKind::Integer => TokenKind::Integer,
                TermKind::Decimal => TokenKind::Decimal,
                TermKind::Text => TokenKind::Text,
                TermKind::Name => TokenKind::Ident,
            },
            text: v.text,
        },
    ]
}

/// The spelling of each value.
pub open spec fn spell_each_value(values: Seq<ValueTermView>) -> Seq<Seq<Word>> {
    values.map_values(|v: ValueTermView| spell_value(v))
}

/// `value ("," value)*`
pub open spec fn spell_values(values: Seq<ValueTermView>) -> Seq<Word> {
    joined(spell_each_value(values), seq![mark(TokenKind::Comma)])
}

/// `operator := "=" | "<" ["="] | ">" ["="] | "in" | "like"`
pub open spec fn spell_operator(op: Operator) -> Seq<Word> {
    match op {
        Operator::Equal => seq![mark(TokenKind::Equal)],
        Operator::Less => seq![mark(TokenKind::Less)],
        Operator::Greater => seq![mark(TokenKind::Greater)],
        Operator::LessEqual => seq![mark(TokenKind::Less), mark(TokenKind::Equal)],
        Operator::GreaterEqual => seq![mark(TokenKind::Greater), mark(TokenKind::Equal)],
        Operator::In => seq![keyword(Keyword::In)],
        Operator::Like => seq![keyword(Keyword::Like)],
    }
}

/// `condition := ident operator value-form`, where the value form is a
/// parenthesized list after `in` and a single value after every other
/// operator.
pub open spec fn spell_condition(c: ConditionView) -> Seq<Word> {
    seq![ident(c.field)] + spell_operator(c.operator) + if c.operator == Operator::In {
        seq![mark(TokenKind::LParen)] + spell_values(c.values) + seq![mark(TokenKind::RParen)]
    } else {
        spell_value(c.values[0])
    }
}

/// The spelling of each condition.
pub open spec fn spell_each_condition(conditions: Seq<ConditionView>) -> Seq<Seq<Word>> {
    conditions.map_values(|c: ConditionView| spell_condition(c))
}

/// `condition ("and" condition)*`
pub open spec fn spell_conditions(conditions: Seq<ConditionView>) -> Seq<Word> {
    joined(spell_each_condition(conditions), seq![keyword(Keyword::And)])
}

/// `order-term := ident ["asc" | "desc"]`
pub open spec fn spell_order_term(t: OrderTermView) -> Seq<Word> {
    seq![ident(t.field)] + match t.direction {
        Some(Order::Asc) => seq![keyword(Keyword::Asc)],
        Some(Order::Desc) => seq![keyword(Keyword::Desc)],
        None => Seq::empty(),
    }
}

/// The spelling of each order term.
pub open spec fn spell_each_order_term(terms: Seq<OrderTermView>) -> Seq<Seq<Word>> {
    terms.map_values(|t: OrderTermView| spell_order_term(t))
}

/// `[ "order" "by" order-term ("," order-term)* ]`
pub open spec fn spell_order_by(order_by: Option<Seq<OrderTermView>>) -> Seq<Word> {
    match order_by {
        None => Seq::empty(),
        Some(terms) => seq![keyword(Keyword::Order), keyword(Keyword::By)] + joined(
            spell_each_order_term(terms),
            seq![mark(TokenKind::Comma)],
        ),
    }
}

/// `[ "limit" integer ["offset" value] ]`
pub open spec fn spell_limit(limit: Option<LimitSpecView>) -> Seq<Word> {
    match limit {
        None => Seq::empty(),
        Some(l) => seq![keyword(Keyword::Limit), Word { kind: TokenKind::Integer, text: l.count }]
            + match l.offset {
            None => Seq::empty(),
            Some(v) => seq![keyword(Keyword::Offset)] + spell_value(v),
        },
    }
}

/// The spelling of each identifier.
pub open spec fn spell_each_ident(names: Seq<Seq<char>>) -> Seq<Seq<Word>> {
    names.map_values(|n: Seq<char>| seq![ident(n)])
}

/// `selection := "*" | ident ("," ident)*`
pub open spec fn spell_selection(fields: FieldSelectionView) -> Seq<Word> {
    match fields {
        FieldSelectionView::All => seq![mark(TokenKind::Star)],
        FieldSelectionView::Specific(names) => joined(
            spell_each_ident(names),
            seq![mark(TokenKind::Comma)],
        ),
    }
}

/// `"from" ident "where" condition ("and" condition)* [order-by] [limit]`
pub open spec fn spell_tail(q: ParsedQueryView) -> Seq<Word> {
    seq![keyword(Keyword::From), ident(q.target), keyword(Keyword::Where)] + spell_conditions(
        q.conditions,
    ) + spell_order_by(q.order_by) + spell_limit(q.limit)
}

/// `query := "select" selection "from" ident "where" condition ("and"
/// condition)* [order-by] [limit]`
pub open spec fn spelling(q: ParsedQueryView) -> Seq<Word> {
    seq![keyword(Keyword::Select)] + spell_selection(q.fields) + spell_tail(q)
}

/// The words from `i` up to `j`.
pub open spec fn piece(s: Seq<char>, ts: Seq<Token>, i: int, j: int) -> Seq<Word> {
    words(s, ts).subrange(i, j)
}

proof fn lemma_piece_one(s: Seq<char>, ts: Seq<Token>, i: int)
    requires
        0 <= i < ts.len(),
    ensures
        piece(s, ts, i, i + 1) == seq![word_of(s, ts[i])],
{
    assert(piece(s, ts, i, i + 1) =~= seq![word_of(s, ts[i])]);
}

proof fn lemma_piece_split(s: Seq<char>, ts: Seq<Token>, i: int, k: int, j: int)
    requires
        0 <= i <= k <= j <= ts.len(),
    ensures
        piece(s, ts, i, j) == piece(s, ts, i, k) + piece(s, ts, k, j),
{
    assert(piece(s, ts, i, j) =~= piece(s, ts, i, k) + piece(s, ts, k, j));
}

/// A value is parsed from the one word that spells it.
pub proof fn lemma_value_spelled(s: Seq<char>, ts: Seq<Token>, i: int)
    ensures
        value_at(s, ts, i) matches Ok((v, j)) ==> 0 <= i && j == i + 1 && j <= ts.len() && piece(
            s,
            ts,
            i,
            j,
        ) == spell_value(v),
{
    if value_at(s, ts, i) is Ok {
        lemma_piece_one(s, ts, i);
    }
}

/// A list of values is parsed from the words that spell the new values.
pub proof fn lemma_values_spelled(s: Seq<char>, ts: Seq<Token>, i: int, acc: Seq<ValueTermView>)
    ensures
        values_from(s, ts, i, acc) matches Ok((values, j)) ==> {
            &&& 0 <= i < j <= ts.len()
            &&& acc.len() < values.len()
            &&& values.take(acc.len() as int) == acc
            &&& piece(s, ts, i, j) == spell_values(values.skip(acc.len() as int))
        },
    decreases ts.len() - i,
{
    lemma_value_spelled(s, ts, i);
    match value_at(s, ts, i) {
        Err(e) => {},
        Ok((v, k)) => {
            if kind_at(ts, k) == Some(TokenKind::Comma) {
                lemma_values_spelled(s, ts, k + 1, acc.push(v));
                match values_from(s, ts, k + 1, acc.push(v)) {
                    Err(e) => {},
                    Ok((values, j)) => {
                        let n = acc.len() as int;
                        let fresh = values.skip(n);
                        assert(values.take(n + 1)[n] == v);
                        assert(values.take(n) =~= values.take(n + 1).take(n));
                        assert(values.take(n) =~= acc);
                        assert(fresh.drop_first() =~= values.skip(n + 1));
                        assert(spell_each_value(fresh).drop_first() =~= spell_each_value(
                            fresh.drop_first(),
                        ));
                        lemma_joined_front(spell_each_value(fresh), seq![mark(TokenKind::Comma)]);
                        lemma_piece_one(s, ts, k);
                        lemma_piece_split(s, ts, i, k, j);
                        lemma_piece_split(s, ts, k, k + 1, j);
                    },
                }
            } else {
                let values = acc.push(v);
                assert(values.take(acc.len() as int) =~= acc);
                assert(values.skip(acc.len() as int) =~= seq![v]);
                assert(spell_each_value(seq![v]) =~= seq![spell_value(v)]);
            }
        },
    }
}

/// An operator is parsed from the words that spell it.
pub proof fn lemma_operator_spelled(s: Seq<char>, ts: Seq<Token>, i: int)
    ensures
        operator_at(s, ts, i) matches Ok((op, j)) ==> 0 <= i < j <= ts.len() && piece(s, ts, i, j)
            == spell_operator(op),
{
    match operator_at(s, ts, i) {
        Err(e) => {},
        Ok((op, j)) => {
            lemma_piece_one(s, ts, i);
            if j == i + 2 {
                lemma_piece_one(s, ts, i + 1);
                lemma_piece_split(s, ts, i, i + 1, j);
                assert(piece(s, ts, i, j) =~= spell_operator(op));
            } else {
                assert(piece(s, ts, i, j) =~= spell_operator(op));
            }
        },
    }
}

/// A condition is parsed from the words that spell it.
pub proof fn lemma_condition_spelled(s: Seq<char>, ts: Seq<Token>, i: int)
    ensures
        condition_at(s, ts, i) matches Ok((c, j)) ==> 0 <= i < j <= ts.len() && piece(s, ts, i, j)
            == spell_condition(c),
{
    if kind_at(ts, i) == Some(TokenKind::Ident) {
        lemma_piece_one(s, ts, i);
        lemma_operator_spelled(s, ts, i + 1);
        match operator_at(s, ts, i + 1) {
            Err(e) => {},
            Ok((operator, a)) => {
                if operator == Operator::In {
                    if kind_at(ts, a) == Some(TokenKind::LParen) {
                        lemma_values_spelled(s, ts, a + 1, Seq::empty());
                        match values_from(s, ts, a + 1, Seq::empty()) {
                            Err(e) => {},
                            Ok((values, b)) => {
                                if kind_at(ts, b) == Some(TokenKind::RParen) {
                                    assert(values.skip(0) =~= values);
                                    lemma_piece_one(s, ts, a);
                                    lemma_piece_one(s, ts, b);
                                    lemma_piece_split(s, ts, i, i + 1, b + 1);
                                    lemma_piece_split(s, ts, i + 1, a, b + 1);
                                    lemma_piece_split(s, ts, a, a + 1, b + 1);
                                    lemma_piece_split(s, ts, a + 1, b, b + 1);
                                    let c = ConditionView {
                                        field: lexeme(s, ts[i]),
                                        operator,
                                        values,
                                    };
                                    assert(piece(s, ts, i, b + 1) =~= spell_condition(c));
                                }
                            },
                        }
                    }
                } else {
                    lemma_value_spelled(s, ts, a);
                    match value_at(s, ts, a) {
                        Err(e) => {},
                        Ok((v, b)) => {
                            lemma_piece_split(s, ts, i, i + 1, b);
                            lemma_piece_split(s, ts, i + 1, a, b);
                            let c = ConditionView {
                                field: lexeme(s, ts[i]),
                                operator,
                                values: seq![v],
                            };
                            assert(piece(s, ts, i, b) =~= spell_condition(c));
                        },
                    }
                }
            },
        }
    }
}

/// A list of conditions is parsed from the words that spell the new
/// conditions.
pub proof fn lemma_conditions_spelled(
    s: Seq<char>,
    ts: Seq<Token>,
    i: int,
    acc: Seq<ConditionView>,
)
    ensures
        conditions_from(s, ts, i, acc) matches Ok((conditions, j)) ==> {
            &&& 0 <= i < j <= ts.len()
            &&& acc.len() < conditions.len()
            &&& conditions.take(acc.len() as int) == acc
            &&& piece(s, ts, i, j) == spell_conditions(conditions.skip(acc.len() as int))
        },
    decreases ts.len() - i,
{
    lemma_condition_spelled(s, ts, i);
    match condition_at(s, ts, i) {
        Err(e) => {},
        Ok((c, k)) => {
            if kind_at(ts, k) == Some(TokenKind::Keyword(Keyword::And)) {
                lemma_conditions_spelled(s, ts, k + 1, acc.push(c));
                match conditions_from(s, ts, k + 1, acc.push(c)) {
                    Err(e) => {},
                    Ok((conditions, j)) => {
                        let n = acc.len() as int;
                        let fresh = conditions.skip(n);
                        assert(conditions.take(n + 1)[n] == c);
                        assert(conditions.take(n) =~= conditions.take(n + 1).take(n));
                        assert(conditions.take(n) =~= acc);
                        assert(fresh.drop_first() =~= conditions.skip(n + 1));
                        assert(spell_each_condition(fresh).drop_first() =~= spell_each_condition(
                            fresh.drop_first(),
                        ));
                        lemma_joined_front(
                            spell_each_condition(fresh),
                            seq![keyword(Keyword::And)],
                        );
                        lemma_piece_one(s, ts, k);
                        lemma_piece_split(s, ts, i, k, j);
                        lemma_piece_split(s, ts, k, k + 1, j);
                    },
                }
            } else {
                let conditions = acc.push(c);
                assert(conditions.take(acc.len() as int) =~= acc);
                assert(conditions.skip(acc.len() as int) =~= seq![c]);
                assert(spell_each_condition(seq![c]) =~= seq![spell_condition(c)]);
            }
        },
    }
}

/// An order term is parsed from the words that spell it.
pub proof fn lemma_order_term_spelled(s: Seq<char>, ts: Seq<Token>, i: int)
    ensures
        order_term_at(s, ts, i) matches Ok((t, j)) ==> 0 <= i < j <= ts.len() && piece(s, ts, i, j)
            == spell_order_term(t),
{
    match order_term_at(s, ts, i) {
        Err(e) => {},
        Ok((t, j)) => {
            lemma_piece_one(s, ts, i);
            if j == i + 2 {
                lemma_piece_one(s, ts, i + 1);
                lemma_piece_split(s, ts, i, i + 1, j);
            }
            assert(piece(s, ts, i, j) =~= spell_order_term(t));
        },
    }
}

/// A list of order terms is parsed from the words that spell the new terms.
pub proof fn lemma_order_terms_spelled(
    s: Seq<char>,
    ts: Seq<Token>,
    i: int,
    acc: Seq<OrderTermView>,
)
    ensures
        order_terms_from(s, ts, i, acc) matches Ok((terms, j)) ==> {
            &&& 0 <= i < j <= ts.len()
            &&& acc.len() < terms.len()
            &&& terms.take(acc.len() as int) == acc
            &&& piece(s, ts, i, j) == joined(
                spell_each_order_term(terms.skip(acc.len() as int)),
                seq![mark(TokenKind::Comma)],
            )
        },
    decreases ts.len() - i,
{
    lemma_order_term_spelled(s, ts, i);
    match order_term_at(s, ts, i) {
        Err(e) => {},
        Ok((t, k)) => {
            if kind_at(ts, k) == Some(TokenKind::Comma) {
                lemma_order_terms_spelled(s, ts, k + 1, acc.push(t));
                match order_terms_from(s, ts, k + 1, acc.push(t)) {
                    Err(e) => {},
                    Ok((terms, j)) => {
                        let n = acc.len() as int;
                        let fresh = terms.skip(n);
                        assert(terms.take(n + 1)[n] == t);
                        assert(terms.take(n) =~= terms.take(n + 1).take(n));
                        assert(terms.take(n) =~= acc);
                        assert(fresh.drop_first() =~= terms.skip(n + 1));
                        assert(spell_each_order_term(fresh).drop_first()
                            =~= spell_each_order_term(fresh.drop_first()));
                        lemma_joined_front(
                            spell_each_order_term(fresh),
                            seq![mark(TokenKind::Comma)],
                        );
                        lemma_piece_one(s, ts, k);
                        lemma_piece_split(s, ts, i, k, j);
                        lemma_piece_split(s, ts, k, k + 1, j);
                    },
                }
            } else {
                let terms = acc.push(t);
                assert(terms.take(acc.len() as int) =~= acc);
                assert(terms.skip(acc.len() as int) =~= seq![t]);
                assert(spell_each_order_term(seq![t]) =~= seq![spell_order_term(t)]);
            }
        },
    }
}

/// An optional `order by` clause is parsed from the words that spell it.
pub proof fn lemma_order_by_spelled(s: Seq<char>, ts: Seq<Token>, i: int)
    requires
        0 <= i <= ts.len(),
    ensures
        order_by_at(s, ts, i) matches Ok((order_by, j)) ==> i <= j <= ts.len() && piece(s, ts, i, j)
            == spell_order_by(order_by),
{
    match order_by_at(s, ts, i) {
        Err(e) => {},
        Ok((order_by, j)) => {
            if order_by is Some {
                lemma_order_terms_spelled(s, ts, i + 2, Seq::empty());
                let terms = order_by->Some_0;
                assert(terms.skip(0) =~= terms);
                lemma_piece_one(s, ts, i);
                lemma_piece_one(s, ts, i + 1);
                lemma_piece_split(s, ts, i, i + 1, j);
                lemma_piece_split(s, ts, i + 1, i + 2, j);
                assert(piece(s, ts, i, j) =~= spell_order_by(order_by));
            } else {
                assert(piece(s, ts, i, j) =~= spell_order_by(order_by));
            }
        },
    }
}

/// An optional `limit` clause is parsed from the words that spell it.
pub proof fn lemma_limit_spelled(s: Seq<char>, ts: Seq<Token>, i: int)
    requires
        0 <= i <= ts.len(),
    ensures
        limit_at(s, ts, i) matches Ok((limit, j)) ==> i <= j <= ts.len() && piece(s, ts, i, j)
            == spell_limit(limit),
{
    match limit_at(s, ts, i) {
        Err(e) => {},
        Ok((limit, j)) => {
            if limit is Some {
                lemma_piece_one(s, ts, i);
                lemma_piece_one(s, ts, i + 1);
                lemma_piece_split(s, ts, i, i + 1, j);
                lemma_piece_split(s, ts, i + 1, i + 2, j);
                if limit->Some_0.offset is Some {
                    lemma_value_spelled(s, ts, i + 3);
                    lemma_piece_one(s, ts, i + 2);
                    lemma_piece_split(s, ts, i + 2, i + 3, j);
                }
                assert(piece(s, ts, i, j) =~= spell_limit(limit));
            } else {
                assert(piece(s, ts, i, j) =~= spell_limit(limit));
            }
        },
    }
}

/// A list of identifiers is parsed from the words that spell the new names.
pub proof fn lemma_idents_spelled(s: Seq<char>, ts: Seq<Token>, i: int, acc: Seq<Seq<char>>)
    ensures
        idents_from(s, ts, i, acc) matches Ok((names, j)) ==> {
            &&& 0 <= i < j <= ts.len()
            &&& acc.len() < names.len()
            &&& names.take(acc.len() as int) == acc
            &&& piece(s, ts, i, j) == joined(
                spell_each_ident(names.skip(acc.len() as int)),
                seq![mark(TokenKind::Comma)],
            )
        },
    decreases ts.len() - i,
{
    if kind_at(ts, i) == Some(TokenKind::Ident) {
        let name = lexeme(s, ts[i]);
        lemma_piece_one(s, ts, i);
        if kind_at(ts, i + 1) == Some(TokenKind::Comma) {
            lemma_idents_spelled(s, ts, i + 2, acc.push(name));
            match idents_from(s, ts, i + 2, acc.push(name)) {
                Err(e) => {},
                Ok((names, j)) => {
                    let n = acc.len() as int;
                    let fresh = names.skip(n);
                    assert(names.take(n + 1)[n] == name);
                    assert(names.take(n) =~= names.take(n + 1).take(n));
                    assert(names.take(n) =~= acc);
                    assert(fresh.drop_first() =~= names.skip(n + 1));
                    assert(spell_each_ident(fresh).drop_first() =~= spell_each_ident(
                        fresh.drop_first(),
                    ));
                    lemma_joined_front(spell_each_ident(fresh), seq![mark(TokenKind::Comma)]);
                    lemma_piece_one(s, ts, i + 1);
                    lemma_piece_split(s, ts, i, i + 1, j);
                    lemma_piece_split(s, ts, i + 1, i + 2, j);
                },
            }
        } else {
            let names = acc.push(name);
            assert(names.take(acc.len() as int) =~= acc);
            assert(names.skip(acc.len() as int) =~= seq![name]);
            assert(spell_each_ident(seq![name]) =~= seq![seq![ident(name)]]);
        }
    }
}

/// A selection is parsed from the words that spell it.
pub proof fn lemma_selection_spelled(s: Seq<char>, ts: Seq<Token>, i: int)
    ensures
        selection_at(s, ts, i) matches Ok((fields, j)) ==> 0 <= i < j <= ts.len() && piece(
            s,
            ts,
            i,
            j,
        ) == spell_selection(fields),
{
    match selection_at(s, ts, i) {
        Err(e) => {},
        Ok((fields, j)) => {
            match fields {
                FieldSelectionView::All => {
                    lemma_piece_one(s, ts, i);
                },
                FieldSelectionView::Specific(names) => {
                    lemma_idents_spelled(s, ts, i, Seq::empty());
                    assert(names.skip(0) =~= names);
                },
            }
        },
    }
}

/// What follows the selection is parsed from the words that spell it.
pub proof fn lemma_tail_spelled(s: Seq<char>, ts: Seq<Token>, fields: FieldSelectionView, a: int)
    requires
        0 <= a <= ts.len(),
    ensures
        query_after(s, ts, fields, a) matches Ok(q) ==> q.fields == fields && piece(
            s,
            ts,
            a,
            ts.len() as int,
        ) == spell_tail(q),
{
    match query_after(s, ts, fields, a) {
        Err(e) => {},
        Ok(q) => {
            let n = ts.len() as int;
            let link = seq![keyword(Keyword::From), ident(q.target), keyword(Keyword::Where)];
            assert(piece(s, ts, a, a + 3) == link) by {
                assert(piece(s, ts, a, a + 3) =~= link);
            }
            lemma_conditions_spelled(s, ts, a + 3, Seq::empty());
            let b = conditions_from(s, ts, a + 3, Seq::empty())->Ok_0.1;
            assert(piece(s, ts, a + 3, b) == spell_conditions(q.conditions)) by {
                assert(q.conditions.skip(0) =~= q.conditions);
            }
            lemma_order_by_spelled(s, ts, b);
            let c = order_by_at(s, ts, b)->Ok_0.1;
            lemma_limit_spelled(s, ts, c);
            let d = limit_at(s, ts, c)->Ok_0.1;
            assert(d == n);
            lemma_piece_split(s, ts, a, a + 3, n);
            lemma_piece_split(s, ts, a + 3, b, n);
            lemma_piece_split(s, ts, b, c, n);
            assert(piece(s, ts, a, n) == link + (spell_conditions(q.conditions) + (spell_order_by(
                q.order_by,
            ) + spell_limit(q.limit))));
            assert(link + (spell_conditions(q.conditions) + (spell_order_by(q.order_by)
                + spell_limit(q.limit))) =~= spell_tail(q));
        },
    }
}

/// The parser is sound: the tokens that it accepts are, word for word, the
/// spelling of the tree that it returns.
pub proof fn law_accepted_tokens_spell_the_tree(s: Seq<char>, ts: Seq<Token>)
    ensures
        query_of(s, ts) matches Ok(q) ==> words(s, ts) == spelling(q),
{
    match query_of(s, ts) {
        Err(e) => {},
        Ok(q) => {
            let n = ts.len() as int;
            lemma_piece_one(s, ts, 0);
            lemma_selection_spelled(s, ts, 1);
            let a = selection_at(s, ts, 1)->Ok_0.1;
            lemma_tail_spelled(s, ts, q.fields, a);
            lemma_piece_split(s, ts, 0, 1, n);
            lemma_piece_split(s, ts, 1, a, n);
            assert(piece(s, ts, 0, n) =~= words(s, ts));
            assert(words(s, ts) == seq![keyword(Keyword::Select)] + (spell_selection(q.fields)
                + spell_tail(q)));
            assert(seq![keyword(Keyword::Select)] + (spell_selection(q.fields) + spell_tail(q))
                =~= spelling(q));
        },
    }
}

/// A text that parses is cut into tokens that spell its tree.
pub proof fn law_a_parsed_text_spells_its_tree(s: Seq<char>)
    ensures
        parsed(s) matches Ok(q) ==> tokens_of(s) matches Ok(ts) && words(s, ts) == spelling(q),
{
    match tokens_of(s) {
        Err(e) => {},
        Ok(ts) => {
            law_accepted_tokens_spell_the_tree(s, ts);
        },
    }
}

proof fn lemma_split_piece(s: Seq<char>, ts: Seq<Token>, i: int, a: Seq<Word>, b: Seq<Word>)
    requires
        0 <= i,
        i + a.len() + b.len() <= ts.len(),
        piece(s, ts, i, i + a.len() + b.len()) == a + b,
    ensures
        piece(s, ts, i, i + a.len()) == a,
        piece(s, ts, i + a.len(), i + a.len() + b.len()) == b,
{
    let whole = piece(s, ts, i, i + a.len() + b.len());
    assert(piece(s, ts, i, i + a.len()) =~= whole.subrange(0, a.len() as int));
    assert(whole.subrange(0, a.len() as int) =~= a);
    let end = (a.len() + b.len()) as int;
    assert(piece(s, ts, i + a.len(), i + a.len() + b.len()) =~= whole.subrange(
        a.len() as int,
        end,
    ));
    assert(whole.subrange(a.len() as int, end) =~= b);
}

proof fn lemma_first_word(s: Seq<char>, ts: Seq<Token>, i: int, w: Seq<Word>)
    requires
        0 <= i,
        w.len() >= 1,
        i + w.len() <= ts.len(),
        piece(s, ts, i, i + w.len()) == w,
    ensures
        word_of(s, ts[i]) == w[0],
        kind_at(ts, i) == Some(w[0].kind),
{
    assert(piece(s, ts, i, i + w.len())[0] == words(s, ts)[i]);
}

/// The word that spells a value is parsed as that value.
pub proof fn lemma_value_accepted(s: Seq<char>, ts: Seq<Token>, i: int, v: ValueTermView)
    requires
        0 <= i < ts.len(),
        word_of(s, ts[i]) == spell_value(v)[0],
    ensures
        value_at(s, ts, i) == Ok::<(ValueTermView, int), crate::token::SyntaxError>((v, i + 1)),
{
}

/// The words that spell a list of values, not followed by a comma, are
/// parsed as those values.
pub proof fn lemma_values_accepted(
    s: Seq<char>,
    ts: Seq<Token>,
    i: int,
    acc: Seq<ValueTermView>,
    items: Seq<ValueTermView>,
)
    requires
        items.len() >= 1,
        0 <= i,
        i + spell_values(items).len() <= ts.len(),
        piece(s, ts, i, i + spell_values(items).len()) == spell_values(items),
        kind_at(ts, i + spell_values(items).len()) != Some(TokenKind::Comma),
    ensures
        values_from(s, ts, i, acc) == Ok::<(Seq<ValueTermView>, int), crate::token::SyntaxError>(
            (acc + items, i + spell_values(items).len()),
        ),
    decreases items.len(),
{
    let parts = spell_each_value(items);
    let comma = seq![mark(TokenKind::Comma)];
    if items.len() == 1 {
        assert(spell_values(items) == spell_value(items[0]));
        lemma_first_word(s, ts, i, spell_values(items));
        lemma_value_accepted(s, ts, i, items[0]);
        assert(acc.push(items[0]) =~= acc + items);
    } else {
        let rest = items.drop_first();
        lemma_joined_front(parts, comma);
        assert(parts.drop_first() =~= spell_each_value(rest));
        let head = spell_value(items[0]) + comma;
        assert(spell_values(items) =~= head + spell_values(rest));
        lemma_split_piece(s, ts, i, head, spell_values(rest));
        lemma_first_word(s, ts, i, head);
        lemma_value_accepted(s, ts, i, items[0]);
        assert(piece(s, ts, i, i + 2)[1] == words(s, ts)[i + 1]);
        assert(kind_at(ts, i + 1) == Some(TokenKind::Comma));
        lemma_values_accepted(s, ts, i + 2, acc.push(items[0]), rest);
        assert(acc.push(items[0]) + rest =~= acc + items);
    }
}

/// The words that spell an operator are parsed as that operator, where no
/// `=` follows a `<` or `>` that stands alone.
pub proof fn lemma_operator_accepted(s: Seq<char>, ts: Seq<Token>, i: int, op: Operator)
    requires
        0 <= i,
        i + spell_operator(op).len() <= ts.len(),
        piece(s, ts, i, i + spell_operator(op).len()) == spell_operator(op),
        op == Operator::Less || op == Operator::Greater ==> kind_at(ts, i + 1) != Some(
            TokenKind::Equal,
        ),
    ensures
        operator_at(s, ts, i) == Ok::<(Operator, int), crate::token::SyntaxError>(
            (op, i + spell_operator(op).len()),
        ),
{
    let w = spell_operator(op);
    lemma_first_word(s, ts, i, w);
    if w.len() == 2 {
        assert(piece(s, ts, i, i + 2)[1] == words(s, ts)[i + 1]);
    }
}

/// The words that spell a well-formed condition are parsed as that
/// condition.
pub proof fn lemma_condition_accepted(s: Seq<char>, ts: Seq<Token>, i: int, c: ConditionView)
    requires
        c.wf(),
        0 <= i,
        i + spell_condition(c).len() <= ts.len(),
        piece(s, ts, i, i + spell_condition(c).len()) == spell_condition(c),
    ensures
        condition_at(s, ts, i) == Ok::<(ConditionView, int), crate::token::SyntaxError>(
            (c, i + spell_condition(c).len()),
        ),
{
    let name = seq![ident(c.field)];
    let op = spell_operator(c.operator);
    let form = if c.operator == Operator::In {
        seq![mark(TokenKind::LParen)] + spell_values(c.values) + seq![mark(TokenKind::RParen)]
    } else {
        spell_value(c.values[0])
    };
    let a: int = i + 1 + op.len() as int;
    assert(spell_condition(c) =~= (name + op) + form);
    lemma_split_piece(s, ts, i, name + op, form);
    lemma_split_piece(s, ts, i, name, op);
    lemma_first_word(s, ts, i, name);
    lemma_first_word(s, ts, a, form);
    assert(lexeme(s, ts[i]) == c.field);
    lemma_operator_accepted(s, ts, i + 1, c.operator);
    if c.operator == Operator::In {
        let open = seq![mark(TokenKind::LParen)];
        let close = seq![mark(TokenKind::RParen)];
        let list = spell_values(c.values);
        lemma_split_piece(s, ts, a, open + list, close);
        lemma_split_piece(s, ts, a, open, list);
        lemma_first_word(s, ts, a + 1 + list.len(), close);
        lemma_values_accepted(s, ts, a + 1, Seq::empty(), c.values);
        assert(Seq::<ValueTermView>::empty() + c.values =~= c.values);
    } else {
        lemma_value_accepted(s, ts, a, c.values[0]);
        assert(seq![c.values[0]] =~= c.values);
    }
}

/// The words that spell a list of well-formed conditions, not followed by
/// `and`, are parsed as those conditions.
pub proof fn lemma_conditions_accepted(
    s: Seq<char>,
    ts: Seq<Token>,
    i: int,
    acc: Seq<ConditionView>,
    items: Seq<ConditionView>,
)
    requires
        items.len() >= 1,
        forall|k: int| 0 <= k < items.len() ==> (#[trigger] items[k]).wf(),
        0 <= i,
        i + spell_conditions(items).len() <= ts.len(),
        piece(s, ts, i, i + spell_conditions(items).len()) == spell_conditions(items),
        kind_at(ts, i + spell_conditions(items).len()) != Some(
            TokenKind::Keyword(Keyword::And),
        ),
    ensures
        conditions_from(s, ts, i, acc) == Ok::<
            (Seq<ConditionView>, int),
            crate::token::SyntaxError,
        >((acc + items, i + spell_conditions(items).len())),
    decreases items.len(),
{
    let parts = spell_each_condition(items);
    let and = seq![keyword(Keyword::And)];
    let first = spell_condition(items[0]);
    assert(items[0].wf());
    if items.len() == 1 {
        assert(spell_conditions(items) == first);
        lemma_condition_accepted(s, ts, i, items[0]);
        assert(acc.push(items[0]) =~= acc + items);
    } else {
        let rest = items.drop_first();
        lemma_joined_front(parts, and);
        assert(parts.drop_first() =~= spell_each_condition(rest));
        assert(spell_conditions(items) =~= (first + and) + spell_conditions(rest));
        lemma_split_piece(s, ts, i, first + and, spell_conditions(rest));
        lemma_split_piece(s, ts, i, first, and);
        lemma_condition_accepted(s, ts, i, items[0]);
        lemma_first_word(s, ts, i + first.len(), and);
        assert forall|k: int| 0 <= k < rest.len() implies (#[trigger] rest[k]).wf() by {
            assert(rest[k] == items[k + 1]);
        }
        lemma_conditions_accepted(s, ts, i + first.len() + 1, acc.push(items[0]), rest);
        assert(acc.push(items[0]) + rest =~= acc + items);
    }
}

/// Whether the token at `i` could continue an order term.
pub open spec fn direction_at(ts: Seq<Token>, i: int) -> bool {
    kind_at(ts, i) == Some(TokenKind::Keyword(Keyword::Asc)) || kind_at(ts, i) == Some(
        TokenKind::Keyword(Keyword::Desc),
    )
}

/// The words that spell an order term are parsed as that term, where no
/// direction follows a term that names none.
pub proof fn lemma_order_term_accepted(s: Seq<char>, ts: Seq<Token>, i: int, t: OrderTermView)
    requires
        0 <= i,
        i + spell_order_term(t).len() <= ts.len(),
        piece(s, ts, i, i + spell_order_term(t).len()) == spell_order_term(t),
        t.direction is None ==> !direction_at(ts, i + 1),
    ensures
        order_term_at(s, ts, i) == Ok::<(OrderTermView, int), crate::token::SyntaxError>(
            (t, i + spell_order_term(t).len()),
        ),
{
    let w = spell_order_term(t);
    lemma_first_word(s, ts, i, w);
    assert(lexeme(s, ts[i]) == t.field);
    if w.len() == 2 {
        assert(piece(s, ts, i, i + 2)[1] == words(s, ts)[i + 1]);
    }
}

/// The joined spelling of a list of order terms.
pub open spec fn spell_order_terms(terms: Seq<OrderTermView>) -> Seq<Word> {
    joined(spell_each_order_term(terms), seq![mark(TokenKind::Comma)])
}

/// The words that spell a list of order terms, followed by neither a comma
/// nor a direction, are parsed as those terms.
pub proof fn lemma_order_terms_accepted(
    s: Seq<char>,
    ts: Seq<Token>,
    i: int,
    acc: Seq<OrderTermView>,
    items: Seq<OrderTermView>,
)
    requires
        items.len() >= 1,
        0 <= i,
        i + spell_order_terms(items).len() <= ts.len(),
        piece(s, ts, i, i + spell_order_terms(items).len()) == spell_order_terms(items),
        kind_at(ts, i + spell_order_terms(items).len()) != Some(TokenKind::Comma),
        !direction_at(ts, i + spell_order_terms(items).len()),
    ensures
        order_terms_from(s, ts, i, acc) == Ok::<
            (Seq<OrderTermView>, int),
            crate::token::SyntaxError,
        >((acc + items, i + spell_order_terms(items).len())),
    decreases items.len(),
{
    let parts = spell_each_order_term(items);
    let comma = seq![mark(TokenKind::Comma)];
    let first = spell_order_term(items[0]);
    if items.len() == 1 {
        assert(spell_order_terms(items) == first);
        lemma_order_term_accepted(s, ts, i, items[0]);
        assert(acc.push(items[0]) =~= acc + items);
    } else {
        let rest = items.drop_first();
        lemma_joined_front(parts, comma);
        assert(parts.drop_first() =~= spell_each_order_term(rest));
        assert(spell_order_terms(items) =~= (first + comma) + spell_order_terms(rest));
        lemma_split_piece(s, ts, i, first + comma, spell_order_terms(rest));
        lemma_split_piece(s, ts, i, first, comma);
        lemma_first_word(s, ts, i + first.len(), comma);
        lemma_order_term_accepted(s, ts, i, items[0]);
        lemma_order_terms_accepted(s, ts, i + first.len() + 1, acc.push(items[0]), rest);
        assert(acc.push(items[0]) + rest =~= acc + items);
    }
}

/// The words that spell an optional `order by` clause are parsed as that
/// clause, where what follows cannot continue it.
pub proof fn lemma_order_by_accepted(
    s: Seq<char>,
    ts: Seq<Token>,
    i: int,
    order_by: Option<Seq<OrderTermView>>,
)
    requires
        order_by matches Some(terms) ==> terms.len() >= 1,
        0 <= i,
        i + spell_order_by(order_by).len() <= ts.len(),
        piece(s, ts, i, i + spell_order_by(order_by).len()) == spell_order_by(order_by),
        kind_at(ts, i + spell_order_by(order_by).len()) != Some(TokenKind::Comma),
        !direction_at(ts, i + spell_order_by(order_by).len()),
        order_by is None ==> kind_at(ts, i) != Some(TokenKind::Keyword(Keyword::Order)),
    ensures
        order_by_at(s, ts, i) == Ok::<
            (Option<Seq<OrderTermView>>, int),
            crate::token::SyntaxError,
        >((order_by, i + spell_order_by(order_by).len())),
{
    match order_by {
        None => {},
        Some(terms) => {
            let head = seq![keyword(Keyword::Order), keyword(Keyword::By)];
            lemma_split_piece(s, ts, i, head, spell_order_terms(terms));
            lemma_first_word(s, ts, i, head);
            assert(piece(s, ts, i, i + 2)[1] == words(s, ts)[i + 1]);
            lemma_order_terms_accepted(s, ts, i + 2, Seq::empty(), terms);
            assert(Seq::<OrderTermView>::empty() + terms =~= terms);
        },
    }
}

/// The words that spell an optional `limit` clause at the end of the
/// tokens are parsed as that clause.
pub proof fn lemma_limit_accepted(
    s: Seq<char>,
    ts: Seq<Token>,
    i: int,
    limit: Option<LimitSpecView>,
)
    requires
        0 <= i,
        i + spell_limit(limit).len() == ts.len(),
        piece(s, ts, i, i + spell_limit(limit).len()) == spell_limit(limit),
    ensures
        limit_at(s, ts, i) == Ok::<(Option<LimitSpecView>, int), crate::token::SyntaxError>(
            (limit, ts.len() as int),
        ),
{
    match limit {
        None => {},
        Some(l) => {
            let head = seq![keyword(Keyword::Limit), Word { kind: TokenKind::Integer, text: l.count }];
            let tail = match l.offset {
                None => Seq::<Word>::empty(),
                Some(v) => seq![keyword(Keyword::Offset)] + spell_value(v),
            };
            assert(spell_limit(limit) =~= head + tail);
            lemma_split_piece(s, ts, i, head, tail);
            lemma_first_word(s, ts, i, head);
            assert(piece(s, ts, i, i + 2)[1] == words(s, ts)[i + 1]);
            assert(lexeme(s, ts[i + 1]) == l.count);
            match l.offset {
                None => {},
                Some(v) => {
                    lemma_first_word(s, ts, i + 2, tail);
                    assert(piece(s, ts, i + 2, i + 4)[1] == words(s, ts)[i + 3]);
                    lemma_value_accepted(s, ts, i + 3, v);
                },
            }
        },
    }
}

/// The joined spelling of a list of identifiers.
pub open spec fn spell_idents(names: Seq<Seq<char>>) -> Seq<Word> {
    joined(spell_each_ident(names), seq![mark(TokenKind::Comma)])
}

/// The words that spell a list of identifiers, not followed by a comma,
/// are parsed as those identifiers.
pub proof fn lemma_idents_accepted(
    s: Seq<char>,
    ts: Seq<Token>,
    i: int,
    acc: Seq<Seq<char>>,
    items: Seq<Seq<char>>,
)
    requires
        items.len() >= 1,
        0 <= i,
        i + spell_idents(items).len() <= ts.len(),
        piece(s, ts, i, i + spell_idents(items).len()) == spell_idents(items),
        kind_at(ts, i + spell_idents(items).len()) != Some(TokenKind::Comma),
    ensures
        idents_from(s, ts, i, acc) == Ok::<(Seq<Seq<char>>, int), crate::token::SyntaxError>(
            (acc + items, i + spell_idents(items).len()),
        ),
        kind_at(ts, i) == Some(TokenKind::Ident),
    decreases items.len(),
{
    let parts = spell_each_ident(items);
    let comma = seq![mark(TokenKind::Comma)];
    let first = seq![ident(items[0])];
    if items.len() == 1 {
        assert(spell_idents(items) == first);
        lemma_first_word(s, ts, i, first);
        assert(lexeme(s, ts[i]) == items[0]);
        assert(acc.push(items[0]) =~= acc + items);
    } else {
        let rest = items.drop_first();
        lemma_joined_front(parts, comma);
        assert(parts.drop_first() =~= spell_each_ident(rest));
        assert(spell_idents(items) =~= (first + comma) + spell_idents(rest));
        lemma_split_piece(s, ts, i, first + comma, spell_idents(rest));
        lemma_first_word(s, ts, i, first + comma);
        assert(piece(s, ts, i, i + 2)[1] == words(s, ts)[i + 1]);
        assert(lexeme(s, ts[i]) == items[0]);
        lemma_idents_accepted(s, ts, i + 2, acc.push(items[0]), rest);
        assert(acc.push(items[0]) + rest =~= acc + items);
    }
}

/// The words that spell a selection, not followed by a comma, are parsed
/// as that selection.
pub proof fn lemma_selection_accepted(
    s: Seq<char>,
    ts: Seq<Token>,
    i: int,
    fields: FieldSelectionView,
)
    requires
        fields matches FieldSelectionView::Specific(names) ==> names.len() >= 1,
        0 <= i,
        i + spell_selection(fields).len() <= ts.len(),
        piece(s, ts, i, i + spell_selection(fields).len()) == spell_selection(fields),
        kind_at(ts, i + spell_selection(fields).len()) != Some(TokenKind::Comma),
    ensures
        selection_at(s, ts, i) == Ok::<(FieldSelectionView, int), crate::token::SyntaxError>(
            (fields, i + spell_selection(fields).len()),
        ),
{
    match fields {
        FieldSelectionView::All => {
            lemma_first_word(s, ts, i, spell_selection(fields));
        },
        FieldSelectionView::Specific(names) => {
            lemma_idents_accepted(s, ts, i, Seq::empty(), names);
            assert(Seq::<Seq<char>>::empty() + names =~= names);
        },
    }
}

/// The first word of the clauses that may follow the conditions is `order`
/// or `limit`.
proof fn lemma_clauses_begin(q: ParsedQueryView)
    requires
        q.order_by matches Some(terms) ==> terms.len() >= 1,
    ensures
        ({
            let w = spell_order_by(q.order_by) + spell_limit(q.limit);
            w.len() > 0 ==> w[0] == keyword(Keyword::Order) || w[0] == keyword(Keyword::Limit)
        }),
        spell_limit(q.limit).len() > 0 ==> spell_limit(q.limit)[0] == keyword(Keyword::Limit),
        q.order_by is None ==> spell_order_by(q.order_by).len() == 0,
        q.order_by is Some ==> spell_order_by(q.order_by).len() >= 2 && spell_order_by(
            q.order_by,
        )[0] == keyword(Keyword::Order),
{
}

/// The parser is complete: tokens that spell a well-formed tree are
/// accepted, and the tree that comes back is that tree.
pub proof fn law_every_spelling_is_accepted(s: Seq<char>, ts: Seq<Token>, q: ParsedQueryView)
    requires
        q.wf(),
        words(s, ts) == spelling(q),
    ensures
        query_of(s, ts) == Ok::<ParsedQueryView, crate::token::SyntaxError>(q),
{
    let n = ts.len() as int;
    let select = seq![keyword(Keyword::Select)];
    let selection = spell_selection(q.fields);
    let link = seq![keyword(Keyword::From), ident(q.target), keyword(Keyword::Where)];
    let conditions = spell_conditions(q.conditions);
    let order = spell_order_by(q.order_by);
    let limit = spell_limit(q.limit);
    let tail = spell_tail(q);
    let clauses = order + limit;
    lemma_clauses_begin(q);
    assert(words(s, ts).len() == n);
    assert(piece(s, ts, 0, n) =~= words(s, ts));
    assert(spelling(q) =~= (select + selection) + tail);
    assert(tail =~= (link + conditions) + clauses);
    lemma_split_piece(s, ts, 0, select + selection, tail);
    lemma_split_piece(s, ts, 0, select, selection);
    lemma_first_word(s, ts, 0, select);
    let a: int = selection.len() as int + 1;
    lemma_split_piece(s, ts, a, link + conditions, clauses);
    lemma_split_piece(s, ts, a, link, conditions);
    lemma_first_word(s, ts, a, link);
    assert(piece(s, ts, a, a + 3)[1] == words(s, ts)[a + 1]);
    assert(piece(s, ts, a, a + 3)[2] == words(s, ts)[a + 2]);
    assert(lexeme(s, ts[a + 1]) == q.target);
    lemma_selection_accepted(s, ts, 1, q.fields);
    let b: int = a + 3 + conditions.len() as int;
    lemma_split_piece(s, ts, b, order, limit);
    let c: int = b + order.len() as int;
    if clauses.len() > 0 {
        lemma_first_word(s, ts, b, clauses);
    }
    if limit.len() > 0 {
        lemma_first_word(s, ts, c, limit);
    }
    lemma_conditions_accepted(s, ts, a + 3, Seq::empty(), q.conditions);
    assert(Seq::<ConditionView>::empty() + q.conditions =~= q.conditions);
    lemma_order_by_accepted(s, ts, b, q.order_by);
    lemma_limit_accepted(s, ts, c, q.limit);
}

} // verus!
