//! The lexical forms, read from the tokens to the text: what a well-cut
//! text looks like, and the proof that the lexer cuts a text in exactly
//! that way.

use vstd::prelude::*;
use crate::parser::lexeme;
use crate::token::{
    digit, digits_end, keyword_of, lemma_digits_end, lemma_quote_at, lemma_token_at,
    lemma_word_end, number_end, quote_at, space, symbol_of, token_at, tokens_from, tokens_of,
    word_char, word_end, word_start, SyntaxError, Token, TokenKind,
};
use crate::value::all_digits;

verus! {

/// `word := (letter | "_") (letter | digit | "_")*`
pub open spec fn is_word(w: Seq<char>) -> bool {
    &&& w.len() >= 1
    &&& word_start(w[0])
    &&& forall|k: int| 0 <= k < w.len() ==> word_char(#[trigger] w[k])
}

/// `integer := digit+`
pub open spec fn is_integer(w: Seq<char>) -> bool {
    w.len() >= 1 && all_digits(w)
}

/// `decimal := digit+ "." digit+`, with the point at `p`.
pub open spec fn is_decimal_at(w: Seq<char>, p: int) -> bool {
    &&& 0 < p < w.len() - 1
    &&& w[p] == '.'
    &&& all_digits(w.take(p))
    &&& all_digits(w.skip(p + 1))
}

/// `decimal := digit+ "." digit+`
pub open spec fn is_decimal(w: Seq<char>) -> bool {
    exists|p: int| is_decimal_at(w, p)
}

/// `text := '"' (any character but '"')* '"'`
pub open spec fn is_text(w: Seq<char>) -> bool {
    &&& w.len() >= 2
    &&& w[0] == '"'
    &&& w.last() == '"'
    &&& forall|k: int| 0 < k < w.len() - 1 ==> #[trigger] w[k] != '"'
}

/// Whether the characters of a token have the form of its kind.
pub open spec fn shaped(s: Seq<char>, t: Token) -> bool {
    let w = lexeme(s, t);
    match t.kind {
        TokenKind::Keyword(k) => is_word(w) && keyword_of(w) == Some(k),
        TokenKind::Ident => is_word(w) && keyword_of(w) is None,
        TokenKind::Integer => is_integer(w),
        TokenKind::Decimal => is_decimal(w),
        TokenKind::Text => is_text(w),
        _ => w.len() == 1 && symbol_of(w[0]) == Some(t.kind),
    }
}

/// Whether a token is as long as its form allows: a word ends where the
/// word characters end, and a number where its digits end.
pub open spec fn longest(s: Seq<char>, t: Token) -> bool {
    let e = t.end as int;
    match t.kind {
        TokenKind::Keyword(_) => e < s.len() ==> !word_char(s[e]),
        TokenKind::Ident => e < s.len() ==> !word_char(s[e]),
        TokenKind::Integer => (e < s.len() ==> !digit(s[e])) && !(e + 1 < s.len() && s[e] == '.'
            && digit(s[e + 1])),
        TokenKind::Decimal => e < s.len() ==> !digit(s[e]),
        _ => true,
    }
}

/// Whether `ts` cuts the text from `pos` on: the tokens follow each other,
/// each has the form of its kind and is as long as that form allows, and
/// nothing but spaces stands before, between and after them.
pub open spec fn cuts(s: Seq<char>, ts: Seq<Token>, pos: int) -> bool
    decreases ts.len(),
{
    if ts.len() == 0 {
        forall|p: int| pos <= p < s.len() ==> space(#[trigger] s[p])
    } else {
        let t = ts[0];
        &&& pos <= t.start < t.end <= s.len()
        &&& forall|p: int| pos <= p < t.start ==> space(#[trigger] s[p])
        &&& shaped(s, t)
        &&& longest(s, t)
        &&& cuts(s, ts.drop_first(), t.end as int)
    }
}

proof fn lemma_word_run(s: Seq<char>, pos: int, e: int)
    requires
        0 <= pos <= e <= s.len(),
        forall|p: int| pos <= p < e ==> word_char(#[trigger] s[p]),
        e < s.len() ==> !word_char(s[e]),
    ensures
        word_end(s, pos) == e,
    decreases e - pos,
{
    if pos < e {
        assert(word_char(s[pos]));
        lemma_word_run(s, pos + 1, e);
    }
}

proof fn lemma_digits_run(s: Seq<char>, pos: int, e: int)
    requires
        0 <= pos <= e <= s.len(),
        forall|p: int| pos <= p < e ==> digit(#[trigger] s[p]),
        e < s.len() ==> !digit(s[e]),
    ensures
        digits_end(s, pos) == e,
    decreases e - pos,
{
    if pos < e {
        assert(digit(s[pos]));
        lemma_digits_run(s, pos + 1, e);
    }
}

proof fn lemma_quote_run(s: Seq<char>, pos: int, e: int)
    requires
        0 <= pos <= e < s.len(),
        forall|p: int| pos <= p < e ==> #[trigger] s[p] != '"',
        s[e] == '"',
    ensures
        quote_at(s, pos) == e,
    decreases e - pos,
{
    if pos < e {
        assert(s[pos] != '"');
        lemma_quote_run(s, pos + 1, e);
    }
}

/// The token that the lexer cuts at `pos` has the form of its kind and is
/// as long as that form allows.
pub proof fn lemma_token_is_shaped(s: Seq<char>, pos: int)
    requires
        0 <= pos < s.len(),
        s.len() <= usize::MAX,
    ensures
        token_at(s, pos) matches Ok((kind, end)) ==> {
            let t = Token { kind, start: pos as usize, end: end as usize };
            pos < end <= s.len() && shaped(s, t) && longest(s, t) && !space(s[pos])
        },
{
    lemma_token_at(s, pos);
    let c = s[pos];
    match token_at(s, pos) {
        Err(e) => {},
        Ok((kind, end)) => {
            let t = Token { kind, start: pos as usize, end: end as usize };
            let w = lexeme(s, t);
            assert(w == s.subrange(pos, end));
            if word_start(c) {
                lemma_word_end(s, pos);
                assert forall|k: int| 0 <= k < w.len() implies word_char(#[trigger] w[k]) by {
                    assert(w[k] == s[pos + k]);
                }
            } else if digit(c) {
                lemma_digits_end(s, pos);
                let whole = digits_end(s, pos);
                if number_end(s, pos).1 {
                    lemma_digits_end(s, whole + 1);
                    let p = whole - pos;
                    assert forall|k: int| 0 <= k < w.take(p).len() implies digit(
                        #[trigger] w.take(p)[k],
                    ) by {
                        assert(w.take(p)[k] == s[pos + k]);
                    }
                    assert forall|k: int| 0 <= k < w.skip(p + 1).len() implies digit(
                        #[trigger] w.skip(p + 1)[k],
                    ) by {
                        assert(w.skip(p + 1)[k] == s[whole + 1 + k]);
                    }
                    assert(w[p] == s[whole]);
                    assert(is_decimal_at(w, p));
                } else {
                    assert forall|k: int| 0 <= k < w.len() implies digit(#[trigger] w[k]) by {
                        assert(w[k] == s[pos + k]);
                    }
                }
            } else if c == '"' {
                lemma_quote_at(s, pos + 1);
                assert forall|k: int| 0 < k < w.len() - 1 implies #[trigger] w[k] != '"' by {
                    assert(w[k] == s[pos + k]);
                }
                assert(w.last() == s[end - 1]);
            } else {
                assert(w[0] == c);
            }
        },
    }
}

/// A token that has the form of its kind and is as long as that form
/// allows is the token that the lexer cuts at its start.
pub proof fn lemma_shaped_is_token(s: Seq<char>, t: Token)
    requires
        t.start < t.end <= s.len(),
        shaped(s, t),
        longest(s, t),
    ensures
        token_at(s, t.start as int) == Ok::<(TokenKind, int), SyntaxError>((t.kind, t.end as int)),
        !space(s[t.start as int]),
{
    let pos = t.start as int;
    let end = t.end as int;
    let w = lexeme(s, t);
    assert(w[0] == s[pos]);
    match t.kind {
        TokenKind::Keyword(_) | TokenKind::Ident => {
            assert forall|p: int| pos <= p < end implies word_char(#[trigger] s[p]) by {
                assert(w[p - pos] == s[p]);
            }
            lemma_word_run(s, pos, end);
        },
        TokenKind::Integer => {
            assert forall|p: int| pos <= p < end implies digit(#[trigger] s[p]) by {
                assert(w[p - pos] == s[p]);
            }
            lemma_digits_run(s, pos, end);
        },
        TokenKind::Decimal => {
            let p = choose|p: int| is_decimal_at(w, p);
            let whole = pos + p;
            assert(w.take(p)[0] == s[pos]);
            assert forall|q: int| pos <= q < whole implies digit(#[trigger] s[q]) by {
                assert(w.take(p)[q - pos] == s[q]);
            }
            assert(w[p] == s[whole]);
            lemma_digits_run(s, pos, whole);
            assert(w.skip(p + 1)[0] == s[whole + 1]);
            assert forall|q: int| whole + 1 <= q < end implies digit(#[trigger] s[q]) by {
                assert(w.skip(p + 1)[q - whole - 1] == s[q]);
            }
            lemma_digits_run(s, whole + 1, end);
        },
        TokenKind::Text => {
            assert(w.last() == s[end - 1]);
            assert forall|p: int| pos + 1 <= p < end - 1 implies #[trigger] s[p] != '"' by {
                assert(w[p - pos] == s[p]);
            }
            lemma_quote_run(s, pos + 1, end - 1);
        },
        _ => {},
    }
}

proof fn lemma_spaces_are_skipped(s: Seq<char>, pos: int, to: int)
    requires
        0 <= pos <= to <= s.len(),
        forall|p: int| pos <= p < to ==> space(#[trigger] s[p]),
    ensures
        tokens_from(s, pos) == tokens_from(s, to),
    decreases to - pos,
{
    if pos < to {
        assert(space(s[pos]));
        lemma_spaces_are_skipped(s, pos + 1, to);
    }
}

/// The lexer is sound: the tokens that it gives cut the text.
pub proof fn law_tokens_cut_the_text(s: Seq<char>, pos: int)
    requires
        0 <= pos,
        s.len() <= usize::MAX,
    ensures
        tokens_from(s, pos) matches Ok(ts) ==> cuts(s, ts, pos),
    decreases s.len() - pos,
{
    if pos >= s.len() {
    } else if space(s[pos]) {
        law_tokens_cut_the_text(s, pos + 1);
        match tokens_from(s, pos + 1) {
            Err(e) => {},
            Ok(ts) => {
                if ts.len() > 0 {
                    assert forall|p: int| pos <= p < ts[0].start implies space(#[trigger] s[p]) by {}
                }
            },
        }
    } else {
        lemma_token_is_shaped(s, pos);
        match token_at(s, pos) {
            Err(e) => {},
            Ok((kind, end)) => {
                law_tokens_cut_the_text(s, end);
                match tokens_from(s, end) {
                    Err(e) => {},
                    Ok(rest) => {
                        let t = Token { kind, start: pos as usize, end: end as usize };
                        let ts = seq![t] + rest;
                        assert(ts[0] == t);
                        assert(ts.drop_first() =~= rest);
                    },
                }
            },
        }
    }
}

/// The lexer is complete: tokens that cut the text are the tokens that the
/// lexer gives. So a text can be cut in one way only.
pub proof fn law_a_cut_is_what_the_lexer_gives(s: Seq<char>, ts: Seq<Token>, pos: int)
    requires
        0 <= pos,
        cuts(s, ts, pos),
    ensures
        tokens_from(s, pos) == Ok::<Seq<Token>, SyntaxError>(ts),
    decreases ts.len(),
{
    if ts.len() == 0 {
        if pos < s.len() {
            lemma_spaces_are_skipped(s, pos, s.len() as int);
        }
        assert(ts =~= Seq::<Token>::empty());
    } else {
        let t = ts[0];
        let rest = ts.drop_first();
        lemma_spaces_are_skipped(s, pos, t.start as int);
        lemma_shaped_is_token(s, t);
        law_a_cut_is_what_the_lexer_gives(s, rest, t.end as int);
        assert(seq![t] + rest =~= ts);
    }
}

/// A text that is cut into tokens is cut from its start, in the one way
/// that the lexical forms allow.
pub proof fn law_the_tokens_of_a_text(s: Seq<char>, ts: Seq<Token>)
    requires
        s.len() <= usize::MAX,
    ensures
        tokens_of(s) == Ok::<Seq<Token>, SyntaxError>(ts) <==> cuts(s, ts, 0),
{
    law_tokens_cut_the_text(s, 0);
    if cuts(s, ts, 0) {
        law_a_cut_is_what_the_lexer_gives(s, ts, 0);
    }
}

} // verus!
