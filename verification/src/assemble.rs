//! Building a query: the builder operations of a translated tree are
//! applied in order, and each value term is turned into text on the way.

use vstd::prelude::*;
use crate::ast::{term_view, TermKind, ValueTerm, ValueTermView};
use crate::query::{Limit, Operator, OrderClauseView, Query, QueryView, WhereClause, WhereClauseView};
use crate::text::{clone_texts, texts, views};
use crate::translate::{all_wf, BuilderOp, BuilderOpView};
use crate::value::{
    find, lookup, number_text, parse_unsigned, render_number, unsigned_of, Binding, BindingView,
    Value, ValueError, ValueErrorKind, ValueErrorView, ValueView,
};

verus! {

/// The error of kind `kind` for the text `term`.
pub open spec fn failure<T>(kind: ValueErrorKind, term: Seq<char>) -> Result<T, ValueErrorView> {
    Err(ValueErrorView { kind, term })
}

/// The text of a term that stands for one value: a literal is written in
/// its textual form, and a name gives the value that it is bound to.
pub open spec fn scalar_of(env: Seq<BindingView>, term: ValueTermView) -> Result<
    Seq<char>,
    ValueErrorView,
> {
    match term.kind {
        TermKind::Integer => Ok(number_text(term.text)),
        TermKind::Decimal => Ok(number_text(term.text)),
        TermKind::Text => Ok(term.text),
        TermKind::Name => match lookup(env, term.text) {
            None => failure(ValueErrorKind::Unbound, term.text),
            Some(ValueView::Scalar(text)) => Ok(text),
            Some(ValueView::Sequence(_)) => failure(ValueErrorKind::NotScalar, term.text),
        },
    }
}

/// The texts of a term that stands for a sequence of values: the term is a
/// name, and the name is bound to a sequence.
pub open spec fn sequence_of(env: Seq<BindingView>, term: ValueTermView) -> Result<
    Seq<Seq<char>>,
    ValueErrorView,
> {
    match term.kind {
        TermKind::Name => match lookup(env, term.text) {
            None => failure(ValueErrorKind::Unbound, term.text),
            Some(ValueView::Sequence(items)) => Ok(items),
            Some(ValueView::Scalar(_)) => failure(ValueErrorKind::NotSequence, term.text),
        },
        _ => failure(ValueErrorKind::NotSequence, term.text),
    }
}

/// The error of the first of `terms` that does not stand for one value.
pub open spec fn first_failure(env: Seq<BindingView>, terms: Seq<ValueTermView>) -> Option<
    ValueErrorView,
>
    decreases terms.len(),
{
    if terms.len() == 0 {
        None
    } else {
        match scalar_of(env, terms[0]) {
            Err(e) => Some(e),
            Ok(_) => first_failure(env, terms.drop_first()),
        }
    }
}

/// The texts of terms that each stand for one value, in the order of the
/// terms; the first term that fails decides the error.
pub open spec fn scalars_of(env: Seq<BindingView>, terms: Seq<ValueTermView>) -> Result<
    Seq<Seq<char>>,
    ValueErrorView,
> {
    match first_failure(env, terms) {
        Some(e) => Err(e),
        None => Ok(terms.map_values(|t: ValueTermView| scalar_of(env, t)->Ok_0)),
    }
}

/// The values of a condition. A single term after `In` stands for a whole
/// sequence; in every other case each term stands for one value.
pub open spec fn values_of(
    env: Seq<BindingView>,
    operator: Operator,
    terms: Seq<ValueTermView>,
) -> Result<Seq<Seq<char>>, ValueErrorView> {
    if operator == Operator::In && terms.len() == 1 {
        sequence_of(env, terms[0])
    } else {
        scalars_of(env, terms)
    }
}

/// The limit that a count and an optional offset term set.
pub open spec fn limit_of(
    env: Seq<BindingView>,
    count: Seq<char>,
    offset: Option<ValueTermView>,
) -> Result<Limit, ValueErrorView> {
    match unsigned_of(count) {
        None => failure(ValueErrorKind::NotUnsigned, count),
        Some(number) => match offset {
            None => Ok(Limit { number, offset: None }),
            Some(term) => match scalar_of(env, term) {
                Err(e) => Err(e),
                Ok(text) => match unsigned_of(text) {
                    None => failure(ValueErrorKind::NotUnsigned, text),
                    Some(skipped) => Ok(Limit { number, offset: Some(skipped) }),
                },
            },
        },
    }
}

/// The state of a builder after one operation. Fields, conditions and order
/// terms are added after those that are there; nothing is removed or moved.
pub open spec fn applied(q: QueryView, op: BuilderOpView, env: Seq<BindingView>) -> Result<
    QueryView,
    ValueErrorView,
> {
    match op {
        BuilderOpView::SetFields(names) => Ok(QueryView { fields: q.fields + names, ..q }),
        BuilderOpView::AddCondition { field, operator, values } => match values_of(
            env,
            operator,
            values,
        ) {
            Err(e) => Err(e),
            Ok(values) => Ok(
                QueryView {
                    conditions: q.conditions.push(WhereClauseView { field, operator, values }),
                    ..q
                },
            ),
        },
        BuilderOpView::AddOrder { field, order } => Ok(
            QueryView { orders: q.orders.push(OrderClauseView { field, order }), ..q },
        ),
        BuilderOpView::SetLimit { count, offset } => match limit_of(env, count, offset) {
            Err(e) => Err(e),
            Ok(limit) => Ok(QueryView { limit: Some(limit), ..q }),
        },
    }
}

/// The state of a builder after the operations `ops`, applied in order; the
/// first operation that fails decides the error.
pub open spec fn built_from(q: QueryView, ops: Seq<BuilderOpView>, env: Seq<BindingView>) -> Result<
    QueryView,
    ValueErrorView,
>
    decreases ops.len(),
{
    if ops.len() == 0 {
        Ok(q)
    } else {
        match applied(q, ops[0], env) {
            Err(e) => Err(e),
            Ok(next) => built_from(next, ops.drop_first(), env),
        }
    }
}

/// The query that the operations `ops` build for `collection`.
pub open spec fn built(collection: Seq<char>, ops: Seq<BuilderOpView>, env: Seq<BindingView>) -> Result<
    QueryView,
    ValueErrorView,
> {
    built_from(QueryView::empty(collection), ops, env)
}

/// An outcome, with value and error as their views.
pub open spec fn result_view<T: View, E: View>(r: Result<T, E>) -> Result<T::V, E::V> {
    match r {
        Ok(x) => Ok(x@),
        Err(e) => Err(e@),
    }
}

/// An outcome that is a list of texts, with the texts and the error as
/// their views.
pub open spec fn texts_view(r: Result<Vec<String>, ValueError>) -> Result<
    Seq<Seq<char>>,
    ValueErrorView,
> {
    match r {
        Ok(items) => Ok(texts(items@)),
        Err(e) => Err(e@),
    }
}

fn fail<T>(kind: ValueErrorKind, term: &String) -> (r: Result<T, ValueError>)
    ensures
        r matches Err(e) && e@ == (ValueErrorView { kind, term: term@ }),
{
    Err(ValueError { kind, term: term.clone() })
}

/// Turns a term that stands for one value into text.
pub fn resolve_scalar(env: &Vec<Binding>, term: &ValueTerm) -> (r: Result<String, ValueError>)
    ensures
        result_view(r) == scalar_of(views(env@), term@),
{
    match term.kind {
        TermKind::Integer => Ok(render_number(&term.text)),
        TermKind::Decimal => Ok(render_number(&term.text)),
        TermKind::Text => Ok(term.text.clone()),
        TermKind::Name => match find(env, &term.text) {
            None => fail(ValueErrorKind::Unbound, &term.text),
            Some(Value::Scalar(text)) => Ok(text.clone()),
            Some(Value::Sequence(_)) => fail(ValueErrorKind::NotScalar, &term.text),
        },
    }
}

/// Turns a term that stands for a sequence of values into texts.
pub fn resolve_sequence(env: &Vec<Binding>, term: &ValueTerm) -> (r: Result<
    Vec<String>,
    ValueError,
>)
    ensures
        texts_view(r) == sequence_of(views(env@), term@),
{
    match term.kind {
        TermKind::Name => match find(env, &term.text) {
            None => fail(ValueErrorKind::Unbound, &term.text),
            Some(Value::Sequence(items)) => Ok(clone_texts(items)),
            Some(Value::Scalar(_)) => fail(ValueErrorKind::NotSequence, &term.text),
        },
        _ => fail(ValueErrorKind::NotSequence, &term.text),
    }
}

/// Turns terms that each stand for one value into texts.
pub fn resolve_scalars(env: &Vec<Binding>, terms: &Vec<ValueTerm>) -> (r: Result<
    Vec<String>,
    ValueError,
>)
    ensures
        texts_view(r) == scalars_of(views(env@), views(terms@)),
{
    let ghost all = views(terms@);
    let ghost wanted = all.map_values(|t: ValueTermView| scalar_of(views(env@), t)->Ok_0);
    let mut out: Vec<String> = Vec::new();
    let n: usize = terms.len();
    assert(all.skip(0) =~= all);
    for i in 0..n
        invariant
            n == terms.len(),
            all == views(terms@),
            wanted == all.map_values(|t: ValueTermView| scalar_of(views(env@), t)->Ok_0),
            first_failure(views(env@), all) == first_failure(views(env@), all.skip(i as int)),
            texts(out@) =~= wanted.take(i as int),
    {
        assert(all.skip(i as int).drop_first() =~= all.skip(i + 1));
        match resolve_scalar(env, &terms[i]) {
            Err(e) => {
                return Err(e);
            },
            Ok(text) => {
                let ghost before = out@;
                out.push(text);
                assert(texts(out@) =~= texts(before).push(text@));
                assert(wanted.take(i + 1) =~= wanted.take(i as int).push(text@));
            },
        }
    }
    assert(wanted.take(n as int) =~= wanted);
    Ok(out)
}

/// Turns the terms of a condition into its values.
pub fn resolve_values(env: &Vec<Binding>, operator: Operator, terms: &Vec<ValueTerm>) -> (r: Result<
    Vec<String>,
    ValueError,
>)
    ensures
        texts_view(r) == values_of(views(env@), operator, views(terms@)),
{
    match operator {
        Operator::In => {
            if terms.len() == 1 {
                resolve_sequence(env, &terms[0])
            } else {
                resolve_scalars(env, terms)
            }
        },
        _ => resolve_scalars(env, terms),
    }
}

/// Reads the count and the offset term of a limit.
pub fn resolve_limit(env: &Vec<Binding>, count: &String, offset: &Option<ValueTerm>) -> (r: Result<
    Limit,
    ValueError,
>)
    ensures
        match r {
            Ok(limit) => limit_of(views(env@), count@, term_view(*offset)) == Ok::<
                Limit,
                ValueErrorView,
            >(limit),
            Err(e) => limit_of(views(env@), count@, term_view(*offset)) == Err::<
                Limit,
                ValueErrorView,
            >(e@),
        },
{
    let number = match parse_unsigned(count) {
        None => {
            return fail(ValueErrorKind::NotUnsigned, count);
        },
        Some(number) => number,
    };
    match offset {
        None => Ok(Limit { number, offset: None }),
        Some(term) => {
            let text = match resolve_scalar(env, term) {
                Err(e) => {
                    return Err(e);
                },
                Ok(text) => text,
            };
            match parse_unsigned(&text) {
                None => fail(ValueErrorKind::NotUnsigned, &text),
                Some(skipped) => Ok(Limit { number, offset: Some(skipped) }),
            }
        },
    }
}

/// Applies one operation to a builder. On an error the builder is gone: no
/// partly built query is handed out.
pub fn apply(query: Query, op: &BuilderOp, env: &Vec<Binding>) -> (r: Result<Query, ValueError>)
    requires
        op@.wf(),
    ensures
        result_view(r) == applied(query@, op@, views(env@)),
{
    match op {
        BuilderOp::SetFields(names) => {
            let mut query = query;
            let ghost start = query@;
            let n: usize = names.len();
            assert(start.fields + texts(names@).take(0) =~= start.fields);
            for i in 0..n
                invariant
                    n == names.len(),
                    query@ == (QueryView {
                        fields: start.fields + texts(names@).take(i as int),
                        ..start
                    }),
            {
                let ghost before = query@;
                let name = names[i].clone();
                query = query.field(name);
                assert(before.fields.push(name@) =~= start.fields + texts(names@).take(i + 1));
            }
            assert(texts(names@).take(n as int) =~= texts(names@));
            Ok(query)
        },
        BuilderOp::AddCondition { field, operator, values } => {
            match resolve_values(env, *operator, values) {
                Err(e) => Err(e),
                Ok(values) => Ok(
                    query.condition(
                        WhereClause { field: field.clone(), operator: *operator, values },
                    ),
                ),
            }
        },
        BuilderOp::AddOrder { field, order } => Ok(query.order(field.clone(), *order)),
        BuilderOp::SetLimit { count, offset } => {
            match resolve_limit(env, count, offset) {
                Err(e) => Err(e),
                Ok(limit) => Ok(query.limit(limit.number, limit.offset)),
            }
        },
    }
}

/// Builds the query of `ops` for the collection named `collection`, with
/// the names of its value terms bound by `env`.
pub fn build(collection: &str, ops: &Vec<BuilderOp>, env: &Vec<Binding>) -> (r: Result<
    Query,
    ValueError,
>)
    requires
        all_wf(views(ops@)),
    ensures
        result_view(r) == built(collection@, views(ops@), views(env@)),
{
    let ghost all = views(ops@);
    let mut query = Query::new(collection);
    let n: usize = ops.len();
    assert(all.skip(0) =~= all);
    for i in 0..n
        invariant
            n == ops.len(),
            all == views(ops@),
            all_wf(all),
            built(collection@, all, views(env@)) == built_from(
                query@,
                all.skip(i as int),
                views(env@),
            ),
    {
        assert(all.skip(i as int).drop_first() =~= all.skip(i + 1));
        assert(all[i as int].wf());
        match apply(query, &ops[i], env) {
            Err(e) => {
                return Err(e);
            },
            Ok(next) => {
                query = next;
            },
        }
    }
    Ok(query)
}

} // verus!
