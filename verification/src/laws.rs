//! What holds of the library as a whole, stated over the models that the
//! contracts of its functions use.

use vstd::prelude::*;
use crate::assemble::{applied, built, built_from, limit_of, scalars_of, values_of};
use crate::ast::{ConditionView, LimitSpecView, OrderTermView, ParsedQueryView, TermKind, ValueTermView};
use crate::normalize::normalized;
use crate::parser::{lemma_parsed_wf, parsed};
use crate::query::{
    direction_text, limit_text, order_section, order_text, query_text, Limit, Operator, Order,
    OrderClauseView, Query, QueryView, WhereClauseView,
};
use crate::sql::{compiled, QueryErrorView};
use crate::text::{decimal, joined};
use crate::translate::{
    condition_op, direction_of, lemma_first_unknown, limit_ops, operations, order_op, order_ops,
    referenced, selected, selection_ops, BuilderOpView, EntityView,
};
use crate::value::{
    all_digits, decimal_value, lookup, unsigned_of, BindingView, ValueErrorView, ValueView,
};

verus! {

/// Rendering reads the state of a builder and nothing else: two builders
/// that hold the same state render the same string, and so does one builder
/// asked twice.
pub proof fn law_rendering_is_deterministic(a: Query, b: Query)
    requires
        a@ == b@,
    ensures
        query_text(a@) == query_text(b@),
{
}

/// The same text, target and bindings make the same query, and so the same
/// string.
pub proof fn law_construction_is_deterministic(
    s: Seq<char>,
    entity: EntityView,
    env: Seq<BindingView>,
    a: QueryView,
    b: QueryView,
)
    requires
        compiled(s, entity, env) == Ok::<QueryView, QueryErrorView>(a),
        compiled(s, entity, env) == Ok::<QueryView, QueryErrorView>(b),
    ensures
        a == b,
        query_text(a) == query_text(b),
{
}

/// A query without selected fields selects everything: its string begins
/// with `select * from `.
pub proof fn law_select_star(q: QueryView)
    requires
        q.fields.len() == 0,
    ensures
        ("select *"@ + " from "@).is_prefix_of(query_text(q)),
        "select *"@ == seq!['s', 'e', 'l', 'e', 'c', 't', ' ', '*'],
{
    reveal_strlit("select *");
    let head = "select *"@ + " from "@;
    assert(query_text(q).subrange(0, head.len() as int) =~= head);
}

/// A query with selected fields lists them in selection order, separated
/// by a comma and a space.
pub proof fn law_select_fields(q: QueryView)
    requires
        q.fields.len() > 0,
    ensures
        ("select "@ + joined(q.fields, ", "@) + " from "@).is_prefix_of(query_text(q)),
{
    let head = "select "@ + joined(q.fields, ", "@) + " from "@;
    assert(query_text(q).subrange(0, head.len() as int) =~= head);
}

/// A name that is bound to a sequence, alone after `in`, makes the same
/// condition as a list of terms that stand for the items of the sequence,
/// in the same order.
pub proof fn law_spread_matches_list(
    q: QueryView,
    env: Seq<BindingView>,
    field: Seq<char>,
    name: Seq<char>,
    items: Seq<Seq<char>>,
    terms: Seq<ValueTermView>,
)
    requires
        lookup(env, name) == Some(ValueView::Sequence(items)),
        terms.len() != 1,
        scalars_of(env, terms) == Ok::<Seq<Seq<char>>, ValueErrorView>(items),
    ensures
        applied(
            q,
            BuilderOpView::AddCondition {
                field,
                operator: Operator::In,
                values: seq![ValueTermView { kind: TermKind::Name, text: name }],
            },
            env,
        ) == applied(
            q,
            BuilderOpView::AddCondition { field, operator: Operator::In, values: terms },
            env,
        ),
{
}

/// Every order term is written as a space, the field, a space and the
/// direction keyword.
pub proof fn law_order_term_spacing(field: Seq<char>, order: Order)
    ensures
        order_text(OrderClauseView { field, order }) == seq![' '] + field + seq![' ']
            + direction_text(order),
        direction_text(Order::Asc) == seq!['A', 'S', 'C'],
        direction_text(Order::Desc) == seq!['D', 'E', 'S', 'C'],
{
    reveal_strlit(" ");
    reveal_strlit("ASC");
    reveal_strlit("DESC");
    assert(" "@ =~= seq![' ']);
    assert("ASC"@ =~= seq!['A', 'S', 'C']);
    assert("DESC"@ =~= seq!['D', 'E', 'S', 'C']);
}

/// Two order terms are separated by a comma alone; the space after it is
/// the one that begins the second term.
pub proof fn law_order_terms_are_joined_by_a_comma(a: OrderClauseView, b: OrderClauseView)
    ensures
        order_section(seq![a, b]) == " order by"@ + order_text(a) + ","@ + order_text(b),
{
    let parts = seq![a, b].map_values(|o: OrderClauseView| order_text(o));
    assert(parts.drop_last() =~= seq![order_text(a)]);
    assert(joined(parts.drop_last(), ","@) == order_text(a));
    assert(joined(parts, ","@) =~= order_text(a) + ","@ + order_text(b));
}

/// A limit without an offset is written without an `OFFSET` part; one with
/// an offset is followed by it.
pub proof fn law_limit_rendering(number: u32, skipped: u32)
    ensures
        limit_text(Limit { number, offset: None }) == " LIMIT "@ + decimal(number as nat),
        limit_text(Limit { number, offset: Some(skipped) }) == " LIMIT "@ + decimal(number as nat)
            + " OFFSET "@ + decimal(skipped as nat),
{
    assert(limit_text(Limit { number, offset: None }) =~= " LIMIT "@ + decimal(number as nat));
    assert(limit_text(Limit { number, offset: Some(skipped) }) =~= " LIMIT "@ + decimal(
        number as nat,
    ) + " OFFSET "@ + decimal(skipped as nat));
}

/// A text that parses has at least one condition: a query without a
/// condition is a syntax error.
pub proof fn law_a_query_has_a_condition(s: Seq<char>)
    ensures
        parsed(s) matches Ok(tree) ==> tree.conditions.len() >= 1,
{
    lemma_parsed_wf(s);
}

/// A text that names a field which the target does not have makes no
/// query: the construction fails with the first such field.
pub proof fn law_unknown_field_fails(
    s: Seq<char>,
    entity: EntityView,
    env: Seq<BindingView>,
    k: int,
)
    requires
        parsed(s) matches Ok(tree) && 0 <= k < referenced(tree).len() && !entity.knows(
            referenced(tree)[k],
        ),
    ensures
        compiled(s, entity, env) matches Err(QueryErrorView::UnknownField(e)) && !entity.knows(
            e.field,
        ),
{
    let tree = parsed(s)->Ok_0;
    lemma_first_unknown(entity, referenced(tree));
}

/// The field of every condition is among the fields that are looked up on
/// the target.
pub proof fn law_condition_fields_are_checked(
    s: Seq<char>,
    entity: EntityView,
    env: Seq<BindingView>,
    i: int,
)
    requires
        parsed(s) matches Ok(tree) && 0 <= i < tree.conditions.len() && !entity.knows(
            tree.conditions[i].field,
        ),
    ensures
        compiled(s, entity, env) matches Err(QueryErrorView::UnknownField(_)),
{
    let tree = parsed(s)->Ok_0;
    let k = selected(tree.fields).len() + i;
    assert(referenced(tree)[k] == tree.conditions[i].field);
    law_unknown_field_fails(s, entity, env, k);
}

/// The numeral of a number holds digits only and writes that number.
pub proof fn law_decimal_is_read_back(n: nat)
    ensures
        all_digits(decimal(n)),
        decimal(n).len() > 0,
        decimal_value(decimal(n)) == n,
    decreases n,
{
    if n < 10 {
        assert(decimal(n).drop_last() =~= Seq::<char>::empty());
        assert(decimal_value(decimal(n).drop_last()) == 0);
    } else {
        law_decimal_is_read_back(n / 10);
        assert(decimal(n).drop_last() =~= decimal(n / 10));
    }
}

/// A count that a query string holds is read back as the same count.
pub proof fn law_count_is_read_back(n: u32)
    ensures
        unsigned_of(decimal(n as nat)) == Some(n),
{
    law_decimal_is_read_back(n as nat);
}

/// The condition of a builder that a condition of a tree becomes.
pub open spec fn clause_of(env: Seq<BindingView>, c: ConditionView) -> Result<
    WhereClauseView,
    ValueErrorView,
> {
    match values_of(env, c.operator, c.values) {
        Err(e) => Err(e),
        Ok(values) => Ok(
            WhereClauseView { field: normalized(c.field), operator: c.operator, values },
        ),
    }
}

/// The error of the first condition whose values cannot be made.
pub open spec fn first_clause_failure(env: Seq<BindingView>, conditions: Seq<ConditionView>) -> Option<
    ValueErrorView,
>
    decreases conditions.len(),
{
    if conditions.len() == 0 {
        None
    } else {
        match clause_of(env, conditions[0]) {
            Err(e) => Some(e),
            Ok(_) => first_clause_failure(env, conditions.drop_first()),
        }
    }
}

/// The order term of a builder that an order term of a tree becomes.
pub open spec fn order_clause_of(t: OrderTermView) -> OrderClauseView {
    OrderClauseView { field: normalized(t.field), order: direction_of(t.direction) }
}

/// The order terms of a builder that an optional `order by` clause becomes.
pub open spec fn order_clauses_of(order_by: Option<Seq<OrderTermView>>) -> Seq<OrderClauseView> {
    match order_by {
        None => Seq::empty(),
        Some(terms) => terms.map_values(|t: OrderTermView| order_clause_of(t)),
    }
}

/// The limit of a builder that an optional `limit` clause becomes.
pub open spec fn limit_clause_of(env: Seq<BindingView>, limit: Option<LimitSpecView>) -> Result<
    Option<Limit>,
    ValueErrorView,
> {
    match limit {
        None => Ok(None),
        Some(l) => match limit_of(env, l.count, l.offset) {
            Err(e) => Err(e),
            Ok(limit) => Ok(Some(limit)),
        },
    }
}

/// The query of a tree, read off the tree: the fields, conditions and order
/// terms of the tree in their order, each field under its external name; an
/// order term without a direction ascends. The first condition whose values
/// cannot be made decides the error, and after the conditions the limit.
pub open spec fn query_of_tree(
    tree: ParsedQueryView,
    collection: Seq<char>,
    env: Seq<BindingView>,
) -> Result<QueryView, ValueErrorView> {
    match first_clause_failure(env, tree.conditions) {
        Some(e) => Err(e),
        None => match limit_clause_of(env, tree.limit) {
            Err(e) => Err(e),
            Ok(limit) => Ok(
                QueryView {
                    collection,
                    fields: selected(tree.fields).map_values(|n: Seq<char>| normalized(n)),
                    conditions: tree.conditions.map_values(
                        |c: ConditionView| clause_of(env, c)->Ok_0,
                    ),
                    orders: order_clauses_of(tree.order_by),
                    limit,
                },
            ),
        },
    }
}

/// What the operations of `b` build after those of `a`.
pub open spec fn and_then(
    first: Result<QueryView, ValueErrorView>,
    b: Seq<BuilderOpView>,
    env: Seq<BindingView>,
) -> Result<QueryView, ValueErrorView> {
    match first {
        Err(e) => Err(e),
        Ok(q) => built_from(q, b, env),
    }
}

/// Operations are applied one run after the other.
pub proof fn lemma_built_in_runs(
    q: QueryView,
    a: Seq<BuilderOpView>,
    b: Seq<BuilderOpView>,
    env: Seq<BindingView>,
)
    ensures
        built_from(q, a + b, env) == and_then(built_from(q, a, env), b, env),
    decreases a.len(),
{
    if a.len() == 0 {
        assert(a + b =~= b);
    } else {
        assert((a + b)[0] == a[0]);
        assert((a + b).drop_first() =~= a.drop_first() + b);
        match applied(q, a[0], env) {
            Err(e) => {},
            Ok(next) => {
                lemma_built_in_runs(next, a.drop_first(), b, env);
            },
        }
    }
}

/// The operations of the conditions add the conditions, in order.
pub proof fn lemma_conditions_built(q: QueryView, conditions: Seq<ConditionView>, env: Seq<BindingView>)
    ensures
        built_from(q, conditions.map_values(|c: ConditionView| condition_op(c)), env) == (
        match first_clause_failure(env, conditions) {
            Some(e) => Err::<QueryView, ValueErrorView>(e),
            None => Ok(
                QueryView {
                    conditions: q.conditions + conditions.map_values(
                        |c: ConditionView| clause_of(env, c)->Ok_0,
                    ),
                    ..q
                },
            ),
        }),
    decreases conditions.len(),
{
    let ops = conditions.map_values(|c: ConditionView| condition_op(c));
    let clauses = conditions.map_values(|c: ConditionView| clause_of(env, c)->Ok_0);
    if conditions.len() == 0 {
        assert(q.conditions + clauses =~= q.conditions);
    } else {
        let rest = conditions.drop_first();
        assert(ops[0] == condition_op(conditions[0]));
        assert(ops.drop_first() =~= rest.map_values(|c: ConditionView| condition_op(c)));
        match applied(q, ops[0], env) {
            Err(e) => {},
            Ok(next) => {
                lemma_conditions_built(next, rest, env);
                assert(next.conditions + rest.map_values(
                    |c: ConditionView| clause_of(env, c)->Ok_0,
                ) =~= q.conditions + clauses);
            },
        }
    }
}

/// The operations of the order terms add the order terms, in order.
pub proof fn lemma_orders_built(q: QueryView, terms: Seq<OrderTermView>, env: Seq<BindingView>)
    ensures
        built_from(q, terms.map_values(|t: OrderTermView| order_op(t)), env) == Ok::<
            QueryView,
            ValueErrorView,
        >(
            QueryView {
                orders: q.orders + terms.map_values(|t: OrderTermView| order_clause_of(t)),
                ..q
            },
        ),
    decreases terms.len(),
{
    let ops = terms.map_values(|t: OrderTermView| order_op(t));
    let clauses = terms.map_values(|t: OrderTermView| order_clause_of(t));
    if terms.len() == 0 {
        assert(q.orders + clauses =~= q.orders);
    } else {
        let rest = terms.drop_first();
        assert(ops[0] == order_op(terms[0]));
        assert(ops.drop_first() =~= rest.map_values(|t: OrderTermView| order_op(t)));
        let next = applied(q, ops[0], env)->Ok_0;
        lemma_orders_built(next, rest, env);
        assert(next.orders + rest.map_values(|t: OrderTermView| order_clause_of(t)) =~= q.orders
            + clauses);
    }
}

/// The operations of a tree build the query that is read off the tree:
/// nothing is added, dropped or moved on the way.
pub proof fn law_the_built_query_is_the_tree(
    tree: ParsedQueryView,
    collection: Seq<char>,
    env: Seq<BindingView>,
)
    ensures
        built(collection, operations(tree), env) == query_of_tree(tree, collection, env),
{
    let start = QueryView::empty(collection);
    let a = selection_ops(tree.fields);
    let b = tree.conditions.map_values(|c: ConditionView| condition_op(c));
    let c = order_ops(tree.order_by);
    let d = limit_ops(tree.limit);
    assert(operations(tree) =~= a + (b + (c + d)));
    lemma_built_in_runs(start, a, b + (c + d), env);
    let selected_names = selected(tree.fields).map_values(|n: Seq<char>| normalized(n));
    let one = QueryView { fields: selected_names, ..start };
    assert(built_from(start, a, env) == Ok::<QueryView, ValueErrorView>(one)) by {
        reveal_with_fuel(built_from, 3);
        if a.len() > 0 {
            assert(a[0] == BuilderOpView::SetFields(selected_names));
            assert(a.drop_first() =~= Seq::<BuilderOpView>::empty());
            assert(start.fields + selected_names =~= selected_names);
        } else {
            assert(selected_names =~= Seq::<Seq<char>>::empty());
        }
    }
    lemma_built_in_runs(one, b, c + d, env);
    lemma_conditions_built(one, tree.conditions, env);
    match built_from(one, b, env) {
        Err(e) => {},
        Ok(two) => {
            assert(one.conditions + tree.conditions.map_values(
                |c: ConditionView| clause_of(env, c)->Ok_0,
            ) =~= tree.conditions.map_values(|c: ConditionView| clause_of(env, c)->Ok_0));
            lemma_built_in_runs(two, c, d, env);
            match tree.order_by {
                None => {},
                Some(terms) => {
                    lemma_orders_built(two, terms, env);
                    assert(two.orders + terms.map_values(|t: OrderTermView| order_clause_of(t))
                        =~= order_clauses_of(tree.order_by));
                },
            }
            let three = QueryView { orders: order_clauses_of(tree.order_by), ..two };
            assert(built_from(two, c, env) == Ok::<QueryView, ValueErrorView>(three));
            assert(built_from(three, d, env) == match limit_clause_of(env, tree.limit) {
                Err(e) => Err::<QueryView, ValueErrorView>(e),
                Ok(limit) => Ok(QueryView { limit, ..three }),
            }) by {
                reveal_with_fuel(built_from, 3);
                if d.len() > 0 {
                    assert(d.drop_first() =~= Seq::<BuilderOpView>::empty());
                }
            }
        },
    }
}

} // verus!
