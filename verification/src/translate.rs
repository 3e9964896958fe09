//! The translator: from a syntax tree to the builder operations that make
//! its query, after every field that the tree names was found on the target.

use vstd::prelude::*;
use crate::ast::{
    clone_terms, limit_view, order_by_view, term_view, Condition, ConditionView, FieldSelection,
    FieldSelectionView, LimitSpec, LimitSpecView, OrderTerm, OrderTermView, ParsedQuery,
    ParsedQueryView, ValueTerm, ValueTermView,
};
use crate::normalize::{normalize, normalized};
use crate::query::{Operator, Order};
use crate::text::{texts, views};

verus! {

/// What the translator needs to know of the record type that a query reads:
/// the name of its collection, and the names of its attributes, both as the
/// remote schema spells them.
#[derive(Debug, PartialEq, Eq)]
pub struct Entity {
    pub name: String,
    pub attributes: Vec<String>,
}

/// What an [`Entity`] holds.
pub struct EntityView {
    pub name: Seq<char>,
    pub attributes: Seq<Seq<char>>,
}

impl View for Entity {
    type V = EntityView;

    open spec fn view(&self) -> EntityView {
        EntityView { name: self.name@, attributes: texts(self.attributes@) }
    }
}

impl EntityView {
    /// Whether the external name of `identifier` is an attribute.
    pub open spec fn knows(self, identifier: Seq<char>) -> bool {
        self.attributes.contains(normalized(identifier))
    }
}

impl Entity {
    /// The name of the collection that holds the records.
    pub fn name(&self) -> (name: &String)
        ensures
            name@ == self@.name,
    {
        &self.name
    }

    /// Whether the records have an attribute of this external name.
    pub fn has_attribute(&self, name: &String) -> (b: bool)
        ensures
            b == self@.attributes.contains(name@),
    {
        let n: usize = self.attributes.len();
        for i in 0..n
            invariant
                n == self.attributes.len(),
                forall|k: int| 0 <= k < i ==> (#[trigger] self@.attributes[k]) != name@,
        {
            if self.attributes[i] == *name {
                assert(self@.attributes[i as int] == name@);
                return true;
            }
        }
        false
    }
}

/// One step of building a query. Field names are external names; value
/// terms are still as the text wrote them.
#[derive(Debug, PartialEq, Eq)]
pub enum BuilderOp {
    SetFields(Vec<String>),
    AddCondition { field: String, operator: Operator, values: Vec<ValueTerm> },
    AddOrder { field: String, order: Order },
    SetLimit { count: String, offset: Option<ValueTerm> },
}

/// What a [`BuilderOp`] holds.
pub enum BuilderOpView {
    SetFields(Seq<Seq<char>>),
    AddCondition { field: Seq<char>, operator: Operator, values: Seq<ValueTermView> },
    AddOrder { field: Seq<char>, order: Order },
    SetLimit { count: Seq<char>, offset: Option<ValueTermView> },
}

impl View for BuilderOp {
    type V = BuilderOpView;

    open spec fn view(&self) -> BuilderOpView {
        match self {
            BuilderOp::SetFields(names) => BuilderOpView::SetFields(texts(names@)),
            BuilderOp::AddCondition { field, operator, values } => BuilderOpView::AddCondition {
                field: field@,
                operator: *operator,
                values: views(values@),
            },
            BuilderOp::AddOrder { field, order } => BuilderOpView::AddOrder {
                field: field@,
                order: *order,
            },
            BuilderOp::SetLimit { count, offset } => BuilderOpView::SetLimit {
                count: count@,
                offset: term_view(*offset),
            },
        }
    }
}

impl BuilderOpView {
    /// Every comparison but `In` takes exactly one value term.
    pub open spec fn wf(self) -> bool {
        self matches BuilderOpView::AddCondition { operator, values, .. } ==> (operator
            != Operator::In ==> values.len() == 1)
    }
}

/// Whether every operation of `ops` is well formed.
pub open spec fn all_wf(ops: Seq<BuilderOpView>) -> bool {
    forall|k: int| 0 <= k < ops.len() ==> (#[trigger] ops[k]).wf()
}

/// A query names a field that its target does not have. `field` is the
/// identifier as the query wrote it.
#[derive(Debug, PartialEq, Eq)]
pub struct UnknownFieldError {
    pub field: String,
}

/// What an [`UnknownFieldError`] holds.
pub struct UnknownFieldErrorView {
    pub field: Seq<char>,
}

impl View for UnknownFieldError {
    type V = UnknownFieldErrorView;

    open spec fn view(&self) -> UnknownFieldErrorView {
        UnknownFieldErrorView { field: self.field@ }
    }
}

/// The identifiers of a selection.
pub open spec fn selected(fields: FieldSelectionView) -> Seq<Seq<char>> {
    match fields {
        FieldSelectionView::All => Seq::empty(),
        FieldSelectionView::Specific(names) => names,
    }
}

/// The identifiers of an optional `order by` clause.
pub open spec fn ordered(order_by: Option<Seq<OrderTermView>>) -> Seq<Seq<char>> {
    match order_by {
        None => Seq::empty(),
        Some(terms) => terms.map_values(|t: OrderTermView| t.field),
    }
}

/// Every field identifier of a tree: those of the selection, then those of
/// the conditions, then those of the order terms.
pub open spec fn referenced(q: ParsedQueryView) -> Seq<Seq<char>> {
    selected(q.fields) + q.conditions.map_values(|c: ConditionView| c.field) + ordered(q.order_by)
}

/// The first of `identifiers` that `entity` does not know.
pub open spec fn first_unknown(entity: EntityView, identifiers: Seq<Seq<char>>) -> Option<Seq<char>>
    decreases identifiers.len(),
{
    if identifiers.len() == 0 {
        None
    } else if !entity.knows(identifiers[0]) {
        Some(identifiers[0])
    } else {
        first_unknown(entity, identifiers.drop_first())
    }
}

/// The operation of a selection: none for a star, else one that sets the
/// external names of the listed fields.
pub open spec fn selection_ops(fields: FieldSelectionView) -> Seq<BuilderOpView> {
    match fields {
        FieldSelectionView::All => Seq::empty(),
        FieldSelectionView::Specific(names) => seq![
            BuilderOpView::SetFields(names.map_values(|n: Seq<char>| normalized(n))),
        ],
    }
}

/// The operation of a condition.
pub open spec fn condition_op(c: ConditionView) -> BuilderOpView {
    BuilderOpView::AddCondition {
        field: normalized(c.field),
        operator: c.operator,
        values: c.values,
    }
}

/// The direction of an order term: ascending where the text names none.
pub open spec fn direction_of(direction: Option<Order>) -> Order {
    match direction {
        Some(order) => order,
        None => Order::Asc,
    }
}

/// The operation of an order term.
pub open spec fn order_op(t: OrderTermView) -> BuilderOpView {
    BuilderOpView::AddOrder { field: normalized(t.field), order: direction_of(t.direction) }
}

/// The operations of an optional `order by` clause.
pub open spec fn order_ops(order_by: Option<Seq<OrderTermView>>) -> Seq<BuilderOpView> {
    match order_by {
        None => Seq::empty(),
        Some(terms) => terms.map_values(|t: OrderTermView| order_op(t)),
    }
}

/// The operation of an optional limit.
pub open spec fn limit_ops(limit: Option<LimitSpecView>) -> Seq<BuilderOpView> {
    match limit {
        None => Seq::empty(),
        Some(l) => seq![BuilderOpView::SetLimit { count: l.count, offset: l.offset }],
    }
}

/// The operations of a tree, in the order selection, conditions, order
/// terms, limit.
pub open spec fn operations(q: ParsedQueryView) -> Seq<BuilderOpView> {
    selection_ops(q.fields) + q.conditions.map_values(|c: ConditionView| condition_op(c))
        + order_ops(q.order_by) + limit_ops(q.limit)
}

/// The translation of a tree for a target: an error for the first field
/// that the target does not have, else the operations of the tree.
pub open spec fn translated(q: ParsedQueryView, entity: EntityView) -> Result<
    Seq<BuilderOpView>,
    UnknownFieldErrorView,
> {
    match first_unknown(entity, referenced(q)) {
        Some(field) => Err(UnknownFieldErrorView { field }),
        None => Ok(operations(q)),
    }
}

/// The translation fails exactly when some referenced field is unknown.
pub proof fn lemma_first_unknown(entity: EntityView, identifiers: Seq<Seq<char>>)
    ensures
        first_unknown(entity, identifiers) is None <==> forall|k: int|
            0 <= k < identifiers.len() ==> entity.knows(#[trigger] identifiers[k]),
        first_unknown(entity, identifiers) matches Some(field) ==> identifiers.contains(field)
            && !entity.knows(field),
    decreases identifiers.len(),
{
    if identifiers.len() > 0 {
        let rest = identifiers.drop_first();
        lemma_first_unknown(entity, rest);
        if entity.knows(identifiers[0]) {
            if first_unknown(entity, rest) is None {
                assert forall|k: int| 0 <= k < identifiers.len() implies entity.knows(
                    #[trigger] identifiers[k],
                ) by {
                    if k > 0 {
                        assert(identifiers[k] == rest[k - 1]);
                    }
                }
            } else {
                let field = first_unknown(entity, rest)->Some_0;
                let k = choose|k: int| 0 <= k < rest.len() && rest[k] == field;
                assert(identifiers[k + 1] == field);
            }
        }
    }
}

/// The operations of a well-formed tree are well formed.
pub proof fn lemma_operations_wf(q: ParsedQueryView)
    requires
        q.wf(),
    ensures
        all_wf(operations(q)),
{
    let a = selection_ops(q.fields);
    let b = q.conditions.map_values(|c: ConditionView| condition_op(c));
    let c = order_ops(q.order_by);
    let d = limit_ops(q.limit);
    assert forall|k: int| 0 <= k < operations(q).len() implies (#[trigger] operations(q)[k]).wf() by {
        if k < a.len() {
            assert(operations(q)[k] == a[k]);
        } else if k < a.len() + b.len() {
            assert(operations(q)[k] == b[k - a.len()]);
            assert(q.conditions[k - a.len()].wf());
        } else if k < a.len() + b.len() + c.len() {
            assert(operations(q)[k] == c[k - a.len() - b.len()]);
        } else {
            assert(operations(q)[k] == d[k - a.len() - b.len() - c.len()]);
        }
    }
}

/// The field identifiers that `ast` names, in the order selection,
/// conditions, order terms.
pub fn referenced_fields(ast: &ParsedQuery) -> (out: Vec<String>)
    ensures
        texts(out@) == referenced(ast@),
{
    let mut out: Vec<String> = Vec::new();
    assert(texts(out@) =~= Seq::empty());
    match &ast.fields {
        FieldSelection::All => {},
        FieldSelection::Specific(names) => {
            let n: usize = names.len();
            for i in 0..n
                invariant
                    n == names.len(),
                    texts(out@) =~= texts(names@).take(i as int),
            {
                let ghost before = out@;
                let name = names[i].clone();
                out.push(name);
                assert(texts(out@) =~= texts(before).push(name@));
            }
            assert(texts(names@).take(n as int) =~= texts(names@));
        },
    }
    assert(texts(out@) =~= selected(ast@.fields));
    let ghost fields = ast@.conditions.map_values(|c: ConditionView| c.field);
    let nc: usize = ast.conditions.len();
    for i in 0..nc
        invariant
            nc == ast.conditions.len(),
            fields == ast@.conditions.map_values(|c: ConditionView| c.field),
            texts(out@) =~= selected(ast@.fields) + fields.take(i as int),
    {
        let ghost before = out@;
        let name = ast.conditions[i].field.clone();
        out.push(name);
        assert(texts(out@) =~= texts(before).push(name@));
        assert(fields.take(i + 1) =~= fields.take(i as int).push(name@));
    }
    assert(fields.take(nc as int) =~= fields);
    match &ast.order_by {
        None => {},
        Some(terms) => {
            let ghost names = ordered(ast@.order_by);
            let n: usize = terms.len();
            for i in 0..n
                invariant
                    n == terms.len(),
                    names == views(terms@).map_values(|t: OrderTermView| t.field),
                    texts(out@) =~= selected(ast@.fields) + fields + names.take(i as int),
            {
                let ghost before = out@;
                let name = terms[i].field.clone();
                out.push(name);
                assert(texts(out@) =~= texts(before).push(name@));
                assert(names.take(i + 1) =~= names.take(i as int).push(name@));
            }
            assert(names.take(n as int) =~= names);
        },
    }
    assert(texts(out@) =~= referenced(ast@));
    out
}

/// Looks each identifier up on the target, under its external name, and
/// reports the first that the target does not have.
pub fn check_fields(entity: &Entity, identifiers: &Vec<String>) -> (r: Result<(), UnknownFieldError>)
    ensures
        match r {
            Ok(_) => first_unknown(entity@, texts(identifiers@)) is None,
            Err(e) => first_unknown(entity@, texts(identifiers@)) == Some(e@.field),
        },
{
    let ghost all = texts(identifiers@);
    let n: usize = identifiers.len();
    assert(all.skip(0) =~= all);
    for i in 0..n
        invariant
            n == identifiers.len(),
            all == texts(identifiers@),
            first_unknown(entity@, all) == first_unknown(entity@, all.skip(i as int)),
    {
        assert(all.skip(i as int).drop_first() =~= all.skip(i + 1));
        let name = normalize(identifiers[i].as_str());
        if !entity.has_attribute(&name) {
            return Err(UnknownFieldError { field: identifiers[i].clone() });
        }
    }
    Ok(())
}

/// The outcome of the translator, with operations and error as their views.
pub open spec fn translation_view(r: Result<Vec<BuilderOp>, UnknownFieldError>) -> Result<
    Seq<BuilderOpView>,
    UnknownFieldErrorView,
> {
    match r {
        Ok(ops) => Ok(views(ops@)),
        Err(e) => Err(e@),
    }
}

fn push_selection(ops: &mut Vec<BuilderOp>, fields: &FieldSelection)
    ensures
        views(final(ops)@) == views(old(ops)@) + selection_ops(fields@),
{
    match fields {
        FieldSelection::All => {
            assert(views(ops@) =~= views(old(ops)@) + selection_ops(fields@));
        },
        FieldSelection::Specific(names) => {
            let mut external: Vec<String> = Vec::new();
            let ghost wanted = texts(names@).map_values(|n: Seq<char>| normalized(n));
            let n: usize = names.len();
            assert(texts(external@) =~= wanted.take(0));
            for i in 0..n
                invariant
                    n == names.len(),
                    wanted == texts(names@).map_values(|n: Seq<char>| normalized(n)),
                    texts(external@) =~= wanted.take(i as int),
            {
                let ghost before = external@;
                let name = normalize(names[i].as_str());
                external.push(name);
                assert(texts(external@) =~= texts(before).push(name@));
                assert(wanted.take(i + 1) =~= wanted.take(i as int).push(name@));
            }
            assert(wanted.take(n as int) =~= wanted);
            let op = BuilderOp::SetFields(external);
            ops.push(op);
            assert(views(ops@) =~= views(old(ops)@) + seq![op@]);
        },
    }
}

fn push_conditions(ops: &mut Vec<BuilderOp>, conditions: &Vec<Condition>)
    ensures
        views(final(ops)@) == views(old(ops)@) + views(conditions@).map_values(
            |c: ConditionView| condition_op(c),
        ),
{
    let ghost parts = views(conditions@).map_values(|c: ConditionView| condition_op(c));
    let n: usize = conditions.len();
    assert(views(ops@) =~= views(old(ops)@) + parts.take(0));
    for i in 0..n
        invariant
            n == conditions.len(),
            parts == views(conditions@).map_values(|c: ConditionView| condition_op(c)),
            views(ops@) =~= views(old(ops)@) + parts.take(i as int),
    {
        let ghost before = ops@;
        let c = &conditions[i];
        let op = BuilderOp::AddCondition {
            field: normalize(c.field.as_str()),
            operator: c.operator,
            values: clone_terms(&c.values),
        };
        ops.push(op);
        assert(views(ops@) =~= views(before).push(op@));
        assert(parts.take(i + 1) =~= parts.take(i as int).push(op@));
    }
    assert(parts.take(n as int) =~= parts);
}

fn push_orders(ops: &mut Vec<BuilderOp>, order_by: &Option<Vec<OrderTerm>>)
    ensures
        views(final(ops)@) == views(old(ops)@) + order_ops(order_by_view(*order_by)),
{
    match order_by {
        None => {
            assert(views(ops@) =~= views(old(ops)@) + order_ops(order_by_view(*order_by)));
        },
        Some(terms) => {
            let ghost parts = order_ops(order_by_view(*order_by));
            let n: usize = terms.len();
            assert(views(ops@) =~= views(old(ops)@) + parts.take(0));
            for i in 0..n
                invariant
                    n == terms.len(),
                    parts == views(terms@).map_values(|t: OrderTermView| order_op(t)),
                    views(ops@) =~= views(old(ops)@) + parts.take(i as int),
            {
                let ghost before = ops@;
                let term = &terms[i];
                let op = BuilderOp::AddOrder {
                    field: normalize(term.field.as_str()),
                    order: match term.direction {
                        Some(order) => order,
                        None => Order::Asc,
                    },
                };
                ops.push(op);
                assert(views(ops@) =~= views(before).push(op@));
                assert(parts.take(i + 1) =~= parts.take(i as int).push(op@));
            }
            assert(parts.take(n as int) =~= parts);
        },
    }
}

fn push_limit(ops: &mut Vec<BuilderOp>, limit: &Option<LimitSpec>)
    ensures
        views(final(ops)@) == views(old(ops)@) + limit_ops(limit_view(*limit)),
{
    match limit {
        None => {
            assert(views(ops@) =~= views(old(ops)@) + limit_ops(limit_view(*limit)));
        },
        Some(limit) => {
            let op = BuilderOp::SetLimit {
                count: limit.count.clone(),
                offset: match &limit.offset {
                    Some(term) => Some(term.clone()),
                    None => None,
                },
            };
            ops.push(op);
            assert(views(ops@) =~= views(old(ops)@) + seq![op@]);
        },
    }
}

/// Translates a tree into the operations that build its query on `entity`.
///
/// Every field identifier of the tree is first looked up on the target,
/// under its external name. The translation fails for the first identifier
/// that the target does not have, and then gives no operation at all.
pub fn translate(ast: &ParsedQuery, entity: &Entity) -> (r: Result<
    Vec<BuilderOp>,
    UnknownFieldError,
>)
    ensures
        translation_view(r) == translated(ast@, entity@),
        r is Err <==> exists|k: int|
            0 <= k < referenced(ast@).len() && !entity@.knows(#[trigger] referenced(ast@)[k]),
        ast@.wf() ==> (r matches Ok(ops) ==> all_wf(views(ops@))),
{
    proof {
        lemma_first_unknown(entity@, referenced(ast@));
        if ast@.wf() {
            lemma_operations_wf(ast@);
        }
    }
    let identifiers = referenced_fields(ast);
    match check_fields(entity, &identifiers) {
        Err(e) => {
            return Err(e);
        },
        Ok(_) => {},
    }
    let mut ops: Vec<BuilderOp> = Vec::new();
    assert(views(ops@) =~= Seq::empty());
    push_selection(&mut ops, &ast.fields);
    push_conditions(&mut ops, &ast.conditions);
    push_orders(&mut ops, &ast.order_by);
    push_limit(&mut ops, &ast.limit);
    assert(views(ops@) =~= operations(ast@));
    Ok(ops)
}

} // verus!
