//! The syntax tree of a query, as the parser builds it.

use vstd::prelude::*;
use crate::query::{Operator, Order};
use crate::text::{texts, views};

verus! {

/// The forms of a value term.
#[derive(Debug, Clone, Copy, PartialEq, Eq, Structural)]
pub enum TermKind {
    /// An integer literal; the term's text is its digits.
    Integer,
    /// A decimal literal; the term's text is its digits and its point.
    Decimal,
    /// A text literal; the term's text is what stands between the quotes.
    Text,
    /// A name that the caller binds to a value; the term's text is the name.
    Name,
}

/// A value term: opaque to the parser, turned into text when the query is
/// built.
#[derive(Debug, PartialEq, Eq)]
pub struct ValueTerm {
    pub kind: TermKind,
    pub text: String,
}

/// One condition of the `where` clause.
#[derive(Debug, PartialEq, Eq)]
pub struct Condition {
    pub field: String,
    pub operator: Operator,
    pub values: Vec<ValueTerm>,
}

/// One term of the `order by` clause; the direction is absent where the
/// text names none.
#[derive(Debug, PartialEq, Eq)]
pub struct OrderTerm {
    pub field: String,
    pub direction: Option<Order>,
}

/// The `limit` clause: the count as it is written, and the offset term.
#[derive(Debug, PartialEq, Eq)]
pub struct LimitSpec {
    pub count: String,
    pub offset: Option<ValueTerm>,
}

/// The selected fields: all of them, or the listed ones in the order of the
/// text, with repetitions kept.
#[derive(Debug, PartialEq, Eq)]
pub enum FieldSelection {
    All,
    Specific(Vec<String>),
}

/// A parsed query.
#[derive(Debug, PartialEq, Eq)]
pub struct ParsedQuery {
    pub fields: FieldSelection,
    pub target: String,
    pub conditions: Vec<Condition>,
    pub order_by: Option<Vec<OrderTerm>>,
    pub limit: Option<LimitSpec>,
}

/// What a [`ValueTerm`] holds.
pub struct ValueTermView {
    pub kind: TermKind,
    pub text: Seq<char>,
}

/// What a [`Condition`] holds.
pub struct ConditionView {
    pub field: Seq<char>,
    pub operator: Operator,
    pub values: Seq<ValueTermView>,
}

/// What an [`OrderTerm`] holds.
pub struct OrderTermView {
    pub field: Seq<char>,
    pub direction: Option<Order>,
}

/// What a [`LimitSpec`] holds.
pub struct LimitSpecView {
    pub count: Seq<char>,
    pub offset: Option<ValueTermView>,
}

/// What a [`FieldSelection`] holds.
pub enum FieldSelectionView {
    All,
    Specific(Seq<Seq<char>>),
}

/// What a [`ParsedQuery`] holds.
pub struct ParsedQueryView {
    pub fields: FieldSelectionView,
    pub target: Seq<char>,
    pub conditions: Seq<ConditionView>,
    pub order_by: Option<Seq<OrderTermView>>,
    pub limit: Option<LimitSpecView>,
}

impl View for ValueTerm {
    type V = ValueTermView;

    open spec fn view(&self) -> ValueTermView {
        ValueTermView { kind: self.kind, text: self.text@ }
    }
}

impl View for Condition {
    type V = ConditionView;

    open spec fn view(&self) -> ConditionView {
        ConditionView { field: self.field@, operator: self.operator, values: views(self.values@) }
    }
}

impl View for OrderTerm {
    type V = OrderTermView;

    open spec fn view(&self) -> OrderTermView {
        OrderTermView { field: self.field@, direction: self.direction }
    }
}

impl View for LimitSpec {
    type V = LimitSpecView;

    open spec fn view(&self) -> LimitSpecView {
        LimitSpecView { count: self.count@, offset: term_view(self.offset) }
    }
}

impl View for FieldSelection {
    type V = FieldSelectionView;

    open spec fn view(&self) -> FieldSelectionView {
        match self {
            FieldSelection::All => FieldSelectionView::All,
            FieldSelection::Specific(names) => FieldSelectionView::Specific(texts(names@)),
        }
    }
}

/// What an optional value term holds.
pub open spec fn term_view(term: Option<ValueTerm>) -> Option<ValueTermView> {
    match term {
        Some(term) => Some(term@),
        None => None,
    }
}

/// What an optional list of order terms holds.
pub open spec fn order_by_view(order_by: Option<Vec<OrderTerm>>) -> Option<Seq<OrderTermView>> {
    match order_by {
        Some(terms) => Some(views(terms@)),
        None => None,
    }
}

/// What an optional limit holds.
pub open spec fn limit_view(limit: Option<LimitSpec>) -> Option<LimitSpecView> {
    match limit {
        Some(limit) => Some(limit@),
        None => None,
    }
}

impl View for ParsedQuery {
    type V = ParsedQueryView;

    open spec fn view(&self) -> ParsedQueryView {
        ParsedQueryView {
            fields: self.fields@,
            target: self.target@,
            conditions: views(self.conditions@),
            order_by: order_by_view(self.order_by),
            limit: limit_view(self.limit),
        }
    }
}

impl Clone for ValueTerm {
    fn clone(&self) -> (out: ValueTerm)
        ensures
            out@ == self@,
    {
        ValueTerm { kind: self.kind, text: self.text.clone() }
    }
}

/// A copy of `terms` that holds the same terms in the same order.
pub fn clone_terms(terms: &Vec<ValueTerm>) -> (out: Vec<ValueTerm>)
    ensures
        views(out@) == views(terms@),
{
    let mut out: Vec<ValueTerm> = Vec::new();
    let n: usize = terms.len();
    for i in 0..n
        invariant
            n == terms.len(),
            views(out@) =~= views(terms@).take(i as int),
    {
        let ghost before = out@;
        let item = terms[i].clone();
        out.push(item);
        assert(views(out@) =~= views(before).push(item@));
        assert(views(terms@).take(i + 1) =~= views(terms@).take(i as int).push(terms@[i as int]@));
    }
    assert(views(terms@).take(n as int) =~= views(terms@));
    out
}

impl ConditionView {
    /// A condition has a value; every comparison but `In` has exactly one.
    pub open spec fn wf(self) -> bool {
        &&& self.values.len() >= 1
        &&& self.operator != Operator::In ==> self.values.len() == 1
    }

    /// An `In` condition with a single term: the term stands for a whole
    /// sequence of values, known only when the query is built.
    pub open spec fn is_spread(self) -> bool {
        self.operator == Operator::In && self.values.len() == 1
    }
}

impl ParsedQueryView {
    /// What the grammar guarantees of a tree: a listed selection is not
    /// empty, there is at least one condition, each condition is well
    /// formed, and an `order by` clause has at least one term.
    pub open spec fn wf(self) -> bool {
        &&& self.fields matches FieldSelectionView::Specific(names) ==> names.len() >= 1
        &&& self.conditions.len() >= 1
        &&& forall|i: int| 0 <= i < self.conditions.len() ==> (#[trigger] self.conditions[i]).wf()
        &&& self.order_by matches Some(terms) ==> terms.len() >= 1
    }
}

} // verus!
