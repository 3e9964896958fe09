//! The query builder: an accumulator of selected fields, conditions, order
//! terms and a limit, and the rendering of what it holds as a query string.

use vstd::prelude::*;
use vstd::string::*;
use crate::text::{
    clone_texts, decimal, joined, lemma_joined_step, push_decimal, texts, views,
};

verus! {

/// The comparison of a condition.
#[derive(Debug, Clone, Copy, PartialEq, Eq, Structural)]
pub enum Operator {
    In,
    Like,
    Equal,
    Less,
    Greater,
    LessEqual,
    GreaterEqual,
}

/// The direction of an order term.
#[derive(Debug, Clone, Copy, PartialEq, Eq, Structural)]
pub enum Order {
    Asc,
    Desc,
}

/// How many records to return, and how many to skip first.
#[derive(Debug, Clone, Copy, PartialEq, Eq, Structural)]
pub struct Limit {
    pub number: u32,
    pub offset: Option<u32>,
}

/// One term of the `order by` clause.
#[derive(Debug, PartialEq, Eq)]
pub struct OrderClause {
    pub field: String,
    pub order: Order,
}

/// One condition of the `where` clause: a field, a comparison, and the
/// values, already in their textual form.
#[derive(Debug, PartialEq, Eq)]
pub struct WhereClause {
    pub field: String,
    pub operator: Operator,
    pub values: Vec<String>,
}

/// A query under construction for one collection of records.
#[derive(Debug, PartialEq, Eq)]
pub struct Query {
    collection: String,
    fields: Vec<String>,
    condition: Vec<WhereClause>,
    order: Vec<OrderClause>,
    limit: Option<Limit>,
}

/// What an [`OrderClause`] holds.
pub struct OrderClauseView {
    pub field: Seq<char>,
    pub order: Order,
}

/// What a [`WhereClause`] holds.
pub struct WhereClauseView {
    pub field: Seq<char>,
    pub operator: Operator,
    pub values: Seq<Seq<char>>,
}

/// What a [`Query`] holds.
pub struct QueryView {
    pub collection: Seq<char>,
    pub fields: Seq<Seq<char>>,
    pub conditions: Seq<WhereClauseView>,
    pub orders: Seq<OrderClauseView>,
    pub limit: Option<Limit>,
}

impl View for OrderClause {
    type V = OrderClauseView;

    open spec fn view(&self) -> OrderClauseView {
        OrderClauseView { field: self.field@, order: self.order }
    }
}

impl View for WhereClause {
    type V = WhereClauseView;

    open spec fn view(&self) -> WhereClauseView {
        WhereClauseView { field: self.field@, operator: self.operator, values: texts(self.values@) }
    }
}

impl Clone for OrderClause {
    fn clone(&self) -> (out: OrderClause)
        ensures
            out@ == self@,
    {
        OrderClause { field: self.field.clone(), order: self.order }
    }
}

impl Clone for WhereClause {
    fn clone(&self) -> (out: WhereClause)
        ensures
            out@ == self@,
    {
        WhereClause {
            field: self.field.clone(),
            operator: self.operator,
            values: clone_texts(&self.values),
        }
    }
}

impl WhereClauseView {
    /// Every comparison but `In` takes exactly one value.
    pub open spec fn wf(self) -> bool {
        self.operator != Operator::In ==> self.values.len() == 1
    }
}

/// How a comparison is written in a rendered query.
pub open spec fn operator_text(op: Operator) -> Seq<char> {
    match op {
        Operator::In => "IN"@,
        Operator::Like => "LIKE"@,
        Operator::Equal => "="@,
        Operator::Less => "<"@,
        Operator::Greater => ">"@,
        Operator::LessEqual => "<="@,
        Operator::GreaterEqual => ">="@,
    }
}

/// How a direction is written in a rendered query.
pub open spec fn direction_text(order: Order) -> Seq<char> {
    match order {
        Order::Asc => "ASC"@,
        Order::Desc => "DESC"@,
    }
}

/// A value between single quotes. The value is opaque text: nothing in it is
/// escaped.
pub open spec fn quoted(value: Seq<char>) -> Seq<char> {
    "'"@ + value + "'"@
}

/// The rendered form of one condition, with its leading space.
pub open spec fn condition_text(c: WhereClauseView) -> Seq<char> {
    if c.operator == Operator::In {
        " "@ + c.field + " IN ("@ + joined(c.values.map_values(|v: Seq<char>| quoted(v)), ", "@)
            + ")"@
    } else {
        " "@ + c.field + " "@ + operator_text(c.operator) + " "@ + quoted(c.values[0])
    }
}

/// The rendered form of one order term, with its leading space.
pub open spec fn order_text(o: OrderClauseView) -> Seq<char> {
    " "@ + o.field + " "@ + direction_text(o.order)
}

/// The rendered form of the limit, with its leading space.
pub open spec fn limit_text(l: Limit) -> Seq<char> {
    " LIMIT "@ + decimal(l.number as nat) + match l.offset {
        Some(offset) => " OFFSET "@ + decimal(offset as nat),
        None => Seq::empty(),
    }
}

/// The `select` section: a star where no field was selected, else the fields
/// in selection order.
pub open spec fn select_section(fields: Seq<Seq<char>>) -> Seq<char> {
    if fields.len() == 0 {
        "select *"@
    } else {
        "select "@ + joined(fields, ", "@)
    }
}

/// The `where` section: absent without conditions, else the conditions in
/// insertion order, joined by `and`.
pub open spec fn where_section(conditions: Seq<WhereClauseView>) -> Seq<char> {
    if conditions.len() == 0 {
        Seq::empty()
    } else {
        " where"@ + joined(conditions.map_values(|c: WhereClauseView| condition_text(c)), " and"@)
    }
}

/// The `order by` section: absent without order terms, else the terms in
/// insertion order, joined by a comma.
pub open spec fn order_section(orders: Seq<OrderClauseView>) -> Seq<char> {
    if orders.len() == 0 {
        Seq::empty()
    } else {
        " order by"@ + joined(orders.map_values(|o: OrderClauseView| order_text(o)), ","@)
    }
}

/// The limit section: absent where no limit was set.
pub open spec fn limit_section(limit: Option<Limit>) -> Seq<char> {
    match limit {
        Some(l) => limit_text(l),
        None => Seq::empty(),
    }
}

/// The query string of a builder state: the sections in the fixed order
/// select, from, where, order by, limit.
pub open spec fn query_text(q: QueryView) -> Seq<char> {
    select_section(q.fields) + " from "@ + q.collection + where_section(q.conditions)
        + order_section(q.orders) + limit_section(q.limit)
}

fn operator_str(op: Operator) -> (s: &'static str)
    ensures
        s@ == operator_text(op),
{
    match op {
        Operator::In => "IN",
        Operator::Like => "LIKE",
        Operator::Equal => "=",
        Operator::Less => "<",
        Operator::Greater => ">",
        Operator::LessEqual => "<=",
        Operator::GreaterEqual => ">=",
    }
}

impl Limit {
    /// Appends the rendered limit to `query`.
    pub fn extend_query(&self, query: &mut String)
        ensures
            final(query)@ == old(query)@ + limit_text(*self),
    {
        query.append(" LIMIT ");
        push_decimal(query, self.number);
        if let Some(offset) = self.offset {
            query.append(" OFFSET ");
            push_decimal(query, offset);
        }
        assert(query@ =~= old(query)@ + limit_text(*self));
    }
}

impl OrderClause {
    /// Appends the rendered order term to `query`.
    pub fn extend_query(&self, query: &mut String)
        ensures
            final(query)@ == old(query)@ + order_text(self@),
    {
        query.append(" ");
        query.append(self.field.as_str());
        query.append(" ");
        query.append(
            match self.order {
                Order::Asc => "ASC",
                Order::Desc => "DESC",
            },
        );
        assert(query@ =~= old(query)@ + order_text(self@));
    }
}

impl WhereClause {
    /// Appends the rendered condition to `query`.
    pub fn extend_query(&self, query: &mut String)
        requires
            self@.wf(),
        ensures
            final(query)@ == old(query)@ + condition_text(self@),
    {
        query.append(" ");
        query.append(self.field.as_str());
        match self.operator {
            Operator::In => {
                query.append(" IN (");
                let ghost head = query@;
                let ghost parts = self@.values.map_values(|v: Seq<char>| quoted(v));
                let n: usize = self.values.len();
                for i in 0..n
                    invariant
                        n == self.values.len(),
                        parts == self@.values.map_values(|v: Seq<char>| quoted(v)),
                        query@ == head + joined(parts.take(i as int), ", "@),
                {
                    proof {
                        lemma_joined_step(parts, ", "@, i as int);
                    }
                    if i > 0 {
                        query.append(", ");
                    }
                    query.append("'");
                    query.append(self.values[i].as_str());
                    query.append("'");
                    assert(query@ =~= head + joined(parts.take(i + 1), ", "@));
                }
                query.append(")");
                assert(parts.take(n as int) =~= parts);
                assert(query@ =~= old(query)@ + condition_text(self@));
            },
            _ => {
                query.append(" ");
                query.append(operator_str(self.operator));
                query.append(" ");
                query.append("'");
                query.append(self.values[0].as_str());
                query.append("'");
                assert(query@ =~= old(query)@ + condition_text(self@));
            },
        }
    }
}

impl View for Query {
    type V = QueryView;

    closed spec fn view(&self) -> QueryView {
        QueryView {
            collection: self.collection@,
            fields: texts(self.fields@),
            conditions: views(self.condition@),
            orders: views(self.order@),
            limit: self.limit,
        }
    }
}

impl QueryView {
    /// Every condition is well formed.
    pub open spec fn wf(self) -> bool {
        forall|i: int| 0 <= i < self.conditions.len() ==> (#[trigger] self.conditions[i]).wf()
    }

    /// The state of a builder that was just made for `collection`.
    pub open spec fn empty(collection: Seq<char>) -> QueryView {
        QueryView {
            collection,
            fields: Seq::empty(),
            conditions: Seq::empty(),
            orders: Seq::empty(),
            limit: None,
        }
    }
}

impl Clone for Query {
    fn clone(&self) -> (out: Query)
        ensures
            out@ == self@,
    {
        proof {
            use_type_invariant(self);
        }
        let mut condition: Vec<WhereClause> = Vec::new();
        let nc: usize = self.condition.len();
        for i in 0..nc
            invariant
                nc == self.condition.len(),
                self.inv(),
                views(condition@) =~= views(self.condition@).take(i as int),
        {
            let ghost before = condition@;
            let item = self.condition[i].clone();
            condition.push(item);
            assert(views(condition@) =~= views(before).push(item@));
            assert(views(self.condition@).take(i + 1) =~= views(
                self.condition@,
            ).take(i as int).push(self.condition@[i as int]@));
        }
        assert(views(self.condition@).take(nc as int) =~= views(
            self.condition@,
        ));
        let mut order: Vec<OrderClause> = Vec::new();
        let no: usize = self.order.len();
        for i in 0..no
            invariant
                no == self.order.len(),
                views(order@) =~= views(self.order@).take(i as int),
        {
            let ghost before = order@;
            let item = self.order[i].clone();
            order.push(item);
            assert(views(order@) =~= views(before).push(item@));
            assert(views(self.order@).take(i + 1) =~= views(self.order@).take(
                i as int,
            ).push(self.order@[i as int]@));
        }
        assert(views(self.order@).take(no as int) =~= views(self.order@));
        assert forall|i: int| 0 <= i < condition@.len() implies (#[trigger] condition@[i])@.wf() by {
            assert(views(condition@)[i] == views(self.condition@)[i]);
        }
        Query {
            collection: self.collection.clone(),
            fields: clone_texts(&self.fields),
            condition,
            order,
            limit: self.limit,
        }
    }
}

impl Query {
    #[verifier::type_invariant]
    spec fn inv(self) -> bool {
        forall|i: int| 0 <= i < self.condition@.len() ==> (#[trigger] self.condition@[i])@.wf()
    }

    /// An empty builder for the collection named `collection`.
    pub fn new(collection: &str) -> (q: Query)
        ensures
            q@ == QueryView::empty(collection@),
    {
        let q = Query {
            collection: String::from_str(collection),
            fields: Vec::new(),
            condition: Vec::new(),
            order: Vec::new(),
            limit: None,
        };
        assert(q@.fields =~= Seq::empty());
        assert(q@.conditions =~= Seq::empty());
        assert(q@.orders =~= Seq::empty());
        q
    }

    /// Selects one more field, after those selected so far.
    pub fn field(self, field: String) -> (q: Query)
        ensures
            q@ == (QueryView { fields: self@.fields.push(field@), ..self@ }),
    {
        proof {
            use_type_invariant(&self);
        }
        let Query { collection, mut fields, condition, order, limit } = self;
        fields.push(field);
        let q = Query { collection, fields, condition, order, limit };
        assert(q@.fields =~= self@.fields.push(field@));
        q
    }

    /// Adds one more condition, after those added so far.
    pub fn condition(self, condition: WhereClause) -> (q: Query)
        requires
            condition@.wf(),
        ensures
            q@ == (QueryView { conditions: self@.conditions.push(condition@), ..self@ }),
    {
        proof {
            use_type_invariant(&self);
        }
        let Query { collection, fields, condition: mut conditions, order, limit } = self;
        conditions.push(condition);
        let q = Query { collection, fields, condition: conditions, order, limit };
        assert(q@.conditions =~= self@.conditions.push(condition@));
        q
    }

    /// Adds one more order term, after those added so far.
    pub fn order(self, field: String, order: Order) -> (q: Query)
        ensures
            q@ == (QueryView {
                orders: self@.orders.push(OrderClauseView { field: field@, order }),
                ..self@
            }),
    {
        proof {
            use_type_invariant(&self);
        }
        let Query { collection, fields, condition, order: mut orders, limit } = self;
        orders.push(OrderClause { field, order });
        let q = Query { collection, fields, condition, order: orders, limit };
        assert(q@.orders =~= self@.orders.push(OrderClauseView { field: field@, order }));
        q
    }

    /// Sets the limit, replacing an earlier one.
    pub fn limit(self, number: u32, offset: Option<u32>) -> (q: Query)
        ensures
            q@ == (QueryView { limit: Some(Limit { number, offset }), ..self@ }),
    {
        proof {
            use_type_invariant(&self);
        }
        let Query { collection, fields, condition, order, limit: _ } = self;
        Query { collection, fields, condition, order, limit: Some(Limit { number, offset }) }
    }

    /// The name of the collection that the query reads.
    pub fn collection(&self) -> (name: &String)
        ensures
            name@ == self@.collection,
    {
        &self.collection
    }

    /// The selected fields, in selection order.
    pub fn fields(&self) -> (fields: &Vec<String>)
        ensures
            texts(fields@) == self@.fields,
    {
        &self.fields
    }

    /// The conditions, in insertion order. Each of them is well formed.
    pub fn conditions(&self) -> (conditions: &Vec<WhereClause>)
        ensures
            views(conditions@) == self@.conditions,
            self@.wf(),
    {
        proof {
            use_type_invariant(self);
        }
        &self.condition
    }

    /// The order terms, in insertion order.
    pub fn orders(&self) -> (orders: &Vec<OrderClause>)
        ensures
            views(orders@) == self@.orders,
    {
        &self.order
    }

    /// The limit, where one was set.
    pub fn limit_clause(&self) -> (limit: Option<Limit>)
        ensures
            limit == self@.limit,
    {
        self.limit
    }

    fn extend_select(&self, query: &mut String)
        ensures
            final(query)@ == old(query)@ + select_section(self@.fields),
    {
        let nf: usize = self.fields.len();
        if nf == 0 {
            query.append("select *");
        } else {
            query.append("select ");
            let ghost head = query@;
            for i in 0..nf
                invariant
                    nf == self.fields.len(),
                    query@ == head + joined(self@.fields.take(i as int), ", "@),
            {
                proof {
                    lemma_joined_step(self@.fields, ", "@, i as int);
                }
                if i > 0 {
                    query.append(", ");
                }
                query.append(self.fields[i].as_str());
                assert(query@ =~= head + joined(self@.fields.take(i + 1), ", "@));
            }
            assert(self@.fields.take(nf as int) =~= self@.fields);
            assert(query@ =~= old(query)@ + select_section(self@.fields));
        }
    }

    fn extend_where(&self, query: &mut String)
        ensures
            final(query)@ == old(query)@ + where_section(self@.conditions),
    {
        proof {
            use_type_invariant(self);
        }
        let nc: usize = self.condition.len();
        if nc > 0 {
            query.append(" where");
            let ghost head = query@;
            let ghost parts = self@.conditions.map_values(|c: WhereClauseView| condition_text(c));
            for i in 0..nc
                invariant
                    nc == self.condition.len(),
                    self.inv(),
                    parts == self@.conditions.map_values(|c: WhereClauseView| condition_text(c)),
                    query@ == head + joined(parts.take(i as int), " and"@),
            {
                proof {
                    lemma_joined_step(parts, " and"@, i as int);
                }
                if i > 0 {
                    query.append(" and");
                }
                self.condition[i].extend_query(query);
                assert(query@ =~= head + joined(parts.take(i + 1), " and"@));
            }
            assert(parts.take(nc as int) =~= parts);
            assert(query@ =~= old(query)@ + where_section(self@.conditions));
        } else {
            assert(query@ =~= old(query)@ + where_section(self@.conditions));
        }
    }

    fn extend_order(&self, query: &mut String)
        ensures
            final(query)@ == old(query)@ + order_section(self@.orders),
    {
        let no: usize = self.order.len();
        if no > 0 {
            query.append(" order by");
            let ghost head = query@;
            let ghost parts = self@.orders.map_values(|o: OrderClauseView| order_text(o));
            for i in 0..no
                invariant
                    no == self.order.len(),
                    parts == self@.orders.map_values(|o: OrderClauseView| order_text(o)),
                    query@ == head + joined(parts.take(i as int), ","@),
            {
                proof {
                    lemma_joined_step(parts, ","@, i as int);
                }
                if i > 0 {
                    query.append(",");
                }
                self.order[i].extend_query(query);
                assert(query@ =~= head + joined(parts.take(i + 1), ","@));
            }
            assert(parts.take(no as int) =~= parts);
            assert(query@ =~= old(query)@ + order_section(self@.orders));
        } else {
            assert(query@ =~= old(query)@ + order_section(self@.orders));
        }
    }

    /// Renders the query string. The builder is only read: a second call
    /// gives the same string.
    pub fn query_string(&self) -> (query: String)
        ensures
            query@ == query_text(self@),
    {
        let mut query = String::new();
        self.extend_select(&mut query);
        query.append(" from ");
        query.append(self.collection.as_str());
        self.extend_where(&mut query);
        self.extend_order(&mut query);
        let ghost ordered = query@;
        if let Some(limit) = &self.limit {
            limit.extend_query(&mut query);
        }
        assert(query@ =~= ordered + limit_section(self@.limit));
        assert(query@ =~= query_text(self@));
        query
    }
}

} // verus!
