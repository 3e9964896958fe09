//! From the text of a query to the built query, in one call.

use vstd::prelude::*;
use crate::assemble::{build, built, result_view};
use crate::parser::{parse, parsed};
use crate::query::{Query, QueryView};
use crate::text::views;
use crate::token::SyntaxError;
use crate::translate::{
    translate, translated, Entity, EntityView, UnknownFieldError, UnknownFieldErrorView,
};
use crate::value::{Binding, BindingView, ValueError, ValueErrorView};

verus! {

/// Why no query could be made of a text.
#[derive(Debug, PartialEq, Eq)]
pub enum QueryError {
    /// The text is not in the language.
    Syntax(SyntaxError),
    /// The text names a field that the target does not have.
    UnknownField(UnknownFieldError),
    /// A value term of the text could not be turned into text.
    Value(ValueError),
}

/// What a [`QueryError`] holds.
pub enum QueryErrorView {
    Syntax(SyntaxError),
    UnknownField(UnknownFieldErrorView),
    Value(ValueErrorView),
}

impl View for QueryError {
    type V = QueryErrorView;

    open spec fn view(&self) -> QueryErrorView {
        match self {
            QueryError::Syntax(e) => QueryErrorView::Syntax(*e),
            QueryError::UnknownField(e) => QueryErrorView::UnknownField(e@),
            QueryError::Value(e) => QueryErrorView::Value(e@),
        }
    }
}

/// The query that a text makes on a target, with its names bound by `env`:
/// the text is parsed, the tree is translated for the target, and the
/// operations are applied to an empty builder for the target's collection.
/// The first stage that fails decides the error.
pub open spec fn compiled(s: Seq<char>, entity: EntityView, env: Seq<BindingView>) -> Result<
    QueryView,
    QueryErrorView,
> {
    match parsed(s) {
        Err(e) => Err(QueryErrorView::Syntax(e)),
        Ok(tree) => match translated(tree, entity) {
            Err(e) => Err(QueryErrorView::UnknownField(e)),
            Ok(ops) => match built(entity.name, ops, env) {
                Err(e) => Err(QueryErrorView::Value(e)),
                Ok(q) => Ok(q),
            },
        },
    }
}

/// Makes the query that `text` spells, for the records that `entity`
/// describes, with the names of its value terms bound by `env`.
///
/// The type that the text names after `from` is not resolved here: the
/// caller picks `entity` for it. On any error no query is returned.
pub fn qb_sql(text: &str, entity: &Entity, env: &Vec<Binding>) -> (r: Result<Query, QueryError>)
    ensures
        result_view(r) == compiled(text@, entity@, views(env@)),
{
    let tree = match parse(text) {
        Err(e) => {
            return Err(QueryError::Syntax(e));
        },
        Ok(tree) => tree,
    };
    let ops = match translate(&tree, entity) {
        Err(e) => {
            return Err(QueryError::UnknownField(e));
        },
        Ok(ops) => ops,
    };
    match build(entity.name.as_str(), &ops, env) {
        Err(e) => Err(QueryError::Value(e)),
        Ok(query) => Ok(query),
    }
}

} // verus!
