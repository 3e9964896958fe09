use oxibooks_sql::assemble::{apply, build, resolve_scalar, resolve_sequence, resolve_values};
use oxibooks_sql::ast::{FieldSelection, TermKind, ValueTerm};
use oxibooks_sql::parser::parse;
use oxibooks_sql::query::{Limit, Operator, Order, Query};
use oxibooks_sql::sql::{qb_sql, QueryError};
use oxibooks_sql::token::{tokenize, Expected, Found, Keyword, SyntaxError, Token, TokenKind};
use oxibooks_sql::translate::{
    check_fields, referenced_fields, translate, BuilderOp, Entity, UnknownFieldError,
};
use oxibooks_sql::value::{find, Binding, Value, ValueError, ValueErrorKind};

fn customer() -> Entity {
    Entity {
        name: "Customer".to_string(),
        attributes: ["Id", "DisplayName", "Title", "Balance"].iter().map(|a| a.to_string()).collect(),
    }
}

fn scalar(name: &str, value: &str) -> Binding {
    Binding { name: name.to_string(), value: Value::Scalar(value.to_string()) }
}

fn sequence(name: &str, items: &[&str]) -> Binding {
    Binding {
        name: name.to_string(),
        value: Value::Sequence(items.iter().map(|v| v.to_string()).collect()),
    }
}

fn term(kind: TermKind, text: &str) -> ValueTerm {
    ValueTerm { kind, text: text.to_string() }
}

fn syntax_error(text: &str) -> SyntaxError {
    parse(text).unwrap_err()
}

fn unexpected(expected: Expected, found: Found, position: usize) -> SyntaxError {
    SyntaxError { expected, found, position }
}

fn value_error(text: &str, env: Vec<Binding>) -> ValueError {
    match qb_sql(text, &customer(), &env) {
        Err(QueryError::Value(e)) => e,
        other => panic!("{:?}", other),
    }
}

#[test]
fn tokens_carry_kind_and_span() {
    let tokens = tokenize("select a_1<=\"x y\" ,(2.50)*\n>10").unwrap();
    let expected = vec![
        Token { kind: TokenKind::Keyword(Keyword::Select), start: 0, end: 6 },
        Token { kind: TokenKind::Ident, start: 7, end: 10 },
        Token { kind: TokenKind::Less, start: 10, end: 11 },
        Token { kind: TokenKind::Equal, start: 11, end: 12 },
        Token { kind: TokenKind::Text, start: 12, end: 17 },
        Token { kind: TokenKind::Comma, start: 18, end: 19 },
        Token { kind: TokenKind::LParen, start: 19, end: 20 },
        Token { kind: TokenKind::Decimal, start: 20, end: 24 },
        Token { kind: TokenKind::RParen, start: 24, end: 25 },
        Token { kind: TokenKind::Star, start: 25, end: 26 },
        Token { kind: TokenKind::Greater, start: 27, end: 28 },
        Token { kind: TokenKind::Integer, start: 28, end: 30 },
    ];
    assert_eq!(tokens, expected);
}

#[test]
fn every_keyword_is_recognised() {
    let tokens =
        tokenize("select from where and order by limit offset asc desc in like").unwrap();
    let kinds: Vec<TokenKind> = tokens.iter().map(|t| t.kind).collect();
    let expected: Vec<TokenKind> = [
        Keyword::Select,
        Keyword::From,
        Keyword::Where,
        Keyword::And,
        Keyword::Order,
        Keyword::By,
        Keyword::Limit,
        Keyword::Offset,
        Keyword::Asc,
        Keyword::Desc,
        Keyword::In,
        Keyword::Like,
    ]
    .iter()
    .map(|k| TokenKind::Keyword(*k))
    .collect();
    assert_eq!(kinds, expected);
}

#[test]
fn keywords_are_case_sensitive_whole_words() {
    let tokens = tokenize("Select selects in_ LIKE _ x9").unwrap();
    assert!(tokens.iter().all(|t| t.kind == TokenKind::Ident));
    assert_eq!(tokens.len(), 6);
}

#[test]
fn a_point_without_a_digit_is_no_part_of_a_number() {
    assert_eq!(
        tokenize("1."),
        Err(unexpected(Expected::Token, Found::Character('.'), 1))
    );
    let tokens = tokenize("1.5.5").unwrap_err();
    assert_eq!(tokens, unexpected(Expected::Token, Found::Character('.'), 3));
}

#[test]
fn lexical_errors() {
    assert_eq!(
        tokenize("select #"),
        Err(unexpected(Expected::Token, Found::Character('#'), 7))
    );
    assert_eq!(
        tokenize("a = \"abc"),
        Err(unexpected(Expected::ClosingQuote, Found::End, 8))
    );
    assert_eq!(
        tokenize("é"),
        Err(unexpected(Expected::Token, Found::Character('é'), 0))
    );
    assert_eq!(tokenize("  \t\r\n "), Ok(vec![]));
    assert_eq!(tokenize(""), Ok(vec![]));
}

#[test]
fn positions_count_characters() {
    let tokens = tokenize("\"é\" x").unwrap();
    assert_eq!(
        tokens,
        vec![
            Token { kind: TokenKind::Text, start: 0, end: 3 },
            Token { kind: TokenKind::Ident, start: 4, end: 5 },
        ]
    );
}

#[test]
fn a_full_query_is_parsed() {
    let tree = parse(
        "select display_name, balance from Customer
         where display_name like \"John%\" and id in (1, x, 2.5) and balance >= 1000.0
         order by display_name asc, balance desc, id
         limit 10 offset skip",
    )
    .unwrap();
    assert_eq!(
        tree.fields,
        FieldSelection::Specific(vec!["display_name".to_string(), "balance".to_string()])
    );
    assert_eq!(tree.target, "Customer");
    assert_eq!(tree.conditions.len(), 3);
    assert_eq!(tree.conditions[0].field, "display_name");
    assert_eq!(tree.conditions[0].operator, Operator::Like);
    assert_eq!(tree.conditions[0].values, vec![term(TermKind::Text, "John%")]);
    assert_eq!(tree.conditions[1].field, "id");
    assert_eq!(tree.conditions[1].operator, Operator::In);
    assert_eq!(
        tree.conditions[1].values,
        vec![
            term(TermKind::Integer, "1"),
            term(TermKind::Name, "x"),
            term(TermKind::Decimal, "2.5"),
        ]
    );
    assert_eq!(tree.conditions[2].operator, Operator::GreaterEqual);
    assert_eq!(tree.conditions[2].values, vec![term(TermKind::Decimal, "1000.0")]);
    let order_by = tree.order_by.unwrap();
    assert_eq!(order_by.len(), 3);
    assert_eq!(order_by[0].field, "display_name");
    assert_eq!(order_by[0].direction, Some(Order::Asc));
    assert_eq!(order_by[1].direction, Some(Order::Desc));
    assert_eq!(order_by[2].field, "id");
    assert_eq!(order_by[2].direction, None);
    let limit = tree.limit.unwrap();
    assert_eq!(limit.count, "10");
    assert_eq!(limit.offset, Some(term(TermKind::Name, "skip")));
}

#[test]
fn optional_clauses_may_be_absent() {
    let tree = parse("select * from Customer where id = 1").unwrap();
    assert_eq!(tree.fields, FieldSelection::All);
    assert_eq!(tree.order_by, None);
    assert_eq!(tree.limit, None);
    let tree = parse("select * from Customer where id = 1 limit 3").unwrap();
    assert_eq!(tree.order_by, None);
    assert_eq!(tree.limit.unwrap().offset, None);
    let tree = parse("select * from Customer where id = 1 order by id").unwrap();
    assert!(tree.order_by.is_some());
    assert_eq!(tree.limit, None);
}

#[test]
fn operators_are_told_apart_by_one_token_more() {
    let op = |text: &str| parse(text).unwrap().conditions[0].operator;
    assert_eq!(op("select * from C where a = 1"), Operator::Equal);
    assert_eq!(op("select * from C where a < 1"), Operator::Less);
    assert_eq!(op("select * from C where a <= 1"), Operator::LessEqual);
    assert_eq!(op("select * from C where a < = 1"), Operator::LessEqual);
    assert_eq!(op("select * from C where a > 1"), Operator::Greater);
    assert_eq!(op("select * from C where a >= 1"), Operator::GreaterEqual);
    assert_eq!(op("select * from C where a like \"x\""), Operator::Like);
    assert_eq!(op("select * from C where a in (1)"), Operator::In);
    assert_eq!(
        syntax_error("select * from C where a == 1"),
        unexpected(Expected::Value, Found::Token(TokenKind::Equal), 25)
    );
    assert_eq!(
        syntax_error("select * from C where a =< 1"),
        unexpected(Expected::Value, Found::Token(TokenKind::Less), 25)
    );
}

#[test]
fn duplicates_in_the_selection_are_kept() {
    let tree = parse("select id, id, title from Customer where id = 1").unwrap();
    assert_eq!(
        tree.fields,
        FieldSelection::Specific(vec!["id".to_string(), "id".to_string(), "title".to_string()])
    );
}

#[test]
fn a_query_without_a_condition_is_a_syntax_error() {
    assert_eq!(
        syntax_error("select * from Customer"),
        unexpected(Expected::Keyword(Keyword::Where), Found::End, 22)
    );
    assert_eq!(
        syntax_error("select * from Customer where"),
        unexpected(Expected::Identifier, Found::End, 28)
    );
    assert_eq!(
        syntax_error("select * from Customer order by id"),
        unexpected(
            Expected::Keyword(Keyword::Where),
            Found::Token(TokenKind::Keyword(Keyword::Order)),
            23
        )
    );
    assert!(matches!(
        qb_sql("select * from Customer limit 10", &customer(), &vec![]),
        Err(QueryError::Syntax(_))
    ));
}

#[test]
fn syntax_errors_name_what_was_expected() {
    assert_eq!(
        syntax_error(""),
        unexpected(Expected::Keyword(Keyword::Select), Found::End, 0)
    );
    assert_eq!(
        syntax_error("from C"),
        unexpected(
            Expected::Keyword(Keyword::Select),
            Found::Token(TokenKind::Keyword(Keyword::From)),
            0
        )
    );
    assert_eq!(
        syntax_error("select from C where id = 1"),
        unexpected(Expected::Selection, Found::Token(TokenKind::Keyword(Keyword::From)), 7)
    );
    assert_eq!(
        syntax_error("select a, from C where id = 1"),
        unexpected(Expected::Identifier, Found::Token(TokenKind::Keyword(Keyword::From)), 10)
    );
    assert_eq!(
        syntax_error("select * C where id = 1"),
        unexpected(Expected::Keyword(Keyword::From), Found::Token(TokenKind::Ident), 9)
    );
    assert_eq!(
        syntax_error("select * from where id = 1"),
        unexpected(Expected::Identifier, Found::Token(TokenKind::Keyword(Keyword::Where)), 14)
    );
    assert_eq!(
        syntax_error("select * from C where id 1"),
        unexpected(Expected::Operator, Found::Token(TokenKind::Integer), 25)
    );
    assert_eq!(
        syntax_error("select * from C where id ="),
        unexpected(Expected::Value, Found::End, 26)
    );
    assert_eq!(
        syntax_error("select * from C where id in 1"),
        unexpected(Expected::OpenParen, Found::Token(TokenKind::Integer), 28)
    );
    assert_eq!(
        syntax_error("select * from C where id in ()"),
        unexpected(Expected::Value, Found::Token(TokenKind::RParen), 29)
    );
    assert_eq!(
        syntax_error("select * from C where id in (1, 2"),
        unexpected(Expected::CloseParen, Found::End, 33)
    );
    assert_eq!(
        syntax_error("select * from C where id in (1,)"),
        unexpected(Expected::Value, Found::Token(TokenKind::RParen), 31)
    );
    assert_eq!(
        syntax_error("select * from C where id = 1 order display_name"),
        unexpected(Expected::Keyword(Keyword::By), Found::Token(TokenKind::Ident), 35)
    );
    assert_eq!(
        syntax_error("select * from C where id = 1 order by"),
        unexpected(Expected::Identifier, Found::End, 37)
    );
    assert_eq!(
        syntax_error("select * from C where id = 1 limit x"),
        unexpected(Expected::Integer, Found::Token(TokenKind::Ident), 35)
    );
    assert_eq!(
        syntax_error("select * from C where id = 1 limit 10.5"),
        unexpected(Expected::Integer, Found::Token(TokenKind::Decimal), 35)
    );
    assert_eq!(
        syntax_error("select * from C where id = 1 limit 1 offset"),
        unexpected(Expected::Value, Found::End, 43)
    );
    assert_eq!(
        syntax_error("select * from C where id = \"x"),
        unexpected(Expected::ClosingQuote, Found::End, 29)
    );
    assert_eq!(
        syntax_error("select * from C where id = 1;"),
        unexpected(Expected::Token, Found::Character(';'), 28)
    );
}

#[test]
fn only_and_joins_conditions() {
    assert_eq!(
        syntax_error("select * from C where id = 1 or id = 2"),
        unexpected(Expected::End, Found::Token(TokenKind::Ident), 29)
    );
    assert_eq!(
        syntax_error("select * from C where (id = 1)"),
        unexpected(Expected::Identifier, Found::Token(TokenKind::LParen), 22)
    );
    assert_eq!(
        syntax_error("select * from C where id = 1 and"),
        unexpected(Expected::Identifier, Found::End, 32)
    );
}

#[test]
fn limit_may_not_stand_before_order_by() {
    assert_eq!(
        syntax_error("select * from C where id = 1 limit 10 order by id"),
        unexpected(Expected::End, Found::Token(TokenKind::Keyword(Keyword::Order)), 38)
    );
}

#[test]
fn keywords_are_no_identifiers() {
    assert_eq!(
        syntax_error("select * from C where limit = 1"),
        unexpected(Expected::Identifier, Found::Token(TokenKind::Keyword(Keyword::Limit)), 22)
    );
    assert_eq!(
        syntax_error("select * from C where id = 1 order by desc"),
        unexpected(Expected::Identifier, Found::Token(TokenKind::Keyword(Keyword::Desc)), 38)
    );
}

#[test]
fn referenced_fields_in_order() {
    let tree = parse(
        "select title, id from Customer where balance > 1 and id = 2 order by display_name, id",
    )
    .unwrap();
    assert_eq!(
        referenced_fields(&tree),
        vec!["title", "id", "balance", "id", "display_name", "id"]
    );
    let star = parse("select * from Customer where balance > 1").unwrap();
    assert_eq!(referenced_fields(&star), vec!["balance"]);
}

#[test]
fn entity_capabilities() {
    let entity = customer();
    assert_eq!(entity.name(), "Customer");
    assert!(entity.has_attribute(&"DisplayName".to_string()));
    assert!(entity.has_attribute(&"Balance".to_string()));
    assert!(!entity.has_attribute(&"display_name".to_string()));
    assert!(!entity.has_attribute(&"Missing".to_string()));
    assert!(!entity.has_attribute(&"".to_string()));
}

#[test]
fn a_tree_is_translated_to_operations() {
    let tree = parse(
        "select display_name from Customer where id in (x) and title = \"Dr\"
         order by balance, id desc limit 5 offset 2",
    )
    .unwrap();
    let ops = translate(&tree, &customer()).unwrap();
    assert_eq!(
        ops,
        vec![
            BuilderOp::SetFields(vec!["DisplayName".to_string()]),
            BuilderOp::AddCondition {
                field: "Id".to_string(),
                operator: Operator::In,
                values: vec![term(TermKind::Name, "x")],
            },
            BuilderOp::AddCondition {
                field: "Title".to_string(),
                operator: Operator::Equal,
                values: vec![term(TermKind::Text, "Dr")],
            },
            BuilderOp::AddOrder { field: "Balance".to_string(), order: Order::Asc },
            BuilderOp::AddOrder { field: "Id".to_string(), order: Order::Desc },
            BuilderOp::SetLimit {
                count: "5".to_string(),
                offset: Some(term(TermKind::Integer, "2")),
            },
        ]
    );
    let star = parse("select * from Customer where id = 1").unwrap();
    let ops = translate(&star, &customer()).unwrap();
    assert_eq!(ops.len(), 1);
}

#[test]
fn an_unknown_field_fails_the_construction() {
    let unknown = |text: &str| match qb_sql(text, &customer(), &vec![]) {
        Err(QueryError::UnknownField(e)) => e.field,
        other => panic!("{:?}", other),
    };
    assert_eq!(unknown("select * from Customer where nick_name = 1"), "nick_name");
    assert_eq!(unknown("select id, nick from Customer where id = 1"), "nick");
    assert_eq!(unknown("select * from Customer where id = 1 order by id, rank"), "rank");
    assert_eq!(
        unknown("select first from Customer where second = 1 order by third"),
        "first"
    );
    assert_eq!(unknown("select * from Customer where iD = 1"), "iD");
    let tree = parse("select * from Customer where id = 1 and nick_name = 2").unwrap();
    assert_eq!(
        translate(&tree, &customer()),
        Err(UnknownFieldError { field: "nick_name".to_string() })
    );
    assert_eq!(
        check_fields(&customer(), &vec!["id".to_string(), "display_name".to_string()]),
        Ok(())
    );
    assert_eq!(
        check_fields(&customer(), &vec!["id".to_string(), "a".to_string(), "b".to_string()]),
        Err(UnknownFieldError { field: "a".to_string() })
    );
}

#[test]
fn an_unknown_field_is_found_before_any_value_is_looked_up() {
    let r = qb_sql("select * from Customer where id = unbound and nick = 1", &customer(), &vec![]);
    assert_eq!(
        r,
        Err(QueryError::UnknownField(UnknownFieldError { field: "nick".to_string() }))
    );
}

#[test]
fn names_are_looked_up_in_the_bindings() {
    let env = vec![scalar("a", "1"), sequence("b", &["2", "3"]), scalar("a", "later")];
    assert_eq!(find(&env, &"a".to_string()), Some(&Value::Scalar("1".to_string())));
    assert_eq!(
        find(&env, &"b".to_string()),
        Some(&Value::Sequence(vec!["2".to_string(), "3".to_string()]))
    );
    assert_eq!(find(&env, &"c".to_string()), None);
    assert_eq!(resolve_scalar(&env, &term(TermKind::Name, "a")), Ok("1".to_string()));
    assert_eq!(resolve_scalar(&env, &term(TermKind::Text, "a")), Ok("a".to_string()));
    assert_eq!(resolve_scalar(&env, &term(TermKind::Integer, "010")), Ok("10".to_string()));
    assert_eq!(resolve_scalar(&env, &term(TermKind::Decimal, "1000.0")), Ok("1000".to_string()));
    assert_eq!(
        resolve_sequence(&env, &term(TermKind::Name, "b")),
        Ok(vec!["2".to_string(), "3".to_string()])
    );
}

#[test]
fn a_spread_renders_like_the_list_of_its_items() {
    let ids: Vec<String> = [1, 2, 3, 4, 5].iter().map(|v: &i32| v.to_string()).collect();
    let env = vec![Binding { name: "ids".to_string(), value: Value::Sequence(ids) }];
    let spread = qb_sql("select * from Customer where id in (ids)", &customer(), &env).unwrap();
    let list =
        qb_sql("select * from Customer where id in (1,2,3,4,5)", &customer(), &env).unwrap();
    assert_eq!(spread, list);
    assert_eq!(spread.query_string(), list.query_string());
    assert!(spread.query_string().contains("Id IN ('1', '2', '3', '4', '5')"));
    let values = resolve_values(&env, Operator::In, &vec![term(TermKind::Name, "ids")]).unwrap();
    assert_eq!(values, vec!["1", "2", "3", "4", "5"]);
}

#[test]
fn an_empty_spread_gives_an_empty_list() {
    let env = vec![sequence("ids", &[])];
    let query = qb_sql("select * from Customer where id in (ids)", &customer(), &env).unwrap();
    assert_eq!(query.query_string(), "select * from Customer where Id IN ()");
}

#[test]
fn value_errors() {
    assert_eq!(
        value_error("select * from Customer where id = x", vec![]),
        ValueError { kind: ValueErrorKind::Unbound, term: "x".to_string() }
    );
    assert_eq!(
        value_error("select * from Customer where id = x", vec![sequence("x", &["1"])]),
        ValueError { kind: ValueErrorKind::NotScalar, term: "x".to_string() }
    );
    assert_eq!(
        value_error("select * from Customer where id in (1, x)", vec![sequence("x", &["1"])]),
        ValueError { kind: ValueErrorKind::NotScalar, term: "x".to_string() }
    );
    assert_eq!(
        value_error("select * from Customer where id in (x)", vec![]),
        ValueError { kind: ValueErrorKind::Unbound, term: "x".to_string() }
    );
    assert_eq!(
        value_error("select * from Customer where id in (x)", vec![scalar("x", "1")]),
        ValueError { kind: ValueErrorKind::NotSequence, term: "x".to_string() }
    );
    assert_eq!(
        value_error("select * from Customer where id in (5)", vec![]),
        ValueError { kind: ValueErrorKind::NotSequence, term: "5".to_string() }
    );
    assert_eq!(
        value_error("select * from Customer where id = 1 limit 4294967296", vec![]),
        ValueError { kind: ValueErrorKind::NotUnsigned, term: "4294967296".to_string() }
    );
    assert_eq!(
        value_error("select * from Customer where id = 1 limit 1 offset n", vec![scalar("n", "-1")]),
        ValueError { kind: ValueErrorKind::NotUnsigned, term: "-1".to_string() }
    );
    assert_eq!(
        value_error("select * from Customer where id = 1 limit 1 offset 1.5", vec![]),
        ValueError { kind: ValueErrorKind::NotUnsigned, term: "1.5".to_string() }
    );
    assert_eq!(
        value_error("select * from Customer where id = 1 limit 1 offset n", vec![]),
        ValueError { kind: ValueErrorKind::Unbound, term: "n".to_string() }
    );
    assert_eq!(
        value_error("select * from Customer where id = a and title = b", vec![scalar("b", "1")]),
        ValueError { kind: ValueErrorKind::Unbound, term: "a".to_string() }
    );
}

#[test]
fn limits_are_read_from_literals_and_names() {
    let env = vec![scalar("n", "7")];
    let limit = |text: &str| qb_sql(text, &customer(), &env).unwrap().limit_clause();
    assert_eq!(
        limit("select * from Customer where id = 1 limit 10"),
        Some(Limit { number: 10, offset: None })
    );
    assert_eq!(
        limit("select * from Customer where id = 1 limit 010 offset 5"),
        Some(Limit { number: 10, offset: Some(5) })
    );
    assert_eq!(
        limit("select * from Customer where id = 1 limit 4294967295 offset n"),
        Some(Limit { number: u32::MAX, offset: Some(7) })
    );
    assert_eq!(
        limit("select * from Customer where id = 1 limit 0 offset \"12\""),
        Some(Limit { number: 0, offset: Some(12) })
    );
    assert_eq!(limit("select * from Customer where id = 1"), None);
}

#[test]
fn operations_are_applied_in_order() {
    let env = vec![scalar("v", "9")];
    let ops = vec![
        BuilderOp::AddOrder { field: "A".to_string(), order: Order::Desc },
        BuilderOp::SetFields(vec!["A".to_string(), "B".to_string()]),
        BuilderOp::AddCondition {
            field: "A".to_string(),
            operator: Operator::Less,
            values: vec![term(TermKind::Name, "v")],
        },
        BuilderOp::SetFields(vec!["C".to_string()]),
        BuilderOp::SetLimit { count: "3".to_string(), offset: None },
    ];
    let query = build("Things", &ops, &env).unwrap();
    assert_eq!(
        query.query_string(),
        "select A, B, C from Things where A < '9' order by A DESC LIMIT 3"
    );
    let one = apply(Query::new("Things"), &ops[0], &env).unwrap();
    assert_eq!(one.query_string(), "select * from Things order by A DESC");
    assert_eq!(build("Things", &vec![], &env).unwrap(), Query::new("Things"));
    let failing = vec![
        BuilderOp::SetFields(vec!["A".to_string()]),
        BuilderOp::SetLimit { count: "x".to_string(), offset: None },
    ];
    assert_eq!(
        build("Things", &failing, &env),
        Err(ValueError { kind: ValueErrorKind::NotUnsigned, term: "x".to_string() })
    );
}

#[test]
fn the_collection_is_named_by_the_entity() {
    let entity = Entity { name: "Clients".to_string(), attributes: vec!["Id".to_string()] };
    let query = qb_sql("select id from Customer where id = 1", &entity, &vec![]).unwrap();
    assert_eq!(query.query_string(), "select Id from Clients where Id = '1'");
}

#[test]
fn the_same_text_builds_the_same_query() {
    let text = "select id from Customer where balance >= 1000.0 order by id limit 1";
    let a = qb_sql(text, &customer(), &vec![]).unwrap();
    let b = qb_sql(text, &customer(), &vec![]).unwrap();
    assert_eq!(a, b);
    assert_eq!(a.query_string(), b.query_string());
    assert!(a.query_string().contains("Balance >= '1000'"));
    assert_eq!(
        a.query_string(),
        "select Id from Customer where Balance >= '1000' order by Id ASC LIMIT 1"
    );
}

#[test]
fn the_built_query_mirrors_the_tree() {
    let text = "select title, id from Customer
                where balance > 1 and id in (ids) and title like \"D%\"
                order by display_name, id desc limit 3 offset 1";
    let env = vec![sequence("ids", &["7", "8"])];
    let tree = parse(text).unwrap();
    let query = qb_sql(text, &customer(), &env).unwrap();
    assert_eq!(query.collection(), "Customer");
    assert_eq!(query.fields(), &vec!["Title".to_string(), "Id".to_string()]);
    assert_eq!(query.conditions().len(), tree.conditions.len());
    let fields: Vec<&str> = query.conditions().iter().map(|c| c.field.as_str()).collect();
    assert_eq!(fields, vec!["Balance", "Id", "Title"]);
    let operators: Vec<Operator> = query.conditions().iter().map(|c| c.operator).collect();
    assert_eq!(operators, vec![Operator::Greater, Operator::In, Operator::Like]);
    assert_eq!(query.conditions()[1].values, vec!["7", "8"]);
    assert_eq!(query.orders().len(), 2);
    assert_eq!(query.orders()[0].field, "DisplayName");
    assert_eq!(query.orders()[0].order, Order::Asc);
    assert_eq!(query.orders()[1].order, Order::Desc);
    assert_eq!(query.limit_clause(), Some(Limit { number: 3, offset: Some(1) }));
}

#[test]
fn tokens_lie_in_the_text_in_order() {
    let text = "  select\tid ,title from  Customer where id<=10 and title like \"a b\"  ";
    let chars: Vec<char> = text.chars().collect();
    let tokens = tokenize(text).unwrap();
    let mut at = 0;
    for t in &tokens {
        assert!(at <= t.start && t.start < t.end && t.end <= chars.len());
        assert!(chars[at..t.start].iter().all(|c| c.is_ascii_whitespace()));
        at = t.end;
    }
    assert!(chars[at..].iter().all(|c| c.is_ascii_whitespace()));
    assert_eq!(tokens.len(), 15);
}
