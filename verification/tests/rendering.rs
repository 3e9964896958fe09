use oxibooks_sql::normalize::{normalize, to_upper};
use oxibooks_sql::query::{Limit, Operator, Order, OrderClause, Query, WhereClause};
use oxibooks_sql::text::{chars_of, clone_texts, push_decimal, text_of};
use oxibooks_sql::value::{parse_unsigned, render_number};

fn clause(field: &str, operator: Operator, values: &[&str]) -> WhereClause {
    WhereClause {
        field: field.to_string(),
        operator,
        values: values.iter().map(|v| v.to_string()).collect(),
    }
}

fn fragment(clause: &WhereClause) -> String {
    let mut out = String::new();
    clause.extend_query(&mut out);
    out
}

#[test]
fn normalize_gives_upper_camel_case() {
    assert_eq!(normalize("display_name"), "DisplayName");
    assert_eq!(normalize("id"), "Id");
    assert_eq!(normalize("a_b_c"), "ABC");
}

#[test]
fn normalize_drops_empty_segments() {
    assert_eq!(normalize("a__b"), "AB");
    assert_eq!(normalize("_x"), "X");
    assert_eq!(normalize("x_"), "X");
    assert_eq!(normalize("___"), "");
    assert_eq!(normalize(""), "");
}

#[test]
fn normalize_keeps_other_characters() {
    assert_eq!(normalize("given_name2"), "GivenName2");
    assert_eq!(normalize("Already_Upper"), "AlreadyUpper");
    assert_eq!(normalize("x_9y"), "X9y");
    assert_eq!(normalize("é_ü"), "éü");
}

#[test]
fn to_upper_raises_ascii_lower_case_only() {
    assert_eq!(to_upper('a'), 'A');
    assert_eq!(to_upper('z'), 'Z');
    assert_eq!(to_upper('A'), 'A');
    assert_eq!(to_upper('0'), '0');
    assert_eq!(to_upper('_'), '_');
    assert_eq!(to_upper('`'), '`');
    assert_eq!(to_upper('{'), '{');
    assert_eq!(to_upper('ß'), 'ß');
}

#[test]
fn decimal_numerals() {
    for (n, text) in [(0u32, "0"), (7, "7"), (10, "10"), (1000, "1000"), (u32::MAX, "4294967295")] {
        let mut out = String::from("n=");
        push_decimal(&mut out, n);
        assert_eq!(out, format!("n={}", text));
    }
}

#[test]
fn text_helpers() {
    let chars = chars_of("héllo");
    assert_eq!(chars, vec!['h', 'é', 'l', 'l', 'o']);
    assert_eq!(text_of(&chars, 1, 4), "éll");
    assert_eq!(text_of(&chars, 2, 2), "");
    let copy = clone_texts(&vec!["a".to_string(), "".to_string(), "bc".to_string()]);
    assert_eq!(copy, vec!["a", "", "bc"]);
}

#[test]
fn empty_builder_selects_everything() {
    let query = Query::new("Customer");
    assert_eq!(query.query_string(), "select * from Customer");
    assert!(query.query_string().contains("select *"));
    assert_eq!(query.collection(), "Customer");
    assert!(query.fields().is_empty());
    assert!(query.conditions().is_empty());
    assert!(query.orders().is_empty());
    assert_eq!(query.limit_clause(), None);
}

#[test]
fn selected_fields_are_listed_in_order() {
    let query = Query::new("Customer")
        .field(normalize("display_name"))
        .field(normalize("balance"));
    assert_eq!(query.query_string(), "select DisplayName, Balance from Customer");
    let repeated = query.field("Balance".to_string());
    assert_eq!(repeated.query_string(), "select DisplayName, Balance, Balance from Customer");
}

#[test]
fn scalar_condition_fragment() {
    let value = 1000.0f64.to_string();
    let c = clause("Balance", Operator::GreaterEqual, &[&value]);
    assert_eq!(fragment(&c), " Balance >= '1000'");
}

#[test]
fn every_operator_is_rendered() {
    assert_eq!(fragment(&clause("F", Operator::Equal, &["v"])), " F = 'v'");
    assert_eq!(fragment(&clause("F", Operator::Less, &["v"])), " F < 'v'");
    assert_eq!(fragment(&clause("F", Operator::Greater, &["v"])), " F > 'v'");
    assert_eq!(fragment(&clause("F", Operator::LessEqual, &["v"])), " F <= 'v'");
    assert_eq!(fragment(&clause("F", Operator::GreaterEqual, &["v"])), " F >= 'v'");
    assert_eq!(fragment(&clause("F", Operator::Like, &["v%"])), " F LIKE 'v%'");
    assert_eq!(fragment(&clause("F", Operator::In, &["v"])), " F IN ('v')");
}

#[test]
fn list_condition_fragment() {
    let c = clause("Id", Operator::In, &["1", "2", "3"]);
    assert_eq!(fragment(&c), " Id IN ('1', '2', '3')");
    let none = clause("Id", Operator::In, &[]);
    assert_eq!(fragment(&none), " Id IN ()");
}

#[test]
fn values_are_quoted_as_they_are() {
    let c = clause("Name", Operator::Equal, &["O'Neil, \"Jr\""]);
    assert_eq!(fragment(&c), " Name = 'O'Neil, \"Jr\"'");
}

#[test]
fn fragments_are_appended() {
    let mut out = String::from("select * from T where");
    clause("A", Operator::Equal, &["1"]).extend_query(&mut out);
    out.push_str(" and");
    clause("B", Operator::In, &["2", "3"]).extend_query(&mut out);
    assert_eq!(out, "select * from T where A = '1' and B IN ('2', '3')");
}

#[test]
fn conditions_are_joined_by_and() {
    let query = Query::new("Customer")
        .condition(clause("DisplayName", Operator::Like, &["John%"]))
        .condition(clause("Id", Operator::In, &["1", "2", "3"]))
        .condition(clause("Balance", Operator::GreaterEqual, &["1000"]));
    assert_eq!(
        query.query_string(),
        "select * from Customer where DisplayName LIKE 'John%' and Id IN ('1', '2', '3') and Balance >= '1000'"
    );
}

#[test]
fn order_fragment_has_a_space_before_each_direction() {
    let mut out = String::new();
    OrderClause { field: "Balance".to_string(), order: Order::Desc }.extend_query(&mut out);
    assert_eq!(out, " Balance DESC");
    let query = Query::new("Customer")
        .order(normalize("display_name"), Order::Asc)
        .order(normalize("balance"), Order::Desc);
    assert_eq!(
        query.query_string(),
        "select * from Customer order by DisplayName ASC, Balance DESC"
    );
    assert!(query.query_string().contains("order by DisplayName ASC, Balance DESC"));
}

#[test]
fn limit_fragments() {
    let mut with_offset = String::new();
    Limit { number: 10, offset: Some(5) }.extend_query(&mut with_offset);
    assert_eq!(with_offset, " LIMIT 10 OFFSET 5");
    let mut alone = String::new();
    Limit { number: 10, offset: None }.extend_query(&mut alone);
    assert_eq!(alone, " LIMIT 10");
    assert!(!alone.contains("OFFSET"));
    let mut zero = String::new();
    Limit { number: 0, offset: Some(0) }.extend_query(&mut zero);
    assert_eq!(zero, " LIMIT 0 OFFSET 0");
}

#[test]
fn a_later_limit_replaces_an_earlier_one() {
    let query = Query::new("Customer").limit(10, Some(5)).limit(3, None);
    assert_eq!(query.limit_clause(), Some(Limit { number: 3, offset: None }));
    assert_eq!(query.query_string(), "select * from Customer LIMIT 3");
}

#[test]
fn sections_come_in_a_fixed_order() {
    let query = Query::new("Invoice")
        .limit(2, Some(1))
        .order("TotalAmt".to_string(), Order::Desc)
        .condition(clause("DocNumber", Operator::Equal, &["7"]))
        .field("Id".to_string());
    assert_eq!(
        query.query_string(),
        "select Id from Invoice where DocNumber = '7' order by TotalAmt DESC LIMIT 2 OFFSET 1"
    );
}

#[test]
fn rendering_twice_gives_the_same_string() {
    let make = || {
        Query::new("Customer")
            .field("Id".to_string())
            .condition(clause("Id", Operator::In, &["1", "2"]))
            .order("Id".to_string(), Order::Asc)
            .limit(10, None)
    };
    let a = make();
    let b = make();
    assert_eq!(a.query_string(), a.query_string());
    assert_eq!(a.query_string(), b.query_string());
    assert_eq!(a, b);
}

#[test]
fn a_clone_holds_the_same_state() {
    let query = Query::new("Customer")
        .field("Id".to_string())
        .condition(clause("Id", Operator::Less, &["9"]))
        .order("Id".to_string(), Order::Desc)
        .limit(4, Some(2));
    let copy = query.clone();
    assert_eq!(copy, query);
    assert_eq!(copy.query_string(), query.query_string());
    let c = clause("A", Operator::In, &["x", "y"]);
    assert_eq!(c.clone(), c);
    let o = OrderClause { field: "A".to_string(), order: Order::Asc };
    assert_eq!(o.clone(), o);
}

#[test]
fn number_literals_in_their_textual_form() {
    for (literal, text) in [
        ("1000.0", "1000"),
        ("1000", "1000"),
        ("007.50", "7.5"),
        ("0.0", "0"),
        ("0", "0"),
        ("000", "0"),
        ("0.125", "0.125"),
        ("10.010", "10.01"),
        ("42.000", "42"),
        ("100", "100"),
    ] {
        assert_eq!(render_number(&literal.to_string()), text, "{}", literal);
    }
    assert_eq!(render_number(&1000.0f64.to_string()), 1000.0f64.to_string());
    assert_eq!(render_number(&"7.5".to_string()), 7.50f64.to_string());
}

#[test]
fn unsigned_integers_are_read() {
    assert_eq!(parse_unsigned(&"0".to_string()), Some(0));
    assert_eq!(parse_unsigned(&"10".to_string()), Some(10));
    assert_eq!(parse_unsigned(&"0010".to_string()), Some(10));
    assert_eq!(parse_unsigned(&"4294967295".to_string()), Some(u32::MAX));
    assert_eq!(parse_unsigned(&"4294967296".to_string()), None);
    assert_eq!(parse_unsigned(&"99999999999999999999999".to_string()), None);
    assert_eq!(parse_unsigned(&"".to_string()), None);
    assert_eq!(parse_unsigned(&"12a".to_string()), None);
    assert_eq!(parse_unsigned(&"-1".to_string()), None);
    assert_eq!(parse_unsigned(&"1.0".to_string()), None);
}

#[test]
fn segments_are_normalized_apart() {
    for (a, b) in [("display", "name"), ("", "x"), ("a_b", "c"), ("given", ""), ("x", "_y")] {
        let joined = format!("{}_{}", a, b);
        assert_eq!(normalize(&joined), format!("{}{}", normalize(a), normalize(b)));
    }
    assert!(!normalize("a_b__c_").contains('_'));
}

#[test]
fn a_rendered_count_is_read_back() {
    for n in [0u32, 9, 10, 99, 100, 65535, u32::MAX] {
        let mut text = String::new();
        push_decimal(&mut text, n);
        assert_eq!(parse_unsigned(&text), Some(n));
    }
}
