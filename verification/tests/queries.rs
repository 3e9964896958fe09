use oxibooks_sql::query::{Operator, Order};
use oxibooks_sql::sql::qb_sql;
use oxibooks_sql::translate::Entity;
use oxibooks_sql::value::{Binding, Value};
use quickbooks_types::{Customer, QBItem};

fn customer() -> Entity {
    Entity {
        name: Customer::name().to_string(),
        attributes: ["Id", "DisplayName", "Title", "GivenName", "FamilyName", "Balance"]
            .iter()
            .map(|a| a.to_string())
            .collect(),
    }
}

fn scalar(name: &str, value: impl ToString) -> Binding {
    Binding { name: name.to_string(), value: Value::Scalar(value.to_string()) }
}

#[test]
fn test_basic_query() {
    let query = qb_sql(
        "select * from Customer
            where display_name like \"John%\"",
        &customer(),
        &vec![],
    )
    .unwrap();

    assert_eq!(query.conditions().len(), 1);
    assert_eq!(query.conditions()[0].field, "DisplayName");
}

#[test]
fn test_multiple_conditions() {
    let balance_min = 1000.0;
    let query = qb_sql(
        "select * from Customer
            where display_name like \"John%\"
            and balance >= balance_min",
        &customer(),
        &vec![scalar("balance_min", balance_min)],
    )
    .unwrap();

    assert_eq!(query.conditions().len(), 2);
}

#[test]
fn test_field_selection() {
    let query = qb_sql(
        "select display_name, balance from Customer
            where display_name like \"John%\"",
        &customer(),
        &vec![],
    )
    .unwrap();

    assert_eq!(query.fields().len(), 2);
    assert_eq!(query.fields()[0], "DisplayName");
    assert_eq!(query.fields()[1], "Balance");
}

#[test]
fn test_order_by() {
    let query = qb_sql(
        "select * from Customer
            where display_name like \"John%\"
            order by display_name asc, balance desc",
        &customer(),
        &vec![],
    )
    .unwrap();

    assert_eq!(query.orders().len(), 2);
    assert_eq!(query.orders()[0].field, "DisplayName");
    assert_eq!(query.orders()[0].order, Order::Asc);
}

#[test]
fn test_limit_and_offset() {
    let offset_val = 5;
    let query = qb_sql(
        "select * from Customer
            where display_name like \"John%\"
            limit 10 offset offset_val",
        &customer(),
        &vec![scalar("offset_val", offset_val)],
    )
    .unwrap();

    assert!(query.limit_clause().is_some());
    let limit = query.limit_clause().unwrap();
    assert_eq!(limit.number, 10);
    assert_eq!(limit.offset, Some(5));
}

#[test]
fn test_query_string_generation() {
    let query = qb_sql(
        "select display_name, balance from Customer
            where display_name like \"John%\"
            and id in (1, 2, 3)
            and balance >= 1000.0
            order by display_name asc, balance desc
            limit 10 offset 5",
        &customer(),
        &vec![],
    )
    .unwrap();

    let query_string = query.query_string();
    let expected = "select DisplayName, Balance from Customer where DisplayName LIKE 'John%' and Id IN ('1', '2', '3') and Balance >= '1000' order by DisplayName ASC, Balance DESC LIMIT 10 OFFSET 5";
    assert_eq!(query_string, expected);
}

#[test]
fn test_in_operator() {
    let query = qb_sql(
        "select * from Customer
            where id in (1, 2, 3, 4, 5)",
        &customer(),
        &vec![],
    )
    .unwrap();

    assert_eq!(query.conditions().len(), 1);
    assert_eq!(query.conditions()[0].field, "Id");
    assert_eq!(query.conditions()[0].operator, Operator::In);
    assert_eq!(query.conditions()[0].values.len(), 5);

    let query_string = query.query_string();
    assert_eq!(
        query_string,
        "select * from Customer where Id IN ('1', '2', '3', '4', '5')"
    );
}

#[test]
fn test_in_operator_with_strings() {
    let title1 = "Mr";
    let title2 = "Mrs";
    let query = qb_sql(
        "select display_name from Customer
            where title in (title1, title2, \"Dr\")",
        &customer(),
        &vec![scalar("title1", title1), scalar("title2", title2)],
    )
    .unwrap();

    assert_eq!(query.conditions().len(), 1);
    assert_eq!(query.conditions()[0].values.len(), 3);

    let query_string = query.query_string();
    assert_eq!(
        query_string,
        "select DisplayName from Customer where Title IN ('Mr', 'Mrs', 'Dr')"
    );
}

#[test]
fn test_in_iterator() {
    let ids = vec![1, 2, 3, 4, 5];
    let query = qb_sql(
        "select * from Customer
            where id in (ids)",
        &customer(),
        &vec![Binding {
            name: "ids".to_string(),
            value: Value::Sequence(ids.iter().map(|v| v.to_string()).collect()),
        }],
    )
    .unwrap();

    assert_eq!(query.conditions().len(), 1);
    assert_eq!(query.conditions()[0].field, "Id");
    assert_eq!(query.conditions()[0].operator, Operator::In);
    assert_eq!(query.conditions()[0].values.len(), 5);

    let query_string = query.query_string();
    assert_eq!(
        query_string,
        "select * from Customer where Id IN ('1', '2', '3', '4', '5')"
    );
}
