use aid::ast::{AggregateFunction, Condition, SortDirection};
use aid::parser::parse_sql;

#[test]
fn parses_select_star() {
    let (rest, q) = parse_sql("SELECT * FROM ./vgsales.csv").unwrap();
    assert_eq!(rest, "");
    assert_eq!(q.columns, vec!["*"]);
    // Leading dot-slash runs are dropped from path components.
    assert_eq!(q.table, "vgsales.csv");
    assert!(q.condition.is_none());
    assert!(q.group_by.is_none());
    assert!(q.order_by.is_none());
    assert!(!q.distinct);
    assert!(q.aggregate_functions.is_empty());
}

#[test]
fn parses_multi_column_and_where() {
    let (rest, q) =
        parse_sql("SELECT Year,Name FROM data/games.csv WHERE Platform = 'Wii' AND Year = 2015")
            .unwrap();
    assert_eq!(rest, "");
    assert_eq!(q.columns, vec!["Year", "Name"]);
    assert_eq!(q.table, "data/games.csv");
    let cond = q.condition.unwrap();
    match cond {
        Condition::And(a, b) => {
            assert_eq!(
                *a,
                Condition::Equal("Platform".to_string(), "Wii".to_string())
            );
            assert_eq!(*b, Condition::Equal("Year".to_string(), "2015".to_string()));
        }
        other => panic!("expected an AND chain, got {:?}", other),
    }
}

#[test]
fn and_chain_folds_left() {
    let (_, q) = parse_sql("SELECT N FROM t WHERE A = 1 AND B = 2 AND C = 3").unwrap();
    match q.condition.unwrap() {
        Condition::And(left, right) => {
            assert!(matches!(*left, Condition::And(_, _)));
            assert_eq!(*right, Condition::Equal("C".to_string(), "3".to_string()));
        }
        other => panic!("expected an AND chain, got {:?}", other),
    }
}

#[test]
fn or_has_lower_precedence_than_and() {
    let (_, q) = parse_sql("SELECT N FROM t WHERE A = 1 AND B = 2 OR C = 3").unwrap();
    match q.condition.unwrap() {
        Condition::Or(left, right) => {
            assert!(matches!(*left, Condition::And(_, _)));
            assert_eq!(*right, Condition::Equal("C".to_string(), "3".to_string()));
        }
        other => panic!("expected an OR at the top, got {:?}", other),
    }
}

#[test]
fn parses_comparisons_and_between() {
    let (_, q) = parse_sql("SELECT N FROM t WHERE Y >= 10").unwrap();
    assert_eq!(
        q.condition.unwrap(),
        Condition::GreaterThanEqualTo("Y".to_string(), 10)
    );
    let (_, q) = parse_sql("SELECT N FROM t WHERE Y > 10").unwrap();
    assert_eq!(q.condition.unwrap(), Condition::GreaterThan("Y".to_string(), 10));
    let (_, q) = parse_sql("SELECT N FROM t WHERE Y <= 10").unwrap();
    assert_eq!(
        q.condition.unwrap(),
        Condition::LessThanEqualTo("Y".to_string(), 10)
    );
    let (_, q) = parse_sql("SELECT N FROM t WHERE Y < 10").unwrap();
    assert_eq!(q.condition.unwrap(), Condition::LessThan("Y".to_string(), 10));
    let (_, q) = parse_sql("SELECT N FROM t WHERE Y BETWEEN 3 AND 7").unwrap();
    assert_eq!(q.condition.unwrap(), Condition::Between("Y".to_string(), 3, 7));
}

#[test]
fn parses_not_with_parentheses() {
    let (_, q) = parse_sql("SELECT N FROM t WHERE NOT (A = 1 OR B = 2)").unwrap();
    match q.condition.unwrap() {
        Condition::Not(inner) => assert!(matches!(*inner, Condition::Or(_, _))),
        other => panic!("expected a negation, got {:?}", other),
    }
}

#[test]
fn like_pattern_is_kept_verbatim() {
    let (_, q) = parse_sql("SELECT N FROM t WHERE Name LIKE 'Call of Duty%'").unwrap();
    assert_eq!(
        q.condition.unwrap(),
        Condition::Like("Name".to_string(), "Call of Duty%".to_string())
    );
}

#[test]
fn count_star_uses_synthetic_name() {
    let (_, q) = parse_sql("SELECT COUNT(*) FROM t").unwrap();
    assert_eq!(
        q.aggregate_functions,
        vec![AggregateFunction::Count("(*)".to_string())]
    );
    assert!(q.columns.is_empty());
}

#[test]
fn aggregate_names_are_case_blind() {
    let (_, q) = parse_sql("SELECT count(Name), sum(Sales) FROM t").unwrap();
    assert_eq!(
        q.aggregate_functions,
        vec![
            AggregateFunction::Count("Name".to_string()),
            AggregateFunction::Sum("Sales".to_string())
        ]
    );
}

#[test]
fn mixed_select_list_keeps_declared_orders() {
    let (_, q) = parse_sql("SELECT Genre, COUNT(Name), MIN(S), MAX(S), AVG(S) FROM t").unwrap();
    assert_eq!(q.columns, vec!["Genre"]);
    assert_eq!(
        q.aggregate_functions,
        vec![
            AggregateFunction::Count("Name".to_string()),
            AggregateFunction::Min("S".to_string()),
            AggregateFunction::Max("S".to_string()),
            AggregateFunction::Avg("S".to_string())
        ]
    );
}

#[test]
fn parses_distinct_group_by_order_by() {
    let (rest, q) = parse_sql(
        "SELECT DISTINCT Platform FROM games.csv WHERE Year = 2015 GROUP BY Platform, Year ORDER BY COUNT(Name) DESC",
    )
    .unwrap();
    assert_eq!(rest, "");
    assert!(q.distinct);
    assert_eq!(q.group_by.unwrap(), vec!["Platform", "Year"]);
    let ob = q.order_by.unwrap();
    assert_eq!(ob.column, "COUNT(Name)");
    assert_eq!(ob.direction, SortDirection::Descending);
}

#[test]
fn order_by_defaults_to_ascending() {
    let (_, q) = parse_sql("SELECT V FROM t ORDER BY V").unwrap();
    assert_eq!(q.order_by.unwrap().direction, SortDirection::Ascending);
}

#[test]
fn quoted_column_names_are_accepted() {
    let (_, q) = parse_sql("SELECT 'My Column' FROM t WHERE 'My Column' = 'x y'").unwrap();
    assert_eq!(q.columns, vec!["My Column"]);
    assert_eq!(
        q.condition.unwrap(),
        Condition::Equal("My Column".to_string(), "x y".to_string())
    );
}

#[test]
fn malformed_queries_are_rejected() {
    assert!(parse_sql("").is_err());
    assert!(parse_sql("SELECT").is_err());
    assert!(parse_sql("SELECT FROM t").is_err());
    assert!(parse_sql("select * from t").is_err());
    assert!(parse_sql("UPDATE t").is_err());
}

#[test]
fn unparsable_where_is_left_in_the_remainder() {
    let (rest, q) = parse_sql("SELECT V FROM t WHERE ???").unwrap();
    assert!(q.condition.is_none());
    assert_eq!(rest, " WHERE ???");
}

#[test]
fn oversized_integer_literal_fails_the_comparison() {
    // The literal does not fit an i32, so no WHERE clause is read.
    let (rest, q) = parse_sql("SELECT V FROM t WHERE Y > 99999999999").unwrap();
    assert!(q.condition.is_none());
    assert!(rest.starts_with(" WHERE"));
}
