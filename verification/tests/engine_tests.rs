use aid::ast::{AggregateFunction, Condition, OrderBy, SQLQuery, SortDirection};
use aid::engine::apply_query;
use aid::parser::parse_sql;

fn table(headers: &[&str], rows: &[&[&str]]) -> (Vec<String>, Vec<Vec<String>>) {
    let hs: Vec<String> = headers.iter().map(|h| h.to_string()).collect();
    let rs: Vec<Vec<String>> = rows
        .iter()
        .map(|r| r.iter().map(|v| v.to_string()).collect())
        .collect();
    (hs, rs)
}

fn run(sql: &str, headers: &[&str], rows: &[&[&str]]) -> (Vec<String>, Vec<Vec<String>>) {
    let (_, query) = parse_sql(sql).expect("query should parse");
    let (hs, rs) = table(headers, rows);
    apply_query(&hs, rs, &query)
}

#[test]
fn select_star_header_and_padding() {
    let (h, r) = run(
        "SELECT * FROM t",
        &["A", "B", "C"],
        &[&["1", "2", "3"], &["4"], &["5", "6", "7", "8"]],
    );
    assert_eq!(h, vec!["A", "B", "C"]);
    assert_eq!(r.len(), 3);
    assert_eq!(r[0], vec!["1", "2", "3"]);
    assert_eq!(r[1], vec!["4", "", ""]);
    assert_eq!(r[2], vec!["5", "6", "7"]);
    for row in &r {
        assert_eq!(row.len(), h.len());
    }
}

#[test]
fn distinct_platforms_for_year() {
    let (h, r) = run(
        "SELECT DISTINCT Platform FROM t WHERE Year = 2015",
        &["Platform", "Year"],
        &[&["Wii", "2015"], &["DS", "2015"], &["Wii", "2016"]],
    );
    assert_eq!(h, vec!["Platform"]);
    assert_eq!(r.len(), 2);
    assert!(r.contains(&vec!["Wii".to_string()]));
    assert!(r.contains(&vec!["DS".to_string()]));
}

#[test]
fn group_by_count_order_desc() {
    let (h, r) = run(
        "SELECT Genre, COUNT(Name) FROM t GROUP BY Genre ORDER BY COUNT(Name) DESC",
        &["Genre", "Name"],
        &[
            &["Action", "a"],
            &["Puzzle", "b"],
            &["Action", "c"],
            &["Action", "d"],
        ],
    );
    assert_eq!(h, vec!["Genre", "COUNT(Name)"]);
    assert_eq!(r, vec![vec!["Action", "3"], vec!["Puzzle", "1"]]);
}

#[test]
fn sum_skips_non_numeric_and_empty() {
    let (h, r) = run(
        "SELECT SUM(Sales) FROM t WHERE Platform = 'Wii'",
        &["Platform", "Sales"],
        &[
            &["Wii", "1.5"],
            &["Wii", "bad"],
            &["DS", "9.9"],
            &["Wii", ""],
            &["Wii", "2.5"],
        ],
    );
    assert_eq!(h, vec!["SUM(Sales)"]);
    assert_eq!(r, vec![vec!["4"]]);
}

#[test]
fn aggregates_on_zero_filtered_rows() {
    let (h, r) = run(
        "SELECT COUNT(Name), SUM(Sales), MIN(Sales), MAX(Sales), AVG(Sales) FROM t WHERE Platform = 'X'",
        &["Platform", "Name", "Sales"],
        &[&["Wii", "a", "1.5"]],
    );
    assert_eq!(
        h,
        vec![
            "COUNT(Name)",
            "SUM(Sales)",
            "MIN(Sales)",
            "MAX(Sales)",
            "AVG(Sales)"
        ]
    );
    assert_eq!(r, vec![vec!["0", "0", "NULL", "NULL", "NULL"]]);
}

#[test]
fn grouped_aggregates_on_zero_filtered_rows() {
    let (_, r) = run(
        "SELECT COUNT(Name) FROM t WHERE Platform = 'X' GROUP BY Genre",
        &["Platform", "Name", "Genre"],
        &[&["Wii", "a", "Action"]],
    );
    assert_eq!(r.len(), 0);
}

#[test]
fn count_star_counts_all_members() {
    let (h, r) = run(
        "SELECT COUNT(*) FROM t",
        &["Name"],
        &[&["a"], &[""], &["c"]],
    );
    assert_eq!(h, vec!["COUNT(*)"]);
    assert_eq!(r, vec![vec!["3"]]);
}

#[test]
fn count_column_skips_empty_values() {
    let (_, r) = run("SELECT COUNT(Name) FROM t", &["Name"], &[&["a"], &[""], &["c"]]);
    assert_eq!(r, vec![vec!["2"]]);
}

#[test]
fn min_max_are_lexicographic() {
    let (_, r) = run(
        "SELECT MIN(V), MAX(V) FROM t",
        &["V"],
        &[&["10"], &["9"], &["abc"]],
    );
    assert_eq!(r, vec![vec!["10", "abc"]]);
}

#[test]
fn avg_over_parsing_values() {
    let (_, r) = run(
        "SELECT AVG(V) FROM t",
        &["V"],
        &[&["1.5"], &["2.5"], &["bad"]],
    );
    assert_eq!(r, vec![vec!["2"]]);
}

#[test]
fn avg_with_fraction() {
    let (_, r) = run("SELECT AVG(V) FROM t", &["V"], &[&["1"], &["2"]]);
    assert_eq!(r, vec![vec!["1.5"]]);
}

#[test]
fn where_between_is_inclusive() {
    let (_, r) = run(
        "SELECT Name FROM t WHERE Year BETWEEN 2005 AND 2006",
        &["Name", "Year"],
        &[&["a", "2004"], &["b", "2005"], &["c", "2006"], &["d", "2007"]],
    );
    assert_eq!(r, vec![vec!["b"], vec!["c"]]);
}

#[test]
fn where_not_and_parentheses() {
    let (_, r) = run(
        "SELECT Name FROM t WHERE NOT (Platform = 'PC' OR Platform = 'DS')",
        &["Name", "Platform"],
        &[&["a", "PC"], &["b", "Wii"], &["c", "DS"], &["d", "X360"]],
    );
    assert_eq!(r, vec![vec!["b"], vec!["d"]]);
}

#[test]
fn where_and_or_precedence() {
    // AND binds tighter than OR.
    let (_, r) = run(
        "SELECT Name FROM t WHERE Year = 1984 AND Genre = 'Puzzle' OR Genre = 'Racing'",
        &["Name", "Year", "Genre"],
        &[
            &["a", "1984", "Puzzle"],
            &["b", "1985", "Puzzle"],
            &["c", "1990", "Racing"],
        ],
    );
    assert_eq!(r, vec![vec!["a"], vec!["c"]]);
}

#[test]
fn like_prefix_suffix_substring() {
    let rows: &[&[&str]] = &[
        &["football"],
        &["foot"],
        &["afoot"],
        &["bigfoots"],
        &["other"],
    ];
    let (_, pre) = run("SELECT V FROM t WHERE V LIKE 'foot%'", &["V"], rows);
    assert_eq!(pre, vec![vec!["football"], vec!["foot"]]);
    let (_, suf) = run("SELECT V FROM t WHERE V LIKE '%foot'", &["V"], rows);
    assert_eq!(suf, vec![vec!["foot"], vec!["afoot"]]);
    let (_, sub) = run("SELECT V FROM t WHERE V LIKE '%foot%'", &["V"], rows);
    assert_eq!(
        sub,
        vec![vec!["football"], vec!["foot"], vec!["afoot"], vec!["bigfoots"]]
    );
}

#[test]
fn order_by_numeric_when_both_parse() {
    let (_, asc) = run(
        "SELECT V FROM t ORDER BY V ASC",
        &["V"],
        &[&["10"], &["9"], &["2.5"]],
    );
    assert_eq!(asc, vec![vec!["2.5"], vec!["9"], vec!["10"]]);
    let (_, desc) = run(
        "SELECT V FROM t ORDER BY V DESC",
        &["V"],
        &[&["10"], &["9"], &["2.5"]],
    );
    assert_eq!(desc, vec![vec!["10"], vec!["9"], vec!["2.5"]]);
}

#[test]
fn order_by_lexicographic_when_not_numeric() {
    let (_, r) = run(
        "SELECT V FROM t ORDER BY V",
        &["V"],
        &[&["b"], &["a"], &["10"]],
    );
    assert_eq!(r, vec![vec!["10"], vec!["a"], vec!["b"]]);
}

#[test]
fn order_by_unresolved_column_is_ignored() {
    let (_, r) = run(
        "SELECT V FROM t ORDER BY Missing",
        &["V"],
        &[&["b"], &["a"]],
    );
    assert_eq!(r, vec![vec!["b"], vec!["a"]]);
}

#[test]
fn order_by_is_stable_on_ties() {
    let (_, r) = run(
        "SELECT N, K FROM t ORDER BY K ASC",
        &["N", "K"],
        &[&["first", "1"], &["second", "1"], &["zero", "0"]],
    );
    assert_eq!(
        r,
        vec![
            vec!["zero", "0"],
            vec!["first", "1"],
            vec!["second", "1"]
        ]
    );
}

#[test]
fn missing_column_makes_predicate_false() {
    let (_, r) = run(
        "SELECT V FROM t WHERE Missing = 'x'",
        &["V"],
        &[&["a"], &["b"]],
    );
    assert_eq!(r.len(), 0);
}

#[test]
fn missing_group_by_column_groups_everything_together() {
    let (_, r) = run(
        "SELECT COUNT(V) FROM t GROUP BY Missing",
        &["V"],
        &[&["a"], &["b"]],
    );
    assert_eq!(r, vec![vec!["2"]]);
}

#[test]
fn projection_of_unresolved_column_is_empty_string() {
    let (h, r) = run("SELECT V, Missing FROM t", &["V"], &[&["a"]]);
    assert_eq!(h, vec!["V", "Missing"]);
    assert_eq!(r, vec![vec!["a", ""]]);
}

#[test]
fn rerunning_same_query_gives_identical_results() {
    let sql = "SELECT Genre, COUNT(Name) FROM t WHERE Year > 2000 GROUP BY Genre ORDER BY Genre";
    let headers: &[&str] = &["Genre", "Name", "Year"];
    let rows: &[&[&str]] = &[
        &["Action", "a", "2001"],
        &["Puzzle", "b", "1999"],
        &["Action", "c", "2005"],
    ];
    let first = run(sql, headers, rows);
    let second = run(sql, headers, rows);
    assert_eq!(first, second);
}

#[test]
fn evaluator_matches_query_result_on_and_chain() {
    // Filtering by an AND chain equals filtering twice.
    let once = run(
        "SELECT N FROM t WHERE Y > 10 AND Y < 20",
        &["N", "Y"],
        &[&["a", "5"], &["b", "15"], &["c", "25"], &["d", "19"]],
    );
    assert_eq!(once.1, vec![vec!["b"], vec!["d"]]);
}

#[test]
fn representative_row_supplies_plain_columns() {
    let (h, r) = run(
        "SELECT Genre, COUNT(Name) FROM t GROUP BY Genre",
        &["Genre", "Name"],
        &[&["Action", "a"], &["Action", "b"]],
    );
    assert_eq!(h, vec!["Genre", "COUNT(Name)"]);
    assert_eq!(r, vec![vec!["Action", "2"]]);
}

#[test]
fn aggregate_query_condition_via_ast() {
    // The same pipeline works on a hand-built query value.
    let (hs, rs) = table(
        &["Platform", "Sales"],
        &[&["Wii", "1"], &["DS", "2"], &["Wii", "3"]],
    );
    let query = SQLQuery {
        columns: vec![],
        table: "t".to_string(),
        condition: Some(Condition::Equal(
            "Platform".to_string(),
            "Wii".to_string(),
        )),
        order_by: None,
        distinct: false,
        group_by: None,
        aggregate_functions: vec![AggregateFunction::Sum("Sales".to_string())],
    };
    let (h, r) = apply_query(&hs, rs, &query);
    assert_eq!(h, vec!["SUM(Sales)"]);
    assert_eq!(r, vec![vec!["4"]]);
}

#[test]
fn order_by_struct_direction() {
    let (hs, rs) = table(&["V"], &[&["2"], &["1"]]);
    let query = SQLQuery {
        columns: vec!["V".to_string()],
        table: "t".to_string(),
        condition: None,
        order_by: Some(OrderBy {
            column: "V".to_string(),
            direction: SortDirection::Descending,
        }),
        distinct: false,
        group_by: None,
        aggregate_functions: vec![],
    };
    let (_, r) = apply_query(&hs, rs, &query);
    assert_eq!(r, vec![vec!["2"], vec!["1"]]);
}

#[test]
fn implicit_group_uses_first_row_as_representative() {
    let (h, r) = run(
        "SELECT Genre, COUNT(*) FROM t",
        &["Genre", "Name"],
        &[&["Action", "a"], &["Puzzle", "b"]],
    );
    assert_eq!(h, vec!["Genre", "COUNT(*)"]);
    assert_eq!(r, vec![vec!["Action", "2"]]);
}

#[test]
fn star_expands_in_aggregate_rows() {
    let (h, r) = run(
        "SELECT *, COUNT(*) FROM t GROUP BY G",
        &["G", "N"],
        &[&["x", "1"], &["x", "2"], &["y", "3"]],
    );
    assert_eq!(h, vec!["G", "N", "COUNT(*)"]);
    assert_eq!(r, vec![vec!["x", "1", "2"], vec!["y", "3", "1"]]);
}
