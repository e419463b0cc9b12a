use vstd::prelude::*;
use crate::ast::Condition;
use crate::like::{like_match, like_matches};
use crate::numbers::{spec_parse_i32, parse_i32};
use crate::strings::str_eq;

verus! {

/// The index of the first header equal to `name`, if any: columns are
/// resolved by name, first match wins.
pub open spec fn col_index(headers: Seq<Seq<char>>, name: Seq<char>) -> Option<int>
    decreases headers.len(),
{
    if headers.len() == 0 {
        None
    } else if headers[0] == name {
        Some(0int)
    } else {
        match col_index(headers.skip(1), name) {
            Some(i) => Some(i + 1),
            None => None,
        }
    }
}

pub proof fn lemma_col_index_found(headers: Seq<Seq<char>>, name: Seq<char>, i: int)
    requires
        0 <= i < headers.len(),
        headers[i] == name,
        forall|j: int| 0 <= j < i ==> headers[j] != name,
    ensures
        col_index(headers, name) == Some(i),
    decreases i,
{
    if i > 0 {
        assert(forall|j: int| 0 <= j < i - 1 ==> headers.skip(1)[j] == headers[j + 1]);
        lemma_col_index_found(headers.skip(1), name, i - 1);
    }
}

pub proof fn lemma_col_index_none(headers: Seq<Seq<char>>, name: Seq<char>)
    requires
        forall|j: int| 0 <= j < headers.len() ==> headers[j] != name,
    ensures
        col_index(headers, name) is None,
    decreases headers.len(),
{
    if headers.len() > 0 {
        assert(forall|j: int| 0 <= j < headers.len() - 1 ==> headers.skip(1)[j] == headers[j + 1]);
        lemma_col_index_none(headers.skip(1), name);
    }
}

pub proof fn lemma_col_index_props(headers: Seq<Seq<char>>, name: Seq<char>)
    ensures
        col_index(headers, name) matches Some(i) ==> 0 <= i < headers.len() && headers[i] == name,
    decreases headers.len(),
{
    if headers.len() > 0 && headers[0] != name {
        lemma_col_index_props(headers.skip(1), name);
    }
}

/// Finds the first header named `name`, as `col_index` describes.
pub fn find_column(headers: &Vec<String>, name: &str) -> (r: Option<usize>)
    ensures
        match r {
            Some(i) => col_index(headers.deep_view(), name@) == Some(i as int),
            None => col_index(headers.deep_view(), name@) is None,
        },
{
    let ghost hs = headers.deep_view();
    let mut i: usize = 0;
    while i < headers.len()
        invariant
            i <= headers.len(),
            hs =~= headers.deep_view(),
            hs.len() == headers.len(),
            forall|j: int| 0 <= j < i ==> hs[j] != name@,
        decreases headers.len() - i,
    {
        if str_eq(headers[i].as_str(), name) {
            proof {
                assert(hs[i as int] == headers@[i as int]@);
                lemma_col_index_found(hs, name@, i as int);
            }
            return Some(i);
        }
        proof {
            assert(hs[i as int] == headers@[i as int]@);
        }
        i = i + 1;
    }
    proof {
        lemma_col_index_none(hs, name@);
    }
    None
}

/// The value a row holds for a resolved column: the field at that index,
/// or nothing when the row is too short.
pub open spec fn row_field(row: Seq<Seq<char>>, i: int) -> Option<Seq<char>> {
    if 0 <= i < row.len() {
        Some(row[i])
    } else {
        None
    }
}

/// Whether a numeric comparison holds for the row: the column must resolve,
/// the field must be present, and it must parse as an integer; otherwise
/// the comparison is false, never an error.
pub open spec fn compare_holds(
    headers: Seq<Seq<char>>,
    row: Seq<Seq<char>>,
    col: Seq<char>,
    lo: int,
    hi: int,
) -> bool {
    match col_index(headers, col) {
        Some(i) => match row_field(row, i) {
            Some(v) => match spec_parse_i32(v) {
                Some(n) => lo <= n <= hi,
                None => false,
            },
            None => false,
        },
        None => false,
    }
}

/// What a predicate means on one row, with headers resolved by name at
/// evaluation time. Missing columns, missing fields and non-numeric values
/// make the leaf false rather than failing.
pub open spec fn spec_eval(c: Condition, headers: Seq<Seq<char>>, row: Seq<Seq<char>>) -> bool
    decreases c,
{
    match c {
        Condition::GreaterThan(col, th) => compare_holds(
            headers,
            row,
            col@,
            th as int + 1,
            i32::MAX as int,
        ),
        Condition::GreaterThanEqualTo(col, th) => compare_holds(
            headers,
            row,
            col@,
            th as int,
            i32::MAX as int,
        ),
        Condition::LessThan(col, th) => compare_holds(
            headers,
            row,
            col@,
            i32::MIN as int,
            th as int - 1,
        ),
        Condition::LessThanEqualTo(col, th) => compare_holds(
            headers,
            row,
            col@,
            i32::MIN as int,
            th as int,
        ),
        Condition::Between(col, lo, hi) => compare_holds(headers, row, col@, lo as int, hi as int),
        Condition::Equal(col, expected) => match col_index(headers, col@) {
            Some(i) => match row_field(row, i) {
                Some(v) => v == expected@,
                None => false,
            },
            None => false,
        },
        Condition::Like(col, pattern) => match col_index(headers, col@) {
            Some(i) => match row_field(row, i) {
                Some(v) => like_match(pattern@, v),
                None => false,
            },
            None => false,
        },
        Condition::And(a, b) => spec_eval(*a, headers, row) && spec_eval(*b, headers, row),
        Condition::Or(a, b) => spec_eval(*a, headers, row) || spec_eval(*b, headers, row),
        Condition::Not(a) => !spec_eval(*a, headers, row),
    }
}

/// Looks a column up and compares the parsed field against `[lo, hi]`,
/// as `compare_holds` describes.
fn compare_range(headers: &Vec<String>, row: &Vec<String>, col: &str, lo: i32, hi: i32) -> (r:
    bool)
    ensures
        r == compare_holds(headers.deep_view(), row.deep_view(), col@, lo as int, hi as int),
{
    match find_column(headers, col) {
        Some(i) => {
            if i < row.len() {
                proof {
                    assert(row.deep_view()[i as int] == row@[i as int]@);
                }
                match parse_i32(row[i].as_str()) {
                    Some(n) => lo <= n && n <= hi,
                    None => false,
                }
            } else {
                false
            }
        },
        None => false,
    }
}

/// Evaluates a predicate on one row, as `spec_eval` describes: a pure
/// function of the condition, the row and the headers.
pub fn evaluate_condition(condition: &Condition, row: &Vec<String>, headers: &Vec<String>) -> (r:
    bool)
    ensures
        r == spec_eval(*condition, headers.deep_view(), row.deep_view()),
    decreases *condition,
{
    match condition {
        Condition::GreaterThan(col, th) => {
            if *th == i32::MAX {
                proof {
                    lemma_col_index_props(headers.deep_view(), col@);
                }
                false
            } else {
                compare_range(headers, row, col.as_str(), *th + 1, i32::MAX)
            }
        },
        Condition::GreaterThanEqualTo(col, th) => compare_range(
            headers,
            row,
            col.as_str(),
            *th,
            i32::MAX,
        ),
        Condition::LessThan(col, th) => {
            if *th == i32::MIN {
                proof {
                    lemma_col_index_props(headers.deep_view(), col@);
                }
                false
            } else {
                compare_range(headers, row, col.as_str(), i32::MIN, *th - 1)
            }
        },
        Condition::LessThanEqualTo(col, th) => compare_range(
            headers,
            row,
            col.as_str(),
            i32::MIN,
            *th,
        ),
        Condition::Between(col, lo, hi) => compare_range(headers, row, col.as_str(), *lo, *hi),
        Condition::Equal(col, expected) => {
            match find_column(headers, col.as_str()) {
                Some(i) => {
                    if i < row.len() {
                        proof {
                            assert(row.deep_view()[i as int] == row@[i as int]@);
                        }
                        str_eq(row[i].as_str(), expected.as_str())
                    } else {
                        false
                    }
                },
                None => false,
            }
        },
        Condition::Like(col, pattern) => {
            match find_column(headers, col.as_str()) {
                Some(i) => {
                    if i < row.len() {
                        proof {
                            assert(row.deep_view()[i as int] == row@[i as int]@);
                        }
                        like_matches(pattern.as_str(), row[i].as_str())
                    } else {
                        false
                    }
                },
                None => false,
            }
        },
        Condition::And(a, b) => {
            let ra = evaluate_condition(a, row, headers);
            let rb = evaluate_condition(b, row, headers);
            ra && rb
        },
        Condition::Or(a, b) => {
            let ra = evaluate_condition(a, row, headers);
            let rb = evaluate_condition(b, row, headers);
            ra || rb
        },
        Condition::Not(a) => !evaluate_condition(a, row, headers),
    }
}

/// Double negation: `NOT (NOT p)` evaluates exactly as `p`, on every row.
pub proof fn lemma_not_not(p: Condition, headers: Seq<Seq<char>>, row: Seq<Seq<char>>)
    ensures
        spec_eval(Condition::Not(Box::new(Condition::Not(Box::new(p)))), headers, row)
            == spec_eval(p, headers, row),
{
    reveal_with_fuel(spec_eval, 3);
}

/// `BETWEEN` is conjunction of the two inclusive bounds: `col BETWEEN lo
/// AND hi` evaluates exactly as `col >= lo AND col <= hi`, on every row.
pub proof fn lemma_between_is_and(
    col: String,
    lo: i32,
    hi: i32,
    headers: Seq<Seq<char>>,
    row: Seq<Seq<char>>,
)
    ensures
        spec_eval(Condition::Between(col, lo, hi), headers, row) == spec_eval(
            Condition::And(
                Box::new(Condition::GreaterThanEqualTo(col, lo)),
                Box::new(Condition::LessThanEqualTo(col, hi)),
            ),
            headers,
            row,
        ),
{
    reveal_with_fuel(spec_eval, 3);
}

/// Conjunction is associative under evaluation: the two nestings of an
/// `AND` chain agree on every row.
pub proof fn lemma_and_assoc(
    a: Condition,
    b: Condition,
    c: Condition,
    headers: Seq<Seq<char>>,
    row: Seq<Seq<char>>,
)
    ensures
        spec_eval(
            Condition::And(Box::new(Condition::And(Box::new(a), Box::new(b))), Box::new(c)),
            headers,
            row,
        ) == spec_eval(
            Condition::And(Box::new(a), Box::new(Condition::And(Box::new(b), Box::new(c)))),
            headers,
            row,
        ),
{
    reveal_with_fuel(spec_eval, 3);
}

} // verus!
