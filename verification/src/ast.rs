use vstd::prelude::*;

verus! {

/// Direction of an `ORDER BY` clause; ascending is the default.
#[derive(Debug, Clone, Copy, PartialEq, Eq, Structural)]
pub enum SortDirection {
    Ascending,
    Descending,
}

/// The sort requested by an `ORDER BY` clause: a result column name
/// (possibly a synthetic aggregate label such as `COUNT(Name)`) and a direction.
#[derive(Debug, PartialEq)]
pub struct OrderBy {
    pub column: String,
    pub direction: SortDirection,
}

/// An aggregate call from the select list. The payload is the argument
/// column name; the synthetic name `(*)` records a `COUNT(*)`-style call,
/// which is distinct from a plain `*` column.
#[derive(Debug, PartialEq)]
pub enum AggregateFunction {
    Count(String),
    Min(String),
    Max(String),
    Sum(String),
    Avg(String),
}

/// A boolean predicate over one row. Column names are resolved against the
/// headers only when a row is evaluated, never at parse time.
#[derive(Debug, PartialEq)]
pub enum Condition {
    /// column > integer
    GreaterThan(String, i32),
    /// column >= integer
    GreaterThanEqualTo(String, i32),
    /// column < integer
    LessThan(String, i32),
    /// column <= integer
    LessThanEqualTo(String, i32),
    /// column = string (plain string equality)
    Equal(String, String),
    /// column LIKE pattern, `%` matching any run of characters
    Like(String, String),
    /// column BETWEEN lo AND hi (inclusive on both ends)
    Between(String, i32, i32),
    And(Box<Condition>, Box<Condition>),
    Or(Box<Condition>, Box<Condition>),
    Not(Box<Condition>),
}

/// A parsed query: the abstract syntax that the executor consumes.
#[derive(Debug, PartialEq)]
pub struct SQLQuery {
    /// Plain (non-aggregate) projected column names, in declared order; `*` selects all.
    pub columns: Vec<String>,
    /// The table operand of `FROM`: a file path.
    pub table: String,
    /// The `WHERE` predicate, if any; absent means every row passes.
    pub condition: Option<Condition>,
    /// The `ORDER BY` request, if any.
    pub order_by: Option<OrderBy>,
    /// Whether `DISTINCT` was given.
    pub distinct: bool,
    /// The `GROUP BY` column names, if any.
    pub group_by: Option<Vec<String>>,
    /// Aggregate calls from the select list, in declared order.
    pub aggregate_functions: Vec<AggregateFunction>,
}

/// A query text that does not match the grammar. `offset` is the character
/// position of the first input character that could not be used.
#[derive(Debug, PartialEq)]
pub struct ParseError {
    pub offset: usize,
}

} // verus!
