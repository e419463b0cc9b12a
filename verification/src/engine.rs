use vstd::prelude::*;
use crate::ast::{AggregateFunction, Condition, SQLQuery, SortDirection};
use crate::eval::{col_index, spec_eval, evaluate_condition, find_column, row_field};
use crate::strings::{join_comma, join_with_commas, lex_le, str_eq, str_le};
use crate::numbers::{
    add_clamp18, add_clamped, dec_val18, digits_string, dec_digits, parse_dec, pow10, render18,
    render_avg18, render_scaled18, avg_scaled18, spec_dec_of, val18, lemma_spec_dec_wf,
    lemma_pow10_37,
};

verus! {


/// Appends a field, tracked on the deep view.
pub fn push_str(v: &mut Vec<String>, x: String)
    ensures
        final(v).deep_view() == old(v).deep_view().push(x@),
        final(v)@.len() == old(v)@.len() + 1,
{
    let ghost prev = v@;
    let ghost pre = v.deep_view();
    v.push(x);
    proof {
        assert forall|k: int| 0 <= k < v@.len() implies v.deep_view()[k] == pre.push(x@)[k] by {
            assert(v.deep_view()[k] == v@[k].deep_view());
            if k < prev.len() {
                assert(v@[k] == prev[k]);
                assert(pre[k] == prev[k].deep_view());
            }
        }
        assert(v.deep_view() =~= pre.push(x@));
    }
}

/// Appends a row, tracked on the deep view.
pub fn push_row(v: &mut Vec<Vec<String>>, x: Vec<String>)
    ensures
        final(v).deep_view() == old(v).deep_view().push(x.deep_view()),
        final(v)@.len() == old(v)@.len() + 1,
{
    let ghost prev = v@;
    let ghost pre = v.deep_view();
    let ghost xd = x.deep_view();
    v.push(x);
    proof {
        assert forall|k: int| 0 <= k < v@.len() implies v.deep_view()[k] == pre.push(xd)[k] by {
            assert(v.deep_view()[k] == v@[k].deep_view());
            if k < prev.len() {
                assert(v@[k] == prev[k]);
                assert(pre[k] == prev[k].deep_view());
            }
        }
        assert(v.deep_view() =~= pre.push(xd));
    }
}

/// Whether a row passes the optional `WHERE` predicate: with no predicate
/// every row passes.
pub open spec fn row_passes(
    c: Option<Condition>,
    headers: Seq<Seq<char>>,
    row: Seq<Seq<char>>,
) -> bool {
    match c {
        Some(cond) => spec_eval(cond, headers, row),
        None => true,
    }
}

/// The rows that pass the predicate, in their original order.
pub open spec fn spec_filter(
    rows: Seq<Seq<Seq<char>>>,
    headers: Seq<Seq<char>>,
    c: Option<Condition>,
) -> Seq<Seq<Seq<char>>>
    decreases rows.len(),
{
    if rows.len() == 0 {
        Seq::empty()
    } else {
        let pre = spec_filter(rows.drop_last(), headers, c);
        if row_passes(c, headers, rows.last()) {
            pre.push(rows.last())
        } else {
            pre
        }
    }
}

/// A field-for-field copy of a row.
pub fn clone_row(row: &Vec<String>) -> (r: Vec<String>)
    ensures
        r.deep_view() == row.deep_view(),
{
    let mut out: Vec<String> = Vec::new();
    let mut i: usize = 0;
    while i < row.len()
        invariant
            i <= row.len(),
            out.deep_view() =~= row.deep_view().take(i as int),
        decreases row.len() - i,
    {
        push_str(&mut out, row[i].clone());
        proof {
            assert(row.deep_view()[i as int] == row@[i as int]@);
            assert(out.deep_view() =~= row.deep_view().take(i + 1));
        }
        i = i + 1;
    }
    proof {
        assert(row.deep_view().take(row.len() as int) =~= row.deep_view());
    }
    out
}

/// Keeps the rows that pass the predicate, as `spec_filter` describes.
pub fn filter_rows(headers: &Vec<String>, records: &Vec<Vec<String>>, condition: &Option<
    Condition,
>) -> (r: Vec<Vec<String>>)
    ensures
        r.deep_view() == spec_filter(records.deep_view(), headers.deep_view(), *condition),
{
    let mut out: Vec<Vec<String>> = Vec::new();
    let mut i: usize = 0;
    while i < records.len()
        invariant
            i <= records.len(),
            out.deep_view() =~= spec_filter(
                records.deep_view().take(i as int),
                headers.deep_view(),
                *condition,
            ),
        decreases records.len() - i,
    {
        let keep = match condition {
            Some(cond) => evaluate_condition(cond, &records[i], headers),
            None => true,
        };
        proof {
            assert(records.deep_view()[i as int] == records@[i as int].deep_view());
            assert(records.deep_view().take(i + 1).drop_last() =~= records.deep_view().take(
                i as int,
            ));
            assert(records.deep_view().take(i + 1).last() == records.deep_view()[i as int]);
        }
        if keep {
            push_row(&mut out, clone_row(&records[i]));
        }
        proof {
            assert(out.deep_view() =~= spec_filter(
                records.deep_view().take(i + 1),
                headers.deep_view(),
                *condition,
            ));
        }
        i = i + 1;
    }
    proof {
        assert(records.deep_view().take(records.len() as int) =~= records.deep_view());
    }
    out
}

/// The law of conjunctive filtering: filtering by `a AND b` is filtering by
/// `a`, then by `b` — an `AND` chain may be applied one comparison at a time.
pub proof fn lemma_filter_and(
    rows: Seq<Seq<Seq<char>>>,
    headers: Seq<Seq<char>>,
    a: Condition,
    b: Condition,
)
    ensures
        spec_filter(rows, headers, Some(Condition::And(Box::new(a), Box::new(b)))) == spec_filter(
            spec_filter(rows, headers, Some(a)),
            headers,
            Some(b),
        ),
    decreases rows.len(),
{
    reveal_with_fuel(spec_eval, 2);
    if rows.len() > 0 {
        lemma_filter_and(rows.drop_last(), headers, a, b);
        let r = rows.last();
        let ab = Condition::And(Box::new(a), Box::new(b));
        let inner = spec_filter(rows.drop_last(), headers, Some(a));
        if spec_eval(a, headers, r) {
            assert(inner.push(r).drop_last() =~= inner);
            assert(inner.push(r).last() == r);
            assert(spec_filter(rows, headers, Some(a)) == inner.push(r));
        }
    }
}

/// The plain (non-aggregate) part of the result header: each requested
/// column name in order, `*` standing for all source headers.
pub open spec fn spec_plain_headers(cols: Seq<Seq<char>>, headers: Seq<Seq<char>>) -> Seq<Seq<char>>
    decreases cols.len(),
{
    if cols.len() == 0 {
        Seq::empty()
    } else {
        spec_plain_headers(cols.drop_last(), headers) + (if cols.last() == seq!['*'] {
            headers
        } else {
            seq![cols.last()]
        })
    }
}

/// The synthetic column name recording a `COUNT(*)`-style call.
pub open spec fn star_arg() -> Seq<char> {
    seq!['(', '*', ')']
}

/// The argument column of an aggregate call.
pub open spec fn agg_col(f: AggregateFunction) -> Seq<char> {
    match f {
        AggregateFunction::Count(c) => c@,
        AggregateFunction::Min(c) => c@,
        AggregateFunction::Max(c) => c@,
        AggregateFunction::Sum(c) => c@,
        AggregateFunction::Avg(c) => c@,
    }
}

/// The synthetic result-header label of an aggregate call, such as
/// `COUNT(Name)` or `SUM(*)`.
pub open spec fn agg_label(f: AggregateFunction) -> Seq<char> {
    let name = match f {
        AggregateFunction::Count(_) => seq!['C', 'O', 'U', 'N', 'T'],
        AggregateFunction::Min(_) => seq!['M', 'I', 'N'],
        AggregateFunction::Max(_) => seq!['M', 'A', 'X'],
        AggregateFunction::Sum(_) => seq!['S', 'U', 'M'],
        AggregateFunction::Avg(_) => seq!['A', 'V', 'G'],
    };
    let shown = if agg_col(f) == star_arg() {
        seq!['*']
    } else {
        agg_col(f)
    };
    name + seq!['('] + shown + seq![')']
}

/// The full result header: plain columns first, then one label per
/// aggregate call, in declared order.
pub open spec fn spec_result_headers(
    cols: Seq<Seq<char>>,
    fs: Seq<AggregateFunction>,
    headers: Seq<Seq<char>>,
) -> Seq<Seq<char>>
    decreases fs.len(),
{
    if fs.len() == 0 {
        spec_plain_headers(cols, headers)
    } else {
        spec_result_headers(cols, fs.drop_last(), headers).push(agg_label(fs.last()))
    }
}

/// True when some requested column is the wildcard `*`.
pub open spec fn has_star(cols: Seq<Seq<char>>) -> bool {
    exists|i: int| 0 <= i < cols.len() && cols[i] == seq!['*']
}

fn is_star(s: &str) -> (r: bool)
    ensures
        r == (s@ == seq!['*']),
{
    proof {
        reveal_strlit("*");
        assert("*"@ =~= seq!['*']);
    }
    str_eq(s, "*")
}

/// Builds the aggregate label of `f`, as `agg_label` describes.
fn agg_label_string(f: &AggregateFunction) -> (r: String)
    ensures
        r@ == agg_label(*f),
{
    proof {
        reveal_strlit("COUNT");
        reveal_strlit("MIN");
        reveal_strlit("MAX");
        reveal_strlit("SUM");
        reveal_strlit("AVG");
        reveal_strlit("(");
        reveal_strlit(")");
        reveal_strlit("*");
        reveal_strlit("(*)");
        assert("COUNT"@ =~= seq!['C', 'O', 'U', 'N', 'T']);
        assert("MIN"@ =~= seq!['M', 'I', 'N']);
        assert("MAX"@ =~= seq!['M', 'A', 'X']);
        assert("SUM"@ =~= seq!['S', 'U', 'M']);
        assert("AVG"@ =~= seq!['A', 'V', 'G']);
        assert("("@ =~= seq!['(']);
        assert(")"@ =~= seq![')']);
        assert("*"@ =~= seq!['*']);
        assert("(*)"@ =~= star_arg());
    }
    let mut out = String::new();
    let col: &String = match f {
        AggregateFunction::Count(c) => {
            out.append("COUNT");
            c
        },
        AggregateFunction::Min(c) => {
            out.append("MIN");
            c
        },
        AggregateFunction::Max(c) => {
            out.append("MAX");
            c
        },
        AggregateFunction::Sum(c) => {
            out.append("SUM");
            c
        },
        AggregateFunction::Avg(c) => {
            out.append("AVG");
            c
        },
    };
    out.append("(");
    if str_eq(col.as_str(), "(*)") {
        out.append("*");
    } else {
        out.append(col.as_str());
    }
    out.append(")");
    proof {
        assert(out@ =~= agg_label(*f));
    }
    out
}

/// Builds the result header, as `spec_result_headers` describes.
pub fn build_result_headers(
    columns: &Vec<String>,
    aggregates: &Vec<AggregateFunction>,
    headers: &Vec<String>,
) -> (r: Vec<String>)
    ensures
        r.deep_view() == spec_result_headers(
            columns.deep_view(),
            aggregates@,
            headers.deep_view(),
        ),
{
    let mut out: Vec<String> = Vec::new();
    let mut i: usize = 0;
    while i < columns.len()
        invariant
            i <= columns.len(),
            out.deep_view() =~= spec_plain_headers(
                columns.deep_view().take(i as int),
                headers.deep_view(),
            ),
        decreases columns.len() - i,
    {
        proof {
            assert(columns.deep_view().take(i + 1).drop_last() =~= columns.deep_view().take(
                i as int,
            ));
            assert(columns.deep_view().take(i + 1).last() == columns@[i as int]@);
        }
        if is_star(columns[i].as_str()) {
            let mut j: usize = 0;
            while j < headers.len()
                invariant
                    j <= headers.len(),
                    out.deep_view() =~= spec_plain_headers(
                        columns.deep_view().take(i as int),
                        headers.deep_view(),
                    ) + headers.deep_view().take(j as int),
                decreases headers.len() - j,
            {
                push_str(&mut out, headers[j].clone());
                proof {
                    assert(headers.deep_view()[j as int] == headers@[j as int]@);
                    assert(out.deep_view() =~= spec_plain_headers(
                        columns.deep_view().take(i as int),
                        headers.deep_view(),
                    ) + headers.deep_view().take(j + 1));
                }
                j = j + 1;
            }
            proof {
                assert(headers.deep_view().take(headers.len() as int) =~= headers.deep_view());
            }
        } else {
            push_str(&mut out, columns[i].clone());
            proof {
                assert(out.deep_view() =~= spec_plain_headers(
                    columns.deep_view().take(i as int),
                    headers.deep_view(),
                ) + seq![columns@[i as int]@]);
            }
        }
        proof {
            assert(out.deep_view() =~= spec_plain_headers(
                columns.deep_view().take(i + 1),
                headers.deep_view(),
            ));
        }
        i = i + 1;
    }
    proof {
        assert(columns.deep_view().take(columns.len() as int) =~= columns.deep_view());
        assert(aggregates@.take(0int) =~= Seq::<AggregateFunction>::empty());
    }
    let mut k: usize = 0;
    while k < aggregates.len()
        invariant
            k <= aggregates.len(),
            out.deep_view() =~= spec_result_headers(
                columns.deep_view(),
                aggregates@.take(k as int),
                headers.deep_view(),
            ),
        decreases aggregates.len() - k,
    {
        let lbl = agg_label_string(&aggregates[k]);
        push_str(&mut out, lbl);
        proof {
            assert(aggregates@.take(k + 1).drop_last() =~= aggregates@.take(
                k as int,
            ));
            assert(aggregates@.take(k + 1).last() == aggregates@[k as int]);
            assert(out.deep_view() =~= spec_result_headers(
                columns.deep_view(),
                aggregates@.take(k + 1),
                headers.deep_view(),
            ));
        }
        k = k + 1;
    }
    proof {
        assert(aggregates@.take(aggregates.len() as int) =~= aggregates@);
    }
    out
}

} // verus!

verus! {

/// The value a row supplies for a named column when building group keys and
/// representative cells: the field at the first matching header, or the
/// empty string when the column or the field is missing.
pub open spec fn spec_cell(
    headers: Seq<Seq<char>>,
    row: Seq<Seq<char>>,
    col: Seq<char>,
) -> Seq<char> {
    match col_index(headers, col) {
        Some(i) => match row_field(row, i) {
            Some(v) => v,
            None => Seq::empty(),
        },
        None => Seq::empty(),
    }
}

/// The values of the `GROUP BY` columns for one row, in order.
pub open spec fn spec_key_values(
    headers: Seq<Seq<char>>,
    cols: Seq<Seq<char>>,
    row: Seq<Seq<char>>,
) -> Seq<Seq<char>>
    decreases cols.len(),
{
    if cols.len() == 0 {
        Seq::empty()
    } else {
        spec_key_values(headers, cols.drop_last(), row).push(spec_cell(headers, row, cols.last()))
    }
}

/// A row's group key: the comma-joined values of the `GROUP BY` columns.
pub open spec fn spec_group_key(
    headers: Seq<Seq<char>>,
    cols: Seq<Seq<char>>,
    row: Seq<Seq<char>>,
) -> Seq<char> {
    join_comma(spec_key_values(headers, cols, row))
}

/// One bucket of the grouping stage: a key and its member rows, in arrival
/// order.
pub struct Group {
    pub key: String,
    pub rows: Vec<Vec<String>>,
}

/// The mathematical shape of a group list.
pub open spec fn gview(gs: Seq<Group>) -> Seq<(Seq<char>, Seq<Seq<Seq<char>>>)> {
    gs.map_values(|g: Group| (g.key@, g.rows.deep_view()))
}

/// Adds a row to the first bucket with its key, or opens a new bucket at
/// the end.
pub open spec fn spec_insert_row(
    gs: Seq<(Seq<char>, Seq<Seq<Seq<char>>>)>,
    key: Seq<char>,
    row: Seq<Seq<char>>,
) -> Seq<(Seq<char>, Seq<Seq<Seq<char>>>)>
    decreases gs.len(),
{
    if gs.len() == 0 {
        seq![(key, seq![row])]
    } else if gs[0].0 == key {
        seq![(gs[0].0, gs[0].1.push(row))] + gs.skip(1)
    } else {
        seq![gs[0]] + spec_insert_row(gs.skip(1), key, row)
    }
}

/// The grouping of the rows by their group keys: buckets appear in order of
/// first occurrence, and each bucket keeps its rows in arrival order.
pub open spec fn spec_group(
    rows: Seq<Seq<Seq<char>>>,
    headers: Seq<Seq<char>>,
    cols: Seq<Seq<char>>,
) -> Seq<(Seq<char>, Seq<Seq<Seq<char>>>)>
    decreases rows.len(),
{
    if rows.len() == 0 {
        Seq::empty()
    } else {
        spec_insert_row(
            spec_group(rows.drop_last(), headers, cols),
            spec_group_key(headers, cols, rows.last()),
            rows.last(),
        )
    }
}

/// Reads the cell a row supplies for a named column, as `spec_cell`
/// describes.
pub fn cell_of(headers: &Vec<String>, row: &Vec<String>, col: &str) -> (r: String)
    ensures
        r@ == spec_cell(headers.deep_view(), row.deep_view(), col@),
{
    match find_column(headers, col) {
        Some(i) => {
            if i < row.len() {
                proof {
                    assert(row.deep_view()[i as int] == row@[i as int]@);
                }
                row[i].clone()
            } else {
                String::new()
            }
        },
        None => String::new(),
    }
}

/// Builds a row's group key, as `spec_group_key` describes.
pub fn group_key(headers: &Vec<String>, row: &Vec<String>, cols: &Vec<String>) -> (r: String)
    ensures
        r@ == spec_group_key(headers.deep_view(), cols.deep_view(), row.deep_view()),
{
    let mut vals: Vec<String> = Vec::new();
    let mut i: usize = 0;
    while i < cols.len()
        invariant
            i <= cols.len(),
            vals.deep_view() =~= spec_key_values(
                headers.deep_view(),
                cols.deep_view().take(i as int),
                row.deep_view(),
            ),
        decreases cols.len() - i,
    {
        let v = cell_of(headers, row, cols[i].as_str());
        push_str(&mut vals, v);
        proof {
            assert(cols.deep_view().take(i + 1).drop_last() =~= cols.deep_view().take(i as int));
            assert(cols.deep_view().take(i + 1).last() == cols@[i as int]@);
            assert(vals.deep_view() =~= spec_key_values(
                headers.deep_view(),
                cols.deep_view().take(i + 1),
                row.deep_view(),
            ));
        }
        i = i + 1;
    }
    proof {
        assert(cols.deep_view().take(cols.len() as int) =~= cols.deep_view());
    }
    join_with_commas(&vals)
}

pub proof fn lemma_insert_row_found(
    gs: Seq<(Seq<char>, Seq<Seq<Seq<char>>>)>,
    key: Seq<char>,
    row: Seq<Seq<char>>,
    gi: int,
)
    requires
        0 <= gi < gs.len(),
        gs[gi].0 == key,
        forall|j: int| 0 <= j < gi ==> gs[j].0 != key,
    ensures
        spec_insert_row(gs, key, row) =~= gs.update(gi, (gs[gi].0, gs[gi].1.push(row))),
    decreases gi,
{
    if gi == 0 {
        assert(spec_insert_row(gs, key, row) =~= gs.update(0, (gs[0].0, gs[0].1.push(row))));
    } else {
        assert(forall|j: int| 0 <= j < gi - 1 ==> gs.skip(1)[j] == gs[j + 1]);
        lemma_insert_row_found(gs.skip(1), key, row, gi - 1);
        assert(spec_insert_row(gs, key, row) =~= gs.update(gi, (gs[gi].0, gs[gi].1.push(row))));
    }
}

pub proof fn lemma_insert_row_new(
    gs: Seq<(Seq<char>, Seq<Seq<Seq<char>>>)>,
    key: Seq<char>,
    row: Seq<Seq<char>>,
)
    requires
        forall|j: int| 0 <= j < gs.len() ==> gs[j].0 != key,
    ensures
        spec_insert_row(gs, key, row) =~= gs.push((key, seq![row])),
    decreases gs.len(),
{
    if gs.len() > 0 {
        assert(forall|j: int| 0 <= j < gs.len() - 1 ==> gs.skip(1)[j] == gs[j + 1]);
        lemma_insert_row_new(gs.skip(1), key, row);
        assert(spec_insert_row(gs, key, row) =~= gs.push((key, seq![row])));
    }
}

/// The first bucket holding `key`, if any.
fn find_group(groups: &Vec<Group>, key: &str) -> (r: Option<usize>)
    ensures
        match r {
            Some(gi) => {
                &&& 0 <= gi < groups@.len()
                &&& gview(groups@)[gi as int].0 == key@
                &&& forall|j: int| 0 <= j < gi ==> gview(groups@)[j].0 != key@
            },
            None => forall|j: int| 0 <= j < groups@.len() ==> gview(groups@)[j].0 != key@,
        },
{
    let mut gi: usize = 0;
    while gi < groups.len()
        invariant
            gi <= groups.len(),
            forall|j: int| 0 <= j < gi ==> gview(groups@)[j].0 != key@,
        decreases groups.len() - gi,
    {
        proof {
            assert(gview(groups@)[gi as int].0 == groups@[gi as int].key@);
        }
        if str_eq(groups[gi].key.as_str(), key) {
            return Some(gi);
        }
        gi = gi + 1;
    }
    None
}

/// Buckets the rows by group key, as `spec_group` describes.
pub fn group_rows(headers: &Vec<String>, rows: &Vec<Vec<String>>, cols: &Vec<String>) -> (r: Vec<
    Group,
>)
    ensures
        gview(r@) == spec_group(rows.deep_view(), headers.deep_view(), cols.deep_view()),
{
    let mut groups: Vec<Group> = Vec::new();
    let mut i: usize = 0;
    proof {
        assert(gview(groups@) =~= spec_group(
            rows.deep_view().take(0int),
            headers.deep_view(),
            cols.deep_view(),
        ));
    }
    while i < rows.len()
        invariant
            i <= rows.len(),
            gview(groups@) =~= spec_group(
                rows.deep_view().take(i as int),
                headers.deep_view(),
                cols.deep_view(),
            ),
        decreases rows.len() - i,
    {
        let key = group_key(headers, &rows[i], cols);
        let ghost gpre = gview(groups@);
        let ghost rowv = rows.deep_view()[i as int];
        proof {
            assert(rowv == rows@[i as int].deep_view());
            assert(rows.deep_view().take(i + 1).drop_last() =~= rows.deep_view().take(i as int));
            assert(rows.deep_view().take(i + 1).last() == rowv);
        }
        match find_group(&groups, key.as_str()) {
            Some(gi) => {
                proof {
                    assert(gview(groups@)[gi as int].1 == groups@[gi as int].rows.deep_view());
                }
                let ghost gs0 = groups@;
                let mut grp = groups.remove(gi);
                push_row(&mut grp.rows, clone_row(&rows[i]));
                groups.insert(gi, grp);
                proof {
                    lemma_insert_row_found(gpre, key@, rowv, gi as int);
                    let target = gpre.update(
                        gi as int,
                        (gpre[gi as int].0, gpre[gi as int].1.push(rowv)),
                    );
                    assert(groups@.len() == gs0.len());
                    assert forall|j: int| 0 <= j < groups@.len() implies gview(groups@)[j]
                        == target[j] by {
                        assert(gview(groups@)[j] == (groups@[j].key@, groups@[j].rows.deep_view()));
                        if j < gi {
                            assert(groups@[j] == gs0[j]);
                            assert(gview(gs0)[j] == (gs0[j].key@, gs0[j].rows.deep_view()));
                        } else if j == gi {
                            assert(groups@[gi as int].key@ == gpre[gi as int].0);
                            assert(groups@[gi as int].rows.deep_view() == gpre[gi as int].1.push(
                                rowv,
                            ));
                        } else {
                            assert(groups@[j] == gs0.remove(gi as int)[j - 1]);
                            assert(gs0.remove(gi as int)[j - 1] == gs0[j]);
                            assert(gview(gs0)[j] == (gs0[j].key@, gs0[j].rows.deep_view()));
                        }
                    }
                    assert(gview(groups@) =~= target);
                }
            },
            None => {
                let mut nrows: Vec<Vec<String>> = Vec::new();
                push_row(&mut nrows, clone_row(&rows[i]));
                proof {
                    assert(nrows.deep_view() =~= seq![rowv]);
                }
                let ghost gs0 = groups@;
                groups.push(Group { key, rows: nrows });
                proof {
                    lemma_insert_row_new(gpre, key@, rowv);
                    let target = gpre.push((key@, seq![rowv]));
                    assert forall|j: int| 0 <= j < groups@.len() implies gview(groups@)[j]
                        == target[j] by {
                        assert(gview(groups@)[j] == (groups@[j].key@, groups@[j].rows.deep_view()));
                        if j < gpre.len() {
                            assert(groups@[j] == gs0[j]);
                            assert(gview(gs0)[j] == (gs0[j].key@, gs0[j].rows.deep_view()));
                        }
                    }
                    assert(gview(groups@) =~= target);
                    assert(gview(groups@) =~= spec_insert_row(gpre, key@, rowv));
                }
            },
        }
        proof {
            assert(gview(groups@) =~= spec_group(
                rows.deep_view().take(i + 1),
                headers.deep_view(),
                cols.deep_view(),
            ));
        }
        i = i + 1;
    }
    proof {
        assert(rows.deep_view().take(rows.len() as int) =~= rows.deep_view());
    }
    groups
}

} // verus!

verus! {

/// The field at index `i`, or the empty string when the row is shorter.
pub open spec fn field_or_empty(row: Seq<Seq<char>>, i: int) -> Seq<char> {
    match row_field(row, i) {
        Some(v) => v,
        None => Seq::empty(),
    }
}

/// Reads the field at `i`, as `field_or_empty` describes.
fn field_at(row: &Vec<String>, i: usize) -> (r: String)
    ensures
        r@ == field_or_empty(row.deep_view(), i as int),
{
    if i < row.len() {
        proof {
            assert(row.deep_view()[i as int] == row@[i as int]@);
        }
        row[i].clone()
    } else {
        String::new()
    }
}

/// How many members hold a non-empty value in column `i`.
pub open spec fn count_nonempty(ms: Seq<Seq<Seq<char>>>, i: int) -> nat
    decreases ms.len(),
{
    if ms.len() == 0 {
        0
    } else {
        count_nonempty(ms.drop_last(), i) + (if field_or_empty(ms.last(), i).len() > 0 {
            1nat
        } else {
            0
        })
    }
}

/// How many members hold a value in column `i` that denotes a number.
pub open spec fn count_parsing(ms: Seq<Seq<Seq<char>>>, i: int) -> nat
    decreases ms.len(),
{
    if ms.len() == 0 {
        0
    } else {
        count_parsing(ms.drop_last(), i) + (if spec_dec_of(field_or_empty(ms.last(), i)) is Some {
            1nat
        } else {
            0
        })
    }
}

/// The lexicographically least non-empty value of column `i` over the
/// members, if any; ties keep the earlier value.
pub open spec fn fold_min(ms: Seq<Seq<Seq<char>>>, i: int) -> Option<Seq<char>>
    decreases ms.len(),
{
    if ms.len() == 0 {
        None
    } else {
        let pre = fold_min(ms.drop_last(), i);
        let v = field_or_empty(ms.last(), i);
        if v.len() == 0 {
            pre
        } else {
            match pre {
                None => Some(v),
                Some(m) => if lex_le(m, v) {
                    Some(m)
                } else {
                    Some(v)
                },
            }
        }
    }
}

/// The lexicographically greatest non-empty value of column `i` over the
/// members, if any; ties keep the later value.
pub open spec fn fold_max(ms: Seq<Seq<Seq<char>>>, i: int) -> Option<Seq<char>>
    decreases ms.len(),
{
    if ms.len() == 0 {
        None
    } else {
        let pre = fold_max(ms.drop_last(), i);
        let v = field_or_empty(ms.last(), i);
        if v.len() == 0 {
            pre
        } else {
            match pre {
                None => Some(v),
                Some(m) => if lex_le(v, m) {
                    Some(m)
                } else {
                    Some(v)
                },
            }
        }
    }
}

/// The clamped scale-18 sum of the member values of column `i` that denote
/// numbers; other values are skipped.
pub open spec fn sum18(ms: Seq<Seq<Seq<char>>>, i: int) -> int
    decreases ms.len(),
{
    if ms.len() == 0 {
        0
    } else {
        let pre = sum18(ms.drop_last(), i);
        match spec_dec_of(field_or_empty(ms.last(), i)) {
            Some(d) => add_clamp18(pre, val18(d)),
            None => pre,
        }
    }
}

pub proof fn lemma_sum18_bounded(ms: Seq<Seq<Seq<char>>>, i: int)
    ensures
        -pow10(37) <= sum18(ms, i) <= pow10(37),
    decreases ms.len(),
{
    lemma_pow10_37();
    if ms.len() > 0 {
        lemma_sum18_bounded(ms.drop_last(), i);
    }
}

pub open spec fn null_text() -> Seq<char> {
    seq!['N', 'U', 'L', 'L']
}

/// The printed value of one aggregate call over a group's members, by kind:
/// counts as decimal digits; lexicographic least and greatest non-empty
/// values, `NULL` when there are none; the decimal sum, `0` when the column
/// does not resolve; the truncated decimal mean over the values that denote
/// numbers, `NULL` when there are none.
pub open spec fn spec_agg_value(
    f: AggregateFunction,
    headers: Seq<Seq<char>>,
    ms: Seq<Seq<Seq<char>>>,
) -> Seq<char> {
    let col = agg_col(f);
    match f {
        AggregateFunction::Count(_) => {
            if col == star_arg() {
                dec_digits(ms.len())
            } else {
                match col_index(headers, col) {
                    Some(i) => dec_digits(count_nonempty(ms, i)),
                    None => seq!['0'],
                }
            }
        },
        AggregateFunction::Min(_) => match col_index(headers, col) {
            Some(i) => match fold_min(ms, i) {
                Some(v) => v,
                None => null_text(),
            },
            None => null_text(),
        },
        AggregateFunction::Max(_) => match col_index(headers, col) {
            Some(i) => match fold_max(ms, i) {
                Some(v) => v,
                None => null_text(),
            },
            None => null_text(),
        },
        AggregateFunction::Sum(_) => match col_index(headers, col) {
            Some(i) => render18(sum18(ms, i)),
            None => seq!['0'],
        },
        AggregateFunction::Avg(_) => match col_index(headers, col) {
            Some(i) => {
                let c = count_parsing(ms, i);
                if c == 0 {
                    null_text()
                } else {
                    render_avg18(sum18(ms, i), c)
                }
            },
            None => null_text(),
        },
    }
}

fn count_nonempty_at(ms: &Vec<Vec<String>>, i: usize) -> (r: usize)
    ensures
        r == count_nonempty(ms.deep_view(), i as int),
{
    let mut c: usize = 0;
    let mut j: usize = 0;
    while j < ms.len()
        invariant
            j <= ms.len(),
            c <= j,
            c == count_nonempty(ms.deep_view().take(j as int), i as int),
        decreases ms.len() - j,
    {
        proof {
            assert(ms.deep_view().take(j + 1).drop_last() =~= ms.deep_view().take(j as int));
            assert(ms.deep_view().take(j + 1).last() == ms@[j as int].deep_view());
        }
        if i < ms[j].len() {
            proof {
                assert(ms@[j as int].deep_view()[i as int] == ms@[j as int]@[i as int]@);
            }
            if !ms[j][i].as_str().is_empty() {
                c = c + 1;
            }
        }
        j = j + 1;
    }
    proof {
        assert(ms.deep_view().take(ms.len() as int) =~= ms.deep_view());
    }
    c
}

fn count_parsing_at(ms: &Vec<Vec<String>>, i: usize) -> (r: usize)
    ensures
        r == count_parsing(ms.deep_view(), i as int),
{
    let mut c: usize = 0;
    let mut j: usize = 0;
    while j < ms.len()
        invariant
            j <= ms.len(),
            c <= j,
            c == count_parsing(ms.deep_view().take(j as int), i as int),
        decreases ms.len() - j,
    {
        proof {
            assert(ms.deep_view().take(j + 1).drop_last() =~= ms.deep_view().take(j as int));
            assert(ms.deep_view().take(j + 1).last() == ms@[j as int].deep_view());
        }
        let v = field_at(&ms[j], i);
        if parse_dec(v.as_str()).is_some() {
            c = c + 1;
        }
        j = j + 1;
    }
    proof {
        assert(ms.deep_view().take(ms.len() as int) =~= ms.deep_view());
    }
    c
}

fn sum18_at(ms: &Vec<Vec<String>>, i: usize) -> (r: i128)
    ensures
        r == sum18(ms.deep_view(), i as int),
        -pow10(37) <= r <= pow10(37),
{
    proof {
        lemma_pow10_37();
    }
    let mut acc: i128 = 0;
    let mut j: usize = 0;
    while j < ms.len()
        invariant
            j <= ms.len(),
            acc == sum18(ms.deep_view().take(j as int), i as int),
            -pow10(37) <= acc <= pow10(37),
        decreases ms.len() - j,
    {
        proof {
            assert(ms.deep_view().take(j + 1).drop_last() =~= ms.deep_view().take(j as int));
            assert(ms.deep_view().take(j + 1).last() == ms@[j as int].deep_view());
        }
        let v = field_at(&ms[j], i);
        match parse_dec(v.as_str()) {
            Some(d) => {
                proof {
                    crate::numbers::lemma_spec_dec_wf(v@);
                }
                let x = dec_val18(&d);
                acc = add_clamped(acc, x);
            },
            None => {},
        }
        j = j + 1;
    }
    proof {
        assert(ms.deep_view().take(ms.len() as int) =~= ms.deep_view());
    }
    acc
}

fn fold_min_at(ms: &Vec<Vec<String>>, i: usize) -> (r: Option<String>)
    ensures
        match r {
            Some(v) => fold_min(ms.deep_view(), i as int) == Some(v@),
            None => fold_min(ms.deep_view(), i as int) is None,
        },
{
    let mut cur: Option<String> = None;
    let mut j: usize = 0;
    while j < ms.len()
        invariant
            j <= ms.len(),
            match cur {
                Some(v) => fold_min(ms.deep_view().take(j as int), i as int) == Some(v@),
                None => fold_min(ms.deep_view().take(j as int), i as int) is None,
            },
        decreases ms.len() - j,
    {
        proof {
            assert(ms.deep_view().take(j + 1).drop_last() =~= ms.deep_view().take(j as int));
            assert(ms.deep_view().take(j + 1).last() == ms@[j as int].deep_view());
        }
        let v = field_at(&ms[j], i);
        if !v.as_str().is_empty() {
            cur = match cur {
                None => Some(v),
                Some(m) => {
                    if str_le(m.as_str(), v.as_str()) {
                        Some(m)
                    } else {
                        Some(v)
                    }
                },
            };
        }
        j = j + 1;
    }
    proof {
        assert(ms.deep_view().take(ms.len() as int) =~= ms.deep_view());
    }
    cur
}

fn fold_max_at(ms: &Vec<Vec<String>>, i: usize) -> (r: Option<String>)
    ensures
        match r {
            Some(v) => fold_max(ms.deep_view(), i as int) == Some(v@),
            None => fold_max(ms.deep_view(), i as int) is None,
        },
{
    let mut cur: Option<String> = None;
    let mut j: usize = 0;
    while j < ms.len()
        invariant
            j <= ms.len(),
            match cur {
                Some(v) => fold_max(ms.deep_view().take(j as int), i as int) == Some(v@),
                None => fold_max(ms.deep_view().take(j as int), i as int) is None,
            },
        decreases ms.len() - j,
    {
        proof {
            assert(ms.deep_view().take(j + 1).drop_last() =~= ms.deep_view().take(j as int));
            assert(ms.deep_view().take(j + 1).last() == ms@[j as int].deep_view());
        }
        let v = field_at(&ms[j], i);
        if !v.as_str().is_empty() {
            cur = match cur {
                None => Some(v),
                Some(m) => {
                    if str_le(v.as_str(), m.as_str()) {
                        Some(m)
                    } else {
                        Some(v)
                    }
                },
            };
        }
        j = j + 1;
    }
    proof {
        assert(ms.deep_view().take(ms.len() as int) =~= ms.deep_view());
    }
    cur
}

fn null_string() -> (r: String)
    ensures
        r@ == null_text(),
{
    proof {
        reveal_strlit("NULL");
        assert("NULL"@ =~= null_text());
    }
    "NULL".to_owned()
}

fn zero_string() -> (r: String)
    ensures
        r@ =~= seq!['0'],
{
    proof {
        reveal_strlit("0");
        assert("0"@ =~= seq!['0']);
    }
    "0".to_owned()
}

/// Computes the printed value of one aggregate call over a group's members,
/// as `spec_agg_value` describes.
pub fn agg_value_string(
    f: &AggregateFunction,
    headers: &Vec<String>,
    members: &Vec<Vec<String>>,
) -> (r: String)
    ensures
        r@ == spec_agg_value(*f, headers.deep_view(), members.deep_view()),
{
    proof {
        reveal_strlit("(*)");
        assert("(*)"@ =~= star_arg());
    }
    match f {
        AggregateFunction::Count(col) => {
            if str_eq(col.as_str(), "(*)") {
                digits_string(members.len() as u128)
            } else {
                match find_column(headers, col.as_str()) {
                    Some(i) => digits_string(count_nonempty_at(members, i) as u128),
                    None => zero_string(),
                }
            }
        },
        AggregateFunction::Min(col) => {
            match find_column(headers, col.as_str()) {
                Some(i) => match fold_min_at(members, i) {
                    Some(v) => v,
                    None => null_string(),
                },
                None => null_string(),
            }
        },
        AggregateFunction::Max(col) => {
            match find_column(headers, col.as_str()) {
                Some(i) => match fold_max_at(members, i) {
                    Some(v) => v,
                    None => null_string(),
                },
                None => null_string(),
            }
        },
        AggregateFunction::Sum(col) => {
            match find_column(headers, col.as_str()) {
                Some(i) => render_scaled18(sum18_at(members, i)),
                None => zero_string(),
            }
        },
        AggregateFunction::Avg(col) => {
            match find_column(headers, col.as_str()) {
                Some(i) => {
                    let c = count_parsing_at(members, i);
                    if c == 0 {
                        null_string()
                    } else {
                        let s = sum18_at(members, i);
                        avg_scaled18(s, c)
                    }
                },
                None => null_string(),
            }
        },
    }
}

} // verus!

verus! {

/// The representative cell for a plain column in an aggregate query: the
/// first member's value, or the empty string when the group is empty or the
/// column does not resolve.
pub open spec fn spec_rep_cell(
    headers: Seq<Seq<char>>,
    ms: Seq<Seq<Seq<char>>>,
    col: Seq<char>,
) -> Seq<char> {
    if ms.len() == 0 {
        Seq::empty()
    } else {
        spec_cell(headers, ms[0], col)
    }
}

/// The row's cells for a `*` column: one cell per source header, from the
/// given row, padded with empty strings and truncated to the header count.
pub open spec fn spec_star_cells(headers: Seq<Seq<char>>, row: Seq<Seq<Seq<char>>>) -> Seq<
    Seq<char>,
> {
    Seq::new(headers.len(), |j: int| if row.len() > 0 {
        field_or_empty(row[0], j)
    } else {
        Seq::empty()
    })
}

/// The plain (non-aggregate) cells of one aggregate-query output row, from
/// the group's representative member.
pub open spec fn spec_plain_cells(
    cols: Seq<Seq<char>>,
    headers: Seq<Seq<char>>,
    ms: Seq<Seq<Seq<char>>>,
) -> Seq<Seq<char>>
    decreases cols.len(),
{
    if cols.len() == 0 {
        Seq::empty()
    } else {
        spec_plain_cells(cols.drop_last(), headers, ms) + (if cols.last() == seq!['*'] {
            spec_star_cells(headers, ms)
        } else {
            seq![spec_rep_cell(headers, ms, cols.last())]
        })
    }
}

/// The aggregate cells of one output row, one per aggregate call.
pub open spec fn spec_agg_cells(
    fs: Seq<AggregateFunction>,
    headers: Seq<Seq<char>>,
    ms: Seq<Seq<Seq<char>>>,
) -> Seq<Seq<char>>
    decreases fs.len(),
{
    if fs.len() == 0 {
        Seq::empty()
    } else {
        spec_agg_cells(fs.drop_last(), headers, ms).push(spec_agg_value(fs.last(), headers, ms))
    }
}

/// One output row of an aggregate query: the requested plain columns from
/// the representative member, then one value per aggregate call.
pub open spec fn spec_agg_row(
    cols: Seq<Seq<char>>,
    fs: Seq<AggregateFunction>,
    headers: Seq<Seq<char>>,
    ms: Seq<Seq<Seq<char>>>,
) -> Seq<Seq<char>> {
    spec_plain_cells(cols, headers, ms) + spec_agg_cells(fs, headers, ms)
}

/// The output rows of an aggregate query: one row per group, in group order.
pub open spec fn spec_agg_rows(
    gs: Seq<(Seq<char>, Seq<Seq<Seq<char>>>)>,
    cols: Seq<Seq<char>>,
    fs: Seq<AggregateFunction>,
    headers: Seq<Seq<char>>,
) -> Seq<Seq<Seq<char>>>
    decreases gs.len(),
{
    if gs.len() == 0 {
        Seq::empty()
    } else {
        spec_agg_rows(gs.drop_last(), cols, fs, headers).push(
            spec_agg_row(cols, fs, headers, gs.last().1),
        )
    }
}

/// Builds one aggregate-query output row, as `spec_agg_row` describes.
pub fn aggregate_row(
    columns: &Vec<String>,
    aggregates: &Vec<AggregateFunction>,
    headers: &Vec<String>,
    members: &Vec<Vec<String>>,
) -> (r: Vec<String>)
    ensures
        r.deep_view() == spec_agg_row(
            columns.deep_view(),
            aggregates@,
            headers.deep_view(),
            members.deep_view(),
        ),
{
    let mut out: Vec<String> = Vec::new();
    let mut i: usize = 0;
    while i < columns.len()
        invariant
            i <= columns.len(),
            out.deep_view() =~= spec_plain_cells(
                columns.deep_view().take(i as int),
                headers.deep_view(),
                members.deep_view(),
            ),
        decreases columns.len() - i,
    {
        proof {
            assert(columns.deep_view().take(i + 1).drop_last() =~= columns.deep_view().take(
                i as int,
            ));
            assert(columns.deep_view().take(i + 1).last() == columns@[i as int]@);
        }
        if is_star(columns[i].as_str()) {
            let mut j: usize = 0;
            while j < headers.len()
                invariant
                    j <= headers.len(),
                    out.deep_view() =~= spec_plain_cells(
                        columns.deep_view().take(i as int),
                        headers.deep_view(),
                        members.deep_view(),
                    ) + spec_star_cells(headers.deep_view(), members.deep_view()).take(j as int),
                decreases headers.len() - j,
            {
                let cell = if members.len() > 0 {
                    proof {
                        assert(members.deep_view()[0int] == members@[0int].deep_view());
                    }
                    field_at(&members[0], j)
                } else {
                    String::new()
                };
                push_str(&mut out, cell);
                proof {
                    assert(out.deep_view() =~= spec_plain_cells(
                        columns.deep_view().take(i as int),
                        headers.deep_view(),
                        members.deep_view(),
                    ) + spec_star_cells(headers.deep_view(), members.deep_view()).take(j + 1));
                }
                j = j + 1;
            }
            proof {
                assert(spec_star_cells(headers.deep_view(), members.deep_view()).take(
                    headers.len() as int,
                ) =~= spec_star_cells(headers.deep_view(), members.deep_view()));
            }
        } else {
            let cell = if members.len() > 0 {
                proof {
                    assert(members.deep_view()[0int] == members@[0int].deep_view());
                }
                cell_of(headers, &members[0], columns[i].as_str())
            } else {
                String::new()
            };
            push_str(&mut out, cell);
        }
        proof {
            assert(out.deep_view() =~= spec_plain_cells(
                columns.deep_view().take(i + 1),
                headers.deep_view(),
                members.deep_view(),
            ));
        }
        i = i + 1;
    }
    proof {
        assert(columns.deep_view().take(columns.len() as int) =~= columns.deep_view());
        assert(aggregates@.take(0int) =~= Seq::<AggregateFunction>::empty());
    }
    let mut k: usize = 0;
    while k < aggregates.len()
        invariant
            k <= aggregates.len(),
            out.deep_view() =~= spec_plain_cells(
                columns.deep_view(),
                headers.deep_view(),
                members.deep_view(),
            ) + spec_agg_cells(aggregates@.take(k as int), headers.deep_view(), members.deep_view()),
        decreases aggregates.len() - k,
    {
        let v = agg_value_string(&aggregates[k], headers, members);
        push_str(&mut out, v);
        proof {
            assert(aggregates@.take(k + 1).drop_last() =~= aggregates@.take(k as int));
            assert(aggregates@.take(k + 1).last() == aggregates@[k as int]);
            assert(out.deep_view() =~= spec_plain_cells(
                columns.deep_view(),
                headers.deep_view(),
                members.deep_view(),
            ) + spec_agg_cells(aggregates@.take(k + 1), headers.deep_view(), members.deep_view()));
        }
        k = k + 1;
    }
    proof {
        assert(aggregates@.take(aggregates.len() as int) =~= aggregates@);
    }
    out
}

/// Builds the aggregate-query output rows, one per group, as
/// `spec_agg_rows` describes.
pub fn aggregate_rows(
    groups: &Vec<Group>,
    columns: &Vec<String>,
    aggregates: &Vec<AggregateFunction>,
    headers: &Vec<String>,
) -> (r: Vec<Vec<String>>)
    ensures
        r.deep_view() == spec_agg_rows(
            gview(groups@),
            columns.deep_view(),
            aggregates@,
            headers.deep_view(),
        ),
{
    let mut out: Vec<Vec<String>> = Vec::new();
    let mut g: usize = 0;
    while g < groups.len()
        invariant
            g <= groups.len(),
            out.deep_view() =~= spec_agg_rows(
                gview(groups@).take(g as int),
                columns.deep_view(),
                aggregates@,
                headers.deep_view(),
            ),
        decreases groups.len() - g,
    {
        let row = aggregate_row(columns, aggregates, headers, &groups[g].rows);
        push_row(&mut out, row);
        proof {
            assert(gview(groups@).take(g + 1).drop_last() =~= gview(groups@).take(g as int));
            assert(gview(groups@).take(g + 1).last() == gview(groups@)[g as int]);
            assert(gview(groups@)[g as int].1 == groups@[g as int].rows.deep_view());
            assert(out.deep_view() =~= spec_agg_rows(
                gview(groups@).take(g + 1),
                columns.deep_view(),
                aggregates@,
                headers.deep_view(),
            ));
        }
        g = g + 1;
    }
    proof {
        assert(gview(groups@).take(groups.len() as int) =~= gview(groups@));
    }
    out
}

/// The projection of one filtered row onto the requested columns: `*`
/// stands for every source column in order, padded and truncated to the
/// header count; other names take the row's value for that column.
pub open spec fn spec_project_row(
    cols: Seq<Seq<char>>,
    headers: Seq<Seq<char>>,
    row: Seq<Seq<char>>,
) -> Seq<Seq<char>>
    decreases cols.len(),
{
    if cols.len() == 0 {
        Seq::empty()
    } else {
        spec_project_row(cols.drop_last(), headers, row) + (if cols.last() == seq!['*'] {
            Seq::new(headers.len(), |j: int| field_or_empty(row, j))
        } else {
            seq![spec_cell(headers, row, cols.last())]
        })
    }
}

/// The projections of all filtered rows, in order.
pub open spec fn spec_project_rows(
    cols: Seq<Seq<char>>,
    headers: Seq<Seq<char>>,
    rows: Seq<Seq<Seq<char>>>,
) -> Seq<Seq<Seq<char>>>
    decreases rows.len(),
{
    if rows.len() == 0 {
        Seq::empty()
    } else {
        spec_project_rows(cols, headers, rows.drop_last()).push(
            spec_project_row(cols, headers, rows.last()),
        )
    }
}

/// Projects one row, as `spec_project_row` describes.
pub fn project_row(cols: &Vec<String>, headers: &Vec<String>, row: &Vec<String>) -> (r: Vec<
    String,
>)
    ensures
        r.deep_view() == spec_project_row(cols.deep_view(), headers.deep_view(), row.deep_view()),
{
    let mut out: Vec<String> = Vec::new();
    let mut i: usize = 0;
    while i < cols.len()
        invariant
            i <= cols.len(),
            out.deep_view() =~= spec_project_row(
                cols.deep_view().take(i as int),
                headers.deep_view(),
                row.deep_view(),
            ),
        decreases cols.len() - i,
    {
        proof {
            assert(cols.deep_view().take(i + 1).drop_last() =~= cols.deep_view().take(i as int));
            assert(cols.deep_view().take(i + 1).last() == cols@[i as int]@);
        }
        if is_star(cols[i].as_str()) {
            let ghost stars = Seq::new(
                headers.deep_view().len(),
                |j: int| field_or_empty(row.deep_view(), j),
            );
            let mut j: usize = 0;
            while j < headers.len()
                invariant
                    j <= headers.len(),
                    stars =~= Seq::new(
                        headers.deep_view().len(),
                        |j0: int| field_or_empty(row.deep_view(), j0),
                    ),
                    headers.deep_view().len() == headers@.len(),
                    out.deep_view() =~= spec_project_row(
                        cols.deep_view().take(i as int),
                        headers.deep_view(),
                        row.deep_view(),
                    ) + stars.take(j as int),
                decreases headers.len() - j,
            {
                let cell = field_at(row, j);
                push_str(&mut out, cell);
                proof {
                    assert(out.deep_view() =~= spec_project_row(
                        cols.deep_view().take(i as int),
                        headers.deep_view(),
                        row.deep_view(),
                    ) + stars.take(j + 1));
                }
                j = j + 1;
            }
            proof {
                assert(stars.take(headers.len() as int) =~= stars);
            }
        } else {
            let cell = cell_of(headers, row, cols[i].as_str());
            push_str(&mut out, cell);
        }
        proof {
            assert(out.deep_view() =~= spec_project_row(
                cols.deep_view().take(i + 1),
                headers.deep_view(),
                row.deep_view(),
            ));
        }
        i = i + 1;
    }
    proof {
        assert(cols.deep_view().take(cols.len() as int) =~= cols.deep_view());
    }
    out
}

/// Projects every row, as `spec_project_rows` describes.
pub fn project_rows(cols: &Vec<String>, headers: &Vec<String>, rows: &Vec<Vec<String>>) -> (r: Vec<
    Vec<String>,
>)
    ensures
        r.deep_view() == spec_project_rows(cols.deep_view(), headers.deep_view(), rows.deep_view()),
{
    let mut out: Vec<Vec<String>> = Vec::new();
    let mut i: usize = 0;
    while i < rows.len()
        invariant
            i <= rows.len(),
            out.deep_view() =~= spec_project_rows(
                cols.deep_view(),
                headers.deep_view(),
                rows.deep_view().take(i as int),
            ),
        decreases rows.len() - i,
    {
        let prow = project_row(cols, headers, &rows[i]);
        push_row(&mut out, prow);
        proof {
            assert(rows.deep_view().take(i + 1).drop_last() =~= rows.deep_view().take(i as int));
            assert(rows.deep_view().take(i + 1).last() == rows@[i as int].deep_view());
            assert(out.deep_view() =~= spec_project_rows(
                cols.deep_view(),
                headers.deep_view(),
                rows.deep_view().take(i + 1),
            ));
        }
        i = i + 1;
    }
    proof {
        assert(rows.deep_view().take(rows.len() as int) =~= rows.deep_view());
    }
    out
}

/// The deduplication key of a projected row: its cells joined with commas
/// (two rows whose joined texts agree are treated as the same row).
pub open spec fn spec_distinct_key(
    cols: Seq<Seq<char>>,
    headers: Seq<Seq<char>>,
    row: Seq<Seq<char>>,
) -> Seq<char> {
    join_comma(spec_project_row(cols, headers, row))
}

/// The keys of the rows, in order.
pub open spec fn spec_distinct_keys(
    cols: Seq<Seq<char>>,
    headers: Seq<Seq<char>>,
    rows: Seq<Seq<Seq<char>>>,
) -> Seq<Seq<char>>
    decreases rows.len(),
{
    if rows.len() == 0 {
        Seq::empty()
    } else {
        spec_distinct_keys(cols, headers, rows.drop_last()).push(
            spec_distinct_key(cols, headers, rows.last()),
        )
    }
}

/// The distinct projections: the projection of the first row of each key,
/// in order of first occurrence.
pub open spec fn spec_distinct_rows(
    cols: Seq<Seq<char>>,
    headers: Seq<Seq<char>>,
    rows: Seq<Seq<Seq<char>>>,
) -> Seq<Seq<Seq<char>>>
    decreases rows.len(),
{
    if rows.len() == 0 {
        Seq::empty()
    } else {
        let pre = spec_distinct_rows(cols, headers, rows.drop_last());
        if spec_distinct_keys(cols, headers, rows.drop_last()).contains(
            spec_distinct_key(cols, headers, rows.last()),
        ) {
            pre
        } else {
            pre.push(spec_project_row(cols, headers, rows.last()))
        }
    }
}

/// Whether some element of `v` equals `key`.
fn contains_str(v: &Vec<String>, key: &str) -> (r: bool)
    ensures
        r == v.deep_view().contains(key@),
{
    let mut k: usize = 0;
    while k < v.len()
        invariant
            k <= v.len(),
            forall|j: int| 0 <= j < k ==> v.deep_view()[j] != key@,
        decreases v.len() - k,
    {
        proof {
            assert(v.deep_view()[k as int] == v@[k as int]@);
        }
        if str_eq(v[k].as_str(), key) {
            proof {
                assert(v.deep_view().contains(key@));
            }
            return true;
        }
        k = k + 1;
    }
    proof {
        assert(forall|j: int| 0 <= j < v.deep_view().len() ==> v.deep_view()[j] != key@);
    }
    false
}

/// Projects the rows and drops every row whose key was seen before, as
/// `spec_distinct_rows` describes.
pub fn distinct_rows(cols: &Vec<String>, headers: &Vec<String>, rows: &Vec<Vec<String>>) -> (r:
    Vec<Vec<String>>)
    ensures
        r.deep_view() == spec_distinct_rows(
            cols.deep_view(),
            headers.deep_view(),
            rows.deep_view(),
        ),
{
    let mut out: Vec<Vec<String>> = Vec::new();
    let mut seen: Vec<String> = Vec::new();
    let mut i: usize = 0;
    while i < rows.len()
        invariant
            i <= rows.len(),
            seen.deep_view() =~= spec_distinct_keys(
                cols.deep_view(),
                headers.deep_view(),
                rows.deep_view().take(i as int),
            ),
            out.deep_view() =~= spec_distinct_rows(
                cols.deep_view(),
                headers.deep_view(),
                rows.deep_view().take(i as int),
            ),
        decreases rows.len() - i,
    {
        proof {
            assert(rows.deep_view().take(i + 1).drop_last() =~= rows.deep_view().take(i as int));
            assert(rows.deep_view().take(i + 1).last() == rows@[i as int].deep_view());
        }
        let prow = project_row(cols, headers, &rows[i]);
        let key = join_with_commas(&prow);
        let dup = contains_str(&seen, key.as_str());
        if !dup {
            push_row(&mut out, prow);
        }
        push_str(&mut seen, key);
        proof {
            assert(seen.deep_view() =~= spec_distinct_keys(
                cols.deep_view(),
                headers.deep_view(),
                rows.deep_view().take(i + 1),
            ));
            assert(out.deep_view() =~= spec_distinct_rows(
                cols.deep_view(),
                headers.deep_view(),
                rows.deep_view().take(i + 1),
            ));
        }
        i = i + 1;
    }
    proof {
        assert(rows.deep_view().take(rows.len() as int) =~= rows.deep_view());
    }
    out
}

} // verus!

verus! {

/// The sort order on two field values: when both denote numbers they
/// compare numerically, otherwise lexicographically.
pub open spec fn sort_le(a: Seq<char>, b: Seq<char>) -> bool {
    match (spec_dec_of(a), spec_dec_of(b)) {
        (Some(x), Some(y)) => val18(x) <= val18(y),
        _ => lex_le(a, b),
    }
}

/// Whether the row `a` must come strictly before `b` under the requested
/// direction, comparing the fields of the sort column. Rows whose keys tie
/// keep their input order.
pub open spec fn precedes(
    a: Seq<Seq<char>>,
    b: Seq<Seq<char>>,
    ci: int,
    desc: bool,
) -> bool {
    let ka = field_or_empty(a, ci);
    let kb = field_or_empty(b, ci);
    if desc {
        sort_le(kb, ka) && !sort_le(ka, kb)
    } else {
        sort_le(ka, kb) && !sort_le(kb, ka)
    }
}

/// Stable insertion of a row into an already sorted sequence: the new row
/// moves left past exactly the rows it strictly precedes.
pub open spec fn insert_sorted(
    s: Seq<Seq<Seq<char>>>,
    x: Seq<Seq<char>>,
    ci: int,
    desc: bool,
) -> Seq<Seq<Seq<char>>>
    decreases s.len(),
{
    if s.len() == 0 {
        seq![x]
    } else if precedes(x, s.last(), ci, desc) {
        insert_sorted(s.drop_last(), x, ci, desc).push(s.last())
    } else {
        s.push(x)
    }
}

/// The stable sort of the rows by the sort column: each row in turn is
/// placed after every earlier row it does not strictly precede.
pub open spec fn spec_sort(rows: Seq<Seq<Seq<char>>>, ci: int, desc: bool) -> Seq<Seq<Seq<char>>>
    decreases rows.len(),
{
    if rows.len() == 0 {
        Seq::empty()
    } else {
        insert_sorted(spec_sort(rows.drop_last(), ci, desc), rows.last(), ci, desc)
    }
}

/// Compares two field values, as `sort_le` describes.
fn value_le(a: &str, b: &str) -> (r: bool)
    ensures
        r == sort_le(a@, b@),
{
    let da = parse_dec(a);
    let db = parse_dec(b);
    match (da, db) {
        (Some(x), Some(y)) => {
            proof {
                lemma_spec_dec_wf(a@);
                lemma_spec_dec_wf(b@);
            }
            dec_val18(&x) <= dec_val18(&y)
        },
        _ => str_le(a, b),
    }
}

/// Whether row `a` must come strictly before `b`, as `precedes` describes.
fn row_precedes(a: &Vec<String>, b: &Vec<String>, ci: usize, desc: bool) -> (r: bool)
    ensures
        r == precedes(a.deep_view(), b.deep_view(), ci as int, desc),
{
    let ka = field_at(a, ci);
    let kb = field_at(b, ci);
    if desc {
        value_le(kb.as_str(), ka.as_str()) && !value_le(ka.as_str(), kb.as_str())
    } else {
        value_le(ka.as_str(), kb.as_str()) && !value_le(kb.as_str(), ka.as_str())
    }
}

/// Inserts a row at `p`, tracked on the deep view.
fn insert_row_at(v: &mut Vec<Vec<String>>, p: usize, x: Vec<String>)
    requires
        p <= old(v)@.len(),
    ensures
        final(v).deep_view() == old(v).deep_view().insert(p as int, x.deep_view()),
{
    let ghost prev = v@;
    let ghost pre = v.deep_view();
    let ghost xd = x.deep_view();
    v.insert(p, x);
    proof {
        assert(v@.len() == prev.len() + 1);
        assert forall|k: int| 0 <= k < v@.len() implies v.deep_view()[k] == pre.insert(
            p as int,
            xd,
        )[k] by {
            assert(v.deep_view()[k] == v@[k].deep_view());
            if k < p {
                assert(v@[k] == prev[k]);
                assert(pre[k] == prev[k].deep_view());
            } else if k == p {
                assert(v@[k] == prev.insert(p as int, x)[k]);
            } else {
                assert(v@[k] == prev[k - 1]);
                assert(pre[k - 1] == prev[k - 1].deep_view());
            }
        }
        assert(v.deep_view() =~= pre.insert(p as int, xd));
    }
}

/// Placing a row at the scanned position realizes `insert_sorted`.
#[verifier::rlimit(100)]
pub proof fn lemma_insert_sorted_at(
    s: Seq<Seq<Seq<char>>>,
    x: Seq<Seq<char>>,
    ci: int,
    desc: bool,
    p: int,
)
    requires
        0 <= p <= s.len(),
        forall|j: int| p <= j < s.len() ==> precedes(x, #[trigger] s[j], ci, desc),
        p > 0 ==> !precedes(x, s[p - 1], ci, desc),
    ensures
        insert_sorted(s, x, ci, desc) == s.insert(p, x),
    decreases s.len(),
{
    if p == s.len() {
        if s.len() == 0 {
            assert(insert_sorted(s, x, ci, desc) =~= s.insert(p, x));
        } else {
            assert(!precedes(x, s.last(), ci, desc));
            assert(s.push(x) =~= s.insert(p, x));
        }
    } else {
        assert(precedes(x, s.last(), ci, desc));
        assert(forall|j: int|
            p <= j < s.len() - 1 ==> precedes(x, #[trigger] s.drop_last()[j], ci, desc));
        if p > 0 {
            assert(s.drop_last()[p - 1] == s[p - 1]);
        }
        lemma_insert_sorted_at(s.drop_last(), x, ci, desc, p);
        assert(insert_sorted(s, x, ci, desc) =~= s.insert(p, x)) by {
            assert(insert_sorted(s, x, ci, desc) == s.drop_last().insert(p, x).push(s.last()));
            assert(s.drop_last().insert(p, x).push(s.last()) =~= s.insert(p, x));
        }
    }
}

/// The position where the new row belongs: scanning from the end, it moves
/// left past exactly the rows it strictly precedes.
#[verifier::rlimit(100)]
fn find_insert_pos(out: &Vec<Vec<String>>, row: &Vec<String>, ci: usize, desc: bool) -> (p: usize)
    ensures
        p <= out@.len(),
        forall|j: int|
            p <= j < out.deep_view().len() ==> precedes(
                row.deep_view(),
                #[trigger] out.deep_view()[j],
                ci as int,
                desc,
            ),
        p > 0 ==> !precedes(row.deep_view(), out.deep_view()[p - 1], ci as int, desc),
{
    let mut p: usize = out.len();
    loop
        invariant_except_break
            p <= out@.len(),
            out.deep_view().len() == out@.len(),
            forall|j: int|
                p <= j < out.deep_view().len() ==> precedes(
                    row.deep_view(),
                    #[trigger] out.deep_view()[j],
                    ci as int,
                    desc,
                ),
        ensures
            p <= out@.len(),
            forall|j: int|
                p <= j < out.deep_view().len() ==> precedes(
                    row.deep_view(),
                    #[trigger] out.deep_view()[j],
                    ci as int,
                    desc,
                ),
            p > 0 ==> !precedes(row.deep_view(), out.deep_view()[p - 1], ci as int, desc),
        decreases p,
    {
        if p == 0 {
            break ;
        }
        proof {
            assert(out.deep_view()[p - 1] == out@[p - 1].deep_view());
        }
        if !row_precedes(row, &out[p - 1], ci, desc) {
            break ;
        }
        p = p - 1;
    }
    p
}

/// Sorts the rows stably by the resolved sort column, as `spec_sort`
/// describes.
pub fn sort_rows(rows: &Vec<Vec<String>>, ci: usize, desc: bool) -> (r: Vec<Vec<String>>)
    ensures
        r.deep_view() == spec_sort(rows.deep_view(), ci as int, desc),
{
    let mut out: Vec<Vec<String>> = Vec::new();
    let mut i: usize = 0;
    while i < rows.len()
        invariant
            i <= rows.len(),
            out.deep_view() =~= spec_sort(rows.deep_view().take(i as int), ci as int, desc),
            out@.len() == out.deep_view().len(),
        decreases rows.len() - i,
    {
        let row = clone_row(&rows[i]);
        let ghost xv = row.deep_view();
        let p = find_insert_pos(&out, &row, ci, desc);
        proof {
            lemma_insert_sorted_at(out.deep_view(), xv, ci as int, desc, p as int);
            assert(rows.deep_view().take(i + 1).drop_last() =~= rows.deep_view().take(i as int));
            assert(rows.deep_view().take(i + 1).last() == rows@[i as int].deep_view());
        }
        insert_row_at(&mut out, p, row);
        i = i + 1;
    }
    proof {
        assert(rows.deep_view().take(rows.len() as int) =~= rows.deep_view());
    }
    out
}

} // verus!

verus! {

/// The groups an aggregate query works on: the `GROUP BY` buckets, or one
/// implicit bucket holding every filtered row.
pub open spec fn spec_query_groups(
    filtered: Seq<Seq<Seq<char>>>,
    headers: Seq<Seq<char>>,
    group_by: Option<Vec<String>>,
) -> Seq<(Seq<char>, Seq<Seq<Seq<char>>>)> {
    match group_by {
        Some(gb) => spec_group(filtered, headers, gb.deep_view()),
        None => seq![(seq!['*'], filtered)],
    }
}

/// What the whole pipeline returns: the result header, and the rows after
/// filtering, grouping and aggregation or projection (with deduplication
/// under `DISTINCT`), and the final stable sort when the `ORDER BY` column
/// resolves against the result header.
pub open spec fn spec_apply_query(
    headers: Seq<Seq<char>>,
    records: Seq<Seq<Seq<char>>>,
    q: SQLQuery,
) -> (Seq<Seq<char>>, Seq<Seq<Seq<char>>>) {
    let filtered = spec_filter(records, headers, q.condition);
    let rheaders = spec_result_headers(q.columns.deep_view(), q.aggregate_functions@, headers);
    let rows0 = if q.aggregate_functions@.len() > 0 {
        spec_agg_rows(
            spec_query_groups(filtered, headers, q.group_by),
            q.columns.deep_view(),
            q.aggregate_functions@,
            headers,
        )
    } else if q.distinct {
        spec_distinct_rows(q.columns.deep_view(), headers, filtered)
    } else {
        spec_project_rows(q.columns.deep_view(), headers, filtered)
    };
    let rows = match q.order_by {
        Some(ob) => match col_index(rheaders, ob.column@) {
            Some(ci) => spec_sort(rows0, ci, ob.direction == SortDirection::Descending),
            None => rows0,
        },
        None => rows0,
    };
    (rheaders, rows)
}

/// Runs the query pipeline against the headers and rows, as
/// `spec_apply_query` describes: filter, then group and aggregate or
/// project (deduplicating under `DISTINCT`), then sort. The result is the
/// result header and the result rows; an `ORDER BY` column that does not
/// resolve is ignored.
pub fn apply_query(headers: &Vec<String>, records: Vec<Vec<String>>, query: &SQLQuery) -> (r: (
    Vec<String>,
    Vec<Vec<String>>,
))
    ensures
        r.0.deep_view() == spec_apply_query(headers.deep_view(), records.deep_view(), *query).0,
        r.1.deep_view() == spec_apply_query(headers.deep_view(), records.deep_view(), *query).1,
{
    let filtered = filter_rows(headers, &records, &query.condition);
    let rheaders = build_result_headers(&query.columns, &query.aggregate_functions, headers);
    let rows0: Vec<Vec<String>> = if query.aggregate_functions.len() > 0 {
        match &query.group_by {
            Some(gb) => {
                let groups = group_rows(headers, &filtered, gb);
                aggregate_rows(&groups, &query.columns, &query.aggregate_functions, headers)
            },
            None => {
                let mut star = String::new();
                star.append("*");
                let mut groups: Vec<Group> = Vec::new();
                groups.push(Group { key: star, rows: filtered });
                proof {
                    reveal_strlit("*");
                    assert("*"@ =~= seq!['*']);
                    assert(gview(groups@) =~= seq![
                        (
                            seq!['*'],
                            spec_filter(
                                records.deep_view(),
                                headers.deep_view(),
                                query.condition,
                            ),
                        ),
                    ]) by {
                        assert(gview(groups@)[0] == (groups@[0].key@, groups@[0].rows.deep_view()));
                    }
                }
                aggregate_rows(&groups, &query.columns, &query.aggregate_functions, headers)
            },
        }
    } else if query.distinct {
        distinct_rows(&query.columns, headers, &filtered)
    } else {
        project_rows(&query.columns, headers, &filtered)
    };
    let rows = match &query.order_by {
        Some(ob) => {
            match find_column(&rheaders, ob.column.as_str()) {
                Some(ci) => {
                    let desc = match ob.direction {
                        SortDirection::Descending => true,
                        SortDirection::Ascending => false,
                    };
                    sort_rows(&rows0, ci, desc)
                },
                None => rows0,
            }
        },
        None => rows0,
    };
    (rheaders, rows)
}

/// Filtering without a predicate keeps every row.
pub proof fn lemma_filter_none(rows: Seq<Seq<Seq<char>>>, headers: Seq<Seq<char>>)
    ensures
        spec_filter(rows, headers, None) == rows,
    decreases rows.len(),
{
    if rows.len() > 0 {
        lemma_filter_none(rows.drop_last(), headers);
        assert(spec_filter(rows, headers, None) =~= rows);
    }
}

/// Projection acts row by row.
pub proof fn lemma_project_rows_index(
    cols: Seq<Seq<char>>,
    headers: Seq<Seq<char>>,
    rows: Seq<Seq<Seq<char>>>,
)
    ensures
        spec_project_rows(cols, headers, rows).len() == rows.len(),
        forall|i: int|
            0 <= i < rows.len() ==> #[trigger] spec_project_rows(cols, headers, rows)[i]
                == spec_project_row(cols, headers, rows[i]),
    decreases rows.len(),
{
    if rows.len() > 0 {
        lemma_project_rows_index(cols, headers, rows.drop_last());
    }
}

/// The law of `SELECT *`: with a bare wildcard selection and no predicate,
/// grouping, deduplication or sort, the result header is exactly the source
/// header, and each source row appears in order, padded with empty strings
/// and truncated to the header's width.
pub proof fn lemma_select_star(
    headers: Seq<Seq<char>>,
    records: Seq<Seq<Seq<char>>>,
    q: SQLQuery,
)
    requires
        q.columns.deep_view() == seq![seq!['*']],
        q.aggregate_functions@.len() == 0,
        !q.distinct,
        q.condition is None,
        q.order_by is None,
    ensures
        spec_apply_query(headers, records, q).0 == headers,
        spec_apply_query(headers, records, q).1.len() == records.len(),
        forall|i: int|
            0 <= i < records.len() ==> #[trigger] spec_apply_query(headers, records, q).1[i]
                == Seq::new(headers.len(), |j: int| field_or_empty(records[i], j)),
{
    let cols = q.columns.deep_view();
    reveal_with_fuel(spec_plain_headers, 3);
    reveal_with_fuel(spec_project_row, 3);
    lemma_filter_none(records, headers);
    assert(spec_result_headers(cols, q.aggregate_functions@, headers) =~= headers) by {
        assert(cols.drop_last() =~= Seq::<Seq<char>>::empty());
        assert(cols.last() == seq!['*']);
    }
    lemma_project_rows_index(cols, headers, records);
    assert forall|i: int| 0 <= i < records.len() implies #[trigger] spec_apply_query(
        headers,
        records,
        q,
    ).1[i] == Seq::new(headers.len(), |j: int| field_or_empty(records[i], j)) by {
        assert(cols.drop_last() =~= Seq::<Seq<char>>::empty());
        assert(cols.last() == seq!['*']);
        assert(spec_project_row(cols, headers, records[i]) =~= Seq::new(
            headers.len(),
            |j: int| field_or_empty(records[i], j),
        ));
    }
}

} // verus!

verus! {

/// A projected row is as wide as the plain part of the result header.
pub proof fn lemma_project_row_width(
    cols: Seq<Seq<char>>,
    headers: Seq<Seq<char>>,
    row: Seq<Seq<char>>,
)
    ensures
        spec_project_row(cols, headers, row).len() == spec_plain_headers(cols, headers).len(),
    decreases cols.len(),
{
    if cols.len() > 0 {
        lemma_project_row_width(cols.drop_last(), headers, row);
    }
}

/// An aggregate row's plain part is as wide as the plain part of the
/// result header.
pub proof fn lemma_plain_cells_width(
    cols: Seq<Seq<char>>,
    headers: Seq<Seq<char>>,
    ms: Seq<Seq<Seq<char>>>,
)
    ensures
        spec_plain_cells(cols, headers, ms).len() == spec_plain_headers(cols, headers).len(),
    decreases cols.len(),
{
    if cols.len() > 0 {
        lemma_plain_cells_width(cols.drop_last(), headers, ms);
    }
}

/// There is one aggregate cell per aggregate call.
pub proof fn lemma_agg_cells_len(
    fs: Seq<AggregateFunction>,
    headers: Seq<Seq<char>>,
    ms: Seq<Seq<Seq<char>>>,
)
    ensures
        spec_agg_cells(fs, headers, ms).len() == fs.len(),
    decreases fs.len(),
{
    if fs.len() > 0 {
        lemma_agg_cells_len(fs.drop_last(), headers, ms);
    }
}

/// The result header is the plain part followed by one label per aggregate
/// call.
pub proof fn lemma_result_headers_len(
    cols: Seq<Seq<char>>,
    fs: Seq<AggregateFunction>,
    headers: Seq<Seq<char>>,
)
    ensures
        spec_result_headers(cols, fs, headers).len() == spec_plain_headers(cols, headers).len()
            + fs.len(),
    decreases fs.len(),
{
    if fs.len() > 0 {
        lemma_result_headers_len(cols, fs.drop_last(), headers);
    }
}

/// Every aggregate output row is as wide as the result header.
pub proof fn lemma_agg_rows_width(
    gs: Seq<(Seq<char>, Seq<Seq<Seq<char>>>)>,
    cols: Seq<Seq<char>>,
    fs: Seq<AggregateFunction>,
    headers: Seq<Seq<char>>,
)
    ensures
        spec_agg_rows(gs, cols, fs, headers).len() == gs.len(),
        forall|i: int|
            0 <= i < gs.len() ==> #[trigger] spec_agg_rows(gs, cols, fs, headers)[i].len()
                == spec_result_headers(cols, fs, headers).len(),
    decreases gs.len(),
{
    lemma_result_headers_len(cols, fs, headers);
    if gs.len() > 0 {
        lemma_agg_rows_width(gs.drop_last(), cols, fs, headers);
        lemma_plain_cells_width(cols, headers, gs.last().1);
        lemma_agg_cells_len(fs, headers, gs.last().1);
    }
}

/// Every distinct output row is as wide as the plain result header.
pub proof fn lemma_distinct_rows_width(
    cols: Seq<Seq<char>>,
    headers: Seq<Seq<char>>,
    rows: Seq<Seq<Seq<char>>>,
)
    ensures
        forall|i: int|
            0 <= i < spec_distinct_rows(cols, headers, rows).len()
                ==> #[trigger] spec_distinct_rows(cols, headers, rows)[i].len()
                == spec_plain_headers(cols, headers).len(),
    decreases rows.len(),
{
    if rows.len() > 0 {
        lemma_distinct_rows_width(cols, headers, rows.drop_last());
        lemma_project_row_width(cols, headers, rows.last());
        let pre = spec_distinct_rows(cols, headers, rows.drop_last());
        let full = spec_distinct_rows(cols, headers, rows);
        assert forall|i: int| 0 <= i < full.len() implies #[trigger] full[i].len()
            == spec_plain_headers(cols, headers).len() by {
            if i < pre.len() {
                assert(full[i] == pre[i]);
            } else {
                assert(full[i] == spec_project_row(cols, headers, rows.last()));
            }
        }
    }
}

/// Inserting into a sorted sequence only adds the inserted row.
pub proof fn lemma_insert_sorted_members(
    s: Seq<Seq<Seq<char>>>,
    x: Seq<Seq<char>>,
    ci: int,
    desc: bool,
)
    ensures
        insert_sorted(s, x, ci, desc).len() == s.len() + 1,
        forall|i: int|
            0 <= i < s.len() + 1 ==> s.contains(#[trigger] insert_sorted(s, x, ci, desc)[i])
                || insert_sorted(s, x, ci, desc)[i] == x,
    decreases s.len(),
{
    if s.len() == 0 {
    } else if precedes(x, s.last(), ci, desc) {
        lemma_insert_sorted_members(s.drop_last(), x, ci, desc);
        let r = insert_sorted(s, x, ci, desc);
        let pre = insert_sorted(s.drop_last(), x, ci, desc);
        assert forall|i: int| 0 <= i < s.len() + 1 implies s.contains(#[trigger] r[i]) || r[i]
            == x by {
            if i < pre.len() {
                assert(r[i] == pre[i]);
                if s.drop_last().contains(pre[i]) {
                    let j = choose|j: int| 0 <= j < s.drop_last().len() && s.drop_last()[j]
                        == pre[i];
                    assert(s[j] == pre[i]);
                }
            } else {
                assert(r[i] == s.last());
                assert(s.contains(s.last()));
            }
        }
    } else {
        assert forall|i: int|
            0 <= i < s.len() + 1 implies s.contains(
            #[trigger] insert_sorted(s, x, ci, desc)[i],
        ) || insert_sorted(s, x, ci, desc)[i] == x by {
            if i < s.len() {
                assert(insert_sorted(s, x, ci, desc)[i] == s[i]);
                assert(s.contains(s[i]));
            }
        }
    }
}

/// Sorting keeps every row's width: the output rows all come from the
/// input.
pub proof fn lemma_sort_width(rows: Seq<Seq<Seq<char>>>, ci: int, desc: bool, w: int)
    requires
        forall|i: int| 0 <= i < rows.len() ==> #[trigger] rows[i].len() == w,
    ensures
        spec_sort(rows, ci, desc).len() == rows.len(),
        forall|i: int|
            0 <= i < rows.len() ==> #[trigger] spec_sort(rows, ci, desc)[i].len() == w,
    decreases rows.len(),
{
    if rows.len() > 0 {
        assert(forall|i: int|
            0 <= i < rows.len() - 1 ==> #[trigger] rows.drop_last()[i].len() == w);
        lemma_sort_width(rows.drop_last(), ci, desc, w);
        let pre = spec_sort(rows.drop_last(), ci, desc);
        lemma_insert_sorted_members(pre, rows.last(), ci, desc);
        assert forall|i: int| 0 <= i < rows.len() implies #[trigger] spec_sort(
            rows,
            ci,
            desc,
        )[i].len() == w by {
            let e = spec_sort(rows, ci, desc)[i];
            if pre.contains(e) {
                let j = choose|j: int| 0 <= j < pre.len() && pre[j] == e;
            } else {
                assert(e == rows.last());
            }
        }
    }
}

/// The law of result shape: every result row has exactly as many fields as
/// the result header, whatever the query asks for.
pub proof fn lemma_result_width(
    headers: Seq<Seq<char>>,
    records: Seq<Seq<Seq<char>>>,
    q: SQLQuery,
)
    ensures
        forall|i: int|
            0 <= i < spec_apply_query(headers, records, q).1.len()
                ==> #[trigger] spec_apply_query(headers, records, q).1[i].len()
                == spec_apply_query(headers, records, q).0.len(),
{
    let filtered = spec_filter(records, headers, q.condition);
    let cols = q.columns.deep_view();
    let fs = q.aggregate_functions@;
    let rheaders = spec_result_headers(cols, fs, headers);
    lemma_result_headers_len(cols, fs, headers);
    let rows0 = if fs.len() > 0 {
        spec_agg_rows(spec_query_groups(filtered, headers, q.group_by), cols, fs, headers)
    } else if q.distinct {
        spec_distinct_rows(cols, headers, filtered)
    } else {
        spec_project_rows(cols, headers, filtered)
    };
    assert(forall|i: int|
        0 <= i < rows0.len() ==> #[trigger] rows0[i].len() == rheaders.len()) by {
        if fs.len() > 0 {
            lemma_agg_rows_width(spec_query_groups(filtered, headers, q.group_by), cols, fs, headers);
        } else if q.distinct {
            lemma_distinct_rows_width(cols, headers, filtered);
        } else {
            lemma_project_rows_index(cols, headers, filtered);
            assert forall|i: int| 0 <= i < rows0.len() implies #[trigger] rows0[i].len()
                == rheaders.len() by {
                lemma_project_row_width(cols, headers, filtered[i]);
            }
        }
    }
    match q.order_by {
        Some(ob) => {
            match col_index(rheaders, ob.column@) {
                Some(ci) => {
                    lemma_sort_width(
                        rows0,
                        ci,
                        ob.direction == SortDirection::Descending,
                        rheaders.len() as int,
                    );
                },
                None => {},
            }
        },
        None => {},
    }
}

} // verus!

verus! {

/// The leaves of an `AND` tree, left to right; a non-`AND` node is its own
/// single leaf.
pub open spec fn and_leaves(c: Condition) -> Seq<Condition>
    decreases c,
{
    match c {
        Condition::And(a, b) => and_leaves(*a) + and_leaves(*b),
        _ => seq![c],
    }
}

/// The rows left after filtering by each predicate in turn.
pub open spec fn filter_each(
    rows: Seq<Seq<Seq<char>>>,
    headers: Seq<Seq<char>>,
    cs: Seq<Condition>,
) -> Seq<Seq<Seq<char>>>
    decreases cs.len(),
{
    if cs.len() == 0 {
        rows
    } else {
        filter_each(spec_filter(rows, headers, Some(cs[0])), headers, cs.skip(1))
    }
}

pub proof fn lemma_filter_each_concat(
    rows: Seq<Seq<Seq<char>>>,
    headers: Seq<Seq<char>>,
    cs1: Seq<Condition>,
    cs2: Seq<Condition>,
)
    ensures
        filter_each(rows, headers, cs1 + cs2) == filter_each(
            filter_each(rows, headers, cs1),
            headers,
            cs2,
        ),
    decreases cs1.len(),
{
    if cs1.len() == 0 {
        assert(cs1 + cs2 =~= cs2);
    } else {
        assert((cs1 + cs2)[0] == cs1[0]);
        assert((cs1 + cs2).skip(1) =~= cs1.skip(1) + cs2);
        lemma_filter_each_concat(
            spec_filter(rows, headers, Some(cs1[0])),
            headers,
            cs1.skip(1),
            cs2,
        );
    }
}

/// The law of `AND` chains: filtering by an `AND` tree, however it is
/// nested, is filtering by its leaves one comparison at a time, left to
/// right.
pub proof fn lemma_filter_and_chain(
    rows: Seq<Seq<Seq<char>>>,
    headers: Seq<Seq<char>>,
    c: Condition,
)
    ensures
        spec_filter(rows, headers, Some(c)) == filter_each(rows, headers, and_leaves(c)),
    decreases c,
{
    match c {
        Condition::And(a, b) => {
            assert(c == Condition::And(Box::new(*a), Box::new(*b)));
            lemma_filter_and(rows, headers, *a, *b);
            lemma_filter_and_chain(rows, headers, *a);
            lemma_filter_and_chain(spec_filter(rows, headers, Some(*a)), headers, *b);
            lemma_filter_each_concat(rows, headers, and_leaves(*a), and_leaves(*b));
            assert(and_leaves(c) == and_leaves(*a) + and_leaves(*b));
            assert(filter_each(rows, headers, and_leaves(*a)) == spec_filter(
                rows,
                headers,
                Some(*a),
            ));
            assert(filter_each(rows, headers, and_leaves(c)) == filter_each(
                spec_filter(rows, headers, Some(*a)),
                headers,
                and_leaves(*b),
            ));
            assert(spec_filter(rows, headers, Some(c)) == spec_filter(
                spec_filter(rows, headers, Some(*a)),
                headers,
                Some(*b),
            ));
        },
        _ => {
            reveal_with_fuel(filter_each, 3);
            assert(and_leaves(c) =~= seq![c]);
            assert(seq![c].skip(1) =~= Seq::<Condition>::empty());
        },
    }
}

} // verus!

verus! {

/// Stable insertion adds exactly the inserted row.
pub proof fn lemma_insert_sorted_multiset(
    s: Seq<Seq<Seq<char>>>,
    x: Seq<Seq<char>>,
    ci: int,
    desc: bool,
)
    ensures
        insert_sorted(s, x, ci, desc).to_multiset() =~= s.to_multiset().insert(x),
    decreases s.len(),
{
    broadcast use vstd::seq_lib::group_to_multiset_ensures;

    if s.len() == 0 {
        assert(seq![x] =~= Seq::<Seq<Seq<char>>>::empty().push(x));
        assert(forall|e: Seq<Seq<char>>|
            Seq::<Seq<Seq<char>>>::empty().to_multiset().count(e) == 0);
        assert(insert_sorted(s, x, ci, desc).to_multiset() =~= s.to_multiset().insert(x));
    } else if precedes(x, s.last(), ci, desc) {
        lemma_insert_sorted_multiset(s.drop_last(), x, ci, desc);
        assert(s =~= s.drop_last().push(s.last()));
        assert(s.to_multiset() =~= s.drop_last().to_multiset().insert(s.last()));
        assert(insert_sorted(s, x, ci, desc).to_multiset() =~= insert_sorted(
            s.drop_last(),
            x,
            ci,
            desc,
        ).to_multiset().insert(s.last()));
    } else {
    }
}

/// The law of sorting: the sorted rows are a permutation of the input rows.
pub proof fn lemma_sort_permutes(rows: Seq<Seq<Seq<char>>>, ci: int, desc: bool)
    ensures
        spec_sort(rows, ci, desc).to_multiset() =~= rows.to_multiset(),
    decreases rows.len(),
{
    broadcast use vstd::seq_lib::group_to_multiset_ensures;

    if rows.len() > 0 {
        lemma_sort_permutes(rows.drop_last(), ci, desc);
        lemma_insert_sorted_multiset(
            spec_sort(rows.drop_last(), ci, desc),
            rows.last(),
            ci,
            desc,
        );
        assert(rows =~= rows.drop_last().push(rows.last()));
        assert(rows.to_multiset() =~= rows.drop_last().to_multiset().insert(rows.last()));
    }
}

} // verus!

verus! {

/// The law of repetition: the pipeline's outcome is a function of the
/// headers, the rows and the query alone. `apply_query` ensures its result
/// equals `spec_apply_query` of its inputs, so two runs on unchanged inputs
/// return the same header and the same rows.
pub proof fn lemma_apply_query_repeatable(
    headers: Seq<Seq<char>>,
    records: Seq<Seq<Seq<char>>>,
    q: SQLQuery,
    first: (Seq<Seq<char>>, Seq<Seq<Seq<char>>>),
    second: (Seq<Seq<char>>, Seq<Seq<Seq<char>>>),
)
    requires
        first == spec_apply_query(headers, records, q),
        second == spec_apply_query(headers, records, q),
    ensures
        first == second,
{
}

} // verus!
