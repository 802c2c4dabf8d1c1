//! Compiling a bulk insert: every row is validated like a single insert,
//! every row must carry the first row's column set, and all rows compile
//! into one multi-row `VALUES` statement, executed all-or-nothing inside a
//! single transaction.

use vstd::prelude::*;

use crate::db::table::{col_type, has_col, lemma_has_col_safe, lemma_name_index, name_index,
    TableSchema};
use crate::db::{
    check_vals, coerced_params, col_list, entries_view, entry_names, entry_ok, ph_group,
    push_col_list, push_ph_group, vals_err, DbErrView, DbError,
};
use crate::query::{CompiledQuery, SqlBuilder};
use crate::scalar::{coerce_spec, ColType, Scalar, ScalarV};
use crate::text::{is_safe_ident, lemma_safe_ident_clean, safe_ident, str_eq};

verus! {

/// View of a row list: each row as its payload view.
pub open spec fn rows_view(rows: Seq<Vec<(String, Scalar)>>) -> Seq<Seq<(Seq<char>, ScalarV)>> {
    Seq::new(rows.len(), |i: int| entries_view(rows[i]@))
}

/// Row `row` is acceptable against the schema and the first row's column
/// names: insert-valid, and carrying every one of those names.
pub open spec fn row_ok(
    schema: Seq<(Seq<char>, ColType)>,
    names0: Seq<Seq<char>>,
    row: Seq<(Seq<char>, ScalarV)>,
) -> bool {
    &&& row.len() == schema.len()
    &&& vals_err(schema, row) is None
    &&& forall|j: int|
        0 <= j < names0.len() ==> name_index(entry_names(row), #[trigger] names0[j]) >= 0
}

/// The first problem among the rows, scanning from row `k`.
pub open spec fn rows_err_from(
    schema: Seq<(Seq<char>, ColType)>,
    names0: Seq<Seq<char>>,
    rows: Seq<Seq<(Seq<char>, ScalarV)>>,
    k: int,
) -> Option<DbErrView>
    decreases rows.len() - k,
{
    if k < 0 || k >= rows.len() {
        None
    } else if rows[k].len() != schema.len() {
        Some(DbErrView::ColumnMismatch)
    } else if vals_err(schema, rows[k]) is Some {
        vals_err(schema, rows[k])
    } else if !(forall|j: int|
        0 <= j < names0.len() ==> name_index(entry_names(rows[k]), #[trigger] names0[j]) >= 0) {
        Some(DbErrView::ColumnMismatch)
    } else {
        rows_err_from(schema, names0, rows, k + 1)
    }
}

pub proof fn lemma_rows_err_skip(
    schema: Seq<(Seq<char>, ColType)>,
    names0: Seq<Seq<char>>,
    rows: Seq<Seq<(Seq<char>, ScalarV)>>,
    k: int,
)
    requires
        0 <= k <= rows.len(),
        forall|j: int| 0 <= j < k ==> row_ok(schema, names0, #[trigger] rows[j]),
    ensures
        rows_err_from(schema, names0, rows, 0) == rows_err_from(schema, names0, rows, k),
    decreases k,
{
    if k > 0 {
        lemma_rows_err_skip(schema, names0, rows, k - 1);
        assert(row_ok(schema, names0, rows[k - 1]));
    }
}

/// The parameters of one acceptable row, in the first row's column order.
pub open spec fn row_params(
    schema: Seq<(Seq<char>, ColType)>,
    row: Seq<(Seq<char>, ScalarV)>,
    names0: Seq<Seq<char>>,
) -> Seq<ScalarV> {
    Seq::new(
        names0.len(),
        |j: int|
            coerce_spec(
                row[name_index(entry_names(row), names0[j])].1,
                col_type(schema, names0[j]),
            )->0,
    )
}

/// The parameters of the whole statement: each row's parameters in row
/// order, every row in the first row's column order.
pub open spec fn bulk_params(
    schema: Seq<(Seq<char>, ColType)>,
    rows: Seq<Seq<(Seq<char>, ScalarV)>>,
    names0: Seq<Seq<char>>,
) -> Seq<ScalarV>
    decreases rows.len(),
{
    if rows.len() == 0 {
        Seq::empty()
    } else {
        bulk_params(schema, rows.drop_last(), names0) + row_params(schema, rows.last(), names0)
    }
}

/// The `(...),(...)` groups after `VALUES`, one per row, with strictly
/// sequential placeholders across rows.
pub open spec fn row_group(ncols: nat, r: nat) -> Seq<char>
    decreases r,
{
    if r == 0 {
        Seq::empty()
    } else {
        row_group(ncols, (r - 1) as nat) + (if r == 1 {
            Seq::<char>::empty()
        } else {
            ","@
        }) + "("@ + ph_group(((r - 1) * ncols + 1) as nat, ncols) + ")"@
    }
}

/// Finds the first entry of a payload that carries the given column name.
fn find_name(row: &Vec<(String, Scalar)>, name: &str) -> (r: Option<usize>)
    ensures
        r is Some <==> name_index(entry_names(entries_view(row@)), name@) >= 0,
        r is Some ==> r->0 == name_index(entry_names(entries_view(row@)), name@)
            && r->0 < row@.len(),
{
    let ghost names = entry_names(entries_view(row@));
    let n = row.len();
    let mut i: usize = 0;
    while i < n
        invariant
            0 <= i <= n,
            n == row@.len(),
            names == entry_names(entries_view(row@)),
            forall|k: int| 0 <= k < i ==> #[trigger] names[k] != name@,
        decreases n - i,
    {
        if str_eq(row[i].0.as_str(), name) {
            proof {
                assert(names[i as int] == name@);
                lemma_name_index(names, name@);
                let ci = name_index(names, name@);
                if ci == -1 {
                    assert(names[i as int] != name@);
                } else if ci < i as int {
                    assert(names[ci] != name@);
                } else if ci > i as int {
                    assert(names[i as int] != name@);
                }
            }
            return Some(i);
        }
        i = i + 1;
    }
    proof {
        lemma_name_index(names, name@);
        if name_index(names, name@) >= 0 {
            let ci = name_index(names, name@);
            assert(names[ci] != name@);
        }
    }
    None
}

pub struct BulkInsert;

impl BulkInsert {
    /// The SQL text of a compiled bulk insert.
    pub open spec fn bulk_sql(table: Seq<char>, names0: Seq<Seq<char>>, nrows: nat) -> Seq<char> {
        "INSERT INTO "@ + table + " ("@ + col_list(names0) + ") VALUES "@ + row_group(
            names0.len(),
            nrows,
        )
    }

    /// Why a bulk insert fails to compile, if it does: an unsafe table
    /// name, an empty row list, or the first problem among the rows.
    pub open spec fn bulk_err(
        table: Seq<char>,
        schema: Seq<(Seq<char>, ColType)>,
        rows: Seq<Seq<(Seq<char>, ScalarV)>>,
    ) -> Option<DbErrView> {
        if !safe_ident(table) {
            Some(DbErrView::Validation)
        } else if rows.len() == 0 {
            Some(DbErrView::Validation)
        } else {
            rows_err_from(schema, entry_names(rows[0]), rows, 0)
        }
    }

    /// Compiles a bulk insert. On success the SQL text is exactly
    /// `bulk_sql` over the first row's column names, the parameters are the
    /// rows' coerced values row by row in that column order, and the
    /// placeholders are `$1..$n` in that order.
    pub fn compile(table: &str, schema: &TableSchema, rows: &Vec<Vec<(String, Scalar)>>) -> (r:
        Result<CompiledQuery, DbError>)
        requires
            schema.wf(),
        ensures
            ({
                let rv = rows_view(rows@);
                &&& (r is Ok <==> Self::bulk_err(table@, schema@, rv) is None)
                &&& (r is Err ==> Some(r->Err_0@) == Self::bulk_err(table@, schema@, rv))
                &&& (r is Ok ==> {
                    &&& r->Ok_0.placeholders_ok()
                    &&& r->Ok_0.sql@ == Self::bulk_sql(table@, entry_names(rv[0]), rv.len())
                    &&& r->Ok_0.params.deep_view() == bulk_params(schema@, rv, entry_names(rv[0]))
                })
            }),
    {
        let ghost rv = rows_view(rows@);
        if !is_safe_ident(table) {
            return Err(
                DbError::Validation {
                    message: String::from_str("table name is not a safe identifier"),
                },
            );
        }
        let nrows = rows.len();
        if nrows == 0 {
            return Err(DbError::Validation { message: String::from_str("no rows to insert") });
        }
        let ghost names0 = entry_names(rv[0]);
        let ncols = rows[0].len();
        proof {
            assert(names0.len() == rv[0].len());
        }
        let mut reordered: Vec<Vec<Scalar>> = Vec::new();
        let mut r: usize = 0;
        while r < nrows
            invariant
                0 <= r <= nrows,
                nrows == rows@.len(),
                rv == rows_view(rows@),
                names0 == entry_names(rv[0]),
                ncols == rv[0].len(),
                safe_ident(table@),
                schema.wf(),
                reordered@.len() == r,
                forall|k: int| 0 <= k < r ==> row_ok(schema@, names0, #[trigger] rv[k]),
                forall|k: int|
                    0 <= k < r ==> (#[trigger] reordered@[k]).deep_view() == row_params(
                        schema@,
                        rv[k],
                        names0,
                    ),
                forall|k: int| 0 <= k < r ==> (#[trigger] reordered@[k])@.len() == ncols,
            decreases nrows - r,
        {
            proof {
                lemma_rows_err_skip(schema@, names0, rv, r as int);
            }
            let row = &rows[r];
            if row.len() != schema.len() {
                return Err(
                    DbError::ColumnMismatch {
                        message: String::from_str("row columns do not match the schema"),
                    },
                );
            }
            let coerced = match check_vals(schema, row) {
                Ok(c) => c,
                Err(e) => {
                    return Err(e);
                },
            };
            proof {
                assert(coerced.deep_view().len() == coerced@.len());
                assert(coerced@.len() == rv[r as int].len());
            }
            let mut rr: Vec<Scalar> = Vec::new();
            let mut j: usize = 0;
            while j < ncols
                invariant
                    0 <= j <= ncols,
                    0 <= r < nrows,
                    nrows == rows@.len(),
                    rv == rows_view(rows@),
                    names0 == entry_names(rv[0]),
                    ncols == rv[0].len(),
                    ncols == names0.len(),
                    safe_ident(table@),
                    schema.wf(),
                    row@ == rows@[r as int]@,
                    rv[r as int] == entries_view(rows@[r as int]@),
                    rv[r as int].len() == schema@.len(),
                    vals_err(schema@, rv[r as int]) is None,
                    forall|k: int|
                        0 <= k < rv[r as int].len() ==> entry_ok(schema@, rv[r as int], k),
                    coerced.deep_view() == coerced_params(schema@, rv[r as int]),
                    coerced@.len() == rv[r as int].len(),
                    forall|k: int| 0 <= k < r ==> row_ok(schema@, names0, #[trigger] rv[k]),
                    rr@.len() == j,
                    forall|jj: int|
                        0 <= jj < j ==> name_index(entry_names(rv[r as int]), #[trigger] names0[jj])
                            >= 0,
                    forall|jj: int|
                        0 <= jj < j ==> (#[trigger] rr@[jj])@ == row_params(
                            schema@,
                            rv[r as int],
                            names0,
                        )[jj],
                decreases ncols - j,
            {
                let p = match find_name(row, rows[0][j].0.as_str()) {
                    Some(p) => p,
                    None => {
                        proof {
                            lemma_rows_err_skip(schema@, names0, rv, r as int);
                            assert(rows@[0]@[j as int].0@ == names0[j as int]);
                            assert(name_index(entry_names(rv[r as int]), names0[j as int]) < 0);
                            assert(!(forall|jj: int|
                                0 <= jj < names0.len() ==> name_index(
                                    entry_names(rv[r as int]),
                                    #[trigger] names0[jj],
                                ) >= 0));
                            assert(rows_err_from(schema@, names0, rv, r as int) == Some(
                                DbErrView::ColumnMismatch,
                            ));
                        }
                        return Err(
                            DbError::ColumnMismatch {
                                message: String::from_str(
                                    "row columns diverge from the first row",
                                ),
                            },
                        );
                    },
                };
                proof {
                    assert(rows@[0]@[j as int].0@ == names0[j as int]);
                    assert(entry_names(rv[r as int])[p as int] == rv[r as int][p as int].0);
                    lemma_name_index(entry_names(rv[r as int]), names0[j as int]);
                    assert(rv[r as int][p as int].0 == names0[j as int]);
                    assert(entry_ok(schema@, rv[r as int], p as int));
                    assert(coerced.deep_view()[p as int] == coerce_spec(
                        rv[r as int][p as int].1,
                        col_type(schema@, rv[r as int][p as int].0),
                    )->0);
                    assert(coerced.deep_view()[p as int] == coerced@[p as int]@);
                }
                rr.push(coerced[p].duplicate());
                j = j + 1;
            }
            proof {
                assert(rr.deep_view() =~= row_params(schema@, rv[r as int], names0));
                assert(row_ok(schema@, names0, rv[r as int]));
            }
            reordered.push(rr);
            r = r + 1;
        }
        proof {
            lemma_rows_err_skip(schema@, names0, rv, nrows as int);
            assert(row_ok(schema@, names0, rv[0]));
            crate::db::lemma_vals_ok_entries(schema@, rv[0], 0);
            assert forall|i: int|
                0 <= i < rows@[0]@.len() implies safe_ident((#[trigger] rows@[0]@[i]).0@) by {
                assert(entry_ok(schema@, rv[0], i));
                assert(has_col(schema@, rv[0][i].0));
                lemma_has_col_safe(schema@, rv[0][i].0, schema);
                assert(rv[0][i].0 == rows@[0]@[i].0@);
            }
        }
        let mut b = SqlBuilder::new();
        proof {
            reveal_strlit("INSERT INTO ");
            reveal_strlit(" (");
            reveal_strlit(") VALUES ");
            lemma_safe_ident_clean(table@);
        }
        b.push_sql("INSERT INTO ");
        b.push_sql(table);
        b.push_sql(" (");
        push_col_list(&mut b, &rows[0]);
        b.push_sql(") VALUES ");
        proof {
            assert(entry_names(entries_view(rows@[0]@)) =~= names0);
            assert(col_list(entry_names(entries_view(rows@[0]@))) == col_list(names0));
        }
        let ghost head: Seq<char> = b.text@;
        let mut r2: usize = 0;
        proof {
            assert(b.text@ =~= head + row_group(ncols as nat, 0));
            assert(b.params.deep_view() =~= bulk_params(schema@, rv.subrange(0, 0), names0));
        }
        while r2 < nrows
            invariant
                0 <= r2 <= nrows,
                nrows == rows@.len(),
                rv == rows_view(rows@),
                names0 == entry_names(rv[0]),
                ncols == names0.len(),
                reordered@.len() == nrows,
                forall|k: int|
                    0 <= k < nrows ==> (#[trigger] reordered@[k]).deep_view() == row_params(
                        schema@,
                        rv[k],
                        names0,
                    ),
                forall|k: int| 0 <= k < nrows ==> (#[trigger] reordered@[k])@.len() == ncols,
                b.wf(),
                b.params@.len() == r2 * ncols,
                b.params.deep_view() == bulk_params(schema@, rv.subrange(0, r2 as int), names0),
                b.text@ == head + row_group(ncols as nat, r2 as nat),
            decreases nrows - r2,
        {
            proof {
                reveal_strlit(",");
                reveal_strlit("(");
                reveal_strlit(")");
            }
            if r2 > 0 {
                b.push_sql(",");
            }
            b.push_sql("(");
            let ghost pre_deep = b.params.deep_view();
            push_ph_group(&mut b, &reordered[r2]);
            b.push_sql(")");
            proof {
                assert((r2 + 1) * ncols == r2 * ncols + ncols) by (nonlinear_arith);
                assert(b.text@ =~= head + row_group(ncols as nat, (r2 + 1) as nat));
                let prefix = rv.subrange(0, r2 as int);
                let prefix1 = rv.subrange(0, r2 + 1);
                assert(prefix1.drop_last() =~= prefix);
                assert(prefix1.last() == rv[r2 as int]);
                assert(reordered@[r2 as int].deep_view() == row_params(
                    schema@,
                    rv[r2 as int],
                    names0,
                ));
                assert(b.params.deep_view() =~= bulk_params(schema@, prefix1, names0));
            }
            r2 = r2 + 1;
        }
        proof {
            assert(rv.subrange(0, nrows as int) =~= rv);
            assert(b.text@ =~= Self::bulk_sql(table@, names0, rv.len()));
        }
        Ok(b.finish())
    }
}

} // verus!
