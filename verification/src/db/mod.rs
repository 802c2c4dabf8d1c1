//! The database-facing core: error taxonomy, schema catalog surface, and
//! one compiler per action kind.

use vstd::prelude::*;

use crate::query::SqlBuilder;
use crate::scalar::{coerce, coerce_spec, ColType, Scalar, ScalarV};
use crate::text::{dec_of, lemma_safe_ident_clean, safe_ident, str_eq};

use crate::db::table::{col_type, has_col, TableSchema};

pub mod bulk_insert;
pub mod db_handler;
pub mod delete;
pub mod insert;
pub mod retrieve;
pub mod update;
pub mod table;

verus! {

/// Everything that can go wrong between receiving an action and reporting
/// its outcome.
#[derive(Clone, Debug, PartialEq, Eq)]
pub enum DbError {
    /// Malformed or missing request fields, including unsafe identifiers
    /// and unrecognized delete modes.
    Validation { message: String },
    /// Unknown table, or a failed column lookup.
    Schema { message: String },
    /// An insert or update payload whose column set cannot match the schema.
    ColumnMismatch { message: String },
    /// A payload key that names no schema column.
    UnknownColumn { column: String },
    /// A value incompatible with its column's declared type.
    TypeCoercion { column: String, expected: ColType },
    /// A database-level failure reported by the execution collaborator.
    QueryExecution { message: String },
    /// A retrieve that produced zero rows.
    NotFound,
}

/// The mathematical content of a `DbError`: its kind, and the column it
/// names where the kind names one.
pub enum DbErrView {
    Validation,
    Schema,
    ColumnMismatch,
    UnknownColumn(Seq<char>),
    TypeCoercion(Seq<char>, ColType),
    QueryExecution,
    NotFound,
}

impl View for DbError {
    type V = DbErrView;

    open spec fn view(&self) -> DbErrView {
        match self {
            DbError::Validation { .. } => DbErrView::Validation,
            DbError::Schema { .. } => DbErrView::Schema,
            DbError::ColumnMismatch { .. } => DbErrView::ColumnMismatch,
            DbError::UnknownColumn { column } => DbErrView::UnknownColumn(column@),
            DbError::TypeCoercion { column, expected } => DbErrView::TypeCoercion(
                column@,
                *expected,
            ),
            DbError::QueryExecution { .. } => DbErrView::QueryExecution,
            DbError::NotFound => DbErrView::NotFound,
        }
    }
}

impl DeepView for DbError {
    type V = DbErrView;

    open spec fn deep_view(&self) -> DbErrView {
        self.view()
    }
}

/// View of a payload: each (column name, value) entry by its mathematical
/// content, in payload order.
pub open spec fn entries_view(vs: Seq<(String, Scalar)>) -> Seq<(Seq<char>, ScalarV)> {
    Seq::new(vs.len(), |i: int| (vs[i].0@, vs[i].1@))
}

pub open spec fn entry_names(es: Seq<(Seq<char>, ScalarV)>) -> Seq<Seq<char>> {
    Seq::new(es.len(), |i: int| es[i].0)
}

pub open spec fn entry_vals(es: Seq<(Seq<char>, ScalarV)>) -> Seq<ScalarV> {
    Seq::new(es.len(), |i: int| es[i].1)
}

/// Entry `k` of a payload is acceptable: its column is in the schema, it is
/// the first entry for that column, and its value coerces to the column's
/// declared type.
pub open spec fn entry_ok(
    schema: Seq<(Seq<char>, ColType)>,
    es: Seq<(Seq<char>, ScalarV)>,
    k: int,
) -> bool {
    &&& has_col(schema, es[k].0)
    &&& !(exists|j: int| 0 <= j < k && (#[trigger] es[j]).0 == es[k].0)
    &&& coerce_spec(es[k].1, col_type(schema, es[k].0)) is Some
}

/// The first problem in a payload checked against a schema, scanning from
/// entry `k`: an unknown column, a repeated column, or a value that does not
/// coerce — or `None` when every remaining entry is acceptable.
pub open spec fn vals_err_from(
    schema: Seq<(Seq<char>, ColType)>,
    es: Seq<(Seq<char>, ScalarV)>,
    k: int,
) -> Option<DbErrView>
    decreases es.len() - k,
{
    if k < 0 || k >= es.len() {
        None
    } else if !has_col(schema, es[k].0) {
        Some(DbErrView::UnknownColumn(es[k].0))
    } else if exists|j: int| 0 <= j < k && (#[trigger] es[j]).0 == es[k].0 {
        Some(DbErrView::ColumnMismatch)
    } else if coerce_spec(es[k].1, col_type(schema, es[k].0)) is None {
        Some(DbErrView::TypeCoercion(es[k].0, col_type(schema, es[k].0)))
    } else {
        vals_err_from(schema, es, k + 1)
    }
}

pub open spec fn vals_err(
    schema: Seq<(Seq<char>, ColType)>,
    es: Seq<(Seq<char>, ScalarV)>,
) -> Option<DbErrView> {
    vals_err_from(schema, es, 0)
}

/// The parameters of a valid payload: each value coerced to its column's
/// declared type, in payload order.
pub open spec fn coerced_params(
    schema: Seq<(Seq<char>, ColType)>,
    es: Seq<(Seq<char>, ScalarV)>,
) -> Seq<ScalarV> {
    Seq::new(es.len(), |i: int| coerce_spec(es[i].1, col_type(schema, es[i].0))->0)
}

pub proof fn lemma_vals_err_skip(
    schema: Seq<(Seq<char>, ColType)>,
    es: Seq<(Seq<char>, ScalarV)>,
    k: int,
)
    requires
        0 <= k <= es.len(),
        forall|j: int| 0 <= j < k ==> entry_ok(schema, es, j),
    ensures
        vals_err_from(schema, es, 0) == vals_err_from(schema, es, k),
    decreases k,
{
    if k > 0 {
        lemma_vals_err_skip(schema, es, k - 1);
        assert(entry_ok(schema, es, k - 1));
    }
}

/// Every entry of a payload without a `vals_err` problem is acceptable.
pub proof fn lemma_vals_ok_entries(
    schema: Seq<(Seq<char>, ColType)>,
    es: Seq<(Seq<char>, ScalarV)>,
    k: int,
)
    requires
        0 <= k <= es.len(),
        vals_err_from(schema, es, k) is None,
    ensures
        forall|j: int| k <= j < es.len() ==> entry_ok(schema, es, j),
    decreases es.len() - k,
{
    if k < es.len() {
        assert(entry_ok(schema, es, k));
        lemma_vals_ok_entries(schema, es, k + 1);
    }
}

/// Checks a payload against a schema and returns its coerced parameter
/// list; fails with exactly the first problem `vals_err` names.
pub fn check_vals(schema: &TableSchema, vals: &Vec<(String, Scalar)>) -> (r: Result<
    Vec<Scalar>,
    DbError,
>)
    ensures
        r is Ok <==> vals_err(schema@, entries_view(vals@)) is None,
        r is Ok ==> r->Ok_0.deep_view() == coerced_params(schema@, entries_view(vals@)),
        r is Ok ==> forall|k: int|
            0 <= k < vals@.len() ==> entry_ok(schema@, entries_view(vals@), k),
        r is Err ==> Some(r->Err_0@) == vals_err(schema@, entries_view(vals@)),
{
    let ghost es = entries_view(vals@);
    let mut out: Vec<Scalar> = Vec::new();
    let n = vals.len();
    let mut i: usize = 0;
    while i < n
        invariant
            0 <= i <= n,
            n == vals@.len(),
            es == entries_view(vals@),
            out@.len() == i,
            forall|k: int| 0 <= k < i ==> entry_ok(schema@, es, k),
            forall|k: int|
                0 <= k < i ==> (#[trigger] out@[k])@ == coerce_spec(
                    es[k].1,
                    col_type(schema@, es[k].0),
                )->0,
        decreases n - i,
    {
        proof {
            lemma_vals_err_skip(schema@, es, i as int);
        }
        let name = &vals[i].0;
        let ty = match schema.lookup(name.as_str()) {
            Some(ty) => ty,
            None => {
                return Err(DbError::UnknownColumn { column: name.clone() });
            },
        };
        let mut j: usize = 0;
        while j < i
            invariant
                0 <= j <= i < n,
                n == vals@.len(),
                es == entries_view(vals@),
                name@ == es[i as int].0,
                has_col(schema@, es[i as int].0),
                forall|k: int| 0 <= k < i ==> entry_ok(schema@, es, k),
                forall|k: int| 0 <= k < j ==> (#[trigger] es[k]).0 != es[i as int].0,
            decreases i - j,
        {
            if str_eq(vals[j].0.as_str(), name.as_str()) {
                proof {
                    lemma_vals_err_skip(schema@, es, i as int);
                    assert(es[j as int].0 == es[i as int].0);
                    assert(exists|k: int| 0 <= k < i && (#[trigger] es[k]).0 == es[i as int].0);
                    assert(vals_err_from(schema@, es, i as int) == Some(
                        DbErrView::ColumnMismatch,
                    ));
                }
                return Err(
                    DbError::ColumnMismatch {
                        message: String::from_str("column repeated in payload"),
                    },
                );
            }
            j = j + 1;
        }
        let coerced = match coerce(&vals[i].1, ty) {
            Some(c) => c,
            None => {
                return Err(DbError::TypeCoercion { column: name.clone(), expected: ty });
            },
        };
        out.push(coerced);
        i = i + 1;
    }
    proof {
        lemma_vals_err_skip(schema@, es, n as int);
        assert(out.deep_view() =~= coerced_params(schema@, es));
    }
    Ok(out)
}

/// Checks that every filter column is a safe identifier.
pub fn check_filters(filters: &Vec<(String, Scalar)>) -> (ok: bool)
    ensures
        ok == forall|i: int|
            0 <= i < filters@.len() ==> safe_ident((#[trigger] filters@[i]).0@),
{
    let n = filters.len();
    let mut i: usize = 0;
    while i < n
        invariant
            0 <= i <= n,
            n == filters@.len(),
            forall|k: int| 0 <= k < i ==> safe_ident((#[trigger] filters@[k]).0@),
        decreases n - i,
    {
        if !crate::text::is_safe_ident(filters[i].0.as_str()) {
            return false;
        }
        i = i + 1;
    }
    true
}

/// The comma-separated column list of an insert head: `c1, c2, c3`.
pub open spec fn col_list(names: Seq<Seq<char>>) -> Seq<char>
    decreases names.len(),
{
    if names.len() == 0 {
        Seq::empty()
    } else {
        col_list(names.drop_last()) + (if names.len() == 1 {
            Seq::<char>::empty()
        } else {
            ", "@
        }) + names.last()
    }
}

/// `count` comma-separated placeholders starting at `$start`.
pub open spec fn ph_group(start: nat, count: nat) -> Seq<char>
    decreases count,
{
    if count == 0 {
        Seq::empty()
    } else {
        ph_group(start, (count - 1) as nat) + (if count == 1 {
            Seq::<char>::empty()
        } else {
            ","@
        }) + seq!['$'] + dec_of((start + count - 1) as nat)
    }
}

/// The WHERE clause of AND-combined equality filters, or nothing:
/// ` WHERE a = $s AND b = $s+1`.
pub open spec fn where_clause(names: Seq<Seq<char>>, start: nat) -> Seq<char>
    decreases names.len(),
{
    if names.len() == 0 {
        Seq::empty()
    } else {
        where_clause(names.drop_last(), start) + (if names.len() == 1 {
            " WHERE "@
        } else {
            " AND "@
        }) + names.last() + " = "@ + seq!['$'] + dec_of((start + names.len() - 1) as nat)
    }
}

/// The SET clause of an update: `c1 = $1, c2 = $2`.
pub open spec fn set_clause(names: Seq<Seq<char>>, start: nat) -> Seq<char>
    decreases names.len(),
{
    if names.len() == 0 {
        Seq::empty()
    } else {
        set_clause(names.drop_last(), start) + (if names.len() == 1 {
            Seq::<char>::empty()
        } else {
            ", "@
        }) + names.last() + " = "@ + seq!['$'] + dec_of((start + names.len() - 1) as nat)
    }
}

/// Appends the comma-separated column list of the payload to the builder.
pub fn push_col_list(b: &mut SqlBuilder, vals: &Vec<(String, Scalar)>)
    requires
        old(b).wf(),
        forall|i: int| 0 <= i < vals@.len() ==> safe_ident((#[trigger] vals@[i]).0@),
    ensures
        final(b).wf(),
        final(b).params == old(b).params,
        final(b).text@ == old(b).text@ + col_list(entry_names(entries_view(vals@))),
{
    let ghost base: Seq<char> = b.text@;
    let ghost names = entry_names(entries_view(vals@));
    let n = vals.len();
    let mut i: usize = 0;
    proof {
        assert(b.text@ =~= base + col_list(names.subrange(0, 0)));
    }
    while i < n
        invariant
            0 <= i <= n,
            n == vals@.len(),
            names == entry_names(entries_view(vals@)),
            forall|k: int| 0 <= k < vals@.len() ==> safe_ident((#[trigger] vals@[k]).0@),
            b.wf(),
            b.params == old(b).params,
            b.text@ == base + col_list(names.subrange(0, i as int)),
        decreases n - i,
    {
        proof {
            reveal_strlit(", ");
        }
        if i > 0 {
            b.push_sql(", ");
        }
        proof {
            lemma_safe_ident_clean(vals@[i as int].0@);
        }
        b.push_sql(vals[i].0.as_str());
        proof {
            let pre = names.subrange(0, i as int);
            let cur = names.subrange(0, i + 1);
            assert(cur.drop_last() =~= pre);
            assert(cur.last() == names[i as int]);
            if i == 0 {
                assert(b.text@ =~= base + col_list(cur));
            } else {
                assert(b.text@ =~= base + col_list(cur));
            }
        }
        i = i + 1;
    }
    proof {
        assert(names.subrange(0, n as int) =~= names);
    }
}

/// Appends the parameters of a coerced payload, comma-separated, each as a
/// placeholder: `$s,$s+1,...`.
pub fn push_ph_group(b: &mut SqlBuilder, coerced: &Vec<Scalar>)
    requires
        old(b).wf(),
    ensures
        final(b).wf(),
        final(b).text@ == old(b).text@ + ph_group(
            (old(b).params@.len() + 1) as nat,
            coerced@.len(),
        ),
        final(b).params.deep_view() == old(b).params.deep_view() + coerced.deep_view(),
{
    let ghost base: Seq<char> = b.text@;
    let ghost start: nat = (old(b).params@.len() + 1) as nat;
    let n = coerced.len();
    let mut i: usize = 0;
    proof {
        assert(b.text@ =~= base + ph_group(start, 0));
        assert(b.params.deep_view() =~= old(b).params.deep_view() + coerced.deep_view().subrange(
            0,
            0,
        ));
    }
    while i < n
        invariant
            0 <= i <= n,
            n == coerced@.len(),
            start == old(b).params@.len() + 1,
            b.wf(),
            b.params@.len() == old(b).params@.len() + i,
            b.params.deep_view() == old(b).params.deep_view() + coerced.deep_view().subrange(
                0,
                i as int,
            ),
            b.text@ == base + ph_group(start, i as nat),
        decreases n - i,
    {
        proof {
            reveal_strlit(",");
        }
        if i > 0 {
            b.push_sql(",");
        }
        let ghost prev_deep = b.params.deep_view();
        let p = coerced[i].duplicate();
        b.push_param(p);
        proof {
            assert(b.text@ =~= base + ph_group(start, (i + 1) as nat));
            assert(b.params.deep_view() =~= prev_deep.push(p@));
            assert(coerced.deep_view()[i as int] == coerced@[i as int]@);
            assert(coerced.deep_view().subrange(0, i + 1) =~= coerced.deep_view().subrange(
                0,
                i as int,
            ).push(coerced@[i as int]@));
            assert(b.params.deep_view() =~= old(b).params.deep_view()
                + coerced.deep_view().subrange(0, i + 1));
        }
        i = i + 1;
    }
    proof {
        assert(coerced.deep_view().subrange(0, n as int) =~= coerced.deep_view());
    }
}

/// Appends the WHERE clause for the filters, binding each filter value as a
/// parameter; appends nothing for an empty filter list.
pub fn push_where(b: &mut SqlBuilder, filters: &Vec<(String, Scalar)>)
    requires
        old(b).wf(),
        forall|i: int| 0 <= i < filters@.len() ==> safe_ident((#[trigger] filters@[i]).0@),
    ensures
        final(b).wf(),
        final(b).text@ == old(b).text@ + where_clause(
            entry_names(entries_view(filters@)),
            (old(b).params@.len() + 1) as nat,
        ),
        final(b).params.deep_view() == old(b).params.deep_view() + entry_vals(
            entries_view(filters@),
        ),
{
    let ghost base: Seq<char> = b.text@;
    let ghost start: nat = (old(b).params@.len() + 1) as nat;
    let ghost names = entry_names(entries_view(filters@));
    let ghost fvals = entry_vals(entries_view(filters@));
    let n = filters.len();
    let mut i: usize = 0;
    proof {
        assert(names.subrange(0, 0) =~= Seq::<Seq<char>>::empty());
        assert(b.text@ =~= base + where_clause(names.subrange(0, 0), start));
        assert(b.params.deep_view() =~= old(b).params.deep_view() + fvals.subrange(0, 0));
    }
    while i < n
        invariant
            0 <= i <= n,
            n == filters@.len(),
            names == entry_names(entries_view(filters@)),
            fvals == entry_vals(entries_view(filters@)),
            start == old(b).params@.len() + 1,
            forall|k: int| 0 <= k < filters@.len() ==> safe_ident((#[trigger] filters@[k]).0@),
            b.wf(),
            b.params@.len() == old(b).params@.len() + i,
            b.params.deep_view() == old(b).params.deep_view() + fvals.subrange(0, i as int),
            b.text@ == base + where_clause(names.subrange(0, i as int), start),
        decreases n - i,
    {
        proof {
            reveal_strlit(" WHERE ");
            reveal_strlit(" AND ");
            reveal_strlit(" = ");
        }
        if i == 0 {
            b.push_sql(" WHERE ");
        } else {
            b.push_sql(" AND ");
        }
        proof {
            lemma_safe_ident_clean(filters@[i as int].0@);
        }
        b.push_sql(filters[i].0.as_str());
        b.push_sql(" = ");
        let ghost prev_deep = b.params.deep_view();
        let p = filters[i].1.duplicate();
        b.push_param(p);
        proof {
            let pre = names.subrange(0, i as int);
            let cur = names.subrange(0, i + 1);
            assert(cur.drop_last() =~= pre);
            assert(cur.last() == names[i as int]);
            assert(b.text@ =~= base + where_clause(cur, start));
            assert(b.params.deep_view() =~= prev_deep.push(p@));
            assert(fvals[i as int] == filters@[i as int].1@);
            assert(fvals.subrange(0, i + 1) =~= fvals.subrange(0, i as int).push(
                filters@[i as int].1@,
            ));
            assert(b.params.deep_view() =~= old(b).params.deep_view() + fvals.subrange(0, i + 1));
        }
        i = i + 1;
    }
    proof {
        assert(names.subrange(0, n as int) =~= names);
        assert(fvals.subrange(0, n as int) =~= fvals);
    }
}

} // verus!
