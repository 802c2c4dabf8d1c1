//! Compiling a retrieve: `SELECT * FROM <table>` with an optional
//! AND-combined equality WHERE clause. No schema validation is performed;
//! returned rows are projected afterwards by the external projector.

use vstd::prelude::*;

use crate::db::{
    check_filters, entries_view, entry_names, entry_vals, push_where, where_clause, DbErrView,
    DbError,
};
use crate::query::{CompiledQuery, SqlBuilder};
use crate::scalar::{Scalar, ScalarV};
use crate::text::{is_safe_ident, lemma_safe_ident_clean, safe_ident};

verus! {

pub struct Retrieve;

impl Retrieve {
    /// The SQL text of a compiled retrieve.
    pub open spec fn retrieve_sql(table: Seq<char>, fnames: Seq<Seq<char>>) -> Seq<char> {
        "SELECT * FROM "@ + table + where_clause(fnames, 1)
    }

    /// Why a retrieve fails to compile, if it does: the table name or a
    /// filter column is not a safe identifier.
    pub open spec fn retrieve_err(table: Seq<char>, fs: Seq<(Seq<char>, ScalarV)>) -> Option<
        DbErrView,
    > {
        if !safe_ident(table) {
            Some(DbErrView::Validation)
        } else if !(forall|i: int| 0 <= i < fs.len() ==> safe_ident((#[trigger] fs[i]).0)) {
            Some(DbErrView::Validation)
        } else {
            None
        }
    }

    /// Compiles a retrieve. On success the SQL text is exactly
    /// `retrieve_sql`, the parameters are the filter values in filter
    /// order, and the placeholders are `$1..$n` in that order.
    pub fn compile(table: &str, filters: &Vec<(String, Scalar)>) -> (r: Result<
        CompiledQuery,
        DbError,
    >)
        ensures
            ({
                let fs = entries_view(filters@);
                &&& (r is Ok <==> Self::retrieve_err(table@, fs) is None)
                &&& (r is Err ==> Some(r->Err_0@) == Self::retrieve_err(table@, fs))
                &&& (r is Ok ==> {
                    &&& r->Ok_0.placeholders_ok()
                    &&& r->Ok_0.sql@ == Self::retrieve_sql(table@, entry_names(fs))
                    &&& r->Ok_0.params.deep_view() == entry_vals(fs)
                })
            }),
    {
        let ghost fs = entries_view(filters@);
        if !is_safe_ident(table) {
            return Err(
                DbError::Validation {
                    message: String::from_str("table name is not a safe identifier"),
                },
            );
        }
        if !check_filters(filters) {
            proof {
                assert(exists|i: int|
                    0 <= i < filters@.len() && !safe_ident((#[trigger] filters@[i]).0@));
                let i = choose|i: int|
                    0 <= i < filters@.len() && !safe_ident((#[trigger] filters@[i]).0@);
                assert(fs[i].0 == filters@[i].0@);
                assert(!(forall|k: int| 0 <= k < fs.len() ==> safe_ident((#[trigger] fs[k]).0)));
            }
            return Err(
                DbError::Validation {
                    message: String::from_str("filter column is not a safe identifier"),
                },
            );
        }
        proof {
            assert forall|i: int| 0 <= i < fs.len() implies safe_ident((#[trigger] fs[i]).0) by {
                assert(fs[i].0 == filters@[i].0@);
            }
        }
        let mut b = SqlBuilder::new();
        proof {
            reveal_strlit("SELECT * FROM ");
            lemma_safe_ident_clean(table@);
        }
        b.push_sql("SELECT * FROM ");
        b.push_sql(table);
        push_where(&mut b, filters);
        proof {
            assert(b.text@ =~= Self::retrieve_sql(table@, entry_names(fs)));
            assert(b.params.deep_view() =~= entry_vals(fs));
        }
        Ok(b.finish())
    }
}

} // verus!
