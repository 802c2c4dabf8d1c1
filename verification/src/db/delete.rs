//! Compiling a delete, modulated by its mode: a filtered delete compiles an
//! AND-combined equality WHERE clause, a delete-all compiles none, and an
//! unrecognized mode is rejected. A filtered delete with no filters
//! compiles to an unconditional delete — a hazard deliberately left to the
//! caller.

use vstd::prelude::*;

use crate::db::{
    check_filters, entries_view, entry_names, entry_vals, push_where, where_clause, DbErrView,
    DbError,
};
use crate::query::{CompiledQuery, SqlBuilder};
use crate::scalar::{Scalar, ScalarV};
use crate::text::{is_safe_ident, lemma_safe_ident_clean, safe_ident, str_eq};

verus! {

/// How a delete selects its rows: by the filters, or the whole table.
#[derive(Clone, Copy, Debug, PartialEq, Eq, Structural)]
pub enum DeleteMode {
    Filtered,
    All,
}

/// How a delete mode reads from its wire form.
pub open spec fn mode_of(s: Seq<char>) -> Option<DeleteMode> {
    if s == "filtered"@ {
        Some(DeleteMode::Filtered)
    } else if s == "all"@ {
        Some(DeleteMode::All)
    } else {
        None
    }
}

/// Reads a delete mode from its wire form.
pub fn parse_mode(s: &str) -> (r: Option<DeleteMode>)
    ensures
        r == mode_of(s@),
{
    if str_eq(s, "filtered") {
        Some(DeleteMode::Filtered)
    } else if str_eq(s, "all") {
        Some(DeleteMode::All)
    } else {
        None
    }
}

pub struct Delete;

impl Delete {
    /// The SQL text of a compiled delete.
    pub open spec fn delete_sql(
        table: Seq<char>,
        mode: DeleteMode,
        fnames: Seq<Seq<char>>,
    ) -> Seq<char> {
        "DELETE FROM "@ + table + (match mode {
            DeleteMode::Filtered => where_clause(fnames, 1),
            DeleteMode::All => Seq::<char>::empty(),
        })
    }

    /// Why a delete fails to compile, if it does: an unsafe table name, an
    /// unrecognized mode, or an unsafe filter column in a filtered delete.
    pub open spec fn delete_err(
        table: Seq<char>,
        mode: Seq<char>,
        fs: Seq<(Seq<char>, ScalarV)>,
    ) -> Option<DbErrView> {
        if !safe_ident(table) {
            Some(DbErrView::Validation)
        } else if mode_of(mode) is None {
            Some(DbErrView::Validation)
        } else if mode_of(mode) == Some(DeleteMode::Filtered) && !(forall|i: int|
            0 <= i < fs.len() ==> safe_ident((#[trigger] fs[i]).0)) {
            Some(DbErrView::Validation)
        } else {
            None
        }
    }

    /// Compiles a delete. On success the SQL text is exactly `delete_sql`;
    /// a filtered delete binds the filter values in filter order, a
    /// delete-all binds nothing.
    pub fn compile(table: &str, mode: &str, filters: &Vec<(String, Scalar)>) -> (r: Result<
        CompiledQuery,
        DbError,
    >)
        ensures
            ({
                let fs = entries_view(filters@);
                &&& (r is Ok <==> Self::delete_err(table@, mode@, fs) is None)
                &&& (r is Err ==> Some(r->Err_0@) == Self::delete_err(table@, mode@, fs))
                &&& (r is Ok ==> {
                    &&& r->Ok_0.placeholders_ok()
                    &&& r->Ok_0.sql@ == Self::delete_sql(
                        table@,
                        mode_of(mode@)->0,
                        entry_names(fs),
                    )
                    &&& r->Ok_0.params.deep_view() == (match mode_of(mode@)->0 {
                        DeleteMode::Filtered => entry_vals(fs),
                        DeleteMode::All => Seq::<ScalarV>::empty(),
                    })
                })
            }),
    {
        let ghost fs = entries_view(filters@);
        if !is_safe_ident(table) {
            return Err(
                DbError::Validation {
                    message: String::from_str("table name is not a safe identifier"),
                },
            );
        }
        let m = match parse_mode(mode) {
            Some(m) => m,
            None => {
                return Err(
                    DbError::Validation { message: String::from_str("unrecognized delete mode") },
                );
            },
        };
        let mut b = SqlBuilder::new();
        proof {
            reveal_strlit("DELETE FROM ");
            lemma_safe_ident_clean(table@);
        }
        b.push_sql("DELETE FROM ");
        b.push_sql(table);
        match m {
            DeleteMode::All => {
                proof {
                    assert(b.text@ =~= Self::delete_sql(table@, m, entry_names(fs)));
                    assert(b.params.deep_view() =~= Seq::<ScalarV>::empty());
                }
                Ok(b.finish())
            },
            DeleteMode::Filtered => {
                if !check_filters(filters) {
                    proof {
                        assert(exists|i: int|
                            0 <= i < filters@.len() && !safe_ident((#[trigger] filters@[i]).0@));
                        let i = choose|i: int|
                            0 <= i < filters@.len() && !safe_ident((#[trigger] filters@[i]).0@);
                        assert(fs[i].0 == filters@[i].0@);
                        assert(!(forall|k: int|
                            0 <= k < fs.len() ==> safe_ident((#[trigger] fs[k]).0)));
                    }
                    return Err(
                        DbError::Validation {
                            message: String::from_str("filter column is not a safe identifier"),
                        },
                    );
                }
                proof {
                    assert forall|i: int|
                        0 <= i < fs.len() implies safe_ident((#[trigger] fs[i]).0) by {
                        assert(fs[i].0 == filters@[i].0@);
                    }
                }
                push_where(&mut b, filters);
                proof {
                    assert(b.text@ =~= Self::delete_sql(table@, m, entry_names(fs)));
                    assert(b.params.deep_view() =~= entry_vals(fs));
                }
                Ok(b.finish())
            },
        }
    }
}

} // verus!
