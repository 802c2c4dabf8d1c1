//! Compiling an insert: the payload's column set must equal the schema's
//! exactly, every value is coerced to its column's declared type, and the
//! values travel as bound parameters in payload order.

use vstd::prelude::*;

use crate::db::table::{has_col, lemma_has_col_safe, TableSchema};
use crate::db::{
    check_vals, coerced_params, col_list, entries_view, entry_names, entry_ok, ph_group,
    push_col_list, push_ph_group, vals_err, DbErrView, DbError,
};
use crate::query::{CompiledQuery, SqlBuilder};
use crate::scalar::{ColType, Scalar, ScalarV};
use crate::text::{is_safe_ident, lemma_safe_ident_clean, safe_ident};

verus! {

pub struct Insert;

impl Insert {
    /// The SQL text of a compiled insert.
    pub open spec fn insert_sql(table: Seq<char>, names: Seq<Seq<char>>) -> Seq<char> {
        "INSERT INTO "@ + table + " ("@ + col_list(names) + ") VALUES ("@ + ph_group(
            1,
            names.len(),
        ) + ")"@
    }

    /// Why an insert fails to compile, if it does: an unsafe table name,
    /// a payload whose column count differs from the schema's, or the first
    /// problem `vals_err` names.
    pub open spec fn insert_err(
        table: Seq<char>,
        schema: Seq<(Seq<char>, ColType)>,
        es: Seq<(Seq<char>, ScalarV)>,
    ) -> Option<DbErrView> {
        if !safe_ident(table) {
            Some(DbErrView::Validation)
        } else if es.len() != schema.len() {
            Some(DbErrView::ColumnMismatch)
        } else {
            vals_err(schema, es)
        }
    }

    /// Compiles an insert. On success the SQL text is exactly `insert_sql`
    /// over the payload's column names in payload order, the parameters are
    /// the coerced values in the same order, and the placeholders are
    /// `$1..$n` in that order.
    pub fn compile(table: &str, schema: &TableSchema, values: &Vec<(String, Scalar)>) -> (r:
        Result<CompiledQuery, DbError>)
        requires
            schema.wf(),
        ensures
            ({
                let es = entries_view(values@);
                &&& (r is Ok <==> Self::insert_err(table@, schema@, es) is None)
                &&& (r is Err ==> Some(r->Err_0@) == Self::insert_err(table@, schema@, es))
                &&& (r is Ok ==> {
                    &&& r->Ok_0.placeholders_ok()
                    &&& r->Ok_0.sql@ == Self::insert_sql(table@, entry_names(es))
                    &&& r->Ok_0.params.deep_view() == coerced_params(schema@, es)
                })
            }),
    {
        let ghost es = entries_view(values@);
        if !is_safe_ident(table) {
            return Err(
                DbError::Validation {
                    message: String::from_str("table name is not a safe identifier"),
                },
            );
        }
        if values.len() != schema.len() {
            return Err(
                DbError::ColumnMismatch {
                    message: String::from_str("payload columns do not match the schema"),
                },
            );
        }
        let coerced = match check_vals(schema, values) {
            Ok(c) => c,
            Err(e) => {
                return Err(e);
            },
        };
        proof {
            assert forall|i: int|
                0 <= i < values@.len() implies safe_ident((#[trigger] values@[i]).0@) by {
                assert(entry_ok(schema@, es, i));
                assert(has_col(schema@, es[i].0));
                lemma_has_col_safe(schema@, es[i].0, schema);
                assert(es[i].0 == values@[i].0@);
            }
        }
        let mut b = SqlBuilder::new();
        proof {
            reveal_strlit("INSERT INTO ");
            reveal_strlit(" (");
            reveal_strlit(") VALUES (");
            reveal_strlit(")");
            lemma_safe_ident_clean(table@);
        }
        b.push_sql("INSERT INTO ");
        b.push_sql(table);
        b.push_sql(" (");
        push_col_list(&mut b, values);
        b.push_sql(") VALUES (");
        push_ph_group(&mut b, &coerced);
        b.push_sql(")");
        proof {
            assert(coerced@.len() == es.len());
            assert(b.text@ =~= Self::insert_sql(table@, entry_names(es)));
            assert(b.params.deep_view() =~= coerced_params(schema@, es));
        }
        Ok(b.finish())
    }
}

} // verus!
