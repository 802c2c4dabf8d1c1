//! Compiling an update: the values payload follows the same coercion rules
//! as an insert, and the optional filters compile to an AND-combined
//! equality WHERE clause. An update with no filters compiles to an
//! unconditional update — a hazard deliberately left to the caller.

use vstd::prelude::*;

use crate::db::table::{has_col, lemma_has_col_safe, TableSchema};
use crate::db::{
    check_filters, check_vals, coerced_params, entries_view, entry_names, entry_ok, entry_vals,
    push_where, set_clause, vals_err, where_clause, DbErrView, DbError,
};
use crate::query::{CompiledQuery, SqlBuilder};
use crate::scalar::{ColType, Scalar, ScalarV};
use crate::text::{is_safe_ident, lemma_safe_ident_clean, safe_ident};

verus! {

pub struct Update;

impl Update {
    /// The SQL text of a compiled update.
    pub open spec fn update_sql(
        table: Seq<char>,
        names: Seq<Seq<char>>,
        fnames: Seq<Seq<char>>,
    ) -> Seq<char> {
        "UPDATE "@ + table + " SET "@ + set_clause(names, 1) + where_clause(
            fnames,
            (names.len() + 1) as nat,
        )
    }

    /// Why an update fails to compile, if it does: an unsafe table name, an
    /// empty values payload, the first problem `vals_err` names, or an
    /// unsafe filter column.
    pub open spec fn update_err(
        table: Seq<char>,
        schema: Seq<(Seq<char>, ColType)>,
        es: Seq<(Seq<char>, ScalarV)>,
        fs: Seq<(Seq<char>, ScalarV)>,
    ) -> Option<DbErrView> {
        if !safe_ident(table) {
            Some(DbErrView::Validation)
        } else if es.len() == 0 {
            Some(DbErrView::Validation)
        } else if vals_err(schema, es) is Some {
            vals_err(schema, es)
        } else if !(forall|i: int| 0 <= i < fs.len() ==> safe_ident((#[trigger] fs[i]).0)) {
            Some(DbErrView::Validation)
        } else {
            None
        }
    }

    /// Compiles an update. On success the SQL text is exactly `update_sql`,
    /// the parameters are the coerced values in payload order followed by
    /// the filter values in filter order, and the placeholders are `$1..$n`
    /// in that order.
    pub fn compile(
        table: &str,
        schema: &TableSchema,
        values: &Vec<(String, Scalar)>,
        filters: &Vec<(String, Scalar)>,
    ) -> (r: Result<CompiledQuery, DbError>)
        requires
            schema.wf(),
        ensures
            ({
                let es = entries_view(values@);
                let fs = entries_view(filters@);
                &&& (r is Ok <==> Self::update_err(table@, schema@, es, fs) is None)
                &&& (r is Err ==> Some(r->Err_0@) == Self::update_err(table@, schema@, es, fs))
                &&& (r is Ok ==> {
                    &&& r->Ok_0.placeholders_ok()
                    &&& r->Ok_0.sql@ == Self::update_sql(table@, entry_names(es), entry_names(fs))
                    &&& r->Ok_0.params.deep_view() == coerced_params(schema@, es) + entry_vals(fs)
                })
            }),
    {
        let ghost es = entries_view(values@);
        let ghost fs = entries_view(filters@);
        if !is_safe_ident(table) {
            return Err(
                DbError::Validation {
                    message: String::from_str("table name is not a safe identifier"),
                },
            );
        }
        if values.len() == 0 {
            return Err(
                DbError::Validation { message: String::from_str("no values to update") },
            );
        }
        let coerced = match check_vals(schema, values) {
            Ok(c) => c,
            Err(e) => {
                return Err(e);
            },
        };
        if !check_filters(filters) {
            proof {
                assert(exists|i: int|
                    0 <= i < filters@.len() && !safe_ident((#[trigger] filters@[i]).0@));
                let i = choose|i: int|
                    0 <= i < filters@.len() && !safe_ident((#[trigger] filters@[i]).0@);
                assert(fs[i].0 == filters@[i].0@);
                assert(!(forall|k: int| 0 <= k < fs.len() ==> safe_ident((#[trigger] fs[k]).0)));
            }
            return Err(
                DbError::Validation {
                    message: String::from_str("filter column is not a safe identifier"),
                },
            );
        }
        proof {
            assert forall|i: int|
                0 <= i < values@.len() implies safe_ident((#[trigger] values@[i]).0@) by {
                assert(entry_ok(schema@, es, i));
                assert(has_col(schema@, es[i].0));
                lemma_has_col_safe(schema@, es[i].0, schema);
                assert(es[i].0 == values@[i].0@);
            }
            assert forall|i: int| 0 <= i < fs.len() implies safe_ident((#[trigger] fs[i]).0) by {
                assert(fs[i].0 == filters@[i].0@);
            }
        }
        let mut b = SqlBuilder::new();
        proof {
            reveal_strlit("UPDATE ");
            reveal_strlit(" SET ");
            lemma_safe_ident_clean(table@);
        }
        b.push_sql("UPDATE ");
        b.push_sql(table);
        b.push_sql(" SET ");
        proof {
            assert(coerced.deep_view().len() == coerced@.len());
            assert(coerced.deep_view() == coerced_params(schema@, es));
            assert(coerced@.len() == values@.len());
        }
        Self::push_set_clause(&mut b, values, &coerced);
        push_where(&mut b, filters);
        proof {
            assert(coerced@.len() == es.len());
            assert(b.text@ =~= Self::update_sql(table@, entry_names(es), entry_names(fs)));
            assert(b.params.deep_view() =~= coerced_params(schema@, es) + entry_vals(fs));
        }
        Ok(b.finish())
    }

    /// Appends `c1 = $s, c2 = $s+1, ...` for the payload's columns, binding
    /// the coerced values in payload order.
    fn push_set_clause(b: &mut SqlBuilder, vals: &Vec<(String, Scalar)>, coerced: &Vec<Scalar>)
        requires
            old(b).wf(),
            coerced@.len() == vals@.len(),
            forall|i: int| 0 <= i < vals@.len() ==> safe_ident((#[trigger] vals@[i]).0@),
        ensures
            final(b).wf(),
            final(b).text@ == old(b).text@ + set_clause(
                entry_names(entries_view(vals@)),
                (old(b).params@.len() + 1) as nat,
            ),
            final(b).params.deep_view() == old(b).params.deep_view() + coerced.deep_view(),
    {
        let ghost base: Seq<char> = b.text@;
        let ghost start: nat = (old(b).params@.len() + 1) as nat;
        let ghost names = entry_names(entries_view(vals@));
        let n = vals.len();
        let mut i: usize = 0;
        proof {
            assert(names.subrange(0, 0) =~= Seq::<Seq<char>>::empty());
            assert(b.text@ =~= base + set_clause(names.subrange(0, 0), start));
            assert(b.params.deep_view() =~= old(b).params.deep_view()
                + coerced.deep_view().subrange(0, 0));
        }
        while i < n
            invariant
                0 <= i <= n,
                n == vals@.len(),
                coerced@.len() == n,
                names == entry_names(entries_view(vals@)),
                start == old(b).params@.len() + 1,
                forall|k: int| 0 <= k < vals@.len() ==> safe_ident((#[trigger] vals@[k]).0@),
                b.wf(),
                b.params@.len() == old(b).params@.len() + i,
                b.params.deep_view() == old(b).params.deep_view() + coerced.deep_view().subrange(
                    0,
                    i as int,
                ),
                b.text@ == base + set_clause(names.subrange(0, i as int), start),
            decreases n - i,
        {
            proof {
                reveal_strlit(", ");
                reveal_strlit(" = ");
            }
            if i > 0 {
                b.push_sql(", ");
            }
            proof {
                lemma_safe_ident_clean(vals@[i as int].0@);
            }
            b.push_sql(vals[i].0.as_str());
            b.push_sql(" = ");
            let ghost prev_deep = b.params.deep_view();
            let p = coerced[i].duplicate();
            b.push_param(p);
            proof {
                let pre = names.subrange(0, i as int);
                let cur = names.subrange(0, i + 1);
                assert(cur.drop_last() =~= pre);
                assert(cur.last() == names[i as int]);
                assert(b.text@ =~= base + set_clause(cur, start));
                assert(b.params.deep_view() =~= prev_deep.push(p@));
                assert(coerced.deep_view()[i as int] == coerced@[i as int]@);
                assert(coerced.deep_view().subrange(0, i + 1) =~= coerced.deep_view().subrange(
                    0,
                    i as int,
                ).push(coerced@[i as int]@));
                assert(b.params.deep_view() =~= old(b).params.deep_view()
                    + coerced.deep_view().subrange(0, i + 1));
            }
            i = i + 1;
        }
        proof {
            assert(names.subrange(0, n as int) =~= names);
            assert(coerced.deep_view().subrange(0, n as int) =~= coerced.deep_view());
        }
    }
}

} // verus!
