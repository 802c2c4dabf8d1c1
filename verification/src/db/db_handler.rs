//! The action dispatcher: one instance per inbound action. It validates the
//! request, compiles it, and — around the execution collaborator that runs
//! the statement — decides the response, stores read results in the cache,
//! and invalidates the written table's cached reads after a commit.
//!
//! Execution itself (a transaction on the connection pool) and row
//! projection happen outside; their outcomes come back in as plain values.

use vstd::prelude::*;

use crate::cache::{
    cache_drop_prefix, cache_key_spec, cache_lookup, cache_promote, cache_store, CacheKey,
    CacheManager,
};
use crate::db::bulk_insert::BulkInsert;
use crate::db::delete::Delete;
use crate::db::insert::Insert;
use crate::db::retrieve::Retrieve;
use crate::db::table::TableSchema;
use crate::db::update::Update;
use crate::db::{entries_view, entry_vals, DbError};
use crate::query::CompiledQuery;
use crate::scalar::Scalar;
use crate::text::dec_of;

verus! {

/// What an inbound request asks for.
#[derive(Debug)]
pub enum DbAction {
    Insert,
    BulkInsert,
    Update,
    Delete { mode: String },
    Retrieve,
}

/// An inbound request: the table it addresses, the action, and the
/// payloads the action kind may need.
#[derive(Debug)]
pub struct DbRequest {
    pub table: String,
    pub action: DbAction,
    pub values: Option<Vec<(String, Scalar)>>,
    pub bulk_values: Option<Vec<Vec<(String, Scalar)>>>,
    pub filters: Option<Vec<(String, Scalar)>>,
}

/// What goes back to the caller.
#[derive(Debug)]
pub enum DispatchResult {
    Status { status: String },
    Data { rows: Vec<serde_json::Value> },
    Error { error: DbError },
}

/// Relies on Clone for Vec and serde_json::Value: the copy equals the
/// original.
#[verifier::external_body]
fn clone_rows(rows: &Vec<serde_json::Value>) -> (r: Vec<serde_json::Value>)
    ensures
        r@ == rows@,
{
    rows.clone()
}

#[derive(Debug)]
pub struct DatabaseHandler {
    pub request: DbRequest,
}

impl DatabaseHandler {
    /// Admits a request only against a table the catalog knows; the
    /// existence probe's outcome comes in as a plain boolean.
    pub fn new(request: DbRequest, table_exists: bool) -> (r: Result<DatabaseHandler, DbError>)
        ensures
            r is Ok <==> table_exists,
            r is Ok ==> r->Ok_0.request == request,
            r is Err ==> r->Err_0@ is Schema,
    {
        if table_exists {
            Ok(DatabaseHandler { request })
        } else {
            Err(DbError::Schema { message: String::from_str("No such table exists.") })
        }
    }

    /// Checks that the payload field the action kind requires is present,
    /// before any database or cache access: inserts and updates need
    /// `values`, a bulk insert needs `bulk_values`; deletes and retrieves
    /// take their filters as optional.
    pub fn validate(&self) -> (r: Result<(), DbError>)
        ensures
            r is Ok <==> (match self.request.action {
                DbAction::Insert => self.request.values is Some,
                DbAction::Update => self.request.values is Some,
                DbAction::BulkInsert => self.request.bulk_values is Some,
                DbAction::Delete { .. } => true,
                DbAction::Retrieve => true,
            }),
            r is Err ==> r->Err_0@ is Validation,
    {
        match &self.request.action {
            DbAction::Insert => {
                if self.request.values.is_none() {
                    return Err(
                        DbError::Validation {
                            message: String::from_str("Missing values for insert"),
                        },
                    );
                }
            },
            DbAction::Update => {
                if self.request.values.is_none() {
                    return Err(
                        DbError::Validation {
                            message: String::from_str("Missing values for update"),
                        },
                    );
                }
            },
            DbAction::BulkInsert => {
                if self.request.bulk_values.is_none() {
                    return Err(
                        DbError::Validation {
                            message: String::from_str("Missing values for insert"),
                        },
                    );
                }
            },
            DbAction::Delete { .. } => {},
            DbAction::Retrieve => {},
        }
        Ok(())
    }

    /// The filters of the request, with absence meaning none.
    pub open spec fn filters_view(&self) -> Seq<(Seq<char>, crate::scalar::ScalarV)> {
        match self.request.filters {
            Some(f) => entries_view(f@),
            None => Seq::empty(),
        }
    }

    /// Compiles the request as an insert; the values payload must be
    /// present.
    pub fn insert(&self, schema: &TableSchema) -> (r: Result<CompiledQuery, DbError>)
        requires
            schema.wf(),
        ensures
            ({
                match self.request.values {
                    None => r is Err && r->Err_0@ is Validation,
                    Some(vs) => {
                        let es = entries_view(vs@);
                        &&& (r is Ok <==> Insert::insert_err(
                            self.request.table@,
                            schema@,
                            es,
                        ) is None)
                        &&& (r is Err ==> Some(r->Err_0@) == Insert::insert_err(
                            self.request.table@,
                            schema@,
                            es,
                        ))
                        &&& (r is Ok ==> {
                            &&& r->Ok_0.placeholders_ok()
                            &&& r->Ok_0.sql@ == Insert::insert_sql(
                                self.request.table@,
                                crate::db::entry_names(es),
                            )
                            &&& r->Ok_0.params.deep_view() == crate::db::coerced_params(
                                schema@,
                                es,
                            )
                        })
                    },
                }
            }),
    {
        let values = match &self.request.values {
            Some(v) => v,
            None => {
                return Err(
                    DbError::Validation { message: String::from_str("Missing values for insert") },
                );
            },
        };
        Insert::compile(self.request.table.as_str(), schema, values)
    }

    /// Compiles the request as a bulk insert; the bulk payload must be
    /// present.
    pub fn bulk_insert(&self, schema: &TableSchema) -> (r: Result<CompiledQuery, DbError>)
        requires
            schema.wf(),
        ensures
            ({
                match self.request.bulk_values {
                    None => r is Err && r->Err_0@ is Validation,
                    Some(rows) => {
                        let rv = crate::db::bulk_insert::rows_view(rows@);
                        &&& (r is Ok <==> BulkInsert::bulk_err(
                            self.request.table@,
                            schema@,
                            rv,
                        ) is None)
                        &&& (r is Err ==> Some(r->Err_0@) == BulkInsert::bulk_err(
                            self.request.table@,
                            schema@,
                            rv,
                        ))
                        &&& (r is Ok ==> {
                            &&& r->Ok_0.placeholders_ok()
                            &&& r->Ok_0.sql@ == BulkInsert::bulk_sql(
                                self.request.table@,
                                crate::db::entry_names(rv[0]),
                                rv.len(),
                            )
                            &&& r->Ok_0.params.deep_view() == crate::db::bulk_insert::bulk_params(
                                schema@,
                                rv,
                                crate::db::entry_names(rv[0]),
                            )
                        })
                    },
                }
            }),
    {
        let rows = match &self.request.bulk_values {
            Some(v) => v,
            None => {
                return Err(
                    DbError::Validation { message: String::from_str("Missing values for insert") },
                );
            },
        };
        BulkInsert::compile(self.request.table.as_str(), schema, rows)
    }

    /// Compiles the request as an update; the values payload must be
    /// present, the filters are optional.
    pub fn update(&self, schema: &TableSchema) -> (r: Result<CompiledQuery, DbError>)
        requires
            schema.wf(),
        ensures
            ({
                match self.request.values {
                    None => r is Err && r->Err_0@ is Validation,
                    Some(vs) => {
                        let es = entries_view(vs@);
                        let fs = self.filters_view();
                        &&& (r is Ok <==> Update::update_err(
                            self.request.table@,
                            schema@,
                            es,
                            fs,
                        ) is None)
                        &&& (r is Err ==> Some(r->Err_0@) == Update::update_err(
                            self.request.table@,
                            schema@,
                            es,
                            fs,
                        ))
                        &&& (r is Ok ==> {
                            &&& r->Ok_0.placeholders_ok()
                            &&& r->Ok_0.sql@ == Update::update_sql(
                                self.request.table@,
                                crate::db::entry_names(es),
                                crate::db::entry_names(fs),
                            )
                            &&& r->Ok_0.params.deep_view() == crate::db::coerced_params(
                                schema@,
                                es,
                            ) + entry_vals(fs)
                        })
                    },
                }
            }),
    {
        let values = match &self.request.values {
            Some(v) => v,
            None => {
                return Err(
                    DbError::Validation { message: String::from_str("Missing values for update") },
                );
            },
        };
        let empty: Vec<(String, Scalar)> = Vec::new();
        let filters = match &self.request.filters {
            Some(f) => f,
            None => &empty,
        };
        proof {
            assert(entries_view(filters@) =~= self.filters_view());
        }
        Update::compile(self.request.table.as_str(), schema, values, filters)
    }

    /// Compiles the request as a delete; the action must carry a
    /// recognized mode, the filters are optional.
    pub fn delete(&self, mode: &String) -> (r: Result<CompiledQuery, DbError>)
        ensures
            ({
                let fs = self.filters_view();
                &&& (r is Ok <==> Delete::delete_err(self.request.table@, mode@, fs) is None)
                &&& (r is Err ==> Some(r->Err_0@) == Delete::delete_err(
                    self.request.table@,
                    mode@,
                    fs,
                ))
                &&& (r is Ok ==> {
                    &&& r->Ok_0.placeholders_ok()
                    &&& r->Ok_0.sql@ == Delete::delete_sql(
                        self.request.table@,
                        crate::db::delete::mode_of(mode@)->0,
                        crate::db::entry_names(fs),
                    )
                })
            }),
    {
        let empty: Vec<(String, Scalar)> = Vec::new();
        let filters = match &self.request.filters {
            Some(f) => f,
            None => &empty,
        };
        proof {
            assert(entries_view(filters@) =~= self.filters_view());
        }
        Delete::compile(self.request.table.as_str(), mode.as_str(), filters)
    }

    /// Compiles the request as a retrieve and derives its cache key from
    /// (table, SQL text, ordered parameters).
    pub fn retrieve(&self) -> (r: Result<(CompiledQuery, String), DbError>)
        ensures
            ({
                let fs = self.filters_view();
                &&& (r is Ok <==> Retrieve::retrieve_err(self.request.table@, fs) is None)
                &&& (r is Err ==> Some(r->Err_0@) == Retrieve::retrieve_err(
                    self.request.table@,
                    fs,
                ))
                &&& (r is Ok ==> {
                    &&& r->Ok_0.0.placeholders_ok()
                    &&& r->Ok_0.0.sql@ == Retrieve::retrieve_sql(
                        self.request.table@,
                        crate::db::entry_names(fs),
                    )
                    &&& r->Ok_0.0.params.deep_view() == entry_vals(fs)
                    &&& r->Ok_0.1@ == cache_key_spec(
                        self.request.table@,
                        r->Ok_0.0.sql@,
                        entry_vals(fs),
                    )
                })
            }),
    {
        let empty: Vec<(String, Scalar)> = Vec::new();
        let filters = match &self.request.filters {
            Some(f) => f,
            None => &empty,
        };
        proof {
            assert(entries_view(filters@) =~= self.filters_view());
        }
        let q = match Retrieve::compile(self.request.table.as_str(), filters) {
            Ok(q) => q,
            Err(e) => {
                return Err(e);
            },
        };
        let key = CacheKey::generate_cache_key(self.request.table.as_str(), q.sql.as_str(), &q.params);
        Ok((q, key))
    }

    /// Answers a retrieve from the cache if its key is present: a hit
    /// returns the cached rows without touching the database and promotes
    /// the entry; a miss changes nothing.
    pub fn retrieve_cached(&self, cache: &mut CacheManager, key: &String) -> (r: Option<
        DispatchResult,
    >)
        requires
            old(cache).wf(),
        ensures
            final(cache).wf(),
            final(cache).cap() == old(cache).cap(),
            r is Some <==> cache_lookup(old(cache)@, key@) is Some,
            r is Some ==> (r->0 matches DispatchResult::Data { rows } && rows@ == cache_lookup(
                old(cache)@,
                key@,
            )->0),
            final(cache)@ == (if cache_lookup(old(cache)@, key@) is Some {
                cache_promote(old(cache)@, key@)
            } else {
                old(cache)@
            }),
    {
        match cache.get(key) {
            Some(rows) => Some(DispatchResult::Data { rows }),
            None => None,
        }
    }

    /// Completes a retrieve that went to the database: zero projected rows
    /// report `NotFound` and leave the cache alone; otherwise the rows are
    /// stored under the retrieve's key and returned.
    pub fn finish_retrieve(
        &self,
        cache: &mut CacheManager,
        key: String,
        rows: Vec<serde_json::Value>,
    ) -> (r: DispatchResult)
        requires
            old(cache).wf(),
        ensures
            final(cache).wf(),
            final(cache).cap() == old(cache).cap(),
            rows@.len() == 0 ==> (r matches DispatchResult::Error { error } && error@ is NotFound)
                && final(cache)@ == old(cache)@,
            rows@.len() > 0 ==> (r matches DispatchResult::Data { rows: out } && out@ == rows@)
                && final(cache)@ == cache_store(old(cache)@, key@, rows@, old(cache).cap()),
    {
        if rows.len() == 0 {
            return DispatchResult::Error { error: DbError::NotFound };
        }
        let copy = clone_rows(&rows);
        cache.insert(key, copy);
        DispatchResult::Data { rows }
    }

    /// Completes a write action: a successful commit invalidates every
    /// cached read of the written table — before the success is reported —
    /// and answers with the action's status line; a failed execution
    /// reports the failure and leaves the cache untouched, since nothing
    /// was committed. Invalidation goes by the table's key prefix, so a
    /// hash collision between table prefixes can only ever purge more than
    /// the written table's entries, never fewer.
    pub fn finish_write(&self, cache: &mut CacheManager, exec: Result<(), String>) -> (r:
        DispatchResult)
        requires
            old(cache).wf(),
            !(self.request.action is Retrieve),
        ensures
            final(cache).wf(),
            final(cache).cap() == old(cache).cap(),
            exec is Err ==> (r matches DispatchResult::Error { error } && error@ is
            QueryExecution) && final(cache)@ == old(cache)@,
            exec is Ok ==> final(cache)@ == cache_drop_prefix(
                old(cache)@,
                dec_of(crate::cache::fnv64(self.request.table@) as nat),
            ) && (r matches DispatchResult::Status { status } && status@ == (match self
                .request
                .action {
                DbAction::Insert => "Insert successful."@,
                DbAction::BulkInsert => "Insert successful."@,
                DbAction::Update => "Update successful"@,
                DbAction::Delete { .. } => "Delete successful."@,
                DbAction::Retrieve => "Status"@,
            })),
    {
        match exec {
            Err(message) => DispatchResult::Error { error: DbError::QueryExecution { message } },
            Ok(()) => {
                let prefix = CacheKey::generate_table_cache_hash(self.request.table.as_str());
                cache.remove_by_prefix(prefix.as_str());
                let status = match &self.request.action {
                    DbAction::Insert => String::from_str("Insert successful."),
                    DbAction::BulkInsert => String::from_str("Insert successful."),
                    DbAction::Update => String::from_str("Update successful"),
                    DbAction::Delete { .. } => String::from_str("Delete successful."),
                    DbAction::Retrieve => String::from_str("Status"),
                };
                DispatchResult::Status { status }
            },
        }
    }
}

} // verus!
