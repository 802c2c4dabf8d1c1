//! The schema catalog surface: the declared schema of a table, and the
//! catalog queries through which a live schema is fetched.

use vstd::prelude::*;

use crate::db::DbError;
use crate::query::{CompiledQuery, SqlBuilder};
use crate::scalar::{ColType, Scalar, ScalarV};
use crate::text::{dec_of, is_safe_ident, safe_ident, str_eq};

verus! {

/// Index of the first occurrence of `name`, or -1 when it does not occur.
pub open spec fn name_index(names: Seq<Seq<char>>, name: Seq<char>) -> int
    decreases names.len(),
{
    if names.len() == 0 {
        -1
    } else if names[0] == name {
        0
    } else {
        let r = name_index(names.skip(1), name);
        if r == -1 {
            -1
        } else {
            r + 1
        }
    }
}

pub proof fn lemma_name_index(names: Seq<Seq<char>>, name: Seq<char>)
    ensures
        name_index(names, name) == -1 || 0 <= name_index(names, name) < names.len(),
        name_index(names, name) == -1 ==> forall|j: int|
            0 <= j < names.len() ==> #[trigger] names[j] != name,
        name_index(names, name) >= 0 ==> {
            let ci = name_index(names, name);
            &&& ci < names.len()
            &&& names[ci] == name
            &&& forall|j: int| 0 <= j < ci ==> #[trigger] names[j] != name
        },
    decreases names.len(),
{
    if names.len() > 0 && names[0] != name {
        lemma_name_index(names.skip(1), name);
        assert(forall|j: int| 1 <= j < names.len() ==> #[trigger] names[j] == names.skip(1)[j - 1]);
    }
}

/// The column names of a schema, in catalog order.
pub open spec fn schema_names(cols: Seq<(Seq<char>, ColType)>) -> Seq<Seq<char>> {
    Seq::new(cols.len(), |i: int| cols[i].0)
}

pub open spec fn has_col(cols: Seq<(Seq<char>, ColType)>, name: Seq<char>) -> bool {
    name_index(schema_names(cols), name) >= 0
}

/// The declared type of a column known to be present.
pub open spec fn col_type(cols: Seq<(Seq<char>, ColType)>, name: Seq<char>) -> ColType {
    cols[name_index(schema_names(cols), name)].1
}

/// The schema of one table: column names with their declared types,
/// resolved fresh from the catalog for each compile call.
#[derive(Debug)]
pub struct TableSchema {
    cols: Vec<(String, ColType)>,
}

impl View for TableSchema {
    type V = Seq<(Seq<char>, ColType)>;

    closed spec fn view(&self) -> Seq<(Seq<char>, ColType)> {
        Seq::new(self.cols@.len(), |i: int| (self.cols@[i].0@, self.cols@[i].1))
    }
}

/// How a declared type name from the catalog reads as a `ColType`.
pub open spec fn col_type_of(s: Seq<char>) -> Option<ColType> {
    if s == "text"@ || s == "character varying"@ {
        Some(ColType::Text)
    } else if s == "bigint"@ || s == "integer"@ || s == "smallint"@ {
        Some(ColType::BigInt)
    } else if s == "boolean"@ {
        Some(ColType::Boolean)
    } else {
        None
    }
}

/// Reads a declared type name from the catalog.
pub fn parse_col_type(s: &str) -> (r: Option<ColType>)
    ensures
        r == col_type_of(s@),
{
    if str_eq(s, "text") || str_eq(s, "character varying") {
        Some(ColType::Text)
    } else if str_eq(s, "bigint") || str_eq(s, "integer") || str_eq(s, "smallint") {
        Some(ColType::BigInt)
    } else if str_eq(s, "boolean") {
        Some(ColType::Boolean)
    } else {
        None
    }
}

impl TableSchema {
    /// Well-formed: the schema has at least one column (the catalog knows
    /// the table), every column name is a safe identifier, and no name
    /// occurs twice.
    pub open spec fn wf(&self) -> bool {
        &&& self@.len() >= 1
        &&& forall|i: int| 0 <= i < self@.len() ==> safe_ident((#[trigger] self@[i]).0)
        &&& forall|i: int, j: int| 0 <= i < j < self@.len() ==> self@[i].0 != self@[j].0
    }

    pub fn len(&self) -> (n: usize)
        ensures
            n == self@.len(),
    {
        self.cols.len()
    }

    /// Builds a schema from the raw (column name, declared type name) rows
    /// that the catalog query returns. An empty row set means the table is
    /// unknown to the catalog at call time and fails with a Schema error;
    /// otherwise the build fails exactly when a name is not a safe
    /// identifier, a type name is unknown, or a name occurs twice.
    pub fn new(raw: &Vec<(String, String)>) -> (r: Result<TableSchema, DbError>)
        ensures
            r is Ok <==> {
                &&& raw@.len() >= 1
                &&& forall|i: int|
                    0 <= i < raw@.len() ==> safe_ident((#[trigger] raw@[i]).0@) && col_type_of(
                        raw@[i].1@,
                    ) is Some
                &&& forall|i: int, j: int| 0 <= i < j < raw@.len() ==> raw@[i].0@ != raw@[j].0@
            },
            r is Ok ==> {
                &&& r->Ok_0.wf()
                &&& r->Ok_0@.len() == raw@.len()
                &&& forall|i: int|
                    0 <= i < raw@.len() ==> (#[trigger] r->Ok_0@[i]).0 == raw@[i].0@ && Some(
                        r->Ok_0@[i].1,
                    ) == col_type_of(raw@[i].1@)
            },
            r is Err ==> r->Err_0@ is Schema,
    {
        if raw.len() == 0 {
            return Err(
                DbError::Schema {
                    message: String::from_str("unknown table: the catalog reports no columns"),
                },
            );
        }
        let mut cols: Vec<(String, ColType)> = Vec::new();
        let n = raw.len();
        let mut i: usize = 0;
        while i < n
            invariant
                0 <= i <= n,
                n == raw@.len(),
                cols@.len() == i,
                forall|k: int|
                    0 <= k < i ==> (#[trigger] cols@[k]).0@ == raw@[k].0@ && Some(cols@[k].1)
                        == col_type_of(raw@[k].1@),
                forall|k: int| 0 <= k < i ==> safe_ident((#[trigger] raw@[k]).0@),
                forall|k: int, l: int| 0 <= k < l < i ==> raw@[k].0@ != raw@[l].0@,
            decreases n - i,
        {
            let name = &raw[i].0;
            if !is_safe_ident(name.as_str()) {
                return Err(
                    DbError::Schema { message: String::from_str("unsafe column name in catalog") },
                );
            }
            let ty = match parse_col_type(raw[i].1.as_str()) {
                Some(ty) => ty,
                None => {
                    return Err(
                        DbError::Schema {
                            message: String::from_str("unknown declared column type"),
                        },
                    );
                },
            };
            let mut j: usize = 0;
            while j < i
                invariant
                    0 <= j <= i < n,
                    n == raw@.len(),
                    name@ == raw@[i as int].0@,
                    forall|k: int| 0 <= k < j ==> (#[trigger] raw@[k]).0@ != raw@[i as int].0@,
                decreases i - j,
            {
                if str_eq(raw[j].0.as_str(), name.as_str()) {
                    return Err(
                        DbError::Schema { message: String::from_str("duplicate column name") },
                    );
                }
                j = j + 1;
            }
            cols.push((name.clone(), ty));
            i = i + 1;
        }
        let s = TableSchema { cols };
        proof {
            assert forall|k: int|
                0 <= k < n implies safe_ident((#[trigger] raw@[k]).0@) && col_type_of(
                raw@[k].1@,
            ) is Some by {
                assert(Some(cols@[k].1) == col_type_of(raw@[k].1@));
            }
            assert forall|k: int|
                0 <= k < n implies (#[trigger] s@[k]).0 == raw@[k].0@ && Some(s@[k].1)
                == col_type_of(raw@[k].1@) by {
                assert(cols@[k].0@ == raw@[k].0@);
                assert(Some(cols@[k].1) == col_type_of(raw@[k].1@));
            }
            assert forall|k: int| 0 <= k < s@.len() implies safe_ident((#[trigger] s@[k]).0) by {
                assert(s@[k].0 == raw@[k].0@);
                assert(safe_ident(raw@[k].0@));
            }
            assert forall|k: int, l: int| 0 <= k < l < s@.len() implies s@[k].0 != s@[l].0 by {
                assert(s@[k].0 == raw@[k].0@);
                assert(s@[l].0 == raw@[l].0@);
                assert(raw@[k].0@ != raw@[l].0@);
            }
        }
        Ok(s)
    }

    /// Looks a column up by name; `Some` exactly when the schema has it.
    pub fn lookup(&self, name: &str) -> (r: Option<ColType>)
        ensures
            r is Some <==> has_col(self@, name@),
            r is Some ==> r->0 == col_type(self@, name@),
    {
        let n = self.cols.len();
        let mut i: usize = 0;
        while i < n
            invariant
                0 <= i <= n,
                n == self@.len(),
                forall|j: int| 0 <= j < i ==> (#[trigger] self@[j]).0 != name@,
            decreases n - i,
        {
            if str_eq(self.cols[i].0.as_str(), name) {
                proof {
                    let names = schema_names(self@);
                    assert(names[i as int] == self@[i as int].0);
                    assert(self@[i as int].0 == name@);
                    lemma_name_index(names, name@);
                    let ci = name_index(names, name@);
                    if ci == -1 {
                        assert(names[i as int] != name@);
                    } else if ci < i as int {
                        assert(self@[ci].0 != name@);
                        assert(names[ci] == self@[ci].0);
                    } else if ci > i as int {
                        assert(names[i as int] != name@);
                    }
                    assert(name_index(names, name@) == i as int);
                }
                return Some(self.cols[i].1);
            }
            i = i + 1;
        }
        proof {
            let names = schema_names(self@);
            assert forall|j: int| 0 <= j < self@.len() implies #[trigger] names[j] != name@ by {
                assert(self@[j].0 != name@);
                assert(names[j] == self@[j].0);
            }
            lemma_name_index(names, name@);
            if name_index(names, name@) >= 0 {
                let ci = name_index(names, name@);
                assert(names[ci] != name@);
            }
        }
        None
    }
}

/// A column known to a well-formed schema bears a safe identifier.
pub proof fn lemma_has_col_safe(cols: Seq<(Seq<char>, ColType)>, name: Seq<char>, s: &TableSchema)
    requires
        s.wf(),
        cols == s@,
        has_col(cols, name),
    ensures
        safe_ident(name),
{
    lemma_name_index(schema_names(cols), name);
    let ci = name_index(schema_names(cols), name);
    assert(schema_names(cols)[ci] == cols[ci].0);
}

/// The catalog itself, reached through two parameterized probes.
pub struct Table;

impl Table {
    /// Text of the existence probe against the catalog.
    pub open spec fn exists_sql() -> Seq<char> {
        "SELECT EXISTS (SELECT 1 FROM information_schema.tables WHERE table_schema = 'public' AND table_name = "@
            + seq!['$'] + dec_of(1) + ")"@
    }

    /// The statement that asks whether a table exists; the table name
    /// travels as the single bound parameter.
    pub fn exists_query(table: &str) -> (q: CompiledQuery)
        ensures
            q.placeholders_ok(),
            q.sql@ == Self::exists_sql(),
            q.params@.len() == 1,
            q.params@[0]@ == ScalarV::Str(table@),
    {
        let mut b = SqlBuilder::new();
        proof {
            reveal_strlit(
                "SELECT EXISTS (SELECT 1 FROM information_schema.tables WHERE table_schema = 'public' AND table_name = ",
            );
            reveal_strlit(")");
        }
        b.push_sql(
            "SELECT EXISTS (SELECT 1 FROM information_schema.tables WHERE table_schema = 'public' AND table_name = ",
        );
        b.push_param(Scalar::Str(String::from_str(table)));
        b.push_sql(")");
        proof {
            assert(b.text@ =~= Self::exists_sql());
        }
        b.finish()
    }

    /// Text of the column probe against the catalog.
    pub open spec fn columns_sql() -> Seq<char> {
        "SELECT column_name, data_type FROM information_schema.columns WHERE table_name = "@
            + seq!['$'] + dec_of(1)
    }

    /// The statement that fetches a table's column names and declared
    /// types; the table name travels as the single bound parameter.
    pub fn columns_query(table: &str) -> (q: CompiledQuery)
        ensures
            q.placeholders_ok(),
            q.sql@ == Self::columns_sql(),
            q.params@.len() == 1,
            q.params@[0]@ == ScalarV::Str(table@),
    {
        let mut b = SqlBuilder::new();
        proof {
            reveal_strlit(
                "SELECT column_name, data_type FROM information_schema.columns WHERE table_name = ",
            );
        }
        b.push_sql(
            "SELECT column_name, data_type FROM information_schema.columns WHERE table_name = ",
        );
        b.push_param(Scalar::Str(String::from_str(table)));
        proof {
            assert(b.text@ =~= Self::columns_sql());
        }
        b.finish()
    }
}

} // verus!
