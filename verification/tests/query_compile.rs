use db_gateway::db::bulk_insert::BulkInsert;
use db_gateway::db::delete::Delete;
use db_gateway::db::insert::Insert;
use db_gateway::db::retrieve::Retrieve;
use db_gateway::db::table::{Table, TableSchema};
use db_gateway::db::update::Update;
use db_gateway::db::DbError;
use db_gateway::scalar::{coerce, parse_i64, ColType, Scalar};

fn schema_name_age() -> TableSchema {
    let raw = vec![
        ("name".to_string(), "text".to_string()),
        ("age".to_string(), "bigint".to_string()),
    ];
    TableSchema::new(&raw).unwrap()
}

fn pair(name: &str, v: Scalar) -> (String, Scalar) {
    (name.to_string(), v)
}

fn placeholder_count(sql: &str) -> usize {
    sql.chars().filter(|c| *c == '$').count()
}

#[test]
fn insert_compiles_exactly_with_coercion() {
    let schema = schema_name_age();
    let values = vec![
        pair("name", Scalar::Str("a".to_string())),
        pair("age", Scalar::Str("30".to_string())),
    ];
    let q = Insert::compile("t", &schema, &values).unwrap();
    assert_eq!(q.sql, "INSERT INTO t (name, age) VALUES ($1,$2)");
    assert_eq!(
        q.params,
        vec![Scalar::Str("a".to_string()), Scalar::Int(30)]
    );
}

#[test]
fn compiled_writes_have_matching_placeholders() {
    let schema = schema_name_age();
    let values = vec![
        pair("name", Scalar::Str("a".to_string())),
        pair("age", Scalar::Int(1)),
    ];
    let q = Insert::compile("t", &schema, &values).unwrap();
    assert_eq!(placeholder_count(&q.sql), q.params.len());

    let filters = vec![pair("name", Scalar::Str("a".to_string()))];
    let q = Update::compile("t", &schema, &values, &filters).unwrap();
    assert_eq!(placeholder_count(&q.sql), q.params.len());

    let q = Delete::compile("t", "filtered", &filters).unwrap();
    assert_eq!(placeholder_count(&q.sql), q.params.len());

    let rows = vec![values.clone(), values.clone()];
    let q = BulkInsert::compile("t", &schema, &rows).unwrap();
    assert_eq!(placeholder_count(&q.sql), q.params.len());
}

#[test]
fn insert_rejects_unknown_column() {
    let schema = schema_name_age();
    let values = vec![
        pair("name", Scalar::Str("a".to_string())),
        pair("color", Scalar::Str("red".to_string())),
    ];
    match Insert::compile("t", &schema, &values) {
        Err(DbError::UnknownColumn { column }) => assert_eq!(column, "color"),
        other => panic!("expected UnknownColumn, got {:?}", other),
    }
}

#[test]
fn insert_rejects_column_count_mismatch() {
    let schema = schema_name_age();
    let values = vec![pair("name", Scalar::Str("a".to_string()))];
    match Insert::compile("t", &schema, &values) {
        Err(DbError::ColumnMismatch { .. }) => {}
        other => panic!("expected ColumnMismatch, got {:?}", other),
    }
}

#[test]
fn insert_rejects_repeated_column() {
    let schema = schema_name_age();
    let values = vec![
        pair("name", Scalar::Str("a".to_string())),
        pair("name", Scalar::Str("b".to_string())),
    ];
    match Insert::compile("t", &schema, &values) {
        Err(DbError::ColumnMismatch { .. }) => {}
        other => panic!("expected ColumnMismatch, got {:?}", other),
    }
}

#[test]
fn boolean_column_rejects_string_value() {
    let raw = vec![("flag".to_string(), "boolean".to_string())];
    let schema = TableSchema::new(&raw).unwrap();
    let values = vec![pair("flag", Scalar::Str("true".to_string()))];
    match Insert::compile("t", &schema, &values) {
        Err(DbError::TypeCoercion { column, expected }) => {
            assert_eq!(column, "flag");
            assert_eq!(expected, ColType::Boolean);
        }
        other => panic!("expected TypeCoercionError, got {:?}", other),
    }
}

#[test]
fn bigint_column_rejects_garbage_string() {
    let schema = schema_name_age();
    let values = vec![
        pair("name", Scalar::Str("a".to_string())),
        pair("age", Scalar::Str("30x".to_string())),
    ];
    match Insert::compile("t", &schema, &values) {
        Err(DbError::TypeCoercion { column, expected }) => {
            assert_eq!(column, "age");
            assert_eq!(expected, ColType::BigInt);
        }
        other => panic!("expected TypeCoercionError, got {:?}", other),
    }
}

#[test]
fn unsafe_identifiers_are_rejected() {
    let schema = schema_name_age();
    let values = vec![
        pair("name", Scalar::Str("a".to_string())),
        pair("age", Scalar::Int(1)),
    ];
    match Insert::compile("t; DROP TABLE x", &schema, &values) {
        Err(DbError::Validation { .. }) => {}
        other => panic!("expected ValidationError, got {:?}", other),
    }
    let filters = vec![pair("a b", Scalar::Int(1))];
    match Retrieve::compile("t", &filters) {
        Err(DbError::Validation { .. }) => {}
        other => panic!("expected ValidationError, got {:?}", other),
    }
}

#[test]
fn update_compiles_set_and_where() {
    let schema = schema_name_age();
    let values = vec![pair("age", Scalar::Int(31))];
    let filters = vec![pair("name", Scalar::Str("a".to_string()))];
    let q = Update::compile("t", &schema, &values, &filters).unwrap();
    assert_eq!(q.sql, "UPDATE t SET age = $1 WHERE name = $2");
    assert_eq!(
        q.params,
        vec![Scalar::Int(31), Scalar::Str("a".to_string())]
    );
}

#[test]
fn update_without_filters_is_unconditional() {
    let schema = schema_name_age();
    let values = vec![pair("age", Scalar::Int(31))];
    let q = Update::compile("t", &schema, &values, &vec![]).unwrap();
    assert_eq!(q.sql, "UPDATE t SET age = $1");
}

#[test]
fn update_rejects_empty_values() {
    let schema = schema_name_age();
    match Update::compile("t", &schema, &vec![], &vec![]) {
        Err(DbError::Validation { .. }) => {}
        other => panic!("expected ValidationError, got {:?}", other),
    }
}

#[test]
fn delete_modes_compile_and_unknown_mode_fails() {
    let filters = vec![pair("name", Scalar::Str("a".to_string()))];
    let q = Delete::compile("t", "filtered", &filters).unwrap();
    assert_eq!(q.sql, "DELETE FROM t WHERE name = $1");
    assert_eq!(q.params, vec![Scalar::Str("a".to_string())]);

    let q = Delete::compile("t", "all", &filters).unwrap();
    assert_eq!(q.sql, "DELETE FROM t");
    assert!(q.params.is_empty());

    match Delete::compile("t", "sideways", &filters) {
        Err(DbError::Validation { .. }) => {}
        other => panic!("expected ValidationError, got {:?}", other),
    }
}

#[test]
fn retrieve_compiles_with_and_without_filters() {
    let q = Retrieve::compile("t", &vec![]).unwrap();
    assert_eq!(q.sql, "SELECT * FROM t");
    assert!(q.params.is_empty());

    let filters = vec![
        pair("name", Scalar::Str("a".to_string())),
        pair("age", Scalar::Int(30)),
    ];
    let q = Retrieve::compile("t", &filters).unwrap();
    assert_eq!(q.sql, "SELECT * FROM t WHERE name = $1 AND age = $2");
    assert_eq!(
        q.params,
        vec![Scalar::Str("a".to_string()), Scalar::Int(30)]
    );
}

#[test]
fn bulk_insert_compiles_multi_row_values() {
    let schema = schema_name_age();
    let rows = vec![
        vec![
            pair("name", Scalar::Str("a".to_string())),
            pair("age", Scalar::Int(1)),
        ],
        vec![
            pair("age", Scalar::Int(2)),
            pair("name", Scalar::Str("b".to_string())),
        ],
    ];
    let q = BulkInsert::compile("t", &schema, &rows).unwrap();
    assert_eq!(q.sql, "INSERT INTO t (name, age) VALUES ($1,$2),($3,$4)");
    assert_eq!(
        q.params,
        vec![
            Scalar::Str("a".to_string()),
            Scalar::Int(1),
            Scalar::Str("b".to_string()),
            Scalar::Int(2),
        ]
    );
}

#[test]
fn bulk_insert_rejects_bad_rows() {
    let schema = schema_name_age();
    match BulkInsert::compile("t", &schema, &vec![]) {
        Err(DbError::Validation { .. }) => {}
        other => panic!("expected ValidationError, got {:?}", other),
    }
    let rows = vec![
        vec![
            pair("name", Scalar::Str("a".to_string())),
            pair("age", Scalar::Int(1)),
        ],
        vec![
            pair("name", Scalar::Str("b".to_string())),
            pair("color", Scalar::Str("red".to_string())),
        ],
    ];
    match BulkInsert::compile("t", &schema, &rows) {
        Err(DbError::UnknownColumn { column }) => assert_eq!(column, "color"),
        other => panic!("expected UnknownColumn, got {:?}", other),
    }
}

#[test]
fn schema_parses_declared_types_and_rejects_bad_catalogs() {
    let raw = vec![
        ("a".to_string(), "character varying".to_string()),
        ("b".to_string(), "integer".to_string()),
    ];
    let schema = TableSchema::new(&raw).unwrap();
    assert_eq!(schema.lookup("a"), Some(ColType::Text));
    assert_eq!(schema.lookup("b"), Some(ColType::BigInt));
    assert_eq!(schema.lookup("c"), None);

    let empty: Vec<(String, String)> = vec![];
    match TableSchema::new(&empty) {
        Err(DbError::Schema { .. }) => {}
        other => panic!("expected SchemaError for an unknown table, got {:?}", other),
    }

    let raw = vec![("a".to_string(), "money".to_string())];
    match TableSchema::new(&raw) {
        Err(DbError::Schema { .. }) => {}
        other => panic!("expected SchemaError, got {:?}", other),
    }
    let raw = vec![
        ("a".to_string(), "text".to_string()),
        ("a".to_string(), "text".to_string()),
    ];
    match TableSchema::new(&raw) {
        Err(DbError::Schema { .. }) => {}
        other => panic!("expected SchemaError, got {:?}", other),
    }
}

#[test]
fn catalog_probes_bind_the_table_name() {
    let q = Table::exists_query("users");
    assert_eq!(
        q.sql,
        "SELECT EXISTS (SELECT 1 FROM information_schema.tables WHERE table_schema = 'public' AND table_name = $1)"
    );
    assert_eq!(q.params, vec![Scalar::Str("users".to_string())]);

    let q = Table::columns_query("users");
    assert_eq!(
        q.sql,
        "SELECT column_name, data_type FROM information_schema.columns WHERE table_name = $1"
    );
    assert_eq!(q.params, vec![Scalar::Str("users".to_string())]);
}

#[test]
fn exact_integer_parsing() {
    assert_eq!(parse_i64("30"), Some(30));
    assert_eq!(parse_i64("+7"), Some(7));
    assert_eq!(parse_i64("-0"), Some(0));
    assert_eq!(parse_i64("007"), Some(7));
    assert_eq!(parse_i64("9223372036854775807"), Some(i64::MAX));
    assert_eq!(parse_i64("-9223372036854775808"), Some(i64::MIN));
    assert_eq!(parse_i64("9223372036854775808"), None);
    assert_eq!(parse_i64("-9223372036854775809"), None);
    assert_eq!(parse_i64("99999999999999999999999999"), None);
    assert_eq!(parse_i64(""), None);
    assert_eq!(parse_i64("-"), None);
    assert_eq!(parse_i64("+"), None);
    assert_eq!(parse_i64("12x"), None);
    assert_eq!(parse_i64(" 12"), None);
    assert_eq!(parse_i64("1 2"), None);
}

#[test]
fn coercion_per_declared_type() {
    assert_eq!(
        coerce(&Scalar::Int(5), ColType::BigInt),
        Some(Scalar::Int(5))
    );
    assert_eq!(
        coerce(&Scalar::Str("5".to_string()), ColType::BigInt),
        Some(Scalar::Int(5))
    );
    assert_eq!(coerce(&Scalar::Bool(true), ColType::BigInt), None);
    assert_eq!(
        coerce(&Scalar::Str("x".to_string()), ColType::Text),
        Some(Scalar::Str("x".to_string()))
    );
    assert_eq!(coerce(&Scalar::Int(1), ColType::Text), None);
    assert_eq!(
        coerce(&Scalar::Bool(false), ColType::Boolean),
        Some(Scalar::Bool(false))
    );
    assert_eq!(coerce(&Scalar::Str("true".to_string()), ColType::Boolean), None);
}
