use db_gateway::cache::{CacheKey, CacheManager};
use db_gateway::db::db_handler::{DatabaseHandler, DbAction, DbRequest, DispatchResult};
use db_gateway::db::table::TableSchema;
use db_gateway::db::DbError;
use db_gateway::scalar::Scalar;

fn schema_name_age() -> TableSchema {
    let raw = vec![
        ("name".to_string(), "text".to_string()),
        ("age".to_string(), "bigint".to_string()),
    ];
    TableSchema::new(&raw).unwrap()
}

fn projected_row(name: &str, age: i64) -> serde_json::Value {
    let mut obj = serde_json::Map::new();
    obj.insert(
        "name".to_string(),
        serde_json::Value::String(name.to_string()),
    );
    obj.insert("age".to_string(), serde_json::Value::Number(age.into()));
    serde_json::Value::Object(obj)
}

fn retrieve_request(table: &str, filters: Vec<(String, Scalar)>) -> DbRequest {
    DbRequest {
        table: table.to_string(),
        action: DbAction::Retrieve,
        values: None,
        bulk_values: None,
        filters: Some(filters),
    }
}

fn insert_request(table: &str, values: Vec<(String, Scalar)>) -> DbRequest {
    DbRequest {
        table: table.to_string(),
        action: DbAction::Insert,
        values: Some(values),
        bulk_values: None,
        filters: None,
    }
}

#[test]
fn unknown_table_is_rejected_before_anything_else() {
    let req = retrieve_request("ghosts", vec![]);
    match DatabaseHandler::new(req, false) {
        Err(DbError::Schema { .. }) => {}
        other => panic!("expected SchemaError, got {:?}", other),
    }
}

#[test]
fn missing_payload_fails_validation() {
    let req = DbRequest {
        table: "t".to_string(),
        action: DbAction::Insert,
        values: None,
        bulk_values: None,
        filters: None,
    };
    let handler = DatabaseHandler::new(req, true).unwrap();
    match handler.validate() {
        Err(DbError::Validation { .. }) => {}
        other => panic!("expected ValidationError, got {:?}", other),
    }
    let schema = schema_name_age();
    match handler.insert(&schema) {
        Err(DbError::Validation { .. }) => {}
        other => panic!("expected ValidationError, got {:?}", other),
    }
}

#[test]
fn validation_accepts_complete_requests() {
    let req = insert_request("t", vec![("age".to_string(), Scalar::Int(1))]);
    let handler = DatabaseHandler::new(req, true).unwrap();
    assert!(handler.validate().is_ok());
    let req = retrieve_request("t", vec![]);
    let handler = DatabaseHandler::new(req, true).unwrap();
    assert!(handler.validate().is_ok());
}

#[test]
fn insert_then_retrieve_round_trip() {
    let schema = schema_name_age();
    let mut cache = CacheManager::new(100);

    // The write: compile, pretend the transaction committed, invalidate.
    let write = DatabaseHandler::new(
        insert_request(
            "t",
            vec![
                ("name".to_string(), Scalar::Str("a".to_string())),
                ("age".to_string(), Scalar::Str("30".to_string())),
            ],
        ),
        true,
    )
    .unwrap();
    let wq = write.insert(&schema).unwrap();
    assert_eq!(wq.sql, "INSERT INTO t (name, age) VALUES ($1,$2)");
    assert_eq!(
        wq.params,
        vec![Scalar::Str("a".to_string()), Scalar::Int(30)]
    );
    match write.finish_write(&mut cache, Ok(())) {
        DispatchResult::Status { status } => assert_eq!(status, "Insert successful."),
        other => panic!("expected Status, got {:?}", status_name(&other)),
    }

    // The read: compile, miss the cache, execute, project, fill, answer.
    let read = DatabaseHandler::new(
        retrieve_request(
            "t",
            vec![("name".to_string(), Scalar::Str("a".to_string()))],
        ),
        true,
    )
    .unwrap();
    let (rq, key) = read.retrieve().unwrap();
    assert_eq!(rq.sql, "SELECT * FROM t WHERE name = $1");
    assert!(read.retrieve_cached(&mut cache, &key).is_none());
    let rows = vec![projected_row("a", 30)];
    match read.finish_retrieve(&mut cache, key, rows) {
        DispatchResult::Data { rows } => {
            assert_eq!(rows.len(), 1);
            assert_eq!(rows[0]["age"], serde_json::Value::Number(30.into()));
        }
        other => panic!("expected Data, got {:?}", status_name(&other)),
    }
}

fn status_name(r: &DispatchResult) -> &'static str {
    match r {
        DispatchResult::Status { .. } => "Status",
        DispatchResult::Data { .. } => "Data",
        DispatchResult::Error { .. } => "Error",
    }
}

#[test]
fn second_identical_retrieve_is_served_from_the_cache() {
    let mut cache = CacheManager::new(100);
    let filters = vec![("name".to_string(), Scalar::Str("a".to_string()))];

    let first = DatabaseHandler::new(retrieve_request("t", filters.clone()), true).unwrap();
    let (_, key1) = first.retrieve().unwrap();
    assert!(first.retrieve_cached(&mut cache, &key1).is_none());
    let rows = vec![projected_row("a", 30)];
    first.finish_retrieve(&mut cache, key1, rows.clone());

    // An identical request derives an identical key and never needs the
    // database: the cache answers.
    let second = DatabaseHandler::new(retrieve_request("t", filters), true).unwrap();
    let (_, key2) = second.retrieve().unwrap();
    match second.retrieve_cached(&mut cache, &key2) {
        Some(DispatchResult::Data { rows: cached }) => assert_eq!(cached, rows),
        other => panic!(
            "expected a cache hit with the first call's rows, got {:?}",
            other.map(|r| status_name(&r))
        ),
    }
}

#[test]
fn committed_write_invalidates_cached_reads_of_the_table() {
    let mut cache = CacheManager::new(100);
    let filters = vec![("name".to_string(), Scalar::Str("a".to_string()))];

    let read = DatabaseHandler::new(retrieve_request("t", filters.clone()), true).unwrap();
    let (_, key) = read.retrieve().unwrap();
    read.finish_retrieve(&mut cache, key.clone(), vec![projected_row("a", 30)]);
    assert!(read.retrieve_cached(&mut cache, &key).is_some());

    let write = DatabaseHandler::new(
        DbRequest {
            table: "t".to_string(),
            action: DbAction::Update,
            values: Some(vec![("age".to_string(), Scalar::Int(31))]),
            bulk_values: None,
            filters: Some(filters),
        },
        true,
    )
    .unwrap();
    match write.finish_write(&mut cache, Ok(())) {
        DispatchResult::Status { status } => assert_eq!(status, "Update successful"),
        other => panic!("expected Status, got {:?}", status_name(&other)),
    }

    // The stale entry is gone: the next identical retrieve must miss.
    assert!(read.retrieve_cached(&mut cache, &key).is_none());
}

#[test]
fn failed_execution_reports_and_keeps_the_cache() {
    let mut cache = CacheManager::new(100);
    let read = DatabaseHandler::new(retrieve_request("t", vec![]), true).unwrap();
    let (_, key) = read.retrieve().unwrap();
    read.finish_retrieve(&mut cache, key.clone(), vec![projected_row("a", 30)]);

    let write = DatabaseHandler::new(
        insert_request("t", vec![("age".to_string(), Scalar::Int(1))]),
        true,
    )
    .unwrap();
    match write.finish_write(&mut cache, Err("duplicate key".to_string())) {
        DispatchResult::Error { error: DbError::QueryExecution { message } } => {
            assert_eq!(message, "duplicate key")
        }
        other => panic!("expected QueryExecutionError, got {:?}", status_name(&other)),
    }
    // Nothing committed, so nothing was invalidated.
    assert!(read.retrieve_cached(&mut cache, &key).is_some());
}

#[test]
fn empty_result_set_is_not_found_and_not_cached() {
    let mut cache = CacheManager::new(100);
    let read = DatabaseHandler::new(
        retrieve_request(
            "t",
            vec![("name".to_string(), Scalar::Str("nobody".to_string()))],
        ),
        true,
    )
    .unwrap();
    let (_, key) = read.retrieve().unwrap();
    match read.finish_retrieve(&mut cache, key.clone(), vec![]) {
        DispatchResult::Error { error: DbError::NotFound } => {}
        other => panic!("expected NotFoundError, got {:?}", status_name(&other)),
    }
    assert!(read.retrieve_cached(&mut cache, &key).is_none());
}

#[test]
fn delete_modes_flow_through_the_handler() {
    let req = DbRequest {
        table: "t".to_string(),
        action: DbAction::Delete {
            mode: "filtered".to_string(),
        },
        values: None,
        bulk_values: None,
        filters: Some(vec![("name".to_string(), Scalar::Str("a".to_string()))]),
    };
    let handler = DatabaseHandler::new(req, true).unwrap();
    let q = handler.delete(&"filtered".to_string()).unwrap();
    assert_eq!(q.sql, "DELETE FROM t WHERE name = $1");
    match handler.delete(&"everything".to_string()) {
        Err(DbError::Validation { .. }) => {}
        other => panic!("expected ValidationError, got {:?}", other),
    }
}

#[test]
fn bulk_insert_flows_through_the_handler() {
    let schema = schema_name_age();
    let req = DbRequest {
        table: "t".to_string(),
        action: DbAction::BulkInsert,
        values: None,
        bulk_values: Some(vec![
            vec![
                ("name".to_string(), Scalar::Str("a".to_string())),
                ("age".to_string(), Scalar::Int(1)),
            ],
            vec![
                ("name".to_string(), Scalar::Str("b".to_string())),
                ("age".to_string(), Scalar::Int(2)),
            ],
        ]),
        filters: None,
    };
    let handler = DatabaseHandler::new(req, true).unwrap();
    let q = handler.bulk_insert(&schema).unwrap();
    assert_eq!(q.sql, "INSERT INTO t (name, age) VALUES ($1,$2),($3,$4)");
    assert_eq!(q.params.len(), 4);

    let mut cache = CacheManager::new(10);
    match handler.finish_write(&mut cache, Ok(())) {
        DispatchResult::Status { status } => assert_eq!(status, "Insert successful."),
        other => panic!("expected Status, got {:?}", status_name(&other)),
    }
}

#[test]
fn table_hash_prefix_scopes_invalidation_to_one_table() {
    let mut cache = CacheManager::new(100);

    let read_t = DatabaseHandler::new(retrieve_request("t", vec![]), true).unwrap();
    let (_, key_t) = read_t.retrieve().unwrap();
    read_t.finish_retrieve(&mut cache, key_t.clone(), vec![projected_row("a", 1)]);

    let read_u = DatabaseHandler::new(retrieve_request("u", vec![]), true).unwrap();
    let (_, key_u) = read_u.retrieve().unwrap();
    read_u.finish_retrieve(&mut cache, key_u.clone(), vec![projected_row("b", 2)]);

    let write_t = DatabaseHandler::new(
        insert_request("t", vec![("age".to_string(), Scalar::Int(1))]),
        true,
    )
    .unwrap();
    write_t.finish_write(&mut cache, Ok(()));

    assert!(read_t.retrieve_cached(&mut cache, &key_t).is_none());
    assert!(read_u.retrieve_cached(&mut cache, &key_u).is_some());

    let hash_t = CacheKey::generate_table_cache_hash("t");
    assert!(key_t.starts_with(&hash_t));
    assert!(!key_u.starts_with(&hash_t));
}
