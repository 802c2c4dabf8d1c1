use db_gateway::cache::{CacheKey, CacheManager};
use db_gateway::scalar::Scalar;

fn row(text: &str) -> serde_json::Value {
    serde_json::Value::String(text.to_string())
}

#[test]
fn cache_keys_are_deterministic_and_table_prefixed() {
    let params = vec![Scalar::Str("a".to_string()), Scalar::Int(30)];
    let k1 = CacheKey::generate_cache_key("t", "SELECT * FROM t WHERE name = $1", &params);
    let k2 = CacheKey::generate_cache_key("t", "SELECT * FROM t WHERE name = $1", &params);
    assert_eq!(k1, k2);

    let table_hash = CacheKey::generate_table_cache_hash("t");
    assert!(k1.starts_with(&table_hash));

    let query_hash = CacheKey::generate_query_cache_hash("SELECT * FROM t WHERE name = $1");
    let params_hash = CacheKey::generate_params_cache_hash(&params);
    assert_eq!(k1, format!("{}_{}_{}", table_hash, query_hash, params_hash));
}

#[test]
fn different_parameters_give_different_keys() {
    let p1 = vec![Scalar::Str("a".to_string())];
    let p2 = vec![Scalar::Str("b".to_string())];
    let k1 = CacheKey::generate_cache_key("t", "q", &p1);
    let k2 = CacheKey::generate_cache_key("t", "q", &p2);
    assert_ne!(k1, k2);
}

#[test]
fn get_returns_what_insert_stored() {
    let mut cache = CacheManager::new(10);
    cache.insert("k1".to_string(), vec![row("alpha"), row("beta")]);
    let got = cache.get(&"k1".to_string()).expect("hit expected");
    assert_eq!(got, vec![row("alpha"), row("beta")]);
    assert!(cache.get(&"missing".to_string()).is_none());
}

#[test]
fn reinserting_a_key_replaces_its_rows() {
    let mut cache = CacheManager::new(10);
    cache.insert("k1".to_string(), vec![row("old")]);
    cache.insert("k1".to_string(), vec![row("new")]);
    let got = cache.get(&"k1".to_string()).expect("hit expected");
    assert_eq!(got, vec![row("new")]);
}

#[test]
fn capacity_bound_evicts_least_recently_used() {
    let mut cache = CacheManager::new(2);
    cache.insert("k1".to_string(), vec![row("one")]);
    cache.insert("k2".to_string(), vec![row("two")]);
    // Touch k1 so that k2 becomes the least recently used entry.
    assert!(cache.get(&"k1".to_string()).is_some());
    cache.insert("k3".to_string(), vec![row("three")]);
    assert!(cache.get(&"k2".to_string()).is_none());
    assert!(cache.get(&"k1".to_string()).is_some());
    assert!(cache.get(&"k3".to_string()).is_some());
}

#[test]
fn three_inserts_at_capacity_two_keep_only_two() {
    let mut cache = CacheManager::new(2);
    cache.insert("k1".to_string(), vec![row("one")]);
    cache.insert("k2".to_string(), vec![row("two")]);
    cache.insert("k3".to_string(), vec![row("three")]);
    assert!(cache.get(&"k1".to_string()).is_none());
    assert!(cache.get(&"k2".to_string()).is_some());
    assert!(cache.get(&"k3".to_string()).is_some());
}

#[test]
fn zero_capacity_cache_holds_nothing() {
    let mut cache = CacheManager::new(0);
    cache.insert("k1".to_string(), vec![row("one")]);
    assert!(cache.get(&"k1".to_string()).is_none());
}

#[test]
fn remove_by_prefix_purges_exactly_the_prefixed_keys() {
    let mut cache = CacheManager::new(10);
    cache.insert("A_1".to_string(), vec![row("a1")]);
    cache.insert("A_2".to_string(), vec![row("a2")]);
    cache.insert("B_1".to_string(), vec![row("b1")]);
    cache.remove_by_prefix("A_");
    assert!(cache.get(&"A_1".to_string()).is_none());
    assert!(cache.get(&"A_2".to_string()).is_none());
    let got = cache.get(&"B_1".to_string()).expect("unrelated key must stay");
    assert_eq!(got, vec![row("b1")]);
}
