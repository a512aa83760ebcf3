use hotaru::sql::client::Client;
use hotaru::sql::message::{Message, QueryResult};
use hotaru::url::params::StrMap;
use hotaru::sql::context::Context;
use hotaru::sql::pool::{ConnectionKey, ConnectionPool, PoolConfig, PoolStats};
use hotaru::sql::transport::Transport;
use hotaru::sql::{DatabaseType, QueryLogger, SqlExecutable, SQL};
use hotaru::protocol::ProtocolRole;

#[test]
fn test_postgres_client_builder() {
    let client = Client::<(), String>::postgres("postgres://localhost/test")
        .name("test_db")
        .build();

    assert_eq!(client.name, "test_db");
    assert_eq!(client.db_type, DatabaseType::Postgres);
}

#[test]
fn test_mysql_client_builder() {
    let client = Client::<(), String>::mysql("mysql://localhost/test")
        .name("mysql_db")
        .build();

    assert_eq!(client.name, "mysql_db");
    assert_eq!(client.db_type, DatabaseType::MySQL);
}

#[test]
fn test_sqlite_client_builder() {
    let client = Client::<(), String>::sqlite("sqlite://test.db")
        .name("sqlite_db")
        .build();

    assert_eq!(client.name, "sqlite_db");
    assert_eq!(client.db_type, DatabaseType::SQLite);
}

#[test]
fn test_client_config() {
    #[derive(Clone, Debug, PartialEq)]
    struct TestConfig {
        value: String,
    }

    let client = Client::<(), String>::postgres("postgres://localhost/test")
        .set_config(TestConfig { value: "test".to_string() })
        .build();

    let config = client.get_config();
    assert!(config.is_some());
    assert_eq!(config.unwrap().value, "test");
}

#[test]
fn test_client_statics() {
    let client = Client::<(), String>::postgres("postgres://localhost/test")
        .set_static("api_key", "secret123".to_string())
        .build();

    let api_key = client.get_static("api_key");
    assert_eq!(api_key, Some("secret123".to_string()));
}

#[test]
fn unnamed_client_is_called_sql_client() {
    let client = Client::<(), String>::postgres("postgres://localhost/test").build();
    assert_eq!(client.name, "sql_client");
    assert_eq!(client.connection_string, "postgres://localhost/test");
}

#[test]
fn missing_config_and_statics_fall_back_to_defaults() {
    let client = Client::<u32, String>::mysql("mysql://localhost/test").build();
    assert_eq!(client.get_config(), None);
    assert_eq!(client.get_config_or_default(), 0);
    assert_eq!(client.get_static("nope"), None);
    assert_eq!(client.get_static_or_default("nope"), String::new());
    let client = Client::<(), String>::mysql("mysql://localhost/test")
        .set_config(7u32)
        .set_static("k", "v".to_string())
        .set_static("k", "w".to_string())
        .build();
    assert_eq!(client.get_config_or_default(), 7);
    assert_eq!(client.get_static_or_default("k"), "w".to_string());
}

#[test]
fn test_connection_key_equality() {
    let key1 = ConnectionKey::new("postgres://localhost/db".to_string(), DatabaseType::Postgres);
    let key2 = ConnectionKey::new("postgres://localhost/db".to_string(), DatabaseType::Postgres);
    let key3 = ConnectionKey::new("mysql://localhost/db".to_string(), DatabaseType::MySQL);

    assert_eq!(key1, key2);
    assert_ne!(key1, key3);
}

#[test]
fn test_connection_key_hash() {
    let key1 = ConnectionKey::new("postgres://localhost/db".to_string(), DatabaseType::Postgres);
    let key2 = ConnectionKey::new("postgres://localhost/db".to_string(), DatabaseType::Postgres);

    let mut set = std::collections::HashSet::new();
    set.insert(key1.clone());

    assert!(set.contains(&key2));
}

#[test]
fn connection_keys_differ_by_kind_alone() {
    let a = ConnectionKey::new("db".to_string(), DatabaseType::Postgres);
    let b = ConnectionKey::new("db".to_string(), DatabaseType::SQLite);
    assert_ne!(a, b);
}

fn key(url: &str) -> ConnectionKey {
    ConnectionKey::new(url.to_string(), DatabaseType::Postgres)
}

#[test]
fn pool_get_on_empty_cache_misses() {
    let mut pool: ConnectionPool<String> = ConnectionPool::new(PoolConfig::default());
    assert_eq!(pool.get(&key("postgres://localhost/test")), None);
    assert_eq!(pool.stats().misses, 1);
}

#[test]
fn pool_put_then_get_hands_out_the_same_handle_again() {
    let mut pool: ConnectionPool<String> = ConnectionPool::new(PoolConfig::default());
    let k = key("postgres://localhost/test");
    pool.put_at(k.clone(), "pool1".to_string(), 0);
    assert_eq!(pool.get_at(&k, 10), Some("pool1".to_string()));
    assert_eq!(pool.get_at(&k, 20), Some("pool1".to_string()));
    assert_eq!(pool.stats().hits, 2);
}

#[test]
fn pool_keeps_at_most_max_idle_handles_per_key() {
    let mut config = PoolConfig::default();
    config.max_idle_per_db = 2;
    let mut pool: ConnectionPool<String> = ConnectionPool::new(config);
    let k = key("postgres://localhost/test");
    for i in 0..3 {
        pool.put_at(k.clone(), format!("pool{}", i), i);
    }
    assert_eq!(pool.stats().pooled_connections, 2);
    // The oldest handle was dropped.
    assert_eq!(pool.get_at(&k, 5), Some("pool1".to_string()));
}

#[test]
fn pool_drops_handles_idle_past_the_timeout() {
    let mut config = PoolConfig::default();
    config.idle_timeout = 100_000_000;
    let mut pool: ConnectionPool<String> = ConnectionPool::new(config);
    let k = key("postgres://localhost/test");
    pool.put_at(k.clone(), "pool1".to_string(), 0);
    assert_eq!(pool.get_at(&k, 150_000_000), None);
    assert_eq!(pool.stats().pooled_connections, 0);
}

#[test]
fn pool_drops_handles_older_than_the_lifetime() {
    let mut config = PoolConfig::default();
    config.max_lifetime = 1_000;
    let mut pool: ConnectionPool<String> = ConnectionPool::new(config);
    let k = key("postgres://localhost/test");
    pool.put_at(k.clone(), "old".to_string(), 0);
    pool.put_at(k.clone(), "new".to_string(), 900);
    assert_eq!(pool.get_at(&k, 1_500), Some("new".to_string()));
}

#[test]
fn pool_cleanup_counts_evictions() {
    let mut config = PoolConfig::default();
    config.idle_timeout = 100_000_000;
    let mut pool: ConnectionPool<String> = ConnectionPool::new(config);
    let k = key("postgres://localhost/test");
    pool.put_at(k.clone(), "pool1".to_string(), 0);
    assert_eq!(pool.stats().pooled_connections, 1);
    pool.cleanup_at(150_000_000);
    assert_eq!(pool.stats().pooled_connections, 0);
    assert!(pool.stats().evictions > 0);
}

#[test]
fn pool_stats_count_hits_and_misses() {
    let mut pool: ConnectionPool<String> = ConnectionPool::new(PoolConfig::default());
    let k = ConnectionKey::new("sqlite://test.db".to_string(), DatabaseType::SQLite);
    let stats = pool.stats();
    assert_eq!(stats.hits, 0);
    assert_eq!(stats.misses, 0);
    let _ = pool.get_at(&k, 0);
    assert_eq!(pool.stats().misses, 1);
    pool.put_at(k.clone(), "pool1".to_string(), 1);
    let _ = pool.get_at(&k, 2);
    assert_eq!(pool.stats().hits, 1);
}

#[test]
fn pool_with_caching_off_keeps_nothing() {
    let mut config = PoolConfig::default();
    config.enable_pooling = false;
    let mut pool: ConnectionPool<String> = ConnectionPool::new(config);
    let k = key("postgres://localhost/test");
    pool.put_at(k.clone(), "pool1".to_string(), 0);
    assert_eq!(pool.get_at(&k, 1), None);
    assert_eq!(pool.stats(), PoolStats { hits: 0, misses: 0, evictions: 0, pooled_connections: 0 });
}

#[test]
fn pool_clear_forgets_every_handle() {
    let mut pool: ConnectionPool<String> = ConnectionPool::new(PoolConfig::default());
    let k = key("postgres://localhost/test");
    pool.put(k.clone(), "pool1".to_string());
    pool.clear();
    assert_eq!(pool.stats().pooled_connections, 0);
    assert_eq!(pool.get(&k), None);
}

#[test]
fn pool_config_defaults() {
    let c = PoolConfig::default();
    assert_eq!(c.max_idle_per_db, 32);
    assert_eq!(c.max_lifetime, 300_000_000_000);
    assert_eq!(c.idle_timeout, 90_000_000_000);
    assert_eq!(c.connection_timeout, 30_000_000_000);
    assert!(c.enable_pooling);
}

#[test]
fn transport_with_and_without_pool() {
    let t: Transport<String> = Transport::new("p".to_string());
    assert!(t.has_pool());
    assert_eq!(t.pool(), Some("p".to_string()));
    let e: Transport<String> = Transport::empty();
    assert!(!e.has_pool());
    assert_eq!(e.id(), 0);
    assert_eq!(e.pool(), None);
    let d: Transport<String> = Transport::default();
    assert!(!d.has_pool());
}

#[test]
fn sql_protocol_is_a_client_that_detects_nothing() {
    assert_eq!(SQL.role(), ProtocolRole::Client);
    assert!(!SQL::detect(b"GET / HTTP/1.1\r\n"));
    assert_eq!(SqlExecutable::Query, SqlExecutable::Query);
    assert_eq!(*QueryLogger::new(), QueryLogger);
    assert_eq!(QueryLogger::return_self(), QueryLogger::default());
}

type SqlCtx = Context<String, Vec<String>, (), u32, String>;

#[test]
fn test_context_creation() {
    let ctx: SqlCtx = Context::new();
    assert!(ctx.query.is_empty());
    assert!(ctx.response.is_empty());
    assert!(ctx.client.is_none());
}

#[test]
fn test_context_params() {
    let mut ctx: SqlCtx = Context::new();
    ctx.add_param("id", "123");
    assert_eq!(ctx.param("id"), Some("123".to_string()));
}

#[test]
fn test_context_builder() {
    let ctx: SqlCtx = Context::new()
        .with_param("user_id", "456")
        .set_local("cache_key", "user:456".to_string());

    assert_eq!(ctx.param("user_id"), Some("456".to_string()));
    assert_eq!(ctx.get_local("cache_key"), Some("user:456".to_string()));
}

#[test]
fn context_query_state_and_result() {
    let mut ctx: SqlCtx = Context::new_with_client(());
    assert!(ctx.client().is_some());
    assert_eq!(ctx.role(), ProtocolRole::Client);
    ctx.set_query("SELECT 1");
    ctx.add_query_param("a".to_string());
    ctx.add_query_param("b".to_string());
    assert_eq!(ctx.query, "SELECT 1");
    assert_eq!(ctx.params, vec!["a".to_string(), "b".to_string()]);
    ctx.set_result(vec!["row".to_string()]);
    assert_eq!(ctx.result(), &vec!["row".to_string()]);
    let taken = ctx.take_result();
    assert_eq!(taken, vec!["row".to_string()]);
    assert!(ctx.result().is_empty());
    ctx.set_result(vec!["x".to_string()]);
    ctx.handle_error();
    assert!(ctx.response.is_empty());
    assert_eq!(ctx.query, "SELECT 1");
}

#[test]
fn context_params_replace_and_config() {
    let mut ctx: SqlCtx = Context::new();
    assert_eq!(ctx.param("id"), None);
    ctx.add_param("id", "1");
    ctx.add_param("id", "2");
    assert_eq!(ctx.param("id"), Some("2".to_string()));
    assert_eq!(ctx.get_config(), None);
    let ctx = ctx.set_config(7);
    assert_eq!(ctx.get_config(), Some(7));
    assert_eq!(ctx.get_local("missing"), None);
}

#[test]
fn transport_from_reading_uses_the_reading() {
    let t = Transport::from_reading(7u32, Some(123));
    assert!(t.has_pool());
    assert_eq!(t.id(), 123);
    let t = Transport::from_reading(7u32, None);
    assert_eq!(t.id(), 0);
    assert_eq!(t.pool(), Some(7));
}

fn row(pairs: &[(&str, &str)]) -> StrMap<String> {
    let mut m = StrMap::new();
    for (k, v) in pairs {
        m.insert(k.to_string(), v.to_string());
    }
    m
}

#[test]
fn query_results_count_their_rows() {
    let empty: QueryResult<String> = QueryResult::new();
    assert!(empty.is_empty());
    assert_eq!(empty.rows_affected, None);
    assert!(empty.first().is_none());

    let one = QueryResult::single(row(&[("id", "1")]));
    assert_eq!(one.rows_affected, Some(1));
    assert_eq!(one.len(), 1);
    assert_eq!(one.first().unwrap().get("id"), Some(&"1".to_string()));

    let many = QueryResult::rows(vec![row(&[("id", "1")]), row(&[("id", "2")])]);
    assert_eq!(many.rows_affected, Some(2));
    assert_eq!(many.len(), 2);

    let stmt: QueryResult<String> = QueryResult::affected(7);
    assert_eq!(stmt.rows_affected, Some(7));
    assert!(stmt.is_empty());

    let msg: Message<String> = Message::Result(QueryResult::default());
    assert!(matches!(msg, Message::Result(r) if r.is_empty()));
    assert!(matches!(Message::<String>::Query("SELECT 1".to_string()), Message::Query(_)));
}
