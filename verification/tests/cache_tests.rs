use mxindex::cache::{cache_key, glob_matches, Cache, CacheError, CacheValue};
use mxindex::models::ServerInfo;

fn info(server: &str, status: &str) -> ServerInfo {
    ServerInfo {
        server: server.to_string(),
        status: status.to_string(),
        version: None,
        error: None,
    }
}

#[test]
fn test_cache_key_single_part() {
    let key = cache_key("servers", &["matrix.org"]);
    assert_eq!(key, "servers:matrix.org");
}

#[test]
fn test_cache_key_multiple_parts() {
    let key = cache_key("server", &["info", "matrix.org"]);
    assert_eq!(key, "server:info:matrix.org");
}

#[test]
fn test_cache_key_no_parts() {
    let key = cache_key("servers", &[]);
    assert_eq!(key, "servers");
}

#[test]
fn test_cache_new() {
    let cache = Cache::new();
    assert!(cache.get("servers:list", 0).is_err());
}

#[test]
fn test_cache_default() {
    let cache = Cache::default();
    assert!(cache.get("servers:list", 0).is_err());
}

#[test]
fn test_cache_error_display() {
    let err = CacheError::NotFound;
    assert_eq!(err.message(), "Cache not found");

    let err = CacheError::NotInitialized;
    assert_eq!(err.message(), "Connection not initialized");
}

#[test]
fn glob_star_matches_prefix() {
    assert!(glob_matches("servers:*", "servers:list"));
    assert!(glob_matches("servers:*", "servers:search:a:b"));
    assert!(glob_matches("servers:*", "servers:"));
    assert!(!glob_matches("servers:*", "server:info:x.org"));
    assert!(!glob_matches("servers:*", "servers"));
}

#[test]
fn glob_question_matches_one_char() {
    assert!(glob_matches("a?c", "abc"));
    assert!(!glob_matches("a?c", "ac"));
    assert!(!glob_matches("a?c", "abbc"));
    assert!(glob_matches("*", ""));
    assert!(glob_matches("*", "anything"));
}

#[test]
fn uninitialized_cache_reports_not_initialized() {
    let cache = Cache::new();
    match cache.get("servers:list", 0) {
        Err(CacheError::NotInitialized) => {}
        _ => panic!("an unconnected cache must refuse reads"),
    }
}

#[test]
fn set_then_get_returns_same_value_before_ttl() {
    let mut cache = Cache::new();
    cache.connect("redis://localhost:6379").unwrap();
    let v = CacheValue::Info(info("matrix.org", "online"));
    cache.set("server:info:matrix.org", &v, 60, 1000).unwrap();
    match cache.get("server:info:matrix.org", 1059) {
        Ok(CacheValue::Info(i)) => {
            assert_eq!(i.server, "matrix.org");
            assert_eq!(i.status, "online");
        }
        _ => panic!("expected a live cached value"),
    }
}

#[test]
fn get_after_ttl_is_a_miss() {
    let mut cache = Cache::new();
    cache.connect("redis://localhost:6379").unwrap();
    let v = CacheValue::Info(info("matrix.org", "online"));
    cache.set("server:info:matrix.org", &v, 60, 1000).unwrap();
    match cache.get("server:info:matrix.org", 1060) {
        Err(CacheError::NotFound) => {}
        _ => panic!("an expired entry must be a miss"),
    }
}

#[test]
fn delete_removes_entry() {
    let mut cache = Cache::new();
    cache.connect("url").unwrap();
    let v = CacheValue::Info(info("a.org", "online"));
    cache.set("server:info:a.org", &v, 60, 0).unwrap();
    assert_eq!(cache.key_exists("server:info:a.org", 1).unwrap(), true);
    cache.delete("server:info:a.org").unwrap();
    assert_eq!(cache.key_exists("server:info:a.org", 1).unwrap(), false);
}

#[test]
fn invalidate_pattern_removes_matching_keys_only() {
    let mut cache = Cache::new();
    cache.connect("url").unwrap();
    let v = CacheValue::Info(info("a.org", "online"));
    cache.set("servers:list", &v, 300, 0).unwrap();
    cache.set("servers:search:q", &v, 60, 0).unwrap();
    cache.set("server:info:a.org", &v, 60, 0).unwrap();
    cache.invalidate_pattern("servers:*").unwrap();
    assert!(!cache.key_exists("servers:list", 1).unwrap());
    assert!(!cache.key_exists("servers:search:q", 1).unwrap());
    assert!(cache.key_exists("server:info:a.org", 1).unwrap());
}

#[test]
fn set_overwrites_previous_value() {
    let mut cache = Cache::new();
    cache.connect("url").unwrap();
    cache.set("k", &CacheValue::Info(info("a.org", "online")), 60, 0).unwrap();
    cache.set("k", &CacheValue::Info(info("a.org", "offline")), 60, 0).unwrap();
    match cache.get("k", 1) {
        Ok(CacheValue::Info(i)) => assert_eq!(i.status, "offline"),
        _ => panic!("expected the overwritten value"),
    }
}
