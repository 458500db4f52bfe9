use mxindex::models::{DiscoveredServerInfo, ServerFilter};
use mxindex::routes::{add_server, add_server_check, health, index, list_servers,
    make_search_cache_key, search_servers, server_info_cache_key, server_info_cached,
    server_info_probe, AppState, CACHE_TTL_LONG, CACHE_TTL_MEDIUM, CACHE_TTL_SHORT};

fn probe_info() -> DiscoveredServerInfo {
    DiscoveredServerInfo {
        name: Some("Matrix.org".to_string()),
        description: None,
        logo_url: None,
        theme: None,
        registration_open: Some(true),
        public_rooms_count: Some(42),
        version: None,
        federation_version: None,
        delegated_server: None,
        room_versions: Some("6,9".to_string()),
    }
}

#[test]
fn test_cache_ttl_values() {
    assert_eq!(CACHE_TTL_SHORT, 60);
    assert_eq!(CACHE_TTL_MEDIUM, 300);
    assert_eq!(CACHE_TTL_LONG, 3600);
}

#[test]
fn test_server_info_cache_key_format() {
    let server = "matrix.org";
    let cache_key = format!("server:info:{}", server);
    assert_eq!(cache_key, "server:info:matrix.org");
}

#[test]
fn test_search_cache_key_format() {
    let cache_key = format!(
        "servers:search:{}:{}:{}:{}:{}:{}:{}:{}",
        "matrix", "true", "false", "6", "name", "asc", 10, 0
    );
    assert_eq!(
        cache_key,
        "servers:search:matrix:true:false:6:name:asc:10:0"
    );
}

#[test]
fn test_list_servers_cache_key() {
    let cache_key = "servers:list";
    assert_eq!(cache_key, "servers:list");
}

#[test]
fn test_index_returns_correct_info() {
    let api_info = index();
    assert_eq!(api_info.name, "mxindex");
    assert!(!api_info.version.is_empty());
    assert_eq!(api_info.description, "Matrix homeserver index API");
}

#[test]
fn health_reports_database_ok() {
    let state = AppState::new();
    let h = health(&state);
    assert_eq!(h.status, "healthy");
    assert_eq!(h.database, "ok");
}

#[test]
fn built_keys_match_the_documented_format() {
    assert_eq!(server_info_cache_key("matrix.org"), "server:info:matrix.org");
    let f = ServerFilter {
        search: Some("matrix".to_string()),
        registration_open: Some(true),
        has_rooms: Some(false),
        room_version: Some("6".to_string()),
        sort_by: Some("name".to_string()),
        sort_order: Some("asc".to_string()),
        limit: Some(10),
        offset: Some(0),
    };
    assert_eq!(
        make_search_cache_key(&f),
        "servers:search:matrix:true:false:6:name:asc:10:0"
    );
    let empty = ServerFilter::default();
    assert_eq!(make_search_cache_key(&empty), "servers:search:::::::0:0");
}

#[test]
fn add_server_accepts_then_refuses_duplicates() {
    let mut state = AppState::new();
    state.cache.connect("url").unwrap();
    let info = probe_info();
    let resp = add_server(&mut state, "matrix.org", Some(&info), 100).unwrap();
    assert_eq!(resp.id, 1);
    assert_eq!(resp.domain, "matrix.org");
    assert_eq!(resp.registration_open, Some(true));
    assert_eq!(resp.room_versions, Some("6,9".to_string()));
    assert_eq!(resp.public_rooms_count, Some(42));

    let second = add_server(&mut state, "matrix.org", Some(&info), 101);
    assert_eq!(second.err().unwrap().error, "server_exists");
}

#[test]
fn add_server_rejects_invalid_domains() {
    let mut state = AppState::new();
    let info = probe_info();
    let r = add_server(&mut state, "x.org:8448", Some(&info), 1);
    assert_eq!(r.err().unwrap().error, "invalid_domain");
    let r2 = add_server(&mut state, "", Some(&info), 1);
    assert_eq!(r2.err().unwrap().error, "invalid_domain");
    let r3 = add_server_check(&state, "a/b");
    assert_eq!(r3.err().unwrap().error, "invalid_domain");
}

#[test]
fn add_server_reports_failed_probes() {
    let mut state = AppState::new();
    let r = add_server(&mut state, "down.org", None, 1);
    assert_eq!(r.err().unwrap().error, "discovery_failed");
}

#[test]
fn add_server_check_passes_for_new_valid_domains() {
    let state = AppState::new();
    assert!(add_server_check(&state, "fresh.org").is_ok());
}

#[test]
fn server_info_rejects_invalid_names() {
    let state = AppState::new();
    let r = server_info_cached(&state, "bad:name", 0);
    assert_eq!(r.err().unwrap().error, "invalid_server");
}

#[test]
fn server_info_probe_composes_online_reports() {
    let mut state = AppState::new();
    state.cache.connect("url").unwrap();
    let report = server_info_probe(
        &mut state,
        "matrix.org",
        Some("v1.1".to_string()),
        Ok(()),
        1000,
    );
    assert_eq!(report.server, "matrix.org");
    assert_eq!(report.status, "online");
    assert_eq!(report.version, Some("v1.1".to_string()));
    assert_eq!(report.error, None);

    // the report is now served from the cache
    let cached = server_info_cached(&state, "matrix.org", 1030).unwrap();
    assert_eq!(cached.unwrap().status, "online");
    // and expires with its TTL
    let expired = server_info_cached(&state, "matrix.org", 1060).unwrap();
    assert!(expired.is_none());
}

#[test]
fn server_info_probe_classifies_failures() {
    let mut state = AppState::new();
    let report = server_info_probe(
        &mut state,
        "down.org",
        None,
        Err("tcp connect timed out".to_string()),
        0,
    );
    assert_eq!(report.status, "offline");
    assert_eq!(report.error, Some("connection_error".to_string()));
}

#[test]
fn list_servers_populates_and_reuses_the_cache() {
    let mut state = AppState::new();
    state.cache.connect("url").unwrap();
    add_server(&mut state, "a.org", Some(&probe_info()), 1).unwrap();

    let first = list_servers(&mut state, 100).unwrap();
    assert_eq!(first.total, 1);
    assert_eq!(first.servers[0].domain, "a.org");

    // a later read within the TTL is served from the cache even though the
    // repository is consulted afresh on a miss
    let second = list_servers(&mut state, 150).unwrap();
    assert_eq!(second.total, 1);
    assert_eq!(second.servers[0].domain, "a.org");
}

#[test]
fn add_invalidates_cached_listings() {
    let mut state = AppState::new();
    state.cache.connect("url").unwrap();
    add_server(&mut state, "a.org", Some(&probe_info()), 1).unwrap();
    let first = list_servers(&mut state, 100).unwrap();
    assert_eq!(first.total, 1);

    // a successful write drops every servers:* key, so the next read sees
    // the new record well within the old entry's TTL
    add_server(&mut state, "b.org", Some(&probe_info()), 101).unwrap();
    let second = list_servers(&mut state, 102).unwrap();
    assert_eq!(second.total, 2);
}

#[test]
fn search_servers_caches_under_the_composite_key() {
    let mut state = AppState::new();
    state.cache.connect("url").unwrap();
    add_server(&mut state, "a.org", Some(&probe_info()), 1).unwrap();
    let mut f = ServerFilter::default();
    f.search = Some("a".to_string());
    let page = search_servers(&mut state, &f, 10).unwrap();
    assert_eq!(page.total, 1);
    // the cached page is reused before its TTL
    let again = search_servers(&mut state, &f, 40).unwrap();
    assert_eq!(again.total, 1);
    // a different filter misses and recomputes
    let mut f2 = ServerFilter::default();
    f2.search = Some("zzz".to_string());
    let other = search_servers(&mut state, &f2, 40).unwrap();
    assert_eq!(other.total, 0);
}

#[test]
fn read_path_works_without_a_cache_connection() {
    let mut state = AppState::new();
    add_server(&mut state, "a.org", Some(&probe_info()), 1).unwrap();
    let page = list_servers(&mut state, 10).unwrap();
    assert_eq!(page.total, 1);
    let report = server_info_probe(&mut state, "a.org", None, Ok(()), 10);
    assert_eq!(report.status, "online");
    let cached = server_info_cached(&state, "a.org", 11).unwrap();
    assert!(cached.is_none());
}
