use mxindex::models::{NewServer, ServerFilter};
use mxindex::repo::{get_all_servers, get_filtered_servers, get_server_by_domain, insert_server,
    server_exists, DbError, Repository};

fn record(domain: &str, rooms: Option<i32>) -> NewServer {
    NewServer {
        domain: domain.to_string(),
        name: None,
        description: None,
        logo_url: None,
        theme: None,
        registration_open: None,
        public_rooms_count: rooms,
        version: None,
        federation_version: None,
        delegated_server: None,
        room_versions: None,
    }
}

fn filter() -> ServerFilter {
    ServerFilter {
        search: None,
        registration_open: None,
        has_rooms: None,
        room_version: None,
        sort_by: None,
        sort_order: None,
        limit: None,
        offset: None,
    }
}

#[test]
fn test_new_server_struct() {
    let new_server = NewServer {
        domain: "matrix.org".to_string(),
        name: Some("Matrix.org".to_string()),
        description: Some("The Matrix.org homeserver".to_string()),
        logo_url: Some("https://matrix.org/logo.png".to_string()),
        theme: Some("light".to_string()),
        registration_open: Some(true),
        public_rooms_count: Some(100),
        version: Some("v1.11".to_string()),
        federation_version: Some("Synapse/1.99".to_string()),
        delegated_server: Some("matrix.org:8448".to_string()),
        room_versions: Some("1,2,6".to_string()),
    };

    assert_eq!(new_server.domain, "matrix.org");
    assert_eq!(new_server.name, Some("Matrix.org".to_string()));
    assert_eq!(new_server.registration_open, Some(true));
}

#[test]
fn test_new_server_partial() {
    let new_server = NewServer {
        domain: "test.org".to_string(),
        name: None,
        description: None,
        logo_url: None,
        theme: None,
        registration_open: None,
        public_rooms_count: None,
        version: None,
        federation_version: None,
        delegated_server: None,
        room_versions: None,
    };

    assert_eq!(new_server.domain, "test.org");
    assert!(new_server.name.is_none());
    assert!(new_server.description.is_none());
}

#[test]
fn test_server_filter_default() {
    let filter = ServerFilter::default();
    assert!(filter.search.is_none());
    assert!(filter.registration_open.is_none());
    assert!(filter.limit.is_none());
}

#[test]
fn test_server_filter_with_values() {
    let filter = ServerFilter {
        search: Some("matrix".to_string()),
        registration_open: Some(true),
        has_rooms: Some(true),
        room_version: Some("6".to_string()),
        sort_by: Some("name".to_string()),
        sort_order: Some("asc".to_string()),
        limit: Some(10),
        offset: Some(0),
    };

    assert_eq!(filter.search, Some("matrix".to_string()));
    assert_eq!(filter.registration_open, Some(true));
    assert_eq!(filter.limit, Some(10));
}

#[test]
fn insert_then_lookup_round_trips() {
    let mut repo = Repository::new();
    let s = insert_server(&mut repo, &record("matrix.org", Some(3)), 100).unwrap();
    assert_eq!(s.id, 1);
    assert_eq!(s.domain, "matrix.org");
    assert_eq!(s.created_at, 100);
    assert_eq!(s.updated_at, 100);
    let found = get_server_by_domain(&repo, "matrix.org").unwrap();
    assert_eq!(found.id, 1);
    assert_eq!(found.public_rooms_count, Some(3));
    assert!(server_exists(&repo, "matrix.org"));
    assert!(!server_exists(&repo, "other.org"));
}

#[test]
fn duplicate_domain_is_refused() {
    let mut repo = Repository::new();
    insert_server(&mut repo, &record("matrix.org", None), 1).unwrap();
    match insert_server(&mut repo, &record("matrix.org", None), 2) {
        Err(DbError::UniqueViolation) => {}
        _ => panic!("a duplicate domain must be refused"),
    }
    assert_eq!(repo.len(), 1);
}

#[test]
fn domains_are_unique_case_insensitively() {
    let mut repo = Repository::new();
    insert_server(&mut repo, &record("Matrix.ORG", None), 1).unwrap();
    match insert_server(&mut repo, &record("matrix.org", None), 2) {
        Err(DbError::UniqueViolation) => {}
        _ => panic!("the same domain in another case must be refused"),
    }
    assert!(server_exists(&repo, "MATRIX.org"));
    assert!(get_server_by_domain(&repo, "matrix.ORG").is_some());
}

#[test]
fn ids_follow_insertion_order() {
    let mut repo = Repository::new();
    let a = insert_server(&mut repo, &record("a.org", None), 1).unwrap();
    let b = insert_server(&mut repo, &record("b.org", None), 2).unwrap();
    let c = insert_server(&mut repo, &record("c.org", None), 3).unwrap();
    assert_eq!((a.id, b.id, c.id), (1, 2, 3));
    let all = get_all_servers(&repo);
    assert_eq!(all.len(), 3);
    assert_eq!(all[0].domain, "a.org");
    assert_eq!(all[2].domain, "c.org");
}

#[test]
fn filter_and_sort_by_rooms_ascending() {
    let mut repo = Repository::new();
    insert_server(&mut repo, &record("a.org", Some(0)), 1).unwrap();
    insert_server(&mut repo, &record("b.org", Some(50)), 2).unwrap();
    insert_server(&mut repo, &record("c.org", Some(5)), 3).unwrap();
    let mut f = filter();
    f.has_rooms = Some(true);
    f.sort_by = Some("public_rooms_count".to_string());
    f.sort_order = Some("asc".to_string());
    let page = get_filtered_servers(&repo, &f);
    assert_eq!(page.total, 2);
    assert_eq!(page.limit, 50);
    assert_eq!(page.offset, 0);
    let domains: Vec<&str> = page.servers.iter().map(|s| s.domain.as_str()).collect();
    assert_eq!(domains, vec!["c.org", "b.org"]);
}

#[test]
fn limits_clamp_into_range() {
    let mut repo = Repository::new();
    insert_server(&mut repo, &record("a.org", None), 1).unwrap();
    insert_server(&mut repo, &record("b.org", None), 2).unwrap();

    let mut f = filter();
    f.limit = Some(0);
    let page = get_filtered_servers(&repo, &f);
    assert_eq!(page.limit, 1);
    assert_eq!(page.servers.len(), 1);

    let mut f2 = filter();
    f2.limit = Some(1000);
    let page2 = get_filtered_servers(&repo, &f2);
    assert_eq!(page2.limit, 100);

    let mut f3 = filter();
    f3.offset = Some(-7);
    let page3 = get_filtered_servers(&repo, &f3);
    assert_eq!(page3.offset, 0);
    assert_eq!(page3.servers.len(), 2);
}

#[test]
fn unknown_sort_falls_back_to_created_at_desc() {
    let mut repo = Repository::new();
    insert_server(&mut repo, &record("a.org", None), 10).unwrap();
    insert_server(&mut repo, &record("b.org", None), 20).unwrap();
    insert_server(&mut repo, &record("c.org", None), 30).unwrap();
    let mut f = filter();
    f.sort_by = Some("nonsense".to_string());
    f.sort_order = Some("sideways".to_string());
    let page = get_filtered_servers(&repo, &f);
    let domains: Vec<&str> = page.servers.iter().map(|s| s.domain.as_str()).collect();
    assert_eq!(domains, vec!["c.org", "b.org", "a.org"]);
}

#[test]
fn total_counts_matches_regardless_of_pagination() {
    let mut repo = Repository::new();
    for i in 0..7 {
        let d = format!("host{}.org", i);
        insert_server(&mut repo, &record(&d, Some(i)), i as u64).unwrap();
    }
    let mut f = filter();
    f.has_rooms = Some(true);
    f.limit = Some(2);
    f.offset = Some(1);
    let page = get_filtered_servers(&repo, &f);
    assert_eq!(page.total, 6);
    assert_eq!(page.servers.len(), 2);
    assert!(page.servers.len() as i32 <= page.limit);
}

#[test]
fn has_rooms_false_matches_unknown_and_non_positive() {
    let mut repo = Repository::new();
    insert_server(&mut repo, &record("none.org", None), 1).unwrap();
    insert_server(&mut repo, &record("zero.org", Some(0)), 2).unwrap();
    insert_server(&mut repo, &record("busy.org", Some(9)), 3).unwrap();
    let mut f = filter();
    f.has_rooms = Some(false);
    let page = get_filtered_servers(&repo, &f);
    assert_eq!(page.total, 2);
    let mut domains: Vec<&str> = page.servers.iter().map(|s| s.domain.as_str()).collect();
    domains.sort();
    assert_eq!(domains, vec!["none.org", "zero.org"]);
}

#[test]
fn search_is_case_insensitive_over_domain_name_description() {
    let mut repo = Repository::new();
    let mut named = record("one.example", None);
    named.name = Some("The Matrix Hub".to_string());
    insert_server(&mut repo, &named, 1).unwrap();
    let mut described = record("two.example", None);
    described.description = Some("a MATRIX server".to_string());
    insert_server(&mut repo, &described, 2).unwrap();
    insert_server(&mut repo, &record("matrix.org", None), 3).unwrap();
    insert_server(&mut repo, &record("plain.org", None), 4).unwrap();

    let mut f = filter();
    f.search = Some("matrix".to_string());
    let page = get_filtered_servers(&repo, &f);
    assert_eq!(page.total, 3);
}

#[test]
fn room_version_filter_is_substring_on_joined_list() {
    let mut repo = Repository::new();
    let mut a = record("a.org", None);
    a.room_versions = Some("1,2,6".to_string());
    insert_server(&mut repo, &a, 1).unwrap();
    let mut b = record("b.org", None);
    b.room_versions = Some("9,10".to_string());
    insert_server(&mut repo, &b, 2).unwrap();
    insert_server(&mut repo, &record("c.org", None), 3).unwrap();

    let mut f = filter();
    f.room_version = Some("6".to_string());
    let page = get_filtered_servers(&repo, &f);
    assert_eq!(page.total, 1);
    assert_eq!(page.servers[0].domain, "a.org");
}

#[test]
fn name_sort_puts_missing_names_last() {
    let mut repo = Repository::new();
    let mut b = record("b.org", None);
    b.name = Some("Beta".to_string());
    insert_server(&mut repo, &b, 1).unwrap();
    insert_server(&mut repo, &record("n.org", None), 2).unwrap();
    let mut a = record("a.org", None);
    a.name = Some("Alpha".to_string());
    insert_server(&mut repo, &a, 3).unwrap();

    let mut f = filter();
    f.sort_by = Some("name".to_string());
    f.sort_order = Some("asc".to_string());
    let page = get_filtered_servers(&repo, &f);
    let domains: Vec<&str> = page.servers.iter().map(|s| s.domain.as_str()).collect();
    assert_eq!(domains, vec!["a.org", "b.org", "n.org"]);
}

#[test]
fn pagination_windows_the_sorted_run() {
    let mut repo = Repository::new();
    for (d, t) in [("a.org", 1u64), ("b.org", 2), ("c.org", 3), ("d.org", 4)] {
        insert_server(&mut repo, &record(d, None), t).unwrap();
    }
    let mut f = filter();
    f.sort_by = Some("domain".to_string());
    f.sort_order = Some("asc".to_string());
    f.limit = Some(2);
    f.offset = Some(1);
    let page = get_filtered_servers(&repo, &f);
    let domains: Vec<&str> = page.servers.iter().map(|s| s.domain.as_str()).collect();
    assert_eq!(domains, vec!["b.org", "c.org"]);
    assert_eq!(page.total, 4);
}
