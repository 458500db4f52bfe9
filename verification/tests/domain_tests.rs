use mxindex::domain::{dedup_strings, extract_domain_from_mxid, extract_domains_from_text,
    is_valid_domain, split_seed_servers};

#[test]
fn test_valid_server_domain() {
    let valid_domains = vec!["matrix.org", "example.com", "server.host.com"];
    for domain in valid_domains {
        let contains_slash = domain.contains('/');
        let contains_colon = domain.contains(':');
        let is_empty = domain.is_empty();
        assert!(
            !contains_slash && !contains_colon && !is_empty,
            "Domain {} should be valid",
            domain
        );
    }
}

#[test]
fn test_invalid_server_domain_with_slash() {
    let invalid = "matrix.org/path";
    assert!(invalid.contains('/'));
}

#[test]
fn test_invalid_server_domain_with_port() {
    let invalid = "matrix.org:8448";
    assert!(invalid.contains(':'));
}

#[test]
fn test_empty_domain_is_invalid() {
    let invalid = "";
    assert!(invalid.is_empty());
}

#[test]
fn is_valid_domain_accepts_plain_names() {
    assert!(is_valid_domain("matrix.org"));
    assert!(is_valid_domain("example.com"));
    assert!(!is_valid_domain(""));
    assert!(!is_valid_domain("matrix.org/path"));
    assert!(!is_valid_domain("matrix.org:8448"));
}

#[test]
fn mxid_host_is_extracted() {
    assert_eq!(
        extract_domain_from_mxid("@alice:example.org"),
        Some("example.org".to_string())
    );
}

#[test]
fn mxid_without_at_or_colon_yields_none() {
    assert_eq!(extract_domain_from_mxid("alice:example.org"), None);
    assert_eq!(extract_domain_from_mxid("@alice.example.org"), None);
    assert_eq!(extract_domain_from_mxid(""), None);
}

#[test]
fn mxid_splits_at_first_colon() {
    assert_eq!(
        extract_domain_from_mxid("@a:b.org:8448"),
        Some("b.org:8448".to_string())
    );
}

#[test]
fn text_extraction_finds_and_trims_domains() {
    let found = extract_domains_from_text("join us at example.org/ or chat.example.com now");
    // the pattern matches one label and its suffix, so the nested name
    // yields its first two labels
    assert_eq!(
        found,
        vec!["example.org".to_string(), "chat.example".to_string()]
    );
}

#[test]
fn text_extraction_excludes_onion_addresses() {
    let found = extract_domains_from_text("hidden at somewhere.onion but open at open.net");
    assert_eq!(found, vec!["open.net".to_string()]);
}

#[test]
fn text_extraction_on_plain_text_is_empty() {
    let found = extract_domains_from_text("no domains here at all");
    assert_eq!(found, Vec::<String>::new());
}

#[test]
fn seed_list_splits_on_commas() {
    assert_eq!(
        split_seed_servers("matrix.org,example.com"),
        vec!["matrix.org".to_string(), "example.com".to_string()]
    );
    assert_eq!(split_seed_servers("matrix.org"), vec!["matrix.org".to_string()]);
    assert_eq!(
        split_seed_servers("a,,b"),
        vec!["a".to_string(), "".to_string(), "b".to_string()]
    );
    assert_eq!(split_seed_servers(""), vec!["".to_string()]);
}

#[test]
fn dedup_keeps_first_occurrence() {
    let v = vec![
        "a.org".to_string(),
        "b.org".to_string(),
        "a.org".to_string(),
        "c.org".to_string(),
        "b.org".to_string(),
    ];
    assert_eq!(
        dedup_strings(&v),
        vec!["a.org".to_string(), "b.org".to_string(), "c.org".to_string()]
    );
}
