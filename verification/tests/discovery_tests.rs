use mxindex::federation_discovery::{add_server_to_index, discover_servers_from_public_rooms,
    FederationDiscovery, ProbeScript, RoomChunk};
use mxindex::models::DiscoveredServerInfo;
use mxindex::repo::{insert_server, server_exists, Repository};

fn empty_info() -> DiscoveredServerInfo {
    DiscoveredServerInfo {
        name: None,
        description: None,
        logo_url: None,
        theme: None,
        registration_open: None,
        public_rooms_count: None,
        version: None,
        federation_version: None,
        delegated_server: None,
        room_versions: None,
    }
}

fn new_server(domain: &str) -> mxindex::models::NewServer {
    mxindex::models::NewServer {
        domain: domain.to_string(),
        name: None,
        description: None,
        logo_url: None,
        theme: None,
        registration_open: None,
        public_rooms_count: None,
        version: None,
        federation_version: None,
        delegated_server: None,
        room_versions: None,
    }
}

fn chunk(heroes: &[&str], topic: Option<&str>) -> RoomChunk {
    RoomChunk {
        heroes: heroes.iter().map(|h| h.to_string()).collect(),
        topic: topic.map(|t| t.to_string()),
    }
}

fn script(domain: &str, peers: &[&[&str]], probed: bool) -> ProbeScript {
    ProbeScript {
        domain: domain.to_string(),
        rooms: Some(peers.iter().map(|hs| chunk(hs, None)).collect()),
        info: if probed { Some(empty_info()) } else { None },
    }
}

#[test]
fn config_defaults_apply() {
    let config = FederationDiscovery::new(None, None, None, None);
    assert_eq!(config.max_concurrent, 5);
    assert_eq!(config.max_depth, 3);
    assert_eq!(config.batch_size, 100);
    assert_eq!(config.seed_servers, vec!["matrix.org".to_string()]);

    let custom = FederationDiscovery::new(
        Some(2),
        Some(1),
        Some(10),
        Some(vec!["a.org".to_string()]),
    );
    assert_eq!(custom.max_concurrent, 2);
    assert_eq!(custom.max_depth, 1);
    assert_eq!(custom.batch_size, 10);
}

#[test]
fn peers_come_from_heroes_and_topics() {
    let chunks = vec![
        chunk(&["@u:b.org", "@v:c.org", "not-an-mxid"], None),
        chunk(&["@w:b.org"], Some("talk to us on d.org/ today")),
    ];
    let peers = discover_servers_from_public_rooms("a.org", &chunks);
    assert_eq!(
        peers,
        vec!["b.org".to_string(), "c.org".to_string(), "d.org".to_string()]
    );
}

#[test]
fn peers_exclude_the_origin_server() {
    let chunks = vec![chunk(&["@u:a.org", "@v:b.org"], Some("see a.org and b.org"))];
    let peers = discover_servers_from_public_rooms("a.org", &chunks);
    assert_eq!(peers, vec!["b.org".to_string()]);
}

#[test]
fn indexing_skips_invalid_known_and_unprobed_domains() {
    let mut repo = Repository::new();
    insert_server(&mut repo, &new_server("known.org"), 1).unwrap();

    assert!(!add_server_to_index(&mut repo, "bad:port", Some(&empty_info()), 2));
    assert!(!add_server_to_index(&mut repo, "", Some(&empty_info()), 2));
    assert!(!add_server_to_index(&mut repo, "known.org", Some(&empty_info()), 2));
    assert!(!add_server_to_index(&mut repo, "fresh.org", None, 2));
    assert_eq!(repo.len(), 1);

    assert!(add_server_to_index(&mut repo, "fresh.org", Some(&empty_info()), 2));
    assert_eq!(repo.len(), 2);
}

#[test]
fn bfs_walks_two_levels_and_counts_new_records() {
    // Seed A; A's rooms name B and C; B names D; C's probe fails; D is
    // already indexed.
    let mut repo = Repository::new();
    insert_server(&mut repo, &new_server("d.example"), 1).unwrap();

    let network = vec![
        script("a.example", &[&["@u:b.example", "@u:c.example"]], true),
        script("b.example", &[&["@u:d.example"]], true),
        ProbeScript { domain: "c.example".to_string(), rooms: None, info: None },
        script("d.example", &[], true),
    ];
    let config = FederationDiscovery::new(Some(2), Some(2), None, Some(vec![
        "a.example".to_string(),
    ]));
    let report = config.start_discovery(&mut repo, &network, 50);

    // B was inserted; C's record probe failed; D already existed.
    assert_eq!(report.added_count, 1);
    assert!(server_exists(&repo, "b.example"));
    assert!(!server_exists(&repo, "c.example"));
    assert_eq!(repo.len(), 2);

    // every reached domain was seen
    for d in ["a.example", "b.example", "c.example", "d.example"] {
        assert!(report.seen.iter().any(|s| s == d), "{} should be seen", d);
    }

    // no domain is probed twice
    for (i, a) in report.visited.iter().enumerate() {
        for b in report.visited.iter().skip(i + 1) {
            assert_ne!(a, b);
        }
    }
}

#[test]
fn discovery_never_readds_existing_records() {
    let mut repo = Repository::new();
    insert_server(&mut repo, &new_server("b.example"), 1).unwrap();
    let before = repo.len();

    let network = vec![
        script("a.example", &[&["@u:b.example"]], true),
        script("b.example", &[], true),
    ];
    let config = FederationDiscovery::new(None, Some(3), None, Some(vec![
        "a.example".to_string(),
    ]));
    let report = config.start_discovery(&mut repo, &network, 2);
    assert_eq!(report.added_count, 0);
    assert_eq!(repo.len(), before);
}

#[test]
fn batch_size_bounds_each_round() {
    // A names five peers, but the next frontier is capped at two; the
    // uncapped peers are still indexed in the round that found them.
    let network = vec![
        script(
            "a.example",
            &[&["@u:p1.org", "@u:p2.org", "@u:p3.org", "@u:p4.org", "@u:p5.org"]],
            true,
        ),
        script("p1.org", &[], true),
        script("p2.org", &[], true),
        script("p3.org", &[], true),
        script("p4.org", &[], true),
        script("p5.org", &[], true),
    ];
    let config = FederationDiscovery::new(None, Some(2), Some(2), Some(vec![
        "a.example".to_string(),
    ]));
    let mut repo = Repository::new();
    let report = config.start_discovery(&mut repo, &network, 9);
    assert_eq!(report.added_count, 5);
    // round two probed only the two that fit the batch
    assert_eq!(report.visited.len(), 3);
}

#[test]
fn duplicate_seeds_are_probed_once() {
    let network = vec![script("a.example", &[], true)];
    let config = FederationDiscovery::new(None, Some(3), None, Some(vec![
        "a.example".to_string(),
        "a.example".to_string(),
    ]));
    let mut repo = Repository::new();
    let report = config.start_discovery(&mut repo, &network, 1);
    assert_eq!(report.visited, vec!["a.example".to_string()]);
}
