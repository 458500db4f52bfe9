use mxindex::services::{classify_probe_error, Capabilities, CapabilitiesResponse,
    ChangePassword, FederationVersionInfo, MatrixService, RoomVersions, WellKnownClientInfo,
    WellKnownServerInfo};

fn plain_well_known_client() -> WellKnownClientInfo {
    WellKnownClientInfo {
        name: None,
        description: None,
        logo_url: None,
        theme: None,
    }
}

#[test]
fn test_server_url_format() {
    let server = "matrix.org";
    let expected = "https://matrix.org";
    assert_eq!(format!("https://{}", server), expected);
}

#[test]
fn test_well_known_client_url_format() {
    let domain = "matrix.org";
    let expected = "https://matrix.org/.well-known/matrix/client";
    assert_eq!(
        format!("https://{}/.well-known/matrix/client", domain),
        expected
    );
}

#[test]
fn test_well_known_server_url_format() {
    let domain = "matrix.org";
    let expected = "https://matrix.org/.well-known/matrix/server";
    assert_eq!(
        format!("https://{}/.well-known/matrix/server", domain),
        expected
    );
}

#[test]
fn test_federation_version_url_format() {
    let server = "matrix.org";
    let expected = "https://matrix.org/_matrix/federation/v1/version";
    assert_eq!(
        format!("https://{}/_matrix/federation/v1/version", server),
        expected
    );
}

#[test]
fn discover_composes_capabilities_and_counts() {
    let caps = CapabilitiesResponse {
        capabilities: Some(Capabilities {
            change_password: Some(ChangePassword { enabled: Some(true) }),
            room_versions: Some(RoomVersions {
                available: Some(vec!["6".to_string(), "9".to_string()]),
            }),
        }),
    };
    let info = MatrixService::discover_server_info(
        Some(&caps),
        Some(42),
        Some(&plain_well_known_client()),
        None,
        None,
        Some(&WellKnownServerInfo { m_server: None }),
    )
    .expect("several endpoints answered");
    assert_eq!(info.registration_open, Some(true));
    assert_eq!(info.room_versions, Some("6,9".to_string()));
    assert_eq!(info.public_rooms_count, Some(42));
    assert_eq!(info.version, None);
    assert_eq!(info.federation_version, None);
}

#[test]
fn discover_fails_only_for_unreachable_servers() {
    let r = MatrixService::discover_server_info(None, None, None, None, None, None);
    assert!(r.is_none());
}

#[test]
fn discover_degrades_missing_well_known_answers() {
    let caps = CapabilitiesResponse {
        capabilities: Some(Capabilities {
            change_password: Some(ChangePassword { enabled: Some(false) }),
            room_versions: None,
        }),
    };
    let info = MatrixService::discover_server_info(Some(&caps), Some(3), None, None, None, None)
        .expect("one endpoint answered, so the probe succeeds");
    assert_eq!(info.registration_open, Some(false));
    assert_eq!(info.public_rooms_count, Some(3));
    assert_eq!(info.name, None);
    assert_eq!(info.theme, None);
    assert_eq!(info.delegated_server, None);
}

#[test]
fn discover_joins_versions_and_reads_delegation() {
    let info = MatrixService::discover_server_info(
        None,
        None,
        Some(&WellKnownClientInfo {
            name: Some("Test Server".to_string()),
            description: Some("A test server".to_string()),
            logo_url: Some("https://test.org/logo.png".to_string()),
            theme: Some("dark".to_string()),
        }),
        Some(&vec!["r0.6.1".to_string(), "v1.1".to_string()]),
        Some(&FederationVersionInfo { server: Some("Synapse/1.99".to_string()) }),
        Some(&WellKnownServerInfo { m_server: Some("test.org:8448".to_string()) }),
    )
    .unwrap();
    assert_eq!(info.name, Some("Test Server".to_string()));
    assert_eq!(info.theme, Some("dark".to_string()));
    assert_eq!(info.version, Some("r0.6.1, v1.1".to_string()));
    assert_eq!(info.federation_version, Some("Synapse/1.99".to_string()));
    assert_eq!(info.delegated_server, Some("test.org:8448".to_string()));
    assert_eq!(info.registration_open, None);
    assert_eq!(info.room_versions, None);
}

#[test]
fn probe_errors_classify_by_message() {
    assert_eq!(classify_probe_error("dns lookup failed"), "dns_error");
    assert_eq!(classify_probe_error("could not connect to host"), "connection_error");
    assert_eq!(classify_probe_error("HTTP status 500"), "server_error");
}

#[test]
fn room_count_clamps_to_non_negative_32_bit() {
    assert_eq!(MatrixService::clamp_room_count(-5), 0);
    assert_eq!(MatrixService::clamp_room_count(0), 0);
    assert_eq!(MatrixService::clamp_room_count(42), 42);
    assert_eq!(MatrixService::clamp_room_count(i64::MAX), i32::MAX);
}

#[test]
fn status_codes_in_the_two_hundreds_succeed() {
    assert!(MatrixService::status_is_success(200));
    assert!(MatrixService::status_is_success(299));
    assert!(!MatrixService::status_is_success(199));
    assert!(!MatrixService::status_is_success(404));
}
