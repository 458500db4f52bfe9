use mxindex::models::{ApiInfo, CreateServerRequest, DiscoveredServerInfo, ErrorResponse,
    ServerInfo, ServerResponse};

#[test]
fn test_api_info_default() {
    let info = ApiInfo {
        name: "test".to_string(),
        version: "1.0.0".to_string(),
        description: "Test API".to_string(),
    };

    assert_eq!(info.name, "test");
    assert_eq!(info.version, "1.0.0");
}

#[test]
fn test_server_info_online() {
    let info = ServerInfo {
        server: "matrix.org".to_string(),
        status: "online".to_string(),
        version: Some("v1.0".to_string()),
        error: None,
    };

    assert_eq!(info.status, "online");
    assert!(info.error.is_none());
}

#[test]
fn test_server_info_offline() {
    let info = ServerInfo {
        server: "invalid.server".to_string(),
        status: "offline".to_string(),
        version: None,
        error: Some("connection_error".to_string()),
    };

    assert_eq!(info.status, "offline");
    assert!(info.error.is_some());
}

#[test]
fn test_error_response() {
    let err = ErrorResponse {
        error: "invalid_domain".to_string(),
        message: "Domain is invalid".to_string(),
    };

    assert_eq!(err.error, "invalid_domain");
}

#[test]
fn test_create_server_request() {
    let req = CreateServerRequest {
        domain: "matrix.org".to_string(),
    };

    assert_eq!(req.domain, "matrix.org");
}

#[test]
fn test_discovered_server_info_default() {
    let info = DiscoveredServerInfo {
        name: None,
        description: None,
        logo_url: None,
        theme: None,
        registration_open: None,
        public_rooms_count: None,
        version: None,
        federation_version: None,
        delegated_server: None,
        room_versions: None,
    };

    assert!(info.name.is_none());
    assert!(info.description.is_none());
    assert!(info.logo_url.is_none());
    assert!(info.theme.is_none());
    assert!(info.registration_open.is_none());
    assert!(info.public_rooms_count.is_none());
}

#[test]
fn test_discovered_server_info_with_values() {
    let info = DiscoveredServerInfo {
        name: Some("Test Server".to_string()),
        description: Some("A test server".to_string()),
        logo_url: Some("https://test.org/logo.png".to_string()),
        theme: Some("dark".to_string()),
        registration_open: Some(true),
        public_rooms_count: Some(100),
        version: Some("v1.11".to_string()),
        federation_version: Some("Synapse/1.99".to_string()),
        delegated_server: Some("test.org:8448".to_string()),
        room_versions: Some("1,2,6".to_string()),
    };

    assert_eq!(info.name, Some("Test Server".to_string()));
    assert_eq!(info.description, Some("A test server".to_string()));
    assert_eq!(info.logo_url, Some("https://test.org/logo.png".to_string()));
    assert_eq!(info.theme, Some("dark".to_string()));
    assert_eq!(info.registration_open, Some(true));
    assert_eq!(info.public_rooms_count, Some(100));
}

#[test]
fn test_server_response() {
    let response = ServerResponse {
        id: 1,
        domain: "matrix.org".to_string(),
        name: Some("Matrix.org".to_string()),
        description: Some("The Matrix.org homeserver".to_string()),
        logo_url: Some("https://matrix.org/images/logo.png".to_string()),
        theme: Some("light".to_string()),
        registration_open: Some(true),
        public_rooms_count: Some(500),
        version: Some("v1.11".to_string()),
        federation_version: Some("Synapse/1.99".to_string()),
        delegated_server: None,
        room_versions: Some("1,2,6,9".to_string()),
        created_at: 1704067200,
        updated_at: 1704067200,
    };

    assert_eq!(response.id, 1);
    assert_eq!(response.domain, "matrix.org");
}
