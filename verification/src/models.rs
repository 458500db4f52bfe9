//! Data model: server records, probe results, query shapes and API bodies.
//!
//! Timestamps are plain seconds since the Unix epoch; each type carries a
//! ghost view over character sequences so that contracts can speak about
//! contents directly.

use vstd::prelude::*;

verus! {

// ---------------------------------------------------------------------------
// Views
// ---------------------------------------------------------------------------

/// Ghost image of a persisted server record.
pub ghost struct ServerView {
    pub id: i64,
    pub domain: Seq<char>,
    pub name: Option<Seq<char>>,
    pub description: Option<Seq<char>>,
    pub logo_url: Option<Seq<char>>,
    pub theme: Option<Seq<char>>,
    pub registration_open: Option<bool>,
    pub public_rooms_count: Option<i32>,
    pub version: Option<Seq<char>>,
    pub federation_version: Option<Seq<char>>,
    pub delegated_server: Option<Seq<char>>,
    pub room_versions: Option<Seq<char>>,
    pub created_at: u64,
    pub updated_at: u64,
}

/// Ghost image of a probe result.
pub ghost struct DiscoveredView {
    pub name: Option<Seq<char>>,
    pub description: Option<Seq<char>>,
    pub logo_url: Option<Seq<char>>,
    pub theme: Option<Seq<char>>,
    pub registration_open: Option<bool>,
    pub public_rooms_count: Option<i32>,
    pub version: Option<Seq<char>>,
    pub federation_version: Option<Seq<char>>,
    pub delegated_server: Option<Seq<char>>,
    pub room_versions: Option<Seq<char>>,
}

/// Ghost image of a record to be inserted.
pub ghost struct NewServerView {
    pub domain: Seq<char>,
    pub info: DiscoveredView,
}

/// Ghost image of a query shape.
pub ghost struct FilterView {
    pub search: Option<Seq<char>>,
    pub registration_open: Option<bool>,
    pub has_rooms: Option<bool>,
    pub room_version: Option<Seq<char>>,
    pub sort_by: Option<Seq<char>>,
    pub sort_order: Option<Seq<char>>,
    pub limit: Option<i32>,
    pub offset: Option<i32>,
}

/// Ghost image of a liveness report.
pub ghost struct ServerInfoView {
    pub server: Seq<char>,
    pub status: Seq<char>,
    pub version: Option<Seq<char>>,
    pub error: Option<Seq<char>>,
}

/// Ghost image of an error body.
pub ghost struct ErrorResponseView {
    pub error: Seq<char>,
    pub message: Seq<char>,
}

/// Ghost image of a page of records.
pub ghost struct PageView {
    pub servers: Seq<ServerView>,
    pub total: i64,
    pub limit: i32,
    pub offset: i32,
}

// ---------------------------------------------------------------------------
// Exec types
// ---------------------------------------------------------------------------

/// Service self-description returned at the root endpoint.
#[derive(Debug)]
pub struct ApiInfo {
    pub name: String,
    pub version: String,
    pub description: String,
}

/// Liveness report for one server.
#[derive(Debug)]
pub struct ServerInfo {
    pub server: String,
    pub status: String,
    pub version: Option<String>,
    pub error: Option<String>,
}

impl View for ServerInfo {
    type V = ServerInfoView;

    open spec fn view(&self) -> ServerInfoView {
        ServerInfoView {
            server: self.server@,
            status: self.status@,
            version: self.version.deep_view(),
            error: self.error.deep_view(),
        }
    }
}

impl ServerInfo {
    /// Copy, preserving the view.
    pub fn duplicate(&self) -> (r: ServerInfo)
        ensures
            r@ == self@,
    {
        ServerInfo {
            server: self.server.clone(),
            status: self.status.clone(),
            version: self.version.clone(),
            error: self.error.clone(),
        }
    }
}

/// Error body surfaced to callers: a stable kind and a free-form message.
#[derive(Debug)]
pub struct ErrorResponse {
    pub error: String,
    pub message: String,
}

impl View for ErrorResponse {
    type V = ErrorResponseView;

    open spec fn view(&self) -> ErrorResponseView {
        ErrorResponseView { error: self.error@, message: self.message@ }
    }
}

/// Body of a submit-server request.
#[derive(Debug)]
pub struct CreateServerRequest {
    pub domain: String,
}

/// Attributes learned by probing a server; every field may be unknown.
#[derive(Debug)]
pub struct DiscoveredServerInfo {
    pub name: Option<String>,
    pub description: Option<String>,
    pub logo_url: Option<String>,
    pub theme: Option<String>,
    pub registration_open: Option<bool>,
    pub public_rooms_count: Option<i32>,
    pub version: Option<String>,
    pub federation_version: Option<String>,
    pub delegated_server: Option<String>,
    pub room_versions: Option<String>,
}

impl View for DiscoveredServerInfo {
    type V = DiscoveredView;

    open spec fn view(&self) -> DiscoveredView {
        DiscoveredView {
            name: self.name.deep_view(),
            description: self.description.deep_view(),
            logo_url: self.logo_url.deep_view(),
            theme: self.theme.deep_view(),
            registration_open: self.registration_open,
            public_rooms_count: self.public_rooms_count,
            version: self.version.deep_view(),
            federation_version: self.federation_version.deep_view(),
            delegated_server: self.delegated_server.deep_view(),
            room_versions: self.room_versions.deep_view(),
        }
    }
}

impl DeepView for DiscoveredServerInfo {
    type V = DiscoveredView;

    open spec fn deep_view(&self) -> DiscoveredView {
        self.view()
    }
}

impl DiscoveredServerInfo {
    /// Copy, preserving the view.
    pub fn duplicate(&self) -> (r: DiscoveredServerInfo)
        ensures
            r@ == self@,
    {
        DiscoveredServerInfo {
            name: self.name.clone(),
            description: self.description.clone(),
            logo_url: self.logo_url.clone(),
            theme: self.theme.clone(),
            registration_open: self.registration_open,
            public_rooms_count: self.public_rooms_count,
            version: self.version.clone(),
            federation_version: self.federation_version.clone(),
            delegated_server: self.delegated_server.clone(),
            room_versions: self.room_versions.clone(),
        }
    }
}

/// A persisted server record.
#[derive(Debug)]
pub struct Server {
    pub id: i64,
    pub domain: String,
    pub name: Option<String>,
    pub description: Option<String>,
    pub logo_url: Option<String>,
    pub theme: Option<String>,
    pub registration_open: Option<bool>,
    pub public_rooms_count: Option<i32>,
    pub version: Option<String>,
    pub federation_version: Option<String>,
    pub delegated_server: Option<String>,
    pub room_versions: Option<String>,
    pub created_at: u64,
    pub updated_at: u64,
}

impl View for Server {
    type V = ServerView;

    open spec fn view(&self) -> ServerView {
        ServerView {
            id: self.id,
            domain: self.domain@,
            name: self.name.deep_view(),
            description: self.description.deep_view(),
            logo_url: self.logo_url.deep_view(),
            theme: self.theme.deep_view(),
            registration_open: self.registration_open,
            public_rooms_count: self.public_rooms_count,
            version: self.version.deep_view(),
            federation_version: self.federation_version.deep_view(),
            delegated_server: self.delegated_server.deep_view(),
            room_versions: self.room_versions.deep_view(),
            created_at: self.created_at,
            updated_at: self.updated_at,
        }
    }
}

impl DeepView for Server {
    type V = ServerView;

    open spec fn deep_view(&self) -> ServerView {
        self.view()
    }
}

impl Server {
    /// Copy, preserving the view.
    pub fn duplicate(&self) -> (r: Server)
        ensures
            r@ == self@,
    {
        Server {
            id: self.id,
            domain: self.domain.clone(),
            name: self.name.clone(),
            description: self.description.clone(),
            logo_url: self.logo_url.clone(),
            theme: self.theme.clone(),
            registration_open: self.registration_open,
            public_rooms_count: self.public_rooms_count,
            version: self.version.clone(),
            federation_version: self.federation_version.clone(),
            delegated_server: self.delegated_server.clone(),
            room_versions: self.room_versions.clone(),
            created_at: self.created_at,
            updated_at: self.updated_at,
        }
    }
}

/// A record to be inserted: a domain together with probed attributes.
#[derive(Debug)]
pub struct NewServer {
    pub domain: String,
    pub name: Option<String>,
    pub description: Option<String>,
    pub logo_url: Option<String>,
    pub theme: Option<String>,
    pub registration_open: Option<bool>,
    pub public_rooms_count: Option<i32>,
    pub version: Option<String>,
    pub federation_version: Option<String>,
    pub delegated_server: Option<String>,
    pub room_versions: Option<String>,
}

impl View for NewServer {
    type V = NewServerView;

    open spec fn view(&self) -> NewServerView {
        NewServerView {
            domain: self.domain@,
            info: DiscoveredView {
                name: self.name.deep_view(),
                description: self.description.deep_view(),
                logo_url: self.logo_url.deep_view(),
                theme: self.theme.deep_view(),
                registration_open: self.registration_open,
                public_rooms_count: self.public_rooms_count,
                version: self.version.deep_view(),
                federation_version: self.federation_version.deep_view(),
                delegated_server: self.delegated_server.deep_view(),
                room_versions: self.room_versions.deep_view(),
            },
        }
    }
}

impl NewServer {
    /// Bundle a domain with the attributes a probe discovered.
    pub fn from_discovered(domain: &str, info: &DiscoveredServerInfo) -> (r: NewServer)
        ensures
            r@.domain == domain@,
            r@.info == info@,
    {
        NewServer {
            domain: String::from_str(domain),
            name: info.name.clone(),
            description: info.description.clone(),
            logo_url: info.logo_url.clone(),
            theme: info.theme.clone(),
            registration_open: info.registration_open,
            public_rooms_count: info.public_rooms_count,
            version: info.version.clone(),
            federation_version: info.federation_version.clone(),
            delegated_server: info.delegated_server.clone(),
            room_versions: info.room_versions.clone(),
        }
    }
}

/// Query shape for filtered reads; unset fields fall back to defaults.
#[derive(Debug)]
pub struct ServerFilter {
    pub search: Option<String>,
    pub registration_open: Option<bool>,
    pub has_rooms: Option<bool>,
    pub room_version: Option<String>,
    pub sort_by: Option<String>,
    pub sort_order: Option<String>,
    pub limit: Option<i32>,
    pub offset: Option<i32>,
}

impl View for ServerFilter {
    type V = FilterView;

    open spec fn view(&self) -> FilterView {
        FilterView {
            search: self.search.deep_view(),
            registration_open: self.registration_open,
            has_rooms: self.has_rooms,
            room_version: self.room_version.deep_view(),
            sort_by: self.sort_by.deep_view(),
            sort_order: self.sort_order.deep_view(),
            limit: self.limit,
            offset: self.offset,
        }
    }
}

/// The filter with every field unset.
pub open spec fn spec_default_filter() -> FilterView {
    FilterView {
        search: None,
        registration_open: None,
        has_rooms: None,
        room_version: None,
        sort_by: None,
        sort_order: None,
        limit: None,
        offset: None,
    }
}

impl Default for ServerFilter {
    /// The filter with every field unset.
    fn default() -> (r: ServerFilter)
        ensures
            r@ == spec_default_filter(),
    {
        ServerFilter {
            search: None,
            registration_open: None,
            has_rooms: None,
            room_version: None,
            sort_by: None,
            sort_order: None,
            limit: None,
            offset: None,
        }
    }
}

/// A record as rendered to API callers.
#[derive(Debug)]
pub struct ServerResponse {
    pub id: i64,
    pub domain: String,
    pub name: Option<String>,
    pub description: Option<String>,
    pub logo_url: Option<String>,
    pub theme: Option<String>,
    pub registration_open: Option<bool>,
    pub public_rooms_count: Option<i32>,
    pub version: Option<String>,
    pub federation_version: Option<String>,
    pub delegated_server: Option<String>,
    pub room_versions: Option<String>,
    pub created_at: u64,
    pub updated_at: u64,
}

impl View for ServerResponse {
    type V = ServerView;

    open spec fn view(&self) -> ServerView {
        ServerView {
            id: self.id,
            domain: self.domain@,
            name: self.name.deep_view(),
            description: self.description.deep_view(),
            logo_url: self.logo_url.deep_view(),
            theme: self.theme.deep_view(),
            registration_open: self.registration_open,
            public_rooms_count: self.public_rooms_count,
            version: self.version.deep_view(),
            federation_version: self.federation_version.deep_view(),
            delegated_server: self.delegated_server.deep_view(),
            room_versions: self.room_versions.deep_view(),
            created_at: self.created_at,
            updated_at: self.updated_at,
        }
    }
}

impl DeepView for ServerResponse {
    type V = ServerView;

    open spec fn deep_view(&self) -> ServerView {
        self.view()
    }
}

impl ServerResponse {
    /// Render a stored record.
    pub fn from_server(s: &Server) -> (r: ServerResponse)
        ensures
            r@ == s@,
    {
        ServerResponse {
            id: s.id,
            domain: s.domain.clone(),
            name: s.name.clone(),
            description: s.description.clone(),
            logo_url: s.logo_url.clone(),
            theme: s.theme.clone(),
            registration_open: s.registration_open,
            public_rooms_count: s.public_rooms_count,
            version: s.version.clone(),
            federation_version: s.federation_version.clone(),
            delegated_server: s.delegated_server.clone(),
            room_versions: s.room_versions.clone(),
            created_at: s.created_at,
            updated_at: s.updated_at,
        }
    }

    /// Copy, preserving the view.
    pub fn duplicate(&self) -> (r: ServerResponse)
        ensures
            r@ == self@,
    {
        ServerResponse {
            id: self.id,
            domain: self.domain.clone(),
            name: self.name.clone(),
            description: self.description.clone(),
            logo_url: self.logo_url.clone(),
            theme: self.theme.clone(),
            registration_open: self.registration_open,
            public_rooms_count: self.public_rooms_count,
            version: self.version.clone(),
            federation_version: self.federation_version.clone(),
            delegated_server: self.delegated_server.clone(),
            room_versions: self.room_versions.clone(),
            created_at: self.created_at,
            updated_at: self.updated_at,
        }
    }
}

/// A page of rendered records together with the size of the whole result.
#[derive(Debug)]
pub struct PaginatedServersResponse {
    pub servers: Vec<ServerResponse>,
    pub total: i64,
    pub limit: i32,
    pub offset: i32,
}

impl View for PaginatedServersResponse {
    type V = PageView;

    open spec fn view(&self) -> PageView {
        PageView {
            servers: self.servers.deep_view(),
            total: self.total,
            limit: self.limit,
            offset: self.offset,
        }
    }
}

impl PaginatedServersResponse {
    /// Render a page of stored records.
    pub fn from_page(p: &PaginatedServers) -> (r: PaginatedServersResponse)
        ensures
            r@ == p@,
    {
        let mut servers: Vec<ServerResponse> = Vec::new();
        let mut i: usize = 0;
        while i < p.servers.len()
            invariant
                0 <= i <= p.servers.len(),
                servers.deep_view() =~= p.servers.deep_view().take(i as int),
            decreases p.servers.len() - i,
        {
            let ghost pre = servers.deep_view();
            servers.push(ServerResponse::from_server(&p.servers[i]));
            proof {
                assert(servers.deep_view() =~= pre.push(p.servers[i as int]@));
                assert(p.servers.deep_view().take(i + 1 as int) =~= p
                    .servers
                    .deep_view()
                    .take(i as int)
                    .push(p.servers[i as int]@));
            }
            i = i + 1;
        }
        proof {
            assert(p.servers.deep_view().take(p.servers.len() as int) =~= p.servers.deep_view());
        }
        let r = PaginatedServersResponse {
            servers,
            total: p.total,
            limit: p.limit,
            offset: p.offset,
        };
        proof {
            assert(r@.servers =~= p@.servers);
        }
        r
    }

    /// Copy, preserving the view.
    pub fn duplicate(&self) -> (r: PaginatedServersResponse)
        ensures
            r@ == self@,
    {
        let mut servers: Vec<ServerResponse> = Vec::new();
        let mut i: usize = 0;
        while i < self.servers.len()
            invariant
                0 <= i <= self.servers.len(),
                servers.deep_view() =~= self.servers.deep_view().take(i as int),
            decreases self.servers.len() - i,
        {
            let ghost pre = servers.deep_view();
            servers.push(self.servers[i].duplicate());
            proof {
                assert(servers.deep_view() =~= pre.push(self.servers[i as int].deep_view()));
                assert(self.servers.deep_view().take(i + 1 as int) =~= self
                    .servers
                    .deep_view()
                    .take(i as int)
                    .push(self.servers[i as int].deep_view()));
            }
            i = i + 1;
        }
        proof {
            assert(self.servers.deep_view().take(self.servers.len() as int) =~= self
                .servers
                .deep_view());
        }
        let r = PaginatedServersResponse {
            servers,
            total: self.total,
            limit: self.limit,
            offset: self.offset,
        };
        proof {
            assert(r@.servers =~= self@.servers);
        }
        r
    }
}

/// A page of stored records, before rendering.
#[derive(Debug)]
pub struct PaginatedServers {
    pub servers: Vec<Server>,
    pub total: i64,
    pub limit: i32,
    pub offset: i32,
}

impl View for PaginatedServers {
    type V = PageView;

    open spec fn view(&self) -> PageView {
        PageView {
            servers: self.servers.deep_view(),
            total: self.total,
            limit: self.limit,
            offset: self.offset,
        }
    }
}

} // verus!
