//! Probe composition: turning what the well-known endpoints answered into a
//! single discovery record, classifying probe failures, and clamping counts.
//!
//! Fetching itself is I/O and lives outside the library; these functions take
//! the decoded answers as plain values. A sub-probe that failed arrives as
//! `None` and degrades the matching fields to unknown; the probe fails as a
//! whole only for an unreachable server, one no endpoint answered for.

use vstd::prelude::*;

use crate::models::{DiscoveredServerInfo, DiscoveredView};
use crate::strutil::{has_sub, join_sep, join_strings, str_contains};

verus! {

// ---------------------------------------------------------------------------
// Decoded endpoint answers
// ---------------------------------------------------------------------------

/// The `enabled` flag of the change-password capability.
pub struct ChangePassword {
    pub enabled: Option<bool>,
}

/// The advertised room versions.
pub struct RoomVersions {
    pub available: Option<Vec<String>>,
}

/// Ghost image of [`RoomVersions`].
pub ghost struct RoomVersionsView {
    pub available: Option<Seq<Seq<char>>>,
}

impl View for RoomVersions {
    type V = RoomVersionsView;

    open spec fn view(&self) -> RoomVersionsView {
        RoomVersionsView { available: self.available.deep_view() }
    }
}

/// The two capabilities the index reads.
pub struct Capabilities {
    pub change_password: Option<ChangePassword>,
    pub room_versions: Option<RoomVersions>,
}

/// Ghost image of [`Capabilities`].
pub ghost struct CapabilitiesView {
    pub change_password: Option<Option<bool>>,
    pub room_versions: Option<RoomVersionsView>,
}

impl View for Capabilities {
    type V = CapabilitiesView;

    open spec fn view(&self) -> CapabilitiesView {
        CapabilitiesView {
            change_password: match self.change_password {
                Some(ref cp) => Some(cp.enabled),
                None => None,
            },
            room_versions: match self.room_versions {
                Some(ref rv) => Some(rv@),
                None => None,
            },
        }
    }
}

/// The body of the capabilities endpoint.
pub struct CapabilitiesResponse {
    pub capabilities: Option<Capabilities>,
}

/// Ghost image of [`CapabilitiesResponse`].
pub ghost struct CapabilitiesResponseView {
    pub capabilities: Option<CapabilitiesView>,
}

impl View for CapabilitiesResponse {
    type V = CapabilitiesResponseView;

    open spec fn view(&self) -> CapabilitiesResponseView {
        CapabilitiesResponseView {
            capabilities: match self.capabilities {
                Some(ref c) => Some(c@),
                None => None,
            },
        }
    }
}

/// The well-known client document.
pub struct WellKnownClientInfo {
    pub name: Option<String>,
    pub description: Option<String>,
    pub logo_url: Option<String>,
    pub theme: Option<String>,
}

/// Ghost image of [`WellKnownClientInfo`].
pub ghost struct WellKnownClientInfoView {
    pub name: Option<Seq<char>>,
    pub description: Option<Seq<char>>,
    pub logo_url: Option<Seq<char>>,
    pub theme: Option<Seq<char>>,
}

impl View for WellKnownClientInfo {
    type V = WellKnownClientInfoView;

    open spec fn view(&self) -> WellKnownClientInfoView {
        WellKnownClientInfoView {
            name: self.name.deep_view(),
            description: self.description.deep_view(),
            logo_url: self.logo_url.deep_view(),
            theme: self.theme.deep_view(),
        }
    }
}

/// The well-known server document: the delegated server name.
pub struct WellKnownServerInfo {
    pub m_server: Option<String>,
}

/// Ghost image of [`WellKnownServerInfo`].
pub ghost struct WellKnownServerInfoView {
    pub m_server: Option<Seq<char>>,
}

impl View for WellKnownServerInfo {
    type V = WellKnownServerInfoView;

    open spec fn view(&self) -> WellKnownServerInfoView {
        WellKnownServerInfoView { m_server: self.m_server.deep_view() }
    }
}

/// The federation version document: the server software name.
pub struct FederationVersionInfo {
    pub server: Option<String>,
}

/// Ghost image of [`FederationVersionInfo`].
pub ghost struct FederationVersionInfoView {
    pub server: Option<Seq<char>>,
}

impl View for FederationVersionInfo {
    type V = FederationVersionInfoView;

    open spec fn view(&self) -> FederationVersionInfoView {
        FederationVersionInfoView { server: self.server.deep_view() }
    }
}

// ---------------------------------------------------------------------------
// Composition
// ---------------------------------------------------------------------------

/// Registration openness derived from the capabilities chain; unknown when
/// any link of the chain is missing.
pub open spec fn spec_registration_open(caps: Option<CapabilitiesResponseView>) -> Option<bool> {
    match caps {
        Some(c) => match c.capabilities {
            Some(cc) => match cc.change_password {
                Some(cp) => cp,
                None => None,
            },
            None => None,
        },
        None => None,
    }
}

/// Room versions derived from the capabilities chain, comma-joined; unknown
/// when any link of the chain is missing.
pub open spec fn spec_room_versions(caps: Option<CapabilitiesResponseView>) -> Option<Seq<char>> {
    match caps {
        Some(c) => match c.capabilities {
            Some(cc) => match cc.room_versions {
                Some(rv) => match rv.available {
                    Some(v) => Some(join_sep(v, ","@)),
                    None => None,
                },
                None => None,
            },
            None => None,
        },
        None => None,
    }
}

/// The record a probe composes from the endpoint answers. A missing answer
/// leaves exactly its own fields unknown.
pub open spec fn spec_discovered(
    caps: Option<CapabilitiesResponseView>,
    public_rooms_count: Option<i32>,
    wk_client: Option<WellKnownClientInfoView>,
    version_list: Option<Seq<Seq<char>>>,
    federation: Option<FederationVersionInfoView>,
    wk_server: Option<WellKnownServerInfoView>,
) -> DiscoveredView {
    DiscoveredView {
        name: match wk_client {
            Some(w) => w.name,
            None => None,
        },
        description: match wk_client {
            Some(w) => w.description,
            None => None,
        },
        logo_url: match wk_client {
            Some(w) => w.logo_url,
            None => None,
        },
        theme: match wk_client {
            Some(w) => w.theme,
            None => None,
        },
        registration_open: spec_registration_open(caps),
        public_rooms_count: public_rooms_count,
        version: match version_list {
            Some(v) => Some(join_sep(v, ", "@)),
            None => None,
        },
        federation_version: match federation {
            Some(f) => match f.server {
                Some(s) => Some(s),
                None => Some(Seq::empty()),
            },
            None => None,
        },
        delegated_server: match wk_server {
            Some(w) => w.m_server,
            None => None,
        },
        room_versions: spec_room_versions(caps),
    }
}

/// The probe facade: pure composition and classification helpers.
pub struct MatrixService;

impl MatrixService {
    /// Compose a discovery record from the endpoint answers.
    ///
    /// Every sub-probe is independent: an answer that is absent leaves only
    /// its own fields unknown. The probe fails as a whole exactly when the
    /// server is unreachable, that is, when no endpoint answered at all.
    pub fn discover_server_info(
        capabilities: Option<&CapabilitiesResponse>,
        public_rooms_count: Option<i32>,
        well_known_client: Option<&WellKnownClientInfo>,
        version_list: Option<&Vec<String>>,
        federation: Option<&FederationVersionInfo>,
        well_known_server: Option<&WellKnownServerInfo>,
    ) -> (r: Option<DiscoveredServerInfo>)
        ensures
            r is Some <==> (capabilities is Some || public_rooms_count is Some
                || well_known_client is Some || version_list is Some || federation is Some
                || well_known_server is Some),
            r matches Some(info) ==> {
                let capsv = match capabilities {
                    Some(c) => Some(c@),
                    None => None,
                };
                let wkcv = match well_known_client {
                    Some(w) => Some(w@),
                    None => None,
                };
                let vlv = match version_list {
                    Some(v) => Some(v.deep_view()),
                    None => None,
                };
                let fedv = match federation {
                    Some(f) => Some(f@),
                    None => None,
                };
                let wksv = match well_known_server {
                    Some(w) => Some(w@),
                    None => None,
                };
                info@ == spec_discovered(
                    capsv,
                    public_rooms_count,
                    wkcv,
                    vlv,
                    fedv,
                    wksv,
                )
            },
    {
        let reachable = capabilities.is_some() || public_rooms_count.is_some()
            || well_known_client.is_some() || version_list.is_some() || federation.is_some()
            || well_known_server.is_some();
        if !reachable {
            return None;
        }
        let registration_open: Option<bool> = match capabilities {
            Some(c) => match &c.capabilities {
                Some(cc) => match &cc.change_password {
                    Some(cp) => cp.enabled,
                    None => None,
                },
                None => None,
            },
            None => None,
        };
        let room_versions: Option<String> = match capabilities {
            Some(c) => match &c.capabilities {
                Some(cc) => match &cc.room_versions {
                    Some(rv) => match &rv.available {
                        Some(v) => Some(join_strings(v, ",")),
                        None => None,
                    },
                    None => None,
                },
                None => None,
            },
            None => None,
        };
        let version: Option<String> = match version_list {
            Some(v) => Some(join_strings(v, ", ")),
            None => None,
        };
        let federation_version: Option<String> = match federation {
            Some(f) => match &f.server {
                Some(s) => Some(s.clone()),
                None => Some(String::new()),
            },
            None => None,
        };
        let (name, description, logo_url, theme) = match well_known_client {
            Some(w) => (w.name.clone(), w.description.clone(), w.logo_url.clone(), w.theme.clone()),
            None => (None, None, None, None),
        };
        let delegated_server: Option<String> = match well_known_server {
            Some(w) => w.m_server.clone(),
            None => None,
        };
        Some(
            DiscoveredServerInfo {
                name,
                description,
                logo_url,
                theme,
                registration_open,
                public_rooms_count,
                version,
                federation_version,
                delegated_server,
                room_versions,
            },
        )
    }

    /// Whether an HTTP status code reports success.
    pub fn status_is_success(code: u16) -> (r: bool)
        ensures
            r == (200 <= code < 300),
    {
        200 <= code && code < 300
    }

    /// Clamp a room-count estimate to a non-negative 32-bit value.
    pub fn clamp_room_count(estimate: i64) -> (r: i32)
        ensures
            estimate < 0 ==> r == 0,
            0 <= estimate <= i32::MAX ==> r == estimate,
            estimate > i32::MAX ==> r == i32::MAX,
    {
        if estimate < 0 {
            0
        } else if estimate > (i32::MAX as i64) {
            i32::MAX
        } else {
            estimate as i32
        }
    }
}

// ---------------------------------------------------------------------------
// Failure classification
// ---------------------------------------------------------------------------

/// The error kind read off a transport failure message: `dns_error` when the
/// message mentions `dns`, else `connection_error` when it mentions
/// `connect`, else `server_error`.
pub open spec fn spec_classify_error(msg: Seq<char>) -> Seq<char> {
    if has_sub(msg, "dns"@) {
        "dns_error"@
    } else if has_sub(msg, "connect"@) {
        "connection_error"@
    } else {
        "server_error"@
    }
}

/// Classify a transport failure message into a stable error kind.
pub fn classify_probe_error(msg: &str) -> (r: String)
    ensures
        r@ == spec_classify_error(msg@),
{
    if str_contains(msg, "dns") {
        String::from_str("dns_error")
    } else if str_contains(msg, "connect") {
        String::from_str("connection_error")
    } else {
        String::from_str("server_error")
    }
}

} // verus!
