//! The read path: API operations composed from the repository and the cache.
//!
//! Reads consult the cache first and fall back to the repository, writing the
//! fresh value back; a write inserts, then invalidates every affected key.
//! Cache failures are never fatal: they degrade to a miss or to a skipped
//! write-back.

use vstd::prelude::*;

use crate::cache::{
    glob_match, spec_delete, spec_entry, spec_expiry, spec_has_key, spec_invalidate, spec_live,
    spec_set, Cache, CacheValue, CacheValueView,
};
use crate::domain::{is_valid_domain, spec_valid_domain};
use crate::models::{
    ApiInfo, DiscoveredServerInfo, ErrorResponse, NewServer, NewServerView,
    PaginatedServersResponse, ServerFilter, ServerInfo, spec_default_filter,
};
use crate::repo::{
    get_filtered_servers, insert_server, server_exists, spec_find, spec_has_domain,
    spec_new_record, DbError, Repository,
};
use crate::services::{classify_probe_error, spec_classify_error};
use crate::strutil::int_str;

verus! {

/// Lifetime of a cached liveness report or search page, in seconds.
pub const CACHE_TTL_SHORT: u64 = 60;

/// Lifetime of the cached default listing, in seconds.
pub const CACHE_TTL_MEDIUM: u64 = 300;

/// Lifetime for slow-moving data, in seconds.
pub const CACHE_TTL_LONG: u64 = 3600;

/// Everything a request handler needs: the repository and the cache.
pub struct AppState {
    pub repo: Repository,
    pub cache: Cache,
}

impl AppState {
    /// Both components are well-formed.
    pub open spec fn inv(&self) -> bool {
        self.repo.wf() && self.cache.wf()
    }

    /// A fresh state: empty repository, unconnected empty cache.
    pub fn new() -> (r: AppState)
        ensures
            r.inv(),
            r.repo@ =~= Seq::<crate::models::ServerView>::empty(),
            !r.cache@.connected,
            r.cache@.entries =~= Seq::<crate::cache::CacheEntryView>::empty(),
    {
        AppState { repo: Repository::new(), cache: Cache::new() }
    }
}

fn err_response(kind: &str, message: &str) -> (r: ErrorResponse)
    ensures
        r@.error == kind@,
        r@.message == message@,
{
    ErrorResponse { error: String::from_str(kind), message: String::from_str(message) }
}

/// The service's self-description.
pub fn index() -> (r: ApiInfo)
    ensures
        r.name@ == "mxindex"@,
        r.version@ == "0.1.0"@,
        r.description@ == "Matrix homeserver index API"@,
{
    ApiInfo {
        name: String::from_str("mxindex"),
        version: String::from_str("0.1.0"),
        description: String::from_str("Matrix homeserver index API"),
    }
}

/// A health report.
pub struct HealthStatus {
    pub status: String,
    pub database: String,
}

/// Report availability; the in-memory repository is always reachable.
pub fn health(state: &AppState) -> (r: HealthStatus)
    ensures
        r.status@ == "healthy"@,
        r.database@ == "ok"@,
{
    let _ = state;
    HealthStatus { status: String::from_str("healthy"), database: String::from_str("ok") }
}

// ---------------------------------------------------------------------------
// Cache keys
// ---------------------------------------------------------------------------

/// The cache key for one server's liveness report.
pub open spec fn spec_server_info_key(domain: Seq<char>) -> Seq<char> {
    "server:info:"@ + domain
}

/// Build the cache key for one server's liveness report.
pub fn server_info_cache_key(domain: &str) -> (r: String)
    ensures
        r@ == spec_server_info_key(domain@),
{
    let mut key = String::from_str("server:info:");
    key.append(domain);
    key
}

/// The empty sequence for an unset value.
pub open spec fn spec_opt_part(o: Option<Seq<char>>) -> Seq<char> {
    match o {
        Some(s) => s,
        None => Seq::empty(),
    }
}

/// `true`/`false`, or empty for an unset value.
pub open spec fn spec_opt_bool_part(o: Option<bool>) -> Seq<char> {
    match o {
        Some(true) => "true"@,
        Some(false) => "false"@,
        None => Seq::empty(),
    }
}

/// The composite cache key of a search request, over the raw query values.
pub open spec fn spec_search_key(f: crate::models::FilterView) -> Seq<char> {
    "servers:search:"@ + spec_opt_part(f.search) + ":"@ + spec_opt_bool_part(f.registration_open)
        + ":"@ + spec_opt_bool_part(f.has_rooms) + ":"@ + spec_opt_part(f.room_version) + ":"@
        + spec_opt_part(f.sort_by) + ":"@ + spec_opt_part(f.sort_order) + ":"@ + int_str(
        match f.limit {
            Some(v) => v as int,
            None => 0,
        },
    ) + ":"@ + int_str(
        match f.offset {
            Some(v) => v as int,
            None => 0,
        },
    )
}

fn append_opt_part(key: &mut String, o: &Option<String>)
    ensures
        final(key)@ == old(key)@ + spec_opt_part(o.deep_view()),
{
    match o {
        Some(s) => key.append(s.as_str()),
        None => {
            proof {
                assert(old(key)@ + Seq::<char>::empty() =~= old(key)@);
            }
        },
    }
}

fn append_opt_bool_part(key: &mut String, o: Option<bool>)
    ensures
        final(key)@ == old(key)@ + spec_opt_bool_part(o),
{
    match o {
        Some(true) => key.append("true"),
        Some(false) => key.append("false"),
        None => {
            proof {
                assert(old(key)@ + Seq::<char>::empty() =~= old(key)@);
            }
        },
    }
}

/// Build the composite cache key of a search request.
pub fn make_search_cache_key(filter: &ServerFilter) -> (r: String)
    ensures
        r@ == spec_search_key(filter@),
{
    let mut key = String::from_str("servers:search:");
    append_opt_part(&mut key, &filter.search);
    key.append(":");
    append_opt_bool_part(&mut key, filter.registration_open);
    key.append(":");
    append_opt_bool_part(&mut key, filter.has_rooms);
    key.append(":");
    append_opt_part(&mut key, &filter.room_version);
    key.append(":");
    append_opt_part(&mut key, &filter.sort_by);
    key.append(":");
    append_opt_part(&mut key, &filter.sort_order);
    key.append(":");
    let limit: i64 = match filter.limit {
        Some(v) => v as i64,
        None => 0,
    };
    let limit_str = crate::strutil::i64_to_string(limit);
    key.append(limit_str.as_str());
    key.append(":");
    let offset: i64 = match filter.offset {
        Some(v) => v as i64,
        None => 0,
    };
    let offset_str = crate::strutil::i64_to_string(offset);
    key.append(offset_str.as_str());
    key
}

// ---------------------------------------------------------------------------
// Liveness reads
// ---------------------------------------------------------------------------

/// Look up a cached liveness report.
///
/// Rejects an invalid domain as `invalid_server`; otherwise `Ok(Some(..))`
/// exactly when a live report sits under the server's key.
pub fn server_info_cached(state: &AppState, server: &str, now: u64) -> (r: Result<
    Option<ServerInfo>,
    ErrorResponse,
>)
    requires
        state.inv(),
    ensures
        !spec_valid_domain(server@) ==> (r matches Err(e) && e@.error == "invalid_server"@),
        spec_valid_domain(server@) ==> {
            let c = state.cache@;
            let k = spec_server_info_key(server@);
            if c.connected && spec_live(c.entries, k, now) && (spec_entry(c.entries, k).value
                matches CacheValueView::Info(_)) {
                r matches Ok(o) && (o matches Some(info) && (spec_entry(c.entries, k).value
                    matches CacheValueView::Info(iv) && info@ == iv))
            } else {
                r == Result::<Option<ServerInfo>, ErrorResponse>::Ok(None)
            }
        },
{
    if !is_valid_domain(server) {
        return Err(
            err_response(
                "invalid_server",
                "Server name must be a valid domain name without path or port",
            ),
        );
    }
    let key = server_info_cache_key(server);
    match state.cache.get(key.as_str(), now) {
        Ok(CacheValue::Info(info)) => Ok(Some(info)),
        _ => Ok(None),
    }
}

/// Compose a liveness report from a probe outcome and cache it briefly.
///
/// A successful status yields `online` with no error; a failure yields
/// `offline` with the failure classified. The report is written back under
/// the server's key for `CACHE_TTL_SHORT` seconds when the cache accepts it.
pub fn server_info_probe(
    state: &mut AppState,
    server: &str,
    version: Option<String>,
    status: Result<(), String>,
    now: u64,
) -> (r: ServerInfo)
    requires
        old(state).inv(),
        spec_valid_domain(server@),
    ensures
        final(state).inv(),
        final(state).repo@ == old(state).repo@,
        r@.server == server@,
        r@.version == version.deep_view(),
        status is Ok ==> r@.status == "online"@ && r@.error is None,
        status matches Err(msg) ==> r@.status == "offline"@ && r@.error == Some(
            spec_classify_error(msg@),
        ),
        final(state).cache@.connected == old(state).cache@.connected,
        old(state).cache@.connected ==> final(state).cache@.entries == spec_set(
            old(state).cache@.entries,
            spec_server_info_key(server@),
            CacheValueView::Info(r@),
            spec_expiry(now, CACHE_TTL_SHORT),
        ),
        !old(state).cache@.connected ==> final(state).cache@ == old(state).cache@,
{
    let result = match &status {
        Ok(_) => ServerInfo {
            server: String::from_str(server),
            status: String::from_str("online"),
            version,
            error: None,
        },
        Err(msg) => ServerInfo {
            server: String::from_str(server),
            status: String::from_str("offline"),
            version,
            error: Some(classify_probe_error(msg.as_str())),
        },
    };
    let key = server_info_cache_key(server);
    let cv = CacheValue::Info(result.duplicate());
    let _ = state.cache.set(key.as_str(), &cv, CACHE_TTL_SHORT, now);
    result
}

// ---------------------------------------------------------------------------
// Writes
// ---------------------------------------------------------------------------

/// Check that a domain can be added: valid and not yet indexed.
pub fn add_server_check(state: &AppState, domain: &str) -> (r: Result<(), ErrorResponse>)
    requires
        state.inv(),
    ensures
        !spec_valid_domain(domain@) ==> (r matches Err(e) && e@.error == "invalid_domain"@),
        spec_valid_domain(domain@) && spec_has_domain(state.repo@, domain@) ==> (r matches Err(e)
            && e@.error == "server_exists"@),
        spec_valid_domain(domain@) && !spec_has_domain(state.repo@, domain@) ==> r
            == Result::<(), ErrorResponse>::Ok(()),
{
    if !is_valid_domain(domain) {
        return Err(
            err_response(
                "invalid_domain",
                "Domain must be a valid domain name without path or port",
            ),
        );
    }
    if server_exists(&state.repo, domain) {
        return Err(err_response("server_exists", "Server already exists in the index"));
    }
    Ok(())
}

/// Add a server to the index from a probe outcome.
///
/// Rejects an invalid domain (`invalid_domain`), a known one
/// (`server_exists`), and a failed probe (`discovery_failed`); a repository
/// refusal surfaces as `database_error`. On success the record is appended,
/// every `servers:*` cache key is dropped, and so is the server's own
/// liveness key.
pub fn add_server(
    state: &mut AppState,
    domain: &str,
    discovered: Option<&DiscoveredServerInfo>,
    now: u64,
) -> (r: Result<crate::models::ServerResponse, ErrorResponse>)
    requires
        old(state).inv(),
    ensures
        final(state).inv(),
        !spec_valid_domain(domain@) ==> (r matches Err(e) && e@.error == "invalid_domain"@)
            && final(state).repo@ == old(state).repo@ && final(state).cache@ == old(state).cache@,
        spec_valid_domain(domain@) && spec_has_domain(old(state).repo@, domain@) ==> (r matches Err(
            e,
        ) && e@.error == "server_exists"@) && final(state).repo@ == old(state).repo@
            && final(state).cache@ == old(state).cache@,
        spec_valid_domain(domain@) && !spec_has_domain(old(state).repo@, domain@) && discovered
            is None ==> (r matches Err(e) && e@.error == "discovery_failed"@) && final(state).repo@
            == old(state).repo@ && final(state).cache@ == old(state).cache@,
        spec_valid_domain(domain@) && !spec_has_domain(old(state).repo@, domain@) && discovered
            is Some && old(state).repo@.len() >= i64::MAX ==> (r matches Err(e) && e@.error
            == "database_error"@) && final(state).repo@ == old(state).repo@ && final(state).cache@
            == old(state).cache@,
        spec_valid_domain(domain@) && !spec_has_domain(old(state).repo@, domain@) && discovered
            is Some && old(state).repo@.len() < i64::MAX ==> {
            let rec = spec_new_record(
                NewServerView { domain: domain@, info: discovered.unwrap()@ },
                (old(state).repo@.len() + 1) as i64,
                now,
            );
            &&& (r matches Ok(resp) && resp@ == rec)
            &&& final(state).repo@ == old(state).repo@.push(rec)
            &&& spec_has_domain(final(state).repo@, domain@)
            &&& final(state).cache@.connected == old(state).cache@.connected
            &&& (old(state).cache@.connected ==> {
                &&& final(state).cache@.entries == spec_delete(
                    spec_invalidate(old(state).cache@.entries, "servers:*"@),
                    spec_server_info_key(domain@),
                )
                &&& !spec_has_key(final(state).cache@.entries, spec_server_info_key(domain@))
                &&& forall|k: int|
                    0 <= k < final(state).cache@.entries.len() ==> !glob_match(
                        "servers:*"@,
                        #[trigger] final(state).cache@.entries[k].key,
                    )
            })
            &&& (!old(state).cache@.connected ==> final(state).cache@ == old(state).cache@)
        },
{
    if !is_valid_domain(domain) {
        return Err(
            err_response(
                "invalid_domain",
                "Domain must be a valid domain name without path or port",
            ),
        );
    }
    if server_exists(&state.repo, domain) {
        return Err(err_response("server_exists", "Server already exists in the index"));
    }
    let info = match discovered {
        Some(info) => info,
        None => {
            return Err(err_response("discovery_failed", "Failed to discover server information"));
        },
    };
    let new_server = NewServer::from_discovered(domain, info);
    proof {
        assert(new_server@ == NewServerView { domain: domain@, info: info@ });
    }
    let record = match insert_server(&mut state.repo, &new_server, now) {
        Ok(record) => record,
        Err(_) => {
            return Err(err_response("database_error", "Failed to save server"));
        },
    };
    proof {
        assert(state.repo@ == old(state).repo@.push(record@));
        assert(record@.domain == domain@);
        assert(crate::strutil::ci_eq(record@.domain, domain@));
        assert(state.repo@[old(state).repo@.len() as int] == record@);
        assert(spec_has_domain(state.repo@, domain@));
    }
    let ghost mid_entries = state.cache@.entries;
    let _ = state.cache.invalidate_pattern("servers:*");
    let key = server_info_cache_key(domain);
    let _ = state.cache.delete(key.as_str());
    proof {
        if old(state).cache@.connected {
            let inv_entries = spec_invalidate(mid_entries, "servers:*"@);
            let fin = state.cache@.entries;
            assert(fin == spec_delete(inv_entries, spec_server_info_key(domain@)));
            assert forall|k: int| 0 <= k < fin.len() implies !glob_match(
                "servers:*"@,
                #[trigger] fin[k].key,
            ) by {
                if spec_has_key(inv_entries, spec_server_info_key(domain@)) {
                    let w = choose|w: int|
                        0 <= w < inv_entries.len() && inv_entries[w].key == spec_server_info_key(
                            domain@,
                        );
                    if k < w {
                        assert(fin[k] == inv_entries[k]);
                    } else {
                        assert(fin[k] == inv_entries[k + 1]);
                    }
                } else {
                    assert(fin[k] == inv_entries[k]);
                }
            }
        }
    }
    Ok(crate::models::ServerResponse::from_server(&record))
}

/// Once a record for `d` is appended, the repository holds `d`; a second
/// add of `d` is therefore refused as `server_exists` by `add_server`'s
/// contract.
pub proof fn lemma_add_twice_conflicts(pre: Seq<crate::models::ServerView>, rec: crate::models::ServerView, d: Seq<char>)
    requires
        rec.domain == d,
    ensures
        spec_has_domain(pre.push(rec), d),
{
    let post = pre.push(rec);
    assert(post[pre.len() as int].domain == d);
    assert(crate::strutil::ci_eq(post[pre.len() as int].domain, d));
}

// ---------------------------------------------------------------------------
// Cached listings
// ---------------------------------------------------------------------------

/// List servers under the default filter, through the cache.
///
/// A live cached page under `servers:list` is returned as is; otherwise the
/// page is computed from the repository and written back for
/// `CACHE_TTL_MEDIUM` seconds when the cache accepts it.
pub fn list_servers(state: &mut AppState, now: u64) -> (r: Result<
    PaginatedServersResponse,
    ErrorResponse,
>)
    requires
        old(state).inv(),
    ensures
        final(state).inv(),
        final(state).repo@ == old(state).repo@,
        r matches Ok(resp) && ({
            let c = old(state).cache@;
            let k = "servers:list"@;
            if c.connected && spec_live(c.entries, k, now) && (spec_entry(c.entries, k).value
                matches CacheValueView::Page(_)) {
                &&& (spec_entry(c.entries, k).value matches CacheValueView::Page(pv) && resp@ == pv)
                &&& final(state).cache@ == c
            } else {
                &&& resp@ == spec_find(old(state).repo@, spec_default_filter())
                &&& final(state).cache@.connected == c.connected
                &&& (c.connected ==> final(state).cache@.entries == spec_set(
                    c.entries,
                    k,
                    CacheValueView::Page(resp@),
                    spec_expiry(now, CACHE_TTL_MEDIUM),
                ))
                &&& (!c.connected ==> final(state).cache@.entries == c.entries)
            }
        }),
{
    match state.cache.get("servers:list", now) {
        Ok(CacheValue::Page(p)) => {
            return Ok(p);
        },
        _ => {},
    }
    let filter = ServerFilter::default();
    let page = get_filtered_servers(&state.repo, &filter);
    let resp = PaginatedServersResponse::from_page(&page);
    let cv = CacheValue::Page(resp.duplicate());
    let _ = state.cache.set("servers:list", &cv, CACHE_TTL_MEDIUM, now);
    Ok(resp)
}

/// Run a filtered search, through the cache.
///
/// A live cached page under the request's composite key is returned as is;
/// otherwise the page is computed from the repository and written back for
/// `CACHE_TTL_SHORT` seconds when the cache accepts it.
pub fn search_servers(state: &mut AppState, filter: &ServerFilter, now: u64) -> (r: Result<
    PaginatedServersResponse,
    ErrorResponse,
>)
    requires
        old(state).inv(),
    ensures
        final(state).inv(),
        final(state).repo@ == old(state).repo@,
        r matches Ok(resp) && ({
            let c = old(state).cache@;
            let k = spec_search_key(filter@);
            if c.connected && spec_live(c.entries, k, now) && (spec_entry(c.entries, k).value
                matches CacheValueView::Page(_)) {
                &&& (spec_entry(c.entries, k).value matches CacheValueView::Page(pv) && resp@ == pv)
                &&& final(state).cache@ == c
            } else {
                &&& resp@ == spec_find(old(state).repo@, filter@)
                &&& final(state).cache@.connected == c.connected
                &&& (c.connected ==> final(state).cache@.entries == spec_set(
                    c.entries,
                    k,
                    CacheValueView::Page(resp@),
                    spec_expiry(now, CACHE_TTL_SHORT),
                ))
                &&& (!c.connected ==> final(state).cache@.entries == c.entries)
            }
        }),
{
    let key = make_search_cache_key(filter);
    match state.cache.get(key.as_str(), now) {
        Ok(CacheValue::Page(p)) => {
            return Ok(p);
        },
        _ => {},
    }
    let page = get_filtered_servers(&state.repo, filter);
    let resp = PaginatedServersResponse::from_page(&page);
    let cv = CacheValue::Page(resp.duplicate());
    let _ = state.cache.set(key.as_str(), &cv, CACHE_TTL_SHORT, now);
    Ok(resp)
}

} // verus!
