//! The index repository: a persistent set of server records with
//! insert-if-absent and filtered, sorted, paginated reads.
//!
//! Domains are unique up to ASCII case; records keep their insertion order,
//! which breaks ties when sorting.

use vstd::prelude::*;

use crate::models::{
    FilterView, NewServer, PaginatedServers, Server, ServerFilter, ServerView, PageView,
};
use crate::strutil::{ci_eq, has_sub, has_sub_ci, lex_lt, str_contains, str_contains_ci, str_eq,
    str_eq_ci, str_lt};

verus! {

// ---------------------------------------------------------------------------
// Errors
// ---------------------------------------------------------------------------

/// Why an insert was refused.
#[derive(Clone, Copy, PartialEq, Eq, Structural, Debug)]
pub enum DbError {
    /// A record with the same domain (up to ASCII case) is already present.
    UniqueViolation,
    /// No further identifier can be assigned.
    Full,
}

// ---------------------------------------------------------------------------
// The repository
// ---------------------------------------------------------------------------

/// The set of persisted server records, in insertion order.
pub struct Repository {
    servers: Vec<Server>,
}

impl View for Repository {
    type V = Seq<ServerView>;

    closed spec fn view(&self) -> Seq<ServerView> {
        self.servers.deep_view()
    }
}

/// Some record in `rv` has a domain equal to `d` up to ASCII case.
pub open spec fn spec_has_domain(rv: Seq<ServerView>, d: Seq<char>) -> bool {
    exists|i: int| 0 <= i < rv.len() && ci_eq(rv[i].domain, d)
}

impl Repository {
    /// Well-formed: domains pairwise distinct up to ASCII case, and the
    /// record at position `i` carries identifier `i + 1`.
    pub open spec fn wf(&self) -> bool {
        &&& forall|i: int, j: int|
            0 <= i < j < self@.len() ==> !ci_eq(self@[i].domain, self@[j].domain)
        &&& forall|i: int| 0 <= i < self@.len() ==> self@[i].id == i + 1
    }

    /// An empty repository.
    pub fn new() -> (r: Repository)
        ensures
            r@ =~= Seq::<ServerView>::empty(),
            r.wf(),
    {
        Repository { servers: Vec::new() }
    }

    /// Number of records held.
    pub fn len(&self) -> (r: usize)
        ensures
            r == self@.len(),
    {
        self.servers.len()
    }

    /// Position of the record whose domain equals `domain` up to ASCII case.
    fn find_by_domain(&self, domain: &str) -> (r: Option<usize>)
        ensures
            match r {
                Some(i) => i < self@.len() && ci_eq(self@[i as int].domain, domain@),
                None => !spec_has_domain(self@, domain@),
            },
    {
        let ghost rv = self@;
        let mut i: usize = 0;
        while i < self.servers.len()
            invariant
                rv == self@,
                rv.len() == self.servers.len(),
                forall|k: int| 0 <= k < self.servers.len() ==> rv[k] == self.servers[k]@,
                0 <= i <= self.servers.len(),
                forall|k: int| 0 <= k < i ==> !ci_eq(rv[k].domain, domain@),
            decreases self.servers.len() - i,
        {
            if str_eq_ci(self.servers[i].domain.as_str(), domain) {
                return Some(i);
            }
            i = i + 1;
        }
        None
    }
}

/// The record that inserting `n` at position `id - 1` creates, both
/// timestamps set to `now`.
pub open spec fn spec_new_record(n: crate::models::NewServerView, id: i64, now: u64) -> ServerView {
    ServerView {
        id: id,
        domain: n.domain,
        name: n.info.name,
        description: n.info.description,
        logo_url: n.info.logo_url,
        theme: n.info.theme,
        registration_open: n.info.registration_open,
        public_rooms_count: n.info.public_rooms_count,
        version: n.info.version,
        federation_version: n.info.federation_version,
        delegated_server: n.info.delegated_server,
        room_versions: n.info.room_versions,
        created_at: now,
        updated_at: now,
    }
}

/// Insert a record if its domain is absent (up to ASCII case).
///
/// Succeeds exactly when the domain is new and an identifier can still be
/// assigned; on success the record is appended with the next identifier and
/// both timestamps set to `now`.
pub fn insert_server(repo: &mut Repository, new_server: &NewServer, now: u64) -> (r: Result<
    Server,
    DbError,
>)
    requires
        old(repo).wf(),
    ensures
        final(repo).wf(),
        spec_has_domain(old(repo)@, new_server@.domain) ==> r == Result::<Server, DbError>::Err(
            DbError::UniqueViolation,
        ) && final(repo)@ == old(repo)@,
        !spec_has_domain(old(repo)@, new_server@.domain) && old(repo)@.len() >= i64::MAX ==> r
            == Result::<Server, DbError>::Err(DbError::Full) && final(repo)@ == old(repo)@,
        !spec_has_domain(old(repo)@, new_server@.domain) && old(repo)@.len() < i64::MAX ==> {
            &&& r matches Ok(s)
            &&& s@ == spec_new_record(new_server@, (old(repo)@.len() + 1) as i64, now)
            &&& final(repo)@ =~= old(repo)@.push(s@)
        },
{
    match repo.find_by_domain(new_server.domain.as_str()) {
        Some(_) => Err(DbError::UniqueViolation),
        None => {
            if repo.servers.len() as u64 >= (i64::MAX as u64) {
                return Err(DbError::Full);
            }
            let id = (repo.servers.len() as i64) + 1;
            let record = Server {
                id,
                domain: new_server.domain.clone(),
                name: new_server.name.clone(),
                description: new_server.description.clone(),
                logo_url: new_server.logo_url.clone(),
                theme: new_server.theme.clone(),
                registration_open: new_server.registration_open,
                public_rooms_count: new_server.public_rooms_count,
                version: new_server.version.clone(),
                federation_version: new_server.federation_version.clone(),
                delegated_server: new_server.delegated_server.clone(),
                room_versions: new_server.room_versions.clone(),
                created_at: now,
                updated_at: now,
            };
            let out = record.duplicate();
            let ghost pre = repo@;
            repo.servers.push(record);
            proof {
                assert(repo@ =~= pre.push(out@));
                assert forall|i: int, j: int|
                    0 <= i < j < repo@.len() implies !ci_eq(repo@[i].domain, repo@[j].domain) by {
                    if j == repo@.len() - 1 {
                        assert(!ci_eq(pre[i].domain, new_server@.domain));
                        if ci_eq(repo@[i].domain, repo@[j].domain) {
                            lemma_ci_eq_sym(repo@[i].domain, repo@[j].domain);
                        }
                    }
                }
            }
            Ok(out)
        },
    }
}

/// ASCII-case-insensitive equality is symmetric.
proof fn lemma_ci_eq_sym(a: Seq<char>, b: Seq<char>)
    requires
        ci_eq(a, b),
    ensures
        ci_eq(b, a),
{
}

/// Every pair of persisted records differs in domain, even up to ASCII
/// case: the domain is a unique, case-insensitive identity.
pub proof fn lemma_domains_unique(repo: &Repository, i: int, j: int)
    requires
        repo.wf(),
        0 <= i < repo@.len(),
        0 <= j < repo@.len(),
        i != j,
    ensures
        !ci_eq(repo@[i].domain, repo@[j].domain),
{
    if i < j {
    } else {
        if ci_eq(repo@[i].domain, repo@[j].domain) {
            lemma_ci_eq_sym(repo@[i].domain, repo@[j].domain);
        }
    }
}

/// A record matching a filter that asks for `has_rooms = false` has no room
/// count or a non-positive one.
pub proof fn lemma_has_rooms_false(s: ServerView, f: FilterNormView)
    requires
        spec_matches(s, f),
        f.has_rooms == Some(false),
    ensures
        s.public_rooms_count is None || s.public_rooms_count.unwrap() <= 0,
{
}

/// Fetch the record for `domain` (up to ASCII case), if any.
pub fn get_server_by_domain(repo: &Repository, domain: &str) -> (r: Option<Server>)
    ensures
        match r {
            Some(s) => exists|i: int|
                0 <= i < repo@.len() && ci_eq(repo@[i].domain, domain@) && s@ == repo@[i],
            None => !spec_has_domain(repo@, domain@),
        },
{
    match repo.find_by_domain(domain) {
        Some(i) => {
            let s = repo.servers[i].duplicate();
            proof {
                assert(ci_eq(repo@[i as int].domain, domain@) && s@ == repo@[i as int]);
            }
            Some(s)
        },
        None => None,
    }
}

/// Whether a record for `domain` exists (up to ASCII case).
pub fn server_exists(repo: &Repository, domain: &str) -> (r: bool)
    ensures
        r == spec_has_domain(repo@, domain@),
{
    match repo.find_by_domain(domain) {
        Some(i) => {
            proof {
                assert(ci_eq(repo@[i as int].domain, domain@));
            }
            true
        },
        None => false,
    }
}

/// All records, in insertion order.
pub fn get_all_servers(repo: &Repository) -> (r: Vec<Server>)
    ensures
        r.deep_view() == repo@,
{
    let mut out: Vec<Server> = Vec::new();
    let mut i: usize = 0;
    while i < repo.servers.len()
        invariant
            0 <= i <= repo.servers.len(),
            out.deep_view() =~= repo@.take(i as int),
            repo@.len() == repo.servers.len(),
            forall|k: int| 0 <= k < repo.servers.len() ==> repo@[k] == repo.servers[k]@,
        decreases repo.servers.len() - i,
    {
        let ghost pre = out.deep_view();
        out.push(repo.servers[i].duplicate());
        proof {
            assert(out.deep_view() =~= pre.push(repo.servers[i as int]@));
        }
        i = i + 1;
    }
    proof {
        assert(repo@.take(repo.servers.len() as int) =~= repo@);
    }
    out
}

// ---------------------------------------------------------------------------
// Query normalization
// ---------------------------------------------------------------------------

/// Recognized sort keys.
#[derive(Clone, Copy, PartialEq, Eq, Structural, Debug)]
pub enum SortBy {
    CreatedAt,
    Name,
    Domain,
    PublicRoomsCount,
}

/// A query shape with every default and clamp applied.
pub struct FilterNorm {
    pub search: Option<String>,
    pub registration_open: Option<bool>,
    pub has_rooms: Option<bool>,
    pub room_version: Option<String>,
    pub sort_by: SortBy,
    pub asc: bool,
    pub limit: i32,
    pub offset: i32,
}

/// Ghost image of a normalized query shape.
pub ghost struct FilterNormView {
    pub search: Option<Seq<char>>,
    pub registration_open: Option<bool>,
    pub has_rooms: Option<bool>,
    pub room_version: Option<Seq<char>>,
    pub sort_by: SortBy,
    pub asc: bool,
    pub limit: i32,
    pub offset: i32,
}

impl View for FilterNorm {
    type V = FilterNormView;

    open spec fn view(&self) -> FilterNormView {
        FilterNormView {
            search: self.search.deep_view(),
            registration_open: self.registration_open,
            has_rooms: self.has_rooms,
            room_version: self.room_version.deep_view(),
            sort_by: self.sort_by,
            asc: self.asc,
            limit: self.limit,
            offset: self.offset,
        }
    }
}

/// The sort key a request names; anything unrecognized falls back to
/// the creation time.
pub open spec fn spec_sort_by(s: Option<Seq<char>>) -> SortBy {
    if s == Some("name"@) {
        SortBy::Name
    } else if s == Some("domain"@) {
        SortBy::Domain
    } else if s == Some("public_rooms_count"@) {
        SortBy::PublicRoomsCount
    } else {
        SortBy::CreatedAt
    }
}

/// The page size: unset falls back to 50, and the result is clamped
/// into `1 ..= 100`.
pub open spec fn spec_limit(l: Option<i32>) -> i32 {
    let v: i32 = match l {
        Some(v) => v,
        None => 50,
    };
    if v < 1 {
        1
    } else if v > 100 {
        100
    } else {
        v
    }
}

/// The page start: unset falls back to 0, negative values clamp to 0.
pub open spec fn spec_offset(o: Option<i32>) -> i32 {
    let v: i32 = match o {
        Some(v) => v,
        None => 0,
    };
    if v < 0 {
        0
    } else {
        v
    }
}

/// Every default and clamp applied to a query shape.
pub open spec fn spec_normalize(f: FilterView) -> FilterNormView {
    FilterNormView {
        search: f.search,
        registration_open: f.registration_open,
        has_rooms: f.has_rooms,
        room_version: f.room_version,
        sort_by: spec_sort_by(f.sort_by),
        asc: f.sort_order == Some("asc"@),
        limit: spec_limit(f.limit),
        offset: spec_offset(f.offset),
    }
}

/// Apply defaults and clamps to a query shape: page size into `1 ..= 100`
/// (unset: 50), page start non-negative (unset: 0), unrecognized sort key
/// to the creation time, unrecognized sort order to descending.
pub fn normalize_filter(filter: &ServerFilter) -> (r: FilterNorm)
    ensures
        r@ == spec_normalize(filter@),
{
    let limit: i32 = {
        let v = match filter.limit {
            Some(v) => v,
            None => 50,
        };
        if v < 1 {
            1
        } else if v > 100 {
            100
        } else {
            v
        }
    };
    let offset: i32 = {
        let v = match filter.offset {
            Some(v) => v,
            None => 0,
        };
        if v < 0 {
            0
        } else {
            v
        }
    };
    let sort_by = match &filter.sort_by {
        Some(s) => {
            if str_eq(s.as_str(), "name") {
                SortBy::Name
            } else if str_eq(s.as_str(), "domain") {
                SortBy::Domain
            } else if str_eq(s.as_str(), "public_rooms_count") {
                SortBy::PublicRoomsCount
            } else {
                SortBy::CreatedAt
            }
        },
        None => SortBy::CreatedAt,
    };
    let asc = match &filter.sort_order {
        Some(s) => str_eq(s.as_str(), "asc"),
        None => false,
    };
    FilterNorm {
        search: filter.search.clone(),
        registration_open: filter.registration_open,
        has_rooms: filter.has_rooms,
        room_version: filter.room_version.clone(),
        sort_by,
        asc,
        limit,
        offset,
    }
}

// ---------------------------------------------------------------------------
// Matching
// ---------------------------------------------------------------------------

/// Whether a record satisfies a normalized query shape.
///
/// Substring checks against the search term disregard ASCII case; the
/// room-version check is exact. A record without a room count matches
/// `has_rooms = false`, as does one with a non-positive count.
pub open spec fn spec_matches(s: ServerView, f: FilterNormView) -> bool {
    &&& match f.search {
        Some(q) => {
            ||| has_sub_ci(s.domain, q)
            ||| (s.name matches Some(n) && has_sub_ci(n, q))
            ||| (s.description matches Some(d) && has_sub_ci(d, q))
        },
        None => true,
    }
    &&& match f.registration_open {
        Some(b) => s.registration_open == Some(b),
        None => true,
    }
    &&& match f.has_rooms {
        Some(true) => s.public_rooms_count matches Some(c) && c > 0,
        Some(false) => !(s.public_rooms_count matches Some(c) && c > 0),
        None => true,
    }
    &&& match f.room_version {
        Some(rv) => s.room_versions matches Some(t) && has_sub(t, rv),
        None => true,
    }
}

/// Decide `spec_matches` for one record.
pub fn matches_filter(s: &Server, f: &FilterNorm) -> (r: bool)
    ensures
        r == spec_matches(s@, f@),
{
    let search_ok = match &f.search {
        Some(q) => {
            if str_contains_ci(s.domain.as_str(), q.as_str()) {
                true
            } else {
                let name_ok = match &s.name {
                    Some(n) => str_contains_ci(n.as_str(), q.as_str()),
                    None => false,
                };
                let desc_ok = match &s.description {
                    Some(d) => str_contains_ci(d.as_str(), q.as_str()),
                    None => false,
                };
                name_ok || desc_ok
            }
        },
        None => true,
    };
    if !search_ok {
        return false;
    }
    let reg_ok = match f.registration_open {
        Some(b) => match s.registration_open {
            Some(v) => v == b,
            None => false,
        },
        None => true,
    };
    if !reg_ok {
        return false;
    }
    let rooms_ok = match f.has_rooms {
        Some(want) => {
            let positive = match s.public_rooms_count {
                Some(c) => c > 0,
                None => false,
            };
            if want {
                positive
            } else {
                !positive
            }
        },
        None => true,
    };
    if !rooms_ok {
        return false;
    }
    match &f.room_version {
        Some(rv) => match &s.room_versions {
            Some(t) => str_contains(t.as_str(), rv.as_str()),
            None => false,
        },
        None => true,
    }
}

/// Positions of the records among the first `n` that match `f`, in order.
pub open spec fn match_idxs(rv: Seq<ServerView>, f: FilterNormView, n: int) -> Seq<int>
    decreases n,
{
    if n <= 0 {
        Seq::empty()
    } else {
        let rest = match_idxs(rv, f, n - 1);
        if spec_matches(rv[n - 1], f) {
            rest.push(n - 1)
        } else {
            rest
        }
    }
}

// ---------------------------------------------------------------------------
// Ordering
// ---------------------------------------------------------------------------

/// Strict order on optional character sequences: an absent value sorts
/// after every present one.
pub open spec fn opt_lex_lt(a: Option<Seq<char>>, b: Option<Seq<char>>) -> bool {
    match (a, b) {
        (Some(x), Some(y)) => lex_lt(x, y),
        (Some(_), None) => true,
        (None, _) => false,
    }
}

/// Strict order on optional counts: an absent value sorts after every
/// present one.
pub open spec fn opt_count_lt(a: Option<i32>, b: Option<i32>) -> bool {
    match (a, b) {
        (Some(x), Some(y)) => x < y,
        (Some(_), None) => true,
        (None, _) => false,
    }
}

/// Strict order of two records under a sort key.
pub open spec fn key_lt(a: ServerView, b: ServerView, by: SortBy) -> bool {
    match by {
        SortBy::CreatedAt => a.created_at < b.created_at,
        SortBy::Name => opt_lex_lt(a.name, b.name),
        SortBy::Domain => lex_lt(a.domain, b.domain),
        SortBy::PublicRoomsCount => opt_count_lt(a.public_rooms_count, b.public_rooms_count),
    }
}

/// Total order on record positions: by the sort key in the requested
/// direction, ties broken by insertion order.
pub open spec fn idx_le(rv: Seq<ServerView>, f: FilterNormView, i: int, j: int) -> bool {
    let a = rv[i];
    let b = rv[j];
    if key_lt(a, b, f.sort_by) {
        f.asc
    } else if key_lt(b, a, f.sort_by) {
        !f.asc
    } else {
        i <= j
    }
}

/// Decide `key_lt` for two records.
fn record_key_lt(a: &Server, b: &Server, by: SortBy) -> (r: bool)
    ensures
        r == key_lt(a@, b@, by),
{
    match by {
        SortBy::CreatedAt => a.created_at < b.created_at,
        SortBy::Name => match (&a.name, &b.name) {
            (Some(x), Some(y)) => str_lt(x.as_str(), y.as_str()),
            (Some(_), None) => true,
            (None, _) => false,
        },
        SortBy::Domain => str_lt(a.domain.as_str(), b.domain.as_str()),
        SortBy::PublicRoomsCount => match (a.public_rooms_count, b.public_rooms_count) {
            (Some(x), Some(y)) => x < y,
            (Some(_), None) => true,
            (None, _) => false,
        },
    }
}

/// Decide `idx_le` for two positions.
fn positions_le(servers: &Vec<Server>, f: &FilterNorm, i: usize, j: usize) -> (r: bool)
    requires
        i < servers.len(),
        j < servers.len(),
    ensures
        r == idx_le(servers.deep_view(), f@, i as int, j as int),
{
    let a = &servers[i];
    let b = &servers[j];
    if record_key_lt(a, b, f.sort_by) {
        f.asc
    } else if record_key_lt(b, a, f.sort_by) {
        !f.asc
    } else {
        i <= j
    }
}

/// `x` inserted into `s` before the first element that `x` sorts at or
/// before.
pub open spec fn insert_sorted(rv: Seq<ServerView>, f: FilterNormView, x: int, s: Seq<int>) -> Seq<
    int,
>
    decreases s.len(),
{
    if s.len() == 0 {
        seq![x]
    } else if idx_le(rv, f, x, s[0]) {
        seq![x] + s
    } else {
        seq![s[0]] + insert_sorted(rv, f, x, s.skip(1))
    }
}

/// The positions of `s` ordered by `idx_le`, later elements inserted into
/// the sorted front.
pub open spec fn sort_idxs(rv: Seq<ServerView>, f: FilterNormView, s: Seq<int>) -> Seq<int>
    decreases s.len(),
{
    if s.len() == 0 {
        s
    } else {
        insert_sorted(rv, f, s.last(), sort_idxs(rv, f, s.drop_last()))
    }
}

proof fn lemma_insert_at(rv: Seq<ServerView>, f: FilterNormView, x: int, s: Seq<int>, p: int)
    requires
        0 <= p <= s.len(),
        forall|k: int| 0 <= k < p ==> !idx_le(rv, f, x, s[k]),
        p < s.len() ==> idx_le(rv, f, x, s[p]),
    ensures
        insert_sorted(rv, f, x, s) =~= s.take(p) + seq![x] + s.skip(p),
    decreases p,
{
    if p == 0 {
        assert(s.take(0) =~= Seq::empty());
        assert(s.skip(0) =~= s);
    } else {
        assert(!idx_le(rv, f, x, s[0]));
        lemma_insert_at(rv, f, x, s.skip(1), p - 1);
        assert(s.skip(1).take(p - 1) =~= s.take(p).skip(1));
        assert(s.skip(1).skip(p - 1) =~= s.skip(p));
    }
}

// ---------------------------------------------------------------------------
// Filtered reads
// ---------------------------------------------------------------------------

/// The page that a filtered read returns: records matching the filter,
/// ordered by the requested key with ties broken by insertion order,
/// the window `offset ..` of at most `limit` records.
pub open spec fn spec_find(rv: Seq<ServerView>, fv: FilterView) -> PageView {
    let f = spec_normalize(fv);
    let idxs = match_idxs(rv, f, rv.len() as int);
    let sorted = sort_idxs(rv, f, idxs);
    let o = if f.offset as int <= sorted.len() {
        f.offset as int
    } else {
        sorted.len() as int
    };
    let l = if f.limit as int <= sorted.len() - o {
        f.limit as int
    } else {
        sorted.len() - o
    };
    PageView {
        servers: Seq::new(l as nat, |k: int| rv[sorted[o + k]]),
        total: idxs.len() as i64,
        limit: f.limit,
        offset: f.offset,
    }
}

/// Every position `match_idxs` returns indexes a record.
proof fn lemma_match_idxs_bounds(rv: Seq<ServerView>, f: FilterNormView, n: int)
    requires
        0 <= n <= rv.len(),
    ensures
        forall|k: int| 0 <= k < match_idxs(rv, f, n).len() ==> 0 <= #[trigger] match_idxs(rv, f, n)[k]
            < n,
        match_idxs(rv, f, n).len() <= n,
    decreases n,
{
    if n > 0 {
        lemma_match_idxs_bounds(rv, f, n - 1);
    }
}

/// Sorting keeps the elements: the result is made of the same positions.
proof fn lemma_insert_sorted_bounds(
    rv: Seq<ServerView>,
    f: FilterNormView,
    x: int,
    s: Seq<int>,
    lo: int,
    hi: int,
)
    requires
        forall|k: int| 0 <= k < s.len() ==> lo <= #[trigger] s[k] < hi,
        lo <= x < hi,
    ensures
        insert_sorted(rv, f, x, s).len() == s.len() + 1,
        forall|k: int|
            0 <= k < insert_sorted(rv, f, x, s).len() ==> lo <= #[trigger] insert_sorted(rv, f, x, s)[k] < hi,
    decreases s.len(),
{
    if s.len() > 0 && !idx_le(rv, f, x, s[0]) {
        lemma_insert_sorted_bounds(rv, f, x, s.skip(1), lo, hi);
    }
}

/// Sorted positions stay in range.
proof fn lemma_sort_idxs_bounds(rv: Seq<ServerView>, f: FilterNormView, s: Seq<int>, lo: int, hi: int)
    requires
        forall|k: int| 0 <= k < s.len() ==> lo <= #[trigger] s[k] < hi,
    ensures
        sort_idxs(rv, f, s).len() == s.len(),
        forall|k: int| 0 <= k < sort_idxs(rv, f, s).len() ==> lo <= #[trigger] sort_idxs(rv, f, s)[k] < hi,
    decreases s.len(),
{
    if s.len() > 0 {
        lemma_sort_idxs_bounds(rv, f, s.drop_last(), lo, hi);
        lemma_insert_sorted_bounds(rv, f, s.last(), sort_idxs(rv, f, s.drop_last()), lo, hi);
    }
}

/// Apply a filter: `total` counts every matching record, while the page
/// holds at most `limit` of them, starting `offset` into the ordered run.
pub fn get_filtered_servers(repo: &Repository, filter: &ServerFilter) -> (r: PaginatedServers)
    requires
        repo.wf(),
    ensures
        r@ == spec_find(repo@, filter@),
        r@.servers.len() <= spec_normalize(filter@).limit,
        1 <= spec_normalize(filter@).limit <= 100,
        r@.total == match_idxs(repo@, spec_normalize(filter@), repo@.len() as int).len(),
{
    let ghost rv = repo@;
    let f = normalize_filter(filter);
    let n = repo.servers.len();
    proof {
        assert(rv.len() == n);
        if n > 0 {
            assert(rv[n - 1].id == n as i64);
        }
        lemma_match_idxs_bounds(rv, f@, n as int);
    }

    // collect matching positions
    let mut idxs: Vec<usize> = Vec::new();
    let mut i: usize = 0;
    proof {
        assert(idxs.deep_view().map_values(|u: usize| u as int) =~= match_idxs(rv, f@, 0));
    }
    while i < n
        invariant
            rv == repo@,
            rv.len() == n,
            n == repo.servers.len(),
            forall|k: int| 0 <= k < n ==> rv[k] == repo.servers[k]@,
            f@ == spec_normalize(filter@),
            0 <= i <= n,
            idxs.deep_view().map_values(|u: usize| u as int) == match_idxs(rv, f@, i as int),
            forall|k: int| 0 <= k < idxs.len() ==> idxs[k] < n,
        decreases n - i,
    {
        let ghost pre = idxs.deep_view().map_values(|u: usize| u as int);
        if matches_filter(&repo.servers[i], &f) {
            idxs.push(i);
            proof {
                assert(idxs.deep_view().map_values(|u: usize| u as int) =~= pre.push(i as int));
            }
        }
        i = i + 1;
    }

    // order them
    let ghost midxs = match_idxs(rv, f@, n as int);
    proof {
        lemma_sort_idxs_bounds(rv, f@, midxs, 0, n as int);
    }
    let mut sorted: Vec<usize> = Vec::new();
    let mut i2: usize = 0;
    proof {
        assert(midxs.take(0) =~= Seq::<int>::empty());
        assert(sorted.deep_view().map_values(|u: usize| u as int) =~= sort_idxs(rv, f@, midxs.take(0)));
    }
    while i2 < idxs.len()
        invariant
            rv == repo@,
            rv.len() == n,
            n == repo.servers.len(),
            forall|k: int| 0 <= k < n ==> rv[k] == repo.servers[k]@,
            f@ == spec_normalize(filter@),
            midxs == match_idxs(rv, f@, n as int),
            idxs.deep_view().map_values(|u: usize| u as int) == midxs,
            forall|k: int| 0 <= k < idxs.len() ==> idxs[k] < n,
            0 <= i2 <= idxs.len(),
            sorted.deep_view().map_values(|u: usize| u as int) == sort_idxs(
                rv,
                f@,
                midxs.take(i2 as int),
            ),
            forall|k: int| 0 <= k < sorted.len() ==> sorted[k] < n,
        decreases idxs.len() - i2,
    {
        let x = idxs[i2];
        let ghost pre = sorted.deep_view().map_values(|u: usize| u as int);
        // find the insertion position
        let mut p: usize = 0;
        while p < sorted.len() && !positions_le(&repo.servers, &f, x, sorted[p])
            invariant
                rv == repo@,
                rv.len() == n,
                n == repo.servers.len(),
                forall|k: int| 0 <= k < n ==> rv[k] == repo.servers[k]@,
                f@ == spec_normalize(filter@),
                x < n,
                forall|k: int| 0 <= k < sorted.len() ==> sorted[k] < n,
                0 <= p <= sorted.len(),
                pre == sorted.deep_view().map_values(|u: usize| u as int),
                forall|k: int| 0 <= k < p ==> !idx_le(rv, f@, x as int, pre[k]),
            decreases sorted.len() - p,
        {
            p = p + 1;
        }
        proof {
            if p < sorted.len() {
                assert(idx_le(rv, f@, x as int, pre[p as int]));
            }
            lemma_insert_at(rv, f@, x as int, pre, p as int);
        }
        sorted.insert(p, x);
        proof {
            let post = sorted.deep_view().map_values(|u: usize| u as int);
            assert(post =~= pre.take(p as int) + seq![x as int] + pre.skip(p as int));
            assert(post =~= insert_sorted(rv, f@, x as int, pre));
            assert(midxs.take(i2 + 1 as int).drop_last() =~= midxs.take(i2 as int));
            assert(midxs.take(i2 + 1 as int).last() == midxs[i2 as int]);
            assert(midxs[i2 as int] == x as int);
        }
        i2 = i2 + 1;
    }
    proof {
        assert(midxs.take(idxs.len() as int) =~= midxs);
    }
    let ghost sortedv = sort_idxs(rv, f@, midxs);

    // cut the requested window
    let total_count = idxs.len();
    let off: usize = if (f.offset as usize) <= sorted.len() {
        f.offset as usize
    } else {
        sorted.len()
    };
    let lim: usize = if (f.limit as usize) <= sorted.len() - off {
        f.limit as usize
    } else {
        sorted.len() - off
    };
    let mut page: Vec<Server> = Vec::new();
    let mut k: usize = 0;
    while k < lim
        invariant
            rv == repo@,
            rv.len() == n,
            n == repo.servers.len(),
            forall|j: int| 0 <= j < n ==> rv[j] == repo.servers[j]@,
            sortedv == sort_idxs(rv, f@, midxs),
            sorted.deep_view().map_values(|u: usize| u as int) == sortedv,
            forall|j: int| 0 <= j < sorted.len() ==> sorted[j] < n,
            off + lim <= sorted.len(),
            0 <= k <= lim,
            page.deep_view().len() == k,
            forall|j: int| 0 <= j < k ==> page.deep_view()[j] == rv[sortedv[off + j]],
        decreases lim - k,
    {
        let ghost pre = page.deep_view();
        page.push(repo.servers[sorted[off + k]].duplicate());
        proof {
            assert(page.deep_view() =~= pre.push(rv[sortedv[off + k]]));
        }
        k = k + 1;
    }
    let r = PaginatedServers { servers: page, total: total_count as i64, limit: f.limit, offset: f.offset };
    proof {
        let want = spec_find(rv, filter@);
        assert(midxs.len() <= n) by {
            lemma_match_idxs_bounds(rv, f@, n as int);
        }
        assert(sortedv.len() == midxs.len());
        assert(off as int == if f@.offset as int <= sortedv.len() {
            f@.offset as int
        } else {
            sortedv.len() as int
        });
        assert(lim as int == if f@.limit as int <= sortedv.len() - off {
            f@.limit as int
        } else {
            sortedv.len() - off
        });
        assert(r@.servers =~= want.servers);
        assert(r@ == want);
    }
    r
}

} // verus!
