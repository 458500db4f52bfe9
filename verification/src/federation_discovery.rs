//! The federation discovery engine: a bounded-depth, de-duplicated walk of
//! the federation graph.
//!
//! The engine itself is a state machine over plain values: a run holds the
//! frontier of domains still to probe, the set of domains seen so far, and
//! the count of records added. Probing is I/O and happens outside the
//! library; its outcomes are handed in per round. `start_discovery` runs the
//! whole walk against probe outcomes given as data.

use vstd::prelude::*;

use crate::domain::{
    dedup_first, dedup_strings, extract_domain_from_mxid, extract_domains_from_text,
    lemma_dedup_first, spec_mxid_host, spec_text_domains, spec_valid_domain, is_valid_domain,
};
use crate::models::{DiscoveredServerInfo, DiscoveredView, NewServer, NewServerView, ServerView};
use crate::repo::{insert_server, server_exists, spec_has_domain, spec_new_record, Repository};
use crate::strutil::{ci_eq, dup_string_vec, str_eq, vec_contains_str};

verus! {

// ---------------------------------------------------------------------------
// Sequence helpers
// ---------------------------------------------------------------------------

/// No element of `s` repeats.
pub open spec fn seq_distinct(s: Seq<Seq<char>>) -> bool {
    forall|i: int, j: int| 0 <= i < j < s.len() ==> s[i] != s[j]
}

/// Every element of `a` occurs in `b`.
pub open spec fn seq_subset(a: Seq<Seq<char>>, b: Seq<Seq<char>>) -> bool {
    forall|k: int| 0 <= k < a.len() ==> b.contains(#[trigger] a[k])
}

/// No element of `a` occurs in `b`.
pub open spec fn seq_disjoint(a: Seq<Seq<char>>, b: Seq<Seq<char>>) -> bool {
    forall|k: int| 0 <= k < a.len() ==> !b.contains(#[trigger] a[k])
}

// ---------------------------------------------------------------------------
// Configuration
// ---------------------------------------------------------------------------

/// Discovery parameters and seed servers.
pub struct FederationDiscovery {
    /// Upper bound on probes in flight at once; used by the driver.
    pub max_concurrent: usize,
    /// Number of rounds walked, at most.
    pub max_depth: usize,
    /// Upper bound on the size of the next frontier.
    pub batch_size: usize,
    /// Domains the walk starts from.
    pub seed_servers: Vec<String>,
}

impl FederationDiscovery {
    /// Build a configuration; an unset value falls back to its default
    /// (5 concurrent probes, depth 3, batches of 100, seed `matrix.org`).
    pub fn new(
        max_concurrent: Option<usize>,
        max_depth: Option<usize>,
        batch_size: Option<usize>,
        seed_servers: Option<Vec<String>>,
    ) -> (r: FederationDiscovery)
        ensures
            r.max_concurrent == match max_concurrent {
                Some(v) => v,
                None => 5usize,
            },
            r.max_depth == match max_depth {
                Some(v) => v,
                None => 3usize,
            },
            r.batch_size == match batch_size {
                Some(v) => v,
                None => 100usize,
            },
            match seed_servers {
                Some(v) => r.seed_servers.deep_view() == v.deep_view(),
                None => r.seed_servers.deep_view() =~= seq!["matrix.org"@],
            },
    {
        let seeds = match seed_servers {
            Some(v) => v,
            None => {
                let mut v: Vec<String> = Vec::new();
                v.push(String::from_str("matrix.org"));
                proof {
                    assert(v.deep_view() =~= seq!["matrix.org"@]);
                }
                v
            },
        };
        FederationDiscovery {
            max_concurrent: match max_concurrent {
                Some(v) => v,
                None => 5,
            },
            max_depth: match max_depth {
                Some(v) => v,
                None => 3,
            },
            batch_size: match batch_size {
                Some(v) => v,
                None => 100,
            },
            seed_servers: seeds,
        }
    }
}

// ---------------------------------------------------------------------------
// Peer extraction
// ---------------------------------------------------------------------------

/// One public room as probed: its hero identifiers and its topic.
pub struct RoomChunk {
    pub heroes: Vec<String>,
    pub topic: Option<String>,
}

/// Ghost image of a room.
pub ghost struct RoomChunkView {
    pub heroes: Seq<Seq<char>>,
    pub topic: Option<Seq<char>>,
}

impl View for RoomChunk {
    type V = RoomChunkView;

    open spec fn view(&self) -> RoomChunkView {
        RoomChunkView { heroes: self.heroes.deep_view(), topic: self.topic.deep_view() }
    }
}

impl DeepView for RoomChunk {
    type V = RoomChunkView;

    open spec fn deep_view(&self) -> RoomChunkView {
        self.view()
    }
}

/// `d` appended to the collected peers when it is neither the origin server
/// nor already collected.
pub open spec fn spec_add_peer(acc: Seq<Seq<char>>, origin: Seq<char>, d: Seq<char>) -> Seq<
    Seq<char>,
> {
    if d != origin && !acc.contains(d) {
        acc.push(d)
    } else {
        acc
    }
}

/// Peers collected from a run of hero identifiers, in order.
pub open spec fn spec_fold_mxids(acc: Seq<Seq<char>>, origin: Seq<char>, hs: Seq<Seq<char>>) -> Seq<
    Seq<char>,
>
    decreases hs.len(),
{
    if hs.len() == 0 {
        acc
    } else {
        let prev = spec_fold_mxids(acc, origin, hs.drop_last());
        match spec_mxid_host(hs.last()) {
            Some(d) => spec_add_peer(prev, origin, d),
            None => prev,
        }
    }
}

/// Peers collected from a run of already-extracted domains, in order.
pub open spec fn spec_fold_domains(acc: Seq<Seq<char>>, origin: Seq<char>, ds: Seq<Seq<char>>) -> Seq<
    Seq<char>,
>
    decreases ds.len(),
{
    if ds.len() == 0 {
        acc
    } else {
        spec_add_peer(spec_fold_domains(acc, origin, ds.drop_last()), origin, ds.last())
    }
}

/// The domains read off one room's topic: the topic text's domain tokens,
/// or nothing for a room without a topic.
pub open spec fn spec_topic_domains(topic: Option<Seq<char>>) -> Seq<Seq<char>> {
    match topic {
        Some(t) => spec_text_domains(t),
        None => Seq::empty(),
    }
}

/// Peers collected from the first `n` rooms: each room's hero hosts, then
/// its topic domains.
pub open spec fn spec_fold_chunks(
    acc: Seq<Seq<char>>,
    origin: Seq<char>,
    chunks: Seq<RoomChunkView>,
    n: int,
) -> Seq<Seq<char>>
    decreases n,
{
    if n <= 0 {
        acc
    } else {
        let prev = spec_fold_chunks(acc, origin, chunks, n - 1);
        spec_fold_domains(
            spec_fold_mxids(prev, origin, chunks[n - 1].heroes),
            origin,
            spec_topic_domains(chunks[n - 1].topic),
        )
    }
}

/// The peers a server's public rooms name: hero hosts and topic domains,
/// the origin excluded, first occurrence kept.
pub open spec fn spec_peers(origin: Seq<char>, chunks: Seq<RoomChunkView>) -> Seq<Seq<char>> {
    spec_fold_chunks(Seq::empty(), origin, chunks, chunks.len() as int)
}

proof fn lemma_fold_mxids_props(acc: Seq<Seq<char>>, origin: Seq<char>, hs: Seq<Seq<char>>)
    requires
        seq_distinct(acc),
        forall|k: int| 0 <= k < acc.len() ==> #[trigger] acc[k] != origin,
    ensures
        seq_distinct(spec_fold_mxids(acc, origin, hs)),
        forall|k: int|
            0 <= k < spec_fold_mxids(acc, origin, hs).len() ==> #[trigger] spec_fold_mxids(
                acc,
                origin,
                hs,
            )[k] != origin,
    decreases hs.len(),
{
    if hs.len() > 0 {
        lemma_fold_mxids_props(acc, origin, hs.drop_last());
    }
}

proof fn lemma_fold_domains_props(acc: Seq<Seq<char>>, origin: Seq<char>, ds: Seq<Seq<char>>)
    requires
        seq_distinct(acc),
        forall|k: int| 0 <= k < acc.len() ==> #[trigger] acc[k] != origin,
    ensures
        seq_distinct(spec_fold_domains(acc, origin, ds)),
        forall|k: int|
            0 <= k < spec_fold_domains(acc, origin, ds).len() ==> #[trigger] spec_fold_domains(
                acc,
                origin,
                ds,
            )[k] != origin,
    decreases ds.len(),
{
    if ds.len() > 0 {
        lemma_fold_domains_props(acc, origin, ds.drop_last());
    }
}

proof fn lemma_fold_chunks_props(
    acc: Seq<Seq<char>>,
    origin: Seq<char>,
    chunks: Seq<RoomChunkView>,
    n: int,
)
    requires
        seq_distinct(acc),
        forall|k: int| 0 <= k < acc.len() ==> #[trigger] acc[k] != origin,
    ensures
        seq_distinct(spec_fold_chunks(acc, origin, chunks, n)),
        forall|k: int|
            0 <= k < spec_fold_chunks(acc, origin, chunks, n).len() ==> #[trigger]
                spec_fold_chunks(acc, origin, chunks, n)[k] != origin,
    decreases n,
{
    if n > 0 {
        lemma_fold_chunks_props(acc, origin, chunks, n - 1);
        let prev = spec_fold_chunks(acc, origin, chunks, n - 1);
        lemma_fold_mxids_props(prev, origin, chunks[n - 1].heroes);
        lemma_fold_domains_props(
            spec_fold_mxids(prev, origin, chunks[n - 1].heroes),
            origin,
            spec_topic_domains(chunks[n - 1].topic),
        );
    }
}

/// Peers named by a server's public rooms: hosts of hero identifiers and
/// domains in topics, the origin excluded, first occurrence kept.
///
/// The result never holds the origin and never repeats a domain.
pub fn discover_servers_from_public_rooms(origin: &str, chunks: &Vec<RoomChunk>) -> (r: Vec<String>)
    ensures
        r.deep_view() == spec_peers(origin@, chunks.deep_view()),
        seq_distinct(r.deep_view()),
        forall|k: int| 0 <= k < r.deep_view().len() ==> #[trigger] r.deep_view()[k] != origin@,
{
    let ghost cv = chunks.deep_view();
    let mut out: Vec<String> = Vec::new();
    let mut i: usize = 0;
    proof {
        assert(out.deep_view() =~= spec_fold_chunks(Seq::empty(), origin@, cv, 0));
    }
    while i < chunks.len()
        invariant
            cv == chunks.deep_view(),
            cv.len() == chunks.len(),
            forall|k: int| 0 <= k < chunks.len() ==> cv[k] == chunks[k]@,
            0 <= i <= chunks.len(),
            out.deep_view() == spec_fold_chunks(Seq::empty(), origin@, cv, i as int),
        decreases chunks.len() - i,
    {
        let ghost acc_round = out.deep_view();
        let ghost hv = chunks[i as int]@.heroes;

        // hero identifiers
        let heroes = &chunks[i].heroes;
        let mut j: usize = 0;
        proof {
            assert(hv.take(0) =~= Seq::<Seq<char>>::empty());
            assert(out.deep_view() == spec_fold_mxids(acc_round, origin@, hv.take(0)));
        }
        while j < heroes.len()
            invariant
                hv == heroes.deep_view(),
                hv.len() == heroes.len(),
                forall|k: int| 0 <= k < heroes.len() ==> hv[k] == heroes[k]@,
                0 <= j <= heroes.len(),
                out.deep_view() == spec_fold_mxids(acc_round, origin@, hv.take(j as int)),
            decreases heroes.len() - j,
        {
            let ghost pre = out.deep_view();
            match extract_domain_from_mxid(heroes[j].as_str()) {
                Some(d) => {
                    if !str_eq(d.as_str(), origin) && !vec_contains_str(&out, d.as_str()) {
                        out.push(d);
                        proof {
                            assert(out.deep_view() =~= pre.push(
                                spec_mxid_host(hv[j as int]).unwrap(),
                            ));
                        }
                    }
                },
                None => {},
            }
            proof {
                assert(hv.take(j + 1 as int).drop_last() =~= hv.take(j as int));
                assert(hv.take(j + 1 as int).last() == hv[j as int]);
            }
            j = j + 1;
        }
        proof {
            assert(hv.take(heroes.len() as int) =~= hv);
        }
        let ghost acc_mid = out.deep_view();

        // topic text
        let td: Vec<String> = match &chunks[i].topic {
            Some(t) => extract_domains_from_text(t.as_str()),
            None => Vec::new(),
        };
        let ghost tdv = td.deep_view();
        proof {
            if chunks[i as int]@.topic is None {
                assert(tdv =~= Seq::<Seq<char>>::empty());
            }
            assert(tdv == spec_topic_domains(cv[i as int].topic));
        }
        let mut j2: usize = 0;
        proof {
            assert(tdv.take(0) =~= Seq::<Seq<char>>::empty());
            assert(out.deep_view() == spec_fold_domains(acc_mid, origin@, tdv.take(0)));
        }
        while j2 < td.len()
            invariant
                tdv == td.deep_view(),
                tdv.len() == td.len(),
                forall|k: int| 0 <= k < td.len() ==> tdv[k] == td[k]@,
                0 <= j2 <= td.len(),
                out.deep_view() == spec_fold_domains(acc_mid, origin@, tdv.take(j2 as int)),
            decreases td.len() - j2,
        {
            let ghost pre = out.deep_view();
            if !str_eq(td[j2].as_str(), origin) && !vec_contains_str(&out, td[j2].as_str()) {
                let d = td[j2].clone();
                out.push(d);
                proof {
                    assert(out.deep_view() =~= pre.push(tdv[j2 as int]));
                }
            }
            proof {
                assert(tdv.take(j2 + 1 as int).drop_last() =~= tdv.take(j2 as int));
                assert(tdv.take(j2 + 1 as int).last() == tdv[j2 as int]);
            }
            j2 = j2 + 1;
        }
        proof {
            assert(tdv.take(td.len() as int) =~= tdv);
        }
        i = i + 1;
    }
    proof {
        lemma_fold_chunks_props(Seq::empty(), origin@, cv, chunks.len() as int);
    }
    out
}

/// Peers discovered from one server; public rooms are the sole source.
pub fn discover_servers_from_federation(server: &str, rooms: &Vec<RoomChunk>) -> (r: Vec<String>)
    ensures
        r.deep_view() == spec_peers(server@, rooms.deep_view()),
        seq_distinct(r.deep_view()),
        forall|k: int| 0 <= k < r.deep_view().len() ==> #[trigger] r.deep_view()[k] != server@,
{
    discover_servers_from_public_rooms(server, rooms)
}

// ---------------------------------------------------------------------------
// Indexing one discovered domain
// ---------------------------------------------------------------------------

/// Try to index one discovered domain: reject an invalid one, skip a known
/// one, skip a failed probe, and otherwise insert the probed record.
/// Returns whether a record was inserted.
pub fn add_server_to_index(
    repo: &mut Repository,
    domain: &str,
    info: Option<&DiscoveredServerInfo>,
    now: u64,
) -> (r: bool)
    requires
        old(repo).wf(),
    ensures
        final(repo).wf(),
        r == (spec_valid_domain(domain@) && !spec_has_domain(old(repo)@, domain@) && info is Some
            && old(repo)@.len() < i64::MAX),
        r ==> final(repo)@ == old(repo)@.push(
            spec_new_record(
                NewServerView { domain: domain@, info: info.unwrap()@ },
                (old(repo)@.len() + 1) as i64,
                now,
            ),
        ),
        !r ==> final(repo)@ == old(repo)@,
{
    if !is_valid_domain(domain) {
        return false;
    }
    if server_exists(repo, domain) {
        return false;
    }
    let probed = match info {
        Some(probed) => probed,
        None => {
            return false;
        },
    };
    let new_server = NewServer::from_discovered(domain, probed);
    proof {
        assert(new_server@ == NewServerView { domain: domain@, info: probed@ });
    }
    match insert_server(repo, &new_server, now) {
        Ok(_) => true,
        Err(_) => false,
    }
}

// ---------------------------------------------------------------------------
// A discovery run
// ---------------------------------------------------------------------------

/// Ghost image of a discovery run.
pub ghost struct DiscoveryRunView {
    pub max_depth: usize,
    pub batch_size: usize,
    pub seen: Seq<Seq<char>>,
    pub frontier: Seq<Seq<char>>,
    pub next: Seq<Seq<char>>,
    pub visited: Seq<Seq<char>>,
    pub added_count: usize,
    pub rounds_done: usize,
}

/// The state of one discovery run: the domains seen, the current and the
/// forming frontier, the domains already probed, and the insert count.
pub struct DiscoveryRun {
    max_depth: usize,
    batch_size: usize,
    seen: Vec<String>,
    frontier: Vec<String>,
    next: Vec<String>,
    visited: Vec<String>,
    added_count: usize,
    rounds_done: usize,
}

impl View for DiscoveryRun {
    type V = DiscoveryRunView;

    closed spec fn view(&self) -> DiscoveryRunView {
        DiscoveryRunView {
            max_depth: self.max_depth,
            batch_size: self.batch_size,
            seen: self.seen.deep_view(),
            frontier: self.frontier.deep_view(),
            next: self.next.deep_view(),
            visited: self.visited.deep_view(),
            added_count: self.added_count,
            rounds_done: self.rounds_done,
        }
    }
}

/// `seen` after taking every element of `ps` not yet present, in order.
pub open spec fn spec_absorb(seen: Seq<Seq<char>>, ps: Seq<Seq<char>>) -> Seq<Seq<char>>
    decreases ps.len(),
{
    if ps.len() == 0 {
        seen
    } else {
        let prev = spec_absorb(seen, ps.drop_last());
        if prev.contains(ps.last()) {
            prev
        } else {
            prev.push(ps.last())
        }
    }
}

/// The elements of `ps` that `spec_absorb` adds, in order.
pub open spec fn spec_fresh(seen: Seq<Seq<char>>, ps: Seq<Seq<char>>) -> Seq<Seq<char>>
    decreases ps.len(),
{
    if ps.len() == 0 {
        Seq::empty()
    } else {
        let prevf = spec_fresh(seen, ps.drop_last());
        if spec_absorb(seen, ps.drop_last()).contains(ps.last()) {
            prevf
        } else {
            prevf.push(ps.last())
        }
    }
}

/// Absorbing appends exactly the fresh elements, keeps distinctness, and
/// every fresh element was unseen.
pub proof fn lemma_absorb_fresh(seen: Seq<Seq<char>>, ps: Seq<Seq<char>>)
    ensures
        spec_absorb(seen, ps) =~= seen + spec_fresh(seen, ps),
        seq_distinct(seen) ==> seq_distinct(spec_absorb(seen, ps)),
        forall|k: int|
            0 <= k < spec_fresh(seen, ps).len() ==> !seen.contains(#[trigger] spec_fresh(seen, ps)[k]),
    decreases ps.len(),
{
    if ps.len() > 0 {
        lemma_absorb_fresh(seen, ps.drop_last());
        let prev = spec_absorb(seen, ps.drop_last());
        let prevf = spec_fresh(seen, ps.drop_last());
        let x = ps.last();
        if !prev.contains(x) {
            assert(spec_absorb(seen, ps) =~= seen + prevf.push(x));
            if seen.contains(x) {
                let w = choose|w: int| 0 <= w < seen.len() && seen[w] == x;
                assert(prev[w] == x);
                assert(prev.contains(x));
            }
            if seq_distinct(seen) {
                assert forall|i: int, j: int|
                    0 <= i < j < prev.push(x).len() implies prev.push(x)[i] != prev.push(x)[j] by {
                    if j == prev.len() {
                        if prev[i] == x {
                            assert(prev.contains(x));
                        }
                    }
                }
            }
        }
    }
}

impl DiscoveryRun {
    /// Every bookkeeping list is consistent: no repeats, everything known is
    /// in `seen`, and nothing still to probe was probed already.
    pub open spec fn wf(&self) -> bool {
        let v = self@;
        &&& seq_distinct(v.seen)
        &&& seq_distinct(v.frontier)
        &&& seq_distinct(v.next)
        &&& seq_distinct(v.visited)
        &&& seq_subset(v.frontier, v.seen)
        &&& seq_subset(v.next, v.seen)
        &&& seq_subset(v.visited, v.seen)
        &&& seq_disjoint(v.frontier, v.visited)
        &&& seq_disjoint(v.next, v.visited)
        &&& seq_disjoint(v.frontier, v.next)
    }

    /// Start a run: the de-duplicated seeds are seen and form the frontier.
    pub fn new(config: &FederationDiscovery) -> (r: DiscoveryRun)
        ensures
            r.wf(),
            r@.max_depth == config.max_depth,
            r@.batch_size == config.batch_size,
            r@.seen == dedup_first(config.seed_servers.deep_view()),
            r@.frontier == r@.seen,
            r@.next.len() == 0,
            r@.visited.len() == 0,
            r@.added_count == 0,
            r@.rounds_done == 0,
    {
        let seen = dedup_strings(&config.seed_servers);
        let frontier = dup_string_vec(&seen);
        proof {
            lemma_dedup_first(config.seed_servers.deep_view());
            assert(frontier.deep_view() =~= seen.deep_view());
            assert forall|k: int|
                0 <= k < seen.deep_view().len() implies seen.deep_view().contains(
                #[trigger] seen.deep_view()[k],
            ) by {}
        }
        DiscoveryRun {
            max_depth: config.max_depth,
            batch_size: config.batch_size,
            seen,
            frontier,
            next: Vec::new(),
            visited: Vec::new(),
            added_count: 0,
            rounds_done: 0,
        }
    }

    /// Whether another round should run: depth remains and the frontier is
    /// not empty.
    pub fn should_continue(&self) -> (r: bool)
        ensures
            r == (self@.rounds_done < self@.max_depth && self@.frontier.len() > 0),
    {
        self.rounds_done < self.max_depth && self.frontier.len() > 0
    }

    /// Number of records this run inserted so far.
    pub fn added_count(&self) -> (r: usize)
        ensures
            r == self@.added_count,
    {
        self.added_count
    }

    /// Take the frontier for probing; its domains count as visited.
    pub fn begin_round(&mut self) -> (domains: Vec<String>)
        requires
            old(self).wf(),
        ensures
            final(self).wf(),
            domains.deep_view() == old(self)@.frontier,
            final(self)@.frontier.len() == 0,
            final(self)@.visited == old(self)@.visited + old(self)@.frontier,
            final(self)@.seen == old(self)@.seen,
            final(self)@.next == old(self)@.next,
            final(self)@.added_count == old(self)@.added_count,
            final(self)@.rounds_done == old(self)@.rounds_done,
            final(self)@.max_depth == old(self)@.max_depth,
            final(self)@.batch_size == old(self)@.batch_size,
    {
        let ghost v0 = self@;
        let domains = dup_string_vec(&self.frontier);
        proof {
            assert(domains.deep_view() =~= v0.frontier);
        }
        self.visited.append(&mut self.frontier);
        proof {
            assert(self@.visited =~= v0.visited + v0.frontier);
            assert(self@.frontier.len() == 0);
            let nv = self@.visited;
            assert forall|i: int, j: int| 0 <= i < j < nv.len() implies nv[i] != nv[j] by {
                if i < v0.visited.len() && j >= v0.visited.len() {
                    assert(nv[j] == v0.frontier[j - v0.visited.len()]);
                    if nv[i] == nv[j] {
                        assert(v0.visited.contains(nv[i]));
                    }
                }
            }
            assert forall|k: int| 0 <= k < nv.len() implies v0.seen.contains(#[trigger] nv[k]) by {
                if k >= v0.visited.len() {
                    assert(nv[k] == v0.frontier[k - v0.visited.len()]);
                }
            }
            assert forall|k: int|
                0 <= k < self@.next.len() implies !nv.contains(#[trigger] self@.next[k]) by {
                if nv.contains(self@.next[k]) {
                    let w = choose|w: int| 0 <= w < nv.len() && nv[w] == self@.next[k];
                    if w < v0.visited.len() {
                        assert(v0.visited.contains(self@.next[k]));
                    } else {
                        assert(v0.frontier[w - v0.visited.len()] == self@.next[k]);
                        assert(v0.frontier.contains(self@.next[k]));
                        let w2 = choose|w2: int|
                            0 <= w2 < v0.frontier.len() && v0.frontier[w2] == self@.next[k];
                        assert(!v0.next.contains(v0.frontier[w2]));
                    }
                }
            }
        }
        domains
    }

    /// Absorb the peers one probed server reported: every domain not yet
    /// seen becomes seen and joins the forming frontier. Returns the newly
    /// seen domains, for indexing.
    pub fn note_peers(&mut self, peers: &Vec<String>) -> (fresh: Vec<String>)
        requires
            old(self).wf(),
        ensures
            final(self).wf(),
            final(self)@.seen == spec_absorb(old(self)@.seen, peers.deep_view()),
            fresh.deep_view() == spec_fresh(old(self)@.seen, peers.deep_view()),
            final(self)@.next == old(self)@.next + fresh.deep_view(),
            forall|k: int|
                0 <= k < fresh.deep_view().len() ==> !old(self)@.seen.contains(
                    #[trigger] fresh.deep_view()[k],
                ),
            final(self)@.frontier == old(self)@.frontier,
            final(self)@.visited == old(self)@.visited,
            final(self)@.added_count == old(self)@.added_count,
            final(self)@.rounds_done == old(self)@.rounds_done,
            final(self)@.max_depth == old(self)@.max_depth,
            final(self)@.batch_size == old(self)@.batch_size,
    {
        let ghost seen0 = self@.seen;
        let ghost next0 = self@.next;
        let ghost pv = peers.deep_view();
        let mut fresh: Vec<String> = Vec::new();
        let mut i: usize = 0;
        proof {
            assert(pv.take(0) =~= Seq::<Seq<char>>::empty());
            assert(self@.seen == spec_absorb(seen0, pv.take(0)));
            assert(fresh.deep_view() =~= spec_fresh(seen0, pv.take(0)));
            assert(self@.next =~= next0 + fresh.deep_view());
        }
        while i < peers.len()
            invariant
                pv == peers.deep_view(),
                pv.len() == peers.len(),
                forall|k: int| 0 <= k < peers.len() ==> pv[k] == peers[k]@,
                0 <= i <= peers.len(),
                self@.seen == spec_absorb(seen0, pv.take(i as int)),
                fresh.deep_view() == spec_fresh(seen0, pv.take(i as int)),
                self@.next == next0 + fresh.deep_view(),
                self@.frontier == old(self)@.frontier,
                self@.visited == old(self)@.visited,
                self@.added_count == old(self)@.added_count,
                self@.rounds_done == old(self)@.rounds_done,
                self@.max_depth == old(self)@.max_depth,
                self@.batch_size == old(self)@.batch_size,
            decreases peers.len() - i,
        {
            let ghost seen_pre = self@.seen;
            let ghost fresh_pre = fresh.deep_view();
            let ghost next_pre = self@.next;
            if !vec_contains_str(&self.seen, peers[i].as_str()) {
                self.seen.push(peers[i].clone());
                self.next.push(peers[i].clone());
                fresh.push(peers[i].clone());
                proof {
                    assert(self@.seen =~= seen_pre.push(pv[i as int]));
                    assert(fresh.deep_view() =~= fresh_pre.push(pv[i as int]));
                    assert(self@.next =~= next_pre.push(pv[i as int]));
                    assert(next_pre.push(pv[i as int]) =~= next0 + fresh_pre.push(pv[i as int]));
                }
            }
            proof {
                assert(pv.take(i + 1 as int).drop_last() =~= pv.take(i as int));
                assert(pv.take(i + 1 as int).last() == pv[i as int]);
            }
            i = i + 1;
        }
        proof {
            assert(pv.take(peers.len() as int) =~= pv);
            lemma_absorb_fresh(seen0, pv);
            let seenN = self@.seen;
            let freshv = fresh.deep_view();
            let nextN = self@.next;
            // fresh elements sit in the new seen, after the old run
            assert forall|k: int| 0 <= k < freshv.len() implies !seen0.contains(
                #[trigger] freshv[k],
            ) by {}
            assert forall|k: int| 0 <= k < nextN.len() implies seenN.contains(
                #[trigger] nextN[k],
            ) by {
                if k < next0.len() {
                    assert(nextN[k] == next0[k]);
                    assert(seen0.contains(next0[k]));
                    let w = choose|w: int| 0 <= w < seen0.len() && seen0[w] == next0[k];
                    assert(seenN[w] == next0[k]);
                } else {
                    assert(nextN[k] == freshv[k - next0.len()]);
                    assert(seenN[seen0.len() + (k - next0.len())] == freshv[k - next0.len()]);
                }
            }
            assert forall|k: int| 0 <= k < self@.frontier.len() implies seenN.contains(
                #[trigger] self@.frontier[k],
            ) by {
                assert(seen0.contains(self@.frontier[k]));
                let w = choose|w: int| 0 <= w < seen0.len() && seen0[w] == self@.frontier[k];
                assert(seenN[w] == self@.frontier[k]);
            }
            assert forall|k: int| 0 <= k < self@.visited.len() implies seenN.contains(
                #[trigger] self@.visited[k],
            ) by {
                assert(seen0.contains(self@.visited[k]));
                let w = choose|w: int| 0 <= w < seen0.len() && seen0[w] == self@.visited[k];
                assert(seenN[w] == self@.visited[k]);
            }
            // distinctness of the forming frontier
            assert forall|i2: int, j2: int| 0 <= i2 < j2 < nextN.len() implies nextN[i2]
                != nextN[j2] by {
                if i2 < next0.len() && j2 >= next0.len() {
                    assert(nextN[j2] == freshv[j2 - next0.len()]);
                    if nextN[i2] == nextN[j2] {
                        assert(seen0.contains(next0[i2]));
                        let w = choose|w: int| 0 <= w < seen0.len() && seen0[w] == next0[i2];
                        assert(seen0.contains(freshv[j2 - next0.len()]));
                    }
                } else if i2 >= next0.len() {
                    assert(nextN[i2] == freshv[i2 - next0.len()]);
                    assert(nextN[j2] == freshv[j2 - next0.len()]);
                    assert(seenN[seen0.len() + (i2 - next0.len())] == freshv[i2 - next0.len()]);
                    assert(seenN[seen0.len() + (j2 - next0.len())] == freshv[j2 - next0.len()]);
                }
            }
            // nothing new was probed already, nothing new sits in the frontier
            assert forall|k: int| 0 <= k < nextN.len() implies !self@.visited.contains(
                #[trigger] nextN[k],
            ) by {
                if k >= next0.len() {
                    if self@.visited.contains(nextN[k]) {
                        let w = choose|w: int|
                            0 <= w < self@.visited.len() && self@.visited[w] == nextN[k];
                        assert(seen0.contains(self@.visited[w]));
                        assert(nextN[k] == freshv[k - next0.len()]);
                    }
                }
            }
            assert forall|k: int| 0 <= k < self@.frontier.len() implies !nextN.contains(
                #[trigger] self@.frontier[k],
            ) by {
                if nextN.contains(self@.frontier[k]) {
                    let w = choose|w: int| 0 <= w < nextN.len() && nextN[w] == self@.frontier[k];
                    if w < next0.len() {
                        assert(next0.contains(next0[w]));
                        assert(!next0.contains(self@.frontier[k]));
                    } else {
                        assert(seen0.contains(self@.frontier[k]));
                        assert(freshv[w - next0.len()] == self@.frontier[k]);
                    }
                }
            }
        }
        fresh
    }

    /// Record one successful insert.
    pub fn note_added(&mut self)
        requires
            old(self).wf(),
            old(self)@.added_count < usize::MAX,
        ensures
            final(self).wf(),
            final(self)@.added_count == old(self)@.added_count + 1,
            final(self)@.seen == old(self)@.seen,
            final(self)@.frontier == old(self)@.frontier,
            final(self)@.next == old(self)@.next,
            final(self)@.visited == old(self)@.visited,
            final(self)@.rounds_done == old(self)@.rounds_done,
            final(self)@.max_depth == old(self)@.max_depth,
            final(self)@.batch_size == old(self)@.batch_size,
    {
        self.added_count = self.added_count + 1;
    }

    /// Close the round: the forming frontier, truncated to the batch size,
    /// becomes the next frontier.
    pub fn end_round(&mut self)
        requires
            old(self).wf(),
            old(self)@.rounds_done < old(self)@.max_depth,
        ensures
            final(self).wf(),
            final(self)@.frontier == (if old(self)@.next.len() > old(self)@.batch_size {
                old(self)@.next.take(old(self)@.batch_size as int)
            } else {
                old(self)@.next
            }),
            final(self)@.next.len() == 0,
            final(self)@.rounds_done == old(self)@.rounds_done + 1,
            final(self)@.seen == old(self)@.seen,
            final(self)@.visited == old(self)@.visited,
            final(self)@.added_count == old(self)@.added_count,
            final(self)@.max_depth == old(self)@.max_depth,
            final(self)@.batch_size == old(self)@.batch_size,
    {
        let ghost v0 = self@;
        if self.next.len() > self.batch_size {
            self.next.truncate(self.batch_size);
            proof {
                assert(self@.next =~= v0.next.take(v0.batch_size as int));
            }
        }
        let ghost kept = self@.next;
        proof {
            assert forall|k: int| 0 <= k < kept.len() implies kept[k] == v0.next[k] by {}
        }
        self.frontier.clear();
        self.frontier.append(&mut self.next);
        self.rounds_done = self.rounds_done + 1;
        proof {
            assert(self@.frontier =~= kept);
            assert(self@.next.len() == 0);
            assert forall|k: int|
                0 <= k < self@.frontier.len() implies v0.seen.contains(
                #[trigger] self@.frontier[k],
            ) by {
                assert(self@.frontier[k] == v0.next[k]);
            }
            assert forall|k: int|
                0 <= k < self@.frontier.len() implies !v0.visited.contains(
                #[trigger] self@.frontier[k],
            ) by {
                assert(self@.frontier[k] == v0.next[k]);
            }
        }
    }
}

// ---------------------------------------------------------------------------
// A whole run against scripted probes
// ---------------------------------------------------------------------------

/// What probing one domain yields: its public rooms, or nothing when the
/// probe failed, and the record probe, or nothing when that failed.
pub struct ProbeScript {
    pub domain: String,
    pub rooms: Option<Vec<RoomChunk>>,
    pub info: Option<DiscoveredServerInfo>,
}

/// The outcome of a discovery run.
pub struct DiscoveryReport {
    /// Number of records inserted by the run.
    pub added_count: usize,
    /// Every domain probed, each at most once.
    pub visited: Vec<String>,
    /// Every domain seen: seeds and extracted peers.
    pub seen: Vec<String>,
}

/// A record that discovery inserted is owed to the probe data: some probe
/// outcome carries its domain and exactly the attributes the record holds.
pub open spec fn spec_script_provides(network: Seq<ProbeScript>, rec: ServerView) -> bool {
    exists|k: int|
        {
            &&& 0 <= k < network.len()
            &&& (#[trigger] network[k]).domain@ == rec.domain
            &&& network[k].info is Some
            &&& rec == spec_new_record(
                NewServerView { domain: rec.domain, info: network[k].info.unwrap()@ },
                rec.id,
                rec.created_at,
            )
        }
}

/// Position of the first probe outcome for `d`; the length when none.
pub open spec fn spec_first_script(network: Seq<ProbeScript>, d: Seq<char>) -> int
    decreases network.len(),
{
    if network.len() == 0 {
        0
    } else if network[0].domain@ == d {
        0
    } else {
        1 + spec_first_script(network.skip(1), d)
    }
}

proof fn lemma_first_script_at(network: Seq<ProbeScript>, d: Seq<char>, i: int)
    requires
        0 <= i < network.len(),
        network[i].domain@ == d,
        forall|k: int| 0 <= k < i ==> (#[trigger] network[k]).domain@ != d,
    ensures
        spec_first_script(network, d) == i,
    decreases i,
{
    if i > 0 {
        assert(network[0].domain@ != d);
        assert(forall|k: int| 0 <= k < i - 1 ==> (#[trigger] network.skip(1)[k]) == network[k + 1]);
        lemma_first_script_at(network.skip(1), d, i - 1);
    }
}

proof fn lemma_first_script_bounds(network: Seq<ProbeScript>, d: Seq<char>)
    ensures
        0 <= spec_first_script(network, d) <= network.len(),
    decreases network.len(),
{
    if network.len() > 0 && network[0].domain@ != d {
        lemma_first_script_bounds(network.skip(1), d);
    }
}

proof fn lemma_first_script_none(network: Seq<ProbeScript>, d: Seq<char>)
    requires
        forall|k: int| 0 <= k < network.len() ==> (#[trigger] network[k]).domain@ != d,
    ensures
        spec_first_script(network, d) == network.len(),
    decreases network.len(),
{
    if network.len() > 0 {
        assert(forall|k: int|
            0 <= k < network.len() - 1 ==> (#[trigger] network.skip(1)[k]) == network[k + 1]);
        lemma_first_script_none(network.skip(1), d);
    }
}

/// The rooms the first probe outcome for `d` reports; `None` when there is
/// no outcome or its rooms probe failed.
pub open spec fn spec_script_rooms(network: Seq<ProbeScript>, d: Seq<char>) -> Option<
    Seq<RoomChunkView>,
> {
    let i = spec_first_script(network, d);
    if i < network.len() {
        network[i].rooms.deep_view()
    } else {
        None
    }
}

/// The record probe of the first probe outcome for `d`; `None` when there
/// is no outcome or that probe failed.
pub open spec fn spec_script_info(network: Seq<ProbeScript>, d: Seq<char>) -> Option<
    DiscoveredView,
> {
    let i = spec_first_script(network, d);
    if i < network.len() {
        network[i].info.deep_view()
    } else {
        None
    }
}

fn find_script<'a>(network: &'a Vec<ProbeScript>, d: &str) -> (r: Option<&'a ProbeScript>)
    ensures
        r is Some <==> spec_first_script(network@, d@) < network@.len(),
        r matches Some(s) ==> *s == network@[spec_first_script(network@, d@)] && s.domain@ == d@,
{
    let mut i: usize = 0;
    while i < network.len()
        invariant
            0 <= i <= network.len(),
            forall|k: int| 0 <= k < i ==> (#[trigger] network@[k]).domain@ != d@,
        decreases network.len() - i,
    {
        if str_eq(network[i].domain.as_str(), d) {
            proof {
                lemma_first_script_at(network@, d@, i as int);
            }
            return Some(&network[i]);
        }
        i = i + 1;
    }
    proof {
        lemma_first_script_none(network@, d@);
    }
    None
}

// ---------------------------------------------------------------------------
// The walk as a function of the probe data
// ---------------------------------------------------------------------------

/// The repository after one indexing attempt for `d`: a record is appended
/// exactly when `d` is valid and fresh, its probe outcome carries a record,
/// and an identifier can still be assigned.
pub open spec fn spec_try_add(
    repo: Seq<ServerView>,
    network: Seq<ProbeScript>,
    d: Seq<char>,
    now: u64,
) -> Seq<ServerView> {
    let info = spec_script_info(network, d);
    if spec_valid_domain(d) && !spec_has_domain(repo, d) && info is Some && repo.len() < i64::MAX {
        repo.push(
            spec_new_record(
                NewServerView { domain: d, info: info.unwrap() },
                (repo.len() + 1) as i64,
                now,
            ),
        )
    } else {
        repo
    }
}

/// The repository after indexing attempts for every domain of `ds`, in
/// order.
pub open spec fn spec_add_all(
    repo: Seq<ServerView>,
    network: Seq<ProbeScript>,
    ds: Seq<Seq<char>>,
    now: u64,
) -> Seq<ServerView>
    decreases ds.len(),
{
    if ds.len() == 0 {
        repo
    } else {
        spec_try_add(spec_add_all(repo, network, ds.drop_last(), now), network, ds.last(), now)
    }
}

/// Mid-round engine state: the domains seen, the forming frontier, and the
/// records.
pub ghost struct RoundState {
    pub seen: Seq<Seq<char>>,
    pub next: Seq<Seq<char>>,
    pub repo: Seq<ServerView>,
}

/// The state at the start of a round: nothing collected for the next
/// frontier yet.
pub open spec fn spec_round_start(seen: Seq<Seq<char>>, repo: Seq<ServerView>) -> RoundState {
    RoundState { seen, next: Seq::empty(), repo }
}

/// Processing the probe outcome of one domain: a failed probe changes
/// nothing; otherwise its peers are absorbed and every fresh one gets an
/// indexing attempt.
pub open spec fn spec_probe_one(
    st: RoundState,
    network: Seq<ProbeScript>,
    d: Seq<char>,
    now: u64,
) -> RoundState {
    match spec_script_rooms(network, d) {
        Some(chunks) => {
            let peers = spec_peers(d, chunks);
            let fresh = spec_fresh(st.seen, peers);
            RoundState {
                seen: spec_absorb(st.seen, peers),
                next: st.next + fresh,
                repo: spec_add_all(st.repo, network, fresh, now),
            }
        },
        None => st,
    }
}

/// Processing a whole frontier, in order.
pub open spec fn spec_round(
    st: RoundState,
    network: Seq<ProbeScript>,
    frontier: Seq<Seq<char>>,
    now: u64,
) -> RoundState
    decreases frontier.len(),
{
    if frontier.len() == 0 {
        st
    } else {
        spec_probe_one(
            spec_round(st, network, frontier.drop_last(), now),
            network,
            frontier.last(),
            now,
        )
    }
}

/// Whole-run state between rounds.
pub ghost struct WalkState {
    pub seen: Seq<Seq<char>>,
    pub frontier: Seq<Seq<char>>,
    pub visited: Seq<Seq<char>>,
    pub repo: Seq<ServerView>,
}

/// The forming frontier cut down to the batch size.
pub open spec fn spec_truncate_frontier(next: Seq<Seq<char>>, batch_size: usize) -> Seq<
    Seq<char>,
> {
    if next.len() > batch_size {
        next.take(batch_size as int)
    } else {
        next
    }
}

/// The state a run starts from: the de-duplicated seeds are seen and form
/// the frontier; nothing is visited yet.
pub open spec fn spec_walk_start(seeds: Seq<Seq<char>>, repo: Seq<ServerView>) -> WalkState {
    WalkState {
        seen: dedup_first(seeds),
        frontier: dedup_first(seeds),
        visited: Seq::empty(),
        repo,
    }
}

/// The engine state as a walk state.
pub open spec fn spec_run_state(run: DiscoveryRunView, repo: Seq<ServerView>) -> WalkState {
    WalkState { seen: run.seen, frontier: run.frontier, visited: run.visited, repo }
}

/// The whole walk: while depth remains and the frontier is not empty, the
/// frontier is visited, its probe outcomes are processed in order, and the
/// truncated forming frontier carries over.
pub open spec fn spec_walk(
    st: WalkState,
    network: Seq<ProbeScript>,
    now: u64,
    batch_size: usize,
    rounds_left: int,
) -> WalkState
    decreases rounds_left,
{
    if rounds_left <= 0 || st.frontier.len() == 0 {
        st
    } else {
        let r = spec_round(spec_round_start(st.seen, st.repo), network, st.frontier, now);
        spec_walk(
            WalkState {
                seen: r.seen,
                frontier: spec_truncate_frontier(r.next, batch_size),
                visited: st.visited + st.frontier,
                repo: r.repo,
            },
            network,
            now,
            batch_size,
            rounds_left - 1,
        )
    }
}

/// What a walk already visited stays visited, in place: later rounds only
/// append.
pub proof fn lemma_walk_visited_prefix(
    st: WalkState,
    network: Seq<ProbeScript>,
    now: u64,
    batch_size: usize,
    rounds_left: int,
)
    ensures
        spec_walk(st, network, now, batch_size, rounds_left).visited.len() >= st.visited.len(),
        forall|k: int|
            0 <= k < st.visited.len() ==> spec_walk(
                st,
                network,
                now,
                batch_size,
                rounds_left,
            ).visited[k] == st.visited[k],
    decreases rounds_left,
{
    if rounds_left > 0 && st.frontier.len() > 0 {
        let r = spec_round(spec_round_start(st.seen, st.repo), network, st.frontier, now);
        let w1 = WalkState {
            seen: r.seen,
            frontier: spec_truncate_frontier(r.next, batch_size),
            visited: st.visited + st.frontier,
            repo: r.repo,
        };
        lemma_walk_visited_prefix(w1, network, now, batch_size, rounds_left - 1);
        assert(forall|k: int| 0 <= k < st.visited.len() ==> w1.visited[k] == st.visited[k]);
    }
}

/// A walk with depth left probes its whole frontier: the frontier follows
/// the already-visited domains in the final visited run. In particular the
/// de-duplicated seeds are always probed.
pub proof fn lemma_walk_visits_frontier(
    st: WalkState,
    network: Seq<ProbeScript>,
    now: u64,
    batch_size: usize,
    rounds_left: int,
)
    requires
        rounds_left >= 1,
        st.frontier.len() > 0,
    ensures
        spec_walk(st, network, now, batch_size, rounds_left).visited.len() >= st.visited.len()
            + st.frontier.len(),
        forall|k: int|
            0 <= k < st.frontier.len() ==> spec_walk(
                st,
                network,
                now,
                batch_size,
                rounds_left,
            ).visited[st.visited.len() + k] == st.frontier[k],
{
    let r = spec_round(spec_round_start(st.seen, st.repo), network, st.frontier, now);
    let w1 = WalkState {
        seen: r.seen,
        frontier: spec_truncate_frontier(r.next, batch_size),
        visited: st.visited + st.frontier,
        repo: r.repo,
    };
    lemma_walk_visited_prefix(w1, network, now, batch_size, rounds_left - 1);
    assert(forall|k: int|
        0 <= k < st.frontier.len() ==> w1.visited[st.visited.len() + k] == st.frontier[k]);
}

/// The walk is bounded: beyond the first frontier, every round probes at
/// most `batch_size` domains, and at most `rounds_left` rounds run, so the
/// visited run grows by at most the first frontier plus
/// `(rounds_left - 1) * batch_size`.
pub proof fn lemma_walk_visited_bound(
    st: WalkState,
    network: Seq<ProbeScript>,
    now: u64,
    batch_size: usize,
    rounds_left: int,
)
    ensures
        spec_walk(st, network, now, batch_size, rounds_left).visited.len() <= st.visited.len()
            + st.frontier.len() + (if rounds_left >= 1 {
            (rounds_left - 1) * (batch_size as int)
        } else {
            0
        }),
    decreases rounds_left,
{
    if rounds_left > 0 && st.frontier.len() > 0 {
        let r = spec_round(spec_round_start(st.seen, st.repo), network, st.frontier, now);
        let w1 = WalkState {
            seen: r.seen,
            frontier: spec_truncate_frontier(r.next, batch_size),
            visited: st.visited + st.frontier,
            repo: r.repo,
        };
        lemma_walk_visited_bound(w1, network, now, batch_size, rounds_left - 1);
        assert(w1.frontier.len() <= batch_size);
        if rounds_left >= 2 {
            assert((rounds_left - 2) * (batch_size as int) + (batch_size as int) == (rounds_left
                - 1) * (batch_size as int)) by (nonlinear_arith);
        }
    } else {
        if rounds_left >= 1 {
            let b = batch_size as int;
            assert(b >= 0);
            assert((rounds_left - 1) * b >= 0) by (nonlinear_arith)
                requires
                    rounds_left >= 1,
                    b >= 0,
            ;
        }
    }
}

impl FederationDiscovery {
    /// Walk the federation graph from the seeds, at most `max_depth` rounds
    /// deep, probing by looking each domain up in `network`.
    ///
    /// The outcome is exactly `spec_walk` applied to the probe data: the
    /// final records, the visited domains and the seen domains are all
    /// functions of the configuration, the starting repository and
    /// `network`. Records already present stay untouched; every insert is
    /// for a domain the repository did not hold and is owed to the probe
    /// data; `added_count` counts exactly the new records; and no domain is
    /// probed twice.
    pub fn start_discovery(&self, repo: &mut Repository, network: &Vec<ProbeScript>, now: u64) -> (r:
        DiscoveryReport)
        requires
            old(repo).wf(),
        ensures
            final(repo).wf(),
            ({
                let fin = spec_walk(
                    spec_walk_start(self.seed_servers.deep_view(), old(repo)@),
                    network@,
                    now,
                    self.batch_size,
                    self.max_depth as int,
                );
                &&& final(repo)@ == fin.repo
                &&& r.visited.deep_view() == fin.visited
                &&& r.seen.deep_view() == fin.seen
            }),
            final(repo)@.len() >= old(repo)@.len(),
            forall|i: int| 0 <= i < old(repo)@.len() ==> final(repo)@[i] == old(repo)@[i],
            r.added_count == final(repo)@.len() - old(repo)@.len(),
            forall|i: int|
                old(repo)@.len() <= i < final(repo)@.len() ==> !spec_has_domain(
                    old(repo)@,
                    #[trigger] final(repo)@[i].domain,
                ),
            forall|i: int|
                old(repo)@.len() <= i < final(repo)@.len() ==> spec_script_provides(
                    network@,
                    #[trigger] final(repo)@[i],
                ) && final(repo)@[i].created_at == now,
            seq_distinct(r.visited.deep_view()),
    {
        let ghost repo0 = repo@;
        let ghost fin = spec_walk(
            spec_walk_start(self.seed_servers.deep_view(), repo0),
            network@,
            now,
            self.batch_size,
            self.max_depth as int,
        );
        let mut run = DiscoveryRun::new(self);
        proof {
            assert(run@.visited =~= Seq::<Seq<char>>::empty());
            assert(spec_run_state(run@, repo@) == spec_walk_start(
                self.seed_servers.deep_view(),
                repo0,
            ));
        }
        while run.should_continue()
            invariant
                run.wf(),
                repo.wf(),
                repo@.len() >= repo0.len(),
                forall|i: int| 0 <= i < repo0.len() ==> repo@[i] == repo0[i],
                run@.added_count == repo@.len() - repo0.len(),
                forall|i: int|
                    repo0.len() <= i < repo@.len() ==> spec_script_provides(
                        network@,
                        #[trigger] repo@[i],
                    ) && repo@[i].created_at == now,
                run@.next.len() == 0,
                run@.max_depth == self.max_depth,
                run@.batch_size == self.batch_size,
                run@.rounds_done <= self.max_depth,
                fin == spec_walk(
                    spec_walk_start(self.seed_servers.deep_view(), repo0),
                    network@,
                    now,
                    self.batch_size,
                    self.max_depth as int,
                ),
                spec_walk(
                    spec_run_state(run@, repo@),
                    network@,
                    now,
                    self.batch_size,
                    self.max_depth - run@.rounds_done,
                ) == fin,
            decreases run@.max_depth - run@.rounds_done,
        {
            let ghost rd = run@.rounds_done;
            let ghost md = run@.max_depth;
            let ghost w_pre = spec_run_state(run@, repo@);
            let ghost seen_r = run@.seen;
            let ghost front_r = run@.frontier;
            let ghost vis_r = run@.visited;
            let ghost repo_r = repo@;
            let domains = run.begin_round();
            let ghost dv = domains.deep_view();
            proof {
                assert(dv == front_r);
                assert(dv.take(0) =~= Seq::<Seq<char>>::empty());
                assert(spec_round(spec_round_start(seen_r, repo_r), network@, dv.take(0), now)
                    == spec_round_start(seen_r, repo_r));
                assert(run@.next =~= Seq::<Seq<char>>::empty());
            }
            let mut di: usize = 0;
            while di < domains.len()
                invariant
                    run.wf(),
                    repo.wf(),
                    repo@.len() >= repo0.len(),
                    forall|i: int| 0 <= i < repo0.len() ==> repo@[i] == repo0[i],
                    run@.added_count == repo@.len() - repo0.len(),
                    forall|i: int|
                        repo0.len() <= i < repo@.len() ==> spec_script_provides(
                            network@,
                            #[trigger] repo@[i],
                        ) && repo@[i].created_at == now,
                    run@.rounds_done == rd,
                    run@.max_depth == md,
                    run@.batch_size == self.batch_size,
                    run@.frontier.len() == 0,
                    run@.visited == vis_r + front_r,
                    dv == domains.deep_view(),
                    dv.len() == domains.len(),
                    forall|k: int| 0 <= k < domains.len() ==> dv[k] == domains[k]@,
                    0 <= di <= domains.len(),
                    spec_round(spec_round_start(seen_r, repo_r), network@, dv.take(di as int), now)
                        == (RoundState { seen: run@.seen, next: run@.next, repo: repo@ }),
                decreases domains.len() - di,
            {
                let ghost st_prev = spec_round(
                    spec_round_start(seen_r, repo_r),
                    network@,
                    dv.take(di as int),
                    now,
                );
                let domain = &domains[di];
                match find_script(network, domain.as_str()) {
                    Some(script) => match &script.rooms {
                        Some(rooms) => {
                            proof {
                                let fs = spec_first_script(network@, dv[di as int]);
                                lemma_first_script_bounds(network@, dv[di as int]);
                                assert(network@[fs].rooms == script.rooms);
                                assert(spec_script_rooms(network@, dv[di as int]) == Some(
                                    rooms.deep_view(),
                                ));
                            }
                            let peers = discover_servers_from_public_rooms(domain.as_str(), rooms);
                            let new_domains = run.note_peers(&peers);
                            let ghost fdv = new_domains.deep_view();
                            let ghost seen_d = run@.seen;
                            let ghost next_d = run@.next;
                            let ghost repo_d = repo@;
                            proof {
                                assert(peers.deep_view() == spec_peers(
                                    dv[di as int],
                                    rooms.deep_view(),
                                ));
                                assert(seen_d == spec_absorb(st_prev.seen, peers.deep_view()));
                                assert(fdv == spec_fresh(st_prev.seen, peers.deep_view()));
                                assert(next_d == st_prev.next + fdv);
                                assert(fdv.take(0) =~= Seq::<Seq<char>>::empty());
                            }
                            let mut ni: usize = 0;
                            while ni < new_domains.len()
                                invariant
                                    run.wf(),
                                    repo.wf(),
                                    repo@.len() >= repo0.len(),
                                    forall|i: int| 0 <= i < repo0.len() ==> repo@[i] == repo0[i],
                                    run@.added_count == repo@.len() - repo0.len(),
                                    forall|i: int|
                                        repo0.len() <= i < repo@.len() ==> spec_script_provides(
                                            network@,
                                            #[trigger] repo@[i],
                                        ) && repo@[i].created_at == now,
                                    run@.rounds_done == rd,
                                    run@.max_depth == md,
                                    run@.batch_size == self.batch_size,
                                    run@.frontier.len() == 0,
                                    run@.visited == vis_r + front_r,
                                    run@.seen == seen_d,
                                    run@.next == next_d,
                                    fdv == new_domains.deep_view(),
                                    fdv.len() == new_domains.len(),
                                    forall|k: int|
                                        0 <= k < new_domains.len() ==> fdv[k] == new_domains[k]@,
                                    0 <= ni <= new_domains.len(),
                                    repo@ == spec_add_all(repo_d, network@, fdv.take(ni as int), now),
                                decreases new_domains.len() - ni,
                            {
                                let ghost repo_cur = repo@;
                                let nd = &new_domains[ni];
                                let script2 = find_script(network, nd.as_str());
                                let info: Option<&DiscoveredServerInfo> = match script2 {
                                    Some(s) => match &s.info {
                                        Some(inf) => Some(inf),
                                        None => None,
                                    },
                                    None => None,
                                };
                                proof {
                                    let fs2 = spec_first_script(network@, fdv[ni as int]);
                                    lemma_first_script_bounds(network@, fdv[ni as int]);
                                    match script2 {
                                        Some(s) => {
                                            assert(network@[fs2].info == s.info);
                                        },
                                        None => {},
                                    }
                                    match info {
                                        Some(inf) => {
                                            assert(spec_script_info(network@, fdv[ni as int])
                                                == Some(inf@));
                                        },
                                        None => {
                                            assert(spec_script_info(network@, fdv[ni as int])
                                                is None);
                                        },
                                    }
                                }
                                if add_server_to_index(repo, nd.as_str(), info, now) {
                                    proof {
                                        let rec = repo@[repo@.len() - 1];
                                        let s = script2.unwrap();
                                        let k = spec_first_script(network@, fdv[ni as int]);
                                        lemma_first_script_bounds(network@, fdv[ni as int]);
                                        assert(*s == network@[k]);
                                        assert(network@[k].domain@ == rec.domain);
                                        assert(network@[k].info is Some);
                                        assert(network@[k].info.unwrap()@ == info.unwrap()@);
                                        assert(rec == spec_new_record(
                                            NewServerView {
                                                domain: rec.domain,
                                                info: network@[k].info.unwrap()@,
                                            },
                                            rec.id,
                                            rec.created_at,
                                        ));
                                        assert(spec_script_provides(network@, rec));
                                    }
                                    let cur = repo.len();
                                    proof {
                                        assert(cur >= 1);
                                        assert(run@.added_count == cur - 1 - repo0.len());
                                        assert(run@.added_count < usize::MAX);
                                    }
                                    run.note_added();
                                }
                                proof {
                                    assert(repo@ == spec_try_add(
                                        repo_cur,
                                        network@,
                                        fdv[ni as int],
                                        now,
                                    ));
                                    assert(fdv.take(ni + 1 as int).drop_last() =~= fdv.take(
                                        ni as int,
                                    ));
                                    assert(fdv.take(ni + 1 as int).last() == fdv[ni as int]);
                                }
                                ni = ni + 1;
                            }
                            proof {
                                assert(fdv.take(new_domains.len() as int) =~= fdv);
                                assert(repo@ == spec_add_all(st_prev.repo, network@, fdv, now));
                                assert(spec_probe_one(st_prev, network@, dv[di as int], now)
                                    == (RoundState {
                                    seen: run@.seen,
                                    next: run@.next,
                                    repo: repo@,
                                }));
                            }
                        },
                        None => {
                            proof {
                                let fs = spec_first_script(network@, dv[di as int]);
                                lemma_first_script_bounds(network@, dv[di as int]);
                                assert(network@[fs].rooms == script.rooms);
                                assert(spec_script_rooms(network@, dv[di as int]) is None);
                                assert(spec_probe_one(st_prev, network@, dv[di as int], now)
                                    == st_prev);
                            }
                        },
                    },
                    None => {
                        proof {
                            assert(spec_script_rooms(network@, dv[di as int]) is None);
                            assert(spec_probe_one(st_prev, network@, dv[di as int], now)
                                == st_prev);
                        }
                    },
                }
                proof {
                    assert(dv.take(di + 1 as int).drop_last() =~= dv.take(di as int));
                    assert(dv.take(di + 1 as int).last() == dv[di as int]);
                }
                di = di + 1;
            }
            proof {
                assert(dv.take(domains.len() as int) =~= dv);
            }
            run.end_round();
            proof {
                let rstate = spec_round(spec_round_start(seen_r, repo_r), network@, front_r, now);
                assert(run@.seen == rstate.seen);
                assert(run@.frontier == spec_truncate_frontier(rstate.next, self.batch_size));
                assert(run@.visited == vis_r + front_r);
                assert(repo@ == rstate.repo);
                let w_now = spec_run_state(run@, repo@);
                assert(spec_walk(w_pre, network@, now, self.batch_size, md - rd) == spec_walk(
                    w_now,
                    network@,
                    now,
                    self.batch_size,
                    md - rd - 1,
                ));
            }
        }
        proof {
            let w_end = spec_run_state(run@, repo@);
            assert(spec_walk(
                w_end,
                network@,
                now,
                self.batch_size,
                self.max_depth - run@.rounds_done,
            ) == w_end);
            assert(fin == w_end);
            assert forall|i: int|
                repo0.len() <= i < repo@.len() implies !spec_has_domain(
                repo0,
                #[trigger] repo@[i].domain,
            ) by {
                if spec_has_domain(repo0, repo@[i].domain) {
                    let j = choose|j: int|
                        0 <= j < repo0.len() && ci_eq(repo0[j].domain, repo@[i].domain);
                    assert(repo@[j] == repo0[j]);
                    assert(!ci_eq(repo@[j].domain, repo@[i].domain));
                }
            }
        }
        DiscoveryReport {
            added_count: run.added_count,
            visited: run.visited,
            seen: run.seen,
        }
    }
}

} // verus!
