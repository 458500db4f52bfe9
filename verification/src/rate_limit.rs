//! Per-client rate limiting: a fixed budget of requests per minute, with the
//! window restarting once a client stays quiet for a minute.

use vstd::prelude::*;

use crate::strutil::str_eq;

verus! {

/// A client was over its budget.
#[derive(Clone, Copy, PartialEq, Eq, Structural, Debug)]
pub struct RateLimitError;

/// Ghost image of the limiter.
pub ghost struct RateLimiterView {
    pub requests_per_minute: u64,
    /// Per client: identifier, requests counted, time of the last request.
    pub clients: Seq<(Seq<char>, u64, u64)>,
}

/// Per-client request counters; a budget of 0 disables limiting.
pub struct RateLimiterState {
    pub requests_per_minute: u64,
    client_requests: Vec<(String, u64, u64)>,
}

impl View for RateLimiterState {
    type V = RateLimiterView;

    closed spec fn view(&self) -> RateLimiterView {
        RateLimiterView {
            requests_per_minute: self.requests_per_minute,
            clients: self.client_requests.deep_view(),
        }
    }
}

/// Some row belongs to `id`.
pub open spec fn spec_has_client(clients: Seq<(Seq<char>, u64, u64)>, id: Seq<char>) -> bool {
    exists|i: int| 0 <= i < clients.len() && clients[i].0 == id
}

/// The row belonging to `id` (rows are unique per client).
pub open spec fn spec_client(clients: Seq<(Seq<char>, u64, u64)>, id: Seq<char>) -> (
    Seq<char>,
    u64,
    u64,
) {
    clients[choose|i: int| 0 <= i < clients.len() && clients[i].0 == id]
}

/// `clients` with the row of `id` replaced, or appended when absent.
pub open spec fn spec_upsert(
    clients: Seq<(Seq<char>, u64, u64)>,
    id: Seq<char>,
    count: u64,
    last: u64,
) -> Seq<(Seq<char>, u64, u64)> {
    if spec_has_client(clients, id) {
        clients.update(choose|i: int| 0 <= i < clients.len() && clients[i].0 == id, (id, count, last))
    } else {
        clients.push((id, count, last))
    }
}

/// How one check call at time `now` moves the limiter and whether it passes.
///
/// A budget of 0 always passes without bookkeeping. A client unseen for 60
/// seconds (or never seen) starts a fresh window with one request. Within a
/// window, a client at or over budget is refused and nothing changes; under
/// budget, the count goes up and the last-request time moves to `now`.
pub open spec fn spec_check_post(
    pre: RateLimiterView,
    post: RateLimiterView,
    id: Seq<char>,
    now: u64,
    passed: bool,
) -> bool {
    if pre.requests_per_minute == 0 {
        passed && post == pre
    } else if !spec_has_client(pre.clients, id) || now >= spec_client(pre.clients, id).2 + 60 {
        passed && post.requests_per_minute == pre.requests_per_minute && post.clients
            == spec_upsert(pre.clients, id, 1, now)
    } else if spec_client(pre.clients, id).1 >= pre.requests_per_minute {
        !passed && post == pre
    } else {
        passed && post.requests_per_minute == pre.requests_per_minute && post.clients
            == spec_upsert(
            pre.clients,
            id,
            (spec_client(pre.clients, id).1 + 1) as u64,
            now,
        )
    }
}

/// Relies on std::time::SystemTime::now: the wall clock as whole seconds
/// since the Unix epoch, 0 when the clock reads earlier than the epoch.
#[verifier::external_body]
fn now_unix_seconds() -> u64 {
    match std::time::SystemTime::now().duration_since(std::time::UNIX_EPOCH) {
        Ok(d) => d.as_secs(),
        Err(_) => 0,
    }
}

impl RateLimiterState {
    /// Client identifiers are pairwise distinct.
    pub open spec fn wf(&self) -> bool {
        forall|i: int, j: int|
            0 <= i < j < self@.clients.len() ==> self@.clients[i].0 != self@.clients[j].0
    }

    /// A limiter with the given budget and no clients on record.
    pub fn new(requests_per_minute: u32) -> (r: RateLimiterState)
        ensures
            r.wf(),
            r@.requests_per_minute == requests_per_minute as u64,
            r@.clients =~= Seq::<(Seq<char>, u64, u64)>::empty(),
    {
        RateLimiterState {
            requests_per_minute: requests_per_minute as u64,
            client_requests: Vec::new(),
        }
    }

    fn find_client(&self, id: &str) -> (r: Option<usize>)
        ensures
            match r {
                Some(i) => i < self@.clients.len() && self@.clients[i as int].0 == id@,
                None => !spec_has_client(self@.clients, id@),
            },
    {
        let ghost cv = self@.clients;
        let mut i: usize = 0;
        while i < self.client_requests.len()
            invariant
                cv == self@.clients,
                cv.len() == self.client_requests.len(),
                forall|k: int|
                    0 <= k < self.client_requests.len() ==> cv[k]
                        == self.client_requests[k].deep_view(),
                0 <= i <= self.client_requests.len(),
                forall|k: int| 0 <= k < i ==> cv[k].0 != id@,
            decreases self.client_requests.len() - i,
        {
            if str_eq(self.client_requests[i].0.as_str(), id) {
                return Some(i);
            }
            i = i + 1;
        }
        None
    }

    /// Count one request from `client_id` at time `now_secs` against the
    /// budget.
    pub fn check_at(&mut self, client_id: &str, now_secs: u64) -> (r: Result<(), RateLimitError>)
        requires
            old(self).wf(),
        ensures
            final(self).wf(),
            spec_check_post(old(self)@, final(self)@, client_id@, now_secs, r is Ok),
    {
        if self.requests_per_minute == 0 {
            return Ok(());
        }
        let ghost pre = self@.clients;
        match self.find_client(client_id) {
            Some(i) => {
                proof {
                    let w = choose|w: int| 0 <= w < pre.len() && pre[w].0 == client_id@;
                    assert(w == i as int);
                }
                let last = self.client_requests[i].2;
                let should_reset = last <= u64::MAX - 60 && now_secs >= last + 60;
                if should_reset {
                    let row = (String::from_str(client_id), 1u64, now_secs);
                    self.client_requests.set(i, row);
                    proof {
                        assert(self@.clients =~= spec_upsert(pre, client_id@, 1, now_secs));
                    }
                    Ok(())
                } else {
                    let count = self.client_requests[i].1;
                    if count >= self.requests_per_minute {
                        return Err(RateLimitError);
                    }
                    let row = (String::from_str(client_id), count + 1, now_secs);
                    self.client_requests.set(i, row);
                    proof {
                        assert(self@.clients =~= spec_upsert(
                            pre,
                            client_id@,
                            (count + 1) as u64,
                            now_secs,
                        ));
                    }
                    Ok(())
                }
            },
            None => {
                let row = (String::from_str(client_id), 1u64, now_secs);
                self.client_requests.push(row);
                proof {
                    assert(self@.clients =~= spec_upsert(pre, client_id@, 1, now_secs));
                }
                Ok(())
            },
        }
    }

    /// Count one request from `client_id` now, against the wall clock.
    pub fn check(&mut self, client_id: &str) -> (r: Result<(), RateLimitError>)
        requires
            old(self).wf(),
        ensures
            final(self).wf(),
            ({
                let passed = r is Ok;
                exists|now: u64| spec_check_post(old(self)@, final(self)@, client_id@, now, passed)
            }),
    {
        let now = now_unix_seconds();
        let r = self.check_at(client_id, now);
        proof {
            assert(spec_check_post(old(self)@, self@, client_id@, now, r is Ok));
        }
        r
    }
}

} // verus!
