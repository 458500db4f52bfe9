//! Key–value cache model with per-entry expiry and glob invalidation.
//!
//! The store holds decoded values under dotted-prefix keys. Every operation
//! takes the current time in seconds; an entry is live while the clock has
//! not reached its expiry. An unconnected cache refuses every operation, and
//! callers treat any error as a miss.

use vstd::prelude::*;

use crate::models::{PaginatedServersResponse, PageView, ServerInfo, ServerInfoView};

verus! {

// ---------------------------------------------------------------------------
// Errors and values
// ---------------------------------------------------------------------------

/// Why a cache operation yielded nothing.
#[derive(Clone, Copy, PartialEq, Eq, Structural, Debug)]
pub enum CacheError {
    /// No live entry under the requested key.
    NotFound,
    /// The cache was never connected.
    NotInitialized,
}

impl CacheError {
    /// A short description of the error.
    pub fn message(&self) -> (r: String)
        ensures
            *self is NotFound ==> r@ == "Cache not found"@,
            *self is NotInitialized ==> r@ == "Connection not initialized"@,
    {
        match self {
            CacheError::NotFound => String::from_str("Cache not found"),
            CacheError::NotInitialized => String::from_str("Connection not initialized"),
        }
    }
}

/// A value the read path caches.
pub enum CacheValue {
    /// A liveness report.
    Info(ServerInfo),
    /// A page of records.
    Page(PaginatedServersResponse),
}

/// Ghost image of a cached value.
pub ghost enum CacheValueView {
    Info(ServerInfoView),
    Page(PageView),
}

impl View for CacheValue {
    type V = CacheValueView;

    open spec fn view(&self) -> CacheValueView {
        match self {
            CacheValue::Info(i) => CacheValueView::Info(i@),
            CacheValue::Page(p) => CacheValueView::Page(p@),
        }
    }
}

impl CacheValue {
    /// Copy, preserving the view.
    pub fn duplicate(&self) -> (r: CacheValue)
        ensures
            r@ == self@,
    {
        match self {
            CacheValue::Info(i) => CacheValue::Info(i.duplicate()),
            CacheValue::Page(p) => CacheValue::Page(p.duplicate()),
        }
    }
}

// ---------------------------------------------------------------------------
// Keys
// ---------------------------------------------------------------------------

/// The dotted-prefix key `prefix:part:…:part`.
pub open spec fn spec_cache_key(prefix: Seq<char>, parts: Seq<Seq<char>>) -> Seq<char>
    decreases parts.len(),
{
    if parts.len() == 0 {
        prefix
    } else {
        spec_cache_key(prefix, parts.drop_last()) + seq![':'] + parts.last()
    }
}

/// Build the key `prefix:part:…:part`.
pub fn cache_key(prefix: &str, parts: &[&str]) -> (r: String)
    ensures
        r@ == spec_cache_key(prefix@, parts@.map_values(|p: &str| p@)),
{
    let ghost pv = parts@.map_values(|p: &str| p@);
    let mut key = String::from_str(prefix);
    proof {
        assert(pv.take(0) =~= Seq::<Seq<char>>::empty());
        assert(key@ == spec_cache_key(prefix@, pv.take(0)));
    }
    let mut i: usize = 0;
    while i < parts.len()
        invariant
            pv == parts@.map_values(|p: &str| p@),
            pv.len() == parts@.len(),
            forall|k: int| 0 <= k < parts@.len() ==> pv[k] == parts@[k]@,
            0 <= i <= parts.len(),
            key@ == spec_cache_key(prefix@, pv.take(i as int)),
        decreases parts.len() - i,
    {
        proof {
            reveal_strlit(":");
        }
        key.append(":");
        key.append(parts[i]);
        proof {
            assert(":"@ =~= seq![':']);
            assert(pv.take(i + 1 as int).drop_last() =~= pv.take(i as int));
            assert(pv.take(i + 1 as int).last() == pv[i as int]);
        }
        i = i + 1;
    }
    proof {
        assert(pv.take(parts@.len() as int) =~= pv);
    }
    key
}

// ---------------------------------------------------------------------------
// Glob matching
// ---------------------------------------------------------------------------

/// Glob matching with `*` (any run) and `?` (any one character); every other
/// pattern character matches itself.
pub open spec fn glob_match(p: Seq<char>, s: Seq<char>) -> bool
    decreases p.len(), s.len(),
{
    if p.len() == 0 {
        s.len() == 0
    } else if p[0] == '*' {
        glob_match(p.skip(1), s) || (s.len() > 0 && glob_match(p, s.skip(1)))
    } else if p[0] == '?' {
        s.len() > 0 && glob_match(p.skip(1), s.skip(1))
    } else {
        s.len() > 0 && s[0] == p[0] && glob_match(p.skip(1), s.skip(1))
    }
}

fn glob_match_at(p: &str, s: &str, i: usize, j: usize) -> (r: bool)
    requires
        i <= p@.len(),
        j <= s@.len(),
    ensures
        r == glob_match(p@.skip(i as int), s@.skip(j as int)),
    decreases p@.len() - i, s@.len() - j,
{
    let pn = p.unicode_len();
    let sn = s.unicode_len();
    let ghost pp = p@.skip(i as int);
    let ghost ss = s@.skip(j as int);
    if i == pn {
        proof {
            assert(pp.len() == 0);
        }
        return j == sn;
    }
    let c = p.get_char(i);
    proof {
        assert(pp[0] == p@[i as int]);
        assert(pp.skip(1) =~= p@.skip(i + 1 as int));
        if j < sn {
            assert(ss[0] == s@[j as int]);
            assert(ss.skip(1) =~= s@.skip(j + 1 as int));
        }
    }
    if c == '*' {
        if glob_match_at(p, s, i + 1, j) {
            return true;
        }
        if j < sn {
            return glob_match_at(p, s, i, j + 1);
        }
        false
    } else if c == '?' {
        if j < sn {
            glob_match_at(p, s, i + 1, j + 1)
        } else {
            false
        }
    } else {
        if j < sn && s.get_char(j) == c {
            glob_match_at(p, s, i + 1, j + 1)
        } else {
            false
        }
    }
}

/// Whether `s` matches the glob pattern `p`.
pub fn glob_matches(p: &str, s: &str) -> (r: bool)
    ensures
        r == glob_match(p@, s@),
{
    let r = glob_match_at(p, s, 0, 0);
    proof {
        assert(p@.skip(0) =~= p@);
        assert(s@.skip(0) =~= s@);
    }
    r
}

// ---------------------------------------------------------------------------
// The cache
// ---------------------------------------------------------------------------

/// One cached entry.
pub struct CacheEntry {
    pub key: String,
    pub value: CacheValue,
    pub expires_at: u64,
}

/// Ghost image of one cached entry.
pub ghost struct CacheEntryView {
    pub key: Seq<char>,
    pub value: CacheValueView,
    pub expires_at: u64,
}

impl View for CacheEntry {
    type V = CacheEntryView;

    open spec fn view(&self) -> CacheEntryView {
        CacheEntryView { key: self.key@, value: self.value@, expires_at: self.expires_at }
    }
}

impl DeepView for CacheEntry {
    type V = CacheEntryView;

    open spec fn deep_view(&self) -> CacheEntryView {
        self.view()
    }
}

/// Ghost image of the cache.
pub ghost struct CacheView {
    pub connected: bool,
    pub entries: Seq<CacheEntryView>,
}

/// Key→value store with per-entry expiry; unconnected until `connect`.
pub struct Cache {
    connected: bool,
    entries: Vec<CacheEntry>,
}

impl View for Cache {
    type V = CacheView;

    closed spec fn view(&self) -> CacheView {
        CacheView { connected: self.connected, entries: self.entries.deep_view() }
    }
}

/// Some entry carries the key `k`.
pub open spec fn spec_has_key(entries: Seq<CacheEntryView>, k: Seq<char>) -> bool {
    exists|i: int| 0 <= i < entries.len() && entries[i].key == k
}

/// The entry carrying the key `k` (keys are unique in a well-formed cache).
pub open spec fn spec_entry(entries: Seq<CacheEntryView>, k: Seq<char>) -> CacheEntryView {
    entries[choose|i: int| 0 <= i < entries.len() && entries[i].key == k]
}

/// A live entry carries the key `k` and has not expired at `now`.
pub open spec fn spec_live(entries: Seq<CacheEntryView>, k: Seq<char>, now: u64) -> bool {
    spec_has_key(entries, k) && now < spec_entry(entries, k).expires_at
}

/// `entries` with the entry under `k` replaced, or appended when absent.
pub open spec fn spec_set(
    entries: Seq<CacheEntryView>,
    k: Seq<char>,
    v: CacheValueView,
    expires_at: u64,
) -> Seq<CacheEntryView> {
    let e = CacheEntryView { key: k, value: v, expires_at };
    if spec_has_key(entries, k) {
        entries.update(choose|i: int| 0 <= i < entries.len() && entries[i].key == k, e)
    } else {
        entries.push(e)
    }
}

/// `entries` without the entry under `k`, if any.
pub open spec fn spec_delete(entries: Seq<CacheEntryView>, k: Seq<char>) -> Seq<CacheEntryView> {
    if spec_has_key(entries, k) {
        entries.remove(choose|i: int| 0 <= i < entries.len() && entries[i].key == k)
    } else {
        entries
    }
}

/// `entries` without every entry whose key matches the glob `pat`.
pub open spec fn spec_invalidate(entries: Seq<CacheEntryView>, pat: Seq<char>) -> Seq<
    CacheEntryView,
>
    decreases entries.len(),
{
    if entries.len() == 0 {
        entries
    } else {
        let rest = spec_invalidate(entries.drop_last(), pat);
        if glob_match(pat, entries.last().key) {
            rest
        } else {
            rest.push(entries.last())
        }
    }
}

/// The expiry of an entry written at `now` with `ttl_seconds` to live.
pub open spec fn spec_expiry(now: u64, ttl_seconds: u64) -> u64 {
    if now + ttl_seconds <= u64::MAX {
        (now + ttl_seconds) as u64
    } else {
        u64::MAX
    }
}

impl Cache {
    /// Keys are pairwise distinct.
    pub open spec fn wf(&self) -> bool {
        forall|i: int, j: int|
            0 <= i < j < self@.entries.len() ==> self@.entries[i].key != self@.entries[j].key
    }

    /// A fresh, unconnected cache.
    pub fn new() -> (r: Cache)
        ensures
            !r@.connected,
            r@.entries =~= Seq::<CacheEntryView>::empty(),
            r.wf(),
    {
        Cache { connected: false, entries: Vec::new() }
    }

    /// Connect the cache; in this model connecting always succeeds and the
    /// address is not interpreted.
    pub fn connect(&mut self, url: &str) -> (r: Result<(), CacheError>)
        ensures
            r == Result::<(), CacheError>::Ok(()),
            final(self)@.connected,
            final(self)@.entries == old(self)@.entries,
            old(self).wf() ==> final(self).wf(),
    {
        let _ = url;
        self.connected = true;
        Ok(())
    }

    /// Position of the entry under `key`, if any.
    fn find_key(&self, key: &str) -> (r: Option<usize>)
        ensures
            match r {
                Some(i) => i < self@.entries.len() && self@.entries[i as int].key == key@,
                None => !spec_has_key(self@.entries, key@),
            },
    {
        let ghost ev = self@.entries;
        let mut i: usize = 0;
        while i < self.entries.len()
            invariant
                ev == self@.entries,
                ev.len() == self.entries.len(),
                forall|k: int| 0 <= k < self.entries.len() ==> ev[k] == self.entries[k]@,
                0 <= i <= self.entries.len(),
                forall|k: int| 0 <= k < i ==> ev[k].key != key@,
            decreases self.entries.len() - i,
        {
            if crate::strutil::str_eq(self.entries[i].key.as_str(), key) {
                return Some(i);
            }
            i = i + 1;
        }
        None
    }

    /// Look up the live value under `key` at time `now`.
    ///
    /// Errors are misses: `NotInitialized` before `connect`, `NotFound` when
    /// no entry carries the key or its expiry has passed.
    pub fn get(&self, key: &str, now: u64) -> (r: Result<CacheValue, CacheError>)
        requires
            self.wf(),
        ensures
            !self@.connected ==> r == Result::<CacheValue, CacheError>::Err(
                CacheError::NotInitialized,
            ),
            self@.connected && !spec_live(self@.entries, key@, now) ==> r == Result::<
                CacheValue,
                CacheError,
            >::Err(CacheError::NotFound),
            self@.connected && spec_live(self@.entries, key@, now) ==> (r matches Ok(v) && v@
                == spec_entry(self@.entries, key@).value),
    {
        if !self.connected {
            return Err(CacheError::NotInitialized);
        }
        match self.find_key(key) {
            Some(i) => {
                proof {
                    let w = choose|w: int|
                        0 <= w < self@.entries.len() && self@.entries[w].key == key@;
                    assert(w == i as int);
                }
                if now < self.entries[i].expires_at {
                    Ok(self.entries[i].value.duplicate())
                } else {
                    Err(CacheError::NotFound)
                }
            },
            None => Err(CacheError::NotFound),
        }
    }

    /// Store `value` under `key` for `ttl_seconds`, replacing any previous
    /// entry under that key.
    pub fn set(&mut self, key: &str, value: &CacheValue, ttl_seconds: u64, now: u64) -> (r: Result<
        (),
        CacheError,
    >)
        requires
            old(self).wf(),
        ensures
            final(self).wf(),
            !old(self)@.connected ==> r == Result::<(), CacheError>::Err(CacheError::NotInitialized)
                && final(self)@ == old(self)@,
            old(self)@.connected ==> {
                &&& r == Result::<(), CacheError>::Ok(())
                &&& final(self)@.connected
                &&& final(self)@.entries == spec_set(
                    old(self)@.entries,
                    key@,
                    value@,
                    spec_expiry(now, ttl_seconds),
                )
            },
    {
        if !self.connected {
            return Err(CacheError::NotInitialized);
        }
        let expires_at: u64 = if ttl_seconds <= u64::MAX - now {
            now + ttl_seconds
        } else {
            u64::MAX
        };
        let ghost pre = self@.entries;
        match self.find_key(key) {
            Some(i) => {
                proof {
                    let w = choose|w: int| 0 <= w < pre.len() && pre[w].key == key@;
                    assert(w == i as int);
                }
                let entry = CacheEntry {
                    key: String::from_str(key),
                    value: value.duplicate(),
                    expires_at,
                };
                self.entries.set(i, entry);
                proof {
                    assert(self@.entries =~= spec_set(
                        pre,
                        key@,
                        value@,
                        spec_expiry(now, ttl_seconds),
                    ));
                }
            },
            None => {
                let entry = CacheEntry {
                    key: String::from_str(key),
                    value: value.duplicate(),
                    expires_at,
                };
                self.entries.push(entry);
                proof {
                    assert(self@.entries =~= spec_set(
                        pre,
                        key@,
                        value@,
                        spec_expiry(now, ttl_seconds),
                    ));
                }
            },
        }
        Ok(())
    }

    /// Drop the entry under `key`, if any.
    pub fn delete(&mut self, key: &str) -> (r: Result<(), CacheError>)
        requires
            old(self).wf(),
        ensures
            final(self).wf(),
            !old(self)@.connected ==> r == Result::<(), CacheError>::Err(CacheError::NotInitialized)
                && final(self)@ == old(self)@,
            old(self)@.connected ==> {
                &&& r == Result::<(), CacheError>::Ok(())
                &&& final(self)@.connected
                &&& final(self)@.entries == spec_delete(old(self)@.entries, key@)
                &&& !spec_has_key(final(self)@.entries, key@)
            },
    {
        if !self.connected {
            return Err(CacheError::NotInitialized);
        }
        let ghost pre = self@.entries;
        match self.find_key(key) {
            Some(i) => {
                proof {
                    let w = choose|w: int| 0 <= w < pre.len() && pre[w].key == key@;
                    assert(w == i as int);
                }
                self.entries.remove(i);
                proof {
                    assert(self@.entries =~= pre.remove(i as int));
                    assert forall|k: int|
                        0 <= k < self@.entries.len() implies self@.entries[k].key != key@ by {
                        if k < i {
                            assert(self@.entries[k] == pre[k]);
                        } else {
                            assert(self@.entries[k] == pre[k + 1]);
                        }
                    }
                }
            },
            None => {},
        }
        Ok(())
    }

    /// Whether a live entry sits under `key` at time `now`.
    pub fn key_exists(&self, key: &str, now: u64) -> (r: Result<bool, CacheError>)
        requires
            self.wf(),
        ensures
            !self@.connected ==> r == Result::<bool, CacheError>::Err(CacheError::NotInitialized),
            self@.connected ==> r == Result::<bool, CacheError>::Ok(
                spec_live(self@.entries, key@, now),
            ),
    {
        if !self.connected {
            return Err(CacheError::NotInitialized);
        }
        match self.find_key(key) {
            Some(i) => {
                proof {
                    let w = choose|w: int|
                        0 <= w < self@.entries.len() && self@.entries[w].key == key@;
                    assert(w == i as int);
                }
                Ok(now < self.entries[i].expires_at)
            },
            None => Ok(false),
        }
    }

    /// Drop every entry whose key matches the glob `pattern`.
    pub fn invalidate_pattern(&mut self, pattern: &str) -> (r: Result<(), CacheError>)
        requires
            old(self).wf(),
        ensures
            final(self).wf(),
            !old(self)@.connected ==> r == Result::<(), CacheError>::Err(CacheError::NotInitialized)
                && final(self)@ == old(self)@,
            old(self)@.connected ==> {
                &&& r == Result::<(), CacheError>::Ok(())
                &&& final(self)@.connected
                &&& final(self)@.entries == spec_invalidate(old(self)@.entries, pattern@)
                &&& forall|k: int|
                    0 <= k < final(self)@.entries.len() ==> !glob_match(
                        pattern@,
                        #[trigger] final(self)@.entries[k].key,
                    )
            },
    {
        if !self.connected {
            return Err(CacheError::NotInitialized);
        }
        let ghost pre = self@.entries;
        let mut kept: Vec<CacheEntry> = Vec::new();
        let mut i: usize = 0;
        proof {
            assert(kept.deep_view() =~= spec_invalidate(pre.take(0), pattern@));
        }
        while i < self.entries.len()
            invariant
                pre == self@.entries,
                pre.len() == self.entries.len(),
                forall|k: int| 0 <= k < self.entries.len() ==> pre[k] == self.entries[k]@,
                0 <= i <= self.entries.len(),
                kept.deep_view() == spec_invalidate(pre.take(i as int), pattern@),
            decreases self.entries.len() - i,
        {
            let ghost kpre = kept.deep_view();
            if !glob_matches(pattern, self.entries[i].key.as_str()) {
                let e = &self.entries[i];
                kept.push(
                    CacheEntry {
                        key: e.key.clone(),
                        value: e.value.duplicate(),
                        expires_at: e.expires_at,
                    },
                );
                proof {
                    assert(kept.deep_view() =~= kpre.push(pre[i as int]));
                }
            }
            proof {
                assert(pre.take(i + 1 as int).drop_last() =~= pre.take(i as int));
                assert(pre.take(i + 1 as int).last() == pre[i as int]);
            }
            i = i + 1;
        }
        proof {
            assert(pre.take(self.entries.len() as int) =~= pre);
        }
        self.entries = kept;
        proof {
            lemma_invalidate_shape(pre, pattern@);
            lemma_invalidate_distinct(pre, pattern@);
        }
        Ok(())
    }
}

/// Invalidation never makes two entries share a key.
proof fn lemma_invalidate_distinct(entries: Seq<CacheEntryView>, pat: Seq<char>)
    requires
        forall|i: int, j: int| 0 <= i < j < entries.len() ==> entries[i].key != entries[j].key,
    ensures
        forall|i: int, j: int|
            0 <= i < j < spec_invalidate(entries, pat).len() ==> spec_invalidate(entries, pat)[i].key
                != spec_invalidate(entries, pat)[j].key,
    decreases entries.len(),
{
    if entries.len() > 0 {
        let sub = entries.drop_last();
        lemma_invalidate_distinct(sub, pat);
        lemma_invalidate_shape(sub, pat);
        let rest = spec_invalidate(sub, pat);
        let d = spec_invalidate(entries, pat);
        if !glob_match(pat, entries.last().key) {
            assert forall|i: int, j: int| 0 <= i < j < d.len() implies d[i].key != d[j].key by {
                if j == d.len() - 1 {
                    assert(d[i] == rest[i]);
                    assert(sub.contains(rest[i]));
                    let w = choose|w: int| 0 <= w < sub.len() && sub[w] == rest[i];
                    assert(entries[w] == rest[i]);
                    assert(entries[w].key != entries[entries.len() - 1].key);
                    assert(d[j] == entries.last());
                }
            }
        }
    }
}

/// What glob invalidation leaves behind: only non-matching keys, every
/// survivor an entry of the run it filtered, still in order.
proof fn lemma_invalidate_shape(entries: Seq<CacheEntryView>, pat: Seq<char>)
    ensures
        forall|k: int|
            0 <= k < spec_invalidate(entries, pat).len() ==> !glob_match(
                pat,
                #[trigger] spec_invalidate(entries, pat)[k].key,
            ),
        forall|k: int|
            0 <= k < spec_invalidate(entries, pat).len() ==> entries.contains(
                #[trigger] spec_invalidate(entries, pat)[k],
            ),
    decreases entries.len(),
{
    if entries.len() > 0 {
        lemma_invalidate_shape(entries.drop_last(), pat);
        let sub = spec_invalidate(entries.drop_last(), pat);
        assert forall|k: int|
            0 <= k < spec_invalidate(entries, pat).len() implies entries.contains(
            #[trigger] spec_invalidate(entries, pat)[k],
        ) by {
            let d = spec_invalidate(entries, pat);
            if k < sub.len() {
                assert(entries.drop_last().contains(sub[k]));
                let w = choose|w: int|
                    0 <= w < entries.drop_last().len() && entries.drop_last()[w] == sub[k];
                assert(entries[w] == sub[k]);
            } else {
                assert(d[k] == entries.last());
                assert(entries[entries.len() - 1] == entries.last());
            }
        }
    }
}

impl Default for Cache {
    /// Same as `new`: unconnected, holding nothing.
    fn default() -> (r: Cache)
        ensures
            !r@.connected,
            r@.entries =~= Seq::<CacheEntryView>::empty(),
            r.wf(),
    {
        Cache::new()
    }
}

/// Writing a value and reading it back before its expiry yields that very
/// value: the round trip through the store is the identity while the entry
/// lives.
pub proof fn lemma_set_then_get(
    entries: Seq<CacheEntryView>,
    k: Seq<char>,
    v: CacheValueView,
    ttl_seconds: u64,
    now: u64,
    later: u64,
)
    requires
        forall|i: int, j: int| 0 <= i < j < entries.len() ==> entries[i].key != entries[j].key,
        later < spec_expiry(now, ttl_seconds),
    ensures
        spec_live(spec_set(entries, k, v, spec_expiry(now, ttl_seconds)), k, later),
        spec_entry(spec_set(entries, k, v, spec_expiry(now, ttl_seconds)), k).value == v,
{
    let e2 = spec_set(entries, k, v, spec_expiry(now, ttl_seconds));
    if spec_has_key(entries, k) {
        let i = choose|i: int| 0 <= i < entries.len() && entries[i].key == k;
        assert(e2[i].key == k);
        assert(spec_has_key(e2, k));
        let w = choose|w: int| 0 <= w < e2.len() && e2[w].key == k;
        if w != i {
            assert(e2[w] == entries[w]);
            if w < i {
                assert(entries[w].key != entries[i].key);
            } else {
                assert(entries[i].key != entries[w].key);
            }
        }
    } else {
        assert(e2[entries.len() as int].key == k);
        assert(spec_has_key(e2, k));
        let w = choose|w: int| 0 <= w < e2.len() && e2[w].key == k;
        if w != entries.len() {
            assert(e2[w] == entries[w]);
            assert(entries[w].key == k);
            assert(spec_has_key(entries, k));
        }
    }
}

/// Invalidation leaves every entry under a non-matching key in place.
pub proof fn lemma_invalidate_keeps(entries: Seq<CacheEntryView>, pat: Seq<char>, k: Seq<char>)
    requires
        !glob_match(pat, k),
    ensures
        spec_has_key(spec_invalidate(entries, pat), k) == spec_has_key(entries, k),
    decreases entries.len(),
{
    if entries.len() > 0 {
        lemma_invalidate_keeps(entries.drop_last(), pat, k);
        let sub = spec_invalidate(entries.drop_last(), pat);
        let d = spec_invalidate(entries, pat);
        if spec_has_key(entries, k) {
            let w = choose|w: int| 0 <= w < entries.len() && entries[w].key == k;
            if w < entries.len() - 1 {
                assert(entries.drop_last()[w].key == k);
                assert(spec_has_key(entries.drop_last(), k));
                let w2 = choose|w2: int| 0 <= w2 < sub.len() && sub[w2].key == k;
                assert(d[w2].key == k || (glob_match(pat, entries.last().key) && d[w2].key == k));
            } else {
                assert(entries.last().key == k);
                assert(d[d.len() - 1].key == k);
            }
        }
        if spec_has_key(d, k) {
            let w = choose|w: int| 0 <= w < d.len() && d[w].key == k;
            if w < sub.len() {
                assert(sub[w].key == k);
                assert(spec_has_key(sub, k));
                let w2 = choose|w2: int| 0 <= w2 < entries.drop_last().len()
                    && entries.drop_last()[w2].key == k;
                assert(entries[w2].key == k);
            } else {
                assert(d[w] == entries.last());
                assert(entries[entries.len() - 1].key == k);
            }
        }
    }
}

} // verus!
