//! Service metrics: labelled counters, gauges, and their text exposition.

use vstd::prelude::*;

use crate::strutil::{dec_str, int_str, str_eq};

verus! {

/// Labels of one HTTP request counter.
#[derive(Clone, Debug, Hash, PartialEq, Eq)]
pub struct EndpointLabels {
    pub method: String,
    pub endpoint: String,
    pub status: String,
}

/// Ghost image of [`EndpointLabels`].
pub ghost struct EndpointLabelsView {
    pub method: Seq<char>,
    pub endpoint: Seq<char>,
    pub status: Seq<char>,
}

impl View for EndpointLabels {
    type V = EndpointLabelsView;

    open spec fn view(&self) -> EndpointLabelsView {
        EndpointLabelsView {
            method: self.method@,
            endpoint: self.endpoint@,
            status: self.status@,
        }
    }
}

impl DeepView for EndpointLabels {
    type V = EndpointLabelsView;

    open spec fn deep_view(&self) -> EndpointLabelsView {
        self.view()
    }
}

/// Labels of one cache operation counter.
#[derive(Clone, Debug, Hash, PartialEq, Eq)]
pub struct CacheLabels {
    pub operation: String,
    pub result: String,
}

/// Ghost image of [`CacheLabels`].
pub ghost struct CacheLabelsView {
    pub operation: Seq<char>,
    pub result: Seq<char>,
}

impl View for CacheLabels {
    type V = CacheLabelsView;

    open spec fn view(&self) -> CacheLabelsView {
        CacheLabelsView { operation: self.operation@, result: self.result@ }
    }
}

impl DeepView for CacheLabels {
    type V = CacheLabelsView;

    open spec fn deep_view(&self) -> CacheLabelsView {
        self.view()
    }
}

/// Ghost image of the metrics.
pub ghost struct MetricsView {
    pub http_requests: Seq<(EndpointLabelsView, u64)>,
    pub cache_operations: Seq<(CacheLabelsView, u64)>,
    pub servers_indexed: i64,
    pub servers_online: i64,
    pub servers_offline: i64,
    pub discovery_errors: u64,
}

struct EndpointRow {
    labels: EndpointLabels,
    count: u64,
}

impl View for EndpointRow {
    type V = (EndpointLabelsView, u64);

    closed spec fn view(&self) -> (EndpointLabelsView, u64) {
        (self.labels@, self.count)
    }
}

impl DeepView for EndpointRow {
    type V = (EndpointLabelsView, u64);

    closed spec fn deep_view(&self) -> (EndpointLabelsView, u64) {
        self.view()
    }
}

struct CacheRow {
    labels: CacheLabels,
    count: u64,
}

impl View for CacheRow {
    type V = (CacheLabelsView, u64);

    closed spec fn view(&self) -> (CacheLabelsView, u64) {
        (self.labels@, self.count)
    }
}

impl DeepView for CacheRow {
    type V = (CacheLabelsView, u64);

    closed spec fn deep_view(&self) -> (CacheLabelsView, u64) {
        self.view()
    }
}

/// Counters by label, three gauges, and an error counter.
pub struct Metrics {
    http_requests: Vec<EndpointRow>,
    cache_operations: Vec<CacheRow>,
    servers_indexed: i64,
    servers_online: i64,
    servers_offline: i64,
    discovery_errors: u64,
}

impl View for Metrics {
    type V = MetricsView;

    closed spec fn view(&self) -> MetricsView {
        MetricsView {
            http_requests: self.http_requests.deep_view(),
            cache_operations: self.cache_operations.deep_view(),
            servers_indexed: self.servers_indexed,
            servers_online: self.servers_online,
            servers_offline: self.servers_offline,
            discovery_errors: self.discovery_errors,
        }
    }
}

/// Some row carries exactly these endpoint labels.
pub open spec fn spec_has_endpoint(
    rows: Seq<(EndpointLabelsView, u64)>,
    l: EndpointLabelsView,
) -> bool {
    exists|i: int| 0 <= i < rows.len() && rows[i].0 == l
}

/// `rows` with the counter under `l` one higher (saturating), the row
/// created at 1 when absent.
pub open spec fn spec_bump_endpoint(
    rows: Seq<(EndpointLabelsView, u64)>,
    l: EndpointLabelsView,
) -> Seq<(EndpointLabelsView, u64)> {
    if spec_has_endpoint(rows, l) {
        let i = choose|i: int| 0 <= i < rows.len() && rows[i].0 == l;
        let c = rows[i].1;
        rows.update(i, (l, if c < u64::MAX { (c + 1) as u64 } else { c }))
    } else {
        rows.push((l, 1))
    }
}

/// Some row carries exactly these cache labels.
pub open spec fn spec_has_cache_label(
    rows: Seq<(CacheLabelsView, u64)>,
    l: CacheLabelsView,
) -> bool {
    exists|i: int| 0 <= i < rows.len() && rows[i].0 == l
}

/// `rows` with the counter under `l` one higher (saturating), the row
/// created at 1 when absent.
pub open spec fn spec_bump_cache_label(
    rows: Seq<(CacheLabelsView, u64)>,
    l: CacheLabelsView,
) -> Seq<(CacheLabelsView, u64)> {
    if spec_has_cache_label(rows, l) {
        let i = choose|i: int| 0 <= i < rows.len() && rows[i].0 == l;
        let c = rows[i].1;
        rows.update(i, (l, if c < u64::MAX { (c + 1) as u64 } else { c }))
    } else {
        rows.push((l, 1))
    }
}

/// The exposition text: help and type headers for the counters, then each
/// gauge and the error counter with its value.
pub open spec fn spec_encode(m: MetricsView) -> Seq<char> {
    "# HELP http_requests_total Total number of HTTP requests\n"@
        + "# TYPE http_requests_total counter\n"@
        + "# HELP cache_operations_total Total number of cache operations\n"@
        + "# TYPE cache_operations_total counter\n"@
        + "# HELP servers_indexed Number of indexed servers\n"@
        + "# TYPE servers_indexed gauge\n"@ + "servers_indexed "@ + int_str(m.servers_indexed as int)
        + "\n"@ + "# HELP servers_online Number of online servers\n"@
        + "# TYPE servers_online gauge\n"@ + "servers_online "@ + int_str(m.servers_online as int)
        + "\n"@ + "# HELP servers_offline Number of offline servers\n"@
        + "# TYPE servers_offline gauge\n"@ + "servers_offline "@ + int_str(
        m.servers_offline as int,
    ) + "\n"@ + "# HELP discovery_errors_total Total number of discovery errors\n"@
        + "# TYPE discovery_errors_total counter\n"@ + "discovery_errors_total "@ + dec_str(
        m.discovery_errors as int,
    ) + "\n"@
}

impl Metrics {
    /// Rows are unique per label set.
    pub open spec fn wf(&self) -> bool {
        &&& forall|i: int, j: int|
            0 <= i < j < self@.http_requests.len() ==> self@.http_requests[i].0
                != self@.http_requests[j].0
        &&& forall|i: int, j: int|
            0 <= i < j < self@.cache_operations.len() ==> self@.cache_operations[i].0
                != self@.cache_operations[j].0
    }

    /// Fresh metrics: no counters, every gauge at zero.
    pub fn new() -> (r: Metrics)
        ensures
            r.wf(),
            r@.http_requests =~= Seq::<(EndpointLabelsView, u64)>::empty(),
            r@.cache_operations =~= Seq::<(CacheLabelsView, u64)>::empty(),
            r@.servers_indexed == 0,
            r@.servers_online == 0,
            r@.servers_offline == 0,
            r@.discovery_errors == 0,
    {
        Metrics {
            http_requests: Vec::new(),
            cache_operations: Vec::new(),
            servers_indexed: 0,
            servers_online: 0,
            servers_offline: 0,
            discovery_errors: 0,
        }
    }

    /// Count one HTTP request under its method, endpoint and status.
    pub fn increment_http_requests(&mut self, method: &str, endpoint: &str, status: &str)
        requires
            old(self).wf(),
        ensures
            final(self).wf(),
            final(self)@.http_requests == spec_bump_endpoint(
                old(self)@.http_requests,
                EndpointLabelsView { method: method@, endpoint: endpoint@, status: status@ },
            ),
            final(self)@.cache_operations == old(self)@.cache_operations,
            final(self)@.servers_indexed == old(self)@.servers_indexed,
            final(self)@.servers_online == old(self)@.servers_online,
            final(self)@.servers_offline == old(self)@.servers_offline,
            final(self)@.discovery_errors == old(self)@.discovery_errors,
    {
        let ghost l = EndpointLabelsView { method: method@, endpoint: endpoint@, status: status@ };
        let ghost rows = self@.http_requests;
        let mut i: usize = 0;
        while i < self.http_requests.len()
            invariant
                old(self).wf(),
                self@ == old(self)@,
                l == (EndpointLabelsView { method: method@, endpoint: endpoint@, status: status@ }),
                rows == self@.http_requests,
                rows.len() == self.http_requests.len(),
                forall|k: int|
                    0 <= k < self.http_requests.len() ==> rows[k] == self.http_requests[k]@,
                0 <= i <= self.http_requests.len(),
                forall|k: int| 0 <= k < i ==> rows[k].0 != l,
            decreases self.http_requests.len() - i,
        {
            if str_eq(self.http_requests[i].labels.method.as_str(), method) && str_eq(
                self.http_requests[i].labels.endpoint.as_str(),
                endpoint,
            ) && str_eq(self.http_requests[i].labels.status.as_str(), status) {
                proof {
                    assert(rows[i as int] == self.http_requests[i as int]@);
                    assert(rows[i as int].0 == l);
                    let w = choose|w: int| 0 <= w < rows.len() && rows[w].0 == l;
                    assert(w == i as int);
                }
                let c = self.http_requests[i].count;
                let bumped = if c < u64::MAX {
                    c + 1
                } else {
                    c
                };
                let labels = EndpointLabels {
                    method: String::from_str(method),
                    endpoint: String::from_str(endpoint),
                    status: String::from_str(status),
                };
                self.http_requests.set(i, EndpointRow { labels, count: bumped });
                proof {
                    assert(self@.http_requests =~= spec_bump_endpoint(rows, l));
                    assert(self@.cache_operations == old(self)@.cache_operations);
                }
                return ;
            }
            i = i + 1;
        }
        let labels = EndpointLabels {
            method: String::from_str(method),
            endpoint: String::from_str(endpoint),
            status: String::from_str(status),
        };
        self.http_requests.push(EndpointRow { labels, count: 1 });
        proof {
            assert(self@.http_requests =~= spec_bump_endpoint(rows, l));
            assert(self@.cache_operations == old(self)@.cache_operations);
        }
    }

    /// Count one cache operation under its name and outcome.
    pub fn increment_cache_operations(&mut self, operation: &str, result: &str)
        requires
            old(self).wf(),
        ensures
            final(self).wf(),
            final(self)@.cache_operations == spec_bump_cache_label(
                old(self)@.cache_operations,
                CacheLabelsView { operation: operation@, result: result@ },
            ),
            final(self)@.http_requests == old(self)@.http_requests,
            final(self)@.servers_indexed == old(self)@.servers_indexed,
            final(self)@.servers_online == old(self)@.servers_online,
            final(self)@.servers_offline == old(self)@.servers_offline,
            final(self)@.discovery_errors == old(self)@.discovery_errors,
    {
        let ghost l = CacheLabelsView { operation: operation@, result: result@ };
        let ghost rows = self@.cache_operations;
        let mut i: usize = 0;
        while i < self.cache_operations.len()
            invariant
                old(self).wf(),
                self@ == old(self)@,
                l == (CacheLabelsView { operation: operation@, result: result@ }),
                rows == self@.cache_operations,
                rows.len() == self.cache_operations.len(),
                forall|k: int|
                    0 <= k < self.cache_operations.len() ==> rows[k] == self.cache_operations[k]@,
                0 <= i <= self.cache_operations.len(),
                forall|k: int| 0 <= k < i ==> rows[k].0 != l,
            decreases self.cache_operations.len() - i,
        {
            if str_eq(self.cache_operations[i].labels.operation.as_str(), operation) && str_eq(
                self.cache_operations[i].labels.result.as_str(),
                result,
            ) {
                proof {
                    assert(rows[i as int] == self.cache_operations[i as int]@);
                    assert(rows[i as int].0 == l);
                    let w = choose|w: int| 0 <= w < rows.len() && rows[w].0 == l;
                    assert(w == i as int);
                }
                let c = self.cache_operations[i].count;
                let bumped = if c < u64::MAX {
                    c + 1
                } else {
                    c
                };
                let labels = CacheLabels {
                    operation: String::from_str(operation),
                    result: String::from_str(result),
                };
                self.cache_operations.set(i, CacheRow { labels, count: bumped });
                proof {
                    assert(self@.cache_operations =~= spec_bump_cache_label(rows, l));
                    assert(self@.http_requests == old(self)@.http_requests);
                }
                return ;
            }
            i = i + 1;
        }
        let labels = CacheLabels {
            operation: String::from_str(operation),
            result: String::from_str(result),
        };
        self.cache_operations.push(CacheRow { labels, count: 1 });
        proof {
            assert(self@.cache_operations =~= spec_bump_cache_label(rows, l));
            assert(self@.http_requests == old(self)@.http_requests);
        }
    }

    /// Set the indexed-servers gauge.
    pub fn set_servers_indexed(&mut self, count: i64)
        requires
            old(self).wf(),
        ensures
            final(self).wf(),
            final(self)@.servers_indexed == count,
            final(self)@.http_requests == old(self)@.http_requests,
            final(self)@.cache_operations == old(self)@.cache_operations,
            final(self)@.servers_online == old(self)@.servers_online,
            final(self)@.servers_offline == old(self)@.servers_offline,
            final(self)@.discovery_errors == old(self)@.discovery_errors,
    {
        self.servers_indexed = count;
        proof {
            assert(self@.http_requests == old(self)@.http_requests);
            assert(self@.cache_operations == old(self)@.cache_operations);
            assert(self.wf());
        }
    }

    /// Set the online-servers gauge.
    pub fn set_servers_online(&mut self, count: i64)
        requires
            old(self).wf(),
        ensures
            final(self).wf(),
            final(self)@.servers_online == count,
            final(self)@.http_requests == old(self)@.http_requests,
            final(self)@.cache_operations == old(self)@.cache_operations,
            final(self)@.servers_indexed == old(self)@.servers_indexed,
            final(self)@.servers_offline == old(self)@.servers_offline,
            final(self)@.discovery_errors == old(self)@.discovery_errors,
    {
        self.servers_online = count;
        proof {
            assert(self@.http_requests == old(self)@.http_requests);
            assert(self@.cache_operations == old(self)@.cache_operations);
        }
    }

    /// Set the offline-servers gauge.
    pub fn set_servers_offline(&mut self, count: i64)
        requires
            old(self).wf(),
        ensures
            final(self).wf(),
            final(self)@.servers_offline == count,
            final(self)@.http_requests == old(self)@.http_requests,
            final(self)@.cache_operations == old(self)@.cache_operations,
            final(self)@.servers_indexed == old(self)@.servers_indexed,
            final(self)@.servers_online == old(self)@.servers_online,
            final(self)@.discovery_errors == old(self)@.discovery_errors,
    {
        self.servers_offline = count;
        proof {
            assert(self@.http_requests == old(self)@.http_requests);
            assert(self@.cache_operations == old(self)@.cache_operations);
        }
    }

    /// Count one discovery failure.
    pub fn increment_discovery_errors(&mut self)
        requires
            old(self).wf(),
        ensures
            final(self).wf(),
            final(self)@.discovery_errors == (if old(self)@.discovery_errors < u64::MAX {
                old(self)@.discovery_errors + 1
            } else {
                old(self)@.discovery_errors as int
            }),
            final(self)@.http_requests == old(self)@.http_requests,
            final(self)@.cache_operations == old(self)@.cache_operations,
            final(self)@.servers_indexed == old(self)@.servers_indexed,
            final(self)@.servers_online == old(self)@.servers_online,
            final(self)@.servers_offline == old(self)@.servers_offline,
    {
        if self.discovery_errors < u64::MAX {
            self.discovery_errors = self.discovery_errors + 1;
        }
        proof {
            assert(self@.http_requests == old(self)@.http_requests);
            assert(self@.cache_operations == old(self)@.cache_operations);
        }
    }

    /// Render the exposition text.
    pub fn encode(&self) -> (r: String)
        ensures
            r@ == spec_encode(self@),
    {
        let mut out = String::from_str("# HELP http_requests_total Total number of HTTP requests\n");
        out.append("# TYPE http_requests_total counter\n");
        out.append("# HELP cache_operations_total Total number of cache operations\n");
        out.append("# TYPE cache_operations_total counter\n");
        out.append("# HELP servers_indexed Number of indexed servers\n");
        out.append("# TYPE servers_indexed gauge\n");
        out.append("servers_indexed ");
        let v1 = crate::strutil::i64_to_string(self.servers_indexed);
        out.append(v1.as_str());
        out.append("\n");
        out.append("# HELP servers_online Number of online servers\n");
        out.append("# TYPE servers_online gauge\n");
        out.append("servers_online ");
        let v2 = crate::strutil::i64_to_string(self.servers_online);
        out.append(v2.as_str());
        out.append("\n");
        out.append("# HELP servers_offline Number of offline servers\n");
        out.append("# TYPE servers_offline gauge\n");
        out.append("servers_offline ");
        let v3 = crate::strutil::i64_to_string(self.servers_offline);
        out.append(v3.as_str());
        out.append("\n");
        out.append("# HELP discovery_errors_total Total number of discovery errors\n");
        out.append("# TYPE discovery_errors_total counter\n");
        out.append("discovery_errors_total ");
        let v4 = crate::strutil::u64_to_string(self.discovery_errors);
        out.append(v4.as_str());
        out.append("\n");
        proof {
            assert(out@ =~= spec_encode(self@));
        }
        out
    }
}

} // verus!
