//! The discovery (xDS) client, as a state machine over plain values: typed
//! requests and responses, per-type version/nonce bookkeeping with ACK and
//! NACK, server fail-over with reconnect back-off, and the projection of
//! accepted cluster resources into the cluster map. The transport — the
//! gRPC stream itself — lives outside; every decision about what to send
//! and what to keep is made, and proved, here.

use vstd::prelude::*;
use vstd::string::StringExecFns;

use crate::backoff::ExponentialBackoff;
use crate::cluster::{addresses_unique, ClusterMap};
use crate::config::ManagementServer;
use crate::endpoint::Endpoint;
use crate::endpoint::endpoints_view;

verus! {

/// The type URL naming cluster resources.
pub open spec fn cluster_type_url() -> Seq<char> {
    "type.googleapis.com/envoy.config.cluster.v3.Cluster"@
}

/// The type URL naming endpoint (cluster-load-assignment) resources.
pub open spec fn endpoint_type_url() -> Seq<char> {
    "type.googleapis.com/envoy.config.endpoint.v3.ClusterLoadAssignment"@
}

/// The cluster type URL, for the wire.
pub fn cluster_type() -> (r: &'static str)
    ensures
        r@ == cluster_type_url(),
{
    "type.googleapis.com/envoy.config.cluster.v3.Cluster"
}

/// The endpoint type URL, for the wire.
pub fn endpoint_type() -> (r: &'static str)
    ensures
        r@ == endpoint_type_url(),
{
    "type.googleapis.com/envoy.config.endpoint.v3.ClusterLoadAssignment"
}

/// A discovery request, as the plain values that go onto the wire.
pub struct DiscoveryRequest {
    pub version_info: String,
    /// The node identity; carried only on the first request of a stream.
    pub node_id: Option<String>,
    pub resource_names: Vec<String>,
    pub type_url: String,
    pub response_nonce: String,
    /// Present exactly on a NACK.
    pub error_detail: Option<String>,
}

/// The mathematical value of a [`DiscoveryRequest`].
pub struct DiscoveryRequestView {
    pub version_info: Seq<char>,
    pub node_id: Option<Seq<char>>,
    pub resource_names: Seq<Seq<char>>,
    pub type_url: Seq<char>,
    pub response_nonce: Seq<char>,
    pub error_detail: Option<Seq<char>>,
}

/// The views of a name list, in order.
pub open spec fn names_view(v: Seq<String>) -> Seq<Seq<char>> {
    Seq::new(v.len(), |i: int| v[i]@)
}

impl View for DiscoveryRequest {
    type V = DiscoveryRequestView;

    open spec fn view(&self) -> DiscoveryRequestView {
        DiscoveryRequestView {
            version_info: self.version_info@,
            node_id: match self.node_id {
                Some(s) => Some(s@),
                None => None,
            },
            resource_names: names_view(self.resource_names@),
            type_url: self.type_url@,
            response_nonce: self.response_nonce@,
            error_detail: match self.error_detail {
                Some(s) => Some(s@),
                None => None,
            },
        }
    }
}

/// One cluster as decoded from a CDS response: its name, the endpoints the
/// response carried, and whether its endpoints come separately through EDS.
pub struct ClusterResource {
    pub name: String,
    pub endpoints: Vec<Endpoint>,
    pub eds: bool,
}

/// One cluster-load-assignment as decoded from an EDS response.
pub struct EndpointResource {
    pub cluster_name: String,
    pub endpoints: Vec<Endpoint>,
}

/// A decoded update is applied only when every cluster is well-formed:
/// cluster names are unique and addresses within each cluster are unique.
pub open spec fn clusters_valid(cs: Seq<ClusterResource>) -> bool {
    &&& forall|i: int, j: int| 0 <= i < j < cs.len() ==> cs[i].name@ != cs[j].name@
    &&& forall|i: int| 0 <= i < cs.len() ==> addresses_unique((#[trigger] cs[i]).endpoints@)
}

/// Likewise for endpoint assignments.
pub open spec fn assignments_valid(rs: Seq<EndpointResource>) -> bool {
    &&& forall|i: int, j: int| 0 <= i < j < rs.len() ==> rs[i].cluster_name@ != rs[j].cluster_name@
    &&& forall|i: int| 0 <= i < rs.len() ==> addresses_unique((#[trigger] rs[i]).endpoints@)
}

/// Whether `key` names one of the clusters of the update.
pub open spec fn names_cluster(cs: Seq<ClusterResource>, key: Option<Seq<char>>) -> bool {
    exists|i: int| 0 <= i < cs.len() && key == Some((#[trigger] cs[i]).name@)
}

/// Whether `key` names one of the assignments of the update.
pub open spec fn names_assignment(rs: Seq<EndpointResource>, key: Option<Seq<char>>) -> bool {
    exists|i: int| 0 <= i < rs.len() && key == Some((#[trigger] rs[i]).cluster_name@)
}

/// The names of the clusters whose endpoints come through EDS, in order.
pub open spec fn eds_names(cs: Seq<ClusterResource>) -> Seq<Seq<char>>
    decreases cs.len(),
{
    if cs.len() == 0 {
        Seq::empty()
    } else {
        let head: Seq<Seq<char>> = if cs[0].eds {
            seq![cs[0].name@]
        } else {
            Seq::empty()
        };
        head + eds_names(cs.drop_first())
    }
}

/// Per-type-URL bookkeeping: the last accepted version and the nonce of the
/// last response seen.
pub struct TypeState {
    pub version: String,
    pub nonce: String,
}

/// Projects accepted discovery responses into the cluster map and keeps the
/// ACK/NACK bookkeeping per resource type.
pub struct ClusterManager {
    pub clusters: ClusterMap,
    pub cds: TypeState,
    pub eds: TypeState,
}

/// The components that handle discovery responses.
pub struct ResourceHandlers {
    pub cluster_manager: ClusterManager,
}

impl ResourceHandlers {
    /// Clears any stale per-type version/nonce before (re)connecting, so
    /// the first request of the new stream subscribes from scratch; the
    /// cluster snapshot is kept.
    pub fn on_reconnect(&mut self)
        requires
            old(self).cluster_manager.clusters.wf(),
        ensures
            final(self).cluster_manager.clusters == old(self).cluster_manager.clusters,
            final(self).cluster_manager.cds.version@.len() == 0,
            final(self).cluster_manager.cds.nonce@.len() == 0,
            final(self).cluster_manager.eds.version@.len() == 0,
            final(self).cluster_manager.eds.nonce@.len() == 0,
            final(self).cluster_manager.clusters.wf(),
    {
        self.cluster_manager.cds = TypeState { version: String::new(), nonce: String::new() };
        self.cluster_manager.eds = TypeState { version: String::new(), nonce: String::new() };
    }
}

/// An error that ends the client's execution.
#[derive(Debug, PartialEq, Eq)]
pub enum ExecutionError {
    /// The reconnect back-off ran out of time.
    BackoffLimitExceeded,
    /// A non-recoverable error, with its description.
    Message(String),
}

/// The long-lived discovery client: which server it talks to next, and how
/// long it waits after failures.
pub struct AdsClient {
    pub node_id: String,
    pub next_server_index: usize,
    pub backoff: ExponentialBackoff,
}

impl AdsClient {
    pub fn new(node_id: String, backoff: ExponentialBackoff) -> (r: AdsClient)
        ensures
            r.node_id == node_id,
            r.next_server_index == 0,
            r.backoff == backoff,
    {
        AdsClient { node_id, next_server_index: 0, backoff }
    }

    /// Picks the management server for this connection attempt, round-robin;
    /// the index advances on every attempt regardless of outcome.
    pub fn pick_server(&mut self, servers: &Vec<ManagementServer>) -> (addr: String)
        requires
            servers@.len() > 0,
        ensures
            addr@ == servers@[old(self).next_server_index as int % servers@.len() as int].address@,
            final(self).next_server_index == (if old(self).next_server_index == usize::MAX {
                0
            } else {
                old(self).next_server_index + 1
            }),
            final(self).node_id == old(self).node_id,
            final(self).backoff == old(self).backoff,
    {
        let i = self.next_server_index % servers.len();
        let addr = servers[i].address.clone();
        self.next_server_index = if self.next_server_index == usize::MAX {
            0
        } else {
            self.next_server_index + 1
        };
        addr
    }

    /// What a failed connection attempt means: an invalid URL is fatal at
    /// once, with no back-off; any other failure waits out the next back-off
    /// delay, and once the back-off is exhausted the client gives up.
    pub fn on_connect_failure(&mut self, invalid_url: bool, error_text: String) -> (r: Result<
        u32,
        ExecutionError,
    >)
        requires
            old(self).backoff.wf(),
        ensures
            final(self).backoff.wf(),
            final(self).node_id == old(self).node_id,
            final(self).next_server_index == old(self).next_server_index,
            invalid_url ==> r == Err::<u32, ExecutionError>(ExecutionError::Message(error_text))
                && final(self).backoff == old(self).backoff,
            !invalid_url ==> (if old(self).backoff.elapsed > old(self).backoff.max_elapsed {
                &&& r == Err::<u32, ExecutionError>(ExecutionError::BackoffLimitExceeded)
                &&& final(self).backoff == old(self).backoff
            } else {
                &&& r == Ok::<u32, ExecutionError>(old(self).backoff.current_interval)
                &&& final(self).backoff == old(self).backoff.after_backoff()
            }),
    {
        if invalid_url {
            return Err(ExecutionError::Message(error_text));
        }
        match self.backoff.next_backoff() {
            Some(delay) => Ok(delay),
            None => Err(ExecutionError::BackoffLimitExceeded),
        }
    }

    /// A stream that reached the server resets the back-off to its initial
    /// delay.
    pub fn on_stream_established(&mut self)
        requires
            old(self).backoff.wf(),
        ensures
            final(self).backoff.wf(),
            final(self).node_id == old(self).node_id,
            final(self).next_server_index == old(self).next_server_index,
            final(self).backoff == (ExponentialBackoff {
                current_interval: old(self).backoff.initial_interval,
                elapsed: 0,
                ..old(self).backoff
            }),
    {
        self.backoff.reset();
    }

    /// The first request of a session: empty version info, a wildcard
    /// subscription to the cluster type, an empty nonce, and the node
    /// identity.
    pub fn initial_cds_request(&self) -> (r: DiscoveryRequest)
        ensures
            r@.version_info.len() == 0,
            r@.node_id == Some(self.node_id@),
            r@.resource_names.len() == 0,
            r@.type_url == cluster_type_url(),
            r@.response_nonce.len() == 0,
            r@.error_detail is None,
    {
        let r = DiscoveryRequest {
            version_info: String::new(),
            node_id: Some(self.node_id.clone()),
            resource_names: Vec::new(),
            type_url: String::from_str(cluster_type()),
            response_nonce: String::new(),
            error_detail: None,
        };
        proof {
            assert(names_view(r.resource_names@) =~= Seq::<Seq<char>>::empty());
        }
        r
    }
}

impl ClusterManager {
    /// A manager with no clusters and no accepted versions.
    pub fn new() -> (r: ClusterManager)
        ensures
            r.clusters.wf(),
            r.clusters.entries@.len() == 0,
            r.cds.version@.len() == 0,
            r.cds.nonce@.len() == 0,
            r.eds.version@.len() == 0,
            r.eds.nonce@.len() == 0,
    {
        ClusterManager {
            clusters: ClusterMap::new(),
            cds: TypeState { version: String::new(), nonce: String::new() },
            eds: TypeState { version: String::new(), nonce: String::new() },
        }
    }

    /// Handles one CDS response. A well-formed update is applied — each
    /// named cluster replaced, all others kept — and ACKed: the reply
    /// carries the response's own version and nonce and no error. A decode
    /// failure or ill-formed update leaves the map and the accepted version
    /// alone and NACKs: the reply carries the previous accepted version,
    /// the response's nonce, and the error. Either way the nonce is
    /// recorded. Clusters that want EDS get a follow-up subscription
    /// request for exactly their names.
    #[verifier::loop_isolation(false)]
    pub fn on_cluster_response(
        &mut self,
        version_info: String,
        nonce: String,
        decoded: Result<Vec<ClusterResource>, String>,
    ) -> (r: (DiscoveryRequest, Option<DiscoveryRequest>))
        requires
            old(self).clusters.wf(),
        ensures
            final(self).clusters.wf(),
            r.0@.type_url == cluster_type_url(),
            r.0@.response_nonce == nonce@,
            r.0@.node_id is None,
            r.0@.resource_names.len() == 0,
            final(self).cds.nonce@ == nonce@,
            final(self).eds.version == old(self).eds.version,
            final(self).eds.nonce == old(self).eds.nonce,
            match decoded {
                Ok(cs) => {
                    if clusters_valid(cs@) {
                        &&& r.0@.version_info == version_info@
                        &&& r.0@.error_detail is None
                        &&& final(self).cds.version@ == version_info@
                        &&& forall|i: int|
                            0 <= i < cs@.len() ==> final(self).clusters.spec_lookup(
                                Some((#[trigger] cs@[i]).name@),
                            ) == Some(endpoints_view(cs@[i].endpoints@))
                        &&& forall|k: Option<Seq<char>>|
                            !names_cluster(cs@, k) ==> final(self).clusters.spec_lookup(k) == old(
                                self,
                            ).clusters.spec_lookup(k)
                        &&& match r.1 {
                            Some(req) => eds_names(cs@).len() > 0 && req@.resource_names
                                == eds_names(cs@) && req@.type_url == endpoint_type_url()
                                && req@.version_info == old(self).eds.version@
                                && req@.response_nonce == old(self).eds.nonce@
                                && req@.error_detail is None && req@.node_id is None,
                            None => eds_names(cs@).len() == 0,
                        }
                    } else {
                        &&& r.0@.version_info == old(self).cds.version@
                        &&& r.0@.error_detail is Some
                        &&& final(self).cds.version == old(self).cds.version
                        &&& final(self).clusters == old(self).clusters
                        &&& r.1 is None
                    }
                },
                Err(msg) => {
                    &&& r.0@.version_info == old(self).cds.version@
                    &&& r.0@.error_detail == Some(msg@)
                    &&& final(self).cds.version == old(self).cds.version
                    &&& final(self).clusters == old(self).clusters
                    &&& r.1 is None
                },
            },
    {
        let empty_names: Vec<String> = Vec::new();
        proof {
            assert(names_view(empty_names@) =~= Seq::<Seq<char>>::empty());
        }
        let cs = match decoded {
            Ok(cs) => cs,
            Err(msg) => {
                let nack = DiscoveryRequest {
                    version_info: self.cds.version.clone(),
                    node_id: None,
                    resource_names: empty_names,
                    type_url: String::from_str(cluster_type()),
                    response_nonce: nonce.clone(),
                    error_detail: Some(msg),
                };
                self.cds = TypeState { version: self.cds.version.clone(), nonce };
                return (nack, None);
            },
        };
        if !check_clusters_valid(&cs) {
            let nack = DiscoveryRequest {
                version_info: self.cds.version.clone(),
                node_id: None,
                resource_names: empty_names,
                type_url: String::from_str(cluster_type()),
                response_nonce: nonce.clone(),
                error_detail: Some(String::from_str("malformed cluster update")),
            };
            self.cds = TypeState { version: self.cds.version.clone(), nonce };
            return (nack, None);
        }
        let eds_subscribe_names = collect_eds_names(&cs);
        let ghost cs0 = cs@;
        let ghost entries_before = self.clusters.entries@;
        let mut rem = cs;
        while rem.len() > 0
            invariant
                self.clusters.wf(),
                self.cds == old(self).cds,
                self.eds == old(self).eds,
                clusters_valid(cs0),
                rem@.len() <= cs0.len(),
                rem@ =~= cs0.subrange(cs0.len() - rem@.len(), cs0.len() as int),
                forall|i: int|
                    0 <= i < cs0.len() - rem@.len() ==> self.clusters.spec_lookup(
                        Some((#[trigger] cs0[i]).name@),
                    ) == Some(endpoints_view(cs0[i].endpoints@)),
                forall|k: Option<Seq<char>>|
                    !names_cluster(cs0, k) ==> self.clusters.spec_lookup(k) == crate::cluster::lookup(
                        entries_before,
                        k,
                    ),
            decreases rem@.len(),
        {
            let ghost pre = rem@;
            let ghost done = cs0.len() - pre.len();
            let c = rem.remove(0);
            proof {
                assert(pre[0] == c);
                assert(rem@ =~= pre.drop_first());
                assert(cs0[done] == c);
                assert(addresses_unique(c.endpoints@));
            }
            let ghost namev = c.name@;
            self.clusters.upsert(Some(c.name), c.endpoints);
            proof {
                assert(self.clusters.spec_lookup(Some(namev)) == Some(
                    endpoints_view(cs0[done].endpoints@),
                ));
                assert forall|i: int| 0 <= i < cs0.len() - rem@.len() implies self.clusters
                    .spec_lookup(Some((#[trigger] cs0[i]).name@)) == Some(
                    endpoints_view(cs0[i].endpoints@),
                ) by {
                    if i < done {
                        assert(cs0[i].name@ != namev);
                    }
                }
                assert forall|k: Option<Seq<char>>| !names_cluster(cs0, k) implies self.clusters
                    .spec_lookup(k) == crate::cluster::lookup(entries_before, k) by {
                    if k == Some(namev) {
                        assert(k == Some(cs0[done].name@));
                        assert(names_cluster(cs0, k));
                    }
                }
            }
        }
        let ack = DiscoveryRequest {
            version_info: version_info.clone(),
            node_id: None,
            resource_names: empty_names,
            type_url: String::from_str(cluster_type()),
            response_nonce: nonce.clone(),
            error_detail: None,
        };
        self.cds = TypeState { version: version_info, nonce };
        let follow_up = if eds_subscribe_names.len() > 0 {
            Some(
                DiscoveryRequest {
                    version_info: self.eds.version.clone(),
                    node_id: None,
                    resource_names: eds_subscribe_names,
                    type_url: String::from_str(endpoint_type()),
                    response_nonce: self.eds.nonce.clone(),
                    error_detail: None,
                },
            )
        } else {
            None
        };
        (ack, follow_up)
    }

    /// Handles one EDS response, with the same accept/refuse discipline as
    /// `on_cluster_response`: an accepted assignment replaces the endpoints
    /// of each referenced cluster and is ACKed; a refused one changes
    /// nothing and is NACKed with the previous accepted version.
    #[verifier::loop_isolation(false)]
    pub fn on_cluster_load_assignment_response(
        &mut self,
        version_info: String,
        nonce: String,
        decoded: Result<Vec<EndpointResource>, String>,
    ) -> (r: DiscoveryRequest)
        requires
            old(self).clusters.wf(),
        ensures
            final(self).clusters.wf(),
            r@.type_url == endpoint_type_url(),
            r@.response_nonce == nonce@,
            r@.node_id is None,
            r@.resource_names.len() == 0,
            final(self).eds.nonce@ == nonce@,
            final(self).cds.version == old(self).cds.version,
            final(self).cds.nonce == old(self).cds.nonce,
            match decoded {
                Ok(rs) => {
                    if assignments_valid(rs@) {
                        &&& r@.version_info == version_info@
                        &&& r@.error_detail is None
                        &&& final(self).eds.version@ == version_info@
                        &&& forall|i: int|
                            0 <= i < rs@.len() ==> final(self).clusters.spec_lookup(
                                Some((#[trigger] rs@[i]).cluster_name@),
                            ) == Some(endpoints_view(rs@[i].endpoints@))
                        &&& forall|k: Option<Seq<char>>|
                            !names_assignment(rs@, k) ==> final(self).clusters.spec_lookup(k)
                                == old(self).clusters.spec_lookup(k)
                    } else {
                        &&& r@.version_info == old(self).eds.version@
                        &&& r@.error_detail is Some
                        &&& final(self).eds.version == old(self).eds.version
                        &&& final(self).clusters == old(self).clusters
                    }
                },
                Err(msg) => {
                    &&& r@.version_info == old(self).eds.version@
                    &&& r@.error_detail == Some(msg@)
                    &&& final(self).eds.version == old(self).eds.version
                    &&& final(self).clusters == old(self).clusters
                },
            },
    {
        let empty_names: Vec<String> = Vec::new();
        proof {
            assert(names_view(empty_names@) =~= Seq::<Seq<char>>::empty());
        }
        let rs = match decoded {
            Ok(rs) => rs,
            Err(msg) => {
                let nack = DiscoveryRequest {
                    version_info: self.eds.version.clone(),
                    node_id: None,
                    resource_names: empty_names,
                    type_url: String::from_str(endpoint_type()),
                    response_nonce: nonce.clone(),
                    error_detail: Some(msg),
                };
                self.eds = TypeState { version: self.eds.version.clone(), nonce };
                return nack;
            },
        };
        if !check_assignments_valid(&rs) {
            let nack = DiscoveryRequest {
                version_info: self.eds.version.clone(),
                node_id: None,
                resource_names: empty_names,
                type_url: String::from_str(endpoint_type()),
                response_nonce: nonce.clone(),
                error_detail: Some(String::from_str("malformed cluster load assignment")),
            };
            self.eds = TypeState { version: self.eds.version.clone(), nonce };
            return nack;
        }
        let ghost rs0 = rs@;
        let ghost entries_before = self.clusters.entries@;
        let mut rem = rs;
        while rem.len() > 0
            invariant
                self.clusters.wf(),
                self.cds == old(self).cds,
                self.eds == old(self).eds,
                assignments_valid(rs0),
                rem@.len() <= rs0.len(),
                rem@ =~= rs0.subrange(rs0.len() - rem@.len(), rs0.len() as int),
                forall|i: int|
                    0 <= i < rs0.len() - rem@.len() ==> self.clusters.spec_lookup(
                        Some((#[trigger] rs0[i]).cluster_name@),
                    ) == Some(endpoints_view(rs0[i].endpoints@)),
                forall|k: Option<Seq<char>>|
                    !names_assignment(rs0, k) ==> self.clusters.spec_lookup(k)
                        == crate::cluster::lookup(entries_before, k),
            decreases rem@.len(),
        {
            let ghost pre = rem@;
            let ghost done = rs0.len() - pre.len();
            let a = rem.remove(0);
            proof {
                assert(pre[0] == a);
                assert(rem@ =~= pre.drop_first());
                assert(rs0[done] == a);
                assert(addresses_unique(a.endpoints@));
            }
            let ghost namev = a.cluster_name@;
            self.clusters.upsert(Some(a.cluster_name), a.endpoints);
            proof {
                assert forall|i: int| 0 <= i < rs0.len() - rem@.len() implies self.clusters
                    .spec_lookup(Some((#[trigger] rs0[i]).cluster_name@)) == Some(
                    endpoints_view(rs0[i].endpoints@),
                ) by {
                    if i < done {
                        assert(rs0[i].cluster_name@ != namev);
                    }
                }
                assert forall|k: Option<Seq<char>>| !names_assignment(rs0, k) implies self.clusters
                    .spec_lookup(k) == crate::cluster::lookup(entries_before, k) by {
                    if k == Some(namev) {
                        assert(k == Some(rs0[done].cluster_name@));
                        assert(names_assignment(rs0, k));
                    }
                }
            }
        }
        let ack = DiscoveryRequest {
            version_info: version_info.clone(),
            node_id: None,
            resource_names: empty_names,
            type_url: String::from_str(endpoint_type()),
            response_nonce: nonce.clone(),
            error_detail: None,
        };
        self.eds = TypeState { version: version_info, nonce };
        ack
    }
}

/// Whether a cluster update is well-formed.
#[verifier::loop_isolation(false)]
fn check_clusters_valid(cs: &Vec<ClusterResource>) -> (r: bool)
    ensures
        r == clusters_valid(cs@),
{
    let n = cs.len();
    let mut i: usize = 0;
    while i < n
        invariant
            0 <= i <= n,
            n == cs@.len(),
            forall|a: int, b: int|
                0 <= a < b < cs@.len() && a < i ==> cs@[a].name@ != cs@[b].name@,
            forall|a: int| 0 <= a < i ==> addresses_unique((#[trigger] cs@[a]).endpoints@),
        decreases n - i,
    {
        if !check_addresses_unique(&cs[i].endpoints) {
            return false;
        }
        let mut j: usize = i + 1;
        while j < n
            invariant
                i < j <= n,
                i < n,
                n == cs@.len(),
                forall|b: int| i < b < j ==> cs@[i as int].name@ != cs@[b].name@,
            decreases n - j,
        {
            if cs[i].name.eq(&cs[j].name) {
                return false;
            }
            j = j + 1;
        }
        i = i + 1;
    }
    true
}

/// Whether an endpoint assignment update is well-formed.
#[verifier::loop_isolation(false)]
fn check_assignments_valid(rs: &Vec<EndpointResource>) -> (r: bool)
    ensures
        r == assignments_valid(rs@),
{
    let n = rs.len();
    let mut i: usize = 0;
    while i < n
        invariant
            0 <= i <= n,
            n == rs@.len(),
            forall|a: int, b: int|
                0 <= a < b < rs@.len() && a < i ==> rs@[a].cluster_name@ != rs@[b].cluster_name@,
            forall|a: int| 0 <= a < i ==> addresses_unique((#[trigger] rs@[a]).endpoints@),
        decreases n - i,
    {
        if !check_addresses_unique(&rs[i].endpoints) {
            return false;
        }
        let mut j: usize = i + 1;
        while j < n
            invariant
                i < j <= n,
                i < n,
                n == rs@.len(),
                forall|b: int| i < b < j ==> rs@[i as int].cluster_name@ != rs@[b].cluster_name@,
            decreases n - j,
        {
            if rs[i].cluster_name.eq(&rs[j].cluster_name) {
                return false;
            }
            j = j + 1;
        }
        i = i + 1;
    }
    true
}

/// Whether the endpoints of one cluster have unique addresses.
#[verifier::loop_isolation(false)]
pub fn check_addresses_unique(eps: &Vec<Endpoint>) -> (r: bool)
    ensures
        r == addresses_unique(eps@),
{
    let n = eps.len();
    let mut i: usize = 0;
    while i < n
        invariant
            0 <= i <= n,
            n == eps@.len(),
            forall|a: int, b: int|
                0 <= a < b < eps@.len() && a < i ==> eps@[a].address != eps@[b].address,
        decreases n - i,
    {
        let mut j: usize = i + 1;
        while j < n
            invariant
                i < j <= n,
                i < n,
                n == eps@.len(),
                forall|b: int| i < b < j ==> eps@[i as int].address != eps@[b].address,
            decreases n - j,
        {
            if eps[i].address == eps[j].address {
                return false;
            }
            j = j + 1;
        }
        i = i + 1;
    }
    true
}

/// The names of the clusters that want EDS, in order.
#[verifier::loop_isolation(false)]
fn collect_eds_names(cs: &Vec<ClusterResource>) -> (r: Vec<String>)
    ensures
        names_view(r@) == eds_names(cs@),
{
    let n = cs.len();
    let mut out: Vec<String> = Vec::new();
    proof {
        assert(names_view(out@) =~= Seq::<Seq<char>>::empty());
        assert(cs@.subrange(0, 0) =~= Seq::<ClusterResource>::empty());
    }
    let mut i: usize = 0;
    while i < n
        invariant
            0 <= i <= n,
            n == cs@.len(),
            names_view(out@) =~= eds_names(cs@.subrange(0, i as int)),
        decreases n - i,
    {
        let ghost outv = names_view(out@);
        if cs[i].eds {
            out.push(cs[i].name.clone());
            proof {
                assert(names_view(out@) =~= outv.push(cs@[i as int].name@));
            }
        }
        proof {
            lemma_eds_names_step(cs@, i as int);
        }
        i = i + 1;
    }
    proof {
        assert(cs@.subrange(0, n as int) =~= cs@);
    }
    out
}

/// `eds_names` over a prefix grows one cluster at a time.
proof fn lemma_eds_names_step(cs: Seq<ClusterResource>, i: int)
    requires
        0 <= i < cs.len(),
    ensures
        eds_names(cs.subrange(0, i + 1)) == eds_names(cs.subrange(0, i)) + (if cs[i].eds {
            seq![cs[i].name@]
        } else {
            Seq::<Seq<char>>::empty()
        }),
    decreases i,
{
    let a = cs.subrange(0, i + 1);
    let b = cs.subrange(0, i);
    if i == 0 {
        assert(a.drop_first() =~= Seq::<ClusterResource>::empty());
        assert(eds_names(a.drop_first()) == Seq::<Seq<char>>::empty());
        assert(b =~= Seq::<ClusterResource>::empty());
        assert(eds_names(b) == Seq::<Seq<char>>::empty());
        assert(a[0] == cs[0]);
        assert(eds_names(a) =~= eds_names(b) + (if cs[0].eds {
            seq![cs[0].name@]
        } else {
            Seq::<Seq<char>>::empty()
        }));
    } else {
        lemma_eds_names_step(cs.drop_first(), i - 1);
        assert(a[0] == cs[0] && b[0] == cs[0]);
        assert(a.drop_first() =~= cs.drop_first().subrange(0, i));
        assert(b.drop_first() =~= cs.drop_first().subrange(0, i - 1));
        assert(cs.drop_first()[i - 1] == cs[i]);
        assert(eds_names(a) =~= eds_names(b) + (if cs[i].eds {
            seq![cs[i].name@]
        } else {
            Seq::<Seq<char>>::empty()
        }));
    }
}

} // verus!
