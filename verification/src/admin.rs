//! Decisions of the admin endpoint: which route a request hits, what
//! readiness means for each runtime mode, and the status a readiness check
//! answers. Serving HTTP itself happens outside the library.

use vstd::prelude::*;
use vstd::string::StringExecFns;

use crate::cluster::ClusterMap;

verus! {

/// The port the admin endpoint listens on when none is configured.
pub const PORT: u16 = 8000;

/// How long, in milliseconds, a mode waits between idle requests unless it
/// carries its own interval.
pub const IDLE_REQUEST_INTERVAL_MILLIS: u64 = 30000;

/// Readiness state of a proxy: an override for tests, else readiness is
/// having any endpoint in some cluster.
#[derive(Clone, Copy, Debug, PartialEq, Eq, Structural)]
pub struct ProxyReady {
    pub idle_request_interval_millis: u64,
    pub ready_override: Option<bool>,
}

impl Default for ProxyReady {
    fn default() -> (r: ProxyReady)
        ensures
            r.idle_request_interval_millis == IDLE_REQUEST_INTERVAL_MILLIS,
            r.ready_override is None,
    {
        ProxyReady {
            idle_request_interval_millis: IDLE_REQUEST_INTERVAL_MILLIS,
            ready_override: None,
        }
    }
}

/// Readiness state of a relay.
#[derive(Clone, Copy, Debug, PartialEq, Eq, Structural)]
pub struct RelayReady {
    pub idle_request_interval_millis: u64,
    pub ready: bool,
}

/// Readiness state of a manage server.
#[derive(Clone, Copy, Debug, PartialEq, Eq, Structural)]
pub struct ManageReady {
    pub ready: bool,
}

/// Readiness state of an agent.
#[derive(Clone, Copy, Debug, PartialEq, Eq, Structural)]
pub struct AgentReady {
    pub ready: bool,
}

/// The runtime mode, with the runtime state its readiness depends on.
#[derive(Clone, Copy, Debug, PartialEq, Eq, Structural)]
pub enum Admin {
    Proxy(ProxyReady),
    Relay(RelayReady),
    Manage(ManageReady),
    Agent(AgentReady),
}

/// What readiness means per mode: a proxy is ready when overridden so, or
/// once any cluster has an endpoint; the other modes carry their own flag.
pub open spec fn is_ready_spec(mode: Admin, clusters: ClusterMap) -> bool {
    match mode {
        Admin::Proxy(p) => match p.ready_override {
            Some(b) => b,
            None => exists|i: int|
                0 <= i < clusters.entries@.len() && #[trigger] clusters.entries@[i].endpoints@.len()
                    > 0,
        },
        Admin::Relay(r) => r.ready,
        Admin::Manage(m) => m.ready,
        Admin::Agent(a) => a.ready,
    }
}

impl Admin {
    /// The idle-request interval of this mode, in milliseconds.
    pub fn idle_request_interval_millis(&self) -> (r: u64)
        ensures
            r == match *self {
                Admin::Proxy(p) => p.idle_request_interval_millis,
                Admin::Relay(rl) => rl.idle_request_interval_millis,
                _ => IDLE_REQUEST_INTERVAL_MILLIS,
            },
    {
        match self {
            Admin::Proxy(p) => p.idle_request_interval_millis,
            Admin::Relay(rl) => rl.idle_request_interval_millis,
            _ => IDLE_REQUEST_INTERVAL_MILLIS,
        }
    }

    /// Whether `/ready` should answer success right now.
    pub fn is_ready(&self, clusters: &ClusterMap) -> (r: bool)
        ensures
            r == is_ready_spec(*self, *clusters),
    {
        match self {
            Admin::Proxy(p) => match p.ready_override {
                Some(b) => b,
                None => clusters.has_endpoints(),
            },
            Admin::Relay(rl) => rl.ready,
            Admin::Manage(m) => m.ready,
            Admin::Agent(a) => a.ready,
        }
    }
}

/// Where an admin request goes.
#[derive(Clone, Copy, Debug, PartialEq, Eq, Structural)]
pub enum AdminRoute {
    Metrics,
    Liveness,
    Readiness,
    ConfigDump,
    Profile,
    NotFound,
}

/// The routing table: GET on the known paths, everything else is not found.
pub open spec fn route_spec(get: bool, path: Seq<char>) -> AdminRoute {
    if !get {
        AdminRoute::NotFound
    } else if path == "/metrics"@ {
        AdminRoute::Metrics
    } else if path == "/live"@ || path == "/livez"@ {
        AdminRoute::Liveness
    } else if path == "/ready"@ || path == "/readyz"@ {
        AdminRoute::Readiness
    } else if path == "/config"@ {
        AdminRoute::ConfigDump
    } else if path == "/debug/pprof/profile"@ {
        AdminRoute::Profile
    } else {
        AdminRoute::NotFound
    }
}

/// Decides the route of one request, from its method and path.
pub fn route(get: bool, path: &str) -> (r: AdminRoute)
    ensures
        r == route_spec(get, path@),
{
    if !get {
        return AdminRoute::NotFound;
    }
    let p = String::from_str(path);
    if p.eq(&String::from_str("/metrics")) {
        AdminRoute::Metrics
    } else if p.eq(&String::from_str("/live")) || p.eq(&String::from_str("/livez")) {
        AdminRoute::Liveness
    } else if p.eq(&String::from_str("/ready")) || p.eq(&String::from_str("/readyz")) {
        AdminRoute::Readiness
    } else if p.eq(&String::from_str("/config")) {
        AdminRoute::ConfigDump
    } else if p.eq(&String::from_str("/debug/pprof/profile")) {
        AdminRoute::Profile
    } else {
        AdminRoute::NotFound
    }
}

/// The status a readiness (or liveness) check answers.
pub fn check_readiness(ready: bool) -> (r: u16)
    ensures
        ready ==> r == 200,
        !ready ==> r == 500,
{
    if ready {
        200
    } else {
        500
    }
}

} // verus!
