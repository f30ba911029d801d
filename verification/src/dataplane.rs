//! The per-datagram read/write path: run the chain, choose destinations,
//! and shape the return traffic.

use vstd::prelude::*;

use crate::cluster::{all_endpoints, lookup, ClusterMap};
use crate::endpoint::{endpoints_view, Endpoint, EndpointAddress, EndpointView};
use crate::filter::{
    chain_read_spec, chain_write_spec, read_state, FilterChain, FilterError, ReadContext,
    ReadState, WriteContext,
};

verus! {

/// Why a datagram was dropped rather than forwarded.
#[derive(Clone, Debug, PartialEq, Eq)]
pub enum DropReason {
    /// A filter discarded it.
    Filter(FilterError),
    /// The chain chose no destination and the default cluster is empty.
    NoEndpoints,
}

/// What the read path does with one datagram: the chain runs over the
/// snapshot of all endpoints; if it chose no destinations, the default
/// cluster's endpoints are used; with none there either, the datagram is
/// dropped.
pub open spec fn process_read_spec(
    fs: Seq<crate::filter::Filter>,
    entries: Seq<crate::cluster::ClusterEntry>,
    source: EndpointAddress,
    payload: Seq<u8>,
) -> Result<(Seq<u8>, Seq<EndpointView>), DropReason> {
    let eps = all_endpoints(entries);
    match chain_read_spec(fs, source, eps, ReadState { payload, destinations: Seq::empty() }) {
        Err(e) => Err(DropReason::Filter(e)),
        Ok(st) => {
            if st.destinations.len() > 0 {
                Ok((st.payload, st.destinations))
            } else {
                match lookup(entries, None) {
                    Some(default_eps) => {
                        if default_eps.len() > 0 {
                            Ok((st.payload, default_eps))
                        } else {
                            Err(DropReason::NoEndpoints)
                        }
                    },
                    None => Err(DropReason::NoEndpoints),
                }
            }
        },
    }
}

/// What the write (return) path does with one datagram.
pub open spec fn process_write_spec(
    fs: Seq<crate::filter::Filter>,
    source: EndpointAddress,
    payload: Seq<u8>,
) -> Result<Seq<u8>, FilterError> {
    chain_write_spec(fs, source, payload)
}

/// Runs one received datagram through the chain and picks its destinations.
pub fn process_read(
    chain: &FilterChain,
    clusters: &ClusterMap,
    source: EndpointAddress,
    payload: Vec<u8>,
) -> (r: Result<(Vec<u8>, Vec<Endpoint>), DropReason>)
    requires
        clusters.wf(),
    ensures
        match r {
            Ok(out) => process_read_spec(chain.filters@, clusters.entries@, source, payload@)
                == Ok::<(Seq<u8>, Seq<EndpointView>), DropReason>(
                (out.0@, endpoints_view(out.1@)),
            ),
            Err(e) => process_read_spec(chain.filters@, clusters.entries@, source, payload@)
                == Err::<(Seq<u8>, Seq<EndpointView>), DropReason>(e),
        },
{
    let ghost payload0 = payload@;
    let endpoints = clusters.endpoints();
    let mut ctx = ReadContext { source, endpoints, payload, destinations: Vec::new() };
    proof {
        assert(endpoints_view(ctx.destinations@) =~= Seq::<EndpointView>::empty());
        assert(read_state(ctx) == ReadState { payload: payload0, destinations: Seq::empty() });
    }
    match chain.read(&mut ctx) {
        Err(e) => Err(DropReason::Filter(e)),
        Ok(()) => {
            if ctx.destinations.len() > 0 {
                Ok((ctx.payload, ctx.destinations))
            } else {
                proof {
                    assert(endpoints_view(ctx.destinations@) =~= Seq::<EndpointView>::empty());
                }
                match clusters.get(&None) {
                    Some(default_eps) => {
                        if default_eps.len() > 0 {
                            Ok((ctx.payload, default_eps))
                        } else {
                            Err(DropReason::NoEndpoints)
                        }
                    },
                    None => Err(DropReason::NoEndpoints),
                }
            }
        },
    }
}

/// Runs one returning datagram through the chain in reverse.
pub fn process_write(
    chain: &FilterChain,
    source: EndpointAddress,
    dest: EndpointAddress,
    payload: Vec<u8>,
) -> (r: Result<Vec<u8>, FilterError>)
    ensures
        match r {
            Ok(out) => process_write_spec(chain.filters@, source, payload@) == Ok::<
                Seq<u8>,
                FilterError,
            >(out@),
            Err(e) => process_write_spec(chain.filters@, source, payload@) == Err::<
                Seq<u8>,
                FilterError,
            >(e),
        },
{
    let mut ctx = WriteContext { source, dest, payload };
    match chain.write(&mut ctx) {
        Ok(()) => Ok(ctx.payload),
        Err(e) => Err(e),
    }
}

/// Dataplane idempotence under an empty (all pass-through) chain: whatever
/// the read path forwards, and whatever the write path returns, is the
/// original payload byte for byte.
pub proof fn lemma_passthrough_round_trip(
    fs: Seq<crate::filter::Filter>,
    entries: Seq<crate::cluster::ClusterEntry>,
    client: EndpointAddress,
    endpoint: EndpointAddress,
    payload: Seq<u8>,
)
    requires
        forall|i: int| 0 <= i < fs.len() ==> fs[i].is_passthrough(),
    ensures
        match process_read_spec(fs, entries, client, payload) {
            Ok(out) => out.0 == payload,
            Err(e) => e == DropReason::NoEndpoints,
        },
        process_write_spec(fs, endpoint, payload) == Ok::<Seq<u8>, FilterError>(payload),
{
    crate::filter::lemma_passthrough_chain_read(
        fs,
        client,
        all_endpoints(entries),
        ReadState { payload, destinations: Seq::empty() },
    );
    crate::filter::lemma_passthrough_chain_write(fs, endpoint, payload);
}

} // verus!
