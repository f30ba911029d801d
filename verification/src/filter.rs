//! The filter-chain runtime: read/write contexts, filter errors, and the
//! ordered composition of filters evaluated head-to-tail on read and
//! tail-to-head on write.

use vstd::prelude::*;

use crate::endpoint::{endpoints_view, Endpoint, EndpointAddress, EndpointView};
use crate::firewall::{first_match, Action, Firewall};
use crate::token_router::{token_route_spec, TokenRouter};

verus! {

/// Why a filter discarded a datagram; each kind is accounted separately and
/// never propagates above the single datagram.
#[derive(Clone, Debug, PartialEq, Eq)]
pub enum FilterError {
    Dropped,
    RateLimitExceeded,
    FirewallDenied,
    NoTokenFound,
    NoEndpointMatch,
    Custom(String),
}

/// Context for the client-to-endpoint (read) direction.
pub struct ReadContext {
    /// The downstream client the datagram came from.
    pub source: EndpointAddress,
    /// Snapshot of the endpoints the chain may route to.
    pub endpoints: Vec<Endpoint>,
    /// The datagram contents; filters may mutate it.
    pub payload: Vec<u8>,
    /// Where the datagram goes; initially empty, filters may append or replace.
    pub destinations: Vec<Endpoint>,
}

/// Context for the endpoint-to-client (write) direction.
pub struct WriteContext {
    /// The upstream endpoint the datagram came from.
    pub source: EndpointAddress,
    /// The original client the datagram returns to.
    pub dest: EndpointAddress,
    /// The datagram contents; filters may mutate it.
    pub payload: Vec<u8>,
}

/// The part of a read context a filter may change.
pub struct ReadState {
    pub payload: Seq<u8>,
    pub destinations: Seq<EndpointView>,
}

/// The mutable state of a read context.
pub open spec fn read_state(ctx: ReadContext) -> ReadState {
    ReadState { payload: ctx.payload@, destinations: endpoints_view(ctx.destinations@) }
}

/// One filter instance. `Passthrough` stands for the filter families that
/// neither mutate the datagram nor choose destinations.
pub enum Filter {
    Firewall(Firewall),
    TokenRouter(TokenRouter),
    Passthrough,
}

impl Filter {
    /// Whether the filter leaves every datagram unchanged in both directions.
    pub open spec fn is_passthrough(self) -> bool {
        self is Passthrough
    }
}

/// What one filter does to a datagram on the read path.
pub open spec fn filter_read_step(
    f: Filter,
    source: EndpointAddress,
    endpoints: Seq<EndpointView>,
    st: ReadState,
) -> Result<ReadState, FilterError> {
    match f {
        Filter::Firewall(fw) => {
            if first_match(fw.on_read@, source) == Some(Action::Allow) {
                Ok(st)
            } else {
                Err(FilterError::FirewallDenied)
            }
        },
        Filter::TokenRouter(tr) => token_route_spec(tr.capture_bytes as nat, endpoints, st),
        Filter::Passthrough => Ok(st),
    }
}

/// What one filter does to a datagram on the write path.
pub open spec fn filter_write_step(
    f: Filter,
    source: EndpointAddress,
    payload: Seq<u8>,
) -> Result<Seq<u8>, FilterError> {
    match f {
        Filter::Firewall(fw) => {
            if first_match(fw.on_write@, source) == Some(Action::Allow) {
                Ok(payload)
            } else {
                Err(FilterError::FirewallDenied)
            }
        },
        Filter::TokenRouter(_) => Ok(payload),
        Filter::Passthrough => Ok(payload),
    }
}

/// The whole chain on the read path, head to tail.
pub open spec fn chain_read_spec(
    fs: Seq<Filter>,
    source: EndpointAddress,
    endpoints: Seq<EndpointView>,
    st: ReadState,
) -> Result<ReadState, FilterError>
    decreases fs.len(),
{
    if fs.len() == 0 {
        Ok(st)
    } else {
        match filter_read_step(fs[0], source, endpoints, st) {
            Ok(st2) => chain_read_spec(fs.drop_first(), source, endpoints, st2),
            Err(e) => Err(e),
        }
    }
}

/// The whole chain on the write path, tail to head.
pub open spec fn chain_write_spec(
    fs: Seq<Filter>,
    source: EndpointAddress,
    payload: Seq<u8>,
) -> Result<Seq<u8>, FilterError>
    decreases fs.len(),
{
    if fs.len() == 0 {
        Ok(payload)
    } else {
        match filter_write_step(fs.last(), source, payload) {
            Ok(p2) => chain_write_spec(fs.drop_last(), source, p2),
            Err(e) => Err(e),
        }
    }
}

/// An ordered, immutable composition of filters, replaced atomically as a
/// whole when configuration changes.
pub struct FilterChain {
    pub filters: Vec<Filter>,
    pub version: u64,
}

impl FilterChain {
    /// A chain with no filters.
    pub fn new(filters: Vec<Filter>, version: u64) -> (r: FilterChain)
        ensures
            r.filters == filters,
            r.version == version,
    {
        FilterChain { filters, version }
    }

    /// Evaluates the filters in configured order; any filter may mutate the
    /// payload, replace the destinations, or discard the datagram.
    pub fn read(&self, ctx: &mut ReadContext) -> (r: Result<(), FilterError>)
        ensures
            final(ctx).source == old(ctx).source,
            final(ctx).endpoints == old(ctx).endpoints,
            match r {
                Ok(()) => chain_read_spec(
                    self.filters@,
                    old(ctx).source,
                    endpoints_view(old(ctx).endpoints@),
                    read_state(*old(ctx)),
                ) == Ok::<ReadState, FilterError>(read_state(*final(ctx))),
                Err(e) => chain_read_spec(
                    self.filters@,
                    old(ctx).source,
                    endpoints_view(old(ctx).endpoints@),
                    read_state(*old(ctx)),
                ) == Err::<ReadState, FilterError>(e),
            },
    {
        let ghost source = ctx.source;
        let ghost eps = endpoints_view(ctx.endpoints@);
        let ghost st0 = read_state(*ctx);
        let n = self.filters.len();
        proof {
            assert(self.filters@.subrange(0, n as int) =~= self.filters@);
        }
        let mut i: usize = 0;
        while i < n
            invariant
                0 <= i <= n,
                n == self.filters@.len(),
                ctx.source == old(ctx).source,
                ctx.endpoints == old(ctx).endpoints,
                source == old(ctx).source,
                eps == endpoints_view(ctx.endpoints@),
                st0 == read_state(*old(ctx)),
                chain_read_spec(self.filters@, source, eps, st0) == chain_read_spec(
                    self.filters@.subrange(i as int, n as int),
                    source,
                    eps,
                    read_state(*ctx),
                ),
            decreases n - i,
        {
            let ghost pre = read_state(*ctx);
            let ghost rest = self.filters@.subrange(i as int, n as int);
            let step = match &self.filters[i] {
                Filter::Firewall(fw) => fw.read(ctx),
                Filter::TokenRouter(tr) => tr.read(ctx),
                Filter::Passthrough => Ok(()),
            };
            proof {
                assert(rest[0] == self.filters@[i as int]);
                assert(rest.drop_first() =~= self.filters@.subrange(i as int + 1, n as int));
            }
            match step {
                Ok(()) => {},
                Err(e) => {
                    return Err(e);
                },
            }
            i = i + 1;
        }
        proof {
            assert(self.filters@.subrange(n as int, n as int) =~= Seq::<Filter>::empty());
        }
        Ok(())
    }

    /// Evaluates the filters in reverse order with the same error semantics.
    pub fn write(&self, ctx: &mut WriteContext) -> (r: Result<(), FilterError>)
        ensures
            final(ctx).source == old(ctx).source,
            final(ctx).dest == old(ctx).dest,
            match r {
                Ok(()) => chain_write_spec(self.filters@, old(ctx).source, old(ctx).payload@)
                    == Ok::<Seq<u8>, FilterError>(final(ctx).payload@),
                Err(e) => chain_write_spec(self.filters@, old(ctx).source, old(ctx).payload@)
                    == Err::<Seq<u8>, FilterError>(e),
            },
    {
        let ghost source = ctx.source;
        let ghost p0 = ctx.payload@;
        let n = self.filters.len();
        proof {
            assert(self.filters@.subrange(0, n as int) =~= self.filters@);
        }
        let mut i: usize = n;
        while i > 0
            invariant
                0 <= i <= n,
                n == self.filters@.len(),
                ctx.source == old(ctx).source,
                ctx.dest == old(ctx).dest,
                source == old(ctx).source,
                p0 == old(ctx).payload@,
                chain_write_spec(self.filters@, source, p0) == chain_write_spec(
                    self.filters@.subrange(0, i as int),
                    source,
                    ctx.payload@,
                ),
            decreases i,
        {
            let ghost prefix = self.filters@.subrange(0, i as int);
            i = i - 1;
            let step = match &self.filters[i] {
                Filter::Firewall(fw) => fw.write(ctx),
                Filter::TokenRouter(_) => Ok(()),
                Filter::Passthrough => Ok(()),
            };
            proof {
                assert(prefix.last() == self.filters@[i as int]);
                assert(prefix.drop_last() =~= self.filters@.subrange(0, i as int));
            }
            match step {
                Ok(()) => {},
                Err(e) => {
                    return Err(e);
                },
            }
        }
        proof {
            assert(self.filters@.subrange(0, 0) =~= Seq::<Filter>::empty());
        }
        Ok(())
    }
}

/// A chain of pass-through filters leaves the payload and the destinations
/// of a read exactly as they were.
pub proof fn lemma_passthrough_chain_read(
    fs: Seq<Filter>,
    source: EndpointAddress,
    endpoints: Seq<EndpointView>,
    st: ReadState,
)
    requires
        forall|i: int| 0 <= i < fs.len() ==> fs[i].is_passthrough(),
    ensures
        chain_read_spec(fs, source, endpoints, st) == Ok::<ReadState, FilterError>(st),
    decreases fs.len(),
{
    if fs.len() > 0 {
        assert(fs[0].is_passthrough());
        lemma_passthrough_chain_read(fs.drop_first(), source, endpoints, st);
    }
}

/// A chain of pass-through filters leaves the payload of a write exactly as
/// it was.
pub proof fn lemma_passthrough_chain_write(
    fs: Seq<Filter>,
    source: EndpointAddress,
    payload: Seq<u8>,
)
    requires
        forall|i: int| 0 <= i < fs.len() ==> fs[i].is_passthrough(),
    ensures
        chain_write_spec(fs, source, payload) == Ok::<Seq<u8>, FilterError>(payload),
    decreases fs.len(),
{
    if fs.len() > 0 {
        assert(fs.last().is_passthrough());
        lemma_passthrough_chain_write(fs.drop_last(), source, payload);
    }
}

} // verus!
