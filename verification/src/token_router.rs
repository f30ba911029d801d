//! Token-router filter: captures the last N bytes of the datagram as a
//! routing token, strips them, and routes to exactly the endpoints carrying
//! that token.

use vstd::prelude::*;

use crate::endpoint::{endpoints_view, has_token, Endpoint, EndpointView};
use crate::filter::{read_state, FilterError, ReadContext, ReadState};

verus! {

/// The predicate "this endpoint carries `token`".
pub open spec fn token_pred(token: Seq<u8>) -> spec_fn(EndpointView) -> bool {
    |e: EndpointView| has_token(e, token)
}

/// What the token router does on the read path: too short a payload is
/// `NoTokenFound`; a token no endpoint carries is `NoEndpointMatch`;
/// otherwise the token is stripped and the destinations become exactly the
/// endpoints carrying it, in order.
pub open spec fn token_route_spec(
    capture: nat,
    endpoints: Seq<EndpointView>,
    st: ReadState,
) -> Result<ReadState, FilterError> {
    if st.payload.len() < capture {
        Err(FilterError::NoTokenFound)
    } else {
        let cut = st.payload.len() - capture;
        let token = st.payload.subrange(cut as int, st.payload.len() as int);
        let dests = endpoints.filter(token_pred(token));
        if dests.len() == 0 {
            Err(FilterError::NoEndpointMatch)
        } else {
            Ok(ReadState { payload: st.payload.subrange(0, cut as int), destinations: dests })
        }
    }
}

/// Routes datagrams by the token captured from the end of the payload.
#[derive(Clone, Copy, Debug)]
pub struct TokenRouter {
    /// How many trailing bytes form the token; required, with no default.
    pub capture_bytes: usize,
}

impl TokenRouter {
    pub fn new(capture_bytes: usize) -> (r: TokenRouter)
        ensures
            r.capture_bytes == capture_bytes,
    {
        TokenRouter { capture_bytes }
    }

    /// Captures and strips the token, then replaces the destinations with
    /// the endpoints carrying it.
    pub fn read(&self, ctx: &mut ReadContext) -> (r: Result<(), FilterError>)
        ensures
            final(ctx).source == old(ctx).source,
            final(ctx).endpoints == old(ctx).endpoints,
            r is Err ==> *final(ctx) == *old(ctx),
            match r {
                Ok(()) => token_route_spec(
                    self.capture_bytes as nat,
                    endpoints_view(old(ctx).endpoints@),
                    read_state(*old(ctx)),
                ) == Ok::<ReadState, FilterError>(read_state(*final(ctx))),
                Err(e) => token_route_spec(
                    self.capture_bytes as nat,
                    endpoints_view(old(ctx).endpoints@),
                    read_state(*old(ctx)),
                ) == Err::<ReadState, FilterError>(e),
            },
    {
        let capture = self.capture_bytes;
        if ctx.payload.len() < capture {
            return Err(FilterError::NoTokenFound);
        }
        let cut = ctx.payload.len() - capture;
        let mut token: Vec<u8> = Vec::new();
        let mut k: usize = cut;
        while k < ctx.payload.len()
            invariant
                cut <= k <= ctx.payload@.len(),
                ctx == old(ctx),
                cut + capture == ctx.payload@.len(),
                token@ =~= ctx.payload@.subrange(cut as int, k as int),
            decreases ctx.payload@.len() - k,
        {
            token.push(ctx.payload[k]);
            k = k + 1;
        }
        let ghost token_seq = ctx.payload@.subrange(cut as int, ctx.payload@.len() as int);
        proof {
            assert(token@ =~= token_seq);
        }

        let ghost eps = endpoints_view(ctx.endpoints@);
        let n = ctx.endpoints.len();
        let mut dests: Vec<Endpoint> = Vec::new();
        let mut i: usize = 0;
        while i < n
            invariant
                0 <= i <= n,
                n == ctx.endpoints@.len(),
                eps == endpoints_view(ctx.endpoints@),
                token@ == token_seq,
                endpoints_view(dests@) == eps.subrange(0, i as int).filter(token_pred(token_seq)),
            decreases n - i,
        {
            let ghost before = eps.subrange(0, i as int);
            let ghost dv = endpoints_view(dests@);
            let hit = ctx.endpoints[i].matches_token(token.as_slice());
            proof {
                reveal(Seq::filter);
                let after = eps.subrange(0, i as int + 1);
                assert(after.drop_last() =~= before);
                assert(after.last() == eps[i as int]);
                assert(eps[i as int] == ctx.endpoints@[i as int]@);
                assert(hit == token_pred(token_seq)(eps[i as int]));
            }
            if hit {
                let dup = ctx.endpoints[i].duplicate();
                proof {
                    assert(dup@ == eps[i as int]);
                }
                dests.push(dup);
                proof {
                    assert(endpoints_view(dests@) =~= dv.push(eps[i as int]));
                    assert(endpoints_view(dests@) =~= eps.subrange(0, i as int + 1).filter(
                        token_pred(token_seq),
                    ));
                }
            } else {
                proof {
                    assert(endpoints_view(dests@) =~= eps.subrange(0, i as int + 1).filter(
                        token_pred(token_seq),
                    ));
                }
            }
            i = i + 1;
        }
        proof {
            assert(eps.subrange(0, n as int) =~= eps);
        }
        if dests.len() == 0 {
            proof {
                assert(eps.filter(token_pred(token_seq)).len() == 0);
            }
            return Err(FilterError::NoEndpointMatch);
        }
        let ghost pre = read_state(*ctx);
        ctx.payload.truncate(cut);
        ctx.destinations = dests;
        proof {
            assert(read_state(*ctx).payload =~= pre.payload.subrange(0, cut as int));
            assert(token_route_spec(
                self.capture_bytes as nat,
                endpoints_view(old(ctx).endpoints@),
                read_state(*old(ctx)),
            ) == Ok::<ReadState, FilterError>(read_state(*ctx)));
        }
        Ok(())
    }
}

} // verus!
