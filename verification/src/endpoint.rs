//! Endpoints: an upstream address plus routing-token metadata.

use vstd::prelude::*;

verus! {

/// An IP address, IPv4 held as its 32-bit value and IPv6 as its 128-bit value.
#[derive(Clone, Copy, Debug, PartialEq, Eq, Structural, Hash)]
pub enum IpAddr {
    V4(u32),
    V6(u128),
}

/// A host + port pair; equality is by value, so two equal addresses denote
/// the same socket address in canonical form.
#[derive(Clone, Copy, Debug, PartialEq, Eq, Structural, Hash)]
pub struct EndpointAddress {
    pub ip: IpAddr,
    pub port: u16,
}

/// The numeric value of the dotted-quad `a.b.c.d`.
pub open spec fn v4_value(a: u8, b: u8, c: u8, d: u8) -> u32 {
    (a as u32 * 0x100_0000 + b as u32 * 0x1_0000 + c as u32 * 0x100 + d as u32) as u32
}

impl EndpointAddress {
    /// The IPv4 address `a.b.c.d:port`.
    pub fn v4(a: u8, b: u8, c: u8, d: u8, port: u16) -> (r: EndpointAddress)
        ensures
            r.ip == IpAddr::V4(v4_value(a, b, c, d)),
            r.port == port,
    {
        let ip: u32 = a as u32 * 0x100_0000 + b as u32 * 0x1_0000 + c as u32 * 0x100 + d as u32;
        EndpointAddress { ip: IpAddr::V4(ip), port }
    }

    /// The IPv6 address with the given 128-bit value.
    pub fn v6(value: u128, port: u16) -> (r: EndpointAddress)
        ensures
            r.ip == IpAddr::V6(value),
            r.port == port,
    {
        EndpointAddress { ip: IpAddr::V6(value), port }
    }
}

/// Per-endpoint metadata: an ordered set of opaque routing tokens.
#[derive(Clone, Debug, PartialEq, Eq)]
pub struct Metadata {
    pub tokens: Vec<Vec<u8>>,
}

impl Metadata {
    pub fn empty() -> (r: Metadata)
        ensures
            r.tokens@.len() == 0,
    {
        Metadata { tokens: Vec::new() }
    }
}

/// A single upstream target: an address plus its metadata.
#[derive(Clone, Debug, PartialEq, Eq)]
pub struct Endpoint {
    pub address: EndpointAddress,
    pub metadata: Metadata,
}

/// The mathematical value of an endpoint: its address and token multiset,
/// with each token as a byte sequence.
pub struct EndpointView {
    pub address: EndpointAddress,
    pub tokens: Seq<Seq<u8>>,
}

/// The token list of a metadata value, each token as a byte sequence.
pub open spec fn tokens_view(m: Metadata) -> Seq<Seq<u8>> {
    Seq::new(m.tokens@.len(), |i: int| m.tokens@[i]@)
}

impl View for Endpoint {
    type V = EndpointView;

    open spec fn view(&self) -> EndpointView {
        EndpointView { address: self.address, tokens: tokens_view(self.metadata) }
    }
}

/// The endpoint views of a list of endpoints, in order.
pub open spec fn endpoints_view(v: Seq<Endpoint>) -> Seq<EndpointView> {
    Seq::new(v.len(), |i: int| v[i]@)
}

/// Whether the endpoint carries `token` among its routing tokens.
pub open spec fn has_token(e: EndpointView, token: Seq<u8>) -> bool {
    exists|i: int| 0 <= i < e.tokens.len() && e.tokens[i] == token
}

impl Endpoint {
    /// An endpoint with no metadata.
    pub fn new(address: EndpointAddress) -> (r: Endpoint)
        ensures
            r@.address == address,
            r@.tokens.len() == 0,
    {
        Endpoint { address, metadata: Metadata::empty() }
    }

    /// An endpoint carrying the given metadata.
    pub fn with_metadata(address: EndpointAddress, metadata: Metadata) -> (r: Endpoint)
        ensures
            r@.address == address,
            r@.tokens == tokens_view(metadata),
    {
        Endpoint { address, metadata }
    }

    /// Whether this endpoint carries `token`.
    pub fn matches_token(&self, token: &[u8]) -> (r: bool)
        ensures
            r == has_token(self@, token@),
    {
        let n = self.metadata.tokens.len();
        let mut i: usize = 0;
        while i < n
            invariant
                0 <= i <= n,
                n == self.metadata.tokens@.len(),
                forall|j: int| 0 <= j < i ==> self@.tokens[j] != token@,
            decreases n - i,
        {
            if bytes_eq(&self.metadata.tokens[i], token) {
                assert(self@.tokens[i as int] == token@);
                return true;
            }
            i = i + 1;
        }
        false
    }
}

/// A copy of a byte vector with the same contents.
pub fn clone_bytes(a: &Vec<u8>) -> (r: Vec<u8>)
    ensures
        r@ == a@,
{
    let n = a.len();
    let mut r: Vec<u8> = Vec::new();
    let mut i: usize = 0;
    while i < n
        invariant
            0 <= i <= n,
            n == a@.len(),
            r@ =~= a@.subrange(0, i as int),
        decreases n - i,
    {
        r.push(a[i]);
        i = i + 1;
    }
    proof {
        assert(r@ =~= a@);
    }
    r
}

impl Metadata {
    /// A copy carrying the same tokens.
    pub fn duplicate(&self) -> (r: Metadata)
        ensures
            tokens_view(r) == tokens_view(*self),
    {
        let n = self.tokens.len();
        let mut tokens: Vec<Vec<u8>> = Vec::new();
        let mut i: usize = 0;
        while i < n
            invariant
                0 <= i <= n,
                n == self.tokens@.len(),
                tokens@.len() == i,
                forall|j: int| 0 <= j < i ==> tokens@[j]@ == self.tokens@[j]@,
            decreases n - i,
        {
            tokens.push(clone_bytes(&self.tokens[i]));
            i = i + 1;
        }
        let r = Metadata { tokens };
        proof {
            assert(tokens_view(r) =~= tokens_view(*self));
        }
        r
    }
}

impl Endpoint {
    /// A copy denoting the same endpoint.
    pub fn duplicate(&self) -> (r: Endpoint)
        ensures
            r@ == self@,
    {
        Endpoint { address: self.address, metadata: self.metadata.duplicate() }
    }
}

/// Byte-wise equality of a byte vector and a byte slice.
pub fn bytes_eq(a: &Vec<u8>, b: &[u8]) -> (r: bool)
    ensures
        r == (a@ == b@),
{
    if a.len() != b.len() {
        assert(a@.len() != b@.len());
        return false;
    }
    let n = a.len();
    let mut i: usize = 0;
    while i < n
        invariant
            0 <= i <= n,
            n == a@.len(),
            n == b@.len(),
            forall|j: int| 0 <= j < i ==> a@[j] == b@[j],
        decreases n - i,
    {
        if a[i] != b[i] {
            return false;
        }
        i = i + 1;
    }
    assert(a@ =~= b@);
    true
}

} // verus!
