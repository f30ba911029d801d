//! The earlier revision of the proxy configuration, kept for proxies still
//! on it: endpoints carry free-form metadata, both sources carry filters,
//! and the admin section is optional. Its validation rules — non-empty
//! endpoint lists, unique addresses, well-formed metadata tokens and
//! management URIs — are stated and proved exactly.

use vstd::prelude::*;
use vstd::string::StringExecFns;

use crate::codec::{base64_decode, generate_proxy_id, uri_is_valid, valid_uri};
use crate::config::metadata_tokens_of;
use crate::endpoint::EndpointAddress;
use crate::yaml::Node;

verus! {

/// The configuration schema version.
#[derive(Clone, Copy, Debug, PartialEq, Eq, Structural)]
pub enum Version {
    V1Alpha1,
}

/// Settings of the proxy itself.
#[derive(Clone, Debug, PartialEq, Eq)]
pub struct Proxy {
    pub id: String,
    pub port: u16,
}

/// The mathematical value of a [`Proxy`].
pub struct ProxyView {
    pub id: Seq<char>,
    pub port: u16,
}

impl View for Proxy {
    type V = ProxyView;

    open spec fn view(&self) -> ProxyView {
        ProxyView { id: self.id@, port: self.port }
    }
}

/// The port the proxy listens on when none is configured.
pub fn default_proxy_port() -> (r: u16)
    ensures
        r == 7000,
{
    7000
}

impl Default for Proxy {
    /// A random id and the default port.
    fn default() -> (r: Proxy)
        ensures
            r@.id.len() == 36,
            r@.port == 7000,
    {
        Proxy { id: generate_proxy_id(), port: default_proxy_port() }
    }
}

/// Where the admin endpoint listens, as a bare port.
#[derive(Clone, Copy, Debug, PartialEq, Eq, Structural)]
pub struct AdminAddress {
    pub port: u16,
}

/// The optional admin section.
#[derive(Clone, Copy, Debug, PartialEq, Eq, Structural)]
pub struct Admin {
    pub address: Option<AdminAddress>,
}

/// One management server the discovery client may connect to.
#[derive(Clone, Debug, PartialEq, Eq)]
pub struct ManagementServer {
    pub address: String,
}

/// Configuration of a single filter: a stable name and an opaque value.
#[derive(Debug, PartialEq, Eq)]
pub struct Filter {
    pub name: String,
    pub config: Option<Node>,
}

/// A singular endpoint to pass UDP packets on to, with free-form metadata.
#[derive(Debug, PartialEq, Eq)]
pub struct EndPoint {
    pub address: EndpointAddress,
    pub metadata: Option<Node>,
}

impl EndPoint {
    /// An endpoint with no metadata.
    pub fn new(address: EndpointAddress) -> (r: EndPoint)
        ensures
            r.address == address,
            r.metadata is None,
    {
        EndPoint::with_metadata(address, None)
    }

    /// An endpoint carrying the given metadata.
    pub fn with_metadata(address: EndpointAddress, metadata: Option<Node>) -> (r: EndPoint)
        ensures
            r.address == address,
            r.metadata == metadata,
    {
        EndPoint { address, metadata }
    }
}

/// Where the proxy's endpoints come from; both variants carry filters.
#[derive(Debug, PartialEq, Eq)]
pub enum Source {
    Static { filters: Vec<Filter>, endpoints: Vec<EndPoint> },
    Dynamic { filters: Vec<Filter>, management_servers: Vec<ManagementServer> },
}

/// The whole configuration of this revision.
#[derive(Debug)]
pub struct Config {
    pub version: Version,
    pub proxy: Proxy,
    pub admin: Option<Admin>,
    pub source: Source,
}

/// Why a configuration fails validation.
#[derive(Debug, PartialEq, Eq)]
pub enum ValidationError {
    /// The named list must not be empty.
    EmptyList(String),
    /// The named field's values must be unique.
    NotUnique(String),
    /// The named field holds an invalid value.
    ValueInvalid(String),
}

/// The mathematical value of a [`ValidationError`].
pub enum ValidationErrorView {
    EmptyList(Seq<char>),
    NotUnique(Seq<char>),
    ValueInvalid(Seq<char>),
}

impl View for ValidationError {
    type V = ValidationErrorView;

    open spec fn view(&self) -> ValidationErrorView {
        match self {
            ValidationError::EmptyList(s) => ValidationErrorView::EmptyList(s@),
            ValidationError::NotUnique(s) => ValidationErrorView::NotUnique(s@),
            ValidationError::ValueInvalid(s) => ValidationErrorView::ValueInvalid(s@),
        }
    }
}

impl ValidationError {
    /// A human-readable description of the failure.
    pub fn message(&self) -> (r: String)
        ensures
            self matches ValidationError::EmptyList(f) ==> r@ == "empty list "@ + f@,
            self matches ValidationError::NotUnique(f) ==> r@ == "field must be unique "@ + f@,
            self matches ValidationError::ValueInvalid(f) ==> r@ == "invalid value for "@ + f@,
    {
        match self {
            ValidationError::EmptyList(f) => String::from_str("empty list ").concat(f.as_str()),
            ValidationError::NotUnique(f) => String::from_str("field must be unique ").concat(
                f.as_str(),
            ),
            ValidationError::ValueInvalid(f) => String::from_str("invalid value for ").concat(
                f.as_str(),
            ),
        }
    }
}

/// Two endpoints share an address somewhere in the list.
pub open spec fn has_duplicate_address(eps: Seq<EndPoint>) -> bool {
    exists|i: int, j: int| 0 <= i < j < eps.len() && eps[i].address == eps[j].address
}

/// Some endpoint carries metadata its schema refuses.
pub open spec fn has_invalid_metadata(eps: Seq<EndPoint>) -> bool {
    exists|i: int|
        0 <= i < eps.len() && match (#[trigger] eps[i]).metadata {
            Some(m) => metadata_tokens_of(m) is None,
            None => false,
        }
}

/// Two management servers share an address somewhere in the list.
pub open spec fn has_duplicate_server(servers: Seq<ManagementServer>) -> bool {
    exists|i: int, j: int| 0 <= i < j < servers.len() && servers[i].address@ == servers[j].address@
}

/// Some management server's address is not a URI.
pub open spec fn has_invalid_server(servers: Seq<ManagementServer>) -> bool {
    exists|i: int| 0 <= i < servers.len() && !valid_uri((#[trigger] servers[i]).address@)
}

/// What validating a source yields: the first failed rule, in order, or
/// nothing. A static source must list at least one endpoint, with unique
/// addresses and well-formed metadata; a dynamic source must list at least
/// one management server, with unique addresses that are URIs.
pub open spec fn source_validation(s: Source) -> Option<ValidationErrorView> {
    match s {
        Source::Static { filters: _, endpoints } => {
            if endpoints@.len() == 0 {
                Some(ValidationErrorView::EmptyList("static.endpoints"@))
            } else if has_duplicate_address(endpoints@) {
                Some(ValidationErrorView::NotUnique("static.endpoints.address"@))
            } else if has_invalid_metadata(endpoints@) {
                Some(ValidationErrorView::ValueInvalid("static.endpoints.metadata"@))
            } else {
                None
            }
        },
        Source::Dynamic { filters: _, management_servers } => {
            if management_servers@.len() == 0 {
                Some(ValidationErrorView::EmptyList("dynamic.management_servers"@))
            } else if has_duplicate_server(management_servers@) {
                Some(ValidationErrorView::NotUnique("dynamic.management_servers.address"@))
            } else if has_invalid_server(management_servers@) {
                Some(ValidationErrorView::ValueInvalid("dynamic.management_servers.address"@))
            } else {
                None
            }
        },
    }
}

impl Source {
    /// The filter list, whichever the source.
    pub fn get_filters(&self) -> (r: &Vec<Filter>)
        ensures
            match self {
                Source::Static { filters, .. } => r == filters,
                Source::Dynamic { filters, .. } => r == filters,
            },
    {
        match self {
            Source::Static { filters, endpoints: _ } => filters,
            Source::Dynamic { filters, management_servers: _ } => filters,
        }
    }

    /// Validates the source: returns exactly the first rule
    /// `source_validation` names as broken, if any.
    pub fn validate(&self) -> (r: Result<(), ValidationError>)
        ensures
            match r {
                Ok(()) => source_validation(*self) is None,
                Err(e) => source_validation(*self) == Some(e@),
            },
    {
        match self {
            Source::Static { filters: _, endpoints } => {
                if endpoints.len() == 0 {
                    return Err(ValidationError::EmptyList(String::from_str("static.endpoints")));
                }
                if find_duplicate_address(endpoints) {
                    return Err(
                        ValidationError::NotUnique(String::from_str("static.endpoints.address")),
                    );
                }
                if find_invalid_metadata(endpoints) {
                    return Err(
                        ValidationError::ValueInvalid(
                            String::from_str("static.endpoints.metadata"),
                        ),
                    );
                }
                Ok(())
            },
            Source::Dynamic { filters: _, management_servers } => {
                if management_servers.len() == 0 {
                    return Err(
                        ValidationError::EmptyList(String::from_str("dynamic.management_servers")),
                    );
                }
                if find_duplicate_server(management_servers) {
                    return Err(
                        ValidationError::NotUnique(
                            String::from_str("dynamic.management_servers.address"),
                        ),
                    );
                }
                if find_invalid_server(management_servers) {
                    return Err(
                        ValidationError::ValueInvalid(
                            String::from_str("dynamic.management_servers.address"),
                        ),
                    );
                }
                Ok(())
            },
        }
    }
}

impl Config {
    /// Validates the whole configuration; only the source carries rules.
    pub fn validate(&self) -> (r: Result<(), ValidationError>)
        ensures
            match r {
                Ok(()) => source_validation(self.source) is None,
                Err(e) => source_validation(self.source) == Some(e@),
            },
    {
        self.source.validate()
    }
}

/// Whether two endpoints share an address.
fn find_duplicate_address(eps: &Vec<EndPoint>) -> (r: bool)
    ensures
        r == has_duplicate_address(eps@),
{
    let n = eps.len();
    let mut i: usize = 0;
    while i < n
        invariant
            0 <= i <= n,
            n == eps@.len(),
            forall|a: int, b: int| 0 <= a < b < eps@.len() && a < i ==> eps@[a].address != eps@[b].address,
        decreases n - i,
    {
        let mut j: usize = i + 1;
        while j < n
            invariant
                i < j <= n,
                i < n,
                n == eps@.len(),
                forall|b: int| i < b < j ==> eps@[i as int].address != eps@[b].address,
            decreases n - j,
        {
            if eps[i].address == eps[j].address {
                return true;
            }
            j = j + 1;
        }
        i = i + 1;
    }
    false
}

/// Whether some endpoint carries metadata its schema refuses.
fn find_invalid_metadata(eps: &Vec<EndPoint>) -> (r: bool)
    ensures
        r == has_invalid_metadata(eps@),
{
    let n = eps.len();
    let mut i: usize = 0;
    while i < n
        invariant
            0 <= i <= n,
            n == eps@.len(),
            forall|a: int|
                0 <= a < i ==> match (#[trigger] eps@[a]).metadata {
                    Some(m) => metadata_tokens_of(m) is Some,
                    None => true,
                },
        decreases n - i,
    {
        match &eps[i].metadata {
            Some(m) => {
                if !metadata_is_valid(m) {
                    return true;
                }
            },
            None => {},
        }
        i = i + 1;
    }
    false
}

/// Whether two management servers share an address.
fn find_duplicate_server(servers: &Vec<ManagementServer>) -> (r: bool)
    ensures
        r == has_duplicate_server(servers@),
{
    let n = servers.len();
    let mut i: usize = 0;
    while i < n
        invariant
            0 <= i <= n,
            n == servers@.len(),
            forall|a: int, b: int|
                0 <= a < b < servers@.len() && a < i ==> servers@[a].address@ != servers@[b].address@,
        decreases n - i,
    {
        let mut j: usize = i + 1;
        while j < n
            invariant
                i < j <= n,
                i < n,
                n == servers@.len(),
                forall|b: int| i < b < j ==> servers@[i as int].address@ != servers@[b].address@,
            decreases n - j,
        {
            if servers[i].address.eq(&servers[j].address) {
                return true;
            }
            j = j + 1;
        }
        i = i + 1;
    }
    false
}

/// Whether some management server's address is not a URI.
fn find_invalid_server(servers: &Vec<ManagementServer>) -> (r: bool)
    ensures
        r == has_invalid_server(servers@),
{
    let n = servers.len();
    let mut i: usize = 0;
    while i < n
        invariant
            0 <= i <= n,
            n == servers@.len(),
            forall|a: int| 0 <= a < i ==> valid_uri((#[trigger] servers@[a]).address@),
        decreases n - i,
    {
        if !uri_is_valid(servers[i].address.as_str()) {
            return true;
        }
        i = i + 1;
    }
    false
}

/// Whether metadata fits the endpoint metadata schema: it is a mapping,
/// and any `quilkin.dev` section is a mapping whose `tokens`, if present,
/// is a list of base64 texts.
#[verifier::loop_isolation(false)]
fn metadata_is_valid(m: &Node) -> (r: bool)
    ensures
        r == (metadata_tokens_of(*m) is Some),
{
    let q = match m {
        Node::Mapping(q) => q,
        _ => {
            return false;
        },
    };
    let key = String::from_str("quilkin.dev");
    let section = match crate::yaml::map_get(q, &key) {
        None => {
            return true;
        },
        Some(s) => s,
    };
    let d = match section {
        Node::Mapping(d) => d,
        _ => {
            return false;
        },
    };
    let tkey = String::from_str("tokens");
    let tokens = match crate::yaml::map_get(d, &tkey) {
        None => {
            return true;
        },
        Some(t) => t,
    };
    let items = match tokens {
        Node::List(items) => items,
        _ => {
            return false;
        },
    };
    let n = items.len();
    let mut i: usize = 0;
    while i < n
        invariant
            0 <= i <= n,
            n == items@.len(),
            forall|k: int| 0 <= k < i ==> token_of_some(#[trigger] items@[k]),
        decreases n - i,
    {
        match &items[i] {
            Node::Str(st) => {
                if base64_decode(st.as_str()).is_none() {
                    proof {
                        lemma_tokens_of_none_at(items@, i as int);
                    }
                    return false;
                }
            },
            _ => {
                proof {
                    lemma_tokens_of_none_at(items@, i as int);
                }
                return false;
            },
        }
        i = i + 1;
    }
    proof {
        lemma_tokens_of_all_some(items@);
    }
    true
}

/// Whether a list element is a well-formed token.
pub open spec fn token_of_some(n: Node) -> bool {
    crate::config::token_of(n) is Some
}

/// A list with a bad element yields no token list.
proof fn lemma_tokens_of_none_at(items: Seq<Node>, i: int)
    requires
        0 <= i < items.len(),
        !token_of_some(items[i]),
    ensures
        crate::config::tokens_of(items) is None,
    decreases items.len(),
{
    if i > 0 {
        lemma_tokens_of_none_at(items.drop_first(), i - 1);
    }
}

/// A list of well-formed tokens yields a token list.
proof fn lemma_tokens_of_all_some(items: Seq<Node>)
    requires
        forall|k: int| 0 <= k < items.len() ==> token_of_some(#[trigger] items[k]),
    ensures
        crate::config::tokens_of(items) is Some,
    decreases items.len(),
{
    if items.len() > 0 {
        lemma_tokens_of_all_some(items.drop_first());
    }
}

} // verus!
