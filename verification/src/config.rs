//! Proxy configuration: the typed model, and its grammar over parsed YAML
//! trees. What each document means — and which documents are refused — is
//! stated by spec functions over [`Node`] and decided exactly by the
//! parsing functions.

use vstd::prelude::*;
use vstd::string::StringExecFns;

use crate::addr::parse_sockaddr_spec;
use crate::codec::{base64_decode, base64_decode_of, generate_proxy_id};
use crate::endpoint::{tokens_view, Endpoint, EndpointAddress, EndpointView, IpAddr, Metadata};
use crate::yaml::{key_is, map_lookup, parse_yaml, Node};

verus! {

/// The configuration schema version.
#[derive(Clone, Copy, Debug, PartialEq, Eq, Structural)]
pub enum Version {
    V1Alpha1,
}

/// Settings of the proxy itself.
#[derive(Clone, Debug, PartialEq, Eq)]
pub struct Proxy {
    pub id: String,
    pub port: u16,
}

/// The mathematical value of a [`Proxy`].
pub struct ProxyView {
    pub id: Seq<char>,
    pub port: u16,
}

impl View for Proxy {
    type V = ProxyView;

    open spec fn view(&self) -> ProxyView {
        ProxyView { id: self.id@, port: self.port }
    }
}

/// The port the proxy listens on when none is configured.
pub fn default_proxy_port() -> (r: u16)
    ensures
        r == 7000,
{
    7000
}

/// A fresh random proxy id in hyphenated form.
fn default_proxy_id() -> (r: String)
    ensures
        r@.len() == 36,
{
    generate_proxy_id()
}

impl Default for Proxy {
    /// A random id and the default port.
    fn default() -> (r: Proxy)
        ensures
            r@.id.len() == 36,
            r@.port == 7000,
    {
        Proxy { id: default_proxy_id(), port: default_proxy_port() }
    }
}

/// Where the admin endpoint listens.
#[derive(Clone, Copy, Debug, PartialEq, Eq, Structural)]
pub struct Admin {
    pub address: EndpointAddress,
}

/// The admin address used when none is configured: `[::]:8000`.
pub open spec fn default_admin_address() -> EndpointAddress {
    EndpointAddress { ip: IpAddr::V6(0), port: 8000 }
}

impl Default for Admin {
    fn default() -> (r: Admin)
        ensures
            r.address == default_admin_address(),
    {
        Admin { address: EndpointAddress { ip: IpAddr::V6(0), port: 8000 } }
    }
}

/// One management server the discovery client may connect to.
#[derive(Clone, Debug, PartialEq, Eq)]
pub struct ManagementServer {
    pub address: String,
}

/// Configuration of a single filter: a stable name and an opaque value.
#[derive(Debug, PartialEq, Eq)]
pub struct Filter {
    pub name: String,
    pub config: Option<Node>,
}

/// The mathematical value of a [`Filter`].
pub struct FilterView {
    pub name: Seq<char>,
    pub config: Option<Node>,
}

impl View for Filter {
    type V = FilterView;

    open spec fn view(&self) -> FilterView {
        FilterView { name: self.name@, config: self.config }
    }
}

/// Where the proxy's endpoints come from.
#[derive(Debug, PartialEq, Eq)]
pub enum Source {
    Static { filters: Vec<Filter>, endpoints: Vec<Endpoint> },
    Dynamic { management_servers: Vec<ManagementServer> },
}

/// The mathematical value of a [`Source`].
pub enum SourceView {
    Static { filters: Seq<FilterView>, endpoints: Seq<EndpointView> },
    Dynamic { management_servers: Seq<Seq<char>> },
}

/// The filter views of a filter list, in order.
pub open spec fn filters_view(v: Seq<Filter>) -> Seq<FilterView> {
    Seq::new(v.len(), |i: int| v[i]@)
}

/// The addresses of a management-server list, in order.
pub open spec fn servers_view(v: Seq<ManagementServer>) -> Seq<Seq<char>> {
    Seq::new(v.len(), |i: int| v[i].address@)
}

impl View for Source {
    type V = SourceView;

    open spec fn view(&self) -> SourceView {
        match self {
            Source::Static { filters, endpoints } => SourceView::Static {
                filters: filters_view(filters@),
                endpoints: crate::endpoint::endpoints_view(endpoints@),
            },
            Source::Dynamic { management_servers } => SourceView::Dynamic {
                management_servers: servers_view(management_servers@),
            },
        }
    }
}

impl Source {
    /// The endpoint list, when the source is static.
    pub fn get_static_endpoints(&self) -> (r: Option<&Vec<Endpoint>>)
        ensures
            match r {
                Some(eps) => self@ matches SourceView::Static { endpoints, .. } && endpoints
                    == crate::endpoint::endpoints_view(eps@),
                None => self@ is Dynamic,
            },
    {
        match self {
            Source::Static { endpoints, .. } => Some(endpoints),
            Source::Dynamic { .. } => None,
        }
    }

    /// A mutable borrow of the endpoint list, when the source is static.
    pub fn get_static_endpoints_mut(&mut self) -> (r: Option<&mut Vec<Endpoint>>)
        ensures
            match r {
                Some(eps) => old(self)@ matches SourceView::Static { endpoints, .. } && endpoints
                    == crate::endpoint::endpoints_view(eps@),
                None => old(self)@ is Dynamic && *final(self) == *old(self),
            },
    {
        match self {
            Source::Static { endpoints, .. } => Some(endpoints),
            Source::Dynamic { .. } => None,
        }
    }

    /// The filter list, when the source is static.
    pub fn get_static_filters(&self) -> (r: Option<&Vec<Filter>>)
        ensures
            match r {
                Some(fs) => self@ matches SourceView::Static { filters, .. } && filters
                    == filters_view(fs@),
                None => self@ is Dynamic,
            },
    {
        match self {
            Source::Static { filters, .. } => Some(filters),
            Source::Dynamic { .. } => None,
        }
    }
}

/// The whole proxy configuration.
#[derive(Debug)]
pub struct Config {
    pub version: Version,
    pub proxy: Proxy,
    pub admin: Admin,
    pub source: Source,
}

/// The mathematical value of a [`Config`].
pub struct ConfigView {
    pub version: Version,
    pub proxy: ProxyView,
    pub admin: Admin,
    pub source: SourceView,
}

impl View for Config {
    type V = ConfigView;

    open spec fn view(&self) -> ConfigView {
        ConfigView { version: self.version, proxy: self.proxy@, admin: self.admin, source: self.source@ }
    }
}

/// Why a configuration document was refused.
#[derive(Clone, Debug, PartialEq, Eq)]
pub enum ConfigError {
    /// The YAML text did not parse; the parser's message.
    Yaml(String),
    /// A mapping held a field the schema does not know.
    UnknownField(String),
    /// A required field is absent.
    MissingField(String),
    /// A field holds a value of the wrong shape; the field's name.
    InvalidValue(String),
}

impl ConfigError {
    /// A human-readable description of the refusal.
    pub fn message(&self) -> (r: String)
        ensures
            self matches ConfigError::UnknownField(f) ==> r@ == "unknown field "@ + f@,
            self matches ConfigError::MissingField(f) ==> r@ == "missing field "@ + f@,
            self matches ConfigError::InvalidValue(f) ==> r@ == "invalid value for "@ + f@,
            self matches ConfigError::Yaml(m) ==> r@ == m@,
    {
        match self {
            ConfigError::Yaml(m) => m.clone(),
            ConfigError::UnknownField(f) => String::from_str("unknown field ").concat(f.as_str()),
            ConfigError::MissingField(f) => String::from_str("missing field ").concat(f.as_str()),
            ConfigError::InvalidValue(f) => String::from_str("invalid value for ").concat(
                f.as_str(),
            ),
        }
    }
}

/// Every key of the mapping is a string among `keys`.
pub open spec fn keys_among(entries: Seq<(Node, Node)>, keys: Seq<Seq<char>>) -> bool {
    forall|i: int|
        0 <= i < entries.len() ==> exists|j: int|
            0 <= j < keys.len() && key_is((#[trigger] entries[i]).0, keys[j])
}

/// The views of a key list, in order.
pub open spec fn keys_view(keys: Seq<String>) -> Seq<Seq<char>> {
    Seq::new(keys.len(), |i: int| keys[i]@)
}

/// Every key of the mapping is a string.
pub open spec fn string_keys(entries: Seq<(Node, Node)>) -> bool {
    forall|i: int| 0 <= i < entries.len() ==> (#[trigger] entries[i]).0 is Str
}

/// `f` is a key of the mapping and lies outside the schema's key list.
pub open spec fn unknown_str_key(
    entries: Seq<(Node, Node)>,
    keys: Seq<Seq<char>>,
    f: Seq<char>,
) -> bool {
    &&& exists|i: int| 0 <= i < entries.len() && key_is((#[trigger] entries[i]).0, f)
    &&& forall|j: int| 0 <= j < keys.len() ==> f != keys[j]
}

/// The keys a configuration document may carry at its top level.
pub open spec fn top_level_keys() -> Seq<Seq<char>> {
    seq!["version"@, "proxy"@, "admin"@, "static"@, "dynamic"@]
}

/// Pulls each named key's value out of a mapping. With `strict`, a key
/// outside the list is refused; without, it is ignored. The slot for each
/// key holds what looking it up in the mapping gives.
#[verifier::loop_isolation(false)]
fn split_mapping(entries: Vec<(Node, Node)>, keys: &Vec<String>, strict: bool) -> (r: Result<
    Vec<Option<Node>>,
    ConfigError,
>)
    requires
        forall|a: int, b: int| 0 <= a < b < keys@.len() ==> keys@[a]@ != keys@[b]@,
    ensures
        match r {
            Ok(slots) => {
                &&& slots@.len() == keys@.len()
                &&& forall|j: int|
                    0 <= j < keys@.len() ==> slots@[j] == map_lookup(entries@, keys@[j]@)
                &&& (strict ==> keys_among(entries@, keys_view(keys@)))
            },
            Err(e) => {
                &&& strict
                &&& !keys_among(entries@, keys_view(keys@))
                &&& match e {
                    ConfigError::UnknownField(f) => unknown_str_key(entries@, keys_view(keys@), f@),
                    ConfigError::InvalidValue(_) => exists|i: int|
                        0 <= i < entries@.len() && !((#[trigger] entries@[i]).0 is Str),
                    _ => false,
                }
            },
        },
{
    let nk = keys.len();
    let mut slots: Vec<Option<Node>> = Vec::new();
    let mut j: usize = 0;
    while j < nk
        invariant
            slots@.len() == j,
            0 <= j <= nk,
            forall|t: int| 0 <= t < j ==> slots@[t] is None,
        decreases nk - j,
    {
        slots.push(None);
        j = j + 1;
    }
    let ghost entries0 = entries@;
    let mut entries = entries;
    proof {
        assert(entries@ =~= entries0.subrange(0, entries@.len() as int));
        assert(entries0.subrange(entries0.len() as int, entries0.len() as int) =~= Seq::<
            (Node, Node),
        >::empty());
        assert forall|t: int| 0 <= t < nk implies slots@[t] == map_lookup(
            entries0.subrange(entries0.len() as int, entries0.len() as int),
            keys@[t]@,
        ) by {}
    }
    while entries.len() > 0
        invariant
            nk == keys@.len(),
            slots@.len() == nk,
            forall|a: int, b: int| 0 <= a < b < nk ==> keys@[a]@ != keys@[b]@,
            entries@.len() <= entries0.len(),
            entries@ == entries0.subrange(0, entries@.len() as int),
            forall|t: int|
                0 <= t < nk ==> slots@[t] == map_lookup(
                    entries0.subrange(entries@.len() as int, entries0.len() as int),
                    keys@[t]@,
                ),
            strict ==> forall|i: int|
                entries@.len() <= i < entries0.len() ==> exists|j2: int|
                    0 <= j2 < nk && key_is((#[trigger] entries0[i]).0, keys@[j2]@),
        decreases entries@.len(),
    {
        let ghost pre = entries@;
        let ghost processed = entries0.subrange(pre.len() as int, entries0.len() as int);
        let (k, v) = match entries.pop() {
            Some(e) => e,
            None => {
                proof {
                    assert(false);
                }
                return Err(ConfigError::InvalidValue(String::from_str("mapping")));
            },
        };
        proof {
            assert(pre[pre.len() - 1] == (k, v));
            assert(entries@ =~= entries0.subrange(0, entries@.len() as int));
            let popped = seq![(k, v)];
            assert(popped + processed =~= entries0.subrange(
                entries@.len() as int,
                entries0.len() as int,
            ));
        }
        let ghost processed2 = entries0.subrange(entries@.len() as int, entries0.len() as int);
        match k {
            Node::Str(s) => {
                let mut idx: Option<usize> = None;
                let mut j: usize = 0;
                while j < nk
                    invariant
                        0 <= j <= nk,
                        nk == keys@.len(),
                        match idx {
                            Some(t) => t < nk && s@ == keys@[t as int]@,
                            None => forall|t: int| 0 <= t < j ==> s@ != keys@[t]@,
                        },
                    decreases nk - j,
                {
                    if s.eq(&keys[j]) {
                        idx = Some(j);
                    }
                    j = j + 1;
                }
                match idx {
                    Some(t) => {
                        let ghost pre_slots = slots@;
                        slots[t] = Some(v);
                        proof {
                            let i = entries@.len() as int;
                            assert(entries0[i] == (k, v));
                            assert(processed2[0] == (k, v));
                            assert(key_is(entries0[i].0, keys@[t as int]@));
                            assert forall|t2: int| 0 <= t2 < nk implies slots@[t2] == map_lookup(
                                processed2,
                                keys@[t2]@,
                            ) by {
                                assert(processed2[0].0 == Node::Str(s));
                                assert(processed2.drop_first() =~= processed);
                                if t2 != t as int {
                                    if t2 < t as int {
                                        assert(keys@[t2]@ != keys@[t as int]@);
                                    } else {
                                        assert(keys@[t as int]@ != keys@[t2]@);
                                    }
                                    assert(slots@[t2] == pre_slots[t2]);
                                }
                            }
                        }
                    },
                    None => {
                        if strict {
                            proof {
                                assert(forall|t: int| 0 <= t < nk ==> s@ != keys@[t]@);
                                let i = entries@.len() as int;
                                assert(entries0[i].0 == Node::Str(s));
                                assert(forall|j2: int|
                                    0 <= j2 < nk ==> !key_is(entries0[i].0, keys_view(keys@)[j2]));
                                assert(!keys_among(entries0, keys_view(keys@)));
                                assert(key_is(entries0[i].0, s@));
                                assert(forall|j2: int|
                                    0 <= j2 < keys_view(keys@).len() ==> s@ != keys_view(keys@)[j2]);
                                assert(unknown_str_key(entries0, keys_view(keys@), s@));
                            }
                            return Err(ConfigError::UnknownField(s));
                        }
                        proof {
                            assert(processed2[0] == (k, v));
                            assert forall|t2: int| 0 <= t2 < nk implies slots@[t2] == map_lookup(
                                processed2,
                                keys@[t2]@,
                            ) by {
                                assert(processed2[0].0 == Node::Str(s));
                                assert(processed2.drop_first() =~= processed);
                            }
                        }
                    },
                }
            },
            _ => {
                if strict {
                    proof {
                        let i = entries@.len() as int;
                        assert(entries0[i] == (k, v));
                        assert(forall|j2: int|
                            0 <= j2 < nk ==> !key_is(entries0[i].0, keys_view(keys@)[j2]));
                    }
                    return Err(ConfigError::InvalidValue(String::from_str("mapping key")));
                }
                proof {
                    assert forall|t: int| 0 <= t < nk implies slots@[t] == map_lookup(
                        processed2,
                        keys@[t]@,
                    ) by {
                        assert(processed2[0] == (k, v));
                        assert(processed2.drop_first() =~= processed);
                    }
                }
            },
        }
    }
    proof {
        assert(entries0.subrange(0, entries0.len() as int) =~= entries0);
        assert(slots@.len() == keys@.len());
        assert forall|j: int| 0 <= j < keys@.len() implies slots@[j] == map_lookup(
            entries0,
            keys@[j]@,
        ) by {
            assert(slots@[j] == map_lookup(
                entries0.subrange(entries@.len() as int, entries0.len() as int),
                keys@[j]@,
            ));
        }
        if strict {
            assert forall|i: int| 0 <= i < entries0.len() implies exists|j2: int|
                0 <= j2 < keys_view(keys@).len() && key_is(
                    (#[trigger] entries0[i]).0,
                    keys_view(keys@)[j2],
                ) by {
                let j2 = choose|j2: int| 0 <= j2 < nk && key_is(entries0[i].0, keys@[j2]@);
                assert(keys_view(keys@)[j2] == keys@[j2]@);
                assert(key_is(entries0[i].0, keys_view(keys@)[j2]));
            }
            assert(keys_among(entries0, keys_view(keys@)));
        }
    }
    Ok(slots)
}


/// A sequence of byte-string views, in order.
pub open spec fn token_views(v: Seq<Vec<u8>>) -> Seq<Seq<u8>> {
    Seq::new(v.len(), |i: int| v[i]@)
}

/// Prepends an already-parsed prefix to the rest of a list parse.
pub open spec fn opt_prepend<A>(prefix: Seq<A>, rest: Option<Seq<A>>) -> Option<Seq<A>> {
    match rest {
        Some(r) => Some(prefix + r),
        None => None,
    }
}

/// The schema version a node denotes.
pub open spec fn version_of(n: Node) -> Option<Version> {
    match n {
        Node::Str(s) => if s@ == "v1alpha1"@ {
            Some(Version::V1Alpha1)
        } else {
            None
        },
        _ => None,
    }
}

/// The port a node denotes.
pub open spec fn port_of(n: Node) -> Option<u16> {
    match n {
        Node::Int(i) => if 0 <= i <= 65535 {
            Some(i as u16)
        } else {
            None
        },
        _ => None,
    }
}

/// The proxy section a node denotes; an absent id falls back to the fresh
/// random one, an absent port to the default.
pub open spec fn proxy_of(n: Node, fallback_id: Seq<char>) -> Option<ProxyView> {
    match n {
        Node::Mapping(e) => if !keys_among(e@, seq!["id"@, "port"@]) {
            None
        } else {
            let id = match map_lookup(e@, "id"@) {
                None => Some(fallback_id),
                Some(Node::Str(s)) => Some(s@),
                Some(_) => None,
            };
            let port = match map_lookup(e@, "port"@) {
                None => Some(7000u16),
                Some(v) => port_of(v),
            };
            match (id, port) {
                (Some(i), Some(p)) => Some(ProxyView { id: i, port: p }),
                _ => None,
            }
        },
        _ => None,
    }
}

/// The admin section a node denotes.
pub open spec fn admin_of(n: Node) -> Option<Admin> {
    match n {
        Node::Mapping(e) => if !keys_among(e@, seq!["address"@]) {
            None
        } else {
            match map_lookup(e@, "address"@) {
                Some(Node::Str(s)) => match parse_sockaddr_spec(vstd::utf8::encode_utf8(s@)) {
                    Some(a) => Some(Admin { address: a }),
                    None => None,
                },
                _ => None,
            }
        },
        _ => None,
    }
}

/// The routing token a list element denotes: a base64 text.
pub open spec fn token_of(n: Node) -> Option<Seq<u8>> {
    match n {
        Node::Str(s) => base64_decode_of(s@),
        _ => None,
    }
}

/// The token list a node list denotes; one bad element refuses the list.
pub open spec fn tokens_of(items: Seq<Node>) -> Option<Seq<Seq<u8>>>
    decreases items.len(),
{
    if items.len() == 0 {
        Some(Seq::empty())
    } else {
        match token_of(items[0]) {
            Some(t) => opt_prepend(seq![t], tokens_of(items.drop_first())),
            None => None,
        }
    }
}

/// The tokens an endpoint metadata node carries, under the well-known
/// `quilkin.dev` section; other metadata is free-form and carries none.
pub open spec fn metadata_tokens_of(m: Node) -> Option<Seq<Seq<u8>>> {
    match m {
        Node::Mapping(q) => match map_lookup(q@, "quilkin.dev"@) {
            None => Some(Seq::empty()),
            Some(Node::Mapping(d)) => match map_lookup(d@, "tokens"@) {
                None => Some(Seq::empty()),
                Some(Node::List(items)) => tokens_of(items@),
                Some(_) => None,
            },
            Some(_) => None,
        },
        _ => None,
    }
}

/// The endpoint a node denotes: a textual address, and optional metadata.
pub open spec fn endpoint_of(n: Node) -> Option<EndpointView> {
    match n {
        Node::Mapping(e) => if !keys_among(e@, seq!["address"@, "metadata"@]) {
            None
        } else {
            let addr = match map_lookup(e@, "address"@) {
                Some(Node::Str(s)) => parse_sockaddr_spec(vstd::utf8::encode_utf8(s@)),
                _ => None,
            };
            let toks = match map_lookup(e@, "metadata"@) {
                None => Some(Seq::empty()),
                Some(m) => metadata_tokens_of(m),
            };
            match (addr, toks) {
                (Some(a), Some(t)) => Some(EndpointView { address: a, tokens: t }),
                _ => None,
            }
        },
        _ => None,
    }
}

/// The endpoint list a node list denotes.
pub open spec fn endpoints_of(items: Seq<Node>) -> Option<Seq<EndpointView>>
    decreases items.len(),
{
    if items.len() == 0 {
        Some(Seq::empty())
    } else {
        match endpoint_of(items[0]) {
            Some(e) => opt_prepend(seq![e], endpoints_of(items.drop_first())),
            None => None,
        }
    }
}

/// The filter entry a node denotes: a required name and an opaque value.
pub open spec fn filter_of(n: Node) -> Option<FilterView> {
    match n {
        Node::Mapping(e) => if !keys_among(e@, seq!["name"@, "config"@]) {
            None
        } else {
            match map_lookup(e@, "name"@) {
                Some(Node::Str(s)) => Some(
                    FilterView { name: s@, config: map_lookup(e@, "config"@) },
                ),
                _ => None,
            }
        },
        _ => None,
    }
}

/// The filter list a node list denotes.
pub open spec fn filters_of(items: Seq<Node>) -> Option<Seq<FilterView>>
    decreases items.len(),
{
    if items.len() == 0 {
        Some(Seq::empty())
    } else {
        match filter_of(items[0]) {
            Some(f) => opt_prepend(seq![f], filters_of(items.drop_first())),
            None => None,
        }
    }
}

/// The management server a node denotes.
pub open spec fn server_of(n: Node) -> Option<Seq<char>> {
    match n {
        Node::Mapping(e) => if !keys_among(e@, seq!["address"@]) {
            None
        } else {
            match map_lookup(e@, "address"@) {
                Some(Node::Str(s)) => Some(s@),
                _ => None,
            }
        },
        _ => None,
    }
}

/// The management-server list a node list denotes.
pub open spec fn servers_of(items: Seq<Node>) -> Option<Seq<Seq<char>>>
    decreases items.len(),
{
    if items.len() == 0 {
        Some(Seq::empty())
    } else {
        match server_of(items[0]) {
            Some(a) => opt_prepend(seq![a], servers_of(items.drop_first())),
            None => None,
        }
    }
}

/// The static source a node denotes; keys outside the schema are ignored,
/// as the section's schema is open.
pub open spec fn static_of(n: Node) -> Option<SourceView> {
    match n {
        Node::Mapping(e) => {
            let fs = match map_lookup(e@, "filters"@) {
                None => Some(Seq::<FilterView>::empty()),
                Some(Node::List(items)) => filters_of(items@),
                Some(_) => None,
            };
            let eps = match map_lookup(e@, "endpoints"@) {
                Some(Node::List(items)) => endpoints_of(items@),
                _ => None,
            };
            match (fs, eps) {
                (Some(f), Some(e2)) => Some(SourceView::Static { filters: f, endpoints: e2 }),
                _ => None,
            }
        },
        _ => None,
    }
}

/// The dynamic source a node denotes; keys outside the schema are ignored,
/// as the section's schema is open.
pub open spec fn dynamic_of(n: Node) -> Option<SourceView> {
    match n {
        Node::Mapping(e) => {
            match map_lookup(e@, "management_servers"@) {
                Some(Node::List(items)) => match servers_of(items@) {
                    Some(srv) => Some(SourceView::Dynamic { management_servers: srv }),
                    None => None,
                },
                _ => None,
            }
        },
        _ => None,
    }
}

/// The whole configuration a document denotes: a required version, optional
/// proxy and admin sections with their defaults, and exactly one source.
pub open spec fn config_of(n: Node, fallback_id: Seq<char>) -> Option<ConfigView> {
    match n {
        Node::Mapping(e) => if !keys_among(e@, top_level_keys()) {
            None
        } else {
            let version = match map_lookup(e@, "version"@) {
                Some(v) => version_of(v),
                None => None,
            };
            let proxy = match map_lookup(e@, "proxy"@) {
                Some(p) => proxy_of(p, fallback_id),
                None => Some(ProxyView { id: fallback_id, port: 7000 }),
            };
            let admin = match map_lookup(e@, "admin"@) {
                Some(a) => admin_of(a),
                None => Some(Admin { address: default_admin_address() }),
            };
            let source = match (map_lookup(e@, "static"@), map_lookup(e@, "dynamic"@)) {
                (Some(st), None) => static_of(st),
                (None, Some(dy)) => dynamic_of(dy),
                _ => None,
            };
            match (version, proxy, admin, source) {
                (Some(v), Some(p), Some(a), Some(src)) => Some(
                    ConfigView { version: v, proxy: p, admin: a, source: src },
                ),
                _ => None,
            }
        },
        _ => None,
    }
}


/// Decodes a token list exactly as `tokens_of` says.
#[verifier::loop_isolation(false)]
fn parse_tokens(items: Vec<Node>) -> (r: Result<Vec<Vec<u8>>, ConfigError>)
    ensures
        match r {
            Ok(out) => tokens_of(items@) == Some(token_views(out@)),
            Err(e) => tokens_of(items@) is None && (!(e is Yaml)),
        },
{
    let ghost items0 = items@;
    let mut items = items;
    let mut out: Vec<Vec<u8>> = Vec::new();
    proof {
        assert(token_views(out@) =~= Seq::<Seq<u8>>::empty());
    }
    while items.len() > 0
        invariant
            tokens_of(items0) == opt_prepend(token_views(out@), tokens_of(items@)),
        decreases items@.len(),
    {
        let ghost pre = items@;
        let item = items.remove(0);
        proof {
            assert(pre[0] == item);
            assert(items@ =~= pre.drop_first());
        }
        let tok = match item {
            Node::Str(st) => match base64_decode(st.as_str()) {
                Some(b) => b,
                None => {
                    return Err(ConfigError::InvalidValue(String::from_str("tokens")));
                },
            },
            _ => {
                return Err(ConfigError::InvalidValue(String::from_str("tokens")));
            },
        };
        let ghost outv = token_views(out@);
        let ghost tokv = tok@;
        out.push(tok);
        proof {
            assert(token_views(out@) =~= outv.push(tokv));
            assert(token_of(pre[0]) == Some(tokv));
            match tokens_of(items@) {
                Some(rest) => {
                    assert(outv + (seq![tokv] + rest) =~= outv.push(tokv) + rest);
                },
                None => {},
            }
        }
    }
    proof {
        assert(tokens_of(items@) == Some(Seq::<Seq<u8>>::empty()));
        assert(token_views(out@) + Seq::<Seq<u8>>::empty() =~= token_views(out@));
    }
    Ok(out)
}

/// Reads an endpoint's metadata tokens exactly as `metadata_tokens_of`
/// says; metadata outside the `quilkin.dev` section is free-form.
#[verifier::loop_isolation(false)]
fn parse_metadata(m: Node) -> (r: Result<Vec<Vec<u8>>, ConfigError>)
    ensures
        match r {
            Ok(out) => metadata_tokens_of(m) == Some(token_views(out@)),
            Err(e) => metadata_tokens_of(m) is None && (!(e is Yaml)),
        },
{
    let q = match m {
        Node::Mapping(q) => q,
        _ => {
            return Err(ConfigError::InvalidValue(String::from_str("metadata")));
        },
    };
    let mut keys: Vec<String> = Vec::new();
    keys.push(String::from_str("quilkin.dev"));
    let mut slots = match split_mapping(q, &keys, false) {
        Ok(s) => s,
        Err(_) => {
            proof {
                assert(false);
            }
            return Err(ConfigError::InvalidValue(String::from_str("metadata")));
        },
    };
    let section = match slots.pop() {
        Some(x) => x,
        None => {
            proof {
                assert(false);
            }
            return Err(ConfigError::InvalidValue(String::from_str("metadata")));
        },
    };
    let d = match section {
        None => {
            let v: Vec<Vec<u8>> = Vec::new();
            proof {
                assert(token_views(v@) =~= Seq::<Seq<u8>>::empty());
            }
            return Ok(v);
        },
        Some(Node::Mapping(d)) => d,
        Some(_) => {
            return Err(ConfigError::InvalidValue(String::from_str("metadata")));
        },
    };
    let mut keys2: Vec<String> = Vec::new();
    keys2.push(String::from_str("tokens"));
    let mut slots2 = match split_mapping(d, &keys2, false) {
        Ok(s) => s,
        Err(_) => {
            proof {
                assert(false);
            }
            return Err(ConfigError::InvalidValue(String::from_str("metadata")));
        },
    };
    let tokens_slot = match slots2.pop() {
        Some(x) => x,
        None => {
            proof {
                assert(false);
            }
            return Err(ConfigError::InvalidValue(String::from_str("metadata")));
        },
    };
    match tokens_slot {
        None => {
            let v: Vec<Vec<u8>> = Vec::new();
            proof {
                assert(token_views(v@) =~= Seq::<Seq<u8>>::empty());
            }
            Ok(v)
        },
        Some(Node::List(items)) => parse_tokens(items),
        Some(_) => Err(ConfigError::InvalidValue(String::from_str("tokens"))),
    }
}

/// Reads one endpoint exactly as `endpoint_of` says.
#[verifier::loop_isolation(false)]
fn parse_endpoint(n: Node) -> (r: Result<Endpoint, ConfigError>)
    ensures
        match r {
            Ok(e) => endpoint_of(n) == Some(e@),
            Err(e) => endpoint_of(n) is None && (!(e is Yaml)),
        },
{
    let entries = match n {
        Node::Mapping(e) => e,
        _ => {
            return Err(ConfigError::InvalidValue(String::from_str("endpoint")));
        },
    };
    let mut keys: Vec<String> = Vec::new();
    keys.push(String::from_str("address"));
    keys.push(String::from_str("metadata"));
    proof {
        reveal_strlit("address");
        reveal_strlit("metadata");
        assert("address"@.len() == 7);
        assert("metadata"@.len() == 8);
        assert(keys@[0]@ != keys@[1]@);
        assert(keys_view(keys@) =~= seq!["address"@, "metadata"@]);
    }
    let mut slots = match split_mapping(entries, &keys, true) {
        Ok(s) => s,
        Err(e) => {
            return Err(e);
        },
    };
    let metadata_slot = match slots.pop() {
        Some(x) => x,
        None => {
            proof {
                assert(false);
            }
            return Err(ConfigError::InvalidValue(String::from_str("endpoint")));
        },
    };
    let address_slot = match slots.pop() {
        Some(x) => x,
        None => {
            proof {
                assert(false);
            }
            return Err(ConfigError::InvalidValue(String::from_str("endpoint")));
        },
    };
    let addr_text = match address_slot {
        Some(Node::Str(st)) => st,
        Some(_) => {
            return Err(ConfigError::InvalidValue(String::from_str("address")));
        },
        None => {
            return Err(ConfigError::MissingField(String::from_str("address")));
        },
    };
    let address = match crate::addr::parse_sockaddr(addr_text.as_str()) {
        Some(a) => a,
        None => {
            return Err(ConfigError::InvalidValue(String::from_str("address")));
        },
    };
    let tokens = match metadata_slot {
        None => Vec::new(),
        Some(m) => match parse_metadata(m) {
            Ok(t) => t,
            Err(e) => {
                return Err(e);
            },
        },
    };
    let e = Endpoint { address, metadata: Metadata { tokens } };
    proof {
        assert(tokens_view(e.metadata) =~= token_views(tokens@));
        match map_lookup(entries@, "metadata"@) {
            None => {
                assert(token_views(tokens@) =~= Seq::<Seq<u8>>::empty());
            },
            Some(_) => {},
        }
        assert(endpoint_of(n) == Some(e@));
    }
    Ok(e)
}

/// Reads an endpoint list exactly as `endpoints_of` says.
#[verifier::loop_isolation(false)]
fn parse_endpoints(items: Vec<Node>) -> (r: Result<Vec<Endpoint>, ConfigError>)
    ensures
        match r {
            Ok(out) => endpoints_of(items@) == Some(crate::endpoint::endpoints_view(out@)),
            Err(e) => endpoints_of(items@) is None && (!(e is Yaml)),
        },
{
    let ghost items0 = items@;
    let mut items = items;
    let mut out: Vec<Endpoint> = Vec::new();
    proof {
        assert(crate::endpoint::endpoints_view(out@) =~= Seq::<EndpointView>::empty());
    }
    while items.len() > 0
        invariant
            endpoints_of(items0) == opt_prepend(crate::endpoint::endpoints_view(out@), endpoints_of(items@)),
        decreases items@.len(),
    {
        let ghost pre = items@;
        let item = items.remove(0);
        proof {
            assert(pre[0] == item);
            assert(items@ =~= pre.drop_first());
        }
        let e = match parse_endpoint(item) {
            Ok(e) => e,
            Err(err) => {
                return Err(err);
            },
        };
        let ghost outv = crate::endpoint::endpoints_view(out@);
        let ghost ev = e@;
        out.push(e);
        proof {
            assert(crate::endpoint::endpoints_view(out@) =~= outv.push(ev));
            match endpoints_of(items@) {
                Some(rest) => {
                    assert(outv + (seq![ev] + rest) =~= outv.push(ev) + rest);
                },
                None => {},
            }
        }
    }
    proof {
        assert(endpoints_of(items@) == Some(Seq::<EndpointView>::empty()));
        assert(crate::endpoint::endpoints_view(out@) + Seq::<EndpointView>::empty() =~= crate::endpoint::endpoints_view(out@));
    }
    Ok(out)
}

/// Reads one filter entry exactly as `filter_of` says.
#[verifier::loop_isolation(false)]
fn parse_filter(n: Node) -> (r: Result<Filter, ConfigError>)
    ensures
        match r {
            Ok(f) => filter_of(n) == Some(f@),
            Err(e) => filter_of(n) is None && (!(e is Yaml)),
        },
{
    let entries = match n {
        Node::Mapping(e) => e,
        _ => {
            return Err(ConfigError::InvalidValue(String::from_str("filter")));
        },
    };
    let mut keys: Vec<String> = Vec::new();
    keys.push(String::from_str("name"));
    keys.push(String::from_str("config"));
    proof {
        reveal_strlit("name");
        reveal_strlit("config");
        assert("name"@.len() == 4);
        assert("config"@.len() == 6);
        assert(keys@[0]@ != keys@[1]@);
        assert(keys_view(keys@) =~= seq!["name"@, "config"@]);
    }
    let mut slots = match split_mapping(entries, &keys, true) {
        Ok(s) => s,
        Err(e) => {
            return Err(e);
        },
    };
    let config_slot = match slots.pop() {
        Some(x) => x,
        None => {
            proof {
                assert(false);
            }
            return Err(ConfigError::InvalidValue(String::from_str("filter")));
        },
    };
    let name_slot = match slots.pop() {
        Some(x) => x,
        None => {
            proof {
                assert(false);
            }
            return Err(ConfigError::InvalidValue(String::from_str("filter")));
        },
    };
    let name = match name_slot {
        Some(Node::Str(st)) => st,
        Some(_) => {
            return Err(ConfigError::InvalidValue(String::from_str("name")));
        },
        None => {
            return Err(ConfigError::MissingField(String::from_str("name")));
        },
    };
    Ok(Filter { name, config: config_slot })
}

/// Reads a filter list exactly as `filters_of` says.
#[verifier::loop_isolation(false)]
fn parse_filters(items: Vec<Node>) -> (r: Result<Vec<Filter>, ConfigError>)
    ensures
        match r {
            Ok(out) => filters_of(items@) == Some(filters_view(out@)),
            Err(e) => filters_of(items@) is None && (!(e is Yaml)),
        },
{
    let ghost items0 = items@;
    let mut items = items;
    let mut out: Vec<Filter> = Vec::new();
    proof {
        assert(filters_view(out@) =~= Seq::<FilterView>::empty());
    }
    while items.len() > 0
        invariant
            filters_of(items0) == opt_prepend(filters_view(out@), filters_of(items@)),
        decreases items@.len(),
    {
        let ghost pre = items@;
        let item = items.remove(0);
        proof {
            assert(pre[0] == item);
            assert(items@ =~= pre.drop_first());
        }
        let f = match parse_filter(item) {
            Ok(f) => f,
            Err(err) => {
                return Err(err);
            },
        };
        let ghost outv = filters_view(out@);
        let ghost fv = f@;
        out.push(f);
        proof {
            assert(filters_view(out@) =~= outv.push(fv));
            match filters_of(items@) {
                Some(rest) => {
                    assert(outv + (seq![fv] + rest) =~= outv.push(fv) + rest);
                },
                None => {},
            }
        }
    }
    proof {
        assert(filters_of(items@) == Some(Seq::<FilterView>::empty()));
        assert(filters_view(out@) + Seq::<FilterView>::empty() =~= filters_view(out@));
    }
    Ok(out)
}

/// Reads one management server exactly as `server_of` says.
#[verifier::loop_isolation(false)]
fn parse_server(n: Node) -> (r: Result<ManagementServer, ConfigError>)
    ensures
        match r {
            Ok(m) => server_of(n) == Some(m.address@),
            Err(e) => server_of(n) is None && (!(e is Yaml)),
        },
{
    let entries = match n {
        Node::Mapping(e) => e,
        _ => {
            return Err(ConfigError::InvalidValue(String::from_str("management server")));
        },
    };
    let mut keys: Vec<String> = Vec::new();
    keys.push(String::from_str("address"));
    proof {
        assert(keys_view(keys@) =~= seq!["address"@]);
    }
    let mut slots = match split_mapping(entries, &keys, true) {
        Ok(s) => s,
        Err(e) => {
            return Err(e);
        },
    };
    let address_slot = match slots.pop() {
        Some(x) => x,
        None => {
            proof {
                assert(false);
            }
            return Err(ConfigError::InvalidValue(String::from_str("management server")));
        },
    };
    match address_slot {
        Some(Node::Str(st)) => Ok(ManagementServer { address: st }),
        Some(_) => Err(ConfigError::InvalidValue(String::from_str("address"))),
        None => Err(ConfigError::MissingField(String::from_str("address"))),
    }
}

/// Reads a management-server list exactly as `servers_of` says.
#[verifier::loop_isolation(false)]
fn parse_servers(items: Vec<Node>) -> (r: Result<Vec<ManagementServer>, ConfigError>)
    ensures
        match r {
            Ok(out) => servers_of(items@) == Some(servers_view(out@)),
            Err(e) => servers_of(items@) is None && (!(e is Yaml)),
        },
{
    let ghost items0 = items@;
    let mut items = items;
    let mut out: Vec<ManagementServer> = Vec::new();
    proof {
        assert(servers_view(out@) =~= Seq::<Seq<char>>::empty());
    }
    while items.len() > 0
        invariant
            servers_of(items0) == opt_prepend(servers_view(out@), servers_of(items@)),
        decreases items@.len(),
    {
        let ghost pre = items@;
        let item = items.remove(0);
        proof {
            assert(pre[0] == item);
            assert(items@ =~= pre.drop_first());
        }
        let m = match parse_server(item) {
            Ok(m) => m,
            Err(err) => {
                return Err(err);
            },
        };
        let ghost outv = servers_view(out@);
        let ghost mv = m.address@;
        out.push(m);
        proof {
            assert(servers_view(out@) =~= outv.push(mv));
            match servers_of(items@) {
                Some(rest) => {
                    assert(outv + (seq![mv] + rest) =~= outv.push(mv) + rest);
                },
                None => {},
            }
        }
    }
    proof {
        assert(servers_of(items@) == Some(Seq::<Seq<char>>::empty()));
        assert(servers_view(out@) + Seq::<Seq<char>>::empty() =~= servers_view(out@));
    }
    Ok(out)
}

/// Reads the schema version exactly as `version_of` says.
fn parse_version(n: Node) -> (r: Result<Version, ConfigError>)
    ensures
        match r {
            Ok(v) => version_of(n) == Some(v),
            Err(e) => version_of(n) is None && (!(e is Yaml)),
        },
{
    match n {
        Node::Str(st) => {
            if st.eq(&String::from_str("v1alpha1")) {
                Ok(Version::V1Alpha1)
            } else {
                Err(ConfigError::InvalidValue(String::from_str("version")))
            }
        },
        _ => Err(ConfigError::InvalidValue(String::from_str("version"))),
    }
}

/// Reads the proxy section exactly as `proxy_of` says, drawing a fresh id
/// when none is configured.
#[verifier::loop_isolation(false)]
fn parse_proxy(n: Node) -> (r: Result<Proxy, ConfigError>)
    ensures
        match r {
            Ok(p) => exists|fid: Seq<char>|
                fid.len() == 36 && #[trigger] proxy_of(n, fid) == Some(p@),
            Err(e) => (forall|fid: Seq<char>| #[trigger] proxy_of(n, fid) is None) && (!(e is Yaml)),
        },
{
    let entries = match n {
        Node::Mapping(e) => e,
        _ => {
            return Err(ConfigError::InvalidValue(String::from_str("proxy")));
        },
    };
    let mut keys: Vec<String> = Vec::new();
    keys.push(String::from_str("id"));
    keys.push(String::from_str("port"));
    proof {
        reveal_strlit("id");
        reveal_strlit("port");
        assert("id"@.len() == 2);
        assert("port"@.len() == 4);
        assert(keys@[0]@ != keys@[1]@);
        assert(keys_view(keys@) =~= seq!["id"@, "port"@]);
    }
    let mut slots = match split_mapping(entries, &keys, true) {
        Ok(s) => s,
        Err(e) => {
            return Err(e);
        },
    };
    let port_slot = match slots.pop() {
        Some(x) => x,
        None => {
            proof {
                assert(false);
            }
            return Err(ConfigError::InvalidValue(String::from_str("proxy")));
        },
    };
    let id_slot = match slots.pop() {
        Some(x) => x,
        None => {
            proof {
                assert(false);
            }
            return Err(ConfigError::InvalidValue(String::from_str("proxy")));
        },
    };
    let ghost id_was_absent = id_slot is None;
    let id = match id_slot {
        None => default_proxy_id(),
        Some(Node::Str(st)) => st,
        Some(_) => {
            return Err(ConfigError::InvalidValue(String::from_str("proxy.id")));
        },
    };
    let port = match port_slot {
        None => default_proxy_port(),
        Some(pn) => match pn {
            Node::Int(i) => {
                if 0 <= i && i <= 65535 {
                    i as u16
                } else {
                    return Err(ConfigError::InvalidValue(String::from_str("proxy.port")));
                }
            },
            _ => {
                return Err(ConfigError::InvalidValue(String::from_str("proxy.port")));
            },
        },
    };
    let p = Proxy { id, port };
    proof {
        let fid: Seq<char> = if id_was_absent {
            p.id@
        } else {
            Seq::new(36, |i: int| 'x')
        };
        assert(fid.len() == 36);
        assert(proxy_of(n, fid) == Some(p@));
    }
    Ok(p)
}

/// Reads the admin section exactly as `admin_of` says.
#[verifier::loop_isolation(false)]
fn parse_admin(n: Node) -> (r: Result<Admin, ConfigError>)
    ensures
        match r {
            Ok(a) => admin_of(n) == Some(a),
            Err(e) => admin_of(n) is None && (!(e is Yaml)),
        },
{
    let entries = match n {
        Node::Mapping(e) => e,
        _ => {
            return Err(ConfigError::InvalidValue(String::from_str("admin")));
        },
    };
    let mut keys: Vec<String> = Vec::new();
    keys.push(String::from_str("address"));
    proof {
        assert(keys_view(keys@) =~= seq!["address"@]);
    }
    let mut slots = match split_mapping(entries, &keys, true) {
        Ok(s) => s,
        Err(e) => {
            return Err(e);
        },
    };
    let address_slot = match slots.pop() {
        Some(x) => x,
        None => {
            proof {
                assert(false);
            }
            return Err(ConfigError::InvalidValue(String::from_str("admin")));
        },
    };
    let addr_text = match address_slot {
        Some(Node::Str(st)) => st,
        Some(_) => {
            return Err(ConfigError::InvalidValue(String::from_str("admin.address")));
        },
        None => {
            return Err(ConfigError::MissingField(String::from_str("admin.address")));
        },
    };
    match crate::addr::parse_sockaddr(addr_text.as_str()) {
        Some(a) => Ok(Admin { address: a }),
        None => Err(ConfigError::InvalidValue(String::from_str("admin.address"))),
    }
}

/// Reads a static source exactly as `static_of` says.
#[verifier::loop_isolation(false)]
fn parse_static(n: Node) -> (r: Result<Source, ConfigError>)
    ensures
        match r {
            Ok(src) => static_of(n) == Some(src@),
            Err(e) => static_of(n) is None && (!(e is Yaml)),
        },
{
    let entries = match n {
        Node::Mapping(e) => e,
        _ => {
            return Err(ConfigError::InvalidValue(String::from_str("static")));
        },
    };
    let mut keys: Vec<String> = Vec::new();
    keys.push(String::from_str("filters"));
    keys.push(String::from_str("endpoints"));
    proof {
        reveal_strlit("filters");
        reveal_strlit("endpoints");
        assert("filters"@.len() == 7);
        assert("endpoints"@.len() == 9);
        assert(keys@[0]@ != keys@[1]@);
    }
    let mut slots = match split_mapping(entries, &keys, false) {
        Ok(s) => s,
        Err(_) => {
            proof {
                assert(false);
            }
            return Err(ConfigError::InvalidValue(String::from_str("static")));
        },
    };
    let endpoints_slot = match slots.pop() {
        Some(x) => x,
        None => {
            proof {
                assert(false);
            }
            return Err(ConfigError::InvalidValue(String::from_str("static")));
        },
    };
    let filters_slot = match slots.pop() {
        Some(x) => x,
        None => {
            proof {
                assert(false);
            }
            return Err(ConfigError::InvalidValue(String::from_str("static")));
        },
    };
    let filters = match filters_slot {
        None => {
            let v: Vec<Filter> = Vec::new();
            proof {
                assert(filters_view(v@) =~= Seq::<FilterView>::empty());
            }
            v
        },
        Some(Node::List(items)) => match parse_filters(items) {
            Ok(f) => f,
            Err(e) => {
                return Err(e);
            },
        },
        Some(_) => {
            return Err(ConfigError::InvalidValue(String::from_str("filters")));
        },
    };
    let endpoints = match endpoints_slot {
        Some(Node::List(items)) => match parse_endpoints(items) {
            Ok(eps) => eps,
            Err(e) => {
                return Err(e);
            },
        },
        Some(_) => {
            return Err(ConfigError::InvalidValue(String::from_str("endpoints")));
        },
        None => {
            return Err(ConfigError::MissingField(String::from_str("endpoints")));
        },
    };
    Ok(Source::Static { filters, endpoints })
}

/// Reads a dynamic source exactly as `dynamic_of` says.
#[verifier::loop_isolation(false)]
fn parse_dynamic(n: Node) -> (r: Result<Source, ConfigError>)
    ensures
        match r {
            Ok(src) => dynamic_of(n) == Some(src@),
            Err(e) => dynamic_of(n) is None && (!(e is Yaml)),
        },
{
    let entries = match n {
        Node::Mapping(e) => e,
        _ => {
            return Err(ConfigError::InvalidValue(String::from_str("dynamic")));
        },
    };
    let mut keys: Vec<String> = Vec::new();
    keys.push(String::from_str("management_servers"));
    let mut slots = match split_mapping(entries, &keys, false) {
        Ok(s) => s,
        Err(_) => {
            proof {
                assert(false);
            }
            return Err(ConfigError::InvalidValue(String::from_str("dynamic")));
        },
    };
    let servers_slot = match slots.pop() {
        Some(x) => x,
        None => {
            proof {
                assert(false);
            }
            return Err(ConfigError::InvalidValue(String::from_str("dynamic")));
        },
    };
    match servers_slot {
        Some(Node::List(items)) => match parse_servers(items) {
            Ok(management_servers) => Ok(Source::Dynamic { management_servers }),
            Err(e) => Err(e),
        },
        Some(_) => Err(ConfigError::InvalidValue(String::from_str("management_servers"))),
        None => Err(ConfigError::MissingField(String::from_str("management_servers"))),
    }
}

impl Config {
    /// Reads a whole configuration document exactly as `config_of` says:
    /// the document parses iff `config_of` accepts it, and the value is the
    /// one `config_of` gives, for the fresh proxy id that was drawn.
    #[verifier::loop_isolation(false)]
    pub fn from_node(node: Node) -> (r: Result<Config, ConfigError>)
        ensures
            match r {
                Ok(c) => exists|fid: Seq<char>|
                    fid.len() == 36 && #[trigger] config_of(node, fid) == Some(c@),
                Err(e) => (forall|fid: Seq<char>| #[trigger] config_of(node, fid) is None) && (!(e is Yaml)),
            },
            node matches Node::Mapping(en) ==> ((string_keys(en@) && !keys_among(
                en@,
                top_level_keys(),
            )) ==> (r matches Err(ConfigError::UnknownField(f)) && unknown_str_key(
                en@,
                top_level_keys(),
                f@,
            ))),
    {
        let entries = match node {
            Node::Mapping(e) => e,
            _ => {
                return Err(ConfigError::InvalidValue(String::from_str("config")));
            },
        };
        let mut keys: Vec<String> = Vec::new();
        keys.push(String::from_str("version"));
        keys.push(String::from_str("proxy"));
        keys.push(String::from_str("admin"));
        keys.push(String::from_str("static"));
        keys.push(String::from_str("dynamic"));
        proof {
            reveal_strlit("version");
            reveal_strlit("proxy");
            reveal_strlit("admin");
            reveal_strlit("static");
            reveal_strlit("dynamic");
            assert("version"@.len() == 7);
            assert("proxy"@.len() == 5);
            assert("admin"@.len() == 5);
            assert("static"@.len() == 6);
            assert("dynamic"@.len() == 7);
            assert("version"@[0] == 'v');
            assert("dynamic"@[0] == 'd');
            assert("proxy"@[0] == 'p');
            assert("admin"@[0] == 'a');
            assert(keys@[0]@ != keys@[1]@);
            assert(keys@[0]@ != keys@[2]@);
            assert(keys@[0]@ != keys@[3]@);
            assert(keys@[0]@ != keys@[4]@);
            assert(keys@[1]@ != keys@[2]@);
            assert(keys@[1]@ != keys@[3]@);
            assert(keys@[1]@ != keys@[4]@);
            assert(keys@[2]@ != keys@[3]@);
            assert(keys@[2]@ != keys@[4]@);
            assert(keys@[3]@ != keys@[4]@);
            assert(keys_view(keys@) =~= top_level_keys());
        }
        let mut slots = match split_mapping(entries, &keys, true) {
            Ok(s) => s,
            Err(e) => {
                return Err(e);
            },
        };
        let dynamic_slot = match slots.pop() {
            Some(x) => x,
            None => {
                proof {
                    assert(false);
                }
                return Err(ConfigError::InvalidValue(String::from_str("config")));
            },
        };
        let static_slot = match slots.pop() {
            Some(x) => x,
            None => {
                proof {
                    assert(false);
                }
                return Err(ConfigError::InvalidValue(String::from_str("config")));
            },
        };
        let admin_slot = match slots.pop() {
            Some(x) => x,
            None => {
                proof {
                    assert(false);
                }
                return Err(ConfigError::InvalidValue(String::from_str("config")));
            },
        };
        let proxy_slot = match slots.pop() {
            Some(x) => x,
            None => {
                proof {
                    assert(false);
                }
                return Err(ConfigError::InvalidValue(String::from_str("config")));
            },
        };
        let version_slot = match slots.pop() {
            Some(x) => x,
            None => {
                proof {
                    assert(false);
                }
                return Err(ConfigError::InvalidValue(String::from_str("config")));
            },
        };
        let version = match version_slot {
            Some(vn) => match parse_version(vn) {
                Ok(v) => v,
                Err(e) => {
                    return Err(e);
                },
            },
            None => {
                return Err(ConfigError::MissingField(String::from_str("version")));
            },
        };
        let ghost proxy_was_absent = proxy_slot is None;
        let proxy = match proxy_slot {
            Some(pn) => match parse_proxy(pn) {
                Ok(p) => p,
                Err(e) => {
                    return Err(e);
                },
            },
            None => Proxy::default(),
        };
        let admin = match admin_slot {
            Some(an) => match parse_admin(an) {
                Ok(a) => a,
                Err(e) => {
                    return Err(e);
                },
            },
            None => Admin::default(),
        };
        let source = match (static_slot, dynamic_slot) {
            (Some(st), None) => match parse_static(st) {
                Ok(s) => s,
                Err(e) => {
                    return Err(e);
                },
            },
            (None, Some(dy)) => match parse_dynamic(dy) {
                Ok(s) => s,
                Err(e) => {
                    return Err(e);
                },
            },
            (Some(_), Some(_)) => {
                return Err(ConfigError::InvalidValue(String::from_str("static and dynamic")));
            },
            (None, None) => {
                return Err(ConfigError::MissingField(String::from_str("static or dynamic")));
            },
        };
        let c = Config { version, proxy, admin, source };
        proof {
            let fid: Seq<char> = if proxy_was_absent {
                c.proxy.id@
            } else {
                choose|f: Seq<char>|
                    f.len() == 36 && #[trigger] proxy_of(
                        map_lookup(entries@, "proxy"@)->Some_0,
                        f,
                    ) == Some(c.proxy@)
            };
            assert(fid.len() == 36);
            assert(config_of(node, fid) == Some(c@));
        }
        Ok(c)
    }

    /// Parses one YAML document and reads it as a configuration: the text
    /// parses to a tree iff the outside parser accepts it, and the tree is
    /// read exactly as `from_node` says.
    pub fn from_yaml(src: &str) -> (r: Result<Config, ConfigError>)
        ensures
            match r {
                Ok(c) => (crate::yaml::yaml_doc_of(src@) matches Some(n) && (exists|
                    fid: Seq<char>,
                |
                    fid.len() == 36 && #[trigger] config_of(n, fid) == Some(c@))),
                Err(ConfigError::Yaml(_)) => crate::yaml::yaml_doc_of(src@) is None,
                Err(_) => (crate::yaml::yaml_doc_of(src@) matches Some(n) && (forall|
                    fid: Seq<char>,
                |
                    #[trigger] config_of(n, fid) is None)),
            },
            crate::yaml::yaml_doc_of(src@) matches Some(Node::Mapping(en)) ==> ((string_keys(en@)
                && !keys_among(en@, top_level_keys())) ==> (r matches Err(
                ConfigError::UnknownField(f),
            ) && unknown_str_key(en@, top_level_keys(), f@))),
    {
        match parse_yaml(src) {
            Ok(node) => Config::from_node(node),
            Err(msg) => Err(ConfigError::Yaml(msg)),
        }
    }
}


/// The input/expected-output pair of one test case.
#[derive(Clone, Debug, PartialEq, Eq)]
pub struct TestOptions {
    /// The datagram handed to the proxy.
    pub input: String,
    /// What the upstream endpoint is expected to receive.
    pub output: String,
}

/// The mathematical value of a [`TestOptions`].
pub struct TestOptionsView {
    pub input: Seq<char>,
    pub output: Seq<char>,
}

impl View for TestOptions {
    type V = TestOptionsView;

    open spec fn view(&self) -> TestOptionsView {
        TestOptionsView { input: self.input@, output: self.output@ }
    }
}

/// The test half of a testsuite document: an optional path to a separate
/// configuration file, and named test cases.
#[derive(Debug, PartialEq, Eq)]
pub struct TestConfig {
    pub config: Option<String>,
    pub tests: Vec<(String, TestOptions)>,
}

/// The mathematical value of a [`TestConfig`].
pub struct TestConfigView {
    pub config: Option<Seq<char>>,
    pub tests: Seq<(Seq<char>, TestOptionsView)>,
}

/// The case views of a test-case list, in order.
pub open spec fn cases_view(v: Seq<(String, TestOptions)>) -> Seq<(Seq<char>, TestOptionsView)> {
    Seq::new(v.len(), |i: int| (v[i].0@, v[i].1@))
}

impl View for TestConfig {
    type V = TestConfigView;

    open spec fn view(&self) -> TestConfigView {
        TestConfigView {
            config: match self.config {
                Some(s) => Some(s@),
                None => None,
            },
            tests: cases_view(self.tests@),
        }
    }
}

/// A whole testsuite: the proxy configuration and the cases to run.
#[derive(Debug)]
pub struct Testsuite {
    pub config: Config,
    pub options: TestConfig,
}

/// The test options a node denotes.
pub open spec fn test_options_of(n: Node) -> Option<TestOptionsView> {
    match n {
        Node::Mapping(e) => {
            match (map_lookup(e@, "input"@), map_lookup(e@, "output"@)) {
                (Some(Node::Str(i)), Some(Node::Str(o))) => Some(
                    TestOptionsView { input: i@, output: o@ },
                ),
                _ => None,
            }
        },
        _ => None,
    }
}

/// The named test cases a mapping denotes.
pub open spec fn test_cases_of(entries: Seq<(Node, Node)>) -> Option<
    Seq<(Seq<char>, TestOptionsView)>,
>
    decreases entries.len(),
{
    if entries.len() == 0 {
        Some(Seq::empty())
    } else {
        match entries[0].0 {
            Node::Str(name) => match test_options_of(entries[0].1) {
                Some(o) => opt_prepend(seq![(name@, o)], test_cases_of(entries.drop_first())),
                None => None,
            },
            _ => None,
        }
    }
}

/// The test configuration a node denotes; keys outside the schema are
/// free-form and ignored.
pub open spec fn testconfig_of(n: Node) -> Option<TestConfigView> {
    match n {
        Node::Mapping(e) => {
            let config = match map_lookup(e@, "config"@) {
                None => Some(None::<Seq<char>>),
                Some(Node::Str(s)) => Some(Some(s@)),
                Some(_) => None,
            };
            let tests = match map_lookup(e@, "tests"@) {
                Some(Node::Mapping(m)) => test_cases_of(m@),
                _ => None,
            };
            match (config, tests) {
                (Some(c), Some(t)) => Some(TestConfigView { config: c, tests: t }),
                _ => None,
            }
        },
        _ => None,
    }
}

/// Whether the document is shaped like a test configuration: a mapping with
/// a `tests` key.
pub open spec fn has_tests_key(n: Node) -> bool {
    match n {
        Node::Mapping(e) => map_lookup(e@, "tests"@) is Some,
        _ => false,
    }
}

/// Reads one test case's options exactly as `test_options_of` says.
#[verifier::loop_isolation(false)]
fn parse_test_options(n: Node) -> (r: Result<TestOptions, ConfigError>)
    ensures
        match r {
            Ok(o) => test_options_of(n) == Some(o@),
            Err(e) => test_options_of(n) is None && (!(e is Yaml)),
        },
{
    let entries = match n {
        Node::Mapping(e) => e,
        _ => {
            return Err(ConfigError::InvalidValue(String::from_str("test")));
        },
    };
    let mut keys: Vec<String> = Vec::new();
    keys.push(String::from_str("input"));
    keys.push(String::from_str("output"));
    proof {
        reveal_strlit("input");
        reveal_strlit("output");
        assert("input"@.len() == 5);
        assert("output"@.len() == 6);
        assert(keys@[0]@ != keys@[1]@);
    }
    let mut slots = match split_mapping(entries, &keys, false) {
        Ok(s) => s,
        Err(_) => {
            proof {
                assert(false);
            }
            return Err(ConfigError::InvalidValue(String::from_str("test")));
        },
    };
    let output_slot = match slots.pop() {
        Some(x) => x,
        None => {
            proof {
                assert(false);
            }
            return Err(ConfigError::InvalidValue(String::from_str("test")));
        },
    };
    let input_slot = match slots.pop() {
        Some(x) => x,
        None => {
            proof {
                assert(false);
            }
            return Err(ConfigError::InvalidValue(String::from_str("test")));
        },
    };
    match (input_slot, output_slot) {
        (Some(Node::Str(input)), Some(Node::Str(output))) => Ok(TestOptions { input, output }),
        _ => Err(ConfigError::InvalidValue(String::from_str("test"))),
    }
}

/// Reads a named test-case mapping exactly as `test_cases_of` says.
#[verifier::loop_isolation(false)]
fn parse_test_cases(entries: Vec<(Node, Node)>) -> (r: Result<
    Vec<(String, TestOptions)>,
    ConfigError,
>)
    ensures
        match r {
            Ok(out) => test_cases_of(entries@) == Some(cases_view(out@)),
            Err(e) => test_cases_of(entries@) is None && (!(e is Yaml)),
        },
{
    let ghost entries0 = entries@;
    let mut entries = entries;
    let mut out: Vec<(String, TestOptions)> = Vec::new();
    proof {
        assert(cases_view(out@) =~= Seq::<(Seq<char>, TestOptionsView)>::empty());
    }
    while entries.len() > 0
        invariant
            test_cases_of(entries0) == opt_prepend(cases_view(out@), test_cases_of(entries@)),
        decreases entries@.len(),
    {
        let ghost pre = entries@;
        let (k, v) = entries.remove(0);
        proof {
            assert(pre[0] == (k, v));
            assert(entries@ =~= pre.drop_first());
        }
        let name = match k {
            Node::Str(name) => name,
            _ => {
                return Err(ConfigError::InvalidValue(String::from_str("tests")));
            },
        };
        let o = match parse_test_options(v) {
            Ok(o) => o,
            Err(e) => {
                return Err(e);
            },
        };
        let ghost outv = cases_view(out@);
        let ghost cv = (name@, o@);
        out.push((name, o));
        proof {
            assert(cases_view(out@) =~= outv.push(cv));
            match test_cases_of(entries@) {
                Some(rest) => {
                    assert(outv + (seq![cv] + rest) =~= outv.push(cv) + rest);
                },
                None => {},
            }
        }
    }
    proof {
        assert(test_cases_of(entries@) == Some(Seq::<(Seq<char>, TestOptionsView)>::empty()));
        assert(cases_view(out@) + Seq::<(Seq<char>, TestOptionsView)>::empty() =~= cases_view(
            out@,
        ));
    }
    Ok(out)
}

impl TestConfig {
    /// Reads a test configuration exactly as `testconfig_of` says.
    #[verifier::loop_isolation(false)]
    pub fn from_node(node: Node) -> (r: Result<TestConfig, ConfigError>)
        ensures
            match r {
                Ok(tc) => testconfig_of(node) == Some(tc@),
                Err(e) => testconfig_of(node) is None && (!(e is Yaml)),
            },
    {
        let entries = match node {
            Node::Mapping(e) => e,
            _ => {
                return Err(ConfigError::InvalidValue(String::from_str("test options")));
            },
        };
        let mut keys: Vec<String> = Vec::new();
        keys.push(String::from_str("config"));
        keys.push(String::from_str("tests"));
        proof {
            reveal_strlit("config");
            reveal_strlit("tests");
            assert("config"@.len() == 6);
            assert("tests"@.len() == 5);
            assert(keys@[0]@ != keys@[1]@);
        }
        let mut slots = match split_mapping(entries, &keys, false) {
            Ok(s) => s,
            Err(_) => {
                proof {
                    assert(false);
                }
                return Err(ConfigError::InvalidValue(String::from_str("test options")));
            },
        };
        let tests_slot = match slots.pop() {
            Some(x) => x,
            None => {
                proof {
                    assert(false);
                }
                return Err(ConfigError::InvalidValue(String::from_str("test options")));
            },
        };
        let config_slot = match slots.pop() {
            Some(x) => x,
            None => {
                proof {
                    assert(false);
                }
                return Err(ConfigError::InvalidValue(String::from_str("test options")));
            },
        };
        let config = match config_slot {
            None => None,
            Some(Node::Str(s)) => Some(s),
            Some(_) => {
                return Err(ConfigError::InvalidValue(String::from_str("config")));
            },
        };
        let tests = match tests_slot {
            Some(Node::Mapping(m)) => match parse_test_cases(m) {
                Ok(t) => t,
                Err(e) => {
                    return Err(e);
                },
            },
            Some(_) => {
                return Err(ConfigError::InvalidValue(String::from_str("tests")));
            },
            None => {
                return Err(ConfigError::MissingField(String::from_str("tests")));
            },
        };
        Ok(TestConfig { config, tests })
    }
}

/// Why a testsuite document was refused.
#[derive(Debug, PartialEq, Eq)]
pub enum TestsuiteDecodeError {
    /// No document at all.
    MissingConfig,
    /// A configuration document without a test document after it.
    MissingTestOptions,
    /// A lone test document that names no configuration file.
    MissingConfigInTestOptions,
    /// A document that does not fit its schema.
    Invalid(ConfigError),
}

/// What reading a testsuite yields: either everything was in the documents,
/// or the test document points at a configuration file still to be read.
#[derive(Debug)]
pub enum TestsuiteOutcome {
    Complete(Testsuite),
    /// The test configuration names a file; its `config` is the path.
    NeedsFile(TestConfig),
}

/// What an accepted testsuite means for its documents: a lone test document
/// naming a configuration file, or a configuration document followed by the
/// test document.
pub open spec fn testsuite_outcome_ok(docs: Seq<Node>, outcome: TestsuiteOutcome) -> bool {
    match outcome {
        TestsuiteOutcome::NeedsFile(tc) => {
            &&& docs.len() == 1
            &&& testconfig_of(docs[0]) == Some(tc@)
            &&& tc@.config is Some
        },
        TestsuiteOutcome::Complete(ts) => {
            &&& docs.len() >= 2
            &&& testconfig_of(docs[1]) == Some(ts.options@)
            &&& exists|fid: Seq<char>|
                fid.len() == 36 && #[trigger] config_of(docs[0], fid) == Some(ts.config@)
        },
    }
}

/// What each refusal of a testsuite means for its documents.
pub open spec fn testsuite_error_cause(docs: Seq<Node>, e: TestsuiteDecodeError) -> bool {
    match e {
        TestsuiteDecodeError::MissingConfig => docs.len() == 0,
        TestsuiteDecodeError::MissingTestOptions => {
            &&& docs.len() == 1
            &&& !has_tests_key(docs[0])
            &&& exists|fid: Seq<char>|
                fid.len() == 36 && #[trigger] config_of(docs[0], fid) is Some
        },
        TestsuiteDecodeError::MissingConfigInTestOptions => docs.len() == 1 && (testconfig_of(
            docs[0],
        ) matches Some(tc) && tc.config is None),
        TestsuiteDecodeError::Invalid(err) => {
            &&& !(err is Yaml)
            &&& {
                ||| docs.len() == 1 && has_tests_key(docs[0]) && testconfig_of(docs[0]) is None
                ||| docs.len() == 1 && !has_tests_key(docs[0]) && (forall|fid: Seq<char>|
                    #[trigger] config_of(docs[0], fid) is None)
                ||| docs.len() >= 2 && (forall|fid: Seq<char>|
                    #[trigger] config_of(docs[0], fid) is None)
                ||| docs.len() >= 2 && testconfig_of(docs[1]) is None
            }
        },
    }
}

impl Testsuite {
    /// Reads a testsuite from its parsed documents. A single document must
    /// be a test configuration naming a configuration file; a pair of
    /// documents is a configuration followed by the test configuration.
    /// Every outcome, accepted or refused, names its cause exactly.
    #[verifier::loop_isolation(false)]
    pub fn from_docs(docs: Vec<Node>) -> (r: Result<TestsuiteOutcome, TestsuiteDecodeError>)
        ensures
            match r {
                Ok(outcome) => testsuite_outcome_ok(docs@, outcome),
                Err(e) => testsuite_error_cause(docs@, e),
            },
    {
        let mut docs = docs;
        if docs.len() == 0 {
            return Err(TestsuiteDecodeError::MissingConfig);
        }
        if docs.len() == 1 {
            let ghost d0v = docs@[0];
            let d0 = docs.remove(0);
            let is_testconfig = match &d0 {
                Node::Mapping(e) => {
                    let tests_key = String::from_str("tests");
                    match crate::yaml::map_get(e, &tests_key) {
                        Some(_) => true,
                        None => false,
                    }
                },
                _ => false,
            };
            if is_testconfig {
                let tc = match TestConfig::from_node(d0) {
                    Ok(tc) => tc,
                    Err(e) => {
                        return Err(TestsuiteDecodeError::Invalid(e));
                    },
                };
                if tc.config.is_some() {
                    Ok(TestsuiteOutcome::NeedsFile(tc))
                } else {
                    Err(TestsuiteDecodeError::MissingConfigInTestOptions)
                }
            } else {
                match Config::from_node(d0) {
                    Ok(_) => Err(TestsuiteDecodeError::MissingTestOptions),
                    Err(e) => Err(TestsuiteDecodeError::Invalid(e)),
                }
            }
        } else {
            let ghost d0v = docs@[0];
            let ghost d1v = docs@[1];
            let d0 = docs.remove(0);
            let d1 = docs.remove(0);
            proof {
                assert(d0 == d0v);
                assert(d1 == d1v);
            }
            let config = match Config::from_node(d0) {
                Ok(c) => c,
                Err(e) => {
                    return Err(TestsuiteDecodeError::Invalid(e));
                },
            };
            let options = match TestConfig::from_node(d1) {
                Ok(tc) => tc,
                Err(e) => {
                    return Err(TestsuiteDecodeError::Invalid(e));
                },
            };
            Ok(TestsuiteOutcome::Complete(Testsuite { config, options }))
        }
    }

    /// Parses a `---`-separated YAML text and reads it as a testsuite: the
    /// text parses to its documents iff the outside parser accepts it, and
    /// the documents are read exactly as `from_docs` says.
    pub fn from_yaml(src: &str) -> (r: Result<TestsuiteOutcome, TestsuiteDecodeError>)
        ensures
            match r {
                Ok(outcome) => (crate::yaml::yaml_docs_of(src@) matches Some(docs)
                    && testsuite_outcome_ok(docs, outcome)),
                Err(TestsuiteDecodeError::Invalid(ConfigError::Yaml(_))) => crate::yaml::yaml_docs_of(
                    src@,
                ) is None,
                Err(e) => (crate::yaml::yaml_docs_of(src@) matches Some(docs)
                    && testsuite_error_cause(docs, e)),
            },
    {
        match crate::yaml::parse_yaml_documents(src) {
            Ok(docs) => Testsuite::from_docs(docs),
            Err(msg) => Err(TestsuiteDecodeError::Invalid(ConfigError::Yaml(msg))),
        }
    }
}

} // verus!
