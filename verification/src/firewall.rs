//! Filter for allowing/blocking traffic by source IP and port.
//!
//! Rules are evaluated in order; the first rule whose CIDR list and port
//! list both match the datagram's source decides. When no rule matches, the
//! policy is default deny.

use vstd::prelude::*;

use crate::endpoint::{v4_value, EndpointAddress, IpAddr};
use crate::filter::{FilterError, ReadContext, WriteContext};

verus! {

/// What a matching rule does with the datagram.
#[derive(Clone, Copy, Debug, PartialEq, Eq, Structural)]
pub enum Action {
    Allow,
    Deny,
}

/// A network in CIDR notation: the prefix names how many leading bits of the
/// address must equal the network value. Prefixes beyond the address width
/// are treated as the full width.
#[derive(Clone, Copy, Debug, PartialEq, Eq, Structural)]
pub struct Cidr {
    pub ip: IpAddr,
    pub prefix: u8,
}

/// How far an IPv4 address is shifted right so that only the prefix bits
/// remain.
pub open spec fn v4_shift(prefix: u8) -> u32 {
    if prefix >= 32 {
        0
    } else {
        (32 - prefix) as u32
    }
}

/// How far an IPv6 address is shifted right so that only the prefix bits
/// remain.
pub open spec fn v6_shift(prefix: u8) -> u128 {
    if prefix >= 128 {
        0
    } else {
        (128 - prefix) as u128
    }
}

/// Whether `ip` lies in the network `c`. Addresses of the other family never
/// match.
pub open spec fn cidr_contains(c: Cidr, ip: IpAddr) -> bool {
    match c.ip {
        IpAddr::V4(net) => match ip {
            IpAddr::V4(x) => c.prefix == 0 || (net >> v4_shift(c.prefix)) == (x >> v4_shift(
                c.prefix,
            )),
            IpAddr::V6(_) => false,
        },
        IpAddr::V6(net) => match ip {
            IpAddr::V4(_) => false,
            IpAddr::V6(x) => c.prefix == 0 || (net >> v6_shift(c.prefix)) == (x >> v6_shift(
                c.prefix,
            )),
        },
    }
}

impl Cidr {
    /// The IPv4 network `a.b.c.d/prefix`.
    pub fn v4(a: u8, b: u8, c: u8, d: u8, prefix: u8) -> (r: Cidr)
        requires
            prefix <= 32,
        ensures
            r.ip == IpAddr::V4(v4_value(a, b, c, d)),
            r.prefix == prefix,
    {
        let ip: u32 = a as u32 * 0x100_0000 + b as u32 * 0x1_0000 + c as u32 * 0x100 + d as u32;
        Cidr { ip: IpAddr::V4(ip), prefix }
    }

    /// The IPv6 network `value/prefix`.
    pub fn v6(value: u128, prefix: u8) -> (r: Cidr)
        requires
            prefix <= 128,
        ensures
            r.ip == IpAddr::V6(value),
            r.prefix == prefix,
    {
        Cidr { ip: IpAddr::V6(value), prefix }
    }

    /// Whether `ip` lies in this network.
    pub fn contains(&self, ip: IpAddr) -> (r: bool)
        ensures
            r == cidr_contains(*self, ip),
    {
        match self.ip {
            IpAddr::V4(net) => match ip {
                IpAddr::V4(x) => {
                    if self.prefix == 0 {
                        true
                    } else {
                        let shift: u32 = if self.prefix >= 32 {
                            0
                        } else {
                            32 - self.prefix as u32
                        };
                        (net >> shift) == (x >> shift)
                    }
                },
                IpAddr::V6(_) => false,
            },
            IpAddr::V6(net) => match ip {
                IpAddr::V4(_) => false,
                IpAddr::V6(x) => {
                    if self.prefix == 0 {
                        true
                    } else {
                        let shift: u128 = if self.prefix >= 128 {
                            0
                        } else {
                            128 - self.prefix as u128
                        };
                        (net >> shift) == (x >> shift)
                    }
                },
            },
        }
    }
}

/// An inclusive range of source ports.
#[derive(Clone, Copy, Debug, PartialEq, Eq, Structural)]
pub struct PortRange {
    pub min: u16,
    pub max: u16,
}

/// The range's bounds were given in the wrong order.
#[derive(Clone, Copy, Debug, PartialEq, Eq, Structural)]
pub struct PortRangeError;

/// Whether `port` lies in the inclusive range `pr`.
pub open spec fn port_in_range(pr: PortRange, port: u16) -> bool {
    pr.min <= port <= pr.max
}

impl PortRange {
    /// The inclusive range `min..=max`; rejected when `min > max`.
    pub fn new(min: u16, max: u16) -> (r: Result<PortRange, PortRangeError>)
        ensures
            min <= max ==> r == Ok::<PortRange, PortRangeError>(PortRange { min, max }),
            min > max ==> r == Err::<PortRange, PortRangeError>(PortRangeError),
    {
        if min <= max {
            Ok(PortRange { min, max })
        } else {
            Err(PortRangeError)
        }
    }

    /// Whether `port` lies in this range.
    pub fn contains(&self, port: u16) -> (r: bool)
        ensures
            r == port_in_range(*self, port),
    {
        self.min <= port && port <= self.max
    }
}

/// One firewall rule: the action applies to datagrams whose source IP is in
/// any of the CIDRs and whose source port is in any of the ranges.
#[derive(Clone, Debug, PartialEq, Eq)]
pub struct Rule {
    pub action: Action,
    pub sources: Vec<Cidr>,
    pub ports: Vec<PortRange>,
}

/// Whether the rule matches a datagram from `addr`.
pub open spec fn rule_matches(r: Rule, addr: EndpointAddress) -> bool {
    (exists|i: int| 0 <= i < r.sources@.len() && cidr_contains(r.sources@[i], addr.ip)) && (
    exists|j: int| 0 <= j < r.ports@.len() && port_in_range(r.ports@[j], addr.port))
}

impl Rule {
    /// Whether this rule matches a datagram from `addr`.
    pub fn contains(&self, addr: EndpointAddress) -> (r: bool)
        ensures
            r == rule_matches(*self, addr),
    {
        let mut ip_hit = false;
        let ns = self.sources.len();
        let mut i: usize = 0;
        while i < ns
            invariant
                0 <= i <= ns,
                ns == self.sources@.len(),
                ip_hit == exists|k: int| 0 <= k < i && cidr_contains(self.sources@[k], addr.ip),
            decreases ns - i,
        {
            if self.sources[i].contains(addr.ip) {
                ip_hit = true;
            }
            i = i + 1;
        }
        if !ip_hit {
            return false;
        }
        let np = self.ports.len();
        let mut j: usize = 0;
        while j < np
            invariant
                0 <= j <= np,
                np == self.ports@.len(),
                exists|k: int| 0 <= k < self.sources@.len() && cidr_contains(
                    self.sources@[k],
                    addr.ip,
                ),
                forall|k: int| 0 <= k < j ==> !port_in_range(self.ports@[k], addr.port),
            decreases np - j,
        {
            if self.ports[j].contains(addr.port) {
                proof {
                    assert(port_in_range(self.ports@[j as int], addr.port));
                }
                return true;
            }
            j = j + 1;
        }
        false
    }
}

/// The action of the first rule that matches, if any.
pub open spec fn first_match(rules: Seq<Rule>, addr: EndpointAddress) -> Option<Action>
    decreases rules.len(),
{
    if rules.len() == 0 {
        None
    } else if rule_matches(rules[0], addr) {
        Some(rules[0].action)
    } else {
        first_match(rules.drop_first(), addr)
    }
}

/// Typed configuration of the firewall filter: one rule list per direction.
#[derive(Clone, Debug, PartialEq, Eq)]
pub struct Config {
    pub on_read: Vec<Rule>,
    pub on_write: Vec<Rule>,
}

/// A filter was built without the configuration it needs.
#[derive(Clone, Copy, Debug, PartialEq, Eq, Structural)]
pub enum CreationError {
    MissingConfig,
}

/// Filter for allowing/blocking traffic by IP and port.
#[derive(Clone, Debug)]
pub struct Firewall {
    pub on_read: Vec<Rule>,
    pub on_write: Vec<Rule>,
}

impl Firewall {
    fn new(config: Config) -> (r: Firewall)
        ensures
            r.on_read == config.on_read,
            r.on_write == config.on_write,
    {
        Firewall { on_read: config.on_read, on_write: config.on_write }
    }

    /// A firewall straight from a configuration, for exercising the filter
    /// on its own.
    pub fn testing(config: Config) -> (r: Firewall)
        ensures
            r.on_read == config.on_read,
            r.on_write == config.on_write,
    {
        Firewall { on_read: config.on_read, on_write: config.on_write }
    }

    /// The firewall takes no default configuration: absence is an error.
    pub fn try_from_config(config: Option<Config>) -> (r: Result<Firewall, CreationError>)
        ensures
            match config {
                Some(c) => r matches Ok(fw) && fw.on_read == c.on_read && fw.on_write
                    == c.on_write,
                None => r == Err::<Firewall, CreationError>(CreationError::MissingConfig),
            },
    {
        match config {
            Some(c) => Ok(Firewall::new(c)),
            None => Err(CreationError::MissingConfig),
        }
    }

    /// Walks the read rules in order; the first match decides, and no match
    /// denies.
    pub fn read(&self, ctx: &mut ReadContext) -> (r: Result<(), FilterError>)
        ensures
            *final(ctx) == *old(ctx),
            match first_match(self.on_read@, old(ctx).source) {
                Some(Action::Allow) => r == Ok::<(), FilterError>(()),
                _ => r == Err::<(), FilterError>(FilterError::FirewallDenied),
            },
    {
        let source = ctx.source;
        Firewall::check(&self.on_read, source)
    }

    /// Walks the write rules in order against the upstream source address.
    pub fn write(&self, ctx: &mut WriteContext) -> (r: Result<(), FilterError>)
        ensures
            *final(ctx) == *old(ctx),
            match first_match(self.on_write@, old(ctx).source) {
                Some(Action::Allow) => r == Ok::<(), FilterError>(()),
                _ => r == Err::<(), FilterError>(FilterError::FirewallDenied),
            },
    {
        let source = ctx.source;
        Firewall::check(&self.on_write, source)
    }

    /// The shared rule walk for both directions.
    fn check(rules: &Vec<Rule>, source: EndpointAddress) -> (r: Result<(), FilterError>)
        ensures
            match first_match(rules@, source) {
                Some(Action::Allow) => r == Ok::<(), FilterError>(()),
                _ => r == Err::<(), FilterError>(FilterError::FirewallDenied),
            },
    {
        let n = rules.len();
        proof {
            assert(rules@.subrange(0, n as int) =~= rules@);
        }
        let mut i: usize = 0;
        while i < n
            invariant
                0 <= i <= n,
                n == rules@.len(),
                first_match(rules@, source) == first_match(
                    rules@.subrange(i as int, n as int),
                    source,
                ),
            decreases n - i,
        {
            let ghost rest = rules@.subrange(i as int, n as int);
            let hit = rules[i].contains(source);
            proof {
                assert(rest[0] == rules@[i as int]);
                assert(rest.drop_first() =~= rules@.subrange(i as int + 1, n as int));
            }
            if hit {
                return match rules[i].action {
                    Action::Allow => Ok(()),
                    Action::Deny => Err(FilterError::FirewallDenied),
                };
            }
            i = i + 1;
        }
        proof {
            assert(rules@.subrange(n as int, n as int) =~= Seq::<Rule>::empty());
        }
        Err(FilterError::FirewallDenied)
    }
}

} // verus!
