use quilkin::endpoint::EndpointAddress;
use quilkin::filter::{ReadContext, WriteContext};
use quilkin::firewall::{Action, Cidr, Config, Firewall, PortRange, PortRangeError, Rule};

fn allow_rule() -> Rule {
    Rule {
        action: Action::Allow,
        sources: vec![Cidr::v4(192, 168, 75, 0, 24)],
        ports: vec![PortRange::new(10, 100).unwrap()],
    }
}

#[test]
fn read() {
    let firewall = Firewall::testing(Config {
        on_read: vec![allow_rule()],
        on_write: vec![],
    });

    let mut ctx = ReadContext {
        source: EndpointAddress::v4(192, 168, 75, 20, 80),
        endpoints: Vec::new(),
        payload: Vec::new(),
        destinations: Vec::new(),
    };
    assert!(firewall.read(&mut ctx).is_ok());

    let mut ctx = ReadContext {
        source: EndpointAddress::v4(192, 168, 75, 20, 2000),
        endpoints: Vec::new(),
        payload: Vec::new(),
        destinations: Vec::new(),
    };
    assert!(firewall.read(&mut ctx).is_err());
}

#[test]
fn write() {
    let firewall = Firewall::testing(Config {
        on_read: vec![],
        on_write: vec![allow_rule()],
    });

    let local_addr = EndpointAddress::v4(127, 0, 0, 1, 8081);

    let mut ctx = WriteContext {
        source: EndpointAddress::v4(192, 168, 75, 20, 80),
        dest: local_addr,
        payload: Vec::new(),
    };
    assert!(firewall.write(&mut ctx).is_ok());

    let mut ctx = WriteContext {
        source: EndpointAddress::v4(192, 168, 77, 20, 80),
        dest: local_addr,
        payload: Vec::new(),
    };
    assert!(firewall.write(&mut ctx).is_err());
}

#[test]
fn firewall_default_deny() {
    // With `on_read = [{Allow, 192.168.75.0/24, 10..=100}]`:
    let firewall = Firewall::testing(Config {
        on_read: vec![allow_rule()],
        on_write: vec![],
    });
    let read = |a: u8, b: u8, c: u8, d: u8, port: u16| {
        let mut ctx = ReadContext {
            source: EndpointAddress::v4(a, b, c, d, port),
            endpoints: Vec::new(),
            payload: Vec::new(),
            destinations: Vec::new(),
        };
        firewall.read(&mut ctx)
    };
    // in the network and the port range: allowed
    assert!(read(192, 168, 75, 20, 80).is_ok());
    // port out of range: denied
    assert!(read(192, 168, 75, 20, 2000).is_err());
    // source outside the network: denied
    assert!(read(192, 168, 77, 20, 80).is_err());
}

#[test]
fn first_matching_rule_decides() {
    let deny_first = Firewall::testing(Config {
        on_read: vec![
            Rule {
                action: Action::Deny,
                sources: vec![Cidr::v4(192, 168, 75, 20, 32)],
                ports: vec![PortRange::new(0, 65535).unwrap()],
            },
            allow_rule(),
        ],
        on_write: vec![],
    });
    let mut ctx = ReadContext {
        source: EndpointAddress::v4(192, 168, 75, 20, 80),
        endpoints: Vec::new(),
        payload: Vec::new(),
        destinations: Vec::new(),
    };
    assert!(deny_first.read(&mut ctx).is_err());
}

#[test]
fn port_range_rejects_reversed_bounds() {
    assert_eq!(PortRange::new(100, 10), Err(PortRangeError));
    assert!(PortRange::new(10, 100).is_ok());
    assert!(PortRange::new(7, 7).is_ok());
}
