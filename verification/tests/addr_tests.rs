use quilkin::addr::parse_sockaddr;
use quilkin::admin::{route, Admin, AdminRoute, ProxyReady};
use quilkin::cli::{exit_code, RunError};
use quilkin::cluster::ClusterMap;
use quilkin::config::{Config, ConfigError};
use quilkin::endpoint::{Endpoint, EndpointAddress, IpAddr};

#[test]
fn parse_socket_addresses() {
    assert_eq!(
        parse_sockaddr("127.0.0.1:25999"),
        Some(EndpointAddress::v4(127, 0, 0, 1, 25999))
    );
    assert_eq!(
        parse_sockaddr("10.0.0.2:9000"),
        Some(EndpointAddress::v4(10, 0, 0, 2, 9000))
    );
    assert_eq!(
        parse_sockaddr("255.255.255.255:65535"),
        Some(EndpointAddress {
            ip: IpAddr::V4(0xFFFF_FFFF),
            port: 65535
        })
    );
    assert_eq!(parse_sockaddr("0.0.0.0:0"), Some(EndpointAddress::v4(0, 0, 0, 0, 0)));
}

#[test]
fn reject_bad_socket_addresses() {
    assert_eq!(parse_sockaddr(""), None);
    assert_eq!(parse_sockaddr("127.0.0.1"), None);
    assert_eq!(parse_sockaddr("127.0.0:80"), None);
    assert_eq!(parse_sockaddr("127.0.0.1.5:80"), None);
    assert_eq!(parse_sockaddr("256.0.0.1:80"), None);
    assert_eq!(parse_sockaddr("127.0.0.1:65536"), None);
    assert_eq!(parse_sockaddr("127.0.0.01:80"), None, "leading zeros are not canonical");
    assert_eq!(parse_sockaddr("127.0.0.1:"), None);
    assert_eq!(parse_sockaddr(":80"), None);
    assert_eq!(parse_sockaddr("a.b.c.d:80"), None);
    assert_eq!(parse_sockaddr("127.0.0.1:80:90"), None);
}

#[test]
fn check_proxy_readiness() {
    let clusters = ClusterMap::new();
    assert_eq!(clusters.endpoints().len(), 0);

    let admin = Admin::Proxy(ProxyReady::default());
    assert!(!admin.is_ready(&clusters));

    let mut clusters = clusters;
    clusters.insert_default(vec![Endpoint::new(EndpointAddress::v4(127, 0, 0, 1, 25999))]);

    assert!(admin.is_ready(&clusters));
}

#[test]
fn admin_routes() {
    assert_eq!(route(true, "/metrics"), AdminRoute::Metrics);
    assert_eq!(route(true, "/live"), AdminRoute::Liveness);
    assert_eq!(route(true, "/livez"), AdminRoute::Liveness);
    assert_eq!(route(true, "/ready"), AdminRoute::Readiness);
    assert_eq!(route(true, "/readyz"), AdminRoute::Readiness);
    assert_eq!(route(true, "/config"), AdminRoute::ConfigDump);
    assert_eq!(route(true, "/debug/pprof/profile"), AdminRoute::Profile);
    assert_eq!(route(true, "/nonsense"), AdminRoute::NotFound);
    assert_eq!(route(false, "/metrics"), AdminRoute::NotFound);
}

#[test]
fn exit_codes() {
    assert_eq!(exit_code(&None), 0);
    assert_eq!(exit_code(&Some(RunError::Config)), 1);
    assert_eq!(exit_code(&Some(RunError::Runtime)), 2);
}

#[test]
fn config_error_messages() {
    let e = ConfigError::UnknownField(String::from("foo"));
    assert_eq!(e.message(), "unknown field foo");
    let e = ConfigError::MissingField(String::from("version"));
    assert_eq!(e.message(), "missing field version");
    let e = ConfigError::InvalidValue(String::from("address"));
    assert_eq!(e.message(), "invalid value for address");
}

#[test]
fn parse_v6_socket_addresses() {
    assert_eq!(
        parse_sockaddr("[::1]:8000"),
        Some(EndpointAddress {
            ip: IpAddr::V6(1),
            port: 8000
        })
    );
    assert_eq!(
        parse_sockaddr("[::]:8000"),
        Some(EndpointAddress {
            ip: IpAddr::V6(0),
            port: 8000
        })
    );
    assert_eq!(
        parse_sockaddr("[2001:db8::1]:443"),
        Some(EndpointAddress {
            ip: IpAddr::V6(0x2001_0db8_0000_0000_0000_0000_0000_0001),
            port: 443
        })
    );
    assert_eq!(
        parse_sockaddr("[1:2:3:4:5:6:7:8]:80"),
        Some(EndpointAddress {
            ip: IpAddr::V6(0x0001_0002_0003_0004_0005_0006_0007_0008),
            port: 80
        })
    );
    assert_eq!(
        parse_sockaddr("[1:2:3:4:5:6:7::]:80"),
        Some(EndpointAddress {
            ip: IpAddr::V6(0x0001_0002_0003_0004_0005_0006_0007_0000),
            port: 80
        })
    );
    assert_eq!(
        parse_sockaddr("[fe80::A:b:3]:9"),
        Some(EndpointAddress {
            ip: IpAddr::V6(0xfe80_0000_0000_0000_0000_000a_000b_0003),
            port: 9
        })
    );
}

#[test]
fn reject_bad_v6_socket_addresses() {
    assert_eq!(parse_sockaddr("[::1]"), None, "a port is required");
    assert_eq!(parse_sockaddr("[::1]:"), None);
    assert_eq!(parse_sockaddr("[]:80"), None);
    assert_eq!(parse_sockaddr("[1::2::3]:80"), None, "one compression at most");
    assert_eq!(parse_sockaddr("[:::]:80"), None);
    assert_eq!(parse_sockaddr("[:1:2:3:4:5:6:7]:80"), None);
    assert_eq!(parse_sockaddr("[1:2:3:4:5:6:7]:80"), None, "too few groups");
    assert_eq!(parse_sockaddr("[1:2:3:4:5:6:7:8:9]:80"), None, "too many groups");
    assert_eq!(parse_sockaddr("[1:2:3:4:5:6:7:8::]:80"), None);
    assert_eq!(parse_sockaddr("[12345::1]:80"), None, "groups are at most four digits");
    assert_eq!(parse_sockaddr("[g::1]:80"), None);
    // The embedded dotted-quad form is not part of this grammar.
    assert_eq!(parse_sockaddr("[::ffff:1.2.3.4]:80"), None);
}

#[test]
fn admin_default_address() {
    let config = Config::from_yaml(
        "
version: v1alpha1
static:
  endpoints:
    - address: 127.0.0.1:25999
",
    )
    .unwrap();
    assert_eq!(
        config.admin.address,
        EndpointAddress {
            ip: IpAddr::V6(0),
            port: 8000
        }
    );
    // And a configured admin address, IPv6 included, overrides it.
    let config = Config::from_yaml(
        "
version: v1alpha1
admin:
  address: '[::1]:9000'
static:
  endpoints:
    - address: '[2001:db8::7]:26000'
",
    )
    .unwrap();
    assert_eq!(
        config.admin.address,
        EndpointAddress {
            ip: IpAddr::V6(1),
            port: 9000
        }
    );
    let endpoints = config.source.get_static_endpoints().unwrap();
    assert_eq!(
        endpoints[0].address,
        EndpointAddress {
            ip: IpAddr::V6(0x2001_0db8_0000_0000_0000_0000_0000_0007),
            port: 26000
        }
    );
}
