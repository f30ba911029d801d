use quilkin::config::{Config, Source, Testsuite, TestsuiteOutcome};
use quilkin::endpoint::{Endpoint, EndpointAddress, Metadata};
use quilkin::yaml::{map_get, Node};

fn parse_config(yaml: &str) -> Config {
    Config::from_yaml(yaml).unwrap()
}

fn assert_static_endpoints(source: &Source, expected_endpoints: Vec<Endpoint>) {
    match source.get_static_endpoints() {
        Some(endpoints) => {
            assert_eq!(&expected_endpoints, endpoints);
        }
        None => panic!("expected static config source"),
    }
}

#[test]
fn config_parse_default_values() {
    let yaml = "
version: v1alpha1
static:
  endpoints:
    - address: 127.0.0.1:25999
  ";
    let config = parse_config(yaml);

    assert_eq!(config.proxy.port, 7000);
    assert_eq!(config.proxy.id.len(), 36);
}

#[test]
fn config_parse_filter_config() {
    let yaml = "
version: v1alpha1
proxy:
  id: client-proxy
  port: 7000 # the port to receive traffic to locally
static:
  filters: # new filters section
    - name: quilkin.core.v1.rate-limiter
      config:
        map: of arbitrary key value pairs
        could:
          - also
          - be
          - 27
          - true
  endpoints:
    - address: 127.0.0.1:7001
        ";
    let config = parse_config(yaml);

    let filters = config.source.get_static_filters().unwrap();
    let filter = filters.get(0).unwrap();
    assert_eq!("quilkin.core.v1.rate-limiter", filter.name);
    let filter_config = match filter.config.as_ref().unwrap() {
        Node::Mapping(entries) => entries,
        other => panic!("expected a mapping, got {:?}", other),
    };

    let key = String::from("map");
    match map_get(filter_config, &key).unwrap() {
        Node::Str(s) => assert_eq!("of arbitrary key value pairs", s),
        other => panic!("expected a string, got {:?}", other),
    }

    let key = String::from("could");
    let could = match map_get(filter_config, &key).unwrap() {
        Node::List(items) => items,
        other => panic!("expected a list, got {:?}", other),
    };
    assert_eq!(could.get(0).unwrap(), &Node::Str(String::from("also")));
    assert_eq!(could.get(1).unwrap(), &Node::Str(String::from("be")));
    assert_eq!(could.get(2).unwrap(), &Node::Int(27));
    assert_eq!(could.get(3).unwrap(), &Node::Bool(true));
}

#[test]
fn config_parse_proxy() {
    let yaml = "
version: v1alpha1
proxy:
  id: server-proxy
  port: 7000
static:
  endpoints:
    - address: 127.0.0.1:25999
  ";
    let config = parse_config(yaml);

    assert_eq!(config.proxy.port, 7000);
    assert_eq!(config.proxy.id.as_str(), "server-proxy");
}

#[test]
fn config_parse_client() {
    let yaml = "
version: v1alpha1
static:
  endpoints:
    - address: 127.0.0.1:25999
  ";
    let config = parse_config(yaml);

    assert_static_endpoints(
        &config.source,
        vec![Endpoint::new(EndpointAddress::v4(127, 0, 0, 1, 25999))],
    );
}

#[test]
fn config_parse_server() {
    let yaml = "
---
version: v1alpha1
static:
  endpoints:
    - address: 127.0.0.1:26000
      metadata:
        quilkin.dev:
          tokens:
            - MXg3aWp5Ng== #1x7ijy6
            - OGdqM3YyaQ== #8gj3v2i
    - address: 127.0.0.1:26001
      metadata:
        quilkin.dev:
          tokens:
            - bmt1eTcweA== #nkuy70x";
    let config = parse_config(yaml);
    assert_static_endpoints(
        &config.source,
        vec![
            Endpoint::with_metadata(
                EndpointAddress::v4(127, 0, 0, 1, 26000),
                Metadata {
                    tokens: vec![b"1x7ijy6".to_vec(), b"8gj3v2i".to_vec()],
                },
            ),
            Endpoint::with_metadata(
                EndpointAddress::v4(127, 0, 0, 1, 26001),
                Metadata {
                    tokens: vec![b"nkuy70x".to_vec()],
                },
            ),
        ],
    );
}

#[test]
fn config_parse_dynamic_source() {
    let yaml = "
version: v1alpha1
dynamic:
  filters:
    - name: quilkin.core.v1.rate-limiter
      config:
        map: of arbitrary key value pairs
        could:
          - also
          - be
          - 27
          - true
  management_servers:
    - address: 127.0.0.1:25999
    - address: 127.0.0.1:30000
  ";
    let config = parse_config(yaml);

    match &config.source {
        Source::Dynamic { management_servers } => {
            let addresses: Vec<&str> = management_servers
                .iter()
                .map(|server| server.address.as_str())
                .collect();
            assert_eq!(addresses, vec!["127.0.0.1:25999", "127.0.0.1:30000"]);
        }
        _ => panic!("expected dynamic config source"),
    }
}

#[test]
fn deny_unused_fields() {
    let configs = vec![
        "
version: v1alpha1
foo: bar
static:
  endpoints:
    - address: 127.0.0.1:7001
",
        "
# proxy
version: v1alpha1
proxy:
  foo: bar
  id: client-proxy
  port: 7000
static:
  endpoints:
    - address: 127.0.0.1:7001
",
        "
# admin
version: v1alpha1
admin:
    foo: bar
    address: 127.0.0.1:7001
",
        "
# static.endpoints
version: v1alpha1
static:
  endpoints:
    - address: 127.0.0.1:7001
      connection_ids:
      - Mxg3aWp5Ng==
",
        "
# static.filters
version: v1alpha1
static:
  filters:
    - name: quilkin.core.v1.rate-limiter
      foo: bar
",
        "
# dynamic.management_servers
version: v1alpha1
dynamic:
  management_servers:
    - address: 127.0.0.1:25999
      foo: bar
",
    ];

    for config in configs {
        let result = Config::from_yaml(config);
        let error = result.unwrap_err();
        assert!(error.message().contains("unknown field"));
    }
}

#[test]
fn testsuite_two_documents() {
    let yaml = "
version: v1alpha1
static:
  endpoints:
    - address: 127.0.0.1:25999
---
tests:
  hello:
    input: hello
    output: hello
";
    match Testsuite::from_yaml(yaml).unwrap() {
        TestsuiteOutcome::Complete(ts) => {
            assert_eq!(ts.config.proxy.port, 7000);
            assert_eq!(ts.options.tests.len(), 1);
            assert_eq!(ts.options.tests[0].0, "hello");
            assert_eq!(ts.options.tests[0].1.input, "hello");
        }
        other => panic!("expected a complete testsuite, got {:?}", other),
    }
}

#[test]
fn testsuite_config_file_reference() {
    let yaml = "
config: ./proxy.yaml
tests:
  t:
    input: a
    output: b
";
    match Testsuite::from_yaml(yaml).unwrap() {
        TestsuiteOutcome::NeedsFile(tc) => {
            assert_eq!(tc.config.as_deref(), Some("./proxy.yaml"));
        }
        other => panic!("expected a file reference, got {:?}", other),
    }
}

#[test]
fn config_error_cases() {
    // The version is required.
    let err = Config::from_yaml("static:\n  endpoints:\n    - address: 127.0.0.1:7001\n")
        .unwrap_err();
    assert!(err.message().contains("missing field"));

    // Exactly one of static and dynamic.
    let err = Config::from_yaml(
        "version: v1alpha1\nstatic:\n  endpoints: []\ndynamic:\n  management_servers: []\n",
    )
    .unwrap_err();
    assert!(err.message().contains("invalid value"));

    // A port out of range is refused.
    let err = Config::from_yaml(
        "version: v1alpha1\nproxy:\n  port: 65536\nstatic:\n  endpoints: []\n",
    )
    .unwrap_err();
    assert!(err.message().contains("proxy.port"));

    // An address that is not an IPv4 socket address is refused.
    let err = Config::from_yaml(
        "version: v1alpha1\nstatic:\n  endpoints:\n    - address: nonsense\n",
    )
    .unwrap_err();
    assert!(err.message().contains("address"));

    // A token that is not base64 is refused.
    let err = Config::from_yaml(
        "version: v1alpha1\nstatic:\n  endpoints:\n    - address: 127.0.0.1:7001\n      metadata:\n        quilkin.dev:\n          tokens:\n            - '*bad*'\n",
    )
    .unwrap_err();
    assert!(err.message().contains("tokens"));
}
