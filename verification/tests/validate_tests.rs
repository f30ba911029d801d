use quilkin::config_v1::{
    Config, EndPoint, Filter, ManagementServer, Proxy, Source, ValidationError, Version,
};
use quilkin::endpoint::EndpointAddress;
use quilkin::yaml::Node;

fn static_config(endpoints: Vec<EndPoint>) -> Config {
    Config {
        version: Version::V1Alpha1,
        proxy: Proxy::default(),
        admin: None,
        source: Source::Static {
            filters: Vec::<Filter>::new(),
            endpoints,
        },
    }
}

fn dynamic_config(addresses: Vec<&str>) -> Config {
    Config {
        version: Version::V1Alpha1,
        proxy: Proxy::default(),
        admin: None,
        source: Source::Dynamic {
            filters: Vec::<Filter>::new(),
            management_servers: addresses
                .into_iter()
                .map(|a| ManagementServer {
                    address: String::from(a),
                })
                .collect(),
        },
    }
}

#[test]
fn validate_dynamic_source() {
    // Valid management address list.
    let config = dynamic_config(vec![
        "127.0.0.1:25999",
        "example.com",
        "http://127.0.0.1:30000",
    ]);
    assert!(config.validate().is_ok());

    // Invalid management address.
    let config = dynamic_config(vec!["not an endpoint address"]);
    match config.validate().unwrap_err() {
        ValidationError::ValueInvalid(field) => {
            assert_eq!(field, "dynamic.management_servers.address".to_string());
        }
        err => panic!("expected invalid value error: got {}", err.message()),
    }

    // Duplicate management addresses.
    let config = dynamic_config(vec!["127.0.0.1:25999", "127.0.0.1:25999"]);
    assert_eq!(
        ValidationError::NotUnique("dynamic.management_servers.address".to_string()).message(),
        config.validate().unwrap_err().message()
    );
}

#[test]
fn validate() {
    // client - valid
    let config = static_config(vec![
        EndPoint::new(EndpointAddress::v4(127, 0, 0, 1, 25999)),
        EndPoint::new(EndpointAddress::v4(127, 0, 0, 1, 25998)),
    ]);
    assert!(config.validate().is_ok());

    // Non unique addresses.
    let config = static_config(vec![
        EndPoint::new(EndpointAddress::v4(127, 0, 0, 1, 25999)),
        EndPoint::new(EndpointAddress::v4(127, 0, 0, 1, 25999)),
    ]);
    assert_eq!(
        ValidationError::NotUnique("static.endpoints.address".to_string()).message(),
        config.validate().unwrap_err().message()
    );

    // Empty endpoints list
    let config = static_config(Vec::new());
    assert_eq!(
        ValidationError::EmptyList("static.endpoints".to_string()).message(),
        config.validate().unwrap_err().message()
    );

    // Invalid metadata: `quilkin.dev: { tokens: abc }` is not a token list.
    let metadata = Node::Mapping(vec![(
        Node::Str(String::from("quilkin.dev")),
        Node::Mapping(vec![(
            Node::Str(String::from("tokens")),
            Node::Str(String::from("abc")),
        )]),
    )]);
    let config = static_config(vec![EndPoint::with_metadata(
        EndpointAddress::v4(127, 0, 0, 1, 25999),
        Some(metadata),
    )]);
    assert!(config.validate().is_err());
}

#[test]
fn validate_metadata_tokens() {
    // A proper base64 token list passes.
    let metadata = Node::Mapping(vec![(
        Node::Str(String::from("quilkin.dev")),
        Node::Mapping(vec![(
            Node::Str(String::from("tokens")),
            Node::List(vec![Node::Str(String::from("MXg3aWp5Ng=="))]),
        )]),
    )]);
    let config = static_config(vec![EndPoint::with_metadata(
        EndpointAddress::v4(127, 0, 0, 1, 25999),
        Some(metadata),
    )]);
    assert!(config.validate().is_ok());

    // A token that is not base64 is refused.
    let metadata = Node::Mapping(vec![(
        Node::Str(String::from("quilkin.dev")),
        Node::Mapping(vec![(
            Node::Str(String::from("tokens")),
            Node::List(vec![Node::Str(String::from("not base64!"))]),
        )]),
    )]);
    let config = static_config(vec![EndPoint::with_metadata(
        EndpointAddress::v4(127, 0, 0, 1, 25999),
        Some(metadata),
    )]);
    match config.validate().unwrap_err() {
        ValidationError::ValueInvalid(field) => {
            assert_eq!(field, "static.endpoints.metadata");
        }
        err => panic!("expected invalid value error: got {}", err.message()),
    }
}

#[test]
fn get_filters_either_source() {
    let config = dynamic_config(vec!["127.0.0.1:25999"]);
    assert_eq!(config.source.get_filters().len(), 0);
}
