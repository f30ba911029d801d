use quilkin::cluster::ClusterMap;
use quilkin::dataplane::{process_read, process_write, DropReason};
use quilkin::endpoint::{Endpoint, EndpointAddress, Metadata};
use quilkin::filter::{Filter, FilterChain, FilterError};
use quilkin::session::{SessionError, SessionKey, SessionMap};
use quilkin::token_router::TokenRouter;

fn default_cluster(endpoints: Vec<Endpoint>) -> ClusterMap {
    ClusterMap::new_default(endpoints)
}

#[test]
fn empty_chain_forwards_payload_unchanged() {
    // A static config with endpoint 127.0.0.1:25999 and no filters: the
    // proxy forwards "hello" byte for byte, and the reply "world" comes
    // back byte for byte.
    let endpoint = Endpoint::new(EndpointAddress::v4(127, 0, 0, 1, 25999));
    let clusters = default_cluster(vec![endpoint.clone()]);
    let chain = FilterChain::new(Vec::new(), 1);

    let client = EndpointAddress::v4(127, 0, 0, 1, 40000);
    let (payload, destinations) =
        process_read(&chain, &clusters, client, b"hello".to_vec()).unwrap();
    assert_eq!(payload, b"hello".to_vec());
    assert_eq!(destinations, vec![endpoint]);

    let reply = process_write(
        &chain,
        EndpointAddress::v4(127, 0, 0, 1, 25999),
        client,
        b"world".to_vec(),
    )
    .unwrap();
    assert_eq!(reply, b"world".to_vec());
}

#[test]
fn passthrough_chain_is_idempotent() {
    let clusters = default_cluster(vec![Endpoint::new(EndpointAddress::v4(10, 0, 0, 2, 9000))]);
    let chain = FilterChain::new(vec![Filter::Passthrough, Filter::Passthrough], 1);
    let client = EndpointAddress::v4(10, 0, 0, 1, 7000);
    let (payload, _) = process_read(&chain, &clusters, client, vec![1, 2, 3]).unwrap();
    assert_eq!(payload, vec![1, 2, 3]);
    let reply = process_write(&chain, EndpointAddress::v4(10, 0, 0, 2, 9000), client, vec![9, 8])
        .unwrap();
    assert_eq!(reply, vec![9, 8]);
}

#[test]
fn no_endpoints_drops_datagram() {
    let clusters = ClusterMap::new();
    let chain = FilterChain::new(Vec::new(), 1);
    let client = EndpointAddress::v4(127, 0, 0, 1, 40000);
    let r = process_read(&chain, &clusters, client, b"hello".to_vec());
    assert_eq!(r.unwrap_err(), DropReason::NoEndpoints);
}

#[test]
fn token_router_routes_by_suffix() {
    // Two endpoints with tokens "1x7ijy6" and "nkuy70x" and a router
    // capturing the last 7 bytes: "msg1x7ijy6" reaches only the first,
    // stripped to "msg".
    let e1 = Endpoint::with_metadata(
        EndpointAddress::v4(127, 0, 0, 1, 26000),
        Metadata {
            tokens: vec![b"1x7ijy6".to_vec(), b"8gj3v2i".to_vec()],
        },
    );
    let e2 = Endpoint::with_metadata(
        EndpointAddress::v4(127, 0, 0, 1, 26001),
        Metadata {
            tokens: vec![b"nkuy70x".to_vec()],
        },
    );
    let clusters = default_cluster(vec![e1.clone(), e2]);
    let chain = FilterChain::new(vec![Filter::TokenRouter(TokenRouter::new(7))], 1);
    let client = EndpointAddress::v4(127, 0, 0, 1, 40000);

    let (payload, destinations) =
        process_read(&chain, &clusters, client, b"msg1x7ijy6".to_vec()).unwrap();
    assert_eq!(payload, b"msg".to_vec());
    assert_eq!(destinations, vec![e1]);
}

#[test]
fn token_router_errors() {
    let e1 = Endpoint::with_metadata(
        EndpointAddress::v4(127, 0, 0, 1, 26000),
        Metadata {
            tokens: vec![b"1x7ijy6".to_vec()],
        },
    );
    let clusters = default_cluster(vec![e1]);
    let chain = FilterChain::new(vec![Filter::TokenRouter(TokenRouter::new(7))], 1);
    let client = EndpointAddress::v4(127, 0, 0, 1, 40000);

    // No endpoint carries the captured token.
    let r = process_read(&chain, &clusters, client, b"msgzzzzzzz".to_vec());
    assert_eq!(
        r.unwrap_err(),
        DropReason::Filter(FilterError::NoEndpointMatch)
    );

    // The payload is shorter than the capture.
    let r = process_read(&chain, &clusters, client, b"abc".to_vec());
    assert_eq!(r.unwrap_err(), DropReason::Filter(FilterError::NoTokenFound));
}

#[test]
fn session_affinity_within_ttl() {
    // Two consecutive datagrams from the same (client, endpoint) within the
    // TTL use the same upstream socket.
    let key = SessionKey {
        client: EndpointAddress::v4(127, 0, 0, 1, 40000),
        endpoint: EndpointAddress::v4(127, 0, 0, 1, 25999),
    };
    let mut sessions = SessionMap::new(60_000, 1024);
    let (socket1, created1) = sessions.get_or_create(key, 1_000, 50001).unwrap();
    assert!(created1);
    assert_eq!(socket1, 50001);

    sessions.reap(30_000);
    let (socket2, created2) = sessions.get_or_create(key, 30_000, 50002).unwrap();
    assert!(!created2);
    assert_eq!(socket2, socket1);
}

#[test]
fn session_expiry_reaps_idle_sessions() {
    // No datagram within TTL plus a poll interval: the session is reaped
    // and a later datagram gets a fresh socket.
    let key = SessionKey {
        client: EndpointAddress::v4(127, 0, 0, 1, 40000),
        endpoint: EndpointAddress::v4(127, 0, 0, 1, 25999),
    };
    let mut sessions = SessionMap::new(60_000, 1024);
    let (socket1, _) = sessions.get_or_create(key, 1_000, 50001).unwrap();
    assert_eq!(socket1, 50001);
    assert_eq!(sessions.len(), 1);

    sessions.reap(62_001);
    assert_eq!(sessions.len(), 0);

    let (socket2, created2) = sessions.get_or_create(key, 62_001, 50002).unwrap();
    assert!(created2);
    assert_eq!(socket2, 50002);
}

#[test]
fn session_limit_is_enforced() {
    let mut sessions = SessionMap::new(60_000, 1);
    let k1 = SessionKey {
        client: EndpointAddress::v4(10, 0, 0, 1, 1000),
        endpoint: EndpointAddress::v4(10, 0, 0, 9, 9000),
    };
    let k2 = SessionKey {
        client: EndpointAddress::v4(10, 0, 0, 2, 1000),
        endpoint: EndpointAddress::v4(10, 0, 0, 9, 9000),
    };
    assert!(sessions.get_or_create(k1, 0, 1).is_ok());
    assert_eq!(
        sessions.get_or_create(k2, 0, 2),
        Err(SessionError::LimitExceeded)
    );
    // The existing session is still reachable.
    assert_eq!(sessions.get_or_create(k1, 1, 3), Ok((1, false)));
}

#[test]
fn cluster_map_operations() {
    let mut clusters = ClusterMap::new();
    assert!(!clusters.has_endpoints());

    clusters.upsert(
        Some(String::from("c1")),
        vec![Endpoint::new(EndpointAddress::v4(10, 0, 0, 2, 9000))],
    );
    assert!(clusters.has_endpoints());
    assert_eq!(clusters.get(&Some(String::from("c1"))).unwrap().len(), 1);
    assert!(clusters.get(&Some(String::from("c2"))).is_none());
    assert!(clusters.get(&None).is_none());

    // Replacing a cluster swaps its endpoints atomically.
    clusters.upsert(
        Some(String::from("c1")),
        vec![
            Endpoint::new(EndpointAddress::v4(10, 0, 0, 3, 9000)),
            Endpoint::new(EndpointAddress::v4(10, 0, 0, 4, 9000)),
        ],
    );
    assert_eq!(clusters.get(&Some(String::from("c1"))).unwrap().len(), 2);
    assert_eq!(clusters.endpoints().len(), 2);

    clusters.remove(&Some(String::from("c1")));
    assert!(clusters.get(&Some(String::from("c1"))).is_none());
    assert!(!clusters.has_endpoints());
}

#[test]
fn endpoint_token_matching() {
    let e = Endpoint::with_metadata(
        EndpointAddress::v4(127, 0, 0, 1, 26000),
        Metadata {
            tokens: vec![b"1x7ijy6".to_vec()],
        },
    );
    assert!(e.matches_token(b"1x7ijy6"));
    assert!(!e.matches_token(b"nkuy70x"));
    assert!(!e.matches_token(b""));
}
