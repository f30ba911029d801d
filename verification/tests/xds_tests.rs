use quilkin::backoff::ExponentialBackoff;
use quilkin::config::ManagementServer;
use quilkin::endpoint::{Endpoint, EndpointAddress};
use quilkin::xds::{
    cluster_type, endpoint_type, AdsClient, ClusterManager, ClusterResource, EndpointResource,
    ExecutionError, ResourceHandlers,
};

fn backoff() -> ExponentialBackoff {
    ExponentialBackoff::new(500, 30_000, 3, 2, 10_000_000)
}

fn servers(addresses: Vec<&str>) -> Vec<ManagementServer> {
    addresses
        .into_iter()
        .map(|a| ManagementServer {
            address: String::from(a),
        })
        .collect()
}

#[test]
fn invalid_url() {
    // If we get an invalid URL, we should return immediately rather
    // than backoff or retry.
    let mut client = AdsClient::new(String::from("test-id"), backoff());
    let list = servers(vec!["localhost:18000"]);
    let addr = client.pick_server(&list);
    assert_eq!(addr, "localhost:18000");
    let result = client.on_connect_failure(true, String::from("invalid url"));
    assert!(result.is_err(), "client should bail out immediately");
    assert_eq!(
        result.unwrap_err(),
        ExecutionError::Message(String::from("invalid url"))
    );
}

#[test]
fn server_failover_round_robin() {
    let mut client = AdsClient::new(String::from("node"), backoff());
    let list = servers(vec!["one", "two"]);
    assert_eq!(client.pick_server(&list), "one");
    assert_eq!(client.pick_server(&list), "two");
    assert_eq!(client.pick_server(&list), "one");
}

#[test]
fn backoff_delays_non_decreasing_until_reset() {
    let mut client = AdsClient::new(String::from("node"), backoff());
    let mut last = 0u32;
    for _ in 0..16 {
        let delay = client
            .on_connect_failure(false, String::new())
            .expect("within the elapsed budget");
        assert!(delay >= last);
        assert!(delay <= 30_000);
        last = delay;
    }
    assert!(last > 500);
    client.on_stream_established();
    let delay = client
        .on_connect_failure(false, String::new())
        .expect("fresh after reset");
    assert_eq!(delay, 500);
}

#[test]
fn backoff_gives_up_after_max_elapsed() {
    let mut b = ExponentialBackoff::new(10, 10, 1, 1, 25);
    assert_eq!(b.next_backoff(), Some(10));
    assert_eq!(b.next_backoff(), Some(10));
    assert_eq!(b.next_backoff(), Some(10));
    // 30ms handed out > 25ms budget: the next call gives up.
    assert_eq!(b.next_backoff(), None);
}

#[test]
fn initial_request_is_wildcard() {
    let client = AdsClient::new(String::from("test-id"), backoff());
    let req = client.initial_cds_request();
    assert_eq!(req.version_info, "");
    assert_eq!(req.node_id.as_deref(), Some("test-id"));
    assert!(req.resource_names.is_empty());
    assert_eq!(req.type_url, cluster_type());
    assert_eq!(req.response_nonce, "");
    assert!(req.error_detail.is_none());
}

#[test]
fn accepted_response_is_acked() {
    // E4-style: a CDS response with one cluster c1 and endpoint
    // 10.0.0.2:9000 is applied and ACKed; the map becomes ready.
    let mut manager = ClusterManager::new();
    let update = vec![ClusterResource {
        name: String::from("c1"),
        endpoints: vec![Endpoint::new(EndpointAddress::v4(10, 0, 0, 2, 9000))],
        eds: false,
    }];
    let (ack, follow_up) =
        manager.on_cluster_response(String::from("v1"), String::from("n1"), Ok(update));
    assert_eq!(ack.version_info, "v1");
    assert_eq!(ack.response_nonce, "n1");
    assert!(ack.error_detail.is_none());
    assert_eq!(ack.type_url, cluster_type());
    assert!(follow_up.is_none());
    assert!(manager.clusters.has_endpoints());
    let eps = manager.clusters.get(&Some(String::from("c1"))).unwrap();
    assert_eq!(eps.len(), 1);
    assert_eq!(eps[0].address, EndpointAddress::v4(10, 0, 0, 2, 9000));
}

#[test]
fn rejected_response_is_nacked_and_state_retained() {
    // E5: a malformed cluster (duplicate endpoint addresses) is NACKed with
    // a non-empty error detail, and the map keeps its prior state.
    let mut manager = ClusterManager::new();
    let good = vec![ClusterResource {
        name: String::from("c1"),
        endpoints: vec![Endpoint::new(EndpointAddress::v4(10, 0, 0, 2, 9000))],
        eds: false,
    }];
    let _ = manager.on_cluster_response(String::from("v1"), String::from("n1"), Ok(good));

    let bad = vec![ClusterResource {
        name: String::from("c1"),
        endpoints: vec![
            Endpoint::new(EndpointAddress::v4(10, 0, 0, 3, 9000)),
            Endpoint::new(EndpointAddress::v4(10, 0, 0, 3, 9000)),
        ],
        eds: false,
    }];
    let (nack, follow_up) =
        manager.on_cluster_response(String::from("v2"), String::from("n2"), Ok(bad));
    assert_eq!(nack.version_info, "v1", "the previous accepted version is retained");
    assert_eq!(nack.response_nonce, "n2", "the nonce of the new response is echoed");
    assert!(nack.error_detail.is_some());
    assert!(!nack.error_detail.unwrap().is_empty());
    assert!(follow_up.is_none());
    // The prior cluster state is retained.
    let eps = manager.clusters.get(&Some(String::from("c1"))).unwrap();
    assert_eq!(eps.len(), 1);
    assert_eq!(eps[0].address, EndpointAddress::v4(10, 0, 0, 2, 9000));
}

#[test]
fn decode_failure_is_nacked() {
    let mut manager = ClusterManager::new();
    let (nack, follow_up) = manager.on_cluster_response(
        String::from("v9"),
        String::from("n9"),
        Err(String::from("bad protobuf")),
    );
    assert_eq!(nack.version_info, "");
    assert_eq!(nack.response_nonce, "n9");
    assert_eq!(nack.error_detail.as_deref(), Some("bad protobuf"));
    assert!(follow_up.is_none());
    assert!(!manager.clusters.has_endpoints());
}

#[test]
fn eds_clusters_are_subscribed() {
    let mut manager = ClusterManager::new();
    let update = vec![
        ClusterResource {
            name: String::from("c1"),
            endpoints: Vec::new(),
            eds: true,
        },
        ClusterResource {
            name: String::from("c2"),
            endpoints: vec![Endpoint::new(EndpointAddress::v4(10, 0, 0, 2, 9000))],
            eds: false,
        },
    ];
    let (ack, follow_up) =
        manager.on_cluster_response(String::from("v1"), String::from("n1"), Ok(update));
    assert!(ack.error_detail.is_none());
    let req = follow_up.expect("an EDS subscription follows");
    assert_eq!(req.type_url, endpoint_type());
    assert_eq!(req.resource_names, vec![String::from("c1")]);
    assert_eq!(req.version_info, "");
    assert_eq!(req.response_nonce, "");
}

#[test]
fn eds_response_replaces_endpoints() {
    let mut manager = ClusterManager::new();
    let update = vec![ClusterResource {
        name: String::from("c1"),
        endpoints: Vec::new(),
        eds: true,
    }];
    let _ = manager.on_cluster_response(String::from("v1"), String::from("n1"), Ok(update));

    let assignment = vec![EndpointResource {
        cluster_name: String::from("c1"),
        endpoints: vec![Endpoint::new(EndpointAddress::v4(10, 0, 0, 7, 7777))],
    }];
    let ack = manager.on_cluster_load_assignment_response(
        String::from("e1"),
        String::from("m1"),
        Ok(assignment),
    );
    assert_eq!(ack.version_info, "e1");
    assert_eq!(ack.response_nonce, "m1");
    assert!(ack.error_detail.is_none());
    let eps = manager.clusters.get(&Some(String::from("c1"))).unwrap();
    assert_eq!(eps.len(), 1);
    assert_eq!(eps[0].address, EndpointAddress::v4(10, 0, 0, 7, 7777));
}

#[test]
fn reconnect_clears_versions() {
    let mut manager = ClusterManager::new();
    let update = vec![ClusterResource {
        name: String::from("c1"),
        endpoints: vec![Endpoint::new(EndpointAddress::v4(10, 0, 0, 2, 9000))],
        eds: false,
    }];
    let _ = manager.on_cluster_response(String::from("v1"), String::from("n1"), Ok(update));
    let mut handlers = ResourceHandlers {
        cluster_manager: manager,
    };
    handlers.on_reconnect();
    assert_eq!(handlers.cluster_manager.cds.version, "");
    assert_eq!(handlers.cluster_manager.cds.nonce, "");
    // The cluster snapshot is kept across reconnects.
    assert!(handlers.cluster_manager.clusters.has_endpoints());
}
