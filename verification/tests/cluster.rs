//! Gossip between nodes: addresses of peers, their versions, and who is told.

use llamesh::circuit_breaker::{CircuitBreaker, CircuitBreakerConfig, CircuitState};
use llamesh::cluster::{
    extract_host_from_url, is_loopback_address, note_version_mismatch_for_logging,
    parse_peer_url, process_gossip_message, rejects_version, same_peer_url, source_peer_url,
    with_scheme, GossipMessage, PeerInfo, PeerState, PeerTable,
};
use llamesh::config::{
    ClusterConfig, ClusterNoiseConfig, ClusterTlsConfig, DiscoveryConfig, HttpConfig,
    LlamaCppConfig, ModelDefaults, NodeConfig, ServerTlsConfig, WedgeDetectorConfig,
};
use llamesh::gossip::{
    authorize_gossip, claim_gossip_probe, claim_gossip_probe_at, gossip_succeeded, handle_gossip, known_peers_info, own_address, plan_gossip_round,
    record_gossip, record_gossip_at, GossipAnswer, GossipRefusal, PeerIdentity,
};
use llamesh::net::{Endpoint, IpAddress};
use llamesh::server::{handle_noise_gossip, unreadable_gossip, NoiseGossip};
use llamesh::string_map::StringMap;

const LOCAL: &str = "1.20.3";
const NOW: u64 = 1_700_000_000;

fn minimal_node_config() -> NodeConfig {
    NodeConfig {
        node_id: "node-local".to_string(),
        listen_addr: "0.0.0.0:8080".to_string(),
        public_url: None,
        max_vram_mb: 1024,
        max_sysmem_mb: 1024,
        max_instances_per_node: 10,
        metrics_path: "./metrics.json".to_string(),
        default_model: "test".to_string(),
        model_defaults: ModelDefaults {
            max_concurrent_requests_per_instance: 1,
            max_queue_size_per_model: 1,
            max_instances_per_model: 1,
            max_wait_in_queue_ms: 500,
            max_request_duration_ms: 300_000,
            min_eviction_tenure_secs: 15,
        },
        llama_cpp_ports: None,
        llama_cpp: LlamaCppConfig {
            repo_url: "https://github.com/ggml-org/llama.cpp.git".into(),
            repo_path: "./llama.cpp".into(),
            build_path: "./llama.cpp/build".into(),
            binary_path: "./llama.cpp/bin/llama-server".into(),
            branch: "master".into(),
            build_args: vec![],
            build_command_args: vec![],
            auto_update_interval_seconds: 0,
            enabled: false,
            keep_builds: 3,
        },
        cluster: ClusterConfig {
            enabled: true,
            peers: vec![],
            gossip_interval_seconds: 5,
            max_concurrent_gossip: 16,
            discovery: DiscoveryConfig {
                mdns: false,
                ..Default::default()
            },
            noise: ClusterNoiseConfig::default(),
            circuit_breaker: CircuitBreakerConfig::default(),
            version_mismatch_action: "warn".to_string(),
        },
        http: HttpConfig {
            request_body_limit_bytes: 1024,
            idle_timeout_seconds: 60,
            body_read_timeout_ms: 30_000,
            protocol_detect_timeout_ms: 10_000,
        },
        auth: None,
        server_tls: None,
        cluster_tls: None,
        shutdown_grace_period_seconds: 30,
        max_hops: 10,
        logging: None,
        max_total_queue_entries: 0,
        upstream_read_timeout_ms: 600_000,
        wedge_detector: WedgeDetectorConfig::default(),
    }
}

/// A peer at a given version with otherwise unremarkable fields.
fn peer_state_with_version(node_id: &str, version: &str) -> PeerState {
    PeerState {
        node_id: node_id.to_string(),
        address: format!("http://{node_id}"),
        address_from_source: false,
        version: version.to_string(),
        llama_cpp_version: "unknown".to_string(),
        last_seen: 1000,
        started_at_unix: 0,
        supported_models: vec![],
        active_instances: 0,
        max_instances: 8,
        current_requests: 0,
        available_vram: 1,
        available_sysmem: 1,
        llamesh_vram_mb: 0,
        llamesh_sysmem_mb: 0,
        external_vram_mb: 0,
        device_vram_used_mb: 0,
        device_vram_total_mb: 0,
        gpu_telemetry_available: false,
        max_vram: 16000,
        max_sysmem: 64000,
        total_queue_length: 0,
        model_stats: vec![],
        ready: true,
        loaded_models: vec![],
    }
}

fn v4(a: u8, b: u8, c: u8, d: u8, port: u16) -> Endpoint {
    Endpoint {
        ip: IpAddress::V4(u32::from_be_bytes([a, b, c, d])),
        port,
    }
}

fn v6(value: u128, port: u16) -> Endpoint {
    Endpoint {
        ip: IpAddress::V6(value),
        port,
    }
}

/// The address `2001:db8::n`.
fn doc6(n: u128) -> u128 {
    (0x2001_0db8u128 << 96) | n
}

/// An IPv4 address in its IPv6 form.
fn mapped(a: u8, b: u8, c: u8, d: u8) -> u128 {
    0xffff_0000_0000 | u32::from_be_bytes([a, b, c, d]) as u128
}

#[test]
fn test_note_version_mismatch_logs_once_per_distinct_version() {
    let mut logged = StringMap::new();

    // First sight of a skewed version logs.
    assert!(note_version_mismatch_for_logging(&mut logged, "peer-a", "1.5.0"));
    // The same version on subsequent gossip rounds does not log again.
    assert!(!note_version_mismatch_for_logging(&mut logged, "peer-a", "1.5.0"));
    assert!(!note_version_mismatch_for_logging(&mut logged, "peer-a", "1.5.0"));
    // A changed (still-skewed) version logs once for the new value.
    assert!(note_version_mismatch_for_logging(&mut logged, "peer-a", "1.5.1"));
    assert!(!note_version_mismatch_for_logging(&mut logged, "peer-a", "1.5.1"));
    // Other peers are tracked independently.
    assert!(note_version_mismatch_for_logging(&mut logged, "peer-b", "1.5.1"));
    assert!(!note_version_mismatch_for_logging(&mut logged, "peer-b", "1.5.1"));
}

fn message(origin: PeerState) -> GossipMessage {
    GossipMessage {
        origin,
        known_peers: vec![],
    }
}

#[test]
fn test_gossip_records_then_clears_version_mismatch() {
    let config = minimal_node_config();
    let mut table = PeerTable::new();

    // A peer on a different version is recorded so the skew is logged only
    // once instead of on every gossip round.
    let skewed = peer_state_with_version("peer-skew", "0.0.1");
    process_gossip_message(&mut table, &config, LOCAL, message(skewed), None, NOW);
    assert_eq!(
        table
            .logged_peer_versions
            .get("peer-skew")
            .map(String::as_str),
        Some("0.0.1")
    );

    // When that peer reports the local version, the dedup record is cleared
    // so a later divergence is logged afresh.
    let matched = peer_state_with_version("peer-skew", LOCAL);
    process_gossip_message(&mut table, &config, LOCAL, message(matched), None, NOW);
    assert!(table.logged_peer_versions.get("peer-skew").is_none());
}

#[test]
fn test_gossip_discovers_new_peers() {
    let config = minimal_node_config();
    let mut table = PeerTable::new();

    let mut origin_peer = peer_state_with_version("node-origin", "0.1.0");
    origin_peer.llama_cpp_version = "origincpp1".into();

    let msg = GossipMessage {
        origin: origin_peer,
        known_peers: vec![PeerInfo {
            node_id: "node-new".into(),
            address: "http://node-new".into(),
        }],
    };

    process_gossip_message(&mut table, &config, LOCAL, msg, None, NOW);

    // Should have origin peer, including the llama.cpp version it gossiped.
    let peers = &table.peers;
    assert!(peers.contains_key("node-origin"));
    let origin = peers.get("node-origin").unwrap();
    assert_eq!(origin.llama_cpp_version, "origincpp1");

    // Should have discovered peer. Transitively-discovered peers have no
    // direct gossip yet, so their llama.cpp version is "unknown" until heard.
    assert!(peers.contains_key("node-new"));
    let new_peer = peers.get("node-new").unwrap();
    assert_eq!(new_peer.address, "http://node-new");
    assert_eq!(new_peer.version, "unknown");
    assert_eq!(new_peer.llama_cpp_version, "unknown");
}

#[test]
fn test_is_loopback_address() {
    // Loopback addresses
    assert!(is_loopback_address("http://127.0.0.1:8080"));
    assert!(is_loopback_address("http://127.0.0.1"));
    assert!(is_loopback_address("https://127.0.0.1:443"));
    assert!(is_loopback_address("http://localhost:8080"));
    assert!(is_loopback_address("http://localhost"));
    assert!(is_loopback_address("http://127.0.1.1:8080"));
    assert!(is_loopback_address("http://[::1]:8080"));
    assert!(is_loopback_address("http://[::1]"));

    // Non-loopback addresses
    assert!(!is_loopback_address("http://192.168.1.1:8080"));
    assert!(!is_loopback_address("http://node-a.example.com:8080"));
    assert!(!is_loopback_address("http://node-b:8080"));
    assert!(!is_loopback_address("https://10.0.0.1:443"));
}

#[test]
fn test_gossip_source_address_fallback_supports_both_ip_families() {
    let mut config = minimal_node_config();
    config.cluster.noise.enabled = false;
    let mut table = PeerTable::new();

    for (index, (advertised, source, expected)) in [
        (
            "http://127.0.0.1:8080",
            v4(192, 0, 2, 1, 50000),
            "http://192.0.2.1:8080",
        ),
        (
            "http://[::1]:9000",
            v6(doc6(1), 50000),
            "http://[2001:db8::1]:9000",
        ),
        (
            "https://127.0.0.1:8443",
            v6(doc6(2), 50000),
            "https://[2001:db8::2]:8443",
        ),
    ]
    .into_iter()
    .enumerate()
    {
        let node_id = format!("peer-{index}");
        let mut origin = peer_state_with_version(&node_id, LOCAL);
        origin.address = advertised.into();
        process_gossip_message(
            &mut table,
            &config,
            LOCAL,
            message(origin),
            Some(source),
            NOW,
        );

        let address = &table.peers.get(&node_id).unwrap().address;
        assert_eq!(address, expected);
        assert!(reqwest::Url::parse(address).is_ok());
    }
}

#[test]
fn test_gossip_preserves_non_loopback_address() {
    let config = minimal_node_config();
    let mut table = PeerTable::new();

    // First, add a peer with a real address
    let mut known = peer_state_with_version("remote-peer", "0.1.0");
    known.address = "http://node-b:8080".into(); // Real hostname
    known.supported_models = vec!["model:default".into()];
    known.available_vram = 1000;
    known.available_sysmem = 1000;
    table.peers.insert("remote-peer".into(), known);

    // Now simulate gossip from that peer with loopback address
    let mut gossip_peer = peer_state_with_version("remote-peer", "0.1.0");
    gossip_peer.address = "http://127.0.0.1:8080".into(); // Loopback - should be ignored
    gossip_peer.last_seen = 2000;
    gossip_peer.supported_models = vec!["model:default".into(), "new-model:default".into()];
    gossip_peer.active_instances = 1;
    gossip_peer.current_requests = 5;
    gossip_peer.available_vram = 500;
    gossip_peer.available_sysmem = 500;
    gossip_peer.total_queue_length = 2;

    process_gossip_message(&mut table, &config, LOCAL, message(gossip_peer), None, NOW);

    let peer = table.peers.get("remote-peer").unwrap();

    // Address should be preserved (not overwritten with loopback)
    assert_eq!(peer.address, "http://node-b:8080");

    // But other fields should be updated
    assert_eq!(peer.supported_models.len(), 2);
    assert_eq!(peer.active_instances, 1);
    assert_eq!(peer.current_requests, 5);
}

#[test]
fn test_extract_host_from_url_ipv4() {
    assert_eq!(
        extract_host_from_url("http://192.168.1.1:8080"),
        "192.168.1.1"
    );
    assert_eq!(extract_host_from_url("https://10.0.0.1:443"), "10.0.0.1");
    assert_eq!(extract_host_from_url("http://127.0.0.1"), "127.0.0.1");
}

#[test]
fn test_extract_host_from_url_ipv6() {
    assert_eq!(extract_host_from_url("http://[::1]:8080"), "::1");
    assert_eq!(
        extract_host_from_url("http://[2001:db8::1]:8080"),
        "2001:db8::1"
    );
    assert_eq!(extract_host_from_url("http://[fe80::1]"), "fe80::1");
}

#[test]
fn test_extract_host_from_url_hostname() {
    assert_eq!(extract_host_from_url("http://localhost:8080"), "localhost");
    assert_eq!(
        extract_host_from_url("https://node-a.example.com:443"),
        "node-a.example.com"
    );
    assert_eq!(extract_host_from_url("http://node-b:8080"), "node-b");
}

#[test]
fn test_extract_host_from_url_no_scheme() {
    assert_eq!(extract_host_from_url("192.168.1.1:8080"), "192.168.1.1");
    assert_eq!(extract_host_from_url("localhost:8080"), "localhost");
}

struct Node {
    config: NodeConfig,
    table: PeerTable,
}

fn address_test_state(seeds: &[&str]) -> Node {
    let mut config = minimal_node_config();
    config.cluster.noise.enabled = false;
    config.cluster.peers = seeds.iter().map(|seed| seed.to_string()).collect();
    Node {
        config,
        table: PeerTable::new(),
    }
}

/// The address of the peer, and whether it was inferred, after it was heard.
fn receive_address(node: &mut Node, advertised: &str, source: Option<Endpoint>) -> (String, bool) {
    let mut origin = peer_state_with_version("peer", LOCAL);
    origin.address = advertised.into();
    origin.current_requests = 7;
    process_gossip_message(
        &mut node.table,
        &node.config,
        LOCAL,
        message(origin),
        source,
        NOW,
    );
    let peer = node.table.peers.get("peer").unwrap();
    assert_eq!(peer.current_requests, 7);
    assert!(peer.last_seen > 1000);
    (peer.address.clone(), peer.address_from_source)
}

#[test]
fn inferred_addresses_follow_direct_gossip_ip_port_and_scheme_changes() {
    let mut state = address_test_state(&[]);
    for (advertised, source, expected) in [
        (
            "http://127.0.0.1:8080",
            v4(192, 0, 2, 1, 50000),
            "http://192.0.2.1:8080",
        ),
        (
            "http://127.0.0.1:8080",
            v4(192, 0, 2, 2, 50001),
            "http://192.0.2.2:8080",
        ),
        (
            "http://127.0.0.1:9000",
            v4(192, 0, 2, 2, 50002),
            "http://192.0.2.2:9000",
        ),
        (
            "http://[::1]:9000",
            v6(doc6(1), 50003),
            "http://[2001:db8::1]:9000",
        ),
        (
            "http://[::1]:9000",
            v6(doc6(2), 50004),
            "http://[2001:db8::2]:9000",
        ),
        (
            "https://[::1]:8443",
            v6(doc6(2), 50005),
            "https://[2001:db8::2]:8443",
        ),
    ] {
        let (address, from_source) = receive_address(&mut state, advertised, Some(source));
        assert_eq!(address, expected);
        assert!(from_source);
    }
}

#[test]
fn missing_or_unusable_source_preserves_refreshable_address() {
    let mut state = address_test_state(&[]);
    receive_address(
        &mut state,
        "http://127.0.0.1:8080",
        Some(v4(192, 0, 2, 1, 50000)),
    );
    for source in [
        None,
        Some(v4(127, 0, 0, 1, 50001)),
        Some(v6(1, 50001)),
        Some(v6(mapped(127, 0, 0, 1), 50001)),
        Some(v4(0, 0, 0, 0, 50001)),
        Some(v6(0, 50001)),
        Some(v6(mapped(0, 0, 0, 0), 50001)),
        Some(v4(224, 0, 0, 1, 50001)),
        Some(v4(255, 255, 255, 255, 50001)),
        Some(v6(mapped(224, 0, 0, 1), 50001)),
        Some(v6(mapped(255, 255, 255, 255), 50001)),
        Some(v6((0xff02u128 << 112) | 1, 50001)),
        Some(v6((0xfe80u128 << 112) | 1, 50001)),
    ] {
        let (address, from_source) = receive_address(&mut state, "http://127.0.0.1:9000", source);
        assert_eq!(address, "http://192.0.2.1:8080");
        assert!(from_source);
    }
    for advertised in ["http://127.0.0.1:invalid", "http://127.0.0.1:0"] {
        let (address, from_source) =
            receive_address(&mut state, advertised, Some(v4(192, 0, 2, 2, 50002)));
        assert_eq!(address, "http://192.0.2.1:8080");
        assert!(from_source);
    }
    let (address, from_source) = receive_address(
        &mut state,
        "http://127.0.0.1:9000",
        Some(v4(192, 0, 2, 2, 50003)),
    );
    assert_eq!(address, "http://192.0.2.2:9000");
    assert!(from_source);
}

#[test]
fn advertised_hostname_and_public_ip_urls_take_and_keep_precedence() {
    for advertised in [
        "https://gateway.example:9443/mesh",
        "https://192.0.2.1:9443",
    ] {
        let mut state = address_test_state(&["http://peer:8888"]);
        // A direct public advertisement also overrides a selected seed.
        receive_address(
            &mut state,
            "http://127.0.0.1:8080",
            Some(v4(192, 0, 2, 1, 50000)),
        );
        let (address, from_source) =
            receive_address(&mut state, advertised, Some(v4(192, 0, 2, 2, 50001)));
        assert_eq!(address, advertised);
        assert!(!from_source);
        let (address, from_source) = receive_address(
            &mut state,
            "http://127.0.0.1:9000",
            Some(v4(192, 0, 2, 3, 50002)),
        );
        assert_eq!(address, advertised);
        assert!(!from_source);
    }
}

#[test]
fn current_public_advertisement_promotes_an_inferred_address() {
    let mut state = address_test_state(&[]);
    receive_address(
        &mut state,
        "http://127.0.0.1:8080",
        Some(v4(192, 0, 2, 1, 50000)),
    );
    let (_, from_source) = receive_address(
        &mut state,
        "http://192.0.2.1:8080",
        Some(v4(192, 0, 2, 2, 50001)),
    );
    assert!(!from_source);
    let (address, from_source) = receive_address(
        &mut state,
        "http://127.0.0.1:9000",
        Some(v4(192, 0, 2, 3, 50002)),
    );
    assert_eq!(address, "http://192.0.2.1:8080");
    assert!(!from_source);
}

#[test]
fn configured_seeds_protect_hostname_and_matching_inferred_routes() {
    let mut state = address_test_state(&["https://peer:9443"]);
    for source in [v4(192, 0, 2, 1, 50000), v4(192, 0, 2, 2, 50001)] {
        let (address, from_source) =
            receive_address(&mut state, "http://127.0.0.1:8080", Some(source));
        assert_eq!(address, "https://peer:9443");
        assert!(!from_source);
    }
    // This seed's host is not the node ID. Once the derived URL matches it,
    // preserve the explicitly configured route rather than following ingress.
    let mut state = address_test_state(&["192.0.2.1:80/"]);
    receive_address(
        &mut state,
        "http://127.0.0.1:80",
        Some(v4(192, 0, 2, 1, 50000)),
    );
    let (address, from_source) = receive_address(
        &mut state,
        "http://127.0.0.1:9000",
        Some(v4(192, 0, 2, 2, 50001)),
    );
    assert_eq!(address, "http://192.0.2.1:80");
    assert!(!from_source);
}

#[test]
fn transitive_public_routes_are_not_mistaken_for_local_inference() {
    for address in ["https://gateway.example:9443", "https://192.0.2.1:9443"] {
        let mut state = address_test_state(&[]);
        process_gossip_message(
            &mut state.table,
            &state.config,
            LOCAL,
            GossipMessage {
                origin: peer_state_with_version("relay", LOCAL),
                known_peers: vec![PeerInfo {
                    node_id: "peer".into(),
                    address: address.into(),
                }],
            },
            Some(v4(192, 0, 2, 10, 50000)),
            NOW,
        );
        let (heard, from_source) = receive_address(
            &mut state,
            "http://127.0.0.1:8080",
            Some(v4(192, 0, 2, 2, 50001)),
        );
        assert_eq!(heard, address);
        assert!(!from_source);
    }
}

#[test]
fn seed_url_comparison_only_normalizes_equivalent_urls() {
    for (left, right) in [
        ("peer:80", "http://peer/"),
        ("HTTPS://PEER:443/mesh", "https://peer/mesh"),
        ("[2001:db8::1]:8080", "http://[2001:db8::1]:8080/"),
    ] {
        assert!(same_peer_url(left, right));
    }
    for right in [
        "https://peer:80/mesh",
        "http://peer:8080/mesh",
        "http://peer/other",
        "http://peer/mesh?token=value",
        "http://other/mesh",
    ] {
        assert!(!same_peer_url("http://peer/mesh", right));
    }
    assert!(!same_peer_url("http://[", "http://["));
}

#[test]
fn source_urls_use_listener_ports_and_standard_scheme_defaults() {
    for (advertised, expected) in [
        ("127.0.0.1:8080", "http://192.0.2.1:8080"),
        ("http://localhost", "http://192.0.2.1:80"),
        ("https://[::1]", "https://192.0.2.1:443"),
    ] {
        assert_eq!(
            source_peer_url(advertised, v4(192, 0, 2, 1, 50000)).as_deref(),
            Some(expected)
        );
    }
    assert_eq!(
        source_peer_url("http://[::1]:8080", v6(mapped(192, 0, 2, 1), 50000)).as_deref(),
        Some("http://192.0.2.1:8080")
    );
}

#[test]
fn only_web_addresses_are_peers() {
    assert_eq!(with_scheme("h:1"), "http://h:1");
    assert_eq!(with_scheme("https://h"), "https://h");
    let parts = parse_peer_url("HTTP://Example.COM:80/x").unwrap();
    assert_eq!(parts.text, "http://example.com/x");
    assert_eq!(parts.scheme, "http");
    assert_eq!(parts.port, Some(80));
    assert!(parse_peer_url("ftp://h/").is_none());
    assert!(parse_peer_url("http://[").is_none());
}

#[test]
fn a_rejected_version_changes_no_peer() {
    let mut config = minimal_node_config();
    config.cluster.version_mismatch_action = "reject_any".to_string();
    let mut table = PeerTable::new();
    let outcome = process_gossip_message(
        &mut table,
        &config,
        LOCAL,
        message(peer_state_with_version("p", "0.0.1")),
        None,
        NOW,
    );
    assert!(!outcome.accepted);
    assert!(outcome.log_mismatch);
    assert_eq!(table.peers.len(), 0);
    assert!(rejects_version("reject_any", "1.2.3", "1.2.4"));
    assert!(!rejects_version("reject_any", "1.2.3", "1.2.3"));
    assert!(rejects_version("reject_major", "1.2.3", "2.2.3"));
    assert!(!rejects_version("reject_major", "1.2.3", "1.9"));
    assert!(!rejects_version("warn", "1.2.3", "2.0.0"));
}

#[test]
fn a_node_never_hears_of_itself() {
    let config = minimal_node_config();
    let mut table = PeerTable::new();
    let msg = GossipMessage {
        origin: peer_state_with_version("p", LOCAL),
        known_peers: vec![
            PeerInfo {
                node_id: "node-local".into(),
                address: "http://me".into(),
            },
            PeerInfo {
                node_id: "p".into(),
                address: "http://elsewhere".into(),
            },
        ],
    };
    process_gossip_message(&mut table, &config, LOCAL, msg, None, NOW);
    assert_eq!(table.peers.len(), 1);
    let peer = table.peers.get("p").unwrap();
    assert_eq!(peer.address, "http://p");
    assert_eq!(peer.last_seen, NOW);
}

fn known(peers: &[(&str, &str)]) -> StringMap<PeerState> {
    let mut table = PeerTable::new();
    for (id, address) in peers {
        let mut state = peer_state_with_version(id, LOCAL);
        state.address = address.to_string();
        table.peers.insert(id.to_string(), state);
    }
    table.peers
}

#[test]
fn a_round_reaches_every_other_node_once() {
    let known = known(&[("a", "http://a:1"), ("b", "http://b:1")]);
    let targets = plan_gossip_round(
        &vec!["http://seed:1".to_string(), "http://a:1".to_string()],
        &vec!["http://me:1".to_string(), "http://found:1".to_string()],
        &known,
        "http://me:1",
    );
    let mut urls: Vec<&str> = targets.iter().map(|t| t.peer_url.as_str()).collect();
    urls.sort();
    assert_eq!(
        urls,
        vec!["http://a:1", "http://b:1", "http://found:1", "http://seed:1"]
    );
    let a = targets.iter().find(|t| t.peer_url == "http://a:1").unwrap();
    assert_eq!(a.expected_node_id.as_deref(), Some("a"));
    assert_eq!(a.breaker_key, "a");
    assert_eq!(a.url, "http://a:1/cluster/gossip");
    let seed = targets
        .iter()
        .find(|t| t.peer_url == "http://seed:1")
        .unwrap();
    assert_eq!(seed.expected_node_id, None);
    assert_eq!(seed.breaker_key, "http://seed:1");

    let mut told: Vec<String> = known_peers_info(&known)
        .into_iter()
        .map(|p| format!("{} {}", p.node_id, p.address))
        .collect();
    told.sort();
    assert_eq!(told, vec!["a http://a:1", "b http://b:1"]);
}

#[test]
fn gossip_succeeds_on_a_success_status_read_to_its_end() {
    assert!(gossip_succeeded(200, true));
    assert!(gossip_succeeded(204, true));
    assert!(!gossip_succeeded(200, false));
    assert!(!gossip_succeeded(403, true));
    assert!(!gossip_succeeded(199, true));
    assert!(!gossip_succeeded(300, true));
}

fn tls_config() -> NodeConfig {
    let mut config = minimal_node_config();
    config.cluster.noise.enabled = false;
    config.server_tls = Some(ServerTlsConfig {
        enabled: true,
        cert_path: "c".to_string(),
        key_path: "k".to_string(),
    });
    config.cluster_tls = Some(ClusterTlsConfig {
        enabled: true,
        ca_cert_path: "ca".to_string(),
        client_cert_path: "c".to_string(),
        client_key_path: "k".to_string(),
    });
    config
}

#[test]
fn gossip_is_authorised_by_its_transport() {
    // Noise guards the cluster: plain HTTP is refused.
    let config = minimal_node_config();
    let refusal = authorize_gossip(&config, None, "p").unwrap_err();
    assert!(matches!(refusal, GossipRefusal::NoiseRequired));
    assert_eq!(refusal.status(), 401);
    assert_eq!(refusal.message(), "Noise transport required for gossip");

    // Mutual TLS: a certificate whose name is the node's.
    let config = tls_config();
    assert!(matches!(
        authorize_gossip(&config, None, "p"),
        Err(GossipRefusal::MutualTlsRequired)
    ));
    let unknown = PeerIdentity {
        authenticated: false,
        node_id: Some("p".to_string()),
    };
    assert!(matches!(
        authorize_gossip(&config, Some(&unknown), "p"),
        Err(GossipRefusal::CertificateRequired)
    ));
    let anonymous = PeerIdentity {
        authenticated: true,
        node_id: None,
    };
    assert!(matches!(
        authorize_gossip(&config, Some(&anonymous), "p"),
        Err(GossipRefusal::CertificateWithoutName)
    ));
    let other = PeerIdentity {
        authenticated: true,
        node_id: Some("q".to_string()),
    };
    let refusal = authorize_gossip(&config, Some(&other), "p").unwrap_err();
    assert_eq!(
        refusal.message(),
        "Certificate CN 'q' does not match Node ID 'p'"
    );
    assert_eq!(refusal.status(), 403);
    let right = PeerIdentity {
        authenticated: true,
        node_id: Some("p".to_string()),
    };
    assert!(authorize_gossip(&config, Some(&right), "p").is_ok());

    // Neither: everybody may.
    let mut open = minimal_node_config();
    open.cluster.noise.enabled = false;
    assert!(authorize_gossip(&open, None, "p").is_ok());
}

#[test]
fn a_refused_message_leaves_no_trace() {
    let config = tls_config();
    let mut table = PeerTable::new();
    let msg = message(peer_state_with_version("p", "0.0.1"));
    assert!(handle_gossip(&mut table, &config, LOCAL, None, msg, None, NOW).is_err());
    assert_eq!(table.peers.len(), 0);
    assert_eq!(table.logged_peer_versions.len(), 0);
    let right = PeerIdentity {
        authenticated: true,
        node_id: Some("p".to_string()),
    };
    let msg = message(peer_state_with_version("p", "0.0.1"));
    let outcome =
        handle_gossip(&mut table, &config, LOCAL, Some(&right), msg, None, NOW).unwrap();
    assert!(outcome.accepted && outcome.log_mismatch);
    assert_eq!(table.peers.len(), 1);
}

#[test]
fn a_noise_peer_speaks_for_itself_alone() {
    let config = minimal_node_config();
    let mut table = PeerTable::new();
    let refused = handle_noise_gossip(
        &mut table,
        &config,
        LOCAL,
        "q",
        message(peer_state_with_version("p", LOCAL)),
        v4(10, 0, 0, 1, 5),
        NOW,
    );
    assert_eq!(refused, NoiseGossip::WrongNode);
    assert_eq!(refused.status(), 403);
    assert_eq!(refused.error(), Some("Peer node_id mismatch"));
    assert_eq!(table.peers.len(), 0);
    let handled = handle_noise_gossip(
        &mut table,
        &config,
        LOCAL,
        "p",
        message(peer_state_with_version("p", LOCAL)),
        v4(10, 0, 0, 1, 5),
        NOW,
    );
    assert_eq!(handled.status(), 200);
    assert_eq!(handled.error(), None);
    assert_eq!(table.peers.len(), 1);
}

#[test]
fn what_comes_of_gossip_is_noted_in_the_circuit() {
    let config = CircuitBreakerConfig {
        failure_threshold: 2,
        ..Default::default()
    };
    let told = Some(GossipAnswer { status: 204, drained: true });
    let broken = Some(GossipAnswer { status: 200, drained: false });
    let refused = Some(GossipAnswer { status: 500, drained: true });
    let mut breaker = CircuitBreaker::new(config.clone());
    assert!(!record_gossip_at(&mut breaker, "n", refused, false, 1));
    assert!(!record_gossip_at(&mut breaker, "n", told, false, 2));
    assert!(!record_gossip_at(&mut breaker, "n", broken, false, 3));
    assert_eq!(breaker.get_state("n"), CircuitState::Closed);
    assert!(!record_gossip_at(&mut breaker, "n", None, false, 4));
    assert_eq!(breaker.get_state("n"), CircuitState::Open);
    record_gossip(&mut breaker, "m", None, false);
    record_gossip(&mut breaker, "m", None, false);
    assert_eq!(breaker.get_state("m"), CircuitState::Open);

    let mut off = CircuitBreaker::new(CircuitBreakerConfig { enabled: false, ..config });
    assert!(!claim_gossip_probe_at(&mut off, "n", 1));
    record_gossip_at(&mut off, "n", None, false, 1);
    record_gossip_at(&mut off, "n", None, false, 2);
    assert_eq!(off.get_state("n"), CircuitState::Closed);
}

#[test]
fn gossip_drives_recovery_only_with_the_probe() {
    const MS: u64 = 1_000_000;
    let config = CircuitBreakerConfig {
        failure_threshold: 1,
        success_threshold: 2,
        open_duration_base_ms: 10,
        open_duration_max_ms: 10,
        half_open_probe_interval_ms: 1000,
        ..Default::default()
    };
    let told = Some(GossipAnswer { status: 200, drained: true });
    let mut breaker = CircuitBreaker::new(config);
    // A closed circuit has no probe to claim.
    assert!(!claim_gossip_probe_at(&mut breaker, "n", 0));
    assert!(!claim_gossip_probe(&mut breaker, "n"));
    record_gossip_at(&mut breaker, "n", None, false, MS);
    assert_eq!(breaker.get_state("n"), CircuitState::Open);
    // Nor has an open one while its backoff runs.
    assert!(!claim_gossip_probe_at(&mut breaker, "n", 2 * MS));

    // A request holds the probe, so gossip gets none, and its result changes nothing.
    assert!(breaker.should_allow_sync_at("n", 20 * MS));
    assert!(!claim_gossip_probe_at(&mut breaker, "n", 21 * MS));
    let before = breaker.circuit("n", 0);
    assert!(!record_gossip_at(&mut breaker, "n", told, false, 22 * MS));
    assert!(!record_gossip_at(&mut breaker, "n", None, false, 23 * MS));
    assert!(!record_gossip(&mut breaker, "n", told, false));
    assert_eq!(format!("{:?}", breaker.circuit("n", 0)), format!("{before:?}"));

    // With the probe two successes bring the peer back, and the second says so.
    assert!(claim_gossip_probe_at(&mut breaker, "n", 1100 * MS));
    assert!(!record_gossip_at(&mut breaker, "n", told, true, 1101 * MS));
    assert_eq!(breaker.get_state("n"), CircuitState::HalfOpen);
    assert!(record_gossip_at(&mut breaker, "n", told, true, 2200 * MS));
    assert_eq!(breaker.get_state("n"), CircuitState::Closed);

    // With the probe a failure opens a half-open circuit again.
    record_gossip_at(&mut breaker, "n", None, false, 3000 * MS);
    assert!(breaker.should_allow_at("n", 3100 * MS));
    assert_eq!(breaker.get_state("n"), CircuitState::HalfOpen);
    assert!(!record_gossip_at(&mut breaker, "n", None, true, 3101 * MS));
    assert_eq!(breaker.get_state("n"), CircuitState::Open);
    assert_eq!(breaker.circuit("n", 0).consecutive_opens, 2);
}

#[test]
fn a_node_gives_its_public_address_or_its_port() {
    let mut config = minimal_node_config();
    config.listen_addr = "0.0.0.0:8081".to_string();
    assert_eq!(own_address(&config), "http://127.0.0.1:8081");
    config.listen_addr = "[::]:90".to_string();
    assert_eq!(own_address(&config), "http://127.0.0.1:90");
    config.public_url = Some("https://node.example".to_string());
    assert_eq!(own_address(&config), "https://node.example");
}

#[test]
fn a_host_ends_before_port_path_query_and_fragment() {
    for url in [
        "http://node-b/mesh",
        "https://node-b:8080/mesh",
        "node-b?x=1:2",
        "http://node-b#top/a",
        "http://node-b/a:b",
        "node-b",
    ] {
        assert_eq!(extract_host_from_url(url), "node-b", "{url}");
        assert!(!is_loopback_address(url));
    }
    assert_eq!(extract_host_from_url("http://[fd00::1]:80/mesh"), "fd00::1");
    assert_eq!(extract_host_from_url("http:///mesh"), "");
    assert!(is_loopback_address("http://localhost/mesh"));
    assert!(is_loopback_address("http://127.0.0.1/mesh"));
    assert!(is_loopback_address("http://[::1]/mesh"));
    assert!(!is_loopback_address("http://node-b/localhost"));
}

#[test]
fn an_unreadable_message_over_noise_is_a_bad_request() {
    let (status, text) = unreadable_gossip("expected value");
    assert_eq!(status, 400);
    assert_eq!(text, "Invalid JSON: expected value");
}
