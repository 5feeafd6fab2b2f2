//! Discovered peers, mDNS services and the endpoints chosen for them.

use llamesh::circuit_breaker::CircuitBreakerConfig;
use llamesh::config::{ClusterConfig, ClusterNoiseConfig, DiscoveryConfig};
use llamesh::discovery::{
    announce_on, fresh_service_hostname, normalize_service_type, peer_endpoint,
    replace_service_peer, resolved_peer, service_hostname, AnnounceOn, DiscoveredPeer, Discovery,
    PeerSet,
};
use llamesh::net::IpAddress;
use llamesh::string_map::StringMap;
use std::collections::HashSet;

const SERVICE_TYPE: &str = "_llama-mesh._tcp.local.";
const FULLNAME: &str = "node1._llama-mesh._tcp.local.";

#[test]
fn test_discovered_peer_equality() {
    let peer1 = DiscoveredPeer {
        node_id: "node1".to_string(),
        cluster_addr: "127.0.0.1:8080".to_string(),
        public_key: Some("key1".to_string()),
    };
    let peer2 = DiscoveredPeer {
        node_id: "node1".to_string(),
        cluster_addr: "127.0.0.1:8080".to_string(),
        public_key: Some("key1".to_string()),
    };
    assert_eq!(peer1, peer2);
}

#[test]
fn test_discovered_peer_inequality() {
    let peer1 = DiscoveredPeer {
        node_id: "node1".to_string(),
        cluster_addr: "127.0.0.1:8080".to_string(),
        public_key: None,
    };
    let peer2 = DiscoveredPeer {
        node_id: "node2".to_string(),
        cluster_addr: "127.0.0.1:8080".to_string(),
        public_key: None,
    };
    assert_ne!(peer1, peer2);
}

#[test]
fn test_discovered_peer_hash() {
    let peer1 = DiscoveredPeer {
        node_id: "node1".to_string(),
        cluster_addr: "127.0.0.1:8080".to_string(),
        public_key: None,
    };
    let peer2 = peer1.clone();
    let (peer3, peer4) = (peer1.clone(), peer1.clone());

    let mut set = HashSet::new();
    set.insert(peer1);
    // Inserting duplicate should not increase size
    set.insert(peer2);
    assert_eq!(set.len(), 1);

    let mut peers = PeerSet::new();
    peers.insert(peer3);
    peers.insert(peer4);
    assert_eq!(peers.len(), 1);
}

#[test]
fn test_discovered_peer_clone() {
    let peer = DiscoveredPeer {
        node_id: "node1".to_string(),
        cluster_addr: "127.0.0.1:8080".to_string(),
        public_key: Some("pubkey".to_string()),
    };
    let cloned = peer.clone();
    assert_eq!(peer.node_id, cloned.node_id);
    assert_eq!(peer.cluster_addr, cloned.cluster_addr);
    assert_eq!(peer.public_key, cloned.public_key);
}

#[test]
fn test_discovered_peer_debug() {
    let peer = DiscoveredPeer {
        node_id: "test-node".to_string(),
        cluster_addr: "10.0.0.1:9000".to_string(),
        public_key: Some("abc123".to_string()),
    };
    let debug_str = format!("{peer:?}");
    assert!(debug_str.contains("test-node"));
    assert!(debug_str.contains("10.0.0.1:9000"));
    assert!(debug_str.contains("abc123"));
}

#[test]
fn test_discovered_peer_hashset_operations() {
    let peer1 = DiscoveredPeer {
        node_id: "node1".to_string(),
        cluster_addr: "127.0.0.1:8080".to_string(),
        public_key: None,
    };
    let peer2 = DiscoveredPeer {
        node_id: "node2".to_string(),
        cluster_addr: "127.0.0.1:8081".to_string(),
        public_key: Some("key2".to_string()),
    };

    let mut set: HashSet<DiscoveredPeer> = HashSet::new();
    set.insert(peer1.clone());
    set.insert(peer2.clone());
    assert_eq!(set.len(), 2);
    set.retain(|p| p.node_id != "node1");
    assert_eq!(set.len(), 1);
    assert!(set.contains(&peer2));

    let mut peers = PeerSet::new();
    peers.insert(peer1.clone());
    peers.insert(peer2.clone());
    assert_eq!(peers.len(), 2);

    peers.remove_node("node1");
    assert_eq!(peers.len(), 1);
    assert!(peers.contains(&peer2));
    assert!(!peers.contains(&peer1));
}

#[test]
fn test_discovered_peer_public_key_none() {
    let peer = DiscoveredPeer {
        node_id: "node".to_string(),
        cluster_addr: "addr".to_string(),
        public_key: None,
    };
    assert!(peer.public_key.is_none());
}

fn v4(a: u8, b: u8, c: u8, d: u8) -> IpAddress {
    IpAddress::V4(u32::from_be_bytes([a, b, c, d]))
}

/// An IPv6 address with the given first and last group and zeros between.
fn v6(first: u16, last: u16) -> IpAddress {
    IpAddress::V6(((first as u128) << 112) | last as u128)
}

#[test]
fn endpoint_selection_is_stable_and_url_compatible() {
    for (ips, expected) in [
        (
            vec![v6(0xfd00, 1), v4(192, 0, 2, 2), v4(192, 0, 2, 1)],
            Some("192.0.2.1:8080"),
        ),
        (
            vec![v6(0xfe80, 1), v6(0xfd00, 2), v6(0xfd00, 1)],
            Some("[fd00::1]:8080"),
        ),
        (
            vec![
                v6(0xfe80, 1),
                v4(127, 0, 0, 1),
                v6(0, 1),
                v4(0, 0, 0, 0),
                v6(0, 0),
                v6(0xff02, 1),
                v4(224, 0, 0, 251),
            ],
            None,
        ),
    ] {
        let mut backwards = ips.clone();
        backwards.reverse();
        for addresses in [ips, backwards] {
            let endpoint = peer_endpoint(&addresses, 8080).map(|addr| addr.to_text());
            assert_eq!(endpoint.as_deref(), expected);
            if let Some(endpoint) = endpoint {
                let url = reqwest::Url::parse(&format!("http://{endpoint}")).unwrap();
                assert_eq!(url.port(), Some(8080));
            }
        }
    }
}

fn peer(node_id: &str) -> DiscoveredPeer {
    DiscoveredPeer {
        node_id: node_id.to_string(),
        cluster_addr: format!("{node_id}:8080"),
        public_key: None,
    }
}

fn as_set(peers: &PeerSet) -> HashSet<DiscoveredPeer> {
    let set: HashSet<DiscoveredPeer> = peers.items.iter().cloned().collect();
    assert_eq!(set.len(), peers.len());
    set
}

#[test]
fn removing_either_service_preserves_the_same_nodes_other_endpoint() {
    let mut second = peer("node1");
    second.cluster_addr = "192.0.2.2:9000".into();
    let contributions = [
        (FULLNAME.to_string(), peer("node1")),
        (format!("renamed.{SERVICE_TYPE}"), second),
    ];

    for reverse_order in [false, true] {
        for removed in 0..2 {
            let mut services = StringMap::new();
            let mut peers = PeerSet::new();
            for index in if reverse_order { [1, 0] } else { [0, 1] } {
                let (name, peer) = &contributions[index];
                replace_service_peer(&mut services, &mut peers, name, Some(peer.clone()));
            }
            assert_eq!(as_set(&peers), HashSet::from([contributions[0].1.clone()]));
            replace_service_peer(&mut services, &mut peers, &contributions[removed].0, None);
            assert_eq!(
                as_set(&peers),
                HashSet::from([contributions[1 - removed].1.clone()])
            );
            replace_service_peer(
                &mut services,
                &mut peers,
                &contributions[1 - removed].0,
                None,
            );
            assert!(as_set(&peers).is_empty());
        }
    }
}

#[test]
fn service_updates_reconcile_old_and_new_txt_identities() {
    let mut services = StringMap::new();
    let mut peers = PeerSet::new();
    let alias = format!("renamed.{SERVICE_TYPE}");
    replace_service_peer(&mut services, &mut peers, FULLNAME, Some(peer("node1")));
    replace_service_peer(&mut services, &mut peers, &alias, Some(peer("node1")));
    replace_service_peer(&mut services, &mut peers, FULLNAME, Some(peer("node2")));
    assert_eq!(as_set(&peers), HashSet::from([peer("node1"), peer("node2")]));
    replace_service_peer(&mut services, &mut peers, &alias, None);
    assert_eq!(as_set(&peers), HashSet::from([peer("node2")]));
}

#[test]
fn removals_preserve_unrelated_and_explicit_peers() {
    let mut services = StringMap::new();
    let mut peers = PeerSet::new();
    for name in [
        "node",
        "tcp",
        "local",
        "llama",
        "mesh",
        "_tcp",
        "other",
        "explicit:192.0.2.1:8080",
    ] {
        peers.insert(peer(name));
    }
    let unaffected = as_set(&peers);
    assert_eq!(unaffected.len(), 8);
    replace_service_peer(&mut services, &mut peers, FULLNAME, Some(peer("node1")));
    // DNS name case and the trailing root dot do not change ownership.
    replace_service_peer(
        &mut services,
        &mut peers,
        "NODE1._llama-mesh._tcp.local",
        None,
    );
    assert_eq!(as_set(&peers), unaffected);
    for name in ["other", "explicit:192.0.2.1:8080"] {
        replace_service_peer(
            &mut services,
            &mut peers,
            &format!("{name}.{SERVICE_TYPE}"),
            None,
        );
    }
    assert_eq!(as_set(&peers), unaffected, "unknown services own no peers");
}

#[test]
fn removal_supports_fullname_fallback_identity() {
    let mut services = StringMap::new();
    let mut peers = PeerSet::new();
    replace_service_peer(&mut services, &mut peers, FULLNAME, Some(peer(FULLNAME)));
    assert_eq!(as_set(&peers), HashSet::from([peer(FULLNAME)]));
    replace_service_peer(&mut services, &mut peers, FULLNAME, None);
    assert!(as_set(&peers).is_empty());
}

fn cluster_config(peers: &[&str]) -> ClusterConfig {
    ClusterConfig {
        enabled: true,
        peers: peers.iter().map(|p| p.to_string()).collect(),
        gossip_interval_seconds: 5,
        max_concurrent_gossip: 16,
        discovery: DiscoveryConfig::default(),
        noise: ClusterNoiseConfig::default(),
        circuit_breaker: CircuitBreakerConfig::default(),
        version_mismatch_action: "warn".to_string(),
    }
}

#[test]
fn configured_peers_are_known_from_the_start() {
    let mut discovery = Discovery::new(&cluster_config(&["a:1", "b:2", "a:1"]));
    assert_eq!(discovery.get_peer_addrs(), vec!["a:1", "b:2"]);
    assert_eq!(discovery.get_peers()[0].node_id, "explicit:a:1");
    assert_eq!(discovery.get_peers()[0].public_key, None);
    assert_eq!(discovery.explicit_peers, vec!["a:1", "b:2", "a:1"]);
    discovery.add_peer("c:3");
    discovery.add_peer("c:3");
    assert_eq!(discovery.get_peer_addrs(), vec!["a:1", "b:2", "c:3"]);
    discovery.remove_peer("a:1");
    assert_eq!(discovery.get_peer_addrs(), vec!["b:2", "c:3"]);
}

#[test]
fn a_service_comes_and_goes_beside_the_configured_peers() {
    let mut discovery = Discovery::new(&cluster_config(&["a:1"]));
    discovery.note_service(FULLNAME, Some(peer("node1")));
    assert_eq!(discovery.get_peer_addrs(), vec!["a:1", "node1:8080"]);
    discovery.note_service(FULLNAME, None);
    assert_eq!(discovery.get_peer_addrs(), vec!["a:1"]);
}

#[test]
fn one_endpoint_stands_for_a_node_with_two_services() {
    let mut services = StringMap::new();
    let mut peers = PeerSet::new();
    replace_service_peer(&mut services, &mut peers, "b.x", Some(peer("node1")));
    let mut other = peer("node1");
    other.cluster_addr = "elsewhere:1".to_string();
    replace_service_peer(&mut services, &mut peers, "a.x", Some(other.clone()));
    assert_eq!(as_set(&peers), HashSet::from([other]));
}

#[test]
fn a_resolved_service_becomes_a_peer() {
    let addresses = vec![v4(10, 0, 0, 7)];
    let found = resolved_peer("n", "me", &addresses, 90, Some("k".to_string())).unwrap();
    assert_eq!(found.node_id, "n");
    assert_eq!(found.cluster_addr, "10.0.0.7:90");
    assert_eq!(found.public_key.as_deref(), Some("k"));
    assert!(resolved_peer("me", "me", &addresses, 90, None).is_none());
    assert!(resolved_peer("n", "me", &vec![v4(127, 0, 0, 1)], 90, None).is_none());
    assert!(resolved_peer("n", "me", &vec![], 90, None).is_none());
}

#[test]
fn service_types_end_in_the_local_domain() {
    assert_eq!(normalize_service_type("_llama-mesh._tcp.local."), SERVICE_TYPE);
    assert_eq!(normalize_service_type("_llama-mesh._tcp.local"), SERVICE_TYPE);
    assert_eq!(normalize_service_type("_llama-mesh._tcp"), SERVICE_TYPE);
}

#[test]
fn an_unspecified_listener_is_announced_on_its_whole_family() {
    assert_eq!(announce_on(v4(0, 0, 0, 0)), AnnounceOn::AllV4);
    assert_eq!(announce_on(v6(0, 0)), AnnounceOn::AllV6);
    assert_eq!(
        announce_on(v4(10, 0, 0, 1)),
        AnnounceOn::Address(v4(10, 0, 0, 1))
    );
}

#[test]
fn host_names_are_built_from_fresh_identifiers() {
    assert_eq!(service_hostname("ABC"), "llamesh-abc.local.");
    let first = fresh_service_hostname();
    let second = fresh_service_hostname();
    assert_ne!(first, second);
    assert_eq!(first.len(), "llamesh-".len() + 26 + ".local.".len());
    assert!(first.starts_with("llamesh-") && first.ends_with(".local."));
    assert!(!first.chars().any(|c| c.is_ascii_uppercase()));
}

#[test]
fn the_order_of_events_of_two_services_plays_no_part() {
    let events = [
        (FULLNAME.to_string(), Some(peer("node1"))),
        (format!("node2.{SERVICE_TYPE}"), Some(peer("node2"))),
    ];
    let mut outcomes = Vec::new();
    for order in [[0, 1], [1, 0]] {
        let mut services = StringMap::new();
        let mut peers = PeerSet::new();
        for index in order {
            let (name, event) = &events[index];
            replace_service_peer(&mut services, &mut peers, name, event.clone());
        }
        outcomes.push(as_set(&peers));
    }
    assert_eq!(outcomes[0], outcomes[1]);
    assert_eq!(outcomes[0], HashSet::from([peer("node1"), peer("node2")]));
}
