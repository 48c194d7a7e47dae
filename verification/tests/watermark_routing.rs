use vertex_topology::primitives::{ChunkAddress, OverlayAddress};
use vertex_topology::routing::config::KademliaConfig;
use vertex_topology::routing::kademlia::KademliaRouting;

fn make_routing(base: OverlayAddress, config: KademliaConfig) -> KademliaRouting {
    KademliaRouting::new(base, 31, config)
}

#[test]
fn kademlia_test_routing_creation() {
    let base = OverlayAddress::with_first_byte(0x00);
    let config = KademliaConfig::default();
    let mut routing = make_routing(base, config);

    assert_eq!(routing.depth(), 0);
    assert_eq!(routing.connected_peers.len(), 0);
}

#[test]
fn kademlia_test_add_and_connect_peers() {
    let base = OverlayAddress::with_first_byte(0x00);
    let config = KademliaConfig::default();
    let mut routing = make_routing(base, config);

    let peer1 = OverlayAddress::with_first_byte(0x80);
    let peer2 = OverlayAddress::with_first_byte(0x40);

    routing.add_peers(&[peer1, peer2]);
    assert_eq!(routing.known_peers.len(), 2);
    assert_eq!(routing.connected_peers.len(), 0);

    routing.connected(peer1);
    assert_eq!(routing.known_peers.len(), 1);
    assert_eq!(routing.connected_peers.len(), 1);

    routing.connected(peer2);
    assert_eq!(routing.known_peers.len(), 0);
    assert_eq!(routing.connected_peers.len(), 2);
}

#[test]
fn kademlia_test_capacity_reserve_and_release() {
    let base = OverlayAddress::with_first_byte(0x00);
    let config = KademliaConfig::default().with_high_watermark(2);
    let mut routing = make_routing(base, config);

    let peer1 = OverlayAddress::with_first_byte(0x80); // po=0
    let peer2 = OverlayAddress::with_first_byte(0xc0); // po=0
    let peer3 = OverlayAddress::with_first_byte(0xa0); // po=0

    // First reserve succeeds
    assert!(routing.try_reserve_dial(&peer1, true));

    // Second reserve in same bin succeeds
    assert!(routing.try_reserve_dial(&peer2, true));

    // Third fails (at capacity)
    assert!(!routing.try_reserve_dial(&peer3, true));

    // Release one
    routing.release_dial(&peer1);

    // Now third succeeds
    assert!(routing.try_reserve_dial(&peer3, true));
}

#[test]
fn kademlia_test_capacity_state_transitions() {
    let base = OverlayAddress::with_first_byte(0x00);
    let config = KademliaConfig::default().with_high_watermark(2);
    let mut routing = make_routing(base, config);

    let peer = OverlayAddress::with_first_byte(0x80); // po=0

    // Reserve dial
    assert!(routing.try_reserve_dial(&peer, true));
    assert_eq!(routing.effective_count(0), 1);

    // Transition to handshaking
    routing.dial_connected(&peer);
    assert_eq!(routing.effective_count(0), 1);

    // Transition to active
    routing.handshake_completed(&peer);
    assert_eq!(routing.effective_count(0), 1);
    assert_eq!(routing.capacity.counts[0].active, 1);

    // Disconnect
    routing.disconnected(&peer);
    assert_eq!(routing.effective_count(0), 0);
}

#[test]
fn test_should_accept_peer() {
    let base = OverlayAddress::with_first_byte(0x00);
    let config = KademliaConfig::default().with_high_watermark(2);
    let mut routing = make_routing(base, config);

    let peer1 = OverlayAddress::with_first_byte(0x80);
    let peer2 = OverlayAddress::with_first_byte(0xc0);
    let peer3 = OverlayAddress::with_first_byte(0xa0);

    assert!(routing.should_accept_peer(&peer1, true));

    // Reserve and activate peer1
    routing.try_reserve_dial(&peer1, true);
    routing.dial_connected(&peer1);
    routing.handshake_completed(&peer1);

    assert!(routing.should_accept_peer(&peer2, true));

    // Reserve and activate peer2
    routing.try_reserve_dial(&peer2, true);
    routing.dial_connected(&peer2);
    routing.handshake_completed(&peer2);

    // At capacity
    assert!(!routing.should_accept_peer(&peer3, true));
}

#[test]
fn kademlia_test_disconnect_and_reconnect() {
    let base = OverlayAddress::with_first_byte(0x00);
    let config = KademliaConfig::default();
    let mut routing = make_routing(base, config);

    let peer = OverlayAddress::with_first_byte(0x80);

    routing.add_peers(&[peer]);
    routing.connected(peer);
    assert!(routing.connected_peers.contains(&peer));
    assert!(!routing.known_peers.contains(&peer));

    routing.on_peer_disconnected(&peer);
    assert!(!routing.connected_peers.contains(&peer));
    assert!(routing.known_peers.contains(&peer));
}

#[test]
fn test_depth_calculation() {
    let base = OverlayAddress::with_first_byte(0x00);
    let config = KademliaConfig::default().with_low_watermark(2);
    let mut routing = make_routing(base, config);

    assert_eq!(routing.depth(), 0);

    let mut peer_bytes1 = [0x00u8; 32];
    peer_bytes1[0] = 0x04;
    let peer1 = OverlayAddress::from(peer_bytes1);

    let mut peer_bytes2 = [0x00u8; 32];
    peer_bytes2[0] = 0x05;
    let peer2 = OverlayAddress::from(peer_bytes2);

    routing.connected(peer1);
    routing.connected(peer2);

    assert_eq!(routing.depth(), 5);
}

#[test]
fn kademlia_test_closest_to() {
    let base = OverlayAddress::with_first_byte(0x00);
    let config = KademliaConfig::default();
    let mut routing = make_routing(base, config);

    let peer_po0 = OverlayAddress::with_first_byte(0x80);
    let peer_po1 = OverlayAddress::with_first_byte(0x40);
    let peer_po2 = OverlayAddress::with_first_byte(0x20);

    routing.connected(peer_po0);
    routing.connected(peer_po1);
    routing.connected(peer_po2);

    let mut target_bytes = [0x00u8; 32];
    target_bytes[0] = 0x21;
    let target = ChunkAddress::from(target_bytes);

    let closest = routing.closest_to(&target, 2);
    assert_eq!(closest.len(), 2);
    assert_eq!(closest[0], peer_po2);
}

#[test]
fn kademlia_test_neighbors() {
    let base = OverlayAddress::with_first_byte(0x00);
    let config = KademliaConfig::default().with_low_watermark(1);
    let mut routing = make_routing(base, config);

    let peer_po0 = OverlayAddress::with_first_byte(0x80);
    let peer_po1 = OverlayAddress::with_first_byte(0x40);
    let peer_po5 = {
        let mut bytes = [0x00u8; 32];
        bytes[0] = 0x04;
        OverlayAddress::from(bytes)
    };

    routing.connected(peer_po0);
    routing.connected(peer_po1);
    routing.connected(peer_po5);

    let neighbors_d0 = routing.neighbors(0);
    assert_eq!(neighbors_d0.len(), 3);

    let neighbors_d2 = routing.neighbors(2);
    assert_eq!(neighbors_d2.len(), 1);
    assert_eq!(neighbors_d2[0], peer_po5);
}

#[test]
fn kademlia_test_inbound_capacity() {
    let base = OverlayAddress::with_first_byte(0x00);
    let config = KademliaConfig::default().with_high_watermark(2);
    let mut routing = make_routing(base, config);

    let peer1 = OverlayAddress::with_first_byte(0x80);
    let peer2 = OverlayAddress::with_first_byte(0xc0);
    let peer3 = OverlayAddress::with_first_byte(0xa0);

    // Can accept first inbound
    assert!(routing.should_accept_inbound(&peer1, true));
    routing.reserve_inbound(&peer1);

    // Can accept second inbound
    assert!(routing.should_accept_inbound(&peer2, true));
    routing.reserve_inbound(&peer2);

    // At capacity
    assert!(!routing.should_accept_inbound(&peer3, true));

    // Complete one handshake
    routing.handshake_completed(&peer1);

    // Still at capacity (peer1 now active)
    assert!(!routing.should_accept_inbound(&peer3, true));

    // Disconnect peer1
    routing.disconnected(&peer1);

    // Now can accept
    assert!(routing.should_accept_inbound(&peer3, true));
}
