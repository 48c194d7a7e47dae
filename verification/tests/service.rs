use vertex_topology::nat_discovery::{AddressScope, Multiaddr};
use vertex_topology::primitives::{ChunkAddress, OverlayAddress};
use vertex_topology::routing::config::KademliaConfig;
use vertex_topology::service::{
    stored_peers, DialRound, HiveGossipConfig, NetworkAddrs, TopologyService,
    TopologyError, TopologyServiceConfig,
};
use vertex_topology::time::Duration;

fn addr_from_byte(byte: u8) -> OverlayAddress {
    OverlayAddress::with_first_byte(byte)
}

fn multiaddr(bare: u128) -> Multiaddr {
    Multiaddr { bare, p2p: None, scope: Some(AddressScope::Public), family: 1 }
}

fn no_addrs() -> NetworkAddrs {
    NetworkAddrs {
        bootnodes: Vec::new(),
        trusted_peers: Vec::new(),
        listen_addrs: Vec::new(),
        nat_addrs: Vec::new(),
        nat_auto: false,
    }
}

fn make_service(network: NetworkAddrs, config: TopologyServiceConfig) -> TopologyService {
    TopologyService::new(addr_from_byte(0x00), 31, network, 1, config, &[])
}

#[test]
fn test_topology_service_creation() {
    let service = make_service(no_addrs(), TopologyServiceConfig::default());

    assert_eq!(service.routing.depth(), 0);
    assert_eq!(service.routing.connected_peers.len(), 0);
    assert!(!service.is_shutdown());
}

#[test]
fn test_topology_handle_peer_queries() {
    let mut service = make_service(no_addrs(), TopologyServiceConfig::default());

    let peer1 = addr_from_byte(0x80);
    let peer2 = addr_from_byte(0x40);

    service.routing.add_peers(&[peer1, peer2]);
    assert_eq!(service.routing.known_peers.len(), 2);

    service.routing.connected(peer1);
    assert_eq!(service.routing.connected_peers.len(), 1);
    assert!(service.routing.connected_peers.contains(&peer1));
}

#[test]
fn test_topology_service_shutdown() {
    let mut service = make_service(no_addrs(), TopologyServiceConfig::default());

    assert!(!service.is_shutdown());
    service.shutdown();
    assert!(service.is_shutdown());
}

#[test]
fn test_topology_service_config() {
    let config = TopologyServiceConfig::new()
        .with_kademlia(KademliaConfig::default().with_low_watermark(3))
        .with_gossip_enabled();

    assert!(config.gossip.is_some());
}

#[test]
fn test_config_flows_to_components() {
    let network = NetworkAddrs {
        bootnodes: vec![multiaddr(1)],
        trusted_peers: Vec::new(),
        listen_addrs: vec![multiaddr(2)],
        nat_addrs: Vec::new(),
        nat_auto: false,
    };
    let config =
        TopologyServiceConfig::new().with_kademlia(KademliaConfig::default().with_low_watermark(3));
    let service = make_service(network, config);

    assert!(service.has_bootnodes());
    assert_eq!(service.listen_addrs().len(), 1);
}

#[test]
fn test_routing_state_through_handle() {
    let mut service = make_service(no_addrs(), TopologyServiceConfig::default());

    let peer_po0 = addr_from_byte(0x80);
    let peer_po1 = addr_from_byte(0x40);
    let peer_po2 = addr_from_byte(0x20);

    service.routing.add_peers(&[peer_po0, peer_po1, peer_po2]);
    assert_eq!(service.routing.known_peers.len(), 3);

    service.routing.connected(peer_po0);
    service.routing.connected(peer_po1);

    assert_eq!(service.routing.connected_peers.len(), 2);
    assert_eq!(service.routing.known_peers.len(), 1);

    let bins = service.routing.bin_sizes();
    assert_eq!(bins[0].0, 1);
    assert_eq!(bins[1].0, 1);
    assert_eq!(bins[2].1, 1);

    let mut target_bytes = [0x00u8; 32];
    target_bytes[0] = 0x81;
    let target = ChunkAddress::from(target_bytes);
    let closest = service.routing.closest_to(&target, 1);
    assert_eq!(closest.len(), 1);
    assert_eq!(closest[0], peer_po0);
}

#[test]
fn test_topology_service_config_all_options() {
    let config = TopologyServiceConfig::new()
        .with_kademlia(
            KademliaConfig::default()
                .with_low_watermark(2)
                .with_high_watermark(16)
                .with_saturation_peers(4),
        )
        .with_dial_interval(Duration::from_secs(10))
        .with_gossip_enabled();

    assert_eq!(config.dial_interval, Some(Duration::from_secs(10)));
    assert!(config.gossip.is_some());
    assert_eq!(config.kademlia.low_watermark, 2);
    assert_eq!(config.kademlia.high_watermark, 16);
}

#[test]
fn test_topology_service_config_with_custom_gossip() {
    let gossip_config = HiveGossipConfig::default()
        .with_refresh_interval(Duration::from_secs(300))
        .with_max_peers_for_distant(8);

    let config = TopologyServiceConfig::new().with_gossip(gossip_config);

    assert!(config.gossip.is_some());
    let gossip = config.gossip.unwrap();
    assert_eq!(gossip.refresh_interval, Duration::from_secs(300));
    assert_eq!(gossip.max_peers_for_distant, 8);
}

#[test]
fn a_bootnode_round_stops_when_enough_are_connected() {
    let targets = vec![multiaddr(1), multiaddr(2), multiaddr(3)];
    let mut round = DialRound::new(targets, Some(1));
    assert_eq!(round.next_target(), Some(multiaddr(1)));
    round.on_dialed(false);
    assert_eq!(round.next_target(), Some(multiaddr(2)));
    round.on_dialed(true);
    assert_eq!(round.next_target(), None);
    assert_eq!(round.connected(), 1);
}

#[test]
fn a_trusted_round_dials_every_peer() {
    let network = NetworkAddrs {
        bootnodes: Vec::new(),
        trusted_peers: vec![multiaddr(1), multiaddr(2)],
        listen_addrs: Vec::new(),
        nat_addrs: Vec::new(),
        nat_auto: false,
    };
    let service = make_service(network, TopologyServiceConfig::default());
    assert!(service.has_trusted_peers());
    assert_eq!(service.trusted_peers().len(), 2);
    let mut round = service.connect_trusted_peers();
    assert_eq!(round.next_target(), Some(multiaddr(1)));
    round.on_dialed(true);
    assert_eq!(round.next_target(), Some(multiaddr(2)));
    round.on_dialed(true);
    assert_eq!(round.next_target(), None);
    assert_eq!(round.connected(), 2);
}

#[test]
fn the_peer_store_fails_by_step() {
    let peer = addr_from_byte(0x80);
    assert!(matches!(
        stored_peers(None, Err(String::from("unused")), Err(String::from("unused"))),
        Ok(list) if list.is_empty()
    ));
    let path = Some(String::from("/data/peers"));
    assert!(matches!(
        stored_peers(path.clone(), Err(String::from("denied")), Ok(Vec::new())),
        Err(TopologyError::PeerStoreCreation { path, reason })
            if path == "/data/peers" && reason == "denied"
    ));
    assert!(matches!(
        stored_peers(path.clone(), Ok(()), Err(String::from("corrupt"))),
        Err(TopologyError::PeerStoreLoad { reason }) if reason == "corrupt"
    ));
    assert!(matches!(
        stored_peers(path, Ok(()), Ok(vec![peer])),
        Ok(list) if list == vec![peer]
    ));
}

#[test]
fn bootnodes_are_dialed_in_the_order_given() {
    let network = NetworkAddrs {
        bootnodes: vec![multiaddr(1), multiaddr(2)],
        trusted_peers: Vec::new(),
        listen_addrs: Vec::new(),
        nat_addrs: Vec::new(),
        nat_auto: false,
    };
    let service = make_service(network, TopologyServiceConfig::default());
    let mut round = service.connect_bootnodes(vec![multiaddr(2), multiaddr(1)]);
    assert_eq!(round.next_target(), Some(multiaddr(2)));
    round.on_dialed(true);
    // One connection suffices.
    assert_eq!(round.next_target(), None);
}
