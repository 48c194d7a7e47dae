use vertex_topology::nat_discovery::{AddressScope, LocalAddressManager, Multiaddr};
use vertex_topology::primitives::PeerId;
use vertex_topology::reachability::{PeerReachability, ReachabilityTracker};
use vertex_topology::time::Instant;

/// The scope of an address by the prefixes that these tests use.
fn scope_of(text: &str) -> AddressScope {
    if text.starts_with("/ip4/127.") {
        AddressScope::Loopback
    } else if text.starts_with("/ip4/192.168.") || text.starts_with("/ip4/10.") {
        AddressScope::Private
    } else {
        AddressScope::Public
    }
}

/// An address from its text: the text itself, hashed, stands for the address.
fn parse_addr(text: &str) -> Multiaddr {
    let mut bare: u128 = 0xcbf2_9ce4_8422_2325;
    for byte in text.bytes() {
        bare = (bare ^ byte as u128).wrapping_mul(0x0000_0100_0000_01b3_0000_0100_0000_01b3);
    }
    Multiaddr {
        bare,
        p2p: None,
        scope: Some(scope_of(text)),
        family: if text.starts_with("/ip6/") { 0 } else { 1 },
    }
}

fn create_manager(nat_addrs: Vec<Multiaddr>) -> LocalAddressManager {
    LocalAddressManager::new(nat_addrs)
}

/// What the manager tells `peer` where no subnet rule holds an address back.
fn addresses_for(
    manager: &LocalAddressManager,
    listen: &[Multiaddr],
    peer: &Multiaddr,
) -> Vec<Multiaddr> {
    let admits = vec![true; manager.confirmed_external_addrs.len()];
    manager
        .addresses_for_peer(peer, &admits, listen)
        .iter()
        .map(|a| a.addr)
        .collect()
}

#[test]
fn test_is_reachable_with_nat() {
    let nat_addr = parse_addr("/ip4/203.0.113.50/tcp/1634");
    let mut manager = create_manager(vec![nat_addr]);

    assert!(manager.is_reachable(&[]));
}

#[test]
fn test_is_reachable_with_public_listen() {
    let mut listen: Vec<Multiaddr> = Vec::new();
    listen.push(parse_addr("/ip4/8.8.8.8/tcp/1634"));
    let mut manager = LocalAddressManager::new(vec![]);

    assert!(manager.is_reachable(&listen));
}

#[test]
fn test_is_reachable_none() {
    let mut listen: Vec<Multiaddr> = Vec::new();
    listen.push(parse_addr("/ip4/192.168.1.1/tcp/1634"));
    let mut manager = LocalAddressManager::new(vec![]);

    assert!(!manager.is_reachable(&listen));
}

#[test]
fn test_addresses_for_peer_includes_nat() {
    let mut listen: Vec<Multiaddr> = Vec::new();
    listen.push(parse_addr("/ip4/8.8.4.4/tcp/1634"));

    let nat_addr = parse_addr("/ip4/203.0.113.50/tcp/1634");
    let mut manager = LocalAddressManager::new(vec![nat_addr.clone()]);

    let public_peer = parse_addr("/ip4/8.8.8.8/tcp/5000");
    let addrs = addresses_for(&manager, &listen, &public_peer);

    // Should include listen address and NAT address
    assert!(addrs.contains(&parse_addr("/ip4/8.8.4.4/tcp/1634")));
    assert!(addrs.contains(&parse_addr("/ip4/203.0.113.50/tcp/1634")));
}

#[test]
fn test_nat_addrs_not_for_loopback() {
    let mut listen: Vec<Multiaddr> = Vec::new();
    listen.push(parse_addr("/ip4/127.0.0.1/tcp/1634"));

    let nat_addr = parse_addr("/ip4/203.0.113.50/tcp/1634");
    let mut manager = LocalAddressManager::new(vec![nat_addr.clone()]);

    let loopback_peer = parse_addr("/ip4/127.0.0.2/tcp/5000");
    let addrs = addresses_for(&manager, &listen, &loopback_peer);

    // Loopback peer should NOT see NAT address
    assert!(!addrs.contains(&parse_addr("/ip4/203.0.113.50/tcp/1634")));
    assert!(addrs.contains(&parse_addr("/ip4/127.0.0.1/tcp/1634")));
}

/// Index of an address in a list.
fn position_of(addrs: &[Multiaddr], text: &str) -> Option<usize> {
    addrs.iter().position(|a| *a == parse_addr(text))
}

#[test]
fn test_addresses_for_peer_includes_confirmed_external() {
    let mut listen: Vec<Multiaddr> = Vec::new();
    listen.push(parse_addr("/ip4/8.8.4.4/tcp/1634"));
    let mut manager = LocalAddressManager::new(vec![]);

    // A verified external address must be advertised to a public peer.
    manager.on_external_addr_confirmed(&parse_addr("/ip4/203.0.113.7/tcp/1634"));

    let public_peer = parse_addr("/ip4/8.8.8.8/tcp/5000");
    let addrs = addresses_for(&manager, &listen, &public_peer);

    assert!(addrs.contains(&parse_addr("/ip4/203.0.113.7/tcp/1634")));
    assert!(addrs.contains(&parse_addr("/ip4/8.8.4.4/tcp/1634")));
}

#[test]
fn test_addresses_for_peer_verified_first_then_ipv6_within_tier() {
    let mut listen: Vec<Multiaddr> = Vec::new();
    // Public listen addresses, both families.
    listen.push(parse_addr("/ip4/8.8.4.4/tcp/1634"));
    listen.push(parse_addr("/ip6/2606:4700:4700::1111/tcp/1634"));

    // Static NAT address (tier 3).
    let nat = parse_addr("/ip4/198.51.100.9/tcp/1634");
    let mut manager = LocalAddressManager::new(vec![nat]);

    // Verified external addresses (tier 1), both families.
    manager.on_external_addr_confirmed(&parse_addr("/ip4/203.0.113.7/tcp/1634"));
    manager.on_external_addr_confirmed(&parse_addr("/ip6/2001:db8::7/tcp/1634"));

    let public_peer = parse_addr("/ip4/8.8.8.8/tcp/5000");
    let addrs = addresses_for(&manager, &listen, &public_peer);

    // Tier ordering: verified before listen before NAT.
    let verified_v6 = position_of(&addrs, "/ip6/2001:db8::7/tcp/1634").unwrap();
    let verified_v4 = position_of(&addrs, "/ip4/203.0.113.7/tcp/1634").unwrap();
    let listen_v6 = position_of(&addrs, "/ip6/2606:4700:4700::1111/tcp/1634").unwrap();
    let listen_v4 = position_of(&addrs, "/ip4/8.8.4.4/tcp/1634").unwrap();
    let nat_v4 = position_of(&addrs, "/ip4/198.51.100.9/tcp/1634").unwrap();

    // Within tier 1: IPv6 before IPv4.
    assert!(verified_v6 < verified_v4);
    // Tier 1 entirely before tier 2.
    assert!(verified_v4 < listen_v6);
    // Within tier 2: IPv6 before IPv4.
    assert!(listen_v6 < listen_v4);
    // Tier 2 entirely before tier 3.
    assert!(listen_v4 < nat_v4);
}

#[test]
fn test_addresses_for_peer_ipv6_public_peer() {
    let mut listen: Vec<Multiaddr> = Vec::new();
    listen.push(parse_addr("/ip6/2606:4700:4700::1111/tcp/1634"));
    let mut manager = LocalAddressManager::new(vec![]);

    manager.on_external_addr_confirmed(&parse_addr("/ip6/2001:db8::7/tcp/1634"));

    let public_peer = parse_addr("/ip6/2001:4860:4860::8888/tcp/5000");
    let addrs = addresses_for(&manager, &listen, &public_peer);

    let verified = position_of(&addrs, "/ip6/2001:db8::7/tcp/1634").unwrap();
    let listen = position_of(&addrs, "/ip6/2606:4700:4700::1111/tcp/1634").unwrap();
    assert!(verified < listen);
}

#[test]
fn test_confirmed_external_not_leaked_to_loopback_peer() {
    let mut listen: Vec<Multiaddr> = Vec::new();
    listen.push(parse_addr("/ip4/127.0.0.1/tcp/1634"));
    let mut manager = LocalAddressManager::new(vec![]);

    manager.on_external_addr_confirmed(&parse_addr("/ip4/203.0.113.7/tcp/1634"));

    let loopback_peer = parse_addr("/ip4/127.0.0.2/tcp/5000");
    let addrs = addresses_for(&manager, &listen, &loopback_peer);

    // Loopback peer must not learn our public verified address.
    assert!(!addrs.contains(&parse_addr("/ip4/203.0.113.7/tcp/1634")));
    assert!(addrs.contains(&parse_addr("/ip4/127.0.0.1/tcp/1634")));
}

#[test]
fn test_confirmed_external_not_leaked_to_private_peer() {
    let mut listen: Vec<Multiaddr> = Vec::new();
    listen.push(parse_addr("/ip4/192.168.1.10/tcp/1634"));
    let mut manager = LocalAddressManager::new(vec![]);

    manager.on_external_addr_confirmed(&parse_addr("/ip4/203.0.113.7/tcp/1634"));

    // Private peer on a different subnet: public scope filter rejects the
    // verified address (advertise_filter same-subnet rule).
    let private_peer = parse_addr("/ip4/10.0.0.5/tcp/5000");
    let addrs = addresses_for(&manager, &listen, &private_peer);

    assert!(!addrs.contains(&parse_addr("/ip4/203.0.113.7/tcp/1634")));
}

#[test]
fn subnet_rules_hold_back_single_addresses() {
    let mut manager = LocalAddressManager::new(vec![]);
    let first = parse_addr("/ip4/203.0.113.7/tcp/1634");
    let second = parse_addr("/ip4/203.0.113.8/tcp/1634");
    manager.on_external_addr_confirmed(&first);
    manager.on_external_addr_confirmed(&second);

    let public_peer = parse_addr("/ip4/8.8.8.8/tcp/5000");
    let told = manager.addresses_for_peer(&public_peer, &[false, true], &[]);
    assert_eq!(told.len(), 1);
    assert_eq!(told[0].addr, second);

    // A peer whose address has no scope is told as much as a public one.
    let unknown_peer = Multiaddr { scope: None, ..public_peer };
    let told = manager.addresses_for_peer(&unknown_peer, &[true, true], &[]);
    assert_eq!(told.len(), 2);
}

#[test]
fn test_all_addresses_orders_verified_first_then_ipv6() {
    let mut listen: Vec<Multiaddr> = Vec::new();
    listen.push(parse_addr("/ip4/8.8.4.4/tcp/1634"));
    listen.push(parse_addr("/ip6/2606:4700:4700::1111/tcp/1634"));

    let nat = parse_addr("/ip4/198.51.100.9/tcp/1634");
    let mut manager = LocalAddressManager::new(vec![nat]);

    manager.on_external_addr_confirmed(&parse_addr("/ip6/2001:db8::7/tcp/1634"));

    let all = manager.all_addresses(&listen);

    let verified_v6 = position_of(&all, "/ip6/2001:db8::7/tcp/1634").unwrap();
    let listen_v6 = position_of(&all, "/ip6/2606:4700:4700::1111/tcp/1634").unwrap();
    let listen_v4 = position_of(&all, "/ip4/8.8.4.4/tcp/1634").unwrap();
    let nat_v4 = position_of(&all, "/ip4/198.51.100.9/tcp/1634").unwrap();

    // Verified tier first, listen tier IPv6-before-IPv4, NAT tier last.
    assert!(verified_v6 < listen_v6);
    assert!(listen_v6 < listen_v4);
    assert!(listen_v4 < nat_v4);
}

#[test]
fn test_all_addresses_deduplicates() {
    let mut listen: Vec<Multiaddr> = Vec::new();
    let addr = parse_addr("/ip4/8.8.8.8/tcp/1634");
    listen.push(addr.clone());

    // Add same addr as NAT (shouldn't duplicate)
    let mut manager = LocalAddressManager::new(vec![addr.clone()]);

    let all = manager.all_addresses(&listen);
    assert_eq!(all.len(), 1);
}

#[test]
fn test_with_peer_id_appends() {
    let mut manager = create_manager(vec![]);
    let peer_id = PeerId::from_bytes(&[1, 2, 3]).expect("three bytes fit");
    manager.register_local_peer_id(peer_id);

    let addr = parse_addr("/ip4/8.8.8.8/tcp/1634");
    let with_peer_id = manager.with_peer_id(vec![addr]);

    assert_eq!(with_peer_id.len(), 1);
    assert!(with_peer_id[0].peer_id == Some(peer_id));
}

#[test]
fn test_observed_public_address_enables_reachable() {
    // Start with no public addresses
    let mut listen: Vec<Multiaddr> = Vec::new();
    listen.push(parse_addr("/ip4/192.168.1.1/tcp/1634"));
    let mut manager = LocalAddressManager::new(vec![]);

    // Initially no reachability
    assert!(!manager.is_reachable(&listen));
    assert!(!manager.has_confirmed_reachability());

    // Simulate peer reporting our public address
    let observed = parse_addr("/ip4/91.189.35.149/tcp/1634");
    manager.on_observed_addr(&observed);

    // Now we have confirmed reachability
    assert!(manager.is_reachable(&listen));
    assert!(manager.has_confirmed_reachability());
}

#[test]
fn test_external_addr_confirmed_enables_public() {
    let mut listen: Vec<Multiaddr> = Vec::new();
    listen.push(parse_addr("/ip4/192.168.1.1/tcp/1634"));
    let mut manager = LocalAddressManager::new(vec![]);

    assert!(!manager.is_reachable(&listen));

    // A verified external address (AutoNAT v2 dial-back or UPnP) flips
    // reachability on.
    manager.on_external_addr_confirmed(&parse_addr("/ip4/203.0.113.7/tcp/1634"));

    assert!(manager.has_confirmed_reachability());
    assert!(manager.is_reachable(&listen));
}

#[test]
fn test_external_addr_confirmed_private_ignored() {
    let mut manager = create_manager(vec![]);
    manager.on_external_addr_confirmed(&parse_addr("/ip4/10.0.0.5/tcp/1634"));
    assert!(!manager.has_confirmed_reachability());
}

#[test]
fn test_external_addr_expiry_clears_verified_signal() {
    // A node whose only public path is a (UPnP) mapping must stop
    // reporting reachability once that mapping expires.
    let mut listen: Vec<Multiaddr> = Vec::new();
    listen.push(parse_addr("/ip4/192.168.1.1/tcp/1634"));
    let mut manager = LocalAddressManager::new(vec![]);

    let mapped = parse_addr("/ip4/203.0.113.7/tcp/1634");
    manager.on_external_addr_confirmed(&mapped);
    assert!(manager.is_reachable(&listen));

    manager.on_external_addr_expired(&mapped);
    assert!(!manager.has_confirmed_reachability());
    assert!(!manager.is_reachable(&listen));
}

#[test]
fn test_observed_signal_survives_external_addr_expiry() {
    // The weak observed signal is sticky and independent of the reversible
    // verified-address set.
    let mut manager = create_manager(vec![]);
    manager.on_observed_addr(&parse_addr("/ip4/91.189.35.149/tcp/1634"));
    let mapped = parse_addr("/ip4/203.0.113.7/tcp/1634");
    manager.on_external_addr_confirmed(&mapped);
    manager.on_external_addr_expired(&mapped);
    // Observed signal keeps us public.
    assert!(manager.has_confirmed_reachability());
}

#[test]
fn test_observed_private_address_ignored() {
    let mut manager = create_manager(vec![]);

    // Private address shouldn't enable reachability
    let private_observed = parse_addr("/ip4/192.168.1.100/tcp/1634");
    manager.on_observed_addr(&private_observed);

    assert!(!manager.is_reachable(&[]));
    assert!(!manager.has_confirmed_reachability());
}

#[test]
fn test_observed_address_with_peer_id_works() {
    let mut manager = create_manager(vec![]);
    let peer_id = PeerId::from_bytes(&[1, 2, 3]).expect("three bytes fit");

    // Observed address often includes /p2p/{peer_id} - should still work
    let observed_with_peer = Multiaddr {
        p2p: Some(peer_id),
        ..parse_addr("/ip4/91.189.35.149/tcp/1634")
    };
    manager.on_observed_addr(&observed_with_peer);

    assert!(manager.is_reachable(&[]));
    assert!(manager.has_confirmed_reachability());
}

#[test]
fn test_multiple_observations_idempotent() {
    let mut manager = create_manager(vec![]);

    let observed = parse_addr("/ip4/91.189.35.149/tcp/1634");
    manager.on_observed_addr(&observed);
    manager.on_observed_addr(&observed);
    manager.on_observed_addr(&observed);

    // Multiple observations still just mean we have reachability
    assert!(manager.is_reachable(&[]));
    assert!(manager.has_confirmed_reachability());
}

#[test]
fn an_identity_is_registered_once() {
    let mut manager = LocalAddressManager::disabled();
    let first = PeerId::from_bytes(&[1]).expect("one byte fits");
    let second = PeerId::from_bytes(&[2]).expect("one byte fits");
    assert_eq!(manager.local_peer_id(), None);
    assert!(manager.register_local_peer_id(first));
    assert!(!manager.register_local_peer_id(second));
    assert_eq!(manager.local_peer_id(), Some(first));
}

#[test]
fn confirming_twice_keeps_one_address_and_expiry_removes_it() {
    let mut manager = create_manager(vec![]);
    let addr = parse_addr("/ip4/203.0.113.7/tcp/1634");
    manager.on_external_addr_confirmed(&addr);
    manager.on_external_addr_confirmed(&addr);
    assert_eq!(manager.all_addresses(&[]), vec![addr]);
    manager.on_external_addr_expired(&addr);
    assert!(manager.all_addresses(&[]).is_empty());
}

#[test]
fn a_confirmed_peer_is_reachable_in_the_shared_tracker() {
    let peer = PeerId::from_bytes(&[9]).expect("one byte fits");
    let mut manager = LocalAddressManager::with_reachability(vec![], ReachabilityTracker::new());
    manager.on_autonat_peer_confirmed(peer, Instant { nanos: 5 });
    assert_eq!(manager.reachability().status(&peer), PeerReachability::Reachable);
}
