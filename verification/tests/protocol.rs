use vertex_topology::nat_discovery::{AddressScope, LocalAddressManager, Multiaddr};
use vertex_topology::primitives::OverlayAddress;
use vertex_topology::protocol::{
    finish_upgrade, inbound_protocols, upgrade_step, ProtocolNames, TopologyOutboundInfo,
    TopologyOutboundRequest, TopologyProtocol, TopologyUpgradeError, UpgradeResult, UpgradeStep,
};
use vertex_topology::time::Instant;

const NOW: Instant = Instant { nanos: 77 };

fn names() -> ProtocolNames {
    ProtocolNames {
        handshake: String::from("/swarm/handshake"),
        hive: String::from("/swarm/hive"),
        pingpong: String::from("/swarm/pingpong"),
    }
}

fn addr(bare: u128, scope: AddressScope) -> Multiaddr {
    Multiaddr { bare, p2p: None, scope: Some(scope), family: 1 }
}

#[test]
fn each_protocol_negotiates_by_its_name() {
    let names = names();
    for protocol in inbound_protocols() {
        let name = names.name(protocol).clone();
        assert!(matches!(names.inbound_protocol(&name), Ok(found) if found == protocol));
    }
    let unknown = String::from("/swarm/other");
    match names.inbound_protocol(&unknown) {
        Err(error) => assert_eq!(error.message(), "unknown protocol: /swarm/other"),
        Ok(protocol) => panic!("negotiated {protocol:?}"),
    }
}

#[test]
fn upgrade_errors_name_their_protocol() {
    let cause = || String::from("broken");
    assert_eq!(TopologyUpgradeError::Handshake(cause()).message(), "handshake error: broken");
    assert_eq!(TopologyUpgradeError::Hive(cause()).message(), "hive error: broken");
    assert_eq!(TopologyUpgradeError::Pingpong(cause()).message(), "pingpong error: broken");
}

#[test]
fn a_ping_notes_when_it_was_sent() {
    let ping = TopologyOutboundRequest::Pingpong(String::from("hello"));
    assert_eq!(ping.protocol(), TopologyProtocol::Pingpong);
    assert_eq!(ping.info(NOW), TopologyOutboundInfo::Pingpong { sent_at: NOW });
    let hive = TopologyOutboundRequest::Hive(vec![OverlayAddress::zero()]);
    assert_eq!(hive.protocol(), TopologyProtocol::Hive);
    assert_eq!(hive.info(NOW), TopologyOutboundInfo::Hive);
}

#[test]
fn a_handshake_advertises_what_the_peer_may_learn() {
    let nat = addr(1, AddressScope::Public);
    let manager = LocalAddressManager::new(vec![nat]);
    let listen = [addr(2, AddressScope::Public)];
    let remote = addr(3, AddressScope::Public);
    match upgrade_step(TopologyProtocol::Handshake, &manager, &remote, &[], &listen) {
        UpgradeStep::Handshake(addrs) => {
            assert_eq!(addrs.iter().map(|a| a.addr.bare).collect::<Vec<_>>(), vec![2, 1])
        }
        other => panic!("unexpected step {other:?}"),
    }
    assert!(matches!(
        upgrade_step(TopologyProtocol::Hive, &manager, &remote, &[], &listen),
        UpgradeStep::Hive
    ));
}

#[test]
fn a_finished_handshake_records_the_observed_address() {
    let mut manager = LocalAddressManager::new(vec![]);
    let observed = addr(9, AddressScope::Public);
    let outcome = finish_upgrade(
        TopologyProtocol::Handshake,
        &mut manager,
        UpgradeResult::Handshake(observed),
    );
    assert!(outcome.is_ok());
    assert!(manager.has_confirmed_reachability());
}

#[test]
fn a_failed_upgrade_carries_its_cause() {
    let mut manager = LocalAddressManager::new(vec![]);
    let outcome = finish_upgrade(
        TopologyProtocol::Pingpong,
        &mut manager,
        UpgradeResult::Failed(String::from("reset")),
    );
    match outcome {
        Err(error) => assert_eq!(error.message(), "pingpong error: reset"),
        Ok(result) => panic!("unexpected result {result:?}"),
    }
    assert!(!manager.has_confirmed_reachability());
}
