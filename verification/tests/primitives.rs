use nectar_primitives::SwarmAddress;
use vertex_topology::error::Error;
use vertex_topology::kademlia::eviction::eviction_rank;
use vertex_topology::primitives::{
    Bin, NeighborhoodDepth, OverlayAddress, PeerId, SwarmNodeType, MAX_PO,
};
use vertex_topology::reachability::PeerReachability;
use vertex_topology::time::{Duration, Instant};

fn flipped(bit: usize) -> OverlayAddress {
    let mut bytes = [0u8; 32];
    bytes[bit / 8] = 0x80 >> (bit % 8);
    OverlayAddress::from(bytes)
}

#[test]
fn proximity_is_the_shared_prefix_up_to_the_deepest_bin() {
    let base = OverlayAddress::zero();
    for bit in 0..40usize {
        let po = base.proximity(&flipped(bit));
        assert_eq!(po as usize, bit.min(MAX_PO as usize));
        assert_eq!(po, flipped(bit).proximity(&base));
    }
    assert_eq!(base.proximity(&base), MAX_PO);
}

#[test]
fn proximity_agrees_with_the_address_crate() {
    for (a, b) in [([0u8; 32], [0x01; 32]), ([0xaa; 32], [0xab; 32]), ([7; 32], [7; 32])] {
        let ours = OverlayAddress::from(a).proximity(&OverlayAddress::from(b));
        let theirs = SwarmAddress::from(a).proximity(&SwarmAddress::from(b));
        assert_eq!(ours, theirs.get());
    }
}

#[test]
fn closeness_is_by_distance() {
    let target = OverlayAddress::with_first_byte(0x81);
    let near = OverlayAddress::with_first_byte(0x80);
    let far = OverlayAddress::with_first_byte(0x40);
    assert!(target.is_closer(&near, &far));
    assert!(!target.is_closer(&far, &near));
    assert!(!target.is_closer(&near, &near));
}

#[test]
fn bytes_and_text_give_the_address_back() {
    let mut bytes = [0u8; 32];
    for (i, byte) in bytes.iter_mut().enumerate() {
        *byte = i as u8;
    }
    let address = OverlayAddress::new(bytes);
    assert_eq!(address.to_bytes(), bytes);
    assert_eq!(
        address.to_hex(),
        "000102030405060708090a0b0c0d0e0f101112131415161718191a1b1c1d1e1f"
    );
    assert!(OverlayAddress::zero().precedes(&address));
    assert!(!address.precedes(&address));
}

#[test]
fn bins_end_at_the_deepest_one() {
    assert_eq!(Bin::new(31).map(|bin| bin.get()), Some(31));
    assert!(Bin::new(32).is_none());
    assert_eq!(Bin::clamped(200).get(), 31);
    let depth = NeighborhoodDepth::new(Bin::clamped(4));
    assert!(depth.contains(Bin::clamped(4)));
    assert!(!depth.contains(Bin::clamped(3)));
}

#[test]
fn peer_ids_keep_their_bytes_apart() {
    let short = PeerId::from_bytes(&[1]).expect("one byte fits");
    let padded = PeerId::from_bytes(&[1, 0]).expect("two bytes fit");
    assert_ne!(short, padded);
    assert!(short.precedes(&padded));
    assert!(PeerId::from_bytes(&[0; 49]).is_none());
}

#[test]
fn only_storers_store() {
    assert!(SwarmNodeType::Storer.requires_storage());
    assert!(!SwarmNodeType::Client.requires_storage());
    assert!(!SwarmNodeType::Bootnode.requires_storage());
}

#[test]
fn spans_saturate_at_their_start() {
    let earlier = Instant { nanos: 5 };
    let later = earlier.plus(Duration::from_millis(2));
    assert_eq!(later.duration_since(earlier), Duration::from_millis(2));
    assert!(earlier.duration_since(later).is_zero());
    assert_eq!(Duration::from_secs(3).as_millis(), 3_000);
}

#[test]
fn reachability_outranks_locality_in_evictions() {
    let remote_reachable = eviction_rank(PeerReachability::Reachable, false);
    let local_unknown = eviction_rank(PeerReachability::Unknown, true);
    let remote_unknown = eviction_rank(PeerReachability::Unknown, false);
    assert!(remote_unknown < local_unknown);
    assert!(local_unknown < remote_reachable);
}

#[test]
fn errors_keep_their_text() {
    assert!(matches!(Error::chunk("bad"), Error::Chunk(text) if text == "bad"));
    assert!(matches!(Error::storage("full"), Error::Storage(text) if text == "full"));
    assert!(matches!(Error::network("down"), Error::Network(text) if text == "down"));
}
