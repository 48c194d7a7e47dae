use vertex_topology::primitives::OverlayAddress;
use vertex_topology::routing::pslice::PSlice;


/// Standard max_po for 256-bit addresses.
const TEST_MAX_PO: u8 = 31;

#[test]
fn test_pslice_add_remove() {
    let mut pslice = PSlice::new(TEST_MAX_PO);

    let peer1 = OverlayAddress::from([0x80; 32]);
    let peer2 = OverlayAddress::from([0x40; 32]);

    assert!(pslice.add(peer1, 0));
    assert!(!pslice.add(peer1, 0));
    assert!(pslice.add(peer2, 1));

    assert_eq!(pslice.len(), 2);
    assert!(pslice.contains(&peer1));
    assert!(pslice.contains(&peer2));

    assert!(pslice.remove(&peer1));
    assert!(!pslice.remove(&peer1));

    assert_eq!(pslice.len(), 1);
    assert!(!pslice.contains(&peer1));
    assert!(pslice.contains(&peer2));
}

#[test]
fn test_pslice_bin_size() {
    let mut pslice = PSlice::new(TEST_MAX_PO);

    let peer1 = OverlayAddress::from([0x80; 32]);
    let peer2 = OverlayAddress::from([0xc0; 32]);
    let peer3 = OverlayAddress::from([0x40; 32]);

    pslice.add(peer1, 0);
    pslice.add(peer2, 0);
    pslice.add(peer3, 1);

    assert_eq!(pslice.bin_size(0), 2);
    assert_eq!(pslice.bin_size(1), 1);
    assert_eq!(pslice.bin_size(2), 0);
}

#[test]
fn test_pslice_iter_by_proximity() {
    let mut pslice = PSlice::new(TEST_MAX_PO);

    let peer0 = OverlayAddress::from([0x80; 32]);
    let peer1 = OverlayAddress::from([0x40; 32]);
    let peer2 = OverlayAddress::from([0x20; 32]);

    pslice.add(peer2, 2);
    pslice.add(peer0, 0);
    pslice.add(peer1, 1);

    let collected = pslice.iter_by_proximity();
    assert_eq!(collected.len(), 3);
    assert_eq!(collected[0].0, 0);
    assert_eq!(collected[1].0, 1);
    assert_eq!(collected[2].0, 2);
}

#[test]
fn test_pslice_iter_by_proximity_desc() {
    let mut pslice = PSlice::new(TEST_MAX_PO);

    let peer0 = OverlayAddress::from([0x80; 32]);
    let peer1 = OverlayAddress::from([0x40; 32]);
    let peer2 = OverlayAddress::from([0x20; 32]);

    pslice.add(peer0, 0);
    pslice.add(peer1, 1);
    pslice.add(peer2, 2);

    let collected = pslice.iter_by_proximity_desc();
    assert_eq!(collected.len(), 3);
    assert_eq!(collected[0].0, 2);
    assert_eq!(collected[1].0, 1);
    assert_eq!(collected[2].0, 0);
}

#[test]
fn test_pslice_bin_sizes() {
    let mut pslice = PSlice::new(TEST_MAX_PO);

    let peer1 = OverlayAddress::from([0x80; 32]);
    let peer2 = OverlayAddress::from([0x40; 32]);
    let peer3 = OverlayAddress::from([0x20; 32]);

    pslice.add(peer1, 0);
    pslice.add(peer2, 1);
    pslice.add(peer3, 2);

    let sizes = pslice.bin_sizes();
    assert_eq!(sizes[0], 1);
    assert_eq!(sizes[1], 1);
    assert_eq!(sizes[2], 1);
    assert_eq!(sizes[3], 0);
}

#[test]
fn test_pslice_peers_in_bin() {
    let mut pslice = PSlice::new(TEST_MAX_PO);

    let peer1 = OverlayAddress::from([0x80; 32]);
    let peer2 = OverlayAddress::from([0xc0; 32]);
    let peer3 = OverlayAddress::from([0x40; 32]);

    pslice.add(peer1, 0);
    pslice.add(peer2, 0);
    pslice.add(peer3, 1);

    let bin0_peers = pslice.peers_in_bin(0);
    assert_eq!(bin0_peers.len(), 2);
    assert!(bin0_peers.contains(&peer1));
    assert!(bin0_peers.contains(&peer2));

    let bin1_peers = pslice.peers_in_bin(1);
    assert_eq!(bin1_peers.len(), 1);
    assert!(bin1_peers.contains(&peer3));
}

#[test]
fn test_pslice_cache_invalidation() {
    let mut pslice = PSlice::new(TEST_MAX_PO);

    let peer0 = OverlayAddress::from([0x80; 32]);
    let peer1 = OverlayAddress::from([0x40; 32]);

    pslice.add(peer0, 0);

    // First access builds the cache
    let list1 = pslice.iter_by_proximity();
    assert_eq!(list1.len(), 1);

    // Add another peer - should invalidate cache
    pslice.add(peer1, 1);

    // Should see both peers now
    let list2 = pslice.iter_by_proximity();
    assert_eq!(list2.len(), 2);

    // Remove a peer - should invalidate cache again
    pslice.remove(&peer0);

    let list3 = pslice.iter_by_proximity();
    assert_eq!(list3.len(), 1);
    assert_eq!(list3[0].1, peer1);
}

#[test]
fn test_pslice_cache_reuse() {
    let mut pslice = PSlice::new(TEST_MAX_PO);

    let peer0 = OverlayAddress::from([0x80; 32]);
    let peer1 = OverlayAddress::from([0x40; 32]);

    pslice.add(peer0, 0);
    pslice.add(peer1, 1);

    // Access multiple times without mutation - should reuse cache
    let gen_before = pslice.generation;

    let _list1 = pslice.iter_by_proximity();
    let _list2 = pslice.iter_by_proximity();
    let _list3 = pslice.iter_by_proximity_desc();

    let gen_after = pslice.generation;

    // Generation should not change from reads
    assert_eq!(gen_before, gen_after);
}

#[test]
fn a_peer_is_added_once_whatever_the_bin() {
    let mut pslice = PSlice::new(TEST_MAX_PO);
    let peer = OverlayAddress::from([0x80; 32]);

    assert!(pslice.add(peer, 0));
    assert!(!pslice.add(peer, 1));

    assert_eq!(pslice.len(), 1);
    assert_eq!(pslice.bin_size(0), 1);
    assert_eq!(pslice.bin_size(1), 0);

    assert!(pslice.remove(&peer));
    assert!(!pslice.contains(&peer));
    assert!(pslice.add(peer, 1));
    assert_eq!(pslice.peers_in_bin(1), vec![peer]);
}
