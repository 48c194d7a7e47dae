use std::collections::HashSet;
use vertex_topology::kademlia::nearest::nearest;
use vertex_topology::kademlia::peer_selection::{
    connected_clients, connected_neighbors, connected_storer_sample, known_neighborhood_peers,
    select_for_distant,
};
use vertex_topology::kademlia::peers::{PeerBook, PeerRecord};
use vertex_topology::primitives::{
    Bin, ChunkAddress, NeighborhoodDepth, OverlayAddress, SwarmNodeType,
};

fn test_overlay(n: u8) -> OverlayAddress {
    OverlayAddress::with_first_byte(n)
}

fn record(n: u8, node_type: SwarmNodeType) -> PeerRecord {
    PeerRecord {
        overlay: test_overlay(n),
        node_type: Some(node_type),
        score: 0,
        banned: false,
        in_backoff: false,
        addressed: true,
    }
}

fn book_with_peers() -> PeerBook {
    let mut book = PeerBook::new(test_overlay(0), 31);
    for n in 1..=10 {
        book.store(record(n, SwarmNodeType::Storer));
    }
    book
}

/// The per-bin sample orders candidates by XOR distance to the subject, so
/// two different subjects pick a different closest-first order over the same
/// candidate set.
#[test]
fn the_sample_order_rotates_with_the_subject() {
    let candidates = vec![test_overlay(0x11), test_overlay(0x22), test_overlay(0x44)];

    let for_a = nearest(&test_overlay(0x10), candidates.clone(), 3);
    let for_b = nearest(&test_overlay(0x44), candidates, 3);

    assert_ne!(for_a, for_b, "the closest-first order must depend on the subject");
    assert_eq!(
        for_b[0],
        test_overlay(0x44),
        "each subject leads with the candidate nearest to it"
    );
}

#[test]
fn test_connected_neighbors_empty_when_no_connections() {
    let book = book_with_peers();
    let neighbors =
        connected_neighbors(&test_overlay(0), &book, &Vec::new(), NeighborhoodDepth::zero());
    assert!(neighbors.is_empty());
}

#[test]
fn test_select_for_distant_no_duplicates() {
    let book = book_with_peers();
    let recipient = test_overlay(0xFF);

    let selected = select_for_distant(&test_overlay(0), &book, recipient);

    assert!(!selected.is_empty());
    let unique: HashSet<_> = selected.iter().map(|(p, _)| *p).collect();
    assert_eq!(unique.len(), selected.len());
    assert!(!unique.contains(&recipient));
}

#[test]
fn neighbors_are_the_connected_storers_at_or_past_the_depth() {
    let mut book = PeerBook::new(test_overlay(0), 31);
    book.store(record(0x80, SwarmNodeType::Storer));
    book.store(record(0x10, SwarmNodeType::Storer));
    book.store(record(0x08, SwarmNodeType::Client));
    let active = vec![test_overlay(0x80), test_overlay(0x10), test_overlay(0x08)];
    let depth = NeighborhoodDepth::new(Bin::new(3).expect("valid bin"));
    assert_eq!(
        connected_neighbors(&test_overlay(0), &book, &active, depth),
        vec![test_overlay(0x10)]
    );
    assert_eq!(connected_clients(&book, &active), vec![test_overlay(0x08)]);
    assert_eq!(known_neighborhood_peers(&book, depth, None), vec![test_overlay(0x10)]);
    assert!(known_neighborhood_peers(&book, depth, Some(test_overlay(0x10))).is_empty());
    book.store(PeerRecord { addressed: false, ..record(0x10, SwarmNodeType::Storer) });
    assert!(known_neighborhood_peers(&book, depth, None).is_empty());
}

#[test]
fn a_sample_takes_the_nearest_of_each_bin() {
    let mut book = PeerBook::new(test_overlay(0), 31);
    let active = vec![
        test_overlay(0x81),
        test_overlay(0x82),
        test_overlay(0xc0),
        test_overlay(0x40),
    ];
    for n in [0x81, 0x82, 0xc0, 0x40] {
        book.store(record(n, SwarmNodeType::Storer));
    }
    let sample = connected_storer_sample(
        &test_overlay(0),
        &book,
        &active,
        1,
        &test_overlay(0x40),
        &test_overlay(0xc1),
    );
    assert_eq!(sample, vec![test_overlay(0xc0)]);
}

#[test]
fn the_nearest_peers_come_first() {
    let address = ChunkAddress::from([0x81; 32]);
    let pool = vec![test_overlay(0x40), test_overlay(0x80), test_overlay(0xc0)];
    assert_eq!(
        nearest(&address, pool, 2),
        vec![test_overlay(0x80), test_overlay(0xc0)]
    );
}
