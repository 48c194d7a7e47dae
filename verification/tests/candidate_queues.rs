use vertex_topology::kademlia::candidate_queues::CandidateQueues;
use vertex_topology::primitives::{Bin, OverlayAddress};

fn b(n: u8) -> Bin {
    Bin::new(n).expect("valid bin")
}


#[test]
fn test_push_and_drain() {
    let mut queues = CandidateQueues::new(32, 16);
    let peer = OverlayAddress::with_first_byte(0x80);

    assert!(queues.push(b(0), peer));
    // Dedup: second push returns false
    assert!(!queues.push(b(0), peer));

    let drained = queues.drain_all();
    assert_eq!(drained.len(), 1);
    assert_eq!(drained[0], peer);

    // After drain, can push again
    assert!(queues.push(b(0), peer));
}

#[test]
fn test_drain_highest_first() {
    let mut queues = CandidateQueues::new(32, 16);
    let lo = OverlayAddress::with_first_byte(0x80);
    let hi = OverlayAddress::with_first_byte(0x40);

    queues.push(b(0), lo);
    queues.push(b(1), hi);

    let drained = queues.drain_all();
    assert_eq!(drained.len(), 2);
    // Higher bin first
    assert_eq!(drained[0], hi);
    assert_eq!(drained[1], lo);
}

#[test]
fn test_per_bin_cap() {
    let mut queues = CandidateQueues::new(32, 2);

    let p1 = OverlayAddress::with_first_byte(0x80);
    let p2 = OverlayAddress::with_first_byte(0x81);
    let p3 = OverlayAddress::with_first_byte(0x82);

    assert!(queues.push(b(0), p1));
    assert!(queues.push(b(0), p2));
    assert!(queues.push(b(0), p3));

    // p1 should have been evicted (cap=2)
    let queued = queues.snapshot_queued();
    assert_eq!(queued.len(), 2);
    assert!(!queued.contains(&p1));
    assert!(queued.contains(&p2));
    assert!(queued.contains(&p3));
}

#[test]
fn test_invalid_bin() {
    let mut queues = CandidateQueues::new(4, 16);
    let peer = OverlayAddress::with_first_byte(0x80);

    // Bin 5 doesn't exist (only 0-3)
    assert!(!queues.push(b(5), peer));
    assert!(queues.snapshot_queued().is_empty());
}
