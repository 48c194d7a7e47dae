use rand::RngCore;
use vertex_topology::runtime::entropy::{
    crypto_rng, fill_bytes, non_crypto_rng, try_crypto_rng, try_fill_bytes,
};
use vertex_topology::runtime::time::{
    now_unix_millis, now_unix_nanos, now_unix_secs, span_of_reading, unix_millis, unix_nanos,
    unix_secs,
};

#[test]
fn fill_bytes_changes_buffer() {
    let mut a = [0u8; 32];
    fill_bytes(&mut a);
    assert_ne!(a, [0u8; 32], "32 zero bytes from the CSPRNG is implausible");
}

#[test]
fn fill_bytes_is_not_constant() {
    let mut a = [0u8; 32];
    let mut b = [0u8; 32];
    fill_bytes(&mut a);
    fill_bytes(&mut b);
    assert_ne!(a, b, "two CSPRNG draws should differ");
}

#[test]
fn try_fill_bytes_succeeds() {
    let mut a = [0u8; 16];
    try_fill_bytes(&mut a).expect("OS entropy should be available in tests");
    assert_ne!(a, [0u8; 16]);
}

#[test]
fn try_fill_bytes_of_an_empty_buffer_succeeds() {
    let mut a: [u8; 0] = [];
    assert!(try_fill_bytes(&mut a).is_ok());
}

#[test]
fn crypto_rng_produces_distinct_streams() {
    let mut a = crypto_rng();
    let mut b = crypto_rng();
    assert_ne!(
        a.next_u64(),
        b.next_u64(),
        "independently seeded crypto RNGs should diverge"
    );
}

#[test]
fn try_crypto_rng_succeeds() {
    let mut rng = try_crypto_rng().expect("OS entropy should be available in tests");
    // Exercise the generator so the accessor is not optimised away.
    let _ = rng.next_u64();
}

#[test]
fn non_crypto_rng_produces_distinct_streams() {
    let mut a = non_crypto_rng();
    let mut b = non_crypto_rng();
    assert_ne!(
        a.next_u64(),
        b.next_u64(),
        "independently seeded non-crypto RNGs should diverge"
    );
}

#[test]
fn unix_secs_after_2023() {
    // 2023-01-01T00:00:00Z in seconds.
    assert!(now_unix_secs() > 1_672_531_200);
}

#[test]
fn unix_millis_after_2023() {
    assert!(now_unix_millis() > 1_672_531_200_000);
}

#[test]
fn unix_nanos_after_2023() {
    assert!(now_unix_nanos() > 1_672_531_200_000_000_000);
}

#[test]
fn units_are_consistent() {
    let secs = now_unix_secs();
    let millis = now_unix_millis();
    // Milliseconds and seconds are read a moment apart, so allow a small
    // skew rather than asserting exact equality.
    assert!(millis / 1000 >= secs);
    assert!(millis / 1000 <= secs + 2);
}

#[test]
fn a_reading_converts_to_each_unit() {
    let span = span_of_reading(Some((1_700_000_000, 250_000_000)));
    assert_eq!(unix_secs(span), 1_700_000_000);
    assert_eq!(unix_millis(span), 1_700_000_000_250);
    assert_eq!(unix_nanos(span), 1_700_000_000_250_000_000);
}

#[test]
fn a_clock_before_the_epoch_reads_zero() {
    assert_eq!(unix_secs(span_of_reading(None)), 0);
}
