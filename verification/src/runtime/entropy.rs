//! Randomness backed by the operating system.
//!
//! - [`fill_bytes`] and [`crypto_rng`] are cryptographically secure. Use them
//!   for key material, identifiers, nonces, and anything an adversary must not
//!   predict.
//! - [`non_crypto_rng`] is fast and not secure. Use it for shuffles, jitter
//!   and sampling, never for secrets.
//!
//! The infallible helpers panic only if the operating system entropy source
//! fails. Use the `try_` variants to handle that failure instead.

use rand::rand_core::OsError;
use rand::rngs::{OsRng, SmallRng};
use rand::{RngCore, SeedableRng, TryRngCore};
use rand_chacha::ChaCha20Rng;
use vstd::prelude::*;

verus! {

/// The error of the operating system entropy source.
#[verifier::external_type_specification]
#[verifier::external_body]
pub struct ExOsError(rand::rand_core::OsError);

/// A small, fast generator.
#[verifier::external_type_specification]
#[verifier::external_body]
pub struct ExSmallRng(rand::rngs::SmallRng);

/// A cryptographically secure generator.
#[verifier::external_type_specification]
#[verifier::external_body]
pub struct ExChaCha20Rng(rand_chacha::ChaCha20Rng);

/// Error returned when the operating system entropy source cannot be read.
#[derive(Debug)]
#[non_exhaustive]
pub enum RngError {
    /// The operating system failed to produce entropy.
    OsEntropyUnavailable(OsError),
}

impl RngError {
    /// The metric label of the error.
    pub fn label(&self) -> (label: &'static str)
        ensures
            label@ == "os_entropy_unavailable"@,
    {
        match self {
            RngError::OsEntropyUnavailable(_) => "os_entropy_unavailable",
        }
    }
}

impl From<OsError> for RngError {
    fn from(error: OsError) -> (converted: RngError) {
        RngError::OsEntropyUnavailable(error)
    }
}

impl vstd::std_specs::convert::FromSpecImpl<OsError> for RngError {
    open spec fn obeys_from_spec() -> bool {
        true
    }

    open spec fn from_spec(error: OsError) -> RngError {
        RngError::OsEntropyUnavailable(error)
    }
}

/// Calls `try_fill_bytes` of `rand`'s `OsRng`. Trusted is that the buffer keeps
/// its length, and that an empty buffer is filled without asking the operating
/// system and so never fails. Which bytes come back, and whether the source
/// fails on a buffer that holds any, is up to the operating system.
#[verifier::external_body]
fn os_fill(dst: &mut [u8]) -> (result: Result<(), OsError>)
    ensures
        final(dst)@.len() == old(dst)@.len(),
        old(dst)@.len() == 0 ==> result is Ok,
{
    OsRng.try_fill_bytes(dst)
}

/// Calls `ChaCha20Rng::try_from_rng` of `rand_chacha` on `rand`'s `OsRng`.
/// The seed is random, so nothing is claimed of the generator.
#[verifier::external_body]
fn os_seeded() -> (result: Result<ChaCha20Rng, OsError>) {
    ChaCha20Rng::try_from_rng(&mut OsRng)
}

/// Fills `dst` with cryptographically secure random bytes.
///
/// Calls `fill_bytes` of `rand`'s `OsRng` behind `unwrap_err`, which panics
/// if the operating system entropy source fails; [`try_fill_bytes`] reports
/// that failure instead. Trusted is only that the buffer keeps its length.
#[verifier::external_body]
pub fn fill_bytes(dst: &mut [u8])
    ensures
        final(dst)@.len() == old(dst)@.len(),
{
    OsRng.unwrap_err().fill_bytes(dst);
}

/// What [`try_fill_bytes`] reports for an outcome of the entropy source.
pub fn fill_outcome(outcome: Result<(), OsError>) -> (result: Result<(), RngError>)
    ensures
        outcome is Ok <==> result is Ok,
        outcome matches Err(e) ==> result == Err::<(), RngError>(RngError::OsEntropyUnavailable(e)),
{
    match outcome {
        Ok(()) => Ok(()),
        Err(error) => Err(RngError::from(error)),
    }
}

/// Fills `dst` with cryptographically secure random bytes, surfacing entropy
/// failures as a [`RngError`]. An empty buffer needs no entropy, so it always
/// succeeds; [`fill_outcome`] says what is reported for each outcome of the
/// entropy source.
pub fn try_fill_bytes(dst: &mut [u8]) -> (result: Result<(), RngError>)
    ensures
        final(dst)@.len() == old(dst)@.len(),
        old(dst)@.len() == 0 ==> result is Ok,
{
    let outcome: Result<(), OsError> = os_fill(dst);
    fill_outcome(outcome)
}

/// A fresh cryptographically secure generator seeded from the operating
/// system.
///
/// Calls `ChaCha20Rng::from_rng` of `rand_chacha` on `rand`'s `OsRng` behind
/// `unwrap_err`, which panics if the entropy source fails; [`try_crypto_rng`]
/// reports that failure instead. The seed is random, so nothing is claimed of
/// the generator.
#[verifier::external_body]
pub fn crypto_rng() -> (rng: ChaCha20Rng) {
    ChaCha20Rng::from_rng(&mut OsRng.unwrap_err())
}

/// What [`try_crypto_rng`] reports for an outcome of the entropy source.
pub fn seed_outcome(outcome: Result<ChaCha20Rng, OsError>) -> (result: Result<
    ChaCha20Rng,
    RngError,
>)
    ensures
        outcome matches Ok(rng) ==> result == Ok::<ChaCha20Rng, RngError>(rng),
        outcome matches Err(e) ==> result == Err::<ChaCha20Rng, RngError>(
            RngError::OsEntropyUnavailable(e),
        ),
{
    match outcome {
        Ok(rng) => Ok(rng),
        Err(error) => Err(RngError::from(error)),
    }
}

/// A fresh cryptographically secure generator, surfacing entropy failures as
/// a [`RngError`].
pub fn try_crypto_rng() -> (result: Result<ChaCha20Rng, RngError>) {
    seed_outcome(os_seeded())
}

/// A fresh fast, non-cryptographic generator seeded from the operating system.
///
/// Calls `SmallRng::from_rng` of `rand` on its `OsRng` behind `unwrap_err`,
/// which panics if the entropy source fails. The seed is random, so nothing is
/// claimed of the generator.
#[verifier::external_body]
pub fn non_crypto_rng() -> (rng: SmallRng) {
    SmallRng::from_rng(&mut OsRng.unwrap_err())
}

} // verus!
