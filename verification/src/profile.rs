//! Pacing of connection build-out.
//!
//! A connection profile names a posture; this module owns the numbers each
//! posture maps to: the evaluation cadence, the dial rate, the dial
//! concurrency, the bootstrap fill level and the candidate budgets.

use crate::kademlia::config::{DEFAULT_MAX_BALANCED_CANDIDATES, DEFAULT_MAX_NEIGHBOR_CANDIDATES};
use crate::kademlia::limits::DEFAULT_BOOTSTRAP_TARGET;
use crate::time::Duration;
use vstd::prelude::*;

verus! {

/// Seconds between connection evaluations of the balanced profile.
pub const BALANCED_EVALUATION_SECS: u64 = 5;

/// Concurrent dials of the balanced profile. The per-bin targets, not this
/// cap, decide how many dials become connections.
pub const BALANCED_DIAL_CONCURRENCY: usize = 256;

/// Dials that may go out at once: one full balanced evaluation round.
pub const FULL_ROUND_BURST: u32 = 32;

/// Build-out posture of a node.
#[derive(Clone, Copy, Debug, PartialEq, Eq, Structural)]
pub enum ConnectionProfile {
    /// Fill the table quickly.
    Aggressive,
    /// The default pace.
    Balanced,
    /// Trade convergence time for quiet.
    Conservative,
}

/// A rate: `burst` dials at once, replenished over `window`.
#[derive(Clone, Copy, Debug, PartialEq, Eq, Structural)]
pub struct Quota {
    pub burst: u32,
    pub window: Duration,
}

impl Quota {
    /// `burst` dials every `window`.
    pub fn n_every(burst: u32, window: Duration) -> (quota: Quota)
        ensures
            quota == (Quota { burst, window }),
    {
        Quota { burst, window }
    }
}

/// The pacing numbers of a [`ConnectionProfile`].
#[derive(Clone, Copy, Debug, PartialEq, Eq, Structural)]
pub struct PacingProfile {
    /// Cadence of connection evaluations.
    pub evaluation_interval: Duration,
    /// Rate of discovery dials.
    pub dial_quota: Quota,
    /// Maximum concurrent dials.
    pub dial_concurrency: usize,
    /// Fill target of each bin while there is no neighborhood.
    pub bootstrap_target: usize,
    /// Maximum neighborhood candidates per evaluation.
    pub max_neighbor_candidates: usize,
    /// Maximum balanced candidates per evaluation.
    pub max_balanced_candidates: usize,
}

/// A span of `millis` milliseconds.
pub open spec fn millis_span(millis: int) -> Duration {
    Duration { nanos: (millis * crate::time::NANOS_PER_MILLI) as u128 }
}

/// The pacing numbers of a profile.
pub open spec fn spec_pacing(profile: ConnectionProfile) -> PacingProfile {
    match profile {
        ConnectionProfile::Aggressive => PacingProfile {
            evaluation_interval: millis_span(2_000),
            dial_quota: Quota { burst: 32, window: millis_span(2_500) },
            dial_concurrency: 256,
            bootstrap_target: 24,
            max_neighbor_candidates: 24,
            max_balanced_candidates: 24,
        },
        ConnectionProfile::Balanced => PacingProfile {
            evaluation_interval: millis_span(5_000),
            dial_quota: Quota { burst: 32, window: millis_span(5_000) },
            dial_concurrency: 256,
            bootstrap_target: DEFAULT_BOOTSTRAP_TARGET,
            max_neighbor_candidates: DEFAULT_MAX_NEIGHBOR_CANDIDATES,
            max_balanced_candidates: DEFAULT_MAX_BALANCED_CANDIDATES,
        },
        ConnectionProfile::Conservative => PacingProfile {
            evaluation_interval: millis_span(10_000),
            dial_quota: Quota { burst: 8, window: millis_span(10_000) },
            dial_concurrency: 64,
            bootstrap_target: 12,
            max_neighbor_candidates: 8,
            max_balanced_candidates: 8,
        },
    }
}

impl From<ConnectionProfile> for PacingProfile {
    fn from(profile: ConnectionProfile) -> (pacing: PacingProfile) {
        match profile {
            ConnectionProfile::Aggressive => PacingProfile {
                evaluation_interval: Duration::from_secs(2),
                dial_quota: Quota::n_every(FULL_ROUND_BURST, Duration::from_millis(2500)),
                dial_concurrency: BALANCED_DIAL_CONCURRENCY,
                bootstrap_target: 24,
                max_neighbor_candidates: 24,
                max_balanced_candidates: 24,
            },
            ConnectionProfile::Balanced => PacingProfile {
                evaluation_interval: Duration::from_secs(BALANCED_EVALUATION_SECS),
                dial_quota: Quota::n_every(
                    FULL_ROUND_BURST,
                    Duration::from_secs(BALANCED_EVALUATION_SECS),
                ),
                dial_concurrency: BALANCED_DIAL_CONCURRENCY,
                bootstrap_target: DEFAULT_BOOTSTRAP_TARGET,
                max_neighbor_candidates: DEFAULT_MAX_NEIGHBOR_CANDIDATES,
                max_balanced_candidates: DEFAULT_MAX_BALANCED_CANDIDATES,
            },
            ConnectionProfile::Conservative => PacingProfile {
                evaluation_interval: Duration::from_secs(10),
                dial_quota: Quota::n_every(8, Duration::from_secs(10)),
                dial_concurrency: 64,
                bootstrap_target: 12,
                max_neighbor_candidates: 8,
                max_balanced_candidates: 8,
            },
        }
    }
}

impl vstd::std_specs::convert::FromSpecImpl<ConnectionProfile> for PacingProfile {
    open spec fn obeys_from_spec() -> bool {
        true
    }

    open spec fn from_spec(profile: ConnectionProfile) -> PacingProfile {
        spec_pacing(profile)
    }
}

/// The profiles are ordered: the more aggressive one evaluates more often,
/// fills further, selects more candidates and dials no fewer peers at once.
pub proof fn profiles_are_ordered()
    ensures
        ({
            let aggressive = spec_pacing(ConnectionProfile::Aggressive);
            let balanced = spec_pacing(ConnectionProfile::Balanced);
            let conservative = spec_pacing(ConnectionProfile::Conservative);
            &&& aggressive.evaluation_interval.nanos < balanced.evaluation_interval.nanos
            &&& balanced.evaluation_interval.nanos < conservative.evaluation_interval.nanos
            &&& aggressive.bootstrap_target > balanced.bootstrap_target
            &&& balanced.bootstrap_target > conservative.bootstrap_target
            &&& aggressive.max_neighbor_candidates > balanced.max_neighbor_candidates
            &&& balanced.max_neighbor_candidates > conservative.max_neighbor_candidates
            &&& aggressive.max_balanced_candidates > balanced.max_balanced_candidates
            &&& balanced.max_balanced_candidates > conservative.max_balanced_candidates
            &&& aggressive.dial_concurrency >= balanced.dial_concurrency
            &&& balanced.dial_concurrency > conservative.dial_concurrency
        }),
{
}

/// The balanced profile carries the defaults of the routing configuration.
pub proof fn balanced_is_the_default()
    ensures
        spec_pacing(ConnectionProfile::Balanced).max_neighbor_candidates
            == DEFAULT_MAX_NEIGHBOR_CANDIDATES,
        spec_pacing(ConnectionProfile::Balanced).max_balanced_candidates
            == DEFAULT_MAX_BALANCED_CANDIDATES,
        spec_pacing(ConnectionProfile::Balanced).bootstrap_target == DEFAULT_BOOTSTRAP_TARGET,
        spec_pacing(ConnectionProfile::Balanced).dial_quota.burst
            == DEFAULT_MAX_NEIGHBOR_CANDIDATES + DEFAULT_MAX_BALANCED_CANDIDATES,
{
}

/// The pace of each profile in figures.
pub proof fn the_pace_of_the_profiles()
    ensures
        ({
            let p = spec_pacing(ConnectionProfile::Aggressive);
            &&& p.evaluation_interval.nanos == 2 * crate::time::NANOS_PER_SEC
            &&& p.dial_quota.burst == 32
            &&& 2 * p.dial_quota.window.nanos == 5 * crate::time::NANOS_PER_SEC
            &&& p.dial_concurrency == 256
            &&& p.bootstrap_target == 24
            &&& p.max_neighbor_candidates == 24
            &&& p.max_balanced_candidates == 24
        }),
        ({
            let p = spec_pacing(ConnectionProfile::Balanced);
            &&& p.evaluation_interval.nanos == 5 * crate::time::NANOS_PER_SEC
            &&& p.dial_quota.burst == 32
            &&& p.dial_quota.window.nanos == 5 * crate::time::NANOS_PER_SEC
            &&& p.dial_concurrency == 256
            &&& p.bootstrap_target == 18
            &&& p.max_neighbor_candidates == 16
            &&& p.max_balanced_candidates == 16
        }),
        ({
            let p = spec_pacing(ConnectionProfile::Conservative);
            &&& p.evaluation_interval.nanos == 10 * crate::time::NANOS_PER_SEC
            &&& p.dial_quota.burst == 8
            &&& p.dial_quota.window.nanos == 10 * crate::time::NANOS_PER_SEC
            &&& p.dial_concurrency == 64
            &&& p.bootstrap_target == 12
            &&& p.max_neighbor_candidates == 8
            &&& p.max_balanced_candidates == 8
        }),
{
}

} // verus!
