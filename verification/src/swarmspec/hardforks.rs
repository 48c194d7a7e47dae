//! Hardforks of a Swarm network and when they are active.

use vstd::prelude::*;

verus! {

/// A protocol upgrade.
#[derive(Clone, Copy, Debug, PartialEq, Eq, Structural)]
pub enum SwarmHardfork {
    /// The first protocol.
    Accord,
}

/// When a hardfork becomes active.
#[derive(Clone, Copy, Debug, PartialEq, Eq, Structural)]
pub enum ForkCondition {
    /// From this time on.
    Timestamp(u64),
    /// At no time.
    Never,
}

impl ForkCondition {
    /// Whether the fork is active at a time.
    pub open spec fn active_at(self, timestamp: u64) -> bool {
        match self {
            ForkCondition::Timestamp(activation) => timestamp >= activation,
            ForkCondition::Never => false,
        }
    }
}

/// When the known networks began.
#[derive(Clone, Copy, Debug, PartialEq, Eq, Structural)]
pub struct GenesisTimes {
    pub mainnet: u64,
    pub testnet: u64,
}

/// The hardforks of a network with their conditions.
#[derive(Clone, Copy, Debug, PartialEq, Eq, Structural)]
pub struct SwarmHardforks {
    pub accord: Option<ForkCondition>,
}

impl SwarmHardforks {
    /// The condition of a fork, if it is configured.
    pub open spec fn spec_get(self, fork: SwarmHardfork) -> Option<ForkCondition> {
        match fork {
            SwarmHardfork::Accord => self.accord,
        }
    }

    /// No hardforks.
    pub fn new() -> (forks: SwarmHardforks)
        ensures
            forks.accord is None,
    {
        SwarmHardforks { accord: None }
    }

    /// Hardforks with Accord from `timestamp` on.
    pub fn accord_at(timestamp: u64) -> (forks: SwarmHardforks)
        ensures
            forks == (SwarmHardforks { accord: Some(ForkCondition::Timestamp(timestamp)) }),
    {
        SwarmHardforks { accord: Some(ForkCondition::Timestamp(timestamp)) }
    }

    /// Whether no hardfork is configured.
    pub fn is_empty(&self) -> (empty: bool)
        ensures
            empty == (self.accord is None),
    {
        self.accord.is_none()
    }

    /// Configure a hardfork.
    pub fn insert(&mut self, fork: SwarmHardfork, condition: ForkCondition)
        ensures
            final(self).spec_get(fork) == Some(condition),
            forall|other: SwarmHardfork|
                other != fork ==> #[trigger] final(self).spec_get(other) == old(self).spec_get(
                    other,
                ),
    {
        match fork {
            SwarmHardfork::Accord => {
                self.accord = Some(condition);
            },
        }
    }

    /// The condition of a fork, if it is configured.
    pub fn get(&self, fork: SwarmHardfork) -> (condition: Option<ForkCondition>)
        ensures
            condition == self.spec_get(fork),
    {
        match fork {
            SwarmHardfork::Accord => self.accord,
        }
    }

    /// The condition of a fork; one that is not configured is never active.
    pub fn fork(&self, fork: SwarmHardfork) -> (condition: ForkCondition)
        ensures
            condition == (match self.spec_get(fork) {
                Some(condition) => condition,
                None => ForkCondition::Never,
            }),
    {
        match self.get(fork) {
            Some(condition) => condition,
            None => ForkCondition::Never,
        }
    }

    /// Whether a fork is active at a time.
    pub open spec fn active_at(self, fork: SwarmHardfork, timestamp: u64) -> bool {
        self.spec_get(fork) matches Some(condition) && condition.active_at(timestamp)
    }

    /// Whether a fork is active at a time.
    pub fn is_fork_active_at_timestamp(&self, fork: SwarmHardfork, timestamp: u64) -> (active: bool)
        ensures
            active == self.active_at(fork, timestamp),
    {
        match self.get(fork) {
            Some(ForkCondition::Timestamp(activation)) => timestamp >= activation,
            _ => false,
        }
    }
}

/// A fork that is active stays active.
pub proof fn forks_stay_active(
    forks: SwarmHardforks,
    fork: SwarmHardfork,
    earlier: u64,
    later: u64,
)
    requires
        earlier <= later,
        forks.active_at(fork, earlier),
    ensures
        forks.active_at(fork, later),
{
}

/// A fork is active from the time that it is configured for on, and never where
/// it is not.
pub proof fn forks_start_at_their_time(forks: SwarmHardforks, timestamp: u64)
    ensures
        forks.accord is None ==> !forks.active_at(SwarmHardfork::Accord, timestamp),
        forks.accord == Some(ForkCondition::Never) ==> !forks.active_at(
            SwarmHardfork::Accord,
            timestamp,
        ),
        forks.accord matches Some(ForkCondition::Timestamp(start)) ==> (forks.active_at(
            SwarmHardfork::Accord,
            timestamp,
        ) <==> timestamp >= start),
{
}

} // verus!
