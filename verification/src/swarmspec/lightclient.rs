//! Bandwidth incentives of a Swarm network.

use vstd::prelude::*;

verus! {

/// A 256-bit amount, held as its two halves.
#[derive(Clone, Copy, Debug, PartialEq, Eq, Structural)]
pub struct U256 {
    pub hi: u128,
    pub lo: u128,
}

impl U256 {
    /// The amount as a number.
    pub open spec fn value(self) -> int {
        self.hi * 0x1_0000_0000_0000_0000_0000_0000_0000_0000int + self.lo
    }

    /// A small amount.
    pub fn from_u64(n: u64) -> (amount: U256)
        ensures
            amount.value() == n,
    {
        U256 { hi: 0, lo: n as u128 }
    }
}

/// Configuration of the free bandwidth allocation.
#[derive(Clone, Copy, Debug, PartialEq, Eq, Structural)]
pub struct PseudosettleConfig {
    /// Daily free bandwidth in bytes.
    pub daily_allowance_bytes: u64,
    /// Bytes after which payment is required.
    pub payment_threshold: u64,
    /// Bytes of tolerance before disconnection.
    pub payment_tolerance: u64,
    /// Bytes at which the peer is disconnected.
    pub disconnect_threshold: u64,
}

impl Default for PseudosettleConfig {
    fn default() -> (config: PseudosettleConfig)
        ensures
            config == (PseudosettleConfig {
                daily_allowance_bytes: 1_000_000,
                payment_threshold: 10_000_000,
                payment_tolerance: 5_000_000,
                disconnect_threshold: 50_000_000,
            }),
    {
        PseudosettleConfig {
            daily_allowance_bytes: 1_000_000,
            payment_threshold: 10_000_000,
            payment_tolerance: 5_000_000,
            disconnect_threshold: 50_000_000,
        }
    }
}

/// Configuration of the payment channel.
#[derive(Clone, Copy, Debug, PartialEq, Eq, Structural)]
pub struct SettlementConfig {
    /// Minimum deposit in token base units.
    pub min_deposit: U256,
    /// Minimum settlement threshold in token base units.
    pub min_settlement_threshold: U256,
    /// Maximum settlement time in seconds.
    pub settlement_timeout: u64,
    /// Whether settlement timeouts are enforced.
    pub enforce_timeouts: bool,
}

impl Default for SettlementConfig {
    fn default() -> (config: SettlementConfig)
        ensures
            config.min_deposit.value() == 1000,
            config.min_settlement_threshold.value() == 100,
            config.settlement_timeout == 86_400,
            config.enforce_timeouts,
    {
        SettlementConfig {
            min_deposit: U256::from_u64(1000),
            min_settlement_threshold: U256::from_u64(100),
            settlement_timeout: 86_400,
            enforce_timeouts: true,
        }
    }
}

/// Configuration of bandwidth incentives.
#[derive(Clone, Copy, Debug, PartialEq, Eq, Structural)]
pub struct LightClient {
    /// Free bandwidth allocation.
    pub pseudosettle: PseudosettleConfig,
    /// Payment channels.
    pub settlement: SettlementConfig,
    /// Minimum price per byte in wei.
    pub min_price_per_byte: U256,
    /// Maximum price per byte in wei.
    pub max_price_per_byte: U256,
    /// Default price per byte in wei.
    pub default_price_per_byte: U256,
    /// Whether bandwidth incentives are enabled.
    pub enabled: bool,
}

impl Default for LightClient {
    fn default() -> (config: LightClient)
        ensures
            call_ensures(PseudosettleConfig::default, (), config.pseudosettle),
            call_ensures(SettlementConfig::default, (), config.settlement),
            config.min_price_per_byte.value() == 1,
            config.max_price_per_byte.value() == 1000,
            config.default_price_per_byte.value() == 10,
            config.enabled,
    {
        LightClient {
            pseudosettle: PseudosettleConfig::default(),
            settlement: SettlementConfig::default(),
            min_price_per_byte: U256::from_u64(1),
            max_price_per_byte: U256::from_u64(1000),
            default_price_per_byte: U256::from_u64(10),
            enabled: true,
        }
    }
}

} // verus!
