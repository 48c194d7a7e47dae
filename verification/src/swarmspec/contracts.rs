//! Smart contracts of a Swarm network.

use super::constants::Address;
use vstd::prelude::*;

verus! {

/// A contract on chain.
pub trait ContractAddress {
    /// The contract's address.
    spec fn deployed_at(&self) -> Address;

    /// The block the contract was deployed in.
    spec fn deployed_in(&self) -> u64;

    /// The transaction that deployed the contract.
    spec fn deployed_by(&self) -> Seq<u8>;

    /// The contract's deployed address.
    fn address(&self) -> (address: Address)
        ensures
            address == self.deployed_at(),
    ;

    /// The number of the block the contract was deployed in.
    fn deployment_block(&self) -> (block: u64)
        ensures
            block == self.deployed_in(),
    ;

    /// The hash of the transaction that deployed the contract.
    fn deployment_tx(&self) -> (hash: [u8; 32])
        ensures
            hash@ == self.deployed_by(),
    ;
}

/// The Swarm token contract. Its deployment is not recorded.
#[derive(Clone, Copy, Debug, PartialEq, Eq)]
pub struct SwarmToken {
    pub address: Address,
    pub name: &'static str,
    pub symbol: &'static str,
    pub decimals: u8,
}

impl ContractAddress for SwarmToken {
    open spec fn deployed_at(&self) -> Address {
        self.address
    }

    open spec fn deployed_in(&self) -> u64 {
        0
    }

    open spec fn deployed_by(&self) -> Seq<u8> {
        Seq::new(32, |i: int| 0u8)
    }

    fn address(&self) -> (address: Address) {
        self.address
    }

    fn deployment_block(&self) -> (block: u64) {
        0
    }

    fn deployment_tx(&self) -> (hash: [u8; 32]) {
        let hash: [u8; 32] = [0u8; 32];
        proof {
            assert(hash@ =~= Seq::new(32, |i: int| 0u8));
        }
        hash
    }
}

/// The postage stamp contract.
#[derive(Clone, Copy, Debug, PartialEq, Eq)]
pub struct PostageContract {
    pub address: Address,
    pub deployment_block: u64,
    pub deployment_tx: [u8; 32],
}

impl ContractAddress for PostageContract {
    open spec fn deployed_at(&self) -> Address {
        self.address
    }

    open spec fn deployed_in(&self) -> u64 {
        self.deployment_block
    }

    open spec fn deployed_by(&self) -> Seq<u8> {
        self.deployment_tx@
    }

    fn address(&self) -> (address: Address) {
        self.address
    }

    fn deployment_block(&self) -> (block: u64) {
        self.deployment_block
    }

    fn deployment_tx(&self) -> (hash: [u8; 32]) {
        self.deployment_tx
    }
}

/// The redistribution contract.
#[derive(Clone, Copy, Debug, PartialEq, Eq)]
pub struct RedistributionContract {
    pub address: Address,
    pub deployment_block: u64,
    pub deployment_tx: [u8; 32],
}

impl ContractAddress for RedistributionContract {
    open spec fn deployed_at(&self) -> Address {
        self.address
    }

    open spec fn deployed_in(&self) -> u64 {
        self.deployment_block
    }

    open spec fn deployed_by(&self) -> Seq<u8> {
        self.deployment_tx@
    }

    fn address(&self) -> (address: Address) {
        self.address
    }

    fn deployment_block(&self) -> (block: u64) {
        self.deployment_block
    }

    fn deployment_tx(&self) -> (hash: [u8; 32]) {
        self.deployment_tx
    }
}

/// The staking contract.
#[derive(Clone, Copy, Debug, PartialEq, Eq)]
pub struct StakingContract {
    pub address: Address,
    pub deployment_block: u64,
    pub deployment_tx: [u8; 32],
}

impl ContractAddress for StakingContract {
    open spec fn deployed_at(&self) -> Address {
        self.address
    }

    open spec fn deployed_in(&self) -> u64 {
        self.deployment_block
    }

    open spec fn deployed_by(&self) -> Seq<u8> {
        self.deployment_tx@
    }

    fn address(&self) -> (address: Address) {
        self.address
    }

    fn deployment_block(&self) -> (block: u64) {
        self.deployment_block
    }

    fn deployment_tx(&self) -> (hash: [u8; 32]) {
        self.deployment_tx
    }
}

/// A contract is found where it was deployed; that of the token, of which no more
/// is recorded, in block zero and by no transaction.
pub proof fn contracts_are_found_where_they_were_deployed(
    token: SwarmToken,
    postage: PostageContract,
    redistribution: RedistributionContract,
    staking: StakingContract,
)
    ensures
        token.deployed_at() == token.address,
        token.deployed_in() == 0,
        token.deployed_by().len() == 32,
        forall|i: int| 0 <= i < 32 ==> #[trigger] token.deployed_by()[i] == 0,
        postage.deployed_at() == postage.address,
        postage.deployed_in() == postage.deployment_block,
        postage.deployed_by() == postage.deployment_tx@,
        redistribution.deployed_at() == redistribution.address,
        redistribution.deployed_in() == redistribution.deployment_block,
        redistribution.deployed_by() == redistribution.deployment_tx@,
        staking.deployed_at() == staking.address,
        staking.deployed_in() == staking.deployment_block,
        staking.deployed_by() == staking.deployment_tx@,
{
}

} // verus!
