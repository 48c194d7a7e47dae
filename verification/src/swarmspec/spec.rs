//! Concrete network specifications and their builder.

use super::chain::Chain;
use super::constants::{
    dev_token, mainnet_token, testnet_token, DevNetworkIds, Token, DEFAULT_CHUNK_SIZE,
    DEFAULT_RESERVE_CAPACITY, MAINNET_NETWORK_ID, TESTNET_NETWORK_ID,
};
use super::hardforks::{ForkCondition, GenesisTimes, SwarmHardfork, SwarmHardforks};
use vstd::prelude::*;

verus! {

/// A Swarm network by its id.
#[derive(Clone, Copy, Debug, PartialEq, Eq, Structural)]
pub struct Swarm {
    pub id: u64,
}

impl Swarm {
    /// The Swarm network of an id.
    pub fn from_id(id: u64) -> (swarm: Swarm)
        ensures
            swarm.id == id,
    {
        Swarm { id }
    }
}

/// A concrete Swarm network specification: which blockchain it settles on, how
/// to find peers, when protocol upgrades activate, and which token it uses.
#[derive(Debug)]
pub struct Hive {
    /// The underlying blockchain.
    pub chain: Chain,
    /// The network id.
    pub network_id: u64,
    /// The network name.
    pub network_name: String,
    /// Addresses of the entry points into the network.
    pub bootnodes: Vec<String>,
    /// When protocol upgrades activate.
    pub hardforks: SwarmHardforks,
    /// The token.
    pub token: Token,
    /// When the network began.
    pub genesis_timestamp: u64,
    /// Chunk size in bytes.
    pub chunk_size: usize,
    /// Reserve capacity of full nodes in chunks.
    pub reserve_capacity: u64,
}

/// The texts of a list of addresses.
pub open spec fn texts(addrs: Seq<String>) -> Seq<Seq<char>> {
    addrs.map_values(|addr: String| addr@)
}

fn copied(addrs: &Vec<String>) -> (copy: Vec<String>)
    ensures
        texts(copy@) == texts(addrs@),
{
    let mut copy: Vec<String> = Vec::new();
    let mut i: usize = 0;
    while i < addrs.len()
        invariant
            i <= addrs.len(),
            copy.len() == i,
            forall|j: int| 0 <= j < i ==> copy@[j]@ == addrs@[j]@,
        decreases addrs.len() - i,
    {
        copy.push(addrs[i].clone());
        i = i + 1;
    }
    proof {
        assert(texts(copy@) =~= texts(addrs@));
    }
    copy
}

impl Hive {
    /// The mainnet.
    pub open spec fn is_mainnet_spec(self, genesis: GenesisTimes) -> bool {
        &&& self.chain.id == super::chain::GNOSIS_CHAIN_ID
        &&& self.network_id == MAINNET_NETWORK_ID
        &&& self.network_name@ == "mainnet"@
        &&& texts(self.bootnodes@) == seq!["/dnsaddr/mainnet.ethswarm.org"@]
        &&& self.hardforks == (SwarmHardforks {
            accord: Some(ForkCondition::Timestamp(genesis.mainnet)),
        })
        &&& self.token.is_mainnet()
        &&& self.genesis_timestamp == genesis.mainnet
        &&& self.chunk_size == DEFAULT_CHUNK_SIZE
        &&& self.reserve_capacity == DEFAULT_RESERVE_CAPACITY
    }

    /// The testnet.
    pub open spec fn is_testnet_spec(self, genesis: GenesisTimes) -> bool {
        &&& self.chain.id == super::chain::SEPOLIA_CHAIN_ID
        &&& self.network_id == TESTNET_NETWORK_ID
        &&& self.network_name@ == "testnet"@
        &&& texts(self.bootnodes@) == seq!["/dnsaddr/testnet.ethswarm.org"@]
        &&& self.hardforks == (SwarmHardforks {
            accord: Some(ForkCondition::Timestamp(genesis.testnet)),
        })
        &&& self.token.is_testnet()
        &&& self.genesis_timestamp == genesis.testnet
        &&& self.chunk_size == DEFAULT_CHUNK_SIZE
        &&& self.reserve_capacity == DEFAULT_RESERVE_CAPACITY
    }

    /// A development network of the given id.
    pub open spec fn is_dev_spec(self, network_id: u64) -> bool {
        &&& self.chain.id == super::chain::DEV_CHAIN_ID
        &&& self.network_id == network_id
        &&& self.network_name@ == "dev"@
        &&& self.bootnodes.len() == 0
        &&& self.hardforks == (SwarmHardforks { accord: Some(ForkCondition::Timestamp(0)) })
        &&& self.token.is_dev()
        &&& self.genesis_timestamp == 0
        &&& self.chunk_size == DEFAULT_CHUNK_SIZE
        &&& self.reserve_capacity == DEFAULT_RESERVE_CAPACITY
    }

    /// The mainnet specification.
    pub fn init_mainnet(genesis: &GenesisTimes) -> (spec: Hive)
        ensures
            spec.is_mainnet_spec(*genesis),
    {
        let mut bootnodes: Vec<String> = Vec::new();
        bootnodes.push(String::from_str("/dnsaddr/mainnet.ethswarm.org"));
        proof {
            assert(texts(bootnodes@) =~= seq!["/dnsaddr/mainnet.ethswarm.org"@]);
        }
        Hive {
            chain: Chain::gnosis(),
            network_id: MAINNET_NETWORK_ID,
            network_name: String::from_str("mainnet"),
            bootnodes,
            hardforks: SwarmHardforks::accord_at(genesis.mainnet),
            token: mainnet_token(),
            genesis_timestamp: genesis.mainnet,
            chunk_size: DEFAULT_CHUNK_SIZE,
            reserve_capacity: DEFAULT_RESERVE_CAPACITY,
        }
    }

    /// The testnet specification.
    pub fn init_testnet(genesis: &GenesisTimes) -> (spec: Hive)
        ensures
            spec.is_testnet_spec(*genesis),
    {
        let mut bootnodes: Vec<String> = Vec::new();
        bootnodes.push(String::from_str("/dnsaddr/testnet.ethswarm.org"));
        proof {
            assert(texts(bootnodes@) =~= seq!["/dnsaddr/testnet.ethswarm.org"@]);
        }
        Hive {
            chain: Chain::sepolia(),
            network_id: TESTNET_NETWORK_ID,
            network_name: String::from_str("testnet"),
            bootnodes,
            hardforks: SwarmHardforks::accord_at(genesis.testnet),
            token: testnet_token(),
            genesis_timestamp: genesis.testnet,
            chunk_size: DEFAULT_CHUNK_SIZE,
            reserve_capacity: DEFAULT_RESERVE_CAPACITY,
        }
    }

    /// The specification of the development network. There is one: every call
    /// gives the network that the first call made.
    pub fn init_dev(ids: &mut DevNetworkIds) -> (spec: Hive)
        ensures
            spec.is_dev_spec(old(ids).shared_id()),
            *final(ids) == old(ids).after_shared(),
    {
        let network_id: u64 = ids.shared_dev_network_id();
        Hive::dev_of(network_id)
    }

    /// The specification of a development network of its own, with an id that
    /// no other has.
    pub fn default(ids: &mut DevNetworkIds) -> (spec: Hive)
        ensures
            spec.is_dev_spec(old(ids).next),
            *final(ids) == old(ids).after_id(),
    {
        let network_id: u64 = ids.generate_dev_network_id();
        Hive::dev_of(network_id)
    }

    fn dev_of(network_id: u64) -> (spec: Hive)
        ensures
            spec.is_dev_spec(network_id),
    {
        Hive {
            chain: Chain::dev(),
            network_id,
            network_name: String::from_str("dev"),
            bootnodes: Vec::new(),
            hardforks: SwarmHardforks::accord_at(0),
            token: dev_token(),
            genesis_timestamp: 0,
            chunk_size: DEFAULT_CHUNK_SIZE,
            reserve_capacity: DEFAULT_RESERVE_CAPACITY,
        }
    }

    /// The Swarm network.
    pub fn swarm(&self) -> (swarm: Swarm)
        ensures
            swarm.id == self.network_id,
    {
        Swarm::from_id(self.network_id)
    }

    /// The chain the network settles on.
    pub fn chain(&self) -> (chain: Chain)
        ensures
            chain == self.chain,
    {
        self.chain
    }

    /// The network id.
    pub fn network_id(&self) -> (id: u64)
        ensures
            id == self.network_id,
    {
        self.network_id
    }

    /// The network name.
    pub fn network_name(&self) -> (name: &str)
        ensures
            name@ == self.network_name@,
    {
        self.network_name.as_str()
    }

    /// The entry points into the network.
    pub fn bootnodes(&self) -> (addrs: Vec<String>)
        ensures
            texts(addrs@) == texts(self.bootnodes@),
    {
        copied(&self.bootnodes)
    }

    /// The token.
    pub fn token(&self) -> (token: &Token)
        ensures
            *token == self.token,
    {
        &self.token
    }

    /// When the network began.
    pub fn genesis_timestamp(&self) -> (timestamp: u64)
        ensures
            timestamp == self.genesis_timestamp,
    {
        self.genesis_timestamp
    }

    /// When a fork activates; one that is not configured never does.
    pub fn swarm_fork_activation(&self, fork: SwarmHardfork) -> (condition: ForkCondition)
        ensures
            condition == (match self.hardforks.spec_get(fork) {
                Some(condition) => condition,
                None => ForkCondition::Never,
            }),
    {
        self.hardforks.fork(fork)
    }

    /// Whether a fork is active at a time.
    pub fn is_fork_active_at_timestamp(&self, fork: SwarmHardfork, timestamp: u64) -> (active: bool)
        ensures
            active == self.hardforks.active_at(fork, timestamp),
    {
        self.hardforks.is_fork_active_at_timestamp(fork, timestamp)
    }

    /// Whether Accord is active at a time.
    pub fn is_accord_active_at_timestamp(&self, timestamp: u64) -> (active: bool)
        ensures
            active == self.hardforks.active_at(SwarmHardfork::Accord, timestamp),
    {
        self.hardforks.is_fork_active_at_timestamp(SwarmHardfork::Accord, timestamp)
    }

    /// Whether this is the mainnet.
    pub fn is_mainnet(&self) -> (yes: bool)
        ensures
            yes == (self.network_id == MAINNET_NETWORK_ID),
    {
        self.network_id == MAINNET_NETWORK_ID
    }

    /// Whether this is the testnet.
    pub fn is_testnet(&self) -> (yes: bool)
        ensures
            yes == (self.network_id == TESTNET_NETWORK_ID),
    {
        self.network_id == TESTNET_NETWORK_ID
    }
}

/// Builder for custom [`Hive`] specifications.
#[derive(Debug)]
pub struct HiveBuilder {
    pub chain: Option<Chain>,
    pub network_id: Option<u64>,
    pub network_name: Option<String>,
    pub bootnodes: Vec<String>,
    pub hardforks: SwarmHardforks,
    pub token: Option<Token>,
    pub genesis_timestamp: Option<u64>,
    pub chunk_size: Option<usize>,
    pub reserve_capacity: Option<u64>,
}

impl HiveBuilder {
    /// The chain that the network will be on.
    pub open spec fn built_chain(self) -> Chain {
        match self.chain {
            Some(chain) => chain,
            None => Chain { id: super::chain::DEV_CHAIN_ID },
        }
    }

    /// When the network will have begun: as set, or as the network of the
    /// chain did.
    pub open spec fn built_genesis(self, genesis: GenesisTimes) -> u64 {
        match self.genesis_timestamp {
            Some(timestamp) => timestamp,
            None => if self.built_chain().id == super::chain::GNOSIS_CHAIN_ID {
                genesis.mainnet
            } else if self.built_chain().id == super::chain::SEPOLIA_CHAIN_ID {
                genesis.testnet
            } else {
                0
            },
        }
    }

    /// Whether `token` is the one that the network will use: as set, or the
    /// one of the chain.
    pub open spec fn builds_token(self, token: Token) -> bool {
        match self.token {
            Some(set) => token == set,
            None => if self.built_chain().id == super::chain::GNOSIS_CHAIN_ID {
                token.is_mainnet()
            } else if self.built_chain().id == super::chain::SEPOLIA_CHAIN_ID {
                token.is_testnet()
            } else {
                token.is_dev()
            },
        }
    }

    /// `spec` is what the builder builds, where `fresh_id` is the network id
    /// of a network that none was set for.
    pub open spec fn builds(self, spec: Hive, genesis: GenesisTimes, fresh_id: u64) -> bool {
        &&& spec.chain == self.built_chain()
        &&& spec.network_id == (match self.network_id {
            Some(id) => id,
            None => fresh_id,
        })
        &&& spec.network_name@ == (match self.network_name {
            Some(name) => name@,
            None => super::chain::name_or_id(
                super::chain::chain_name(self.built_chain().id),
                self.built_chain().id,
            ),
        })
        &&& spec.bootnodes == self.bootnodes
        &&& self.builds_token(spec.token)
        &&& spec.genesis_timestamp == self.built_genesis(genesis)
        &&& spec.hardforks == if self.hardforks.accord is None {
            SwarmHardforks {
                accord: Some(ForkCondition::Timestamp(self.built_genesis(genesis))),
            }
        } else {
            self.hardforks
        }
        &&& spec.chunk_size == (match self.chunk_size {
            Some(size) => size,
            None => DEFAULT_CHUNK_SIZE,
        })
        &&& spec.reserve_capacity == (match self.reserve_capacity {
            Some(capacity) => capacity,
            None => DEFAULT_RESERVE_CAPACITY,
        })
    }

    /// The builder takes every setting from `spec`.
    pub open spec fn copies(self, spec: Hive) -> bool {
        &&& self.chain == Some(spec.chain)
        &&& self.network_id == Some(spec.network_id)
        &&& self.network_name matches Some(name) && name@ == spec.network_name@
        &&& texts(self.bootnodes@) == texts(spec.bootnodes@)
        &&& self.hardforks == spec.hardforks
        &&& self.token == Some(spec.token)
        &&& self.genesis_timestamp == Some(spec.genesis_timestamp)
        &&& self.chunk_size == Some(spec.chunk_size)
        &&& self.reserve_capacity == Some(spec.reserve_capacity)
    }

    /// A builder without settings.
    pub fn new() -> (builder: HiveBuilder)
        ensures
            builder.chain is None,
            builder.network_id is None,
            builder.network_name is None,
            builder.bootnodes.len() == 0,
            builder.hardforks.accord is None,
            builder.token is None,
            builder.genesis_timestamp is None,
            builder.chunk_size is None,
            builder.reserve_capacity is None,
    {
        HiveBuilder {
            chain: None,
            network_id: None,
            network_name: None,
            bootnodes: Vec::new(),
            hardforks: SwarmHardforks::new(),
            token: None,
            genesis_timestamp: None,
            chunk_size: None,
            reserve_capacity: None,
        }
    }

    fn from_spec(spec: Hive) -> (builder: HiveBuilder)
        ensures
            builder.copies(spec),
    {
        HiveBuilder {
            chain: Some(spec.chain),
            network_id: Some(spec.network_id),
            network_name: Some(spec.network_name),
            bootnodes: spec.bootnodes,
            hardforks: spec.hardforks,
            token: Some(spec.token),
            genesis_timestamp: Some(spec.genesis_timestamp),
            chunk_size: Some(spec.chunk_size),
            reserve_capacity: Some(spec.reserve_capacity),
        }
    }

    /// A builder with the mainnet's settings.
    pub fn mainnet(genesis: &GenesisTimes) -> (builder: HiveBuilder)
        ensures
            exists|spec: Hive| #[trigger]
                spec.is_mainnet_spec(*genesis) && builder.copies(spec),
    {
        HiveBuilder::from_spec(Hive::init_mainnet(genesis))
    }

    /// A builder with the testnet's settings.
    pub fn testnet(genesis: &GenesisTimes) -> (builder: HiveBuilder)
        ensures
            exists|spec: Hive| #[trigger]
                spec.is_testnet_spec(*genesis) && builder.copies(spec),
    {
        HiveBuilder::from_spec(Hive::init_testnet(genesis))
    }

    /// A builder with the settings of the development network of
    /// [`Hive::init_dev`].
    pub fn dev(ids: &mut DevNetworkIds) -> (builder: HiveBuilder)
        ensures
            exists|spec: Hive| #[trigger]
                spec.is_dev_spec(old(ids).shared_id()) && builder.copies(spec),
            *final(ids) == old(ids).after_shared(),
    {
        HiveBuilder::from_spec(Hive::init_dev(ids))
    }

    /// Set the chain.
    pub fn chain(self, chain: Chain) -> (builder: HiveBuilder)
        ensures
            builder == (HiveBuilder { chain: Some(chain), ..self }),
    {
        HiveBuilder { chain: Some(chain), ..self }
    }

    /// Set the network id.
    pub fn network_id(self, network_id: u64) -> (builder: HiveBuilder)
        ensures
            builder == (HiveBuilder { network_id: Some(network_id), ..self }),
    {
        HiveBuilder { network_id: Some(network_id), ..self }
    }

    /// Set the network name.
    pub fn network_name(self, name: String) -> (builder: HiveBuilder)
        ensures
            builder == (HiveBuilder { network_name: Some(name), ..self }),
    {
        HiveBuilder { network_name: Some(name), ..self }
    }

    /// Add a bootnode.
    pub fn add_bootnode(self, addr: String) -> (builder: HiveBuilder)
        ensures
            builder == (HiveBuilder { bootnodes: builder.bootnodes, ..self }),
            builder.bootnodes@ == self.bootnodes@.push(addr),
    {
        let mut builder: HiveBuilder = self;
        builder.bootnodes.push(addr);
        builder
    }

    /// Set the bootnodes.
    pub fn bootnodes(self, addrs: Vec<String>) -> (builder: HiveBuilder)
        ensures
            builder == (HiveBuilder { bootnodes: addrs, ..self }),
    {
        HiveBuilder { bootnodes: addrs, ..self }
    }

    /// Add a hardfork.
    pub fn add_hardfork(self, fork: SwarmHardfork, condition: ForkCondition) -> (builder: HiveBuilder)
        ensures
            builder == (HiveBuilder { hardforks: builder.hardforks, ..self }),
            builder.hardforks.spec_get(fork) == Some(condition),
            forall|other: SwarmHardfork|
                other != fork ==> #[trigger] builder.hardforks.spec_get(other)
                    == self.hardforks.spec_get(other),
    {
        let mut builder: HiveBuilder = self;
        builder.hardforks.insert(fork, condition);
        builder
    }

    /// Add the Accord hardfork from `timestamp` on.
    pub fn with_accord(self, timestamp: u64) -> (builder: HiveBuilder)
        ensures
            builder == (HiveBuilder { hardforks: builder.hardforks, ..self }),
            builder.hardforks.spec_get(SwarmHardfork::Accord) == Some(
                ForkCondition::Timestamp(timestamp),
            ),
    {
        self.add_hardfork(SwarmHardfork::Accord, ForkCondition::Timestamp(timestamp))
    }

    /// Set the genesis timestamp.
    pub fn genesis_timestamp(self, timestamp: u64) -> (builder: HiveBuilder)
        ensures
            builder == (HiveBuilder { genesis_timestamp: Some(timestamp), ..self }),
    {
        HiveBuilder { genesis_timestamp: Some(timestamp), ..self }
    }

    /// Set the token.
    pub fn token(self, token: Token) -> (builder: HiveBuilder)
        ensures
            builder == (HiveBuilder { token: Some(token), ..self }),
    {
        HiveBuilder { token: Some(token), ..self }
    }

    /// Set the chunk size in bytes.
    pub fn chunk_size(self, size: usize) -> (builder: HiveBuilder)
        ensures
            builder == (HiveBuilder { chunk_size: Some(size), ..self }),
    {
        HiveBuilder { chunk_size: Some(size), ..self }
    }

    /// Set the reserve capacity in chunks.
    pub fn reserve_capacity(self, capacity: u64) -> (builder: HiveBuilder)
        ensures
            builder == (HiveBuilder { reserve_capacity: Some(capacity), ..self }),
    {
        HiveBuilder { reserve_capacity: Some(capacity), ..self }
    }

    /// Build the specification. What was not set follows from the chain, and
    /// a network without hardforks has Accord from its beginning.
    pub fn build(self, genesis: &GenesisTimes, ids: &mut DevNetworkIds) -> (spec: Hive)
        ensures
            self.builds(spec, *genesis, old(ids).next),
            self.network_id is Some ==> *final(ids) == *old(ids),
            self.network_id is None ==> *final(ids) == old(ids).after_id(),
    {
        let chain: Chain = match self.chain {
            Some(chain) => chain,
            None => Chain::dev(),
        };
        let network_id: u64 = match self.network_id {
            Some(id) => id,
            None => ids.generate_dev_network_id(),
        };
        let network_name: String = match self.network_name {
            Some(name) => name,
            None => chain.network_name(),
        };
        let is_gnosis: bool = chain.id == super::chain::GNOSIS_CHAIN_ID;
        let is_sepolia: bool = chain.id == super::chain::SEPOLIA_CHAIN_ID;
        let token: Token = match self.token {
            Some(token) => token,
            None => if is_gnosis {
                mainnet_token()
            } else if is_sepolia {
                testnet_token()
            } else {
                dev_token()
            },
        };
        let genesis_timestamp: u64 = match self.genesis_timestamp {
            Some(timestamp) => timestamp,
            None => if is_gnosis {
                genesis.mainnet
            } else if is_sepolia {
                genesis.testnet
            } else {
                0
            },
        };
        let hardforks: SwarmHardforks = if self.hardforks.is_empty() {
            SwarmHardforks::accord_at(genesis_timestamp)
        } else {
            self.hardforks
        };
        Hive {
            chain,
            network_id,
            network_name,
            bootnodes: self.bootnodes,
            hardforks,
            token,
            genesis_timestamp,
            chunk_size: self.chunk_size.unwrap_or(DEFAULT_CHUNK_SIZE),
            reserve_capacity: self.reserve_capacity.unwrap_or(DEFAULT_RESERVE_CAPACITY),
        }
    }
}

/// What a file holds of a network; the network id is never left out.
///
/// Hardforks and token are not stored.
#[derive(Debug)]
pub struct StoredHive {
    pub chain: Option<Chain>,
    pub network_id: u64,
    pub network_name: Option<String>,
    pub bootnodes: Option<Vec<String>>,
    pub genesis_timestamp: Option<u64>,
    pub chunk_size: Option<usize>,
    pub reserve_capacity: Option<u64>,
}

impl StoredHive {
    /// `spec` is the network that the stored values stand for: what is left
    /// out has its default, Accord is active from the epoch on, and the token
    /// is the one of development networks.
    pub open spec fn describes(self, spec: Hive) -> bool {
        &&& spec.chain.id == (match self.chain {
            Some(chain) => chain.id,
            None => super::chain::DEV_CHAIN_ID,
        })
        &&& spec.network_id == self.network_id
        &&& spec.network_name@ == (match self.network_name {
            Some(name) => name@,
            None => ""@,
        })
        &&& texts(spec.bootnodes@) == (match self.bootnodes {
            Some(addrs) => texts(addrs@),
            None => Seq::empty(),
        })
        &&& spec.hardforks == (SwarmHardforks { accord: Some(ForkCondition::Timestamp(0)) })
        &&& spec.token.is_dev()
        &&& spec.genesis_timestamp == (match self.genesis_timestamp {
            Some(timestamp) => timestamp,
            None => 0,
        })
        &&& spec.chunk_size == (match self.chunk_size {
            Some(size) => size,
            None => DEFAULT_CHUNK_SIZE,
        })
        &&& spec.reserve_capacity == (match self.reserve_capacity {
            Some(capacity) => capacity,
            None => DEFAULT_RESERVE_CAPACITY,
        })
    }

    /// The stored values are those of `spec`, with nothing left out.
    pub open spec fn stores(self, spec: Hive) -> bool {
        &&& self.chain == Some(spec.chain)
        &&& self.network_id == spec.network_id
        &&& self.network_name matches Some(name) && name@ == spec.network_name@
        &&& self.bootnodes matches Some(addrs) && texts(addrs@) == texts(spec.bootnodes@)
        &&& self.genesis_timestamp == Some(spec.genesis_timestamp)
        &&& self.chunk_size == Some(spec.chunk_size)
        &&& self.reserve_capacity == Some(spec.reserve_capacity)
    }

    /// What to store of a network.
    pub fn of(spec: &Hive) -> (stored: StoredHive)
        ensures
            stored.stores(*spec),
    {
        StoredHive {
            chain: Some(spec.chain),
            network_id: spec.network_id,
            network_name: Some(spec.network_name.clone()),
            bootnodes: Some(copied(&spec.bootnodes)),
            genesis_timestamp: Some(spec.genesis_timestamp),
            chunk_size: Some(spec.chunk_size),
            reserve_capacity: Some(spec.reserve_capacity),
        }
    }

    /// The network that the stored values stand for.
    pub fn load(self) -> (spec: Hive)
        ensures
            self.describes(spec),
    {
        let bootnodes: Vec<String> = match self.bootnodes {
            Some(addrs) => addrs,
            None => Vec::new(),
        };
        proof {
            assert(self.bootnodes is None ==> texts(bootnodes@) =~= Seq::empty());
        }
        Hive {
            chain: match self.chain {
                Some(chain) => chain,
                None => Chain::dev(),
            },
            network_id: self.network_id,
            network_name: match self.network_name {
                Some(name) => name,
                None => String::from_str(""),
            },
            bootnodes,
            hardforks: SwarmHardforks::accord_at(0),
            token: dev_token(),
            genesis_timestamp: self.genesis_timestamp.unwrap_or(0),
            chunk_size: self.chunk_size.unwrap_or(DEFAULT_CHUNK_SIZE),
            reserve_capacity: self.reserve_capacity.unwrap_or(DEFAULT_RESERVE_CAPACITY),
        }
    }
}

/// Loading what was stored of a network gives that network again, but for its
/// hardforks and its token, which are not stored.
pub proof fn loading_undoes_storing(stored: StoredHive, spec: Hive, loaded: Hive)
    requires
        stored.stores(spec),
        stored.describes(loaded),
    ensures
        loaded.chain == spec.chain,
        loaded.network_id == spec.network_id,
        loaded.network_name@ == spec.network_name@,
        texts(loaded.bootnodes@) == texts(spec.bootnodes@),
        loaded.genesis_timestamp == spec.genesis_timestamp,
        loaded.chunk_size == spec.chunk_size,
        loaded.reserve_capacity == spec.reserve_capacity,
{
}

/// A network built without hardforks has Accord from its beginning on, and not
/// before.
pub proof fn built_network_starts_at_genesis(
    builder: HiveBuilder,
    spec: Hive,
    genesis: GenesisTimes,
    fresh_id: u64,
    timestamp: u64,
)
    requires
        builder.hardforks.accord is None,
        builder.builds(spec, genesis, fresh_id),
    ensures
        spec.hardforks.active_at(SwarmHardfork::Accord, timestamp) == (timestamp
            >= spec.genesis_timestamp),
{
}

/// Building from the settings of a network that has hardforks gives that
/// network again.
pub proof fn rebuilding_keeps_the_network(
    builder: HiveBuilder,
    spec: Hive,
    rebuilt: Hive,
    genesis: GenesisTimes,
    fresh_id: u64,
)
    requires
        builder.copies(spec),
        spec.hardforks.accord is Some,
        builder.builds(rebuilt, genesis, fresh_id),
    ensures
        rebuilt.chain == spec.chain,
        rebuilt.network_id == spec.network_id,
        rebuilt.network_name@ == spec.network_name@,
        texts(rebuilt.bootnodes@) == texts(spec.bootnodes@),
        rebuilt.hardforks == spec.hardforks,
        rebuilt.token == spec.token,
        rebuilt.genesis_timestamp == spec.genesis_timestamp,
        rebuilt.chunk_size == spec.chunk_size,
        rebuilt.reserve_capacity == spec.reserve_capacity,
{
}

/// Whatever is set for a network, it is built with.
pub proof fn settings_are_kept(
    builder: HiveBuilder,
    spec: Hive,
    genesis: GenesisTimes,
    fresh_id: u64,
)
    requires
        builder.builds(spec, genesis, fresh_id),
    ensures
        builder.chain is Some ==> spec.chain == builder.chain->0,
        builder.network_id is Some ==> spec.network_id == builder.network_id->0,
        builder.network_name is Some ==> spec.network_name@ == (builder.network_name->0)@,
        builder.token is Some ==> spec.token == builder.token->0,
        builder.genesis_timestamp is Some ==> spec.genesis_timestamp
            == builder.genesis_timestamp->0,
        builder.hardforks.accord is Some ==> spec.hardforks == builder.hardforks,
        builder.chunk_size is Some ==> spec.chunk_size == builder.chunk_size->0,
        builder.reserve_capacity is Some ==> spec.reserve_capacity == builder.reserve_capacity->0,
        spec.bootnodes == builder.bootnodes,
{
}

/// What is not set follows from the chain, which is the development chain where
/// none is set: the mainnet's token and beginning on Gnosis Chain, the
/// testnet's on Sepolia, and those of a development network on any other.
pub proof fn the_rest_follows_the_chain(
    builder: HiveBuilder,
    spec: Hive,
    genesis: GenesisTimes,
    fresh_id: u64,
)
    requires
        builder.builds(spec, genesis, fresh_id),
    ensures
        builder.chain is None ==> spec.chain.id == 1337,
        builder.network_id is None ==> spec.network_id == fresh_id,
        builder.genesis_timestamp is None && spec.chain.id == 100 ==> spec.genesis_timestamp
            == genesis.mainnet,
        builder.genesis_timestamp is None && spec.chain.id == 11_155_111 ==> spec.genesis_timestamp
            == genesis.testnet,
        builder.genesis_timestamp is None && spec.chain.id != 100 && spec.chain.id != 11_155_111
            ==> spec.genesis_timestamp == 0,
        builder.token is None && spec.chain.id == 100 ==> spec.token.symbol@ == "xBZZ"@,
        builder.token is None && spec.chain.id == 11_155_111 ==> spec.token.symbol@ == "sBZZ"@,
        builder.token is None && spec.chain.id != 100 && spec.chain.id != 11_155_111
            ==> spec.token.symbol@ == "dBZZ"@,
        builder.chunk_size is None ==> spec.chunk_size == 4096,
        builder.reserve_capacity is None ==> spec.reserve_capacity == 4_194_304,
{
}

/// What tells the known networks apart.
pub proof fn known_networks_differ(spec: Hive, genesis: GenesisTimes, network_id: u64)
    ensures
        spec.is_mainnet_spec(genesis) ==> {
            &&& spec.chain.id == 100
            &&& spec.network_id == 1
            &&& spec.network_name@ == "mainnet"@
            &&& spec.bootnodes.len() == 1
            &&& spec.bootnodes@[0]@ == "/dnsaddr/mainnet.ethswarm.org"@
            &&& spec.genesis_timestamp == genesis.mainnet
            &&& spec.token.symbol@ == "xBZZ"@
            &&& spec.hardforks.active_at(SwarmHardfork::Accord, genesis.mainnet)
            &&& spec.chunk_size == 4096
            &&& spec.reserve_capacity == 4_194_304
        },
        spec.is_testnet_spec(genesis) ==> {
            &&& spec.chain.id == 11_155_111
            &&& spec.network_id == 10
            &&& spec.network_name@ == "testnet"@
            &&& spec.bootnodes.len() == 1
            &&& spec.bootnodes@[0]@ == "/dnsaddr/testnet.ethswarm.org"@
            &&& spec.genesis_timestamp == genesis.testnet
            &&& spec.token.symbol@ == "sBZZ"@
            &&& spec.hardforks.active_at(SwarmHardfork::Accord, genesis.testnet)
            &&& spec.chunk_size == 4096
            &&& spec.reserve_capacity == 4_194_304
        },
        spec.is_dev_spec(network_id) ==> {
            &&& spec.chain.id == 1337
            &&& spec.network_id == network_id
            &&& spec.network_name@ == "dev"@
            &&& spec.bootnodes.len() == 0
            &&& spec.genesis_timestamp == 0
            &&& spec.token.symbol@ == "dBZZ"@
            &&& spec.hardforks.active_at(SwarmHardfork::Accord, 0)
            &&& spec.chunk_size == 4096
            &&& spec.reserve_capacity == 4_194_304
        },
{
    if spec.is_mainnet_spec(genesis) {
        assert(texts(spec.bootnodes@)[0] == "/dnsaddr/mainnet.ethswarm.org"@);
        assert(texts(spec.bootnodes@).len() == 1);
    }
    if spec.is_testnet_spec(genesis) {
        assert(texts(spec.bootnodes@)[0] == "/dnsaddr/testnet.ethswarm.org"@);
        assert(texts(spec.bootnodes@).len() == 1);
    }
}

/// What a stored network leaves out is that of a development network.
pub proof fn left_out_values_are_filled_in(stored: StoredHive, spec: Hive)
    requires
        stored.describes(spec),
    ensures
        stored.chain is None ==> spec.chain.id == 1337,
        stored.network_name is None ==> spec.network_name@ == ""@,
        stored.bootnodes is None ==> spec.bootnodes.len() == 0,
        stored.genesis_timestamp is None ==> spec.genesis_timestamp == 0,
        stored.chunk_size is None ==> spec.chunk_size == 4096,
        stored.reserve_capacity is None ==> spec.reserve_capacity == 4_194_304,
        spec.hardforks.active_at(SwarmHardfork::Accord, 0),
        spec.token.symbol@ == "dBZZ"@,
{
    if stored.bootnodes is None {
        assert(texts(spec.bootnodes@).len() == 0);
    }
}

} // verus!
