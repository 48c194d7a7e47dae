use alloy_chains::NamedChain;
use vertex_topology::swarmspec::chain::{decimal_text, default_network_name, Chain};
use vertex_topology::swarmspec::constants::{
    dev_token, mainnet_swap, mainnet_token, testnet_swap, testnet_token, Address, DevNetworkIds,
    MAINNET_NETWORK_ID, TESTNET_NETWORK_ID,
};
use vertex_topology::swarmspec::hardforks::{
    ForkCondition, GenesisTimes, SwarmHardfork, SwarmHardforks,
};
use vertex_topology::swarmspec::spec::{Hive, HiveBuilder, StoredHive, Swarm};

const GENESIS: GenesisTimes = GenesisTimes { mainnet: 1_623_255_587, testnet: 1_704_067_200 };

fn chain_of(chain: NamedChain) -> Chain {
    Chain::from_id(alloy_chains::Chain::from_named(chain).id())
}

#[test]
fn test_mainnet_spec() {
    let spec = Hive::init_mainnet(&GENESIS);
    assert_eq!(spec.network_id, MAINNET_NETWORK_ID);
    assert_eq!(spec.network_name, "mainnet");
    assert_eq!(spec.chain, chain_of(NamedChain::Gnosis));
    assert_eq!(spec.token, mainnet_token());
}

#[test]
fn test_testnet_spec() {
    let spec = Hive::init_testnet(&GENESIS);
    assert_eq!(spec.network_id, TESTNET_NETWORK_ID);
    assert_eq!(spec.network_name, "testnet");
    assert_eq!(spec.chain, chain_of(NamedChain::Sepolia));
    assert_eq!(spec.token, testnet_token());
}

#[test]
fn test_default_spec() {
    let spec = Hive::default(&mut DevNetworkIds::new());
    assert_eq!(spec.chain, chain_of(NamedChain::Dev));
    assert_eq!(spec.token, dev_token());
    assert!(spec.hardforks.get(SwarmHardfork::Accord).is_some());
}

#[test]
fn test_dev_network_id() {
    let mut ids = DevNetworkIds::new();
    let id1 = ids.generate_dev_network_id();
    let id2 = ids.generate_dev_network_id();
    assert_ne!(id1, id2);
}

#[test]
fn test_builder() {
    let multiaddr = String::from("/ip4/127.0.0.1/tcp/1634");

    let spec = HiveBuilder::new()
        .chain(chain_of(NamedChain::Dev))
        .network_id(1337)
        .network_name(String::from("test"))
        .add_bootnode(multiaddr.clone())
        .with_accord(1000)
        .build(&GENESIS, &mut DevNetworkIds::new());

    assert_eq!(spec.chain, chain_of(NamedChain::Dev));
    assert_eq!(spec.network_id, 1337);
    assert_eq!(spec.network_name, "test");
    assert_eq!(spec.bootnodes.len(), 1);
    assert_eq!(spec.bootnodes[0], multiaddr);

    // Check hardfork
    assert!(spec.is_accord_active_at_timestamp(1000));
    assert!(!spec.is_accord_active_at_timestamp(999));
}

#[test]
fn test_builder_from_networks() {
    let mut ids = DevNetworkIds::new();

    let mainnet_spec = HiveBuilder::mainnet(&GENESIS).build(&GENESIS, &mut ids);
    assert_eq!(mainnet_spec.network_id, MAINNET_NETWORK_ID);

    let testnet_spec = HiveBuilder::testnet(&GENESIS).build(&GENESIS, &mut ids);
    assert_eq!(testnet_spec.network_id, TESTNET_NETWORK_ID);

    let dev_builder = HiveBuilder::dev(&mut ids);
    let dev_spec = dev_builder.build(&GENESIS, &mut ids);
    assert_eq!(dev_spec.chain, chain_of(NamedChain::Dev));
}

#[test]
fn test_swarm_spec_trait_implementation() {
    let spec = Hive::init_mainnet(&GENESIS);

    assert_eq!(spec.swarm(), Swarm::from_id(1));
    assert_eq!(spec.chain(), chain_of(NamedChain::Gnosis));

    assert!(spec.is_mainnet());
    assert!(!spec.is_testnet());

    let genesis_timestamp = GENESIS.mainnet;
    assert!(spec.is_fork_active_at_timestamp(SwarmHardfork::Accord, genesis_timestamp));
    assert!(!spec.is_fork_active_at_timestamp(SwarmHardfork::Accord, genesis_timestamp - 1));
}

#[test]
fn a_chain_without_a_name_reads_as_its_id() {
    assert_eq!(chain_of(NamedChain::Gnosis).network_name(), default_network_name(
        Some(String::from(NamedChain::Gnosis.as_str())),
        100,
    ));
    assert_eq!(decimal_text(0), "0");
    assert_eq!(decimal_text(u64::MAX), "18446744073709551615");
    assert_eq!(
        Chain::from_id(987_654_321_987).network_name(),
        default_network_name(None, 987_654_321_987)
    );
}

#[test]
fn deployed_addresses_are_those_of_the_contracts_crate() {
    let mainnet = mainnet_token();
    let testnet = testnet_token();
    assert_eq!(
        mainnet.address.bytes,
        nectar_contracts::mainnet::BZZ_TOKEN.address.0 .0
    );
    assert_eq!(
        testnet.address.bytes,
        nectar_contracts::testnet::BZZ_TOKEN.address.0 .0
    );
    assert_ne!(mainnet.address, Address::zero());
    assert_ne!(mainnet_swap(), testnet_swap());
    assert_eq!(dev_token().address, Address::zero());
}

#[test]
fn a_fork_that_is_not_scheduled_never_activates() {
    let mut forks = SwarmHardforks::new();
    assert!(forks.is_empty());
    assert_eq!(forks.fork(SwarmHardfork::Accord), ForkCondition::Never);
    assert!(!forks.is_fork_active_at_timestamp(SwarmHardfork::Accord, u64::MAX));
    forks.insert(SwarmHardfork::Accord, ForkCondition::Timestamp(7));
    assert!(forks.is_fork_active_at_timestamp(SwarmHardfork::Accord, 7));
    assert!(!forks.is_fork_active_at_timestamp(SwarmHardfork::Accord, 6));
}

#[test]
fn a_rebuilt_network_keeps_its_identity() {
    let spec = HiveBuilder::mainnet(&GENESIS)
        .genesis_timestamp(5)
        .chunk_size(8192)
        .reserve_capacity(77)
        .build(&GENESIS, &mut DevNetworkIds::new());
    assert_eq!(spec.network_id(), MAINNET_NETWORK_ID);
    assert_eq!(spec.network_name(), "mainnet");
    assert_eq!(spec.genesis_timestamp(), 5);
    assert_eq!((spec.chunk_size, spec.reserve_capacity), (8192, 77));
}

#[test]
fn a_stored_network_loads_again() {
    let spec = Hive::init_testnet(&GENESIS);
    let loaded = StoredHive::of(&spec).load();
    assert_eq!(loaded.chain, spec.chain);
    assert_eq!(loaded.network_id, spec.network_id);
    assert_eq!(loaded.network_name, spec.network_name);
    assert_eq!(loaded.bootnodes, spec.bootnodes);
    assert_eq!(loaded.genesis_timestamp, spec.genesis_timestamp);
    assert_eq!(loaded.token, dev_token());
    assert!(loaded.is_accord_active_at_timestamp(0));
}

#[test]
fn values_left_out_of_a_file_have_defaults() {
    let loaded = StoredHive {
        chain: None,
        network_id: 7,
        network_name: None,
        bootnodes: None,
        genesis_timestamp: None,
        chunk_size: None,
        reserve_capacity: None,
    }
    .load();
    assert_eq!(loaded.chain, chain_of(NamedChain::Dev));
    assert_eq!(loaded.network_id, 7);
    assert_eq!(loaded.network_name, "");
    assert!(loaded.bootnodes.is_empty());
    assert_eq!(loaded.genesis_timestamp, 0);
    assert_eq!((loaded.chunk_size, loaded.reserve_capacity), (4096, 4_194_304));
}

#[test]
fn the_development_network_is_made_once() {
    let mut ids = DevNetworkIds::new();
    let own = Hive::default(&mut ids);
    let first = Hive::init_dev(&mut ids);
    assert_ne!(first.network_id, own.network_id);

    let other = Hive::default(&mut ids);
    assert_ne!(other.network_id, first.network_id);

    let again = Hive::init_dev(&mut ids);
    assert_eq!(again.network_id, first.network_id);
    let built = HiveBuilder::dev(&mut ids).build(&GENESIS, &mut ids);
    assert_eq!(built.network_id, first.network_id);
    assert_eq!(built.network_name, "dev");
    assert_eq!(first.network_id, own.network_id + 1);
}
