//! Constants of the known Swarm networks.

use vstd::prelude::*;

verus! {

/// Network id of the mainnet.
pub const MAINNET_NETWORK_ID: u64 = 1;

/// Network id of the testnet.
pub const TESTNET_NETWORK_ID: u64 = 10;

/// The first network id handed out to a development network.
pub const FIRST_DEV_NETWORK_ID: u64 = 1337;

/// Chunk size in bytes.
pub const DEFAULT_CHUNK_SIZE: usize = 4096;

/// Reserve capacity of a full node in chunks.
pub const DEFAULT_RESERVE_CAPACITY: u64 = 4_194_304;

/// Decimal places of the Swarm token.
pub const TOKEN_DECIMALS: u8 = 16;

/// A contract or account address.
#[derive(Clone, Copy, Debug, PartialEq, Eq)]
pub struct Address {
    pub bytes: [u8; 20],
}

impl Address {
    /// The all-zero address.
    pub fn zero() -> (address: Address)
        ensures
            address.bytes@ == Seq::new(20, |i: int| 0u8),
    {
        let address = Address { bytes: [0u8; 20] };
        proof {
            assert(address.bytes@ =~= Seq::new(20, |i: int| 0u8));
        }
        address
    }
}

/// Details of a Swarm token.
#[derive(Clone, Copy, Debug, PartialEq, Eq)]
pub struct Token {
    pub address: Address,
    pub name: &'static str,
    pub symbol: &'static str,
    pub decimals: u8,
}

/// The bytes of the mainnet token contract's address.
pub open spec fn mainnet_token_bytes() -> Seq<u8> {
    seq![
        0xdB, 0xF3, 0xEa, 0x6F, 0x5b, 0xeE, 0x45, 0xc0, 0x22, 0x55,
        0xB2, 0xc2, 0x6a, 0x16, 0xF3, 0x00, 0x50, 0x2F, 0x68, 0xda,
    ]
}

/// The bytes of the testnet token contract's address.
pub open spec fn testnet_token_bytes() -> Seq<u8> {
    seq![
        0x54, 0x3d, 0xDb, 0x01, 0xBa, 0x47, 0xac, 0xB1, 0x1d, 0xe3,
        0x48, 0x91, 0xcD, 0x86, 0xB6, 0x75, 0xF0, 0x48, 0x40, 0xdb,
    ]
}

/// The bytes of the mainnet chequebook factory's address.
pub open spec fn mainnet_chequebook_bytes() -> Seq<u8> {
    seq![
        0xc2, 0xd5, 0xa5, 0x32, 0xcf, 0x69, 0xaa, 0x9a, 0x13, 0x78,
        0x73, 0x7d, 0x8c, 0xcd, 0xef, 0x88, 0x4b, 0x6e, 0x74, 0x20,
    ]
}

/// The bytes of the testnet chequebook factory's address.
pub open spec fn testnet_chequebook_bytes() -> Seq<u8> {
    seq![
        0x0f, 0xF0, 0x44, 0xF6, 0xbB, 0x4F, 0x68, 0x4a, 0x5A, 0x14,
        0x9B, 0x46, 0xD7, 0xeC, 0x03, 0xea, 0x65, 0x9F, 0x98, 0xA1,
    ]
}

/// The bytes of the mainnet swap price oracle's address.
pub open spec fn mainnet_oracle_bytes() -> Seq<u8> {
    seq![
        0xA5, 0x7A, 0x50, 0xa8, 0x31, 0xB3, 0x1c, 0x90, 0x4A, 0x77,
        0x0e, 0xdB, 0xCb, 0x70, 0x6E, 0x03, 0xaf, 0xCd, 0xbd, 0x94,
    ]
}

/// The bytes of the testnet swap price oracle's address.
pub open spec fn testnet_oracle_bytes() -> Seq<u8> {
    seq![
        0x18, 0x14, 0xe9, 0xb3, 0x95, 0x1D, 0xf0, 0xCB, 0x8e, 0x12,
        0xb2, 0xbB, 0x99, 0xc5, 0x59, 0x45, 0x14, 0x58, 0x89, 0x36,
    ]
}

/// Reads `nectar_contracts::mainnet::BZZ_TOKEN`, trusted to hold the address
/// that the contract states.
#[verifier::external_body]
fn mainnet_bzz_token() -> (bytes: [u8; 20])
    ensures
        bytes@ == mainnet_token_bytes(),
{
    nectar_contracts::mainnet::BZZ_TOKEN.address.0.0
}

/// Reads `nectar_contracts::testnet::BZZ_TOKEN`, trusted to hold the address
/// that the contract states.
#[verifier::external_body]
fn testnet_bzz_token() -> (bytes: [u8; 20])
    ensures
        bytes@ == testnet_token_bytes(),
{
    nectar_contracts::testnet::BZZ_TOKEN.address.0.0
}

/// Reads `nectar_contracts::mainnet::CHEQUEBOOK_FACTORY`, trusted to hold the
/// address that the contract states.
#[verifier::external_body]
fn mainnet_chequebook_factory() -> (bytes: [u8; 20])
    ensures
        bytes@ == mainnet_chequebook_bytes(),
{
    nectar_contracts::mainnet::CHEQUEBOOK_FACTORY.address.0.0
}

/// Reads `nectar_contracts::testnet::CHEQUEBOOK_FACTORY`, trusted to hold the
/// address that the contract states.
#[verifier::external_body]
fn testnet_chequebook_factory() -> (bytes: [u8; 20])
    ensures
        bytes@ == testnet_chequebook_bytes(),
{
    nectar_contracts::testnet::CHEQUEBOOK_FACTORY.address.0.0
}

/// Reads `nectar_contracts::mainnet::SWAP_PRICE_ORACLE`, trusted to hold the
/// address that the contract states.
#[verifier::external_body]
fn mainnet_swap_price_oracle() -> (bytes: [u8; 20])
    ensures
        bytes@ == mainnet_oracle_bytes(),
{
    nectar_contracts::mainnet::SWAP_PRICE_ORACLE.address.0.0
}

/// Reads `nectar_contracts::testnet::SWAP_PRICE_ORACLE`, trusted to hold the
/// address that the contract states.
#[verifier::external_body]
fn testnet_swap_price_oracle() -> (bytes: [u8; 20])
    ensures
        bytes@ == testnet_oracle_bytes(),
{
    nectar_contracts::testnet::SWAP_PRICE_ORACLE.address.0.0
}

/// The token on the mainnet: xBZZ on Gnosis Chain.
pub fn mainnet_token() -> (token: Token)
    ensures
        token.is_mainnet(),
{
    Token {
        address: Address { bytes: mainnet_bzz_token() },
        name: "Swarm",
        symbol: "xBZZ",
        decimals: TOKEN_DECIMALS,
    }
}

/// The token on the testnet: sBZZ on Sepolia.
pub fn testnet_token() -> (token: Token)
    ensures
        token.is_testnet(),
{
    Token {
        address: Address { bytes: testnet_bzz_token() },
        name: "Test Swarm",
        symbol: "sBZZ",
        decimals: TOKEN_DECIMALS,
    }
}

/// The token of development networks.
pub fn dev_token() -> (token: Token)
    ensures
        token.is_dev(),
{
    Token {
        address: Address::zero(),
        name: "Dev Swarm",
        symbol: "dBZZ",
        decimals: TOKEN_DECIMALS,
    }
}

impl Token {
    /// The token of the mainnet.
    pub open spec fn is_mainnet(self) -> bool {
        &&& self.address.bytes@ == mainnet_token_bytes()
        &&& self.name@ == "Swarm"@
        &&& self.symbol@ == "xBZZ"@
        &&& self.decimals == TOKEN_DECIMALS
    }

    /// The token of the testnet.
    pub open spec fn is_testnet(self) -> bool {
        &&& self.address.bytes@ == testnet_token_bytes()
        &&& self.name@ == "Test Swarm"@
        &&& self.symbol@ == "sBZZ"@
        &&& self.decimals == TOKEN_DECIMALS
    }

    /// The token of development networks.
    pub open spec fn is_dev(self) -> bool {
        &&& self.address.bytes@ == Seq::new(20, |i: int| 0u8)
        &&& self.name@ == "Dev Swarm"@
        &&& self.symbol@ == "dBZZ"@
        &&& self.decimals == TOKEN_DECIMALS
    }
}

/// The swap contracts of a network.
#[derive(Clone, Copy, Debug, PartialEq, Eq)]
pub struct SwapContracts {
    pub chequebook_factory: Address,
    pub price_oracle: Address,
}

/// The swap contracts of the mainnet.
pub fn mainnet_swap() -> (swap: SwapContracts)
    ensures
        swap.chequebook_factory.bytes@ == mainnet_chequebook_bytes(),
        swap.price_oracle.bytes@ == mainnet_oracle_bytes(),
{
    SwapContracts {
        chequebook_factory: Address { bytes: mainnet_chequebook_factory() },
        price_oracle: Address { bytes: mainnet_swap_price_oracle() },
    }
}

/// The swap contracts of the testnet.
pub fn testnet_swap() -> (swap: SwapContracts)
    ensures
        swap.chequebook_factory.bytes@ == testnet_chequebook_bytes(),
        swap.price_oracle.bytes@ == testnet_oracle_bytes(),
{
    SwapContracts {
        chequebook_factory: Address { bytes: testnet_chequebook_factory() },
        price_oracle: Address { bytes: testnet_swap_price_oracle() },
    }
}

/// Hands out network ids for development networks, and remembers the id of the
/// one that is shared.
#[derive(Clone, Copy, Debug, PartialEq, Eq, Structural)]
pub struct DevNetworkIds {
    /// The next id to hand out.
    pub next: u64,
    /// The id of the shared development network, once it was asked for.
    pub shared: Option<u64>,
}

impl DevNetworkIds {
    /// The state after an id was handed out.
    pub open spec fn after_id(self) -> DevNetworkIds {
        DevNetworkIds { next: crate::arith::one_more(self.next), ..self }
    }

    /// The id of the shared development network: the next one if it was never
    /// asked for.
    pub open spec fn shared_id(self) -> u64 {
        match self.shared {
            Some(id) => id,
            None => self.next,
        }
    }

    /// The state after the shared development network was asked for.
    pub open spec fn after_shared(self) -> DevNetworkIds {
        match self.shared {
            Some(_) => self,
            None => DevNetworkIds { shared: Some(self.next), ..self.after_id() },
        }
    }

    /// No id has been handed out.
    pub fn new() -> (ids: DevNetworkIds)
        ensures
            ids == (DevNetworkIds { next: FIRST_DEV_NETWORK_ID, shared: None }),
    {
        DevNetworkIds { next: FIRST_DEV_NETWORK_ID, shared: None }
    }

    /// A network id that no development network has yet. The ids start over
    /// after the largest one.
    pub fn generate_dev_network_id(&mut self) -> (id: u64)
        ensures
            id == old(self).next,
            *final(self) == old(self).after_id(),
    {
        let id: u64 = self.next;
        self.next = self.next.wrapping_add(1);
        id
    }

    /// The id of the shared development network, which is drawn once.
    pub fn shared_dev_network_id(&mut self) -> (id: u64)
        ensures
            id == old(self).shared_id(),
            *final(self) == old(self).after_shared(),
    {
        match self.shared {
            Some(id) => id,
            None => {
                let id: u64 = self.generate_dev_network_id();
                self.shared = Some(id);
                id
            },
        }
    }
}

/// Two network ids handed out one after the other differ.
pub proof fn dev_ids_differ(ids: DevNetworkIds)
    ensures
        ids.after_id().next != ids.next,
{
}

/// The shared development network is made once: whoever asks for it again gets
/// the same id, and no id that is handed out in between changes it.
pub proof fn shared_network_is_made_once(ids: DevNetworkIds)
    ensures
        ids.after_shared().shared_id() == ids.shared_id(),
        ids.after_shared().after_shared() == ids.after_shared(),
        ids.after_shared().after_id().shared_id() == ids.shared_id(),
{
}

/// What the tokens of the known networks are called.
pub proof fn tokens_are_told_by_their_names(token: Token)
    ensures
        token.is_mainnet() ==> token.name@ == "Swarm"@ && token.symbol@ == "xBZZ"@
            && token.decimals == 16,
        token.is_testnet() ==> token.name@ == "Test Swarm"@ && token.symbol@ == "sBZZ"@
            && token.decimals == 16,
        token.is_dev() ==> token.name@ == "Dev Swarm"@ && token.symbol@ == "dBZZ"@
            && token.decimals == 16 && forall|i: int|
            0 <= i < 20 ==> #[trigger] token.address.bytes@[i] == 0,
{
}

} // verus!
