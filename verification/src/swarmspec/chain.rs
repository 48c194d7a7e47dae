//! The blockchain a Swarm network settles on.

use vstd::prelude::*;

verus! {

/// Id of Gnosis Chain, on which the mainnet settles.
pub const GNOSIS_CHAIN_ID: u64 = 100;

/// Id of Sepolia, on which the testnet settles.
pub const SEPOLIA_CHAIN_ID: u64 = 11_155_111;

/// Id of local development chains.
pub const DEV_CHAIN_ID: u64 = 1337;

/// A blockchain, by its id.
#[derive(Clone, Copy, Debug, PartialEq, Eq, Structural)]
pub struct Chain {
    pub id: u64,
}

/// The name under which `alloy_chains` knows the chain of an id, if it does.
pub uninterp spec fn chain_name(id: u64) -> Option<Seq<char>>;

/// Calls `Chain::from_id`, `Chain::named` and the text of the named chain of
/// `alloy_chains`. It is trusted that the result depends on the id alone.
#[verifier::external_body]
fn named_chain(id: u64) -> (name: Option<String>)
    ensures
        match name {
            Some(text) => chain_name(id) == Some(text@),
            None => chain_name(id) is None,
        },
{
    match alloy_chains::Chain::from_id(id).named() {
        Some(named) => Some(named.to_string()),
        None => None,
    }
}

/// The decimal digits of a number.
pub open spec fn decimal(n: nat) -> Seq<char>
    decreases n,
{
    if n < 10 {
        seq![crate::metrics::digit(n as u8)]
    } else {
        decimal(n / 10).push(crate::metrics::digit((n % 10) as u8))
    }
}

/// The decimal digits of a number.
pub fn decimal_text(n: u64) -> (text: String)
    ensures
        text@ == decimal(n as nat),
    decreases n,
{
    let last: u8 = (n % 10) as u8;
    if n < 10 {
        let mut text: String = String::new();
        text.append(crate::metrics::po_label(last));
        proof {
            assert(text@ =~= decimal(n as nat));
        }
        text
    } else {
        let mut text: String = decimal_text(n / 10);
        text.append(crate::metrics::po_label(last));
        proof {
            assert(text@ =~= decimal(n as nat));
        }
        text
    }
}

/// The network name of a chain: its own name, or its id.
pub open spec fn name_or_id(name: Option<Seq<char>>, id: u64) -> Seq<char> {
    match name {
        Some(text) => text,
        None => "chain-"@ + decimal(id as nat),
    }
}

/// The network name of a chain of the given name, if it has one, and id.
pub fn default_network_name(name: Option<String>, id: u64) -> (text: String)
    ensures
        text@ == name_or_id(
            match name {
                Some(given) => Some(given@),
                None => None,
            },
            id,
        ),
{
    match name {
        Some(given) => given,
        None => {
            let mut text: String = String::from_str("chain-");
            let digits: String = decimal_text(id);
            text.append(digits.as_str());
            text
        },
    }
}

impl Chain {
    /// The chain of an id.
    pub fn from_id(id: u64) -> (chain: Chain)
        ensures
            chain.id == id,
    {
        Chain { id }
    }

    /// Gnosis Chain.
    pub fn gnosis() -> (chain: Chain)
        ensures
            chain.id == GNOSIS_CHAIN_ID,
    {
        Chain { id: GNOSIS_CHAIN_ID }
    }

    /// Sepolia.
    pub fn sepolia() -> (chain: Chain)
        ensures
            chain.id == SEPOLIA_CHAIN_ID,
    {
        Chain { id: SEPOLIA_CHAIN_ID }
    }

    /// The local development chain.
    pub fn dev() -> (chain: Chain)
        ensures
            chain.id == DEV_CHAIN_ID,
    {
        Chain { id: DEV_CHAIN_ID }
    }

    /// The id of the chain.
    pub fn id(&self) -> (id: u64)
        ensures
            id == self.id,
    {
        self.id
    }

    /// The name that a network on this chain has by default.
    pub fn network_name(&self) -> (text: String)
        ensures
            text@ == name_or_id(chain_name(self.id), self.id),
    {
        default_network_name(named_chain(self.id), self.id)
    }
}

/// The number that decimal digits spell.
pub open spec fn spelled(text: Seq<char>) -> int
    decreases text.len(),
{
    if text.len() == 0 {
        0
    } else {
        10 * spelled(text.drop_last()) + (text.last() as int - '0' as int)
    }
}

/// The digits of a number spell it again, each is a decimal digit, and no zero
/// leads but that of zero itself.
pub proof fn digits_spell_the_number(n: nat)
    ensures
        spelled(decimal(n)) == n,
        decimal(n).len() > 0,
        forall|i: int|
            #![trigger decimal(n)[i]]
            0 <= i < decimal(n).len() ==> '0' as int <= decimal(n)[i] as int <= '9' as int,
        n > 0 ==> decimal(n)[0] as int > '0' as int,
    decreases n,
{
    reveal_with_fuel(spelled, 2);
    if n < 10 {
        let text = decimal(n);
        assert(text.drop_last() =~= Seq::<char>::empty());
        assert(text.last() as int == 48 + n);
    } else {
        digits_spell_the_number(n / 10);
        let text = decimal(n);
        assert(text.drop_last() =~= decimal(n / 10));
        assert(text.last() as int == 48 + n % 10);
        assert forall|i: int| #![trigger text[i]] 0 <= i < text.len() implies '0' as int
            <= text[i] as int <= '9' as int by {
            if i < text.len() - 1 {
                assert(text[i] == decimal(n / 10)[i]);
            }
        }
        assert(text[0] == decimal(n / 10)[0]);
    }
}

/// A named chain gives a network its name; any other its id in digits.
pub proof fn networks_are_named_by_their_chain(name: Seq<char>, id: u64)
    ensures
        name_or_id(Some(name), id) == name,
        name_or_id(None, id) == "chain-"@ + decimal(id as nat),
{
}

} // verus!
