//! Protocol selection for topology streams.
//!
//! Handshake, hive and ping-pong share one connection handler; this module
//! decides which of them a stream speaks, which addresses a handshake
//! advertises and what its outcome changes.

use crate::nat_discovery::{AdvertisedAddr, LocalAddressManager, Multiaddr};
use crate::primitives::OverlayAddress;
use crate::time::Instant;
use vstd::prelude::*;

verus! {

/// A protocol of the topology handler.
#[derive(Clone, Copy, Debug, PartialEq, Eq, Structural)]
pub enum TopologyProtocol {
    Handshake,
    Hive,
    Pingpong,
}

/// Errors from topology protocol upgrades, with the text of their cause.
#[derive(Debug)]
pub enum TopologyUpgradeError {
    Handshake(String),
    Hive(String),
    Pingpong(String),
    UnknownProtocol(String),
}

impl TopologyUpgradeError {
    /// The text of the cause.
    pub open spec fn cause(self) -> Seq<char> {
        match self {
            TopologyUpgradeError::Handshake(text) => text@,
            TopologyUpgradeError::Hive(text) => text@,
            TopologyUpgradeError::Pingpong(text) => text@,
            TopologyUpgradeError::UnknownProtocol(text) => text@,
        }
    }

    /// The text in front of the cause.
    pub open spec fn prefix(self) -> Seq<char> {
        match self {
            TopologyUpgradeError::Handshake(_) => "handshake error: "@,
            TopologyUpgradeError::Hive(_) => "hive error: "@,
            TopologyUpgradeError::Pingpong(_) => "pingpong error: "@,
            TopologyUpgradeError::UnknownProtocol(_) => "unknown protocol: "@,
        }
    }

    /// The error as text.
    pub fn message(&self) -> (text: String)
        ensures
            text@ == self.prefix() + self.cause(),
    {
        let mut text: String;
        match self {
            TopologyUpgradeError::Handshake(cause) => {
                text = String::from_str("handshake error: ");
                text.append(cause.as_str());
            },
            TopologyUpgradeError::Hive(cause) => {
                text = String::from_str("hive error: ");
                text.append(cause.as_str());
            },
            TopologyUpgradeError::Pingpong(cause) => {
                text = String::from_str("pingpong error: ");
                text.append(cause.as_str());
            },
            TopologyUpgradeError::UnknownProtocol(cause) => {
                text = String::from_str("unknown protocol: ");
                text.append(cause.as_str());
            },
        }
        text
    }
}

/// The names under which the protocols are negotiated.
#[derive(Debug)]
pub struct ProtocolNames {
    pub handshake: String,
    pub hive: String,
    pub pingpong: String,
}

impl ProtocolNames {
    /// The name of a protocol.
    pub open spec fn spec_name(self, protocol: TopologyProtocol) -> String {
        match protocol {
            TopologyProtocol::Handshake => self.handshake,
            TopologyProtocol::Hive => self.hive,
            TopologyProtocol::Pingpong => self.pingpong,
        }
    }

    /// The name of a protocol.
    pub fn name(&self, protocol: TopologyProtocol) -> (name: &String)
        ensures
            *name == self.spec_name(protocol),
    {
        match protocol {
            TopologyProtocol::Handshake => &self.handshake,
            TopologyProtocol::Hive => &self.hive,
            TopologyProtocol::Pingpong => &self.pingpong,
        }
    }

    /// The protocol that an inbound stream negotiated.
    pub fn inbound_protocol(&self, info: &String) -> (protocol: Result<
        TopologyProtocol,
        TopologyUpgradeError,
    >)
        ensures
            info@ == self.handshake@ ==> protocol == Ok::<TopologyProtocol, TopologyUpgradeError>(
                TopologyProtocol::Handshake,
            ),
            info@ != self.handshake@ && info@ == self.hive@ ==> protocol == Ok::<
                TopologyProtocol,
                TopologyUpgradeError,
            >(TopologyProtocol::Hive),
            info@ != self.handshake@ && info@ != self.hive@ && info@ == self.pingpong@ ==> protocol
                == Ok::<TopologyProtocol, TopologyUpgradeError>(TopologyProtocol::Pingpong),
            info@ != self.handshake@ && info@ != self.hive@ && info@ != self.pingpong@ ==> (
            protocol matches Err(TopologyUpgradeError::UnknownProtocol(text)) && text@ == info@),
    {
        if info.eq(&self.handshake) {
            Ok(TopologyProtocol::Handshake)
        } else if info.eq(&self.hive) {
            Ok(TopologyProtocol::Hive)
        } else if info.eq(&self.pingpong) {
            Ok(TopologyProtocol::Pingpong)
        } else {
            Err(TopologyUpgradeError::UnknownProtocol(info.clone()))
        }
    }
}

/// The protocols that an inbound stream may speak, in order of preference.
pub fn inbound_protocols() -> (protocols: Vec<TopologyProtocol>)
    ensures
        protocols@ == seq![
            TopologyProtocol::Handshake,
            TopologyProtocol::Hive,
            TopologyProtocol::Pingpong,
        ],
{
    let mut protocols: Vec<TopologyProtocol> = Vec::new();
    protocols.push(TopologyProtocol::Handshake);
    protocols.push(TopologyProtocol::Hive);
    protocols.push(TopologyProtocol::Pingpong);
    protocols
}

/// A request that this node opens a stream for.
#[derive(Debug)]
pub enum TopologyOutboundRequest {
    Handshake,
    /// Tell the peer about these peers.
    Hive(Vec<OverlayAddress>),
    /// Ping with this greeting.
    Pingpong(String),
}

impl TopologyOutboundRequest {
    /// The protocol of the request.
    pub open spec fn spec_protocol(self) -> TopologyProtocol {
        match self {
            TopologyOutboundRequest::Handshake => TopologyProtocol::Handshake,
            TopologyOutboundRequest::Hive(_) => TopologyProtocol::Hive,
            TopologyOutboundRequest::Pingpong(_) => TopologyProtocol::Pingpong,
        }
    }

    /// The protocol of the request.
    pub fn protocol(&self) -> (protocol: TopologyProtocol)
        ensures
            protocol == self.spec_protocol(),
    {
        match self {
            TopologyOutboundRequest::Handshake => TopologyProtocol::Handshake,
            TopologyOutboundRequest::Hive(_) => TopologyProtocol::Hive,
            TopologyOutboundRequest::Pingpong(_) => TopologyProtocol::Pingpong,
        }
    }

    /// What is noted about the request while it runs.
    pub fn info(&self, now: Instant) -> (info: TopologyOutboundInfo)
        ensures
            info == (match *self {
                TopologyOutboundRequest::Handshake => TopologyOutboundInfo::Handshake,
                TopologyOutboundRequest::Hive(_) => TopologyOutboundInfo::Hive,
                TopologyOutboundRequest::Pingpong(_) => TopologyOutboundInfo::Pingpong {
                    sent_at: now,
                },
            }),
    {
        match self {
            TopologyOutboundRequest::Handshake => TopologyOutboundInfo::Handshake,
            TopologyOutboundRequest::Hive(_) => TopologyOutboundInfo::Hive,
            TopologyOutboundRequest::Pingpong(_) => TopologyOutboundInfo::Pingpong {
                sent_at: now,
            },
        }
    }
}

/// What is noted about an outbound request while it runs.
#[derive(Clone, Copy, Debug, PartialEq, Eq, Structural)]
pub enum TopologyOutboundInfo {
    Handshake,
    Hive,
    Pingpong { sent_at: Instant },
}

/// What a stream does next, once its protocol is known.
#[derive(Debug)]
pub enum UpgradeStep {
    /// Run the handshake, advertising these addresses.
    Handshake(Vec<AdvertisedAddr>),
    /// Exchange peers.
    Hive,
    /// Exchange a ping.
    Pingpong,
}

/// The result of running a stream's protocol.
#[derive(Debug)]
pub enum UpgradeResult {
    /// The handshake completed; the peer observed this node at the address.
    Handshake(Multiaddr),
    /// The peers that were received.
    Hive(Vec<OverlayAddress>),
    /// The ping came back.
    Pingpong,
    /// The protocol failed, with the text of the cause.
    Failed(String),
}

/// The step of a stream that speaks `protocol` with a peer at `remote_addr`.
///
/// `admits` says of each verified external address whether the subnet rules
/// admit it for the peer, and `listen` holds the listen addresses that they
/// admit.
pub fn upgrade_step(
    protocol: TopologyProtocol,
    manager: &LocalAddressManager,
    remote_addr: &Multiaddr,
    admits: &[bool],
    listen: &[Multiaddr],
) -> (step: UpgradeStep)
    requires
        protocol == TopologyProtocol::Handshake ==> admits.len()
            == manager.confirmed_external_addrs.len(),
    ensures
        protocol == TopologyProtocol::Handshake ==> (step matches UpgradeStep::Handshake(addrs)
            && addrs@ == crate::nat_discovery::advertised(
            crate::nat_discovery::tiered(
                crate::nat_discovery::admitted(
                    manager.confirmed_external_addrs@,
                    admits@,
                    remote_addr.scope,
                ),
                listen@,
                if remote_addr.scope == Some(crate::nat_discovery::AddressScope::Loopback) {
                    Seq::empty()
                } else {
                    manager.nat_addrs@
                },
            ),
            manager.local_peer_id,
        )),
        protocol == TopologyProtocol::Hive ==> step is Hive,
        protocol == TopologyProtocol::Pingpong ==> step is Pingpong,
{
    match protocol {
        TopologyProtocol::Handshake => {
            UpgradeStep::Handshake(manager.addresses_for_peer(remote_addr, admits, listen))
        },
        TopologyProtocol::Hive => UpgradeStep::Hive,
        TopologyProtocol::Pingpong => UpgradeStep::Pingpong,
    }
}

/// Take note of how a stream's protocol ended. A completed handshake reports
/// the address at which the peer observed this node.
pub fn finish_upgrade(
    protocol: TopologyProtocol,
    manager: &mut LocalAddressManager,
    result: UpgradeResult,
) -> (outcome: Result<UpgradeResult, TopologyUpgradeError>)
    requires
        old(manager).wf(),
    ensures
        final(manager).wf(),
        match result {
            UpgradeResult::Failed(text) => {
                &&& *final(manager) == *old(manager)
                &&& outcome == Err::<UpgradeResult, TopologyUpgradeError>(
                    match protocol {
                        TopologyProtocol::Handshake => TopologyUpgradeError::Handshake(text),
                        TopologyProtocol::Hive => TopologyUpgradeError::Hive(text),
                        TopologyProtocol::Pingpong => TopologyUpgradeError::Pingpong(text),
                    },
                )
            },
            UpgradeResult::Handshake(observed) => {
                &&& *final(manager) == (LocalAddressManager {
                    observed_reachable: old(manager).observed_reachable
                        || observed.spec_is_public(),
                    ..*old(manager)
                })
                &&& outcome == Ok::<UpgradeResult, TopologyUpgradeError>(result)
            },
            _ => {
                &&& *final(manager) == *old(manager)
                &&& outcome == Ok::<UpgradeResult, TopologyUpgradeError>(result)
            },
        },
{
    match result {
        UpgradeResult::Failed(text) => Err(
            match protocol {
                TopologyProtocol::Handshake => TopologyUpgradeError::Handshake(text),
                TopologyProtocol::Hive => TopologyUpgradeError::Hive(text),
                TopologyProtocol::Pingpong => TopologyUpgradeError::Pingpong(text),
            },
        ),
        UpgradeResult::Handshake(observed) => {
            manager.on_observed_addr(&observed);
            Ok(UpgradeResult::Handshake(observed))
        },
        UpgradeResult::Hive(peers) => Ok(UpgradeResult::Hive(peers)),
        UpgradeResult::Pingpong => Ok(UpgradeResult::Pingpong),
    }
}

/// A request speaks the protocol that it is named after, and each protocol has
/// its own name.
pub proof fn requests_speak_their_protocol(
    names: ProtocolNames,
    peers: Vec<OverlayAddress>,
    greeting: String,
)
    ensures
        TopologyOutboundRequest::Handshake.spec_protocol() == TopologyProtocol::Handshake,
        TopologyOutboundRequest::Hive(peers).spec_protocol() == TopologyProtocol::Hive,
        TopologyOutboundRequest::Pingpong(greeting).spec_protocol() == TopologyProtocol::Pingpong,
        names.spec_name(TopologyProtocol::Handshake) == names.handshake,
        names.spec_name(TopologyProtocol::Hive) == names.hive,
        names.spec_name(TopologyProtocol::Pingpong) == names.pingpong,
{
}

/// How a failed upgrade is told: the protocol first, and then the cause.
pub proof fn upgrade_errors_tell_the_protocol(text: String)
    ensures
        TopologyUpgradeError::Handshake(text).prefix() == "handshake error: "@,
        TopologyUpgradeError::Hive(text).prefix() == "hive error: "@,
        TopologyUpgradeError::Pingpong(text).prefix() == "pingpong error: "@,
        TopologyUpgradeError::UnknownProtocol(text).prefix() == "unknown protocol: "@,
        TopologyUpgradeError::Handshake(text).cause() == text@,
        TopologyUpgradeError::Hive(text).cause() == text@,
        TopologyUpgradeError::Pingpong(text).cause() == text@,
        TopologyUpgradeError::UnknownProtocol(text).cause() == text@,
{
}

} // verus!
