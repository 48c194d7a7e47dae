//! The topology service: its configuration, and the peers it dials at start.

use crate::nat_discovery::{LocalAddressManager, Multiaddr};
use crate::primitives::{OverlayAddress, MAX_PO};
use crate::routing::config::KademliaConfig;
use crate::routing::kademlia::KademliaRouting;
use crate::time::Duration;
use vstd::prelude::*;

verus! {

/// Events that the event channel holds before slow consumers lag behind.
pub const EVENT_CHANNEL_CAPACITY: usize = 256;

/// Commands that the command channel holds.
pub const COMMAND_CHANNEL_CAPACITY: usize = 64;

/// Seconds between two gossip refreshes by default.
pub const DEFAULT_GOSSIP_REFRESH_SECS: u64 = 600;

/// Peers gossiped to a distant peer by default.
pub const DEFAULT_MAX_PEERS_FOR_DISTANT: usize = 16;

/// Gossip configuration.
#[derive(Clone, Copy, Debug, PartialEq, Eq, Structural)]
pub struct HiveGossipConfig {
    /// Time between two refreshes.
    pub refresh_interval: Duration,
    /// How many peers a distant peer is told about.
    pub max_peers_for_distant: usize,
}

impl HiveGossipConfig {
    /// The default configuration.
    pub open spec fn spec_default() -> HiveGossipConfig {
        HiveGossipConfig {
            refresh_interval: Duration {
                nanos: (DEFAULT_GOSSIP_REFRESH_SECS * crate::time::NANOS_PER_SEC) as u128,
            },
            max_peers_for_distant: DEFAULT_MAX_PEERS_FOR_DISTANT,
        }
    }

    /// Replace the refresh interval.
    pub fn with_refresh_interval(self, interval: Duration) -> (config: HiveGossipConfig)
        ensures
            config == (HiveGossipConfig { refresh_interval: interval, ..self }),
    {
        HiveGossipConfig { refresh_interval: interval, ..self }
    }

    /// Replace the number of peers for a distant peer.
    pub fn with_max_peers_for_distant(self, count: usize) -> (config: HiveGossipConfig)
        ensures
            config == (HiveGossipConfig { max_peers_for_distant: count, ..self }),
    {
        HiveGossipConfig { max_peers_for_distant: count, ..self }
    }
}

impl Default for HiveGossipConfig {
    fn default() -> (config: HiveGossipConfig)
        ensures
            config == HiveGossipConfig::spec_default(),
    {
        HiveGossipConfig {
            refresh_interval: Duration::from_secs(DEFAULT_GOSSIP_REFRESH_SECS),
            max_peers_for_distant: DEFAULT_MAX_PEERS_FOR_DISTANT,
        }
    }
}

/// Topology configuration: routing, dial interval and gossip.
#[derive(Clone, Copy, Debug, PartialEq, Eq, Structural)]
pub struct TopologyServiceConfig {
    /// Routing configuration.
    pub kademlia: KademliaConfig,
    /// Dial candidate check interval; `None` for the default, zero disables
    /// dial polling.
    pub dial_interval: Option<Duration>,
    /// Gossip configuration; `None` disables gossip.
    pub gossip: Option<HiveGossipConfig>,
}

impl TopologyServiceConfig {
    /// The default configuration: default routing, no gossip.
    pub open spec fn spec_default() -> TopologyServiceConfig {
        TopologyServiceConfig {
            kademlia: KademliaConfig::spec_default(),
            dial_interval: None,
            gossip: None,
        }
    }

    /// Create with default values.
    pub fn new() -> (config: TopologyServiceConfig)
        ensures
            config == TopologyServiceConfig::spec_default(),
    {
        TopologyServiceConfig {
            kademlia: KademliaConfig::default(),
            dial_interval: None,
            gossip: None,
        }
    }

    /// Set the routing configuration.
    pub fn with_kademlia(self, config: KademliaConfig) -> (out: TopologyServiceConfig)
        ensures
            out == (TopologyServiceConfig { kademlia: config, ..self }),
    {
        TopologyServiceConfig { kademlia: config, ..self }
    }

    /// Set the dial candidate check interval.
    pub fn with_dial_interval(self, interval: Duration) -> (out: TopologyServiceConfig)
        ensures
            out == (TopologyServiceConfig { dial_interval: Some(interval), ..self }),
    {
        TopologyServiceConfig { dial_interval: Some(interval), ..self }
    }

    /// Enable gossip with the given configuration.
    pub fn with_gossip(self, config: HiveGossipConfig) -> (out: TopologyServiceConfig)
        ensures
            out == (TopologyServiceConfig { gossip: Some(config), ..self }),
    {
        TopologyServiceConfig { gossip: Some(config), ..self }
    }

    /// Enable gossip with the default configuration.
    pub fn with_gossip_enabled(self) -> (out: TopologyServiceConfig)
        ensures
            out == (TopologyServiceConfig {
                gossip: Some(HiveGossipConfig::spec_default()),
                ..self
            }),
    {
        TopologyServiceConfig { gossip: Some(HiveGossipConfig::default()), ..self }
    }
}

impl Default for TopologyServiceConfig {
    fn default() -> (config: TopologyServiceConfig)
        ensures
            config == TopologyServiceConfig::spec_default(),
    {
        TopologyServiceConfig::new()
    }
}

/// Why the service could not be created.
#[derive(Debug)]
pub enum TopologyError {
    /// The peer store could not be opened.
    PeerStoreCreation { path: String, reason: String },
    /// The stored peers could not be loaded.
    PeerStoreLoad { reason: String },
}

/// The addresses that the network configuration names.
#[derive(Debug)]
pub struct NetworkAddrs {
    pub bootnodes: Vec<Multiaddr>,
    pub trusted_peers: Vec<Multiaddr>,
    pub listen_addrs: Vec<Multiaddr>,
    pub nat_addrs: Vec<Multiaddr>,
    /// Automatic NAT discovery is enabled.
    pub nat_auto: bool,
}

/// A series of dials: the targets in order, until enough dials went out.
///
/// The caller asks for the next target, dials it and reports the outcome.
#[derive(Debug)]
pub struct DialRound {
    pub targets: Vec<Multiaddr>,
    /// How many targets were handed out.
    pub tried: usize,
    /// How many dials went out.
    pub connected: usize,
    /// How many dials suffice; `None` for all targets.
    pub wanted: Option<usize>,
}

impl DialRound {
    /// Every dial that went out was tried, and no more went out than suffice.
    pub open spec fn wf(self) -> bool {
        &&& self.connected <= self.tried <= self.targets.len()
        &&& self.wanted matches Some(wanted) ==> self.connected <= wanted
    }

    /// No further target is dialed.
    pub open spec fn is_over(self) -> bool {
        self.tried == self.targets.len() || (self.wanted matches Some(wanted) && self.connected
            >= wanted)
    }

    /// A round over `targets`, in this order.
    pub fn new(targets: Vec<Multiaddr>, wanted: Option<usize>) -> (round: DialRound)
        ensures
            round == (DialRound { targets, tried: 0, connected: 0, wanted }),
            round.wf(),
    {
        DialRound { targets, tried: 0, connected: 0, wanted }
    }

    /// The next target to dial, if any.
    pub fn next_target(&self) -> (target: Option<Multiaddr>)
        requires
            self.wf(),
        ensures
            target == if self.is_over() {
                None
            } else {
                Some(self.targets@[self.tried as int])
            },
    {
        if let Some(wanted) = self.wanted {
            if self.connected >= wanted {
                return None;
            }
        }
        if self.tried < self.targets.len() {
            Some(self.targets[self.tried])
        } else {
            None
        }
    }

    /// Note whether the dial of the target handed out last went out.
    pub fn on_dialed(&mut self, dialed: bool)
        requires
            old(self).wf(),
            !old(self).is_over(),
        ensures
            final(self).wf(),
            *final(self) == (DialRound {
                tried: (old(self).tried + 1) as usize,
                connected: if dialed {
                    (old(self).connected + 1) as usize
                } else {
                    old(self).connected
                },
                ..*old(self)
            }),
    {
        self.tried = self.tried + 1;
        if dialed {
            self.connected = self.connected + 1;
        }
    }

    /// How many dials went out.
    pub fn connected(&self) -> (n: usize)
        ensures
            n == self.connected,
    {
        self.connected
    }
}

/// The topology service: the routing table, the local addresses and the peers
/// to dial at start.
#[derive(Debug)]
pub struct TopologyService {
    pub routing: KademliaRouting,
    pub nat_discovery: LocalAddressManager,
    pub bootnodes: Vec<Multiaddr>,
    pub min_bootnode_connections: usize,
    pub trusted_peers: Vec<Multiaddr>,
    pub listen_addrs: Vec<Multiaddr>,
    pub dial_interval: Option<Duration>,
    pub gossip: Option<HiveGossipConfig>,
    pub nat_auto: bool,
    pub shutdown: bool,
}

impl TopologyService {
    /// The parts are valid.
    pub open spec fn wf(self) -> bool {
        self.routing.wf() && self.nat_discovery.wf()
    }

    /// Create the service around `local`, with the routing table seeded with
    /// the stored peers.
    pub fn new(
        local: OverlayAddress,
        max_po: u8,
        network: NetworkAddrs,
        min_bootnode_connections: usize,
        config: TopologyServiceConfig,
        stored_peers: &[OverlayAddress],
    ) -> (service: TopologyService)
        requires
            max_po <= MAX_PO,
            max_po == MAX_PO || forall|i: int|
                0 <= i < stored_peers.len() ==> crate::primitives::proximity_order(
                    local,
                    #[trigger] stored_peers@[i],
                ) <= max_po,
        ensures
            service.wf(),
            service.routing.local == local,
            service.routing.max_po == max_po,
            service.routing.config == config.kademlia,
            service.routing.depth == 0,
            service.routing.capacity.exact(),
            service.routing.capacity.connections.len() == 0,
            service.routing.connection_candidates.len() == 0,
            forall|b: int|
                0 <= b <= max_po ==> (#[trigger] service.routing.connected_peers.contents()[b]).len()
                    == 0,
            service.routing.known_peers.contents() == crate::routing::kademlia::with_peers(
                Seq::new((max_po + 1) as nat, |b: int| Seq::<OverlayAddress>::empty()),
                local,
                max_po,
                stored_peers@,
            ),
            service.nat_discovery.nat_addrs == network.nat_addrs,
            service.nat_discovery.local_peer_id is None,
            !service.nat_discovery.observed_reachable,
            service.nat_discovery.confirmed_external_addrs.len() == 0,
            service.nat_discovery.reachability.peers.len() == 0,
            service.bootnodes == network.bootnodes,
            service.min_bootnode_connections == min_bootnode_connections,
            service.trusted_peers == network.trusted_peers,
            service.listen_addrs == network.listen_addrs,
            service.dial_interval == config.dial_interval,
            service.gossip == config.gossip,
            service.nat_auto == network.nat_auto,
            !service.shutdown,
    {
        let mut routing: KademliaRouting = KademliaRouting::new(local, max_po, config.kademlia);
        if stored_peers.len() > 0 {
            routing.add_peers(stored_peers);
        }
        TopologyService {
            routing,
            nat_discovery: LocalAddressManager::new(network.nat_addrs),
            bootnodes: network.bootnodes,
            min_bootnode_connections,
            trusted_peers: network.trusted_peers,
            listen_addrs: network.listen_addrs,
            dial_interval: config.dial_interval,
            gossip: config.gossip,
            nat_auto: network.nat_auto,
            shutdown: false,
        }
    }

    /// The dials to the bootnodes, `shuffled` by the caller, in that order:
    /// until the minimum number of connections is under way.
    pub fn connect_bootnodes(&self, shuffled: Vec<Multiaddr>) -> (round: DialRound)
        requires
            shuffled@.to_multiset() == self.bootnodes@.to_multiset(),
        ensures
            round.wf(),
            round == (DialRound {
                targets: shuffled,
                tried: 0,
                connected: 0,
                wanted: Some(self.min_bootnode_connections),
            }),
    {
        DialRound::new(shuffled, Some(self.min_bootnode_connections))
    }

    /// The dials to the trusted peers: all of them.
    pub fn connect_trusted_peers(&self) -> (round: DialRound)
        ensures
            round.wf(),
            round.targets@ == self.trusted_peers@,
            round.tried == 0,
            round.connected == 0,
            round.wanted is None,
    {
        let mut targets: Vec<Multiaddr> = Vec::new();
        let mut i: usize = 0;
        while i < self.trusted_peers.len()
            invariant
                i <= self.trusted_peers.len(),
                targets@ == self.trusted_peers@.subrange(0, i as int),
            decreases self.trusted_peers.len() - i,
        {
            targets.push(self.trusted_peers[i]);
            i = i + 1;
        }
        DialRound::new(targets, None)
    }

    /// Whether any bootnodes are configured.
    pub fn has_bootnodes(&self) -> (yes: bool)
        ensures
            yes == (self.bootnodes.len() > 0),
    {
        self.bootnodes.len() > 0
    }

    /// The trusted peers.
    pub fn trusted_peers(&self) -> (peers: &Vec<Multiaddr>)
        ensures
            *peers == self.trusted_peers,
    {
        &self.trusted_peers
    }

    /// Whether any trusted peers are configured.
    pub fn has_trusted_peers(&self) -> (yes: bool)
        ensures
            yes == (self.trusted_peers.len() > 0),
    {
        self.trusted_peers.len() > 0
    }

    /// The listen addresses.
    pub fn listen_addrs(&self) -> (addrs: &Vec<Multiaddr>)
        ensures
            *addrs == self.listen_addrs,
    {
        &self.listen_addrs
    }

    /// Whether shutdown was signalled.
    pub fn is_shutdown(&self) -> (yes: bool)
        ensures
            yes == self.shutdown,
    {
        self.shutdown
    }

    /// Signal shutdown.
    pub fn shutdown(&mut self)
        ensures
            *final(self) == (TopologyService { shutdown: true, ..*old(self) }),
    {
        self.shutdown = true;
    }
}

/// What opening and loading the peer store came to: its peers, or the error of
/// the step that failed. Without a store there are no peers yet.
pub fn stored_peers(
    path: Option<String>,
    opened: Result<(), String>,
    loaded: Result<Vec<OverlayAddress>, String>,
) -> (peers: Result<Vec<OverlayAddress>, TopologyError>)
    ensures
        match path {
            None => peers matches Ok(list) && list.len() == 0,
            Some(path) => match opened {
                Err(reason) => peers == Err::<Vec<OverlayAddress>, TopologyError>(
                    TopologyError::PeerStoreCreation { path, reason },
                ),
                Ok(_) => match loaded {
                    Err(reason) => peers == Err::<Vec<OverlayAddress>, TopologyError>(
                        TopologyError::PeerStoreLoad { reason },
                    ),
                    Ok(list) => peers == Ok::<Vec<OverlayAddress>, TopologyError>(list),
                },
            },
        },
{
    match path {
        None => Ok(Vec::new()),
        Some(path) => match opened {
            Err(reason) => Err(TopologyError::PeerStoreCreation { path, reason }),
            Ok(_) => match loaded {
                Err(reason) => Err(TopologyError::PeerStoreLoad { reason }),
                Ok(list) => Ok(list),
            },
        },
    }
}

/// A dial round never asks for more dials than suffice, and a round that is
/// over without having reached them has tried every target.
pub proof fn round_stops_when_enough(round: DialRound, dialed: bool)
    requires
        round.wf(),
        !round.is_over(),
    ensures
        ({
            let next = DialRound {
                tried: (round.tried + 1) as usize,
                connected: if dialed {
                    (round.connected + 1) as usize
                } else {
                    round.connected
                },
                ..round
            };
            &&& next.wf()
            &&& next.is_over() && next.wanted != Some(next.connected) ==> next.tried
                == next.targets.len()
        }),
{
}

/// A dial round ends when every target was tried or as many as were wanted are
/// connected, and goes on before.
pub proof fn rounds_end_when_nothing_is_left(round: DialRound)
    requires
        round.wf(),
    ensures
        round.tried == round.targets.len() ==> round.is_over(),
        round.wanted is Some && round.connected == round.wanted->0 ==> round.is_over(),
        round.tried < round.targets.len() && (round.wanted is None || round.connected
            < round.wanted->0) ==> !round.is_over(),
{
}

/// What a service that is configured with nothing works with: the defaults of
/// its table, no dial interval and no gossip. Gossip that is configured with
/// nothing goes round every ten minutes, with up to sixteen peers for a distant
/// one.
pub proof fn defaults_of_the_service()
    ensures
        TopologyServiceConfig::spec_default().kademlia == KademliaConfig::spec_default(),
        TopologyServiceConfig::spec_default().dial_interval is None,
        TopologyServiceConfig::spec_default().gossip is None,
        HiveGossipConfig::spec_default().refresh_interval.nanos == 600
            * crate::time::NANOS_PER_SEC,
        HiveGossipConfig::spec_default().max_peers_for_distant == 16,
{
}

} // verus!
