use vertex_topology::kademlia::args::RoutingArgs;
use vertex_topology::kademlia::config::KademliaConfig;
use vertex_topology::routing;

#[test]
fn arguments_left_out_keep_their_defaults() {
    assert_eq!(RoutingArgs::default().routing_config(), KademliaConfig::default());
    assert_eq!(
        routing::args::RoutingArgs::default().routing_config(),
        routing::config::KademliaConfig::default()
    );
}

#[test]
fn given_arguments_replace_the_limits() {
    let args = RoutingArgs { total_target: Some(40), nominal: Some(2), inbound_headroom: Some(0) };
    let config = args.routing_config();
    assert_eq!(config.limits.total_target(), 40);
    assert_eq!(config.limits.nominal(), 2);
    assert_eq!(config.limits.inbound_headroom, 0);
    assert_eq!(config.max_neighbor_candidates, KademliaConfig::default().max_neighbor_candidates);
}

#[test]
fn given_watermarks_replace_the_defaults() {
    let args = routing::args::RoutingArgs {
        saturation_peers: Some(4),
        low_watermark: Some(2),
        ..routing::args::RoutingArgs::default()
    };
    let config = args.routing_config();
    assert_eq!(config.saturation_peers, 4);
    assert_eq!(config.low_watermark, 2);
    assert_eq!(config.high_watermark, routing::config::KademliaConfig::default().high_watermark);
}
