use simulacra::{Duration, NodeId, Topology, TopologyBuilder};

#[test]
fn empty_topology() {
    let topo = Topology::new(5);
    assert_eq!(topo.node_count(), 5);
    assert!(topo.links_from(NodeId(0)).is_empty());
}

#[test]
fn add_links() {
    let mut topo = Topology::new(3);
    topo.add_link(NodeId(0), NodeId(1), Duration::from_millis(10));
    topo.add_bidi_link(NodeId(1), NodeId(2), Duration::from_millis(20));

    assert_eq!(topo.links_from(NodeId(0)).len(), 1);
    assert_eq!(topo.links_from(NodeId(1)).len(), 1); // only to 2
    assert_eq!(topo.links_from(NodeId(2)).len(), 1); // back to 1
}

#[test]
fn direct_route() {
    let mut topo = Topology::new(3);
    topo.add_bidi_link(NodeId(0), NodeId(1), Duration::from_millis(10));
    topo.add_bidi_link(NodeId(1), NodeId(2), Duration::from_millis(20));

    let route = topo.route(NodeId(0), NodeId(1)).unwrap();
    assert_eq!(route.next_hop, NodeId(1));
    assert_eq!(route.total_latency, Duration::from_millis(10));
    assert_eq!(route.hop_count, 1);
}

#[test]
fn multi_hop_route() {
    let mut topo = Topology::new(3);
    topo.add_bidi_link(NodeId(0), NodeId(1), Duration::from_millis(10));
    topo.add_bidi_link(NodeId(1), NodeId(2), Duration::from_millis(20));

    let route = topo.route(NodeId(0), NodeId(2)).unwrap();
    assert_eq!(route.next_hop, NodeId(1));
    assert_eq!(route.total_latency, Duration::from_millis(30));
    assert_eq!(route.hop_count, 2);
}

#[test]
fn shortest_path_selection() {
    // Triangle: 0-1 (10ms), 1-2 (10ms), 0-2 (100ms)
    // Shortest 0->2 should go through 1
    let mut topo = Topology::new(3);
    topo.add_bidi_link(NodeId(0), NodeId(1), Duration::from_millis(10));
    topo.add_bidi_link(NodeId(1), NodeId(2), Duration::from_millis(10));
    topo.add_bidi_link(NodeId(0), NodeId(2), Duration::from_millis(100));

    let route = topo.route(NodeId(0), NodeId(2)).unwrap();
    assert_eq!(route.next_hop, NodeId(1)); // Goes through 1, not direct
    assert_eq!(route.total_latency, Duration::from_millis(20));
}

#[test]
fn no_route() {
    let mut topo = Topology::new(3);
    topo.add_bidi_link(NodeId(0), NodeId(1), Duration::from_millis(10));
    // Node 2 is disconnected

    assert!(topo.route(NodeId(0), NodeId(2)).is_none());
}

#[test]
fn self_route() {
    let mut topo = Topology::new(3);
    let route = topo.route(NodeId(1), NodeId(1)).unwrap();
    assert_eq!(route.hop_count, 0);
    assert_eq!(route.total_latency, Duration::zero());
}

#[test]
fn builder_ring() {
    let mut topo = TopologyBuilder::new(4)
        .ring(Duration::from_millis(10))
        .build();

    // In a ring: 0-1-2-3-0
    // Route 0->2 should be 2 hops
    let route = topo.route(NodeId(0), NodeId(2)).unwrap();
    assert_eq!(route.hop_count, 2);
    assert_eq!(route.total_latency, Duration::from_millis(20));
}

#[test]
fn builder_star() {
    let mut topo = TopologyBuilder::new(5)
        .star(Duration::from_millis(10))
        .build();

    // All paths go through hub (node 0)
    let route = topo.route(NodeId(1), NodeId(3)).unwrap();
    assert_eq!(route.next_hop, NodeId(0)); // Must go through hub
    assert_eq!(route.hop_count, 2);
}

#[test]
fn builder_full_mesh() {
    let mut topo = TopologyBuilder::new(4)
        .full_mesh(Duration::from_millis(10))
        .build();

    // Every node directly connected
    for i in 0..4 {
        for j in 0..4 {
            if i != j {
                let route = topo.route(NodeId::new(i), NodeId::new(j)).unwrap();
                assert_eq!(route.hop_count, 1);
            }
        }
    }
}

#[test]
fn route_caching() {
    let mut topo = Topology::new(3);
    topo.add_bidi_link(NodeId(0), NodeId(1), Duration::from_millis(10));
    topo.add_bidi_link(NodeId(1), NodeId(2), Duration::from_millis(20));

    // First call computes
    let route1 = topo.route(NodeId(0), NodeId(2)).unwrap();
    // Second call uses cache
    let route2 = topo.route(NodeId(0), NodeId(2)).unwrap();

    assert_eq!(route1.total_latency, route2.total_latency);
}

#[test]
fn fail_link_reroutes_around_failure() {
    // Triangle: 0-1 (10ms), 1-2 (10ms), 0-2 (100ms).
    // Direct 0->2 normally takes the 0-1-2 path (20ms). Fail the 0-1
    // link and routing must fall back to the slower direct edge.
    let mut topo = Topology::new(3);
    topo.add_bidi_link(NodeId(0), NodeId(1), Duration::from_millis(10));
    topo.add_bidi_link(NodeId(1), NodeId(2), Duration::from_millis(10));
    topo.add_bidi_link(NodeId(0), NodeId(2), Duration::from_millis(100));

    assert_eq!(
        topo.route(NodeId(0), NodeId(2)).unwrap().total_latency,
        Duration::from_millis(20)
    );

    topo.fail_link(NodeId(0), NodeId(1));
    assert!(topo.is_link_failed(NodeId(0), NodeId(1)));

    let rerouted = topo.route(NodeId(0), NodeId(2)).unwrap();
    assert_eq!(rerouted.next_hop, NodeId(2));
    assert_eq!(rerouted.total_latency, Duration::from_millis(100));
}

#[test]
fn fail_link_drops_to_no_route_when_no_alt() {
    // Line: 0 -- 1 -- 2. Failing 0-1 isolates 2 from 0 entirely.
    let mut topo = Topology::new(3);
    topo.add_bidi_link(NodeId(0), NodeId(1), Duration::from_millis(10));
    topo.add_bidi_link(NodeId(1), NodeId(2), Duration::from_millis(10));

    assert!(topo.route(NodeId(0), NodeId(2)).is_some());
    topo.fail_link(NodeId(0), NodeId(1));
    assert!(topo.route(NodeId(0), NodeId(2)).is_none());
}

#[test]
fn heal_link_restores_route() {
    let mut topo = Topology::new(3);
    topo.add_bidi_link(NodeId(0), NodeId(1), Duration::from_millis(10));
    topo.add_bidi_link(NodeId(1), NodeId(2), Duration::from_millis(10));

    topo.fail_link(NodeId(0), NodeId(1));
    assert!(topo.route(NodeId(0), NodeId(2)).is_none());

    topo.heal_link(NodeId(0), NodeId(1));
    assert!(!topo.is_link_failed(NodeId(0), NodeId(1)));
    let route = topo.route(NodeId(0), NodeId(2)).unwrap();
    assert_eq!(route.total_latency, Duration::from_millis(20));
}

#[test]
fn fail_link_directed_is_asymmetric() {
    // Symmetric link 0-1 with directed-only failure of 0->1.
    // 1->0 must still route directly; 0->1 falls through to NoRoute.
    let mut topo = Topology::new(2);
    topo.add_bidi_link(NodeId(0), NodeId(1), Duration::from_millis(10));

    topo.fail_link_directed(NodeId(0), NodeId(1));
    assert!(topo.is_link_failed_directed(NodeId(0), NodeId(1)));
    assert!(!topo.is_link_failed_directed(NodeId(1), NodeId(0)));
    // Symmetric query reports false because only one direction is down.
    assert!(!topo.is_link_failed(NodeId(0), NodeId(1)));

    assert!(topo.route(NodeId(0), NodeId(1)).is_none());
    assert_eq!(
        topo.route(NodeId(1), NodeId(0)).unwrap().total_latency,
        Duration::from_millis(10)
    );
}

#[test]
fn fail_link_invalidates_route_cache() {
    // Without cache invalidation, the second route() would still return
    // the pre-failure path. Verify by routing first (populating the
    // cache), then failing, then routing again.
    let mut topo = Topology::new(3);
    topo.add_bidi_link(NodeId(0), NodeId(1), Duration::from_millis(10));
    topo.add_bidi_link(NodeId(1), NodeId(2), Duration::from_millis(10));
    topo.add_bidi_link(NodeId(0), NodeId(2), Duration::from_millis(100));

    let _warm = topo.route(NodeId(0), NodeId(2)).unwrap();
    topo.fail_link(NodeId(0), NodeId(1));
    assert_eq!(
        topo.route(NodeId(0), NodeId(2)).unwrap().total_latency,
        Duration::from_millis(100)
    );
}

#[test]
fn fail_node_blocks_all_routing_through_it() {
    // Diamond: 0 -> {1, 2} -> 3, where node 1 is the cheap intermediate
    // (5ms each) and node 2 is the expensive one (50ms each). Failing
    // node 1 must reroute traffic via node 2.
    let mut topo = Topology::new(4);
    topo.add_bidi_link(NodeId(0), NodeId(1), Duration::from_millis(5));
    topo.add_bidi_link(NodeId(1), NodeId(3), Duration::from_millis(5));
    topo.add_bidi_link(NodeId(0), NodeId(2), Duration::from_millis(50));
    topo.add_bidi_link(NodeId(2), NodeId(3), Duration::from_millis(50));

    assert_eq!(
        topo.route(NodeId(0), NodeId(3)).unwrap().total_latency,
        Duration::from_millis(10)
    );

    topo.fail_node(NodeId(1));
    assert!(topo.is_node_failed(NodeId(1)));

    let rerouted = topo.route(NodeId(0), NodeId(3)).unwrap();
    assert_eq!(rerouted.next_hop, NodeId(2));
    assert_eq!(rerouted.total_latency, Duration::from_millis(100));
}

#[test]
fn fail_node_isolates_when_no_alternate() {
    // Line 0 -- 1 -- 2 with node 1 as the only intermediate.
    let mut topo = Topology::new(3);
    topo.add_bidi_link(NodeId(0), NodeId(1), Duration::from_millis(10));
    topo.add_bidi_link(NodeId(1), NodeId(2), Duration::from_millis(10));

    topo.fail_node(NodeId(1));
    assert!(topo.route(NodeId(0), NodeId(2)).is_none());
}

#[test]
fn fail_node_blocks_routes_to_and_from_node() {
    let mut topo = Topology::new(3);
    topo.add_bidi_link(NodeId(0), NodeId(1), Duration::from_millis(10));
    topo.add_bidi_link(NodeId(1), NodeId(2), Duration::from_millis(10));

    topo.fail_node(NodeId(1));
    // Routing to a failed node fails.
    assert!(topo.route(NodeId(0), NodeId(1)).is_none());
    // Routing from a failed node fails.
    assert!(topo.route(NodeId(1), NodeId(0)).is_none());
}

#[test]
fn heal_node_restores_routing() {
    let mut topo = Topology::new(3);
    topo.add_bidi_link(NodeId(0), NodeId(1), Duration::from_millis(10));
    topo.add_bidi_link(NodeId(1), NodeId(2), Duration::from_millis(10));

    topo.fail_node(NodeId(1));
    assert!(topo.route(NodeId(0), NodeId(2)).is_none());

    topo.heal_node(NodeId(1));
    assert!(!topo.is_node_failed(NodeId(1)));
    assert_eq!(
        topo.route(NodeId(0), NodeId(2)).unwrap().total_latency,
        Duration::from_millis(20)
    );
}

#[test]
fn fail_node_invalidates_route_cache() {
    // Cache must invalidate on fail/heal so a stale route doesn't keep
    // routing through a failed node.
    let mut topo = Topology::new(3);
    topo.add_bidi_link(NodeId(0), NodeId(1), Duration::from_millis(10));
    topo.add_bidi_link(NodeId(1), NodeId(2), Duration::from_millis(10));

    let _warm = topo.route(NodeId(0), NodeId(2)).unwrap();
    topo.fail_node(NodeId(1));
    assert!(topo.route(NodeId(0), NodeId(2)).is_none());
}

#[test]
fn node_and_link_failures_are_orthogonal() {
    // Failing a node and then healing it must not also clear a link
    // failure that was independently set.
    let mut topo = Topology::new(3);
    topo.add_bidi_link(NodeId(0), NodeId(1), Duration::from_millis(10));
    topo.add_bidi_link(NodeId(1), NodeId(2), Duration::from_millis(10));

    topo.fail_link(NodeId(0), NodeId(1));
    topo.fail_node(NodeId(1));
    topo.heal_node(NodeId(1));

    // Link failure must still hold even though node is healed.
    assert!(topo.is_link_failed(NodeId(0), NodeId(1)));
    assert!(topo.route(NodeId(0), NodeId(2)).is_none());
}

#[test]
fn fail_nonexistent_link_is_noop_for_existing_routes() {
    // Failing an edge that doesn't exist in the adjacency list must not
    // affect any actual routing decisions.
    let mut topo = Topology::new(3);
    topo.add_bidi_link(NodeId(0), NodeId(1), Duration::from_millis(10));
    topo.add_bidi_link(NodeId(1), NodeId(2), Duration::from_millis(10));

    topo.fail_link(NodeId(0), NodeId(2));
    assert!(topo.is_link_failed(NodeId(0), NodeId(2)));

    let route = topo.route(NodeId(0), NodeId(2)).unwrap();
    assert_eq!(route.total_latency, Duration::from_millis(20));
}
