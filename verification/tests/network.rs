use simulacra::net::fabric::transmission_duration;
use simulacra::{
    DropPolicy, DropReason, Duration, FixedLatency, Fraction, NetConfig, NetEvent, Network, NetworkStats, NodeId,
    Probability, SpikyLatency, Time, TopologyBuilder, UniformJitter,
};

/// The probability `p` as the generator compares it with random bits.
fn probability(p: f64) -> Probability {
    assert!((0.0..=1.0).contains(&p));
    if p == 0.0 {
        Probability::Never
    } else if p == 1.0 {
        Probability::Always
    } else {
        Probability::Parts((p * 18_446_744_073_709_551_616.0) as u64)
    }
}

fn fraction(p: f64) -> Fraction {
    Fraction::of_bits(p.to_bits()).unwrap()
}

#[test]
fn basic_message_delivery() {
    let topo = TopologyBuilder::new(3)
        .link(0u32, 1u32, Duration::from_millis(10))
        .link(1u32, 2u32, Duration::from_millis(20))
        .build();

    let mut net = Network::new(topo, 42);
    net.send(NodeId(0), NodeId(2), "hello");

    let mut delivered = Vec::new();
    let stats = net.run(|_ctx, event| {
        if let NetEvent::Deliver(msg) = event {
            delivered.push((msg.src, msg.dst, msg.payload));
        }
    });

    assert_eq!(stats.messages_delivered, 1);
    assert_eq!(delivered.len(), 1);
    assert_eq!(delivered[0], (NodeId(0), NodeId(2), "hello"));
    // Latency should be 30ms (10 + 20)
    assert_eq!(stats.final_time, Time::from_millis(30));
}

#[test]
fn no_route_drops_message() {
    let topo = TopologyBuilder::new(3)
        .link(0u32, 1u32, Duration::from_millis(10))
        // Node 2 is disconnected
        .build();

    let mut net = Network::new(topo, 42);
    net.send(NodeId(0), NodeId(2), "unreachable");

    let mut dropped = Vec::new();
    let stats = net.run(|_ctx, event| {
        if let NetEvent::Drop { message, reason } = event {
            dropped.push((message.dst, reason));
        }
    });

    assert_eq!(stats.messages_dropped, 1);
    assert_eq!(dropped[0], (NodeId(2), DropReason::NoRoute));
}

#[test]
fn jitter_model() {
    let topo = TopologyBuilder::new(2)
        .link(0u32, 1u32, Duration::from_millis(100))
        .build();

    let latency_model = UniformJitter::new(Duration::from_millis(10));
    let mut net = Network::with_latency_model(topo, latency_model, 42);

    // Send multiple messages
    for _ in 0..10 {
        net.send(NodeId(0), NodeId(1), ());
    }

    net.run(|_ctx, event| {
        if let NetEvent::Deliver(_) = event {
            // Times are tracked by the stats
        }
    });

    // With jitter, messages shouldn't all arrive at exactly 100ms
    // (This is implicitly tested by the latency model tests)
}

#[test]
fn packet_loss() {
    let topo = TopologyBuilder::new(2)
        .link(0u32, 1u32, Duration::from_millis(10))
        .build();

    let config = NetConfig {
        packet_loss: probability(0.5),
        ..Default::default()
    };
    let mut net = Network::new(topo, 42).with_config(config);

    // Send many messages
    for _ in 0..100 {
        net.send(NodeId(0), NodeId(1), ());
    }

    let stats = net.run(|_ctx, _event| {});

    // With 50% loss, we should have some delivered and some dropped
    assert!(stats.messages_delivered > 0);
    assert!(stats.messages_dropped > 0);
    assert_eq!(stats.messages_delivered + stats.messages_dropped, 100);
}

#[test]
fn reply_in_handler() {
    let topo = TopologyBuilder::new(2)
        .link(0u32, 1u32, Duration::from_millis(10))
        .build();

    let mut net = Network::new(topo, 42);
    net.send(NodeId(0), NodeId(1), "ping");

    let mut messages = Vec::new();
    let stats = net.run(|ctx, event| {
        if let NetEvent::Deliver(msg) = event {
            messages.push(msg.payload);
            if msg.payload == "ping" {
                ctx.send(msg.dst, msg.src, "pong");
            }
        }
    });

    assert_eq!(stats.messages_delivered, 2);
    assert_eq!(messages, vec!["ping", "pong"]);
}

#[test]
fn transmission_duration_helper() {
    // 1 MB at 1 MB/s = 1 second exactly.
    assert_eq!(
        transmission_duration(1_000_000, 1_000_000),
        Duration::from_secs(1)
    );
    // Rounding: 1 byte at 3 B/s should round up to ceil(1e9 / 3) ns.
    let d = transmission_duration(3, 1);
    assert_eq!(d.as_nanos(), 333_333_334);
    // Zero size or zero bps = zero duration.
    assert_eq!(transmission_duration(0, 100), Duration::zero());
    assert_eq!(transmission_duration(100, 0), Duration::zero());
}

#[test]
fn unsized_send_ignores_bandwidth() {
    // Even with a tight cap, plain send() treats payload as 0-sized and
    // therefore should not be delayed.
    let topo = TopologyBuilder::new(2)
        .link(0u32, 1u32, Duration::from_millis(10))
        .build();

    let mut net: Network<u32> = Network::new(topo, 42);
    net.set_bandwidth(NodeId(0), NodeId(1), 1); // 1 byte/sec

    net.send(NodeId(0), NodeId(1), 0);
    net.send(NodeId(0), NodeId(1), 0);

    let stats = net.run(|_ctx, _event| {});
    assert_eq!(stats.messages_delivered, 2);
    // Both arrive at base latency 10ms; bandwidth is not consulted.
    assert_eq!(stats.final_time, Time::from_millis(10));
}

#[test]
fn send_sized_delays_by_transmission_time() {
    // 1000 bytes @ 1 MB/s = 1ms of tx time, on top of the 10ms link.
    let topo = TopologyBuilder::new(2)
        .link(0u32, 1u32, Duration::from_millis(10))
        .build();

    let mut net: Network<u32> = Network::new(topo, 42);
    net.set_bandwidth(NodeId(0), NodeId(1), 1_000_000);
    assert_eq!(net.bandwidth(NodeId(0), NodeId(1)), Some(1_000_000));

    net.send_sized(NodeId(0), NodeId(1), 0, 1_000);

    let stats = net.run(|_ctx, _event| {});
    assert_eq!(stats.messages_delivered, 1);
    // 10ms (latency) + 1ms (tx) = 11ms.
    assert_eq!(stats.final_time, Time::from_millis(11));
}

#[test]
fn bandwidth_serializes_concurrent_sends() {
    // Three 1 MB messages over a 1 MB/s link: each takes 1s tx.
    // They queue, so deliveries are at 1s, 2s, 3s (all + latency).
    let topo = TopologyBuilder::new(2)
        .link(0u32, 1u32, Duration::from_millis(0))
        .build();

    let mut net: Network<u32> = Network::new(topo, 42);
    net.set_bandwidth(NodeId(0), NodeId(1), 1_000_000);

    net.send_sized(NodeId(0), NodeId(1), 0, 1_000_000);
    net.send_sized(NodeId(0), NodeId(1), 1, 1_000_000);
    net.send_sized(NodeId(0), NodeId(1), 2, 1_000_000);

    let mut arrivals = Vec::new();
    net.run(|ctx, event| {
        if let NetEvent::Deliver(msg) = event {
            arrivals.push((msg.payload, ctx.now()));
        }
    });

    arrivals.sort_by_key(|(_, t)| *t);
    assert_eq!(arrivals.len(), 3);
    assert_eq!(arrivals[0], (0, Time::from_secs(1)));
    assert_eq!(arrivals[1], (1, Time::from_secs(2)));
    assert_eq!(arrivals[2], (2, Time::from_secs(3)));
}

#[test]
fn set_bandwidth_zero_clears_cap() {
    let topo = TopologyBuilder::new(2)
        .link(0u32, 1u32, Duration::from_millis(0))
        .build();

    let mut net: Network<u32> = Network::new(topo, 42);
    net.set_bandwidth(NodeId(0), NodeId(1), 1_000_000);
    assert!(net.bandwidth(NodeId(0), NodeId(1)).is_some());

    net.set_bandwidth(NodeId(0), NodeId(1), 0);
    assert!(net.bandwidth(NodeId(0), NodeId(1)).is_none());

    // With the cap cleared, send_sized should behave like send.
    net.send_sized(NodeId(0), NodeId(1), 0, 1_000_000);
    let stats = net.run(|_ctx, _event| {});
    assert_eq!(stats.messages_delivered, 1);
    assert_eq!(stats.final_time, Time::zero());
}

#[test]
fn per_link_bandwidth_on_direct_edge() {
    // Same scenario as send_sized_delays_by_transmission_time, but the
    // cap is declared on the physical link instead of pair-level.
    let topo = TopologyBuilder::new(2)
        .link_with_capacity(0u32, 1u32, Duration::from_millis(10), 1_000_000)
        .build();

    let mut net: Network<u32> = Network::new(topo, 42);
    net.send_sized(NodeId(0), NodeId(1), 0, 1_000);

    let stats = net.run(|_ctx, _event| {});
    assert_eq!(stats.messages_delivered, 1);
    // 10ms latency + 1ms tx = 11ms.
    assert_eq!(stats.final_time, Time::from_millis(11));
}

#[test]
fn per_link_bandwidth_bottleneck_middle_of_path() {
    // 3 nodes linear: 0 -- 1 -- 2.
    // 0->1: uncapped, 1ms. 1->2: 1 MB/s cap, 1ms latency.
    // Send a 1 MB message from 0 to 2. Expected timing:
    //   - 0->1: 1ms (latency, no tx)
    //   - 1->2: 1s tx + 1ms latency
    //   Total: 1.002s latency + 0 bandwidth delay from 0->1 + 1s bw from 1->2.
    let topo = TopologyBuilder::new(3)
        .link(0u32, 1u32, Duration::from_millis(1))
        .link_with_capacity(1u32, 2u32, Duration::from_millis(1), 1_000_000)
        .build();

    let mut net: Network<u32> = Network::new(topo, 42);
    net.send_sized(NodeId(0), NodeId(2), 0, 1_000_000);

    let stats = net.run(|_ctx, _event| {});
    assert_eq!(stats.messages_delivered, 1);
    // 2ms link latency + 1s tx on the bottleneck = 1.002s.
    assert_eq!(stats.final_time, Time::from_millis(1002));
}

#[test]
fn per_link_bandwidth_shared_across_flows() {
    // Two senders both flow through a shared bottleneck link 1->2.
    // Topology: 0 --uncapped-- 1 --1 MB/s-- 2
    //           3 --uncapped--/
    // Each sends a 500 KB message at t=0 to node 2. The bottleneck
    // serializes them: first arrives at ~501ms, second at ~1001ms.
    let topo = TopologyBuilder::new(4)
        .link(0u32, 1u32, Duration::from_millis(1))
        .link(3u32, 1u32, Duration::from_millis(1))
        .link_with_capacity(1u32, 2u32, Duration::from_millis(0), 1_000_000)
        .build();

    let mut net: Network<u32> = Network::new(topo, 42);
    net.send_sized(NodeId(0), NodeId(2), 0, 500_000);
    net.send_sized(NodeId(3), NodeId(2), 1, 500_000);

    let mut arrivals = Vec::new();
    net.run(|ctx, event| {
        if let NetEvent::Deliver(msg) = event {
            arrivals.push((msg.payload, ctx.now()));
        }
    });
    arrivals.sort_by_key(|(_, t)| *t);

    assert_eq!(arrivals.len(), 2);
    // First message: 1ms ingress + 500ms bw = 501ms.
    assert_eq!(arrivals[0].1, Time::from_millis(501));
    // Second message: queued behind the first on link 1->2 — departs
    // the link at 1s instead of 500ms, so arrival is 1001ms.
    assert_eq!(arrivals[1].1, Time::from_millis(1001));
}

#[test]
fn per_link_and_pair_bandwidth_stack() {
    // Pair-level cap 2 MB/s at endpoints + per-link cap 1 MB/s on the
    // wire. The tighter cap (per-link) dominates for the tx time, plus
    // the pair adds its own serialization at the source.
    let topo = TopologyBuilder::new(2)
        .link_with_capacity(0u32, 1u32, Duration::from_millis(0), 1_000_000)
        .build();

    let mut net: Network<u32> = Network::new(topo, 42);
    net.set_bandwidth(NodeId(0), NodeId(1), 2_000_000);

    // Send 1 MB. Pair tx = 0.5s. Per-link tx = 1s.
    // Delivery = 0 + 0.5s (pair) + 1s (link tx) + 0 latency = 1.5s.
    net.send_sized(NodeId(0), NodeId(1), 0, 1_000_000);

    let stats = net.run(|_ctx, _event| {});
    assert_eq!(stats.messages_delivered, 1);
    assert_eq!(stats.final_time, Time::from_millis(1500));
}

#[test]
fn bandwidth_is_directional() {
    // Cap A->B but leave B->A uncapped.
    let topo = TopologyBuilder::new(2)
        .link(0u32, 1u32, Duration::from_millis(0))
        .build();

    let mut net: Network<u32> = Network::new(topo, 42);
    net.set_bandwidth(NodeId(0), NodeId(1), 1_000_000); // 1 MB/s forward

    net.send_sized(NodeId(0), NodeId(1), 0, 1_000_000); // 1s tx
    net.send_sized(NodeId(1), NodeId(0), 1, 1_000_000); // no cap, 0s tx

    let mut arrivals = Vec::new();
    net.run(|ctx, event| {
        if let NetEvent::Deliver(msg) = event {
            arrivals.push((msg.payload, ctx.now()));
        }
    });

    arrivals.sort_by_key(|(p, _)| *p);
    assert_eq!(arrivals[0], (0, Time::from_secs(1)));
    assert_eq!(arrivals[1], (1, Time::zero()));
}

#[test]
fn unbounded_buffer_matches_prior_behavior() {
    // A link with bandwidth but no buffer: any number of enqueued
    // sends must be admitted (serialized, never dropped).
    let topo = TopologyBuilder::new(2)
        .link_with_capacity(0u32, 1u32, Duration::from_millis(0), 1_000_000)
        .build();

    let mut net: Network<u32> = Network::new(topo, 42);
    for i in 0..5 {
        net.send_sized(NodeId(0), NodeId(1), i, 1_000_000);
    }
    let stats = net.run(|_ctx, _event| {});
    assert_eq!(stats.messages_delivered, 5);
    assert_eq!(stats.messages_dropped, 0);
}

#[test]
fn buffer_overflow_drops_excess_sends() {
    // 1 MB/s link with a 2 MB buffer: admits one in-flight + one
    // queued (2 MB total un-transmitted); the third concurrent send
    // would push the buffer to 3 MB and is therefore dropped.
    let topo = TopologyBuilder::new(2)
        .link_with_capacity_and_buffer(
            0u32,
            1u32,
            Duration::from_millis(0),
            1_000_000,
            2_000_000,
        )
        .build();

    let mut net: Network<u32> = Network::new(topo, 42);
    let a = net.send_sized(NodeId(0), NodeId(1), 0, 1_000_000);
    let b = net.send_sized(NodeId(0), NodeId(1), 1, 1_000_000);
    let c = net.send_sized(NodeId(0), NodeId(1), 2, 1_000_000);
    assert!(a.is_some() && b.is_some() && c.is_some());

    let mut delivered = Vec::new();
    let mut dropped = Vec::new();
    let stats = net.run(|_ctx, event| match event {
        NetEvent::Deliver(msg) => delivered.push(msg.payload),
        NetEvent::Drop { message, reason } => dropped.push((message.payload, reason)),
    });

    assert_eq!(stats.messages_delivered, 2);
    assert_eq!(stats.messages_dropped, 1);
    assert_eq!(delivered, vec![0, 1]);
    assert_eq!(dropped, vec![(2, DropReason::BufferOverflow)]);
}

#[test]
fn buffer_drains_over_time() {
    // 1 MB/s link with a tight 1.5 MB buffer: sending a 1 MB payload
    // every 2 seconds should always be admitted because the queue
    // drains fully between sends (1 s of tx + 1 s idle).
    let topo = TopologyBuilder::new(2)
        .link_with_capacity_and_buffer(
            0u32,
            1u32,
            Duration::from_millis(0),
            1_000_000,
            1_500_000,
        )
        .build();

    let mut net: Network<u32> = Network::new(topo, 42);
    for i in 0..4 {
        net.send_at_sized(
            Time::from_secs(2 * i),
            NodeId(0),
            NodeId(1),
            i as u32,
            1_000_000,
        );
    }
    let stats = net.run(|_ctx, _event| {});
    assert_eq!(stats.messages_delivered, 4);
    assert_eq!(stats.messages_dropped, 0);
}

#[test]
fn overflow_on_shared_bottleneck_does_not_consume_upstream_capacity() {
    // Topology: 0 --uncapped-- 1 --1 MB/s, 2 MB buffer-- 2
    //           3 --uncapped--/
    //
    // Three 1 MB concurrent flows onto the bottleneck: one in flight,
    // one queued, the third must overflow. Admission is atomic, so
    // the overflow must not have mutated any link's state — a
    // delivered-counts assertion is sufficient for the externally
    // visible guarantee.
    let topo = TopologyBuilder::new(4)
        .link(0u32, 1u32, Duration::from_millis(1))
        .link(3u32, 1u32, Duration::from_millis(1))
        .link_with_capacity_and_buffer(
            1u32,
            2u32,
            Duration::from_millis(0),
            1_000_000,
            2_000_000,
        )
        .build();

    let mut net: Network<u32> = Network::new(topo, 42);
    net.send_sized(NodeId(0), NodeId(2), 0, 1_000_000);
    net.send_sized(NodeId(3), NodeId(2), 1, 1_000_000);
    net.send_sized(NodeId(0), NodeId(2), 2, 1_000_000);

    let mut delivered = Vec::new();
    let mut dropped = Vec::new();
    net.run(|_ctx, event| match event {
        NetEvent::Deliver(msg) => delivered.push(msg.payload),
        NetEvent::Drop { message, reason } => dropped.push((message.payload, reason)),
    });

    // Exactly one overflow drop; the other two arrive.
    assert_eq!(delivered.len(), 2);
    assert_eq!(dropped.len(), 1);
    assert_eq!(dropped[0].1, DropReason::BufferOverflow);
}

#[test]
fn red_never_drops_below_min_threshold() {
    // RED thresholds live well above where our queue occupancy stays.
    // Three 1 MB messages produce pending values {0, 1M, 2M}, all
    // strictly below min=5M, so all three must be admitted.
    let topo = TopologyBuilder::new(2)
        .link_with_policy(
            0u32,
            1u32,
            Duration::from_millis(0),
            1_000_000,
            10_000_000,
            DropPolicy::red(5_000_000, 8_000_000, 10_000_000, fraction(1.0)),
        )
        .build();

    let mut net: Network<u32> = Network::new(topo, 42);
    for i in 0..3 {
        net.send_sized(NodeId(0), NodeId(1), i, 1_000_000);
    }
    let stats = net.run(|_ctx, _event| {});
    assert_eq!(stats.messages_delivered, 3);
    assert_eq!(stats.messages_dropped, 0);
}

#[test]
fn red_hard_drops_above_max_threshold() {
    // RED: buffer=10M, min=2M, max=3M, max_prob=1.0.
    // Burst of five concurrent 1 MB sends at t=0 produces pending
    // values {0, 1M, 2M, 3M, 3M}. Admissions happen in
    // sequence, so the first three admit (below max) and the fourth
    // / fifth sit at >= max and must drop unconditionally.
    //
    // Note pending=2M is AT min: ramp probability is 0 (numerator
    // zero), which is a deterministic admit.
    let topo = TopologyBuilder::new(2)
        .link_with_policy(
            0u32,
            1u32,
            Duration::from_millis(0),
            1_000_000,
            10_000_000,
            DropPolicy::red(2_000_000, 3_000_000, 10_000_000, fraction(1.0)),
        )
        .build();

    let mut net: Network<u32> = Network::new(topo, 42);
    for i in 0..5 {
        net.send_sized(NodeId(0), NodeId(1), i, 1_000_000);
    }
    let mut delivered = Vec::new();
    let mut dropped = Vec::new();
    let stats = net.run(|_ctx, event| match event {
        NetEvent::Deliver(msg) => delivered.push(msg.payload),
        NetEvent::Drop { message, reason } => dropped.push((message.payload, reason)),
    });
    assert_eq!(stats.messages_delivered, 3);
    assert_eq!(stats.messages_dropped, 2);
    assert_eq!(delivered, vec![0, 1, 2]);
    assert!(
        dropped
            .iter()
            .all(|(_, r)| *r == DropReason::BufferOverflow)
    );
}

#[test]
fn red_ramp_drops_are_deterministic_and_nontrivial() {
    // A steep RED ramp across the whole buffer: min=0, max=5M,
    // prob=1.0. A 20-message burst will certainly produce *some*
    // early RED drops (ramp fires as soon as pending > 0), *some*
    // hard drops (once pending reaches 5M = max), and *some*
    // deliveries. With a fixed seed, the outcome must be exactly
    // reproducible across runs.
    fn run() -> (u64, u64) {
        let topo = TopologyBuilder::new(2)
            .link_with_policy(
                0u32,
                1u32,
                Duration::from_millis(0),
                1_000_000,
                10_000_000,
                DropPolicy::red(0, 5_000_000, 10_000_000, fraction(1.0)),
            )
            .build();

        let mut net: Network<u32> = Network::new(topo, 0xC0FFEE);
        for i in 0..20 {
            net.send_sized(NodeId(0), NodeId(1), i, 1_000_000);
        }
        let stats = net.run(|_ctx, _event| {});
        (stats.messages_delivered, stats.messages_dropped)
    }

    let (d1, x1) = run();
    let (d2, x2) = run();
    assert_eq!((d1, x1), (d2, x2), "RED admission must be deterministic");
    assert_eq!(d1 + x1, 20);
    assert!(d1 > 0, "expected some deliveries, got {d1}");
    assert!(x1 > 0, "expected some RED drops, got {x1}");
}

#[test]
fn red_drops_more_than_tail_under_sustained_load() {
    // Same traffic, same link parameters — only the policy differs.
    // RED should shed more than tail drop under sustained congestion
    // because it starts dropping before the buffer is full.
    fn run_with_policy(red: bool) -> u64 {
        let topo = if red {
            TopologyBuilder::new(2).link_with_policy(
                0u32,
                1u32,
                Duration::from_millis(0),
                1_000_000,
                10_000_000,
                DropPolicy::red(2_000_000, 8_000_000, 10_000_000, fraction(1.0)),
            )
        } else {
            TopologyBuilder::new(2).link_with_capacity_and_buffer(
                0u32,
                1u32,
                Duration::from_millis(0),
                1_000_000,
                10_000_000,
            )
        }
        .build();

        let mut net: Network<u32> = Network::new(topo, 7);
        for i in 0..30 {
            net.send_sized(NodeId(0), NodeId(1), i, 1_000_000);
        }
        let stats = net.run(|_ctx, _event| {});
        stats.messages_dropped
    }

    let red_drops = run_with_policy(true);
    let tail_drops = run_with_policy(false);
    assert!(
        red_drops > tail_drops,
        "expected RED ({red_drops}) to drop strictly more than TailDrop ({tail_drops})"
    );
}

#[test]
fn partition_drops_messages() {
    let topo = TopologyBuilder::new(3)
        .full_mesh(Duration::from_millis(10))
        .build();

    let mut net = Network::new(topo, 42);
    net.partition(NodeId(0), NodeId(1));
    assert!(net.is_partitioned(NodeId(0), NodeId(1)));
    assert!(net.is_partitioned(NodeId(1), NodeId(0)));
    assert!(!net.is_partitioned(NodeId(0), NodeId(2)));

    net.send(NodeId(0), NodeId(1), "nope");
    net.send(NodeId(1), NodeId(0), "also nope");
    net.send(NodeId(0), NodeId(2), "this goes through");

    let mut dropped_pairs = Vec::new();
    let mut delivered_pairs = Vec::new();
    let stats = net.run(|_ctx, event| match event {
        NetEvent::Deliver(msg) => delivered_pairs.push((msg.src, msg.dst)),
        NetEvent::Drop { message, reason } => {
            dropped_pairs.push((message.src, message.dst, reason));
        }
    });

    assert_eq!(stats.messages_delivered, 1);
    assert_eq!(stats.messages_dropped, 2);
    assert!(
        dropped_pairs
            .iter()
            .all(|(.., r)| *r == DropReason::Partitioned)
    );
    assert_eq!(delivered_pairs, vec![(NodeId(0), NodeId(2))]);
}

#[test]
fn heal_restores_delivery() {
    let topo = TopologyBuilder::new(2)
        .link(0u32, 1u32, Duration::from_millis(5))
        .build();

    let mut net = Network::new(topo, 42);
    net.partition(NodeId(0), NodeId(1));
    net.send(NodeId(0), NodeId(1), "blocked");
    net.heal(NodeId(0), NodeId(1));
    net.send(NodeId(0), NodeId(1), "through");

    let stats = net.run(|_ctx, _event| {});
    assert_eq!(stats.messages_delivered, 1);
    assert_eq!(stats.messages_dropped, 1);
}

#[test]
fn asymmetric_link_latency() {
    let topo = TopologyBuilder::new(2)
        .link_asymmetric(
            0u32,
            1u32,
            Duration::from_millis(5),
            Duration::from_millis(20),
        )
        .build();

    let mut net = Network::new(topo, 42);
    net.send(NodeId(0), NodeId(1), "fast");
    net.send_at(Time::from_millis(100), NodeId(1), NodeId(0), "slow");

    let mut arrivals = Vec::new();
    net.run(|ctx, event| {
        if let NetEvent::Deliver(msg) = event {
            arrivals.push((msg.payload, ctx.now()));
        }
    });

    arrivals.sort_by_key(|(_, t)| *t);
    assert_eq!(arrivals.len(), 2);
    assert_eq!(arrivals[0], ("fast", Time::from_millis(5)));
    assert_eq!(arrivals[1], ("slow", Time::from_millis(120)));
}

#[test]
fn spiky_latency_sometimes_adds_extra() {
    let topo = TopologyBuilder::new(2)
        .link(0u32, 1u32, Duration::from_millis(10))
        .build();

    // 100% spike probability so we can deterministically observe a spike.
    let model = SpikyLatency::new(FixedLatency, probability(1.0), Duration::from_millis(50));
    let mut net = Network::with_latency_model(topo, model, 42);

    for _ in 0..20 {
        net.send(NodeId(0), NodeId(1), ());
    }

    let mut max_time = Time::zero();
    net.run(|ctx, event| {
        if let NetEvent::Deliver(_) = event {
            if ctx.now() > max_time {
                max_time = ctx.now();
            }
        }
    });

    // Some message was delayed beyond the base 10ms.
    assert!(
        max_time > Time::from_millis(10),
        "expected at least one spike beyond base latency, got max_time = {}",
        max_time.to_string()
    );
}

#[test]
fn fail_link_drops_with_no_route_when_no_alternate() {
    // Line 0 -- 1 -- 2; failing 0-1 isolates 2 from 0.
    let topo = TopologyBuilder::new(3)
        .link(0u32, 1u32, Duration::from_millis(10))
        .link(1u32, 2u32, Duration::from_millis(10))
        .build();

    let mut net = Network::new(topo, 42);
    net.fail_link(NodeId(0), NodeId(1));
    net.send(NodeId(0), NodeId(2), "stuck");

    let mut dropped = Vec::new();
    let stats = net.run(|_ctx, event| {
        if let NetEvent::Drop { reason, .. } = event {
            dropped.push(reason);
        }
    });

    assert_eq!(stats.messages_delivered, 0);
    assert_eq!(stats.messages_dropped, 1);
    assert_eq!(dropped, vec![DropReason::NoRoute]);
}

#[test]
fn fail_link_reroutes_via_alternate_path() {
    // Triangle: direct 0-2 = 100ms, indirect 0-1-2 = 20ms. Normal
    // routing prefers the indirect path; failing 0-1 forces fallback
    // to the direct edge and the message must still arrive.
    let topo = TopologyBuilder::new(3)
        .link(0u32, 1u32, Duration::from_millis(10))
        .link(1u32, 2u32, Duration::from_millis(10))
        .link(0u32, 2u32, Duration::from_millis(100))
        .build();

    let mut net = Network::new(topo, 42);
    net.fail_link(NodeId(0), NodeId(1));
    net.send(NodeId(0), NodeId(2), "long way");

    let mut arrivals = Vec::new();
    let stats = net.run(|ctx, event| {
        if let NetEvent::Deliver(_) = event {
            arrivals.push(ctx.now());
        }
    });

    assert_eq!(stats.messages_delivered, 1);
    assert_eq!(arrivals, vec![Time::from_millis(100)]);
}

#[test]
fn fail_link_directed_blocks_only_that_direction() {
    // Bidirectional link 0<->1 with 0->1 failed only.
    // Send 0->1 must drop NoRoute; send 1->0 must arrive.
    let topo = TopologyBuilder::new(2)
        .link(0u32, 1u32, Duration::from_millis(10))
        .build();

    let mut net = Network::new(topo, 42);
    net.fail_link_directed(NodeId(0), NodeId(1));
    net.send(NodeId(0), NodeId(1), "blocked");
    net.send(NodeId(1), NodeId(0), "ok");

    let mut delivered = Vec::new();
    let mut dropped = Vec::new();
    net.run(|_ctx, event| match event {
        NetEvent::Deliver(msg) => delivered.push(msg.payload),
        NetEvent::Drop { message, reason } => dropped.push((message.payload, reason)),
    });

    assert_eq!(delivered, vec!["ok"]);
    assert_eq!(dropped, vec![("blocked", DropReason::NoRoute)]);
}

#[test]
fn run_context_can_fail_and_heal_mid_run() {
    // Three reply messages issued from inside the handler — these go
    // through `pending_sends` and route against the *current* topology,
    // so fail/heal toggled mid-run takes effect. Use distinct timed
    // self-ticks at t={0, 20, 40}ms to drive the fail/heal sequence.
    let topo = TopologyBuilder::new(3)
        .link(0u32, 1u32, Duration::from_millis(10))
        .link(0u32, 2u32, Duration::from_millis(10))
        .build();

    let mut net: Network<u32> = Network::new(topo, 42);
    // Self-ticks on node 0 at distinct times to drive mid-run actions.
    net.send_at(Time::from_millis(0), NodeId(0), NodeId(0), 100);
    net.send_at(Time::from_millis(20), NodeId(0), NodeId(0), 200);
    net.send_at(Time::from_millis(40), NodeId(0), NodeId(0), 300);

    let mut outcomes = Vec::new();
    net.run(|ctx, event| match event {
        NetEvent::Deliver(msg) if msg.dst == NodeId(0) => match msg.payload {
            100 => {
                // First tick: send to node 1, link is healthy — must deliver.
                ctx.send(NodeId(0), NodeId(1), 1);
            }
            200 => {
                // Second tick: fail the link, then send to node 1 — must drop.
                ctx.fail_link(NodeId(0), NodeId(1));
                ctx.send(NodeId(0), NodeId(1), 2);
            }
            300 => {
                // Third tick: heal, then send to node 1 — must deliver again.
                ctx.heal_link(NodeId(0), NodeId(1));
                ctx.send(NodeId(0), NodeId(1), 3);
            }
            _ => {}
        },
        NetEvent::Deliver(msg) if msg.dst == NodeId(1) => {
            outcomes.push((msg.payload, "delivered"));
        }
        NetEvent::Drop {
            message,
            reason: DropReason::NoRoute,
        } => {
            outcomes.push((message.payload, "no_route"));
        }
        _ => {}
    });

    assert_eq!(
        outcomes,
        vec![(1, "delivered"), (2, "no_route"), (3, "delivered")]
    );
}

#[test]
fn fail_link_does_not_affect_in_flight_messages() {
    // A message scheduled for delivery survives a mid-flight link failure.
    // Send 0->1 (10ms in flight), schedule a self-tick on node 1 at t=5ms,
    // and use that tick to fail the 0-1 link mid-flight. The in-flight
    // message must still arrive at t=10ms.
    let topo = TopologyBuilder::new(2)
        .link(0u32, 1u32, Duration::from_millis(10))
        .build();

    let mut net: Network<&'static str> = Network::new(topo, 42);
    net.send(NodeId(0), NodeId(1), "in_flight");
    net.send_at(Time::from_millis(5), NodeId(1), NodeId(1), "tick");

    let mut delivered = Vec::new();
    net.run(|ctx, event| {
        if let NetEvent::Deliver(msg) = event {
            if msg.payload == "tick" {
                ctx.fail_link(NodeId(0), NodeId(1));
            }
            delivered.push((msg.payload, ctx.now()));
        }
    });

    assert!(
        delivered.contains(&("in_flight", Time::from_millis(10))),
        "in-flight message must survive mid-flight fail; got {delivered:?}"
    );
}

#[test]
fn fail_node_drops_with_no_route_when_no_alternate() {
    // Line 0 -- 1 -- 2; failing node 1 isolates 2 from 0.
    let topo = TopologyBuilder::new(3)
        .link(0u32, 1u32, Duration::from_millis(10))
        .link(1u32, 2u32, Duration::from_millis(10))
        .build();

    let mut net = Network::new(topo, 42);
    net.fail_node(NodeId(1));
    assert!(net.is_node_failed(NodeId(1)));
    net.send(NodeId(0), NodeId(2), "stuck");

    let mut dropped = Vec::new();
    let stats = net.run(|_ctx, event| {
        if let NetEvent::Drop { reason, .. } = event {
            dropped.push(reason);
        }
    });

    assert_eq!(stats.messages_delivered, 0);
    assert_eq!(dropped, vec![DropReason::NoRoute]);
}

#[test]
fn fail_node_reroutes_via_alternate_path() {
    // Diamond: 0 -> {1, 2} -> 3, where 1 is fast and 2 is slow.
    // Failing node 1 forces traffic through 2.
    let topo = TopologyBuilder::new(4)
        .link(0u32, 1u32, Duration::from_millis(5))
        .link(1u32, 3u32, Duration::from_millis(5))
        .link(0u32, 2u32, Duration::from_millis(50))
        .link(2u32, 3u32, Duration::from_millis(50))
        .build();

    let mut net = Network::new(topo, 42);
    net.fail_node(NodeId(1));
    net.send(NodeId(0), NodeId(3), "long way");

    let mut arrivals = Vec::new();
    let stats = net.run(|ctx, event| {
        if let NetEvent::Deliver(_) = event {
            arrivals.push(ctx.now());
        }
    });

    assert_eq!(stats.messages_delivered, 1);
    assert_eq!(arrivals, vec![Time::from_millis(100)]);
}

#[test]
fn fail_node_blocks_sends_targeting_failed_node() {
    let topo = TopologyBuilder::new(2)
        .link(0u32, 1u32, Duration::from_millis(10))
        .build();

    let mut net = Network::new(topo, 42);
    net.fail_node(NodeId(1));
    net.send(NodeId(0), NodeId(1), "to_dead_node");
    net.send(NodeId(1), NodeId(0), "from_dead_node");

    let mut dropped = Vec::new();
    let stats = net.run(|_ctx, event| {
        if let NetEvent::Drop { message, reason } = event {
            dropped.push((message.payload, reason));
        }
    });

    assert_eq!(stats.messages_delivered, 0);
    assert_eq!(stats.messages_dropped, 2);
    assert!(dropped.iter().all(|(_, r)| *r == DropReason::NoRoute));
}

#[test]
fn run_context_can_fail_and_heal_node_mid_run() {
    // Diamond like the reroute test, but driven from inside the run loop.
    // Tick 1: send through fast node 1 — must deliver.
    // Tick 2: fail node 1, send — must reroute via slow node 2.
    // Tick 3: heal node 1, send — must deliver via fast path again.
    let topo = TopologyBuilder::new(4)
        .link(0u32, 1u32, Duration::from_millis(5))
        .link(1u32, 3u32, Duration::from_millis(5))
        .link(0u32, 2u32, Duration::from_millis(50))
        .link(2u32, 3u32, Duration::from_millis(50))
        .build();

    let mut net: Network<u32> = Network::new(topo, 42);
    net.send_at(Time::from_millis(0), NodeId(0), NodeId(0), 100);
    net.send_at(Time::from_millis(200), NodeId(0), NodeId(0), 200);
    net.send_at(Time::from_millis(400), NodeId(0), NodeId(0), 300);

    let mut hops_taken = Vec::new();
    net.run(|ctx, event| match event {
        NetEvent::Deliver(msg) if msg.dst == NodeId(0) => match msg.payload {
            100 => {
                ctx.send(NodeId(0), NodeId(3), 1);
            }
            200 => {
                ctx.fail_node(NodeId(1));
                ctx.send(NodeId(0), NodeId(3), 2);
            }
            300 => {
                ctx.heal_node(NodeId(1));
                ctx.send(NodeId(0), NodeId(3), 3);
            }
            _ => {}
        },
        NetEvent::Deliver(msg) if msg.dst == NodeId(3) => {
            hops_taken.push((msg.payload, ctx.now()));
        }
        _ => {}
    });

    // First and third deliver via fast path (10ms after their dispatch);
    // second reroutes via slow path (100ms after its dispatch).
    // Dispatches are 0ms, 200ms, 400ms; arrivals are 10, 300, 410.
    assert_eq!(hops_taken.len(), 3);
    assert_eq!(hops_taken[0], (1, Time::from_millis(10)));
    assert_eq!(hops_taken[1], (2, Time::from_millis(300)));
    assert_eq!(hops_taken[2], (3, Time::from_millis(410)));
}

fn drop_in_flight_config() -> NetConfig {
    NetConfig {
        drop_in_flight_on_failure: true,
        ..Default::default()
    }
}

#[test]
fn drop_in_flight_default_off_preserves_in_flight_messages() {
    // Without the opt-in flag, an in-flight message that is later
    // partitioned away must still deliver — this is the historic
    // behavior that existing tests depend on.
    let topo = TopologyBuilder::new(2)
        .link(0u32, 1u32, Duration::from_millis(10))
        .build();

    let mut net = Network::new(topo, 42);
    net.send(NodeId(0), NodeId(1), "in_flight");
    // Partition installed *after* the send; default config keeps the
    // already-scheduled Deliver event intact.
    net.partition(NodeId(0), NodeId(1));

    let stats = net.run(|_ctx, _event| {});
    assert_eq!(stats.messages_delivered, 1);
    assert_eq!(stats.messages_dropped, 0);
}

#[test]
fn drop_in_flight_partition_rewrites_pending_delivery() {
    // With the flag on, partitioning after the send must rewrite the
    // queued Deliver event into a Drop with reason Partitioned, fired
    // at the time of the partition call (now == 0 here).
    let topo = TopologyBuilder::new(2)
        .link(0u32, 1u32, Duration::from_millis(10))
        .build();

    let mut net = Network::new(topo, 42).with_config(drop_in_flight_config());
    net.send(NodeId(0), NodeId(1), "in_flight");
    net.partition(NodeId(0), NodeId(1));

    let mut dropped = Vec::new();
    let stats = net.run(|ctx, event| {
        if let NetEvent::Drop { message, reason } = event {
            dropped.push((message.payload, reason, ctx.now()));
        }
    });

    assert_eq!(stats.messages_delivered, 0);
    assert_eq!(stats.messages_dropped, 1);
    assert_eq!(
        dropped,
        vec![("in_flight", DropReason::Partitioned, Time::zero())]
    );
}

#[test]
fn mod_drop_in_flight_link_failure_drops_when_no_alternate() {
    let topo = TopologyBuilder::new(3)
        .link(0u32, 1u32, Duration::from_millis(10))
        .link(1u32, 2u32, Duration::from_millis(10))
        .build();

    let mut net = Network::new(topo, 42).with_config(drop_in_flight_config());
    net.send(NodeId(0), NodeId(2), "doomed");
    net.fail_link(NodeId(0), NodeId(1));

    let mut dropped = Vec::new();
    let stats = net.run(|_ctx, event| {
        if let NetEvent::Drop { message, reason } = event {
            dropped.push((message.payload, reason));
        }
    });

    assert_eq!(stats.messages_delivered, 0);
    assert_eq!(dropped, vec![("doomed", DropReason::NoRoute)]);
}

#[test]
fn drop_in_flight_link_failure_preserves_when_alternate_exists() {
    // Triangle: failing 0-1 still leaves 0->2 directly via the slow edge.
    // The in-flight 0->2 message (originally taking the fast 0-1-2 path)
    // is still routable, so the sweep must leave it alone.
    let topo = TopologyBuilder::new(3)
        .link(0u32, 1u32, Duration::from_millis(10))
        .link(1u32, 2u32, Duration::from_millis(10))
        .link(0u32, 2u32, Duration::from_millis(100))
        .build();

    let mut net = Network::new(topo, 42).with_config(drop_in_flight_config());
    net.send(NodeId(0), NodeId(2), "still_ok");
    net.fail_link(NodeId(0), NodeId(1));

    let stats = net.run(|_ctx, _event| {});
    assert_eq!(stats.messages_delivered, 1);
    assert_eq!(stats.messages_dropped, 0);
}

#[test]
fn drop_in_flight_node_failure_drops_when_node_is_dst() {
    let topo = TopologyBuilder::new(2)
        .link(0u32, 1u32, Duration::from_millis(10))
        .build();

    let mut net = Network::new(topo, 42).with_config(drop_in_flight_config());
    net.send(NodeId(0), NodeId(1), "to_dead");
    net.fail_node(NodeId(1));

    let mut dropped = Vec::new();
    let stats = net.run(|_ctx, event| {
        if let NetEvent::Drop { message, reason } = event {
            dropped.push((message.payload, reason));
        }
    });

    assert_eq!(stats.messages_delivered, 0);
    assert_eq!(dropped, vec![("to_dead", DropReason::NoRoute)]);
}

#[test]
fn drop_in_flight_works_mid_run_via_run_context() {
    // Send a message at t=0 (delivers at t=10ms). At t=5ms, a self-tick
    // causes the handler to fail the link. The sweep on the post-handler
    // hook must rewrite the in-flight message into a Drop.
    let topo = TopologyBuilder::new(2)
        .link(0u32, 1u32, Duration::from_millis(10))
        .build();

    let mut net: Network<&'static str> =
        Network::new(topo, 42).with_config(drop_in_flight_config());
    net.send(NodeId(0), NodeId(1), "doomed");
    net.send_at(Time::from_millis(5), NodeId(1), NodeId(1), "tick");

    let mut events_seen = Vec::new();
    net.run(|ctx, event| match event {
        NetEvent::Deliver(msg) if msg.payload == "tick" => {
            ctx.fail_link(NodeId(0), NodeId(1));
            events_seen.push(("tick_at", ctx.now()));
        }
        NetEvent::Drop { message, reason } => {
            events_seen.push((message.payload, ctx.now()));
            assert_eq!(reason, DropReason::NoRoute);
        }
        _ => {}
    });

    // Tick fired at 5ms; doomed message dropped at 5ms (time of failure),
    // not at its original 10ms delivery time.
    assert_eq!(
        events_seen,
        vec![
            ("tick_at", Time::from_millis(5)),
            ("doomed", Time::from_millis(5))
        ]
    );
}

#[test]
fn deterministic_simulation() {
    fn run_sim() -> (Vec<(Time, NodeId)>, NetworkStats) {
        let topo = TopologyBuilder::new(4)
            .ring(Duration::from_millis(10))
            .build();

        let latency_model = UniformJitter::new(Duration::from_millis(2));
        let mut net = Network::with_latency_model(topo, latency_model, 42);

        net.send(NodeId(0), NodeId(2), ());
        net.send(NodeId(1), NodeId(3), ());
        net.send(NodeId(2), NodeId(0), ());

        let mut deliveries = Vec::new();
        let stats = net.run(|_ctx, event| {
            if let NetEvent::Deliver(msg) = event {
                deliveries.push((Time::zero(), msg.dst)); // We'd need sim.now() access
            }
        });
        (deliveries, stats)
    }

    let (d1, s1) = run_sim();
    let (d2, s2) = run_sim();

    assert_eq!(d1, d2);
    assert_eq!(s1.final_time, s2.final_time);
}

#[test]
fn a_full_buffer_refuses_what_exceeds_the_largest_count() {
    let topo = TopologyBuilder::new(2)
        .link_with_capacity_and_buffer(0u32, 1u32, Duration::zero(), u64::MAX, u64::MAX)
        .build();
    let mut net: Network<u32> = Network::new(topo, 1);
    // a second of transmission leaves the largest count of bytes pending
    net.send_sized(NodeId(0), NodeId(1), 0, u64::MAX);
    net.send_sized(NodeId(0), NodeId(1), 1, 1);
    let mut dropped = Vec::new();
    let stats = net.run(|_ctx, event| {
        if let NetEvent::Drop { message, reason } = event {
            dropped.push((message.payload, reason));
        }
    });
    assert_eq!(stats.messages_delivered, 1);
    assert_eq!(dropped, vec![(1, DropReason::BufferOverflow)]);
}
