use simulacra::scenario::goes_on;
use simulacra::task::{Polled, Reply, Step, TaskId, TaskRun};
use simulacra::trace::TraceEnvelopeOwned;
use simulacra::{
    DropPolicy, DropReason, Duration, Either, FailureAction, MessageId, NetConfig, NetEvent, NetTraceEvent,
    Network, NodeId, Probability, ReplayError, Scenario, TaskSim, TaskSimBuilder,
    TaskTraceDropReason, TaskTraceEvent, Time, Topology, TopologyBuilder, Trace, TraceLoadError,
    TraceMismatch, TracedNetwork, UniformJitter,
};

fn ms(n: u64) -> Duration {
    Duration::from_millis(n)
}

fn diamond() -> Topology {
    TopologyBuilder::new(4)
        .link(0u32, 1u32, ms(5))
        .link(1u32, 3u32, ms(5))
        .link(0u32, 2u32, ms(20))
        .link(2u32, 3u32, ms(20))
        .build()
}

#[test]
fn failures_never_shorten_a_route() {
    let mut t = diamond();
    let before = t.route(NodeId(0), NodeId(3)).unwrap();
    t.fail_link_directed(NodeId(1), NodeId(3));
    let after = t.route(NodeId(0), NodeId(3)).unwrap();
    assert_eq!(before.total_latency, ms(10));
    assert_eq!(after.total_latency, ms(40));
    assert_eq!(after.next_hop, NodeId(2));
    t.heal_link_directed(NodeId(1), NodeId(3));
    assert_eq!(t.route(NodeId(0), NodeId(3)).unwrap(), before);
}

#[test]
fn every_hop_brings_a_message_closer() {
    let mut t = TopologyBuilder::new(6).line(ms(3)).build();
    let mut node = NodeId(0);
    let mut left = t.route(node, NodeId(5)).unwrap().total_latency;
    let mut hops = 0;
    while node != NodeId(5) {
        node = t.route(node, NodeId(5)).unwrap().next_hop;
        let now_left = t.route(node, NodeId(5)).unwrap().total_latency;
        assert!(now_left < left);
        left = now_left;
        hops += 1;
    }
    assert_eq!(hops, 5);
    assert_eq!(left, ms(0));
}

#[test]
fn failing_an_edge_without_a_link_changes_nothing() {
    let mut t = diamond();
    t.fail_link(NodeId(0), NodeId(3));
    t.fail_link(NodeId(1), NodeId(2));
    let mut healthy = diamond();
    for a in 0..4 {
        for b in 0..4 {
            assert_eq!(
                t.route(NodeId(a), NodeId(b)),
                healthy.route(NodeId(a), NodeId(b))
            );
        }
    }
}

#[test]
fn a_failed_node_has_no_route_to_itself() {
    let mut t = diamond();
    t.fail_node(NodeId(1));
    assert!(t.route(NodeId(1), NodeId(1)).is_none());
    assert!(t.route(NodeId(0), NodeId(1)).is_none());
    assert_eq!(t.route(NodeId(2), NodeId(2)).unwrap().hop_count, 0);
}

#[test]
fn every_message_is_delivered_or_dropped() {
    let mut net: Network<u32, _> =
        Network::with_latency_model(diamond(), UniformJitter::new(ms(2)), 7).with_config(NetConfig {
            packet_loss: Probability::Parts(1 << 62),
            drop_in_flight_on_failure: true,
        });
    for i in 0..100u32 {
        net.send(NodeId(i % 4), NodeId((i * 3 + 1) % 4), i);
    }
    let stats = net.run(|ctx, event| {
        if let NetEvent::Deliver(m) = event {
            if m.payload == 17 {
                ctx.fail_node(NodeId(1));
            }
            if m.payload % 10 == 3 {
                ctx.send(m.dst, m.src, 1000);
            }
        }
    });
    assert!(stats.messages_delivered > 0);
    assert!(stats.messages_dropped > 0);
    assert_eq!(
        stats.messages_sent,
        stats.messages_delivered + stats.messages_dropped
    );
    assert_eq!(stats.events_processed, stats.messages_sent);
}

#[test]
fn each_message_is_handled_once() {
    let topology = TopologyBuilder::new(5).ring(ms(2)).build();
    let mut net: Network<u32> = Network::new(topology, 17).with_config(NetConfig {
        packet_loss: Probability::Parts(1 << 62),
        drop_in_flight_on_failure: true,
    });
    for i in 0..40u32 {
        net.send(NodeId(i % 5), NodeId((i + 2) % 5), i);
    }
    let mut seen = Vec::new();
    let stats = net.run(|ctx, event| {
        let message = match event {
            NetEvent::Deliver(m) => m,
            NetEvent::Drop { message, .. } => message,
        };
        seen.push(message.id.0);
        if message.payload == 7 {
            ctx.fail_node(NodeId(3));
        }
        if message.payload < 40 {
            ctx.send(message.dst, message.src, message.payload + 40);
        }
    });
    seen.sort_unstable();
    assert_eq!(seen, (0..80).collect::<Vec<u64>>());
    assert_eq!(stats.messages_sent, 80);
    assert_eq!(stats.messages_delivered + stats.messages_dropped, 80);
    assert_eq!(stats.events_processed, 80);
    assert!(stats.messages_delivered > 0 && stats.messages_dropped > 0);
}

#[test]
fn a_trace_tells_of_every_event_in_time_order() {
    let run = || {
        let mut net: TracedNetwork<u8, _> =
            TracedNetwork::with_latency_model(diamond(), UniformJitter::new(ms(4)), 99);
        for i in 0..20u32 {
            net.send(NodeId(i % 4), NodeId((i + 1) % 4), 0);
        }
        net.partition(NodeId(0), NodeId(1));
        net.send(NodeId(1), NodeId(0), 0);
        net.run_traced(|_, _| {})
    };
    let (stats, trace) = run();
    let delivered = trace
        .events()
        .filter(|e| matches!(e.event, NetTraceEvent::Delivered { .. }))
        .count() as u64;
    assert_eq!(delivered, stats.messages_delivered);
    assert_eq!(
        trace.len() as u64,
        stats.messages_delivered + stats.messages_dropped
    );
    let mut last = 0;
    for (i, e) in trace.events().enumerate() {
        assert!(e.time_ns >= last);
        assert_eq!(e.sequence, i as u64);
        last = e.time_ns;
    }
    assert_eq!(trace.final_time(), stats.final_time);
    let (again, same) = run();
    assert_eq!(stats, again);
    assert!(trace.compare(&same).is_ok());
}

#[test]
fn a_message_that_cannot_be_represented_is_not_sent() {
    for (time, dst) in [(Time(u64::MAX), NodeId(3)), (Time(0), NodeId(9))] {
        let mut net: Network<()> = Network::new(diamond(), 1);
        assert!(net
            .try_send_at_sized(time, NodeId(0), dst, (), 0)
            .is_none());
        assert_eq!(net.run(|_, _| {}).events_processed, 0);
    }
    let mut net: Network<()> = Network::new(diamond(), 1);
    assert!(net
        .try_send_at_sized(Time(0), NodeId(0), NodeId(3), (), 0)
        .is_some());
    let stats = net.try_run(|_, _| {}).unwrap();
    assert_eq!(stats.final_time, Time::from_millis(10));
    assert_eq!(stats.messages_sent, 1);
}

#[test]
fn only_a_plain_send_tells_of_a_missing_route() {
    let apart = || TopologyBuilder::new(3).link(0u32, 1u32, ms(5)).build();
    let mut net: Network<u8> = Network::new(apart(), 1);
    assert_eq!(net.send(NodeId(0), NodeId(1), 0), Some(MessageId(0)));
    assert_eq!(net.send(NodeId(0), NodeId(2), 1), None);
    assert_eq!(net.send_sized(NodeId(0), NodeId(2), 2, 10), Some(MessageId(2)));
    assert_eq!(net.send_at(Time(5), NodeId(0), NodeId(2), 3), Some(MessageId(3)));
    assert_eq!(
        net.send_at_sized(Time(5), NodeId(0), NodeId(2), 4, 10),
        Some(MessageId(4))
    );
    let mut dropped = Vec::new();
    net.run(|_, event| {
        if let NetEvent::Drop { message, reason } = event {
            dropped.push((message.id, reason));
        }
    });
    assert_eq!(
        dropped,
        (1..5)
            .map(|i| (MessageId(i), DropReason::NoRoute))
            .collect::<Vec<_>>()
    );
    let mut traced = TracedNetwork::new(apart(), 1);
    assert_eq!(traced.send(NodeId(0), NodeId(2), 0u8), None);
    assert_eq!(traced.send_sized(NodeId(0), NodeId(2), 1, 9), Some(MessageId(1)));
}

#[test]
fn a_run_that_cannot_be_represented_ends() {
    let mut net: Network<()> = Network::new(diamond(), 1);
    net.send(NodeId(0), NodeId(3), ());
    assert!(net
        .try_run(|ctx, _| ctx.send(NodeId(0), NodeId(9), ()))
        .is_none());
    let mut net: TracedNetwork<(), _> = TracedNetwork::new(diamond(), 1);
    net.send(NodeId(0), NodeId(3), ());
    assert!(net
        .try_run_traced(|ctx, _| ctx.send(NodeId(9), NodeId(0), ()))
        .is_none());
}

#[test]
fn a_refused_message_takes_no_link() {
    let topology = TopologyBuilder::new(3)
        .directed_link_with_capacity(0u32, 1u32, ms(1), 1_000)
        .directed_link_with_policy(
            1u32,
            2u32,
            ms(1),
            1_000,
            10,
            DropPolicy::TailDrop,
        )
        .build();
    let mut net: Network<u8> = Network::new(topology, 1);
    net.send_sized(NodeId(0), NodeId(2), 0, 100);
    net.send_sized(NodeId(0), NodeId(1), 1, 100);
    let mut seen = Vec::new();
    net.run(|ctx, event| match event {
        NetEvent::Deliver(m) => seen.push((m.payload, ctx.now(), None)),
        NetEvent::Drop { message, reason } => {
            seen.push((message.payload, ctx.now(), Some(reason)));
        }
    });
    assert_eq!(
        seen,
        vec![
            (0, Time(0), Some(DropReason::BufferOverflow)),
            (1, Time::from_millis(101), None),
        ]
    );
}

#[test]
fn two_messages_share_a_link_one_after_the_other() {
    let topology = TopologyBuilder::new(2)
        .link_with_capacity(0u32, 1u32, ms(5), 1_000)
        .build();
    let mut net: Network<u8> = Network::new(topology, 1);
    net.send_sized(NodeId(0), NodeId(1), 0, 20);
    net.send_sized(NodeId(0), NodeId(1), 1, 30);
    net.send(NodeId(0), NodeId(1), 2);
    let mut seen = Vec::new();
    net.run(|ctx, event| {
        if let NetEvent::Deliver(m) = event {
            seen.push((m.payload, ctx.now()));
        }
    });
    assert_eq!(
        seen,
        vec![
            (2, Time::from_millis(5)),
            (0, Time::from_millis(25)),
            (1, Time::from_millis(55)),
        ]
    );
}

#[test]
fn mismatches_and_errors_have_their_texts() {
    let seed = TraceMismatch::SeedMismatch {
        expected: 1,
        actual: 2,
    };
    assert_eq!(seed.to_string(), "seed mismatch: expected 1, got 2");
    assert_eq!(
        TraceMismatch::LengthMismatch {
            expected: 3,
            actual: 4
        }
        .to_string(),
        "length mismatch: expected 3 events, got 4"
    );
    assert_eq!(
        TraceMismatch::TimeMismatch {
            index: 0,
            expected: Time(5),
            actual: Time(6_000)
        }
        .to_string(),
        "time mismatch at event 0: expected 5ns, got 6.000µs"
    );
    assert_eq!(
        TraceMismatch::EventMismatch { index: 12 }.to_string(),
        "event data mismatch at index 12"
    );
    assert_eq!(
        ReplayError {
            seed: 9,
            mismatch: seed
        }
        .to_string(),
        "replay validation failed (seed 9): seed mismatch: expected 1, got 2"
    );
    assert_eq!(
        TraceLoadError::NotASimulacraTrace.to_string(),
        "not a Simulacra trace (missing or wrong \"simulacra-trace\" format tag)"
    );
    assert_eq!(
        TraceLoadError::SchemaVersion {
            expected: 1,
            found: 7
        }
        .to_string(),
        "unsupported trace schema version: file is v7, this build expects v1"
    );
}

#[test]
fn a_trace_comes_back_from_its_envelope() {
    let mut trace: Trace<u8> = Trace::new(3);
    trace.record(Time(10), 1);
    trace.record(Time(20), 2);
    let envelope = trace.envelope();
    let owned = TraceEnvelopeOwned {
        format: envelope.format.to_string(),
        schema_version: envelope.schema_version,
        seed: envelope.seed,
        events: envelope.events.to_vec(),
        final_time_ns: envelope.final_time_ns,
    };
    let back = Trace::from_envelope(owned).unwrap();
    assert!(trace.compare(&back).is_ok());
    assert!(back.compare(&trace).is_ok());
    assert!(trace.compare(&trace).is_ok());
    assert_eq!(back.final_time(), Time(20));
}

/// Runs a simulation whose tasks are all done at once.
fn run_out<M>(sim: &mut TaskSim<M>) -> simulacra::TaskSimStats {
    let mut run = TaskRun::new(sim);
    let mut reply = Reply::Begin;
    loop {
        match run.step(sim, reply) {
            Step::Poll(_) => reply = Reply::Polled { ready: true },
            Step::Ask(_) => reply = Reply::Answer { go_on: true },
            Step::Finished(stats) => return stats,
            Step::Overflow => panic!("out of range"),
        }
    }
}

#[test]
fn sent_messages_are_delivered_dropped_or_on_their_way() {
    let mut sim = TaskSimBuilder::<u8>::new(diamond(), 1)
        .with_trace()
        .drop_in_flight_on_failure()
        .build();
    for i in 0..4u32 {
        for j in 0..4u32 {
            sim.inject(NodeId(i), NodeId(j), 0);
        }
    }
    sim.fail_node(NodeId(1));
    assert_eq!(sim.messages_dropped(), 7);
    sim.inject(NodeId(0), NodeId(1), 0);
    assert_eq!(sim.messages_dropped(), 8);
    let stats = run_out(&mut sim);
    assert_eq!(stats.messages_delivered + stats.messages_dropped, 17);
    let trace = sim.finish_trace(stats.final_time);
    let told = trace
        .events()
        .filter(|e| matches!(e.event, TaskTraceEvent::Delivered { .. }))
        .count() as u64;
    assert_eq!(told, stats.messages_delivered);
    assert_eq!(trace.len() as u64, 17);
    assert_eq!(stats.tasks_completed, 4);
    assert_eq!(stats.task_polls, 4);
}

#[test]
fn swept_messages_are_told_by_source_and_destination() {
    let mut sim = TaskSimBuilder::<u8>::new(diamond(), 1)
        .with_trace()
        .drop_in_flight_on_failure()
        .build();
    for (a, b) in [(3u32, 0u32), (0, 3), (0, 1), (2, 0), (0, 3)] {
        sim.inject(NodeId(a), NodeId(b), 0);
    }
    sim.fail_node(NodeId(0));
    let trace = sim.finish_trace(Time(0));
    let told: Vec<(u32, u32)> = trace
        .events()
        .map(|e| match e.event {
            TaskTraceEvent::Dropped {
                src,
                dst,
                reason: TaskTraceDropReason::NoRoute,
            } => (src, dst),
            _ => panic!("expected a drop"),
        })
        .collect();
    assert_eq!(told, vec![(0, 1), (0, 3), (0, 3), (2, 0), (3, 0)]);
}

#[test]
fn recording_a_trace_changes_nothing_else() {
    let run = |traced: bool| {
        let builder = TaskSimBuilder::<u8>::new(diamond(), 1);
        let mut sim = if traced {
            builder.with_trace().build()
        } else {
            builder.build()
        };
        sim.inject(NodeId(0), NodeId(3), 0);
        sim.partition(NodeId(0), NodeId(2));
        sim.inject(NodeId(2), NodeId(0), 0);
        sim.schedule_failure(Time(3), FailureAction::FailNode(NodeId(3)));
        run_out(&mut sim)
    };
    assert_eq!(run(true), run(false));
    assert_eq!(run(true).messages_dropped, 1);
    assert_eq!(run(true).messages_delivered, 1);
}

#[test]
fn messages_leave_an_inbox_as_they_came() {
    let mut sim = TaskSimBuilder::<u8>::new(diamond(), 1).build();
    let contexts = sim.contexts();
    for n in 0..3u8 {
        sim.inject(NodeId(2), NodeId(3), n);
    }
    run_out(&mut sim);
    let mut recv = contexts[3].recv();
    for n in 0..3u8 {
        match recv.poll(&mut sim) {
            Polled::Ready(envelope) => {
                assert_eq!(envelope.payload, n);
                assert_eq!(envelope.src, NodeId(2));
                assert_eq!(envelope.sent_at, Time(0));
                assert_eq!(envelope.received_at, Time::from_millis(20));
            }
            _ => panic!("expected a message"),
        }
    }
    assert!(matches!(recv.poll(&mut sim), Polled::Pending));
}

#[test]
fn a_message_is_taken_even_when_the_time_is_over() {
    let mut sim = TaskSimBuilder::<u8>::new(diamond(), 1).build();
    let contexts = sim.contexts();
    let mut wait = contexts[1].recv_timeout(&sim, ms(5));
    assert!(matches!(wait.poll(&mut sim), Polled::Pending));
    let mut late = contexts[1].recv_timeout(&sim, ms(5));
    sim.inject(NodeId(0), NodeId(1), 7);
    run_out(&mut sim);
    assert_eq!(sim.now(), Time::from_millis(5));
    assert!(matches!(wait.poll(&mut sim), Polled::Ready(Some(e)) if e.payload == 7));
    assert!(matches!(late.poll(&mut sim), Polled::Ready(None)));
}

#[test]
fn a_sleeper_wakes_at_its_time() {
    let mut sim = TaskSimBuilder::<u8>::new(diamond(), 1).build();
    let contexts = sim.contexts();
    let mut sleep = contexts[0].sleep(&sim, ms(8));
    assert_eq!(sleep.poll(&mut sim), Polled::Pending);
    assert_eq!(sleep.poll(&mut sim), Polled::Pending);
    let stats = run_out(&mut sim);
    assert_eq!(stats.events_processed, 1);
    assert_eq!(stats.final_time, Time::from_millis(8));
    assert_eq!(sleep.poll(&mut sim), Polled::Ready(()));
}

#[test]
fn what_cannot_be_represented_is_refused() {
    let mut sim = TaskSimBuilder::<u8>::new(diamond(), 1).build();
    let contexts = sim.contexts();
    assert!(!sim.try_inject(NodeId(0), NodeId(9), 0));
    assert_eq!(
        contexts[0].send(NodeId(9), 0).poll(&mut sim),
        Polled::Overflow
    );
    assert!(sim.try_inject(NodeId(9), NodeId(9), 0));
    let stats = run_out(&mut sim);
    assert_eq!(stats.events_processed, 1);
    assert_eq!(stats.messages_delivered, 0);
    let mut sleep = contexts[0].sleep(&sim, Duration(u64::MAX));
    assert_eq!(sleep.poll(&mut sim), Polled::Pending);
    run_out(&mut sim);
    assert_eq!(sim.now(), Time(u64::MAX));
    assert!(!sim.try_inject(NodeId(0), NodeId(1), 0));
    assert!(sim.try_inject(NodeId(0), NodeId(0), 0));
}

#[test]
fn a_run_can_be_ended_before_an_event() {
    let mut sim = TaskSimBuilder::<u8>::new(diamond(), 1).build();
    sim.inject(NodeId(0), NodeId(1), 0);
    let mut run = TaskRun::new(&sim);
    let mut step = run.step(&mut sim, Reply::Begin);
    let mut polled = Vec::new();
    while let Step::Poll(id) = step {
        polled.push(id.0);
        step = run.step(&mut sim, Reply::Polled { ready: false });
    }
    assert_eq!(polled, vec![0, 1, 2, 3]);
    assert_eq!(step, Step::Ask(Time::from_millis(5)));
    match run.step(&mut sim, Reply::Answer { go_on: false }) {
        Step::Finished(stats) => {
            assert_eq!(stats.final_time, Time(0));
            assert_eq!(stats.events_processed, 0);
            assert_eq!(stats.messages_delivered, 0);
        }
        other => panic!("expected the end, got {other:?}"),
    }
}

#[test]
fn the_first_computation_decides_unless_it_waits() {
    let mut pair = simulacra::select2(1, 2);
    let left = pair.poll_with(|a| Polled::Ready(*a), |b| Polled::Ready(*b));
    assert_eq!(left, Polled::Ready(Either::Left(1)));
    let right = pair.poll_with(
        |a| {
            *a += 10;
            Polled::<i32>::Pending
        },
        |b| Polled::Ready(*b),
    );
    assert_eq!(right, Polled::Ready(Either::Right(2)));
    assert_eq!(pair.a, 11);
    let over = pair.poll_with(
        |_| Polled::<i32>::Overflow,
        |b| {
            *b = 0;
            Polled::<i32>::Pending
        },
    );
    assert_eq!(over, Polled::Overflow);
    assert_eq!(pair.b, 2);
}

#[test]
fn the_signal_to_stop_stays() {
    let mut sim = TaskSimBuilder::<u8>::new(diamond(), 1).build();
    let contexts = sim.contexts();
    let token = sim.shutdown_token();
    let copy = token;
    assert!(!token.is_cancelled(&sim));
    token.cancel(&mut sim);
    assert!(copy.is_cancelled(&sim));
    assert!(sim.shutdown_token().is_cancelled(&sim));
    copy.cancel(&mut sim);
    sim.inject(NodeId(0), NodeId(3), 0);
    sim.partition(NodeId(0), NodeId(3));
    run_out(&mut sim);
    assert!(contexts[2].shutdown_token().is_cancelled(&sim));
    let other = TaskSimBuilder::<u8>::new(diamond(), 1).build();
    assert!(!token.is_cancelled(&other));
}

#[test]
fn lifting_a_partition_undoes_it() {
    let mut sim = TaskSimBuilder::<u8>::new(diamond(), 1).build();
    let contexts = sim.contexts();
    let ctx = contexts[0];
    ctx.partition(&mut sim, NodeId(3), NodeId(0));
    assert!(ctx.is_partitioned(&sim, NodeId(0), NodeId(3)));
    sim.inject(NodeId(0), NodeId(3), 0);
    ctx.heal(&mut sim, NodeId(0), NodeId(3));
    assert!(!ctx.is_partitioned(&sim, NodeId(3), NodeId(0)));
    sim.inject(NodeId(0), NodeId(3), 0);
    ctx.fail_link_directed(&mut sim, NodeId(0), NodeId(1));
    assert!(ctx.is_link_failed_directed(&sim, NodeId(0), NodeId(1)));
    assert!(!ctx.is_link_failed(&sim, NodeId(0), NodeId(1)));
    ctx.heal_link_directed(&mut sim, NodeId(0), NodeId(1));
    ctx.fail_node(&mut sim, NodeId(2));
    assert!(ctx.is_node_failed(&sim, NodeId(2)));
    ctx.heal_node(&mut sim, NodeId(2));
    let stats = run_out(&mut sim);
    assert_eq!(stats.messages_dropped, 1);
    assert_eq!(stats.messages_delivered, 1);
    assert_eq!(stats.final_time, Time::from_millis(10));
}

#[test]
fn a_scenario_is_staged_in_order() {
    let scenario = Scenario::<u8>::new(diamond(), 4)
        .fail_at(Time(0), FailureAction::FailNode(NodeId(3)))
        .inject(NodeId(0), NodeId(3), 1)
        .run_for(ms(7));
    assert!(goes_on(scenario.run_until, Time::from_millis(7)));
    assert!(!goes_on(scenario.run_until, Time(7_000_001)));
    assert!(goes_on(None, Time(u64::MAX)));
    assert_eq!(scenario.contexts().len(), 4);
    let mut sim = scenario.stage().unwrap();
    assert_eq!(sim.seed(), 4);
    assert_eq!(sim.messages_dropped(), 0);
    let stats = run_out(&mut sim);
    assert_eq!(stats.messages_delivered, 1);
    assert_eq!(stats.events_processed, 2);
    assert!(Scenario::<u8>::new(diamond(), 4)
        .inject(NodeId(0), NodeId(17), 1)
        .stage()
        .is_none());
}

/// Plays ping and pong between nodes 0 and 3 until the ball has been hit `hits` times.
fn rally(hits: u8) -> impl FnMut(&mut TaskSim<u8>, TaskId) -> bool {
    let mut served = false;
    move |sim: &mut TaskSim<u8>, id: TaskId| {
        let ctx = sim.contexts()[id.0 as usize];
        if id.0 == 1 || id.0 == 2 {
            return true;
        }
        if id.0 == 0 && !served {
            served = true;
            assert_eq!(ctx.send(NodeId(3), 1).poll(sim), Polled::Ready(()));
        }
        match ctx.recv().poll(sim) {
            Polled::Ready(envelope) => {
                if envelope.payload < hits {
                    let sent = ctx.send(envelope.src, envelope.payload + 1).poll(sim);
                    assert_eq!(sent, Polled::Ready(()));
                }
                ctx.recv().poll(sim);
                false
            }
            _ => false,
        }
    }
}

#[test]
fn tasks_play_until_nothing_is_left() {
    let sim = TaskSimBuilder::<u8>::new(diamond(), 1).build();
    let stats = sim.run(rally(6));
    assert_eq!(stats.messages_delivered, 6);
    assert_eq!(stats.final_time, Time::from_millis(60));
    assert_eq!(stats.tasks_completed, 2);
}

#[test]
fn tasks_play_until_they_are_told_to_stop() {
    let sim = TaskSimBuilder::<u8>::new(diamond(), 1).build();
    let stats = sim.run_until(rally(6), |t| t <= Time::from_millis(35));
    assert_eq!(stats.messages_delivered, 3);
    assert_eq!(stats.final_time, Time::from_millis(30));
    let mut sim = TaskSimBuilder::<u8>::new(diamond(), 1).build();
    let same = sim.try_run_until(rally(6), |t| t <= Time::from_millis(35));
    assert_eq!(same, Some(stats));
    assert_eq!(sim.now(), Time::from_millis(30));
}

#[test]
fn a_traced_run_is_the_same_run() {
    let plain = TaskSimBuilder::<u8>::new(diamond(), 1).build().run(rally(4));
    let (stats, trace) = TaskSimBuilder::<u8>::new(diamond(), 1).build().run_traced(rally(4));
    assert_eq!(stats, plain);
    assert_eq!(trace.len(), 4);
    let (cut, shorter) = TaskSimBuilder::<u8>::new(diamond(), 1)
        .build()
        .run_until_traced(rally(4), |t| t < Time::from_millis(40));
    assert_eq!(cut.messages_delivered, 3);
    assert_eq!(shorter.len(), 3);
    let again = TaskSimBuilder::<u8>::new(diamond(), 1)
        .build()
        .try_run_until_traced(rally(4), |_| true);
    assert!(again.is_some_and(|(s, t)| s == plain && trace.compare(&t).is_ok()));
}

#[test]
fn a_scenario_runs_as_far_as_its_limit() {
    let scenario = || Scenario::<u8>::new(diamond(), 4).run_for(ms(30));
    let stats = scenario().run(rally(6));
    assert_eq!(stats.messages_delivered, 3);
    assert_eq!(scenario().try_run(rally(6)), Some(stats));
    let impossible = Scenario::<u8>::new(diamond(), 4).inject(NodeId(0), NodeId(17), 1);
    assert_eq!(impossible.try_run(rally(6)), None);
}

#[test]
fn the_next_node_has_the_rest_of_the_route() {
    // many links of no latency at all, so that ties are everywhere
    let mut topo = TopologyBuilder::new(9)
        .ring(Duration(0))
        .star(Duration(0))
        .link(1u32, 5u32, Duration(0))
        .directed_link(4u32, 2u32, Duration(3))
        .build();
    for src in topo.nodes() {
        for dst in topo.nodes() {
            let mut at = src;
            let mut route = topo.route(src, dst).unwrap();
            assert!((route.hop_count as usize) < topo.node_count());
            while at != dst {
                let next = topo.route(route.next_hop, dst).unwrap();
                assert_eq!(next.hop_count + 1, route.hop_count);
                at = route.next_hop;
                route = next;
            }
            assert_eq!(route.hop_count, 0);
        }
    }
}

#[test]
fn a_link_on_a_failed_edge_waits_for_the_edge() {
    let mut topo = Topology::new(2);
    topo.fail_link_directed(NodeId(0), NodeId(1));
    topo.add_bidi_link(NodeId(0), NodeId(1), ms(1));
    assert!(topo.route(NodeId(0), NodeId(1)).is_none());
    assert_eq!(topo.route(NodeId(1), NodeId(0)).unwrap().total_latency, ms(1));
    topo.heal_link_directed(NodeId(0), NodeId(1));
    assert_eq!(topo.route(NodeId(0), NodeId(1)).unwrap().total_latency, ms(1));
}

#[test]
fn a_partition_leaves_other_nodes_alone() {
    let mut net: Network<u8> = Network::new(diamond(), 1);
    net.partition(NodeId(3), NodeId(0));
    assert!(net.is_partitioned(NodeId(0), NodeId(3)));
    assert!(!net.is_partitioned(NodeId(0), NodeId(1)));
    net.send(NodeId(0), NodeId(3), 0);
    net.send(NodeId(0), NodeId(1), 1);
    net.send(NodeId(1), NodeId(3), 2);
    let mut arrived = Vec::new();
    let stats = net.run(|ctx, event| {
        if let NetEvent::Deliver(m) = event {
            arrived.push((ctx.now(), m.payload));
        }
    });
    assert_eq!(arrived, vec![(Time::from_millis(5), 1), (Time::from_millis(5), 2)]);
    assert_eq!(stats.messages_dropped, 1);
}

#[test]
fn nodes_outside_the_topology_can_only_have_failed() {
    let mut topo = diamond();
    assert!(topo.can_route(NodeId(0), NodeId(3)));
    assert!(topo.can_route(NodeId(9), NodeId(9)));
    assert!(!topo.can_route(NodeId(0), NodeId(9)));
    topo.fail_node(NodeId(9));
    assert!(topo.can_route(NodeId(0), NodeId(9)));
    assert!(topo.route(NodeId(0), NodeId(9)).is_none());
    assert!(topo.route(NodeId(9), NodeId(9)).is_none());
    let mut net: Network<u8> = Network::new(topo, 1);
    let sent = net.try_send_at_sized(Time(3), NodeId(0), NodeId(9), 7, 100);
    assert_eq!(sent, Some(MessageId(0)));
    assert_eq!(net.try_send_at_sized(Time(3), NodeId(0), NodeId(8), 7, 100), None);
    let mut reasons = Vec::new();
    net.run(|ctx, event| {
        if let NetEvent::Drop { reason, .. } = event {
            reasons.push((ctx.now(), reason));
        }
    });
    assert_eq!(reasons, vec![(Time(3), DropReason::NoRoute)]);
}

#[test]
fn a_handler_with_a_memory_repeats_its_run() {
    let run = || {
        let mut net = TracedNetwork::with_latency_model(
            diamond(),
            UniformJitter::new(ms(2)),
            11,
        );
        net.send(NodeId(0), NodeId(3), 0u8);
        let mut seen = 0u8;
        net.run_traced(move |ctx, event| {
            seen += 1;
            if let NetEvent::Deliver(m) = event {
                if seen < 9 {
                    ctx.send(m.dst, NodeId(u32::from(seen) % 4), seen);
                }
            }
        })
    };
    let (first, told) = run();
    let (second, again) = run();
    assert_eq!(first, second);
    assert!(told.compare(&again).is_ok());
    assert_eq!(told.len(), 9);
}
