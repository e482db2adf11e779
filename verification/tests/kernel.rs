use simulacra::net::fabric::{partition_key, pending_bytes_at, transmission_duration};
use simulacra::net::policy::policy_wants_drop;
use simulacra::rng::{exchange, shift};
use simulacra::{
    DropPolicy, Duration, EventQueue, FixedLatency, Fraction, LatencyModel, MessageId, NodeId, Probability, Scheduled, SimRng,
    Route, Simulation, SpikyLatency, Time, Topology, TopologyBuilder, TraceRecorder, UniformJitter,
};

fn fraction(p: f64) -> Fraction {
    Fraction::of_bits(p.to_bits()).unwrap()
}

#[test]
fn the_queue_hands_out_the_earliest_event_first() {
    let mut queue = EventQueue::new();
    for (i, t) in [30u64, 10, 20, 10, 30, 0].iter().enumerate() {
        assert_eq!(queue.schedule(Time::from_nanos(*t), i), i as u64);
    }
    let mut out = Vec::new();
    while let Some(s) = queue.pop() {
        out.push((s.time.as_nanos(), s.event));
    }
    assert_eq!(
        out,
        vec![(0, 5), (10, 1), (10, 3), (20, 2), (30, 0), (30, 4)]
    );
    assert_eq!(queue.total_scheduled(), 6);
    assert!(queue.is_empty());
    assert!(queue.pop().is_none());
}

#[test]
fn rewriting_a_queue_numbers_what_is_kept_anew() {
    let mut queue = EventQueue::new();
    queue.schedule(Time::from_nanos(20), 'b');
    queue.schedule(Time::from_nanos(10), 'a');
    queue.schedule(Time::from_nanos(30), 'c');
    queue.rewrite(|s| {
        if s.event == 'b' {
            None
        } else {
            Some((Time::from_nanos(40 - s.time.as_nanos()), s.event))
        }
    });
    assert_eq!(queue.len(), 2);
    assert_eq!(queue.total_scheduled(), 5);
    let first = queue.pop().unwrap();
    assert_eq!((first.time.as_nanos(), first.sequence, first.event), (10, 4, 'c'));
    let second = queue.pop().unwrap();
    assert_eq!((second.time.as_nanos(), second.sequence, second.event), (30, 3, 'a'));
}

#[test]
fn rewriting_the_queue_of_a_simulation_keeps_its_clock() {
    let mut sim = Simulation::new();
    sim.schedule(Time::from_nanos(5), 1);
    sim.schedule(Time::from_nanos(7), 2);
    sim.step();
    sim.rewrite_queue(|s| Some((s.time, s.event + 10)));
    assert_eq!(sim.now(), Time::from_nanos(5));
    let next = sim.step().unwrap();
    assert_eq!((next.time.as_nanos(), next.event), (7, 12));
    assert_eq!(sim.events_processed(), 2);
}

#[test]
fn clearing_keeps_the_numbering() {
    let mut queue = EventQueue::with_capacity(4);
    queue.schedule(Time::from_nanos(1), ());
    queue.clear();
    assert!(queue.peek().is_none());
    assert_eq!(queue.schedule(Time::from_nanos(1), ()), 1);
}

#[test]
fn the_clock_goes_forward_while_nothing_is_overdue() {
    let mut sim = Simulation::new();
    for i in 0..20u64 {
        sim.schedule(Time::from_nanos((i * 7919) % 101), i);
    }
    let mut last = Time::zero();
    sim.run(|sim, n| {
        assert!(sim.now() >= last);
        last = sim.now();
        if n < 20 && n % 3 == 0 {
            sim.schedule_in(Duration::from_nanos(n), n + 100);
        }
    });
}

#[test]
fn equal_runs_have_equal_figures() {
    let run = |extra: u64| {
        let mut sim = Simulation::new();
        sim.schedule(Time::from_nanos(3), 0u64);
        let mut seen = Vec::new();
        let stats = sim.run(|sim, n| {
            seen.push((sim.now(), n));
            if n < 5 + extra {
                sim.schedule_in(Duration::from_nanos(n + 1), n + 1);
            }
        });
        (stats, seen)
    };
    assert_eq!(run(0), run(0));
    assert_ne!(run(0), run(1));
    assert_eq!(run(0).0.events_processed, 6);
    assert_eq!(run(0).0.final_time, Time::from_nanos(18));
}

#[test]
fn a_stopped_run_tells_that_it_was_stopped() {
    let mut sim = Simulation::new();
    sim.schedule(Time::from_nanos(1), 1);
    sim.schedule(Time::from_nanos(2), 2);
    let (stats, finished) = sim.run_until(|_, n| n != 1);
    assert!(!finished);
    assert_eq!(stats.events_processed, 1);
    assert_eq!(stats.events_scheduled, 2);
}

#[test]
fn times_are_told_in_the_largest_unit_they_reach() {
    assert_eq!(Time::from_nanos(999).to_string(), "999ns");
    assert_eq!(Time::from_nanos(1_500).to_string(), "1.500µs");
    assert_eq!(Time::from_nanos(2_000_001).to_string(), "2.000001ms");
    assert_eq!(Time::from_nanos(3_000_000_002).to_string(), "3.000000002s");
    assert_eq!(Duration::from_nanos(0).to_string(), "0ns");
    assert_eq!(Duration::from_millis(12).to_string(), "12.000000ms");
    assert_eq!(NodeId(7).to_string(), "N7");
    assert_eq!(MessageId(9).to_string(), "M9");
}

#[test]
fn time_saturates_at_its_ends() {
    assert_eq!(Time::from_secs(u64::MAX), Time(u64::MAX));
    assert_eq!(Time(5).saturating_sub(Duration(9)), Time(0));
    assert_eq!(Time(u64::MAX).saturating_add(Duration(1)), Time(u64::MAX));
    assert_eq!(Time(3).saturating_duration_since(Time(8)), Duration(0));
    assert_eq!(Duration(7).saturating_mul(u64::MAX), Duration(u64::MAX));
    assert_eq!(Time(4).later(Time(9)), Time(9));
    assert_eq!(Time(9).later(Time(4)), Time(9));
}

#[test]
fn probabilities_compare_bits_with_parts() {
    assert!(!Probability::Never.happens(0));
    assert!(Probability::Always.happens(u64::MAX));
    assert!(Probability::Parts(10).happens(9));
    assert!(!Probability::Parts(10).happens(10));
}

#[test]
fn certain_events_take_no_draw() {
    let mut a = SimRng::new(3);
    let mut b = SimRng::new(3);
    assert!(a.bool(Probability::Always));
    assert_eq!(a.next_bits(), b.next_bits());
    assert!(!a.bool(Probability::Never));
    b.next_bits();
    assert_eq!(a.next_bits(), b.next_bits());
}

#[test]
fn a_generator_goes_on_where_it_stood() {
    let mut a = SimRng::new(11);
    let mut b = a.clone();
    let drawn: Vec<u64> = (0..8).map(|_| a.u64_range(5, 50)).collect();
    assert!(drawn.iter().all(|n| (5..50).contains(n)));
    assert!(drawn.iter().any(|n| *n != drawn[0]));
    assert_eq!(drawn, (0..8).map(|_| b.u64_range(5, 50)).collect::<Vec<_>>());
    assert_eq!(a.usize(1000), b.usize(1000));
    assert_eq!(a.fraction(), b.fraction());
    assert!(a.fraction() < 1 << 53);
    assert_eq!(a.jitter(Duration(0)), 0);
}

#[test]
fn a_key_and_a_seed_are_different_things() {
    let mut by_key = SimRng::from_seed([0; 32]);
    let mut by_seed = SimRng::new(0);
    assert_ne!(by_key.next_bits(), by_seed.next_bits());
    let mut again = SimRng::from_seed([0; 32]);
    again.next_bits();
    assert_eq!(by_key.next_bits(), again.next_bits());
    assert_eq!(SimRng::default().next_bits(), SimRng::new(0).next_bits());
}

#[test]
fn a_fork_leaves_its_parent_on_its_own_way() {
    let mut parent = SimRng::new(5);
    let mut child = parent.fork();
    let mut same = SimRng::new(5);
    let mut twin = same.fork();
    child.next_bits();
    child.next_bits();
    assert_eq!(parent.next_bits(), same.next_bits());
    twin.next_bits();
    twin.next_bits();
    assert_eq!(child.next_bits(), twin.next_bits());
}

#[test]
fn shuffling_keeps_every_item() {
    let mut items: Vec<u32> = (0..50).collect();
    SimRng::new(8).shuffle(&mut items);
    assert_ne!(items, (0..50).collect::<Vec<_>>());
    items.sort_unstable();
    assert_eq!(items, (0..50).collect::<Vec<_>>());
    let mut none: Vec<u32> = Vec::new();
    SimRng::new(8).shuffle(&mut none);
    assert!(none.is_empty());
}

#[test]
fn exchanging_follows_the_picks() {
    let mut items = ['a', 'b', 'c', 'd'];
    exchange(&mut items, &vec![0, 1, 0]);
    assert_eq!(items, ['c', 'd', 'b', 'a']);
}

#[test]
fn shifting_stops_at_zero() {
    assert_eq!(shift(Duration(100), 25), Duration(125));
    assert_eq!(shift(Duration(100), -25), Duration(75));
    assert_eq!(shift(Duration(100), -250), Duration(0));
    assert_eq!(shift(Duration(100), i64::MIN), Duration(0));
}

#[test]
fn spikes_stay_within_their_limit() {
    let mut rng = SimRng::new(1);
    let mut model = SpikyLatency::new(
        UniformJitter::new(Duration(10)),
        Probability::Parts(1 << 63),
        Duration(1000),
    );
    let mut spiked = 0;
    for _ in 0..500 {
        let d = model.compute(Duration(100), &mut rng).as_nanos();
        assert!((90..=1110).contains(&d));
        if d > 110 {
            spiked += 1;
        }
    }
    assert!(spiked > 100 && spiked < 400);
}

#[test]
fn models_foresee_what_computing_does_to_the_generator() {
    let mut rng = SimRng::new(12);
    let mut model = SpikyLatency::new(
        UniformJitter::new(Duration(10)),
        Probability::Parts(1 << 63),
        Duration(1000),
    );
    for _ in 0..50 {
        let mut after = model.foresee(Duration(100), &rng).unwrap();
        model.compute(Duration(100), &mut rng);
        assert_eq!(after.next_bits(), rng.clone().next_bits());
    }
}

#[test]
fn the_longest_spike_is_refused_only_where_it_happens() {
    let mut rng = SimRng::new(3);
    let mut model = SpikyLatency::new(FixedLatency, Probability::Parts(1 << 62), Duration(u64::MAX));
    let (mut passed, mut refused) = (0, 0);
    for _ in 0..200 {
        if model.foresee(Duration(7), &rng).is_some() {
            assert_eq!(model.compute(Duration(7), &mut rng), Duration(7));
            passed += 1;
        } else {
            assert!(rng.bool(Probability::Parts(1 << 62)));
            refused += 1;
        }
    }
    assert!(passed > 100 && refused > 20);
    let always = SpikyLatency::new(FixedLatency, Probability::Always, Duration(u64::MAX));
    assert!(always.foresee(Duration(7), &rng).is_none());
}

#[test]
fn jitter_that_does_not_fit_is_refused_and_not_drawn() {
    let limit = Duration(i64::MAX as u64);
    let model = UniformJitter::new(Duration(1_000));
    let mut refused = 0;
    let mut rng = SimRng::new(8);
    for _ in 0..100 {
        let before = rng.clone();
        assert_eq!(
            model.foresee(limit, &rng).is_some(),
            rng.can_jitter(limit, Duration(1_000))
        );
        match rng.try_duration_with_jitter(limit, Duration(1_000)) {
            Some(d) => {
                assert!(d <= limit && limit.as_nanos() - d.as_nanos() <= 1_000);
            }
            None => {
                refused += 1;
                // the draw is still to come, and it is an offset upwards
                assert!(rng.jitter(Duration(1_000)) > 0);
                let mut again = before;
                assert!(again.jitter(Duration(1_000)) > 0);
            }
        }
    }
    assert!(refused > 20 && refused < 80);
    assert!(!rng.can_jitter(Duration(limit.0 + 1), Duration(0)));
    assert!(!rng.can_jitter(Duration(0), Duration(limit.0 + 1)));
    assert!(rng.can_jitter(limit, Duration(0)));
    assert_eq!(rng.try_duration_with_jitter(limit, Duration(0)), Some(limit));
}

#[test]
fn scheduled_events_are_ordered_for_processing() {
    let early = Scheduled::new(Time(1), 9, "a");
    let late = Scheduled::new(Time(2), 3, "b");
    let tied = Scheduled::new(Time(2), 4, "c");
    assert!(early > late && late > tied && early > tied);
    assert!(late == Scheduled::new(Time(2), 3, "z") && late != tied);
    assert_eq!(
        tied.partial_cmp(&Scheduled::new(Time(2), 4, "d")),
        Some(std::cmp::Ordering::Equal)
    );
}

#[test]
fn models_without_spikes_take_no_draw_for_them() {
    let mut a = SimRng::new(2);
    let mut b = SimRng::new(2);
    let mut never = SpikyLatency::new(
        UniformJitter::new(Duration(50)),
        Probability::Never,
        Duration(1000),
    );
    let mut plain = UniformJitter::new(Duration(50));
    for _ in 0..20 {
        assert_eq!(
            never.compute(Duration(500), &mut a),
            plain.compute(Duration(500), &mut b)
        );
    }
}

#[test]
fn transmission_times_are_rounded_up() {
    assert_eq!(transmission_duration(3, 1), Duration(333_333_334));
    assert_eq!(transmission_duration(1_000_000_000, 5), Duration(5));
    assert_eq!(transmission_duration(0, 5), Duration(0));
    assert_eq!(transmission_duration(5, 0), Duration(0));
}

#[test]
fn transmission_times_are_exact_until_they_no_longer_fit() {
    assert_eq!(
        transmission_duration(1_000_000_000, 20_000_000_000),
        Duration::from_secs(20)
    );
    assert_eq!(transmission_duration(u64::MAX, u64::MAX), Duration(1_000_000_000));
    assert_eq!(transmission_duration(1, u64::MAX), Duration(u64::MAX));
    assert_eq!(
        transmission_duration(1, 18_446_744_073),
        Duration(18_446_744_073_000_000_000)
    );
    assert_eq!(transmission_duration(1, 18_446_744_074), Duration(u64::MAX));
}

#[test]
fn pending_bytes_are_rounded_down() {
    assert_eq!(pending_bytes_at(3, Time(1_000_000_000), Time(500_000_000)), 1);
    assert_eq!(pending_bytes_at(3, Time(5), Time(5)), 0);
    assert_eq!(pending_bytes_at(0, Time(9), Time(5)), 0);
    assert_eq!(pending_bytes_at(u64::MAX, Time(u64::MAX), Time(0)), u64::MAX);
}

#[test]
fn partitions_have_no_direction() {
    assert_eq!(partition_key(NodeId(4), NodeId(2)), (NodeId(2), NodeId(4)));
    assert_eq!(partition_key(NodeId(2), NodeId(4)), (NodeId(2), NodeId(4)));
}

#[test]
fn the_ramp_of_early_detection_is_linear() {
    let policy = DropPolicy::red(100, 200, 400, fraction(1.0));
    assert_eq!(policy.drop_chance(99), Probability::Never);
    assert_eq!(policy.drop_chance(100), Probability::Parts(0));
    assert_eq!(policy.drop_chance(150), Probability::Parts(1 << 63));
    assert_eq!(policy.drop_chance(175), Probability::Parts(3 << 62));
    assert_eq!(policy.drop_chance(200), Probability::Always);
    assert_eq!(DropPolicy::TailDrop.drop_chance(u64::MAX), Probability::Never);
    let half = DropPolicy::red(0, 4, 4, fraction(0.5));
    assert_eq!(half.drop_chance(1), Probability::Parts(1 << 61));
    let step = DropPolicy::red(5, 5, 5, fraction(1.0));
    assert_eq!(step.drop_chance(5), Probability::Always);
    assert_eq!(step.drop_chance(4), Probability::Never);
}

#[test]
fn the_ramp_is_that_of_floating_point_numbers() {
    let mut rng = SimRng::new(77);
    let scale = 18_446_744_073_709_551_616.0f64;
    let (mut certain, mut none) = (0, 0);
    for round in 0..40_000u64 {
        let shift = round % 64;
        let max = (rng.next_bits() >> shift).max(2);
        let min = rng.next_bits() % max;
        let pending = min + rng.next_bits() % (max - min);
        let pending = if round % 5 == 0 { max - 1 } else { pending };
        let max_prob = match round % 7 {
            0 => 1.0,
            1 => 0.1,
            2 => 1e-5 / (1.0 + (round as f64)),
            3 => f64::from_bits(rng.next_bits() % (1023 << 52) + 1),
            _ => (rng.next_bits() >> 11) as f64 / 9_007_199_254_740_992.0 + f64::MIN_POSITIVE,
        };
        let prob = max_prob * ((pending - min) as f64 / (max - min) as f64);
        let expected = if prob == 1.0 {
            certain += 1;
            Probability::Always
        } else {
            none += u32::from(prob * scale < 1.0);
            Probability::Parts((prob * scale) as u64)
        };
        let policy = DropPolicy::red(min, max, max, fraction(max_prob));
        assert_eq!(
            policy.drop_chance(pending),
            expected,
            "{min} {pending} {max} {max_prob:e}"
        );
    }
    assert!(certain > 0 && none > 100);
}

#[test]
fn fractions_are_numbers_above_zero_and_not_above_one() {
    assert_eq!(Fraction::new(6, 4), Fraction::new(3, 3));
    assert_eq!(Fraction::new(6, 4), Some(fraction(0.375)));
    assert_ne!(Fraction::new(6, 4), Fraction::new(6, 5));
    assert_eq!(Fraction::new(1 << 63, 63), Some(fraction(1.0)));
    assert_eq!(Fraction::new((1 << 53) - 1, 53), Some(fraction(1.0 - f64::EPSILON / 2.0)));
    assert_eq!(Fraction::new(0, 3), None);
    assert_eq!(Fraction::new(9, 3), None);
    assert_eq!(Fraction::new((1 << 53) + 1, 60), None);
    assert!(Fraction::new(1, u32::MAX).is_some());
    for p in [0.0, -0.0, -0.5, 1.0 + f64::EPSILON, 2.0, f64::INFINITY, f64::NAN] {
        assert_eq!(Fraction::of_bits(p.to_bits()), None);
    }
    assert_eq!(Fraction::of_bits(1), Fraction::new(1, 1074));
    assert_eq!(Fraction::of_bits(0.25f64.to_bits()), Fraction::new(1, 2));
    let rare = DropPolicy::red(0, 10, 10, Fraction::new(1, u32::MAX).unwrap());
    assert_eq!(rare.drop_chance(9), Probability::Parts(0));
}

#[test]
fn early_detection_draws_only_on_the_ramp() {
    let policy = DropPolicy::red(100, 200, 400, fraction(1.0));
    let mut a = SimRng::new(4);
    let mut b = SimRng::new(4);
    assert!(!policy_wants_drop(policy, 99, &mut a));
    assert!(policy_wants_drop(policy, 200, &mut a));
    assert_eq!(a.next_bits(), b.next_bits());
    policy_wants_drop(policy, 150, &mut a);
    b.next_bits();
    assert_eq!(a.next_bits(), b.next_bits());
    assert!(!policy_wants_drop(policy, 100, &mut a));
    b.next_bits();
    assert_eq!(a.next_bits(), b.next_bits());
}

#[test]
fn a_path_beyond_the_longest_duration_is_still_a_path() {
    let mut pair = Topology::new(2);
    pair.add_link(NodeId(0), NodeId(1), Duration::max_value());
    assert_eq!(
        pair.route(NodeId(0), NodeId(1)),
        Some(Route {
            next_hop: NodeId(1),
            total_latency: Duration::max_value(),
            hop_count: 1,
        })
    );
    assert_eq!(pair.route(NodeId(1), NodeId(0)), None);
    let mut line = Topology::new(4);
    for (a, b) in [(0, 1), (1, 3), (0, 2), (2, 3)] {
        line.add_link(NodeId(a), NodeId(b), Duration::max_value());
    }
    line.add_link(NodeId(0), NodeId(3), Duration(u64::MAX - 1));
    let direct = line.route(NodeId(0), NodeId(3)).unwrap();
    assert_eq!(direct.total_latency, Duration(u64::MAX - 1));
    line.fail_link_directed(NodeId(0), NodeId(3));
    let detour = line.route(NodeId(0), NodeId(3)).unwrap();
    assert_eq!(detour.total_latency, Duration::max_value());
    assert_eq!(detour.hop_count, 2);
}

#[test]
fn a_cloned_topology_keeps_its_failures() {
    let mut a = TopologyBuilder::new(3).ring(Duration(10)).build();
    a.fail_link(NodeId(0), NodeId(1));
    a.fail_node(NodeId(2));
    let mut b = a.clone();
    assert!(b.is_link_failed(NodeId(0), NodeId(1)));
    assert!(b.is_node_failed(NodeId(2)));
    assert!(b.route(NodeId(0), NodeId(1)).is_none());
    b.heal_node(NodeId(2));
    assert_eq!(b.route(NodeId(0), NodeId(1)).unwrap().hop_count, 2);
    assert!(a.route(NodeId(0), NodeId(1)).is_none());
}

#[test]
fn the_ends_of_time() {
    assert_eq!(Time::max_value(), Time(u64::MAX));
    assert_eq!(Duration::max_value(), Duration(u64::MAX));
    assert!(Duration::zero().is_zero() && !Duration(1).is_zero());
    assert_eq!(Time::max_value() - Time::zero(), Duration::max_value());
    assert_eq!(Time(1).saturating_sub(Duration::max_value()), Time::zero());
}

#[test]
fn a_recorder_can_keep_a_copy() {
    let mut recorder = TraceRecorder::with_capacity(3, 1);
    let event = String::from("kept");
    assert!(recorder.is_empty());
    recorder.record_clone(Time(7), &event);
    assert_eq!(recorder.len(), 1);
    let trace = recorder.finish();
    assert_eq!(trace.get(0).unwrap().event, event);
    assert_eq!(trace.get(0).unwrap().time(), Time(7));
    assert_eq!(trace.final_time(), Time(7));
}

#[test]
fn routes_computed_ahead_are_the_same() {
    let mut ahead = TopologyBuilder::new(5)
        .ring(Duration(7))
        .directed_link(0u32, 3u32, Duration(1))
        .build();
    let mut asked = ahead.clone();
    ahead.precompute_routes();
    for a in asked.nodes() {
        for b in asked.nodes() {
            assert_eq!(ahead.route(a, b), asked.route(a, b));
        }
    }
    ahead.clear_route_cache();
    assert_eq!(ahead.route(NodeId(0), NodeId(3)).unwrap().total_latency, Duration(1));
}

#[test]
fn a_limited_link_may_have_one_direction() {
    let topo = TopologyBuilder::new(2)
        .directed_link_with_capacity_and_buffer(0u32, 1u32, Duration(5), 1_000, 64)
        .build();
    let link = topo.link_between(NodeId(0), NodeId(1)).unwrap();
    assert_eq!(link.latency, Duration(5));
    assert_eq!(link.bandwidth, Some(1_000));
    assert_eq!(link.buffer_bytes, Some(64));
    assert_eq!(link.drop_policy, DropPolicy::TailDrop);
    assert!(topo.link_between(NodeId(1), NodeId(0)).is_none());
}
