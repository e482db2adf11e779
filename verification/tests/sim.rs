use simulacra::{Duration, Simulation, Time};

#[derive(Debug, Clone, PartialEq)]
enum TestEvent {
    Ping(u32),
    Pong(u32),
}

#[test]
fn basic_simulation() {
    let mut sim = Simulation::new();
    sim.schedule(Time::from_millis(100), TestEvent::Ping(1));
    sim.schedule(Time::from_millis(200), TestEvent::Ping(2));

    let mut events = Vec::new();
    let stats = sim.run(|sim, event| {
        events.push((sim.now(), event));
    });

    assert_eq!(stats.events_processed, 2);
    assert_eq!(stats.final_time, Time::from_millis(200));
    assert_eq!(
        events,
        vec![
            (Time::from_millis(100), TestEvent::Ping(1)),
            (Time::from_millis(200), TestEvent::Ping(2)),
        ]
    );
}

#[test]
fn handler_can_schedule_events() {
    let mut sim = Simulation::new();
    sim.schedule(Time::from_millis(100), TestEvent::Ping(1));

    let mut events = Vec::new();
    let stats = sim.run(|sim, event| {
        events.push((sim.now(), event.clone()));
        if let TestEvent::Ping(n) = event {
            if n < 3 {
                sim.schedule_in(Duration::from_millis(50), TestEvent::Ping(n + 1));
            }
        }
    });

    assert_eq!(stats.events_processed, 3);
    assert_eq!(
        events,
        vec![
            (Time::from_millis(100), TestEvent::Ping(1)),
            (Time::from_millis(150), TestEvent::Ping(2)),
            (Time::from_millis(200), TestEvent::Ping(3)),
        ]
    );
}

#[test]
fn run_until_can_stop_early() {
    let mut sim = Simulation::new();
    for i in 1..=10 {
        sim.schedule(Time::from_millis(i * 100), TestEvent::Ping(i as u32));
    }

    let (stats, completed) = sim.run_until(|_sim, event| {
        if let TestEvent::Ping(n) = event {
            n < 5
        } else {
            true
        }
    });

    assert!(!completed);
    assert_eq!(stats.events_processed, 5);
    assert_eq!(stats.final_time, Time::from_millis(500));
}

#[test]
fn step_processes_one_event() {
    let mut sim: Simulation<TestEvent> = Simulation::new();
    sim.schedule(Time::from_millis(100), TestEvent::Ping(1));
    sim.schedule(Time::from_millis(200), TestEvent::Ping(2));

    let first = sim.step().unwrap();
    assert_eq!(first.event, TestEvent::Ping(1));
    assert_eq!(sim.now(), Time::from_millis(100));
    assert_eq!(sim.pending_events(), 1);

    let second = sim.step().unwrap();
    assert_eq!(second.event, TestEvent::Ping(2));
    assert_eq!(sim.now(), Time::from_millis(200));
    assert!(sim.is_empty());
}

#[test]
fn empty_simulation() {
    let sim: Simulation<TestEvent> = Simulation::new();
    let stats = sim.run(|_, _| {});

    assert_eq!(stats.events_processed, 0);
    assert_eq!(stats.final_time, Time::zero());
}

#[test]
fn deterministic_ordering() {
    // Run the same simulation twice and verify identical results
    fn run_sim() -> Vec<(Time, TestEvent)> {
        let mut sim = Simulation::new();

        // Schedule events in a specific order
        sim.schedule(Time::from_millis(100), TestEvent::Ping(1));
        sim.schedule(Time::from_millis(100), TestEvent::Pong(1));
        sim.schedule(Time::from_millis(50), TestEvent::Ping(0));
        sim.schedule(Time::from_millis(100), TestEvent::Ping(2));

        let mut events = Vec::new();
        sim.run(|sim, event| {
            events.push((sim.now(), event));
        });
        events
    }

    let run1 = run_sim();
    let run2 = run_sim();
    assert_eq!(run1, run2);

    // Verify the expected order
    assert_eq!(
        run1,
        vec![
            (Time::from_millis(50), TestEvent::Ping(0)),
            (Time::from_millis(100), TestEvent::Ping(1)),
            (Time::from_millis(100), TestEvent::Pong(1)),
            (Time::from_millis(100), TestEvent::Ping(2)),
        ]
    );
}
