use std::cell::RefCell;
use std::future::Future;
use std::pin::Pin;
use std::rc::Rc;
use std::task::{Context, Poll, Waker};

use serde_json::Value;
use simulacra::task::{Polled, TaskId};
use simulacra::trace::{TraceEnvelopeOwned, TraceLoadError};
use simulacra::{
    Duration, Either, Envelope, FailureAction, NodeId, TaskSimStats, TaskTraceDropReason,
    TaskTraceEvent, Time, Topology, TopologyBuilder, Trace, TraceEvent,
};

fn trace_value<E>(trace: &Trace<E>, tell: fn(&E) -> Value) -> Value {
    let envelope = trace.envelope();
    let mut events = Vec::new();
    for e in envelope.events {
        let mut object = serde_json::Map::new();
        object.insert("time_ns".to_string(), Value::from(e.time_ns));
        object.insert("sequence".to_string(), Value::from(e.sequence));
        object.insert("event".to_string(), tell(&e.event));
        events.push(Value::Object(object));
    }
    let mut object = serde_json::Map::new();
    object.insert("format".to_string(), Value::from(envelope.format));
    object.insert(
        "schema_version".to_string(),
        Value::from(envelope.schema_version),
    );
    object.insert("seed".to_string(), Value::from(envelope.seed));
    object.insert("events".to_string(), Value::Array(events));
    object.insert(
        "final_time_ns".to_string(),
        Value::from(envelope.final_time_ns),
    );
    Value::Object(object)
}

fn trace_of<E>(value: &Value, hear: fn(&Value) -> E) -> Result<Trace<E>, TraceLoadError> {
    let events = value["events"]
        .as_array()
        .unwrap()
        .iter()
        .map(|e| {
            TraceEvent::new(
                Time::from_nanos(e["time_ns"].as_u64().unwrap()),
                e["sequence"].as_u64().unwrap(),
                hear(&e["event"]),
            )
        })
        .collect();
    Trace::from_envelope(TraceEnvelopeOwned {
        format: value["format"].as_str().unwrap_or("").to_string(),
        schema_version: value["schema_version"].as_u64().unwrap_or(0) as u32,
        seed: value["seed"].as_u64().unwrap(),
        events,
        final_time_ns: value["final_time_ns"].as_u64().unwrap(),
    })
}

fn tagged(tag: &str, fields: Vec<(&str, Value)>) -> Value {
    let mut inner = serde_json::Map::new();
    for (name, value) in fields {
        inner.insert(name.to_string(), value);
    }
    let mut outer = serde_json::Map::new();
    outer.insert(tag.to_string(), Value::Object(inner));
    Value::Object(outer)
}

fn told(event: &TaskTraceEvent) -> Value {
    match event {
        TaskTraceEvent::Delivered { src, dst } => tagged(
            "Delivered",
            vec![("src", Value::from(*src)), ("dst", Value::from(*dst))],
        ),
        TaskTraceEvent::Dropped { src, dst, reason } => tagged(
            "Dropped",
            vec![
                ("src", Value::from(*src)),
                ("dst", Value::from(*dst)),
                (
                    "reason",
                    Value::from(match reason {
                        TaskTraceDropReason::NoRoute => "NoRoute",
                        TaskTraceDropReason::Partitioned => "Partitioned",
                    }),
                ),
            ],
        ),
    }
}

fn heard(value: &Value) -> TaskTraceEvent {
    let delivered = &value["Delivered"];
    let dropped = &value["Dropped"];
    if delivered.is_object() {
        TaskTraceEvent::Delivered {
            src: delivered["src"].as_u64().unwrap() as u32,
            dst: delivered["dst"].as_u64().unwrap() as u32,
        }
    } else {
        TaskTraceEvent::Dropped {
            src: dropped["src"].as_u64().unwrap() as u32,
            dst: dropped["dst"].as_u64().unwrap() as u32,
            reason: match dropped["reason"].as_str().unwrap() {
                "NoRoute" => TaskTraceDropReason::NoRoute,
                _ => TaskTraceDropReason::Partitioned,
            },
        }
    }
}

fn to_json(trace: &Trace<TaskTraceEvent>) -> String {
    serde_json::to_string(&trace_value(trace, told)).unwrap()
}

fn from_json(json: &str) -> Result<Trace<TaskTraceEvent>, TraceLoadError> {
    let value: Value = serde_json::from_str(json).unwrap();
    trace_of(&value, heard)
}

type Shared<M> = Rc<RefCell<simulacra::TaskSim<M>>>;

fn outcome<T>(polled: Polled<T>) -> Poll<T> {
    match polled {
        Polled::Ready(value) => Poll::Ready(value),
        Polled::Pending => Poll::Pending,
        Polled::Overflow => panic!("out of range"),
    }
}

struct CancellationToken<M> {
    shared: Shared<M>,
    token: simulacra::CancellationToken,
}

impl<M> CancellationToken<M> {
    fn is_cancelled(&self) -> bool {
        self.token.is_cancelled(&self.shared.borrow())
    }

    fn cancel(&self) {
        self.token.cancel(&mut self.shared.borrow_mut());
    }
}

struct NodeContext<M> {
    shared: Shared<M>,
    ctx: simulacra::NodeContext,
}

impl<M> NodeContext<M> {
    fn id(&self) -> NodeId {
        self.ctx.id()
    }

    fn now(&self) -> Time {
        self.ctx.now(&self.shared.borrow())
    }

    fn shutdown_token(&self) -> CancellationToken<M> {
        CancellationToken {
            shared: Rc::clone(&self.shared),
            token: self.ctx.shutdown_token(),
        }
    }

    fn partition(&self, a: NodeId, b: NodeId) {
        self.ctx.partition(&mut self.shared.borrow_mut(), a, b);
    }

    fn fail_link(&self, a: NodeId, b: NodeId) {
        self.ctx.fail_link(&mut self.shared.borrow_mut(), a, b);
    }

    fn heal_link(&self, a: NodeId, b: NodeId) {
        self.ctx.heal_link(&mut self.shared.borrow_mut(), a, b);
    }

    fn sleep(&self, duration: Duration) -> Sleep<M> {
        Sleep {
            shared: Rc::clone(&self.shared),
            sleep: self.ctx.sleep(&self.shared.borrow(), duration),
        }
    }

    fn recv(&self) -> Recv<M> {
        Recv {
            shared: Rc::clone(&self.shared),
            recv: self.ctx.recv(),
        }
    }

    fn recv_timeout(&self, timeout: Duration) -> RecvTimeout<M> {
        RecvTimeout {
            shared: Rc::clone(&self.shared),
            recv: self.ctx.recv_timeout(&self.shared.borrow(), timeout),
        }
    }

    fn send(&self, dst: NodeId, payload: M) -> SendFut<M> {
        SendFut {
            shared: Rc::clone(&self.shared),
            send: self.ctx.send(dst, payload),
        }
    }
}

struct Sleep<M> {
    shared: Shared<M>,
    sleep: simulacra::task::Sleep,
}

impl<M> Future for Sleep<M> {
    type Output = ();

    fn poll(self: Pin<&mut Self>, _cx: &mut Context<'_>) -> Poll<()> {
        let this = self.get_mut();
        outcome(this.sleep.poll(&mut this.shared.borrow_mut()))
    }
}

struct Recv<M> {
    shared: Shared<M>,
    recv: simulacra::task::Recv,
}

impl<M> Future for Recv<M> {
    type Output = Envelope<M>;

    fn poll(self: Pin<&mut Self>, _cx: &mut Context<'_>) -> Poll<Envelope<M>> {
        let this = self.get_mut();
        outcome(this.recv.poll(&mut this.shared.borrow_mut()))
    }
}

struct RecvTimeout<M> {
    shared: Shared<M>,
    recv: simulacra::task::RecvTimeout,
}

impl<M> Future for RecvTimeout<M> {
    type Output = Option<Envelope<M>>;

    fn poll(self: Pin<&mut Self>, _cx: &mut Context<'_>) -> Poll<Option<Envelope<M>>> {
        let this = self.get_mut();
        outcome(this.recv.poll(&mut this.shared.borrow_mut()))
    }
}

struct SendFut<M> {
    shared: Shared<M>,
    send: simulacra::task::SendFut<M>,
}

impl<M: Unpin> Future for SendFut<M> {
    type Output = ();

    fn poll(self: Pin<&mut Self>, _cx: &mut Context<'_>) -> Poll<()> {
        let this = self.get_mut();
        outcome(this.send.poll(&mut this.shared.borrow_mut()))
    }
}

struct Select2<A, B> {
    pair: simulacra::Select2<A, B>,
}

fn select2<A: Future + Unpin, B: Future + Unpin>(a: A, b: B) -> Select2<A, B> {
    Select2 {
        pair: simulacra::select2(a, b),
    }
}

fn progress<T>(poll: Poll<T>) -> Polled<T> {
    match poll {
        Poll::Ready(value) => Polled::Ready(value),
        Poll::Pending => Polled::Pending,
    }
}

impl<A: Future + Unpin, B: Future + Unpin> Future for Select2<A, B> {
    type Output = Either<A::Output, B::Output>;

    fn poll(self: Pin<&mut Self>, _cx: &mut Context<'_>) -> Poll<Self::Output> {
        outcome(self.get_mut().pair.poll_with(
            |a| progress(Pin::new(a).poll(&mut Context::from_waker(Waker::noop()))),
            |b| progress(Pin::new(b).poll(&mut Context::from_waker(Waker::noop()))),
        ))
    }
}

/// The tasks of a simulation, and the kernel as they share it.
struct Tasks<M> {
    shared: Shared<M>,
    tasks: Vec<Pin<Box<dyn Future<Output = ()>>>>,
}

impl<M> Tasks<M> {
    fn new<F, Fut>(contexts: Vec<simulacra::NodeContext>, node_fn: F) -> Tasks<M>
    where
        F: Fn(NodeContext<M>) -> Fut,
        Fut: Future<Output = ()> + 'static,
    {
        let nowhere = TopologyBuilder::new(0).build();
        let shared = Rc::new(RefCell::new(
            simulacra::TaskSimBuilder::new(nowhere, 0).build(),
        ));
        let mut tasks: Vec<Pin<Box<dyn Future<Output = ()>>>> = Vec::new();
        for ctx in contexts {
            tasks.push(Box::pin(node_fn(NodeContext {
                shared: Rc::clone(&shared),
                ctx,
            })));
        }
        Tasks { shared, tasks }
    }

    fn exchange(&self, sim: &mut simulacra::TaskSim<M>) {
        std::mem::swap(&mut *self.shared.borrow_mut(), sim);
    }

    fn poll(&mut self, sim: &mut simulacra::TaskSim<M>, id: TaskId) -> bool {
        self.exchange(sim);
        let mut cx = Context::from_waker(Waker::noop());
        let ready = self.tasks[id.0 as usize].as_mut().poll(&mut cx).is_ready();
        self.exchange(sim);
        ready
    }
}

struct TaskSim<M> {
    tasks: Tasks<M>,
}

impl<M> TaskSim<M> {
    fn new<F, Fut>(mut sim: simulacra::TaskSim<M>, node_fn: F) -> TaskSim<M>
    where
        F: Fn(NodeContext<M>) -> Fut,
        Fut: Future<Output = ()> + 'static,
    {
        let tasks = Tasks::new(sim.contexts(), node_fn);
        tasks.exchange(&mut sim);
        TaskSim { tasks }
    }

    fn detach(self) -> (simulacra::TaskSim<M>, Tasks<M>) {
        let mut sim = simulacra::TaskSimBuilder::new(TopologyBuilder::new(0).build(), 0).build();
        self.tasks.exchange(&mut sim);
        (sim, self.tasks)
    }

    fn inject(&mut self, src: NodeId, dst: NodeId, payload: M) {
        self.tasks.shared.borrow_mut().inject(src, dst, payload);
    }

    fn schedule_failure(&mut self, time: Time, action: FailureAction) {
        self.tasks.shared.borrow_mut().schedule_failure(time, action);
    }

    fn partition(&mut self, a: NodeId, b: NodeId) {
        self.tasks.shared.borrow_mut().partition(a, b);
    }

    fn fail_link(&mut self, a: NodeId, b: NodeId) {
        self.tasks.shared.borrow_mut().fail_link(a, b);
    }

    fn fail_node(&mut self, node: NodeId) {
        self.tasks.shared.borrow_mut().fail_node(node);
    }

    fn is_partitioned(&self, a: NodeId, b: NodeId) -> bool {
        self.tasks.shared.borrow().is_partitioned(a, b)
    }

    fn shutdown_token(&self) -> CancellationToken<M> {
        CancellationToken {
            shared: Rc::clone(&self.tasks.shared),
            token: self.tasks.shared.borrow().shutdown_token(),
        }
    }

    fn run(self) -> TaskSimStats {
        let (sim, mut tasks) = self.detach();
        sim.run(|sim, id| tasks.poll(sim, id))
    }

    fn run_traced(self) -> (TaskSimStats, Trace<TaskTraceEvent>) {
        let (sim, mut tasks) = self.detach();
        sim.run_traced(|sim, id| tasks.poll(sim, id))
    }
}

struct TaskSimBuilder<M> {
    builder: simulacra::TaskSimBuilder<M>,
}

impl<M> TaskSimBuilder<M> {
    fn new(topology: Topology, seed: u64) -> TaskSimBuilder<M> {
        TaskSimBuilder {
            builder: simulacra::TaskSimBuilder::new(topology, seed),
        }
    }

    fn drop_in_flight_on_failure(self) -> TaskSimBuilder<M> {
        TaskSimBuilder {
            builder: self.builder.drop_in_flight_on_failure(),
        }
    }

    fn with_trace(self) -> TaskSimBuilder<M> {
        TaskSimBuilder {
            builder: self.builder.with_trace(),
        }
    }

    fn build<F, Fut>(self, node_fn: F) -> TaskSim<M>
    where
        F: Fn(NodeContext<M>) -> Fut,
        Fut: Future<Output = ()> + 'static,
    {
        TaskSim::new(self.builder.build(), node_fn)
    }
}

struct Scenario<M> {
    scenario: simulacra::Scenario<M>,
}

impl<M> Scenario<M> {
    fn new(topology: Topology, seed: u64) -> Scenario<M> {
        Scenario {
            scenario: simulacra::Scenario::new(topology, seed),
        }
    }

    fn fail_at(self, time: Time, action: FailureAction) -> Scenario<M> {
        Scenario {
            scenario: self.scenario.fail_at(time, action),
        }
    }

    fn inject(self, src: NodeId, dst: NodeId, payload: M) -> Scenario<M> {
        Scenario {
            scenario: self.scenario.inject(src, dst, payload),
        }
    }

    fn run_for(self, duration: Duration) -> Scenario<M> {
        Scenario {
            scenario: self.scenario.run_for(duration),
        }
    }

    fn run<F, Fut>(self, node_fn: F) -> TaskSimStats
    where
        F: Fn(NodeContext<M>) -> Fut,
        Fut: Future<Output = ()> + 'static,
    {
        let mut tasks = Tasks::new(self.scenario.contexts(), node_fn);
        self.scenario.run(|sim, id| tasks.poll(sim, id))
    }
}

#[test]
fn basic_sleep() {
    let topology = TopologyBuilder::new(1).build();

    let sim = TaskSimBuilder::<()>::new(topology, 42).build(|ctx| async move {
        ctx.sleep(Duration::from_millis(100)).await;
    });

    let stats = sim.run();
    assert_eq!(stats.final_time, Time::from_millis(100));
}

#[test]
fn multiple_sleeps() {
    let topology = TopologyBuilder::new(1).build();

    let sim = TaskSimBuilder::<()>::new(topology, 42).build(|ctx| async move {
        ctx.sleep(Duration::from_millis(50)).await;
        ctx.sleep(Duration::from_millis(50)).await;
        ctx.sleep(Duration::from_millis(50)).await;
    });

    let stats = sim.run();
    assert_eq!(stats.final_time, Time::from_millis(150));
}

#[test]
fn send_recv() {
    let topology = TopologyBuilder::new(2)
        .link(0u32, 1u32, Duration::from_millis(10))
        .build();

    let sim = TaskSimBuilder::<String>::new(topology, 42).build(|ctx| async move {
        match ctx.id().as_u32() {
            0 => {
                ctx.send(NodeId(1), "hello".to_string()).await;
            }
            1 => {
                let msg = ctx.recv().await;
                assert_eq!(msg.payload, "hello");
                assert_eq!(msg.src, NodeId(0));
            }
            _ => {}
        }
    });

    let stats = sim.run();
    assert_eq!(stats.messages_delivered, 1);
}

#[test]
fn ping_pong() {
    let topology = TopologyBuilder::new(2)
        .link(0u32, 1u32, Duration::from_millis(10))
        .build();

    let mut sim = TaskSimBuilder::<String>::new(topology, 42).build(|ctx| async move {
        let id = ctx.id().as_u32();
        let msg = ctx.recv().await;
        if id == 0 {
            ctx.send(NodeId(1), format!("ping from 0, got: {}", msg.payload))
                .await;
            let reply = ctx.recv().await;
            assert!(reply.payload.starts_with("pong"));
        } else {
            assert!(msg.payload.starts_with("ping"));
            ctx.send(msg.src, "pong from 1".to_string()).await;
        }
    });

    sim.inject(NodeId(1), NodeId(0), "start".to_string());

    let stats = sim.run();
    assert_eq!(stats.messages_delivered, 3);
}

#[test]
fn concurrent_nodes() {
    let topology = TopologyBuilder::new(3)
        .full_mesh(Duration::from_millis(5))
        .build();

    let sim = TaskSimBuilder::<u32>::new(topology, 42).build(|ctx| async move {
        let id = ctx.id().as_u32();
        ctx.sleep(Duration::from_millis((u64::from(id) + 1) * 10))
            .await;
        let next = NodeId((id + 1) % 3);
        ctx.send(next, id).await;
        let _msg = ctx.recv().await;
    });

    let stats = sim.run();
    assert_eq!(stats.messages_delivered, 3);
}

#[test]
fn deterministic_replay() {
    fn run_sim() -> (Time, u64) {
        let topology = TopologyBuilder::new(2)
            .link(0u32, 1u32, Duration::from_millis(10))
            .build();

        let sim = TaskSimBuilder::<String>::new(topology, 42).build(|ctx| async move {
            if ctx.id().as_u32() == 0 {
                ctx.sleep(Duration::from_millis(5)).await;
                ctx.send(NodeId(1), "test".to_string()).await;
            } else {
                let _ = ctx.recv().await;
            }
        });

        let stats = sim.run();
        (stats.final_time, stats.messages_delivered)
    }

    let (t1, m1) = run_sim();
    let (t2, m2) = run_sim();

    assert_eq!(t1, t2);
    assert_eq!(m1, m2);
}

#[test]
fn now_updates() {
    let topology = TopologyBuilder::new(1).build();

    let sim = TaskSimBuilder::<()>::new(topology, 42).build(|ctx| async move {
        assert_eq!(ctx.now(), Time::zero());
        ctx.sleep(Duration::from_millis(100)).await;
        assert_eq!(ctx.now(), Time::from_millis(100));
        ctx.sleep(Duration::from_millis(50)).await;
        assert_eq!(ctx.now(), Time::from_millis(150));
    });

    let _stats = sim.run();
}

#[test]
fn self_send() {
    let topology = TopologyBuilder::new(1).build();

    let sim = TaskSimBuilder::<String>::new(topology, 42).build(|ctx| async move {
        ctx.send(ctx.id(), "hello self".to_string()).await;
        let msg = ctx.recv().await;
        assert_eq!(msg.src, ctx.id());
        assert_eq!(msg.dst, ctx.id());
        assert_eq!(msg.payload, "hello self");
    });

    let stats = sim.run();
    assert_eq!(stats.messages_delivered, 1);
}

#[test]
fn multiple_queued_messages() {
    let topology = TopologyBuilder::new(2)
        .link(0u32, 1u32, Duration::from_millis(10))
        .build();

    let mut sim = TaskSimBuilder::<u32>::new(topology, 42).build(|ctx| async move {
        if ctx.id().as_u32() == 1 {
            let m1 = ctx.recv().await;
            let m2 = ctx.recv().await;
            let m3 = ctx.recv().await;
            assert_eq!(m1.payload, 1);
            assert_eq!(m2.payload, 2);
            assert_eq!(m3.payload, 3);
        }
    });

    sim.inject(NodeId(0), NodeId(1), 1);
    sim.inject(NodeId(0), NodeId(1), 2);
    sim.inject(NodeId(0), NodeId(1), 3);

    let stats = sim.run();
    assert_eq!(stats.messages_delivered, 3);
}

#[test]
fn interleaved_sleep_recv() {
    let topology = TopologyBuilder::new(2)
        .link(0u32, 1u32, Duration::from_millis(10))
        .build();

    let sim = TaskSimBuilder::<String>::new(topology, 42).build(|ctx| async move {
        if ctx.id().as_u32() == 0 {
            ctx.sleep(Duration::from_millis(5)).await;
            ctx.send(NodeId(1), "first".to_string()).await;
            ctx.sleep(Duration::from_millis(20)).await;
            ctx.send(NodeId(1), "second".to_string()).await;
        } else {
            let m1 = ctx.recv().await;
            assert_eq!(m1.payload, "first");
            ctx.sleep(Duration::from_millis(5)).await;
            let m2 = ctx.recv().await;
            assert_eq!(m2.payload, "second");
        }
    });

    let stats = sim.run();
    assert_eq!(stats.messages_delivered, 2);
}

#[test]
fn no_route_drops_instead_of_delivering() {
    // Topology with no links: inject drops the message rather than
    // silently delivering it. Node 1's task exits via the shutdown
    // token so the run terminates cleanly.
    let topology = TopologyBuilder::new(2).build();

    let mut sim = TaskSimBuilder::<String>::new(topology, 42).build(|ctx| async move {
        if ctx.id().as_u32() == 1 {
            // Use a recv-with-timeout to exit when no message arrives.
            let _ = ctx.recv_timeout(Duration::from_millis(1)).await;
        }
    });

    sim.inject(NodeId(0), NodeId(1), "unreachable?".to_string());

    let stats = sim.run();
    assert_eq!(stats.messages_delivered, 0);
    assert_eq!(stats.messages_dropped, 1);
}

#[test]
fn fail_link_pre_run_drops_send() {
    // 0 -- 1, link failed before any task runs. The send from inside
    // node 0's task must drop, not deliver.
    let topology = TopologyBuilder::new(2)
        .link(0u32, 1u32, Duration::from_millis(10))
        .build();

    let mut sim = TaskSimBuilder::<&'static str>::new(topology, 42).build(|ctx| async move {
        if ctx.id() == NodeId(0) {
            ctx.send(NodeId(1), "blocked").await;
        } else {
            let _ = ctx.recv_timeout(Duration::from_millis(1)).await;
        }
    });

    sim.fail_link(NodeId(0), NodeId(1));
    let stats = sim.run();
    assert_eq!(stats.messages_delivered, 0);
    assert_eq!(stats.messages_dropped, 1);
}

#[test]
fn fail_link_pre_run_reroutes_send() {
    // Triangle: failing the cheap 0-1 path forces the slow direct edge.
    let topology = TopologyBuilder::new(3)
        .link(0u32, 1u32, Duration::from_millis(5))
        .link(1u32, 2u32, Duration::from_millis(5))
        .link(0u32, 2u32, Duration::from_millis(50))
        .build();

    let mut sim = TaskSimBuilder::<&'static str>::new(topology, 42).build(|ctx| async move {
        if ctx.id() == NodeId(0) {
            ctx.send(NodeId(2), "long way").await;
        } else if ctx.id() == NodeId(2) {
            let msg = ctx.recv().await;
            assert_eq!(msg.payload, "long way");
            assert_eq!(msg.received_at, Time::from_millis(50));
        } else {
            let _ = ctx.recv_timeout(Duration::from_millis(1)).await;
        }
    });

    sim.fail_link(NodeId(0), NodeId(1));
    let stats = sim.run();
    assert_eq!(stats.messages_delivered, 1);
    assert_eq!(stats.messages_dropped, 0);
}

#[test]
fn fail_node_pre_run_drops_sends_to_failed_node() {
    let topology = TopologyBuilder::new(2)
        .link(0u32, 1u32, Duration::from_millis(10))
        .build();

    let mut sim = TaskSimBuilder::<&'static str>::new(topology, 42).build(|ctx| async move {
        if ctx.id() == NodeId(0) {
            ctx.send(NodeId(1), "to_dead").await;
        }
        // Node 1's task still runs but its send won't deliver either way.
    });

    sim.fail_node(NodeId(1));
    let stats = sim.run();
    assert_eq!(stats.messages_delivered, 0);
    assert_eq!(stats.messages_dropped, 1);
}

#[test]
fn partition_drops_sends_in_both_directions() {
    let topology = TopologyBuilder::new(3)
        .full_mesh(Duration::from_millis(10))
        .build();

    let mut sim = TaskSimBuilder::<&'static str>::new(topology, 42).build(|ctx| async move {
        match ctx.id().as_u32() {
            0 => {
                ctx.send(NodeId(1), "blocked_a").await;
                ctx.send(NodeId(2), "still_works").await;
            }
            1 => {
                ctx.send(NodeId(0), "blocked_b").await;
                let _ = ctx.recv_timeout(Duration::from_millis(1)).await;
            }
            _ => {
                let msg = ctx.recv().await;
                assert_eq!(msg.payload, "still_works");
            }
        }
    });

    sim.partition(NodeId(0), NodeId(1));
    assert!(sim.is_partitioned(NodeId(0), NodeId(1)));
    let stats = sim.run();
    // 2 dropped (0->1 and 1->0), 1 delivered (0->2).
    assert_eq!(stats.messages_dropped, 2);
    assert_eq!(stats.messages_delivered, 1);
}

#[test]
fn node_context_can_fail_and_heal_link_mid_run() {
    // Triangle topology. Node 0's task: send via fast path, then fail
    // it, send again (must reroute via slow), then heal, send again
    // (must deliver via fast). Node 2 records arrival times.
    let topology = TopologyBuilder::new(3)
        .link(0u32, 1u32, Duration::from_millis(5))
        .link(1u32, 2u32, Duration::from_millis(5))
        .link(0u32, 2u32, Duration::from_millis(50))
        .build();

    let arrivals: Rc<RefCell<Vec<(u32, Time)>>> = Rc::new(RefCell::new(Vec::new()));
    let arrivals_for_recv = Rc::clone(&arrivals);

    let sim = TaskSimBuilder::<u32>::new(topology, 42).build(move |ctx| {
        let arrivals = Rc::clone(&arrivals_for_recv);
        async move {
            if ctx.id() == NodeId(0) {
                ctx.send(NodeId(2), 1).await;
                ctx.sleep(Duration::from_millis(100)).await;
                ctx.fail_link(NodeId(0), NodeId(1));
                ctx.send(NodeId(2), 2).await;
                ctx.sleep(Duration::from_millis(100)).await;
                ctx.heal_link(NodeId(0), NodeId(1));
                ctx.send(NodeId(2), 3).await;
            } else if ctx.id() == NodeId(2) {
                for _ in 0..3 {
                    let msg = ctx.recv().await;
                    arrivals.borrow_mut().push((msg.payload, msg.received_at));
                }
            }
        }
    });
    let _stats = sim.run();

    let arrivals = arrivals.borrow();
    assert_eq!(arrivals.len(), 3);
    // First message via 0-1-2 (10ms), arrives at t=10ms.
    // Second message at t=100ms via direct 0-2 (50ms), arrives at t=150ms.
    // Third message at t=200ms via 0-1-2 again (10ms), arrives at t=210ms.
    assert_eq!(arrivals[0], (1, Time::from_millis(10)));
    assert_eq!(arrivals[1], (2, Time::from_millis(150)));
    assert_eq!(arrivals[2], (3, Time::from_millis(210)));
}

#[test]
fn task_completes_early() {
    let topology = TopologyBuilder::new(2)
        .link(0u32, 1u32, Duration::from_millis(10))
        .build();

    let sim = TaskSimBuilder::<()>::new(topology, 42).build(|ctx| async move {
        if ctx.id().as_u32() == 0 {
            ctx.sleep(Duration::from_millis(10)).await;
        } else {
            ctx.sleep(Duration::from_millis(100)).await;
        }
    });

    let stats = sim.run();
    assert_eq!(stats.final_time, Time::from_millis(100));
    assert_eq!(stats.tasks_completed, 2);
}

#[test]
fn recv_timeout_fires() {
    let topology = TopologyBuilder::new(1).build();

    let sim = TaskSimBuilder::<u32>::new(topology, 42).build(|ctx| async move {
        // Nobody will ever send us a message, so the timeout should fire.
        let result = ctx.recv_timeout(Duration::from_millis(50)).await;
        assert!(result.is_none());
        assert_eq!(ctx.now(), Time::from_millis(50));
    });

    let stats = sim.run();
    assert_eq!(stats.final_time, Time::from_millis(50));
    assert_eq!(stats.tasks_completed, 1);
}

#[test]
fn recv_timeout_receives_before_deadline() {
    let topology = TopologyBuilder::new(2)
        .link(0u32, 1u32, Duration::from_millis(10))
        .build();

    let mut sim = TaskSimBuilder::<String>::new(topology, 42).build(|ctx| async move {
        if ctx.id().as_u32() == 1 {
            let result = ctx.recv_timeout(Duration::from_millis(100)).await;
            assert!(result.is_some());
            assert_eq!(result.unwrap().payload, "in-time");
        }
    });

    sim.inject(NodeId(0), NodeId(1), "in-time".to_string());

    let stats = sim.run();
    assert_eq!(stats.messages_delivered, 1);
}

#[test]
fn select2_prefers_recv_when_available() {
    let topology = TopologyBuilder::new(2)
        .link(0u32, 1u32, Duration::from_millis(5))
        .build();

    let mut sim = TaskSimBuilder::<String>::new(topology, 42).build(|ctx| async move {
        if ctx.id().as_u32() == 1 {
            let either = select2(ctx.recv(), ctx.sleep(Duration::from_millis(100))).await;
            match either {
                Either::Left(env) => assert_eq!(env.payload, "hi"),
                Either::Right(()) => panic!("expected recv to win"),
            }
        }
    });

    sim.inject(NodeId(0), NodeId(1), "hi".to_string());
    let stats = sim.run();
    assert_eq!(stats.messages_delivered, 1);
}

#[test]
fn select2_falls_back_to_sleep() {
    let topology = TopologyBuilder::new(1).build();

    let sim = TaskSimBuilder::<u32>::new(topology, 42).build(|ctx| async move {
        let either = select2(ctx.recv(), ctx.sleep(Duration::from_millis(25))).await;
        assert!(matches!(either, Either::Right(())));
        assert_eq!(ctx.now(), Time::from_millis(25));
    });

    let stats = sim.run();
    assert_eq!(stats.final_time, Time::from_millis(25));
}

#[test]
fn shutdown_token_observed_by_tasks() {
    let topology = TopologyBuilder::new(2)
        .link(0u32, 1u32, Duration::from_millis(1))
        .build();

    let sim = TaskSimBuilder::<u32>::new(topology, 42).build(|ctx| async move {
        let token = ctx.shutdown_token();
        for i in 0..1000u32 {
            if token.is_cancelled() {
                break;
            }
            ctx.sleep(Duration::from_millis(1)).await;
            if ctx.id().as_u32() == 0 {
                ctx.send(NodeId(1), i).await;
            }
        }
    });

    // Cancel before the run even starts.
    sim.shutdown_token().cancel();

    let stats = sim.run();
    assert_eq!(stats.tasks_completed, 2);
    assert_eq!(stats.messages_delivered, 0);
}

#[test]
fn a_task_asks_all_others_to_stop() {
    let topology = TopologyBuilder::new(3)
        .link(0u32, 1u32, Duration::from_millis(1))
        .build();

    let sim = TaskSimBuilder::<u32>::new(topology, 42).build(|ctx| async move {
        let token = ctx.shutdown_token();
        for i in 0..1000u32 {
            if token.is_cancelled() {
                break;
            }
            ctx.sleep(Duration::from_millis(1)).await;
            if ctx.id() == NodeId(0) && i == 4 {
                // another token of the same simulation
                ctx.shutdown_token().cancel();
            }
        }
    });

    let stats = sim.run();
    assert_eq!(stats.tasks_completed, 3);
    assert_eq!(stats.final_time, Time::from_millis(5));
}

#[test]
fn equal_runs_of_tasks_validate_as_replays() {
    fn run(seed: u64, payload: u64) -> Trace<TaskTraceEvent> {
        let topology = TopologyBuilder::new(3)
            .link(0u32, 1u32, Duration::from_millis(10))
            .build();
        let sim = TaskSimBuilder::<u64>::new(topology, seed)
            .with_trace()
            .build(move |ctx| async move {
                if ctx.id() == NodeId(0) {
                    ctx.send(NodeId(1), payload).await;
                    ctx.send(NodeId(payload as u32), payload).await;
                }
            });
        sim.run_traced().1
    }
    assert_eq!(run(7, 2).compare(&run(7, 2)), Ok(()));
    assert_eq!(run(7, 2).validate_replay(&run(7, 2)), Ok(()));
    assert_eq!(run(7, 2).len(), 2);
    let other = run(7, 1);
    let error = run(7, 2).validate_replay(&other).unwrap_err();
    assert_eq!(error.seed, 7);
    assert_eq!(Err(error.mismatch), run(7, 2).compare(&other));
}

#[test]
fn traced_run_records_delivery() {
    let topology = TopologyBuilder::new(2)
        .link(0u32, 1u32, Duration::from_millis(10))
        .build();

    let sim = TaskSimBuilder::<u64>::new(topology, 7)
        .with_trace()
        .build(|ctx| async move {
            if ctx.id() == NodeId(0) {
                ctx.send(NodeId(1), 42).await;
            }
        });

    let (stats, trace) = sim.run_traced();

    assert_eq!(stats.messages_delivered, 1);
    assert_eq!(trace.seed, 7);
    assert_eq!(trace.len(), 1);
    assert_eq!(
        trace.get(0).map(|e| e.event.clone()),
        Some(TaskTraceEvent::Delivered { src: 0, dst: 1 })
    );
}

#[test]
fn traced_run_records_noroute_drop() {
    // No links: the send from node 0 has no route and is recorded as a
    // drop rather than a delivery.
    let topology = TopologyBuilder::new(2).build();

    let sim = TaskSimBuilder::<u64>::new(topology, 1)
        .with_trace()
        .build(|ctx| async move {
            if ctx.id() == NodeId(0) {
                ctx.send(NodeId(1), 1).await;
            }
        });

    let (stats, trace) = sim.run_traced();

    assert_eq!(stats.messages_delivered, 0);
    assert_eq!(stats.messages_dropped, 1);
    assert_eq!(trace.len(), 1);
    assert_eq!(
        trace.get(0).map(|e| e.event.clone()),
        Some(TaskTraceEvent::Dropped {
            src: 0,
            dst: 1,
            reason: TaskTraceDropReason::NoRoute,
        })
    );
}

#[test]
fn traced_inject_drop_is_recorded() {
    // A pre-run inject to an unreachable node drops; because tracing was
    // enabled (with_trace) before the inject, that drop is captured.
    let topology = TopologyBuilder::new(2).build();

    let mut sim = TaskSimBuilder::<u64>::new(topology, 1)
        .with_trace()
        .build(|_ctx| async move {});

    sim.inject(NodeId(0), NodeId(1), 99);
    let (stats, trace) = sim.run_traced();

    assert_eq!(stats.messages_dropped, 1);
    assert_eq!(trace.len(), 1);
    assert!(matches!(
        trace.get(0).map(|e| &e.event),
        Some(TaskTraceEvent::Dropped {
            reason: TaskTraceDropReason::NoRoute,
            ..
        })
    ));
}

#[test]
fn tracing_does_not_change_behavior() {
    // The recorder is a pure observer: a traced run and an untraced run of
    // the same scenario must produce identical stats. (The trace itself
    // being deterministic across runs is covered in tests/determinism.rs.)
    fn scenario(trace: bool) -> TaskSimStats {
        let topology = TopologyBuilder::new(3)
            .link(0u32, 1u32, Duration::from_millis(5))
            .link(1u32, 2u32, Duration::from_millis(5))
            .build();
        let builder = TaskSimBuilder::<u64>::new(topology, 99);
        let builder = if trace { builder.with_trace() } else { builder };
        let sim = builder.build(|ctx| async move {
            if ctx.id() == NodeId(0) {
                ctx.send(NodeId(2), 1).await;
                ctx.sleep(Duration::from_millis(3)).await;
                ctx.send(NodeId(2), 2).await;
            }
        });
        sim.run()
    }

    let untraced = scenario(false);
    let traced = scenario(true);
    assert_eq!(untraced.messages_delivered, traced.messages_delivered);
    assert_eq!(untraced.messages_dropped, traced.messages_dropped);
    assert_eq!(untraced.events_processed, traced.events_processed);
    assert_eq!(untraced.task_polls, traced.task_polls);
    assert_eq!(untraced.tasks_completed, traced.tasks_completed);
    assert_eq!(untraced.final_time, traced.final_time);
}

#[test]
fn drop_in_flight_off_preserves_pending_delivery() {
    // Default: a mid-run partition does not touch an already-scheduled
    // delivery; the message still arrives.
    let topology = TopologyBuilder::new(3)
        .link(0u32, 1u32, Duration::from_millis(50))
        .link(1u32, 2u32, Duration::from_millis(50))
        .build();
    let sim = TaskSimBuilder::<u64>::new(topology, 1).build(|ctx| async move {
        if ctx.id() == NodeId(0) {
            ctx.send(NodeId(2), 7).await; // delivery scheduled at ~100ms
            ctx.sleep(Duration::from_millis(20)).await;
            ctx.partition(NodeId(0), NodeId(2)); // flag off: no sweep
        }
    });
    let stats = sim.run();
    assert_eq!(stats.messages_delivered, 1);
    assert_eq!(stats.messages_dropped, 0);
}

#[test]
fn drop_in_flight_partition_drops_pending_delivery() {
    let topology = TopologyBuilder::new(3)
        .link(0u32, 1u32, Duration::from_millis(50))
        .link(1u32, 2u32, Duration::from_millis(50))
        .build();
    let sim = TaskSimBuilder::<u64>::new(topology, 1)
        .drop_in_flight_on_failure()
        .build(|ctx| async move {
            if ctx.id() == NodeId(0) {
                ctx.send(NodeId(2), 7).await;
                ctx.sleep(Duration::from_millis(20)).await;
                ctx.partition(NodeId(0), NodeId(2)); // sweeps the in-flight deliver
            }
        });
    let stats = sim.run();
    assert_eq!(stats.messages_delivered, 0);
    assert_eq!(stats.messages_dropped, 1);
}

#[test]
fn task_drop_in_flight_link_failure_drops_when_no_alternate() {
    // Line topology: failing 0-1 leaves no route 0->2, so the in-flight
    // message is dropped.
    let topology = TopologyBuilder::new(3)
        .link(0u32, 1u32, Duration::from_millis(50))
        .link(1u32, 2u32, Duration::from_millis(50))
        .build();
    let sim = TaskSimBuilder::<u64>::new(topology, 1)
        .drop_in_flight_on_failure()
        .build(|ctx| async move {
            if ctx.id() == NodeId(0) {
                ctx.send(NodeId(2), 7).await;
                ctx.sleep(Duration::from_millis(20)).await;
                ctx.fail_link(NodeId(0), NodeId(1));
            }
        });
    let stats = sim.run();
    assert_eq!(stats.messages_delivered, 0);
    assert_eq!(stats.messages_dropped, 1);
}

#[test]
fn drop_in_flight_preserves_when_alternate_route_exists() {
    // Triangle: failing 0-1 still leaves the direct 0-2 edge, so an
    // in-flight message survives (at its original delivery time — the
    // sweep drops only messages with no remaining route, it does not
    // reroute).
    let topology = TopologyBuilder::new(3)
        .link(0u32, 1u32, Duration::from_millis(5))
        .link(1u32, 2u32, Duration::from_millis(5))
        .link(0u32, 2u32, Duration::from_millis(50))
        .build();
    let sim = TaskSimBuilder::<u64>::new(topology, 1)
        .drop_in_flight_on_failure()
        .build(|ctx| async move {
            if ctx.id() == NodeId(0) {
                ctx.send(NodeId(2), 7).await; // via fast 0-1-2 (10ms)
                ctx.sleep(Duration::from_millis(2)).await;
                ctx.fail_link(NodeId(0), NodeId(1)); // 0->2 still routes via direct edge
            }
        });
    let stats = sim.run();
    assert_eq!(stats.messages_delivered, 1);
    assert_eq!(stats.messages_dropped, 0);
}

#[test]
fn scheduled_failure_applies_at_its_time() {
    // Two FailLink actions scheduled at t=10ms cut node 0 off. Node 0
    // sleeps past that, then sends — the send must find no route and drop.
    let topology = TopologyBuilder::new(3)
        .link(0u32, 1u32, Duration::from_millis(5))
        .link(1u32, 2u32, Duration::from_millis(5))
        .link(0u32, 2u32, Duration::from_millis(50))
        .build();
    let mut sim = TaskSimBuilder::<u64>::new(topology, 1).build(|ctx| async move {
        if ctx.id() == NodeId(0) {
            ctx.sleep(Duration::from_millis(20)).await;
            ctx.send(NodeId(2), 1).await;
        }
    });
    sim.schedule_failure(
        Time::from_millis(10),
        FailureAction::FailLink(NodeId(0), NodeId(1)),
    );
    sim.schedule_failure(
        Time::from_millis(10),
        FailureAction::FailLink(NodeId(0), NodeId(2)),
    );
    let stats = sim.run();
    assert_eq!(stats.messages_delivered, 0);
    assert_eq!(stats.messages_dropped, 1);
}

#[test]
fn scheduled_failure_heal_restores_route() {
    // Fail at t=10, heal at t=40. A send at t=50 must route again.
    let topology = TopologyBuilder::new(3)
        .link(0u32, 1u32, Duration::from_millis(5))
        .link(1u32, 2u32, Duration::from_millis(5))
        .build();
    let mut sim = TaskSimBuilder::<u64>::new(topology, 1).build(|ctx| async move {
        if ctx.id() == NodeId(0) {
            ctx.sleep(Duration::from_millis(50)).await;
            ctx.send(NodeId(2), 1).await;
        }
    });
    sim.schedule_failure(
        Time::from_millis(10),
        FailureAction::FailLink(NodeId(0), NodeId(1)),
    );
    sim.schedule_failure(
        Time::from_millis(40),
        FailureAction::HealLink(NodeId(0), NodeId(1)),
    );
    let stats = sim.run();
    assert_eq!(stats.messages_delivered, 1);
    assert_eq!(stats.messages_dropped, 0);
}

#[test]
fn task_trace_json_round_trip() {
    let topology = TopologyBuilder::new(2)
        .link(0u32, 1u32, Duration::from_millis(10))
        .build();

    let sim = TaskSimBuilder::<u64>::new(topology, 7)
        .with_trace()
        .build(|ctx| async move {
            if ctx.id() == NodeId(0) {
                ctx.send(NodeId(1), 42).await;
            }
        });

    let (_stats, trace) = sim.run_traced();

    let json = to_json(&trace);
    let parsed: Trace<TaskTraceEvent> = from_json(&json).unwrap();
    trace.compare(&parsed).unwrap();
}

#[test]
fn scenario_runs_with_injection() {
    let topology = TopologyBuilder::new(2)
        .link(0u32, 1u32, Duration::from_millis(10))
        .build();

    let stats = Scenario::<u32>::new(topology, 42)
        .inject(NodeId(0), NodeId(1), 99)
        .run(|ctx| async move {
            if ctx.id() == NodeId(1) {
                let msg = ctx.recv().await;
                assert_eq!(msg.payload, 99);
            }
        });

    assert_eq!(stats.messages_delivered, 1);
}

#[test]
fn scenario_fail_at_drops_a_later_send() {
    // Schedule both of node 0's links to fail at t=10ms; a send from node 0
    // at t=20ms must then find no route and drop.
    let topology = TopologyBuilder::new(3)
        .link(0u32, 1u32, Duration::from_millis(5))
        .link(1u32, 2u32, Duration::from_millis(5))
        .link(0u32, 2u32, Duration::from_millis(50))
        .build();

    let stats = Scenario::<u64>::new(topology, 1)
        .fail_at(
            Time::from_millis(10),
            FailureAction::FailLink(NodeId(0), NodeId(1)),
        )
        .fail_at(
            Time::from_millis(10),
            FailureAction::FailLink(NodeId(0), NodeId(2)),
        )
        .run(|ctx| async move {
            if ctx.id() == NodeId(0) {
                ctx.sleep(Duration::from_millis(20)).await;
                ctx.send(NodeId(2), 1).await;
            }
        });

    assert_eq!(stats.messages_delivered, 0);
    assert_eq!(stats.messages_dropped, 1);
}

#[test]
fn scenario_respects_run_for_bound() {
    let topology = TopologyBuilder::new(1).build();

    let stats = Scenario::<()>::new(topology, 42)
        .run_for(Duration::from_millis(10))
        .run(|ctx| async move {
            // Sleep longer than the bound; the scenario should stop first.
            ctx.sleep(Duration::from_secs(60)).await;
        });

    assert!(stats.final_time <= Time::from_millis(10));
    // Task did not complete because the run was cut short.
    assert_eq!(stats.tasks_completed, 0);
}

/// Task-layer (async `TaskSim`) determinism scenario. The async facade has
/// its own event queue and trace path, separate from `TracedNetwork`; this is
/// the guardrail for that path. A single driver node (0) on a triangle drives
/// the whole failure surface from inside its task: a healthy delivery, a
/// mid-run `fail_link` pair that forces a `NoRoute` drop, then a `heal_link`
/// pair that restores delivery — recorded via `TaskSimBuilder::with_trace`.
fn run_task_scenario(seed: u64) -> String {
    let topology = TopologyBuilder::new(3)
        .link(0u32, 1u32, Duration::from_millis(5))
        .link(1u32, 2u32, Duration::from_millis(5))
        .link(0u32, 2u32, Duration::from_millis(50))
        .build();

    let sim = TaskSimBuilder::<u64>::new(topology, seed)
        .with_trace()
        .build(|ctx| async move {
            // Only node 0 acts; the others' tasks complete immediately but
            // still receive (and so get recorded as) deliveries.
            if ctx.id().as_u32() == 0 {
                // Healthy: 0->2 routes via the fast 0-1-2 path (10ms).
                ctx.send(NodeId(2), 100).await;
                ctx.sleep(Duration::from_millis(20)).await;

                // Fail both of node 0's edges: 0->2 now has no route.
                ctx.fail_link(NodeId(0), NodeId(1));
                ctx.fail_link(NodeId(0), NodeId(2));
                ctx.send(NodeId(2), 200).await; // NoRoute drop at t=20ms

                ctx.sleep(Duration::from_millis(20)).await;

                // Heal both edges: 0->2 is deliverable again.
                ctx.heal_link(NodeId(0), NodeId(1));
                ctx.heal_link(NodeId(0), NodeId(2));
                ctx.send(NodeId(2), 300).await; // delivered at t=50ms
            }
        });

    let (_stats, trace) = sim.run_traced();
    to_json(&trace)
}

#[test]
fn task_scenario_is_byte_equal_across_runs() {
    let a = run_task_scenario(0xABCD);
    let b = run_task_scenario(0xABCD);
    assert_eq!(
        a, b,
        "two task-sim runs with the same seed produced different JSON traces; \
         task-layer determinism has regressed"
    );
}

#[test]
fn task_scenario_includes_delivery_and_noroute_drop() {
    // The scenario must exercise both sides of the task trace: real
    // deliveries and a NoRoute drop while node 0 is fully cut off.
    let trace = run_task_scenario(0xABCD);
    assert!(
        trace.contains("\"NoRoute\""),
        "expected a NoRoute drop after both of node 0's links failed: {trace}"
    );
    let delivered = trace.matches("\"Delivered\"").count();
    assert_eq!(
        delivered, 2,
        "expected exactly 2 deliveries (messages 100 and 300); got {delivered}"
    );
}

/// Task-layer in-flight-drop scenario. Node 0 fires four 0->2 messages (each
/// ~100ms in flight), then partitions the pair at t=20ms before any deliver.
/// With `drop_in_flight_on_failure`, the sweep rewrites all four pending
/// `Deliver` events into `Partitioned` drops — exercising the task-layer
/// `EventQueue` rewrite path under tracing.
fn run_task_drop_in_flight_scenario(seed: u64) -> String {
    let topology = TopologyBuilder::new(3)
        .link(0u32, 1u32, Duration::from_millis(50))
        .link(1u32, 2u32, Duration::from_millis(50))
        .build();

    let sim = TaskSimBuilder::<u64>::new(topology, seed)
        .with_trace()
        .drop_in_flight_on_failure()
        .build(|ctx| async move {
            if ctx.id() == NodeId(0) {
                for i in 0..4u64 {
                    ctx.send(NodeId(2), i).await;
                }
                ctx.sleep(Duration::from_millis(20)).await;
                ctx.partition(NodeId(0), NodeId(2));
            }
        });

    let (_stats, trace) = sim.run_traced();
    to_json(&trace)
}

#[test]
fn task_drop_in_flight_is_byte_equal_across_runs() {
    let a = run_task_drop_in_flight_scenario(0x1234);
    let b = run_task_drop_in_flight_scenario(0x1234);
    assert_eq!(
        a, b,
        "two task-sim drop-in-flight runs with the same seed produced \
         different JSON traces; the rewrite path is non-deterministic"
    );
}

#[test]
fn task_drop_in_flight_drops_all_pending() {
    let trace = run_task_drop_in_flight_scenario(0x1234);
    assert_eq!(
        trace.matches("\"Partitioned\"").count(),
        4,
        "expected all four in-flight messages swept into Partitioned drops"
    );
    assert_eq!(
        trace.matches("\"Delivered\"").count(),
        0,
        "no message should have been delivered after the partition"
    );
}

/// Task-layer scheduled-failure scenario. Drives the whole failure surface
/// declaratively via `TaskSim::schedule_failure` (the engine under
/// `Scenario::fail_at`) instead of from inside node tasks: both of node 0's
/// edges fail at t=10ms and heal at t=40ms. Node 0 sends before the failure
/// (delivered), during the outage (`NoRoute` drop), and after the heal
/// (delivered).
fn run_task_scheduled_failure_scenario(seed: u64) -> String {
    let topology = TopologyBuilder::new(3)
        .link(0u32, 1u32, Duration::from_millis(5))
        .link(1u32, 2u32, Duration::from_millis(5))
        .link(0u32, 2u32, Duration::from_millis(50))
        .build();

    let mut sim = TaskSimBuilder::<u64>::new(topology, seed)
        .with_trace()
        .build(|ctx| async move {
            if ctx.id() == NodeId(0) {
                ctx.send(NodeId(2), 1).await; // t=0: delivered
                ctx.sleep(Duration::from_millis(20)).await;
                ctx.send(NodeId(2), 2).await; // t=20: cut off -> NoRoute drop
                ctx.sleep(Duration::from_millis(30)).await;
                ctx.send(NodeId(2), 3).await; // t=50: healed -> delivered
            }
        });

    for (a, b) in [(0u32, 1u32), (0, 2)] {
        sim.schedule_failure(
            Time::from_millis(10),
            FailureAction::FailLink(NodeId(a), NodeId(b)),
        );
        sim.schedule_failure(
            Time::from_millis(40),
            FailureAction::HealLink(NodeId(a), NodeId(b)),
        );
    }

    let (_stats, trace) = sim.run_traced();
    to_json(&trace)
}

#[test]
fn task_scheduled_failure_is_byte_equal_across_runs() {
    let a = run_task_scheduled_failure_scenario(0x5151);
    let b = run_task_scheduled_failure_scenario(0x5151);
    assert_eq!(
        a, b,
        "two scheduled-failure runs with the same seed produced different JSON \
         traces; the ApplyFailure event path is non-deterministic"
    );
}

#[test]
fn task_scheduled_failure_includes_drop_and_recovery() {
    let trace = run_task_scheduled_failure_scenario(0x5151);
    assert!(
        trace.contains("\"NoRoute\""),
        "expected a NoRoute drop during the scheduled outage"
    );
    assert_eq!(
        trace.matches("\"Delivered\"").count(),
        2,
        "expected deliveries before the failure and after the heal"
    );
}

