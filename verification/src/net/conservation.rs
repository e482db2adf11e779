//! No message is lost and none is doubled: each is handled exactly once.

use vstd::prelude::*;

use crate::net::fabric::FabricState;
use crate::net::graph::Graph;
use crate::net::latency::LatencyModel;
use crate::net::laws::{accounted, handler_keeps_counts, messages_are_conserved};
use crate::net::message::{Message, NetEvent};
use crate::net::network::{swept, swept_queue, sweepable, NetState};
use crate::net::node::{MessageId, NodeId};
use crate::net::run::{is_net_run, sending_all, CtxState, RunState, SendRequest};
use crate::queue::{due_by, lemma_due_by_bound, schedule_adds_one_event, QueueState, Scheduled};
use crate::sim::SimState;
use crate::time::Time;

verus! {

/// The message that an event is about.
pub open spec fn message_of<P>(event: NetEvent<P>) -> Message<P> {
    match event {
        NetEvent::Deliver(message) => message,
        NetEvent::Drop { message, .. } => message,
    }
}

/// One where an event is about message `id`, nothing where it is about another.
pub open spec fn once<P>(event: NetEvent<P>, id: MessageId) -> nat {
    if message_of(event).id == id {
        1
    } else {
        0
    }
}

/// The number of waiting events that are about message `id`.
pub open spec fn waiting<P>(pending: Seq<Scheduled<NetEvent<P>>>, id: MessageId) -> nat
    decreases pending.len(),
{
    if pending.len() == 0 {
        0
    } else {
        waiting(pending.drop_last(), id) + once(pending.last().event, id)
    }
}

/// The number of events about message `id` that were handed to the handler in the course
/// of a run.
pub open spec fn handled<P, L>(states: Seq<RunState<P, L>>, id: MessageId) -> nat
    decreases states.len(),
{
    if states.len() <= 1 {
        0
    } else {
        handled(states.drop_last(), id) + once(
            states[states.len() - 2].sim.queue.pending[0].event,
            id,
        )
    }
}

/// One for each number that was given to a message, nothing for any other.
pub open spec fn given(next_message_id: u64, id: MessageId) -> nat {
    if id.0 < next_message_id {
        1
    } else {
        0
    }
}

/// Whether for each message that was sent exactly one event waits, and nothing else
/// waits.
pub open spec fn each_waits_once<P, L>(net: NetState<P, L>) -> bool {
    &&& net.sim.queue.pending.len() == net.fabric.next_message_id
    &&& forall|id: MessageId| #[trigger]
        waiting(net.sim.queue.pending, id) == given(net.fabric.next_message_id, id)
}

proof fn lemma_waiting_concat<P>(
    a: Seq<Scheduled<NetEvent<P>>>,
    b: Seq<Scheduled<NetEvent<P>>>,
    id: MessageId,
)
    ensures
        waiting(a + b, id) == waiting(a, id) + waiting(b, id),
    decreases b.len(),
{
    if b.len() == 0 {
        assert(a + b =~= a);
    } else {
        assert((a + b).drop_last() =~= a + b.drop_last());
        lemma_waiting_concat(a, b.drop_last(), id);
    }
}

proof fn lemma_waiting_one<P>(s: Scheduled<NetEvent<P>>, id: MessageId)
    ensures
        waiting(seq![s], id) == once(s.event, id),
{
    assert(seq![s].drop_last() =~= Seq::<Scheduled<NetEvent<P>>>::empty());
    assert(waiting(seq![s].drop_last(), id) == 0);
}

proof fn lemma_waiting_schedule<P>(
    q: QueueState<NetEvent<P>>,
    time: Time,
    event: NetEvent<P>,
    id: MessageId,
)
    ensures
        waiting(q.schedule(time, event).pending, id) == waiting(q.pending, id) + once(event, id),
{
    lemma_due_by_bound(q.pending, time);
    let d = due_by(q.pending, time) as int;
    let s = Scheduled { time, sequence: q.next_sequence, event };
    assert(q.schedule(time, event).pending =~= q.pending.take(d) + seq![s] + q.pending.skip(d));
    assert(q.pending =~= q.pending.take(d) + q.pending.skip(d));
    lemma_waiting_concat(q.pending.take(d) + seq![s], q.pending.skip(d), id);
    lemma_waiting_concat(q.pending.take(d), seq![s], id);
    lemma_waiting_concat(q.pending.take(d), q.pending.skip(d), id);
    lemma_waiting_one(s, id);
}

proof fn lemma_waiting_rest<P>(pending: Seq<Scheduled<NetEvent<P>>>, id: MessageId)
    requires
        pending.len() > 0,
    ensures
        waiting(pending, id) == once(pending[0].event, id) + waiting(pending.drop_first(), id),
{
    assert(pending =~= seq![pending[0]] + pending.drop_first());
    lemma_waiting_concat(seq![pending[0]], pending.drop_first(), id);
    lemma_waiting_one(pending[0], id);
}

/// Scheduling the swept events anew keeps the message of each.
proof fn lemma_waiting_swept<P, L: LatencyModel>(
    fabric: FabricState<L>,
    now: Time,
    queue: QueueState<NetEvent<P>>,
    n: nat,
    id: MessageId,
)
    requires
        sweepable(fabric, queue),
        n <= queue.pending.len(),
    ensures
        ({
            let items = queue.pending.map_values(
                |s: Scheduled<NetEvent<P>>| swept(fabric, now, s)->0,
            ).take(n as int);
            let after = queue.cleared().schedule_all(items);
            &&& waiting(after.pending, id) == waiting(queue.pending.take(n as int), id)
            &&& after.pending.len() == n
        }),
    decreases n,
{
    let all = queue.pending.map_values(|s: Scheduled<NetEvent<P>>| swept(fabric, now, s)->0);
    let items = all.take(n as int);
    if n > 0 {
        lemma_waiting_swept(fabric, now, queue, (n - 1) as nat, id);
        assert(items.drop_last() =~= all.take(n - 1));
        assert(queue.pending.take(n as int).drop_last() =~= queue.pending.take(n - 1));
        let last = queue.pending[n - 1];
        assert(swept(fabric, Time(0), last) is Some);
        assert(items.last() == swept(fabric, now, last)->0);
        assert(message_of(items.last().1) == message_of(last.event));
        let before = queue.cleared().schedule_all(items.drop_last());
        lemma_waiting_schedule(before, items.last().0, items.last().1, id);
        lemma_due_by_bound(before.pending, items.last().0);
    }
}

proof fn lemma_waiting_swept_queue<P, L: LatencyModel>(
    fabric: FabricState<L>,
    now: Time,
    queue: QueueState<NetEvent<P>>,
    id: MessageId,
)
    requires
        sweepable(fabric, queue),
    ensures
        waiting(swept_queue(fabric, now, queue).pending, id) == waiting(queue.pending, id),
        swept_queue(fabric, now, queue).pending.len() == queue.pending.len(),
{
    let all = queue.pending.map_values(|s: Scheduled<NetEvent<P>>| swept(fabric, now, s)->0);
    lemma_waiting_swept(fabric, now, queue, queue.pending.len(), id);
    assert(all.take(queue.pending.len() as int) =~= all);
    assert(queue.pending.take(queue.pending.len() as int) =~= queue.pending);
}

/// Sending a message gives it the next number and one event that carries it.
proof fn lemma_sending_adds_one<P, L: LatencyModel>(
    net: NetState<P, L>,
    time: Time,
    src: NodeId,
    dst: NodeId,
    payload: P,
    size_bytes: u64,
    id: MessageId,
)
    requires
        net.sending(time, src, dst, payload, size_bytes) is Some,
    ensures
        ({
            let after = net.sending(time, src, dst, payload, size_bytes)->0;
            &&& after.fabric.next_message_id == net.fabric.next_message_id + 1
            &&& after.sim.queue.pending.len() == net.sim.queue.pending.len() + 1
            &&& after.sim.events_processed == net.sim.events_processed
            &&& waiting(after.sim.queue.pending, id) + given(net.fabric.next_message_id, id)
                == waiting(net.sim.queue.pending, id) + given(after.fabric.next_message_id, id)
        }),
{
    let d = net.fabric.dispatch(time, src, dst, payload, size_bytes)->0;
    assert(message_of(d.event).id == MessageId(net.fabric.next_message_id));
    schedule_adds_one_event(net.sim.queue, d.time, d.event);
    lemma_waiting_schedule(net.sim.queue, d.time, d.event, id);
}

proof fn lemma_sending_all_adds_each<P, L: LatencyModel>(
    net: NetState<P, L>,
    requests: Seq<SendRequest<P>>,
    id: MessageId,
)
    requires
        sending_all(net, requests) is Some,
    ensures
        ({
            let after = sending_all(net, requests)->0;
            &&& after.sim.events_processed == net.sim.events_processed
            &&& waiting(after.sim.queue.pending, id) + given(net.fabric.next_message_id, id)
                == waiting(net.sim.queue.pending, id) + given(after.fabric.next_message_id, id)
        }),
    decreases requests.len(),
{
    if requests.len() > 0 {
        lemma_sending_all_adds_each(net, requests.drop_last(), id);
        let before = sending_all(net, requests.drop_last())->0;
        let (src, dst, payload, size_bytes) = requests.last();
        lemma_sending_adds_one(before, before.sim.now, src, dst, payload, size_bytes, id);
    }
}

/// In a new network nothing waits, no number was given and no event was processed.
pub proof fn new_networks_owe_nothing<P, L: LatencyModel>(graph: Graph, model: L, seed: u64)
    ensures
        each_waits_once(
            NetState::<P, L> {
                sim: SimState::initial(),
                fabric: FabricState::initial(graph, model, seed),
            },
        ),
        SimState::<NetEvent<P>>::initial().events_processed == 0,
{
}

/// Sending a message, for now or later, puts exactly one event about it into the queue,
/// whatever becomes of it. The event carries the message as it was sent, under the next
/// number.
pub proof fn sending_adds_one_event_for_the_message<P, L: LatencyModel>(
    net: NetState<P, L>,
    time: Time,
    src: NodeId,
    dst: NodeId,
    payload: P,
    size_bytes: u64,
)
    requires
        each_waits_once(net),
        net.sending(time, src, dst, payload, size_bytes) is Some,
    ensures
        each_waits_once(net.sending(time, src, dst, payload, size_bytes)->0),
        net.sending(time, src, dst, payload, size_bytes)->0.sim.events_processed
            == net.sim.events_processed,
        message_of(net.fabric.dispatch(time, src, dst, payload, size_bytes)->0.event) == (Message {
            id: MessageId(net.fabric.next_message_id),
            src,
            dst,
            payload,
        }),
{
    let after = net.sending(time, src, dst, payload, size_bytes)->0;
    lemma_sending_adds_one(net, time, src, dst, payload, size_bytes, MessageId(0));
    assert forall|id: MessageId| #[trigger] waiting(after.sim.queue.pending, id) == given(
        after.fabric.next_message_id,
        id,
    ) by {
        assert(waiting(net.sim.queue.pending, id) == given(net.fabric.next_message_id, id));
        lemma_sending_adds_one(net, time, src, dst, payload, size_bytes, id);
    }
}

/// A failure before a run neither loses a message on its way nor doubles one.
pub proof fn failures_lose_nothing<P, L: LatencyModel>(net: NetState<P, L>, fabric: FabricState<L>)
    requires
        each_waits_once(net),
        net.can_fail(fabric),
        fabric.next_message_id == net.fabric.next_message_id,
    ensures
        each_waits_once(net.failing(fabric)),
        net.failing(fabric).sim.events_processed == net.sim.events_processed,
{
    let after = net.failing(fabric);
    if fabric.config.drop_in_flight_on_failure {
        lemma_waiting_swept_queue(fabric, net.sim.now, net.sim.queue, MessageId(0));
        assert forall|id: MessageId| #[trigger] waiting(after.sim.queue.pending, id) == given(
            after.fabric.next_message_id,
            id,
        ) by {
            assert(waiting(net.sim.queue.pending, id) == given(net.fabric.next_message_id, id));
            lemma_waiting_swept_queue(fabric, net.sim.now, net.sim.queue, id);
        }
    }
}

/// Handling an event takes it out of the queue, and adds an event only for a message that
/// gets a number.
proof fn lemma_step_moves_one<P, L: LatencyModel>(
    handles: spec_fn(CtxState<P, L>, NetEvent<P>, CtxState<P, L>) -> bool,
    run: RunState<P, L>,
    next: RunState<P, L>,
    id: MessageId,
)
    requires
        handler_keeps_counts(handles),
        run.leads_to(handles, next),
    ensures
        next.sim.events_processed == run.sim.events_processed + 1,
        waiting(next.sim.queue.pending, id) + once(run.sim.queue.pending[0].event, id) + given(
            run.ctx.fabric.next_message_id,
            id,
        ) == waiting(run.sim.queue.pending, id) + given(next.ctx.fabric.next_message_id, id),
{
    let ctx = choose|ctx: CtxState<P, L>|
        #![trigger RunState::absorbed(run.sim.advanced(), ctx)]
        handles(run.entered()->0, run.sim.queue.pending[0].event, ctx) && RunState::absorbed(
            run.sim.advanced(),
            ctx,
        ) == Some(next);
    assert(handles(run.entered()->0, run.sim.queue.pending[0].event, ctx));
    let sim = run.sim.advanced();
    lemma_waiting_rest(run.sim.queue.pending, id);
    let sweeps = ctx.needs_failure_sweep && ctx.fabric.config.drop_in_flight_on_failure;
    if sweeps {
        lemma_waiting_swept_queue(ctx.fabric, sim.now, sim.queue, id);
    }
    let net = NetState {
        sim: if sweeps {
            SimState { queue: swept_queue(ctx.fabric, sim.now, sim.queue), ..sim }
        } else {
            sim
        },
        fabric: ctx.fabric,
    };
    lemma_sending_all_adds_each(net, ctx.pending_sends, id);
}

proof fn lemma_waiting_or_handled<P, L: LatencyModel>(
    handles: spec_fn(CtxState<P, L>, NetEvent<P>, CtxState<P, L>) -> bool,
    net: NetState<P, L>,
    states: Seq<RunState<P, L>>,
    id: MessageId,
)
    requires
        handler_keeps_counts(handles),
        is_net_run(handles, states),
        each_waits_once(net),
        states[0] == RunState::initial(net),
    ensures
        waiting(states.last().sim.queue.pending, id) + handled(states, id) == given(
            states.last().ctx.fabric.next_message_id,
            id,
        ),
        states.last().sim.events_processed == net.sim.events_processed + states.len() - 1,
    decreases states.len(),
{
    if states.len() > 1 {
        let shorter = states.drop_last();
        assert(is_net_run(handles, shorter)) by {
            assert forall|i: int| 0 <= i < shorter.len() - 1 implies (
            #[trigger] shorter[i]).leads_to(handles, shorter[i + 1]) by {
                assert(states[i].leads_to(handles, states[i + 1]));
            }
        }
        lemma_waiting_or_handled(handles, net, shorter, id);
        let k = states.len() - 2;
        assert(states[k].leads_to(handles, states[k + 1]));
        lemma_step_moves_one(handles, states[k], states[k + 1], id);
    } else {
        assert(waiting(net.sim.queue.pending, id) == given(net.fabric.next_message_id, id));
    }
}

/// No message is lost or doubled. Throughout a run, for each number that was given to a
/// message, either one event about it waits or one was handed to the handler, and never
/// both; no event is about another number. At the end of the run the handler has been
/// called exactly once for each message that was sent.
pub proof fn each_message_is_handled_exactly_once<P, L: LatencyModel>(
    handles: spec_fn(CtxState<P, L>, NetEvent<P>, CtxState<P, L>) -> bool,
    net: NetState<P, L>,
    states: Seq<RunState<P, L>>,
)
    requires
        handler_keeps_counts(handles),
        is_net_run(handles, states),
        each_waits_once(net),
        states[0] == RunState::initial(net),
    ensures
        forall|id: MessageId|
            waiting(states.last().sim.queue.pending, id) + #[trigger] handled(states, id) == given(
                states.last().ctx.fabric.next_message_id,
                id,
            ),
        states.last().sim.queue.pending.len() == 0 ==> forall|id: MessageId| #[trigger]
            handled(states, id) == given(states.last().stats().messages_sent, id),
{
    assert forall|id: MessageId|
        waiting(states.last().sim.queue.pending, id) + #[trigger] handled(states, id) == given(
            states.last().ctx.fabric.next_message_id,
            id,
        ) by {
        lemma_waiting_or_handled(handles, net, states, id);
    }
}

/// The figures of a finished run add up: as many messages were delivered or dropped as
/// were sent, and as many events were processed in the run. For a network that was new
/// before its messages were sent these are all the events that it has processed.
pub proof fn figures_add_up<P, L: LatencyModel>(
    handles: spec_fn(CtxState<P, L>, NetEvent<P>, CtxState<P, L>) -> bool,
    net: NetState<P, L>,
    states: Seq<RunState<P, L>>,
)
    requires
        handler_keeps_counts(handles),
        is_net_run(handles, states),
        each_waits_once(net),
        states[0] == RunState::initial(net),
    ensures
        ({
            let stats = states.last().stats();
            &&& stats.messages_delivered + stats.messages_dropped == stats.events_processed
                - net.sim.events_processed
            &&& states.last().sim.queue.pending.len() == 0 ==> stats.messages_sent
                == stats.messages_delivered + stats.messages_dropped
            &&& states.last().sim.queue.pending.len() == 0 && net.sim.events_processed == 0
                ==> stats.messages_sent == stats.events_processed
        }),
{
    assert(accounted(states[0]));
    messages_are_conserved(handles, states, states.len() - 1);
    lemma_waiting_or_handled(handles, net, states, MessageId(0));
}

} // verus!
