//! Messages, network events and configuration.

use vstd::prelude::*;

use crate::net::node::{MessageId, NodeId};
use crate::rng::Probability;
use crate::time::Time;

verus! {

/// A message on its way through the network.
#[derive(Debug, Clone)]
pub struct Message<P> {
    /// The identifier of the message.
    pub id: MessageId,
    /// The node that sent it.
    pub src: NodeId,
    /// The node that it is for.
    pub dst: NodeId,
    /// What it carries.
    pub payload: P,
}

impl<P> Message<P> {
    /// Creates a message.
    pub fn new(id: MessageId, src: NodeId, dst: NodeId, payload: P) -> (m: Message<P>)
        ensures
            m == (Message { id, src, dst, payload }),
    {
        Message { id, src, dst, payload }
    }
}

/// Why a message was dropped.
#[derive(Debug, Clone, Copy, PartialEq, Eq, Structural)]
pub enum DropReason {
    /// There is no route to the destination.
    NoRoute,
    /// It was lost at random.
    PacketLoss,
    /// Source and destination are partitioned from each other.
    Partitioned,
    /// A link on its path would not take it.
    BufferOverflow,
}

/// What happens to a message.
#[derive(Debug, Clone)]
pub enum NetEvent<P> {
    /// It arrives at its destination.
    Deliver(Message<P>),
    /// It is dropped.
    Drop {
        /// The message.
        message: Message<P>,
        /// Why it is dropped.
        reason: DropReason,
    },
}

/// The configuration of a network.
#[derive(Debug, Clone, Copy, PartialEq, Eq, Structural)]
pub struct NetConfig {
    /// The probability with which a message is lost.
    pub packet_loss: Probability,
    /// Whether a failure drops the messages on their way that can no longer be
    /// routed. Otherwise they arrive as if nothing had failed.
    pub drop_in_flight_on_failure: bool,
}

impl Default for NetConfig {
    fn default() -> (c: NetConfig)
        ensures
            c == (NetConfig {
                packet_loss: Probability::Never,
                drop_in_flight_on_failure: false,
            }),
    {
        NetConfig { packet_loss: Probability::Never, drop_in_flight_on_failure: false }
    }
}

/// Figures about a network simulation run.
#[derive(Debug, Clone, PartialEq, Eq, Structural)]
pub struct NetworkStats {
    /// The number of events processed.
    pub events_processed: u64,
    /// The simulated time at the end of the run.
    pub final_time: Time,
    /// The number of messages sent.
    pub messages_sent: u64,
    /// The number of messages that arrived.
    pub messages_delivered: u64,
    /// The number of messages that were dropped.
    pub messages_dropped: u64,
}

impl Default for NetworkStats {
    fn default() -> (s: NetworkStats)
        ensures
            s == (NetworkStats {
                events_processed: 0,
                final_time: Time(0),
                messages_sent: 0,
                messages_delivered: 0,
                messages_dropped: 0,
            }),
    {
        NetworkStats {
            events_processed: 0,
            final_time: Time(0),
            messages_sent: 0,
            messages_delivered: 0,
            messages_dropped: 0,
        }
    }
}

} // verus!
