//! Identifiers of nodes and messages.

use vstd::prelude::*;
use vstd::string::StringExecFns;

use crate::text::push_decimal;

verus! {

/// The identifier of a node.
#[derive(Clone, Copy, Debug, PartialEq, Eq, Structural, PartialOrd, Ord, Hash)]
pub struct NodeId(pub u32);

impl NodeId {
    /// Creates a node identifier.
    pub fn new(id: u32) -> (n: NodeId)
        ensures
            n.0 == id,
    {
        NodeId(id)
    }

    /// The number of the node.
    pub fn as_u32(&self) -> (id: u32)
        ensures
            id == self.0,
    {
        self.0
    }

    /// The number of the node, for indexing.
    pub fn as_usize(&self) -> (id: usize)
        ensures
            id == self.0,
    {
        self.0 as usize
    }

    /// The text of the identifier.
    pub fn to_string(&self) -> (s: String)
        ensures
            s@ == "N"@ + crate::text::decimal(self.0 as nat),
    {
        let mut out: String = String::from_str("N");
        push_decimal(&mut out, self.0 as u64);
        out
    }

    /// The text of the identifier for debugging.
    pub fn to_debug_string(&self) -> (s: String)
        ensures
            s@ == "Node("@ + crate::text::decimal(self.0 as nat) + ")"@,
    {
        let mut out: String = String::from_str("Node(");
        push_decimal(&mut out, self.0 as u64);
        out.append(")");
        out
    }
}

impl Default for NodeId {
    fn default() -> (n: NodeId)
        ensures
            n.0 == 0,
    {
        NodeId(0)
    }
}

impl From<u32> for NodeId {
    fn from(id: u32) -> (n: NodeId) {
        NodeId(id)
    }
}

impl vstd::std_specs::convert::FromSpecImpl<u32> for NodeId {
    open spec fn obeys_from_spec() -> bool {
        true
    }

    open spec fn from_spec(id: u32) -> NodeId {
        NodeId(id)
    }
}

impl From<usize> for NodeId {
    fn from(id: usize) -> (n: NodeId) {
        NodeId(id as u32)
    }
}

impl vstd::std_specs::convert::FromSpecImpl<usize> for NodeId {
    open spec fn obeys_from_spec() -> bool {
        true
    }

    open spec fn from_spec(id: usize) -> NodeId {
        NodeId(id as u32)
    }
}

/// The identifier of a message.
#[derive(Clone, Copy, Debug, PartialEq, Eq, Structural, PartialOrd, Ord, Hash)]
pub struct MessageId(pub u64);

impl MessageId {
    /// Creates a message identifier.
    pub fn new(id: u64) -> (m: MessageId)
        ensures
            m.0 == id,
    {
        MessageId(id)
    }

    /// The number of the message.
    pub fn as_u64(&self) -> (id: u64)
        ensures
            id == self.0,
    {
        self.0
    }

    /// The text of the identifier.
    pub fn to_string(&self) -> (s: String)
        ensures
            s@ == "M"@ + crate::text::decimal(self.0 as nat),
    {
        let mut out: String = String::from_str("M");
        push_decimal(&mut out, self.0);
        out
    }

    /// The text of the identifier for debugging.
    pub fn to_debug_string(&self) -> (s: String)
        ensures
            s@ == "Msg("@ + crate::text::decimal(self.0 as nat) + ")"@,
    {
        let mut out: String = String::from_str("Msg(");
        push_decimal(&mut out, self.0);
        out.append(")");
        out
    }
}

impl Default for MessageId {
    fn default() -> (m: MessageId)
        ensures
            m.0 == 0,
    {
        MessageId(0)
    }
}

impl From<u64> for MessageId {
    fn from(id: u64) -> (m: MessageId) {
        MessageId(id)
    }
}

impl vstd::std_specs::convert::FromSpecImpl<u64> for MessageId {
    open spec fn obeys_from_spec() -> bool {
        true
    }

    open spec fn from_spec(id: u64) -> MessageId {
        MessageId(id)
    }
}

} // verus!
