//! Sets and maps over ordered pairs of nodes.
//!
//! A pair is stored under a single number that tells both nodes apart.

use std::collections::{HashMap, HashSet};

use vstd::prelude::*;

use crate::net::node::NodeId;

verus! {

broadcast use vstd::std_specs::hash::group_hash_axioms;

/// The number under which a pair of nodes is stored.
pub open spec fn code(a: NodeId, b: NodeId) -> u64 {
    (a.0 * 0x1_0000_0000 + b.0) as u64
}

/// Different pairs have different numbers.
proof fn lemma_code_injective(a: NodeId, b: NodeId, c: NodeId, d: NodeId)
    ensures
        code(a, b) == code(c, d) ==> a == c && b == d,
{
}

/// Computes the number under which a pair of nodes is stored.
fn encode(a: NodeId, b: NodeId) -> (n: u64)
    ensures
        n == code(a, b),
{
    a.0 as u64 * 0x1_0000_0000 + b.0 as u64
}

/// A set of ordered pairs of nodes.
#[derive(Debug)]
pub struct PairSet {
    codes: HashSet<u64>,
}

impl View for PairSet {
    type V = Set<(NodeId, NodeId)>;

    closed spec fn view(&self) -> Set<(NodeId, NodeId)> {
        Set::new(|p: (NodeId, NodeId)| self.codes@.contains(code(p.0, p.1)))
    }
}

impl PairSet {
    /// Creates an empty set.
    pub fn new() -> (s: PairSet)
        ensures
            s@ == Set::<(NodeId, NodeId)>::empty(),
    {
        let s = PairSet { codes: HashSet::new() };
        assert(s@ =~= Set::<(NodeId, NodeId)>::empty());
        s
    }

    /// Whether the pair is in the set.
    pub fn contains(&self, a: NodeId, b: NodeId) -> (r: bool)
        ensures
            r == self@.contains((a, b)),
    {
        self.codes.contains(&encode(a, b))
    }

    /// Adds a pair; tells whether it was absent.
    pub fn insert(&mut self, a: NodeId, b: NodeId) -> (added: bool)
        ensures
            final(self)@ == old(self)@.insert((a, b)),
            added == !old(self)@.contains((a, b)),
    {
        let added: bool = self.codes.insert(encode(a, b));
        proof {
            assert forall|p: (NodeId, NodeId)|
                self@.contains(p) == old(self)@.insert((a, b)).contains(p) by {
                lemma_code_injective(p.0, p.1, a, b);
            }
            assert(self@ =~= old(self)@.insert((a, b)));
        }
        added
    }

    /// Removes a pair; tells whether it was present.
    pub fn remove(&mut self, a: NodeId, b: NodeId) -> (removed: bool)
        ensures
            final(self)@ == old(self)@.remove((a, b)),
            removed == old(self)@.contains((a, b)),
    {
        let removed: bool = self.codes.remove(&encode(a, b));
        proof {
            assert forall|p: (NodeId, NodeId)|
                self@.contains(p) == old(self)@.remove((a, b)).contains(p) by {
                lemma_code_injective(p.0, p.1, a, b);
            }
            assert(self@ =~= old(self)@.remove((a, b)));
        }
        removed
    }
}

/// `HashSet::clone` of std on a set of numbers: the copy holds the same numbers.
#[verifier::external_body]
fn copy_codes(codes: &HashSet<u64>) -> (r: HashSet<u64>)
    ensures
        r@ == codes@,
{
    codes.clone()
}

impl Clone for PairSet {
    fn clone(&self) -> (s: PairSet)
        ensures
            s@ == self@,
    {
        PairSet { codes: copy_codes(&self.codes) }
    }
}

/// A set of nodes.
#[derive(Debug)]
pub struct NodeSet {
    codes: HashSet<u64>,
}

impl View for NodeSet {
    type V = Set<NodeId>;

    closed spec fn view(&self) -> Set<NodeId> {
        Set::new(|n: NodeId| self.codes@.contains(n.0 as u64))
    }
}

impl NodeSet {
    /// Creates an empty set.
    pub fn new() -> (s: NodeSet)
        ensures
            s@ == Set::<NodeId>::empty(),
    {
        let s = NodeSet { codes: HashSet::new() };
        assert(s@ =~= Set::<NodeId>::empty());
        s
    }

    /// Whether the node is in the set.
    pub fn contains(&self, node: NodeId) -> (r: bool)
        ensures
            r == self@.contains(node),
    {
        self.codes.contains(&(node.0 as u64))
    }

    /// Adds a node; tells whether it was absent.
    pub fn insert(&mut self, node: NodeId) -> (added: bool)
        ensures
            final(self)@ == old(self)@.insert(node),
            added == !old(self)@.contains(node),
    {
        let added: bool = self.codes.insert(node.0 as u64);
        assert(self@ =~= old(self)@.insert(node));
        added
    }

    /// Removes a node; tells whether it was present.
    pub fn remove(&mut self, node: NodeId) -> (removed: bool)
        ensures
            final(self)@ == old(self)@.remove(node),
            removed == old(self)@.contains(node),
    {
        let removed: bool = self.codes.remove(&(node.0 as u64));
        assert(self@ =~= old(self)@.remove(node));
        removed
    }
}

impl Clone for NodeSet {
    fn clone(&self) -> (s: NodeSet)
        ensures
            s@ == self@,
    {
        NodeSet { codes: copy_codes(&self.codes) }
    }
}

/// A map from ordered pairs of nodes.
#[derive(Debug)]
pub struct PairMap<V> {
    entries: HashMap<u64, V>,
}

impl<V> View for PairMap<V> {
    type V = Map<(NodeId, NodeId), V>;

    closed spec fn view(&self) -> Map<(NodeId, NodeId), V> {
        Map::new(
            |p: (NodeId, NodeId)| self.entries@.contains_key(code(p.0, p.1)),
            |p: (NodeId, NodeId)| self.entries@[code(p.0, p.1)],
        )
    }
}

impl<V: Copy> PairMap<V> {
    /// Creates an empty map.
    pub fn new() -> (m: PairMap<V>)
        ensures
            m@ == Map::<(NodeId, NodeId), V>::empty(),
    {
        let m = PairMap { entries: HashMap::new() };
        assert(m@ =~= Map::<(NodeId, NodeId), V>::empty());
        m
    }

    /// The value of a pair.
    pub fn get(&self, a: NodeId, b: NodeId) -> (r: Option<V>)
        ensures
            r == (if self@.contains_key((a, b)) {
                Some(self@[(a, b)])
            } else {
                None
            }),
    {
        match self.entries.get(&encode(a, b)) {
            Some(v) => Some(*v),
            None => None,
        }
    }

    /// Sets the value of a pair.
    pub fn insert(&mut self, a: NodeId, b: NodeId, value: V)
        ensures
            final(self)@ == old(self)@.insert((a, b), value),
    {
        self.entries.insert(encode(a, b), value);
        proof {
            assert forall|p: (NodeId, NodeId)|
                #![trigger self@.contains_key(p)]
                self@.contains_key(p) == old(self)@.insert((a, b), value).contains_key(p) && (
                self@.contains_key(p) ==> self@[p] == old(self)@.insert((a, b), value)[p]) by {
                lemma_code_injective(p.0, p.1, a, b);
            }
            assert(self@ =~= old(self)@.insert((a, b), value));
        }
    }

    /// Removes a pair and its value.
    pub fn remove(&mut self, a: NodeId, b: NodeId)
        ensures
            final(self)@ == old(self)@.remove((a, b)),
    {
        self.entries.remove(&encode(a, b));
        proof {
            assert forall|p: (NodeId, NodeId)|
                #![trigger self@.contains_key(p)]
                self@.contains_key(p) == old(self)@.remove((a, b)).contains_key(p) && (
                self@.contains_key(p) ==> self@[p] == old(self)@.remove((a, b))[p]) by {
                lemma_code_injective(p.0, p.1, a, b);
            }
            assert(self@ =~= old(self)@.remove((a, b)));
        }
    }
}

} // verus!
