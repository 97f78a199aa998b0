//! The registry of sensor hubs.

use crate::batcher::{elapsed, elapsed_ms};
use crate::seqs::map_keys;
use std::collections::HashMap;
use vstd::prelude::*;

verus! {

broadcast use vstd::std_specs::hash::group_hash_axioms;

/// After how long a silent node is stale, in milliseconds.
pub const STALE_AFTER_MS: u64 = 3_600_000;

#[derive(Debug)]
pub struct LoRaNode {
    pub node_id: u32,
    pub session_key: [u8; 16],
    /// Unix time in milliseconds.
    pub last_seen: u64,
    pub sensor_type: String,
}

/// What is known of a node.
#[verifier::ext_equal]
pub struct NodeView {
    pub node_id: u32,
    pub session_key: Seq<u8>,
    pub last_seen: u64,
    pub sensor_type: Seq<char>,
}

impl View for LoRaNode {
    type V = NodeView;

    open spec fn view(&self) -> NodeView {
        NodeView {
            node_id: self.node_id,
            session_key: self.session_key@,
            last_seen: self.last_seen,
            sensor_type: self.sensor_type@,
        }
    }
}

impl Clone for LoRaNode {
    fn clone(&self) -> (r: Self)
        ensures
            r@ == self@,
    {
        LoRaNode {
            node_id: self.node_id,
            session_key: self.session_key,
            last_seen: self.last_seen,
            sensor_type: self.sensor_type.clone(),
        }
    }
}

/// What is known of a list of nodes.
pub open spec fn node_views(s: Seq<LoRaNode>) -> Seq<NodeView> {
    s.map_values(|n: LoRaNode| n@)
}

/// Whether a node has been silent for too long.
pub open spec fn is_stale(n: NodeView, now: u64) -> bool {
    elapsed(n.last_seen, now) > STALE_AFTER_MS
}

/// Nodes that have been silent for too long.
pub open spec fn staleness(now: u64) -> spec_fn(NodeView) -> bool {
    |n: NodeView| is_stale(n, now)
}

/// Whether a list holds the nodes of a registry that a predicate names, each once,
/// in whatever order.
pub open spec fn lists(s: Seq<NodeView>, m: Map<u32, NodeView>, p: spec_fn(NodeView) -> bool) -> bool {
    &&& forall|i: int|
        0 <= i < s.len() ==> m.contains_key((#[trigger] s[i]).node_id) && m[s[i].node_id] == s[i]
            && p(s[i])
    &&& forall|k: u32| #[trigger]
        m.contains_key(k) && p(m[k]) ==> exists|i: int| 0 <= i < s.len() && s[i] == m[k]
    &&& forall|i: int, j: int|
        0 <= i < j < s.len() ==> (#[trigger] s[i]).node_id != (#[trigger] s[j]).node_id
}

pub struct NodeRegistry {
    nodes: HashMap<u32, LoRaNode>,
}

impl View for NodeRegistry {
    type V = Map<u32, NodeView>;

    closed spec fn view(&self) -> Map<u32, NodeView> {
        self.nodes@.map_values(|n: LoRaNode| n@)
    }
}

impl NodeRegistry {
    /// Each node stands under its own number.
    pub open spec fn wf(&self) -> bool {
        forall|k: u32| #[trigger] self@.contains_key(k) ==> self@[k].node_id == k
    }

    pub fn new() -> (r: Self)
        ensures
            r.wf(),
            r@ == Map::<u32, NodeView>::empty(),
    {
        let r = NodeRegistry { nodes: HashMap::new() };
        assert(r@ =~= Map::<u32, NodeView>::empty());
        r
    }

    /// Puts a node in, in place of the one with the same number.
    pub fn register(&mut self, node: LoRaNode)
        requires
            old(self).wf(),
        ensures
            final(self).wf(),
            final(self)@ == old(self)@.insert(node.node_id, node@),
    {
        let ghost before = self@;
        self.nodes.insert(node.node_id, node);
        assert(self@ =~= before.insert(node.node_id, node@));
    }

    /// The node with a number, if there is one.
    pub fn get_node(&self, node_id: u32) -> (r: Option<LoRaNode>)
        ensures
            match r {
                Some(n) => self@.contains_key(node_id) && n@ == self@[node_id],
                None => !self@.contains_key(node_id),
            },
    {
        match self.nodes.get(&node_id) {
            Some(n) => Some(n.clone()),
            None => None,
        }
    }

    /// Takes note that a node was heard at the given time.
    pub fn update_last_seen(&mut self, node_id: u32, now: u64)
        requires
            old(self).wf(),
        ensures
            final(self).wf(),
            final(self)@ == heard(old(self)@, node_id, now),
    {
        let ghost before = self@;
        if let Some(node) = self.get_node(node_id) {
            let mut node = node;
            node.last_seen = now;
            self.nodes.insert(node_id, node);
            assert(self@ =~= before.insert(node_id, node@));
        }
    }

    /// Takes a node out.
    pub fn remove(&mut self, node_id: u32)
        requires
            old(self).wf(),
        ensures
            final(self).wf(),
            final(self)@ == old(self)@.remove(node_id),
    {
        let ghost before = self@;
        self.nodes.remove(&node_id);
        assert(self@ =~= before.remove(node_id));
    }

    /// All nodes, in no particular order.
    pub fn get_all(&self) -> (r: Vec<LoRaNode>)
        requires
            self.wf(),
        ensures
            lists(node_views(r@), self@, |n: NodeView| true),
    {
        self.select(false, 0)
    }

    /// The nodes that were not heard within the last hour, in no particular order.
    pub fn get_stale(&self, now: u64) -> (r: Vec<LoRaNode>)
        requires
            self.wf(),
        ensures
            lists(node_views(r@), self@, staleness(now)),
    {
        self.select(true, now)
    }

    fn select(&self, stale_only: bool, now: u64) -> (r: Vec<LoRaNode>)
        requires
            self.wf(),
        ensures
            stale_only ==> lists(node_views(r@), self@, staleness(now)),
            !stale_only ==> lists(node_views(r@), self@, |n: NodeView| true),
    {
        let ghost p = |n: NodeView| !stale_only || is_stale(n, now);
        let ghost m = self@;
        let keys = map_keys(&self.nodes);
        let mut out: Vec<LoRaNode> = Vec::new();
        let mut i: usize = 0;
        assert(m.dom() =~= self.nodes@.dom());
        while i < keys.len()
            invariant
                i <= keys@.len(),
                m == self@,
                self.wf(),
                keys@.no_duplicates(),
                keys@.to_set() == m.dom(),
                p == (|n: NodeView| !stale_only || is_stale(n, now)),
                forall|a: int|
                    0 <= a < out@.len() ==> m.contains_key((#[trigger] out@[a])@.node_id)
                        && m[out@[a]@.node_id] == out@[a]@ && p(out@[a]@) && exists|b: int|
                        0 <= b < i && keys@[b] == out@[a]@.node_id,
                forall|b: int|
                    0 <= b < i && p(m[#[trigger] keys@[b]]) ==> exists|a: int|
                        0 <= a < out@.len() && out@[a]@ == m[keys@[b]],
                forall|a: int, b: int|
                    0 <= a < b < out@.len() ==> (#[trigger] out@[a])@.node_id != (
                    #[trigger] out@[b])@.node_id,
            decreases keys@.len() - i,
        {
            let k: u32 = keys[i];
            let ghost before = out@;
            assert(keys@.to_set().contains(k));
            if let Some(node) = self.get_node(k) {
                if !stale_only || elapsed_ms(node.last_seen, now) > STALE_AFTER_MS {
                    out.push(node);
                    proof {
                        assert forall|a: int| 0 <= a < out@.len() implies m.contains_key(
                            (#[trigger] out@[a])@.node_id,
                        ) && m[out@[a]@.node_id] == out@[a]@ && p(out@[a]@) && exists|b: int|
                            0 <= b < i + 1 && keys@[b] == out@[a]@.node_id by {
                            if a < before.len() {
                                assert(out@[a] == before[a]);
                                let b = choose|b: int| 0 <= b < i && keys@[b] == before[a]@.node_id;
                                assert(0 <= b < i + 1 && keys@[b] == out@[a]@.node_id);
                            } else {
                                assert(keys@[i as int] == out@[a]@.node_id);
                            }
                        }
                        assert forall|a: int, b: int| 0 <= a < b < out@.len() implies (
                        #[trigger] out@[a])@.node_id != (#[trigger] out@[b])@.node_id by {
                            assert(out@[a] == before[a]);
                            if b == before.len() {
                                let c = choose|c: int| 0 <= c < i && keys@[c] == before[a]@.node_id;
                                assert(keys@[c] != keys@[i as int]);
                            }
                        }
                        assert forall|b: int|
                            0 <= b < i + 1 && p(m[#[trigger] keys@[b]]) implies exists|a: int|
                            0 <= a < out@.len() && out@[a]@ == m[keys@[b]] by {
                            if b < i {
                                let a = choose|a: int|
                                    0 <= a < before.len() && before[a]@ == m[keys@[b]];
                                assert(out@[a]@ == m[keys@[b]]);
                            } else {
                                assert(out@[before.len() as int]@ == m[keys@[b]]);
                            }
                        }
                    }
                }
            }
            proof {
                assert forall|a: int| 0 <= a < out@.len() implies exists|b: int|
                    0 <= b < i + 1 && keys@[b] == (#[trigger] out@[a])@.node_id by {
                    let b = choose|b: int| 0 <= b < i + 1 && keys@[b] == out@[a]@.node_id;
                    assert(keys@[b] == out@[a]@.node_id);
                }
            }
            i = i + 1;
        }
        proof {
            let s = node_views(out@);
            assert forall|k: u32| #[trigger] m.contains_key(k) && p(m[k]) implies exists|a: int|
                0 <= a < s.len() && s[a] == m[k] by {
                assert(keys@.to_set().contains(k));
                let b = choose|b: int| 0 <= b < keys@.len() && keys@[b] == k;
                let a = choose|a: int| 0 <= a < out@.len() && out@[a]@ == m[keys@[b]];
                assert(s[a] == m[k]);
            }
            assert(lists(s, m, p));
            if stale_only {
                assert(p =~= staleness(now));
            } else {
                assert(p =~= (|n: NodeView| true));
            }
        }
        out
    }

    pub fn count(&self) -> (r: usize)
        ensures
            r == self@.len(),
    {
        assert(self@.dom() =~= self.nodes@.dom());
        self.nodes.len()
    }
}

/// The registry after a node was heard.
pub open spec fn heard(m: Map<u32, NodeView>, node_id: u32, now: u64) -> Map<u32, NodeView> {
    if m.contains_key(node_id) {
        m.insert(node_id, NodeView { last_seen: now, ..m[node_id] })
    } else {
        m
    }
}

/// A node that was heard is not stale within the next hour, and hearing it tells
/// nothing of the others.
pub proof fn heard_nodes_are_fresh(m: Map<u32, NodeView>, node_id: u32, other: u32, t: u64, now: u64)
    requires
        m.contains_key(node_id),
        other != node_id,
        elapsed(t, now) <= STALE_AFTER_MS,
    ensures
        !is_stale(heard(m, node_id, t)[node_id], now),
        m.contains_key(other) ==> heard(m, node_id, t)[other] == m[other],
        heard(m, node_id, t).dom() == m.dom(),
{
    assert(heard(m, node_id, t).dom() =~= m.dom());
}

/// A list of the stale nodes holds a node of the registry exactly where more than an hour
/// has gone by since it was last heard.
pub proof fn stale_nodes_are_listed(s: Seq<NodeView>, m: Map<u32, NodeView>, k: u32, now: u64)
    requires
        lists(s, m, staleness(now)),
        m.contains_key(k),
        m[k].node_id == k,
    ensures
        s.contains(m[k]) <==> now > m[k].last_seen + 3_600_000,
{
    if is_stale(m[k], now) {
        assert(staleness(now)(m[k]));
    }
    if s.contains(m[k]) {
        let i = choose|i: int| 0 <= i < s.len() && s[i] == m[k];
        assert(staleness(now)(s[i]));
    }
}

/// Hearing a node changes nothing of it but the time, and hearing an unknown one changes
/// nothing at all.
pub proof fn hearing_keeps_the_node(m: Map<u32, NodeView>, k: u32, now: u64)
    ensures
        !m.contains_key(k) ==> heard(m, k, now) == m,
        m.contains_key(k) ==> {
            &&& heard(m, k, now)[k].last_seen == now
            &&& heard(m, k, now)[k].session_key == m[k].session_key
            &&& heard(m, k, now)[k].node_id == m[k].node_id
            &&& heard(m, k, now)[k].sensor_type == m[k].sensor_type
        },
{
}

} // verus!
