//! Provisioning of LoRa nodes.
//!
//! A node asks to join with `[node (4)][length (1)][sensor type (length)]`. It is
//! answered with `[node (4)][session key (16)]`.

use crate::lora::node_registry::{lists, node_views, NodeRegistry, NodeView};
use crate::text::{lossy_text, text_lossily};
use crate::wire::{be_bytes, be_value, push_be, push_bytes, read_u32};
use rand::Rng;
use vstd::prelude::*;
use vstd::slice::slice_subrange;

pub use crate::lora::node_registry::LoRaNode;

verus! {

#[derive(Debug, Clone, Copy, PartialEq, Eq, Structural)]
pub enum ProvisioningError {
    InvalidFrame,
}

impl ProvisioningError {
    /// The error in words.
    pub fn message(&self) -> (r: &'static str)
        ensures
            r@ == "Invalid LoRa frame"@,
    {
        "Invalid LoRa frame"
    }
}

#[derive(Debug)]
pub struct JoinRequest {
    pub node_id: u32,
    pub sensor_type: String,
}

/// Whether a byte string starts with a request to join.
pub open spec fn is_join(s: Seq<u8>) -> bool {
    s.len() >= 8 && s.len() >= 5 + s[4]
}

/// The node that asks to join.
pub open spec fn join_node(s: Seq<u8>) -> u32 {
    be_value(s.subrange(0, 4)) as u32
}

/// The sensor type that a node names.
pub open spec fn join_type(s: Seq<u8>) -> Seq<char> {
    lossy_text(s.subrange(5, 5 + s[4]))
}

/// The request to join in a frame.
pub fn parse_join_request(data: &[u8]) -> (r: Result<JoinRequest, ProvisioningError>)
    ensures
        match r {
            Ok(j) => is_join(data@) && j.node_id == join_node(data@) && j.sensor_type@
                == join_type(data@),
            Err(e) => !is_join(data@) && e == ProvisioningError::InvalidFrame,
        },
{
    if data.len() < 8 {
        return Err(ProvisioningError::InvalidFrame);
    }
    let length: usize = data[4] as usize;
    if data.len() < 5 + length {
        return Err(ProvisioningError::InvalidFrame);
    }
    Ok(
        JoinRequest {
            node_id: read_u32(data, 0),
            sensor_type: text_lossily(slice_subrange(data, 5, 5 + length)),
        },
    )
}

/// `rand::thread_rng` and `rand::Rng::fill`: a new session key. Nothing is said of
/// the result: it is drawn by chance.
#[verifier::external_body]
fn generate_session_key() -> (r: [u8; 16]) {
    let mut key = [0u8; 16];
    rand::thread_rng().fill(&mut key);
    key
}

/// The bytes of the answer to a request to join.
pub open spec fn accept_bytes(node_id: u32, key: Seq<u8>) -> Seq<u8> {
    be_bytes(node_id as nat, 4) + key
}

/// The answer to a request to join.
pub fn build_join_accept(node: &LoRaNode) -> (r: Vec<u8>)
    ensures
        r@ == accept_bytes(node.node_id, node.session_key@),
{
    let mut frame: Vec<u8> = Vec::new();
    push_be(&mut frame, node.node_id as u64, 4);
    push_bytes(&mut frame, node.session_key.as_slice());
    assert(frame@ =~= accept_bytes(node.node_id, node.session_key@));
    frame
}

/// The node that a request to join makes.
pub open spec fn joined_node(s: Seq<u8>, key: Seq<u8>, now: u64) -> NodeView {
    NodeView {
        node_id: join_node(s),
        session_key: key,
        last_seen: now,
        sensor_type: join_type(s),
    }
}

/// The nodes after a frame came in.
pub open spec fn enrolled(
    m: Map<u32, NodeView>,
    listening: bool,
    data: Seq<u8>,
    key: Seq<u8>,
    now: u64,
) -> Map<u32, NodeView> {
    if listening && is_join(data) {
        m.insert(join_node(data), joined_node(data, key, now))
    } else {
        m
    }
}

/// Takes requests to join while it is active.
pub struct LoRaProvisioningMode {
    nodes: NodeRegistry,
    active: bool,
}

impl View for LoRaProvisioningMode {
    type V = Map<u32, NodeView>;

    closed spec fn view(&self) -> Map<u32, NodeView> {
        self.nodes@
    }
}

impl LoRaProvisioningMode {
    pub closed spec fn wf(&self) -> bool {
        self.nodes.wf()
    }

    /// Whether requests are taken.
    pub closed spec fn listening(&self) -> bool {
        self.active
    }

    pub fn new() -> (r: Self)
        ensures
            r.wf(),
            r@ == Map::<u32, NodeView>::empty(),
            !r.listening(),
    {
        LoRaProvisioningMode { nodes: NodeRegistry::new(), active: false }
    }

    pub fn start(&mut self)
        requires
            old(self).wf(),
        ensures
            final(self).wf(),
            final(self)@ == old(self)@,
            final(self).listening(),
    {
        self.active = true;
    }

    pub fn stop(&mut self)
        requires
            old(self).wf(),
        ensures
            final(self).wf(),
            final(self)@ == old(self)@,
            !final(self).listening(),
    {
        self.active = false;
    }

    /// Whether requests are taken.
    pub fn is_active(&self) -> (r: bool)
        ensures
            r == self.listening(),
    {
        self.active
    }

    /// Registers the node that asks to join, with the given key, and returns the
    /// answer. `None` where nobody asks or requests are not taken.
    pub fn enroll(&mut self, data: &[u8], session_key: [u8; 16], now: u64) -> (r: Option<Vec<u8>>)
        requires
            old(self).wf(),
        ensures
            final(self).wf(),
            final(self).listening() == old(self).listening(),
            final(self)@ == enrolled(old(self)@, old(self).listening(), data@, session_key@, now),
            match r {
                Some(frame) => old(self).listening() && is_join(data@) && frame@ == accept_bytes(
                    join_node(data@),
                    session_key@,
                ) && final(self)@ == old(self)@.insert(
                    join_node(data@),
                    joined_node(data@, session_key@, now),
                ),
                None => (!old(self).listening() || !is_join(data@)) && final(self)@ == old(self)@,
            },
    {
        if !self.active {
            return None;
        }
        match parse_join_request(data) {
            Ok(request) => {
                let node = LoRaNode {
                    node_id: request.node_id,
                    session_key,
                    last_seen: now,
                    sensor_type: request.sensor_type,
                };
                let accept = build_join_accept(&node);
                self.nodes.register(node);
                Some(accept)
            },
            Err(_) => None,
        }
    }

    /// Registers the node that asks to join, with a new key drawn by chance, and
    /// returns the answer.
    pub fn on_frame(&mut self, data: &[u8], now: u64) -> (r: Option<Vec<u8>>)
        requires
            old(self).wf(),
        ensures
            final(self).wf(),
            final(self).listening() == old(self).listening(),
            r is Some <==> old(self).listening() && is_join(data@),
            match r {
                Some(frame) => exists|key: Seq<u8>|
                    key.len() == 16 && frame@ == #[trigger] accept_bytes(join_node(data@), key)
                        && final(self)@ == old(self)@.insert(
                        join_node(data@),
                        joined_node(data@, key, now),
                    ),
                None => final(self)@ == old(self)@,
            },
    {
        let key = generate_session_key();
        let r = self.enroll(data, key, now);
        proof {
            if r is Some {
                assert(key@.len() == 16);
                assert((r->0)@ == accept_bytes(join_node(data@), key@));
            }
        }
        r
    }

    /// All nodes, in no particular order.
    pub fn get_nodes(&self) -> (r: Vec<LoRaNode>)
        requires
            self.wf(),
        ensures
            lists(node_views(r@), self@, |n: NodeView| true),
    {
        self.nodes.get_all()
    }

    /// Takes a node out.
    pub fn remove_node(&mut self, node_id: u32)
        requires
            old(self).wf(),
        ensures
            final(self).wf(),
            final(self)@ == old(self)@.remove(node_id),
            final(self).listening() == old(self).listening(),
    {
        self.nodes.remove(node_id);
    }
}

/// The bytes of a request to join.
pub open spec fn join_bytes(node_id: u32, sensor_type: Seq<u8>) -> Seq<u8> {
    be_bytes(node_id as nat, 4) + seq![sensor_type.len() as u8] + sensor_type
}

/// A request whose sensor type has from 3 to 255 bytes is read as it was written.
/// A shorter one is taken for no request: the frame has fewer than 8 bytes.
pub proof fn join_is_read(node_id: u32, sensor_type: Seq<u8>)
    requires
        sensor_type.len() <= 255,
    ensures
        is_join(join_bytes(node_id, sensor_type)) <==> sensor_type.len() >= 3,
        join_node(join_bytes(node_id, sensor_type)) == node_id,
        join_type(join_bytes(node_id, sensor_type)) == lossy_text(sensor_type),
{
    let s = join_bytes(node_id, sensor_type);
    crate::wire::lemma_pow256();
    crate::wire::lemma_be_value_of_bytes(node_id as nat, 4);
    assert(s.subrange(0, 4) =~= be_bytes(node_id as nat, 4));
    assert(s[4] == sensor_type.len());
    assert(s.subrange(5, 5 + s[4]) =~= sensor_type);
}

/// The answer names the node in its first four bytes and gives it its whole key.
pub proof fn answers_give_the_key(node_id: u32, key: Seq<u8>)
    ensures
        accept_bytes(node_id, key).len() == 4 + key.len(),
        be_value(accept_bytes(node_id, key).subrange(0, 4)) == node_id,
        accept_bytes(node_id, key).skip(4) == key,
{
    crate::wire::lemma_pow256();
    crate::wire::lemma_be_value_of_bytes(node_id as nat, 4);
    assert(accept_bytes(node_id, key).subrange(0, 4) =~= be_bytes(node_id as nat, 4));
    assert(accept_bytes(node_id, key).skip(4) =~= key);
}

/// The node that joins has the number and the sensor type of the request, the key that it
/// is given, and was last heard now, whatever comes behind the request.
pub proof fn joining_registers_the_request(
    node_id: u32,
    sensor_type: Seq<u8>,
    rest: Seq<u8>,
    key: Seq<u8>,
    now: u64,
)
    requires
        3 <= sensor_type.len() <= 255,
    ensures
        ({
            let s = join_bytes(node_id, sensor_type) + rest;
            let n = joined_node(s, key, now);
            &&& is_join(s)
            &&& join_node(s) == node_id
            &&& n.node_id == node_id
            &&& n.session_key == key
            &&& n.last_seen == now
            &&& n.sensor_type == lossy_text(sensor_type)
        }),
{
    let s = join_bytes(node_id, sensor_type) + rest;
    crate::wire::lemma_pow256();
    crate::wire::lemma_be_value_of_bytes(node_id as nat, 4);
    assert(s.subrange(0, 4) =~= be_bytes(node_id as nat, 4));
    assert(s[4] == sensor_type.len());
    assert(s.subrange(5, 5 + s[4]) =~= sensor_type);
}

/// While requests are taken, a request puts its node in and touches no other; while they
/// are not, nothing does.
pub proof fn only_requests_enroll(
    m: Map<u32, NodeView>,
    node_id: u32,
    sensor_type: Seq<u8>,
    key: Seq<u8>,
    now: u64,
    other: u32,
)
    requires
        3 <= sensor_type.len() <= 255,
        other != node_id,
    ensures
        ({
            let s = join_bytes(node_id, sensor_type);
            let after = enrolled(m, true, s, key, now);
            &&& after.contains_key(node_id)
            &&& after[node_id].node_id == node_id
            &&& after[node_id].session_key == key
            &&& after[node_id].last_seen == now
            &&& after[node_id].sensor_type == lossy_text(sensor_type)
            &&& after.contains_key(other) <==> m.contains_key(other)
            &&& m.contains_key(other) ==> after[other] == m[other]
            &&& enrolled(m, false, s, key, now) == m
        }),
{
    join_is_read(node_id, sensor_type);
}

} // verus!
