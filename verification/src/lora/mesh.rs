//! Sensor frames from LoRa nodes.
//!
//! A frame is `[node (4)][sequence (2)][type (1)][payload][MIC (4)]`. The message
//! integrity code is the start of an HMAC under the node's session key.

use crate::digest::{hmac_sha256, hmac_sha256_of};
use crate::lora::node_registry::{heard, NodeRegistry, NodeView};
use crate::payload::bytes_from_vec;
use crate::protocol::{Message, MessageView, Priority, Protocol};
use crate::text::same_bytes;
use crate::wire::{
    be_bytes,
    be_value,
    copy_range,
    lemma_be_value_of_bytes,
    lemma_pow256,
    most_significant_first,
    push_be,
    read_u32,
};
use vstd::prelude::*;
use vstd::slice::slice_subrange;

verus! {

/// The shortest frame.
pub const MIN_FRAME: usize = 12;

#[derive(Debug, Clone, Copy, PartialEq, Eq, Structural)]
pub enum MeshError {
    InvalidFrame,
    UnknownNode,
    MicMismatch,
}

impl MeshError {
    /// The error in words.
    pub fn message(&self) -> (r: &'static str)
        ensures
            r@ == match self {
                MeshError::InvalidFrame => "Invalid LoRa frame"@,
                MeshError::UnknownNode => "Unknown LoRa node"@,
                MeshError::MicMismatch => "MIC verification failed"@,
            },
    {
        match self {
            MeshError::InvalidFrame => "Invalid LoRa frame",
            MeshError::UnknownNode => "Unknown LoRa node",
            MeshError::MicMismatch => "MIC verification failed",
        }
    }
}

/// The node of a frame.
pub open spec fn node_of(s: Seq<u8>) -> u32 {
    be_value(s.subrange(0, 4)) as u32
}

/// A frame without its message integrity code.
pub open spec fn frame_body(s: Seq<u8>) -> Seq<u8> {
    s.subrange(0, s.len() - 4)
}

/// The message integrity code of a frame.
pub open spec fn frame_mic(s: Seq<u8>) -> Seq<u8> {
    s.skip(s.len() - 4)
}

/// The first bytes of an authentication code.
pub open spec fn shortened(tag: Seq<u8>) -> Seq<u8> {
    tag.subrange(0, 4)
}

/// The message in a frame.
pub open spec fn mesh_message(s: Seq<u8>, now: u64) -> MessageView {
    MessageView {
        protocol: Protocol::LoRaMesh,
        data: frame_body(s),
        priority: Priority::Operational,
        timestamp: now,
        t_event: now,
        t_system: now,
    }
}

/// Why a frame is not taken, if so. The authentication code is that of the frame
/// under its node's key.
pub open spec fn refusal(m: Map<u32, NodeView>, s: Seq<u8>, tag: Seq<u8>) -> Option<MeshError> {
    if s.len() < MIN_FRAME {
        Some(MeshError::InvalidFrame)
    } else if !m.contains_key(node_of(s)) {
        Some(MeshError::UnknownNode)
    } else if frame_mic(s) != shortened(tag) {
        Some(MeshError::MicMismatch)
    } else {
        None
    }
}

/// Whether a message integrity code is the start of an authentication code.
pub fn mic_matches(tag: &[u8], mic: &[u8]) -> (r: bool)
    requires
        tag@.len() >= 4,
    ensures
        r <==> mic@ == shortened(tag@),
{
    same_bytes(slice_subrange(tag, 0, 4), mic)
}

/// Whether a message integrity code is right for data under a key.
pub fn verify_mic(data: &[u8], mic: &[u8], key: &[u8; 16]) -> (r: bool)
    ensures
        r <==> mic@ == shortened(hmac_sha256_of(key@, data@)),
{
    let tag = hmac_sha256(key.as_slice(), data);
    mic_matches(tag.as_slice(), mic)
}

/// The message in a frame, given the authentication code of the frame under its
/// node's key. The node counts as heard where the frame is taken.
pub fn decode_with_tag(data: &[u8], tag: &[u8], registry: &mut NodeRegistry, now: u64) -> (r: Result<
    Message,
    MeshError,
>)
    requires
        old(registry).wf(),
        tag@.len() >= 4,
    ensures
        final(registry).wf(),
        match r {
            Ok(m) => refusal(old(registry)@, data@, tag@) is None && m@ == mesh_message(data@, now)
                && final(registry)@ == heard(old(registry)@, node_of(data@), now),
            Err(e) => refusal(old(registry)@, data@, tag@) == Some(e) && final(registry)@ == old(
                registry,
            )@,
        },
{
    if data.len() < MIN_FRAME {
        return Err(MeshError::InvalidFrame);
    }
    let n: usize = data.len();
    let node_id: u32 = read_u32(data, 0);
    if registry.get_node(node_id).is_none() {
        return Err(MeshError::UnknownNode);
    }
    let mic = slice_subrange(data, n - 4, n);
    assert(mic@ =~= frame_mic(data@));
    if !mic_matches(tag, mic) {
        return Err(MeshError::MicMismatch);
    }
    registry.update_last_seen(node_id, now);
    Ok(
        Message::new_with_temporal(
            Protocol::LoRaMesh,
            bytes_from_vec(copy_range(data, 0, n - 4)),
            Priority::Operational,
            now,
            now,
        ),
    )
}

/// The authentication code of a frame under the key of its node; of nothing where
/// there is no such node.
pub open spec fn expected_tag(m: Map<u32, NodeView>, s: Seq<u8>) -> Seq<u8> {
    hmac_sha256_of(m[node_of(s)].session_key, frame_body(s))
}

/// The message in a frame. The node counts as heard where the frame is taken.
pub fn decode_sensor_frame(data: &[u8], registry: &mut NodeRegistry, now: u64) -> (r: Result<
    Message,
    MeshError,
>)
    requires
        old(registry).wf(),
    ensures
        final(registry).wf(),
        match r {
            Ok(m) => refusal(old(registry)@, data@, expected_tag(old(registry)@, data@)) is None
                && m@ == mesh_message(data@, now) && final(registry)@ == heard(
                old(registry)@,
                node_of(data@),
                now,
            ),
            Err(e) => refusal(old(registry)@, data@, expected_tag(old(registry)@, data@)) == Some(
                e,
            ) && final(registry)@ == old(registry)@,
        },
{
    if data.len() < MIN_FRAME {
        return Err(MeshError::InvalidFrame);
    }
    let n: usize = data.len();
    match registry.get_node(read_u32(data, 0)) {
        None => Err(MeshError::UnknownNode),
        Some(node) => {
            let tag = hmac_sha256(node.session_key.as_slice(), slice_subrange(data, 0, n - 4));
            decode_with_tag(data, tag.as_slice(), registry, now)
        },
    }
}

/// The bytes of an acknowledgement.
pub open spec fn ack_bytes(node_id: u32, seq: u16) -> Seq<u8> {
    be_bytes(node_id as nat, 4) + be_bytes(seq as nat, 2)
}

/// The acknowledgement of a frame.
pub fn ack_frame(node_id: u32, seq: u16) -> (r: Vec<u8>)
    ensures
        r@ == ack_bytes(node_id, seq),
{
    let mut ack: Vec<u8> = Vec::new();
    push_be(&mut ack, node_id as u64, 4);
    push_be(&mut ack, seq as u64, 2);
    assert(ack@ =~= ack_bytes(node_id, seq));
    ack
}

/// A frame that a registered node closed with the right code is taken, and one
/// with any other code is not.
pub proof fn only_sealed_frames_are_taken(m: Map<u32, NodeView>, body: Seq<u8>, mic: Seq<u8>)
    requires
        body.len() >= 8,
        mic.len() == 4,
        m.contains_key(node_of(body)),
    ensures
        ({
            let s = body + mic;
            let tag = hmac_sha256_of(m[node_of(body)].session_key, body);
            &&& expected_tag(m, s) == tag
            &&& refusal(m, s, tag) == (if mic == shortened(tag) {
                None
            } else {
                Some(MeshError::MicMismatch)
            })
        }),
{
    let s = body + mic;
    assert(frame_body(s) =~= body);
    assert(frame_mic(s) =~= mic);
    assert(s.subrange(0, 4) =~= body.subrange(0, 4));
}

/// The message in a frame holds all of the frame but the four bytes of its code, at
/// operational priority and as of the time at which it came.
pub proof fn frames_are_kept_whole(body: Seq<u8>, mic: Seq<u8>, now: u64)
    requires
        body.len() >= 8,
        mic.len() == 4,
    ensures
        ({
            let m = mesh_message(body + mic, now);
            &&& m.data == body
            &&& m.protocol == Protocol::LoRaMesh
            &&& m.priority == Priority::Operational
            &&& m.timestamp == now && m.t_event == now && m.t_system == now
        }),
{
    assert(frame_body(body + mic) =~= body);
}

/// A frame is refused for its length exactly where it has less than 12 bytes, then for its
/// node exactly where no node has the number in its first four bytes, and then for its
/// code exactly where one of its last four bytes is not that of the authentication code.
pub proof fn refusals_have_their_reasons(m: Map<u32, NodeView>, s: Seq<u8>, tag: Seq<u8>, id: u32)
    requires
        tag.len() >= 4,
        s.len() >= 4 ==> id == 0x100_0000 * s[0] + 0x1_0000 * s[1] + 256 * s[2] + s[3],
    ensures
        refusal(m, s, tag) == Some(MeshError::InvalidFrame) <==> s.len() < 12,
        refusal(m, s, tag) == Some(MeshError::UnknownNode) <==> s.len() >= 12 && !m.contains_key(
            id,
        ),
        refusal(m, s, tag) is None <==> {
            &&& s.len() >= 12
            &&& m.contains_key(id)
            &&& forall|i: int| 0 <= i < 4 ==> s[s.len() - 4 + i] == #[trigger] tag[i]
        },
{
    if s.len() >= 12 {
        most_significant_first(s[0], s[1], s[2], s[3]);
        assert(s.subrange(0, 4) =~= seq![s[0], s[1], s[2], s[3]]);
        let a = frame_mic(s);
        let b = shortened(tag);
        if forall|i: int| 0 <= i < 4 ==> s[s.len() - 4 + i] == #[trigger] tag[i] {
            assert forall|i: int| 0 <= i < 4 implies a[i] == b[i] by {
                assert(b[i] == tag[i]);
            }
            assert(a =~= b);
        }
        if a == b {
            assert forall|i: int| 0 <= i < 4 implies s[s.len() - 4 + i] == #[trigger] tag[i] by {
                assert(a[i] == b[i]);
            }
        }
    }
}

/// An acknowledgement is the number of the node in four bytes and that of the frame in two.
pub proof fn acknowledgements_name_the_frame(node_id: u32, seq: u16)
    ensures
        ack_bytes(node_id, seq).len() == 6,
        be_value(ack_bytes(node_id, seq).subrange(0, 4)) == node_id,
        be_value(ack_bytes(node_id, seq).subrange(4, 6)) == seq,
{
    lemma_pow256();
    lemma_be_value_of_bytes(node_id as nat, 4);
    lemma_be_value_of_bytes(seq as nat, 2);
    assert(ack_bytes(node_id, seq).subrange(0, 4) =~= be_bytes(node_id as nat, 4));
    assert(ack_bytes(node_id, seq).subrange(4, 6) =~= be_bytes(seq as nat, 2));
}

} // verus!
