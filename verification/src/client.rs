//! The reliable-broadcast client: builds `PrePrepare` requests for a
//! payload and frames them for the wire. The connection itself and the
//! payload stream live at the binary's edge.

use vstd::prelude::*;

use crate::crypto::{new_message_id, now_timestamp};
use crate::framing::{frame_enc, write_frame};
use crate::peer::PeerId;
use crate::wire::{encode_msg, msg_enc, RbMsg, RbPayload};

verus! {

/// A client that reads payloads from a stream and submits each as a
/// reliable broadcast to the node at `node_address`.
pub struct RbClient<R> {
    pub payload_stream: R,
    pub node_address: String,
}

impl<R> RbClient<R> {
    pub fn new(node_address: String, payload_stream: R) -> (r: RbClient<R>)
        ensures
            r.node_address@ == node_address@,
            r.payload_stream == payload_stream,
    {
        RbClient { payload_stream, node_address }
    }
}

/// Builds the `PrePrepare` request that submits `payload` as a new
/// broadcast: a fresh message id, the submitter as originator, the
/// clock now, and an `epoch-` correlation tag.
pub fn pre_prepare_msg(sender_id: &PeerId, payload: Vec<u8>) -> (r: RbMsg)
    ensures
        r@.node_id == sender_id@,
        r@.payload == (crate::wire::RbPayloadView::PrePrepare { payload: payload@ }),
        r@.id.len() == 36,
        r@.custom_message_id.len() == 42,
        r@.custom_message_id.take(6) =~= seq![101u8, 112u8, 111u8, 99u8, 104u8, 45u8],
{
    let id = new_message_id();
    let (secs, nanos) = now_timestamp();
    let mut custom: Vec<u8> = vec![101u8, 112u8, 111u8, 99u8, 104u8, 45u8];
    let epoch_id = new_message_id();
    crate::framing::push_bytes(&mut custom, &epoch_id);
    proof {
        assert(custom@.take(6) =~= seq![101u8, 112u8, 111u8, 99u8, 104u8, 45u8]);
    }
    RbMsg {
        id,
        node_id: PeerId { bytes: crate::topology::clone_bytes(&sender_id.bytes) },
        timestamp_secs: secs,
        timestamp_nanos: nanos,
        custom_message_id: custom,
        payload: RbPayload::PrePrepare { payload },
    }
}

/// The framed wire bytes of a request: a varint length prefix, then the
/// message's canonical encoding.
pub fn quorum_message(msg: &RbMsg) -> (r: Vec<u8>)
    ensures
        r@ == frame_enc(msg_enc(msg@)),
{
    let encoded = encode_msg(msg);
    let mut out: Vec<u8> = Vec::new();
    write_frame(&mut out, &encoded);
    proof {
        assert(out@ =~= frame_enc(msg_enc(msg@)));
    }
    out
}

} // verus!
