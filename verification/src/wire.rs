//! Canonical wire encoding of the broadcast protocol messages.
//!
//! Fields are laid out in a fixed order (id, originator, timestamp
//! seconds and nanoseconds, correlation tag, variant tag, variant
//! payload), integers as varints and byte strings with a varint length
//! prefix, so that the bytes to be signed are the same on every node.
//! Decoding is proved to return exactly the message that was encoded.

use vstd::prelude::*;

use crate::framing::{
    frame_enc, lemma_frame_round_trip, lemma_varint_parse_len, lemma_varint_round_trip,
    read_varint, varint_enc, varint_parse, write_frame, write_varint,
};
use crate::peer::PeerId;
use crate::topology::clone_bytes;

verus! {

/// A byte-string field: varint length prefix, then the bytes.
pub open spec fn bytes_enc(d: Seq<u8>) -> Seq<u8> {
    frame_enc(d)
}

/// What a byte-string field at the head of `s` denotes.
pub open spec fn bytes_parse(s: Seq<u8>) -> Option<(Seq<u8>, int)> {
    match varint_parse(s) {
        None => None,
        Some((v, n)) => {
            if n + v <= s.len() {
                Some((s.subrange(n, n + v), n + v))
            } else {
                None
            }
        },
    }
}

/// What a varint integer field at the head of `s` denotes.
pub open spec fn u64_parse(s: Seq<u8>) -> Option<(u64, int)> {
    match varint_parse(s) {
        None => None,
        Some((v, n)) => {
            if v <= u64::MAX {
                Some((v as u64, n))
            } else {
                None
            }
        },
    }
}

/// A byte-string field parses back to the bytes it was made from.
pub proof fn lemma_bytes_round_trip(d: Seq<u8>, rest: Seq<u8>)
    requires
        d.len() <= u64::MAX,
    ensures
        bytes_parse(bytes_enc(d) + rest) == Some((d, bytes_enc(d).len() as int)),
{
    lemma_frame_round_trip(d, rest);
    let s = bytes_enc(d) + rest;
    let n = varint_enc(d.len() as u64).len() as int;
    assert(s.subrange(n, n + d.len()) =~= d);
}

/// An integer field parses back to the value it was made from.
pub proof fn lemma_u64_round_trip(v: u64, rest: Seq<u8>)
    ensures
        u64_parse(varint_enc(v) + rest) == Some((v, varint_enc(v).len() as int)),
{
    lemma_varint_round_trip(v, rest);
}

/// The phase-tagged payload of a broadcast protocol message.
#[derive(Debug)]
pub enum RbPayload {
    /// The originator's proposal, carrying the raw payload bytes.
    PrePrepare { payload: Vec<u8> },
    /// A peer's echo of the proposal, by its digest.
    Prepare { digest: u64 },
    /// A peer's vote to deliver, with its signature over the digest.
    Commit { digest: u64, signature: Vec<u8> },
}

/// The mathematical shape of an `RbPayload`.
#[verifier::ext_equal]
pub enum RbPayloadView {
    PrePrepare { payload: Seq<u8> },
    Prepare { digest: u64 },
    Commit { digest: u64, signature: Seq<u8> },
}

impl View for RbPayload {
    type V = RbPayloadView;

    open spec fn view(&self) -> RbPayloadView {
        match self {
            RbPayload::PrePrepare { payload } => RbPayloadView::PrePrepare {
                payload: payload@,
            },
            RbPayload::Prepare { digest } => RbPayloadView::Prepare { digest: *digest },
            RbPayload::Commit { digest, signature } => RbPayloadView::Commit {
                digest: *digest,
                signature: signature@,
            },
        }
    }
}

/// One broadcast protocol message. The originator field is set once by
/// the node that first saw the payload and never rewritten.
#[derive(Debug)]
pub struct RbMsg {
    /// Unique id of the broadcast this message belongs to.
    pub id: Vec<u8>,
    /// The peer that originated the broadcast.
    pub node_id: PeerId,
    /// Wall clock at origination, seconds part. Advisory only.
    pub timestamp_secs: u64,
    /// Wall clock at origination, nanoseconds part.
    pub timestamp_nanos: u64,
    /// Application correlation tag.
    pub custom_message_id: Vec<u8>,
    /// The phase-tagged payload.
    pub payload: RbPayload,
}

/// The mathematical shape of an `RbMsg`.
#[verifier::ext_equal]
pub struct RbMsgView {
    pub id: Seq<u8>,
    pub node_id: Seq<u8>,
    pub timestamp_secs: u64,
    pub timestamp_nanos: u64,
    pub custom_message_id: Seq<u8>,
    pub payload: RbPayloadView,
}

impl View for RbMsg {
    type V = RbMsgView;

    open spec fn view(&self) -> RbMsgView {
        RbMsgView {
            id: self.id@,
            node_id: self.node_id@,
            timestamp_secs: self.timestamp_secs,
            timestamp_nanos: self.timestamp_nanos,
            custom_message_id: self.custom_message_id@,
            payload: self.payload@,
        }
    }
}

/// Whether a payload's byte strings fit a varint length prefix.
pub open spec fn payload_view_wf(p: RbPayloadView) -> bool {
    match p {
        RbPayloadView::PrePrepare { payload } => payload.len() <= u64::MAX,
        RbPayloadView::Prepare { .. } => true,
        RbPayloadView::Commit { signature, .. } => signature.len() <= u64::MAX,
    }
}

/// Whether a message's byte strings fit a varint length prefix. Every
/// message held in a `Vec` does.
pub open spec fn msg_view_wf(m: RbMsgView) -> bool {
    &&& m.id.len() <= u64::MAX
    &&& m.node_id.len() <= u64::MAX
    &&& m.custom_message_id.len() <= u64::MAX
    &&& payload_view_wf(m.payload)
}

/// The canonical encoding of a payload: one tag byte, then its fields.
pub open spec fn payload_enc(p: RbPayloadView) -> Seq<u8> {
    match p {
        RbPayloadView::PrePrepare { payload } => seq![0u8] + bytes_enc(payload),
        RbPayloadView::Prepare { digest } => seq![1u8] + varint_enc(digest),
        RbPayloadView::Commit { digest, signature } => seq![2u8] + varint_enc(digest)
            + bytes_enc(signature),
    }
}

/// What a payload at the head of `s` denotes.
pub open spec fn payload_parse(s: Seq<u8>) -> Option<(RbPayloadView, int)> {
    if s.len() == 0 {
        None
    } else if s[0] == 0 {
        match bytes_parse(s.skip(1)) {
            None => None,
            Some((payload, n)) => Some((RbPayloadView::PrePrepare { payload }, 1 + n)),
        }
    } else if s[0] == 1 {
        match u64_parse(s.skip(1)) {
            None => None,
            Some((digest, n)) => Some((RbPayloadView::Prepare { digest }, 1 + n)),
        }
    } else if s[0] == 2 {
        match u64_parse(s.skip(1)) {
            None => None,
            Some((digest, n)) => match bytes_parse(s.skip(1 + n)) {
                None => None,
                Some((signature, k)) => Some(
                    (RbPayloadView::Commit { digest, signature }, 1 + n + k),
                ),
            },
        }
    } else {
        None
    }
}

/// The canonical encoding of a whole message: fields in fixed order.
pub open spec fn msg_enc(m: RbMsgView) -> Seq<u8> {
    bytes_enc(m.id) + bytes_enc(m.node_id) + varint_enc(m.timestamp_secs) + varint_enc(
        m.timestamp_nanos,
    ) + bytes_enc(m.custom_message_id) + payload_enc(m.payload)
}

/// What a message at the head of `s` denotes.
pub open spec fn msg_parse(s: Seq<u8>) -> Option<(RbMsgView, int)> {
    match bytes_parse(s) {
        None => None,
        Some((id, n1)) => match bytes_parse(s.skip(n1)) {
            None => None,
            Some((node_id, n2)) => match u64_parse(s.skip(n1 + n2)) {
                None => None,
                Some((secs, n3)) => match u64_parse(s.skip(n1 + n2 + n3)) {
                    None => None,
                    Some((nanos, n4)) => match bytes_parse(s.skip(n1 + n2 + n3 + n4)) {
                        None => None,
                        Some((cmid, n5)) => match payload_parse(
                            s.skip(n1 + n2 + n3 + n4 + n5),
                        ) {
                            None => None,
                            Some((pl, n6)) => Some(
                                (
                                    RbMsgView {
                                        id,
                                        node_id,
                                        timestamp_secs: secs,
                                        timestamp_nanos: nanos,
                                        custom_message_id: cmid,
                                        payload: pl,
                                    },
                                    n1 + n2 + n3 + n4 + n5 + n6,
                                ),
                            ),
                        },
                    },
                },
            },
        },
    }
}

/// A payload encoding parses back to the payload it was made from.
pub proof fn lemma_payload_round_trip(p: RbPayloadView, rest: Seq<u8>)
    requires
        payload_view_wf(p),
    ensures
        payload_parse(payload_enc(p) + rest) == Some((p, payload_enc(p).len() as int)),
{
    let s = payload_enc(p) + rest;
    match p {
        RbPayloadView::PrePrepare { payload } => {
            assert(s.skip(1) =~= bytes_enc(payload) + rest);
            lemma_bytes_round_trip(payload, rest);
            assert(payload_parse(s)->Some_0.0 =~~= p);
        },
        RbPayloadView::Prepare { digest } => {
            assert(s.skip(1) =~= varint_enc(digest) + rest);
            lemma_u64_round_trip(digest, rest);
        },
        RbPayloadView::Commit { digest, signature } => {
            assert(s.skip(1) =~= varint_enc(digest) + (bytes_enc(signature) + rest));
            lemma_u64_round_trip(digest, bytes_enc(signature) + rest);
            let n = varint_enc(digest).len() as int;
            assert(s.skip(1 + n) =~= bytes_enc(signature) + rest);
            lemma_bytes_round_trip(signature, rest);
            assert(payload_parse(s)->Some_0.0 =~~= p);
        },
    }
}

/// A message encoding parses back to the message it was made from:
/// decoding an encoded message returns that message.
#[verifier::rlimit(80)]
pub proof fn lemma_msg_round_trip(m: RbMsgView, rest: Seq<u8>)
    requires
        msg_view_wf(m),
    ensures
        msg_parse(msg_enc(m) + rest) == Some((m, msg_enc(m).len() as int)),
{
    let s = msg_enc(m) + rest;
    let e1 = bytes_enc(m.id);
    let e2 = bytes_enc(m.node_id);
    let e3 = varint_enc(m.timestamp_secs);
    let e4 = varint_enc(m.timestamp_nanos);
    let e5 = bytes_enc(m.custom_message_id);
    let e6 = payload_enc(m.payload);
    let n1 = e1.len() as int;
    let n2 = e2.len() as int;
    let n3 = e3.len() as int;
    let n4 = e4.len() as int;
    let n5 = e5.len() as int;
    assert(s =~= e1 + (e2 + (e3 + (e4 + (e5 + (e6 + rest))))));
    lemma_bytes_round_trip(m.id, e2 + (e3 + (e4 + (e5 + (e6 + rest)))));
    assert(s.skip(n1) =~= e2 + (e3 + (e4 + (e5 + (e6 + rest)))));
    lemma_bytes_round_trip(m.node_id, e3 + (e4 + (e5 + (e6 + rest))));
    assert(s.skip(n1 + n2) =~= e3 + (e4 + (e5 + (e6 + rest))));
    lemma_u64_round_trip(m.timestamp_secs, e4 + (e5 + (e6 + rest)));
    assert(s.skip(n1 + n2 + n3) =~= e4 + (e5 + (e6 + rest)));
    lemma_u64_round_trip(m.timestamp_nanos, e5 + (e6 + rest));
    assert(s.skip(n1 + n2 + n3 + n4) =~= e5 + (e6 + rest));
    lemma_bytes_round_trip(m.custom_message_id, e6 + rest);
    assert(s.skip(n1 + n2 + n3 + n4 + n5) =~= e6 + rest);
    lemma_payload_round_trip(m.payload, rest);
    assert(msg_parse(s)->Some_0.0 =~~= m);
}

/// Appends a byte-string field to `out`.
pub fn write_bytes_field(out: &mut Vec<u8>, src: &Vec<u8>)
    ensures
        final(out)@ == old(out)@ + bytes_enc(src@),
{
    write_frame(out, src);
}

/// Reads a byte-string field starting at `pos`.
pub fn read_bytes_field(buf: &Vec<u8>, pos: usize) -> (r: Option<(Vec<u8>, usize)>)
    requires
        pos <= buf@.len(),
    ensures
        match bytes_parse(buf@.skip(pos as int)) {
            None => r is None,
            Some((d, n)) => {
                &&& r is Some
                &&& r->Some_0.0@ == d
                &&& r->Some_0.1 == pos + n
                &&& 0 < n
                &&& pos + n <= buf@.len()
            },
        },
{
    let buf_len = buf.len();
    proof {
        lemma_varint_parse_len(buf@.skip(pos as int));
    }
    let parsed = read_varint(buf, pos);
    match parsed {
        None => {
            proof {
                let tail = buf@.skip(pos as int);
                if varint_parse(tail) is Some {
                    let (v, n) = varint_parse(tail)->Some_0;
                    if v > u64::MAX {
                        assert(tail.len() <= buf_len <= u64::MAX);
                        assert(n + v > tail.len());
                    }
                }
            }
            None
        },
        Some((len, after)) => {
            if len > buf.len() as u64 - after as u64 {
                return None;
            }
            let len_us = len as usize;
            let mut data: Vec<u8> = Vec::new();
            let mut i: usize = 0;
            while i < len_us
                invariant
                    i <= len_us,
                    after + len_us <= buf@.len(),
                    buf@.len() <= usize::MAX,
                    data@ == buf@.subrange(after as int, after as int + i as int),
                decreases len_us - i,
            {
                data.push(buf[after + i]);
                proof {
                    assert(buf@.subrange(after as int, after as int + i as int + 1) =~= buf@
                        .subrange(after as int, after as int + i as int).push(
                        buf@[after as int + i],
                    ));
                }
                i = i + 1;
            }
            proof {
                let tail = buf@.skip(pos as int);
                let (v, n) = varint_parse(tail)->Some_0;
                assert(data@ =~= tail.subrange(n, n + v));
            }
            Some((data, after + len_us))
        },
    }
}

/// Reads an integer field starting at `pos`.
pub fn read_u64_field(buf: &Vec<u8>, pos: usize) -> (r: Option<(u64, usize)>)
    requires
        pos <= buf@.len(),
    ensures
        match u64_parse(buf@.skip(pos as int)) {
            None => r is None,
            Some((v, n)) => {
                &&& r == Some((v, (pos + n) as usize))
                &&& 0 < n
                &&& pos + n <= buf@.len()
            },
        },
{
    proof {
        lemma_varint_parse_len(buf@.skip(pos as int));
    }
    read_varint(buf, pos)
}

/// Encodes a message canonically.
pub fn encode_msg(m: &RbMsg) -> (out: Vec<u8>)
    ensures
        out@ == msg_enc(m@),
{
    let mut out: Vec<u8> = Vec::new();
    write_bytes_field(&mut out, &m.id);
    write_bytes_field(&mut out, &m.node_id.bytes);
    write_varint(&mut out, m.timestamp_secs);
    write_varint(&mut out, m.timestamp_nanos);
    write_bytes_field(&mut out, &m.custom_message_id);
    match &m.payload {
        RbPayload::PrePrepare { payload } => {
            out.push(0u8);
            write_bytes_field(&mut out, payload);
            proof {
                assert(out@ =~= msg_enc(m@));
            }
        },
        RbPayload::Prepare { digest } => {
            out.push(1u8);
            write_varint(&mut out, *digest);
            proof {
                assert(out@ =~= msg_enc(m@));
            }
        },
        RbPayload::Commit { digest, signature } => {
            out.push(2u8);
            write_varint(&mut out, *digest);
            write_bytes_field(&mut out, signature);
            proof {
                assert(out@ =~= msg_enc(m@));
            }
        },
    }
    out
}

/// Decodes the message starting at `pos`: exactly the message whose
/// canonical encoding stands there, or `None` where none does.
#[verifier::rlimit(100)]
pub fn decode_msg(buf: &Vec<u8>, pos: usize) -> (r: Option<(RbMsg, usize)>)
    requires
        pos <= buf@.len(),
    ensures
        match msg_parse(buf@.skip(pos as int)) {
            None => r is None,
            Some((mv, n)) => {
                &&& r is Some
                &&& r->Some_0.0@ == mv
                &&& r->Some_0.1 == pos + n
                &&& pos + n <= buf@.len()
            },
        },
{
    let buf_len = buf.len();
    proof {
        assert(buf@.len() == buf_len);
    }
    let ghost tail = buf@.skip(pos as int);
    let id = match read_bytes_field(buf, pos) {
        None => {
            return None;
        },
        Some(x) => x,
    };
    proof {
        assert(buf@.skip(id.1 as int) =~= tail.skip(id.1 - pos));
    }
    let node = match read_bytes_field(buf, id.1) {
        None => {
            return None;
        },
        Some(x) => x,
    };
    proof {
        assert(buf@.skip(node.1 as int) =~= tail.skip(node.1 - pos));
    }
    let secs = match read_u64_field(buf, node.1) {
        None => {
            return None;
        },
        Some(x) => x,
    };
    proof {
        assert(buf@.skip(secs.1 as int) =~= tail.skip(secs.1 - pos));
    }
    let nanos = match read_u64_field(buf, secs.1) {
        None => {
            return None;
        },
        Some(x) => x,
    };
    proof {
        assert(buf@.skip(nanos.1 as int) =~= tail.skip(nanos.1 - pos));
    }
    let cmid = match read_bytes_field(buf, nanos.1) {
        None => {
            return None;
        },
        Some(x) => x,
    };
    proof {
        assert(buf@.skip(cmid.1 as int) =~= tail.skip(cmid.1 - pos));
    }
    let ghost plpos = cmid.1 as int;
    if cmid.1 == buf.len() {
        return None;
    }
    let tag = buf[cmid.1];
    proof {
        assert(buf@.skip(plpos + 1) =~= tail.skip(plpos + 1 - pos));
        assert(tail.skip(plpos - pos)[0] == tag);
        assert(tail.skip(plpos - pos).skip(1) =~= tail.skip(plpos + 1 - pos));
    }
    if tag == 0 {
        let payload = match read_bytes_field(buf, cmid.1 + 1) {
            None => {
                return None;
            },
            Some(x) => x,
        };
        let m = RbMsg {
            id: id.0,
            node_id: PeerId { bytes: node.0 },
            timestamp_secs: secs.0,
            timestamp_nanos: nanos.0,
            custom_message_id: cmid.0,
            payload: RbPayload::PrePrepare { payload: payload.0 },
        };
        proof {
            assert(m@ =~~= msg_parse(tail)->Some_0.0);
        }
        Some((m, payload.1))
    } else if tag == 1 {
        let digest = match read_u64_field(buf, cmid.1 + 1) {
            None => {
                return None;
            },
            Some(x) => x,
        };
        let m = RbMsg {
            id: id.0,
            node_id: PeerId { bytes: node.0 },
            timestamp_secs: secs.0,
            timestamp_nanos: nanos.0,
            custom_message_id: cmid.0,
            payload: RbPayload::Prepare { digest: digest.0 },
        };
        proof {
            assert(m@ =~~= msg_parse(tail)->Some_0.0);
        }
        Some((m, digest.1))
    } else if tag == 2 {
        let digest = match read_u64_field(buf, cmid.1 + 1) {
            None => {
                return None;
            },
            Some(x) => x,
        };
        proof {
            assert(buf@.skip(digest.1 as int) =~= tail.skip(digest.1 - pos));
            assert(tail.skip(plpos - pos).skip(1 + (digest.1 - plpos - 1)) =~= tail.skip(
                digest.1 - pos,
            ));
        }
        let signature = match read_bytes_field(buf, digest.1) {
            None => {
                return None;
            },
            Some(x) => x,
        };
        let m = RbMsg {
            id: id.0,
            node_id: PeerId { bytes: node.0 },
            timestamp_secs: secs.0,
            timestamp_nanos: nanos.0,
            custom_message_id: cmid.0,
            payload: RbPayload::Commit { digest: digest.0, signature: signature.0 },
        };
        proof {
            assert(m@ =~~= msg_parse(tail)->Some_0.0);
        }
        Some((m, signature.1))
    } else {
        None
    }
}

impl RbMsg {
    /// A structurally equal copy of the message.
    pub fn duplicate(&self) -> (r: RbMsg)
        ensures
            r@ == self@,
    {
        let payload = match &self.payload {
            RbPayload::PrePrepare { payload } => RbPayload::PrePrepare {
                payload: clone_bytes(payload),
            },
            RbPayload::Prepare { digest } => RbPayload::Prepare { digest: *digest },
            RbPayload::Commit { digest, signature } => RbPayload::Commit {
                digest: *digest,
                signature: clone_bytes(signature),
            },
        };
        let r = RbMsg {
            id: clone_bytes(&self.id),
            node_id: PeerId { bytes: clone_bytes(&self.node_id.bytes) },
            timestamp_secs: self.timestamp_secs,
            timestamp_nanos: self.timestamp_nanos,
            custom_message_id: clone_bytes(&self.custom_message_id),
            payload,
        };
        proof {
            assert(r@ =~~= self@);
        }
        r
    }
}

} // verus!
