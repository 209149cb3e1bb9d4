//! Blocks: ordered batches of delivered messages with a header that
//! chains to the previous block, and their canonical encoding.
//!
//! The block hash is deterministic over the header without its hash
//! field and the body; heights are contiguous per node and
//! `previous_hash` links each block to the one below it.

use vstd::prelude::*;

use crate::broadcaster::DeliveredMessage;
use crate::certificate::{
    cert_enc, cert_parse, decode_certificate, encode_certificate, entries_wf,
    lemma_cert_round_trip, Certificate,
};
use crate::digest::{fnv1a, fnv1a_hash};
use crate::framing::{
    push_bytes,
    lemma_varint_parse_len, lemma_varint_round_trip, read_varint, varint_enc, varint_parse,
    write_varint,
};
use crate::peer::PeerId;
use crate::topology::clone_bytes;
use crate::wire::{
    bytes_enc, bytes_parse, lemma_bytes_round_trip, read_bytes_field, read_u64_field, u64_parse,
    write_bytes_field,
};

verus! {

/// A delivered message as the rest of the system sees it, before its
/// certificate is attached: what gets signed.
#[derive(Debug)]
pub struct RawApiEphemeraMessage {
    /// The broadcast's unique id.
    pub id: Vec<u8>,
    /// The peer that originated the message.
    pub node_id: PeerId,
    /// The application's correlation tag.
    pub custom_message_id: Vec<u8>,
    /// The payload the application submitted.
    pub payload: Vec<u8>,
}

/// The mathematical shape of a raw message.
#[verifier::ext_equal]
pub struct RawApiMsgView {
    pub id: Seq<u8>,
    pub node_id: Seq<u8>,
    pub custom_message_id: Seq<u8>,
    pub payload: Seq<u8>,
}

impl View for RawApiEphemeraMessage {
    type V = RawApiMsgView;

    open spec fn view(&self) -> RawApiMsgView {
        RawApiMsgView {
            id: self.id@,
            node_id: self.node_id@,
            custom_message_id: self.custom_message_id@,
            payload: self.payload@,
        }
    }
}

/// A delivered message together with the certificate it earned.
#[derive(Debug)]
pub struct ApiEphemeraMessage {
    pub message: RawApiEphemeraMessage,
    pub certificate: Certificate,
}

/// The mathematical shape of a certified message.
#[verifier::ext_equal]
pub struct ApiMsgView {
    pub message: RawApiMsgView,
    pub certificate: Seq<(Seq<u8>, Seq<u8>)>,
}

impl View for ApiEphemeraMessage {
    type V = ApiMsgView;

    open spec fn view(&self) -> ApiMsgView {
        ApiMsgView { message: self.message@, certificate: self.certificate@ }
    }
}

impl ApiEphemeraMessage {
    /// The certified form of a message the broadcast delivered.
    pub fn from_delivered(d: DeliveredMessage) -> (r: ApiEphemeraMessage)
        ensures
            r@.message.id == d.message_id@,
            r@.message.node_id == d.originator@,
            r@.message.custom_message_id == d.custom_message_id@,
            r@.message.payload == d.payload@,
            r@.certificate == d.certificate@,
    {
        ApiEphemeraMessage {
            message: RawApiEphemeraMessage {
                id: d.message_id,
                node_id: d.originator,
                custom_message_id: d.custom_message_id,
                payload: d.payload,
            },
            certificate: d.certificate,
        }
    }
}

/// The header of a block.
#[derive(Debug)]
pub struct BlockHeader {
    /// Position in this node's chain, starting at 0.
    pub height: u64,
    /// The hash of the block below; zero for the genesis block.
    pub previous_hash: u64,
    /// The block's own hash, deterministic over the rest of the block.
    pub hash: u64,
    /// Wall clock when the block was built.
    pub timestamp: u64,
    /// The peer that built the block.
    pub proposer: PeerId,
}

/// The mathematical shape of a block header.
#[verifier::ext_equal]
pub struct HeaderView {
    pub height: u64,
    pub previous_hash: u64,
    pub hash: u64,
    pub timestamp: u64,
    pub proposer: Seq<u8>,
}

impl View for BlockHeader {
    type V = HeaderView;

    open spec fn view(&self) -> HeaderView {
        HeaderView {
            height: self.height,
            previous_hash: self.previous_hash,
            hash: self.hash,
            timestamp: self.timestamp,
            proposer: self.proposer@,
        }
    }
}

/// A sealed block: header plus the ordered delivered messages.
#[derive(Debug)]
pub struct Block {
    pub header: BlockHeader,
    pub messages: Vec<ApiEphemeraMessage>,
}

/// The mathematical shape of a block.
#[verifier::ext_equal]
pub struct BlockView {
    pub header: HeaderView,
    pub messages: Seq<ApiMsgView>,
}

impl View for Block {
    type V = BlockView;

    open spec fn view(&self) -> BlockView {
        BlockView {
            header: self.header@,
            messages: self.messages@.map_values(|m: ApiEphemeraMessage| m@),
        }
    }
}

/// The canonical encoding of a raw message: fields in fixed order.
pub open spec fn raw_enc(m: RawApiMsgView) -> Seq<u8> {
    bytes_enc(m.id) + bytes_enc(m.node_id) + bytes_enc(m.custom_message_id) + bytes_enc(m.payload)
}

/// What a raw message at the head of `s` denotes.
pub open spec fn raw_parse(s: Seq<u8>) -> Option<(RawApiMsgView, int)> {
    match bytes_parse(s) {
        None => None,
        Some((id, n1)) => match bytes_parse(s.skip(n1)) {
            None => None,
            Some((node_id, n2)) => match bytes_parse(s.skip(n1 + n2)) {
                None => None,
                Some((cmid, n3)) => match bytes_parse(s.skip(n1 + n2 + n3)) {
                    None => None,
                    Some((payload, n4)) => Some(
                        (
                            RawApiMsgView {
                                id,
                                node_id,
                                custom_message_id: cmid,
                                payload,
                            },
                            n1 + n2 + n3 + n4,
                        ),
                    ),
                },
            },
        },
    }
}

/// Whether a raw message's byte strings fit a varint length prefix.
pub open spec fn raw_wf(m: RawApiMsgView) -> bool {
    &&& m.id.len() <= u64::MAX
    &&& m.node_id.len() <= u64::MAX
    &&& m.custom_message_id.len() <= u64::MAX
    &&& m.payload.len() <= u64::MAX
}

/// A raw message's encoding parses back to it.
pub proof fn lemma_raw_round_trip(m: RawApiMsgView, rest: Seq<u8>)
    requires
        raw_wf(m),
    ensures
        raw_parse(raw_enc(m) + rest) == Some((m, raw_enc(m).len() as int)),
{
    let s = raw_enc(m) + rest;
    let e1 = bytes_enc(m.id);
    let e2 = bytes_enc(m.node_id);
    let e3 = bytes_enc(m.custom_message_id);
    let e4 = bytes_enc(m.payload);
    let n1 = e1.len() as int;
    let n2 = e2.len() as int;
    let n3 = e3.len() as int;
    assert(s =~= e1 + (e2 + (e3 + (e4 + rest))));
    lemma_bytes_round_trip(m.id, e2 + (e3 + (e4 + rest)));
    assert(s.skip(n1) =~= e2 + (e3 + (e4 + rest)));
    lemma_bytes_round_trip(m.node_id, e3 + (e4 + rest));
    assert(s.skip(n1 + n2) =~= e3 + (e4 + rest));
    lemma_bytes_round_trip(m.custom_message_id, e4 + rest);
    assert(s.skip(n1 + n2 + n3) =~= e4 + rest);
    lemma_bytes_round_trip(m.payload, rest);
    assert(raw_parse(s)->Some_0.0 =~~= m);
}

/// The canonical encoding of a certified message.
pub open spec fn api_msg_enc(m: ApiMsgView) -> Seq<u8> {
    raw_enc(m.message) + cert_enc(m.certificate)
}

/// What a certified message at the head of `s` denotes.
pub open spec fn api_msg_parse(s: Seq<u8>) -> Option<(ApiMsgView, int)> {
    match raw_parse(s) {
        None => None,
        Some((m, n)) => match cert_parse(s.skip(n)) {
            None => None,
            Some((c, k)) => Some((ApiMsgView { message: m, certificate: c }, n + k)),
        },
    }
}

/// Whether a certified message's byte strings fit a varint length
/// prefix.
pub open spec fn api_msg_wf(m: ApiMsgView) -> bool {
    &&& raw_wf(m.message)
    &&& entries_wf(m.certificate)
    &&& m.certificate.len() <= u64::MAX
}

/// A certified message's encoding parses back to it.
pub proof fn lemma_api_msg_round_trip(m: ApiMsgView, rest: Seq<u8>)
    requires
        api_msg_wf(m),
    ensures
        api_msg_parse(api_msg_enc(m) + rest) == Some((m, api_msg_enc(m).len() as int)),
{
    let s = api_msg_enc(m) + rest;
    assert(s =~= raw_enc(m.message) + (cert_enc(m.certificate) + rest));
    lemma_raw_round_trip(m.message, cert_enc(m.certificate) + rest);
    assert(s.skip(raw_enc(m.message).len() as int) =~= cert_enc(m.certificate) + rest);
    lemma_cert_round_trip(m.certificate, rest);
    assert(api_msg_parse(s)->Some_0.0 =~~= m);
}

/// The canonical encoding of a sequence of certified messages.
pub open spec fn msgs_enc(ms: Seq<ApiMsgView>) -> Seq<u8>
    decreases ms.len(),
{
    if ms.len() == 0 {
        Seq::<u8>::empty()
    } else {
        api_msg_enc(ms[0]) + msgs_enc(ms.skip(1))
    }
}

/// What `k` certified messages at the head of `s` denote.
pub open spec fn msgs_parse(s: Seq<u8>, k: int) -> Option<(Seq<ApiMsgView>, int)>
    decreases k,
{
    if k <= 0 {
        Some((Seq::<ApiMsgView>::empty(), 0))
    } else {
        match api_msg_parse(s) {
            None => None,
            Some((m, n)) => match msgs_parse(s.skip(n), k - 1) {
                None => None,
                Some((ms, t)) => Some((seq![m] + ms, n + t)),
            },
        }
    }
}

/// Whether every message of the sequence is encodable.
pub open spec fn msgs_wf(ms: Seq<ApiMsgView>) -> bool {
    forall|i: int| 0 <= i < ms.len() ==> api_msg_wf(#[trigger] ms[i])
}

/// A sequence of message encodings parses back to those messages.
pub proof fn lemma_msgs_round_trip(ms: Seq<ApiMsgView>, rest: Seq<u8>)
    requires
        msgs_wf(ms),
    ensures
        msgs_parse(msgs_enc(ms) + rest, ms.len() as int) == Some(
            (ms, msgs_enc(ms).len() as int),
        ),
    decreases ms.len(),
{
    if ms.len() == 0 {
        assert(ms =~= Seq::<ApiMsgView>::empty());
    } else {
        let s = msgs_enc(ms) + rest;
        assert(s =~= api_msg_enc(ms[0]) + (msgs_enc(ms.skip(1)) + rest));
        lemma_api_msg_round_trip(ms[0], msgs_enc(ms.skip(1)) + rest);
        assert(s.skip(api_msg_enc(ms[0]).len() as int) =~= msgs_enc(ms.skip(1)) + rest);
        assert(msgs_wf(ms.skip(1)));
        lemma_msgs_round_trip(ms.skip(1), rest);
        assert(seq![ms[0]] + ms.skip(1) =~= ms);
    }
}

/// The encoding of the header without its hash field: what the block
/// hash is computed over, together with the body.
pub open spec fn pre_hash_enc(h: HeaderView) -> Seq<u8> {
    varint_enc(h.height) + varint_enc(h.previous_hash) + varint_enc(h.timestamp) + bytes_enc(
        h.proposer,
    )
}

/// The canonical encoding of a whole block: the hashed fields, then the
/// hash, then the body.
pub open spec fn block_enc(b: BlockView) -> Seq<u8> {
    header_enc(b.header) + varint_enc(b.messages.len() as u64) + msgs_enc(b.messages)
}

/// The deterministic hash of a block: over the header without its hash
/// field, and the body.
pub open spec fn block_hash_of(h: HeaderView, ms: Seq<ApiMsgView>) -> u64 {
    fnv1a(pre_hash_enc(h) + varint_enc(ms.len() as u64) + msgs_enc(ms))
}

/// The canonical encoding of a whole header.
pub open spec fn header_enc(h: HeaderView) -> Seq<u8> {
    pre_hash_enc(h) + varint_enc(h.hash)
}

/// What a header at the head of `s` denotes.
pub open spec fn header_parse(s: Seq<u8>) -> Option<(HeaderView, int)> {
    match u64_parse(s) {
        None => None,
        Some((height, n1)) => match u64_parse(s.skip(n1)) {
            None => None,
            Some((previous_hash, n2)) => match u64_parse(s.skip(n1 + n2)) {
                None => None,
                Some((timestamp, n3)) => match bytes_parse(s.skip(n1 + n2 + n3)) {
                    None => None,
                    Some((proposer, n4)) => match u64_parse(s.skip(n1 + n2 + n3 + n4)) {
                        None => None,
                        Some((hash, n5)) => Some(
                            (
                                HeaderView { height, previous_hash, hash, timestamp, proposer },
                                n1 + n2 + n3 + n4 + n5,
                            ),
                        ),
                    },
                },
            },
        },
    }
}

/// A header's encoding parses back to it.
#[verifier::rlimit(100)]
#[verifier::spinoff_prover]
pub proof fn lemma_header_round_trip(h: HeaderView, rest: Seq<u8>)
    requires
        h.proposer.len() <= u64::MAX,
    ensures
        header_parse(header_enc(h) + rest) == Some((h, header_enc(h).len() as int)),
{
    let s = header_enc(h) + rest;
    let e1 = varint_enc(h.height);
    let e2 = varint_enc(h.previous_hash);
    let e3 = varint_enc(h.timestamp);
    let e4 = bytes_enc(h.proposer);
    let e5 = varint_enc(h.hash);
    let n1 = e1.len() as int;
    let n2 = e2.len() as int;
    let n3 = e3.len() as int;
    let n4 = e4.len() as int;
    assert(s =~= e1 + (e2 + (e3 + (e4 + (e5 + rest)))));
    lemma_u64_round_trip_local(h.height, e2 + (e3 + (e4 + (e5 + rest))));
    assert(s.skip(n1) =~= e2 + (e3 + (e4 + (e5 + rest))));
    lemma_u64_round_trip_local(h.previous_hash, e3 + (e4 + (e5 + rest)));
    assert(s.skip(n1 + n2) =~= e3 + (e4 + (e5 + rest)));
    lemma_u64_round_trip_local(h.timestamp, e4 + (e5 + rest));
    assert(s.skip(n1 + n2 + n3) =~= e4 + (e5 + rest));
    lemma_bytes_round_trip(h.proposer, e5 + rest);
    assert(s.skip(n1 + n2 + n3 + n4) =~= e5 + rest);
    lemma_u64_round_trip_local(h.hash, rest);
    assert(header_parse(s)->Some_0.0 =~~= h);
}

/// What a block at the head of `s` denotes.
pub open spec fn block_parse(s: Seq<u8>) -> Option<(BlockView, int)> {
    match header_parse(s) {
        None => None,
        Some((h, n)) => match varint_parse(s.skip(n)) {
            None => None,
            Some((k, n6)) => match msgs_parse(s.skip(n + n6), k) {
                None => None,
                Some((ms, n7)) => Some(
                    (BlockView { header: h, messages: ms }, n + n6 + n7),
                ),
            },
        },
    }
}

/// Whether a block's byte strings fit a varint length prefix.
pub open spec fn block_wf(b: BlockView) -> bool {
    &&& b.header.proposer.len() <= u64::MAX
    &&& b.messages.len() <= u64::MAX
    &&& msgs_wf(b.messages)
}

/// A block's encoding parses back to the block: decoding an encoded
/// block returns that block.
pub proof fn lemma_block_round_trip(b: BlockView, rest: Seq<u8>)
    requires
        block_wf(b),
    ensures
        block_parse(block_enc(b) + rest) == Some((b, block_enc(b).len() as int)),
{
    let s = block_enc(b) + rest;
    let eh = header_enc(b.header);
    let e6 = varint_enc(b.messages.len() as u64);
    let e7 = msgs_enc(b.messages);
    let nh = eh.len() as int;
    let n6 = e6.len() as int;
    assert(s =~= eh + (e6 + (e7 + rest)));
    lemma_header_round_trip(b.header, e6 + (e7 + rest));
    assert(s.skip(nh) =~= e6 + (e7 + rest));
    lemma_varint_round_trip(b.messages.len() as u64, e7 + rest);
    assert(s.skip(nh + n6) =~= e7 + rest);
    lemma_msgs_round_trip(b.messages, rest);
    assert(block_parse(s)->Some_0.0 =~~= b);
}

/// An integer field parses back to the value it was made from.
proof fn lemma_u64_round_trip_local(v: u64, rest: Seq<u8>)
    ensures
        u64_parse(varint_enc(v) + rest) == Some((v, varint_enc(v).len() as int)),
{
    lemma_varint_round_trip(v, rest);
}

/// Encodes a raw message canonically.
pub fn encode_raw(m: &RawApiEphemeraMessage) -> (out: Vec<u8>)
    ensures
        out@ == raw_enc(m@),
{
    let mut out: Vec<u8> = Vec::new();
    write_bytes_field(&mut out, &m.id);
    write_bytes_field(&mut out, &m.node_id.bytes);
    write_bytes_field(&mut out, &m.custom_message_id);
    write_bytes_field(&mut out, &m.payload);
    proof {
        assert(out@ =~= raw_enc(m@));
    }
    out
}

/// Appends the canonical encoding of a certified message to `out`.
pub fn write_api_msg(out: &mut Vec<u8>, m: &ApiEphemeraMessage)
    ensures
        final(out)@ == old(out)@ + api_msg_enc(m@),
{
    let raw = encode_raw(&m.message);
    push_bytes(out, &raw);
    let cert = encode_certificate(&m.certificate);
    push_bytes(out, &cert);
    proof {
        assert(out@ =~= old(out)@ + api_msg_enc(m@));
    }
}

/// Encodes a block canonically: the hashed header fields, the hash, the
/// message count and the messages.
pub fn encode_block(b: &Block) -> (out: Vec<u8>)
    ensures
        out@ == block_enc(b@),
{
    let mut out: Vec<u8> = Vec::new();
    write_varint(&mut out, b.header.height);
    write_varint(&mut out, b.header.previous_hash);
    write_varint(&mut out, b.header.timestamp);
    write_bytes_field(&mut out, &b.header.proposer.bytes);
    write_varint(&mut out, b.header.hash);
    write_varint(&mut out, b.messages.len() as u64);
    proof {
        assert(out@ =~= header_enc(b@.header) + varint_enc(b@.messages.len() as u64));
    }
    let ghost base = out@;
    let mut i: usize = 0;
    proof {
        assert(msgs_enc(b@.messages.take(0)) =~= Seq::<u8>::empty());
        assert(base + msgs_enc(b@.messages.take(0)) =~= base);
    }
    while i < b.messages.len()
        invariant
            i <= b.messages.len(),
            base == header_enc(b@.header) + varint_enc(b@.messages.len() as u64),
            out@ == base + msgs_enc(b@.messages.take(i as int)),
        decreases b.messages.len() - i,
    {
        let ghost before = out@;
        write_api_msg(&mut out, &b.messages[i]);
        proof {
            lemma_msgs_enc_push(b@.messages.take(i as int), b@.messages[i as int]);
            assert(b@.messages.take(i as int).push(b@.messages[i as int]) =~= b@.messages.take(
                i as int + 1,
            ));
        }
        i = i + 1;
    }
    proof {
        assert(b@.messages.take(b@.messages.len() as int) =~= b@.messages);
        assert(out@ =~= block_enc(b@));
    }
    out
}

/// Appending one message extends the encoding by that message's
/// encoding.
pub proof fn lemma_msgs_enc_push(ms: Seq<ApiMsgView>, m: ApiMsgView)
    ensures
        msgs_enc(ms.push(m)) == msgs_enc(ms) + api_msg_enc(m),
    decreases ms.len(),
{
    if ms.len() == 0 {
        assert(ms.push(m)[0] == m);
        assert(ms.push(m).skip(1) =~= Seq::<ApiMsgView>::empty());
        assert(msgs_enc(ms.push(m).skip(1)) == Seq::<u8>::empty());
        assert(api_msg_enc(m) + Seq::<u8>::empty() =~= api_msg_enc(m));
        assert(msgs_enc(ms) + api_msg_enc(m) =~= api_msg_enc(m));
    } else {
        assert(ms.push(m)[0] == ms[0]);
        assert(ms.push(m).skip(1) =~= ms.skip(1).push(m));
        lemma_msgs_enc_push(ms.skip(1), m);
        assert(api_msg_enc(ms[0]) + (msgs_enc(ms.skip(1)) + api_msg_enc(m)) =~= (api_msg_enc(
            ms[0],
        ) + msgs_enc(ms.skip(1))) + api_msg_enc(m));
        assert(msgs_enc(ms.push(m)) == api_msg_enc(ms[0]) + (msgs_enc(ms.skip(1)) + api_msg_enc(
            m,
        )));
    }
}

/// The hash a sealed block must carry: deterministic over the header
/// without its hash field, and the body.
pub fn seal_hash(header: &BlockHeader, messages: &Vec<ApiEphemeraMessage>) -> (h: u64)
    ensures
        h == block_hash_of(header@, messages@.map_values(|m: ApiEphemeraMessage| m@)),
{
    let ghost ms = messages@.map_values(|m: ApiEphemeraMessage| m@);
    let mut buf: Vec<u8> = Vec::new();
    write_varint(&mut buf, header.height);
    write_varint(&mut buf, header.previous_hash);
    write_varint(&mut buf, header.timestamp);
    write_bytes_field(&mut buf, &header.proposer.bytes);
    write_varint(&mut buf, messages.len() as u64);
    proof {
        assert(buf@ =~= pre_hash_enc(header@) + varint_enc(ms.len() as u64));
    }
    let ghost base = buf@;
    let mut i: usize = 0;
    proof {
        assert(msgs_enc(ms.take(0)) =~= Seq::<u8>::empty());
        assert(base + msgs_enc(ms.take(0)) =~= base);
    }
    while i < messages.len()
        invariant
            i <= messages.len(),
            ms == messages@.map_values(|m: ApiEphemeraMessage| m@),
            base == pre_hash_enc(header@) + varint_enc(ms.len() as u64),
            buf@ == base + msgs_enc(ms.take(i as int)),
        decreases messages.len() - i,
    {
        write_api_msg(&mut buf, &messages[i]);
        proof {
            lemma_msgs_enc_push(ms.take(i as int), ms[i as int]);
            assert(ms.take(i as int).push(ms[i as int]) =~= ms.take(i as int + 1));
        }
        i = i + 1;
    }
    proof {
        assert(ms.take(ms.len() as int) =~= ms);
        assert(buf@ =~= pre_hash_enc(header@) + varint_enc(ms.len() as u64) + msgs_enc(ms));
    }
    fnv1a_hash(&buf)
}

/// Decodes the raw message starting at `pos`.
pub fn decode_raw(buf: &Vec<u8>, pos: usize) -> (r: Option<(RawApiEphemeraMessage, usize)>)
    requires
        pos <= buf@.len(),
    ensures
        match raw_parse(buf@.skip(pos as int)) {
            None => r is None,
            Some((mv, n)) => {
                &&& r is Some
                &&& r->Some_0.0@ == mv
                &&& r->Some_0.1 == pos + n
                &&& 0 < n
                &&& pos + n <= buf@.len()
            },
        },
{
    let ghost tail = buf@.skip(pos as int);
    let id = match read_bytes_field(buf, pos) {
        None => {
            return None;
        },
        Some(x) => x,
    };
    proof {
        assert(buf@.skip(id.1 as int) =~= tail.skip(id.1 - pos));
    }
    let node = match read_bytes_field(buf, id.1) {
        None => {
            return None;
        },
        Some(x) => x,
    };
    proof {
        assert(buf@.skip(node.1 as int) =~= tail.skip(node.1 - pos));
    }
    let cmid = match read_bytes_field(buf, node.1) {
        None => {
            return None;
        },
        Some(x) => x,
    };
    proof {
        assert(buf@.skip(cmid.1 as int) =~= tail.skip(cmid.1 - pos));
    }
    let payload = match read_bytes_field(buf, cmid.1) {
        None => {
            return None;
        },
        Some(x) => x,
    };
    let m = RawApiEphemeraMessage {
        id: id.0,
        node_id: PeerId { bytes: node.0 },
        custom_message_id: cmid.0,
        payload: payload.0,
    };
    proof {
        assert(m@ =~~= raw_parse(tail)->Some_0.0);
    }
    Some((m, payload.1))
}

/// Decodes the certified message starting at `pos`.
pub fn decode_api_msg(buf: &Vec<u8>, pos: usize) -> (r: Option<(ApiEphemeraMessage, usize)>)
    requires
        pos <= buf@.len(),
    ensures
        match api_msg_parse(buf@.skip(pos as int)) {
            None => r is None,
            Some((mv, n)) => {
                &&& r is Some
                &&& r->Some_0.0@ == mv
                &&& r->Some_0.1 == pos + n
                &&& 0 < n
                &&& pos + n <= buf@.len()
            },
        },
{
    let ghost tail = buf@.skip(pos as int);
    let raw = match decode_raw(buf, pos) {
        None => {
            return None;
        },
        Some(x) => x,
    };
    proof {
        assert(buf@.skip(raw.1 as int) =~= tail.skip(raw.1 - pos));
    }
    let cert = match decode_certificate(buf, raw.1) {
        None => {
            return None;
        },
        Some(x) => x,
    };
    let m = ApiEphemeraMessage { message: raw.0, certificate: cert.0 };
    proof {
        assert(m@ =~~= api_msg_parse(tail)->Some_0.0);
    }
    Some((m, cert.1))
}

/// Decodes the block starting at `pos`: exactly the block whose
/// canonical encoding stands there, or `None` where none does.
#[verifier::rlimit(100)]
pub fn decode_block(buf: &Vec<u8>, pos: usize) -> (r: Option<(Block, usize)>)
    requires
        pos <= buf@.len(),
    ensures
        match block_parse(buf@.skip(pos as int)) {
            None => r is None,
            Some((bv, n)) => {
                &&& r is Some
                &&& r->Some_0.0@ == bv
                &&& r->Some_0.1 == pos + n
                &&& pos + n <= buf@.len()
            },
        },
{
    let buf_len = buf.len();
    let ghost tail = buf@.skip(pos as int);
    let height = match read_u64_field(buf, pos) {
        None => {
            return None;
        },
        Some(x) => x,
    };
    proof {
        assert(buf@.skip(height.1 as int) =~= tail.skip(height.1 - pos));
    }
    let prev = match read_u64_field(buf, height.1) {
        None => {
            return None;
        },
        Some(x) => x,
    };
    proof {
        assert(buf@.skip(prev.1 as int) =~= tail.skip(prev.1 - pos));
    }
    let ts = match read_u64_field(buf, prev.1) {
        None => {
            return None;
        },
        Some(x) => x,
    };
    proof {
        assert(buf@.skip(ts.1 as int) =~= tail.skip(ts.1 - pos));
    }
    let proposer = match read_bytes_field(buf, ts.1) {
        None => {
            return None;
        },
        Some(x) => x,
    };
    proof {
        assert(buf@.skip(proposer.1 as int) =~= tail.skip(proposer.1 - pos));
    }
    let hash = match read_u64_field(buf, proposer.1) {
        None => {
            return None;
        },
        Some(x) => x,
    };
    proof {
        assert(buf@.skip(hash.1 as int) =~= tail.skip(hash.1 - pos));
        lemma_varint_parse_len(buf@.skip(hash.1 as int));
    }
    let ghost hn = hash.1 - pos;
    let count = match read_varint(buf, hash.1) {
        None => {
            proof {
                if varint_parse(tail.skip(hn)) is Some {
                    let (v, n) = varint_parse(tail.skip(hn))->Some_0;
                    if v > u64::MAX {
                        lemma_msgs_parse_len(tail.skip(hn + n), v);
                        if msgs_parse(tail.skip(hn + n), v) is Some {
                            let (ms, t) = msgs_parse(tail.skip(hn + n), v)->Some_0;
                            assert(t >= ms.len() == v > u64::MAX >= buf_len >= tail.skip(
                                hn + n,
                            ).len() >= t);
                        }
                    }
                }
            }
            return None;
        },
        Some(x) => x,
    };
    let mut msgs: Vec<ApiEphemeraMessage> = Vec::new();
    let mut j: u64 = 0;
    let mut p = count.1;
    let ghost n0 = count.1 - pos;
    proof {
        assert(header_parse(tail) == Some(
            (
                HeaderView {
                    height: height.0,
                    previous_hash: prev.0,
                    hash: hash.0,
                    timestamp: ts.0,
                    proposer: proposer.0@,
                },
                hn,
            ),
        ));
        assert(buf@.skip(p as int) =~= tail.skip(n0));
        assert(msgs@.map_values(|m: ApiEphemeraMessage| m@) =~= Seq::<ApiMsgView>::empty());
        let inner = msgs_parse(buf@.skip(p as int), count.0 as int);
        if inner is Some {
            assert(Seq::<ApiMsgView>::empty() + inner->Some_0.0 =~= inner->Some_0.0);
        }
    }
    while j < count.0
        invariant
            pos + n0 <= p <= buf@.len(),
            buf@.len() <= usize::MAX,
            j <= count.0,
            tail == buf@.skip(pos as int),
            varint_parse(tail.skip(hn)) == Some((count.0 as int, n0 - hn)),
            header_parse(tail) == Some(
                (
                    HeaderView {
                        height: height.0,
                        previous_hash: prev.0,
                        hash: hash.0,
                        timestamp: ts.0,
                        proposer: proposer.0@,
                    },
                    hn,
                ),
            ),
            ({
                let acc = msgs@.map_values(|m: ApiEphemeraMessage| m@);
                match msgs_parse(buf@.skip(p as int), count.0 as int - j as int) {
                    None => msgs_parse(tail.skip(n0), count.0 as int) is None,
                    Some((ms2, t2)) => msgs_parse(tail.skip(n0), count.0 as int) == Some(
                        (acc + ms2, (p - pos - n0) + t2),
                    ),
                }
            }),
        decreases count.0 - j,
    {
        let ghost acc = msgs@.map_values(|m: ApiEphemeraMessage| m@);
        let m = match decode_api_msg(buf, p) {
            None => {
                return None;
            },
            Some(x) => x,
        };
        proof {
            assert(buf@.skip(m.1 as int) =~= buf@.skip(p as int).skip(m.1 - p));
        }
        msgs.push(m.0);
        proof {
            let acc2 = msgs@.map_values(|x: ApiEphemeraMessage| x@);
            assert(acc2 =~= acc.push(m.0@));
            let inner = msgs_parse(buf@.skip(m.1 as int), count.0 as int - j as int - 1);
            if inner is Some {
                let (ms3, t3) = inner->Some_0;
                assert(acc.push(m.0@) + ms3 =~= acc + (seq![m.0@] + ms3));
            }
        }
        p = m.1;
        j = j + 1;
    }
    proof {
        let acc = msgs@.map_values(|m: ApiEphemeraMessage| m@);
        assert(msgs_parse(buf@.skip(p as int), 0) == Some((Seq::<ApiMsgView>::empty(), 0int)));
        assert(acc + Seq::<ApiMsgView>::empty() =~= acc);
    }
    let b = Block {
        header: BlockHeader {
            height: height.0,
            previous_hash: prev.0,
            hash: hash.0,
            timestamp: ts.0,
            proposer: PeerId { bytes: proposer.0 },
        },
        messages: msgs,
    };
    proof {
        assert(b@ =~~= block_parse(tail)->Some_0.0);
    }
    Some((b, p))
}

/// Parsing `k` messages takes at least `k` bytes, so a count over the
/// buffer's length can never parse.
pub proof fn lemma_msgs_parse_len(s: Seq<u8>, k: int)
    ensures
        msgs_parse(s, k) is Some ==> {
            let (ms, t) = msgs_parse(s, k)->Some_0;
            &&& ms.len() == if k >= 0 { k } else { 0 }
            &&& 0 <= t <= s.len()
            &&& t >= ms.len()
        },
    decreases k,
{
    if k > 0 {
        if api_msg_parse(s) is Some {
            let (m, n) = api_msg_parse(s)->Some_0;
            lemma_api_msg_parse_len(s);
            lemma_msgs_parse_len(s.skip(n), k - 1);
        }
    }
}

/// A parsed certified message took at least one byte and no more than
/// the bytes that are there.
pub proof fn lemma_api_msg_parse_len(s: Seq<u8>)
    ensures
        api_msg_parse(s) is Some ==> {
            let (m, n) = api_msg_parse(s)->Some_0;
            0 < n <= s.len()
        },
{
    if raw_parse(s) is Some {
        lemma_varint_parse_len(s);
        let (id, n1) = bytes_parse(s)->Some_0;
        if bytes_parse(s.skip(n1)) is Some {
            lemma_varint_parse_len(s.skip(n1));
            let n2 = bytes_parse(s.skip(n1))->Some_0.1;
            if bytes_parse(s.skip(n1 + n2)) is Some {
                lemma_varint_parse_len(s.skip(n1 + n2));
                let n3 = bytes_parse(s.skip(n1 + n2))->Some_0.1;
                if bytes_parse(s.skip(n1 + n2 + n3)) is Some {
                    lemma_varint_parse_len(s.skip(n1 + n2 + n3));
                    let (m, n) = raw_parse(s)->Some_0;
                    if cert_parse(s.skip(n)) is Some {
                        lemma_cert_parse_len(s.skip(n));
                    }
                }
            }
        }
    }
}

/// A parsed certificate fits in the bytes that are there.
pub proof fn lemma_cert_parse_len(s: Seq<u8>)
    ensures
        cert_parse(s) is Some ==> {
            let (es, n) = cert_parse(s)->Some_0;
            0 <= n <= s.len()
        },
{
    if varint_parse(s) is Some {
        lemma_varint_parse_len(s);
        let (k, n) = varint_parse(s)->Some_0;
        crate::certificate::lemma_entries_parse_len(s.skip(n), k);
    }
}

} // verus!
