//! The peer-discovery sub-protocol codec: framed JSON messages for peer
//! exchange. The only request is `Sync`, whose JSON form is the fixed
//! object `{"Sync":null}`; a frame holding anything else is malformed.

use vstd::prelude::*;

use crate::framing::{frame_enc, read_frame, varint_parse, write_frame, CodecError,
    DEFAULT_MAX_FRAME};

verus! {

/// A message of the peer-discovery sub-protocol.
#[derive(Clone, Copy, Debug, PartialEq, Eq, Structural)]
pub enum ProtocolMessage {
    /// Ask a peer for the peers it knows.
    Sync,
}

/// The JSON bytes of `Sync`: the object `{"Sync":null}`.
pub open spec fn sync_json() -> Seq<u8> {
    seq![
        123u8,
        34u8,
        83u8,
        121u8,
        110u8,
        99u8,
        34u8,
        58u8,
        110u8,
        117u8,
        108u8,
        108u8,
        125u8,
    ]
}

/// Encodes a peer-discovery message as a frame of its JSON bytes.
pub fn encode_protocol_message(m: &ProtocolMessage) -> (r: Vec<u8>)
    ensures
        r@ == frame_enc(sync_json()),
{
    let payload: Vec<u8> = vec![
        123u8,
        34u8,
        83u8,
        121u8,
        110u8,
        99u8,
        34u8,
        58u8,
        110u8,
        117u8,
        108u8,
        108u8,
        125u8,
    ];
    let mut out: Vec<u8> = Vec::new();
    write_frame(&mut out, &payload);
    proof {
        assert(out@ =~= frame_enc(sync_json()));
    }
    out
}

/// Decodes one peer-discovery frame starting at `pos`: `Ok(None)` where
/// the frame is incomplete, `FrameTooLarge` where its declared length is
/// over the limit, `Malformed` where the frame's bytes are not the JSON
/// of a known message.
pub fn decode_protocol_message(buf: &Vec<u8>, pos: usize) -> (r: Result<
    Option<(ProtocolMessage, usize)>,
    CodecError,
>)
    requires
        pos <= buf@.len(),
    ensures
        ({
            let tail = buf@.skip(pos as int);
            match varint_parse(tail) {
                None => r == Result::<Option<(ProtocolMessage, usize)>, CodecError>::Ok(
                    Option::<(ProtocolMessage, usize)>::None,
                ),
                Some((v, n)) => {
                    if v > DEFAULT_MAX_FRAME {
                        r == Result::<Option<(ProtocolMessage, usize)>, CodecError>::Err(
                            CodecError::FrameTooLarge,
                        )
                    } else if tail.len() < n + v {
                        r == Result::<Option<(ProtocolMessage, usize)>, CodecError>::Ok(
                            Option::<(ProtocolMessage, usize)>::None,
                        )
                    } else if tail.subrange(n, n + v) == sync_json() {
                        r == Result::<Option<(ProtocolMessage, usize)>, CodecError>::Ok(
                            Option::<(ProtocolMessage, usize)>::Some(
                                (ProtocolMessage::Sync, (pos + n + v) as usize),
                            ),
                        )
                    } else {
                        r == Result::<Option<(ProtocolMessage, usize)>, CodecError>::Err(
                            CodecError::Malformed,
                        )
                    }
                },
            }
        }),
{
    let frame = match read_frame(buf, pos, DEFAULT_MAX_FRAME) {
        Err(e) => {
            return Err(e);
        },
        Ok(None) => {
            return Ok(None);
        },
        Ok(Some(x)) => x,
    };
    let expected: Vec<u8> = vec![
        123u8,
        34u8,
        83u8,
        121u8,
        110u8,
        99u8,
        34u8,
        58u8,
        110u8,
        117u8,
        108u8,
        108u8,
        125u8,
    ];
    if crate::broadcaster::bytes_eq(&frame.0, &expected) {
        proof {
            assert(expected@ =~= sync_json());
        }
        Ok(Some((ProtocolMessage::Sync, frame.1)))
    } else {
        proof {
            assert(expected@ =~= sync_json());
        }
        Err(CodecError::Malformed)
    }
}

} // verus!
