//! Application check hooks: pluggable validation of inbound messages
//! and proposed blocks.
//!
//! The default application accepts everything; the
//! signature-verification application accepts a message exactly when
//! its certificate carries a signature over the message's canonical
//! encoding that verifies under the originator's known public key.

use vstd::prelude::*;

use crate::block::{encode_raw, raw_enc, ApiEphemeraMessage, ApiMsgView, Block};
use crate::crypto::{sig_valid, verify_bytes, NodeKeypair};
use crate::manager::CheckBlockResult;
use crate::peer::{Peer, PeerId};
use crate::topology::TopologySnapshot;

verus! {

/// The application that accepts every message and every block.
pub struct DummyApplication;

impl DummyApplication {
    /// Accepts every message.
    pub fn check_tx(&self, _tx: &ApiEphemeraMessage) -> (r: bool)
        ensures
            r,
    {
        true
    }

    /// Accepts every block.
    pub fn check_block(&self, _block: &Block) -> (r: CheckBlockResult)
        ensures
            r == CheckBlockResult::Accept,
    {
        CheckBlockResult::Accept
    }

    /// Takes delivery of a block without doing anything with it.
    pub fn deliver_block(&self, _block: Block) {
    }
}

/// Whether some certificate entry's signature verifies over `msg` under
/// the public key `pk`.
pub open spec fn certificate_signs(cert: Seq<(Seq<u8>, Seq<u8>)>, pk: Seq<u8>, msg: Seq<u8>) -> bool {
    exists|i: int| 0 <= i < cert.len() && sig_valid(pk, msg, (#[trigger] cert[i]).1)
}

/// Whether the message's certificate carries a signature over the
/// message's canonical encoding that verifies under the key the peers
/// list records for the message's originator.
pub open spec fn originator_signed(m: ApiMsgView, peers: Seq<Peer>) -> bool {
    exists|j: int|
        0 <= j < peers.len() && (#[trigger] peers[j]).peer_id@ == m.message.node_id
            && certificate_signs(m.certificate, peers[j].public_key@, raw_enc(m.message))
}

/// The application that checks each message's certificate against the
/// originator's known key.
pub struct SignatureVerificationApplication {
    pub keypair: NodeKeypair,
}

impl SignatureVerificationApplication {
    pub fn new(keypair: NodeKeypair) -> (r: SignatureVerificationApplication)
        ensures
            r.keypair == keypair,
    {
        SignatureVerificationApplication { keypair }
    }

    /// Whether the message's certificate carries a signature over the
    /// message's canonical encoding that verifies under the
    /// originator's known key: the key the topology snapshot records
    /// for the message's `node_id`. An originator outside the snapshot
    /// has no known key, so its messages are refused.
    pub fn verify_message(&self, msg: &ApiEphemeraMessage, topology: &TopologySnapshot) -> (r:
        bool)
        requires
            topology.wf(),
        ensures
            r == originator_signed(msg@, topology.peers@),
    {
        let pk = match topology.public_key_of(&msg.message.node_id) {
            None => {
                proof {
                    assert(!originator_signed(msg@, topology.peers@)) by {
                        if originator_signed(msg@, topology.peers@) {
                            let j = choose|j: int|
                                0 <= j < topology.peers@.len() && topology.peers@[j].peer_id@
                                    == msg@.message.node_id && certificate_signs(
                                    msg@.certificate,
                                    topology.peers@[j].public_key@,
                                    raw_enc(msg@.message),
                                );
                            assert(topology@[j] == msg@.message.node_id);
                            assert(crate::topology::ids_contain(
                                topology@,
                                msg@.message.node_id,
                            ));
                        }
                    }
                }
                return false;
            },
            Some(pk) => pk,
        };
        let ghost jw = choose|j: int|
            0 <= j < topology.peers@.len() && topology.peers@[j]@ == msg@.message.node_id && pk@
                == topology.peers@[j].public_key@;
        let encoded = encode_raw(&msg.message);
        let mut i: usize = 0;
        while i < msg.certificate.entries.len()
            invariant
                topology.wf(),
                encoded@ == raw_enc(msg@.message),
                0 <= jw < topology.peers@.len(),
                topology.peers@[jw].peer_id@ == msg@.message.node_id,
                pk@ == topology.peers@[jw].public_key@,
                i <= msg.certificate.entries.len(),
                forall|k: int|
                    0 <= k < i ==> !sig_valid(
                        topology.peers@[jw].public_key@,
                        raw_enc(msg@.message),
                        (#[trigger] msg@.certificate[k]).1,
                    ),
            decreases msg.certificate.entries.len() - i,
        {
            proof {
                assert(msg@.certificate[i as int].1 == msg.certificate.entries@[i as int].1@);
            }
            if verify_bytes(&pk, &encoded, &msg.certificate.entries[i].1) {
                proof {
                    assert(certificate_signs(
                        msg@.certificate,
                        topology.peers@[jw].public_key@,
                        raw_enc(msg@.message),
                    ));
                }
                return true;
            }
            i = i + 1;
        }
        proof {
            assert(!originator_signed(msg@, topology.peers@)) by {
                if originator_signed(msg@, topology.peers@) {
                    let j = choose|j: int|
                        0 <= j < topology.peers@.len() && topology.peers@[j].peer_id@
                            == msg@.message.node_id && certificate_signs(
                            msg@.certificate,
                            topology.peers@[j].public_key@,
                            raw_enc(msg@.message),
                        );
                    if j != jw {
                        assert(topology@[j] == topology@[jw]);
                    }
                    let k = choose|k: int|
                        0 <= k < msg@.certificate.len() && sig_valid(
                            topology.peers@[jw].public_key@,
                            raw_enc(msg@.message),
                            msg@.certificate[k].1,
                        );
                    assert(!sig_valid(
                        topology.peers@[jw].public_key@,
                        raw_enc(msg@.message),
                        msg@.certificate[k].1,
                    ));
                }
            }
        }
        false
    }

    /// Accepts a message exactly when `verify_message` does.
    pub fn check_tx(&self, tx: &ApiEphemeraMessage, topology: &TopologySnapshot) -> (r: bool)
        requires
            topology.wf(),
        ensures
            r == originator_signed(tx@, topology.peers@),
    {
        self.verify_message(tx, topology)
    }

    /// Accepts every block.
    pub fn check_block(&self, _block: &Block) -> (r: CheckBlockResult)
        ensures
            r == CheckBlockResult::Accept,
    {
        CheckBlockResult::Accept
    }

    /// Takes delivery of a block without doing anything with it.
    pub fn deliver_block(&self, _block: Block) {
    }
}

} // verus!
