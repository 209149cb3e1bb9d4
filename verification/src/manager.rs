//! The block manager and its storage.
//!
//! Delivered messages queue in an inbox; each tick drains up to a cap
//! of them into a block whose header chains to the last persisted
//! block. A block is persisted only with a certificate whose every
//! signature verifies against the block's hash bytes under the public
//! key of a peer of the topology; the persisted chain has contiguous
//! heights from zero and each block's `previous_hash` is the hash of
//! the block below it.

use vstd::prelude::*;

use crate::block::{
    block_hash_of, seal_hash, ApiEphemeraMessage, ApiMsgView, Block, BlockHeader, BlockView,
    HeaderView,
};
use crate::certificate::Certificate;
use crate::crypto::sig_valid;
use crate::framing::{varint_enc, write_varint};
use crate::peer::{Peer, PeerId};
use crate::topology::{clone_bytes, TopologySnapshot};

verus! {

/// What the application says of a proposed block.
#[derive(Clone, Copy, Debug, PartialEq, Eq, Structural)]
pub enum CheckBlockResult {
    /// Persist and broadcast the block.
    Accept,
    /// Discard the block.
    Reject,
    /// Put its messages back and try again next tick.
    Postpone,
}

/// What became of a block a peer sent.
#[derive(Clone, Copy, Debug, PartialEq, Eq, Structural)]
pub enum BlockAcceptance {
    /// The block extended the local chain.
    Extended,
    /// The block does not fit on the local chain; the chain is left
    /// alone.
    Forked,
}

/// Whether `blocks` forms a sound chain: heights contiguous from zero,
/// the genesis `previous_hash` zero, and every later block linking to
/// the hash of the block below it.
pub open spec fn chain_wf(blocks: Seq<BlockView>) -> bool {
    &&& forall|i: int| 0 <= i < blocks.len() ==> (#[trigger] blocks[i]).header.height == i
    &&& forall|i: int|
        1 <= i < blocks.len() ==> (#[trigger] blocks[i]).header.previous_hash == blocks[
            i - 1
        ].header.hash
    &&& blocks.len() > 0 ==> blocks[0].header.previous_hash == 0
}

/// Every persisted block chains to the block below it: its
/// `previous_hash` is that block's hash, and the genesis block's is
/// zero.
pub proof fn lemma_chain_linked(blocks: Seq<BlockView>, i: int)
    requires
        chain_wf(blocks),
        0 <= i < blocks.len(),
    ensures
        blocks[i].header.height == i,
        i > 0 ==> blocks[i].header.previous_hash == blocks[i - 1].header.hash,
        i == 0 ==> blocks[i].header.previous_hash == 0,
{
}

/// The bytes a certificate signature covers for a block: the varint
/// encoding of the block's hash.
pub open spec fn block_sign_bytes(hash: u64) -> Seq<u8> {
    varint_enc(hash)
}

/// Computes the bytes a certificate signature covers for a block.
pub fn hash_sign_bytes(hash: u64) -> (r: Vec<u8>)
    ensures
        r@ == block_sign_bytes(hash),
{
    let mut out: Vec<u8> = Vec::new();
    write_varint(&mut out, hash);
    proof {
        assert(out@ =~= block_sign_bytes(hash));
    }
    out
}

/// Whether one certificate entry carries a signature that verifies
/// over `msg` under the public key the peers list records for it.
pub open spec fn entry_signed(e: (Seq<u8>, Seq<u8>), peers: Seq<Peer>, msg: Seq<u8>) -> bool {
    exists|j: int|
        0 <= j < peers.len() && peers[j].peer_id@ == e.0 && sig_valid(
            peers[j].public_key@,
            msg,
            e.1,
        )
}

/// Whether every entry of a certificate verifies over `msg` under the
/// public key that the topology records for its peer.
pub open spec fn cert_valid_for(
    entries: Seq<(Seq<u8>, Seq<u8>)>,
    peers: Seq<Peer>,
    msg: Seq<u8>,
) -> bool {
    forall|i: int| 0 <= i < entries.len() ==> entry_signed(#[trigger] entries[i], peers, msg)
}

/// Checks a certificate against a topology snapshot: every signature
/// must verify over `msg` under the public key of its peer, and a peer
/// outside the snapshot fails the whole certificate.
pub fn verify_certificate(cert: &Certificate, topology: &TopologySnapshot, msg: &Vec<u8>) -> (r:
    bool)
    requires
        topology.wf(),
    ensures
        r == cert_valid_for(cert@, topology.peers@, msg@),
{
    let mut i: usize = 0;
    while i < cert.entries.len()
        invariant
            topology.wf(),
            i <= cert.entries.len(),
            forall|k: int|
                0 <= k < i ==> entry_signed(#[trigger] cert@[k], topology.peers@, msg@),
        decreases cert.entries.len() - i,
    {
        proof {
            assert(cert@[i as int] == (cert.entries@[i as int].0@, cert.entries@[i as int].1@));
        }
        let pk = match topology.public_key_of(&cert.entries[i].0) {
            None => {
                proof {
                    assert(!entry_signed(cert@[i as int], topology.peers@, msg@)) by {
                        if entry_signed(cert@[i as int], topology.peers@, msg@) {
                            let j = choose|j: int|
                                0 <= j < topology.peers@.len() && topology.peers@[j].peer_id@
                                    == cert@[i as int].0 && sig_valid(
                                    topology.peers@[j].public_key@,
                                    msg@,
                                    cert@[i as int].1,
                                );
                            assert(topology@[j] == cert@[i as int].0);
                            assert(crate::topology::ids_contain(topology@, cert@[i as int].0));
                        }
                    }
                    assert(!cert_valid_for(cert@, topology.peers@, msg@));
                }
                return false;
            },
            Some(pk) => pk,
        };
        let ok = crate::crypto::verify_bytes(&pk, msg, &cert.entries[i].1);
        if !ok {
            proof {
                let jw = choose|j: int|
                    0 <= j < topology.peers@.len() && topology.peers@[j]@ == cert@[i as int].0
                        && pk@ == topology.peers@[j].public_key@;
                assert(!entry_signed(cert@[i as int], topology.peers@, msg@)) by {
                    if entry_signed(cert@[i as int], topology.peers@, msg@) {
                        let j = choose|j: int|
                            0 <= j < topology.peers@.len() && topology.peers@[j].peer_id@
                                == cert@[i as int].0 && sig_valid(
                                topology.peers@[j].public_key@,
                                msg@,
                                cert@[i as int].1,
                            );
                        if j != jw {
                            assert(topology@[j] == topology@[jw]);
                        }
                    }
                }
                assert(!cert_valid_for(cert@, topology.peers@, msg@));
            }
            return false;
        }
        proof {
            let jw = choose|j: int|
                0 <= j < topology.peers@.len() && topology.peers@[j]@ == cert@[i as int].0 && pk@
                    == topology.peers@[j].public_key@;
            assert(entry_signed(cert@[i as int], topology.peers@, msg@)) by {
                assert(0 <= jw < topology.peers@.len() && topology.peers@[jw].peer_id@ == cert@[
                    i as int
                ].0 && sig_valid(topology.peers@[jw].public_key@, msg@, cert@[i as int].1));
            }
        }
        i = i + 1;
    }
    proof {
        assert(cert@.len() == cert.entries@.len());
    }
    true
}

/// The persisted state of one node: the block chain and the
/// certificates, all visible atomically at the block granularity.
#[derive(Debug)]
pub struct InMemoryStorage {
    /// The chain, by height.
    pub blocks: Vec<Block>,
    /// The certificate persisted with each block, by block hash.
    pub block_certificates: Vec<(u64, Certificate)>,
    /// Per-message certificates, by message digest.
    pub message_certificates: Vec<(u64, Certificate)>,
}

impl InMemoryStorage {
    /// The persisted chain, mathematically.
    pub open spec fn chain(&self) -> Seq<BlockView> {
        self.blocks@.map_values(|b: Block| b@)
    }

    /// An empty store.
    pub fn new() -> (r: InMemoryStorage)
        ensures
            r.chain() =~= Seq::<BlockView>::empty(),
            r.block_certificates@.len() == 0,
            r.message_certificates@.len() == 0,
            chain_wf(r.chain()),
    {
        let r = InMemoryStorage {
            blocks: Vec::new(),
            block_certificates: Vec::new(),
            message_certificates: Vec::new(),
        };
        proof {
            assert(r.chain() =~= Seq::<BlockView>::empty());
        }
        r
    }

    /// How many blocks are persisted.
    pub fn height(&self) -> (n: usize)
        ensures
            n == self.chain().len(),
    {
        self.blocks.len()
    }

    /// The block at height `h`, if persisted.
    pub fn get_block_by_height(&self, h: u64) -> (r: Option<&Block>)
        ensures
            match r {
                Some(b) => h < self.chain().len() && b@ == self.chain()[h as int],
                None => h >= self.chain().len(),
            },
    {
        if (h as usize) < self.blocks.len() && h <= usize::MAX as u64 {
            let b = &self.blocks[h as usize];
            proof {
                assert(b@ == self.chain()[h as int]);
            }
            Some(b)
        } else {
            None
        }
    }

    /// The block whose header carries `hash`, if one is persisted.
    pub fn get_block_by_hash(&self, hash: u64) -> (r: Option<&Block>)
        ensures
            match r {
                Some(b) => exists|i: int|
                    0 <= i < self.chain().len() && self.chain()[i].header.hash == hash && b@
                        == self.chain()[i],
                None => forall|i: int|
                    0 <= i < self.chain().len() ==> (#[trigger] self.chain()[i]).header.hash
                        != hash,
            },
    {
        let mut i: usize = 0;
        while i < self.blocks.len()
            invariant
                i <= self.blocks.len(),
                forall|j: int| 0 <= j < i ==> (#[trigger] self.chain()[j]).header.hash != hash,
            decreases self.blocks.len() - i,
        {
            if self.blocks[i].header.hash == hash {
                proof {
                    assert(self.chain()[i as int].header.hash == hash);
                }
                return Some(&self.blocks[i]);
            }
            i = i + 1;
        }
        None
    }

    /// The last persisted block, if any.
    pub fn get_last_block(&self) -> (r: Option<&Block>)
        ensures
            match r {
                Some(b) => self.chain().len() > 0 && b@ == self.chain()[self.chain().len() - 1],
                None => self.chain().len() == 0,
            },
    {
        if self.blocks.len() > 0 {
            Some(&self.blocks[self.blocks.len() - 1])
        } else {
            None
        }
    }

    /// The certificate persisted with the block whose hash is `hash`.
    pub fn get_block_certificates(&self, hash: u64) -> (r: Option<&Certificate>)
        ensures
            match r {
                Some(c) => exists|i: int|
                    0 <= i < self.block_certificates@.len() && self.block_certificates@[i].0
                        == hash && c@ == self.block_certificates@[i].1@,
                None => forall|i: int|
                    0 <= i < self.block_certificates@.len()
                        ==> (#[trigger] self.block_certificates@[i]).0 != hash,
            },
    {
        let mut i: usize = 0;
        while i < self.block_certificates.len()
            invariant
                i <= self.block_certificates.len(),
                forall|j: int|
                    0 <= j < i ==> (#[trigger] self.block_certificates@[j]).0 != hash,
            decreases self.block_certificates.len() - i,
        {
            if self.block_certificates[i].0 == hash {
                return Some(&self.block_certificates[i].1);
            }
            i = i + 1;
        }
        None
    }

    /// Persists a block and its certificate atomically. The block must
    /// extend the chain — its height is the next one and its
    /// `previous_hash` is the hash of the last block (zero for the
    /// genesis block) — and the certificate must hold at most one
    /// signature per peer, each verifying over the block's hash bytes
    /// under the public key the topology in force records for its peer,
    /// so nothing unvouched or double-counted is ever persisted.
    pub fn store_block(&mut self, b: Block, cert: Certificate, topology: &TopologySnapshot)
        requires
            chain_wf(old(self).chain()),
            topology.wf(),
            cert.wf(),
            cert_valid_for(cert@, topology.peers@, block_sign_bytes(b@.header.hash)),
            b@.header.height == old(self).chain().len(),
            old(self).chain().len() == 0 ==> b@.header.previous_hash == 0,
            old(self).chain().len() > 0 ==> b@.header.previous_hash == old(self).chain()[
                old(self).chain().len() - 1
            ].header.hash,
        ensures
            chain_wf(final(self).chain()),
            final(self).chain() == old(self).chain().push(b@),
            final(self).block_certificates@ == old(self).block_certificates@.push(
                (b@.header.hash, cert),
            ),
            final(self).message_certificates@ == old(self).message_certificates@,
    {
        let ghost prev = self.chain();
        let hash = b.header.hash;
        self.blocks.push(b);
        self.block_certificates.push((hash, cert));
        proof {
            assert(self.chain() =~= prev.push(b@));
        }
    }

    /// Persists the certificate a delivered message earned, keyed by
    /// its digest.
    pub fn store_message_certificate(&mut self, digest: u64, cert: Certificate)
        ensures
            final(self).message_certificates@ == old(self).message_certificates@.push(
                (digest, cert),
            ),
            final(self).blocks@ == old(self).blocks@,
            final(self).block_certificates@ == old(self).block_certificates@,
    {
        self.message_certificates.push((digest, cert));
    }
}

/// The block manager: drains delivered messages into sealed blocks on a
/// tick and keeps the persisted chain sound.
#[derive(Debug)]
pub struct BlockManager {
    /// The peer that proposes this node's blocks.
    pub proposer: PeerId,
    /// The persisted state.
    pub storage: InMemoryStorage,
    /// Delivered messages awaiting the next block.
    pub inbox: Vec<ApiEphemeraMessage>,
    /// How many messages one block may carry at most.
    pub max_messages: usize,
    /// Whether a tick without messages still seals a block.
    pub empty_blocks_allowed: bool,
}

impl BlockManager {
    /// The persisted chain.
    pub open spec fn chain(&self) -> Seq<BlockView> {
        self.storage.chain()
    }

    /// The inbox, mathematically.
    pub open spec fn inbox_view(&self) -> Seq<ApiMsgView> {
        self.inbox@.map_values(|m: ApiEphemeraMessage| m@)
    }

    /// A fresh manager over an empty store.
    pub fn new(proposer: PeerId, max_messages: usize, empty_blocks_allowed: bool) -> (r:
        BlockManager)
        ensures
            chain_wf(r.chain()),
            r.chain().len() == 0,
            r.inbox_view() =~= Seq::<ApiMsgView>::empty(),
            r.proposer@ == proposer@,
            r.max_messages == max_messages,
            r.empty_blocks_allowed == empty_blocks_allowed,
    {
        let r = BlockManager {
            proposer,
            storage: InMemoryStorage::new(),
            inbox: Vec::new(),
            max_messages,
            empty_blocks_allowed,
        };
        proof {
            assert(r.inbox_view() =~= Seq::<ApiMsgView>::empty());
        }
        r
    }

    /// Queues a delivered message for the next block.
    pub fn on_delivered(&mut self, m: ApiEphemeraMessage)
        ensures
            final(self).inbox_view() == old(self).inbox_view().push(m@),
            final(self).storage == old(self).storage,
            final(self).proposer == old(self).proposer,
            final(self).max_messages == old(self).max_messages,
            final(self).empty_blocks_allowed == old(self).empty_blocks_allowed,
    {
        let ghost prev = self.inbox_view();
        self.inbox.push(m);
        proof {
            assert(self.inbox_view() =~= prev.push(m@));
        }
    }

    /// One block-building tick: drains up to `max_messages` messages
    /// from the front of the inbox into a sealed block whose header
    /// carries the next height, the last block's hash (zero on an empty
    /// chain) and the deterministic hash over its contents. Where the
    /// inbox is empty and empty blocks are not allowed, nothing happens.
    pub fn build_next(&mut self, timestamp: u64) -> (r: Option<Block>)
        requires
            old(self).chain().len() < u64::MAX,
        ensures
            final(self).storage == old(self).storage,
            final(self).proposer == old(self).proposer,
            final(self).max_messages == old(self).max_messages,
            final(self).empty_blocks_allowed == old(self).empty_blocks_allowed,
            ({
                let k = if old(self).inbox_view().len() <= old(self).max_messages {
                    old(self).inbox_view().len() as int
                } else {
                    old(self).max_messages as int
                };
                if k == 0 && !old(self).empty_blocks_allowed {
                    &&& r is None
                    &&& final(self).inbox_view() == old(self).inbox_view()
                } else {
                    let b = r->Some_0;
                    &&& r is Some
                    &&& final(self).inbox_view() == old(self).inbox_view().skip(k)
                    &&& b@.messages == old(self).inbox_view().take(k)
                    &&& b@.header.height == old(self).chain().len()
                    &&& b@.header.timestamp == timestamp
                    &&& b@.header.proposer == old(self).proposer@
                    &&& b@.header.previous_hash == (if old(self).chain().len() == 0 {
                        0u64
                    } else {
                        old(self).chain()[old(self).chain().len() - 1].header.hash
                    })
                    &&& b@.header.hash == block_hash_of(b@.header, b@.messages)
                }
            }),
    {
        let ghost old_inbox = self.inbox_view();
        let take_n = if self.inbox.len() <= self.max_messages {
            self.inbox.len()
        } else {
            self.max_messages
        };
        if take_n == 0 && !self.empty_blocks_allowed {
            return None;
        }
        let mut msgs = self.inbox.split_off(take_n);
        std::mem::swap(&mut self.inbox, &mut msgs);
        proof {
            assert(self.inbox_view() =~= old_inbox.skip(take_n as int));
            assert(msgs@.map_values(|m: ApiEphemeraMessage| m@) =~= old_inbox.take(take_n as int));
        }
        let previous_hash = if self.storage.blocks.len() == 0 {
            0u64
        } else {
            self.storage.blocks[self.storage.blocks.len() - 1].header.hash
        };
        let mut header = BlockHeader {
            height: self.storage.blocks.len() as u64,
            previous_hash,
            hash: 0,
            timestamp,
            proposer: PeerId { bytes: clone_bytes(&self.proposer.bytes) },
        };
        let h = seal_hash(&header, &msgs);
        header.hash = h;
        let b = Block { header, messages: msgs };
        proof {
            assert(b@.header.hash == block_hash_of(b@.header, b@.messages)) by {
                assert(crate::block::pre_hash_enc(b@.header) =~= crate::block::pre_hash_enc(
                    HeaderView { hash: 0, ..b@.header },
                ));
            }
        }
        Some(b)
    }

    /// Puts a postponed block's messages back at the front of the
    /// inbox, in order, for the next tick.
    pub fn postpone_messages(&mut self, msgs: Vec<ApiEphemeraMessage>)
        ensures
            final(self).inbox_view() == msgs@.map_values(|m: ApiEphemeraMessage| m@) + old(
                self,
            ).inbox_view(),
            final(self).storage == old(self).storage,
            final(self).proposer == old(self).proposer,
            final(self).max_messages == old(self).max_messages,
            final(self).empty_blocks_allowed == old(self).empty_blocks_allowed,
    {
        let ghost target = msgs@.map_values(|m: ApiEphemeraMessage| m@) + self.inbox_view();
        let mut rest = msgs;
        std::mem::swap(&mut rest, &mut self.inbox);
        self.inbox.append(&mut rest);
        proof {
            assert(self.inbox_view() =~= target);
        }
    }


    /// Seals and persists the empty genesis block at height zero with
    /// `previous_hash` zero, carrying an empty certificate (which is
    /// vacuously valid).
    pub fn create_genesis(&mut self, timestamp: u64, topology: &TopologySnapshot)
        requires
            chain_wf(old(self).chain()),
            topology.wf(),
            old(self).chain().len() == 0,
        ensures
            chain_wf(final(self).chain()),
            final(self).chain().len() == 1,
            final(self).chain()[0].header.height == 0,
            final(self).chain()[0].header.previous_hash == 0,
            final(self).chain()[0].header.timestamp == timestamp,
            final(self).chain()[0].header.proposer == old(self).proposer@,
            final(self).chain()[0].messages =~= Seq::<ApiMsgView>::empty(),
            final(self).chain()[0].header.hash == block_hash_of(
                final(self).chain()[0].header,
                final(self).chain()[0].messages,
            ),
            final(self).inbox_view() == old(self).inbox_view(),
            final(self).proposer == old(self).proposer,
            final(self).max_messages == old(self).max_messages,
            final(self).empty_blocks_allowed == old(self).empty_blocks_allowed,
    {
        let mut header = BlockHeader {
            height: 0,
            previous_hash: 0,
            hash: 0,
            timestamp,
            proposer: PeerId { bytes: clone_bytes(&self.proposer.bytes) },
        };
        let msgs: Vec<ApiEphemeraMessage> = Vec::new();
        let h = seal_hash(&header, &msgs);
        header.hash = h;
        let b = Block { header, messages: msgs };
        let cert = Certificate::empty();
        proof {
            assert(b@.messages =~= Seq::<ApiMsgView>::empty());
            assert(b@.header.hash == block_hash_of(b@.header, b@.messages)) by {
                assert(crate::block::pre_hash_enc(b@.header) =~= crate::block::pre_hash_enc(
                    HeaderView { hash: 0, ..b@.header },
                ));
            }
            assert(cert_valid_for(cert@, topology.peers@, block_sign_bytes(b@.header.hash)));
        }
        self.storage.store_block(b, cert, topology);
    }

    /// Persists a sealed block with its certificate after the
    /// application accepted it. The certificate must hold at most one
    /// signature per peer and be valid for the topology, and the block
    /// must extend the chain.
    pub fn commit_block(&mut self, b: Block, cert: Certificate, topology: &TopologySnapshot) -> (r:
        bool)
        requires
            chain_wf(old(self).chain()),
            topology.wf(),
            b@.header.height == old(self).chain().len(),
            old(self).chain().len() == 0 ==> b@.header.previous_hash == 0,
            old(self).chain().len() > 0 ==> b@.header.previous_hash == old(self).chain()[
                old(self).chain().len() - 1
            ].header.hash,
        ensures
            chain_wf(final(self).chain()),
            final(self).inbox_view() == old(self).inbox_view(),
            r == (cert.wf() && cert_valid_for(
                cert@,
                topology.peers@,
                block_sign_bytes(b@.header.hash),
            )),
            r ==> final(self).chain() == old(self).chain().push(b@),
            !r ==> final(self).chain() == old(self).chain(),
    {
        if !cert.is_wf() {
            return false;
        }
        let msg = hash_sign_bytes(b.header.hash);
        if !verify_certificate(&cert, topology, &msg) {
            return false;
        }
        self.storage.store_block(b, cert, topology);
        true
    }

    /// Folds a block a peer sent into the local chain: accepted exactly
    /// where its height is the next one, its `previous_hash` matches the
    /// last block's hash, its own hash is sound, and its certificate
    /// holds at most one signature per peer, each valid; anything else
    /// leaves the local state alone, as a fork warning.
    pub fn handle_remote_block(&mut self, b: Block, cert: Certificate, topology: &TopologySnapshot)
        -> (r: BlockAcceptance)
        requires
            chain_wf(old(self).chain()),
            topology.wf(),
            old(self).chain().len() < u64::MAX,
        ensures
            chain_wf(final(self).chain()),
            final(self).inbox_view() == old(self).inbox_view(),
            ({
                let fits = {
                    &&& b@.header.height == old(self).chain().len()
                    &&& (old(self).chain().len() == 0 ==> b@.header.previous_hash == 0)
                    &&& (old(self).chain().len() > 0 ==> b@.header.previous_hash == old(
                        self,
                    ).chain()[old(self).chain().len() - 1].header.hash)
                    &&& b@.header.hash == block_hash_of(b@.header, b@.messages)
                    &&& cert.wf()
                    &&& cert_valid_for(cert@, topology.peers@, block_sign_bytes(b@.header.hash))
                };
                if fits {
                    &&& r == BlockAcceptance::Extended
                    &&& final(self).chain() == old(self).chain().push(b@)
                } else {
                    &&& r == BlockAcceptance::Forked
                    &&& final(self).chain() == old(self).chain()
                }
            }),
    {
        if b.header.height != self.storage.blocks.len() as u64 {
            return BlockAcceptance::Forked;
        }
        let expected_prev = if self.storage.blocks.len() == 0 {
            0u64
        } else {
            self.storage.blocks[self.storage.blocks.len() - 1].header.hash
        };
        if b.header.previous_hash != expected_prev {
            return BlockAcceptance::Forked;
        }
        let recomputed = seal_hash(&b.header, &b.messages);
        proof {
            assert(crate::block::pre_hash_enc(b@.header) == crate::block::pre_hash_enc(
                b@.header,
            ));
        }
        if b.header.hash != recomputed {
            return BlockAcceptance::Forked;
        }
        if !cert.is_wf() {
            return BlockAcceptance::Forked;
        }
        let msg = hash_sign_bytes(b.header.hash);
        if !verify_certificate(&cert, topology, &msg) {
            return BlockAcceptance::Forked;
        }
        self.storage.store_block(b, cert, topology);
        BlockAcceptance::Extended
    }
}

} // verus!
