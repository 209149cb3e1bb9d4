//! The per-node reliable broadcast driver.
//!
//! The broadcaster keys instances by message digest, buffers `Prepare`
//! and `Commit` messages that arrive before their `PrePrepare` (bounded
//! per sender), blacklists rejected or expired digests briefly, and
//! folds every event into the instance it belongs to. It is a pure
//! reducer: signature and application checks are made by the caller and
//! handed in as values, so every path through it is verified.

use vstd::prelude::*;

use crate::certificate::Certificate;
use crate::digest::{message_digest, message_digest_of};
use crate::instance::{
    advance_delivers, advance_sends_commit, advance_v, iv_wf, record_commit_v, record_prepare_v,
    Action, Instance, InstanceView, Phase,
};
use crate::peer::PeerId;
use crate::topology::{clone_bytes, TopologySnapshot};
use crate::wire::{RbMsg, RbMsgView, RbPayload, RbPayloadView};

verus! {

use vstd::std_specs::cmp::PartialEqSpec;

/// How many early messages one sender may keep buffered.
pub const PER_PEER_BUFFER_CAP: usize = 64;

/// How long an evicted or rejected digest stays blacklisted, in
/// milliseconds.
pub const DEFAULT_BLACKLIST_MS: u64 = 5000;

/// How long an instance may live without delivering, in milliseconds.
pub const DEFAULT_INSTANCE_TTL_MS: u64 = 60000;

/// What became of a `PrePrepare`.
#[derive(Clone, Copy, Debug, PartialEq, Eq, Structural)]
pub enum PrePrepareOutcome {
    /// A fresh instance was created.
    Created,
    /// An instance for this digest already runs (or has delivered); the
    /// re-receipt is discarded.
    Duplicate,
    /// The digest is blacklisted for the round.
    Blacklisted,
    /// Another payload already runs under this message id; first seen
    /// wins and the equivocating copy is dropped.
    Equivocation,
    /// The originator's signature or the application check failed; the
    /// digest is blacklisted for the round.
    Rejected,
}

/// A delivered message with the certificate it earned: what the block
/// manager receives.
#[derive(Debug)]
pub struct DeliveredMessage {
    pub message_id: Vec<u8>,
    pub originator: PeerId,
    pub custom_message_id: Vec<u8>,
    pub payload: Vec<u8>,
    pub certificate: Certificate,
}

/// The broadcast state of one node.
#[derive(Debug)]
pub struct Broadcaster {
    /// This node's own peer id.
    pub peer_id: PeerId,
    /// The live instances, one per digest.
    pub instances: Vec<Instance>,
    /// `Prepare`/`Commit` messages whose `PrePrepare` has not arrived,
    /// with the peer each came from.
    pub buffered: Vec<(PeerId, RbMsg)>,
    /// Digests refused for a while, each with the time it is blocked
    /// until.
    pub blacklist: Vec<(u64, u64)>,
}

/// The mathematical shape of a `Broadcaster`.
#[verifier::ext_equal]
pub struct BroadcasterView {
    pub peer_id: Seq<u8>,
    pub instances: Seq<InstanceView>,
    pub buffered: Seq<(Seq<u8>, RbMsgView)>,
    pub blacklist: Seq<(u64, u64)>,
}

impl View for Broadcaster {
    type V = BroadcasterView;

    open spec fn view(&self) -> BroadcasterView {
        BroadcasterView {
            peer_id: self.peer_id@,
            instances: self.instances@.map_values(|i: Instance| i@),
            buffered: self.buffered@.map_values(|e: (PeerId, RbMsg)| (e.0@, e.1@)),
            blacklist: self.blacklist@,
        }
    }
}

/// The digest an early message speaks of; `None` for a `PrePrepare`,
/// which is never buffered.
pub open spec fn buf_msg_digest(m: RbMsgView) -> Option<u64> {
    match m.payload {
        RbPayloadView::PrePrepare { .. } => None,
        RbPayloadView::Prepare { digest } => Some(digest),
        RbPayloadView::Commit { digest, .. } => Some(digest),
    }
}

/// Whether an instance for digest `d` exists.
pub open spec fn has_digest(insts: Seq<InstanceView>, d: u64) -> bool {
    exists|i: int| 0 <= i < insts.len() && insts[i].digest == d
}

/// Whether an instance for message id `id` exists.
pub open spec fn has_message_id(insts: Seq<InstanceView>, id: Seq<u8>) -> bool {
    exists|i: int| 0 <= i < insts.len() && insts[i].message_id == id
}

/// Whether digest `d` is blacklisted at time `now`.
pub open spec fn blacklisted(bl: Seq<(u64, u64)>, d: u64, now: u64) -> bool {
    exists|i: int| 0 <= i < bl.len() && bl[i].0 == d && bl[i].1 > now
}

/// A broadcaster is sound when every instance is, no two instances share
/// a digest or a message id, and only `Prepare`/`Commit` messages sit in
/// the buffer.
pub open spec fn bv_wf(b: BroadcasterView) -> bool {
    &&& forall|i: int| 0 <= i < b.instances.len() ==> iv_wf(#[trigger] b.instances[i])
    &&& forall|i: int, j: int|
        0 <= i < j < b.instances.len() ==> b.instances[i].digest != b.instances[j].digest
    &&& forall|i: int, j: int|
        0 <= i < j < b.instances.len() ==> b.instances[i].message_id != b.instances[j].message_id
    &&& forall|i: int| 0 <= i < b.buffered.len() ==> buf_msg_digest(#[trigger] b.buffered[i].1) is Some
}

/// Folding one buffered message into an instance: a `Prepare` records
/// its sender, a `Commit` records its sender's signature.
pub open spec fn apply_buffered_v(v: InstanceView, e: (Seq<u8>, RbMsgView)) -> InstanceView {
    match e.1.payload {
        RbPayloadView::PrePrepare { .. } => v,
        RbPayloadView::Prepare { .. } => record_prepare_v(v, e.0),
        RbPayloadView::Commit { signature, .. } => record_commit_v(v, e.0, signature),
    }
}

/// One flush step: fold the vote in, then run the phase rules — the
/// same two moves a live arrival makes.
pub open spec fn vote_step_v(v: InstanceView, e: (Seq<u8>, RbMsgView)) -> InstanceView {
    advance_v(apply_buffered_v(v, e))
}

/// Folding a whole buffer into an instance, oldest first, the phase
/// rules running between folds exactly as they do on live arrival.
pub open spec fn flush_v(v: InstanceView, msgs: Seq<(Seq<u8>, RbMsgView)>) -> InstanceView
    decreases msgs.len(),
{
    if msgs.len() == 0 {
        v
    } else {
        flush_v(vote_step_v(v, msgs[0]), msgs.skip(1))
    }
}

/// Whether some step of the flush crosses the `Prepare` quorum, so that
/// the node must broadcast its `Commit`.
pub open spec fn flush_sends_commit(v: InstanceView, msgs: Seq<(Seq<u8>, RbMsgView)>) -> bool
    decreases msgs.len(),
{
    if msgs.len() == 0 {
        false
    } else {
        advance_sends_commit(apply_buffered_v(v, msgs[0])) || flush_sends_commit(
            vote_step_v(v, msgs[0]),
            msgs.skip(1),
        )
    }
}

/// Whether some step of the flush crosses the `Commit` quorum, so that
/// the instance delivers.
pub open spec fn flush_delivers(v: InstanceView, msgs: Seq<(Seq<u8>, RbMsgView)>) -> bool
    decreases msgs.len(),
{
    if msgs.len() == 0 {
        false
    } else {
        advance_delivers(apply_buffered_v(v, msgs[0])) || flush_delivers(
            vote_step_v(v, msgs[0]),
            msgs.skip(1),
        )
    }
}

/// Law: a buffered vote is flushed exactly as its live arrival would be
/// handled — the same record rule, then the same phase rules — so the
/// instance state after the flush equals the state had the buffered
/// votes arrived after the `PrePrepare`, in order.
pub proof fn lemma_flush_step_is_live_step(v: InstanceView, sender: Seq<u8>, m: RbMsgView)
    ensures
        m.payload is Prepare ==> vote_step_v(v, (sender, m)) == advance_v(
            record_prepare_v(v, sender),
        ),
        m.payload is Commit ==> vote_step_v(v, (sender, m)) == advance_v(
            record_commit_v(v, sender, m.payload->Commit_signature),
        ),
{
}

/// The buffered messages that speak of digest `d`, in arrival order.
pub open spec fn buffered_for(bs: Seq<(Seq<u8>, RbMsgView)>, d: u64) -> Seq<(Seq<u8>, RbMsgView)>
    decreases bs.len(),
{
    if bs.len() == 0 {
        Seq::<(Seq<u8>, RbMsgView)>::empty()
    } else if buf_msg_digest(bs[0].1) == Some(d) {
        seq![bs[0]] + buffered_for(bs.skip(1), d)
    } else {
        buffered_for(bs.skip(1), d)
    }
}

/// The buffer with the messages for digest `d` taken out.
pub open spec fn buffered_rem(bs: Seq<(Seq<u8>, RbMsgView)>, d: u64) -> Seq<(Seq<u8>, RbMsgView)>
    decreases bs.len(),
{
    if bs.len() == 0 {
        Seq::<(Seq<u8>, RbMsgView)>::empty()
    } else if buf_msg_digest(bs[0].1) == Some(d) {
        buffered_rem(bs.skip(1), d)
    } else {
        seq![bs[0]] + buffered_rem(bs.skip(1), d)
    }
}

/// How many buffered messages came from `sender`.
pub open spec fn buffered_count_for(bs: Seq<(Seq<u8>, RbMsgView)>, sender: Seq<u8>) -> int
    decreases bs.len(),
{
    if bs.len() == 0 {
        0int
    } else {
        (if bs[0].0 == sender {
            1int
        } else {
            0int
        }) + buffered_count_for(bs.skip(1), sender)
    }
}

/// The buffer with `sender`'s oldest message dropped.
pub open spec fn buffered_drop_oldest(bs: Seq<(Seq<u8>, RbMsgView)>, sender: Seq<u8>) -> Seq<
    (Seq<u8>, RbMsgView),
>
    decreases bs.len(),
{
    if bs.len() == 0 {
        Seq::<(Seq<u8>, RbMsgView)>::empty()
    } else if bs[0].0 == sender {
        bs.skip(1)
    } else {
        seq![bs[0]] + buffered_drop_oldest(bs.skip(1), sender)
    }
}

/// What buffering an early message does: append it, dropping the
/// sender's oldest first where the sender's cap is reached.
pub open spec fn buffer_add_v(
    bs: Seq<(Seq<u8>, RbMsgView)>,
    e: (Seq<u8>, RbMsgView),
) -> Seq<(Seq<u8>, RbMsgView)> {
    if buffered_count_for(bs, e.0) < PER_PEER_BUFFER_CAP as int {
        bs.push(e)
    } else {
        buffered_drop_oldest(bs, e.0).push(e)
    }
}

/// The actions that follow from an instance's advance: a `Commit` to
/// broadcast where the `Prepare` quorum was just reached, a delivery
/// where the `Commit` quorum was.
pub open spec fn advance_actions(v: InstanceView, base: Seq<Action>) -> Seq<Action> {
    let a1 = if advance_sends_commit(v) {
        base.push(Action::SendCommit { digest: v.digest })
    } else {
        base
    };
    if advance_delivers(v) {
        a1.push(Action::Deliver { digest: v.digest })
    } else {
        a1
    }
}

impl Broadcaster {
    /// A fresh broadcaster for the node with id `peer_id`.
    pub fn new(peer_id: PeerId) -> (r: Broadcaster)
        ensures
            r@.peer_id == peer_id@,
            r@.instances =~= Seq::<InstanceView>::empty(),
            r@.buffered =~= Seq::<(Seq<u8>, RbMsgView)>::empty(),
            r@.blacklist =~= Seq::<(u64, u64)>::empty(),
            bv_wf(r@),
    {
        let r = Broadcaster {
            peer_id,
            instances: Vec::new(),
            buffered: Vec::new(),
            blacklist: Vec::new(),
        };
        proof {
            assert(r@.instances =~= Seq::<InstanceView>::empty());
            assert(r@.buffered =~= Seq::<(Seq<u8>, RbMsgView)>::empty());
        }
        r
    }

    /// This node's own peer id.
    pub fn self_peer(&self) -> (r: PeerId)
        ensures
            r@ == self@.peer_id,
    {
        PeerId { bytes: clone_bytes(&self.peer_id.bytes) }
    }

    /// The position of the instance for digest `d`, if one runs.
    pub fn find_instance(&self, d: u64) -> (r: Option<usize>)
        ensures
            match r {
                Some(i) => i < self@.instances.len() && self@.instances[i as int].digest == d,
                None => !has_digest(self@.instances, d),
            },
    {
        let mut i: usize = 0;
        while i < self.instances.len()
            invariant
                i <= self.instances.len(),
                forall|j: int| 0 <= j < i ==> self@.instances[j].digest != d,
            decreases self.instances.len() - i,
        {
            if self.instances[i].digest == d {
                proof {
                    assert(self@.instances[i as int].digest == d);
                }
                return Some(i);
            }
            i = i + 1;
        }
        None
    }

    /// Whether digest `d` is blacklisted at time `now`.
    pub fn is_blacklisted(&self, d: u64, now: u64) -> (r: bool)
        ensures
            r == blacklisted(self@.blacklist, d, now),
    {
        let mut i: usize = 0;
        while i < self.blacklist.len()
            invariant
                i <= self.blacklist.len(),
                forall|j: int|
                    0 <= j < i ==> !(self@.blacklist[j].0 == d && self@.blacklist[j].1 > now),
            decreases self.blacklist.len() - i,
        {
            let e = self.blacklist[i];
            if e.0 == d && e.1 > now {
                return true;
            }
            i = i + 1;
        }
        false
    }

    /// Whether an instance already runs under message id `id`.
    fn has_id(&self, id: &Vec<u8>) -> (r: bool)
        ensures
            r == has_message_id(self@.instances, id@),
    {
        let mut i: usize = 0;
        while i < self.instances.len()
            invariant
                i <= self.instances.len(),
                forall|j: int| 0 <= j < i ==> self@.instances[j].message_id != id@,
            decreases self.instances.len() - i,
        {
            if bytes_eq(&self.instances[i].message_id, id) {
                proof {
                    assert(self@.instances[i as int].message_id == id@);
                }
                return true;
            }
            i = i + 1;
        }
        false
    }
}

/// Whether two byte vectors hold the same bytes.
pub fn bytes_eq(a: &Vec<u8>, b: &Vec<u8>) -> (r: bool)
    ensures
        r == (a@ == b@),
{
    let r = a == b;
    proof {
        if r {
            assert(a@ =~= b@);
        } else {
            if a@ == b@ {
                assert(a.eq_spec(b));
            }
        }
    }
    r
}

/// The position of the instance for digest `d` in `insts`.
pub open spec fn inst_index(insts: Seq<InstanceView>, d: u64) -> int {
    choose|i: int| 0 <= i < insts.len() && insts[i].digest == d
}

/// The digest a `PrePrepare` message determines: the hash of its
/// payload, its originator and its correlation tag.
pub open spec fn pre_prepare_digest(m: RbMsgView) -> u64 {
    message_digest_of(
        match m.payload {
            RbPayloadView::PrePrepare { payload } => payload,
            RbPayloadView::Prepare { .. } => Seq::<u8>::empty(),
            RbPayloadView::Commit { .. } => Seq::<u8>::empty(),
        },
        m.node_id,
        m.custom_message_id,
    )
}

/// The instance view a fresh `PrePrepare` starts.
pub open spec fn started_instance(m: RbMsgView, d: u64, now: u64, topology: Seq<Seq<u8>>) -> InstanceView {
    InstanceView {
        digest: d,
        phase: Phase::PrePrepared,
        originator: m.node_id,
        payload: match m.payload {
            RbPayloadView::PrePrepare { payload } => payload,
            RbPayloadView::Prepare { .. } => Seq::<u8>::empty(),
            RbPayloadView::Commit { .. } => Seq::<u8>::empty(),
        },
        message_id: m.id,
        custom_message_id: m.custom_message_id,
        created_at: now,
        topology,
        prepares: Seq::<Seq<u8>>::empty(),
        commits: Seq::<(Seq<u8>, Seq<u8>)>::empty(),
    }
}

/// The instance after the originator's and the node's own `Prepare`
/// are counted, before any phase rule runs.
pub open spec fn seeded_instance(
    m: RbMsgView,
    d: u64,
    now: u64,
    topology: Seq<Seq<u8>>,
    self_id: Seq<u8>,
) -> InstanceView {
    let base = started_instance(m, d, now, topology);
    let with_orig = record_prepare_v(base, m.node_id);
    record_prepare_v(with_orig, self_id)
}

/// The instance a fresh `PrePrepare` leaves behind: the seeded instance
/// advanced once, then every buffered message for the digest folded in,
/// oldest first, the phase rules running after each fold just as they
/// would on live arrival.
pub open spec fn created_instance(
    m: RbMsgView,
    d: u64,
    now: u64,
    topology: Seq<Seq<u8>>,
    self_id: Seq<u8>,
    buffered: Seq<(Seq<u8>, RbMsgView)>,
) -> InstanceView {
    let seeded = seeded_instance(m, d, now, topology, self_id);
    flush_v(advance_v(seeded), buffered_for(buffered, d))
}

/// The actions a fresh `PrePrepare` demands: the node's own `Prepare`
/// always, its `Commit` where the seed or some flush step crosses the
/// `Prepare` quorum, and a delivery where one crosses the `Commit`
/// quorum.
pub open spec fn creation_actions(
    seeded: InstanceView,
    bufs: Seq<(Seq<u8>, RbMsgView)>,
    d: u64,
) -> Seq<Action> {
    let a0 = seq![Action::SendPrepare { digest: d }];
    let a1 = if advance_sends_commit(seeded) || flush_sends_commit(advance_v(seeded), bufs) {
        a0.push(Action::SendCommit { digest: d })
    } else {
        a0
    };
    if advance_delivers(seeded) || flush_delivers(advance_v(seeded), bufs) {
        a1.push(Action::Deliver { digest: d })
    } else {
        a1
    }
}

impl Broadcaster {
    /// Buffers an early `Prepare` or `Commit` from `sender`, dropping
    /// the sender's oldest buffered message where its cap is reached.
    fn buffer_early(&mut self, sender: &PeerId, msg: RbMsg)
        requires
            bv_wf(old(self)@),
            buf_msg_digest(msg@) is Some,
        ensures
            bv_wf(final(self)@),
            final(self)@ == (BroadcasterView {
                buffered: buffer_add_v(old(self)@.buffered, (sender@, msg@)),
                ..old(self)@
            }),
    {
        let ghost bs = self@.buffered;
        let ghost snd = sender@;
        let mut count: usize = 0;
        let mut first: usize = 0;
        let mut found = false;
        let mut i: usize = 0;
        proof {
            assert(bs.skip(0) =~= bs);
        }
        while i < self.buffered.len()
            invariant
                i <= self.buffered.len(),
                bs == self@.buffered,
                snd == sender@,
                count <= i,
                buffered_count_for(bs, snd) == count + buffered_count_for(bs.skip(i as int), snd),
                found ==> first < i && bs[first as int].0 == snd && (forall|j: int|
                    0 <= j < first ==> bs[j].0 != snd),
                !found ==> count == 0 && (forall|j: int| 0 <= j < i ==> bs[j].0 != snd),
            decreases self.buffered.len() - i,
        {
            proof {
                assert(bs[i as int] == (self.buffered@[i as int].0@, self.buffered@[i as int].1@));
                assert(bs.skip(i as int)[0] == bs[i as int]);
                assert(bs.skip(i as int).skip(1) =~= bs.skip(i as int + 1));
            }
            if &self.buffered[i].0 == sender {
                proof {
                    assert(bs[i as int].0 == snd);
                }
                if !found {
                    first = i;
                    found = true;
                }
                count = count + 1;
            } else {
                proof {
                    assert(bs[i as int].0 != snd);
                }
            }
            i = i + 1;
        }
        proof {
            assert(bs.skip(bs.len() as int) =~= Seq::<(Seq<u8>, RbMsgView)>::empty());
            assert(buffered_count_for(bs, snd) == count);
        }
        if count >= PER_PEER_BUFFER_CAP {
            proof {
                lemma_drop_oldest_at(bs, snd, first as int);
            }
            let _ = self.buffered.remove(first);
            proof {
                assert(self@.buffered =~= buffered_drop_oldest(bs, snd));
            }
        }
        let ghost mid = self@.buffered;
        self.buffered.push((PeerId { bytes: clone_bytes(&sender.bytes) }, msg));
        proof {
            assert(self@.buffered =~= mid.push((snd, msg@)));
            assert(self@.buffered =~= buffer_add_v(bs, (snd, msg@)));
            assert(final(self)@ =~~= (BroadcasterView {
                buffered: buffer_add_v(old(self)@.buffered, (sender@, msg@)),
                ..old(self)@
            }));
            assert forall|k: int|
                0 <= k < self@.buffered.len() implies buf_msg_digest(
                #[trigger] self@.buffered[k].1,
            ) is Some by {
                if k < mid.len() {
                    if count >= PER_PEER_BUFFER_CAP {
                        lemma_drop_oldest_entries(bs, snd, k);
                    }
                }
            }
        }
    }

    /// Folds a `Prepare` for digest `d` from `sender` into the
    /// instance for `d`, advancing its phase; where no instance runs
    /// yet, the message is buffered until its `PrePrepare` arrives.
    pub fn handle_prepare(&mut self, sender: &PeerId, msg: &RbMsg) -> (acts: Vec<Action>)
        requires
            bv_wf(old(self)@),
            msg@.payload is Prepare,
        ensures
            bv_wf(final(self)@),
            final(self)@.peer_id == old(self)@.peer_id,
            final(self)@.blacklist == old(self)@.blacklist,
            ({
                let d = buf_msg_digest(msg@)->Some_0;
                if has_digest(old(self)@.instances, d) {
                    let idx = inst_index(old(self)@.instances, d);
                    let recorded = record_prepare_v(old(self)@.instances[idx], sender@);
                    &&& final(self)@.instances == old(self)@.instances.update(
                        idx,
                        advance_v(recorded),
                    )
                    &&& final(self)@.buffered == old(self)@.buffered
                    &&& acts@ == advance_actions(recorded, Seq::<Action>::empty())
                } else {
                    &&& final(self)@.instances == old(self)@.instances
                    &&& final(self)@.buffered == buffer_add_v(
                        old(self)@.buffered,
                        (sender@, msg@),
                    )
                    &&& acts@ == Seq::<Action>::empty()
                }
            }),
    {
        let d = match &msg.payload {
            RbPayload::Prepare { digest } => *digest,
            RbPayload::Commit { digest, .. } => *digest,
            RbPayload::PrePrepare { .. } => 0,
        };
        self.fold_vote(sender, msg, d, None)
    }

    /// Folds a `Commit` with `sender`'s signature into the instance for
    /// its digest, advancing its phase; where no instance runs yet, the
    /// message is buffered until its `PrePrepare` arrives. The caller
    /// verifies the signature against the sender's known key and hands
    /// the result in as `sig_ok`: an invalid signature changes nothing,
    /// so only valid `Commit` signatures are ever counted or buffered.
    pub fn handle_commit(&mut self, sender: &PeerId, msg: &RbMsg, sig_ok: bool) -> (acts: Vec<
        Action,
    >)
        requires
            bv_wf(old(self)@),
            msg@.payload is Commit,
        ensures
            bv_wf(final(self)@),
            final(self)@.peer_id == old(self)@.peer_id,
            final(self)@.blacklist == old(self)@.blacklist,
            ({
                let d = buf_msg_digest(msg@)->Some_0;
                let sig = msg@.payload->Commit_signature;
                if !sig_ok {
                    &&& final(self)@ == old(self)@
                    &&& acts@ == Seq::<Action>::empty()
                } else if has_digest(old(self)@.instances, d) {
                    let idx = inst_index(old(self)@.instances, d);
                    let recorded = record_commit_v(old(self)@.instances[idx], sender@, sig);
                    &&& final(self)@.instances == old(self)@.instances.update(
                        idx,
                        advance_v(recorded),
                    )
                    &&& final(self)@.buffered == old(self)@.buffered
                    &&& acts@ == advance_actions(recorded, Seq::<Action>::empty())
                } else {
                    &&& final(self)@.instances == old(self)@.instances
                    &&& final(self)@.buffered == buffer_add_v(
                        old(self)@.buffered,
                        (sender@, msg@),
                    )
                    &&& acts@ == Seq::<Action>::empty()
                }
            }),
    {
        if !sig_ok {
            return Vec::new();
        }
        let (d, sig) = match &msg.payload {
            RbPayload::Commit { digest, signature } => (*digest, clone_bytes(signature)),
            RbPayload::Prepare { digest } => (*digest, Vec::new()),
            RbPayload::PrePrepare { .. } => (0, Vec::new()),
        };
        self.fold_vote(sender, msg, d, Some(sig))
    }

    /// Shared path of `handle_prepare` and `handle_commit`: record the
    /// vote (a `Commit` signature where `sig` is given, a bare `Prepare`
    /// otherwise), advance, or buffer the early message.
    fn fold_vote(&mut self, sender: &PeerId, msg: &RbMsg, d: u64, sig: Option<Vec<u8>>) -> (acts:
        Vec<Action>)
        requires
            bv_wf(old(self)@),
            buf_msg_digest(msg@) == Some(d),
            msg@.payload is Commit <==> sig is Some,
            sig is Some ==> sig->0@ == msg@.payload->Commit_signature,
        ensures
            bv_wf(final(self)@),
            final(self)@.peer_id == old(self)@.peer_id,
            final(self)@.blacklist == old(self)@.blacklist,
            ({
                if has_digest(old(self)@.instances, d) {
                    let idx = inst_index(old(self)@.instances, d);
                    let recorded = if sig is Some {
                        record_commit_v(old(self)@.instances[idx], sender@, sig->0@)
                    } else {
                        record_prepare_v(old(self)@.instances[idx], sender@)
                    };
                    &&& final(self)@.instances == old(self)@.instances.update(
                        idx,
                        advance_v(recorded),
                    )
                    &&& final(self)@.buffered == old(self)@.buffered
                    &&& acts@ == advance_actions(recorded, Seq::<Action>::empty())
                } else {
                    &&& final(self)@.instances == old(self)@.instances
                    &&& final(self)@.buffered == buffer_add_v(
                        old(self)@.buffered,
                        (sender@, msg@),
                    )
                    &&& acts@ == Seq::<Action>::empty()
                }
            }),
    {
        match self.find_instance(d) {
            Some(i) => {
                let ghost old_insts = self@.instances;
                proof {
                    assert(iv_wf(old_insts[i as int]));
                    let k = inst_index(old_insts, d);
                    assert(0 <= k < old_insts.len() && old_insts[k].digest == d);
                    if k != i as int {
                        assert(old_insts[k].digest != old_insts[i as int].digest);
                    }
                }
                let mut inst = self.instances.remove(i);
                let ghost recorded = if sig is Some {
                    record_commit_v(inst@, sender@, sig->0@)
                } else {
                    record_prepare_v(inst@, sender@)
                };
                match sig {
                    Some(sgn) => {
                        let _ = inst.record_commit(sender, sgn);
                    },
                    None => {
                        let _ = inst.record_prepare(sender);
                    },
                }
                let (send_commit, delivered) = inst.advance();
                let ghost updated = inst@;
                self.instances.insert(i, inst);
                let mut acts: Vec<Action> = Vec::new();
                if send_commit {
                    acts.push(Action::SendCommit { digest: d });
                }
                if delivered {
                    acts.push(Action::Deliver { digest: d });
                }
                proof {
                    assert(updated.digest == d && updated.message_id == old_insts[
                        i as int
                    ].message_id);
                    assert(self@.instances =~= old_insts.update(i as int, updated));
                    assert(acts@ =~= advance_actions(recorded, Seq::<Action>::empty()));
                    assert(bv_wf(final(self)@)) by {
                        assert forall|a: int, b: int|
                            0 <= a < b < self@.instances.len() implies self@.instances[a].digest
                            != self@.instances[b].digest && self@.instances[a].message_id
                            != self@.instances[b].message_id by {
                            assert(old_insts[a].digest != old_insts[b].digest);
                            assert(old_insts[a].message_id != old_insts[b].message_id);
                        }
                    }
                }
                acts
            },
            None => {
                self.buffer_early(sender, msg.duplicate());
                Vec::new()
            },
        }
    }
}


/// Whether an instance outlives an eviction pass at `now`: delivered
/// instances wait for the block manager; others live out their TTL.
pub open spec fn keep_inst(v: InstanceView, now: u64, ttl: u64) -> bool {
    v.phase is Delivered || v.created_at + ttl > now
}

/// The instances that survive an eviction pass, in order.
pub open spec fn evict_keep(insts: Seq<InstanceView>, now: u64, ttl: u64) -> Seq<InstanceView>
    decreases insts.len(),
{
    if insts.len() == 0 {
        Seq::<InstanceView>::empty()
    } else if keep_inst(insts[0], now, ttl) {
        seq![insts[0]] + evict_keep(insts.skip(1), now, ttl)
    } else {
        evict_keep(insts.skip(1), now, ttl)
    }
}

/// The blacklist entries an eviction pass adds: each dropped digest,
/// blocked until `until`.
pub open spec fn evicted_entries(insts: Seq<InstanceView>, now: u64, ttl: u64, until: u64) -> Seq<
    (u64, u64),
>
    decreases insts.len(),
{
    if insts.len() == 0 {
        Seq::<(u64, u64)>::empty()
    } else if keep_inst(insts[0], now, ttl) {
        evicted_entries(insts.skip(1), now, ttl, until)
    } else {
        seq![(insts[0].digest, until)] + evicted_entries(insts.skip(1), now, ttl, until)
    }
}

/// The blacklist without the entries whose time has passed.
pub open spec fn prune_blacklist(bl: Seq<(u64, u64)>, now: u64) -> Seq<(u64, u64)>
    decreases bl.len(),
{
    if bl.len() == 0 {
        Seq::<(u64, u64)>::empty()
    } else if bl[0].1 > now {
        seq![bl[0]] + prune_blacklist(bl.skip(1), now)
    } else {
        prune_blacklist(bl.skip(1), now)
    }
}

impl Broadcaster {
    /// Handles a `PrePrepare`: refused where its digest is blacklisted,
    /// already running or delivered, another payload runs under the same
    /// message id (first seen wins), or the originator's signature or
    /// the application check failed (which blacklists the digest until
    /// `blacklist_until`). Otherwise a fresh instance starts from the
    /// topology snapshot given, the originator's and this node's own
    /// `Prepare` are counted, and every buffered message for the digest
    /// is folded in oldest first with the phase rules running after each
    /// fold — so the instance ends in the state it would have reached
    /// had those votes arrived after the `PrePrepare` — and the node
    /// must broadcast its `Prepare`.
    pub fn handle_pre_prepare(
        &mut self,
        msg: &RbMsg,
        topology: &TopologySnapshot,
        sig_ok: bool,
        check_ok: bool,
        now: u64,
        blacklist_until: u64,
    ) -> (r: (PrePrepareOutcome, Vec<Action>))
        requires
            bv_wf(old(self)@),
            topology.wf(),
            msg@.payload is PrePrepare,
        ensures
            bv_wf(final(self)@),
            final(self)@.peer_id == old(self)@.peer_id,
            ({
                let d = pre_prepare_digest(msg@);
                if blacklisted(old(self)@.blacklist, d, now) {
                    &&& final(self)@ == old(self)@
                    &&& r.0 == PrePrepareOutcome::Blacklisted
                    &&& r.1@ == Seq::<Action>::empty()
                } else if has_digest(old(self)@.instances, d) {
                    &&& final(self)@ == old(self)@
                    &&& r.0 == PrePrepareOutcome::Duplicate
                    &&& r.1@ == Seq::<Action>::empty()
                } else if has_message_id(old(self)@.instances, msg@.id) {
                    &&& final(self)@ == old(self)@
                    &&& r.0 == PrePrepareOutcome::Equivocation
                    &&& r.1@ == Seq::<Action>::empty()
                } else if !(sig_ok && check_ok) {
                    &&& final(self)@ == (BroadcasterView {
                        blacklist: old(self)@.blacklist.push((d, blacklist_until)),
                        ..old(self)@
                    })
                    &&& r.0 == PrePrepareOutcome::Rejected
                    &&& r.1@ == Seq::<Action>::empty()
                } else {
                    let created = created_instance(
                        msg@,
                        d,
                        now,
                        topology@,
                        old(self)@.peer_id,
                        old(self)@.buffered,
                    );
                    let seeded = seeded_instance(msg@, d, now, topology@, old(self)@.peer_id);
                    &&& final(self)@.instances == old(self)@.instances.push(created)
                    &&& final(self)@.buffered == buffered_rem(old(self)@.buffered, d)
                    &&& final(self)@.blacklist == old(self)@.blacklist
                    &&& r.0 == PrePrepareOutcome::Created
                    &&& r.1@ == creation_actions(
                        seeded,
                        buffered_for(old(self)@.buffered, d),
                        d,
                    )
                }
            }),
    {
        let payload = match &msg.payload {
            RbPayload::PrePrepare { payload } => clone_bytes(payload),
            RbPayload::Prepare { .. } => Vec::new(),
            RbPayload::Commit { .. } => Vec::new(),
        };
        let d = message_digest(&payload, &msg.node_id.bytes, &msg.custom_message_id);
        proof {
            assert(d == pre_prepare_digest(msg@));
        }
        if self.is_blacklisted(d, now) {
            return (PrePrepareOutcome::Blacklisted, Vec::new());
        }
        if self.find_instance(d).is_some() {
            return (PrePrepareOutcome::Duplicate, Vec::new());
        }
        if self.has_id(&msg.id) {
            return (PrePrepareOutcome::Equivocation, Vec::new());
        }
        if !(sig_ok && check_ok) {
            self.blacklist.push((d, blacklist_until));
            proof {
                assert(final(self)@ =~~= (BroadcasterView {
                    blacklist: old(self)@.blacklist.push((d, blacklist_until)),
                    ..old(self)@
                }));
            }
            return (PrePrepareOutcome::Rejected, Vec::new());
        }
        let ghost old_view = self@;
        let mut inst = Instance::start(
            d,
            PeerId { bytes: clone_bytes(&msg.node_id.bytes) },
            payload,
            clone_bytes(&msg.id),
            clone_bytes(&msg.custom_message_id),
            now,
            topology.duplicate(),
        );
        proof {
            assert(inst@ =~~= started_instance(msg@, d, now, topology@));
        }
        let originator = PeerId { bytes: clone_bytes(&msg.node_id.bytes) };
        let _ = inst.record_prepare(&originator);
        let me = self.self_peer();
        let _ = inst.record_prepare(&me);
        let ghost seeded = inst@;
        proof {
            assert(seeded == seeded_instance(msg@, d, now, topology@, old_view.peer_id));
        }
        // the phase rules run once on the seed, then after each fold,
        // exactly as they would had the buffered votes arrived live
        let (mut sent_commit, mut delivered) = inst.advance();
        let ghost started = inst@;
        let ghost oldbuf = self@.buffered;
        let ghost total_sc = advance_sends_commit(seeded) || flush_sends_commit(
            started,
            buffered_for(oldbuf, d),
        );
        let ghost total_dl = advance_delivers(seeded) || flush_delivers(
            started,
            buffered_for(oldbuf, d),
        );
        let mut rest: Vec<(PeerId, RbMsg)> = Vec::new();
        proof {
            assert(rest@.map_values(|e: (PeerId, RbMsg)| (e.0@, e.1@)) =~= Seq::<
                (Seq<u8>, RbMsgView),
            >::empty());
        }
        while self.buffered.len() > 0
            invariant
                iv_wf(inst@),
                inst@.digest == d,
                inst@.message_id == started.message_id,
                old_view.peer_id == self@.peer_id,
                old_view.instances == self@.instances,
                old_view.blacklist == self@.blacklist,
                flush_v(started, buffered_for(oldbuf, d)) == flush_v(
                    inst@,
                    buffered_for(self@.buffered, d),
                ),
                total_sc == (sent_commit || flush_sends_commit(
                    inst@,
                    buffered_for(self@.buffered, d),
                )),
                total_dl == (delivered || flush_delivers(
                    inst@,
                    buffered_for(self@.buffered, d),
                )),
                buffered_rem(oldbuf, d) == rest@.map_values(|e: (PeerId, RbMsg)| (e.0@, e.1@))
                    + buffered_rem(self@.buffered, d),
                forall|k: int|
                    0 <= k < rest@.len() ==> buf_msg_digest(#[trigger] rest@[k].1@) is Some,
                forall|k: int|
                    0 <= k < self@.buffered.len() ==> buf_msg_digest(
                        #[trigger] self@.buffered[k].1,
                    ) is Some,
            decreases self.buffered.len(),
        {
            let ghost cur = self@.buffered;
            let ghost inst_before = inst@;
            let ghost rest_before = rest@.map_values(|e: (PeerId, RbMsg)| (e.0@, e.1@));
            let e = self.buffered.remove(0);
            let ghost ev = (e.0@, e.1@);
            proof {
                assert(cur[0] == ev);
                assert(self@.buffered =~= cur.skip(1));
            }
            let matches_digest = match &e.1.payload {
                RbPayload::Prepare { digest } => *digest == d,
                RbPayload::Commit { digest, .. } => *digest == d,
                RbPayload::PrePrepare { .. } => false,
            };
            proof {
                assert(matches_digest == (buf_msg_digest(ev.1) == Some(d)));
                if matches_digest {
                    let bf = buffered_for(cur, d);
                    assert(bf == seq![ev] + buffered_for(cur.skip(1), d));
                    assert(bf[0] == ev);
                    assert(bf.skip(1) =~= buffered_for(cur.skip(1), d));
                    assert(bf.len() > 0);
                    assert(flush_v(inst_before, bf) == flush_v(
                        vote_step_v(inst_before, ev),
                        buffered_for(cur.skip(1), d),
                    ));
                    assert(flush_sends_commit(inst_before, bf) == (advance_sends_commit(
                        apply_buffered_v(inst_before, ev),
                    ) || flush_sends_commit(
                        vote_step_v(inst_before, ev),
                        buffered_for(cur.skip(1), d),
                    )));
                    assert(flush_delivers(inst_before, bf) == (advance_delivers(
                        apply_buffered_v(inst_before, ev),
                    ) || flush_delivers(
                        vote_step_v(inst_before, ev),
                        buffered_for(cur.skip(1), d),
                    )));
                } else {
                    assert(buffered_for(cur, d) == buffered_for(cur.skip(1), d));
                    assert(buffered_rem(cur, d) == seq![ev] + buffered_rem(cur.skip(1), d));
                }
            }
            if matches_digest {
                let (sender_e, msg_e) = e;
                match msg_e.payload {
                    RbPayload::Prepare { .. } => {
                        let _ = inst.record_prepare(&sender_e);
                    },
                    RbPayload::Commit { signature, .. } => {
                        let _ = inst.record_commit(&sender_e, signature);
                    },
                    RbPayload::PrePrepare { .. } => {},
                }
                proof {
                    assert(inst@ == apply_buffered_v(inst_before, ev));
                }
                let (sc, dl) = inst.advance();
                sent_commit = sent_commit || sc;
                delivered = delivered || dl;
                proof {
                    assert(inst@ == vote_step_v(inst_before, ev));
                }
            } else {
                rest.push(e);
                proof {
                    assert(rest@.map_values(|x: (PeerId, RbMsg)| (x.0@, x.1@)) =~= rest_before.push(
                        ev,
                    ));
                    assert(rest_before.push(ev) + buffered_rem(cur.skip(1), d) =~= rest_before + (
                    seq![ev] + buffered_rem(cur.skip(1), d)));
                }
            }
        }
        proof {
            assert(buffered_for(self@.buffered, d) =~= Seq::<(Seq<u8>, RbMsgView)>::empty());
            assert(buffered_rem(self@.buffered, d) =~= Seq::<(Seq<u8>, RbMsgView)>::empty());
            assert(rest@.map_values(|e: (PeerId, RbMsg)| (e.0@, e.1@)) + Seq::<
                (Seq<u8>, RbMsgView),
            >::empty() =~= rest@.map_values(|e: (PeerId, RbMsg)| (e.0@, e.1@)));
        }
        self.buffered = rest;
        self.instances.push(inst);
        let mut acts: Vec<Action> = Vec::new();
        acts.push(Action::SendPrepare { digest: d });
        if sent_commit {
            acts.push(Action::SendCommit { digest: d });
        }
        if delivered {
            acts.push(Action::Deliver { digest: d });
        }
        proof {
            assert(self@.instances =~= old_view.instances.push(
                created_instance(msg@, d, now, topology@, old_view.peer_id, oldbuf),
            ));
            assert(acts@ =~= creation_actions(seeded, buffered_for(oldbuf, d), d));
        }
        (PrePrepareOutcome::Created, acts)
    }
}


impl Broadcaster {
    /// Drops every undelivered instance whose TTL has passed,
    /// blacklisting its digest until `blacklist_until` to prevent
    /// thrash, and prunes the blacklist entries whose time is over.
    pub fn evict_expired(&mut self, now: u64, ttl: u64, blacklist_until: u64)
        requires
            bv_wf(old(self)@),
        ensures
            bv_wf(final(self)@),
            final(self)@.peer_id == old(self)@.peer_id,
            final(self)@.buffered == old(self)@.buffered,
            final(self)@.instances == evict_keep(old(self)@.instances, now, ttl),
            final(self)@.blacklist == prune_blacklist(old(self)@.blacklist, now)
                + evicted_entries(old(self)@.instances, now, ttl, blacklist_until),
    {
        let ghost old_insts = self@.instances;
        let ghost old_bl = self@.blacklist;
        // prune the blacklist first
        let mut bl: Vec<(u64, u64)> = Vec::new();
        let mut i: usize = 0;
        proof {
            assert(old_bl.skip(0) =~= old_bl);
            assert(bl@ + prune_blacklist(old_bl, now) =~= prune_blacklist(old_bl, now));
        }
        while i < self.blacklist.len()
            invariant
                i <= self.blacklist.len(),
                old_bl == self@.blacklist,
                prune_blacklist(old_bl, now) == bl@ + prune_blacklist(old_bl.skip(i as int), now),
            decreases self.blacklist.len() - i,
        {
            proof {
                assert(old_bl.skip(i as int)[0] == old_bl[i as int]);
                assert(old_bl.skip(i as int).skip(1) =~= old_bl.skip(i as int + 1));
            }
            let e = self.blacklist[i];
            if e.1 > now {
                let ghost prev = bl@;
                bl.push(e);
                proof {
                    assert(prev.push(old_bl[i as int]) + prune_blacklist(
                        old_bl.skip(i as int + 1),
                        now,
                    ) =~= prev + (seq![old_bl[i as int]] + prune_blacklist(
                        old_bl.skip(i as int + 1),
                        now,
                    )));
                }
            }
            i = i + 1;
        }
        proof {
            assert(old_bl.skip(old_bl.len() as int) =~= Seq::<(u64, u64)>::empty());
            assert(bl@ + Seq::<(u64, u64)>::empty() =~= bl@);
        }
        self.blacklist = bl;
        // walk the instances, keeping the live ones and blacklisting
        // the digests of the dropped ones
        let mut kept: Vec<Instance> = Vec::new();
        proof {
            let kv = kept@.map_values(|x: Instance| x@);
            assert(kv =~= Seq::<InstanceView>::empty());
            assert(kv + evict_keep(old_insts, now, ttl) =~= evict_keep(old_insts, now, ttl));
            assert(kv + self@.instances =~= self@.instances);
        }
        while self.instances.len() > 0
            invariant
                old_bl == old(self)@.blacklist,
                old_insts == old(self)@.instances,
                self@.peer_id == old(self)@.peer_id,
                self@.buffered == old(self)@.buffered,
                evict_keep(old_insts, now, ttl) == kept@.map_values(|x: Instance| x@)
                    + evict_keep(self@.instances, now, ttl),
                prune_blacklist(old_bl, now) + evicted_entries(old_insts, now, ttl, blacklist_until)
                    == self@.blacklist + evicted_entries(
                    self@.instances,
                    now,
                    ttl,
                    blacklist_until,
                ),
                all_sound(kept@.map_values(|x: Instance| x@) + self@.instances),
            decreases self.instances.len(),
        {
            let ghost cur = self@.instances;
            let ghost kv = kept@.map_values(|x: Instance| x@);
            proof {
                assert(cur[0] == self.instances@[0]@);
                assert(all_sound(kv + cur));
            }
            let inst = self.instances.remove(0);
            proof {
                assert(self@.instances =~= cur.skip(1));
            }
            let live = matches!(inst.phase, Phase::Delivered) || inst.created_at > now || now
                - inst.created_at < ttl;
            proof {
                assert(live == keep_inst(cur[0], now, ttl));
            }
            if live {
                let ghost prev = kv;
                kept.push(inst);
                proof {
                    assert(kept@.map_values(|x: Instance| x@) =~= prev.push(cur[0]));
                    assert(prev.push(cur[0]) + evict_keep(cur.skip(1), now, ttl) =~= prev + (
                    seq![cur[0]] + evict_keep(cur.skip(1), now, ttl)));
                    assert(prev.push(cur[0]) + cur.skip(1) =~= (prev + cur));
                }
            } else {
                self.blacklist.push((inst.digest, blacklist_until));
                proof {
                    let prev_bl = old(self)@;
                    assert(seq![(cur[0].digest, blacklist_until)] + evicted_entries(
                        cur.skip(1),
                        now,
                        ttl,
                        blacklist_until,
                    ) =~= evicted_entries(cur, now, ttl, blacklist_until));
                    assert(all_sound(kv + cur.skip(1))) by {
                        let whole = kv + cur;
                        let rem = kv + cur.skip(1);
                        assert forall|a: int| 0 <= a < rem.len() implies iv_wf(
                            #[trigger] rem[a],
                        ) && (forall|b: int|
                            a < b < rem.len() ==> rem[a].digest != rem[b].digest && rem[
                                a
                            ].message_id != rem[b].message_id) by {
                            let a0: int = if a < kv.len() {
                                a
                            } else {
                                a + 1
                            };
                            assert(rem[a] == whole[a0]);
                            assert forall|b: int|
                                a < b < rem.len() implies rem[a].digest != rem[b].digest && rem[
                                a
                            ].message_id != rem[b].message_id by {
                                let b0: int = if b < kv.len() {
                                    b
                                } else {
                                    b + 1
                                };
                                assert(rem[b] == whole[b0]);
                            }
                        }
                    }
                }
            }
        }
        self.instances = kept;
        proof {
            assert(evict_keep(Seq::<InstanceView>::empty(), now, ttl) =~= Seq::<
                InstanceView,
            >::empty());
            assert(self@.instances + Seq::<InstanceView>::empty() =~= self@.instances);
            assert(final(self)@.instances =~= evict_keep(old(self)@.instances, now, ttl));
            assert(evicted_entries(Seq::<InstanceView>::empty(), now, ttl, blacklist_until) =~= Seq::<
                (u64, u64),
            >::empty());
            assert(final(self)@.blacklist + Seq::<(u64, u64)>::empty() =~= final(self)@.blacklist);
        }
    }

    /// Hands out the delivered message for digest `d` with the
    /// certificate it earned, removing its instance; the instance is
    /// garbage-collected exactly when the block manager drains it.
    pub fn take_delivered(&mut self, d: u64) -> (r: Option<DeliveredMessage>)
        requires
            bv_wf(old(self)@),
        ensures
            bv_wf(final(self)@),
            final(self)@.peer_id == old(self)@.peer_id,
            final(self)@.buffered == old(self)@.buffered,
            final(self)@.blacklist == old(self)@.blacklist,
            ({
                if has_digest(old(self)@.instances, d) && old(self)@.instances[inst_index(
                    old(self)@.instances,
                    d,
                )].phase is Delivered {
                    let idx = inst_index(old(self)@.instances, d);
                    let iv = old(self)@.instances[idx];
                    &&& r is Some
                    &&& r->Some_0.message_id@ == iv.message_id
                    &&& r->Some_0.originator@ == iv.originator
                    &&& r->Some_0.custom_message_id@ == iv.custom_message_id
                    &&& r->Some_0.payload@ == iv.payload
                    &&& r->Some_0.certificate@ == iv.commits
                    &&& final(self)@.instances == old(self)@.instances.remove(idx)
                } else {
                    &&& r is None
                    &&& final(self)@.instances == old(self)@.instances
                }
            }),
    {
        let ghost insts = self@.instances;
        match self.find_instance(d) {
            None => None,
            Some(i) => {
                proof {
                    let k = inst_index(insts, d);
                    assert(0 <= k < insts.len() && insts[k].digest == d);
                    if k != i as int {
                        assert(insts[k].digest != insts[i as int].digest);
                    }
                }
                if !self.instances[i].is_delivered() {
                    return None;
                }
                let inst = self.instances.remove(i);
                proof {
                    assert(self@.instances =~= insts.remove(i as int));
                    assert(all_sound(insts)) by {
                        assert(forall|a: int|
                            0 <= a < insts.len() ==> iv_wf(#[trigger] insts[a]));
                    }
                    assert(all_sound(self@.instances)) by {
                        let rem = insts.remove(i as int);
                        assert forall|a: int| 0 <= a < rem.len() implies iv_wf(
                            #[trigger] rem[a],
                        ) && (forall|b: int|
                            a < b < rem.len() ==> rem[a].digest != rem[b].digest && rem[
                                a
                            ].message_id != rem[b].message_id) by {
                            let a0: int = if a < i as int {
                                a
                            } else {
                                a + 1
                            };
                            assert(rem[a] == insts[a0]);
                            assert forall|b: int|
                                a < b < rem.len() implies rem[a].digest != rem[b].digest && rem[
                                a
                            ].message_id != rem[b].message_id by {
                                let b0: int = if b < i as int {
                                    b
                                } else {
                                    b + 1
                                };
                                assert(rem[b] == insts[b0]);
                            }
                        }
                    }
                }
                let Instance {
                    digest: _,
                    phase: _,
                    originator,
                    payload,
                    message_id,
                    custom_message_id,
                    created_at: _,
                    topology: _,
                    prepares: _,
                    commits,
                } = inst;
                Some(
                    DeliveredMessage {
                        message_id,
                        originator,
                        custom_message_id,
                        payload,
                        certificate: commits,
                    },
                )
            },
        }
    }
}

/// Every instance of `insts` is sound and no two share a digest or a
/// message id.
pub open spec fn all_sound(insts: Seq<InstanceView>) -> bool {
    &&& forall|i: int| 0 <= i < insts.len() ==> iv_wf(#[trigger] insts[i])
    &&& forall|i: int, j: int|
        0 <= i < j < insts.len() ==> insts[i].digest != insts[j].digest
    &&& forall|i: int, j: int|
        0 <= i < j < insts.len() ==> insts[i].message_id != insts[j].message_id
}

/// Dropping `sender`'s oldest message takes out exactly the first entry
/// that `sender` put in.
pub proof fn lemma_drop_oldest_at(bs: Seq<(Seq<u8>, RbMsgView)>, sender: Seq<u8>, k: int)
    requires
        0 <= k < bs.len(),
        bs[k].0 == sender,
        forall|j: int| 0 <= j < k ==> bs[j].0 != sender,
    ensures
        buffered_drop_oldest(bs, sender) == bs.remove(k),
    decreases k,
{
    if k == 0 {
        assert(buffered_drop_oldest(bs, sender) =~= bs.remove(0));
    } else {
        lemma_drop_oldest_at(bs.skip(1), sender, k - 1);
        assert(seq![bs[0]] + bs.skip(1).remove(k - 1) =~= bs.remove(k));
    }
}

/// Dropping one entry keeps the buffer's entries a subset of what they
/// were.
pub proof fn lemma_drop_oldest_entries(bs: Seq<(Seq<u8>, RbMsgView)>, sender: Seq<u8>, k: int)
    requires
        0 <= k < buffered_drop_oldest(bs, sender).len(),
    ensures
        exists|j: int|
            0 <= j < bs.len() && bs[j] == #[trigger] buffered_drop_oldest(bs, sender)[k],
    decreases bs.len(),
{
    if bs.len() > 0 {
        if bs[0].0 == sender {
            assert(bs[k + 1] == buffered_drop_oldest(bs, sender)[k]);
        } else {
            if k == 0 {
                assert(bs[0] == buffered_drop_oldest(bs, sender)[0]);
            } else {
                lemma_drop_oldest_entries(bs.skip(1), sender, k - 1);
                let j = choose|j: int|
                    0 <= j < bs.skip(1).len() && bs.skip(1)[j] == buffered_drop_oldest(
                        bs.skip(1),
                        sender,
                    )[k - 1];
                assert(bs[j + 1] == buffered_drop_oldest(bs, sender)[k]);
            }
        }
    }
}

} // verus!
