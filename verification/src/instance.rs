//! One broadcast instance: the state bag for a single in-flight
//! message's progression through `PrePrepared -> Prepared -> Committed
//! -> Delivered`.
//!
//! The instance carries the topology snapshot taken at its creation;
//! signatures from peers outside that snapshot carry no weight, a peer
//! counts at most once per phase, and `Delivered` is terminal.

use vstd::prelude::*;

use crate::certificate::{has_entry_for, Certificate};
use crate::peer::PeerId;
use crate::topology::{clone_bytes, ids_contain, ids_unique, quorum_of, TopologySnapshot};

verus! {

/// The phase of a broadcast instance.
#[derive(Clone, Copy, Debug, PartialEq, Eq, Structural)]
pub enum Phase {
    PrePrepared,
    Prepared,
    Committed,
    Delivered,
}

/// What the node must do after an event was folded into an instance.
#[derive(Clone, Copy, Debug, PartialEq, Eq, Structural)]
pub enum Action {
    /// Broadcast a `Prepare` for this digest to the instance's peers.
    SendPrepare { digest: u64 },
    /// Broadcast a signed `Commit` for this digest.
    SendCommit { digest: u64 },
    /// Hand the delivered message and its certificate to the block
    /// manager.
    Deliver { digest: u64 },
}

/// The state of one broadcast instance.
#[derive(Debug)]
pub struct Instance {
    /// The digest that keys this instance.
    pub digest: u64,
    pub phase: Phase,
    /// The peer that originated the broadcast; never rewritten.
    pub originator: PeerId,
    /// The proposed payload.
    pub payload: Vec<u8>,
    /// The broadcast's unique id.
    pub message_id: Vec<u8>,
    /// The application's correlation tag.
    pub custom_message_id: Vec<u8>,
    /// When the instance was created, for eviction.
    pub created_at: u64,
    /// The peer set frozen at creation.
    pub topology: TopologySnapshot,
    /// The peers whose `Prepare` was counted.
    pub prepares: Vec<PeerId>,
    /// The `Commit` signatures collected so far.
    pub commits: Certificate,
}

/// The mathematical shape of an `Instance`.
#[verifier::ext_equal]
pub struct InstanceView {
    pub digest: u64,
    pub phase: Phase,
    pub originator: Seq<u8>,
    pub payload: Seq<u8>,
    pub message_id: Seq<u8>,
    pub custom_message_id: Seq<u8>,
    pub created_at: u64,
    pub topology: Seq<Seq<u8>>,
    pub prepares: Seq<Seq<u8>>,
    pub commits: Seq<(Seq<u8>, Seq<u8>)>,
}

impl View for Instance {
    type V = InstanceView;

    open spec fn view(&self) -> InstanceView {
        InstanceView {
            digest: self.digest,
            phase: self.phase,
            originator: self.originator@,
            payload: self.payload@,
            message_id: self.message_id@,
            custom_message_id: self.custom_message_id@,
            created_at: self.created_at,
            topology: self.topology@,
            prepares: self.prepares@.map_values(|p: PeerId| p@),
            commits: self.commits@,
        }
    }
}

/// Whether an instance's bookkeeping is sound: its topology holds no
/// peer twice, each counted `Prepare` and `Commit` comes from a peer of
/// the snapshot, and no peer counts twice in either set.
pub open spec fn iv_wf(v: InstanceView) -> bool {
    &&& ids_unique(v.topology)
    &&& ids_unique(v.prepares)
    &&& forall|i: int| 0 <= i < v.prepares.len() ==> ids_contain(v.topology, #[trigger] v.prepares[i])
    &&& forall|i: int, j: int| 0 <= i < j < v.commits.len() ==> v.commits[i].0 != v.commits[j].0
    &&& forall|i: int|
        0 <= i < v.commits.len() ==> ids_contain(v.topology, #[trigger] v.commits[i].0)
}

/// The quorum threshold of the instance's frozen snapshot.
pub open spec fn iv_quorum(v: InstanceView) -> int {
    quorum_of(v.topology.len() as int)
}

/// Folding a `Prepare` from `p` into `v`: counted once, and only if `p`
/// is in the frozen snapshot.
pub open spec fn record_prepare_v(v: InstanceView, p: Seq<u8>) -> InstanceView {
    if ids_contain(v.topology, p) && !ids_contain(v.prepares, p) && v.phase is PrePrepared {
        InstanceView { prepares: v.prepares.push(p), ..v }
    } else {
        v
    }
}

/// Folding a `Commit` from `p` with signature `sig` into `v`: counted
/// once, and only if `p` is in the frozen snapshot.
pub open spec fn record_commit_v(v: InstanceView, p: Seq<u8>, sig: Seq<u8>) -> InstanceView {
    if ids_contain(v.topology, p) && !has_entry_for(v.commits, p) && !(v.phase is Delivered) {
        InstanceView { commits: v.commits.push((p, sig)), ..v }
    } else {
        v
    }
}

/// Whether folding the collected signatures into the phase moves the
/// instance from `PrePrepared` to `Prepared`.
pub open spec fn advance_sends_commit(v: InstanceView) -> bool {
    v.phase is PrePrepared && v.prepares.len() >= iv_quorum(v)
}

/// The phase after the `Prepare` rule is applied.
pub open spec fn advance1_v(v: InstanceView) -> InstanceView {
    if advance_sends_commit(v) {
        InstanceView { phase: Phase::Prepared, ..v }
    } else {
        v
    }
}

/// Whether the instance reaches delivery: a quorum of `Commit`
/// signatures in phase `Prepared`.
pub open spec fn advance_delivers(v: InstanceView) -> bool {
    advance1_v(v).phase is Prepared && v.commits.len() >= iv_quorum(v)
}

/// The instance after both phase rules are applied. Delivery is atomic:
/// `Committed` is passed through to the terminal `Delivered`.
pub open spec fn advance_v(v: InstanceView) -> InstanceView {
    let v1 = advance1_v(v);
    if advance_delivers(v) {
        InstanceView { phase: Phase::Delivered, ..v1 }
    } else {
        v1
    }
}

impl Instance {
    /// Creates the instance for a fresh `PrePrepare`, in phase
    /// `PrePrepared` with no signatures counted yet.
    pub fn start(
        digest: u64,
        originator: PeerId,
        payload: Vec<u8>,
        message_id: Vec<u8>,
        custom_message_id: Vec<u8>,
        created_at: u64,
        topology: TopologySnapshot,
    ) -> (r: Instance)
        requires
            topology.wf(),
        ensures
            iv_wf(r@),
            r@ == (InstanceView {
                digest,
                phase: Phase::PrePrepared,
                originator: originator@,
                payload: payload@,
                message_id: message_id@,
                custom_message_id: custom_message_id@,
                created_at,
                topology: topology@,
                prepares: Seq::<Seq<u8>>::empty(),
                commits: Seq::<(Seq<u8>, Seq<u8>)>::empty(),
            }),
    {
        let r = Instance {
            digest,
            phase: Phase::PrePrepared,
            originator,
            payload,
            message_id,
            custom_message_id,
            created_at,
            topology,
            prepares: Vec::new(),
            commits: Certificate::empty(),
        };
        proof {
            assert(r@.prepares =~= Seq::<Seq<u8>>::empty());
            assert(r@ =~~= (InstanceView {
                digest,
                phase: Phase::PrePrepared,
                originator: r.originator@,
                payload: r.payload@,
                message_id: r.message_id@,
                custom_message_id: r.custom_message_id@,
                created_at,
                topology: r.topology@,
                prepares: Seq::<Seq<u8>>::empty(),
                commits: Seq::<(Seq<u8>, Seq<u8>)>::empty(),
            }));
        }
        r
    }

    /// Folds a `Prepare` from `peer` into the instance. A peer outside
    /// the frozen snapshot, a duplicate, or a late `Prepare` changes
    /// nothing.
    pub fn record_prepare(&mut self, peer: &PeerId) -> (added: bool)
        requires
            iv_wf(old(self)@),
        ensures
            iv_wf(final(self)@),
            final(self)@ == record_prepare_v(old(self)@, peer@),
            added == (final(self)@ != old(self)@),
    {
        let ghost prev = self@;
        if !matches!(self.phase, Phase::PrePrepared) {
            proof {
                assert(final(self)@ =~~= record_prepare_v(prev, peer@));
            }
            return false;
        }
        if !self.topology.contains(peer) {
            proof {
                assert(final(self)@ =~~= record_prepare_v(prev, peer@));
            }
            return false;
        }
        let mut i: usize = 0;
        while i < self.prepares.len()
            invariant
                i <= self.prepares.len(),
                forall|j: int| 0 <= j < i ==> self@.prepares[j] != peer@,
                self@ == prev,
                iv_wf(prev),
                ids_contain(prev.topology, peer@),
                prev.phase is PrePrepared,
            decreases self.prepares.len() - i,
        {
            if &self.prepares[i] == peer {
                proof {
                    assert(self@.prepares[i as int] == peer@);
                    assert(ids_contain(prev.prepares, peer@));
                    assert(final(self)@ =~~= record_prepare_v(prev, peer@));
                }
                return false;
            }
            i = i + 1;
        }
        self.prepares.push(PeerId { bytes: clone_bytes(&peer.bytes) });
        proof {
            assert(!ids_contain(prev.prepares, peer@));
            assert(self@.prepares =~= prev.prepares.push(peer@));
            assert(self@ =~~= record_prepare_v(prev, peer@));
            assert(self@ != prev) by {
                assert(self@.prepares.len() != prev.prepares.len());
            }
            assert forall|a: int, b: int| 0 <= a < b < self@.prepares.len() implies self@.prepares[a]
                != self@.prepares[b] by {
                if b == self@.prepares.len() - 1 {
                    if self@.prepares[a] == peer@ {
                        assert(ids_contain(prev.prepares, peer@));
                    }
                }
            }
        }
        true
    }

    /// Folds a `Commit` with `peer`'s signature into the instance. A
    /// peer outside the frozen snapshot or a duplicate changes nothing;
    /// `Delivered` is terminal.
    pub fn record_commit(&mut self, peer: &PeerId, signature: Vec<u8>) -> (added: bool)
        requires
            iv_wf(old(self)@),
        ensures
            iv_wf(final(self)@),
            final(self)@ == record_commit_v(old(self)@, peer@, signature@),
            added == (final(self)@ != old(self)@),
    {
        let ghost prev = self@;
        if matches!(self.phase, Phase::Delivered) {
            proof {
                assert(final(self)@ =~~= record_commit_v(prev, peer@, signature@));
            }
            return false;
        }
        if !self.topology.contains(peer) {
            proof {
                assert(final(self)@ =~~= record_commit_v(prev, peer@, signature@));
            }
            return false;
        }
        let added = self.commits.add_signature(peer, signature);
        proof {
            if added {
                assert(self@ =~~= record_commit_v(prev, peer@, signature@));
                assert(self@ != prev) by {
                    assert(self@.commits.len() != prev.commits.len());
                }
                assert forall|i: int|
                    0 <= i < self@.commits.len() implies ids_contain(
                    self@.topology,
                    #[trigger] self@.commits[i].0,
                ) by {
                    if i < prev.commits.len() {
                        assert(prev.commits[i] == self@.commits[i]);
                    }
                }
            } else {
                assert(self@.commits =~= prev.commits);
                assert(self@ =~~= record_commit_v(prev, peer@, signature@));
            }
        }
        added
    }

    /// Applies the two phase rules: a quorum of `Prepare`s moves
    /// `PrePrepared` to `Prepared` (the node must then broadcast its
    /// `Commit`), and a quorum of `Commit`s in `Prepared` delivers
    /// (atomically passing `Committed`). Returns whether a `Commit` must
    /// be sent and whether the instance delivered.
    pub fn advance(&mut self) -> (r: (bool, bool))
        requires
            iv_wf(old(self)@),
        ensures
            iv_wf(final(self)@),
            final(self)@ == advance_v(old(self)@),
            r.0 == advance_sends_commit(old(self)@),
            r.1 == advance_delivers(old(self)@),
    {
        let ghost prev = self@;
        let q = self.topology.quorum();
        let mut send_commit = false;
        if matches!(self.phase, Phase::PrePrepared) && self.prepares.len() >= q {
            self.phase = Phase::Prepared;
            send_commit = true;
        }
        proof {
            assert(self@ =~~= advance1_v(prev));
        }
        let mut delivered = false;
        if matches!(self.phase, Phase::Prepared) && self.commits.len() >= q {
            self.phase = Phase::Delivered;
            delivered = true;
        }
        proof {
            assert(self@ =~~= advance_v(prev));
        }
        (send_commit, delivered)
    }

    /// Whether the instance has reached its terminal phase.
    pub fn is_delivered(&self) -> (r: bool)
        ensures
            r == (self@.phase is Delivered),
    {
        matches!(self.phase, Phase::Delivered)
    }
}

/// Folding the same `Prepare` in twice has the effect of folding it in
/// once: the second receipt changes nothing.
pub proof fn lemma_record_prepare_idempotent(v: InstanceView, p: Seq<u8>)
    ensures
        record_prepare_v(record_prepare_v(v, p), p) == record_prepare_v(v, p),
{
    let v1 = record_prepare_v(v, p);
    if ids_contain(v.topology, p) && !ids_contain(v.prepares, p) && v.phase is PrePrepared {
        assert(v1.prepares[v1.prepares.len() - 1] == p);
        assert(ids_contain(v1.prepares, p));
    }
}

/// Folding the same `Commit` in twice has the effect of folding it in
/// once: the second receipt changes nothing.
pub proof fn lemma_record_commit_idempotent(v: InstanceView, p: Seq<u8>, sig: Seq<u8>)
    ensures
        record_commit_v(record_commit_v(v, p, sig), p, sig) == record_commit_v(v, p, sig),
{
    let v1 = record_commit_v(v, p, sig);
    if ids_contain(v.topology, p) && !has_entry_for(v.commits, p) && !(v.phase is Delivered) {
        assert(v1.commits[v1.commits.len() - 1].0 == p);
        assert(has_entry_for(v1.commits, p));
    }
}

/// Running the phase rules twice has the effect of running them once;
/// in particular `Delivered` is terminal.
pub proof fn lemma_advance_idempotent(v: InstanceView)
    ensures
        advance_v(advance_v(v)) == advance_v(v),
{
}

} // verus!
