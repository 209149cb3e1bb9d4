//! Broadcast topology: the frozen snapshot of peers used by a single
//! broadcast instance, and the quorum arithmetic over its size.
//!
//! A snapshot is taken when an instance is created and never changes for
//! that instance, so the quorum threshold cannot shift mid-round.

use vstd::prelude::*;

use crate::peer::{Peer, PeerId};

verus! {

/// The ids of a sequence of peers.
pub open spec fn peer_ids(ps: Seq<Peer>) -> Seq<Seq<u8>> {
    ps.map_values(|p: Peer| p@)
}

/// Whether the sequence of peer ids `peers` holds `p`.
pub open spec fn ids_contain(peers: Seq<Seq<u8>>, p: Seq<u8>) -> bool {
    exists|i: int| 0 <= i < peers.len() && peers[i] == p
}

/// Whether a sequence of peer ids holds no id twice.
pub open spec fn ids_unique(peers: Seq<Seq<u8>>) -> bool {
    forall|i: int, j: int| 0 <= i < j < peers.len() ==> peers[i] != peers[j]
}

/// The quorum threshold for a topology of `n` peers: one more than
/// two thirds of `n`, rounded down.
pub open spec fn quorum_of(n: int) -> int {
    2 * n / 3 + 1
}

/// Clones a byte vector; the copy holds the same bytes.
pub fn clone_bytes(v: &Vec<u8>) -> (r: Vec<u8>)
    ensures
        r@ == v@,
{
    let r = v.clone();
    proof {
        assert(r@ =~= v@);
    }
    r
}

/// Computes the quorum threshold `2n/3 + 1` for a snapshot of `n` peers.
pub fn quorum_size(n: usize) -> (q: usize)
    ensures
        q == quorum_of(n as int),
        n > 0 ==> q <= n,
{
    let wide: u128 = (n as u128) * 2 / 3 + 1;
    proof {
        assert(wide <= usize::MAX as u128 && wide == quorum_of(n as int) && (n > 0 ==> wide
            <= n)) by (nonlinear_arith)
            requires
                wide == (n as u128) * 2 / 3 + 1,
                n <= usize::MAX,
                usize::MAX >= 3,
        ;
    }
    wide as usize
}

/// An immutable set of peers fixed for one broadcast instance.
#[derive(Clone, Debug)]
pub struct TopologySnapshot {
    pub peers: Vec<Peer>,
}

impl View for TopologySnapshot {
    type V = Seq<Seq<u8>>;

    open spec fn view(&self) -> Seq<Seq<u8>> {
        peer_ids(self.peers@)
    }
}

impl TopologySnapshot {
    /// No peer id occurs twice in the snapshot.
    pub open spec fn wf(&self) -> bool {
        ids_unique(self@)
    }

    /// Builds a snapshot from the peers of a membership update, dropping
    /// every peer whose id was already seen: the snapshot holds exactly
    /// the ids of the update, each once.
    pub fn from_peers(peers: &Vec<Peer>) -> (r: TopologySnapshot)
        ensures
            r.wf(),
            forall|p: Seq<u8>| #[trigger] ids_contain(r@, p) ==> ids_contain(peer_ids(peers@), p),
            forall|p: Seq<u8>|
                ids_contain(peer_ids(peers@), p) ==> #[trigger] ids_contain(r@, p),
    {
        let mut out: Vec<Peer> = Vec::new();
        let mut i: usize = 0;
        while i < peers.len()
            invariant
                i <= peers.len(),
                ids_unique(peer_ids(out@)),
                forall|p: Seq<u8>| #[trigger]
                    ids_contain(peer_ids(out@), p) ==> ids_contain(
                        peer_ids(peers@).take(i as int),
                        p,
                    ),
                forall|p: Seq<u8>|
                    ids_contain(peer_ids(peers@).take(i as int), p) ==> #[trigger] ids_contain(
                        peer_ids(out@),
                        p,
                    ),
            decreases peers.len() - i,
        {
            let snap = TopologySnapshot { peers: out };
            let seen = snap.contains(&peers[i].peer_id);
            out = snap.peers;
            let ghost this = peers@[i as int]@;
            proof {
                assert(peer_ids(peers@).take(i as int + 1) =~= peer_ids(peers@).take(
                    i as int,
                ).push(this));
                assert forall|p: Seq<u8>, s: Seq<Seq<u8>>| #[trigger]
                    ids_contain(s.push(this), p) == (ids_contain(s, p) || p == this) by {
                    if ids_contain(s, p) {
                        let w = choose|k: int| 0 <= k < s.len() && s[k] == p;
                        assert(s.push(this)[w] == p);
                    }
                    if p == this {
                        assert(s.push(this)[s.len() as int] == p);
                    }
                    if ids_contain(s.push(this), p) {
                        let w = choose|k: int|
                            0 <= k < s.push(this).len() && s.push(this)[k] == p;
                        if w < s.len() {
                            assert(s[w] == p);
                        }
                    }
                }
            }
            if !seen {
                let ghost prev = out@;
                let entry = Peer::new(
                    PeerId::new(clone_bytes(&peers[i].peer_id.bytes)),
                    clone_bytes(&peers[i].public_key),
                );
                out.push(entry);
                proof {
                    assert(peer_ids(out@) =~= peer_ids(prev).push(this));
                    assert(ids_unique(peer_ids(out@))) by {
                        assert forall|a: int, b: int|
                            0 <= a < b < peer_ids(out@).len() implies peer_ids(out@)[a]
                            != peer_ids(out@)[b] by {
                            if b == peer_ids(out@).len() - 1 {
                                assert(peer_ids(prev)[a] == peer_ids(out@)[a]);
                                if peer_ids(out@)[a] == this {
                                    assert(ids_contain(peer_ids(prev), this));
                                }
                            }
                        }
                    }
                }
            } else {
                proof {
                    assert(ids_contain(peer_ids(out@), this));
                }
            }
            i = i + 1;
        }
        proof {
            assert(peer_ids(peers@).take(peers@.len() as int) =~= peer_ids(peers@));
        }
        TopologySnapshot { peers: out }
    }

    /// A structurally equal copy of the snapshot.
    pub fn duplicate(&self) -> (r: TopologySnapshot)
        ensures
            r@ == self@,
            r.peers@.len() == self.peers@.len(),
            forall|i: int|
                #![trigger r.peers@[i]]
                0 <= i < self.peers@.len() ==> r.peers@[i].public_key@
                    == self.peers@[i].public_key@ && r.peers@[i].peer_id@
                    == self.peers@[i].peer_id@,
    {
        let mut peers: Vec<Peer> = Vec::new();
        let mut i: usize = 0;
        while i < self.peers.len()
            invariant
                i <= self.peers.len(),
                peers@.len() == i,
                forall|j: int|
                    #![trigger peers@[j]]
                    0 <= j < i ==> peers@[j].public_key@ == self.peers@[j].public_key@
                        && peers@[j].peer_id@ == self.peers@[j].peer_id@,
            decreases self.peers.len() - i,
        {
            peers.push(
                Peer::new(
                    PeerId::new(clone_bytes(&self.peers[i].peer_id.bytes)),
                    clone_bytes(&self.peers[i].public_key),
                ),
            );
            i = i + 1;
        }
        let r = TopologySnapshot { peers };
        proof {
            assert forall|j: int| 0 <= j < r@.len() implies r@[j] == self@[j] by {
                assert(r@[j] == r.peers@[j]@);
                assert(self@[j] == self.peers@[j]@);
            }
            assert(r@ =~= self@);
        }
        r
    }

    /// How many peers the snapshot holds.
    pub fn len(&self) -> (n: usize)
        ensures
            n == self@.len(),
    {
        self.peers.len()
    }

    /// Whether `p` is one of the peers of the snapshot.
    pub fn contains(&self, p: &PeerId) -> (r: bool)
        ensures
            r == ids_contain(self@, p@),
    {
        let mut i: usize = 0;
        while i < self.peers.len()
            invariant
                i <= self.peers.len(),
                forall|j: int| 0 <= j < i ==> self@[j] != p@,
            decreases self.peers.len() - i,
        {
            if &self.peers[i].peer_id == p {
                proof {
                    assert(self@[i as int] == p@);
                }
                return true;
            }
            i = i + 1;
        }
        false
    }

    /// The public key recorded for peer `p`, if `p` is in the snapshot.
    pub fn public_key_of(&self, p: &PeerId) -> (r: Option<Vec<u8>>)
        ensures
            r is Some <==> ids_contain(self@, p@),
            r is Some ==> exists|i: int|
                0 <= i < self.peers@.len() && self.peers@[i]@ == p@ && r->Some_0@
                    == self.peers@[i].public_key@,
    {
        let mut i: usize = 0;
        while i < self.peers.len()
            invariant
                i <= self.peers.len(),
                forall|j: int| 0 <= j < i ==> self@[j] != p@,
            decreases self.peers.len() - i,
        {
            if &self.peers[i].peer_id == p {
                proof {
                    assert(self@[i as int] == p@);
                }
                return Some(clone_bytes(&self.peers[i].public_key));
            }
            i = i + 1;
        }
        None
    }

    /// The quorum threshold for this snapshot.
    pub fn quorum(&self) -> (q: usize)
        ensures
            q == quorum_of(self@.len() as int),
            self@.len() > 0 ==> q <= self@.len(),
    {
        quorum_size(self.peers.len())
    }
}

} // verus!
