//! Peer identity: a node is known by the bytes of its peer id, derived
//! from its public key. Equality of peers is equality of those bytes.

use vstd::prelude::*;

verus! {

use vstd::std_specs::cmp::PartialEqSpec;

/// Identity of a node in the cluster, as the bytes derived from its
/// public key.
#[derive(Clone, Debug)]
pub struct PeerId {
    pub bytes: Vec<u8>,
}

impl View for PeerId {
    type V = Seq<u8>;

    open spec fn view(&self) -> Seq<u8> {
        self.bytes@
    }
}

impl PeerId {
    pub fn new(bytes: Vec<u8>) -> (r: PeerId)
        ensures
            r@ == bytes@,
    {
        PeerId { bytes }
    }
}

impl PartialEq for PeerId {
    fn eq(&self, other: &Self) -> (r: bool) {
        let r = self.bytes == other.bytes;
        proof {
            if r {
                assert(self.bytes@ =~= other.bytes@);
            } else {
                if self.bytes@ == other.bytes@ {
                    assert(self.bytes.eq_spec(&other.bytes));
                }
            }
        }
        r
    }
}

impl vstd::std_specs::cmp::PartialEqSpecImpl for PeerId {
    open spec fn obeys_eq_spec() -> bool {
        true
    }

    open spec fn eq_spec(&self, other: &PeerId) -> bool {
        self@ == other@
    }
}

impl Eq for PeerId {}

/// A member of the cluster as the membership provider reports it: its
/// peer id together with the public key that its signatures verify
/// against.
#[derive(Clone, Debug)]
pub struct Peer {
    pub peer_id: PeerId,
    pub public_key: Vec<u8>,
}

impl View for Peer {
    type V = Seq<u8>;

    open spec fn view(&self) -> Seq<u8> {
        self.peer_id@
    }
}

impl Peer {
    pub fn new(peer_id: PeerId, public_key: Vec<u8>) -> (r: Peer)
        ensures
            r.peer_id@ == peer_id@,
            r.public_key@ == public_key@,
    {
        Peer { peer_id, public_key }
    }
}

} // verus!
