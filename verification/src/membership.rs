//! Membership providers: where the recognized peer set comes from.
//!
//! A provider yields snapshots of `(peer id, public key)` pairs. A
//! change takes effect only for broadcast instances created after the
//! update; a failed fetch leaves the last good snapshot in effect.

use vstd::prelude::*;

use crate::peer::Peer;
use crate::topology::{ids_contain, peer_ids, TopologySnapshot};

verus! {

/// The provider for development setups: no peers at all.
pub struct DummyMembersProvider;

impl DummyMembersProvider {
    /// An empty peer list.
    pub fn empty_peers_list() -> (r: Vec<Peer>)
        ensures
            r@.len() == 0,
    {
        Vec::new()
    }
}

/// The provider that was loaded once from a peers file; the file
/// reading and parsing happen at the node's edge, which hands the
/// entries in as plain values.
pub struct ConfigMembersProvider {
    pub peers: Vec<Peer>,
}

impl ConfigMembersProvider {
    /// A provider over the peers read from the configuration.
    pub fn init(peers: Vec<Peer>) -> (r: ConfigMembersProvider)
        ensures
            r.peers@ == peers@,
    {
        ConfigMembersProvider { peers }
    }

    /// The snapshot of the configured peers, each id once.
    pub fn snapshot(&self) -> (r: TopologySnapshot)
        ensures
            r.wf(),
            forall|p: Seq<u8>| #[trigger]
                ids_contain(r@, p) ==> ids_contain(peer_ids(self.peers@), p),
            forall|p: Seq<u8>|
                ids_contain(peer_ids(self.peers@), p) ==> #[trigger] ids_contain(r@, p),
    {
        TopologySnapshot::from_peers(&self.peers)
    }
}

/// The provider that polls a URL; the polling itself happens at the
/// node's edge, which hands each fetched peer list to the cache below.
pub struct HttpMembersProvider {
    pub url: String,
}

impl HttpMembersProvider {
    pub fn new(url: String) -> (r: HttpMembersProvider)
        ensures
            r.url@ == url@,
    {
        HttpMembersProvider { url }
    }
}

/// The membership cache: one writer, the last good snapshot always in
/// effect.
pub struct MembershipCache {
    pub current: TopologySnapshot,
}

impl MembershipCache {
    /// A cache over an initial snapshot.
    pub fn new(initial: TopologySnapshot) -> (r: MembershipCache)
        requires
            initial.wf(),
        ensures
            r.current@ == initial@,
            r.current.wf(),
    {
        MembershipCache { current: initial }
    }

    /// Folds one fetch into the cache: a failed fetch (`None`) leaves
    /// the last good snapshot in effect, a fetched peer list replaces
    /// it.
    pub fn update(&mut self, fetched: Option<Vec<Peer>>)
        requires
            old(self).current.wf(),
        ensures
            final(self).current.wf(),
            fetched is None ==> final(self).current@ == old(self).current@,
            fetched is Some ==> {
                &&& forall|p: Seq<u8>| #[trigger]
                    ids_contain(final(self).current@, p) ==> ids_contain(
                        peer_ids(fetched->0@),
                        p,
                    )
                &&& forall|p: Seq<u8>|
                    ids_contain(peer_ids(fetched->0@), p) ==> #[trigger] ids_contain(
                        final(self).current@,
                        p,
                    )
            },
    {
        match fetched {
            None => {
            },
            Some(peers) => {
                self.current = TopologySnapshot::from_peers(&peers);
            },
        }
    }

    /// The snapshot a new broadcast instance freezes.
    pub fn snapshot(&self) -> (r: TopologySnapshot)
        requires
            self.current.wf(),
        ensures
            r@ == self.current@,
            r.wf(),
    {
        self.current.duplicate()
    }
}

} // verus!
