//! The broadcast state machine: quorum arithmetic, duplicate
//! suppression, buffering of early messages, the frozen topology
//! snapshot, equivocation, idempotent delivery, and eviction.

use ephemera::broadcaster::{Broadcaster, PrePrepareOutcome};
use ephemera::digest::message_digest;
use ephemera::instance::{Action, Phase};
use ephemera::peer::{Peer, PeerId};
use ephemera::topology::{quorum_size, TopologySnapshot};
use ephemera::wire::{RbMsg, RbPayload};

fn peer(bytes: &[u8]) -> PeerId {
    PeerId { bytes: bytes.to_vec() }
}

fn topo(ids: &[&[u8]]) -> TopologySnapshot {
    let peers: Vec<Peer> = ids.iter().map(|b| Peer::new(peer(b), b.to_vec())).collect();
    TopologySnapshot::from_peers(&peers)
}

fn pre_prepare(originator: &[u8], id: &[u8], payload: &[u8]) -> RbMsg {
    RbMsg {
        id: id.to_vec(),
        node_id: peer(originator),
        timestamp_secs: 1,
        timestamp_nanos: 2,
        custom_message_id: b"tag".to_vec(),
        payload: RbPayload::PrePrepare { payload: payload.to_vec() },
    }
}

fn prepare(originator: &[u8], id: &[u8], digest: u64) -> RbMsg {
    RbMsg {
        id: id.to_vec(),
        node_id: peer(originator),
        timestamp_secs: 1,
        timestamp_nanos: 2,
        custom_message_id: b"tag".to_vec(),
        payload: RbPayload::Prepare { digest },
    }
}

fn commit(originator: &[u8], id: &[u8], digest: u64, sig: Vec<u8>) -> RbMsg {
    RbMsg {
        id: id.to_vec(),
        node_id: peer(originator),
        timestamp_secs: 1,
        timestamp_nanos: 2,
        custom_message_id: b"tag".to_vec(),
        payload: RbPayload::Commit { digest, signature: sig },
    }
}

fn digest_of(msg: &RbMsg) -> u64 {
    match &msg.payload {
        RbPayload::PrePrepare { payload } => {
            message_digest(payload, &msg.node_id.bytes, &msg.custom_message_id)
        }
        _ => panic!("not a pre-prepare"),
    }
}

#[test]
fn quorum_values() {
    let cases: [(usize, usize); 6] = [(1, 1), (2, 2), (3, 3), (4, 3), (7, 5), (10, 7)];
    for (n, q) in cases {
        assert_eq!(quorum_size(n), q, "quorum of {} peers", n);
    }
}

#[test]
fn pre_prepare_creates_instance_and_sends_prepare() {
    let t = topo(&[b"a", b"b", b"c"]);
    let mut node = Broadcaster::new(peer(b"a"));
    let msg = pre_prepare(b"b", b"id-1", b"hello");
    let d = digest_of(&msg);
    let (outcome, acts) = node.handle_pre_prepare(&msg, &t, true, true, 1000, 6000);
    assert_eq!(outcome, PrePrepareOutcome::Created);
    // the node broadcasts its own prepare; with n = 3 the quorum is 3,
    // so nothing more happens yet (originator + self = 2 prepares)
    assert_eq!(acts, vec![Action::SendPrepare { digest: d }]);
    assert_eq!(node.instances.len(), 1);
    assert_eq!(node.instances[0].phase, Phase::PrePrepared);
    assert_eq!(node.instances[0].prepares.len(), 2);
}

#[test]
fn duplicate_pre_prepare_is_discarded() {
    let t = topo(&[b"a", b"b", b"c"]);
    let mut node = Broadcaster::new(peer(b"a"));
    let msg = pre_prepare(b"b", b"id-1", b"hello");
    let (o1, _) = node.handle_pre_prepare(&msg, &t, true, true, 1000, 6000);
    assert_eq!(o1, PrePrepareOutcome::Created);
    let again = pre_prepare(b"b", b"id-1", b"hello");
    let (o2, acts) = node.handle_pre_prepare(&again, &t, true, true, 1001, 6001);
    assert_eq!(o2, PrePrepareOutcome::Duplicate);
    assert!(acts.is_empty());
    assert_eq!(node.instances.len(), 1);
}

#[test]
fn rejected_pre_prepare_blacklists_the_digest() {
    let t = topo(&[b"a", b"b", b"c"]);
    let mut node = Broadcaster::new(peer(b"a"));
    let msg = pre_prepare(b"b", b"id-1", b"bad");
    let d = digest_of(&msg);
    let (outcome, _) = node.handle_pre_prepare(&msg, &t, false, true, 1000, 6000);
    assert_eq!(outcome, PrePrepareOutcome::Rejected);
    assert!(node.is_blacklisted(d, 1000));
    let retry = pre_prepare(b"b", b"id-1", b"bad");
    let (o2, _) = node.handle_pre_prepare(&retry, &t, true, true, 1001, 6001);
    assert_eq!(o2, PrePrepareOutcome::Blacklisted);
    // after the blacklist window it may run
    let (o3, _) = node.handle_pre_prepare(&pre_prepare(b"b", b"id-1", b"bad"), &t, true, true, 7000, 12000);
    assert_eq!(o3, PrePrepareOutcome::Created);
}

#[test]
fn equivocation_first_seen_wins() {
    let t = topo(&[b"a", b"b", b"c"]);
    let mut node = Broadcaster::new(peer(b"a"));
    let first = pre_prepare(b"b", b"id-1", b"payload-one");
    let (o1, _) = node.handle_pre_prepare(&first, &t, true, true, 1000, 6000);
    assert_eq!(o1, PrePrepareOutcome::Created);
    // same id, different payload: dropped, the first instance stands
    let second = pre_prepare(b"b", b"id-1", b"payload-two");
    let (o2, _) = node.handle_pre_prepare(&second, &t, true, true, 1001, 6001);
    assert_eq!(o2, PrePrepareOutcome::Equivocation);
    assert_eq!(node.instances.len(), 1);
    assert_eq!(node.instances[0].payload, b"payload-one".to_vec());
}

#[test]
fn duplicate_prepare_does_not_double_count() {
    let t = topo(&[b"a", b"b", b"c", b"d"]);
    let mut node = Broadcaster::new(peer(b"a"));
    let msg = pre_prepare(b"a", b"id-1", b"hello");
    let d = digest_of(&msg);
    node.handle_pre_prepare(&msg, &t, true, true, 1000, 6000);
    assert_eq!(node.instances[0].prepares.len(), 1);

    let p = prepare(b"a", b"id-1", d);
    node.handle_prepare(&peer(b"b"), &p);
    assert_eq!(node.instances[0].prepares.len(), 2);
    // the same peer again: ignored
    node.handle_prepare(&peer(b"b"), &p);
    assert_eq!(node.instances[0].prepares.len(), 2);
}

#[test]
fn duplicate_commit_signature_does_not_double_count() {
    let t = topo(&[b"a", b"b", b"c", b"d"]);
    let mut node = Broadcaster::new(peer(b"a"));
    let msg = pre_prepare(b"a", b"id-1", b"hello");
    let d = digest_of(&msg);
    node.handle_pre_prepare(&msg, &t, true, true, 1000, 6000);
    let c = commit(b"a", b"id-1", d, vec![1u8; 4]);
    node.handle_commit(&peer(b"b"), &c, true);
    assert_eq!(node.instances[0].commits.entries.len(), 1);
    node.handle_commit(&peer(b"b"), &c, true);
    assert_eq!(node.instances[0].commits.entries.len(), 1);
    // a commit whose signature did not verify changes nothing at all
    node.handle_commit(&peer(b"c"), &c, false);
    assert_eq!(node.instances[0].commits.entries.len(), 1);
}

#[test]
fn handling_the_same_message_twice_equals_once() {
    let t = topo(&[b"a", b"b", b"c", b"d"]);
    let mut node = Broadcaster::new(peer(b"a"));
    let msg = pre_prepare(b"a", b"id-1", b"hello");
    let d = digest_of(&msg);
    node.handle_pre_prepare(&msg, &t, true, true, 1000, 6000);
    let p = prepare(b"a", b"id-1", d);
    node.handle_prepare(&peer(b"b"), &p);
    let prepares_once = node.instances[0].prepares.len();
    let phase_once = node.instances[0].phase;
    let acts = node.handle_prepare(&peer(b"b"), &p);
    assert!(acts.is_empty());
    assert_eq!(node.instances[0].prepares.len(), prepares_once);
    assert_eq!(node.instances[0].phase, phase_once);
}

#[test]
fn early_prepares_are_buffered_and_flushed_on_pre_prepare() {
    // n = 4, quorum 3: two early prepares + originator + self = quorum
    // at the moment the pre-prepare arrives
    let t = topo(&[b"a", b"b", b"c", b"d"]);
    let mut node = Broadcaster::new(peer(b"a"));
    let msg = pre_prepare(b"b", b"id-1", b"hello");
    let d = digest_of(&msg);

    let p = prepare(b"b", b"id-1", d);
    assert!(node.handle_prepare(&peer(b"c"), &p).is_empty());
    assert!(node.handle_prepare(&peer(b"d"), &p).is_empty());
    assert_eq!(node.buffered.len(), 2);

    let (outcome, acts) = node.handle_pre_prepare(&msg, &t, true, true, 1000, 6000);
    assert_eq!(outcome, PrePrepareOutcome::Created);
    assert!(node.buffered.is_empty());
    // originator b and self a are seeded; flushing c reaches the quorum
    // of 3 and moves the instance to Prepared, so d's prepare is then
    // ignored exactly as a live arrival in Prepared would be
    assert_eq!(node.instances[0].prepares.len(), 3);
    assert_eq!(node.instances[0].phase, Phase::Prepared);
    assert_eq!(
        acts,
        vec![Action::SendPrepare { digest: d }, Action::SendCommit { digest: d }]
    );
}

#[test]
fn flushed_votes_equal_live_arrival() {
    // the same votes, once buffered before the pre-prepare and once
    // arriving after it, leave the two nodes in the same instance state
    let t = topo(&[b"a", b"b", b"c", b"d"]);
    let msg = pre_prepare(b"b", b"id-1", b"hello");
    let d = digest_of(&msg);
    let votes: Vec<(&[u8], RbMsg)> = vec![
        (b"c", prepare(b"b", b"id-1", d)),
        (b"d", prepare(b"b", b"id-1", d)),
        (b"b", commit(b"b", b"id-1", d, vec![1u8; 4])),
        (b"c", commit(b"b", b"id-1", d, vec![2u8; 4])),
        (b"d", commit(b"b", b"id-1", d, vec![3u8; 4])),
    ];

    let mut early = Broadcaster::new(peer(b"a"));
    for (who, m) in &votes {
        match m.payload {
            RbPayload::Prepare { .. } => {
                early.handle_prepare(&peer(who), m);
            }
            _ => {
                early.handle_commit(&peer(who), m, true);
            }
        }
    }
    early.handle_pre_prepare(&msg, &t, true, true, 1000, 6000);

    let mut live = Broadcaster::new(peer(b"a"));
    live.handle_pre_prepare(&msg, &t, true, true, 1000, 6000);
    for (who, m) in &votes {
        match m.payload {
            RbPayload::Prepare { .. } => {
                live.handle_prepare(&peer(who), m);
            }
            _ => {
                live.handle_commit(&peer(who), m, true);
            }
        }
    }

    let a = &early.instances[0];
    let b = &live.instances[0];
    assert_eq!(a.phase, b.phase);
    assert_eq!(a.phase, Phase::Delivered);
    assert_eq!(a.prepares.len(), b.prepares.len());
    assert_eq!(a.commits.entries.len(), b.commits.entries.len());
    for (x, y) in a.commits.entries.iter().zip(b.commits.entries.iter()) {
        assert_eq!(x.0.bytes, y.0.bytes);
        assert_eq!(x.1, y.1);
    }
}

#[test]
fn per_peer_buffer_cap_drops_the_oldest() {
    let mut node = Broadcaster::new(peer(b"a"));
    for k in 0..70u64 {
        let p = prepare(b"b", b"id-x", 1000 + k);
        node.handle_prepare(&peer(b"b"), &p);
    }
    assert_eq!(node.buffered.len(), 64);
    // the oldest messages were dropped: the first buffered digest now is 1006
    match &node.buffered[0].1.payload {
        RbPayload::Prepare { digest } => assert_eq!(*digest, 1006),
        _ => panic!("expected a prepare"),
    }
}

#[test]
fn signatures_from_outside_the_frozen_snapshot_are_ignored() {
    // instance created with {a, b, c}; a later member d carries no weight
    let t = topo(&[b"a", b"b", b"c"]);
    let mut node = Broadcaster::new(peer(b"a"));
    let msg = pre_prepare(b"a", b"id-1", b"hello");
    let d = digest_of(&msg);
    node.handle_pre_prepare(&msg, &t, true, true, 1000, 6000);
    assert_eq!(node.instances[0].prepares.len(), 1);

    let p = prepare(b"a", b"id-1", d);
    node.handle_prepare(&peer(b"d"), &p);
    assert_eq!(node.instances[0].prepares.len(), 1, "d is not in the snapshot");
    // quorum for this instance stays 3 = quorum of the frozen snapshot
    assert_eq!(node.instances[0].topology.quorum(), 3);

    node.handle_prepare(&peer(b"b"), &p);
    node.handle_prepare(&peer(b"c"), &p);
    assert_eq!(node.instances[0].phase, Phase::Prepared);
}

#[test]
fn delivery_on_commit_quorum_and_terminal_delivered() {
    let t = topo(&[b"a", b"b", b"c"]);
    let mut node = Broadcaster::new(peer(b"a"));
    let msg = pre_prepare(b"a", b"id-1", b"hello");
    let d = digest_of(&msg);
    node.handle_pre_prepare(&msg, &t, true, true, 1000, 6000);
    let p = prepare(b"a", b"id-1", d);
    assert!(node.handle_prepare(&peer(b"b"), &p).is_empty());
    let acts = node.handle_prepare(&peer(b"c"), &p);
    assert_eq!(acts, vec![Action::SendCommit { digest: d }]);

    for (who, sig) in [(b"a", 1u8), (b"b", 2u8), (b"c", 3u8)] {
        let c = commit(b"a", b"id-1", d, vec![sig; 4]);
        let acts = node.handle_commit(&peer(who), &c, true);
        if who == b"c" {
            assert_eq!(acts, vec![Action::Deliver { digest: d }]);
        } else {
            assert!(acts.is_empty());
        }
    }
    assert_eq!(node.instances[0].phase, Phase::Delivered);

    // re-receipt in Delivered: discarded, no rebroadcast
    let c = commit(b"a", b"id-1", d, vec![9u8; 4]);
    assert!(node.handle_commit(&peer(b"b"), &c, true).is_empty());
    assert_eq!(node.instances[0].commits.entries.len(), 3);

    let delivered = node.take_delivered(d).expect("delivered message");
    assert_eq!(delivered.payload, b"hello".to_vec());
    assert_eq!(delivered.certificate.entries.len(), 3);
    assert!(node.instances.is_empty());
    assert!(node.take_delivered(d).is_none());
}

#[test]
fn eviction_drops_expired_instances_and_blacklists_them() {
    let t = topo(&[b"a", b"b", b"c"]);
    let mut node = Broadcaster::new(peer(b"a"));
    let msg = pre_prepare(b"a", b"id-1", b"hello");
    let d = digest_of(&msg);
    node.handle_pre_prepare(&msg, &t, true, true, 1000, 6000);

    // not yet expired
    node.evict_expired(50_000, 60_000, 55_000);
    assert_eq!(node.instances.len(), 1);

    // past the TTL: dropped and briefly blacklisted
    node.evict_expired(61_001, 60_000, 66_001);
    assert!(node.instances.is_empty());
    assert!(node.is_blacklisted(d, 61_001));
    assert!(!node.is_blacklisted(d, 66_002));
}
