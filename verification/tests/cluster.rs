//! End-to-end scenarios over simulated nodes: delivery with one and
//! several nodes, block building and chaining, certificate checking,
//! catch-up from a peer's block, and the signature-checking application.

use ephemera::application::{DummyApplication, SignatureVerificationApplication};
use ephemera::block::{ApiEphemeraMessage, Block, RawApiEphemeraMessage};
use ephemera::broadcaster::{Broadcaster, DeliveredMessage, PrePrepareOutcome};
use ephemera::certificate::Certificate;
use ephemera::client::{pre_prepare_msg, quorum_message};
use ephemera::crypto::NodeKeypair;
use ephemera::framing::{read_frame, DEFAULT_MAX_FRAME};
use ephemera::instance::Action;
use ephemera::manager::{
    hash_sign_bytes, verify_certificate, BlockAcceptance, BlockManager, CheckBlockResult,
};
use ephemera::membership::{ConfigMembersProvider, MembershipCache};
use ephemera::node::{Configuration, EphemeraStarter, NodeInfo};
use ephemera::peer::{Peer, PeerId};
use ephemera::topology::TopologySnapshot;
use ephemera::wire::{decode_msg, RbMsg, RbPayload};

struct SimNode {
    keypair: NodeKeypair,
    broadcaster: Broadcaster,
    manager: BlockManager,
}

impl SimNode {
    fn new() -> SimNode {
        let keypair = NodeKeypair::generate();
        let id = keypair.peer_id();
        let broadcaster = Broadcaster::new(PeerId { bytes: id.bytes.clone() });
        let mut manager =
            BlockManager::new(PeerId { bytes: keypair.peer.clone() }, 16, false);
        manager.create_genesis(0, &TopologySnapshot::from_peers(&Vec::new()));
        SimNode { keypair, broadcaster, manager }
    }

    fn peer_id(&self) -> PeerId {
        PeerId { bytes: self.keypair.peer.clone() }
    }

    fn peer_entry(&self) -> Peer {
        Peer::new(self.peer_id(), self.keypair.public.clone())
    }
}

fn snapshot_of(nodes: &[&SimNode]) -> TopologySnapshot {
    let peers: Vec<Peer> = nodes.iter().map(|n| n.peer_entry()).collect();
    TopologySnapshot::from_peers(&peers)
}

fn prepare_of(template: &RbMsg, digest: u64) -> RbMsg {
    RbMsg {
        id: template.id.clone(),
        node_id: PeerId { bytes: template.node_id.bytes.clone() },
        timestamp_secs: template.timestamp_secs,
        timestamp_nanos: template.timestamp_nanos,
        custom_message_id: template.custom_message_id.clone(),
        payload: RbPayload::Prepare { digest },
    }
}

fn commit_of(template: &RbMsg, digest: u64, signature: Vec<u8>) -> RbMsg {
    RbMsg {
        id: template.id.clone(),
        node_id: PeerId { bytes: template.node_id.bytes.clone() },
        timestamp_secs: template.timestamp_secs,
        timestamp_nanos: template.timestamp_nanos,
        custom_message_id: template.custom_message_id.clone(),
        payload: RbPayload::Commit { digest, signature },
    }
}

/// Routes broadcast actions among the live nodes until nothing new
/// happens; returns the digests each node delivered.
fn run_round(
    nodes: &mut Vec<SimNode>,
    live: &[usize],
    topo: &TopologySnapshot,
    template: &RbMsg,
    mut pending: Vec<(usize, Action)>,
) -> Vec<(usize, u64)> {
    let mut delivered = Vec::new();
    while let Some((from, act)) = pending.pop() {
        match act {
            Action::SendPrepare { digest } => {
                let sender = nodes[from].peer_id();
                let msg = prepare_of(template, digest);
                for &j in live {
                    if j != from {
                        for a in nodes[j].broadcaster.handle_prepare(&sender, &msg) {
                            pending.push((j, a));
                        }
                    }
                }
            }
            Action::SendCommit { digest } => {
                let sig = nodes[from].keypair.sign(&hash_sign_bytes(digest));
                let sender_pk = nodes[from].keypair.public.clone();
                let sender = nodes[from].peer_id();
                // every receiver (the sender included) verifies the
                // commit signature before counting it
                for &j in live {
                    let m = commit_of(template, digest, sig.clone());
                    let who = PeerId { bytes: sender.bytes.clone() };
                    let sig_ok = ephemera::crypto::verify_bytes(
                        &sender_pk,
                        &hash_sign_bytes(digest),
                        &sig,
                    );
                    assert!(sig_ok);
                    for a in nodes[j].broadcaster.handle_commit(&who, &m, sig_ok) {
                        pending.push((j, a));
                    }
                }
            }
            Action::Deliver { digest } => {
                delivered.push((from, digest));
            }
        }
    }
    let _ = topo;
    delivered
}

fn block_from_delivered(node: &mut SimNode, d: DeliveredMessage, timestamp: u64) -> Block {
    let cert_len = d.certificate.entries.len();
    let api = ApiEphemeraMessage::from_delivered(d);
    assert_eq!(api.certificate.entries.len(), cert_len);
    node.manager.on_delivered(api);
    node.manager.build_next(timestamp).expect("a block")
}

fn self_signed_cert(kp: &NodeKeypair, hash: u64) -> Certificate {
    let mut cert = Certificate::empty();
    let sig = kp.sign(&hash_sign_bytes(hash));
    assert!(cert.add_signature(&PeerId { bytes: kp.peer.clone() }, sig));
    cert
}

#[test]
fn single_node_single_message() {
    let mut nodes = vec![SimNode::new()];
    let topo = snapshot_of(&[&nodes[0]]);
    assert_eq!(topo.quorum(), 1);

    let submitter = nodes[0].peer_id();
    let msg = pre_prepare_msg(&submitter, b"hello".to_vec());
    let (outcome, acts) =
        nodes[0].broadcaster.handle_pre_prepare(&msg, &topo, true, true, 1000, 6000);
    assert_eq!(outcome, PrePrepareOutcome::Created);
    let delivered = run_round(&mut nodes, &[0], &topo, &msg,
        acts.into_iter().map(|a| (0, a)).collect());
    assert_eq!(delivered.len(), 1);
    let (_, digest) = delivered[0];

    let d = nodes[0].broadcaster.take_delivered(digest).expect("delivered");
    // the certificate holds exactly this node's signature
    assert_eq!(d.certificate.entries.len(), 1);
    assert_eq!(d.certificate.entries[0].0.bytes, nodes[0].keypair.peer);
    assert!(verify_certificate(&d.certificate, &topo, &hash_sign_bytes(digest)));

    let block = block_from_delivered(&mut nodes[0], d, 2000);
    assert_eq!(block.header.height, 1, "the first content block sits above the genesis block");
    assert_eq!(block.messages.len(), 1);
    assert_eq!(block.messages[0].message.payload, b"hello".to_vec());

    let cert = self_signed_cert(&nodes[0].keypair, block.header.hash);
    let committed = nodes[0].manager.commit_block(block, cert, &topo);
    assert!(committed);
    assert_eq!(nodes[0].manager.storage.height(), 2);
    let last = nodes[0].manager.storage.get_last_block().expect("a block");
    assert_eq!(last.header.height, 1);
    assert_eq!(
        last.header.previous_hash,
        nodes[0].manager.storage.get_block_by_height(0).expect("genesis").header.hash
    );
}

#[test]
fn three_nodes_all_honest() {
    let mut nodes = vec![SimNode::new(), SimNode::new(), SimNode::new()];
    let topo = snapshot_of(&[&nodes[0], &nodes[1], &nodes[2]]);
    assert_eq!(topo.quorum(), 3);

    let submitter = nodes[0].peer_id();
    let msg = pre_prepare_msg(&submitter, b"tx-A".to_vec());
    let mut pending = Vec::new();
    for i in 0..3 {
        let (outcome, acts) =
            nodes[i].broadcaster.handle_pre_prepare(&msg, &topo, true, true, 1000, 6000);
        assert_eq!(outcome, PrePrepareOutcome::Created);
        for a in acts {
            pending.push((i, a));
        }
    }
    let delivered = run_round(&mut nodes, &[0, 1, 2], &topo, &msg, pending);
    assert_eq!(delivered.len(), 3, "every honest node delivers");

    for i in 0..3 {
        let digest = delivered.iter().find(|(n, _)| *n == i).expect("delivered").1;
        let d = nodes[i].broadcaster.take_delivered(digest).expect("delivered");
        assert_eq!(d.certificate.entries.len(), 3, "three commit signatures");
        assert!(verify_certificate(&d.certificate, &topo, &hash_sign_bytes(digest)));
        assert_eq!(d.payload, b"tx-A".to_vec());
        let block = block_from_delivered(&mut nodes[i], d, 2000);
        assert_eq!(block.messages[0].message.payload, b"tx-A".to_vec());
        let kp_hash = block.header.hash;
        let cert = self_signed_cert(&nodes[i].keypair, kp_hash);
        assert!(nodes[i].manager.commit_block(block, cert, &topo));
        assert_eq!(nodes[i].manager.storage.height(), 2);
    }
}

#[test]
fn four_nodes_one_crashed() {
    let mut nodes = vec![SimNode::new(), SimNode::new(), SimNode::new(), SimNode::new()];
    let topo = snapshot_of(&[&nodes[0], &nodes[1], &nodes[2], &nodes[3]]);
    assert_eq!(topo.quorum(), 3);

    // node 3 is offline: only 0, 1, 2 take part
    let live = [0usize, 1, 2];
    let submitter = nodes[0].peer_id();
    let msg = pre_prepare_msg(&submitter, b"tx-B".to_vec());
    let mut pending = Vec::new();
    for &i in &live {
        let (outcome, acts) =
            nodes[i].broadcaster.handle_pre_prepare(&msg, &topo, true, true, 1000, 6000);
        assert_eq!(outcome, PrePrepareOutcome::Created);
        for a in acts {
            pending.push((i, a));
        }
    }
    let delivered = run_round(&mut nodes, &live, &topo, &msg, pending);
    assert_eq!(delivered.len(), 3, "three live nodes reach the quorum of 3");

    // node 0 builds and persists the block; the rejoined node replays
    // the chain from its peer, block by block, onto a fresh store
    let digest = delivered.iter().find(|(n, _)| *n == 0).expect("delivered").1;
    let d = nodes[0].broadcaster.take_delivered(digest).expect("delivered");
    let block = block_from_delivered(&mut nodes[0], d, 2000);
    let cert = self_signed_cert(&nodes[0].keypair, block.header.hash);
    assert!(nodes[0].manager.commit_block(block, cert, &topo));

    let mut rejoined = BlockManager::new(nodes[3].peer_id(), 16, false);
    for h in 0..2u64 {
        let replayed = {
            let b = nodes[0].manager.storage.get_block_by_height(h).expect("a block");
            let enc = ephemera::block::encode_block(b);
            ephemera::block::decode_block(&enc, 0).expect("decodes").0
        };
        let replay_cert = self_signed_cert(&nodes[0].keypair, replayed.header.hash);
        assert_eq!(
            rejoined.handle_remote_block(replayed, replay_cert, &topo),
            BlockAcceptance::Extended
        );
    }
    assert_eq!(rejoined.storage.height(), 2);
    assert_eq!(
        rejoined.storage.get_last_block().expect("block").messages[0].message.payload,
        b"tx-B".to_vec()
    );
    // a block that does not link to the replayed chain is a fork
    let stray = {
        let b = nodes[0].manager.storage.get_block_by_height(1).expect("a block");
        let enc = ephemera::block::encode_block(b);
        ephemera::block::decode_block(&enc, 0).expect("decodes").0
    };
    assert_eq!(
        rejoined.handle_remote_block(stray, Certificate::empty(), &topo),
        BlockAcceptance::Forked
    );
}

#[test]
fn remote_block_with_duplicate_certificate_entries_is_a_fork() {
    // a certificate must hold at most one signature per peer; a remote
    // block carrying the same peer twice is refused even though each
    // signature verifies
    let node = SimNode::new();
    let topo = snapshot_of(&[&node]);
    let mut fresh = BlockManager::new(node.peer_id(), 16, false);
    let genesis = {
        let g = node.manager.storage.get_block_by_height(0).expect("genesis");
        let enc = ephemera::block::encode_block(g);
        ephemera::block::decode_block(&enc, 0).expect("decodes").0
    };
    let sig = node.keypair.sign(&hash_sign_bytes(genesis.header.hash));
    let doubled = Certificate {
        entries: vec![
            (node.peer_id(), sig.clone()),
            (node.peer_id(), sig),
        ],
    };
    assert_eq!(
        fresh.handle_remote_block(genesis, doubled, &topo),
        BlockAcceptance::Forked
    );
    assert_eq!(fresh.storage.height(), 0);
}

#[test]
fn remote_block_with_wrong_link_is_a_fork() {
    let mut node = SimNode::new();
    let topo = snapshot_of(&[&node]);
    let mut other = SimNode::new();
    other.manager.on_delivered(ApiEphemeraMessage {
        message: RawApiEphemeraMessage {
            id: b"id-9".to_vec(),
            node_id: other.peer_id(),
            custom_message_id: b"tag".to_vec(),
            payload: b"zzz".to_vec(),
        },
        certificate: Certificate::empty(),
    });
    let foreign = other.manager.build_next(500).expect("a block");
    // built on the other node's genesis: previous_hash does not match
    let cert = self_signed_cert(&node.keypair, foreign.header.hash);
    assert_eq!(
        node.manager.handle_remote_block(foreign, cert, &topo),
        BlockAcceptance::Forked
    );
    assert_eq!(node.manager.storage.height(), 1);
}

#[test]
fn certificate_of_unknown_peer_is_refused() {
    let node = SimNode::new();
    let stranger = NodeKeypair::generate();
    let topo = snapshot_of(&[&node]);
    let msg = hash_sign_bytes(77);
    let mut cert = Certificate::empty();
    let sig = stranger.sign(&msg);
    cert.add_signature(&PeerId { bytes: stranger.peer.clone() }, sig);
    assert!(!verify_certificate(&cert, &topo, &msg));
}

#[test]
fn tampered_signature_is_refused() {
    let node = SimNode::new();
    let topo = snapshot_of(&[&node]);
    let msg = hash_sign_bytes(77);
    let mut sig = node.keypair.sign(&msg);
    sig[0] ^= 0xFF;
    let mut cert = Certificate::empty();
    cert.add_signature(&PeerId { bytes: node.keypair.peer.clone() }, sig);
    assert!(!verify_certificate(&cert, &topo, &msg));
}

#[test]
fn signature_application_accepts_own_and_rejects_foreign() {
    let kp = NodeKeypair::generate();
    let own_peer = PeerId { bytes: kp.peer.clone() };
    let own_entry = Peer::new(PeerId { bytes: kp.peer.clone() }, kp.public.clone());
    let topo = TopologySnapshot::from_peers(&vec![own_entry]);
    let app = SignatureVerificationApplication::new(kp);
    let raw = RawApiEphemeraMessage {
        id: b"id-1".to_vec(),
        node_id: PeerId { bytes: own_peer.bytes.clone() },
        custom_message_id: b"tag".to_vec(),
        payload: b"hello".to_vec(),
    };
    let encoded = ephemera::block::encode_raw(&raw);
    let sig = app.keypair.sign(&encoded);
    let mut cert = Certificate::empty();
    cert.add_signature(&PeerId { bytes: own_peer.bytes.clone() }, sig);
    let msg = ApiEphemeraMessage { message: raw, certificate: cert };
    assert!(app.check_tx(&msg, &topo), "signed by the originator under its known key");

    // an originator the topology does not know has no known key
    let other = NodeKeypair::generate();
    let raw2 = RawApiEphemeraMessage {
        id: b"id-2".to_vec(),
        node_id: PeerId { bytes: other.peer.clone() },
        custom_message_id: b"tag".to_vec(),
        payload: b"hello".to_vec(),
    };
    let encoded2 = ephemera::block::encode_raw(&raw2);
    let sig2 = other.sign(&encoded2);
    let mut cert2 = Certificate::empty();
    cert2.add_signature(&PeerId { bytes: other.peer.clone() }, sig2.clone());
    let msg2 = ApiEphemeraMessage { message: raw2, certificate: cert2 };
    assert!(!app.check_tx(&msg2, &topo), "unknown originator");

    // a known originator whose certificate holds only a stranger's
    // signature is refused too
    let raw3 = RawApiEphemeraMessage {
        id: b"id-3".to_vec(),
        node_id: PeerId { bytes: own_peer.bytes.clone() },
        custom_message_id: b"tag".to_vec(),
        payload: b"hello".to_vec(),
    };
    let encoded3 = ephemera::block::encode_raw(&raw3);
    let sig3 = other.sign(&encoded3);
    let mut cert3 = Certificate::empty();
    cert3.add_signature(&PeerId { bytes: other.peer.clone() }, sig3);
    let msg3 = ApiEphemeraMessage { message: raw3, certificate: cert3 };
    assert!(!app.check_tx(&msg3, &topo), "not signed under the originator's key");

    let dummy = DummyApplication;
    assert!(dummy.check_tx(&msg3));
    assert_eq!(dummy.check_block(&Block {
        header: ephemera::block::BlockHeader {
            height: 0,
            previous_hash: 0,
            hash: 0,
            timestamp: 0,
            proposer: PeerId { bytes: vec![1] },
        },
        messages: Vec::new(),
    }), CheckBlockResult::Accept);
}

#[test]
fn membership_change_takes_effect_for_later_instances_only() {
    let a = SimNode::new();
    let b = SimNode::new();
    let c = SimNode::new();
    let d = SimNode::new();
    let mut cache = MembershipCache::new(snapshot_of(&[&a, &b, &c]));
    let old_snapshot = cache.snapshot();
    assert_eq!(old_snapshot.quorum(), 3);

    // a failed fetch leaves the last good snapshot in effect
    cache.update(None);
    assert_eq!(cache.snapshot().len(), 3);

    // the update to {a, b, c, d} shows up in snapshots taken afterwards
    cache.update(Some(vec![a.peer_entry(), b.peer_entry(), c.peer_entry(), d.peer_entry()]));
    let new_snapshot = cache.snapshot();
    assert_eq!(new_snapshot.len(), 4);
    assert_eq!(new_snapshot.quorum(), 3);
    // the instance that froze the old snapshot still refuses d
    assert!(!old_snapshot.contains(&d.peer_id()));
    assert!(new_snapshot.contains(&d.peer_id()));
}

#[test]
fn client_request_decodes_on_the_node() {
    let kp = NodeKeypair::generate();
    let sender = kp.peer_id();
    let msg = pre_prepare_msg(&sender, b"hello".to_vec());
    assert_eq!(msg.id.len(), 36);
    assert!(msg.custom_message_id.starts_with(b"epoch-"));
    let framed = quorum_message(&msg);
    let (payload, next) = read_frame(&framed, 0, DEFAULT_MAX_FRAME)
        .expect("no error")
        .expect("complete frame");
    assert_eq!(next, framed.len());
    let (decoded, used) = decode_msg(&payload, 0).expect("decodes");
    assert_eq!(used, payload.len());
    assert_eq!(decoded.id, msg.id);
    assert_eq!(decoded.node_id.bytes, sender.bytes);
}

#[test]
fn node_info_addresses_and_starter_stages() {
    let kp = NodeKeypair::generate();
    let config = Configuration {
        node_ip: b"127.0.0.1".to_vec(),
        node_private_key: kp.secret.clone(),
        libp2p_port: 3000,
        http_port: 7000,
        websocket_port: 8000,
        block_creation_interval_ms: 1000,
        block_max_messages: 32,
        block_empty_blocks_allowed: false,
    };
    let info = NodeInfo::new(config.duplicate()).expect("the key decodes");
    assert_eq!(info.protocol_address(), b"/ip4/127.0.0.1/tcp/3000".to_vec());
    assert_eq!(info.api_address_http(), b"http://127.0.0.1:7000".to_vec());
    assert_eq!(info.ws_address_ws(), b"ws://127.0.0.1:8000".to_vec());
    assert_eq!(info.ws_address_ip_port(), b"127.0.0.1:8000".to_vec());
    assert_eq!(info.peer_id.bytes, kp.peer);

    let starter: EphemeraStarter<ConfigMembersProvider, DummyApplication> =
        EphemeraStarter::new(config).expect("the key decodes");
    let starter = starter.with_peer_discovery(ConfigMembersProvider::init(Vec::new()));
    let starter = starter.with_application(DummyApplication);
    assert!(starter.peer_discovery.is_some());
    let starter = starter.init_block_manager();
    assert!(starter.application.is_some());
    let manager = starter.block_manager.expect("built");
    assert_eq!(manager.max_messages, 32);
    assert!(!manager.empty_blocks_allowed);

    let bad = Configuration {
        node_ip: b"127.0.0.1".to_vec(),
        node_private_key: vec![1, 2, 3],
        libp2p_port: 1,
        http_port: 2,
        websocket_port: 3,
        block_creation_interval_ms: 1000,
        block_max_messages: 1,
        block_empty_blocks_allowed: true,
    };
    assert!(NodeInfo::new(bad).is_none());
}

#[test]
fn empty_and_postponed_blocks() {
    let mut node = SimNode::new();
    // no messages and empty blocks not allowed: no block
    assert!(node.manager.build_next(100).is_none());

    node.manager.on_delivered(ApiEphemeraMessage {
        message: RawApiEphemeraMessage {
            id: b"id-1".to_vec(),
            node_id: node.peer_id(),
            custom_message_id: b"tag".to_vec(),
            payload: b"one".to_vec(),
        },
        certificate: Certificate::empty(),
    });
    let b = node.manager.build_next(100).expect("a block");
    assert_eq!(b.messages.len(), 1);
    assert!(node.manager.inbox.is_empty());
    // the application postpones it: the messages go back in front
    node.manager.postpone_messages(b.messages);
    assert_eq!(node.manager.inbox.len(), 1);
    let again = node.manager.build_next(101).expect("a block");
    assert_eq!(again.messages[0].message.payload, b"one".to_vec());

    // providers
    assert!(ephemera::membership::DummyMembersProvider::empty_peers_list().is_empty());
    let provider = ConfigMembersProvider::init(vec![node.peer_entry()]);
    assert_eq!(provider.snapshot().len(), 1);
    let http = ephemera::membership::HttpMembersProvider::new(String::from(
        "http://localhost:8000/peers",
    ));
    assert_eq!(http.url, "http://localhost:8000/peers");
}
