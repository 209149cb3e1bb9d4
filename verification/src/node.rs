//! Node-level wiring that is pure data: the node's identity and
//! addresses, its configuration, the staged startup builder and the
//! command-line surface. Listening, spawning and I/O live at the
//! node's edge, outside this crate's verified core.

use vstd::prelude::*;

use crate::broadcaster::Broadcaster;
use crate::crypto::{peer_id_of, public_key_of, NodeKeypair};
use crate::manager::BlockManager;
use crate::peer::PeerId;
use crate::topology::clone_bytes;

verus! {

/// A node's configuration, as plain values: what the config file's
/// keys parse to.
#[derive(Debug)]
pub struct Configuration {
    /// `node.ip`, as ASCII bytes.
    pub node_ip: Vec<u8>,
    /// `node.private_key`: the protobuf encoding of the keypair.
    pub node_private_key: Vec<u8>,
    /// `libp2p.port`.
    pub libp2p_port: u16,
    /// `http.port`.
    pub http_port: u16,
    /// `websocket.port`.
    pub websocket_port: u16,
    /// `block.creation_interval_ms`.
    pub block_creation_interval_ms: u64,
    /// `block.max_messages`.
    pub block_max_messages: usize,
    /// `block.empty_blocks_allowed`.
    pub block_empty_blocks_allowed: bool,
}

impl Configuration {
    /// A structurally equal copy of the configuration.
    pub fn duplicate(&self) -> (r: Configuration)
        ensures
            r.node_ip@ == self.node_ip@,
            r.node_private_key@ == self.node_private_key@,
            r.libp2p_port == self.libp2p_port,
            r.http_port == self.http_port,
            r.websocket_port == self.websocket_port,
            r.block_creation_interval_ms == self.block_creation_interval_ms,
            r.block_max_messages == self.block_max_messages,
            r.block_empty_blocks_allowed == self.block_empty_blocks_allowed,
    {
        Configuration {
            node_ip: clone_bytes(&self.node_ip),
            node_private_key: clone_bytes(&self.node_private_key),
            libp2p_port: self.libp2p_port,
            http_port: self.http_port,
            websocket_port: self.websocket_port,
            block_creation_interval_ms: self.block_creation_interval_ms,
            block_max_messages: self.block_max_messages,
            block_empty_blocks_allowed: self.block_empty_blocks_allowed,
        }
    }
}

/// The decimal digits of `n`, most significant first.
pub open spec fn dec_enc(n: u64) -> Seq<u8>
    decreases n,
{
    if n < 10 {
        seq![(48 + n) as u8]
    } else {
        dec_enc(n / 10) + seq![(48 + n % 10) as u8]
    }
}

/// Appends the decimal digits of `n` to `out`.
pub fn push_decimal(out: &mut Vec<u8>, n: u64)
    ensures
        final(out)@ == old(out)@ + dec_enc(n),
    decreases n,
{
    if n >= 10 {
        push_decimal(out, n / 10);
    }
    let ghost before = out@;
    out.push((48 + n % 10) as u8);
    proof {
        if n < 10 {
            assert(out@ =~= old(out)@ + dec_enc(n));
        } else {
            assert(out@ =~= old(out)@ + dec_enc(n));
        }
    }
}

/// What this node is: its identity and where it listens. Immutable
/// after startup, shared by reference.
pub struct NodeInfo {
    /// The node's IP, as ASCII bytes.
    pub ip: Vec<u8>,
    /// The broadcast protocol port.
    pub protocol_port: u16,
    /// The HTTP API port.
    pub http_port: u16,
    /// The WebSocket port.
    pub ws_port: u16,
    /// The node's peer id, derived from its keypair.
    pub peer_id: PeerId,
    /// The node's signing keypair.
    pub keypair: NodeKeypair,
    /// The configuration the node started with.
    pub initial_config: Configuration,
}

/// The address bytes `prefix ++ ip ++ middle ++ decimal(port)`.
pub open spec fn address_enc(prefix: Seq<u8>, ip: Seq<u8>, middle: Seq<u8>, port: u16) -> Seq<u8> {
    prefix + ip + middle + dec_enc(port as u64)
}

impl NodeInfo {
    /// Builds the node's identity from its configuration: the keypair
    /// read from the configured private key, the peer id derived from
    /// it. `None` exactly where the configured key does not decode.
    pub fn new(config: Configuration) -> (r: Option<NodeInfo>)
        ensures
            r is Some <==> crate::crypto::keypair_decodes(config.node_private_key@),
            r is Some ==> {
                &&& r->0.ip@ == config.node_ip@
                &&& r->0.protocol_port == config.libp2p_port
                &&& r->0.http_port == config.http_port
                &&& r->0.ws_port == config.websocket_port
                &&& r->0.initial_config == config
                &&& r->0.keypair.wf()
                &&& r->0.keypair.secret@ == config.node_private_key@
                &&& r->0.keypair.public@ == public_key_of(config.node_private_key@)
                &&& r->0.peer_id@ == peer_id_of(r->0.keypair.public@)
            },
    {
        let keypair = match NodeKeypair::from_protobuf(&config.node_private_key) {
            None => {
                return None;
            },
            Some(k) => k,
        };
        let peer_id = keypair.peer_id();
        Some(
            NodeInfo {
                ip: clone_bytes(&config.node_ip),
                protocol_port: config.libp2p_port,
                http_port: config.http_port,
                ws_port: config.websocket_port,
                peer_id,
                keypair,
                initial_config: config,
            },
        )
    }

    /// The multiaddr this node's protocol listens on:
    /// `/ip4/<ip>/tcp/<port>`.
    pub fn protocol_address(&self) -> (r: Vec<u8>)
        ensures
            r@ == address_enc(
                seq![47u8, 105u8, 112u8, 52u8, 47u8],
                self.ip@,
                seq![47u8, 116u8, 99u8, 112u8, 47u8],
                self.protocol_port,
            ),
    {
        let mut out: Vec<u8> = vec![47u8, 105u8, 112u8, 52u8, 47u8];
        crate::framing::push_bytes(&mut out, &self.ip);
        let mid: Vec<u8> = vec![47u8, 116u8, 99u8, 112u8, 47u8];
        crate::framing::push_bytes(&mut out, &mid);
        push_decimal(&mut out, self.protocol_port as u64);
        proof {
            assert(out@ =~= address_enc(
                seq![47u8, 105u8, 112u8, 52u8, 47u8],
                self.ip@,
                seq![47u8, 116u8, 99u8, 112u8, 47u8],
                self.protocol_port,
            ));
        }
        out
    }

    /// The HTTP API address: `http://<ip>:<port>`.
    pub fn api_address_http(&self) -> (r: Vec<u8>)
        ensures
            r@ == address_enc(
                seq![104u8, 116u8, 116u8, 112u8, 58u8, 47u8, 47u8],
                self.ip@,
                seq![58u8],
                self.http_port,
            ),
    {
        let mut out: Vec<u8> = vec![104u8, 116u8, 116u8, 112u8, 58u8, 47u8, 47u8];
        crate::framing::push_bytes(&mut out, &self.ip);
        out.push(58u8);
        push_decimal(&mut out, self.http_port as u64);
        proof {
            assert(out@ =~= address_enc(
                seq![104u8, 116u8, 116u8, 112u8, 58u8, 47u8, 47u8],
                self.ip@,
                seq![58u8],
                self.http_port,
            ));
        }
        out
    }

    /// The WebSocket address: `ws://<ip>:<port>`.
    pub fn ws_address_ws(&self) -> (r: Vec<u8>)
        ensures
            r@ == address_enc(
                seq![119u8, 115u8, 58u8, 47u8, 47u8],
                self.ip@,
                seq![58u8],
                self.ws_port,
            ),
    {
        let mut out: Vec<u8> = vec![119u8, 115u8, 58u8, 47u8, 47u8];
        crate::framing::push_bytes(&mut out, &self.ip);
        out.push(58u8);
        push_decimal(&mut out, self.ws_port as u64);
        proof {
            assert(out@ =~= address_enc(
                seq![119u8, 115u8, 58u8, 47u8, 47u8],
                self.ip@,
                seq![58u8],
                self.ws_port,
            ));
        }
        out
    }

    /// The bare `<ip>:<port>` the WebSocket listener binds.
    pub fn ws_address_ip_port(&self) -> (r: Vec<u8>)
        ensures
            r@ == address_enc(Seq::<u8>::empty(), self.ip@, seq![58u8], self.ws_port),
    {
        let mut out: Vec<u8> = Vec::new();
        crate::framing::push_bytes(&mut out, &self.ip);
        out.push(58u8);
        push_decimal(&mut out, self.ws_port as u64);
        proof {
            assert(out@ =~= address_enc(Seq::<u8>::empty(), self.ip@, seq![58u8], self.ws_port));
        }
        out
    }
}

/// Staged startup: pure construction of the node's verified state. Each
/// stage fills one collaborator; what allocates sockets or spawns tasks
/// lives at the node's edge.
pub struct EphemeraStarter<P, A> {
    pub node_info: NodeInfo,
    pub broadcaster: Broadcaster,
    pub block_manager: Option<BlockManager>,
    pub peer_discovery: Option<P>,
    pub application: Option<A>,
}

impl<P, A> EphemeraStarter<P, A> {
    /// The first stage: pure data, no resource allocation. `None`
    /// exactly where the configured private key does not decode.
    pub fn new(config: Configuration) -> (r: Option<EphemeraStarter<P, A>>)
        ensures
            r is Some <==> crate::crypto::keypair_decodes(config.node_private_key@),
            r is Some ==> {
                &&& r->0.node_info.ip@ == config.node_ip@
                &&& r->0.node_info.protocol_port == config.libp2p_port
                &&& r->0.node_info.http_port == config.http_port
                &&& r->0.node_info.ws_port == config.websocket_port
                &&& r->0.node_info.initial_config == config
                &&& r->0.node_info.keypair.wf()
                &&& r->0.node_info.keypair.secret@ == config.node_private_key@
                &&& r->0.node_info.peer_id@ == peer_id_of(
                    public_key_of(config.node_private_key@),
                )
                &&& r->0.broadcaster@.peer_id == r->0.node_info.peer_id@
                &&& crate::broadcaster::bv_wf(r->0.broadcaster@)
                &&& r->0.broadcaster@.instances.len() == 0
                &&& r->0.block_manager is None
                &&& r->0.peer_discovery is None
                &&& r->0.application is None
            },
    {
        let info = match NodeInfo::new(config) {
            None => {
                return None;
            },
            Some(i) => i,
        };
        let broadcaster = Broadcaster::new(
            PeerId { bytes: clone_bytes(&info.peer_id.bytes) },
        );
        Some(
            EphemeraStarter {
                node_info: info,
                broadcaster,
                block_manager: None,
                peer_discovery: None,
                application: None,
            },
        )
    }

    /// Fills the peer-discovery stage.
    pub fn with_peer_discovery(self, peer_discovery: P) -> (r: EphemeraStarter<P, A>)
        ensures
            r.peer_discovery is Some,
            r.node_info == self.node_info,
            r.broadcaster == self.broadcaster,
            r.block_manager == self.block_manager,
            r.application == self.application,
    {
        EphemeraStarter { peer_discovery: Some(peer_discovery), ..self }
    }

    /// Fills the application stage.
    pub fn with_application(self, application: A) -> (r: EphemeraStarter<P, A>)
        ensures
            r.application is Some,
            r.node_info == self.node_info,
            r.broadcaster == self.broadcaster,
            r.block_manager == self.block_manager,
            r.peer_discovery == self.peer_discovery,
    {
        EphemeraStarter { application: Some(application), ..self }
    }

    /// Builds the block manager over an empty chain, from the block
    /// settings of the configuration.
    pub fn init_block_manager(self) -> (r: EphemeraStarter<P, A>)
        ensures
            r.block_manager is Some,
            crate::manager::chain_wf(r.block_manager->0.chain()),
            r.block_manager->0.chain().len() == 0,
            r.block_manager->0.max_messages == self.node_info.initial_config.block_max_messages,
            r.block_manager->0.empty_blocks_allowed
                == self.node_info.initial_config.block_empty_blocks_allowed,
            r.node_info == self.node_info,
            r.broadcaster == self.broadcaster,
            r.peer_discovery == self.peer_discovery,
            r.application == self.application,
    {
        let manager = BlockManager::new(
            PeerId { bytes: clone_bytes(&self.node_info.peer_id.bytes) },
            self.node_info.initial_config.block_max_messages,
            self.node_info.initial_config.block_empty_blocks_allowed,
        );
        EphemeraStarter { block_manager: Some(manager), ..self }
    }
}

/// The `run-node` subcommand: which config file to run from.
#[derive(Debug)]
pub struct RunExternalNodeCmd {
    pub config_file: String,
}

/// The `init` subcommand.
#[derive(Debug)]
pub struct InitCmd {
    pub ip: String,
}

/// The `add-peer` subcommand.
#[derive(Debug)]
pub struct AddPeerCmd {
    pub name: String,
    pub address: String,
    pub public_key: String,
}

/// The `add-local-peers` subcommand.
#[derive(Debug)]
pub struct AddLocalPeersCmd {
    pub count: u16,
}

/// The `generate-keypair` subcommand.
#[derive(Debug)]
pub struct GenerateKeypairCmd {
    pub out_file: String,
}

/// The `update-config` subcommand.
#[derive(Debug)]
pub struct UpdateConfigCmd {
    pub key: String,
    pub value: String,
}

/// The node binary's subcommands.
#[derive(Debug)]
pub enum Subcommand {
    Init(InitCmd),
    AddPeer(AddPeerCmd),
    AddLocalPeers(AddLocalPeersCmd),
    RunNode(RunExternalNodeCmd),
    GenerateKeypair(GenerateKeypairCmd),
    UpdateConfig(UpdateConfigCmd),
}

/// The parsed command line of the node binary.
#[derive(Debug)]
pub struct Cli {
    pub subcommand: Subcommand,
}

/// The parsed command line of the signatures demo: plain values only;
/// the argument parsing itself happens at the binary's edge.
#[derive(Debug)]
pub struct Args {
    pub config_file: String,
    pub client_listener_address: String,
    pub signatures_file: String,
    pub ws_listen_addr: String,
    pub db_url: String,
}

} // verus!
