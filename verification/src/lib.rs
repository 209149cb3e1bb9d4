//! Reliable broadcast for a cluster of cooperating nodes.
//!
//! Every inbound message moves through a Bracha-style `PrePrepare ->
//! Prepare -> Commit` exchange until a quorum of peers has signed it;
//! delivered messages are gathered into signed blocks that chain to the
//! previous block. The modules here hold the verified core: peer
//! identity, quorum arithmetic, wire framing and canonical message
//! encoding, the per-message broadcast state machine, the block manager
//! and its storage, and the application check hooks.

pub mod peer;
pub mod topology;
pub mod framing;
pub mod wire;
pub mod digest;
pub mod certificate;
pub mod instance;
pub mod broadcaster;
pub mod crypto;
pub mod block;
pub mod manager;
pub mod application;
pub mod membership;
pub mod node;
pub mod client;
pub mod discovery;

use vstd::prelude::*;

verus! {

} // verus!
