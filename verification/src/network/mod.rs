//! Peer-to-peer networking: peers and their management, discovery by XOR
//! distance, gossip with deduplication, and the connection handshake.
pub mod discovery;
pub mod error;
pub mod gossip;
pub mod handshake;
pub mod p2p;

pub use discovery::PeerDiscovery;
pub use error::NetworkError;
pub use gossip::{GossipMessage, GossipMessageType};
pub use handshake::{HandshakeRequest, HandshakeResponse};
pub use p2p::{NetworkConfig, PeerId, PeerInfo};
