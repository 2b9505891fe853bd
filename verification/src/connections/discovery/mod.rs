//! Peer discovery
pub mod traversal;
pub mod gossip_retry;
pub mod hole_punch;
pub mod stun;
pub mod mdns;
pub mod peer_discovery;
