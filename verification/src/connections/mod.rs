//! Connections to and from peers
pub mod certificate;
pub mod config;
pub mod discovery;
pub mod known_peers;
pub mod reconnect;
pub mod speedometer;
