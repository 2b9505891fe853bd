//! Peer discovery by topic: peers that know the name of a topic find each other
pub mod topic;
pub mod handshake;
pub mod capability;
pub mod mqtt;
pub mod mqtt_packets;
pub mod waku;
pub mod topics_db;
pub mod topic_mdns;
