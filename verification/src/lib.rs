//! Peer-to-peer file sharing: the logic behind a harddrive-party instance.
pub mod bytes;
pub mod text;
pub mod base64_text;
pub mod peer_id;
pub mod net;
pub mod announce_address;
pub mod time;
pub mod wire_messages;
pub mod ui_messages;
pub mod errors;
pub mod table;
pub mod connections;
pub mod paths;
pub mod chunker;
pub mod wishlist;
pub mod wishlist_tables;
pub mod shares;
pub mod frames;
pub mod peer;
pub mod index_cache;
pub mod shared_state;
pub mod downloads;
pub mod hdp;
pub mod rpc;
pub mod hex_text;
pub mod discovery;
pub mod protocol;
pub mod cli;
pub mod run;
