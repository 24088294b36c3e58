//! The peer-to-peer networking core of a blockchain node: the peer book and
//! its state machine, the handshake record, message dispatch and maintenance
//! decisions, and the topology of the known network.

pub mod address;
pub mod clock;
pub mod connection;
pub mod environment;
pub mod errors;
pub mod handshake;
pub mod inbound;
pub mod maintenance;
pub mod message;
pub mod metrics;
pub mod node;
pub mod peer_book;
pub mod peer_info;
pub mod peer_table;
pub mod random;
pub mod selection;
pub mod topology;
pub mod version;
