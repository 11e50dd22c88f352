//! Core of an ADNL node: a connectionless, authenticated and encrypted
//! transport between peers that are known by their Ed25519 public keys.
//!
//! The crate holds the logic of the node and does no input or output. The
//! node is handed the datagrams that arrive, together with the time, and
//! queues the datagrams that are to be sent.
//!
//! - [`node_id`], [`keys`], [`keystore`]: identities and their keys
//! - [`tl`], [`message`], [`packet`]: the wire format
//! - [`cipher`], [`handshake`], [`channel`]: the two envelopes of a packet
//! - [`history`], [`peer`]: what is kept of each peer
//! - [`transfer`], [`queries`]: messages in parts, and pending queries
//! - [`inbound`], [`sender`], [`outbound`]: checking and building packets
//! - [`adnl_node`]: the node itself
//! - [`dht_node`]: the routing table and the value store of the hash table
//! - [`crypto`], [`table`], [`dht_node::node_list`]: what rests on other crates

pub mod adnl_node;
pub mod channel;
pub mod cipher;
pub mod crypto;
pub mod dht_node;
pub mod errors;
pub mod handshake;
pub mod history;
pub mod inbound;
pub mod keys;
pub mod keystore;
pub mod message;
pub mod node_id;
pub mod options;
pub mod outbound;
pub mod packet;
pub mod packet_laws;
pub mod peer;
pub mod queries;
pub mod sender;
pub mod table;
pub mod tl;
pub mod transfer;
