//! Settings of a node, the admission filter for peers, and the counters a
//! node reports.

use crate::node_id::AdnlNodeIdShort;
use crate::packet::AdnlAddressUdp;
use vstd::prelude::*;

verus! {

/// Settings of a node.
#[derive(Debug, Copy, Clone)]
pub struct AdnlNodeOptions {
    /// Floor for computed query timeouts, in milliseconds. Default: 500
    pub query_min_timeout_ms: u64,
    /// Deadline of a query that names none, in milliseconds. Default: 5000
    pub query_max_timeout_ms: u64,
    /// Seconds after which an idle transfer is given up. Default: 3
    pub transfer_timeout_sec: u64,
    /// Accepted clock skew on reinit dates, in seconds. Default: 60
    pub clock_tolerance_sec: u32,
    /// Lifetime of an advertised address list, in seconds. Default: 1000
    pub address_list_timeout_sec: u32,
    /// Whether received sequence numbers are checked against the window.
    /// Default: false
    pub packet_history_enabled: bool,
    /// Whether handshake packets must be signed. Default: true
    pub packet_signature_required: bool,
    /// Whether custom messages prefer the priority sub-channel. Default: true
    pub force_use_priority_channels: bool,
    /// Protocol version tag. Default: None
    pub version: Option<u16>,
}

impl Default for AdnlNodeOptions {
    fn default() -> (options: Self)
        ensures
            options == (AdnlNodeOptions {
                query_min_timeout_ms: 500,
                query_max_timeout_ms: 5000,
                transfer_timeout_sec: 3,
                clock_tolerance_sec: 60,
                address_list_timeout_sec: 1000,
                packet_history_enabled: false,
                packet_signature_required: true,
                force_use_priority_channels: true,
                version: None,
            }),
    {
        Self {
            query_min_timeout_ms: 500,
            query_max_timeout_ms: 5000,
            transfer_timeout_sec: 3,
            clock_tolerance_sec: 60,
            address_list_timeout_sec: 1000,
            packet_history_enabled: false,
            packet_signature_required: true,
            force_use_priority_channels: true,
            version: None,
        }
    }
}

/// The timeout of a query: the measured roundtrip, or the longest timeout
/// where none was measured, and never less than the shortest timeout.
pub open spec fn query_timeout(options: AdnlNodeOptions, roundtrip: Option<u64>) -> u64 {
    let timeout = match roundtrip {
        Some(measured) => measured,
        None => options.query_max_timeout_ms,
    };
    if timeout < options.query_min_timeout_ms {
        options.query_min_timeout_ms
    } else {
        timeout
    }
}

impl AdnlNodeOptions {
    /// Computes the timeout of a query from the roundtrip time measured.
    pub fn compute_query_timeout(&self, roundtrip: Option<u64>) -> (timeout: u64)
        ensures
            timeout == query_timeout(*self, roundtrip),
    {
        let timeout = match roundtrip {
            Some(measured) => measured,
            None => self.query_max_timeout_ms,
        };
        if timeout < self.query_min_timeout_ms {
            self.query_min_timeout_ms
        } else {
            timeout
        }
    }
}

/// Where a peer became known.
#[derive(Debug, Copy, Clone, Hash, PartialEq, Eq, Structural)]
pub enum PeerContext {
    AdnlPacket,
    Dht,
    PublicOverlay,
    PrivateOverlay,
}

/// Decides which peers a node admits. Nothing is known of what an
/// implementation answers.
pub trait AdnlNodeFilter {
    /// Tells whether the peer is admitted.
    fn check(&self, ctx: PeerContext, ip: AdnlAddressUdp, peer_id: &AdnlNodeIdShort) -> bool;
}

/// The filter that admits every peer.
#[derive(Debug, Copy, Clone)]
pub struct AdmitAll;

impl AdnlNodeFilter for AdmitAll {
    fn check(&self, ctx: PeerContext, ip: AdnlAddressUdp, peer_id: &AdnlNodeIdShort) -> (admitted:
        bool)
        ensures
            admitted,
    {
        true
    }
}

/// Counters of a node's tables.
#[derive(Debug, Copy, Clone, PartialEq, Eq, Structural)]
pub struct AdnlNodeMetrics {
    pub peer_count: usize,
    pub channels_by_id_len: usize,
    pub channels_by_peers_len: usize,
    pub incoming_transfers_len: usize,
    pub query_count: usize,
}

} // verus!
