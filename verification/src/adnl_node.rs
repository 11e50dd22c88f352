//! The node: its local identities, what it knows of its peers, its
//! channels, the transfers and queries under way, and the datagrams that
//! wait to be sent.
//!
//! The node does no input or output. Whoever runs it hands it the datagrams
//! that arrive together with the time, and sends the datagrams it queues.

use crate::channel::{channel_body, AdnlChannel, ChannelCreationContext, ChannelView};
use crate::handshake::{parse_handshake, parse_handshake_packet};
use crate::crypto::ed25519_key_valid;
use crate::errors::{AdnlError, AdnlNodeError};
use crate::inbound::{
    announced_address, check_against_peer, lemma_duplicate_changes_nothing,
    lemma_first_packet_is_no_duplicate, parse_address_list, peer_verdict, resolve_source,
    source_of, PeerVerdict,
};
use crate::errors::AdnlPacketError;
use crate::keys::KeyPair;
use crate::packet::{message_views, packet_of, IncomingPacketContents, IncomingPacketView};
use crate::keystore::{
    added_key, deleted_key, tagged_id, AdnlKeystore, AdnlKeystoreError, TaggedKey,
};
use crate::node_id::{bytes32_eq, AdnlNodeIdFull, AdnlNodeIdShort, StoredAdnlNodeKey};
use crate::options::{
    query_timeout, AdnlNodeFilter, AdnlNodeMetrics, AdnlNodeOptions, PeerContext,
};
use crate::packet::{AddressList, AdnlAddressUdp};
use crate::peer::{AdnlPeer, PeerView};
use crate::message::message_at;
use crate::queries::{
    update_applies, updated, QueriesCache, QueryState, QueryStateView,
};

use crate::message::{Message, MessageView};
use crate::outbound::{
    additional_message, additional_size, can_be_sent, lemma_sends_keep_peer, payloads_of,
    send_message, sendable, sent_payloads, signer_for,
};
use crate::sender::{PacketToSend, SendContext};
use crate::table::Table;
use crate::transfer::{Transfer, TransferError, TransferView};
use vstd::prelude::*;

verus! {

/// What an incoming channel id stands for: the peer whose channel it
/// belongs to, and the priority class of the sub-channel.
#[derive(Debug, Copy, Clone, PartialEq, Eq)]
pub struct ChannelReceiver {
    pub peer_id: [u8; 32],
    pub priority: bool,
}

/// What is left to do for a message once the node has processed it.
#[derive(Debug, Clone, PartialEq, Eq)]
pub enum MessageEvent {
    /// Nothing.
    Done,
    /// A custom message is to be offered to the subscribers.
    Custom { data: Vec<u8> },
    /// A query is to be offered to the subscribers.
    Query { query_id: [u8; 32], query: Vec<u8> },
}

/// An event as plain values.
pub enum MessageEventView {
    Done,
    Custom { data: Seq<u8> },
    Query { query_id: Seq<u8>, query: Seq<u8> },
}

impl View for MessageEvent {
    type V = MessageEventView;

    open spec fn view(&self) -> MessageEventView {
        match self {
            MessageEvent::Done => MessageEventView::Done,
            MessageEvent::Custom { data } => MessageEventView::Custom { data: data@ },
            MessageEvent::Query { query_id, query } => MessageEventView::Query {
                query_id: query_id@,
                query: query@,
            },
        }
    }
}

/// An accepted packet: who it is for, who sent it, and its messages.
#[derive(Debug, Clone, PartialEq, Eq)]
pub struct ReceivedPacket {
    pub local_id: AdnlNodeIdShort,
    pub peer_id: AdnlNodeIdShort,
    /// Whether the packet came through the priority sub-channel.
    pub priority: bool,
    pub messages: Vec<Message>,
}

/// A result without its value.
pub open spec fn outcome_only<T>(r: Result<T, AdnlError>) -> Result<(), AdnlError> {
    match r {
        Ok(_) => Ok(()),
        Err(e) => Err(e),
    }
}

/// What became of a query.
#[derive(Debug, Clone, PartialEq, Eq)]
pub enum QueryReply {
    /// The query still waits, or is not registered.
    Pending,
    /// The answer.
    Answer(Vec<u8>),
    /// The query was dropped.
    Dropped,
}

/// What the subscribers made of a query.
#[derive(Debug, Clone, PartialEq, Eq)]
pub enum QueryProcessingResult {
    /// A subscriber took the query, and may have an answer.
    Processed(Option<Vec<u8>>),
    /// No subscriber took the query.
    Rejected,
}

/// What became of a part that was offered to the transfers: the message
/// where the part completed it, and the transfers afterwards. A transfer
/// begins with its first part, is dated with each part, and ends when it is
/// complete or fails.
pub open spec fn part_outcome(
    transfers: Map<Seq<u8>, TransferView>,
    now: u32,
    hash: Seq<u8>,
    total_size: u32,
    offset: u32,
    data: Seq<u8>,
) -> (Result<Option<Seq<u8>>, TransferError>, Map<Seq<u8>, TransferView>) {
    let known = if transfers.contains_key(hash) {
        transfers[hash]
    } else {
        TransferView::empty(total_size as nat, now)
    };
    let dated = TransferView { last_update: now, ..known };
    match dated.add_part(offset as nat, data, hash) {
        Ok(None) => (Ok(None), transfers.insert(hash, dated.with_part(offset as nat, data))),
        Ok(Some(body)) => (Ok(Some(body)), transfers.remove(hash)),
        Err(e) => (Err(e), transfers.remove(hash)),
    }
}

/// An incoming channel id's meaning as plain values.
pub struct ReceiverView {
    pub peer_id: Seq<u8>,
    pub priority: bool,
}

impl View for ChannelReceiver {
    type V = ReceiverView;

    open spec fn view(&self) -> ReceiverView {
        ReceiverView { peer_id: self.peer_id@, priority: self.priority }
    }
}

/// A node as plain values.
#[verifier::ext_equal]
pub struct NodeView {
    /// The local ids for which peers are kept.
    pub locals: Set<Seq<u8>>,
    /// The peers, by local id and peer id.
    pub peers: Map<(Seq<u8>, Seq<u8>), PeerView>,
    /// The channels, by peer id.
    pub channels: Map<Seq<u8>, ChannelView>,
    /// The incoming channel ids.
    pub receivers: Map<Seq<u8>, ReceiverView>,
    /// The transfers under way, by the hash of the message.
    pub transfers: Map<Seq<u8>, TransferView>,
    /// The registered queries, by query id.
    pub queries: Map<Seq<u8>, QueryStateView>,
    /// The datagrams that wait to be sent.
    pub queue: Seq<PacketToSend>,
}

impl NodeView {
    /// A node that keeps peers for the given local ids and knows nothing
    /// else.
    pub open spec fn empty(locals: Set<Seq<u8>>) -> NodeView {
        NodeView {
            locals,
            peers: Map::empty(),
            channels: Map::empty(),
            receivers: Map::empty(),
            transfers: Map::empty(),
            queries: Map::empty(),
            queue: Seq::empty(),
        }
    }
}

/// The node.
pub struct AdnlNode<F: AdnlNodeFilter> {
    ip_address: AdnlAddressUdp,
    keystore: AdnlKeystore,
    options: AdnlNodeOptions,
    node_filter: Option<F>,
    /// Known peers for each local node id
    peers: Table<Table<AdnlPeer>>,
    /// Channels table used to fast search on incoming packets
    channels_by_id: Table<ChannelReceiver>,
    /// Channels table used to fast search when sending messages
    channels_by_peers: Table<AdnlChannel>,
    /// Pending transfers of large messages that were split
    incoming_transfers: Table<Transfer>,
    /// Pending queries
    queries: QueriesCache,
    /// Outgoing packets queue
    sender_queue: Vec<PacketToSend>,
    /// Basic reinit date for all local peer states
    start_time: u32,
}

impl<F: AdnlNodeFilter> View for AdnlNode<F> {
    type V = NodeView;

    closed spec fn view(&self) -> NodeView {
        NodeView {
            locals: self.peers@.dom(),
            peers: Map::new(
                |k: (Seq<u8>, Seq<u8>)|
                    self.peers@.contains_key(k.0) && self.peers@[k.0]@.contains_key(k.1),
                |k: (Seq<u8>, Seq<u8>)| self.peers@[k.0]@[k.1]@,
            ),
            channels: Map::new(
                |k: Seq<u8>| self.channels_by_peers@.contains_key(k),
                |k: Seq<u8>| self.channels_by_peers@[k]@,
            ),
            receivers: Map::new(
                |k: Seq<u8>| self.channels_by_id@.contains_key(k),
                |k: Seq<u8>| self.channels_by_id@[k]@,
            ),
            transfers: Map::new(
                |k: Seq<u8>| self.incoming_transfers@.contains_key(k),
                |k: Seq<u8>| self.incoming_transfers@[k]@,
            ),
            queries: self.queries@,
            queue: self.sender_queue@,
        }
    }
}

impl<F: AdnlNodeFilter> AdnlNode<F> {
    /// The tables are in order, and so is every peer, channel and transfer
    /// in them. Every peer's receiving direction checks sequence numbers
    /// exactly where the settings ask for it.
    pub closed spec fn wf(&self) -> bool {
        &&& self.keystore.wf()
        &&& self.peers.wf()
        &&& forall|l: Seq<u8>| #[trigger] self.peers@.contains_key(l) ==> self.peers@[l].wf()
        &&& forall|l: Seq<u8>, p: Seq<u8>|
            self.peers@.contains_key(l) && #[trigger] self.peers@[l]@.contains_key(p)
                ==> self.peers@[l]@[p].wf() && self.peers@[l]@[p]@.receiver.checked
                == self.options.packet_history_enabled
        &&& self.channels_by_id.wf()
        &&& self.channels_by_peers.wf()
        &&& forall|p: Seq<u8>| #[trigger]
            self.channels_by_peers@.contains_key(p) ==> self.channels_by_peers@[p].wf()
        &&& self.incoming_transfers.wf()
        &&& forall|t: Seq<u8>| #[trigger]
            self.incoming_transfers@.contains_key(t) ==> self.incoming_transfers@[t].wf()
        &&& self.queries.wf()
    }

    /// What arrives from a peer is checked against the window of sequence
    /// numbers exactly where the node's settings ask for it.
    pub proof fn lemma_peers_are_checked(&self, local_id: Seq<u8>, peer_id: Seq<u8>)
        requires
            self.wf(),
            self@.peers.contains_key((local_id, peer_id)),
        ensures
            self@.peers[(local_id, peer_id)].receiver.checked
                == self.spec_options().packet_history_enabled,
    {
    }

    /// The settings of the node.
    pub closed spec fn spec_options(&self) -> AdnlNodeOptions {
        self.options
    }

    /// The address of the node.
    pub closed spec fn spec_ip_address(&self) -> AdnlAddressUdp {
        self.ip_address
    }

    /// The time at which the node started.
    pub closed spec fn spec_start_time(&self) -> u32 {
        self.start_time
    }

    /// The local keys.
    pub closed spec fn spec_keys(&self) -> Map<Seq<u8>, StoredAdnlNodeKey> {
        self.keystore.spec_keys()
    }

    /// The tags of the local keys.
    pub closed spec fn spec_tags(&self) -> Seq<TaggedKey> {
        self.keystore.spec_tags()
    }

    /// The filter that admits peers, if there is one.
    pub closed spec fn spec_filter(&self) -> Option<F> {
        self.node_filter
    }

    /// A node with the given keys that knows no peers yet.
    pub fn new(
        ip_address: AdnlAddressUdp,
        keystore: AdnlKeystore,
        options: AdnlNodeOptions,
        node_filter: Option<F>,
        start_time: u32,
    ) -> (node: Self)
        requires
            keystore.wf(),
        ensures
            node.wf(),
            node.spec_options() == options,
            node.spec_ip_address() == ip_address,
            node.spec_start_time() == start_time,
            node.spec_keys() == keystore.spec_keys(),
            node.spec_tags() == keystore.spec_tags(),
            node.spec_filter() == node_filter,
            node@ == NodeView::empty(keystore.spec_keys().dom()),
    {
        let mut peers: Table<Table<AdnlPeer>> = Table::new();
        let keys = keystore.keys();
        let count = keys.len();
        let mut i: usize = 0;
        proof {
            keys.lemma_slots();
        }
        while i < count
            invariant
                i <= count,
                keys.wf(),
                count == keys.slots(),
                peers.wf(),
                forall|l: Seq<u8>|
                    peers@.contains_key(l) <==> exists|j: int|
                        0 <= j < i && #[trigger] keys.slot_key(j) == l,
                forall|l: Seq<u8>| #[trigger] peers@.contains_key(l) ==> peers@[l].wf(),
                forall|l: Seq<u8>, p: Seq<u8>|
                    peers@.contains_key(l) ==> !#[trigger] peers@[l]@.contains_key(p),
            decreases count - i,
        {
            let fresh: Table<AdnlPeer> = Table::new();
            let ghost before = peers@;
            let _ = peers.insert(*keys.key_at(i), fresh);
            proof {
                assert forall|l: Seq<u8>| #[trigger] peers@.contains_key(l) implies peers@[l].wf() by {
                    if l != keys.slot_key(i as int) {
                        assert(before.contains_key(l));
                    }
                }
                assert forall|l: Seq<u8>, p: Seq<u8>| peers@.contains_key(l) implies !#[trigger] peers@[l]@.contains_key(
                    p,
                ) by {
                    if l != keys.slot_key(i as int) {
                        assert(before.contains_key(l));
                    }
                }
            }
            i += 1;
        }
        let node = Self {
            ip_address,
            keystore,
            options,
            node_filter,
            peers,
            channels_by_id: Table::new(),
            channels_by_peers: Table::new(),
            incoming_transfers: Table::new(),
            queries: QueriesCache::new(),
            sender_queue: Vec::new(),
            start_time,
        };
        proof {
            assert(node@.locals =~= keystore.spec_keys().dom());
            assert(node@ =~= NodeView::empty(keystore.spec_keys().dom()));
        }
        node
    }

    #[inline(always)]
    pub fn options(&self) -> (options: &AdnlNodeOptions)
        ensures
            *options == self.spec_options(),
    {
        &self.options
    }

    pub fn ip_address(&self) -> (ip: AdnlAddressUdp)
        ensures
            ip == self.spec_ip_address(),
    {
        self.ip_address
    }

    pub fn start_time(&self) -> (time: u32)
        ensures
            time == self.spec_start_time(),
    {
        self.start_time
    }

    /// The timeout of a query, from the roundtrip time measured.
    pub fn compute_query_timeout(&self, roundtrip: Option<u64>) -> (timeout: u64)
        ensures
            timeout == query_timeout(self.spec_options(), roundtrip),
    {
        self.options.compute_query_timeout(roundtrip)
    }

    /// The address list that the node hands to other layers: its address,
    /// dated now, without expiry.
    pub fn build_address_list(&self, now: u32) -> (list: AddressList)
        ensures
            list == (AddressList {
                address: Some(self.spec_ip_address()),
                version: now,
                reinit_date: self.spec_start_time(),
                priority: 0,
                expire_at: 0,
            }),
    {
        AddressList {
            address: Some(self.ip_address),
            version: now,
            reinit_date: self.start_time,
            priority: 0,
            expire_at: 0,
        }
    }

    /// The key with a short id.
    pub fn key_by_id(&self, id: &AdnlNodeIdShort) -> (r: Result<
        &StoredAdnlNodeKey,
        AdnlKeystoreError,
    >)
        requires
            self.wf(),
        ensures
            match r {
                Ok(key) => self.spec_keys().contains_key(id@) && *key == self.spec_keys()[id@]
                    && key.wf() && key.spec_id() == id@,
                Err(e) => !self.spec_keys().contains_key(id@) && e
                    == AdnlKeystoreError::KeyIdNotFound,
            },
    {
        self.keystore.key_by_id(id)
    }

    /// The key that a tag names.
    pub fn key_by_tag(&self, tag: usize) -> (r: Result<&StoredAdnlNodeKey, AdnlKeystoreError>)
        requires
            self.wf(),
        ensures
            match r {
                Ok(key) => tagged_id(self.spec_tags(), tag) matches Some(id)
                    && self.spec_keys().contains_key(id) && *key == self.spec_keys()[id],
                Err(e) => !(tagged_id(self.spec_tags(), tag) matches Some(id)
                    && self.spec_keys().contains_key(id)),
            },
    {
        self.keystore.key_by_tag(tag)
    }

    /// Whether the node takes note of a peer, given what the filter said of
    /// it: not of itself under its own address, and not of a peer that the
    /// filter does not admit. Without a filter every other peer is admitted.
    pub open spec fn admits(
        &self,
        local_id: Seq<u8>,
        peer_id: Seq<u8>,
        ip: AdnlAddressUdp,
        filter_admits: bool,
    ) -> bool {
        &&& !(peer_id == local_id && ip == self.spec_ip_address())
        &&& (self.spec_filter() is Some ==> filter_admits)
    }

    /// A peer that was just added, with the ephemeral key it was given.
    pub open spec fn fresh_peer(
        &self,
        full_id: Seq<u8>,
        ip: AdnlAddressUdp,
        channel_key: KeyPair,
    ) -> PeerView {
        PeerView {
            id: full_id,
            ip_address: ip,
            channel_key,
            receiver: crate::peer::PeerStateView {
                reinit_date: self.spec_start_time(),
                ordinary: crate::history::HistoryView::empty(),
                priority: crate::history::HistoryView::empty(),
                checked: self.spec_options().packet_history_enabled,
            },
            sender: crate::peer::PeerStateView {
                reinit_date: 0,
                ordinary: crate::history::HistoryView::empty(),
                priority: crate::history::HistoryView::empty(),
                checked: false,
            },
        }
    }

    /// The node's own parts that no message changes.
    pub open spec fn same_setup(&self, other: &Self) -> bool {
        &&& self.spec_options() == other.spec_options()
        &&& self.spec_ip_address() == other.spec_ip_address()
        &&& self.spec_start_time() == other.spec_start_time()
        &&& self.spec_keys() == other.spec_keys()
        &&& self.spec_tags() == other.spec_tags()
        &&& self.spec_filter() == other.spec_filter()
    }

    /// Whether `after` and `r` are what taking note of a peer leads to, given
    /// what the filter said of it. A peer that is not admitted changes
    /// nothing. A known peer gets the new address. A new peer is entered with
    /// a fresh ephemeral key.
    pub open spec fn added_peer(
        &self,
        before: NodeView,
        after: NodeView,
        r: Result<bool, AdnlNodeError>,
        local_id: Seq<u8>,
        peer_id: Seq<u8>,
        ip: AdnlAddressUdp,
        full_id: Seq<u8>,
        filter_admits: bool,
    ) -> bool {
        let key = (local_id, peer_id);
        if !self.admits(local_id, peer_id, ip, filter_admits) {
            r == Ok::<bool, AdnlNodeError>(false) && after == before
        } else if !before.locals.contains(local_id) {
            r == Err::<bool, AdnlNodeError>(AdnlNodeError::PeersNotFound) && after == before
        } else {
            &&& r == Ok::<bool, AdnlNodeError>(true)
            &&& after.peers.contains_key(key)
            &&& after.peers[key].channel_key.wf()
            &&& after == (NodeView {
                peers: before.peers.insert(
                    key,
                    if before.peers.contains_key(key) {
                        PeerView { ip_address: ip, ..before.peers[key] }
                    } else {
                        self.fresh_peer(full_id, ip, after.peers[key].channel_key)
                    },
                ),
                ..before
            })
        }
    }

    /// Takes note of a peer of a local id, or of its new address where the
    /// peer is known, given what the filter said of the peer. A new peer
    /// gets a fresh channel key. Tells whether the peer was admitted.
    pub fn add_peer_admitted(
        &mut self,
        local_id: &AdnlNodeIdShort,
        peer_id: &AdnlNodeIdShort,
        peer_ip_address: AdnlAddressUdp,
        peer_full_id: AdnlNodeIdFull,
        filter_admits: bool,
    ) -> (r: Result<bool, AdnlNodeError>)
        requires
            old(self).wf(),
        ensures
            final(self).wf(),
            final(self).same_setup(old(self)),
            old(self).added_peer(
                old(self)@,
                final(self)@,
                r,
                local_id@,
                peer_id@,
                peer_ip_address,
                peer_full_id@,
                filter_admits,
            ),
    {
        if bytes32_eq(peer_id.as_slice(), local_id.as_slice()) && peer_ip_address.ip
            == self.ip_address.ip && peer_ip_address.port == self.ip_address.port {
            return Ok(false);
        }
        if self.node_filter.is_some() && !filter_admits {
            return Ok(false);
        }
        let i = match self.peers.position(local_id.as_slice()) {
            Some(i) => i,
            None => return Err(AdnlNodeError::PeersNotFound),
        };
        let start_time = self.start_time;
        let checked = self.options.packet_history_enabled;
        let peers = self.peers.value_mut(i);
        match peers.position(peer_id.as_slice()) {
            Some(j) => {
                peers.value_mut(j).set_ip_address(peer_ip_address);
            },
            None => {
                let peer = AdnlPeer::new(start_time, peer_ip_address, peer_full_id, checked);
                let _ = peers.insert(peer_id.0, peer);
            },
        }
        proof {
            let key = (local_id@, peer_id@);
            self.peers@[local_id@]@[peer_id@].lemma_channel_key();
            let changed = if old(self)@.peers.contains_key(key) {
                PeerView { ip_address: peer_ip_address, ..old(self)@.peers[key] }
            } else {
                old(self).fresh_peer(peer_full_id@, peer_ip_address, self@.peers[key].channel_key)
            };
            assert(self@.locals =~= old(self)@.locals);
            assert(self@.peers =~= old(self)@.peers.insert(key, changed));
            assert(self@ =~= (NodeView {
                peers: old(self)@.peers.insert(key, changed),
                ..old(self)@
            }));
        }
        Ok(true)
    }

    /// Takes note of a peer of a local id, or of its new address where the
    /// peer is known. The filter, if there is one, is asked whether it admits
    /// the peer, unless the peer is the node itself under its own address.
    /// Tells whether the peer was admitted.
    pub fn add_peer(
        &mut self,
        ctx: PeerContext,
        local_id: &AdnlNodeIdShort,
        peer_id: &AdnlNodeIdShort,
        peer_ip_address: AdnlAddressUdp,
        peer_full_id: AdnlNodeIdFull,
    ) -> (r: Result<bool, AdnlNodeError>)
        requires
            old(self).wf(),
        ensures
            final(self).wf(),
            final(self).same_setup(old(self)),
            exists|filter_admits: bool| #[trigger]
                old(self).added_peer(
                    old(self)@,
                    final(self)@,
                    r,
                    local_id@,
                    peer_id@,
                    peer_ip_address,
                    peer_full_id@,
                    filter_admits,
                ),
    {
        if bytes32_eq(peer_id.as_slice(), local_id.as_slice()) && peer_ip_address.ip
            == self.ip_address.ip && peer_ip_address.port == self.ip_address.port {
            assert(old(self).added_peer(
                old(self)@,
                self@,
                Ok(false),
                local_id@,
                peer_id@,
                peer_ip_address,
                peer_full_id@,
                true,
            ));
            return Ok(false);
        }
        let filter_admits = match &self.node_filter {
            Some(filter) => filter.check(ctx, peer_ip_address, peer_id),
            None => true,
        };
        let r = self.add_peer_admitted(
            local_id,
            peer_id,
            peer_ip_address,
            peer_full_id,
            filter_admits,
        );
        assert(old(self).added_peer(
            old(self)@,
            self@,
            r,
            local_id@,
            peer_id@,
            peer_ip_address,
            peer_full_id@,
            filter_admits,
        ));
        r
    }

    /// Forgets a peer of a local id and tells whether it was known.
    pub fn delete_peer(&mut self, local_id: &AdnlNodeIdShort, peer_id: &AdnlNodeIdShort) -> (r:
        Result<bool, AdnlNodeError>)
        requires
            old(self).wf(),
        ensures
            final(self).wf(),
            final(self).same_setup(old(self)),
            if old(self)@.locals.contains(local_id@) {
                &&& r matches Ok(removed) && removed == old(self)@.peers.contains_key(
                    (local_id@, peer_id@),
                )
                &&& final(self)@ == (NodeView {
                    peers: old(self)@.peers.remove((local_id@, peer_id@)),
                    ..old(self)@
                })
            } else {
                &&& r matches Err(e) && e == AdnlNodeError::PeersNotFound
                &&& final(self)@ == old(self)@
            },
    {
        let i = match self.peers.position(local_id.as_slice()) {
            Some(i) => i,
            None => return Err(AdnlNodeError::PeersNotFound),
        };
        let peers = self.peers.value_mut(i);
        let removed = peers.remove(peer_id.as_slice()).is_some();
        proof {
            assert(self@.locals =~= old(self)@.locals);
            assert(self@.peers =~= old(self)@.peers.remove((local_id@, peer_id@)));
            assert(self@ =~= (NodeView {
                peers: old(self)@.peers.remove((local_id@, peer_id@)),
                ..old(self)@
            }));
        }
        Ok(removed)
    }

    /// The address of a peer of a local id, where the peer is known.
    pub fn get_peer_ip(&self, local_id: &AdnlNodeIdShort, peer_id: &AdnlNodeIdShort) -> (ip: Option<
        AdnlAddressUdp,
    >)
        requires
            self.wf(),
        ensures
            ip == if self@.peers.contains_key((local_id@, peer_id@)) {
                Some(self@.peers[(local_id@, peer_id@)].ip_address)
            } else {
                None
            },
    {
        let peers = match self.peers.get(local_id.as_slice()) {
            Some(peers) => peers,
            None => return None,
        };
        match peers.get(peer_id.as_slice()) {
            Some(peer) => Some(peer.ip_address()),
            None => None,
        }
    }

    /// What the node keeps for a peer of a local id.
    pub fn peer(&self, local_id: &AdnlNodeIdShort, peer_id: &AdnlNodeIdShort) -> (peer: Option<
        &AdnlPeer,
    >)
        requires
            self.wf(),
        ensures
            match peer {
                Some(found) => self@.peers.contains_key((local_id@, peer_id@)) && found@
                    == self@.peers[(local_id@, peer_id@)] && found.wf(),
                None => !self@.peers.contains_key((local_id@, peer_id@)),
            },
    {
        let peers = match self.peers.get(local_id.as_slice()) {
            Some(peers) => peers,
            None => return None,
        };
        peers.get(peer_id.as_slice())
    }

    /// The channel with a peer.
    pub fn channel(&self, peer_id: &AdnlNodeIdShort) -> (channel: Option<&AdnlChannel>)
        requires
            self.wf(),
        ensures
            match channel {
                Some(found) => self@.channels.contains_key(peer_id@) && found@
                    == self@.channels[peer_id@] && found.wf(),
                None => !self@.channels.contains_key(peer_id@),
            },
    {
        self.channels_by_peers.get(peer_id.as_slice())
    }

    /// Hands over the datagrams that wait to be sent.
    pub fn take_outgoing(&mut self) -> (packets: Vec<PacketToSend>)
        requires
            old(self).wf(),
        ensures
            final(self).wf(),
            final(self).same_setup(old(self)),
            packets@ == old(self)@.queue,
            final(self)@ == (NodeView { queue: Seq::empty(), ..old(self)@ }),
    {
        let mut packets: Vec<PacketToSend> = Vec::new();
        std::mem::swap(&mut packets, &mut self.sender_queue);
        proof {
            assert(self@ =~= (NodeView { queue: Seq::empty(), ..old(self)@ }));
        }
        packets
    }

    /// What the node knows of itself when it sends at a time.
    pub open spec fn send_context(&self, now: u32) -> SendContext {
        SendContext {
            ip_address: self.spec_ip_address(),
            start_time: self.spec_start_time(),
            address_list_timeout_sec: self.spec_options().address_list_timeout_sec,
            now,
        }
    }

    /// Whether `after` and `r` are what sending a message from a local id to
    /// a peer leads to. The local id, the peer and the local key must be
    /// known. Then the packets that carry the message are queued, each under
    /// the peer's next sequence number; nothing else changes.
    pub open spec fn sent_message(
        &self,
        before: NodeView,
        after: NodeView,
        r: Result<(), AdnlError>,
        now: u32,
        local_id: Seq<u8>,
        peer_id: Seq<u8>,
        message: MessageView,
        priority: bool,
    ) -> bool {
        let key = (local_id, peer_id);
        if !before.locals.contains(local_id) {
            r == Err::<(), AdnlError>(AdnlError::Node(AdnlNodeError::PeersNotFound)) && after
                == before
        } else if !before.peers.contains_key(key) {
            r == Err::<(), AdnlError>(AdnlError::Node(AdnlNodeError::UnknownPeer)) && after
                == before
        } else if !self.spec_keys().contains_key(local_id) {
            r == Err::<(), AdnlError>(AdnlError::Keystore(AdnlKeystoreError::KeyIdNotFound))
                && after == before
        } else if !can_be_sent(message) {
            r == Err::<(), AdnlError>(AdnlError::Node(AdnlNodeError::UnexpectedMessageToSend))
                && after == before
        } else {
            let channel = if before.channels.contains_key(peer_id) {
                Some(before.channels[peer_id])
            } else {
                None
            };
            let signer = signer_for(
                channel,
                priority,
                self.spec_keys()[local_id].spec_private_key(),
                self.spec_keys()[local_id].spec_full_id(),
            );
            let payloads = payloads_of(
                additional_message(
                    before.peers[key].channel_key.public_bytes(),
                    channel,
                    now,
                ),
                additional_size(channel),
                message,
            );
            let sent = sendable(before.peers[key], signer, payloads.len());
            &&& after.peers.contains_key(key)
            &&& after == (NodeView {
                peers: before.peers.insert(key, after.peers[key]),
                queue: after.queue,
                ..before
            })
            &&& sent_payloads(
                before.queue,
                after.queue,
                peer_id,
                before.peers[key],
                after.peers[key],
                signer,
                payloads,
                self.send_context(now),
                sent as int,
            )
            &&& r == if sent == payloads.len() {
                Ok::<(), AdnlError>(())
            } else {
                Err(AdnlError::Node(AdnlNodeError::FailedToSendPacket))
            }
        }
    }

    /// Sends a message from a local id to a peer.
    pub fn send_message(
        &mut self,
        now: u32,
        local_id: &AdnlNodeIdShort,
        peer_id: &AdnlNodeIdShort,
        message: &Message,
        priority: bool,
    ) -> (r: Result<(), AdnlError>)
        requires
            old(self).wf(),
        ensures
            final(self).wf(),
            final(self).same_setup(old(self)),
            old(self).sent_message(
                old(self)@,
                final(self)@,
                r,
                now,
                local_id@,
                peer_id@,
                message@,
                priority,
            ),
    {
        let i = match self.peers.position(local_id.as_slice()) {
            Some(i) => i,
            None => return Err(AdnlError::Node(AdnlNodeError::PeersNotFound)),
        };
        let j = match self.peers.value_at(i).position(peer_id.as_slice()) {
            Some(j) => j,
            None => return Err(AdnlError::Node(AdnlNodeError::UnknownPeer)),
        };
        let local_key = match self.keystore.key_by_id(local_id) {
            Ok(key) => key,
            Err(e) => return Err(AdnlError::Keystore(e)),
        };
        let channel = self.channels_by_peers.get(peer_id.as_slice());
        let ctx = SendContext {
            ip_address: self.ip_address,
            start_time: self.start_time,
            address_list_timeout_sec: self.options.address_list_timeout_sec,
            now,
        };
        let peers = self.peers.value_mut(i);
        let peer = peers.value_mut(j);
        let r = send_message(
            peer_id,
            peer,
            local_key,
            channel,
            message,
            priority,
            &ctx,
            &mut self.sender_queue,
        );
        proof {
            let key = (local_id@, peer_id@);
            assert(self@.locals =~= old(self)@.locals);
            assert(self@.peers =~= old(self)@.peers.insert(key, self@.peers[key]));
            assert(self@ =~= (NodeView {
                peers: old(self)@.peers.insert(key, self@.peers[key]),
                queue: self@.queue,
                ..old(self)@
            }));
            if !can_be_sent(message@) {
                assert(self@.peers =~= old(self)@.peers);
                assert(self@ =~= old(self)@);
            } else {
                let channel_view = if old(self)@.channels.contains_key(peer_id@) {
                    Some(old(self)@.channels[peer_id@])
                } else {
                    None
                };
                let signer = signer_for(
                    channel_view,
                    priority,
                    old(self).spec_keys()[local_id@].spec_private_key(),
                    old(self).spec_keys()[local_id@].spec_full_id(),
                );
                let payloads = payloads_of(
                    additional_message(
                        old(self)@.peers[key].channel_key.public_bytes(),
                        channel_view,
                        now,
                    ),
                    additional_size(channel_view),
                    message@,
                );
                lemma_sends_keep_peer(
                    old(self)@.peers[key],
                    signer,
                    sendable(old(self)@.peers[key], signer, payloads.len()),
                );
                assert(self@.peers[key].receiver == old(self)@.peers[key].receiver);
            }
        }
        match r {
            Ok(()) => Ok(()),
            Err(e) => Err(AdnlError::Node(e)),
        }
    }

    /// Sends a custom message from a local id to a peer, in the priority
    /// class where the settings prefer it.
    pub fn send_custom_message(
        &mut self,
        now: u32,
        local_id: &AdnlNodeIdShort,
        peer_id: &AdnlNodeIdShort,
        data: &[u8],
    ) -> (r: Result<(), AdnlError>)
        requires
            old(self).wf(),
        ensures
            final(self).wf(),
            final(self).same_setup(old(self)),
            old(self).sent_message(
                old(self)@,
                final(self)@,
                r,
                now,
                local_id@,
                peer_id@,
                MessageView::Custom { data: data@ },
                old(self).spec_options().force_use_priority_channels,
            ),
    {
        let copy = crate::tl::copy_range(data, 0, data.len());
        assert(copy@ =~= data@);
        let priority = self.options.force_use_priority_channels;
        self.send_message(now, local_id, peer_id, &Message::Custom { data: copy }, priority)
    }

    /// The incoming channel ids after the ids of a channel were removed.
    pub open spec fn without_ids(receivers: Map<Seq<u8>, ReceiverView>, channel: ChannelView) -> Map<
        Seq<u8>,
        ReceiverView,
    > {
        receivers.remove(channel.ordinary_in_id()).remove(channel.priority_in_id())
    }

    /// The incoming channel ids after the ids of a peer's channel were added.
    pub open spec fn with_ids(
        receivers: Map<Seq<u8>, ReceiverView>,
        channel: ChannelView,
        peer_id: Seq<u8>,
    ) -> Map<Seq<u8>, ReceiverView> {
        receivers.insert(
            channel.ordinary_in_id(),
            ReceiverView { peer_id, priority: false },
        ).insert(channel.priority_in_id(), ReceiverView { peer_id, priority: true })
    }

    /// Whether `after` and `r` are what a peer's proposal or confirmation of
    /// a channel leads to. The peer's key must be a valid one and the peer
    /// must be known. A channel that was made for this key and date stays,
    /// and a confirmation makes it ready. Else a channel is derived from the
    /// ephemeral key kept for the peer; it takes the place of the peer's
    /// channel, and its incoming ids take the place of the old ones. A
    /// channel derived on a confirmation is ready at once.
    pub open spec fn created_channel(
        &self,
        before: NodeView,
        after: NodeView,
        r: Result<(), AdnlError>,
        local_id: Seq<u8>,
        peer_id: Seq<u8>,
        peer_channel_public_key: Seq<u8>,
        peer_channel_date: u32,
        context: ChannelCreationContext,
    ) -> bool {
        let key = (local_id, peer_id);
        if !ed25519_key_valid(peer_channel_public_key) {
            r == Err::<(), AdnlError>(AdnlError::Node(AdnlNodeError::InvalidPacket)) && after
                == before
        } else if !before.locals.contains(local_id) {
            r == Err::<(), AdnlError>(AdnlError::Node(AdnlNodeError::PeersNotFound)) && after
                == before
        } else if !before.peers.contains_key(key) {
            r == Err::<(), AdnlError>(AdnlError::Node(AdnlNodeError::UnknownPeerInChannel))
                && after == before
        } else if before.channels.contains_key(peer_id)
            && before.channels[peer_id].peer_channel_public_key == peer_channel_public_key
            && before.channels[peer_id].peer_channel_date == peer_channel_date {
            &&& r is Ok
            &&& after == (NodeView {
                channels: before.channels.insert(
                    peer_id,
                    ChannelView {
                        ready: before.channels[peer_id].ready || context
                            == ChannelCreationContext::ConfirmChannel,
                        ..before.channels[peer_id]
                    },
                ),
                ..before
            })
        } else {
            let channel = ChannelView {
                ready: context == ChannelCreationContext::ConfirmChannel,
                ..ChannelView::created(
                    local_id,
                    peer_id,
                    before.peers[key].channel_key.secret_bytes(),
                    peer_channel_public_key,
                    peer_channel_date,
                    context,
                )
            };
            &&& r is Ok
            &&& after == (NodeView {
                channels: before.channels.insert(peer_id, channel),
                receivers: Self::with_ids(
                    if before.channels.contains_key(peer_id) {
                        Self::without_ids(before.receivers, before.channels[peer_id])
                    } else {
                        before.receivers
                    },
                    channel,
                    peer_id,
                ),
                ..before
            })
        }
    }

    /// A channel that was just derived is found in both tables: under the
    /// peer's id, and under its incoming ids, which lead to the peer and the
    /// priority class.
    pub proof fn lemma_created_channel_is_found(
        &self,
        before: NodeView,
        after: NodeView,
        local_id: Seq<u8>,
        peer_id: Seq<u8>,
        peer_channel_public_key: Seq<u8>,
        peer_channel_date: u32,
        context: ChannelCreationContext,
    )
        requires
            self.created_channel(
                before,
                after,
                Ok(()),
                local_id,
                peer_id,
                peer_channel_public_key,
                peer_channel_date,
                context,
            ),
            !(before.channels.contains_key(peer_id)
                && before.channels[peer_id].peer_channel_public_key == peer_channel_public_key
                && before.channels[peer_id].peer_channel_date == peer_channel_date),
        ensures
            after.channels.contains_key(peer_id),
            after.channels[peer_id].peer_channel_public_key == peer_channel_public_key,
            after.channels[peer_id].peer_channel_date == peer_channel_date,
            after.channels[peer_id].ready == (context == ChannelCreationContext::ConfirmChannel),
            after.receivers.contains_key(after.channels[peer_id].priority_in_id()),
            after.receivers[after.channels[peer_id].priority_in_id()] == (ReceiverView {
                peer_id,
                priority: true,
            }),
            after.receivers.contains_key(after.channels[peer_id].ordinary_in_id()),
            after.channels[peer_id].ordinary_in_id() != after.channels[peer_id].priority_in_id()
                ==> after.receivers[after.channels[peer_id].ordinary_in_id()] == (ReceiverView {
                peer_id,
                priority: false,
            }),
    {
    }

    /// Handles a peer's proposal or confirmation of a channel.
    pub fn create_channel(
        &mut self,
        local_id: &AdnlNodeIdShort,
        peer_id: &AdnlNodeIdShort,
        peer_channel_public_key: [u8; 32],
        peer_channel_date: u32,
        context: ChannelCreationContext,
    ) -> (r: Result<(), AdnlError>)
        requires
            old(self).wf(),
        ensures
            final(self).wf(),
            final(self).same_setup(old(self)),
            old(self).created_channel(
                old(self)@,
                final(self)@,
                r,
                local_id@,
                peer_id@,
                peer_channel_public_key@,
                peer_channel_date,
                context,
            ),
    {
        if !crate::crypto::is_valid_public_key(&peer_channel_public_key) {
            return Err(AdnlError::Node(AdnlNodeError::InvalidPacket));
        }
        let peers = match self.peers.get(local_id.as_slice()) {
            Some(peers) => peers,
            None => return Err(AdnlError::Node(AdnlNodeError::PeersNotFound)),
        };
        let peer = match peers.get(peer_id.as_slice()) {
            Some(peer) => peer,
            None => return Err(AdnlError::Node(AdnlNodeError::UnknownPeerInChannel)),
        };
        if let Some(at) = self.channels_by_peers.position(peer_id.as_slice()) {
            if self.channels_by_peers.value_at(at).is_still_valid(
                &peer_channel_public_key,
                peer_channel_date,
            ) {
                if context == ChannelCreationContext::ConfirmChannel {
                    self.channels_by_peers.value_mut(at).set_ready();
                }
                proof {
                    let known = old(self)@.channels[peer_id@];
                    let kept = ChannelView {
                        ready: known.ready || context == ChannelCreationContext::ConfirmChannel,
                        ..known
                    };
                    assert(self@.channels =~= old(self)@.channels.insert(peer_id@, kept));
                    assert(self@ =~= (NodeView {
                        channels: old(self)@.channels.insert(peer_id@, kept),
                        ..old(self)@
                    }));
                }
                return Ok(());
            }
        }
        let mut new_channel = match AdnlChannel::new(
            *local_id,
            *peer_id,
            peer.channel_key(),
            peer_channel_public_key,
            peer_channel_date,
            context,
        ) {
            Some(channel) => channel,
            None => return Err(AdnlError::Node(AdnlNodeError::InvalidPacket)),
        };
        if context == ChannelCreationContext::ConfirmChannel {
            new_channel.set_ready();
        }
        let ordinary_id = *new_channel.ordinary_channel_in_id();
        let priority_id = *new_channel.priority_channel_in_id();
        let ghost new_view = new_channel@;
        if let Some(old_channel) = self.channels_by_peers.insert(peer_id.0, new_channel) {
            let _ = self.channels_by_id.remove(old_channel.ordinary_channel_in_id());
            let _ = self.channels_by_id.remove(old_channel.priority_channel_in_id());
        }
        let _ = self.channels_by_id.insert(
            ordinary_id,
            ChannelReceiver { peer_id: peer_id.0, priority: false },
        );
        let _ = self.channels_by_id.insert(
            priority_id,
            ChannelReceiver { peer_id: peer_id.0, priority: true },
        );
        proof {
            let base = if old(self)@.channels.contains_key(peer_id@) {
                Self::without_ids(old(self)@.receivers, old(self)@.channels[peer_id@])
            } else {
                old(self)@.receivers
            };
            assert(self@.channels =~= old(self)@.channels.insert(peer_id@, new_view));
            assert(self@.receivers =~= Self::with_ids(base, new_view, peer_id@));
            assert(self@ =~= (NodeView {
                channels: old(self)@.channels.insert(peer_id@, new_view),
                receivers: Self::with_ids(base, new_view, peer_id@),
                ..old(self)@
            }));
        }
        Ok(())
    }

    /// Whether `after` and `r` are what resetting a peer leads to: the peer's
    /// channel and its incoming ids are gone and the peer has a new
    /// ephemeral key.
    pub open spec fn was_reset(
        &self,
        before: NodeView,
        after: NodeView,
        r: Result<(), AdnlError>,
        local_id: Seq<u8>,
        peer_id: Seq<u8>,
    ) -> bool {
        let key = (local_id, peer_id);
        if !before.locals.contains(local_id) {
            r == Err::<(), AdnlError>(AdnlError::Node(AdnlNodeError::PeersNotFound)) && after
                == before
        } else if !before.peers.contains_key(key) {
            r == Err::<(), AdnlError>(AdnlError::Node(AdnlNodeError::UnknownPeer)) && after
                == before
        } else {
            &&& r is Ok
            &&& after.peers.contains_key(key)
            &&& after.peers[key].channel_key.wf()
            &&& after == (NodeView {
                peers: before.peers.insert(
                    key,
                    PeerView { channel_key: after.peers[key].channel_key, ..before.peers[key] },
                ),
                channels: before.channels.remove(peer_id),
                receivers: if before.channels.contains_key(peer_id) {
                    Self::without_ids(before.receivers, before.channels[peer_id])
                } else {
                    before.receivers
                },
                ..before
            })
        }
    }

    /// Drops the channel with a peer and gives the peer a fresh ephemeral
    /// key.
    pub fn reset_peer(&mut self, local_id: &AdnlNodeIdShort, peer_id: &AdnlNodeIdShort) -> (r:
        Result<(), AdnlError>)
        requires
            old(self).wf(),
        ensures
            final(self).wf(),
            final(self).same_setup(old(self)),
            old(self).was_reset(old(self)@, final(self)@, r, local_id@, peer_id@),
    {
        let i = match self.peers.position(local_id.as_slice()) {
            Some(i) => i,
            None => return Err(AdnlError::Node(AdnlNodeError::PeersNotFound)),
        };
        let j = match self.peers.value_at(i).position(peer_id.as_slice()) {
            Some(j) => j,
            None => return Err(AdnlError::Node(AdnlNodeError::UnknownPeer)),
        };
        if let Some(removed) = self.channels_by_peers.remove(peer_id.as_slice()) {
            let _ = self.channels_by_id.remove(removed.ordinary_channel_in_id());
            let _ = self.channels_by_id.remove(removed.priority_channel_in_id());
        }
        let peers = self.peers.value_mut(i);
        peers.value_mut(j).reset();
        proof {
            let key = (local_id@, peer_id@);
            let rotated = PeerView {
                channel_key: self@.peers[key].channel_key,
                ..old(self)@.peers[key]
            };
            let receivers = if old(self)@.channels.contains_key(peer_id@) {
                Self::without_ids(old(self)@.receivers, old(self)@.channels[peer_id@])
            } else {
                old(self)@.receivers
            };
            assert(self@.locals =~= old(self)@.locals);
            assert(self@.peers =~= old(self)@.peers.insert(key, rotated));
            assert(self@.channels =~= old(self)@.channels.remove(peer_id@));
            assert(self@.receivers =~= receivers);
            assert(self@ =~= (NodeView {
                peers: old(self)@.peers.insert(key, rotated),
                channels: old(self)@.channels.remove(peer_id@),
                receivers,
                ..old(self)@
            }));
        }
        Ok(())
    }

    /// The node after the sender of a packet announced its address, given
    /// what the filter said of the sender: a peer that is admitted is
    /// entered, with the ephemeral key given, or gets its new address.
    pub open spec fn noted_peer(
        &self,
        before: NodeView,
        local_id: Seq<u8>,
        peer_id: Seq<u8>,
        ip: AdnlAddressUdp,
        full_id: Seq<u8>,
        channel_key: KeyPair,
        filter_admits: bool,
    ) -> NodeView {
        let key = (local_id, peer_id);
        if self.admits(local_id, peer_id, ip, filter_admits) {
            NodeView {
                peers: before.peers.insert(
                    key,
                    if before.peers.contains_key(key) {
                        PeerView { ip_address: ip, ..before.peers[key] }
                    } else {
                        self.fresh_peer(full_id, ip, channel_key)
                    },
                ),
                ..before
            }
        } else {
            before
        }
    }

    /// Whether `after` and `r` are what a packet leads to whose sender names
    /// its key and announces an address, given what the filter said of the
    /// sender: the sender is noted as a peer where it is admitted, and then
    /// the packet is checked against the peer. A packet that was delivered
    /// before leaves the node as it was, the peer's address included.
    pub open spec fn announced_packet(
        &self,
        before: NodeView,
        after: NodeView,
        r: Result<Option<AdnlNodeIdShort>, AdnlError>,
        now: u32,
        raw: Seq<u8>,
        packet: IncomingPacketView,
        local_id: Seq<u8>,
        peer_id: Seq<u8>,
        full_id: Seq<u8>,
        ip: AdnlAddressUdp,
        from_channel: bool,
        priority: bool,
        filter_admits: bool,
    ) -> bool {
        if self.admits(local_id, peer_id, ip, filter_admits) && !before.locals.contains(local_id) {
            r matches Err(got) && got == AdnlError::Node(AdnlNodeError::PeersNotFound) && after
                == before
        } else if r matches Ok(None) {
            let noted = self.noted_peer(
                before,
                local_id,
                peer_id,
                ip,
                full_id,
                before.peers[(local_id, peer_id)].channel_key,
                filter_admits,
            );
            &&& self.judged_packet(
                noted,
                noted,
                r,
                now,
                raw,
                packet,
                local_id,
                peer_id,
                from_channel,
                false,
                priority,
            )
            &&& after == before
        } else {
            self.judged_packet(
                self.noted_peer(
                    before,
                    local_id,
                    peer_id,
                    ip,
                    full_id,
                    after.peers[(local_id, peer_id)].channel_key,
                    filter_admits,
                ),
                after,
                r,
                now,
                raw,
                packet,
                local_id,
                peer_id,
                from_channel,
                false,
                priority,
            )
        }
    }

    /// Whether `after` and `r` are what the checks of a packet against the
    /// peer lead to, from the node `mid` in which the sender is noted.
    pub open spec fn judged_packet(
        &self,
        mid: NodeView,
        after: NodeView,
        r: Result<Option<AdnlNodeIdShort>, AdnlError>,
        now: u32,
        raw: Seq<u8>,
        packet: IncomingPacketView,
        local_id: Seq<u8>,
        peer_id: Seq<u8>,
        from_channel: bool,
        check_signature: bool,
        priority: bool,
    ) -> bool {
        let key = (local_id, peer_id);
        if !mid.locals.contains(local_id) {
            r matches Err(e) && e == AdnlError::Node(AdnlNodeError::PeersNotFound) && after == mid
        } else if from_channel && !mid.channels.contains_key(peer_id) {
            r matches Err(e) && e == AdnlError::Packet(AdnlPacketError::UnknownChannel) && after
                == mid
        } else if !mid.peers.contains_key(key) {
            r matches Err(e) && e == AdnlError::Packet(AdnlPacketError::UnknownPeer) && after
                == mid
        } else {
            let (verdict, peer) = peer_verdict(
                mid.peers[key],
                raw,
                packet,
                check_signature,
                now,
                self.spec_options().clock_tolerance_sec,
                priority,
            );
            let judged = NodeView { peers: mid.peers.insert(key, peer), ..mid };
            match verdict {
                PeerVerdict::Accepted => r matches Ok(Some(id)) && id@ == peer_id && after
                    == judged,
                PeerVerdict::Duplicate => r matches Ok(None) && after == mid,
                PeerVerdict::Rejected(e) => r matches Err(got) && got == AdnlError::Packet(e)
                    && after == judged,
                PeerVerdict::Outdated => exists|sent: Result<(), AdnlError>|
                    {
                        &&& #[trigger] self.sent_message(
                            judged,
                            after,
                            sent,
                            now,
                            local_id,
                            peer_id,
                            MessageView::Nop,
                            false,
                        )
                        &&& match sent {
                            Ok(()) => r matches Err(e) && e == AdnlError::Packet(
                                AdnlPacketError::DstReinitDateTooOld,
                            ),
                            Err(failed) => r matches Err(e) && e == failed,
                        }
                    },
            }
        }
    }

    /// Whether `after` and `r` are what validating a packet leads to. First
    /// the sender is found out. A sender that names its key and announces
    /// its address is noted as a peer. Then the packet is checked against
    /// what the node keeps for the peer, which takes note of the packet's
    /// dates and sequence number. The result is the sender of a packet that
    /// is new and acceptable, nothing for a packet that was delivered
    /// before, and else the reason for which the packet is refused.
    pub open spec fn checked_packet(
        &self,
        before: NodeView,
        after: NodeView,
        r: Result<Option<AdnlNodeIdShort>, AdnlError>,
        now: u32,
        raw: Seq<u8>,
        packet: IncomingPacketView,
        local_id: Seq<u8>,
        channel_peer: Option<Seq<u8>>,
        priority: bool,
    ) -> bool {
        match source_of(raw, packet, channel_peer, self.spec_options().packet_signature_required) {
            Err(e) => r matches Err(got) && got == AdnlError::Packet(e) && after == before,
            Ok(source) => {
                let key = (local_id, source.peer_id);
                let tolerance = self.spec_options().clock_tolerance_sec;
                if source.full_id is Some && packet.address is Some {
                    match announced_address(packet.address->0, now, tolerance) {
                        None => r matches Err(got) && got == AdnlError::Packet(
                            AdnlPacketError::InvalidAddressList,
                        ) && after == before,
                        Some(ip) => exists|filter_admits: bool| #[trigger]
                            self.announced_packet(
                                before,
                                after,
                                r,
                                now,
                                raw,
                                packet,
                                local_id,
                                source.peer_id,
                                source.full_id->0,
                                ip,
                                channel_peer is Some,
                                priority,
                                filter_admits,
                            ),
                    }
                } else {
                    self.judged_packet(
                        before,
                        after,
                        r,
                        now,
                        raw,
                        packet,
                        local_id,
                        source.peer_id,
                        channel_peer is Some,
                        source.full_id is None,
                        priority,
                    )
                }
            },
        }
    }

    /// Nodes with the same setup judge a packet alike.
    proof fn lemma_judged_by_setup(
        &self,
        other: &Self,
        mid: NodeView,
        after: NodeView,
        r: Result<Option<AdnlNodeIdShort>, AdnlError>,
        now: u32,
        raw: Seq<u8>,
        packet: IncomingPacketView,
        local_id: Seq<u8>,
        peer_id: Seq<u8>,
        from_channel: bool,
        check_signature: bool,
        priority: bool,
    )
        requires
            self.same_setup(other),
            self.judged_packet(
                mid,
                after,
                r,
                now,
                raw,
                packet,
                local_id,
                peer_id,
                from_channel,
                check_signature,
                priority,
            ),
        ensures
            other.judged_packet(
                mid,
                after,
                r,
                now,
                raw,
                packet,
                local_id,
                peer_id,
                from_channel,
                check_signature,
                priority,
            ),
    {
        let key = (local_id, peer_id);
        if mid.locals.contains(local_id) && !(from_channel && !mid.channels.contains_key(peer_id))
            && mid.peers.contains_key(key) {
            let (verdict, peer) = peer_verdict(
                mid.peers[key],
                raw,
                packet,
                check_signature,
                now,
                self.spec_options().clock_tolerance_sec,
                priority,
            );
            let judged = NodeView { peers: mid.peers.insert(key, peer), ..mid };
            if verdict == PeerVerdict::Outdated {
                let sent = choose|sent: Result<(), AdnlError>|
                    {
                        &&& #[trigger] self.sent_message(
                            judged,
                            after,
                            sent,
                            now,
                            local_id,
                            peer_id,
                            MessageView::Nop,
                            false,
                        )
                        &&& match sent {
                            Ok(()) => r matches Err(e) && e == AdnlError::Packet(
                                AdnlPacketError::DstReinitDateTooOld,
                            ),
                            Err(failed) => r matches Err(e) && e == failed,
                        }
                    };
                assert(other.sent_message(
                    judged,
                    after,
                    sent,
                    now,
                    local_id,
                    peer_id,
                    MessageView::Nop,
                    false,
                ));
            }
        }
    }

    /// Checks the packet against the peer and sends what the verdict asks for.
    fn judge_packet(
        &mut self,
        now: u32,
        raw_packet: &[u8],
        packet: &IncomingPacketContents,
        local_id: &AdnlNodeIdShort,
        peer_id: AdnlNodeIdShort,
        from_channel: bool,
        check_signature: bool,
        priority: bool,
    ) -> (r: Result<Option<AdnlNodeIdShort>, AdnlError>)
        requires
            old(self).wf(),
        ensures
            final(self).wf(),
            final(self).same_setup(old(self)),
            old(self).judged_packet(
                old(self)@,
                final(self)@,
                r,
                now,
                raw_packet@,
                packet@,
                local_id@,
                peer_id@,
                from_channel,
                check_signature,
                priority,
            ),
            forall|l: Seq<u8>, p: Seq<u8>|
                old(self)@.peers.contains_key((l, p)) ==> final(self)@.peers.contains_key((l, p))
                    && (#[trigger] final(self)@.peers[(l, p)]).channel_key == old(self)@.peers[(
                    l,
                    p,
                )].channel_key,
            final(self)@.channels == old(self)@.channels,
            r matches Ok(None) ==> final(self)@ == old(self)@,
    {
        let i = match self.peers.position(local_id.as_slice()) {
            Some(i) => i,
            None => return Err(AdnlError::Node(AdnlNodeError::PeersNotFound)),
        };
        if from_channel && !self.channels_by_peers.contains_key(peer_id.as_slice()) {
            return Err(AdnlError::Packet(AdnlPacketError::UnknownChannel));
        }
        let j = match self.peers.value_at(i).position(peer_id.as_slice()) {
            Some(j) => j,
            None => return Err(AdnlError::Packet(AdnlPacketError::UnknownPeer)),
        };
        let clock_tolerance = self.options.clock_tolerance_sec;
        let peers = self.peers.value_mut(i);
        let verdict = check_against_peer(
            peers.value_mut(j),
            raw_packet,
            packet,
            check_signature,
            now,
            clock_tolerance,
            priority,
        );
        let ghost key = (local_id@, peer_id@);
        let ghost judged = NodeView {
            peers: old(self)@.peers.insert(key, self@.peers[key]),
            ..old(self)@
        };
        proof {
            assert(self@.locals =~= old(self)@.locals);
            assert(self@.peers =~= judged.peers);
            assert(self@ =~= judged);
        }
        match verdict {
            PeerVerdict::Accepted => Ok(Some(peer_id)),
            PeerVerdict::Duplicate => {
                proof {
                    lemma_duplicate_changes_nothing(
                        old(self)@.peers[key],
                        raw_packet@,
                        packet@,
                        check_signature,
                        now,
                        clock_tolerance,
                        priority,
                    );
                    assert(judged.peers =~= old(self)@.peers);
                }
                Ok(None)
            },
            PeerVerdict::Rejected(e) => Err(AdnlError::Packet(e)),
            PeerVerdict::Outdated => {
                let sent = self.send_message(now, local_id, &peer_id, &Message::Nop, false);
                proof {
                    assert(old(self).sent_message(
                        judged,
                        self@,
                        sent,
                        now,
                        local_id@,
                        peer_id@,
                        MessageView::Nop,
                        false,
                    ));
                    if can_be_sent(MessageView::Nop) && old(self).spec_keys().contains_key(
                        local_id@,
                    ) {
                        let channel = if judged.channels.contains_key(peer_id@) {
                            Some(judged.channels[peer_id@])
                        } else {
                            None
                        };
                        let signer = signer_for(
                            channel,
                            false,
                            old(self).spec_keys()[local_id@].spec_private_key(),
                            old(self).spec_keys()[local_id@].spec_full_id(),
                        );
                        let payloads = payloads_of(
                            additional_message(
                                judged.peers[key].channel_key.public_bytes(),
                                channel,
                                now,
                            ),
                            additional_size(channel),
                            MessageView::Nop,
                        );
                        lemma_sends_keep_peer(
                            judged.peers[key],
                            signer,
                            sendable(judged.peers[key], signer, payloads.len()),
                        );
                    }
                }
                match sent {
                    Ok(()) => Err(AdnlError::Packet(AdnlPacketError::DstReinitDateTooOld)),
                    Err(e) => Err(e),
                }
            },
        }
    }

    /// Validates a received packet and finds out who sent it. `peer_id` is
    /// the channel's peer where the packet came through a channel.
    pub fn check_packet(
        &mut self,
        now: u32,
        raw_packet: &[u8],
        packet: &IncomingPacketContents,
        local_id: &AdnlNodeIdShort,
        peer_id: Option<AdnlNodeIdShort>,
        priority: bool,
    ) -> (r: Result<Option<AdnlNodeIdShort>, AdnlError>)
        requires
            old(self).wf(),
        ensures
            final(self).wf(),
            final(self).same_setup(old(self)),
            old(self).checked_packet(
                old(self)@,
                final(self)@,
                r,
                now,
                raw_packet@,
                packet@,
                local_id@,
                match peer_id {
                    Some(id) => Some(id@),
                    None => None,
                },
                priority,
            ),
            final(self)@.channels == old(self)@.channels,
            r matches Ok(None) ==> final(self)@ == old(self)@,
    {
        let from_channel = peer_id.is_some();
        let source = match resolve_source(
            raw_packet,
            packet,
            peer_id,
            self.options.packet_signature_required,
        ) {
            Ok(source) => source,
            Err(e) => return Err(AdnlError::Packet(e)),
        };
        let check_signature = source.full_id.is_none();
        let ghost mut filter_admits = true;
        let ghost mut announced = self.ip_address;
        let mut known: Option<AdnlPeer> = None;
        if let Some(full_id) = source.full_id {
            if let Some(list) = &packet.address {
                let ip_address = match parse_address_list(
                    list,
                    now,
                    self.options.clock_tolerance_sec,
                ) {
                    Ok(ip) => ip,
                    Err(e) => return Err(AdnlError::Packet(e)),
                };
                known = match self.peer(local_id, &source.peer_id) {
                    Some(peer) => Some(*peer),
                    None => None,
                };
                let added = self.add_peer(
                    PeerContext::AdnlPacket,
                    local_id,
                    &source.peer_id,
                    ip_address,
                    full_id,
                );
                proof {
                    announced = ip_address;
                    filter_admits = choose|filter_admits: bool| #[trigger]
                        old(self).added_peer(
                            old(self)@,
                            self@,
                            added,
                            local_id@,
                            source.peer_id@,
                            ip_address,
                            full_id@,
                            filter_admits,
                        );
                }
                match added {
                    Ok(_) => {},
                    Err(e) => {
                        assert(old(self).announced_packet(
                            old(self)@,
                            self@,
                            Err(AdnlError::Node(e)),
                            now,
                            raw_packet@,
                            packet@,
                            local_id@,
                            source@.peer_id,
                            source@.full_id->0,
                            ip_address,
                            peer_id is Some,
                            priority,
                            filter_admits,
                        ));
                        return Err(AdnlError::Node(e));
                    },
                }
            }
        }
        let ghost mid = *self;
        proof {
            let key = (local_id@, source.peer_id@);
            assert(mid@ == old(self)@ || (mid@.peers.contains_key(key) && mid@ == (NodeView {
                peers: old(self)@.peers.insert(key, mid@.peers[key]),
                ..old(self)@
            })));
        }
        let r = self.judge_packet(
            now,
            raw_packet,
            packet,
            local_id,
            source.peer_id,
            from_channel,
            check_signature,
            priority,
        );
        let ghost judged = self@;
        let dropped = match &r {
            Ok(None) => true,
            _ => false,
        };
        if dropped {
            if let Some(peer) = known {
                if let Some(i) = self.peers.position(local_id.as_slice()) {
                    let peers = self.peers.value_mut(i);
                    let _ = peers.insert(source.peer_id.0, peer);
                }
                proof {
                    let key = (local_id@, source.peer_id@);
                    assert(judged == mid@);
                    assert(self@.locals =~= judged.locals);
                    assert(self@.peers =~= judged.peers.insert(key, peer@));
                    assert(self@.peers =~= old(self)@.peers);
                    assert(self@ =~= old(self)@);
                }
            }
        }
        proof {
            let key = (local_id@, source.peer_id@);
            mid.lemma_judged_by_setup(
                old(self),
                mid@,
                judged,
                r,
                now,
                raw_packet@,
                packet@,
                local_id@,
                source.peer_id@,
                from_channel,
                check_signature,
                priority,
            );
            if mid@.peers.contains_key(key) {
                assert(judged.peers[key].channel_key == mid@.peers[key].channel_key);
            }
            if dropped && source.full_id is Some && packet.address is Some
                && !old(self)@.peers.contains_key(key) && mid@.peers.contains_key(key) {
                lemma_first_packet_is_no_duplicate(
                    mid@.peers[key],
                    raw_packet@,
                    packet@,
                    check_signature,
                    now,
                    old(self).spec_options().clock_tolerance_sec,
                    priority,
                );
            }
            if source.full_id is Some && packet.address is Some {
                assert(old(self).announced_packet(
                    old(self)@,
                    self@,
                    r,
                    now,
                    raw_packet@,
                    packet@,
                    local_id@,
                    source@.peer_id,
                    source@.full_id->0,
                    announced,
                    peer_id is Some,
                    priority,
                    filter_admits,
                ));
            }
        }
        r
    }

    /// Whether `after` and `r` are what a message that is no part leads to.
    /// An answer settles its query. A proposal or confirmation of a channel
    /// makes or keeps the channel. Custom messages and queries are handed
    /// out for the subscribers. An empty message does nothing. Parts and
    /// other kinds are refused.
    pub open spec fn dispatched(
        &self,
        before: NodeView,
        after: NodeView,
        r: Result<MessageEvent, AdnlError>,
        local_id: Seq<u8>,
        peer_id: Seq<u8>,
        message: MessageView,
    ) -> bool {
        match message {
            MessageView::Answer { query_id, answer } => if update_applies(
                before.queries,
                query_id,
            ) {
                &&& r matches Ok(event) && event@ == MessageEventView::Done
                &&& after == (NodeView {
                    queries: updated(before.queries, query_id, Some(answer)),
                    ..before
                })
            } else {
                &&& r matches Err(e) && e == AdnlError::Node(AdnlNodeError::UnknownQueryAnswer)
                &&& after == before
            },
            MessageView::ConfirmChannel { key, date, .. } => self.created_channel(
                before,
                after,
                match r {
                    Ok(_) => Ok(()),
                    Err(e) => Err(e),
                },
                local_id,
                peer_id,
                key,
                date,
                ChannelCreationContext::ConfirmChannel,
            ) && (r matches Ok(event) ==> event@ == MessageEventView::Done),
            MessageView::CreateChannel { key, date } => self.created_channel(
                before,
                after,
                match r {
                    Ok(_) => Ok(()),
                    Err(e) => Err(e),
                },
                local_id,
                peer_id,
                key,
                date,
                ChannelCreationContext::CreateChannel,
            ) && (r matches Ok(event) ==> event@ == MessageEventView::Done),
            MessageView::Custom { data } => {
                &&& r matches Ok(event) && event@ == MessageEventView::Custom { data }
                &&& after == before
            },
            MessageView::Nop => {
                &&& r matches Ok(event) && event@ == MessageEventView::Done
                &&& after == before
            },
            MessageView::Query { query_id, query } => {
                &&& r matches Ok(event) && event@ == MessageEventView::Query { query_id, query }
                &&& after == before
            },
            _ => {
                &&& r matches Err(e) && e == AdnlError::Node(AdnlNodeError::UnknownMessage)
                &&& after == before
            },
        }
    }

    /// Whether `after` and `r` are what processing a message of an accepted
    /// packet leads to. A part goes to its transfer; the message that a
    /// completed transfer holds is processed in its place.
    pub open spec fn processed_message(
        &self,
        before: NodeView,
        after: NodeView,
        r: Result<MessageEvent, AdnlError>,
        now: u32,
        local_id: Seq<u8>,
        peer_id: Seq<u8>,
        message: MessageView,
    ) -> bool {
        match message {
            MessageView::Part { hash, total_size, offset, data } => {
                let (outcome, transfers) = part_outcome(
                    before.transfers,
                    now,
                    hash,
                    total_size,
                    offset,
                    data,
                );
                let mid = NodeView { transfers, ..before };
                match outcome {
                    Err(e) => r matches Err(got) && got == AdnlError::Transfer(e) && after == mid,
                    Ok(None) => r matches Ok(event) && event@ == MessageEventView::Done && after
                        == mid,
                    Ok(Some(body)) => match message_at(body, 0) {
                        None => r matches Err(got) && got == AdnlError::Node(
                            AdnlNodeError::InvalidPacket,
                        ) && after == mid,
                        Some((inner, _)) => self.dispatched(
                            mid,
                            after,
                            r,
                            local_id,
                            peer_id,
                            inner,
                        ),
                    },
                }
            },
            _ => self.dispatched(before, after, r, local_id, peer_id, message),
        }
    }

    /// Processes a message that is no part.
    fn dispatch(
        &mut self,
        local_id: &AdnlNodeIdShort,
        peer_id: &AdnlNodeIdShort,
        message: Message,
    ) -> (r: Result<MessageEvent, AdnlError>)
        requires
            old(self).wf(),
        ensures
            final(self).wf(),
            final(self).same_setup(old(self)),
            old(self).dispatched(old(self)@, final(self)@, r, local_id@, peer_id@, message@),
    {
        match message {
            Message::Answer { query_id, answer } => {
                let applied = self.queries.update_query(&query_id, Some(answer.as_slice()));
                proof {
                    assert(self@ =~= (NodeView {
                        queries: updated(old(self)@.queries, query_id@, Some(answer@)),
                        ..old(self)@
                    }));
                }
                if applied {
                    Ok(MessageEvent::Done)
                } else {
                    Err(AdnlError::Node(AdnlNodeError::UnknownQueryAnswer))
                }
            },
            Message::ConfirmChannel { key, date, .. } => {
                match self.create_channel(
                    local_id,
                    peer_id,
                    key,
                    date,
                    ChannelCreationContext::ConfirmChannel,
                ) {
                    Ok(()) => Ok(MessageEvent::Done),
                    Err(e) => Err(e),
                }
            },
            Message::CreateChannel { key, date } => {
                match self.create_channel(
                    local_id,
                    peer_id,
                    key,
                    date,
                    ChannelCreationContext::CreateChannel,
                ) {
                    Ok(()) => Ok(MessageEvent::Done),
                    Err(e) => Err(e),
                }
            },
            Message::Custom { data } => Ok(MessageEvent::Custom { data }),
            Message::Nop => Ok(MessageEvent::Done),
            Message::Query { query_id, query } => Ok(MessageEvent::Query { query_id, query }),
            _ => Err(AdnlError::Node(AdnlNodeError::UnknownMessage)),
        }
    }

    /// Offers a part to its transfer, which begins with its first part.
    /// Returns the message where the part completed the transfer.
    fn add_part(&mut self, now: u32, hash: &[u8; 32], total_size: u32, offset: u32, data: &[u8]) -> (r:
        Result<Option<Vec<u8>>, TransferError>)
        requires
            old(self).wf(),
        ensures
            final(self).wf(),
            final(self).same_setup(old(self)),
            ({
                let (outcome, transfers) = part_outcome(
                    old(self)@.transfers,
                    now,
                    hash@,
                    total_size,
                    offset,
                    data@,
                );
                &&& final(self)@ == (NodeView { transfers, ..old(self)@ })
                &&& match outcome {
                    Ok(Some(body)) => r matches Ok(Some(out)) && out@ == body,
                    Ok(None) => r matches Ok(None),
                    Err(e) => r matches Err(got) && got == e,
                }
            }),
    {
        let at = match self.incoming_transfers.position(hash) {
            Some(at) => at,
            None => {
                let _ = self.incoming_transfers.insert(
                    *hash,
                    Transfer::new(total_size as usize, now),
                );
                self.incoming_transfers.position(hash).unwrap()
            },
        };
        let transfer = self.incoming_transfers.value_mut(at);
        transfer.refresh(now);
        let r = transfer.add_part(offset as usize, data, hash);
        match &r {
            Ok(None) => {},
            _ => {
                let _ = self.incoming_transfers.remove(hash);
            },
        }
        proof {
            let (outcome, transfers) = part_outcome(
                old(self)@.transfers,
                now,
                hash@,
                total_size,
                offset,
                data@,
            );
            assert(self@.transfers =~= transfers);
            assert(self@ =~= (NodeView { transfers, ..old(self)@ }));
        }
        r
    }

    /// Processes one message of an accepted packet and tells what is left
    /// to do for it.
    pub fn process_message(
        &mut self,
        now: u32,
        local_id: &AdnlNodeIdShort,
        peer_id: &AdnlNodeIdShort,
        message: Message,
    ) -> (r: Result<MessageEvent, AdnlError>)
        requires
            old(self).wf(),
        ensures
            final(self).wf(),
            final(self).same_setup(old(self)),
            old(self).processed_message(
                old(self)@,
                final(self)@,
                r,
                now,
                local_id@,
                peer_id@,
                message@,
            ),
    {
        if let Message::Part { hash, total_size, offset, data } = &message {
            let body = match self.add_part(now, hash, *total_size, *offset, data.as_slice()) {
                Ok(Some(body)) => body,
                Ok(None) => return Ok(MessageEvent::Done),
                Err(e) => return Err(AdnlError::Transfer(e)),
            };
            let inner = match Message::read_from(body.as_slice(), 0) {
                Some((inner, _)) => inner,
                None => return Err(AdnlError::Node(AdnlNodeError::InvalidPacket)),
            };
            let ghost mid = *self;
            let r = self.dispatch(local_id, peer_id, inner);
            proof {
                mid.lemma_dispatched_by_setup(
                    old(self),
                    mid@,
                    self@,
                    r,
                    local_id@,
                    peer_id@,
                    inner@,
                );
            }
            return r;
        }
        self.dispatch(local_id, peer_id, message)
    }

    /// Nodes with the same setup dispatch a message alike.
    proof fn lemma_dispatched_by_setup(
        &self,
        other: &Self,
        before: NodeView,
        after: NodeView,
        r: Result<MessageEvent, AdnlError>,
        local_id: Seq<u8>,
        peer_id: Seq<u8>,
        message: MessageView,
    )
        requires
            self.same_setup(other),
            self.dispatched(before, after, r, local_id, peer_id, message),
        ensures
            other.dispatched(before, after, r, local_id, peer_id, message),
    {
    }

    /// What is due once the subscribers have seen a custom message: an
    /// error where none took it.
    pub fn custom_result(handled: bool) -> (r: Result<(), AdnlError>)
        ensures
            r == if handled {
                Ok::<(), AdnlError>(())
            } else {
                Err(AdnlError::Node(AdnlNodeError::NoSubscribersForCustomMessage))
            },
    {
        if handled {
            Ok(())
        } else {
            Err(AdnlError::Node(AdnlNodeError::NoSubscribersForCustomMessage))
        }
    }

    /// Does what is due once the subscribers have seen a query: sends the
    /// answer where there is one, in the priority class of the query.
    pub fn answer_query(
        &mut self,
        now: u32,
        local_id: &AdnlNodeIdShort,
        peer_id: &AdnlNodeIdShort,
        query_id: [u8; 32],
        result: QueryProcessingResult,
        priority: bool,
    ) -> (r: Result<(), AdnlError>)
        requires
            old(self).wf(),
        ensures
            final(self).wf(),
            final(self).same_setup(old(self)),
            match result {
                QueryProcessingResult::Processed(Some(answer)) => old(self).sent_message(
                    old(self)@,
                    final(self)@,
                    r,
                    now,
                    local_id@,
                    peer_id@,
                    MessageView::Answer { query_id: query_id@, answer: answer@ },
                    priority,
                ),
                QueryProcessingResult::Processed(None) => r is Ok && final(self)@ == old(self)@,
                QueryProcessingResult::Rejected => r matches Err(e) && e == AdnlError::Node(
                    AdnlNodeError::NoSubscribersForQuery,
                ) && final(self)@ == old(self)@,
            },
    {
        match result {
            QueryProcessingResult::Processed(Some(answer)) => self.send_message(
                now,
                local_id,
                peer_id,
                &Message::Answer { query_id, answer },
                priority,
            ),
            QueryProcessingResult::Processed(None) => Ok(()),
            QueryProcessingResult::Rejected => Err(
                AdnlError::Node(AdnlNodeError::NoSubscribersForQuery),
            ),
        }
    }

    /// Whether `after` and `r` are what the contents of an envelope lead to:
    /// they must decode to a packet, which is validated; an accepted packet
    /// is handed out with its messages.
    pub open spec fn unwrapped(
        &self,
        before: NodeView,
        after: NodeView,
        r: Result<Option<ReceivedPacket>, AdnlError>,
        now: u32,
        body: Seq<u8>,
        local_id: Seq<u8>,
        channel_peer: Option<Seq<u8>>,
        priority: bool,
    ) -> bool {
        match packet_of(body) {
            None => r matches Err(e) && e == AdnlError::Node(AdnlNodeError::InvalidPacket)
                && after == before,
            Some(packet) => exists|checked: Result<Option<AdnlNodeIdShort>, AdnlError>|
                {
                    &&& #[trigger] self.checked_packet(
                        before,
                        after,
                        checked,
                        now,
                        body,
                        packet,
                        local_id,
                        channel_peer,
                        priority,
                    )
                    &&& match checked {
                        Err(e) => r matches Err(got) && got == e,
                        Ok(None) => r matches Ok(None),
                        Ok(Some(peer_id)) => r matches Ok(Some(received)) && received.local_id@
                            == local_id && received.peer_id@ == peer_id@ && received.priority
                            == priority && message_views(received.messages@) == packet.messages,
                    }
                },
        }
    }

    /// Whether `after` and `r` are what a received datagram leads to. A
    /// datagram that names a local key is unwrapped as a handshake. A
    /// datagram that names an incoming channel id is unwrapped by the
    /// channel; where the packet in it is accepted, the channel becomes
    /// ready and loses its deadline. Any other datagram is passed over.
    pub open spec fn received(
        &self,
        before: NodeView,
        after: NodeView,
        r: Result<Option<ReceivedPacket>, AdnlError>,
        now: u32,
        data: Seq<u8>,
    ) -> bool {
        match parse_handshake(self.spec_keys(), data, None) {
            Err(e) => r matches Err(got) && got == AdnlError::Handshake(e) && after == before,
            Ok(Some((local_id, body))) => self.unwrapped(
                before,
                after,
                r,
                now,
                body,
                local_id,
                None,
                false,
            ),
            Ok(None) => {
                let id = data.subrange(0, 32);
                if !before.receivers.contains_key(id) || !before.channels.contains_key(
                    before.receivers[id].peer_id,
                ) {
                    r matches Ok(None) && after == before
                } else {
                    let receiver = before.receivers[id];
                    let channel = before.channels[receiver.peer_id];
                    match channel_body(channel.in_secret, receiver.priority, data) {
                        Err(e) => r matches Err(got) && got == AdnlError::Channel(e) && after
                            == before,
                        Ok(body) => {
                            &&& self.unwrapped(
                                before,
                                NodeView { channels: before.channels, ..after },
                                r,
                                now,
                                body,
                                channel.local_id,
                                Some(channel.peer_id),
                                receiver.priority,
                            )
                            &&& after.channels == if r matches Ok(Some(_)) {
                                before.channels.insert(
                                    receiver.peer_id,
                                    ChannelView { ready: true, drop_timeout: 0, ..channel },
                                )
                            } else {
                                before.channels
                            }
                        },
                    }
                }
            },
        }
    }

    /// Nodes with the same setup unwrap the contents of an envelope alike.
    proof fn lemma_unwrapped_by_setup(
        &self,
        other: &Self,
        before: NodeView,
        after: NodeView,
        r: Result<Option<ReceivedPacket>, AdnlError>,
        now: u32,
        body: Seq<u8>,
        local_id: Seq<u8>,
        channel_peer: Option<Seq<u8>>,
        priority: bool,
    )
        requires
            self.same_setup(other),
            self.unwrapped(before, after, r, now, body, local_id, channel_peer, priority),
        ensures
            other.unwrapped(before, after, r, now, body, local_id, channel_peer, priority),
    {
        match packet_of(body) {
            None => {},
            Some(packet) => {
                let checked = choose|checked: Result<Option<AdnlNodeIdShort>, AdnlError>|
                    {
                        &&& #[trigger] self.checked_packet(
                            before,
                            after,
                            checked,
                            now,
                            body,
                            packet,
                            local_id,
                            channel_peer,
                            priority,
                        )
                        &&& match checked {
                            Err(e) => r matches Err(got) && got == e,
                            Ok(None) => r matches Ok(None),
                            Ok(Some(peer_id)) => r matches Ok(Some(received))
                                && received.local_id@ == local_id && received.peer_id@ == peer_id@
                                && received.priority == priority && message_views(
                                received.messages@,
                            ) == packet.messages,
                        }
                    };
                self.lemma_checked_by_setup(
                    other,
                    before,
                    after,
                    checked,
                    now,
                    body,
                    packet,
                    local_id,
                    channel_peer,
                    priority,
                );
            },
        }
    }

    /// Nodes with the same setup validate a packet alike.
    proof fn lemma_checked_by_setup(
        &self,
        other: &Self,
        before: NodeView,
        after: NodeView,
        r: Result<Option<AdnlNodeIdShort>, AdnlError>,
        now: u32,
        raw: Seq<u8>,
        packet: IncomingPacketView,
        local_id: Seq<u8>,
        channel_peer: Option<Seq<u8>>,
        priority: bool,
    )
        requires
            self.same_setup(other),
            self.checked_packet(
                before,
                after,
                r,
                now,
                raw,
                packet,
                local_id,
                channel_peer,
                priority,
            ),
        ensures
            other.checked_packet(
                before,
                after,
                r,
                now,
                raw,
                packet,
                local_id,
                channel_peer,
                priority,
            ),
    {
        match source_of(raw, packet, channel_peer, self.spec_options().packet_signature_required) {
            Err(e) => {},
            Ok(source) => {
                let key = (local_id, source.peer_id);
                let tolerance = self.spec_options().clock_tolerance_sec;
                if source.full_id is Some && packet.address is Some {
                    match announced_address(packet.address->0, now, tolerance) {
                        None => {},
                        Some(ip) => {
                            let filter_admits = choose|filter_admits: bool| #[trigger]
                                self.announced_packet(
                                    before,
                                    after,
                                    r,
                                    now,
                                    raw,
                                    packet,
                                    local_id,
                                    source.peer_id,
                                    source.full_id->0,
                                    ip,
                                    channel_peer is Some,
                                    priority,
                                    filter_admits,
                                );
                            if self.admits(local_id, source.peer_id, ip, filter_admits)
                                && !before.locals.contains(local_id) {
                            } else if r matches Ok(None) {
                                let noted = self.noted_peer(
                                    before,
                                    local_id,
                                    source.peer_id,
                                    ip,
                                    source.full_id->0,
                                    before.peers[key].channel_key,
                                    filter_admits,
                                );
                                self.lemma_judged_by_setup(
                                    other,
                                    noted,
                                    noted,
                                    r,
                                    now,
                                    raw,
                                    packet,
                                    local_id,
                                    source.peer_id,
                                    channel_peer is Some,
                                    false,
                                    priority,
                                );
                            } else {
                                self.lemma_judged_by_setup(
                                    other,
                                    self.noted_peer(
                                        before,
                                        local_id,
                                        source.peer_id,
                                        ip,
                                        source.full_id->0,
                                        after.peers[key].channel_key,
                                        filter_admits,
                                    ),
                                    after,
                                    r,
                                    now,
                                    raw,
                                    packet,
                                    local_id,
                                    source.peer_id,
                                    channel_peer is Some,
                                    false,
                                    priority,
                                );
                            }
                            assert(other.announced_packet(
                                before,
                                after,
                                r,
                                now,
                                raw,
                                packet,
                                local_id,
                                source.peer_id,
                                source.full_id->0,
                                ip,
                                channel_peer is Some,
                                priority,
                                filter_admits,
                            ));
                        },
                    }
                } else {
                    self.lemma_judged_by_setup(
                        other,
                        before,
                        after,
                        r,
                        now,
                        raw,
                        packet,
                        local_id,
                        source.peer_id,
                        channel_peer is Some,
                        source.full_id is None,
                        priority,
                    );
                }
            },
        }
    }

    /// Decodes and validates the contents of an envelope.
    fn unwrap_packet(
        &mut self,
        now: u32,
        data: Vec<u8>,
        local_id: AdnlNodeIdShort,
        channel_peer: Option<AdnlNodeIdShort>,
        priority: bool,
    ) -> (r: Result<Option<ReceivedPacket>, AdnlError>)
        requires
            old(self).wf(),
        ensures
            final(self).wf(),
            final(self).same_setup(old(self)),
            old(self).unwrapped(
                old(self)@,
                final(self)@,
                r,
                now,
                data@,
                local_id@,
                match channel_peer {
                    Some(id) => Some(id@),
                    None => None,
                },
                priority,
            ),
            final(self)@.channels == old(self)@.channels,
            r matches Ok(None) ==> final(self)@ == old(self)@,
    {
        let packet = match IncomingPacketContents::parse(data.as_slice()) {
            Some(packet) => packet,
            None => return Err(AdnlError::Node(AdnlNodeError::InvalidPacket)),
        };
        let checked = self.check_packet(
            now,
            data.as_slice(),
            &packet,
            &local_id,
            channel_peer,
            priority,
        );
        let r = match checked {
            Err(e) => Err(e),
            Ok(None) => Ok(None),
            Ok(Some(peer_id)) => Ok(
                Some(ReceivedPacket { local_id, peer_id, priority, messages: packet.messages }),
            ),
        };
        proof {
            assert(old(self).checked_packet(
                old(self)@,
                self@,
                checked,
                now,
                data@,
                packet@,
                local_id@,
                match channel_peer {
                    Some(id) => Some(id@),
                    None => None,
                },
                priority,
            ));
        }
        r
    }

    /// Handles a datagram that arrived: unwraps it, validates the packet in
    /// it, and hands out an accepted packet with its messages. For a
    /// datagram that is addressed to no local key and no channel, and for a
    /// packet that was delivered before, there is nothing to hand out.
    pub fn handle_received_data(&mut self, now: u32, data: Vec<u8>) -> (r: Result<
        Option<ReceivedPacket>,
        AdnlError,
    >)
        requires
            old(self).wf(),
        ensures
            final(self).wf(),
            final(self).same_setup(old(self)),
            old(self).received(old(self)@, final(self)@, r, now, data@),
            r matches Ok(None) ==> final(self)@ == old(self)@,
    {
        let mut data = data;
        match parse_handshake_packet(self.keystore.keys(), &mut data, None) {
            Err(e) => return Err(AdnlError::Handshake(e)),
            Ok(Some(local_id)) => return self.unwrap_packet(now, data, local_id, None, false),
            Ok(None) => {},
        }
        let id = match crate::tl::read_int256(data.as_slice(), 0) {
            Some(id) => id,
            None => return Ok(None),
        };
        let receiver = match self.channels_by_id.get(&id) {
            Some(receiver) => *receiver,
            None => return Ok(None),
        };
        let at = match self.channels_by_peers.position(&receiver.peer_id) {
            Some(at) => at,
            None => return Ok(None),
        };
        let channel = self.channels_by_peers.value_mut(at);
        match channel.decrypt(&mut data, receiver.priority) {
            Ok(()) => {},
            Err(e) => {
                proof {
                    assert(self@.channels =~= old(self)@.channels);
                    assert(self@ =~= old(self)@);
                }
                return Err(AdnlError::Channel(e));
            },
        }
        let local_id = *channel.local_id();
        let peer_id = *channel.peer_id();
        let ghost known = old(self)@.channels[receiver.peer_id@];
        proof {
            assert(self@.channels =~= old(self)@.channels);
            assert(self@ =~= old(self)@);
        }
        let ghost mid = *self;
        let r = self.unwrap_packet(now, data, local_id, Some(peer_id), receiver.priority);
        let ghost unwrapped = self@;
        proof {
            mid.lemma_unwrapped_by_setup(
                old(self),
                old(self)@,
                unwrapped,
                r,
                now,
                data@,
                local_id@,
                Some(peer_id@),
                receiver.priority,
            );
        }
        let accepted = match &r {
            Ok(Some(_)) => true,
            _ => false,
        };
        if accepted {
            if let Some(at) = self.channels_by_peers.position(&receiver.peer_id) {
                let channel = self.channels_by_peers.value_mut(at);
                channel.set_ready();
                channel.reset_drop_timeout();
            }
            proof {
                assert(self@.channels =~= old(self)@.channels.insert(
                    receiver.peer_id@,
                    ChannelView { ready: true, drop_timeout: 0, ..known },
                ));
            }
        }
        proof {
            assert(unwrapped =~= (NodeView { channels: old(self)@.channels, ..self@ }));
        }
        r
    }

    /// The seconds after which a channel whose peer let a query time out is
    /// given up: the longest query timeout, in whole seconds.
    pub open spec fn drop_delay(&self) -> u32 {
        if self.spec_options().query_max_timeout_ms / 1000 > u32::MAX {
            u32::MAX
        } else {
            (self.spec_options().query_max_timeout_ms / 1000) as u32
        }
    }

    /// Whether `after` and `r` are what starting a query with a given id
    /// leads to: the query message is sent in the priority class. Where that
    /// succeeds the query is registered as waiting; where it fails the
    /// registry is as it was.
    pub open spec fn started_query(
        &self,
        before: NodeView,
        after: NodeView,
        r: Result<(), AdnlError>,
        now: u32,
        local_id: Seq<u8>,
        peer_id: Seq<u8>,
        query_id: Seq<u8>,
        query: Seq<u8>,
    ) -> bool {
        &&& self.sent_message(
            before,
            NodeView { queries: before.queries, ..after },
            r,
            now,
            local_id,
            peer_id,
            MessageView::Query { query_id, query },
            true,
        )
        &&& after.queries == if r is Ok {
            before.queries.insert(query_id, QueryStateView::Sent)
        } else {
            before.queries
        }
    }

    /// Sends a query to a peer and registers it under the given id. A query
    /// that could not be sent is not registered.
    pub fn query_with_id(
        &mut self,
        now: u32,
        local_id: &AdnlNodeIdShort,
        peer_id: &AdnlNodeIdShort,
        query_id: [u8; 32],
        query: &[u8],
    ) -> (r: Result<(), AdnlError>)
        requires
            old(self).wf(),
        ensures
            final(self).wf(),
            final(self).same_setup(old(self)),
            old(self).started_query(
                old(self)@,
                final(self)@,
                r,
                now,
                local_id@,
                peer_id@,
                query_id@,
                query@,
            ),
    {
        let copy = crate::tl::copy_range(query, 0, query.len());
        assert(copy@ =~= query@);
        let r = self.send_message(
            now,
            local_id,
            peer_id,
            &Message::Query { query_id, query: copy },
            true,
        );
        let ghost sent = self@;
        assert(sent.queries == old(self)@.queries);
        if r.is_ok() {
            self.queries.add_query(query_id);
        }
        proof {
            assert(sent =~= (NodeView { queries: old(self)@.queries, ..self@ }));
        }
        r
    }

    /// Sends a query to a peer, registers it under a fresh random id, and
    /// returns the id. A query that could not be sent is not registered.
    pub fn query_raw(
        &mut self,
        now: u32,
        local_id: &AdnlNodeIdShort,
        peer_id: &AdnlNodeIdShort,
        query: &[u8],
    ) -> (r: Result<[u8; 32], AdnlError>)
        requires
            old(self).wf(),
        ensures
            final(self).wf(),
            final(self).same_setup(old(self)),
            exists|query_id: Seq<u8>|
                query_id.len() == 32 && #[trigger] old(self).started_query(
                    old(self)@,
                    final(self)@,
                    outcome_only(r),
                    now,
                    local_id@,
                    peer_id@,
                    query_id,
                    query@,
                ) && (r matches Ok(id) ==> id@ == query_id),
    {
        let query_id = crate::crypto::random_bytes();
        match self.query_with_id(now, local_id, peer_id, query_id, query) {
            Ok(()) => {
                assert(old(self).started_query(
                    old(self)@,
                    self@,
                    Ok(()),
                    now,
                    local_id@,
                    peer_id@,
                    query_id@,
                    query@,
                ));
                Ok(query_id)
            },
            Err(e) => {
                assert(old(self).started_query(
                    old(self)@,
                    self@,
                    Err(e),
                    now,
                    local_id@,
                    peer_id@,
                    query_id@,
                    query@,
                ));
                Err(e)
            },
        }
    }

    /// Sends a query that a prefix precedes.
    pub fn query_with_prefix(
        &mut self,
        now: u32,
        local_id: &AdnlNodeIdShort,
        peer_id: &AdnlNodeIdShort,
        prefix: &[u8],
        query: &[u8],
    ) -> (r: Result<[u8; 32], AdnlError>)
        requires
            old(self).wf(),
        ensures
            final(self).wf(),
            final(self).same_setup(old(self)),
            exists|query_id: Seq<u8>|
                query_id.len() == 32 && #[trigger] old(self).started_query(
                    old(self)@,
                    final(self)@,
                    outcome_only(r),
                    now,
                    local_id@,
                    peer_id@,
                    query_id,
                    prefix@ + query@,
                ) && (r matches Ok(id) ==> id@ == query_id),
    {
        let mut whole = crate::tl::copy_range(prefix, 0, prefix.len());
        whole.extend_from_slice(query);
        assert(whole@ =~= prefix@ + query@);
        self.query_raw(now, local_id, peer_id, whole.as_slice())
    }

    /// Gives a query up, as its timeout does. Tells whether the query was
    /// still waiting.
    pub fn drop_query(&mut self, query_id: &[u8; 32]) -> (dropped: bool)
        requires
            old(self).wf(),
        ensures
            final(self).wf(),
            final(self).same_setup(old(self)),
            dropped == update_applies(old(self)@.queries, query_id@),
            final(self)@ == (NodeView {
                queries: updated(old(self)@.queries, query_id@, None),
                ..old(self)@
            }),
    {
        let dropped = self.queries.update_query(query_id, None);
        proof {
            assert(self@ =~= (NodeView {
                queries: updated(old(self)@.queries, query_id@, None),
                ..old(self)@
            }));
        }
        dropped
    }

    /// Forgets a query, whatever its state: for a waiter that gives up
    /// before the query is settled.
    pub fn remove_query(&mut self, query_id: &[u8; 32])
        requires
            old(self).wf(),
        ensures
            final(self).wf(),
            final(self).same_setup(old(self)),
            final(self)@ == (NodeView {
                queries: old(self)@.queries.remove(query_id@),
                ..old(self)@
            }),
    {
        self.queries.remove_query(query_id);
        proof {
            assert(self@ =~= (NodeView {
                queries: old(self)@.queries.remove(query_id@),
                ..old(self)@
            }));
        }
    }

    /// The node after the channel with a peer got a deadline, unless it had
    /// one.
    pub open spec fn with_deadline(&self, before: NodeView, peer_id: Seq<u8>, now: u32) -> NodeView {
        let channel = before.channels[peer_id];
        NodeView {
            channels: before.channels.insert(
                peer_id,
                ChannelView {
                    drop_timeout: if channel.drop_timeout != 0 {
                        channel.drop_timeout
                    } else if now + self.drop_delay() > u32::MAX {
                        u32::MAX
                    } else {
                        (now + self.drop_delay()) as u32
                    },
                    ..channel
                },
            ),
            ..before
        }
    }

    /// Whether `after` and `r` are what asking for the outcome of a query
    /// leads to. A settled query leaves the registry. An answer is handed
    /// out. After a drop the channel with the peer, if there is one, gets a
    /// deadline unless it has one; where it had one that has passed, the
    /// peer is reset.
    pub open spec fn finished_query(
        &self,
        before: NodeView,
        after: NodeView,
        r: Result<QueryReply, AdnlError>,
        now: u32,
        local_id: Seq<u8>,
        peer_id: Seq<u8>,
        query_id: Seq<u8>,
    ) -> bool {
        if !before.queries.contains_key(query_id) || before.queries[query_id] is Sent {
            r matches Ok(QueryReply::Pending) && after == before
        } else {
            let taken = NodeView { queries: before.queries.remove(query_id), ..before };
            match before.queries[query_id] {
                QueryStateView::Answered(answer) => r matches Ok(QueryReply::Answer(bytes))
                    && bytes@ == answer && after == taken,
                _ => if !taken.channels.contains_key(peer_id) {
                    r matches Ok(QueryReply::Dropped) && after == taken
                } else {
                    let was = taken.channels[peer_id].drop_timeout;
                    let marked = self.with_deadline(taken, peer_id, now);
                    if was > 0 && was < now {
                        exists|reset: Result<(), AdnlError>|
                            {
                                &&& #[trigger] self.was_reset(
                                    marked,
                                    after,
                                    reset,
                                    local_id,
                                    peer_id,
                                )
                                &&& match reset {
                                    Ok(()) => r matches Ok(QueryReply::Dropped),
                                    Err(e) => r matches Err(got) && got == e,
                                }
                            }
                    } else {
                        r matches Ok(QueryReply::Dropped) && after == marked
                    }
                },
            }
        }
    }

    /// Asks for the outcome of a query.
    pub fn query_result(
        &mut self,
        now: u32,
        local_id: &AdnlNodeIdShort,
        peer_id: &AdnlNodeIdShort,
        query_id: &[u8; 32],
    ) -> (r: Result<QueryReply, AdnlError>)
        requires
            old(self).wf(),
        ensures
            final(self).wf(),
            final(self).same_setup(old(self)),
            old(self).finished_query(
                old(self)@,
                final(self)@,
                r,
                now,
                local_id@,
                peer_id@,
                query_id@,
            ),
    {
        let outcome = self.queries.take_outcome(query_id);
        let ghost taken = NodeView {
            queries: old(self)@.queries.remove(query_id@),
            ..old(self)@
        };
        match outcome {
            None => {
                proof {
                    assert(self@ =~= old(self)@);
                }
                Ok(QueryReply::Pending)
            },
            Some(QueryState::Answered(answer)) => {
                proof {
                    assert(self@ =~= taken);
                }
                Ok(QueryReply::Answer(answer))
            },
            Some(_) => {
                proof {
                    assert(self@ =~= taken);
                }
                let at = match self.channels_by_peers.position(peer_id.as_slice()) {
                    Some(at) => at,
                    None => return Ok(QueryReply::Dropped),
                };
                let millis = self.options.query_max_timeout_ms / 1000;
                let delay: u32 = if millis > u32::MAX as u64 {
                    u32::MAX
                } else {
                    millis as u32
                };
                let was = self.channels_by_peers.value_mut(at).update_drop_timeout(now, delay);
                let ghost marked = old(self).with_deadline(taken, peer_id@, now);
                proof {
                    assert(self@.channels =~= marked.channels);
                    assert(self@ =~= marked);
                }
                if was > 0 && was < now {
                    let reset = self.reset_peer(local_id, peer_id);
                    proof {
                        assert(old(self).was_reset(marked, self@, reset, local_id@, peer_id@));
                    }
                    match reset {
                        Ok(()) => Ok(QueryReply::Dropped),
                        Err(e) => Err(e),
                    }
                } else {
                    Ok(QueryReply::Dropped)
                }
            },
        }
    }

    /// Counts the node's tables. The count of peers is the sum over the
    /// local ids, or the largest number where the sum is larger.
    pub fn metrics(&self) -> (metrics: AdnlNodeMetrics)
        requires
            self.wf(),
        ensures
            metrics.channels_by_id_len == self@.receivers.dom().len(),
            metrics.channels_by_peers_len == self@.channels.dom().len(),
            metrics.incoming_transfers_len == self@.transfers.dom().len(),
            metrics.query_count == self@.queries.dom().len(),
            metrics.peer_count == if self@.peers.dom().len() > usize::MAX {
                usize::MAX as nat
            } else {
                self@.peers.dom().len()
            },
    {
        proof {
            self.lemma_peer_count();
        }
        let count = self.peers.len();
        let mut peer_count: usize = 0;
        let mut i: usize = 0;
        while i < count
            invariant
                i <= count,
                self.wf(),
                count == self.peers.slots(),
                peer_count == if Self::peers_until(self.peers, i as int) > usize::MAX {
                    usize::MAX as nat
                } else {
                    Self::peers_until(self.peers, i as int)
                },
            decreases count - i,
        {
            proof {
                self.peers.lemma_slots();
            }
            let peers = self.peers.value_at(i);
            assert(self.peers@.contains_key(self.peers.slot_key(i as int)));
            assert(peers.wf());
            let n = peers.len();
            peer_count = if n > usize::MAX - peer_count {
                usize::MAX
            } else {
                peer_count + n
            };
            i += 1;
        }
        proof {
            assert(self@.receivers.dom() =~= self.channels_by_id@.dom());
            assert(self@.channels.dom() =~= self.channels_by_peers@.dom());
            assert(self@.transfers.dom() =~= self.incoming_transfers@.dom());
        }
        AdnlNodeMetrics {
            peer_count,
            channels_by_id_len: self.channels_by_id.len(),
            channels_by_peers_len: self.channels_by_peers.len(),
            incoming_transfers_len: self.incoming_transfers.len(),
            query_count: self.queries.len(),
        }
    }

    /// The number of peers of the local ids in the slots below `until`.
    pub closed spec fn peers_until(peers: Table<Table<AdnlPeer>>, until: int) -> nat
        decreases until,
    {
        if until <= 0 {
            0
        } else {
            Self::peers_until(peers, until - 1) + peers.slot_value(until - 1).slots()
        }
    }

    /// The number of peers, over all local ids.
    pub closed spec fn peer_count(&self) -> nat {
        Self::peers_until(self.peers, self.peers.slots() as int)
    }

    /// The pairs of a local id in one of the slots below `until` and a peer
    /// kept for it.
    spec fn pairs_until(peers: Table<Table<AdnlPeer>>, until: int) -> Set<(Seq<u8>, Seq<u8>)> {
        Set::new(
            |k: (Seq<u8>, Seq<u8>)|
                exists|i: int|
                    0 <= i < until && #[trigger] peers.slot_key(i) == k.0 && peers.slot_value(
                        i,
                    )@.contains_key(k.1),
        )
    }

    /// There are as many such pairs as the tables in those slots hold peers.
    proof fn lemma_pairs_count(peers: Table<Table<AdnlPeer>>, until: int)
        requires
            peers.wf(),
            forall|l: Seq<u8>| #[trigger] peers@.contains_key(l) ==> peers@[l].wf(),
            0 <= until <= peers.slots(),
        ensures
            Self::pairs_until(peers, until).finite(),
            Self::pairs_until(peers, until).len() == Self::peers_until(peers, until),
        decreases until,
    {
        peers.lemma_slots();
        if until <= 0 {
            assert(Self::pairs_until(peers, until) =~= Set::empty());
        } else {
            Self::lemma_pairs_count(peers, until - 1);
            let local = peers.slot_key(until - 1);
            let inner = peers.slot_value(until - 1);
            assert(peers@.contains_key(local) && peers@[local] == inner);
            inner.lemma_slots();
            let known = inner@.dom();
            let pair = |p: Seq<u8>| (local, p);
            let block = known.map(pair);
            assert(vstd::relations::injective_on(pair, known));
            vstd::set_lib::lemma_map_size(known, block, pair);
            let before = Self::pairs_until(peers, until - 1);
            let all = Self::pairs_until(peers, until);
            assert(before.disjoint(block)) by {
                assert forall|k: (Seq<u8>, Seq<u8>)| !(before.contains(k) && block.contains(k)) by {
                    if before.contains(k) && block.contains(k) {
                        let i = choose|i: int|
                            0 <= i < until - 1 && #[trigger] peers.slot_key(i) == k.0
                                && peers.slot_value(i)@.contains_key(k.1);
                        let p = choose|p: Seq<u8>| known.contains(p) && k == pair(p);
                        assert(peers.slot_key(i) == peers.slot_key(until - 1));
                    }
                }
            }
            assert(all =~= before + block) by {
                assert forall|k: (Seq<u8>, Seq<u8>)| all.contains(k) == (before + block).contains(
                    k,
                ) by {
                    if all.contains(k) {
                        let i = choose|i: int|
                            0 <= i < until && #[trigger] peers.slot_key(i) == k.0
                                && peers.slot_value(i)@.contains_key(k.1);
                        if i == until - 1 {
                            assert(known.contains(k.1) && k == pair(k.1));
                        } else {
                            assert(before.contains(k));
                        }
                    }
                    if before.contains(k) {
                        let i = choose|i: int|
                            0 <= i < until - 1 && #[trigger] peers.slot_key(i) == k.0
                                && peers.slot_value(i)@.contains_key(k.1);
                        assert(peers.slot_key(i) == k.0);
                    }
                    if block.contains(k) {
                        let p = choose|p: Seq<u8>| known.contains(p) && k == pair(p);
                        assert(peers.slot_key(until - 1) == k.0);
                    }
                }
            }
            vstd::set_lib::lemma_set_disjoint_lens(before, block);
        }
    }

    /// The count of peers is the number of pairs of a local id and a peer
    /// that the node keeps.
    pub proof fn lemma_peer_count(&self)
        requires
            self.wf(),
        ensures
            self@.peers.dom().finite(),
            self.peer_count() == self@.peers.dom().len(),
    {
        self.peers.lemma_slots();
        Self::lemma_pairs_count(self.peers, self.peers.slots() as int);
        let all = Self::pairs_until(self.peers, self.peers.slots() as int);
        assert(self@.peers.dom() =~= all) by {
            assert forall|k: (Seq<u8>, Seq<u8>)| self@.peers.dom().contains(k) == all.contains(
                k,
            ) by {
                if self@.peers.dom().contains(k) {
                    let i = choose|i: int|
                        0 <= i < self.peers.slots() && self.peers.slot_key(i) == k.0;
                    assert(self.peers.slot_key(i) == k.0);
                }
                if all.contains(k) {
                    let i = choose|i: int|
                        0 <= i < self.peers.slots() && #[trigger] self.peers.slot_key(i) == k.0
                            && self.peers.slot_value(i)@.contains_key(k.1);
                    assert(self.peers@.contains_key(self.peers.slot_key(i)));
                }
            }
        }
    }


    /// Whether a transfer has been idle for the transfer timeout or longer.
    pub open spec fn transfer_expired(&self, transfer: TransferView, now: u32) -> bool {
        now - transfer.last_update >= self.spec_options().transfer_timeout_sec
    }

    /// Gives up the transfers that have been idle for the transfer timeout
    /// or longer. Returns how many were given up.
    pub fn expire_transfers(&mut self, now: u32) -> (expired: usize)
        requires
            old(self).wf(),
        ensures
            final(self).wf(),
            final(self).same_setup(old(self)),
            final(self)@ == (NodeView {
                transfers: Map::new(
                    |id: Seq<u8>|
                        old(self)@.transfers.contains_key(id) && !old(self).transfer_expired(
                            old(self)@.transfers[id],
                            now,
                        ),
                    |id: Seq<u8>| old(self)@.transfers[id],
                ),
                ..old(self)@
            }),
            expired == old(self)@.transfers.dom().len() - final(self)@.transfers.dom().len(),
    {
        let timeout = self.options.transfer_timeout_sec;
        let count = self.incoming_transfers.len();
        let mut idle: Vec<[u8; 32]> = Vec::new();
        let mut i: usize = 0;
        proof {
            self.incoming_transfers.lemma_slots();
        }
        while i < count
            invariant
                i <= count,
                self.wf(),
                count == self.incoming_transfers.slots(),
                timeout == self.spec_options().transfer_timeout_sec,
                forall|j: int|
                    0 <= j < i && self.transfer_expired(
                        self.incoming_transfers.slot_value(j)@,
                        now,
                    ) ==> exists|k: int|
                        0 <= k < idle@.len() && #[trigger] idle@[k]@
                            == self.incoming_transfers.slot_key(j),
                forall|k: int|
                    0 <= k < idle@.len() ==> self.incoming_transfers@.contains_key(
                        #[trigger] idle@[k]@,
                    ) && self.transfer_expired(self.incoming_transfers@[idle@[k]@]@, now),
            decreases count - i,
        {
            proof {
                self.incoming_transfers.lemma_slots();
            }
            if self.incoming_transfers.value_at(i).is_expired(now, timeout) {
                let ghost before = idle@;
                idle.push(*self.incoming_transfers.key_at(i));
                proof {
                    assert forall|j: int|
                        0 <= j < i + 1 && self.transfer_expired(
                            self.incoming_transfers.slot_value(j)@,
                            now,
                        ) implies exists|k: int|
                        0 <= k < idle@.len() && #[trigger] idle@[k]@
                            == self.incoming_transfers.slot_key(j) by {
                        if j < i {
                            let k = choose|k: int|
                                0 <= k < before.len() && #[trigger] before[k]@
                                    == self.incoming_transfers.slot_key(j);
                            assert(idle@[k]@ == self.incoming_transfers.slot_key(j));
                        } else {
                            assert(idle@[idle@.len() - 1]@ == self.incoming_transfers.slot_key(j));
                        }
                    }
                    assert(self.incoming_transfers@.contains_key(
                        self.incoming_transfers.slot_key(i as int),
                    ));
                }
            }
            i += 1;
        }
        proof {
            assert forall|id: Seq<u8>|
                self.incoming_transfers@.contains_key(id) && self.transfer_expired(
                    self.incoming_transfers@[id]@,
                    now,
                ) implies exists|k: int| 0 <= k < idle@.len() && #[trigger] idle@[k]@ == id by {
                let j = choose|j: int|
                    0 <= j < self.incoming_transfers.slots() && self.incoming_transfers.slot_key(j)
                        == id;
                assert(self.incoming_transfers.slot_key(j) == id);
            }
        }
        let mut m: usize = 0;
        while m < idle.len()
            invariant
                m <= idle@.len(),
                self.wf(),
                self.same_setup(old(self)),
                self@.locals == old(self)@.locals,
                self@.peers == old(self)@.peers,
                self@.channels == old(self)@.channels,
                self@.receivers == old(self)@.receivers,
                self@.queries == old(self)@.queries,
                self@.queue == old(self)@.queue,
                forall|id: Seq<u8>|
                    self@.transfers.contains_key(id) <==> old(self)@.transfers.contains_key(id)
                        && !exists|k: int| 0 <= k < m && #[trigger] idle@[k]@ == id,
                forall|id: Seq<u8>|
                    self@.transfers.contains_key(id) ==> self@.transfers[id] == old(
                        self,
                    )@.transfers[id],
            decreases idle@.len() - m,
        {
            let ghost before = self@.transfers;
            let _ = self.incoming_transfers.remove(&idle[m]);
            proof {
                assert(self@.transfers =~= before.remove(idle@[m as int]@));
                assert(self@.locals =~= old(self)@.locals);
            }
            m += 1;
        }
        proof {
            let kept = Map::new(
                |id: Seq<u8>|
                    old(self)@.transfers.contains_key(id) && !old(self).transfer_expired(
                        old(self)@.transfers[id],
                        now,
                    ),
                |id: Seq<u8>| old(self)@.transfers[id],
            );
            assert(self@.transfers =~= kept);
            assert(self@ =~= (NodeView { transfers: kept, ..old(self)@ }));
            assert(self@.transfers.dom() =~= self.incoming_transfers@.dom());
            assert(old(self)@.transfers.dom() =~= old(self).incoming_transfers@.dom());
            assert(self@.transfers.dom().subset_of(old(self)@.transfers.dom()));
            vstd::set_lib::lemma_len_subset(
                self@.transfers.dom(),
                old(self)@.transfers.dom(),
            );
        }
        count - self.incoming_transfers.len()
    }

    /// Adds the identity of a secret key under a tag, and keeps peers for it
    /// from then on.
    pub fn add_key(&mut self, key: [u8; 32], tag: usize) -> (r: Result<
        AdnlNodeIdShort,
        AdnlKeystoreError,
    >)
        requires
            old(self).wf(),
        ensures
            final(self).wf(),
            final(self).spec_options() == old(self).spec_options(),
            final(self).spec_ip_address() == old(self).spec_ip_address(),
            final(self).spec_start_time() == old(self).spec_start_time(),
            final(self).spec_filter() == old(self).spec_filter(),
            added_key(
                old(self).spec_keys(),
                old(self).spec_tags(),
                final(self).spec_keys(),
                final(self).spec_tags(),
                r,
                key@,
                tag,
            ),
            final(self)@ == match r {
                Ok(id) => NodeView { locals: old(self)@.locals.insert(id@), ..old(self)@ },
                Err(_) => old(self)@,
            },
    {
        let result = match self.keystore.add_key(key, tag) {
            Ok(id) => id,
            Err(e) => return Err(e),
        };
        if !self.peers.contains_key(result.as_slice()) {
            let _ = self.peers.insert(result.0, Table::new());
        }
        proof {
            assert(self@.locals =~= old(self)@.locals.insert(result@));
            assert(self@.peers =~= old(self)@.peers);
            assert(self@ =~= (NodeView {
                locals: old(self)@.locals.insert(result@),
                ..old(self)@
            }));
        }
        Ok(result)
    }

    /// Removes a local key and the tag given for it, and forgets the peers
    /// kept for it.
    pub fn delete_key(&mut self, key: &AdnlNodeIdShort, tag: usize) -> (r: Result<
        bool,
        AdnlKeystoreError,
    >)
        requires
            old(self).wf(),
        ensures
            final(self).wf(),
            final(self).spec_options() == old(self).spec_options(),
            final(self).spec_ip_address() == old(self).spec_ip_address(),
            final(self).spec_start_time() == old(self).spec_start_time(),
            final(self).spec_filter() == old(self).spec_filter(),
            deleted_key(
                old(self).spec_keys(),
                old(self).spec_tags(),
                final(self).spec_keys(),
                final(self).spec_tags(),
                r,
                key@,
                tag,
            ),
            final(self)@ == (NodeView {
                locals: old(self)@.locals.remove(key@),
                peers: Map::new(
                    |k: (Seq<u8>, Seq<u8>)| old(self)@.peers.contains_key(k) && k.0 != key@,
                    |k: (Seq<u8>, Seq<u8>)| old(self)@.peers[k],
                ),
                ..old(self)@
            }),
    {
        let _ = self.peers.remove(key.as_slice());
        proof {
            let kept = Map::new(
                |k: (Seq<u8>, Seq<u8>)| old(self)@.peers.contains_key(k) && k.0 != key@,
                |k: (Seq<u8>, Seq<u8>)| old(self)@.peers[k],
            );
            assert(self@.locals =~= old(self)@.locals.remove(key@));
            assert(self@.peers =~= kept);
            assert(self@ =~= (NodeView {
                locals: old(self)@.locals.remove(key@),
                peers: kept,
                ..old(self)@
            }));
        }
        self.keystore.delete_key(key, tag)
    }
}

} // verus!
