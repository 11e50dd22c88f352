//! What a node keeps for each remote peer: its address, its key, the
//! ephemeral channel key, and the packet state of both directions.

use crate::keys::KeyPair;
use crate::history::{HistoryView, PacketsHistory};
use crate::node_id::AdnlNodeIdFull;
use crate::packet::AdnlAddressUdp;
use vstd::prelude::*;

verus! {

/// The packet state of one direction as plain values.
pub struct PeerStateView {
    pub reinit_date: u32,
    pub ordinary: HistoryView,
    pub priority: HistoryView,
    pub checked: bool,
}

impl PeerStateView {
    /// The history of a priority class.
    pub open spec fn history(self, priority: bool) -> HistoryView {
        if priority {
            self.priority
        } else {
            self.ordinary
        }
    }

    /// The state with the history of one priority class replaced.
    pub open spec fn with_history(self, priority: bool, history: HistoryView) -> PeerStateView {
        if priority {
            PeerStateView { priority: history, ..self }
        } else {
            PeerStateView { ordinary: history, ..self }
        }
    }

    /// The state with both histories emptied.
    pub open spec fn cleared(self) -> PeerStateView {
        PeerStateView { ordinary: HistoryView::empty(), priority: HistoryView::empty(), ..self }
    }
}

/// The packet state of one direction: a reinit date and a history for each
/// priority class.
#[derive(Debug, Copy, Clone)]
pub struct AdnlPeerState {
    reinit_date: u32,
    ordinary_history: PacketsHistory,
    priority_history: PacketsHistory,
}

impl View for AdnlPeerState {
    type V = PeerStateView;

    closed spec fn view(&self) -> PeerStateView {
        PeerStateView {
            reinit_date: self.reinit_date,
            ordinary: self.ordinary_history@,
            priority: self.priority_history@,
            checked: self.ordinary_history.is_checked(),
        }
    }
}

impl AdnlPeerState {
    /// Both histories are checked, or neither is.
    pub closed spec fn wf(&self) -> bool {
        self.ordinary_history.is_checked() == self.priority_history.is_checked()
    }

    /// The state of the receiving direction: the local reinit date and empty
    /// histories, checked against the window where `checked` is set.
    pub fn for_receive_with_reinit_date(reinit_date: u32, checked: bool) -> (state: Self)
        ensures
            state.wf(),
            state@ == (PeerStateView {
                reinit_date,
                ordinary: HistoryView::empty(),
                priority: HistoryView::empty(),
                checked,
            }),
    {
        Self {
            reinit_date,
            ordinary_history: PacketsHistory::new(checked),
            priority_history: PacketsHistory::new(checked),
        }
    }

    /// The state of the sending direction: no reinit date known, nothing sent.
    pub fn for_send() -> (state: Self)
        ensures
            state.wf(),
            state@ == (PeerStateView {
                reinit_date: 0,
                ordinary: HistoryView::empty(),
                priority: HistoryView::empty(),
                checked: false,
            }),
    {
        Self {
            reinit_date: 0,
            ordinary_history: PacketsHistory::new(false),
            priority_history: PacketsHistory::new(false),
        }
    }

    pub fn reinit_date(&self) -> (date: u32)
        ensures
            date == self@.reinit_date,
    {
        self.reinit_date
    }

    pub fn set_reinit_date(&mut self, reinit_date: u32)
        requires
            old(self).wf(),
        ensures
            final(self).wf(),
            final(self)@ == (PeerStateView { reinit_date, ..old(self)@ }),
    {
        self.reinit_date = reinit_date;
    }

    /// The highest sequence number of a priority class.
    pub fn seqno(&self, priority: bool) -> (max: u64)
        ensures
            max == self@.history(priority).max,
    {
        if priority {
            self.priority_history.seqno()
        } else {
            self.ordinary_history.seqno()
        }
    }

    /// Takes the next sequence number of a priority class. The other class
    /// is untouched.
    pub fn bump_seqno(&mut self, priority: bool) -> (seqno: u64)
        requires
            old(self).wf(),
            old(self)@.history(priority).max < u64::MAX,
        ensures
            final(self).wf(),
            seqno == old(self)@.history(priority).max + 1,
            final(self)@ == old(self)@.with_history(
                priority,
                old(self)@.history(priority).deliver(seqno),
            ),
    {
        if priority {
            self.priority_history.bump_seqno()
        } else {
            self.ordinary_history.bump_seqno()
        }
    }

    /// Offers a received sequence number to the history of a priority class.
    pub fn deliver_packet(&mut self, seqno: u64, priority: bool) -> (delivered: bool)
        requires
            old(self).wf(),
        ensures
            final(self).wf(),
            delivered == (!old(self)@.checked || old(self)@.history(priority).accepts(seqno)),
            final(self)@ == old(self)@.with_history(
                priority,
                old(self)@.history(priority).deliver(seqno),
            ),
    {
        if priority {
            self.priority_history.deliver_packet(seqno)
        } else {
            self.ordinary_history.deliver_packet(seqno)
        }
    }

    /// Empties both histories.
    pub fn reset_history(&mut self)
        requires
            old(self).wf(),
        ensures
            final(self).wf(),
            final(self)@ == old(self)@.cleared(),
    {
        self.ordinary_history.reset();
        self.priority_history.reset();
    }
}

/// A peer as plain values.
pub struct PeerView {
    pub id: Seq<u8>,
    pub ip_address: AdnlAddressUdp,
    /// The ephemeral key pair that channels with the peer are made from.
    pub channel_key: KeyPair,
    pub receiver: PeerStateView,
    pub sender: PeerStateView,
}

impl PeerView {
    /// Whether a reinit date announced by the peer is acceptable: it is not
    /// older than the one known.
    pub open spec fn reinit_accepted(self, reinit_date: u32) -> bool {
        reinit_date >= self.sender.reinit_date
    }

    /// The peer after it announced a reinit date. A date that is not newer
    /// than the one known changes nothing. A newer date is taken over, and
    /// the histories of both directions are emptied.
    pub open spec fn reinit(self, reinit_date: u32) -> PeerView {
        if reinit_date <= self.sender.reinit_date {
            self
        } else {
            PeerView {
                sender: (PeerStateView { reinit_date, ..self.sender }).cleared(),
                receiver: self.receiver.cleared(),
                ..self
            }
        }
    }
}

/// The reinit date known of a peer never goes back, and the local one is
/// never touched, whatever date the peer announces.
pub proof fn lemma_reinit_dates_never_go_back(peer: PeerView, reinit_date: u32)
    ensures
        peer.reinit(reinit_date).sender.reinit_date >= peer.sender.reinit_date,
        peer.reinit(reinit_date).receiver.reinit_date == peer.receiver.reinit_date,
        peer.reinit_accepted(reinit_date) ==> peer.reinit(reinit_date).sender.reinit_date
            == reinit_date,
{
}

/// A date newer than the one known, be that none, empties the histories of
/// both directions and both priority classes: numbering starts anew.
pub proof fn lemma_newer_date_empties_histories(peer: PeerView, reinit_date: u32, priority: bool)
    requires
        reinit_date > peer.sender.reinit_date,
    ensures
        peer.reinit_accepted(reinit_date),
        peer.reinit(reinit_date).sender.reinit_date == reinit_date,
        peer.reinit(reinit_date).sender.history(priority) == HistoryView::empty(),
        peer.reinit(reinit_date).receiver.history(priority) == HistoryView::empty(),
        peer.reinit(reinit_date).sender.history(priority).max == 0,
{
}

/// The state kept for one remote peer.
#[derive(Debug, Copy, Clone)]
pub struct AdnlPeer {
    id: AdnlNodeIdFull,
    ip_address: AdnlAddressUdp,
    channel_key: KeyPair,
    receiver_state: AdnlPeerState,
    sender_state: AdnlPeerState,
}

impl View for AdnlPeer {
    type V = PeerView;

    closed spec fn view(&self) -> PeerView {
        PeerView {
            id: self.id@,
            ip_address: self.ip_address,
            channel_key: self.channel_key,
            receiver: self.receiver_state@,
            sender: self.sender_state@,
        }
    }
}

impl AdnlPeer {
    /// The public half of the channel key belongs to its secret half.
    pub closed spec fn wf(&self) -> bool {
        &&& self.channel_key.wf()
        &&& self.receiver_state.wf()
        &&& self.sender_state.wf()
    }

    /// A new peer with the given channel key. The receiving direction
    /// starts at the local reinit date, the sending direction knows none.
    pub fn with_channel_key(
        reinit_date: u32,
        ip_address: AdnlAddressUdp,
        id: AdnlNodeIdFull,
        channel_key: KeyPair,
        checked: bool,
    ) -> (peer: Self)
        requires
            channel_key.wf(),
        ensures
            peer.wf(),
            peer@ == (PeerView {
                id: id@,
                ip_address,
                channel_key,
                receiver: PeerStateView {
                    reinit_date,
                    ordinary: HistoryView::empty(),
                    priority: HistoryView::empty(),
                    checked,
                },
                sender: PeerStateView {
                    reinit_date: 0,
                    ordinary: HistoryView::empty(),
                    priority: HistoryView::empty(),
                    checked: false,
                },
            }),
    {
        Self {
            id,
            ip_address,
            channel_key,
            receiver_state: AdnlPeerState::for_receive_with_reinit_date(reinit_date, checked),
            sender_state: AdnlPeerState::for_send(),
        }
    }

    /// A new peer with a fresh random channel key.
    pub fn new(reinit_date: u32, ip_address: AdnlAddressUdp, id: AdnlNodeIdFull, checked: bool) -> (peer:
        Self)
        ensures
            peer.wf(),
            peer@.channel_key.wf(),
            peer@.id == id@,
            peer@.ip_address == ip_address,
            peer@.receiver == (PeerStateView {
                reinit_date,
                ordinary: HistoryView::empty(),
                priority: HistoryView::empty(),
                checked,
            }),
            peer@.sender == (PeerStateView {
                reinit_date: 0,
                ordinary: HistoryView::empty(),
                priority: HistoryView::empty(),
                checked: false,
            }),
    {
        Self::with_channel_key(reinit_date, ip_address, id, KeyPair::generate(), checked)
    }

    pub fn id(&self) -> (id: &AdnlNodeIdFull)
        ensures
            id@ == self@.id,
    {
        &self.id
    }

    pub fn ip_address(&self) -> (ip: AdnlAddressUdp)
        ensures
            ip == self@.ip_address,
    {
        self.ip_address
    }

    pub fn set_ip_address(&mut self, ip_address: AdnlAddressUdp)
        requires
            old(self).wf(),
        ensures
            final(self).wf(),
            final(self)@ == (PeerView { ip_address, ..old(self)@ }),
    {
        self.ip_address = ip_address;
    }

    /// The channel key.
    pub open spec fn channel_key_spec(&self) -> KeyPair {
        self@.channel_key
    }

    /// The channel key of a peer in order is a pair in order.
    pub proof fn lemma_channel_key(&self)
        requires
            self.wf(),
        ensures
            self@.channel_key.wf(),
    {
    }

    /// The ephemeral key pair that channels with this peer are made from.
    pub fn channel_key(&self) -> (key: &KeyPair)
        requires
            self.wf(),
        ensures
            *key == self@.channel_key,
            key.wf(),
    {
        &self.channel_key
    }

    pub fn receiver_state(&self) -> (state: &AdnlPeerState)
        requires
            self.wf(),
        ensures
            state@ == self@.receiver,
            state.wf(),
    {
        &self.receiver_state
    }

    pub fn sender_state(&self) -> (state: &AdnlPeerState)
        requires
            self.wf(),
        ensures
            state@ == self@.sender,
            state.wf(),
    {
        &self.sender_state
    }

    /// Takes the next sequence number to send in a priority class.
    pub fn bump_seqno(&mut self, priority: bool) -> (seqno: u64)
        requires
            old(self).wf(),
            old(self)@.sender.history(priority).max < u64::MAX,
        ensures
            final(self).wf(),
            seqno == old(self)@.sender.history(priority).max + 1,
            final(self)@ == (PeerView {
                sender: old(self)@.sender.with_history(
                    priority,
                    old(self)@.sender.history(priority).deliver(seqno),
                ),
                ..old(self)@
            }),
    {
        self.sender_state.bump_seqno(priority)
    }

    /// Offers the sequence number of a received packet.
    pub fn deliver_packet(&mut self, seqno: u64, priority: bool) -> (delivered: bool)
        requires
            old(self).wf(),
        ensures
            final(self).wf(),
            delivered == (!old(self)@.receiver.checked || old(self)@.receiver.history(
                priority,
            ).accepts(seqno)),
            final(self)@ == (PeerView {
                receiver: old(self)@.receiver.with_history(
                    priority,
                    old(self)@.receiver.history(priority).deliver(seqno),
                ),
                ..old(self)@
            }),
    {
        self.receiver_state.deliver_packet(seqno, priority)
    }

    /// Takes note of the reinit date that the peer announces. An older date
    /// than the one known is refused.
    pub fn try_reinit(&mut self, reinit_date: u32) -> (accepted: bool)
        requires
            old(self).wf(),
        ensures
            final(self).wf(),
            accepted == old(self)@.reinit_accepted(reinit_date),
            final(self)@ == if accepted {
                old(self)@.reinit(reinit_date)
            } else {
                old(self)@
            },
    {
        let known = self.sender_state.reinit_date();
        if reinit_date > known {
            self.sender_state.set_reinit_date(reinit_date);
            self.sender_state.reset_history();
            self.receiver_state.reset_history();
            true
        } else {
            reinit_date == known
        }
    }

    /// Replaces the channel key.
    pub fn reset_with(&mut self, channel_key: KeyPair)
        requires
            old(self).wf(),
            channel_key.wf(),
        ensures
            final(self).wf(),
            final(self)@ == (PeerView { channel_key, ..old(self)@ }),
    {
        self.channel_key = channel_key;
    }

    /// Replaces the channel key by a fresh random one.
    pub fn reset(&mut self)
        requires
            old(self).wf(),
        ensures
            final(self).wf(),
            final(self)@.channel_key.wf(),
            final(self)@ == (PeerView { channel_key: final(self)@.channel_key, ..old(self)@ }),
    {
        self.reset_with(KeyPair::generate());
    }
}

} // verus!
