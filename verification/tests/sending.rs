use adnl::adnl_node::{AdnlNode, MessageEvent, QueryProcessingResult};
use adnl::channel::{AdnlChannel, ChannelCreationContext};
use adnl::errors::{AdnlError, AdnlNodeError};
use adnl::handshake::parse_handshake_packet;
use adnl::keys::KeyPair;
use adnl::keystore::{AdnlKeystore, AdnlKeystoreError};
use adnl::message::Message;
use adnl::node_id::{AdnlNodeIdFull, AdnlNodeIdShort, StoredAdnlNodeKey};
use adnl::options::{AdmitAll, AdnlNodeOptions, PeerContext};
use adnl::outbound::send_message;
use adnl::packet::{AdnlAddressUdp, IncomingPacketContents, OutgoingMessages};
use adnl::peer::AdnlPeer;
use adnl::sender::{choose_priority, send_packet, send_packet_with, MessageSigner, SendContext};
use adnl::table::Table;

fn ctx(now: u32) -> SendContext {
    SendContext {
        ip_address: AdnlAddressUdp { ip: 0x0102_0304, port: 5 },
        start_time: 1000,
        address_list_timeout_sec: 1000,
        now,
    }
}

fn peer_ip() -> AdnlAddressUdp {
    AdnlAddressUdp { ip: 0x0a0b_0c0d, port: 999 }
}

fn peer_key() -> StoredAdnlNodeKey {
    StoredAdnlNodeKey::from_private_key([2; 32])
}

fn local_key() -> StoredAdnlNodeKey {
    StoredAdnlNodeKey::from_private_key([1; 32])
}

fn new_peer() -> AdnlPeer {
    AdnlPeer::with_channel_key(1000, peer_ip(), *peer_key().full_id(), KeyPair::from_secret([3; 32]), false)
}

/// The local side of a channel with the peer, and the peer's side.
fn channels(peer: &AdnlPeer) -> (AdnlChannel, AdnlChannel) {
    let remote = KeyPair::from_secret([4; 32]);
    let local = AdnlChannel::new(
        *local_key().id(),
        *peer_key().id(),
        peer.channel_key(),
        *remote.public_key(),
        7,
        ChannelCreationContext::ConfirmChannel,
    )
    .unwrap();
    let theirs = AdnlChannel::new(
        *peer_key().id(),
        *local_key().id(),
        &remote,
        *peer.channel_key().public_key(),
        8,
        ChannelCreationContext::CreateChannel,
    )
    .unwrap();
    (local, theirs)
}

fn single(message: &Message) -> OutgoingMessages {
    OutgoingMessages::Single(message.serialize())
}

#[test]
fn priority_is_given_up_after_more_than_ten_unanswered_packets() {
    let mut peer = new_peer();
    let (channel, theirs) = channels(&peer);
    let signer = MessageSigner::Channel { channel: &channel, priority: true };
    for sent in 1..=11u64 {
        assert!(choose_priority(&peer, &signer));
        let packet =
            send_packet(peer_key().id(), &mut peer, signer, single(&Message::Nop), &ctx(50)).unwrap();
        assert_eq!(&packet.data[..32], theirs.priority_channel_in_id(), "packet {sent}");
        assert_eq!(peer.sender_state().seqno(true), sent);
    }
    // the twelfth and all further packets go out in the ordinary class
    for sent in 1..=3u64 {
        assert!(!choose_priority(&peer, &signer));
        let packet =
            send_packet(peer_key().id(), &mut peer, signer, single(&Message::Nop), &ctx(50)).unwrap();
        assert_eq!(&packet.data[..32], theirs.ordinary_channel_in_id());
        assert_eq!(peer.sender_state().seqno(true), 11);
        assert_eq!(peer.sender_state().seqno(false), sent);
        let mut inside = packet.data.clone();
        assert_eq!(theirs.decrypt(&mut inside, false), Ok(()));
        assert_eq!(IncomingPacketContents::parse(&inside).unwrap().seqno, Some(sent));
    }
    // once something arrives in the priority class, priority is back
    assert!(peer.deliver_packet(1, true));
    assert!(choose_priority(&peer, &signer));
    let packet =
        send_packet(peer_key().id(), &mut peer, signer, single(&Message::Nop), &ctx(50)).unwrap();
    assert_eq!(&packet.data[..32], theirs.priority_channel_in_id());
    assert_eq!(peer.sender_state().seqno(true), 12);
}

#[test]
fn ordinary_and_handshake_packets_are_never_priority() {
    let mut peer = new_peer();
    let (channel, _) = channels(&peer);
    let key = local_key();
    assert!(!choose_priority(&peer, &MessageSigner::Channel { channel: &channel, priority: false }));
    assert!(!choose_priority(&peer, &MessageSigner::Random(&key)));
    for _ in 0..20 {
        peer.bump_seqno(true);
    }
    assert!(!choose_priority(&peer, &MessageSigner::Channel { channel: &channel, priority: true }));
    assert!(!choose_priority(&peer, &MessageSigner::Channel { channel: &channel, priority: false }));
}

#[test]
fn channel_packet_fields() {
    let mut peer = new_peer();
    let (channel, theirs) = channels(&peer);
    assert!(peer.deliver_packet(41, false));
    let signer = MessageSigner::Channel { channel: &channel, priority: false };
    let rand = [1, 2, 3, 4, 5, 6, 7, 8, 9, 10];
    let temp = KeyPair::from_secret([9; 32]);
    let message = Message::Custom { data: b"fields".to_vec() };
    let packet =
        send_packet_with(peer_key().id(), &mut peer, signer, single(&message), &ctx(77), &rand, &temp)
            .unwrap();
    assert_eq!(packet.destination, peer_ip());
    let mut inside = packet.data.clone();
    assert_eq!(theirs.decrypt(&mut inside, false), Ok(()));
    // rand1 in front, rand2 at the end
    assert_eq!(&inside[4..8], &[3, 1, 2, 3]);
    assert_eq!(&inside[inside.len() - 8..], &[7, 4, 5, 6, 7, 8, 9, 10]);
    let contents = IncomingPacketContents::parse(&inside).unwrap();
    assert_eq!(contents.messages, vec![message.clone()]);
    assert_eq!(contents.seqno, Some(1));
    assert_eq!(contents.confirm_seqno, Some(41));
    assert_eq!(contents.from, None);
    assert_eq!(contents.reinit_dates, None);
    assert_eq!(contents.signature, None);
    let list = contents.address.unwrap();
    assert_eq!(list.address, Some(ctx(77).ip_address));
    assert_eq!((list.version, list.reinit_date, list.priority, list.expire_at), (77, 1000, 0, 1077));
    // the same inputs give the same datagram, but for the sequence number
    let mut again = new_peer();
    assert!(again.deliver_packet(41, false));
    let repeat =
        send_packet_with(peer_key().id(), &mut again, signer, single(&message), &ctx(77), &rand, &temp)
            .unwrap();
    assert_eq!(repeat, packet);
    let next =
        send_packet_with(peer_key().id(), &mut again, signer, single(&message), &ctx(77), &rand, &temp)
            .unwrap();
    assert_ne!(next, packet);
}

#[test]
fn newer_reinit_date_empties_the_histories() {
    let mut peer = AdnlPeer::with_channel_key(
        1000,
        peer_ip(),
        *peer_key().full_id(),
        KeyPair::from_secret([3; 32]),
        true,
    );
    assert_eq!(peer.bump_seqno(false), 1);
    assert_eq!(peer.bump_seqno(true), 1);
    assert!(peer.deliver_packet(7, false));
    assert!(!peer.deliver_packet(7, false));
    // the first date that the peer announces is newer than none
    assert!(peer.try_reinit(5));
    assert_eq!(peer.sender_state().reinit_date(), 5);
    assert_eq!(peer.receiver_state().reinit_date(), 1000);
    assert_eq!(peer.sender_state().seqno(false), 0);
    assert_eq!(peer.sender_state().seqno(true), 0);
    assert_eq!(peer.receiver_state().seqno(false), 0);
    assert!(peer.deliver_packet(7, false));
    assert_eq!(peer.bump_seqno(false), 1);
    // the same date changes nothing, an older one is refused
    assert!(peer.try_reinit(5));
    assert!(!peer.try_reinit(4));
    assert_eq!(peer.sender_state().reinit_date(), 5);
    assert_eq!(peer.sender_state().seqno(false), 1);
    assert_eq!(peer.receiver_state().seqno(false), 7);
    // a newer date starts the numbering anew once more
    assert!(peer.try_reinit(6));
    assert_eq!(peer.sender_state().reinit_date(), 6);
    assert_eq!(peer.sender_state().seqno(false), 0);
    assert_eq!(peer.receiver_state().seqno(false), 0);
}

#[test]
fn handshake_packet_fields() {
    let mut peer = new_peer();
    peer.try_reinit(900);
    let key = local_key();
    let signer = MessageSigner::Random(&key);
    let rand = [0xa1, 0xa2, 0xa3, 0xb1, 0xb2, 0xb3, 0xb4, 0xb5, 0xb6, 0xb7];
    let temp = KeyPair::from_secret([9; 32]);
    let late = SendContext { now: u32::MAX - 5, ..ctx(0) };
    let packet =
        send_packet_with(peer_key().id(), &mut peer, signer, single(&Message::Nop), &late, &rand, &temp)
            .unwrap();
    assert_eq!(&packet.data[..32], peer_key().id().as_slice());
    assert_eq!(&packet.data[32..64], temp.public_key());
    let mut keys = Table::new();
    keys.insert(*peer_key().id().as_slice(), peer_key());
    let mut inside = packet.data.clone();
    assert_eq!(parse_handshake_packet(&keys, &mut inside, None), Ok(Some(*peer_key().id())));
    let contents = IncomingPacketContents::parse(&inside).unwrap();
    assert_eq!(contents.from, Some(*key.full_id().public_key()));
    assert_eq!(contents.seqno, Some(1));
    assert_eq!(contents.confirm_seqno, Some(0));
    let dates = contents.reinit_dates.unwrap();
    assert_eq!((dates.local, dates.target), (1000, 900));
    // the expiry does not wrap around
    assert_eq!(contents.address.unwrap().expire_at, u32::MAX);
    // the signature is that of the packet without it
    let field = contents.signature.unwrap();
    let (unsigned, signature) = adnl::inbound::extract_signature(&inside, &field).unwrap();
    assert_eq!(signature, key.sign(&unsigned));
    assert_eq!(key.full_id().verify(&unsigned, &signature), Ok(()));
    assert!(IncomingPacketContents::parse(&unsigned).unwrap().signature.is_none());
}

#[test]
fn message_kinds_that_are_not_sent() {
    let mut peer = new_peer();
    let key = local_key();
    let mut queue = Vec::new();
    let refused = [
        Message::CreateChannel { key: [1; 32], date: 1 },
        Message::Part { hash: [1; 32], total_size: 1, offset: 0, data: vec![1] },
        Message::Reinit { date: 1 },
        Message::Custom { data: vec![0; 0x100_0000] },
    ];
    for message in &refused {
        assert_eq!(
            send_message(peer_key().id(), &mut peer, &key, None, message, false, &ctx(1), &mut queue),
            Err(AdnlNodeError::UnexpectedMessageToSend)
        );
    }
    assert!(queue.is_empty());
    assert_eq!(peer.sender_state().seqno(false), 0);
    let sent = [
        Message::Nop,
        Message::ConfirmChannel { key: [1; 32], peer_key: [2; 32], date: 1 },
        Message::Custom { data: vec![] },
        Message::Query { query_id: [1; 32], query: vec![1] },
        Message::Answer { query_id: [1; 32], answer: vec![1] },
    ];
    for message in &sent {
        assert_eq!(
            send_message(peer_key().id(), &mut peer, &key, None, message, false, &ctx(1), &mut queue),
            Ok(())
        );
    }
    assert_eq!(queue.len(), 5);
    assert_eq!(peer.sender_state().seqno(false), 5);
}

#[test]
fn envelope_follows_the_state_of_the_channel() {
    let mut peer = new_peer();
    let (mut channel, theirs) = channels(&peer);
    let key = local_key();
    let mut keys = Table::new();
    keys.insert(*peer_key().id().as_slice(), peer_key());
    let message = Message::Custom { data: b"x".to_vec() };
    let mut queue = Vec::new();
    // no channel: a handshake that proposes one
    send_message(peer_key().id(), &mut peer, &key, None, &message, true, &ctx(5), &mut queue).unwrap();
    let mut inside = queue.pop().unwrap().data;
    assert_eq!(parse_handshake_packet(&keys, &mut inside, None), Ok(Some(*peer_key().id())));
    let contents = IncomingPacketContents::parse(&inside).unwrap();
    assert_eq!(
        contents.messages,
        vec![
            Message::CreateChannel { key: *peer.channel_key().public_key(), date: 5 },
            message.clone()
        ]
    );
    // a channel that is not ready: a handshake that confirms it
    channel = AdnlChannel::new(
        *local_key().id(),
        *peer_key().id(),
        peer.channel_key(),
        *channel.peer_channel_public_key(),
        7,
        ChannelCreationContext::CreateChannel,
    )
    .unwrap();
    send_message(peer_key().id(), &mut peer, &key, Some(&channel), &message, true, &ctx(5), &mut queue)
        .unwrap();
    let mut inside = queue.pop().unwrap().data;
    assert_eq!(parse_handshake_packet(&keys, &mut inside, None), Ok(Some(*peer_key().id())));
    let contents = IncomingPacketContents::parse(&inside).unwrap();
    assert_eq!(
        contents.messages,
        vec![
            Message::ConfirmChannel {
                key: *peer.channel_key().public_key(),
                peer_key: *channel.peer_channel_public_key(),
                date: 7
            },
            message.clone()
        ]
    );
    assert_eq!(contents.seqno, Some(2));
    // a ready channel: the channel's envelope, the message alone
    let (mut ready, _) = channels(&peer);
    ready.set_ready();
    send_message(peer_key().id(), &mut peer, &key, Some(&ready), &message, true, &ctx(5), &mut queue)
        .unwrap();
    let mut inside = queue.pop().unwrap().data;
    assert_eq!(&inside[..32], theirs.priority_channel_in_id());
    assert_eq!(theirs.decrypt(&mut inside, true), Ok(()));
    let contents = IncomingPacketContents::parse(&inside).unwrap();
    assert_eq!(contents.messages, vec![message]);
    assert_eq!(contents.seqno, Some(1));
}

#[test]
fn parts_cover_the_message_without_gaps() {
    let mut peer = new_peer();
    let (mut channel, theirs) = channels(&peer);
    channel.set_ready();
    let key = local_key();
    for len in [1013usize, 1960, 1961, 5000, 20000] {
        let message = Message::Answer { query_id: [5; 32], answer: vec![0xab; len - 32] };
        let whole = message.serialize();
        let mut queue = Vec::new();
        send_message(peer_key().id(), &mut peer, &key, Some(&channel), &message, false, &ctx(5), &mut queue)
            .unwrap();
        assert_eq!(queue.len(), (whole.len() + 983) / 984);
        let mut assembled = Vec::new();
        for packet in queue {
            let mut inside = packet.data;
            assert_eq!(theirs.decrypt(&mut inside, false), Ok(()));
            let contents = IncomingPacketContents::parse(&inside).unwrap();
            assert_eq!(contents.messages.len(), 1);
            match &contents.messages[0] {
                Message::Part { total_size, offset, data, .. } => {
                    assert_eq!(*total_size as usize, whole.len());
                    assert_eq!(*offset as usize, assembled.len());
                    assert!(!data.is_empty() && data.len() <= 984);
                    assembled.extend_from_slice(data);
                }
                other => panic!("not a part: {other:?}"),
            }
        }
        assert_eq!(assembled, whole);
    }
}

fn node() -> (AdnlNode<AdmitAll>, AdnlNodeIdShort, AdnlNodeIdFull) {
    let mut keystore = AdnlKeystore::new();
    let id = keystore.add_key([1; 32], 1).unwrap();
    let full = *keystore.key_by_id(&id).unwrap().full_id();
    let ip = AdnlAddressUdp { ip: 1, port: 2 };
    (AdnlNode::new(ip, keystore, AdnlNodeOptions::default(), None, 1000), id, full)
}

#[test]
fn sending_needs_a_known_local_id_and_peer() {
    let (mut node, id, _) = node();
    let peer = peer_key();
    assert_eq!(
        node.send_custom_message(5, peer.id(), peer.id(), b"x"),
        Err(AdnlError::Node(AdnlNodeError::PeersNotFound))
    );
    assert_eq!(
        node.send_custom_message(5, &id, peer.id(), b"x"),
        Err(AdnlError::Node(AdnlNodeError::UnknownPeer))
    );
    assert_eq!(
        node.query_raw(5, &id, peer.id(), b"x"),
        Err(AdnlError::Node(AdnlNodeError::UnknownPeer))
    );
    node.add_peer(PeerContext::Dht, &id, peer.id(), peer_ip(), *peer.full_id()).unwrap();
    assert_eq!(
        node.send_message(5, &id, peer.id(), &Message::Reinit { date: 1 }, false),
        Err(AdnlError::Node(AdnlNodeError::UnexpectedMessageToSend))
    );
    assert!(node.take_outgoing().is_empty());
    assert_eq!(node.send_custom_message(5, &id, peer.id(), b"x"), Ok(()));
    let packets = node.take_outgoing();
    assert_eq!(packets.len(), 1);
    assert_eq!(packets[0].destination, peer_ip());
    assert!(node.take_outgoing().is_empty());
}

#[test]
fn subscribers_results_are_turned_into_outcomes() {
    let (mut node, id, _) = node();
    let peer = peer_key();
    node.add_peer(PeerContext::Dht, &id, peer.id(), peer_ip(), *peer.full_id()).unwrap();
    assert_eq!(AdnlNode::<AdmitAll>::custom_result(true), Ok(()));
    assert_eq!(
        AdnlNode::<AdmitAll>::custom_result(false),
        Err(AdnlError::Node(AdnlNodeError::NoSubscribersForCustomMessage))
    );
    assert_eq!(
        node.answer_query(5, &id, peer.id(), [1; 32], QueryProcessingResult::Rejected, false),
        Err(AdnlError::Node(AdnlNodeError::NoSubscribersForQuery))
    );
    assert_eq!(
        node.answer_query(5, &id, peer.id(), [1; 32], QueryProcessingResult::Processed(None), false),
        Ok(())
    );
    assert!(node.take_outgoing().is_empty());
    let answer = QueryProcessingResult::Processed(Some(b"42".to_vec()));
    assert_eq!(node.answer_query(5, &id, peer.id(), [1; 32], answer, false), Ok(()));
    assert_eq!(node.take_outgoing().len(), 1);
}

#[test]
fn messages_are_dispatched_by_kind() {
    let (mut node, id, _) = node();
    let peer = peer_key();
    node.add_peer(PeerContext::Dht, &id, peer.id(), peer_ip(), *peer.full_id()).unwrap();
    assert_eq!(node.process_message(5, &id, peer.id(), Message::Nop), Ok(MessageEvent::Done));
    assert_eq!(
        node.process_message(5, &id, peer.id(), Message::Custom { data: vec![1] }),
        Ok(MessageEvent::Custom { data: vec![1] })
    );
    assert_eq!(
        node.process_message(5, &id, peer.id(), Message::Query { query_id: [3; 32], query: vec![2] }),
        Ok(MessageEvent::Query { query_id: [3; 32], query: vec![2] })
    );
    assert_eq!(
        node.process_message(5, &id, peer.id(), Message::Reinit { date: 1 }),
        Err(AdnlError::Node(AdnlNodeError::UnknownMessage))
    );
    let mut off_curve = [0u8; 32];
    off_curve[0] = 2;
    assert_eq!(
        node.process_message(5, &id, peer.id(), Message::CreateChannel { key: off_curve, date: 1 }),
        Err(AdnlError::Node(AdnlNodeError::InvalidPacket))
    );
    let key = *KeyPair::from_secret([8; 32]).public_key();
    assert_eq!(
        node.process_message(5, peer.id(), peer.id(), Message::CreateChannel { key, date: 1 }),
        Err(AdnlError::Node(AdnlNodeError::PeersNotFound))
    );
    assert_eq!(
        node.process_message(5, &id, &id, Message::CreateChannel { key, date: 1 }),
        Err(AdnlError::Node(AdnlNodeError::UnknownPeerInChannel))
    );
    assert_eq!(node.metrics().channels_by_peers_len, 0);
}

#[test]
fn channel_is_kept_confirmed_or_replaced() {
    let (mut node, id, _) = node();
    let peer = peer_key();
    node.add_peer(PeerContext::Dht, &id, peer.id(), peer_ip(), *peer.full_id()).unwrap();
    let first = *KeyPair::from_secret([8; 32]).public_key();
    let second = *KeyPair::from_secret([9; 32]).public_key();
    assert_eq!(node.create_channel(&id, peer.id(), first, 10, ChannelCreationContext::CreateChannel), Ok(()));
    let made = *node.channel(peer.id()).unwrap();
    assert!(!made.ready());
    assert_eq!(node.metrics().channels_by_id_len, 2);
    // the same proposal again changes nothing
    assert_eq!(node.create_channel(&id, peer.id(), first, 10, ChannelCreationContext::CreateChannel), Ok(()));
    assert!(!node.channel(peer.id()).unwrap().ready());
    // its confirmation makes the channel ready
    assert_eq!(node.create_channel(&id, peer.id(), first, 10, ChannelCreationContext::ConfirmChannel), Ok(()));
    let confirmed = *node.channel(peer.id()).unwrap();
    assert!(confirmed.ready());
    assert_eq!(confirmed.ordinary_channel_in_id(), made.ordinary_channel_in_id());
    // another date or key replaces the channel and its incoming ids
    assert_eq!(node.create_channel(&id, peer.id(), first, 11, ChannelCreationContext::CreateChannel), Ok(()));
    assert!(!node.channel(peer.id()).unwrap().ready());
    assert_eq!(node.channel(peer.id()).unwrap().peer_channel_date(), 11);
    assert_eq!(node.create_channel(&id, peer.id(), second, 11, ChannelCreationContext::ConfirmChannel), Ok(()));
    let replaced = *node.channel(peer.id()).unwrap();
    assert!(replaced.ready());
    assert_eq!(replaced.peer_channel_public_key(), &second);
    assert_ne!(replaced.ordinary_channel_in_id(), made.ordinary_channel_in_id());
    assert_eq!(node.metrics().channels_by_id_len, 2);
    assert_eq!(node.metrics().channels_by_peers_len, 1);
    // a reset drops the channel and turns the key over
    let key_before = *node.peer(&id, peer.id()).unwrap().channel_key().public_key();
    assert_eq!(node.reset_peer(&id, peer.id()), Ok(()));
    assert!(node.channel(peer.id()).is_none());
    assert_eq!(node.metrics().channels_by_id_len, 0);
    assert_ne!(node.peer(&id, peer.id()).unwrap().channel_key().public_key(), &key_before);
    assert_eq!(node.reset_peer(&id, &id), Err(AdnlError::Node(AdnlNodeError::UnknownPeer)));
    assert_eq!(node.reset_peer(peer.id(), &id), Err(AdnlError::Node(AdnlNodeError::PeersNotFound)));
}

#[test]
fn node_keys_come_and_go() {
    let (mut node, id, _) = node();
    assert_eq!(node.key_by_id(&id).unwrap().id(), &id);
    assert_eq!(node.key_by_tag(1).unwrap().id(), &id);
    assert_eq!(node.key_by_tag(2).err(), Some(AdnlKeystoreError::KeyTagNotFound));
    let second = node.add_key([2; 32], 2).unwrap();
    assert_eq!(&second, peer_key().id());
    assert_eq!(node.key_by_tag(2).unwrap().id(), &second);
    assert_eq!(node.add_key([2; 32], 2), Ok(second));
    assert_eq!(node.add_key([3; 32], 2), Err(AdnlKeystoreError::DuplicatedKeyTag));
    assert_eq!(node.add_key([2; 32], 3), Err(AdnlKeystoreError::DuplicatedKey));
    // peers can be kept for the new key
    let peer = StoredAdnlNodeKey::from_private_key([7; 32]);
    assert_eq!(node.add_peer(PeerContext::Dht, &second, peer.id(), peer_ip(), *peer.full_id()), Ok(true));
    assert_eq!(node.metrics().peer_count, 1);
    assert_eq!(node.delete_key(&second, 2), Ok(true));
    assert_eq!(node.metrics().peer_count, 0);
    assert_eq!(node.key_by_id(&second).err(), Some(AdnlKeystoreError::KeyIdNotFound));
    assert_eq!(
        node.add_peer(PeerContext::Dht, &second, peer.id(), peer_ip(), *peer.full_id()),
        Err(AdnlNodeError::PeersNotFound)
    );
    assert_eq!(node.delete_key(&second, 2), Ok(false));
    assert_eq!(node.delete_key(&second, 1), Err(AdnlKeystoreError::UnexpectedKey));
    assert_eq!(node.key_by_tag(1).err(), Some(AdnlKeystoreError::KeyTagNotFound));
}

#[test]
fn node_reports_its_setup() {
    let (node, _, _) = node();
    assert_eq!(node.ip_address(), AdnlAddressUdp { ip: 1, port: 2 });
    assert_eq!(node.start_time(), 1000);
    assert_eq!(node.options().query_max_timeout_ms, 5000);
    let list = node.build_address_list(77);
    assert_eq!(list.address, Some(node.ip_address()));
    assert_eq!((list.version, list.reinit_date, list.priority, list.expire_at), (77, 1000, 0, 0));
    assert_eq!(node.compute_query_timeout(None), 5000);
    assert_eq!(node.compute_query_timeout(Some(100)), 500);
    assert_eq!(node.compute_query_timeout(Some(500)), 500);
    assert_eq!(node.compute_query_timeout(Some(501)), 501);
    assert_eq!(node.compute_query_timeout(Some(u64::MAX)), u64::MAX);
    let metrics = node.metrics();
    assert_eq!(
        (
            metrics.peer_count,
            metrics.channels_by_id_len,
            metrics.channels_by_peers_len,
            metrics.incoming_transfers_len,
            metrics.query_count
        ),
        (0, 0, 0, 0, 0)
    );
}

#[test]
fn default_options() {
    let options = AdnlNodeOptions::default();
    assert_eq!(options.query_min_timeout_ms, 500);
    assert_eq!(options.query_max_timeout_ms, 5000);
    assert_eq!(options.transfer_timeout_sec, 3);
    assert_eq!(options.clock_tolerance_sec, 60);
    assert_eq!(options.address_list_timeout_sec, 1000);
    assert!(!options.packet_history_enabled);
    assert!(options.packet_signature_required);
    assert!(options.force_use_priority_channels);
    assert_eq!(options.version, None);
}

#[test]
fn query_with_prefix_sends_prefix_and_query() {
    let (mut node, id, _) = node();
    let peer = peer_key();
    node.add_peer(PeerContext::Dht, &id, peer.id(), peer_ip(), *peer.full_id()).unwrap();
    let query_id = node.query_with_prefix(5, &id, peer.id(), b"pre", b"fix").unwrap();
    let mut keys = Table::new();
    keys.insert(*peer.id().as_slice(), peer);
    let mut inside = node.take_outgoing().pop().unwrap().data;
    parse_handshake_packet(&keys, &mut inside, None).unwrap();
    let contents = IncomingPacketContents::parse(&inside).unwrap();
    assert_eq!(contents.messages[1], Message::Query { query_id, query: b"prefix".to_vec() });
    // every query gets an id of its own
    assert_ne!(query_id, node.query_raw(5, &id, peer.id(), b"x").unwrap());
    assert_eq!(node.metrics().query_count, 2);
}
