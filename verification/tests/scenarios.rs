use adnl::adnl_node::{AdnlNode, MessageEvent, QueryProcessingResult, QueryReply, ReceivedPacket};
use adnl::errors::{AdnlError, AdnlNodeError, AdnlPacketError};
use adnl::keystore::AdnlKeystore;
use adnl::message::Message;
use adnl::node_id::{AdnlNodeIdFull, AdnlNodeIdShort};
use adnl::options::{AdmitAll, AdnlNodeOptions, PeerContext};
use adnl::packet::{AdnlAddressUdp, IncomingPacketContents};
use adnl::sender::PacketToSend;
use sha2::Digest;

type Node = AdnlNode<AdmitAll>;

struct Side {
    node: Node,
    id: AdnlNodeIdShort,
    full: AdnlNodeIdFull,
    ip: AdnlAddressUdp,
}

fn side(seed: u8, start_time: u32, options: AdnlNodeOptions) -> Side {
    let mut keystore = AdnlKeystore::new();
    let id = keystore.add_key([seed; 32], 1).unwrap();
    let full = *keystore.key_by_id(&id).unwrap().full_id();
    let ip = AdnlAddressUdp { ip: 0x7f00_0000 + seed as u32, port: 3000 + seed as u16 };
    Side { node: AdnlNode::new(ip, keystore, options, None, start_time), id, full, ip }
}

fn ordinary() -> AdnlNodeOptions {
    AdnlNodeOptions { force_use_priority_channels: false, ..AdnlNodeOptions::default() }
}

const NOW: u32 = 5000;

/// Takes the one datagram that a node has queued.
fn one(side: &mut Side) -> PacketToSend {
    let mut packets = side.node.take_outgoing();
    assert_eq!(packets.len(), 1);
    packets.pop().unwrap()
}

/// Delivers a datagram and expects the packet to be accepted.
fn deliver(to: &mut Side, packet: &PacketToSend, now: u32) -> ReceivedPacket {
    assert_eq!(packet.destination, to.ip);
    to.node.handle_received_data(now, packet.data.clone()).unwrap().unwrap()
}

/// Processes all messages of a packet and collects what is left for the
/// subscribers.
fn process(to: &mut Side, received: ReceivedPacket, now: u32) -> Vec<MessageEvent> {
    let mut events = Vec::new();
    for message in received.messages {
        let event =
            to.node.process_message(now, &received.local_id, &received.peer_id, message).unwrap();
        if event != MessageEvent::Done {
            events.push(event);
        }
    }
    events
}

/// First contact of A and B. Each side learns the other's reinit date from
/// the other's first packet and starts its numbering anew on it; with the
/// dates known a round trip sets the channel up. Afterwards A has a ready
/// channel and B a channel that waits for its first packet.
fn booted(options: AdnlNodeOptions) -> (Side, Side) {
    let mut a = side(1, 1000, options);
    let mut b = side(2, 900, options);
    assert_eq!(a.node.add_peer(PeerContext::Dht, &a.id, &b.id, b.ip, b.full), Ok(true));
    a.node.send_custom_message(NOW, &a.id, &b.id, b"ping").unwrap();
    let ping = one(&mut a);
    let received = deliver(&mut b, &ping, NOW);
    process(&mut b, received, NOW);
    // B's first packet brings A the date of B and confirms a number of the
    // numbering that A has just given up
    b.node.send_custom_message(NOW, &b.id, &a.id, b"pong").unwrap();
    let pong = one(&mut b);
    assert_eq!(
        a.node.handle_received_data(NOW, pong.data),
        Err(AdnlError::Packet(AdnlPacketError::ConfirmationSeqnoTooNew))
    );
    // A starts at 1 again, which B has seen where it checks
    for _ in 0..2 {
        a.node.send_custom_message(NOW, &a.id, &b.id, b"ping").unwrap();
        let ping = one(&mut a);
        if let Some(received) = b.node.handle_received_data(NOW, ping.data).unwrap() {
            process(&mut b, received, NOW);
            break;
        }
    }
    b.node.send_custom_message(NOW, &b.id, &a.id, b"pong").unwrap();
    let pong = one(&mut b);
    let received = deliver(&mut a, &pong, NOW);
    process(&mut a, received, NOW);
    assert!(a.node.channel(&b.id).unwrap().ready());
    (a, b)
}

#[test]
fn boot_and_ping() {
    let options = AdnlNodeOptions { packet_history_enabled: true, ..AdnlNodeOptions::default() };
    let mut a = side(1, 1000, options);
    let mut b = side(2, 900, options);
    assert_eq!(a.node.add_peer(PeerContext::Dht, &a.id, &b.id, b.ip, b.full), Ok(true));
    assert_eq!(a.node.send_custom_message(NOW, &a.id, &b.id, b"ping"), Ok(()));

    // A -> B: a handshake for B with CreateChannel and the custom message
    let ping = one(&mut a);
    assert_eq!(ping.destination, b.ip);
    assert_eq!(&ping.data[..32], b.id.as_slice());
    assert_eq!(b.node.get_peer_ip(&b.id, &a.id), None);
    let received = deliver(&mut b, &ping, NOW);
    assert_eq!(received.local_id, b.id);
    assert_eq!(received.peer_id, a.id);
    assert!(!received.priority);
    let a_channel_key = *a.node.peer(&a.id, &b.id).unwrap().channel_key().public_key();
    assert_eq!(
        received.messages,
        vec![
            Message::CreateChannel { key: a_channel_key, date: NOW },
            Message::Custom { data: b"ping".to_vec() },
        ]
    );
    // B has learnt A's address and reinit date from the packet
    assert_eq!(b.node.get_peer_ip(&b.id, &a.id), Some(a.ip));
    assert_eq!(b.node.peer(&b.id, &a.id).unwrap().sender_state().reinit_date(), 1000);
    assert_eq!(a.node.peer(&a.id, &b.id).unwrap().sender_state().seqno(false), 1);
    assert_eq!(b.node.peer(&b.id, &a.id).unwrap().receiver_state().seqno(false), 1);

    let events = process(&mut b, received, NOW);
    assert_eq!(events, vec![MessageEvent::Custom { data: b"ping".to_vec() }]);
    let b_channel = *b.node.channel(&a.id).unwrap();
    assert!(!b_channel.ready());
    assert_eq!(b_channel.peer_channel_public_key(), &a_channel_key);
    assert_eq!(b_channel.peer_channel_date(), NOW);
    let metrics = b.node.metrics();
    assert_eq!(metrics.peer_count, 1);
    assert_eq!(metrics.channels_by_peers_len, 1);
    assert_eq!(metrics.channels_by_id_len, 2);

    // B -> A: a handshake for A. It brings A the reinit date of B, a newer
    // date than none: A empties its histories, and the number that the
    // packet confirms is ahead of A's new numbering.
    assert_eq!(b.node.send_custom_message(NOW, &b.id, &a.id, b"pong"), Ok(()));
    let pong = one(&mut b);
    assert_eq!(&pong.data[..32], a.id.as_slice());
    assert_eq!(
        a.node.handle_received_data(NOW, pong.data),
        Err(AdnlError::Packet(AdnlPacketError::ConfirmationSeqnoTooNew))
    );
    assert_eq!(a.node.peer(&a.id, &b.id).unwrap().sender_state().reinit_date(), 900);
    assert_eq!(a.node.peer(&a.id, &b.id).unwrap().sender_state().seqno(false), 0);
    assert!(a.node.channel(&b.id).is_none());

    // A -> B again, under the number 1 of its new numbering: B has seen it
    assert_eq!(a.node.send_custom_message(NOW, &a.id, &b.id, b"ping"), Ok(()));
    let again = one(&mut a);
    assert_eq!(b.node.handle_received_data(NOW, again.data), Ok(None));
    // and under the number 2
    assert_eq!(a.node.send_custom_message(NOW, &a.id, &b.id, b"ping"), Ok(()));
    let again = one(&mut a);
    let received = deliver(&mut b, &again, NOW);
    assert_eq!(received.messages[0], Message::CreateChannel { key: a_channel_key, date: NOW });
    process(&mut b, received, NOW);
    assert_eq!(b.node.metrics().channels_by_id_len, 2);

    // B -> A: a handshake for A with ConfirmChannel
    assert_eq!(b.node.send_custom_message(NOW + 1, &b.id, &a.id, b"pong"), Ok(()));
    let pong = one(&mut b);
    assert_eq!(&pong.data[..32], a.id.as_slice());
    let received = deliver(&mut a, &pong, NOW + 1);
    let b_channel_key = *b.node.peer(&b.id, &a.id).unwrap().channel_key().public_key();
    assert_eq!(
        received.messages,
        vec![
            Message::ConfirmChannel { key: b_channel_key, peer_key: a_channel_key, date: NOW },
            Message::Custom { data: b"pong".to_vec() },
        ]
    );
    let events = process(&mut a, received, NOW + 1);
    assert_eq!(events, vec![MessageEvent::Custom { data: b"pong".to_vec() }]);
    let a_channel = *a.node.channel(&b.id).unwrap();
    assert!(a_channel.ready());
    assert_eq!(a_channel.ordinary_channel_out_id(), b_channel.ordinary_channel_in_id());
    assert_eq!(a_channel.priority_channel_out_id(), b_channel.priority_channel_in_id());
    assert_eq!(b_channel.ordinary_channel_out_id(), a_channel.ordinary_channel_in_id());

    // the first packet through the channel makes it ready on B
    assert_eq!(a.node.send_custom_message(NOW + 2, &a.id, &b.id, b"hello"), Ok(()));
    let hello = one(&mut a);
    assert_eq!(&hello.data[..32], b_channel.priority_channel_in_id());
    let received = deliver(&mut b, &hello, NOW + 2);
    assert!(received.priority);
    assert_eq!(received.messages, vec![Message::Custom { data: b"hello".to_vec() }]);
    assert!(b.node.channel(&a.id).unwrap().ready());
}

#[test]
fn channel_round_trip() {
    let (mut a, mut b) = booted(ordinary());
    assert_eq!(a.node.send_custom_message(NOW + 2, &a.id, &b.id, b"hello"), Ok(()));
    let hello = one(&mut a);
    // channel framing: the ordinary incoming id of B, no handshake
    let b_channel = *b.node.channel(&a.id).unwrap();
    assert_eq!(&hello.data[..32], b_channel.ordinary_channel_in_id());
    // what is inside: a single message, seqno 2, and B's highest seqno confirmed
    let mut inside = hello.data.clone();
    assert_eq!(b_channel.decrypt(&mut inside, false), Ok(()));
    let contents = IncomingPacketContents::parse(&inside).unwrap();
    assert_eq!(contents.messages, vec![Message::Custom { data: b"hello".to_vec() }]);
    assert_eq!(contents.seqno, Some(2));
    assert_eq!(contents.confirm_seqno, Some(2));
    assert_eq!(b.node.peer(&b.id, &a.id).unwrap().sender_state().seqno(false), 2);
    assert_eq!(contents.from, None);
    assert_eq!(contents.from_short, None);
    assert_eq!(contents.reinit_dates, None);
    assert_eq!(contents.signature, None);
    assert_eq!(contents.address.unwrap().address, Some(a.ip));
    assert_eq!(contents.address.unwrap().version, NOW + 2);
    assert_eq!(contents.address.unwrap().reinit_date, 1000);
    assert_eq!(contents.address.unwrap().expire_at, NOW + 2 + 1000);

    let received = deliver(&mut b, &hello, NOW + 2);
    assert_eq!(received.peer_id, a.id);
    assert!(!received.priority);
    let events = process(&mut b, received, NOW + 2);
    assert_eq!(events, vec![MessageEvent::Custom { data: b"hello".to_vec() }]);
    assert_eq!(b.node.peer(&b.id, &a.id).unwrap().receiver_state().seqno(false), 2);

    // and back through the channel, now that it is ready on B
    assert_eq!(b.node.send_custom_message(NOW + 3, &b.id, &a.id, b"world"), Ok(()));
    let world = one(&mut b);
    assert_eq!(&world.data[..32], a.node.channel(&b.id).unwrap().ordinary_channel_in_id());
    let received = deliver(&mut a, &world, NOW + 3);
    assert_eq!(received.messages, vec![Message::Custom { data: b"world".to_vec() }]);
}

#[test]
fn large_message_goes_in_parts() {
    let (mut a, mut b) = booted(ordinary());
    let blob: Vec<u8> = (0..5000).map(|i| (i * 31 % 256) as u8).collect();
    assert_eq!(b.node.send_custom_message(NOW + 2, &b.id, &a.id, &blob), Ok(()));
    let packets = b.node.take_outgoing();
    let whole = Message::Custom { data: blob.clone() }.serialize();
    assert_eq!(whole.len(), 5008);
    let hash: [u8; 32] = sha2::Sha256::digest(&whole).into();
    // B's channel is not ready yet: the first packet is a handshake that
    // carries the confirmation and a shorter part
    assert_eq!(packets.len(), 6);
    let mut offset = 0;
    let mut result = Vec::new();
    for (i, packet) in packets.iter().enumerate() {
        assert!(result.is_empty());
        assert_eq!(&packet.data[..32], a.id.as_slice());
        let received = deliver(&mut a, packet, NOW + 2);
        let part = received.messages.last().unwrap().clone();
        assert_eq!(received.messages.len(), if i == 0 { 2 } else { 1 });
        match &part {
            Message::Part { hash: part_hash, total_size, offset: part_offset, data } => {
                assert_eq!(part_hash, &hash);
                assert_eq!(*total_size, 5008);
                assert_eq!(*part_offset as usize, offset);
                let expected = if i == 0 { 912 } else { 984.min(5008 - offset) };
                assert_eq!(data.len(), expected);
                assert!(data.len() <= 1024);
                assert_eq!(&data[..], &whole[offset..offset + data.len()]);
                offset += data.len();
            }
            other => panic!("not a part: {other:?}"),
        }
        result = process(&mut a, received, NOW + 2);
    }
    assert_eq!(offset, 5008);
    assert_eq!(result, vec![MessageEvent::Custom { data: blob }]);
    assert_eq!(a.node.metrics().incoming_transfers_len, 0);
}

#[test]
fn large_message_through_a_ready_channel() {
    let (mut a, mut b) = booted(ordinary());
    let blob: Vec<u8> = (0..3000).map(|i| (i * 7 % 256) as u8).collect();
    assert_eq!(a.node.send_custom_message(NOW + 2, &a.id, &b.id, &blob), Ok(()));
    let mut packets = a.node.take_outgoing();
    // 3008 bytes in parts of 984
    assert_eq!(packets.len(), 4);
    let b_in = *b.node.channel(&a.id).unwrap().ordinary_channel_in_id();
    // delivered back to front
    packets.reverse();
    let mut events = Vec::new();
    for packet in &packets {
        assert!(events.is_empty());
        assert_eq!(&packet.data[..32], &b_in);
        let received = deliver(&mut b, packet, NOW + 2);
        assert_eq!(received.messages.len(), 1);
        events = process(&mut b, received, NOW + 2);
    }
    assert_eq!(events, vec![MessageEvent::Custom { data: blob }]);
    assert_eq!(b.node.peer(&b.id, &a.id).unwrap().receiver_state().seqno(false), 5);
}

#[test]
fn message_of_limit_size_is_one_packet() {
    let (mut a, _) = booted(ordinary());
    // counted size: data + 12
    a.node.send_custom_message(NOW, &a.id, &AdnlNodeIdShort::new([0; 32]), &[]).unwrap_err();
    let b = *a.node.channel(&side(2, 0, ordinary()).id).unwrap().peer_id();
    assert_eq!(a.node.send_custom_message(NOW, &a.id, &b, &vec![1; 1012]), Ok(()));
    assert_eq!(a.node.take_outgoing().len(), 1);
    assert_eq!(a.node.send_custom_message(NOW, &a.id, &b, &vec![1; 1013]), Ok(()));
    assert_eq!(a.node.take_outgoing().len(), 2);
}

#[test]
fn query_is_answered() {
    let (mut a, mut b) = booted(ordinary());
    let query_id = a.node.query_raw(NOW + 2, &a.id, &b.id, b"what time is it").unwrap();
    assert_eq!(a.node.metrics().query_count, 1);
    let packet = one(&mut a);
    // queries go in the priority class
    assert_eq!(&packet.data[..32], b.node.channel(&a.id).unwrap().priority_channel_in_id());
    let received = deliver(&mut b, &packet, NOW + 2);
    assert!(received.priority);
    let events = process(&mut b, received.clone(), NOW + 2);
    assert_eq!(
        events,
        vec![MessageEvent::Query { query_id, query: b"what time is it".to_vec() }]
    );
    assert!(matches!(
        a.node.query_result(NOW + 2, &a.id, &b.id, &query_id),
        Ok(QueryReply::Pending)
    ));
    assert_eq!(
        b.node.answer_query(
            NOW + 2,
            &b.id,
            &a.id,
            query_id,
            QueryProcessingResult::Processed(Some(b"tea time".to_vec())),
            received.priority,
        ),
        Ok(())
    );
    let answer = one(&mut b);
    assert_eq!(&answer.data[..32], a.node.channel(&b.id).unwrap().priority_channel_in_id());
    let received = deliver(&mut a, &answer, NOW + 3);
    assert_eq!(
        received.messages,
        vec![Message::Answer { query_id, answer: b"tea time".to_vec() }]
    );
    assert!(process(&mut a, received, NOW + 3).is_empty());
    // a timeout that fires late changes nothing
    assert!(!a.node.drop_query(&query_id));
    assert_eq!(
        a.node.query_result(NOW + 3, &a.id, &b.id, &query_id),
        Ok(QueryReply::Answer(b"tea time".to_vec()))
    );
    assert_eq!(a.node.metrics().query_count, 0);
    assert_eq!(a.node.query_result(NOW + 3, &a.id, &b.id, &query_id), Ok(QueryReply::Pending));
    assert_eq!(a.node.channel(&b.id).unwrap().drop_timeout(), 0);
}

#[test]
fn answer_to_unknown_query_is_refused() {
    let (mut a, b) = booted(ordinary());
    let stray = Message::Answer { query_id: [9; 32], answer: vec![1] };
    assert_eq!(
        a.node.process_message(NOW, &a.id, &b.id, stray),
        Err(AdnlError::Node(AdnlNodeError::UnknownQueryAnswer))
    );
}

#[test]
fn query_timeout_resets_the_peer_the_second_time() {
    let (mut a, mut b) = booted(ordinary());
    let sent_at = NOW + 10;
    let query_id = a.node.query_raw(sent_at, &a.id, &b.id, b"anyone there").unwrap();
    a.node.take_outgoing();
    // B stays silent; the timer fires
    assert!(a.node.drop_query(&query_id));
    assert!(!a.node.drop_query(&query_id));
    assert_eq!(a.node.query_result(sent_at, &a.id, &b.id, &query_id), Ok(QueryReply::Dropped));
    // the channel got a deadline: the longest query timeout from now
    assert_eq!(a.node.channel(&b.id).unwrap().drop_timeout(), sent_at + 5);
    let key_before = *a.node.peer(&a.id, &b.id).unwrap().channel_key().public_key();

    // a second timeout before the deadline leaves the deadline
    let query_id = a.node.query_raw(sent_at + 1, &a.id, &b.id, b"hello?").unwrap();
    assert!(a.node.drop_query(&query_id));
    assert_eq!(a.node.query_result(sent_at + 5, &a.id, &b.id, &query_id), Ok(QueryReply::Dropped));
    assert_eq!(a.node.channel(&b.id).unwrap().drop_timeout(), sent_at + 5);
    assert!(a.node.channel(&b.id).is_some());

    // a timeout after the deadline resets the peer
    let query_id = a.node.query_raw(sent_at + 6, &a.id, &b.id, b"hello??").unwrap();
    assert!(a.node.drop_query(&query_id));
    assert_eq!(a.node.query_result(sent_at + 6, &a.id, &b.id, &query_id), Ok(QueryReply::Dropped));
    assert!(a.node.channel(&b.id).is_none());
    assert_eq!(a.node.metrics().channels_by_id_len, 0);
    let key_after = *a.node.peer(&a.id, &b.id).unwrap().channel_key().public_key();
    assert_ne!(key_before, key_after);

    // the next message proposes a channel with the new key
    a.node.take_outgoing();
    a.node.send_custom_message(sent_at + 7, &a.id, &b.id, b"again").unwrap();
    let packet = one(&mut a);
    assert_eq!(&packet.data[..32], b.id.as_slice());
    let received = deliver(&mut b, &packet, sent_at + 7);
    assert_eq!(
        received.messages[0],
        Message::CreateChannel { key: key_after, date: sent_at + 7 }
    );
}

#[test]
fn received_packet_clears_the_deadline() {
    let (mut a, mut b) = booted(ordinary());
    let query_id = a.node.query_raw(NOW + 10, &a.id, &b.id, b"q").unwrap();
    let query = one(&mut a);
    assert!(a.node.drop_query(&query_id));
    assert_eq!(a.node.query_result(NOW + 10, &a.id, &b.id, &query_id), Ok(QueryReply::Dropped));
    assert_ne!(a.node.channel(&b.id).unwrap().drop_timeout(), 0);
    // B comes back through the channel
    deliver(&mut b, &query, NOW + 10);
    b.node.send_custom_message(NOW + 11, &b.id, &a.id, b"sorry").unwrap();
    let packet = one(&mut b);
    deliver(&mut a, &packet, NOW + 11);
    assert_eq!(a.node.channel(&b.id).unwrap().drop_timeout(), 0);
}

#[test]
fn replayed_datagram_is_dropped_silently() {
    let options = AdnlNodeOptions { packet_history_enabled: true, ..ordinary() };
    let (mut a, mut b) = booted(options);
    a.node.send_custom_message(NOW + 2, &a.id, &b.id, b"once").unwrap();
    let packet = one(&mut a);
    assert!(b.node.handle_received_data(NOW + 2, packet.data.clone()).unwrap().is_some());
    let seqno = b.node.peer(&b.id, &a.id).unwrap().receiver_state().seqno(false);
    let metrics = b.node.metrics();
    // the replay: no packet, no error, no change
    assert_eq!(b.node.handle_received_data(NOW + 2, packet.data.clone()), Ok(None));
    assert_eq!(b.node.handle_received_data(NOW + 9, packet.data.clone()), Ok(None));
    assert_eq!(b.node.peer(&b.id, &a.id).unwrap().receiver_state().seqno(false), seqno);
    assert_eq!(b.node.metrics(), metrics);
    assert!(b.node.take_outgoing().is_empty());
}

#[test]
fn replayed_channel_datagram_leaves_the_channel_as_it_is() {
    let options = AdnlNodeOptions { packet_history_enabled: true, ..ordinary() };
    let (mut a, mut b) = booted(options);
    // a packet through the channel makes it ready on B, and B answers through it
    a.node.send_custom_message(NOW + 2, &a.id, &b.id, b"hello").unwrap();
    let hello = one(&mut a);
    deliver(&mut b, &hello, NOW + 2);
    b.node.send_custom_message(NOW + 3, &b.id, &a.id, b"world").unwrap();
    let world = one(&mut b);
    assert_eq!(&world.data[..32], a.node.channel(&b.id).unwrap().ordinary_channel_in_id());
    deliver(&mut a, &world, NOW + 3);
    // a query of A times out: the channel gets a deadline
    let query_id = a.node.query_raw(NOW + 10, &a.id, &b.id, b"q").unwrap();
    a.node.take_outgoing();
    assert!(a.node.drop_query(&query_id));
    assert_eq!(a.node.query_result(NOW + 10, &a.id, &b.id, &query_id), Ok(QueryReply::Dropped));
    let channel = *a.node.channel(&b.id).unwrap();
    assert_eq!(channel.drop_timeout(), NOW + 15);
    let peer = *a.node.peer(&a.id, &b.id).unwrap();
    // the replay gives nothing and changes nothing: the deadline stands
    assert_eq!(a.node.handle_received_data(NOW + 11, world.data.clone()), Ok(None));
    assert_eq!(a.node.channel(&b.id).unwrap().ready(), channel.ready());
    assert_eq!(a.node.channel(&b.id).unwrap().drop_timeout(), NOW + 15);
    assert_eq!(
        a.node.peer(&a.id, &b.id).unwrap().receiver_state().seqno(false),
        peer.receiver_state().seqno(false)
    );
    assert!(a.node.take_outgoing().is_empty());
}

#[test]
fn replayed_handshake_leaves_the_address() {
    let options = AdnlNodeOptions { packet_history_enabled: true, ..ordinary() };
    let mut a = side(1, 1000, options);
    let mut b = side(2, 900, options);
    a.node.add_peer(PeerContext::Dht, &a.id, &b.id, b.ip, b.full).unwrap();
    a.node.send_custom_message(NOW, &a.id, &b.id, b"ping").unwrap();
    let ping = one(&mut a);
    deliver(&mut b, &ping, NOW);
    assert_eq!(b.node.get_peer_ip(&b.id, &a.id), Some(a.ip));
    // A is heard of under another address
    let moved = AdnlAddressUdp { ip: 0x0a00_0001, port: 4000 };
    assert_eq!(b.node.add_peer(PeerContext::Dht, &b.id, &a.id, moved, a.full), Ok(true));
    // the replay announces the old address, and is not listened to
    assert_eq!(b.node.handle_received_data(NOW, ping.data.clone()), Ok(None));
    assert_eq!(b.node.get_peer_ip(&b.id, &a.id), Some(moved));
}

#[test]
fn query_that_cannot_be_sent_is_not_registered() {
    let mut a = side(1, 1000, ordinary());
    let b = side(2, 900, ordinary());
    assert_eq!(
        a.node.query_raw(NOW, &a.id, &b.id, b"anyone"),
        Err(AdnlError::Node(AdnlNodeError::UnknownPeer))
    );
    assert_eq!(a.node.metrics().query_count, 0);
    assert_eq!(
        a.node.query_with_id(NOW, &b.id, &a.id, [4; 32], b"anyone"),
        Err(AdnlError::Node(AdnlNodeError::PeersNotFound))
    );
    assert_eq!(a.node.metrics().query_count, 0);
    assert_eq!(a.node.query_result(NOW, &a.id, &b.id, &[4; 32]), Ok(QueryReply::Pending));
    assert!(a.node.take_outgoing().is_empty());
    // a query that is sent is registered
    a.node.add_peer(PeerContext::Dht, &a.id, &b.id, b.ip, b.full).unwrap();
    assert_eq!(a.node.query_with_id(NOW, &a.id, &b.id, [4; 32], b"anyone"), Ok(()));
    assert_eq!(a.node.metrics().query_count, 1);
    // until its waiter gives up
    a.node.remove_query(&[5; 32]);
    assert_eq!(a.node.metrics().query_count, 1);
    a.node.remove_query(&[4; 32]);
    assert_eq!(a.node.metrics().query_count, 0);
    assert!(!a.node.drop_query(&[4; 32]));
}

#[test]
fn replay_passes_where_history_is_not_checked() {
    let (mut a, mut b) = booted(ordinary());
    a.node.send_custom_message(NOW + 2, &a.id, &b.id, b"twice").unwrap();
    let packet = one(&mut a);
    assert!(b.node.handle_received_data(NOW + 2, packet.data.clone()).unwrap().is_some());
    assert!(b.node.handle_received_data(NOW + 2, packet.data.clone()).unwrap().is_some());
}

#[test]
fn datagram_for_nobody_is_passed_over() {
    let (mut a, _) = booted(ordinary());
    let metrics = a.node.metrics();
    assert_eq!(a.node.handle_received_data(NOW, vec![0x5a; 200]), Ok(None));
    assert_eq!(a.node.handle_received_data(NOW, vec![0x5a; 96]), Ok(None));
    assert_eq!(a.node.metrics(), metrics);
}

#[test]
fn restarted_peer_is_noticed() {
    let mut a = side(1, 1000, ordinary());
    let mut b = side(2, 900, ordinary());
    a.node.add_peer(PeerContext::Dht, &a.id, &b.id, b.ip, b.full).unwrap();
    a.node.send_custom_message(NOW, &a.id, &b.id, b"ping").unwrap();
    let ping = one(&mut a);
    deliver(&mut b, &ping, NOW);
    b.node.send_custom_message(NOW, &b.id, &a.id, b"pong").unwrap();
    let pong = one(&mut b);
    // A takes note of B's reinit date, though it refuses the packet
    assert_eq!(
        a.node.handle_received_data(NOW, pong.data),
        Err(AdnlError::Packet(AdnlPacketError::ConfirmationSeqnoTooNew))
    );
    assert_eq!(a.node.peer(&a.id, &b.id).unwrap().sender_state().reinit_date(), 900);
    assert_eq!(a.node.peer(&a.id, &b.id).unwrap().receiver_state().reinit_date(), 1000);

    // B starts anew
    let mut b = side(2, 4000, ordinary());
    a.node.send_custom_message(NOW + 1, &a.id, &b.id, b"still there?").unwrap();
    let packet = one(&mut a);
    assert_eq!(
        b.node.handle_received_data(NOW + 1, packet.data.clone()),
        Err(AdnlError::Packet(AdnlPacketError::DstReinitDateTooOld))
    );
    // B has prodded A with an empty message
    let nop = one(&mut b);
    assert_eq!(&nop.data[..32], a.id.as_slice());
    let received = deliver(&mut a, &nop, NOW + 1);
    assert_eq!(received.messages.last(), Some(&Message::Nop));
    // A has updated its view of B and started its histories anew
    assert_eq!(a.node.peer(&a.id, &b.id).unwrap().sender_state().reinit_date(), 4000);
    assert_eq!(a.node.peer(&a.id, &b.id).unwrap().sender_state().seqno(false), 0);
    assert_eq!(a.node.peer(&a.id, &b.id).unwrap().receiver_state().seqno(false), 1);
    // the next packet is accepted
    a.node.send_custom_message(NOW + 2, &a.id, &b.id, b"welcome back").unwrap();
    let packet = one(&mut a);
    let received = deliver(&mut b, &packet, NOW + 2);
    assert_eq!(received.messages.last(), Some(&Message::Custom { data: b"welcome back".to_vec() }));
}

#[test]
fn idle_transfer_is_given_up() {
    let (mut a, b) = booted(ordinary());
    let part = Message::Part { hash: [5; 32], total_size: 2000, offset: 0, data: vec![1; 500] };
    assert_eq!(a.node.process_message(100, &a.id, &b.id, part), Ok(MessageEvent::Done));
    let part = Message::Part { hash: [6; 32], total_size: 2000, offset: 0, data: vec![1; 500] };
    assert_eq!(a.node.process_message(102, &a.id, &b.id, part), Ok(MessageEvent::Done));
    assert_eq!(a.node.metrics().incoming_transfers_len, 2);
    assert_eq!(a.node.expire_transfers(102), 0);
    assert_eq!(a.node.expire_transfers(103), 1);
    assert_eq!(a.node.metrics().incoming_transfers_len, 1);
    // a part refreshes its transfer
    let part = Message::Part { hash: [6; 32], total_size: 2000, offset: 500, data: vec![1; 500] };
    assert_eq!(a.node.process_message(104, &a.id, &b.id, part), Ok(MessageEvent::Done));
    assert_eq!(a.node.expire_transfers(105), 0);
    assert_eq!(a.node.expire_transfers(107), 1);
    assert_eq!(a.node.metrics().incoming_transfers_len, 0);
}

#[test]
fn failed_transfer_is_forgotten() {
    let (mut a, b) = booted(ordinary());
    let part = Message::Part { hash: [5; 32], total_size: 10, offset: 0, data: vec![1; 10] };
    assert_eq!(
        a.node.process_message(100, &a.id, &b.id, part),
        Err(AdnlError::Transfer(adnl::transfer::TransferError::HashMismatch))
    );
    assert_eq!(a.node.metrics().incoming_transfers_len, 0);
    let part = Message::Part { hash: [5; 32], total_size: 10, offset: 5, data: vec![1; 10] };
    assert_eq!(
        a.node.process_message(100, &a.id, &b.id, part),
        Err(AdnlError::Transfer(adnl::transfer::TransferError::PartOutOfBounds))
    );
    assert_eq!(a.node.metrics().incoming_transfers_len, 0);
}

#[test]
fn part_inside_a_transfer_is_refused() {
    let (mut a, b) = booted(ordinary());
    let inner = Message::Part { hash: [1; 32], total_size: 1, offset: 0, data: vec![1] }.serialize();
    let hash: [u8; 32] = sha2::Sha256::digest(&inner).into();
    let part = Message::Part { hash, total_size: inner.len() as u32, offset: 0, data: inner };
    assert_eq!(
        a.node.process_message(100, &a.id, &b.id, part),
        Err(AdnlError::Node(AdnlNodeError::UnknownMessage))
    );
    let garbage = vec![1u8, 2, 3, 4, 5];
    let hash: [u8; 32] = sha2::Sha256::digest(&garbage).into();
    let part = Message::Part { hash, total_size: 5, offset: 0, data: garbage };
    assert_eq!(
        a.node.process_message(100, &a.id, &b.id, part),
        Err(AdnlError::Node(AdnlNodeError::InvalidPacket))
    );
}
