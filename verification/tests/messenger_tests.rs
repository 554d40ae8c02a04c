use onion_message::blinded_path::{BlindedHop, BlindedPath};
use onion_message::keys::{KeysManager, PublicKey};
use onion_message::messenger::{
    custom_answer, find_peer, is_offers_type, message_read, offers_answer, outbound_buffer_full,
    CustomOnionMessageContents,
    CustomOnionMessageHandler, DecodeError, Init, InitFeatures, MessageRouter, OffersMessage,
    OnionMessage, OnionMessageContents, OnionMessenger, Packet, PeerBuffer,
};
use onion_message::route::{
    create_onion_message, effective_route, first_hop, peel_onion_message, planned_records_fit,
    resolve_path, Destination, OnionMessagePath, PeeledOnion, SendError,
};
use onion_message::test_utils::{
    create_nodes, pass_along_path, TestCustomMessage, TestCustomMessageHandler, TestMessageRouter,
    TestOffersMessageHandler,
};

struct UnknownMessage {}

impl CustomOnionMessageContents for UnknownMessage {
    fn tlv_type(&self) -> u64 {
        5000
    }

    fn write(&self) -> Vec<u8> {
        vec![1, 2, 3]
    }
}

fn supporting() -> Init {
    let mut features = InitFeatures::empty();
    features.set_onion_messages_optional();
    Init { features }
}

fn direct(to: PublicKey) -> OnionMessagePath {
    OnionMessagePath { intermediate_nodes: vec![], destination: Destination::Node(to) }
}

fn response() -> OnionMessageContents<TestCustomMessage> {
    OnionMessageContents::Custom(TestCustomMessage::Response)
}

#[test]
fn nodes_are_created_in_a_connected_line() {
    let mut nodes = create_nodes(3).unwrap();
    let ids: Vec<PublicKey> = nodes.iter().map(|node| node.get_node_pk()).collect();
    assert_ne!(ids[0], ids[1]);
    assert_ne!(ids[1], ids[2]);
    assert_eq!(ids[0], KeysManager::new(&[0u8; 32]).unwrap().get_node_id());
    assert_eq!(nodes[0].messenger.connected_peers(), vec![ids[1]]);
    assert_eq!(nodes[1].messenger.connected_peers(), vec![ids[0], ids[2]]);
    assert_eq!(nodes[2].messenger.connected_peers(), vec![ids[1]]);
    assert!(nodes[1].messenger.release_pending_msgs().get(&ids[0]).unwrap().is_empty());
}

#[test]
fn a_path_resolves_to_its_hops() {
    let a = PublicKey { bytes: [2u8; 33] };
    let b = PublicKey { bytes: [3u8; 33] };
    let path = OnionMessagePath { intermediate_nodes: vec![a], destination: Destination::Node(b) };
    let hops = resolve_path(&path);
    assert_eq!(hops.len(), 2);
    assert_eq!((hops[0].node_id, hops[0].key, hops[0].encrypted_payload.clone()), (a, a, None));
    assert_eq!((hops[1].node_id, hops[1].key, hops[1].encrypted_payload.clone()), (b, b, None));
    assert_eq!(first_hop(&path), a);
    assert_eq!(path.destination.num_hops(), 1);

    let blinded = BlindedPath {
        introduction_node_id: b,
        blinding_point: PublicKey { bytes: [4u8; 33] },
        blinded_hops: vec![
            BlindedHop { blinded_node_id: PublicKey { bytes: [5u8; 33] }, encrypted_payload: vec![1] },
            BlindedHop { blinded_node_id: PublicKey { bytes: [6u8; 33] }, encrypted_payload: vec![2] },
        ],
    };
    let path = OnionMessagePath {
        intermediate_nodes: vec![a],
        destination: Destination::BlindedPath(blinded.clone()),
    };
    let hops = resolve_path(&path);
    assert_eq!(hops.len(), 3);
    assert_eq!(hops[1].node_id, b);
    assert_eq!(hops[1].key, PublicKey { bytes: [5u8; 33] });
    assert_eq!(hops[1].encrypted_payload, Some(vec![1]));
    assert_eq!(hops[2].node_id, PublicKey { bytes: [6u8; 33] });
    assert_eq!(hops[2].key, PublicKey { bytes: [6u8; 33] });
    assert_eq!(hops[2].encrypted_payload, Some(vec![2]));
    assert_eq!(path.destination.num_hops(), 2);

    let path = OnionMessagePath {
        intermediate_nodes: vec![],
        destination: Destination::BlindedPath(blinded),
    };
    assert_eq!(first_hop(&path), b);
}

#[test]
fn a_sent_message_takes_1401_bytes_on_the_wire() {
    let mut nodes = create_nodes(2).unwrap();
    let to = nodes[1].get_node_pk();
    nodes[0].messenger.send_onion_message(direct(to), response(), None).unwrap();
    let released = nodes[0].messenger.release_pending_msgs();
    let queue = released.get(&to).unwrap();
    assert_eq!(queue.len(), 1);
    assert_eq!(queue[0].onion_routing_packet.version, 0);
    assert_eq!(queue[0].onion_routing_packet.hop_data.len(), 1300);
    assert_eq!(33 + 2 + 1 + 33 + queue[0].onion_routing_packet.hop_data.len() + 32, 1401);
}

#[test]
fn the_buffer_of_a_peer_fills_at_its_limit() {
    let peer = PublicKey { bytes: [2u8; 33] };
    let other = PublicKey { bytes: [3u8; 33] };
    let message = OnionMessage {
        blinding_point: peer,
        onion_routing_packet: Packet {
            version: 0,
            public_key: peer,
            hop_data: vec![0; 1300],
            hmac: [0; 32],
        },
    };
    let mut buffers = vec![
        PeerBuffer { peer: other, messages: vec![message.clone(); 200] },
        PeerBuffer { peer, messages: vec![] },
    ];
    assert_eq!(find_peer(&buffers, &peer), Some(1));
    assert_eq!(find_peer(&buffers, &other), Some(0));
    assert_eq!(find_peer(&buffers, &PublicKey { bytes: [4u8; 33] }), None);
    assert!(outbound_buffer_full(&buffers, &other));
    assert!(!outbound_buffer_full(&buffers, &peer));
    assert!(!outbound_buffer_full(&buffers, &PublicKey { bytes: [4u8; 33] }));
    buffers[1].messages = vec![message.clone(); 187];
    assert!(!outbound_buffer_full(&buffers, &peer));
    buffers[1].messages = vec![message.clone(); 188];
    assert!(outbound_buffer_full(&buffers, &peer));

    // 7 big messages take 230083 bytes, 8 take 262952.
    let big = OnionMessage {
        blinding_point: peer,
        onion_routing_packet: Packet {
            version: 0,
            public_key: peer,
            hop_data: vec![0; 32768],
            hmac: [0; 32],
        },
    };
    buffers[1].messages = vec![big.clone(); 7];
    assert!(!outbound_buffer_full(&buffers, &peer));
    buffers[1].messages = vec![big; 8];
    assert!(outbound_buffer_full(&buffers, &peer));
}

#[test]
fn released_messages_come_in_the_order_sent() {
    let mut nodes = create_nodes(2).unwrap();
    let to = nodes[1].get_node_pk();
    nodes[0].messenger.send_onion_message(direct(to), response(), None).unwrap();
    nodes[0]
        .messenger
        .send_onion_message(direct(to), OnionMessageContents::Custom(TestCustomMessage::Request), None)
        .unwrap();
    let released = nodes[0].messenger.release_pending_msgs();
    let queue = released.get(&to).unwrap().clone();
    assert_eq!(queue.len(), 2);
    assert_ne!(queue[0], queue[1]);

    // Nothing waits after the release; the peer is still connected.
    let again = nodes[0].messenger.release_pending_msgs();
    assert_eq!(again.get(&to).map(|queue| queue.len()), Some(0));
    assert!(again.get(&nodes[0].get_node_pk()).is_none());

    nodes[1].messenger.custom_handler.expect_message(TestCustomMessage::Response);
    nodes[1].messenger.custom_handler.expect_message(TestCustomMessage::Request);
    let from = nodes[0].get_node_pk();
    nodes[1].messenger.handle_onion_message(&from, &queue[0]);
    nodes[1].messenger.handle_onion_message(&from, &queue[1]);
    assert!(nodes[1].messenger.custom_handler.is_satisfied());
}

#[test]
fn sending_to_a_peer_that_is_not_connected_fails() {
    let mut nodes = create_nodes(3).unwrap();
    let far = nodes[2].get_node_pk();
    let err = nodes[0].messenger.send_onion_message(direct(far), response(), None).unwrap_err();
    assert_eq!(err, SendError::InvalidFirstHop);
}

#[test]
fn a_peer_without_the_feature_gets_no_buffer() {
    let mut nodes = create_nodes(1).unwrap();
    let peer = KeysManager::new(&[9u8; 32]).unwrap().get_node_id();
    let plain = Init { features: InitFeatures::empty() };
    assert!(!plain.features.supports_onion_messages());
    assert!(supporting().features.supports_onion_messages());
    nodes[0].messenger.peer_connected(&peer, &plain, true).unwrap();
    assert!(nodes[0].messenger.connected_peers().is_empty());
    let err = nodes[0].messenger.send_onion_message(direct(peer), response(), None).unwrap_err();
    assert_eq!(err, SendError::InvalidFirstHop);

    nodes[0].messenger.peer_connected(&peer, &supporting(), true).unwrap();
    nodes[0].messenger.send_onion_message(direct(peer), response(), None).unwrap();
    assert_eq!(nodes[0].messenger.release_pending_msgs().get(&peer).unwrap().len(), 1);
}

#[test]
fn connecting_again_and_disconnecting_drop_what_waits() {
    let mut nodes = create_nodes(2).unwrap();
    let to = nodes[1].get_node_pk();
    nodes[0].messenger.send_onion_message(direct(to), response(), None).unwrap();
    nodes[0].messenger.peer_connected(&to, &supporting(), false).unwrap();
    assert_eq!(nodes[0].messenger.connected_peers(), vec![to]);
    assert_eq!(nodes[0].messenger.release_pending_msgs().get(&to).unwrap().len(), 0);

    nodes[0].messenger.send_onion_message(direct(to), response(), None).unwrap();
    nodes[0].messenger.peer_disconnected(&to);
    assert!(nodes[0].messenger.connected_peers().is_empty());
    assert!(nodes[0].messenger.release_pending_msgs().get(&to).is_none());
    nodes[0].messenger.peer_disconnected(&to);
    assert!(nodes[0].messenger.connected_peers().is_empty());
}

#[test]
fn a_failed_send_queues_nothing() {
    let mut nodes = create_nodes(2).unwrap();
    let to = nodes[1].get_node_pk();
    let hops = vec![to; 400];
    let path = OnionMessagePath { intermediate_nodes: hops, destination: Destination::Node(to) };
    assert_eq!(
        nodes[0].messenger.send_onion_message(path, response(), None).unwrap_err(),
        SendError::TooBigPacket
    );
    assert_eq!(nodes[0].messenger.release_pending_msgs().get(&to).unwrap().len(), 0);
}

#[test]
fn a_key_that_is_no_point_fails_the_send() {
    let mut nodes = create_nodes(2).unwrap();
    let bad = PublicKey { bytes: [0u8; 33] };
    nodes[0].messenger.peer_connected(&bad, &supporting(), true).unwrap();
    let err = nodes[0].messenger.send_onion_message(direct(bad), response(), None).unwrap_err();
    assert_eq!(err, SendError::Secp256k1);
}

#[test]
fn a_path_that_the_sender_cannot_advance_fails_the_send() {
    let mut nodes = create_nodes(2).unwrap();
    let own = nodes[0].get_node_pk();
    let to = nodes[1].get_node_pk();
    let path = BlindedPath {
        introduction_node_id: own,
        blinding_point: to,
        blinded_hops: vec![
            BlindedHop { blinded_node_id: own, encrypted_payload: vec![0; 59] },
            BlindedHop { blinded_node_id: to, encrypted_payload: vec![0; 16] },
        ],
    };
    let path = OnionMessagePath { intermediate_nodes: vec![], destination: Destination::BlindedPath(path) };
    let err = nodes[0].messenger.send_onion_message(path, response(), None).unwrap_err();
    assert_eq!(err, SendError::BlindedPathAdvanceFailed);
}

#[test]
fn the_message_type_is_checked_before_the_path() {
    let mut nodes = create_nodes(2).unwrap();
    let to = nodes[1].get_node_pk();
    let path = BlindedPath {
        introduction_node_id: to,
        blinding_point: to,
        blinded_hops: vec![BlindedHop { blinded_node_id: to, encrypted_payload: vec![] }],
    };
    let path = OnionMessagePath { intermediate_nodes: vec![], destination: Destination::BlindedPath(path) };
    let err = nodes[0]
        .messenger
        .send_encoded_message(path.clone(), 63, &vec![1], None)
        .unwrap_err();
    assert_eq!(err, SendError::InvalidMessage);
    let err = nodes[0].messenger.send_encoded_message(path, 64, &vec![1], None).unwrap_err();
    assert_eq!(err, SendError::TooFewBlindedHops);
    for reserved in [0u64, 1, 2, 4, 62, 63] {
        let err = nodes[0]
            .messenger
            .send_encoded_message(direct(to), reserved, &vec![], None)
            .unwrap_err();
        assert_eq!(err, SendError::InvalidMessage);
    }
    nodes[0].messenger.send_encoded_message(direct(to), 64, &vec![], None).unwrap();
}

#[test]
fn a_short_blinded_path_behind_intermediate_nodes_is_rejected() {
    let mut nodes = create_nodes(3).unwrap();
    let mut blinded_path = BlindedPath::new_for_message(
        &[nodes[1].get_node_pk(), nodes[2].get_node_pk()],
        &mut nodes[2].messenger.keys_manager,
    )
    .unwrap();
    blinded_path.blinded_hops.remove(0);
    let path = OnionMessagePath {
        intermediate_nodes: vec![nodes[1].get_node_pk()],
        destination: Destination::BlindedPath(blinded_path),
    };
    let err = nodes[0].messenger.send_onion_message(path, response(), None).unwrap_err();
    assert_eq!(err, SendError::TooFewBlindedHops);
}

#[test]
fn a_message_that_does_not_verify_is_dropped_in_silence() {
    let mut nodes = create_nodes(3).unwrap();
    let path = OnionMessagePath {
        intermediate_nodes: vec![nodes[1].get_node_pk()],
        destination: Destination::Node(nodes[2].get_node_pk()),
    };
    nodes[0].messenger.send_onion_message(path, response(), None).unwrap();
    let released = nodes[0].messenger.release_pending_msgs();
    let message = released.get(&nodes[1].get_node_pk()).unwrap()[0].clone();
    let from = nodes[0].get_node_pk();
    let next = nodes[2].get_node_pk();

    let mut corrupt = message.clone();
    corrupt.onion_routing_packet.hop_data[5] ^= 1;
    nodes[1].messenger.handle_onion_message(&from, &corrupt);
    let mut wrong_tag = message.clone();
    wrong_tag.onion_routing_packet.hmac[31] ^= 1;
    nodes[1].messenger.handle_onion_message(&from, &wrong_tag);
    let mut wrong_version = message.clone();
    wrong_version.onion_routing_packet.version = 1;
    nodes[1].messenger.handle_onion_message(&from, &wrong_version);
    let mut wrong_point = message.clone();
    wrong_point.blinding_point = from;
    nodes[1].messenger.handle_onion_message(&from, &wrong_point);
    // The message is not for the last node either.
    nodes[2].messenger.handle_onion_message(&from, &message);
    assert_eq!(nodes[1].messenger.release_pending_msgs().get(&next).unwrap().len(), 0);
    assert_eq!(nodes[1].messenger.release_pending_msgs().get(&from).unwrap().len(), 0);
    assert!(peel_onion_message(&nodes[1].messenger.keys_manager, &corrupt).is_none());

    nodes[1].messenger.handle_onion_message(&from, &message);
    assert_eq!(nodes[1].messenger.release_pending_msgs().get(&next).unwrap().len(), 1);
}

#[test]
fn a_forward_to_a_peer_that_left_is_dropped() {
    let mut nodes = create_nodes(3).unwrap();
    let path = OnionMessagePath {
        intermediate_nodes: vec![nodes[1].get_node_pk()],
        destination: Destination::Node(nodes[2].get_node_pk()),
    };
    nodes[0].messenger.send_onion_message(path, response(), None).unwrap();
    let last = nodes[2].get_node_pk();
    nodes[1].messenger.peer_disconnected(&last);
    assert!(!pass_along_path(&mut nodes));
    assert!(nodes[2].messenger.custom_handler.is_satisfied());
}

#[test]
fn a_forward_to_a_full_buffer_is_dropped() {
    let mut nodes = create_nodes(3).unwrap();
    let middle = nodes[1].get_node_pk();
    let last = nodes[2].get_node_pk();
    for _ in 0..188 {
        nodes[1].messenger.send_onion_message(direct(last), response(), None).unwrap();
    }
    let path = OnionMessagePath { intermediate_nodes: vec![middle], destination: Destination::Node(last) };
    nodes[0].messenger.send_onion_message(path, response(), None).unwrap();
    let released = nodes[0].messenger.release_pending_msgs();
    let from = nodes[0].get_node_pk();
    nodes[1].messenger.handle_onion_message(&from, &released.get(&middle).unwrap()[0]);
    assert_eq!(nodes[1].messenger.release_pending_msgs().get(&last).unwrap().len(), 188);
}

#[test]
fn each_hop_hands_on_a_packet_of_the_size_it_received() {
    let mut nodes = create_nodes(4).unwrap();
    let ids: Vec<PublicKey> = nodes.iter().map(|node| node.get_node_pk()).collect();
    let path = OnionMessagePath {
        intermediate_nodes: vec![ids[1], ids[2]],
        destination: Destination::Node(ids[3]),
    };
    nodes[0].messenger.send_onion_message(path, response(), None).unwrap();
    nodes[3].messenger.custom_handler.expect_message(TestCustomMessage::Response);
    for i in 0..3 {
        let released = nodes[i].messenger.release_pending_msgs();
        let queue = released.get(&ids[i + 1]).unwrap();
        assert_eq!(queue.len(), 1);
        assert_eq!(queue[0].onion_routing_packet.hop_data.len(), 1300);
        match peel_onion_message(&nodes[i + 1].messenger.keys_manager, &queue[0]).unwrap() {
            PeeledOnion::Forward { next_node_id, message } => {
                assert!(i < 2);
                assert_eq!(next_node_id, ids[i + 2]);
                assert_eq!(message.onion_routing_packet.hop_data.len(), 1300);
            },
            PeeledOnion::Receive { tlv_type, bytes, reply_path, path_id } => {
                assert_eq!(i, 2);
                assert_eq!(tlv_type, 4343);
                assert_eq!(bytes, vec![43u8; 32]);
                assert_eq!(reply_path, None);
                assert_eq!(path_id, None);
            },
        }
        nodes[i + 1].messenger.handle_onion_message(&ids[i], &queue[0]);
    }
    assert!(nodes[3].messenger.custom_handler.is_satisfied());
}

#[test]
fn a_long_route_travels_in_big_packets() {
    let mut nodes = create_nodes(25).unwrap();
    let ids: Vec<PublicKey> = nodes.iter().map(|node| node.get_node_pk()).collect();
    let path = OnionMessagePath {
        intermediate_nodes: ids[1..24].to_vec(),
        destination: Destination::Node(ids[24]),
    };
    nodes[0].messenger.send_onion_message(path, response(), None).unwrap();
    let released = nodes[0].messenger.release_pending_msgs();
    let message = released.get(&ids[1]).unwrap()[0].clone();
    assert_eq!(message.onion_routing_packet.hop_data.len(), 32768);
    nodes[1].messenger.handle_onion_message(&ids[0], &message);
    let released = nodes[1].messenger.release_pending_msgs();
    assert_eq!(released.get(&ids[2]).unwrap()[0].onion_routing_packet.hop_data.len(), 32768);
}

#[test]
fn an_unknown_message_type_is_no_message() {
    let mut nodes = create_nodes(2).unwrap();
    let to = nodes[1].get_node_pk();
    nodes[0]
        .messenger
        .send_onion_message(direct(to), OnionMessageContents::Custom(UnknownMessage {}), None)
        .unwrap();
    assert!(pass_along_path(&mut nodes));
    assert!(nodes[1].messenger.custom_handler.is_satisfied());
    assert_eq!(nodes[1].messenger.release_pending_msgs().get(&nodes[0].get_node_pk()).unwrap().len(), 0);
}

#[test]
fn offers_messages_go_to_the_offers_handler() {
    assert!(is_offers_type(64) && is_offers_type(66) && is_offers_type(68));
    assert!(!is_offers_type(65) && !is_offers_type(63) && !is_offers_type(4242));
    let mut nodes = create_nodes(2).unwrap();
    let to = nodes[1].get_node_pk();
    let offers: OnionMessageContents<TestCustomMessage> =
        OnionMessageContents::Offers(OffersMessage { tlv_type: 64, bytes: vec![1, 2, 3] });
    assert_eq!(offers.tlv_type(), 64);
    assert_eq!(offers.write(), vec![1, 2, 3]);
    nodes[0].messenger.send_onion_message(direct(to), offers, None).unwrap();
    assert!(pass_along_path(&mut nodes));
    // The custom handler saw nothing.
    assert!(nodes[1].messenger.custom_handler.is_satisfied());
}

#[test]
fn a_request_without_a_reply_path_gets_no_answer() {
    let mut nodes = create_nodes(2).unwrap();
    let to = nodes[1].get_node_pk();
    nodes[0]
        .messenger
        .send_onion_message(direct(to), OnionMessageContents::Custom(TestCustomMessage::Request), None)
        .unwrap();
    nodes[1].messenger.custom_handler.expect_message(TestCustomMessage::Request);
    assert!(pass_along_path(&mut nodes));
    assert!(nodes[1].messenger.custom_handler.is_satisfied());
    let from = nodes[0].get_node_pk();
    assert_eq!(nodes[1].messenger.release_pending_msgs().get(&from).unwrap().len(), 0);
}

#[test]
fn the_handler_notes_what_it_did_not_expect() {
    let mut handler = TestCustomMessageHandler::new();
    assert!(handler.is_satisfied());
    handler.expect_message(TestCustomMessage::Request);
    assert!(!handler.is_satisfied());
    assert_eq!(handler.handle_custom_message(TestCustomMessage::Request), Some(TestCustomMessage::Response));
    assert!(handler.is_satisfied());
    assert_eq!(handler.handle_custom_message(TestCustomMessage::Response), None);
    assert!(!handler.is_satisfied());

    let mut handler = TestCustomMessageHandler::new();
    handler.expect_message(TestCustomMessage::Request);
    handler.handle_custom_message(TestCustomMessage::Response);
    assert!(!handler.is_satisfied());
}

#[test]
fn the_handler_reads_its_two_messages() {
    let handler = TestCustomMessageHandler::new();
    assert_eq!(handler.read_custom_message(4242, &[42u8; 32]), Ok(Some(TestCustomMessage::Request)));
    assert_eq!(handler.read_custom_message(4343, &[43u8; 32]), Ok(Some(TestCustomMessage::Response)));
    assert_eq!(handler.read_custom_message(4242, &[43u8; 32]), Err(DecodeError::InvalidValue));
    assert_eq!(handler.read_custom_message(4343, &[43u8; 31]), Err(DecodeError::InvalidValue));
    assert_eq!(handler.read_custom_message(5000, &[1, 2, 3]), Ok(None));
    assert_eq!(TestCustomMessage::Request.tlv_type(), 4242);
    assert_eq!(TestCustomMessage::Response.tlv_type(), 4343);
    assert_eq!(TestCustomMessage::Request.write(), vec![42u8; 32]);
    assert_eq!(TestCustomMessage::Response.write(), vec![43u8; 32]);
}

#[test]
fn the_test_router_adds_nothing() {
    let router = TestMessageRouter {};
    let to = PublicKey { bytes: [2u8; 33] };
    let path = router.find_path(to, vec![to], Destination::Node(to)).unwrap();
    assert_eq!(path, direct(to));
}

#[test]
fn the_same_secrets_make_the_same_message() {
    let sender = KeysManager::new(&[1u8; 32]).unwrap();
    let to = KeysManager::new(&[2u8; 32]).unwrap();
    let make = |session: u8, seed: u8| {
        create_onion_message(
            &sender,
            direct(to.get_node_id()),
            4343,
            &vec![43u8; 32],
            None,
            &[session; 32],
            &[seed; 32],
        )
        .unwrap()
    };
    let (peer, message) = make(5, 6);
    assert_eq!(peer, to.get_node_id());
    assert_eq!(make(5, 6).1, message);
    assert_ne!(make(7, 6).1, message);
    assert_ne!(make(5, 8).1.onion_routing_packet.hop_data, message.onion_routing_packet.hop_data);
    match peel_onion_message(&to, &message).unwrap() {
        PeeledOnion::Receive { tlv_type, bytes, .. } => {
            assert_eq!(tlv_type, 4343);
            assert_eq!(bytes, vec![43u8; 32]);
        },
        PeeledOnion::Forward { .. } => panic!("the message is for this node"),
    }
    assert!(peel_onion_message(&sender, &message).is_none());
}

#[test]
fn an_invalid_session_secret_makes_no_message() {
    let sender = KeysManager::new(&[1u8; 32]).unwrap();
    let to = KeysManager::new(&[2u8; 32]).unwrap();
    let made = create_onion_message(
        &sender,
        direct(to.get_node_id()),
        4343,
        &vec![],
        None,
        &[0u8; 32],
        &[1u8; 32],
    );
    assert_eq!(made.err(), Some(SendError::Secp256k1));
}

#[test]
fn a_messenger_starts_without_peers() {
    let keys = KeysManager::new(&[1u8; 32]).unwrap();
    let id = keys.get_node_id();
    let mut messenger = OnionMessenger::new(
        keys,
        TestMessageRouter {},
        TestOffersMessageHandler {},
        TestCustomMessageHandler::new(),
    );
    assert_eq!(messenger.get_node_id(), id);
    assert!(messenger.connected_peers().is_empty());
    assert!(messenger.release_pending_msgs().buffers.is_empty());
}

#[test]
fn the_room_of_the_records_is_planned_from_the_hops() {
    let to = PublicKey { bytes: [2u8; 33] };
    let route = |hops: usize| {
        resolve_path(&OnionMessagePath {
            intermediate_nodes: vec![to; hops],
            destination: Destination::Node(to),
        })
    };
    // 317 hops of 103 bytes leave 117 bytes: 70 for an empty message, with 47 to spare.
    assert!(planned_records_fit(&route(317), false, 0, None));
    assert!(planned_records_fit(&route(317), false, 47, None));
    assert!(!planned_records_fit(&route(317), false, 48, None));
    assert!(planned_records_fit(&route(317), false, 37, Some(0)));
    assert!(!planned_records_fit(&route(317), false, 38, Some(0)));
    assert!(!planned_records_fit(&route(318), false, 0, None));
    assert!(planned_records_fit(&route(0), false, 32698, None));
    assert!(!planned_records_fit(&route(0), false, 32699, None));
    assert!(!planned_records_fit(&route(0), false, usize::MAX, Some(usize::MAX)));

    let blinded = BlindedPath {
        introduction_node_id: to,
        blinding_point: to,
        blinded_hops: vec![
            BlindedHop { blinded_node_id: to, encrypted_payload: vec![0; 59] },
            BlindedHop { blinded_node_id: to, encrypted_payload: vec![0; 16] },
        ],
    };
    let hops = resolve_path(&OnionMessagePath {
        intermediate_nodes: vec![to; 316],
        destination: Destination::BlindedPath(blinded),
    });
    // 315 hops of 103 bytes, one of 146 with the blinding point, one of 103, and the last.
    assert!(planned_records_fit(&hops, true, 4, None));
    assert!(!planned_records_fit(&hops, true, 5, None));
}

#[test]
fn a_route_that_is_too_long_is_rejected_before_its_keys_are_looked_at() {
    let mut nodes = create_nodes(2).unwrap();
    let bad = PublicKey { bytes: [0u8; 33] };
    let path = OnionMessagePath { intermediate_nodes: vec![bad; 400], destination: Destination::Node(bad) };
    let err = nodes[0].messenger.send_onion_message(path, response(), None).unwrap_err();
    assert_eq!(err, SendError::TooBigPacket);
    let path = OnionMessagePath { intermediate_nodes: vec![bad; 317], destination: Destination::Node(bad) };
    nodes[0].messenger.peer_connected(&bad, &supporting(), true).unwrap();
    let err = nodes[0].messenger.send_onion_message(path, response(), None).unwrap_err();
    assert_eq!(err, SendError::Secp256k1);
}

#[test]
fn the_longest_route_to_a_node_is_sent() {
    let mut nodes = create_nodes(2).unwrap();
    let to = nodes[1].get_node_pk();
    let path = OnionMessagePath { intermediate_nodes: vec![to; 317], destination: Destination::Node(to) };
    nodes[0].messenger.send_onion_message(path, response(), None).unwrap();
    let released = nodes[0].messenger.release_pending_msgs();
    assert_eq!(released.get(&to).unwrap()[0].onion_routing_packet.hop_data.len(), 32768);
}

#[test]
fn the_sender_skips_its_own_hop() {
    let first = KeysManager::new(&[1u8; 32]).unwrap();
    let second = KeysManager::new(&[2u8; 32]).unwrap();
    let mut third = KeysManager::new(&[3u8; 32]).unwrap();
    let ids = [first.get_node_id(), second.get_node_id(), third.get_node_id()];
    let blinded = BlindedPath::new_for_message(&ids, &mut third).unwrap();
    let path = OnionMessagePath {
        intermediate_nodes: vec![],
        destination: Destination::BlindedPath(blinded.clone()),
    };
    let route = effective_route(&first, path.clone()).unwrap();
    match &route.destination {
        Destination::BlindedPath(advanced) => {
            assert_eq!(advanced.introduction_node_id, ids[1]);
            assert_eq!(advanced.blinded_hops[..], blinded.blinded_hops[1..]);
        },
        Destination::Node(_) => panic!("the destination stays a blinded path"),
    }
    // Sending along the whole path and along the advanced one gives the same message.
    let whole = create_onion_message(&first, path.clone(), 4343, &vec![43; 32], None, &[5; 32], &[6; 32]);
    let trimmed = create_onion_message(&first, route, 4343, &vec![43; 32], None, &[5; 32], &[6; 32]);
    assert_eq!(whole, trimmed);
    assert_eq!(whole.unwrap().0, ids[1]);

    // Another node, or a path behind intermediate nodes, is left as it is.
    assert_eq!(effective_route(&second, path.clone()), Ok(path.clone()));
    let behind = OnionMessagePath { intermediate_nodes: vec![ids[1]], ..path };
    assert_eq!(effective_route(&first, behind.clone()), Ok(behind));
    let direct_path = direct(ids[1]);
    assert_eq!(effective_route(&first, direct_path.clone()), Ok(direct_path));
}

#[test]
fn what_a_handler_cannot_read_is_no_message() {
    assert_eq!(message_read(Ok(Some(TestCustomMessage::Request))), Some(TestCustomMessage::Request));
    assert_eq!(message_read::<TestCustomMessage>(Ok(None)), None);
    assert_eq!(message_read::<TestCustomMessage>(Err(DecodeError::InvalidValue)), None);
}

#[test]
fn an_answer_keeps_its_kind() {
    let offers = OffersMessage { tlv_type: 66, bytes: vec![7, 8] };
    match offers_answer::<TestCustomMessage>(Some(offers.clone())) {
        Some(OnionMessageContents::Offers(message)) => assert_eq!(message, offers),
        _ => panic!("an offers answer stays an offers message"),
    }
    assert!(offers_answer::<TestCustomMessage>(None).is_none());
    match custom_answer(Some(TestCustomMessage::Response)) {
        Some(OnionMessageContents::Custom(message)) => assert_eq!(message, TestCustomMessage::Response),
        _ => panic!("a custom answer stays a custom message"),
    }
    assert!(custom_answer::<TestCustomMessage>(None).is_none());
}

#[test]
fn a_delivery_without_a_reply_path_draws_nothing() {
    let mut nodes = create_nodes(2).unwrap();
    let to = nodes[1].get_node_pk();
    let from = nodes[0].get_node_pk();
    nodes[0]
        .messenger
        .send_onion_message(direct(to), OnionMessageContents::Custom(TestCustomMessage::Request), None)
        .unwrap();
    let released = nodes[0].messenger.release_pending_msgs();
    nodes[1].messenger.custom_handler.expect_message(TestCustomMessage::Request);
    nodes[1].messenger.handle_onion_message(&from, &released.get(&to).unwrap()[0]);
    assert!(nodes[1].messenger.custom_handler.is_satisfied());
    // The receiving node has drawn nothing: its next block is its first.
    let mut fresh = KeysManager::new(&[1u8; 32]).unwrap();
    assert_eq!(
        nodes[1].messenger.keys_manager.get_secure_random_bytes(),
        fresh.get_secure_random_bytes()
    );
}

#[test]
fn an_answer_is_sent_with_two_blocks_of_entropy() {
    let mut nodes = create_nodes(2).unwrap();
    let to = nodes[1].get_node_pk();
    let from = nodes[0].get_node_pk();
    let reply_path = BlindedPath::new_for_message(&[to, from], &mut nodes[0].messenger.keys_manager).unwrap();
    nodes[0]
        .messenger
        .send_onion_message(
            direct(to),
            OnionMessageContents::Custom(TestCustomMessage::Request),
            Some(reply_path),
        )
        .unwrap();
    let released = nodes[0].messenger.release_pending_msgs();
    nodes[1].messenger.custom_handler.expect_message(TestCustomMessage::Request);
    nodes[1].messenger.handle_onion_message(&from, &released.get(&to).unwrap()[0]);
    // The answer waits for the first node, and two blocks were drawn for it.
    assert_eq!(nodes[1].messenger.release_pending_msgs().get(&from).unwrap().len(), 1);
    let mut fresh = KeysManager::new(&[1u8; 32]).unwrap();
    fresh.get_secure_random_bytes();
    fresh.get_secure_random_bytes();
    assert_eq!(
        nodes[1].messenger.keys_manager.get_secure_random_bytes(),
        fresh.get_secure_random_bytes()
    );
}

#[test]
fn a_walk_along_one_node_passes_and_changes_nothing() {
    let mut nodes = create_nodes(1).unwrap();
    let id = nodes[0].get_node_pk();
    assert!(pass_along_path(&mut nodes));
    assert_eq!(nodes.len(), 1);
    assert_eq!(nodes[0].get_node_pk(), id);
    assert!(nodes[0].messenger.custom_handler.is_satisfied());
}

#[test]
fn a_walk_after_a_failed_send_does_not_pass() {
    let mut nodes = create_nodes(3).unwrap();
    let to = nodes[1].get_node_pk();
    let path = OnionMessagePath { intermediate_nodes: vec![to; 400], destination: Destination::Node(to) };
    assert_eq!(
        nodes[0].messenger.send_onion_message(path, response(), None).unwrap_err(),
        SendError::TooBigPacket
    );
    // Something waits at the second node for the third: the walk stops before it gets there.
    let last = nodes[2].get_node_pk();
    nodes[1].messenger.send_onion_message(direct(last), response(), None).unwrap();
    assert!(!pass_along_path(&mut nodes));
    assert_eq!(nodes[1].messenger.release_pending_msgs().get(&last).unwrap().len(), 1);
    assert!(nodes[2].messenger.custom_handler.is_satisfied());
}

#[test]
fn a_walk_stops_where_several_messages_wait() {
    let mut nodes = create_nodes(2).unwrap();
    let to = nodes[1].get_node_pk();
    nodes[0].messenger.send_onion_message(direct(to), response(), None).unwrap();
    nodes[0].messenger.send_onion_message(direct(to), response(), None).unwrap();
    assert!(!pass_along_path(&mut nodes));
    // The first node has released its messages; the second has handled none.
    assert_eq!(nodes[0].messenger.release_pending_msgs().get(&to).unwrap().len(), 0);
    assert!(nodes[1].messenger.custom_handler.is_satisfied());
}

#[test]
fn nodes_start_with_clean_handlers() {
    let nodes = create_nodes(4).unwrap();
    for node in nodes.iter() {
        assert!(node.messenger.custom_handler.is_satisfied());
    }
}
