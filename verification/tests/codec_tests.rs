use onion_message::blinded_path::{advance_path_by_one, BlindedHop, BlindedPath};
use onion_message::bytes::{
    bytes_eq, push_be_u16, push_be_u32, push_be_u64, read_be_u16, read_be_u32, read_be_u64,
};
use onion_message::keys::{KeysManager, PublicKey};
use onion_message::packet::{
    choose_hop_data_len, construct_onion_message_packet, peel_layer, HopRecord, PeelError,
};
use onion_message::payload::{
    decode_control, decode_raw_payload, encode_control, encode_raw_payload, open, read_tlv, seal,
    write_tlv, ControlTlvs, RawPayload,
};
use onion_message::route::SendError;

fn record(len: usize, fill: u8, secret: u8) -> HopRecord {
    HopRecord { payload: vec![fill; len], shared_secret: [secret; 32] }
}

#[test]
fn big_endian_integers() {
    let mut out = vec![0xffu8];
    push_be_u16(&mut out, 0x1234);
    push_be_u32(&mut out, 0x0102_0304);
    push_be_u64(&mut out, 4242);
    assert_eq!(
        out,
        vec![0xff, 0x12, 0x34, 1, 2, 3, 4, 0, 0, 0, 0, 0, 0, 0x10, 0x92]
    );
    assert_eq!(read_be_u16(&out, 1), 0x1234);
    assert_eq!(read_be_u32(&out, 3), 0x0102_0304);
    assert_eq!(read_be_u64(&out, 7), 4242);
    let mut top = Vec::new();
    push_be_u64(&mut top, u64::MAX);
    assert_eq!(top, vec![0xff; 8]);
    assert_eq!(read_be_u64(&top, 0), u64::MAX);
}

#[test]
fn byte_strings_compare_by_content() {
    assert!(bytes_eq(&[1, 2, 3], &[1, 2, 3]));
    assert!(!bytes_eq(&[1, 2, 3], &[1, 2, 4]));
    assert!(!bytes_eq(&[1, 2, 3], &[1, 2]));
    assert!(bytes_eq(&[], &[]));
}

#[test]
fn a_record_is_type_length_value() {
    let mut out = Vec::new();
    write_tlv(&mut out, 4242, &[1, 2, 3]);
    assert_eq!(out, vec![0, 0, 0, 0, 0, 0, 0x10, 0x92, 0, 3, 1, 2, 3]);
    let tlv = read_tlv(&out, 0).unwrap();
    assert_eq!(tlv.tlv_type, 4242);
    assert_eq!(tlv.value, vec![1, 2, 3]);
    assert_eq!(tlv.end, 13);
    assert!(read_tlv(&out, 1).is_none());
    assert!(read_tlv(&out[..12], 0).is_none());
    assert!(read_tlv(&out, 13).is_none());
    assert!(read_tlv(&out, 14).is_none());
}

#[test]
fn packet_size_depends_on_the_size_class_alone() {
    // One record of 1266 bytes of payload takes exactly 1300 bytes.
    assert_eq!(choose_hop_data_len(&vec![record(1266, 1, 1)]), Some(1300));
    assert_eq!(choose_hop_data_len(&vec![record(1267, 1, 1)]), Some(32768));
    assert_eq!(choose_hop_data_len(&vec![record(32734, 1, 1)]), Some(32768));
    assert_eq!(choose_hop_data_len(&vec![record(32735, 1, 1)]), None);
    assert_eq!(choose_hop_data_len(&vec![]), Some(1300));

    let seed = [9u8; 32];
    for hops in 1..6usize {
        for len in [0usize, 1, 50, 200] {
            let records: Vec<HopRecord> =
                (0..hops).map(|i| record(len, i as u8, i as u8 + 1)).collect();
            let packet = construct_onion_message_packet(&records, &seed).unwrap();
            assert_eq!(packet.hop_data.len(), 1300);
        }
    }
    for hops in [7usize, 20, 100] {
        let records: Vec<HopRecord> =
            (0..hops).map(|i| record(200, i as u8, i as u8 + 1)).collect();
        let packet = construct_onion_message_packet(&records, &seed).unwrap();
        assert_eq!(packet.hop_data.len(), 32768);
    }
}

#[test]
fn records_beyond_the_big_packet_build_nothing() {
    let records: Vec<HopRecord> = (0..401usize).map(|i| record(69, 0, (i % 200) as u8 + 1)).collect();
    assert!(construct_onion_message_packet(&records, &[0u8; 32]).is_none());
    // 964 empty records take 32776 bytes, 963 take 32742.
    let records: Vec<HopRecord> = (0..964usize).map(|i| record(0, 0, (i % 200) as u8 + 1)).collect();
    assert!(construct_onion_message_packet(&records, &[0u8; 32]).is_none());
}

#[test]
fn each_hop_peels_its_own_payload() {
    let seed = [9u8; 32];
    let records = vec![record(10, 0xa1, 1), record(0, 0, 2), record(300, 0xa3, 3), record(7, 0xa4, 4)];
    let packet = construct_onion_message_packet(&records, &seed).unwrap();
    let mut hop_data = packet.hop_data;
    let mut hmac = packet.hmac;
    for (i, hop) in records.iter().enumerate() {
        assert_eq!(hop_data.len(), 1300);
        let peeled = peel_layer(&hop.shared_secret, &hop_data, &hmac).unwrap();
        assert_eq!(peeled.payload, hop.payload);
        if i + 1 == records.len() {
            assert_eq!(peeled.next_hmac, [0u8; 32]);
        } else {
            assert_ne!(peeled.next_hmac, [0u8; 32]);
        }
        hop_data = peeled.next_hop_data;
        hmac = peeled.next_hmac;
    }
}

#[test]
fn each_hop_peels_its_own_payload_in_a_big_packet() {
    let seed = [10u8; 32];
    let records: Vec<HopRecord> =
        (0..30usize).map(|i| record(100 + i, i as u8, i as u8 + 1)).collect();
    let packet = construct_onion_message_packet(&records, &seed).unwrap();
    let mut hop_data = packet.hop_data;
    let mut hmac = packet.hmac;
    for hop in records.iter() {
        assert_eq!(hop_data.len(), 32768);
        let peeled = peel_layer(&hop.shared_secret, &hop_data, &hmac).unwrap();
        assert_eq!(peeled.payload, hop.payload);
        hop_data = peeled.next_hop_data;
        hmac = peeled.next_hmac;
    }
}

#[test]
fn a_packet_that_fills_the_hop_data_exactly_round_trips() {
    let seed = [11u8; 32];
    let records = vec![record(600, 1, 1), record(632, 2, 2)];
    assert_eq!(choose_hop_data_len(&records), Some(1300));
    let packet = construct_onion_message_packet(&records, &seed).unwrap();
    let first = peel_layer(&[1u8; 32], &packet.hop_data, &packet.hmac).unwrap();
    assert_eq!(first.payload, vec![1u8; 600]);
    let second = peel_layer(&[2u8; 32], &first.next_hop_data, &first.next_hmac).unwrap();
    assert_eq!(second.payload, vec![2u8; 632]);
}

#[test]
fn peeling_rejects_what_it_cannot_verify() {
    let seed = [9u8; 32];
    let records = vec![record(10, 0xa1, 1), record(20, 0xa2, 2)];
    let packet = construct_onion_message_packet(&records, &seed).unwrap();

    let wrong_secret = peel_layer(&[2u8; 32], &packet.hop_data, &packet.hmac);
    assert_eq!(wrong_secret.err(), Some(PeelError::BadHmac));

    let mut corrupt = packet.hop_data.clone();
    corrupt[700] ^= 1;
    assert_eq!(peel_layer(&[1u8; 32], &corrupt, &packet.hmac).err(), Some(PeelError::BadHmac));

    let mut tag = packet.hmac;
    tag[0] ^= 0x80;
    assert_eq!(peel_layer(&[1u8; 32], &packet.hop_data, &tag).err(), Some(PeelError::BadHmac));

    let short = packet.hop_data[..1299].to_vec();
    assert_eq!(peel_layer(&[1u8; 32], &short, &packet.hmac).err(), Some(PeelError::Malformed));
    assert_eq!(peel_layer(&[1u8; 32], &vec![], &packet.hmac).err(), Some(PeelError::Malformed));
}

#[test]
fn instructions_round_trip() {
    let next = PublicKey { bytes: [2u8; 33] };
    let point = PublicKey { bytes: [3u8; 33] };
    let cases = vec![
        ControlTlvs::Forward { next_node_id: next, next_blinding_override: None },
        ControlTlvs::Forward { next_node_id: next, next_blinding_override: Some(point) },
        ControlTlvs::Receive { path_id: None },
        ControlTlvs::Receive { path_id: Some([7u8; 32]) },
    ];
    let lengths = [43usize, 86, 0, 42];
    for (control, len) in cases.iter().zip(lengths.iter()) {
        let bytes = encode_control(control);
        assert_eq!(bytes.len(), *len);
        assert_eq!(decode_control(&bytes), Some(*control));
    }
    let forward = encode_control(&cases[0]);
    assert_eq!(&forward[0..10], &[0, 0, 0, 0, 0, 0, 0, 4, 0, 33]);
    assert_eq!(&forward[10..], &[2u8; 33]);
}

#[test]
fn instructions_that_are_none_are_rejected() {
    let mut unknown = Vec::new();
    write_tlv(&mut unknown, 10, &[1]);
    assert_eq!(decode_control(&unknown), None);
    let mut short_key = Vec::new();
    write_tlv(&mut short_key, 4, &[2u8; 32]);
    assert_eq!(decode_control(&short_key), None);
    let mut trailing = encode_control(&ControlTlvs::Receive { path_id: Some([7u8; 32]) });
    trailing.push(0);
    assert_eq!(decode_control(&trailing), None);
    assert_eq!(decode_control(&[0u8; 5]), None);
}

#[test]
fn sealed_instructions_open_with_the_same_secret_only() {
    let plain = vec![1u8, 2, 3, 4, 5];
    let sealed = seal(&plain, &[8u8; 32]);
    assert_eq!(sealed.len(), plain.len() + 16);
    assert_ne!(&sealed[..5], &plain[..]);
    assert_eq!(open(&sealed, &[8u8; 32]), Some(plain));
    assert_eq!(open(&sealed, &[9u8; 32]), None);
    let mut corrupt = sealed.clone();
    corrupt[0] ^= 1;
    assert_eq!(open(&corrupt, &[8u8; 32]), None);
    assert_eq!(open(&sealed[..15], &[8u8; 32]), None);
    assert_eq!(open(&seal(&[], &[8u8; 32]), &[8u8; 32]), Some(vec![]));
}

#[test]
fn payloads_round_trip() {
    let full = RawPayload {
        reply_path: Some(vec![1, 2, 3]),
        sealed: vec![4, 5],
        message: Some((4242, vec![6; 32])),
    };
    let bytes = encode_raw_payload(&full).unwrap();
    assert_eq!(bytes.len(), 13 + 12 + 42);
    let read = decode_raw_payload(&bytes).unwrap();
    assert_eq!(read.reply_path, full.reply_path);
    assert_eq!(read.sealed, full.sealed);
    assert_eq!(read.message, full.message);

    let forward = RawPayload { reply_path: None, sealed: vec![4, 5], message: None };
    let bytes = encode_raw_payload(&forward).unwrap();
    assert_eq!(bytes, vec![0, 0, 0, 0, 0, 0, 0, 4, 0, 2, 4, 5]);
    let read = decode_raw_payload(&bytes).unwrap();
    assert_eq!(read.reply_path, None);
    assert_eq!(read.sealed, vec![4, 5]);
    assert_eq!(read.message, None);
}

#[test]
fn payloads_that_cannot_be_written_or_read() {
    let reserved = RawPayload { reply_path: None, sealed: vec![], message: Some((63, vec![])) };
    assert!(encode_raw_payload(&reserved).is_none());
    let long = RawPayload { reply_path: None, sealed: vec![0; 65536], message: None };
    assert!(encode_raw_payload(&long).is_none());
    let longest = RawPayload { reply_path: None, sealed: vec![0; 65535], message: None };
    assert!(encode_raw_payload(&longest).is_some());

    assert!(decode_raw_payload(&[]).is_none());
    let mut no_instructions = Vec::new();
    write_tlv(&mut no_instructions, 4242, &[1]);
    assert!(decode_raw_payload(&no_instructions).is_none());
    let mut reserved_message = Vec::new();
    write_tlv(&mut reserved_message, 4, &[1]);
    write_tlv(&mut reserved_message, 63, &[1]);
    assert!(decode_raw_payload(&reserved_message).is_none());
    let mut two_messages = Vec::new();
    write_tlv(&mut two_messages, 4, &[1]);
    write_tlv(&mut two_messages, 64, &[1]);
    write_tlv(&mut two_messages, 65, &[1]);
    assert!(decode_raw_payload(&two_messages).is_none());
}

#[test]
fn blinded_paths_round_trip_as_bytes() {
    let path = BlindedPath {
        introduction_node_id: PublicKey { bytes: [2u8; 33] },
        blinding_point: PublicKey { bytes: [3u8; 33] },
        blinded_hops: vec![
            BlindedHop { blinded_node_id: PublicKey { bytes: [4u8; 33] }, encrypted_payload: vec![9; 5] },
            BlindedHop { blinded_node_id: PublicKey { bytes: [5u8; 33] }, encrypted_payload: vec![] },
        ],
    };
    let bytes = path.write().unwrap();
    assert_eq!(bytes.len(), 67 + 35 + 5 + 35);
    assert_eq!(bytes[66], 2);
    assert_eq!(&bytes[100..102], &[0, 5]);
    assert_eq!(BlindedPath::read(&bytes), Some(path.clone()));
    assert_eq!(BlindedPath::read(&bytes[..bytes.len() - 1]), None);
    let mut trailing = bytes.clone();
    trailing.push(0);
    assert_eq!(BlindedPath::read(&trailing), None);
    assert_eq!(BlindedPath::read(&bytes[..66]), None);

    let empty = BlindedPath { blinded_hops: vec![], ..path.clone() };
    assert_eq!(BlindedPath::read(&empty.write().unwrap()), Some(empty));

    let hop = path.blinded_hops[0].clone();
    let many = BlindedPath { blinded_hops: vec![hop.clone(); 256], ..path.clone() };
    assert!(many.write().is_none());
    let most = BlindedPath { blinded_hops: vec![hop; 255], ..path.clone() };
    assert_eq!(BlindedPath::read(&most.write().unwrap()), Some(most));
}

#[test]
fn a_blinded_path_has_a_hop_for_each_node() {
    let mut creator = KeysManager::new(&[3u8; 32]).unwrap();
    let ids: Vec<PublicKey> =
        (1..4u8).map(|i| KeysManager::new(&[i; 32]).unwrap().get_node_id()).collect();
    let path = BlindedPath::new_for_message(&ids, &mut creator).unwrap();
    assert_eq!(path.introduction_node_id, ids[0]);
    assert_eq!(path.blinded_hops.len(), 3);
    assert_eq!(path.blinded_hops[0].encrypted_payload.len(), 59);
    assert_eq!(path.blinded_hops[1].encrypted_payload.len(), 59);
    assert_eq!(path.blinded_hops[2].encrypted_payload.len(), 16);
    for (hop, id) in path.blinded_hops.iter().zip(ids.iter()) {
        assert_ne!(hop.blinded_node_id, *id);
    }
}

#[test]
fn a_blinded_path_needs_two_nodes() {
    let mut creator = KeysManager::new(&[3u8; 32]).unwrap();
    let id = creator.get_node_id();
    assert_eq!(BlindedPath::new_for_message(&[], &mut creator).err(), Some(SendError::TooFewBlindedHops));
    assert_eq!(
        BlindedPath::new_for_message(&[id], &mut creator).err(),
        Some(SendError::TooFewBlindedHops)
    );
    // Nothing was drawn for the rejected paths.
    let mut fresh = KeysManager::new(&[3u8; 32]).unwrap();
    assert_eq!(creator.get_secure_random_bytes(), fresh.get_secure_random_bytes());

    let bad = PublicKey { bytes: [0u8; 33] };
    assert_eq!(
        BlindedPath::new_for_message(&[id, bad], &mut creator).err(),
        Some(SendError::Secp256k1)
    );
}

#[test]
fn the_introduction_node_advances_its_path() {
    let first = KeysManager::new(&[1u8; 32]).unwrap();
    let second = KeysManager::new(&[2u8; 32]).unwrap();
    let mut third = KeysManager::new(&[3u8; 32]).unwrap();
    let ids = [first.get_node_id(), second.get_node_id(), third.get_node_id()];
    let path = BlindedPath::new_for_message(&ids, &mut third).unwrap();

    let mut advanced = path.clone();
    advance_path_by_one(&mut advanced, &first).unwrap();
    assert_eq!(advanced.introduction_node_id, ids[1]);
    assert_eq!(advanced.blinded_hops.len(), 2);
    assert_eq!(advanced.blinded_hops[..], path.blinded_hops[1..]);
    assert_ne!(advanced.blinding_point, path.blinding_point);

    advance_path_by_one(&mut advanced, &second).unwrap();
    assert_eq!(advanced.introduction_node_id, ids[2]);
    assert_eq!(advanced.blinded_hops.len(), 1);

    // The last hop receives: there is nothing to advance to.
    let before = advanced.clone();
    assert!(advance_path_by_one(&mut advanced, &third).is_err());
    assert_eq!(advanced, before);

    // A node that is not the introduction node cannot open the first hop.
    let mut other = path.clone();
    assert!(advance_path_by_one(&mut other, &second).is_err());
    assert_eq!(other, path);

    let mut empty = BlindedPath { blinded_hops: vec![], ..path.clone() };
    assert!(advance_path_by_one(&mut empty, &first).is_err());
}
