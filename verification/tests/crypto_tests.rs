use bitcoin::hashes::sha256;
use bitcoin::hashes::{HashEngine, Hmac, HmacEngine};
use bitcoin::secp256k1::ecdh::SharedSecret;
use bitcoin::secp256k1::{Scalar, Secp256k1, SecretKey};
use onion_message::blinded_path::{chain_after, chain_start, hop_keys};
use onion_message::keys::{
    next_hop_pubkey, next_hop_secret, node_blinding_factor, KeysManager, PublicKey,
};
use onion_message::packet::{derive_mu, derive_rho};
use onion_message::stream::apply_keystream;

fn hmac(key: &[u8], data: &[u8]) -> [u8; 32] {
    let mut engine = HmacEngine::<sha256::Hash>::new(key);
    engine.input(data);
    bitcoin::hashes::Hash::into_inner(
        <Hmac<sha256::Hash> as bitcoin::hashes::Hash>::from_engine(engine),
    )
}

fn digest(data: &[u8]) -> [u8; 32] {
    bitcoin::hashes::Hash::into_inner(<sha256::Hash as bitcoin::hashes::Hash>::hash(data))
}

fn public_key(secret: &[u8; 32]) -> [u8; 33] {
    let sk = SecretKey::from_slice(secret).unwrap();
    bitcoin::secp256k1::PublicKey::from_secret_key(&Secp256k1::new(), &sk).serialize()
}

#[test]
fn rho_and_mu_are_labelled_hmacs() {
    let shared = [7u8; 32];
    assert_eq!(derive_rho(&shared), hmac(b"rho", &shared));
    assert_eq!(derive_mu(&shared), hmac(b"mu", &shared));
    assert_ne!(derive_rho(&shared), shared);
    assert_ne!(derive_rho(&shared), derive_mu(&shared));
}

#[test]
fn mu_of_a_known_secret() {
    // HMAC-SHA256 with key "mu" over 32 zero bytes.
    let tag = derive_mu(&[0u8; 32]);
    assert_eq!(tag, hmac(&[0x6d, 0x75], &[0u8; 32]));
    assert_eq!(tag.len(), 32);
}

#[test]
fn node_blinding_factor_is_a_labelled_hmac() {
    let shared = [9u8; 32];
    assert_eq!(node_blinding_factor(&shared), hmac(b"blinded_node_id", &shared));
}

#[test]
fn keystream_blocks_are_hmacs_of_the_counter() {
    let key = [5u8; 32];
    let mut data = vec![0u8; 70];
    apply_keystream(&mut data, &key, 0);
    assert_eq!(&data[0..32], &hmac(&key, &[0, 0, 0, 0, 0, 0, 0, 0])[..]);
    assert_eq!(&data[32..64], &hmac(&key, &[0, 0, 0, 0, 0, 0, 0, 1])[..]);
    assert_eq!(&data[64..70], &hmac(&key, &[0, 0, 0, 0, 0, 0, 0, 2])[0..6]);
}

#[test]
fn keystream_at_an_offset_is_the_same_stream() {
    let key = [5u8; 32];
    let mut whole = vec![0u8; 100];
    apply_keystream(&mut whole, &key, 0);
    let mut part = vec![0u8; 60];
    apply_keystream(&mut part, &key, 40);
    assert_eq!(&whole[40..100], &part[..]);
}

#[test]
fn keystream_applied_twice_gives_the_input_back() {
    let key = [6u8; 32];
    let plain: Vec<u8> = (0..200u32).map(|i| (i % 251) as u8).collect();
    let mut data = plain.clone();
    apply_keystream(&mut data, &key, 17);
    assert_ne!(data, plain);
    apply_keystream(&mut data, &key, 17);
    assert_eq!(data, plain);
}

#[test]
fn entropy_is_the_digest_of_seed_and_counter() {
    let seed = [3u8; 32];
    let mut keys = KeysManager::new(&seed).unwrap();
    let first = keys.get_secure_random_bytes();
    let second = keys.get_secure_random_bytes();
    let mut input = seed.to_vec();
    input.extend_from_slice(&[0, 0, 0, 0, 0, 0, 0, 0]);
    assert_eq!(first, digest(&input));
    let mut input = seed.to_vec();
    input.extend_from_slice(&[0, 0, 0, 0, 0, 0, 0, 1]);
    assert_eq!(second, digest(&input));
    assert_ne!(first, second);
}

#[test]
fn node_id_is_the_public_key_of_the_derived_secret() {
    let seed = [1u8; 32];
    let keys = KeysManager::new(&seed).unwrap();
    let secret = hmac(&seed, b"node");
    assert_eq!(keys.get_node_id().bytes, public_key(&secret));
}

#[test]
fn ecdh_is_shared_by_both_sides() {
    let alice = KeysManager::new(&[1u8; 32]).unwrap();
    let bob = KeysManager::new(&[2u8; 32]).unwrap();
    let from_alice = alice.ecdh(&bob.get_node_id(), None).unwrap();
    let from_bob = bob.ecdh(&alice.get_node_id(), None).unwrap();
    assert_eq!(from_alice, from_bob);

    let secret = SecretKey::from_slice(&hmac(&[1u8; 32], b"node")).unwrap();
    let point = bitcoin::secp256k1::PublicKey::from_slice(&bob.get_node_id().bytes).unwrap();
    assert_eq!(from_alice, SharedSecret::new(&point, &secret).secret_bytes());
}

#[test]
fn ecdh_with_a_tweak_multiplies_the_secret_first() {
    let alice = KeysManager::new(&[1u8; 32]).unwrap();
    let bob = KeysManager::new(&[2u8; 32]).unwrap();
    let tweak = [4u8; 32];
    let shared = alice.ecdh(&bob.get_node_id(), Some(&tweak)).unwrap();

    let secret = SecretKey::from_slice(&hmac(&[1u8; 32], b"node")).unwrap();
    let tweaked = secret.mul_tweak(&Scalar::from_be_bytes(tweak).unwrap()).unwrap();
    let point = bitcoin::secp256k1::PublicKey::from_slice(&bob.get_node_id().bytes).unwrap();
    assert_eq!(shared, SharedSecret::new(&point, &tweaked).secret_bytes());
    assert_ne!(shared, alice.ecdh(&bob.get_node_id(), None).unwrap());
}

#[test]
fn ecdh_rejects_a_key_that_is_no_point() {
    let alice = KeysManager::new(&[1u8; 32]).unwrap();
    assert_eq!(alice.ecdh(&PublicKey { bytes: [0u8; 33] }, None), None);
}

#[test]
fn next_hop_keys_stay_a_pair() {
    let secret = [11u8; 32];
    let key = PublicKey { bytes: public_key(&secret) };
    let shared = [12u8; 32];
    let next_secret = next_hop_secret(&secret, &key, &shared).unwrap();
    let next_key = next_hop_pubkey(&key, &shared).unwrap();
    assert_eq!(next_key.bytes, public_key(&next_secret));
    assert_ne!(next_key, key);

    let mut input = key.bytes.to_vec();
    input.extend_from_slice(&shared);
    let factor = Scalar::from_be_bytes(digest(&input)).unwrap();
    let expected = SecretKey::from_slice(&secret).unwrap().mul_tweak(&factor).unwrap();
    assert_eq!(next_secret, expected.secret_bytes());
}

#[test]
fn chain_starts_at_the_public_key_of_the_secret() {
    let secret = [13u8; 32];
    let chain = chain_start(&secret).unwrap();
    assert_eq!(chain.blinding_point.bytes, public_key(&secret));
    assert_eq!(chain.onion_point.bytes, public_key(&secret));
    assert!(chain_start(&[0u8; 32]).is_none());
}

#[test]
fn hop_keys_agree_with_what_the_hop_derives() {
    let bob = KeysManager::new(&[2u8; 32]).unwrap();
    let secret = [13u8; 32];
    let chain = chain_start(&secret).unwrap();
    let keys = hop_keys(&chain, &bob.get_node_id(), false).unwrap();

    let control = bob.ecdh(&chain.blinding_point, None).unwrap();
    assert_eq!(keys.control_secret, control);
    let factor = node_blinding_factor(&control);
    let onion = bob.ecdh(&chain.onion_point, Some(&factor)).unwrap();
    assert_eq!(keys.onion_secret, onion);

    let next = chain_after(&chain, &keys).unwrap();
    assert_eq!(next.blinding_point, next_hop_pubkey(&chain.blinding_point, &control).unwrap());
    assert_eq!(next.onion_point, next_hop_pubkey(&chain.onion_point, &onion).unwrap());
}
