//! Node identities and the keys of one node.

use crate::bytes::{be_u64, bytes_eq, push_be_u64, push_bytes};
use crate::crypto::{
    ecdh_of, hmac_sha256, hmac_sha256_of, point_mul_of, public_key_from_secret, public_key_mul_tweak,
    public_key_of, scalar_mul_of, secret_key_mul_tweak, sha256, sha256_of, shared_secret,
};
use vstd::prelude::*;

verus! {

/// A point on the curve in compressed form: the identity of a node, or a key
/// carried by a message.
#[derive(Clone, Copy, Debug, PartialEq, Eq, Hash)]
pub struct PublicKey {
    pub bytes: [u8; 33],
}

impl View for PublicKey {
    type V = Seq<u8>;

    open spec fn view(&self) -> Seq<u8> {
        self.bytes@
    }
}

impl PublicKey {
    /// Whether `self` and `other` are the same key.
    pub fn same_as(&self, other: &PublicKey) -> (same: bool)
        ensures
            same == (self@ == other@),
    {
        bytes_eq(self.bytes.as_slice(), other.bytes.as_slice())
    }
}

/// The views of `keys`, in order.
pub open spec fn key_views(keys: Seq<PublicKey>) -> Seq<Seq<u8>> {
    Seq::new(keys.len(), |i: int| keys[i]@)
}

/// The label under which a node identity is blinded.
pub open spec fn blinded_node_id_label() -> Seq<u8> {
    seq![
        0x62u8, 0x6cu8, 0x69u8, 0x6eu8, 0x64u8, 0x65u8, 0x64u8, 0x5fu8, 0x6eu8, 0x6fu8, 0x64u8,
        0x65u8, 0x5fu8, 0x69u8, 0x64u8,
    ]
}

/// The factor by which a node identity is blinded for the holder of
/// `shared`.
pub open spec fn node_blinding_factor_of(shared: Seq<u8>) -> Seq<u8> {
    hmac_sha256_of(blinded_node_id_label(), shared)@
}

/// Computes the factor by which a node identity is blinded for the holder of
/// `shared`.
pub fn node_blinding_factor(shared: &[u8; 32]) -> (factor: [u8; 32])
    ensures
        factor@ == node_blinding_factor_of(shared@),
{
    let label: [u8; 15] = [
        0x62u8, 0x6cu8, 0x69u8, 0x6eu8, 0x64u8, 0x65u8, 0x64u8, 0x5fu8, 0x6eu8, 0x6fu8, 0x64u8,
        0x65u8, 0x5fu8, 0x69u8, 0x64u8,
    ];
    assert(label@ =~= blinded_node_id_label());
    hmac_sha256(label.as_slice(), shared.as_slice())
}

/// The key that follows `key` on a path, for the hop that shares `shared`
/// with the sender: `key` multiplied by the digest of `key` and `shared`.
pub open spec fn next_hop_pubkey_of(key: Seq<u8>, shared: Seq<u8>) -> Option<Seq<u8>> {
    match point_mul_of(key, sha256_of(key + shared)@) {
        Some(next) => Some(next@),
        None => None,
    }
}

/// Computes the key that follows `key` on a path.
pub fn next_hop_pubkey(key: &PublicKey, shared: &[u8; 32]) -> (next: Option<PublicKey>)
    ensures
        match next {
            Some(found) => next_hop_pubkey_of(key@, shared@) == Some(found@),
            None => next_hop_pubkey_of(key@, shared@) is None,
        },
{
    let mut input: Vec<u8> = Vec::new();
    push_bytes(&mut input, key.bytes.as_slice());
    push_bytes(&mut input, shared.as_slice());
    assert(input@ =~= key@ + shared@);
    let factor = sha256(input.as_slice());
    match public_key_mul_tweak(&key.bytes, &factor) {
        Some(bytes) => Some(PublicKey { bytes }),
        None => None,
    }
}

/// The secret key that follows `secret` on a path, where `key` is its public
/// key: `secret` multiplied by the digest of `key` and `shared`.
pub open spec fn next_hop_secret_of(secret: Seq<u8>, key: Seq<u8>, shared: Seq<u8>) -> Option<
    Seq<u8>,
> {
    match scalar_mul_of(secret, sha256_of(key + shared)@) {
        Some(next) => Some(next@),
        None => None,
    }
}

/// Computes the secret key that follows `secret` on a path.
pub fn next_hop_secret(secret: &[u8; 32], key: &PublicKey, shared: &[u8; 32]) -> (next: Option<
    [u8; 32],
>)
    ensures
        match next {
            Some(found) => next_hop_secret_of(secret@, key@, shared@) == Some(found@),
            None => next_hop_secret_of(secret@, key@, shared@) is None,
        },
{
    let mut input: Vec<u8> = Vec::new();
    push_bytes(&mut input, key.bytes.as_slice());
    push_bytes(&mut input, shared.as_slice());
    assert(input@ =~= key@ + shared@);
    let factor = sha256(input.as_slice());
    secret_key_mul_tweak(secret, &factor)
}

/// The label under which a node's secret key is derived from its seed.
pub open spec fn node_secret_label() -> Seq<u8> {
    seq![0x6eu8, 0x6fu8, 0x64u8, 0x65u8]
}

/// The secret that a node with secret key `secret` shares with the holder of
/// `other`, after multiplying the node's key by `tweak` where one is given.
pub open spec fn node_ecdh_of(secret: Seq<u8>, other: Seq<u8>, tweak: Option<Seq<u8>>) -> Option<
    Seq<u8>,
> {
    let own = match tweak {
        Some(factor) => match scalar_mul_of(secret, factor) {
            Some(tweaked) => Some(tweaked@),
            None => None,
        },
        None => Some(secret),
    };
    match own {
        Some(key) => match ecdh_of(key, other) {
            Some(shared) => Some(shared@),
            None => None,
        },
        None => None,
    }
}

/// The number of blocks drawn after one more is drawn following `n`.
pub open spec fn next_draw(n: u64) -> u64 {
    if n == u64::MAX {
        0
    } else {
        (n + 1) as u64
    }
}

/// The `n`th block of 32 bytes drawn from `seed`.
pub open spec fn entropy_of(seed: Seq<u8>, n: u64) -> Seq<u8> {
    sha256_of(seed + be_u64(n))@
}

/// The keys of one node: its secret key and identity, and a seed from which
/// it draws the secrets of the messages and paths it creates.
pub struct KeysManager {
    node_secret: [u8; 32],
    node_id: PublicKey,
    seed: [u8; 32],
    counter: u64,
}

impl KeysManager {
    /// The node's secret key.
    pub closed spec fn secret(&self) -> Seq<u8> {
        self.node_secret@
    }

    /// The node's identity.
    pub closed spec fn id(&self) -> Seq<u8> {
        self.node_id@
    }

    /// The seed of the node's entropy.
    pub closed spec fn entropy_seed(&self) -> Seq<u8> {
        self.seed@
    }

    /// How many blocks of entropy have been drawn.
    pub closed spec fn drawn(&self) -> u64 {
        self.counter
    }

    /// The identity is the public key of the secret key.
    pub closed spec fn wf(&self) -> bool {
        public_key_of(self.node_secret@) == Some(self.node_id.bytes)
    }

    /// Derives a node's keys from `seed`. There are none where the secret key
    /// derived from the seed is not a valid key.
    pub fn new(seed: &[u8; 32]) -> (keys: Option<KeysManager>)
        ensures
            match keys {
                Some(made) => {
                    &&& made.wf()
                    &&& made.secret() == hmac_sha256_of(seed@, node_secret_label())@
                    &&& public_key_of(made.secret()) matches Some(id) && made.id() == id@
                    &&& made.entropy_seed() == seed@
                    &&& made.drawn() == 0
                },
                None => public_key_of(hmac_sha256_of(seed@, node_secret_label())@) is None,
            },
    {
        let label: [u8; 4] = [0x6eu8, 0x6fu8, 0x64u8, 0x65u8];
        assert(label@ =~= node_secret_label());
        let node_secret = hmac_sha256(seed.as_slice(), label.as_slice());
        match public_key_from_secret(&node_secret) {
            Some(bytes) => Some(
                KeysManager { node_secret, node_id: PublicKey { bytes }, seed: *seed, counter: 0 },
            ),
            None => None,
        }
    }

    /// The node's identity.
    pub fn get_node_id(&self) -> (id: PublicKey)
        ensures
            id@ == self.id(),
    {
        self.node_id
    }

    /// The secret that this node shares with the holder of `other_key`. With
    /// a `tweak`, the node's secret key is multiplied by it first.
    pub fn ecdh(&self, other_key: &PublicKey, tweak: Option<&[u8; 32]>) -> (shared: Option<
        [u8; 32],
    >)
        ensures
            match shared {
                Some(found) => node_ecdh_of(
                    self.secret(),
                    other_key@,
                    match tweak {
                        Some(factor) => Some(factor@),
                        None => None,
                    },
                ) == Some(found@),
                None => node_ecdh_of(
                    self.secret(),
                    other_key@,
                    match tweak {
                        Some(factor) => Some(factor@),
                        None => None,
                    },
                ) is None,
            },
    {
        let own = match tweak {
            Some(factor) => match secret_key_mul_tweak(&self.node_secret, factor) {
                Some(tweaked) => tweaked,
                None => {
                    return None;
                },
            },
            None => self.node_secret,
        };
        shared_secret(&own, &other_key.bytes)
    }

    /// Draws the next 32 bytes of entropy.
    pub fn get_secure_random_bytes(&mut self) -> (bytes: [u8; 32])
        ensures
            bytes@ == entropy_of(old(self).entropy_seed(), old(self).drawn()),
            final(self).drawn() == next_draw(old(self).drawn()),
            final(self).entropy_seed() == old(self).entropy_seed(),
            final(self).secret() == old(self).secret(),
            final(self).id() == old(self).id(),
            final(self).wf() == old(self).wf(),
    {
        let mut input: Vec<u8> = Vec::new();
        push_bytes(&mut input, self.seed.as_slice());
        push_be_u64(&mut input, self.counter);
        assert(input@ =~= self.seed@ + be_u64(self.counter));
        self.counter = if self.counter == u64::MAX {
            0
        } else {
            self.counter + 1
        };
        sha256(input.as_slice())
    }
}

} // verus!
