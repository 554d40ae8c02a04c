//! Blinded paths: routes whose hops are known to a sender only by blinded
//! identities, each with routing instructions sealed for that hop.

use crate::bytes::{array33_at, be_u16, push_be_u16, push_bytes, read_be_u16, slice_to_vec, u16_from_be};
use crate::crypto::{ecdh_of, point_mul_of, public_key_from_secret, public_key_mul_tweak, public_key_of, shared_secret};
use crate::keys::{
    next_hop_pubkey, next_hop_pubkey_of, next_hop_secret, next_hop_secret_of, node_blinding_factor,
    node_blinding_factor_of, node_ecdh_of, KeysManager, PublicKey, entropy_of,
};
use crate::payload::{
    control_bytes, decode_control, decode_control_spec, encode_control, open, open_spec, seal,
    seal_spec, ControlSpec, ControlTlvs,
};
use crate::route::SendError;
use vstd::prelude::*;

verus! {

/// One hop of a blinded path: its blinded identity and the instructions
/// sealed for it.
#[derive(Clone, Debug, PartialEq, Eq)]
pub struct BlindedHop {
    pub blinded_node_id: PublicKey,
    pub encrypted_payload: Vec<u8>,
}

/// A blinded hop as plain values.
pub ghost struct BlindedHopSpec {
    pub blinded_node_id: Seq<u8>,
    pub encrypted_payload: Seq<u8>,
}

impl View for BlindedHop {
    type V = BlindedHopSpec;

    open spec fn view(&self) -> BlindedHopSpec {
        BlindedHopSpec {
            blinded_node_id: self.blinded_node_id@,
            encrypted_payload: self.encrypted_payload@,
        }
    }
}

/// The views of `hops`, in order.
pub open spec fn hop_views(hops: Seq<BlindedHop>) -> Seq<BlindedHopSpec> {
    Seq::new(hops.len(), |i: int| hops[i]@)
}

/// A route to a recipient that hides behind it. The first hop is the
/// introduction node, the one hop whose identity a sender learns.
#[derive(Clone, Debug, PartialEq, Eq)]
pub struct BlindedPath {
    pub introduction_node_id: PublicKey,
    pub blinding_point: PublicKey,
    pub blinded_hops: Vec<BlindedHop>,
}

/// A blinded path as plain values.
pub ghost struct BlindedPathSpec {
    pub introduction_node_id: Seq<u8>,
    pub blinding_point: Seq<u8>,
    pub blinded_hops: Seq<BlindedHopSpec>,
}

impl View for BlindedPath {
    type V = BlindedPathSpec;

    open spec fn view(&self) -> BlindedPathSpec {
        BlindedPathSpec {
            introduction_node_id: self.introduction_node_id@,
            blinding_point: self.blinding_point@,
            blinded_hops: hop_views(self.blinded_hops@),
        }
    }
}

/// The two chains of keys that a sender walks along a route: one blinds the
/// hops' instructions, the other encrypts the packet's layers.
pub struct KeyChain {
    pub blinding_secret: [u8; 32],
    pub blinding_point: PublicKey,
    pub onion_secret: [u8; 32],
    pub onion_point: PublicKey,
}

/// A key chain as plain values.
pub ghost struct KeyChainSpec {
    pub blinding_secret: Seq<u8>,
    pub blinding_point: Seq<u8>,
    pub onion_secret: Seq<u8>,
    pub onion_point: Seq<u8>,
}

impl View for KeyChain {
    type V = KeyChainSpec;

    open spec fn view(&self) -> KeyChainSpec {
        KeyChainSpec {
            blinding_secret: self.blinding_secret@,
            blinding_point: self.blinding_point@,
            onion_secret: self.onion_secret@,
            onion_point: self.onion_point@,
        }
    }
}

/// What a sender shares with one hop.
pub struct HopKeys {
    /// The secret under which the hop's instructions are sealed.
    pub control_secret: [u8; 32],
    /// The identity under which the hop takes its layer off.
    pub blinded_node_id: PublicKey,
    /// The secret under which the hop's layer is encrypted.
    pub onion_secret: [u8; 32],
}

/// Hop keys as plain values.
pub ghost struct HopKeysSpec {
    pub control_secret: Seq<u8>,
    pub blinded_node_id: Seq<u8>,
    pub onion_secret: Seq<u8>,
}

impl View for HopKeys {
    type V = HopKeysSpec;

    open spec fn view(&self) -> HopKeysSpec {
        HopKeysSpec {
            control_secret: self.control_secret@,
            blinded_node_id: self.blinded_node_id@,
            onion_secret: self.onion_secret@,
        }
    }
}

/// The chain that starts from `secret`, if `secret` is a valid key.
pub open spec fn chain_start_of(secret: Seq<u8>) -> Option<KeyChainSpec> {
    match public_key_of(secret) {
        Some(point) => Some(
            KeyChainSpec {
                blinding_secret: secret,
                blinding_point: point@,
                onion_secret: secret,
                onion_point: point@,
            },
        ),
        None => None,
    }
}

/// What the sender at `chain` shares with the hop known as `key`. A hop that
/// is not blinded yet is blinded with the control secret; a blinded hop is
/// taken as it is.
pub open spec fn hop_keys_of(chain: KeyChainSpec, key: Seq<u8>, blinded: bool) -> Option<
    HopKeysSpec,
> {
    match ecdh_of(chain.blinding_secret, key) {
        None => None,
        Some(control) => {
            let hop_id = if blinded {
                Some(key)
            } else {
                match point_mul_of(key, node_blinding_factor_of(control@)) {
                    Some(id) => Some(id@),
                    None => None,
                }
            };
            match hop_id {
                None => None,
                Some(id) => match ecdh_of(chain.onion_secret, id) {
                    None => None,
                    Some(onion) => Some(
                        HopKeysSpec {
                            control_secret: control@,
                            blinded_node_id: id,
                            onion_secret: onion@,
                        },
                    ),
                },
            }
        },
    }
}

/// The chain behind a hop with which the sender shares `keys`.
pub open spec fn chain_after_of(chain: KeyChainSpec, keys: HopKeysSpec) -> Option<KeyChainSpec> {
    match next_hop_secret_of(chain.blinding_secret, chain.blinding_point, keys.control_secret) {
        None => None,
        Some(blinding_secret) => match public_key_of(blinding_secret) {
            None => None,
            Some(blinding_point) => match next_hop_secret_of(
                chain.onion_secret,
                chain.onion_point,
                keys.onion_secret,
            ) {
                None => None,
                Some(onion_secret) => match public_key_of(onion_secret) {
                    None => None,
                    Some(onion_point) => Some(
                        KeyChainSpec {
                            blinding_secret,
                            blinding_point: blinding_point@,
                            onion_secret,
                            onion_point: onion_point@,
                        },
                    ),
                },
            },
        },
    }
}

/// Starts a key chain from `secret`.
pub fn chain_start(secret: &[u8; 32]) -> (chain: Option<KeyChain>)
    ensures
        match chain {
            Some(made) => chain_start_of(secret@) == Some(made@),
            None => chain_start_of(secret@) is None,
        },
{
    match public_key_from_secret(secret) {
        Some(bytes) => Some(
            KeyChain {
                blinding_secret: *secret,
                blinding_point: PublicKey { bytes },
                onion_secret: *secret,
                onion_point: PublicKey { bytes },
            },
        ),
        None => None,
    }
}

/// Derives what the sender at `chain` shares with the hop known as `key`.
pub fn hop_keys(chain: &KeyChain, key: &PublicKey, blinded: bool) -> (keys: Option<HopKeys>)
    ensures
        match keys {
            Some(made) => hop_keys_of(chain@, key@, blinded) == Some(made@),
            None => hop_keys_of(chain@, key@, blinded) is None,
        },
{
    let control_secret = match shared_secret(&chain.blinding_secret, &key.bytes) {
        Some(control) => control,
        None => {
            return None;
        },
    };
    let blinded_node_id = if blinded {
        *key
    } else {
        let factor = node_blinding_factor(&control_secret);
        match public_key_mul_tweak(&key.bytes, &factor) {
            Some(bytes) => PublicKey { bytes },
            None => {
                return None;
            },
        }
    };
    match shared_secret(&chain.onion_secret, &blinded_node_id.bytes) {
        Some(onion_secret) => Some(HopKeys { control_secret, blinded_node_id, onion_secret }),
        None => None,
    }
}

/// Moves `chain` behind a hop with which the sender shares `keys`.
pub fn chain_after(chain: &KeyChain, keys: &HopKeys) -> (next: Option<KeyChain>)
    ensures
        match next {
            Some(made) => chain_after_of(chain@, keys@) == Some(made@),
            None => chain_after_of(chain@, keys@) is None,
        },
{
    let blinding_secret = match next_hop_secret(
        &chain.blinding_secret,
        &chain.blinding_point,
        &keys.control_secret,
    ) {
        Some(secret) => secret,
        None => {
            return None;
        },
    };
    let blinding_point = match public_key_from_secret(&blinding_secret) {
        Some(bytes) => PublicKey { bytes },
        None => {
            return None;
        },
    };
    let onion_secret = match next_hop_secret(
        &chain.onion_secret,
        &chain.onion_point,
        &keys.onion_secret,
    ) {
        Some(secret) => secret,
        None => {
            return None;
        },
    };
    match public_key_from_secret(&onion_secret) {
        Some(bytes) => Some(
            KeyChain { blinding_secret, blinding_point, onion_secret, onion_point: PublicKey { bytes } },
        ),
        None => None,
    }
}

/// The instructions for hop `i` of a path through `nodes`: hand on to the
/// next node, or receive at the last.
pub open spec fn path_control(nodes: Seq<Seq<u8>>, i: int) -> ControlSpec {
    if i + 1 < nodes.len() {
        ControlSpec::Forward { next_node_id: nodes[i + 1], next_blinding_override: None }
    } else {
        ControlSpec::Receive { path_id: None }
    }
}

/// The blinded hops for `nodes` from hop `i` on, where the sender's chain
/// stands at `chain` before hop `i`.
pub open spec fn blinded_hops_from(nodes: Seq<Seq<u8>>, i: nat, chain: KeyChainSpec) -> Option<
    Seq<BlindedHopSpec>,
>
    decreases nodes.len() - i,
{
    if i >= nodes.len() {
        Some(Seq::empty())
    } else {
        match hop_keys_of(chain, nodes[i as int], false) {
            None => None,
            Some(keys) => {
                let hop = BlindedHopSpec {
                    blinded_node_id: keys.blinded_node_id,
                    encrypted_payload: seal_spec(
                        control_bytes(path_control(nodes, i as int)),
                        keys.control_secret,
                    ),
                };
                if i + 1 == nodes.len() {
                    Some(seq![hop])
                } else {
                    match chain_after_of(chain, keys) {
                        None => None,
                        Some(next) => match blinded_hops_from(nodes, i + 1, next) {
                            Some(rest) => Some(seq![hop] + rest),
                            None => None,
                        },
                    }
                }
            },
        }
    }
}

/// The blinded path through `nodes` whose blinding starts from `secret`.
/// There is none for fewer than two nodes, nor where a key is not valid.
pub open spec fn new_path_of(nodes: Seq<Seq<u8>>, secret: Seq<u8>) -> Option<BlindedPathSpec> {
    if nodes.len() < 2 {
        None
    } else {
        match chain_start_of(secret) {
            None => None,
            Some(chain) => match blinded_hops_from(nodes, 0, chain) {
                None => None,
                Some(hops) => Some(
                    BlindedPathSpec {
                        introduction_node_id: nodes[0],
                        blinding_point: chain.blinding_point,
                        blinded_hops: hops,
                    },
                ),
            },
        }
    }
}

/// There is one blinded hop for each node from hop `i` on.
pub proof fn lemma_blinded_hops_len(nodes: Seq<Seq<u8>>, i: nat, chain: KeyChainSpec)
    requires
        i <= nodes.len(),
    ensures
        blinded_hops_from(nodes, i, chain) matches Some(hops) ==> hops.len() == nodes.len() - i,
    decreases nodes.len() - i,
{
    if i < nodes.len() {
        match hop_keys_of(chain, nodes[i as int], false) {
            None => {},
            Some(keys) => {
                if i + 1 < nodes.len() {
                    match chain_after_of(chain, keys) {
                        None => {},
                        Some(next) => {
                            lemma_blinded_hops_len(nodes, i + 1, next);
                        },
                    }
                }
            },
        }
    }
}

/// A blinded path that was created has a hop for each node, two at least,
/// and is introduced by the first node.
pub proof fn lemma_new_path_has_a_hop_for_each_node(nodes: Seq<Seq<u8>>, secret: Seq<u8>)
    ensures
        new_path_of(nodes, secret) matches Some(path) ==> {
            &&& path.blinded_hops.len() == nodes.len()
            &&& path.blinded_hops.len() >= 2
            &&& path.introduction_node_id == nodes[0]
        },
{
    if nodes.len() >= 2 {
        match chain_start_of(secret) {
            Some(chain) => {
                lemma_blinded_hops_len(nodes, 0, chain);
            },
            None => {},
        }
    }
}

/// Builds the blinded hops for `nodes` from hop `i` on behind `done`.
fn build_blinded_hops(nodes: &[PublicKey], i: usize, chain: KeyChain, done: Vec<BlindedHop>) -> (hops:
    Option<Vec<BlindedHop>>)
    requires
        i <= nodes@.len(),
    ensures
        match hops {
            Some(made) => blinded_hops_from(crate::keys::key_views(nodes@), i as nat, chain@)
                matches Some(rest) && hop_views(made@) == hop_views(done@) + rest,
            None => blinded_hops_from(crate::keys::key_views(nodes@), i as nat, chain@) is None,
        },
    decreases nodes@.len() - i,
{
    let ghost views = crate::keys::key_views(nodes@);
    let mut done = done;
    if i >= nodes.len() {
        assert(hop_views(done@) + Seq::<BlindedHopSpec>::empty() =~= hop_views(done@));
        return Some(done);
    }
    assert(views[i as int] == nodes@[i as int]@);
    let keys = match hop_keys(&chain, &nodes[i], false) {
        Some(keys) => keys,
        None => {
            return None;
        },
    };
    let control = if i + 1 < nodes.len() {
        assert(views[i + 1] == nodes@[i + 1]@);
        ControlTlvs::Forward { next_node_id: nodes[i + 1], next_blinding_override: None }
    } else {
        ControlTlvs::Receive { path_id: None }
    };
    assert(control@ == path_control(views, i as int));
    let plain = encode_control(&control);
    let encrypted_payload = seal(plain.as_slice(), &keys.control_secret);
    let hop = BlindedHop { blinded_node_id: keys.blinded_node_id, encrypted_payload };
    let ghost before = hop_views(done@);
    done.push(hop);
    assert(hop_views(done@) =~= before + seq![hop@]);
    if i + 1 == nodes.len() {
        return Some(done);
    }
    let next = match chain_after(&chain, &keys) {
        Some(next) => next,
        None => {
            return None;
        },
    };
    let ghost middle = hop_views(done@);
    let built = build_blinded_hops(nodes, i + 1, next, done);
    proof {
        if built is Some {
            let rest = blinded_hops_from(views, (i + 1) as nat, next@)->0;
            assert(before + seq![hop@] + rest =~= before + (seq![hop@] + rest));
        }
    }
    built
}

impl BlindedPath {
    /// Creates a blinded path through `node_pks`, whose last node is the
    /// recipient, with a blinding secret drawn from `entropy`.
    ///
    /// Fewer than two nodes are rejected with `TooFewBlindedHops` before
    /// anything is drawn or computed. A key that is not valid fails with
    /// `Secp256k1`.
    pub fn new_for_message(node_pks: &[PublicKey], entropy: &mut KeysManager) -> (path: Result<
        BlindedPath,
        SendError,
    >)
        ensures
            node_pks@.len() < 2 ==> path == Err::<BlindedPath, SendError>(
                SendError::TooFewBlindedHops,
            ) && *final(entropy) == *old(entropy),
            node_pks@.len() >= 2 && path is Err ==> path == Err::<BlindedPath, SendError>(
                SendError::Secp256k1,
            ),
            node_pks@.len() >= 2 ==> final(entropy).drawn() == crate::keys::next_draw(
                old(entropy).drawn(),
            ),
            final(entropy).secret() == old(entropy).secret(),
            final(entropy).id() == old(entropy).id(),
            final(entropy).entropy_seed() == old(entropy).entropy_seed(),
            final(entropy).wf() == old(entropy).wf(),
            match path {
                Ok(made) => new_path_of(
                    crate::keys::key_views(node_pks@),
                    entropy_of(old(entropy).entropy_seed(), old(entropy).drawn()),
                ) == Some(made@),
                Err(_) => new_path_of(
                    crate::keys::key_views(node_pks@),
                    entropy_of(old(entropy).entropy_seed(), old(entropy).drawn()),
                ) is None,
            },
    {
        if node_pks.len() < 2 {
            return Err(SendError::TooFewBlindedHops);
        }
        let secret = entropy.get_secure_random_bytes();
        let chain = match chain_start(&secret) {
            Some(chain) => chain,
            None => {
                return Err(SendError::Secp256k1);
            },
        };
        let introduction_node_id = node_pks[0];
        let blinding_point = chain.blinding_point;
        let empty: Vec<BlindedHop> = Vec::new();
        assert(hop_views(empty@) =~= Seq::<BlindedHopSpec>::empty());
        match build_blinded_hops(node_pks, 0, chain, empty) {
            Some(blinded_hops) => {
                proof {
                    let rest = blinded_hops_from(
                        crate::keys::key_views(node_pks@),
                        0,
                        chain@,
                    )->0;
                    assert(hop_views(blinded_hops@) =~= rest);
                }
                Ok(BlindedPath { introduction_node_id, blinding_point, blinded_hops })
            },
            None => Err(SendError::Secp256k1),
        }
    }
}

/// The path that remains when the introduction node, whose secret key is
/// `secret`, has taken the first hop for itself: the node named in its
/// instructions introduces the remaining hops, under the blinding point that
/// the instructions give or, by default, the one that follows the present
/// one. There is none where the node cannot open the first hop's
/// instructions or they do not forward.
pub open spec fn advanced_path_of(path: BlindedPathSpec, secret: Seq<u8>) -> Option<BlindedPathSpec> {
    if path.blinded_hops.len() == 0 {
        None
    } else {
        match node_ecdh_of(secret, path.blinding_point, None) {
            None => None,
            Some(shared) => match open_spec(path.blinded_hops[0].encrypted_payload, shared) {
                None => None,
                Some(plain) => match decode_control_spec(plain) {
                    Some(ControlSpec::Forward { next_node_id, next_blinding_override }) => {
                        let point = match next_blinding_override {
                            Some(point) => Some(point),
                            None => next_hop_pubkey_of(path.blinding_point, shared),
                        };
                        match point {
                            Some(blinding_point) => Some(
                                BlindedPathSpec {
                                    introduction_node_id: next_node_id,
                                    blinding_point,
                                    blinded_hops: path.blinded_hops.subrange(
                                        1,
                                        path.blinded_hops.len() as int,
                                    ),
                                },
                            ),
                            None => None,
                        }
                    },
                    _ => None,
                },
            },
        }
    }
}

/// Advances `path` by one hop, for the node that is its introduction node:
/// the first hop is dropped and the second hop's node becomes the
/// introduction node. On failure `path` is left as it was.
pub fn advance_path_by_one(path: &mut BlindedPath, keys: &KeysManager) -> (done: Result<(), ()>)
    ensures
        match done {
            Ok(_) => advanced_path_of(old(path)@, keys.secret()) == Some(final(path)@),
            Err(_) => advanced_path_of(old(path)@, keys.secret()) is None && *final(path) == *old(path),
        },
{
    if path.blinded_hops.len() == 0 {
        return Err(());
    }
    let shared = match keys.ecdh(&path.blinding_point, None) {
        Some(shared) => shared,
        None => {
            return Err(());
        },
    };
    let plain = match open(path.blinded_hops[0].encrypted_payload.as_slice(), &shared) {
        Some(plain) => plain,
        None => {
            return Err(());
        },
    };
    let control = match decode_control(plain.as_slice()) {
        Some(control) => control,
        None => {
            return Err(());
        },
    };
    match control {
        ControlTlvs::Forward { next_node_id, next_blinding_override } => {
            let blinding_point = match next_blinding_override {
                Some(point) => point,
                None => match next_hop_pubkey(&path.blinding_point, &shared) {
                    Some(point) => point,
                    None => {
                        return Err(());
                    },
                },
            };
            let ghost before = hop_views(path.blinded_hops@);
            let _first = path.blinded_hops.remove(0);
            assert(hop_views(path.blinded_hops@) =~= before.subrange(1, before.len() as int));
            path.blinding_point = blinding_point;
            path.introduction_node_id = next_node_id;
            Ok(())
        },
        ControlTlvs::Receive { .. } => Err(()),
    }
}

/// Bytes of a serialized path before its hops: two keys and the hop count.
pub const PATH_HEADER_LEN: usize = 67;

/// Bytes of a serialized hop before its instructions: a key and a length.
pub const HOP_HEADER_LEN: usize = 35;

/// The bytes of one blinded hop: its identity, then its instructions behind
/// their length.
pub open spec fn hop_bytes(hop: BlindedHopSpec) -> Seq<u8> {
    hop.blinded_node_id + be_u16(hop.encrypted_payload.len() as u16) + hop.encrypted_payload
}

/// The bytes of `hops`, one after the other.
pub open spec fn hops_bytes(hops: Seq<BlindedHopSpec>) -> Seq<u8>
    decreases hops.len(),
{
    if hops.len() == 0 {
        Seq::empty()
    } else {
        hop_bytes(hops[0]) + hops_bytes(hops.drop_first())
    }
}

/// The bytes of a blinded path: the introduction node, the blinding point,
/// the number of hops in one byte, and the hops.
pub open spec fn path_bytes(path: BlindedPathSpec) -> Seq<u8> {
    path.introduction_node_id + path.blinding_point + seq![path.blinded_hops.len() as u8]
        + hops_bytes(path.blinded_hops)
}

/// Whether `hop` can be written: its identity is a key and its instructions
/// fit their length prefix.
pub open spec fn hop_wf(hop: BlindedHopSpec) -> bool {
    hop.blinded_node_id.len() == 33 && hop.encrypted_payload.len() <= 0xffff
}

/// Whether `path` can be written: its keys are keys, its hops can be written
/// and their number fits one byte.
pub open spec fn path_wf(path: BlindedPathSpec) -> bool {
    &&& path.introduction_node_id.len() == 33
    &&& path.blinding_point.len() == 33
    &&& path.blinded_hops.len() <= 255
    &&& forall|i: int| 0 <= i < path.blinded_hops.len() ==> hop_wf(#[trigger] path.blinded_hops[i])
}

/// Hops read from a byte string, and where they end.
pub ghost struct ParsedHops {
    pub hops: Seq<BlindedHopSpec>,
    pub end: int,
}

/// The `count` hops that start at `at` in `data`, if whole ones do.
pub open spec fn parse_hops(data: Seq<u8>, at: int, count: nat) -> Option<ParsedHops>
    decreases count,
{
    if count == 0 {
        Some(ParsedHops { hops: Seq::empty(), end: at })
    } else if at < 0 || at + 35 > data.len() {
        None
    } else {
        let n = u16_from_be(data[at + 33], data[at + 34]) as int;
        if at + 35 + n > data.len() {
            None
        } else {
            let hop = BlindedHopSpec {
                blinded_node_id: data.subrange(at, at + 33),
                encrypted_payload: data.subrange(at + 35, at + 35 + n),
            };
            match parse_hops(data, at + 35 + n, (count - 1) as nat) {
                Some(rest) => Some(ParsedHops { hops: seq![hop] + rest.hops, end: rest.end }),
                None => None,
            }
        }
    }
}

/// The blinded path that `data` holds, if it holds exactly one.
pub open spec fn parse_path(data: Seq<u8>) -> Option<BlindedPathSpec> {
    if data.len() < 67 {
        None
    } else {
        match parse_hops(data, 67, data[66] as nat) {
            Some(parsed) => if parsed.end == data.len() {
                Some(
                    BlindedPathSpec {
                        introduction_node_id: data.subrange(0, 33),
                        blinding_point: data.subrange(33, 66),
                        blinded_hops: parsed.hops,
                    },
                )
            } else {
                None
            },
            None => None,
        }
    }
}

/// Writing one more hop appends its bytes.
pub proof fn lemma_hops_bytes_push(hops: Seq<BlindedHopSpec>, hop: BlindedHopSpec)
    ensures
        hops_bytes(hops.push(hop)) == hops_bytes(hops) + hop_bytes(hop),
    decreases hops.len(),
{
    if hops.len() == 0 {
        let one = hops.push(hop);
        assert(one.drop_first() =~= Seq::<BlindedHopSpec>::empty());
        assert(one[0] == hop);
        assert(hops_bytes(one.drop_first()) =~= Seq::<u8>::empty());
        assert(hops_bytes(one) == hop_bytes(hop) + hops_bytes(one.drop_first()));
        assert(hops_bytes(hops) =~= Seq::<u8>::empty());
        assert(hops_bytes(one) =~= hops_bytes(hops) + hop_bytes(hop));
    } else {
        lemma_hops_bytes_push(hops.drop_first(), hop);
        assert(hops.push(hop).drop_first() =~= hops.drop_first().push(hop));
        assert(hops_bytes(hops.push(hop)) =~= hops_bytes(hops) + hop_bytes(hop));
    }
}

/// Hops written between `before` and `after` are the hops read where
/// `before` ends.
pub proof fn lemma_parse_hops_written(before: Seq<u8>, hops: Seq<BlindedHopSpec>, after: Seq<u8>)
    requires
        forall|i: int| 0 <= i < hops.len() ==> hop_wf(#[trigger] hops[i]),
    ensures
        parse_hops(before + hops_bytes(hops) + after, before.len() as int, hops.len()) == Some(
            ParsedHops { hops, end: (before.len() + hops_bytes(hops).len()) as int },
        ),
    decreases hops.len(),
{
    let data = before + hops_bytes(hops) + after;
    let at = before.len() as int;
    if hops.len() == 0 {
        assert(hops =~= Seq::<BlindedHopSpec>::empty());
        assert(hops_bytes(hops) =~= Seq::<u8>::empty());
    } else {
        let hop = hops[0];
        let rest = hops.drop_first();
        let n = hop.encrypted_payload.len() as int;
        assert(hops_bytes(hops) == hop_bytes(hop) + hops_bytes(rest));
        assert(hop_bytes(hop).len() == 35 + n);
        assert(hop_wf(hop));
        crate::bytes::lemma_be_u16_round_trip(n as u16);
        assert(data[at + 33] == be_u16(n as u16)[0]);
        assert(data[at + 34] == be_u16(n as u16)[1]);
        assert(data.subrange(at, at + 33) =~= hop.blinded_node_id);
        assert(data.subrange(at + 35, at + 35 + n) =~= hop.encrypted_payload);
        assert forall|i: int| 0 <= i < rest.len() implies hop_wf(#[trigger] rest[i]) by {
            assert(rest[i] == hops[i + 1]);
        }
        lemma_parse_hops_written(before + hop_bytes(hop), rest, after);
        assert(before + hop_bytes(hop) + hops_bytes(rest) + after =~= data);
        assert(seq![hop] + rest =~= hops);
        let found = BlindedHopSpec {
            blinded_node_id: data.subrange(at, at + 33),
            encrypted_payload: data.subrange(at + 35, at + 35 + n),
        };
        assert(found == hop);
        assert(u16_from_be(data[at + 33], data[at + 34]) as int == n);
        assert(parse_hops(data, at + 35 + n, rest.len()) == Some(
            ParsedHops { hops: rest, end: (at + 35 + n + hops_bytes(rest).len()) as int },
        ));
    }
}

/// Reading back the bytes of a path gives the path.
pub proof fn lemma_parse_path_bytes(path: BlindedPathSpec)
    requires
        path_wf(path),
    ensures
        parse_path(path_bytes(path)) == Some(path),
{
    let data = path_bytes(path);
    let before = path.introduction_node_id + path.blinding_point + seq![
        path.blinded_hops.len() as u8,
    ];
    lemma_parse_hops_written(before, path.blinded_hops, Seq::empty());
    assert(before + hops_bytes(path.blinded_hops) + Seq::<u8>::empty() =~= data);
    assert(data.subrange(0, 33) =~= path.introduction_node_id);
    assert(data.subrange(33, 66) =~= path.blinding_point);
    assert(data[66] == path.blinded_hops.len() as u8);
}

/// Reads `count` hops from `at` on behind `done`.
fn read_hops(data: &[u8], at: usize, count: usize, done: Vec<BlindedHop>) -> (found: Option<
    (Vec<BlindedHop>, usize),
>)
    requires
        at <= data@.len(),
    ensures
        match found {
            Some((hops, end)) => parse_hops(data@, at as int, count as nat) matches Some(parsed)
                && hop_views(hops@) == hop_views(done@) + parsed.hops && parsed.end == end,
            None => parse_hops(data@, at as int, count as nat) is None,
        },
    decreases count,
{
    let mut done = done;
    let len = data.len();
    if count == 0 {
        assert(hop_views(done@) + Seq::<BlindedHopSpec>::empty() =~= hop_views(done@));
        return Some((done, at));
    }
    if len - at < HOP_HEADER_LEN {
        return None;
    }
    let n = read_be_u16(data, at + 33) as usize;
    if len - at - HOP_HEADER_LEN < n {
        return None;
    }
    let hop = BlindedHop {
        blinded_node_id: PublicKey { bytes: array33_at(data, at) },
        encrypted_payload: slice_to_vec(data, at + HOP_HEADER_LEN, at + HOP_HEADER_LEN + n),
    };
    let ghost before = hop_views(done@);
    let ghost view = hop@;
    done.push(hop);
    assert(hop_views(done@) =~= before + seq![view]);
    let found = read_hops(data, at + HOP_HEADER_LEN + n, count - 1, done);
    proof {
        if found is Some {
            let rest = parse_hops(data@, at + 35 + n, (count - 1) as nat)->0;
            assert(before + seq![view] + rest.hops =~= before + (seq![view] + rest.hops));
        }
    }
    found
}

impl BlindedPath {
    /// Writes the path as bytes, or nothing where it has more than 255 hops
    /// or a hop's instructions are too long for their length prefix.
    pub fn write(&self) -> (out: Option<Vec<u8>>)
        ensures
            match out {
                Some(bytes) => path_wf(self@) && bytes@ == path_bytes(self@),
                None => !path_wf(self@),
            },
    {
        let count = self.blinded_hops.len();
        if count > 255 {
            return None;
        }
        let ghost hops = hop_views(self.blinded_hops@);
        let mut out: Vec<u8> = Vec::new();
        push_bytes(&mut out, self.introduction_node_id.bytes.as_slice());
        push_bytes(&mut out, self.blinding_point.bytes.as_slice());
        out.push(count as u8);
        let ghost before = out@;
        assert(before =~= self.introduction_node_id@ + self.blinding_point@ + seq![count as u8]);
        assert(hops.subrange(0, 0) =~= Seq::<BlindedHopSpec>::empty());
        let mut i: usize = 0;
        while i < count
            invariant
                i <= count,
                count == self.blinded_hops@.len(),
                hops == hop_views(self.blinded_hops@),
                out@ == before + hops_bytes(hops.subrange(0, i as int)),
                forall|j: int| 0 <= j < i ==> hop_wf(#[trigger] hops[j]),
            decreases count - i,
        {
            let hop = &self.blinded_hops[i];
            assert(hops[i as int] == hop@);
            if hop.encrypted_payload.len() > 0xffff {
                assert(!hop_wf(hops[i as int]));
                return None;
            }
            proof {
                lemma_hops_bytes_push(hops.subrange(0, i as int), hop@);
                assert(hops.subrange(0, i as int).push(hop@) =~= hops.subrange(0, i + 1));
            }
            push_bytes(&mut out, hop.blinded_node_id.bytes.as_slice());
            push_be_u16(&mut out, hop.encrypted_payload.len() as u16);
            push_bytes(&mut out, hop.encrypted_payload.as_slice());
            assert(out@ =~= before + hops_bytes(hops.subrange(0, i + 1)));
            i = i + 1;
        }
        assert(hops.subrange(0, count as int) =~= hops);
        Some(out)
    }

    /// Reads a path from bytes that hold exactly one.
    pub fn read(data: &[u8]) -> (path: Option<BlindedPath>)
        ensures
            match path {
                Some(found) => parse_path(data@) == Some(found@),
                None => parse_path(data@) is None,
            },
    {
        if data.len() < PATH_HEADER_LEN {
            return None;
        }
        let introduction_node_id = PublicKey { bytes: array33_at(data, 0) };
        let blinding_point = PublicKey { bytes: array33_at(data, 33) };
        let count = data[66] as usize;
        let empty: Vec<BlindedHop> = Vec::new();
        assert(hop_views(empty@) =~= Seq::<BlindedHopSpec>::empty());
        match read_hops(data, PATH_HEADER_LEN, count, empty) {
            Some((blinded_hops, end)) => {
                proof {
                    let parsed = parse_hops(data@, 67, count as nat)->0;
                    assert(hop_views(blinded_hops@) =~= parsed.hops);
                }
                if end == data.len() {
                    Some(BlindedPath { introduction_node_id, blinding_point, blinded_hops })
                } else {
                    None
                }
            },
            None => None,
        }
    }
}

} // verus!
