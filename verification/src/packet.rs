//! The layered packet: how the hop records are wrapped, one layer per hop,
//! into a block of fixed size, and how one hop takes its layer off again.
//!
//! A hop's record is its payload behind a two-byte length, followed by the
//! integrity tag of the layer that the next hop will see. Wrapping runs from
//! the last hop to the first: each step puts a record in front of what has
//! been built, cuts the result to the block size and encrypts it under the
//! hop's key. Peeling decrypts a block extended by as many zero bytes, so
//! that the block handed on is as long as the one received. The filler
//! placed at the end of the innermost layer is what those extensions will
//! have turned into on the way, which is why every tag on the way verifies.

use crate::bytes::{
    be_u16, bytes_eq, lemma_be_u16_round_trip, push_be_u16, push_bytes, push_zeros, read_be_u16,
    slice_to_vec, u16_from_be, zeros,
};
use crate::crypto::{hmac_sha256, hmac_sha256_of};
use crate::stream::{apply_keystream, keystream_byte, stream_xor};
use vstd::prelude::*;

verus! {

/// Length of the hop data in the small packet.
pub const SMALL_PACKET_HOP_DATA_LEN: usize = 1300;

/// Length of the hop data in the big packet.
pub const BIG_PACKET_HOP_DATA_LEN: usize = 32768;

/// Length of an integrity tag.
pub const HMAC_LEN: usize = 32;

/// What a record adds to its payload: the length prefix and the tag.
pub const RECORD_OVERHEAD: usize = 34;

/// The key under which a hop's layer is encrypted.
pub open spec fn rho_of(shared: Seq<u8>) -> Seq<u8> {
    hmac_sha256_of(seq![0x72u8, 0x68u8, 0x6fu8], shared)@
}

/// The key under which a hop's layer is authenticated.
pub open spec fn mu_of(shared: Seq<u8>) -> Seq<u8> {
    hmac_sha256_of(seq![0x6du8, 0x75u8], shared)@
}

/// A payload behind its length prefix.
pub open spec fn framed(payload: Seq<u8>) -> Seq<u8> {
    be_u16(payload.len() as u16) + payload
}

/// Bytes that the record of `payload` takes in the hop data.
pub open spec fn record_len(payload: Seq<u8>) -> nat {
    payload.len() + 34
}

/// Bytes that the records of the first `n` payloads take together.
pub open spec fn records_len(payloads: Seq<Seq<u8>>, n: nat) -> nat
    decreases n,
{
    if n == 0 {
        0
    } else {
        records_len(payloads, (n - 1) as nat) + record_len(payloads[n - 1])
    }
}

/// The hop data length chosen for `payloads`: the small size where their
/// records fit it, else the big size, and none where they fit neither.
pub open spec fn hop_data_len_for(payloads: Seq<Seq<u8>>) -> Option<nat> {
    let total = records_len(payloads, payloads.len());
    if total <= 1300 {
        Some(1300)
    } else if total <= 32768 {
        Some(32768)
    } else {
        None
    }
}

/// The filler after the first `n` hops: what the zero bytes that those hops
/// append while peeling have become once the `n`th of them has encrypted
/// them.
pub open spec fn filler(payloads: Seq<Seq<u8>>, secrets: Seq<Seq<u8>>, cap: nat, n: nat) -> Seq<
    u8,
>
    decreases n,
{
    if n == 0 {
        Seq::empty()
    } else {
        let before = filler(payloads, secrets, cap, (n - 1) as nat);
        stream_xor(
            before + zeros(record_len(payloads[n - 1])),
            rho_of(secrets[n - 1]),
            (cap - before.len()) as nat,
        )
    }
}

/// One layer of the onion: the hop data that a hop receives and its tag.
pub ghost struct Layer {
    pub hop_data: Seq<u8>,
    pub hmac: Seq<u8>,
}

/// The layer that hop `i` receives. Behind the last hop stands the noise
/// that the packet was started from, with an all-zero tag.
pub open spec fn layer(
    payloads: Seq<Seq<u8>>,
    secrets: Seq<Seq<u8>>,
    noise: Seq<u8>,
    i: nat,
) -> Layer
    decreases payloads.len() - i,
{
    if i >= payloads.len() {
        Layer { hop_data: noise, hmac: zeros(32) }
    } else {
        let cap = noise.len();
        let next = layer(payloads, secrets, noise, i + 1);
        let plain = (framed(payloads[i as int]) + next.hmac + next.hop_data).subrange(
            0,
            cap as int,
        );
        let sealed = stream_xor(plain, rho_of(secrets[i as int]), 0);
        let hop_data = if i + 1 == payloads.len() {
            let tail = filler(payloads, secrets, cap, i);
            sealed.subrange(0, cap - tail.len()) + tail
        } else {
            sealed
        };
        Layer { hop_data, hmac: hmac_sha256_of(mu_of(secrets[i as int]), hop_data)@ }
    }
}

/// Why a layer could not be taken off.
#[derive(Clone, Copy, Debug, PartialEq, Eq, Structural)]
pub enum PeelError {
    /// The hop data has neither of the two packet sizes, or the record at
    /// its front does not fit it.
    Malformed,
    /// The tag does not belong to the hop data under this hop's key.
    BadHmac,
}

/// What a hop finds under its layer.
pub ghost struct PeeledSpec {
    pub payload: Seq<u8>,
    pub next_hmac: Seq<u8>,
    pub next_hop_data: Seq<u8>,
}

/// Takes one layer off: checks the tag, decrypts the hop data extended by
/// zeros, reads the record at the front and hands on what follows it.
pub open spec fn peel_spec(shared: Seq<u8>, hop_data: Seq<u8>, hmac: Seq<u8>) -> Result<
    PeeledSpec,
    PeelError,
> {
    let cap = hop_data.len();
    if cap != 1300 && cap != 32768 {
        Err(PeelError::Malformed)
    } else if hmac_sha256_of(mu_of(shared), hop_data)@ != hmac {
        Err(PeelError::BadHmac)
    } else {
        let plain = stream_xor(hop_data + zeros(cap), rho_of(shared), 0);
        let n = u16_from_be(plain[0], plain[1]) as int;
        if n + 34 > cap {
            Err(PeelError::Malformed)
        } else {
            Ok(
                PeeledSpec {
                    payload: plain.subrange(2, 2 + n),
                    next_hmac: plain.subrange(2 + n, n + 34),
                    next_hop_data: plain.subrange(n + 34, n + 34 + cap),
                },
            )
        }
    }
}

/// The records of the first `n` payloads take no more room than those of the
/// first `m`, for `n <= m`.
pub proof fn lemma_records_len_monotonic(payloads: Seq<Seq<u8>>, n: nat, m: nat)
    requires
        n <= m,
    ensures
        records_len(payloads, n) <= records_len(payloads, m),
    decreases m,
{
    if n < m {
        lemma_records_len_monotonic(payloads, n, (m - 1) as nat);
    }
}

/// A payload put in front of others adds its record to theirs.
pub proof fn lemma_records_len_prepend(first: Seq<u8>, rest: Seq<Seq<u8>>, n: nat)
    requires
        n <= rest.len(),
    ensures
        records_len(seq![first] + rest, n + 1) == record_len(first) + records_len(rest, n),
    decreases n,
{
    let all = seq![first] + rest;
    if n == 0 {
        assert(all[0] == first);
        assert(records_len(all, 1) == records_len(all, 0) + record_len(all[0]));
    } else {
        lemma_records_len_prepend(first, rest, (n - 1) as nat);
        assert(all[n as int] == rest[n - 1]);
    }
}

/// The filler after `n` hops is as long as the records of those hops.
pub proof fn lemma_filler_len(payloads: Seq<Seq<u8>>, secrets: Seq<Seq<u8>>, cap: nat, n: nat)
    ensures
        filler(payloads, secrets, cap, n).len() == records_len(payloads, n),
    decreases n,
{
    if n > 0 {
        lemma_filler_len(payloads, secrets, cap, (n - 1) as nat);
    }
}

/// Every layer is as long as the noise it was built on.
pub proof fn lemma_layer_len(
    payloads: Seq<Seq<u8>>,
    secrets: Seq<Seq<u8>>,
    noise: Seq<u8>,
    i: nat,
)
    requires
        records_len(payloads, payloads.len()) <= noise.len(),
    ensures
        layer(payloads, secrets, noise, i).hop_data.len() == noise.len(),
        layer(payloads, secrets, noise, i).hmac.len() == 32,
    decreases payloads.len() - i,
{
    if i < payloads.len() {
        lemma_layer_len(payloads, secrets, noise, i + 1);
        lemma_filler_len(payloads, secrets, noise.len(), i);
        lemma_records_len_monotonic(payloads, i, payloads.len());
    }
}

/// Decrypting a layer that was not cut gives back the record of its hop,
/// the next tag and the front of the next layer.
proof fn lemma_unsealed_front(
    payloads: Seq<Seq<u8>>,
    secrets: Seq<Seq<u8>>,
    noise: Seq<u8>,
    i: nat,
    k: int,
)
    requires
        i < payloads.len(),
        records_len(payloads, payloads.len()) <= noise.len(),
        0 <= k < noise.len(),
        i + 1 == payloads.len() ==> k < record_len(payloads[i as int]),
    ensures
        (layer(payloads, secrets, noise, i).hop_data[k] ^ keystream_byte(
            rho_of(secrets[i as int]),
            k as nat,
        )) == (framed(payloads[i as int]) + layer(payloads, secrets, noise, i + 1).hmac + layer(
            payloads,
            secrets,
            noise,
            i + 1,
        ).hop_data)[k],
{
    let cap = noise.len();
    let next = layer(payloads, secrets, noise, i + 1);
    lemma_layer_len(payloads, secrets, noise, i + 1);
    lemma_filler_len(payloads, secrets, cap, i);
    lemma_records_len_monotonic(payloads, i, (payloads.len() - 1) as nat);
    let whole = framed(payloads[i as int]) + next.hmac + next.hop_data;
    let plain = whole.subrange(0, cap as int);
    let sealed = stream_xor(plain, rho_of(secrets[i as int]), 0);
    assert(layer(payloads, secrets, noise, i).hop_data[k] == sealed[k]);
    let a = plain[k];
    let b = keystream_byte(rho_of(secrets[i as int]), k as nat);
    assert((a ^ b) ^ b == a) by (bit_vector);
}

/// The end of the layer that hop `i` receives is the filler after `i` hops.
pub proof fn lemma_layer_ends_in_filler(
    payloads: Seq<Seq<u8>>,
    secrets: Seq<Seq<u8>>,
    noise: Seq<u8>,
    i: nat,
)
    requires
        i < payloads.len(),
        records_len(payloads, payloads.len()) <= noise.len(),
    ensures
        records_len(payloads, i) <= noise.len(),
        layer(payloads, secrets, noise, i).hop_data.subrange(
            noise.len() - records_len(payloads, i),
            noise.len() as int,
        ) == filler(payloads, secrets, noise.len(), i),
    decreases payloads.len() - i,
{
    let cap = noise.len();
    let here = layer(payloads, secrets, noise, i);
    let tail = filler(payloads, secrets, cap, i);
    let done = records_len(payloads, i);
    lemma_filler_len(payloads, secrets, cap, i);
    lemma_records_len_monotonic(payloads, i + 1, payloads.len());
    lemma_layer_len(payloads, secrets, noise, i);
    lemma_layer_len(payloads, secrets, noise, i + 1);
    if i + 1 == payloads.len() {
        assert(here.hop_data.subrange(cap - done, cap as int) =~= tail);
    } else {
        lemma_layer_ends_in_filler(payloads, secrets, noise, i + 1);
        lemma_filler_len(payloads, secrets, cap, i + 1);
        let next = layer(payloads, secrets, noise, i + 1);
        let own = record_len(payloads[i as int]);
        let key = rho_of(secrets[i as int]);
        let next_tail = filler(payloads, secrets, cap, i + 1);
        let whole = framed(payloads[i as int]) + next.hmac + next.hop_data;
        assert forall|t: int| 0 <= t < done implies here.hop_data[cap - done + t] == tail[t] by {
            let at = cap - done + t;
            let k = keystream_byte(key, at as nat);
            assert(whole[at] == next.hop_data[at - own]);
            assert(next.hop_data[at - own] == next.hop_data.subrange(
                cap - (done + own),
                cap as int,
            )[t]);
            assert(next_tail[t] == (tail + zeros(own))[t] ^ k);
            assert((tail + zeros(own))[t] == tail[t]);
            assert(here.hop_data[at] == whole[at] ^ k);
            let f = tail[t];
            assert((f ^ k) ^ k == f) by (bit_vector);
        }
        assert(here.hop_data.subrange(cap - done, cap as int) =~= tail);
    }
}

/// Peeling the layer that hop `i` receives, with that hop's secret, yields
/// the payload meant for hop `i` and, for every hop but the last, exactly the
/// layer that hop `i + 1` receives. This holds for any payloads whose
/// records fit the packet, any secrets and any noise.
pub proof fn lemma_peel_yields_payload_and_next_layer(
    payloads: Seq<Seq<u8>>,
    secrets: Seq<Seq<u8>>,
    noise: Seq<u8>,
    i: nat,
)
    requires
        i < payloads.len(),
        noise.len() == 1300 || noise.len() == 32768,
        records_len(payloads, payloads.len()) <= noise.len(),
    ensures
        peel_spec(
            secrets[i as int],
            layer(payloads, secrets, noise, i).hop_data,
            layer(payloads, secrets, noise, i).hmac,
        ) matches Ok(peeled) && {
            &&& peeled.payload == payloads[i as int]
            &&& peeled.next_hmac == layer(payloads, secrets, noise, i + 1).hmac
            &&& peeled.next_hop_data.len() == noise.len()
            &&& i + 1 < payloads.len() ==> peeled.next_hop_data == layer(
                payloads,
                secrets,
                noise,
                i + 1,
            ).hop_data
        },
{
    let cap = noise.len();
    let here = layer(payloads, secrets, noise, i);
    let next = layer(payloads, secrets, noise, i + 1);
    let payload = payloads[i as int];
    let own = record_len(payload);
    let key = rho_of(secrets[i as int]);
    let done = records_len(payloads, i);
    lemma_layer_len(payloads, secrets, noise, i);
    lemma_layer_len(payloads, secrets, noise, i + 1);
    lemma_records_len_monotonic(payloads, i + 1, payloads.len());
    lemma_be_u16_round_trip(payload.len() as u16);
    let whole = framed(payload) + next.hmac + next.hop_data;
    let plain = stream_xor(here.hop_data + zeros(cap), key, 0);
    assert forall|k: int| 0 <= k < own implies plain[k] == whole[k] by {
        lemma_unsealed_front(payloads, secrets, noise, i, k);
    }
    assert(plain[0] == whole[0] && plain[1] == whole[1]);
    assert(whole[0] == be_u16(payload.len() as u16)[0]);
    assert(whole[1] == be_u16(payload.len() as u16)[1]);
    let n = u16_from_be(plain[0], plain[1]) as int;
    assert(n == payload.len());
    assert(plain.subrange(2, 2 + n) =~= payload) by {
        assert forall|k: int| 0 <= k < n implies plain.subrange(2, 2 + n)[k] == payload[k] by {
            assert(whole[k + 2] == payload[k]);
        }
    }
    assert(plain.subrange(2 + n, n + 34) =~= next.hmac) by {
        assert forall|k: int| 0 <= k < 32 implies plain.subrange(2 + n, n + 34)[k]
            == next.hmac[k] by {
            assert(whole[k + 2 + n] == next.hmac[k]);
        }
    }
    if i + 1 < payloads.len() {
        lemma_layer_ends_in_filler(payloads, secrets, noise, i + 1);
        lemma_filler_len(payloads, secrets, cap, i);
        lemma_filler_len(payloads, secrets, cap, i + 1);
        let tail = filler(payloads, secrets, cap, i);
        let next_tail = filler(payloads, secrets, cap, i + 1);
        assert forall|k: int| 0 <= k < cap implies plain.subrange(n + 34, n + 34 + cap)[k]
            == next.hop_data[k] by {
            let at = k + own;
            if at < cap {
                lemma_unsealed_front(payloads, secrets, noise, i, at);
                assert(whole[at] == next.hop_data[k]);
            } else {
                let t = k - (cap - (done + own));
                let z = (here.hop_data + zeros(cap))[at];
                let s = keystream_byte(key, at as nat);
                assert(z == 0u8);
                assert(plain[at] == z ^ s);
                assert(next.hop_data[k] == next.hop_data.subrange(
                    cap - (done + own),
                    cap as int,
                )[t]);
                assert(next_tail[t] == (tail + zeros(own))[t] ^ keystream_byte(
                    key,
                    (cap - done + t) as nat,
                ));
                assert((tail + zeros(own))[t] == 0u8);
                assert(0u8 ^ s == s) by (bit_vector);
            }
        }
        assert(plain.subrange(n + 34, n + 34 + cap) =~= next.hop_data);
    }
}

/// A hop's payload with the secret shared with that hop.
pub struct HopRecord {
    pub payload: Vec<u8>,
    pub shared_secret: [u8; 32],
}

/// The payloads of `hops`, in order.
pub open spec fn payloads_of(hops: Seq<HopRecord>) -> Seq<Seq<u8>> {
    Seq::new(hops.len(), |i: int| hops[i].payload@)
}

/// The shared secrets of `hops`, in order.
pub open spec fn secrets_of(hops: Seq<HopRecord>) -> Seq<Seq<u8>> {
    Seq::new(hops.len(), |i: int| hops[i].shared_secret@)
}

/// The noise that a packet of `cap` bytes is started from.
pub open spec fn noise_of(seed: Seq<u8>, cap: nat) -> Seq<u8> {
    stream_xor(zeros(cap), seed, 0)
}

/// The outermost layer of a packet: hop data of one of the two sizes, and
/// its tag.
pub struct HopData {
    pub hop_data: Vec<u8>,
    pub hmac: [u8; 32],
}

impl View for HopData {
    type V = Layer;

    open spec fn view(&self) -> Layer {
        Layer { hop_data: self.hop_data@, hmac: self.hmac@ }
    }
}

/// What a hop finds under its layer: its payload, and the tag and hop data
/// to hand on.
pub struct Peeled {
    pub payload: Vec<u8>,
    pub next_hmac: [u8; 32],
    pub next_hop_data: Vec<u8>,
}

impl View for Peeled {
    type V = PeeledSpec;

    open spec fn view(&self) -> PeeledSpec {
        PeeledSpec {
            payload: self.payload@,
            next_hmac: self.next_hmac@,
            next_hop_data: self.next_hop_data@,
        }
    }
}

/// Derives the key that encrypts a hop's layer.
pub fn derive_rho(shared: &[u8; 32]) -> (rho: [u8; 32])
    ensures
        rho@ == rho_of(shared@),
{
    let label: [u8; 3] = [0x72u8, 0x68u8, 0x6fu8];
    assert(label@ =~= seq![0x72u8, 0x68u8, 0x6fu8]);
    hmac_sha256(label.as_slice(), shared.as_slice())
}

/// Derives the key that authenticates a hop's layer.
pub fn derive_mu(shared: &[u8; 32]) -> (mu: [u8; 32])
    ensures
        mu@ == mu_of(shared@),
{
    let label: [u8; 2] = [0x6du8, 0x75u8];
    assert(label@ =~= seq![0x6du8, 0x75u8]);
    hmac_sha256(label.as_slice(), shared.as_slice())
}

/// Picks the hop data length for `hops`, or none where their records exceed
/// the big packet.
pub fn choose_hop_data_len(hops: &Vec<HopRecord>) -> (cap: Option<usize>)
    ensures
        cap matches Some(c) ==> hop_data_len_for(payloads_of(hops@)) == Some(c as nat),
        cap is None ==> hop_data_len_for(payloads_of(hops@)) is None,
{
    let ghost payloads = payloads_of(hops@);
    let n = hops.len();
    let mut total: usize = 0;
    let mut i: usize = 0;
    while i < n
        invariant
            i <= n,
            n == hops@.len(),
            payloads == payloads_of(hops@),
            total == records_len(payloads, i as nat),
            total <= BIG_PACKET_HOP_DATA_LEN,
        decreases n - i,
    {
        let len = hops[i].payload.len();
        assert(payloads[i as int] == hops@[i as int].payload@);
        if len > BIG_PACKET_HOP_DATA_LEN - RECORD_OVERHEAD || total > BIG_PACKET_HOP_DATA_LEN
            - RECORD_OVERHEAD - len {
            proof {
                lemma_records_len_monotonic(payloads, (i + 1) as nat, n as nat);
            }
            return None;
        }
        total = total + len + RECORD_OVERHEAD;
        i = i + 1;
    }
    if total <= SMALL_PACKET_HOP_DATA_LEN {
        Some(SMALL_PACKET_HOP_DATA_LEN)
    } else {
        Some(BIG_PACKET_HOP_DATA_LEN)
    }
}

/// Computes the filler that the innermost layer of `hops` ends in.
fn generate_filler(hops: &Vec<HopRecord>, cap: usize) -> (fill: Vec<u8>)
    requires
        records_len(payloads_of(hops@), hops@.len()) <= cap <= BIG_PACKET_HOP_DATA_LEN,
    ensures
        hops@.len() > 0 ==> fill@ == filler(
            payloads_of(hops@),
            secrets_of(hops@),
            cap as nat,
            (hops@.len() - 1) as nat,
        ),
{
    let ghost payloads = payloads_of(hops@);
    let ghost secrets = secrets_of(hops@);
    let n = hops.len();
    let mut fill: Vec<u8> = Vec::new();
    let last: usize = if n > 0 {
        n - 1
    } else {
        0
    };
    let mut i: usize = 0;
    while i < last
        invariant
            n == hops@.len(),
            i <= last,
            n > 0 ==> last == n - 1,
            n == 0 ==> last == 0,
            payloads == payloads_of(hops@),
            secrets == secrets_of(hops@),
            records_len(payloads, n as nat) <= cap <= BIG_PACKET_HOP_DATA_LEN,
            fill@ == filler(payloads, secrets, cap as nat, i as nat),
        decreases last - i,
    {
        proof {
            lemma_filler_len(payloads, secrets, cap as nat, i as nat);
            lemma_records_len_monotonic(payloads, (i + 1) as nat, n as nat);
        }
        let before = fill.len();
        assert(payloads[i as int] == hops@[i as int].payload@);
        assert(secrets[i as int] == hops@[i as int].shared_secret@);
        push_zeros(&mut fill, hops[i].payload.len() + RECORD_OVERHEAD);
        let rho = derive_rho(&hops[i].shared_secret);
        apply_keystream(&mut fill, &rho, cap - before);
        i = i + 1;
    }
    fill
}

/// Wraps the records of `hops` into the outermost layer of a packet,
/// starting from noise drawn from `prng_seed`.
///
/// The hop data is 1300 bytes long where the records fit that, else 32768
/// bytes; where they fit neither, nothing is built and the result is `None`.
pub fn construct_onion_message_packet(hops: &Vec<HopRecord>, prng_seed: &[u8; 32]) -> (packet:
    Option<HopData>)
    ensures
        match hop_data_len_for(payloads_of(hops@)) {
            Some(cap) => packet matches Some(built) && built@ == layer(
                payloads_of(hops@),
                secrets_of(hops@),
                noise_of(prng_seed@, cap),
                0,
            ) && built.hop_data@.len() == cap,
            None => packet is None,
        },
{
    let cap = match choose_hop_data_len(hops) {
        Some(cap) => cap,
        None => {
            return None;
        },
    };
    let ghost payloads = payloads_of(hops@);
    let ghost secrets = secrets_of(hops@);
    let ghost noise = noise_of(prng_seed@, cap as nat);
    let n = hops.len();
    let fill = generate_filler(hops, cap);
    let mut data: Vec<u8> = Vec::new();
    push_zeros(&mut data, cap);
    assert(data@ =~= zeros(cap as nat));
    apply_keystream(&mut data, prng_seed, 0);
    let mut hmac: [u8; 32] = [0u8; 32];
    assert(hmac@ =~= zeros(32));
    let mut i: usize = n;
    while i > 0
        invariant
            i <= n,
            n == hops@.len(),
            payloads == payloads_of(hops@),
            secrets == secrets_of(hops@),
            noise.len() == cap,
            records_len(payloads, n as nat) <= cap <= BIG_PACKET_HOP_DATA_LEN,
            n > 0 ==> fill@ == filler(payloads, secrets, cap as nat, (n - 1) as nat),
            data@ == layer(payloads, secrets, noise, i as nat).hop_data,
            hmac@ == layer(payloads, secrets, noise, i as nat).hmac,
        decreases i,
    {
        i = i - 1;
        proof {
            lemma_layer_len(payloads, secrets, noise, (i + 1) as nat);
            lemma_records_len_monotonic(payloads, (i + 1) as nat, n as nat);
            lemma_filler_len(payloads, secrets, cap as nat, i as nat);
        }
        let hop = &hops[i];
        assert(payloads[i as int] == hop.payload@);
        assert(secrets[i as int] == hop.shared_secret@);
        let mut plain: Vec<u8> = Vec::new();
        push_be_u16(&mut plain, hop.payload.len() as u16);
        push_bytes(&mut plain, hop.payload.as_slice());
        push_bytes(&mut plain, hmac.as_slice());
        push_bytes(&mut plain, data.as_slice());
        assert(plain@ =~= framed(hop.payload@) + hmac@ + data@);
        plain.truncate(cap);
        let rho = derive_rho(&hop.shared_secret);
        apply_keystream(&mut plain, &rho, 0);
        if i + 1 == n {
            let keep = cap - fill.len();
            plain.truncate(keep);
            push_bytes(&mut plain, fill.as_slice());
        }
        let mu = derive_mu(&hop.shared_secret);
        hmac = hmac_sha256(mu.as_slice(), plain.as_slice());
        data = plain;
    }
    proof {
        lemma_layer_len(payloads, secrets, noise, 0);
    }
    Some(HopData { hop_data: data, hmac })
}

/// Takes one layer off `hop_data` with the secret shared with the sender.
///
/// The tag is checked before anything is decrypted. The hop data handed on
/// is as long as the hop data received.
pub fn peel_layer(shared: &[u8; 32], hop_data: &Vec<u8>, hmac: &[u8; 32]) -> (peeled: Result<
    Peeled,
    PeelError,
>)
    ensures
        match peeled {
            Ok(found) => peel_spec(shared@, hop_data@, hmac@) == Ok::<PeeledSpec, PeelError>(
                found@,
            ),
            Err(error) => peel_spec(shared@, hop_data@, hmac@) == Err::<PeeledSpec, PeelError>(
                error,
            ),
        },
{
    let cap = hop_data.len();
    if cap != SMALL_PACKET_HOP_DATA_LEN && cap != BIG_PACKET_HOP_DATA_LEN {
        return Err(PeelError::Malformed);
    }
    let mu = derive_mu(shared);
    let expected = hmac_sha256(mu.as_slice(), hop_data.as_slice());
    if !bytes_eq(expected.as_slice(), hmac.as_slice()) {
        return Err(PeelError::BadHmac);
    }
    let rho = derive_rho(shared);
    let mut plain: Vec<u8> = Vec::new();
    push_bytes(&mut plain, hop_data.as_slice());
    push_zeros(&mut plain, cap);
    assert(plain@ =~= hop_data@ + zeros(cap as nat));
    apply_keystream(&mut plain, &rho, 0);
    let n = read_be_u16(plain.as_slice(), 0) as usize;
    if n + RECORD_OVERHEAD > cap {
        return Err(PeelError::Malformed);
    }
    let payload = slice_to_vec(plain.as_slice(), 2, 2 + n);
    let tag = slice_to_vec(plain.as_slice(), 2 + n, n + RECORD_OVERHEAD);
    let next_hop_data = slice_to_vec(plain.as_slice(), n + RECORD_OVERHEAD, n + RECORD_OVERHEAD + cap);
    let mut next_hmac: [u8; 32] = [0u8; 32];
    let mut k: usize = 0;
    while k < HMAC_LEN
        invariant
            k <= 32,
            tag@.len() == 32,
            forall|j: int| 0 <= j < k ==> next_hmac@[j] == tag@[j],
        decreases 32 - k,
    {
        next_hmac[k] = tag[k];
        k = k + 1;
    }
    assert(next_hmac@ =~= tag@);
    Ok(Peeled { payload, next_hmac, next_hop_data })
}

} // verus!
