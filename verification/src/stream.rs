//! A keystream cipher built from HMAC-SHA256 in counter mode.
//!
//! Block `n` of the keystream under `key` is the HMAC-SHA256 tag of the
//! big-endian counter `n`. A byte string is encrypted, and decrypted, by
//! combining it with the keystream bytes that start at some offset.

use crate::bytes::{be_u64, push_be_u64};
use crate::crypto::{hmac_sha256, hmac_sha256_of};
use vstd::prelude::*;

verus! {

/// Bytes in one keystream block.
pub const BLOCK_LEN: usize = 32;

/// The keystream byte at position `pos` under `key`.
pub open spec fn keystream_byte(key: Seq<u8>, pos: nat) -> u8 {
    hmac_sha256_of(key, be_u64((pos / 32) as u64))@[(pos % 32) as int]
}

/// `data` combined bytewise with the keystream of `key` from `offset` on.
pub open spec fn stream_xor(data: Seq<u8>, key: Seq<u8>, offset: nat) -> Seq<u8> {
    Seq::new(data.len(), |i: int| data[i] ^ keystream_byte(key, (offset + i) as nat))
}

/// Applying the same stretch of keystream twice gives the input back.
pub proof fn lemma_stream_xor_involution(data: Seq<u8>, key: Seq<u8>, offset: nat)
    ensures
        stream_xor(stream_xor(data, key, offset), key, offset) == data,
{
    assert forall|i: int| 0 <= i < data.len() implies #[trigger] stream_xor(
        stream_xor(data, key, offset),
        key,
        offset,
    )[i] == data[i] by {
        let a = data[i];
        let b = keystream_byte(key, (offset + i) as nat);
        assert((a ^ b) ^ b == a) by (bit_vector);
    }
    assert(stream_xor(stream_xor(data, key, offset), key, offset) =~= data);
}

/// Combines `data` in place with the keystream of `key` from `offset` on.
pub fn apply_keystream(data: &mut Vec<u8>, key: &[u8; 32], offset: usize)
    requires
        offset + old(data)@.len() <= usize::MAX,
    ensures
        final(data)@ == stream_xor(old(data)@, key@, offset as nat),
{
    let len = data.len();
    let mut block: [u8; 32] = [0u8; 32];
    let mut i: usize = 0;
    while i < len
        invariant
            i <= len,
            len == data@.len(),
            len == old(data)@.len(),
            offset + len <= usize::MAX,
            i > 0 ==> block == hmac_sha256_of(key@, be_u64(((offset + i - 1) / 32) as u64)),
            forall|j: int|
                0 <= j < i ==> data@[j] == old(data)@[j] ^ keystream_byte(
                    key@,
                    (offset + j) as nat,
                ),
            forall|j: int| i <= j < len ==> data@[j] == old(data)@[j],
        decreases len - i,
    {
        let pos = offset + i;
        if i == 0 || pos % BLOCK_LEN == 0 {
            let mut counter: Vec<u8> = Vec::new();
            push_be_u64(&mut counter, (pos / BLOCK_LEN) as u64);
            assert(counter@ =~= be_u64((pos / 32) as u64));
            block = hmac_sha256(key.as_slice(), counter.as_slice());
        }
        assert(block == hmac_sha256_of(key@, be_u64((pos / 32) as u64)));
        let mixed = data[i] ^ block[pos % BLOCK_LEN];
        data.set(i, mixed);
        i = i + 1;
    }
    assert(data@ =~= stream_xor(old(data)@, key@, offset as nat));
}

} // verus!
