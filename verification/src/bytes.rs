//! Fixed-width big-endian integers and small helpers on byte strings.

use vstd::prelude::*;

verus! {

/// `n` zero bytes.
pub open spec fn zeros(n: nat) -> Seq<u8> {
    Seq::new(n, |i: int| 0u8)
}

/// The two bytes of `n`, most significant first.
pub open spec fn be_u16(n: u16) -> Seq<u8> {
    seq![(n / 256) as u8, (n % 256) as u8]
}

/// The number that `be_u16` writes as `hi`, `lo`.
pub open spec fn u16_from_be(hi: u8, lo: u8) -> u16 {
    (hi * 256 + lo) as u16
}

/// The four bytes of `n`, most significant first.
pub open spec fn be_u32(n: u32) -> Seq<u8> {
    be_u16((n / 0x1_0000) as u16) + be_u16((n % 0x1_0000) as u16)
}

/// The number whose `be_u32` form is the first four bytes of `b`.
pub open spec fn u32_from_be(b: Seq<u8>) -> u32
    recommends
        b.len() >= 4,
{
    (u16_from_be(b[0], b[1]) * 0x1_0000 + u16_from_be(b[2], b[3])) as u32
}

/// The eight bytes of `n`, most significant first.
pub open spec fn be_u64(n: u64) -> Seq<u8> {
    be_u32((n / 0x1_0000_0000) as u32) + be_u32((n % 0x1_0000_0000) as u32)
}

/// The number whose `be_u64` form is the first eight bytes of `b`.
pub open spec fn u64_from_be(b: Seq<u8>) -> u64
    recommends
        b.len() >= 8,
{
    (u32_from_be(b.subrange(0, 4)) * 0x1_0000_0000 + u32_from_be(b.subrange(4, 8))) as u64
}

/// Reading back what `be_u16` wrote gives the number written.
pub proof fn lemma_be_u16_round_trip(n: u16)
    ensures
        be_u16(n).len() == 2,
        u16_from_be(be_u16(n)[0], be_u16(n)[1]) == n,
{
}

/// Reading back what `be_u32` wrote gives the number written.
pub proof fn lemma_be_u32_round_trip(n: u32)
    ensures
        be_u32(n).len() == 4,
        u32_from_be(be_u32(n)) == n,
{
    lemma_be_u16_round_trip((n / 0x1_0000) as u16);
    lemma_be_u16_round_trip((n % 0x1_0000) as u16);
}

/// Reading back what `be_u64` wrote gives the number written.
pub proof fn lemma_be_u64_round_trip(n: u64)
    ensures
        be_u64(n).len() == 8,
        u64_from_be(be_u64(n)) == n,
{
    let hi = (n / 0x1_0000_0000) as u32;
    let lo = (n % 0x1_0000_0000) as u32;
    lemma_be_u32_round_trip(hi);
    lemma_be_u32_round_trip(lo);
    assert(be_u64(n).subrange(0, 4) =~= be_u32(hi));
    assert(be_u64(n).subrange(4, 8) =~= be_u32(lo));
}

/// Appends the big-endian form of `n` to `out`.
pub fn push_be_u16(out: &mut Vec<u8>, n: u16)
    ensures
        final(out)@ == old(out)@ + be_u16(n),
{
    out.push((n / 256) as u8);
    out.push((n % 256) as u8);
    assert(out@ =~= old(out)@ + be_u16(n));
}

/// Appends the big-endian form of `n` to `out`.
pub fn push_be_u32(out: &mut Vec<u8>, n: u32)
    ensures
        final(out)@ == old(out)@ + be_u32(n),
{
    push_be_u16(out, (n / 0x1_0000) as u16);
    push_be_u16(out, (n % 0x1_0000) as u16);
    assert(out@ =~= old(out)@ + be_u32(n));
}

/// Appends the big-endian form of `n` to `out`.
pub fn push_be_u64(out: &mut Vec<u8>, n: u64)
    ensures
        final(out)@ == old(out)@ + be_u64(n),
{
    push_be_u32(out, (n / 0x1_0000_0000) as u32);
    push_be_u32(out, (n % 0x1_0000_0000) as u32);
    assert(out@ =~= old(out)@ + be_u64(n));
}

/// Reads the big-endian `u16` at `at`.
pub fn read_be_u16(data: &[u8], at: usize) -> (n: u16)
    requires
        at + 2 <= data@.len(),
    ensures
        n == u16_from_be(data@[at as int], data@[at + 1]),
{
    let len: usize = data.len();
    assert(at + 2 <= len);
    let hi: u16 = data[at] as u16;
    let lo: u16 = data[at + 1] as u16;
    hi * 256 + lo
}

/// Reads the big-endian `u32` at `at`.
pub fn read_be_u32(data: &[u8], at: usize) -> (n: u32)
    requires
        at + 4 <= data@.len(),
    ensures
        n == u32_from_be(data@.subrange(at as int, at + 4)),
{
    let len: usize = data.len();
    assert(at + 4 <= len);
    let hi: u32 = read_be_u16(data, at) as u32;
    let lo: u32 = read_be_u16(data, at + 2) as u32;
    hi * 0x1_0000 + lo
}

/// Reads the big-endian `u64` at `at`.
pub fn read_be_u64(data: &[u8], at: usize) -> (n: u64)
    requires
        at + 8 <= data@.len(),
    ensures
        n == u64_from_be(data@.subrange(at as int, at + 8)),
{
    let len: usize = data.len();
    assert(at + 8 <= len);
    let hi: u64 = read_be_u32(data, at) as u64;
    let lo: u64 = read_be_u32(data, at + 4) as u64;
    proof {
        let b = data@.subrange(at as int, at + 8);
        assert(b.subrange(0, 4) =~= data@.subrange(at as int, at + 4));
        assert(b.subrange(4, 8) =~= data@.subrange(at + 4, at + 8));
    }
    hi * 0x1_0000_0000 + lo
}

/// Whether two byte strings hold the same bytes.
pub fn bytes_eq(a: &[u8], b: &[u8]) -> (same: bool)
    ensures
        same == (a@ == b@),
{
    if a.len() != b.len() {
        return false;
    }
    let mut i: usize = 0;
    while i < a.len()
        invariant
            i <= a@.len(),
            a@.len() == b@.len(),
            forall|j: int| 0 <= j < i ==> a@[j] == b@[j],
        decreases a@.len() - i,
    {
        if a[i] != b[i] {
            return false;
        }
        i = i + 1;
    }
    assert(a@ =~= b@);
    true
}

/// Appends `src` to `out`.
pub fn push_bytes(out: &mut Vec<u8>, src: &[u8])
    ensures
        final(out)@ == old(out)@ + src@,
{
    let mut i: usize = 0;
    while i < src.len()
        invariant
            i <= src@.len(),
            out@ == old(out)@ + src@.subrange(0, i as int),
        decreases src@.len() - i,
    {
        out.push(src[i]);
        assert(out@ =~= old(out)@ + src@.subrange(0, i + 1));
        i = i + 1;
    }
    assert(src@.subrange(0, src@.len() as int) =~= src@);
}

/// Appends `n` zero bytes to `out`.
pub fn push_zeros(out: &mut Vec<u8>, n: usize)
    ensures
        final(out)@ == old(out)@ + zeros(n as nat),
{
    let mut i: usize = 0;
    while i < n
        invariant
            i <= n,
            out@ == old(out)@ + zeros(i as nat),
        decreases n - i,
    {
        out.push(0u8);
        assert(out@ =~= old(out)@ + zeros((i + 1) as nat));
        i = i + 1;
    }
}

/// The bytes of `data` from `from` up to `to`, as a vector of their own.
pub fn slice_to_vec(data: &[u8], from: usize, to: usize) -> (out: Vec<u8>)
    requires
        from <= to <= data@.len(),
    ensures
        out@ == data@.subrange(from as int, to as int),
{
    let mut out: Vec<u8> = Vec::new();
    let mut i: usize = from;
    while i < to
        invariant
            from <= i <= to <= data@.len(),
            out@ == data@.subrange(from as int, i as int),
        decreases to - i,
    {
        out.push(data[i]);
        assert(out@ =~= data@.subrange(from as int, i + 1));
        i = i + 1;
    }
    out
}

/// A copy of `src`.
pub fn copy_bytes(src: &[u8]) -> (out: Vec<u8>)
    ensures
        out@ == src@,
{
    let out = slice_to_vec(src, 0, src.len());
    assert(out@ =~= src@);
    out
}

/// The 32 bytes of `data` from `at` on.
pub fn array32_at(data: &[u8], at: usize) -> (out: [u8; 32])
    requires
        at + 32 <= data@.len(),
    ensures
        out@ == data@.subrange(at as int, at + 32),
{
    let len: usize = data.len();
    let mut out: [u8; 32] = [0u8; 32];
    let mut k: usize = 0;
    while k < 32
        invariant
            k <= 32,
            at + 32 <= len,
            len == data@.len(),
            forall|j: int| 0 <= j < k ==> out@[j] == data@[at + j],
        decreases 32 - k,
    {
        out[k] = data[at + k];
        k = k + 1;
    }
    assert(out@ =~= data@.subrange(at as int, at + 32));
    out
}

/// The 33 bytes of `data` from `at` on.
pub fn array33_at(data: &[u8], at: usize) -> (out: [u8; 33])
    requires
        at + 33 <= data@.len(),
    ensures
        out@ == data@.subrange(at as int, at + 33),
{
    let len: usize = data.len();
    let mut out: [u8; 33] = [0u8; 33];
    let mut k: usize = 0;
    while k < 33
        invariant
            k <= 33,
            at + 33 <= len,
            len == data@.len(),
            forall|j: int| 0 <= j < k ==> out@[j] == data@[at + j],
        decreases 33 - k,
    {
        out[k] = data[at + k];
        k = k + 1;
    }
    assert(out@ =~= data@.subrange(at as int, at + 33));
    out
}

} // verus!
