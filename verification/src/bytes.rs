//! Small byte-vector utilities shared by the transport core: copying,
//! comparing and concatenating byte strings, and the little-endian `u64`
//! encoding used by transport frames.

use vstd::prelude::*;
use vstd::slice::{slice_subrange, slice_to_vec};

verus! {

/// The little-endian byte string of `n`, least significant byte first.
pub open spec fn u64_le_bytes(n: u64) -> Seq<u8> {
    Seq::new(8, |i: int| ((n >> (8 * i)) & 0xff) as u8)
}

/// The `u64` denoted by 8 little-endian bytes.
pub open spec fn le_bytes_u64(s: Seq<u8>) -> u64
    recommends
        s.len() == 8,
{
    (s[0] as u64) | ((s[1] as u64) << 8) | ((s[2] as u64) << 16) | ((s[3] as u64) << 24)
        | ((s[4] as u64) << 32) | ((s[5] as u64) << 40) | ((s[6] as u64) << 48)
        | ((s[7] as u64) << 56)
}

/// Decoding inverts encoding: the 8 little-endian bytes of `n` denote `n`.
pub proof fn lemma_le_bytes_u64_roundtrip(n: u64)
    ensures
        le_bytes_u64(u64_le_bytes(n)) == n,
{
    assert(((((n >> 0) & 0xff) as u8) as u64) | ((((n >> 8) & 0xff) as u8) as u64) << 8 | ((((n
        >> 16) & 0xff) as u8) as u64) << 16 | ((((n >> 24) & 0xff) as u8) as u64) << 24 | ((((n
        >> 32) & 0xff) as u8) as u64) << 32 | ((((n >> 40) & 0xff) as u8) as u64) << 40 | ((((n
        >> 48) & 0xff) as u8) as u64) << 48 | ((((n >> 56) & 0xff) as u8) as u64) << 56 == n)
        by (bit_vector);
}

/// Encoding inverts decoding: any 8 bytes are the little-endian bytes of
/// the value they denote.
pub proof fn lemma_u64_le_bytes_roundtrip(s: Seq<u8>)
    requires
        s.len() == 8,
    ensures
        u64_le_bytes(le_bytes_u64(s)) =~= s,
{
    let b0 = s[0];
    let b1 = s[1];
    let b2 = s[2];
    let b3 = s[3];
    let b4 = s[4];
    let b5 = s[5];
    let b6 = s[6];
    let b7 = s[7];
    assert({
        let m = (b0 as u64) | ((b1 as u64) << 8) | ((b2 as u64) << 16) | ((b3 as u64) << 24) | ((
        b4 as u64) << 32) | ((b5 as u64) << 40) | ((b6 as u64) << 48) | ((b7 as u64) << 56);
        (((m >> 0) & 0xff) as u8) == b0 && (((m >> 8) & 0xff) as u8) == b1 && (((m >> 16)
            & 0xff) as u8) == b2 && (((m >> 24) & 0xff) as u8) == b3 && (((m >> 32)
            & 0xff) as u8) == b4 && (((m >> 40) & 0xff) as u8) == b5 && (((m >> 48)
            & 0xff) as u8) == b6 && (((m >> 56) & 0xff) as u8) == b7
    }) by (bit_vector);
}

/// Append the 8 little-endian bytes of `n` to `out`.
pub fn push_u64_le(out: &mut Vec<u8>, n: u64)
    ensures
        final(out)@ == old(out)@ + u64_le_bytes(n),
{
    let ghost prefix = out@;
    let mut i: usize = 0;
    while i < 8
        invariant
            i <= 8,
            out@ == prefix + u64_le_bytes(n).subrange(0, i as int),
        decreases 8 - i,
    {
        let shift: u64 = 8 * (i as u64);
        let b: u8 = ((n >> shift) & 0xff) as u8;
        out.push(b);
        assert(prefix + u64_le_bytes(n).subrange(0, i as int) + seq![b] =~= prefix + u64_le_bytes(
            n,
        ).subrange(0, i as int + 1));
        i = i + 1;
    }
    assert(u64_le_bytes(n).subrange(0, 8) =~= u64_le_bytes(n));
}

/// Read the `u64` denoted by `s[start .. start + 8]`, little endian.
pub fn read_u64_le(s: &[u8], start: usize) -> (n: u64)
    requires
        start + 8 <= s@.len(),
    ensures
        n == le_bytes_u64(s@.subrange(start as int, start as int + 8)),
{
    let b0 = s[start] as u64;
    let b1 = s[start + 1] as u64;
    let b2 = s[start + 2] as u64;
    let b3 = s[start + 3] as u64;
    let b4 = s[start + 4] as u64;
    let b5 = s[start + 5] as u64;
    let b6 = s[start + 6] as u64;
    let b7 = s[start + 7] as u64;
    b0 | (b1 << 8) | (b2 << 16) | (b3 << 24) | (b4 << 32) | (b5 << 40) | (b6 << 48) | (b7 << 56)
}

/// A fresh copy of `v`.
pub fn copy_bytes(v: &Vec<u8>) -> (r: Vec<u8>)
    ensures
        r@ == v@,
{
    slice_to_vec(v.as_slice())
}

/// The bytes `s[i .. j]` as a fresh vector.
pub fn subvec(s: &[u8], i: usize, j: usize) -> (r: Vec<u8>)
    requires
        i <= j <= s@.len(),
    ensures
        r@ == s@.subrange(i as int, j as int),
{
    slice_to_vec(slice_subrange(s, i, j))
}

/// Append all of `src` to `out`.
pub fn append_bytes(out: &mut Vec<u8>, src: &[u8])
    ensures
        final(out)@ == old(out)@ + src@,
{
    let ghost prefix = out@;
    let mut i: usize = 0;
    while i < src.len()
        invariant
            i <= src@.len(),
            out@ == prefix + src@.subrange(0, i as int),
        decreases src@.len() - i,
    {
        let b = src[i];
        out.push(b);
        assert(prefix + src@.subrange(0, i as int) + seq![b] =~= prefix + src@.subrange(
            0,
            i as int + 1,
        ));
        i = i + 1;
    }
    assert(src@.subrange(0, src@.len() as int) =~= src@);
}

/// The concatenation `a ++ b` as a fresh vector.
pub fn concat_bytes(a: &[u8], b: &[u8]) -> (r: Vec<u8>)
    ensures
        r@ == a@ + b@,
{
    let mut out = slice_to_vec(a);
    append_bytes(&mut out, b);
    out
}

/// Whether two byte strings hold the same bytes.
pub fn bytes_eq(a: &[u8], b: &[u8]) -> (r: bool)
    ensures
        r == (a@ == b@),
{
    if a.len() != b.len() {
        assert(a@.len() != b@.len());
        return false;
    }
    let mut i: usize = 0;
    while i < a.len()
        invariant
            i <= a@.len(),
            a@.len() == b@.len(),
            forall|j: int| 0 <= j < i ==> a@[j] == b@[j],
        decreases a@.len() - i,
    {
        if a[i] != b[i] {
            return false;
        }
        i = i + 1;
    }
    assert(a@ =~= b@);
    true
}

} // verus!
