//! Byte-level helpers shared by the encoders: appending, comparing and
//! little-endian framing of integers.
use vstd::prelude::*;
use vstd::bytes::{spec_u16_to_le_bytes, spec_u32_to_le_bytes, spec_u64_to_le_bytes, spec_u128_to_le_bytes};

verus! {

/// Appends every byte of `src` to `buf`.
pub fn append_bytes(buf: &mut Vec<u8>, src: &[u8])
    ensures
        final(buf)@ == old(buf)@ + src@,
{
    let n = src.len();
    let mut i: usize = 0;
    while i < n
        invariant
            n == src@.len(),
            i <= n,
            buf@ == old(buf)@ + src@.subrange(0, i as int),
        decreases n - i,
    {
        buf.push(src[i]);
        i = i + 1;
        assert(src@.subrange(0, i as int) == src@.subrange(0, i - 1) + seq![src@[i - 1]]);
    }
    assert(src@.subrange(0, n as int) == src@);
}

/// Returns whether two byte slices hold the same bytes.
pub fn bytes_eq(a: &[u8], b: &[u8]) -> (r: bool)
    ensures
        r == (a@ == b@),
{
    if a.len() != b.len() {
        return false;
    }
    let n = a.len();
    let mut i: usize = 0;
    while i < n
        invariant
            n == a@.len(),
            n == b@.len(),
            i <= n,
            forall|j: int| 0 <= j < i ==> a@[j] == b@[j],
        decreases n - i,
    {
        if a[i] != b[i] {
            return false;
        }
        i = i + 1;
    }
    assert(a@ =~= b@);
    true
}

/// Appends the 2-byte little-endian form of `x`.
pub fn push_u16_le(buf: &mut Vec<u8>, x: u16)
    ensures
        final(buf)@ == old(buf)@ + spec_u16_to_le_bytes(x),
        spec_u16_to_le_bytes(x).len() == 2,
{
    let b = vstd::bytes::u16_to_le_bytes(x);
    proof { vstd::bytes::lemma_auto_spec_u16_to_from_le_bytes(); }
    append_bytes(buf, b.as_slice());
}

/// Appends the 4-byte little-endian form of `x`.
pub fn push_u32_le(buf: &mut Vec<u8>, x: u32)
    ensures
        final(buf)@ == old(buf)@ + spec_u32_to_le_bytes(x),
        spec_u32_to_le_bytes(x).len() == 4,
{
    let b = vstd::bytes::u32_to_le_bytes(x);
    proof { vstd::bytes::lemma_auto_spec_u32_to_from_le_bytes(); }
    append_bytes(buf, b.as_slice());
}

/// Appends the 8-byte little-endian form of `x`.
pub fn push_u64_le(buf: &mut Vec<u8>, x: u64)
    ensures
        final(buf)@ == old(buf)@ + spec_u64_to_le_bytes(x),
        spec_u64_to_le_bytes(x).len() == 8,
{
    let b = vstd::bytes::u64_to_le_bytes(x);
    proof { vstd::bytes::lemma_auto_spec_u64_to_from_le_bytes(); }
    append_bytes(buf, b.as_slice());
}

/// Appends the 16-byte little-endian form of `x`.
pub fn push_u128_le(buf: &mut Vec<u8>, x: u128)
    ensures
        final(buf)@ == old(buf)@ + spec_u128_to_le_bytes(x),
        spec_u128_to_le_bytes(x).len() == 16,
{
    let b = vstd::bytes::u128_to_le_bytes(x);
    proof { vstd::bytes::lemma_auto_spec_u128_to_from_le_bytes(); }
    append_bytes(buf, b.as_slice());
}

/// Copies a 32-byte slice into an array.
pub fn array32_from_slice(s: &[u8]) -> (arr: [u8; 32])
    requires
        s@.len() == 32,
    ensures
        arr@ == s@,
{
    let mut arr = [0u8; 32];
    let mut i: usize = 0;
    while i < 32
        invariant
            s@.len() == 32,
            i <= 32,
            forall|j: int| 0 <= j < i ==> arr@[j] == s@[j],
        decreases 32 - i,
    {
        arr[i] = s[i];
        i = i + 1;
    }
    assert(arr@ =~= s@);
    arr
}

/// Returns whether two 32-byte arrays hold the same bytes.
pub fn array32_eq(a: &[u8; 32], b: &[u8; 32]) -> (r: bool)
    ensures
        r == (a@ == b@),
{
    bytes_eq(a.as_slice(), b.as_slice())
}

} // verus!
