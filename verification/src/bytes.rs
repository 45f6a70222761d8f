//! Small byte-level building blocks shared by the codec and the cipher.

use vstd::prelude::*;

verus! {

/// The big-endian bytes of a 32-bit value.
pub open spec fn u32_be_seq(x: u32) -> Seq<u8> {
    seq![
        (((x >> 24u32) % 256) as u8),
        (((x >> 16u32) % 256) as u8),
        (((x >> 8u32) % 256) as u8),
        ((x % 256) as u8),
    ]
}

/// The big-endian bytes of a 64-bit value.
pub open spec fn u64_be_seq(x: u64) -> Seq<u8> {
    seq![
        (((x >> 56u64) % 256) as u8),
        (((x >> 48u64) % 256) as u8),
        (((x >> 40u64) % 256) as u8),
        (((x >> 32u64) % 256) as u8),
        (((x >> 24u64) % 256) as u8),
        (((x >> 16u64) % 256) as u8),
        (((x >> 8u64) % 256) as u8),
        ((x % 256) as u8),
    ]
}

/// Append the four big-endian bytes of `x`.
pub fn push_u32_be(v: &mut Vec<u8>, x: u32)
    ensures
        final(v)@ == old(v)@ + u32_be_seq(x),
{
    v.push(((x >> 24u32) % 256) as u8);
    v.push(((x >> 16u32) % 256) as u8);
    v.push(((x >> 8u32) % 256) as u8);
    v.push((x % 256) as u8);
    proof {
        assert(v@ =~= old(v)@ + u32_be_seq(x));
    }
}

/// Append the eight big-endian bytes of `x`.
pub fn push_u64_be(v: &mut Vec<u8>, x: u64)
    ensures
        final(v)@ == old(v)@ + u64_be_seq(x),
{
    v.push(((x >> 56u64) % 256) as u8);
    v.push(((x >> 48u64) % 256) as u8);
    v.push(((x >> 40u64) % 256) as u8);
    v.push(((x >> 32u64) % 256) as u8);
    v.push(((x >> 24u64) % 256) as u8);
    v.push(((x >> 16u64) % 256) as u8);
    v.push(((x >> 8u64) % 256) as u8);
    v.push((x % 256) as u8);
    proof {
        assert(v@ =~= old(v)@ + u64_be_seq(x));
    }
}

/// A fresh copy of `src[start..end]`.
pub fn copy_subrange(src: &Vec<u8>, start: usize, end: usize) -> (r: Vec<u8>)
    requires
        start <= end <= src@.len(),
    ensures
        r@ == src@.subrange(start as int, end as int),
{
    let mut r: Vec<u8> = Vec::new();
    let mut i: usize = start;
    while i < end
        invariant
            start <= i <= end <= src@.len(),
            r@ == src@.subrange(start as int, i as int),
        decreases end - i,
    {
        r.push(src[i]);
        proof {
            assert(src@.subrange(start as int, i as int).push(src@[i as int]) =~= src@.subrange(
                start as int,
                i + 1,
            ));
        }
        i = i + 1;
    }
    r
}

/// Byte-for-byte equality of two vectors.
pub fn vec_u8_eq(a: &Vec<u8>, b: &Vec<u8>) -> (r: bool)
    ensures
        r == (a@ == b@),
{
    if a.len() != b.len() {
        return false;
    }
    let mut i: usize = 0;
    while i < a.len()
        invariant
            i <= a@.len(),
            a@.len() == b@.len(),
            forall|j: int| 0 <= j < i ==> a@[j] == b@[j],
        decreases a@.len() - i,
    {
        if a[i] != b[i] {
            return false;
        }
        i = i + 1;
    }
    proof {
        assert(a@ =~= b@);
    }
    true
}

} // verus!
