//! The keyed fingerprint: a deterministic keyed hash binding the packet
//! header context and the ciphertext together.
//!
//! Two 64-bit multiply-and-xor accumulators absorb the key hash, the
//! 12-byte context prefix and the covered data; the tag is the first
//! 8 bytes of one accumulator followed by the low 4 bytes of the other.
//! The construction is internal to this layer: all that callers rely on is
//! that it is a deterministic function of key, context and data.

use vstd::prelude::*;
use vstd::wrapping::u64_specs;
use crate::bytes::{push_u32_be, push_u64_be, u32_be_seq, u64_be_seq};

verus! {

/// Multiplier for the byte-mixing step (the 64-bit FNV prime).
pub const MIX_PRIME: u64 = 0x100000001b3;

/// Initial state for the first accumulator (the 64-bit FNV offset basis).
pub const MIX_SEED_A: u64 = 0xcbf29ce484222325;

/// Initial state for the second accumulator.
pub const MIX_SEED_B: u64 = 0x9e3779b97f4a7c15;

/// One absorption step of the mixing function.
pub open spec fn mix_step(h: u64, b: u8) -> u64 {
    u64_specs::wrapping_mul(h ^ (b as u64), MIX_PRIME)
}

/// Folding a byte sequence into the mixing state, front to back.
pub open spec fn absorb(h: u64, s: Seq<u8>) -> u64
    decreases s.len(),
{
    if s.len() == 0 {
        h
    } else {
        mix_step(absorb(h, s.drop_last()), s.last())
    }
}

/// The 16-byte keyed hash derived from a shared token.
pub open spec fn hash_of(token: Seq<u8>) -> Seq<u8> {
    u64_be_seq(absorb(MIX_SEED_A, token)) + u64_be_seq(absorb(MIX_SEED_B, token))
}

/// The 12-byte keyed fingerprint over a context prefix and data.
pub open spec fn finger_spec(hash: Seq<u8>, context: Seq<u8>, data: Seq<u8>) -> Seq<u8> {
    u64_be_seq(absorb(absorb(absorb(MIX_SEED_A, hash), context), data)) + u32_be_seq(
        ((absorb(absorb(absorb(MIX_SEED_B, hash), context), data) >> 32u64) % 0x100000000) as u32,
    )
}

/// Fold a byte vector into the mixing state.
fn absorb_bytes(h0: u64, s: &Vec<u8>) -> (r: u64)
    ensures
        r == absorb(h0, s@),
{
    let mut h = h0;
    let mut i: usize = 0;
    while i < s.len()
        invariant
            i <= s@.len(),
            h == absorb(h0, s@.take(i as int)),
        decreases s@.len() - i,
    {
        h = (h ^ (s[i] as u64)).wrapping_mul(MIX_PRIME);
        proof {
            assert(s@.take(i + 1).drop_last() =~= s@.take(i as int));
            assert(s@.take(i + 1).last() == s@[i as int]);
        }
        i = i + 1;
    }
    proof {
        assert(s@.take(s@.len() as int) =~= s@);
    }
    h
}

/// The keyed fingerprint function: holds the 16-byte keyed hash of the
/// shared token and computes per-packet tags from it.
#[derive(Clone)]
pub struct Finger {
    hash: Vec<u8>,
}

impl Finger {
    /// The keyed hash this fingerprint function was built from.
    pub closed spec fn hash_seq(&self) -> Seq<u8> {
        self.hash@
    }

    /// Derive the keyed hash from a shared token.
    pub fn new(token: &Vec<u8>) -> (r: Finger)
        ensures
            r.hash_seq() == hash_of(token@),
            r.hash_seq().len() == 16,
    {
        let a = absorb_bytes(MIX_SEED_A, token);
        let b = absorb_bytes(MIX_SEED_B, token);
        let mut hash: Vec<u8> = Vec::new();
        push_u64_be(&mut hash, a);
        push_u64_be(&mut hash, b);
        proof {
            assert(hash@ =~= hash_of(token@));
        }
        Finger { hash }
    }

    /// Compute the keyed fingerprint over a 12-byte context prefix and the
    /// covered data. Only the context prefix enters the computation; the
    /// context vector's derived tail never does.
    pub fn calculate_finger(&self, context: &Vec<u8>, data: &Vec<u8>) -> (r: Vec<u8>)
        requires
            context@.len() == 12,
        ensures
            r@ == finger_spec(self.hash_seq(), context@, data@),
            r@.len() == 12,
    {
        let a0 = absorb_bytes(MIX_SEED_A, &self.hash);
        let a1 = absorb_bytes(a0, context);
        let a2 = absorb_bytes(a1, data);
        let b0 = absorb_bytes(MIX_SEED_B, &self.hash);
        let b1 = absorb_bytes(b0, context);
        let b2 = absorb_bytes(b1, data);
        let mut r: Vec<u8> = Vec::new();
        push_u64_be(&mut r, a2);
        push_u32_be(&mut r, ((b2 >> 32u64) % 0x100000000) as u32);
        proof {
            assert(r@ =~= finger_spec(self.hash_seq(), context@, data@));
        }
        r
    }
}

} // verus!
