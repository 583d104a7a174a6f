//! Content-derived commitments.
//!
//! A commitment is a digest that uniquely identifies a payload; identity of
//! payloads is commitment equality.  This module supplies the commitment type
//! and the digest over raw bytes (64-bit FNV-1a), standing in for the
//! threshold-crypto collaborator's commitment scheme.

use vstd::prelude::*;

verus! {

/// FNV-1a 64-bit offset basis.
pub const DIGEST_OFFSET: u64 = 0xcbf2_9ce4_8422_2325;
/// FNV-1a 64-bit prime.
pub const DIGEST_PRIME: u64 = 0x0000_0100_0000_01b3;

/// An opaque content-derived identifier for a payload.  Two values are the
/// same datum exactly when their commitments are equal.
#[derive(Clone, Copy, PartialEq, Eq, Hash, Debug, Structural)]
pub struct Commitment {
    /// The digest value.
    pub val: u64,
}

/// One step of the digest: mix one byte into the running hash.
pub open spec fn digest_step(h: u64, b: u8) -> u64 {
    ((((h ^ (b as u64)) as int) * (DIGEST_PRIME as int)) % 0x1_0000_0000_0000_0000) as u64
}

/// The digest of a byte sequence: fold `digest_step` over the bytes.
pub open spec fn digest_spec(bytes: Seq<u8>) -> u64
    decreases bytes.len(),
{
    if bytes.len() == 0 {
        DIGEST_OFFSET
    } else {
        digest_step(digest_spec(bytes.drop_last()), bytes.last())
    }
}

/// The commitment of a byte sequence.
pub open spec fn commitment_of(bytes: Seq<u8>) -> Commitment {
    Commitment { val: digest_spec(bytes) }
}

impl Commitment {
    /// Compute the commitment of a payload.
    pub fn from_bytes(bytes: &Vec<u8>) -> (c: Commitment)
        ensures
            c == commitment_of(bytes@),
    {
        let mut h: u64 = DIGEST_OFFSET;
        let mut i: usize = 0;
        while i < bytes.len()
            invariant
                i <= bytes.len(),
                h == digest_spec(bytes@.subrange(0, i as int)),
            decreases bytes.len() - i,
        {
            proof {
                assert(bytes@.subrange(0, i + 1).drop_last() =~= bytes@.subrange(0, i as int));
                assert(bytes@.subrange(0, i + 1).last() == bytes@[i as int]);
            }
            h = (h ^ (bytes[i] as u64)).wrapping_mul(DIGEST_PRIME);
            i = i + 1;
        }
        proof {
            assert(bytes@.subrange(0, bytes@.len() as int) =~= bytes@);
        }
        Commitment { val: h }
    }
}

/// Copy a byte vector.
pub fn copy_bytes(v: &Vec<u8>) -> (r: Vec<u8>)
    ensures
        r@ == v@,
{
    copy_vec(v)
}

/// Copy a vector of plain values.
pub fn copy_vec<T: Copy>(v: &Vec<T>) -> (r: Vec<T>)
    ensures
        r@ == v@,
{
    let mut r: Vec<T> = Vec::new();
    let mut i: usize = 0;
    while i < v.len()
        invariant
            i <= v.len(),
            r@ == v@.subrange(0, i as int),
        decreases v.len() - i,
    {
        r.push(v[i]);
        proof {
            assert(r@ =~= v@.subrange(0, i + 1));
        }
        i = i + 1;
    }
    proof {
        assert(v@.subrange(0, v@.len() as int) =~= v@);
    }
    r
}

} // verus!
