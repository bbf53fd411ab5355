//! The one call into the pairing library: decoding a compressed G2 point.
use vstd::prelude::*;
use ark_serialize::CanonicalDeserialize;

verus! {

/// Whether `b` begins with a valid compressed encoding of a point of the
/// BLS12-381 G2 group (in the prime-order subgroup).
pub uninterp spec fn g2_decodes(b: Seq<u8>) -> bool;

/// The length of a compressed BLS12-381 G2 point.
pub const G2_COMPRESSED_LEN: usize = 96;

/// Relies on `ark_bls12_381::G2Projective::deserialize_compressed` (through
/// ark-serialize's `CanonicalDeserialize`): it reads one 96-byte compressed
/// point from the front of the bytes and validates it; the outcome depends on
/// the bytes alone, and fewer than 96 bytes never decode.
#[verifier::external_body]
pub(crate) fn decodes_as_g2(b: &Vec<u8>) -> (r: bool)
    ensures
        r == g2_decodes(b@),
        b@.len() < G2_COMPRESSED_LEN ==> !r,
{
    ark_bls12_381::G2Projective::deserialize_compressed(&b[..]).is_ok()
}

} // verus!
