//! The map from a representative of any length to a u-coordinate or an
//! error.

use crate::curve::{elligator2_u, lemma_elligator2_reduced, on_curve};
use crate::field::{
    clear_high_bit, field_element, is_canonical, le_encode, le_value, lemma_encoding_is_canonical,
    lemma_high_bit_ignored, ENCODED_LEN,
};
use crate::point::map_representative;
use vstd::prelude::*;

verus! {

/// Why a representative was refused.
#[derive(Clone, Copy, Debug, PartialEq, Eq, Structural)]
pub enum MapError {
    /// The representative is not exactly 32 bytes long.
    InvalidLength,
}

impl MapError {
    /// The error as a sentence for whoever supplied the representative.
    pub fn message(&self) -> (msg: &'static str)
        ensures
            msg@ == "expected 32 bytes"@,
    {
        match self {
            MapError::InvalidLength => "expected 32 bytes",
        }
    }
}

/// What `elligator2_curve25519_u` returns on `rep`, over byte sequences:
/// the length error for any length but 32, else the 32-byte encoding of the
/// image of the representative's field element.
pub open spec fn map_result(rep: Seq<u8>) -> Result<Seq<u8>, MapError> {
    if rep.len() == ENCODED_LEN {
        Ok(le_encode(elligator2_u(field_element(rep)), 32))
    } else {
        Err(MapError::InvalidLength)
    }
}

/// The view of a result of `elligator2_curve25519_u`.
pub open spec fn result_view(res: Result<[u8; 32], MapError>) -> Result<Seq<u8>, MapError> {
    match res {
        Ok(u) => Ok(u@),
        Err(e) => Err(e),
    }
}

/// Copies a 32-byte slice into an array.
fn to_array(rep: &[u8]) -> (r: [u8; 32])
    requires
        rep@.len() == ENCODED_LEN,
    ensures
        r@ == rep@,
{
    let mut r = [0u8; 32];
    let mut i: usize = 0;
    while i < 32
        invariant
            i <= 32,
            rep@.len() == 32,
            forall|j: int| 0 <= j < i ==> r@[j] == rep@[j],
        decreases 32 - i,
    {
        r[i] = rep[i];
        i += 1;
    }
    assert(r@ =~= rep@);
    r
}

/// Maps a representative to the u-coordinate of a curve25519 point by
/// Elligator2.
///
/// A representative that is not 32 bytes long is refused before anything is
/// computed. Every 32-byte string is accepted: its low 255 bits are the field
/// element, bit 255 is ignored, and the result is the canonical encoding of a
/// u-coordinate on the curve.
pub fn elligator2_curve25519_u(rep: &[u8]) -> (res: Result<[u8; 32], MapError>)
    ensures
        result_view(res) == map_result(rep@),
        rep@.len() != ENCODED_LEN <==> res == Err::<[u8; 32], MapError>(MapError::InvalidLength),
        res matches Ok(u) ==> {
            &&& is_canonical(u@)
            &&& le_value(u@) == elligator2_u(field_element(rep@))
            &&& on_curve(le_value(u@))
        },
{
    if rep.len() != 32 {
        return Err(MapError::InvalidLength);
    }
    let r = to_array(rep);
    let u = map_representative(&r);
    proof {
        lemma_elligator2_reduced(field_element(rep@));
        lemma_encoding_is_canonical(elligator2_u(field_element(rep@)));
    }
    Ok(u.unwrap())
}

/// The map is deterministic: representatives that agree byte for byte have
/// the same result, be it a u-coordinate or the length error.
pub proof fn lemma_map_deterministic(a: Seq<u8>, b: Seq<u8>)
    requires
        a.len() == b.len(),
        forall|i: int| 0 <= i < a.len() ==> a[i] == b[i],
    ensures
        map_result(a) == map_result(b),
{
    assert(a =~= b);
}

/// Bit 255 of a representative is ignored: setting or clearing it leaves the
/// result as it was.
pub proof fn lemma_map_ignores_high_bit(rep: Seq<u8>)
    requires
        rep.len() == ENCODED_LEN,
    ensures
        map_result(clear_high_bit(rep)) == map_result(rep),
{
    lemma_high_bit_ignored(rep);
}

} // verus!
