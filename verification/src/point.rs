//! The one call into `curve25519_elligator2`, and what is taken on trust
//! about it.

use crate::curve::{elligator2_u, on_curve};
use crate::field::{field_element, le_encode, le_value};
use curve25519_elligator2::elligator2::Legacy;
use curve25519_elligator2::MontgomeryPoint;
use vstd::prelude::*;

verus! {

/// Calls `MontgomeryPoint::from_representative` of `curve25519_elligator2`
/// with its `Legacy` variant, the one that applies the map to all 255 low
/// bits of the representative, and hands out the point's 32 bytes.
///
/// Trusted, not proved:
/// - The call always yields a point: the variant wraps its answer with a
///   constant true choice.
/// - The bytes are the canonical encoding of `elligator2_u` at the
///   representative's field element. The representative is decoded by
///   `FieldElement::from_bytes`, which masks bit 255 and works modulo the
///   prime. The u-coordinate is `d = -A / (1 + 2 r^2)` where
///   `d^3 + A d^2 + d` is a square and `-d - A` where it is not. The
///   denominator is never zero, 2 being no square. The passage through the
///   Edwards form and back returns the same u-coordinate, with `(0, 0)` for
///   the neutral element, and ends in `FieldElement::as_bytes`.
/// - The u-coordinate belongs to the curve and not to its twist, as the
///   function is documented to return a curve point. That the formula above
///   always yields one is a theorem on quadratic residues, which is not
///   proved here.
#[verifier::external_body]
pub(crate) fn map_representative(r: &[u8; 32]) -> (u: Option<[u8; 32]>)
    ensures
        u is Some,
        u->0@ == le_encode(elligator2_u(field_element(r@)), 32),
        on_curve(le_value(u->0@)),
{
    MontgomeryPoint::from_representative::<Legacy>(r).map(|p| p.0)
}

} // verus!
