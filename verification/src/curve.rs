//! The Montgomery curve `v^2 = u^3 + A u^2 + u` over the field, and the
//! Elligator2 map onto its u-coordinates, as mathematics.

use crate::field::{field_prime, lemma_field_prime_bounds};
use vstd::arithmetic::div_mod::{lemma_fundamental_div_mod, lemma_mod_multiples_vanish};
use vstd::prelude::*;

verus! {

/// The curve parameter `A` of curve25519.
pub open spec fn montgomery_a() -> nat {
    486662
}

/// `v` is a reduced field element whose square is congruent to `x`.
pub open spec fn is_square_root(v: nat, x: nat) -> bool {
    v < field_prime() && (v * v) % field_prime() == x % field_prime()
}

/// `x` is a square in the field; zero counts as one.
pub open spec fn is_square(x: nat) -> bool {
    exists|v: nat| is_square_root(v, x)
}

/// `y` is a reduced field element with `x y = 1` in the field.
pub open spec fn is_inverse(y: nat, x: nat) -> bool {
    y < field_prime() && (x * y) % field_prime() == 1
}

/// The inverse of `x` in the field, and zero where `x` has none.
pub open spec fn field_inverse(x: nat) -> nat {
    if exists|y: nat| is_inverse(y, x) {
        choose|y: nat| is_inverse(y, x)
    } else {
        0
    }
}

/// The right-hand side `u^3 + A u^2 + u` of the curve equation, over the
/// integers.
pub open spec fn curve_rhs(u: nat) -> nat {
    u * u * u + montgomery_a() * u * u + u
}

/// `u` is the u-coordinate of a point of the curve itself, not of its twist:
/// the curve equation has a solution `v` in the field.
pub open spec fn on_curve(u: nat) -> bool {
    is_square(curve_rhs(u))
}

/// The Elligator2 map with the non-square 2, from a field element `r` to a
/// reduced u-coordinate.
///
/// With `d = -A / (1 + 2 r^2)`, the image is `d` where `d` is on the curve
/// and `-d - A` where it is not. A vanishing denominator maps to zero.
pub open spec fn elligator2_u(r: nat) -> nat {
    let p = field_prime();
    let denominator = (1 + 2 * r * r) % p;
    if denominator == 0 {
        0
    } else {
        let d = (((p - montgomery_a()) as nat) * field_inverse(denominator)) % p;
        if on_curve(d) {
            d
        } else {
            ((2 * p - d - montgomery_a()) as nat) % p
        }
    }
}

/// Every image of the map is a reduced field element.
pub proof fn lemma_elligator2_reduced(r: nat)
    ensures
        elligator2_u(r) < field_prime(),
{
    lemma_field_prime_bounds();
}

/// The map reads its argument only through its square in the field: two
/// arguments with congruent squares have the same image.
pub proof fn lemma_elligator2_by_square(r: nat, s: nat)
    requires
        (r * r) % field_prime() == (s * s) % field_prime(),
    ensures
        elligator2_u(r) == elligator2_u(s),
{
    lemma_denominator_by_square(r);
    lemma_denominator_by_square(s);
}

/// A field element and its negative have the same image.
pub proof fn lemma_elligator2_negation(r: nat)
    requires
        r <= field_prime(),
    ensures
        elligator2_u((field_prime() - r) as nat) == elligator2_u(r),
{
    lemma_field_prime_bounds();
    let p = field_prime() as int;
    let n = p - r;
    let square = (r * r) as int;
    assert(n * n == (p - 2 * r) * p + square) by (nonlinear_arith)
        requires
            n == p - r,
            square == r * r,
    ;
    lemma_mod_multiples_vanish(p - 2 * r, square, p);
    lemma_elligator2_by_square((field_prime() - r) as nat, r);
}

/// The denominator `1 + 2 r^2`, in the field, is a function of `r^2` in the
/// field.
proof fn lemma_denominator_by_square(r: nat)
    ensures
        (1 + 2 * r * r) % field_prime() == (1 + 2 * ((r * r) % field_prime())) % field_prime(),
{
    lemma_field_prime_bounds();
    let p = field_prime() as int;
    let square = (r * r) as int;
    let q = square / p;
    let residue = square % p;
    lemma_fundamental_div_mod(square, p);
    assert(1 + 2 * r * r == (2 * q) * p + (1 + 2 * residue)) by (nonlinear_arith)
        requires
            square == r * r,
            square == p * q + residue,
    ;
    lemma_mod_multiples_vanish(2 * q, 1 + 2 * residue, p);
}

} // verus!
