//! The field of integers modulo `2^255 - 19` and its 32-byte encoding, least
//! significant byte first.

use vstd::arithmetic::div_mod::{lemma_mod_multiples_vanish, lemma_small_mod};
use vstd::arithmetic::power2::{lemma2_to64, lemma_pow2_adds, lemma_pow2_strictly_increases, pow2};
use vstd::prelude::*;

verus! {

/// Length in bytes of an encoded field element.
pub const ENCODED_LEN: usize = 32;

/// The field prime `2^255 - 19`.
pub open spec fn field_prime() -> nat {
    (pow2(255) - 19) as nat
}

/// The number that a byte string encodes, least significant byte first.
pub open spec fn le_value(bytes: Seq<u8>) -> nat
    decreases bytes.len(),
{
    if bytes.len() == 0 {
        0
    } else {
        bytes[0] as nat + 256 * le_value(bytes.skip(1))
    }
}

/// The `len` low bytes of `n`, least significant byte first.
pub open spec fn le_encode(n: nat, len: nat) -> Seq<u8>
    decreases len,
{
    if len == 0 {
        Seq::empty()
    } else {
        seq![(n % 256) as u8] + le_encode(n / 256, (len - 1) as nat)
    }
}

/// The field element that a 32-byte string stands for: bit 255 is ignored
/// and the remaining 255-bit number is reduced modulo the prime.
pub open spec fn field_element(bytes: Seq<u8>) -> nat {
    (le_value(bytes) % pow2(255)) % field_prime()
}

/// A 32-byte string that encodes a number below the field prime: the one
/// encoding of its field element.
pub open spec fn is_canonical(bytes: Seq<u8>) -> bool {
    bytes.len() == ENCODED_LEN && le_value(bytes) < field_prime()
}

/// The byte string with bit 255, the top bit of its last byte, cleared.
pub open spec fn clear_high_bit(bytes: Seq<u8>) -> Seq<u8>
    recommends
        bytes.len() == ENCODED_LEN,
{
    bytes.update(31, bytes[31] & 0x7f)
}

/// The prime lies strictly between `2^254` and `2^255`.
pub proof fn lemma_field_prime_bounds()
    ensures
        pow2(254) < field_prime() < pow2(255),
        field_prime() + 19 == pow2(255),
{
    lemma2_to64();
    lemma_pow2_adds(254, 1);
    lemma_pow2_strictly_increases(5, 254);
}

/// An encoding of `len` bytes has exactly `len` bytes.
pub proof fn lemma_le_encode_len(n: nat, len: nat)
    ensures
        le_encode(n, len).len() == len,
    decreases len,
{
    if len > 0 {
        lemma_le_encode_len(n / 256, (len - 1) as nat);
    }
}

/// A string of `len` bytes encodes a number below `2^(8 len)`.
pub proof fn lemma_le_value_bound(bytes: Seq<u8>)
    ensures
        le_value(bytes) < pow2(8 * bytes.len()),
    decreases bytes.len(),
{
    lemma2_to64();
    if bytes.len() > 0 {
        let rest = bytes.skip(1);
        lemma_le_value_bound(rest);
        lemma_pow2_adds(8, 8 * rest.len());
        assert(le_value(bytes) < 256 * pow2(8 * rest.len())) by (nonlinear_arith)
            requires
                le_value(bytes) == bytes[0] as nat + 256 * le_value(rest),
                bytes[0] < 256,
                le_value(rest) < pow2(8 * rest.len()),
        ;
    }
}

/// Decoding undoes encoding for every number that fits in `len` bytes.
pub proof fn lemma_decode_encode(n: nat, len: nat)
    requires
        n < pow2(8 * len),
    ensures
        le_value(le_encode(n, len)) == n,
    decreases len,
{
    lemma2_to64();
    if len == 0 {
    } else {
        let rest_len = (len - 1) as nat;
        lemma_pow2_adds(8, 8 * rest_len);
        assert(n / 256 < pow2(8 * rest_len)) by (nonlinear_arith)
            requires
                n < 256 * pow2(8 * rest_len),
        ;
        lemma_decode_encode(n / 256, rest_len);
        let enc = le_encode(n, len);
        assert(enc.skip(1) =~= le_encode(n / 256, rest_len));
        assert(n == n % 256 + 256 * (n / 256)) by (nonlinear_arith);
    }
}

/// The 32-byte encoding of a reduced field element is canonical and decodes
/// to that element.
pub proof fn lemma_encoding_is_canonical(n: nat)
    requires
        n < field_prime(),
    ensures
        is_canonical(le_encode(n, 32)),
        le_value(le_encode(n, 32)) == n,
{
    lemma_field_prime_bounds();
    lemma_pow2_strictly_increases(255, 256);
    lemma_le_encode_len(n, 32);
    lemma_decode_encode(n, 32);
}

/// The value of a string is that of its first `k` bytes plus `2^(8k)` times
/// that of the rest.
pub proof fn lemma_le_value_split(bytes: Seq<u8>, k: nat)
    requires
        k <= bytes.len(),
    ensures
        le_value(bytes) == le_value(bytes.take(k as int)) + pow2(8 * k) * le_value(
            bytes.skip(k as int),
        ),
    decreases k,
{
    lemma2_to64();
    if k == 0 {
        assert(bytes.take(0) =~= Seq::<u8>::empty());
        assert(bytes.skip(0) =~= bytes);
        assert(pow2(8 * k) == 1);
        assert(pow2(8 * k) * le_value(bytes.skip(0)) == le_value(bytes)) by (nonlinear_arith)
            requires
                pow2(8 * k) == 1,
                bytes.skip(0) == bytes,
        ;
    } else {
        let rest = bytes.skip(1);
        let j = (k - 1) as nat;
        lemma_le_value_split(rest, j);
        assert(rest.skip(j as int) =~= bytes.skip(k as int));
        assert(bytes.take(k as int).skip(1) =~= rest.take(j as int));
        lemma_pow2_adds(8, 8 * j);
        let head = le_value(rest.take(j as int));
        let tail = le_value(bytes.skip(k as int));
        let first = bytes.take(k as int);
        assert(le_value(first) == first[0] as nat + 256 * le_value(first.skip(1)));
        assert(256 * (head + pow2(8 * j) * tail) == 256 * head + pow2(8 * k) * tail)
            by (nonlinear_arith)
            requires
                pow2(8 * k) == 256 * pow2(8 * j),
        ;
    }
}

/// Bit 255 of a representative has no part in its field element.
pub proof fn lemma_high_bit_ignored(bytes: Seq<u8>)
    requires
        bytes.len() == ENCODED_LEN,
    ensures
        le_value(clear_high_bit(bytes)) == le_value(bytes) % pow2(255),
        field_element(clear_high_bit(bytes)) == field_element(bytes),
{
    lemma2_to64();
    let cleared = clear_high_bit(bytes);
    let top = bytes[31];
    let kept = top & 0x7f;
    let low = le_value(bytes.take(31));
    lemma_le_value_split(bytes, 31);
    lemma_le_value_split(cleared, 31);
    assert(cleared.take(31) =~= bytes.take(31));
    lemma_le_value_bound(bytes.take(31));
    assert(bytes.skip(31).skip(1) =~= Seq::<u8>::empty());
    assert(cleared.skip(31).skip(1) =~= Seq::<u8>::empty());
    assert(le_value(bytes.skip(31).skip(1)) == 0);
    assert(le_value(cleared.skip(31).skip(1)) == 0);
    assert(le_value(bytes.skip(31)) == top as nat);
    assert(le_value(cleared.skip(31)) == kept as nat);
    let high: u8 = top >> 7;
    assert(top == kept + 128 * high && high <= 1 && kept < 128) by (bit_vector)
        requires
            kept == top & 0x7f,
            high == top >> 7,
    ;
    lemma_pow2_adds(248, 7);
    let unit = pow2(248);
    let whole = pow2(255);
    let v = le_value(cleared);
    assert(v < whole) by (nonlinear_arith)
        requires
            v == low + unit * (kept as nat),
            low < unit,
            kept < 128,
            whole == unit * 128,
    ;
    assert(le_value(bytes) == whole * (high as nat) + v) by (nonlinear_arith)
        requires
            le_value(bytes) == low + unit * (top as nat),
            v == low + unit * (kept as nat),
            top == kept + 128 * high,
            whole == unit * 128,
    ;
    lemma_small_mod(v, whole);
    lemma_mod_multiples_vanish(high as int, v as int, whole as int);
}

} // verus!
