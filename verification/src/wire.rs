//! Little-endian records as numbers.
use vstd::arithmetic::div_mod::lemma_mod_breakdown;
use vstd::arithmetic::power2::{lemma2_to64, lemma_pow2_adds, lemma_pow2_pos, pow2};
use vstd::prelude::*;

verus! {

/// Byte `index` of the little-endian form of `number`.
pub open spec fn le_byte(number: nat, index: nat) -> u8 {
    ((number / pow2(8 * index)) % 256) as u8
}

/// The `length` low bytes of `number`, least significant first.
pub open spec fn le_bytes(number: nat, length: nat) -> Seq<u8> {
    Seq::new(length, |i: int| le_byte(number, i as nat))
}

/// The number that `bytes` spell, least significant byte first.
pub open spec fn le_value(bytes: Seq<u8>) -> nat
    decreases bytes.len(),
{
    if bytes.len() == 0 {
        0
    } else {
        le_value(bytes.drop_last()) + bytes.last() as nat * pow2((8 * (bytes.len() - 1)) as nat)
    }
}

/// A sequence of `n` bytes spells a number below 2^(8n).
pub proof fn lemma_le_value_bound(bytes: Seq<u8>)
    ensures
        le_value(bytes) < pow2(8 * bytes.len()),
    decreases bytes.len(),
{
    if bytes.len() == 0 {
        lemma2_to64();
    } else {
        let high: nat = (8 * (bytes.len() - 1)) as nat;
        lemma_le_value_bound(bytes.drop_last());
        lemma_pow2_adds(high, 8);
        lemma2_to64();
        let unit: nat = pow2(high);
        let last: nat = bytes.last() as nat;
        assert(last * unit + unit <= 256 * unit) by (nonlinear_arith)
            requires
                last < 256,
        ;
    }
}

/// Spelling the `length` low bytes of a number gives the number modulo
/// 2^(8 * length).
pub proof fn lemma_le_value_of_le_bytes(number: nat, length: nat)
    ensures
        le_value(le_bytes(number, length)) == number % pow2(8 * length),
    decreases length,
{
    let bytes = le_bytes(number, length);
    if length == 0 {
        lemma2_to64();
    } else {
        let high: nat = (8 * (length - 1)) as nat;
        assert(bytes.drop_last() =~= le_bytes(number, (length - 1) as nat));
        lemma_le_value_of_le_bytes(number, (length - 1) as nat);
        lemma_pow2_pos(high);
        lemma_pow2_adds(high, 8);
        lemma2_to64();
        lemma_mod_breakdown(number as int, pow2(high) as int, 256);
        assert(bytes.last() == le_byte(number, (length - 1) as nat));
        assert(pow2(high) * 256 == 256 * pow2(high)) by (nonlinear_arith);
        assert(pow2(high) * ((number / pow2(high)) % 256) == ((number / pow2(high)) % 256) * pow2(
            high,
        )) by (nonlinear_arith);
    }
}

} // verus!
