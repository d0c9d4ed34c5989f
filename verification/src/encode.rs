//! The encoder: from a value to its record.
use crate::sink::ByteSink;
use crate::table::{DynNumType, DynNumTypeInfo};
use crate::wire::{le_byte, le_bytes, le_value, lemma_le_value_of_le_bytes};
use vstd::arithmetic::div_mod::{lemma_mod_mod, lemma_small_mod};
use vstd::arithmetic::power2::{
    lemma2_to64, lemma2_to64_rest, lemma_pow2_adds, lemma_pow2_pos, lemma_pow2_strictly_increases,
    pow2,
};
use vstd::bits::{lemma_u64_pow2_no_overflow, lemma_u64_shl_is_mul, lemma_u64_shr_is_div};
use vstd::prelude::*;

verus! {

/// Why a value could not be encoded.
#[derive(Clone, Copy, Debug, PartialEq, Eq)]
pub enum EncodeError {
    /// The value is 2^61 or more: no width class can hold it.
    Range,
}

/// The narrowest class that can hold `value`, if any can.
pub open spec fn narrowest(value: u64) -> Option<DynNumType> {
    DynNumType::first_match(|class: DynNumType| class.typeinfo().holds(value))
}

/// The record of `value` in `class`: the tagged value in as many
/// little-endian bytes as the class has.
pub open spec fn record(class: DynNumType, value: u64) -> Seq<u8> {
    let info = class.typeinfo();
    le_bytes(info.tagged(value), info.bytecapacity as nat)
}

/// The bytes that stand for `value`: its record in the narrowest class that
/// holds it. There are none for a value that no class holds.
pub open spec fn encoding(value: u64) -> Option<Seq<u8>> {
    match narrowest(value) {
        Some(class) => Some(record(class, value)),
        None => None,
    }
}

/// A value passes the range test of a row exactly if the row's class holds it.
proof fn lemma_range_test(info: DynNumTypeInfo, value: u64)
    requires
        info.bitrange < 64,
    ensures
        (value >> info.bitrange == 0) <==> info.holds(value),
{
    let limit: nat = pow2(info.bitrange as nat);
    lemma_u64_shr_is_div(value, info.bitrange as u64);
    lemma_pow2_pos(info.bitrange as nat);
    assert((value as nat / limit == 0) <==> value < limit) by (nonlinear_arith)
        requires
            limit > 0,
    ;
}

/// Shifting a value that the class holds past the tag and setting the tag
/// pattern below it gives the tagged value.
proof fn lemma_tagging(info: DynNumTypeInfo, value: u64)
    requires
        info.wf(),
        info.holds(value),
    ensures
        (value << info.tagsize) | (info.tagcode as u64) == info.tagged(value),
{
    let shift: u64 = info.tagsize as u64;
    let code: u64 = info.tagcode as u64;
    info.lemma_tagged(value);
    lemma2_to64();
    if info.bytecapacity < 8 {
        lemma_pow2_strictly_increases(8 * info.bytecapacity as nat, 64);
    }
    lemma_u64_pow2_no_overflow(info.tagsize as nat);
    lemma_u64_shl_is_mul(value, shift);
    lemma_u64_shl_is_mul(1, shift);
    let moved: u64 = value << shift;
    assert(moved | code == moved + code) by (bit_vector)
        requires
            shift < 8,
            code < (1u64 << shift),
            moved == value << shift,
    ;
}

/// Cutting byte `index` out of a 64-bit number by shift and mask gives that
/// byte of its little-endian form.
proof fn lemma_cut(number: u64, index: u8)
    requires
        index < 8,
    ensures
        (number >> (8 * index)) & 0xff == le_byte(number as nat, index as nat),
{
    let shift: u64 = (8 * index) as u64;
    lemma_u64_shr_is_div(number, shift);
    let moved: u64 = number >> shift;
    assert(moved & 0xff == moved % 256) by (bit_vector);
}

/// Encodes `num` into the narrowest record that holds it and hands the
/// record's bytes to `target`, least significant first. Returns the number of
/// bytes handed over. A value of 2^61 or more is refused, and `target` gets
/// nothing.
pub fn encode_into(num: u64, target: &mut impl ByteSink) -> (res: Result<u8, EncodeError>)
    requires
        (*old(target)).wf(),
    ensures
        (*final(target)).wf(),
        res is Ok <==> num < 0x2000_0000_0000_0000u64,
        match encoding(num) {
            Some(bytes) => {
                &&& res == Ok::<u8, EncodeError>(bytes.len() as u8)
                &&& (*final(target)).emitted() == (*old(target)).emitted() + bytes
            },
            None => {
                &&& res == Err::<u8, EncodeError>(EncodeError::Range)
                &&& (*final(target)).emitted() == (*old(target)).emitted()
            },
        },
{
    let list = DynNumType::as_list();
    let mut typ: Option<DynNumType> = None;
    let mut i: usize = 0;
    while i < list.len()
        invariant
            i <= list.len(),
            list@ == DynNumType::table(),
            forall|j: int| 0 <= j < i ==> !(#[trigger] list@[j]).typeinfo().holds(num),
            typ matches Some(class) ==> i < list.len() && class == list@[i as int]
                && class.typeinfo().holds(num),
        ensures
            typ.is_none() ==> i == list.len(),
        decreases list.len() - i,
    {
        let info = list[i].get_typeinfo();
        proof {
            lemma_range_test(info, num);
        }
        if num >> info.bitrange == 0 {
            typ = Some(list[i]);
            break;
        }
        i += 1;
    }
    proof {
        DynNumType::lemma_first_of(
            list@,
            |class: DynNumType| class.typeinfo().holds(num),
            i as int,
        );
        lemma_encodable(num);
    }
    let typdata = match typ {
        Some(class) => class.get_typeinfo(),
        None => {
            return Err(EncodeError::Range);
        },
    };
    proof {
        typ.unwrap().lemma_rows_wf();
        lemma_tagging(typdata, num);
    }
    let tagged: u64 = (num << typdata.tagsize) | (typdata.tagcode as u64);
    let mut n: u8 = 0;
    while n < typdata.bytecapacity
        invariant
            n <= typdata.bytecapacity <= 8,
            tagged == typdata.tagged(num),
            (*target).wf(),
            (*target).emitted() == (*old(target)).emitted() + le_bytes(tagged as nat, n as nat),
        decreases typdata.bytecapacity - n,
    {
        proof {
            lemma_cut(tagged, n);
            assert(le_bytes(tagged as nat, n as nat).push(le_byte(tagged as nat, n as nat))
                =~= le_bytes(tagged as nat, (n + 1) as nat));
        }
        target.emit(((tagged >> (8 * n)) & 0xff) as u8);
        n += 1;
    }
    Ok(typdata.bytecapacity)
}

/// A value has an encoding exactly if it is below the bound, which is 2^61,
/// and then the class chosen for it holds it.
pub proof fn lemma_encodable(value: u64)
    ensures
        encoding(value) is Some <==> value < 0x2000_0000_0000_0000u64,
        encoding(value) is Some <==> value < DynNumType::bound(),
        narrowest(value) is Some <==> value < DynNumType::bound(),
        narrowest(value) matches Some(class) ==> class.typeinfo().holds(value),
{
    reveal_with_fuel(DynNumType::first_of, 5);
    lemma2_to64();
    lemma2_to64_rest();
}

/// A record is as long as its class says. Read as one little-endian number
/// it is the tagged value: shifted right by the tag size it gives the value,
/// and its low bits, which are those of its first byte, hold the class's
/// pattern.
pub proof fn lemma_record(class: DynNumType, value: u64)
    requires
        class.typeinfo().holds(value),
    ensures
        record(class, value).len() == class.typeinfo().bytecapacity,
        le_value(record(class, value)) == class.typeinfo().tagged(value),
        le_value(record(class, value)) / pow2(class.typeinfo().tagsize as nat) == value,
        le_value(record(class, value)) % pow2(class.typeinfo().tagsize as nat)
            == class.typeinfo().tagcode,
        class.typeinfo().tag_matches(record(class, value)[0]),
{
    let info = class.typeinfo();
    let tagged: nat = info.tagged(value);
    let size: nat = info.tagsize as nat;
    let rest: nat = (8 - size) as nat;
    class.lemma_rows_wf();
    info.lemma_tagged(value);
    lemma_le_value_of_le_bytes(tagged, info.bytecapacity as nat);
    lemma_small_mod(tagged, pow2(8 * info.bytecapacity as nat));
    assert(record(class, value)[0] == tagged % 256) by {
        lemma2_to64();
        assert(record(class, value)[0] == le_byte(tagged, 0));
        assert(tagged / pow2(0) == tagged);
    }
    assert((tagged % 256) % pow2(size) == tagged % pow2(size)) by {
        lemma2_to64();
        lemma_pow2_pos(size);
        lemma_pow2_pos(rest);
        lemma_pow2_adds(size, rest);
        lemma_mod_mod(tagged as int, pow2(size) as int, pow2(rest) as int);
    }
}

/// The encoding is as short as the table allows: the class chosen for a
/// value holds it, the encoding has that class's length, and no class that
/// holds the value has a shorter record.
pub proof fn lemma_encoding_minimal(value: u64, other: DynNumType)
    requires
        other.typeinfo().holds(value),
    ensures
        narrowest(value) matches Some(class) && encoding(value) matches Some(bytes)
            && class.typeinfo().holds(value) && bytes.len() == class.typeinfo().bytecapacity
            && bytes.len() <= other.typeinfo().bytecapacity,
{
    reveal_with_fuel(DynNumType::first_of, 5);
    lemma2_to64();
    lemma2_to64_rest();
}

} // verus!
