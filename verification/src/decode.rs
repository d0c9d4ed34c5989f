//! The decoder: from the bytes of a source to the value of the record that
//! they begin with.
use crate::table::{DynNumType, DynNumTypeInfo};
use crate::wire::{le_value, lemma_le_value_bound};
use vstd::arithmetic::power2::{
    lemma2_to64, lemma2_to64_rest, lemma_pow2_strictly_increases, pow2,
};
use vstd::bits::{lemma_u64_shl_is_mul, lemma_u64_shr_is_div, lemma_u8_shl_is_mul};
use vstd::prelude::*;
use vstd::std_specs::iter::IteratorSpec;

verus! {

/// Why no value could be decoded.
#[derive(Clone, Copy, Debug, PartialEq, Eq)]
pub enum DecodeError {
    /// The source ran out before the record was complete.
    TruncatedInput,
    /// The first byte carries the tag of no class in the table.
    InvalidTag,
}

/// The class whose tag the byte `first` carries: the first class in table
/// order whose pattern the low bits of `first` hold.
pub open spec fn tag_class(first: u8) -> Option<DynNumType> {
    DynNumType::first_match(|class: DynNumType| class.typeinfo().tag_matches(first))
}

/// What a decoder makes of a source that holds `bytes`.
///
/// The first byte names the class. The record is as many bytes from the
/// start as the class has; its value is the number they spell, with the tag
/// bits dropped. A source that ends before the record does is truncated.
pub open spec fn decoding(bytes: Seq<u8>) -> Result<u64, DecodeError> {
    if bytes.len() == 0 {
        Err(DecodeError::TruncatedInput)
    } else {
        match tag_class(bytes[0]) {
            None => Err(DecodeError::InvalidTag),
            Some(class) => {
                let info = class.typeinfo();
                if bytes.len() < info.bytecapacity {
                    Err(DecodeError::TruncatedInput)
                } else {
                    Ok(
                        (le_value(bytes.take(info.bytecapacity as int)) / pow2(
                            info.tagsize as nat,
                        )) as u64,
                    )
                }
            },
        }
    }
}

/// How many bytes a decoder takes from a source that holds `bytes`: the
/// record's length where the source has that many, and else all there are.
/// A first byte with an unknown tag is taken alone.
pub open spec fn consumed(bytes: Seq<u8>) -> nat {
    if bytes.len() == 0 {
        0
    } else {
        match tag_class(bytes[0]) {
            None => 1,
            Some(class) => {
                let capacity: nat = class.typeinfo().bytecapacity as nat;
                if bytes.len() < capacity {
                    bytes.len()
                } else {
                    capacity
                }
            },
        }
    }
}

/// A byte passes the tag test of a row exactly if it carries the row's tag.
proof fn lemma_tag_test(info: DynNumTypeInfo, first: u8)
    requires
        1 <= info.tagsize < 8,
    ensures
        ((first << ((8 - info.tagsize) as u8)) >> ((8 - info.tagsize) as u8) == info.tagcode)
            <==> info.tag_matches(first),
{
    let size: u8 = info.tagsize;
    let rest: u8 = (8 - size) as u8;
    lemma2_to64();
    lemma_pow2_strictly_increases(size as nat, 8);
    lemma_u8_shl_is_mul(1, size);
    let unit: u8 = 1u8 << size;
    assert((first << rest) >> rest == first % unit) by (bit_vector)
        requires
            1 <= size < 8,
            rest == 8 - size,
            unit == 1u8 << size,
    ;
}

/// Setting a byte above the bytes read so far adds its place value.
proof fn lemma_place(value: u64, byte: u8, index: u8)
    requires
        1 <= index < 8,
        value < pow2(8 * index as nat),
    ensures
        value | ((byte as u64) << (8 * index)) == value + byte as nat * pow2(8 * index as nat),
{
    let shift: u64 = (8 * index) as u64;
    let wide: u64 = byte as u64;
    lemma2_to64();
    lemma2_to64_rest();
    assert(wide * pow2(shift as nat) <= u64::MAX) by (nonlinear_arith)
        requires
            wide < 256,
            pow2(shift as nat) <= 0x100_0000_0000_0000,
    ;
    lemma_u64_shl_is_mul(wide, shift);
    lemma_u64_shl_is_mul(1, shift);
    let moved: u64 = wide << shift;
    assert(value | moved == value + moved) by (bit_vector)
        requires
            shift < 64,
            value < (1u64 << shift),
            moved == wide << shift,
    ;
}

/// Every byte carries the tag of exactly one class: the patterns of the
/// table exclude each other, and together they leave no byte out.
pub proof fn lemma_tag_class(first: u8, class: DynNumType)
    ensures
        tag_class(first) is Some,
        class.typeinfo().tag_matches(first) <==> tag_class(first) == Some(class),
{
    reveal_with_fuel(DynNumType::first_of, 5);
    lemma2_to64();
    assert(first % 2 == 1 || first % 4 == 2 || first % 8 == 4 || first % 8 == 0) by (bit_vector);
    assert(first % 2 == 1 ==> first % 4 != 2 && first % 8 != 4 && first % 8 != 0) by (bit_vector);
    assert(first % 4 == 2 ==> first % 8 != 4 && first % 8 != 0) by (bit_vector);
}

/// A source that ends before the record does is truncated, and only such a
/// source fails: with the whole record at hand there is a value, and the tag
/// is never unknown. In no case is more taken than the source holds, nor
/// more than the record.
pub proof fn lemma_truncation(bytes: Seq<u8>)
    ensures
        consumed(bytes) <= bytes.len(),
        decoding(bytes) != Err::<u64, DecodeError>(DecodeError::InvalidTag),
        bytes.len() == 0 ==> decoding(bytes) == Err::<u64, DecodeError>(
            DecodeError::TruncatedInput,
        ),
        bytes.len() > 0 ==> (tag_class(bytes[0]) matches Some(class) && if bytes.len()
            < class.typeinfo().bytecapacity {
            &&& decoding(bytes) == Err::<u64, DecodeError>(DecodeError::TruncatedInput)
            &&& consumed(bytes) == bytes.len()
        } else {
            &&& decoding(bytes) is Ok
            &&& consumed(bytes) == class.typeinfo().bytecapacity
        }),
{
    if bytes.len() > 0 {
        lemma_tag_class(bytes[0], DynNumType::Byte);
    }
}

/// A record stands for itself: what follows it in the source changes neither
/// its value nor how much is taken.
pub proof fn lemma_self_delimiting(bytes: Seq<u8>, rest: Seq<u8>)
    requires
        decoding(bytes) is Ok,
    ensures
        decoding(bytes + rest) == decoding(bytes),
        consumed(bytes + rest) == consumed(bytes),
{
    lemma_truncation(bytes);
    let class = tag_class(bytes[0]).unwrap();
    let capacity: int = class.typeinfo().bytecapacity as int;
    assert((bytes + rest)[0] == bytes[0]);
    assert((bytes + rest).take(capacity) =~= bytes.take(capacity));
}

/// Reads one record from `input` and returns its value.
///
/// The first byte is taken and names the width class; then the rest of the
/// record is taken, byte by byte. Nothing is taken beyond the record. If the
/// source ends first, the result is `TruncatedInput`.
pub fn decode_binary_stream(input: &mut impl Iterator<Item = u8>) -> (res: Result<
    u64,
    DecodeError,
>)
    ensures
        (*old(input)).obeys_prophetic_iter_laws() ==> {
            let bytes = (*old(input)).remaining();
            &&& res == decoding(bytes)
            &&& (*final(input)).remaining() == bytes.skip(consumed(bytes) as int)
        },
{
    let ghost obeys = (*input).obeys_prophetic_iter_laws();
    let ghost bytes = (*input).remaining();
    let first = match input.next() {
        Some(byte) => byte,
        None => {
            return Err(DecodeError::TruncatedInput);
        },
    };
    let list = DynNumType::as_list();
    let mut typ: Option<DynNumType> = None;
    let mut i: usize = 0;
    while i < list.len()
        invariant
            i <= list.len(),
            list@ == DynNumType::table(),
            forall|j: int| 0 <= j < i ==> !(#[trigger] list@[j]).typeinfo().tag_matches(first),
            typ matches Some(class) ==> i < list.len() && class == list@[i as int]
                && class.typeinfo().tag_matches(first),
        ensures
            typ.is_none() ==> i == list.len(),
        decreases list.len() - i,
    {
        let info = list[i].get_typeinfo();
        let invts: u8 = 8 - info.tagsize;
        proof {
            lemma_tag_test(info, first);
        }
        if (first << invts) >> invts == info.tagcode {
            typ = Some(list[i]);
            break;
        }
        i += 1;
    }
    proof {
        DynNumType::lemma_first_of(
            list@,
            |class: DynNumType| class.typeinfo().tag_matches(first),
            i as int,
        );
        lemma_tag_class(first, DynNumType::Byte);
    }
    let typdata = match typ {
        Some(class) => class.get_typeinfo(),
        None => {
            return Err(DecodeError::InvalidTag);
        },
    };
    let mut value: u64 = first as u64;
    let mut n: u8 = 1;
    proof {
        if obeys {
            reveal_with_fuel(le_value, 2);
            assert(bytes.take(1).drop_last() =~= Seq::<u8>::empty());
            lemma2_to64();
            assert(first as nat * pow2(0) == first) by (nonlinear_arith)
                requires
                    pow2(0) == 1,
            ;
        }
    }
    while n < typdata.bytecapacity
        invariant
            1 <= n <= typdata.bytecapacity <= 8,
            tag_class(first) matches Some(class) && typdata == class.typeinfo(),
            obeys ==> bytes.len() > 0 && bytes[0] == first,
            obeys == (*old(input)).obeys_prophetic_iter_laws(),
            bytes == (*old(input)).remaining(),
            (*input).obeys_prophetic_iter_laws() == obeys,
            obeys ==> n <= bytes.len(),
            obeys ==> (*input).remaining() == bytes.skip(n as int),
            obeys ==> value == le_value(bytes.take(n as int)),
        decreases typdata.bytecapacity - n,
    {
        let byte = match input.next() {
            Some(byte) => byte,
            None => {
                proof {
                    if obeys {
                        assert(bytes.skip(n as int).len() == 0);
                        assert((*input).remaining() =~= bytes.skip(bytes.len() as int));
                    }
                }
                return Err(DecodeError::TruncatedInput);
            },
        };
        proof {
            if obeys {
                lemma_le_value_bound(bytes.take(n as int));
                lemma_place(value, byte, n);
                assert(bytes.take(n + 1).drop_last() =~= bytes.take(n as int));
                assert(bytes.skip(n as int).drop_first() =~= bytes.skip(n + 1));
            }
        }
        value = value | ((byte as u64) << (8 * n));
        n += 1;
    }
    proof {
        lemma_u64_shr_is_div(value, typdata.tagsize as u64);
    }
    Ok(value >> typdata.tagsize)
}

} // verus!
