//! What encoder and decoder owe each other.
use crate::decode::{consumed, decoding, lemma_tag_class, DecodeError};
use crate::encode::{encoding, lemma_encodable, lemma_record, narrowest, record};
use crate::table::DynNumType;
use vstd::prelude::*;

verus! {

/// Decoding a source that begins with the encoding of a value gives the
/// value back and takes the encoding, whatever follows it.
pub proof fn lemma_round_trip_in_stream(value: u64, rest: Seq<u8>)
    requires
        value < DynNumType::bound(),
    ensures
        encoding(value) matches Some(bytes) && decoding(bytes + rest) == Ok::<u64, DecodeError>(
            value,
        ) && consumed(bytes + rest) == bytes.len(),
{
    lemma_encodable(value);
    let class = narrowest(value).unwrap();
    let bytes = record(class, value);
    let source = bytes + rest;
    lemma_record(class, value);
    assert(source[0] == bytes[0]);
    lemma_tag_class(source[0], class);
    assert(source.take(bytes.len() as int) =~= bytes);
}

/// Round trip: decoding the encoding of a value gives the value back.
pub proof fn lemma_round_trip(value: u64)
    requires
        value < DynNumType::bound(),
    ensures
        encoding(value) matches Some(bytes) && decoding(bytes) == Ok::<u64, DecodeError>(value),
{
    lemma_round_trip_in_stream(value, Seq::empty());
    assert(encoding(value).unwrap() + Seq::<u8>::empty() =~= encoding(value).unwrap());
}

/// No two values share an encoding.
pub proof fn lemma_encoding_injective(a: u64, b: u64)
    requires
        a < DynNumType::bound(),
        b < DynNumType::bound(),
        encoding(a) == encoding(b),
    ensures
        a == b,
{
    lemma_round_trip(a);
    lemma_round_trip(b);
}

/// An encoding cut short is truncated: every proper prefix of the encoding
/// of a value decodes to `TruncatedInput`.
pub proof fn lemma_prefix_truncated(value: u64, length: int)
    requires
        value < DynNumType::bound(),
    ensures
        encoding(value) matches Some(bytes) && (0 <= length < bytes.len() ==> decoding(
            bytes.take(length),
        ) == Err::<u64, DecodeError>(DecodeError::TruncatedInput)),
{
    lemma_encodable(value);
    let class = narrowest(value).unwrap();
    let bytes = record(class, value);
    lemma_record(class, value);
    if 0 < length < bytes.len() {
        assert(bytes.take(length)[0] == bytes[0]);
        lemma_tag_class(bytes[0], class);
    }
}

} // verus!
