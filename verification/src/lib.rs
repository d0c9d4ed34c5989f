//! A self-describing variable-length codec for unsigned integers below 2^61.
//!
//! A value is written as a little-endian record of 1, 2, 4 or 8 bytes. The low
//! bits of the first byte hold a tag that names the width of the record, so a
//! reader needs no length prefix: the first byte alone tells how many bytes
//! follow.
//!
//! [`encode_into`] writes the record of a value to a [`ByteSink`], and
//! [`decode_binary_stream`] reads one record from an iterator over bytes.
//! Both are stated over the plain functions `encode::encoding` and
//! `decode::decoding`, which say what the bytes of a value are and what value
//! a run of bytes begins with; `laws` relates the two.
pub mod decode;
pub mod encode;
pub mod laws;
pub mod sink;
pub mod table;
pub mod wire;

pub use decode::{decode_binary_stream, DecodeError};
pub use encode::{encode_into, EncodeError};
pub use sink::{ByteSink, FnSink};
pub use table::{DynNumType, DynNumTypeInfo};
