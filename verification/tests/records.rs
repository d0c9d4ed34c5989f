use dynnum::{decode_binary_stream, encode_into, DecodeError, EncodeError, FnSink};

fn encode(value: u64) -> (Result<u8, EncodeError>, Vec<u8>) {
    let mut out = Vec::new();
    let written = encode_into(value, &mut out);
    (written, out)
}

fn decode(bytes: &[u8]) -> Result<u64, DecodeError> {
    decode_binary_stream(&mut bytes.iter().cloned())
}

#[test]
fn zero_is_one_byte() {
    assert_eq!(encode(0), (Ok(1), vec![0x01]));
    assert_eq!(decode(&[0x01]), Ok(0));
}

#[test]
fn top_of_one_byte_class() {
    assert_eq!(encode(127), (Ok(1), vec![0xFF]));
    assert_eq!(decode(&[0xFF]), Ok(127));
}

#[test]
fn bottom_of_two_byte_class() {
    assert_eq!(encode(128), (Ok(2), vec![0x02, 0x02]));
    assert_eq!(decode(&[0x02, 0x02]), Ok(128));
}

#[test]
fn top_of_two_byte_class() {
    // 16383 << 2 | 2 = 0xFFFE, least significant byte first.
    assert_eq!(encode(16383), (Ok(2), vec![0xFE, 0xFF]));
    assert_eq!(decode(&[0xFE, 0xFF]), Ok(16383));
}

#[test]
fn bottom_of_four_byte_class() {
    // 16384 << 3 | 4 = 0x0002_0004.
    assert_eq!(encode(16384), (Ok(4), vec![0x04, 0x00, 0x02, 0x00]));
    assert_eq!(decode(&[0x04, 0x00, 0x02, 0x00]), Ok(16384));
}

#[test]
fn top_of_four_byte_class() {
    // (2^29 - 1) << 3 | 4 = 0xFFFF_FFFC.
    assert_eq!(encode((1 << 29) - 1), (Ok(4), vec![0xFC, 0xFF, 0xFF, 0xFF]));
    assert_eq!(decode(&[0xFC, 0xFF, 0xFF, 0xFF]), Ok((1 << 29) - 1));
}

#[test]
fn bottom_of_eight_byte_class() {
    // 2^29 << 3 = 2^32.
    let record = vec![0x00, 0x00, 0x00, 0x00, 0x01, 0x00, 0x00, 0x00];
    assert_eq!(encode(1 << 29), (Ok(8), record.clone()));
    assert_eq!(decode(&record), Ok(1 << 29));
}

#[test]
fn largest_value() {
    // Tag 000 below sixty-one set bits.
    let record = vec![0xF8, 0xFF, 0xFF, 0xFF, 0xFF, 0xFF, 0xFF, 0xFF];
    assert_eq!(encode((1 << 61) - 1), (Ok(8), record.clone()));
    assert_eq!(decode(&record), Ok((1 << 61) - 1));
}

#[test]
fn a_value_in_each_class() {
    assert_eq!(encode(5), (Ok(1), vec![0x0B]));
    assert_eq!(encode(300), (Ok(2), vec![0xB2, 0x04]));
    assert_eq!(encode(1_000_000), (Ok(4), vec![0x04, 0x12, 0x7A, 0x00]));
    assert_eq!(
        encode(0x0123_4567_89AB_CDEF),
        (Ok(8), vec![0x78, 0x6F, 0x5E, 0x4D, 0x3C, 0x2B, 0x1A, 0x09])
    );
    assert_eq!(decode(&[0x0B]), Ok(5));
    assert_eq!(decode(&[0xB2, 0x04]), Ok(300));
    assert_eq!(decode(&[0x04, 0x12, 0x7A, 0x00]), Ok(1_000_000));
    assert_eq!(
        decode(&[0x78, 0x6F, 0x5E, 0x4D, 0x3C, 0x2B, 0x1A, 0x09]),
        Ok(0x0123_4567_89AB_CDEF)
    );
}

#[test]
fn out_of_range_is_refused() {
    assert_eq!(encode(1 << 61), (Err(EncodeError::Range), vec![]));
    assert_eq!(encode((1 << 61) + 1), (Err(EncodeError::Range), vec![]));
    assert_eq!(encode(1 << 63), (Err(EncodeError::Range), vec![]));
    assert_eq!(encode(u64::MAX), (Err(EncodeError::Range), vec![]));
}

#[test]
fn refusal_leaves_the_sink_alone() {
    let mut out = vec![0xAA, 0xBB];
    assert_eq!(encode_into(u64::MAX, &mut out), Err(EncodeError::Range));
    assert_eq!(out, vec![0xAA, 0xBB]);
}

#[test]
fn records_are_appended() {
    let mut out = vec![0xAA];
    assert_eq!(encode_into(0, &mut out), Ok(1));
    assert_eq!(encode_into(128, &mut out), Ok(2));
    assert_eq!(encode_into(16384, &mut out), Ok(4));
    assert_eq!(out, vec![0xAA, 0x01, 0x02, 0x02, 0x04, 0x00, 0x02, 0x00]);
}

#[test]
fn truncated_two_byte_record() {
    assert_eq!(decode(&[0x02]), Err(DecodeError::TruncatedInput));
}

#[test]
fn empty_source_is_truncated() {
    assert_eq!(decode(&[]), Err(DecodeError::TruncatedInput));
}

#[test]
fn every_short_record_is_truncated() {
    assert_eq!(decode(&[0x04]), Err(DecodeError::TruncatedInput));
    assert_eq!(decode(&[0x04, 0x00]), Err(DecodeError::TruncatedInput));
    assert_eq!(decode(&[0x04, 0x00, 0x02]), Err(DecodeError::TruncatedInput));
    let record = [0xF8, 0xFF, 0xFF, 0xFF, 0xFF, 0xFF, 0xFF, 0xFF];
    for length in 0..record.len() {
        assert_eq!(decode(&record[..length]), Err(DecodeError::TruncatedInput));
    }
}

#[test]
fn truncation_takes_no_more_than_there_is() {
    let bytes = [0x04u8, 0x00];
    let mut source = bytes.iter().cloned();
    assert_eq!(decode_binary_stream(&mut source), Err(DecodeError::TruncatedInput));
    assert_eq!(source.next(), None);
}

#[test]
fn decoder_stops_at_the_end_of_the_record() {
    let bytes = [0x02u8, 0x02, 0x55, 0x66];
    let mut source = bytes.iter().cloned();
    assert_eq!(decode_binary_stream(&mut source), Ok(128));
    assert_eq!(source.next(), Some(0x55));
    assert_eq!(source.next(), Some(0x66));
    assert_eq!(source.next(), None);
}

#[test]
fn records_in_a_row() {
    let values = [0u64, 127, 128, 16383, 16384, (1 << 29) - 1, 1 << 29, (1 << 61) - 1];
    let mut out = Vec::new();
    for value in values {
        assert!(encode_into(value, &mut out).is_ok());
    }
    assert_eq!(out.len(), 1 + 1 + 2 + 2 + 4 + 4 + 8 + 8);
    let mut source = out.iter().cloned();
    for value in values {
        assert_eq!(decode_binary_stream(&mut source), Ok(value));
    }
    assert_eq!(decode_binary_stream(&mut source), Err(DecodeError::TruncatedInput));
}

#[test]
fn every_first_byte_names_a_class() {
    for first in 0..=255u8 {
        let record = [first, 0, 0, 0, 0, 0, 0, 0];
        let length = if first & 1 == 1 {
            1
        } else if first & 3 == 2 {
            2
        } else if first & 7 == 4 {
            4
        } else {
            8
        };
        let shift = if length == 1 {
            1
        } else if length == 2 {
            2
        } else {
            3
        };
        let mut source = record.iter().cloned();
        assert_eq!(decode_binary_stream(&mut source), Ok((first >> shift) as u64));
        assert_eq!(source.count(), 8 - length);
        if length > 1 {
            assert_eq!(decode(&record[..length - 1]), Err(DecodeError::TruncatedInput));
        }
    }
}

#[test]
fn wider_records_of_small_values_decode() {
    assert_eq!(decode(&[0x02, 0x00]), Ok(0));
    assert_eq!(decode(&[0x04, 0x00, 0x00, 0x00]), Ok(0));
    assert_eq!(decode(&[0x00; 8]), Ok(0));
    assert_eq!(decode(&[0x08, 0x00, 0x00, 0x00, 0x00, 0x00, 0x00, 0x00]), Ok(1));
}

#[test]
fn encoding_is_as_short_as_possible() {
    let limits = [(0u64, 1u8), (1 << 7, 2), (1 << 14, 4), (1 << 29, 8)];
    for (start, length) in limits {
        assert_eq!(encode(start).0, Ok(length));
        assert_eq!(encode(start + 1).0, Ok(length));
        if start > 0 {
            assert!(encode(start - 1).0.unwrap() < length);
        }
    }
}

#[test]
fn distinct_values_have_distinct_encodings() {
    let values: Vec<u64> = (0..40_000).chain((0..62).map(|bit| (1u64 << bit) >> 1)).collect();
    let mut seen = std::collections::HashSet::new();
    let mut count = 0;
    for value in values {
        if let (Ok(_), bytes) = encode(value) {
            if seen.insert(bytes) {
                count += 1;
            }
        }
    }
    // 0..40000, and the powers of two from 2^16 to 2^60 beyond them.
    assert_eq!(count, 40_000 + 45);
}

#[test]
fn encoding_is_repeatable() {
    for value in [0u64, 99, 12345, 1 << 40] {
        assert_eq!(encode(value), encode(value));
    }
}

#[test]
fn closure_gets_the_bytes_in_order() {
    let mut calls = Vec::new();
    let written = encode_into(1_000_000, &mut FnSink::new(|byte| calls.push(byte)));
    assert_eq!(written, Ok(4));
    assert_eq!(calls, vec![0x04, 0x12, 0x7A, 0x00]);
}

#[test]
fn closure_is_not_called_on_refusal() {
    let mut calls = 0;
    let written = encode_into(1 << 61, &mut FnSink::new(|_| calls += 1));
    assert_eq!(written, Err(EncodeError::Range));
    assert_eq!(calls, 0);
}

#[test]
fn closure_sink_takes_several_records() {
    let mut calls = Vec::new();
    let mut sink = FnSink::new(|byte| calls.push(byte));
    assert_eq!(encode_into(127, &mut sink), Ok(1));
    assert_eq!(encode_into(16383, &mut sink), Ok(2));
    assert_eq!(calls, vec![0xFF, 0xFE, 0xFF]);
}
