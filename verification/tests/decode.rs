use resp_core::decode::decode_value;
use resp_core::stream::ByteStream;
use resp_core::value::{DecodeError, RespValue};

fn stream(bytes: &[u8]) -> ByteStream {
    ByteStream::new(bytes.to_vec())
}

fn decode(bytes: &[u8]) -> Result<RespValue, DecodeError> {
    decode_value(&mut stream(bytes))
}

fn bulk(bytes: &[u8]) -> RespValue {
    RespValue::BulkString(bytes.to_vec())
}

#[test]
fn decodes_simple_string() {
    assert_eq!(decode(b"+OK\r\n"), Ok(RespValue::SimpleString("OK".to_string())));
}

#[test]
fn decodes_empty_simple_string() {
    assert_eq!(decode(b"+\r\n"), Ok(RespValue::SimpleString(String::new())));
}

#[test]
fn simple_string_keeps_inner_spaces_and_lone_line_feed() {
    assert_eq!(
        decode(b"+a b \nc\r\n"),
        Ok(RespValue::SimpleString("a b \nc".to_string()))
    );
}

#[test]
fn simple_string_with_multibyte_text() {
    let mut input = vec![b'+'];
    input.extend_from_slice("héllo".as_bytes());
    input.extend_from_slice(b"\r\n");
    assert_eq!(decode(&input), Ok(RespValue::SimpleString("héllo".to_string())));
}

#[test]
fn simple_string_that_is_not_utf8_is_invalid_data() {
    assert_eq!(decode(b"+\xff\xfe\r\n"), Err(DecodeError::InvalidData));
}

#[test]
fn simple_string_without_terminator_is_unexpected_eof() {
    assert_eq!(decode(b"+OK"), Err(DecodeError::UnexpectedEof));
    assert_eq!(decode(b"+OK\r"), Err(DecodeError::UnexpectedEof));
    assert_eq!(decode(b"+OK\n"), Err(DecodeError::UnexpectedEof));
}

#[test]
fn decodes_error_frame() {
    assert_eq!(
        decode(b"-some error\r\n"),
        Ok(RespValue::Error("some error".to_string()))
    );
}

#[test]
fn decodes_integers() {
    assert_eq!(decode(b":0\r\n"), Ok(RespValue::Integer(0)));
    assert_eq!(decode(b":1000\r\n"), Ok(RespValue::Integer(1000)));
    assert_eq!(decode(b":-42\r\n"), Ok(RespValue::Integer(-42)));
    assert_eq!(decode(b":+7\r\n"), Ok(RespValue::Integer(7)));
    assert_eq!(decode(b":007\r\n"), Ok(RespValue::Integer(7)));
}

#[test]
fn decodes_integer_limits() {
    assert_eq!(
        decode(b":9223372036854775807\r\n"),
        Ok(RespValue::Integer(i64::MAX))
    );
    assert_eq!(
        decode(b":-9223372036854775808\r\n"),
        Ok(RespValue::Integer(i64::MIN))
    );
}

#[test]
fn integer_out_of_range_is_bad_integer() {
    assert_eq!(decode(b":9223372036854775808\r\n"), Err(DecodeError::BadInteger));
    assert_eq!(decode(b":-9223372036854775809\r\n"), Err(DecodeError::BadInteger));
    assert_eq!(
        decode(b":99999999999999999999999999\r\n"),
        Err(DecodeError::BadInteger)
    );
}

#[test]
fn malformed_integer_is_bad_integer() {
    assert_eq!(decode(b":\r\n"), Err(DecodeError::BadInteger));
    assert_eq!(decode(b":-\r\n"), Err(DecodeError::BadInteger));
    assert_eq!(decode(b":+\r\n"), Err(DecodeError::BadInteger));
    assert_eq!(decode(b":12a\r\n"), Err(DecodeError::BadInteger));
    assert_eq!(decode(b": 12\r\n"), Err(DecodeError::BadInteger));
    assert_eq!(decode(b":1 \r\n"), Err(DecodeError::BadInteger));
    assert_eq!(decode(b":--1\r\n"), Err(DecodeError::BadInteger));
    assert_eq!(decode(b":1\n\r\n"), Err(DecodeError::BadInteger));
}

#[test]
fn integer_without_terminator_is_unexpected_eof() {
    assert_eq!(decode(b":12"), Err(DecodeError::UnexpectedEof));
    assert_eq!(decode(b":12\n"), Err(DecodeError::UnexpectedEof));
}

#[test]
fn decodes_bulk_string() {
    assert_eq!(decode(b"$3\r\nhey\r\n"), Ok(bulk(b"hey")));
}

#[test]
fn decodes_empty_bulk_string() {
    assert_eq!(decode(b"$0\r\n\r\n"), Ok(bulk(b"")));
}

#[test]
fn bulk_string_length_is_authoritative() {
    assert_eq!(decode(b"$8\r\nab\r\ncd\r\n\r\n"), Ok(bulk(b"ab\r\ncd\r\n")));
    assert_eq!(decode(b"$4\r\n\x00\xff\r\n\r\n"), Ok(bulk(b"\x00\xff\r\n")));
}

#[test]
fn bulk_string_accepts_plus_sign_and_leading_zeros() {
    assert_eq!(decode(b"$+3\r\nhey\r\n"), Ok(bulk(b"hey")));
    assert_eq!(decode(b"$003\r\nhey\r\n"), Ok(bulk(b"hey")));
}

#[test]
fn negative_bulk_length_is_bad_length() {
    assert_eq!(decode(b"$-1\r\n"), Err(DecodeError::BadLength));
}

#[test]
fn malformed_bulk_length_is_bad_length() {
    assert_eq!(decode(b"$\r\n"), Err(DecodeError::BadLength));
    assert_eq!(decode(b"$abc\r\n"), Err(DecodeError::BadLength));
    assert_eq!(decode(b"$3x\r\nhey\r\n"), Err(DecodeError::BadLength));
    assert_eq!(decode(b"$+\r\n"), Err(DecodeError::BadLength));
    assert_eq!(
        decode(b"$340282366920938463463374607431768211456\r\n"),
        Err(DecodeError::BadLength)
    );
}

#[test]
fn truncated_bulk_string_is_unexpected_eof() {
    assert_eq!(decode(b"$5\r\nhey\r\n"), Err(DecodeError::UnexpectedEof));
    assert_eq!(decode(b"$3\r\nhey"), Err(DecodeError::UnexpectedEof));
    assert_eq!(decode(b"$3\r\nhey\r"), Err(DecodeError::UnexpectedEof));
    assert_eq!(decode(b"$3"), Err(DecodeError::UnexpectedEof));
}

#[test]
fn huge_declared_length_fails_without_reading() {
    let mut reader = stream(b"$18446744073709551615\r\nabc");
    assert_eq!(decode_value(&mut reader), Err(DecodeError::UnexpectedEof));
    assert_eq!(reader.remaining(), 0);
}

#[test]
fn bulk_terminator_bytes_are_dropped_unchecked() {
    let mut reader = stream(b"$3\r\nheyXY+OK\r\n");
    assert_eq!(decode_value(&mut reader), Ok(bulk(b"hey")));
    assert_eq!(
        decode_value(&mut reader),
        Ok(RespValue::SimpleString("OK".to_string()))
    );
}

#[test]
fn decodes_empty_array() {
    assert_eq!(decode(b"*0\r\n"), Ok(RespValue::Array(vec![])));
}

#[test]
fn decodes_array_in_order() {
    assert_eq!(
        decode(b"*3\r\n$4\r\nECHO\r\n:5\r\n+x\r\n"),
        Ok(RespValue::Array(vec![
            bulk(b"ECHO"),
            RespValue::Integer(5),
            RespValue::SimpleString("x".to_string()),
        ]))
    );
}

#[test]
fn decodes_nested_arrays() {
    assert_eq!(
        decode(b"*2\r\n*2\r\n:1\r\n*0\r\n-e\r\n"),
        Ok(RespValue::Array(vec![
            RespValue::Array(vec![RespValue::Integer(1), RespValue::Array(vec![])]),
            RespValue::Error("e".to_string()),
        ]))
    );
}

#[test]
fn array_element_error_aborts_the_array() {
    assert_eq!(decode(b"*2\r\n:1\r\n:x\r\n"), Err(DecodeError::BadInteger));
    assert_eq!(
        decode(b"*2\r\n:1\r\n?what\r\n:2\r\n"),
        Err(DecodeError::UnknownType { byte: b'?', line: b"what\r\n".to_vec() })
    );
}

#[test]
fn array_with_missing_elements_is_unexpected_eof() {
    assert_eq!(decode(b"*2\r\n:1\r\n"), Err(DecodeError::UnexpectedEof));
    assert_eq!(decode(b"*1\r\n"), Err(DecodeError::UnexpectedEof));
}

#[test]
fn bad_array_count_is_bad_length() {
    assert_eq!(decode(b"*-1\r\n"), Err(DecodeError::BadLength));
    assert_eq!(decode(b"*x\r\n"), Err(DecodeError::BadLength));
}

#[test]
fn empty_stream_is_unexpected_eof() {
    assert_eq!(decode(b""), Err(DecodeError::UnexpectedEof));
}

#[test]
fn unknown_tag_carries_byte_and_line() {
    assert_eq!(
        decode(b"?what is this\r\n"),
        Err(DecodeError::UnknownType { byte: b'?', line: b"what is this\r\n".to_vec() })
    );
}

#[test]
fn unknown_tag_at_end_of_stream_carries_what_is_left() {
    assert_eq!(
        decode(b"Xabc"),
        Err(DecodeError::UnknownType { byte: b'X', line: b"abc".to_vec() })
    );
    assert_eq!(
        decode(b"\x00"),
        Err(DecodeError::UnknownType { byte: 0, line: vec![] })
    );
}

#[test]
fn every_byte_that_is_no_tag_is_rejected() {
    for byte in 0..=255u8 {
        let input = [byte, b'1', b'\r', b'\n'];
        let outcome = decode(&input);
        if b"+-:$*".contains(&byte) {
            assert!(!matches!(outcome, Err(DecodeError::UnknownType { .. })));
        } else {
            assert_eq!(
                outcome,
                Err(DecodeError::UnknownType { byte, line: b"1\r\n".to_vec() })
            );
        }
    }
}

#[test]
fn decoding_resumes_after_an_unknown_tag() {
    let mut reader = stream(b"!junk line\r\n*1\r\n$4\r\nPING\r\n");
    assert_eq!(
        decode_value(&mut reader),
        Err(DecodeError::UnknownType { byte: b'!', line: b"junk line\r\n".to_vec() })
    );
    assert_eq!(reader.remaining(), 14);
    assert_eq!(
        decode_value(&mut reader),
        Ok(RespValue::Array(vec![bulk(b"PING")]))
    );
    assert_eq!(reader.remaining(), 0);
}

#[test]
fn frames_are_decoded_one_after_the_other() {
    let mut reader = stream(b":1\r\n+two\r\n$5\r\nthree\r\n");
    assert_eq!(decode_value(&mut reader), Ok(RespValue::Integer(1)));
    assert_eq!(
        decode_value(&mut reader),
        Ok(RespValue::SimpleString("two".to_string()))
    );
    assert_eq!(decode_value(&mut reader), Ok(bulk(b"three")));
    assert_eq!(decode_value(&mut reader), Err(DecodeError::UnexpectedEof));
}

#[test]
fn bulk_round_trip_keeps_every_byte() {
    let payloads: Vec<Vec<u8>> = vec![
        vec![],
        b"x".to_vec(),
        b"\r\n".to_vec(),
        b"a\r\nb\r\n\r\n".to_vec(),
        vec![0xff, 0xfe, 0x00, 0x80],
        (0..=255u8).collect(),
        vec![b'z'; 1000],
    ];
    for payload in payloads {
        let mut frame = format!("${}\r\n", payload.len()).into_bytes();
        frame.extend_from_slice(&payload);
        frame.extend_from_slice(b"\r\n");
        frame.extend_from_slice(b"+next\r\n");
        let mut reader = ByteStream::new(frame);
        assert_eq!(decode_value(&mut reader), Ok(RespValue::BulkString(payload)));
        assert_eq!(reader.remaining(), 7);
    }
}

#[test]
fn decodes_deeply_nested_arrays() {
    let depth = 200;
    let mut input = Vec::new();
    for _ in 0..depth {
        input.extend_from_slice(b"*1\r\n");
    }
    input.extend_from_slice(b":7\r\n");
    let mut value = decode(&input).unwrap();
    for _ in 0..depth {
        value = match value {
            RespValue::Array(mut items) => {
                assert_eq!(items.len(), 1);
                items.pop().unwrap()
            }
            other => panic!("expected an array, got {:?}", other),
        };
    }
    assert_eq!(value, RespValue::Integer(7));
}

#[test]
fn decodes_a_long_array() {
    let count = 1000;
    let mut input = format!("*{}\r\n", count).into_bytes();
    for i in 0..count {
        input.extend_from_slice(format!(":{}\r\n", i).as_bytes());
    }
    let expected: Vec<RespValue> = (0..count).map(RespValue::Integer).collect();
    assert_eq!(decode(&input), Ok(RespValue::Array(expected)));
}

#[test]
fn huge_array_count_fails_at_the_end_of_the_stream() {
    assert_eq!(
        decode(b"*18446744073709551615\r\n:1\r\n"),
        Err(DecodeError::UnexpectedEof)
    );
}
