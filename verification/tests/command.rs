use resp_core::command::{
    dispatch_command, handle_request, interpret_redis_command, process_redis_array,
    InterpretError, RedisCommand, Reply, RequestError,
};
use resp_core::decode::decode_value;
use resp_core::stream::ByteStream;
use resp_core::value::{DecodeError, RespValue};

fn bulk_value(bytes: &[u8]) -> RespValue {
    RespValue::BulkString(bytes.to_vec())
}

fn echo(text: &str) -> RedisCommand {
    RedisCommand::ECHO(text.to_string())
}

fn request(bytes: &[u8]) -> Result<Reply, RequestError> {
    handle_request(&mut ByteStream::new(bytes.to_vec()))
}

#[test]
fn ping_reply_is_pong() {
    assert_eq!(RedisCommand::PING.encode(), b"+PONG\r\n".to_vec());
}

#[test]
fn unknown_reply_is_the_fixed_error() {
    assert_eq!(
        RedisCommand::UNKNOWN.encode(),
        b"-ERROR_UNKNOWN_COMMAND\r\n".to_vec()
    );
}

#[test]
fn echo_reply_is_a_bulk_string() {
    assert_eq!(echo("x").encode(), b"$1\r\nx\r\n".to_vec());
    assert_eq!(echo("hey").encode(), b"$3\r\nhey\r\n".to_vec());
    assert_eq!(echo("").encode(), b"$0\r\n\r\n".to_vec());
    assert_eq!(echo("hello world!").encode(), b"$12\r\nhello world!\r\n".to_vec());
}

#[test]
fn echo_reply_counts_bytes_not_characters() {
    let mut expected = b"$7\r\n".to_vec();
    expected.extend_from_slice("héllö".as_bytes());
    expected.extend_from_slice(b"\r\n");
    assert_eq!(echo("héllö").encode(), expected);
    assert_eq!(echo("日本語").encode()[..4].to_vec(), b"$9\r\n".to_vec());
}

#[test]
fn echo_reply_of_a_long_text_has_a_multi_digit_length() {
    let text = "a".repeat(1234);
    let mut expected = b"$1234\r\n".to_vec();
    expected.extend_from_slice(text.as_bytes());
    expected.extend_from_slice(b"\r\n");
    assert_eq!(echo(&text).encode(), expected);
}

#[test]
fn ping_is_interpreted() {
    let value = RespValue::Array(vec![bulk_value(b"PING")]);
    assert_eq!(interpret_redis_command(&value), Ok(RedisCommand::PING));
}

#[test]
fn ping_ignores_extra_arguments() {
    let array = vec![bulk_value(b"ping"), bulk_value(b"a"), RespValue::Integer(3)];
    assert_eq!(process_redis_array(&array), Ok(RedisCommand::PING));
}

#[test]
fn command_names_are_matched_without_regard_to_case() {
    for name in [&b"PING"[..], b"Ping", b"ping", b"pInG"] {
        assert_eq!(process_redis_array(&vec![bulk_value(name)]), Ok(RedisCommand::PING));
    }
    for name in [&b"ECHO"[..], b"Echo", b"echo", b"eChO"] {
        assert_eq!(
            process_redis_array(&vec![bulk_value(name), bulk_value(b"hey")]),
            Ok(echo("hey"))
        );
    }
}

#[test]
fn echo_takes_exactly_one_argument() {
    assert_eq!(
        process_redis_array(&vec![bulk_value(b"ECHO")]),
        Err(InterpretError::ArityError)
    );
    assert_eq!(
        process_redis_array(&vec![bulk_value(b"ECHO"), bulk_value(b"a"), bulk_value(b"b")]),
        Err(InterpretError::ArityError)
    );
    assert_eq!(
        process_redis_array(&vec![bulk_value(b"ECHO"), bulk_value(b"a"), bulk_value(b"b"), bulk_value(b"c")]),
        Err(InterpretError::ArityError)
    );
    assert_eq!(process_redis_array(&vec![bulk_value(b"ECHO"), bulk_value(b"a")]), Ok(echo("a")));
}

#[test]
fn echo_argument_must_be_a_bulk_string() {
    assert_eq!(
        process_redis_array(&vec![bulk_value(b"ECHO"), RespValue::Integer(1)]),
        Err(InterpretError::TypeError)
    );
    assert_eq!(
        process_redis_array(&vec![bulk_value(b"ECHO"), RespValue::SimpleString("a".to_string())]),
        Err(InterpretError::TypeError)
    );
}

#[test]
fn echo_argument_is_decoded_with_replacement() {
    assert_eq!(
        process_redis_array(&vec![bulk_value(b"ECHO"), bulk_value(b"a\xffb")]),
        Ok(echo("a\u{fffd}b"))
    );
    assert_eq!(
        process_redis_array(&vec![bulk_value(b"ECHO"), bulk_value("héllo".as_bytes())]),
        Ok(echo("héllo"))
    );
}

#[test]
fn command_name_is_decoded_with_replacement() {
    assert_eq!(
        process_redis_array(&vec![bulk_value(b"PI\xffNG")]),
        Err(InterpretError::UnknownCommand)
    );
}

#[test]
fn other_names_are_unknown_commands() {
    assert_eq!(
        process_redis_array(&vec![bulk_value(b"UNKNOWN"), bulk_value(b"x")]),
        Err(InterpretError::UnknownCommand)
    );
    assert_eq!(
        process_redis_array(&vec![bulk_value(b"")]),
        Err(InterpretError::UnknownCommand)
    );
    assert_eq!(
        process_redis_array(&vec![bulk_value(b"pingg")]),
        Err(InterpretError::UnknownCommand)
    );
    assert_eq!(
        process_redis_array(&vec![bulk_value(b" ping")]),
        Err(InterpretError::UnknownCommand)
    );
}

#[test]
fn array_without_a_name_is_no_command() {
    assert_eq!(process_redis_array(&vec![]), Err(InterpretError::NotACommand));
    assert_eq!(
        process_redis_array(&vec![RespValue::Integer(1)]),
        Err(InterpretError::NotACommand)
    );
    assert_eq!(
        process_redis_array(&vec![RespValue::SimpleString("PING".to_string())]),
        Err(InterpretError::NotACommand)
    );
    assert_eq!(
        interpret_redis_command(&RespValue::Array(vec![RespValue::Array(vec![])])),
        Err(InterpretError::NotACommand)
    );
}

#[test]
fn values_that_are_no_arrays_are_no_commands() {
    assert_eq!(
        interpret_redis_command(&RespValue::SimpleString("PING".to_string())),
        Err(InterpretError::NotACommand)
    );
    assert_eq!(
        interpret_redis_command(&RespValue::Integer(1)),
        Err(InterpretError::NotACommand)
    );
    assert_eq!(
        interpret_redis_command(&bulk_value(b"PING")),
        Err(InterpretError::NotACommand)
    );
}

#[test]
fn error_frame_is_taken_for_the_unknown_command() {
    assert_eq!(
        interpret_redis_command(&RespValue::Error("some error".to_string())),
        Ok(RedisCommand::UNKNOWN)
    );
    assert_eq!(
        interpret_redis_command(&RespValue::Error(String::new())),
        Ok(RedisCommand::UNKNOWN)
    );
}

#[test]
fn dispatch_wants_the_name_in_lower_case() {
    let array = vec![bulk_value(b"whatever"), bulk_value(b"hey")];
    assert_eq!(dispatch_command("ping", &array), Ok(RedisCommand::PING));
    assert_eq!(dispatch_command("echo", &array), Ok(echo("hey")));
    assert_eq!(dispatch_command("PING", &array), Err(InterpretError::UnknownCommand));
    assert_eq!(dispatch_command("ECHO", &array), Err(InterpretError::UnknownCommand));
    assert_eq!(dispatch_command("", &array), Err(InterpretError::UnknownCommand));
    assert_eq!(dispatch_command("ech", &array), Err(InterpretError::UnknownCommand));
    assert_eq!(dispatch_command("echoo", &array), Err(InterpretError::UnknownCommand));
}

#[test]
fn dispatch_checks_the_arity_of_echo() {
    assert_eq!(dispatch_command("echo", &vec![]), Err(InterpretError::ArityError));
    assert_eq!(
        dispatch_command("echo", &vec![bulk_value(b"echo")]),
        Err(InterpretError::ArityError)
    );
    assert_eq!(dispatch_command("ping", &vec![]), Ok(RedisCommand::PING));
}

#[test]
fn scenario_ping() {
    let input = b"*1\r\n$4\r\nPING\r\n";
    let value = decode_value(&mut ByteStream::new(input.to_vec())).unwrap();
    assert_eq!(value, RespValue::Array(vec![bulk_value(b"PING")]));
    let command = interpret_redis_command(&value).unwrap();
    assert_eq!(command, RedisCommand::PING);
    assert_eq!(command.encode(), b"+PONG\r\n".to_vec());
    assert_eq!(
        request(input),
        Ok(Reply { value, bytes: b"+PONG\r\n".to_vec() })
    );
}

#[test]
fn scenario_echo() {
    let input = b"*2\r\n$4\r\nECHO\r\n$3\r\nhey\r\n";
    let value = decode_value(&mut ByteStream::new(input.to_vec())).unwrap();
    assert_eq!(value, RespValue::Array(vec![bulk_value(b"ECHO"), bulk_value(b"hey")]));
    let command = interpret_redis_command(&value).unwrap();
    assert_eq!(command, echo("hey"));
    assert_eq!(command.encode(), b"$3\r\nhey\r\n".to_vec());
    assert_eq!(
        request(input),
        Ok(Reply { value, bytes: b"$3\r\nhey\r\n".to_vec() })
    );
}

#[test]
fn scenario_echo_without_argument() {
    let input = b"*1\r\n$4\r\nECHO\r\n";
    let value = decode_value(&mut ByteStream::new(input.to_vec())).unwrap();
    assert_eq!(interpret_redis_command(&value), Err(InterpretError::ArityError));
    assert_eq!(
        request(input),
        Err(RequestError::Interpret(InterpretError::ArityError))
    );
}

#[test]
fn scenario_unknown_command() {
    let input = b"*2\r\n$7\r\nUNKNOWN\r\n$1\r\nx\r\n";
    let value = decode_value(&mut ByteStream::new(input.to_vec())).unwrap();
    assert_eq!(
        interpret_redis_command(&value),
        Err(InterpretError::UnknownCommand)
    );
    assert_eq!(
        request(input),
        Err(RequestError::Interpret(InterpretError::UnknownCommand))
    );
}

#[test]
fn scenario_error_frame() {
    let input = b"-some error\r\n";
    let value = decode_value(&mut ByteStream::new(input.to_vec())).unwrap();
    assert_eq!(value, RespValue::Error("some error".to_string()));
    let command = interpret_redis_command(&value).unwrap();
    assert_eq!(command, RedisCommand::UNKNOWN);
    assert_eq!(command.encode(), b"-ERROR_UNKNOWN_COMMAND\r\n".to_vec());
    assert_eq!(
        request(input),
        Ok(Reply { value, bytes: b"-ERROR_UNKNOWN_COMMAND\r\n".to_vec() })
    );
}

#[test]
fn request_that_cannot_be_decoded_reports_the_decode_error() {
    assert_eq!(
        request(b"*1\r\n$4\r\nPI"),
        Err(RequestError::Decode(DecodeError::UnexpectedEof))
    );
    assert_eq!(
        request(b"hello\r\n"),
        Err(RequestError::Decode(DecodeError::UnknownType {
            byte: b'h',
            line: b"ello\r\n".to_vec()
        }))
    );
    assert_eq!(request(b""), Err(RequestError::Decode(DecodeError::UnexpectedEof)));
}

#[test]
fn request_that_is_no_command_reports_the_interpret_error() {
    assert_eq!(
        request(b"+PING\r\n"),
        Err(RequestError::Interpret(InterpretError::NotACommand))
    );
    assert_eq!(
        request(b"*0\r\n"),
        Err(RequestError::Interpret(InterpretError::NotACommand))
    );
    assert_eq!(
        request(b"*2\r\n$4\r\necho\r\n:1\r\n"),
        Err(RequestError::Interpret(InterpretError::TypeError))
    );
}

#[test]
fn requests_are_served_one_after_the_other() {
    let mut reader = ByteStream::new(
        b"*1\r\n$4\r\nping\r\n*2\r\n$4\r\necho\r\n$2\r\n\r\n\r\n?\r\n-e\r\n".to_vec(),
    );
    assert_eq!(handle_request(&mut reader).unwrap().bytes, b"+PONG\r\n".to_vec());
    assert_eq!(
        handle_request(&mut reader).unwrap().bytes,
        b"$2\r\n\r\n\r\n".to_vec()
    );
    assert_eq!(
        handle_request(&mut reader),
        Err(RequestError::Decode(DecodeError::UnknownType {
            byte: b'?',
            line: b"\r\n".to_vec()
        }))
    );
    assert_eq!(
        handle_request(&mut reader).unwrap().bytes,
        b"-ERROR_UNKNOWN_COMMAND\r\n".to_vec()
    );
    assert_eq!(reader.remaining(), 0);
}

#[test]
fn echo_of_well_formed_text_replies_with_the_same_bytes() {
    for payload in ["", "x", "hey", "héllo wörld", "a\r\nb", "日本語"] {
        let mut input = format!("*2\r\n$4\r\nECHO\r\n${}\r\n", payload.len()).into_bytes();
        input.extend_from_slice(payload.as_bytes());
        input.extend_from_slice(b"\r\n");
        let mut expected = format!("${}\r\n", payload.len()).into_bytes();
        expected.extend_from_slice(payload.as_bytes());
        expected.extend_from_slice(b"\r\n");
        assert_eq!(request(&input).unwrap().bytes, expected);
    }
}

#[test]
fn round_trip_of_the_unknown_command() {
    let bytes = RedisCommand::UNKNOWN.encode();
    let value = decode_value(&mut ByteStream::new(bytes)).unwrap();
    assert_eq!(interpret_redis_command(&value), Ok(RedisCommand::UNKNOWN));
}

#[test]
fn replies_to_ping_and_echo_are_frames_but_no_commands() {
    let value = decode_value(&mut ByteStream::new(RedisCommand::PING.encode())).unwrap();
    assert_eq!(value, RespValue::SimpleString("PONG".to_string()));
    assert_eq!(interpret_redis_command(&value), Err(InterpretError::NotACommand));
    let value = decode_value(&mut ByteStream::new(echo("héllo").encode())).unwrap();
    assert_eq!(value, bulk_value("héllo".as_bytes()));
    assert_eq!(interpret_redis_command(&value), Err(InterpretError::NotACommand));
}

#[test]
fn every_reply_decodes_to_one_frame_and_nothing_more() {
    for command in [RedisCommand::PING, echo(""), echo("a\r\nb"), RedisCommand::UNKNOWN] {
        let mut reader = ByteStream::new(command.encode());
        assert!(decode_value(&mut reader).is_ok());
        assert_eq!(reader.remaining(), 0);
    }
}

#[test]
fn clone_of_a_value_is_equal_to_it() {
    let value = RespValue::Array(vec![
        bulk_value(b"ECHO"),
        RespValue::Array(vec![RespValue::Integer(-1), RespValue::Error("e".to_string())]),
        RespValue::SimpleString("s".to_string()),
    ]);
    assert_eq!(value.clone(), value);
}
