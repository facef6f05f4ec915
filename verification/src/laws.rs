//! Laws that relate the encoder, the decoder and the interpreter.
use crate::command::{
    bulk_frame, command_name, encode_spec, interpret_array_spec, interpret_spec, request_spec,
    status_frame, Command, InterpretError, RequestFault,
};
use crate::decimal::{
    all_digits, decimal_digits, is_digit, lemma_decimal_digits_value, parse_length_spec,
};
use crate::decode::{
    decode_items, decode_payload, decode_spec, is_tag, lemma_decode_items_step, length_of_line,
    text_of_line, Decoded, TAG_ARRAY, TAG_BULK_STRING, TAG_ERROR, TAG_SIMPLE_STRING,
};
use crate::stream::{
    after_line, has_terminator, lemma_line_of_concat, terminator_at, whole_line, CR, LF,
};
use crate::text::lossy_text;
use crate::value::{DecodeFault, Frame};
use vstd::prelude::*;
use vstd::utf8::*;

verus! {

/// The frame that the reply to a command is, once decoded.
pub open spec fn reply_frame(command: Command) -> Frame {
    match command {
        Command::Ping => Frame::SimpleString("PONG"@),
        Command::Echo(text) => Frame::BulkString(encode_utf8(text)),
        Command::Unknown => Frame::Error("ERROR_UNKNOWN_COMMAND"@),
    }
}

/// A text without a carriage return has no line terminator in its UTF-8
/// form, if it is ASCII.
proof fn lemma_ascii_without_cr(text: Seq<char>)
    requires
        is_ascii_chars(text),
        forall|i: int| 0 <= i < text.len() ==> text[i] != '\r',
    ensures
        !has_terminator(encode_utf8(text)),
{
    is_ascii_chars_encode_utf8(text);
    let bytes = encode_utf8(text);
    assert forall|j: int| !terminator_at(bytes, j) by {
        if terminator_at(bytes, j) {
            assert(bytes[j] == text[j] as u8);
            assert(text[j] != '\r');
        }
    }
}

/// The two fixed status texts hold no line terminator.
proof fn lemma_status_texts()
    ensures
        !has_terminator(encode_utf8("PONG"@)),
        !has_terminator(encode_utf8("ERROR_UNKNOWN_COMMAND"@)),
{
    reveal_strlit("PONG");
    reveal_strlit("ERROR_UNKNOWN_COMMAND");
    lemma_ascii_without_cr("PONG"@);
    lemma_ascii_without_cr("ERROR_UNKNOWN_COMMAND"@);
}

/// Decoding a status frame gives its text back: for every text whose UTF-8
/// form holds no line terminator, the first line after the tag is that
/// form, it decodes to the text, and what follows the frame is left.
pub proof fn lemma_status_frame_text(tag: u8, text: Seq<char>, rest: Seq<u8>)
    requires
        !has_terminator(encode_utf8(text)),
    ensures
        (status_frame(tag, text) + rest)[0] == tag,
        text_of_line((status_frame(tag, text) + rest).skip(1)) == Ok::<Seq<char>, DecodeFault>(
            text,
        ),
        after_line((status_frame(tag, text) + rest).skip(1)) == rest,
{
    let bytes = encode_utf8(text);
    let s = status_frame(tag, text) + rest;
    assert(s.skip(1) =~= bytes + seq![CR, LF] + rest);
    lemma_line_of_concat(bytes, rest);
    encode_utf8_valid_utf8(text);
    encode_utf8_decode_utf8(text);
}

/// A digit string holds no line terminator.
proof fn lemma_digits_without_terminator(digits: Seq<u8>)
    requires
        all_digits(digits),
    ensures
        !has_terminator(digits),
{
    assert forall|j: int| !terminator_at(digits, j) by {
        if terminator_at(digits, j) {
            assert(is_digit(digits[j]));
        }
    }
}

/// A bulk frame made of any bytes at all, with their number as its declared
/// length, decodes to exactly those bytes, and what follows the frame is
/// left unread.
pub proof fn lemma_bulk_round_trip(payload: Seq<u8>, rest: Seq<u8>)
    requires
        payload.len() <= usize::MAX,
    ensures
        decode_spec(bulk_frame(payload) + rest) == (Decoded {
            result: Ok(Frame::BulkString(payload)),
            rest,
        }),
{
    let digits = decimal_digits(payload.len());
    let s = bulk_frame(payload) + rest;
    let tail = payload + seq![CR, LF] + rest;
    lemma_decimal_digits_value(payload.len());
    lemma_digits_without_terminator(digits);
    assert(s[0] == TAG_BULK_STRING);
    assert(s.skip(1) =~= digits + seq![CR, LF] + tail);
    lemma_line_of_concat(digits, tail);
    assert(is_digit(digits[0]));
    assert(parse_length_spec(digits) == Some(payload.len() as usize));
    assert(length_of_line(s.skip(1)) == Ok::<usize, DecodeFault>(payload.len() as usize));
    assert(tail.take(payload.len() as int) =~= payload);
    assert(tail.skip(payload.len() as int + 2) =~= rest);
    assert(decode_payload(tail, payload.len()) == (Decoded {
        result: Ok(Frame::BulkString(payload)),
        rest,
    }));
}

/// Every reply is one well-formed frame: the encoded reply to a command
/// decodes to the frame of that reply and leaves what followed it. For
/// `ECHO` the frame is a bulk string that holds the text in UTF-8.
pub proof fn lemma_reply_decodes(command: Command, rest: Seq<u8>)
    requires
        command matches Command::Echo(text) ==> encode_utf8(text).len() <= usize::MAX,
    ensures
        decode_spec(encode_spec(command) + rest) == (Decoded {
            result: Ok(reply_frame(command)),
            rest,
        }),
{
    lemma_status_texts();
    match command {
        Command::Ping => {
            lemma_status_frame_text(TAG_SIMPLE_STRING, "PONG"@, rest);
        },
        Command::Echo(text) => {
            lemma_bulk_round_trip(encode_utf8(text), rest);
        },
        Command::Unknown => {
            lemma_status_frame_text(TAG_ERROR, "ERROR_UNKNOWN_COMMAND"@, rest);
        },
    }
}

/// The reply to the unknown command, decoded and interpreted again, is the
/// unknown command, and nothing of the reply is left over.
pub proof fn lemma_round_trip(command: Command)
    requires
        command is Unknown,
    ensures
        decode_spec(encode_spec(command)).result is Ok,
        decode_spec(encode_spec(command)).rest == Seq::<u8>::empty(),
        interpret_spec(decode_spec(encode_spec(command)).result->Ok_0) == Ok::<
            Command,
            InterpretError,
        >(command),
{
    lemma_reply_decodes(command, Seq::empty());
    assert(encode_spec(command) + Seq::<u8>::empty() =~= encode_spec(command));
}

/// The replies to `PING` and `ECHO` do not come back as commands: they
/// decode to a status and to a bulk string, and interpreting either fails.
pub proof fn lemma_reply_is_no_command(command: Command)
    requires
        !(command is Unknown),
        command matches Command::Echo(text) ==> encode_utf8(text).len() <= usize::MAX,
    ensures
        decode_spec(encode_spec(command)).result is Ok,
        decode_spec(encode_spec(command)).rest == Seq::<u8>::empty(),
        interpret_spec(decode_spec(encode_spec(command)).result->Ok_0) == Err::<
            Command,
            InterpretError,
        >(InterpretError::NotACommand),
{
    lemma_reply_decodes(command, Seq::empty());
    assert(encode_spec(command) + Seq::<u8>::empty() =~= encode_spec(command));
}

/// An array whose first element names `echo` is an arity error unless it
/// has exactly one argument, and with exactly one argument that is a bulk
/// string it is the `ECHO` of that argument's text.
pub proof fn lemma_echo_arity(array: Seq<Frame>)
    requires
        array.len() > 0,
        array[0] matches Frame::BulkString(name) && command_name(name) == "echo"@,
    ensures
        array.len() != 2 ==> interpret_array_spec(array) == Err::<Command, InterpretError>(
            InterpretError::ArityError,
        ),
        array.len() == 2 ==> (array[1] matches Frame::BulkString(bytes) ==> interpret_array_spec(
            array,
        ) == Ok::<Command, InterpretError>(Command::Echo(lossy_text(bytes)))),
{
    reveal_strlit("echo");
    reveal_strlit("ping");
    assert("echo"@[0] != "ping"@[0]);
}

/// `PING` ignores its arguments: an array whose first element names `ping`
/// is the `PING` command, whatever follows the name.
pub proof fn lemma_ping_any_arguments(array: Seq<Frame>)
    requires
        array.len() > 0,
        array[0] matches Frame::BulkString(name) && command_name(name) == "ping"@,
    ensures
        interpret_array_spec(array) == Ok::<Command, InterpretError>(Command::Ping),
{
}

/// Only the lower-case form of a name counts: two arrays of the same shape
/// whose names agree once put in lower case are interpreted alike.
pub proof fn lemma_same_name_same_command(first: Seq<Frame>, second: Seq<Frame>)
    requires
        first.len() > 0,
        second.len() == first.len(),
        first[0] is BulkString,
        second[0] is BulkString,
        command_name(first[0]->BulkString_0) == command_name(second[0]->BulkString_0),
        forall|i: int| 1 <= i < first.len() ==> first[i] == second[i],
    ensures
        interpret_array_spec(first) == interpret_array_spec(second),
{
}

/// A stream that starts with a byte that is no type tag fails with that
/// byte and the rest of its line, and exactly that line, with its
/// terminator, is consumed.
pub proof fn lemma_unknown_tag(s: Seq<u8>)
    requires
        s.len() > 0,
        !is_tag(s[0]),
    ensures
        decode_spec(s) == (Decoded::<Frame> {
            result: Err(DecodeFault::UnknownType { byte: s[0], line: whole_line(s.skip(1)) }),
            rest: after_line(s.skip(1)),
        }),
{
}

/// After an unknown tag decoding can go on: where the malformed line `junk`
/// is followed by a terminator and a stream `rest`, the failed decode
/// leaves exactly `rest`, so that the next decode sees `rest` as if nothing
/// had stood before it.
pub proof fn lemma_unknown_tag_resumes(tag: u8, junk: Seq<u8>, rest: Seq<u8>)
    requires
        !is_tag(tag),
        !has_terminator(junk),
    ensures
        decode_spec(seq![tag] + junk + seq![CR, LF] + rest) == (Decoded::<Frame> {
            result: Err(DecodeFault::UnknownType { byte: tag, line: junk + seq![CR, LF] }),
            rest,
        }),
        decode_spec(decode_spec(seq![tag] + junk + seq![CR, LF] + rest).rest) == decode_spec(
            rest,
        ),
{
    let s = seq![tag] + junk + seq![CR, LF] + rest;
    assert(s.skip(1) =~= junk + seq![CR, LF] + rest);
    lemma_line_of_concat(junk, rest);
}

/// The byte strings `parts` as bulk-string frames, one after the other.
pub open spec fn bulk_frames(parts: Seq<Seq<u8>>) -> Seq<u8>
    decreases parts.len(),
{
    if parts.len() == 0 {
        Seq::empty()
    } else {
        bulk_frame(parts[0]) + bulk_frames(parts.skip(1))
    }
}

/// A command as a client writes it: an array frame whose elements are the
/// bulk strings `parts`, the name first and then the arguments.
pub open spec fn request_frame(parts: Seq<Seq<u8>>) -> Seq<u8> {
    seq![TAG_ARRAY] + decimal_digits(parts.len()) + seq![CR, LF] + bulk_frames(parts)
}

/// The byte strings `parts` as decoded bulk strings.
pub open spec fn bulk_strings(parts: Seq<Seq<u8>>) -> Seq<Frame> {
    Seq::new(parts.len(), |i: int| Frame::BulkString(parts[i]))
}

/// Every part is short enough for its length to be declared.
pub open spec fn lengths_fit(parts: Seq<Seq<u8>>) -> bool {
    parts.len() <= usize::MAX && forall|i: int|
        0 <= i < parts.len() ==> (#[trigger] parts[i]).len() <= usize::MAX
}

/// A run of bulk-string frames decodes to the byte strings they were made
/// of, in order.
proof fn lemma_bulk_frames_decode(parts: Seq<Seq<u8>>, rest: Seq<u8>)
    requires
        lengths_fit(parts),
    ensures
        decode_items(bulk_frames(parts) + rest, parts.len()) == (Decoded {
            result: Ok(bulk_strings(parts)),
            rest,
        }),
    decreases parts.len(),
{
    let s = bulk_frames(parts) + rest;
    if parts.len() == 0 {
        assert(s =~= rest);
        assert(bulk_strings(parts) =~= Seq::<Frame>::empty());
    } else {
        let others = parts.skip(1);
        let tail = bulk_frames(others) + rest;
        assert(s =~= bulk_frame(parts[0]) + tail);
        lemma_bulk_round_trip(parts[0], tail);
        lemma_decode_items_step(s, parts.len());
        assert forall|i: int| 0 <= i < others.len() implies (#[trigger] others[i]).len()
            <= usize::MAX by {
            assert(others[i] == parts[i + 1]);
        }
        lemma_bulk_frames_decode(others, rest);
        assert(seq![Frame::BulkString(parts[0])] + bulk_strings(others) =~= bulk_strings(parts));
    }
}

/// A command written as an array of bulk strings decodes to the array of
/// exactly those byte strings, whatever bytes they hold, and what follows
/// the frame is left unread.
pub proof fn lemma_request_frame_decodes(parts: Seq<Seq<u8>>, rest: Seq<u8>)
    requires
        lengths_fit(parts),
    ensures
        decode_spec(request_frame(parts) + rest) == (Decoded {
            result: Ok(Frame::Array(bulk_strings(parts))),
            rest,
        }),
{
    let digits = decimal_digits(parts.len());
    let s = request_frame(parts) + rest;
    let tail = bulk_frames(parts) + rest;
    lemma_decimal_digits_value(parts.len());
    lemma_digits_without_terminator(digits);
    assert(s[0] == TAG_ARRAY);
    assert(s.skip(1) =~= digits + seq![CR, LF] + tail);
    lemma_line_of_concat(digits, tail);
    assert(is_digit(digits[0]));
    assert(parse_length_spec(digits) == Some(parts.len() as usize));
    assert(length_of_line(s.skip(1)) == Ok::<usize, DecodeFault>(parts.len() as usize));
    lemma_bulk_frames_decode(parts, rest);
}

/// A `PING` request is answered by `PONG`: a command whose name selects
/// `ping` gets the reply to `PING`, whatever arguments follow the name.
pub proof fn lemma_ping_request(parts: Seq<Seq<u8>>, rest: Seq<u8>)
    requires
        lengths_fit(parts),
        parts.len() > 0,
        command_name(parts[0]) == "ping"@,
    ensures
        request_spec(request_frame(parts) + rest) == Ok::<(Frame, Seq<u8>), RequestFault>(
            (Frame::Array(bulk_strings(parts)), encode_spec(Command::Ping)),
        ),
{
    lemma_request_frame_decodes(parts, rest);
}

/// An `ECHO` request with one argument is answered by that argument: the
/// reply is the bulk frame of the argument's text, and where the argument
/// is well-formed UTF-8 it is the bulk frame of the very same bytes. With
/// no argument, or with more than one, the request fails with an arity
/// error.
pub proof fn lemma_echo_request(parts: Seq<Seq<u8>>, rest: Seq<u8>)
    requires
        lengths_fit(parts),
        parts.len() > 0,
        command_name(parts[0]) == "echo"@,
    ensures
        parts.len() != 2 ==> request_spec(request_frame(parts) + rest) == Err::<
            (Frame, Seq<u8>),
            RequestFault,
        >(RequestFault::Interpret(InterpretError::ArityError)),
        parts.len() == 2 ==> request_spec(request_frame(parts) + rest) == Ok::<
            (Frame, Seq<u8>),
            RequestFault,
        >((Frame::Array(bulk_strings(parts)), encode_spec(Command::Echo(lossy_text(parts[1]))))),
        parts.len() == 2 && valid_utf8(parts[1]) ==> encode_spec(
            Command::Echo(lossy_text(parts[1])),
        ) == bulk_frame(parts[1]),
{
    lemma_request_frame_decodes(parts, rest);
    lemma_echo_arity(bulk_strings(parts));
    if parts.len() == 2 && valid_utf8(parts[1]) {
        decode_utf8_encode_utf8(parts[1]);
    }
}

/// A request under any other name fails as an unknown command.
pub proof fn lemma_unknown_request(parts: Seq<Seq<u8>>, rest: Seq<u8>)
    requires
        lengths_fit(parts),
        parts.len() > 0,
        command_name(parts[0]) != "ping"@,
        command_name(parts[0]) != "echo"@,
    ensures
        request_spec(request_frame(parts) + rest) == Err::<(Frame, Seq<u8>), RequestFault>(
            RequestFault::Interpret(InterpretError::UnknownCommand),
        ),
{
    lemma_request_frame_decodes(parts, rest);
}

/// An error frame from the peer is answered by the reply to the unknown
/// command.
pub proof fn lemma_error_frame_request(text: Seq<char>, rest: Seq<u8>)
    requires
        !has_terminator(encode_utf8(text)),
    ensures
        request_spec(status_frame(TAG_ERROR, text) + rest) == Ok::<
            (Frame, Seq<u8>),
            RequestFault,
        >((Frame::Error(text), encode_spec(Command::Unknown))),
{
    lemma_status_frame_text(TAG_ERROR, text, rest);
}

/// `ECHO` keeps a text: the text of an `ECHO` command, written as a bulk
/// string in UTF-8 and interpreted as the argument of `echo`, is the same
/// text again.
pub proof fn lemma_echo_keeps_text(name: Seq<u8>, text: Seq<char>)
    requires
        command_name(name) == "echo"@,
    ensures
        interpret_array_spec(seq![Frame::BulkString(name), Frame::BulkString(encode_utf8(text))])
            == Ok::<Command, InterpretError>(Command::Echo(text)),
{
    let array = seq![Frame::BulkString(name), Frame::BulkString(encode_utf8(text))];
    lemma_echo_arity(array);
    encode_utf8_valid_utf8(text);
    encode_utf8_decode_utf8(text);
}

/// The fixed replies, byte by byte: `+PONG` and `-ERROR_UNKNOWN_COMMAND` in
/// ASCII, each followed by `CR LF`.
pub proof fn lemma_fixed_replies()
    ensures
        encode_spec(Command::Ping) == seq![0x2bu8, 0x50, 0x4f, 0x4e, 0x47, 0x0d, 0x0a],
        encode_spec(Command::Unknown) == seq![
            0x2du8, 0x45, 0x52, 0x52, 0x4f, 0x52, 0x5f, 0x55,
            0x4e, 0x4b, 0x4e, 0x4f, 0x57, 0x4e, 0x5f, 0x43,
            0x4f, 0x4d, 0x4d, 0x41, 0x4e, 0x44, 0x0d, 0x0a,
        ],
{
    reveal_strlit("PONG");
    reveal_strlit("ERROR_UNKNOWN_COMMAND");
    is_ascii_chars_encode_utf8("PONG"@);
    is_ascii_chars_encode_utf8("ERROR_UNKNOWN_COMMAND"@);
    assert(encode_spec(Command::Ping) =~= seq![0x2bu8, 0x50, 0x4f, 0x4e, 0x47, 0x0d, 0x0a]);
    assert(encode_spec(Command::Unknown) =~= seq![
        0x2du8, 0x45, 0x52, 0x52, 0x4f, 0x52, 0x5f, 0x55,
        0x4e, 0x4b, 0x4e, 0x4f, 0x57, 0x4e, 0x5f, 0x43,
        0x4f, 0x4d, 0x4d, 0x41, 0x4e, 0x44, 0x0d, 0x0a,
    ]);
}

} // verus!
