//! The decoder: from a byte stream to a value tree.
//!
//! `decode_spec` says what every byte sequence decodes to and what it leaves
//! unread; `decode_value` is the executable decoder, proved to agree with it.
use crate::decimal::{parse_integer, parse_integer_spec, parse_length, parse_length_spec};
use crate::stream::{
    after_line, has_terminator, lemma_after_line_len, line_text, whole_line, ByteStream, CR, LF,
};
use crate::text::text_from_utf8;
use crate::value::{
    decoded_view, frames, lemma_frames_push, DecodeError, DecodeFault, Frame, RespValue,
};
use vstd::prelude::*;
use vstd::utf8::*;

verus! {

/// `+`, the tag of a simple string.
pub const TAG_SIMPLE_STRING: u8 = 0x2b;

/// `-`, the tag of an error.
pub const TAG_ERROR: u8 = 0x2d;

/// `:`, the tag of an integer.
pub const TAG_INTEGER: u8 = 0x3a;

/// `$`, the tag of a bulk string.
pub const TAG_BULK_STRING: u8 = 0x24;

/// `*`, the tag of an array.
pub const TAG_ARRAY: u8 = 0x2a;

/// The byte `b` is one of the five type tags.
pub open spec fn is_tag(b: u8) -> bool {
    b == TAG_SIMPLE_STRING || b == TAG_ERROR || b == TAG_INTEGER || b == TAG_BULK_STRING || b
        == TAG_ARRAY
}

/// What decoding makes of a byte sequence: a value or an error, and the
/// bytes that are left unread.
pub struct Decoded<T> {
    pub result: Result<T, DecodeFault>,
    pub rest: Seq<u8>,
}

/// The text of a simple string or an error, from the bytes after the tag:
/// the first line, which must end in a terminator and be UTF-8.
pub open spec fn text_of_line(body: Seq<u8>) -> Result<Seq<char>, DecodeFault> {
    if !has_terminator(body) {
        Err(DecodeFault::UnexpectedEof)
    } else if !valid_utf8(line_text(body)) {
        Err(DecodeFault::InvalidData)
    } else {
        Ok(decode_utf8(line_text(body)))
    }
}

/// The number of an integer frame, from the bytes after the tag: the first
/// line, which must end in a terminator and be a signed decimal.
pub open spec fn integer_of_line(body: Seq<u8>) -> Result<i64, DecodeFault> {
    if !has_terminator(body) {
        Err(DecodeFault::UnexpectedEof)
    } else {
        match parse_integer_spec(line_text(body)) {
            Some(value) => Ok(value),
            None => Err(DecodeFault::BadInteger),
        }
    }
}

/// The length of a bulk string or the count of an array, from the bytes
/// after the tag: the first line, which must end in a terminator and be an
/// unsigned decimal. A negative number is no length: there are no null bulk
/// strings and no null arrays.
pub open spec fn length_of_line(body: Seq<u8>) -> Result<usize, DecodeFault> {
    if !has_terminator(body) {
        Err(DecodeFault::UnexpectedEof)
    } else {
        match parse_length_spec(line_text(body)) {
            Some(len) => Ok(len),
            None => Err(DecodeFault::BadLength),
        }
    }
}

/// The payload of a bulk string of declared length `len`, from the bytes
/// after the header line: exactly `len` bytes, whatever they are, and two
/// more bytes for the terminator, which are dropped.
pub open spec fn decode_payload(s: Seq<u8>, len: nat) -> Decoded<Frame> {
    if s.len() < len + 2 {
        Decoded { result: Err(DecodeFault::UnexpectedEof), rest: Seq::empty() }
    } else {
        Decoded { result: Ok(Frame::BulkString(s.take(len as int))), rest: s.skip(len as int + 2) }
    }
}

/// What one frame at the front of `s` decodes to.
///
/// The first byte is the type tag; a byte that is no tag is an error that
/// carries the byte and the rest of its line, terminator included. An error
/// in an element of an array is the error of the array.
pub open spec fn decode_spec(s: Seq<u8>) -> Decoded<Frame>
    decreases s.len(), 0nat,
    via decode_spec_decreases
{
    if s.len() == 0 {
        Decoded { result: Err(DecodeFault::UnexpectedEof), rest: s }
    } else {
        let tag = s[0];
        let body = s.skip(1);
        let rest = after_line(body);
        if tag == TAG_SIMPLE_STRING {
            match text_of_line(body) {
                Ok(text) => Decoded { result: Ok(Frame::SimpleString(text)), rest },
                Err(fault) => Decoded { result: Err(fault), rest },
            }
        } else if tag == TAG_ERROR {
            match text_of_line(body) {
                Ok(text) => Decoded { result: Ok(Frame::Error(text)), rest },
                Err(fault) => Decoded { result: Err(fault), rest },
            }
        } else if tag == TAG_INTEGER {
            match integer_of_line(body) {
                Ok(value) => Decoded { result: Ok(Frame::Integer(value)), rest },
                Err(fault) => Decoded { result: Err(fault), rest },
            }
        } else if tag == TAG_BULK_STRING {
            match length_of_line(body) {
                Ok(len) => decode_payload(rest, len as nat),
                Err(fault) => Decoded { result: Err(fault), rest },
            }
        } else if tag == TAG_ARRAY {
            match length_of_line(body) {
                Ok(count) => {
                    let items = decode_items(rest, count as nat);
                    match items.result {
                        Ok(list) => Decoded { result: Ok(Frame::Array(list)), rest: items.rest },
                        Err(fault) => Decoded { result: Err(fault), rest: items.rest },
                    }
                },
                Err(fault) => Decoded { result: Err(fault), rest },
            }
        } else {
            Decoded {
                result: Err(DecodeFault::UnknownType { byte: tag, line: whole_line(body) }),
                rest,
            }
        }
    }
}

/// The outcome `tail` of decoding further frames, with the frames `front`
/// that were decoded before them put in front.
pub open spec fn prepend(front: Seq<Frame>, tail: Decoded<Seq<Frame>>) -> Decoded<Seq<Frame>> {
    match tail.result {
        Ok(list) => Decoded { result: Ok(front + list), rest: tail.rest },
        Err(fault) => Decoded { result: Err(fault), rest: tail.rest },
    }
}

/// What `count` frames, one after the other at the front of `s`, decode to.
/// The first error ends the decoding.
///
/// The test on the length of what the first frame leaves is there to show
/// that the definition is well founded; it always holds, by
/// `lemma_decode_rest`.
pub open spec fn decode_items(s: Seq<u8>, count: nat) -> Decoded<Seq<Frame>>
    decreases s.len(), count + 1,
{
    if count == 0 {
        Decoded { result: Ok(Seq::empty()), rest: s }
    } else {
        let first = decode_spec(s);
        match first.result {
            Ok(frame) => if first.rest.len() <= s.len() {
                prepend(seq![frame], decode_items(first.rest, (count - 1) as nat))
            } else {
                arbitrary()
            },
            Err(fault) => Decoded { result: Err(fault), rest: first.rest },
        }
    }
}

#[via_fn]
proof fn decode_spec_decreases(s: Seq<u8>) {
    if s.len() > 0 {
        lemma_after_line_len(s.skip(1));
    }
}

/// Decoding leaves no more bytes than it was given, and fewer where it
/// succeeds.
pub proof fn lemma_decode_rest(s: Seq<u8>)
    ensures
        decode_spec(s).rest.len() <= s.len(),
        decode_spec(s).result is Ok ==> decode_spec(s).rest.len() < s.len(),
    decreases s.len(), 0nat,
{
    if s.len() > 0 {
        let body = s.skip(1);
        lemma_after_line_len(body);
        if s[0] == TAG_ARRAY {
            match length_of_line(body) {
                Ok(count) => {
                    lemma_decode_items_rest(after_line(body), count as nat);
                },
                Err(_) => {},
            }
        }
    }
}

/// Decoding a run of frames leaves no more bytes than it was given.
pub proof fn lemma_decode_items_rest(s: Seq<u8>, count: nat)
    ensures
        decode_items(s, count).rest.len() <= s.len(),
    decreases s.len(), count + 1,
{
    if count > 0 {
        lemma_decode_rest(s);
        let first = decode_spec(s);
        if first.result is Ok {
            lemma_decode_items_rest(first.rest, (count - 1) as nat);
        }
    }
}

/// A run of at least one frame is its first frame and then the run of the
/// others, decoded from what the first frame left.
pub proof fn lemma_decode_items_step(s: Seq<u8>, count: nat)
    requires
        count > 0,
    ensures
        decode_items(s, count) == match decode_spec(s).result {
            Ok(frame) => prepend(
                seq![frame],
                decode_items(decode_spec(s).rest, (count - 1) as nat),
            ),
            Err(fault) => Decoded { result: Err(fault), rest: decode_spec(s).rest },
        },
{
    lemma_decode_rest(s);
}

/// Reads the line of a simple string or an error and decodes its text.
fn read_text(reader: &mut ByteStream) -> (r: Result<String, DecodeError>)
    ensures
        final(reader)@ == after_line(old(reader)@),
        match r {
            Ok(text) => text_of_line(old(reader)@) == Ok::<Seq<char>, DecodeFault>(text@),
            Err(error) => text_of_line(old(reader)@) == Err::<Seq<char>, DecodeFault>(error@),
        },
{
    let line = reader.read_line();
    if !line.terminated {
        return Err(DecodeError::UnexpectedEof);
    }
    match text_from_utf8(line.text) {
        Some(text) => Ok(text),
        None => Err(DecodeError::InvalidData),
    }
}

/// Reads the line of an integer frame and parses its number.
fn read_integer(reader: &mut ByteStream) -> (r: Result<i64, DecodeError>)
    ensures
        final(reader)@ == after_line(old(reader)@),
        match r {
            Ok(value) => integer_of_line(old(reader)@) == Ok::<i64, DecodeFault>(value),
            Err(error) => integer_of_line(old(reader)@) == Err::<i64, DecodeFault>(error@),
        },
{
    let line = reader.read_line();
    if !line.terminated {
        return Err(DecodeError::UnexpectedEof);
    }
    match parse_integer(line.text.as_slice()) {
        Some(value) => Ok(value),
        None => Err(DecodeError::BadInteger),
    }
}

/// Reads the header line of a bulk string or an array and parses its length.
fn read_length(reader: &mut ByteStream) -> (r: Result<usize, DecodeError>)
    ensures
        final(reader)@ == after_line(old(reader)@),
        match r {
            Ok(len) => length_of_line(old(reader)@) == Ok::<usize, DecodeFault>(len),
            Err(error) => length_of_line(old(reader)@) == Err::<usize, DecodeFault>(error@),
        },
{
    let line = reader.read_line();
    if !line.terminated {
        return Err(DecodeError::UnexpectedEof);
    }
    match parse_length(line.text.as_slice()) {
        Some(len) => Ok(len),
        None => Err(DecodeError::BadLength),
    }
}

/// Reads the payload of a bulk string of declared length `len`, and the two
/// bytes of its terminator.
fn read_payload(reader: &mut ByteStream, len: usize) -> (r: Result<RespValue, DecodeError>)
    ensures
        decoded_view(r) == decode_payload(old(reader)@, len as nat).result,
        final(reader)@ == decode_payload(old(reader)@, len as nat).rest,
{
    let payload = match reader.read_exact(len) {
        Some(payload) => payload,
        None => {
            return Err(DecodeError::UnexpectedEof);
        },
    };
    match reader.read_exact(2) {
        Some(_) => {
            assert(old(reader)@.skip(len as int).skip(2) =~= old(reader)@.skip(len as int + 2));
            Ok(RespValue::BulkString(payload))
        },
        None => Err(DecodeError::UnexpectedEof),
    }
}

/// Decodes `count` frames, one after the other, into a vector. The first
/// error ends the decoding and is returned.
fn decode_elements(reader: &mut ByteStream, count: usize) -> (r: Result<
    Vec<RespValue>,
    DecodeError,
>)
    ensures
        final(reader)@ == decode_items(old(reader)@, count as nat).rest,
        match r {
            Ok(items) => decode_items(old(reader)@, count as nat).result == Ok::<
                Seq<Frame>,
                DecodeFault,
            >(frames(items@)),
            Err(error) => decode_items(old(reader)@, count as nat).result == Err::<
                Seq<Frame>,
                DecodeFault,
            >(error@),
        },
    decreases old(reader)@.len(), 1nat,
{
    let ghost start = reader@;
    let mut items: Vec<RespValue> = Vec::new();
    let mut i: usize = 0;
    assert(prepend(frames(items@), decode_items(start, count as nat)) == decode_items(
        start,
        count as nat,
    )) by {
        let whole = decode_items(start, count as nat);
        match whole.result {
            Ok(list) => {
                assert(frames(items@) + list =~= list);
            },
            Err(_) => {},
        }
    }
    while i < count
        invariant
            i <= count,
            start == old(reader)@,
            reader@.len() <= start.len(),
            decode_items(start, count as nat) == prepend(
                frames(items@),
                decode_items(reader@, (count - i) as nat),
            ),
        decreases count - i,
    {
        let ghost current = reader@;
        let ghost before = items@;
        proof {
            lemma_decode_items_step(current, (count - i) as nat);
            lemma_decode_rest(current);
        }
        match decode_value(reader) {
            Ok(value) => {
                items.push(value);
                proof {
                    let tail = decode_items(reader@, (count - i - 1) as nat);
                    lemma_frames_push(before, value);
                    match tail.result {
                        Ok(list) => {
                            assert(frames(before) + (seq![value@] + list) =~= frames(before).push(
                                value@,
                            ) + list);
                        },
                        Err(_) => {},
                    }
                }
            },
            Err(error) => {
                return Err(error);
            },
        }
        i = i + 1;
    }
    assert(frames(items@) + Seq::<Frame>::empty() =~= frames(items@));
    Ok(items)
}

/// Decodes one frame from the front of the stream.
///
/// The outcome, and what is left in the stream, are those that `decode_spec`
/// gives for the bytes that were in the stream: on success the value whose
/// model is the decoded frame, and else the error. A frame is never
/// returned in part, and after an error the stream is where the failed read
/// left it.
pub fn decode_value(reader: &mut ByteStream) -> (r: Result<RespValue, DecodeError>)
    ensures
        decoded_view(r) == decode_spec(old(reader)@).result,
        final(reader)@ == decode_spec(old(reader)@).rest,
    decreases old(reader)@.len(), 0nat,
{
    let tag = match reader.read_byte() {
        Some(tag) => tag,
        None => {
            return Err(DecodeError::UnexpectedEof);
        },
    };
    proof {
        lemma_after_line_len(reader@);
    }
    if tag == TAG_SIMPLE_STRING {
        match read_text(reader) {
            Ok(text) => Ok(RespValue::SimpleString(text)),
            Err(error) => Err(error),
        }
    } else if tag == TAG_ERROR {
        match read_text(reader) {
            Ok(text) => Ok(RespValue::Error(text)),
            Err(error) => Err(error),
        }
    } else if tag == TAG_INTEGER {
        match read_integer(reader) {
            Ok(value) => Ok(RespValue::Integer(value)),
            Err(error) => Err(error),
        }
    } else if tag == TAG_BULK_STRING {
        match read_length(reader) {
            Ok(len) => read_payload(reader, len),
            Err(error) => Err(error),
        }
    } else if tag == TAG_ARRAY {
        match read_length(reader) {
            Ok(count) => match decode_elements(reader, count) {
                Ok(items) => Ok(RespValue::Array(items)),
                Err(error) => Err(error),
            },
            Err(error) => Err(error),
        }
    } else {
        let ghost body = reader@;
        let read = reader.read_line();
        let mut line = read.text;
        if read.terminated {
            line.push(CR);
            line.push(LF);
        }
        assert(line@ =~= whole_line(body));
        Err(DecodeError::UnknownType { byte: tag, line })
    }
}

} // verus!
