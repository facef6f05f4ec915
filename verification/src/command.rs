//! Commands: what a decoded frame asks for, and the reply that goes back on
//! the wire.
use crate::decimal::{decimal_digits, push_decimal};
use crate::decode::{decode_spec, decode_value, TAG_BULK_STRING, TAG_ERROR, TAG_SIMPLE_STRING};
use crate::stream::{ByteStream, CR, LF};
use crate::text::{lossy_text, lowercase, text_from_utf8_lossy, text_to_lowercase};
use crate::value::{frames, lemma_frames, DecodeError, DecodeFault, Frame, RespValue};
use vstd::prelude::*;
use vstd::utf8::*;

verus! {

/// A command, as interpreted from a frame.
#[allow(non_camel_case_types)]
#[derive(Debug, PartialEq, Eq)]
pub enum RedisCommand {
    /// `PING`: no payload.
    PING,
    /// `ECHO`: the one text to send back.
    ECHO(String),
    /// What an error frame from the peer is taken for.
    UNKNOWN,
}

/// The mathematical model of a command: the view of a `RedisCommand`.
pub enum Command {
    Ping,
    Echo(Seq<char>),
    Unknown,
}

impl View for RedisCommand {
    type V = Command;

    open spec fn view(&self) -> Command {
        match self {
            RedisCommand::PING => Command::Ping,
            RedisCommand::ECHO(text) => Command::Echo(text@),
            RedisCommand::UNKNOWN => Command::Unknown,
        }
    }
}

impl Clone for RedisCommand {
    /// A copy: a command with the same model.
    fn clone(&self) -> (copy: Self)
        ensures
            copy@ == self@,
    {
        match self {
            RedisCommand::PING => RedisCommand::PING,
            RedisCommand::ECHO(text) => RedisCommand::ECHO(text.clone()),
            RedisCommand::UNKNOWN => RedisCommand::UNKNOWN,
        }
    }
}

/// Why a frame could not be interpreted as a command.
#[derive(Debug, Clone, Copy, PartialEq, Eq)]
pub enum InterpretError {
    /// The frame is no command: it is neither an array nor an error frame,
    /// or it is an array that does not start with a bulk string, the
    /// command's name.
    NotACommand,
    /// The command's name is not one that is known.
    UnknownCommand,
    /// The command has the wrong number of arguments.
    ArityError,
    /// An argument of the command is no bulk string.
    TypeError,
}

/// The model of the outcome of an interpretation.
pub open spec fn command_view(r: Result<RedisCommand, InterpretError>) -> Result<
    Command,
    InterpretError,
> {
    match r {
        Ok(command) => Ok(command@),
        Err(error) => Err(error),
    }
}

/// The name under which a command is looked up: the bytes of the first
/// element, decoded as UTF-8 with replacement and put in lower case.
pub open spec fn command_name(bytes: Seq<u8>) -> Seq<char> {
    lowercase(lossy_text(bytes))
}

/// The command that `name`, already in lower case, selects for the array
/// `array`, whose first element carried the name.
///
/// `ping` takes any arguments and ignores them. `echo` takes exactly one,
/// a bulk string, whose bytes are decoded as UTF-8 with replacement.
pub open spec fn dispatch_spec(name: Seq<char>, array: Seq<Frame>) -> Result<
    Command,
    InterpretError,
> {
    if name == "ping"@ {
        Ok(Command::Ping)
    } else if name == "echo"@ {
        if array.len() != 2 {
            Err(InterpretError::ArityError)
        } else {
            match array[1] {
                Frame::BulkString(bytes) => Ok(Command::Echo(lossy_text(bytes))),
                _ => Err(InterpretError::TypeError),
            }
        }
    } else {
        Err(InterpretError::UnknownCommand)
    }
}

/// The command that an array of frames stands for. The array must start
/// with a bulk string, which names the command.
pub open spec fn interpret_array_spec(array: Seq<Frame>) -> Result<Command, InterpretError> {
    if array.len() == 0 {
        Err(InterpretError::NotACommand)
    } else {
        match array[0] {
            Frame::BulkString(bytes) => dispatch_spec(command_name(bytes), array),
            _ => Err(InterpretError::NotACommand),
        }
    }
}

/// The command that a frame stands for. An array is a command with its
/// arguments; an error frame is taken for the unknown command; any other
/// frame is no command.
pub open spec fn interpret_spec(frame: Frame) -> Result<Command, InterpretError> {
    match frame {
        Frame::Array(array) => interpret_array_spec(array),
        Frame::Error(_) => Ok(Command::Unknown),
        _ => Err(InterpretError::NotACommand),
    }
}

/// A status frame: the tag, the text in UTF-8, the terminator.
pub open spec fn status_frame(tag: u8, text: Seq<char>) -> Seq<u8> {
    seq![tag] + encode_utf8(text) + seq![CR, LF]
}

/// A bulk-string frame: the tag, the number of payload bytes in decimal, the
/// terminator, the payload, the terminator.
pub open spec fn bulk_frame(payload: Seq<u8>) -> Seq<u8> {
    seq![TAG_BULK_STRING] + decimal_digits(payload.len()) + seq![CR, LF] + payload + seq![CR, LF]
}

/// The reply to a command, as bytes on the wire.
pub open spec fn encode_spec(command: Command) -> Seq<u8> {
    match command {
        Command::Ping => status_frame(TAG_SIMPLE_STRING, "PONG"@),
        Command::Echo(text) => bulk_frame(encode_utf8(text)),
        Command::Unknown => status_frame(TAG_ERROR, "ERROR_UNKNOWN_COMMAND"@),
    }
}

/// Why a request got no reply.
#[derive(Debug, PartialEq, Eq)]
pub enum RequestError {
    /// No frame could be decoded.
    Decode(DecodeError),
    /// The decoded frame is no valid command.
    Interpret(InterpretError),
}

/// The mathematical model of a request error.
pub enum RequestFault {
    Decode(DecodeFault),
    Interpret(InterpretError),
}

impl View for RequestError {
    type V = RequestFault;

    open spec fn view(&self) -> RequestFault {
        match self {
            RequestError::Decode(error) => RequestFault::Decode(error@),
            RequestError::Interpret(error) => RequestFault::Interpret(*error),
        }
    }
}

impl Clone for RequestError {
    /// A copy: an error with the same model.
    fn clone(&self) -> (copy: Self)
        ensures
            copy@ == self@,
    {
        match self {
            RequestError::Decode(error) => RequestError::Decode(error.clone()),
            RequestError::Interpret(error) => RequestError::Interpret(*error),
        }
    }
}

/// A request that was served: the value it decoded to, and the bytes of the
/// reply.
#[derive(Debug, PartialEq, Eq)]
pub struct Reply {
    pub value: RespValue,
    pub bytes: Vec<u8>,
}

/// What serving the request at the front of `s` comes to: the decoded frame
/// with the encoded reply to the command it stands for, or the error of the
/// step that failed.
pub open spec fn request_spec(s: Seq<u8>) -> Result<(Frame, Seq<u8>), RequestFault> {
    match decode_spec(s).result {
        Ok(frame) => match interpret_spec(frame) {
            Ok(command) => Ok((frame, encode_spec(command))),
            Err(error) => Err(RequestFault::Interpret(error)),
        },
        Err(fault) => Err(RequestFault::Decode(fault)),
    }
}

/// Appends `bytes` to `out`.
fn push_bytes(out: &mut Vec<u8>, bytes: &[u8])
    ensures
        final(out)@ == old(out)@ + bytes@,
{
    let mut i: usize = 0;
    assert(out@ =~= old(out)@ + bytes@.take(0));
    while i < bytes.len()
        invariant
            i <= bytes@.len(),
            out@ == old(out)@ + bytes@.take(i as int),
        decreases bytes@.len() - i,
    {
        out.push(bytes[i]);
        i = i + 1;
        assert(out@ =~= old(out)@ + bytes@.take(i as int));
    }
    assert(bytes@.take(i as int) =~= bytes@);
}

/// Whether two byte strings are the same.
fn same_bytes(a: &[u8], b: &[u8]) -> (same: bool)
    ensures
        same == (a@ == b@),
{
    if a.len() != b.len() {
        return false;
    }
    let mut i: usize = 0;
    while i < a.len()
        invariant
            i <= a@.len(),
            a@.len() == b@.len(),
            a@.take(i as int) == b@.take(i as int),
        decreases a@.len() - i,
    {
        if a[i] != b[i] {
            return false;
        }
        i = i + 1;
        assert(a@.take(i as int) =~= a@.take(i - 1).push(a@[i - 1]));
        assert(b@.take(i as int) =~= b@.take(i - 1).push(b@[i - 1]));
    }
    assert(a@.take(i as int) =~= a@);
    assert(b@.take(i as int) =~= b@);
    true
}

/// Whether two texts are the same, compared by their UTF-8 bytes.
fn same_text(a: &str, b: &str) -> (same: bool)
    ensures
        same == (a@ == b@),
{
    proof {
        encode_utf8_decode_utf8(a@);
        encode_utf8_decode_utf8(b@);
    }
    same_bytes(a.as_bytes(), b.as_bytes())
}

impl RedisCommand {
    /// Encodes the reply to this command.
    ///
    /// `PING` is answered by the status `PONG`, `ECHO` by its text as a
    /// bulk string whose length counts the bytes of the text in UTF-8, and
    /// `UNKNOWN` by the error status `ERROR_UNKNOWN_COMMAND`.
    pub fn encode(&self) -> (bytes: Vec<u8>)
        ensures
            bytes@ == encode_spec(self@),
    {
        let mut out: Vec<u8> = Vec::new();
        match self {
            RedisCommand::PING => {
                out.push(TAG_SIMPLE_STRING);
                push_bytes(&mut out, "PONG".as_bytes());
            },
            RedisCommand::ECHO(text) => {
                let payload = text.as_str().as_bytes();
                out.push(TAG_BULK_STRING);
                push_decimal(&mut out, payload.len());
                out.push(CR);
                out.push(LF);
                push_bytes(&mut out, payload);
            },
            RedisCommand::UNKNOWN => {
                out.push(TAG_ERROR);
                push_bytes(&mut out, "ERROR_UNKNOWN_COMMAND".as_bytes());
            },
        }
        out.push(CR);
        out.push(LF);
        assert(out@ =~= encode_spec(self@));
        out
    }
}

/// Selects the command for a name that is already in lower case.
///
/// `array` is the whole command array, name included. `ping` succeeds
/// whatever follows the name; `echo` wants exactly one argument, and that
/// a bulk string; any other name is an unknown command.
pub fn dispatch_command(name: &str, array: &Vec<RespValue>) -> (r: Result<
    RedisCommand,
    InterpretError,
>)
    ensures
        command_view(r) == dispatch_spec(name@, frames(array@)),
{
    proof {
        lemma_frames(array@);
    }
    if same_text(name, "ping") {
        Ok(RedisCommand::PING)
    } else if same_text(name, "echo") {
        if array.len() != 2 {
            Err(InterpretError::ArityError)
        } else {
            match &array[1] {
                RespValue::BulkString(bytes) => {
                    let text = text_from_utf8_lossy(bytes.as_slice());
                    Ok(RedisCommand::ECHO(text))
                },
                _ => Err(InterpretError::TypeError),
            }
        }
    } else {
        Err(InterpretError::UnknownCommand)
    }
}

/// Interprets an array of values as a command with its arguments.
///
/// The first element must be a bulk string. Its bytes, decoded as UTF-8
/// with replacement and put in lower case, name the command, so that the
/// name is matched without regard to case.
pub fn process_redis_array(array: &Vec<RespValue>) -> (r: Result<RedisCommand, InterpretError>)
    ensures
        command_view(r) == interpret_array_spec(frames(array@)),
{
    proof {
        lemma_frames(array@);
    }
    if array.len() == 0 {
        return Err(InterpretError::NotACommand);
    }
    match &array[0] {
        RespValue::BulkString(bytes) => {
            let name = text_from_utf8_lossy(bytes.as_slice());
            let lower = text_to_lowercase(name.as_str());
            dispatch_command(lower.as_str(), array)
        },
        _ => Err(InterpretError::NotACommand),
    }
}

/// Interprets a decoded value as a command.
///
/// An array is interpreted by `process_redis_array`. An error frame is
/// not a failure: it is taken for the unknown command. Any other value is
/// no command.
pub fn interpret_redis_command(value: &RespValue) -> (r: Result<RedisCommand, InterpretError>)
    ensures
        command_view(r) == interpret_spec(value@),
{
    match value {
        RespValue::Array(array) => process_redis_array(array),
        RespValue::Error(_) => Ok(RedisCommand::UNKNOWN),
        _ => Err(InterpretError::NotACommand),
    }
}

/// Serves one request: decodes one frame from the stream, interprets it
/// and encodes the reply.
///
/// Returns the decoded value with the bytes of the reply, or the error of
/// the step that failed; whether a failed request is dropped or ends the
/// connection is for the caller to decide. Either way the stream is left
/// where decoding left it.
pub fn handle_request(reader: &mut ByteStream) -> (r: Result<Reply, RequestError>)
    ensures
        final(reader)@ == decode_spec(old(reader)@).rest,
        match r {
            Ok(reply) => request_spec(old(reader)@) == Ok::<(Frame, Seq<u8>), RequestFault>(
                (reply.value@, reply.bytes@),
            ),
            Err(error) => request_spec(old(reader)@) == Err::<(Frame, Seq<u8>), RequestFault>(
                error@,
            ),
        },
{
    let value = match decode_value(reader) {
        Ok(value) => value,
        Err(error) => {
            return Err(RequestError::Decode(error));
        },
    };
    match interpret_redis_command(&value) {
        Ok(command) => {
            let bytes = command.encode();
            Ok(Reply { value, bytes })
        },
        Err(error) => Err(RequestError::Interpret(error)),
    }
}

} // verus!
