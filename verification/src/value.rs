//! The value tree that the decoder builds, the errors it reports, and the
//! mathematical models of both.
use vstd::prelude::*;

verus! {

/// One decoded protocol frame.
#[derive(Debug, PartialEq, Eq)]
pub enum RespValue {
    /// A short status text.
    SimpleString(String),
    /// A protocol-level error message.
    Error(String),
    /// A signed 64-bit integer.
    Integer(i64),
    /// A byte string of declared length; it may hold any bytes.
    BulkString(Vec<u8>),
    /// A sequence of frames, in order.
    Array(Vec<RespValue>),
}

/// The mathematical model of a frame: the view of a `RespValue`.
pub enum Frame {
    SimpleString(Seq<char>),
    Error(Seq<char>),
    Integer(i64),
    BulkString(Seq<u8>),
    Array(Seq<Frame>),
}

impl View for RespValue {
    type V = Frame;

    open spec fn view(&self) -> Frame
        decreases self,
    {
        match self {
            RespValue::SimpleString(text) => Frame::SimpleString(text@),
            RespValue::Error(text) => Frame::Error(text@),
            RespValue::Integer(value) => Frame::Integer(*value),
            RespValue::BulkString(bytes) => Frame::BulkString(bytes@),
            RespValue::Array(items) => Frame::Array(frames(items@)),
        }
    }
}

/// The models of a sequence of values, element by element.
pub open spec fn frames(items: Seq<RespValue>) -> Seq<Frame>
    decreases items,
{
    if items.len() == 0 {
        Seq::empty()
    } else {
        frames(items.drop_last()).push(items.last()@)
    }
}

/// `frames` keeps the length and models each element in its place.
pub proof fn lemma_frames(items: Seq<RespValue>)
    ensures
        frames(items).len() == items.len(),
        forall|i: int| 0 <= i < items.len() ==> #[trigger] frames(items)[i] == items[i]@,
    decreases items.len(),
{
    if items.len() > 0 {
        lemma_frames(items.drop_last());
        assert(frames(items) == frames(items.drop_last()).push(items.last()@));
    } else {
        assert(frames(items) == Seq::<Frame>::empty());
    }
}

/// Appending a value appends its model.
pub proof fn lemma_frames_push(items: Seq<RespValue>, value: RespValue)
    ensures
        frames(items.push(value)) == frames(items).push(value@),
{
    assert(items.push(value).drop_last() =~= items);
}

impl Clone for RespValue {
    /// A deep copy: a value with the same model.
    fn clone(&self) -> (copy: Self)
        ensures
            copy@ == self@,
        decreases self,
    {
        match self {
            RespValue::SimpleString(text) => RespValue::SimpleString(text.clone()),
            RespValue::Error(text) => RespValue::Error(text.clone()),
            RespValue::Integer(value) => RespValue::Integer(*value),
            RespValue::BulkString(bytes) => RespValue::BulkString(bytes.clone()),
            RespValue::Array(items) => RespValue::Array(clone_items(items)),
        }
    }
}

/// Deep copies of the values of `items`, in order.
fn clone_items(items: &Vec<RespValue>) -> (copies: Vec<RespValue>)
    ensures
        frames(copies@) == frames(items@),
    decreases items,
{
    let mut copies: Vec<RespValue> = Vec::new();
    let mut i: usize = 0;
    while i < items.len()
        invariant
            i <= items@.len(),
            frames(copies@) == frames(items@.take(i as int)),
        decreases items@.len() - i,
    {
        let copy = items[i].clone();
        proof {
            lemma_frames_push(copies@, copy);
            lemma_frames_push(items@.take(i as int), items@[i as int]);
            assert(items@.take(i + 1) =~= items@.take(i as int).push(items@[i as int]));
        }
        copies.push(copy);
        i = i + 1;
    }
    assert(items@.take(i as int) =~= items@);
    copies
}

/// Why a byte stream could not be decoded into a frame.
#[derive(Debug, PartialEq, Eq)]
pub enum DecodeError {
    /// The frame starts with a byte that is no type tag. `line` holds what
    /// followed the byte, up to the end of its line, terminator included.
    UnknownType { byte: u8, line: Vec<u8> },
    /// The text of an integer frame is no signed decimal that fits in 64
    /// bits.
    BadInteger,
    /// The length of a bulk string, or the count of an array, is no unsigned
    /// decimal that fits in `usize`.
    BadLength,
    /// The stream ended before the frame was complete.
    UnexpectedEof,
    /// The text of a simple string or of an error frame is not UTF-8.
    InvalidData,
}

/// The mathematical model of a decode error.
pub enum DecodeFault {
    UnknownType { byte: u8, line: Seq<u8> },
    BadInteger,
    BadLength,
    UnexpectedEof,
    InvalidData,
}

impl View for DecodeError {
    type V = DecodeFault;

    open spec fn view(&self) -> DecodeFault {
        match self {
            DecodeError::UnknownType { byte, line } => DecodeFault::UnknownType {
                byte: *byte,
                line: line@,
            },
            DecodeError::BadInteger => DecodeFault::BadInteger,
            DecodeError::BadLength => DecodeFault::BadLength,
            DecodeError::UnexpectedEof => DecodeFault::UnexpectedEof,
            DecodeError::InvalidData => DecodeFault::InvalidData,
        }
    }
}

impl Clone for DecodeError {
    /// A copy: an error with the same model.
    fn clone(&self) -> (copy: Self)
        ensures
            copy@ == self@,
    {
        match self {
            DecodeError::UnknownType { byte, line } => DecodeError::UnknownType {
                byte: *byte,
                line: line.clone(),
            },
            DecodeError::BadInteger => DecodeError::BadInteger,
            DecodeError::BadLength => DecodeError::BadLength,
            DecodeError::UnexpectedEof => DecodeError::UnexpectedEof,
            DecodeError::InvalidData => DecodeError::InvalidData,
        }
    }
}

/// The model of the outcome of a decode call.
pub open spec fn decoded_view(r: Result<RespValue, DecodeError>) -> Result<Frame, DecodeFault> {
    match r {
        Ok(value) => Ok(value@),
        Err(error) => Err(error@),
    }
}

} // verus!
