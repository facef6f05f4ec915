//! The byte stream that frames are decoded from: a buffer and a cursor, with
//! the two framing reads of the protocol, a fixed number of bytes and a line
//! up to its terminator.
use vstd::prelude::*;

verus! {

/// Carriage return, the first byte of the line terminator.
pub const CR: u8 = 0x0d;

/// Line feed, the second byte of the line terminator.
pub const LF: u8 = 0x0a;

/// A line terminator, `CR LF`, starts at index `i` of `s`.
pub open spec fn terminator_at(s: Seq<u8>, i: int) -> bool {
    0 <= i && i + 1 < s.len() && s[i] == CR && s[i + 1] == LF
}

/// `s` holds a line terminator somewhere.
pub open spec fn has_terminator(s: Seq<u8>) -> bool {
    exists|i: int| terminator_at(s, i)
}

/// `n` is where the first line terminator of `s` starts.
pub open spec fn is_first_terminator(s: Seq<u8>, n: int) -> bool {
    terminator_at(s, n) && forall|j: int| 0 <= j < n ==> !terminator_at(s, j)
}

/// Where the first line terminator of `s` starts, if `s` has one.
pub open spec fn first_terminator(s: Seq<u8>) -> int {
    choose|n: int| is_first_terminator(s, n)
}

/// The first line of `s` without its terminator. Where `s` has no terminator
/// the line is all of `s`.
pub open spec fn line_text(s: Seq<u8>) -> Seq<u8> {
    if has_terminator(s) {
        s.take(first_terminator(s))
    } else {
        s
    }
}

/// What follows the first line of `s` and its terminator. Where `s` has no
/// terminator nothing follows.
pub open spec fn after_line(s: Seq<u8>) -> Seq<u8> {
    if has_terminator(s) {
        s.skip(first_terminator(s) + 2)
    } else {
        Seq::empty()
    }
}

/// The first line of `s` with its terminator: all that reading one line
/// takes from `s`.
pub open spec fn whole_line(s: Seq<u8>) -> Seq<u8> {
    if has_terminator(s) {
        line_text(s) + seq![CR, LF]
    } else {
        s
    }
}

/// The first terminator is unique: an index that carries a terminator, with
/// none before it, is the one that `first_terminator` names.
pub proof fn lemma_first_terminator_is(s: Seq<u8>, n: int)
    requires
        is_first_terminator(s, n),
    ensures
        has_terminator(s),
        first_terminator(s) == n,
{
    let m = first_terminator(s);
    assert(is_first_terminator(s, m));
    if m < n {
        assert(!terminator_at(s, m));
    }
    if n < m {
        assert(!terminator_at(s, n));
    }
}

/// Below an index that carries a terminator there is a first one.
proof fn lemma_least_terminator(s: Seq<u8>, i: int) -> (n: int)
    requires
        terminator_at(s, i),
    ensures
        is_first_terminator(s, n),
    decreases i,
{
    if exists|j: int| 0 <= j < i && terminator_at(s, j) {
        let j = choose|j: int| 0 <= j < i && terminator_at(s, j);
        lemma_least_terminator(s, j)
    } else {
        i
    }
}

/// A sequence that holds a terminator is its first line, the terminator and
/// what follows; and the first line holds no terminator.
pub proof fn lemma_line_split(s: Seq<u8>)
    requires
        has_terminator(s),
    ensures
        is_first_terminator(s, first_terminator(s)),
        s == line_text(s) + seq![CR, LF] + after_line(s),
        !has_terminator(line_text(s)),
{
    let i = choose|i: int| terminator_at(s, i);
    let least = lemma_least_terminator(s, i);
    let n = first_terminator(s);
    assert(is_first_terminator(s, n));
    assert(s =~= s.take(n) + seq![CR, LF] + s.skip(n + 2));
    assert forall|j: int| !terminator_at(s.take(n), j) by {
        if terminator_at(s.take(n), j) {
            assert(terminator_at(s, j));
        }
    }
}

/// What follows the first line is shorter than the input, or as short where
/// the input is empty.
pub proof fn lemma_after_line_len(s: Seq<u8>)
    ensures
        after_line(s).len() <= s.len(),
        has_terminator(s) ==> line_text(s).len() + 2 + after_line(s).len() == s.len(),
{
    if has_terminator(s) {
        lemma_line_split(s);
    }
}

/// A text that holds no terminator, followed by a terminator and anything
/// else, splits back into that text and what followed.
pub proof fn lemma_line_of_concat(text: Seq<u8>, rest: Seq<u8>)
    requires
        !has_terminator(text),
    ensures
        has_terminator(text + seq![CR, LF] + rest),
        line_text(text + seq![CR, LF] + rest) == text,
        after_line(text + seq![CR, LF] + rest) == rest,
{
    let s = text + seq![CR, LF] + rest;
    let n = text.len() as int;
    assert(terminator_at(s, n));
    assert forall|j: int| 0 <= j < n implies !terminator_at(s, j) by {
        if terminator_at(s, j) {
            // The pair would lie inside `text`, or end on the appended CR.
            if j + 1 < n {
                assert(terminator_at(text, j));
            }
        }
    }
    lemma_first_terminator_is(s, n);
    assert(s.take(n) =~= text);
    assert(s.skip(n + 2) =~= rest);
}

/// One line read from a stream.
#[derive(Debug, PartialEq, Eq)]
pub struct Line {
    /// The bytes of the line, without the terminator.
    pub text: Vec<u8>,
    /// Whether the line ended in a terminator, and not at the end of the
    /// stream.
    pub terminated: bool,
}

/// An in-memory byte stream that is consumed from the front.
///
/// Its view is the sequence of bytes that have not been read yet.
#[derive(Debug)]
pub struct ByteStream {
    data: Vec<u8>,
    pos: usize,
}

impl View for ByteStream {
    type V = Seq<u8>;

    closed spec fn view(&self) -> Seq<u8> {
        self.data@.skip(self.pos as int)
    }
}

impl ByteStream {
    #[verifier::type_invariant]
    spec fn cursor_in_bounds(&self) -> bool {
        self.pos <= self.data@.len()
    }

    /// A stream over `data`, with nothing read yet.
    pub fn new(data: Vec<u8>) -> (stream: Self)
        ensures
            stream@ == data@,
    {
        assert(data@.skip(0) =~= data@);
        ByteStream { data, pos: 0 }
    }

    /// The number of bytes that have not been read yet.
    pub fn remaining(&self) -> (n: usize)
        ensures
            n == self@.len(),
    {
        proof {
            use_type_invariant(self);
        }
        self.data.len() - self.pos
    }

    /// Reads one byte, or returns `None` at the end of the stream.
    pub fn read_byte(&mut self) -> (r: Option<u8>)
        ensures
            old(self)@.len() == 0 ==> r is None && final(self)@ == old(self)@,
            old(self)@.len() > 0 ==> {
                &&& r == Some(old(self)@[0])
                &&& final(self)@ == old(self)@.skip(1)
            },
    {
        proof {
            use_type_invariant(&*self);
        }
        if self.pos < self.data.len() {
            let b = self.data[self.pos];
            self.pos = self.pos + 1;
            assert(self@ =~= old(self)@.skip(1));
            Some(b)
        } else {
            None
        }
    }

    /// Reads exactly `n` bytes.
    ///
    /// Where fewer than `n` bytes are left the read fails with `None` and
    /// the stream is left exhausted.
    pub fn read_exact(&mut self, n: usize) -> (r: Option<Vec<u8>>)
        ensures
            n <= old(self)@.len() ==> {
                &&& r is Some
                &&& r->0@ == old(self)@.take(n as int)
                &&& final(self)@ == old(self)@.skip(n as int)
            },
            n > old(self)@.len() ==> r is None && final(self)@ == Seq::<u8>::empty(),
    {
        proof {
            use_type_invariant(&*self);
        }
        let left = self.data.len() - self.pos;
        if n > left {
            self.pos = self.data.len();
            assert(self@ =~= Seq::<u8>::empty());
            return None;
        }
        let end = self.pos + n;
        let bytes = copy_range(&self.data, self.pos, end);
        assert(bytes@ =~= old(self)@.take(n as int));
        self.pos = end;
        assert(self@ =~= old(self)@.skip(n as int));
        Some(bytes)
    }

    /// Reads one line: the bytes up to the first `CR LF`, which is consumed
    /// but not returned.
    ///
    /// Where the stream ends before a terminator is found, the line is all
    /// that was left, it is marked as not terminated, and the stream is left
    /// exhausted.
    pub fn read_line(&mut self) -> (line: Line)
        ensures
            line.terminated == has_terminator(old(self)@),
            line.text@ == line_text(old(self)@),
            final(self)@ == after_line(old(self)@),
    {
        proof {
            use_type_invariant(&*self);
        }
        let ghost s = self@;
        let start = self.pos;
        let len = self.data.len();
        let mut i: usize = start;
        while i < len && !(i + 1 < len && self.data[i] == CR && self.data[i + 1] == LF)
            invariant
                start <= i <= len,
                len == self.data@.len(),
                start == self.pos,
                s == self.data@.skip(start as int),
                *self == *old(self),
                forall|j: int| 0 <= j < i - start ==> !terminator_at(s, j),
            decreases len - i,
        {
            i = i + 1;
        }
        let text = copy_range(&self.data, start, i);
        assert(text@ =~= s.take(i - start));
        if i < len {
            proof {
                assert(terminator_at(s, i - start));
                lemma_first_terminator_is(s, i - start);
            }
            self.pos = i + 2;
            assert(self@ =~= s.skip(i - start + 2));
            Line { text, terminated: true }
        } else {
            assert(s.take(i - start) =~= s);
            self.pos = len;
            assert(self@ =~= Seq::<u8>::empty());
            Line { text, terminated: false }
        }
    }
}

/// A copy of the bytes of `data` from index `from` up to `to`.
fn copy_range(data: &Vec<u8>, from: usize, to: usize) -> (bytes: Vec<u8>)
    requires
        from <= to <= data@.len(),
    ensures
        bytes@ == data@.subrange(from as int, to as int),
{
    let mut bytes: Vec<u8> = Vec::new();
    let mut i: usize = from;
    while i < to
        invariant
            from <= i <= to <= data@.len(),
            bytes@ == data@.subrange(from as int, i as int),
        decreases to - i,
    {
        bytes.push(data[i]);
        i = i + 1;
        assert(bytes@ =~= data@.subrange(from as int, i as int));
    }
    bytes
}

} // verus!
