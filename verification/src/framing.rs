//! Frames delimit themselves: decoding reads a frame from the front of its
//! input, leaves the end of the input untouched, and does not depend on
//! what follows the frame.
use crate::decode::{
    decode_items, decode_payload, decode_spec, integer_of_line, lemma_decode_items_step,
    lemma_decode_rest, length_of_line, text_of_line, Decoded, TAG_ARRAY, TAG_BULK_STRING,
};
use crate::stream::{
    after_line, has_terminator, lemma_after_line_len, lemma_line_of_concat, lemma_line_split,
    line_text, CR, LF,
};
use vstd::prelude::*;

verus! {

/// `tail` is the end of `s`: what is left of `s` once some of its first
/// bytes are taken away.
pub open spec fn is_suffix(tail: Seq<u8>, s: Seq<u8>) -> bool {
    tail.len() <= s.len() && tail == s.skip(s.len() - tail.len())
}

/// The end of the end of a sequence is an end of the sequence.
proof fn lemma_suffix_transitive(a: Seq<u8>, b: Seq<u8>, c: Seq<u8>)
    requires
        is_suffix(a, b),
        is_suffix(b, c),
    ensures
        is_suffix(a, c),
{
    assert(c.skip(c.len() - b.len()).skip(b.len() - a.len()) =~= c.skip(c.len() - a.len()));
}

/// What follows the first line is the end of the input.
proof fn lemma_after_line_is_suffix(s: Seq<u8>)
    ensures
        is_suffix(after_line(s), s),
{
    lemma_after_line_len(s);
    if has_terminator(s) {
        lemma_line_split(s);
    } else {
        assert(after_line(s) =~= s.skip(s.len() as int));
    }
}

/// Decoding reads from the front: the bytes that it leaves unread are the
/// end of the bytes that it was given.
pub proof fn lemma_decode_rest_is_suffix(s: Seq<u8>)
    ensures
        is_suffix(decode_spec(s).rest, s),
    decreases s.len(), 0nat,
{
    if s.len() == 0 {
        assert(s =~= s.skip(0));
    } else {
        let body = s.skip(1);
        let rest = after_line(body);
        lemma_after_line_is_suffix(body);
        assert(is_suffix(body, s));
        lemma_suffix_transitive(rest, body, s);
        if s[0] == TAG_BULK_STRING {
            match length_of_line(body) {
                Ok(len) => {
                    let payload = decode_payload(rest, len as nat);
                    if rest.len() < len + 2 {
                        assert(payload.rest =~= rest.skip(rest.len() as int));
                    }
                    assert(is_suffix(payload.rest, rest));
                    lemma_suffix_transitive(payload.rest, rest, s);
                },
                Err(_) => {},
            }
        } else if s[0] == TAG_ARRAY {
            match length_of_line(body) {
                Ok(count) => {
                    lemma_decode_items_rest_is_suffix(rest, count as nat);
                    lemma_suffix_transitive(decode_items(rest, count as nat).rest, rest, s);
                },
                Err(_) => {},
            }
        }
    }
}

/// Decoding a run of frames reads from the front as well.
pub proof fn lemma_decode_items_rest_is_suffix(s: Seq<u8>, count: nat)
    ensures
        is_suffix(decode_items(s, count).rest, s),
    decreases s.len(), count + 1,
{
    if count == 0 {
        assert(s =~= s.skip(0));
    } else {
        lemma_decode_items_step(s, count);
        lemma_decode_rest(s);
        lemma_decode_rest_is_suffix(s);
        let first = decode_spec(s);
        if first.result is Ok {
            lemma_decode_items_rest_is_suffix(first.rest, (count - 1) as nat);
            lemma_suffix_transitive(
                decode_items(first.rest, (count - 1) as nat).rest,
                first.rest,
                s,
            );
        }
    }
}

/// The bytes of `s` that decoding one frame takes: all of `s` but what is
/// left unread.
pub open spec fn frame_bytes(s: Seq<u8>) -> Seq<u8> {
    s.take(s.len() - decode_spec(s).rest.len())
}

/// The bytes of `s` that decoding `count` frames takes.
pub open spec fn items_bytes(s: Seq<u8>, count: nat) -> Seq<u8> {
    s.take(s.len() - decode_items(s, count).rest.len())
}

/// The first line of `s` with its terminator decodes alike whatever follows
/// it.
proof fn lemma_line_then(s: Seq<u8>, tail: Seq<u8>)
    requires
        has_terminator(s),
    ensures
        s.take(s.len() - after_line(s).len()) == line_text(s) + seq![CR, LF],
        has_terminator(line_text(s) + seq![CR, LF] + tail),
        line_text(line_text(s) + seq![CR, LF] + tail) == line_text(s),
        after_line(line_text(s) + seq![CR, LF] + tail) == tail,
{
    lemma_line_split(s);
    lemma_line_of_concat(line_text(s), tail);
    assert(s.take(s.len() - after_line(s).len()) =~= line_text(s) + seq![CR, LF]);
}

/// A frame delimits itself: where a frame is decoded from the front of `s`,
/// the bytes that were read for it decode to the same frame whatever
/// follows them, and what follows them is left unread.
pub proof fn lemma_frame_delimits_itself(s: Seq<u8>, tail: Seq<u8>)
    requires
        decode_spec(s).result is Ok,
    ensures
        decode_spec(frame_bytes(s) + tail) == (Decoded {
            result: decode_spec(s).result,
            rest: tail,
        }),
    decreases s.len(), 0nat,
{
    let body = s.skip(1);
    let rest = after_line(body);
    let line = line_text(body);
    let frame = frame_bytes(s);
    let moved = frame + tail;
    lemma_decode_rest(s);
    lemma_decode_rest_is_suffix(s);
    lemma_after_line_len(body);
    assert(has_terminator(body)) by {
        if !has_terminator(body) {
            assert(text_of_line(body) is Err);
            assert(integer_of_line(body) is Err);
            assert(length_of_line(body) is Err);
        }
    }
    assert(moved[0] == s[0]);
    if s[0] == TAG_BULK_STRING {
        let len = length_of_line(body)->Ok_0;
        let data = rest.take(len as int + 2);
        lemma_line_then(body, data + tail);
        assert(decode_spec(s).rest == rest.skip(len as int + 2));
        assert(frame =~= seq![s[0]] + line + seq![CR, LF] + data) by {
            lemma_line_split(body);
            assert(s =~= seq![s[0]] + body);
        }
        assert(moved.skip(1) =~= line + seq![CR, LF] + (data + tail));
        assert((data + tail).take(len as int) =~= rest.take(len as int));
        assert((data + tail).skip(len as int + 2) =~= tail);
    } else if s[0] == TAG_ARRAY {
        let count = length_of_line(body)->Ok_0;
        let items = items_bytes(rest, count as nat);
        lemma_decode_items_rest_is_suffix(rest, count as nat);
        lemma_line_then(body, items + tail);
        assert(decode_spec(s).rest == decode_items(rest, count as nat).rest);
        assert(frame =~= seq![s[0]] + line + seq![CR, LF] + items) by {
            lemma_line_split(body);
            assert(s =~= seq![s[0]] + body);
        }
        assert(moved.skip(1) =~= line + seq![CR, LF] + (items + tail));
        lemma_items_delimit_themselves(rest, count as nat, tail);
    } else {
        lemma_line_then(body, tail);
        assert(moved.skip(1) =~= line + seq![CR, LF] + tail);
    }
}

/// A run of frames delimits itself in the same way.
pub proof fn lemma_items_delimit_themselves(s: Seq<u8>, count: nat, tail: Seq<u8>)
    requires
        decode_items(s, count).result is Ok,
    ensures
        decode_items(items_bytes(s, count) + tail, count) == (Decoded {
            result: decode_items(s, count).result,
            rest: tail,
        }),
    decreases s.len(), count + 1,
{
    if count == 0 {
        assert(items_bytes(s, count) + tail =~= tail);
    } else {
        let first = decode_spec(s);
        let others = decode_items(first.rest, (count - 1) as nat);
        lemma_decode_items_step(s, count);
        lemma_decode_rest(s);
        lemma_decode_rest_is_suffix(s);
        lemma_decode_items_rest_is_suffix(first.rest, (count - 1) as nat);
        let moved = items_bytes(s, count) + tail;
        let next = items_bytes(first.rest, (count - 1) as nat) + tail;
        assert(moved =~= frame_bytes(s) + next);
        lemma_frame_delimits_itself(s, next);
        lemma_items_delimit_themselves(first.rest, (count - 1) as nat, tail);
        lemma_decode_items_step(moved, count);
    }
}

} // verus!
