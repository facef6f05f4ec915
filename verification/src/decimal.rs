//! Decimal numbers as they appear in frame headers: ASCII digits with an
//! optional sign, read and written most significant digit first.
use vstd::prelude::*;

verus! {

/// ASCII `+`.
pub const PLUS: u8 = 0x2b;

/// ASCII `-`.
pub const MINUS: u8 = 0x2d;

/// ASCII `0`.
pub const ZERO: u8 = 0x30;

/// The byte `b` is one of the ASCII digits `0` to `9`.
pub open spec fn is_digit(b: u8) -> bool {
    0x30 <= b <= 0x39
}

/// Every byte of `s` is an ASCII digit.
pub open spec fn all_digits(s: Seq<u8>) -> bool {
    forall|i: int| 0 <= i < s.len() ==> is_digit(#[trigger] s[i])
}

/// The number that the digit string `s` denotes in base ten. Leading zeros
/// are allowed and the empty string denotes zero.
pub open spec fn digits_value(s: Seq<u8>) -> nat
    decreases s.len(),
{
    if s.len() == 0 {
        0
    } else {
        digits_value(s.drop_last()) * 10 + (s.last() - 0x30) as nat
    }
}

/// The shortest digit string that denotes `n`: no leading zero, except for
/// zero itself, which is written `0`.
pub open spec fn decimal_digits(n: nat) -> Seq<u8>
    decreases n,
{
    if n < 10 {
        seq![(0x30 + n) as u8]
    } else {
        decimal_digits(n / 10).push((0x30 + n % 10) as u8)
    }
}

/// The value of a non-empty digit string that does not exceed `limit`.
spec fn bounded_digits(s: Seq<u8>, limit: u64) -> Option<u64> {
    if s.len() > 0 && all_digits(s) && digits_value(s) <= limit {
        Some(digits_value(s) as u64)
    } else {
        None
    }
}

/// The value of an unsigned decimal: an optional `+`, then one or more
/// digits. Anything else has no value.
pub open spec fn unsigned_value(s: Seq<u8>) -> Option<nat> {
    let digits = if s.len() > 0 && s[0] == PLUS {
        s.skip(1)
    } else {
        s
    };
    if digits.len() > 0 && all_digits(digits) {
        Some(digits_value(digits))
    } else {
        None
    }
}

/// The value of a signed decimal: an optional `+` or `-`, then one or more
/// digits. Anything else has no value.
pub open spec fn signed_value(s: Seq<u8>) -> Option<int> {
    if s.len() > 0 && s[0] == MINUS {
        let digits = s.skip(1);
        if digits.len() > 0 && all_digits(digits) {
            Some(-(digits_value(digits) as int))
        } else {
            None
        }
    } else {
        match unsigned_value(s) {
            Some(n) => Some(n as int),
            None => None,
        }
    }
}

/// A length or count header: an unsigned decimal that fits in `usize`.
pub open spec fn parse_length_spec(s: Seq<u8>) -> Option<usize> {
    match unsigned_value(s) {
        Some(n) => if n <= usize::MAX {
            Some(n as usize)
        } else {
            None
        },
        None => None,
    }
}

/// An integer frame's text: a signed decimal that fits in `i64`.
pub open spec fn parse_integer_spec(s: Seq<u8>) -> Option<i64> {
    match signed_value(s) {
        Some(v) => if i64::MIN <= v <= i64::MAX {
            Some(v as i64)
        } else {
            None
        },
        None => None,
    }
}

/// Appending one digit multiplies the value by ten and adds the digit.
pub proof fn lemma_digits_value_push(s: Seq<u8>, d: u8)
    requires
        is_digit(d),
    ensures
        digits_value(s.push(d)) == digits_value(s) * 10 + (d - 0x30),
{
    assert(s.push(d).drop_last() =~= s);
}

/// A prefix of a digit string never denotes more than the whole string.
pub proof fn lemma_digits_value_prefix(s: Seq<u8>, k: int)
    requires
        all_digits(s),
        0 <= k <= s.len(),
    ensures
        digits_value(s.take(k)) <= digits_value(s),
    decreases s.len(),
{
    if k == s.len() {
        assert(s.take(k) =~= s);
    } else {
        assert(is_digit(s.last()));
        lemma_digits_value_prefix(s.drop_last(), k);
        assert(s.drop_last().take(k) =~= s.take(k));
    }
}

/// Writing a number and reading the digits back gives the number: the
/// written form is a non-empty digit string whose value is `n`.
pub proof fn lemma_decimal_digits_value(n: nat)
    ensures
        decimal_digits(n).len() > 0,
        all_digits(decimal_digits(n)),
        digits_value(decimal_digits(n)) == n,
        unsigned_value(decimal_digits(n)) == Some(n),
    decreases n,
{
    if n < 10 {
        let s = decimal_digits(n);
        assert(s.drop_last() =~= Seq::<u8>::empty());
        assert(digits_value(s.drop_last()) == 0);
    } else {
        lemma_decimal_digits_value(n / 10);
        let d = (0x30 + n % 10) as u8;
        lemma_digits_value_push(decimal_digits(n / 10), d);
    }
}

/// Reads the digits of `bytes` from index `start` to the end and returns
/// their value, provided there is at least one digit, nothing but digits,
/// and the value does not exceed `limit`.
fn digits_within(bytes: &[u8], start: usize, limit: u64) -> (r: Option<u64>)
    requires
        start <= bytes@.len(),
        limit >= 9,
    ensures
        r == bounded_digits(bytes@.skip(start as int), limit),
{
    let ghost s = bytes@.skip(start as int);
    if start == bytes.len() {
        return None;
    }
    let mut acc: u64 = 0;
    let mut i: usize = start;
    while i < bytes.len()
        invariant
            start <= i <= bytes@.len(),
            limit >= 9,
            s == bytes@.skip(start as int),
            all_digits(s.take(i - start)),
            acc == digits_value(s.take(i - start)),
            acc <= limit,
        decreases bytes@.len() - i,
    {
        let b = bytes[i];
        if b < 0x30 || b > 0x39 {
            assert(!is_digit(s[i - start]));
            return None;
        }
        let d: u64 = (b - 0x30) as u64;
        proof {
            assert(s.take(i + 1 - start) =~= s.take(i - start).push(b));
            lemma_digits_value_push(s.take(i - start), b);
        }
        if acc > (limit - d) / 10 {
            proof {
                if all_digits(s) {
                    lemma_digits_value_prefix(s, i + 1 - start);
                }
            }
            return None;
        }
        acc = acc * 10 + d;
        i = i + 1;
    }
    assert(s.take(i - start) =~= s);
    Some(acc)
}

/// Parses a length or count header.
///
/// Returns the number when `bytes` is an optional `+` followed by one or
/// more digits whose value fits in `usize`, and `None` for everything
/// else: an empty text, a `-`, any other byte, or a value too large.
pub fn parse_length(bytes: &[u8]) -> (r: Option<usize>)
    ensures
        r == parse_length_spec(bytes@),
{
    let start: usize = if bytes.len() > 0 && bytes[0] == PLUS {
        1
    } else {
        0
    };
    assert(bytes@.skip(0) =~= bytes@);
    match digits_within(bytes, start, usize::MAX as u64) {
        Some(v) => Some(v as usize),
        None => None,
    }
}

/// Parses the text of an integer frame.
///
/// Returns the number when `bytes` is an optional `+` or `-` followed by
/// one or more digits whose signed value fits in `i64`, and `None` for
/// everything else.
pub fn parse_integer(bytes: &[u8]) -> (r: Option<i64>)
    ensures
        r == parse_integer_spec(bytes@),
{
    assert(bytes@.skip(0) =~= bytes@);
    if bytes.len() > 0 && bytes[0] == MINUS {
        match digits_within(bytes, 1, 0x8000_0000_0000_0000) {
            Some(v) => if v == 0x8000_0000_0000_0000 {
                Some(i64::MIN)
            } else {
                Some(-(v as i64))
            },
            None => None,
        }
    } else {
        let start: usize = if bytes.len() > 0 && bytes[0] == PLUS {
            1
        } else {
            0
        };
        match digits_within(bytes, start, 0x7fff_ffff_ffff_ffff) {
            Some(v) => Some(v as i64),
            None => None,
        }
    }
}

/// Appends the decimal form of `n` to `out`.
pub fn push_decimal(out: &mut Vec<u8>, n: usize)
    ensures
        final(out)@ == old(out)@ + decimal_digits(n as nat),
    decreases n,
{
    if n >= 10 {
        push_decimal(out, n / 10);
    }
    let d: u8 = (n % 10) as u8;
    out.push(ZERO + d);
    assert(out@ =~= old(out)@ + decimal_digits(n as nat));
}

} // verus!
