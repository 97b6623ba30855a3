//! The building blocks of the wire format: fixed-width little-endian
//! integers and length-prefixed byte strings.
//!
//! Each block has an encoding, a spec function from a value to bytes, and a
//! reader, a spec function that takes one value off the front of a byte
//! sequence and gives the rest. The lemmas say that every reader is the
//! inverse of its encoding; the executable readers and writers are proved
//! against the spec functions.

use crate::trusted::{bcs_to_bytes, string_from_utf8};
use vstd::bytes::{
    lemma_auto_spec_u64_to_from_le_bytes, spec_u64_from_le_bytes, spec_u64_to_le_bytes,
    u64_from_le_bytes, u64_to_le_bytes,
};
use vstd::prelude::*;
use vstd::slice::{slice_subrange, slice_to_vec};
use vstd::utf8::{
    decode_utf8, decode_utf8_encode_utf8, encode_utf8, encode_utf8_decode_utf8,
    encode_utf8_valid_utf8, valid_utf8,
};

verus! {

/// The longest byte string that a length-prefixed field can hold.
pub const MAX_FIELD_LEN: usize = 2147483647;

/// The ULEB128 encoding of a number: seven bits to a byte, lowest first,
/// each byte but the last with its top bit set.
pub open spec fn uleb128(n: nat) -> Seq<u8>
    decreases n,
{
    if n < 128 {
        seq![n as u8]
    } else {
        seq![(128 + n % 128) as u8] + uleb128(n / 128)
    }
}

/// A byte string behind its length.
pub open spec fn frame(data: Seq<u8>) -> Seq<u8> {
    uleb128(data.len()) + data
}

/// A string, as the frame of its UTF-8 bytes.
pub open spec fn text(chars: Seq<char>) -> Seq<u8> {
    frame(encode_utf8(chars))
}

/// A `u64`, as eight bytes, lowest first.
pub open spec fn le64(x: u64) -> Seq<u8> {
    spec_u64_to_le_bytes(x)
}

/// The bytes from `pos` on.
pub open spec fn tail(bytes: Seq<u8>, pos: int) -> Seq<u8> {
    bytes.subrange(pos, bytes.len() as int)
}

/// 128 to the power of `digits`.
pub open spec fn span(digits: nat) -> nat
    decreases digits,
{
    if digits == 0 {
        1
    } else {
        128 * span((digits - 1) as nat)
    }
}

/// Reads a ULEB128 number of at most `digits` bytes off the front. An
/// encoding that ends in a zero byte after another byte is not minimal and
/// is refused.
pub open spec fn take_digits(s: Seq<u8>, digits: nat) -> Option<(nat, Seq<u8>)>
    decreases digits,
{
    if digits == 0 || s.len() == 0 {
        None
    } else if s[0] < 128 {
        Some((s[0] as nat, s.drop_first()))
    } else {
        match take_digits(s.drop_first(), (digits - 1) as nat) {
            Some((high, rest)) => if high > 0 {
                Some(((128 * high + (s[0] - 128)) as nat, rest))
            } else {
                None
            },
            None => None,
        }
    }
}

/// Reads a length off the front: a ULEB128 number up to [`MAX_FIELD_LEN`].
pub open spec fn take_len(s: Seq<u8>) -> Option<(nat, Seq<u8>)> {
    match take_digits(s, 5) {
        Some((n, rest)) => if n <= MAX_FIELD_LEN {
            Some((n, rest))
        } else {
            None
        },
        None => None,
    }
}

/// Reads a frame off the front.
pub open spec fn take_frame(s: Seq<u8>) -> Option<(Seq<u8>, Seq<u8>)> {
    match take_len(s) {
        Some((n, rest)) => if n <= rest.len() {
            Some((rest.take(n as int), rest.skip(n as int)))
        } else {
            None
        },
        None => None,
    }
}

/// Reads a string off the front.
pub open spec fn take_text(s: Seq<u8>) -> Option<(Seq<char>, Seq<u8>)> {
    match take_frame(s) {
        Some((data, rest)) => if valid_utf8(data) {
            Some((decode_utf8(data), rest))
        } else {
            None
        },
        None => None,
    }
}

/// Reads a `u64` off the front.
pub open spec fn take_u64(s: Seq<u8>) -> Option<(u64, Seq<u8>)> {
    if s.len() >= 8 {
        Some((spec_u64_from_le_bytes(s.take(8)), s.skip(8)))
    } else {
        None
    }
}

pub proof fn lemma_span_values()
    ensures
        span(0) == 1,
        span(1) == 128,
        span(2) == 16384,
        span(3) == 2097152,
        span(4) == 268435456,
        span(5) == 34359738368,
{
    reveal_with_fuel(span, 6);
}

/// Reading a number back: `take_digits` undoes `uleb128`.
pub proof fn lemma_take_digits_of_uleb128(n: nat, rest: Seq<u8>, digits: nat)
    requires
        digits >= 1,
        n < span(digits),
    ensures
        take_digits(uleb128(n) + rest, digits) == Some((n, rest)),
    decreases digits,
{
    let s = uleb128(n) + rest;
    if n < 128 {
        assert(s[0] == n as u8);
        assert(s.drop_first() == rest);
    } else {
        assert(digits >= 2) by {
            if digits == 1 {
                reveal_with_fuel(span, 2);
            }
        }
        let high = n / 128;
        assert(s[0] == (128 + n % 128) as u8);
        assert(s.drop_first() == uleb128(high) + rest);
        assert(high < span((digits - 1) as nat));
        lemma_take_digits_of_uleb128(high, rest, (digits - 1) as nat);
        assert(128 * high + (s[0] - 128) == n);
    }
}

/// What `take_digits` accepts is an encoding: the bytes that it took are
/// the ULEB128 form of the number that it gives.
pub proof fn lemma_take_digits_sound(s: Seq<u8>, digits: nat)
    requires
        take_digits(s, digits) is Some,
    ensures
        ({
            let (n, rest) = take_digits(s, digits)->0;
            s == uleb128(n) + rest && n < span(digits) && rest.len() < s.len()
        }),
    decreases digits,
{
    let (n, rest) = take_digits(s, digits)->0;
    if s[0] < 128 {
        assert(s == seq![s[0]] + s.drop_first());
        assert(span(digits) >= 128) by {
            reveal_with_fuel(span, 2);
            lemma_span_grows((digits - 1) as nat);
        }
    } else {
        let inner = take_digits(s.drop_first(), (digits - 1) as nat);
        let (high, _) = inner->0;
        lemma_take_digits_sound(s.drop_first(), (digits - 1) as nat);
        assert(n == 128 * high + (s[0] - 128));
        assert(n / 128 == high);
        assert(n % 128 == s[0] - 128);
        assert(uleb128(n) == seq![s[0]] + uleb128(high));
        assert(s == seq![s[0]] + s.drop_first());
        assert(s == uleb128(n) + rest);
    }
}

pub proof fn lemma_span_grows(digits: nat)
    ensures
        span(digits) >= 1,
    decreases digits,
{
    if digits > 0 {
        lemma_span_grows((digits - 1) as nat);
    }
}

pub proof fn lemma_span_monotonic(a: nat, b: nat)
    requires
        a <= b,
    ensures
        span(a) <= span(b),
    decreases b,
{
    if a < b {
        lemma_span_monotonic(a, (b - 1) as nat);
    }
}

pub proof fn lemma_take_len_of_uleb128(n: nat, rest: Seq<u8>)
    requires
        n <= MAX_FIELD_LEN,
    ensures
        take_len(uleb128(n) + rest) == Some((n, rest)),
{
    lemma_span_values();
    lemma_take_digits_of_uleb128(n, rest, 5);
}

pub proof fn lemma_take_len_sound(s: Seq<u8>)
    requires
        take_len(s) is Some,
    ensures
        ({
            let (n, rest) = take_len(s)->0;
            s == uleb128(n) + rest && n <= MAX_FIELD_LEN && rest.len() < s.len()
        }),
{
    lemma_take_digits_sound(s, 5);
}

/// Reading a frame back.
pub proof fn lemma_take_frame_of_frame(data: Seq<u8>, rest: Seq<u8>)
    requires
        data.len() <= MAX_FIELD_LEN,
    ensures
        take_frame(frame(data) + rest) == Some((data, rest)),
{
    lemma_take_len_of_uleb128(data.len(), data + rest);
    assert(frame(data) + rest == uleb128(data.len()) + (data + rest));
    assert((data + rest).take(data.len() as int) == data);
    assert((data + rest).skip(data.len() as int) == rest);
}

pub proof fn lemma_take_frame_sound(s: Seq<u8>)
    requires
        take_frame(s) is Some,
    ensures
        ({
            let (data, rest) = take_frame(s)->0;
            s == frame(data) + rest && data.len() <= MAX_FIELD_LEN && rest.len() < s.len()
        }),
{
    lemma_take_len_sound(s);
    let (n, after) = take_len(s)->0;
    let (data, rest) = take_frame(s)->0;
    assert(after == data + rest);
    assert(s == uleb128(n) + (data + rest));
    assert(s == frame(data) + rest);
}

/// Reading a string back.
pub proof fn lemma_take_text_of_text(chars: Seq<char>, rest: Seq<u8>)
    requires
        encode_utf8(chars).len() <= MAX_FIELD_LEN,
    ensures
        take_text(text(chars) + rest) == Some((chars, rest)),
{
    lemma_take_frame_of_frame(encode_utf8(chars), rest);
    encode_utf8_valid_utf8(chars);
    encode_utf8_decode_utf8(chars);
}

pub proof fn lemma_take_text_sound(s: Seq<u8>)
    requires
        take_text(s) is Some,
    ensures
        ({
            let (chars, rest) = take_text(s)->0;
            s == text(chars) + rest && encode_utf8(chars).len() <= MAX_FIELD_LEN && rest.len()
                < s.len()
        }),
{
    lemma_take_frame_sound(s);
    let (data, _) = take_frame(s)->0;
    decode_utf8_encode_utf8(data);
}

/// Reading a `u64` back.
pub proof fn lemma_take_u64_of_le64(x: u64, rest: Seq<u8>)
    ensures
        take_u64(le64(x) + rest) == Some((x, rest)),
{
    lemma_auto_spec_u64_to_from_le_bytes();
    let s = le64(x) + rest;
    assert(s.take(8) == le64(x));
    assert(s.skip(8) == rest);
}

pub proof fn lemma_take_u64_sound(s: Seq<u8>)
    requires
        take_u64(s) is Some,
    ensures
        ({
            let (x, rest) = take_u64(s)->0;
            s == le64(x) + rest && rest.len() < s.len()
        }),
{
    lemma_auto_spec_u64_to_from_le_bytes();
    assert(s.take(8).len() == 8);
    assert(s == s.take(8) + s.skip(8));
}

/// A field of a command that the wire format cannot hold.
#[derive(Clone, Copy, Debug, PartialEq, Eq, Structural)]
pub enum EncodingError {
    /// A string or an address of `length` bytes, more than [`MAX_FIELD_LEN`].
    FieldTooLong { length: usize },
}

/// Reads a `u64` at `pos`; gives it with the position behind it.
pub fn read_u64(bytes: &[u8], pos: usize) -> (r: Option<(u64, usize)>)
    ensures
        pos > bytes@.len() ==> r is None,
        pos <= bytes@.len() ==> match take_u64(tail(bytes@, pos as int)) {
            Some((x, rest)) => r matches Some((v, next)) && v == x && pos <= next <= bytes@.len()
                && tail(bytes@, next as int) == rest,
            None => r is None,
        },
{
    if pos > bytes.len() || bytes.len() - pos < 8 {
        return None;
    }
    let chunk = slice_subrange(bytes, pos, pos + 8);
    let v = u64_from_le_bytes(chunk);
    proof {
        let t = tail(bytes@, pos as int);
        assert(t.take(8) == chunk@);
        assert(t.skip(8) == tail(bytes@, pos + 8));
    }
    Some((v, pos + 8))
}

fn read_digits(bytes: &[u8], pos: usize, digits: usize) -> (r: Option<(u64, usize)>)
    requires
        pos <= bytes@.len(),
        digits <= 5,
    ensures
        match take_digits(tail(bytes@, pos as int), digits as nat) {
            Some((n, rest)) => r matches Some((v, next)) && v == n && n < span(digits as nat) && pos
                <= next <= bytes@.len() && tail(bytes@, next as int) == rest,
            None => r is None,
        },
    decreases digits,
{
    if digits == 0 || pos >= bytes.len() {
        return None;
    }
    let first = bytes[pos];
    proof {
        let t = tail(bytes@, pos as int);
        assert(t[0] == first);
        assert(t.drop_first() == tail(bytes@, pos + 1));
        lemma_span_values();
        if take_digits(t, digits as nat) is Some {
            lemma_take_digits_sound(t, digits as nat);
        }
    }
    if first < 128 {
        return Some((first as u64, pos + 1));
    }
    match read_digits(bytes, pos + 1, digits - 1) {
        Some((high, next)) => {
            if high > 0 {
                assert(high < 268435456) by {
                    lemma_span_values();
                    lemma_span_monotonic((digits - 1) as nat, 4);
                }
                Some((128 * high + (first - 128) as u64, next))
            } else {
                None
            }
        },
        None => None,
    }
}

/// Reads a length at `pos`.
pub fn read_len(bytes: &[u8], pos: usize) -> (r: Option<(usize, usize)>)
    ensures
        pos > bytes@.len() ==> r is None,
        pos <= bytes@.len() ==> match take_len(tail(bytes@, pos as int)) {
            Some((n, rest)) => r matches Some((v, next)) && v == n && pos <= next <= bytes@.len()
                && tail(bytes@, next as int) == rest,
            None => r is None,
        },
{
    if pos > bytes.len() {
        return None;
    }
    match read_digits(bytes, pos, 5) {
        Some((n, next)) => {
            if n <= MAX_FIELD_LEN as u64 {
                Some((n as usize, next))
            } else {
                None
            }
        },
        None => None,
    }
}

/// Reads a frame at `pos`: its bytes, copied out.
pub fn read_frame(bytes: &[u8], pos: usize) -> (r: Option<(Vec<u8>, usize)>)
    ensures
        pos > bytes@.len() ==> r is None,
        pos <= bytes@.len() ==> match take_frame(tail(bytes@, pos as int)) {
            Some((data, rest)) => r matches Some((v, next)) && v@ == data && pos <= next
                <= bytes@.len() && tail(bytes@, next as int) == rest,
            None => r is None,
        },
{
    match read_len(bytes, pos) {
        Some((n, after)) => {
            if n > bytes.len() - after {
                return None;
            }
            let data = slice_to_vec(slice_subrange(bytes, after, after + n));
            proof {
                let t = tail(bytes@, after as int);
                assert(t.take(n as int) == data@);
                assert(t.skip(n as int) == tail(bytes@, after + n));
            }
            Some((data, after + n))
        },
        None => None,
    }
}

/// Reads a string at `pos`.
pub fn read_text(bytes: &[u8], pos: usize) -> (r: Option<(String, usize)>)
    ensures
        pos > bytes@.len() ==> r is None,
        pos <= bytes@.len() ==> match take_text(tail(bytes@, pos as int)) {
            Some((chars, rest)) => r matches Some((v, next)) && v@ == chars && pos <= next
                <= bytes@.len() && tail(bytes@, next as int) == rest,
            None => r is None,
        },
{
    match read_frame(bytes, pos) {
        Some((data, next)) => {
            let ghost raw = data@;
            match string_from_utf8(data) {
                Ok(s) => {
                    proof {
                        encode_utf8_decode_utf8(s@);
                    }
                    Some((s, next))
                },
                Err(_) => None,
            }
        },
        None => None,
    }
}

/// Appends a `u64`.
pub fn put_u64(out: &mut Vec<u8>, x: u64)
    ensures
        final(out)@ == old(out)@ + le64(x),
{
    let mut chunk = u64_to_le_bytes(x);
    out.append(&mut chunk);
}

/// Appends the frame of `data`, or leaves `out` as it is where `data` is
/// too long.
pub fn put_frame(out: &mut Vec<u8>, data: &[u8]) -> (r: Result<(), EncodingError>)
    ensures
        r is Ok <==> data@.len() <= MAX_FIELD_LEN,
        r is Ok ==> final(out)@ == old(out)@ + frame(data@),
        r matches Err(e) ==> e->length == data@.len() && final(out)@ == old(out)@,
{
    match bcs_to_bytes(data) {
        Ok(chunk) => {
            let mut chunk = chunk;
            out.append(&mut chunk);
            Ok(())
        },
        Err(_) => Err(EncodingError::FieldTooLong { length: data.len() }),
    }
}

/// Appends a string as the frame of its UTF-8 bytes.
pub fn put_text(out: &mut Vec<u8>, value: &String) -> (r: Result<(), EncodingError>)
    ensures
        r is Ok <==> encode_utf8(value@).len() <= MAX_FIELD_LEN,
        r is Ok ==> final(out)@ == old(out)@ + text(value@),
        r matches Err(e) ==> e->length == encode_utf8(value@).len() && final(out)@ == old(out)@,
{
    put_frame(out, value.as_str().as_bytes())
}

} // verus!
