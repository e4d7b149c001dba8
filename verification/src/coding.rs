//! The wire coding: QUIC variable-length integers, length-prefixed bytes and
//! strings, and the offset priority byte. Reading goes through a
//! `bytes::Bytes` buffer, writing appends to a `Vec<u8>`.
use vstd::prelude::*;
use vstd::utf8::{decode_utf8, encode_utf8, valid_utf8};

use bytes::{Buf, BufMut, Bytes};
use std::string::FromUtf8Error;

verus! {

broadcast use vstd::utf8::group_utf8_lib;

#[verifier::external_type_specification]
#[verifier::external_body]
pub struct ExBytes(Bytes);

#[verifier::external_type_specification]
#[verifier::external_body]
pub struct ExFromUtf8Error(FromUtf8Error);

/// The bytes that a buffer still holds, from its read position on.
pub uninterp spec fn buf_content(b: Bytes) -> Seq<u8>;

/// `Bytes::from(Vec<u8>)`: a buffer holding the vector's bytes.
#[verifier::external_body]
pub(crate) fn buf_from_vec(v: Vec<u8>) -> (b: Bytes)
    ensures
        buf_content(b) == v@,
{
    Bytes::from(v)
}

/// `Buf::remaining` on `Bytes`: how many bytes are left to read.
#[verifier::external_body]
pub(crate) fn buf_remaining(b: &Bytes) -> (n: usize)
    ensures
        n == buf_content(*b).len(),
{
    b.remaining()
}

/// `Buf::get_u8` on `Bytes`: take the first byte.
#[verifier::external_body]
fn buf_get_u8(b: &mut Bytes) -> (x: u8)
    requires
        buf_content(*old(b)).len() > 0,
    ensures
        x == buf_content(*old(b))[0],
        buf_content(*final(b)) == buf_content(*old(b)).drop_first(),
{
    b.get_u8()
}

/// `Buf::copy_to_bytes` on `Bytes`: split off the first `len` bytes.
#[verifier::external_body]
fn buf_copy_to_bytes(b: &mut Bytes, len: usize) -> (r: Bytes)
    requires
        len <= buf_content(*old(b)).len(),
    ensures
        buf_content(r) == buf_content(*old(b)).take(len as int),
        buf_content(*final(b)) == buf_content(*old(b)).skip(len as int),
{
    b.copy_to_bytes(len)
}

/// `Bytes::clone`: another handle on the same bytes.
#[verifier::external_body]
pub(crate) fn buf_clone(b: &Bytes) -> (r: Bytes)
    ensures
        buf_content(r) == buf_content(*b),
{
    b.clone()
}

/// `<[u8]>::to_vec` on the bytes of a `Bytes`: a copy of them.
#[verifier::external_body]
pub(crate) fn buf_to_vec(b: &Bytes) -> (r: Vec<u8>)
    ensures
        r@ == buf_content(*b),
{
    b.to_vec()
}

/// `BufMut::put_u8` on `Vec<u8>`: append one byte.
#[verifier::external_body]
fn put_u8(w: &mut Vec<u8>, x: u8)
    ensures
        final(w)@ == old(w)@.push(x),
{
    w.put_u8(x)
}

/// `BufMut::put_slice` on `Vec<u8>`: append the bytes of a slice.
#[verifier::external_body]
fn put_slice(w: &mut Vec<u8>, s: &[u8])
    ensures
        final(w)@ == old(w)@ + s@,
{
    w.put_slice(s)
}

/// `String::from_utf8`: the string when the bytes are valid UTF-8.
#[verifier::external_body]
pub(crate) fn string_from_utf8(v: Vec<u8>) -> (r: Result<String, FromUtf8Error>)
    ensures
        r is Ok <==> valid_utf8(v@),
        r matches Ok(s) ==> s@ == decode_utf8(v@),
{
    String::from_utf8(v)
}

/// A decode error.
#[derive(Debug)]
pub enum DecodeError {
    Short,
    InvalidString(FromUtf8Error),
    InvalidMessage(u64),
    InvalidRole(u64),
    InvalidSubscribeLocation,
    InvalidValue,
    BoundsExceeded,
    ExpectedEnd,
    ExpectedData,
    DupliateParameter,
    MissingParameter,
    InvalidParameter,
}

/// Why a decode fails, as the specifications name it.
#[derive(PartialEq, Eq, Structural, Clone, Copy, Debug)]
pub enum Fail {
    Short,
    BoundsExceeded,
    InvalidString,
}

/// The error that a decode returns for a failure.
pub open spec fn fails_with(e: DecodeError, f: Fail) -> bool {
    match f {
        Fail::Short => e is Short,
        Fail::BoundsExceeded => e is BoundsExceeded,
        Fail::InvalidString => e is InvalidString,
    }
}

/// `a` is what is left of `b` after reading some bytes from its front.
pub open spec fn is_rest_of(a: Seq<u8>, b: Seq<u8>) -> bool {
    a.len() <= b.len() && a == b.skip(b.len() - a.len())
}

/// The outcome of a decode against what the specification says of the input:
/// on success the value and the bytes consumed, on failure the error.
pub open spec fn decoded<T, V>(
    r: Result<T, DecodeError>,
    view: spec_fn(T) -> V,
    spec: Result<(V, int), Fail>,
    before: Seq<u8>,
    after: Seq<u8>,
) -> bool {
    match r {
        Ok(v) => spec matches Ok((w, n)) && view(v) == w && after == before.skip(n),
        Err(e) => spec matches Err(f) && fails_with(e, f) && is_rest_of(after, before),
    }
}

// ---------------------------------------------------------------------------
// Variable-length integers (QUIC, RFC 9000 section 16).

/// The largest value a variable-length integer can hold.
pub open spec fn varint_max() -> u64 {
    0x3fff_ffff_ffff_ffff
}

/// The number of bytes a variable-length integer takes, given its first byte.
pub open spec fn varint_width(first: u8) -> int {
    if first < 0x40 {
        1
    } else if first < 0x80 {
        2
    } else if first < 0xc0 {
        4
    } else {
        8
    }
}

/// The value of a variable-length integer held in the front of `s`.
pub open spec fn varint_value(s: Seq<u8>) -> u64 {
    let w = varint_width(s[0]);
    let b0 = (s[0] & 0x3f) as u64;
    if w == 1 {
        b0
    } else if w == 2 {
        b0 << 8 | s[1] as u64
    } else if w == 4 {
        b0 << 24 | (s[1] as u64) << 16 | (s[2] as u64) << 8 | s[3] as u64
    } else {
        b0 << 56 | (s[1] as u64) << 48 | (s[2] as u64) << 40 | (s[3] as u64) << 32 | (s[4] as u64) << 24
            | (s[5] as u64) << 16 | (s[6] as u64) << 8 | s[7] as u64
    }
}

/// Reading a variable-length integer from the front of `s`.
pub open spec fn parse_varint(s: Seq<u8>) -> Result<(u64, int), Fail> {
    if s.len() == 0 || s.len() < varint_width(s[0]) {
        Err(Fail::Short)
    } else {
        Ok((varint_value(s), varint_width(s[0])))
    }
}

/// The shortest encoding of a variable-length integer.
pub open spec fn varint_bytes(x: u64) -> Seq<u8> {
    if x < 0x40 {
        seq![x as u8]
    } else if x < 0x4000 {
        seq![((x >> 8) as u8) | 0x40, x as u8]
    } else if x < 0x4000_0000 {
        seq![((x >> 24) as u8) | 0x80, (x >> 16) as u8, (x >> 8) as u8, x as u8]
    } else {
        seq![
            ((x >> 56) as u8) | 0xc0,
            (x >> 48) as u8,
            (x >> 40) as u8,
            (x >> 32) as u8,
            (x >> 24) as u8,
            (x >> 16) as u8,
            (x >> 8) as u8,
            x as u8,
        ]
    }
}

/// Reading back an encoded variable-length integer gives the value and
/// consumes exactly its encoding, whatever follows it.
pub proof fn lemma_varint_roundtrip(x: u64, rest: Seq<u8>)
    requires
        x <= varint_max(),
    ensures
        parse_varint(varint_bytes(x) + rest) == Ok::<(u64, int), Fail>((x, varint_bytes(x).len() as int)),
{
    let s = varint_bytes(x) + rest;
    if x < 0x40 {
        assert(s[0] == x as u8);
        assert((x as u8) < 0x40 && ((x as u8) & 0x3f) as u64 == x) by (bit_vector)
            requires
                x < 0x40,
        ;
    } else if x < 0x4000 {
        assert(s[0] == ((x >> 8) as u8) | 0x40 && s[1] == x as u8);
        assert({
            let b0 = ((x >> 8) as u8) | 0x40;
            &&& 0x40 <= b0 < 0x80
            &&& ((b0 & 0x3f) as u64) << 8 | (x as u8) as u64 == x
        }) by (bit_vector)
            requires
                0x40 <= x < 0x4000,
        ;
    } else if x < 0x4000_0000 {
        assert(s[0] == ((x >> 24) as u8) | 0x80 && s[1] == (x >> 16) as u8 && s[2] == (x >> 8) as u8 && s[3]
            == x as u8);
        assert({
            let b0 = ((x >> 24) as u8) | 0x80;
            &&& 0x80 <= b0 < 0xc0
            &&& ((b0 & 0x3f) as u64) << 24 | (((x >> 16) as u8) as u64) << 16 | (((x >> 8) as u8) as u64) << 8 | (
            x as u8) as u64 == x
        }) by (bit_vector)
            requires
                0x4000 <= x < 0x4000_0000,
        ;
    } else {
        assert(s[0] == ((x >> 56) as u8) | 0xc0 && s[1] == (x >> 48) as u8 && s[2] == (x >> 40) as u8 && s[3]
            == (x >> 32) as u8 && s[4] == (x >> 24) as u8 && s[5] == (x >> 16) as u8 && s[6] == (x >> 8) as u8
            && s[7] == x as u8);
        assert({
            let b0 = ((x >> 56) as u8) | 0xc0;
            &&& 0xc0 <= b0
            &&& ((b0 & 0x3f) as u64) << 56 | (((x >> 48) as u8) as u64) << 48 | (((x >> 40) as u8) as u64) << 40
                | (((x >> 32) as u8) as u64) << 32 | (((x >> 24) as u8) as u64) << 24 | (((x >> 16) as u8) as u64)
                << 16 | (((x >> 8) as u8) as u64) << 8 | (x as u8) as u64 == x
        }) by (bit_vector)
            requires
                0x4000_0000 <= x <= 0x3fff_ffff_ffff_ffff,
        ;
    }
}

/// Read a variable-length integer.
pub fn decode_varint(r: &mut Bytes) -> (res: Result<u64, DecodeError>)
    ensures
        decoded(res, |v: u64| v, parse_varint(buf_content(*old(r))), buf_content(*old(r)), buf_content(*final(r))),
{
    let ghost s = buf_content(*r);
    if buf_remaining(r) == 0 {
        assert(s.skip(0) =~= s);
        return Err(DecodeError::Short);
    }
    let b0 = buf_get_u8(r);
    let w: usize = if b0 < 0x40 {
        1
    } else if b0 < 0x80 {
        2
    } else if b0 < 0xc0 {
        4
    } else {
        8
    };
    if buf_remaining(r) < w - 1 {
        assert(s.drop_first() =~= s.skip(1));
        return Err(DecodeError::Short);
    }
    let hi = (b0 & 0x3f) as u64;
    let v = if w == 1 {
        hi
    } else if w == 2 {
        let b1 = buf_get_u8(r);
        hi << 8 | b1 as u64
    } else if w == 4 {
        let b1 = buf_get_u8(r);
        let b2 = buf_get_u8(r);
        let b3 = buf_get_u8(r);
        hi << 24 | (b1 as u64) << 16 | (b2 as u64) << 8 | b3 as u64
    } else {
        let b1 = buf_get_u8(r);
        let b2 = buf_get_u8(r);
        let b3 = buf_get_u8(r);
        let b4 = buf_get_u8(r);
        let b5 = buf_get_u8(r);
        let b6 = buf_get_u8(r);
        let b7 = buf_get_u8(r);
        hi << 56 | (b1 as u64) << 48 | (b2 as u64) << 40 | (b3 as u64) << 32 | (b4 as u64) << 24 | (b5 as u64)
            << 16 | (b6 as u64) << 8 | b7 as u64
    };
    assert(buf_content(*r) =~= s.skip(w as int));
    Ok(v)
}

/// The bytes of a variable-length integer, appended to `w`.
pub fn encode_varint(x: u64, w: &mut Vec<u8>)
    requires
        x <= varint_max(),
    ensures
        final(w)@ == old(w)@ + varint_bytes(x),
{
    if x < 0x40 {
        put_u8(w, x as u8);
    } else if x < 0x4000 {
        put_u8(w, ((x >> 8) as u8) | 0x40);
        put_u8(w, x as u8);
    } else if x < 0x4000_0000 {
        put_u8(w, ((x >> 24) as u8) | 0x80);
        put_u8(w, (x >> 16) as u8);
        put_u8(w, (x >> 8) as u8);
        put_u8(w, x as u8);
    } else {
        put_u8(w, ((x >> 56) as u8) | 0xc0);
        put_u8(w, (x >> 48) as u8);
        put_u8(w, (x >> 40) as u8);
        put_u8(w, (x >> 32) as u8);
        put_u8(w, (x >> 24) as u8);
        put_u8(w, (x >> 16) as u8);
        put_u8(w, (x >> 8) as u8);
        put_u8(w, x as u8);
    }
    assert(w@ =~= old(w)@ + varint_bytes(x));
}

// ---------------------------------------------------------------------------
// Bytes, the priority byte, and length-prefixed bytes and strings.

/// Reading one byte.
pub open spec fn parse_u8(s: Seq<u8>) -> Result<(u8, int), Fail> {
    if s.len() == 0 {
        Err(Fail::Short)
    } else {
        Ok((s[0], 1))
    }
}

/// Read one byte.
pub fn decode_u8(r: &mut Bytes) -> (res: Result<u8, DecodeError>)
    ensures
        decoded(res, |v: u8| v, parse_u8(buf_content(*old(r))), buf_content(*old(r)), buf_content(*final(r))),
{
    let ghost s = buf_content(*r);
    if buf_remaining(r) == 0 {
        assert(s.skip(0) =~= s);
        return Err(DecodeError::Short);
    }
    let b = buf_get_u8(r);
    assert(s.drop_first() =~= s.skip(1));
    Ok(b)
}

/// The priority a byte stands for: the byte less 128, so that the default
/// priority 0 is the byte 128.
pub open spec fn priority_of(b: u8) -> i8 {
    (b as int - 128) as i8
}

/// The byte that stands for a priority.
pub open spec fn priority_byte(p: i8) -> u8 {
    (p as int + 128) as u8
}

/// Reading a priority byte.
pub open spec fn parse_i8(s: Seq<u8>) -> Result<(i8, int), Fail> {
    if s.len() == 0 {
        Err(Fail::Short)
    } else {
        Ok((priority_of(s[0]), 1))
    }
}

/// Read a priority byte.
pub fn decode_i8(r: &mut Bytes) -> (res: Result<i8, DecodeError>)
    ensures
        decoded(res, |v: i8| v, parse_i8(buf_content(*old(r))), buf_content(*old(r)), buf_content(*final(r))),
{
    let ghost s = buf_content(*r);
    if buf_remaining(r) == 0 {
        assert(s.skip(0) =~= s);
        return Err(DecodeError::Short);
    }
    let b = buf_get_u8(r);
    assert(s.drop_first() =~= s.skip(1));
    Ok(((b as i16) - 128) as i8)
}

/// Write a priority byte.
pub fn encode_i8(p: i8, w: &mut Vec<u8>)
    ensures
        final(w)@ == old(w)@.push(priority_byte(p)),
{
    put_u8(w, ((p as i16) + 128) as u8);
}

/// Reading back a priority byte gives the priority.
pub proof fn lemma_i8_roundtrip(p: i8, rest: Seq<u8>)
    ensures
        parse_i8(seq![priority_byte(p)] + rest) == Ok::<(i8, int), Fail>((p, 1)),
{
    assert((seq![priority_byte(p)] + rest)[0] == priority_byte(p));
}

/// Reading a length, which must fit in a `usize`.
pub open spec fn parse_len(s: Seq<u8>) -> Result<(usize, int), Fail> {
    match parse_varint(s) {
        Ok((n, k)) => if n > usize::MAX {
            Err(Fail::BoundsExceeded)
        } else {
            Ok((n as usize, k))
        },
        Err(f) => Err(f),
    }
}

/// Read a length.
pub fn decode_len(r: &mut Bytes) -> (res: Result<usize, DecodeError>)
    ensures
        decoded(res, |v: usize| v, parse_len(buf_content(*old(r))), buf_content(*old(r)), buf_content(*final(r))),
{
    let v = decode_varint(r)?;
    if v > usize::MAX as u64 {
        return Err(DecodeError::BoundsExceeded);
    }
    Ok(v as usize)
}

/// Reading length-prefixed bytes.
pub open spec fn parse_byte_vec(s: Seq<u8>) -> Result<(Seq<u8>, int), Fail> {
    match parse_len(s) {
        Ok((n, k)) => if s.len() - k < n {
            Err(Fail::Short)
        } else {
            Ok((s.subrange(k, k + n), k + n))
        },
        Err(f) => Err(f),
    }
}

/// Read length-prefixed bytes, one byte at a time.
pub fn decode_byte_vec(r: &mut Bytes) -> (res: Result<Vec<u8>, DecodeError>)
    ensures
        decoded(res, |v: Vec<u8>| v@, parse_byte_vec(buf_content(*old(r))), buf_content(*old(r)), buf_content(*final(r))),
{
    let ghost s = buf_content(*r);
    let size = decode_len(r)?;
    let ghost k = s.len() - buf_content(*r).len();
    let ghost t = buf_content(*r);
    assert(parse_len(s) == Ok::<(usize, int), Fail>((size, k)));
    let mut v: Vec<u8> = Vec::new();
    let mut i: usize = 0;
    assert(t.take(0) =~= Seq::<u8>::empty());
    assert(t.skip(0) =~= t);
    while i < size
        invariant
            t == s.skip(k),
            0 <= k <= s.len(),
            parse_len(s) == Ok::<(usize, int), Fail>((size, k)),
            s == buf_content(*old(r)),
            i <= size,
            i <= t.len(),
            v@ == t.take(i as int),
            buf_content(*r) == t.skip(i as int),
        decreases size - i,
    {
        match decode_u8(r) {
            Ok(b) => {
                assert(t.take(i + 1) =~= t.take(i as int).push(b));
                assert(t.skip(i as int).skip(1) =~= t.skip(i + 1));
                v.push(b);
            },
            Err(e) => {
                assert(t.skip(i as int).len() == 0);
                assert(t.len() == i);
                assert(parse_len(s) == Ok::<(usize, int), Fail>((size, k)));
                assert(s.skip(s.len() - buf_content(*r).len()) =~= buf_content(*r));
                assert(e is Short);
                assert(s.len() - k < size);
                assert(parse_byte_vec(s) == Err::<(Seq<u8>, int), Fail>(Fail::Short));
                return Err(e);
            },
        }
        i = i + 1;
    }
    assert(v@ =~= s.subrange(k, k + size));
    assert(buf_content(*r) =~= s.skip(k + size));
    Ok(v)
}

/// Read length-prefixed bytes into a buffer of their own.
pub fn decode_bytes(r: &mut Bytes) -> (res: Result<Bytes, DecodeError>)
    ensures
        decoded(res, |v: Bytes| buf_content(v), parse_byte_vec(buf_content(*old(r))), buf_content(*old(r)), buf_content(*final(r))),
{
    let ghost s = buf_content(*r);
    let len = decode_len(r)?;
    if buf_remaining(r) < len {
        return Err(DecodeError::Short);
    }
    let ghost k = s.len() - buf_content(*r).len();
    let b = buf_copy_to_bytes(r, len);
    assert(buf_content(b) =~= s.subrange(k, k + len));
    assert(buf_content(*r) =~= s.skip(k + len));
    Ok(b)
}

/// Reading a length-prefixed UTF-8 string.
pub open spec fn parse_string(s: Seq<u8>) -> Result<(Seq<char>, int), Fail> {
    match parse_byte_vec(s) {
        Ok((b, n)) => if valid_utf8(b) {
            Ok((decode_utf8(b), n))
        } else {
            Err(Fail::InvalidString)
        },
        Err(f) => Err(f),
    }
}

/// Read a length-prefixed UTF-8 string.
pub fn decode_string(r: &mut Bytes) -> (res: Result<String, DecodeError>)
    ensures
        decoded(res, |v: String| v@, parse_string(buf_content(*old(r))), buf_content(*old(r)), buf_content(*final(r))),
{
    let ghost s = buf_content(*r);
    let v = decode_byte_vec(r)?;
    match string_from_utf8(v) {
        Ok(str) => Ok(str),
        Err(e) => Err(DecodeError::InvalidString(e)),
    }
}

/// The encoding of a string: its UTF-8 length, then its UTF-8 bytes.
pub open spec fn string_bytes(c: Seq<char>) -> Seq<u8> {
    varint_bytes(encode_utf8(c).len() as u64) + encode_utf8(c)
}

/// A string whose encoding can be written.
pub open spec fn encodable_string(c: Seq<char>) -> bool {
    encode_utf8(c).len() <= varint_max()
}

/// Write a length-prefixed UTF-8 string.
pub fn encode_string(s: &str, w: &mut Vec<u8>)
    requires
        encodable_string(s@),
    ensures
        final(w)@ == old(w)@ + string_bytes(s@),
{
    let bytes = s.as_bytes();
    encode_varint(bytes.len() as u64, w);
    put_slice(w, bytes);
    assert(w@ =~= old(w)@ + string_bytes(s@));
}

/// Reading back an encoded string gives the string and consumes its encoding.
pub proof fn lemma_string_roundtrip(c: Seq<char>, rest: Seq<u8>)
    requires
        encodable_string(c),
        encode_utf8(c).len() <= usize::MAX,
    ensures
        parse_string(string_bytes(c) + rest) == Ok::<(Seq<char>, int), Fail>((c, string_bytes(c).len() as int)),
{
    let b = encode_utf8(c);
    let n = b.len() as u64;
    let s = string_bytes(c) + rest;
    assert(s =~= varint_bytes(n) + (b + rest));
    lemma_varint_roundtrip(n, b + rest);
    let k = varint_bytes(n).len() as int;
    assert(s.subrange(k, k + n) =~= b);
}

pub proof fn lemma_rest_trans(a: Seq<u8>, b: Seq<u8>, c: Seq<u8>)
    requires
        is_rest_of(a, b),
        is_rest_of(b, c),
    ensures
        is_rest_of(a, c),
{
    assert(a =~= c.skip(c.len() - a.len()));
}

pub proof fn lemma_skip_rest(s: Seq<u8>, n: int)
    requires
        0 <= n <= s.len(),
    ensures
        is_rest_of(s.skip(n), s),
{
    assert(s.skip(n) =~= s.skip(s.len() - s.skip(n).len()));
}

pub proof fn lemma_skip_skip(s: Seq<u8>, n: int, m: int)
    requires
        0 <= n <= s.len(),
        0 <= m <= s.len() - n,
    ensures
        s.skip(n).skip(m) == s.skip(n + m),
{
    assert(s.skip(n).skip(m) =~= s.skip(n + m));
}

} // verus!
