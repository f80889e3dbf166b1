//! Little-endian integers and length-prefixed strings, as 9P puts them on the wire.
use vstd::prelude::*;
use vstd::utf8::{decode_utf8, encode_utf8, valid_utf8};

verus! {

broadcast use vstd::utf8::encode_utf8_valid_utf8, vstd::utf8::encode_utf8_decode_utf8;

// ---------------------------------------------------------------------------
// The encoding, as spec functions
// ---------------------------------------------------------------------------

/// The two bytes of `x`, least significant first.
pub open spec fn le_bytes_u16(x: u16) -> Seq<u8> {
    seq![(x % 0x100) as u8, (x / 0x100) as u8]
}

/// The four bytes of `x`, least significant first.
pub open spec fn le_bytes_u32(x: u32) -> Seq<u8> {
    seq![
        (x % 0x100) as u8,
        ((x / 0x100) % 0x100) as u8,
        ((x / 0x1_0000) % 0x100) as u8,
        (x / 0x100_0000) as u8,
    ]
}

/// The eight bytes of `x`, least significant first.
pub open spec fn le_bytes_u64(x: u64) -> Seq<u8> {
    le_bytes_u32((x % 0x1_0000_0000) as u32) + le_bytes_u32((x / 0x1_0000_0000) as u32)
}

/// The number whose little-endian bytes open `b`, read as a `u16`.
pub open spec fn le_u16_of(b: Seq<u8>) -> u16 {
    (b[0] + 0x100 * b[1]) as u16
}

/// The number whose little-endian bytes open `b`, read as a `u32`.
pub open spec fn le_u32_of(b: Seq<u8>) -> u32 {
    (b[0] + 0x100 * b[1] + 0x1_0000 * b[2] + 0x100_0000 * b[3]) as u32
}

/// The number whose little-endian bytes open `b`, read as a `u64`.
pub open spec fn le_u64_of(b: Seq<u8>) -> u64 {
    (le_u32_of(b) + 0x1_0000_0000 * le_u32_of(b.skip(4))) as u64
}

/// The bytes of a 9P string: its UTF-8 length as a little-endian `u16`, then its UTF-8 bytes.
pub open spec fn string_bytes(s: Seq<char>) -> Seq<u8> {
    le_bytes_u16(encode_utf8(s).len() as u16) + encode_utf8(s)
}

/// A string fits on the wire when its UTF-8 form is at most `u16::MAX` bytes long.
pub open spec fn string_fits(s: Seq<char>) -> bool {
    encode_utf8(s).len() <= 0xffff
}

/// The 9P string at the front of `b`, with the number of bytes it takes, or `None` when `b`
/// is too short for its length prefix or its body, or the body is not valid UTF-8.
#[verifier::opaque]
pub open spec fn spec_read_string(b: Seq<u8>) -> Option<(Seq<char>, int)> {
    if b.len() < 2 {
        None
    } else {
        let n = le_u16_of(b) as int;
        if b.len() < 2 + n {
            None
        } else if !valid_utf8(b.subrange(2, 2 + n)) {
            None
        } else {
            Some((decode_utf8(b.subrange(2, 2 + n)), 2 + n))
        }
    }
}

// ---------------------------------------------------------------------------
// Decoding undoes encoding
// ---------------------------------------------------------------------------

/// Reading two bytes back gives the `u16` that wrote them, whatever follows.
pub proof fn lemma_le_u16_roundtrip(x: u16, rest: Seq<u8>)
    ensures
        le_bytes_u16(x).len() == 2,
        le_u16_of(le_bytes_u16(x) + rest) == x,
{
    let b = le_bytes_u16(x) + rest;
    assert(b[0] == (x % 0x100) as u8);
    assert(b[1] == (x / 0x100) as u8);
}

/// Reading four bytes back gives the `u32` that wrote them, whatever follows.
pub proof fn lemma_le_u32_roundtrip(x: u32, rest: Seq<u8>)
    ensures
        le_bytes_u32(x).len() == 4,
        le_u32_of(le_bytes_u32(x) + rest) == x,
{
    let b = le_bytes_u32(x) + rest;
    assert(b[0] == (x % 0x100) as u8);
    assert(b[1] == ((x / 0x100) % 0x100) as u8);
    assert(b[2] == ((x / 0x1_0000) % 0x100) as u8);
    assert(b[3] == (x / 0x100_0000) as u8);
    let xi = x as int;
    assert(xi % 0x100 + 0x100 * ((xi / 0x100) % 0x100) + 0x1_0000 * ((xi / 0x1_0000) % 0x100)
        + 0x100_0000 * (xi / 0x100_0000) == xi) by (nonlinear_arith)
        requires
            0 <= xi < 0x1_0000_0000,
    ;
}

/// Reading eight bytes back gives the `u64` that wrote them, whatever follows.
pub proof fn lemma_le_u64_roundtrip(x: u64, rest: Seq<u8>)
    ensures
        le_bytes_u64(x).len() == 8,
        le_u64_of(le_bytes_u64(x) + rest) == x,
{
    let lo = (x % 0x1_0000_0000) as u32;
    let hi = (x / 0x1_0000_0000) as u32;
    let b = le_bytes_u64(x) + rest;
    lemma_le_u32_roundtrip(lo, le_bytes_u32(hi) + rest);
    lemma_le_u32_roundtrip(hi, rest);
    assert(b =~= le_bytes_u32(lo) + (le_bytes_u32(hi) + rest));
    assert(b.skip(4) =~= le_bytes_u32(hi) + rest);
    let xi = x as int;
    assert(xi % 0x1_0000_0000 + 0x1_0000_0000 * (xi / 0x1_0000_0000) == xi) by (nonlinear_arith);
}

/// Reading a string back gives the string that wrote it, and its length, whatever follows.
pub proof fn lemma_string_roundtrip(s: Seq<char>, rest: Seq<u8>)
    requires
        string_fits(s),
    ensures
        string_bytes(s).len() == 2 + encode_utf8(s).len(),
        spec_read_string(string_bytes(s) + rest) == Some((s, string_bytes(s).len() as int)),
{
    reveal(spec_read_string);
    let e = encode_utf8(s);
    let b = string_bytes(s) + rest;
    lemma_le_u16_roundtrip(e.len() as u16, e + rest);
    assert(b =~= le_bytes_u16(e.len() as u16) + (e + rest));
    assert(b.subrange(2, 2 + e.len() as int) =~= e);
}

/// Writing back the `u16` read from two bytes gives those bytes.
pub proof fn lemma_le_u16_inverse(b: Seq<u8>)
    requires
        b.len() >= 2,
    ensures
        le_bytes_u16(le_u16_of(b)) == b.take(2),
{
    let x = le_u16_of(b) as int;
    let b0 = b[0] as int;
    let b1 = b[1] as int;
    assert(x == b0 + 0x100 * b1);
    assert(x % 0x100 == b0 && x / 0x100 == b1) by (nonlinear_arith)
        requires
            x == b0 + 0x100 * b1,
            0 <= b0 < 0x100,
            0 <= b1 < 0x100,
    ;
    assert(le_bytes_u16(le_u16_of(b)) =~= b.take(2));
}

/// Writing back the `u32` read from four bytes gives those bytes.
pub proof fn lemma_le_u32_inverse(b: Seq<u8>)
    requires
        b.len() >= 4,
    ensures
        le_bytes_u32(le_u32_of(b)) == b.take(4),
{
    let x = le_u32_of(b) as int;
    let b0 = b[0] as int;
    let b1 = b[1] as int;
    let b2 = b[2] as int;
    let b3 = b[3] as int;
    assert(x == b0 + 0x100 * b1 + 0x1_0000 * b2 + 0x100_0000 * b3);
    assert(x % 0x100 == b0 && (x / 0x100) % 0x100 == b1 && (x / 0x1_0000) % 0x100 == b2 && x
        / 0x100_0000 == b3) by (nonlinear_arith)
        requires
            x == b0 + 0x100 * b1 + 0x1_0000 * b2 + 0x100_0000 * b3,
            0 <= b0 < 0x100,
            0 <= b1 < 0x100,
            0 <= b2 < 0x100,
            0 <= b3 < 0x100,
    ;
    assert(le_bytes_u32(le_u32_of(b)) =~= b.take(4));
}

/// Writing back the `u64` read from eight bytes gives those bytes.
pub proof fn lemma_le_u64_inverse(b: Seq<u8>)
    requires
        b.len() >= 8,
    ensures
        le_bytes_u64(le_u64_of(b)) == b.take(8),
{
    let lo = le_u32_of(b);
    let hi = le_u32_of(b.skip(4));
    let x = le_u64_of(b);
    assert(x as int == lo + 0x1_0000_0000 * hi);
    assert((x as int) % 0x1_0000_0000 == lo && (x as int) / 0x1_0000_0000 == hi) by (nonlinear_arith)
        requires
            x as int == lo + 0x1_0000_0000 * hi,
            0 <= lo < 0x1_0000_0000,
            0 <= hi < 0x1_0000_0000,
    ;
    lemma_le_u32_inverse(b);
    lemma_le_u32_inverse(b.skip(4));
    assert(le_bytes_u64(x) =~= b.take(8));
}

/// Writing back a string read from bytes gives those bytes, and the string fits.
pub proof fn lemma_string_inverse(b: Seq<u8>)
    requires
        spec_read_string(b) is Some,
    ensures
        string_fits(spec_read_string(b)->Some_0.0),
        string_bytes(spec_read_string(b)->Some_0.0) == b.take(spec_read_string(b)->Some_0.1),
{
    reveal(spec_read_string);
    let n = le_u16_of(b) as int;
    let body = b.subrange(2, 2 + n);
    vstd::utf8::decode_utf8_encode_utf8(body);
    lemma_le_u16_inverse(b);
    assert(b.take(2 + n) =~= b.take(2) + body);
}

/// A string read takes at least its prefix and at most what there is.
pub proof fn lemma_read_string_len(b: Seq<u8>)
    ensures
        spec_read_string(b) matches Some((s, n)) ==> 2 <= n <= b.len(),
{
    reveal(spec_read_string);
}

// ---------------------------------------------------------------------------
// Readers: each takes its value from the front of the buffer and moves the buffer past it
// ---------------------------------------------------------------------------

/// Reads one byte.
pub fn read_le_u8(buf: &mut &[u8]) -> (r: u8)
    requires
        old(buf)@.len() >= 1,
    ensures
        r == old(buf)@[0],
        final(buf)@ == old(buf)@.skip(1),
{
    let (head, rest) = buf.split_at(1);
    *buf = rest;
    head[0]
}

/// Reads a little-endian `u16`.
pub fn read_le_u16(buf: &mut &[u8]) -> (r: u16)
    requires
        old(buf)@.len() >= 2,
    ensures
        r == le_u16_of(old(buf)@),
        final(buf)@ == old(buf)@.skip(2),
{
    let (head, rest) = buf.split_at(2);
    *buf = rest;
    head[0] as u16 + 0x100 * (head[1] as u16)
}

/// Reads a little-endian `u32`.
pub fn read_le_u32(buf: &mut &[u8]) -> (r: u32)
    requires
        old(buf)@.len() >= 4,
    ensures
        r == le_u32_of(old(buf)@),
        final(buf)@ == old(buf)@.skip(4),
{
    let (head, rest) = buf.split_at(4);
    *buf = rest;
    head[0] as u32 + 0x100 * (head[1] as u32) + 0x1_0000 * (head[2] as u32) + 0x100_0000 * (
    head[3] as u32)
}

/// Reads a little-endian `u64`.
pub fn read_le_u64(buf: &mut &[u8]) -> (r: u64)
    requires
        old(buf)@.len() >= 8,
    ensures
        r == le_u64_of(old(buf)@),
        final(buf)@ == old(buf)@.skip(8),
{
    let ghost start = buf@;
    let lo = read_le_u32(buf);
    let hi = read_le_u32(buf);
    assert(start.skip(4).skip(4) =~= start.skip(8));
    lo as u64 + 0x1_0000_0000 * (hi as u64)
}

/// `String::from_utf8`. Its documentation: the result is `Ok` exactly when the bytes are
/// valid UTF-8, and then it is the string that those bytes encode. The contract claims this,
/// in the terms of vstd's UTF-8 definitions.
#[verifier::external_body]
fn string_from_utf8(bytes: Vec<u8>) -> (r: Option<String>)
    ensures
        r is Some <==> valid_utf8(bytes@),
        r matches Some(s) ==> s@ == decode_utf8(bytes@),
{
    String::from_utf8(bytes).ok()
}

/// Reads a 9P string: a little-endian `u16` byte count, then that many bytes of UTF-8.
/// Gives `None`, and leaves the buffer as it was, when the buffer is too short or the bytes
/// are not valid UTF-8.
pub fn read_string(buf: &mut &[u8]) -> (r: Option<String>)
    ensures
        spec_read_string(old(buf)@) is None ==> r is None && final(buf)@ == old(buf)@,
        spec_read_string(old(buf)@) matches Some((s, n)) ==> {
            &&& r matches Some(x) && x@ == s
            &&& 2 <= n <= old(buf)@.len()
            &&& final(buf)@ == old(buf)@.skip(n)
        },
{
    reveal(spec_read_string);
    if buf.len() < 2 {
        return None;
    }
    let n = buf[0] as usize + 0x100 * (buf[1] as usize);
    if buf.len() - 2 < n {
        return None;
    }
    let mut bytes: Vec<u8> = Vec::with_capacity(n);
    let mut i: usize = 0;
    while i < n
        invariant
            2 + n <= buf@.len(),
            n == le_u16_of(buf@),
            i <= n,
            bytes@ =~= buf@.subrange(2, 2 + i as int),
        decreases n - i,
    {
        bytes.push(buf[2 + i]);
        i = i + 1;
    }
    match string_from_utf8(bytes) {
        Some(s) => {
            let (_, rest) = buf.split_at(2 + n);
            *buf = rest;
            Some(s)
        },
        None => None,
    }
}

// ---------------------------------------------------------------------------
// Writers: each appends its value's bytes to the buffer
// ---------------------------------------------------------------------------

/// Appends a little-endian `u16`.
pub fn push_le_u16(buf: &mut Vec<u8>, x: u16)
    ensures
        final(buf)@ == old(buf)@ + le_bytes_u16(x),
{
    buf.push((x % 0x100) as u8);
    buf.push((x / 0x100) as u8);
    assert(buf@ =~= old(buf)@ + le_bytes_u16(x));
}

/// Appends a little-endian `u32`.
pub fn push_le_u32(buf: &mut Vec<u8>, x: u32)
    ensures
        final(buf)@ == old(buf)@ + le_bytes_u32(x),
{
    buf.push((x % 0x100) as u8);
    buf.push(((x / 0x100) % 0x100) as u8);
    buf.push(((x / 0x1_0000) % 0x100) as u8);
    buf.push((x / 0x100_0000) as u8);
    assert(buf@ =~= old(buf)@ + le_bytes_u32(x));
}

/// Appends a little-endian `u64`.
pub fn push_le_u64(buf: &mut Vec<u8>, x: u64)
    ensures
        final(buf)@ == old(buf)@ + le_bytes_u64(x),
{
    push_le_u32(buf, (x % 0x1_0000_0000) as u32);
    push_le_u32(buf, (x / 0x1_0000_0000) as u32);
    assert(buf@ =~= old(buf)@ + le_bytes_u64(x));
}

/// Appends bytes one by one.
pub fn push_bytes(buf: &mut Vec<u8>, bytes: &[u8])
    ensures
        final(buf)@ == old(buf)@ + bytes@,
{
    let mut i: usize = 0;
    while i < bytes.len()
        invariant
            i <= bytes@.len(),
            buf@ =~= old(buf)@ + bytes@.take(i as int),
        decreases bytes@.len() - i,
    {
        buf.push(bytes[i]);
        i = i + 1;
    }
    assert(bytes@.take(bytes@.len() as int) =~= bytes@);
}

/// The UTF-8 byte length of a string.
pub fn utf8_len(s: &String) -> (n: usize)
    ensures
        n == encode_utf8(s@).len(),
{
    s.as_str().as_bytes().len()
}

/// Appends a 9P string: its byte count as a little-endian `u16`, then its UTF-8 bytes.
pub fn push_string(buf: &mut Vec<u8>, s: &String)
    requires
        string_fits(s@),
    ensures
        final(buf)@ == old(buf)@ + string_bytes(s@),
{
    let bytes = s.as_str().as_bytes();
    push_le_u16(buf, bytes.len() as u16);
    push_bytes(buf, bytes);
    assert(buf@ =~= old(buf)@ + string_bytes(s@));
}

} // verus!
