//! Rerror: a request failed, and why.
use crate::fcall::Fcall;
use crate::header::{header_type_of, lemma_header_inverse, lemma_header_roundtrip, Header};
use crate::wire::{
    le_bytes_u16, le_bytes_u32, le_u16_of, le_u32_of, lemma_le_u16_roundtrip, lemma_le_u32_roundtrip, lemma_read_string_len, lemma_string_inverse, lemma_string_roundtrip, push_le_u16,
    push_le_u32, push_string, read_string, spec_read_string, string_bytes, string_fits,
    utf8_len,
};
use vstd::prelude::*;
use vstd::utf8::encode_utf8;

verus! {

/// Rerror: the text of the error that ended a request.
pub struct RError {
    pub header: Header,
    pub ename: String,
}

/// An Rerror as values.
#[verifier::ext_equal]
pub struct RErrorView {
    pub header: Header,
    pub ename: Seq<char>,
}

impl View for RError {
    type V = RErrorView;

    open spec fn view(&self) -> RErrorView {
        RErrorView { header: self.header, ename: self.ename@ }
    }
}

impl Default for RError {
    fn default() -> (r: Self)
        ensures
            r@ == RErrorView::spec_default(),
    {
        RError { header: Header::default(), ename: String::new() }
    }
}

impl RErrorView {
    /// A fresh Rerror: default header, empty text.
    pub open spec fn spec_default() -> RErrorView {
        RErrorView { header: Header::spec_default(), ename: Seq::empty() }
    }

    /// The message can be composed: its type is known and its text fits a 9P string.
    pub open spec fn composable(self) -> bool {
        self.header.htype is Some && string_fits(self.ename)
    }

    /// The size that the message states: 4 + 1 + 2 + 2 + the text's byte count.
    pub open spec fn stated_size(self) -> int {
        9 + encode_utf8(self.ename).len() as int
    }

    /// The composed message: size, type, tag, text.
    pub open spec fn wire(self) -> Seq<u8> {
        le_bytes_u32(self.stated_size() as u32) + self.header.wire() + string_bytes(self.ename)
    }
}

impl RError {
    /// The message after its size field: header, then text; with the number of bytes it
    /// takes. `None` when the header is invalid, the bytes run out, or the text is not UTF-8.
    pub open spec fn spec_decode(b: Seq<u8>) -> Option<(RErrorView, int)> {
        match Header::spec_decode(b) {
            None => None,
            Some((h, _)) => match spec_read_string(b.skip(3)) {
                None => None,
                Some((e, n)) => Some((RErrorView { header: h, ename: e }, 3 + n)),
            },
        }
    }

    /// Reads an Rerror (after its size field) from the front of `buf`.
    pub fn decode(buf: &mut &[u8]) -> (r: Option<RError>)
        ensures
            r is Some <==> RError::spec_decode(old(buf)@) is Some,
            r matches Some(m) ==> m@ == RError::spec_decode(old(buf)@)->Some_0.0
                && final(buf)@ == old(buf)@.skip(RError::spec_decode(old(buf)@)->Some_0.1),
    {
        let ghost start = buf@;
        let header = match Header::decode(buf) {
            Some(h) => h,
            None => return None,
        };
        match read_string(buf) {
            Some(ename) => {
                let ghost n = spec_read_string(start.skip(3))->Some_0.1;
                assert(start.skip(3).skip(n) =~= start.skip(3 + n));
                Some(RError { header, ename })
            },
            None => None,
        }
    }

    /// An Rerror read from `val` (the message after its size field), over a fresh message.
    pub fn from_bytes(val: Vec<u8>) -> (r: RError)
        requires
            RError::spec_decode(val@) is Some,
        ensures
            r@ == RError::spec_decode(val@)->Some_0.0,
    {
        let mut ret = RError::default();
        let b = &mut val.as_slice();
        ret.parse(b);
        ret
    }
}

/// Composing an Rerror and parsing it back (after its size field) gives the same message,
/// and its size field states its length.
pub proof fn lemma_error_roundtrip(m: RErrorView, rest: Seq<u8>)
    requires
        m.composable(),
    ensures
        m.wire().len() == m.stated_size(),
        le_u32_of(m.wire()) == m.wire().len(),
        RError::spec_decode(m.wire().skip(4) + rest) == Some((m, m.wire().len() - 4)),
{
    let size = m.stated_size() as u32;
    let b = m.wire().skip(4) + rest;
    lemma_string_roundtrip(m.ename, rest);
    lemma_le_u32_roundtrip(size, m.wire().skip(4));
    lemma_header_roundtrip(m.header, string_bytes(m.ename) + rest);
    assert(m.wire() =~= le_bytes_u32(size) + m.wire().skip(4));
    assert(b =~= m.header.wire() + (string_bytes(m.ename) + rest));
    assert(b.skip(3) =~= string_bytes(m.ename) + rest);
}

/// Composing a parsed Rerror gives back its size and the bytes it was parsed from.
pub proof fn lemma_error_inverse(b: Seq<u8>)
    requires
        RError::spec_decode(b) is Some,
    ensures
        RError::spec_decode(b)->Some_0.0.composable(),
        RError::spec_decode(b)->Some_0.0.wire() == le_bytes_u32(
            RError::spec_decode(b)->Some_0.0.stated_size() as u32,
        ) + b.take(RError::spec_decode(b)->Some_0.1),
{
    let (m, n) = RError::spec_decode(b)->Some_0;
    lemma_header_inverse(b);
    lemma_string_inverse(b.skip(3));
    lemma_read_string_len(b.skip(3));
    assert(b.take(n) =~= b.take(3) + b.skip(3).take(n - 3));
    assert(m.wire() =~= le_bytes_u32(m.stated_size() as u32) + b.take(n));
}

/// Where the fields of a composed Rerror stand: the size in bytes 0..4, the type number at 4,
/// the tag in 5..7, little-endian, and the text as a 9P string that ends the message.
pub proof fn lemma_error_layout(m: RErrorView)
    requires
        m.composable(),
    ensures
        m.wire().len() == m.stated_size(),
        le_u32_of(m.wire()) == m.stated_size(),
        m.wire()[4] == m.header.htype->Some_0.spec_code(),
        le_u16_of(m.wire().skip(5)) == m.header.htag,
        spec_read_string(m.wire().skip(7)) == Some((m.ename, m.stated_size() - 7)),
{
    let w = m.wire();
    let se = string_bytes(m.ename);
    lemma_error_roundtrip(m, Seq::empty());
    lemma_string_roundtrip(m.ename, Seq::empty());
    lemma_le_u16_roundtrip(m.header.htag, se);
    assert(w.skip(5) =~= le_bytes_u16(m.header.htag) + se);
    assert(w.skip(7) =~= se + Seq::<u8>::empty());
}

/// What a parsed Rerror holds, by offset into the bytes after its size field: the type number
/// at 0, the tag in 1..3, little-endian, then the text as a 9P string. Parsing succeeds exactly
/// when the type number is one of 9P's and the string can be read.
pub proof fn lemma_error_decode_layout(b: Seq<u8>)
    ensures
        RError::spec_decode(b) is Some <==> (b.len() >= 3 && 100 <= b[0] <= 127
            && spec_read_string(b.skip(3)) is Some),
        RError::spec_decode(b) matches Some((m, n)) ==> {
            &&& m.header.htype == Some(header_type_of(b[0]))
            &&& m.header.htag == le_u16_of(b.skip(1))
            &&& spec_read_string(b.skip(3)) == Some((m.ename, n - 3))
        },
{
}

impl Fcall for RError {
    open spec fn tag_defined(&self) -> bool {
        true
    }

    open spec fn spec_tag(&self) -> u16 {
        self.header.htag
    }

    open spec fn spec_set_header(before: RErrorView, header: Header) -> RErrorView {
        RErrorView { header, ..before }
    }

    open spec fn compose_defined(&self) -> bool {
        self@.composable()
    }

    open spec fn spec_compose(&self) -> Seq<u8> {
        self@.wire()
    }

    open spec fn parse_defined(buf: Seq<u8>) -> bool {
        RError::spec_decode(buf) is Some
    }

    open spec fn spec_parse(before: RErrorView, buf: Seq<u8>) -> (RErrorView, int) {
        RError::spec_decode(buf)->Some_0
    }

    fn set_header(&mut self, header: Header) {
        self.header = header;
    }

    fn get_tag(&self) -> u16 {
        self.header.htag
    }

    fn compose(&self) -> Option<Vec<u8>> {
        let elen = utf8_len(&self.ename);
        let length: usize = 4 + 1 + 2 + (2 + elen);
        let mut buffer: Vec<u8> = Vec::with_capacity(length);
        push_le_u32(&mut buffer, length as u32);
        buffer.push(self.header.htype.unwrap().code());
        push_le_u16(&mut buffer, self.header.htag);
        push_string(&mut buffer, &self.ename);
        assert(buffer@ =~= self@.wire());
        Some(buffer)
    }

    fn parse(&mut self, buf: &mut &[u8]) {
        match RError::decode(buf) {
            Some(m) => {
                *self = m;
            },
            None => {},
        }
    }
}

} // verus!
