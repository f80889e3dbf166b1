//! Tversion and Rversion: the negotiation of message size and protocol version.
use crate::fcall::Fcall;
use crate::header::{header_type_of, lemma_header_inverse, lemma_header_roundtrip, Header};
use crate::wire::{
    le_bytes_u16, le_bytes_u32, le_u16_of, le_u32_of, lemma_le_u16_roundtrip, lemma_le_u32_inverse, lemma_le_u32_roundtrip, lemma_read_string_len,
    lemma_string_inverse, lemma_string_roundtrip, push_le_u16,
    push_le_u32, push_string, read_le_u32, read_string, spec_read_string, string_bytes,
    string_fits, utf8_len,
};
use vstd::prelude::*;
use vstd::utf8::encode_utf8;

verus! {

/// A Tversion or an Rversion (its header says which): the largest message size and the
/// protocol version string.
pub struct TRVersion {
    pub header: Header,
    pub msize: u32,
    pub version: String,
}

/// A version message as values.
#[verifier::ext_equal]
pub struct TRVersionView {
    pub header: Header,
    pub msize: u32,
    pub version: Seq<char>,
}

impl View for TRVersion {
    type V = TRVersionView;

    open spec fn view(&self) -> TRVersionView {
        TRVersionView { header: self.header, msize: self.msize, version: self.version@ }
    }
}

impl Default for TRVersion {
    fn default() -> (r: Self)
        ensures
            r@ == TRVersionView::spec_default(),
    {
        TRVersion { header: Header::default(), msize: 0, version: String::new() }
    }
}

impl TRVersionView {
    /// A fresh version message: default header, size 0, empty version.
    pub open spec fn spec_default() -> TRVersionView {
        TRVersionView { header: Header::spec_default(), msize: 0, version: Seq::empty() }
    }

    /// The message can be composed: its type is known and its version fits a 9P string.
    pub open spec fn composable(self) -> bool {
        self.header.htype is Some && string_fits(self.version)
    }

    /// The size that the message states: 4 + 1 + 2 + 4 + 2 + the version's byte count.
    pub open spec fn stated_size(self) -> int {
        13 + encode_utf8(self.version).len() as int
    }

    /// The composed message: size, type, tag, msize, version.
    pub open spec fn wire(self) -> Seq<u8> {
        le_bytes_u32(self.stated_size() as u32) + self.header.wire() + le_bytes_u32(self.msize)
            + string_bytes(self.version)
    }
}

impl TRVersion {
    /// The message after its size field: header, then msize, then the version string; with
    /// the number of bytes it takes. `None` when the header is invalid, the bytes run out, or
    /// the version is not UTF-8.
    pub open spec fn spec_decode(b: Seq<u8>) -> Option<(TRVersionView, int)> {
        match Header::spec_decode(b) {
            None => None,
            Some((h, _)) => if b.len() < 7 {
                None
            } else {
                match spec_read_string(b.skip(7)) {
                    None => None,
                    Some((v, n)) => Some(
                        (TRVersionView { header: h, msize: le_u32_of(b.skip(3)), version: v }, 7 + n),
                    ),
                }
            },
        }
    }

    /// Reads a version message (after its size field) from the front of `buf`.
    pub fn decode(buf: &mut &[u8]) -> (r: Option<TRVersion>)
        ensures
            r is Some <==> TRVersion::spec_decode(old(buf)@) is Some,
            r matches Some(m) ==> m@ == TRVersion::spec_decode(old(buf)@)->Some_0.0
                && final(buf)@ == old(buf)@.skip(TRVersion::spec_decode(old(buf)@)->Some_0.1),
    {
        let ghost start = buf@;
        let header = match Header::decode(buf) {
            Some(h) => h,
            None => return None,
        };
        if buf.len() < 4 {
            return None;
        }
        let msize = read_le_u32(buf);
        assert(buf@ =~= start.skip(7));
        assert(start.skip(3).skip(4) =~= start.skip(7));
        let ghost mid = buf@;
        let version = match read_string(buf) {
            Some(v) => v,
            None => return None,
        };
        assert(buf@ =~= start.skip(7 + spec_read_string(mid)->Some_0.1));
        Some(TRVersion { header, msize, version })
    }

    /// A version message read from `val`, over a fresh message.
    pub fn from_bytes(val: Vec<u8>) -> (r: TRVersion)
        requires
            TRVersion::spec_decode(val@) is Some,
        ensures
            r@ == TRVersion::spec_decode(val@)->Some_0.0,
    {
        let mut ret = TRVersion::default();
        let b = &mut val.as_slice();
        ret.parse(b);
        ret
    }
}

/// Composing a version message and parsing it back (after its size field) gives the same
/// message, and its size field states its length.
pub proof fn lemma_version_roundtrip(m: TRVersionView, rest: Seq<u8>)
    requires
        m.composable(),
    ensures
        m.wire().len() == m.stated_size(),
        le_u32_of(m.wire()) == m.wire().len(),
        TRVersion::spec_decode(m.wire().skip(4) + rest) == Some((m, m.wire().len() - 4)),
{
    let size = m.stated_size() as u32;
    let b = m.wire().skip(4) + rest;
    lemma_string_roundtrip(m.version, rest);
    lemma_le_u32_roundtrip(m.msize, string_bytes(m.version) + rest);
    lemma_header_roundtrip(m.header, le_bytes_u32(m.msize) + string_bytes(m.version) + rest);
    lemma_le_u32_roundtrip(size, m.wire().skip(4));
    assert(m.wire() =~= le_bytes_u32(size) + m.wire().skip(4));
    assert(b =~= m.header.wire() + (le_bytes_u32(m.msize) + string_bytes(m.version) + rest));
    assert(b.skip(3) =~= le_bytes_u32(m.msize) + (string_bytes(m.version) + rest));
    assert(b.skip(7) =~= string_bytes(m.version) + rest);
}

/// Composing a parsed version message gives back its size and the bytes it was parsed from.
pub proof fn lemma_version_inverse(b: Seq<u8>)
    requires
        TRVersion::spec_decode(b) is Some,
    ensures
        TRVersion::spec_decode(b)->Some_0.0.composable(),
        TRVersion::spec_decode(b)->Some_0.0.wire() == le_bytes_u32(
            TRVersion::spec_decode(b)->Some_0.0.stated_size() as u32,
        ) + b.take(TRVersion::spec_decode(b)->Some_0.1),
{
    let (m, n) = TRVersion::spec_decode(b)->Some_0;
    lemma_header_inverse(b);
    lemma_le_u32_inverse(b.skip(3));
    lemma_string_inverse(b.skip(7));
    lemma_read_string_len(b.skip(7));
    assert(m.wire() =~= le_bytes_u32(m.stated_size() as u32) + b.take(n));
}

/// Where the fields of a composed version message stand: the size in bytes 0..4, the type
/// number at 4, the tag in 5..7, `msize` in 7..11, each little-endian, and the version as a 9P
/// string that ends the message.
pub proof fn lemma_version_layout(m: TRVersionView)
    requires
        m.composable(),
    ensures
        m.wire().len() == m.stated_size(),
        le_u32_of(m.wire()) == m.stated_size(),
        m.wire()[4] == m.header.htype->Some_0.spec_code(),
        le_u16_of(m.wire().skip(5)) == m.header.htag,
        le_u32_of(m.wire().skip(7)) == m.msize,
        spec_read_string(m.wire().skip(11)) == Some((m.version, m.stated_size() - 11)),
{
    let w = m.wire();
    let sv = string_bytes(m.version);
    let t1 = le_bytes_u32(m.msize) + sv;
    lemma_version_roundtrip(m, Seq::empty());
    lemma_string_roundtrip(m.version, Seq::empty());
    lemma_le_u16_roundtrip(m.header.htag, t1);
    lemma_le_u32_roundtrip(m.msize, sv);
    assert(w.skip(5) =~= le_bytes_u16(m.header.htag) + t1);
    assert(w.skip(7) =~= t1);
    assert(w.skip(11) =~= sv + Seq::<u8>::empty());
}

/// What a parsed version message holds, by offset into the bytes after its size field: the
/// type number at 0, the tag in 1..3, `msize` in 3..7, little-endian, then the version as a 9P
/// string. Parsing succeeds exactly when there are 7 bytes, the type number is one of 9P's and
/// the string can be read.
pub proof fn lemma_version_decode_layout(b: Seq<u8>)
    ensures
        TRVersion::spec_decode(b) is Some <==> (b.len() >= 7 && 100 <= b[0] <= 127
            && spec_read_string(b.skip(7)) is Some),
        TRVersion::spec_decode(b) matches Some((m, n)) ==> {
            &&& m.header.htype == Some(header_type_of(b[0]))
            &&& m.header.htag == le_u16_of(b.skip(1))
            &&& m.msize == le_u32_of(b.skip(3))
            &&& spec_read_string(b.skip(7)) == Some((m.version, n - 7))
        },
{
}

impl Fcall for TRVersion {
    open spec fn tag_defined(&self) -> bool {
        true
    }

    open spec fn spec_tag(&self) -> u16 {
        self.header.htag
    }

    open spec fn spec_set_header(before: TRVersionView, header: Header) -> TRVersionView {
        TRVersionView { header, ..before }
    }

    open spec fn compose_defined(&self) -> bool {
        self@.composable()
    }

    open spec fn spec_compose(&self) -> Seq<u8> {
        self@.wire()
    }

    open spec fn parse_defined(buf: Seq<u8>) -> bool {
        TRVersion::spec_decode(buf) is Some
    }

    open spec fn spec_parse(before: TRVersionView, buf: Seq<u8>) -> (TRVersionView, int) {
        TRVersion::spec_decode(buf)->Some_0
    }

    fn set_header(&mut self, header: Header) {
        self.header = header;
    }

    fn get_tag(&self) -> u16 {
        self.header.htag
    }

    fn compose(&self) -> Option<Vec<u8>> {
        let vlen = utf8_len(&self.version);
        let length: usize = 4 + 1 + 2 + 4 + (2 + vlen);
        let mut buffer: Vec<u8> = Vec::with_capacity(length);
        push_le_u32(&mut buffer, length as u32);
        buffer.push(self.header.htype.unwrap().code());
        push_le_u16(&mut buffer, self.header.htag);
        push_le_u32(&mut buffer, self.msize);
        push_string(&mut buffer, &self.version);
        assert(buffer@ =~= self@.wire());
        Some(buffer)
    }

    fn parse(&mut self, buf: &mut &[u8]) {
        match TRVersion::decode(buf) {
            Some(m) => {
                *self = m;
            },
            None => {},
        }
    }
}

} // verus!
