//! Tclunk and Rclunk: forgetting a fid.
use crate::fcall::Fcall;
use crate::header::{header_type_of, lemma_header_inverse, lemma_header_roundtrip, Header};
use crate::wire::{
    le_bytes_u16, le_bytes_u32, le_u16_of, le_u32_of, lemma_le_u16_roundtrip, lemma_le_u32_inverse,
    lemma_le_u32_roundtrip, push_le_u16, push_le_u32, read_le_u32,
};
use vstd::prelude::*;

verus! {

/// Tclunk: the fid that the client no longer needs.
pub struct TClunk {
    pub header: Header,
    pub fid: u32,
}

impl View for TClunk {
    type V = TClunk;

    open spec fn view(&self) -> TClunk {
        *self
    }
}

impl Default for TClunk {
    fn default() -> (r: Self)
        ensures
            r == TClunk::spec_default(),
    {
        TClunk { header: Header::default(), fid: 0 }
    }
}

impl TClunk {
    /// A fresh Tclunk: default header, fid 0.
    pub open spec fn spec_default() -> TClunk {
        TClunk { header: Header::spec_default(), fid: 0 }
    }

    /// The composed message: size 11, type, tag, fid.
    pub open spec fn wire(self) -> Seq<u8> {
        le_bytes_u32(11) + self.header.wire() + le_bytes_u32(self.fid)
    }

    /// The message after its size field: header, then fid; it takes 7 bytes.
    pub open spec fn spec_decode(b: Seq<u8>) -> Option<(TClunk, int)> {
        match Header::spec_decode(b) {
            None => None,
            Some((h, _)) => if b.len() < 7 {
                None
            } else {
                Some((TClunk { header: h, fid: le_u32_of(b.skip(3)) }, 7))
            },
        }
    }

    /// Reads a Tclunk (after its size field) from the front of `buf`.
    pub fn decode(buf: &mut &[u8]) -> (r: Option<TClunk>)
        ensures
            r is Some <==> TClunk::spec_decode(old(buf)@) is Some,
            r matches Some(m) ==> m == TClunk::spec_decode(old(buf)@)->Some_0.0
                && final(buf)@ == old(buf)@.skip(7),
    {
        let ghost start = buf@;
        let header = match Header::decode(buf) {
            Some(h) => h,
            None => return None,
        };
        if buf.len() < 4 {
            return None;
        }
        let fid = read_le_u32(buf);
        assert(start.skip(3).skip(4) =~= start.skip(7));
        Some(TClunk { header, fid })
    }

    /// A Tclunk read from `val`, over a fresh message.
    pub fn from_bytes(val: Vec<u8>) -> (r: TClunk)
        requires
            TClunk::spec_decode(val@) is Some,
        ensures
            r == TClunk::spec_decode(val@)->Some_0.0,
    {
        let mut ret = TClunk::default();
        let b = &mut val.as_slice();
        ret.parse(b);
        ret
    }
}

/// Composing a Tclunk and parsing it back (after its size field) gives the same message, and
/// its size field states its length.
pub proof fn lemma_clunk_roundtrip(m: TClunk, rest: Seq<u8>)
    requires
        m.header.htype is Some,
    ensures
        m.wire().len() == 11,
        le_u32_of(m.wire()) == 11,
        TClunk::spec_decode(m.wire().skip(4) + rest) == Some((m, 7int)),
{
    let b = m.wire().skip(4) + rest;
    lemma_le_u32_roundtrip(11, m.wire().skip(4));
    lemma_le_u32_roundtrip(m.fid, rest);
    lemma_header_roundtrip(m.header, le_bytes_u32(m.fid) + rest);
    assert(m.wire() =~= le_bytes_u32(11) + m.wire().skip(4));
    assert(b =~= m.header.wire() + (le_bytes_u32(m.fid) + rest));
    assert(b.skip(3) =~= le_bytes_u32(m.fid) + rest);
}

/// Composing a parsed Tclunk gives back its size and the bytes it was parsed from.
pub proof fn lemma_clunk_inverse(b: Seq<u8>)
    requires
        TClunk::spec_decode(b) is Some,
    ensures
        TClunk::spec_decode(b)->Some_0.0.header.htype is Some,
        TClunk::spec_decode(b)->Some_0.0.wire() == le_bytes_u32(11) + b.take(7),
{
    lemma_header_inverse(b);
    lemma_le_u32_inverse(b.skip(3));
    assert(TClunk::spec_decode(b)->Some_0.0.wire() =~= le_bytes_u32(11) + b.take(7));
}

/// Where the fields of a composed Tclunk stand: the size 11 in bytes 0..4, the type number at
/// 4, the tag in 5..7 and `fid` in 7..11, each little-endian.
pub proof fn lemma_clunk_layout(m: TClunk)
    requires
        m.header.htype is Some,
    ensures
        m.wire().len() == 11,
        le_u32_of(m.wire()) == 11,
        m.wire()[4] == m.header.htype->Some_0.spec_code(),
        le_u16_of(m.wire().skip(5)) == m.header.htag,
        le_u32_of(m.wire().skip(7)) == m.fid,
{
    let w = m.wire();
    let f = le_bytes_u32(m.fid);
    lemma_clunk_roundtrip(m, Seq::empty());
    lemma_le_u16_roundtrip(m.header.htag, f);
    lemma_le_u32_roundtrip(m.fid, Seq::empty());
    assert(w.skip(5) =~= le_bytes_u16(m.header.htag) + f);
    assert(w.skip(7) =~= f + Seq::<u8>::empty());
}

/// What a parsed Tclunk holds, by offset into the bytes after its size field: the type number
/// at 0, the tag in 1..3 and `fid` in 3..7, each little-endian. Parsing succeeds exactly when
/// there are 7 bytes and the type number is one of 9P's.
pub proof fn lemma_clunk_decode_layout(b: Seq<u8>)
    ensures
        TClunk::spec_decode(b) is Some <==> (b.len() >= 7 && 100 <= b[0] <= 127),
        TClunk::spec_decode(b) matches Some((m, n)) ==> {
            &&& m.header.htype == Some(header_type_of(b[0]))
            &&& m.header.htag == le_u16_of(b.skip(1))
            &&& m.fid == le_u32_of(b.skip(3))
            &&& n == 7
        },
{
}

impl Fcall for TClunk {
    open spec fn tag_defined(&self) -> bool {
        true
    }

    open spec fn spec_tag(&self) -> u16 {
        self.header.htag
    }

    open spec fn spec_set_header(before: TClunk, header: Header) -> TClunk {
        TClunk { header, ..before }
    }

    open spec fn compose_defined(&self) -> bool {
        self.header.htype is Some
    }

    open spec fn spec_compose(&self) -> Seq<u8> {
        self.wire()
    }

    open spec fn parse_defined(buf: Seq<u8>) -> bool {
        TClunk::spec_decode(buf) is Some
    }

    open spec fn spec_parse(before: TClunk, buf: Seq<u8>) -> (TClunk, int) {
        TClunk::spec_decode(buf)->Some_0
    }

    fn set_header(&mut self, header: Header) {
        self.header = header;
    }

    fn get_tag(&self) -> u16 {
        self.header.htag
    }

    fn compose(&self) -> Option<Vec<u8>> {
        let length: usize = 4 + 1 + 2 + 4;
        let mut buffer: Vec<u8> = Vec::with_capacity(length);
        push_le_u32(&mut buffer, length as u32);
        buffer.push(self.header.htype.unwrap().code());
        push_le_u16(&mut buffer, self.header.htag);
        push_le_u32(&mut buffer, self.fid);
        assert(buffer@ =~= self.wire());
        Some(buffer)
    }

    fn parse(&mut self, buf: &mut &[u8]) {
        match TClunk::decode(buf) {
            Some(m) => {
                *self = m;
            },
            None => {},
        }
    }
}

/// Rclunk: the fid is forgotten.
pub struct RClunk {
    pub header: Header,
}

impl View for RClunk {
    type V = RClunk;

    open spec fn view(&self) -> RClunk {
        *self
    }
}

impl Default for RClunk {
    fn default() -> (r: Self)
        ensures
            r == RClunk::spec_default(),
    {
        RClunk { header: Header::default() }
    }
}

impl RClunk {
    /// A fresh Rclunk: default header.
    pub open spec fn spec_default() -> RClunk {
        RClunk { header: Header::spec_default() }
    }

    /// The composed message: size 7, type, tag.
    pub open spec fn wire(self) -> Seq<u8> {
        le_bytes_u32(7) + self.header.wire()
    }

    /// The message after its size field: the header; it takes 3 bytes.
    pub open spec fn spec_decode(b: Seq<u8>) -> Option<(RClunk, int)> {
        match Header::spec_decode(b) {
            None => None,
            Some((h, n)) => Some((RClunk { header: h }, n)),
        }
    }

    /// Reads an Rclunk (after its size field) from the front of `buf`.
    pub fn decode(buf: &mut &[u8]) -> (r: Option<RClunk>)
        ensures
            r is Some <==> RClunk::spec_decode(old(buf)@) is Some,
            r matches Some(m) ==> m == RClunk::spec_decode(old(buf)@)->Some_0.0
                && final(buf)@ == old(buf)@.skip(3),
    {
        match Header::decode(buf) {
            Some(header) => Some(RClunk { header }),
            None => None,
        }
    }

    /// An Rclunk read from `val`, over a fresh message.
    pub fn from_bytes(val: Vec<u8>) -> (r: RClunk)
        requires
            RClunk::spec_decode(val@) is Some,
        ensures
            r == RClunk::spec_decode(val@)->Some_0.0,
    {
        let mut ret = RClunk::default();
        let b = &mut val.as_slice();
        ret.parse(b);
        ret
    }
}

/// Composing an Rclunk and parsing it back (after its size field) gives the same message, and
/// its size field states its length.
pub proof fn lemma_rclunk_roundtrip(m: RClunk, rest: Seq<u8>)
    requires
        m.header.htype is Some,
    ensures
        m.wire().len() == 7,
        le_u32_of(m.wire()) == 7,
        RClunk::spec_decode(m.wire().skip(4) + rest) == Some((m, 3int)),
{
    lemma_le_u32_roundtrip(7, m.wire().skip(4));
    lemma_header_roundtrip(m.header, rest);
    assert(m.wire() =~= le_bytes_u32(7) + m.wire().skip(4));
    assert(m.wire().skip(4) + rest =~= m.header.wire() + rest);
}

/// Composing a parsed Rclunk gives back its size and the bytes it was parsed from.
pub proof fn lemma_rclunk_inverse(b: Seq<u8>)
    requires
        RClunk::spec_decode(b) is Some,
    ensures
        RClunk::spec_decode(b)->Some_0.0.header.htype is Some,
        RClunk::spec_decode(b)->Some_0.0.wire() == le_bytes_u32(7) + b.take(3),
{
    lemma_header_inverse(b);
}

/// Where the fields of a composed Rclunk stand: the size 7 in bytes 0..4, the type number at
/// 4 and the tag in 5..7, little-endian; a parsed Rclunk holds the type number at 0 and the
/// tag in 1..3 of the bytes after its size field.
pub proof fn lemma_rclunk_layout(m: RClunk, b: Seq<u8>)
    requires
        m.header.htype is Some,
    ensures
        m.wire().len() == 7,
        le_u32_of(m.wire()) == 7,
        m.wire()[4] == m.header.htype->Some_0.spec_code(),
        le_u16_of(m.wire().skip(5)) == m.header.htag,
        RClunk::spec_decode(b) is Some <==> (b.len() >= 3 && 100 <= b[0] <= 127),
        RClunk::spec_decode(b) matches Some((d, n)) ==> {
            &&& d.header.htype == Some(header_type_of(b[0]))
            &&& d.header.htag == le_u16_of(b.skip(1))
            &&& n == 3
        },
{
    let w = m.wire();
    lemma_rclunk_roundtrip(m, Seq::empty());
    lemma_le_u16_roundtrip(m.header.htag, Seq::empty());
    assert(w.skip(5) =~= le_bytes_u16(m.header.htag) + Seq::<u8>::empty());
}

impl Fcall for RClunk {
    open spec fn tag_defined(&self) -> bool {
        true
    }

    open spec fn spec_tag(&self) -> u16 {
        self.header.htag
    }

    open spec fn spec_set_header(before: RClunk, header: Header) -> RClunk {
        RClunk { header }
    }

    open spec fn compose_defined(&self) -> bool {
        self.header.htype is Some
    }

    open spec fn spec_compose(&self) -> Seq<u8> {
        self.wire()
    }

    open spec fn parse_defined(buf: Seq<u8>) -> bool {
        RClunk::spec_decode(buf) is Some
    }

    open spec fn spec_parse(before: RClunk, buf: Seq<u8>) -> (RClunk, int) {
        RClunk::spec_decode(buf)->Some_0
    }

    fn set_header(&mut self, header: Header) {
        self.header = header;
    }

    fn get_tag(&self) -> u16 {
        self.header.htag
    }

    fn compose(&self) -> Option<Vec<u8>> {
        let length: usize = 4 + 1 + 2;
        let mut buffer: Vec<u8> = Vec::with_capacity(length);
        push_le_u32(&mut buffer, length as u32);
        buffer.push(self.header.htype.unwrap().code());
        push_le_u16(&mut buffer, self.header.htag);
        assert(buffer@ =~= self.wire());
        Some(buffer)
    }

    fn parse(&mut self, buf: &mut &[u8]) {
        match RClunk::decode(buf) {
            Some(m) => {
                *self = m;
            },
            None => {},
        }
    }
}

} // verus!
