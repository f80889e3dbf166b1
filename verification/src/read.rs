//! Tread and Rread: reading from an open file.
use crate::fcall::Fcall;
use crate::header::{header_type_of, lemma_header_inverse, lemma_header_roundtrip, Header};
use crate::wire::{
    le_bytes_u16, le_bytes_u32, le_bytes_u64, le_u16_of, le_u32_of, le_u64_of,
    lemma_le_u16_roundtrip, lemma_le_u32_roundtrip,
    lemma_le_u64_roundtrip, lemma_le_u32_inverse, lemma_le_u64_inverse, push_bytes, push_le_u16, push_le_u32, push_le_u64, read_le_u32,
    read_le_u64,
};
use vstd::prelude::*;

verus! {

/// Tread: read `count` bytes at `offset` from the file open on `fid`.
pub struct TRead {
    pub header: Header,
    pub fid: u32,
    pub offset: u64,
    pub count: u32,
}

impl View for TRead {
    type V = TRead;

    open spec fn view(&self) -> TRead {
        *self
    }
}

impl Default for TRead {
    fn default() -> (r: Self)
        ensures
            r == TRead::spec_default(),
    {
        TRead { header: Header::default(), fid: 0, offset: 0, count: 0 }
    }
}

impl TRead {
    /// A fresh Tread: default header, zero fields.
    pub open spec fn spec_default() -> TRead {
        TRead { header: Header::spec_default(), fid: 0, offset: 0, count: 0 }
    }

    /// The composed message: size 23, type, tag, fid, offset, count.
    pub open spec fn wire(self) -> Seq<u8> {
        le_bytes_u32(23) + self.header.wire() + le_bytes_u32(self.fid) + le_bytes_u64(self.offset)
            + le_bytes_u32(self.count)
    }

    /// The message after its size field: header, fid, offset, count; it takes 19 bytes.
    pub open spec fn spec_decode(b: Seq<u8>) -> Option<(TRead, int)> {
        match Header::spec_decode(b) {
            None => None,
            Some((h, _)) => if b.len() < 19 {
                None
            } else {
                Some(
                    (
                        TRead {
                            header: h,
                            fid: le_u32_of(b.skip(3)),
                            offset: le_u64_of(b.skip(7)),
                            count: le_u32_of(b.skip(15)),
                        },
                        19,
                    ),
                )
            },
        }
    }

    /// Reads a Tread (after its size field) from the front of `buf`.
    pub fn decode(buf: &mut &[u8]) -> (r: Option<TRead>)
        ensures
            r is Some <==> TRead::spec_decode(old(buf)@) is Some,
            r matches Some(m) ==> m == TRead::spec_decode(old(buf)@)->Some_0.0
                && final(buf)@ == old(buf)@.skip(19),
    {
        let ghost start = buf@;
        let header = match Header::decode(buf) {
            Some(h) => h,
            None => return None,
        };
        if buf.len() < 16 {
            return None;
        }
        let fid = read_le_u32(buf);
        let offset = read_le_u64(buf);
        let count = read_le_u32(buf);
        assert(start.skip(3).skip(4) =~= start.skip(7));
        assert(start.skip(7).skip(8) =~= start.skip(15));
        assert(start.skip(15).skip(4) =~= start.skip(19));
        Some(TRead { header, fid, offset, count })
    }
}

/// Composing a Tread and parsing it back (after its size field) gives the same message, and
/// its size field states its length.
pub proof fn lemma_read_roundtrip(m: TRead, rest: Seq<u8>)
    requires
        m.header.htype is Some,
    ensures
        m.wire().len() == 23,
        le_u32_of(m.wire()) == 23,
        TRead::spec_decode(m.wire().skip(4) + rest) == Some((m, 19int)),
{
    let t3 = le_bytes_u32(m.count) + rest;
    let t2 = le_bytes_u64(m.offset) + t3;
    let t1 = le_bytes_u32(m.fid) + t2;
    let b = m.wire().skip(4) + rest;
    lemma_le_u32_roundtrip(23, m.wire().skip(4));
    lemma_le_u32_roundtrip(m.count, rest);
    lemma_le_u64_roundtrip(m.offset, t3);
    lemma_le_u32_roundtrip(m.fid, t2);
    lemma_header_roundtrip(m.header, t1);
    assert(m.wire() =~= le_bytes_u32(23) + m.wire().skip(4));
    assert(b =~= m.header.wire() + t1);
    assert(b.skip(3) =~= t1);
    assert(b.skip(7) =~= t2);
    assert(b.skip(15) =~= t3);
}

/// Composing a parsed Tread gives back its size and the bytes it was parsed from.
pub proof fn lemma_read_inverse(b: Seq<u8>)
    requires
        TRead::spec_decode(b) is Some,
    ensures
        TRead::spec_decode(b)->Some_0.0.header.htype is Some,
        TRead::spec_decode(b)->Some_0.0.wire() == le_bytes_u32(23) + b.take(19),
{
    lemma_header_inverse(b);
    lemma_le_u32_inverse(b.skip(3));
    lemma_le_u64_inverse(b.skip(7));
    lemma_le_u32_inverse(b.skip(15));
    assert(TRead::spec_decode(b)->Some_0.0.wire() =~= le_bytes_u32(23) + b.take(19));
}

/// Where the fields of a composed Tread stand: the size 23 in bytes 0..4, the type number at
/// 4, the tag in 5..7, `fid` in 7..11, `offset` in 11..19 and `count` in 19..23, each
/// little-endian.
pub proof fn lemma_read_layout(m: TRead)
    requires
        m.header.htype is Some,
    ensures
        m.wire().len() == 23,
        le_u32_of(m.wire()) == 23,
        m.wire()[4] == m.header.htype->Some_0.spec_code(),
        le_u16_of(m.wire().skip(5)) == m.header.htag,
        le_u32_of(m.wire().skip(7)) == m.fid,
        le_u64_of(m.wire().skip(11)) == m.offset,
        le_u32_of(m.wire().skip(19)) == m.count,
{
    let w = m.wire();
    let t3 = le_bytes_u32(m.count);
    let t2 = le_bytes_u64(m.offset) + t3;
    let t1 = le_bytes_u32(m.fid) + t2;
    lemma_le_u32_roundtrip(23, w.skip(4));
    lemma_le_u16_roundtrip(m.header.htag, t1);
    lemma_le_u32_roundtrip(m.fid, t2);
    lemma_le_u64_roundtrip(m.offset, t3);
    lemma_le_u32_roundtrip(m.count, Seq::empty());
    assert(w =~= le_bytes_u32(23) + w.skip(4));
    assert(w.skip(5) =~= le_bytes_u16(m.header.htag) + t1);
    assert(w.skip(7) =~= t1);
    assert(w.skip(11) =~= t2);
    assert(w.skip(19) =~= t3 + Seq::<u8>::empty());
}

/// What a parsed Tread holds, by offset into the bytes after its size field: the type number
/// at 0, the tag in 1..3, `fid` in 3..7, `offset` in 7..15 and `count` in 15..19, each
/// little-endian. Parsing succeeds exactly when there are 19 bytes and the type number is one
/// of 9P's.
pub proof fn lemma_read_decode_layout(b: Seq<u8>)
    ensures
        TRead::spec_decode(b) is Some <==> (b.len() >= 19 && 100 <= b[0] <= 127),
        TRead::spec_decode(b) matches Some((m, n)) ==> {
            &&& m.header.htype == Some(header_type_of(b[0]))
            &&& m.header.htag == le_u16_of(b.skip(1))
            &&& m.fid == le_u32_of(b.skip(3))
            &&& m.offset == le_u64_of(b.skip(7))
            &&& m.count == le_u32_of(b.skip(15))
            &&& n == 19
        },
{
}

impl Fcall for TRead {
    open spec fn tag_defined(&self) -> bool {
        true
    }

    open spec fn spec_tag(&self) -> u16 {
        self.header.htag
    }

    open spec fn spec_set_header(before: TRead, header: Header) -> TRead {
        TRead { header, ..before }
    }

    open spec fn compose_defined(&self) -> bool {
        self.header.htype is Some
    }

    open spec fn spec_compose(&self) -> Seq<u8> {
        self.wire()
    }

    open spec fn parse_defined(buf: Seq<u8>) -> bool {
        TRead::spec_decode(buf) is Some
    }

    open spec fn spec_parse(before: TRead, buf: Seq<u8>) -> (TRead, int) {
        TRead::spec_decode(buf)->Some_0
    }

    fn set_header(&mut self, header: Header) {
        self.header = header;
    }

    fn get_tag(&self) -> u16 {
        self.header.htag
    }

    fn compose(&self) -> Option<Vec<u8>> {
        let length: usize = 4 + 1 + 2 + 4 + 8 + 4;
        let mut buffer: Vec<u8> = Vec::with_capacity(length);
        push_le_u32(&mut buffer, length as u32);
        buffer.push(self.header.htype.unwrap().code());
        push_le_u16(&mut buffer, self.header.htag);
        push_le_u32(&mut buffer, self.fid);
        push_le_u64(&mut buffer, self.offset);
        push_le_u32(&mut buffer, self.count);
        assert(buffer@ =~= self.wire());
        Some(buffer)
    }

    fn parse(&mut self, buf: &mut &[u8]) {
        match TRead::decode(buf) {
            Some(m) => {
                *self = m;
            },
            None => {},
        }
    }
}

/// Rread: `count` and the bytes read.
pub struct RRead {
    pub header: Header,
    pub count: u32,
    pub data: Vec<u8>,
}

/// An Rread as values.
#[verifier::ext_equal]
pub struct RReadView {
    pub header: Header,
    pub count: u32,
    pub data: Seq<u8>,
}

impl View for RRead {
    type V = RReadView;

    open spec fn view(&self) -> RReadView {
        RReadView { header: self.header, count: self.count, data: self.data@ }
    }
}

impl Default for RRead {
    fn default() -> (r: Self)
        ensures
            r@ == RReadView::spec_default(),
    {
        RRead { header: Header::default(), count: 0, data: Vec::new() }
    }
}

impl RReadView {
    /// A fresh Rread: default header, count 0, no data.
    pub open spec fn spec_default() -> RReadView {
        RReadView { header: Header::spec_default(), count: 0, data: Seq::empty() }
    }

    /// The size that the message states: 4 + 1 + 2 + 4 + `count`, kept to 32 bits (it
    /// wraps past `u32::MAX`).
    pub open spec fn stated_size(self) -> u32 {
        if self.count <= 0xffff_fff4 {
            (self.count + 11) as u32
        } else {
            (self.count + 11 - 0x1_0000_0000) as u32
        }
    }

    /// The composed message: size, type, tag, count, then all of the data.
    pub open spec fn wire(self) -> Seq<u8> {
        le_bytes_u32(self.stated_size()) + self.header.wire() + le_bytes_u32(self.count)
            + self.data
    }
}

impl RRead {
    /// The message after its size field: header, count, and as data everything that follows;
    /// the part it moves past is the header and count, 7 bytes.
    pub open spec fn spec_decode(b: Seq<u8>) -> Option<(RReadView, int)> {
        match Header::spec_decode(b) {
            None => None,
            Some((h, _)) => if b.len() < 7 {
                None
            } else {
                Some((RReadView { header: h, count: le_u32_of(b.skip(3)), data: b.skip(7) }, 7))
            },
        }
    }

    /// Reads an Rread (after its size field) from `buf`, moving `buf` past header and count;
    /// the data is a copy of the rest.
    pub fn decode(buf: &mut &[u8]) -> (r: Option<RRead>)
        ensures
            r is Some <==> RRead::spec_decode(old(buf)@) is Some,
            r matches Some(m) ==> m@ == RRead::spec_decode(old(buf)@)->Some_0.0
                && final(buf)@ == old(buf)@.skip(7),
    {
        let ghost start = buf@;
        let header = match Header::decode(buf) {
            Some(h) => h,
            None => return None,
        };
        if buf.len() < 4 {
            return None;
        }
        let count = read_le_u32(buf);
        assert(start.skip(3).skip(4) =~= start.skip(7));
        let mut data: Vec<u8> = Vec::new();
        push_bytes(&mut data, *buf);
        assert(data@ =~= start.skip(7));
        Some(RRead { header, count, data })
    }

    /// An Rread read from `val` (the message after its size field), over a fresh message.
    pub fn from_bytes(val: Vec<u8>) -> (r: RRead)
        requires
            RRead::spec_decode(val@) is Some,
        ensures
            r@ == RRead::spec_decode(val@)->Some_0.0,
    {
        let mut ret = RRead::default();
        let b = &mut val.as_slice();
        ret.parse(b);
        ret
    }
}

/// Composing an Rread and parsing it back (after its size field, with nothing after it)
/// gives the same message.
pub proof fn lemma_rread_roundtrip(m: RReadView)
    requires
        m.header.htype is Some,
    ensures
        m.wire().len() == 11 + m.data.len(),
        le_u32_of(m.wire()) == m.stated_size(),
        RRead::spec_decode(m.wire().skip(4)) == Some((m, 7int)),
{
    let t = le_bytes_u32(m.count) + m.data;
    let b = m.wire().skip(4);
    lemma_le_u32_roundtrip(m.stated_size(), b);
    lemma_le_u32_roundtrip(m.count, m.data);
    lemma_header_roundtrip(m.header, t);
    assert(m.wire() =~= le_bytes_u32(m.stated_size()) + b);
    assert(b =~= m.header.wire() + t);
    assert(b.skip(3) =~= t);
    assert(b.skip(7) =~= m.data);
}

/// When the data is `count` bytes and the total stays within 32 bits, the size field of a
/// composed Rread states its length.
pub proof fn lemma_rread_size(m: RReadView)
    requires
        m.data.len() == m.count,
        m.count + 11 <= 0xffff_ffff,
    ensures
        m.stated_size() == m.wire().len(),
{
}

/// Composing a parsed Rread gives back its stated size and all the bytes it was parsed from.
pub proof fn lemma_rread_inverse(b: Seq<u8>)
    requires
        RRead::spec_decode(b) is Some,
    ensures
        RRead::spec_decode(b)->Some_0.0.header.htype is Some,
        RRead::spec_decode(b)->Some_0.0.wire() == le_bytes_u32(
            RRead::spec_decode(b)->Some_0.0.stated_size(),
        ) + b,
{
    lemma_header_inverse(b);
    lemma_le_u32_inverse(b.skip(3));
    let m = RRead::spec_decode(b)->Some_0.0;
    assert(m.wire() =~= le_bytes_u32(m.stated_size()) + b);
}

/// Where the fields of a composed Rread stand: the stated size in bytes 0..4, the type
/// number at 4, the tag in 5..7, `count` in 7..11, each little-endian, and the data from byte
/// 11 to the end.
pub proof fn lemma_rread_layout(m: RReadView)
    requires
        m.header.htype is Some,
    ensures
        m.wire().len() == 11 + m.data.len(),
        le_u32_of(m.wire()) == m.stated_size(),
        m.wire()[4] == m.header.htype->Some_0.spec_code(),
        le_u16_of(m.wire().skip(5)) == m.header.htag,
        le_u32_of(m.wire().skip(7)) == m.count,
        m.wire().skip(11) == m.data,
{
    let w = m.wire();
    let t1 = le_bytes_u32(m.count) + m.data;
    lemma_le_u32_roundtrip(m.stated_size(), w.skip(4));
    lemma_le_u16_roundtrip(m.header.htag, t1);
    lemma_le_u32_roundtrip(m.count, m.data);
    assert(w =~= le_bytes_u32(m.stated_size()) + w.skip(4));
    assert(w.skip(5) =~= le_bytes_u16(m.header.htag) + t1);
    assert(w.skip(7) =~= t1);
    assert(w.skip(11) =~= m.data);
}

/// What a parsed Rread holds, by offset into the bytes after its size field: the type number
/// at 0, the tag in 1..3, `count` in 3..7, little-endian, and as data all that follows.
/// Parsing succeeds exactly when there are 7 bytes and the type number is one of 9P's.
pub proof fn lemma_rread_decode_layout(b: Seq<u8>)
    ensures
        RRead::spec_decode(b) is Some <==> (b.len() >= 7 && 100 <= b[0] <= 127),
        RRead::spec_decode(b) matches Some((m, n)) ==> {
            &&& m.header.htype == Some(header_type_of(b[0]))
            &&& m.header.htag == le_u16_of(b.skip(1))
            &&& m.count == le_u32_of(b.skip(3))
            &&& m.data == b.skip(7)
            &&& n == 7
        },
{
}

impl Fcall for RRead {
    open spec fn tag_defined(&self) -> bool {
        true
    }

    open spec fn spec_tag(&self) -> u16 {
        self.header.htag
    }

    open spec fn spec_set_header(before: RReadView, header: Header) -> RReadView {
        RReadView { header, ..before }
    }

    open spec fn compose_defined(&self) -> bool {
        self.header.htype is Some
    }

    open spec fn spec_compose(&self) -> Seq<u8> {
        self@.wire()
    }

    open spec fn parse_defined(buf: Seq<u8>) -> bool {
        RRead::spec_decode(buf) is Some
    }

    open spec fn spec_parse(before: RReadView, buf: Seq<u8>) -> (RReadView, int) {
        RRead::spec_decode(buf)->Some_0
    }

    fn set_header(&mut self, header: Header) {
        self.header = header;
    }

    fn get_tag(&self) -> u16 {
        self.header.htag
    }

    fn compose(&self) -> Option<Vec<u8>> {
        let length: u32 = if self.count <= 0xffff_fff4 {
            self.count + 11
        } else {
            self.count - 0xffff_fff5
        };
        let mut buffer: Vec<u8> = Vec::new();
        push_le_u32(&mut buffer, length);
        buffer.push(self.header.htype.unwrap().code());
        push_le_u16(&mut buffer, self.header.htag);
        push_le_u32(&mut buffer, self.count);
        push_bytes(&mut buffer, self.data.as_slice());
        assert(buffer@ =~= self@.wire());
        Some(buffer)
    }

    fn parse(&mut self, buf: &mut &[u8]) {
        match RRead::decode(buf) {
            Some(m) => {
                *self = m;
            },
            None => {},
        }
    }
}

} // verus!
