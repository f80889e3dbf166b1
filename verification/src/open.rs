//! Topen and Ropen: preparing a fid for I/O.
use crate::fcall::Fcall;
use crate::header::{header_type_of, lemma_header_inverse, lemma_header_roundtrip, Header};
use crate::qid::{lemma_qid_inverse, lemma_qid_layout, lemma_qid_roundtrip, Qid};
use crate::wire::{
    le_bytes_u16, le_bytes_u32, le_bytes_u64, le_u16_of, le_u32_of, le_u64_of, lemma_le_u16_roundtrip,
    lemma_le_u32_inverse, lemma_le_u32_roundtrip, lemma_le_u64_roundtrip, push_le_u16, push_le_u32,
    read_le_u32, read_le_u8,
};
use vstd::prelude::*;
use vstd::string::StringExecFns;

verus! {

/// The ways of opening a file, with their numbers on the wire.
#[derive(Debug, Copy, Clone, PartialEq, Eq)]
pub enum Mode {
    Oread,
    Owrite,
    Ordwr,
    Oexec,
    Onone,
    Otrunc,
    Orclose,
}

/// The I/O unit that a server may offer.
pub const IOUNIT: u32 = 16384;

impl Default for Mode {
    fn default() -> (r: Self)
        ensures
            r == Mode::Oread,
    {
        Mode::Oread
    }
}

impl Mode {
    /// The mode's number on the wire: 0 to 4 in order, then 0x10 and 0x40.
    pub open spec fn spec_code(self) -> u8 {
        match self {
            Mode::Oread => 0,
            Mode::Owrite => 1,
            Mode::Ordwr => 2,
            Mode::Oexec => 3,
            Mode::Onone => 4,
            Mode::Otrunc => 0x10,
            Mode::Orclose => 0x40,
        }
    }

    /// Whether `v` numbers a mode.
    pub open spec fn is_code(v: u8) -> bool {
        v <= 4 || v == 0x10 || v == 0x40
    }

    /// The mode's number on the wire.
    pub fn code(&self) -> (r: u8)
        ensures
            r == self.spec_code(),
    {
        match self {
            Mode::Oread => 0,
            Mode::Owrite => 1,
            Mode::Ordwr => 2,
            Mode::Oexec => 3,
            Mode::Onone => 4,
            Mode::Otrunc => 0x10,
            Mode::Orclose => 0x40,
        }
    }

    /// The text of the error for a number that names no mode.
    pub open spec fn unsupported_text() -> Seq<char> {
        "Protocol Error: UnSupported mode value"@
    }

    /// The mode numbered `val`; an error when `val` names none.
    pub fn try_from(val: u8) -> (r: Result<Mode, String>)
        ensures
            r is Ok <==> Mode::is_code(val),
            r matches Ok(m) ==> m.spec_code() == val,
            r matches Err(e) ==> e@ == Mode::unsupported_text(),
    {
        match val {
            0 => Ok(Mode::Oread),
            1 => Ok(Mode::Owrite),
            2 => Ok(Mode::Ordwr),
            3 => Ok(Mode::Oexec),
            4 => Ok(Mode::Onone),
            0x10 => Ok(Mode::Otrunc),
            0x40 => Ok(Mode::Orclose),
            _ => Err(String::from_str("Protocol Error: UnSupported mode value")),
        }
    }
}

/// The mode numbered `v`, for `v` that numbers one.
pub open spec fn mode_of(v: u8) -> Mode {
    choose|m: Mode| m.spec_code() == v
}

/// Each mode is the one its number names: numbers are distinct, and each is a mode number.
pub proof fn lemma_mode_of(m: Mode)
    ensures
        Mode::is_code(m.spec_code()),
        mode_of(m.spec_code()) == m,
{
    let u = mode_of(m.spec_code());
    assert(u.spec_code() == m.spec_code());
}

/// Every mode number names the mode that `mode_of` gives.
pub proof fn lemma_mode_code(v: u8)
    requires
        Mode::is_code(v),
    ensures
        mode_of(v).spec_code() == v,
{
    if v == 0 {
        assert(Mode::Oread.spec_code() == v);
    } else if v == 1 {
        assert(Mode::Owrite.spec_code() == v);
    } else if v == 2 {
        assert(Mode::Ordwr.spec_code() == v);
    } else if v == 3 {
        assert(Mode::Oexec.spec_code() == v);
    } else if v == 4 {
        assert(Mode::Onone.spec_code() == v);
    } else if v == 0x10 {
        assert(Mode::Otrunc.spec_code() == v);
    } else {
        assert(Mode::Orclose.spec_code() == v);
    }
}

/// Topen: open `fid` in `mode`.
pub struct TOpen {
    pub header: Header,
    pub fid: u32,
    pub mode: Mode,
}

impl View for TOpen {
    type V = TOpen;

    open spec fn view(&self) -> TOpen {
        *self
    }
}

impl Default for TOpen {
    fn default() -> (r: Self)
        ensures
            r == TOpen::spec_default(),
    {
        TOpen { header: Header::default(), fid: 0, mode: Mode::default() }
    }
}

impl TOpen {
    /// A fresh Topen: default header, fid 0, read mode.
    pub open spec fn spec_default() -> TOpen {
        TOpen { header: Header::spec_default(), fid: 0, mode: Mode::Oread }
    }

    /// The composed message: size 12, type, tag, fid, mode number.
    pub open spec fn wire(self) -> Seq<u8> {
        le_bytes_u32(12) + self.header.wire() + le_bytes_u32(self.fid) + seq![
            self.mode.spec_code(),
        ]
    }

    /// The message after its size field: header, fid, mode; it takes 8 bytes. `None` when
    /// the header is invalid, the bytes run out, or the mode byte numbers no mode.
    pub open spec fn spec_decode(b: Seq<u8>) -> Option<(TOpen, int)> {
        match Header::spec_decode(b) {
            None => None,
            Some((h, _)) => if b.len() < 8 || !Mode::is_code(b[7]) {
                None
            } else {
                Some((TOpen { header: h, fid: le_u32_of(b.skip(3)), mode: mode_of(b[7]) }, 8))
            },
        }
    }

    /// Reads a Topen (after its size field) from the front of `buf`.
    pub fn decode(buf: &mut &[u8]) -> (r: Option<TOpen>)
        ensures
            r is Some <==> TOpen::spec_decode(old(buf)@) is Some,
            r matches Some(m) ==> m == TOpen::spec_decode(old(buf)@)->Some_0.0
                && final(buf)@ == old(buf)@.skip(8),
    {
        let ghost start = buf@;
        let header = match Header::decode(buf) {
            Some(h) => h,
            None => return None,
        };
        if buf.len() < 5 {
            return None;
        }
        let fid = read_le_u32(buf);
        let m = read_le_u8(buf);
        assert(start.skip(3).skip(4) =~= start.skip(7));
        assert(start.skip(7).skip(1) =~= start.skip(8));
        match Mode::try_from(m) {
            Ok(mode) => {
                proof {
                    lemma_mode_of(mode);
                }
                Some(TOpen { header, fid, mode })
            },
            Err(_) => None,
        }
    }
}

/// Composing a Topen and parsing it back (after its size field) gives the same message, and
/// its size field states its length.
pub proof fn lemma_open_roundtrip(m: TOpen, rest: Seq<u8>)
    requires
        m.header.htype is Some,
    ensures
        m.wire().len() == 12,
        le_u32_of(m.wire()) == 12,
        TOpen::spec_decode(m.wire().skip(4) + rest) == Some((m, 8int)),
{
    let tail = seq![m.mode.spec_code()] + rest;
    let b = m.wire().skip(4) + rest;
    lemma_le_u32_roundtrip(12, m.wire().skip(4));
    lemma_le_u32_roundtrip(m.fid, tail);
    lemma_header_roundtrip(m.header, le_bytes_u32(m.fid) + tail);
    lemma_mode_of(m.mode);
    assert(m.wire() =~= le_bytes_u32(12) + m.wire().skip(4));
    assert(b =~= m.header.wire() + (le_bytes_u32(m.fid) + tail));
    assert(b.skip(3) =~= le_bytes_u32(m.fid) + tail);
    assert(b[7] == m.mode.spec_code());
}

/// Composing a parsed Topen gives back its size and the bytes it was parsed from.
pub proof fn lemma_open_inverse(b: Seq<u8>)
    requires
        TOpen::spec_decode(b) is Some,
    ensures
        TOpen::spec_decode(b)->Some_0.0.header.htype is Some,
        TOpen::spec_decode(b)->Some_0.0.wire() == le_bytes_u32(12) + b.take(8),
{
    lemma_header_inverse(b);
    lemma_le_u32_inverse(b.skip(3));
    lemma_mode_code(b[7]);
    assert(TOpen::spec_decode(b)->Some_0.0.wire() =~= le_bytes_u32(12) + b.take(8));
}

/// Where the fields of a composed Topen stand: the size 12 in bytes 0..4, the type number at
/// 4, the tag in 5..7, `fid` in 7..11, each little-endian, and the mode's number at 11.
pub proof fn lemma_open_layout(m: TOpen)
    requires
        m.header.htype is Some,
    ensures
        m.wire().len() == 12,
        le_u32_of(m.wire()) == 12,
        m.wire()[4] == m.header.htype->Some_0.spec_code(),
        le_u16_of(m.wire().skip(5)) == m.header.htag,
        le_u32_of(m.wire().skip(7)) == m.fid,
        m.wire()[11] == m.mode.spec_code(),
{
    let w = m.wire();
    let t = seq![m.mode.spec_code()];
    lemma_le_u32_roundtrip(12, w.skip(4));
    lemma_le_u16_roundtrip(m.header.htag, le_bytes_u32(m.fid) + t);
    lemma_le_u32_roundtrip(m.fid, t);
    assert(w =~= le_bytes_u32(12) + w.skip(4));
    assert(w.skip(5) =~= le_bytes_u16(m.header.htag) + (le_bytes_u32(m.fid) + t));
    assert(w.skip(7) =~= le_bytes_u32(m.fid) + t);
}

/// What a parsed Topen holds, by offset into the bytes after its size field: the type number
/// at 0, the tag in 1..3, `fid` in 3..7, little-endian, and the mode's number at 7. Parsing
/// succeeds exactly when there are 8 bytes, the type number is one of 9P's and the mode
/// number is one of the modes'.
pub proof fn lemma_open_decode_layout(b: Seq<u8>)
    ensures
        TOpen::spec_decode(b) is Some <==> (b.len() >= 8 && 100 <= b[0] <= 127 && Mode::is_code(
            b[7],
        )),
        TOpen::spec_decode(b) matches Some((m, n)) ==> {
            &&& m.header.htype == Some(header_type_of(b[0]))
            &&& m.header.htag == le_u16_of(b.skip(1))
            &&& m.fid == le_u32_of(b.skip(3))
            &&& m.mode == mode_of(b[7])
            &&& m.mode.spec_code() == b[7]
            &&& n == 8
        },
{
    if TOpen::spec_decode(b) is Some {
        lemma_mode_code(b[7]);
    }
}

impl Fcall for TOpen {
    open spec fn tag_defined(&self) -> bool {
        true
    }

    open spec fn spec_tag(&self) -> u16 {
        self.header.htag
    }

    open spec fn spec_set_header(before: TOpen, header: Header) -> TOpen {
        TOpen { header, ..before }
    }

    open spec fn compose_defined(&self) -> bool {
        self.header.htype is Some
    }

    open spec fn spec_compose(&self) -> Seq<u8> {
        self.wire()
    }

    open spec fn parse_defined(buf: Seq<u8>) -> bool {
        TOpen::spec_decode(buf) is Some
    }

    open spec fn spec_parse(before: TOpen, buf: Seq<u8>) -> (TOpen, int) {
        TOpen::spec_decode(buf)->Some_0
    }

    fn set_header(&mut self, header: Header) {
        self.header = header;
    }

    fn get_tag(&self) -> u16 {
        self.header.htag
    }

    fn compose(&self) -> Option<Vec<u8>> {
        let length: usize = 4 + 1 + 2 + 4 + 1;
        let mut buffer: Vec<u8> = Vec::with_capacity(length);
        push_le_u32(&mut buffer, length as u32);
        buffer.push(self.header.htype.unwrap().code());
        push_le_u16(&mut buffer, self.header.htag);
        push_le_u32(&mut buffer, self.fid);
        buffer.push(self.mode.code());
        assert(buffer@ =~= self.wire());
        Some(buffer)
    }

    fn parse(&mut self, buf: &mut &[u8]) {
        match TOpen::decode(buf) {
            Some(m) => {
                *self = m;
            },
            None => {},
        }
    }
}

/// Ropen: the opened file's qid and the largest I/O the server promises in one message.
pub struct ROpen {
    pub header: Header,
    pub qid: Qid,
    pub iounit: u32,
}

impl View for ROpen {
    type V = ROpen;

    open spec fn view(&self) -> ROpen {
        *self
    }
}

impl Default for ROpen {
    fn default() -> (r: Self)
        ensures
            r == ROpen::spec_default(),
    {
        ROpen { header: Header::default(), qid: Qid::default(), iounit: 0 }
    }
}

impl ROpen {
    /// A fresh Ropen: default header, zero qid, iounit 0.
    pub open spec fn spec_default() -> ROpen {
        ROpen { header: Header::spec_default(), qid: Qid::spec_default(), iounit: 0 }
    }

    /// The composed message: size 24, type, tag, qid, iounit.
    pub open spec fn wire(self) -> Seq<u8> {
        le_bytes_u32(24) + self.header.wire() + self.qid.wire() + le_bytes_u32(self.iounit)
    }

    /// The message after its size field: header, qid, iounit; it takes 20 bytes.
    pub open spec fn spec_decode(b: Seq<u8>) -> Option<(ROpen, int)> {
        match Header::spec_decode(b) {
            None => None,
            Some((h, _)) => match Qid::spec_decode(b.skip(3)) {
                None => None,
                Some((q, _)) => if b.len() < 20 {
                    None
                } else {
                    Some((ROpen { header: h, qid: q, iounit: le_u32_of(b.skip(16)) }, 20))
                },
            },
        }
    }

    /// Reads an Ropen (after its size field) from the front of `buf`.
    pub fn decode(buf: &mut &[u8]) -> (r: Option<ROpen>)
        ensures
            r is Some <==> ROpen::spec_decode(old(buf)@) is Some,
            r matches Some(m) ==> m == ROpen::spec_decode(old(buf)@)->Some_0.0
                && final(buf)@ == old(buf)@.skip(20),
    {
        let ghost start = buf@;
        let header = match Header::decode(buf) {
            Some(h) => h,
            None => return None,
        };
        let qid = match Qid::decode(buf) {
            Some(q) => q,
            None => return None,
        };
        assert(start.skip(3).skip(13) =~= start.skip(16));
        if buf.len() < 4 {
            return None;
        }
        let iounit = read_le_u32(buf);
        assert(start.skip(16).skip(4) =~= start.skip(20));
        Some(ROpen { header, qid, iounit })
    }

    /// An Ropen read from `val` (the message after its size field), over a fresh message.
    pub fn from_bytes(val: Vec<u8>) -> (r: ROpen)
        requires
            ROpen::spec_decode(val@) is Some,
        ensures
            r == ROpen::spec_decode(val@)->Some_0.0,
    {
        let mut ret = ROpen::default();
        let b = &mut val.as_slice();
        ret.parse(b);
        ret
    }
}

/// Composing an Ropen and parsing it back (after its size field) gives the same message, and
/// its size field states its length.
pub proof fn lemma_ropen_roundtrip(m: ROpen, rest: Seq<u8>)
    requires
        m.header.htype is Some,
    ensures
        m.wire().len() == 24,
        le_u32_of(m.wire()) == 24,
        ROpen::spec_decode(m.wire().skip(4) + rest) == Some((m, 20int)),
{
    let tail = le_bytes_u32(m.iounit) + rest;
    let b = m.wire().skip(4) + rest;
    lemma_le_u32_roundtrip(24, m.wire().skip(4));
    lemma_le_u32_roundtrip(m.iounit, rest);
    lemma_qid_roundtrip(m.qid, tail);
    lemma_header_roundtrip(m.header, m.qid.wire() + tail);
    assert(m.wire() =~= le_bytes_u32(24) + m.wire().skip(4));
    assert(b =~= m.header.wire() + (m.qid.wire() + tail));
    assert(b.skip(3) =~= m.qid.wire() + tail);
    assert(b.skip(16) =~= tail);
}

/// Composing a parsed Ropen gives back its size and the bytes it was parsed from.
pub proof fn lemma_ropen_inverse(b: Seq<u8>)
    requires
        ROpen::spec_decode(b) is Some,
    ensures
        ROpen::spec_decode(b)->Some_0.0.header.htype is Some,
        ROpen::spec_decode(b)->Some_0.0.wire() == le_bytes_u32(24) + b.take(20),
{
    lemma_header_inverse(b);
    lemma_qid_inverse(b.skip(3));
    lemma_le_u32_inverse(b.skip(16));
    assert(ROpen::spec_decode(b)->Some_0.0.wire() =~= le_bytes_u32(24) + b.take(20));
}

/// Where the fields of a composed Ropen stand: the size 24 in bytes 0..4, the type number at
/// 4, the tag in 5..7, the qid's type at 7, its version in 8..12 and its path number in 12..20,
/// then `iounit` in 20..24, each little-endian.
pub proof fn lemma_ropen_layout(m: ROpen)
    requires
        m.header.htype is Some,
    ensures
        m.wire().len() == 24,
        le_u32_of(m.wire()) == 24,
        m.wire()[4] == m.header.htype->Some_0.spec_code(),
        le_u16_of(m.wire().skip(5)) == m.header.htag,
        m.wire()[7] == m.qid.qtype,
        le_u32_of(m.wire().skip(8)) == m.qid.vers,
        le_u64_of(m.wire().skip(12)) == m.qid.uid,
        le_u32_of(m.wire().skip(20)) == m.iounit,
{
    let w = m.wire();
    let io = le_bytes_u32(m.iounit);
    let t1 = m.qid.wire() + io;
    lemma_qid_layout(m.qid);
    lemma_le_u32_roundtrip(24, w.skip(4));
    lemma_le_u16_roundtrip(m.header.htag, t1);
    lemma_le_u32_roundtrip(m.qid.vers, le_bytes_u64(m.qid.uid) + io);
    lemma_le_u64_roundtrip(m.qid.uid, io);
    lemma_le_u32_roundtrip(m.iounit, Seq::empty());
    assert(w =~= le_bytes_u32(24) + w.skip(4));
    assert(w.skip(5) =~= le_bytes_u16(m.header.htag) + t1);
    assert(w.skip(8) =~= le_bytes_u32(m.qid.vers) + (le_bytes_u64(m.qid.uid) + io));
    assert(w.skip(12) =~= le_bytes_u64(m.qid.uid) + io);
    assert(w.skip(20) =~= io + Seq::<u8>::empty());
}

/// What a parsed Ropen holds, by offset into the bytes after its size field: the type number
/// at 0, the tag in 1..3, the qid's type at 3, its version in 4..8 and its path number in
/// 8..16, then `iounit` in 16..20, each little-endian. Parsing succeeds exactly when there are
/// 20 bytes and the type number is one of 9P's.
pub proof fn lemma_ropen_decode_layout(b: Seq<u8>)
    ensures
        ROpen::spec_decode(b) is Some <==> (b.len() >= 20 && 100 <= b[0] <= 127),
        ROpen::spec_decode(b) matches Some((m, n)) ==> {
            &&& m.header.htype == Some(header_type_of(b[0]))
            &&& m.header.htag == le_u16_of(b.skip(1))
            &&& m.qid.qtype == b[3]
            &&& m.qid.vers == le_u32_of(b.skip(4))
            &&& m.qid.uid == le_u64_of(b.skip(8))
            &&& m.iounit == le_u32_of(b.skip(16))
            &&& n == 20
        },
{
    if b.len() >= 20 {
        assert(b.skip(3).skip(1) =~= b.skip(4));
        assert(b.skip(3).skip(5) =~= b.skip(8));
    }
}

impl Fcall for ROpen {
    open spec fn tag_defined(&self) -> bool {
        true
    }

    open spec fn spec_tag(&self) -> u16 {
        self.header.htag
    }

    open spec fn spec_set_header(before: ROpen, header: Header) -> ROpen {
        ROpen { header, ..before }
    }

    open spec fn compose_defined(&self) -> bool {
        self.header.htype is Some
    }

    open spec fn spec_compose(&self) -> Seq<u8> {
        self.wire()
    }

    open spec fn parse_defined(buf: Seq<u8>) -> bool {
        ROpen::spec_decode(buf) is Some
    }

    open spec fn spec_parse(before: ROpen, buf: Seq<u8>) -> (ROpen, int) {
        ROpen::spec_decode(buf)->Some_0
    }

    fn set_header(&mut self, header: Header) {
        self.header = header;
    }

    fn get_tag(&self) -> u16 {
        self.header.htag
    }

    fn compose(&self) -> Option<Vec<u8>> {
        let length: usize = 4 + 1 + 2 + 13 + 4;
        let mut buffer: Vec<u8> = Vec::with_capacity(length);
        push_le_u32(&mut buffer, length as u32);
        buffer.push(self.header.htype.unwrap().code());
        push_le_u16(&mut buffer, self.header.htag);
        let qid_buf = self.qid.compose().unwrap();
        let mut i: usize = 0;
        while i < qid_buf.len()
            invariant
                qid_buf@ == self.qid.wire(),
                i <= qid_buf@.len(),
                buffer@ =~= le_bytes_u32(24) + self.header.wire() + qid_buf@.take(i as int),
            decreases qid_buf@.len() - i,
        {
            buffer.push(qid_buf[i]);
            i = i + 1;
        }
        assert(qid_buf@.take(qid_buf@.len() as int) =~= qid_buf@);
        push_le_u32(&mut buffer, self.iounit);
        assert(buffer@ =~= self.wire());
        Some(buffer)
    }

    fn parse(&mut self, buf: &mut &[u8]) {
        match ROpen::decode(buf) {
            Some(m) => {
                *self = m;
            },
            None => {},
        }
    }
}

} // verus!
