//! Tattach and Rattach: a user's connection to a file tree.
use crate::fcall::Fcall;
use crate::header::{header_type_of, lemma_header_inverse, lemma_header_roundtrip, Header};
use crate::qid::{lemma_qid_layout, lemma_qid_roundtrip, Qid};
use crate::wire::{
    le_bytes_u16, le_bytes_u32, le_u16_of, le_u32_of, le_u64_of, lemma_le_u16_roundtrip, lemma_le_u32_inverse, lemma_le_u32_roundtrip, lemma_read_string_len,
    lemma_string_inverse, lemma_string_roundtrip, push_le_u16,
    push_le_u32, push_string, read_le_u32, read_string, spec_read_string, string_bytes,
    string_fits, utf8_len,
};
use vstd::prelude::*;
use vstd::utf8::encode_utf8;

verus! {

/// Tattach: attach `fid` to the root of the tree `aname` as user `uname`, authenticated
/// through `afid`.
pub struct TAttach {
    pub header: Header,
    pub fid: u32,
    pub afid: u32,
    pub uname: String,
    pub aname: String,
}

/// A Tattach as values.
#[verifier::ext_equal]
pub struct TAttachView {
    pub header: Header,
    pub fid: u32,
    pub afid: u32,
    pub uname: Seq<char>,
    pub aname: Seq<char>,
}

impl View for TAttach {
    type V = TAttachView;

    open spec fn view(&self) -> TAttachView {
        TAttachView {
            header: self.header,
            fid: self.fid,
            afid: self.afid,
            uname: self.uname@,
            aname: self.aname@,
        }
    }
}

impl Default for TAttach {
    fn default() -> (r: Self)
        ensures
            r@ == TAttachView::spec_default(),
    {
        TAttach {
            header: Header::default(),
            fid: 0,
            afid: 0,
            uname: String::new(),
            aname: String::new(),
        }
    }
}

impl TAttachView {
    /// A fresh Tattach: default header, zero fids, empty names.
    pub open spec fn spec_default() -> TAttachView {
        TAttachView {
            header: Header::spec_default(),
            fid: 0,
            afid: 0,
            uname: Seq::empty(),
            aname: Seq::empty(),
        }
    }

    /// The message can be composed: its type is known and both names fit 9P strings.
    pub open spec fn composable(self) -> bool {
        self.header.htype is Some && string_fits(self.uname) && string_fits(self.aname)
    }

    /// The size that the message states: 4 + 1 + 2 + 4 + 4, then 2 + the byte count of each
    /// name.
    pub open spec fn stated_size(self) -> int {
        19 + encode_utf8(self.uname).len() as int + encode_utf8(self.aname).len() as int
    }

    /// The composed message: size, type, tag, fid, afid, uname, aname.
    #[verifier::opaque]
    pub open spec fn wire(self) -> Seq<u8> {
        le_bytes_u32(self.stated_size() as u32) + self.header.wire() + le_bytes_u32(self.fid)
            + le_bytes_u32(self.afid) + string_bytes(self.uname) + string_bytes(self.aname)
    }
}

impl TAttach {
    /// The Tattach fields that follow the header at the front of `b`: fid, afid, uname,
    /// aname; with the number of bytes they take. The header of the result is the default.
    /// `None` when the bytes run out or a name is not UTF-8.
    pub open spec fn spec_decode_body(b: Seq<u8>) -> Option<(TAttachView, int)> {
        if b.len() < 8 {
            None
        } else {
            match spec_read_string(b.skip(8)) {
                None => None,
                Some((u, n)) => match spec_read_string(b.skip(8 + n)) {
                    None => None,
                    Some((a, k)) => Some(
                        (
                            TAttachView {
                                header: Header::spec_default(),
                                fid: le_u32_of(b),
                                afid: le_u32_of(b.skip(4)),
                                uname: u,
                                aname: a,
                            },
                            8 + n + k,
                        ),
                    ),
                },
            }
        }
    }

    /// The message after its size field: header, then fid, afid, uname, aname; with the
    /// number of bytes it takes. `None` when the header is invalid, the bytes run out, or a
    /// name is not UTF-8.
    pub open spec fn spec_decode(b: Seq<u8>) -> Option<(TAttachView, int)> {
        match Header::spec_decode(b) {
            None => None,
            Some((h, _)) => match TAttach::spec_decode_body(b.skip(3)) {
                None => None,
                Some((m, n)) => Some((TAttachView { header: h, ..m }, 3 + n)),
            },
        }
    }

    /// Reads a Tattach (after its size field) from the front of `buf`.
    pub fn decode(buf: &mut &[u8]) -> (r: Option<TAttach>)
        ensures
            r is Some <==> TAttach::spec_decode(old(buf)@) is Some,
            r matches Some(m) ==> m@ == TAttach::spec_decode(old(buf)@)->Some_0.0
                && final(buf)@ == old(buf)@.skip(TAttach::spec_decode(old(buf)@)->Some_0.1),
    {
        let ghost start = buf@;
        let header = match Header::decode(buf) {
            Some(h) => h,
            None => return None,
        };
        match TAttach::decode_body(buf) {
            Some(mut m) => {
                let ghost n = TAttach::spec_decode_body(start.skip(3))->Some_0.1;
                assert(start.skip(3).skip(n) =~= start.skip(3 + n));
                m.header = header;
                Some(m)
            },
            None => None,
        }
    }

    /// Reads the Tattach fields that follow the header; the header is the default.
    fn decode_body(buf: &mut &[u8]) -> (r: Option<TAttach>)
        ensures
            r is Some <==> TAttach::spec_decode_body(old(buf)@) is Some,
            r matches Some(m) ==> m@ == TAttach::spec_decode_body(old(buf)@)->Some_0.0
                && 0 <= TAttach::spec_decode_body(old(buf)@)->Some_0.1 <= old(buf)@.len()
                && final(buf)@ == old(buf)@.skip(TAttach::spec_decode_body(old(buf)@)->Some_0.1),
    {
        let ghost start = buf@;
        if buf.len() < 8 {
            return None;
        }
        let fid = read_le_u32(buf);
        let afid = read_le_u32(buf);
        assert(start.skip(4).skip(4) =~= start.skip(8));
        let ghost mid = buf@;
        let uname = match read_string(buf) {
            Some(s) => s,
            None => return None,
        };
        let ghost n = spec_read_string(mid)->Some_0.1;
        assert(buf@ =~= start.skip(8 + n));
        let ghost mid2 = buf@;
        let aname = match read_string(buf) {
            Some(s) => s,
            None => return None,
        };
        assert(buf@ =~= start.skip(8 + n + spec_read_string(mid2)->Some_0.1));
        proof {
            crate::wire::lemma_read_string_len(mid);
            crate::wire::lemma_read_string_len(mid2);
        }
        Some(TAttach { header: Header::default(), fid, afid, uname, aname })
    }

    /// A Tattach read from `val` (the message after its size field), over a fresh message.
    pub fn from_bytes(val: Vec<u8>) -> (r: TAttach)
        requires
            TAttach::spec_decode(val@) is Some,
        ensures
            r@ == TAttach::spec_decode(val@)->Some_0.0,
    {
        let mut ret = TAttach::default();
        let b = &mut val.as_slice();
        ret.parse(b);
        ret
    }
}

/// A composed Tattach's size field states its length.
proof fn lemma_attach_size(m: TAttachView)
    requires
        m.composable(),
    ensures
        m.wire().len() == m.stated_size(),
        le_u32_of(m.wire()) == m.wire().len(),
{
    reveal(TAttachView::wire);
    let size = m.stated_size() as u32;
    lemma_string_roundtrip(m.uname, Seq::empty());
    lemma_string_roundtrip(m.aname, Seq::empty());
    lemma_le_u32_roundtrip(size, m.wire().skip(4));
    assert(m.wire() =~= le_bytes_u32(size) + m.wire().skip(4));
}

/// The fields after the header of a composed Tattach read back as its fields.
proof fn lemma_attach_body_roundtrip(m: TAttachView, rest: Seq<u8>)
    requires
        m.composable(),
    ensures
        m.wire().len() == m.stated_size(),
        le_u32_of(m.wire()) == m.wire().len(),
        TAttach::spec_decode_body(m.wire().skip(7) + rest) == Some(
            (TAttachView { header: Header::spec_default(), ..m }, m.wire().len() - 7),
        ),
{
    reveal(TAttachView::wire);
    let su = string_bytes(m.uname);
    let sa = string_bytes(m.aname);
    let body = le_bytes_u32(m.fid) + le_bytes_u32(m.afid) + su + sa;
    lemma_attach_size(m);
    assert(m.wire().skip(7) =~= body);
    let b = body + rest;
    assert(le_u32_of(b) == m.fid && le_u32_of(b.skip(4)) == m.afid) by {
        lemma_le_u32_roundtrip(m.fid, le_bytes_u32(m.afid) + su + sa + rest);
        lemma_le_u32_roundtrip(m.afid, su + sa + rest);
        assert(b =~= le_bytes_u32(m.fid) + (le_bytes_u32(m.afid) + su + sa + rest));
        assert(b.skip(4) =~= le_bytes_u32(m.afid) + (su + sa + rest));
    }
    assert(spec_read_string(b.skip(8)) == Some((m.uname, su.len() as int))) by {
        lemma_string_roundtrip(m.uname, sa + rest);
        assert(b.skip(8) =~= su + (sa + rest));
    }
    assert(spec_read_string(b.skip(8 + su.len() as int)) == Some((m.aname, sa.len() as int))) by {
        lemma_string_roundtrip(m.aname, rest);
        assert(b.skip(8 + su.len() as int) =~= sa + rest);
    }
    assert(b.len() >= 8);
    let expected = TAttachView { header: Header::spec_default(), ..m };
    assert(TAttach::spec_decode_body(b) == Some((expected, 8 + su.len() as int + sa.len() as int)));
}

/// Composing a Tattach and parsing it back (after its size field) gives the same message, and
/// its size field states its length.
pub proof fn lemma_attach_roundtrip(m: TAttachView, rest: Seq<u8>)
    requires
        m.composable(),
    ensures
        m.wire().len() == m.stated_size(),
        le_u32_of(m.wire()) == m.wire().len(),
        TAttach::spec_decode(m.wire().skip(4) + rest) == Some((m, m.wire().len() - 4)),
{
    reveal(TAttachView::wire);
    lemma_attach_body_roundtrip(m, rest);
    let b = m.wire().skip(4) + rest;
    lemma_header_roundtrip(m.header, m.wire().skip(7) + rest);
    assert(b =~= m.header.wire() + (m.wire().skip(7) + rest));
    assert(b.skip(3) =~= m.wire().skip(7) + rest);
    let d = TAttach::spec_decode_body(b.skip(3))->Some_0.0;
    assert(TAttachView { header: m.header, ..d } =~= m);
}

/// Composing parsed Tattach fields under a typed header gives back the size, the header, and
/// the bytes they were parsed from.
proof fn lemma_attach_body_inverse(b: Seq<u8>, h: Header, d: TAttachView, n: int)
    requires
        TAttach::spec_decode_body(b) == Some((d, n)),
        h.htype is Some,
    ensures
        0 <= n <= b.len(),
        (TAttachView { header: h, ..d }).composable(),
        (TAttachView { header: h, ..d }).wire() == le_bytes_u32(
            (TAttachView { header: h, ..d }).stated_size() as u32,
        ) + h.wire() + b.take(n),
{
    reveal(TAttachView::wire);
    let m = TAttachView { header: h, ..d };
    let k = spec_read_string(b.skip(8))->Some_0.1;
    lemma_le_u32_inverse(b);
    lemma_le_u32_inverse(b.skip(4));
    lemma_string_inverse(b.skip(8));
    lemma_read_string_len(b.skip(8));
    lemma_string_inverse(b.skip(8 + k));
    lemma_read_string_len(b.skip(8 + k));
    assert(b.take(n) =~= b.take(4) + b.skip(4).take(4) + b.skip(8).take(k) + b.skip(8 + k).take(
        n - 8 - k,
    ));
    assert(m.wire() =~= le_bytes_u32(m.stated_size() as u32) + h.wire() + b.take(n));
}

/// The bytes of a Tattach put together from a parsed header and parsed fields.
proof fn lemma_attach_parts_inverse(b: Seq<u8>, h: Header, d: TAttachView, n: int)
    requires
        Header::spec_decode(b) == Some((h, 3int)),
        TAttach::spec_decode_body(b.skip(3)) == Some((d, n)),
        b.len() >= 3,
    ensures
        (TAttachView { header: h, ..d }).composable(),
        (TAttachView { header: h, ..d }).wire() == le_bytes_u32(
            (TAttachView { header: h, ..d }).stated_size() as u32,
        ) + b.take(3 + n),
{
    let bs = b.skip(3);
    let m = TAttachView { header: h, ..d };
    lemma_header_inverse(b);
    lemma_attach_body_inverse(bs, h, d, n);
    let w = le_bytes_u32(m.stated_size() as u32);
    let x = b.take(3);
    let y = bs.take(n);
    assert(b.take(3 + n) =~= x + y);
    assert(w + x + y =~= w + (x + y));
}

/// Composing a parsed Tattach gives back its size and the bytes it was parsed from.
pub proof fn lemma_attach_inverse(b: Seq<u8>)
    requires
        TAttach::spec_decode(b) is Some,
    ensures
        TAttach::spec_decode(b)->Some_0.0.composable(),
        TAttach::spec_decode(b)->Some_0.0.wire() == le_bytes_u32(
            TAttach::spec_decode(b)->Some_0.0.stated_size() as u32,
        ) + b.take(TAttach::spec_decode(b)->Some_0.1),
{
    let h = Header::spec_decode(b)->Some_0.0;
    let (d, n) = TAttach::spec_decode_body(b.skip(3))->Some_0;
    lemma_attach_parts_inverse(b, h, d, n);
}

/// Where the fields of a composed Tattach stand: the size in bytes 0..4, the type number at 4,
/// the tag in 5..7, `fid` in 7..11, `afid` in 11..15, each little-endian, then `uname` and
/// `aname` as 9P strings, which end the message.
pub proof fn lemma_attach_layout(m: TAttachView)
    requires
        m.composable(),
    ensures
        m.wire().len() == m.stated_size(),
        le_u32_of(m.wire()) == m.stated_size(),
        m.wire()[4] == m.header.htype->Some_0.spec_code(),
        le_u16_of(m.wire().skip(5)) == m.header.htag,
        le_u32_of(m.wire().skip(7)) == m.fid,
        le_u32_of(m.wire().skip(11)) == m.afid,
        spec_read_string(m.wire().skip(15)) == Some(
            (m.uname, 2 + encode_utf8(m.uname).len() as int),
        ),
        spec_read_string(m.wire().skip(17 + encode_utf8(m.uname).len() as int)) == Some(
            (m.aname, 2 + encode_utf8(m.aname).len() as int),
        ),
{
    reveal(TAttachView::wire);
    let su = string_bytes(m.uname);
    let sa = string_bytes(m.aname);
    let t2 = le_bytes_u32(m.afid) + su + sa;
    let t1 = le_bytes_u32(m.fid) + t2;
    let w = m.wire();
    lemma_attach_size(m);
    lemma_string_roundtrip(m.uname, sa);
    lemma_string_roundtrip(m.aname, Seq::empty());
    assert(w.skip(5) =~= le_bytes_u16(m.header.htag) + t1);
    assert(w.skip(7) =~= le_bytes_u32(m.fid) + t2);
    assert(w.skip(11) =~= le_bytes_u32(m.afid) + (su + sa));
    assert(w.skip(15) =~= su + sa);
    assert(w.skip(17 + encode_utf8(m.uname).len() as int) =~= sa + Seq::<u8>::empty());
    lemma_le_u16_roundtrip(m.header.htag, t1);
    lemma_le_u32_roundtrip(m.fid, t2);
    lemma_le_u32_roundtrip(m.afid, su + sa);
}

/// What a parsed Tattach holds, by offset into the bytes after its size field: the type
/// number at 0, the tag in 1..3, `fid` in 3..7, `afid` in 7..11, each little-endian, then
/// `uname` and `aname` as 9P strings. Parsing succeeds exactly when there are 11 bytes, the
/// type number is one of 9P's, and both strings can be read.
pub proof fn lemma_attach_decode_layout(b: Seq<u8>)
    ensures
        TAttach::spec_decode(b) is Some <==> (b.len() >= 11 && 100 <= b[0] <= 127
            && spec_read_string(b.skip(11)) is Some
            && spec_read_string(b.skip(11 + spec_read_string(b.skip(11))->Some_0.1)) is Some),
        TAttach::spec_decode(b) matches Some((m, n)) ==> {
            let u = spec_read_string(b.skip(11))->Some_0;
            let a = spec_read_string(b.skip(11 + u.1))->Some_0;
            &&& m.header.htype == Some(header_type_of(b[0]))
            &&& m.header.htag == le_u16_of(b.skip(1))
            &&& m.fid == le_u32_of(b.skip(3))
            &&& m.afid == le_u32_of(b.skip(7))
            &&& m.uname == u.0
            &&& m.aname == a.0
            &&& n == 11 + u.1 + a.1
        },
{
    let c = b.skip(3);
    if b.len() >= 11 {
        assert(c.skip(4) =~= b.skip(7));
        assert(c.skip(8) =~= b.skip(11));
        if spec_read_string(b.skip(11)) is Some {
            let k = spec_read_string(b.skip(11))->Some_0.1;
            lemma_read_string_len(b.skip(11));
            assert(c.skip(8 + k) =~= b.skip(11 + k));
        }
    }
}

impl Fcall for TAttach {
    open spec fn tag_defined(&self) -> bool {
        true
    }

    open spec fn spec_tag(&self) -> u16 {
        self.header.htag
    }

    open spec fn spec_set_header(before: TAttachView, header: Header) -> TAttachView {
        TAttachView { header, ..before }
    }

    open spec fn compose_defined(&self) -> bool {
        self@.composable()
    }

    open spec fn spec_compose(&self) -> Seq<u8> {
        self@.wire()
    }

    open spec fn parse_defined(buf: Seq<u8>) -> bool {
        TAttach::spec_decode(buf) is Some
    }

    open spec fn spec_parse(before: TAttachView, buf: Seq<u8>) -> (TAttachView, int) {
        TAttach::spec_decode(buf)->Some_0
    }

    fn set_header(&mut self, header: Header) {
        self.header = header;
    }

    fn get_tag(&self) -> u16 {
        self.header.htag
    }

    fn parse(&mut self, buf: &mut &[u8]) {
        match TAttach::decode(buf) {
            Some(m) => {
                *self = m;
            },
            None => {},
        }
    }

    fn compose(&self) -> Option<Vec<u8>> {
        reveal(TAttachView::wire);
        let ulen = utf8_len(&self.uname);
        let alen = utf8_len(&self.aname);
        let length: u32 = 4 + 1 + 2 + 4 + 4 + (2 + ulen as u32) + (2 + alen as u32);
        let mut buffer: Vec<u8> = Vec::with_capacity(length as usize);
        push_le_u32(&mut buffer, length);
        buffer.push(self.header.htype.unwrap().code());
        push_le_u16(&mut buffer, self.header.htag);
        push_le_u32(&mut buffer, self.fid);
        push_le_u32(&mut buffer, self.afid);
        push_string(&mut buffer, &self.uname);
        push_string(&mut buffer, &self.aname);
        assert(buffer@ =~= self@.wire());
        Some(buffer)
    }
}

/// Rattach: the qid of the root that the fid now stands for.
pub struct RAttach {
    pub header: Header,
    pub qid: Qid,
}

impl View for RAttach {
    type V = RAttach;

    open spec fn view(&self) -> RAttach {
        *self
    }
}

impl Default for RAttach {
    fn default() -> (r: Self)
        ensures
            r == RAttach::spec_default(),
    {
        RAttach { header: Header::default(), qid: Qid::default() }
    }
}

impl RAttach {
    /// A fresh Rattach: default header, zero qid.
    pub open spec fn spec_default() -> RAttach {
        RAttach { header: Header::spec_default(), qid: Qid::spec_default() }
    }

    /// The composed message: size 20, type, tag, qid.
    pub open spec fn wire(self) -> Seq<u8> {
        le_bytes_u32(20) + self.header.wire() + self.qid.wire()
    }

    /// The message after its size field: header, then qid; it takes 16 bytes. `None` when
    /// the header is invalid or the bytes run out.
    pub open spec fn spec_decode(b: Seq<u8>) -> Option<(RAttach, int)> {
        match Header::spec_decode(b) {
            None => None,
            Some((h, _)) => match Qid::spec_decode(b.skip(3)) {
                None => None,
                Some((q, _)) => Some((RAttach { header: h, qid: q }, 16)),
            },
        }
    }

    /// Reads an Rattach (after its size field) from the front of `buf`.
    pub fn decode(buf: &mut &[u8]) -> (r: Option<RAttach>)
        ensures
            r is Some <==> RAttach::spec_decode(old(buf)@) is Some,
            r matches Some(m) ==> m == RAttach::spec_decode(old(buf)@)->Some_0.0
                && final(buf)@ == old(buf)@.skip(16),
    {
        let ghost start = buf@;
        let header = match Header::decode(buf) {
            Some(h) => h,
            None => return None,
        };
        match Qid::decode(buf) {
            Some(qid) => {
                assert(start.skip(3).skip(13) =~= start.skip(16));
                Some(RAttach { header, qid })
            },
            None => None,
        }
    }

    /// An Rattach read from `val` (the message after its size field), over a fresh message.
    pub fn from_bytes(val: Vec<u8>) -> (r: RAttach)
        requires
            RAttach::spec_decode(val@) is Some,
        ensures
            r == RAttach::spec_decode(val@)->Some_0.0,
    {
        let mut ret = RAttach::default();
        let b = &mut val.as_slice();
        ret.parse(b);
        ret
    }
}

/// Parsing an Rattach's bytes (after its size field) gives back the message.
pub proof fn lemma_rattach_roundtrip(m: RAttach, rest: Seq<u8>)
    requires
        m.header.htype is Some,
    ensures
        m.wire().len() == 20,
        le_u32_of(m.wire()) == 20,
        RAttach::spec_decode(m.wire().skip(4) + rest) == Some((m, 16int)),
{
    let b = m.wire().skip(4) + rest;
    lemma_le_u32_roundtrip(20, m.wire().skip(4));
    lemma_qid_roundtrip(m.qid, rest);
    lemma_header_roundtrip(m.header, m.qid.wire() + rest);
    assert(m.wire() =~= le_bytes_u32(20) + m.wire().skip(4));
    assert(b =~= m.header.wire() + (m.qid.wire() + rest));
    assert(b.skip(3) =~= m.qid.wire() + rest);
}

/// Where the fields of a composed Rattach stand: the size 20 in bytes 0..4, the type number at
/// 4, the tag in 5..7, the qid's type at 7, its version in 8..12 and its path number in 12..20,
/// each little-endian.
pub proof fn lemma_rattach_layout(m: RAttach)
    requires
        m.header.htype is Some,
    ensures
        m.wire().len() == 20,
        le_u32_of(m.wire()) == 20,
        m.wire()[4] == m.header.htype->Some_0.spec_code(),
        le_u16_of(m.wire().skip(5)) == m.header.htag,
        m.wire()[7] == m.qid.qtype,
        le_u32_of(m.wire().skip(8)) == m.qid.vers,
        le_u64_of(m.wire().skip(12)) == m.qid.uid,
{
    let w = m.wire();
    let q = m.qid.wire();
    lemma_rattach_roundtrip(m, Seq::empty());
    lemma_qid_layout(m.qid);
    lemma_le_u16_roundtrip(m.header.htag, q);
    assert(w.skip(5) =~= le_bytes_u16(m.header.htag) + q);
    assert(w.skip(7) =~= q);
    assert(w.skip(8) =~= q.skip(1));
    assert(w.skip(12) =~= q.skip(5));
}

/// What a parsed Rattach holds, by offset into the bytes after its size field: the type number
/// at 0, the tag in 1..3, the qid's type at 3, its version in 4..8 and its path number in
/// 8..16, each little-endian. Parsing succeeds exactly when there are 16 bytes and the type
/// number is one of 9P's.
pub proof fn lemma_rattach_decode_layout(b: Seq<u8>)
    ensures
        RAttach::spec_decode(b) is Some <==> (b.len() >= 16 && 100 <= b[0] <= 127),
        RAttach::spec_decode(b) matches Some((m, n)) ==> {
            &&& m.header.htype == Some(header_type_of(b[0]))
            &&& m.header.htag == le_u16_of(b.skip(1))
            &&& m.qid.qtype == b[3]
            &&& m.qid.vers == le_u32_of(b.skip(4))
            &&& m.qid.uid == le_u64_of(b.skip(8))
            &&& n == 16
        },
{
    if b.len() >= 16 {
        assert(b.skip(3).skip(1) =~= b.skip(4));
        assert(b.skip(3).skip(5) =~= b.skip(8));
    }
}

impl Fcall for RAttach {
    open spec fn tag_defined(&self) -> bool {
        true
    }

    open spec fn spec_tag(&self) -> u16 {
        self.header.htag
    }

    open spec fn spec_set_header(before: RAttach, header: Header) -> RAttach {
        RAttach { header, ..before }
    }

    /// Composing an Rattach is not provided.
    open spec fn compose_defined(&self) -> bool {
        false
    }

    open spec fn spec_compose(&self) -> Seq<u8> {
        Seq::empty()
    }

    open spec fn parse_defined(buf: Seq<u8>) -> bool {
        RAttach::spec_decode(buf) is Some
    }

    open spec fn spec_parse(before: RAttach, buf: Seq<u8>) -> (RAttach, int) {
        RAttach::spec_decode(buf)->Some_0
    }

    fn set_header(&mut self, header: Header) {
        self.header = header;
    }

    fn get_tag(&self) -> u16 {
        self.header.htag
    }

    fn parse(&mut self, buf: &mut &[u8]) {
        match RAttach::decode(buf) {
            Some(m) => {
                *self = m;
            },
            None => {},
        }
    }

    /// Not provided: its precondition is never met.
    fn compose(&self) -> Option<Vec<u8>> {
        None
    }
}

} // verus!
