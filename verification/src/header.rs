//! The 9P message header: the message type and its tag.
use crate::fcall::Fcall;
use crate::wire::{le_u16_of, read_le_u16, read_le_u8};
use vstd::prelude::*;
use vstd::string::{StrSliceExecFns, StringExecFns};

verus! {

/// The 9P message types, numbered from 100 on the wire in this order.
#[derive(Clone, Copy, Debug, PartialEq, Eq)]
pub enum HeaderType {
    Tversion,
    Rversion,
    Tauth,
    Rauth,
    Tattach,
    Rattach,
    Terror,
    Rerror,
    Tflush,
    Rflush,
    Twalk,
    Rwalk,
    Topen,
    Ropen,
    Tcreate,
    Rcreate,
    Tread,
    Rread,
    Twrite,
    Rwrite,
    Tclunk,
    Rclunk,
    Tremove,
    Rremove,
    Tstat,
    Rstat,
    Twstat,
    Rwstat,
}

impl HeaderType {
    /// The type's number on the wire.
    pub open spec fn spec_code(self) -> u8 {
        match self {
            HeaderType::Tversion => 100,
            HeaderType::Rversion => 101,
            HeaderType::Tauth => 102,
            HeaderType::Rauth => 103,
            HeaderType::Tattach => 104,
            HeaderType::Rattach => 105,
            HeaderType::Terror => 106,
            HeaderType::Rerror => 107,
            HeaderType::Tflush => 108,
            HeaderType::Rflush => 109,
            HeaderType::Twalk => 110,
            HeaderType::Rwalk => 111,
            HeaderType::Topen => 112,
            HeaderType::Ropen => 113,
            HeaderType::Tcreate => 114,
            HeaderType::Rcreate => 115,
            HeaderType::Tread => 116,
            HeaderType::Rread => 117,
            HeaderType::Twrite => 118,
            HeaderType::Rwrite => 119,
            HeaderType::Tclunk => 120,
            HeaderType::Rclunk => 121,
            HeaderType::Tremove => 122,
            HeaderType::Rremove => 123,
            HeaderType::Tstat => 124,
            HeaderType::Rstat => 125,
            HeaderType::Twstat => 126,
            HeaderType::Rwstat => 127,
        }
    }

    /// The type's number on the wire.
    pub fn code(&self) -> (r: u8)
        ensures
            r == self.spec_code(),
    {
        match self {
            HeaderType::Tversion => 100,
            HeaderType::Rversion => 101,
            HeaderType::Tauth => 102,
            HeaderType::Rauth => 103,
            HeaderType::Tattach => 104,
            HeaderType::Rattach => 105,
            HeaderType::Terror => 106,
            HeaderType::Rerror => 107,
            HeaderType::Tflush => 108,
            HeaderType::Rflush => 109,
            HeaderType::Twalk => 110,
            HeaderType::Rwalk => 111,
            HeaderType::Topen => 112,
            HeaderType::Ropen => 113,
            HeaderType::Tcreate => 114,
            HeaderType::Rcreate => 115,
            HeaderType::Tread => 116,
            HeaderType::Rread => 117,
            HeaderType::Twrite => 118,
            HeaderType::Rwrite => 119,
            HeaderType::Tclunk => 120,
            HeaderType::Rclunk => 121,
            HeaderType::Tremove => 122,
            HeaderType::Rremove => 123,
            HeaderType::Tstat => 124,
            HeaderType::Rstat => 125,
            HeaderType::Twstat => 126,
            HeaderType::Rwstat => 127,
        }
    }

    /// The message error text for a number that names no message type.
    pub open spec fn invalid_text(value: u8) -> Seq<char> {
        "Invalie headertype: "@ + decimal_digits(value)
    }

    /// The type numbered `value` on the wire; an error naming `value` when there is none,
    /// that is when `value` is outside `100..=127`.
    pub fn try_from(value: u8) -> (r: Result<HeaderType, String>)
        ensures
            r is Ok <==> 100 <= value <= 127,
            r matches Ok(t) ==> t.spec_code() == value,
            r matches Err(e) ==> e@ == HeaderType::invalid_text(value),
    {
        match value {
            100 => Ok(HeaderType::Tversion),
            101 => Ok(HeaderType::Rversion),
            102 => Ok(HeaderType::Tauth),
            103 => Ok(HeaderType::Rauth),
            104 => Ok(HeaderType::Tattach),
            105 => Ok(HeaderType::Rattach),
            106 => Ok(HeaderType::Terror),
            107 => Ok(HeaderType::Rerror),
            108 => Ok(HeaderType::Tflush),
            109 => Ok(HeaderType::Rflush),
            110 => Ok(HeaderType::Twalk),
            111 => Ok(HeaderType::Rwalk),
            112 => Ok(HeaderType::Topen),
            113 => Ok(HeaderType::Ropen),
            114 => Ok(HeaderType::Tcreate),
            115 => Ok(HeaderType::Rcreate),
            116 => Ok(HeaderType::Tread),
            117 => Ok(HeaderType::Rread),
            118 => Ok(HeaderType::Twrite),
            119 => Ok(HeaderType::Rwrite),
            120 => Ok(HeaderType::Tclunk),
            121 => Ok(HeaderType::Rclunk),
            122 => Ok(HeaderType::Tremove),
            123 => Ok(HeaderType::Rremove),
            124 => Ok(HeaderType::Tstat),
            125 => Ok(HeaderType::Rstat),
            126 => Ok(HeaderType::Twstat),
            127 => Ok(HeaderType::Rwstat),
            _ => {
                let mut e = String::from_str("Invalie headertype: ");
                let digits = u8_to_decimal(value);
                e.append(digits.as_str());
                Err(e)
            },
        }
    }
}

/// The character of the decimal digit `d`.
pub open spec fn digit_char(d: int) -> char {
    ('0' as int + d) as char
}

/// The decimal numeral of `v`, without leading zeros.
pub open spec fn decimal_digits(v: u8) -> Seq<char> {
    if v < 10 {
        seq![digit_char(v as int)]
    } else if v < 100 {
        seq![digit_char(v as int / 10), digit_char(v as int % 10)]
    } else {
        seq![digit_char(v as int / 100), digit_char((v as int / 10) % 10), digit_char(v as int % 10)]
    }
}

/// The decimal digit `d` as a one-character string.
fn digit_str(d: u8) -> (r: &'static str)
    requires
        d < 10,
    ensures
        r@ == seq![digit_char(d as int)],
{
    let digits = "0123456789";
    proof {
        reveal_strlit("0123456789");
    }
    let r = digits.substring_char(d as usize, d as usize + 1);
    assert(r@ =~= seq![digit_char(d as int)]);
    r
}

/// The decimal numeral of `v`, without leading zeros.
fn u8_to_decimal(v: u8) -> (r: String)
    ensures
        r@ == decimal_digits(v),
{
    if v < 10 {
        String::from_str(digit_str(v))
    } else if v < 100 {
        let mut s = String::from_str(digit_str(v / 10));
        s.append(digit_str(v % 10));
        assert(s@ =~= decimal_digits(v));
        s
    } else {
        let mut s = String::from_str(digit_str(v / 100));
        s.append(digit_str((v / 10) % 10));
        s.append(digit_str(v % 10));
        assert(s@ =~= decimal_digits(v));
        s
    }
}

/// A message header: its type (unknown until set or parsed) and its tag.
#[derive(Clone, Copy, Debug)]
pub struct Header {
    pub htype: Option<HeaderType>,
    pub htag: u16,
}

impl Default for Header {
    fn default() -> (r: Self)
        ensures
            r == Header::spec_default(),
    {
        Header { htype: None, htag: 0 }
    }
}

impl View for Header {
    type V = Header;

    open spec fn view(&self) -> Header {
        *self
    }
}

impl Header {
    /// The header of a fresh message: no type, tag 0.
    pub open spec fn spec_default() -> Header {
        Header { htype: None, htag: 0 }
    }

    /// The header at the front of `b` (type byte, then little-endian tag), with its length 3;
    /// `None` when `b` is shorter than 3 bytes or its first byte names no message type.
    pub open spec fn spec_decode(b: Seq<u8>) -> Option<(Header, int)> {
        if b.len() < 3 || !(100 <= b[0] <= 127) {
            None
        } else {
            Some((Header { htype: Some(header_type_of(b[0])), htag: le_u16_of(b.skip(1)) }, 3))
        }
    }

    /// The bytes of a header with a type: type number, then little-endian tag.
    pub open spec fn wire(self) -> Seq<u8>
        recommends
            self.htype is Some,
    {
        seq![self.htype->Some_0.spec_code()] + crate::wire::le_bytes_u16(self.htag)
    }

    /// Reads a header from the front of `buf`; `None` when `buf` is too short or its type
    /// byte names no message type.
    pub fn decode(buf: &mut &[u8]) -> (r: Option<Header>)
        ensures
            r is Some <==> Header::spec_decode(old(buf)@) is Some,
            r matches Some(h) ==> h == Header::spec_decode(old(buf)@)->Some_0.0
                && final(buf)@ == old(buf)@.skip(3),
    {
        if buf.len() < 3 {
            return None;
        }
        let ghost start = buf@;
        let t = read_le_u8(buf);
        match HeaderType::try_from(t) {
            Ok(htype) => {
                proof { lemma_header_type_of(htype); }
                let htag = read_le_u16(buf);
                assert(buf@ =~= start.skip(3));
                Some(Header { htype: Some(htype), htag })
            },
            Err(_) => None,
        }
    }
}

impl Header {
    /// A header read from `val`, over a fresh header.
    pub fn from_bytes(val: Vec<u8>) -> (r: Header)
        requires
            Header::spec_decode(val@) is Some,
        ensures
            r == Header::spec_decode(val@)->Some_0.0,
    {
        let mut ret = Header::default();
        let b = &mut val.as_slice();
        ret.parse(b);
        ret
    }
}

/// The message type numbered `v`, for `v` in `100..=127`.
pub open spec fn header_type_of(v: u8) -> HeaderType {
    choose|t: HeaderType| t.spec_code() == v
}

/// Each type is the one its number names: numbers are distinct, and every number in
/// `100..=127` names a type.
pub proof fn lemma_header_type_of(t: HeaderType)
    ensures
        100 <= t.spec_code() <= 127,
        header_type_of(t.spec_code()) == t,
{
    let c = t.spec_code();
    let u = header_type_of(c);
    assert(u.spec_code() == c);
}

/// Every number in `100..=127` names a message type, and `header_type_of` gives it.
pub proof fn lemma_header_code(v: u8)
    requires
        100 <= v <= 127,
    ensures
        header_type_of(v).spec_code() == v,
{
    if v == 100 {
        assert(HeaderType::Tversion.spec_code() == v);
    } else if v == 101 {
        assert(HeaderType::Rversion.spec_code() == v);
    } else if v == 102 {
        assert(HeaderType::Tauth.spec_code() == v);
    } else if v == 103 {
        assert(HeaderType::Rauth.spec_code() == v);
    } else if v == 104 {
        assert(HeaderType::Tattach.spec_code() == v);
    } else if v == 105 {
        assert(HeaderType::Rattach.spec_code() == v);
    } else if v == 106 {
        assert(HeaderType::Terror.spec_code() == v);
    } else if v == 107 {
        assert(HeaderType::Rerror.spec_code() == v);
    } else if v == 108 {
        assert(HeaderType::Tflush.spec_code() == v);
    } else if v == 109 {
        assert(HeaderType::Rflush.spec_code() == v);
    } else if v == 110 {
        assert(HeaderType::Twalk.spec_code() == v);
    } else if v == 111 {
        assert(HeaderType::Rwalk.spec_code() == v);
    } else if v == 112 {
        assert(HeaderType::Topen.spec_code() == v);
    } else if v == 113 {
        assert(HeaderType::Ropen.spec_code() == v);
    } else if v == 114 {
        assert(HeaderType::Tcreate.spec_code() == v);
    } else if v == 115 {
        assert(HeaderType::Rcreate.spec_code() == v);
    } else if v == 116 {
        assert(HeaderType::Tread.spec_code() == v);
    } else if v == 117 {
        assert(HeaderType::Rread.spec_code() == v);
    } else if v == 118 {
        assert(HeaderType::Twrite.spec_code() == v);
    } else if v == 119 {
        assert(HeaderType::Rwrite.spec_code() == v);
    } else if v == 120 {
        assert(HeaderType::Tclunk.spec_code() == v);
    } else if v == 121 {
        assert(HeaderType::Rclunk.spec_code() == v);
    } else if v == 122 {
        assert(HeaderType::Tremove.spec_code() == v);
    } else if v == 123 {
        assert(HeaderType::Rremove.spec_code() == v);
    } else if v == 124 {
        assert(HeaderType::Tstat.spec_code() == v);
    } else if v == 125 {
        assert(HeaderType::Rstat.spec_code() == v);
    } else if v == 126 {
        assert(HeaderType::Twstat.spec_code() == v);
    } else if v == 127 {
        assert(HeaderType::Rwstat.spec_code() == v);
    }
}

/// Writing back a header read from bytes gives those bytes.
pub proof fn lemma_header_inverse(b: Seq<u8>)
    requires
        Header::spec_decode(b) is Some,
    ensures
        Header::spec_decode(b)->Some_0.0.wire() == b.take(3),
{
    lemma_header_code(b[0]);
    crate::wire::lemma_le_u16_inverse(b.skip(1));
    assert(Header::spec_decode(b)->Some_0.0.wire() =~= b.take(3));
}

/// Reading a typed header's bytes back gives the header, whatever follows.
pub proof fn lemma_header_roundtrip(h: Header, rest: Seq<u8>)
    requires
        h.htype is Some,
    ensures
        h.wire().len() == 3,
        Header::spec_decode(h.wire() + rest) == Some((h, 3int)),
{
    let t = h.htype->Some_0;
    lemma_header_type_of(t);
    let b = h.wire() + rest;
    crate::wire::lemma_le_u16_roundtrip(h.htag, rest);
    assert(b.skip(1) =~= crate::wire::le_bytes_u16(h.htag) + rest);
    assert(b[0] == t.spec_code());
}

impl Fcall for Header {
    open spec fn tag_defined(&self) -> bool {
        true
    }

    open spec fn spec_tag(&self) -> u16 {
        self.htag
    }

    open spec fn spec_set_header(before: Header, header: Header) -> Header {
        before
    }

    open spec fn compose_defined(&self) -> bool {
        true
    }

    open spec fn spec_compose(&self) -> Seq<u8> {
        seq![0u8]
    }

    open spec fn parse_defined(buf: Seq<u8>) -> bool {
        Header::spec_decode(buf) is Some
    }

    open spec fn spec_parse(before: Header, buf: Seq<u8>) -> (Header, int) {
        Header::spec_decode(buf)->Some_0
    }

    /// Does nothing: the header is its own message.
    fn set_header(&mut self, _header: Header) {
    }

    fn get_tag(&self) -> u16 {
        self.htag
    }

    fn parse(&mut self, buf: &mut &[u8]) {
        let h = Header::decode(buf);
        match h {
            Some(h) => {
                *self = h;
            },
            None => {
            },
        }
    }

    /// A single zero byte.
    fn compose(&self) -> Option<Vec<u8>> {
        Some(vec![0u8])
    }
}

} // verus!
