//! The qid: the server's unique identification of a file.
use crate::fcall::Fcall;
use crate::header::Header;
use crate::wire::{
    le_bytes_u32, le_bytes_u64, le_u32_of, le_u64_of, lemma_le_u32_inverse, lemma_le_u32_roundtrip, lemma_le_u64_inverse, lemma_le_u64_roundtrip,
    push_le_u32, push_le_u64, read_le_u32, read_le_u64, read_le_u8,
};
use vstd::prelude::*;

verus! {

/// A file's identity on the server: its type bits, version, and unique path number.
#[derive(Clone, Copy, Debug)]
pub struct Qid {
    pub qtype: u8,
    pub vers: u32,
    pub uid: u64,
}

impl Default for Qid {
    fn default() -> (r: Self)
        ensures
            r == Qid::spec_default(),
    {
        Qid { qtype: 0, vers: 0, uid: 0 }
    }
}

impl View for Qid {
    type V = Qid;

    open spec fn view(&self) -> Qid {
        *self
    }
}

impl Qid {
    /// The qid of all zeros.
    pub open spec fn spec_default() -> Qid {
        Qid { qtype: 0, vers: 0, uid: 0 }
    }

    /// The 13 bytes of a qid: type, little-endian version, little-endian path number.
    pub open spec fn wire(self) -> Seq<u8> {
        seq![self.qtype] + le_bytes_u32(self.vers) + le_bytes_u64(self.uid)
    }

    /// The qid at the front of `b` with its length 13; `None` when `b` is shorter than that.
    pub open spec fn spec_decode(b: Seq<u8>) -> Option<(Qid, int)> {
        if b.len() < 13 {
            None
        } else {
            Some((Qid { qtype: b[0], vers: le_u32_of(b.skip(1)), uid: le_u64_of(b.skip(5)) }, 13))
        }
    }

    /// Reads a qid from the front of `buf`; `None` when `buf` is too short.
    pub fn decode(buf: &mut &[u8]) -> (r: Option<Qid>)
        ensures
            r is Some <==> Qid::spec_decode(old(buf)@) is Some,
            r matches Some(q) ==> q == Qid::spec_decode(old(buf)@)->Some_0.0
                && final(buf)@ == old(buf)@.skip(13),
    {
        if buf.len() < 13 {
            return None;
        }
        let ghost start = buf@;
        let qtype = read_le_u8(buf);
        let vers = read_le_u32(buf);
        let uid = read_le_u64(buf);
        assert(start.skip(1).skip(4) =~= start.skip(5));
        assert(start.skip(5).skip(8) =~= start.skip(13));
        Some(Qid { qtype, vers, uid })
    }

    /// A qid read from `val`, over a fresh qid.
    pub fn from_bytes(val: Vec<u8>) -> (r: Qid)
        requires
            Qid::spec_decode(val@) is Some,
        ensures
            r == Qid::spec_decode(val@)->Some_0.0,
    {
        let mut ret = Qid::default();
        let b = &mut val.as_slice();
        ret.parse(b);
        ret
    }

    /// Appends the qid's 13 bytes to `buf`.
    pub fn push_to(&self, buf: &mut Vec<u8>)
        ensures
            final(buf)@ == old(buf)@ + self.wire(),
    {
        buf.push(self.qtype);
        push_le_u32(buf, self.vers);
        push_le_u64(buf, self.uid);
        assert(buf@ =~= old(buf)@ + self.wire());
    }
}

/// Reading a qid's bytes back gives the qid, whatever follows.
pub proof fn lemma_qid_roundtrip(q: Qid, rest: Seq<u8>)
    ensures
        q.wire().len() == 13,
        Qid::spec_decode(q.wire() + rest) == Some((q, 13int)),
{
    let b = q.wire() + rest;
    lemma_le_u32_roundtrip(q.vers, le_bytes_u64(q.uid) + rest);
    lemma_le_u64_roundtrip(q.uid, rest);
    assert(b.skip(1) =~= le_bytes_u32(q.vers) + (le_bytes_u64(q.uid) + rest));
    assert(b.skip(5) =~= le_bytes_u64(q.uid) + rest);
}

/// Writing back a qid read from bytes gives those bytes.
pub proof fn lemma_qid_inverse(b: Seq<u8>)
    requires
        Qid::spec_decode(b) is Some,
    ensures
        Qid::spec_decode(b)->Some_0.0.wire() == b.take(13),
{
    lemma_le_u32_inverse(b.skip(1));
    lemma_le_u64_inverse(b.skip(5));
    assert(Qid::spec_decode(b)->Some_0.0.wire() =~= b.take(13));
}

/// Where a qid's fields stand in its 13 bytes: the type at 0, the version in 1..5 and the path
/// number in 5..13, each little-endian.
pub proof fn lemma_qid_layout(q: Qid)
    ensures
        q.wire().len() == 13,
        q.wire()[0] == q.qtype,
        le_u32_of(q.wire().skip(1)) == q.vers,
        le_u64_of(q.wire().skip(5)) == q.uid,
{
    let w = q.wire();
    lemma_le_u32_roundtrip(q.vers, le_bytes_u64(q.uid));
    lemma_le_u64_roundtrip(q.uid, Seq::empty());
    assert(w.skip(1) =~= le_bytes_u32(q.vers) + le_bytes_u64(q.uid));
    assert(w.skip(5) =~= le_bytes_u64(q.uid) + Seq::<u8>::empty());
}

/// What a parsed qid holds, by offset: the type at 0, the version in 1..5 and the path number
/// in 5..13, each little-endian. Parsing succeeds exactly when there are 13 bytes.
pub proof fn lemma_qid_decode_layout(b: Seq<u8>)
    ensures
        Qid::spec_decode(b) is Some <==> b.len() >= 13,
        Qid::spec_decode(b) matches Some((q, n)) ==> {
            &&& q.qtype == b[0]
            &&& q.vers == le_u32_of(b.skip(1))
            &&& q.uid == le_u64_of(b.skip(5))
            &&& n == 13
        },
{
}

impl Fcall for Qid {
    /// A qid has no tag.
    open spec fn tag_defined(&self) -> bool {
        false
    }

    open spec fn spec_tag(&self) -> u16 {
        0
    }

    open spec fn spec_set_header(before: Qid, header: Header) -> Qid {
        before
    }

    open spec fn compose_defined(&self) -> bool {
        true
    }

    open spec fn spec_compose(&self) -> Seq<u8> {
        self.wire()
    }

    open spec fn parse_defined(buf: Seq<u8>) -> bool {
        Qid::spec_decode(buf) is Some
    }

    open spec fn spec_parse(before: Qid, buf: Seq<u8>) -> (Qid, int) {
        Qid::spec_decode(buf)->Some_0
    }

    /// Does nothing: a qid has no header.
    fn set_header(&mut self, _header: Header) {
    }

    /// Never called: a qid has no tag.
    fn get_tag(&self) -> u16 {
        0
    }

    fn compose(&self) -> Option<Vec<u8>> {
        let mut buffer: Vec<u8> = Vec::with_capacity(13);
        self.push_to(&mut buffer);
        Some(buffer)
    }

    fn parse(&mut self, buf: &mut &[u8]) {
        match Qid::decode(buf) {
            Some(q) => {
                *self = q;
            },
            None => {},
        }
    }
}

} // verus!
