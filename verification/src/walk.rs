//! Twalk and Rwalk: descending a path from a fid.
use crate::fcall::Fcall;
use crate::header::{header_type_of, lemma_header_inverse, lemma_header_roundtrip, Header};
use crate::qid::{lemma_qid_inverse, lemma_qid_roundtrip, Qid};
use crate::wire::{
    le_bytes_u16, le_bytes_u32, le_u16_of, le_u32_of, le_u64_of, lemma_le_u16_inverse, lemma_le_u16_roundtrip,
    lemma_le_u32_inverse, lemma_read_string_len,
    lemma_le_u32_roundtrip, lemma_string_inverse, lemma_string_roundtrip, push_le_u16, push_le_u32, push_string,
    read_le_u16, read_le_u32, read_string, spec_read_string, string_bytes, string_fits,
    utf8_len,
};
use vstd::prelude::*;
use vstd::utf8::encode_utf8;

verus! {

// ---------------------------------------------------------------------------
// Sequences of strings on the wire
// ---------------------------------------------------------------------------

/// The 9P strings of `ns`, one after another.
pub open spec fn names_bytes(ns: Seq<Seq<char>>) -> Seq<u8>
    decreases ns.len(),
{
    if ns.len() == 0 {
        Seq::empty()
    } else {
        names_bytes(ns.drop_last()) + string_bytes(ns.last())
    }
}

/// The byte count of `names_bytes(ns)`: 2 plus the UTF-8 byte count of each name.
pub open spec fn names_size(ns: Seq<Seq<char>>) -> int
    decreases ns.len(),
{
    if ns.len() == 0 {
        0
    } else {
        names_size(ns.drop_last()) + 2 + encode_utf8(ns.last()).len()
    }
}

/// Every name fits a 9P string.
pub open spec fn names_fit(ns: Seq<Seq<char>>) -> bool {
    forall|i: int| 0 <= i < ns.len() ==> string_fits(#[trigger] ns[i])
}

/// `k` 9P strings at the front of `b`, with the number of bytes they take; `None` when one
/// of them cannot be read.
pub open spec fn spec_read_strings(b: Seq<u8>, k: nat) -> Option<(Seq<Seq<char>>, int)>
    decreases k,
{
    if k == 0 {
        Some((Seq::empty(), 0))
    } else {
        match spec_read_strings(b, (k - 1) as nat) {
            None => None,
            Some((ns, m)) => match spec_read_string(b.skip(m)) {
                None => None,
                Some((s, n)) => Some((ns.push(s), m + n)),
            },
        }
    }
}

/// What `k` strings take stays within `b`.
pub proof fn lemma_read_strings_len(b: Seq<u8>, k: nat)
    ensures
        spec_read_strings(b, k) matches Some((ns, m)) ==> 0 <= m <= b.len() && ns.len() == k,
    decreases k,
{
    if k > 0 {
        lemma_read_strings_len(b, (k - 1) as nat);
        if let Some((ns, m)) = spec_read_strings(b, (k - 1) as nat) {
            lemma_read_string_len(b.skip(m));
        }
    }
}

/// Once a string cannot be read, no longer run of strings can be.
pub proof fn lemma_read_strings_fail(b: Seq<u8>, k: nat, j: nat)
    requires
        k <= j,
        spec_read_strings(b, k) is None,
    ensures
        spec_read_strings(b, j) is None,
    decreases j,
{
    if j > k {
        lemma_read_strings_fail(b, k, (j - 1) as nat);
    }
}

/// The length of the names' bytes.
pub proof fn lemma_names_bytes_len(ns: Seq<Seq<char>>)
    requires
        names_fit(ns),
    ensures
        names_bytes(ns).len() == names_size(ns),
    decreases ns.len(),
{
    if ns.len() > 0 {
        assert(names_fit(ns.drop_last()));
        lemma_names_bytes_len(ns.drop_last());
        lemma_string_roundtrip(ns.last(), Seq::empty());
    }
}

/// Names read back as the names that wrote them, whatever follows.
pub proof fn lemma_names_roundtrip(ns: Seq<Seq<char>>, rest: Seq<u8>)
    requires
        names_fit(ns),
    ensures
        spec_read_strings(names_bytes(ns) + rest, ns.len()) == Some(
            (ns, names_bytes(ns).len() as int),
        ),
    decreases ns.len(),
{
    if ns.len() > 0 {
        let init = ns.drop_last();
        let last = ns.last();
        assert(names_fit(init));
        let tail = string_bytes(last) + rest;
        lemma_names_roundtrip(init, tail);
        assert(names_bytes(ns) + rest =~= names_bytes(init) + tail);
        assert((names_bytes(init) + tail).skip(names_bytes(init).len() as int) =~= tail);
        lemma_string_roundtrip(last, rest);
        assert(init.push(last) =~= ns);
    }
}

/// Writing back names read from bytes gives those bytes; the names fit, and take what was read.
pub proof fn lemma_names_inverse(b: Seq<u8>, k: nat)
    requires
        spec_read_strings(b, k) is Some,
    ensures
        names_fit(spec_read_strings(b, k)->Some_0.0),
        names_bytes(spec_read_strings(b, k)->Some_0.0) == b.take(spec_read_strings(b, k)->Some_0.1),
        names_size(spec_read_strings(b, k)->Some_0.0) == spec_read_strings(b, k)->Some_0.1,
    decreases k,
{
    if k > 0 {
        let (ns, m) = spec_read_strings(b, (k - 1) as nat)->Some_0;
        lemma_names_inverse(b, (k - 1) as nat);
        lemma_read_strings_len(b, (k - 1) as nat);
        let (s, n) = spec_read_string(b.skip(m))->Some_0;
        lemma_string_inverse(b.skip(m));
        lemma_read_string_len(b.skip(m));
        lemma_string_roundtrip(s, Seq::empty());
        let all = ns.push(s);
        assert(all.drop_last() =~= ns);
        assert(b.take(m + n) =~= b.take(m) + b.skip(m).take(n));
        assert forall|i: int| 0 <= i < all.len() implies string_fits(#[trigger] all[i]) by {
            if i < ns.len() {
                assert(all[i] == ns[i]);
            }
        }
    }
}

/// A prefix of the names takes no more bytes than all of them.
pub proof fn lemma_names_size_prefix(ns: Seq<Seq<char>>, i: int)
    requires
        0 <= i <= ns.len(),
    ensures
        0 <= names_size(ns.take(i)) <= names_size(ns),
    decreases ns.len() - i,
{
    if i < ns.len() {
        lemma_names_size_prefix(ns, i + 1);
        assert(ns.take(i + 1).drop_last() =~= ns.take(i));
    } else {
        assert(ns.take(i) =~= ns);
    }
    lemma_names_size_nonneg(ns.take(i));
}

/// Names take no negative room.
pub proof fn lemma_names_size_nonneg(ns: Seq<Seq<char>>)
    ensures
        names_size(ns) >= 0,
    decreases ns.len(),
{
    if ns.len() > 0 {
        lemma_names_size_nonneg(ns.drop_last());
    }
}

// ---------------------------------------------------------------------------
// Twalk
// ---------------------------------------------------------------------------

/// Twalk: walk from `fid` through the `nwname` names in `wname`, and call the result `newfid`.
pub struct TWalk {
    pub header: Header,
    pub fid: u32,
    pub newfid: u32,
    pub nwname: u16,
    pub wname: Vec<String>,
}

/// A Twalk as values.
#[verifier::ext_equal]
pub struct TWalkView {
    pub header: Header,
    pub fid: u32,
    pub newfid: u32,
    pub nwname: u16,
    pub wname: Seq<Seq<char>>,
}

impl View for TWalk {
    type V = TWalkView;

    open spec fn view(&self) -> TWalkView {
        TWalkView {
            header: self.header,
            fid: self.fid,
            newfid: self.newfid,
            nwname: self.nwname,
            wname: self.wname.deep_view(),
        }
    }
}

impl Default for TWalk {
    fn default() -> (r: Self)
        ensures
            r@ == TWalkView::spec_default(),
    {
        let r = TWalk { header: Header::default(), fid: 0, newfid: 0, nwname: 0, wname: Vec::new() };
        assert(r@.wname =~= Seq::<Seq<char>>::empty());
        r
    }
}

impl TWalkView {
    /// A fresh Twalk: default header, zero fields, no names.
    pub open spec fn spec_default() -> TWalkView {
        TWalkView { header: Header::spec_default(), fid: 0, newfid: 0, nwname: 0, wname: Seq::empty() }
    }

    /// The message can be composed: its type is known, each name fits a 9P string, and the
    /// whole fits in memory.
    pub open spec fn composable(self) -> bool {
        &&& self.header.htype is Some
        &&& names_fit(self.wname)
        &&& 17 + names_size(self.wname) <= usize::MAX
    }

    /// The message's length: 4 + 1 + 2 + 4 + 4 + 2, then the names.
    pub open spec fn length(self) -> int {
        17 + names_size(self.wname)
    }

    /// The composed message: size (the length kept to 32 bits), type, tag, fid, newfid,
    /// nwname, then every name in `wname`.
    pub open spec fn wire(self) -> Seq<u8> {
        le_bytes_u32(self.length() as u32) + self.header.wire() + le_bytes_u32(self.fid)
            + le_bytes_u32(self.newfid) + le_bytes_u16(self.nwname) + names_bytes(self.wname)
    }
}

impl TWalk {
    /// The message after its size field: header, fid, newfid, nwname, then nwname strings;
    /// with the number of bytes it takes. `None` when the header is invalid, the bytes run
    /// out, or a name is not UTF-8.
    pub open spec fn spec_decode(b: Seq<u8>) -> Option<(TWalkView, int)> {
        match Header::spec_decode(b) {
            None => None,
            Some((h, _)) => if b.len() < 13 {
                None
            } else {
                let nw = le_u16_of(b.skip(11));
                match spec_read_strings(b.skip(13), nw as nat) {
                    None => None,
                    Some((ns, m)) => Some(
                        (
                            TWalkView {
                                header: h,
                                fid: le_u32_of(b.skip(3)),
                                newfid: le_u32_of(b.skip(7)),
                                nwname: nw,
                                wname: ns,
                            },
                            13 + m,
                        ),
                    ),
                }
            },
        }
    }

    /// Reads a Twalk (after its size field) from the front of `buf`.
    pub fn decode(buf: &mut &[u8]) -> (r: Option<TWalk>)
        ensures
            r is Some <==> TWalk::spec_decode(old(buf)@) is Some,
            r matches Some(m) ==> m@ == TWalk::spec_decode(old(buf)@)->Some_0.0
                && final(buf)@ == old(buf)@.skip(TWalk::spec_decode(old(buf)@)->Some_0.1),
    {
        let ghost start = buf@;
        let header = match Header::decode(buf) {
            Some(h) => h,
            None => return None,
        };
        if buf.len() < 10 {
            return None;
        }
        let fid = read_le_u32(buf);
        let newfid = read_le_u32(buf);
        let nwname = read_le_u16(buf);
        assert(start.skip(3).skip(4) =~= start.skip(7));
        assert(start.skip(7).skip(4) =~= start.skip(11));
        assert(start.skip(11).skip(2) =~= start.skip(13));
        let ghost body = start.skip(13);
        let ghost mut m: int = 0;
        let mut wname: Vec<String> = Vec::with_capacity(nwname as usize);
        let mut i: u16 = 0;
        while i < nwname
            invariant
                start == old(buf)@,
                Header::spec_decode(start) is Some,
                start.len() >= 13,
                nwname == le_u16_of(start.skip(11)),
                body == start.skip(13),
                i <= nwname,
                0 <= m <= body.len(),
                buf@ == body.skip(m),
                spec_read_strings(body, i as nat) == Some((wname.deep_view(), m)),
            decreases nwname - i,
        {
            let ghost before = buf@;
            let ghost old_names = wname.deep_view();
            match read_string(buf) {
                Some(s) => {
                    proof {
                        let n = crate::wire::spec_read_string(before)->Some_0.1;
                        assert(body.skip(m).skip(n) =~= body.skip(m + n));
                        m = m + n;
                    }
                    wname.push(s);
                    assert(wname.deep_view() =~= old_names.push(s@));
                    i = i + 1;
                },
                None => {
                    proof {
                        lemma_read_strings_fail(body, (i + 1) as nat, nwname as nat);
                    }
                    return None;
                },
            }
        }
        assert(buf@ =~= start.skip(13 + m));
        Some(TWalk { header, fid, newfid, nwname, wname })
    }

    /// A Twalk read from `val`, over a fresh message.
    pub fn from_bytes(val: Vec<u8>) -> (r: TWalk)
        requires
            TWalk::spec_decode(val@) is Some,
        ensures
            r@ == TWalk::spec_decode(val@)->Some_0.0,
    {
        let mut ret = TWalk::default();
        let b = &mut val.as_slice();
        ret.parse(b);
        ret
    }
}

/// Composing a Twalk whose `nwname` counts its names and parsing it back (after its size
/// field) gives the same message; its length is 17 plus what the names take.
pub proof fn lemma_walk_roundtrip(m: TWalkView, rest: Seq<u8>)
    requires
        m.composable(),
        m.wname.len() == m.nwname,
    ensures
        m.wire().len() == m.length(),
        TWalk::spec_decode(m.wire().skip(4) + rest) == Some((m, m.length() - 4)),
{
    let nb = names_bytes(m.wname);
    let t3 = le_bytes_u16(m.nwname) + nb + rest;
    let t2 = le_bytes_u32(m.newfid) + t3;
    let t1 = le_bytes_u32(m.fid) + t2;
    let b = m.wire().skip(4) + rest;
    lemma_names_bytes_len(m.wname);
    lemma_names_roundtrip(m.wname, rest);
    lemma_le_u16_roundtrip(m.nwname, nb + rest);
    lemma_le_u32_roundtrip(m.newfid, t3);
    lemma_le_u32_roundtrip(m.fid, t2);
    lemma_header_roundtrip(m.header, t1);
    assert(b =~= m.header.wire() + t1);
    assert(b.skip(3) =~= t1);
    assert(b.skip(7) =~= t2);
    assert(b.skip(11) =~= t3);
    assert(b.skip(13) =~= nb + rest);
}

/// When the length fits 32 bits, the size field of a composed Twalk states it.
pub proof fn lemma_walk_size(m: TWalkView)
    requires
        m.composable(),
        m.length() <= 0xffff_ffff,
    ensures
        le_u32_of(m.wire()) == m.wire().len(),
{
    lemma_names_bytes_len(m.wname);
    lemma_names_size_nonneg(m.wname);
    lemma_le_u32_roundtrip(m.length() as u32, m.wire().skip(4));
    assert(m.wire() =~= le_bytes_u32(m.length() as u32) + m.wire().skip(4));
}

/// Composing a parsed Twalk gives back its size and the bytes it was parsed from; its name
/// count is the number of its names.
pub proof fn lemma_walk_inverse(b: Seq<u8>)
    requires
        TWalk::spec_decode(b) is Some,
        b.len() + 4 <= usize::MAX,
    ensures
        TWalk::spec_decode(b)->Some_0.0.composable(),
        TWalk::spec_decode(b)->Some_0.0.wname.len() == TWalk::spec_decode(b)->Some_0.0.nwname,
        TWalk::spec_decode(b)->Some_0.0.wire() == le_bytes_u32(
            TWalk::spec_decode(b)->Some_0.0.length() as u32,
        ) + b.take(TWalk::spec_decode(b)->Some_0.1),
{
    let (m, n) = TWalk::spec_decode(b)->Some_0;
    let body = b.skip(13);
    let k = le_u16_of(b.skip(11)) as nat;
    lemma_header_inverse(b);
    lemma_le_u32_inverse(b.skip(3));
    lemma_le_u32_inverse(b.skip(7));
    lemma_le_u16_inverse(b.skip(11));
    lemma_names_inverse(body, k);
    lemma_read_strings_len(body, k);
    assert(b.take(n) =~= b.take(3) + b.skip(3).take(4) + b.skip(7).take(4) + b.skip(11).take(2)
        + body.take(n - 13));
    assert(m.wire() =~= le_bytes_u32(m.length() as u32) + b.take(n));
}

/// Where the fields of a composed Twalk stand: the size in bytes 0..4, the type number at 4,
/// the tag in 5..7, `fid` in 7..11, `newfid` in 11..15, `nwname` in 15..17, each little-endian,
/// and the names as 9P strings from byte 17 to the end.
pub proof fn lemma_walk_layout(m: TWalkView)
    requires
        m.composable(),
    ensures
        m.wire().len() == m.length(),
        m.wire()[4] == m.header.htype->Some_0.spec_code(),
        le_u16_of(m.wire().skip(5)) == m.header.htag,
        le_u32_of(m.wire().skip(7)) == m.fid,
        le_u32_of(m.wire().skip(11)) == m.newfid,
        le_u16_of(m.wire().skip(15)) == m.nwname,
        m.wire().skip(17) == names_bytes(m.wname),
        spec_read_strings(m.wire().skip(17), m.wname.len()) == Some(
            (m.wname, m.length() - 17),
        ),
        m.length() <= 0xffff_ffff ==> le_u32_of(m.wire()) == m.length(),
{
    let nb = names_bytes(m.wname);
    let t3 = le_bytes_u16(m.nwname) + nb;
    let t2 = le_bytes_u32(m.newfid) + t3;
    let t1 = le_bytes_u32(m.fid) + t2;
    let w = m.wire();
    lemma_names_bytes_len(m.wname);
    lemma_names_size_nonneg(m.wname);
    assert(w.skip(5) =~= le_bytes_u16(m.header.htag) + t1);
    assert(w.skip(7) =~= t1);
    assert(w.skip(11) =~= t2);
    assert(w.skip(15) =~= t3);
    assert(w.skip(17) =~= nb);
    lemma_le_u16_roundtrip(m.header.htag, t1);
    lemma_le_u32_roundtrip(m.fid, t2);
    lemma_le_u32_roundtrip(m.newfid, t3);
    lemma_le_u16_roundtrip(m.nwname, nb);
    lemma_names_roundtrip(m.wname, Seq::empty());
    assert(nb + Seq::<u8>::empty() =~= nb);
    if m.length() <= 0xffff_ffff {
        lemma_walk_size(m);
    }
}

/// What a parsed Twalk holds, by offset into the bytes after its size field: the type number
/// at 0, the tag in 1..3, `fid` in 3..7, `newfid` in 7..11, `nwname` in 11..13, each
/// little-endian, then `nwname` 9P strings. Parsing succeeds exactly when there are 13 bytes,
/// the type number is one of 9P's, and that many strings can be read.
pub proof fn lemma_walk_decode_layout(b: Seq<u8>)
    ensures
        TWalk::spec_decode(b) is Some <==> (b.len() >= 13 && 100 <= b[0] <= 127
            && spec_read_strings(b.skip(13), le_u16_of(b.skip(11)) as nat) is Some),
        TWalk::spec_decode(b) matches Some((m, n)) ==> {
            &&& m.header.htype == Some(header_type_of(b[0]))
            &&& m.header.htag == le_u16_of(b.skip(1))
            &&& m.fid == le_u32_of(b.skip(3))
            &&& m.newfid == le_u32_of(b.skip(7))
            &&& m.nwname == le_u16_of(b.skip(11))
            &&& spec_read_strings(b.skip(13), m.nwname as nat) == Some((m.wname, n - 13))
        },
{
}

impl Fcall for TWalk {
    open spec fn tag_defined(&self) -> bool {
        true
    }

    open spec fn spec_tag(&self) -> u16 {
        self.header.htag
    }

    open spec fn spec_set_header(before: TWalkView, header: Header) -> TWalkView {
        TWalkView { header, ..before }
    }

    open spec fn compose_defined(&self) -> bool {
        self@.composable()
    }

    open spec fn spec_compose(&self) -> Seq<u8> {
        self@.wire()
    }

    open spec fn parse_defined(buf: Seq<u8>) -> bool {
        TWalk::spec_decode(buf) is Some
    }

    open spec fn spec_parse(before: TWalkView, buf: Seq<u8>) -> (TWalkView, int) {
        TWalk::spec_decode(buf)->Some_0
    }

    fn set_header(&mut self, header: Header) {
        self.header = header;
    }

    fn get_tag(&self) -> u16 {
        self.header.htag
    }

    fn compose(&self) -> Option<Vec<u8>> {
        let ghost names = self.wname.deep_view();
        let mut length: usize = 4 + 1 + 2 + 4 + 4 + 2;
        let mut i: usize = 0;
        while i < self.wname.len()
            invariant
                names == self.wname.deep_view(),
                self@.composable(),
                i <= self.wname.len(),
                length == 17 + names_size(names.take(i as int)),
            decreases self.wname.len() - i,
        {
            proof {
                lemma_names_size_prefix(names, i + 1);
                assert(names.take(i + 1).drop_last() =~= names.take(i as int));
            }
            length = length + 2 + utf8_len(&self.wname[i]);
            i = i + 1;
        }
        assert(names.take(i as int) =~= names);
        let mut buffer: Vec<u8> = Vec::with_capacity(length);
        push_le_u32(&mut buffer, length as u32);
        buffer.push(self.header.htype.unwrap().code());
        push_le_u16(&mut buffer, self.header.htag);
        push_le_u32(&mut buffer, self.fid);
        push_le_u32(&mut buffer, self.newfid);
        push_le_u16(&mut buffer, self.nwname);
        let ghost prefix = buffer@;
        let mut j: usize = 0;
        while j < self.wname.len()
            invariant
                names == self.wname.deep_view(),
                names_fit(names),
                j <= self.wname.len(),
                buffer@ == prefix + names_bytes(names.take(j as int)),
            decreases self.wname.len() - j,
        {
            assert(names.take(j + 1).drop_last() =~= names.take(j as int));
            assert(string_fits(names[j as int]));
            push_string(&mut buffer, &self.wname[j]);
            assert(buffer@ =~= prefix + names_bytes(names.take(j + 1)));
            j = j + 1;
        }
        assert(names.take(j as int) =~= names);
        assert(buffer@ =~= self@.wire());
        Some(buffer)
    }

    fn parse(&mut self, buf: &mut &[u8]) {
        match TWalk::decode(buf) {
            Some(m) => {
                *self = m;
            },
            None => {},
        }
    }
}

// ---------------------------------------------------------------------------
// Rwalk
// ---------------------------------------------------------------------------

/// Rwalk: the qid of each step walked.
pub struct RWalk {
    pub header: Header,
    pub nwqid: u16,
    pub wqid: Vec<Qid>,
}

/// An Rwalk as values.
#[verifier::ext_equal]
pub struct RWalkView {
    pub header: Header,
    pub nwqid: u16,
    pub wqid: Seq<Qid>,
}

impl View for RWalk {
    type V = RWalkView;

    open spec fn view(&self) -> RWalkView {
        RWalkView { header: self.header, nwqid: self.nwqid, wqid: self.wqid@ }
    }
}

impl Default for RWalk {
    fn default() -> (r: Self)
        ensures
            r@ == RWalkView::spec_default(),
    {
        RWalk { header: Header::default(), nwqid: 0, wqid: Vec::new() }
    }
}

impl RWalkView {
    /// A fresh Rwalk: default header, no qids.
    pub open spec fn spec_default() -> RWalkView {
        RWalkView { header: Header::spec_default(), nwqid: 0, wqid: Seq::empty() }
    }

    /// The message can be composed: its type is known and its stated size, 4 + 1 + 2 + 2 +
    /// 13 per qid, fits 16 bits.
    pub open spec fn composable(self) -> bool {
        self.header.htype is Some && 9 + 13 * self.nwqid <= 0xffff
    }

    /// The size that the message states.
    pub open spec fn stated_size(self) -> int {
        9 + 13 * self.nwqid
    }

    /// The composed message: size, type, tag, nwqid, then the 13 bytes of each qid in
    /// `wqid`.
    pub open spec fn wire(self) -> Seq<u8> {
        le_bytes_u32(self.stated_size() as u32) + self.header.wire() + le_bytes_u16(self.nwqid)
            + qids_bytes(self.wqid)
    }
}

impl RWalk {
    /// The message after its size field: header, nwqid, then nwqid qids of 13 bytes each;
    /// with the number of bytes it takes. `None` when the header is invalid or the bytes run
    /// out.
    pub open spec fn spec_decode(b: Seq<u8>) -> Option<(RWalkView, int)> {
        match Header::spec_decode(b) {
            None => None,
            Some((h, _)) => if b.len() < 5 || b.len() < 5 + 13 * le_u16_of(b.skip(3)) {
                None
            } else {
                let nw = le_u16_of(b.skip(3));
                Some(
                    (
                        RWalkView {
                            header: h,
                            nwqid: nw,
                            wqid: Seq::new(
                                nw as nat,
                                |i: int| Qid::spec_decode(b.skip(5 + 13 * i))->Some_0.0,
                            ),
                        },
                        5 + 13 * nw,
                    ),
                )
            },
        }
    }

    /// Reads an Rwalk (after its size field) from the front of `buf`.
    pub fn decode(buf: &mut &[u8]) -> (r: Option<RWalk>)
        ensures
            r is Some <==> RWalk::spec_decode(old(buf)@) is Some,
            r matches Some(m) ==> m@ == RWalk::spec_decode(old(buf)@)->Some_0.0
                && final(buf)@ == old(buf)@.skip(RWalk::spec_decode(old(buf)@)->Some_0.1),
    {
        let ghost start = buf@;
        let header = match Header::decode(buf) {
            Some(h) => h,
            None => return None,
        };
        if buf.len() < 2 {
            return None;
        }
        let nwqid = read_le_u16(buf);
        assert(start.skip(3).skip(2) =~= start.skip(5));
        if buf.len() / 13 < nwqid as usize {
            return None;
        }
        let mut wqid: Vec<Qid> = Vec::with_capacity(nwqid as usize);
        let mut i: u16 = 0;
        while i < nwqid
            invariant
                i <= nwqid,
                nwqid == le_u16_of(start.skip(3)),
                start.len() >= 5 + 13 * nwqid,
                buf@ == start.skip(5 + 13 * i),
                wqid@.len() == i,
                forall|k: int|
                    0 <= k < i ==> #[trigger] wqid@[k] == Qid::spec_decode(
                        start.skip(5 + 13 * k),
                    )->Some_0.0,
            decreases nwqid - i,
        {
            let q = Qid::decode(buf).unwrap();
            assert(start.skip(5 + 13 * i).skip(13) =~= start.skip(5 + 13 * (i + 1)));
            wqid.push(q);
            i = i + 1;
        }
        let r = RWalk { header, nwqid, wqid };
        assert(r@.wqid =~= RWalk::spec_decode(start)->Some_0.0.wqid);
        Some(r)
    }

    /// An Rwalk read from `val`, over a fresh message.
    pub fn from_bytes(val: Vec<u8>) -> (r: RWalk)
        requires
            RWalk::spec_decode(val@) is Some,
        ensures
            r@ == RWalk::spec_decode(val@)->Some_0.0,
    {
        let mut ret = RWalk::default();
        let b = &mut val.as_slice();
        ret.parse(b);
        ret
    }
}

/// The bytes of each qid of `qs`, one after another.
pub open spec fn qids_bytes(qs: Seq<Qid>) -> Seq<u8>
    decreases qs.len(),
{
    if qs.len() == 0 {
        Seq::empty()
    } else {
        qids_bytes(qs.drop_last()) + qs.last().wire()
    }
}

/// Qids take 13 bytes each.
pub proof fn lemma_qids_bytes_len(qs: Seq<Qid>)
    ensures
        qids_bytes(qs).len() == 13 * qs.len(),
    decreases qs.len(),
{
    if qs.len() > 0 {
        lemma_qids_bytes_len(qs.drop_last());
        lemma_qid_roundtrip(qs.last(), Seq::empty());
    }
}

/// The `i`th qid reads back from its place in the qids' bytes, whatever follows.
pub proof fn lemma_qids_bytes_at(qs: Seq<Qid>, i: int, rest: Seq<u8>)
    requires
        0 <= i < qs.len(),
    ensures
        Qid::spec_decode((qids_bytes(qs) + rest).skip(13 * i)) == Some((qs[i], 13int)),
    decreases qs.len(),
{
    let init = qs.drop_last();
    let last = qs.last();
    let rest2 = last.wire() + rest;
    lemma_qids_bytes_len(init);
    assert(qids_bytes(qs) + rest =~= qids_bytes(init) + rest2);
    if i == qs.len() - 1 {
        assert((qids_bytes(init) + rest2).skip(13 * i) =~= rest2);
        lemma_qid_roundtrip(last, rest);
    } else {
        lemma_qids_bytes_at(init, i, rest2);
    }
}

/// Writing back qids read from consecutive 13-byte blocks gives those blocks.
pub proof fn lemma_qids_inverse(c: Seq<u8>, k: nat)
    requires
        c.len() >= 13 * k,
    ensures
        qids_bytes(Seq::new(k, |i: int| Qid::spec_decode(c.skip(13 * i))->Some_0.0)) == c.take(
            13 * (k as int),
        ),
    decreases k,
{
    let qs = Seq::new(k, |i: int| Qid::spec_decode(c.skip(13 * i))->Some_0.0);
    if k > 0 {
        let j = (k - 1) as nat;
        let init = Seq::new(j, |i: int| Qid::spec_decode(c.skip(13 * i))->Some_0.0);
        assert(qs.drop_last() =~= init);
        lemma_qids_inverse(c, j);
        let jj = j as int;
        lemma_qid_inverse(c.skip(13 * jj));
        assert(c.take(13 * (k as int)) =~= c.take(13 * jj) + c.skip(13 * jj).take(13));
    } else {
        assert(c.take(0) =~= Seq::<u8>::empty());
    }
}

/// A composed Rwalk whose `nwqid` counts its qids is as long as its size field says.
proof fn lemma_rwalk_size(m: RWalkView)
    requires
        m.composable(),
        m.wqid.len() == m.nwqid,
    ensures
        m.wire().len() == m.stated_size(),
        le_u32_of(m.wire()) == m.wire().len(),
{
    lemma_qids_bytes_len(m.wqid);
    lemma_le_u32_roundtrip(m.stated_size() as u32, m.wire().skip(4));
    assert(m.wire() =~= le_bytes_u32(m.stated_size() as u32) + m.wire().skip(4));
}

/// The qids that a decoder reads from `qb + rest`, `qb` the bytes of `qs`, are `qs`.
proof fn lemma_rwalk_qids(qs: Seq<Qid>, b: Seq<u8>, rest: Seq<u8>)
    requires
        b.skip(5) == qids_bytes(qs) + rest,
        b.len() >= 5,
    ensures
        Seq::new(qs.len(), |i: int| Qid::spec_decode(b.skip(5 + 13 * i))->Some_0.0) == qs,
{
    let d = Seq::new(qs.len(), |i: int| Qid::spec_decode(b.skip(5 + 13 * i))->Some_0.0);
    lemma_qids_bytes_len(qs);
    assert forall|i: int| 0 <= i < qs.len() implies d[i] == qs[i] by {
        lemma_qids_bytes_at(qs, i, rest);
        assert(b.skip(5 + 13 * i) =~= b.skip(5).skip(13 * i));
    }
    assert(d =~= qs);
}

/// Composing an Rwalk whose `nwqid` counts its qids and parsing it back (after its size
/// field) gives the same message, and its size field states its length.
pub proof fn lemma_rwalk_roundtrip(m: RWalkView, rest: Seq<u8>)
    requires
        m.composable(),
        m.wqid.len() == m.nwqid,
    ensures
        m.wire().len() == m.stated_size(),
        le_u32_of(m.wire()) == m.wire().len(),
        RWalk::spec_decode(m.wire().skip(4) + rest) == Some((m, m.stated_size() - 4)),
{
    lemma_rwalk_size(m);
    let qb = qids_bytes(m.wqid);
    let b = m.wire().skip(4) + rest;
    lemma_qids_bytes_len(m.wqid);
    lemma_le_u16_roundtrip(m.nwqid, qb + rest);
    lemma_header_roundtrip(m.header, le_bytes_u16(m.nwqid) + qb + rest);
    assert(b =~= m.header.wire() + (le_bytes_u16(m.nwqid) + qb + rest));
    assert(b.skip(3) =~= le_bytes_u16(m.nwqid) + (qb + rest));
    assert(b.skip(5) =~= qb + rest);
    lemma_rwalk_qids(m.wqid, b, rest);
}

/// Composing a parsed Rwalk gives back its size and the bytes it was parsed from.
pub proof fn lemma_rwalk_inverse(b: Seq<u8>)
    requires
        RWalk::spec_decode(b) is Some,
        RWalk::spec_decode(b)->Some_0.0.stated_size() <= 0xffff,
    ensures
        RWalk::spec_decode(b)->Some_0.0.composable(),
        RWalk::spec_decode(b)->Some_0.0.wqid.len() == RWalk::spec_decode(b)->Some_0.0.nwqid,
        RWalk::spec_decode(b)->Some_0.0.wire() == le_bytes_u32(
            RWalk::spec_decode(b)->Some_0.0.stated_size() as u32,
        ) + b.take(RWalk::spec_decode(b)->Some_0.1),
{
    let m = RWalk::spec_decode(b)->Some_0.0;
    let k = m.nwqid as nat;
    let c = b.skip(5);
    lemma_header_inverse(b);
    lemma_le_u16_inverse(b.skip(3));
    lemma_qids_inverse(c, k);
    let qs = Seq::new(k, |i: int| Qid::spec_decode(c.skip(13 * i))->Some_0.0);
    assert forall|i: int| 0 <= i < k implies m.wqid[i] == qs[i] by {
        assert(b.skip(5 + 13 * i) =~= c.skip(13 * i));
    }
    assert(m.wqid =~= qs);
    let kk = k as int;
    assert(b.take(5 + 13 * kk) =~= b.take(5) + c.take(13 * kk));
    assert(m.wire() =~= le_bytes_u32(m.stated_size() as u32) + b.take(5 + 13 * kk));
}

/// Where the fields of a composed Rwalk whose `nwqid` counts its qids stand: the size in bytes
/// 0..4, the type number at 4, the tag in 5..7, `nwqid` in 7..9, then qid `i` in the 13 bytes
/// from `9 + 13 * i`: its type, its version in the next 4 and its path number in the 8 after,
/// each little-endian.
pub proof fn lemma_rwalk_layout(m: RWalkView)
    requires
        m.composable(),
        m.wqid.len() == m.nwqid,
    ensures
        m.wire().len() == m.stated_size(),
        le_u32_of(m.wire()) == m.stated_size(),
        m.wire()[4] == m.header.htype->Some_0.spec_code(),
        le_u16_of(m.wire().skip(5)) == m.header.htag,
        le_u16_of(m.wire().skip(7)) == m.nwqid,
        forall|i: int|
            0 <= i < m.nwqid ==> {
                &&& m.wire()[9 + 13 * i] == (#[trigger] m.wqid[i]).qtype
                &&& le_u32_of(m.wire().skip(10 + 13 * i)) == m.wqid[i].vers
                &&& le_u64_of(m.wire().skip(14 + 13 * i)) == m.wqid[i].uid
            },
{
    let w = m.wire();
    let qb = qids_bytes(m.wqid);
    lemma_rwalk_size(m);
    lemma_qids_bytes_len(m.wqid);
    lemma_le_u16_roundtrip(m.header.htag, le_bytes_u16(m.nwqid) + qb);
    lemma_le_u16_roundtrip(m.nwqid, qb);
    assert(w.skip(5) =~= le_bytes_u16(m.header.htag) + (le_bytes_u16(m.nwqid) + qb));
    assert(w.skip(7) =~= le_bytes_u16(m.nwqid) + qb);
    assert forall|i: int| 0 <= i < m.nwqid implies {
        &&& m.wire()[9 + 13 * i] == (#[trigger] m.wqid[i]).qtype
        &&& le_u32_of(m.wire().skip(10 + 13 * i)) == m.wqid[i].vers
        &&& le_u64_of(m.wire().skip(14 + 13 * i)) == m.wqid[i].uid
    } by {
        let c = w.skip(9 + 13 * i);
        lemma_qids_bytes_at(m.wqid, i, Seq::empty());
        assert(qb + Seq::<u8>::empty() =~= qb);
        assert(c =~= qb.skip(13 * i));
        assert(w[9 + 13 * i] == c[0]);
        assert(w.skip(10 + 13 * i) =~= c.skip(1));
        assert(w.skip(14 + 13 * i) =~= c.skip(5));
    }
}

/// What a parsed Rwalk holds, by offset into the bytes after its size field: the type number
/// at 0, the tag in 1..3, `nwqid` in 3..5, then qid `i` in the 13 bytes from `5 + 13 * i`: its
/// type, its version in the next 4 and its path number in the 8 after, each little-endian.
/// Parsing succeeds exactly when the type number is one of 9P's and all `nwqid` qids are there.
pub proof fn lemma_rwalk_decode_layout(b: Seq<u8>)
    ensures
        RWalk::spec_decode(b) is Some <==> (b.len() >= 5 && 100 <= b[0] <= 127 && b.len() >= 5
            + 13 * le_u16_of(b.skip(3))),
        RWalk::spec_decode(b) matches Some((m, n)) ==> {
            &&& m.header.htype == Some(header_type_of(b[0]))
            &&& m.header.htag == le_u16_of(b.skip(1))
            &&& m.nwqid == le_u16_of(b.skip(3))
            &&& m.wqid.len() == m.nwqid
            &&& n == 5 + 13 * m.nwqid
            &&& forall|i: int|
                0 <= i < m.nwqid ==> {
                    &&& (#[trigger] m.wqid[i]).qtype == b[5 + 13 * i]
                    &&& m.wqid[i].vers == le_u32_of(b.skip(6 + 13 * i))
                    &&& m.wqid[i].uid == le_u64_of(b.skip(10 + 13 * i))
                }
        },
{
    if RWalk::spec_decode(b) is Some {
        let m = RWalk::spec_decode(b)->Some_0.0;
        assert forall|i: int| 0 <= i < m.nwqid implies {
            &&& (#[trigger] m.wqid[i]).qtype == b[5 + 13 * i]
            &&& m.wqid[i].vers == le_u32_of(b.skip(6 + 13 * i))
            &&& m.wqid[i].uid == le_u64_of(b.skip(10 + 13 * i))
        } by {
            let c = b.skip(5 + 13 * i);
            assert(c.skip(1) =~= b.skip(6 + 13 * i));
            assert(c.skip(5) =~= b.skip(10 + 13 * i));
        }
    }
}

impl Fcall for RWalk {
    open spec fn tag_defined(&self) -> bool {
        true
    }

    open spec fn spec_tag(&self) -> u16 {
        self.header.htag
    }

    open spec fn spec_set_header(before: RWalkView, header: Header) -> RWalkView {
        RWalkView { header, ..before }
    }

    open spec fn compose_defined(&self) -> bool {
        self@.composable()
    }

    open spec fn spec_compose(&self) -> Seq<u8> {
        self@.wire()
    }

    open spec fn parse_defined(buf: Seq<u8>) -> bool {
        RWalk::spec_decode(buf) is Some
    }

    open spec fn spec_parse(before: RWalkView, buf: Seq<u8>) -> (RWalkView, int) {
        RWalk::spec_decode(buf)->Some_0
    }

    fn set_header(&mut self, header: Header) {
        self.header = header;
    }

    fn get_tag(&self) -> u16 {
        self.header.htag
    }

    fn compose(&self) -> Option<Vec<u8>> {
        let length: u16 = 4 + 1 + 2 + 2 + (self.nwqid * 13);
        let mut buffer: Vec<u8> = Vec::with_capacity(length as usize);
        push_le_u32(&mut buffer, length as u32);
        buffer.push(self.header.htype.unwrap().code());
        push_le_u16(&mut buffer, self.header.htag);
        push_le_u16(&mut buffer, self.nwqid);
        let ghost prefix = buffer@;
        let ghost qs = self.wqid@;
        let mut j: usize = 0;
        while j < self.wqid.len()
            invariant
                qs == self.wqid@,
                j <= qs.len(),
                buffer@ == prefix + qids_bytes(qs.take(j as int)),
            decreases qs.len() - j,
        {
            assert(qs.take(j + 1).drop_last() =~= qs.take(j as int));
            self.wqid[j].push_to(&mut buffer);
            assert(buffer@ =~= prefix + qids_bytes(qs.take(j + 1)));
            j = j + 1;
        }
        assert(qs.take(j as int) =~= qs);
        assert(buffer@ =~= self@.wire());
        Some(buffer)
    }

    fn parse(&mut self, buf: &mut &[u8]) {
        match RWalk::decode(buf) {
            Some(m) => {
                *self = m;
            },
            None => {},
        }
    }
}

} // verus!
