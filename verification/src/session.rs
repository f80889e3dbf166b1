//! The client's bookkeeping: fid and tag pools, and the requests it builds.
use crate::clunk::TClunk;
use crate::header::{Header, HeaderType};
use crate::message::Message;
use crate::open::{Mode, TOpen};
use crate::read::{RRead, TRead};
use crate::walk::{TWalk, TWalkView};
use vstd::prelude::*;
use vstd::string::StrSliceExecFns;

verus! {

// ---------------------------------------------------------------------------
// Identifier pools
// ---------------------------------------------------------------------------

/// A bounded counter type that identifiers are drawn from.
pub trait Counter: Copy + Sized {
    /// The counter's value.
    spec fn value(self) -> int;

    /// The largest value the type holds.
    spec fn bound() -> int;

    /// The sum of two counters.
    fn plus(self, y: Self) -> (r: Self)
        requires
            self.value() + y.value() <= Self::bound(),
        ensures
            r.value() == self.value() + y.value(),
    ;
}

impl Counter for u16 {
    open spec fn value(self) -> int {
        self as int
    }

    open spec fn bound() -> int {
        u16::MAX as int
    }

    fn plus(self, y: u16) -> u16 {
        self + y
    }
}

impl Counter for u32 {
    open spec fn value(self) -> int {
        self as int
    }

    open spec fn bound() -> int {
        u32::MAX as int
    }

    fn plus(self, y: u32) -> u32 {
        self + y
    }
}

/// Takes an identifier: the last one in the pool `from` if there is one (removing it),
/// else the counter `x` moved on by `y`, which is also the new counter.
pub fn take<T: Counter>(from: &mut Vec<T>, x: &mut T, y: T) -> (r: T)
    requires
        old(from)@.len() == 0 ==> old(x).value() + y.value() <= T::bound(),
    ensures
        old(from)@.len() > 0 ==> {
            &&& r == old(from)@.last()
            &&& final(from)@ == old(from)@.drop_last()
            &&& *final(x) == *old(x)
        },
        old(from)@.len() == 0 ==> {
            &&& final(from)@ == old(from)@
            &&& final(x).value() == old(x).value() + y.value()
            &&& r == *final(x)
        },
{
    match from.pop() {
        Some(v) => v,
        None => {
            *x = x.plus(y);
            *x
        },
    }
}

/// Returning an identifier to a pool and then taking one gives that identifier back and
/// leaves the pool as it was: on the pool `pool.push(id)`, which is not empty, `take` returns
/// its last element, `id`, leaves `pool`, and does not move the counter.
pub proof fn lemma_take_after_return<T: Counter>(pool: Seq<T>, id: T)
    ensures
        pool.push(id).len() > 0,
        pool.push(id).last() == id,
        pool.push(id).drop_last() == pool,
{
    assert(pool.push(id).drop_last() =~= pool);
}

// ---------------------------------------------------------------------------
// Paths
// ---------------------------------------------------------------------------

/// The components found so far in `s`, read left to right, and the component being read.
pub open spec fn split_state(s: Seq<char>) -> (Seq<Seq<char>>, Seq<char>)
    decreases s.len(),
{
    if s.len() == 0 {
        (Seq::empty(), Seq::empty())
    } else {
        let (done, cur) = split_state(s.drop_last());
        if s.last() == '/' {
            (if cur.len() > 0 { done.push(cur) } else { done }, Seq::empty())
        } else {
            (done, cur.push(s.last()))
        }
    }
}

/// The non-empty pieces of `s` between `/` characters, in order.
pub open spec fn path_components(s: Seq<char>) -> Seq<Seq<char>> {
    let (done, cur) = split_state(s);
    if cur.len() > 0 {
        done.push(cur)
    } else {
        done
    }
}

/// The component being read is the run of characters since the last `/`.
proof fn lemma_split_state_cur(s: Seq<char>, start: int)
    requires
        0 <= start <= s.len(),
        start == 0 || s[start - 1] == '/',
        forall|k: int| start <= k < s.len() ==> s[k] != '/',
    ensures
        split_state(s).1 == s.subrange(start, s.len() as int),
    decreases s.len(),
{
    if s.len() > start {
        lemma_split_state_cur(s.drop_last(), start);
        assert(s.drop_last().subrange(start, s.len() - 1).push(s.last()) =~= s.subrange(
            start,
            s.len() as int,
        ));
    } else if s.len() > 0 {
        assert(s.last() == '/');
    }
}

/// The non-empty `/`-separated components of `path`, in order.
pub fn split_path(path: &str) -> (r: Vec<String>)
    ensures
        r.deep_view() == path_components(path@),
{
    let n = path.unicode_len();
    let mut parts: Vec<String> = Vec::new();
    let mut start: usize = 0;
    let mut i: usize = 0;
    while i < n
        invariant
            n == path@.len(),
            start <= i <= n,
            start == 0 || path@[start - 1] == '/',
            forall|k: int| start <= k < i ==> path@[k] != '/',
            parts.deep_view() == split_state(path@.take(i as int)).0,
        decreases n - i,
    {
        let c = path.get_char(i);
        proof {
            lemma_split_state_cur(path@.take(i as int), start as int);
            assert(path@.take(i + 1).drop_last() =~= path@.take(i as int));
            assert(path@.take(i as int).subrange(start as int, i as int) =~= path@.subrange(
                start as int,
                i as int,
            ));
        }
        if c == '/' {
            if i > start {
                let piece = path.substring_char(start, i).to_owned();
                let ghost before = parts.deep_view();
                parts.push(piece);
                assert(parts.deep_view() =~= before.push(piece@));
            }
            start = i + 1;
        }
        i = i + 1;
    }
    proof {
        lemma_split_state_cur(path@.take(i as int), start as int);
        assert(path@.take(i as int) =~= path@);
    }
    if n > start {
        let piece = path.substring_char(start, n).to_owned();
        let ghost before = parts.deep_view();
        parts.push(piece);
        assert(parts.deep_view() =~= before.push(piece@));
    }
    parts
}

// ---------------------------------------------------------------------------
// The client's state
// ---------------------------------------------------------------------------

/// What a client keeps between requests: the root fid, the pools of returned tags and fids
/// with the last of each handed out, and the negotiated message size.
pub struct Session {
    pub rootfid: u32,
    pub tags: Vec<u16>,
    pub last_tag: u16,
    pub fids: Vec<u32>,
    pub last_fid: u32,
    pub msize: u32,
}

impl Session {
    /// A new session: root fid 0, empty pools, last tag 1, last fid 0, size 0.
    pub fn new() -> (r: Session)
        ensures
            r.rootfid == 0,
            r.tags@ == Seq::<u16>::empty(),
            r.last_tag == 1,
            r.fids@ == Seq::<u32>::empty(),
            r.last_fid == 0,
            r.msize == 0,
            r.valid_tags(),
            r.tags_in_use() == Set::<u16>::empty(),
            r.valid_fids(),
            r.fids_in_use() == Set::<u32>::empty(),
    {
        let r = Session { rootfid: 0, tags: Vec::new(), last_tag: 1, fids: Vec::new(), last_fid: 0, msize: 0 };
        assert(r.fids_in_use() =~= Set::<u32>::empty());
        assert(r.tags_in_use() =~= Set::<u16>::empty());
        r
    }

    /// The tags handed out and not returned: those counted so far (counting starts at 2)
    /// that are not in the pool.
    pub open spec fn tags_in_use(&self) -> Set<u16> {
        Set::new(|t: u16| 2 <= t <= self.last_tag && !self.tags@.contains(t))
    }

    /// The tag pool holds only tags counted so far, so never tag 0, each once; and the
    /// counter is past 0.
    pub open spec fn valid_tags(&self) -> bool {
        &&& self.last_tag >= 1
        &&& forall|i: int| 0 <= i < self.tags@.len() ==> 2 <= #[trigger] self.tags@[i] <= self.last_tag
        &&& self.tags@.no_duplicates()
    }

    /// The fids handed out and not returned: those counted so far that are not in the pool.
    pub open spec fn fids_in_use(&self) -> Set<u32> {
        Set::new(|f: u32| 1 <= f <= self.last_fid && !self.fids@.contains(f))
    }

    /// The fid pool holds only fids counted so far, none of them 0, each once.
    pub open spec fn valid_fids(&self) -> bool {
        &&& forall|i: int| 0 <= i < self.fids@.len() ==> 1 <= #[trigger] self.fids@[i] <= self.last_fid
        &&& self.fids@.no_duplicates()
    }

    /// Whether a fid can be taken: one was returned, or the counter has room.
    pub open spec fn can_take_fid(&self) -> bool {
        self.fids@.len() > 0 || self.last_fid < u32::MAX
    }

    /// Whether a tag can be taken: one was returned, or the counter has room.
    pub open spec fn can_take_tag(&self) -> bool {
        self.tags@.len() > 0 || self.last_tag < u16::MAX
    }

    /// The fid that `take_fid` hands out.
    pub open spec fn next_fid(&self) -> u32 {
        if self.fids@.len() > 0 {
            self.fids@.last()
        } else {
            (self.last_fid + 1) as u32
        }
    }

    /// The tag that `take_tag` hands out.
    pub open spec fn next_tag(&self) -> u16 {
        if self.tags@.len() > 0 {
            self.tags@.last()
        } else {
            (self.last_tag + 1) as u16
        }
    }

    /// The fid pool after a fid is taken.
    pub open spec fn fids_after_take(&self) -> Seq<u32> {
        if self.fids@.len() > 0 {
            self.fids@.drop_last()
        } else {
            self.fids@
        }
    }

    /// The fid counter after a fid is taken.
    pub open spec fn last_fid_after_take(&self) -> u32 {
        if self.fids@.len() > 0 {
            self.last_fid
        } else {
            (self.last_fid + 1) as u32
        }
    }

    /// The tag pool after a tag is taken.
    pub open spec fn tags_after_take(&self) -> Seq<u16> {
        if self.tags@.len() > 0 {
            self.tags@.drop_last()
        } else {
            self.tags@
        }
    }

    /// The tag counter after a tag is taken.
    pub open spec fn last_tag_after_take(&self) -> u16 {
        if self.tags@.len() > 0 {
            self.last_tag
        } else {
            (self.last_tag + 1) as u16
        }
    }

    /// `after` is this session with one tag taken, and nothing else changed.
    pub open spec fn tag_taken(&self, after: &Session) -> bool {
        &&& after.tags@ == self.tags_after_take()
        &&& after.last_tag == self.last_tag_after_take()
        &&& after.fids@ == self.fids@
        &&& after.last_fid == self.last_fid
        &&& after.rootfid == self.rootfid
        &&& after.msize == self.msize
    }

    /// Hands out a fid: the last one returned, else the next one counted.
    pub fn take_fid(&mut self) -> (r: u32)
        requires
            old(self).can_take_fid(),
        ensures
            r == old(self).next_fid(),
            final(self).fids@ == old(self).fids_after_take(),
            final(self).last_fid == old(self).last_fid_after_take(),
            final(self).tags@ == old(self).tags@,
            final(self).last_tag == old(self).last_tag,
            final(self).rootfid == old(self).rootfid,
            final(self).msize == old(self).msize,
            old(self).valid_fids() ==> {
                &&& r != 0
                &&& !old(self).fids_in_use().contains(r)
                &&& final(self).valid_fids()
                &&& final(self).fids_in_use() == old(self).fids_in_use().insert(r)
            },
    {
        let r = take(&mut self.fids, &mut self.last_fid, 1);
        proof {
            if old(self).valid_fids() {
                let p = old(self).fids@;
                if p.len() > 0 {
                    assert(p[p.len() - 1] == r);
                    assert(p.contains(r));
                    assert forall|f: u32| #[trigger] self.fids@.contains(f) <==> p.contains(f) && f != r by {
                        if self.fids@.contains(f) {
                            let i = choose|i: int| 0 <= i < self.fids@.len() && self.fids@[i] == f;
                            assert(p[i] == f);
                        }
                        if p.contains(f) && f != r {
                            let i = choose|i: int| 0 <= i < p.len() && p[i] == f;
                            assert(i != p.len() - 1);
                            assert(self.fids@[i] == f);
                        }
                    }
                    assert forall|i: int| 0 <= i < self.fids@.len() implies 1 <= #[trigger] self.fids@[i] <= self.last_fid by {
                        assert(self.fids@[i] == p[i]);
                    }
                    assert forall|i: int, j: int| 0 <= i < j < self.fids@.len() implies self.fids@[i] != self.fids@[j] by {
                        assert(self.fids@[i] == p[i] && self.fids@[j] == p[j]);
                    }
                } else {
                    assert(!p.contains(r));
                }
                assert(self.fids_in_use() =~= old(self).fids_in_use().insert(r));
            }
        }
        r
    }

    /// Hands out a tag: the last one returned, else the next one counted.
    pub fn take_tag(&mut self) -> (r: u16)
        requires
            old(self).can_take_tag(),
        ensures
            r == old(self).next_tag(),
            old(self).tag_taken(final(self)),
            old(self).valid_tags() ==> {
                &&& r != 0
                &&& !old(self).tags_in_use().contains(r)
                &&& final(self).valid_tags()
                &&& final(self).tags_in_use() == old(self).tags_in_use().insert(r)
            },
    {
        let r = take(&mut self.tags, &mut self.last_tag, 1);
        proof {
            if old(self).valid_tags() {
                let p = old(self).tags@;
                if p.len() > 0 {
                    assert(p[p.len() - 1] == r);
                    assert(p.contains(r));
                    assert forall|t: u16| #[trigger] self.tags@.contains(t) <==> p.contains(t) && t != r by {
                        if self.tags@.contains(t) {
                            let i = choose|i: int| 0 <= i < self.tags@.len() && self.tags@[i] == t;
                            assert(p[i] == t);
                        }
                        if p.contains(t) && t != r {
                            let i = choose|i: int| 0 <= i < p.len() && p[i] == t;
                            assert(i != p.len() - 1);
                            assert(self.tags@[i] == t);
                        }
                    }
                    assert forall|i: int| 0 <= i < self.tags@.len() implies 2 <= #[trigger] self.tags@[i] <= self.last_tag by {
                        assert(self.tags@[i] == p[i]);
                    }
                    assert forall|i: int, j: int| 0 <= i < j < self.tags@.len() implies self.tags@[i] != self.tags@[j] by {
                        assert(self.tags@[i] == p[i] && self.tags@[j] == p[j]);
                    }
                } else {
                    assert(!p.contains(r));
                }
                assert(self.tags_in_use() =~= old(self).tags_in_use().insert(r));
            }
        }
        r
    }

    /// Returns a tag to the pool; tag 0 is never pooled.
    pub fn return_tag(&mut self, tag: u16)
        ensures
            final(self).tags@ == if tag != 0 {
                old(self).tags@.push(tag)
            } else {
                old(self).tags@
            },
            final(self).last_tag == old(self).last_tag,
            final(self).fids@ == old(self).fids@,
            final(self).last_fid == old(self).last_fid,
            final(self).rootfid == old(self).rootfid,
            final(self).msize == old(self).msize,
            tag != 0 ==> final(self).next_tag() == tag,
            old(self).valid_tags() && old(self).tags_in_use().contains(tag) ==> {
                &&& final(self).valid_tags()
                &&& final(self).tags_in_use() == old(self).tags_in_use().remove(tag)
            },
    {
        if tag != 0 {
            self.tags.push(tag);
            proof {
                let p = old(self).tags@;
                if old(self).valid_tags() && old(self).tags_in_use().contains(tag) {
                    assert forall|t: u16| #[trigger] self.tags@.contains(t) <==> p.contains(t) || t == tag by {
                        if self.tags@.contains(t) && t != tag {
                            let i = choose|i: int| 0 <= i < self.tags@.len() && self.tags@[i] == t;
                            assert(i < p.len());
                            assert(p[i] == t);
                        }
                        if p.contains(t) {
                            let i = choose|i: int| 0 <= i < p.len() && p[i] == t;
                            assert(self.tags@[i] == t);
                        }
                        if t == tag {
                            assert(self.tags@[p.len() as int] == tag);
                        }
                    }
                    assert forall|i: int, j: int| 0 <= i < j < self.tags@.len() implies self.tags@[i] != self.tags@[j] by {
                        if j == p.len() {
                            assert(self.tags@[i] == p[i]);
                            assert(p.contains(p[i]));
                        } else {
                            assert(self.tags@[i] == p[i] && self.tags@[j] == p[j]);
                        }
                    }
                    assert forall|i: int| 0 <= i < self.tags@.len() implies 2 <= #[trigger] self.tags@[i] <= self.last_tag by {
                        if i < p.len() {
                            assert(self.tags@[i] == p[i]);
                        }
                    }
                    assert(self.tags_in_use() =~= old(self).tags_in_use().remove(tag));
                }
            }
        }
    }

    /// Returns a fid to the pool.
    pub fn return_fid(&mut self, fid: u32)
        ensures
            final(self).fids@ == old(self).fids@.push(fid),
            final(self).next_fid() == fid,
            old(self).valid_fids() && old(self).fids_in_use().contains(fid) ==> {
                &&& final(self).valid_fids()
                &&& final(self).fids_in_use() == old(self).fids_in_use().remove(fid)
            },
            final(self).tags@ == old(self).tags@,
            final(self).last_tag == old(self).last_tag,
            final(self).last_fid == old(self).last_fid,
            final(self).rootfid == old(self).rootfid,
            final(self).msize == old(self).msize,
    {
        self.fids.push(fid);
        proof {
            let p = old(self).fids@;
            if old(self).valid_fids() && old(self).fids_in_use().contains(fid) {
                assert forall|f: u32| #[trigger] self.fids@.contains(f) <==> p.contains(f) || f == fid by {
                    if self.fids@.contains(f) && f != fid {
                        let i = choose|i: int| 0 <= i < self.fids@.len() && self.fids@[i] == f;
                        assert(i < p.len());
                        assert(p[i] == f);
                    }
                    if p.contains(f) {
                        let i = choose|i: int| 0 <= i < p.len() && p[i] == f;
                        assert(self.fids@[i] == f);
                    }
                    if f == fid {
                        assert(self.fids@[p.len() as int] == fid);
                    }
                }
                assert forall|i: int, j: int| 0 <= i < j < self.fids@.len() implies self.fids@[i] != self.fids@[j] by {
                    if j == p.len() {
                        assert(self.fids@[i] == p[i]);
                        assert(p.contains(p[i]));
                    } else {
                        assert(self.fids@[i] == p[i] && self.fids@[j] == p[j]);
                    }
                }
                assert forall|i: int| 0 <= i < self.fids@.len() implies 1 <= #[trigger] self.fids@[i] <= self.last_fid by {
                    if i < p.len() {
                        assert(self.fids@[i] == p[i]);
                    }
                }
                assert(self.fids_in_use() =~= old(self).fids_in_use().remove(fid));
            }
        }
    }

    /// The walk from the root to `path`, with the fid it will name: takes a fid, then a tag;
    /// the names are the path's non-empty components, and their count is kept to 16 bits.
    pub fn walk_request(&mut self, path: &str) -> (r: (TWalk, u32))
        requires
            old(self).can_take_fid(),
            old(self).can_take_tag(),
        ensures
            r.1 == old(self).next_fid(),
            r.0@ == (TWalkView {
                header: Header { htype: Some(HeaderType::Twalk), htag: old(self).next_tag() },
                fid: old(self).rootfid,
                newfid: r.1,
                nwname: path_components(path@).len() as u16,
                wname: path_components(path@),
            }),
            final(self).fids@ == old(self).fids_after_take(),
            final(self).last_fid == old(self).last_fid_after_take(),
            final(self).tags@ == old(self).tags_after_take(),
            final(self).last_tag == old(self).last_tag_after_take(),
            final(self).rootfid == old(self).rootfid,
            final(self).msize == old(self).msize,
    {
        let parts = split_path(path);
        let newfid = self.take_fid();
        let htag = self.take_tag();
        let nwname = parts.len() as u16;
        let walk = TWalk {
            header: Header { htype: Some(HeaderType::Twalk), htag },
            fid: self.rootfid,
            newfid,
            nwname,
            wname: parts,
        };
        (walk, newfid)
    }

    /// The outcome of a walk of `nwname` names to `newfid`: the fid when the reply is an
    /// Rwalk with a qid for every name, the only reply that makes `newfid` stand for the
    /// walked file; otherwise `None`, and `newfid` is to be clunked.
    pub fn walk_outcome(newfid: u32, nwname: u16, resp: &Option<Message>) -> (r: Option<u32>)
        ensures
            r == (if resp matches Some(Message::RWalk(w)) && w.nwqid == nwname {
                Some(newfid)
            } else {
                None::<u32>
            }),
    {
        match resp {
            Some(Message::RWalk(w)) => {
                if w.nwqid == nwname {
                    Some(newfid)
                } else {
                    None
                }
            },
            _ => None,
        }
    }

    /// The file that the reply to a Topen of `newfid` opens: for an Ropen, `newfid` at offset
    /// 0 with the reply's I/O unit (none when it is 0); otherwise `None`.
    pub fn open_outcome(newfid: u32, resp: &Option<Message>) -> (r: Option<File>)
        ensures
            match resp {
                Some(Message::ROpen(x)) => r matches Some(f) && f.fid == newfid && f.offset == 0
                    && f.iounit == spec_effective_iounit(x.iounit),
                _ => r is None,
            },
    {
        match resp {
            Some(Message::ROpen(x)) => Some(File::opened(newfid, x.iounit)),
            _ => None,
        }
    }

    /// The text of a reply that is an Rerror; `None` for any other reply.
    pub fn error_text(resp: &Option<Message>) -> (r: Option<String>)
        ensures
            match resp {
                Some(Message::RError(e)) => r matches Some(t) && t@ == e.ename@,
                _ => r is None,
            },
    {
        match resp {
            Some(Message::RError(e)) => Some(e.ename.clone()),
            _ => None,
        }
    }

    /// The Tclunk for `fid`, or `None` for fid 0, which is never clunked. Its tag is taken
    /// from the pool.
    pub fn clunk_request(&mut self, fid: u32) -> (r: Option<TClunk>)
        requires
            fid != 0 ==> old(self).can_take_tag(),
        ensures
            fid == 0 ==> r is None && *final(self) == *old(self),
            fid != 0 ==> r == Some(
                TClunk {
                    header: Header { htype: Some(HeaderType::Tclunk), htag: old(self).next_tag() },
                    fid,
                },
            ) && old(self).tag_taken(final(self)),
    {
        if fid != 0 {
            let htag = self.take_tag();
            Some(TClunk { header: Header { htype: Some(HeaderType::Tclunk), htag }, fid })
        } else {
            None
        }
    }

    /// The Topen of `fid` in `mode`, under a tag taken from the pool.
    pub fn open_request(&mut self, fid: u32, mode: Mode) -> (r: TOpen)
        requires
            old(self).can_take_tag(),
        ensures
            r == (TOpen {
                header: Header { htype: Some(HeaderType::Topen), htag: old(self).next_tag() },
                fid,
                mode,
            }),
            old(self).tag_taken(final(self)),
    {
        let htag = self.take_tag();
        TOpen { header: Header { htype: Some(HeaderType::Topen), htag }, fid, mode }
    }
}

// ---------------------------------------------------------------------------
// Open files
// ---------------------------------------------------------------------------

/// An open file: its fid, the offset of the next read, and the largest read it allows.
pub struct File {
    pub fid: u32,
    pub offset: u64,
    pub iounit: u32,
}

/// The I/O unit a file is opened with: the server's, or no limit when the server gives 0.
pub open spec fn spec_effective_iounit(iounit: u32) -> u32 {
    if iounit == 0 {
        u32::MAX
    } else {
        iounit
    }
}

/// The number of bytes one read asks for: the caller's buffer, at most the message size
/// less 11, and at most the I/O unit.
pub open spec fn spec_read_count(msize: u32, iounit: u32, buf_len: usize) -> int {
    let a = if buf_len > msize - 11 { msize - 11 } else { buf_len as int };
    if a > iounit { iounit as int } else { a }
}

/// The count of a read is the least of the buffer's length, `msize - 11` and the I/O unit:
/// it exceeds none of them and equals one of them.
pub proof fn lemma_read_count_min(msize: u32, iounit: u32, buf_len: usize)
    requires
        msize >= 11,
    ensures
        0 <= spec_read_count(msize, iounit, buf_len) <= iounit,
        spec_read_count(msize, iounit, buf_len) <= msize - 11,
        spec_read_count(msize, iounit, buf_len) <= buf_len,
        spec_read_count(msize, iounit, buf_len) == iounit || spec_read_count(msize, iounit, buf_len)
            == msize - 11 || spec_read_count(msize, iounit, buf_len) == buf_len,
{
}

impl File {
    /// A file opened on `fid` from the server's Ropen I/O unit, at offset 0.
    pub fn opened(fid: u32, iounit: u32) -> (r: File)
        ensures
            r.fid == fid,
            r.offset == 0,
            r.iounit == spec_effective_iounit(iounit),
    {
        File { fid, offset: 0, iounit: if iounit == 0 { u32::MAX } else { iounit } }
    }

    /// The Tread for the next read into a buffer of `buf_len` bytes, under a tag taken from
    /// the pool.
    pub fn read_request(&self, session: &mut Session, buf_len: usize) -> (r: TRead)
        requires
            old(session).msize >= 11,
            old(session).can_take_tag(),
        ensures
            r == (TRead {
                header: Header { htype: Some(HeaderType::Tread), htag: old(session).next_tag() },
                fid: self.fid,
                offset: self.offset,
                count: spec_read_count(old(session).msize, self.iounit, buf_len) as u32,
            }),
            r.count <= self.iounit,
            r.count <= old(session).msize - 11,
            r.count <= buf_len,
            r.count == self.iounit || r.count == old(session).msize - 11 || r.count == buf_len,
            old(session).tag_taken(final(session)),
    {
        let limit = session.msize - 11;
        let mut count: usize = buf_len;
        if count > limit as usize {
            count = limit as usize;
        }
        if count > self.iounit as usize {
            count = self.iounit as usize;
        }
        let htag = session.take_tag();
        TRead {
            header: Header { htype: Some(HeaderType::Tread), htag },
            count: count as u32,
            fid: self.fid,
            offset: self.offset,
        }
    }

    /// Takes in the reply to a read: the reply's data goes to the front of `buf` (nothing is
    /// copied when the count is 0), the offset moves past the bytes read, and the count is
    /// given back.
    pub fn finish_read(&mut self, resp: &RRead, buf: &mut [u8]) -> (r: usize)
        requires
            old(self).offset + resp.count <= u64::MAX,
            resp.count > 0 ==> resp.data@.len() == resp.count && resp.count <= old(buf)@.len(),
        ensures
            r == resp.count,
            final(self).offset == old(self).offset + resp.count,
            final(self).fid == old(self).fid,
            final(self).iounit == old(self).iounit,
            final(buf)@ == if resp.count > 0 {
                resp.data@ + old(buf)@.skip(resp.count as int)
            } else {
                old(buf)@
            },
    {
        if resp.count > 0 {
            let n = resp.count as usize;
            let mut i: usize = 0;
            while i < n
                invariant
                    n == resp.count,
                    n == resp.data@.len(),
                    n <= old(buf)@.len(),
                    i <= n,
                    buf@.len() == old(buf)@.len(),
                    forall|k: int| 0 <= k < i ==> buf@[k] == resp.data@[k],
                    forall|k: int| i <= k < buf@.len() ==> buf@[k] == old(buf)@[k],
                decreases n - i,
            {
                buf[i] = resp.data[i];
                i = i + 1;
            }
            assert(buf@ =~= resp.data@ + old(buf)@.skip(resp.count as int));
        }
        self.record_read(resp.count)
    }

    /// Records a read of `count` bytes: the offset moves past them; gives the count.
    pub fn record_read(&mut self, count: u32) -> (r: usize)
        requires
            old(self).offset + count <= u64::MAX,
        ensures
            final(self).offset == old(self).offset + count,
            final(self).fid == old(self).fid,
            final(self).iounit == old(self).iounit,
            r == count,
    {
        self.offset = self.offset + count as u64;
        count as usize
    }
}

} // verus!
