//! A received message of any kind.
use crate::attach::{RAttach, TAttach, TAttachView};
use crate::clunk::{RClunk, TClunk};
use crate::error::{RError, RErrorView};
use crate::header::{Header, HeaderType};
use crate::open::ROpen;
use crate::read::{RRead, RReadView};
use crate::qid::Qid;
use crate::version::{TRVersion, TRVersionView};
use crate::walk::{RWalk, RWalkView, TWalk, TWalkView};
use vstd::prelude::*;
use vstd::std_specs::convert::FromSpecImpl;

verus! {

/// A message of one of the kinds that a reader dispatches on.
pub enum Message {
    TAttach(TAttach),
    RAttach(RAttach),
    TClunk(TClunk),
    RClunk(RClunk),
    TWalk(TWalk),
    RWalk(RWalk),
    ROpen(ROpen),
    RRead(RRead),
    TVersion(TRVersion),
    RVersion(TRVersion),
    RError(RError),
    Header(Header),
    Qid(Qid),
}

/// A message as values.
pub enum MessageView {
    TAttach(TAttachView),
    RAttach(RAttach),
    TClunk(TClunk),
    RClunk(RClunk),
    TWalk(TWalkView),
    RWalk(RWalkView),
    ROpen(ROpen),
    RRead(RReadView),
    TVersion(TRVersionView),
    RVersion(TRVersionView),
    RError(RErrorView),
    Header(Header),
    Qid(Qid),
}

impl View for Message {
    type V = MessageView;

    open spec fn view(&self) -> MessageView {
        match self {
            Message::TAttach(m) => MessageView::TAttach(m@),
            Message::RAttach(m) => MessageView::RAttach(m@),
            Message::TClunk(m) => MessageView::TClunk(m@),
            Message::RClunk(m) => MessageView::RClunk(m@),
            Message::TWalk(m) => MessageView::TWalk(m@),
            Message::RWalk(m) => MessageView::RWalk(m@),
            Message::ROpen(m) => MessageView::ROpen(m@),
            Message::RRead(m) => MessageView::RRead(m@),
            Message::TVersion(m) => MessageView::TVersion(m@),
            Message::RVersion(m) => MessageView::RVersion(m@),
            Message::RError(m) => MessageView::RError(m@),
            Message::Header(m) => MessageView::Header(m@),
            Message::Qid(m) => MessageView::Qid(m@),
        }
    }
}

/// Whether a version message's header says Tversion or Rversion.
pub open spec fn is_version_type(t: Option<HeaderType>) -> bool {
    t == Some(HeaderType::Tversion) || t == Some(HeaderType::Rversion)
}

impl Message {
    /// Whether `new(h, b)` is defined: `h` is a kind that is dispatched on (version, attach,
    /// walk, Ropen, Rread, clunk, or Rerror), `b` holds a message of that kind, and for a version message
    /// the type that `b` holds is Tversion or Rversion.
    pub open spec fn new_defined(h: HeaderType, b: Seq<u8>) -> bool {
        match h {
            HeaderType::Tversion | HeaderType::Rversion => TRVersion::spec_decode(b) matches Some(
                (v, _),
            ) && is_version_type(v.header.htype),
            HeaderType::Tattach => TAttach::spec_decode(b) is Some,
            HeaderType::Rattach => RAttach::spec_decode(b) is Some,
            HeaderType::Twalk => TWalk::spec_decode(b) is Some,
            HeaderType::Rwalk => RWalk::spec_decode(b) is Some,
            HeaderType::Ropen => ROpen::spec_decode(b) is Some,
            HeaderType::Rread => RRead::spec_decode(b) is Some,
            HeaderType::Tclunk => TClunk::spec_decode(b) is Some,
            HeaderType::Rclunk => RClunk::spec_decode(b) is Some,
            HeaderType::Rerror => RError::spec_decode(b) is Some,
            _ => false,
        }
    }

    /// The message that `new(h, b)` builds: `b` read as a message of kind `h`, over a fresh
    /// message of that kind. A version message is a Tversion or an Rversion as its own header
    /// says.
    pub open spec fn spec_new(h: HeaderType, b: Seq<u8>) -> MessageView {
        match h {
            HeaderType::Tversion | HeaderType::Rversion => {
                let v = TRVersion::spec_decode(b)->Some_0.0;
                if v.header.htype == Some(HeaderType::Tversion) {
                    MessageView::TVersion(v)
                } else {
                    MessageView::RVersion(v)
                }
            },
            HeaderType::Tattach => MessageView::TAttach(TAttach::spec_decode(b)->Some_0.0),
            HeaderType::Rattach => MessageView::RAttach(RAttach::spec_decode(b)->Some_0.0),
            HeaderType::Twalk => MessageView::TWalk(TWalk::spec_decode(b)->Some_0.0),
            HeaderType::Rwalk => MessageView::RWalk(RWalk::spec_decode(b)->Some_0.0),
            HeaderType::Ropen => MessageView::ROpen(ROpen::spec_decode(b)->Some_0.0),
            HeaderType::Rread => MessageView::RRead(RRead::spec_decode(b)->Some_0.0),
            HeaderType::Tclunk => MessageView::TClunk(TClunk::spec_decode(b)->Some_0.0),
            HeaderType::Rclunk => MessageView::RClunk(RClunk::spec_decode(b)->Some_0.0),
            HeaderType::Rerror => MessageView::RError(RError::spec_decode(b)->Some_0.0),
            _ => MessageView::Header(Header::spec_default()),
        }
    }

    /// Builds the message of kind `h` from `buf`.
    pub fn new(h: HeaderType, buf: Vec<u8>) -> (r: Message)
        requires
            Message::new_defined(h, buf@),
        ensures
            r@ == Message::spec_new(h, buf@),
    {
        match h {
            HeaderType::Tversion | HeaderType::Rversion => Message::from_version(
                TRVersion::from_bytes(buf),
            ),
            HeaderType::Tattach => Message::from(TAttach::from_bytes(buf)),
            HeaderType::Rattach => Message::from(RAttach::from_bytes(buf)),
            HeaderType::Twalk => Message::from(TWalk::from_bytes(buf)),
            HeaderType::Rwalk => Message::from(RWalk::from_bytes(buf)),
            HeaderType::Ropen => Message::from(ROpen::from_bytes(buf)),
            HeaderType::Rread => Message::from(RRead::from_bytes(buf)),
            HeaderType::Tclunk => Message::from(TClunk::from_bytes(buf)),
            HeaderType::Rclunk => Message::from(RClunk::from_bytes(buf)),
            HeaderType::Rerror => Message::from(RError::from_bytes(buf)),
            _ => Message::Header(Header::default()),
        }
    }

    /// Whether `new(h, buf)` is defined.
    pub fn accepts(h: HeaderType, buf: &[u8]) -> (r: bool)
        ensures
            r == Message::new_defined(h, buf@),
    {
        let mut b = buf;
        match h {
            HeaderType::Tversion | HeaderType::Rversion => match TRVersion::decode(&mut b) {
                Some(v) => match v.header.htype {
                    Some(HeaderType::Tversion) | Some(HeaderType::Rversion) => true,
                    _ => false,
                },
                None => false,
            },
            HeaderType::Tattach => TAttach::decode(&mut b).is_some(),
            HeaderType::Rattach => RAttach::decode(&mut b).is_some(),
            HeaderType::Twalk => TWalk::decode(&mut b).is_some(),
            HeaderType::Rwalk => RWalk::decode(&mut b).is_some(),
            HeaderType::Ropen => ROpen::decode(&mut b).is_some(),
            HeaderType::Rread => RRead::decode(&mut b).is_some(),
            HeaderType::Tclunk => TClunk::decode(&mut b).is_some(),
            HeaderType::Rclunk => RClunk::decode(&mut b).is_some(),
            HeaderType::Rerror => RError::decode(&mut b).is_some(),
            _ => false,
        }
    }

    /// The length of the rest of a message whose size field is `size`: `None` when `size`
    /// is less than 4, the size field's own length.
    pub fn body_length(size: u32) -> (r: Option<usize>)
        ensures
            r == (if size >= 4 {
                Some((size - 4) as usize)
            } else {
                None::<usize>
            }),
    {
        if size >= 4 {
            Some((size - 4) as usize)
        } else {
            None
        }
    }

    /// The header at the front of `b`.
    pub open spec fn frame_header(b: Seq<u8>) -> Header {
        Header::spec_decode(b)->Some_0.0
    }

    /// `b` starts with a valid header and holds a message that `new` takes for its type.
    pub open spec fn frame_ok(b: Seq<u8>) -> bool {
        Header::spec_decode(b) is Some && Message::new_defined(
            Message::frame_header(b).htype->Some_0,
            b,
        )
    }

    /// The header and the message in `buf`, the bytes that follow a size field; `None` when
    /// the header is invalid or `new` is not defined for its type on `buf`.
    pub fn from_frame(buf: Vec<u8>) -> (r: Option<(Header, Message)>)
        ensures
            Message::frame_ok(buf@) ==> (r matches Some((h, m)) && h == Message::frame_header(
                buf@,
            ) && m@ == Message::spec_new(h.htype->Some_0, buf@)),
            !Message::frame_ok(buf@) ==> r is None,
    {
        let mut b: &[u8] = buf.as_slice();
        let h = match Header::decode(&mut b) {
            Some(h) => h,
            None => return None,
        };
        let htype = match h.htype {
            Some(t) => t,
            None => return None,
        };
        if Message::accepts(htype, buf.as_slice()) {
            Some((h, Message::new(htype, buf)))
        } else {
            None
        }
    }

    /// A version message as a Tversion or an Rversion, as its header says.
    pub fn from_version(val: TRVersion) -> (r: Message)
        requires
            is_version_type(val.header.htype),
        ensures
            r@ == (if val.header.htype == Some(HeaderType::Tversion) {
                MessageView::TVersion(val@)
            } else {
                MessageView::RVersion(val@)
            }),
    {
        match val.header.htype {
            Some(HeaderType::Tversion) => Message::TVersion(val),
            _ => Message::RVersion(val),
        }
    }
}

impl From<TAttach> for Message {
    fn from(val: TAttach) -> Message {
        Message::TAttach(val)
    }
}

impl FromSpecImpl<TAttach> for Message {
    open spec fn obeys_from_spec() -> bool {
        true
    }

    open spec fn from_spec(val: TAttach) -> Message {
        Message::TAttach(val)
    }
}

impl From<RAttach> for Message {
    fn from(val: RAttach) -> Message {
        Message::RAttach(val)
    }
}

impl FromSpecImpl<RAttach> for Message {
    open spec fn obeys_from_spec() -> bool {
        true
    }

    open spec fn from_spec(val: RAttach) -> Message {
        Message::RAttach(val)
    }
}

impl From<TWalk> for Message {
    fn from(val: TWalk) -> Message {
        Message::TWalk(val)
    }
}

impl FromSpecImpl<TWalk> for Message {
    open spec fn obeys_from_spec() -> bool {
        true
    }

    open spec fn from_spec(val: TWalk) -> Message {
        Message::TWalk(val)
    }
}

impl From<RWalk> for Message {
    fn from(val: RWalk) -> Message {
        Message::RWalk(val)
    }
}

impl FromSpecImpl<RWalk> for Message {
    open spec fn obeys_from_spec() -> bool {
        true
    }

    open spec fn from_spec(val: RWalk) -> Message {
        Message::RWalk(val)
    }
}

impl From<TClunk> for Message {
    fn from(val: TClunk) -> Message {
        Message::TClunk(val)
    }
}

impl FromSpecImpl<TClunk> for Message {
    open spec fn obeys_from_spec() -> bool {
        true
    }

    open spec fn from_spec(val: TClunk) -> Message {
        Message::TClunk(val)
    }
}

impl From<RClunk> for Message {
    fn from(val: RClunk) -> Message {
        Message::RClunk(val)
    }
}

impl FromSpecImpl<RClunk> for Message {
    open spec fn obeys_from_spec() -> bool {
        true
    }

    open spec fn from_spec(val: RClunk) -> Message {
        Message::RClunk(val)
    }
}

impl From<RError> for Message {
    fn from(val: RError) -> Message {
        Message::RError(val)
    }
}

impl FromSpecImpl<RError> for Message {
    open spec fn obeys_from_spec() -> bool {
        true
    }

    open spec fn from_spec(val: RError) -> Message {
        Message::RError(val)
    }
}

impl From<Header> for Message {
    fn from(val: Header) -> Message {
        Message::Header(val)
    }
}

impl FromSpecImpl<Header> for Message {
    open spec fn obeys_from_spec() -> bool {
        true
    }

    open spec fn from_spec(val: Header) -> Message {
        Message::Header(val)
    }
}

impl From<Qid> for Message {
    fn from(val: Qid) -> Message {
        Message::Qid(val)
    }
}

impl FromSpecImpl<Qid> for Message {
    open spec fn obeys_from_spec() -> bool {
        true
    }

    open spec fn from_spec(val: Qid) -> Message {
        Message::Qid(val)
    }
}


impl From<ROpen> for Message {
    fn from(val: ROpen) -> Message {
        Message::ROpen(val)
    }
}

impl FromSpecImpl<ROpen> for Message {
    open spec fn obeys_from_spec() -> bool {
        true
    }

    open spec fn from_spec(val: ROpen) -> Message {
        Message::ROpen(val)
    }
}


impl From<RRead> for Message {
    fn from(val: RRead) -> Message {
        Message::RRead(val)
    }
}

impl FromSpecImpl<RRead> for Message {
    open spec fn obeys_from_spec() -> bool {
        true
    }

    open spec fn from_spec(val: RRead) -> Message {
        Message::RRead(val)
    }
}

/// Building a message of kind Tattach from the bytes of a composed Tattach (after its size field)
/// gives that message back.
pub proof fn lemma_new_tattach_roundtrip(m: TAttachView)
    requires
        m.composable(),
    ensures
        Message::new_defined(HeaderType::Tattach, m.wire().skip(4)),
        Message::spec_new(HeaderType::Tattach, m.wire().skip(4)) == MessageView::TAttach(m),
{
    crate::attach::lemma_attach_roundtrip(m, Seq::empty());
    assert(m.wire().skip(4) + Seq::<u8>::empty() =~= m.wire().skip(4));
}

/// Building a message of kind Rattach from the bytes of a composed Rattach (after its size field)
/// gives that message back.
pub proof fn lemma_new_rattach_roundtrip(m: RAttach)
    requires
        m.header.htype is Some,
    ensures
        Message::new_defined(HeaderType::Rattach, m.wire().skip(4)),
        Message::spec_new(HeaderType::Rattach, m.wire().skip(4)) == MessageView::RAttach(m),
{
    crate::attach::lemma_rattach_roundtrip(m, Seq::empty());
    assert(m.wire().skip(4) + Seq::<u8>::empty() =~= m.wire().skip(4));
}

/// Building a message of kind Twalk from the bytes of a composed Twalk (after its size field)
/// gives that message back.
pub proof fn lemma_new_twalk_roundtrip(m: TWalkView)
    requires
        m.composable(),
        m.wname.len() == m.nwname,
    ensures
        Message::new_defined(HeaderType::Twalk, m.wire().skip(4)),
        Message::spec_new(HeaderType::Twalk, m.wire().skip(4)) == MessageView::TWalk(m),
{
    crate::walk::lemma_walk_roundtrip(m, Seq::empty());
    assert(m.wire().skip(4) + Seq::<u8>::empty() =~= m.wire().skip(4));
}

/// Building a message of kind Rwalk from the bytes of a composed Rwalk (after its size field)
/// gives that message back.
pub proof fn lemma_new_rwalk_roundtrip(m: RWalkView)
    requires
        m.composable(),
        m.wqid.len() == m.nwqid,
    ensures
        Message::new_defined(HeaderType::Rwalk, m.wire().skip(4)),
        Message::spec_new(HeaderType::Rwalk, m.wire().skip(4)) == MessageView::RWalk(m),
{
    crate::walk::lemma_rwalk_roundtrip(m, Seq::empty());
    assert(m.wire().skip(4) + Seq::<u8>::empty() =~= m.wire().skip(4));
}

/// Building a message of kind Tclunk from the bytes of a composed Tclunk (after its size field)
/// gives that message back.
pub proof fn lemma_new_tclunk_roundtrip(m: TClunk)
    requires
        m.header.htype is Some,
    ensures
        Message::new_defined(HeaderType::Tclunk, m.wire().skip(4)),
        Message::spec_new(HeaderType::Tclunk, m.wire().skip(4)) == MessageView::TClunk(m),
{
    crate::clunk::lemma_clunk_roundtrip(m, Seq::empty());
    assert(m.wire().skip(4) + Seq::<u8>::empty() =~= m.wire().skip(4));
}

/// Building a message of kind Rclunk from the bytes of a composed Rclunk (after its size field)
/// gives that message back.
pub proof fn lemma_new_rclunk_roundtrip(m: RClunk)
    requires
        m.header.htype is Some,
    ensures
        Message::new_defined(HeaderType::Rclunk, m.wire().skip(4)),
        Message::spec_new(HeaderType::Rclunk, m.wire().skip(4)) == MessageView::RClunk(m),
{
    crate::clunk::lemma_rclunk_roundtrip(m, Seq::empty());
    assert(m.wire().skip(4) + Seq::<u8>::empty() =~= m.wire().skip(4));
}

/// Building a message of kind Rerror from the bytes of a composed Rerror (after its size field)
/// gives that message back.
pub proof fn lemma_new_rerror_roundtrip(m: RErrorView)
    requires
        m.composable(),
    ensures
        Message::new_defined(HeaderType::Rerror, m.wire().skip(4)),
        Message::spec_new(HeaderType::Rerror, m.wire().skip(4)) == MessageView::RError(m),
{
    crate::error::lemma_error_roundtrip(m, Seq::empty());
    assert(m.wire().skip(4) + Seq::<u8>::empty() =~= m.wire().skip(4));
}

/// Building a message of kind Ropen from the bytes of a composed Ropen (after its size field)
/// gives that message back.
pub proof fn lemma_new_ropen_roundtrip(m: ROpen)
    requires
        m.header.htype is Some,
    ensures
        Message::new_defined(HeaderType::Ropen, m.wire().skip(4)),
        Message::spec_new(HeaderType::Ropen, m.wire().skip(4)) == MessageView::ROpen(m),
{
    crate::open::lemma_ropen_roundtrip(m, Seq::empty());
    assert(m.wire().skip(4) + Seq::<u8>::empty() =~= m.wire().skip(4));
}

/// Building an Rread message from the bytes of a composed Rread (after its size field)
/// gives that message back.
pub proof fn lemma_new_rread_roundtrip(m: RReadView)
    requires
        m.header.htype is Some,
    ensures
        Message::new_defined(HeaderType::Rread, m.wire().skip(4)),
        Message::spec_new(HeaderType::Rread, m.wire().skip(4)) == MessageView::RRead(m),
{
    crate::read::lemma_rread_roundtrip(m);
}

/// Building a version message from the bytes of a composed Tversion or Rversion (after its
/// size field) gives that message back, as the kind its header names.
pub proof fn lemma_new_version_roundtrip(m: TRVersionView, h: HeaderType)
    requires
        m.composable(),
        is_version_type(m.header.htype),
        h == HeaderType::Tversion || h == HeaderType::Rversion,
    ensures
        Message::new_defined(h, m.wire().skip(4)),
        Message::spec_new(h, m.wire().skip(4)) == if m.header.htype == Some(HeaderType::Tversion) {
            MessageView::TVersion(m)
        } else {
            MessageView::RVersion(m)
        },
{
    crate::version::lemma_version_roundtrip(m, Seq::empty());
    assert(m.wire().skip(4) + Seq::<u8>::empty() =~= m.wire().skip(4));
}

/// A version message is built as a Tversion exactly when its own type byte is Tversion's
/// number, 100, and as an Rversion exactly when it is Rversion's, 101, whichever of the two
/// kinds it was asked for as.
pub proof fn lemma_new_version_kind(h: HeaderType, b: Seq<u8>)
    requires
        h == HeaderType::Tversion || h == HeaderType::Rversion,
        Message::new_defined(h, b),
    ensures
        Message::spec_new(h, b) is TVersion <==> b[0] == 100,
        Message::spec_new(h, b) is RVersion <==> b[0] == 101,
{
    crate::version::lemma_version_decode_layout(b);
    crate::header::lemma_header_code(b[0]);
    crate::header::lemma_header_type_of(HeaderType::Tversion);
    crate::header::lemma_header_type_of(HeaderType::Rversion);
}

} // verus!
