//! The operations that every 9P message offers.
use crate::header::Header;
use vstd::prelude::*;

verus! {

/// A 9P message: it carries a header, composes into bytes, and parses from bytes.
///
/// Each implementation describes itself through the spec functions below, in terms of its
/// view; the methods are bound to them.
pub trait Fcall: View + Sized {
    /// Whether `get_tag` is defined on this value.
    spec fn tag_defined(&self) -> bool;

    /// The tag that `get_tag` returns.
    spec fn spec_tag(&self) -> u16;

    /// The value after `set_header(header)`.
    spec fn spec_set_header(before: Self::V, header: Header) -> Self::V;

    /// Whether `compose` is defined on this value.
    spec fn compose_defined(&self) -> bool;

    /// The bytes that `compose` produces.
    spec fn spec_compose(&self) -> Seq<u8>;

    /// Whether `parse` is defined on this input.
    spec fn parse_defined(buf: Seq<u8>) -> bool;

    /// The value after `parse` from `before`, and the number of bytes that it consumes.
    spec fn spec_parse(before: Self::V, buf: Seq<u8>) -> (Self::V, int);

    /// Replaces the header (where the message has one).
    fn set_header(&mut self, header: Header)
        ensures
            final(self)@ == Self::spec_set_header(old(self)@, header),
    ;

    /// The message's tag.
    fn get_tag(&self) -> (r: u16)
        requires
            self.tag_defined(),
        ensures
            r == self.spec_tag(),
    ;

    /// The message's bytes on the wire.
    fn compose(&self) -> (r: Option<Vec<u8>>)
        requires
            self.compose_defined(),
        ensures
            r matches Some(v) && v@ == self.spec_compose(),
    ;

    /// Reads the message's fields from the front of `buf` and moves `buf` past what it read.
    fn parse(&mut self, buf: &mut &[u8])
        requires
            Self::parse_defined(old(buf)@),
        ensures
            final(self)@ == Self::spec_parse(old(self)@, old(buf)@).0,
            final(buf)@ == old(buf)@.skip(Self::spec_parse(old(self)@, old(buf)@).1),
    ;
}

} // verus!
