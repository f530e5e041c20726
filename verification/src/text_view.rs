//! A read-only view of a range of a buffer.

use vstd::prelude::*;
use vstd::slice::slice_subrange;

verus! {

/// The half-open byte range `[start, end)` of a buffer.
///
/// The view borrows the buffer for as long as it lives, so the buffer can be
/// neither changed nor dropped while the view is in use.
#[derive(Clone, Copy, Debug)]
pub struct TextView<'a> {
    buffer: &'a [u8],
    start: usize,
    end: usize,
}

impl<'a> TextView<'a> {
    #[verifier::type_invariant]
    spec fn well_formed(self) -> bool {
        self.start <= self.end <= self.buffer@.len()
    }

    /// The bytes of the buffer that the view was cut from.
    pub closed spec fn source(self) -> Seq<u8> {
        self.buffer@
    }

    /// The position of the view's first byte in its buffer.
    pub closed spec fn spec_start(&self) -> usize {
        self.start
    }

    /// The position just behind the view's last byte in its buffer.
    pub closed spec fn spec_end(&self) -> usize {
        self.end
    }

    /// The bytes that the view covers.
    pub open spec fn bytes(self) -> Seq<u8> {
        self.source().subrange(self.spec_start() as int, self.spec_end() as int)
    }

    /// The view of `buffer` from `start` up to `end`.
    pub(crate) fn new(buffer: &'a [u8], start: usize, end: usize) -> (view: Self)
        requires
            start <= end <= buffer@.len(),
        ensures
            view.source() == buffer@,
            view.spec_start() == start,
            view.spec_end() == end,
    {
        TextView { buffer, start, end }
    }

    /// The position of the view's first byte in its buffer.
    #[verifier::when_used_as_spec(spec_start)]
    pub fn start(&self) -> (start: usize)
        ensures
            start == self.spec_start(),
            start <= self.spec_end() <= self.source().len(),
    {
        proof {
            use_type_invariant(self);
        }
        self.start
    }

    /// The position just behind the view's last byte in its buffer.
    #[verifier::when_used_as_spec(spec_end)]
    pub fn end(&self) -> (end: usize)
        ensures
            end == self.spec_end(),
            self.spec_start() <= end <= self.source().len(),
    {
        proof {
            use_type_invariant(self);
        }
        self.end
    }

    /// The number of bytes that the view covers.
    pub fn len(&self) -> (len: usize)
        ensures
            len == self.spec_end() - self.spec_start(),
            len == self.bytes().len(),
    {
        proof {
            use_type_invariant(self);
        }
        self.end - self.start
    }

    /// Whether the view covers no byte at all.
    pub fn is_empty(&self) -> (empty: bool)
        ensures
            empty == (self.bytes().len() == 0),
    {
        proof {
            use_type_invariant(self);
        }
        self.start == self.end
    }

    /// The bytes that the view covers, borrowed from its buffer.
    pub fn as_bytes(&self) -> (bytes: &'a [u8])
        ensures
            bytes@ == self.bytes(),
    {
        proof {
            use_type_invariant(self);
        }
        slice_subrange(self.buffer, self.start, self.end)
    }
}

} // verus!
