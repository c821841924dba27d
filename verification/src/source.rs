//! Read-only byte sources that a cursor can walk.

use vstd::prelude::*;

verus! {

/// A buffer of bytes that can be read in place.
///
/// A cursor owns its source, so a source is either the buffer itself or a
/// shared borrow of one; in both cases the bytes never change while the
/// cursor lives.
pub trait ByteSource {
    /// The bytes of the buffer.
    spec fn bytes(&self) -> Seq<u8>;

    /// Borrows the buffer as a slice.
    fn as_bytes(&self) -> (slice: &[u8])
        ensures
            slice@ == self.bytes(),
    ;
}

impl ByteSource for Vec<u8> {
    open spec fn bytes(&self) -> Seq<u8> {
        self@
    }

    fn as_bytes(&self) -> (slice: &[u8]) {
        self.as_slice()
    }
}

impl<'a> ByteSource for &'a Vec<u8> {
    open spec fn bytes(&self) -> Seq<u8> {
        self@
    }

    fn as_bytes(&self) -> (slice: &[u8]) {
        self.as_slice()
    }
}

impl<'a> ByteSource for &'a [u8] {
    open spec fn bytes(&self) -> Seq<u8> {
        self@
    }

    fn as_bytes(&self) -> (slice: &[u8]) {
        *self
    }
}

impl<const N: usize> ByteSource for [u8; N] {
    open spec fn bytes(&self) -> Seq<u8> {
        self@
    }

    fn as_bytes(&self) -> (slice: &[u8]) {
        self.as_slice()
    }
}

} // verus!
