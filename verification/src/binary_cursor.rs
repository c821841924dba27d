//! The cursor: a byte buffer, the offset of the next unread byte, and a stack
//! of saved offsets.
//!
//! Contracts are stated over [`CursorView`], the mathematical state of a
//! cursor.  Decoding only ever moves the offset, and only on success; the
//! stack changes only through [`BinaryCursor::push_location`],
//! [`BinaryCursor::pop_location`] and [`BinaryCursor::restore_location`].

use vstd::prelude::*;

pub use crate::error::BinaryCursorError;
use crate::error::ParseFailure;
pub use crate::jump::BinaryCursorJump;
use crate::little_endian::{
    le_signed_value, le_value, lemma_le_value_single, lemma_radix_values, read_le,
};
use crate::source::ByteSource;
use vstd::slice::{slice_subrange, slice_to_vec};

verus! {

/// The state of a cursor.
pub struct CursorView {
    /// The buffer, which no operation changes.
    pub bytes: Seq<u8>,
    /// The index of the next byte to read.  It may lie at or beyond the end
    /// of the buffer, where nothing is left to read.
    pub offset: u64,
    /// The saved offsets, most recent last.
    pub saved: Seq<u64>,
}

impl CursorView {
    /// A fresh cursor over `bytes`: at the start, with nothing saved.
    pub open spec fn over(bytes: Seq<u8>) -> CursorView {
        CursorView { bytes, offset: 0, saved: Seq::empty() }
    }

    /// Where reading starts: the offset, or the end of the buffer if the
    /// offset lies beyond it.
    pub open spec fn start(self) -> int {
        if self.offset < self.bytes.len() {
            self.offset as int
        } else {
            self.bytes.len() as int
        }
    }

    /// How many bytes are left to read.
    pub open spec fn remaining(self) -> nat {
        (self.bytes.len() - self.start()) as nat
    }

    /// Whether `count` more bytes can be read.
    pub open spec fn can_take(self, count: nat) -> bool {
        count <= self.remaining()
    }

    /// The next `count` bytes, meaningful where `can_take(count)`.
    pub open spec fn next(self, count: nat) -> Seq<u8> {
        self.bytes.subrange(self.start(), self.start() + count)
    }

    /// The same cursor with its offset at `offset`.
    pub open spec fn at(self, offset: u64) -> CursorView {
        CursorView { offset, ..self }
    }

    /// The cursor once `count` bytes have been read.
    pub open spec fn advance(self, count: nat) -> CursorView {
        self.at((self.offset + count) as u64)
    }

    /// What a decode of `count` bytes does to a cursor, `self` before and
    /// `after` after it.  It succeeds exactly where `count` bytes are left,
    /// and then moves the offset forward by exactly `count`.  Where fewer
    /// are left it reports insufficient data and changes nothing.
    pub open spec fn decoded<V>(
        self,
        count: nat,
        r: Result<V, BinaryCursorError>,
        after: CursorView,
    ) -> bool {
        match r {
            Ok(_) => {
                &&& self.can_take(count)
                &&& after == self.advance(count)
                &&& after.offset == self.offset + count
            },
            Err(e) => {
                &&& !self.can_take(count)
                &&& e == BinaryCursorError::insufficient_data()
                &&& after == self
            },
        }
    }

    /// The cursor once its offset has been saved.
    pub open spec fn push(self) -> CursorView {
        CursorView { saved: self.saved.push(self.offset), ..self }
    }

    /// The most recently saved offset, if there is one.
    pub open spec fn top(self) -> Option<u64> {
        if self.saved.len() == 0 {
            None
        } else {
            Some(self.saved.last())
        }
    }

    /// The cursor without its most recently saved offset.
    pub open spec fn pop(self) -> CursorView {
        if self.saved.len() == 0 {
            self
        } else {
            CursorView { saved: self.saved.drop_last(), ..self }
        }
    }

    /// The cursor moved back to its most recently saved offset, which leaves
    /// the stack; unchanged if nothing is saved.
    pub open spec fn restore(self) -> CursorView {
        match self.top() {
            Some(offset) => self.pop().at(offset),
            None => self,
        }
    }

    /// Where a move by `delta` from the offset leads, if that is an offset.
    pub open spec fn relative_target(self, delta: int) -> Option<u64> {
        if 0 <= self.offset + delta <= u64::MAX {
            Some((self.offset + delta) as u64)
        } else {
            None
        }
    }
}

/// Whether `calls`, `states` and `outs` have the lengths of a run of calls:
/// one outcome for each call, and one state before the first call and after
/// each call.
pub open spec fn is_run<C, O>(calls: Seq<C>, states: Seq<CursorView>, outs: Seq<O>) -> bool {
    calls.len() == outs.len() && states.len() == outs.len() + 1
}

/// Saving the offset and taking it back at once returns the offset that was
/// saved, and leaves the cursor as it was, its offset included.
pub proof fn lemma_push_then_pop(cursor: CursorView)
    ensures
        cursor.push().offset == cursor.offset,
        cursor.push().top() == Some(cursor.offset),
        cursor.push().pop() == cursor,
{
    assert(cursor.saved.push(cursor.offset).drop_last() =~= cursor.saved);
}

/// Restoring undoes a save, wherever the offset went in between.
pub proof fn lemma_push_then_restore(cursor: CursorView, moved_to: u64)
    ensures
        cursor.push().at(moved_to).restore() == cursor,
{
    assert(cursor.saved.push(cursor.offset).drop_last() =~= cursor.saved);
}

/// A cursor-like interface for parsing binary data.
///
/// The cursor owns its byte source `T` and never changes it.  It tracks the
/// offset of the next unread byte and keeps a stack of saved offsets for
/// temporary jumps.
#[derive(Debug)]
pub struct BinaryCursor<T: ByteSource> {
    data: T,
    offset: u64,
    location_stack: Vec<u64>,
}

impl<T: ByteSource> View for BinaryCursor<T> {
    type V = CursorView;

    closed spec fn view(&self) -> CursorView {
        CursorView {
            bytes: self.data.bytes(),
            offset: self.offset,
            saved: self.location_stack@,
        }
    }
}

/// `Vec::pop` on the location stack.  vstd's specification of `Vec::pop`,
/// repeated here, says what leaves the vector and what is returned; this
/// wrapper adds that `Vec::pop` never panics, which a destructor that
/// restores a location has to rely on.
#[verifier::external_body]
fn pop_saved(stack: &mut Vec<u64>) -> (popped: Option<u64>)
    ensures
        old(stack)@.len() > 0 ==> popped == Some(old(stack)@.last()) && final(stack)@ == old(
            stack,
        )@.drop_last(),
        old(stack)@.len() == 0 ==> popped == None::<u64> && final(stack)@ == old(stack)@,
    opens_invariants none
    no_unwind
{
    stack.pop()
}

impl<T: ByteSource> BinaryCursor<T> {
    /// Creates a cursor at the start of `data`, with nothing saved.
    pub fn new(data: T) -> (cursor: Self)
        ensures
            cursor@ == CursorView::over(data.bytes()),
    {
        Self { data, offset: 0, location_stack: Vec::new() }
    }

    /// Saves the current offset on the location stack.
    pub fn push_location(&mut self)
        ensures
            final(self)@ == old(self)@.push(),
    {
        self.location_stack.push(self.offset);
    }

    /// Removes and returns the most recently saved offset, or `None` if
    /// nothing is saved.  The offset itself stays where it is.
    pub fn pop_location(&mut self) -> (popped: Option<u64>)
        ensures
            popped == old(self)@.top(),
            final(self)@ == old(self)@.pop(),
        opens_invariants none
        no_unwind
    {
        pop_saved(&mut self.location_stack)
    }

    /// Moves back to the most recently saved offset and removes it from the
    /// stack.  Returns whether there was one; if not, nothing changes.
    pub fn restore_location(&mut self) -> (restored: bool)
        ensures
            restored == (old(self)@.saved.len() > 0),
            final(self)@ == old(self)@.restore(),
        opens_invariants none
        no_unwind
    {
        match pop_saved(&mut self.location_stack) {
            Some(offset) => {
                self.offset = offset;
                true
            },
            None => false,
        }
    }

    /// Claims the next `count` bytes.  Where that many remain, the offset
    /// moves past them and the index of the first is returned; otherwise
    /// nothing moves.
    fn take(&mut self, count: usize) -> (r: Result<usize, BinaryCursorError>)
        ensures
            old(self)@.decoded(count as nat, r, final(self)@),
            r matches Ok(start) ==> start == old(self)@.start(),
    {
        let len = self.data.as_bytes().len();
        let start = if self.offset < len as u64 {
            self.offset as usize
        } else {
            len
        };
        if count <= len - start {
            self.offset = self.offset + count as u64;
            Ok(start)
        } else {
            Err(BinaryCursorError::ParseError(ParseFailure::InsufficientData))
        }
    }

    /// Parses a single `u8` at the current offset.
    pub fn parse_u8(&mut self) -> (r: Result<u8, BinaryCursorError>)
        ensures
            old(self)@.decoded(1, r, final(self)@),
            r matches Ok(value) ==> value == le_value(old(self)@.next(1)),
            r matches Ok(value) ==> value == old(self)@.bytes[old(self)@.start()],
    {
        proof {
            lemma_radix_values();
            if self@.can_take(1) {
                lemma_le_value_single(self@.bytes[self@.start()]);
                assert(self@.next(1) =~= seq![self@.bytes[self@.start()]]);
            }
        }
        match self.take(1) {
            Ok(start) => Ok(read_le(self.data.as_bytes(), start, 1) as u8),
            Err(e) => Err(e),
        }
    }

    /// Parses a `u16` in little-endian format at the current offset.
    pub fn parse_u16_le(&mut self) -> (r: Result<u16, BinaryCursorError>)
        ensures
            old(self)@.decoded(2, r, final(self)@),
            r matches Ok(value) ==> value == le_value(old(self)@.next(2)),
    {
        proof {
            lemma_radix_values();
        }
        match self.take(2) {
            Ok(start) => Ok(read_le(self.data.as_bytes(), start, 2) as u16),
            Err(e) => Err(e),
        }
    }

    /// Parses a `u32` in little-endian format at the current offset.
    pub fn parse_u32_le(&mut self) -> (r: Result<u32, BinaryCursorError>)
        ensures
            old(self)@.decoded(4, r, final(self)@),
            r matches Ok(value) ==> value == le_value(old(self)@.next(4)),
    {
        proof {
            lemma_radix_values();
        }
        match self.take(4) {
            Ok(start) => Ok(read_le(self.data.as_bytes(), start, 4) as u32),
            Err(e) => Err(e),
        }
    }

    /// Parses a `u64` in little-endian format at the current offset.
    pub fn parse_u64_le(&mut self) -> (r: Result<u64, BinaryCursorError>)
        ensures
            old(self)@.decoded(8, r, final(self)@),
            r matches Ok(value) ==> value == le_value(old(self)@.next(8)),
    {
        match self.take(8) {
            Ok(start) => Ok(read_le(self.data.as_bytes(), start, 8)),
            Err(e) => Err(e),
        }
    }

    /// Parses `count` bytes at the current offset and returns a copy of
    /// them.  A `count` of zero succeeds wherever the offset is, and moves
    /// nothing.
    pub fn parse_bytes(&mut self, count: usize) -> (r: Result<Vec<u8>, BinaryCursorError>)
        ensures
            old(self)@.decoded(count as nat, r, final(self)@),
            r matches Ok(bytes) ==> bytes@ == old(self)@.next(count as nat),
    {
        match self.take(count) {
            Ok(start) => {
                let data = self.data.as_bytes();
                assert(data@.len() == data.len());
                Ok(slice_to_vec(slice_subrange(data, start, start + count)))
            },
            Err(e) => Err(e),
        }
    }

    /// Parses an `i8` at the current offset.
    pub fn parse_i8(&mut self) -> (r: Result<i8, BinaryCursorError>)
        ensures
            old(self)@.decoded(1, r, final(self)@),
            r matches Ok(value) ==> value == le_signed_value(old(self)@.next(1)),
    {
        proof {
            lemma_radix_values();
        }
        match self.take(1) {
            Ok(start) => {
                let pattern = read_le(self.data.as_bytes(), start, 1);
                if pattern < 0x80 {
                    Ok(pattern as i8)
                } else {
                    Ok((pattern as i16 - 0x100) as i8)
                }
            },
            Err(e) => Err(e),
        }
    }

    /// Parses an `i16` in little-endian format at the current offset.
    pub fn parse_i16_le(&mut self) -> (r: Result<i16, BinaryCursorError>)
        ensures
            old(self)@.decoded(2, r, final(self)@),
            r matches Ok(value) ==> value == le_signed_value(old(self)@.next(2)),
    {
        proof {
            lemma_radix_values();
        }
        match self.take(2) {
            Ok(start) => {
                let pattern = read_le(self.data.as_bytes(), start, 2);
                if pattern < 0x8000 {
                    Ok(pattern as i16)
                } else {
                    Ok((pattern as i32 - 0x1_0000) as i16)
                }
            },
            Err(e) => Err(e),
        }
    }

    /// Parses an `i32` in little-endian format at the current offset.
    pub fn parse_i32_le(&mut self) -> (r: Result<i32, BinaryCursorError>)
        ensures
            old(self)@.decoded(4, r, final(self)@),
            r matches Ok(value) ==> value == le_signed_value(old(self)@.next(4)),
    {
        proof {
            lemma_radix_values();
        }
        match self.take(4) {
            Ok(start) => {
                let pattern = read_le(self.data.as_bytes(), start, 4);
                if pattern < 0x8000_0000 {
                    Ok(pattern as i32)
                } else {
                    Ok((pattern as i64 - 0x1_0000_0000) as i32)
                }
            },
            Err(e) => Err(e),
        }
    }

    /// Parses an `i64` in little-endian format at the current offset.
    pub fn parse_i64_le(&mut self) -> (r: Result<i64, BinaryCursorError>)
        ensures
            old(self)@.decoded(8, r, final(self)@),
            r matches Ok(value) ==> value == le_signed_value(old(self)@.next(8)),
    {
        proof {
            lemma_radix_values();
        }
        match self.take(8) {
            Ok(start) => {
                let pattern = read_le(self.data.as_bytes(), start, 8);
                if pattern < 0x8000_0000_0000_0000 {
                    Ok(pattern as i64)
                } else {
                    Ok((pattern as i128 - 0x1_0000_0000_0000_0000) as i64)
                }
            },
            Err(e) => Err(e),
        }
    }

    /// Runs `parser` up to `count` times in sequence and collects what it
    /// returns, in call order.  The first failure ends the run and is
    /// returned as it is; the cursor stays as the calls made so far, the
    /// failing one included, have left it.
    ///
    /// The contract describes the run: `calls` are the borrows of this cursor
    /// that were handed to `parser`, `states` the cursor's state before the
    /// first call and after each call, and `outs` what each call returned.
    pub fn count<U, F>(&mut self, parser: F, count: usize) -> (r: Result<
        Vec<U>,
        BinaryCursorError,
    >) where F: FnMut(&mut Self) -> Result<U, BinaryCursorError>
        requires
            forall|cursor: &mut Self| call_requires(parser, (cursor,)),
        ensures
            exists|
                calls: Seq<&mut Self>,
                states: Seq<CursorView>,
                outs: Seq<Result<U, BinaryCursorError>>,
            |
                {
                    &&& #[trigger] is_run(calls, states, outs)
                    &&& states.first() == old(self)@
                    &&& states.last() == final(self)@
                    &&& forall|i: int|
                        #![trigger calls[i]]
                        0 <= i < calls.len() ==> {
                            &&& calls[i]@ == states[i]
                            &&& final(calls[i])@ == states[i + 1]
                            &&& call_ensures(parser, (calls[i],), outs[i])
                        }
                    &&& match r {
                        Ok(items) => {
                            &&& outs.len() == count
                            &&& outs == items@.map_values(
                                |item: U| Ok::<U, BinaryCursorError>(item),
                            )
                        },
                        Err(e) => {
                            &&& 0 < outs.len() <= count
                            &&& outs.last() == Err::<U, BinaryCursorError>(e)
                            &&& forall|i: int| 0 <= i < outs.len() - 1 ==> (#[trigger] outs[i]) is Ok
                        },
                    }
                },
    {
        let mut decode = parser;
        let mut items: Vec<U> = Vec::new();
        proof {
            assert(is_run(Seq::<&mut Self>::empty(), seq![self@], items@));
        }
        while items.len() < count
            invariant
                forall|cursor: &mut Self| call_requires(parser, (cursor,)),
                decode == parser,
                items@.len() <= count,
                exists|calls: Seq<&mut Self>, states: Seq<CursorView>|
                    {
                        &&& #[trigger] is_run(calls, states, items@)
                        &&& states.first() == old(self)@
                        &&& states.last() == self@
                        &&& forall|i: int|
                            #![trigger calls[i]]
                            0 <= i < calls.len() ==> {
                                &&& calls[i]@ == states[i]
                                &&& final(calls[i])@ == states[i + 1]
                                &&& call_ensures(
                                    parser,
                                    (calls[i],),
                                    Ok::<U, BinaryCursorError>(items@[i]),
                                )
                            }
                    },
            decreases count - items.len(),
        {
            let ghost before = self@;
            let ghost collected = items@;
            let ghost (done, seen) = choose|calls: Seq<&mut Self>, states: Seq<CursorView>|
                {
                    &&& #[trigger] is_run(calls, states, items@)
                    &&& states.first() == old(self)@
                    &&& states.last() == self@
                    &&& forall|i: int|
                        #![trigger calls[i]]
                        0 <= i < calls.len() ==> {
                            &&& calls[i]@ == states[i]
                            &&& final(calls[i])@ == states[i + 1]
                            &&& call_ensures(
                                parser,
                                (calls[i],),
                                Ok::<U, BinaryCursorError>(items@[i]),
                            )
                        }
                };
            let out = decode(self);
            assert(exists|call: &mut Self|
                call@ == before && final(call)@ == self@ && #[trigger] call_ensures(
                    parser,
                    (call,),
                    out,
                ));
            let ghost call = choose|call: &mut Self|
                call@ == before && final(call)@ == self@ && #[trigger] call_ensures(
                    parser,
                    (call,),
                    out,
                );
            let ghost calls = done.push(call);
            let ghost states = seen.push(self@);
            assert(states.first() == seen.first());
            match out {
                Ok(item) => {
                    items.push(item);
                    proof {
                        assert(is_run(calls, states, items@));
                        assert forall|i: int| #![trigger calls[i]] 0 <= i < calls.len() implies {
                            &&& calls[i]@ == states[i]
                            &&& final(calls[i])@ == states[i + 1]
                            &&& call_ensures(
                                parser,
                                (calls[i],),
                                Ok::<U, BinaryCursorError>(items@[i]),
                            )
                        } by {
                            if i < done.len() {
                                assert(calls[i] == done[i]);
                                assert(states[i] == seen[i]);
                                assert(states[i + 1] == seen[i + 1]);
                                assert(items@[i] == collected[i]);
                            } else {
                                assert(states[i] == seen.last());
                            }
                        }
                    }
                },
                Err(e) => {
                    proof {
                        let outs = collected.map_values(
                            |item: U| Ok::<U, BinaryCursorError>(item),
                        ).push(Err::<U, BinaryCursorError>(e));
                        assert(is_run(calls, states, outs));
                        assert(outs.last() == Err::<U, BinaryCursorError>(e));
                        assert forall|i: int| #![trigger calls[i]] 0 <= i < calls.len() implies {
                            &&& calls[i]@ == states[i]
                            &&& final(calls[i])@ == states[i + 1]
                            &&& call_ensures(parser, (calls[i],), outs[i])
                        } by {
                            if i < done.len() {
                                assert(calls[i] == done[i]);
                                assert(states[i] == seen[i]);
                                assert(states[i + 1] == seen[i + 1]);
                            } else {
                                assert(states[i] == seen.last());
                            }
                        }
                        assert forall|i: int| 0 <= i < outs.len() - 1 implies (
                        #[trigger] outs[i]) is Ok by {
                            assert(outs[i] == Ok::<U, BinaryCursorError>(collected[i]));
                        }
                    }
                    return Err(e);
                },
            }
        }
        proof {
            let (calls, states) = choose|calls: Seq<&mut Self>, states: Seq<CursorView>|
                {
                    &&& #[trigger] is_run(calls, states, items@)
                    &&& states.first() == old(self)@
                    &&& states.last() == self@
                    &&& forall|i: int|
                        #![trigger calls[i]]
                        0 <= i < calls.len() ==> {
                            &&& calls[i]@ == states[i]
                            &&& final(calls[i])@ == states[i + 1]
                            &&& call_ensures(
                                parser,
                                (calls[i],),
                                Ok::<U, BinaryCursorError>(items@[i]),
                            )
                        }
                };
            let outs = items@.map_values(|item: U| Ok::<U, BinaryCursorError>(item));
            assert(is_run(calls, states, outs));
        }
        Ok(items)
    }

    /// Returns the current offset.
    pub fn position(&self) -> (offset: u64)
        ensures
            offset == self@.offset,
        opens_invariants none
        no_unwind
    {
        self.offset
    }

    /// Sets the current offset.  Any offset is accepted, also one at or
    /// beyond the end of the buffer: the next decode is what checks bounds.
    pub fn set_position(&mut self, pos: u64)
        ensures
            final(self)@ == old(self)@.at(pos),
        opens_invariants none
        no_unwind
    {
        self.offset = pos;
    }
}

} // verus!
