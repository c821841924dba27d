//! Scoped jumps: excursions to another offset that are undone when the handle
//! that made them is released or goes out of scope.

use vstd::prelude::*;

use crate::binary_cursor::{lemma_push_then_restore, BinaryCursor, CursorView};
use crate::error::{BinaryCursorError, ParseFailure};
use crate::source::ByteSource;

verus! {

/// The state of a jump handle.
pub struct JumpView {
    /// The state of the cursor that the handle borrows.
    pub cursor: CursorView,
    /// Whether a jump made through the handle has saved an offset that the
    /// handle has yet to restore.
    pub pending: bool,
}

impl JumpView {
    /// A fresh handle on a cursor: nothing saved, nothing to restore.
    pub open spec fn on(cursor: CursorView) -> JumpView {
        JumpView { cursor, pending: false }
    }

    /// The handle once it has saved the cursor's offset and moved the cursor
    /// to `location`.
    pub open spec fn jump(self, location: u64) -> JumpView {
        JumpView { cursor: self.cursor.push().at(location), pending: true }
    }

    /// The handle after a relative jump by `delta`: a jump to the target
    /// where there is one, and no change where there is none.
    pub open spec fn jump_by(self, delta: int) -> JumpView {
        match self.cursor.relative_target(delta) {
            Some(target) => self.jump(target),
            None => self,
        }
    }

    /// The handle once its scope has ended: if a jump is pending, the cursor
    /// is back at the most recently saved offset, which has left the stack.
    pub open spec fn exit(self) -> JumpView {
        if self.pending {
            JumpView { cursor: self.cursor.restore(), pending: false }
        } else {
            self
        }
    }
}

/// A jump that is followed by the end of the handle's scope returns the
/// cursor to the offset at which the jump was made, and takes the saved
/// offset off the stack again.  This holds whatever was decoded in between,
/// and whether or not it succeeded: decoding moves nothing but the offset.
pub proof fn lemma_jump_then_exit(before: JumpView, location: u64, during: JumpView)
    requires
        during.pending,
        during.cursor.bytes == before.cursor.bytes,
        during.cursor.saved == before.jump(location).cursor.saved,
    ensures
        during.exit().cursor == before.cursor,
        !during.exit().pending,
{
    assert(during.cursor == before.cursor.push().at(during.cursor.offset));
    lemma_push_then_restore(before.cursor, during.cursor.offset);
}

/// A relative jump whose target would lie below zero, or beyond the largest
/// offset, has no target and changes nothing: no offset moves, nothing is
/// saved, and what was pending stays pending.
pub proof fn lemma_failed_jump_changes_nothing(before: JumpView, delta: int)
    requires
        before.cursor.offset + delta < 0 || before.cursor.offset + delta > u64::MAX,
    ensures
        before.cursor.relative_target(delta) is None,
        before.jump_by(delta) == before,
{
}

/// Relative jumps nest.  An outer handle jumps by `first`; a second handle,
/// made on the cursor where that jump has left it, jumps by `second`.  When
/// the inner scope ends the cursor is back where the first jump took it, and
/// when the outer scope ends it is back where it started, with the stack as
/// it was.
pub proof fn lemma_nested_relative_jumps(cursor: CursorView, first: int, second: int)
    requires
        0 <= cursor.offset + first <= u64::MAX,
        0 <= cursor.offset + first + second <= u64::MAX,
    ensures
        ({
            let outer = JumpView::on(cursor).jump_by(first);
            let inner = JumpView::on(outer.cursor).jump_by(second);
            let outer_again = JumpView { cursor: inner.exit().cursor, ..outer };
            &&& outer.cursor.offset == cursor.offset + first
            &&& inner.cursor.offset == cursor.offset + first + second
            &&& inner.exit().cursor == outer.cursor
            &&& outer_again.exit().cursor == cursor
        }),
{
    let outer = JumpView::on(cursor).jump_by(first);
    let inner = JumpView::on(outer.cursor).jump_by(second);
    assert(cursor.saved.push(cursor.offset).drop_last() =~= cursor.saved);
    assert(outer.cursor.saved.push(outer.cursor.offset).drop_last() =~= outer.cursor.saved);
}

/// A helper type for temporary position changes.
///
/// A jump through the handle saves the cursor's offset on the cursor's
/// location stack before it moves.  When the handle is released, or dropped,
/// the cursor returns to the offset saved by the most recent jump.  Between
/// the two the cursor is used through the `cursor` field or, where the
/// caller is verified too, through [`BinaryCursorJump::cursor_mut`], whose
/// contract ties what happens to the cursor to the handle's state.  A handle
/// through which no jump was made leaves the cursor alone.
///
/// The destructor is the reason why [`BinaryCursor::restore_location`] never
/// unwinds.  Verus does not follow a destructor into the scope that ends, so
/// verified code that needs the cursor's state after an excursion saves and
/// restores through the cursor itself.
pub struct BinaryCursorJump<'a, T: ByteSource> {
    /// The cursor being moved.
    pub cursor: &'a mut BinaryCursor<T>,
    pending: bool,
}

impl<'a, T: ByteSource> View for BinaryCursorJump<'a, T> {
    type V = JumpView;

    closed spec fn view(&self) -> JumpView {
        JumpView { cursor: self.cursor@, pending: self.pending }
    }
}

impl<'a, T: ByteSource> BinaryCursorJump<'a, T> {
    /// Creates a handle on `cursor`.  Nothing moves until a jump is made.
    pub fn new(cursor: &'a mut BinaryCursor<T>) -> (handle: Self)
        ensures
            handle@ == JumpView::on(old(cursor)@),
    {
        Self { cursor, pending: false }
    }

    /// Borrows the cursor for use at the jumped position.  What the cursor
    /// becomes through the borrow, the handle's cursor becomes.
    pub fn cursor_mut(&mut self) -> (cursor: &mut BinaryCursor<T>)
        ensures
            cursor@ == old(self)@.cursor,
            final(self)@ == (JumpView { cursor: final(cursor)@, ..old(self)@ }),
    {
        &mut *self.cursor
    }

    /// Temporarily jumps to `location`, saving the current offset first.
    ///
    /// Any location is accepted; bounds are checked by the next decode.
    pub fn jump(&mut self, location: u64) -> (r: Result<(), BinaryCursorError>)
        ensures
            r == Ok::<(), BinaryCursorError>(()),
            final(self)@ == old(self)@.jump(location),
    {
        self.cursor.push_location();
        self.cursor.set_position(location);
        self.pending = true;
        Ok(())
    }

    /// Temporarily jumps by `offset` bytes from the current offset: forward
    /// if it is positive, backward if negative.
    ///
    /// Fails if the target would be negative or beyond the largest offset.
    /// Then nothing is saved and nothing moves.
    pub fn jump_relative(&mut self, offset: i64) -> (r: Result<(), BinaryCursorError>)
        ensures
            r is Ok <==> 0 <= old(self)@.cursor.offset + offset <= u64::MAX,
            r matches Err(e) ==> e == BinaryCursorError::invalid_offset(),
            final(self)@ == old(self)@.jump_by(offset as int),
    {
        match self.cursor.position().checked_add_signed(offset) {
            Some(target) => self.jump(target),
            None => Err(BinaryCursorError::ParseError(ParseFailure::InvalidOffset)),
        }
    }

    /// Ends the excursion: if a jump is pending, the cursor returns to the
    /// offset that the most recent jump saved.
    pub fn release(&mut self)
        ensures
            final(self)@ == old(self)@.exit(),
        opens_invariants none
        no_unwind
    {
        if self.pending {
            self.cursor.restore_location();
            self.pending = false;
        }
    }
}

impl<'a, T: ByteSource> Drop for BinaryCursorJump<'a, T> {
    /// Releases the handle.
    fn drop(&mut self)
        ensures
            final(self)@ == old(self)@.exit(),
        opens_invariants none
        no_unwind
    {
        self.release();
    }
}

} // verus!
