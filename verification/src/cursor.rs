//! The cursor itself: an owned byte buffer and a position into it.

use crate::model::CursorView;
use vstd::prelude::*;
use vstd::slice::slice_subrange;

mod decode;
mod encode;

verus! {

/// Why an operation on a [`Cursored`] was rejected.
#[derive(Clone, Copy, Debug, PartialEq, Eq, Structural)]
pub enum CursorError {
    /// A fixed-width decode needs more bytes than remain after the position.
    BufferExhausted,
    /// A position adjustment would leave the range from 0 to the buffer's length.
    InvalidAdvance,
    /// A raw slice read asks for more bytes than remain after the position.
    SliceOutOfRange,
}

/// An owned byte buffer together with a position into it.
///
/// The position never exceeds the length of the buffer.
pub struct Cursored {
    buf: Vec<u8>,
    pos: usize,
}

impl View for Cursored {
    type V = CursorView;

    closed spec fn view(&self) -> CursorView {
        CursorView { bytes: self.buf@, position: self.pos as nat }
    }
}

impl Cursored {
    #[verifier::type_invariant]
    spec fn in_bounds(self) -> bool {
        self.pos <= self.buf@.len()
    }

    /// A cursor over `vec`, positioned at its first byte.
    pub fn new(vec: Vec<u8>) -> (c: Self)
        ensures
            c@.bytes == vec@,
            c@.position == 0,
            c@.wf(),
    {
        Cursored { buf: vec, pos: 0 }
    }

    /// Gives the buffer back, with everything appended since construction.
    pub fn into_inner(self) -> (vec: Vec<u8>)
        ensures
            vec@ == self@.bytes,
    {
        self.buf
    }

    /// The index of the next byte to be read.
    pub fn position(&self) -> (p: usize)
        ensures
            p == self@.position,
            self@.wf(),
    {
        proof {
            use_type_invariant(self);
        }
        self.pos
    }

    /// The number of bytes between the position and the end of the buffer.
    pub fn remaining(&self) -> (n: usize)
        ensures
            n == self@.bytes.len() - self@.position,
            n == self@.remaining(),
            self@.wf(),
    {
        proof {
            use_type_invariant(self);
        }
        self.buf.len() - self.pos
    }

    /// The bytes from the position to the end of the buffer; the position stays.
    pub fn lasting(&self) -> (rest: &[u8])
        ensures
            rest@ == self@.unread(),
            rest@ == self@.next(self@.remaining()),
            self@.wf(),
    {
        proof {
            use_type_invariant(self);
        }
        slice_subrange(self.buf.as_slice(), self.pos, self.buf.len())
    }

    /// Moves the position by `next` bytes, backwards when `next` is negative.
    ///
    /// A move that would end before the first byte or after the last one is
    /// rejected and leaves the cursor as it was.
    pub fn advance(&mut self, next: i64) -> (r: Result<(), CursorError>)
        ensures
            match r {
                Ok(_) => 0 <= old(self)@.position + next <= old(self)@.bytes.len() && final(self)@
                    == old(self)@.moved(next as int),
                Err(e) => !(0 <= old(self)@.position + next <= old(self)@.bytes.len()) && e
                    == CursorError::InvalidAdvance && final(self)@ == old(self)@,
            },
            final(self)@.wf(),
    {
        proof {
            use_type_invariant(&*self);
        }
        let target: i128 = self.pos as i128 + next as i128;
        if target < 0 || target > self.buf.len() as i128 {
            return Err(CursorError::InvalidAdvance);
        }
        self.pos = target as usize;
        Ok(())
    }

    /// Hands out the buffer and the position, leaving an empty cursor behind.
    ///
    /// The buffer can then grow on its own before `restore` puts it back.
    fn take_parts(&mut self) -> (parts: (Vec<u8>, usize))
        ensures
            parts.0@ == old(self)@.bytes,
            parts.1 == old(self)@.position,
            parts.1 <= parts.0@.len(),
    {
        let mut taken = Cursored { buf: Vec::new(), pos: 0 };
        core::mem::swap(self, &mut taken);
        proof {
            use_type_invariant(&taken);
        }
        (taken.buf, taken.pos)
    }

    /// Makes this the cursor over `buf` at position `pos`.
    fn restore(&mut self, buf: Vec<u8>, pos: usize)
        requires
            pos <= buf@.len(),
        ensures
            final(self)@.bytes == buf@,
            final(self)@.position == pos,
            final(self)@.wf(),
    {
        *self = Cursored { buf, pos };
    }

    /// Hands out the next `len` bytes and moves the position past them.
    ///
    /// A request for more bytes than remain is rejected and leaves the cursor
    /// as it was.
    pub fn read_slice(&mut self, len: usize) -> (r: Result<&[u8], CursorError>)
        ensures
            match r {
                Ok(run) => len <= old(self)@.remaining() && run@ == old(self)@.next(len as nat)
                    && final(self)@ == old(self)@.moved(len as int),
                Err(e) => len > old(self)@.remaining() && e == CursorError::SliceOutOfRange
                    && final(self)@ == old(self)@,
            },
            final(self)@.wf(),
    {
        proof {
            use_type_invariant(&*self);
        }
        if len > self.buf.len() - self.pos {
            return Err(CursorError::SliceOutOfRange);
        }
        let start: usize = self.pos;
        self.pos = start + len;
        Ok(slice_subrange(self.buf.as_slice(), start, start + len))
    }
}

} // verus!
