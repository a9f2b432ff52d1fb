//! A cursor over a byte slice.

use vstd::prelude::*;
use vstd::slice::slice_subrange;
use crate::error::{Error, UNEXPECTED_END, UNEXPECTED_END_SHORT};

verus! {

/// A read position `idx` inside `bytes`.  The position may stand at or
/// beyond the end, where the cursor is empty.
#[derive(Clone, Copy)]
pub struct ByteIter<'a> {
    pub bytes: &'a [u8],
    pub idx: usize,
}

impl<'a> ByteIter<'a> {
    /// A cursor over `bytes` that stands at `idx`.
    pub fn new(bytes: &'a [u8], idx: usize) -> (it: Self)
        ensures
            it.bytes == bytes,
            it.idx == idx,
    {
        Self { bytes, idx }
    }

    /// Whether nothing is left to read.
    pub fn empty(&self) -> (r: bool)
        ensures
            r == (self.idx >= self.bytes@.len()),
    {
        self.idx >= self.bytes.len()
    }

    /// Whether at least `n` bytes are left to read.
    pub fn has_n_left(&self, n: usize) -> (r: bool)
        ensures
            r == (self.idx + n <= self.bytes@.len()),
    {
        self.idx <= self.bytes.len() && n <= self.bytes.len() - self.idx
    }

    /// The current position, provided that `n` bytes are left.
    pub fn get_with_at_least(&self, n: usize) -> (r: Result<usize, Error>)
        ensures
            self.idx + n <= self.bytes@.len() ==> r == Ok::<usize, Error>(self.idx),
            self.idx + n > self.bytes@.len() ==> r == Err::<usize, Error>(
                Error::Malformed(UNEXPECTED_END),
            ),
    {
        if !self.has_n_left(n) {
            return Err(Error::Malformed(UNEXPECTED_END));
        }
        Ok(self.idx)
    }

    /// The current position.
    pub fn cur(&self) -> (r: usize)
        ensures
            r == self.idx,
    {
        self.idx
    }

    /// Moves the position forward by `n`.
    pub fn advance(&mut self, n: usize)
        requires
            old(self).idx + n <= usize::MAX,
        ensures
            final(self).idx == old(self).idx + n,
            final(self).bytes == old(self).bytes,
    {
        self.idx = self.idx + n;
    }

    /// Reads the byte at the position and steps past it.
    pub fn read_u8(&mut self) -> (r: Result<u8, Error>)
        ensures
            final(self).bytes == old(self).bytes,
            old(self).idx < old(self).bytes@.len() ==> r == Ok::<u8, Error>(
                old(self).bytes@[old(self).idx as int],
            ) && final(self).idx == old(self).idx + 1,
            old(self).idx >= old(self).bytes@.len() ==> r == Err::<u8, Error>(
                Error::Malformed(UNEXPECTED_END),
            ) && final(self).idx == old(self).idx,
    {
        if self.idx >= self.bytes.len() {
            return Err(Error::Malformed(UNEXPECTED_END));
        }
        let b: u8 = self.bytes[self.idx];
        self.idx = self.idx + 1;
        Ok(b)
    }

    /// The byte at the position, which stays.
    pub fn peek_u8(&self) -> (r: Result<u8, Error>)
        ensures
            self.idx < self.bytes@.len() ==> r == Ok::<u8, Error>(self.bytes@[self.idx as int]),
            self.idx >= self.bytes@.len() ==> r == Err::<u8, Error>(
                Error::Malformed(UNEXPECTED_END),
            ),
    {
        if self.idx >= self.bytes.len() {
            return Err(Error::Malformed(UNEXPECTED_END));
        }
        Ok(self.bytes[self.idx])
    }

    /// The `len` bytes from `start`, when they lie inside the input.
    pub fn slice_from(&self, start: usize, len: usize) -> (r: Result<&'a [u8], Error>)
        ensures
            start + len <= self.bytes@.len() ==> (r matches Ok(s) && s@ == self.bytes@.subrange(
                start as int,
                start + len,
            )),
            start + len > self.bytes@.len() ==> r == Err::<&[u8], Error>(
                Error::Malformed(UNEXPECTED_END_SHORT),
            ),
    {
        if start > self.bytes.len() || len > self.bytes.len() - start {
            return Err(Error::Malformed(UNEXPECTED_END_SHORT));
        }
        Ok(slice_subrange(self.bytes, start, start + len))
    }
}

} // verus!
