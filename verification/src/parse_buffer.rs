//! Zero-copy cursor over a borrowed input slice.
//!
//! Every wire reader is built on [`ParseBuffer`]. The buffer never copies:
//! [`ParseBuffer::slice`] hands back a sub-window of the original input. A
//! read either advances the cursor by exactly what it consumed, or fails
//! without moving the cursor.
use vstd::prelude::*;
use vstd::slice::slice_subrange;
use crate::wire::{u16_value, u24_value};

verus! {

/// A structural failure of a wire read.
#[derive(Clone, Copy, Debug, PartialEq, Eq, Structural)]
pub enum ParseError {
    /// The input ended before the structure did.
    InsufficientData,
    /// The bytes are present but malformed: a bad tag, a non-ASCII name, or
    /// a length that does not match its contents.
    InvalidData,
    /// More elements than a bounded collection can hold.
    CapacityExceeded,
}

/// A read cursor over a borrowed byte slice.
pub struct ParseBuffer<'a> {
    data: &'a [u8],
    offset: usize,
}

impl<'a> ParseBuffer<'a> {
    /// The whole input this buffer was created over.
    pub closed spec fn input(&self) -> Seq<u8> {
        self.data@
    }

    /// The cursor: how many bytes have been consumed.
    pub closed spec fn cursor(&self) -> int {
        self.offset as int
    }

    /// The cursor never passes the end of the input.
    pub open spec fn wf(&self) -> bool {
        0 <= self.cursor() <= self.input().len()
    }

    /// How many bytes are left to read.
    pub open spec fn remaining_spec(&self) -> int {
        self.input().len() - self.cursor()
    }

    /// The bytes left to read.
    pub open spec fn rest(&self) -> Seq<u8> {
        self.input().skip(self.cursor())
    }

    pub fn new(data: &'a [u8]) -> (r: ParseBuffer<'a>)
        ensures
            r.wf(),
            r.input() == data@,
            r.cursor() == 0,
    {
        ParseBuffer { data, offset: 0 }
    }

    pub fn remaining(&self) -> (n: usize)
        requires
            self.wf(),
        ensures
            n == self.remaining_spec(),
    {
        self.data.len() - self.offset
    }

    pub fn is_empty(&self) -> (r: bool)
        requires
            self.wf(),
        ensures
            r == (self.remaining_spec() == 0),
    {
        self.remaining() == 0
    }

    /// Reads one byte. Fails exactly when no byte is left, and then leaves
    /// the cursor where it was.
    pub fn read_u8(&mut self) -> (r: Result<u8, ParseError>)
        requires
            old(self).wf(),
        ensures
            final(self).wf(),
            final(self).input() == old(self).input(),
            old(self).remaining_spec() >= 1 ==> r == Ok::<u8, ParseError>(
                old(self).input()[old(self).cursor()],
            ) && final(self).cursor() == old(self).cursor() + 1,
            old(self).remaining_spec() < 1 ==> r == Err::<u8, ParseError>(
                ParseError::InsufficientData,
            ) && final(self).cursor() == old(self).cursor(),
    {
        if self.offset < self.data.len() {
            let b = self.data[self.offset];
            self.offset = self.offset + 1;
            Ok(b)
        } else {
            Err(ParseError::InsufficientData)
        }
    }

    /// Reads a big-endian 16-bit integer. Fails exactly when fewer than two
    /// bytes are left, and then leaves the cursor where it was.
    pub fn read_u16(&mut self) -> (r: Result<u16, ParseError>)
        requires
            old(self).wf(),
        ensures
            final(self).wf(),
            final(self).input() == old(self).input(),
            old(self).remaining_spec() >= 2 ==> r == Ok::<u16, ParseError>(
                u16_value(
                    old(self).input()[old(self).cursor()],
                    old(self).input()[old(self).cursor() + 1],
                ) as u16,
            ) && final(self).cursor() == old(self).cursor() + 2,
            old(self).remaining_spec() < 2 ==> r == Err::<u16, ParseError>(
                ParseError::InsufficientData,
            ) && final(self).cursor() == old(self).cursor(),
    {
        if self.data.len() - self.offset >= 2 {
            let hi = self.data[self.offset];
            let lo = self.data[self.offset + 1];
            self.offset = self.offset + 2;
            Ok(hi as u16 * 256 + lo as u16)
        } else {
            Err(ParseError::InsufficientData)
        }
    }

    /// Reads a big-endian 24-bit integer. Fails exactly when fewer than
    /// three bytes are left, and then leaves the cursor where it was.
    pub fn read_u24(&mut self) -> (r: Result<u32, ParseError>)
        requires
            old(self).wf(),
        ensures
            final(self).wf(),
            final(self).input() == old(self).input(),
            old(self).remaining_spec() >= 3 ==> r == Ok::<u32, ParseError>(
                u24_value(
                    old(self).input()[old(self).cursor()],
                    old(self).input()[old(self).cursor() + 1],
                    old(self).input()[old(self).cursor() + 2],
                ) as u32,
            ) && final(self).cursor() == old(self).cursor() + 3,
            old(self).remaining_spec() < 3 ==> r == Err::<u32, ParseError>(
                ParseError::InsufficientData,
            ) && final(self).cursor() == old(self).cursor(),
    {
        if self.data.len() - self.offset >= 3 {
            let b0 = self.data[self.offset];
            let b1 = self.data[self.offset + 1];
            let b2 = self.data[self.offset + 2];
            self.offset = self.offset + 3;
            Ok(b0 as u32 * 65536 + b1 as u32 * 256 + b2 as u32)
        } else {
            Err(ParseError::InsufficientData)
        }
    }

    /// Borrows the next `n` bytes without copying: the result is a
    /// sub-window of the original input slice. Fails exactly when fewer
    /// than `n` bytes are left, and then leaves the cursor where it was.
    pub fn slice(&mut self, n: usize) -> (r: Result<&'a [u8], ParseError>)
        requires
            old(self).wf(),
        ensures
            final(self).wf(),
            final(self).input() == old(self).input(),
            old(self).remaining_spec() >= n ==> {
                &&& r matches Ok(s) && s@ == old(self).input().subrange(
                    old(self).cursor(),
                    old(self).cursor() + n,
                )
                &&& final(self).cursor() == old(self).cursor() + n
            },
            old(self).remaining_spec() < n ==> r == Err::<&'a [u8], ParseError>(
                ParseError::InsufficientData,
            ) && final(self).cursor() == old(self).cursor(),
    {
        if n <= self.data.len() - self.offset {
            let s = slice_subrange(self.data, self.offset, self.offset + n);
            self.offset = self.offset + n;
            Ok(s)
        } else {
            Err(ParseError::InsufficientData)
        }
    }
}

} // verus!
