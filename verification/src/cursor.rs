//! A positionable, endianness-aware sequential reader over an immutable byte
//! buffer, with bounds-checked fixed-width reads.

use vstd::prelude::*;

verus! {

/// Byte order used to interpret multi-byte reads.
#[derive(Clone, Copy, Debug, PartialEq, Eq, Structural)]
pub enum Endian {
    Little,
    Big,
}

/// Failure of a bounds-checked read: fewer bytes remain than the read needs.
#[derive(Clone, Copy, Debug, PartialEq, Eq, Structural)]
pub enum ReadError {
    OutOfBounds,
}

/// The integer value of the two bytes at `i` under byte order `e`.
pub open spec fn val16(s: Seq<u8>, i: int, e: Endian) -> int {
    match e {
        Endian::Little => s[i] + 0x100 * s[i + 1],
        Endian::Big => s[i + 1] + 0x100 * s[i],
    }
}

/// The integer value of the four bytes at `i` under byte order `e`.
pub open spec fn val32(s: Seq<u8>, i: int, e: Endian) -> int {
    match e {
        Endian::Little => s[i] + 0x100 * s[i + 1] + 0x10000 * s[i + 2] + 0x1000000 * s[i + 3],
        Endian::Big => s[i + 3] + 0x100 * s[i + 2] + 0x10000 * s[i + 1] + 0x1000000 * s[i],
    }
}

/// An immutable byte buffer together with a cursor position and the byte
/// order under which multi-byte reads are interpreted. Only the cursor's own
/// position and mode are mutable; the bytes never change.
pub struct ByteView<'a> {
    pub data: &'a [u8],
    pub pos: usize,
    pub order: Endian,
}

impl<'a> ByteView<'a> {
    /// The cursor never points past the end of the buffer.
    pub open spec fn wf(self) -> bool {
        self.pos <= self.data@.len()
    }

    pub fn new(data: &'a [u8]) -> (r: ByteView<'a>)
        ensures
            r.data@ == data@,
            r.pos == 0,
            r.order == Endian::Little,
            r.wf(),
    {
        ByteView { data, pos: 0, order: Endian::Little }
    }

    /// Total buffer size.
    pub fn length(&self) -> (r: usize)
        ensures
            r == self.data@.len(),
    {
        self.data.len()
    }

    /// Repositions the cursor; no other state changes.
    pub fn seek(&mut self, pos: usize)
        requires
            pos <= old(self).data@.len(),
        ensures
            final(self).data@ == old(self).data@,
            final(self).order == old(self).order,
            final(self).pos == pos,
            final(self).wf(),
    {
        self.pos = pos;
    }

    /// Changes how subsequent multi-byte reads are interpreted.
    pub fn set_byte_order(&mut self, order: Endian)
        ensures
            final(self).data@ == old(self).data@,
            final(self).pos == old(self).pos,
            final(self).order == order,
    {
        self.order = order;
    }

    /// Reads one byte at the cursor and advances past it, or fails with
    /// `OutOfBounds` when the cursor sits at the end of the buffer.
    pub fn read_u8(&mut self) -> (r: Result<u8, ReadError>)
        requires
            old(self).wf(),
        ensures
            final(self).data@ == old(self).data@,
            final(self).order == old(self).order,
            final(self).wf(),
            old(self).pos + 1 <= old(self).data@.len() ==> {
                &&& r == Ok::<u8, ReadError>(old(self).data@[old(self).pos as int])
                &&& final(self).pos == old(self).pos + 1
            },
            old(self).pos + 1 > old(self).data@.len() ==> {
                &&& r == Err::<u8, ReadError>(ReadError::OutOfBounds)
                &&& final(self).pos == old(self).pos
            },
    {
        if self.data.len() - self.pos >= 1 {
            let b: u8 = self.data[self.pos];
            self.pos = self.pos + 1;
            Ok(b)
        } else {
            Err(ReadError::OutOfBounds)
        }
    }

    /// Reads two bytes at the cursor under the active byte order and advances
    /// past them, or fails with `OutOfBounds` when fewer than two remain.
    pub fn read_u16(&mut self) -> (r: Result<u16, ReadError>)
        requires
            old(self).wf(),
        ensures
            final(self).data@ == old(self).data@,
            final(self).order == old(self).order,
            final(self).wf(),
            old(self).pos + 2 <= old(self).data@.len() ==> {
                &&& r is Ok
                &&& r->Ok_0 as int == val16(old(self).data@, old(self).pos as int, old(self).order)
                &&& final(self).pos == old(self).pos + 2
            },
            old(self).pos + 2 > old(self).data@.len() ==> {
                &&& r == Err::<u16, ReadError>(ReadError::OutOfBounds)
                &&& final(self).pos == old(self).pos
            },
    {
        if self.data.len() - self.pos >= 2 {
            let b0: u8 = self.data[self.pos];
            let b1: u8 = self.data[self.pos + 1];
            self.pos = self.pos + 2;
            let v: u16 = match self.order {
                Endian::Little => (b0 as u16) + 0x100 * (b1 as u16),
                Endian::Big => (b1 as u16) + 0x100 * (b0 as u16),
            };
            Ok(v)
        } else {
            Err(ReadError::OutOfBounds)
        }
    }

    /// Reads four bytes at the cursor under the active byte order and advances
    /// past them, or fails with `OutOfBounds` when fewer than four remain.
    pub fn read_u32(&mut self) -> (r: Result<u32, ReadError>)
        requires
            old(self).wf(),
        ensures
            final(self).data@ == old(self).data@,
            final(self).order == old(self).order,
            final(self).wf(),
            old(self).pos + 4 <= old(self).data@.len() ==> {
                &&& r is Ok
                &&& r->Ok_0 as int == val32(old(self).data@, old(self).pos as int, old(self).order)
                &&& final(self).pos == old(self).pos + 4
            },
            old(self).pos + 4 > old(self).data@.len() ==> {
                &&& r == Err::<u32, ReadError>(ReadError::OutOfBounds)
                &&& final(self).pos == old(self).pos
            },
    {
        if self.data.len() - self.pos >= 4 {
            let b0: u8 = self.data[self.pos];
            let b1: u8 = self.data[self.pos + 1];
            let b2: u8 = self.data[self.pos + 2];
            let b3: u8 = self.data[self.pos + 3];
            self.pos = self.pos + 4;
            let v: u32 = match self.order {
                Endian::Little => {
                    (b0 as u32) + 0x100 * (b1 as u32) + 0x10000 * (b2 as u32)
                        + 0x1000000 * (b3 as u32)
                }
                Endian::Big => {
                    (b3 as u32) + 0x100 * (b2 as u32) + 0x10000 * (b1 as u32)
                        + 0x1000000 * (b0 as u32)
                }
            };
            Ok(v)
        } else {
            Err(ReadError::OutOfBounds)
        }
    }
}

} // verus!
