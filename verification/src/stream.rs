//! A seekable cursor over bytes held in memory, and its mathematical model.

use byteorder::{ByteOrder, LittleEndian};
use vstd::prelude::*;
use vstd::slice::slice_subrange;

use crate::errors::{ImageError, ImageErrorView, ImageResult, IoFailure};

verus! {

broadcast use vstd::slice::group_slice_axioms;

/// A byte stream and the position of its cursor. The position may lie beyond
/// the last byte: a seek can go there, and the next read then fails.
pub struct Stream {
    pub bytes: Seq<u8>,
    pub position: nat,
}

/// What an operation on a stream gives, and where it leaves the cursor.
pub struct Outcome<T> {
    pub result: Result<T, ImageErrorView>,
    pub position: nat,
}

/// The value of two bytes read in little-endian order.
pub open spec fn u16_le(low: u8, high: u8) -> u16 {
    (low as int + 256 * high as int) as u16
}

impl<T> Outcome<T> {
    /// Success with `value`, the cursor left at `position`.
    pub open spec fn ok(value: T, position: nat) -> Outcome<T> {
        Outcome { result: Ok(value), position }
    }

    /// Failure with `error`, the cursor left at `position`.
    pub open spec fn fail(error: ImageErrorView, position: nat) -> Outcome<T> {
        Outcome { result: Err(error), position }
    }
}

impl Stream {
    /// The same bytes with the cursor at `position`.
    pub open spec fn at(self, position: nat) -> Stream {
        Stream { bytes: self.bytes, position }
    }

    /// The number of bytes from the cursor to the end of the data.
    pub open spec fn available(self) -> nat {
        if self.position <= self.bytes.len() {
            (self.bytes.len() - self.position) as nat
        } else {
            0
        }
    }

    /// The byte that lies `offset` bytes after the cursor.
    pub open spec fn byte(self, offset: nat) -> u8 {
        self.bytes[(self.position + offset) as int]
    }

    /// The `count` bytes that start at the cursor.
    pub open spec fn ahead(self, count: nat) -> Seq<u8> {
        self.bytes.subrange(self.position as int, (self.position + count) as int)
    }

    /// A read that finds too few bytes: it takes those that are left and
    /// reports the end of the data.
    pub open spec fn short_read<T>(self) -> Outcome<T> {
        Outcome::fail(
            ImageErrorView::IoError(IoFailure::UnexpectedEof),
            if self.position <= self.bytes.len() {
                self.bytes.len()
            } else {
                self.position
            },
        )
    }

    /// Reading exactly `count` bytes.
    pub open spec fn read_exact(self, count: nat) -> Outcome<Seq<u8>> {
        if count == 0 {
            Outcome::ok(Seq::empty(), self.position)
        } else if count <= self.available() {
            Outcome::ok(self.ahead(count), self.position + count)
        } else {
            self.short_read()
        }
    }

    /// Reading one byte.
    pub open spec fn read_u8(self) -> Outcome<u8> {
        if 1 <= self.available() {
            Outcome::ok(self.byte(0), self.position + 1)
        } else {
            self.short_read()
        }
    }

    /// Reading a 16-bit integer stored low byte first.
    pub open spec fn read_u16_le(self) -> Outcome<u16> {
        if 2 <= self.available() {
            Outcome::ok(u16_le(self.byte(0), self.byte(1)), self.position + 2)
        } else {
            self.short_read()
        }
    }

    /// Moving the cursor by `offset` bytes. Only a target below zero or above
    /// the largest position fails; the cursor then stays where it was.
    pub open spec fn seek_relative(self, offset: int) -> Outcome<()> {
        if 0 <= self.position + offset <= u64::MAX {
            Outcome::ok((), (self.position + offset) as nat)
        } else {
            Outcome::fail(ImageErrorView::IoError(IoFailure::InvalidSeek), self.position)
        }
    }
}

/// What `result` says, with the text of an error as characters.
pub open spec fn reported<T>(result: ImageResult<T>) -> Result<T, ImageErrorView> {
    match result {
        Ok(value) => Ok(value),
        Err(error) => Err(error@),
    }
}

/// Decodes the first two bytes of `buf` with `byteorder::LittleEndian::read_u16`,
/// which panics on a shorter slice and otherwise returns the integer whose low
/// byte is `buf[0]` and whose high byte is `buf[1]`.
#[verifier::external_body]
fn decode_u16_le(buf: &[u8]) -> (value: u16)
    requires
        buf@.len() >= 2,
    ensures
        value == u16_le(buf@[0], buf@[1]),
{
    LittleEndian::read_u16(buf)
}

/// A cursor over borrowed bytes.
pub struct ByteCursor<'a> {
    data: &'a [u8],
    pos: u64,
}

impl<'a> View for ByteCursor<'a> {
    type V = Stream;

    closed spec fn view(&self) -> Stream {
        Stream { bytes: self.data@, position: self.pos as nat }
    }
}

impl<'a> ByteCursor<'a> {
    /// A cursor at the start of `data`.
    pub fn new(data: &'a [u8]) -> (cursor: Self)
        ensures
            cursor@ == (Stream { bytes: data@, position: 0 }),
            data@.len() <= usize::MAX,
    {
        proof {
            vstd::slice::axiom_spec_len(data);
        }
        ByteCursor { data, pos: 0 }
    }

    /// The offset of the cursor from the start of the data.
    pub fn position(&self) -> (position: u64)
        ensures
            position == self@.position,
    {
        self.pos
    }

    /// The data is held in memory, and the cursor is a 64-bit offset.
    pub proof fn lemma_view_bounds(&self)
        ensures
            self@.bytes.len() <= usize::MAX,
            self@.position <= u64::MAX,
    {
        vstd::slice::axiom_spec_len(self.data);
    }

    /// The number of bytes that can still be read.
    fn available(&self) -> (count: usize)
        ensures
            count == self@.available(),
            self@.bytes.len() <= usize::MAX,
    {
        let len = self.data.len();
        if self.pos <= len as u64 {
            len - self.pos as usize
        } else {
            0
        }
    }

    /// Leaves the cursor where a read that came up short stops.
    fn short_read<T>(&mut self) -> (result: ImageResult<T>)
        ensures
            final(self)@ == old(self)@.at(old(self)@.short_read::<T>().position),
            reported(result) == old(self)@.short_read::<T>().result,
    {
        let len = self.data.len() as u64;
        if self.pos <= len {
            self.pos = len;
        }
        Err(ImageError::IoError(IoFailure::UnexpectedEof))
    }

    /// Reads exactly `count` bytes.
    pub fn read_exact(&mut self, count: usize) -> (result: ImageResult<&'a [u8]>)
        ensures
            final(self)@ == old(self)@.at(old(self)@.read_exact(count as nat).position),
            match result {
                Ok(chunk) => old(self)@.read_exact(count as nat).result == Ok::<
                    Seq<u8>,
                    ImageErrorView,
                >(chunk@),
                Err(error) => old(self)@.read_exact(count as nat).result == Err::<
                    Seq<u8>,
                    ImageErrorView,
                >(error@),
            },
    {
        if count == 0 {
            let chunk = slice_subrange(self.data, 0, 0);
            assert(chunk@ =~= Seq::<u8>::empty());
            Ok(chunk)
        } else if count <= self.available() {
            let start = self.pos as usize;
            let chunk = slice_subrange(self.data, start, start + count);
            self.pos = self.pos + count as u64;
            Ok(chunk)
        } else {
            self.short_read()
        }
    }

    /// Reads one byte.
    pub fn read_u8(&mut self) -> (result: ImageResult<u8>)
        ensures
            final(self)@ == old(self)@.at(old(self)@.read_u8().position),
            reported(result) == old(self)@.read_u8().result,
    {
        if 1 <= self.available() {
            let byte = self.data[self.pos as usize];
            self.pos = self.pos + 1;
            Ok(byte)
        } else {
            self.short_read()
        }
    }

    /// Reads a 16-bit integer stored low byte first.
    pub fn read_u16_le(&mut self) -> (result: ImageResult<u16>)
        ensures
            final(self)@ == old(self)@.at(old(self)@.read_u16_le().position),
            reported(result) == old(self)@.read_u16_le().result,
    {
        if 2 <= self.available() {
            let start = self.pos as usize;
            let value = decode_u16_le(slice_subrange(self.data, start, start + 2));
            self.pos = self.pos + 2;
            Ok(value)
        } else {
            self.short_read()
        }
    }

    /// Moves the cursor by `offset` bytes, forward or back.
    pub fn seek_relative(&mut self, offset: i64) -> (result: ImageResult<()>)
        ensures
            final(self)@ == old(self)@.at(old(self)@.seek_relative(offset as int).position),
            reported(result) == old(self)@.seek_relative(offset as int).result,
    {
        let target: i128 = self.pos as i128 + offset as i128;
        if 0 <= target && target <= u64::MAX as i128 {
            self.pos = target as u64;
            Ok(())
        } else {
            Err(ImageError::IoError(IoFailure::InvalidSeek))
        }
    }
}

} // verus!
