//! A fixed-capacity byte buffer with a read cursor.

use vstd::prelude::*;
use vstd::slice::slice_subrange;

verus! {

/// Number of bytes a buffer holds: one DNS datagram.
pub const CAPACITY: usize = 512;

/// Why a read from a [`PacketBuffer`] failed.
#[derive(Debug, Clone, Copy, PartialEq, Eq, Structural)]
pub enum PacketError {
    /// A read needed a byte outside the buffer. The value is the first index
    /// at or beyond the capacity that the read needed.
    OutOfBounds(usize),
    /// A domain name went through more compression pointers than allowed.
    /// The value is the cursor position at which decoding of the name began.
    CompressionLoopExceeded(usize),
}

/// The first index at or after `at` that lies outside a buffer of `len` bytes.
pub open spec fn first_outside(len: nat, at: int) -> int {
    if at >= len {
        at
    } else {
        len as int
    }
}

/// The error reported when index `at` is needed but lies outside the buffer.
pub open spec fn out_of_bounds(at: int) -> PacketError {
    PacketError::OutOfBounds(at as usize)
}

/// What a decoder yields when it starts at a given offset: its result, and
/// the offset at which it leaves the cursor.
pub struct Decoded<T> {
    pub result: Result<T, PacketError>,
    pub cursor: int,
}

/// Reading `n` bytes one after another, starting at `at`, to obtain `value`.
/// All of them must lie inside the buffer. Otherwise the bytes that exist are
/// consumed and the read fails at the first index outside.
pub open spec fn fixed_at<T>(data: Seq<u8>, at: int, n: nat, value: T) -> Decoded<T> {
    if at + n <= data.len() {
        Decoded { result: Ok(value), cursor: at + n }
    } else {
        Decoded {
            result: Err(out_of_bounds(first_outside(data.len(), at))),
            cursor: first_outside(data.len(), at),
        }
    }
}

/// A decoder's result with the value, if there is one, taken by its view.
pub open spec fn view_of<T: View>(r: Result<T, PacketError>) -> Result<T::V, PacketError> {
    match r {
        Ok(value) => Ok(value@),
        Err(e) => Err(e),
    }
}

/// The 16-bit number whose big-endian bytes are `hi`, `lo`.
pub open spec fn be16(hi: u8, lo: u8) -> u16 {
    (hi as int * 0x100 + lo as int) as u16
}

/// The 32-bit number whose big-endian bytes are `b0` to `b3`.
pub open spec fn be32(b0: u8, b1: u8, b2: u8, b3: u8) -> u32 {
    (b0 as int * 0x100_0000 + b1 as int * 0x1_0000 + b2 as int * 0x100 + b3 as int) as u32
}

/// One byte read at `at`.
pub open spec fn u8_at(data: Seq<u8>, at: int) -> Decoded<u8> {
    fixed_at(data, at, 1, data[at])
}

/// A big-endian 16-bit number read at `at`.
pub open spec fn u16_at(data: Seq<u8>, at: int) -> Decoded<u16> {
    fixed_at(data, at, 2, be16(data[at], data[at + 1]))
}

/// A big-endian 32-bit number read at `at`.
pub open spec fn u32_at(data: Seq<u8>, at: int) -> Decoded<u32> {
    fixed_at(data, at, 4, be32(data[at], data[at + 1], data[at + 2], data[at + 3]))
}

/// The bytes `before` with `data` written over them from index `at` on.
pub open spec fn overwritten(before: Seq<u8>, at: int, data: Seq<u8>) -> Seq<u8> {
    before.subrange(0, at) + data + before.subrange(at + data.len(), before.len() as int)
}

/// Bytes of one datagram together with the position of the next read.
pub struct PacketBuffer {
    buffer: [u8; CAPACITY],
    pos: usize,
}

impl PacketBuffer {
    #[verifier::type_invariant]
    spec fn cursor_in_range(&self) -> bool {
        self.pos <= CAPACITY
    }

    /// The bytes held, all `CAPACITY` of them.
    pub closed spec fn bytes(&self) -> Seq<u8> {
        self.buffer@
    }

    /// The read position.
    pub closed spec fn cursor(&self) -> int {
        self.pos as int
    }

    /// Every buffer holds exactly `CAPACITY` bytes, and no cursor is negative.
    pub proof fn lemma_bounds(&self)
        ensures
            self.bytes().len() == CAPACITY,
            0 <= self.cursor(),
    {
    }

    /// A zero-filled buffer with the cursor at the start.
    pub fn new() -> (buffer: PacketBuffer)
        ensures
            buffer.cursor() == 0,
            buffer.bytes() == Seq::new(CAPACITY as nat, |i: int| 0u8),
    {
        PacketBuffer { buffer: [0u8; CAPACITY], pos: 0 }
    }

    /// The read position, which never exceeds the capacity.
    pub fn pos(&self) -> (pos: usize)
        ensures
            pos == self.cursor(),
            pos <= CAPACITY,
    {
        proof {
            use_type_invariant(self);
        }
        self.pos
    }

    /// Moves the cursor to `pos`.
    pub fn seek(&mut self, pos: usize)
        requires
            pos <= CAPACITY,
        ensures
            final(self).cursor() == pos,
            final(self).bytes() == old(self).bytes(),
    {
        self.pos = pos;
    }

    /// Moves the cursor `steps` bytes forward without reading.
    pub fn walk(&mut self, steps: usize)
        requires
            old(self).cursor() + steps <= CAPACITY,
        ensures
            final(self).cursor() == old(self).cursor() + steps,
            final(self).bytes() == old(self).bytes(),
    {
        self.pos = self.pos + steps;
    }

    /// The byte at index `at`; the cursor stays where it is.
    pub fn peek_byte(&self, at: usize) -> (r: Result<u8, PacketError>)
        ensures
            at < CAPACITY ==> r == Ok::<u8, PacketError>(self.bytes()[at as int]),
            at >= CAPACITY ==> r == Err::<u8, PacketError>(PacketError::OutOfBounds(at)),
    {
        if at >= CAPACITY {
            return Err(PacketError::OutOfBounds(at));
        }
        Ok(self.buffer[at])
    }

    /// The byte under the cursor; the cursor moves past it.
    pub fn read_byte(&mut self) -> (r: Result<u8, PacketError>)
        ensures
            final(self).bytes() == old(self).bytes(),
            r == u8_at(old(self).bytes(), old(self).cursor()).result,
            final(self).cursor() == u8_at(old(self).bytes(), old(self).cursor()).cursor,
            old(self).cursor() >= CAPACITY ==> r == Err::<u8, PacketError>(
                out_of_bounds(old(self).cursor()),
            ),
    {
        if self.pos >= CAPACITY {
            return Err(PacketError::OutOfBounds(self.pos));
        }
        let byte = self.buffer[self.pos];
        self.pos = self.pos + 1;
        Ok(byte)
    }

    /// The `length` bytes that begin at index `start`; the cursor stays where
    /// it is. Both `start` and the whole range must lie inside the buffer.
    pub fn read_range(&self, start: usize, length: usize) -> (r: Result<&[u8], PacketError>)
        ensures
            match r {
                Ok(range) => start < CAPACITY && start + length <= CAPACITY && range@
                    == self.bytes().subrange(start as int, start + length),
                Err(e) => (start >= CAPACITY || start + length > CAPACITY) && e == out_of_bounds(
                    first_outside(CAPACITY as nat, start as int),
                ),
            },
    {
        if start >= CAPACITY {
            return Err(PacketError::OutOfBounds(start));
        }
        if length > CAPACITY - start {
            return Err(PacketError::OutOfBounds(CAPACITY));
        }
        Ok(slice_subrange(self.buffer.as_slice(), start, start + length))
    }

    /// The big-endian 16-bit number under the cursor; the cursor moves past
    /// it.
    pub fn read_u16(&mut self) -> (r: Result<u16, PacketError>)
        ensures
            final(self).bytes() == old(self).bytes(),
            r == u16_at(old(self).bytes(), old(self).cursor()).result,
            final(self).cursor() == u16_at(old(self).bytes(), old(self).cursor()).cursor,
    {
        let hi = self.read_byte()?;
        let lo = self.read_byte()?;
        let value = ((hi as u16) << 8) | (lo as u16);
        assert(value == (hi as u16) * 0x100 + (lo as u16)) by (bit_vector)
            requires
                value == ((hi as u16) << 8) | (lo as u16),
        ;
        Ok(value)
    }

    /// The big-endian 32-bit number under the cursor; the cursor moves past
    /// it.
    pub fn read_u32(&mut self) -> (r: Result<u32, PacketError>)
        ensures
            final(self).bytes() == old(self).bytes(),
            r == u32_at(old(self).bytes(), old(self).cursor()).result,
            final(self).cursor() == u32_at(old(self).bytes(), old(self).cursor()).cursor,
    {
        let b0 = self.read_byte()?;
        let b1 = self.read_byte()?;
        let b2 = self.read_byte()?;
        let b3 = self.read_byte()?;
        let value = ((b0 as u32) << 24) | ((b1 as u32) << 16) | ((b2 as u32) << 8) | (b3 as u32);
        assert(value == (b0 as u32) * 0x100_0000 + (b1 as u32) * 0x1_0000 + (b2 as u32) * 0x100 + (
        b3 as u32)) by (bit_vector)
            requires
                value == ((b0 as u32) << 24) | ((b1 as u32) << 16) | ((b2 as u32) << 8) | (
                b3 as u32),
        ;
        Ok(value)
    }

    /// Copies `data` into the buffer at the cursor and moves the cursor past
    /// it. Data that does not fit is refused and nothing changes.
    pub fn write(&mut self, data: &[u8]) -> (r: Result<(), PacketError>)
        ensures
            old(self).cursor() + data@.len() <= CAPACITY ==> {
                &&& r is Ok
                &&& final(self).cursor() == old(self).cursor() + data@.len()
                &&& final(self).bytes() == overwritten(
                    old(self).bytes(),
                    old(self).cursor(),
                    data@,
                )
            },
            old(self).cursor() + data@.len() > CAPACITY ==> {
                &&& r == Err::<(), PacketError>(PacketError::OutOfBounds(CAPACITY))
                &&& final(self).cursor() == old(self).cursor()
                &&& final(self).bytes() == old(self).bytes()
            },
    {
        proof {
            use_type_invariant(&*self);
        }
        let start = self.pos;
        if data.len() > CAPACITY - start {
            return Err(PacketError::OutOfBounds(CAPACITY));
        }
        let mut i: usize = 0;
        while i < data.len()
            invariant
                i <= data@.len(),
                start + data@.len() <= CAPACITY,
                self.pos == start,
                forall|j: int| 0 <= j < i ==> self.buffer@[start + j] == data@[j],
                forall|j: int|
                    0 <= j < start || start + i <= j < CAPACITY ==> self.buffer@[j] == old(
                        self,
                    ).buffer@[j],
            decreases data@.len() - i,
        {
            self.buffer[start + i] = data[i];
            i = i + 1;
        }
        assert(self.buffer@ =~= old(self).buffer@.subrange(0, start as int) + data@ + old(
            self,
        ).buffer@.subrange(start + data@.len(), CAPACITY as int));
        self.pos = start + data.len();
        Ok(())
    }
}

} // verus!
