//! The writer contract: the abstraction the serializer writes bytes into.
//!
//! A writer advertises how many bytes it can still accept and accepts up to
//! that many per call, reporting how many it actually took — possibly fewer
//! than offered, even zero. The serializer tolerates any such split: no flush
//! boundary needs to align with a protocol boundary.

use vstd::prelude::*;

verus! {

/// The abstraction the serializer writes into. Implementors choose the error
/// type of an unrecoverable transport failure; running out of capacity is
/// not an error but a short count.
pub trait Writer {
    /// The error of an unrecoverable transport failure.
    type Error;

    /// The bytes accepted so far.
    spec fn buffered(&self) -> Seq<u8>;

    /// The capacity still available before the next write.
    spec fn avail(&self) -> nat;

    /// How many bytes the writer can still accept.
    fn remaining_len(&self) -> (r: usize)
        ensures
            r as nat == self.avail(),
    ;

    /// Accepts up to `data.len()` bytes, appending them in order, and
    /// reports how many were actually accepted — possibly fewer than
    /// offered, even zero. No other effect is observable.
    fn write(&mut self, data: &[u8]) -> (r: Result<usize, Self::Error>)
        ensures
            match r {
                Ok(n) => n <= data@.len() && final(self).buffered() == old(self).buffered()
                    + data@.take(n as int),
                Err(_) => true,
            },
    ;
}

/// A writer backed by a growable buffer with a fixed total capacity: it
/// accepts bytes until the capacity is reached and never fails.
pub struct BufferWriter {
    buf: Vec<u8>,
    capacity: usize,
}

impl BufferWriter {
    /// Creates an empty writer that will accept up to `capacity` bytes.
    pub fn new(capacity: usize) -> (r: BufferWriter)
        ensures
            r.buffered() == Seq::<u8>::empty(),
            r.avail() == capacity as nat,
    {
        BufferWriter { buf: Vec::new(), capacity }
    }

    /// The bytes written so far.
    pub fn bytes(&self) -> (r: &Vec<u8>)
        ensures
            r@ == self.buffered(),
    {
        &self.buf
    }

    /// Consumes the writer, yielding the bytes written.
    pub fn into_bytes(self) -> (r: Vec<u8>)
        ensures
            r@ == self.buffered(),
    {
        self.buf
    }
}

impl Writer for BufferWriter {
    type Error = ();

    closed spec fn buffered(&self) -> Seq<u8> {
        self.buf@
    }

    closed spec fn avail(&self) -> nat {
        if self.buf@.len() <= self.capacity {
            (self.capacity - self.buf@.len()) as nat
        } else {
            0
        }
    }

    fn remaining_len(&self) -> (r: usize) {
        if self.buf.len() <= self.capacity {
            self.capacity - self.buf.len()
        } else {
            0
        }
    }

    fn write(&mut self, data: &[u8]) -> (r: Result<usize, ()>)
        ensures
            ({
                let n = if data@.len() <= old(self).avail() {
                    data@.len() as int
                } else {
                    old(self).avail() as int
                };
                &&& r == Ok::<usize, ()>(n as usize)
                &&& final(self).avail() == old(self).avail() - n
            }),
    {
        let room = if self.buf.len() <= self.capacity {
            self.capacity - self.buf.len()
        } else {
            0
        };
        let n = if data.len() <= room {
            data.len()
        } else {
            room
        };
        let mut i: usize = 0;
        while i < n
            invariant
                i <= n,
                n <= data@.len(),
                self.buf@ == old(self).buf@ + data@.take(i as int),
                self.capacity == old(self).capacity,
            decreases n - i,
        {
            self.buf.push(data[i]);
            proof {
                assert(self.buf@ == old(self).buf@ + data@.take(i + 1));
            }
            i = i + 1;
        }
        Ok(n)
    }
}

} // verus!
