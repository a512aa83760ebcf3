//! Adapters that wrap a reader or writer of an I/O ecosystem, and the
//! progress rule of their read-exactly and write-all loops.

use vstd::prelude::*;

verus! {

/// A reader or writer of the embedded I/O traits.
pub struct EmbeddedIo<T> {
    inner: T,
}

impl<T> EmbeddedIo<T> {
    /// The wrapped value.
    pub closed spec fn wrapped(self) -> T {
        self.inner
    }

    /// Wraps `inner`.
    pub fn new(inner: T) -> (r: EmbeddedIo<T>)
        ensures
            r.wrapped() == inner,
    {
        EmbeddedIo { inner }
    }

    /// Unwraps the value.
    pub fn into_inner(self) -> (r: T)
        ensures
            r == self.wrapped(),
    {
        self.inner
    }

    /// The wrapped value.
    pub fn inner(&self) -> (r: &T)
        ensures
            *r == self.wrapped(),
    {
        &self.inner
    }

    /// The wrapped value, mutably.
    pub fn inner_mut(&mut self) -> (r: &mut T)
        ensures
            *r == old(self).wrapped(),
            final(self).wrapped() == *final(r),
    {
        &mut self.inner
    }
}

/// A reader or writer of the `futures` I/O traits.
pub struct FuturesIo<T> {
    inner: T,
}

impl<T> FuturesIo<T> {
    /// The wrapped value.
    pub closed spec fn wrapped(self) -> T {
        self.inner
    }

    /// Wraps `inner`.
    pub fn new(inner: T) -> (r: FuturesIo<T>)
        ensures
            r.wrapped() == inner,
    {
        FuturesIo { inner }
    }

    /// Unwraps the value.
    pub fn into_inner(self) -> (r: T)
        ensures
            r == self.wrapped(),
    {
        self.inner
    }

    /// The wrapped value.
    pub fn inner(&self) -> (r: &T)
        ensures
            *r == self.wrapped(),
    {
        &self.inner
    }

    /// The wrapped value, mutably.
    pub fn inner_mut(&mut self) -> (r: &mut T)
        ensures
            *r == old(self).wrapped(),
            final(self).wrapped() == *final(r),
    {
        &mut self.inner
    }
}

/// The next step of a loop that must move `len` bytes, `total` of them
/// moved so far, after one call moved `n` more.
#[derive(Debug, Clone, Copy, PartialEq, Eq, Structural)]
pub enum Progress {
    /// All bytes are moved.
    Done,
    /// More bytes remain; this many are moved so far.
    Partial(usize),
    /// The call moved nothing: the reader hit its end (read) or the writer
    /// accepted nothing (write).
    Stalled,
}

/// The progress rule of read-exactly and write-all: a call that moves no
/// byte before the buffer is complete is an error; otherwise the count
/// grows by what it moved until it reaches `len`.
pub fn advance(total: usize, len: usize, n: usize) -> (r: Progress)
    requires
        total < len,
        n <= len - total,
    ensures
        n == 0 ==> r == Progress::Stalled,
        n > 0 && total + n == len ==> r == Progress::Done,
        n > 0 && total + n < len ==> r == Progress::Partial((total + n) as usize),
{
    if n == 0 {
        Progress::Stalled
    } else if total + n == len {
        Progress::Done
    } else {
        Progress::Partial(total + n)
    }
}

} // verus!
