//! Byte-counting wrappers for stream endpoints.
//!
//! [`TrackingReader`] and [`TrackingWriter`] carry an inner endpoint
//! of any type together with a saturating count of the bytes that
//! passed through it; the embedding, which owns the actual I/O,
//! reports each transfer through [`TrackingReader::record_read`] /
//! [`TrackingWriter::record_write`].  [`ConcatenateSliceWriter`] wraps
//! a writer so that positioned writes are laid down one after another,
//! ignoring the offsets; the type itself only carries the inner
//! writer.

use vstd::prelude::*;

verus! {

/// Add `n` to `total`, stopping at the largest representable count
/// rather than wrapping.
pub fn saturating_add_u64(total: u64, n: u64) -> (r: u64)
    ensures
        r == (if total + n <= u64::MAX {
            total + n
        } else {
            u64::MAX as int
        }),
{
    if n <= u64::MAX - total {
        total + n
    } else {
        u64::MAX
    }
}

/// A reader that tracks the number of bytes read.
#[derive(Debug)]
pub struct TrackingReader<R> {
    inner: R,
    read: u64,
}

impl<R> TrackingReader<R> {
    /// The running count of bytes read.
    pub closed spec fn count(self) -> u64 {
        self.read
    }

    /// The wrapped reader.
    pub closed spec fn endpoint(self) -> R {
        self.inner
    }

    /// Wrap `inner` with a count starting at zero.
    pub fn new(inner: R) -> (r: TrackingReader<R>)
        ensures
            r.count() == 0,
            r.endpoint() == inner,
    {
        Self { inner, read: 0 }
    }

    /// The number of bytes read so far.
    pub fn bytes_read(&self) -> (r: u64)
        ensures
            r == self.count(),
    {
        self.read
    }

    /// Take the wrapper apart into the inner reader and the count.
    pub fn into_parts(self) -> (r: (R, u64))
        ensures
            r.0 == self.endpoint(),
            r.1 == self.count(),
    {
        (self.inner, self.read)
    }

    /// Borrow the inner reader for the embedding to perform a read on.
    pub fn inner_mut(&mut self) -> (r: &mut R)
        ensures
            *r == old(self).endpoint(),
            final (self).endpoint() == *final (r),
            final (self).count() == old(self).count(),
    {
        &mut self.inner
    }

    /// Record that a read delivered `n` bytes; the count saturates
    /// rather than wraps.
    pub fn record_read(&mut self, n: usize)
        ensures
            final (self).count() == (if old(self).count() + n <= u64::MAX {
                old(self).count() + n
            } else {
                u64::MAX as int
            }),
            final (self).endpoint() == old(self).endpoint(),
    {
        self.read = saturating_add_u64(self.read, n as u64);
    }
}

/// A writer that tracks the number of bytes written.
#[derive(Debug)]
pub struct TrackingWriter<W> {
    inner: W,
    written: u64,
}

impl<W> TrackingWriter<W> {
    /// The running count of bytes written.
    pub closed spec fn count(self) -> u64 {
        self.written
    }

    /// The wrapped writer.
    pub closed spec fn endpoint(self) -> W {
        self.inner
    }

    /// Wrap `inner` with a count starting at zero.
    pub fn new(inner: W) -> (r: TrackingWriter<W>)
        ensures
            r.count() == 0,
            r.endpoint() == inner,
    {
        Self { inner, written: 0 }
    }

    /// The number of bytes written so far.
    pub fn bytes_written(&self) -> (r: u64)
        ensures
            r == self.count(),
    {
        self.written
    }

    /// Take the wrapper apart into the inner writer and the count.
    pub fn into_parts(self) -> (r: (W, u64))
        ensures
            r.0 == self.endpoint(),
            r.1 == self.count(),
    {
        (self.inner, self.written)
    }

    /// Borrow the inner writer for the embedding to perform a write on.
    pub fn inner_mut(&mut self) -> (r: &mut W)
        ensures
            *r == old(self).endpoint(),
            final (self).endpoint() == *final (r),
            final (self).count() == old(self).count(),
    {
        &mut self.inner
    }

    /// Record that a write accepted `n` bytes; the count saturates
    /// rather than wraps.
    pub fn record_write(&mut self, n: usize)
        ensures
            final (self).count() == (if old(self).count() + n <= u64::MAX {
                old(self).count() + n
            } else {
                u64::MAX as int
            }),
            final (self).endpoint() == old(self).endpoint(),
    {
        self.written = saturating_add_u64(self.written, n as u64);
    }
}

/// Presents a plain writer as a positioned slice writer by ignoring
/// the offsets: every write is appended where the last one ended.
#[derive(Debug)]
pub struct ConcatenateSliceWriter<W> {
    inner: W,
}

impl<W> ConcatenateSliceWriter<W> {
    /// The wrapped writer.
    pub closed spec fn endpoint(self) -> W {
        self.inner
    }

    /// Create a new `ConcatenateSliceWriter` from an inner writer.
    pub fn new(inner: W) -> (r: ConcatenateSliceWriter<W>)
        ensures
            r.endpoint() == inner,
    {
        Self { inner }
    }

    /// Return the inner writer.
    pub fn into_inner(self) -> (r: W)
        ensures
            r == self.endpoint(),
    {
        self.inner
    }

    /// Borrow the inner writer for the embedding to write through.
    pub fn inner_mut(&mut self) -> (r: &mut W)
        ensures
            *r == old(self).endpoint(),
            final (self).endpoint() == *final (r),
    {
        &mut self.inner
    }
}

} // verus!
