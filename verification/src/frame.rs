//! Length-prefixed message framing over a byte stream.
//!
//! A frame is a 4-byte unsigned big-endian length prefix followed by
//! exactly that many payload bytes.  Payloads at or above
//! [`MAX_MESSAGE_SIZE`] are a protocol violation on both the write and
//! the read side.
//!
//! Reading is incremental: a [`FrameReader`] accumulates whatever bytes
//! the underlying stream produced so far, and [`FrameReader::read_lp`]
//! decides, from the accumulated bytes and an end-of-stream flag alone,
//! whether a complete message is available, more data is needed, the
//! stream closed cleanly at a frame boundary, or the peer violated the
//! protocol.  Bytes of a following message stay buffered, so pipelined
//! messages are read back-to-back without loss.

use vstd::prelude::*;

verus! {

/// Upper bound (exclusive) on the payload size of a single frame.
pub const MAX_MESSAGE_SIZE: usize = 4096;

/// Value of a 4-byte big-endian length prefix at the front of `s`.
pub open spec fn be32(s: Seq<u8>) -> nat
    recommends
        s.len() >= 4,
{
    (s[0] as nat) * 0x1000000 + (s[1] as nat) * 0x10000 + (s[2] as nat) * 0x100 + (s[3] as nat)
}

/// The 4-byte big-endian encoding of `n`.
pub open spec fn be32_bytes(n: nat) -> Seq<u8>
    recommends
        n < 0x1_0000_0000,
{
    seq![
        ((n / 0x1000000) % 0x100) as u8,
        ((n / 0x10000) % 0x100) as u8,
        ((n / 0x100) % 0x100) as u8,
        (n % 0x100) as u8,
    ]
}

/// The complete wire form of one message: length prefix, then payload.
pub open spec fn frame_bytes(payload: Seq<u8>) -> Seq<u8>
    recommends
        payload.len() < MAX_MESSAGE_SIZE,
{
    be32_bytes(payload.len()) + payload
}

/// A violation of the framing protocol.  Each one is fatal to the
/// connection: there is no way to resynchronize mid-stream.
#[derive(Debug, Clone, Copy, PartialEq, Eq)]
pub enum FrameError {
    /// A payload length at or above [`MAX_MESSAGE_SIZE`] was declared or given.
    Oversized,
    /// The stream ended with a partially received length prefix.
    TruncatedPrefix,
    /// The stream ended with a partially received payload.
    TruncatedPayload,
}

/// What one [`FrameReader::read_lp`] call produced.
#[derive(Debug, PartialEq, Eq)]
pub enum ReadOutcome {
    /// A complete message payload.
    Message(Vec<u8>),
    /// The buffered bytes do not yet hold a complete frame; feed more.
    NeedMoreData,
    /// The stream ended cleanly with no bytes pending at a frame boundary.
    ClosedClean,
}

/// The decision [`FrameReader::read_lp`] makes, as a function of the
/// buffered bytes `b` and the end-of-stream flag alone.  `Msg` carries
/// the extracted payload and the bytes that remain buffered after it.
pub enum ReadStep {
    Msg { payload: Seq<u8>, rest: Seq<u8> },
    NeedMore,
    Closed,
    Fail(FrameError),
}

/// The framing state machine, written out: with fewer than 4 buffered
/// bytes the reader is awaiting a prefix (where, and only where, nothing
/// at all is buffered, end of stream is a clean close); with a prefix in
/// hand an oversized declared length is rejected before the payload is
/// read; otherwise the reader accumulates until the declared number of
/// payload bytes is present, and end of stream before that point is an
/// error, never a clean close.
pub open spec fn read_step(b: Seq<u8>, eof: bool) -> ReadStep {
    if b.len() < 4 {
        if !eof {
            ReadStep::NeedMore
        } else if b.len() == 0 {
            ReadStep::Closed
        } else {
            ReadStep::Fail(FrameError::TruncatedPrefix)
        }
    } else {
        let size = be32(b);
        if size >= MAX_MESSAGE_SIZE {
            ReadStep::Fail(FrameError::Oversized)
        } else if b.len() >= 4 + size {
            ReadStep::Msg { payload: b.subrange(4, 4 + size as int), rest: b.skip(4 + size as int) }
        } else if eof {
            ReadStep::Fail(FrameError::TruncatedPayload)
        } else {
            ReadStep::NeedMore
        }
    }
}

/// Incremental reader of length-prefixed messages.  It owns the bytes
/// received from the stream that no returned message has consumed yet.
pub struct FrameReader {
    buffer: Vec<u8>,
}

impl View for FrameReader {
    type V = Seq<u8>;

    closed spec fn view(&self) -> Seq<u8> {
        self.buffer@
    }
}

impl FrameReader {
    /// A reader with nothing buffered.
    pub fn new() -> (r: FrameReader)
        ensures
            r@ == Seq::<u8>::empty(),
    {
        FrameReader { buffer: Vec::new() }
    }

    /// Append bytes received from the stream to the buffer.
    pub fn feed(&mut self, chunk: &[u8])
        ensures
            final(self)@ == old(self)@ + chunk@,
    {
        self.buffer.extend_from_slice(chunk);
    }

    /// Try to take one complete message off the front of the buffer.
    ///
    /// `eof` says that the stream has ended and no more bytes will ever
    /// be fed.  The result is exactly [`read_step`] of the buffered
    /// bytes: a message (leaving any following bytes buffered), a
    /// request for more data, a clean close, or a protocol violation.
    /// Only a message consumes buffered bytes.
    pub fn read_lp(&mut self, eof: bool) -> (r: Result<ReadOutcome, FrameError>)
        ensures
            match read_step(old(self)@, eof) {
                ReadStep::Msg { payload, rest } => {
                    &&& r matches Ok(ReadOutcome::Message(m)) && m@ == payload
                    &&& final(self)@ == rest
                },
                ReadStep::NeedMore => r == Ok::<ReadOutcome, FrameError>(ReadOutcome::NeedMoreData)
                    && final(self)@ == old(self)@,
                ReadStep::Closed => r == Ok::<ReadOutcome, FrameError>(ReadOutcome::ClosedClean)
                    && final(self)@ == old(self)@,
                ReadStep::Fail(e) => r == Err::<ReadOutcome, FrameError>(e)
                    && final(self)@ == old(self)@,
            },
    {
        let n = self.buffer.len();
        if n < 4 {
            if !eof {
                Ok(ReadOutcome::NeedMoreData)
            } else if n == 0 {
                Ok(ReadOutcome::ClosedClean)
            } else {
                Err(FrameError::TruncatedPrefix)
            }
        } else {
            let size_u32: u32 = (self.buffer[0] as u32) * 0x1000000 + (self.buffer[1] as u32)
                * 0x10000 + (self.buffer[2] as u32) * 0x100 + (self.buffer[3] as u32);
            proof {
                assert(size_u32 as nat == be32(self@));
            }
            if size_u32 >= MAX_MESSAGE_SIZE as u32 {
                Err(FrameError::Oversized)
            } else {
                let size: usize = size_u32 as usize;
                if n >= 4 + size {
                    let mut tail = self.buffer.split_off(4);
                    let rest = tail.split_off(size);
                    self.buffer = rest;
                    proof {
                        assert(tail@ =~= old(self)@.subrange(4, 4 + size as int));
                        assert(self.buffer@ =~= old(self)@.skip(4 + size as int));
                    }
                    Ok(ReadOutcome::Message(tail))
                } else if eof {
                    Err(FrameError::TruncatedPayload)
                } else {
                    Ok(ReadOutcome::NeedMoreData)
                }
            }
        }
    }
}

/// Frame a message for the wire: a 4-byte big-endian length prefix,
/// then the payload, written into the caller's reusable scratch buffer
/// (cleared each call).  A payload at or above [`MAX_MESSAGE_SIZE`] is
/// rejected before a single byte is produced, leaving `out` untouched.
pub fn write_message(out: &mut Vec<u8>, payload: &[u8]) -> (r: Result<(), FrameError>)
    ensures
        payload@.len() < MAX_MESSAGE_SIZE ==> r == Ok::<(), FrameError>(())
            && final(out)@ == frame_bytes(payload@),
        payload@.len() >= MAX_MESSAGE_SIZE ==> r == Err::<(), FrameError>(FrameError::Oversized)
            && final(out)@ == old(out)@,
{
    let len = payload.len();
    if len >= MAX_MESSAGE_SIZE {
        return Err(FrameError::Oversized);
    }
    out.clear();
    out.push(((len / 0x1000000) % 0x100) as u8);
    out.push(((len / 0x10000) % 0x100) as u8);
    out.push(((len / 0x100) % 0x100) as u8);
    out.push((len % 0x100) as u8);
    out.extend_from_slice(payload);
    proof {
        assert(out@ =~= frame_bytes(payload@));
    }
    Ok(())
}

/// Encoding a length below the maximum and reading it back as a prefix
/// returns the same length: the two byte-order conversions invert each
/// other.
pub proof fn lemma_be32_round_trip(n: nat)
    requires
        n < 0x1_0000_0000,
    ensures
        be32(be32_bytes(n)) == n,
{
    let b = be32_bytes(n);
    assert(b[0] as nat == (n / 0x1000000) % 0x100 && b[1] as nat == (n / 0x10000) % 0x100 && b[2]
        as nat == (n / 0x100) % 0x100 && b[3] as nat == n % 0x100);
    assert(((n / 0x1000000) % 0x100) * 0x1000000 + ((n / 0x10000) % 0x100) * 0x10000 + ((n / 0x100)
        % 0x100) * 0x100 + n % 0x100 == n) by (nonlinear_arith)
        requires
            n < 0x1_0000_0000,
    ;
}

/// Round trip: a framed payload below the maximum, followed by any
/// further buffered bytes, reads back as exactly that payload, with the
/// further bytes left in place.  Together with the contracts of
/// [`write_message`] and [`FrameReader::read_lp`] this says that
/// writing a message and reading from the same stream yields it back.
pub proof fn lemma_frame_round_trip(payload: Seq<u8>, rest: Seq<u8>, eof: bool)
    requires
        payload.len() < MAX_MESSAGE_SIZE,
    ensures
        read_step(frame_bytes(payload) + rest, eof) == (ReadStep::Msg { payload, rest }),
{
    let b = frame_bytes(payload) + rest;
    lemma_be32_round_trip(payload.len());
    assert(b[0] == be32_bytes(payload.len())[0] && b[1] == be32_bytes(payload.len())[1] && b[2]
        == be32_bytes(payload.len())[2] && b[3] == be32_bytes(payload.len())[3]);
    assert(be32(b) == payload.len());
    assert(b.subrange(4, 4 + payload.len() as int) =~= payload);
    assert(b.skip(4 + payload.len() as int) =~= rest);
}

/// The read decision is a function of the accumulated bytes and the
/// end-of-stream flag alone, so feeding the stream in any split of
/// chunks leads to the same outcome as feeding it in one piece.
pub proof fn lemma_chunking(base: Seq<u8>, c1: Seq<u8>, c2: Seq<u8>, eof: bool)
    ensures
        base + c1 + c2 == base + (c1 + c2),
        read_step(base + c1 + c2, eof) == read_step(base + (c1 + c2), eof),
{
    assert(base + c1 + c2 =~= base + (c1 + c2));
}

/// Pipelining: two messages framed back-to-back read out in order, the
/// second one's bytes staying buffered while the first is returned, and
/// nothing lost or duplicated at the boundary.
pub proof fn lemma_pipelining(m1: Seq<u8>, m2: Seq<u8>, eof: bool)
    requires
        m1.len() < MAX_MESSAGE_SIZE,
        m2.len() < MAX_MESSAGE_SIZE,
    ensures
        read_step(frame_bytes(m1) + frame_bytes(m2), eof) == (ReadStep::Msg {
            payload: m1,
            rest: frame_bytes(m2),
        }),
        read_step(frame_bytes(m2), eof) == (ReadStep::Msg { payload: m2, rest: Seq::<u8>::empty() }),
{
    lemma_frame_round_trip(m1, frame_bytes(m2), eof);
    lemma_frame_round_trip(m2, Seq::<u8>::empty(), eof);
    assert(frame_bytes(m2) + Seq::<u8>::empty() =~= frame_bytes(m2));
}

/// End of stream is a clean close only at a frame boundary with nothing
/// buffered; mid-prefix or mid-payload it is a protocol violation.
pub proof fn lemma_eof_classification(b: Seq<u8>)
    ensures
        b.len() == 0 ==> read_step(b, true) == ReadStep::Closed,
        0 < b.len() < 4 ==> read_step(b, true) == ReadStep::Fail(FrameError::TruncatedPrefix),
        b.len() >= 4 && be32(b) < MAX_MESSAGE_SIZE && b.len() < 4 + be32(b) ==> read_step(b, true)
            == ReadStep::Fail(FrameError::TruncatedPayload),
{
}

} // verus!
