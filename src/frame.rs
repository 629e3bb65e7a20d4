//! Length-prefixed framing of encoded messages on a byte stream.
//!
//! A frame is the payload's length as eight little-endian bytes, then the
//! payload. Payloads longer than `MAX_FRAME_LEN` are refused when a frame is
//! built and when a header announcing one is read, and a frame is handed out
//! only once all of its bytes have arrived, however the stream split them.

use vstd::bytes::{
    lemma_auto_spec_u64_to_from_le_bytes, spec_u64_from_le_bytes, spec_u64_to_le_bytes,
    u64_from_le_bytes, u64_to_le_bytes,
};
use vstd::prelude::*;
use vstd::slice::{slice_subrange, slice_to_vec};

use crate::message::ProtocolError;

verus! {

/// The largest payload, in bytes, that one frame may carry.
pub const MAX_FRAME_LEN: usize = 1048576;

/// Length of a frame's header.
pub const HEADER_LEN: usize = 8;

/// The frame that carries `payload`.
pub open spec fn frame_bytes(payload: Seq<u8>) -> Seq<u8> {
    spec_u64_to_le_bytes(payload.len() as u64) + payload
}

/// What the front of a stream holds.
pub enum FrameSplit {
    /// Not yet a whole frame: more bytes are needed.
    Incomplete,
    /// The header announces a payload over the limit.
    TooLarge,
    /// A whole frame's payload, and the bytes after it.
    Complete(Seq<u8>, Seq<u8>),
}

/// Splits the first frame off the bytes received so far.
pub open spec fn split_frame(b: Seq<u8>) -> FrameSplit {
    if b.len() < HEADER_LEN {
        FrameSplit::Incomplete
    } else {
        let n = spec_u64_from_le_bytes(b.subrange(0, 8)) as int;
        if n > MAX_FRAME_LEN {
            FrameSplit::TooLarge
        } else if b.len() - 8 < n {
            FrameSplit::Incomplete
        } else {
            FrameSplit::Complete(b.subrange(8, 8 + n), b.subrange(8 + n, b.len() as int))
        }
    }
}

/// Wraps `payload` in a frame; `FrameTooLarge` when it exceeds the limit.
pub fn frame(payload: &[u8]) -> (r: Result<Vec<u8>, ProtocolError>)
    ensures
        payload@.len() > MAX_FRAME_LEN ==> r == Err::<Vec<u8>, ProtocolError>(
            ProtocolError::FrameTooLarge,
        ),
        payload@.len() <= MAX_FRAME_LEN ==> (r matches Ok(f) && f@ == frame_bytes(payload@)),
{
    if payload.len() > MAX_FRAME_LEN {
        return Err(ProtocolError::FrameTooLarge);
    }
    let mut out = u64_to_le_bytes(payload.len() as u64);
    let mut body = slice_to_vec(payload);
    out.append(&mut body);
    Ok(out)
}

/// The bytes of a stream received so far and not yet handed out as frames.
pub struct FrameBuffer {
    buf: Vec<u8>,
}

impl View for FrameBuffer {
    type V = Seq<u8>;

    closed spec fn view(&self) -> Seq<u8> {
        self.buf@
    }
}

impl FrameBuffer {
    /// An empty buffer.
    pub fn new() -> (r: FrameBuffer)
        ensures
            r@ == Seq::<u8>::empty(),
    {
        FrameBuffer { buf: Vec::new() }
    }

    /// Number of bytes held.
    pub fn len(&self) -> (r: usize)
        ensures
            r == self@.len(),
    {
        self.buf.len()
    }

    /// Appends bytes just read from the stream.
    pub fn feed(&mut self, chunk: &[u8])
        ensures
            final(self)@ == old(self)@ + chunk@,
    {
        let mut more = slice_to_vec(chunk);
        self.buf.append(&mut more);
    }

    /// Takes the first frame's payload off the buffer once it is whole.
    /// `Ok(None)` leaves the buffer as it was and asks for more bytes;
    /// `FrameTooLarge` means the stream cannot be read further.
    pub fn next_frame(&mut self) -> (r: Result<Option<Vec<u8>>, ProtocolError>)
        ensures
            match split_frame(old(self)@) {
                FrameSplit::Incomplete => r matches Ok(None) && final(self)@ == old(self)@,
                FrameSplit::TooLarge => r == Err::<Option<Vec<u8>>, ProtocolError>(
                    ProtocolError::FrameTooLarge,
                ) && final(self)@ == old(self)@,
                FrameSplit::Complete(payload, rest) => r matches Ok(Some(p)) && p@ == payload
                    && final(self)@ == rest,
            },
    {
        if self.buf.len() < HEADER_LEN {
            return Ok(None);
        }
        let n = u64_from_le_bytes(slice_subrange(self.buf.as_slice(), 0, HEADER_LEN));
        if n > MAX_FRAME_LEN as u64 {
            return Err(ProtocolError::FrameTooLarge);
        }
        let n = n as usize;
        if self.buf.len() - HEADER_LEN < n {
            return Ok(None);
        }
        let mut rest = self.buf.split_off(HEADER_LEN + n);
        std::mem::swap(&mut self.buf, &mut rest);
        let payload = rest.split_off(HEADER_LEN);
        Ok(Some(payload))
    }
}

/// A frame, followed by anything, splits back into its payload and what follows.
pub proof fn lemma_frame_round_trip(payload: Seq<u8>, rest: Seq<u8>)
    requires
        payload.len() <= MAX_FRAME_LEN,
    ensures
        split_frame(frame_bytes(payload) + rest) == FrameSplit::Complete(payload, rest),
{
    lemma_auto_spec_u64_to_from_le_bytes();
    let b = frame_bytes(payload) + rest;
    assert(b.subrange(0, 8) =~= spec_u64_to_le_bytes(payload.len() as u64));
    assert(b.subrange(8, 8 + payload.len() as int) =~= payload);
    assert(b.subrange(8 + payload.len() as int, b.len() as int) =~= rest);
}

/// Any proper prefix of a frame is incomplete: nothing is handed out before
/// the whole frame has arrived, so a payload is never cut short.
pub proof fn lemma_partial_frame_waits(payload: Seq<u8>, k: int)
    requires
        payload.len() <= MAX_FRAME_LEN,
        0 <= k < frame_bytes(payload).len(),
    ensures
        split_frame(frame_bytes(payload).subrange(0, k)) == FrameSplit::Incomplete,
{
    lemma_auto_spec_u64_to_from_le_bytes();
    let b = frame_bytes(payload).subrange(0, k);
    if k >= 8 {
        assert(b.subrange(0, 8) =~= spec_u64_to_le_bytes(payload.len() as u64));
    }
}

} // verus!
