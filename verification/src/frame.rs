//! Reading messages off a stream.
//!
//! A peer may deliver several messages in one read, or one message in
//! several. The reader keeps what has arrived and hands out one message at a
//! time, as soon as all of its bytes are there.

use vstd::prelude::*;
use crate::codec::{push_all, read_u32, u32_at};
use crate::error::Error;
use crate::message::{decoding, frame_at, frame_end, Message};

verus! {

/// The largest length that a reader accepts unless told otherwise: 1 MiB.
pub const DEFAULT_FRAME_LIMIT: u32 = 0x10_0000;

/// The bytes that have arrived and not yet been handed out, and the largest
/// length that a message may announce.
pub struct FrameReader {
    pending: Vec<u8>,
    limit: u32,
}

/// What the first frame of `b` decodes to.
pub open spec fn first_message(b: Seq<u8>) -> Result<crate::message::MessageView, Error> {
    decoding(b.subrange(0, frame_end(b, 0)))
}

impl FrameReader {
    /// The bytes that have arrived and not yet been handed out.
    pub closed spec fn pending(&self) -> Seq<u8> {
        self.pending@
    }

    /// The largest length that a message may announce.
    pub closed spec fn limit(&self) -> u32 {
        self.limit
    }

    /// Whether the next message announces more than the reader accepts.
    pub open spec fn too_large(&self) -> bool {
        self.pending().len() >= 4 && u32_at(self.pending(), 0) > self.limit()
    }

    /// A reader with nothing pending and the default limit.
    pub fn new() -> (r: Self)
        ensures
            r.pending() == Seq::<u8>::empty(),
            r.limit() == DEFAULT_FRAME_LIMIT,
    {
        Self { pending: Vec::new(), limit: DEFAULT_FRAME_LIMIT }
    }

    /// A reader with nothing pending that accepts lengths up to `limit`.
    pub fn with_limit(limit: u32) -> (r: Self)
        ensures
            r.pending() == Seq::<u8>::empty(),
            r.limit() == limit,
    {
        Self { pending: Vec::new(), limit }
    }

    /// How many bytes are pending.
    pub fn buffered(&self) -> (n: usize)
        ensures
            n == self.pending().len(),
    {
        self.pending.len()
    }

    /// Takes in bytes that have arrived.
    pub fn push(&mut self, bytes: &[u8])
        ensures
            final(self).pending() == old(self).pending() + bytes@,
            final(self).limit() == old(self).limit(),
    {
        push_all(&mut self.pending, bytes);
    }

    /// Hands out the next frame if all of it has arrived, and `None` if more
    /// bytes are needed. A frame that announces more than the limit is an
    /// error, and nothing is taken.
    pub fn next_frame(&mut self) -> (r: Result<Option<Vec<u8>>, Error>)
        ensures
            final(self).limit() == old(self).limit(),
            old(self).too_large() ==> r == Err::<Option<Vec<u8>>, Error>(Error::FrameTooLarge),
            !old(self).too_large() && frame_at(old(self).pending(), 0) ==> r is Ok && r->Ok_0 is Some,
            !old(self).too_large() && !frame_at(old(self).pending(), 0) ==> r is Ok && r->Ok_0 is None,
            match r {
                Ok(Some(frame)) => {
                    &&& frame@ == old(self).pending().subrange(0, frame_end(old(self).pending(), 0))
                    &&& final(self).pending() == old(self).pending().subrange(
                        frame_end(old(self).pending(), 0),
                        old(self).pending().len() as int,
                    )
                },
                _ => final(self).pending() == old(self).pending(),
            },
    {
        let have: u64 = self.pending.len() as u64;
        let length = match read_u32(self.pending.as_slice(), 0) {
            Some(n) => n,
            None => { return Ok(None); },
        };
        if length > self.limit {
            return Err(Error::FrameTooLarge);
        }
        let end: u64 = 4 + length as u64;
        if have < end {
            return Ok(None);
        }
        let mut frame = self.pending.split_off(end as usize);
        core::mem::swap(&mut self.pending, &mut frame);
        Ok(Some(frame))
    }

    /// Hands out the next message if all of it has arrived, and `None` if
    /// more bytes are needed. A frame that cannot be decoded is taken off the
    /// stream and its error returned.
    pub fn next_message(&mut self) -> (r: Result<Option<Message>, Error>)
        ensures
            final(self).limit() == old(self).limit(),
            old(self).too_large() ==> r == Err::<Option<Message>, Error>(Error::FrameTooLarge),
            !old(self).too_large() && !frame_at(old(self).pending(), 0) ==> r is Ok && r->Ok_0 is None,
            !old(self).too_large() && frame_at(old(self).pending(), 0) ==> match first_message(
                old(self).pending(),
            ) {
                Ok(m) => r is Ok && r->Ok_0 is Some && r->Ok_0->0@ == m,
                Err(e) => r == Err::<Option<Message>, Error>(e),
            },
            old(self).too_large() || !frame_at(old(self).pending(), 0) ==> final(self).pending()
                == old(self).pending(),
            !old(self).too_large() && frame_at(old(self).pending(), 0) ==> final(self).pending()
                == old(self).pending().subrange(
                frame_end(old(self).pending(), 0),
                old(self).pending().len() as int,
            ),
    {
        match self.next_frame() {
            Err(e) => Err(e),
            Ok(None) => Ok(None),
            Ok(Some(frame)) => match Message::decode(frame.as_slice()) {
                Ok(m) => Ok(Some(m)),
                Err(e) => Err(e),
            },
        }
    }
}

} // verus!
