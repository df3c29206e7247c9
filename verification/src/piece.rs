//! Bringing in one piece, block by block.
//!
//! A piece is asked for in blocks of 16 KiB, one at a time and in order: the
//! next block is asked for when the one before has arrived.

use vstd::prelude::*;
use crate::codec::{copy_range, push_all, read_u32, u32_at};
use crate::error::Error;
use crate::message::{request_for, Message, MessageType, MessageView, BLOCK_SIZE};

verus! {

/// How many bytes a piece has: the piece length, or what is left of the
/// torrent after the bytes before the piece where that is less.
pub open spec fn piece_size(piece_length: u32, already_downloaded: u64, total_length: u64) -> u32 {
    if already_downloaded >= total_length {
        0
    } else if total_length - already_downloaded < piece_length {
        (total_length - already_downloaded) as u32
    } else {
        piece_length
    }
}

/// How many pieces a torrent of `total_length` bytes has.
pub open spec fn piece_count(piece_length: u32, total_length: u64) -> int {
    (total_length + piece_length - 1) / (piece_length as int)
}

/// The length of the block at `offset` of a piece of `size` bytes: a whole
/// block, or what is left of the piece where that is less.
pub open spec fn block_len(size: u32, offset: int) -> u32 {
    if size - offset < BLOCK_SIZE {
        (size - offset) as u32
    } else {
        BLOCK_SIZE
    }
}

/// The offset of block `k` of a piece.
pub open spec fn block_offset(k: nat) -> int {
    k * BLOCK_SIZE
}

/// The request for block `k` of a piece: its index, the offset of the block
/// and its length.
pub open spec fn block_request(index: u32, size: u32, k: nat) -> MessageView {
    request_for(index, block_offset(k) as u32, block_len(size, block_offset(k)))
}

/// A block as a `Piece` message carries it.
pub struct Block {
    /// The index of the piece.
    pub index: u32,
    /// Where in the piece the block starts.
    pub offset: u32,
    /// The bytes of the block.
    pub data: Seq<u8>,
}

/// What a `Piece` message carries: the index of the piece, the offset of the
/// block and its bytes. Any other message carries no block.
pub open spec fn block_of(m: MessageView) -> Option<Block> {
    if m.kind is Piece && m.payload is Some && m.payload->0.len() >= 8 {
        Some(
            Block {
                index: u32_at(m.payload->0, 0),
                offset: u32_at(m.payload->0, 4),
                data: m.payload->0.skip(8),
            },
        )
    } else {
        None
    }
}

/// The state of the download of one piece.
pub struct PieceDownload {
    index: u32,
    size: u32,
    data: Vec<u8>,
    blocks: Ghost<nat>,
    outstanding: bool,
}

/// What the download of a piece holds, as plain values.
pub struct PieceDownloadView {
    /// The index of the piece.
    pub index: u32,
    /// How many bytes the piece has.
    pub size: u32,
    /// The bytes that have arrived, in order.
    pub data: Seq<u8>,
    /// How many blocks have arrived.
    pub blocks: nat,
    /// Whether a request has been sent and not answered yet.
    pub outstanding: bool,
}

impl PieceDownloadView {
    /// The blocks that arrived are the first blocks of the piece: the bytes
    /// end where the next block starts, or where the piece ends.
    pub open spec fn wf(self) -> bool {
        &&& self.data.len() <= self.size
        &&& self.data.len() == if block_offset(self.blocks) < self.size {
            block_offset(self.blocks)
        } else {
            self.size as int
        }
        &&& self.blocks > 0 ==> block_offset((self.blocks - 1) as nat) < self.size
    }

    /// Whether all the bytes of the piece have arrived.
    pub open spec fn complete(self) -> bool {
        self.data.len() >= self.size
    }

    /// Whether a message carries the block that the outstanding request is
    /// for: block `blocks` of this piece, of the length that was asked for.
    pub open spec fn awaits(self, m: MessageView) -> bool {
        &&& self.outstanding
        &&& !self.complete()
        &&& block_of(m) is Some
        &&& block_of(m)->0.index == self.index
        &&& block_of(m)->0.offset == self.data.len()
        &&& block_of(m)->0.data.len() == block_len(self.size, self.data.len() as int)
    }
}

impl View for PieceDownload {
    type V = PieceDownloadView;

    closed spec fn view(&self) -> PieceDownloadView {
        PieceDownloadView {
            index: self.index,
            size: self.size,
            data: self.data@,
            blocks: self.blocks@,
            outstanding: self.outstanding,
        }
    }
}

/// A download that is complete holds as many bytes as the piece has.
pub proof fn lemma_complete_size(d: PieceDownloadView)
    requires
        d.wf(),
        d.complete(),
    ensures
        d.data.len() == d.size,
{
}

/// While a piece is not complete, the bytes that arrived end where block
/// `blocks` starts: the request that goes out next is the one for that block.
pub proof fn lemma_next_block(d: PieceDownloadView)
    requires
        d.wf(),
        !d.complete(),
    ensures
        d.data.len() == block_offset(d.blocks),
        request_for(d.index, d.data.len() as u32, block_len(d.size, d.data.len() as int))
            == block_request(d.index, d.size, d.blocks),
{
}

/// The blocks arrive in the order of the requests: the block that a download
/// takes after `blocks` others is the one that request `blocks` asked for.
pub proof fn lemma_reply_pairs_with_request(d: PieceDownloadView, m: MessageView)
    requires
        d.wf(),
        d.awaits(m),
    ensures
        request_for(
            block_of(m)->0.index,
            block_of(m)->0.offset,
            block_of(m)->0.data.len() as u32,
        ) == block_request(d.index, d.size, d.blocks),
{
}

/// The sizes of the pieces of a torrent that is downloaded in order: every
/// piece but the last has the piece length, and the last has what is left.
pub proof fn lemma_piece_sizes(piece_length: u32, total_length: u64, i: int)
    requires
        piece_length > 0,
        0 <= i < piece_count(piece_length, total_length),
    ensures
        i * piece_length < total_length,
        i < piece_count(piece_length, total_length) - 1 ==> piece_size(
            piece_length,
            (i * piece_length) as u64,
            total_length,
        ) == piece_length,
        i == piece_count(piece_length, total_length) - 1 ==> piece_size(
            piece_length,
            (i * piece_length) as u64,
            total_length,
        ) == total_length - piece_length * (piece_count(piece_length, total_length) - 1),
{
    let p = piece_length as int;
    let t = total_length as int;
    let n = piece_count(piece_length, total_length);
    assert(n == (t + p - 1) / p);
    assert(n * p <= t + p - 1 && t + p - 1 < n * p + p) by (nonlinear_arith)
        requires
            n == (t + p - 1) / p,
            p > 0,
    ;
    assert((n - 1) * p == n * p - p) by (nonlinear_arith);
    assert(i * p <= (n - 1) * p) by (nonlinear_arith)
        requires
            0 <= i <= n - 1,
            p > 0,
    ;
    if i < n - 1 {
        assert((i + 1) * p <= (n - 1) * p) by (nonlinear_arith)
            requires
                i + 1 <= n - 1,
                p > 0,
        ;
        assert((i + 1) * p == i * p + p) by (nonlinear_arith);
    }
}

impl PieceDownload {
    /// The download of piece `index`, of which nothing has arrived yet. The
    /// piece starts after `already_downloaded` bytes of a torrent of
    /// `total_length` bytes.
    pub fn new(index: u32, piece_length: u32, already_downloaded: u64, total_length: u64) -> (d:
        Self)
        ensures
            d@ == (PieceDownloadView {
                index,
                size: piece_size(piece_length, already_downloaded, total_length),
                data: Seq::<u8>::empty(),
                blocks: 0,
                outstanding: false,
            }),
            d@.wf(),
    {
        let size: u32 = if already_downloaded >= total_length {
            0
        } else if total_length - already_downloaded < piece_length as u64 {
            (total_length - already_downloaded) as u32
        } else {
            piece_length
        };
        Self { index, size, data: Vec::new(), blocks: Ghost(0), outstanding: false }
    }

    /// The index of the piece.
    pub fn index(&self) -> (i: u32)
        ensures
            i == self@.index,
    {
        self.index
    }

    /// How many bytes the piece has.
    pub fn size(&self) -> (n: u32)
        ensures
            n == self@.size,
    {
        self.size
    }

    /// How many bytes have arrived.
    pub fn downloaded(&self) -> (n: usize)
        ensures
            n == self@.data.len(),
    {
        self.data.len()
    }

    /// Whether all the bytes of the piece have arrived.
    pub fn is_complete(&self) -> (c: bool)
        ensures
            c == self@.complete(),
    {
        self.data.len() >= self.size as usize
    }

    /// The request to send next: the one for the first block that has not
    /// arrived, or `None` once the piece is complete. Asking again before
    /// the block has arrived gives the same request.
    pub fn next_request(&mut self) -> (r: Option<Message>)
        ensures
            old(self)@.complete() ==> r is None && final(self)@ == old(self)@,
            !old(self)@.complete() ==> {
                &&& r is Some
                &&& r->0@ == request_for(
                    old(self)@.index,
                    old(self)@.data.len() as u32,
                    block_len(old(self)@.size, old(self)@.data.len() as int),
                )
                &&& final(self)@ == (PieceDownloadView { outstanding: true, ..old(self)@ })
            },
    {
        if self.data.len() >= self.size as usize {
            return None;
        }
        let offset: u32 = self.data.len() as u32;
        let left: u32 = self.size - offset;
        let length: u32 = if left < BLOCK_SIZE {
            left
        } else {
            BLOCK_SIZE
        };
        self.outstanding = true;
        Some(Message::create_piece_request(self.index, offset, length))
    }

    /// Takes a message from the peer. A `Piece` must carry the block that
    /// the outstanding request is for; its bytes are added to the piece, and
    /// the result is `true`. A `Piece` that carries anything else is an
    /// error. A `Choke` withdraws the outstanding request, which is to be sent
    /// again. Any other message changes nothing.
    pub fn on_message(&mut self, message: &Message) -> (r: Result<bool, Error>)
        ensures
            message@.kind is Piece && old(self)@.awaits(message@) ==> {
                &&& r == Ok::<bool, Error>(true)
                &&& final(self)@ == (PieceDownloadView {
                    data: old(self)@.data + block_of(message@)->0.data,
                    blocks: old(self)@.blocks + 1,
                    outstanding: false,
                    ..old(self)@
                })
            },
            message@.kind is Piece && !old(self)@.awaits(message@) ==> r == Err::<bool, Error>(
                Error::UnexpectedBlock,
            ) && final(self)@ == old(self)@,
            message@.kind is Choke ==> r == Ok::<bool, Error>(false) && final(self)@ == (
            PieceDownloadView { outstanding: false, ..old(self)@ }),
            !(message@.kind is Piece) && !(message@.kind is Choke) ==> r == Ok::<bool, Error>(false)
                && final(self)@ == old(self)@,
            old(self)@.wf() ==> final(self)@.wf(),
    {
        match message.message_type {
            MessageType::Piece => {},
            MessageType::Choke => {
                self.outstanding = false;
                return Ok(false);
            },
            _ => { return Ok(false); },
        }
        let payload = match &message.payload {
            Some(p) => p,
            None => { return Err(Error::UnexpectedBlock); },
        };
        let (index, offset) = match (read_u32(payload.as_slice(), 0), read_u32(
            payload.as_slice(),
            4,
        )) {
            (Some(i), Some(o)) => (i, o),
            _ => { return Err(Error::UnexpectedBlock); },
        };
        if !self.outstanding || self.data.len() >= self.size as usize || index != self.index
            || offset as usize != self.data.len() {
            return Err(Error::UnexpectedBlock);
        }
        let left: u32 = self.size - offset;
        let length: u32 = if left < BLOCK_SIZE {
            left
        } else {
            BLOCK_SIZE
        };
        if payload.len() - 8 != length as usize {
            return Err(Error::UnexpectedBlock);
        }
        let block = match copy_range(payload.as_slice(), 8, payload.len()) {
            Some(b) => b,
            None => { return Err(Error::UnexpectedBlock); },
        };
        assert(block@ =~= block_of(message@)->0.data);
        proof {
            if old(self)@.wf() {
                let k = self.blocks@;
                assert(block_offset(k + 1) == block_offset(k) + BLOCK_SIZE) by (nonlinear_arith);
            }
        }
        push_all(&mut self.data, block.as_slice());
        self.blocks = Ghost((self.blocks@ + 1) as nat);
        self.outstanding = false;
        Ok(true)
    }

    /// The bytes that have arrived. Of a complete download they are the
    /// piece, as many as the piece has.
    pub fn into_bytes(self) -> (bytes: Vec<u8>)
        ensures
            bytes@ == self@.data,
            self@.wf() && self@.complete() ==> bytes@.len() == self@.size,
    {
        self.data
    }
}

} // verus!
