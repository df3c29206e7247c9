//! The driver of a download: which piece is fetched next and from which
//! peer, and what becomes of a piece that arrived.
//!
//! Pieces are fetched in the order of their indices from one peer at a time.
//! A piece whose hash is right is handed on to be written; one whose hash is
//! wrong costs the peer its turn, and the piece is fetched again from the
//! next. When no peer is left the download has failed.

use vstd::prelude::*;
use crate::endpoint::PeerEndpoint;
use crate::error::Error;
use crate::piece::{lemma_piece_sizes, piece_size, PieceDownload, PieceDownloadView};
use crate::torrent::{piece_matches, total_length, valid_info, Torrent};

verus! {

/// The state of a download.
pub struct Download {
    torrent: Torrent,
    total_length: u64,
    committed: u32,
    peers: Vec<PeerEndpoint>,
    peer: usize,
}

/// What a download holds, as plain values.
pub struct DownloadView {
    /// The torrent that is downloaded.
    pub torrent: Torrent,
    /// The total length of the content.
    pub total_length: u64,
    /// How many pieces have been handed on to be written: the pieces with
    /// the indices below this number.
    pub committed: nat,
    /// How many bytes those pieces hold together.
    pub downloaded: u64,
    /// The peers, in the order in which they are tried.
    pub peers: Seq<PeerEndpoint>,
    /// How many peers have had their turn; the peer at this index is the
    /// current one.
    pub peer: nat,
}

impl DownloadView {
    /// The length of a piece.
    pub open spec fn piece_length(self) -> u32 {
        self.torrent.info.piece_length as u32
    }

    /// How many pieces the torrent has.
    pub open spec fn pieces(self) -> nat {
        self.torrent.info.pieces@.len() / 20
    }

    /// The pieces that were handed on are the first pieces of a torrent whose
    /// description is valid, and they hold the bytes that come before the
    /// next piece.
    pub open spec fn wf(self) -> bool {
        &&& valid_info(self.torrent.info@)
        &&& total_length(self.torrent.info@) == Some(self.total_length)
        &&& self.committed <= self.pieces()
        &&& self.downloaded == if self.committed == self.pieces() {
            self.total_length as int
        } else {
            self.committed * self.piece_length()
        }
        &&& self.peer <= self.peers.len()
    }

    /// Whether every piece has been handed on.
    pub open spec fn finished(self) -> bool {
        self.committed >= self.pieces()
    }

    /// Whether every peer has had its turn.
    pub open spec fn exhausted(self) -> bool {
        self.peer >= self.peers.len()
    }

    /// How many bytes the next piece has.
    pub open spec fn next_size(self) -> u32 {
        piece_size(self.piece_length(), self.downloaded, self.total_length)
    }

    /// Whether `piece` is the next piece: it has the size and the hash of
    /// the piece at index `committed`.
    pub open spec fn accepts(self, piece: Seq<u8>) -> bool {
        &&& self.committed <= u32::MAX
        &&& piece.len() == self.next_size()
        &&& piece_matches(self.torrent.info.pieces@, piece, self.committed as u32)
    }
}

impl View for Download {
    type V = DownloadView;

    closed spec fn view(&self) -> DownloadView {
        DownloadView {
            torrent: self.torrent,
            total_length: self.total_length,
            committed: self.committed as nat,
            downloaded: if self.committed as nat == self.torrent.info.pieces@.len() / 20 {
                self.total_length
            } else {
                (self.committed * (self.torrent.info.piece_length as u32)) as u64
            },
            peers: self.peers@,
            peer: self.peer as nat,
        }
    }
}

/// The size of the piece that a download fetches next: the piece length
/// for every piece but the last, and for the last what the pieces before it
/// leave of the total length.
pub proof fn lemma_next_size(d: DownloadView)
    requires
        d.wf(),
        !d.finished(),
    ensures
        d.committed + 1 < d.pieces() ==> d.next_size() == d.piece_length(),
        d.committed + 1 == d.pieces() ==> d.next_size() == d.total_length - d.piece_length() * (
        d.pieces() - 1),
        d.next_size() > 0,
        d.downloaded + d.next_size() == if d.committed + 1 == d.pieces() {
            d.total_length as int
        } else {
            (d.committed + 1) * d.piece_length()
        },
{
    lemma_piece_sizes(d.piece_length(), d.total_length, d.committed as int);
    let p = d.piece_length() as int;
    let c = d.committed as int;
    assert((c + 1) * p == c * p + p) by (nonlinear_arith);
}

impl Download {
    #[verifier::type_invariant]
    spec fn well_formed(self) -> bool {
        self@.wf()
    }

    /// A download of `torrent` from `peers`, of which nothing has been
    /// fetched yet. The description of the torrent must be valid.
    pub fn new(torrent: Torrent, peers: Vec<PeerEndpoint>) -> (r: Result<Self, Error>)
        ensures
            !valid_info(torrent.info@) ==> r is Err && r->Err_0 == Error::MetainfoInvalid,
            valid_info(torrent.info@) ==> r is Ok && r->Ok_0@.wf() && r->Ok_0@ == (DownloadView {
                torrent,
                total_length: total_length(torrent.info@)->0,
                committed: 0,
                downloaded: 0,
                peers: peers@,
                peer: 0,
            }),
    {
        match torrent.validate() {
            Ok(()) => {},
            Err(e) => { return Err(e); },
        }
        let total_length = match torrent.get_total_length() {
            Ok(n) => n,
            Err(e) => { return Err(e); },
        };
        proof {
            let p = torrent.info.piece_length as int;
            let t = total_length as int;
            if torrent.info.pieces@.len() / 20 == 0 {
                assert((t + p - 1) / p == 0 ==> t == 0) by (nonlinear_arith)
                    requires
                        p > 0,
                        t >= 0,
                ;
            }
        }
        Ok(Self { torrent, total_length, committed: 0, peers, peer: 0 })
    }

    /// The torrent that is downloaded.
    pub fn torrent(&self) -> (t: &Torrent)
        ensures
            *t == self@.torrent,
    {
        &self.torrent
    }

    /// How many pieces have been handed on to be written.
    pub fn committed(&self) -> (n: u32)
        ensures
            n == self@.committed,
            self@.wf(),
    {
        proof {
            use_type_invariant(self);
        }
        self.committed
    }

    /// How many bytes have been handed on to be written.
    pub fn downloaded(&self) -> (n: u64)
        ensures
            n == self@.downloaded,
    {
        proof {
            use_type_invariant(self);
            if !self@.finished() {
                lemma_next_size(self@);
            }
        }
        if self.is_finished() {
            self.total_length
        } else {
            self.committed as u64 * self.torrent.info.piece_length
        }
    }

    /// Whether every piece has been handed on.
    pub fn is_finished(&self) -> (done: bool)
        ensures
            done == self@.finished(),
    {
        self.committed as usize >= self.torrent.info.pieces.len() / 20
    }

    /// The peer to fetch from, or `None` when every peer has had its turn.
    pub fn current_peer(&self) -> (p: Option<PeerEndpoint>)
        ensures
            self@.exhausted() ==> p is None,
            !self@.exhausted() ==> p == Some(self@.peers[self@.peer as int]),
    {
        if self.peer < self.peers.len() {
            Some(self.peers[self.peer])
        } else {
            None
        }
    }

    /// The piece to fetch next, with nothing of it fetched yet, or `None`
    /// when every piece has been handed on.
    pub fn next_piece(&self) -> (r: Option<PieceDownload>)
        ensures
            self@.wf(),
            self@.finished() ==> r is None,
            !self@.finished() ==> r is Some && r->0@.wf() && r->0@ == (PieceDownloadView {
                index: self@.committed as u32,
                size: self@.next_size(),
                data: Seq::<u8>::empty(),
                blocks: 0,
                outstanding: false,
            }),
            !self@.finished() && self@.committed + 1 < self@.pieces() ==> r->0@.size
                == self@.piece_length(),
            !self@.finished() && self@.committed + 1 == self@.pieces() ==> r->0@.size
                == self@.total_length - self@.piece_length() * (self@.pieces() - 1),
    {
        proof {
            use_type_invariant(self);
            if !self@.finished() {
                lemma_next_size(self@);
            }
        }
        if self.is_finished() {
            return None;
        }
        Some(
            PieceDownload::new(
                self.committed,
                self.torrent.info.piece_length as u32,
                self.downloaded(),
                self.total_length,
            ),
        )
    }

    /// Takes a piece that the current peer delivered.
    ///
    /// A piece with the size and the hash of the next piece is handed on:
    /// the result is its index, and the caller writes it. Any other piece
    /// costs the peer its turn: the result is `PieceHashMismatch` where
    /// another peer is left to fetch the piece from, and `NoProgress` where
    /// none is. Nothing is taken once every piece has been handed on or every
    /// peer has had its turn.
    pub fn commit(&mut self, piece: &[u8]) -> (r: Result<u32, Error>)
        ensures
            old(self)@.wf(),
            final(self)@.wf(),
            old(self)@.finished() ==> r == Err::<u32, Error>(Error::UnexpectedBlock)
                && final(self)@ == old(self)@,
            !old(self)@.finished() && old(self)@.exhausted() ==> r == Err::<u32, Error>(
                Error::NoProgress,
            ) && final(self)@ == old(self)@,
            !old(self)@.finished() && !old(self)@.exhausted() && old(self)@.accepts(piece@) ==> {
                &&& r == Ok::<u32, Error>(old(self)@.committed as u32)
                &&& final(self)@ == (DownloadView {
                    committed: old(self)@.committed + 1,
                    downloaded: (old(self)@.downloaded + piece@.len()) as u64,
                    ..old(self)@
                })
            },
            !old(self)@.finished() && !old(self)@.exhausted() && !old(self)@.accepts(piece@) ==> {
                &&& final(self)@ == (DownloadView { peer: old(self)@.peer + 1, ..old(self)@ })
                &&& r == Err::<u32, Error>(
                    if final(self)@.exhausted() {
                        Error::NoProgress
                    } else {
                        Error::PieceHashMismatch
                    },
                )
            },
    {
        proof {
            use_type_invariant(&*self);
        }
        if self.is_finished() {
            return Err(Error::UnexpectedBlock);
        }
        if self.peer >= self.peers.len() {
            return Err(Error::NoProgress);
        }
        proof {
            lemma_next_size(self@);
        }
        let expected = match self.next_piece() {
            Some(p) => p.size(),
            None => { return Err(Error::UnexpectedBlock); },
        };
        if piece.len() == expected as usize && self.torrent.check_piece(piece, self.committed) {
            let index = self.committed;
            self.committed = self.committed + 1;
            Ok(index)
        } else {
            self.peer = self.peer + 1;
            if self.peer >= self.peers.len() {
                Err(Error::NoProgress)
            } else {
                Err(Error::PieceHashMismatch)
            }
        }
    }

    /// Records that the session with the current peer failed: the peer
    /// loses its turn, and the piece is fetched again from the next. The
    /// result is `NoProgress` where no peer is left.
    pub fn peer_failed(&mut self) -> (r: Result<(), Error>)
        ensures
            final(self)@.wf(),
            old(self)@.exhausted() ==> final(self)@ == old(self)@,
            !old(self)@.exhausted() ==> final(self)@ == (DownloadView {
                peer: old(self)@.peer + 1,
                ..old(self)@
            }),
            final(self)@.exhausted() ==> r == Err::<(), Error>(Error::NoProgress),
            !final(self)@.exhausted() ==> r == Ok::<(), Error>(()),
    {
        proof {
            use_type_invariant(&*self);
        }
        if self.peer < self.peers.len() {
            self.peer = self.peer + 1;
        }
        if self.peer >= self.peers.len() {
            Err(Error::NoProgress)
        } else {
            Ok(())
        }
    }
}

} // verus!
