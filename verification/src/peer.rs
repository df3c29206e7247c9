//! A session with one peer: the handshake, the choke state and the requests
//! that bring a piece in block by block.
//!
//! The connection belongs to the caller. The session says what to send and
//! takes in what arrived.

use vstd::prelude::*;
use crate::codec::{copy_range, push_all, u32_at};
use crate::endpoint::PeerEndpoint;
use crate::error::Error;
use crate::frame::{first_message, FrameReader};
use crate::handshake::{reading, Handshake};
use crate::message::{frame_at, frame_end, request_for, Message, MessageType, MessageView};
use crate::piece::{block_len, PieceDownload, PieceDownloadView};

verus! {

/// Where a session stands.
#[derive(Clone, Copy, Debug, PartialEq, Eq, Structural)]
pub enum SessionState {
    /// Connected; the handshakes have not been exchanged yet.
    Handshaking,
    /// The peer does not answer requests.
    Choked,
    /// The peer answers requests.
    Unchoked,
    /// The session ended on an error.
    Failed,
    /// The session was closed.
    Closed,
}

/// What the worker of one peer is told to do and what it reports back.
#[derive(Debug)]
pub enum ControlMessage {
    /// Download a piece: its index, the piece length, the number of bytes
    /// downloaded so far and the total length.
    DownloadPiece(u32, u32, u32, u32),
    /// The bytes of a downloaded piece.
    DownloadedPiece(Vec<u8>),
}

impl Clone for ControlMessage {
    /// A message that holds the same as this one.
    fn clone(&self) -> (m: Self)
        ensures
            match (*self, m) {
                (ControlMessage::DownloadPiece(a, b, c, d), ControlMessage::DownloadPiece(e, f, g, h)) =>
                    a == e && b == f && c == g && d == h,
                (ControlMessage::DownloadedPiece(p), ControlMessage::DownloadedPiece(q)) => p@ == q@,
                _ => false,
            },
    {
        match self {
            ControlMessage::DownloadPiece(a, b, c, d) => ControlMessage::DownloadPiece(*a, *b, *c, *d),
            ControlMessage::DownloadedPiece(p) => {
                let mut q: Vec<u8> = Vec::new();
                push_all(&mut q, p.as_slice());
                assert(q@ =~= p@);
                ControlMessage::DownloadedPiece(q)
            },
        }
    }
}

/// How far a session has come, apart from the choke state.
#[derive(Clone, Copy, Debug, PartialEq, Eq, Structural)]
enum Phase {
    Handshaking,
    Active,
    Failed,
    Closed,
}

/// How many seconds a session waits for bytes from its peer unless told
/// otherwise.
pub const DEFAULT_IDLE_DEADLINE: u64 = 120;

/// A session with one peer.
pub struct Peer {
    socket_addr: PeerEndpoint,
    peer_id: String,
    choking: bool,
    phase: Phase,
    reader: FrameReader,
    idle_deadline: u64,
}

/// What a session holds, as plain values.
pub struct PeerView {
    /// The address of the peer.
    pub socket_addr: PeerEndpoint,
    /// The id that the peer gave in its handshake.
    pub peer_id: Seq<char>,
    /// Whether the peer is choking the client.
    pub choking: bool,
    /// Where the session stands.
    pub state: SessionState,
    /// The bytes that arrived and have not been read as messages yet.
    pub pending: Seq<u8>,
    /// The largest length that a message may announce.
    pub limit: u32,
    /// How many seconds the session waits for bytes from the peer.
    pub idle_deadline: u64,
}

/// The message that tells a peer that the client wants to download.
pub open spec fn interested() -> MessageView {
    MessageView { length: 1, kind: MessageType::Interested, payload: None }
}

/// The session after a message from the peer: a choke or an unchoke sets
/// the choke state of a session past its handshake; nothing else changes.
pub open spec fn after_message(s: PeerView, m: MessageView) -> PeerView {
    if !(s.state is Choked || s.state is Unchoked) {
        s
    } else if m.kind is Choke {
        PeerView { choking: true, state: SessionState::Choked, ..s }
    } else if m.kind is Unchoke {
        PeerView { choking: false, state: SessionState::Unchoked, ..s }
    } else {
        s
    }
}

/// Whether a message from the peer is answered with an `Interested`: a
/// keep-alive is, while the peer is choking.
pub open spec fn answers_interested(s: PeerView, m: MessageView) -> bool {
    s.state is Choked && m.kind is KeepAlive
}

impl View for Peer {
    type V = PeerView;

    closed spec fn view(&self) -> PeerView {
        PeerView {
            socket_addr: self.socket_addr,
            peer_id: self.peer_id@,
            choking: self.choking,
            state: match self.phase {
                Phase::Handshaking => SessionState::Handshaking,
                Phase::Active => if self.choking {
                    SessionState::Choked
                } else {
                    SessionState::Unchoked
                },
                Phase::Failed => SessionState::Failed,
                Phase::Closed => SessionState::Closed,
            },
            pending: self.reader.pending(),
            limit: self.reader.limit(),
            idle_deadline: self.idle_deadline,
        }
    }
}

impl Peer {
    /// The session that follows an attempt to connect: one that awaits the
    /// handshake if the connection stands, an error if it does not.
    pub fn create_connection(socket_addr: PeerEndpoint, connected: bool) -> (r: Result<
        Self,
        Error,
    >)
        ensures
            !connected ==> r is Err && r->Err_0 == Error::Io,
            connected ==> r is Ok && r->Ok_0@ == (PeerView {
                socket_addr,
                peer_id: Seq::<char>::empty(),
                choking: true,
                state: SessionState::Handshaking,
                pending: Seq::<u8>::empty(),
                limit: crate::frame::DEFAULT_FRAME_LIMIT,
                idle_deadline: DEFAULT_IDLE_DEADLINE,
            }),
    {
        if !connected {
            return Err(Error::Io);
        }
        Ok(
            Self {
                socket_addr,
                peer_id: String::new(),
                choking: true,
                phase: Phase::Handshaking,
                reader: FrameReader::new(),
                idle_deadline: DEFAULT_IDLE_DEADLINE,
            },
        )
    }

    /// The address of the peer.
    pub fn socket_addr(&self) -> (a: PeerEndpoint)
        ensures
            a == self@.socket_addr,
    {
        self.socket_addr
    }

    /// The id that the peer gave in its handshake.
    pub fn peer_id(&self) -> (id: &String)
        ensures
            id@ == self@.peer_id,
    {
        &self.peer_id
    }

    /// Whether the peer is choking the client.
    pub fn choking(&self) -> (c: bool)
        ensures
            c == self@.choking,
            self@.state is Choked ==> c,
            self@.state is Unchoked ==> !c,
    {
        self.choking
    }

    /// How many seconds the session waits for bytes from the peer.
    pub fn idle_deadline(&self) -> (secs: u64)
        ensures
            secs == self@.idle_deadline,
    {
        self.idle_deadline
    }

    /// Sets how many seconds the session waits for bytes from the peer.
    pub fn set_idle_deadline(&mut self, secs: u64)
        ensures
            final(self)@ == (PeerView { idle_deadline: secs, ..old(self)@ }),
    {
        self.idle_deadline = secs;
    }

    /// Where the session stands.
    pub fn state(&self) -> (s: SessionState)
        ensures
            s == self@.state,
    {
        match self.phase {
            Phase::Handshaking => SessionState::Handshaking,
            Phase::Active => if self.choking {
                SessionState::Choked
            } else {
                SessionState::Unchoked
            },
            Phase::Failed => SessionState::Failed,
            Phase::Closed => SessionState::Closed,
        }
    }

    /// Takes a message from the peer into the state of the session, and
    /// gives the message to answer it with, if any.
    pub fn on_message(&mut self, message: &Message) -> (reply: Option<Message>)
        ensures
            final(self)@ == after_message(old(self)@, message@),
            answers_interested(final(self)@, message@) ==> reply is Some && reply->0@
                == interested(),
            !answers_interested(final(self)@, message@) ==> reply is None,
    {
        match self.phase {
            Phase::Active => {},
            _ => { return None; },
        }
        match message.message_type {
            MessageType::Choke => {
                self.choking = true;
                None
            },
            MessageType::Unchoke => {
                self.choking = false;
                None
            },
            MessageType::KeepAlive => {
                if self.choking {
                    Some(Message::new(1, MessageType::Interested, None))
                } else {
                    None
                }
            },
            _ => None,
        }
    }

    /// Ends the session on an error.
    pub fn fail(&mut self)
        ensures
            final(self)@ == (PeerView { state: SessionState::Failed, ..old(self)@ }),
    {
        self.phase = Phase::Failed;
    }

    /// Closes the session.
    pub fn disconnect(&mut self)
        ensures
            final(self)@ == (PeerView { state: SessionState::Closed, ..old(self)@ }),
    {
        self.phase = Phase::Closed;
    }

    /// Takes in bytes that arrived from the peer.
    pub fn receive(&mut self, bytes: &[u8])
        ensures
            final(self)@ == (PeerView { pending: old(self)@.pending + bytes@, ..old(self)@ }),
    {
        self.reader.push(bytes);
    }
}


/// A message that was read off the stream, and what to answer it with.
#[derive(Debug)]
pub struct Received {
    /// The message from the peer.
    pub message: Message,
    /// The message to send in answer, if any.
    pub reply: Option<Message>,
}

/// What is left of the pending bytes once their first frame is taken.
pub open spec fn after_first_frame(pending: Seq<u8>) -> Seq<u8> {
    pending.subrange(frame_end(pending, 0), pending.len() as int)
}

/// Whether the first pending message announces more than the limit.
pub open spec fn first_too_large(s: PeerView) -> bool {
    s.pending.len() >= 4 && u32_at(s.pending, 0) > s.limit
}

impl Peer {
    /// The handshake to send to the peer, for the torrent `info_hash` and
    /// from the client `peer_id`.
    pub fn handshake_request(info_hash: &[u8], peer_id: String) -> (r: Result<Vec<u8>, Error>)
        ensures
            info_hash@.len() != 20 ==> r == Err::<Vec<u8>, Error>(Error::InfoHashLength),
            info_hash@.len() == 20 && vstd::utf8::encode_utf8(peer_id@).len() != 20 ==> r == Err::<
                Vec<u8>,
                Error,
            >(Error::PeerIdLength),
            info_hash@.len() == 20 && vstd::utf8::encode_utf8(peer_id@).len() == 20 ==> {
                &&& r is Ok
                &&& r->Ok_0@.len() == 68
                &&& r->Ok_0@[0] == 19
                &&& r->Ok_0@.subrange(1, 20) == vstd::utf8::encode_utf8(crate::handshake::PROTOCOL@)
                &&& r->Ok_0@.subrange(20, 28) == crate::handshake::zeros8()
                &&& r->Ok_0@.subrange(28, 48) == info_hash@
                &&& r->Ok_0@.subrange(48, 68) == vstd::utf8::encode_utf8(peer_id@)
            },
    {
        match Handshake::new(info_hash, peer_id) {
            Ok(h) => {
                proof {
                    crate::handshake::lemma_layout(h@);
                }
                Ok(h.to_buffer())
            },
            Err(e) => Err(e),
        }
    }

    /// Takes what the peer sent in answer to the handshake. The first 68
    /// bytes must be a handshake for the torrent `info_hash`; what follows
    /// them is kept to be read as messages. On success the session is past
    /// its handshake, with the peer choking, and the result is the
    /// `Interested` to send. On failure the session has failed.
    pub fn handshake(&mut self, reply: &[u8], info_hash: &[u8]) -> (r: Result<Message, Error>)
        ensures
            !(old(self)@.state is Handshaking) ==> r is Err && r->Err_0 == Error::NotHandshaking
                && final(self)@ == old(self)@,
            old(self)@.state is Handshaking ==> match reading(reply@) {
                Ok(h) => if h.info_hash == info_hash@ {
                    &&& r is Ok
                    &&& r->Ok_0@ == interested()
                    &&& final(self)@ == (PeerView {
                        peer_id: h.peer_id,
                        state: if old(self)@.choking {
                            SessionState::Choked
                        } else {
                            SessionState::Unchoked
                        },
                        pending: old(self)@.pending + reply@.subrange(68, reply@.len() as int),
                        ..old(self)@
                    })
                } else {
                    r is Err && r->Err_0 == Error::InfoHashMismatch && final(self)@ == (PeerView {
                        state: SessionState::Failed,
                        ..old(self)@
                    })
                },
                Err(e) => r is Err && r->Err_0 == e && final(self)@ == (PeerView {
                    state: SessionState::Failed,
                    ..old(self)@
                }),
            },
    {
        match self.phase {
            Phase::Handshaking => {},
            _ => { return Err(Error::NotHandshaking); },
        }
        let handshake = match Handshake::from_buffer_for(reply, info_hash) {
            Ok(h) => h,
            Err(e) => {
                self.phase = Phase::Failed;
                return Err(e);
            },
        };
        self.peer_id = handshake.peer_id;
        self.phase = Phase::Active;
        match copy_range(reply, 68, reply.len()) {
            Some(tail) => { self.reader.push(tail.as_slice()); },
            None => {},
        }
        Ok(Message::new(1, MessageType::Interested, None))
    }

    /// The request to send next for a piece, unless the peer is choking:
    /// a choked client sends no requests.
    pub fn request_piece(&self, download: &mut PieceDownload) -> (r: Option<Message>)
        ensures
            !(self@.state is Unchoked) || old(download)@.complete() ==> r is None
                && final(download)@ == old(download)@,
            self@.state is Unchoked && !old(download)@.complete() ==> {
                &&& r is Some
                &&& r->0@ == request_for(
                    old(download)@.index,
                    old(download)@.data.len() as u32,
                    block_len(old(download)@.size, old(download)@.data.len() as int),
                )
                &&& final(download)@ == (PieceDownloadView { outstanding: true, ..old(download)@ })
            },
    {
        match self.state() {
            SessionState::Unchoked => download.next_request(),
            _ => None,
        }
    }

    /// Reads the next message off the stream, if all of it has arrived, and
    /// takes it into the state of the session. `None` says that more bytes
    /// are needed. A message that cannot be read fails the session.
    pub fn read_message(&mut self) -> (r: Result<Option<Received>, Error>)
        ensures
            first_too_large(old(self)@) ==> r is Err && r->Err_0 == Error::FrameTooLarge
                && final(self)@ == (PeerView { state: SessionState::Failed, ..old(self)@ }),
            !first_too_large(old(self)@) && !frame_at(old(self)@.pending, 0) ==> r is Ok && r->Ok_0
                is None && final(self)@ == old(self)@,
            !first_too_large(old(self)@) && frame_at(old(self)@.pending, 0) ==> match first_message(
                old(self)@.pending,
            ) {
                Ok(m) => {
                    &&& r is Ok
                    &&& r->Ok_0 is Some
                    &&& r->Ok_0->0.message@ == m
                    &&& final(self)@ == after_message(
                        PeerView { pending: after_first_frame(old(self)@.pending), ..old(self)@ },
                        m,
                    )
                    &&& answers_interested(final(self)@, m) ==> r->Ok_0->0.reply is Some
                        && r->Ok_0->0.reply->0@ == interested()
                    &&& !answers_interested(final(self)@, m) ==> r->Ok_0->0.reply is None
                },
                Err(e) => r is Err && r->Err_0 == e && final(self)@ == (PeerView {
                    state: SessionState::Failed,
                    pending: after_first_frame(old(self)@.pending),
                    ..old(self)@
                }),
            },
    {
        match self.reader.next_message() {
            Ok(None) => Ok(None),
            Ok(Some(message)) => {
                let reply = self.on_message(&message);
                Ok(Some(Received { message, reply }))
            },
            Err(e) => {
                self.phase = Phase::Failed;
                Err(e)
            },
        }
    }
}

} // verus!
