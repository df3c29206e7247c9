//! The errors of the library, each with the kind it belongs to and the text
//! it is reported with.

use vstd::prelude::*;
use crate::text::{decimal_chars, push_decimal};

verus! {

/// The kinds of failure that a download can meet. Callers decide by the kind
/// whether to give up, to retry or to move on to another peer.
#[derive(Clone, Copy, Debug, PartialEq, Eq, Structural)]
pub enum ErrorKind {
    /// The metafile cannot be read as a torrent.
    MetainfoInvalid,
    /// No tracker answered within the allowed attempts.
    TrackerUnreachable,
    /// A tracker answered with something other than what was asked for.
    TrackerProtocolError,
    /// The handshake with a peer failed.
    HandshakeRejected,
    /// A peer sent something that the wire protocol does not allow.
    PeerProtocolError,
    /// A piece arrived whole but its hash is not the one the metafile lists.
    PieceHashMismatch,
    /// Every peer was tried and the download did not complete.
    NoProgress,
    /// A socket or a file failed.
    IoError,
    /// The download was cancelled from outside.
    Canceled,
}

/// What is done about an error of some kind.
#[derive(Clone, Copy, Debug, PartialEq, Eq, Structural)]
pub enum Recovery {
    /// The download is given up.
    Fatal,
    /// The session is closed and the piece fetched again from the next peer.
    RotatePeer,
    /// The session or the tracker attempt is closed and tried again, a
    /// bounded number of times.
    Retry,
}

impl ErrorKind {
    /// What is done about an error of this kind: an invalid metafile is
    /// fatal, a piece with a wrong hash sends the driver to the next peer,
    /// anything else is tried again.
    pub open spec fn spec_recovery(self) -> Recovery {
        match self {
            ErrorKind::MetainfoInvalid => Recovery::Fatal,
            ErrorKind::PieceHashMismatch => Recovery::RotatePeer,
            _ => Recovery::Retry,
        }
    }

    /// What is done about an error of this kind.
    pub fn recovery(self) -> (r: Recovery)
        ensures
            r == self.spec_recovery(),
    {
        match self {
            ErrorKind::MetainfoInvalid => Recovery::Fatal,
            ErrorKind::PieceHashMismatch => Recovery::RotatePeer,
            _ => Recovery::Retry,
        }
    }

    /// The exit code of a program that ends on an error of this kind, for
    /// the kinds that have one of their own: 1 for an invalid metafile, 2 where
    /// no tracker was reached, 3 where no peer completed the download, 4
    /// for a failure of input or output.
    pub open spec fn spec_exit_code(self) -> Option<u8> {
        match self {
            ErrorKind::MetainfoInvalid => Some(1u8),
            ErrorKind::TrackerUnreachable => Some(2u8),
            ErrorKind::NoProgress => Some(3u8),
            ErrorKind::IoError => Some(4u8),
            _ => None,
        }
    }

    /// The exit code of a program that ends on an error of this kind, for
    /// the kinds that have one of their own.
    pub fn exit_code(self) -> (code: Option<u8>)
        ensures
            code == self.spec_exit_code(),
    {
        match self {
            ErrorKind::MetainfoInvalid => Some(1),
            ErrorKind::TrackerUnreachable => Some(2),
            ErrorKind::NoProgress => Some(3),
            ErrorKind::IoError => Some(4),
            _ => None,
        }
    }
}

/// What went wrong.
#[derive(Clone, Copy, Debug, PartialEq, Eq)]
pub enum Error {
    /// The metafile is not a bencoded torrent description, lacks a required
    /// key or states lengths that contradict each other.
    MetainfoInvalid,
    /// No tracker answered within the allowed attempts.
    TrackerUnreachable,
    /// A tracker datagram is shorter than its fixed part.
    TrackerTruncated,
    /// A tracker response answers another request than the one pending.
    TransactionMismatch,
    /// A tracker response carries another action than the one asked for.
    ActionMismatch,
    /// An announce was asked for before the tracker gave a connection id.
    NotConnected,
    /// An info-hash is not 20 bytes long.
    InfoHashLength,
    /// A peer id is not 20 bytes long.
    PeerIdLength,
    /// A handshake buffer holds fewer than 68 bytes.
    HandshakeTruncated,
    /// A handshake does not announce the protocol `BitTorrent protocol`.
    ProtocolMismatch,
    /// A peer's handshake names another torrent.
    InfoHashMismatch,
    /// A handshake was handed to a session that is not waiting for one.
    NotHandshaking,
    /// A message needs `need` bytes and the buffer holds only `have`.
    Truncated { have: u64, need: u64 },
    /// A message carries a type id that the protocol does not define.
    UnknownType(u8),
    /// A keep-alive has no type id.
    NoTypeId,
    /// A message of a type that carries a payload has none.
    MissingPayload,
    /// A frame announces more bytes than the reader accepts.
    FrameTooLarge,
    /// A block arrived that is not the one asked for.
    UnexpectedBlock,
    /// A piece arrived whole but its hash is not the one the metafile lists.
    PieceHashMismatch,
    /// Every peer was tried and the download did not complete.
    NoProgress,
    /// A socket or a file failed.
    Io,
    /// The download was cancelled from outside.
    Canceled,
}

impl Error {
    /// The kind that this error belongs to.
    pub open spec fn spec_kind(self) -> ErrorKind {
        match self {
            Error::MetainfoInvalid => ErrorKind::MetainfoInvalid,
            Error::TrackerUnreachable => ErrorKind::TrackerUnreachable,
            Error::TrackerTruncated => ErrorKind::TrackerProtocolError,
            Error::TransactionMismatch => ErrorKind::TrackerProtocolError,
            Error::ActionMismatch => ErrorKind::TrackerProtocolError,
            Error::NotConnected => ErrorKind::TrackerProtocolError,
            Error::InfoHashLength => ErrorKind::HandshakeRejected,
            Error::PeerIdLength => ErrorKind::HandshakeRejected,
            Error::HandshakeTruncated => ErrorKind::HandshakeRejected,
            Error::ProtocolMismatch => ErrorKind::HandshakeRejected,
            Error::InfoHashMismatch => ErrorKind::HandshakeRejected,
            Error::NotHandshaking => ErrorKind::HandshakeRejected,
            Error::Truncated { .. } => ErrorKind::PeerProtocolError,
            Error::UnknownType(_) => ErrorKind::PeerProtocolError,
            Error::NoTypeId => ErrorKind::PeerProtocolError,
            Error::MissingPayload => ErrorKind::PeerProtocolError,
            Error::FrameTooLarge => ErrorKind::PeerProtocolError,
            Error::UnexpectedBlock => ErrorKind::PeerProtocolError,
            Error::PieceHashMismatch => ErrorKind::PieceHashMismatch,
            Error::NoProgress => ErrorKind::NoProgress,
            Error::Io => ErrorKind::IoError,
            Error::Canceled => ErrorKind::Canceled,
        }
    }

    /// The kind that this error belongs to.
    pub fn kind(&self) -> (k: ErrorKind)
        ensures
            k == self.spec_kind(),
    {
        match self {
            Error::MetainfoInvalid => ErrorKind::MetainfoInvalid,
            Error::TrackerUnreachable => ErrorKind::TrackerUnreachable,
            Error::TrackerTruncated => ErrorKind::TrackerProtocolError,
            Error::TransactionMismatch => ErrorKind::TrackerProtocolError,
            Error::ActionMismatch => ErrorKind::TrackerProtocolError,
            Error::NotConnected => ErrorKind::TrackerProtocolError,
            Error::InfoHashLength => ErrorKind::HandshakeRejected,
            Error::PeerIdLength => ErrorKind::HandshakeRejected,
            Error::HandshakeTruncated => ErrorKind::HandshakeRejected,
            Error::ProtocolMismatch => ErrorKind::HandshakeRejected,
            Error::InfoHashMismatch => ErrorKind::HandshakeRejected,
            Error::NotHandshaking => ErrorKind::HandshakeRejected,
            Error::Truncated { .. } => ErrorKind::PeerProtocolError,
            Error::UnknownType(_) => ErrorKind::PeerProtocolError,
            Error::NoTypeId => ErrorKind::PeerProtocolError,
            Error::MissingPayload => ErrorKind::PeerProtocolError,
            Error::FrameTooLarge => ErrorKind::PeerProtocolError,
            Error::UnexpectedBlock => ErrorKind::PeerProtocolError,
            Error::PieceHashMismatch => ErrorKind::PieceHashMismatch,
            Error::NoProgress => ErrorKind::NoProgress,
            Error::Io => ErrorKind::IoError,
            Error::Canceled => ErrorKind::Canceled,
        }
    }

    /// The text that `message` gives for this error.
    pub open spec fn spec_message(self) -> Seq<char> {
        match self {
            Error::MetainfoInvalid => "The metafile is not a valid torrent"@,
            Error::TrackerUnreachable => "No tracker answered"@,
            Error::TrackerTruncated => "Tracker response is too short"@,
            Error::TransactionMismatch => "Tracker response answers another transaction"@,
            Error::ActionMismatch => "Tracker response carries another action"@,
            Error::NotConnected => "Tracker has not given a connection id"@,
            Error::InfoHashLength => "Incorrect infohash length"@,
            Error::PeerIdLength => "Incorrect Peer_Id Length"@,
            Error::HandshakeTruncated => "buffer provided to handshake was too short"@,
            Error::ProtocolMismatch => "handshake does not speak the BitTorrent protocol"@,
            Error::InfoHashMismatch => "handshake names another infohash"@,
            Error::NotHandshaking => "session is not waiting for a handshake"@,
            Error::Truncated { have, need } => if need <= 5 {
                "Buffer not long enough to be a message: Length "@ + decimal_chars(have as nat)
                    + ", should be at least 4 bytes"@
            } else {
                "Invalid message length "@ + decimal_chars(have as nat) + " expected "@
                    + decimal_chars(need as nat)
            },
            Error::UnknownType(id) => "Invalid Message Type "@ + decimal_chars(id as nat),
            Error::NoTypeId => "Invalid Message Type KeepAlive"@,
            Error::MissingPayload =>
                "Error you are trying to create a message that needs a payload with no payload"@,
            Error::FrameTooLarge => "Message is longer than the reader accepts"@,
            Error::UnexpectedBlock => "Received a block that was not requested"@,
            Error::PieceHashMismatch => "Piece does not match its hash"@,
            Error::NoProgress => "No peer completed the download"@,
            Error::Io => "Input or output failed"@,
            Error::Canceled => "The download was cancelled"@,
        }
    }

    /// The text to report this error with.
    pub fn message(&self) -> (s: String)
        ensures
            s@ == self.spec_message(),
    {
        match self {
            Error::MetainfoInvalid => "The metafile is not a valid torrent".to_owned(),
            Error::TrackerUnreachable => "No tracker answered".to_owned(),
            Error::TrackerTruncated => "Tracker response is too short".to_owned(),
            Error::TransactionMismatch => "Tracker response answers another transaction".to_owned(),
            Error::ActionMismatch => "Tracker response carries another action".to_owned(),
            Error::NotConnected => "Tracker has not given a connection id".to_owned(),
            Error::InfoHashLength => "Incorrect infohash length".to_owned(),
            Error::PeerIdLength => "Incorrect Peer_Id Length".to_owned(),
            Error::HandshakeTruncated => "buffer provided to handshake was too short".to_owned(),
            Error::ProtocolMismatch => "handshake does not speak the BitTorrent protocol".to_owned(),
            Error::InfoHashMismatch => "handshake names another infohash".to_owned(),
            Error::NotHandshaking => "session is not waiting for a handshake".to_owned(),
            Error::Truncated { have, need } => {
                if *need <= 5 {
                    let mut s = "Buffer not long enough to be a message: Length ".to_owned();
                    push_decimal(&mut s, *have);
                    s.append(", should be at least 4 bytes");
                    s
                } else {
                    let mut s = "Invalid message length ".to_owned();
                    push_decimal(&mut s, *have);
                    s.append(" expected ");
                    push_decimal(&mut s, *need);
                    s
                }
            },
            Error::UnknownType(id) => {
                let mut s = "Invalid Message Type ".to_owned();
                push_decimal(&mut s, *id as u64);
                s
            },
            Error::NoTypeId => "Invalid Message Type KeepAlive".to_owned(),
            Error::MissingPayload =>
                "Error you are trying to create a message that needs a payload with no payload".to_owned(),
            Error::FrameTooLarge => "Message is longer than the reader accepts".to_owned(),
            Error::UnexpectedBlock => "Received a block that was not requested".to_owned(),
            Error::PieceHashMismatch => "Piece does not match its hash".to_owned(),
            Error::NoProgress => "No peer completed the download".to_owned(),
            Error::Io => "Input or output failed".to_owned(),
            Error::Canceled => "The download was cancelled".to_owned(),
        }
    }
}

} // verus!
