//! The handshake that opens a peer connection: 68 bytes that name the
//! protocol, the torrent and the sender.

use vstd::prelude::*;
use vstd::utf8::{encode_utf8, is_ascii_chars, is_ascii_chars_encode_utf8};
use crate::codec::{copy_range, push_all, same_bytes};
use crate::error::Error;
use crate::text::push_char;

verus! {

/// The name by which the protocol is announced.
pub const PROTOCOL: &'static str = "BitTorrent protocol";

/// The length of a handshake on the wire.
pub const HANDSHAKE_LEN: usize = 68;

/// The handshake message.
#[derive(Debug)]
pub struct Handshake {
    /// The length of the protocol name: 19.
    pub p_str_len: u8,
    /// The protocol name: `BitTorrent protocol`.
    pub p_str: String,
    /// Eight bytes reserved for extensions, all zero.
    pub reserved: [u8; 8],
    /// The info-hash of the torrent.
    pub info_hash: Vec<u8>,
    /// The id of the sender.
    pub peer_id: String,
}

/// What a handshake holds, as plain values.
pub struct HandshakeView {
    pub p_str_len: u8,
    pub p_str: Seq<char>,
    pub reserved: Seq<u8>,
    pub info_hash: Seq<u8>,
    pub peer_id: Seq<char>,
}

impl View for Handshake {
    type V = HandshakeView;

    open spec fn view(&self) -> HandshakeView {
        HandshakeView {
            p_str_len: self.p_str_len,
            p_str: self.p_str@,
            reserved: self.reserved@,
            info_hash: self.info_hash@,
            peer_id: self.peer_id@,
        }
    }
}

/// Eight zero bytes.
pub open spec fn zeros8() -> Seq<u8> {
    seq![0u8, 0u8, 0u8, 0u8, 0u8, 0u8, 0u8, 0u8]
}

/// The characters that stand for the given bytes, each byte taken as the
/// code point of its character.
pub open spec fn chars_of(bytes: Seq<u8>) -> Seq<char> {
    Seq::new(bytes.len(), |i: int| bytes[i] as char)
}

/// A handshake in the form in which it may be sent: it announces the
/// protocol, its reserved bytes are zero, and its info-hash and its peer id
/// take 20 bytes each.
pub open spec fn sendable(h: HandshakeView) -> bool {
    &&& h.p_str_len == 19
    &&& h.p_str == PROTOCOL@
    &&& h.reserved == zeros8()
    &&& h.info_hash.len() == 20
    &&& encode_utf8(h.peer_id).len() == 20
}

/// The bytes of a handshake on the wire: the length of the protocol name, the
/// name, the reserved bytes, the info-hash and the peer id.
pub open spec fn layout(h: HandshakeView) -> Seq<u8> {
    seq![h.p_str_len] + encode_utf8(h.p_str) + h.reserved + h.info_hash + encode_utf8(h.peer_id)
}

/// The handshake at the start of a buffer, or why there is none. The reserved bytes
/// are not looked at, and the result has them zero.
pub open spec fn reading(b: Seq<u8>) -> Result<HandshakeView, Error> {
    if b.len() < 68 {
        Err(Error::HandshakeTruncated)
    } else if b[0] != 19 || b.subrange(1, 20) != encode_utf8(PROTOCOL@) {
        Err(Error::ProtocolMismatch)
    } else {
        Ok(
            HandshakeView {
                p_str_len: 19,
                p_str: PROTOCOL@,
                reserved: zeros8(),
                info_hash: b.subrange(28, 48),
                peer_id: chars_of(b.subrange(48, 68)),
            },
        )
    }
}

/// The protocol name is 19 ASCII characters, so it takes 19 bytes.
pub proof fn lemma_protocol_name()
    ensures
        PROTOCOL@.len() == 19,
        is_ascii_chars(PROTOCOL@),
        encode_utf8(PROTOCOL@).len() == 19,
        encode_utf8(PROTOCOL@) == Seq::new(19, |i: int| PROTOCOL@[i] as u8),
{
    reveal_strlit("BitTorrent protocol");
    assert(is_ascii_chars(PROTOCOL@)) by {
        assert forall|i: int| 0 <= i < PROTOCOL@.len() implies 0 <= (#[trigger] PROTOCOL@[i]) as nat
            <= 127 by {}
    }
    is_ascii_chars_encode_utf8(PROTOCOL@);
    assert(encode_utf8(PROTOCOL@) =~= Seq::new(19, |i: int| PROTOCOL@[i] as u8));
}

/// The layout of a handshake that may be sent: 68 bytes; the first is 19; the
/// protocol name follows; then eight zero bytes; bytes 28 to 47 are the
/// info-hash and bytes 48 to 67 the peer id.
pub proof fn lemma_layout(h: HandshakeView)
    requires
        sendable(h),
    ensures
        layout(h).len() == 68,
        layout(h)[0] == 19,
        layout(h).subrange(1, 20) == encode_utf8(PROTOCOL@),
        layout(h).subrange(20, 28) == zeros8(),
        layout(h).subrange(28, 48) == h.info_hash,
        layout(h).subrange(48, 68) == encode_utf8(h.peer_id),
{
    lemma_protocol_name();
    let b = layout(h);
    assert(b.subrange(1, 20) =~= encode_utf8(PROTOCOL@));
    assert(b.subrange(20, 28) =~= zeros8());
    assert(b.subrange(28, 48) =~= h.info_hash);
    assert(b.subrange(48, 68) =~= encode_utf8(h.peer_id));
}

/// Reading what a handshake is sent as gives the handshake back, where its
/// peer id is made of ASCII characters.
pub proof fn lemma_read_sent(h: HandshakeView)
    requires
        sendable(h),
        is_ascii_chars(h.peer_id),
    ensures
        reading(layout(h)) == Ok::<HandshakeView, Error>(h),
{
    lemma_layout(h);
    is_ascii_chars_encode_utf8(h.peer_id);
    let id = encode_utf8(h.peer_id);
    assert(chars_of(id) =~= h.peer_id) by {
        assert forall|i: int| 0 <= i < h.peer_id.len() implies (#[trigger] id[i]) as char
            == h.peer_id[i] by {
            assert(0 <= h.peer_id[i] as nat <= 127);
        }
    }
}

/// Sending what was read gives the first 68 bytes of the buffer back, where
/// its reserved bytes are zero and the bytes of its peer id are ASCII.
pub proof fn lemma_send_read(b: Seq<u8>)
    requires
        reading(b) is Ok,
        b.subrange(20, 28) == zeros8(),
        forall|i: int| 48 <= i < 68 ==> b[i] < 128,
    ensures
        sendable(reading(b)->Ok_0),
        layout(reading(b)->Ok_0) == b.subrange(0, 68),
{
    let h = reading(b)->Ok_0;
    lemma_protocol_name();
    let id = b.subrange(48, 68);
    assert(is_ascii_chars(h.peer_id)) by {
        assert forall|i: int| 0 <= i < h.peer_id.len() implies 0 <= (#[trigger] h.peer_id[i]) as nat
            <= 127 by {
            assert(h.peer_id[i] == id[i] as char);
            assert(id[i] == b[48 + i]);
        }
    }
    is_ascii_chars_encode_utf8(h.peer_id);
    assert(encode_utf8(h.peer_id) =~= id) by {
        assert forall|i: int| 0 <= i < 20 implies (#[trigger] h.peer_id[i]) as u8 == id[i] by {
            assert(h.peer_id[i] == id[i] as char);
            assert(id[i] == b[48 + i]);
        }
    }
    assert(layout(h) =~= b.subrange(0, 68)) by {
        assert(b.subrange(0, 68) =~= seq![b[0]] + b.subrange(1, 20) + b.subrange(20, 28)
            + b.subrange(28, 48) + b.subrange(48, 68));
    }
}

impl Handshake {
    /// The handshake for the torrent `info_hash`, sent by `peer_id`. Both
    /// must be 20 bytes long.
    pub fn new(info_hash: &[u8], peer_id: String) -> (r: Result<Self, Error>)
        ensures
            info_hash@.len() != 20 ==> r == Err::<Self, Error>(Error::InfoHashLength),
            info_hash@.len() == 20 && encode_utf8(peer_id@).len() != 20 ==> r == Err::<Self, Error>(
                Error::PeerIdLength,
            ),
            info_hash@.len() == 20 && encode_utf8(peer_id@).len() == 20 ==> r is Ok && sendable(
                r->Ok_0@,
            ) && r->Ok_0@.info_hash == info_hash@ && r->Ok_0@.peer_id == peer_id@,
    {
        if info_hash.len() != 20 {
            return Err(Error::InfoHashLength);
        }
        if peer_id.as_str().as_bytes().len() != 20 {
            return Err(Error::PeerIdLength);
        }
        let hash = match copy_range(info_hash, 0, 20) {
            Some(h) => h,
            None => { return Err(Error::InfoHashLength); },
        };
        assert(hash@ =~= info_hash@);
        let reserved: [u8; 8] = [0u8; 8];
        assert(reserved@ =~= zeros8());
        Ok(
            Self {
                p_str_len: 19,
                p_str: PROTOCOL.to_owned(),
                reserved,
                info_hash: hash,
                peer_id,
            },
        )
    }

    /// Whether this handshake is in the form in which it may be sent.
    pub fn is_sendable(&self) -> (r: bool)
        ensures
            r == sendable(self@),
    {
        proof {
            lemma_protocol_name();
        }
        if self.p_str_len != 19 || self.info_hash.len() != 20 {
            return false;
        }
        if self.peer_id.as_str().as_bytes().len() != 20 {
            return false;
        }
        let mut i: usize = 0;
        while i < 8
            invariant
                i <= 8,
                forall|k: int| 0 <= k < i ==> self.reserved@[k] == 0,
            decreases 8 - i,
        {
            if self.reserved[i] != 0 {
                assert(self.reserved@[i as int] != zeros8()[i as int]);
                return false;
            }
            i = i + 1;
        }
        assert(self.reserved@ =~= zeros8());
        let same = same_bytes(self.p_str.as_str().as_bytes(), PROTOCOL.as_bytes());
        proof {
            vstd::utf8::encode_utf8_decode_utf8(self.p_str@);
            vstd::utf8::encode_utf8_decode_utf8(PROTOCOL@);
        }
        same
    }

    /// The 68 bytes to send this handshake as.
    pub fn to_buffer(&self) -> (buf: Vec<u8>)
        requires
            sendable(self@),
        ensures
            buf@ == layout(self@),
            buf@.len() == 68,
    {
        proof {
            lemma_layout(self@);
        }
        let mut buf: Vec<u8> = Vec::new();
        buf.push(self.p_str_len);
        push_all(&mut buf, self.p_str.as_str().as_bytes());
        push_all(&mut buf, self.reserved.as_slice());
        push_all(&mut buf, self.info_hash.as_slice());
        push_all(&mut buf, self.peer_id.as_str().as_bytes());
        assert(buf@ =~= layout(self@));
        buf
    }

    /// Reads the handshake at the start of `buf`. The buffer must hold 68
    /// bytes and announce the protocol.
    pub fn from_buffer(buf: &Vec<u8>) -> (r: Result<Self, Error>)
        ensures
            match reading(buf@) {
                Ok(h) => r is Ok && r->Ok_0@ == h,
                Err(e) => r == Err::<Self, Error>(e),
            },
    {
        Self::decode(buf.as_slice())
    }

    /// Reads the handshake at the start of `buf`. The buffer must hold 68
    /// bytes and announce the protocol.
    pub fn decode(buf: &[u8]) -> (r: Result<Self, Error>)
        ensures
            match reading(buf@) {
                Ok(h) => r is Ok && r->Ok_0@ == h,
                Err(e) => r == Err::<Self, Error>(e),
            },
    {
        if buf.len() < 68 {
            return Err(Error::HandshakeTruncated);
        }
        if buf[0] != 19 {
            return Err(Error::ProtocolMismatch);
        }
        proof {
            lemma_protocol_name();
        }
        let name = PROTOCOL.as_bytes();
        let mut i: usize = 0;
        while i < 19
            invariant
                i <= 19,
                buf@.len() >= 68,
                name@ == encode_utf8(PROTOCOL@),
                name@.len() == 19,
                forall|k: int| 0 <= k < i ==> buf@[1 + k] == name@[k],
            decreases 19 - i,
        {
            if buf[1 + i] != name[i] {
                assert(buf@.subrange(1, 20)[i as int] != name@[i as int]);
                return Err(Error::ProtocolMismatch);
            }
            i = i + 1;
        }
        assert(buf@.subrange(1, 20) =~= encode_utf8(PROTOCOL@));
        let info_hash = match copy_range(buf, 28, 48) {
            Some(h) => h,
            None => { return Err(Error::HandshakeTruncated); },
        };
        let mut peer_id = String::new();
        let mut j: usize = 48;
        while j < 68
            invariant
                48 <= j <= 68,
                buf@.len() >= 68,
                peer_id@ == chars_of(buf@.subrange(48, j as int)),
            decreases 68 - j,
        {
            push_char(&mut peer_id, buf[j] as char);
            j = j + 1;
            assert(peer_id@ =~= chars_of(buf@.subrange(48, j as int)));
        }
        let reserved: [u8; 8] = [0u8; 8];
        assert(reserved@ =~= zeros8());
        Ok(Self { p_str_len: 19, p_str: PROTOCOL.to_owned(), reserved, info_hash, peer_id })
    }

    /// Reads the handshake at the start of `buf` and holds it to the torrent
    /// that this session is about: a handshake that names another info-hash
    /// is rejected.
    pub fn from_buffer_for(buf: &[u8], info_hash: &[u8]) -> (r: Result<Self, Error>)
        ensures
            match reading(buf@) {
                Ok(h) => if h.info_hash == info_hash@ {
                    r is Ok && r->Ok_0@ == h
                } else {
                    r == Err::<Self, Error>(Error::InfoHashMismatch)
                },
                Err(e) => r == Err::<Self, Error>(e),
            },
    {
        let handshake = match Self::decode(buf) {
            Ok(h) => h,
            Err(e) => { return Err(e); },
        };
        if !same_bytes(handshake.info_hash.as_slice(), info_hash) {
            return Err(Error::InfoHashMismatch);
        }
        Ok(handshake)
    }

    /// The line to log once a peer's handshake has been read.
    pub fn log_useful_information(&self) -> (line: String)
        ensures
            line@ == "Connected - PeerId: "@ + self.peer_id@,
    {
        let mut line = "Connected - PeerId: ".to_owned();
        line.append(self.peer_id.as_str());
        line
    }
}

} // verus!
