//! The messages of the peer wire protocol and their framing.
//!
//! A message on the wire is a four-byte big-endian length, then, unless the
//! length is zero, one byte that names the type and the payload.

use vstd::prelude::*;
use crate::codec::{copy_range, push_all, push_u32, read_u32, u32_at, u32_bytes};
use crate::codec::{lemma_u32_pack_then_read, lemma_u32_read_then_pack};
use crate::error::Error;

verus! {

/// The size of a block, the unit in which pieces are asked for.
pub const BLOCK_SIZE: u32 = 16384;

/// The types of message that peers exchange.
#[derive(Clone, Copy, Debug, PartialEq, Eq, Structural)]
pub enum MessageType {
    /// Sent to keep an idle connection open. It has length zero and no type
    /// byte on the wire.
    KeepAlive,
    /// The peer will not answer requests until it unchokes.
    Choke,
    /// The peer will answer requests.
    Unchoke,
    /// The sender wants to download.
    Interested,
    /// The sender does not want to download.
    NotInterested,
    /// The sender has the piece named in the payload.
    Have,
    /// The pieces that the sender has, one bit each, first piece in the top bit.
    Bitfield,
    /// Asks for a block: piece index, offset and length.
    Request,
    /// A block: piece index, offset and the bytes.
    Piece,
    /// Withdraws a request.
    Cancel,
    /// The port of the sender's DHT node.
    Port,
}

/// The byte that names a type on the wire; a keep-alive has none.
pub open spec fn type_id(t: MessageType) -> Option<u8> {
    match t {
        MessageType::KeepAlive => None,
        MessageType::Choke => Some(0u8),
        MessageType::Unchoke => Some(1u8),
        MessageType::Interested => Some(2u8),
        MessageType::NotInterested => Some(3u8),
        MessageType::Have => Some(4u8),
        MessageType::Bitfield => Some(5u8),
        MessageType::Request => Some(6u8),
        MessageType::Piece => Some(7u8),
        MessageType::Cancel => Some(8u8),
        MessageType::Port => Some(9u8),
    }
}

/// The type that a byte names, if any.
pub open spec fn type_of_id(id: u8) -> Option<MessageType> {
    if id == 0 {
        Some(MessageType::Choke)
    } else if id == 1 {
        Some(MessageType::Unchoke)
    } else if id == 2 {
        Some(MessageType::Interested)
    } else if id == 3 {
        Some(MessageType::NotInterested)
    } else if id == 4 {
        Some(MessageType::Have)
    } else if id == 5 {
        Some(MessageType::Bitfield)
    } else if id == 6 {
        Some(MessageType::Request)
    } else if id == 7 {
        Some(MessageType::Piece)
    } else if id == 8 {
        Some(MessageType::Cancel)
    } else if id == 9 {
        Some(MessageType::Port)
    } else {
        None
    }
}

/// Whether messages of this type carry a payload.
pub open spec fn carries_payload(t: MessageType) -> bool {
    t is Have || t is Bitfield || t is Request || t is Piece || t is Cancel || t is Port
}

/// Each type id names the type that has it.
pub proof fn lemma_type_ids(t: MessageType, id: u8)
    ensures
        type_id(t) == Some(id) <==> type_of_id(id) == Some(t),
        t is KeepAlive <==> type_id(t) is None,
        type_of_id(id) is Some <==> id <= 9,
{
}

impl MessageType {
    /// The type that `id` names. An id above nine names none.
    pub fn from_id(id: u8) -> (r: Result<MessageType, Error>)
        ensures
            match type_of_id(id) {
                Some(t) => r == Ok::<MessageType, Error>(t),
                None => r == Err::<MessageType, Error>(Error::UnknownType(id)),
            },
    {
        match id {
            0 => Ok(MessageType::Choke),
            1 => Ok(MessageType::Unchoke),
            2 => Ok(MessageType::Interested),
            3 => Ok(MessageType::NotInterested),
            4 => Ok(MessageType::Have),
            5 => Ok(MessageType::Bitfield),
            6 => Ok(MessageType::Request),
            7 => Ok(MessageType::Piece),
            8 => Ok(MessageType::Cancel),
            9 => Ok(MessageType::Port),
            _ => Err(Error::UnknownType(id)),
        }
    }

    /// The byte that names this type on the wire. A keep-alive has none.
    pub fn id(self) -> (r: Result<u8, Error>)
        ensures
            match type_id(self) {
                Some(id) => r == Ok::<u8, Error>(id),
                None => r == Err::<u8, Error>(Error::NoTypeId),
            },
    {
        match self {
            MessageType::KeepAlive => Err(Error::NoTypeId),
            MessageType::Choke => Ok(0),
            MessageType::Unchoke => Ok(1),
            MessageType::Interested => Ok(2),
            MessageType::NotInterested => Ok(3),
            MessageType::Have => Ok(4),
            MessageType::Bitfield => Ok(5),
            MessageType::Request => Ok(6),
            MessageType::Piece => Ok(7),
            MessageType::Cancel => Ok(8),
            MessageType::Port => Ok(9),
        }
    }

    /// Whether messages of this type carry a payload.
    pub fn has_payload(self) -> (r: bool)
        ensures
            r == carries_payload(self),
    {
        match self {
            MessageType::Have | MessageType::Bitfield | MessageType::Request
            | MessageType::Piece | MessageType::Cancel | MessageType::Port => true,
            _ => false,
        }
    }
}

impl TryFrom<u8> for MessageType {
    type Error = Error;

    /// The type that `value` names; see `MessageType::from_id`.
    fn try_from(value: u8) -> (r: Result<MessageType, Error>) {
        MessageType::from_id(value)
    }
}

impl vstd::std_specs::convert::TryFromSpecImpl<u8> for MessageType {
    open spec fn obeys_try_from_spec() -> bool {
        true
    }

    open spec fn try_from_spec(v: u8) -> Result<MessageType, Error> {
        match type_of_id(v) {
            Some(t) => Ok(t),
            None => Err(Error::UnknownType(v)),
        }
    }
}

impl TryFrom<MessageType> for u8 {
    type Error = Error;

    /// The byte that names `value`; see `MessageType::id`.
    fn try_from(value: MessageType) -> (r: Result<u8, Error>) {
        value.id()
    }
}

impl vstd::std_specs::convert::TryFromSpecImpl<MessageType> for u8 {
    open spec fn obeys_try_from_spec() -> bool {
        true
    }

    open spec fn try_from_spec(v: MessageType) -> Result<u8, Error> {
        match type_id(v) {
            Some(id) => Ok(id),
            None => Err(Error::NoTypeId),
        }
    }
}


/// A message of the peer wire protocol.
#[derive(Debug, PartialEq)]
pub struct Message {
    /// The length that the message announces: that of the type byte and the
    /// payload together.
    pub message_length: u32,
    /// The type of the message.
    pub message_type: MessageType,
    /// The payload, if any.
    pub payload: Option<Vec<u8>>,
}

/// What a message holds, as plain values.
pub struct MessageView {
    pub length: u32,
    pub kind: MessageType,
    pub payload: Option<Seq<u8>>,
}

impl View for Message {
    type V = MessageView;

    open spec fn view(&self) -> MessageView {
        MessageView {
            length: self.message_length,
            kind: self.message_type,
            payload: match self.payload {
                Some(p) => Some(p@),
                None => None,
            },
        }
    }
}

/// The bytes that a message is sent as. The announced length is written as it
/// stands. A message of a type that carries a payload cannot be sent without
/// one; for the other types a payload is not sent.
pub open spec fn encoding(m: MessageView) -> Option<Seq<u8>> {
    match type_id(m.kind) {
        None => Some(u32_bytes(m.length)),
        Some(id) => if !carries_payload(m.kind) {
            Some(u32_bytes(m.length).push(id))
        } else {
            match m.payload {
                Some(p) => Some(u32_bytes(m.length).push(id) + p),
                None => None,
            }
        },
    }
}

/// The message at the start of a buffer, or why there is none.
///
/// A length of zero is a keep-alive. Otherwise the byte after the length
/// names the type. For a type without payload the message ends there; for a
/// type with payload the buffer must hold all the bytes that the length
/// announces.
pub open spec fn decoding(b: Seq<u8>) -> Result<MessageView, Error> {
    if b.len() < 4 {
        Err(Error::Truncated { have: b.len() as u64, need: 4 })
    } else if u32_at(b, 0) == 0 {
        Ok(MessageView { length: 0, kind: MessageType::KeepAlive, payload: None })
    } else if b.len() < 5 {
        Err(Error::Truncated { have: b.len() as u64, need: 5 })
    } else {
        match type_of_id(b[4]) {
            None => Err(Error::UnknownType(b[4])),
            Some(t) => if !carries_payload(t) {
                Ok(MessageView { length: u32_at(b, 0), kind: t, payload: None })
            } else if b.len() < 4 + u32_at(b, 0) {
                Err(Error::Truncated { have: b.len() as u64, need: (4 + u32_at(b, 0)) as u64 })
            } else {
                Ok(
                    MessageView {
                        length: u32_at(b, 0),
                        kind: t,
                        payload: Some(b.subrange(5, 4 + u32_at(b, 0))),
                    },
                )
            },
        }
    }
}

/// How many bytes of an accepted buffer the message at its start takes.
pub open spec fn consumed(b: Seq<u8>) -> int {
    if u32_at(b, 0) == 0 {
        4
    } else if !carries_payload(type_of_id(b[4])->0) {
        5
    } else {
        4 + u32_at(b, 0)
    }
}

/// A message whose length, type and payload agree: a keep-alive announces
/// zero and has no payload; a message of a type without payload announces at
/// least its type byte and has no payload; any other announces its type byte
/// and its payload.
pub open spec fn valid(m: MessageView) -> bool {
    if m.kind is KeepAlive {
        m.length == 0 && m.payload is None
    } else if carries_payload(m.kind) {
        m.payload is Some && m.length == 1 + m.payload->0.len()
    } else {
        m.length >= 1 && m.payload is None
    }
}

/// A message whose length is the one that the protocol lays down for its type.
pub open spec fn follows_type_table(m: MessageView) -> bool {
    &&& valid(m)
    &&& match m.kind {
        MessageType::KeepAlive => m.length == 0,
        MessageType::Choke | MessageType::Unchoke | MessageType::Interested
        | MessageType::NotInterested => m.length == 1,
        MessageType::Have => m.length == 5,
        MessageType::Bitfield => m.length >= 1,
        MessageType::Request | MessageType::Cancel => m.length == 13,
        MessageType::Piece => m.length >= 9,
        MessageType::Port => m.length == 3,
    }
}

/// Decoding what a valid message is sent as gives the message back, and
/// takes all the bytes.
pub proof fn lemma_decode_encoded(m: MessageView)
    requires
        valid(m),
    ensures
        encoding(m) is Some,
        decoding(encoding(m)->0) == Ok::<MessageView, Error>(m),
        consumed(encoding(m)->0) == encoding(m)->0.len(),
{
    let b = encoding(m)->0;
    lemma_u32_pack_then_read(m.length);
    let head = u32_bytes(m.length);
    assert(b[0] == head[0] && b[1] == head[1] && b[2] == head[2] && b[3] == head[3]);
    assert(u32_at(b, 0) == m.length);
    if !(m.kind is KeepAlive) {
        lemma_type_ids(m.kind, type_id(m.kind)->0);
        assert(b[4] == type_id(m.kind)->0);
        if carries_payload(m.kind) {
            assert(b.subrange(5, 4 + m.length) =~= m.payload->0);
        }
    }
}

/// Encoding what a buffer decodes to gives the bytes that the decoder took.
pub proof fn lemma_encode_decoded(b: Seq<u8>)
    requires
        decoding(b) is Ok,
    ensures
        4 <= consumed(b) <= b.len(),
        encoding(decoding(b)->Ok_0) == Some(b.subrange(0, consumed(b))),
        consumed(b) == b.len() ==> encoding(decoding(b)->Ok_0) == Some(b),
{
    let m = decoding(b)->Ok_0;
    lemma_u32_read_then_pack(b, 0);
    if u32_at(b, 0) == 0 {
        assert(b.subrange(0, 4) =~= u32_bytes(0));
    } else {
        let t = type_of_id(b[4])->0;
        lemma_type_ids(t, b[4]);
        if !carries_payload(t) {
            assert(b.subrange(0, 5) =~= b.subrange(0, 4).push(b[4]));
        } else {
            let n = 4 + u32_at(b, 0);
            assert(b.subrange(0, n) =~= b.subrange(0, 4).push(b[4]) + b.subrange(5, n));
        }
    }
    if consumed(b) == b.len() {
        assert(b.subrange(0, consumed(b)) =~= b);
    }
}

/// What a decoder accepts is a valid message, whatever follows it in the buffer.
pub proof fn lemma_decoded_is_valid(b: Seq<u8>)
    requires
        decoding(b) is Ok,
    ensures
        valid(decoding(b)->Ok_0),
{
}

impl Clone for Message {
    /// A message that holds the same as this one.
    fn clone(&self) -> (m: Self)
        ensures
            m@ == self@,
    {
        let payload = match &self.payload {
            Some(p) => copy_range(p.as_slice(), 0, p.len()),
            None => None,
        };
        assert(self.payload is Some ==> payload->0@ =~= self.payload->0@);
        Self { message_length: self.message_length, message_type: self.message_type, payload }
    }
}

impl Message {
    /// A message with the given length, type and payload, taken as they are.
    pub fn new(message_length: u32, message_type: MessageType, payload: Option<Vec<u8>>) -> (m:
        Self)
        ensures
            m.message_length == message_length,
            m.message_type == message_type,
            m.payload == payload,
    {
        Self { message_length, message_type, payload }
    }

    /// Decodes the message at the start of `buf`.
    pub fn decode(buf: &[u8]) -> (r: Result<Self, Error>)
        ensures
            match decoding(buf@) {
                Ok(m) => r is Ok && r->Ok_0@ == m,
                Err(e) => r == Err::<Self, Error>(e),
            },
    {
        let have: u64 = buf.len() as u64;
        let message_length = match read_u32(buf, 0) {
            Some(n) => n,
            None => { return Err(Error::Truncated { have, need: 4 }); },
        };
        if message_length == 0 {
            return Ok(Self { message_length: 0, message_type: MessageType::KeepAlive, payload: None });
        }
        if buf.len() < 5 {
            return Err(Error::Truncated { have, need: 5 });
        }
        let message_type = match MessageType::from_id(buf[4]) {
            Ok(t) => t,
            Err(e) => { return Err(e); },
        };
        if !message_type.has_payload() {
            return Ok(Self { message_length, message_type, payload: None });
        }
        let end: u64 = 4 + message_length as u64;
        if have < end {
            return Err(Error::Truncated { have, need: end });
        }
        match copy_range(buf, 5, end as usize) {
            Some(p) => Ok(Self { message_length, message_type, payload: Some(p) }),
            None => Err(Error::Truncated { have, need: end }),
        }
    }

    /// Decodes the message at the start of `buf`.
    pub fn from_buffer(buf: &Vec<u8>) -> (r: Result<Self, Error>)
        ensures
            match decoding(buf@) {
                Ok(m) => r is Ok && r->Ok_0@ == m,
                Err(e) => r == Err::<Self, Error>(e),
            },
    {
        Self::decode(buf.as_slice())
    }

    /// The bytes to send this message as.
    pub fn to_buffer(&self) -> (r: Result<Vec<u8>, Error>)
        ensures
            match encoding(self@) {
                Some(b) => r is Ok && r->Ok_0@ == b,
                None => r == Err::<Vec<u8>, Error>(Error::MissingPayload),
            },
    {
        let mut buf: Vec<u8> = Vec::new();
        push_u32(&mut buf, self.message_length);
        assert(buf@ =~= u32_bytes(self.message_length));
        let id = match self.message_type.id() {
            Ok(id) => id,
            Err(_) => { return Ok(buf); },
        };
        buf.push(id);
        if !self.message_type.has_payload() {
            return Ok(buf);
        }
        match &self.payload {
            None => Err(Error::MissingPayload),
            Some(payload) => {
                push_all(&mut buf, payload.as_slice());
                Ok(buf)
            },
        }
    }

    /// Whether the length of the message is the one that the protocol lays
    /// down for its type, and agrees with its payload.
    pub fn conforms(&self) -> (r: bool)
        ensures
            r == follows_type_table(self@),
    {
        let carried: Option<usize> = match &self.payload {
            Some(p) => Some(p.len()),
            None => None,
        };
        let length = self.message_length;
        match self.message_type {
            MessageType::KeepAlive => length == 0 && carried.is_none(),
            MessageType::Choke | MessageType::Unchoke | MessageType::Interested
            | MessageType::NotInterested => length == 1 && carried.is_none(),
            MessageType::Have => length == 5 && carried == Some(4),
            MessageType::Bitfield => match carried {
                Some(n) => length >= 1 && n == (length - 1) as usize,
                None => false,
            },
            MessageType::Request | MessageType::Cancel => length == 13 && carried == Some(12),
            MessageType::Piece => match carried {
                Some(n) => length >= 9 && n == (length - 1) as usize,
                None => false,
            },
            MessageType::Port => length == 3 && carried == Some(2),
        }
    }

    /// The request for `length` bytes at `offset` of piece `piece_index`.
    pub fn create_piece_request(piece_index: u32, offset: u32, length: u32) -> (m: Self)
        ensures
            m@ == request_for(piece_index, offset, length),
    {
        let mut payload: Vec<u8> = Vec::new();
        push_u32(&mut payload, piece_index);
        push_u32(&mut payload, offset);
        push_u32(&mut payload, length);
        assert(payload@ =~= u32_bytes(piece_index) + u32_bytes(offset) + u32_bytes(length));
        Self { message_length: 13, message_type: MessageType::Request, payload: Some(payload) }
    }

    /// The request for `length` bytes at `offset` of piece `piece_index`.
    pub fn create_request(piece_index: u32, offset: u32, length: u32) -> (m: Self)
        ensures
            m@ == request_for(piece_index, offset, length),
    {
        Self::create_piece_request(piece_index, offset, length)
    }
}

/// Whether a whole frame, a length and the bytes it announces, stands at `at`.
pub open spec fn frame_at(b: Seq<u8>, at: int) -> bool {
    0 <= at && at + 4 <= b.len() && at + 4 + u32_at(b, at) <= b.len()
}

/// Where the frame that stands at `at` ends.
pub open spec fn frame_end(b: Seq<u8>, at: int) -> int {
    at + 4 + u32_at(b, at)
}

/// The whole frames that follow one another from `at` on. What is left
/// after the last of them, if anything, is the start of a frame that has not
/// arrived in full.
pub open spec fn frames_from(b: Seq<u8>, at: int) -> Seq<Seq<u8>>
    decreases b.len() - at,
{
    if frame_at(b, at) {
        seq![b.subrange(at, frame_end(b, at))] + frames_from(b, frame_end(b, at))
    } else {
        Seq::empty()
    }
}

/// The contents of a list of buffers.
pub open spec fn views(v: Seq<Vec<u8>>) -> Seq<Seq<u8>> {
    Seq::new(v.len(), |i: int| v[i]@)
}

impl Message {
    /// Splits a buffer into the frames it holds, by their lengths alone, and
    /// counts them. Bytes after the last whole frame are left out. The count
    /// stops at the largest 32-bit number.
    pub fn number_of_messages(buf: &[u8]) -> (r: (Vec<Vec<u8>>, u32))
        ensures
            views(r.0@) == frames_from(buf@, 0),
            r.1 == if r.0@.len() <= u32::MAX {
                r.0@.len() as u32
            } else {
                u32::MAX
            },
    {
        let mut messages: Vec<Vec<u8>> = Vec::new();
        let mut count: u32 = 0;
        let mut at: usize = 0;
        assert(views(messages@) =~= Seq::<Seq<u8>>::empty());
        loop
            invariant
                at <= buf@.len(),
                count == if messages@.len() <= u32::MAX {
                    messages@.len() as u32
                } else {
                    u32::MAX
                },
                frames_from(buf@, 0) == views(messages@) + frames_from(buf@, at as int),
            ensures
                views(messages@) == frames_from(buf@, 0),
                count == if messages@.len() <= u32::MAX {
                    messages@.len() as u32
                } else {
                    u32::MAX
                },
            decreases buf@.len() - at,
        {
            let length = match read_u32(buf, at) {
                Some(n) => n,
                None => {
                    assert(views(messages@) + Seq::<Seq<u8>>::empty() =~= views(messages@));
                    break ;
                },
            };
            let room: usize = buf.len() - at - 4;
            if length as u64 > room as u64 {
                assert(views(messages@) + Seq::<Seq<u8>>::empty() =~= views(messages@));
                break ;
            }
            let end: usize = at + 4 + length as usize;
            let frame = match copy_range(buf, at, end) {
                Some(f) => f,
                None => {
                    assert(false);
                    break ;
                },
            };
            proof {
                let before = messages@;
                let rest = frames_from(buf@, end as int);
                assert(frames_from(buf@, at as int) == seq![frame@] + rest);
                assert(views(before.push(frame)) =~= views(before) + seq![frame@]);
                assert(views(before) + (seq![frame@] + rest) =~= views(before) + seq![frame@]
                    + rest);
            }
            messages.push(frame);
            if count < u32::MAX {
                count = count + 1;
            }
            at = end;
        }
        (messages, count)
    }
}

/// The request message for a block.
pub open spec fn request_for(piece_index: u32, offset: u32, length: u32) -> MessageView {
    MessageView {
        length: 13,
        kind: MessageType::Request,
        payload: Some(u32_bytes(piece_index) + u32_bytes(offset) + u32_bytes(length)),
    }
}

/// A request follows the type table and is sent as seventeen bytes: the
/// length 13, the type 6 and the three numbers.
pub proof fn lemma_request_layout(piece_index: u32, offset: u32, length: u32)
    ensures
        follows_type_table(request_for(piece_index, offset, length)),
        encoding(request_for(piece_index, offset, length)) == Some(
            seq![0u8, 0u8, 0u8, 13u8, 6u8] + u32_bytes(piece_index) + u32_bytes(offset)
                + u32_bytes(length),
        ),
{
    assert(u32_bytes(13).push(6u8) =~= seq![0u8, 0u8, 0u8, 13u8, 6u8]);
    assert(u32_bytes(13).push(6u8) + (u32_bytes(piece_index) + u32_bytes(offset) + u32_bytes(
        length,
    )) =~= seq![0u8, 0u8, 0u8, 13u8, 6u8] + u32_bytes(piece_index) + u32_bytes(offset)
        + u32_bytes(length));
}

impl<'a> TryFrom<&'a [u8]> for Message {
    type Error = Error;

    /// Decodes the message at the start of `value`; see `Message::decode`.
    fn try_from(value: &'a [u8]) -> (r: Result<Message, Error>)
        ensures
            match decoding(value@) {
                Ok(m) => r is Ok && r->Ok_0@ == m,
                Err(e) => r == Err::<Message, Error>(e),
            },
    {
        Message::decode(value)
    }
}

impl<'a> vstd::std_specs::convert::TryFromSpecImpl<&'a [u8]> for Message {
    /// The contract is stated on `try_from` itself, over views.
    open spec fn obeys_try_from_spec() -> bool {
        false
    }

    open spec fn try_from_spec(v: &'a [u8]) -> Result<Message, Error> {
        arbitrary()
    }
}

impl TryFrom<Message> for Vec<u8> {
    type Error = Error;

    /// The bytes to send `value` as; see `Message::to_buffer`.
    fn try_from(value: Message) -> (r: Result<Vec<u8>, Error>)
        ensures
            match encoding(value@) {
                Some(b) => r is Ok && r->Ok_0@ == b,
                None => r == Err::<Vec<u8>, Error>(Error::MissingPayload),
            },
    {
        value.to_buffer()
    }
}

impl vstd::std_specs::convert::TryFromSpecImpl<Message> for Vec<u8> {
    /// The contract is stated on `try_from` itself, over views.
    open spec fn obeys_try_from_spec() -> bool {
        false
    }

    open spec fn try_from_spec(v: Message) -> Result<Vec<u8>, Error> {
        arbitrary()
    }
}

} // verus!
