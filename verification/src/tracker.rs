//! The UDP tracker protocol: the connect and announce messages and the
//! client's side of the exchange.
//!
//! All integers on the wire are big-endian. The socket belongs to the caller:
//! the client here says what to send and what a datagram that arrived means.

use vstd::prelude::*;
use vstd::utf8::encode_utf8;
use crate::codec::{
    i32_at, i32_bytes, i64_at, i64_bytes, push_all, push_i32, push_i64, push_u16, push_u32,
    read_i32, read_i64, read_u16, u16_at, u16_bytes, u32_at, u32_bytes,
};
use crate::codec::{
    lemma_i32_pack_then_read, lemma_i64_pack_then_read, lemma_u16_pack_then_read,
    lemma_u32_pack_then_read,
};
use crate::endpoint::PeerEndpoint;
use crate::error::Error;

verus! {

/// The number that a connect request starts with.
pub const PROTOCOL_ID: i64 = 0x417_2710_1980;

/// The action code of a connect.
pub const ACTION_CONNECT: i32 = 0;

/// The action code of an announce.
pub const ACTION_ANNOUNCE: i32 = 1;

/// A message that can be written to a buffer.
pub trait ToBuffer {
    /// The bytes that the message is sent as.
    spec fn buffer(&self) -> Seq<u8>;

    /// The bytes to send the message as.
    fn to_buffer(&self) -> (buf: Vec<u8>)
        ensures
            buf@ == self.buffer(),
    ;
}

/// A message that can be read from a buffer.
pub trait FromBuffer: Sized {
    /// How many bytes a buffer must hold at least.
    spec fn fixed_len() -> nat;

    /// Whether `value` is what `buf` holds.
    spec fn read_from(buf: Seq<u8>, value: Self) -> bool;

    /// Reads the message at the start of `buf`. It fails on a buffer that
    /// is shorter than the fixed part of the message, and on no other.
    fn from_buffer(buf: &[u8]) -> (r: Result<Self, Error>)
        ensures
            buf@.len() < Self::fixed_len() ==> r == Err::<Self, Error>(Error::TrackerTruncated),
            buf@.len() >= Self::fixed_len() ==> r is Ok && Self::read_from(buf@, r->Ok_0),
    ;
}

/// The connect message, in both directions: the request opens the exchange,
/// the response carries the connection id to announce with.
#[derive(Clone, Copy, Debug, PartialEq, Eq)]
pub struct ConnectionMessage {
    /// In a request the protocol id, in a response the connection id.
    pub connection_id: i64,
    /// The action: 0 for a connect.
    pub action: i32,
    /// The number by which a response is matched to its request.
    pub transaction_id: i32,
}

impl ConnectionMessage {
    /// The connect request with the given transaction id, which the caller
    /// picks at random for each request.
    pub fn create_basic_connection(transaction_id: i32) -> (m: Self)
        ensures
            m.connection_id == PROTOCOL_ID,
            m.action == ACTION_CONNECT,
            m.transaction_id == transaction_id,
    {
        Self { connection_id: PROTOCOL_ID, action: ACTION_CONNECT, transaction_id }
    }
}

impl ToBuffer for ConnectionMessage {
    /// Sixteen bytes: the connection id, the action and the transaction id.
    open spec fn buffer(&self) -> Seq<u8> {
        i64_bytes(self.connection_id) + i32_bytes(self.action) + i32_bytes(self.transaction_id)
    }

    fn to_buffer(&self) -> (buf: Vec<u8>) {
        let mut buf: Vec<u8> = Vec::new();
        push_i64(&mut buf, self.connection_id);
        push_i32(&mut buf, self.action);
        push_i32(&mut buf, self.transaction_id);
        assert(buf@ =~= self.buffer());
        buf
    }
}

impl FromBuffer for ConnectionMessage {
    open spec fn fixed_len() -> nat {
        16
    }

    /// A response holds the action, the transaction id and the connection id,
    /// in this order.
    open spec fn read_from(buf: Seq<u8>, value: Self) -> bool {
        &&& value.action == i32_at(buf, 0)
        &&& value.transaction_id == i32_at(buf, 4)
        &&& value.connection_id == i64_at(buf, 8)
    }

    fn from_buffer(buf: &[u8]) -> (r: Result<Self, Error>) {
        match (read_i32(buf, 0), read_i32(buf, 4), read_i64(buf, 8)) {
            (Some(action), Some(transaction_id), Some(connection_id)) => Ok(
                Self { connection_id, action, transaction_id },
            ),
            _ => Err(Error::TrackerTruncated),
        }
    }
}

/// The layout of a connect request: sixteen bytes, of which the first eight
/// read as the protocol id, the next four as the action and the last four as
/// the transaction id.
pub proof fn lemma_connect_layout(m: ConnectionMessage)
    ensures
        m.buffer().len() == 16,
        i64_at(m.buffer(), 0) == m.connection_id,
        i32_at(m.buffer(), 8) == m.action,
        i32_at(m.buffer(), 12) == m.transaction_id,
{
    let b = m.buffer();
    lemma_i64_pack_then_read(m.connection_id);
    lemma_i32_pack_then_read(m.action);
    lemma_i32_pack_then_read(m.transaction_id);
    assert(b.subrange(0, 8) =~= i64_bytes(m.connection_id));
    assert(b.subrange(8, 12) =~= i32_bytes(m.action));
    assert(b.subrange(12, 16) =~= i32_bytes(m.transaction_id));
    lemma_field_i64(b, 0, m.connection_id);
    lemma_field_i32(b, 8, m.action);
    lemma_field_i32(b, 12, m.transaction_id);
}

/// A field that holds the bytes of `v` reads as `v`.
proof fn lemma_field_i64(b: Seq<u8>, at: int, v: i64)
    requires
        0 <= at,
        at + 8 <= b.len(),
        b.subrange(at, at + 8) == i64_bytes(v),
    ensures
        i64_at(b, at) == v,
{
    lemma_i64_pack_then_read(v);
    let f = b.subrange(at, at + 8);
    assert(f[0] == b[at] && f[1] == b[at + 1] && f[2] == b[at + 2] && f[3] == b[at + 3]);
    assert(f[4] == b[at + 4] && f[5] == b[at + 5] && f[6] == b[at + 6] && f[7] == b[at + 7]);
    assert(u32_at(f, 0) == u32_at(b, at));
    assert(u32_at(f, 4) == u32_at(b, at + 4));
}

/// A field that holds the bytes of `v` reads as `v`.
proof fn lemma_field_i32(b: Seq<u8>, at: int, v: i32)
    requires
        0 <= at,
        at + 4 <= b.len(),
        b.subrange(at, at + 4) == i32_bytes(v),
    ensures
        i32_at(b, at) == v,
{
    lemma_i32_pack_then_read(v);
    let f = b.subrange(at, at + 4);
    assert(f[0] == b[at] && f[1] == b[at + 1] && f[2] == b[at + 2] && f[3] == b[at + 3]);
    assert(u32_at(f, 0) == u32_at(b, at));
}

/// A field that holds the bytes of `v` reads as `v`.
proof fn lemma_field_u32(b: Seq<u8>, at: int, v: u32)
    requires
        0 <= at,
        at + 4 <= b.len(),
        b.subrange(at, at + 4) == u32_bytes(v),
    ensures
        u32_at(b, at) == v,
{
    lemma_u32_pack_then_read(v);
    let f = b.subrange(at, at + 4);
    assert(f[0] == b[at] && f[1] == b[at + 1] && f[2] == b[at + 2] && f[3] == b[at + 3]);
    assert(u32_at(f, 0) == u32_at(b, at));
}

/// A field that holds the bytes of `v` reads as `v`.
proof fn lemma_field_u16(b: Seq<u8>, at: int, v: u16)
    requires
        0 <= at,
        at + 2 <= b.len(),
        b.subrange(at, at + 2) == u16_bytes(v),
    ensures
        u16_at(b, at) == v,
{
    lemma_u16_pack_then_read(v);
    let f = b.subrange(at, at + 2);
    assert(f[0] == b[at] && f[1] == b[at + 1]);
}

/// The announce request.
#[derive(Clone, Copy, Debug, PartialEq, Eq)]
pub struct AnnounceMessage {
    /// The connection id that the tracker gave in its connect response.
    pub connection_id: i64,
    /// The action: 1 for an announce.
    pub action: i32,
    /// The number by which the response is matched to this request.
    pub transaction_id: i32,
    /// The info-hash of the torrent.
    pub info_hash: [u8; 20],
    /// The id of this client.
    pub peer_id: [u8; 20],
    /// How many bytes have been downloaded.
    pub downloaded: i64,
    /// How many bytes are left to download.
    pub left: i64,
    /// How many bytes have been uploaded.
    pub uploaded: i64,
    /// Why the client announces: 0 none, 1 completed, 2 started, 3 stopped.
    pub event: i32,
    /// The address of the client; 0 stands for the sender's.
    pub ip: u32,
    /// A number that identifies the client to the tracker.
    pub key: u32,
    /// How many peers the client asks for; -1 leaves it to the tracker.
    pub num_want: i32,
    /// The port on which the client listens.
    pub port: u16,
    /// Extension flags. They are not part of the 98 bytes of a request.
    pub extensions: u16,
}

impl AnnounceMessage {
    /// The announce request of a client that has downloaded nothing yet.
    /// The info-hash and the peer id must be 20 bytes long; the transaction
    /// id is picked by the caller at random for each request.
    pub fn new(
        connection_id: i64,
        infohash: &[u8],
        peerid: &str,
        total_length: i64,
        transaction_id: i32,
    ) -> (r: Result<Self, Error>)
        ensures
            infohash@.len() != 20 ==> r == Err::<Self, Error>(Error::InfoHashLength),
            infohash@.len() == 20 && encode_utf8(peerid@).len() != 20 ==> r == Err::<Self, Error>(
                Error::PeerIdLength,
            ),
            infohash@.len() == 20 && encode_utf8(peerid@).len() == 20 ==> {
                &&& r is Ok
                &&& r->Ok_0.connection_id == connection_id
                &&& r->Ok_0.action == ACTION_ANNOUNCE
                &&& r->Ok_0.transaction_id == transaction_id
                &&& r->Ok_0.info_hash@ == infohash@
                &&& r->Ok_0.peer_id@ == encode_utf8(peerid@)
                &&& r->Ok_0.downloaded == 0
                &&& r->Ok_0.left == total_length
                &&& r->Ok_0.uploaded == 0
                &&& r->Ok_0.event == 1
                &&& r->Ok_0.ip == 0
                &&& r->Ok_0.key == 234
                &&& r->Ok_0.num_want == -1
                &&& r->Ok_0.port == 61389
                &&& r->Ok_0.extensions == 0
            },
    {
        if infohash.len() != 20 {
            return Err(Error::InfoHashLength);
        }
        let id = peerid.as_bytes();
        if id.len() != 20 {
            return Err(Error::PeerIdLength);
        }
        let mut info_hash: [u8; 20] = [0u8; 20];
        let mut peer_id: [u8; 20] = [0u8; 20];
        let mut i: usize = 0;
        while i < 20
            invariant
                i <= 20,
                infohash@.len() == 20,
                id@.len() == 20,
                forall|k: int| 0 <= k < i ==> info_hash@[k] == infohash@[k],
                forall|k: int| 0 <= k < i ==> peer_id@[k] == id@[k],
            decreases 20 - i,
        {
            info_hash[i] = infohash[i];
            peer_id[i] = id[i];
            i = i + 1;
        }
        assert(info_hash@ =~= infohash@);
        assert(peer_id@ =~= id@);
        Ok(
            Self {
                connection_id,
                action: ACTION_ANNOUNCE,
                transaction_id,
                info_hash,
                peer_id,
                downloaded: 0,
                left: total_length,
                uploaded: 0,
                event: 1,
                ip: 0,
                key: 234,
                num_want: -1,
                port: 61389,
                extensions: 0,
            },
        )
    }
}

impl ToBuffer for AnnounceMessage {
    /// The 98 bytes of an announce request, field after field.
    open spec fn buffer(&self) -> Seq<u8> {
        i64_bytes(self.connection_id) + i32_bytes(self.action) + i32_bytes(self.transaction_id)
            + self.info_hash@ + self.peer_id@ + i64_bytes(self.downloaded) + i64_bytes(self.left)
            + i64_bytes(self.uploaded) + i32_bytes(self.event) + u32_bytes(self.ip) + u32_bytes(
            self.key,
        ) + i32_bytes(self.num_want) + u16_bytes(self.port)
    }

    fn to_buffer(&self) -> (buf: Vec<u8>) {
        let mut buf: Vec<u8> = Vec::new();
        push_i64(&mut buf, self.connection_id);
        push_i32(&mut buf, self.action);
        push_i32(&mut buf, self.transaction_id);
        push_all(&mut buf, self.info_hash.as_slice());
        push_all(&mut buf, self.peer_id.as_slice());
        push_i64(&mut buf, self.downloaded);
        push_i64(&mut buf, self.left);
        push_i64(&mut buf, self.uploaded);
        push_i32(&mut buf, self.event);
        push_u32(&mut buf, self.ip);
        push_u32(&mut buf, self.key);
        push_i32(&mut buf, self.num_want);
        push_u16(&mut buf, self.port);
        assert(buf@ =~= self.buffer());
        buf
    }
}

/// The layout of an announce request: 98 bytes, and each field reads
/// big-endian at its offset as the value that the message holds.
pub proof fn lemma_announce_layout(m: AnnounceMessage)
    ensures
        m.buffer().len() == 98,
        i64_at(m.buffer(), 0) == m.connection_id,
        i32_at(m.buffer(), 8) == m.action,
        i32_at(m.buffer(), 12) == m.transaction_id,
        m.buffer().subrange(16, 36) == m.info_hash@,
        m.buffer().subrange(36, 56) == m.peer_id@,
        i64_at(m.buffer(), 56) == m.downloaded,
        i64_at(m.buffer(), 64) == m.left,
        i64_at(m.buffer(), 72) == m.uploaded,
        i32_at(m.buffer(), 80) == m.event,
        u32_at(m.buffer(), 84) == m.ip,
        u32_at(m.buffer(), 88) == m.key,
        i32_at(m.buffer(), 92) == m.num_want,
        u16_at(m.buffer(), 96) == m.port,
{
    let b = m.buffer();
    assert(b.len() == 98);
    assert(b.subrange(0, 8) =~= i64_bytes(m.connection_id));
    assert(b.subrange(8, 12) =~= i32_bytes(m.action));
    assert(b.subrange(12, 16) =~= i32_bytes(m.transaction_id));
    assert(b.subrange(16, 36) =~= m.info_hash@);
    assert(b.subrange(36, 56) =~= m.peer_id@);
    assert(b.subrange(56, 64) =~= i64_bytes(m.downloaded));
    assert(b.subrange(64, 72) =~= i64_bytes(m.left));
    assert(b.subrange(72, 80) =~= i64_bytes(m.uploaded));
    assert(b.subrange(80, 84) =~= i32_bytes(m.event));
    assert(b.subrange(84, 88) =~= u32_bytes(m.ip));
    assert(b.subrange(88, 92) =~= u32_bytes(m.key));
    assert(b.subrange(92, 96) =~= i32_bytes(m.num_want));
    assert(b.subrange(96, 98) =~= u16_bytes(m.port));
    lemma_field_i64(b, 0, m.connection_id);
    lemma_field_i32(b, 8, m.action);
    lemma_field_i32(b, 12, m.transaction_id);
    lemma_field_i64(b, 56, m.downloaded);
    lemma_field_i64(b, 64, m.left);
    lemma_field_i64(b, 72, m.uploaded);
    lemma_field_i32(b, 80, m.event);
    lemma_field_u32(b, 84, m.ip);
    lemma_field_u32(b, 88, m.key);
    lemma_field_i32(b, 92, m.num_want);
    lemma_field_u16(b, 96, m.port);
}


/// The response to an announce.
#[derive(Clone, Debug, PartialEq, Eq)]
pub struct AnnounceMessageResponse {
    /// The action: 1 for an announce.
    pub action: i32,
    /// The transaction id of the request that this answers.
    pub transaction_id: i32,
    /// How many seconds to wait before the next announce.
    pub interval: i32,
    /// How many peers are downloading.
    pub leechers: i32,
    /// How many peers have the whole torrent.
    pub seeders: i32,
    /// The addresses of the peers.
    pub ips: Vec<[u8; 4]>,
    /// The ports of the peers, in the order of their addresses.
    pub ports: Vec<u16>,
}

/// Whether the six bytes at `at` are all zero: the record that ends the list.
pub open spec fn is_end_record(b: Seq<u8>, at: int) -> bool {
    b[at] == 0 && b[at + 1] == 0 && b[at + 2] == 0 && b[at + 3] == 0 && b[at + 4] == 0 && b[at
        + 5] == 0
}

/// How many records stand from `at` on before the list ends: at the first
/// record of zeros, or where fewer than six bytes are left.
pub open spec fn record_count(b: Seq<u8>, at: int) -> nat
    decreases b.len() - at,
{
    if 0 <= at && at + 6 <= b.len() && !is_end_record(b, at) {
        1 + record_count(b, at + 6)
    } else {
        0
    }
}

/// How many peers a response lists: its records but the first, which
/// carries the address of the tracker itself.
pub open spec fn listed_peers(b: Seq<u8>) -> nat {
    if record_count(b, 20) == 0 {
        0
    } else {
        (record_count(b, 20) - 1) as nat
    }
}

impl FromBuffer for AnnounceMessageResponse {
    open spec fn fixed_len() -> nat {
        20
    }

    /// A response holds five numbers and then the records of the peers, six
    /// bytes each. The first record is left out; peer `k` is read from the
    /// record after it.
    open spec fn read_from(buf: Seq<u8>, value: Self) -> bool {
        &&& value.action == i32_at(buf, 0)
        &&& value.transaction_id == i32_at(buf, 4)
        &&& value.interval == i32_at(buf, 8)
        &&& value.leechers == i32_at(buf, 12)
        &&& value.seeders == i32_at(buf, 16)
        &&& value.ips@.len() == listed_peers(buf)
        &&& value.ports@.len() == listed_peers(buf)
        &&& forall|k: int|
            0 <= k < listed_peers(buf) ==> (#[trigger] value.ips@[k])@ == buf.subrange(
                26 + 6 * k,
                30 + 6 * k,
            )
        &&& forall|k: int|
            0 <= k < listed_peers(buf) ==> #[trigger] value.ports@[k] == u16_at(buf, 30 + 6 * k)
    }

    fn from_buffer(buf: &[u8]) -> (r: Result<Self, Error>) {
        let (action, transaction_id, interval, leechers, seeders) = match (
            read_i32(buf, 0),
            read_i32(buf, 4),
            read_i32(buf, 8),
            read_i32(buf, 12),
            read_i32(buf, 16),
        ) {
            (Some(a), Some(t), Some(i), Some(l), Some(s)) => (a, t, i, l, s),
            _ => { return Err(Error::TrackerTruncated); },
        };
        let mut ips: Vec<[u8; 4]> = Vec::new();
        let mut ports: Vec<u16> = Vec::new();
        let mut at: usize = 20;
        let mut seen: usize = 0;
        loop
            invariant
                20 <= at <= buf@.len(),
                at == 20 + 6 * seen,
                record_count(buf@, 20) == seen + record_count(buf@, at as int),
                ips@.len() == ports@.len(),
                ips@.len() == if seen == 0 { 0 } else { seen - 1 },
                forall|k: int|
                    0 <= k < ips@.len() ==> (#[trigger] ips@[k])@ == buf@.subrange(
                        26 + 6 * k,
                        30 + 6 * k,
                    ),
                forall|k: int|
                    0 <= k < ports@.len() ==> #[trigger] ports@[k] == u16_at(buf@, 30 + 6 * k),
            ensures
                ips@.len() == listed_peers(buf@),
                ports@.len() == listed_peers(buf@),
                forall|k: int|
                    0 <= k < ips@.len() ==> (#[trigger] ips@[k])@ == buf@.subrange(
                        26 + 6 * k,
                        30 + 6 * k,
                    ),
                forall|k: int|
                    0 <= k < ports@.len() ==> #[trigger] ports@[k] == u16_at(buf@, 30 + 6 * k),
            decreases buf@.len() - at,
        {
            if buf.len() - at < 6 {
                break ;
            }
            let ip: [u8; 4] = [buf[at], buf[at + 1], buf[at + 2], buf[at + 3]];
            let port = match read_u16(buf, at + 4) {
                Some(p) => p,
                None => { break ; },
            };
            if ip[0] == 0 && ip[1] == 0 && ip[2] == 0 && ip[3] == 0 && port == 0 {
                assert(is_end_record(buf@, at as int));
                break ;
            }
            assert(!is_end_record(buf@, at as int));
            if seen > 0 {
                assert(ip@ =~= buf@.subrange(at as int, at + 4));
                ips.push(ip);
                ports.push(port);
            }
            seen = seen + 1;
            at = at + 6;
        }
        Ok(Self { action, transaction_id, interval, leechers, seeders, ips, ports })
    }
}

impl AnnounceMessageResponse {
    /// The peers that can be connected to: those of the list whose port is
    /// not zero, in the order of the list.
    pub fn peers(&self) -> (r: Vec<PeerEndpoint>)
        ensures
            r@ == endpoints(self.ips@, self.ports@, self.ips@.len() as int),
    {
        let mut out: Vec<PeerEndpoint> = Vec::new();
        let mut i: usize = 0;
        while i < self.ips.len()
            invariant
                i <= self.ips@.len(),
                out@ == endpoints(self.ips@, self.ports@, i as int),
            decreases self.ips@.len() - i,
        {
            if i < self.ports.len() {
                match PeerEndpoint::new(self.ips[i], self.ports[i]) {
                    Some(e) => { out.push(e); },
                    None => {},
                }
            }
            i = i + 1;
        }
        out
    }
}

/// The endpoints that the first `n` addresses of a list make with their
/// ports. An address without a port, or with port zero, makes none.
pub open spec fn endpoints(ips: Seq<[u8; 4]>, ports: Seq<u16>, n: int) -> Seq<PeerEndpoint>
    decreases n,
{
    if n <= 0 {
        Seq::empty()
    } else if n - 1 < ports.len() && ports[n - 1] != 0 {
        endpoints(ips, ports, n - 1).push(PeerEndpoint { ip: ips[n - 1], port: ports[n - 1] })
    } else {
        endpoints(ips, ports, n - 1)
    }
}

/// Every endpoint that a list makes has a port that is not zero.
pub proof fn lemma_endpoints_wf(ips: Seq<[u8; 4]>, ports: Seq<u16>, n: int)
    ensures
        forall|k: int|
            0 <= k < endpoints(ips, ports, n).len() ==> (#[trigger] endpoints(ips, ports, n)[k]).wf(),
        endpoints(ips, ports, n).len() <= if n < 0 { 0 } else { n },
    decreases n,
{
    if n > 0 {
        lemma_endpoints_wf(ips, ports, n - 1);
    }
}


/// Where the exchange with a tracker stands.
#[derive(Clone, Copy, Debug, PartialEq, Eq, Structural)]
pub enum TrackerState {
    /// No connection id yet.
    Init,
    /// The tracker has given a connection id.
    Connected,
    /// The tracker has answered an announce.
    Announced,
    /// The tracker was given up or the exchange was closed.
    Closed,
}

/// The client's side of the exchange with one tracker.
#[derive(Debug)]
pub struct Tracker {
    state: TrackerState,
    pending: Option<i32>,
    connection_id: i64,
    attempt: u8,
}

/// What a tracker client holds, as plain values.
pub struct TrackerView {
    /// Where the exchange stands.
    pub state: TrackerState,
    /// The transaction id of the request that awaits its response, if any.
    pub pending: Option<i32>,
    /// The connection id of the last connect response.
    pub connection_id: i64,
    /// How many times the pending request has timed out.
    pub attempt: nat,
}

/// How many seconds a connection id may be used after it was given.
pub const CONNECTION_LIFETIME: u64 = 60;

/// The last attempt: a request that times out after it is given up.
pub const LAST_ATTEMPT: u8 = 8;

/// How many seconds to wait for a response at attempt `n`: 15 at first,
/// doubled with each attempt.
pub open spec fn backoff(n: nat) -> nat
    decreases n,
{
    if n == 0 {
        15
    } else {
        2 * backoff((n - 1) as nat)
    }
}

/// The waits grow from 15 seconds to 3840 seconds at the last attempt.
pub proof fn lemma_backoff_bounds(n: nat)
    ensures
        15 <= backoff(n),
        n <= 8 ==> backoff(n) <= 3840,
        backoff(0) == 15,
        backoff(1) == 30,
        backoff(8) == 3840,
    decreases n,
{
    reveal_with_fuel(backoff, 9);
    if n > 0 {
        lemma_backoff_bounds((n - 1) as nat);
    }
}

impl View for Tracker {
    type V = TrackerView;

    closed spec fn view(&self) -> TrackerView {
        TrackerView {
            state: self.state,
            pending: self.pending,
            connection_id: self.connection_id,
            attempt: self.attempt as nat,
        }
    }
}

/// What a datagram means as the response to a pending connect request: the
/// connection id, or why the datagram is not that response.
pub open spec fn connect_reply(pending: Option<i32>, b: Seq<u8>) -> Result<i64, Error> {
    if b.len() < 16 {
        Err(Error::TrackerTruncated)
    } else if pending != Some(i32_at(b, 4)) {
        Err(Error::TransactionMismatch)
    } else if i32_at(b, 0) != ACTION_CONNECT {
        Err(Error::ActionMismatch)
    } else {
        Ok(i64_at(b, 8))
    }
}

/// Whether a datagram is the response to a pending announce, and why not.
pub open spec fn announce_reply(pending: Option<i32>, b: Seq<u8>) -> Result<(), Error> {
    if b.len() < 20 {
        Err(Error::TrackerTruncated)
    } else if pending != Some(i32_at(b, 4)) {
        Err(Error::TransactionMismatch)
    } else if i32_at(b, 0) != ACTION_ANNOUNCE {
        Err(Error::ActionMismatch)
    } else {
        Ok(())
    }
}

impl Tracker {
    /// A client that has not spoken to its tracker yet.
    pub fn new() -> (t: Self)
        ensures
            t@ == (TrackerView {
                state: TrackerState::Init,
                pending: None,
                connection_id: 0,
                attempt: 0,
            }),
    {
        Self { state: TrackerState::Init, pending: None, connection_id: 0, attempt: 0 }
    }

    /// Where the exchange stands.
    pub fn state(&self) -> (s: TrackerState)
        ensures
            s == self@.state,
    {
        self.state
    }

    /// The connection id that the tracker gave, once connected.
    pub fn connection_id(&self) -> (id: Option<i64>)
        ensures
            id == if self@.state is Connected || self@.state is Announced {
                Some(self@.connection_id)
            } else {
                None
            },
    {
        match self.state {
            TrackerState::Connected | TrackerState::Announced => Some(self.connection_id),
            _ => None,
        }
    }

    /// Whether an announce may still be made with the connection id, which
    /// was given `age` seconds ago: a connection id lasts 60 seconds.
    pub fn connection_usable(&self, age: u64) -> (r: bool)
        ensures
            r == ((self@.state is Connected || self@.state is Announced) && age
                < CONNECTION_LIFETIME),
    {
        match self.state {
            TrackerState::Connected | TrackerState::Announced => age < CONNECTION_LIFETIME,
            _ => false,
        }
    }

    /// How many seconds to wait for the response to the pending request.
    pub fn timeout(&self) -> (secs: u64)
        ensures
            secs == backoff(self@.attempt),
    {
        proof {
            use_type_invariant(self);
        }
        let mut secs: u64 = 15;
        let mut n: u8 = 0;
        while n < self.attempt
            invariant
                n <= self.attempt <= 8,
                secs == backoff(n as nat),
            decreases self.attempt - n,
        {
            proof {
                lemma_backoff_bounds(n as nat);
            }
            secs = secs * 2;
            n = n + 1;
        }
        secs
    }

    #[verifier::type_invariant]
    spec fn attempts_bounded(self) -> bool {
        self.attempt <= 8
    }

    /// Starts the exchange: gives the connect request to send and waits for
    /// its response from the first attempt on. A closed client sends nothing.
    pub fn send_handshake(&mut self, transaction_id: i32) -> (r: Result<Vec<u8>, Error>)
        ensures
            old(self)@.state is Closed ==> r == Err::<Vec<u8>, Error>(Error::TrackerUnreachable)
                && final(self)@ == old(self)@,
            !(old(self)@.state is Closed) ==> {
                &&& r is Ok
                &&& r->Ok_0@ == ConnectionMessage {
                    connection_id: PROTOCOL_ID,
                    action: ACTION_CONNECT,
                    transaction_id,
                }.buffer()
                &&& final(self)@ == (TrackerView {
                    state: TrackerState::Init,
                    pending: Some(transaction_id),
                    connection_id: old(self)@.connection_id,
                    attempt: 0,
                })
            },
    {
        match self.state {
            TrackerState::Closed => Err(Error::TrackerUnreachable),
            _ => {
                let request = ConnectionMessage::create_basic_connection(transaction_id);
                let connection_id = self.connection_id;
                *self = Self {
                    state: TrackerState::Init,
                    pending: Some(transaction_id),
                    connection_id,
                    attempt: 0,
                };
                Ok(request.to_buffer())
            },
        }
    }

    /// Takes a datagram as the response to the connect request. A datagram
    /// that does not answer the pending request changes nothing: the caller
    /// drops it and goes on receiving until the wait is over.
    pub fn receive_handshake(&mut self, datagram: &[u8]) -> (r: Result<i64, Error>)
        ensures
            old(self)@.state is Init ==> r == connect_reply(old(self)@.pending, datagram@),
            !(old(self)@.state is Init) ==> r == Err::<i64, Error>(Error::TransactionMismatch),
            r is Err ==> final(self)@ == old(self)@,
            r is Ok ==> final(self)@ == (TrackerView {
                state: TrackerState::Connected,
                pending: None,
                connection_id: r->Ok_0,
                attempt: 0,
            }),
    {
        match self.state {
            TrackerState::Init => {},
            _ => { return Err(Error::TransactionMismatch); },
        }
        let reply = match ConnectionMessage::from_buffer(datagram) {
            Ok(m) => m,
            Err(e) => { return Err(e); },
        };
        match self.pending {
            Some(t) => {
                if t != reply.transaction_id {
                    return Err(Error::TransactionMismatch);
                }
            },
            None => { return Err(Error::TransactionMismatch); },
        }
        if reply.action != ACTION_CONNECT {
            return Err(Error::ActionMismatch);
        }
        *self = Self {
            state: TrackerState::Connected,
            pending: None,
            connection_id: reply.connection_id,
            attempt: 0,
        };
        Ok(reply.connection_id)
    }

    /// Gives the announce request to send, for a client that has `left` bytes
    /// to download, and waits for its response from the first attempt on.
    /// The tracker must have given a connection id.
    pub fn send_announce(
        &mut self,
        transaction_id: i32,
        info_hash: &[u8],
        peer_id: &str,
        left: i64,
    ) -> (r: Result<Vec<u8>, Error>)
        ensures
            old(self)@.state is Closed ==> r == Err::<Vec<u8>, Error>(Error::TrackerUnreachable),
            old(self)@.state is Init ==> r == Err::<Vec<u8>, Error>(Error::NotConnected),
            (old(self)@.state is Connected || old(self)@.state is Announced) && info_hash@.len()
                != 20 ==> r == Err::<Vec<u8>, Error>(Error::InfoHashLength),
            (old(self)@.state is Connected || old(self)@.state is Announced) && info_hash@.len()
                == 20 && encode_utf8(peer_id@).len() != 20 ==> r == Err::<Vec<u8>, Error>(
                Error::PeerIdLength,
            ),
            (old(self)@.state is Connected || old(self)@.state is Announced) && info_hash@.len()
                == 20 && encode_utf8(peer_id@).len() == 20 ==> {
                &&& r is Ok
                &&& r->Ok_0@.len() == 98
                &&& i64_at(r->Ok_0@, 0) == old(self)@.connection_id
                &&& i32_at(r->Ok_0@, 8) == ACTION_ANNOUNCE
                &&& i32_at(r->Ok_0@, 12) == transaction_id
                &&& r->Ok_0@.subrange(16, 36) == info_hash@
                &&& r->Ok_0@.subrange(36, 56) == encode_utf8(peer_id@)
                &&& i64_at(r->Ok_0@, 64) == left
            },
            r is Err ==> final(self)@ == old(self)@,
            r is Ok ==> final(self)@ == (TrackerView {
                state: TrackerState::Connected,
                pending: Some(transaction_id),
                connection_id: old(self)@.connection_id,
                attempt: 0,
            }),
    {
        match self.state {
            TrackerState::Closed => { return Err(Error::TrackerUnreachable); },
            TrackerState::Init => { return Err(Error::NotConnected); },
            _ => {},
        }
        let request = match AnnounceMessage::new(
            self.connection_id,
            info_hash,
            peer_id,
            left,
            transaction_id,
        ) {
            Ok(m) => m,
            Err(e) => { return Err(e); },
        };
        proof {
            lemma_announce_layout(request);
        }
        let connection_id = self.connection_id;
        *self = Self {
            state: TrackerState::Connected,
            pending: Some(transaction_id),
            connection_id,
            attempt: 0,
        };
        Ok(request.to_buffer())
    }

    /// Takes a datagram as the response to the announce. A datagram that
    /// does not answer the pending request changes nothing: the caller drops
    /// it and goes on receiving until the wait is over.
    pub fn receive_announce(&mut self, datagram: &[u8]) -> (r: Result<
        AnnounceMessageResponse,
        Error,
    >)
        ensures
            old(self)@.state is Connected ==> match announce_reply(old(self)@.pending, datagram@) {
                Ok(_) => r is Ok && AnnounceMessageResponse::read_from(datagram@, r->Ok_0),
                Err(e) => r is Err && r->Err_0 == e,
            },
            !(old(self)@.state is Connected) ==> r is Err && r->Err_0 == Error::TransactionMismatch,
            r is Err ==> final(self)@ == old(self)@,
            r is Ok ==> final(self)@ == (TrackerView {
                state: TrackerState::Announced,
                pending: None,
                connection_id: old(self)@.connection_id,
                attempt: 0,
            }),
    {
        match self.state {
            TrackerState::Connected => {},
            _ => { return Err(Error::TransactionMismatch); },
        }
        let reply = match AnnounceMessageResponse::from_buffer(datagram) {
            Ok(m) => m,
            Err(e) => { return Err(e); },
        };
        match self.pending {
            Some(t) => {
                if t != reply.transaction_id {
                    return Err(Error::TransactionMismatch);
                }
            },
            None => { return Err(Error::TransactionMismatch); },
        }
        if reply.action != ACTION_ANNOUNCE {
            return Err(Error::ActionMismatch);
        }
        let connection_id = self.connection_id;
        *self = Self {
            state: TrackerState::Announced,
            pending: None,
            connection_id,
            attempt: 0,
        };
        Ok(reply)
    }

    /// Takes a datagram as the response to the announce and gives the peers
    /// that it lists and that can be connected to.
    pub fn find_peers(&mut self, datagram: &[u8]) -> (r: Result<Vec<PeerEndpoint>, Error>)
        ensures
            old(self)@.state is Connected ==> match announce_reply(old(self)@.pending, datagram@) {
                Ok(_) => r is Ok && exists|m: AnnounceMessageResponse|
                    AnnounceMessageResponse::read_from(datagram@, m) && r->Ok_0@ == endpoints(
                        m.ips@,
                        m.ports@,
                        m.ips@.len() as int,
                    ),
                Err(e) => r is Err && r->Err_0 == e,
            },
            !(old(self)@.state is Connected) ==> r is Err && r->Err_0 == Error::TransactionMismatch,
            r is Err ==> final(self)@ == old(self)@,
            r is Ok ==> final(self)@ == (TrackerView {
                state: TrackerState::Announced,
                pending: None,
                connection_id: old(self)@.connection_id,
                attempt: 0,
            }),
    {
        match self.receive_announce(datagram) {
            Ok(reply) => Ok(reply.peers()),
            Err(e) => Err(e),
        }
    }

    /// Records that the wait for a response is over. Up to the last attempt
    /// the request is to be sent again, and the result is the number of
    /// seconds to wait this time; after the last attempt the tracker is given
    /// up.
    pub fn timed_out(&mut self) -> (r: Result<u64, Error>)
        ensures
            old(self)@.state is Closed || old(self)@.attempt >= 8 ==> r == Err::<u64, Error>(
                Error::TrackerUnreachable,
            ) && final(self)@ == (TrackerView {
                state: TrackerState::Closed,
                pending: None,
                ..old(self)@
            }),
            !(old(self)@.state is Closed) && old(self)@.attempt < 8 ==> r == Ok::<u64, Error>(
                backoff(old(self)@.attempt + 1) as u64,
            ) && final(self)@ == (TrackerView {
                attempt: old(self)@.attempt + 1,
                ..old(self)@
            }),
    {
        proof {
            use_type_invariant(&*self);
        }
        let closed = match self.state {
            TrackerState::Closed => true,
            _ => false,
        };
        if closed || self.attempt >= LAST_ATTEMPT {
            *self = Self {
                state: TrackerState::Closed,
                pending: None,
                connection_id: self.connection_id,
                attempt: self.attempt,
            };
            return Err(Error::TrackerUnreachable);
        }
        *self = Self {
            state: self.state,
            pending: self.pending,
            connection_id: self.connection_id,
            attempt: self.attempt + 1,
        };
        proof {
            lemma_backoff_bounds(self.attempt as nat);
        }
        Ok(self.timeout())
    }

    /// Ends the exchange.
    pub fn close(&mut self)
        ensures
            final(self)@ == (TrackerView { state: TrackerState::Closed, pending: None, ..old(self)@ }),
    {
        proof {
            use_type_invariant(&*self);
        }
        *self = Self {
            state: TrackerState::Closed,
            pending: None,
            connection_id: self.connection_id,
            attempt: self.attempt,
        };
    }
}

} // verus!
