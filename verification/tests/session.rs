use rusty_torrent::endpoint::PeerEndpoint;
use rusty_torrent::error::{Error, ErrorKind};
use rusty_torrent::message::{Message, MessageType};
use rusty_torrent::peer::{ControlMessage, Peer, SessionState};
use rusty_torrent::piece::PieceDownload;

const INFO_HASH: [u8; 20] = [0x11; 20];

fn endpoint() -> PeerEndpoint {
    PeerEndpoint { ip: [127, 0, 0, 1], port: 6881 }
}

fn handshake_bytes(info_hash: &[u8], peer_id: &[u8]) -> Vec<u8> {
    let mut buf = vec![19u8];
    buf.extend_from_slice(b"BitTorrent protocol");
    buf.extend_from_slice(&[0; 8]);
    buf.extend_from_slice(info_hash);
    buf.extend_from_slice(peer_id);
    buf
}

fn piece_message(index: u32, offset: u32, block: &[u8]) -> Vec<u8> {
    let mut payload = vec![];
    payload.extend_from_slice(&index.to_be_bytes());
    payload.extend_from_slice(&offset.to_be_bytes());
    payload.extend_from_slice(block);
    Message::new(1 + payload.len() as u32, MessageType::Piece, Some(payload))
        .to_buffer()
        .unwrap()
}

fn unchoked_peer() -> Peer {
    let mut peer = Peer::create_connection(endpoint(), true).unwrap();
    let mut reply = handshake_bytes(&INFO_HASH, b"-XX0001-abcdefghijkl");
    reply.extend_from_slice(&[0, 0, 0, 1, 1]);
    peer.handshake(&reply, &INFO_HASH).unwrap();
    peer.read_message().unwrap();
    assert_eq!(peer.state(), SessionState::Unchoked);
    peer
}

/// Runs the download of one piece against a stream that answers each request
/// with the block asked for, preceded by what `noise` gives for that request.
fn fetch(peer: &mut Peer, mut download: PieceDownload, content: &[u8], noise: &dyn Fn(u32) -> Vec<u8>) -> Vec<u8> {
    let mut requests = 0;
    while let Some(request) = peer.request_piece(&mut download) {
        let payload = request.payload.clone().unwrap();
        let index = u32::from_be_bytes(payload[0..4].try_into().unwrap());
        let offset = u32::from_be_bytes(payload[4..8].try_into().unwrap()) as usize;
        let length = u32::from_be_bytes(payload[8..12].try_into().unwrap()) as usize;
        assert_eq!(request.message_type, MessageType::Request);
        assert_eq!(index, download.index());
        assert_eq!(offset, requests * 16384);
        peer.receive(&noise(requests as u32));
        peer.receive(&piece_message(index, offset as u32, &content[offset..offset + length]));
        while let Some(received) = peer.read_message().unwrap() {
            download.on_message(&received.message).unwrap();
        }
        requests += 1;
    }
    assert!(download.is_complete());
    download.into_bytes()
}

#[test]
fn connection_failure_gives_no_session() {
    assert_eq!(Peer::create_connection(endpoint(), false).err(), Some(Error::Io));
    assert_eq!(Error::Io.kind(), ErrorKind::IoError);
    let peer = Peer::create_connection(endpoint(), true).unwrap();
    assert_eq!(peer.state(), SessionState::Handshaking);
    assert!(peer.choking());
    assert_eq!(peer.socket_addr(), endpoint());
    assert_eq!(peer.peer_id(), "");
}

#[test]
fn handshake_request_is_the_handshake() {
    let request = Peer::handshake_request(&INFO_HASH, String::from("-RT0001-123456012345")).unwrap();
    assert_eq!(request, handshake_bytes(&INFO_HASH, b"-RT0001-123456012345"));
    assert_eq!(
        Peer::handshake_request(&INFO_HASH[..3], String::from("-RT0001-123456012345")),
        Err(Error::InfoHashLength)
    );
    assert_eq!(
        Peer::handshake_request(&INFO_HASH, String::from("short")),
        Err(Error::PeerIdLength)
    );
}

#[test]
fn handshake_enters_choked_and_sends_interested() {
    let mut peer = Peer::create_connection(endpoint(), true).unwrap();
    let reply = handshake_bytes(&INFO_HASH, b"-XX0001-abcdefghijkl");
    let interested = peer.handshake(&reply, &INFO_HASH).unwrap();
    assert_eq!(interested, Message::new(1, MessageType::Interested, None));
    assert_eq!(interested.to_buffer(), Ok(vec![0, 0, 0, 1, 2]));
    assert_eq!(peer.state(), SessionState::Choked);
    assert!(peer.choking());
    assert_eq!(peer.peer_id(), "-XX0001-abcdefghijkl");
    assert_eq!(peer.handshake(&reply, &INFO_HASH), Err(Error::NotHandshaking));
    assert_eq!(peer.state(), SessionState::Choked);
    assert_eq!(Error::NotHandshaking.kind(), ErrorKind::HandshakeRejected);
}

#[test]
fn unchoke_after_the_handshake_is_seen() {
    let mut peer = Peer::create_connection(endpoint(), true).unwrap();
    let mut reply = handshake_bytes(&INFO_HASH, b"-XX0001-abcdefghijkl");
    reply.extend_from_slice(&[0, 0, 0, 5, 4, 0, 0, 0, 1]); // have
    reply.extend_from_slice(&[0, 0, 0, 1, 1]); // unchoke
    reply.extend_from_slice(&[0, 0, 0]); // the start of another message
    peer.handshake(&reply, &INFO_HASH).unwrap();
    assert_eq!(peer.state(), SessionState::Choked);
    let have = peer.read_message().unwrap().unwrap();
    assert_eq!(have.message.message_type, MessageType::Have);
    assert_eq!(have.reply, None);
    assert!(peer.choking());
    let unchoke = peer.read_message().unwrap().unwrap();
    assert_eq!(unchoke.message.message_type, MessageType::Unchoke);
    assert_eq!(peer.state(), SessionState::Unchoked);
    assert!(!peer.choking());
    assert_eq!(peer.read_message().unwrap().map(|r| r.message), None);
}

#[test]
fn bad_handshakes_fail_the_session() {
    let cases: Vec<(Vec<u8>, Error)> = vec![
        (handshake_bytes(&[0x22; 20], b"-XX0001-abcdefghijkl"), Error::InfoHashMismatch),
        (handshake_bytes(&INFO_HASH, b"-XX0001-abcdefghijk"), Error::HandshakeTruncated),
        (vec![], Error::HandshakeTruncated),
        (
            {
                let mut b = handshake_bytes(&INFO_HASH, b"-XX0001-abcdefghijkl");
                b[5] = b'X';
                b
            },
            Error::ProtocolMismatch,
        ),
    ];
    for (reply, error) in cases {
        let mut peer = Peer::create_connection(endpoint(), true).unwrap();
        assert_eq!(peer.handshake(&reply, &INFO_HASH), Err(error));
        assert_eq!(peer.state(), SessionState::Failed);
        assert_eq!(error.kind(), ErrorKind::HandshakeRejected);
    }
}

#[test]
fn keep_alive_while_choked_is_answered_with_interested() {
    let mut peer = Peer::create_connection(endpoint(), true).unwrap();
    peer.handshake(&handshake_bytes(&INFO_HASH, b"-XX0001-abcdefghijkl"), &INFO_HASH).unwrap();
    let keep_alive = Message::new(0, MessageType::KeepAlive, None);
    assert_eq!(
        peer.on_message(&keep_alive),
        Some(Message::new(1, MessageType::Interested, None))
    );
    assert_eq!(peer.on_message(&Message::new(1, MessageType::Unchoke, None)), None);
    assert_eq!(peer.state(), SessionState::Unchoked);
    assert_eq!(peer.on_message(&keep_alive), None);
    assert_eq!(peer.on_message(&Message::new(1, MessageType::Choke, None)), None);
    assert_eq!(peer.state(), SessionState::Choked);
    assert!(peer.choking());
    peer.receive(&[0, 0, 0, 0]);
    let received = peer.read_message().unwrap().unwrap();
    assert_eq!(received.message, keep_alive);
    assert_eq!(received.reply, Some(Message::new(1, MessageType::Interested, None)));
}

#[test]
fn messages_before_the_handshake_change_nothing() {
    let mut peer = Peer::create_connection(endpoint(), true).unwrap();
    assert_eq!(peer.on_message(&Message::new(1, MessageType::Unchoke, None)), None);
    assert_eq!(peer.state(), SessionState::Handshaking);
    assert!(peer.choking());
    assert_eq!(peer.on_message(&Message::new(0, MessageType::KeepAlive, None)), None);
}

#[test]
fn a_message_that_cannot_be_read_fails_the_session() {
    let mut peer = unchoked_peer();
    peer.receive(&[0, 0, 0, 1, 77]);
    assert_eq!(peer.read_message().err(), Some(Error::UnknownType(77)));
    assert_eq!(peer.state(), SessionState::Failed);

    let mut other = unchoked_peer();
    other.receive(&[0x7f, 0, 0, 0, 7]);
    assert_eq!(other.read_message().err(), Some(Error::FrameTooLarge));
    assert_eq!(other.state(), SessionState::Failed);
}

#[test]
fn disconnect_and_fail_close_the_session() {
    let mut peer = unchoked_peer();
    peer.disconnect();
    assert_eq!(peer.state(), SessionState::Closed);
    let mut download = PieceDownload::new(0, 4, 0, 4);
    assert_eq!(peer.request_piece(&mut download), None);
    let mut other = unchoked_peer();
    other.fail();
    assert_eq!(other.state(), SessionState::Failed);
}

#[test]
fn a_choked_client_sends_no_requests() {
    let mut peer = Peer::create_connection(endpoint(), true).unwrap();
    peer.handshake(&handshake_bytes(&INFO_HASH, b"-XX0001-abcdefghijkl"), &INFO_HASH).unwrap();
    let mut download = PieceDownload::new(3, 16384, 0, 100_000);
    assert_eq!(peer.request_piece(&mut download), None);
    peer.on_message(&Message::new(1, MessageType::Unchoke, None));
    assert_eq!(
        peer.request_piece(&mut download),
        Some(Message::create_piece_request(3, 0, 16384))
    );
}

#[test]
fn pieces_assemble_in_order_through_other_messages() {
    let content: Vec<u8> = (0..65536u32).map(|i| (i * 7 + i / 256) as u8).collect();
    let mut peer = unchoked_peer();
    let noise = |request: u32| -> Vec<u8> {
        match request {
            0 => vec![0, 0, 0, 0],                      // keep-alive
            1 => vec![0, 0, 0, 5, 4, 0, 0, 0, 1],       // have
            _ => vec![],
        }
    };
    let first = fetch(&mut peer, PieceDownload::new(0, 32768, 0, 65536), &content[..32768], &noise);
    assert_eq!(first, &content[..32768]);
    assert!(!peer.choking());
    let second = fetch(&mut peer, PieceDownload::new(1, 32768, 32768, 65536), &content[32768..], &noise);
    assert_eq!(second, &content[32768..]);
}

#[test]
fn choke_in_the_stream_sets_the_flag_and_withdraws_the_request() {
    let mut peer = unchoked_peer();
    let mut download = PieceDownload::new(0, 16384, 0, 16384);
    let request = peer.request_piece(&mut download).unwrap();
    peer.receive(&[0, 0, 0, 1, 0]); // choke
    let choke = peer.read_message().unwrap().unwrap();
    assert_eq!(download.on_message(&choke.message), Ok(false));
    assert!(peer.choking());
    assert_eq!(peer.state(), SessionState::Choked);
    assert_eq!(peer.request_piece(&mut download), None);
    // A block that arrives now answers no request.
    let block = Message::decode(&piece_message(0, 0, &[5; 16384])).unwrap();
    assert_eq!(download.on_message(&block), Err(Error::UnexpectedBlock));
    peer.receive(&[0, 0, 0, 1, 1]); // unchoke
    peer.read_message().unwrap();
    assert!(!peer.choking());
    assert_eq!(peer.request_piece(&mut download), Some(request));
    assert_eq!(download.on_message(&block), Ok(true));
    assert!(download.is_complete());
}

#[test]
fn piece_sizes_follow_the_lengths() {
    // Three pieces of 40000 bytes in 100000 bytes: the last has 20000.
    assert_eq!(PieceDownload::new(0, 40000, 0, 100_000).size(), 40000);
    assert_eq!(PieceDownload::new(1, 40000, 40000, 100_000).size(), 40000);
    assert_eq!(PieceDownload::new(2, 40000, 80000, 100_000).size(), 20000);
    assert_eq!(PieceDownload::new(3, 40000, 100_000, 100_000).size(), 0);
    assert_eq!(PieceDownload::new(3, 40000, 100_001, 100_000).size(), 0);
    assert!(PieceDownload::new(3, 40000, 100_000, 100_000).is_complete());
    assert_eq!(PieceDownload::new(0, u32::MAX, 0, u64::MAX).size(), u32::MAX);
}

#[test]
fn requests_cover_the_piece_block_by_block() {
    let mut peer = unchoked_peer();
    let content = vec![9u8; 40000];
    let mut download = PieceDownload::new(2, 40000, 80000, 120_001);
    let mut asked = vec![];
    while let Some(request) = peer.request_piece(&mut download) {
        let payload = request.payload.unwrap();
        let offset = u32::from_be_bytes(payload[4..8].try_into().unwrap());
        let length = u32::from_be_bytes(payload[8..12].try_into().unwrap());
        asked.push((offset, length));
        let block = Message::decode(&piece_message(2, offset, &content[..length as usize])).unwrap();
        assert_eq!(download.on_message(&block), Ok(true));
    }
    assert_eq!(asked, vec![(0, 16384), (16384, 16384), (32768, 7232)]);
    assert_eq!(download.downloaded(), 40000);
    assert_eq!(download.into_bytes().len(), 40000);
}

#[test]
fn last_block_of_the_last_piece_is_short() {
    let mut download = PieceDownload::new(1, 32768, 32768, 50000);
    assert_eq!(download.size(), 17232);
    assert_eq!(download.next_request(), Some(Message::create_piece_request(1, 0, 16384)));
    assert_eq!(download.next_request(), Some(Message::create_piece_request(1, 0, 16384)));
    let first = Message::decode(&piece_message(1, 0, &[1; 16384])).unwrap();
    assert_eq!(download.on_message(&first), Ok(true));
    assert_eq!(download.next_request(), Some(Message::create_piece_request(1, 16384, 848)));
    let last = Message::decode(&piece_message(1, 16384, &[2; 848])).unwrap();
    assert_eq!(download.on_message(&last), Ok(true));
    assert_eq!(download.next_request(), None);
    assert!(download.is_complete());
    assert_eq!(download.downloaded(), 17232);
}

#[test]
fn blocks_that_were_not_asked_for_are_errors() {
    let block = |index, offset, len: usize| {
        Message::decode(&piece_message(index, offset, &vec![0; len])).unwrap()
    };
    let mut download = PieceDownload::new(1, 32768, 0, 100_000);
    // Nothing was asked for yet.
    assert_eq!(download.on_message(&block(1, 0, 16384)), Err(Error::UnexpectedBlock));
    download.next_request();
    assert_eq!(download.on_message(&block(0, 0, 16384)), Err(Error::UnexpectedBlock));
    assert_eq!(download.on_message(&block(1, 16384, 16384)), Err(Error::UnexpectedBlock));
    assert_eq!(download.on_message(&block(1, 0, 16383)), Err(Error::UnexpectedBlock));
    assert_eq!(download.on_message(&block(1, 0, 16385)), Err(Error::UnexpectedBlock));
    assert_eq!(
        download.on_message(&Message::new(5, MessageType::Piece, Some(vec![0, 0, 0, 1]))),
        Err(Error::UnexpectedBlock)
    );
    assert_eq!(
        download.on_message(&Message::new(1, MessageType::Piece, None)),
        Err(Error::UnexpectedBlock)
    );
    assert_eq!(download.downloaded(), 0);
    assert_eq!(download.on_message(&block(1, 0, 16384)), Ok(true));
    // The same block again answers no request.
    assert_eq!(download.on_message(&block(1, 0, 16384)), Err(Error::UnexpectedBlock));
    assert_eq!(download.downloaded(), 16384);
    assert_eq!(Error::UnexpectedBlock.kind(), ErrorKind::PeerProtocolError);
}

#[test]
fn other_messages_leave_the_download_alone() {
    let mut download = PieceDownload::new(0, 16384, 0, 16384);
    download.next_request();
    for message in [
        Message::new(0, MessageType::KeepAlive, None),
        Message::new(1, MessageType::Unchoke, None),
        Message::new(5, MessageType::Have, Some(vec![0, 0, 0, 1])),
        Message::new(2, MessageType::Bitfield, Some(vec![0x80])),
    ] {
        assert_eq!(download.on_message(&message), Ok(false));
    }
    assert_eq!(download.downloaded(), 0);
    let block = Message::decode(&piece_message(0, 0, &[7; 16384])).unwrap();
    assert_eq!(download.on_message(&block), Ok(true));
}

#[test]
fn control_messages_clone() {
    match ControlMessage::DownloadPiece(1, 2, 3, 4).clone() {
        ControlMessage::DownloadPiece(a, b, c, d) => assert_eq!((a, b, c, d), (1, 2, 3, 4)),
        _ => panic!("a clone is of the same kind"),
    }
    match ControlMessage::DownloadedPiece(vec![1, 2, 3]).clone() {
        ControlMessage::DownloadedPiece(bytes) => assert_eq!(bytes, vec![1, 2, 3]),
        _ => panic!("a clone is of the same kind"),
    }
}
