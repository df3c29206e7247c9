use rusty_torrent::error::{Error, ErrorKind};
use rusty_torrent::handshake::{Handshake, HANDSHAKE_LEN, PROTOCOL};

fn sample_buffer() -> Vec<u8> {
    let mut buf = vec![19u8];
    buf.extend_from_slice(b"BitTorrent protocol");
    buf.extend_from_slice(&[0; 8]);
    buf.extend_from_slice(&[0xab; 20]);
    buf.extend_from_slice(b"-RT0001-123456012345");
    buf
}

#[test]
fn handshake_has_the_fixed_layout() {
    let info_hash: Vec<u8> = (100u8..120).collect();
    let handshake = Handshake::new(&info_hash, String::from("-RT0001-123456012345")).unwrap();
    let buf = handshake.to_buffer();
    assert_eq!(buf.len(), 68);
    assert_eq!(HANDSHAKE_LEN, 68);
    assert_eq!(buf[0], 19);
    assert_eq!(&buf[1..20], b"BitTorrent protocol");
    assert_eq!(PROTOCOL, "BitTorrent protocol");
    assert_eq!(&buf[20..28], &[0u8; 8]);
    assert_eq!(&buf[28..48], &info_hash[..]);
    assert_eq!(&buf[48..68], b"-RT0001-123456012345");
}

#[test]
fn handshake_carries_the_peer_id_of_the_caller() {
    let handshake = Handshake::new(&[7; 20], String::from("ABCDEFGHIJKLMNOPQRST")).unwrap();
    assert_eq!(handshake.peer_id, "ABCDEFGHIJKLMNOPQRST");
    assert_eq!(&handshake.to_buffer()[48..], b"ABCDEFGHIJKLMNOPQRST");
}

#[test]
fn handshake_buffer_round_trips() {
    let buf = sample_buffer();
    let handshake = Handshake::from_buffer(&buf).unwrap();
    assert_eq!(handshake.p_str_len, 19);
    assert_eq!(handshake.p_str, "BitTorrent protocol");
    assert_eq!(handshake.reserved, [0; 8]);
    assert_eq!(handshake.info_hash, vec![0xab; 20]);
    assert_eq!(handshake.peer_id, "-RT0001-123456012345");
    assert_eq!(handshake.to_buffer(), buf);
}

#[test]
fn handshake_of_67_bytes_is_rejected() {
    let mut buf = sample_buffer();
    buf.pop();
    assert_eq!(buf.len(), 67);
    assert_eq!(Handshake::from_buffer(&buf).unwrap_err(), Error::HandshakeTruncated);
    assert_eq!(Handshake::decode(&[]).unwrap_err(), Error::HandshakeTruncated);
    assert_eq!(Error::HandshakeTruncated.kind(), ErrorKind::HandshakeRejected);
}

#[test]
fn handshake_must_announce_the_protocol() {
    let mut wrong_len = sample_buffer();
    wrong_len[0] = 18;
    assert_eq!(Handshake::from_buffer(&wrong_len).unwrap_err(), Error::ProtocolMismatch);

    let mut wrong_name = sample_buffer();
    wrong_name[19] = b'L';
    assert_eq!(Handshake::from_buffer(&wrong_name).unwrap_err(), Error::ProtocolMismatch);

    let mut lower = sample_buffer();
    lower[1] = b'b';
    assert_eq!(Handshake::from_buffer(&lower).unwrap_err(), Error::ProtocolMismatch);
    assert_eq!(Error::ProtocolMismatch.kind(), ErrorKind::HandshakeRejected);
}

#[test]
fn handshake_for_another_torrent_is_rejected() {
    let buf = sample_buffer();
    assert!(Handshake::from_buffer_for(&buf, &[0xab; 20]).is_ok());
    assert_eq!(
        Handshake::from_buffer_for(&buf, &[0xac; 20]).unwrap_err(),
        Error::InfoHashMismatch
    );
    assert_eq!(
        Handshake::from_buffer_for(&buf, &[0xab; 19]).unwrap_err(),
        Error::InfoHashMismatch
    );
    assert_eq!(
        Handshake::from_buffer_for(&buf[..60], &[0xab; 20]).unwrap_err(),
        Error::HandshakeTruncated
    );
    assert_eq!(Error::InfoHashMismatch.kind(), ErrorKind::HandshakeRejected);
}

#[test]
fn handshake_ignores_reserved_bytes_and_what_follows() {
    let mut buf = sample_buffer();
    buf[25] = 0x10;
    buf.extend_from_slice(&[0, 0, 0, 1, 1]);
    let handshake = Handshake::from_buffer(&buf).unwrap();
    assert_eq!(handshake.reserved, [0; 8]);
    assert_eq!(handshake.info_hash, vec![0xab; 20]);
}

#[test]
fn handshake_reads_peer_id_bytes_as_characters() {
    let mut buf = sample_buffer();
    buf[48] = 0xe9;
    let handshake = Handshake::from_buffer(&buf).unwrap();
    assert_eq!(handshake.peer_id.chars().next(), Some('\u{e9}'));
    assert_eq!(handshake.peer_id.chars().count(), 20);
}

#[test]
fn handshake_log_line() {
    let handshake = Handshake::from_buffer(&sample_buffer()).unwrap();
    assert_eq!(
        handshake.log_useful_information(),
        "Connected - PeerId: -RT0001-123456012345"
    );
}

#[test]
fn handshake_counts_the_bytes_of_the_peer_id() {
    // Ten characters of two bytes each are twenty bytes.
    let two_byte = "\u{e9}".repeat(10);
    assert!(Handshake::new(&[1; 20], two_byte).is_ok());
    let twenty_chars = "\u{e9}".repeat(20);
    assert_eq!(
        Handshake::new(&[1; 20], twenty_chars).unwrap_err(),
        Error::PeerIdLength
    );
    assert_eq!(Handshake::new(&[1; 21], String::from("x")).unwrap_err(), Error::InfoHashLength);
}
