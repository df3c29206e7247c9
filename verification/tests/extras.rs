use rusty_torrent::endpoint::PeerEndpoint;
use rusty_torrent::error::{ErrorKind, Recovery};
use rusty_torrent::handshake::Handshake;
use rusty_torrent::message::{Message, MessageType};
use rusty_torrent::peer::{Peer, DEFAULT_IDLE_DEADLINE};
use rusty_torrent::torrent::{File, Info, Torrent};
use rusty_torrent::tracker::{Tracker, CONNECTION_LIFETIME};

fn torrent(length: Option<i64>, files: Option<Vec<File>>) -> Torrent {
    Torrent {
        info: Info {
            name: String::from("name"),
            pieces: vec![],
            piece_length: 16384,
            length,
            files,
        },
        announce: Some(String::from("udp://a:1/announce")),
        announce_list: Some(vec![
            vec![String::from("udp://a:1/announce"), String::from("udp://b:2/announce")],
            vec![],
            vec![String::from("http://c/announce")],
        ]),
        info_bytes: b"d4:name4:namee".to_vec(),
    }
}

#[test]
fn report_of_a_single_file() {
    let t = torrent(Some(-5), None);
    let hash = t.get_info_hash();
    assert_eq!(
        t.log_useful_information(),
        vec![
            String::new(),
            String::from("-->    Torrent Information    <--"),
            String::from("Name:\t\tname"),
            String::from("Trackers"),
            String::from("  |>  udp://a:1/announce"),
            String::from("  |>  http://c/announce"),
            format!("InfoHash:\t{:X?}", hash),
            format!("Length:\t{:?}", Some(-5i64)),
            String::from("Files:"),
            String::from("./name"),
        ]
    );
}

#[test]
fn report_lists_files_by_the_length_of_their_paths() {
    let file = |path: &[&str], length: u64| File {
        path: path.iter().map(|p| String::from(*p)).collect(),
        length,
    };
    let mut t = torrent(
        None,
        Some(vec![
            file(&["a", "b", "c"], 300),
            file(&["top"], 1),
            file(&["d", "e"], 20),
            file(&[], 7),
            file(&["f", "g", "h"], 0),
            file(&["other"], u64::MAX),
        ]),
    );
    t.announce_list = None;
    t.info_bytes = vec![];
    let lines = t.log_useful_information();
    assert_eq!(
        lines,
        vec![
            String::new(),
            String::from("-->    Torrent Information    <--"),
            String::from("Name:\t\tname"),
            String::from("Trackers"),
            String::from("InfoHash:\t[DA, 39, A3, EE, 5E, 6B, 4B, D, 32, 55, BF, EF, 95, 60, 18, 90, AF, D8, 7, 9]"),
            String::from("Length:\tNone"),
            String::from("Files:"),
            String::from("./"),
            String::from(" |--> : 7B"),
            format!(" |--> {:?}", vec!["top"]),
            format!(" |--> {:?}", vec!["other"]),
            String::from(" |--> d/e: 20B"),
            String::from(" |--> a/b/c: 300B"),
            String::from(" |--> f/g/h: 0B"),
        ]
    );
    assert_eq!(torrent(Some(i64::MIN), None).log_useful_information()[7], format!("Length:\t{:?}", Some(i64::MIN)));
    assert_eq!(torrent(Some(0), Some(vec![])).log_useful_information()[9], "./");
}

#[test]
fn messages_conform_to_the_type_table() {
    let good = [
        Message::new(0, MessageType::KeepAlive, None),
        Message::new(1, MessageType::Choke, None),
        Message::new(1, MessageType::Unchoke, None),
        Message::new(1, MessageType::Interested, None),
        Message::new(1, MessageType::NotInterested, None),
        Message::new(5, MessageType::Have, Some(vec![0; 4])),
        Message::new(1, MessageType::Bitfield, Some(vec![])),
        Message::new(4, MessageType::Bitfield, Some(vec![0; 3])),
        Message::new(13, MessageType::Request, Some(vec![0; 12])),
        Message::new(9, MessageType::Piece, Some(vec![0; 8])),
        Message::new(16393, MessageType::Piece, Some(vec![0; 16392])),
        Message::new(13, MessageType::Cancel, Some(vec![0; 12])),
        Message::new(3, MessageType::Port, Some(vec![0; 2])),
        Message::create_piece_request(1, 2, 3),
    ];
    for m in &good {
        assert!(m.conforms());
    }
    let bad = [
        Message::new(1, MessageType::KeepAlive, None),
        Message::new(0, MessageType::KeepAlive, Some(vec![])),
        Message::new(5, MessageType::Unchoke, None),
        Message::new(1, MessageType::Choke, Some(vec![])),
        Message::new(5, MessageType::Have, None),
        Message::new(4, MessageType::Have, Some(vec![0; 3])),
        Message::new(5, MessageType::Have, Some(vec![0; 5])),
        Message::new(2, MessageType::Bitfield, Some(vec![])),
        Message::new(0, MessageType::Bitfield, Some(vec![])),
        Message::new(13, MessageType::Request, Some(vec![0; 11])),
        Message::new(12, MessageType::Cancel, Some(vec![0; 11])),
        Message::new(8, MessageType::Piece, Some(vec![0; 7])),
        Message::new(7, MessageType::Piece, Some(vec![65, 66, 67])),
        Message::new(3, MessageType::Port, Some(vec![0; 3])),
    ];
    for m in &bad {
        assert!(!m.conforms());
    }
}

#[test]
fn kinds_say_what_is_done_about_them() {
    assert_eq!(ErrorKind::MetainfoInvalid.recovery(), Recovery::Fatal);
    assert_eq!(ErrorKind::PieceHashMismatch.recovery(), Recovery::RotatePeer);
    for kind in [
        ErrorKind::TrackerUnreachable,
        ErrorKind::TrackerProtocolError,
        ErrorKind::HandshakeRejected,
        ErrorKind::PeerProtocolError,
        ErrorKind::NoProgress,
        ErrorKind::IoError,
        ErrorKind::Canceled,
    ] {
        assert_eq!(kind.recovery(), Recovery::Retry);
    }
    assert_eq!(ErrorKind::MetainfoInvalid.exit_code(), Some(1));
    assert_eq!(ErrorKind::TrackerUnreachable.exit_code(), Some(2));
    assert_eq!(ErrorKind::NoProgress.exit_code(), Some(3));
    assert_eq!(ErrorKind::IoError.exit_code(), Some(4));
    for kind in [
        ErrorKind::TrackerProtocolError,
        ErrorKind::HandshakeRejected,
        ErrorKind::PeerProtocolError,
        ErrorKind::PieceHashMismatch,
        ErrorKind::Canceled,
    ] {
        assert_eq!(kind.exit_code(), None);
    }
}

#[test]
fn only_whole_handshakes_are_sendable() {
    let good = || Handshake::new(&[1; 20], String::from("-MY0001-123456654321")).unwrap();
    assert!(good().is_sendable());
    let mut h = good();
    h.p_str_len = 20;
    assert!(!h.is_sendable());
    let mut h = good();
    h.p_str = String::from("BitTorrent protocox");
    assert!(!h.is_sendable());
    let mut h = good();
    h.p_str = String::from("BitTorrent");
    assert!(!h.is_sendable());
    let mut h = good();
    h.reserved[7] = 1;
    assert!(!h.is_sendable());
    let mut h = good();
    h.info_hash.push(0);
    assert!(!h.is_sendable());
    let mut h = good();
    h.peer_id.push('x');
    assert!(!h.is_sendable());
}

#[test]
fn connection_ids_last_sixty_seconds() {
    assert_eq!(CONNECTION_LIFETIME, 60);
    let mut tracker = Tracker::new();
    assert!(!tracker.connection_usable(0));
    tracker.send_handshake(5).unwrap();
    let mut reply = vec![0, 0, 0, 0, 0, 0, 0, 5];
    reply.extend_from_slice(&77i64.to_be_bytes());
    assert_eq!(tracker.receive_handshake(&reply), Ok(77));
    assert!(tracker.connection_usable(0));
    assert!(tracker.connection_usable(59));
    assert!(!tracker.connection_usable(60));
    assert!(!tracker.connection_usable(u64::MAX));
    tracker.close();
    assert!(!tracker.connection_usable(0));
}

#[test]
fn sessions_wait_two_minutes_unless_told_otherwise() {
    assert_eq!(DEFAULT_IDLE_DEADLINE, 120);
    let mut peer =
        Peer::create_connection(PeerEndpoint { ip: [1, 2, 3, 4], port: 5 }, true).unwrap();
    assert_eq!(peer.idle_deadline(), 120);
    peer.set_idle_deadline(30);
    assert_eq!(peer.idle_deadline(), 30);
    assert!(peer.choking());
}
