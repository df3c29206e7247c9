use rusty_torrent::error::Error;
use rusty_torrent::handshake::Handshake;

#[test]
fn handshake_creation() {
    let info_hash: [u8; 20] = [1; 20];
    let peer_id = String::from("-MY0001-123456654321");

    match Handshake::new(&info_hash, peer_id.clone()) {
        Ok(handshake) => {
            assert_eq!(handshake.p_str_len, 19);
            assert_eq!(handshake.p_str, "BitTorrent protocol");
            assert_eq!(handshake.reserved, [0; 8]);
            assert_eq!(handshake.info_hash, info_hash.to_vec());
            assert_eq!(handshake.peer_id, peer_id);
        }
        Err(_) => panic!("Unexpected error creating handshake"),
    }
}

#[test]
fn handshake_creation_invalid_infohash() {
    let invalid_info_hash: [u8; 19] = [1; 19];
    let peer_id = String::from("-MY0001-123456654321");

    match Handshake::new(&invalid_info_hash, peer_id.clone()) {
        Err(err) => {
            assert_eq!(err, Error::InfoHashLength);
            assert_eq!(err.message(), "Incorrect infohash length");
        }
        Ok(_) => panic!("Expected an error creating handshake, but got Ok"),
    }
}

#[test]
fn handshake_creation_invalid_peer_id() {
    let info_hash: [u8; 20] = [1; 20];
    let invalid_peer_id = String::from("-INVALID");

    match Handshake::new(&info_hash, invalid_peer_id) {
        Err(err) => {
            assert_eq!(err, Error::PeerIdLength);
            assert_eq!(err.message(), "Incorrect Peer_Id Length");
        }
        Ok(_) => panic!("Expected an error creating handshake, but got Ok"),
    }
}

#[test]
fn handshake_to_buffer() {
    let info_hash: [u8; 20] = [1; 20];
    let peer_id = String::from("-MY0001-123456654321");
    let handshake = Handshake::new(&info_hash, peer_id).unwrap();
    let buffer = handshake.to_buffer();

    assert_eq!(buffer.len(), 68);
}

#[test]
fn handshake_from_buffer() {
    let info_hash: [u8; 20] = [1; 20];
    let peer_id = String::from("-MY0001-123456654321");
    let sent_handshake = Handshake::new(&info_hash, peer_id.clone()).unwrap();
    let buffer = sent_handshake.to_buffer();

    match Handshake::from_buffer(&buffer) {
        Ok(handshake) => assert_eq!(handshake.peer_id, peer_id),
        Err(err) => panic!("Unexpected error: {}", err.message()),
    }
}

#[test]
fn handshake_from_buffer_invalid_size() {
    let short_buffer: Vec<u8> = vec![0; 67]; // Invalid size
    match Handshake::from_buffer(&short_buffer) {
        Err(err) => {
            assert_eq!(err, Error::HandshakeTruncated);
            assert_eq!(err.message(), "buffer provided to handshake was too short");
        }
        Ok(_) => panic!("Expected an error, but got Ok"),
    }
}
