use rusty_torrent::torrent::{File, Info, Torrent};
use sha1::{Digest, Sha1};

#[test]
fn get_info_hash() {
    // Create a mock Torrent instance
    let torrent = Torrent {
        info: Info {
            name: String::from("test_torrent"),
            pieces: vec![],
            piece_length: 1024,
            length: Some(2048),
            files: None,
        },
        announce: Some(String::from("http://tracker.example.com/announce")),
        announce_list: None,
        info_bytes: vec![],
    };

    let result = torrent.get_info_hash();

    assert!(!result.is_empty());
}

#[test]
fn check_piece_valid() {
    let mut hasher = Sha1::new();
    hasher.update(vec![0; 1024]);
    let piece_hash: &[u8] = &hasher.finalize();

    // Create a mock Torrent instance
    let torrent = Torrent {
        info: Info {
            name: String::from("test_torrent"),
            pieces: piece_hash.into(), // Mock piece hashes
            piece_length: 1024,
            length: Some(2048),
            files: None,
        },
        announce: Some(String::from("http://tracker.example.com/announce")),
        announce_list: None,
        info_bytes: vec![],
    };

    // Mock a valid piece
    let piece = vec![0; 1024];

    let result = torrent.check_piece(&piece, 0);

    assert!(result);
}

#[test]
fn check_piece_invalid() {
    // Create a mock Torrent instance
    let torrent = Torrent {
        info: Info {
            name: String::from("test_torrent"),
            pieces: vec![0; 20], // Mock piece hashes
            piece_length: 1024,
            length: Some(2048),
            files: None,
        },
        announce: Some(String::from("http://tracker.example.com/announce")),
        announce_list: None,
        info_bytes: vec![],
    };

    // Mock an invalid piece
    let piece = vec![1; 1024];

    let result = torrent.check_piece(&piece, 0);

    assert!(!result);
}

#[test]
fn get_total_length_single_file() {
    // Create a mock Torrent instance with a single file
    let torrent = Torrent {
        info: Info {
            name: String::from("test_torrent"),
            pieces: vec![],
            piece_length: 1024,
            length: Some(2048),
            files: Some(vec![File {
                path: vec![String::from("test_file.txt")],
                length: 2048,
            }]),
        },
        announce: Some(String::from("http://tracker.example.com/announce")),
        announce_list: None,
        info_bytes: vec![],
    };

    let result = torrent.get_total_length();

    assert_eq!(result, Ok(2048));
}

#[test]
fn get_total_length_multiple_files() {
    // Create a mock Torrent instance with multiple files
    let torrent = Torrent {
        info: Info {
            name: String::from("test_torrent"),
            pieces: vec![],
            piece_length: 1024,
            length: None,
            files: Some(vec![
                File {
                    path: vec![String::from("file1.txt")],
                    length: 1024,
                },
                File {
                    path: vec![String::from("file2.txt")],
                    length: 2048,
                },
            ]),
        },
        announce: Some(String::from("http://tracker.example.com/announce")),
        announce_list: None,
        info_bytes: vec![],
    };

    let result = torrent.get_total_length();

    assert_eq!(result, Ok(3072));
}
