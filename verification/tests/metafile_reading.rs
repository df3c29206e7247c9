use rusty_torrent::bencode::{parse, Node};
use rusty_torrent::error::{Error, ErrorKind};
use rusty_torrent::torrent::{File, Torrent};
use serde_bencode::value::Value;
use sha1::{Digest, Sha1};

fn bstr(s: &[u8]) -> Vec<u8> {
    let mut out = format!("{}:", s.len()).into_bytes();
    out.extend_from_slice(s);
    out
}

fn entry(name: &str, value: &[u8]) -> Vec<u8> {
    let mut out = bstr(name.as_bytes());
    out.extend_from_slice(value);
    out
}

fn dict(entries: &[Vec<u8>]) -> Vec<u8> {
    let mut out = vec![b'd'];
    for e in entries {
        out.extend_from_slice(e);
    }
    out.push(b'e');
    out
}

fn number(n: i64) -> Vec<u8> {
    format!("i{}e", n).into_bytes()
}

fn single_file_info(extra: &[Vec<u8>]) -> Vec<u8> {
    let pieces = Sha1::digest(vec![0u8; 16384]);
    let mut entries = vec![
        entry("length", &number(16384)),
        entry("name", &bstr(b"t")),
        entry("piece length", &number(16384)),
        entry("pieces", &bstr(&pieces)),
    ];
    entries.extend_from_slice(extra);
    dict(&entries)
}

fn single_file_metafile(info: &[u8], extra: &[Vec<u8>]) -> Vec<u8> {
    let mut entries = vec![
        entry("announce", &bstr(b"udp://tracker.example.com:1337/announce")),
    ];
    entries.extend_from_slice(extra);
    entries.push(entry("info", info));
    dict(&entries)
}

#[test]
fn single_file_metafile_is_read() {
    let info = single_file_info(&[]);
    let torrent = Torrent::from_bytes(&single_file_metafile(&info, &[])).unwrap();
    assert_eq!(torrent.info.name, "t");
    assert_eq!(torrent.info.piece_length, 16384);
    assert_eq!(torrent.info.length, Some(16384));
    assert_eq!(torrent.info.files, None);
    assert_eq!(torrent.info.pieces.len(), 20);
    assert_eq!(
        torrent.announce,
        Some(String::from("udp://tracker.example.com:1337/announce"))
    );
    assert_eq!(torrent.announce_list, None);
    assert_eq!(torrent.info_bytes, info);
    assert_eq!(torrent.get_total_length(), Ok(16384));
    assert_eq!(torrent.piece_count(), 1);
    assert!(torrent.check_piece(&vec![0u8; 16384], 0));
    assert!(!torrent.check_piece(&vec![1u8; 16384], 0));
    assert!(!torrent.check_piece(&vec![0u8; 16384], 1));
    assert!(!torrent.check_piece(&vec![0u8; 16384], u32::MAX));
}

#[test]
fn info_hash_is_the_sha1_of_the_info_dictionary() {
    let info = single_file_info(&[]);
    let metafile = single_file_metafile(&info, &[]);
    let torrent = Torrent::from_bytes(&metafile).unwrap();
    assert_eq!(torrent.get_info_hash(), Sha1::digest(&info).to_vec());

    // The same through another decoder and encoder.
    let top: Value = serde_bencode::from_bytes(&metafile).unwrap();
    let reencoded = match top {
        Value::Dict(entries) => serde_bencode::to_bytes(entries.get(b"info".as_slice()).unwrap()).unwrap(),
        _ => panic!("the metafile is a dictionary"),
    };
    assert_eq!(reencoded, info);
    assert_eq!(torrent.get_info_hash(), Sha1::digest(&reencoded).to_vec());
}

#[test]
fn info_hash_of_known_bytes() {
    let mut torrent = Torrent::from_bytes(&single_file_metafile(&single_file_info(&[]), &[])).unwrap();
    torrent.info_bytes = vec![];
    assert_eq!(
        torrent.get_info_hash(),
        vec![
            0xda, 0x39, 0xa3, 0xee, 0x5e, 0x6b, 0x4b, 0x0d, 0x32, 0x55, 0xbf, 0xef, 0x95, 0x60,
            0x18, 0x90, 0xaf, 0xd8, 0x07, 0x09
        ]
    );
    torrent.info_bytes = b"abc".to_vec();
    assert_eq!(
        torrent.get_info_hash(),
        vec![
            0xa9, 0x99, 0x3e, 0x36, 0x47, 0x06, 0x81, 0x6a, 0xba, 0x3e, 0x25, 0x71, 0x78, 0x50,
            0xc2, 0x6c, 0x9c, 0xd0, 0xd8, 0x9d
        ]
    );
}

#[test]
fn unknown_key_outside_info_keeps_the_hash() {
    let info = single_file_info(&[]);
    let plain = Torrent::from_bytes(&single_file_metafile(&info, &[])).unwrap();
    let more = Torrent::from_bytes(&single_file_metafile(
        &info,
        &[
            entry("comment", &bstr(b"hello")),
            entry("creation date", &number(1_700_000_000)),
            entry("httpseeds", b"l4:seede"),
        ],
    ))
    .unwrap();
    assert_eq!(more, plain);
    assert_eq!(more.get_info_hash(), plain.get_info_hash());
}

#[test]
fn unknown_key_inside_info_changes_the_hash() {
    let plain_info = single_file_info(&[]);
    let private_info = single_file_info(&[entry("private", &number(1))]);
    let plain = Torrent::from_bytes(&single_file_metafile(&plain_info, &[])).unwrap();
    let private = Torrent::from_bytes(&single_file_metafile(&private_info, &[])).unwrap();
    assert_eq!(private.info, plain.info);
    assert_eq!(private.info_bytes, private_info);
    assert_ne!(private.info_bytes, plain.info_bytes);
    assert_ne!(private.get_info_hash(), plain.get_info_hash());
    assert_eq!(private.get_info_hash(), Sha1::digest(&private_info).to_vec());
}

#[test]
fn keys_are_hashed_in_the_order_in_which_they_stand() {
    let pieces = Sha1::digest(vec![0u8; 16384]);
    let info = dict(&[
        entry("pieces", &bstr(&pieces)),
        entry("name", &bstr(b"t")),
        entry("piece length", &number(16384)),
        entry("length", &number(16384)),
    ]);
    let torrent = Torrent::from_bytes(&single_file_metafile(&info, &[])).unwrap();
    assert_eq!(torrent.info_bytes, info);
    assert_eq!(torrent.get_info_hash(), Sha1::digest(&info).to_vec());
}

#[test]
fn multi_file_metafile_is_read() {
    let pieces = [Sha1::digest(b"abcd").to_vec(), Sha1::digest(b"ef").to_vec()].concat();
    let files = [
        b"l".to_vec(),
        dict(&[entry("length", &number(1)), entry("path", b"l1:a1:be")]),
        dict(&[entry("length", &number(5)), entry("path", b"l1:ce")]),
        b"e".to_vec(),
    ]
    .concat();
    let info = dict(&[
        entry("files", &files),
        entry("name", &bstr(b"dir")),
        entry("piece length", &number(4)),
        entry("pieces", &bstr(&pieces)),
    ]);
    let groups = [
        b"l".to_vec(),
        [b"l".to_vec(), bstr(b"udp://a:1/announce"), bstr(b"x"), b"e".to_vec()].concat(),
        [b"l".to_vec(), bstr(b"udp://b:2/announce"), b"e".to_vec()].concat(),
        b"e".to_vec(),
    ]
    .concat();
    let metafile = dict(&[entry("announce-list", &groups), entry("info", &info)]);
    let torrent = Torrent::from_bytes(&metafile).unwrap();
    assert_eq!(torrent.announce, None);
    assert_eq!(
        torrent.announce_list,
        Some(vec![
            vec![String::from("udp://a:1/announce"), String::from("x")],
            vec![String::from("udp://b:2/announce")],
        ])
    );
    assert_eq!(
        torrent.info.files,
        Some(vec![
            File { path: vec![String::from("a"), String::from("b")], length: 1 },
            File { path: vec![String::from("c")], length: 5 },
        ])
    );
    assert_eq!(torrent.info.length, None);
    assert_eq!(torrent.get_total_length(), Ok(6));
    assert_eq!(torrent.piece_count(), 2);
    assert!(torrent.check_piece(b"abcd", 0));
    assert!(torrent.check_piece(b"ef", 1));
    assert!(!torrent.check_piece(b"ef", 0));
}

fn with_info(entries: &[Vec<u8>]) -> Result<Torrent, Error> {
    Torrent::from_bytes(&dict(&[entry("info", &dict(entries))]))
}

#[test]
fn invalid_metafiles_are_rejected() {
    let pieces = bstr(&[0u8; 20]);
    let good = [
        entry("length", &number(4)),
        entry("name", &bstr(b"t")),
        entry("piece length", &number(4)),
        entry("pieces", &pieces),
    ];
    assert!(with_info(&good).is_ok());

    // Not bencoded, or more than one value.
    assert_eq!(Torrent::from_bytes(b""), Err(Error::MetainfoInvalid));
    assert_eq!(Torrent::from_bytes(b"hello"), Err(Error::MetainfoInvalid));
    let mut trailing = dict(&[entry("info", &dict(&good))]);
    trailing.push(b'e');
    assert_eq!(Torrent::from_bytes(&trailing), Err(Error::MetainfoInvalid));
    // No dictionary, or no info.
    assert_eq!(Torrent::from_bytes(b"le"), Err(Error::MetainfoInvalid));
    assert_eq!(Torrent::from_bytes(b"de"), Err(Error::MetainfoInvalid));
    assert_eq!(Torrent::from_bytes(b"d4:infoi1ee"), Err(Error::MetainfoInvalid));
    // A required key is missing.
    for skip in 1..4 {
        let mut entries = good.to_vec();
        entries.remove(skip);
        assert_eq!(with_info(&entries), Err(Error::MetainfoInvalid));
    }
    // Neither length nor files, or both.
    assert_eq!(with_info(&good[1..]), Err(Error::MetainfoInvalid));
    let mut both = vec![entry("files", &[b"l".to_vec(), dict(&[entry("length", &number(4)), entry("path", b"l1:ae")]), b"e".to_vec()].concat())];
    both.extend_from_slice(&good);
    assert_eq!(with_info(&both), Err(Error::MetainfoInvalid));
    // A key of the wrong kind.
    let mut name_is_int = good.to_vec();
    name_is_int[1] = entry("name", &number(1));
    assert_eq!(with_info(&name_is_int), Err(Error::MetainfoInvalid));
    let mut name_not_utf8 = good.to_vec();
    name_not_utf8[1] = entry("name", &bstr(&[0xff, 0xfe]));
    assert_eq!(with_info(&name_not_utf8), Err(Error::MetainfoInvalid));
    let mut length_is_text = good.to_vec();
    length_is_text[0] = entry("length", &bstr(b"4"));
    assert_eq!(with_info(&length_is_text), Err(Error::MetainfoInvalid));
    // Lengths that contradict each other.
    let mut negative = good.to_vec();
    negative[0] = entry("length", &number(-4));
    assert_eq!(with_info(&negative), Err(Error::MetainfoInvalid));
    let mut zero_piece_length = good.to_vec();
    zero_piece_length[2] = entry("piece length", &number(0));
    assert_eq!(with_info(&zero_piece_length), Err(Error::MetainfoInvalid));
    let mut too_long = good.to_vec();
    too_long[0] = entry("length", &number(5));
    assert_eq!(with_info(&too_long), Err(Error::MetainfoInvalid));
    let mut odd_pieces = good.to_vec();
    odd_pieces[3] = entry("pieces", &bstr(&[0u8; 21]));
    assert_eq!(with_info(&odd_pieces), Err(Error::MetainfoInvalid));
    let mut announce_is_list = dict(&[entry("announce", b"le"), entry("info", &dict(&good))]);
    assert_eq!(Torrent::from_bytes(&announce_is_list), Err(Error::MetainfoInvalid));
    announce_is_list.clear();
    assert_eq!(Error::MetainfoInvalid.kind(), ErrorKind::MetainfoInvalid);
}

#[test]
fn validate_holds_a_description_to_what_a_download_needs() {
    let torrent = with_info(&[
        entry("length", &number(4)),
        entry("name", &bstr(b"t")),
        entry("piece length", &number(4)),
        entry("pieces", &bstr(&[0u8; 20])),
    ])
    .unwrap();
    assert_eq!(torrent.validate(), Ok(()));
    let mut no_pieces = torrent.clone();
    no_pieces.info.pieces.clear();
    assert_eq!(no_pieces.validate(), Err(Error::MetainfoInvalid));
    let mut empty = no_pieces.clone();
    empty.info.length = Some(0);
    assert_eq!(empty.validate(), Ok(()));
    let mut huge_piece = torrent.clone();
    huge_piece.info.piece_length = 1 << 32;
    assert_eq!(huge_piece.validate(), Err(Error::MetainfoInvalid));
    let mut overflowing = torrent.clone();
    overflowing.info.length = None;
    overflowing.info.files = Some(vec![
        File { path: vec![String::from("a")], length: u64::MAX },
        File { path: vec![String::from("b")], length: 1 },
    ]);
    assert_eq!(overflowing.get_total_length(), Err(Error::MetainfoInvalid));
    assert_eq!(overflowing.validate(), Err(Error::MetainfoInvalid));
    let mut neither = torrent.clone();
    neither.info.length = None;
    assert_eq!(neither.get_total_length(), Err(Error::MetainfoInvalid));
}

#[test]
fn bencode_values_are_read() {
    assert_eq!(parse(b"i42e"), Some(Node::Int(42)));
    assert_eq!(parse(b"i0e"), Some(Node::Int(0)));
    assert_eq!(parse(b"i-7e"), Some(Node::Int(-7)));
    assert_eq!(parse(b"i9223372036854775807e"), Some(Node::Int(i64::MAX)));
    assert_eq!(parse(b"i-9223372036854775808e"), Some(Node::Int(i64::MIN)));
    assert_eq!(parse(b"4:spam"), Some(Node::Bytes(b"spam".to_vec())));
    assert_eq!(parse(b"0:"), Some(Node::Bytes(vec![])));
    assert_eq!(parse(b"le"), Some(Node::List(vec![])));
    assert_eq!(parse(b"de"), Some(Node::Dict(vec![])));
    assert_eq!(
        parse(b"l4:spami3elee"),
        Some(Node::List(vec![
            Node::Bytes(b"spam".to_vec()),
            Node::Int(3),
            Node::List(vec![]),
        ]))
    );
    assert_eq!(
        parse(b"d1:bi1e1:ad1:xleee"),
        Some(Node::Dict(vec![
            (b"b".to_vec(), Node::Int(1)),
            (b"a".to_vec(), Node::Dict(vec![(b"x".to_vec(), Node::List(vec![]))])),
        ]))
    );
}

#[test]
fn bencode_has_one_encoding_for_each_value() {
    for bad in [
        &b""[..],
        b"i",
        b"ie",
        b"i-e",
        b"i-0e",
        b"i03e",
        b"i00e",
        b"i+3e",
        b"i3",
        b"i3x",
        b"i9223372036854775808e",
        b"i-9223372036854775809e",
        b"i99999999999999999999999999e",
        b"4:spa",
        b"04:spam",
        b"4spam",
        b"-1:x",
        b"99999999999999999999999999:x",
        b"l",
        b"li1e",
        b"d",
        b"di1ei2ee",
        b"d1:ae",
        b"d1:a",
        b"e",
        b"x",
        b"i1ei2e",
        b"4:spamx",
    ] {
        assert_eq!(parse(bad), None);
    }
}

#[test]
fn bencode_nesting_is_limited() {
    let deep = |n: usize| {
        let mut buf = vec![b'l'; n];
        buf.extend(vec![b'e'; n]);
        buf
    };
    assert!(parse(&deep(64)).is_some());
    assert_eq!(parse(&deep(65)), None);
    assert_eq!(parse(&deep(10_000)), None);
}

#[test]
fn bencode_round_trips() {
    for text in [
        &b"i0e"[..],
        b"i-12345678901e",
        b"0:",
        b"11:hello world",
        b"le",
        b"de",
        b"l4:spami3elee",
        b"d1:bi1e1:ad1:xleee",
        b"d4:infod6:lengthi10e4:name1:tee",
    ] {
        let node = parse(text).unwrap();
        assert_eq!(node.encode(), text);
    }
    let node = Node::Dict(vec![
        (b"n".to_vec(), Node::Int(i64::MIN)),
        (b"list".to_vec(), Node::List(vec![Node::Bytes(vec![0, 255]), Node::Int(10)])),
    ]);
    let bytes = node.encode();
    assert_eq!(bytes, b"d1:ni-9223372036854775808e4:listl2:\x00\xffi10eee");
    assert_eq!(parse(&bytes), Some(node));
}

#[test]
fn bencode_agrees_with_another_encoder() {
    let value = Value::List(vec![
        Value::Int(-42),
        Value::Int(1_000_000),
        Value::Bytes(b"bytes \xff".to_vec()),
        Value::List(vec![Value::Bytes(vec![]), Value::Int(0)]),
    ]);
    let bytes = serde_bencode::to_bytes(&value).unwrap();
    let node = parse(&bytes).unwrap();
    assert_eq!(node.encode(), bytes);
    assert_eq!(
        node,
        Node::List(vec![
            Node::Int(-42),
            Node::Int(1_000_000),
            Node::Bytes(b"bytes \xff".to_vec()),
            Node::List(vec![Node::Bytes(vec![]), Node::Int(0)]),
        ])
    );
}

#[test]
fn dictionary_lookup_takes_the_first_entry() {
    let node = parse(b"d1:ai1e1:bi2e1:ai3ee").unwrap();
    assert_eq!(node.get(b"a"), Some(&Node::Int(1)));
    assert_eq!(node.get(b"b"), Some(&Node::Int(2)));
    assert_eq!(node.get(b"c"), None);
    assert_eq!(node.get(b"a").unwrap().as_int(), Some(1));
    assert_eq!(node.as_int(), None);
    assert_eq!(node.as_bytes(), None);
    assert_eq!(node.as_list(), None);
    assert_eq!(Node::Int(1).get(b"a"), None);
    assert_eq!(Node::Bytes(vec![1]).as_bytes(), Some(&vec![1]));
    assert_eq!(Node::List(vec![Node::Int(1)]).as_list(), Some(&vec![Node::Int(1)]));
}
