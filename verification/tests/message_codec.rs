use rusty_torrent::error::{Error, ErrorKind};
use rusty_torrent::frame::{FrameReader, DEFAULT_FRAME_LIMIT};
use rusty_torrent::message::{Message, MessageType};

#[test]
fn unchoke_with_length_five_round_trips() {
    let bytes = vec![0x00, 0x00, 0x00, 0x05, 0x01];
    let message = Message::from_buffer(&bytes).unwrap();
    assert_eq!(message.message_length, 5);
    assert_eq!(message.message_type, MessageType::Unchoke);
    assert_eq!(message.payload, None);
    assert_eq!(message.to_buffer(), Ok(bytes));
}

#[test]
fn keep_alive_round_trips() {
    let bytes = vec![0x00, 0x00, 0x00, 0x00];
    let message = Message::from_buffer(&bytes).unwrap();
    assert_eq!(message, Message::new(0, MessageType::KeepAlive, None));
    assert_eq!(message.to_buffer(), Ok(bytes));
}

#[test]
fn piece_request_bytes() {
    let request = Message::create_piece_request(42, 1024, 16384);
    assert_eq!(
        request.to_buffer(),
        Ok(vec![
            0x00, 0x00, 0x00, 0x0D, 0x06, 0x00, 0x00, 0x00, 0x2A, 0x00, 0x00, 0x04, 0x00, 0x00,
            0x00, 0x40, 0x00
        ])
    );
    assert_eq!(Message::create_request(42, 1024, 16384), request);
}

#[test]
fn every_type_decodes_and_encodes() {
    let cases: Vec<(Vec<u8>, Message)> = vec![
        (vec![0, 0, 0, 1, 0], Message::new(1, MessageType::Choke, None)),
        (vec![0, 0, 0, 1, 1], Message::new(1, MessageType::Unchoke, None)),
        (vec![0, 0, 0, 1, 2], Message::new(1, MessageType::Interested, None)),
        (vec![0, 0, 0, 1, 3], Message::new(1, MessageType::NotInterested, None)),
        (
            vec![0, 0, 0, 5, 4, 0, 0, 0, 9],
            Message::new(5, MessageType::Have, Some(vec![0, 0, 0, 9])),
        ),
        (
            vec![0, 0, 0, 3, 5, 0xf0, 0x80],
            Message::new(3, MessageType::Bitfield, Some(vec![0xf0, 0x80])),
        ),
        (
            vec![0, 0, 0, 13, 6, 0, 0, 0, 1, 0, 0, 0x40, 0, 0, 0, 0x40, 0],
            Message::new(13, MessageType::Request, Some(vec![0, 0, 0, 1, 0, 0, 0x40, 0, 0, 0, 0x40, 0])),
        ),
        (
            vec![0, 0, 0, 11, 7, 0, 0, 0, 1, 0, 0, 0, 0, 0xaa, 0xbb],
            Message::new(11, MessageType::Piece, Some(vec![0, 0, 0, 1, 0, 0, 0, 0, 0xaa, 0xbb])),
        ),
        (
            vec![0, 0, 0, 13, 8, 0, 0, 0, 1, 0, 0, 0x40, 0, 0, 0, 0x40, 0],
            Message::new(13, MessageType::Cancel, Some(vec![0, 0, 0, 1, 0, 0, 0x40, 0, 0, 0, 0x40, 0])),
        ),
        (vec![0, 0, 0, 3, 9, 0x1a, 0xe1], Message::new(3, MessageType::Port, Some(vec![0x1a, 0xe1]))),
    ];
    for (bytes, message) in cases {
        assert_eq!(Message::decode(&bytes), Ok(message.clone()));
        assert_eq!(message.to_buffer(), Ok(bytes));
    }
}

#[test]
fn decoding_ignores_what_follows_the_message() {
    let bytes = vec![0, 0, 0, 5, 4, 0, 0, 0, 9, 0xde, 0xad];
    assert_eq!(
        Message::decode(&bytes),
        Ok(Message::new(5, MessageType::Have, Some(vec![0, 0, 0, 9])))
    );
    let empty_payload = vec![0, 0, 0, 1, 5];
    assert_eq!(
        Message::decode(&empty_payload),
        Ok(Message::new(1, MessageType::Bitfield, Some(vec![])))
    );
}

#[test]
fn short_buffers_are_truncated() {
    assert_eq!(Message::decode(&[]), Err(Error::Truncated { have: 0, need: 4 }));
    assert_eq!(Message::decode(&[0, 0, 0]), Err(Error::Truncated { have: 3, need: 4 }));
    assert_eq!(Message::decode(&[0, 0, 0, 2]), Err(Error::Truncated { have: 4, need: 5 }));
    assert_eq!(
        Message::decode(&[0, 0, 0, 5, 4, 0, 0]),
        Err(Error::Truncated { have: 7, need: 9 })
    );
    assert_eq!(
        Message::decode(&[0, 0, 0, 5, 4, 0, 0]).unwrap_err().message(),
        "Invalid message length 7 expected 9"
    );
    assert_eq!(
        Message::decode(&[0xff, 0xff, 0xff, 0xff, 7]),
        Err(Error::Truncated { have: 5, need: 4_294_967_299 })
    );
    assert_eq!(
        Message::decode(&[0, 0, 0, 2]).unwrap_err().kind(),
        ErrorKind::PeerProtocolError
    );
}

#[test]
fn unknown_type_is_told_apart_from_truncation() {
    assert_eq!(Message::decode(&[0, 0, 0, 1, 10]), Err(Error::UnknownType(10)));
    assert_eq!(Message::decode(&[0, 0, 0, 9, 255]), Err(Error::UnknownType(255)));
    assert_eq!(Error::UnknownType(255).message(), "Invalid Message Type 255");
    assert_eq!(Error::UnknownType(10).kind(), ErrorKind::PeerProtocolError);
}

#[test]
fn payload_types_need_a_payload_to_encode() {
    for t in [
        MessageType::Have,
        MessageType::Bitfield,
        MessageType::Request,
        MessageType::Piece,
        MessageType::Cancel,
        MessageType::Port,
    ] {
        assert!(t.has_payload());
        assert_eq!(Message::new(1, t, None).to_buffer(), Err(Error::MissingPayload));
    }
    assert_eq!(
        Error::MissingPayload.message(),
        "Error you are trying to create a message that needs a payload with no payload"
    );
    for t in [
        MessageType::KeepAlive,
        MessageType::Choke,
        MessageType::Unchoke,
        MessageType::Interested,
        MessageType::NotInterested,
    ] {
        assert!(!t.has_payload());
    }
    assert_eq!(
        Message::new(1, MessageType::Interested, Some(vec![1, 2])).to_buffer(),
        Ok(vec![0, 0, 0, 1, 2])
    );
}

#[test]
fn type_ids_round_trip() {
    for id in 0u8..=9 {
        let t = MessageType::from_id(id).unwrap();
        assert_eq!(t.id(), Ok(id));
    }
    for id in 10u8..=255 {
        assert_eq!(MessageType::from_id(id), Err(Error::UnknownType(id)));
    }
    assert_eq!(MessageType::KeepAlive.id(), Err(Error::NoTypeId));
}

#[test]
fn clone_keeps_the_message() {
    let message = Message::new(4, MessageType::Piece, Some(vec![1, 2, 3]));
    assert_eq!(message.clone(), message);
    let bare = Message::new(1, MessageType::Choke, None);
    assert_eq!(bare.clone(), bare);
}

#[test]
fn number_of_messages_splits_by_length() {
    let mut buf = vec![];
    buf.extend_from_slice(&[0, 0, 0, 0]); // keep-alive
    buf.extend_from_slice(&[0, 0, 0, 1, 1]); // unchoke
    buf.extend_from_slice(&[0, 0, 0, 5, 4, 0, 0, 0, 7]); // have
    buf.extend_from_slice(&[0, 0, 0, 0]); // keep-alive
    buf.extend_from_slice(&[0, 0, 0, 9, 7]); // the start of a piece
    let (frames, count) = Message::number_of_messages(&buf);
    assert_eq!(count, 4);
    assert_eq!(
        frames,
        vec![
            vec![0, 0, 0, 0],
            vec![0, 0, 0, 1, 1],
            vec![0, 0, 0, 5, 4, 0, 0, 0, 7],
            vec![0, 0, 0, 0],
        ]
    );
    assert_eq!(Message::number_of_messages(&[]), (vec![], 0));
    assert_eq!(Message::number_of_messages(&[0, 0, 0]), (vec![], 0));
}

#[test]
fn frame_reader_yields_one_message_per_call() {
    let mut reader = FrameReader::new();
    assert_eq!(reader.next_message(), Ok(None));
    reader.push(&[0, 0, 0, 1, 1, 0, 0]);
    assert_eq!(reader.buffered(), 7);
    assert_eq!(
        reader.next_message(),
        Ok(Some(Message::new(1, MessageType::Unchoke, None)))
    );
    assert_eq!(reader.next_message(), Ok(None));
    reader.push(&[0, 5, 4, 0, 0]);
    assert_eq!(reader.next_message(), Ok(None));
    reader.push(&[0, 9, 0, 0, 0, 0]);
    assert_eq!(
        reader.next_message(),
        Ok(Some(Message::new(5, MessageType::Have, Some(vec![0, 0, 0, 9]))))
    );
    assert_eq!(
        reader.next_message(),
        Ok(Some(Message::new(0, MessageType::KeepAlive, None)))
    );
    assert_eq!(reader.next_message(), Ok(None));
    assert_eq!(reader.buffered(), 0);
}

#[test]
fn frame_reader_caps_the_length() {
    assert_eq!(DEFAULT_FRAME_LIMIT, 1024 * 1024);
    let mut reader = FrameReader::with_limit(16);
    reader.push(&[0, 0, 0, 17, 7]);
    assert_eq!(reader.next_frame(), Err(Error::FrameTooLarge));
    assert_eq!(reader.buffered(), 5);
    assert_eq!(Error::FrameTooLarge.kind(), ErrorKind::PeerProtocolError);

    let mut exact = FrameReader::with_limit(16);
    let mut frame = vec![0, 0, 0, 16, 5];
    frame.extend_from_slice(&[0xff; 15]);
    exact.push(&frame);
    assert_eq!(exact.next_frame(), Ok(Some(frame)));

    let mut default = FrameReader::new();
    default.push(&[0, 0x10, 0, 1, 7]);
    assert_eq!(default.next_message(), Err(Error::FrameTooLarge));
}

#[test]
fn frame_reader_takes_a_frame_that_does_not_decode() {
    let mut reader = FrameReader::new();
    reader.push(&[0, 0, 0, 1, 99, 0, 0, 0, 0]);
    assert_eq!(reader.next_message(), Err(Error::UnknownType(99)));
    assert_eq!(
        reader.next_message(),
        Ok(Some(Message::new(0, MessageType::KeepAlive, None)))
    );
}
