use torrent_client::message::{Message, MessageError, MessageId};

#[test]
fn test_serialize_have_message() {
    let msg = Message {
        id: Some(MessageId::Have),
        payload: vec![0, 0, 0, 5], // Piece index 5
    };

    let bytes = msg.to_bytes();
    assert_eq!(
        bytes,
        vec![
            0, 0, 0, 5, // length = 5
            4, // MessageId::Have
            0, 0, 0, 5 // payload
        ]
    );

    let parsed = Message::from_bytes(&bytes).unwrap();
    assert_eq!(parsed, msg);
}

#[test]
fn test_serialize_keep_alive() {
    let msg = Message {
        id: None,
        payload: vec![],
    };

    let bytes = msg.to_bytes();
    assert_eq!(bytes, vec![0, 0, 0, 0]);

    let parsed = Message::from_bytes(&bytes).unwrap();
    assert_eq!(parsed, msg);
}

#[test]
fn test_parse_choke_message() {
    // 4-byte length = 1, id = 0 (Choke)
    let data = [0, 0, 0, 1, 0];
    let msg = Message::from_bytes(&data).unwrap();
    assert_eq!(msg.id, Some(MessageId::Choke));
    assert!(msg.payload.is_empty());
}

#[test]
fn test_parse_bitfield_message_with_payload() {
    // 4-byte length = 3, id = 5 (Bitfield), payload = [0b10101010, 0b11000000]
    let data = [0, 0, 0, 3, 5, 0b_1010_1010, 0b_1100_0000];
    let msg = Message::from_bytes(&data).unwrap();
    assert_eq!(msg.id, Some(MessageId::Bitfield));
    assert_eq!(msg.payload, vec![0b_1010_1010, 0b_1100_0000]);
}

#[test]
fn test_parse_have_message_with_payload() {
    // 4-byte length = 5, id = 4 (Have), payload = [0, 0, 0, 12]
    let data = [0, 0, 0, 5, 4, 0, 0, 0, 12];
    let msg = Message::from_bytes(&data).unwrap();
    assert_eq!(msg.id, Some(MessageId::Have));
    assert_eq!(msg.payload, vec![0, 0, 0, 12]);
}

#[test]
fn test_invalid_message_id() {
    let bytes = vec![0, 0, 0, 1, 99]; // 99 is invalid
    let result = Message::from_bytes(&bytes);
    match result {
        Err(MessageError::InvalidMessageId(99)) => {}
        _ => panic!("Expected InvalidMessageId error"),
    }
}

#[test]
fn test_too_short_data() {
    let result = Message::from_bytes(&[0, 0]); // too short
    assert!(matches!(result, Err(MessageError::InvalidLength)));
}

#[test]
fn test_incomplete_data() {
    let bytes = vec![0, 0, 0, 5, 4]; // length 5, but only 1 byte after header
    let result = Message::from_bytes(&bytes);
    assert!(matches!(result, Err(MessageError::IncompleteData)));
}

#[test]
fn request_and_have_encode_big_endian() {
    let req = Message::request(1, 0x4000, 0x0102_0304);
    assert_eq!(req.id, Some(MessageId::Request));
    assert_eq!(req.payload, vec![0, 0, 0, 1, 0, 0, 0x40, 0, 1, 2, 3, 4]);
    assert_eq!(
        req.to_bytes(),
        vec![0, 0, 0, 13, 6, 0, 0, 0, 1, 0, 0, 0x40, 0, 1, 2, 3, 4]
    );
    let have = Message::have(0xAABB_CCDD);
    assert_eq!(have.payload, vec![0xAA, 0xBB, 0xCC, 0xDD]);
    assert_eq!(Message::from_bytes(&have.to_bytes()).unwrap(), have);
}

#[test]
fn interested_and_keep_alive() {
    let i = Message::interested();
    assert_eq!(i.to_bytes(), vec![0, 0, 0, 1, 2]);
    assert_eq!(Message::keep_alive().to_bytes(), vec![0, 0, 0, 0]);
}

#[test]
fn payloadless_kind_drops_extra_bytes() {
    let msg = Message::from_bytes(&[0, 0, 0, 3, 1, 9, 9]).unwrap();
    assert_eq!(msg.id, Some(MessageId::Unchoke));
    assert!(msg.payload.is_empty());
    assert_eq!(msg.to_bytes(), vec![0, 0, 0, 1, 1]);
}

#[test]
fn zero_length_is_keep_alive_whatever_follows() {
    let msg = Message::from_bytes(&[0, 0, 0, 0, 7, 7]).unwrap();
    assert_eq!(msg, Message::keep_alive());
}

#[test]
fn too_much_data_is_incomplete() {
    assert!(matches!(
        Message::from_bytes(&[0, 0, 0, 1, 0, 0]),
        Err(MessageError::IncompleteData)
    ));
}

#[test]
fn parse_piece_payload_splits_fields() {
    let (index, begin, block) =
        Message::parse_piece_payload(&[0, 0, 0, 2, 0, 0, 0x40, 0, 7, 8]).unwrap();
    assert_eq!((index, begin, block), (2, 0x4000, vec![7, 8]));
    assert!(matches!(
        Message::parse_piece_payload(&[0; 7]),
        Err(MessageError::InvalidPayload)
    ));
    let (_, _, empty) = Message::parse_piece_payload(&[0; 8]).unwrap();
    assert!(empty.is_empty());
}

#[test]
fn from_frame_and_body_length() {
    assert_eq!(Message::body_length([0, 0, 1, 2]), 258);
    let msg = Message::from_frame([0, 0, 0, 3], &[5, 0xAA, 0xBB]).unwrap();
    assert_eq!(msg.id, Some(MessageId::Bitfield));
    assert_eq!(msg.payload, vec![0xAA, 0xBB]);
    assert_eq!(Message::from_frame([0, 0, 0, 0], &[]).unwrap(), Message::keep_alive());
}

#[test]
fn message_ids_and_codes() {
    for code in 0u8..=8 {
        let id = MessageId::from_u8(code).unwrap();
        assert_eq!(id.code(), code);
        assert_eq!(MessageId::try_from(code).unwrap(), id);
    }
    assert!(matches!(MessageId::from_u8(9), Err(MessageError::InvalidMessageId(9))));
}

#[test]
fn message_error_texts() {
    assert_eq!(
        MessageError::InvalidLength.to_string(),
        "Invalid message length (too short)"
    );
    assert_eq!(
        MessageError::IncompleteData.to_string(),
        "Not enogh data for declared length"
    );
    assert_eq!(
        MessageError::InvalidMessageId(99).to_string(),
        "Invalid message ID: 99"
    );
    assert_eq!(
        MessageError::InvalidPayload.to_string(),
        "Invalid payload (too short)"
    );
    let io = std::io::Error::new(std::io::ErrorKind::Other, "boom");
    assert_eq!(
        MessageError::from(io).to_string(),
        "Error while reading message from TcpStream: boom"
    );
}
