use torrent_client::handshake::{Handshake, HandshakeError, HANDSHAKE_LEN, PSTR_LEN};

#[test]
fn handshake_roundtrip() {
    let h = Handshake::new([7; 20], [9; 20]);
    assert_eq!(h.pstrlen, PSTR_LEN);
    assert_eq!(&h.pstr, b"BitTorrent protocol");
    let bytes = h.to_bytes();
    assert_eq!(bytes.len(), HANDSHAKE_LEN);
    assert_eq!(bytes[0], 19);
    assert_eq!(&bytes[1..20], b"BitTorrent protocol");
    assert_eq!(&bytes[20..28], &[0u8; 8]);
    assert_eq!(&bytes[28..48], &[7u8; 20]);
    assert_eq!(&bytes[48..68], &[9u8; 20]);
    let back = Handshake::from_bytes(bytes, [7; 20]).unwrap();
    assert_eq!(back.info_hash, [7; 20]);
    assert_eq!(back.peer_id, [9; 20]);
    assert_eq!(back.reserved, [0; 8]);
}

#[test]
fn handshake_rejects_wrong_hash_and_protocol() {
    let bytes = Handshake::new([1; 20], [2; 20]).to_bytes();
    assert!(matches!(
        Handshake::from_bytes(bytes, [3; 20]),
        Err(HandshakeError::InfoHashMismatch)
    ));
    let mut bad_len = bytes;
    bad_len[0] = 18;
    assert!(matches!(
        Handshake::from_bytes(bad_len, [1; 20]),
        Err(HandshakeError::ProtocolMismatch)
    ));
    let mut bad_pstr = bytes;
    bad_pstr[5] = b'X';
    assert!(matches!(
        Handshake::from_bytes(bad_pstr, [3; 20]),
        Err(HandshakeError::ProtocolMismatch)
    ));
}

#[test]
fn handshake_keeps_peer_reserved_bytes() {
    let mut bytes = Handshake::new([1; 20], [2; 20]).to_bytes();
    bytes[25] = 0x10;
    let h = Handshake::from_bytes(bytes, [1; 20]).unwrap();
    assert_eq!(h.reserved[5], 0x10);
    assert_eq!(h.to_bytes(), bytes);
}

#[test]
fn handshake_error_texts() {
    assert_eq!(
        HandshakeError::InfoHashMismatch.to_string(),
        "Peer's info_hash does not match the torrent's info_hash"
    );
    assert_eq!(
        HandshakeError::ProtocolMismatch.to_string(),
        "Peer did not respond with 'BitTorrent protocol'"
    );
    assert_eq!(
        HandshakeError::InvalidLength.to_string(),
        "Received handshake with incorrect length (must be 68 bytes)"
    );
    let io = std::io::Error::new(std::io::ErrorKind::Other, "closed");
    assert_eq!(
        HandshakeError::from(io).to_string(),
        "I/O error during handshake: closed"
    );
}
