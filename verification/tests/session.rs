use sha1::{Digest, Sha1};
use torrent_client::bitfield::Bitfield;
use torrent_client::message::{Message, MessageError, MessageId};
use torrent_client::peer_connection::{bitfield_wait_step, BitfieldWait, ConnectionError, PieceDownload};
use torrent_client::piece_proggress::PieceProgress;
use torrent_client::torrent::VerifiedTorrent;

fn torrent(hash: [u8; 20]) -> VerifiedTorrent {
    VerifiedTorrent {
        announce: "http://tracker.local".to_string(),
        info_hash: [0; 20],
        name: "test".into(),
        piece_length: PieceProgress::BLOCK_SIZE as u64,
        piece_hashes: vec![hash],
        total_size: PieceProgress::BLOCK_SIZE as u64,
    }
}

fn piece_message(index: u32, begin: u32, block: &[u8]) -> Message {
    let mut payload = Vec::new();
    payload.extend_from_slice(&index.to_be_bytes());
    payload.extend_from_slice(&begin.to_be_bytes());
    payload.extend_from_slice(block);
    Message { id: Some(MessageId::Piece), payload }
}

#[test]
fn download_one_piece_through_the_session_steps() {
    let piece_data = vec![1u8; PieceProgress::BLOCK_SIZE];
    let mut hash_arr = [0u8; 20];
    hash_arr.copy_from_slice(&Sha1::digest(&piece_data)[..]);
    let t = torrent(hash_arr);
    let mut bitfield = Bitfield::new(1);
    bitfield.set_piece(0);

    let mut d = PieceDownload::start(&Some(bitfield), &t, 0, true).unwrap();
    assert!(!d.is_complete());
    assert!(!d.on_unchoke_wait(&Message::keep_alive()));
    assert!(d.on_unchoke_wait(&Message { id: Some(MessageId::Unchoke), payload: vec![] }));
    assert!(!d.is_choked);
    let reqs = d.requests();
    assert_eq!(reqs.len(), 1);
    assert_eq!(reqs[0], Message::request(0, 0, PieceProgress::BLOCK_SIZE as u32));
    assert!(d.requests().is_empty());

    // a block of another piece is dropped
    let other = piece_message(1, 0, &piece_data);
    assert!(d.block_fits(&other));
    d.on_message(other).unwrap();
    assert!(!d.is_complete());

    let msg = piece_message(0, 0, &piece_data);
    assert!(d.block_fits(&msg));
    d.on_message(msg).unwrap();
    assert!(d.is_complete());
    let piece = d.finish(&hash_arr).unwrap();
    assert_eq!(piece.hash(), hash_arr);
    assert_eq!(piece.len(), piece_data.len());
    assert_eq!(piece.into_data(), piece_data);
}

#[test]
fn session_start_errors() {
    let t = torrent([0; 20]);
    match PieceDownload::start(&None, &t, 0, false) {
        Err(ConnectionError::Protocol(m)) => assert_eq!(m, "No bitfield"),
        _ => panic!("expected a protocol error"),
    }
    assert!(matches!(
        PieceDownload::start(&Some(Bitfield::new(1)), &t, 0, false),
        Err(ConnectionError::PieceNotAvailable)
    ));
}

#[test]
fn session_message_handling() {
    let t = torrent([0; 20]);
    let mut bf = Bitfield::new(1);
    bf.set_piece(0);
    let mut d = PieceDownload::start(&Some(bf), &t, 0, false).unwrap();
    d.on_message(Message { id: Some(MessageId::Choke), payload: vec![] }).unwrap();
    assert!(d.is_choked);
    d.on_message(Message { id: Some(MessageId::Unchoke), payload: vec![] }).unwrap();
    assert!(!d.is_choked);
    d.on_message(Message::keep_alive()).unwrap();
    match d.on_message(Message::have(3)) {
        Err(ConnectionError::Protocol(m)) => assert_eq!(m, "Didnt get a piece"),
        _ => panic!("expected a protocol error"),
    }
    assert!(matches!(
        d.on_message(Message { id: Some(MessageId::Piece), payload: vec![0; 7] }),
        Err(ConnectionError::Message(MessageError::InvalidPayload))
    ));
    // an empty block at the very end of the piece has no slot
    assert!(!d.block_fits(&piece_message(0, PieceProgress::BLOCK_SIZE as u32, &[])));
}

#[test]
fn session_rejects_bad_hash() {
    let t = torrent([0; 20]);
    let mut bf = Bitfield::new(1);
    bf.set_piece(0);
    let d = PieceDownload::start(&Some(bf), &t, 0, false).unwrap();
    assert!(matches!(d.finish(&[0; 20]), Err(ConnectionError::InvalidHash)));
}

#[test]
fn waiting_for_the_bitfield() {
    match bitfield_wait_step(Message { id: Some(MessageId::Bitfield), payload: vec![0x80] }) {
        BitfieldWait::Received(bf) => assert!(bf.has_piece(0) && !bf.has_piece(1)),
        _ => panic!("expected the bitfield"),
    }
    assert!(matches!(
        bitfield_wait_step(Message { id: Some(MessageId::Unchoke), payload: vec![] }),
        BitfieldWait::Choked(false)
    ));
    assert!(matches!(
        bitfield_wait_step(Message { id: Some(MessageId::Choke), payload: vec![] }),
        BitfieldWait::Choked(true)
    ));
    assert!(matches!(
        bitfield_wait_step(Message::have(1)),
        BitfieldWait::Ignored(MessageId::Have)
    ));
    assert!(matches!(bitfield_wait_step(Message::keep_alive()), BitfieldWait::KeepAlive));
}

#[test]
fn connection_error_texts() {
    assert_eq!(ConnectionError::PieceNotAvailable.to_string(), "Piece not available from peer");
    assert_eq!(ConnectionError::PeerChoked.to_string(), "Peer is choked");
    assert_eq!(ConnectionError::InvalidHash.to_string(), "Invalid piece hash");
    assert_eq!(
        ConnectionError::Protocol("Timeout".to_string()).to_string(),
        "Protocol error: Timeout"
    );
    assert_eq!(
        ConnectionError::from(MessageError::InvalidLength).to_string(),
        "Message error: Invalid message length (too short)"
    );
}
