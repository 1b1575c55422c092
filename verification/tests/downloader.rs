use sha1::{Digest, Sha1};
use torrent_client::bitfield::Bitfield;
use torrent_client::downloader::{download_finished, Claim, NextStep, PieceOutcome, PieceTable};
use torrent_client::message::{Message, MessageId};
use torrent_client::peer_connection::{PieceDownload, VerifiedPiece};
use torrent_client::torrent::VerifiedTorrent;

fn sha1(data: &[u8]) -> [u8; 20] {
    let mut h = [0u8; 20];
    h.copy_from_slice(&Sha1::digest(data)[..]);
    h
}

/// Downloads a one-block piece of the given bytes through the session steps.
fn verified(data: &[u8]) -> VerifiedPiece {
    let hash = sha1(data);
    let torrent = VerifiedTorrent {
        announce: String::new(),
        info_hash: [0; 20],
        name: String::new(),
        piece_length: data.len() as u64,
        piece_hashes: vec![hash],
        total_size: data.len() as u64,
    };
    let mut bf = Bitfield::new(1);
    bf.set_piece(0);
    let mut d = PieceDownload::start(&Some(bf), &torrent, 0, false).unwrap();
    let _ = d.requests();
    let mut payload = vec![0u8; 8];
    payload.extend_from_slice(data);
    d.on_message(Message { id: Some(MessageId::Piece), payload }).unwrap();
    d.finish(&hash).unwrap()
}

#[test]
fn claims_first_needed_piece_the_peer_has() {
    let mut table = PieceTable::new(vec![[0; 20]; 4]);
    let bf = Bitfield::from_bytes(vec![0b0110_0000]);
    assert!(matches!(table.claim_next(&bf), Claim::Claimed(1)));
    assert!(matches!(table.claim_next(&bf), Claim::Claimed(2)));
    assert!(matches!(table.claim_next(&bf), Claim::Nothing));
    table.release(1);
    assert!(matches!(table.claim_next(&bf), Claim::Claimed(1)));
}

#[test]
fn announced_piece_past_the_table_is_out_of_range() {
    let mut table = PieceTable::new(vec![[0; 20]; 2]);
    let bf = Bitfield::from_bytes(vec![0b0010_0000]);
    assert!(matches!(table.claim_next(&bf), Claim::OutOfRange(2)));
}

#[test]
fn assemble_needs_every_piece() {
    let mut table = PieceTable::new(vec![sha1(&[1, 2]), sha1(&[3, 4])]);
    assert_eq!(table.len(), 2);
    assert!(table.store(1, verified(&[3, 4])));
    assert_eq!(table.assemble(), None);
    assert_eq!(table.downloaded_bytes(), Some(2));
    assert!(table.store(0, verified(&[1, 2])));
    assert_eq!(table.assemble(), Some(vec![1, 2, 3, 4]));
    assert_eq!(table.downloaded_bytes(), Some(4));
}

#[test]
fn a_piece_checked_against_another_hash_is_not_stored() {
    let mut table = PieceTable::new(vec![sha1(&[1, 2])]);
    let bf = Bitfield::from_bytes(vec![0b1000_0000]);
    assert!(matches!(table.claim_next(&bf), Claim::Claimed(0)));
    assert!(!table.store(0, verified(&[9, 9])));
    assert_eq!(table.downloaded_bytes(), Some(0));
    assert!(matches!(table.claim_next(&bf), Claim::Claimed(0)));
}

#[test]
fn settle_stores_or_frees_the_piece() {
    let mut table = PieceTable::new(vec![sha1(&[5, 6, 7]), sha1(&[8])]);
    let bf = Bitfield::from_bytes(vec![0b1100_0000]);
    assert!(matches!(table.claim_next(&bf), Claim::Claimed(0)));
    assert!(matches!(table.claim_next(&bf), Claim::Claimed(1)));
    assert!(matches!(
        table.settle(0, PieceOutcome::Downloaded(verified(&[5, 6, 7]))),
        NextStep::Continue(3)
    ));
    assert!(matches!(table.settle(1, PieceOutcome::TimedOut), NextStep::Pause));
    assert!(matches!(table.claim_next(&bf), Claim::Claimed(1)));
    assert!(matches!(table.settle(1, PieceOutcome::Failed), NextStep::Stop));
    assert!(matches!(table.claim_next(&bf), Claim::Claimed(1)));
    assert!(matches!(
        table.settle(1, PieceOutcome::Downloaded(verified(&[9]))),
        NextStep::Stop
    ));
    assert_eq!(table.downloaded_bytes(), Some(3));
}

#[test]
fn finished_when_all_bytes_arrived() {
    assert!(!download_finished(9, 10));
    assert!(download_finished(10, 10));
    assert!(download_finished(0, 0));
}

#[test]
fn a_reserved_piece_is_not_saved() {
    let mut table = PieceTable::new(vec![sha1(&[1])]);
    let bf = Bitfield::from_bytes(vec![0b1000_0000]);
    assert!(matches!(table.claim_next(&bf), Claim::Claimed(0)));
    assert_eq!(table.assemble(), None);
    assert_eq!(table.downloaded_bytes(), Some(0));
    assert!(matches!(table.claim_next(&bf), Claim::Nothing));
    assert!(matches!(
        table.settle(0, PieceOutcome::Downloaded(verified(&[1]))),
        NextStep::Continue(1)
    ));
    assert_eq!(table.assemble(), Some(vec![1]));
}
