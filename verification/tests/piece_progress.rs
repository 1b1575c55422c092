use torrent_client::piece_proggress::PieceProgress;

#[test]
fn test_new_initial_state() {
    let progress = PieceProgress::new(0, 32 * 1024);
    assert_eq!(progress.index, 0);
    assert_eq!(progress.total_length, 32 * 1024);
    assert_eq!(progress.received, 0);
    assert!(!progress.is_complete());
}

#[test]
fn test_mark_block_updates_state() {
    let mut progress = PieceProgress::new(0, 32 * 1024);

    let block_data = vec![1u8; PieceProgress::BLOCK_SIZE];
    progress.mark_block(0, &block_data);

    assert_eq!(progress.received, PieceProgress::BLOCK_SIZE);
    assert_eq!(&progress.data[..PieceProgress::BLOCK_SIZE], &block_data[..]);
}

#[test]
fn test_next_requests_does_not_repeat() {
    let mut progress = PieceProgress::new(0, 64 * 1024);

    let requests = progress.next_requests(2);
    assert_eq!(requests.len(), 2);
    assert_eq!(progress.requested_blocks[0], true);
    assert_eq!(progress.requested_blocks[1], true);

    let next = progress.next_requests(2);
    assert_eq!(next.len(), 2);
    assert_eq!(progress.requested_blocks[2], true);
    assert_eq!(progress.requested_blocks[3], true);
}

#[test]
fn test_is_complete() {
    let mut progress = PieceProgress::new(0, 2 * PieceProgress::BLOCK_SIZE);
    let block_data = vec![0xFF; PieceProgress::BLOCK_SIZE];

    progress.mark_block(0, &block_data);
    assert!(!progress.is_complete());

    progress.mark_block(PieceProgress::BLOCK_SIZE, &block_data);
    assert!(progress.is_complete());
}

#[test]
fn new_counts_a_short_last_block() {
    let p = PieceProgress::new(3, 2 * PieceProgress::BLOCK_SIZE + 1);
    assert_eq!(p.received_blocks.len(), 3);
    assert_eq!(p.requested_blocks, vec![false; 3]);
    assert_eq!(p.data.len(), 2 * PieceProgress::BLOCK_SIZE + 1);
    assert_eq!(p.block_size, PieceProgress::BLOCK_SIZE);
    assert_eq!(PieceProgress::new(0, 0).received_blocks.len(), 0);
}

#[test]
fn next_requests_offsets_and_short_last_length() {
    let mut p = PieceProgress::new(0, 2 * PieceProgress::BLOCK_SIZE + 100);
    let reqs = p.next_requests(PieceProgress::MAX_PIPELINE);
    assert_eq!(reqs, vec![(0, 16384), (16384, 16384), (32768, 100)]);
    assert!(p.next_requests(5).is_empty());
}

#[test]
fn next_requests_zero_still_hands_out_one() {
    let mut p = PieceProgress::new(0, 3 * PieceProgress::BLOCK_SIZE);
    assert_eq!(p.next_requests(0), vec![(0, 16384)]);
    assert_eq!(p.requested_blocks, vec![true, false, false]);
}

#[test]
fn next_requests_skips_received_blocks() {
    let mut p = PieceProgress::new(0, 3 * PieceProgress::BLOCK_SIZE);
    p.mark_block(0, &[1, 2, 3]);
    assert_eq!(p.next_requests(5), vec![(16384, 16384), (32768, 16384)]);
}

#[test]
fn mark_block_rejects_repeats_and_overflowing_blocks() {
    let mut p = PieceProgress::new(0, 20);
    p.mark_block(2, &[9, 9]);
    assert_eq!(p.received, 2);
    assert_eq!(&p.data[..5], &[0, 0, 9, 9, 0]);
    // same block slot: ignored
    p.mark_block(10, &[5]);
    assert_eq!(p.received, 2);
    assert_eq!(p.data[10], 0);
    // does not fit: ignored
    let mut q = PieceProgress::new(0, 20);
    q.mark_block(15, &[1; 6]);
    assert_eq!(q.received, 0);
    assert!(q.received_blocks.iter().all(|b| !b));
}

#[test]
fn verify_checks_sha1() {
    let mut p = PieceProgress::new(0, 3);
    p.mark_block(0, b"abc");
    let expected: [u8; 20] = [
        0xa9, 0x99, 0x3e, 0x36, 0x47, 0x06, 0x81, 0x6a, 0xba, 0x3e, 0x25, 0x71, 0x78, 0x50, 0xc2,
        0x6c, 0x9c, 0xd0, 0xd8, 0x9d,
    ];
    assert!(p.verify(&expected));
    assert!(!p.verify(&[0u8; 20]));
    assert!(!p.verify(&expected[..19]));
}
