use torrent_client::torrent::{
    BencodeInfo, BencodeTorrent, BencodeTorrentError, MultiFile, VerifiedTorrent,
};

fn info(pieces: Vec<u8>, length: Option<u64>, files: Option<Vec<MultiFile>>) -> BencodeInfo {
    BencodeInfo {
        name: "file".to_string(),
        piece_length: 16384,
        pieces,
        length,
        files,
    }
}

#[test]
fn piece_hashes_split_into_twenty_bytes() {
    let mut pieces = vec![1u8; 20];
    pieces.extend_from_slice(&[2u8; 20]);
    let hashes = info(pieces, Some(1), None).piece_hashes().unwrap();
    assert_eq!(hashes, vec![[1u8; 20], [2u8; 20]]);
    match info(vec![0; 21], Some(1), None).piece_hashes() {
        Err(BencodeTorrentError::InvalidMetadata(m)) => assert_eq!(
            m,
            "The length of the 'pieces' field is not a multiple of 20 bytes."
        ),
        _ => panic!("expected invalid metadata"),
    }
}

#[test]
fn total_size_of_single_and_multi_file() {
    assert_eq!(info(vec![], Some(42), None).total_size().unwrap(), 42);
    let files = vec![
        MultiFile { length: 10, path: vec!["a".to_string()] },
        MultiFile { length: 32, path: vec!["b".to_string()] },
    ];
    let multi = info(vec![], None, Some(files));
    assert!(multi.size_fits());
    assert_eq!(multi.total_size().unwrap(), 42);
    match info(vec![], None, None).total_size() {
        Err(BencodeTorrentError::InvalidMetadata(m)) => assert_eq!(
            m,
            "Torrent info dictionary is missing both 'length' and 'files' keys."
        ),
        _ => panic!("expected invalid metadata"),
    }
}

#[test]
fn size_fits_detects_overflow() {
    let files = vec![
        MultiFile { length: u64::MAX, path: vec![] },
        MultiFile { length: 1, path: vec![] },
    ];
    assert!(!info(vec![], None, Some(files)).size_fits());
    assert!(info(vec![], Some(u64::MAX), None).size_fits());
}

#[test]
fn verified_torrent_from_metadata() {
    let t = BencodeTorrent {
        announce: "http://tracker".to_string(),
        info: info(vec![5u8; 40], Some(20000), None),
        _creation_date: None,
        _comment: None,
        _created_by: None,
    };
    let v = VerifiedTorrent::from_metadata(t, b"abc").unwrap();
    assert_eq!(v.announce, "http://tracker");
    assert_eq!(v.name, "file");
    assert_eq!(v.total_size, 20000);
    assert_eq!(v.piece_hashes.len(), 2);
    assert_eq!(
        v.info_hash,
        [
            0xa9, 0x99, 0x3e, 0x36, 0x47, 0x06, 0x81, 0x6a, 0xba, 0x3e, 0x25, 0x71, 0x78, 0x50,
            0xc2, 0x6c, 0x9c, 0xd0, 0xd8, 0x9d
        ]
    );
    assert_eq!(v.piece_length(0), 16384);
    assert_eq!(v.piece_length(1), 20000 - 16384);
    assert_eq!(v.piece_length(2), 0);
}

#[test]
fn info_hash_is_sha1_of_bencoded_info() {
    assert_eq!(
        BencodeInfo::info_hash(b""),
        [
            0xda, 0x39, 0xa3, 0xee, 0x5e, 0x6b, 0x4b, 0x0d, 0x32, 0x55, 0xbf, 0xef, 0x95, 0x60,
            0x18, 0x90, 0xaf, 0xd8, 0x07, 0x09
        ]
    );
}
