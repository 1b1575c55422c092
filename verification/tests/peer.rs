use torrent_client::peer::parse_compact_peers;

#[test]
fn compact_peers_are_parsed() {
    let peers = parse_compact_peers(&[127, 0, 0, 1, 0x1A, 0xE1, 10, 0, 0, 2, 0, 80]).unwrap();
    assert_eq!(peers.len(), 2);
    assert_eq!(peers[0].ip, [127, 0, 0, 1]);
    assert_eq!(peers[0].port, 6881);
    assert_eq!(peers[1].ip, [10, 0, 0, 2]);
    assert_eq!(peers[1].port, 80);
    assert!(parse_compact_peers(&[]).unwrap().is_empty());
}

#[test]
fn compact_peers_of_wrong_length_are_invalid_data() {
    let err = parse_compact_peers(&[1, 2, 3, 4, 5]).unwrap_err();
    assert_eq!(err.kind(), std::io::ErrorKind::InvalidData);
    assert_eq!(
        err.to_string(),
        "Compact peer list length is not a multiple of 6"
    );
}
