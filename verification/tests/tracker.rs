use torrent_client::torrent::VerifiedTorrent;
use torrent_client::tracker::{build_tracker_url, percent_encode_bytes};

#[test]
fn test_build_tracker_url_encoding() {
    let info_hash_hex = "2ced861966e919e5ca9e35d27dc23e0b02fb7ff8";

    let peer_id_hex = "b1d07b04d15ad13b22b359757dbc6a563e89b296";

    let total_size = 821035008;
    let announce_url = "http://bttracker.debian.org:6969/announce".to_string();

    let info_hash_bytes: [u8; 20] = hex::decode(info_hash_hex)
        .unwrap()
        .try_into()
        .expect("Hex hash must be 20 bytes long");

    let peer_id_bytes: [u8; 20] = hex::decode(peer_id_hex)
        .unwrap()
        .try_into()
        .expect("Hex peer ID must be 20 bytes long");

    let mock_torrent = VerifiedTorrent {
        announce: announce_url,
        info_hash: info_hash_bytes,
        total_size: total_size,
        name: "test".to_string(),
        piece_length: 123,
        piece_hashes: [].to_vec(),
    };

    let expected_url = "http://bttracker.debian.org:6969/announce?info_hash=%2C%ED%86%19%66%E9%19%E5%CA%9E%35%D2%7D%C2%3E%0B%02%FB%7F%F8&peer_id=%B1%D0%7B%04%D1%5A%D1%3B%22%B3%59%75%7D%BC%6A%56%3E%89%B2%96&port=6881&uploaded=0&downloaded=0&left=821035008&compact=1&event=started";

    let result_url = build_tracker_url(&mock_torrent, &peer_id_bytes);

    assert_eq!(
        result_url, expected_url,
        "The generated tracker URL does not match the expected format and encoding."
    );
}

#[test]
fn percent_encoding_of_bytes() {
    assert_eq!(percent_encode_bytes(&[]), "");
    assert_eq!(percent_encode_bytes(&[0x00, 0x0f, 0xa0, 0xff]), "%00%0F%A0%FF");
}

#[test]
fn zero_size_is_left_zero() {
    let t = VerifiedTorrent {
        announce: "u".to_string(),
        info_hash: [0; 20],
        total_size: 0,
        name: String::new(),
        piece_length: 1,
        piece_hashes: vec![],
    };
    let url = build_tracker_url(&t, &[0xff; 20]);
    assert!(url.starts_with("u?info_hash=%00%00"));
    assert!(url.contains("&peer_id=%FF%FF"));
    assert!(url.ends_with("&left=0&compact=1&event=started"));
}
