use torrent_client::bitfield::Bitfield;

#[test]
fn new_bitfield_all_empty() {
    let bitfield = Bitfield::new(2); // 16 bits
    for i in 0..16 {
        assert!(!bitfield.has_piece(i));
    }
}

#[test]
fn set_and_check_piece() {
    let mut bf = Bitfield::new(2);
    bf.set_piece(3);
    bf.set_piece(10);

    assert!(bf.has_piece(3));
    assert!(!bf.has_piece(2));
    assert!(bf.has_piece(10));
}

#[test]
fn from_bytes_and_to_bytes() {
    let raw = vec![0b1010_0000];
    let bf = Bitfield::from_bytes(raw.clone());

    assert!(bf.has_piece(0));
    assert!(!bf.has_piece(1));
    assert!(bf.has_piece(2));
    assert!(!bf.has_piece(3));
    assert_eq!(bf.to_bytes(), raw);
}

#[test]
fn iter_and_iter_set() {
    let mut bf = Bitfield::new(1);
    bf.set_piece(0);
    bf.set_piece(3);
    bf.set_piece(7);

    let all: Vec<_> = bf.iter().into_iter().collect();
    assert_eq!(
        all,
        vec![
            (0, true),
            (1, false),
            (2, false),
            (3, true),
            (4, false),
            (5, false),
            (6, false),
            (7, true)
        ]
    );

    let set_indices: Vec<_> = bf.iter_set().into_iter().collect();
    assert_eq!(set_indices, vec![0, 3, 7]);
}

#[test]
fn set_piece_past_the_end_changes_nothing() {
    let mut bf = Bitfield::new(1);
    bf.set_piece(8);
    bf.set_piece(100);
    assert_eq!(bf.to_bytes(), vec![0]);
    assert!(!bf.has_piece(8));
}

#[test]
fn set_piece_keeps_other_bits() {
    let mut bf = Bitfield::from_bytes(vec![0b0100_0001, 0xff]);
    bf.set_piece(0);
    assert_eq!(bf.to_bytes(), vec![0b1100_0001, 0xff]);
    bf.set_piece(0);
    assert_eq!(bf.to_bytes(), vec![0b1100_0001, 0xff]);
    assert!(bf.has_piece(1) && bf.has_piece(7) && !bf.has_piece(2));
}

#[test]
fn empty_bitfield_iterates_nothing() {
    let bf = Bitfield::new(0);
    assert!(bf.iter().is_empty());
    assert!(bf.iter_set().is_empty());
    assert!(!bf.has_piece(0));
}
