use cellular_automaton::codec::{decode, encode, GridIoError};
use cellular_automaton::grid::Grid;

fn sample(w: usize, h: usize) -> Grid {
    let mut g = Grid::new(w, h);
    for y in 0..h {
        for x in 0..w {
            g.set(x, y, ((x * 7 + y * 13) % 256) as u8);
        }
    }
    g
}

#[test]
fn new_grid_is_zero() {
    let g = Grid::new(4, 3);
    assert_eq!(g.width(), 4);
    assert_eq!(g.height(), 3);
    for y in 0..3 {
        for x in 0..4 {
            assert_eq!(g.get(x, y), 0);
        }
    }
}

#[test]
fn set_touches_one_cell() {
    let mut g = Grid::new(3, 3);
    g.set(2, 1, 9);
    assert_eq!(g.get(2, 1), 9);
    assert_eq!(g.as_slice()[1 * 3 + 2], 9);
    assert_eq!(g.as_slice().iter().filter(|&&v| v != 0).count(), 1);
}

#[test]
fn fill_overwrites_all() {
    let mut g = sample(5, 4);
    g.fill(3);
    assert!(g.as_slice().iter().all(|&v| v == 3));
}

#[test]
fn swap_exchanges_contents() {
    let mut a = Grid::new(2, 2);
    let mut b = Grid::new(2, 2);
    a.set(0, 0, 1);
    b.set(1, 1, 2);
    a.swap(&mut b);
    assert_eq!(a.get(1, 1), 2);
    assert_eq!(a.get(0, 0), 0);
    assert_eq!(b.get(0, 0), 1);
}

#[test]
fn encode_layout() {
    let mut g = Grid::new(2, 1);
    g.set(0, 0, 5);
    g.set(1, 0, 6);
    let bytes = encode(&g);
    assert_eq!(bytes, vec![b'C', b'A', b'G', b'R', 1, 2, 0, 0, 0, 1, 0, 0, 0, 5, 6]);
}

#[test]
fn round_trip_is_exact() {
    for &(w, h) in &[(1usize, 1usize), (3, 7), (40, 20), (300, 2)] {
        let g = sample(w, h);
        let back = decode(&encode(&g)).expect("decodes");
        assert_eq!(back.width(), w);
        assert_eq!(back.height(), h);
        assert_eq!(back.as_slice(), g.as_slice());
    }
}

#[test]
fn decode_rejects_bad_magic() {
    let mut bytes = encode(&sample(2, 2));
    bytes[0] = b'X';
    assert!(matches!(decode(&bytes), Err(GridIoError::BadMagic)));
}

#[test]
fn decode_rejects_bad_version() {
    let mut bytes = encode(&sample(2, 2));
    bytes[4] = 2;
    assert!(matches!(decode(&bytes), Err(GridIoError::UnsupportedVersion(2))));
}

#[test]
fn decode_rejects_zero_dimensions() {
    let bytes = vec![b'C', b'A', b'G', b'R', 1, 0, 0, 0, 0, 3, 0, 0, 0];
    assert!(matches!(decode(&bytes), Err(GridIoError::BadSize)));
    let bytes = vec![b'C', b'A', b'G', b'R', 1, 3, 0, 0, 0, 0, 0, 0, 0];
    assert!(matches!(decode(&bytes), Err(GridIoError::BadSize)));
}

#[test]
fn decode_rejects_truncated() {
    let bytes = encode(&sample(3, 3));
    assert!(matches!(decode(&bytes[..bytes.len() - 1]), Err(GridIoError::Io(_))));
    assert!(matches!(decode(&bytes[..10]), Err(GridIoError::Io(_))));
    assert!(matches!(decode(&bytes[..2]), Err(GridIoError::Io(_))));
    assert!(matches!(decode(&[]), Err(GridIoError::Io(_))));
}

#[test]
fn decode_short_read_is_unexpected_eof() {
    let bytes = encode(&sample(2, 2));
    match decode(&bytes[..14]) {
        Err(GridIoError::Io(e)) => assert_eq!(e.kind(), std::io::ErrorKind::UnexpectedEof),
        other => panic!("expected a short read, got {:?}", other.map(|g| g.width())),
    }
}

#[test]
fn decode_ignores_trailing_bytes() {
    let g = sample(2, 2);
    let mut bytes = encode(&g);
    bytes.push(42);
    let back = decode(&bytes).expect("decodes");
    assert_eq!(back.as_slice(), g.as_slice());
}
