use chess_core::board::coords_from_an;

#[test]
fn algebraic_coords_round_trip() {
    assert_eq!(coords_from_an(('e', 1)), (4, 0));
    assert_eq!(coords_from_an(('a', 8)), (0, 7));
    let files = ['a', 'b', 'c', 'd', 'e', 'f', 'g', 'h'];
    for (i, f) in files.iter().enumerate() {
        for rank in 1..=8i8 {
            assert_eq!(coords_from_an((*f, rank)), (i, (rank - 1) as usize));
            let upper = f.to_ascii_uppercase();
            assert_eq!(coords_from_an((upper, rank)), (i, (rank - 1) as usize));
        }
    }
}

#[test]
fn unknown_file_letter_degrades_to_sentinel() {
    for rank in -3..=12i8 {
        assert_eq!(coords_from_an(('z', rank)).0, 8);
        assert_eq!(coords_from_an(('i', rank)).0, 8);
        assert_eq!(coords_from_an(('!', rank)).0, 8);
        assert_eq!(coords_from_an(('0', rank)).0, 8);
    }
}

#[test]
fn out_of_range_rank_degrades_to_sentinel() {
    assert_eq!(coords_from_an(('a', 0)).1, 8);
    assert_eq!(coords_from_an(('a', 9)).1, 8);
    assert_eq!(coords_from_an(('a', -5)).1, 8);
    assert_eq!(coords_from_an(('a', i8::MIN)).1, 8);
}
