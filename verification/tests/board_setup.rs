use chess_core::board::{Board, PieceType};

#[test]
fn default_position_back_ranks() {
    let b = Board::default_position();
    assert_eq!(b.at(0, 7), PieceType::WhiteRook);
    assert_eq!(b.at(7, 7), PieceType::WhiteRook);
    assert_eq!(b.at(1, 7), PieceType::WhiteKnight);
    assert_eq!(b.at(6, 7), PieceType::WhiteKnight);
    assert_eq!(b.at(2, 7), PieceType::WhiteBishop);
    assert_eq!(b.at(5, 7), PieceType::WhiteBishop);
    assert_eq!(b.at(3, 7), PieceType::WhiteQueen);
    assert_eq!(b.at(4, 7), PieceType::WhiteKing);
    assert_eq!(b.at(0, 0), PieceType::BlackRook);
    assert_eq!(b.at(7, 0), PieceType::BlackRook);
    assert_eq!(b.at(1, 0), PieceType::BlackKnight);
    assert_eq!(b.at(6, 0), PieceType::BlackKnight);
    assert_eq!(b.at(2, 0), PieceType::BlackBishop);
    assert_eq!(b.at(5, 0), PieceType::BlackBishop);
    assert_eq!(b.at(3, 0), PieceType::BlackQueen);
    assert_eq!(b.at(4, 0), PieceType::BlackKing);
}

#[test]
fn default_position_pawns_skip_h_file() {
    let b = Board::default_position();
    for x in 0..7 {
        assert_eq!(b.at(x, 6), PieceType::WhitePawn);
        assert_eq!(b.at(x, 1), PieceType::BlackPawn);
    }
    assert_eq!(b.at(7, 6), PieceType::Blank);
    assert_eq!(b.at(7, 1), PieceType::Blank);
}

#[test]
fn default_position_middle_is_blank() {
    let b = Board::default_position();
    for x in 0..8 {
        for y in 2..=5 {
            assert_eq!(b.at(x, y), PieceType::Blank);
        }
    }
}

#[test]
fn reads_outside_the_board_hit_the_sentinel() {
    let b = Board::default_position();
    assert_eq!(b.at(8, 0), PieceType::OffBoard);
    assert_eq!(b.at(0, 8), PieceType::OffBoard);
    assert_eq!(b.at(8, 8), PieceType::OffBoard);
    assert_eq!(b.at(100, 3), PieceType::OffBoard);
}

#[test]
fn writes_outside_the_board_are_absorbed() {
    let mut b = Board::default_position();
    b.set(8, 0, PieceType::WhiteQueen);
    b.set(3, 8, PieceType::WhiteQueen);
    b.set(42, 42, PieceType::WhiteQueen);
    assert_eq!(b, Board::default_position());
    assert_eq!(b.at(8, 0), PieceType::OffBoard);
}

#[test]
fn writes_inside_the_board_stick() {
    let mut b = Board::default_position();
    b.set(4, 4, PieceType::BlackQueen);
    assert_eq!(b.at(4, 4), PieceType::BlackQueen);
    assert_eq!(b.at(4, 3), PieceType::Blank);
    assert_eq!(b.at(4, 7), PieceType::WhiteKing);
}

#[test]
fn color_tags_of_pieces() {
    assert!(PieceType::WhitePawn.is_white());
    assert!(!PieceType::WhitePawn.is_black());
    assert!(PieceType::BlackQueen.is_black());
    assert!(!PieceType::BlackQueen.is_white());
    assert!(!PieceType::Blank.is_white());
    assert!(!PieceType::Blank.is_black());
    assert!(!PieceType::OffBoard.is_white());
    assert!(!PieceType::OffBoard.is_black());
}
