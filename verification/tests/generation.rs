use chess_core::ai::Color;
use chess_core::board::{Board, PieceType};

/// The square the moving piece left: the one square that held a piece in the
/// parent and is blank in the successor.
fn origin_of(parent: &Board, succ: &Board) -> (usize, usize) {
    let mut found = None;
    for x in 0..8 {
        for y in 0..8 {
            if parent.at(x, y) != PieceType::Blank && succ.at(x, y) == PieceType::Blank {
                assert!(found.is_none(), "two origin squares in one successor");
                found = Some((x, y));
            }
        }
    }
    found.expect("successor without an origin square")
}

/// The successors whose moving piece left the given square.
fn successors_from(parent: &Board, moves: &[Board], from: (usize, usize)) -> Vec<Board> {
    moves
        .iter()
        .filter(|m| origin_of(parent, m) == from)
        .cloned()
        .collect()
}

#[test]
fn black_generation_is_empty() {
    let b = Board::default_position();
    assert!(b.generate_positions(Color::Black).is_empty());
}

#[test]
fn generation_is_stable_and_leaves_the_board_alone() {
    let b = Board::default_position();
    let first = b.generate_positions(Color::White);
    let second = b.generate_positions(Color::White);
    assert_eq!(first, second);
    assert_eq!(b, Board::default_position());
}

#[test]
fn default_position_moves_come_from_pawns_knights_and_the_h_rook() {
    let b = Board::default_position();
    let moves = b.generate_positions(Color::White);
    // Seven pawns with two forward moves each, two knights with two jumps
    // each, and the h-file rook, which the missing h-pawn leaves an open ray
    // toward Black's rook: six blank steps and the capture.
    assert_eq!(moves.len(), 14 + 4 + 7);
    for m in &moves {
        let from = origin_of(&b, m);
        let pawn_start = from.1 == 6 && from.0 <= 6;
        let knight = from == (1, 7) || from == (6, 7);
        let h_rook = from == (7, 7);
        assert!(pawn_start || knight || h_rook, "unexpected origin {:?}", from);
    }
    // The a-file rook is walled in by its pawn and knight and never moves.
    assert!(successors_from(&b, &moves, (0, 7)).is_empty());
    for m in &moves {
        assert_eq!(m.at(0, 7), PieceType::WhiteRook);
    }
}

#[test]
fn knights_jump_over_the_pawn_wall() {
    let b = Board::default_position();
    let moves = b.generate_positions(Color::White);
    let left = successors_from(&b, &moves, (1, 7));
    assert_eq!(left.len(), 2);
    assert!(left.iter().any(|m| m.at(0, 5) == PieceType::WhiteKnight));
    assert!(left.iter().any(|m| m.at(2, 5) == PieceType::WhiteKnight));
    let right = successors_from(&b, &moves, (6, 7));
    assert_eq!(right.len(), 2);
    assert!(right.iter().any(|m| m.at(5, 5) == PieceType::WhiteKnight));
    assert!(right.iter().any(|m| m.at(7, 5) == PieceType::WhiteKnight));
}

#[test]
fn pawn_with_open_road_has_single_and_double_step() {
    let b = Board::default_position();
    let moves = b.generate_positions(Color::White);
    let pawn_moves = successors_from(&b, &moves, (3, 6));
    assert_eq!(pawn_moves.len(), 2);
    assert!(pawn_moves.iter().any(|m| m.at(3, 5) == PieceType::WhitePawn
        && m.at(3, 4) == PieceType::Blank));
    assert!(pawn_moves.iter().any(|m| m.at(3, 4) == PieceType::WhitePawn
        && m.at(3, 5) == PieceType::Blank));
}

#[test]
fn pawn_with_blocked_double_step_has_only_the_single_step() {
    let mut b = Board::default_position();
    b.set(3, 4, PieceType::BlackKnight);
    let moves = b.generate_positions(Color::White);
    let pawn_moves = successors_from(&b, &moves, (3, 6));
    assert_eq!(pawn_moves.len(), 1);
    assert_eq!(pawn_moves[0].at(3, 5), PieceType::WhitePawn);
    assert_eq!(pawn_moves[0].at(3, 6), PieceType::Blank);
    assert_eq!(pawn_moves[0].at(3, 4), PieceType::BlackKnight);
}

#[test]
fn pawn_with_blocked_single_step_stays_put() {
    let mut b = Board::default_position();
    b.set(3, 5, PieceType::BlackKnight);
    let moves = b.generate_positions(Color::White);
    // The single step is blocked and the double step needs both squares
    // blank, so the d-pawn has no move at all; its neighbors each gain a
    // diagonal capture of the blocker on top of their two forward steps.
    assert!(successors_from(&b, &moves, (3, 6)).is_empty());
    let c_pawn = successors_from(&b, &moves, (2, 6));
    assert_eq!(c_pawn.len(), 3);
    assert!(c_pawn.iter().any(|m| m.at(3, 5) == PieceType::WhitePawn));
    let e_pawn = successors_from(&b, &moves, (4, 6));
    assert_eq!(e_pawn.len(), 3);
    assert!(e_pawn.iter().any(|m| m.at(3, 5) == PieceType::WhitePawn));
}

#[test]
fn pawns_capture_diagonally() {
    let mut b = Board::default_position();
    b.set(2, 5, PieceType::BlackPawn);
    let moves = b.generate_positions(Color::White);
    // The d-pawn captures toward the a-file, the b-pawn toward the h-file;
    // each also keeps its single and double step.
    let d_pawn = successors_from(&b, &moves, (3, 6));
    assert_eq!(d_pawn.len(), 3);
    assert!(d_pawn.iter().any(|m| m.at(2, 5) == PieceType::WhitePawn));
    let b_pawn = successors_from(&b, &moves, (1, 6));
    assert_eq!(b_pawn.len(), 3);
    assert!(b_pawn.iter().any(|m| m.at(2, 5) == PieceType::WhitePawn));
    // The c-pawn gained nothing: its forward square now holds the enemy pawn.
    let c_pawn = successors_from(&b, &moves, (2, 6));
    assert!(c_pawn.is_empty());
}

#[test]
fn rook_captures_first_enemy_and_stops_there() {
    let mut b = Board::default_position();
    b.set(7, 4, PieceType::BlackPawn);
    let moves = b.generate_positions(Color::White);
    let rook_moves = successors_from(&b, &moves, (7, 7));
    // Two blank steps up the h-file, then the capture; nothing beyond it.
    assert_eq!(rook_moves.len(), 3);
    assert!(rook_moves.iter().any(|m| m.at(7, 6) == PieceType::WhiteRook));
    assert!(rook_moves.iter().any(|m| m.at(7, 5) == PieceType::WhiteRook));
    assert!(rook_moves.iter().any(|m| m.at(7, 4) == PieceType::WhiteRook));
    for m in &rook_moves {
        for y in 0..4 {
            assert_ne!(m.at(7, y), PieceType::WhiteRook);
        }
    }
}

#[test]
fn rook_ray_is_closed_by_a_friendly_piece_without_a_capture() {
    let mut b = Board::default_position();
    b.set(7, 4, PieceType::WhiteKing);
    let moves = b.generate_positions(Color::White);
    let rook_moves = successors_from(&b, &moves, (7, 7));
    // Two blank steps up the h-file; the friendly piece closes the ray and is
    // never landed on.
    assert_eq!(rook_moves.len(), 2);
    for m in &rook_moves {
        assert_eq!(m.at(7, 4), PieceType::WhiteKing);
    }
}

#[test]
fn knight_captures_an_enemy_on_its_target_square() {
    let mut b = Board::default_position();
    b.set(0, 5, PieceType::BlackPawn);
    let moves = b.generate_positions(Color::White);
    let knight_moves = successors_from(&b, &moves, (1, 7));
    assert_eq!(knight_moves.len(), 2);
    assert!(knight_moves.iter().any(|m| m.at(0, 5) == PieceType::WhiteKnight));
}

#[test]
fn knight_never_lands_on_its_own_pieces() {
    let mut b = Board::default_position();
    b.set(0, 5, PieceType::WhitePawn);
    b.set(2, 5, PieceType::WhitePawn);
    let moves = b.generate_positions(Color::White);
    assert!(successors_from(&b, &moves, (1, 7)).is_empty());
}
