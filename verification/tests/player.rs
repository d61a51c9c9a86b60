use chess_core::ai::{Color, CpuPlayer};
use chess_core::board::Board;

#[test]
fn level_is_clamped_from_above() {
    let p = CpuPlayer::new(Color::White, 15);
    assert_eq!(p.level(), 10);
    assert_eq!(p.depth(), 15);
    assert_eq!(p.skew(), 0);
}

#[test]
fn level_is_clamped_from_below() {
    let p = CpuPlayer::new(Color::White, -3);
    assert_eq!(p.level(), 1);
    assert_eq!(p.depth(), 2);
    assert_eq!(p.skew(), 4);
}

#[test]
fn depth_and_skew_follow_the_level_formulas() {
    // depth = level + max(level / 2, 1), skew = max(5 - level, 0).
    let expected = [
        (1, 2, 4),
        (2, 3, 3),
        (3, 4, 2),
        (4, 6, 1),
        (5, 7, 0),
        (6, 9, 0),
        (7, 10, 0),
        (8, 12, 0),
        (9, 13, 0),
        (10, 15, 0),
    ];
    for (level, depth, skew) in expected {
        let p = CpuPlayer::new(Color::Black, level);
        assert_eq!(p.level(), level);
        assert_eq!(p.depth(), depth);
        assert_eq!(p.skew(), skew);
    }
}

#[test]
fn player_keeps_its_color() {
    assert_eq!(CpuPlayer::new(Color::White, 5).color, Color::White);
    assert_eq!(CpuPlayer::new(Color::Black, 5).color, Color::Black);
}

#[test]
fn next_move_is_a_pass() {
    let p = CpuPlayer::new(Color::White, 10);
    let b = Board::default_position();
    assert_eq!(p.next_move(b), b);
    let mut other = Board::default_position();
    other.set(4, 4, chess_core::board::PieceType::WhiteQueen);
    assert_eq!(p.next_move(other), other);
}
