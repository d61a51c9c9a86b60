//! Board representation: an 8x8 grid of piece values with total indexing and
//! an off-board sentinel, plus algebraic-coordinate conversion.

use vstd::prelude::*;

use crate::ai::Color;

verus! {

/// A square's content: one of twelve colored pieces, an empty square, or the
/// off-board sentinel returned for any coordinate outside the board.
#[derive(Clone, Copy, PartialEq, Eq, Structural, Debug)]
pub enum PieceType {
    WhitePawn,
    BlackPawn,
    WhiteBishop,
    BlackBishop,
    WhiteKnight,
    BlackKnight,
    WhiteRook,
    BlackRook,
    WhiteKing,
    BlackKing,
    WhiteQueen,
    BlackQueen,
    Blank,
    OffBoard,
}

impl PieceType {
    /// A piece is white exactly when it carries the White tag; `Blank` and
    /// `OffBoard` carry no color at all.
    pub open spec fn spec_is_white(self) -> bool {
        match self {
            PieceType::WhitePawn
            | PieceType::WhiteBishop
            | PieceType::WhiteKnight
            | PieceType::WhiteRook
            | PieceType::WhiteKing
            | PieceType::WhiteQueen => true,
            _ => false,
        }
    }

    /// A piece is black exactly when it carries the Black tag; `Blank` and
    /// `OffBoard` carry no color at all.
    pub open spec fn spec_is_black(self) -> bool {
        match self {
            PieceType::BlackPawn
            | PieceType::BlackBishop
            | PieceType::BlackKnight
            | PieceType::BlackRook
            | PieceType::BlackKing
            | PieceType::BlackQueen => true,
            _ => false,
        }
    }

    pub fn is_white(&self) -> (r: bool)
        ensures
            r == self.spec_is_white(),
    {
        match self {
            PieceType::WhitePawn
            | PieceType::WhiteBishop
            | PieceType::WhiteKnight
            | PieceType::WhiteRook
            | PieceType::WhiteKing
            | PieceType::WhiteQueen => true,
            _ => false,
        }
    }

    pub fn is_black(&self) -> (r: bool)
        ensures
            r == self.spec_is_black(),
    {
        match self {
            PieceType::BlackPawn
            | PieceType::BlackBishop
            | PieceType::BlackKnight
            | PieceType::BlackRook
            | PieceType::BlackKing
            | PieceType::BlackQueen => true,
            _ => false,
        }
    }
}

/// An 8x8 chess position addressed by zero-based `(file, rank)` pairs.
///
/// A `Board` is a plain value: copying it copies the whole position, and the
/// move generator explores by producing fresh copies rather than mutating in
/// place. Reads outside the 0..8 x 0..8 range return `PieceType::OffBoard`,
/// and writes outside that range are absorbed, so indexing is total. In
/// particular the one-past-the-end index 8 is sentinel-only: it never aliases
/// a real square.
#[verifier::ext_equal]
#[derive(Clone, Copy, PartialEq, Eq, Debug)]
pub struct Board {
    pieces: [PieceType; 64],
}

impl Board {
    /// The content of square `(x, y)`: the stored piece inside the board,
    /// the off-board sentinel everywhere else.
    pub closed spec fn spec_at(self, x: int, y: int) -> PieceType {
        if 0 <= x < 8 && 0 <= y < 8 {
            self.pieces[x + 8 * y]
        } else {
            PieceType::OffBoard
        }
    }

    /// The board with `p` written at `(x, y)`; a write outside the board is
    /// absorbed and leaves the position unchanged.
    pub closed spec fn spec_set(self, x: int, y: int, p: PieceType) -> Board {
        if 0 <= x < 8 && 0 <= y < 8 {
            Board { pieces: vstd::array::spec_array_update(self.pieces, x + 8 * y, p) }
        } else {
            self
        }
    }

    pub fn at(&self, x: usize, y: usize) -> (r: PieceType)
        ensures
            r == self.spec_at(x as int, y as int),
    {
        if x < 8 && y < 8 {
            self.pieces[x + 8 * y]
        } else {
            PieceType::OffBoard
        }
    }

    pub fn set(&mut self, x: usize, y: usize, p: PieceType)
        ensures
            *final(self) == old(self).spec_set(x as int, y as int, p),
    {
        if x < 8 && y < 8 {
            self.pieces[x + 8 * y] = p;
            proof {
                assert(*self =~= old(self).spec_set(x as int, y as int, p));
            }
        }
    }
}

/// Writing one square changes that square and nothing else; a write outside
/// the board changes nothing.
pub broadcast proof fn lemma_set_at(b: Board, x: int, y: int, p: PieceType, i: int, j: int)
    ensures
        #[trigger] b.spec_set(x, y, p).spec_at(i, j) == if 0 <= x < 8 && 0 <= y < 8 && i == x && j
            == y {
            p
        } else {
            b.spec_at(i, j)
        },
{
}

/// The content of square `(x, y)` in the standard starting position, with the
/// off-board sentinel outside the board.
///
/// White occupies rank indices 6 (pawns) and 7 (back rank), Black rank
/// indices 1 (pawns) and 0 (back rank). The pawn loop deliberately stops
/// before the h-file, so squares `(7, 6)` and `(7, 1)` stay blank: the gap is
/// a long-standing quirk of this engine's setup and is kept, not corrected.
pub open spec fn initial_piece(x: int, y: int) -> PieceType {
    if !(0 <= x < 8 && 0 <= y < 8) {
        PieceType::OffBoard
    } else if y == 6 && x < 7 {
        PieceType::WhitePawn
    } else if y == 1 && x < 7 {
        PieceType::BlackPawn
    } else if y == 7 {
        initial_back_rank_white(x)
    } else if y == 0 {
        initial_back_rank_black(x)
    } else {
        PieceType::Blank
    }
}

/// White's back rank by file: rooks, knights, bishops around the queen on
/// file 3 and the king on file 4.
pub open spec fn initial_back_rank_white(x: int) -> PieceType {
    if x == 0 || x == 7 {
        PieceType::WhiteRook
    } else if x == 1 || x == 6 {
        PieceType::WhiteKnight
    } else if x == 2 || x == 5 {
        PieceType::WhiteBishop
    } else if x == 3 {
        PieceType::WhiteQueen
    } else {
        PieceType::WhiteKing
    }
}

/// Black's back rank by file, mirroring White's.
pub open spec fn initial_back_rank_black(x: int) -> PieceType {
    if x == 0 || x == 7 {
        PieceType::BlackRook
    } else if x == 1 || x == 6 {
        PieceType::BlackKnight
    } else if x == 2 || x == 5 {
        PieceType::BlackBishop
    } else if x == 3 {
        PieceType::BlackQueen
    } else {
        PieceType::BlackKing
    }
}

impl Board {
    /// Builds the standard starting position, square for square the layout
    /// `initial_piece` describes.
    pub fn default_position() -> (r: Board)
        ensures
            forall|x: int, y: int| r.spec_at(x, y) == initial_piece(x, y),
    {
        proof {
            broadcast use lemma_set_at;

        }
        let mut b = Board { pieces: [PieceType::Blank; 64] };
        assert forall|x: int, y: int|
            b.spec_at(x, y) == if 0 <= x < 8 && 0 <= y < 8 {
                PieceType::Blank
            } else {
                PieceType::OffBoard
            } by {};

        let mut i: usize = 0;
        while i < 7
            invariant
                i <= 7,
                forall|x: int, y: int|
                    b.spec_at(x, y) == if 0 <= x < i && y == 6 {
                        PieceType::WhitePawn
                    } else if 0 <= x < i && y == 1 {
                        PieceType::BlackPawn
                    } else if 0 <= x < 8 && 0 <= y < 8 {
                        PieceType::Blank
                    } else {
                        PieceType::OffBoard
                    },
            decreases 7 - i,
        {
            proof {
                broadcast use lemma_set_at;

            }
            b.set(i, 6, PieceType::WhitePawn);
            b.set(i, 1, PieceType::BlackPawn);
            i += 1;
        }

        let c = coords_from_an(('a', 8));
        b.set(c.0, c.1, PieceType::WhiteRook);
        let c = coords_from_an(('h', 8));
        b.set(c.0, c.1, PieceType::WhiteRook);
        let c = coords_from_an(('b', 8));
        b.set(c.0, c.1, PieceType::WhiteKnight);
        let c = coords_from_an(('g', 8));
        b.set(c.0, c.1, PieceType::WhiteKnight);
        let c = coords_from_an(('c', 8));
        b.set(c.0, c.1, PieceType::WhiteBishop);
        let c = coords_from_an(('f', 8));
        b.set(c.0, c.1, PieceType::WhiteBishop);
        let c = coords_from_an(('d', 8));
        b.set(c.0, c.1, PieceType::WhiteQueen);
        let c = coords_from_an(('e', 8));
        b.set(c.0, c.1, PieceType::WhiteKing);

        let c = coords_from_an(('a', 1));
        b.set(c.0, c.1, PieceType::BlackRook);
        let c = coords_from_an(('h', 1));
        b.set(c.0, c.1, PieceType::BlackRook);
        let c = coords_from_an(('b', 1));
        b.set(c.0, c.1, PieceType::BlackKnight);
        let c = coords_from_an(('g', 1));
        b.set(c.0, c.1, PieceType::BlackKnight);
        let c = coords_from_an(('c', 1));
        b.set(c.0, c.1, PieceType::BlackBishop);
        let c = coords_from_an(('f', 1));
        b.set(c.0, c.1, PieceType::BlackBishop);
        let c = coords_from_an(('d', 1));
        b.set(c.0, c.1, PieceType::BlackQueen);
        let c = coords_from_an(('e', 1));
        b.set(c.0, c.1, PieceType::BlackKing);

        proof {
            assert forall|x: int, y: int| b.spec_at(x, y) == initial_piece(x, y) by {};
        }
        b
    }
}

/// The successor of `b` after the piece `p` moves from `(fx, fy)` to
/// `(tx, ty)`: the origin square becomes blank and the destination holds the
/// moving piece, capture or not.
pub open spec fn spec_move(b: Board, fx: int, fy: int, tx: int, ty: int, p: PieceType) -> Board {
    b.spec_set(fx, fy, PieceType::Blank).spec_set(tx, ty, p)
}

/// White may land on a square exactly when it is blank or holds an enemy
/// piece; a same-color occupant or the off-board sentinel refuses the move.
pub open spec fn white_dest_open(p: PieceType) -> bool {
    p == PieceType::Blank || p.spec_is_black()
}

/// The single-step move of `p` from `(x, y)` by the offset `(dx, dy)`: one
/// successor when the destination is open to White, none otherwise.
pub open spec fn white_step_moves(b: Board, x: int, y: int, dx: int, dy: int, p: PieceType) -> Seq<
    Board,
> {
    if white_dest_open(b.spec_at(x + dx, y + dy)) {
        seq![spec_move(b, x, y, x + dx, y + dy, p)]
    } else {
        Seq::empty()
    }
}

/// A white pawn's moves from `(x, y)`: one step forward onto a blank square;
/// two steps from the starting rank index 6 when both forward squares are
/// blank; and a diagonal capture to either forward corner that holds an enemy
/// piece. White moves toward decreasing rank index. No en passant and no
/// promotion.
pub open spec fn white_pawn_moves(b: Board, x: int, y: int) -> Seq<Board> {
    (if b.spec_at(x, y - 1) == PieceType::Blank {
        seq![spec_move(b, x, y, x, y - 1, PieceType::WhitePawn)]
    } else {
        Seq::empty()
    }) + (if y == 6 && b.spec_at(x, y - 1) == PieceType::Blank && b.spec_at(x, y - 2)
        == PieceType::Blank {
        seq![spec_move(b, x, y, x, y - 2, PieceType::WhitePawn)]
    } else {
        Seq::empty()
    }) + (if b.spec_at(x - 1, y - 1).spec_is_black() {
        seq![spec_move(b, x, y, x - 1, y - 1, PieceType::WhitePawn)]
    } else {
        Seq::empty()
    }) + (if b.spec_at(x + 1, y - 1).spec_is_black() {
        seq![spec_move(b, x, y, x + 1, y - 1, PieceType::WhitePawn)]
    } else {
        Seq::empty()
    })
}

/// A white knight's moves from `(x, y)`: each of the eight L-shaped offsets
/// whose destination is blank or holds an enemy piece, the wide offsets
/// first.
pub open spec fn white_knight_moves(b: Board, x: int, y: int) -> Seq<Board> {
    white_knight_wide_moves(b, x, y) + white_knight_tall_moves(b, x, y)
}

/// The knight moves by the four offsets that step two files and one rank.
pub open spec fn white_knight_wide_moves(b: Board, x: int, y: int) -> Seq<Board> {
    white_step_moves(b, x, y, -2, -1, PieceType::WhiteKnight) + white_step_moves(
        b,
        x,
        y,
        2,
        1,
        PieceType::WhiteKnight,
    ) + white_step_moves(b, x, y, -2, 1, PieceType::WhiteKnight) + white_step_moves(
        b,
        x,
        y,
        2,
        -1,
        PieceType::WhiteKnight,
    )
}

/// The knight moves by the four offsets that step one file and two ranks.
pub open spec fn white_knight_tall_moves(b: Board, x: int, y: int) -> Seq<Board> {
    white_step_moves(b, x, y, -1, -2, PieceType::WhiteKnight) + white_step_moves(
        b,
        x,
        y,
        1,
        2,
        PieceType::WhiteKnight,
    ) + white_step_moves(b, x, y, -1, 2, PieceType::WhiteKnight) + white_step_moves(
        b,
        x,
        y,
        1,
        -2,
        PieceType::WhiteKnight,
    )
}

/// A white rook's moves along one ray, starting `i` steps out from `(x, y)`
/// in direction `(dx, dy)`. A blank square yields a move and the ray goes on;
/// an enemy square yields the capture and closes the ray; anything else — a
/// same-color piece or the board edge — closes the ray at once.
pub open spec fn white_rook_ray(b: Board, x: int, y: int, dx: int, dy: int, i: int) -> Seq<Board>
    decreases 8 - i,
{
    if i < 1 || i >= 8 {
        Seq::empty()
    } else {
        let t = b.spec_at(x + dx * i, y + dy * i);
        if t == PieceType::Blank {
            seq![spec_move(b, x, y, x + dx * i, y + dy * i, PieceType::WhiteRook)]
                + white_rook_ray(b, x, y, dx, dy, i + 1)
        } else if t.spec_is_black() {
            seq![spec_move(b, x, y, x + dx * i, y + dy * i, PieceType::WhiteRook)]
        } else {
            Seq::empty()
        }
    }
}

/// The content of the square `j` steps out from `(x, y)` in direction
/// `(dx, dy)`.
pub open spec fn ray_square(b: Board, x: int, y: int, dx: int, dy: int, j: int) -> PieceType {
    b.spec_at(x + dx * j, y + dy * j)
}

/// A white rook's moves from `(x, y)`: the four orthogonal rays in turn.
pub open spec fn white_rook_moves(b: Board, x: int, y: int) -> Seq<Board> {
    white_rook_ray(b, x, y, 0, -1, 1) + white_rook_ray(b, x, y, 0, 1, 1) + white_rook_ray(
        b,
        x,
        y,
        -1,
        0,
        1,
    ) + white_rook_ray(b, x, y, 1, 0, 1)
}

/// White's moves from the single square `(x, y)`: pawns, knights and rooks
/// move by their rules; every other occupant — bishops, queens and kings are
/// not implemented — contributes nothing.
pub open spec fn white_square_moves(b: Board, x: int, y: int) -> Seq<Board> {
    match b.spec_at(x, y) {
        PieceType::WhitePawn => white_pawn_moves(b, x, y),
        PieceType::WhiteKnight => white_knight_moves(b, x, y),
        PieceType::WhiteRook => white_rook_moves(b, x, y),
        _ => Seq::empty(),
    }
}

/// White's moves from every square at or after `(x, y)` in file-major order:
/// square `(x, y)` first, then the rest of file `x`, then the later files.
pub open spec fn white_moves_from(b: Board, x: int, y: int) -> Seq<Board>
    decreases 8 - x, 8 - y,
{
    if x < 0 || x >= 8 || y < 0 {
        Seq::empty()
    } else if y >= 8 {
        white_moves_from(b, x + 1, 0)
    } else {
        white_square_moves(b, x, y) + white_moves_from(b, x, y + 1)
    }
}

/// Every pseudo-legal successor of `b` with the given side to move: White's
/// moves square by square in file-major order. Move generation for Black is
/// not implemented, so Black has no successors; the gap is kept rather than
/// silently mirrored.
pub open spec fn spec_generate_positions(b: Board, color_to_move: Color) -> Seq<Board> {
    match color_to_move {
        Color::White => white_moves_from(b, 0, 0),
        Color::Black => Seq::empty(),
    }
}

/// The zero-based file index of an algebraic file letter: `a`/`A` through
/// `h`/`H` map to 0 through 7; any other character degrades to the off-board
/// index 8.
pub open spec fn spec_file_index(c: char) -> int {
    if c == 'a' || c == 'A' {
        0
    } else if c == 'b' || c == 'B' {
        1
    } else if c == 'c' || c == 'C' {
        2
    } else if c == 'd' || c == 'D' {
        3
    } else if c == 'e' || c == 'E' {
        4
    } else if c == 'f' || c == 'F' {
        5
    } else if c == 'g' || c == 'G' {
        6
    } else if c == 'h' || c == 'H' {
        7
    } else {
        8
    }
}

/// The zero-based rank index of an algebraic rank number: 1 through 8 map to
/// 0 through 7; any other number degrades to the off-board index 8.
pub open spec fn spec_rank_index(r: i8) -> int {
    if 1 <= r <= 8 {
        r - 1
    } else {
        8
    }
}

impl Board {
    /// Reads a square addressed with signed coordinates, so that move offsets
    /// may step past any edge of the board and land on the sentinel.
    fn at_i(&self, x: i32, y: i32) -> (r: PieceType)
        ensures
            r == self.spec_at(x as int, y as int),
    {
        if 0 <= x && x < 8 && 0 <= y && y < 8 {
            self.pieces[(x as usize) + 8 * (y as usize)]
        } else {
            PieceType::OffBoard
        }
    }

    /// Copies the board and plays one move on the copy.
    fn apply_move(&self, fx: usize, fy: usize, tx: usize, ty: usize, p: PieceType) -> (r: Board)
        requires
            fx < 8,
            fy < 8,
            tx < 8,
            ty < 8,
        ensures
            r == spec_move(*self, fx as int, fy as int, tx as int, ty as int, p),
    {
        let mut tmp = *self;
        tmp.set(fx, fy, PieceType::Blank);
        tmp.set(tx, ty, p);
        tmp
    }

    /// Appends the single-step move of `p` by `(dx, dy)`, if its destination
    /// is open to White.
    fn push_step_move(&self, out: &mut Vec<Board>, x: usize, y: usize, dx: i32, dy: i32, p: PieceType)
        requires
            x < 8,
            y < 8,
            -2 <= dx <= 2,
            -2 <= dy <= 2,
        ensures
            final(out)@ == old(out)@ + white_step_moves(
                *self,
                x as int,
                y as int,
                dx as int,
                dy as int,
                p,
            ),
    {
        let tx = x as i32 + dx;
        let ty = y as i32 + dy;
        let t = self.at_i(tx, ty);
        if t == PieceType::Blank || t.is_black() {
            assert(0 <= tx && tx < 8 && 0 <= ty && ty < 8);
            out.push(self.apply_move(x, y, tx as usize, ty as usize, p));
        }
        proof {
            assert(out@ =~= old(out)@ + white_step_moves(
                *self,
                x as int,
                y as int,
                dx as int,
                dy as int,
                p,
            ));
        }
    }

    /// Appends a white pawn's moves from `(x, y)`.
    fn push_white_pawn_moves(&self, out: &mut Vec<Board>, x: usize, y: usize)
        requires
            x < 8,
            y < 8,
        ensures
            final(out)@ == old(out)@ + white_pawn_moves(*self, x as int, y as int),
    {
        let xi = x as i32;
        let yi = y as i32;
        let one_ahead = self.at_i(xi, yi - 1);
        if one_ahead == PieceType::Blank {
            assert(y >= 1);
            out.push(self.apply_move(x, y, x, y - 1, PieceType::WhitePawn));
        }
        if y == 6 && one_ahead == PieceType::Blank && self.at_i(xi, yi - 2) == PieceType::Blank {
            out.push(self.apply_move(x, y, x, y - 2, PieceType::WhitePawn));
        }
        if self.at_i(xi - 1, yi - 1).is_black() {
            assert(x >= 1 && y >= 1);
            out.push(self.apply_move(x, y, x - 1, y - 1, PieceType::WhitePawn));
        }
        if self.at_i(xi + 1, yi - 1).is_black() {
            assert(x + 1 < 8 && y >= 1);
            out.push(self.apply_move(x, y, x + 1, y - 1, PieceType::WhitePawn));
        }
        proof {
            assert(out@ =~= old(out)@ + white_pawn_moves(*self, x as int, y as int));
        }
    }

    /// Appends a white knight's moves from `(x, y)`: the eight L-shaped
    /// offsets in turn, wide offsets first.
    fn push_white_knight_moves(&self, out: &mut Vec<Board>, x: usize, y: usize)
        requires
            x < 8,
            y < 8,
        ensures
            final(out)@ == old(out)@ + white_knight_moves(*self, x as int, y as int),
    {
        self.push_white_knight_wide_moves(out, x, y);
        self.push_white_knight_tall_moves(out, x, y);
        proof {
            assert(out@ =~= old(out)@ + white_knight_moves(*self, x as int, y as int));
        }
    }

    /// Appends the knight moves that step two files and one rank.
    fn push_white_knight_wide_moves(&self, out: &mut Vec<Board>, x: usize, y: usize)
        requires
            x < 8,
            y < 8,
        ensures
            final(out)@ == old(out)@ + white_knight_wide_moves(*self, x as int, y as int),
    {
        self.push_step_move(out, x, y, -2, -1, PieceType::WhiteKnight);
        self.push_step_move(out, x, y, 2, 1, PieceType::WhiteKnight);
        self.push_step_move(out, x, y, -2, 1, PieceType::WhiteKnight);
        self.push_step_move(out, x, y, 2, -1, PieceType::WhiteKnight);
        proof {
            assert(out@ =~= old(out)@ + white_knight_wide_moves(*self, x as int, y as int));
        }
    }

    /// Appends the knight moves that step one file and two ranks.
    fn push_white_knight_tall_moves(&self, out: &mut Vec<Board>, x: usize, y: usize)
        requires
            x < 8,
            y < 8,
        ensures
            final(out)@ == old(out)@ + white_knight_tall_moves(*self, x as int, y as int),
    {
        self.push_step_move(out, x, y, -1, -2, PieceType::WhiteKnight);
        self.push_step_move(out, x, y, 1, 2, PieceType::WhiteKnight);
        self.push_step_move(out, x, y, -1, 2, PieceType::WhiteKnight);
        self.push_step_move(out, x, y, 1, -2, PieceType::WhiteKnight);
        proof {
            assert(out@ =~= old(out)@ + white_knight_tall_moves(*self, x as int, y as int));
        }
    }

    /// Appends a white rook's moves along the ray from `(x, y)` in direction
    /// `(dx, dy)`, square by square until the ray closes.
    fn push_rook_ray(&self, out: &mut Vec<Board>, x: usize, y: usize, dx: i32, dy: i32)
        requires
            x < 8,
            y < 8,
            -1 <= dx <= 1,
            -1 <= dy <= 1,
        ensures
            final(out)@ == old(out)@ + white_rook_ray(*self, x as int, y as int, dx as int, dy as int, 1),
    {
        let ghost out0 = out@;
        let mut i: i32 = 1;
        let mut open_ray = true;
        while open_ray && i < 8
            invariant
                1 <= i <= 8,
                x < 8,
                y < 8,
                -1 <= dx <= 1,
                -1 <= dy <= 1,
                open_ray ==> out@ + white_rook_ray(
                    *self,
                    x as int,
                    y as int,
                    dx as int,
                    dy as int,
                    i as int,
                ) == out0 + white_rook_ray(*self, x as int, y as int, dx as int, dy as int, 1),
                !open_ray ==> out@ == out0 + white_rook_ray(
                    *self,
                    x as int,
                    y as int,
                    dx as int,
                    dy as int,
                    1,
                ),
            decreases 8 - i,
        {
            proof {
                assert(-8 <= dx * i <= 8 && -8 <= dy * i <= 8) by (nonlinear_arith)
                    requires
                        -1 <= dx <= 1,
                        -1 <= dy <= 1,
                        1 <= i <= 8,
                ;
            }
            let tx = x as i32 + dx * i;
            let ty = y as i32 + dy * i;
            let t = self.at_i(tx, ty);
            let ghost pre = out@;
            if t == PieceType::Blank {
                assert(0 <= tx && tx < 8 && 0 <= ty && ty < 8);
                out.push(self.apply_move(x, y, tx as usize, ty as usize, PieceType::WhiteRook));
                proof {
                    assert(out@ + white_rook_ray(
                        *self,
                        x as int,
                        y as int,
                        dx as int,
                        dy as int,
                        i as int + 1,
                    ) =~= pre + white_rook_ray(
                        *self,
                        x as int,
                        y as int,
                        dx as int,
                        dy as int,
                        i as int,
                    ));
                }
            } else if t.is_black() {
                assert(0 <= tx && tx < 8 && 0 <= ty && ty < 8);
                out.push(self.apply_move(x, y, tx as usize, ty as usize, PieceType::WhiteRook));
                open_ray = false;
                proof {
                    assert(out@ =~= pre + white_rook_ray(
                        *self,
                        x as int,
                        y as int,
                        dx as int,
                        dy as int,
                        i as int,
                    ));
                }
            } else {
                open_ray = false;
                proof {
                    assert(out@ =~= pre + white_rook_ray(
                        *self,
                        x as int,
                        y as int,
                        dx as int,
                        dy as int,
                        i as int,
                    ));
                }
            }
            i = i + 1;
        }
        proof {
            if open_ray {
                assert(out@ + white_rook_ray(*self, x as int, y as int, dx as int, dy as int, 8)
                    =~= out@);
            }
        }
    }

    /// Appends a white rook's moves from `(x, y)`: the four orthogonal rays
    /// in turn.
    fn push_white_rook_moves(&self, out: &mut Vec<Board>, x: usize, y: usize)
        requires
            x < 8,
            y < 8,
        ensures
            final(out)@ == old(out)@ + white_rook_moves(*self, x as int, y as int),
    {
        self.push_rook_ray(out, x, y, 0, -1);
        self.push_rook_ray(out, x, y, 0, 1);
        self.push_rook_ray(out, x, y, -1, 0);
        self.push_rook_ray(out, x, y, 1, 0);
        proof {
            assert(out@ =~= old(out)@ + white_rook_moves(*self, x as int, y as int));
        }
    }

    /// Appends White's moves from the single square `(x, y)`.
    fn push_square_moves(&self, out: &mut Vec<Board>, x: usize, y: usize)
        requires
            x < 8,
            y < 8,
        ensures
            final(out)@ == old(out)@ + white_square_moves(*self, x as int, y as int),
    {
        match self.at(x, y) {
            PieceType::WhitePawn => self.push_white_pawn_moves(out, x, y),
            PieceType::WhiteKnight => self.push_white_knight_moves(out, x, y),
            PieceType::WhiteRook => self.push_white_rook_moves(out, x, y),
            _ => {
                proof {
                    assert(out@ =~= out@ + Seq::<Board>::empty());
                }
            },
        }
    }

    /// Generates every pseudo-legal successor position for the side to move:
    /// one fresh board per move, the input board untouched. The result is
    /// exactly `spec_generate_positions`, a function of the position and the
    /// color alone, so repeated calls agree. Black's generation is not
    /// implemented and yields no successors.
    pub fn generate_positions(&self, color_to_move: Color) -> (r: Vec<Board>)
        ensures
            r@ == spec_generate_positions(*self, color_to_move),
    {
        let mut out: Vec<Board> = Vec::new();
        match color_to_move {
            Color::White => {
                let mut x: usize = 0;
                while x < 8
                    invariant
                        x <= 8,
                        out@ + white_moves_from(*self, x as int, 0) == white_moves_from(
                            *self,
                            0,
                            0,
                        ),
                    decreases 8 - x,
                {
                    let mut y: usize = 0;
                    while y < 8
                        invariant
                            x < 8,
                            y <= 8,
                            out@ + white_moves_from(*self, x as int, y as int)
                                == white_moves_from(*self, 0, 0),
                        decreases 8 - y,
                    {
                        let ghost pre = out@;
                        self.push_square_moves(&mut out, x, y);
                        proof {
                            assert(out@ + white_moves_from(*self, x as int, y as int + 1)
                                =~= pre + white_moves_from(*self, x as int, y as int));
                        }
                        y += 1;
                    }
                    x += 1;
                }
                proof {
                    assert(out@ + white_moves_from(*self, 8, 0) =~= out@);
                }
            },
            Color::Black => {},
        }
        out
    }
}

proof fn lemma_add_contains_left(a: Seq<Board>, b: Seq<Board>, m: Board)
    requires
        a.contains(m),
    ensures
        (a + b).contains(m),
{
    let i = choose|i: int| 0 <= i < a.len() && a[i] == m;
    assert((a + b)[i] == m);
}

proof fn lemma_add_contains_right(a: Seq<Board>, b: Seq<Board>, m: Board)
    requires
        b.contains(m),
    ensures
        (a + b).contains(m),
{
    let i = choose|i: int| 0 <= i < b.len() && b[i] == m;
    assert((a + b)[a.len() + i] == m);
}

proof fn lemma_add_contains_split(a: Seq<Board>, b: Seq<Board>, m: Board)
    requires
        (a + b).contains(m),
    ensures
        a.contains(m) || b.contains(m),
{
    let i = choose|i: int| 0 <= i < (a + b).len() && (a + b)[i] == m;
    if i < a.len() {
        assert(a[i] == m);
    } else {
        assert(b[i - a.len()] == m);
    }
}

proof fn lemma_ray_move_blank(b: Board, x: int, y: int, dx: int, dy: int, i: int, m: Board, qx: int, qy: int)
    requires
        1 <= i <= 8,
        white_rook_ray(b, x, y, dx, dy, i).contains(m),
        !(qx == x && qy == y),
        m.spec_at(qx, qy) == PieceType::Blank,
    ensures
        b.spec_at(qx, qy) == PieceType::Blank,
    decreases 8 - i,
{
    broadcast use lemma_set_at;

    let tx = x + dx * i;
    let ty = y + dy * i;
    let head = spec_move(b, x, y, tx, ty, PieceType::WhiteRook);
    let rest = white_rook_ray(b, x, y, dx, dy, i + 1);
    if b.spec_at(tx, ty) == PieceType::Blank {
        lemma_add_contains_split(seq![head], rest, m);
        if m == head {
            assert(m.spec_at(tx, ty) == PieceType::WhiteRook);
        } else {
            lemma_ray_move_blank(b, x, y, dx, dy, i + 1, m, qx, qy);
        }
    } else {
        assert(m == head);
        assert(m.spec_at(tx, ty) == PieceType::WhiteRook);
    }
}

proof fn lemma_square_move_blank(b: Board, sx: int, sy: int, m: Board, qx: int, qy: int)
    requires
        0 <= sx < 8,
        0 <= sy < 8,
        white_square_moves(b, sx, sy).contains(m),
        !(qx == sx && qy == sy),
        m.spec_at(qx, qy) == PieceType::Blank,
    ensures
        b.spec_at(qx, qy) == PieceType::Blank,
{
    broadcast use lemma_set_at;

    match b.spec_at(sx, sy) {
        PieceType::WhitePawn => {
            let c1 = (if b.spec_at(sx, sy - 1) == PieceType::Blank {
                seq![spec_move(b, sx, sy, sx, sy - 1, PieceType::WhitePawn)]
            } else {
                Seq::<Board>::empty()
            });
            let c2 = (if sy == 6 && b.spec_at(sx, sy - 1) == PieceType::Blank && b.spec_at(
                sx,
                sy - 2,
            ) == PieceType::Blank {
                seq![spec_move(b, sx, sy, sx, sy - 2, PieceType::WhitePawn)]
            } else {
                Seq::<Board>::empty()
            });
            let c3 = (if b.spec_at(sx - 1, sy - 1).spec_is_black() {
                seq![spec_move(b, sx, sy, sx - 1, sy - 1, PieceType::WhitePawn)]
            } else {
                Seq::<Board>::empty()
            });
            let c4 = (if b.spec_at(sx + 1, sy - 1).spec_is_black() {
                seq![spec_move(b, sx, sy, sx + 1, sy - 1, PieceType::WhitePawn)]
            } else {
                Seq::<Board>::empty()
            });
            lemma_add_contains_split(c1 + c2 + c3, c4, m);
            if (c1 + c2 + c3).contains(m) {
                lemma_add_contains_split(c1 + c2, c3, m);
                if (c1 + c2).contains(m) {
                    lemma_add_contains_split(c1, c2, m);
                }
            }
        },
        PieceType::WhiteKnight => {
            lemma_add_contains_split(
                white_knight_wide_moves(b, sx, sy),
                white_knight_tall_moves(b, sx, sy),
                m,
            );
            if white_knight_wide_moves(b, sx, sy).contains(m) {
                let w1 = white_step_moves(b, sx, sy, -2, -1, PieceType::WhiteKnight);
                let w2 = white_step_moves(b, sx, sy, 2, 1, PieceType::WhiteKnight);
                let w3 = white_step_moves(b, sx, sy, -2, 1, PieceType::WhiteKnight);
                let w4 = white_step_moves(b, sx, sy, 2, -1, PieceType::WhiteKnight);
                lemma_add_contains_split(w1 + w2 + w3, w4, m);
                if (w1 + w2 + w3).contains(m) {
                    lemma_add_contains_split(w1 + w2, w3, m);
                    if (w1 + w2).contains(m) {
                        lemma_add_contains_split(w1, w2, m);
                    }
                }
            } else {
                let t1 = white_step_moves(b, sx, sy, -1, -2, PieceType::WhiteKnight);
                let t2 = white_step_moves(b, sx, sy, 1, 2, PieceType::WhiteKnight);
                let t3 = white_step_moves(b, sx, sy, -1, 2, PieceType::WhiteKnight);
                let t4 = white_step_moves(b, sx, sy, 1, -2, PieceType::WhiteKnight);
                lemma_add_contains_split(t1 + t2 + t3, t4, m);
                if (t1 + t2 + t3).contains(m) {
                    lemma_add_contains_split(t1 + t2, t3, m);
                    if (t1 + t2).contains(m) {
                        lemma_add_contains_split(t1, t2, m);
                    }
                }
            }
        },
        PieceType::WhiteRook => {
            let r1 = white_rook_ray(b, sx, sy, 0, -1, 1);
            let r2 = white_rook_ray(b, sx, sy, 0, 1, 1);
            let r3 = white_rook_ray(b, sx, sy, -1, 0, 1);
            let r4 = white_rook_ray(b, sx, sy, 1, 0, 1);
            lemma_add_contains_split(r1 + r2 + r3, r4, m);
            if (r1 + r2 + r3).contains(m) {
                lemma_add_contains_split(r1 + r2, r3, m);
                if (r1 + r2).contains(m) {
                    lemma_add_contains_split(r1, r2, m);
                }
            }
            if r1.contains(m) {
                lemma_ray_move_blank(b, sx, sy, 0, -1, 1, m, qx, qy);
            } else if r2.contains(m) {
                lemma_ray_move_blank(b, sx, sy, 0, 1, 1, m, qx, qy);
            } else if r3.contains(m) {
                lemma_ray_move_blank(b, sx, sy, -1, 0, 1, m, qx, qy);
            } else {
                lemma_ray_move_blank(b, sx, sy, 1, 0, 1, m, qx, qy);
            }
        },
        _ => {
        },
    }
}

/// A generated board that blanks a square the parent had occupied can only be
/// the work of the piece on that square: the move came from there.
proof fn lemma_blank_square_names_the_origin(b: Board, x: int, y: int, m: Board, qx: int, qy: int)
    requires
        0 <= x <= 8,
        0 <= y <= 8,
        white_moves_from(b, x, y).contains(m),
        m.spec_at(qx, qy) == PieceType::Blank,
        b.spec_at(qx, qy) != PieceType::Blank,
    ensures
        white_square_moves(b, qx, qy).contains(m),
    decreases 8 - x, 8 - y,
{
    if x >= 8 {
        assert(false);
    } else if y >= 8 {
        lemma_blank_square_names_the_origin(b, x + 1, 0, m, qx, qy);
    } else {
        lemma_add_contains_split(white_square_moves(b, x, y), white_moves_from(b, x, y + 1), m);
        if white_square_moves(b, x, y).contains(m) {
            if !(qx == x && qy == y) {
                lemma_square_move_blank(b, x, y, m, qx, qy);
            }
        } else {
            lemma_blank_square_names_the_origin(b, x, y + 1, m, qx, qy);
        }
    }
}

proof fn lemma_square_move_generated(b: Board, x: int, y: int, sx: int, sy: int, m: Board)
    requires
        0 <= sx < 8,
        0 <= sy < 8,
        0 <= x <= sx,
        0 <= y <= 8,
        x == sx ==> y <= sy,
        white_square_moves(b, sx, sy).contains(m),
    ensures
        white_moves_from(b, x, y).contains(m),
    decreases 8 - x, 8 - y,
{
    if y >= 8 {
        lemma_square_move_generated(b, x + 1, 0, sx, sy, m);
    } else if x == sx && y == sy {
        lemma_add_contains_left(white_square_moves(b, x, y), white_moves_from(b, x, y + 1), m);
    } else {
        lemma_square_move_generated(b, x, y + 1, sx, sy, m);
        lemma_add_contains_right(white_square_moves(b, x, y), white_moves_from(b, x, y + 1), m);
    }
}

/// Generation is complete square by square: every move that some square
/// contributes appears in White's generated sequence.
pub proof fn lemma_generated_contains_square_move(b: Board, sx: int, sy: int, m: Board)
    requires
        0 <= sx < 8,
        0 <= sy < 8,
        white_square_moves(b, sx, sy).contains(m),
    ensures
        spec_generate_positions(b, Color::White).contains(m),
{
    lemma_square_move_generated(b, 0, 0, sx, sy, m);
}

/// A white pawn on its starting rank with both forward squares blank
/// contributes both the single-step and the double-step successor to White's
/// generation.
pub proof fn lemma_pawn_double_step_generated(b: Board, x: int)
    requires
        0 <= x < 8,
        b.spec_at(x, 6) == PieceType::WhitePawn,
        b.spec_at(x, 5) == PieceType::Blank,
        b.spec_at(x, 4) == PieceType::Blank,
    ensures
        spec_generate_positions(b, Color::White).contains(
            spec_move(b, x, 6, x, 5, PieceType::WhitePawn),
        ),
        spec_generate_positions(b, Color::White).contains(
            spec_move(b, x, 6, x, 4, PieceType::WhitePawn),
        ),
{
    let pm = white_pawn_moves(b, x, 6);
    let m1 = spec_move(b, x, 6, x, 5, PieceType::WhitePawn);
    let m2 = spec_move(b, x, 6, x, 4, PieceType::WhitePawn);
    assert(pm[0] == m1);
    assert(pm[1] == m2);
    assert(pm.contains(m1));
    assert(pm.contains(m2));
    lemma_generated_contains_square_move(b, x, 6, m1);
    lemma_generated_contains_square_move(b, x, 6, m2);
}

/// A white pawn on its starting rank whose single forward square is blank but
/// whose double-step square is blocked contributes the single-step successor,
/// and the blocked double-step successor is nowhere in White's generation.
pub proof fn lemma_pawn_single_step_only(b: Board, x: int)
    requires
        0 <= x < 8,
        b.spec_at(x, 6) == PieceType::WhitePawn,
        b.spec_at(x, 5) == PieceType::Blank,
        b.spec_at(x, 4) != PieceType::Blank,
    ensures
        spec_generate_positions(b, Color::White).contains(
            spec_move(b, x, 6, x, 5, PieceType::WhitePawn),
        ),
        !spec_generate_positions(b, Color::White).contains(
            spec_move(b, x, 6, x, 4, PieceType::WhitePawn),
        ),
{
    broadcast use lemma_set_at;

    let pm = white_pawn_moves(b, x, 6);
    let m1 = spec_move(b, x, 6, x, 5, PieceType::WhitePawn);
    let m2 = spec_move(b, x, 6, x, 4, PieceType::WhitePawn);
    assert(pm[0] == m1);
    assert(pm.contains(m1));
    lemma_generated_contains_square_move(b, x, 6, m1);

    assert(m1.spec_at(x, 5) == PieceType::WhitePawn);
    assert(m2.spec_at(x, 5) == PieceType::Blank);
    if b.spec_at(x - 1, 5).spec_is_black() {
        let mc = spec_move(b, x, 6, x - 1, 5, PieceType::WhitePawn);
        assert(mc.spec_at(x - 1, 5) == PieceType::WhitePawn);
        assert(m2.spec_at(x - 1, 5) == b.spec_at(x - 1, 5));
        assert(mc != m2);
    }
    if b.spec_at(x + 1, 5).spec_is_black() {
        let mc = spec_move(b, x, 6, x + 1, 5, PieceType::WhitePawn);
        assert(mc.spec_at(x + 1, 5) == PieceType::WhitePawn);
        assert(m2.spec_at(x + 1, 5) == b.spec_at(x + 1, 5));
        assert(mc != m2);
    }
    assert forall|i: int| 0 <= i < pm.len() implies pm[i] != m2 by {}
    assert(!pm.contains(m2));
    if spec_generate_positions(b, Color::White).contains(m2) {
        assert(m2.spec_at(x, 6) == PieceType::Blank);
        lemma_blank_square_names_the_origin(b, 0, 0, m2, x, 6);
        assert(false);
    }
}

proof fn lemma_rook_ray_pinned(b: Board, x: int, y: int, dx: int, dy: int, k: int, i: int)
    requires
        1 <= i <= k < 8,
        forall|j: int| i <= j < k ==> ray_square(b, x, y, dx, dy, j) == PieceType::Blank,
        b.spec_at(x + dx * k, y + dy * k).spec_is_black(),
    ensures
        white_rook_ray(b, x, y, dx, dy, i).len() == k - i + 1,
        forall|n: int|
            0 <= n <= k - i ==> #[trigger] white_rook_ray(b, x, y, dx, dy, i)[n] == spec_move(
                b,
                x,
                y,
                x + dx * (i + n),
                y + dy * (i + n),
                PieceType::WhiteRook,
            ),
    decreases k - i,
{
    let ray = white_rook_ray(b, x, y, dx, dy, i);
    if i == k {
        assert(ray_square(b, x, y, dx, dy, i).spec_is_black());
        assert(ray =~= seq![spec_move(b, x, y, x + dx * k, y + dy * k, PieceType::WhiteRook)]);
    } else {
        assert(ray_square(b, x, y, dx, dy, i) == PieceType::Blank);
        lemma_rook_ray_pinned(b, x, y, dx, dy, k, i + 1);
        let rest = white_rook_ray(b, x, y, dx, dy, i + 1);
        assert(ray == seq![spec_move(b, x, y, x + dx * i, y + dy * i, PieceType::WhiteRook)]
            + rest);
        assert forall|n: int|
            0 <= n <= k - i implies #[trigger] ray[n] == spec_move(
            b,
            x,
            y,
            x + dx * (i + n),
            y + dy * (i + n),
            PieceType::WhiteRook,
        ) by {
            if n > 0 {
                assert(rest[n - 1] == spec_move(
                    b,
                    x,
                    y,
                    x + dx * (i + n),
                    y + dy * (i + n),
                    PieceType::WhiteRook,
                ));
                assert(ray[n] == rest[n - 1]);
            }
        }
    }
}

proof fn lemma_unit_mul(d: int, j: int)
    ensures
        d == 0 ==> d * j == 0,
        d == 1 ==> d * j == j,
        d == -1 ==> d * j == -j,
{
    assert(d == 0 ==> d * j == 0) by (nonlinear_arith);
    assert(d == 1 ==> d * j == j) by (nonlinear_arith);
    assert(d == -1 ==> d * j == -j) by (nonlinear_arith);
}

proof fn lemma_ray_element_shape(b: Board, x: int, y: int, dx: int, dy: int, i: int, m: Board)
    requires
        1 <= i <= 8,
        white_rook_ray(b, x, y, dx, dy, i).contains(m),
    ensures
        exists|d: int|
            i <= d < 8 && white_dest_open(#[trigger] ray_square(b, x, y, dx, dy, d)) && m
                == spec_move(b, x, y, x + dx * d, y + dy * d, PieceType::WhiteRook),
    decreases 8 - i,
{
    let tx = x + dx * i;
    let ty = y + dy * i;
    let head = spec_move(b, x, y, tx, ty, PieceType::WhiteRook);
    let rest = white_rook_ray(b, x, y, dx, dy, i + 1);
    let t = b.spec_at(tx, ty);
    if t == PieceType::Blank {
        lemma_add_contains_split(seq![head], rest, m);
        if m == head {
            assert(white_dest_open(ray_square(b, x, y, dx, dy, i)));
        } else {
            lemma_ray_element_shape(b, x, y, dx, dy, i + 1, m);
            let d = choose|d: int|
                i + 1 <= d < 8 && white_dest_open(ray_square(b, x, y, dx, dy, d)) && m
                    == spec_move(b, x, y, x + dx * d, y + dy * d, PieceType::WhiteRook);
            assert(white_dest_open(ray_square(b, x, y, dx, dy, d)));
        }
    } else {
        assert(m == head);
        assert(white_dest_open(ray_square(b, x, y, dx, dy, i)));
    }
}

proof fn lemma_ray_rejects_far_move(b: Board, x: int, y: int, rdx: int, rdy: int, dx: int, dy: int, k: int, j: int)
    requires
        0 <= x < 8,
        0 <= y < 8,
        (rdx == 0 && (rdy == 1 || rdy == -1)) || (rdy == 0 && (rdx == 1 || rdx == -1)),
        (dx == 0 && (dy == 1 || dy == -1)) || (dy == 0 && (dx == 1 || dx == -1)),
        1 <= k < j < 8,
        0 <= x + dx * j < 8,
        0 <= y + dy * j < 8,
        forall|jj: int| 1 <= jj < k ==> ray_square(b, x, y, dx, dy, jj) == PieceType::Blank,
        b.spec_at(x + dx * k, y + dy * k).spec_is_black(),
    ensures
        !white_rook_ray(b, x, y, rdx, rdy, 1).contains(
            spec_move(b, x, y, x + dx * j, y + dy * j, PieceType::WhiteRook),
        ),
{
    broadcast use lemma_set_at;

    let sqjx = x + dx * j;
    let sqjy = y + dy * j;
    let mj = spec_move(b, x, y, sqjx, sqjy, PieceType::WhiteRook);
    if white_rook_ray(b, x, y, rdx, rdy, 1).contains(mj) {
        lemma_unit_mul(dx, j);
        lemma_unit_mul(dy, j);
        lemma_unit_mul(dx, k);
        lemma_unit_mul(dy, k);
        if rdx == dx && rdy == dy {
            lemma_rook_ray_pinned(b, x, y, dx, dy, k, 1);
            let ray = white_rook_ray(b, x, y, dx, dy, 1);
            let n = choose|n: int| 0 <= n < ray.len() && ray[n] == mj;
            let d = 1 + n;
            lemma_unit_mul(dx, d);
            lemma_unit_mul(dy, d);
            assert(ray[n] == spec_move(b, x, y, x + dx * d, y + dy * d, PieceType::WhiteRook));
            assert(mj.spec_at(x + dx * d, y + dy * d) == b.spec_at(x + dx * d, y + dy * d));
            if d < k {
                assert(ray_square(b, x, y, dx, dy, d) == PieceType::Blank);
            }
            assert(ray[n].spec_at(x + dx * d, y + dy * d) == PieceType::WhiteRook);
            assert(false);
        } else {
            lemma_ray_element_shape(b, x, y, rdx, rdy, 1, mj);
            let d = choose|d: int|
                1 <= d < 8 && white_dest_open(ray_square(b, x, y, rdx, rdy, d)) && mj
                    == spec_move(b, x, y, x + rdx * d, y + rdy * d, PieceType::WhiteRook);
            lemma_unit_mul(rdx, d);
            lemma_unit_mul(rdy, d);
            let tx = x + rdx * d;
            let ty = y + rdy * d;
            assert(!(tx == x && ty == y));
            assert(!(tx == sqjx && ty == sqjy));
            assert(mj.spec_at(tx, ty) == b.spec_at(tx, ty));
            assert(spec_move(b, x, y, tx, ty, PieceType::WhiteRook).spec_at(tx, ty)
                == PieceType::WhiteRook);
            assert(false);
        }
    }
}

/// Once a rook ray meets its first enemy piece, nothing farther out on that
/// ray is reachable: for any on-board square past the capture, the successor
/// that would place the rook there is nowhere in White's generation.
pub proof fn lemma_rook_stops_at_first_capture(b: Board, x: int, y: int, dx: int, dy: int, k: int, j: int)
    requires
        0 <= x < 8,
        0 <= y < 8,
        b.spec_at(x, y) == PieceType::WhiteRook,
        (dx == 0 && (dy == 1 || dy == -1)) || (dy == 0 && (dx == 1 || dx == -1)),
        1 <= k < j < 8,
        0 <= x + dx * j < 8,
        0 <= y + dy * j < 8,
        forall|jj: int| 1 <= jj < k ==> ray_square(b, x, y, dx, dy, jj) == PieceType::Blank,
        b.spec_at(x + dx * k, y + dy * k).spec_is_black(),
    ensures
        !spec_generate_positions(b, Color::White).contains(
            spec_move(b, x, y, x + dx * j, y + dy * j, PieceType::WhiteRook),
        ),
{
    broadcast use lemma_set_at;

    let sqjx = x + dx * j;
    let sqjy = y + dy * j;
    let mj = spec_move(b, x, y, sqjx, sqjy, PieceType::WhiteRook);
    lemma_unit_mul(dx, j);
    lemma_unit_mul(dy, j);
    assert(!(sqjx == x && sqjy == y));
    if spec_generate_positions(b, Color::White).contains(mj) {
        assert(mj.spec_at(x, y) == PieceType::Blank);
        lemma_blank_square_names_the_origin(b, 0, 0, mj, x, y);
        let r1 = white_rook_ray(b, x, y, 0, -1, 1);
        let r2 = white_rook_ray(b, x, y, 0, 1, 1);
        let r3 = white_rook_ray(b, x, y, -1, 0, 1);
        let r4 = white_rook_ray(b, x, y, 1, 0, 1);
        lemma_add_contains_split(r1 + r2 + r3, r4, mj);
        if (r1 + r2 + r3).contains(mj) {
            lemma_add_contains_split(r1 + r2, r3, mj);
            if (r1 + r2).contains(mj) {
                lemma_add_contains_split(r1, r2, mj);
            }
        }
        if r1.contains(mj) {
            lemma_ray_rejects_far_move(b, x, y, 0, -1, dx, dy, k, j);
        } else if r2.contains(mj) {
            lemma_ray_rejects_far_move(b, x, y, 0, 1, dx, dy, k, j);
        } else if r3.contains(mj) {
            lemma_ray_rejects_far_move(b, x, y, -1, 0, dx, dy, k, j);
        } else {
            lemma_ray_rejects_far_move(b, x, y, 1, 0, dx, dy, k, j);
        }
    }
}

/// Along a rook ray whose squares strictly before step `k` are blank and
/// whose square at step `k` holds an enemy piece, the ray's moves are exactly
/// the blank steps followed by the capture at `k` — nothing past the first
/// enemy piece is emitted — and when a white rook stands at the ray's origin,
/// the capture appears in White's generation.
pub proof fn lemma_rook_first_capture_generated(b: Board, x: int, y: int, dx: int, dy: int, k: int)
    requires
        0 <= x < 8,
        0 <= y < 8,
        b.spec_at(x, y) == PieceType::WhiteRook,
        (dx == 0 && (dy == 1 || dy == -1)) || (dy == 0 && (dx == 1 || dx == -1)),
        1 <= k < 8,
        forall|j: int| 1 <= j < k ==> ray_square(b, x, y, dx, dy, j) == PieceType::Blank,
        b.spec_at(x + dx * k, y + dy * k).spec_is_black(),
    ensures
        white_rook_ray(b, x, y, dx, dy, 1).len() == k,
        forall|n: int|
            0 <= n < k ==> #[trigger] white_rook_ray(b, x, y, dx, dy, 1)[n] == spec_move(
                b,
                x,
                y,
                x + dx * (1 + n),
                y + dy * (1 + n),
                PieceType::WhiteRook,
            ),
        spec_generate_positions(b, Color::White).contains(
            spec_move(b, x, y, x + dx * k, y + dy * k, PieceType::WhiteRook),
        ),
{
    lemma_rook_ray_pinned(b, x, y, dx, dy, k, 1);
    let ray = white_rook_ray(b, x, y, dx, dy, 1);
    let cap = spec_move(b, x, y, x + dx * k, y + dy * k, PieceType::WhiteRook);
    assert(ray[k - 1] == cap);
    assert(ray.contains(cap));
    let r1 = white_rook_ray(b, x, y, 0, -1, 1);
    let r2 = white_rook_ray(b, x, y, 0, 1, 1);
    let r3 = white_rook_ray(b, x, y, -1, 0, 1);
    let r4 = white_rook_ray(b, x, y, 1, 0, 1);
    if dx == 0 && dy == -1 {
        lemma_add_contains_left(r1, r2, cap);
        lemma_add_contains_left(r1 + r2, r3, cap);
        lemma_add_contains_left(r1 + r2 + r3, r4, cap);
    } else if dx == 0 && dy == 1 {
        lemma_add_contains_right(r1, r2, cap);
        lemma_add_contains_left(r1 + r2, r3, cap);
        lemma_add_contains_left(r1 + r2 + r3, r4, cap);
    } else if dx == -1 {
        lemma_add_contains_right(r1 + r2, r3, cap);
        lemma_add_contains_left(r1 + r2 + r3, r4, cap);
    } else {
        lemma_add_contains_right(r1 + r2 + r3, r4, cap);
    }
    assert(white_square_moves(b, x, y).contains(cap));
    lemma_generated_contains_square_move(b, x, y, cap);
}

/// Converts an algebraic coordinate (file letter, rank number) into a
/// zero-based `(file, rank)` pair. The conversion is total: it never fails,
/// and unrecognized file letters or out-of-range rank numbers degrade to the
/// off-board index 8, which the board treats as the sentinel.
pub fn coords_from_an(an: (char, i8)) -> (c: (usize, usize))
    ensures
        c.0 == spec_file_index(an.0),
        c.1 == spec_rank_index(an.1),
{
    let file: usize = match an.0 {
        'a' | 'A' => 0,
        'b' | 'B' => 1,
        'c' | 'C' => 2,
        'd' | 'D' => 3,
        'e' | 'E' => 4,
        'f' | 'F' => 5,
        'g' | 'G' => 6,
        'h' | 'H' => 7,
        _ => 8,
    };
    let rank: usize = if 1 <= an.1 && an.1 <= 8 {
        (an.1 - 1) as usize
    } else {
        8
    };
    (file, rank)
}

} // verus!
