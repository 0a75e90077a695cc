//! Material evaluation.
use vstd::prelude::*;
use crate::board::{Color, Piece, PieceKind, piece_on};
use crate::game::{Game, lemma_game_board_len};

verus! {

broadcast use lemma_game_board_len;

/// The score of a mate.
pub const MATE_SCORE: i32 = 100_000;

/// The value of a piece for White: positive for White's pieces, negative
/// for Black's (pawn 100, knight 320, bishop 330, rook 500, queen 900,
/// king 0).
pub open spec fn piece_value(p: Piece) -> int {
    let base: int = match p.kind {
        PieceKind::Pawn => 100,
        PieceKind::Knight => 320,
        PieceKind::Bishop => 330,
        PieceKind::Rook => 500,
        PieceKind::Queen => 900,
        PieceKind::King => 0,
    };
    match p.color {
        Color::White => base,
        Color::Black => -base,
    }
}

/// The material balance of the squares below `n`, for White.
pub open spec fn material_below(v: Seq<u64>, n: nat) -> int
    decreases n,
{
    if n == 0 {
        0
    } else {
        material_below(v, (n - 1) as nat) + match piece_on(v, n - 1) {
            Some(p) => piece_value(p),
            None => 0,
        }
    }
}

/// The material balance of a board, for White.
pub open spec fn material(v: Seq<u64>) -> int {
    material_below(v, 64)
}

/// The material balance seen from the side to move.
pub open spec fn evaluation(g: Game) -> int {
    match g@.side {
        Color::White => material(g@.board),
        Color::Black => -material(g@.board),
    }
}

/// The value of the piece on a square, or `0` for an empty square.
fn square_value(p: Option<Piece>) -> (r: i32)
    ensures
        r == match p {
            Some(p) => piece_value(p),
            None => 0,
        },
{
    match p {
        None => 0,
        Some(p) => {
            let base: i32 = match p.kind {
                PieceKind::Pawn => 100,
                PieceKind::Knight => 320,
                PieceKind::Bishop => 330,
                PieceKind::Rook => 500,
                PieceKind::Queen => 900,
                PieceKind::King => 0,
            };
            match p.color {
                Color::White => base,
                Color::Black => -base,
            }
        },
    }
}

/// The material balance; positive means good for the side to move.
pub fn evaluate(game: &Game) -> (score: i32)
    ensures
        score == evaluation(*game),
{
    let mut material: i32 = 0;
    let mut square: u8 = 0;
    while square < 64
        invariant
            square <= 64,
            material == material_below(game@.board, square as nat),
            -900 * square <= material <= 900 * square,
        decreases 64 - square,
    {
        material = material + square_value(game.piece_at(square));
        square = square + 1;
    }
    match game.side_to_move() {
        Color::White => material,
        Color::Black => -material,
    }
}

} // verus!
