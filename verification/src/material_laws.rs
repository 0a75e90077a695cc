//! Properties of the material count.
use vstd::prelude::*;
use crate::board::{Color, Piece, PieceKind, piece_on, board_placed, lemma_placed_piece_on};
use crate::eval::{material, material_below};

verus! {

// ---------------------------------------------------------------------------
// Material.
// ---------------------------------------------------------------------------

/// A board without pieces has no material.
pub proof fn lemma_material_of_empty_board()
    ensures
        material(Seq::new(12, |i: int| 0u64)) == 0,
{
    let v = Seq::new(12, |i: int| 0u64);
    assert forall|n: nat| n <= 64 implies #[trigger] material_below(v, n) == 0 by {
        lemma_material_empty_below(n);
    }
}

proof fn lemma_material_empty_below(n: nat)
    ensures
        material_below(Seq::new(12, |i: int| 0u64), n) == 0,
    decreases n,
{
    let v = Seq::new(12, |i: int| 0u64);
    if n > 0 {
        lemma_material_empty_below((n - 1) as nat);
        assert forall|c: Color, k: PieceKind| !#[trigger] crate::board::holds(v, c, k, n - 1) by {
            crate::bits::lemma_zero_bits(n - 1);
        }
    }
}

proof fn lemma_material_below_placed(v: Seq<u64>, sq: int, p: Piece, n: nat)
    requires
        v.len() == 12,
        0 <= sq < 64,
        piece_on(v, sq) is None,
    ensures
        material_below(board_placed(v, sq, p), n) == material_below(v, n) + if sq < n {
            crate::eval::piece_value(p)
        } else {
            0
        },
    decreases n,
{
    if n > 0 {
        lemma_material_below_placed(v, sq, p, (n - 1) as nat);
        lemma_placed_piece_on(v, sq, p, n - 1);
    }
}

/// Adding a piece on an empty square changes the material balance (for
/// White) by the piece's value: pawn 100, knight 320, bishop 330, rook 500,
/// queen 900, king 0, counted for White and against Black.
pub proof fn lemma_material_of_added_piece(v: Seq<u64>, sq: int, p: Piece)
    requires
        v.len() == 12,
        0 <= sq < 64,
        piece_on(v, sq) is None,
    ensures
        material(board_placed(v, sq, p)) == material(v) + (match p.color {
            Color::White => 1int,
            Color::Black => -1int,
        }) * (match p.kind {
            PieceKind::Pawn => 100int,
            PieceKind::Knight => 320int,
            PieceKind::Bishop => 330int,
            PieceKind::Rook => 500int,
            PieceKind::Queen => 900int,
            PieceKind::King => 0int,
        }),
{
    lemma_material_below_placed(v, sq, p, 64);
}

/// A lone piece on an otherwise empty board is worth its value: for
/// example a white knight anywhere counts `320` for White.
pub proof fn lemma_material_of_lone_piece(sq: int, p: Piece)
    requires
        0 <= sq < 64,
    ensures
        material(board_placed(Seq::new(12, |i: int| 0u64), sq, p)) == (match p.color {
            Color::White => 1int,
            Color::Black => -1int,
        }) * (match p.kind {
            PieceKind::Pawn => 100int,
            PieceKind::Knight => 320int,
            PieceKind::Bishop => 330int,
            PieceKind::Rook => 500int,
            PieceKind::Queen => 900int,
            PieceKind::King => 0int,
        }),
{
    let v = Seq::new(12, |i: int| 0u64);
    assert forall|c: Color, k: PieceKind| !#[trigger] crate::board::holds(v, c, k, sq) by {
        crate::bits::lemma_zero_bits(sq);
    }
    lemma_material_of_empty_board();
    lemma_material_of_added_piece(v, sq, p);
}

/// The score is seen from the side to move: the same board scores the
/// material balance for White to move and its negation for Black to move.
pub proof fn lemma_evaluation_sides(g1: crate::game::Game, g2: crate::game::Game)
    requires
        g1@.board == g2@.board,
        g1@.side == Color::White,
        g2@.side == Color::Black,
    ensures
        crate::eval::evaluation(g1) == material(g1@.board),
        crate::eval::evaluation(g2) == -crate::eval::evaluation(g1),
{
}
} // verus!
