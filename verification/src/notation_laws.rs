//! Properties of the written forms: FEN ranks and piece letters.
use vstd::prelude::*;
use crate::board::{Color, Piece, PieceKind, piece_on, fen_letter};
use crate::game::{ranks_text, rank_text, empty_run};

verus! {

// ---------------------------------------------------------------------------
// FEN.
// ---------------------------------------------------------------------------

/// A digit `1`..`9` of a FEN rank.
pub open spec fn is_count(c: char) -> bool {
    '1' <= c <= '9'
}

/// The number of squares a FEN rank describes: a digit stands for that
/// many empty squares, any other character for one piece.
pub open spec fn fen_width(s: Seq<char>) -> int
    decreases s.len(),
{
    if s.len() == 0 {
        0
    } else {
        (if is_count(s[0]) {
            s[0] as int - 48
        } else {
            1
        }) + fen_width(s.drop_first())
    }
}

/// The piece letters of a FEN rank, in order.
pub open spec fn fen_pieces(s: Seq<char>) -> Seq<char>
    decreases s.len(),
{
    if s.len() == 0 {
        seq![]
    } else {
        (if is_count(s[0]) {
            seq![]
        } else {
            seq![s[0]]
        }) + fen_pieces(s.drop_first())
    }
}

/// The letters of the pieces on rank `r` from file `file` on, file by file.
pub open spec fn rank_letters(v: Seq<u64>, r: int, file: int) -> Seq<char>
    decreases 8 - file,
{
    if file >= 8 {
        seq![]
    } else {
        (match piece_on(v, r * 8 + file) {
            Some(p) => seq![fen_letter(p)],
            None => seq![],
        }) + rank_letters(v, r, file + 1)
    }
}

proof fn lemma_fen_concat(a: Seq<char>, b: Seq<char>)
    ensures
        fen_width(a + b) == fen_width(a) + fen_width(b),
        fen_pieces(a + b) == fen_pieces(a) + fen_pieces(b),
    decreases a.len(),
{
    if a.len() > 0 {
        lemma_fen_concat(a.drop_first(), b);
        assert((a + b).drop_first() =~= a.drop_first() + b);
        assert(fen_pieces(a + b) =~= fen_pieces(a) + fen_pieces(b));
    } else {
        assert(a + b =~= b);
    }
}

proof fn lemma_rank_text_from(v: Seq<u64>, r: int, file: int, empty: nat)
    requires
        0 <= file <= 8,
        empty <= file,
    ensures
        fen_width(rank_text(v, r, file, empty)) == empty + 8 - file,
        fen_pieces(rank_text(v, r, file, empty)) == rank_letters(v, r, file),
    decreases 8 - file,
{
    let e = empty_run(empty);
    assert(fen_width(e) == empty && fen_pieces(e) == Seq::<char>::empty()) by {
        if empty > 0 {
            assert(e[0] as int == 48 + empty);
            assert(is_count(e[0]));
            assert(e.drop_first() =~= seq![]);
            assert(fen_pieces(e.drop_first()) == Seq::<char>::empty());
            assert(fen_width(e.drop_first()) == 0);
            assert(fen_pieces(e) =~= seq![]);
        } else {
            assert(e =~= seq![]);
        }
    }
    if file < 8 {
        match piece_on(v, r * 8 + file) {
            Some(p) => {
                lemma_rank_text_from(v, r, file + 1, 0);
                let l = seq![fen_letter(p)];
                assert(!is_count(fen_letter(p)));
                assert(l.drop_first() =~= seq![]);
                lemma_fen_concat(e, l);
                lemma_fen_concat(e + l, rank_text(v, r, file + 1, 0));
                assert(fen_pieces(l.drop_first()) == Seq::<char>::empty());
                assert(fen_width(l.drop_first()) == 0);
                assert(fen_pieces(l) =~= l);
                assert(fen_width(l) == 1);
                assert(fen_pieces(e) + fen_pieces(l) =~= l);
            },
            None => {
                lemma_rank_text_from(v, r, file + 1, empty + 1);
                assert(rank_letters(v, r, file) =~= rank_letters(v, r, file + 1));
            },
        }
    }
}

/// Each rank of a FEN describes exactly eight squares, and its piece
/// letters are those of the pieces on that rank, file `a` to file `h`.
pub proof fn lemma_fen_rank(v: Seq<u64>, r: int)
    ensures
        fen_width(rank_text(v, r, 0, 0)) == 8,
        fen_pieces(rank_text(v, r, 0, 0)) == rank_letters(v, r, 0),
{
    lemma_rank_text_from(v, r, 0, 0);
}

/// The board part of a FEN lists the ranks from the eighth down to the
/// first, separated by `/`.
pub proof fn lemma_fen_rank_order(v: Seq<u64>)
    ensures
        ranks_text(v, 8) == rank_text(v, 7, 0, 0) + seq!['/'] + rank_text(v, 6, 0, 0) + seq!['/']
            + rank_text(v, 5, 0, 0) + seq!['/'] + rank_text(v, 4, 0, 0) + seq!['/'] + rank_text(
            v,
            3,
            0,
            0,
        ) + seq!['/'] + rank_text(v, 2, 0, 0) + seq!['/'] + rank_text(v, 1, 0, 0) + seq!['/']
            + rank_text(v, 0, 0, 0),
{
    reveal_with_fuel(ranks_text, 9);
    assert(ranks_text(v, 8) =~= rank_text(v, 7, 0, 0) + seq!['/'] + rank_text(v, 6, 0, 0) + seq![
        '/',
    ] + rank_text(v, 5, 0, 0) + seq!['/'] + rank_text(v, 4, 0, 0) + seq!['/'] + rank_text(
        v,
        3,
        0,
        0,
    ) + seq!['/'] + rank_text(v, 2, 0, 0) + seq!['/'] + rank_text(v, 1, 0, 0) + seq!['/']
        + rank_text(v, 0, 0, 0));
}

/// White pieces are written in upper case and Black pieces in lower case:
/// `p` pawn, `n` knight, `b` bishop, `r` rook, `q` queen, `k` king.
pub proof fn lemma_fen_letters(p: Piece)
    ensures
        ({
            let lower = match p.kind {
                PieceKind::Pawn => 'p',
                PieceKind::Knight => 'n',
                PieceKind::Bishop => 'b',
                PieceKind::Rook => 'r',
                PieceKind::Queen => 'q',
                PieceKind::King => 'k',
            };
            fen_letter(p) as u32 == match p.color {
                Color::White => lower as u32 - 32,
                Color::Black => lower as u32 as int,
            }
        }),
{
}

} // verus!
