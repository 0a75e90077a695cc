//! Properties that tie the operations of a game together.
use vstd::prelude::*;
use vstd::utf8::{
    encode_utf8, is_ascii_chars, is_char_boundary, encode_utf8_valid_utf8, encode_utf8_first_scalar,
    is_ascii_chars_encode_utf8, pop_first_scalar,
};
use crate::board::{
    Piece, PieceKind, opponent, piece_on, board_cleared, board_placed, side_words,
    word_index, lemma_placed_occupied,
};
use crate::game::{
    Position, GameStatus, in_check, board_after_move, arriving_kind, legal, legal_from_to,
    has_legal_move, status_of, parse_move, check_move, move_result, move_bytes,
    move_text_cuttable, uci_text, square_name, texts_for, texts_from, texts_upto,
    legal_move_texts, promotion_text, promotion_rank,
};
use crate::text::{trim, trim_start, trim_end, is_white_space, decimal};
use crate::board::Color;
use crate::game::{start_position, fen_text, ranks_text, move_stops};
use crate::uci::replay;
use crate::board::{lemma_placed_piece_on, lemma_occupied_iff_piece, strictly_between, dist, square_of, step, occupied_squares};
use crate::game::{pseudo_legal, path_clear, square_from_bytes, SquareError};
use crate::board::lemma_cleared_holds;

verus! {

// ---------------------------------------------------------------------------
// Promotion pieces and king safety.
// ---------------------------------------------------------------------------

/// Which piece a pawn promotes to does not change whether the mover's king
/// is in check afterwards (nor does the absence of a promotion piece).
pub proof fn lemma_promotion_irrelevant_to_check(
    v: Seq<u64>,
    from: int,
    to: int,
    k1: Option<PieceKind>,
    k2: Option<PieceKind>,
)
    requires
        v.len() == 12,
        0 <= from < 64,
        0 <= to < 64,
        piece_on(v, from) is Some,
        k1 != Some(PieceKind::King),
        k2 != Some(PieceKind::King),
    ensures
        in_check(board_after_move(v, from, to, k1), piece_on(v, from)->Some_0.color) == in_check(
            board_after_move(v, from, to, k2),
            piece_on(v, from)->Some_0.color,
        ),
{
    let p = piece_on(v, from)->Some_0;
    let c = p.color;
    let w = board_cleared(board_cleared(v, to), from);
    assert(board_cleared(v, to).len() == 12);
    assert(w.len() == 12);
    let p1 = Piece { color: c, kind: arriving_kind(p.kind, k1) };
    let p2 = Piece { color: c, kind: arriving_kind(p.kind, k2) };
    let b1 = board_placed(w, to, p1);
    let b2 = board_placed(w, to, p2);
    assert(b1 == board_after_move(v, from, to, k1));
    assert(b2 == board_after_move(v, from, to, k2));
    if p1 != p2 {
        assert(p.kind == PieceKind::Pawn);
        assert(p1.kind != PieceKind::King && p2.kind != PieceKind::King);
        assert(b1[word_index(c, PieceKind::King)] == b2[word_index(c, PieceKind::King)]);
        assert(side_words(b1, opponent(c)) =~= side_words(b2, opponent(c)));
        lemma_placed_occupied(w, to, p1);
        lemma_placed_occupied(w, to, p2);
    }
}

/// The side that has just moved is never left in check.
pub proof fn lemma_mover_not_in_check(p: Position, b: Seq<u8>)
    requires
        move_result(p, b) is Ok,
    ensures
        !in_check(move_result(p, b)->Ok_0.board, opponent(move_result(p, b)->Ok_0.side)),
        move_result(p, b)->Ok_0.side == opponent(p.side),
        move_result(p, b)->Ok_0.halfmove_clock == 0,
{
}

/// An accepted move moves a piece of the side to move, never onto a piece
/// of its own side, and leaves the board as the move describes.
pub proof fn lemma_accepted_move_facts(p: Position, b: Seq<u8>)
    requires
        move_result(p, b) is Ok,
    ensures
        ({
            let (from, to, promotion) = parse_move(b)->Ok_0;
            &&& piece_on(p.board, from as int) matches Some(pc) && pc.color == p.side
            &&& !(piece_on(p.board, to as int) matches Some(c) && c.color == p.side)
            &&& from != to
            &&& move_result(p, b)->Ok_0.board == board_after_move(
                p.board,
                from as int,
                to as int,
                promotion,
            )
        }),
{
}

// ---------------------------------------------------------------------------
// Moves written in UCI notation read back.
// ---------------------------------------------------------------------------

/// A promotion piece that has a letter.
pub open spec fn writable_promotion(promotion: Option<PieceKind>) -> bool {
    match promotion {
        None => true,
        Some(k) => k == PieceKind::Queen || k == PieceKind::Rook || k == PieceKind::Bishop || k
            == PieceKind::Knight,
    }
}

/// In an ASCII text every byte index up to its length is a character
/// boundary.
proof fn lemma_ascii_boundary(t: Seq<char>, i: int)
    requires
        is_ascii_chars(t),
        0 <= i <= t.len(),
    ensures
        is_char_boundary(encode_utf8(t), i),
    decreases t.len(),
{
    let b = encode_utf8(t);
    encode_utf8_valid_utf8(t);
    if i > 0 {
        encode_utf8_first_scalar(t);
        assert(pop_first_scalar(b) =~= encode_utf8(t.drop_first()));
        assert(is_ascii_chars(t.drop_first())) by {
            assert forall|j: int| 0 <= j < t.drop_first().len() implies '\0' <= #[trigger] t.drop_first()[j] <= '\u{7f}' by {
                assert(t.drop_first()[j] == t[j + 1]);
            }
        }
        lemma_ascii_boundary(t.drop_first(), i - 1);
    }
}

/// Writing a move in UCI notation and reading it back gives the move.
pub proof fn lemma_uci_roundtrip(from: int, to: int, promotion: Option<PieceKind>)
    requires
        0 <= from < 64,
        0 <= to < 64,
        writable_promotion(promotion),
    ensures
        trim(uci_text(from, to, promotion)) == uci_text(from, to, promotion),
        move_text_cuttable(uci_text(from, to, promotion)),
        parse_move(move_bytes(uci_text(from, to, promotion))) == Ok::<
            (u8, u8, Option<PieceKind>),
            crate::game::MoveError,
        >((from as u8, to as u8, promotion)),
{
    let t = uci_text(from, to, promotion);
    assert(t[0] as u32 == 97 + from % 8);
    assert(t[1] as u32 == 49 + from / 8);
    assert(t[2] as u32 == 97 + to % 8);
    assert(t[3] as u32 == 49 + to / 8);
    assert(t.len() == 4 || t.len() == 5);
    assert(t.len() == 5 ==> (t[4] == 'q' || t[4] == 'r' || t[4] == 'b' || t[4] == 'n'));
    assert(!is_white_space(t[0]));
    assert(trim_start(t) == t);
    assert(!is_white_space(t.last()));
    assert(trim_end(t) == t);
    assert(is_ascii_chars(t));
    is_ascii_chars_encode_utf8(t);
    let b = encode_utf8(t);
    assert(b == move_bytes(t));
    assert(b.len() == t.len());
    assert(b[0] == t[0] as u8);
    assert(b[1] == t[1] as u8);
    assert(b[2] == t[2] as u8);
    assert(b[3] == t[3] as u8);
    lemma_ascii_boundary(t, 2);
    lemma_ascii_boundary(t, 4);
    assert(b.subrange(0, 2)[0] == b[0] && b.subrange(0, 2)[1] == b[1]);
    assert(b.subrange(2, 4)[0] == b[2] && b.subrange(2, 4)[1] == b[3]);
    if t.len() == 5 {
        assert(b[4] == t[4] as u8);
        assert(b[4] as char == t[4]);
    }
}

// ---------------------------------------------------------------------------
// The list of legal moves.
// ---------------------------------------------------------------------------

/// The move written `t` is accepted in position `p`.
pub open spec fn accepted(p: Position, t: Seq<char>) -> bool {
    move_text_cuttable(t) && move_result(p, move_bytes(t)) is Ok
}

/// The moves listed for one source and target are accepted.
proof fn lemma_texts_for_accepted(p: Position, from: int, to: int)
    requires
        p.board.len() == 12,
        0 <= from < 64,
        0 <= to < 64,
    ensures
        forall|j: int|
            0 <= j < texts_for(p, from, to).len() ==> accepted(p, #[trigger] texts_for(p, from, to)[j]),
{
    if legal_from_to(p, from, to) {
        let piece = piece_on(p.board, from)->Some_0;
        if piece.kind == PieceKind::Pawn && to / 8 == promotion_rank(piece.color) {
            let ks = seq![PieceKind::Queen, PieceKind::Rook, PieceKind::Bishop, PieceKind::Knight];
            assert forall|m: int| 0 <= m < 4 implies forall|j: int|
                0 <= j < promotion_text(p, from, to, #[trigger] ks[m]).len() ==> accepted(
                    p,
                    #[trigger] promotion_text(p, from, to, ks[m])[j],
                ) by {
                let k = ks[m];
                if legal(p.board, p.side, from, to, piece, Some(k)) {
                    lemma_uci_roundtrip(from, to, Some(k));
                }
            }
            let a = promotion_text(p, from, to, PieceKind::Queen);
            let bb = promotion_text(p, from, to, PieceKind::Rook);
            let c = promotion_text(p, from, to, PieceKind::Bishop);
            let d = promotion_text(p, from, to, PieceKind::Knight);
            assert(ks[0] == PieceKind::Queen && ks[1] == PieceKind::Rook && ks[2]
                == PieceKind::Bishop && ks[3] == PieceKind::Knight);
            let all = a + bb + c + d;
            assert forall|j: int| 0 <= j < all.len() implies accepted(p, #[trigger] all[j]) by {
                if j < a.len() {
                    assert(all[j] == a[j]);
                } else if j < a.len() + bb.len() {
                    assert(all[j] == bb[j - a.len()]);
                } else if j < a.len() + bb.len() + c.len() {
                    assert(all[j] == c[j - a.len() - bb.len()]);
                } else {
                    assert(all[j] == d[j - a.len() - bb.len() - c.len()]);
                }
            }
        } else {
            lemma_uci_roundtrip(from, to, None);
        }
    }
}

/// The moves listed for one source and the targets below `n` are accepted.
proof fn lemma_texts_from_accepted(p: Position, from: int, n: nat)
    requires
        p.board.len() == 12,
        0 <= from < 64,
        n <= 64,
    ensures
        forall|j: int|
            0 <= j < texts_from(p, from, n).len() ==> accepted(p, #[trigger] texts_from(p, from, n)[j]),
    decreases n,
{
    if n > 0 {
        lemma_texts_from_accepted(p, from, (n - 1) as nat);
        lemma_texts_for_accepted(p, from, n - 1);
        let a = texts_from(p, from, (n - 1) as nat);
        let b = texts_for(p, from, n - 1);
        assert forall|j: int| 0 <= j < (a + b).len() implies accepted(p, #[trigger] (a + b)[j]) by {
            if j < a.len() {
                assert((a + b)[j] == a[j]);
            } else {
                assert((a + b)[j] == b[j - a.len()]);
            }
        }
    }
}

/// The moves listed for the sources below `n` are accepted.
proof fn lemma_texts_upto_accepted(p: Position, n: nat)
    requires
        p.board.len() == 12,
        n <= 64,
    ensures
        forall|j: int|
            0 <= j < texts_upto(p, n).len() ==> accepted(p, #[trigger] texts_upto(p, n)[j]),
    decreases n,
{
    if n > 0 {
        lemma_texts_upto_accepted(p, (n - 1) as nat);
        lemma_texts_from_accepted(p, n - 1, 64);
        let a = texts_upto(p, (n - 1) as nat);
        let b = texts_from(p, n - 1, 64);
        assert forall|j: int| 0 <= j < (a + b).len() implies accepted(p, #[trigger] (a + b)[j]) by {
            if j < a.len() {
                assert((a + b)[j] == a[j]);
            } else {
                assert((a + b)[j] == b[j - a.len()]);
            }
        }
    }
}

/// Every move that the list of legal moves holds is accepted when played
/// as written.
pub proof fn lemma_listed_moves_are_accepted(p: Position, i: int)
    requires
        p.board.len() == 12,
        0 <= i < legal_move_texts(p).len(),
    ensures
        move_text_cuttable(legal_move_texts(p)[i]),
        move_result(p, move_bytes(legal_move_texts(p)[i])) is Ok,
{
    lemma_texts_upto_accepted(p, 64);
}

/// Some move of the list starts with the squares `from` and `to`.
pub open spec fn lists_pair(moves: Seq<Seq<char>>, from: int, to: int) -> bool {
    exists|j: int|
        0 <= j < moves.len() && (#[trigger] moves[j]).subrange(0, 4) == square_name(from)
            + square_name(to)
}

/// Moves are listed for a source and target exactly when a piece of the
/// side to move may go there.
proof fn lemma_texts_for_nonempty(p: Position, from: int, to: int)
    requires
        p.board.len() == 12,
        0 <= from < 64,
        0 <= to < 64,
    ensures
        (texts_for(p, from, to).len() > 0) == legal_from_to(p, from, to),
        legal_from_to(p, from, to) ==> texts_for(p, from, to)[0].subrange(0, 4) == square_name(
            from,
        ) + square_name(to),
{
    if legal_from_to(p, from, to) {
        let piece = piece_on(p.board, from)->Some_0;
        if piece.kind == PieceKind::Pawn && to / 8 == promotion_rank(piece.color) {
            lemma_promotion_irrelevant_to_check(p.board, from, to, None, Some(PieceKind::Queen));
            assert(legal(p.board, p.side, from, to, piece, Some(PieceKind::Queen)));
            let a = promotion_text(p, from, to, PieceKind::Queen);
            assert(a.len() == 1);
            let rest = promotion_text(p, from, to, PieceKind::Rook) + promotion_text(
                p,
                from,
                to,
                PieceKind::Bishop,
            ) + promotion_text(p, from, to, PieceKind::Knight);
            assert(texts_for(p, from, to) =~= a + rest);
            assert(texts_for(p, from, to)[0] == uci_text(from, to, Some(PieceKind::Queen)));
            assert(uci_text(from, to, Some(PieceKind::Queen)).subrange(0, 4) =~= square_name(from)
                + square_name(to));
        } else {
            assert(uci_text(from, to, None).subrange(0, 4) =~= square_name(from) + square_name(
                to,
            ));
        }
    }
}

/// The moves listed from `from` to the targets below `n`.
proof fn lemma_texts_from_lists(p: Position, from: int, n: nat)
    requires
        p.board.len() == 12,
        0 <= from < 64,
        n <= 64,
    ensures
        (texts_from(p, from, n).len() > 0) == (exists|to: int|
            0 <= to < n && #[trigger] legal_from_to(p, from, to)),
        forall|to: int|
            0 <= to < n && #[trigger] legal_from_to(p, from, to) ==> lists_pair(
                texts_from(p, from, n),
                from,
                to,
            ),
    decreases n,
{
    if n > 0 {
        let m = (n - 1) as nat;
        lemma_texts_from_lists(p, from, m);
        lemma_texts_for_nonempty(p, from, m as int);
        let a = texts_from(p, from, m);
        let b = texts_for(p, from, m as int);
        assert(texts_from(p, from, n) == a + b);
        assert forall|to: int|
            0 <= to < n && #[trigger] legal_from_to(p, from, to) implies lists_pair(
            a + b,
            from,
            to,
        ) by {
            if to < m {
                let j = choose|j: int|
                    0 <= j < a.len() && (#[trigger] a[j]).subrange(0, 4) == square_name(from)
                        + square_name(to);
                assert((a + b)[j] == a[j]);
            } else {
                assert((a + b)[a.len() as int] == b[0]);
            }
        }
        if (a + b).len() > 0 {
            if a.len() > 0 {
                let to = choose|to: int| 0 <= to < m && #[trigger] legal_from_to(p, from, to);
                assert(legal_from_to(p, from, to));
            } else {
                assert(legal_from_to(p, from, m as int));
            }
        }
    }
}

/// The moves listed from the sources below `n`.
proof fn lemma_texts_upto_lists(p: Position, n: nat)
    requires
        p.board.len() == 12,
        n <= 64,
    ensures
        (texts_upto(p, n).len() > 0) == (exists|from: int, to: int|
            0 <= from < n && 0 <= to < 64 && #[trigger] legal_from_to(p, from, to)),
        forall|from: int, to: int|
            0 <= from < n && 0 <= to < 64 && #[trigger] legal_from_to(p, from, to) ==> lists_pair(
                texts_upto(p, n),
                from,
                to,
            ),
    decreases n,
{
    if n > 0 {
        let m = (n - 1) as nat;
        lemma_texts_upto_lists(p, m);
        lemma_texts_from_lists(p, m as int, 64);
        let a = texts_upto(p, m);
        let b = texts_from(p, m as int, 64);
        assert(texts_upto(p, n) == a + b);
        assert forall|from: int, to: int|
            0 <= from < n && 0 <= to < 64 && #[trigger] legal_from_to(p, from, to) implies lists_pair(
            a + b,
            from,
            to,
        ) by {
            if from < m {
                let j = choose|j: int|
                    0 <= j < a.len() && (#[trigger] a[j]).subrange(0, 4) == square_name(from)
                        + square_name(to);
                assert((a + b)[j] == a[j]);
            } else {
                let j = choose|j: int|
                    0 <= j < b.len() && (#[trigger] b[j]).subrange(0, 4) == square_name(from)
                        + square_name(to);
                assert((a + b)[a.len() + j] == b[j]);
            }
        }
        if (a + b).len() > 0 {
            if a.len() > 0 {
                let (from, to) = choose|from: int, to: int|
                    0 <= from < m && 0 <= to < 64 && #[trigger] legal_from_to(p, from, to);
                assert(legal_from_to(p, from, to));
            } else {
                let to = choose|to: int| 0 <= to < 64 && #[trigger] legal_from_to(p, m as int, to);
                assert(legal_from_to(p, m as int, to));
            }
        }
    }
}

/// The list of legal moves is empty exactly when the side to move has no
/// legal move, that is, when the game is over by checkmate or stalemate.
pub proof fn lemma_no_listed_move_iff_game_over(p: Position)
    requires
        p.board.len() == 12,
    ensures
        (legal_move_texts(p).len() == 0) == !has_legal_move(p),
        (legal_move_texts(p).len() == 0) == (status_of(p) == GameStatus::Checkmate || status_of(p)
            == GameStatus::Stalemate),
{
    lemma_texts_upto_lists(p, 64);
}

/// Every accepted move goes from a source to a target that the list of
/// legal moves holds a move for (the list may write it with a promotion
/// piece where the move leaves it out).
pub proof fn lemma_accepted_moves_are_listed(p: Position, b: Seq<u8>)
    requires
        p.board.len() == 12,
        move_result(p, b) is Ok,
    ensures
        ({
            let (from, to, promotion) = parse_move(b)->Ok_0;
            &&& legal_from_to(p, from as int, to as int)
            &&& lists_pair(legal_move_texts(p), from as int, to as int)
        }),
{
    let (from, to, promotion) = parse_move(b)->Ok_0;
    assert(check_move(p, b) == Ok::<(u8, u8, Option<PieceKind>), crate::game::MoveError>(
        (from, to, promotion),
    ));
    lemma_promotion_irrelevant_to_check(p.board, from as int, to as int, promotion, None);
    assert(legal_from_to(p, from as int, to as int));
    lemma_texts_upto_lists(p, 64);
}

/// A piece of the side to move may move (with the given promotion piece)
/// exactly when the move written in UCI notation is accepted.
pub proof fn lemma_legal_iff_accepted(p: Position, from: int, to: int, promotion: Option<PieceKind>)
    requires
        p.board.len() == 12,
        0 <= from < 64,
        0 <= to < 64,
        piece_on(p.board, from) matches Some(piece) && piece.color == p.side,
        writable_promotion(promotion),
    ensures
        legal(p.board, p.side, from, to, piece_on(p.board, from)->Some_0, promotion) == (move_result(
            p,
            move_bytes(uci_text(from, to, promotion)),
        ) is Ok),
{
    lemma_uci_roundtrip(from, to, promotion);
}

// ---------------------------------------------------------------------------
// Sequences of moves.
// ---------------------------------------------------------------------------

/// The side to move after `n` moves from the start.
pub open spec fn side_after(n: int) -> Color {
    if n % 2 == 0 {
        Color::White
    } else {
        Color::Black
    }
}

/// Playing moves from a position reached by `n` moves keeps the side to
/// move and the move number in step with the number of moves played.
proof fn lemma_replay_counts(p: Position, toks: Seq<Seq<char>>, n: int)
    requires
        n >= 0,
        p.side == side_after(n),
        p.fullmove_number == 1 + n / 2,
        replay(p, toks) is Done,
    ensures
        replay(p, toks)->Done_0.side == side_after(n + toks.len()),
        replay(p, toks)->Done_0.fullmove_number == 1 + (n + toks.len()) / 2,
        toks.len() > 0 ==> replay(p, toks)->Done_0.halfmove_clock == 0,
    decreases toks.len(),
{
    if toks.len() > 0 {
        let q = move_result(p, move_bytes(toks[0]))->Ok_0;
        assert(!move_stops(p, toks[0]));
        lemma_replay_counts(q, toks.drop_first(), n + 1);
        if toks.len() > 1 {
            assert(replay(q, toks.drop_first())->Done_0.halfmove_clock == 0);
        }
    }
}

/// After `k` accepted moves from the start of a game, White is to move
/// when `k` is even and Black when it is odd, the move number is
/// `1 + k / 2`, the halfmove clock is `0` once a move was played, and the
/// FEN writes `w` or `b` and the move number accordingly.
pub proof fn lemma_moves_from_start(toks: Seq<Seq<char>>)
    requires
        replay(start_position(), toks) is Done,
    ensures
        ({
            let q = replay(start_position(), toks)->Done_0;
            let k = toks.len() as int;
            &&& q.side == side_after(k)
            &&& q.fullmove_number == 1 + k / 2
            &&& k > 0 ==> q.halfmove_clock == 0
            &&& fen_text(q) == ranks_text(q.board, 8) + seq![
                ' ',
                if k % 2 == 0 {
                    'w'
                } else {
                    'b'
                },
            ] + " - - "@ + decimal(q.halfmove_clock as nat) + seq![' '] + decimal(
                (1 + k / 2) as nat,
            )
        }),
{
    lemma_replay_counts(start_position(), toks, 0);
}

/// One accepted move after `n` moves from the start is move `n + 1`: the
/// side to move and the move number keep in step (a refused move changes
/// nothing, by the contract of `make_move_uci`).
pub proof fn lemma_accepted_move_counts(p: Position, mv: Seq<char>, n: int)
    requires
        n >= 0,
        p.side == side_after(n),
        p.fullmove_number == 1 + n / 2,
        !move_stops(p, mv),
        move_result(p, move_bytes(mv)) is Ok,
    ensures
        move_result(p, move_bytes(mv))->Ok_0.side == side_after(n + 1),
        move_result(p, move_bytes(mv))->Ok_0.fullmove_number == 1 + (n + 1) / 2,
{
}


// ---------------------------------------------------------------------------
// How pieces move.
// ---------------------------------------------------------------------------

/// A bishop, rook or queen only moves along its lines and never jumps: when
/// its move is pseudo-legal, every square strictly between source and
/// target is empty.
pub proof fn lemma_slider_moves_are_unblocked(v: Seq<u64>, from: int, to: int, piece: Piece)
    requires
        v.len() == 12,
        0 <= from < 64,
        0 <= to < 64,
        piece.kind == PieceKind::Bishop || piece.kind == PieceKind::Rook || piece.kind
            == PieceKind::Queen,
        pseudo_legal(v, from, to, piece),
    ensures
        from != to,
        piece.kind == PieceKind::Rook ==> from % 8 == to % 8 || from / 8 == to / 8,
        piece.kind == PieceKind::Bishop ==> dist(from % 8, to % 8) == dist(from / 8, to / 8),
        piece.kind == PieceKind::Queen ==> from % 8 == to % 8 || from / 8 == to / 8 || dist(
            from % 8,
            to % 8,
        ) == dist(from / 8, to / 8),
        forall|x: int| 0 <= x < 64 && #[trigger] strictly_between(from, to, x) ==> piece_on(v, x) is None,
{
    let occ = occupied_squares(v);
    let (ff, fr, tf, tr) = (from % 8, from / 8, to % 8, to / 8);
    let df = crate::game::sign_int(tf - ff);
    let dr = crate::game::sign_int(tr - fr);
    assert(path_clear(occ, from, to));
    assert forall|x: int| 0 <= x < 64 && #[trigger] strictly_between(from, to, x) implies piece_on(
        v,
        x,
    ) is None by {
        let j: int = if df != 0 {
            dist(x % 8, ff)
        } else {
            dist(x / 8, fr)
        };
        assert(step(ff, df, j) == x % 8 && step(fr, dr, j) == x / 8);
        assert(square_of(x % 8, x / 8) == x);
        assert(!occ.contains(square_of(step(ff, df, j), step(fr, dr, j))));
        lemma_occupied_iff_piece(v, x);
    }
}

/// Conversely, a bishop, rook or queen may move along its lines to any
/// square up to the first piece in the way.
pub proof fn lemma_unblocked_slider_moves(v: Seq<u64>, from: int, to: int, piece: Piece)
    requires
        v.len() == 12,
        0 <= from < 64,
        0 <= to < 64,
        from != to,
        (piece.kind == PieceKind::Rook || piece.kind == PieceKind::Queen) && (from % 8 == to % 8
            || from / 8 == to / 8) || (piece.kind == PieceKind::Bishop || piece.kind
            == PieceKind::Queen) && dist(from % 8, to % 8) == dist(from / 8, to / 8),
        forall|x: int| 0 <= x < 64 && #[trigger] strictly_between(from, to, x) ==> piece_on(v, x) is None,
    ensures
        pseudo_legal(v, from, to, piece),
{
    let occ = occupied_squares(v);
    let (ff, fr, tf, tr) = (from % 8, from / 8, to % 8, to / 8);
    let df = crate::game::sign_int(tf - ff);
    let dr = crate::game::sign_int(tr - fr);
    let n = if crate::game::abs_int(tf - ff) < crate::game::abs_int(tr - fr) {
        crate::game::abs_int(tr - fr)
    } else {
        crate::game::abs_int(tf - ff)
    };
    assert forall|j: int| 1 <= j < n implies !#[trigger] occ.contains(
        square_of(step(ff, df, j), step(fr, dr, j)),
    ) by {
        let x = square_of(step(ff, df, j), step(fr, dr, j));
        assert(x % 8 == step(ff, df, j) && x / 8 == step(fr, dr, j));
        assert(strictly_between(from, to, x));
        lemma_occupied_iff_piece(v, x);
    }
    assert(path_clear(occ, from, to));
}

/// Knights jump one file and two ranks or two files and one rank; kings
/// step to a neighbouring square.
pub proof fn lemma_knight_and_king_moves(v: Seq<u64>, from: int, to: int, piece: Piece)
    requires
        0 <= from < 64,
        0 <= to < 64,
    ensures
        piece.kind == PieceKind::Knight ==> (pseudo_legal(v, from, to, piece) == ((dist(from % 8, to % 8) == 1
            && dist(from / 8, to / 8) == 2) || (dist(from % 8, to % 8) == 2 && dist(from / 8, to / 8)
            == 1))),
        piece.kind == PieceKind::King ==> (pseudo_legal(v, from, to, piece) == (from != to && dist(
            from % 8,
            to % 8,
        ) <= 1 && dist(from / 8, to / 8) <= 1)),
{
}

/// Pawns move forward only (White up the board, Black down): straight
/// onto an empty square, two squares from their starting rank (second for
/// White, seventh for Black) over an empty square, or diagonally onto an
/// occupied square.
pub proof fn lemma_pawn_moves(v: Seq<u64>, from: int, to: int, piece: Piece)
    requires
        0 <= from < 64,
        0 <= to < 64,
        piece.kind == PieceKind::Pawn,
    ensures
        ({
            let d: int = match piece.color {
                Color::White => 1,
                Color::Black => -1,
            };
            let start: int = match piece.color {
                Color::White => 1,
                Color::Black => 6,
            };
            pseudo_legal(v, from, to, piece) == {
            ||| (to % 8 == from % 8 && to / 8 == from / 8 + d && piece_on(v, to) is None)
            ||| (to % 8 == from % 8 && from / 8 == start && to / 8 == from / 8 + 2 * d && piece_on(
                v,
                from + 8 * d,
            ) is None && piece_on(v, to) is None)
            ||| (dist(from % 8, to % 8) == 1 && to / 8 == from / 8 + d && piece_on(v, to) is Some)
            }
        }),
{
}

// ---------------------------------------------------------------------------
// Where listed moves come from.
// ---------------------------------------------------------------------------

/// The shape of a move listed for one source and target.
proof fn lemma_texts_for_shape(p: Position, from: int, to: int, j: int)
    requires
        p.board.len() == 12,
        0 <= from < 64,
        0 <= to < 64,
        0 <= j < texts_for(p, from, to).len(),
    ensures
        legal_from_to(p, from, to),
        ({
            let m = texts_for(p, from, to)[j];
            let pc = piece_on(p.board, from)->Some_0;
            &&& m.subrange(0, 4) == square_name(from) + square_name(to)
            &&& if pc.kind == PieceKind::Pawn && to / 8 == promotion_rank(pc.color) {
                m.len() == 5 && (m[4] == 'q' || m[4] == 'r' || m[4] == 'b' || m[4] == 'n')
            } else {
                m.len() == 4
            }
        }),
{
    let pc = piece_on(p.board, from)->Some_0;
    let m = texts_for(p, from, to)[j];
    if pc.kind == PieceKind::Pawn && to / 8 == promotion_rank(pc.color) {
        let a = promotion_text(p, from, to, PieceKind::Queen);
        let b = promotion_text(p, from, to, PieceKind::Rook);
        let c = promotion_text(p, from, to, PieceKind::Bishop);
        let d = promotion_text(p, from, to, PieceKind::Knight);
        assert(texts_for(p, from, to) == a + b + c + d);
        let k = if j < a.len() {
            PieceKind::Queen
        } else if j < a.len() + b.len() {
            PieceKind::Rook
        } else if j < a.len() + b.len() + c.len() {
            PieceKind::Bishop
        } else {
            PieceKind::Knight
        };
        if j < a.len() {
            assert(m == a[j]);
        } else if j < a.len() + b.len() {
            assert(m == b[j - a.len()]);
        } else if j < a.len() + b.len() + c.len() {
            assert(m == c[j - a.len() - b.len()]);
        } else {
            assert(m == d[j - a.len() - b.len() - c.len()]);
        }
        assert(m == uci_text(from, to, Some(k)));
        assert(m.subrange(0, 4) =~= square_name(from) + square_name(to));
    } else {
        assert(m == uci_text(from, to, None));
        assert(m.subrange(0, 4) =~= square_name(from) + square_name(to));
    }
}

/// Every listed move comes from the moves listed for one source and target.
proof fn lemma_texts_upto_origin(p: Position, n: nat, i: int)
    requires
        p.board.len() == 12,
        n <= 64,
        0 <= i < texts_upto(p, n).len(),
    ensures
        exists|from: int, to: int, j: int|
            0 <= from < n && 0 <= to < 64 && 0 <= j < texts_for(p, from, to).len()
                && texts_upto(p, n)[i] == #[trigger] texts_for(p, from, to)[j],
    decreases n,
{
    let m = (n - 1) as nat;
    let a = texts_upto(p, m);
    assert(texts_upto(p, n) == a + texts_from(p, m as int, 64));
    if i < a.len() {
        lemma_texts_upto_origin(p, m, i);
        let (from, to, j) = choose|from: int, to: int, j: int|
            0 <= from < m && 0 <= to < 64 && 0 <= j < texts_for(p, from, to).len()
                && a[i] == #[trigger] texts_for(p, from, to)[j];
        assert(texts_upto(p, n)[i] == texts_for(p, from, to)[j]);
    } else {
        lemma_texts_from_origin(p, m as int, 64, i - a.len());
        let (to, j) = choose|to: int, j: int|
            0 <= to < 64 && 0 <= j < texts_for(p, m as int, to).len() && texts_from(
                p,
                m as int,
                64,
            )[i - a.len()] == #[trigger] texts_for(p, m as int, to)[j];
        assert(texts_upto(p, n)[i] == texts_for(p, m as int, to)[j]);
    }
}

proof fn lemma_texts_from_origin(p: Position, from: int, n: nat, i: int)
    requires
        p.board.len() == 12,
        n <= 64,
        0 <= i < texts_from(p, from, n).len(),
    ensures
        exists|to: int, j: int|
            0 <= to < n && 0 <= j < texts_for(p, from, to).len() && texts_from(p, from, n)[i]
                == #[trigger] texts_for(p, from, to)[j],
    decreases n,
{
    let m = (n - 1) as nat;
    let a = texts_from(p, from, m);
    let b = texts_for(p, from, m as int);
    assert(texts_from(p, from, n) == a + b);
    if i < a.len() {
        lemma_texts_from_origin(p, from, m, i);
        let (to, j) = choose|to: int, j: int|
            0 <= to < m && 0 <= j < texts_for(p, from, to).len() && a[i] == #[trigger] texts_for(
                p,
                from,
                to,
            )[j];
        assert(texts_from(p, from, n)[i] == texts_for(p, from, to)[j]);
    } else {
        assert(texts_from(p, from, n)[i] == b[i - a.len()]);
    }
}

/// Every listed move starts with a piece of the side to move, and a pawn
/// move reaches the pawn's last rank (the eighth for White, the first for
/// Black) exactly when it carries a promotion letter `q`, `r`, `b` or `n`;
/// other moves have four characters.
#[verifier::spinoff_prover]
#[verifier::rlimit(40)]
pub proof fn lemma_listed_promotions(p: Position, i: int)
    requires
        p.board.len() == 12,
        0 <= i < legal_move_texts(p).len(),
    ensures
        ({
            let m = legal_move_texts(p)[i];
            let from = (m[1] as int - 49) * 8 + (m[0] as int - 97);
            let pc = piece_on(p.board, from)->Some_0;
            &&& m.len() == 4 || m.len() == 5
            &&& 'a' <= m[0] <= 'h' && '1' <= m[1] <= '8' && 'a' <= m[2] <= 'h' && '1' <= m[3] <= '8'
            &&& piece_on(p.board, from) is Some && pc.color == p.side
            &&& (pc.kind == PieceKind::Pawn && m[3] == (match pc.color {
                Color::White => '8',
                Color::Black => '1',
            })) ==> m.len() == 5 && (m[4] == 'q' || m[4] == 'r' || m[4] == 'b' || m[4] == 'n')
            &&& !(pc.kind == PieceKind::Pawn && m[3] == (match pc.color {
                Color::White => '8',
                Color::Black => '1',
            })) ==> m.len() == 4
        }),
{
    lemma_texts_upto_origin(p, 64, i);
    let (from, to, j) = choose|from: int, to: int, j: int|
        0 <= from < 64 && 0 <= to < 64 && 0 <= j < texts_for(p, from, to).len()
            && legal_move_texts(p)[i] == #[trigger] texts_for(p, from, to)[j];
    lemma_texts_for_shape(p, from, to, j);
    let m = legal_move_texts(p)[i];
    assert(m[0] == m.subrange(0, 4)[0] && m[1] == m.subrange(0, 4)[1]);
    assert(m[2] == m.subrange(0, 4)[2] && m[3] == m.subrange(0, 4)[3]);
    assert(m[0] as int == 97 + from % 8 && m[1] as int == 49 + from / 8);
    assert(m[3] as int == 49 + to / 8);
}

// ---------------------------------------------------------------------------
// What a move does to the board.
// ---------------------------------------------------------------------------

/// A move empties its source square, puts the moving piece (a pawn turned
/// into the promotion piece, if one is given) on its target square, and
/// leaves every other square as it was.
pub proof fn lemma_move_effect(v: Seq<u64>, from: int, to: int, promotion: Option<PieceKind>, t: int)
    requires
        v.len() == 12,
        0 <= from < 64,
        0 <= to < 64,
        from != to,
        piece_on(v, from) is Some,
    ensures
        ({
            let pc = piece_on(v, from)->Some_0;
            let after = board_after_move(v, from, to, promotion);
            &&& piece_on(after, to) == Some(
                Piece {
                    color: pc.color,
                    kind: if pc.kind == PieceKind::Pawn && promotion is Some {
                        promotion->Some_0
                    } else {
                        pc.kind
                    },
                },
            )
            &&& piece_on(after, from) is None
            &&& (t != from && t != to ==> piece_on(after, t) == piece_on(v, t))
        }),
{
    let pc = piece_on(v, from)->Some_0;
    let w1 = board_cleared(v, to);
    let w2 = board_cleared(w1, from);
    lemma_cleared_holds(v, to, Color::White, PieceKind::Pawn, 0);
    let np = Piece { color: pc.color, kind: arriving_kind(pc.kind, promotion) };
    assert forall|c: Color, k: PieceKind, x: int|
        #[trigger] crate::board::holds(w2, c, k, x) == (crate::board::holds(v, c, k, x) && x != to
            && x != from) by {
        lemma_cleared_holds(v, to, c, k, x);
        lemma_cleared_holds(w1, from, c, k, x);
    }
    assert(piece_on(w2, to) is None);
    assert(piece_on(w2, from) is None);
    lemma_placed_piece_on(w2, to, np, from);
    lemma_placed_piece_on(w2, to, np, to);
    lemma_placed_piece_on(w2, to, np, t);
    assert(t != from && t != to ==> piece_on(w2, t) == piece_on(v, t));
}

// ---------------------------------------------------------------------------
// Status and names.
// ---------------------------------------------------------------------------

/// The status of a game: checkmate when the side to move is in check and
/// has no legal move, stalemate when it has none but is not in check, check
/// when it is in check and can move, and in progress otherwise; being in
/// check means that some piece of the other side attacks a king of the side
/// to move.
pub proof fn lemma_status_meaning(p: Position)
    requires
        p.board.len() == 12,
    ensures
        ({
            let none = legal_move_texts(p).len() == 0;
            let checked = in_check(p.board, p.side);
            &&& (status_of(p) == GameStatus::Checkmate) == (none && checked)
            &&& (status_of(p) == GameStatus::Stalemate) == (none && !checked)
            &&& (status_of(p) == GameStatus::Check) == (!none && checked)
            &&& (status_of(p) == GameStatus::InProgress) == (!none && !checked)
        }),
        in_check(p.board, p.side) ==> exists|k: int, s: int|
            0 <= k < 64 && 0 <= s < 64 && crate::board::holds(p.board, p.side, PieceKind::King, k)
                && #[trigger] crate::board::attacks_from(p.board, opponent(p.side), s, k),
{
    lemma_no_listed_move_iff_game_over(p);
    if in_check(p.board, p.side) {
        let k = crate::board::king_square_of(p.board, p.side)->Some_0;
        vstd::std_specs::bits::axiom_u64_trailing_zeros(
            p.board[word_index(p.side, PieceKind::King)],
        );
        assert(crate::board::holds(p.board, p.side, PieceKind::King, k));
        crate::board::lemma_attacks_have_a_cause(p.board, opponent(p.side), k);
    }
}

/// Squares are named by file letter `a`..`h` and rank digit `1`..`8`: the
/// square on file `f` and rank `r` (counted from `0`) is `8 * r + f`.
pub proof fn lemma_square_names(f: int, r: int)
    requires
        0 <= f < 8,
        0 <= r < 8,
    ensures
        square_from_bytes(seq![(97 + f) as u8, (49 + r) as u8]) == Ok::<u8, SquareError>(
            (8 * r + f) as u8,
        ),
        square_name(8 * r + f) == seq![(97 + f) as char, (49 + r) as char],
{
}

/// A pawn promotes to any of the four pieces alike: when one promotion
/// move from a source to a target is listed, all four are.
pub proof fn lemma_all_promotions_listed(p: Position, from: int, to: int)
    requires
        p.board.len() == 12,
        0 <= from < 64,
        0 <= to < 64,
        texts_for(p, from, to).len() > 0,
        piece_on(p.board, from)->Some_0.kind == PieceKind::Pawn,
        to / 8 == promotion_rank(piece_on(p.board, from)->Some_0.color),
    ensures
        texts_for(p, from, to) == seq![
            uci_text(from, to, Some(PieceKind::Queen)),
            uci_text(from, to, Some(PieceKind::Rook)),
            uci_text(from, to, Some(PieceKind::Bishop)),
            uci_text(from, to, Some(PieceKind::Knight)),
        ],
{
    lemma_texts_for_nonempty(p, from, to);
    let pc = piece_on(p.board, from)->Some_0;
    lemma_promotion_irrelevant_to_check(p.board, from, to, None, Some(PieceKind::Queen));
    lemma_promotion_irrelevant_to_check(p.board, from, to, None, Some(PieceKind::Rook));
    lemma_promotion_irrelevant_to_check(p.board, from, to, None, Some(PieceKind::Bishop));
    lemma_promotion_irrelevant_to_check(p.board, from, to, None, Some(PieceKind::Knight));
    assert(texts_for(p, from, to) =~= seq![
        uci_text(from, to, Some(PieceKind::Queen)),
        uci_text(from, to, Some(PieceKind::Rook)),
        uci_text(from, to, Some(PieceKind::Bishop)),
        uci_text(from, to, Some(PieceKind::Knight)),
    ]);
}

} // verus!
