//! Pieces, colours and the bitboard that holds a position.
//!
//! Squares are numbered `0..64` with `a1 == 0`, `b1 == 1`, ..., `h8 == 63`:
//! the file of square `s` is `s % 8` and its rank `s / 8`.
use vstd::prelude::*;
use crate::bits::{has_bit, lemma_mask_test, lemma_or_bit, lemma_set_bit, lemma_clear_bit, lemma_zero_bits};

verus! {

/// The two sides.
#[derive(Debug, Clone, Copy, PartialEq, Eq, Structural)]
pub enum Color {
    White,
    Black,
}

/// The six kinds of chess pieces.
#[derive(Debug, Clone, Copy, PartialEq, Eq, Structural)]
pub enum PieceKind {
    Pawn,
    Knight,
    Bishop,
    Rook,
    Queen,
    King,
}

/// A piece: a kind and the side it belongs to.
#[derive(Debug, Clone, Copy, PartialEq, Eq, Structural)]
pub struct Piece {
    pub color: Color,
    pub kind: PieceKind,
}

/// One 64-bit word per colour and piece kind; bit `s` of a word is set when
/// such a piece stands on square `s`.
#[derive(Debug, Clone, Copy, PartialEq, Eq)]
pub struct BitBoard {
    pawns: [u64; 2],
    knights: [u64; 2],
    bishops: [u64; 2],
    rooks: [u64; 2],
    queens: [u64; 2],
    kings: [u64; 2],
}

// ---------------------------------------------------------------------------
// The model: a board is the sequence of its twelve words.
// ---------------------------------------------------------------------------

/// The side that moves after `c`.
pub open spec fn opponent(c: Color) -> Color {
    match c {
        Color::White => Color::Black,
        Color::Black => Color::White,
    }
}

/// `0` for White, `1` for Black.
pub open spec fn color_number(c: Color) -> int {
    match c {
        Color::White => 0,
        Color::Black => 1,
    }
}

/// Position of a kind among the six words of one side.
pub open spec fn kind_number(k: PieceKind) -> int {
    match k {
        PieceKind::Pawn => 0,
        PieceKind::Knight => 1,
        PieceKind::Bishop => 2,
        PieceKind::Rook => 3,
        PieceKind::Queen => 4,
        PieceKind::King => 5,
    }
}

/// Index of the word of `(c, k)` in the twelve words of a board.
pub open spec fn word_index(c: Color, k: PieceKind) -> int {
    color_number(c) * 6 + kind_number(k)
}

/// A piece of colour `c` and kind `k` stands on `sq`.
pub open spec fn holds(v: Seq<u64>, c: Color, k: PieceKind, sq: int) -> bool {
    has_bit(v[word_index(c, k)], sq)
}

/// The first kind of colour `c` found on `sq`, in the order pawn, knight,
/// bishop, rook, queen, king.
pub open spec fn kind_on(v: Seq<u64>, c: Color, sq: int) -> Option<PieceKind> {
    if holds(v, c, PieceKind::Pawn, sq) {
        Some(PieceKind::Pawn)
    } else if holds(v, c, PieceKind::Knight, sq) {
        Some(PieceKind::Knight)
    } else if holds(v, c, PieceKind::Bishop, sq) {
        Some(PieceKind::Bishop)
    } else if holds(v, c, PieceKind::Rook, sq) {
        Some(PieceKind::Rook)
    } else if holds(v, c, PieceKind::Queen, sq) {
        Some(PieceKind::Queen)
    } else if holds(v, c, PieceKind::King, sq) {
        Some(PieceKind::King)
    } else {
        None
    }
}

/// What stands on `sq`: a white piece is found before a black one.
pub open spec fn piece_on(v: Seq<u64>, sq: int) -> Option<Piece> {
    match kind_on(v, Color::White, sq) {
        Some(k) => Some(Piece { color: Color::White, kind: k }),
        None => match kind_on(v, Color::Black, sq) {
            Some(k) => Some(Piece { color: Color::Black, kind: k }),
            None => None,
        },
    }
}

/// The union of the six words of colour `c`.
pub open spec fn color_occupancy(v: Seq<u64>, c: Color) -> u64 {
    let i = color_number(c) * 6;
    v[i] | v[i + 1] | v[i + 2] | v[i + 3] | v[i + 4] | v[i + 5]
}

/// The union of all twelve words.
pub open spec fn occupancy_word(v: Seq<u64>) -> u64 {
    color_occupancy(v, Color::White) | color_occupancy(v, Color::Black)
}

/// The squares whose bits are set in `x`.
pub open spec fn bit_squares(x: u64) -> Set<int> {
    Set::new(|sq: int| has_bit(x, sq))
}

/// The squares on which some piece stands.
pub open spec fn occupied_squares(v: Seq<u64>) -> Set<int> {
    bit_squares(occupancy_word(v))
}

/// The board with square `sq` emptied (every word loses bit `sq`).
pub open spec fn board_cleared(v: Seq<u64>, sq: int) -> Seq<u64> {
    v.map_values(|w: u64| w & !(1u64 << (sq as u64)))
}

/// The board with `p` added on square `sq` (the other words unchanged).
pub open spec fn board_placed(v: Seq<u64>, sq: int, p: Piece) -> Seq<u64> {
    v.update(word_index(p.color, p.kind), v[word_index(p.color, p.kind)] | (1u64 << (sq as u64)))
}

/// The letter of a piece in FEN: upper case for White, lower case for Black.
pub open spec fn fen_letter(p: Piece) -> char {
    match p.color {
        Color::White => match p.kind {
            PieceKind::Pawn => 'P',
            PieceKind::Knight => 'N',
            PieceKind::Bishop => 'B',
            PieceKind::Rook => 'R',
            PieceKind::Queen => 'Q',
            PieceKind::King => 'K',
        },
        Color::Black => match p.kind {
            PieceKind::Pawn => 'p',
            PieceKind::Knight => 'n',
            PieceKind::Bishop => 'b',
            PieceKind::Rook => 'r',
            PieceKind::Queen => 'q',
            PieceKind::King => 'k',
        },
    }
}

/// The words of the standard starting position.
pub open spec fn start_words() -> Seq<u64> {
    seq![
        0x0000_0000_0000_FF00u64,
        0x0000_0000_0000_0042u64,
        0x0000_0000_0000_0024u64,
        0x0000_0000_0000_0081u64,
        0x0000_0000_0000_0008u64,
        0x0000_0000_0000_0010u64,
        0x00FF_0000_0000_0000u64,
        0x4200_0000_0000_0000u64,
        0x2400_0000_0000_0000u64,
        0x8100_0000_0000_0000u64,
        0x0800_0000_0000_0000u64,
        0x1000_0000_0000_0000u64,
    ]
}

/// The square of the king of colour `c`: the lowest set bit of its word.
pub open spec fn king_square_of(v: Seq<u64>, c: Color) -> Option<int> {
    let w = v[word_index(c, PieceKind::King)];
    if w == 0 {
        None
    } else {
        Some(vstd::std_specs::bits::u64_trailing_zeros(w) as int)
    }
}


// ---------------------------------------------------------------------------
// Attacks.
// ---------------------------------------------------------------------------

/// File `f` and rank `r` are both in `0..8`.
pub open spec fn on_board(f: int, r: int) -> bool {
    0 <= f < 8 && 0 <= r < 8
}

/// The square on file `f` and rank `r`.
pub open spec fn square_of(f: int, r: int) -> int {
    r * 8 + f
}

/// Coordinate `x` moved `k` steps in direction `d` (`d` is `-1`, `0` or `1`).
pub open spec fn step(x: int, d: int, k: int) -> int {
    if d > 0 {
        x + k
    } else if d < 0 {
        x - k
    } else {
        x
    }
}

/// Among the six words `own` of the attacking side, the word of kind `k` has
/// the square on file `f` and rank `r`, which lies on the board.
pub open spec fn own_on(own: Seq<u64>, k: PieceKind, f: int, r: int) -> bool {
    on_board(f, r) && has_bit(own[kind_number(k)], square_of(f, r))
}

/// A pawn of `by` attacks the square on file `f`, rank `r` (White pawns
/// capture upwards, Black pawns downwards).
pub open spec fn pawn_attacks(own: Seq<u64>, f: int, r: int, by: Color) -> bool {
    match by {
        Color::White => own_on(own, PieceKind::Pawn, f - 1, r - 1) || own_on(
            own,
            PieceKind::Pawn,
            f + 1,
            r - 1,
        ),
        Color::Black => own_on(own, PieceKind::Pawn, f - 1, r + 1) || own_on(
            own,
            PieceKind::Pawn,
            f + 1,
            r + 1,
        ),
    }
}

/// A knight stands a knight's jump away.
pub open spec fn knight_attacks(own: Seq<u64>, f: int, r: int) -> bool {
    let n = PieceKind::Knight;
    ||| own_on(own, n, f + 2, r + 1)
    ||| own_on(own, n, f + 2, r - 1)
    ||| own_on(own, n, f - 2, r + 1)
    ||| own_on(own, n, f - 2, r - 1)
    ||| own_on(own, n, f + 1, r + 2)
    ||| own_on(own, n, f + 1, r - 2)
    ||| own_on(own, n, f - 1, r + 2)
    ||| own_on(own, n, f - 1, r - 2)
}

/// A king stands on a neighbouring square.
pub open spec fn king_attacks(own: Seq<u64>, f: int, r: int) -> bool {
    let k = PieceKind::King;
    ||| own_on(own, k, f + 1, r)
    ||| own_on(own, k, f - 1, r)
    ||| own_on(own, k, f, r + 1)
    ||| own_on(own, k, f, r - 1)
    ||| own_on(own, k, f + 1, r + 1)
    ||| own_on(own, k, f + 1, r - 1)
    ||| own_on(own, k, f - 1, r + 1)
    ||| own_on(own, k, f - 1, r - 1)
}

/// A piece that moves along the given kind of line: bishop or queen on a
/// diagonal, rook or queen on a file or rank.
pub open spec fn slider_on(own: Seq<u64>, sq: int, diagonal: bool) -> bool {
    if diagonal {
        has_bit(own[kind_number(PieceKind::Bishop)], sq) || has_bit(
            own[kind_number(PieceKind::Queen)],
            sq,
        )
    } else {
        has_bit(own[kind_number(PieceKind::Rook)], sq) || has_bit(
            own[kind_number(PieceKind::Queen)],
            sq,
        )
    }
}

/// Walking from `(f, r)` in direction `(df, dr)`, the first occupied square is
/// `k` steps away and holds a piece of `own` that moves along that line.
pub open spec fn ray_hit(
    own: Seq<u64>,
    occ: Set<int>,
    f: int,
    r: int,
    df: int,
    dr: int,
    k: int,
) -> bool {
    let tf = step(f, df, k);
    let tr = step(r, dr, k);
    &&& on_board(tf, tr)
    &&& occ.contains(square_of(tf, tr))
    &&& slider_on(own, square_of(tf, tr), df != 0 && dr != 0)
    &&& forall|j: int|
        1 <= j < k ==> !#[trigger] occ.contains(square_of(step(f, df, j), step(r, dr, j)))
}

/// The first piece met along direction `(df, dr)` attacks along that line.
pub open spec fn ray_attacks(
    own: Seq<u64>,
    occ: Set<int>,
    f: int,
    r: int,
    df: int,
    dr: int,
) -> bool {
    exists|k: int| 1 <= k && #[trigger] ray_hit(own, occ, f, r, df, dr, k)
}

/// A rook, bishop or queen attacks along one of the eight lines.
pub open spec fn slider_attacks(own: Seq<u64>, occ: Set<int>, f: int, r: int) -> bool {
    ||| ray_attacks(own, occ, f, r, 1, 0)
    ||| ray_attacks(own, occ, f, r, -1, 0)
    ||| ray_attacks(own, occ, f, r, 0, 1)
    ||| ray_attacks(own, occ, f, r, 0, -1)
    ||| ray_attacks(own, occ, f, r, 1, 1)
    ||| ray_attacks(own, occ, f, r, 1, -1)
    ||| ray_attacks(own, occ, f, r, -1, 1)
    ||| ray_attacks(own, occ, f, r, -1, -1)
}

/// Square `sq` is attacked by the side `by` whose six words are `own`, on a
/// board whose occupied squares are `occ`.
pub open spec fn attacks(own: Seq<u64>, occ: Set<int>, sq: int, by: Color) -> bool {
    let f = sq % 8;
    let r = sq / 8;
    &&& 0 <= sq < 64
    &&& {
        ||| pawn_attacks(own, f, r, by)
        ||| knight_attacks(own, f, r)
        ||| king_attacks(own, f, r)
        ||| slider_attacks(own, occ, f, r)
    }
}

/// The six words of side `c`.
pub open spec fn side_words(v: Seq<u64>, c: Color) -> Seq<u64> {
    v.subrange(color_number(c) * 6, color_number(c) * 6 + 6)
}

/// Square `sq` of board `v` is attacked by `by`.
pub open spec fn square_attacked(v: Seq<u64>, sq: int, by: Color) -> bool {
    attacks(side_words(v, by), occupied_squares(v), sq, by)
}

impl View for BitBoard {
    type V = Seq<u64>;

    closed spec fn view(&self) -> Seq<u64> {
        seq![
            self.pawns[0],
            self.knights[0],
            self.bishops[0],
            self.rooks[0],
            self.queens[0],
            self.kings[0],
            self.pawns[1],
            self.knights[1],
            self.bishops[1],
            self.rooks[1],
            self.queens[1],
            self.kings[1],
        ]
    }
}

/// Every board has twelve words.
pub broadcast proof fn lemma_board_len(b: BitBoard)
    ensures
        #[trigger] b@.len() == 12,
{
}

// ---------------------------------------------------------------------------
// Facts about the model.
// ---------------------------------------------------------------------------

/// A piece is found on a square exactly when some word has its bit.
pub proof fn lemma_occupied_iff_piece(v: Seq<u64>, sq: int)
    requires
        v.len() == 12,
    ensures
        occupied_squares(v).contains(sq) == (piece_on(v, sq) is Some),
        (piece_on(v, sq) is Some) == (exists|i: int| 0 <= i < 12 && has_bit(#[trigger] v[i], sq)),
{
    lemma_or_bit(v[0], v[1], sq);
    lemma_or_bit(v[0] | v[1], v[2], sq);
    lemma_or_bit(v[0] | v[1] | v[2], v[3], sq);
    lemma_or_bit(v[0] | v[1] | v[2] | v[3], v[4], sq);
    lemma_or_bit(v[0] | v[1] | v[2] | v[3] | v[4], v[5], sq);
    lemma_or_bit(v[6], v[7], sq);
    lemma_or_bit(v[6] | v[7], v[8], sq);
    lemma_or_bit(v[6] | v[7] | v[8], v[9], sq);
    lemma_or_bit(v[6] | v[7] | v[8] | v[9], v[10], sq);
    lemma_or_bit(v[6] | v[7] | v[8] | v[9] | v[10], v[11], sq);
    lemma_or_bit(color_occupancy(v, Color::White), color_occupancy(v, Color::Black), sq);
    if piece_on(v, sq) is Some {
        let i: int = if has_bit(v[0], sq) {
            0
        } else if has_bit(v[1], sq) {
            1
        } else if has_bit(v[2], sq) {
            2
        } else if has_bit(v[3], sq) {
            3
        } else if has_bit(v[4], sq) {
            4
        } else if has_bit(v[5], sq) {
            5
        } else if has_bit(v[6], sq) {
            6
        } else if has_bit(v[7], sq) {
            7
        } else if has_bit(v[8], sq) {
            8
        } else if has_bit(v[9], sq) {
            9
        } else if has_bit(v[10], sq) {
            10
        } else {
            11
        };
        assert(has_bit(v[i], sq));
    }
}

/// Which pieces a cleared board holds.
pub proof fn lemma_cleared_holds(v: Seq<u64>, sq: int, c: Color, k: PieceKind, t: int)
    requires
        v.len() == 12,
        0 <= sq < 64,
    ensures
        holds(board_cleared(v, sq), c, k, t) == (holds(v, c, k, t) && t != sq),
        board_cleared(v, sq).len() == 12,
{
    lemma_clear_bit(v[word_index(c, k)], sq as u64, t);
}

/// Which pieces a board holds after a piece is placed.
pub proof fn lemma_placed_holds(v: Seq<u64>, sq: int, p: Piece, c: Color, k: PieceKind, t: int)
    requires
        v.len() == 12,
        0 <= sq < 64,
    ensures
        holds(board_placed(v, sq, p), c, k, t) == (holds(v, c, k, t) || (t == sq && c == p.color
            && k == p.kind)),
        board_placed(v, sq, p).len() == 12,
{
    if c == p.color && k == p.kind {
        lemma_set_bit(v[word_index(c, k)], sq as u64, t);
    }
}


/// Emptying a square and then placing `p` on it: reading the square gives
/// `p` back, and every other square keeps what it held.
pub proof fn lemma_place_then_read(v: Seq<u64>, sq: int, p: Piece, t: int)
    requires
        v.len() == 12,
        0 <= sq < 64,
    ensures
        piece_on(board_cleared(v, sq), sq) is None,
        t != sq ==> piece_on(board_cleared(v, sq), t) == piece_on(v, t),
        piece_on(board_placed(board_cleared(v, sq), sq, p), sq) == Some(p),
        t != sq ==> piece_on(board_placed(board_cleared(v, sq), sq, p), t) == piece_on(v, t),
{
    let w = board_cleared(v, sq);
    let u = board_placed(w, sq, p);
    assert forall|c: Color, k: PieceKind|
        #![trigger holds(w, c, k, sq)]
        #![trigger holds(w, c, k, t)]
        !holds(w, c, k, sq) && holds(u, c, k, sq) == (c == p.color && k == p.kind) && (t != sq ==> (
        holds(w, c, k, t) == holds(v, c, k, t) && holds(u, c, k, t) == holds(v, c, k, t))) by {
        lemma_cleared_holds(v, sq, c, k, sq);
        lemma_cleared_holds(v, sq, c, k, t);
        lemma_placed_holds(w, sq, p, c, k, sq);
        lemma_placed_holds(w, sq, p, c, k, t);
    }
}


/// Placing a piece on `sq` adds `sq` to the occupied squares and nothing else.
pub proof fn lemma_placed_occupied(v: Seq<u64>, sq: int, p: Piece)
    requires
        v.len() == 12,
        0 <= sq < 64,
    ensures
        occupied_squares(board_placed(v, sq, p)) == occupied_squares(v).insert(sq),
{
    let u = board_placed(v, sq, p);
    let j = word_index(p.color, p.kind);
    assert forall|t: int| #[trigger] occupied_squares(u).contains(t) == occupied_squares(v).insert(sq).contains(t) by {
        lemma_occupied_iff_piece(u, t);
        lemma_occupied_iff_piece(v, t);
        lemma_set_bit(v[j], sq as u64, t);
        if occupied_squares(u).contains(t) {
            let i = choose|i: int| 0 <= i < 12 && has_bit(#[trigger] u[i], t);
            if i != j {
                assert(has_bit(v[i], t));
            } else if t != sq {
                assert(has_bit(v[j], t));
            }
        }
        if occupied_squares(v).contains(t) {
            let i = choose|i: int| 0 <= i < 12 && has_bit(#[trigger] v[i], t);
            if i != j {
                assert(has_bit(u[i], t));
            } else {
                assert(has_bit(u[j], t));
            }
        }
        if t == sq {
            assert(has_bit(u[j], t));
        }
    }
    assert(occupied_squares(u) =~= occupied_squares(v).insert(sq));
}


/// Placing `p` on an empty square: that square then holds `p`, and every
/// other square holds what it held.
pub proof fn lemma_placed_piece_on(v: Seq<u64>, sq: int, p: Piece, t: int)
    requires
        v.len() == 12,
        0 <= sq < 64,
        piece_on(v, sq) is None,
    ensures
        t == sq ==> piece_on(board_placed(v, sq, p), t) == Some(p),
        t != sq ==> piece_on(board_placed(v, sq, p), t) == piece_on(v, t),
{
    let u = board_placed(v, sq, p);
    assert forall|c: Color, k: PieceKind| #[trigger] holds(u, c, k, t) == (holds(v, c, k, t) || (t
        == sq && c == p.color && k == p.kind)) by {
        lemma_placed_holds(v, sq, p, c, k, t);
    }
}


// ---------------------------------------------------------------------------
// What attacks a square.
// ---------------------------------------------------------------------------

/// The distance between two files or two ranks.
pub open spec fn dist(a: int, b: int) -> int {
    if a < b {
        b - a
    } else {
        a - b
    }
}

/// A knight attacks every square a knight's jump away: one file and two
/// ranks, or two files and one rank, in any direction.
pub proof fn lemma_knight_attacks(v: Seq<u64>, by: Color, s: int, t: int)
    requires
        v.len() == 12,
        0 <= s < 64,
        0 <= t < 64,
        holds(v, by, PieceKind::Knight, s),
        (dist(s % 8, t % 8) == 1 && dist(s / 8, t / 8) == 2) || (dist(s % 8, t % 8) == 2 && dist(
            s / 8,
            t / 8,
        ) == 1),
    ensures
        square_attacked(v, t, by),
{
    let own = side_words(v, by);
    assert(own[kind_number(PieceKind::Knight)] == v[word_index(by, PieceKind::Knight)]);
    assert(square_of(s % 8, s / 8) == s);
    assert(own_on(own, PieceKind::Knight, s % 8, s / 8));
}

/// A king attacks the eight squares around it.
pub proof fn lemma_king_attacks(v: Seq<u64>, by: Color, s: int, t: int)
    requires
        v.len() == 12,
        0 <= s < 64,
        0 <= t < 64,
        s != t,
        holds(v, by, PieceKind::King, s),
        dist(s % 8, t % 8) <= 1 && dist(s / 8, t / 8) <= 1,
    ensures
        square_attacked(v, t, by),
{
    let own = side_words(v, by);
    assert(own[kind_number(PieceKind::King)] == v[word_index(by, PieceKind::King)]);
    assert(square_of(s % 8, s / 8) == s);
    assert(own_on(own, PieceKind::King, s % 8, s / 8));
}

/// A pawn attacks the two squares diagonally in front of it: one rank up
/// for White, one rank down for Black, on a neighbouring file.
pub proof fn lemma_pawn_attacks(v: Seq<u64>, by: Color, s: int, t: int)
    requires
        v.len() == 12,
        0 <= s < 64,
        0 <= t < 64,
        holds(v, by, PieceKind::Pawn, s),
        dist(s % 8, t % 8) == 1,
        t / 8 == s / 8 + (match by {
            Color::White => 1int,
            Color::Black => -1int,
        }),
    ensures
        square_attacked(v, t, by),
{
    let own = side_words(v, by);
    assert(own[kind_number(PieceKind::Pawn)] == v[word_index(by, PieceKind::Pawn)]);
    assert(square_of(s % 8, s / 8) == s);
    assert(own_on(own, PieceKind::Pawn, s % 8, s / 8));
}

/// Square `x` lies strictly between `s` and `t`, which share a rank, a file
/// or a diagonal.
pub open spec fn strictly_between(s: int, t: int, x: int) -> bool {
    let (sf, sr, tf, tr, xf, xr) = (s % 8, s / 8, t % 8, t / 8, x % 8, x / 8);
    let inside_f = (sf < xf < tf) || (tf < xf < sf);
    let inside_r = (sr < xr < tr) || (tr < xr < sr);
    ||| sr == tr && xr == sr && inside_f
    ||| sf == tf && xf == sf && inside_r
    ||| dist(sf, tf) == dist(sr, tr) && inside_f && inside_r && dist(xf, sf) == dist(xr, sr)
}

/// A rook or queen attacks along its rank and file, and a bishop or queen
/// along its diagonals, as far as the first piece in the way: a square is
/// attacked when every square between it and such a piece is empty.
pub proof fn lemma_line_attacks(v: Seq<u64>, by: Color, s: int, t: int)
    requires
        v.len() == 12,
        0 <= s < 64,
        0 <= t < 64,
        s != t,
        ((s % 8 == t % 8 || s / 8 == t / 8) && (holds(v, by, PieceKind::Rook, s) || holds(
            v,
            by,
            PieceKind::Queen,
            s,
        ))) || (dist(s % 8, t % 8) == dist(s / 8, t / 8) && (holds(v, by, PieceKind::Bishop, s)
            || holds(v, by, PieceKind::Queen, s))),
        forall|x: int| 0 <= x < 64 && #[trigger] strictly_between(s, t, x) ==> piece_on(v, x) is None,
    ensures
        square_attacked(v, t, by),
{
    let own = side_words(v, by);
    let occ = occupied_squares(v);
    let (sf, sr, tf, tr) = (s % 8, s / 8, t % 8, t / 8);
    let df: int = if sf > tf { 1 } else if sf < tf { -1 } else { 0 };
    let dr: int = if sr > tr { 1 } else if sr < tr { -1 } else { 0 };
    let k: int = if dist(sf, tf) > dist(sr, tr) { dist(sf, tf) } else { dist(sr, tr) };
    assert(own[kind_number(PieceKind::Bishop)] == v[word_index(by, PieceKind::Bishop)]);
    assert(own[kind_number(PieceKind::Rook)] == v[word_index(by, PieceKind::Rook)]);
    assert(own[kind_number(PieceKind::Queen)] == v[word_index(by, PieceKind::Queen)]);
    assert(step(tf, df, k) == sf && step(tr, dr, k) == sr);
    assert(square_of(sf, sr) == s);
    lemma_occupied_iff_piece(v, s);
    assert(occ.contains(s));
    assert(slider_on(own, s, df != 0 && dr != 0));
    assert forall|j: int|
        1 <= j < k implies !#[trigger] occ.contains(square_of(step(tf, df, j), step(tr, dr, j))) by {
        let x = square_of(step(tf, df, j), step(tr, dr, j));
        assert(x % 8 == step(tf, df, j) && x / 8 == step(tr, dr, j));
        assert(strictly_between(s, t, x));
        lemma_occupied_iff_piece(v, x);
    }
    assert(ray_hit(own, occ, tf, tr, df, dr, k));
}

/// The piece of `by` on `s` attacks `t` by the way it moves: a knight's
/// jump, a king's step, a pawn's diagonal step forward, or a rook's,
/// bishop's or queen's line with nothing in between.
pub open spec fn attacks_from(v: Seq<u64>, by: Color, s: int, t: int) -> bool {
    let (fd, rd) = (dist(s % 8, t % 8), dist(s / 8, t / 8));
    &&& s != t
    &&& {
        ||| holds(v, by, PieceKind::Knight, s) && ((fd == 1 && rd == 2) || (fd == 2 && rd == 1))
        ||| holds(v, by, PieceKind::King, s) && fd <= 1 && rd <= 1
        ||| holds(v, by, PieceKind::Pawn, s) && fd == 1 && t / 8 == s / 8 + (match by {
            Color::White => 1int,
            Color::Black => -1int,
        })
        ||| (((s % 8 == t % 8 || s / 8 == t / 8) && (holds(v, by, PieceKind::Rook, s) || holds(
            v,
            by,
            PieceKind::Queen,
            s,
        ))) || (fd == rd && (holds(v, by, PieceKind::Bishop, s) || holds(
            v,
            by,
            PieceKind::Queen,
            s,
        )))) && forall|x: int|
            0 <= x < 64 && #[trigger] strictly_between(s, t, x) ==> piece_on(v, x) is None
    }
}

/// An attack along one line comes from a piece standing on it.
proof fn lemma_ray_reason(v: Seq<u64>, by: Color, t: int, df: int, dr: int)
    requires
        v.len() == 12,
        0 <= t < 64,
        -1 <= df <= 1,
        -1 <= dr <= 1,
        df != 0 || dr != 0,
        ray_attacks(side_words(v, by), occupied_squares(v), t % 8, t / 8, df, dr),
    ensures
        exists|s: int| 0 <= s < 64 && #[trigger] attacks_from(v, by, s, t),
{
    let own = side_words(v, by);
    let occ = occupied_squares(v);
    let (tf, tr) = (t % 8, t / 8);
    let k = choose|k: int| 1 <= k && #[trigger] ray_hit(own, occ, tf, tr, df, dr, k);
    let s = square_of(step(tf, df, k), step(tr, dr, k));
    assert(s % 8 == step(tf, df, k) && s / 8 == step(tr, dr, k));
    assert(own[kind_number(PieceKind::Bishop)] == v[word_index(by, PieceKind::Bishop)]);
    assert(own[kind_number(PieceKind::Rook)] == v[word_index(by, PieceKind::Rook)]);
    assert(own[kind_number(PieceKind::Queen)] == v[word_index(by, PieceKind::Queen)]);
    assert forall|x: int| 0 <= x < 64 && #[trigger] strictly_between(s, t, x) implies piece_on(
        v,
        x,
    ) is None by {
        let j: int = if df != 0 {
            dist(x % 8, tf)
        } else {
            dist(x / 8, tr)
        };
        assert(step(tf, df, j) == x % 8 && step(tr, dr, j) == x / 8);
        assert(square_of(x % 8, x / 8) == x);
        assert(1 <= j < k);
        assert(!occ.contains(square_of(step(tf, df, j), step(tr, dr, j))));
        lemma_occupied_iff_piece(v, x);
    }
    assert(attacks_from(v, by, s, t));
}

/// A pawn, knight or king a fitting step away from `t` attacks it.
proof fn lemma_offset_cause(v: Seq<u64>, by: Color, t: int, k: PieceKind, df: int, dr: int)
    requires
        v.len() == 12,
        0 <= t < 64,
        own_on(side_words(v, by), k, t % 8 + df, t / 8 + dr),
        df != 0 || dr != 0,
        k == PieceKind::Knight ==> (dist(df, 0) == 1 && dist(dr, 0) == 2) || (dist(df, 0) == 2
            && dist(dr, 0) == 1),
        k == PieceKind::King ==> dist(df, 0) <= 1 && dist(dr, 0) <= 1,
        k == PieceKind::Pawn ==> dist(df, 0) == 1 && -dr == (match by {
            Color::White => 1int,
            Color::Black => -1int,
        }),
        k == PieceKind::Pawn || k == PieceKind::Knight || k == PieceKind::King,
    ensures
        exists|s: int| 0 <= s < 64 && #[trigger] attacks_from(v, by, s, t),
{
    let own = side_words(v, by);
    let s = square_of(t % 8 + df, t / 8 + dr);
    assert(s % 8 == t % 8 + df && s / 8 == t / 8 + dr);
    assert(own[kind_number(k)] == v[word_index(by, k)]);
    assert(holds(v, by, k, s));
    assert(attacks_from(v, by, s, t));
}

/// Every attack has a cause: a square is attacked by `by` only if some
/// piece of `by` attacks it by the way it moves.
pub proof fn lemma_attacks_have_a_cause(v: Seq<u64>, by: Color, t: int)
    requires
        v.len() == 12,
        square_attacked(v, t, by),
    ensures
        exists|s: int| 0 <= s < 64 && #[trigger] attacks_from(v, by, s, t),
{
    let own = side_words(v, by);
    let occ = occupied_squares(v);
    let (f, r) = (t % 8, t / 8);
    assert(own[kind_number(PieceKind::Pawn)] == v[word_index(by, PieceKind::Pawn)]);
    assert(own[kind_number(PieceKind::Knight)] == v[word_index(by, PieceKind::Knight)]);
    assert(own[kind_number(PieceKind::King)] == v[word_index(by, PieceKind::King)]);
    if pawn_attacks(own, f, r, by) || knight_attacks(own, f, r) || king_attacks(own, f, r) {
        match by {
            Color::White => {
            if own_on(own, PieceKind::Pawn, f + (-1), r + (-1)) {
                lemma_offset_cause(v, by, t, PieceKind::Pawn, -1, -1);
            }
            if own_on(own, PieceKind::Pawn, f + (1), r + (-1)) {
                lemma_offset_cause(v, by, t, PieceKind::Pawn, 1, -1);
            }
            },
            Color::Black => {
            if own_on(own, PieceKind::Pawn, f + (-1), r + (1)) {
                lemma_offset_cause(v, by, t, PieceKind::Pawn, -1, 1);
            }
            if own_on(own, PieceKind::Pawn, f + (1), r + (1)) {
                lemma_offset_cause(v, by, t, PieceKind::Pawn, 1, 1);
            }
            },
        }
        if own_on(own, PieceKind::Knight, f + (2), r + (1)) {
            lemma_offset_cause(v, by, t, PieceKind::Knight, 2, 1);
        }
        if own_on(own, PieceKind::Knight, f + (2), r + (-1)) {
            lemma_offset_cause(v, by, t, PieceKind::Knight, 2, -1);
        }
        if own_on(own, PieceKind::Knight, f + (-2), r + (1)) {
            lemma_offset_cause(v, by, t, PieceKind::Knight, -2, 1);
        }
        if own_on(own, PieceKind::Knight, f + (-2), r + (-1)) {
            lemma_offset_cause(v, by, t, PieceKind::Knight, -2, -1);
        }
        if own_on(own, PieceKind::Knight, f + (1), r + (2)) {
            lemma_offset_cause(v, by, t, PieceKind::Knight, 1, 2);
        }
        if own_on(own, PieceKind::Knight, f + (1), r + (-2)) {
            lemma_offset_cause(v, by, t, PieceKind::Knight, 1, -2);
        }
        if own_on(own, PieceKind::Knight, f + (-1), r + (2)) {
            lemma_offset_cause(v, by, t, PieceKind::Knight, -1, 2);
        }
        if own_on(own, PieceKind::Knight, f + (-1), r + (-2)) {
            lemma_offset_cause(v, by, t, PieceKind::Knight, -1, -2);
        }
        if own_on(own, PieceKind::King, f + (1), r + (0)) {
            lemma_offset_cause(v, by, t, PieceKind::King, 1, 0);
        }
        if own_on(own, PieceKind::King, f + (-1), r + (0)) {
            lemma_offset_cause(v, by, t, PieceKind::King, -1, 0);
        }
        if own_on(own, PieceKind::King, f + (0), r + (1)) {
            lemma_offset_cause(v, by, t, PieceKind::King, 0, 1);
        }
        if own_on(own, PieceKind::King, f + (0), r + (-1)) {
            lemma_offset_cause(v, by, t, PieceKind::King, 0, -1);
        }
        if own_on(own, PieceKind::King, f + (1), r + (1)) {
            lemma_offset_cause(v, by, t, PieceKind::King, 1, 1);
        }
        if own_on(own, PieceKind::King, f + (1), r + (-1)) {
            lemma_offset_cause(v, by, t, PieceKind::King, 1, -1);
        }
        if own_on(own, PieceKind::King, f + (-1), r + (1)) {
            lemma_offset_cause(v, by, t, PieceKind::King, -1, 1);
        }
        if own_on(own, PieceKind::King, f + (-1), r + (-1)) {
            lemma_offset_cause(v, by, t, PieceKind::King, -1, -1);
        }
    } else {
        if ray_attacks(own, occ, f, r, 1, 0) {
            lemma_ray_reason(v, by, t, 1, 0);
        } else if ray_attacks(own, occ, f, r, -1, 0) {
            lemma_ray_reason(v, by, t, -1, 0);
        } else if ray_attacks(own, occ, f, r, 0, 1) {
            lemma_ray_reason(v, by, t, 0, 1);
        } else if ray_attacks(own, occ, f, r, 0, -1) {
            lemma_ray_reason(v, by, t, 0, -1);
        } else if ray_attacks(own, occ, f, r, 1, 1) {
            lemma_ray_reason(v, by, t, 1, 1);
        } else if ray_attacks(own, occ, f, r, 1, -1) {
            lemma_ray_reason(v, by, t, 1, -1);
        } else if ray_attacks(own, occ, f, r, -1, 1) {
            lemma_ray_reason(v, by, t, -1, 1);
        } else {
            lemma_ray_reason(v, by, t, -1, -1);
        }
    }
}

/// A side without pieces attacks nothing.
pub proof fn lemma_no_pieces_no_attacks(v: Seq<u64>, by: Color, t: int)
    requires
        v.len() == 12,
        forall|k: PieceKind, s: int| !#[trigger] holds(v, by, k, s),
    ensures
        !square_attacked(v, t, by),
{
    let own = side_words(v, by);
    assert forall|k: PieceKind, f: int, r: int| !#[trigger] own_on(own, k, f, r) by {
        assert(own[kind_number(k)] == v[word_index(by, k)]);
        assert(!holds(v, by, k, square_of(f, r)));
    }
    assert forall|sq: int, diag: bool| !#[trigger] slider_on(own, sq, diag) by {
        assert(own[kind_number(PieceKind::Bishop)] == v[word_index(by, PieceKind::Bishop)]);
        assert(own[kind_number(PieceKind::Rook)] == v[word_index(by, PieceKind::Rook)]);
        assert(own[kind_number(PieceKind::Queen)] == v[word_index(by, PieceKind::Queen)]);
        assert(!holds(v, by, PieceKind::Bishop, sq));
        assert(!holds(v, by, PieceKind::Rook, sq));
        assert(!holds(v, by, PieceKind::Queen, sq));
    }
}

// ---------------------------------------------------------------------------
// Executable code.
// ---------------------------------------------------------------------------

impl Color {
    /// The other side.
    pub fn opposite(&self) -> (r: Color)
        ensures
            r == opponent(*self),
    {
        match self {
            Color::White => Color::Black,
            Color::Black => Color::White,
        }
    }
}

/// Switching sides twice gives back the side one started with.
pub proof fn lemma_opposite_involutive(c: Color)
    ensures
        opponent(opponent(c)) == c,
        opponent(c) != c,
{
}

impl Piece {
    /// The FEN letter of the piece.
    pub fn fen_char(&self) -> (r: char)
        ensures
            r == fen_letter(*self),
    {
        let c = match self.kind {
            PieceKind::Pawn => 'p',
            PieceKind::Knight => 'n',
            PieceKind::Bishop => 'b',
            PieceKind::Rook => 'r',
            PieceKind::Queen => 'q',
            PieceKind::King => 'k',
        };
        match self.color {
            Color::White => ascii_upper(c),
            Color::Black => c,
        }
    }
}

/// The upper-case form of a lower-case piece letter.
fn ascii_upper(c: char) -> (r: char)
    requires
        c == 'p' || c == 'n' || c == 'b' || c == 'r' || c == 'q' || c == 'k',
    ensures
        r as u32 == c as u32 - 32,
{
    match c {
        'p' => 'P',
        'n' => 'N',
        'b' => 'B',
        'r' => 'R',
        'q' => 'Q',
        _ => 'K',
    }
}

/// `0` for White, `1` for Black.
fn color_index(color: Color) -> (r: usize)
    ensures
        r == color_number(color),
{
    match color {
        Color::White => 0,
        Color::Black => 1,
    }
}

impl BitBoard {
    /// The board without pieces.
    pub fn empty() -> (r: Self)
        ensures
            r@ == Seq::new(12, |i: int| 0u64),
    {
        let r = Self {
            pawns: [0;2],
            knights: [0;2],
            bishops: [0;2],
            rooks: [0;2],
            queens: [0;2],
            kings: [0;2],
        };
        assert(r@ =~= Seq::new(12, |i: int| 0u64));
        r
    }

    /// The standard starting position.
    pub fn startpos() -> (r: Self)
        ensures
            r@ == start_words(),
    {
        let mut bb = Self::empty();
        bb.pawns[0] = 0x0000_0000_0000_FF00;
        bb.rooks[0] = 0x0000_0000_0000_0081;
        bb.knights[0] = 0x0000_0000_0000_0042;
        bb.bishops[0] = 0x0000_0000_0000_0024;
        bb.queens[0] = 0x0000_0000_0000_0008;
        bb.kings[0] = 0x0000_0000_0000_0010;
        bb.pawns[1] = 0x00FF_0000_0000_0000;
        bb.rooks[1] = 0x8100_0000_0000_0000;
        bb.knights[1] = 0x4200_0000_0000_0000;
        bb.bishops[1] = 0x2400_0000_0000_0000;
        bb.queens[1] = 0x0800_0000_0000_0000;
        bb.kings[1] = 0x1000_0000_0000_0000;
        assert(bb@ =~= start_words());
        bb
    }

    /// The word of colour number `idx` and kind `kind`.
    fn word(&self, idx: usize, kind: PieceKind) -> (r: u64)
        requires
            idx < 2,
        ensures
            r == self@[idx * 6 + kind_number(kind)],
    {
        match kind {
            PieceKind::Pawn => self.pawns[idx],
            PieceKind::Knight => self.knights[idx],
            PieceKind::Bishop => self.bishops[idx],
            PieceKind::Rook => self.rooks[idx],
            PieceKind::Queen => self.queens[idx],
            PieceKind::King => self.kings[idx],
        }
    }

    /// The first kind of colour number `idx` whose word meets `mask`.
    fn kind_at(&self, idx: usize, square: u8, mask: u64) -> (r: Option<PieceKind>)
        requires
            idx < 2,
            square < 64,
            mask == 1u64 << square,
        ensures
            r == kind_on(self@, if idx == 0 { Color::White } else { Color::Black }, square as int),
    {
        proof {
            lemma_mask_test(self.pawns[idx as int], square as u64);
            lemma_mask_test(self.knights[idx as int], square as u64);
            lemma_mask_test(self.bishops[idx as int], square as u64);
            lemma_mask_test(self.rooks[idx as int], square as u64);
            lemma_mask_test(self.queens[idx as int], square as u64);
            lemma_mask_test(self.kings[idx as int], square as u64);
        }
        if self.pawns[idx] & mask != 0 {
            return Some(PieceKind::Pawn);
        }
        if self.knights[idx] & mask != 0 {
            return Some(PieceKind::Knight);
        }
        if self.bishops[idx] & mask != 0 {
            return Some(PieceKind::Bishop);
        }
        if self.rooks[idx] & mask != 0 {
            return Some(PieceKind::Rook);
        }
        if self.queens[idx] & mask != 0 {
            return Some(PieceKind::Queen);
        }
        if self.kings[idx] & mask != 0 {
            return Some(PieceKind::King);
        }
        None
    }

    /// What stands on `square`, if anything; `None` off the board.
    pub fn piece_at(&self, square: u8) -> (r: Option<Piece>)
        ensures
            r == piece_on(self@, square as int),
    {
        if square >= 64 {
            return None;
        }
        let mask = 1u64 << square;
        if let Some(kind) = self.kind_at(0, square, mask) {
            return Some(Piece { color: Color::White, kind });
        }
        if let Some(kind) = self.kind_at(1, square, mask) {
            return Some(Piece { color: Color::Black, kind });
        }
        None
    }

    /// Masks every word of colour number `idx` with `mask`.
    fn clear_color(&mut self, idx: usize, mask: u64)
        requires
            idx < 2,
        ensures
            forall|i: int|
                0 <= i < 12 ==> #[trigger] final(self)@[i] == if idx * 6 <= i < idx * 6 + 6 {
                    old(self)@[i] & mask
                } else {
                    old(self)@[i]
                },
    {
        self.pawns[idx] = self.pawns[idx] & mask;
        self.knights[idx] = self.knights[idx] & mask;
        self.bishops[idx] = self.bishops[idx] & mask;
        self.rooks[idx] = self.rooks[idx] & mask;
        self.queens[idx] = self.queens[idx] & mask;
        self.kings[idx] = self.kings[idx] & mask;
    }

    /// Removes whatever stands on `square`; squares off the board change nothing.
    pub fn clear_square(&mut self, square: u8)
        ensures
            square >= 64 ==> final(self)@ == old(self)@,
            square < 64 ==> final(self)@ == board_cleared(old(self)@, square as int),
    {
        if square >= 64 {
            return;
        }
        let mask = !(1u64 << square);
        self.clear_color(0, mask);
        self.clear_color(1, mask);
        assert(self@ =~= board_cleared(old(self)@, square as int));
    }

    /// Adds `piece` on `square` (its word gains the bit; nothing is removed);
    /// squares off the board change nothing.
    pub fn set_piece(&mut self, square: u8, piece: Piece)
        ensures
            square >= 64 ==> final(self)@ == old(self)@,
            square < 64 ==> final(self)@ == board_placed(old(self)@, square as int, piece),
    {
        if square >= 64 {
            return;
        }
        let mask = 1u64 << square;
        let idx = color_index(piece.color);
        match piece.kind {
            PieceKind::Pawn => self.pawns[idx] = self.pawns[idx] | mask,
            PieceKind::Knight => self.knights[idx] = self.knights[idx] | mask,
            PieceKind::Bishop => self.bishops[idx] = self.bishops[idx] | mask,
            PieceKind::Rook => self.rooks[idx] = self.rooks[idx] | mask,
            PieceKind::Queen => self.queens[idx] = self.queens[idx] | mask,
            PieceKind::King => self.kings[idx] = self.kings[idx] | mask,
        }
        assert(self@ =~= board_placed(old(self)@, square as int, piece));
    }

    /// The squares of all pieces of `color`, as a word.
    pub fn occupancy_for(&self, color: Color) -> (r: u64)
        ensures
            r == color_occupancy(self@, color),
    {
        let idx = color_index(color);
        self.pawns[idx] | self.knights[idx] | self.bishops[idx] | self.rooks[idx]
            | self.queens[idx] | self.kings[idx]
    }

    /// The squares of all pieces, as a word.
    pub fn all_occupancy(&self) -> (r: u64)
        ensures
            r == occupancy_word(self@),
    {
        self.occupancy_for(Color::White) | self.occupancy_for(Color::Black)
    }

    /// The square of the king of `color` (the lowest one if there are
    /// several), or `None` if it has none.
    pub fn king_square(&self, color: Color) -> (r: Option<u8>)
        ensures
            r matches Some(s) ==> king_square_of(self@, color) == Some(s as int),
            r is None ==> king_square_of(self@, color) is None,
            r matches Some(s) ==> s < 64 && holds(self@, color, PieceKind::King, s as int)
                && forall|t: int| 0 <= t < s ==> !holds(self@, color, PieceKind::King, t),
            (r is None) == (forall|t: int| !holds(self@, color, PieceKind::King, t)),
    {
        let idx = color_index(color);
        let king_bb = self.kings[idx];
        if king_bb == 0 {
            assert forall|t: int| !holds(self@, color, PieceKind::King, t) by {
                lemma_zero_bits(t);
            }
            return None;
        }
        let tz = king_bb.trailing_zeros();
        proof {
            vstd::std_specs::bits::axiom_u64_trailing_zeros(king_bb);
            assert forall|t: int| 0 <= t < tz implies !holds(self@, color, PieceKind::King, t) by {
                let j = t as u64;
                assert((king_bb >> j) & 1u64 == 0u64);
            }
            assert(holds(self@, color, PieceKind::King, tz as int));
        }
        Some(tz as u8)
    }
    /// A piece of colour number `idx` and kind `kind` stands on file `f`,
    /// rank `r`, which lies on the board.
    fn has_at(&self, idx: usize, kind: PieceKind, f: i8, r: i8) -> (b: bool)
        requires
            idx < 2,
            -3 <= f <= 10,
            -3 <= r <= 10,
        ensures
            b == own_on(self@.subrange(idx * 6, idx * 6 + 6), kind, f as int, r as int),
    {
        if f < 0 || f >= 8 || r < 0 || r >= 8 {
            return false;
        }
        let target = (r * 8 + f) as u8;
        let w = self.word(idx, kind);
        proof {
            lemma_mask_test(w, target as u64);
        }
        w & (1u64 << target) != 0
    }

    /// Walks from `square` in direction `(df, dr)` to the first occupied
    /// square, and tells whether a piece of colour number `idx` stands there
    /// that moves along such a line.
    fn ray_attacked(&self, idx: usize, occupancy: u64, square: u8, df: i8, dr: i8) -> (b: bool)
        requires
            idx < 2,
            square < 64,
            occupancy == occupancy_word(self@),
            -1 <= df <= 1,
            -1 <= dr <= 1,
            df != 0 || dr != 0,
        ensures
            b == ray_attacks(
                self@.subrange(idx * 6, idx * 6 + 6),
                occupied_squares(self@),
                square as int % 8,
                square as int / 8,
                df as int,
                dr as int,
            ),
    {
        let ghost own = self@.subrange(idx * 6, idx * 6 + 6);
        let ghost occ = occupied_squares(self@);
        let f0 = (square % 8) as i8;
        let r0 = (square / 8) as i8;
        let mut f = f0;
        let mut r = r0;
        let is_diagonal = df != 0 && dr != 0;
        let ghost mut k: int = 0;
        loop
            invariant
                idx < 2,
                square < 64,
                occupancy == occupancy_word(self@),
                own == self@.subrange(idx * 6, idx * 6 + 6),
                occ == occupied_squares(self@),
                -1 <= df <= 1,
                -1 <= dr <= 1,
                df != 0 || dr != 0,
                is_diagonal == (df != 0 && dr != 0),
                f0 as int == square as int % 8,
                r0 as int == square as int / 8,
                0 <= k <= 7,
                f as int == step(f0 as int, df as int, k),
                r as int == step(r0 as int, dr as int, k),
                on_board(f as int, r as int),
                forall|j: int|
                    1 <= j <= k ==> !#[trigger] occ.contains(
                        square_of(step(f0 as int, df as int, j), step(r0 as int, dr as int, j)),
                    ),
            decreases 8 - k,
        {
            f = f + df;
            r = r + dr;
            if f < 0 || f >= 8 || r < 0 || r >= 8 {
                proof {
                    assert forall|kk: int| 1 <= kk implies !#[trigger] ray_hit(
                        own,
                        occ,
                        f0 as int,
                        r0 as int,
                        df as int,
                        dr as int,
                        kk,
                    ) by {
                        if kk <= k {
                            assert(!occ.contains(
                                square_of(
                                    step(f0 as int, df as int, kk),
                                    step(r0 as int, dr as int, kk),
                                ),
                            ));
                        }
                    }
                }
                return false;
            }
            let target = (r * 8 + f) as u8;
            let target_mask = 1u64 << target;
            let ghost sq = square_of(f as int, r as int);
            proof {
                lemma_mask_test(occupancy, target as u64);
                assert(occ.contains(sq) == has_bit(occupancy, sq));
            }
            if occupancy & target_mask != 0 {
                let hit = if is_diagonal {
                    self.bishops[idx] & target_mask != 0 || self.queens[idx] & target_mask != 0
                } else {
                    self.rooks[idx] & target_mask != 0 || self.queens[idx] & target_mask != 0
                };
                proof {
                    lemma_mask_test(self.bishops[idx as int], target as u64);
                    lemma_mask_test(self.rooks[idx as int], target as u64);
                    lemma_mask_test(self.queens[idx as int], target as u64);
                    assert(own[kind_number(PieceKind::Bishop)] == self.bishops[idx as int]);
                    assert(own[kind_number(PieceKind::Rook)] == self.rooks[idx as int]);
                    assert(own[kind_number(PieceKind::Queen)] == self.queens[idx as int]);
                    assert(hit == slider_on(own, sq, is_diagonal));
                    if hit {
                        assert(ray_hit(own, occ, f0 as int, r0 as int, df as int, dr as int, k + 1));
                    } else {
                        assert forall|kk: int| 1 <= kk implies !#[trigger] ray_hit(
                            own,
                            occ,
                            f0 as int,
                            r0 as int,
                            df as int,
                            dr as int,
                            kk,
                        ) by {
                            if kk <= k {
                                assert(!occ.contains(
                                    square_of(
                                        step(f0 as int, df as int, kk),
                                        step(r0 as int, dr as int, kk),
                                    ),
                                ));
                            } else if kk > k + 1 {
                                assert(occ.contains(
                                    square_of(
                                        step(f0 as int, df as int, k + 1),
                                        step(r0 as int, dr as int, k + 1),
                                    ),
                                ));
                            }
                        }
                    }
                }
                return hit;
            }
            proof {
                k = k + 1;
            }
        }
    }

    /// Whether `square` is attacked by a piece of `by_color`; `false` for
    /// squares off the board.
    pub fn is_square_attacked(&self, square: u8, by_color: Color) -> (r: bool)
        ensures
            r == square_attacked(self@, square as int, by_color),
    {
        if square >= 64 {
            return false;
        }
        let idx = color_index(by_color);
        let occupancy = self.all_occupancy();
        let f = (square % 8) as i8;
        let r = (square / 8) as i8;
        proof {
            assert(side_words(self@, by_color) == self@.subrange(idx * 6, idx * 6 + 6));
        }

        // Pawn attacks
        let pawn = match by_color {
            Color::White => self.has_at(idx, PieceKind::Pawn, f - 1, r - 1) || self.has_at(
                idx,
                PieceKind::Pawn,
                f + 1,
                r - 1,
            ),
            Color::Black => self.has_at(idx, PieceKind::Pawn, f - 1, r + 1) || self.has_at(
                idx,
                PieceKind::Pawn,
                f + 1,
                r + 1,
            ),
        };
        if pawn {
            return true;
        }

        // Knight attacks
        let n = PieceKind::Knight;
        if self.has_at(idx, n, f + 2, r + 1) || self.has_at(idx, n, f + 2, r - 1) || self.has_at(
            idx,
            n,
            f - 2,
            r + 1,
        ) || self.has_at(idx, n, f - 2, r - 1) || self.has_at(idx, n, f + 1, r + 2)
            || self.has_at(idx, n, f + 1, r - 2) || self.has_at(idx, n, f - 1, r + 2)
            || self.has_at(idx, n, f - 1, r - 2) {
            return true;
        }

        // King attacks
        let k = PieceKind::King;
        if self.has_at(idx, k, f + 1, r) || self.has_at(idx, k, f - 1, r) || self.has_at(
            idx,
            k,
            f,
            r + 1,
        ) || self.has_at(idx, k, f, r - 1) || self.has_at(idx, k, f + 1, r + 1) || self.has_at(
            idx,
            k,
            f + 1,
            r - 1,
        ) || self.has_at(idx, k, f - 1, r + 1) || self.has_at(idx, k, f - 1, r - 1) {
            return true;
        }

        // Sliding pieces along the four lines through the square
        if self.ray_attacked(idx, occupancy, square, 1, 0) || self.ray_attacked(
            idx,
            occupancy,
            square,
            -1,
            0,
        ) || self.ray_attacked(idx, occupancy, square, 0, 1) || self.ray_attacked(
            idx,
            occupancy,
            square,
            0,
            -1,
        ) || self.ray_attacked(idx, occupancy, square, 1, 1) || self.ray_attacked(
            idx,
            occupancy,
            square,
            1,
            -1,
        ) || self.ray_attacked(idx, occupancy, square, -1, 1) || self.ray_attacked(
            idx,
            occupancy,
            square,
            -1,
            -1,
        ) {
            return true;
        }
        false
    }
}

} // verus!
