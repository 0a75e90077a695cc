//! A game: a position, the side to move and the move counters, with move
//! validation, move generation and the game status.
use vstd::prelude::*;
use vstd::string::StringExecFns;
use crate::text::{trim, trim_str, push_char, push_decimal, decimal, digit_char};
use crate::board::{
    BitBoard, Color, Piece, PieceKind, opponent, piece_on, board_cleared, board_placed,
    occupied_squares, bit_squares, king_square_of, square_attacked, square_of, step,
    start_words, lemma_board_len, fen_letter,
};

verus! {

broadcast use lemma_board_len;

/// The state a game is in.
#[derive(Debug, Clone, Copy, PartialEq, Eq, Structural)]
pub enum GameStatus {
    InProgress,
    Check,
    Checkmate,
    Stalemate,
}

/// A game in progress.
#[derive(Debug, Clone)]
pub struct Game {
    bitboard: BitBoard,
    side_to_move: Color,
    halfmove_clock: u32,
    fullmove_number: u32,
}

/// What a game holds: the twelve words of the board, the side to move and
/// the two counters.
pub struct Position {
    pub board: Seq<u64>,
    pub side: Color,
    pub halfmove_clock: u32,
    pub fullmove_number: u32,
}

impl View for Game {
    type V = Position;

    closed spec fn view(&self) -> Position {
        Position {
            board: self.bitboard@,
            side: self.side_to_move,
            halfmove_clock: self.halfmove_clock,
            fullmove_number: self.fullmove_number,
        }
    }
}

/// The board of every game has twelve words.
pub broadcast proof fn lemma_game_board_len(g: Game)
    ensures
        #[trigger] g@.board.len() == 12,
{
}

// ---------------------------------------------------------------------------
// Rules, stated over the model.
// ---------------------------------------------------------------------------

/// A new game: the starting position, White to move, counters `0` and `1`.
pub open spec fn start_position() -> Position {
    Position { board: start_words(), side: Color::White, halfmove_clock: 0, fullmove_number: 1 }
}

/// `|x|`.
pub open spec fn abs_int(x: int) -> int {
    if x < 0 {
        -x
    } else {
        x
    }
}

/// `-1`, `0` or `1` after the sign of `x`.
pub open spec fn sign_int(x: int) -> int {
    if x < 0 {
        -1
    } else if x > 0 {
        1
    } else {
        0
    }
}

/// `from` and `to` lie on one file, one rank or one diagonal.
pub open spec fn aligned(from: int, to: int) -> bool {
    let df = to % 8 - from % 8;
    let dr = to / 8 - from / 8;
    df == 0 || dr == 0 || abs_int(df) == abs_int(dr)
}

/// No square strictly between `from` and `to` (on one line) is occupied.
pub open spec fn path_clear(occ: Set<int>, from: int, to: int) -> bool {
    let ff = from % 8;
    let fr = from / 8;
    let df = sign_int(to % 8 - ff);
    let dr = sign_int(to / 8 - fr);
    let n = if abs_int(to % 8 - ff) < abs_int(to / 8 - fr) {
        abs_int(to / 8 - fr)
    } else {
        abs_int(to % 8 - ff)
    };
    forall|j: int|
        1 <= j < n ==> !#[trigger] occ.contains(square_of(step(ff, df, j), step(fr, dr, j)))
}

/// The piece `piece` on `from` may move to `to` by the way it moves, not
/// looking at checks: pawns push one square (two from their starting rank)
/// onto empty squares and capture one square diagonally forward onto an
/// occupied one; knights jump; kings step; bishops, rooks and queens slide
/// along free lines.
pub open spec fn pseudo_legal(v: Seq<u64>, from: int, to: int, piece: Piece) -> bool {
    let ff = from % 8;
    let fr = from / 8;
    let tf = to % 8;
    let tr = to / 8;
    let fd = abs_int(tf - ff);
    let rd = abs_int(tr - fr);
    let occ = occupied_squares(v);
    &&& from != to
    &&& match piece.kind {
        PieceKind::Pawn => {
            let forward: int = match piece.color {
                Color::White => 1,
                Color::Black => -1,
            };
            let start_rank: int = match piece.color {
                Color::White => 1,
                Color::Black => 6,
            };
            if tf == ff && tr == fr + forward {
                piece_on(v, to) is None
            } else if tf == ff && fr == start_rank && tr == fr + 2 * forward {
                piece_on(v, square_of(ff, fr + forward)) is None && piece_on(v, to) is None
            } else if fd == 1 && tr == fr + forward {
                piece_on(v, to) is Some
            } else {
                false
            }
        },
        PieceKind::Knight => (fd == 2 && rd == 1) || (fd == 1 && rd == 2),
        PieceKind::King => fd <= 1 && rd <= 1,
        PieceKind::Bishop => fd == rd && path_clear(occ, from, to),
        PieceKind::Rook => (ff == tf || fr == tr) && path_clear(occ, from, to),
        PieceKind::Queen => (ff == tf || fr == tr || fd == rd) && path_clear(occ, from, to),
    }
}

/// The king of `c` stands on an attacked square (a side without a king is
/// never in check).
pub open spec fn in_check(v: Seq<u64>, c: Color) -> bool {
    match king_square_of(v, c) {
        Some(k) => square_attacked(v, k, opponent(c)),
        None => false,
    }
}

/// The kind that arrives on the target square: a pawn becomes the
/// promotion piece, if one is given; other pieces keep their kind.
pub open spec fn arriving_kind(kind: PieceKind, promotion: Option<PieceKind>) -> PieceKind {
    if kind == PieceKind::Pawn {
        match promotion {
            Some(k) => k,
            None => PieceKind::Pawn,
        }
    } else {
        kind
    }
}

/// The board after the piece on `from` moves to `to`: both squares are
/// emptied and the (possibly promoted) piece is placed on `to`.
pub open spec fn board_after_move(
    v: Seq<u64>,
    from: int,
    to: int,
    promotion: Option<PieceKind>,
) -> Seq<u64> {
    let p = piece_on(v, from)->Some_0;
    board_placed(
        board_cleared(board_cleared(v, to), from),
        to,
        Piece { color: p.color, kind: arriving_kind(p.kind, promotion) },
    )
}

/// The position after a move: the board changes, the other side moves, the
/// halfmove clock is `0`, and the move number grows after Black's move.
pub open spec fn position_after_move(
    p: Position,
    from: int,
    to: int,
    promotion: Option<PieceKind>,
) -> Position {
    Position {
        board: board_after_move(p.board, from, to, promotion),
        side: opponent(p.side),
        halfmove_clock: 0,
        fullmove_number: if p.side == Color::Black {
            (p.fullmove_number + 1) as u32
        } else {
            p.fullmove_number
        },
    }
}

/// `piece` (the piece on `from`) may move to `to` with side `side` to move:
/// the target holds no piece of its own colour, the move is pseudo-legal and
/// afterwards the king of `side` is not in check.
pub open spec fn legal(
    v: Seq<u64>,
    side: Color,
    from: int,
    to: int,
    piece: Piece,
    promotion: Option<PieceKind>,
) -> bool {
    &&& !(piece_on(v, to) matches Some(c) && c.color == piece.color)
    &&& pseudo_legal(v, from, to, piece)
    &&& !in_check(board_after_move(v, from, to, promotion), side)
}

/// A piece of the side to move stands on `from` and may move to `to`
/// (without a promotion piece).
pub open spec fn legal_from_to(p: Position, from: int, to: int) -> bool {
    &&& piece_on(p.board, from) matches Some(piece)
    &&& piece.color == p.side
    &&& legal(p.board, p.side, from, to, piece, None)
}

/// The side to move has a legal move.
pub open spec fn has_legal_move(p: Position) -> bool {
    exists|from: int, to: int|
        0 <= from < 64 && 0 <= to < 64 && #[trigger] legal_from_to(p, from, to)
}

/// The status of a position.
pub open spec fn status_of(p: Position) -> GameStatus {
    let checked = in_check(p.board, p.side);
    if !has_legal_move(p) {
        if checked {
            GameStatus::Checkmate
        } else {
            GameStatus::Stalemate
        }
    } else if checked {
        GameStatus::Check
    } else {
        GameStatus::InProgress
    }
}


// ---------------------------------------------------------------------------
// Moves as text (UCI notation such as `e2e4` or `e7e8q`).
// ---------------------------------------------------------------------------

/// Why a square could not be read.
#[derive(Debug, Clone, Copy, PartialEq, Eq, Structural)]
pub enum SquareError {
    Length,
    File,
    Rank,
}

/// Why a move was refused.
#[derive(Debug, Clone, Copy, PartialEq, Eq, Structural)]
pub enum MoveError {
    TooShort,
    Square(SquareError),
    Promotion,
    /// No piece stands on the source square, whose two letters are given.
    NoPiece(u8, u8),
    WrongTurn,
    OwnCapture,
    CannotMove,
    KingInCheck,
    ApplyFailed,
}

/// The square named by two bytes such as `e2`.
pub open spec fn square_from_bytes(s: Seq<u8>) -> Result<u8, SquareError> {
    if s.len() != 2 {
        Err(SquareError::Length)
    } else if !(97 <= s[0] <= 104) {
        Err(SquareError::File)
    } else if !(49 <= s[1] <= 56) {
        Err(SquareError::Rank)
    } else {
        Ok(((s[1] - 49) * 8 + (s[0] - 97)) as u8)
    }
}

/// The promotion piece named by a letter, in either case.
pub open spec fn promotion_of(c: char) -> Option<PieceKind> {
    if c == 'q' || c == 'Q' {
        Some(PieceKind::Queen)
    } else if c == 'r' || c == 'R' {
        Some(PieceKind::Rook)
    } else if c == 'b' || c == 'B' {
        Some(PieceKind::Bishop)
    } else if c == 'n' || c == 'N' {
        Some(PieceKind::Knight)
    } else {
        None
    }
}

/// Reads source, target and promotion piece from the bytes of a move.
pub open spec fn parse_move(b: Seq<u8>) -> Result<(u8, u8, Option<PieceKind>), MoveError> {
    if b.len() < 4 {
        Err(MoveError::TooShort)
    } else {
        match square_from_bytes(b.subrange(0, 2)) {
            Err(e) => Err(MoveError::Square(e)),
            Ok(from) => match square_from_bytes(b.subrange(2, 4)) {
                Err(e) => Err(MoveError::Square(e)),
                Ok(to) => if b.len() >= 5 {
                    match promotion_of(b[4] as char) {
                        Some(k) => Ok((from, to, Some(k))),
                        None => Err(MoveError::Promotion),
                    }
                } else {
                    Ok((from, to, None))
                },
            },
        }
    }
}

/// Every check on a move before the king's safety: it reads, a piece of
/// the side to move stands on the source, the target holds no piece of
/// that side, and the piece can move there.
pub open spec fn check_move(p: Position, b: Seq<u8>) -> Result<(u8, u8, Option<PieceKind>), MoveError> {
    match parse_move(b) {
        Err(e) => Err(e),
        Ok((from, to, promotion)) => match piece_on(p.board, from as int) {
            None => Err(MoveError::NoPiece(b[0], b[1])),
            Some(piece) => if piece.color != p.side {
                Err(MoveError::WrongTurn)
            } else if piece_on(p.board, to as int) matches Some(c) && c.color == piece.color {
                Err(MoveError::OwnCapture)
            } else if !pseudo_legal(p.board, from as int, to as int, piece) {
                Err(MoveError::CannotMove)
            } else {
                Ok((from, to, promotion))
            },
        },
    }
}

/// The position after the move written `b`, or why it is refused.
pub open spec fn move_result(p: Position, b: Seq<u8>) -> Result<Position, MoveError> {
    match check_move(p, b) {
        Err(e) => Err(e),
        Ok((from, to, promotion)) => if in_check(
            board_after_move(p.board, from as int, to as int, promotion),
            p.side,
        ) {
            Err(MoveError::KingInCheck)
        } else {
            Ok(position_after_move(p, from as int, to as int, promotion))
        },
    }
}

/// The UTF-8 bytes of a move text once white space is trimmed off.
pub open spec fn move_bytes(mv: Seq<char>) -> Seq<u8> {
    vstd::utf8::encode_utf8(trim(mv))
}

/// Where the trimmed move has four bytes or more, it can be cut after its
/// second byte, and, if those two bytes name a square, after its fourth.
pub open spec fn move_text_cuttable(mv: Seq<char>) -> bool {
    let b = move_bytes(mv);
    b.len() >= 4 ==> vstd::utf8::is_char_boundary(b, 2) && (square_from_bytes(b.subrange(0, 2)) is Ok
        ==> vstd::utf8::is_char_boundary(b, 4))
}

/// Reading the move `mv` in position `p` cannot be carried out: its text
/// cannot be cut into squares, or it passes every check before the king's
/// safety with Black to move and the move number at the largest `u32`.
pub open spec fn move_stops(p: Position, mv: Seq<char>) -> bool {
    ||| !move_text_cuttable(mv)
    ||| (check_move(p, move_bytes(mv)) is Ok && p.side == Color::Black && p.fullmove_number
        == u32::MAX)
}

/// The message of a refused move.
pub open spec fn move_error_text(e: MoveError) -> Seq<char> {
    match e {
        MoveError::TooShort => "UCI move must be at least 4 chars (e2e4)"@,
        MoveError::Square(SquareError::Length) => "Square must be 2 chars"@,
        MoveError::Square(SquareError::File) => "File must be a-h"@,
        MoveError::Square(SquareError::Rank) => "Rank must be 1-8"@,
        MoveError::Promotion => "Promotion must be one of q,r,b,n"@,
        MoveError::NoPiece(a, b) => "No piece on "@ + seq![a as char, b as char],
        MoveError::WrongTurn => "It's not that side's turn"@,
        MoveError::OwnCapture => "Cannot capture your own piece"@,
        MoveError::CannotMove => "Illegal move: piece cannot move there"@,
        MoveError::KingInCheck => "Illegal move: king would be in check"@,
        MoveError::ApplyFailed => "Internal move application failed"@,
    }
}

/// The name of a square, such as `e2`.
pub open spec fn square_name(sq: int) -> Seq<char> {
    seq![(97 + sq % 8) as char, (49 + sq / 8) as char]
}

/// The letter of a promotion piece (none for pawns and kings).
pub open spec fn promotion_letter(k: PieceKind) -> Seq<char> {
    match k {
        PieceKind::Queen => seq!['q'],
        PieceKind::Rook => seq!['r'],
        PieceKind::Bishop => seq!['b'],
        PieceKind::Knight => seq!['n'],
        _ => seq![],
    }
}

/// A move in UCI notation.
pub open spec fn uci_text(from: int, to: int, promotion: Option<PieceKind>) -> Seq<char> {
    square_name(from) + square_name(to) + match promotion {
        Some(k) => promotion_letter(k),
        None => seq![],
    }
}

/// The rank on which pawns of `c` promote.
pub open spec fn promotion_rank(c: Color) -> int {
    match c {
        Color::White => 7,
        Color::Black => 0,
    }
}

/// The move from `from` to `to` with promotion `k`, if it is legal.
pub open spec fn promotion_text(p: Position, from: int, to: int, k: PieceKind) -> Seq<Seq<char>> {
    if legal(p.board, p.side, from, to, piece_on(p.board, from)->Some_0, Some(k)) {
        seq![uci_text(from, to, Some(k))]
    } else {
        seq![]
    }
}

/// The legal moves from `from` to `to`: none, one, or (for a pawn reaching
/// its last rank) one per legal promotion piece, queen, rook, bishop, knight.
pub open spec fn texts_for(p: Position, from: int, to: int) -> Seq<Seq<char>> {
    if legal_from_to(p, from, to) {
        let piece = piece_on(p.board, from)->Some_0;
        if piece.kind == PieceKind::Pawn && to / 8 == promotion_rank(piece.color) {
            promotion_text(p, from, to, PieceKind::Queen) + promotion_text(
                p,
                from,
                to,
                PieceKind::Rook,
            ) + promotion_text(p, from, to, PieceKind::Bishop) + promotion_text(
                p,
                from,
                to,
                PieceKind::Knight,
            )
        } else {
            seq![uci_text(from, to, None)]
        }
    } else {
        seq![]
    }
}

/// The legal moves from `from` to the targets below `n`.
pub open spec fn texts_from(p: Position, from: int, n: nat) -> Seq<Seq<char>>
    decreases n,
{
    if n == 0 {
        seq![]
    } else {
        texts_from(p, from, (n - 1) as nat) + texts_for(p, from, n - 1)
    }
}

/// The legal moves from the sources below `n`.
pub open spec fn texts_upto(p: Position, n: nat) -> Seq<Seq<char>>
    decreases n,
{
    if n == 0 {
        seq![]
    } else {
        texts_upto(p, (n - 1) as nat) + texts_from(p, n - 1, 64)
    }
}

/// All legal moves, by source square, then target square, then promotion
/// piece.
pub open spec fn legal_move_texts(p: Position) -> Seq<Seq<char>> {
    texts_upto(p, 64)
}

impl MoveError {
    /// The message of the error.
    pub fn message(&self) -> (s: String)
        ensures
            s@ == move_error_text(*self),
    {
        match self {
            MoveError::TooShort => String::from_str("UCI move must be at least 4 chars (e2e4)"),
            MoveError::Square(SquareError::Length) => String::from_str("Square must be 2 chars"),
            MoveError::Square(SquareError::File) => String::from_str("File must be a-h"),
            MoveError::Square(SquareError::Rank) => String::from_str("Rank must be 1-8"),
            MoveError::Promotion => String::from_str("Promotion must be one of q,r,b,n"),
            MoveError::NoPiece(a, b) => {
                let mut s = String::from_str("No piece on ");
                push_char(&mut s, *a as char);
                push_char(&mut s, *b as char);
                assert(s@ =~= move_error_text(*self));
                s
            },
            MoveError::WrongTurn => String::from_str("It's not that side's turn"),
            MoveError::OwnCapture => String::from_str("Cannot capture your own piece"),
            MoveError::CannotMove => String::from_str("Illegal move: piece cannot move there"),
            MoveError::KingInCheck => String::from_str("Illegal move: king would be in check"),
            MoveError::ApplyFailed => String::from_str("Internal move application failed"),
        }
    }
}

/// Reads a square named by two bytes such as `e2`.
fn parse_square(s: &[u8]) -> (r: Result<u8, SquareError>)
    ensures
        r == square_from_bytes(s@),
{
    if s.len() != 2 {
        return Err(SquareError::Length);
    }
    let file = s[0];
    let rank = s[1];
    if !(97 <= file && file <= 104) {
        return Err(SquareError::File);
    }
    if !(49 <= rank && rank <= 56) {
        return Err(SquareError::Rank);
    }
    let f = file - 97;
    let r = rank - 49;
    Ok(r * 8 + f)
}

/// Reads a promotion letter, in either case.
fn parse_promotion(c: char) -> (r: Option<PieceKind>)
    ensures
        r == promotion_of(c),
{
    match c {
        'q' | 'Q' => Some(PieceKind::Queen),
        'r' | 'R' => Some(PieceKind::Rook),
        'b' | 'B' => Some(PieceKind::Bishop),
        'n' | 'N' => Some(PieceKind::Knight),
        _ => None,
    }
}

/// Writes a move in UCI notation.
fn move_to_uci(from: u8, to: u8, promotion: Option<PieceKind>) -> (s: String)
    requires
        from < 64,
        to < 64,
    ensures
        s@ == uci_text(from as int, to as int, promotion),
{
    let mut s = String::new();
    push_char(&mut s, (97u8 + (from % 8)) as char);
    push_char(&mut s, (49u8 + (from / 8)) as char);
    push_char(&mut s, (97u8 + (to % 8)) as char);
    push_char(&mut s, (49u8 + (to / 8)) as char);

    if let Some(p) = promotion {
        let promo = match p {
            PieceKind::Queen => Some('q'),
            PieceKind::Rook => Some('r'),
            PieceKind::Bishop => Some('b'),
            PieceKind::Knight => Some('n'),
            _ => None,
        };
        if let Some(ch) = promo {
            push_char(&mut s, ch);
        }
    }
    assert(s@ =~= uci_text(from as int, to as int, promotion));
    s
}


// ---------------------------------------------------------------------------
// FEN.
// ---------------------------------------------------------------------------

/// A run of `empty` empty squares: its count as a digit, or nothing.
pub open spec fn empty_run(empty: nat) -> Seq<char> {
    if empty > 0 {
        seq![digit_char(empty as int)]
    } else {
        seq![]
    }
}

/// The FEN of the files `file..8` of `rank`, after `empty` empty squares:
/// a letter per piece, and a digit per run of empty squares.
pub open spec fn rank_text(v: Seq<u64>, rank: int, file: int, empty: nat) -> Seq<char>
    decreases 8 - file,
{
    if file >= 8 {
        empty_run(empty)
    } else {
        match piece_on(v, rank * 8 + file) {
            Some(p) => empty_run(empty) + seq![fen_letter(p)] + rank_text(v, rank, file + 1, 0),
            None => rank_text(v, rank, file + 1, empty + 1),
        }
    }
}

/// The FEN of ranks `n - 1` down to `0`, separated by `/`.
pub open spec fn ranks_text(v: Seq<u64>, n: nat) -> Seq<char>
    decreases n,
{
    if n == 0 {
        seq![]
    } else {
        rank_text(v, n - 1, 0, 0) + (if n - 1 != 0 {
            seq!['/']
        } else {
            seq![]
        }) + ranks_text(v, (n - 1) as nat)
    }
}

/// The FEN of a position: the board from rank 8 down, the side to move,
/// `-` for castling rights and en passant, and the two counters.
pub open spec fn fen_text(p: Position) -> Seq<char> {
    ranks_text(p.board, 8) + seq![
        ' ',
        match p.side {
            Color::White => 'w',
            Color::Black => 'b',
        },
    ] + " - - "@ + decimal(p.halfmove_clock as nat) + seq![' '] + decimal(
        p.fullmove_number as nat,
    )
}

// ---------------------------------------------------------------------------
// Executable code.

/// The name of a status for the web page.
pub open spec fn status_text(s: GameStatus) -> Seq<char> {
    match s {
        GameStatus::InProgress => "in_progress"@,
        GameStatus::Check => "check"@,
        GameStatus::Checkmate => "checkmate"@,
        GameStatus::Stalemate => "stalemate"@,
    }
}

/// The name of a status: `in_progress`, `check`, `checkmate` or
/// `stalemate`.
pub fn status_name(status: GameStatus) -> (s: String)
    ensures
        s@ == status_text(status),
{
    match status {
        GameStatus::InProgress => String::from_str("in_progress"),
        GameStatus::Check => String::from_str("check"),
        GameStatus::Checkmate => String::from_str("checkmate"),
        GameStatus::Stalemate => String::from_str("stalemate"),
    }
}

// ---------------------------------------------------------------------------

/// `|x|` of a small difference.
fn abs_i8(x: i8) -> (r: i8)
    requires
        -100 <= x <= 100,
    ensures
        r == abs_int(x as int),
{
    if x < 0 {
        -x
    } else {
        x
    }
}

/// The sign of a small difference.
fn signum_i8(x: i8) -> (r: i8)
    ensures
        r == sign_int(x as int),
{
    if x < 0 {
        -1
    } else if x > 0 {
        1
    } else {
        0
    }
}

impl Game {
    /// A new game in the starting position with White to move.
    pub fn new() -> (g: Self)
        ensures
            g@ == start_position(),
    {
        Self {
            bitboard: BitBoard::startpos(),
            side_to_move: Color::White,
            halfmove_clock: 0,
            fullmove_number: 1,
        }
    }

    /// Starts the game afresh.
    pub fn reset(&mut self)
        ensures
            final(self)@ == start_position(),
    {
        *self = Self::new();
    }

    /// The side to move.
    pub fn side_to_move(&self) -> (c: Color)
        ensures
            c == self@.side,
    {
        self.side_to_move
    }

    /// Moves the piece on `from` to `to` without validation, promoting a
    /// pawn to `promotion` if one is given, and updates the side to move and
    /// the counters; `false` (and nothing changed) if `from` is empty.
    fn apply_move_unchecked(&mut self, from: u8, to: u8, promotion: Option<PieceKind>) -> (ok: bool)
        requires
            from < 64,
            to < 64,
            old(self)@.side == Color::Black ==> old(self)@.fullmove_number < u32::MAX,
        ensures
            ok == (piece_on(old(self)@.board, from as int) is Some),
            ok ==> final(self)@ == position_after_move(old(self)@, from as int, to as int, promotion),
            !ok ==> final(self)@ == old(self)@,
    {
        if self.bitboard.piece_at(from).is_none() {
            return false;
        }
        // Clear the capture square and the source, and place the piece
        self.bitboard = self.board_after(from, to, promotion);

        // Update clocks
        self.halfmove_clock = 0;
        if self.side_to_move == Color::Black {
            self.fullmove_number = self.fullmove_number + 1;
        }
        self.side_to_move = self.side_to_move.opposite();
        true
    }

    /// The board after the piece on `from` (there must be one) moves to
    /// `to`; the game itself is left unchanged.
    fn board_after(&self, from: u8, to: u8, promotion: Option<PieceKind>) -> (b: BitBoard)
        requires
            from < 64,
            to < 64,
            piece_on(self@.board, from as int) is Some,
        ensures
            b@ == board_after_move(self@.board, from as int, to as int, promotion),
    {
        let mut temp = self.bitboard;
        let moving_piece = match self.bitboard.piece_at(from) {
            Some(p) => p,
            None => {
                return temp;
            },
        };
        temp.clear_square(to);
        temp.clear_square(from);
        let final_kind = if moving_piece.kind == PieceKind::Pawn {
            match promotion {
                Some(k) => k,
                None => PieceKind::Pawn,
            }
        } else {
            moving_piece.kind
        };
        temp.set_piece(to, Piece { color: moving_piece.color, kind: final_kind });
        temp
    }

    /// Whether `piece` on `from` may move to `to` by the way it moves.
    fn is_move_pseudo_legal(&self, from: u8, to: u8, piece: Piece) -> (r: bool)
        requires
            from < 64,
            to < 64,
        ensures
            r == pseudo_legal(self@.board, from as int, to as int, piece),
    {
        if from == to {
            return false;
        }
        let from_file = from % 8;
        let from_rank = from / 8;
        let to_file = to % 8;
        let to_rank = to / 8;
        let file_diff = abs_i8(to_file as i8 - from_file as i8);
        let rank_diff = abs_i8(to_rank as i8 - from_rank as i8);

        let occupancy = self.bitboard.all_occupancy();

        match piece.kind {
            PieceKind::Pawn => {
                let forward: i8 = match piece.color {
                    Color::White => 1i8,
                    Color::Black => -1i8,
                };
                let start_rank: u8 = match piece.color {
                    Color::White => 1,
                    Color::Black => 6,
                };

                // Single push
                if to_file == from_file && to_rank as i8 == from_rank as i8 + forward {
                    return self.bitboard.piece_at(to).is_none();
                }
                // Double push
                if to_file == from_file && from_rank == start_rank && to_rank as i8
                    == from_rank as i8 + 2 * forward {
                    let mid_square = ((from_rank as i8 + forward) * 8 + from_file as i8) as u8;
                    return self.bitboard.piece_at(mid_square).is_none() && self.bitboard.piece_at(
                        to,
                    ).is_none();
                }
                // Capture
                if file_diff == 1 && to_rank as i8 == from_rank as i8 + forward {
                    return self.bitboard.piece_at(to).is_some();
                }
                false
            },
            PieceKind::Knight => (file_diff == 2 && rank_diff == 1) || (file_diff == 1 && rank_diff
                == 2),
            PieceKind::King => file_diff <= 1 && rank_diff <= 1,
            PieceKind::Bishop => {
                if file_diff != rank_diff {
                    return false;
                }
                self.is_path_clear(from, to, occupancy)
            },
            PieceKind::Rook => {
                if from_file != to_file && from_rank != to_rank {
                    return false;
                }
                self.is_path_clear(from, to, occupancy)
            },
            PieceKind::Queen => {
                if from_file != to_file && from_rank != to_rank && file_diff != rank_diff {
                    return false;
                }
                self.is_path_clear(from, to, occupancy)
            },
        }
    }

    /// Whether no square strictly between `from` and `to` has its bit set in
    /// `occupancy`.
    fn is_path_clear(&self, from: u8, to: u8, occupancy: u64) -> (r: bool)
        requires
            from < 64,
            to < 64,
            aligned(from as int, to as int),
        ensures
            r == path_clear(bit_squares(occupancy), from as int, to as int),
    {
        let from_file = from % 8;
        let from_rank = from / 8;
        let to_file = to % 8;
        let to_rank = to / 8;

        let file_step: i8 = signum_i8(to_file as i8 - from_file as i8);
        let rank_step: i8 = signum_i8(to_rank as i8 - from_rank as i8);

        let mut current_file = from_file as i8 + file_step;
        let mut current_rank = from_rank as i8 + rank_step;

        let ghost occ = bit_squares(occupancy);
        let ghost ff = from_file as int;
        let ghost fr = from_rank as int;
        let ghost n = if abs_int(to_file - ff) < abs_int(to_rank - fr) {
            abs_int(to_rank - fr)
        } else {
            abs_int(to_file - ff)
        };
        let ghost mut k: int = 1;
        if from == to {
            assert(n == 0);
            return true;
        }
        while current_file != to_file as i8 || current_rank != to_rank as i8
            invariant
                from < 64,
                to < 64,
                from != to,
                ff == from as int % 8,
                fr == from as int / 8,
                to_file == to % 8,
                to_rank == to / 8,
                file_step == sign_int(to_file - ff),
                rank_step == sign_int(to_rank - fr),
                to_file - ff == 0 || to_rank - fr == 0 || abs_int(to_file - ff) == abs_int(
                    to_rank - fr,
                ),
                n == if abs_int(to_file - ff) < abs_int(to_rank - fr) {
                    abs_int(to_rank - fr)
                } else {
                    abs_int(to_file - ff)
                },
                1 <= k <= n,
                current_file == step(ff, file_step as int, k),
                current_rank == step(fr, rank_step as int, k),
                (current_file == to_file && current_rank == to_rank) == (k == n),
                occ == bit_squares(occupancy),
                forall|j: int|
                    1 <= j < k ==> !#[trigger] occ.contains(
                        square_of(step(ff, file_step as int, j), step(fr, rank_step as int, j)),
                    ),
            decreases n - k,
        {
            let sq = (current_rank * 8 + current_file) as u8;
            proof {
                crate::bits::lemma_mask_test(occupancy, sq as u64);
            }
            if occupancy & (1u64 << sq) != 0 {
                assert(occ.contains(
                    square_of(step(ff, file_step as int, k), step(fr, rank_step as int, k)),
                ));
                return false;
            }
            current_file = current_file + file_step;
            current_rank = current_rank + rank_step;
            proof {
                k = k + 1;
            }
        }
        true
    }

    /// Whether the king of `color` is attacked.
    fn is_in_check(&self, color: Color) -> (r: bool)
        ensures
            r == in_check(self@.board, color),
    {
        if let Some(king_sq) = self.bitboard.king_square(color) {
            self.bitboard.is_square_attacked(king_sq, color.opposite())
        } else {
            false
        }
    }
    /// A copy of the game whose board is `board`.
    fn with_board(&self, board: BitBoard) -> (g: Game)
        ensures
            g@.board == board@,
            g@.side == self@.side,
    {
        Game {
            bitboard: board,
            side_to_move: self.side_to_move,
            halfmove_clock: self.halfmove_clock,
            fullmove_number: self.fullmove_number,
        }
    }

    /// Whether `piece`, standing on `from`, may legally move to `to` with the
    /// side to move of this game (the game is not changed).
    fn is_move_legal_internal(
        &self,
        from: u8,
        to: u8,
        piece: Piece,
        promotion: Option<PieceKind>,
    ) -> (r: bool)
        requires
            from < 64,
            to < 64,
            piece_on(self@.board, from as int) == Some(piece),
        ensures
            r == legal(self@.board, self@.side, from as int, to as int, piece, promotion),
    {
        // Check destination
        if let Some(captured) = self.bitboard.piece_at(to) {
            if captured.color == piece.color {
                return false;
            }
        }
        // Check pseudo-legality
        if !self.is_move_pseudo_legal(from, to, piece) {
            return false;
        }
        // Check king safety
        let temp = self.with_board(self.board_after(from, to, promotion));
        !temp.is_in_check(self.side_to_move)
    }

    /// Whether the side to move has a legal move.
    fn has_any_legal_move(&self) -> (r: bool)
        ensures
            r == has_legal_move(self@),
    {
        let mut from: u8 = 0;
        while from < 64
            invariant
                from <= 64,
                forall|f: int, t: int|
                    0 <= f < from && 0 <= t < 64 ==> !#[trigger] legal_from_to(self@, f, t),
            decreases 64 - from,
        {
            if let Some(piece) = self.bitboard.piece_at(from) {
                if piece.color == self.side_to_move {
                    let mut to: u8 = 0;
                    while to < 64
                        invariant
                            from < 64,
                            to <= 64,
                            piece_on(self@.board, from as int) == Some(piece),
                            piece.color == self@.side,
                            forall|f: int, t: int|
                                0 <= f < from && 0 <= t < 64 ==> !#[trigger] legal_from_to(
                                    self@,
                                    f,
                                    t,
                                ),
                            forall|t: int|
                                0 <= t < to ==> !#[trigger] legal_from_to(self@, from as int, t),
                        decreases 64 - to,
                    {
                        if self.is_move_legal_internal(from, to, piece, None) {
                            assert(legal_from_to(self@, from as int, to as int));
                            return true;
                        }
                        to = to + 1;
                    }
                }
            }
            from = from + 1;
        }
        false
    }

    /// Whether the game goes on, the side to move is in check, checkmated or
    /// stalemated.
    pub fn game_status(&self) -> (s: GameStatus)
        ensures
            s == status_of(self@),
    {
        let has_legal_moves = self.has_any_legal_move();
        let in_check = self.is_in_check(self.side_to_move);
        if !has_legal_moves {
            if in_check {
                GameStatus::Checkmate
            } else {
                GameStatus::Stalemate
            }
        } else if in_check {
            GameStatus::Check
        } else {
            GameStatus::InProgress
        }
    }
    /// Every check on the move written `b` before the king's safety.
    fn check_uci(&self, b: &[u8]) -> (r: Result<(u8, u8, Option<PieceKind>), MoveError>)
        ensures
            r == check_move(self@, b@),
    {
        if b.len() < 4 {
            return Err(MoveError::TooShort);
        }
        let from_text: [u8; 2] = [b[0], b[1]];
        let to_text: [u8; 2] = [b[2], b[3]];
        assert(from_text@ =~= b@.subrange(0, 2));
        assert(to_text@ =~= b@.subrange(2, 4));
        let from = match parse_square(&from_text) {
            Ok(sq) => sq,
            Err(e) => {
                return Err(MoveError::Square(e));
            },
        };
        let to = match parse_square(&to_text) {
            Ok(sq) => sq,
            Err(e) => {
                return Err(MoveError::Square(e));
            },
        };
        let promotion = if b.len() >= 5 {
            match parse_promotion(b[4] as char) {
                Some(k) => Some(k),
                None => {
                    return Err(MoveError::Promotion);
                },
            }
        } else {
            None
        };

        let moving_piece = match self.bitboard.piece_at(from) {
            Some(p) => p,
            None => {
                return Err(MoveError::NoPiece(b[0], b[1]));
            },
        };
        if moving_piece.color != self.side_to_move {
            return Err(MoveError::WrongTurn);
        }
        // Check destination isn't occupied by own piece
        if let Some(captured) = self.bitboard.piece_at(to) {
            if captured.color == moving_piece.color {
                return Err(MoveError::OwnCapture);
            }
        }
        // Validate move is pseudo-legal
        if !self.is_move_pseudo_legal(from, to, moving_piece) {
            return Err(MoveError::CannotMove);
        }
        Ok((from, to, promotion))
    }

    /// Plays a move written in UCI notation (`e2e4`, or `e7e8q` with a
    /// promotion piece in either case); surrounding white space is ignored.
    /// A refused move leaves the game unchanged and says why.
    pub fn make_move_uci(&mut self, mv: &str) -> (r: Result<(), String>)
        requires
            !move_stops(old(self)@, mv@),
        ensures
            match move_result(old(self)@, move_bytes(mv@)) {
                Ok(p) => r is Ok && final(self)@ == p,
                Err(e) => r matches Err(msg) && msg@ == move_error_text(e) && final(self)@ == old(
                    self,
                )@,
            },
    {
        let mv = trim_str(mv);
        let bytes = mv.as_bytes();
        let (from, to, promotion) = match self.check_uci(bytes) {
            Ok(m) => m,
            Err(e) => {
                return Err(e.message());
            },
        };
        // Check if move would leave king in check
        let temp_game = self.with_board(self.board_after(from, to, promotion));
        if temp_game.is_in_check(self.side_to_move) {
            return Err(MoveError::KingInCheck.message());
        }
        // Move is legal, apply it
        if !self.apply_move_unchecked(from, to, promotion) {
            return Err(MoveError::ApplyFailed.message());
        }
        Ok(())
    }

    /// Plays a move written in UCI notation, as `make_move_uci` does, where
    /// that can be carried out; `None`, and the game unchanged, where it
    /// cannot (see `move_stops`).
    pub fn try_make_move_uci(&mut self, mv: &str) -> (r: Option<Result<(), String>>)
        ensures
            (r is None) == move_stops(old(self)@, mv@),
            r is None ==> final(self)@ == old(self)@,
            r matches Some(res) ==> match move_result(old(self)@, move_bytes(mv@)) {
                Ok(p) => res is Ok && final(self)@ == p,
                Err(e) => res matches Err(msg) && msg@ == move_error_text(e) && final(self)@
                    == old(self)@,
            },
    {
        let t = trim_str(mv);
        let bytes = t.as_bytes();
        if bytes.len() >= 4 {
            if !t.is_char_boundary(2) {
                return None;
            }
            let from_text: [u8; 2] = [bytes[0], bytes[1]];
            assert(from_text@ =~= bytes@.subrange(0, 2));
            if parse_square(&from_text).is_ok() && !t.is_char_boundary(4) {
                return None;
            }
        }
        if self.check_uci(bytes).is_ok() && self.side_to_move == Color::Black
            && self.fullmove_number == u32::MAX {
            return None;
        }
        Some(self.make_move_uci(mv))
    }

    /// Adds the move with promotion `k` to `moves` if it is legal.
    fn push_promotion(
        &self,
        moves: &mut Vec<String>,
        from: u8,
        to: u8,
        piece: Piece,
        k: PieceKind,
    )
        requires
            from < 64,
            to < 64,
            piece_on(self@.board, from as int) == Some(piece),
        ensures
            final(moves).deep_view() == old(moves).deep_view() + promotion_text(
                self@,
                from as int,
                to as int,
                k,
            ),
    {
        if self.is_move_legal_internal(from, to, piece, Some(k)) {
            moves.push(move_to_uci(from, to, Some(k)));
        }
        assert(moves.deep_view() =~= old(moves).deep_view() + promotion_text(
            self@,
            from as int,
            to as int,
            k,
        ));
    }

    /// All legal moves of the side to move in UCI notation, by source
    /// square, then target square; a pawn reaching its last rank gives one
    /// move per legal promotion piece (queen, rook, bishop, knight).
    pub fn generate_legal_moves(&self) -> (moves: Vec<String>)
        ensures
            moves.deep_view() == legal_move_texts(self@),
    {
        let mut moves: Vec<String> = Vec::new();
        let mut from: u8 = 0;
        assert(moves.deep_view() =~= texts_upto(self@, 0));
        while from < 64
            invariant
                from <= 64,
                moves.deep_view() == texts_upto(self@, from as nat),
            decreases 64 - from,
        {
            let ghost base = moves.deep_view();
            let mut to: u8 = 0;
            assert(base + texts_from(self@, from as int, 0) =~= base);
            while to < 64
                invariant
                    from < 64,
                    to <= 64,
                    base == texts_upto(self@, from as nat),
                    moves.deep_view() == base + texts_from(self@, from as int, to as nat),
                decreases 64 - to,
            {
                let ghost before = moves.deep_view();
                if let Some(piece) = self.bitboard.piece_at(from) {
                    if piece.color == self.side_to_move && self.is_move_legal_internal(
                        from,
                        to,
                        piece,
                        None,
                    ) {
                        // Handle pawn promotions as explicit UCI moves (q/r/b/n)
                        let promotion_rank: u8 = match piece.color {
                            Color::White => 7,
                            Color::Black => 0,
                        };
                        if piece.kind == PieceKind::Pawn && to / 8 == promotion_rank {
                            self.push_promotion(&mut moves, from, to, piece, PieceKind::Queen);
                            self.push_promotion(&mut moves, from, to, piece, PieceKind::Rook);
                            self.push_promotion(&mut moves, from, to, piece, PieceKind::Bishop);
                            self.push_promotion(&mut moves, from, to, piece, PieceKind::Knight);
                        } else {
                            moves.push(move_to_uci(from, to, None));
                        }
                    }
                }
                assert(moves.deep_view() =~= before + texts_for(self@, from as int, to as int));
                assert(moves.deep_view() =~= base + texts_from(self@, from as int, to as nat + 1));
                to = to + 1;
            }
            assert(moves.deep_view() =~= texts_upto(self@, from as nat + 1));
            from = from + 1;
        }
        moves
    }
    /// The position in Forsyth-Edwards notation (castling rights and en
    /// passant are always `-`).
    pub fn fen(&self) -> (s: String)
        ensures
            s@ == fen_text(self@),
    {
        let ghost v = self@.board;
        // Board
        let mut out = String::new();
        let mut rank: u8 = 8;
        assert(out@ + ranks_text(v, 8) =~= ranks_text(v, 8));
        while rank > 0
            invariant
                rank <= 8,
                v == self@.board,
                out@ + ranks_text(v, rank as nat) == ranks_text(v, 8),
            decreases rank,
        {
            let r = rank - 1;
            let ghost start = out@;
            let mut empty: u8 = 0;
            let mut file: u8 = 0;
            assert(start + rank_text(v, r as int, 0, 0) =~= out@ + rank_text(v, r as int, 0, 0));
            while file < 8
                invariant
                    r < 8,
                    file <= 8,
                    empty <= file,
                    v == self@.board,
                    out@ + rank_text(v, r as int, file as int, empty as nat) == start + rank_text(
                        v,
                        r as int,
                        0,
                        0,
                    ),
                decreases 8 - file,
            {
                let square = r * 8 + file;  // a1 = 0, h8 = 63
                let ghost before = out@;
                let ghost e0 = empty as nat;
                if let Some(piece) = self.bitboard.piece_at(square) {
                    if empty > 0 {
                        push_char(&mut out, (48u8 + empty) as char);
                        empty = 0;
                    }
                    push_char(&mut out, piece.fen_char());
                    assert(out@ + rank_text(v, r as int, file as int + 1, 0) =~= before
                        + rank_text(v, r as int, file as int, e0));
                } else {
                    empty = empty + 1;
                }
                file = file + 1;
            }
            assert(rank_text(v, r as int, 8, empty as nat) == empty_run(empty as nat));
            if empty > 0 {
                push_char(&mut out, (48u8 + empty) as char);
            }
            assert(out@ =~= start + rank_text(v, r as int, 0, 0));
            if r != 0 {
                push_char(&mut out, '/');
            }
            assert(out@ + ranks_text(v, r as nat) =~= start + ranks_text(v, rank as nat));
            rank = r;
        }

        // Side to move
        push_char(&mut out, ' ');
        push_char(
            &mut out,
            match self.side_to_move {
                Color::White => 'w',
                Color::Black => 'b',
            },
        );

        // Castling, en-passant, clocks (not implemented yet)
        out.append(" - - ");
        push_decimal(&mut out, self.halfmove_clock);
        push_char(&mut out, ' ');
        push_decimal(&mut out, self.fullmove_number);
        assert(out@ =~= fen_text(self@));
        out
    }
    /// What stands on `square` of the game's board.
    pub(crate) fn piece_at(&self, square: u8) -> (r: Option<Piece>)
        ensures
            r == piece_on(self@.board, square as int),
    {
        self.bitboard.piece_at(square)
    }
    /// The number of the current full move (it starts at `1` and grows
    /// after each move of Black).
    pub fn fullmove_number(&self) -> (n: u32)
        ensures
            n == self@.fullmove_number,
    {
        self.fullmove_number
    }
}

} // verus!
