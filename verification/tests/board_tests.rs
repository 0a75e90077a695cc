use chess_engine::board::{BitBoard, Color, Piece, PieceKind};

fn piece(color: Color, kind: PieceKind) -> Piece {
    Piece { color, kind }
}

#[test]
fn opposite_switches_sides() {
    assert_eq!(Color::White.opposite(), Color::Black);
    assert_eq!(Color::Black.opposite(), Color::White);
    assert_eq!(Color::White.opposite().opposite(), Color::White);
}

#[test]
fn fen_chars_of_pieces() {
    assert_eq!(piece(Color::White, PieceKind::Pawn).fen_char(), 'P');
    assert_eq!(piece(Color::White, PieceKind::Knight).fen_char(), 'N');
    assert_eq!(piece(Color::White, PieceKind::Bishop).fen_char(), 'B');
    assert_eq!(piece(Color::White, PieceKind::Rook).fen_char(), 'R');
    assert_eq!(piece(Color::White, PieceKind::Queen).fen_char(), 'Q');
    assert_eq!(piece(Color::White, PieceKind::King).fen_char(), 'K');
    assert_eq!(piece(Color::Black, PieceKind::Pawn).fen_char(), 'p');
    assert_eq!(piece(Color::Black, PieceKind::Knight).fen_char(), 'n');
    assert_eq!(piece(Color::Black, PieceKind::Bishop).fen_char(), 'b');
    assert_eq!(piece(Color::Black, PieceKind::Rook).fen_char(), 'r');
    assert_eq!(piece(Color::Black, PieceKind::Queen).fen_char(), 'q');
    assert_eq!(piece(Color::Black, PieceKind::King).fen_char(), 'k');
}

#[test]
fn empty_board_holds_nothing() {
    let bb = BitBoard::empty();
    for sq in 0..64u8 {
        assert_eq!(bb.piece_at(sq), None);
    }
    assert_eq!(bb.all_occupancy(), 0);
    assert_eq!(bb.king_square(Color::White), None);
    assert_eq!(bb.king_square(Color::Black), None);
}

#[test]
fn startpos_pieces() {
    let bb = BitBoard::startpos();
    assert_eq!(bb.piece_at(0), Some(piece(Color::White, PieceKind::Rook)));
    assert_eq!(bb.piece_at(1), Some(piece(Color::White, PieceKind::Knight)));
    assert_eq!(bb.piece_at(2), Some(piece(Color::White, PieceKind::Bishop)));
    assert_eq!(bb.piece_at(3), Some(piece(Color::White, PieceKind::Queen)));
    assert_eq!(bb.piece_at(4), Some(piece(Color::White, PieceKind::King)));
    assert_eq!(bb.piece_at(12), Some(piece(Color::White, PieceKind::Pawn)));
    assert_eq!(bb.piece_at(27), None);
    assert_eq!(bb.piece_at(52), Some(piece(Color::Black, PieceKind::Pawn)));
    assert_eq!(bb.piece_at(59), Some(piece(Color::Black, PieceKind::Queen)));
    assert_eq!(bb.piece_at(60), Some(piece(Color::Black, PieceKind::King)));
    assert_eq!(bb.piece_at(63), Some(piece(Color::Black, PieceKind::Rook)));
    assert_eq!(bb.piece_at(64), None);
    assert_eq!(bb.piece_at(255), None);
}

#[test]
fn startpos_occupancy() {
    let bb = BitBoard::startpos();
    assert_eq!(bb.occupancy_for(Color::White), 0xFFFF);
    assert_eq!(bb.occupancy_for(Color::Black), 0xFFFF_0000_0000_0000);
    assert_eq!(bb.all_occupancy(), 0xFFFF_0000_0000_FFFF);
}

#[test]
fn startpos_king_squares() {
    let bb = BitBoard::startpos();
    assert_eq!(bb.king_square(Color::White), Some(4));
    assert_eq!(bb.king_square(Color::Black), Some(60));
}

#[test]
fn lowest_king_is_reported() {
    let mut bb = BitBoard::empty();
    bb.set_piece(40, piece(Color::White, PieceKind::King));
    bb.set_piece(9, piece(Color::White, PieceKind::King));
    assert_eq!(bb.king_square(Color::White), Some(9));
}

#[test]
fn set_then_read_back() {
    let mut bb = BitBoard::startpos();
    bb.clear_square(12);
    assert_eq!(bb.piece_at(12), None);
    bb.set_piece(28, piece(Color::White, PieceKind::Pawn));
    assert_eq!(bb.piece_at(28), Some(piece(Color::White, PieceKind::Pawn)));
    assert_eq!(bb.piece_at(11), Some(piece(Color::White, PieceKind::Pawn)));
}

#[test]
fn clear_then_place_replaces() {
    let mut bb = BitBoard::startpos();
    bb.clear_square(0);
    bb.set_piece(0, piece(Color::Black, PieceKind::Queen));
    assert_eq!(bb.piece_at(0), Some(piece(Color::Black, PieceKind::Queen)));
    assert_eq!(bb.piece_at(1), Some(piece(Color::White, PieceKind::Knight)));
}

#[test]
fn set_without_clear_keeps_first_found() {
    let mut bb = BitBoard::startpos();
    bb.set_piece(0, piece(Color::Black, PieceKind::Queen));
    // White's rook is still found first on a1.
    assert_eq!(bb.piece_at(0), Some(piece(Color::White, PieceKind::Rook)));
}

#[test]
fn off_board_changes_nothing() {
    let mut bb = BitBoard::startpos();
    bb.clear_square(64);
    bb.set_piece(100, piece(Color::White, PieceKind::Queen));
    assert_eq!(bb, BitBoard::startpos());
}

#[test]
fn startpos_attacks() {
    let bb = BitBoard::startpos();
    // a3 is covered by the b2 pawn and the b1 knight.
    assert!(bb.is_square_attacked(16, Color::White));
    // e3 by the d2 and f2 pawns.
    assert!(bb.is_square_attacked(20, Color::White));
    // Nothing of White reaches the fourth rank.
    assert!(!bb.is_square_attacked(28, Color::White));
    // a6 is covered by Black.
    assert!(bb.is_square_attacked(40, Color::Black));
    assert!(!bb.is_square_attacked(32, Color::Black));
    // The rook on a1 defends a2 but not a3 through the pawn.
    assert!(bb.is_square_attacked(8, Color::White));
    assert!(!bb.is_square_attacked(64, Color::White));
}

#[test]
fn sliding_attacks_stop_at_blockers() {
    let mut bb = BitBoard::empty();
    bb.set_piece(0, piece(Color::White, PieceKind::Rook));
    assert!(bb.is_square_attacked(56, Color::White));
    assert!(bb.is_square_attacked(7, Color::White));
    assert!(!bb.is_square_attacked(9, Color::White));
    bb.set_piece(24, piece(Color::Black, PieceKind::Pawn));
    assert!(bb.is_square_attacked(24, Color::White));
    assert!(!bb.is_square_attacked(32, Color::White));

    let mut bb = BitBoard::empty();
    bb.set_piece(27, piece(Color::Black, PieceKind::Bishop));
    assert!(bb.is_square_attacked(0, Color::Black));
    assert!(bb.is_square_attacked(63, Color::Black));
    assert!(bb.is_square_attacked(6, Color::Black));
    assert!(!bb.is_square_attacked(28, Color::Black));
    bb.set_piece(45, piece(Color::White, PieceKind::Knight));
    assert!(!bb.is_square_attacked(54, Color::Black));
}

#[test]
fn pawn_and_king_attacks() {
    let mut bb = BitBoard::empty();
    bb.set_piece(28, piece(Color::Black, PieceKind::Pawn));
    assert!(bb.is_square_attacked(19, Color::Black));
    assert!(bb.is_square_attacked(21, Color::Black));
    assert!(!bb.is_square_attacked(35, Color::Black));
    bb.set_piece(0, piece(Color::White, PieceKind::King));
    assert!(bb.is_square_attacked(9, Color::White));
    assert!(!bb.is_square_attacked(16, Color::White));
    // A pawn on the a-file attacks only the b-file.
    let mut bb = BitBoard::empty();
    bb.set_piece(8, piece(Color::White, PieceKind::Pawn));
    assert!(bb.is_square_attacked(17, Color::White));
    assert!(!bb.is_square_attacked(23, Color::White));
}
