use chess_engine::board::Color;
use chess_engine::dennis_engine::DennisEngine;
use chess_engine::eval::{evaluate, MATE_SCORE};
use chess_engine::game::{Game, GameStatus, MoveError, SquareError};

const START_FEN: &str = "rnbqkbnr/pppppppp/8/8/8/8/PPPPPPPP/RNBQKBNR w - - 0 1";

fn play(game: &mut Game, moves: &[&str]) {
    for mv in moves {
        game.make_move_uci(mv).unwrap();
    }
}

fn err_of(game: &mut Game, mv: &str) -> String {
    let before = game.fen();
    let e = game.make_move_uci(mv).unwrap_err();
    assert_eq!(game.fen(), before);
    e
}

#[test]
fn new_game_fen() {
    let game = Game::new();
    assert_eq!(game.fen(), START_FEN);
    assert_eq!(game.side_to_move(), Color::White);
    assert_eq!(game.fullmove_number(), 1);
}

#[test]
fn pawn_push_fen() {
    let mut game = Game::new();
    assert_eq!(game.make_move_uci("e2e4"), Ok(()));
    assert_eq!(game.fen(), "rnbqkbnr/pppppppp/8/8/4P3/8/PPPP1PPP/RNBQKBNR b - - 0 1");
    assert_eq!(game.side_to_move(), Color::Black);
    assert_eq!(game.make_move_uci("c7c5"), Ok(()));
    assert_eq!(game.fen(), "rnbqkbnr/pp1ppppp/8/2p5/4P3/8/PPPP1PPP/RNBQKBNR w - - 0 2");
    assert_eq!(game.fullmove_number(), 2);
}

#[test]
fn moves_may_carry_white_space() {
    let mut game = Game::new();
    assert_eq!(game.make_move_uci("  g1f3\n"), Ok(()));
    assert_eq!(game.fen(), "rnbqkbnr/pppppppp/8/8/8/5N2/PPPPPPPP/RNBQKB1R b - - 0 1");
}

#[test]
fn reset_returns_to_start() {
    let mut game = Game::new();
    play(&mut game, &["e2e4", "e7e5"]);
    game.reset();
    assert_eq!(game.fen(), START_FEN);
}

#[test]
fn refused_moves_and_messages() {
    let mut game = Game::new();
    assert_eq!(err_of(&mut game, "e2"), "UCI move must be at least 4 chars (e2e4)");
    assert_eq!(err_of(&mut game, "z2e4"), "File must be a-h");
    assert_eq!(err_of(&mut game, "e9e4"), "Rank must be 1-8");
    assert_eq!(err_of(&mut game, "e2i4"), "File must be a-h");
    assert_eq!(err_of(&mut game, "e2e4x"), "Promotion must be one of q,r,b,n");
    assert_eq!(err_of(&mut game, "e3e4"), "No piece on e3");
    assert_eq!(err_of(&mut game, "e7e5"), "It's not that side's turn");
    assert_eq!(err_of(&mut game, "d1d2"), "Cannot capture your own piece");
    assert_eq!(err_of(&mut game, "e2e5"), "Illegal move: piece cannot move there");
    assert_eq!(err_of(&mut game, "f1c4"), "Illegal move: piece cannot move there");
}

#[test]
fn moving_into_check_is_refused() {
    let mut game = Game::new();
    play(&mut game, &["e2e4", "e7e5", "f1b5"]);
    assert_eq!(err_of(&mut game, "d7d6"), "Illegal move: king would be in check");
    assert_eq!(game.make_move_uci("c7c6"), Ok(()));
}

#[test]
fn promotion_letter_is_ignored_for_other_pieces() {
    let mut game = Game::new();
    assert_eq!(game.make_move_uci("g1f3Q"), Ok(()));
    assert_eq!(game.fen(), "rnbqkbnr/pppppppp/8/8/8/5N2/PPPPPPPP/RNBQKB1R b - - 0 1");
}

#[test]
fn promotion_to_queen_and_knight() {
    let mut game = Game::new();
    play(&mut game, &["a2a4", "b7b5", "a4b5", "a7a6", "b5a6", "c8b7", "a6b7", "b8c6"]);
    let moves = game.generate_legal_moves();
    for m in ["b7a8q", "b7a8r", "b7a8b", "b7a8n", "b7b8q", "b7b8n"] {
        assert!(moves.contains(&m.to_string()), "missing {}", m);
    }
    assert!(!moves.contains(&"b7a8".to_string()));
    let mut queen = game.clone();
    assert_eq!(queen.make_move_uci("b7a8q"), Ok(()));
    assert_eq!(queen.fen(), "Q2qkbnr/2pppppp/2n5/8/8/8/1PPPPPPP/RNBQKBNR b - - 0 5");
    assert_eq!(game.make_move_uci("b7a8N"), Ok(()));
    assert_eq!(game.fen(), "N2qkbnr/2pppppp/2n5/8/8/8/1PPPPPPP/RNBQKBNR b - - 0 5");
}

#[test]
fn pawn_reaching_last_rank_without_letter_stays_pawn() {
    let mut game = Game::new();
    play(&mut game, &["a2a4", "b7b5", "a4b5", "a7a6", "b5a6", "c8b7", "a6b7", "b8c6"]);
    assert_eq!(game.make_move_uci("b7a8"), Ok(()));
    assert!(game.fen().starts_with("P2qkbnr/"));
}

#[test]
fn twenty_moves_at_start() {
    let game = Game::new();
    let moves = game.generate_legal_moves();
    assert_eq!(moves.len(), 20);
    assert_eq!(moves[0], "b1a3");
    assert!(moves.contains(&"e2e4".to_string()));
    assert!(moves.contains(&"g1f3".to_string()));
    for m in &moves {
        let mut g = game.clone();
        assert_eq!(g.make_move_uci(m), Ok(()));
    }
}

#[test]
fn status_in_progress_and_check() {
    let mut game = Game::new();
    assert_eq!(game.game_status(), GameStatus::InProgress);
    play(&mut game, &["e2e4", "f7f6", "d1h5"]);
    assert_eq!(game.game_status(), GameStatus::Check);
    let moves = game.generate_legal_moves();
    assert_eq!(moves, vec!["g7g6".to_string()]);
}

#[test]
fn fools_mate_is_checkmate() {
    let mut game = Game::new();
    play(&mut game, &["f2f3", "e7e5", "g2g4", "d8h4"]);
    assert_eq!(game.game_status(), GameStatus::Checkmate);
    assert!(game.generate_legal_moves().is_empty());
    assert_eq!(DennisEngine::pick_move(&game), None);
}

#[test]
fn shortest_stalemate() {
    let mut game = Game::new();
    play(
        &mut game,
        &[
            "e2e3", "a7a5", "d1h5", "a8a6", "h5a5", "h7h5", "h2h4", "a6h6", "a5c7", "f7f6",
            "c7d7", "e8f7", "d7b7", "d8d3", "b7b8", "d3h7", "b8c8", "f7g6", "c8e6",
        ],
    );
    assert_eq!(game.game_status(), GameStatus::Stalemate);
    assert!(game.generate_legal_moves().is_empty());
}

#[test]
fn engine_picks_a_legal_move() {
    let game = Game::new();
    let legal = game.generate_legal_moves();
    for _ in 0..20 {
        let m = DennisEngine::pick_move(&game).unwrap();
        assert!(legal.contains(&m));
        let mut g = game.clone();
        assert_eq!(g.make_move_uci(&m), Ok(()));
    }
}

#[test]
fn evaluation_of_material() {
    let mut game = Game::new();
    assert_eq!(evaluate(&game), 0);
    play(&mut game, &["e2e4", "d7d5", "e4d5"]);
    // White is a pawn up; Black is to move.
    assert_eq!(evaluate(&game), -100);
    play(&mut game, &["d8d5"]);
    assert_eq!(evaluate(&game), 0);
    assert_eq!(MATE_SCORE, 100_000);
}

#[test]
fn move_error_messages() {
    assert_eq!(MoveError::NoPiece(b'a', b'1').message(), "No piece on a1");
    assert_eq!(MoveError::Square(SquareError::Length).message(), "Square must be 2 chars");
    assert_eq!(MoveError::ApplyFailed.message(), "Internal move application failed");
    assert_eq!(MoveError::KingInCheck.message(), "Illegal move: king would be in check");
}

#[test]
fn non_ascii_text_is_refused() {
    let mut game = Game::new();
    assert_eq!(err_of(&mut game, "é2e4"), "File must be a-h");
    assert_eq!(err_of(&mut game, "e2e4é"), "Promotion must be one of q,r,b,n");
}
