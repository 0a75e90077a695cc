use chess_engine::dennis_engine::DennisEngine;
use chess_engine::game::{status_name, GameStatus};
use chess_engine::uci::{try_set_position, uci_step};
use chess_engine::{Game, GameStatus as RootStatus};

#[test]
fn status_names() {
    assert_eq!(status_name(GameStatus::InProgress), "in_progress");
    assert_eq!(status_name(GameStatus::Check), "check");
    assert_eq!(status_name(GameStatus::Checkmate), "checkmate");
    assert_eq!(status_name(RootStatus::Stalemate), "stalemate");
}

#[test]
fn try_move_reports_uncuttable_text() {
    let mut game = Game::new();
    let start = game.fen();
    // The first square does not read, so the text is never cut after byte 4.
    assert_eq!(game.try_make_move_uci("zzaé"), Some(Err("File must be a-h".to_string())));
    assert_eq!(game.try_make_move_uci("aé34"), None);
    assert_eq!(game.try_make_move_uci("e2aé"), None);
    assert_eq!(game.try_make_move_uci("e2é4"), Some(Err("File must be a-h".to_string())));
    assert_eq!(game.fen(), start);
    assert_eq!(game.try_make_move_uci("e2e4"), Some(Ok(())));
    assert_eq!(game.side_to_move(), chess_engine::board::Color::Black);
}

#[test]
fn make_move_on_text_that_reads_as_bad_file() {
    let mut game = Game::new();
    assert_eq!(game.make_move_uci("zzaé"), Err("File must be a-h".to_string()));
    assert_eq!(game.fen(), Game::new().fen());
}

#[test]
fn try_position_reports_stuck_moves() {
    let mut game = Game::new();
    assert_eq!(try_set_position("position startpos moves e2e4 aé34", &mut game), None);
    assert_eq!(game.fen(), Game::new().fen());
    assert_eq!(
        try_set_position("position startpos moves zzaé", &mut game),
        Some(Err("invalid move 'zzaé': File must be a-h".to_string()))
    );
    assert_eq!(
        try_set_position("position startpos moves e2e5 aé34", &mut game),
        Some(Err("invalid move 'e2e5': Illegal move: piece cannot move there".to_string()))
    );
    assert_eq!(try_set_position("position startpos moves e2e4", &mut game), Some(Ok(())));
    assert_eq!(game.side_to_move(), chess_engine::board::Color::Black);
}

#[test]
fn engine_move_plays_a_listed_move() {
    let mut game = Game::new();
    let legal = game.generate_legal_moves();
    let mv = DennisEngine::make_engine_move(&mut game).unwrap().unwrap();
    assert!(legal.contains(&mv));
    let mut again = Game::new();
    again.make_move_uci(&mv).unwrap();
    assert_eq!(game.fen(), again.fen());
}

#[test]
fn engine_move_without_moves() {
    let mut game = Game::new();
    for mv in ["f2f3", "e7e5", "g2g4", "d8h4"] {
        game.make_move_uci(mv).unwrap();
    }
    let before = game.fen();
    assert_eq!(
        DennisEngine::make_engine_move(&mut game),
        Some(Err("No legal moves available".to_string()))
    );
    assert_eq!(game.fen(), before);
}

#[test]
fn uci_handshake() {
    let mut game = Game::new();
    let r = uci_step(&mut game, "uci");
    assert_eq!(r.lines, vec!["id name Dennis v1.0", "id author lalicon05", "uciok"]);
    assert!(!r.quit && !r.stopped);
    let r = uci_step(&mut game, "  isready \n");
    assert_eq!(r.lines, vec!["readyok"]);
    let r = uci_step(&mut game, "");
    assert!(r.lines.is_empty() && !r.quit);
    let r = uci_step(&mut game, "stop");
    assert!(r.lines.is_empty() && !r.quit);
    let r = uci_step(&mut game, "banana");
    assert!(r.lines.is_empty() && !r.quit);
    let r = uci_step(&mut game, "quit");
    assert!(r.lines.is_empty() && r.quit);
}

#[test]
fn uci_position_and_go() {
    let mut game = Game::new();
    let r = uci_step(&mut game, "position startpos moves f2f3 e7e5 g2g4");
    assert!(r.lines.is_empty() && !r.stopped);
    let r = uci_step(&mut game, "go depth 3");
    assert_eq!(r.lines.len(), 1);
    let mv = r.lines[0].strip_prefix("bestmove ").unwrap().to_string();
    assert!(game.generate_legal_moves().contains(&mv));
    let r = uci_step(&mut game, "position startpos moves f2f3 e7e5 g2g4 d8h4");
    assert!(r.lines.is_empty());
    let r = uci_step(&mut game, "go");
    assert_eq!(r.lines, vec!["bestmove 0000"]);
    let r = uci_step(&mut game, "position startpos moves e2e5");
    assert_eq!(
        r.lines,
        vec!["info string position error: invalid move 'e2e5': Illegal move: piece cannot move there"]
    );
    let r = uci_step(&mut game, "position startpos moves aé34");
    assert!(r.stopped && r.lines.is_empty());
    let r = uci_step(&mut game, "ucinewgame");
    assert!(r.lines.is_empty());
    assert_eq!(game.fen(), Game::new().fen());
}
