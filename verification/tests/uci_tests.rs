use chess_engine::game::Game;
use chess_engine::uci::{parse_go_limits, set_position};

#[test]
fn go_defaults() {
    assert_eq!(parse_go_limits("go"), (10, 2000));
    assert_eq!(parse_go_limits(""), (10, 2000));
}

#[test]
fn go_depth_and_movetime() {
    assert_eq!(parse_go_limits("go depth 5 movetime 100"), (5, 100));
    assert_eq!(parse_go_limits("go  movetime   250\tdepth 3"), (3, 250));
    assert_eq!(parse_go_limits("go depth +7"), (7, 2000));
}

#[test]
fn go_zero_counts_as_one() {
    assert_eq!(parse_go_limits("go depth 0 movetime 0"), (1, 1));
}

#[test]
fn go_unreadable_values_are_skipped() {
    assert_eq!(parse_go_limits("go depth 300"), (10, 2000));
    assert_eq!(parse_go_limits("go depth -1"), (10, 2000));
    assert_eq!(parse_go_limits("go depth x movetime 9"), (10, 9));
    assert_eq!(parse_go_limits("go depth"), (10, 2000));
    assert_eq!(parse_go_limits("go movetime 18446744073709551615"), (10, 18446744073709551615));
    assert_eq!(parse_go_limits("go movetime 18446744073709551616"), (10, 2000));
    // The word after `depth` is taken along even when it does not read.
    assert_eq!(parse_go_limits("go depth depth 4"), (10, 2000));
    // The first word is skipped whatever it is.
    assert_eq!(parse_go_limits("depth 4"), (10, 2000));
}

#[test]
fn position_startpos() {
    let mut game = Game::new();
    game.make_move_uci("e2e4").unwrap();
    assert_eq!(set_position("position startpos", &mut game), Ok(()));
    assert_eq!(game.fen(), Game::new().fen());
}

#[test]
fn position_startpos_moves() {
    let mut game = Game::new();
    assert_eq!(set_position("position startpos moves e2e4 e7e5 g1f3", &mut game), Ok(()));
    assert_eq!(game.fen(), "rnbqkbnr/pppp1ppp/8/4p3/4P3/5N2/PPPP1PPP/RNBQKB1R b - - 0 2");
}

#[test]
fn position_with_bad_move_keeps_game() {
    let mut game = Game::new();
    game.make_move_uci("d2d4").unwrap();
    let before = game.fen();
    assert_eq!(
        set_position("position startpos moves e2e4 e2e5", &mut game),
        Err("invalid move 'e2e5': No piece on e2".to_string())
    );
    assert_eq!(game.fen(), before);
    assert_eq!(
        set_position("position startpos moves e2e5", &mut game),
        Err("invalid move 'e2e5': Illegal move: piece cannot move there".to_string())
    );
    assert_eq!(game.fen(), before);
}

#[test]
fn position_fen_and_unknown() {
    let mut game = Game::new();
    assert_eq!(
        set_position("position fen 8/8/8/8/8/8/8/8 w - - 0 1", &mut game),
        Err("FEN position not supported yet (startpos supported)".to_string())
    );
    assert_eq!(
        set_position("position banana", &mut game),
        Err("Unsupported position command".to_string())
    );
    assert_eq!(set_position("isready", &mut game), Err("Unsupported position command".to_string()));
    assert_eq!(game.fen(), Game::new().fen());
}
