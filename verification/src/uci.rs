//! The parts of the UCI protocol that read commands: `position` and `go`.
use vstd::prelude::*;
use vstd::string::StringExecFns;
use crate::board::Color;
use crate::dennis_engine::DennisEngine;
use crate::game::{
    legal_move_texts,
    Game, Position, MoveError, start_position, check_move, move_result, move_bytes,
    move_stops, move_error_text,
};
use crate::text::{
    trim, words, strip_prefix, starts_with, unsigned_value, trim_str, strip_prefix_str,
    split_words, str_equals, parse_unsigned,
};

verus! {

// ---------------------------------------------------------------------------
// `go`
// ---------------------------------------------------------------------------

/// The search limits `(depth, movetime)` read from the words of a `go`
/// command from word `i` on, starting from the given values: `depth n` and
/// `movetime n` set a limit when `n` reads as a number (a `0` counts as
/// `1`), and take the word after them along in any case; other words are
/// skipped.
pub open spec fn go_limits_from(toks: Seq<Seq<char>>, i: int, depth: u8, movetime: u64) -> (u8, u64)
    decreases toks.len() - i,
{
    if i >= toks.len() {
        (depth, movetime)
    } else if toks[i] == "depth"@ && i + 1 < toks.len() {
        let d = match unsigned_value(toks[i + 1], 255) {
            Some(x) => if x == 0 {
                1u8
            } else {
                x as u8
            },
            None => depth,
        };
        go_limits_from(toks, i + 2, d, movetime)
    } else if toks[i] == "movetime"@ && i + 1 < toks.len() {
        let t = match unsigned_value(toks[i + 1], u64::MAX as nat) {
            Some(x) => if x == 0 {
                1u64
            } else {
                x as u64
            },
            None => movetime,
        };
        go_limits_from(toks, i + 2, depth, t)
    } else {
        go_limits_from(toks, i + 1, depth, movetime)
    }
}

/// The search limits of a `go` command (the first word is `go` and is
/// skipped); depth `10` and `2000` ms unless the command says otherwise.
pub open spec fn go_limits(cmd: Seq<char>) -> (u8, u64) {
    go_limits_from(words(cmd), 1, 10, 2000)
}

/// Reads the search depth and the time per move in milliseconds from a
/// `go` command.
pub fn parse_go_limits(cmd: &str) -> (r: (u8, u64))
    ensures
        r == go_limits(cmd@),
{
    // Defaults for v1
    let mut depth: u8 = 10;
    let mut movetime_ms: u64 = 2000;

    let tokens: Vec<&str> = split_words(cmd);
    let ghost toks = words(cmd@);
    let mut i: usize = 1;  // skip "go"

    while i < tokens.len()
        invariant
            toks == tokens@.map_values(|t: &str| t@),
            1 <= i,
            go_limits_from(toks, i as int, depth, movetime_ms) == go_limits(cmd@),
        decreases tokens.len() - i,
    {
        assert(toks[i as int] == tokens@[i as int]@);
        if str_equals(tokens[i], "depth") && i + 1 < tokens.len() {
            assert(toks[i + 1] == tokens@[i + 1]@);
            if let Some(d) = parse_unsigned(tokens[i + 1], 255) {
                depth = if d < 1 {
                    1
                } else {
                    d as u8
                };
            }
            i = i + 2;
            continue;
        }
        if str_equals(tokens[i], "movetime") && i + 1 < tokens.len() {
            assert(toks[i + 1] == tokens@[i + 1]@);
            if let Some(t) = parse_unsigned(tokens[i + 1], u64::MAX) {
                movetime_ms = if t < 1 {
                    1
                } else {
                    t
                };
            }
            i = i + 2;
            continue;
        }
        i = i + 1;
    }
    (depth, movetime_ms)
}


/// The limits read from a `go` command are at least `1`, starting from
/// limits that are.
pub proof fn lemma_go_limits_from_positive(toks: Seq<Seq<char>>, i: int, depth: u8, movetime: u64)
    requires
        depth >= 1,
        movetime >= 1,
    ensures
        go_limits_from(toks, i, depth, movetime).0 >= 1,
        go_limits_from(toks, i, depth, movetime).1 >= 1,
    decreases toks.len() - i,
{
    if i < toks.len() {
        if toks[i] == "depth"@ && i + 1 < toks.len() {
            let d = match unsigned_value(toks[i + 1], 255) {
                Some(x) => if x == 0 {
                    1u8
                } else {
                    x as u8
                },
                None => depth,
            };
            lemma_go_limits_from_positive(toks, i + 2, d, movetime);
        } else if toks[i] == "movetime"@ && i + 1 < toks.len() {
            let t = match unsigned_value(toks[i + 1], u64::MAX as nat) {
                Some(x) => if x == 0 {
                    1u64
                } else {
                    x as u64
                },
                None => movetime,
            };
            lemma_go_limits_from_positive(toks, i + 2, depth, t);
        } else {
            lemma_go_limits_from_positive(toks, i + 1, depth, movetime);
        }
    }
}

/// A `go` command never asks for a depth or a time of `0`.
pub proof fn lemma_go_limits_positive(cmd: Seq<char>)
    ensures
        go_limits(cmd).0 >= 1,
        go_limits(cmd).1 >= 1,
{
    lemma_go_limits_from_positive(words(cmd), 1, 10, 2000);
}


/// Words other than `depth` and `movetime` leave the limits as they are.
proof fn lemma_go_limits_from_plain(toks: Seq<Seq<char>>, i: int, depth: u8, movetime: u64)
    requires
        i >= 0,
        forall|j: int| 0 <= j < toks.len() ==> #[trigger] toks[j] != "depth"@ && toks[j]
            != "movetime"@,
    ensures
        go_limits_from(toks, i, depth, movetime) == (depth, movetime),
    decreases toks.len() - i,
{
    if i < toks.len() {
        assert(toks[i] != "depth"@ && toks[i] != "movetime"@);
        lemma_go_limits_from_plain(toks, i + 1, depth, movetime);
    }
}

/// A `go` command without `depth` or `movetime` asks for depth `10` and
/// `2000` milliseconds.
pub proof fn lemma_go_defaults(cmd: Seq<char>)
    requires
        forall|j: int| 0 <= j < words(cmd).len() ==> #[trigger] words(cmd)[j] != "depth"@
            && words(cmd)[j] != "movetime"@,
    ensures
        go_limits(cmd) == (10u8, 2000u64),
{
    lemma_go_limits_from_plain(words(cmd), 1, 10, 2000);
}

// ---------------------------------------------------------------------------
// `position`
// ---------------------------------------------------------------------------

/// How playing a list of moves from a position ends.
pub enum Replay {
    /// Every move was played; the position reached.
    Done(Position),
    /// A move was refused: its text and why.
    Refused(Seq<char>, MoveError),
    /// A move cannot be cut into squares, or its move number would pass the
    /// largest `u32`.
    Stuck,
}

/// Plays the moves `toks` one after the other from `p`.
pub open spec fn replay(p: Position, toks: Seq<Seq<char>>) -> Replay
    decreases toks.len(),
{
    if toks.len() == 0 {
        Replay::Done(p)
    } else {
        let t = toks[0];
        let b = move_bytes(t);
        if move_stops(p, t) {
            Replay::Stuck
        } else {
            match move_result(p, b) {
                Err(e) => Replay::Refused(t, e),
                Ok(q) => replay(q, toks.drop_first()),
            }
        }
    }
}

/// What follows the word `position`, trimmed.
pub open spec fn position_args(cmd: Seq<char>) -> Seq<char> {
    trim(
        match strip_prefix(cmd, "position"@) {
            Some(r) => r,
            None => seq![],
        },
    )
}

/// The moves listed after `startpos` (and `moves`).
pub open spec fn startpos_moves(args: Seq<char>) -> Seq<Seq<char>> {
    let after = trim(
        match strip_prefix(args, "startpos"@) {
            Some(r) => r,
            None => seq![],
        },
    );
    match strip_prefix(after, "moves"@) {
        Some(m) => words(m),
        None => seq![],
    }
}

/// What a `position` command leads to: the position it sets, or the
/// message it is refused with; `None` where it cannot be carried out to its
/// end (a move is stuck).
pub open spec fn position_outcome(cmd: Seq<char>) -> Option<Result<Position, Seq<char>>> {
    let args = position_args(cmd);
    if starts_with(args, "startpos"@) {
        match replay(start_position(), startpos_moves(args)) {
            Replay::Done(q) => Some(Ok(q)),
            Replay::Refused(t, e) => Some(
                Err("invalid move '"@ + t + "': "@ + move_error_text(e)),
            ),
            Replay::Stuck => None,
        }
    } else if starts_with(args, "fen "@) {
        Some(Err("FEN position not supported yet (startpos supported)"@))
    } else {
        Some(Err("Unsupported position command"@))
    }
}

/// A `position` command can be carried out to its end.
pub open spec fn position_command_runs(cmd: Seq<char>) -> bool {
    position_outcome(cmd) is Some
}

/// Carries out a `position` command as `set_position` does where it can be
/// carried out to its end; `None`, and the game unchanged, where one of the
/// listed moves cannot be read (see `move_stops`) before any is refused.
pub fn try_set_position(cmd: &str, game: &mut Game) -> (r: Option<Result<(), String>>)
    ensures
        match position_outcome(cmd@) {
            None => r is None && final(game)@ == old(game)@,
            Some(Ok(q)) => r matches Some(res) && res is Ok && final(game)@ == q,
            Some(Err(m)) => r matches Some(res) && res matches Err(msg) && msg@ == m && final(game)@
                == old(game)@,
        },
{
    let rest = trim_str(
        match strip_prefix_str(cmd, "position") {
            Some(r) => r,
            None => "",
        },
    );
    proof {
        reveal_strlit("");
    }
    assert(rest@ == position_args(cmd@));

    if strip_prefix_str(rest, "startpos").is_some() {
        // Build on a temp position first (atomic update).
        let mut temp = Game::new();
        let after_startpos = trim_str(
            match strip_prefix_str(rest, "startpos") {
                Some(r) => r,
                None => "",
            },
        );
        let moves: Vec<&str> = match strip_prefix_str(after_startpos, "moves") {
            Some(moves_part) => split_words(moves_part),
            None => Vec::new(),
        };
        let ghost toks = startpos_moves(rest@);
        assert(moves@.map_values(|t: &str| t@) =~= toks);
        let mut i: usize = 0;
        assert(toks.skip(0) =~= toks);
        while i < moves.len()
            invariant
                toks == moves@.map_values(|t: &str| t@),
                toks == startpos_moves(position_args(cmd@)),
                starts_with(position_args(cmd@), "startpos"@),
                game@ == old(game)@,
                i <= moves.len(),
                replay(start_position(), toks) == replay(temp@, toks.skip(i as int)),
            decreases moves.len() - i,
        {
            let mv = moves[i];
            assert(toks.skip(i as int)[0] == mv@);
            assert(toks.skip(i as int).drop_first() =~= toks.skip(i as int + 1));
            let ghost before = temp@;
            let played = match temp.try_make_move_uci(mv) {
                Some(res) => res,
                None => {
                    return None;
                },
            };
            match played {
                Ok(()) => {},
                Err(e) => {
                    let mut msg = String::from_str("invalid move '");
                    msg.append(mv);
                    msg.append("': ");
                    msg.append(e.as_str());
                    proof {
                        let res = move_result(before, move_bytes(mv@));
                        assert(res is Err);
                        assert(replay(before, toks.skip(i as int)) == Replay::Refused(
                            mv@,
                            res->Err_0,
                        ));
                        assert(msg@ =~= "invalid move '"@ + mv@ + "': "@ + move_error_text(
                            res->Err_0,
                        ));
                    }
                    return Some(Err(msg));
                },
            }
            i = i + 1;
        }
        assert(toks.skip(i as int) =~= seq![]);
        // Commit only if everything succeeded
        *game = temp;
        return Some(Ok(()));
    }
    if strip_prefix_str(rest, "fen ").is_some() {
        return Some(Err(String::from_str("FEN position not supported yet (startpos supported)")));
    }
    Some(Err(String::from_str("Unsupported position command")))
}

/// Carries out a `position` command: `position startpos`, optionally
/// followed by `moves` and a list of moves, sets the game to the starting
/// position with the moves played; the game changes only if every move is
/// accepted. `position fen ...` and anything else are refused.
pub fn set_position(cmd: &str, game: &mut Game) -> (r: Result<(), String>)
    requires
        position_command_runs(cmd@),
    ensures
        match position_outcome(cmd@) {
            Some(Ok(q)) => r is Ok && final(game)@ == q,
            Some(Err(m)) => r matches Err(msg) && msg@ == m && final(game)@ == old(game)@,
            None => false,
        },
{
    match try_set_position(cmd, game) {
        Some(r) => r,
        // Ruled out by the requirement.
        None => Err(String::new()),
    }
}

// ---------------------------------------------------------------------------
// One line of the UCI loop.
// ---------------------------------------------------------------------------

/// The kinds of input lines the loop answers to.
pub enum UciCommand {
    Empty,
    Uci,
    IsReady,
    NewGame,
    Position,
    Go,
    Stop,
    Quit,
    Other,
}

/// What a (trimmed) input line asks for; a line that begins with
/// `position` or `go` counts as that command.
pub open spec fn uci_command(cmd: Seq<char>) -> UciCommand {
    if cmd.len() == 0 {
        UciCommand::Empty
    } else if cmd == "uci"@ {
        UciCommand::Uci
    } else if cmd == "isready"@ {
        UciCommand::IsReady
    } else if cmd == "ucinewgame"@ {
        UciCommand::NewGame
    } else if starts_with(cmd, "position"@) {
        UciCommand::Position
    } else if starts_with(cmd, "go"@) {
        UciCommand::Go
    } else if cmd == "stop"@ {
        UciCommand::Stop
    } else if cmd == "quit"@ {
        UciCommand::Quit
    } else {
        UciCommand::Other
    }
}

/// The answer to one input line.
pub struct UciReply {
    /// The lines to write, in order.
    pub lines: Vec<String>,
    /// The loop ends.
    pub quit: bool,
    /// The command cannot be carried out (a listed move is stuck).
    pub stopped: bool,
}

/// Answers one input line of the UCI protocol, updating the game:
/// `uci` introduces the engine, `isready` answers `readyok`, `ucinewgame`
/// starts afresh, `position` sets the position (reporting an error),
/// `go` answers `bestmove` with a legal move chosen at random, or `0000`,
/// `quit` ends the loop; other lines are ignored.
pub fn uci_step(game: &mut Game, line: &str) -> (r: UciReply)
    ensures
        ({
            let cmd = trim(line@);
            let lines = r.lines.deep_view();
            match uci_command(cmd) {
                UciCommand::Uci => lines == seq![
                    "id name Dennis v1.0"@,
                    "id author lalicon05"@,
                    "uciok"@,
                ] && !r.quit && !r.stopped && final(game)@ == old(game)@,
                UciCommand::IsReady => lines == seq!["readyok"@] && !r.quit && !r.stopped
                    && final(game)@ == old(game)@,
                UciCommand::NewGame => lines.len() == 0 && !r.quit && !r.stopped && final(game)@
                    == start_position(),
                UciCommand::Position => !r.quit && match position_outcome(cmd) {
                    None => r.stopped && lines.len() == 0 && final(game)@ == old(game)@,
                    Some(Ok(q)) => !r.stopped && lines.len() == 0 && final(game)@ == q,
                    Some(Err(m)) => !r.stopped && lines == seq![
                        "info string position error: "@ + m,
                    ] && final(game)@ == old(game)@,
                },
                UciCommand::Go => !r.quit && !r.stopped && final(game)@ == old(game)@ && if legal_move_texts(
                    old(game)@,
                ).len() == 0 {
                    lines == seq!["bestmove 0000"@]
                } else {
                    lines.len() == 1 && exists|i: int|
                        0 <= i < legal_move_texts(old(game)@).len() && lines[0] == "bestmove "@
                            + #[trigger] legal_move_texts(old(game)@)[i]
                },
                UciCommand::Quit => lines.len() == 0 && r.quit && !r.stopped && final(game)@ == old(
                    game,
                )@,
                _ => lines.len() == 0 && !r.quit && !r.stopped && final(game)@ == old(game)@,
            }
        }),
{
    let cmd = trim_str(line);
    let mut lines: Vec<String> = Vec::new();
    let ghost old_game = game@;
    assert(lines.deep_view() =~= seq![]);

    if cmd.unicode_len() == 0 {
        return UciReply { lines, quit: false, stopped: false };
    }
    if str_equals(cmd, "uci") {
        lines.push(String::from_str("id name Dennis v1.0"));
        lines.push(String::from_str("id author lalicon05"));
        lines.push(String::from_str("uciok"));
        assert(lines.deep_view() =~= seq![
            "id name Dennis v1.0"@,
            "id author lalicon05"@,
            "uciok"@,
        ]);
        return UciReply { lines, quit: false, stopped: false };
    }
    if str_equals(cmd, "isready") {
        lines.push(String::from_str("readyok"));
        assert(lines.deep_view() =~= seq!["readyok"@]);
        return UciReply { lines, quit: false, stopped: false };
    }
    if str_equals(cmd, "ucinewgame") {
        game.reset();
        return UciReply { lines, quit: false, stopped: false };
    }
    if strip_prefix_str(cmd, "position").is_some() {
        match try_set_position(cmd, game) {
            None => {
                return UciReply { lines, quit: false, stopped: true };
            },
            Some(Ok(())) => {},
            Some(Err(e)) => {
                let mut msg = String::from_str("info string position error: ");
                msg.append(e.as_str());
                lines.push(msg);
                assert(lines.deep_view() =~= seq![
                    "info string position error: "@ + position_outcome(cmd@)->Some_0->Err_0,
                ]);
            },
        }
        return UciReply { lines, quit: false, stopped: false };
    }
    if strip_prefix_str(cmd, "go").is_some() {
        // The engine plays without searching, so the limits are read but not used.
        let _limits = parse_go_limits(cmd);
        match DennisEngine::pick_move(game) {
            Some(mv) => {
                let mut reply = String::from_str("bestmove ");
                reply.append(mv.as_str());
                lines.push(reply);
                proof {
                    let i = choose|i: int|
                        0 <= i < legal_move_texts(game@).len() && legal_move_texts(game@)[i]
                            == mv@;
                    assert(lines.deep_view()[0] == "bestmove "@ + legal_move_texts(game@)[i]);
                }
            },
            None => {
                lines.push(String::from_str("bestmove 0000"));
                assert(lines.deep_view() =~= seq!["bestmove 0000"@]);
            },
        }
        return UciReply { lines, quit: false, stopped: false };
    }
    if str_equals(cmd, "stop") {
        // Search is synchronous right now, so nothing to stop.
        return UciReply { lines, quit: false, stopped: false };
    }
    if str_equals(cmd, "quit") {
        return UciReply { lines, quit: true, stopped: false };
    }
    UciReply { lines, quit: false, stopped: false }
}

} // verus!
