//! Dennis, the engine: it plays a legal move chosen at random.
use vstd::prelude::*;
use rand::seq::SliceRandom;
use rand::thread_rng;
use vstd::string::StringExecFns;
use crate::game::{Game, legal_move_texts, move_result, move_bytes, move_stops};
use crate::laws::lemma_listed_moves_are_accepted;
use crate::board::Color;

verus! {

/// The engine.
pub struct DennisEngine;

/// One of `moves`, chosen at random, or `None` if there are none.
///
/// Trusted: rand's `SliceRandom::choose` on the thread-local generator,
/// which returns `None` for an empty slice and otherwise a reference to an
/// element at a random index below the length; the element is cloned.
#[verifier::external_body]
fn choose_move(moves: &Vec<String>) -> (r: Option<String>)
    ensures
        (r is None) == (moves@.len() == 0),
        r matches Some(m) ==> exists|i: int| 0 <= i < moves@.len() && moves@[i]@ == m@,
{
    moves.choose(&mut thread_rng()).cloned()
}

impl DennisEngine {
    /// A legal move of the side to move, chosen at random; `None` if there
    /// is none.
    pub fn pick_move(game: &Game) -> (r: Option<String>)
        ensures
            (r is None) == (legal_move_texts(game@).len() == 0),
            r matches Some(m) ==> legal_move_texts(game@).contains(m@),
    {
        let moves = game.generate_legal_moves();
        if moves.len() == 0 {
            return None;
        }
        let r = choose_move(&moves);
        proof {
            if r is Some {
                let m = r->Some_0;
                let i = choose|i: int| 0 <= i < moves@.len() && moves@[i]@ == m@;
                assert(moves.deep_view()[i] == m@);
            }
        }
        r
    }
    /// Plays a legal move chosen at random and returns it. With no legal
    /// move the game is unchanged and the answer is the message
    /// `No legal moves available`; `None` (and the game unchanged) where
    /// the move cannot be played because Black is to move and the move
    /// number is at the largest `u32`.
    pub fn make_engine_move(game: &mut Game) -> (r: Option<Result<String, String>>)
        ensures
            legal_move_texts(old(game)@).len() == 0 ==> (r matches Some(res) && res matches Err(
                msg,
            ) && msg@ == "No legal moves available"@ && final(game)@ == old(game)@),
            legal_move_texts(old(game)@).len() > 0 ==> ((r is None) == (old(game)@.side
                == Color::Black && old(game)@.fullmove_number == u32::MAX)),
            r is None ==> final(game)@ == old(game)@,
            legal_move_texts(old(game)@).len() > 0 && r is Some ==> r->Some_0 is Ok,
            r matches Some(res) ==> res is Ok ==> ({
                let m = res->Ok_0@;
                &&& legal_move_texts(old(game)@).contains(m)
                &&& move_result(old(game)@, move_bytes(m)) is Ok
                &&& final(game)@ == move_result(old(game)@, move_bytes(m))->Ok_0
            }),
    {
        let mv = match Self::pick_move(game) {
            Some(m) => m,
            None => {
                return Some(Err(String::from_str("No legal moves available")));
            },
        };
        proof {
            let i = choose|i: int|
                0 <= i < legal_move_texts(game@).len() && legal_move_texts(game@)[i] == mv@;
            crate::game::lemma_game_board_len(*game);
            lemma_listed_moves_are_accepted(game@, i);
            assert(!move_stops(game@, mv@) == !(game@.side == Color::Black
                && game@.fullmove_number == u32::MAX));
        }
        match game.try_make_move_uci(mv.as_str()) {
            None => None,
            Some(Ok(())) => Some(Ok(mv)),
            Some(Err(e)) => Some(Err(e)),
        }
    }
}

} // verus!
