pub mod bits;
pub mod board;
pub mod game;
pub mod text;
pub mod eval;
pub mod dennis_engine;
pub mod uci;
pub mod laws;
pub mod material_laws;
pub mod notation_laws;

pub use game::{Game, GameStatus};
