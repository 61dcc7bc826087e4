//! A Mastermind-style code-breaking game: colored pawns, a random secret of
//! distinct colors, and the black/white scoring of a guess against it.

pub mod parse;
pub mod pawn;
pub mod score;
pub mod secret;

pub use parse::{chars_of, is_white, proposition_of, read_proposition, split_into_type, split_tokens};
pub use pawn::{Pawn, Pattern, SIZE};
pub use score::{check_matches, remove_in_vector};
pub use secret::pattern_of_draw;
