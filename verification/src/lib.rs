//! Algebraic chess notation: a data model for game transcripts, a parser from
//! text to that model, and a renderer from the model back to text.
//!
//! - [`types`] holds the data model and the builder for half-moves.
//! - [`notation`] defines, as bytes, what each value is written as.
//! - [`grammar`] defines, on bytes, what each piece of text is read as.
//! - [`render`] writes transcripts and is proved to write the notation.
//! - [`parse`] reads transcripts and is proved to follow the grammar.
//! - [`extent`] and [`text`] show that the parser stops on the boundary of a
//!   character, so that the rest of the text can be handed back.
//! - [`reading`] and [`roundtrip`] prove that the grammar reads the notation
//!   of a canonical game back as that game.

pub mod extent;
pub mod grammar;
pub mod notation;
pub mod parse;
pub mod reading;
pub mod render;
pub mod roundtrip;
pub mod text;
pub mod types;

pub use grammar::Expected;
pub use parse::{parse_game, parse_half_move, SyntaxError};
pub use render::{render_game, render_score_by_color};
pub use types::{
    move_figure_to, Color, Departure, Figure, File, Game, GameView, HalfMove, Move, MoveBuilder,
    MoveDetails, Rank, Result, Square,
};
