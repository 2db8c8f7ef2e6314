//! Annotated chess games: the arrows and marked squares that comments carry,
//! and the positions of a game and of its variations.

pub mod grammar;
pub mod model;
pub mod parser;
pub mod position;
pub mod shape;
pub mod text;
pub mod variations;
pub mod visitor;
