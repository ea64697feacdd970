//! A backtracking, position-tracking lexer engine.

pub mod input_range;
pub mod queue;
pub mod lexer_input;
pub mod text_input;
pub mod token;
pub mod lexer;
