use vstd::prelude::*;
use crate::input_range::{range_of, InputRange};

verus! {

/// A kind of token of a grammar, known by its name and abbreviation.
pub trait Token {
    fn name(&self) -> &String;

    fn abbreviation(&self) -> &String;
}

/// A token emitted over a range of the input, with the offsets it spans.
pub struct TokenData<T: Token> {
    pub token: T,
    pub range: InputRange,
    pub start: isize,
    pub end: isize,
}

impl<T: Token> TokenData<T> {
    /// Computes the range from the start of this token to the end of `to`.
    pub fn range_to(&self, to: &TokenData<T>) -> (r: InputRange)
        ensures
            r == range_of(
                self.range.line_from,
                self.range.column_from,
                to.range.line_to,
                to.range.column_to,
            ),
    {
        InputRange::build(
            self.range.line_from,
            self.range.column_from,
            to.range.line_to,
            to.range.column_to,
        )
    }
}

/// A terminal of the grammar: its kind, its text, its range, and whether it
/// stands for a lexical error.
pub struct AstToken<T: Token> {
    pub token_type: T,
    pub text: String,
    pub range: InputRange,
    pub parsing_error: bool,
}

} // verus!
