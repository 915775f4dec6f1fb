//! Small data types used by the contact-plan parsers.

use vstd::prelude::*;

verus! {

/// A value together with the place of the input where it was found.
#[derive(Clone, Copy, Debug, PartialEq, Eq)]
pub struct Located<T> {
    /// The located value.
    pub data: T,
    /// The line of the input.
    pub line: usize,
    /// The number of the token on that line.
    pub toknum: usize,
}

impl<T> Located<T> {
    /// Locates an error at the location of this value.
    pub fn err(self, e: &'static str) -> (r: Located<&'static str>)
        ensures
            r.data == e,
            r.line == self.line,
            r.toknum == self.toknum,
    {
        Located { data: e, line: self.line, toknum: self.toknum }
    }
}

/// Either one of two values.
#[derive(Clone, Copy, Debug, PartialEq, Eq)]
pub enum Either<L, R> {
    /// Left-hand value.
    Left(L),
    /// Right-hand value.
    Right(R),
}

/// The delimiters of lists in contact plans.
#[derive(Clone, Copy, Debug, PartialEq, Eq, Structural)]
pub enum Delimiter {
    /// Opening list delimiter `[`.
    Open,
    /// Closing list delimiter `]`.
    Close,
    /// Separator between list elements `,`.
    Separator,
}

/// Error fired when a token does not have the expected type.
pub const ETYPE: &'static str = "Wrong type for the next token.";
/// Error fired on end of input while a declaration is unfinished.
pub const EOF: &'static str = "Unexpected end of input while declaration was unfinished";
/// Error fired when a parser is fed a token it cannot take in its current state.
pub const INVALID_STATE: &'static str = "This parser is in a improper state or was feed an improper token for the attempted operation. \nPlease report a bug or check your usage of the Parse API";

} // verus!
