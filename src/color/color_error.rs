//! Errors of the color API.

use vstd::prelude::*;
use vstd::string::StringExecFns;

verus! {

/// Errors that can occur building a [`Color`](crate::color::Color).
#[derive(Clone, Copy, Debug, PartialEq, Eq)]
pub enum ColorError<'a> {
    /// The syntax of the color is invalid; the field shows the syntax expected.
    InvalidSyntax(&'a str),
}

impl<'a> ColorError<'a> {
    /// Text that tells what went wrong.
    pub fn message(&self) -> (r: String)
        ensures
            match self {
                ColorError::InvalidSyntax(syntax) => r@ == "The color syntax is invalid. It should be. "@
                    + syntax@,
            },
    {
        match self {
            ColorError::InvalidSyntax(syntax) => {
                "The color syntax is invalid. It should be. ".to_owned().concat(*syntax)
            },
        }
    }
}

} // verus!
