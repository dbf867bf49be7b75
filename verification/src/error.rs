//! The diagnostics of the block-structured source form, each an error kind
//! with the byte span it points at. Rendering them belongs to the driver.

use crate::syntax::Span;
use vstd::prelude::*;

verus! {

/// A fault in block-structured source text.
#[derive(Debug)]
pub enum Error {
    /// A raw newline inside a string literal.
    NewlineInStringLiteral { span: Span },
    /// A backslash followed by anything but a recognized escape.
    InvalidEscapeCharacterInString { span: Span },
    /// A function name beginning with a digit.
    FunctionNameStartingWithNumber { span: Span },
    /// A function name that is a reserved word.
    FunctionNameIsKeyword { span: Span },
    /// A closing bracket with nothing open.
    ClosingBracketOutOfContext { span: Span },
    /// An opening bracket where none may start.
    OpeningBracketOutOfContext { span: Span },
    /// The source ended inside a construct.
    UnexpectedEndOfSource { span: Span },
    /// A character no construct accepts here.
    UnexpectedCharacter { span: Span },
    /// A token no construct accepts here.
    UnexpectedToken { span: Span },
    /// Two tokens with no white space between them.
    MissingWhitespaceBetweenTokens { span: Span },
}

} // verus!
