//! The syntax elements of the block-structured source form: value types,
//! type lists, and the statements the state-machine parser produces, each
//! carrying its byte span in the source.

use vstd::prelude::*;

verus! {

/// A half-open byte range in the source text.
pub type Span = core::ops::Range<usize>;

/// A value type named in a signature.
#[derive(Debug)]
pub enum Type {
    Int,
    Float,
    String,
}

/// A compound type: the value types it is composed of.
#[derive(Debug)]
pub struct ComposeType {
    pub types: Vec<Type>,
}

/// One element of a parsed type list: a named value type or a reference to
/// a compound type.
#[derive(Debug)]
pub enum TypeElement {
    Type { span: Span, value: Type },
    ComposeType { span: Span },
}

/// An `if` block.
#[derive(Debug)]
pub struct IfStatement {
    pub span: Span,
}

/// A `while` block.
#[derive(Debug)]
pub struct WhileStatement {
    pub span: Span,
}

} // verus!
