//! Name resolution for the block-structured form: a path maps names to the
//! macros and functions visible under them.

use std::collections::HashMap;
use vstd::prelude::*;

verus! {

/// The elements reachable under one path.
pub struct Path {
    pub elements: HashMap<String, Element>,
}

/// A named element: a compile-time macro or a function.
pub enum Element {
    Macro(Macro),
    Function(Function),
}

/// A compile-time macro.
pub struct Macro {}

/// A function.
pub struct Function {}

} // verus!
