//! The state-machine parser's bookkeeping: what phase a state is in, and
//! the state that reads a compound-type declaration.

use crate::syntax::{Span, TypeElement};
use vstd::prelude::*;

verus! {

/// Where a parser state stands: untouched, running, or waiting for an
/// inner state to finish.
#[derive(Clone, Copy, Debug, PartialEq, Eq, Structural)]
pub enum Status {
    New,
    Active,
    Waiting,
}

impl Status {
    pub fn is_new(self) -> (r: bool)
        ensures
            r == (self == Status::New),
    {
        self == Status::New
    }

    pub fn is_active(self) -> (r: bool)
        ensures
            r == (self == Status::Active),
    {
        self == Status::Active
    }

    pub fn is_waiting(self) -> (r: bool)
        ensures
            r == (self == Status::Waiting),
    {
        self == Status::Waiting
    }
}

/// The state that reads a compound-type declaration: its start, and the
/// name, span and element types once read.
#[derive(Debug)]
pub struct TypeState {
    pub start_index: usize,
    pub span: Option<Span>,
    pub name: Option<Span>,
    pub types: Option<Vec<TypeElement>>,
}

impl TypeState {
    /// A fresh state at the given source index.
    pub fn with_start_index(start_index: usize) -> (r: TypeState)
        ensures
            r.start_index == start_index,
            r.span is None,
            r.name is None,
            r.types is None,
    {
        TypeState { start_index, span: None, name: None, types: None }
    }
}

/// Classifies a type-list token: the three value types by name, anything
/// else a compound-type reference.
pub fn parse_type(span: Span, buf: &str) -> (r: TypeElement)
    ensures
        buf@ == "int"@ ==> r matches TypeElement::Type { value: crate::syntax::Type::Int, .. },
        buf@ == "float"@ ==> r matches TypeElement::Type {
            value: crate::syntax::Type::Float,
            ..
        },
        buf@ == "str"@ ==> r matches TypeElement::Type {
            value: crate::syntax::Type::String,
            ..
        },
        buf@ != "int"@ && buf@ != "float"@ && buf@ != "str"@ ==> r matches
            TypeElement::ComposeType { .. },
{
    proof {
        reveal_strlit("int");
        reveal_strlit("float");
        reveal_strlit("str");
        assert("int"@.len() == 3 && "float"@.len() == 5 && "str"@.len() == 3);
        assert("int"@[0] == 'i' && "str"@[0] == 's');
        assert("int"@ != "float"@ && "int"@ != "str"@ && "float"@ != "str"@);
    }
    if str_lit_eq(buf, "int") {
        TypeElement::Type { span, value: crate::syntax::Type::Int }
    } else if str_lit_eq(buf, "float") {
        TypeElement::Type { span, value: crate::syntax::Type::Float }
    } else if str_lit_eq(buf, "str") {
        TypeElement::Type { span, value: crate::syntax::Type::String }
    } else {
        TypeElement::ComposeType { span }
    }
}

/// Whether the token is one of the structure keywords, which no function
/// or type may be named after.
pub fn is_keyword(buf: &str) -> (r: bool)
    ensures
        r == (buf@ == "type"@ || buf@ == "def"@ || buf@ == "fun"@ || buf@ == "if"@ || buf@
            == "while"@),
{
    str_lit_eq(buf, "type") || str_lit_eq(buf, "def") || str_lit_eq(buf, "fun") || str_lit_eq(
        buf,
        "if",
    ) || str_lit_eq(buf, "while")
}

/// Compares two string slices character by character.
pub fn str_lit_eq(a: &str, b: &str) -> (r: bool)
    ensures
        r == (a@ == b@),
{
    let n = a.unicode_len();
    if n != b.unicode_len() {
        return false;
    }
    let mut j: usize = 0;
    while j < n
        invariant
            0 <= j <= n,
            n == a@.len(),
            b@.len() == n,
            forall|k: int| 0 <= k < j ==> a@[k] == b@[k],
        decreases n - j,
    {
        if a.get_char(j) != b.get_char(j) {
            return false;
        }
        j = j + 1;
    }
    proof {
        assert(a@ =~= b@);
    }
    true
}

} // verus!

use vstd::string::StrSliceExecFns;
