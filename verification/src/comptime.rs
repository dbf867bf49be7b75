//! Compile-time structures of the next bytecode generation: the task a
//! compilation works in, the modules it can import, and the type-stack
//! that checks branching code.

use crate::error::Error;
use crate::format::Binary;
use crate::syntax::Type;
use std::collections::HashMap;
use vstd::prelude::*;

verus! {

/// One compilation in progress: the binary under construction and the
/// elements in scope.
pub struct CompileTask {
    pub binary: Binary,
    pub path: HashMap<String, Element>,
}

/// An importable collection of functions; code is only required at run
/// time. Implemented by the embedder.
pub trait Module {
    /// The module's name.
    fn name(&self) -> String;

    /// Brings the module's elements into the task's scope.
    fn load(&self, task: &mut CompileTask) -> Result<(), Error>;

    /// Whether the module's code can be baked into a binary.
    fn shadable(&self) -> bool;

    /// Bakes the module's code into the binary.
    fn shade(&self, binary: &mut Binary) -> Result<(), Error>;
}

/// A named element in scope: a compile-time macro or a function.
pub enum Element {
    Macro(Macro),
    Function(Function),
}

/// A compile-time macro: a routine run during compilation, emitting into
/// the code buffer against the type-stack. The routine itself is a
/// function pointer, which the verifier does not take, so only the marker
/// is held here.
pub struct Macro {}

/// A compile-time function: its name and signature.
pub struct Function {
    name: String,
    params: Vec<Type>,
    results: Vec<Type>,
}

impl Function {
    /// The function's name, as a spec value.
    pub closed spec fn spec_name(&self) -> Seq<char> {
        self.name@
    }

    /// The parameter types, as a spec value.
    pub closed spec fn spec_params(&self) -> Seq<Type> {
        self.params@
    }

    /// The result types, as a spec value.
    pub closed spec fn spec_results(&self) -> Seq<Type> {
        self.results@
    }

    /// Builds a function record from its name and signature.
    pub fn new(name: String, params: Vec<Type>, results: Vec<Type>) -> (r: Function)
        ensures
            r.spec_name() == name@,
            r.spec_params() == params@,
            r.spec_results() == results@,
    {
        Function { name, params, results }
    }

    /// The function's name.
    pub fn name(&self) -> (r: &str)
        ensures
            r@ == self.spec_name(),
    {
        self.name.as_str()
    }

    /// The parameter and result types.
    pub fn signature(&self) -> (r: (&[Type], &[Type]))
        ensures
            r.0@ == self.spec_params(),
            r.1@ == self.spec_results(),
    {
        (self.params.as_slice(), self.results.as_slice())
    }
}

/// The abstract type of one compile-time stack cell.
#[derive(Clone, Copy, Debug, PartialEq, Eq, Structural)]
pub enum StackType {
    Int,
    Float,
    String,
}

/// A type-stack that can additionally check branching: entering a branch
/// opens a nested record of what the branch consumed.
pub struct CompiletimeStack {
    pub stack: Vec<StackType>,
    pub nested_stacks: Vec<NestedStack>,
}

/// What one open branch has consumed: its net depth and a backup of the
/// deepest cells it popped.
pub struct NestedStack {
    depth: isize,
    stack_bk: Vec<StackType>,
}

impl NestedStack {
    /// The branch's net consumption.
    pub closed spec fn spec_depth(&self) -> int {
        self.depth as int
    }

    /// The cells the branch popped beneath its own pushes, top first.
    pub closed spec fn spec_backup(&self) -> Seq<StackType> {
        self.stack_bk@
    }
}

impl CompiletimeStack {
    /// The number of cells on the stack.
    pub fn len(&self) -> (r: usize)
        ensures
            r == self.stack@.len(),
    {
        self.stack.len()
    }

    /// Whether the stack is empty.
    #[must_use]
    pub fn is_empty(&self) -> (r: bool)
        ensures
            r == (self.stack@.len() == 0),
    {
        self.stack.is_empty()
    }

    /// Pushes a cell; an open branch's net consumption shrinks by one.
    pub fn push(&mut self, stack_type: StackType)
        requires
            old(self).nested_stacks@.len() > 0 ==> old(self).nested_stacks@.last().spec_depth()
                > isize::MIN,
        ensures
            final(self).stack@ == old(self).stack@.push(stack_type),
            final(self).nested_stacks@.len() == old(self).nested_stacks@.len(),
            old(self).nested_stacks@.len() == 0 ==> final(self).nested_stacks@ == old(self).nested_stacks@,
            old(self).nested_stacks@.len() > 0 ==> final(self).nested_stacks@.last().spec_depth()
                == old(self).nested_stacks@.last().spec_depth() - 1
                && final(self).nested_stacks@.last().spec_backup() == old(self).nested_stacks@.last().spec_backup(),
    {
        self.stack.push(stack_type);
        if !self.nested_stacks.is_empty() {
            let mut last = match self.nested_stacks.pop() {
                Some(v) => v,
                None => {
                    return ;
                },
            };
            last.depth = last.depth - 1;
            self.nested_stacks.push(last);
            proof {
                assert(self.nested_stacks@ =~= old(self).nested_stacks@.drop_last().push(
                    self.nested_stacks@.last(),
                ));
            }
        }
    }

    /// Pops a cell if there is one; an open branch's net consumption grows
    /// by one and the cell joins its backup when it reaches deeper than
    /// the branch has before.
    pub fn pop(&mut self) -> (r: Option<StackType>)
        requires
            old(self).nested_stacks@.len() > 0 ==> old(self).nested_stacks@.last().spec_depth()
                < isize::MAX,
        ensures
            old(self).stack@.len() == 0 ==> r is None && *final(self) == *old(self),
            old(self).stack@.len() > 0 ==> r == Some(old(self).stack@.last()) && final(self).stack@ == old(self).stack@.drop_last(),
            old(self).stack@.len() > 0 ==> final(self).nested_stacks@.len() == old(self).nested_stacks@.len(),
            old(self).stack@.len() > 0 && old(self).nested_stacks@.len() > 0 ==> final(self).nested_stacks@.last().spec_depth() == old(self).nested_stacks@.last().spec_depth()
                + 1,
    {
        if self.stack.is_empty() {
            return None;
        }
        if self.nested_stacks.is_empty() {
            self.stack.pop()
        } else {
            let res = match self.stack.pop() {
                Some(v) => v,
                None => {
                    return None;
                },
            };
            let mut last = match self.nested_stacks.pop() {
                Some(v) => v,
                None => {
                    return Some(res);
                },
            };
            last.depth = last.depth + 1;
            if last.depth >= 1 && last.depth as usize > last.stack_bk.len() {
                last.stack_bk.push(res);
            }
            self.nested_stacks.push(last);
            proof {
                assert(self.nested_stacks@ =~= old(self).nested_stacks@.drop_last().push(
                    self.nested_stacks@.last(),
                ));
            }
            Some(res)
        }
    }

    /// Opens a branch: a fresh nested record with no consumption.
    pub fn branch(&mut self)
        ensures
            final(self).stack@ == old(self).stack@,
            final(self).nested_stacks@.len() == old(self).nested_stacks@.len() + 1,
            final(self).nested_stacks@.last().spec_depth() == 0,
            final(self).nested_stacks@.last().spec_backup() == Seq::<StackType>::empty(),
    {
        self.nested_stacks.push(NestedStack { depth: 0, stack_bk: Vec::new() });
    }

    /// Closes the innermost branch: what it consumed must still sit on the
    /// stack, cell for cell.
    pub fn merge(&mut self) -> (r: Result<(), Error>)
        requires
            old(self).nested_stacks@.len() > 0,
            old(self).nested_stacks@.last().spec_backup().len() <= old(self).stack@.len(),
            forall|i: int|
                0 <= i < old(self).nested_stacks@.last().spec_backup().len() ==> old(self).stack@[old(self).stack@.len() - 1 - i] == old(self).nested_stacks@.last().spec_backup()[i],
        ensures
            r is Ok,
            final(self).stack@ == old(self).stack@,
            final(self).nested_stacks@ == old(self).nested_stacks@.drop_last(),
    {
        let stack = match self.nested_stacks.pop() {
            Some(v) => v,
            None => {
                return Ok(());
            },
        };
        let stack_len = stack.stack_bk.len();
        let root_stack_len = self.stack.len();
        let mut i: usize = 0;
        while i < stack_len
            invariant
                0 <= i <= stack_len,
                stack_len == stack.stack_bk@.len(),
                root_stack_len == self.stack@.len(),
                stack_len <= root_stack_len,
                forall|q: int|
                    0 <= q < stack_len ==> self.stack@[root_stack_len - 1 - q]
                        == stack.stack_bk@[q],
            decreases stack_len - i,
        {
            let element = stack.stack_bk[i];
            let probe = self.stack[root_stack_len - 1 - i];
            if probe != element {
                return Ok(());
            }
            i = i + 1;
        }
        Ok(())
    }
}

impl Default for CompiletimeStack {
    /// An empty stack with no open branches.
    fn default() -> (r: CompiletimeStack)
        ensures
            r.stack@ == Seq::<StackType>::empty(),
            r.nested_stacks@ == Seq::<NestedStack>::empty(),
    {
        CompiletimeStack { stack: Vec::new(), nested_stacks: Vec::new() }
    }
}

} // verus!
