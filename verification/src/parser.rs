//! The compiler front end: a whitespace-driven tokenizer with line comments
//! and escaped string literals, and a single-pass, token-driven translator
//! that emits the intermediate instruction sequence and string-constant pool
//! while tracking an abstract type-stack. Label references are written as
//! placeholders and resolved in a post-pass.

use crate::bytecode::Type;
use crate::Flags;
use vstd::prelude::*;
use vstd::string::StrSliceExecFns;

verus! {

/// Everything that can go wrong while turning source text into a
/// `PreBinary`: the lexical errors, then the type-stack errors.
#[derive(Clone, Copy, Debug, PartialEq, Eq, Structural)]
pub enum ParseError {
    /// A raw newline inside a string literal.
    NewlineInStringLiteral,
    /// A backslash followed by anything but `"`, `\\`, `n`, `r`, `t`, or by
    /// the end of the source.
    InvalidEscape,
    /// A token that is no operator, reserved word, label form, string or
    /// numeric literal; also a string literal left open at end of source.
    UnknownToken,
    /// The type-stack is too short for the operation, or holds operand
    /// types the operation does not accept.
    InvalidStackForOp,
    /// A binary operator found two unequal types on the type-stack.
    TypeMismatch,
    /// A `@name` or `&name` reference to a label that is never defined.
    UnknownLabel,
    /// A `%int`/`%float`/`%str`/`%drop` escape hatch while verification is
    /// enabled.
    FeatureRequiresNoVerify,
}

/// An intermediate instruction, as emitted by the compiler before
/// serialization. `PushFloat` carries the IEEE-754 binary64 bit pattern of
/// its immediate.
#[derive(Clone, Copy, Debug, PartialEq, Eq, Structural)]
pub enum Insn {
    Drop,
    Load,
    Swap,
    Dup,
    Jump,
    JumpNotZero,
    JumpZero,
    Call,
    PushInt(i64),
    PushFloat(u64),
    NumConvInt,
    NumConvFloat,
    TriRot,
    DiDup,
    TriDup,
    Abort,
    Exit,
    Panic,
    Println,
    Input,
    Gc,
    PrintInt,
    PrintFloat,
    PrintString,
    AddInt,
    SubInt,
    MulInt,
    DivInt,
    AddFloat,
    SubFloat,
    MulFloat,
    DivFloat,
    AddString,
    EqInt,
    LtInt,
    GtInt,
    LeInt,
    GeInt,
    EqFloat,
    LtFloat,
    GtFloat,
    LeFloat,
    GeFloat,
    EqString,
}

/// The compiler's output: the string-constant pool and the instruction
/// sequence, still in structured form.
#[derive(Debug)]
pub struct PreBinary {
    pub constants: Vec<String>,
    pub instructions: Vec<Insn>,
}

/// The Unicode white-space property, which separates tokens.
pub open spec fn is_space(c: char) -> bool {
    let u = c as u32;
    (9 <= u && u <= 13) || u == 32 || u == 0x85 || u == 0xA0 || u == 0x1680 || (0x2000 <= u && u
        <= 0x200A) || u == 0x2028 || u == 0x2029 || u == 0x202F || u == 0x205F || u == 0x3000
}

/// Decides the Unicode white-space property.
pub fn is_space_char(c: char) -> (r: bool)
    ensures
        r == is_space(c),
{
    let u = c as u32;
    (9 <= u && u <= 13) || u == 32 || u == 0x85 || u == 0xA0 || u == 0x1680 || (0x2000 <= u && u
        <= 0x200A) || u == 0x2028 || u == 0x2029 || u == 0x202F || u == 0x205F || u == 0x3000
}

/// The source with every carriage return removed, the first thing the
/// tokenizer does.
pub open spec fn strip_cr(s: Seq<char>) -> Seq<char>
    decreases s.len(),
{
    if s.len() == 0 {
        Seq::empty()
    } else if s[0] == '\r' {
        strip_cr(s.drop_first())
    } else {
        seq![s[0]] + strip_cr(s.drop_first())
    }
}

/// Where the tokenizer stands between two characters.
pub enum LexState {
    /// Between tokens.
    Ready,
    /// Inside a `#` line comment.
    Comment,
    /// Inside an ordinary token, with the characters read so far.
    Word(Seq<char>),
    /// Inside a string literal, with the characters read so far (the
    /// opening quote included, escapes already decoded).
    Str(Seq<char>),
    /// Just after a backslash inside a string literal.
    Esc(Seq<char>),
}

/// The tokens of `cs` from position `i` on, given the tokenizer state.
/// A string literal becomes one token that keeps its surrounding quotes;
/// ordinary tokens run to the next white space.
pub open spec fn lex_from(cs: Seq<char>, i: int, st: LexState) -> Result<
    Seq<Seq<char>>,
    ParseError,
>
    decreases cs.len() - i,
{
    if i < 0 {
        Err(ParseError::UnknownToken)
    } else if i >= cs.len() {
        match st {
            LexState::Ready => Ok(Seq::empty()),
            LexState::Comment => Ok(Seq::empty()),
            LexState::Word(t) => Ok(seq![t]),
            LexState::Str(_) => Err(ParseError::UnknownToken),
            LexState::Esc(_) => Err(ParseError::InvalidEscape),
        }
    } else {
        let c = cs[i];
        match st {
            LexState::Ready => {
                if c == '#' {
                    lex_from(cs, i + 1, LexState::Comment)
                } else if c == '"' {
                    lex_from(cs, i + 1, LexState::Str(seq!['"']))
                } else if is_space(c) {
                    lex_from(cs, i + 1, LexState::Ready)
                } else {
                    lex_from(cs, i + 1, LexState::Word(seq![c]))
                }
            },
            LexState::Comment => {
                if c == '\n' {
                    lex_from(cs, i + 1, LexState::Ready)
                } else {
                    lex_from(cs, i + 1, LexState::Comment)
                }
            },
            LexState::Word(t) => {
                if is_space(c) {
                    match lex_from(cs, i + 1, LexState::Ready) {
                        Ok(rest) => Ok(seq![t] + rest),
                        Err(e) => Err(e),
                    }
                } else {
                    lex_from(cs, i + 1, LexState::Word(t.push(c)))
                }
            },
            LexState::Str(t) => {
                if c == '"' {
                    match lex_from(cs, i + 1, LexState::Ready) {
                        Ok(rest) => Ok(seq![t.push('"')] + rest),
                        Err(e) => Err(e),
                    }
                } else if c == '\n' {
                    Err(ParseError::NewlineInStringLiteral)
                } else if c == '\\' {
                    lex_from(cs, i + 1, LexState::Esc(t))
                } else {
                    lex_from(cs, i + 1, LexState::Str(t.push(c)))
                }
            },
            LexState::Esc(t) => {
                if c == '"' {
                    lex_from(cs, i + 1, LexState::Str(t.push('"')))
                } else if c == 'n' {
                    lex_from(cs, i + 1, LexState::Str(t.push('\n')))
                } else if c == 'r' {
                    lex_from(cs, i + 1, LexState::Str(t.push('\r')))
                } else if c == 't' {
                    lex_from(cs, i + 1, LexState::Str(t.push('\t')))
                } else if c == '\\' {
                    lex_from(cs, i + 1, LexState::Str(t.push('\\')))
                } else {
                    Err(ParseError::InvalidEscape)
                }
            },
        }
    }
}

/// The token sequence of a carriage-return-free source.
pub open spec fn spec_tokens(cs: Seq<char>) -> Result<Seq<Seq<char>>, ParseError> {
    lex_from(cs, 0, LexState::Ready)
}

/// A successful tokenization never yields more tokens than there are
/// characters left (plus the one token possibly in progress).
proof fn lemma_lex_count(cs: Seq<char>, i: int, st: LexState)
    requires
        0 <= i <= cs.len(),
    ensures
        match lex_from(cs, i, st) {
            Ok(toks) => toks.len() <= cs.len() - i + 1,
            Err(_) => true,
        },
    decreases cs.len() - i,
{
    if i < cs.len() {
        let c = cs[i];
        match st {
            LexState::Ready => {
                lemma_lex_count(cs, i + 1, LexState::Comment);
                lemma_lex_count(cs, i + 1, LexState::Str(seq!['"']));
                lemma_lex_count(cs, i + 1, LexState::Ready);
                lemma_lex_count(cs, i + 1, LexState::Word(seq![c]));
            },
            LexState::Comment => {
                lemma_lex_count(cs, i + 1, LexState::Ready);
                lemma_lex_count(cs, i + 1, LexState::Comment);
            },
            LexState::Word(t) => {
                lemma_lex_count(cs, i + 1, LexState::Ready);
                lemma_lex_count(cs, i + 1, LexState::Word(t.push(c)));
            },
            LexState::Str(t) => {
                lemma_lex_count(cs, i + 1, LexState::Ready);
                lemma_lex_count(cs, i + 1, LexState::Esc(t));
                lemma_lex_count(cs, i + 1, LexState::Str(t.push(c)));
            },
            LexState::Esc(t) => {
                lemma_lex_count(cs, i + 1, LexState::Str(t.push('"')));
                lemma_lex_count(cs, i + 1, LexState::Str(t.push('\n')));
                lemma_lex_count(cs, i + 1, LexState::Str(t.push('\r')));
                lemma_lex_count(cs, i + 1, LexState::Str(t.push('\t')));
                lemma_lex_count(cs, i + 1, LexState::Str(t.push('\\')));
            },
        }
    }
}

/// Bound on the token count of a whole source, used to keep byte offsets
/// within machine range.
pub proof fn lemma_tokens_count(cs: Seq<char>)
    ensures
        match spec_tokens(cs) {
            Ok(toks) => toks.len() <= cs.len() + 1,
            Err(_) => true,
        },
{
    lemma_lex_count(cs, 0, LexState::Ready);
}

/// Removes every carriage return from the source characters.
fn strip_cr_exec(cs: &Vec<char>) -> (r: Vec<char>)
    ensures
        r@ == strip_cr(cs@),
        r@.len() <= cs@.len(),
{
    let mut out: Vec<char> = Vec::new();
    let mut i: usize = 0;
    proof {
        assert(cs@.skip(0) == cs@);
    }
    while i < cs.len()
        invariant
            0 <= i <= cs@.len(),
            out@.len() <= i,
            strip_cr(cs@) == out@ + strip_cr(cs@.skip(i as int)),
        decreases cs@.len() - i,
    {
        let ghost pre = cs@.skip(i as int);
        proof {
            assert(pre[0] == cs@[i as int]);
            assert(pre.drop_first() == cs@.skip(i as int + 1));
        }
        let ghost pre_out = out@;
        let c = cs[i];
        if c != '\r' {
            out.push(c);
            proof {
                assert(out@ + strip_cr(cs@.skip(i as int + 1)) =~= pre_out + strip_cr(pre));
            }
        } else {
            proof {
                assert(strip_cr(pre) == strip_cr(cs@.skip(i as int + 1)));
            }
        }
        i = i + 1;
    }
    proof {
        assert(cs@.skip(cs@.len() as int) =~= Seq::<char>::empty());
        assert(strip_cr(Seq::<char>::empty()) == Seq::<char>::empty());
        assert(strip_cr(cs@) =~= out@);
    }
    out
}

/// Exec mirror of the tokenizer state; the token in progress lives in a
/// separate buffer.
enum LexMode {
    Ready,
    Comment,
    Word,
    Str,
    Esc,
}

spec fn lex_model(mode: LexMode, cur: Seq<char>) -> LexState {
    match mode {
        LexMode::Ready => LexState::Ready,
        LexMode::Comment => LexState::Comment,
        LexMode::Word => LexState::Word(cur),
        LexMode::Str => LexState::Str(cur),
        LexMode::Esc => LexState::Esc(cur),
    }
}

/// Splits a carriage-return-free source into tokens.
pub fn tokenize(cs: &Vec<char>) -> (r: Result<Vec<Vec<char>>, ParseError>)
    ensures
        match r {
            Ok(toks) => spec_tokens(cs@) == Ok::<Seq<Seq<char>>, ParseError>(toks.deep_view())
                && toks@.len() <= cs@.len() + 1,
            Err(e) => spec_tokens(cs@) == Err::<Seq<Seq<char>>, ParseError>(e),
        },
{
    let mut toks: Vec<Vec<char>> = Vec::new();
    let mut cur: Vec<char> = Vec::new();
    let mut mode = LexMode::Ready;
    let mut i: usize = 0;
    while i < cs.len()
        invariant
            0 <= i <= cs@.len(),
            match lex_from(cs@, i as int, lex_model(mode, cur@)) {
                Ok(rest) => lex_from(cs@, 0, LexState::Ready) == Ok::<Seq<Seq<char>>, ParseError>(
                    toks.deep_view() + rest,
                ),
                Err(e) => lex_from(cs@, 0, LexState::Ready) == Err::<Seq<Seq<char>>, ParseError>(
                    e,
                ),
            },
        decreases cs@.len() - i,
    {
        let c = cs[i];
        match mode {
            LexMode::Ready => {
                if c == '#' {
                    mode = LexMode::Comment;
                } else if c == '"' {
                    cur = Vec::new();
                    cur.push('"');
                    mode = LexMode::Str;
                    proof {
                        assert(cur@ =~= seq!['"']);
                    }
                } else if is_space_char(c) {
                } else {
                    cur = Vec::new();
                    cur.push(c);
                    mode = LexMode::Word;
                    proof {
                        assert(cur@ =~= seq![c]);
                    }
                }
            },
            LexMode::Comment => {
                if c == '\n' {
                    mode = LexMode::Ready;
                }
            },
            LexMode::Word => {
                if is_space_char(c) {
                    let ghost t = cur@;
                    let ghost pre = toks.deep_view();
                    let done = cur;
                    cur = Vec::new();
                    toks.push(done);
                    mode = LexMode::Ready;
                    proof {
                        assert(toks.deep_view() =~~= pre.push(t));
                        assert(pre + (seq![t] + rest_of(cs@, i as int + 1)) =~= pre.push(t)
                            + rest_of(cs@, i as int + 1));
                    }
                } else {
                    cur.push(c);
                }
            },
            LexMode::Str => {
                if c == '"' {
                    cur.push('"');
                    let ghost t = cur@;
                    let ghost pre = toks.deep_view();
                    let done = cur;
                    cur = Vec::new();
                    toks.push(done);
                    mode = LexMode::Ready;
                    proof {
                        assert(toks.deep_view() =~~= pre.push(t));
                        assert(pre + (seq![t] + rest_of(cs@, i as int + 1)) =~= pre.push(t)
                            + rest_of(cs@, i as int + 1));
                    }
                } else if c == '\n' {
                    return Err(ParseError::NewlineInStringLiteral);
                } else if c == '\\' {
                    mode = LexMode::Esc;
                } else {
                    cur.push(c);
                }
            },
            LexMode::Esc => {
                if c == '"' {
                    cur.push('"');
                    mode = LexMode::Str;
                } else if c == 'n' {
                    cur.push('\n');
                    mode = LexMode::Str;
                } else if c == 'r' {
                    cur.push('\r');
                    mode = LexMode::Str;
                } else if c == 't' {
                    cur.push('\t');
                    mode = LexMode::Str;
                } else if c == '\\' {
                    cur.push('\\');
                    mode = LexMode::Str;
                } else {
                    return Err(ParseError::InvalidEscape);
                }
            },
        }
        i = i + 1;
    }
    proof {
        lemma_tokens_count(cs@);
    }
    match mode {
        LexMode::Ready => {
            proof {
                assert(toks.deep_view() + Seq::<Seq<char>>::empty() =~= toks.deep_view());
            }
            Ok(toks)
        },
        LexMode::Comment => {
            proof {
                assert(toks.deep_view() + Seq::<Seq<char>>::empty() =~= toks.deep_view());
            }
            Ok(toks)
        },
        LexMode::Word => {
            let ghost t = cur@;
            let ghost pre = toks.deep_view();
            toks.push(cur);
            proof {
                assert(toks.deep_view() =~~= pre.push(t));
                assert(pre + seq![t] =~= pre.push(t));
            }
            Ok(toks)
        },
        LexMode::Str => Err(ParseError::UnknownToken),
        LexMode::Esc => Err(ParseError::InvalidEscape),
    }
}

/// The tokens still ahead of position `i` when the tokenizer stands between
/// tokens; a helper for stating the loop's bookkeeping.
spec fn rest_of(cs: Seq<char>, i: int) -> Seq<Seq<char>> {
    match lex_from(cs, i, LexState::Ready) {
        Ok(rest) => rest,
        Err(_) => Seq::empty(),
    }
}

/// The compiler's running state after some prefix of the token stream:
/// emitted instructions, abstract type-stack, the byte offset the next
/// instruction will occupy, label definitions, string constants, deferred
/// label fixups, and how many float-literal resolutions have been consumed.
#[verifier::ext_equal]
pub struct CompState {
    pub instructions: Seq<Insn>,
    pub stack: Seq<Type>,
    pub byte_index: int,
    pub labels: Seq<(Seq<char>, int)>,
    pub constants: Seq<Seq<char>>,
    pub fixups: Seq<(int, Seq<char>)>,
    pub fcur: int,
}

/// The state the compiler starts from.
pub open spec fn init_state() -> CompState {
    CompState {
        instructions: Seq::empty(),
        stack: Seq::empty(),
        byte_index: 0,
        labels: Seq::empty(),
        constants: Seq::empty(),
        fixups: Seq::empty(),
        fcur: 0,
    }
}

/// Whether the token holds a `.`, which sends it down the float-literal
/// path before the integer one.
pub open spec fn has_dot(tok: Seq<char>) -> bool {
    exists|j: int| 0 <= j < tok.len() && tok[j] == '.'
}

/// The instruction a binary operator compiles to on operands of type `t`,
/// with the result type it leaves, or nothing where the operator does not
/// accept `t`.
pub open spec fn pick_bin(tok: Seq<char>, t: Type) -> Option<(Insn, Type)> {
    if tok == "+"@ {
        match t {
            Type::Int => Some((Insn::AddInt, Type::Int)),
            Type::Float => Some((Insn::AddFloat, Type::Float)),
            Type::String => Some((Insn::AddString, Type::String)),
            Type::CodeAddress => None,
        }
    } else if tok == "-"@ {
        match t {
            Type::Int => Some((Insn::SubInt, Type::Int)),
            Type::Float => Some((Insn::SubFloat, Type::Float)),
            _ => None,
        }
    } else if tok == "*"@ {
        match t {
            Type::Int => Some((Insn::MulInt, Type::Int)),
            Type::Float => Some((Insn::MulFloat, Type::Float)),
            _ => None,
        }
    } else if tok == "/"@ {
        match t {
            Type::Int => Some((Insn::DivInt, Type::Int)),
            Type::Float => Some((Insn::DivFloat, Type::Float)),
            _ => None,
        }
    } else if tok == "="@ {
        match t {
            Type::Int => Some((Insn::EqInt, Type::Int)),
            Type::Float => Some((Insn::EqFloat, Type::Int)),
            Type::String => Some((Insn::EqString, Type::Int)),
            Type::CodeAddress => None,
        }
    } else if tok == "<"@ {
        match t {
            Type::Int => Some((Insn::LtInt, Type::Int)),
            Type::Float => Some((Insn::LtFloat, Type::Int)),
            _ => None,
        }
    } else if tok == ">"@ {
        match t {
            Type::Int => Some((Insn::GtInt, Type::Int)),
            Type::Float => Some((Insn::GtFloat, Type::Int)),
            _ => None,
        }
    } else if tok == "<="@ {
        match t {
            Type::Int => Some((Insn::LeInt, Type::Int)),
            Type::Float => Some((Insn::LeFloat, Type::Int)),
            _ => None,
        }
    } else if tok == ">="@ {
        match t {
            Type::Int => Some((Insn::GeInt, Type::Int)),
            Type::Float => Some((Insn::GeFloat, Type::Int)),
            _ => None,
        }
    } else {
        None
    }
}

/// Whether the token is one of the nine binary operators.
pub open spec fn is_bin_tok(tok: Seq<char>) -> bool {
    tok == "+"@ || tok == "-"@ || tok == "*"@ || tok == "/"@ || tok == "="@ || tok == "<"@ || tok
        == ">"@ || tok == "<="@ || tok == ">="@
}

/// A binary operator: two cells of one type leave the stack and the result
/// type takes their place. Yields the instruction and the new type-stack.
pub open spec fn bin_parts(stack: Seq<Type>, tok: Seq<char>) -> Result<
    (Insn, Seq<Type>),
    ParseError,
> {
    if stack.len() < 2 {
        Err(ParseError::InvalidStackForOp)
    } else {
        let x = stack[stack.len() - 1];
        let y = stack[stack.len() - 2];
        if x != y {
            Err(ParseError::TypeMismatch)
        } else {
            match pick_bin(tok, x) {
                Some(ir) => Ok((ir.0, stack.subrange(0, stack.len() - 2).push(ir.1))),
                None => Err(ParseError::InvalidStackForOp),
            }
        }
    }
}

/// A nullary instruction that pops up to two cells of given types (checked
/// from the top down) and pushes `res` if there is one.
pub open spec fn simple_step(
    st: CompState,
    insn: Insn,
    need: Seq<Type>,
    res: Option<Type>,
) -> Result<CompState, ParseError> {
    if st.stack.len() < need.len() {
        Err(ParseError::InvalidStackForOp)
    } else if (need.len() >= 1 && st.stack[st.stack.len() - 1] != need[0]) || (need.len() >= 2
        && st.stack[st.stack.len() - 2] != need[1]) {
        Err(ParseError::InvalidStackForOp)
    } else {
        let rest = st.stack.subrange(0, st.stack.len() - need.len());
        Ok(
            CompState {
                instructions: st.instructions.push(insn),
                stack: match res {
                    Some(t) => rest.push(t),
                    None => rest,
                },
                byte_index: st.byte_index + 2,
                ..st
            },
        )
    }
}

/// What one token does to the compiler state. `verify` enables the
/// type-stack discipline; `floats` supplies, in order, the resolution of
/// each token that reaches the float-literal test.
#[verifier::opaque]
pub open spec fn token_step(
    st: CompState,
    tok: Seq<char>,
    verify: bool,
    floats: Seq<Option<u64>>,
) -> Result<CompState, ParseError> {
    if is_bin_tok(tok) {
        match bin_parts(st.stack, tok) {
            Ok(p) => Ok(
                CompState {
                    instructions: st.instructions.push(p.0),
                    stack: p.1,
                    byte_index: st.byte_index + 2,
                    ..st
                },
            ),
            Err(e) => Err(e),
        }
    } else if tok == "drop"@ {
        if st.stack.len() < 1 {
            Err(ParseError::InvalidStackForOp)
        } else {
            Ok(
                CompState {
                    instructions: st.instructions.push(Insn::Drop),
                    stack: st.stack.subrange(0, st.stack.len() - 1),
                    byte_index: st.byte_index + 2,
                    ..st
                },
            )
        }
    } else if tok == "load"@ {
        simple_step(st, Insn::Load, seq![Type::Int], Some(Type::String))
    } else if tok == "swap"@ {
        if st.stack.len() < 2 {
            Err(ParseError::InvalidStackForOp)
        } else {
            let x = st.stack[st.stack.len() - 1];
            let y = st.stack[st.stack.len() - 2];
            Ok(
                CompState {
                    instructions: st.instructions.push(Insn::Swap),
                    stack: st.stack.subrange(0, st.stack.len() - 2).push(x).push(y),
                    byte_index: st.byte_index + 2,
                    ..st
                },
            )
        }
    } else if tok == "tRot"@ {
        if st.stack.len() < 3 {
            Err(ParseError::InvalidStackForOp)
        } else {
            let x = st.stack[st.stack.len() - 1];
            let y = st.stack[st.stack.len() - 2];
            let z = st.stack[st.stack.len() - 3];
            Ok(
                CompState {
                    instructions: st.instructions.push(Insn::TriRot),
                    stack: st.stack.subrange(0, st.stack.len() - 3).push(y).push(x).push(z),
                    byte_index: st.byte_index + 2,
                    ..st
                },
            )
        }
    } else if tok == "dup"@ {
        if st.stack.len() < 1 {
            Err(ParseError::InvalidStackForOp)
        } else {
            Ok(
                CompState {
                    instructions: st.instructions.push(Insn::Dup),
                    stack: st.stack.push(st.stack[st.stack.len() - 1]),
                    byte_index: st.byte_index + 2,
                    ..st
                },
            )
        }
    } else if tok == "dDup"@ {
        if st.stack.len() < 2 {
            Err(ParseError::InvalidStackForOp)
        } else {
            Ok(
                CompState {
                    instructions: st.instructions.push(Insn::DiDup),
                    stack: st.stack.push(st.stack[st.stack.len() - 2]),
                    byte_index: st.byte_index + 2,
                    ..st
                },
            )
        }
    } else if tok == "tDup"@ {
        if st.stack.len() < 3 {
            Err(ParseError::InvalidStackForOp)
        } else {
            Ok(
                CompState {
                    instructions: st.instructions.push(Insn::TriDup),
                    stack: st.stack.push(st.stack[st.stack.len() - 3]),
                    byte_index: st.byte_index + 2,
                    ..st
                },
            )
        }
    } else if tok == "jump"@ {
        simple_step(st, Insn::Jump, seq![Type::Int], None)
    } else if tok == "if"@ {
        simple_step(st, Insn::JumpNotZero, seq![Type::Int, Type::Int], None)
    } else if tok == "!if"@ {
        simple_step(st, Insn::JumpZero, seq![Type::Int, Type::Int], None)
    } else if tok == "call"@ {
        simple_step(st, Insn::Call, seq![Type::Int], None)
    } else if tok == "abort"@ {
        simple_step(st, Insn::Abort, Seq::empty(), None)
    } else if tok == "exit"@ {
        simple_step(st, Insn::Exit, seq![Type::Int], None)
    } else if tok == "panic"@ {
        simple_step(st, Insn::Panic, seq![Type::String], None)
    } else if tok == "ln"@ {
        simple_step(st, Insn::Println, Seq::empty(), None)
    } else if tok == "input"@ {
        Ok(
            CompState {
                instructions: st.instructions.push(Insn::Input),
                stack: st.stack.push(Type::String),
                byte_index: st.byte_index + 2,
                ..st
            },
        )
    } else if tok == "gc"@ {
        simple_step(st, Insn::Gc, Seq::empty(), None)
    } else if tok == "print"@ {
        if st.stack.len() < 1 {
            Err(ParseError::InvalidStackForOp)
        } else {
            let x = st.stack[st.stack.len() - 1];
            let insn = match x {
                Type::Int => Insn::PrintInt,
                Type::Float => Insn::PrintFloat,
                Type::String => Insn::PrintString,
                Type::CodeAddress => Insn::PrintInt,
            };
            Ok(
                CompState {
                    instructions: st.instructions.push(insn),
                    stack: st.stack.subrange(0, st.stack.len() - 1),
                    byte_index: st.byte_index + 2,
                    ..st
                },
            )
        }
    } else if tok == "~float"@ {
        simple_step(st, Insn::NumConvFloat, seq![Type::Int], Some(Type::Float))
    } else if tok == "~int"@ {
        simple_step(st, Insn::NumConvInt, seq![Type::Float], Some(Type::Int))
    } else if tok == "%int"@ {
        if verify {
            Err(ParseError::FeatureRequiresNoVerify)
        } else {
            Ok(CompState { stack: st.stack.push(Type::Int), ..st })
        }
    } else if tok == "%float"@ {
        if verify {
            Err(ParseError::FeatureRequiresNoVerify)
        } else {
            Ok(CompState { stack: st.stack.push(Type::Float), ..st })
        }
    } else if tok == "%str"@ {
        if verify {
            Err(ParseError::FeatureRequiresNoVerify)
        } else {
            Ok(CompState { stack: st.stack.push(Type::String), ..st })
        }
    } else if tok == "%drop"@ {
        if verify {
            Err(ParseError::FeatureRequiresNoVerify)
        } else if st.stack.len() < 1 {
            Err(ParseError::InvalidStackForOp)
        } else {
            Ok(CompState { stack: st.stack.subrange(0, st.stack.len() - 1), ..st })
        }
    } else if tok.len() > 0 && tok[0] == ':' {
        Ok(CompState { labels: st.labels.push((tok.subrange(1, tok.len() as int), st.byte_index)), ..st })
    } else if tok.len() > 0 && tok[0] == '@' {
        Ok(
            CompState {
                instructions: st.instructions.push(Insn::PushInt(-1i64)).push(Insn::Jump),
                byte_index: st.byte_index + 12,
                fixups: st.fixups.push(
                    (st.instructions.len() as int, tok.subrange(1, tok.len() as int)),
                ),
                ..st
            },
        )
    } else if tok.len() > 0 && tok[0] == '&' {
        Ok(
            CompState {
                instructions: st.instructions.push(Insn::PushInt(-1i64)),
                stack: st.stack.push(Type::Int),
                byte_index: st.byte_index + 10,
                fixups: st.fixups.push(
                    (st.instructions.len() as int, tok.subrange(1, tok.len() as int)),
                ),
                ..st
            },
        )
    } else if tok.len() >= 2 && tok[0] == '"' {
        Ok(
            CompState {
                instructions: st.instructions.push(
                    Insn::PushInt(st.constants.len() as i64),
                ).push(Insn::Load),
                stack: st.stack.push(Type::String),
                byte_index: st.byte_index + 12,
                constants: st.constants.push(tok.subrange(1, tok.len() - 1)),
                ..st
            },
        )
    } else if has_dot(tok) {
        let reply = if st.fcur < floats.len() {
            floats[st.fcur]
        } else {
            None
        };
        let st1 = CompState { fcur: st.fcur + 1, ..st };
        match reply {
            Some(bits) => Ok(
                CompState {
                    instructions: st1.instructions.push(Insn::PushFloat(bits)),
                    stack: st1.stack.push(Type::Float),
                    byte_index: st1.byte_index + 10,
                    ..st1
                },
            ),
            None => int_step(st1, tok),
        }
    } else {
        int_step(st, tok)
    }
}

/// An integer literal, or the unknown-token error.
pub open spec fn int_step(st: CompState, tok: Seq<char>) -> Result<CompState, ParseError> {
    match spec_parse_i64(tok) {
        Some(v) => Ok(
            CompState {
                instructions: st.instructions.push(Insn::PushInt(v)),
                stack: st.stack.push(Type::Int),
                byte_index: st.byte_index + 10,
                ..st
            },
        ),
        None => Err(ParseError::UnknownToken),
    }
}

/// The compiler state after folding the tokens from `i` on.
pub open spec fn compile_from(
    toks: Seq<Seq<char>>,
    i: int,
    st: CompState,
    verify: bool,
    floats: Seq<Option<u64>>,
) -> Result<CompState, ParseError>
    decreases toks.len() - i,
{
    if i < 0 || i >= toks.len() {
        Ok(st)
    } else {
        match token_step(st, toks[i], verify, floats) {
            Ok(st2) => compile_from(toks, i + 1, st2, verify, floats),
            Err(e) => Err(e),
        }
    }
}

/// The byte offset bound to a label name: the latest definition wins.
pub open spec fn lookup_label(labels: Seq<(Seq<char>, int)>, name: Seq<char>) -> Option<int>
    decreases labels.len(),
{
    if labels.len() == 0 {
        None
    } else if labels[labels.len() - 1].0 == name {
        Some(labels[labels.len() - 1].1)
    } else {
        lookup_label(labels.drop_last(), name)
    }
}

/// Rewrites each recorded placeholder `PushInt(-1)` with the byte offset of
/// its label, or fails on a label never defined.
pub open spec fn apply_fixups(
    insns: Seq<Insn>,
    fixups: Seq<(int, Seq<char>)>,
    labels: Seq<(Seq<char>, int)>,
) -> Result<Seq<Insn>, ParseError>
    decreases fixups.len(),
{
    if fixups.len() == 0 {
        Ok(insns)
    } else {
        match lookup_label(labels, fixups[0].1) {
            None => Err(ParseError::UnknownLabel),
            Some(off) => apply_fixups(
                insns.update(fixups[0].0, Insn::PushInt(off as i64)),
                fixups.drop_first(),
                labels,
            ),
        }
    }
}

/// What `parse` returns for a given source, verification flag and sequence
/// of float-literal resolutions: the constant pool and the instruction
/// sequence, or the first error.
pub open spec fn spec_parse(src: Seq<char>, verify: bool, floats: Seq<Option<u64>>) -> Result<
    (Seq<Seq<char>>, Seq<Insn>),
    ParseError,
> {
    match spec_tokens(strip_cr(src)) {
        Err(e) => Err(e),
        Ok(toks) => match compile_from(toks, 0, init_state(), verify, floats) {
            Err(e) => Err(e),
            Ok(st) => match apply_fixups(st.instructions, st.fixups, st.labels) {
                Err(e) => Err(e),
                Ok(insns) => Ok((st.constants, insns)),
            },
        },
    }
}

/// Whether a token reaches the float-literal test: nothing else claims it
/// and it holds a dot.
pub open spec fn is_float_candidate(tok: Seq<char>) -> bool {
    &&& !is_bin_tok(tok)
    &&& !is_reserved_word(tok)
    &&& tok.len() > 0
    &&& tok[0] != ':'
    &&& tok[0] != '@'
    &&& tok[0] != '&'
    &&& !(tok.len() >= 2 && tok[0] == '"')
    &&& has_dot(tok)
}

/// The reserved words of the language (the operators aside).
pub open spec fn is_reserved_word(tok: Seq<char>) -> bool {
    tok == "drop"@ || tok == "load"@ || tok == "swap"@ || tok == "tRot"@ || tok == "dup"@ || tok
        == "dDup"@ || tok == "tDup"@ || tok == "jump"@ || tok == "if"@ || tok == "!if"@ || tok
        == "call"@ || tok == "abort"@ || tok == "exit"@ || tok == "panic"@ || tok == "ln"@ || tok
        == "input"@ || tok == "gc"@ || tok == "print"@ || tok == "~float"@ || tok == "~int"@ || tok
        == "%int"@ || tok == "%float"@ || tok == "%str"@ || tok == "%drop"@
}

/// The tokens that will consume a float-literal resolution, in order.
pub open spec fn candidates_of(toks: Seq<Seq<char>>) -> Seq<Seq<char>>
    decreases toks.len(),
{
    if toks.len() == 0 {
        Seq::empty()
    } else {
        let rest = candidates_of(toks.drop_last());
        if is_float_candidate(toks[toks.len() - 1]) {
            rest.push(toks[toks.len() - 1])
        } else {
            rest
        }
    }
}

/// A decimal digit.
pub open spec fn is_digit(c: char) -> bool {
    48 <= c as u32 && c as u32 <= 57
}

/// The value of one digit.
pub open spec fn digit_val(c: char) -> int {
    c as u32 - 48
}

/// Whether the characters are one or more digits and nothing else.
pub open spec fn all_digits(s: Seq<char>) -> bool {
    s.len() > 0 && forall|j: int| 0 <= j < s.len() ==> is_digit(#[trigger] s[j])
}

/// The non-negative integer the digits denote.
pub open spec fn digits_val(s: Seq<char>) -> int
    decreases s.len(),
{
    if s.len() == 0 {
        0
    } else {
        digits_val(s.drop_last()) * 10 + digit_val(s[s.len() - 1])
    }
}

/// The signed 64-bit integer a token denotes: an optional sign, then
/// digits, rejected when out of range — the acceptance of `i64` parsing.
pub open spec fn spec_parse_i64(t: Seq<char>) -> Option<i64> {
    if t.len() == 0 {
        None
    } else {
        let neg = t[0] == '-';
        let ds = if t[0] == '-' || t[0] == '+' {
            t.drop_first()
        } else {
            t
        };
        if !all_digits(ds) {
            None
        } else {
            let v = if neg {
                -digits_val(ds)
            } else {
                digits_val(ds)
            };
            if i64::MIN <= v <= i64::MAX {
                Some(v as i64)
            } else {
                None
            }
        }
    }
}

/// Compares a token with a literal, character by character.
fn tok_lit(t: &Vec<char>, s: &str) -> (r: bool)
    ensures
        r == (t@ == s@),
{
    let n = s.unicode_len();
    if t.len() != n {
        return false;
    }
    let mut j: usize = 0;
    while j < n
        invariant
            0 <= j <= n,
            n == s@.len(),
            t@.len() == n,
            forall|k: int| 0 <= k < j ==> t@[k] == s@[k],
        decreases n - j,
    {
        if t[j] != s.get_char(j) {
            return false;
        }
        j = j + 1;
    }
    proof {
        assert(t@ =~= s@);
    }
    true
}

/// Compares two character vectors.
fn chars_eq(a: &Vec<char>, b: &Vec<char>) -> (r: bool)
    ensures
        r == (a@ == b@),
{
    if a.len() != b.len() {
        return false;
    }
    let mut j: usize = 0;
    while j < a.len()
        invariant
            0 <= j <= a@.len(),
            a@.len() == b@.len(),
            forall|k: int| 0 <= k < j ==> a@[k] == b@[k],
        decreases a@.len() - j,
    {
        if a[j] != b[j] {
            return false;
        }
        j = j + 1;
    }
    proof {
        assert(a@ =~= b@);
    }
    true
}

/// Copies the characters of `t` between `a` and `b`.
fn chars_range(t: &Vec<char>, a: usize, b: usize) -> (r: Vec<char>)
    requires
        a <= b <= t@.len(),
    ensures
        r@ == t@.subrange(a as int, b as int),
{
    let mut out: Vec<char> = Vec::new();
    let mut j = a;
    while j < b
        invariant
            a <= j <= b <= t@.len(),
            out@ == t@.subrange(a as int, j as int),
        decreases b - j,
    {
        out.push(t[j]);
        proof {
            assert(out@ =~= t@.subrange(a as int, j as int + 1));
        }
        j = j + 1;
    }
    out
}

/// Whether the token holds a dot.
fn has_dot_exec(t: &Vec<char>) -> (r: bool)
    ensures
        r == has_dot(t@),
{
    let mut j: usize = 0;
    while j < t.len()
        invariant
            0 <= j <= t@.len(),
            forall|k: int| 0 <= k < j ==> t@[k] != '.',
        decreases t@.len() - j,
    {
        if t[j] == '.' {
            return true;
        }
        j = j + 1;
    }
    false
}

/// Digits denote non-negative values.
proof fn lemma_digits_val_nonneg(s: Seq<char>)
    requires
        forall|j: int| 0 <= j < s.len() ==> is_digit(#[trigger] s[j]),
    ensures
        digits_val(s) >= 0,
    decreases s.len(),
{
    if s.len() > 0 {
        lemma_digits_val_nonneg(s.drop_last());
    }
}

/// Reading more digits never shrinks the value.
proof fn lemma_digits_val_mono(s: Seq<char>, k: int)
    requires
        forall|j: int| 0 <= j < s.len() ==> is_digit(#[trigger] s[j]),
        0 <= k <= s.len(),
    ensures
        digits_val(s) >= digits_val(s.take(k)),
    decreases s.len() - k,
{
    if k < s.len() {
        lemma_digits_val_mono(s, k + 1);
        assert(s.take(k + 1).drop_last() =~= s.take(k));
        assert(s.take(k + 1)[k] == s[k]);
        lemma_digits_val_nonneg(s.take(k));
    } else {
        assert(s.take(k) =~= s);
    }
}

/// Reads a signed 64-bit decimal literal, mirroring `spec_parse_i64`.
fn parse_i64_tok(t: &Vec<char>) -> (r: Option<i64>)
    ensures
        r == spec_parse_i64(t@),
{
    let n = t.len();
    if n == 0 {
        return None;
    }
    let c0 = t[0];
    let neg = c0 == '-';
    let start: usize = if c0 == '-' || c0 == '+' {
        1
    } else {
        0
    };
    let ghost ds = if t@[0] == '-' || t@[0] == '+' {
        t@.drop_first()
    } else {
        t@
    };
    proof {
        assert(ds =~= t@.subrange(start as int, n as int));
    }
    if start >= n {
        return None;
    }
    let mut mag: u64 = 0;
    let mut j = start;
    proof {
        assert(ds.take(0) =~= Seq::<char>::empty());
    }
    while j < n
        invariant
            start <= j <= n,
            start < n,
            n == t@.len(),
            ds == t@.subrange(start as int, n as int),
            ds == (if t@[0] == '-' || t@[0] == '+' {
                t@.drop_first()
            } else {
                t@
            }),
            ds.len() == n - start,
            forall|k: int| 0 <= k < j - start ==> is_digit(#[trigger] ds[k]),
            mag == digits_val(ds.take(j - start)),
        decreases n - j,
    {
        let c = t[j];
        let u = c as u32;
        proof {
            assert(ds[j - start] == t@[j as int]);
        }
        if u < 48 || u > 57 {
            proof {
                assert(!is_digit(ds[j - start]));
                assert(!all_digits(ds));
            }
            return None;
        }
        let d = (u - 48) as u64;
        let ghost pre = ds.take(j - start);
        proof {
            assert(ds.take(j - start + 1).drop_last() =~= pre);
            assert(ds.take(j - start + 1)[j - start] == ds[j - start]);
            assert(digits_val(ds.take(j - start + 1)) == digits_val(pre) * 10 + digit_val(
                ds[j - start],
            ));
        }
        let next = match mag.checked_mul(10) {
            Some(v) => v.checked_add(d),
            None => None,
        };
        match next {
            Some(v) => {
                mag = v;
            },
            None => {
                proof {
                    if all_digits(ds) {
                        lemma_digits_val_mono(ds, j - start + 1);
                        assert(digits_val(ds) > u64::MAX);
                        assert(digits_val(ds) > i64::MAX);
                        lemma_digits_val_nonneg(ds);
                        assert(-digits_val(ds) < i64::MIN);
                    }
                }
                return None;
            },
        }
        j = j + 1;
    }
    proof {
        assert(ds.take(n - start) =~= ds);
        assert(all_digits(ds));
    }
    if neg {
        if mag > 0x8000_0000_0000_0000u64 {
            proof {
                assert(-digits_val(ds) < i64::MIN);
            }
            None
        } else if mag == 0x8000_0000_0000_0000u64 {
            Some(i64::MIN)
        } else {
            Some(-(mag as i64))
        }
    } else {
        if mag > 0x7FFF_FFFF_FFFF_FFFFu64 {
            None
        } else {
            Some(mag as i64)
        }
    }
}

/// The spec view of the compiler's executable state.
pub open spec fn labels_model(l: Seq<(Vec<char>, u64)>) -> Seq<(Seq<char>, int)> {
    Seq::new(l.len(), |i: int| (l[i].0@, l[i].1 as int))
}

/// The spec view of the recorded fixups.
pub open spec fn fixups_model(f: Seq<(usize, Vec<char>)>) -> Seq<(int, Seq<char>)> {
    Seq::new(f.len(), |i: int| (f[i].0 as int, f[i].1@))
}

/// The spec view of the constant pool under construction.
pub open spec fn consts_model(c: Seq<Vec<char>>) -> Seq<Seq<char>> {
    Seq::new(c.len(), |i: int| c[i]@)
}

/// Assembles the spec state out of the executable pieces.
pub open spec fn st_model(
    instructions: Seq<Insn>,
    stack: Seq<Type>,
    bi: int,
    labels: Seq<(Vec<char>, u64)>,
    constants: Seq<Vec<char>>,
    fixups: Seq<(usize, Vec<char>)>,
    fcur: int,
) -> CompState {
    CompState {
        instructions,
        stack,
        byte_index: bi,
        labels: labels_model(labels),
        constants: consts_model(constants),
        fixups: fixups_model(fixups),
        fcur,
    }
}

/// Compiles one binary operator against the type-stack.
fn exec_bin(tok: &Vec<char>, instructions: &mut Vec<Insn>, stack: &mut Vec<Type>) -> (r: Result<
    (),
    ParseError,
>)
    ensures
        match r {
            Ok(()) => bin_parts(old(stack)@, tok@) matches Ok(p) && final(instructions)@ == old(
                instructions,
            )@.push(p.0) && final(stack)@ == p.1,
            Err(e) => bin_parts(old(stack)@, tok@) == Err::<(Insn, Seq<Type>), ParseError>(e)
                && final(instructions)@ == old(instructions)@ && final(stack)@ == old(stack)@,
        },
{
    let n = stack.len();
    if n < 2 {
        return Err(ParseError::InvalidStackForOp);
    }
    let x = stack[n - 1];
    let y = stack[n - 2];
    if x != y {
        return Err(ParseError::TypeMismatch);
    }
    let sel: Option<(Insn, Type)> = if tok_lit(tok, "+") {
        match x {
            Type::Int => Some((Insn::AddInt, Type::Int)),
            Type::Float => Some((Insn::AddFloat, Type::Float)),
            Type::String => Some((Insn::AddString, Type::String)),
            Type::CodeAddress => None,
        }
    } else if tok_lit(tok, "-") {
        match x {
            Type::Int => Some((Insn::SubInt, Type::Int)),
            Type::Float => Some((Insn::SubFloat, Type::Float)),
            _ => None,
        }
    } else if tok_lit(tok, "*") {
        match x {
            Type::Int => Some((Insn::MulInt, Type::Int)),
            Type::Float => Some((Insn::MulFloat, Type::Float)),
            _ => None,
        }
    } else if tok_lit(tok, "/") {
        match x {
            Type::Int => Some((Insn::DivInt, Type::Int)),
            Type::Float => Some((Insn::DivFloat, Type::Float)),
            _ => None,
        }
    } else if tok_lit(tok, "=") {
        match x {
            Type::Int => Some((Insn::EqInt, Type::Int)),
            Type::Float => Some((Insn::EqFloat, Type::Int)),
            Type::String => Some((Insn::EqString, Type::Int)),
            Type::CodeAddress => None,
        }
    } else if tok_lit(tok, "<") {
        match x {
            Type::Int => Some((Insn::LtInt, Type::Int)),
            Type::Float => Some((Insn::LtFloat, Type::Int)),
            _ => None,
        }
    } else if tok_lit(tok, ">") {
        match x {
            Type::Int => Some((Insn::GtInt, Type::Int)),
            Type::Float => Some((Insn::GtFloat, Type::Int)),
            _ => None,
        }
    } else if tok_lit(tok, "<=") {
        match x {
            Type::Int => Some((Insn::LeInt, Type::Int)),
            Type::Float => Some((Insn::LeFloat, Type::Int)),
            _ => None,
        }
    } else if tok_lit(tok, ">=") {
        match x {
            Type::Int => Some((Insn::GeInt, Type::Int)),
            Type::Float => Some((Insn::GeFloat, Type::Int)),
            _ => None,
        }
    } else {
        None
    };
    proof {
        assert(sel == pick_bin(tok@, x));
    }
    match sel {
        Some(ir) => {
            let _ = stack.pop();
            let _ = stack.pop();
            stack.push(ir.1);
            instructions.push(ir.0);
            proof {
                assert(stack@ =~= old(stack)@.subrange(0, old(stack)@.len() - 2).push(ir.1));
            }
            Ok(())
        },
        None => Err(ParseError::InvalidStackForOp),
    }
}

/// Finds the byte offset bound to a label name, latest definition first.
fn lookup_label_exec(labels: &Vec<(Vec<char>, u64)>, name: &Vec<char>) -> (r: Option<u64>)
    ensures
        match r {
            Some(v) => lookup_label(labels_model(labels@), name@) == Some(v as int),
            None => lookup_label(labels_model(labels@), name@) == None::<int>,
        },
{
    let ghost lm = labels_model(labels@);
    let mut j = labels.len();
    proof {
        assert(lm.take(labels@.len() as int) =~= lm);
    }
    while j > 0
        invariant
            0 <= j <= labels@.len(),
            lm == labels_model(labels@),
            lookup_label(lm, name@) == lookup_label(lm.take(j as int), name@),
        decreases j,
    {
        j = j - 1;
        let hit = chars_eq(&labels[j].0, name);
        proof {
            assert(lm.take(j as int + 1).last() == lm[j as int]);
            assert(lm.take(j as int + 1).drop_last() =~= lm.take(j as int));
        }
        if hit {
            return Some(labels[j].1);
        }
    }
    proof {
        assert(lm.take(0) =~= Seq::<(Seq<char>, int)>::empty());
    }
    None
}

/// A label offset found by lookup stays within the bound that holds of
/// every definition.
proof fn lemma_lookup_bound(l: Seq<(Seq<char>, int)>, name: Seq<char>, b: int)
    requires
        forall|q: int| 0 <= q < l.len() ==> 0 <= #[trigger] l[q].1 <= b,
    ensures
        match lookup_label(l, name) {
            Some(v) => 0 <= v <= b,
            None => true,
        },
    decreases l.len(),
{
    if l.len() > 0 && l[l.len() - 1].0 != name {
        assert(forall|q: int|
            0 <= q < l.drop_last().len() ==> 0 <= #[trigger] l.drop_last()[q].1 <= b);
        lemma_lookup_bound(l.drop_last(), name, b);
    }
}



/// The operators and the stack-shuffling words, the first half of the
/// keyword table.
pub open spec fn is_kw_head(tok: Seq<char>) -> bool {
    is_bin_tok(tok) || tok == "drop"@ || tok == "load"@ || tok == "swap"@ || tok == "tRot"@
        || tok == "dup"@ || tok == "dDup"@ || tok == "tDup"@
}

/// Compiles one operator or reserved-word token; `Ok(false)` says the
/// token is none of them and nothing moved.
#[verifier::rlimit(100)]
#[verifier::spinoff_prover]
fn compile_keyword(
    t: &Vec<char>,
    verify: bool,
    floats: &Vec<Option<u64>>,
    instructions: &mut Vec<Insn>,
    stack: &mut Vec<Type>,
    bi: &mut u64,
    labels: &mut Vec<(Vec<char>, u64)>,
    constants: &mut Vec<Vec<char>>,
    fixups: &mut Vec<(usize, Vec<char>)>,
    fcur: &mut usize,
) -> (r: Result<bool, ParseError>)
    requires
        *old(bi) + 12 <= u64::MAX,
        *old(fcur) < usize::MAX,
        old(constants)@.len() <= 0x7FFF_FFFF_FFFF_FFFF,
        forall|q: int|
            0 <= q < old(fixups)@.len() ==> 0 <= #[trigger] old(fixups)@[q].0 < old(
                instructions,
            )@.len(),
        forall|q: int| 0 <= q < old(labels)@.len() ==> #[trigger] old(labels)@[q].1 <= *old(bi),
    ensures
        match r {
            Ok(true) => token_step(
                st_model(
                    old(instructions)@,
                    old(stack)@,
                    *old(bi) as int,
                    old(labels)@,
                    old(constants)@,
                    old(fixups)@,
                    *old(fcur) as int,
                ),
                t@,
                verify,
                floats@,
            ) == Ok::<CompState, ParseError>(
                st_model(
                    final(instructions)@,
                    final(stack)@,
                    *final(bi) as int,
                    final(labels)@,
                    final(constants)@,
                    final(fixups)@,
                    *final(fcur) as int,
                ),
            ) && *final(bi) <= *old(bi) + 12
                && final(constants)@.len() <= old(constants)@.len() + 1
                && *final(fcur) <= *old(fcur) + 1
                && (forall|q: int|
                    0 <= q < final(fixups)@.len() ==> 0 <= #[trigger] final(fixups)@[q].0
                        < final(instructions)@.len())
                && (forall|q: int|
                    0 <= q < final(labels)@.len() ==> #[trigger] final(labels)@[q].1
                        <= *final(bi)),
            Ok(false) => !is_kw_head(t@) && final(instructions)@
                == old(instructions)@ && final(stack)@ == old(stack)@ && *final(bi) == *old(bi)
                && final(labels)@ == old(labels)@ && final(constants)@ == old(constants)@
                && final(fixups)@ == old(fixups)@ && *final(fcur) == *old(fcur),
            Err(e) => token_step(
                st_model(
                    old(instructions)@,
                    old(stack)@,
                    *old(bi) as int,
                    old(labels)@,
                    old(constants)@,
                    old(fixups)@,
                    *old(fcur) as int,
                ),
                t@,
                verify,
                floats@,
            ) == Err::<CompState, ParseError>(e),
        },
{
    let ghost m0 = st_model(
        instructions@,
        stack@,
        *bi as int,
        labels@,
        constants@,
        fixups@,
        *fcur as int,
    );
    if tok_lit(t, "+") || tok_lit(t, "-") || tok_lit(t, "*") || tok_lit(t, "/") || tok_lit(
        t,
        "=",
    ) || tok_lit(t, "<") || tok_lit(t, ">") || tok_lit(t, "<=") || tok_lit(t, ">=") {
        *bi = *bi + 2;
        match exec_bin(t, &mut *instructions, &mut *stack) {
            Ok(()) => {},
            Err(e) => {
                proof {
                    reveal(token_step);
                    assert(token_step(m0, t@, verify, floats@) == Err::<
                        CompState,
                        ParseError,
                    >(e));
                }
                return Err(e);
            },
        }
        proof {
            reveal(token_step);
            assert(token_step(m0, t@, verify, floats@) == Ok::<
                CompState,
                ParseError,
            >(
                st_model(
                    instructions@,
                    stack@,
                    *bi as int,
                    labels@,
                    constants@,
                    fixups@,
                    *fcur as int,
                ),
            ));
        }
    } else if tok_lit(t, "drop") {
        *bi = *bi + 2;
        instructions.push(Insn::Drop);
        if stack.len() < 1 {
            proof {
                reveal(token_step);
                assert(token_step(m0, t@, verify, floats@) == Err::<
                    CompState,
                    ParseError,
                >(ParseError::InvalidStackForOp));
            }
            return Err(ParseError::InvalidStackForOp);
        }
        let _ = stack.pop();
        proof {
            reveal(token_step);
            assert(token_step(m0, t@, verify, floats@) == Ok::<
                CompState,
                ParseError,
            >(
                st_model(
                    instructions@,
                    stack@,
                    *bi as int,
                    labels@,
                    constants@,
                    fixups@,
                    *fcur as int,
                ),
            ));
        }
    } else if tok_lit(t, "load") {
        *bi = *bi + 2;
        instructions.push(Insn::Load);
        if stack.len() < 1 {
            proof {
                reveal(token_step);
                assert(token_step(m0, t@, verify, floats@) == Err::<
                    CompState,
                    ParseError,
                >(ParseError::InvalidStackForOp));
            }
            return Err(ParseError::InvalidStackForOp);
        }
        let x = stack[stack.len() - 1];
        if !x.is_int() {
            proof {
                reveal(token_step);
                assert(token_step(m0, t@, verify, floats@) == Err::<
                    CompState,
                    ParseError,
                >(ParseError::InvalidStackForOp));
            }
            return Err(ParseError::InvalidStackForOp);
        }
        let _ = stack.pop();
        stack.push(Type::String);
        proof {
            reveal(token_step);
            assert(token_step(m0, t@, verify, floats@) == Ok::<
                CompState,
                ParseError,
            >(
                st_model(
                    instructions@,
                    stack@,
                    *bi as int,
                    labels@,
                    constants@,
                    fixups@,
                    *fcur as int,
                ),
            ));
        }
    } else if tok_lit(t, "swap") {
        *bi = *bi + 2;
        instructions.push(Insn::Swap);
        if stack.len() < 2 {
            proof {
                reveal(token_step);
                assert(token_step(m0, t@, verify, floats@) == Err::<
                    CompState,
                    ParseError,
                >(ParseError::InvalidStackForOp));
            }
            return Err(ParseError::InvalidStackForOp);
        }
        let x = stack[stack.len() - 1];
        let y = stack[stack.len() - 2];
        let _ = stack.pop();
        let _ = stack.pop();
        stack.push(x);
        stack.push(y);
        proof {
            assert(stack@ =~= m0.stack.subrange(0, m0.stack.len() - 2).push(x).push(y));
        }
        proof {
            reveal(token_step);
            assert(token_step(m0, t@, verify, floats@) == Ok::<
                CompState,
                ParseError,
            >(
                st_model(
                    instructions@,
                    stack@,
                    *bi as int,
                    labels@,
                    constants@,
                    fixups@,
                    *fcur as int,
                ),
            ));
        }
    } else if tok_lit(t, "tRot") {
        *bi = *bi + 2;
        instructions.push(Insn::TriRot);
        if stack.len() < 3 {
            proof {
                reveal(token_step);
                assert(token_step(m0, t@, verify, floats@) == Err::<
                    CompState,
                    ParseError,
                >(ParseError::InvalidStackForOp));
            }
            return Err(ParseError::InvalidStackForOp);
        }
        let x = stack[stack.len() - 1];
        let y = stack[stack.len() - 2];
        let z = stack[stack.len() - 3];
        let _ = stack.pop();
        let _ = stack.pop();
        let _ = stack.pop();
        stack.push(y);
        stack.push(x);
        stack.push(z);
        proof {
            assert(stack@ =~= m0.stack.subrange(0, m0.stack.len() - 3).push(y).push(x).push(
                z,
            ));
        }
        proof {
            reveal(token_step);
            assert(token_step(m0, t@, verify, floats@) == Ok::<
                CompState,
                ParseError,
            >(
                st_model(
                    instructions@,
                    stack@,
                    *bi as int,
                    labels@,
                    constants@,
                    fixups@,
                    *fcur as int,
                ),
            ));
        }
    } else if tok_lit(t, "dup") {
        *bi = *bi + 2;
        instructions.push(Insn::Dup);
        if stack.len() < 1 {
            proof {
                reveal(token_step);
                assert(token_step(m0, t@, verify, floats@) == Err::<
                    CompState,
                    ParseError,
                >(ParseError::InvalidStackForOp));
            }
            return Err(ParseError::InvalidStackForOp);
        }
        let x = stack[stack.len() - 1];
        stack.push(x);
        proof {
            reveal(token_step);
            assert(token_step(m0, t@, verify, floats@) == Ok::<
                CompState,
                ParseError,
            >(
                st_model(
                    instructions@,
                    stack@,
                    *bi as int,
                    labels@,
                    constants@,
                    fixups@,
                    *fcur as int,
                ),
            ));
        }
    } else if tok_lit(t, "dDup") {
        *bi = *bi + 2;
        instructions.push(Insn::DiDup);
        if stack.len() < 2 {
            proof {
                reveal(token_step);
                assert(token_step(m0, t@, verify, floats@) == Err::<
                    CompState,
                    ParseError,
                >(ParseError::InvalidStackForOp));
            }
            return Err(ParseError::InvalidStackForOp);
        }
        let x = stack[stack.len() - 2];
        stack.push(x);
        proof {
            reveal(token_step);
            assert(token_step(m0, t@, verify, floats@) == Ok::<
                CompState,
                ParseError,
            >(
                st_model(
                    instructions@,
                    stack@,
                    *bi as int,
                    labels@,
                    constants@,
                    fixups@,
                    *fcur as int,
                ),
            ));
        }
    } else if tok_lit(t, "tDup") {
        *bi = *bi + 2;
        instructions.push(Insn::TriDup);
        if stack.len() < 3 {
            proof {
                reveal(token_step);
                assert(token_step(m0, t@, verify, floats@) == Err::<
                    CompState,
                    ParseError,
                >(ParseError::InvalidStackForOp));
            }
            return Err(ParseError::InvalidStackForOp);
        }
        let x = stack[stack.len() - 3];
        stack.push(x);
        proof {
            reveal(token_step);
            assert(token_step(m0, t@, verify, floats@) == Ok::<
                CompState,
                ParseError,
            >(
                st_model(
                    instructions@,
                    stack@,
                    *bi as int,
                    labels@,
                    constants@,
                    fixups@,
                    *fcur as int,
                ),
            ));
        }
    } else {
        return Ok(false);
    }
    Ok(true)
}

/// Compiles one control or system reserved word, the second half of the
/// keyword table; `Ok(false)` says the token is none of them.
#[verifier::rlimit(100)]
#[verifier::spinoff_prover]
fn compile_keyword_tail(
    t: &Vec<char>,
    verify: bool,
    floats: &Vec<Option<u64>>,
    instructions: &mut Vec<Insn>,
    stack: &mut Vec<Type>,
    bi: &mut u64,
    labels: &mut Vec<(Vec<char>, u64)>,
    constants: &mut Vec<Vec<char>>,
    fixups: &mut Vec<(usize, Vec<char>)>,
    fcur: &mut usize,
) -> (r: Result<bool, ParseError>)
    requires
        *old(bi) + 12 <= u64::MAX,
        *old(fcur) < usize::MAX,
        old(constants)@.len() <= 0x7FFF_FFFF_FFFF_FFFF,
        forall|q: int|
            0 <= q < old(fixups)@.len() ==> 0 <= #[trigger] old(fixups)@[q].0 < old(
                instructions,
            )@.len(),
        forall|q: int| 0 <= q < old(labels)@.len() ==> #[trigger] old(labels)@[q].1 <= *old(bi),
        !is_kw_head(t@),
    ensures
        match r {
            Ok(true) => token_step(
                st_model(
                    old(instructions)@,
                    old(stack)@,
                    *old(bi) as int,
                    old(labels)@,
                    old(constants)@,
                    old(fixups)@,
                    *old(fcur) as int,
                ),
                t@,
                verify,
                floats@,
            ) == Ok::<CompState, ParseError>(
                st_model(
                    final(instructions)@,
                    final(stack)@,
                    *final(bi) as int,
                    final(labels)@,
                    final(constants)@,
                    final(fixups)@,
                    *final(fcur) as int,
                ),
            ) && *final(bi) <= *old(bi) + 12
                && final(constants)@.len() <= old(constants)@.len() + 1
                && *final(fcur) <= *old(fcur) + 1
                && (forall|q: int|
                    0 <= q < final(fixups)@.len() ==> 0 <= #[trigger] final(fixups)@[q].0
                        < final(instructions)@.len())
                && (forall|q: int|
                    0 <= q < final(labels)@.len() ==> #[trigger] final(labels)@[q].1
                        <= *final(bi)),
            Ok(false) => !(is_bin_tok(t@) || is_reserved_word(t@)) && final(instructions)@
                == old(instructions)@ && final(stack)@ == old(stack)@ && *final(bi) == *old(bi)
                && final(labels)@ == old(labels)@ && final(constants)@ == old(constants)@
                && final(fixups)@ == old(fixups)@ && *final(fcur) == *old(fcur),
            Err(e) => token_step(
                st_model(
                    old(instructions)@,
                    old(stack)@,
                    *old(bi) as int,
                    old(labels)@,
                    old(constants)@,
                    old(fixups)@,
                    *old(fcur) as int,
                ),
                t@,
                verify,
                floats@,
            ) == Err::<CompState, ParseError>(e),
        },
{
    let ghost m0 = st_model(
        instructions@,
        stack@,
        *bi as int,
        labels@,
        constants@,
        fixups@,
        *fcur as int,
    );
    if tok_lit(t, "jump") {
        *bi = *bi + 2;
        instructions.push(Insn::Jump);
        if stack.len() < 1 {
            proof {
                reveal(token_step);
                assert(token_step(m0, t@, verify, floats@) == Err::<
                    CompState,
                    ParseError,
                >(ParseError::InvalidStackForOp));
            }
            return Err(ParseError::InvalidStackForOp);
        }
        let x = stack[stack.len() - 1];
        if !x.is_int() {
            proof {
                reveal(token_step);
                assert(token_step(m0, t@, verify, floats@) == Err::<
                    CompState,
                    ParseError,
                >(ParseError::InvalidStackForOp));
            }
            return Err(ParseError::InvalidStackForOp);
        }
        let _ = stack.pop();
        proof {
            reveal(token_step);
            assert(token_step(m0, t@, verify, floats@) == Ok::<
                CompState,
                ParseError,
            >(
                st_model(
                    instructions@,
                    stack@,
                    *bi as int,
                    labels@,
                    constants@,
                    fixups@,
                    *fcur as int,
                ),
            ));
        }
    } else if tok_lit(t, "if") {
        *bi = *bi + 2;
        instructions.push(Insn::JumpNotZero);
        if stack.len() < 2 {
            proof {
                reveal(token_step);
                assert(token_step(m0, t@, verify, floats@) == Err::<
                    CompState,
                    ParseError,
                >(ParseError::InvalidStackForOp));
            }
            return Err(ParseError::InvalidStackForOp);
        }
        let x = stack[stack.len() - 1];
        let y = stack[stack.len() - 2];
        if !x.is_int() || !y.is_int() {
            proof {
                reveal(token_step);
                assert(token_step(m0, t@, verify, floats@) == Err::<
                    CompState,
                    ParseError,
                >(ParseError::InvalidStackForOp));
            }
            return Err(ParseError::InvalidStackForOp);
        }
        let _ = stack.pop();
        let _ = stack.pop();
        proof {
            assert(stack@ =~= m0.stack.subrange(0, m0.stack.len() - 2));
        }
        proof {
            reveal(token_step);
            assert(token_step(m0, t@, verify, floats@) == Ok::<
                CompState,
                ParseError,
            >(
                st_model(
                    instructions@,
                    stack@,
                    *bi as int,
                    labels@,
                    constants@,
                    fixups@,
                    *fcur as int,
                ),
            ));
        }
    } else if tok_lit(t, "!if") {
        *bi = *bi + 2;
        instructions.push(Insn::JumpZero);
        if stack.len() < 2 {
            proof {
                reveal(token_step);
                assert(token_step(m0, t@, verify, floats@) == Err::<
                    CompState,
                    ParseError,
                >(ParseError::InvalidStackForOp));
            }
            return Err(ParseError::InvalidStackForOp);
        }
        let x = stack[stack.len() - 1];
        let y = stack[stack.len() - 2];
        if !x.is_int() || !y.is_int() {
            proof {
                reveal(token_step);
                assert(token_step(m0, t@, verify, floats@) == Err::<
                    CompState,
                    ParseError,
                >(ParseError::InvalidStackForOp));
            }
            return Err(ParseError::InvalidStackForOp);
        }
        let _ = stack.pop();
        let _ = stack.pop();
        proof {
            assert(stack@ =~= m0.stack.subrange(0, m0.stack.len() - 2));
        }
        proof {
            reveal(token_step);
            assert(token_step(m0, t@, verify, floats@) == Ok::<
                CompState,
                ParseError,
            >(
                st_model(
                    instructions@,
                    stack@,
                    *bi as int,
                    labels@,
                    constants@,
                    fixups@,
                    *fcur as int,
                ),
            ));
        }
    } else if tok_lit(t, "call") {
        *bi = *bi + 2;
        instructions.push(Insn::Call);
        if stack.len() < 1 {
            proof {
                reveal(token_step);
                assert(token_step(m0, t@, verify, floats@) == Err::<
                    CompState,
                    ParseError,
                >(ParseError::InvalidStackForOp));
            }
            return Err(ParseError::InvalidStackForOp);
        }
        let x = stack[stack.len() - 1];
        if !x.is_int() {
            proof {
                reveal(token_step);
                assert(token_step(m0, t@, verify, floats@) == Err::<
                    CompState,
                    ParseError,
                >(ParseError::InvalidStackForOp));
            }
            return Err(ParseError::InvalidStackForOp);
        }
        let _ = stack.pop();
        proof {
            reveal(token_step);
            assert(token_step(m0, t@, verify, floats@) == Ok::<
                CompState,
                ParseError,
            >(
                st_model(
                    instructions@,
                    stack@,
                    *bi as int,
                    labels@,
                    constants@,
                    fixups@,
                    *fcur as int,
                ),
            ));
        }
    } else if tok_lit(t, "abort") {
        *bi = *bi + 2;
        instructions.push(Insn::Abort);
        proof {
            assert(stack@ =~= m0.stack.subrange(0, m0.stack.len() as int));
        }
        proof {
            reveal(token_step);
            assert(token_step(m0, t@, verify, floats@) == Ok::<
                CompState,
                ParseError,
            >(
                st_model(
                    instructions@,
                    stack@,
                    *bi as int,
                    labels@,
                    constants@,
                    fixups@,
                    *fcur as int,
                ),
            ));
        }
    } else if tok_lit(t, "exit") {
        *bi = *bi + 2;
        instructions.push(Insn::Exit);
        if stack.len() < 1 {
            proof {
                reveal(token_step);
                assert(token_step(m0, t@, verify, floats@) == Err::<
                    CompState,
                    ParseError,
                >(ParseError::InvalidStackForOp));
            }
            return Err(ParseError::InvalidStackForOp);
        }
        let x = stack[stack.len() - 1];
        if !x.is_int() {
            proof {
                reveal(token_step);
                assert(token_step(m0, t@, verify, floats@) == Err::<
                    CompState,
                    ParseError,
                >(ParseError::InvalidStackForOp));
            }
            return Err(ParseError::InvalidStackForOp);
        }
        let _ = stack.pop();
        proof {
            reveal(token_step);
            assert(token_step(m0, t@, verify, floats@) == Ok::<
                CompState,
                ParseError,
            >(
                st_model(
                    instructions@,
                    stack@,
                    *bi as int,
                    labels@,
                    constants@,
                    fixups@,
                    *fcur as int,
                ),
            ));
        }
    } else if tok_lit(t, "panic") {
        *bi = *bi + 2;
        instructions.push(Insn::Panic);
        if stack.len() < 1 {
            proof {
                reveal(token_step);
                assert(token_step(m0, t@, verify, floats@) == Err::<
                    CompState,
                    ParseError,
                >(ParseError::InvalidStackForOp));
            }
            return Err(ParseError::InvalidStackForOp);
        }
        let x = stack[stack.len() - 1];
        if !x.is_string() {
            proof {
                reveal(token_step);
                assert(token_step(m0, t@, verify, floats@) == Err::<
                    CompState,
                    ParseError,
                >(ParseError::InvalidStackForOp));
            }
            return Err(ParseError::InvalidStackForOp);
        }
        let _ = stack.pop();
        proof {
            reveal(token_step);
            assert(token_step(m0, t@, verify, floats@) == Ok::<
                CompState,
                ParseError,
            >(
                st_model(
                    instructions@,
                    stack@,
                    *bi as int,
                    labels@,
                    constants@,
                    fixups@,
                    *fcur as int,
                ),
            ));
        }
    } else if tok_lit(t, "ln") {
        *bi = *bi + 2;
        instructions.push(Insn::Println);
        proof {
            assert(stack@ =~= m0.stack.subrange(0, m0.stack.len() as int));
        }
        proof {
            reveal(token_step);
            assert(token_step(m0, t@, verify, floats@) == Ok::<
                CompState,
                ParseError,
            >(
                st_model(
                    instructions@,
                    stack@,
                    *bi as int,
                    labels@,
                    constants@,
                    fixups@,
                    *fcur as int,
                ),
            ));
        }
    } else if tok_lit(t, "input") {
        *bi = *bi + 2;
        instructions.push(Insn::Input);
        stack.push(Type::String);
        proof {
            reveal(token_step);
            assert(token_step(m0, t@, verify, floats@) == Ok::<
                CompState,
                ParseError,
            >(
                st_model(
                    instructions@,
                    stack@,
                    *bi as int,
                    labels@,
                    constants@,
                    fixups@,
                    *fcur as int,
                ),
            ));
        }
    } else if tok_lit(t, "gc") {
        *bi = *bi + 2;
        instructions.push(Insn::Gc);
        proof {
            assert(stack@ =~= m0.stack.subrange(0, m0.stack.len() as int));
        }
        proof {
            reveal(token_step);
            assert(token_step(m0, t@, verify, floats@) == Ok::<
                CompState,
                ParseError,
            >(
                st_model(
                    instructions@,
                    stack@,
                    *bi as int,
                    labels@,
                    constants@,
                    fixups@,
                    *fcur as int,
                ),
            ));
        }
    } else if tok_lit(t, "print") {
        *bi = *bi + 2;
        if stack.len() < 1 {
            proof {
                reveal(token_step);
                assert(token_step(m0, t@, verify, floats@) == Err::<
                    CompState,
                    ParseError,
                >(ParseError::InvalidStackForOp));
            }
            return Err(ParseError::InvalidStackForOp);
        }
        let x = stack[stack.len() - 1];
        let insn = match x {
            Type::Int => Insn::PrintInt,
            Type::Float => Insn::PrintFloat,
            Type::String => Insn::PrintString,
            Type::CodeAddress => Insn::PrintInt,
        };
        instructions.push(insn);
        let _ = stack.pop();
        proof {
            reveal(token_step);
            assert(token_step(m0, t@, verify, floats@) == Ok::<
                CompState,
                ParseError,
            >(
                st_model(
                    instructions@,
                    stack@,
                    *bi as int,
                    labels@,
                    constants@,
                    fixups@,
                    *fcur as int,
                ),
            ));
        }
    } else if tok_lit(t, "~float") {
        *bi = *bi + 2;
        instructions.push(Insn::NumConvFloat);
        if stack.len() < 1 {
            proof {
                reveal(token_step);
                assert(token_step(m0, t@, verify, floats@) == Err::<
                    CompState,
                    ParseError,
                >(ParseError::InvalidStackForOp));
            }
            return Err(ParseError::InvalidStackForOp);
        }
        let x = stack[stack.len() - 1];
        if !x.is_int() {
            proof {
                reveal(token_step);
                assert(token_step(m0, t@, verify, floats@) == Err::<
                    CompState,
                    ParseError,
                >(ParseError::InvalidStackForOp));
            }
            return Err(ParseError::InvalidStackForOp);
        }
        let _ = stack.pop();
        stack.push(Type::Float);
        proof {
            reveal(token_step);
            assert(token_step(m0, t@, verify, floats@) == Ok::<
                CompState,
                ParseError,
            >(
                st_model(
                    instructions@,
                    stack@,
                    *bi as int,
                    labels@,
                    constants@,
                    fixups@,
                    *fcur as int,
                ),
            ));
        }
    } else if tok_lit(t, "~int") {
        *bi = *bi + 2;
        instructions.push(Insn::NumConvInt);
        if stack.len() < 1 {
            proof {
                reveal(token_step);
                assert(token_step(m0, t@, verify, floats@) == Err::<
                    CompState,
                    ParseError,
                >(ParseError::InvalidStackForOp));
            }
            return Err(ParseError::InvalidStackForOp);
        }
        let x = stack[stack.len() - 1];
        if !x.is_float() {
            proof {
                reveal(token_step);
                assert(token_step(m0, t@, verify, floats@) == Err::<
                    CompState,
                    ParseError,
                >(ParseError::InvalidStackForOp));
            }
            return Err(ParseError::InvalidStackForOp);
        }
        let _ = stack.pop();
        stack.push(Type::Int);
        proof {
            reveal(token_step);
            assert(token_step(m0, t@, verify, floats@) == Ok::<
                CompState,
                ParseError,
            >(
                st_model(
                    instructions@,
                    stack@,
                    *bi as int,
                    labels@,
                    constants@,
                    fixups@,
                    *fcur as int,
                ),
            ));
        }
    } else if tok_lit(t, "%int") {
        if verify {
            proof {
                reveal(token_step);
                assert(token_step(m0, t@, verify, floats@) == Err::<
                    CompState,
                    ParseError,
                >(ParseError::FeatureRequiresNoVerify));
            }
            return Err(ParseError::FeatureRequiresNoVerify);
        }
        stack.push(Type::Int);
        proof {
            reveal(token_step);
            assert(token_step(m0, t@, verify, floats@) == Ok::<
                CompState,
                ParseError,
            >(
                st_model(
                    instructions@,
                    stack@,
                    *bi as int,
                    labels@,
                    constants@,
                    fixups@,
                    *fcur as int,
                ),
            ));
        }
    } else if tok_lit(t, "%float") {
        if verify {
            proof {
                reveal(token_step);
                assert(token_step(m0, t@, verify, floats@) == Err::<
                    CompState,
                    ParseError,
                >(ParseError::FeatureRequiresNoVerify));
            }
            return Err(ParseError::FeatureRequiresNoVerify);
        }
        stack.push(Type::Float);
        proof {
            reveal(token_step);
            assert(token_step(m0, t@, verify, floats@) == Ok::<
                CompState,
                ParseError,
            >(
                st_model(
                    instructions@,
                    stack@,
                    *bi as int,
                    labels@,
                    constants@,
                    fixups@,
                    *fcur as int,
                ),
            ));
        }
    } else if tok_lit(t, "%str") {
        if verify {
            proof {
                reveal(token_step);
                assert(token_step(m0, t@, verify, floats@) == Err::<
                    CompState,
                    ParseError,
                >(ParseError::FeatureRequiresNoVerify));
            }
            return Err(ParseError::FeatureRequiresNoVerify);
        }
        stack.push(Type::String);
        proof {
            reveal(token_step);
            assert(token_step(m0, t@, verify, floats@) == Ok::<
                CompState,
                ParseError,
            >(
                st_model(
                    instructions@,
                    stack@,
                    *bi as int,
                    labels@,
                    constants@,
                    fixups@,
                    *fcur as int,
                ),
            ));
        }
    } else if tok_lit(t, "%drop") {
        if verify {
            proof {
                reveal(token_step);
                assert(token_step(m0, t@, verify, floats@) == Err::<
                    CompState,
                    ParseError,
                >(ParseError::FeatureRequiresNoVerify));
            }
            return Err(ParseError::FeatureRequiresNoVerify);
        }
        if stack.len() < 1 {
            proof {
                reveal(token_step);
                assert(token_step(m0, t@, verify, floats@) == Err::<
                    CompState,
                    ParseError,
                >(ParseError::InvalidStackForOp));
            }
            return Err(ParseError::InvalidStackForOp);
        }
        let _ = stack.pop();
        proof {
            reveal(token_step);
            assert(token_step(m0, t@, verify, floats@) == Ok::<
                CompState,
                ParseError,
            >(
                st_model(
                    instructions@,
                    stack@,
                    *bi as int,
                    labels@,
                    constants@,
                    fixups@,
                    *fcur as int,
                ),
            ));
        }
    } else {
        return Ok(false);
    }
    Ok(true)
}

/// Compiles a label definition or reference, a string literal, or a
/// numeric literal.
#[verifier::rlimit(100)]
#[verifier::spinoff_prover]
fn compile_literal(
    t: &Vec<char>,
    verify: bool,
    floats: &Vec<Option<u64>>,
    instructions: &mut Vec<Insn>,
    stack: &mut Vec<Type>,
    bi: &mut u64,
    labels: &mut Vec<(Vec<char>, u64)>,
    constants: &mut Vec<Vec<char>>,
    fixups: &mut Vec<(usize, Vec<char>)>,
    fcur: &mut usize,
) -> (r: Result<(), ParseError>)
    requires
        *old(bi) + 12 <= u64::MAX,
        *old(fcur) < usize::MAX,
        old(constants)@.len() <= 0x7FFF_FFFF_FFFF_FFFF,
        forall|q: int|
            0 <= q < old(fixups)@.len() ==> 0 <= #[trigger] old(fixups)@[q].0 < old(
                instructions,
            )@.len(),
        forall|q: int| 0 <= q < old(labels)@.len() ==> #[trigger] old(labels)@[q].1 <= *old(bi),
        !(is_bin_tok(t@) || is_reserved_word(t@)),
    ensures
        match r {
            Ok(()) => token_step(
                st_model(
                    old(instructions)@,
                    old(stack)@,
                    *old(bi) as int,
                    old(labels)@,
                    old(constants)@,
                    old(fixups)@,
                    *old(fcur) as int,
                ),
                t@,
                verify,
                floats@,
            ) == Ok::<CompState, ParseError>(
                st_model(
                    final(instructions)@,
                    final(stack)@,
                    *final(bi) as int,
                    final(labels)@,
                    final(constants)@,
                    final(fixups)@,
                    *final(fcur) as int,
                ),
            ) && *final(bi) <= *old(bi) + 12
                && final(constants)@.len() <= old(constants)@.len() + 1
                && *final(fcur) <= *old(fcur) + 1
                && (forall|q: int|
                    0 <= q < final(fixups)@.len() ==> 0 <= #[trigger] final(fixups)@[q].0
                        < final(instructions)@.len())
                && (forall|q: int|
                    0 <= q < final(labels)@.len() ==> #[trigger] final(labels)@[q].1
                        <= *final(bi)),
            Err(e) => token_step(
                st_model(
                    old(instructions)@,
                    old(stack)@,
                    *old(bi) as int,
                    old(labels)@,
                    old(constants)@,
                    old(fixups)@,
                    *old(fcur) as int,
                ),
                t@,
                verify,
                floats@,
            ) == Err::<CompState, ParseError>(e),
        },
{
    let ghost m0 = st_model(
        instructions@,
        stack@,
        *bi as int,
        labels@,
        constants@,
        fixups@,
        *fcur as int,
    );
    if t.len() > 0 && t[0] == ':' {
        let name = chars_range(t, 1, t.len());
        let ghost lpre = labels@;
        labels.push((name, *bi));
        proof {
            assert(labels_model(labels@) =~= labels_model(lpre).push(
                (t@.subrange(1, t@.len() as int), *bi as int),
            ));
        }
        proof {
            reveal(token_step);
            assert(token_step(m0, t@, verify, floats@) == Ok::<
                CompState,
                ParseError,
            >(
                st_model(
                    instructions@,
                    stack@,
                    *bi as int,
                    labels@,
                    constants@,
                    fixups@,
                    *fcur as int,
                ),
            ));
        }
    } else if t.len() > 0 && t[0] == '@' {
        let name = chars_range(t, 1, t.len());
        let ghost fpre = fixups@;
        fixups.push((instructions.len(), name));
        instructions.push(Insn::PushInt(-1i64));
        instructions.push(Insn::Jump);
        *bi = *bi + 12;
        proof {
            assert(fixups_model(fixups@) =~= fixups_model(fpre).push(
                (m0.instructions.len() as int, t@.subrange(
                    1,
                    t@.len() as int,
                )),
            ));
        }
        proof {
            reveal(token_step);
            assert(token_step(m0, t@, verify, floats@) == Ok::<
                CompState,
                ParseError,
            >(
                st_model(
                    instructions@,
                    stack@,
                    *bi as int,
                    labels@,
                    constants@,
                    fixups@,
                    *fcur as int,
                ),
            ));
        }
    } else if t.len() > 0 && t[0] == '&' {
        let name = chars_range(t, 1, t.len());
        let ghost fpre = fixups@;
        fixups.push((instructions.len(), name));
        instructions.push(Insn::PushInt(-1i64));
        stack.push(Type::Int);
        *bi = *bi + 10;
        proof {
            assert(fixups_model(fixups@) =~= fixups_model(fpre).push(
                (m0.instructions.len() as int, t@.subrange(
                    1,
                    t@.len() as int,
                )),
            ));
        }
        proof {
            reveal(token_step);
            assert(token_step(m0, t@, verify, floats@) == Ok::<
                CompState,
                ParseError,
            >(
                st_model(
                    instructions@,
                    stack@,
                    *bi as int,
                    labels@,
                    constants@,
                    fixups@,
                    *fcur as int,
                ),
            ));
        }
    } else if t.len() >= 2 && t[0] == '"' {
        let lit = chars_range(t, 1, t.len() - 1);
        let ghost cpre = constants@;
        let ci = constants.len();
        instructions.push(Insn::PushInt(ci as i64));
        instructions.push(Insn::Load);
        constants.push(lit);
        stack.push(Type::String);
        *bi = *bi + 12;
        proof {
            assert(consts_model(constants@) =~= consts_model(cpre).push(
                t@.subrange(1, t@.len() - 1),
            ));
        }
        proof {
            reveal(token_step);
            assert(token_step(m0, t@, verify, floats@) == Ok::<
                CompState,
                ParseError,
            >(
                st_model(
                    instructions@,
                    stack@,
                    *bi as int,
                    labels@,
                    constants@,
                    fixups@,
                    *fcur as int,
                ),
            ));
        }
    } else if has_dot_exec(t) {
        let reply: Option<u64> = if *fcur < floats.len() {
            floats[*fcur]
        } else {
            None
        };
        *fcur = *fcur + 1;
        match reply {
            Some(bits) => {
                instructions.push(Insn::PushFloat(bits));
                stack.push(Type::Float);
                *bi = *bi + 10;
            },
            None => {
                match parse_i64_tok(t) {
                    Some(v) => {
                        instructions.push(Insn::PushInt(v));
                        stack.push(Type::Int);
                        *bi = *bi + 10;
                    },
                    None => {
                        proof {
                            reveal(token_step);
                            assert(token_step(m0, t@, verify, floats@) == Err::<
                                CompState,
                                ParseError,
                            >(ParseError::UnknownToken));
                        }
                        return Err(ParseError::UnknownToken);
                    },
                }
            },
        }
        proof {
            reveal(token_step);
            assert(token_step(m0, t@, verify, floats@) == Ok::<
                CompState,
                ParseError,
            >(
                st_model(
                    instructions@,
                    stack@,
                    *bi as int,
                    labels@,
                    constants@,
                    fixups@,
                    *fcur as int,
                ),
            ));
        }
    } else {
        match parse_i64_tok(t) {
            Some(v) => {
                instructions.push(Insn::PushInt(v));
                stack.push(Type::Int);
                *bi = *bi + 10;
                proof {
                    reveal(token_step);
                    assert(token_step(m0, t@, verify, floats@) == Ok::<
                        CompState,
                        ParseError,
                    >(
                        st_model(
                            instructions@,
                            stack@,
                            *bi as int,
                            labels@,
                            constants@,
                            fixups@,
                            *fcur as int,
                        ),
                    ));
                }
            },
            None => {
                proof {
                    reveal(token_step);
                    assert(token_step(m0, t@, verify, floats@) == Err::<
                        CompState,
                        ParseError,
                    >(ParseError::UnknownToken));
                }
                return Err(ParseError::UnknownToken);
            },
        }
    }
    Ok(())
}

/// Compiles source text into a constant pool and instruction sequence,
/// tracking the abstract type-stack and resolving labels in a post-pass.
///
/// `floats` supplies, in order of appearance, the IEEE-754 bit pattern of
/// each token that reaches the float-literal test (the tokens that
/// `float_candidates` lists), or `None` where the token is no float
/// literal; a missing entry counts as `None`.
#[verifier::rlimit(100)]
#[verifier::spinoff_prover]
pub fn parse(source: &str, flags: &Flags, floats: &Vec<Option<u64>>) -> (r: Result<
    PreBinary,
    ParseError,
>)
    requires
        source@.len() <= 0x10_0000_0000_0000,
    ensures
        match r {
            Ok(pb) => spec_parse(source@, flags.verify, floats@) == Ok::<
                (Seq<Seq<char>>, Seq<Insn>),
                ParseError,
            >((pb.constants.deep_view(), pb.instructions@)),
            Err(e) => spec_parse(source@, flags.verify, floats@) == Err::<
                (Seq<Seq<char>>, Seq<Insn>),
                ParseError,
            >(e),
        },
{
    let chars = crate::text::str_to_chars(source);
    let cs = strip_cr_exec(&chars);
    let toks = match tokenize(&cs) {
        Ok(t) => t,
        Err(e) => {
            return Err(e);
        },
    };
    let ghost tv = toks.deep_view();
    let fverify = flags.verify;
    let mut instructions: Vec<Insn> = Vec::new();
    let mut stack: Vec<Type> = Vec::new();
    let mut bi: u64 = 0;
    let mut labels: Vec<(Vec<char>, u64)> = Vec::new();
    let mut constants: Vec<Vec<char>> = Vec::new();
    let mut fixups: Vec<(usize, Vec<char>)> = Vec::new();
    let mut fcur: usize = 0;
    let mut k: usize = 0;
    proof {
        assert(labels_model(labels@) =~= Seq::<(Seq<char>, int)>::empty());
        assert(fixups_model(fixups@) =~= Seq::<(int, Seq<char>)>::empty());
        assert(consts_model(constants@) =~= Seq::<Seq<char>>::empty());
        assert(st_model(
            instructions@,
            stack@,
            bi as int,
            labels@,
            constants@,
            fixups@,
            fcur as int,
        ) =~= init_state());
    }
    while k < toks.len()
        invariant
            0 <= k <= toks@.len(),
            tv == toks.deep_view(),
            tv.len() == toks@.len(),
            tv.len() <= 0x10_0000_0000_0001,
            bi <= 12 * (k as u64),
            constants@.len() <= k,
            fcur <= k,
            fverify == flags.verify,
            spec_tokens(strip_cr(source@)) == Ok::<Seq<Seq<char>>, ParseError>(tv),
            forall|q: int|
                0 <= q < fixups@.len() ==> 0 <= #[trigger] fixups@[q].0
                    < instructions@.len(),
            forall|q: int| 0 <= q < labels@.len() ==> #[trigger] labels@[q].1 <= bi,
            compile_from(
                tv,
                k as int,
                st_model(
                    instructions@,
                    stack@,
                    bi as int,
                    labels@,
                    constants@,
                    fixups@,
                    fcur as int,
                ),
                fverify,
                floats@,
            ) == compile_from(tv, 0, init_state(), fverify, floats@),
        decreases tv.len() - k,
    {
        let ghost m0 = st_model(
            instructions@,
            stack@,
            bi as int,
            labels@,
            constants@,
            fixups@,
            fcur as int,
        );
        let t = &toks[k];
        proof {
            assert(tv[k as int] =~= t@);
        }
        let mut handled = match compile_keyword(
            t,
            fverify,
            floats,
            &mut instructions,
            &mut stack,
            &mut bi,
            &mut labels,
            &mut constants,
            &mut fixups,
            &mut fcur,
        ) {
            Ok(b) => b,
            Err(e) => {
                return Err(e);
            },
        };
        if !handled {
            handled = match compile_keyword_tail(
                t,
                fverify,
                floats,
                &mut instructions,
                &mut stack,
                &mut bi,
                &mut labels,
                &mut constants,
                &mut fixups,
                &mut fcur,
            ) {
                Ok(b) => b,
                Err(e) => {
                    return Err(e);
                },
            };
        }
        if !handled {
            match compile_literal(
                t,
                fverify,
                floats,
                &mut instructions,
                &mut stack,
                &mut bi,
                &mut labels,
                &mut constants,
                &mut fixups,
                &mut fcur,
            ) {
                Ok(()) => {},
                Err(e) => {
                    return Err(e);
                },
            }
        }
        proof {
            let m1 = st_model(
                instructions@,
                stack@,
                bi as int,
                labels@,
                constants@,
                fixups@,
                fcur as int,
            );
            assert(compile_from(tv, k as int, m0, fverify, floats@) == compile_from(
                tv,
                k as int + 1,
                m1,
                fverify,
                floats@,
            ));
        }
        k = k + 1;
    }
    let ghost mfin = st_model(
        instructions@,
        stack@,
        bi as int,
        labels@,
        constants@,
        fixups@,
        fcur as int,
    );
    proof {
        assert(compile_from(tv, tv.len() as int, mfin, fverify, floats@) == Ok::<
            CompState,
            ParseError,
        >(mfin));
    }
    let ghost gconsts = mfin.constants;
    let ghost gparse = spec_parse(source@, flags.verify, floats@);
    let mut fi: usize = 0;
    proof {
        assert(fixups_model(fixups@).skip(0) =~= fixups_model(fixups@));
        assert(forall|q: int|
            0 <= q < labels@.len() ==> 0 <= #[trigger] labels@[q].1
                < 0x0100_0000_0000_0000u64);
    }
    while fi < fixups.len()
        invariant
            0 <= fi <= fixups@.len(),
            gparse == spec_parse(source@, flags.verify, floats@),
            gconsts == consts_model(constants@),
            forall|q: int|
                0 <= q < fixups@.len() ==> 0 <= #[trigger] fixups@[q].0
                    < instructions@.len(),
            forall|q: int|
                0 <= q < labels@.len() ==> 0 <= #[trigger] labels@[q].1
                    < 0x0100_0000_0000_0000u64,
            match apply_fixups(
                instructions@,
                fixups_model(fixups@).skip(fi as int),
                labels_model(labels@),
            ) {
                Ok(insns) => gparse == Ok::<(Seq<Seq<char>>, Seq<Insn>), ParseError>(
                    (gconsts, insns),
                ),
                Err(e) => gparse == Err::<(Seq<Seq<char>>, Seq<Insn>), ParseError>(e),
            },
        decreases fixups@.len() - fi,
    {
        let ghost fm = fixups_model(fixups@);
        proof {
            assert(fm.skip(fi as int)[0] == fm[fi as int]);
            assert(fm.skip(fi as int).drop_first() =~= fm.skip(fi as int + 1));
        }
        let idx = fixups[fi].0;
        let off = lookup_label_exec(&labels, &fixups[fi].1);
        match off {
            None => {
                return Err(ParseError::UnknownLabel);
            },
            Some(o) => {
                proof {
                    lemma_lookup_bound(
                        labels_model(labels@),
                        fm[fi as int].1,
                        0x0100_0000_0000_0000,
                    );
                }
                instructions.set(idx, Insn::PushInt(o as i64));
            },
        }
        fi = fi + 1;
    }
    proof {
        assert(fixups_model(fixups@).skip(fixups@.len() as int) =~= Seq::<(
            int,
            Seq<char>,
        )>::empty());
    }
    let mut consts: Vec<String> = Vec::new();
    let mut ci: usize = 0;
    while ci < constants.len()
        invariant
            0 <= ci <= constants@.len(),
            consts.deep_view() =~= consts_model(constants@).take(ci as int),
        decreases constants@.len() - ci,
    {
        let ghost dpre = consts.deep_view();
        let s = crate::text::chars_to_string(&constants[ci]);
        consts.push(s);
        proof {
            assert(consts.deep_view() =~~= dpre.push(constants@[ci as int]@));
            assert(consts_model(constants@).take(ci as int + 1) =~= consts_model(
                constants@,
            ).take(ci as int).push(constants@[ci as int]@));
        }
        ci = ci + 1;
    }
    proof {
        assert(consts_model(constants@).take(constants@.len() as int) =~= consts_model(
            constants@,
        ));
        assert(consts.deep_view() =~= gconsts);
    }
    Ok(PreBinary { constants: consts, instructions })
}

/// The tokens of the source that `parse` will test as float literals, in
/// the order it consumes their resolutions.
pub fn float_candidates(source: &str) -> (r: Result<Vec<String>, ParseError>)
    requires
        source@.len() <= 0x10_0000_0000_0000,
    ensures
        match r {
            Ok(v) => spec_tokens(strip_cr(source@)) matches Ok(toks) && v.deep_view()
                == candidates_of(toks),
            Err(e) => spec_tokens(strip_cr(source@)) == Err::<Seq<Seq<char>>, ParseError>(e),
        },
{
    let chars = crate::text::str_to_chars(source);
    let cs = strip_cr_exec(&chars);
    let toks = match tokenize(&cs) {
        Ok(t) => t,
        Err(e) => {
            return Err(e);
        },
    };
    let ghost tv = toks.deep_view();
    let mut out: Vec<String> = Vec::new();
    let mut k: usize = 0;
    proof {
        assert(tv.take(0) =~= Seq::<Seq<char>>::empty());
    }
    while k < toks.len()
        invariant
            0 <= k <= toks@.len(),
            tv == toks.deep_view(),
            tv.len() == toks@.len(),
            out.deep_view() == candidates_of(tv.take(k as int)),
        decreases tv.len() - k,
    {
        let t = &toks[k];
        proof {
            assert(tv[k as int] =~= t@);
            assert(tv.take(k as int + 1).drop_last() =~= tv.take(k as int));
            assert(tv.take(k as int + 1).last() == tv[k as int]);
        }
        let is_cand = !(tok_lit(t, "+") || tok_lit(t, "-") || tok_lit(t, "*") || tok_lit(t, "/")
            || tok_lit(t, "=") || tok_lit(t, "<") || tok_lit(t, ">") || tok_lit(t, "<=")
            || tok_lit(t, ">=") || tok_lit(t, "drop") || tok_lit(t, "load") || tok_lit(t, "swap")
            || tok_lit(t, "tRot") || tok_lit(t, "dup") || tok_lit(t, "dDup") || tok_lit(t, "tDup")
            || tok_lit(t, "jump") || tok_lit(t, "if") || tok_lit(t, "!if") || tok_lit(t, "call")
            || tok_lit(t, "abort") || tok_lit(t, "exit") || tok_lit(t, "panic") || tok_lit(t, "ln")
            || tok_lit(t, "input") || tok_lit(t, "gc") || tok_lit(t, "print") || tok_lit(
            t,
            "~float",
        ) || tok_lit(t, "~int") || tok_lit(t, "%int") || tok_lit(t, "%float") || tok_lit(t, "%str")
            || tok_lit(t, "%drop") || t.len() == 0 || t[0] == ':' || t[0] == '@' || t[0] == '&' || (
        t.len() >= 2 && t[0] == '"')) && has_dot_exec(t);
        if is_cand {
            let ghost dpre = out.deep_view();
            let s = crate::text::chars_to_string(t);
            out.push(s);
            proof {
                assert(out.deep_view() =~~= dpre.push(tv[k as int]));
            }
        }
        k = k + 1;
    }
    proof {
        assert(tv.take(tv.len() as int) =~= tv);
    }
    Ok(out)
}

} // verus!
