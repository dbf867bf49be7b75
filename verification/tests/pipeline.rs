use roth::checker::{check, VerifyError};
use roth::parser::{parse, float_candidates, Insn, ParseError, PreBinary};
use roth::runtime::{FloatReq, Runtime, StepEvent};
use roth::util::{read_instructions, read_string_constants, ReadError};
use roth::Flags;

/// How a run ended.
#[derive(Debug, PartialEq)]
enum Term {
    Halted,
    Exited(i64),
    Panicked(String),
    Aborted,
    Fault,
}

fn compile_source(src: &str) -> Result<PreBinary, ParseError> {
    let flags = Flags { verify: true, prealloc: 0 };
    let cands = float_candidates(src)?;
    let floats: Vec<Option<u64>> = cands
        .iter()
        .map(|t| t.parse::<f64>().ok().map(f64::to_bits))
        .collect();
    parse(src, &flags, &floats)
}

fn run_with_input(src: &str, mut lines: Vec<String>) -> (String, Term) {
    let pb = compile_source(src).expect("compile");
    let mut bytes: Vec<u8> = Vec::new();
    roth::compiler::compile(&mut bytes, &pb);
    let (consts, code_start) = read_string_constants(&bytes, 0).expect("constants");
    let code: Vec<u8> = bytes[code_start..].to_vec();
    let (max_depth, _final_depth) = check(&code).expect("verify");
    let mut vm = Runtime::new(code, 0, max_depth, consts);
    let mut out = String::new();
    for _ in 0..100000 {
        if !vm.is_running() {
            return (out, Term::Fault);
        }
        let ev = vm.step();
        match handle(&mut vm, ev, &mut out, &mut lines) {
            Some(t) => return (out, t),
            None => {}
        }
    }
    (out, Term::Fault)
}

fn handle(
    vm: &mut Runtime,
    ev: StepEvent,
    out: &mut String,
    lines: &mut Vec<String>,
) -> Option<Term> {
    match ev {
        StepEvent::Continue => None,
        StepEvent::PrintLn => {
            out.push('\n');
            None
        }
        StepEvent::PrintInt(v) => {
            out.push_str(&v.to_string());
            None
        }
        StepEvent::PrintFloat(b) => {
            out.push_str(&f64::from_bits(b).to_string());
            None
        }
        StepEvent::PrintStr(s) => {
            out.push_str(&s);
            None
        }
        StepEvent::WantLine => {
            let line = if lines.is_empty() { String::new() } else { lines.remove(0) };
            let ev2 = vm.resume_line(line);
            match ev2 {
                StepEvent::Continue => None,
                _ => Some(Term::Fault),
            }
        }
        StepEvent::WantFloat(req) => {
            let ev2 = match req {
                FloatReq::Bin { op, left, right } => {
                    let l = f64::from_bits(left);
                    let r = f64::from_bits(right);
                    let v = match op {
                        roth::runtime::FloatOp::Add => l + r,
                        roth::runtime::FloatOp::Sub => l - r,
                        roth::runtime::FloatOp::Mul => l * r,
                        roth::runtime::FloatOp::Div => l / r,
                    };
                    vm.resume_float(v.to_bits())
                }
                FloatReq::Cmp { op, left, right } => {
                    let l = f64::from_bits(left);
                    let r = f64::from_bits(right);
                    let truth = match op {
                        roth::runtime::FloatCmp::Eq => l == r,
                        roth::runtime::FloatCmp::Lt => l < r,
                        roth::runtime::FloatCmp::Gt => l > r,
                        roth::runtime::FloatCmp::Le => l <= r,
                        roth::runtime::FloatCmp::Ge => l >= r,
                    };
                    vm.resume_bool(truth)
                }
                FloatReq::ToInt { bits } => vm.resume_int(f64::from_bits(bits) as i64),
                FloatReq::FromInt { value } => vm.resume_float((value as f64).to_bits()),
            };
            match ev2 {
                StepEvent::Continue => None,
                _ => Some(Term::Fault),
            }
        }
        StepEvent::Exit(c) => Some(Term::Exited(c)),
        StepEvent::Abort => Some(Term::Aborted),
        StepEvent::Panic(msg) => Some(Term::Panicked(msg)),
        StepEvent::Halt => Some(Term::Halted),
        StepEvent::Fatal(_) => Some(Term::Fault),
    }
}

fn run(src: &str) -> (String, Term) {
    run_with_input(src, Vec::new())
}

#[test]
fn scenario_add_print() {
    let (out, term) = run("1 2 + print");
    assert_eq!(out, "3");
    assert_eq!(term, Term::Halted);
}

#[test]
fn scenario_string_concat_print() {
    let (out, term) = run("\"hello \" \"world\" + print");
    assert_eq!(out, "hello world");
    assert_eq!(term, Term::Halted);
}

#[test]
fn scenario_counting_loop() {
    // The counting loop: print 0, 1, 2 and fall off the end once the
    // counter reaches 3. The comparison feeds the conditional branch.
    let (out, term) = run("0 :top dup print 1 + dup 3 < &top if");
    assert_eq!(out, "012");
    assert_eq!(term, Term::Halted);
}

#[test]
fn scenario_float_truncation() {
    let (out, term) = run("3.0 ~int print");
    assert_eq!(out, "3");
    assert_eq!(term, Term::Halted);
}

#[test]
fn scenario_exit_code() {
    let (out, term) = run("1 exit");
    assert_eq!(out, "");
    assert_eq!(term, Term::Exited(1));
}

#[test]
fn scenario_panic_message() {
    let (out, term) = run("\"oops\" panic");
    assert_eq!(out, "");
    assert_eq!(term, Term::Panicked("oops".to_string()));
}

#[test]
fn scenario_input_roundtrip() {
    let (out, term) = run_with_input("input print", vec!["whisper\r\n".to_string()]);
    assert_eq!(out, "whisper");
    assert_eq!(term, Term::Halted);
}

#[test]
fn subtraction_is_left_biased() {
    let (out, _) = run("7 2 - print");
    assert_eq!(out, "5");
}

#[test]
fn division_truncates_toward_zero() {
    let (out, _) = run("7 2 / print");
    assert_eq!(out, "3");
    let (out2, _) = run("-7 2 / print");
    assert_eq!(out2, "-3");
}

#[test]
fn comparison_is_left_biased() {
    let (out, _) = run("1 2 < print");
    assert_eq!(out, "1");
    let (out2, _) = run("2 1 < print");
    assert_eq!(out2, "0");
}

#[test]
fn concat_is_not_commutative() {
    let (ab, _) = run("\"a\" \"b\" + print");
    let (ba, _) = run("\"b\" \"a\" + print");
    assert_eq!(ab, "ab");
    assert_eq!(ba, "ba");
    assert_ne!(ab, ba);
}

#[test]
fn float_arithmetic_goes_through_events() {
    let (out, _) = run("1.5 2.25 + print");
    assert_eq!(out, "3.75");
}

#[test]
fn string_equality() {
    let (eq, _) = run("\"x\" \"x\" = print");
    assert_eq!(eq, "1");
    let (ne, _) = run("\"x\" \"y\" = print");
    assert_eq!(ne, "0");
}

#[test]
fn escapes_decode_in_literals() {
    let (out, _) = run("\"a\\tb\\\\c\" print");
    assert_eq!(out, "a\tb\\c");
}

#[test]
fn comments_are_skipped() {
    let (out, _) = run("1 # ignored to end of line\n2 + print");
    assert_eq!(out, "3");
}

#[test]
fn serialize_roundtrip_preserves_program() {
    let pb = compile_source("\"hi\" \"there\" + print 42 drop").expect("compile");
    let mut bytes: Vec<u8> = Vec::new();
    roth::compiler::compile(&mut bytes, &pb);
    let (consts, code_start) = read_string_constants(&bytes, 0).expect("constants");
    let insns = read_instructions(&bytes, code_start).expect("instructions");
    assert_eq!(consts, pb.constants);
    assert_eq!(insns, pb.instructions);
}

#[test]
fn serialize_roundtrip_with_immediates() {
    let pb = PreBinary {
        constants: vec!["k\u{00e9}".to_string(), "".to_string()],
        instructions: vec![
            Insn::PushInt(i64::MIN),
            Insn::PushInt(-1),
            Insn::PushFloat(0x4008000000000000),
            Insn::Drop,
            Insn::AddString,
        ],
    };
    let mut bytes: Vec<u8> = Vec::new();
    roth::compiler::compile(&mut bytes, &pb);
    let (consts, code_start) = read_string_constants(&bytes, 0).expect("constants");
    let insns = read_instructions(&bytes, code_start).expect("instructions");
    assert_eq!(consts, pb.constants);
    assert_eq!(insns, pb.instructions);
}

#[test]
fn checker_reports_depths() {
    let pb = compile_source("1 2 +").expect("compile");
    let mut bytes: Vec<u8> = Vec::new();
    roth::compiler::compile(&mut bytes, &pb);
    let (_, code_start) = read_string_constants(&bytes, 0).expect("constants");
    let code: Vec<u8> = bytes[code_start..].to_vec();
    assert_eq!(check(&code), Ok((2, 1)));
}

#[test]
fn checker_rejects_misaligned_code() {
    assert_eq!(check(&vec![0u8]), Err(VerifyError::MisalignedCode));
}

#[test]
fn checker_rejects_unknown_opcode() {
    assert_eq!(check(&vec![0xFF, 0xFF]), Err(VerifyError::UnknownOpcode));
}

#[test]
fn checker_rejects_underflow() {
    assert_eq!(check(&vec![0x00, 0x00]), Err(VerifyError::StackUnderflow));
}

#[test]
fn checker_rejects_operand_type() {
    // PUSH_I64 0 then NUMCONV_I64, which needs a float on top.
    let mut code = vec![0x08, 0x01];
    code.extend_from_slice(&0i64.to_le_bytes());
    code.extend_from_slice(&[0x09, 0x01]);
    assert_eq!(check(&code), Err(VerifyError::OperandTypeMismatch));
}

#[test]
fn checker_rejects_truncated_immediate() {
    assert_eq!(
        check(&vec![0x08, 0x01, 0x00, 0x00]),
        Err(VerifyError::TruncatedImmediate)
    );
}

#[test]
fn parse_rejects_newline_in_string() {
    assert_eq!(
        compile_source("\"a\nb\"").unwrap_err(),
        ParseError::NewlineInStringLiteral
    );
}

#[test]
fn parse_rejects_invalid_escape() {
    assert_eq!(
        compile_source("\"a\\qb\"").unwrap_err(),
        ParseError::InvalidEscape
    );
}

#[test]
fn parse_rejects_unknown_token() {
    assert_eq!(compile_source("wat?").unwrap_err(), ParseError::UnknownToken);
}

#[test]
fn parse_rejects_unterminated_string() {
    assert_eq!(compile_source("\"open").unwrap_err(), ParseError::UnknownToken);
}

#[test]
fn parse_rejects_short_stack() {
    assert_eq!(compile_source("drop").unwrap_err(), ParseError::InvalidStackForOp);
}

#[test]
fn parse_rejects_type_mismatch() {
    assert_eq!(compile_source("1 \"a\" +").unwrap_err(), ParseError::TypeMismatch);
}

#[test]
fn parse_rejects_unknown_label() {
    assert_eq!(compile_source("@nowhere").unwrap_err(), ParseError::UnknownLabel);
}

#[test]
fn parse_rejects_escape_hatch_under_verify() {
    assert_eq!(
        compile_source("%int").unwrap_err(),
        ParseError::FeatureRequiresNoVerify
    );
}

#[test]
fn escape_hatches_work_without_verify() {
    let flags = Flags { verify: false, prealloc: 0 };
    let floats: Vec<Option<u64>> = Vec::new();
    let pb = parse("%int %drop", &flags, &floats).expect("parse");
    assert_eq!(pb.instructions, Vec::<Insn>::new());
}

#[test]
fn integer_literal_bounds() {
    let pb = compile_source("9223372036854775807 -9223372036854775808").expect("compile");
    assert_eq!(
        pb.instructions,
        vec![Insn::PushInt(i64::MAX), Insn::PushInt(i64::MIN)]
    );
    assert_eq!(
        compile_source("9223372036854775808").unwrap_err(),
        ParseError::UnknownToken
    );
}

#[test]
fn label_addresses_resolve() {
    // The label sits after a 10-byte push, so the reference pushes 10.
    let pb = compile_source("7 :here &here drop drop").expect("compile");
    assert_eq!(
        pb.instructions,
        vec![Insn::PushInt(7), Insn::PushInt(10), Insn::Drop, Insn::Drop]
    );
}

#[test]
fn read_constants_rejects_invalid_utf8() {
    let mut bytes: Vec<u8> = Vec::new();
    bytes.extend_from_slice(&1u64.to_le_bytes());
    bytes.extend_from_slice(&2u64.to_le_bytes());
    bytes.extend_from_slice(&[0xFF, 0xFE]);
    assert_eq!(read_string_constants(&bytes, 0), Err(ReadError::InvalidUtf8));
}

#[test]
fn read_constants_rejects_truncation() {
    let mut bytes: Vec<u8> = Vec::new();
    bytes.extend_from_slice(&1u64.to_le_bytes());
    bytes.extend_from_slice(&9u64.to_le_bytes());
    bytes.extend_from_slice(&[b'a', b'b']);
    assert_eq!(read_string_constants(&bytes, 0), Err(ReadError::Truncated));
}
