use roth::runtime::{Cell, Runtime, StepEvent, VmFatal};

fn push_int_bytes(v: i64) -> Vec<u8> {
    let mut b = vec![0x08, 0x01];
    b.extend_from_slice(&v.to_le_bytes());
    b
}

#[test]
fn gc_keeps_live_pool_entries() {
    // Intern "xy", keep it referenced, collect: the slot stays marked and
    // printing still sees the string.
    let mut code: Vec<u8> = Vec::new();
    code.extend_from_slice(&push_int_bytes(0));
    code.extend_from_slice(&[0x01, 0x00]); // LOAD
    code.extend_from_slice(&push_int_bytes(1));
    code.extend_from_slice(&[0x01, 0x00]); // LOAD
    code.extend_from_slice(&[0x00, 0x23]); // ADD_STR
    code.extend_from_slice(&[0x05, 0x10]); // GC
    let consts = vec!["x".to_string(), "y".to_string()];
    let mut vm = Runtime::new(code, 0, 4, consts);
    for _ in 0..6 {
        assert!(matches!(vm.step(), StepEvent::Continue));
    }
    assert_eq!(vm.string_pool, vec!["xy".to_string()]);
    assert_eq!(vm.string_pool_marks, vec![1u8]);
    assert_eq!(vm.stack, vec![Cell::Pool(0)]);
}

#[test]
fn gc_clears_dead_pool_entries() {
    // Intern "xy", drop the only reference, collect: the slot is unmarked
    // and its string released.
    let mut code: Vec<u8> = Vec::new();
    code.extend_from_slice(&push_int_bytes(0));
    code.extend_from_slice(&[0x01, 0x00]); // LOAD
    code.extend_from_slice(&push_int_bytes(1));
    code.extend_from_slice(&[0x01, 0x00]); // LOAD
    code.extend_from_slice(&[0x00, 0x23]); // ADD_STR
    code.extend_from_slice(&[0x00, 0x00]); // DROP
    code.extend_from_slice(&[0x05, 0x10]); // GC
    let consts = vec!["x".to_string(), "y".to_string()];
    let mut vm = Runtime::new(code, 0, 4, consts);
    for _ in 0..7 {
        assert!(matches!(vm.step(), StepEvent::Continue));
    }
    assert_eq!(vm.string_pool, vec![String::new()]);
    assert_eq!(vm.string_pool_marks, vec![0u8]);
}

#[test]
fn freed_slots_are_reused() {
    // After a collection frees slot 0, the next interning lands there
    // instead of growing the pool.
    let mut code: Vec<u8> = Vec::new();
    for _ in 0..2 {
        code.extend_from_slice(&push_int_bytes(0));
        code.extend_from_slice(&[0x01, 0x00]); // LOAD
        code.extend_from_slice(&push_int_bytes(1));
        code.extend_from_slice(&[0x01, 0x00]); // LOAD
        code.extend_from_slice(&[0x00, 0x23]); // ADD_STR
        code.extend_from_slice(&[0x00, 0x00]); // DROP
        code.extend_from_slice(&[0x05, 0x10]); // GC
    }
    let consts = vec!["x".to_string(), "y".to_string()];
    let mut vm = Runtime::new(code, 0, 4, consts);
    for _ in 0..14 {
        assert!(matches!(vm.step(), StepEvent::Continue));
    }
    assert_eq!(vm.string_pool.len(), 1);
}

#[test]
fn division_by_zero_is_fatal() {
    let mut code: Vec<u8> = Vec::new();
    code.extend_from_slice(&push_int_bytes(1));
    code.extend_from_slice(&push_int_bytes(0));
    code.extend_from_slice(&[0x03, 0x21]); // DIV_I64
    let mut vm = Runtime::new(code, 0, 2, Vec::new());
    assert!(matches!(vm.step(), StepEvent::Continue));
    assert!(matches!(vm.step(), StepEvent::Continue));
    assert!(matches!(vm.step(), StepEvent::Fatal(VmFatal::DivideByZero)));
}

#[test]
fn integer_overflow_is_fatal() {
    let mut code: Vec<u8> = Vec::new();
    code.extend_from_slice(&push_int_bytes(i64::MAX));
    code.extend_from_slice(&push_int_bytes(1));
    code.extend_from_slice(&[0x00, 0x21]); // ADD_I64
    let mut vm = Runtime::new(code, 0, 2, Vec::new());
    assert!(matches!(vm.step(), StepEvent::Continue));
    assert!(matches!(vm.step(), StepEvent::Continue));
    assert!(matches!(vm.step(), StepEvent::Fatal(VmFatal::IntegerOverflow)));
}

#[test]
fn invalid_constant_is_fatal() {
    let mut code: Vec<u8> = Vec::new();
    code.extend_from_slice(&push_int_bytes(3));
    code.extend_from_slice(&[0x01, 0x00]); // LOAD
    let mut vm = Runtime::new(code, 0, 1, vec!["only".to_string()]);
    assert!(matches!(vm.step(), StepEvent::Continue));
    assert!(matches!(vm.step(), StepEvent::Fatal(VmFatal::InvalidConstant(3))));
}

#[test]
fn illegal_instruction_is_fatal() {
    let code = vec![0xFF, 0x7F];
    let mut vm = Runtime::new(code, 0, 1, Vec::new());
    assert!(matches!(
        vm.step(),
        StepEvent::Fatal(VmFatal::IllegalInstruction(0x7FFF))
    ));
}

#[test]
fn stack_overflow_is_fatal() {
    let mut code: Vec<u8> = Vec::new();
    code.extend_from_slice(&push_int_bytes(1));
    code.extend_from_slice(&push_int_bytes(2));
    let mut vm = Runtime::new(code, 0, 1, Vec::new());
    assert!(matches!(vm.step(), StepEvent::Continue));
    assert!(matches!(vm.step(), StepEvent::Fatal(VmFatal::StackOverflow)));
}

#[test]
fn out_of_range_jump_halts() {
    let mut code: Vec<u8> = Vec::new();
    code.extend_from_slice(&push_int_bytes(-5));
    code.extend_from_slice(&[0x04, 0x00]); // J
    let mut vm = Runtime::new(code, 0, 1, Vec::new());
    assert!(matches!(vm.step(), StepEvent::Continue));
    assert!(matches!(vm.step(), StepEvent::Continue));
    assert!(matches!(vm.step(), StepEvent::Halt));
}
