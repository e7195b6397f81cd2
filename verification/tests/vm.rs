use minievm::error::VmError;
use minievm::execution::ExecutionContext;
use minievm::memory::Memory;
use minievm::stack::Stack;
use minievm::word::Word;

fn w(v: u128) -> Word {
    Word::from_u128(v)
}

#[test]
fn bytecode_legit_should_parse() {
    let test_ec = ExecutionContext::new("48656c6c6f20776f726c6421").unwrap();
    assert_eq!(test_ec.code, vec![72, 101, 108, 108, 111, 32, 119, 111, 114, 108, 100, 33]);
}

#[test]
fn bytecode_bad_should_fail() {
    let result = ExecutionContext::new("48656c6c6f20776f726c642");
    assert_eq!(result.unwrap_err(), VmError::DecodeError);
}

#[test]
fn bytecode_nonhex_should_fail() {
    let result = ExecutionContext::new("60zz");
    assert_eq!(result.unwrap_err(), VmError::DecodeError);
}

#[test]
fn stopped_should_stop() {
    let mut test_ec = ExecutionContext::new("").unwrap();
    assert_eq!(test_ec.stopped, false);
    test_ec.stop();
    assert_eq!(test_ec.stopped, true);
}

#[test]
fn read_code_should_read() {
    let mut test_ec = ExecutionContext::new("600660070260005360016000f3").unwrap();
    assert_eq!(test_ec.read_code(1), w(96));
    assert_eq!(test_ec.read_code(1), w(6));
    assert_eq!(test_ec.read_code(3), w(6293250));
}

#[test]
fn memory_new_should_empty() {
    let test_memory = Memory::new();
    assert_eq!(test_memory.len(), 0);
}

#[test]
fn store_should_append() {
    let mut test_memory = Memory::new();
    test_memory.store(0, w(55)).unwrap();
    test_memory.store(5, w(23)).unwrap();
    assert_eq!(test_memory.load_range(0, 6), vec![w(55), w(0), w(0), w(0), w(0), w(23)]);
    assert_eq!(test_memory.len(), 6);
}

#[test]
fn load_should_return_zero() {
    let test_memory = Memory::new();
    let loaded_value = test_memory.load(5);
    assert_eq!(loaded_value, w(0));
}

#[test]
fn load_should_correct() {
    let mut test_memory = Memory::new();
    test_memory.store(0, w(6)).unwrap();
    test_memory.store(5, w(10)).unwrap();
    let loaded_value = test_memory.load(5);
    assert_eq!(loaded_value, w(10));
}

#[test]
fn load_unwritten_below_extent_is_zero() {
    let mut test_memory = Memory::new();
    test_memory.store(0, w(1364)).unwrap();
    test_memory.store(5, w(7777)).unwrap();
    assert_eq!(test_memory.len(), 6);
    assert_eq!(test_memory.load(5), w(7777));
    assert_eq!(test_memory.load(2), w(0));
}

#[test]
fn load_range_zero_pads_past_extent() {
    let mut test_memory = Memory::new();
    test_memory.store(0, w(9)).unwrap();
    assert_eq!(test_memory.load_range(0, 3), vec![w(9), w(0), w(0)]);
    assert_eq!(test_memory.len(), 1);
}

#[test]
fn store_at_max_offset_is_invalid_access() {
    let mut test_memory = Memory::new();
    let result = test_memory.store(usize::MAX, w(1));
    assert_eq!(result.unwrap_err(), VmError::InvalidAccess);
    assert_eq!(test_memory.len(), 0);
}

#[test]
fn stack_new_should_empty() {
    let test_stack = Stack::new();
    assert_eq!(test_stack.len(), 0);
}

#[test]
fn push_should_append() {
    let mut test_stack = Stack::new();
    test_stack.push(w(25)).unwrap();
    test_stack.push(w(45)).unwrap();
    assert_eq!(test_stack.len(), 2);
    assert_eq!(test_stack.read(0), w(25));
    assert_eq!(test_stack.read(1), w(45));
}

#[test]
fn pop_empty_should_panic() {
    let mut test_stack = Stack::new();
    assert_eq!(test_stack.pop().unwrap_err(), VmError::StackUnderflow);
}

#[test]
fn pop_value_should_correct() {
    let mut test_stack = Stack::new();
    test_stack.push(w(56)).unwrap();
    test_stack.push(w(99)).unwrap();
    match test_stack.pop() {
        Ok(value) => assert_eq!(w(99), value),
        Err(_) => panic!("Pushed 2 items, popped only 1"),
    }
}

#[test]
fn push_then_pop_returns_word_and_restores_length() {
    let mut test_stack = Stack::new();
    test_stack.push(w(17)).unwrap();
    let before = test_stack.len();
    test_stack.push(w(4242)).unwrap();
    assert_eq!(test_stack.pop().unwrap(), w(4242));
    assert_eq!(test_stack.len(), before);
    assert_eq!(test_stack.read(0), w(17));
}

#[test]
fn push_1024_succeeds_1025th_overflows_unchanged() {
    let mut test_stack = Stack::new();
    for i in 0..1024u128 {
        test_stack.push(w(i)).unwrap();
    }
    assert_eq!(test_stack.len(), 1024);
    let result = test_stack.push(w(9999));
    assert_eq!(result.unwrap_err(), VmError::StackOverflow);
    assert_eq!(test_stack.len(), 1024);
    assert_eq!(test_stack.read(0), w(0));
    assert_eq!(test_stack.read(1023), w(1023));
}

#[test]
fn addition_wraps_modulo_word() {
    let mut ec = ExecutionContext::new("").unwrap();
    let max = Word { hi: u128::MAX, lo: u128::MAX };
    ec.stack.push(max).unwrap();
    ec.stack.push(w(1)).unwrap();
    ec.run_instruction(&1).unwrap();
    assert_eq!(ec.stack.len(), 1);
    assert_eq!(ec.stack.read(0), w(0));
}

#[test]
fn multiplication_wraps_modulo_word() {
    let mut ec = ExecutionContext::new("").unwrap();
    let max = Word { hi: u128::MAX, lo: u128::MAX };
    ec.stack.push(max).unwrap();
    ec.stack.push(w(2)).unwrap();
    ec.run_instruction(&2).unwrap();
    assert_eq!(ec.stack.len(), 1);
    assert_eq!(ec.stack.read(0), Word { hi: u128::MAX, lo: u128::MAX - 1 });
}

#[test]
fn add_on_short_stack_underflows_unchanged() {
    let mut ec = ExecutionContext::new("").unwrap();
    ec.stack.push(w(3)).unwrap();
    let result = ec.run_instruction(&1);
    assert_eq!(result.unwrap_err(), VmError::StackUnderflow);
    assert_eq!(ec.stack.len(), 1);
    assert_eq!(ec.stack.read(0), w(3));
}

#[test]
fn push_on_full_stack_overflows_unchanged() {
    let mut ec = ExecutionContext::new("60ff").unwrap();
    for i in 0..1024u128 {
        ec.stack.push(w(i)).unwrap();
    }
    let result = ec.run_instruction(&96);
    assert_eq!(result.unwrap_err(), VmError::StackOverflow);
    assert_eq!(ec.stack.len(), 1024);
    assert_eq!(ec.pc, 0);
}

#[test]
fn run_implicit_halt_leaves_product() {
    // push 6, push 7, multiply, then the counter runs off the end.
    let mut ec = ExecutionContext::new("6006600702").unwrap();
    ec.run().unwrap();
    assert!(ec.stopped);
    assert_eq!(ec.pc, 5);
    assert_eq!(ec.stack.len(), 1);
    assert_eq!(ec.stack.read(0), w(42));
    assert_eq!(ec.memory.len(), 0);
}

#[test]
fn run_single_halt_program() {
    let mut ec = ExecutionContext::new("00").unwrap();
    ec.run().unwrap();
    assert!(ec.stopped);
    assert_eq!(ec.pc, 1);
    assert_eq!(ec.stack.len(), 0);
    assert_eq!(ec.memory.len(), 0);
}

#[test]
fn run_unknown_opcode_aborts_preserving_state() {
    // push 6, push 7, then a byte with no dispatch entry.
    let mut ec = ExecutionContext::new("60066007ff02").unwrap();
    let result = ec.run();
    assert_eq!(result.unwrap_err(), VmError::InvalidOpcode);
    assert!(!ec.stopped);
    assert_eq!(ec.stack.len(), 2);
    assert_eq!(ec.stack.read(0), w(6));
    assert_eq!(ec.stack.read(1), w(7));
    assert_eq!(ec.memory.len(), 0);
}

#[test]
fn run_truncated_push_pushes_zero() {
    // A push opcode as the last byte has no immediate left; it pushes zero
    // and the next decode halts the machine.
    let mut ec = ExecutionContext::new("60").unwrap();
    ec.run().unwrap();
    assert!(ec.stopped);
    assert_eq!(ec.stack.len(), 1);
    assert_eq!(ec.stack.read(0), w(0));
}

#[test]
fn run_explicit_halt_program() {
    let mut ec = ExecutionContext::new("600660070200").unwrap();
    ec.run().unwrap();
    assert!(ec.stopped);
    assert_eq!(ec.pc, 6);
    assert_eq!(ec.stack.len(), 1);
    assert_eq!(ec.stack.read(0), w(42));
}

#[test]
fn mnemonic_labels_known_opcodes() {
    assert_eq!(minievm::execution::mnemonic(0), Some("STOP"));
    assert_eq!(minievm::execution::mnemonic(1), Some("ADD"));
    assert_eq!(minievm::execution::mnemonic(2), Some("MUL"));
    assert_eq!(minievm::execution::mnemonic(96), Some("PUSH1"));
    assert_eq!(minievm::execution::mnemonic(3), None);
}
