use vstd::prelude::*;
use vstd::arithmetic::div_mod::{lemma_add_mod_noop, lemma_mod_self_0, lemma_small_mod};
use crate::error::VmError;
use crate::memory::Memory;
use crate::stack::{Stack, STACK_LIMIT};
use crate::word::{
    lemma_word_nat_of_nat, lemma_word_of_nat_of_word, word_add, word_modulus, word_mul, word_nat,
    word_of_nat, Word,
};

verus! {

/// Opcode byte that halts the machine.
pub const OP_STOP: u128 = 0;

/// Opcode byte for wrapping addition of the two topmost stack words.
pub const OP_ADD: u128 = 1;

/// Opcode byte for wrapping multiplication of the two topmost stack words.
pub const OP_MUL: u128 = 2;

/// Opcode byte that pushes the next program byte as a word.
pub const OP_PUSH1: u128 = 96;

/// Whether `c` is an ASCII hexadecimal digit, in either case.
pub open spec fn is_hex_digit(c: char) -> bool {
    ('0' as u32 <= c as u32 && c as u32 <= '9' as u32)
    || ('a' as u32 <= c as u32 && c as u32 <= 'f' as u32)
    || ('A' as u32 <= c as u32 && c as u32 <= 'F' as u32)
}

/// The numeric value of an ASCII hexadecimal digit.
pub open spec fn hex_digit_val(c: char) -> nat {
    if '0' as u32 <= c as u32 && c as u32 <= '9' as u32 {
        (c as u32 - '0' as u32) as nat
    } else if 'a' as u32 <= c as u32 && c as u32 <= 'f' as u32 {
        (c as u32 - 'a' as u32 + 10) as nat
    } else if 'A' as u32 <= c as u32 && c as u32 <= 'F' as u32 {
        (c as u32 - 'A' as u32 + 10) as nat
    } else {
        0
    }
}

/// Whether `s` is a well-formed hex encoding: an even number of characters,
/// all of them hexadecimal digits.
pub open spec fn hex_str_ok(s: Seq<char>) -> bool {
    s.len() % 2 == 0 && (forall|i: int| 0 <= i < s.len() ==> is_hex_digit(#[trigger] s[i]))
}

/// The byte sequence a well-formed hex encoding stands for: each pair of
/// digits gives one byte, high digit first.
pub open spec fn hex_bytes(s: Seq<char>) -> Seq<u8>
    decreases s.len(),
{
    if s.len() < 2 {
        Seq::empty()
    } else {
        seq![(hex_digit_val(s[0]) * 16 + hex_digit_val(s[1])) as u8] + hex_bytes(s.skip(2))
    }
}

/// Relies on hex::decode: it returns the decoded bytes exactly when the
/// input has an even number of characters, all of them hex digits (either
/// case), pairing digits high-first; otherwise it reports an error.
#[verifier::external_body]
fn decode_hex(s: &str) -> (r: Result<Vec<u8>, VmError>)
    ensures
        match r {
            Ok(v) => hex_str_ok(s@) && v@ == hex_bytes(s@),
            Err(e) => e == VmError::DecodeError && !hex_str_ok(s@),
        },
{
    match hex::decode(s) {
        Ok(v) => Ok(v),
        Err(_) => Err(VmError::DecodeError),
    }
}

/// The value of a big-endian byte string read into a word: each byte shifts
/// the accumulated value up and is added in, modulo the word modulus.
pub open spec fn be_bytes_val(s: Seq<u8>) -> nat
    decreases s.len(),
{
    if s.len() == 0 {
        0
    } else {
        ((be_bytes_val(s.drop_last()) * 256 + s.last()) % word_modulus() as int) as nat
    }
}

/// The whole observable state of the machine, as mathematical values.
#[verifier::ext_equal]
pub ghost struct VmState {
    pub code: Seq<u8>,
    pub stack: Seq<Word>,
    pub memory: Seq<Word>,
    pub pc: nat,
    pub stopped: bool,
}

/// One decode step: the opcode fetched at the program counter and the state
/// after the fetch. At or past the end of the program no byte is consumed
/// and the halt opcode is yielded, so running off the end is an implicit
/// halt instruction.
pub open spec fn spec_decode(s: VmState) -> (u128, VmState) {
    if s.pc >= s.code.len() {
        (OP_STOP, s)
    } else {
        (s.code[s.pc as int] as u128, VmState { pc: (s.pc + 1) as nat, ..s })
    }
}

/// One dispatch step on an already-decoded opcode: the state after the
/// instruction, or the fault that aborts the run. Faults leave no state:
/// the machine stops at them.
pub open spec fn spec_dispatch(s: VmState, op: u128) -> Result<VmState, VmError> {
    if op == OP_STOP {
        Ok(VmState { stopped: true, ..s })
    } else if op == OP_ADD || op == OP_MUL {
        if s.stack.len() < 2 {
            Err(VmError::StackUnderflow)
        } else {
            let a = word_nat(s.stack[s.stack.len() - 1]);
            let b = word_nat(s.stack[s.stack.len() - 2]);
            let v = if op == OP_ADD {
                (a + b) % word_modulus()
            } else {
                (a * b) % word_modulus()
            };
            Ok(VmState {
                stack: s.stack.take(s.stack.len() - 2).push(word_of_nat(v)),
                ..s
            })
        }
    } else if op == OP_PUSH1 {
        if s.stack.len() >= STACK_LIMIT {
            Err(VmError::StackOverflow)
        } else if s.pc < s.code.len() {
            Ok(VmState {
                pc: (s.pc + 1) as nat,
                stack: s.stack.push(word_of_nat(s.code[s.pc as int] as nat)),
                ..s
            })
        } else {
            Ok(VmState { stack: s.stack.push(word_of_nat(0)), ..s })
        }
    } else {
        Err(VmError::InvalidOpcode)
    }
}

/// The result of running the machine to completion from `s`: the state the
/// machine is left in, paired with the first fault encountered, if any.
/// Each round decodes one opcode and dispatches it; a state that is already
/// stopped runs no further. A faulting step leaves the machine exactly as
/// the decode of the faulting opcode left it: stack and memory untouched,
/// the counter just past that opcode.
pub open spec fn spec_run(s: VmState) -> (VmState, Option<VmError>)
    decreases
        (if s.stopped { 0int } else { 1int }),
        (if s.pc < s.code.len() { s.code.len() - s.pc } else { 0int }),
{
    if s.stopped {
        (s, None)
    } else {
        let (op, s1) = spec_decode(s);
        match spec_dispatch(s1, op) {
            Ok(s2) => spec_run(s2),
            Err(e) => (s1, Some(e)),
        }
    }
}

/// Law: the arithmetic instructions wrap modulo the word modulus rather
/// than fault: dispatching an add on a stack whose two topmost words sum to
/// exactly the word modulus succeeds and leaves the zero word on top, the
/// way adding one to the largest representable word does.
pub proof fn lemma_addition_wraps_to_zero(s: VmState)
    requires
        s.stack.len() >= 2,
        word_nat(s.stack[s.stack.len() - 1]) + word_nat(s.stack[s.stack.len() - 2])
            == word_modulus(),
    ensures
        spec_dispatch(s, OP_ADD) is Ok,
        spec_dispatch(s, OP_ADD).unwrap().stack.len() == s.stack.len() - 1,
        word_nat(spec_dispatch(s, OP_ADD).unwrap().stack.last()) == 0,
{
    lemma_mod_self_0(word_modulus() as int);
    lemma_word_nat_of_nat(0);
}

/// The execution context: the program, the operand stack, the memory, the
/// program counter and the halted flag, together with the
/// fetch-decode-execute loop that drives them.
#[derive(Debug)]
pub struct ExecutionContext {
    pub code: Vec<u8>,
    pub stack: Stack,
    pub memory: Memory,
    pub pc: usize,
    pub stopped: bool,
}

impl View for ExecutionContext {
    type V = VmState;

    open spec fn view(&self) -> VmState {
        VmState {
            code: self.code@,
            stack: self.stack@,
            memory: self.memory@,
            pc: self.pc as nat,
            stopped: self.stopped,
        }
    }
}

/// The human-readable mnemonic of an opcode, for diagnostic labeling only;
/// dispatch itself goes by the opcode value.
pub fn mnemonic(opcode: u128) -> (r: Option<&'static str>)
    ensures
        r is Some <==> (opcode == OP_STOP || opcode == OP_ADD || opcode == OP_MUL
            || opcode == OP_PUSH1),
        opcode == OP_STOP ==> r is Some && r.unwrap()@ == "STOP"@,
        opcode == OP_ADD ==> r is Some && r.unwrap()@ == "ADD"@,
        opcode == OP_MUL ==> r is Some && r.unwrap()@ == "MUL"@,
        opcode == OP_PUSH1 ==> r is Some && r.unwrap()@ == "PUSH1"@,
{
    match opcode {
        0 => Some("STOP"),
        1 => Some("ADD"),
        2 => Some("MUL"),
        96 => Some("PUSH1"),
        _ => None,
    }
}

impl ExecutionContext {
    /// Builds a context around the program the hex string encodes, with an
    /// empty stack, an empty memory, the counter at the first byte and the
    /// machine running. Fails with `DecodeError` exactly when the string is
    /// not a well-formed hex encoding.
    pub fn new(bytecode_as_str: &str) -> (r: Result<ExecutionContext, VmError>)
        ensures
            match r {
                Ok(ec) => hex_str_ok(bytecode_as_str@)
                    && ec.code@ == hex_bytes(bytecode_as_str@)
                    && ec.stack@ == Seq::<Word>::empty()
                    && ec.memory@ == Seq::<Word>::empty()
                    && ec.pc == 0
                    && !ec.stopped,
                Err(e) => e == VmError::DecodeError && !hex_str_ok(bytecode_as_str@),
            },
    {
        let bytecode_as_bytes: Vec<u8> = match decode_hex(bytecode_as_str) {
            Ok(v) => v,
            Err(e) => {
                return Err(e);
            },
        };
        Ok(ExecutionContext {
            code: bytecode_as_bytes,
            stack: Stack::new(),
            memory: Memory::new(),
            pc: 0,
            stopped: false,
        })
    }

    /// Halts the machine: sets the halted flag and changes nothing else.
    pub fn stop(&mut self)
        ensures
            final(self)@ == (VmState { stopped: true, ..old(self)@ }),
    {
        self.stopped = true;
    }

    /// Reads the next `num_bytes` program bytes as one big-endian word and
    /// advances the program counter past them.
    pub fn read_code(&mut self, num_bytes: usize) -> (r: Word)
        requires
            old(self).pc + num_bytes <= old(self).code@.len(),
        ensures
            final(self)@ == (VmState { pc: (old(self).pc + num_bytes) as nat, ..old(self)@ }),
            word_nat(r) == be_bytes_val(
                old(self).code@.subrange(old(self).pc as int, old(self).pc + num_bytes),
            ),
    {
        let code_len: usize = self.code.len();
        proof {
            assert(self.pc + num_bytes <= code_len);
        }
        let value = Self::vec_to_word(&self.code, self.pc, self.pc + num_bytes);
        self.pc = self.pc + num_bytes;
        value
    }

    /// The big-endian word value of `bytes[start..end]`, accumulated one
    /// byte at a time with wrapping shifts, as `be_bytes_val` describes.
    fn vec_to_word(bytes: &Vec<u8>, start: usize, end: usize) -> (r: Word)
        requires
            start <= end <= bytes@.len(),
        ensures
            word_nat(r) == be_bytes_val(bytes@.subrange(start as int, end as int)),
    {
        let mut result = Word::zero();
        let mut i: usize = start;
        proof {
            assert(bytes@.subrange(start as int, start as int) =~= Seq::<u8>::empty());
        }
        while i < end
            invariant
                start <= i <= end <= bytes@.len(),
                word_nat(result) == be_bytes_val(bytes@.subrange(start as int, i as int)),
            decreases end - i,
        {
            let shifted = word_mul(result, Word::from_u128(256));
            let next = word_add(shifted, Word::from_u128(bytes[i] as u128));
            proof {
                let pre = bytes@.subrange(start as int, i as int);
                let post = bytes@.subrange(start as int, i + 1);
                let b = bytes@[i as int] as nat;
                assert(post.drop_last() =~= pre);
                assert(post.last() == bytes@[i as int]);
                lemma_small_mod(b, word_modulus());
                lemma_add_mod_noop(
                    (be_bytes_val(pre) * 256) as int,
                    b as int,
                    word_modulus() as int,
                );
                assert(word_nat(next) == be_bytes_val(post));
            }
            result = next;
            i = i + 1;
        }
        result
    }

    /// Fetches the opcode at the program counter and advances past it, or
    /// yields the halt opcode without advancing when the counter is at or
    /// past the end of the program.
    fn decode_opcode(&mut self) -> (r: u128)
        ensures
            r == spec_decode(old(self)@).0,
            final(self)@ == spec_decode(old(self)@).1,
    {
        if self.pc >= self.code.len() {
            return OP_STOP;
        }
        let opcode: u128 = self.code[self.pc] as u128;
        self.pc = self.pc + 1;
        opcode
    }

    /// Executes one already-decoded instruction: the single-step dispatch
    /// entry point. On success the machine moves to exactly the state
    /// `spec_dispatch` gives; on a fault the run is aborted and the state
    /// is left as it was at the start of the step.
    #[verifier::rlimit(50)]
    pub fn run_instruction(&mut self, instruction: &u128) -> (r: Result<(), VmError>)
        requires
            old(self)@.stack.len() <= STACK_LIMIT,
        ensures
            match r {
                Ok(()) => spec_dispatch(old(self)@, *instruction)
                    == Ok::<VmState, VmError>(final(self)@),
                Err(e) => spec_dispatch(old(self)@, *instruction)
                    == Err::<VmState, VmError>(e) && final(self)@ == old(self)@,
            },
    {
        match *instruction {
            0 => {
                self.stop();
                Ok(())
            },
            1 => {
                if self.stack.len() < 2 {
                    return Err(VmError::StackUnderflow);
                }
                let first_pop = match self.stack.pop() {
                    Ok(v) => v,
                    Err(e) => {
                        return Err(e);
                    },
                };
                let second_pop = match self.stack.pop() {
                    Ok(v) => v,
                    Err(e) => {
                        return Err(e);
                    },
                };
                let value = word_add(first_pop, second_pop);
                let pushed = self.stack.push(value);
                proof {
                    let pre = old(self)@;
                    lemma_word_of_nat_of_word(value);
                    assert(pre.stack.drop_last().drop_last()
                        =~= pre.stack.take(pre.stack.len() - 2));
                }
                match pushed {
                    Ok(()) => Ok(()),
                    Err(e) => Err(e),
                }
            },
            2 => {
                if self.stack.len() < 2 {
                    return Err(VmError::StackUnderflow);
                }
                let first_pop = match self.stack.pop() {
                    Ok(v) => v,
                    Err(e) => {
                        return Err(e);
                    },
                };
                let second_pop = match self.stack.pop() {
                    Ok(v) => v,
                    Err(e) => {
                        return Err(e);
                    },
                };
                let value = word_mul(first_pop, second_pop);
                let pushed = self.stack.push(value);
                proof {
                    let pre = old(self)@;
                    lemma_word_of_nat_of_word(value);
                    assert(pre.stack.drop_last().drop_last()
                        =~= pre.stack.take(pre.stack.len() - 2));
                }
                match pushed {
                    Ok(()) => Ok(()),
                    Err(e) => Err(e),
                }
            },
            96 => {
                if self.stack.len() >= STACK_LIMIT {
                    return Err(VmError::StackOverflow);
                }
                let read_value = if self.pc < self.code.len() {
                    let w = self.read_code(1);
                    proof {
                        let pre = old(self)@;
                        let sub = pre.code.subrange(pre.pc as int, pre.pc as int + 1);
                        reveal_with_fuel(be_bytes_val, 2);
                        assert(sub.drop_last() =~= Seq::<u8>::empty());
                        assert(sub.last() == pre.code[pre.pc as int]);
                        lemma_small_mod(pre.code[pre.pc as int] as nat, word_modulus());
                        assert(word_nat(w) == pre.code[pre.pc as int] as nat);
                    }
                    w
                } else {
                    Word::zero()
                };
                proof {
                    lemma_word_of_nat_of_word(read_value);
                }
                match self.stack.push(read_value) {
                    Ok(()) => Ok(()),
                    Err(e) => Err(e),
                }
            },
            _ => Err(VmError::InvalidOpcode),
        }
    }

    /// Runs the fetch-decode-execute loop until the machine halts, by the
    /// halt opcode or by the counter running off the end of the program.
    /// Returns the first fault instead if one aborts the run; either way
    /// the machine is left in exactly the state `spec_run` gives, so a
    /// fault leaves the stack and the memory as they were immediately
    /// before the faulting decode step.
    #[verifier::loop_isolation(false)]
    pub fn run(&mut self) -> (r: Result<(), VmError>)
        requires
            old(self)@.stack.len() <= STACK_LIMIT,
        ensures
            final(self)@ == spec_run(old(self)@).0,
            match r {
                Ok(()) => spec_run(old(self)@).1 is None && final(self).stopped,
                Err(e) => spec_run(old(self)@).1 == Some(e),
            },
    {
        let ghost init: VmState = self@;
        while !self.stopped
            invariant
                self@.stack.len() <= STACK_LIMIT,
                spec_run(init) == spec_run(self@),
            decreases
                (if self.stopped { 0int } else { 1int }),
                (if self.pc < self.code@.len() { self.code@.len() - self.pc } else { 0int }),
        {
            let ghost pre: VmState = self@;
            let instruction = self.decode_opcode();
            match self.run_instruction(&instruction) {
                Ok(()) => {
                    proof {
                        assert(spec_run(pre) == spec_run(self@));
                    }
                },
                Err(e) => {
                    proof {
                        assert(spec_run(pre) == (self@, Some(e)));
                    }
                    return Err(e);
                },
            }
        }
        Ok(())
    }
}

} // verus!
