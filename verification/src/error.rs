use vstd::prelude::*;

verus! {

/// The fault conditions that can abort a run of the machine.
///
/// Every fallible operation of the library reports one of these instead of
/// panicking, so a caller can tell a successful halt from a fault.
#[derive(Clone, Copy, Debug, PartialEq, Eq, Structural)]
pub enum VmError {
    /// The program text is not a well-formed hex encoding.
    DecodeError,
    /// A push would exceed the fixed stack capacity.
    StackOverflow,
    /// A pop was attempted on an empty stack.
    StackUnderflow,
    /// A memory offset cannot be materialized in the address space.
    InvalidAccess,
    /// A decoded opcode byte has no dispatch entry.
    InvalidOpcode,
}

} // verus!
