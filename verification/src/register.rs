//! The register model: the sixteen integer registers of the target, the
//! execution context that selects a calling convention, and the fixed
//! per-context register-succession policy.

use vstd::prelude::*;

verus! {

/// The closed enumeration of the sixteen physical integer registers.
#[derive(Clone, Copy, Debug, PartialEq, Eq, Structural)]
pub enum Register {
    Rax,
    Rbx,
    Rcx,
    Rsp,
    Rbp,
    Rdi,
    Rsi,
    Rdx,
    R8,
    R9,
    R10,
    R11,
    R12,
    R13,
    R14,
    R15,
}

/// Selects which register-succession table is active: kernel-mode
/// syscalls and user-mode calls pass arguments in different registers.
#[derive(Clone, Copy, Debug, PartialEq, Eq, Structural)]
pub enum Context {
    Kernel,
    User,
}

/// The Intel-syntax mnemonic of a register, as a sequence of characters.
pub open spec fn spec_register_name(r: Register) -> Seq<char> {
    match r {
        Register::Rax => "rax"@,
        Register::Rbx => "rbx"@,
        Register::Rcx => "rcx"@,
        Register::Rsp => "rsp"@,
        Register::Rbp => "rbp"@,
        Register::Rdi => "rdi"@,
        Register::Rsi => "rsi"@,
        Register::Rdx => "rdx"@,
        Register::R8 => "r8"@,
        Register::R9 => "r9"@,
        Register::R10 => "r10"@,
        Register::R11 => "r11"@,
        Register::R12 => "r12"@,
        Register::R13 => "r13"@,
        Register::R14 => "r14"@,
        Register::R15 => "r15"@,
    }
}

/// The fixed succession table: which register is handed out after `r`
/// in `context`, or `None` when the sequence is exhausted.
pub open spec fn spec_next_available(r: Register, context: Context) -> Option<Register> {
    match context {
        Context::Kernel => match r {
            Register::Rax => Some(Register::Rdi),
            Register::Rdi => Some(Register::Rsi),
            Register::Rsi => Some(Register::R10),
            Register::R10 => Some(Register::R8),
            Register::R8 => Some(Register::R9),
            _ => None,
        },
        Context::User => match r {
            Register::Rax => Some(Register::Rdi),
            Register::Rdi => Some(Register::Rsi),
            Register::Rsi => Some(Register::Rdx),
            Register::Rdx => Some(Register::Rcx),
            Register::Rcx => Some(Register::R8),
            Register::R8 => Some(Register::R9),
            _ => None,
        },
    }
}

impl Register {
    /// The literal mnemonic of the register in Intel syntax.
    pub fn to_string(self) -> (r: &'static str)
        ensures
            r@ == spec_register_name(self),
    {
        match self {
            Register::Rax => "rax",
            Register::Rbx => "rbx",
            Register::Rcx => "rcx",
            Register::Rsp => "rsp",
            Register::Rbp => "rbp",
            Register::Rdi => "rdi",
            Register::Rsi => "rsi",
            Register::Rdx => "rdx",
            Register::R8 => "r8",
            Register::R9 => "r9",
            Register::R10 => "r10",
            Register::R11 => "r11",
            Register::R12 => "r12",
            Register::R13 => "r13",
            Register::R14 => "r14",
            Register::R15 => "r15",
        }
    }

    /// The deterministic, stateless successor of `self` under the
    /// succession policy of `context`; `None` means exhaustion.
    pub fn next_available(self, context: Context) -> (r: Option<Register>)
        ensures
            r == spec_next_available(self, context),
    {
        match context {
            Context::Kernel => match self {
                Register::Rax => Some(Register::Rdi),
                Register::Rdi => Some(Register::Rsi),
                Register::Rsi => Some(Register::R10),
                Register::R10 => Some(Register::R8),
                Register::R8 => Some(Register::R9),
                _ => None,
            },
            Context::User => match self {
                Register::Rax => Some(Register::Rdi),
                Register::Rdi => Some(Register::Rsi),
                Register::Rsi => Some(Register::Rdx),
                Register::Rdx => Some(Register::Rcx),
                Register::Rcx => Some(Register::R8),
                Register::R8 => Some(Register::R9),
                _ => None,
            },
        }
    }
}

} // verus!
