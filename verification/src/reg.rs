//! The x86-64 register file.
use vstd::prelude::*;

verus! {

/// A 64-bit general-purpose register.
#[derive(Clone, Copy, PartialEq, Eq, Structural, Debug)]
pub enum Gpr {
    Rax,
    Rcx,
    Rdx,
    Rbx,
    Rsp,
    Rbp,
    Rsi,
    Rdi,
    R8,
    R9,
    R10,
    R11,
    R12,
    R13,
    R14,
    R15,
}

impl Gpr {
    /// The 4-bit hardware register number.
    pub open spec fn code(self) -> u8 {
        match self {
            Gpr::Rax => 0,
            Gpr::Rcx => 1,
            Gpr::Rdx => 2,
            Gpr::Rbx => 3,
            Gpr::Rsp => 4,
            Gpr::Rbp => 5,
            Gpr::Rsi => 6,
            Gpr::Rdi => 7,
            Gpr::R8 => 8,
            Gpr::R9 => 9,
            Gpr::R10 => 10,
            Gpr::R11 => 11,
            Gpr::R12 => 12,
            Gpr::R13 => 13,
            Gpr::R14 => 14,
            Gpr::R15 => 15,
        }
    }

    /// The 4-bit hardware register number.
    pub fn num(self) -> (r: u8)
        ensures
            r == self.code(),
            r < 16,
    {
        match self {
            Gpr::Rax => 0,
            Gpr::Rcx => 1,
            Gpr::Rdx => 2,
            Gpr::Rbx => 3,
            Gpr::Rsp => 4,
            Gpr::Rbp => 5,
            Gpr::Rsi => 6,
            Gpr::Rdi => 7,
            Gpr::R8 => 8,
            Gpr::R9 => 9,
            Gpr::R10 => 10,
            Gpr::R11 => 11,
            Gpr::R12 => 12,
            Gpr::R13 => 13,
            Gpr::R14 => 14,
            Gpr::R15 => 15,
        }
    }

    /// The low three bits of the number, which go into a ModRM field.
    pub fn low3(self) -> (r: u8)
        ensures
            r == self.code() % 8,
    {
        self.num() % 8
    }

    /// Whether the number needs the REX extension bit.
    pub fn is_ext(self) -> (r: bool)
        ensures
            r == (self.code() >= 8),
    {
        self.num() >= 8
    }
}

/// An SSE register.
#[derive(Clone, Copy, PartialEq, Eq, Structural, Debug)]
pub enum Xmm {
    Xmm0,
    Xmm1,
    Xmm2,
    Xmm3,
    Xmm4,
    Xmm5,
    Xmm6,
    Xmm7,
    Xmm8,
    Xmm9,
    Xmm10,
    Xmm11,
    Xmm12,
    Xmm13,
    Xmm14,
    Xmm15,
}

impl Xmm {
    /// The 4-bit hardware register number.
    pub open spec fn code(self) -> u8 {
        match self {
            Xmm::Xmm0 => 0,
            Xmm::Xmm1 => 1,
            Xmm::Xmm2 => 2,
            Xmm::Xmm3 => 3,
            Xmm::Xmm4 => 4,
            Xmm::Xmm5 => 5,
            Xmm::Xmm6 => 6,
            Xmm::Xmm7 => 7,
            Xmm::Xmm8 => 8,
            Xmm::Xmm9 => 9,
            Xmm::Xmm10 => 10,
            Xmm::Xmm11 => 11,
            Xmm::Xmm12 => 12,
            Xmm::Xmm13 => 13,
            Xmm::Xmm14 => 14,
            Xmm::Xmm15 => 15,
        }
    }

    /// The 4-bit hardware register number.
    pub fn num(self) -> (r: u8)
        ensures
            r == self.code(),
            r < 16,
    {
        match self {
            Xmm::Xmm0 => 0,
            Xmm::Xmm1 => 1,
            Xmm::Xmm2 => 2,
            Xmm::Xmm3 => 3,
            Xmm::Xmm4 => 4,
            Xmm::Xmm5 => 5,
            Xmm::Xmm6 => 6,
            Xmm::Xmm7 => 7,
            Xmm::Xmm8 => 8,
            Xmm::Xmm9 => 9,
            Xmm::Xmm10 => 10,
            Xmm::Xmm11 => 11,
            Xmm::Xmm12 => 12,
            Xmm::Xmm13 => 13,
            Xmm::Xmm14 => 14,
            Xmm::Xmm15 => 15,
        }
    }

    /// The low three bits of the number, which go into a ModRM field.
    pub fn low3(self) -> (r: u8)
        ensures
            r == self.code() % 8,
    {
        self.num() % 8
    }

    /// Whether the number needs the REX extension bit.
    pub fn is_ext(self) -> (r: bool)
        ensures
            r == (self.code() >= 8),
    {
        self.num() >= 8
    }
}

/// The number of integer argument registers.
pub const ARG_REG_COUNT: usize = 6;

/// The number of SSE argument registers.
pub const SSE_ARG_REG_COUNT: usize = 8;

/// The `i`-th integer argument register of the System V convention.
pub open spec fn arg_reg_at(i: int) -> Gpr {
    if i == 0 {
        Gpr::Rdi
    } else if i == 1 {
        Gpr::Rsi
    } else if i == 2 {
        Gpr::Rdx
    } else if i == 3 {
        Gpr::Rcx
    } else if i == 4 {
        Gpr::R8
    } else {
        Gpr::R9
    }
}

/// The `i`-th integer argument register of the System V convention.
pub fn arg_reg(i: usize) -> (r: Gpr)
    requires
        i < ARG_REG_COUNT,
    ensures
        r == arg_reg_at(i as int),
{
    if i == 0 {
        Gpr::Rdi
    } else if i == 1 {
        Gpr::Rsi
    } else if i == 2 {
        Gpr::Rdx
    } else if i == 3 {
        Gpr::Rcx
    } else if i == 4 {
        Gpr::R8
    } else {
        Gpr::R9
    }
}

/// The `i`-th SSE argument register of the System V convention.
pub open spec fn sse_arg_reg_at(i: int) -> Xmm {
    if i == 0 {
        Xmm::Xmm0
    } else if i == 1 {
        Xmm::Xmm1
    } else if i == 2 {
        Xmm::Xmm2
    } else if i == 3 {
        Xmm::Xmm3
    } else if i == 4 {
        Xmm::Xmm4
    } else if i == 5 {
        Xmm::Xmm5
    } else if i == 6 {
        Xmm::Xmm6
    } else {
        Xmm::Xmm7
    }
}

/// The `i`-th SSE argument register of the System V convention.
pub fn sse_arg_reg(i: usize) -> (r: Xmm)
    requires
        i < SSE_ARG_REG_COUNT,
    ensures
        r == sse_arg_reg_at(i as int),
{
    if i == 0 {
        Xmm::Xmm0
    } else if i == 1 {
        Xmm::Xmm1
    } else if i == 2 {
        Xmm::Xmm2
    } else if i == 3 {
        Xmm::Xmm3
    } else if i == 4 {
        Xmm::Xmm4
    } else if i == 5 {
        Xmm::Xmm5
    } else if i == 6 {
        Xmm::Xmm6
    } else {
        Xmm::Xmm7
    }
}

/// Different registers have different numbers.
pub proof fn gpr_codes_distinct(a: Gpr, b: Gpr)
    ensures
        a.code() == b.code() ==> a == b,
{
}

} // verus!
