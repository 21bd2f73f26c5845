//! The machines that code is generated for.
use vstd::prelude::*;

verus! {

/// A target.
#[derive(Clone, Copy, PartialEq, Eq, Structural, Debug)]
pub enum Target {
    /// Linux on x86-64.
    X86_64Linux,
    /// Linux on AArch64.
    Aarch64Linux,
}

/// The system call number of `exit_group` on AArch64.
pub const AARCH64_EXIT_GROUP: i64 = 94;

/// The system call number of `write` on AArch64.
pub const AARCH64_WRITE: i64 = 64;

impl Target {
    /// The ELF machine number.
    pub open spec fn machine(self) -> u16 {
        match self {
            Target::X86_64Linux => 0x3E,
            Target::Aarch64Linux => 0xB7,
        }
    }

    /// The ELF machine number.
    pub fn e_machine(self) -> (r: u16)
        ensures
            r == self.machine(),
    {
        match self {
            Target::X86_64Linux => 0x3E,
            Target::Aarch64Linux => 0xB7,
        }
    }

    /// The name of the target.
    pub open spec fn name(self) -> Seq<char> {
        match self {
            Target::X86_64Linux => "x86_64-linux"@,
            Target::Aarch64Linux => "aarch64-linux"@,
        }
    }

    /// The name of the target.
    pub fn triple(self) -> (r: &'static str)
        ensures
            r@ == self.name(),
    {
        match self {
            Target::X86_64Linux => "x86_64-linux",
            Target::Aarch64Linux => "aarch64-linux",
        }
    }
}

} // verus!
