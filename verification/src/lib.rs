//! A native code generator back end: instruction encoders with a peephole
//! optimizer, type layout and stack-frame planning, print-format parsing, the
//! lowering of a mid-level program, and the ELF and DWARF writers, each with a
//! machine-checked contract.
use vstd::prelude::*;

use crate::intern::{Interner, Pool};

pub mod aarch64;
pub mod behavior;
pub mod bytes;
pub mod compile;
pub mod debug_info;
pub mod dwarf;
pub mod elf;
pub mod encode;
pub mod floats;
pub mod fmt_native;
pub mod frame;
pub mod holes;
pub mod intern;
pub mod layout;
pub mod lines;
pub mod link;
pub mod linked;
pub mod lower;
pub mod machine;
pub mod mir;
pub mod mir_ids;
pub mod obj;
pub mod object;
pub mod peephole;
pub mod reg;
pub mod runtime;
pub mod show;
pub mod steps;
pub mod target;
pub mod text;
pub mod types;
pub mod validate;

verus! {

/// Why a program could not be compiled.
#[derive(Debug, PartialEq, Eq)]
pub enum CodegenError {
    /// The program uses a construct that is not supported; the text names it.
    Unsupported(String),
    /// The program has no entry point.
    NoMain,
}

impl CodegenError {
    /// The text that is shown for the error.
    pub open spec fn text(&self) -> Seq<char> {
        match *self {
            CodegenError::Unsupported(msg) => "unsupported by the v0.14 native backend: "@ + msg@,
            CodegenError::NoMain => "program has no `main` entry point"@,
        }
    }

    /// The text that is shown for the error.
    pub fn message(&self) -> (r: String)
        ensures
            r@ == self.text(),
    {
        match self {
            CodegenError::Unsupported(msg) => {
                let mut s = String::from_str("unsupported by the v0.14 native backend: ");
                s.append(msg.as_str());
                s
            },
            CodegenError::NoMain => String::from_str("program has no `main` entry point"),
        }
    }

    /// The construct that is not supported.
    pub open spec fn unsupported(&self, msg: Seq<char>) -> bool {
        match *self {
            CodegenError::Unsupported(m) => m@ == msg,
            CodegenError::NoMain => false,
        }
    }
}

/// An [`CodegenError::Unsupported`] with the given text.
pub(crate) fn unsupported(msg: &str) -> (r: CodegenError)
    ensures
        r.unsupported(msg@),
{
    CodegenError::Unsupported(String::from_str(msg))
}

/// The read-only data of a program: byte strings in one buffer, each stored once.
pub struct RoData {
    pool: Interner,
}

impl View for RoData {
    type V = Pool;

    closed spec fn view(&self) -> Pool {
        self.pool@
    }
}

impl RoData {
    /// No data.
    pub fn new() -> (r: RoData)
        ensures
            r@ == Pool::start(Seq::empty()),
            r@.wf(),
    {
        let bytes: Vec<u8> = Vec::new();
        assert(bytes@ =~= Seq::empty());
        RoData { pool: Interner::start(bytes) }
    }

    /// Adds `s` where it is not there yet, and returns its offset.
    pub fn intern(&mut self, s: &[u8]) -> (off: u32)
        requires
            old(self)@.wf(),
        ensures
            final(self)@.wf(),
            final(self)@ == old(self)@.add(s@),
            off == old(self)@.offset_of(s@),
    {
        self.pool.intern(s)
    }

    /// All bytes.
    pub fn bytes(&self) -> (r: &[u8])
        ensures
            r@ == self@.bytes,
    {
        self.pool.bytes()
    }
}

} // verus!
