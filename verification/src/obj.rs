//! The parts of a relocatable object.
use vstd::prelude::*;

verus! {

pub const STB_LOCAL: u8 = 0;

pub const STB_GLOBAL: u8 = 1;

pub const STT_NOTYPE: u8 = 0;

pub const STT_FUNC: u8 = 2;

pub const STT_SECTION: u8 = 3;

pub const SHN_UNDEF: u16 = 0;

/// The section index of the code.
pub const SEC_TEXT: u16 = 1;

/// The section index of the read-only data.
pub const SEC_RODATA: u16 = 2;

pub const R_X86_64_64: u32 = 1;

pub const R_X86_64_PLT32: u32 = 4;

/// A symbol.
#[derive(Debug)]
pub struct ObjSymbol {
    pub name: String,
    pub bind: u8,
    pub typ: u8,
    pub shndx: u16,
    pub value: u64,
    pub size: u64,
}

/// What an [`ObjSymbol`] holds.
pub struct SymbolView {
    pub name: Seq<char>,
    pub bind: u8,
    pub typ: u8,
    pub shndx: u16,
    pub value: u64,
    pub size: u64,
}

impl View for ObjSymbol {
    type V = SymbolView;

    open spec fn view(&self) -> SymbolView {
        SymbolView {
            name: self.name@,
            bind: self.bind,
            typ: self.typ,
            shndx: self.shndx,
            value: self.value,
            size: self.size,
        }
    }
}

/// What a symbol table holds.
pub open spec fn symbol_views(v: Seq<ObjSymbol>) -> Seq<SymbolView> {
    Seq::new(v.len(), |i: int| v[i]@)
}

/// A relocation.
#[derive(Clone, Copy, PartialEq, Eq, Structural, Debug)]
pub struct ObjReloc {
    pub offset: u64,
    pub sym: u32,
    pub typ: u32,
    pub addend: i64,
}

/// A relocatable object.
pub struct ObjectImage {
    /// The code.
    pub text: Vec<u8>,
    /// The read-only data.
    pub rodata: Vec<u8>,
    /// The symbols: the null symbol, then local ones, then global ones.
    pub symbols: Vec<ObjSymbol>,
    /// The relocations of the code.
    pub relocs: Vec<ObjReloc>,
    /// Whether a function defined elsewhere is declared.
    pub had_extern: bool,
    /// The names that C can call.
    pub exports: Vec<String>,
}

} // verus!
