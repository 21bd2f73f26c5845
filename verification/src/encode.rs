//! The x86-64 instruction encoder.
//!
//! [`Asm`] collects one function's machine code instruction by instruction.
//! Its model, [`AsmState`], is the list of instructions with their bytes and
//! fixups; every emitting method appends exactly one instruction to it.
//! [`Asm::finish`] optimizes the list, resolves the function's own jumps and
//! hands on the fixups that need the whole program.
use vstd::prelude::*;

use crate::link::LineMark;
use crate::lines::{
    LineNote, kept_marks, mark_is_of_a_statement, marks_are_few, settled_from, settled_instrs,
    surviving,
};
use crate::behavior::labels_once;
use crate::bytes::{
    bits32, bits64, copy_bytes, le32, le64, push_all, push_u32, push_u64, push_zeros, splice32,
    wrap32, wrap64, wrap8, write32, zeros,
};
use crate::mir_ids::FnId;
use crate::peephole::{
    Ins, Instr, all_ok, flat, flat_push, has_label, identity, jcc_ins, jmp_ins, last_label, linked,
    optimize, optimize_keeps, optimize_list, refers, views,
};
use crate::reg::{Gpr, Xmm};
use crate::runtime::RuntimeFn;

verus! {

/// A condition code.
#[derive(Clone, Copy, PartialEq, Eq, Structural, Debug)]
pub enum Cc {
    /// Equal / zero.
    E,
    /// Not equal / not zero.
    Ne,
    /// Signed less.
    L,
    /// Signed less or equal.
    Le,
    /// Signed greater.
    G,
    /// Signed greater or equal.
    Ge,
    /// Unsigned below.
    B,
    /// Unsigned below or equal.
    Be,
    /// Unsigned above.
    A,
    /// Unsigned above or equal.
    Ae,
    /// Overflow.
    O,
    /// Carry.
    C,
    /// Not sign: the sign bit is clear.
    Ns,
}

impl Cc {
    /// The four condition bits of the x86 `jcc`/`setcc` opcodes.
    pub open spec fn bits(self) -> u8 {
        match self {
            Cc::E => 0x4,
            Cc::Ne => 0x5,
            Cc::L => 0xC,
            Cc::Le => 0xE,
            Cc::G => 0xF,
            Cc::Ge => 0xD,
            Cc::B => 0x2,
            Cc::Be => 0x6,
            Cc::A => 0x7,
            Cc::Ae => 0x3,
            Cc::O => 0x0,
            Cc::C => 0x2,
            Cc::Ns => 0x9,
        }
    }

    /// The four condition bits of the x86 `jcc`/`setcc` opcodes.
    pub fn tttn(self) -> (r: u8)
        ensures
            r == self.bits(),
            r < 16,
    {
        match self {
            Cc::E => 0x4,
            Cc::Ne => 0x5,
            Cc::L => 0xC,
            Cc::Le => 0xE,
            Cc::G => 0xF,
            Cc::Ge => 0xD,
            Cc::B => 0x2,
            Cc::Be => 0x6,
            Cc::A => 0x7,
            Cc::Ae => 0x3,
            Cc::O => 0x0,
            Cc::C => 0x2,
            Cc::Ns => 0x9,
        }
    }

    /// The four condition bits of the AArch64 conditional instructions that
    /// test the same condition behind a compare.
    pub open spec fn cond_bits(self) -> u8 {
        match self {
            Cc::E => 0,
            Cc::Ne => 1,
            Cc::C => 2,
            Cc::Ae => 2,
            Cc::B => 3,
            Cc::Ns => 5,
            Cc::O => 6,
            Cc::A => 8,
            Cc::Be => 9,
            Cc::Ge => 10,
            Cc::L => 11,
            Cc::G => 12,
            Cc::Le => 13,
        }
    }

    /// The four condition bits of the AArch64 conditional instructions that
    /// test the same condition behind a compare.
    pub fn cond4(self) -> (r: u8)
        ensures
            r == self.cond_bits(),
            r < 14,
    {
        match self {
            Cc::E => 0,
            Cc::Ne => 1,
            Cc::C => 2,
            Cc::Ae => 2,
            Cc::B => 3,
            Cc::Ns => 5,
            Cc::O => 6,
            Cc::A => 8,
            Cc::Be => 9,
            Cc::Ge => 10,
            Cc::L => 11,
            Cc::G => 12,
            Cc::Le => 13,
        }
    }
}

/// A branch target within one function.
#[derive(Clone, Copy, PartialEq, Eq, Structural, Debug)]
pub struct LabelId(pub u32);

/// What a hole in the code refers to.
#[derive(Clone, Copy, PartialEq, Eq, Structural, Debug)]
pub enum FixupKind {
    /// A label of the same function (32-bit, relative).
    Local(LabelId),
    /// The entry of another function (32-bit, relative).
    Call(FnId),
    /// An offset in the read-only data (64-bit, absolute).
    Data(u32),
    /// A runtime routine (32-bit, relative).
    Runtime(RuntimeFn),
    /// An offset in the writable state segment (64-bit, absolute).
    State(u32),
}

/// A hole in the code, by the offset of its first byte.
#[derive(Clone, Copy, PartialEq, Eq, Structural, Debug)]
pub struct Fixup {
    /// The byte offset of the hole.
    pub at: usize,
    /// What goes there.
    pub kind: FixupKind,
}

/// What the peephole optimizer knows of an instruction.
#[derive(Clone, Copy, PartialEq, Eq, Structural, Debug)]
pub enum ITag {
    /// `mov dst, src`, 64 bits.
    MovRr { dst: Gpr, src: Gpr },
    /// `mov dst, src`, 32 bits: clears the upper half.
    MovRr32 { dst: Gpr, src: Gpr },
    /// `mov dst, imm`.
    MovRi { dst: Gpr, imm: i64 },
    /// `xor dst, dst`.
    XorSelf { dst: Gpr },
    /// `jmp label`.
    Jmp { label: LabelId },
    /// A conditional jump to `label`.
    Jcc { label: LabelId },
    /// The binding of `label`; no bytes.
    Label { label: LabelId },
    /// A call, return or system call: never reads the flags set before it.
    CtrlNoFlags,
    /// Anything else.
    Other,
}

/// The start of an instruction in the code.
#[derive(Clone, Copy, PartialEq, Eq, Structural, Debug)]
pub struct Mark {
    /// The offset of the first byte.
    pub at: usize,
    /// What the instruction is.
    pub tag: ITag,
}

// ---------------------------------------------------------------------------
//  Instruction forms
// ---------------------------------------------------------------------------

/// A REX prefix; `reg` and `rm` give its R and B bits.
pub open spec fn rex(w: bool, reg: u8, rm: u8) -> u8 {
    (0x40 + (if w {
        8int
    } else {
        0
    }) + (if reg >= 8 {
        4int
    } else {
        0
    }) + (if rm >= 8 {
        1int
    } else {
        0
    })) as u8
}

/// A ModRM byte.
pub open spec fn modrm(md: u8, reg: u8, rm: u8) -> u8 {
    (md * 64 + (reg % 8) * 8 + rm % 8) as u8
}

/// One byte.
pub open spec fn one(a: u8) -> Seq<u8> {
    seq![a]
}

/// Two bytes.
pub open spec fn two(a: u8, b: u8) -> Seq<u8> {
    seq![a, b]
}

/// A REX prefix without W, where a register needs one.
pub open spec fn orex(reg: u8, rm: u8) -> Seq<u8> {
    if reg >= 8 || rm >= 8 {
        seq![rex(false, reg, rm)]
    } else {
        Seq::empty()
    }
}

/// A displacement: one byte where it fits, else four.
pub open spec fn disp_bytes(disp: i32) -> Seq<u8> {
    if -128 <= disp <= 127 {
        seq![wrap8(disp as int)]
    } else {
        le32(wrap32(disp as int))
    }
}

/// The ModRM mode of a displacement.
pub open spec fn disp_mode(disp: i32) -> u8 {
    if -128 <= disp <= 127 {
        1
    } else {
        2
    }
}

/// The operand `[base + disp]`; `rsp` and `r12` as base take a SIB byte.
pub open spec fn mem(reg: u8, base: u8, disp: i32) -> Seq<u8> {
    seq![modrm(disp_mode(disp), reg, base)] + (if base % 8 == 4 {
        seq![0x24u8]
    } else {
        Seq::empty()
    }) + disp_bytes(disp)
}

/// `REX.W op ModRM` on two registers.
pub open spec fn wrr(op: u8, reg: u8, rm: u8) -> Seq<u8> {
    seq![rex(true, reg, rm), op, modrm(3, reg, rm)]
}

/// `REX.W 0F op ModRM` on two registers.
pub open spec fn wrr0f(op: u8, reg: u8, rm: u8) -> Seq<u8> {
    seq![rex(true, reg, rm), 0x0F, op, modrm(3, reg, rm)]
}

/// `[REX] op ModRM` on two registers, 32 bits.
pub open spec fn orr(op: u8, reg: u8, rm: u8) -> Seq<u8> {
    orex(reg, rm) + seq![op, modrm(3, reg, rm)]
}

/// `REX.W op ModRM imm32`.
pub open spec fn wrr_i32(op: u8, reg: u8, rm: u8, imm: i32) -> Seq<u8> {
    wrr(op, reg, rm) + le32(wrap32(imm as int))
}

/// `REX.W op ModRM imm8`.
pub open spec fn wrr_i8(op: u8, reg: u8, rm: u8, imm: u8) -> Seq<u8> {
    wrr(op, reg, rm).push(imm)
}

/// `REX.W op` on `[rbp + disp]`.
pub open spec fn wrbp(op: u8, reg: u8, disp: i32) -> Seq<u8> {
    seq![rex(true, reg, 0), op] + mem(reg, 5, disp)
}

/// `REX.W op` on `[base + disp]`.
pub open spec fn wmem(op: u8, reg: u8, base: u8, disp: i32) -> Seq<u8> {
    seq![rex(true, reg, base), op] + mem(reg, base, disp)
}

/// `REX.W 0F op` on `[base + disp]`.
pub open spec fn wmem0f(op: u8, reg: u8, base: u8, disp: i32) -> Seq<u8> {
    seq![rex(true, reg, base), 0x0F, op] + mem(reg, base, disp)
}

/// `[REX] op` on `[base + disp]`, 32 bits.
pub open spec fn omem(op: u8, reg: u8, base: u8, disp: i32) -> Seq<u8> {
    orex(reg, base) + seq![op] + mem(reg, base, disp)
}

/// The byte store `mov [base + disp], reg8`; every register from `spl` on takes
/// a REX prefix.
pub open spec fn store8(reg: u8, base: u8, disp: i32) -> Seq<u8> {
    (if reg >= 4 || base >= 8 {
        seq![rex(false, reg, base)]
    } else {
        Seq::empty()
    }) + seq![0x88u8] + mem(reg, base, disp)
}

/// The 16-bit store `mov [base + disp], reg16`.
pub open spec fn store16(reg: u8, base: u8, disp: i32) -> Seq<u8> {
    seq![0x66u8] + omem(0x89, reg, base, disp)
}

/// `F2 [REX] 0F op` on `[base + disp]`.
pub open spec fn sse_mem(op: u8, reg: u8, base: u8, disp: i32) -> Seq<u8> {
    seq![0xF2u8] + orex(reg, base) + seq![0x0Fu8, op] + mem(reg, base, disp)
}

/// `pfx [REX] 0F op ModRM` on two registers.
pub open spec fn sse_rr(pfx: u8, op: u8, reg: u8, rm: u8) -> Seq<u8> {
    seq![pfx] + orex(reg, rm) + seq![0x0Fu8, op, modrm(3, reg, rm)]
}

/// `pfx REX.W 0F op ModRM` on two registers.
pub open spec fn sse_wrr(pfx: u8, op: u8, reg: u8, rm: u8) -> Seq<u8> {
    seq![pfx, rex(true, reg, rm), 0x0F, op, modrm(3, reg, rm)]
}

/// The head of `mov reg, imm64`.
pub open spec fn movabs(reg: u8) -> Seq<u8> {
    seq![rex(true, 0, reg), (0xB8 + reg % 8) as u8]
}

/// `[REX] op+reg`.
pub open spec fn oreg(op: u8, reg: u8) -> Seq<u8> {
    orex(0, reg) + seq![(op + reg % 8) as u8]
}

/// `setcc al`.
pub open spec fn setcc(cc: Cc) -> Seq<u8> {
    seq![0x0F, (0x90 + cc.bits()) as u8, 0xC0]
}

/// `mov dst, imm`: sign-extended from 32 bits where that fits, else 64 bits.
pub open spec fn mov_ri_bytes(dst: Gpr, imm: i64) -> Seq<u8> {
    if i32::MIN <= imm <= i32::MAX {
        wrr(0xC7, 0, dst.code()) + le32(wrap32(imm as int))
    } else {
        movabs(dst.code()) + le64(wrap64(imm as int))
    }
}

/// `jmp rel32` with an open target.
pub open spec fn jmp_bytes() -> Seq<u8> {
    one(0xE9) + zeros(4)
}

/// `jcc rel32` with an open target.
pub open spec fn jcc_bytes(tttn: u8) -> Seq<u8> {
    two(0x0F, (0x80 + tttn) as u8) + zeros(4)
}

/// The tag of `xor dst, src`.
pub open spec fn xor_tag(dst: Gpr, src: Gpr) -> ITag {
    if dst == src {
        ITag::XorSelf { dst }
    } else {
        ITag::Other
    }
}

/// How many bytes a hole takes.
pub open spec fn hole_width(kind: FixupKind) -> nat {
    match kind {
        FixupKind::Data(_) | FixupKind::State(_) => 8,
        _ => 4,
    }
}

/// Whether the hole of `i` is at its end and all zero, behind the opcode of a call where it is
/// one of a call.
#[verifier::opaque]
pub open spec fn hole_open(i: Ins) -> bool {
    let at = i.fixups[0].0 as int;
    let kind = i.fixups[0].1;
    &&& at + hole_width(kind) == i.bytes.len()
    &&& forall|j: int| at <= j < i.bytes.len() ==> #[trigger] i.bytes[j] == 0
    &&& kind is Call || kind is Runtime ==> i.bytes[at - 1] == 0xE8
}

/// Whether the bytes and fixups of `i` are those that its tag promises.
pub open spec fn ins_ok(i: Ins) -> bool {
    &&& i.fixups.len() <= 1
    &&& i.fixups.len() == 1 ==> 1 <= i.fixups[0].0 && i.fixups[0].0 + hole_width(i.fixups[0].1)
        <= i.bytes.len()
    &&& i.fixups.len() == 1 ==> hole_open(i)
    &&& tag_ok(i)
}

/// Whether the bytes and fixups of `i` are those of its tag.
pub open spec fn tag_ok(i: Ins) -> bool {
    match i.tag {
        ITag::MovRr { dst, src } => i.bytes == wrr(0x89, src.code(), dst.code()) && i.fixups.len()
            == 0,
        ITag::MovRr32 { dst, src } => i.bytes == orr(0x89, src.code(), dst.code())
            && i.fixups.len() == 0,
        ITag::MovRi { dst, imm } => i.bytes == mov_ri_bytes(dst, imm) && i.fixups.len() == 0,
        ITag::XorSelf { dst } => i.bytes == wrr(0x31, dst.code(), dst.code()) && i.fixups.len()
            == 0,
        ITag::Jmp { label } => i.bytes == jmp_bytes() && i.fixups == seq![
            (1usize, FixupKind::Local(label)),
        ],
        ITag::Jcc { label } => i.bytes == jcc_bytes((i.bytes[1] % 16) as u8) && i.fixups == seq![
            (2usize, FixupKind::Local(label)),
        ],
        ITag::Label { .. } => i.bytes.len() == 0 && i.fixups.len() == 0,
        _ => true,
    }
}

/// A hole behind the head of an instruction is open.
pub(crate) proof fn hole_is_open(tag: ITag, head: Seq<u8>, width: nat, kind: FixupKind)
    requires
        width == hole_width(kind),
        1 <= head.len() <= usize::MAX,
        kind is Call || kind is Runtime ==> head.last() == 0xE8,
    ensures
        hole_open(hole_ins(tag, head, width, kind)),
{
    reveal(hole_open);
}

/// A jump is encoded as its tag says.
pub proof fn jmp_ins_ok(l: LabelId)
    ensures
        ins_ok(jmp_ins(l)),
{
    hole_is_open(ITag::Jmp { label: l }, one(0xE9), 4, FixupKind::Local(l));
}

/// A conditional jump is encoded as its tag says.
pub proof fn jcc_ins_ok(tttn: u8, l: LabelId)
    requires
        tttn < 16,
    ensures
        ins_ok(jcc_ins(tttn, l)),
        jcc_bytes(tttn).len() == 6,
{
    assert(jcc_bytes(tttn)[1] == 0x80 + tttn);
    hole_is_open(ITag::Jcc { label: l }, two(0x0F, (0x80 + tttn) as u8), 4, FixupKind::Local(l));
}

fn rex_byte(w: bool, reg: u8, rm: u8) -> (r: u8)
    ensures
        r == rex(w, reg, rm),
{
    0x40 + (if w {
        8u8
    } else {
        0
    }) + (if reg >= 8 {
        4u8
    } else {
        0
    }) + (if rm >= 8 {
        1u8
    } else {
        0
    })
}

fn modrm_byte(md: u8, reg: u8, rm: u8) -> (r: u8)
    requires
        md < 4,
    ensures
        r == modrm(md, reg, rm),
{
    md * 64 + (reg % 8) * 8 + rm % 8
}

fn one_vec(a: u8) -> (v: Vec<u8>)
    ensures
        v@ == one(a),
{
    let mut v: Vec<u8> = Vec::new();
    v.push(a);
    assert(v@ =~= one(a));
    v
}

fn two_vec(a: u8, b: u8) -> (v: Vec<u8>)
    ensures
        v@ == two(a, b),
{
    let mut v: Vec<u8> = Vec::new();
    v.push(a);
    v.push(b);
    assert(v@ =~= two(a, b));
    v
}

fn push_orex(v: &mut Vec<u8>, reg: u8, rm: u8)
    ensures
        final(v)@ == old(v)@ + orex(reg, rm),
{
    if reg >= 8 || rm >= 8 {
        v.push(rex_byte(false, reg, rm));
    }
    assert(v@ =~= old(v)@ + orex(reg, rm));
}

fn push_mem(v: &mut Vec<u8>, reg: u8, base: u8, disp: i32)
    ensures
        final(v)@ == old(v)@ + mem(reg, base, disp),
{
    let short = -128 <= disp && disp <= 127;
    let md: u8 = if short {
        1
    } else {
        2
    };
    v.push(modrm_byte(md, reg, base));
    if base % 8 == 4 {
        v.push(0x24);
    }
    if short {
        let b: u8 = if disp >= 0 {
            disp as u8
        } else {
            (disp + 256) as u8
        };
        v.push(b);
    } else {
        push_u32(v, bits32(disp));
    }
    assert(v@ =~= old(v)@ + mem(reg, base, disp));
}

/// The bytes of [`wrr`].
pub(crate) fn wrr_vec(op: u8, reg: u8, rm: u8) -> (v: Vec<u8>)
    ensures
        v@ == wrr(op, reg, rm),
{
    let mut v: Vec<u8> = Vec::new();
    v.push(rex_byte(true, reg, rm));
    v.push(op);
    v.push(modrm_byte(3, reg, rm));
    assert(v@ =~= wrr(op, reg, rm));
    v
}

fn wrr0f_vec(op: u8, reg: u8, rm: u8) -> (v: Vec<u8>)
    ensures
        v@ == wrr0f(op, reg, rm),
{
    let mut v: Vec<u8> = Vec::new();
    v.push(rex_byte(true, reg, rm));
    v.push(0x0F);
    v.push(op);
    v.push(modrm_byte(3, reg, rm));
    assert(v@ =~= wrr0f(op, reg, rm));
    v
}

fn orr_vec(op: u8, reg: u8, rm: u8) -> (v: Vec<u8>)
    ensures
        v@ == orr(op, reg, rm),
{
    let mut v: Vec<u8> = Vec::new();
    push_orex(&mut v, reg, rm);
    v.push(op);
    v.push(modrm_byte(3, reg, rm));
    assert(v@ =~= orr(op, reg, rm));
    v
}

fn wrr_i32_vec(op: u8, reg: u8, rm: u8, imm: i32) -> (v: Vec<u8>)
    ensures
        v@ == wrr_i32(op, reg, rm, imm),
{
    let mut v = wrr_vec(op, reg, rm);
    push_u32(&mut v, bits32(imm));
    v
}

fn wrr_i8_vec(op: u8, reg: u8, rm: u8, imm: u8) -> (v: Vec<u8>)
    ensures
        v@ == wrr_i8(op, reg, rm, imm),
{
    let mut v = wrr_vec(op, reg, rm);
    v.push(imm);
    v
}

fn wrbp_vec(op: u8, reg: u8, disp: i32) -> (v: Vec<u8>)
    ensures
        v@ == wrbp(op, reg, disp),
{
    let mut v = two_vec(rex_byte(true, reg, 0), op);
    push_mem(&mut v, reg, 5, disp);
    v
}

fn wmem_vec(op: u8, reg: u8, base: u8, disp: i32) -> (v: Vec<u8>)
    ensures
        v@ == wmem(op, reg, base, disp),
{
    let mut v = two_vec(rex_byte(true, reg, base), op);
    push_mem(&mut v, reg, base, disp);
    v
}

fn wmem0f_vec(op: u8, reg: u8, base: u8, disp: i32) -> (v: Vec<u8>)
    ensures
        v@ == wmem0f(op, reg, base, disp),
{
    let mut v = two_vec(rex_byte(true, reg, base), 0x0F);
    v.push(op);
    assert(v@ =~= seq![rex(true, reg, base), 0x0F, op]);
    push_mem(&mut v, reg, base, disp);
    v
}

fn omem_vec(op: u8, reg: u8, base: u8, disp: i32) -> (v: Vec<u8>)
    ensures
        v@ == omem(op, reg, base, disp),
{
    let mut v: Vec<u8> = Vec::new();
    push_orex(&mut v, reg, base);
    v.push(op);
    assert(v@ =~= orex(reg, base) + seq![op]);
    push_mem(&mut v, reg, base, disp);
    v
}

fn store8_vec(reg: u8, base: u8, disp: i32) -> (v: Vec<u8>)
    ensures
        v@ == store8(reg, base, disp),
{
    let mut v: Vec<u8> = Vec::new();
    if reg >= 4 || base >= 8 {
        v.push(rex_byte(false, reg, base));
    }
    v.push(0x88);
    push_mem(&mut v, reg, base, disp);
    assert(v@ =~= store8(reg, base, disp));
    v
}

fn store16_vec(reg: u8, base: u8, disp: i32) -> (v: Vec<u8>)
    ensures
        v@ == store16(reg, base, disp),
{
    let mut v = one_vec(0x66);
    push_orex(&mut v, reg, base);
    v.push(0x89);
    push_mem(&mut v, reg, base, disp);
    assert(v@ =~= store16(reg, base, disp));
    v
}

fn sse_mem_vec(op: u8, reg: u8, base: u8, disp: i32) -> (v: Vec<u8>)
    ensures
        v@ == sse_mem(op, reg, base, disp),
{
    let mut v = one_vec(0xF2);
    push_orex(&mut v, reg, base);
    v.push(0x0F);
    v.push(op);
    push_mem(&mut v, reg, base, disp);
    assert(v@ =~= sse_mem(op, reg, base, disp));
    v
}

fn sse_rr_vec(pfx: u8, op: u8, reg: u8, rm: u8) -> (v: Vec<u8>)
    ensures
        v@ == sse_rr(pfx, op, reg, rm),
{
    let mut v = one_vec(pfx);
    push_orex(&mut v, reg, rm);
    v.push(0x0F);
    v.push(op);
    v.push(modrm_byte(3, reg, rm));
    assert(v@ =~= sse_rr(pfx, op, reg, rm));
    v
}

fn sse_wrr_vec(pfx: u8, op: u8, reg: u8, rm: u8) -> (v: Vec<u8>)
    ensures
        v@ == sse_wrr(pfx, op, reg, rm),
{
    let mut v = two_vec(pfx, rex_byte(true, reg, rm));
    v.push(0x0F);
    v.push(op);
    v.push(modrm_byte(3, reg, rm));
    assert(v@ =~= sse_wrr(pfx, op, reg, rm));
    v
}

fn movabs_vec(reg: u8) -> (v: Vec<u8>)
    ensures
        v@ == movabs(reg),
{
    two_vec(rex_byte(true, 0, reg), 0xB8 + reg % 8)
}

fn oreg_vec(op: u8, reg: u8) -> (v: Vec<u8>)
    requires
        op < 0xF0,
    ensures
        v@ == oreg(op, reg),
{
    let mut v: Vec<u8> = Vec::new();
    push_orex(&mut v, 0, reg);
    v.push(op + reg % 8);
    assert(v@ =~= oreg(op, reg));
    v
}

fn setcc_vec(cc: Cc) -> (v: Vec<u8>)
    ensures
        v@ == setcc(cc),
{
    let mut v = two_vec(0x0F, 0x90 + cc.tttn());
    v.push(0xC0);
    assert(v@ =~= setcc(cc));
    v
}

fn mov_ri_vec(dst: Gpr, imm: i64) -> (v: Vec<u8>)
    ensures
        v@ == mov_ri_bytes(dst, imm),
{
    if -0x8000_0000 <= imm && imm <= 0x7FFF_FFFF {
        let mut v = wrr_vec(0xC7, 0, dst.num());
        push_u32(&mut v, bits32(imm as i32));
        v
    } else {
        let mut v = movabs_vec(dst.num());
        push_u64(&mut v, bits64(imm));
        v
    }
}

// ---------------------------------------------------------------------------
//  The model
// ---------------------------------------------------------------------------

/// What an [`Asm`] holds.
pub struct AsmState {
    /// The instructions so far.
    pub instrs: Seq<Ins>,
    /// The offset each label was bound at, by label number.
    pub labels: Seq<Option<usize>>,
    /// Whether the instruction list has been optimized already.
    pub sealed: bool,
    /// The bytes that optimizing saved.
    pub saved: nat,
    /// Whether finishing optimizes.
    pub on: bool,
}

/// An instruction with a hole of `width` bytes behind `head`.
pub open spec fn hole_ins(tag: ITag, head: Seq<u8>, width: nat, kind: FixupKind) -> Ins {
    Ins { tag, bytes: head + zeros(width), fixups: seq![(head.len() as usize, kind)] }
}

/// The offset of the `i`-th instruction.
pub open spec fn offset(s: Seq<Ins>, i: int) -> nat {
    flat(s.take(i)).len()
}

/// The offset at which `l` was last bound.
pub open spec fn label_offset(s: Seq<Ins>, l: LabelId) -> Option<nat> {
    match last_label(s, l) {
        Some(i) => Some(offset(s, i)),
        None => None,
    }
}

/// The starts of all instructions.
pub open spec fn marks_of(s: Seq<Ins>) -> Seq<Mark>
    decreases s.len(),
{
    if s.len() == 0 {
        Seq::empty()
    } else {
        marks_of(s.drop_last()).push(
            Mark { at: flat(s.drop_last()).len() as usize, tag: s.last().tag },
        )
    }
}

/// Fixups of one instruction, moved to where the instruction stands.
pub open spec fn placed(f: Seq<(usize, FixupKind)>, base: nat) -> Seq<Fixup> {
    Seq::new(f.len(), |k: int| Fixup { at: (base + f[k].0) as usize, kind: f[k].1 })
}

/// The fixups of all instructions.
pub open spec fn fixups_of(s: Seq<Ins>) -> Seq<Fixup>
    decreases s.len(),
{
    if s.len() == 0 {
        Seq::empty()
    } else {
        fixups_of(s.drop_last()) + placed(s.last().fixups, flat(s.drop_last()).len())
    }
}

/// `labels` after binding every label of `s` where it stands.
pub open spec fn rebind(labels: Seq<Option<usize>>, s: Seq<Ins>) -> Seq<Option<usize>>
    decreases s.len(),
{
    if s.len() == 0 {
        labels
    } else {
        let before = rebind(labels, s.drop_last());
        match s.last().tag {
            ITag::Label { label } => before.update(
                label.0 as int,
                Some(flat(s.drop_last()).len() as usize),
            ),
            _ => before,
        }
    }
}

/// The displacement that sends the branch with its hole at `at` to `target`.
pub open spec fn rel32(target: nat, at: nat) -> u32 {
    wrap32(target - (at + 4))
}

/// `code` with the holes of `fx` that refer to labels of `s` filled in.
pub open spec fn patched(s: Seq<Ins>, code: Seq<u8>, fx: Seq<Fixup>) -> Seq<u8>
    decreases fx.len(),
{
    if fx.len() == 0 {
        code
    } else {
        let before = patched(s, code, fx.drop_last());
        match fx.last().kind {
            FixupKind::Local(l) => splice32(
                before,
                fx.last().at as int,
                rel32(label_offset(s, l).unwrap(), fx.last().at as nat),
            ),
            _ => before,
        }
    }
}

/// The fixups that do not refer to labels of the same function.
pub open spec fn outer(fx: Seq<Fixup>) -> Seq<Fixup>
    decreases fx.len(),
{
    if fx.len() == 0 {
        fx
    } else if fx.last().kind is Local {
        outer(fx.drop_last())
    } else {
        outer(fx.drop_last()).push(fx.last())
    }
}

/// Whether fixups stand in order and none reaches into the next.
pub open spec fn apart(fx: Seq<Fixup>) -> bool {
    forall|j: int, k: int|
        0 <= j < k < fx.len() ==> (#[trigger] fx[j]).at + hole_width(fx[j].kind) <= (
        #[trigger] fx[k]).at
}

/// The finished code of an instruction list.
pub open spec fn linked_code(s: Seq<Ins>) -> Seq<u8> {
    patched(s, flat(s), fixups_of(s))
}

impl AsmState {
    /// An empty function.
    pub open spec fn empty(on: bool) -> AsmState {
        AsmState { instrs: Seq::empty(), labels: Seq::empty(), sealed: false, saved: 0, on }
    }

    /// The code bytes so far.
    pub open spec fn code(self) -> Seq<u8> {
        flat(self.instrs)
    }

    /// One more instruction.
    pub open spec fn put(self, tag: ITag, bytes: Seq<u8>) -> AsmState {
        AsmState {
            instrs: self.instrs.push(Ins { tag, bytes, fixups: Seq::empty() }),
            ..self
        }
    }

    /// One more instruction, with a hole at its end.
    pub open spec fn put_hole(
        self,
        tag: ITag,
        head: Seq<u8>,
        width: nat,
        kind: FixupKind,
    ) -> AsmState {
        AsmState { instrs: self.instrs.push(hole_ins(tag, head, width, kind)), ..self }
    }

    /// `n` fresh labels, and no others.
    pub open spec fn reserve_labels(self, n: nat) -> AsmState {
        AsmState { labels: Seq::new(n, |i: int| None), ..self }
    }

    /// One more label.
    pub open spec fn new_label(self) -> AsmState {
        AsmState { labels: self.labels.push(None), ..self }
    }

    /// `label` bound here.
    pub open spec fn bind(self, label: LabelId) -> AsmState {
        AsmState {
            instrs: self.instrs.push(
                Ins { tag: ITag::Label { label }, bytes: Seq::empty(), fixups: Seq::empty() },
            ),
            labels: self.labels.update(label.0 as int, Some(self.code().len() as usize)),
            ..self
        }
    }

    /// Raw bytes as one instruction.
    pub open spec fn emit_bytes(self, bytes: Seq<u8>) -> AsmState {
        self.put(ITag::Other, bytes)
    }

    /// Whether every recorded offset is that of the label's last binding.
    pub open spec fn labels_ok(self) -> bool {
        forall|l: LabelId|
            l.0 < self.labels.len() && (#[trigger] self.labels[l.0 as int]) is Some
                ==> label_offset(self.instrs, l) == Some(self.labels[l.0 as int].unwrap() as nat)
    }

    /// Whether every bound label is in the label table.
    pub open spec fn bindings_in_table(self) -> bool {
        forall|l: LabelId| #[trigger] has_label(self.instrs, l) ==> l.0 < self.labels.len()
    }

    /// Whether every label that an instruction refers to has been bound.
    pub open spec fn targets_bound(self) -> bool {
        forall|i: int, l: LabelId|
            0 <= i < self.instrs.len() && #[trigger] refers(self.instrs[i], l) ==> l.0
                < self.labels.len() && self.labels[l.0 as int] is Some
    }

    /// Whether the label numbers have not run out.
    pub open spec fn numbered(self) -> bool {
        self.labels.len() <= 0x1_0000_0000
    }

    /// Whether every label that an instruction refers to or binds is in the label
    /// table, and none is bound twice.
    #[verifier::opaque]
    pub open spec fn tidy(self) -> bool {
        &&& self.bindings_in_table()
        &&& self.numbered() ==> labels_once(self.instrs)
        &&& self.numbered() ==> forall|l: LabelId| #[trigger]
            has_label(self.instrs, l) ==> self.labels[l.0 as int] is Some
        &&& forall|i: int, l: LabelId|
            0 <= i < self.instrs.len() && #[trigger] refers(self.instrs[i], l) ==> l.0
                < self.labels.len()
    }

    /// The number that the next label gets.
    pub open spec fn fresh(self) -> LabelId {
        LabelId((self.labels.len() % 0x1_0000_0000) as u32)
    }

    /// The optimized function.
    pub open spec fn peephole(self) -> AsmState {
        if self.sealed || self.instrs.len() == 0 || !self.on {
            self
        } else {
            let t = optimize(self.instrs);
            AsmState {
                instrs: t,
                labels: rebind(self.labels, t),
                sealed: t.len() > 0,
                saved: (flat(self.instrs).len() - flat(t).len()) as nat,
                on: self.on,
            }
        }
    }

    /// `mov dst, src` (register to register): `REX.W 89 /r`, with `src` in the reg field
    /// and `dst` in the rm field (the `MOV r/m64, r64` direction).
    #[verifier::opaque]
    pub open spec fn mov_rr(self, dst: Gpr, src: Gpr) -> AsmState {
        self.put(ITag::MovRr { dst, src }, wrr(0x89, src.code(), dst.code()))
    }

    /// `mov dst32, src32` (32-bit operand, **no** `REX.W`): `89 /r`.
    #[verifier::opaque]
    pub open spec fn mov_rr32(self, dst: Gpr, src: Gpr) -> AsmState {
        self.put(ITag::MovRr32 { dst, src }, orr(0x89, src.code(), dst.code()))
    }

    /// `mov dst, imm`: loads a 64-bit immediate.
    #[verifier::opaque]
    pub open spec fn mov_ri(self, dst: Gpr, imm: i64) -> AsmState {
        self.put(ITag::MovRi { dst, imm }, mov_ri_bytes(dst, imm))
    }

    /// `mov dst, [rbp + disp]` (load a stack slot): `REX.W 8B /r`.
    #[verifier::opaque]
    pub open spec fn mov_load(self, dst: Gpr, disp: i32) -> AsmState {
        self.put(ITag::Other, wrbp(0x8B, dst.code(), disp))
    }

    /// `lea dst, [rbp + disp]` (address of a stack slot): `REX.W 8D /r`.
    #[verifier::opaque]
    pub open spec fn lea_rbp(self, dst: Gpr, disp: i32) -> AsmState {
        self.put(ITag::Other, wrbp(0x8D, dst.code(), disp))
    }

    /// `mov [rbp + disp], src` (store a stack slot): `REX.W 89 /r`.
    #[verifier::opaque]
    pub open spec fn mov_store(self, disp: i32, src: Gpr) -> AsmState {
        self.put(ITag::Other, wrbp(0x89, src.code(), disp))
    }

    /// `lea dst, [base + disp]` (address of an arbitrary memory operand): `REX.W 8D /r`.
    #[verifier::opaque]
    pub open spec fn lea_mem(self, dst: Gpr, base: Gpr, disp: i32) -> AsmState {
        self.put(ITag::Other, wmem(0x8D, dst.code(), base.code(), disp))
    }

    /// `mov dst, [base + disp]` (64-bit load): `REX.W 8B /r`.
    #[verifier::opaque]
    pub open spec fn mov_load_mem(self, dst: Gpr, base: Gpr, disp: i32) -> AsmState {
        self.put(ITag::Other, wmem(0x8B, dst.code(), base.code(), disp))
    }

    /// `movsxd dst, [base + disp]` (32-bit sign-extending load): `REX.W 63 /r`.
    #[verifier::opaque]
    pub open spec fn movsxd_mem(self, dst: Gpr, base: Gpr, disp: i32) -> AsmState {
        self.put(ITag::Other, wmem(0x63, dst.code(), base.code(), disp))
    }

    /// `mov [base + disp], src` (64-bit store): `REX.W 89 /r`.
    #[verifier::opaque]
    pub open spec fn mov_store_mem(self, base: Gpr, disp: i32, src: Gpr) -> AsmState {
        self.put(ITag::Other, wmem(0x89, src.code(), base.code(), disp))
    }

    /// `movzx dst, byte [base + disp]`: `REX.W 0F B6 /r` (zero-extend a byte).
    #[verifier::opaque]
    pub open spec fn movzx8_mem(self, dst: Gpr, base: Gpr, disp: i32) -> AsmState {
        self.put(ITag::Other, wmem0f(0xB6, dst.code(), base.code(), disp))
    }

    /// `movsx dst, byte [base + disp]`: `REX.W 0F BE /r` (sign-extend a byte).
    #[verifier::opaque]
    pub open spec fn movsx8_mem(self, dst: Gpr, base: Gpr, disp: i32) -> AsmState {
        self.put(ITag::Other, wmem0f(0xBE, dst.code(), base.code(), disp))
    }

    /// `movzx dst, word [base + disp]`: `REX.W 0F B7 /r` (zero-extend a word).
    #[verifier::opaque]
    pub open spec fn movzx16_mem(self, dst: Gpr, base: Gpr, disp: i32) -> AsmState {
        self.put(ITag::Other, wmem0f(0xB7, dst.code(), base.code(), disp))
    }

    /// `movsx dst, word [base + disp]`: `REX.W 0F BF /r` (sign-extend a word).
    #[verifier::opaque]
    pub open spec fn movsx16_mem(self, dst: Gpr, base: Gpr, disp: i32) -> AsmState {
        self.put(ITag::Other, wmem0f(0xBF, dst.code(), base.code(), disp))
    }

    /// `mov dst32, [base + disp]` (32-bit load, **no** `REX.W`): `8B /r`.
    #[verifier::opaque]
    pub open spec fn mov_load32_mem(self, dst: Gpr, base: Gpr, disp: i32) -> AsmState {
        self.put(ITag::Other, omem(0x8B, dst.code(), base.code(), disp))
    }

    /// `mov byte [base + disp], src8`: `88 /r` — stores the low byte of `src`.
    #[verifier::opaque]
    pub open spec fn mov_store8_mem(self, base: Gpr, disp: i32, src: Gpr) -> AsmState {
        self.put(ITag::Other, store8(src.code(), base.code(), disp))
    }

    /// `mov word [base + disp], src16`: `66 89 /r` (the `66` operand-size prefix selects a
    /// 16-bit store of the low word of `src`).
    #[verifier::opaque]
    pub open spec fn mov_store16_mem(self, base: Gpr, disp: i32, src: Gpr) -> AsmState {
        self.put(ITag::Other, store16(src.code(), base.code(), disp))
    }

    /// `mov dword [base + disp], src32`: `89 /r` (no `REX.W`) — 32-bit store of the low
    /// dword of `src`.
    #[verifier::opaque]
    pub open spec fn mov_store32_mem(self, base: Gpr, disp: i32, src: Gpr) -> AsmState {
        self.put(ITag::Other, omem(0x89, src.code(), base.code(), disp))
    }

    /// `rep movsb`: `F3 A4` — copy RCX bytes from `[rsi]` to `[rdi]`, advancing both.
    #[verifier::opaque]
    pub open spec fn rep_movsb(self) -> AsmState {
        self.put(ITag::Other, two(0xF3, 0xA4))
    }

    /// `movsd dst, [base + disp]` (load an f64): `F2 0F 10 /r`.
    #[verifier::opaque]
    pub open spec fn movsd_load(self, dst: Xmm, base: Gpr, disp: i32) -> AsmState {
        self.put(ITag::Other, sse_mem(0x10, dst.code(), base.code(), disp))
    }

    /// `movsd [base + disp], src` (store an f64): `F2 0F 11 /r`.
    #[verifier::opaque]
    pub open spec fn movsd_store(self, base: Gpr, disp: i32, src: Xmm) -> AsmState {
        self.put(ITag::Other, sse_mem(0x11, src.code(), base.code(), disp))
    }

    /// `movsd dst, src` (xmm→xmm copy): `F2 0F 10 /r` with a register-direct ModRM (`dst`
    /// in reg, `src` in rm).
    #[verifier::opaque]
    pub open spec fn movsd_rr(self, dst: Xmm, src: Xmm) -> AsmState {
        self.put(ITag::Other, sse_rr(0xF2, 0x10, dst.code(), src.code()))
    }

    /// `addsd dst, src`: `F2 0F 58 /r`.
    #[verifier::opaque]
    pub open spec fn addsd(self, dst: Xmm, src: Xmm) -> AsmState {
        self.put(ITag::Other, sse_rr(0xF2, 0x58, dst.code(), src.code()))
    }

    /// `subsd dst, src`: `F2 0F 5C /r`.
    #[verifier::opaque]
    pub open spec fn subsd(self, dst: Xmm, src: Xmm) -> AsmState {
        self.put(ITag::Other, sse_rr(0xF2, 0x5C, dst.code(), src.code()))
    }

    /// `mulsd dst, src`: `F2 0F 59 /r`.
    #[verifier::opaque]
    pub open spec fn mulsd(self, dst: Xmm, src: Xmm) -> AsmState {
        self.put(ITag::Other, sse_rr(0xF2, 0x59, dst.code(), src.code()))
    }

    /// `divsd dst, src`: `F2 0F 5E /r`.
    #[verifier::opaque]
    pub open spec fn divsd(self, dst: Xmm, src: Xmm) -> AsmState {
        self.put(ITag::Other, sse_rr(0xF2, 0x5E, dst.code(), src.code()))
    }

    /// `ucomisd dst, src`: `66 0F 2E /r` — an ordered f64 compare that sets the ZF/PF/CF
    /// flags a `setcc`/`jcc` then reads.
    #[verifier::opaque]
    pub open spec fn ucomisd(self, dst: Xmm, src: Xmm) -> AsmState {
        self.put(ITag::Other, sse_rr(0x66, 0x2E, dst.code(), src.code()))
    }

    /// `movq dst, src` (GPR→xmm bit-copy): `66 REX.W 0F 6E /r` — moves the raw 64-bit bit
    /// pattern of GPR `src` into the low quadword of xmm `dst` (zeroing the high quadword).
    #[verifier::opaque]
    pub open spec fn movq_xmm_r64(self, dst: Xmm, src: Gpr) -> AsmState {
        self.put(ITag::Other, sse_wrr(0x66, 0x6E, dst.code(), src.code()))
    }

    /// `cvtsi2sd dst, src` (int→f64): `F2 REX.W 0F 2A /r` — converts the 64-bit GPR `src`
    /// to a double in xmm `dst`.
    #[verifier::opaque]
    pub open spec fn cvtsi2sd(self, dst: Xmm, src: Gpr) -> AsmState {
        self.put(ITag::Other, sse_wrr(0xF2, 0x2A, dst.code(), src.code()))
    }

    /// `cvttsd2si dst, src` (f64→int, truncating): `F2 REX.W 0F 2C /r` — converts the
    /// double in xmm `src` to a 64-bit GPR `dst`, rounding toward zero.
    #[verifier::opaque]
    pub open spec fn cvttsd2si(self, dst: Gpr, src: Xmm) -> AsmState {
        self.put(ITag::Other, sse_wrr(0xF2, 0x2C, dst.code(), src.code()))
    }

    /// `mov dst, imm64` whose 8 immediate bytes are a `.rodata` pointer hole.
    #[verifier::opaque]
    pub open spec fn mov_ri_data(self, dst: Gpr, data_off: u32) -> AsmState {
        self.put_hole(ITag::Other, movabs(dst.code()), 8, FixupKind::Data(data_off))
    }

    /// `mov dst, imm64` whose 8 immediate bytes are a writable-state pointer hole.
    #[verifier::opaque]
    pub open spec fn mov_ri_state(self, dst: Gpr, state_off: u32) -> AsmState {
        self.put_hole(ITag::Other, movabs(dst.code()), 8, FixupKind::State(state_off))
    }

    /// `add dst, src`: `REX.W 01 /r`.
    #[verifier::opaque]
    pub open spec fn add_rr(self, dst: Gpr, src: Gpr) -> AsmState {
        self.put(ITag::Other, wrr(0x01, src.code(), dst.code()))
    }

    /// `sub dst, src`: `REX.W 29 /r`.
    #[verifier::opaque]
    pub open spec fn sub_rr(self, dst: Gpr, src: Gpr) -> AsmState {
        self.put(ITag::Other, wrr(0x29, src.code(), dst.code()))
    }

    /// `and dst, src`: `REX.W 21 /r`.
    #[verifier::opaque]
    pub open spec fn and_rr(self, dst: Gpr, src: Gpr) -> AsmState {
        self.put(ITag::Other, wrr(0x21, src.code(), dst.code()))
    }

    /// `or dst, src`: `REX.W 09 /r`.
    #[verifier::opaque]
    pub open spec fn or_rr(self, dst: Gpr, src: Gpr) -> AsmState {
        self.put(ITag::Other, wrr(0x09, src.code(), dst.code()))
    }

    /// `adc dst, src`: `REX.W 11 /r` (add-with-carry — `dst = dst + src + CF`).
    #[verifier::opaque]
    pub open spec fn adc_rr(self, dst: Gpr, src: Gpr) -> AsmState {
        self.put(ITag::Other, wrr(0x11, src.code(), dst.code()))
    }

    /// `sbb dst, src`: `REX.W 19 /r` (subtract-with-borrow — `dst = dst - src - CF`).
    #[verifier::opaque]
    pub open spec fn sbb_rr(self, dst: Gpr, src: Gpr) -> AsmState {
        self.put(ITag::Other, wrr(0x19, src.code(), dst.code()))
    }

    /// `cmp dst, src`: `REX.W 39 /r` (the `CMP r/m64, r64` direction, so flags are set as
    /// for `dst - src`).
    #[verifier::opaque]
    pub open spec fn cmp_rr(self, dst: Gpr, src: Gpr) -> AsmState {
        self.put(ITag::Other, wrr(0x39, src.code(), dst.code()))
    }

    /// `test dst, src`: `REX.W 85 /r` (sets ZF for `dst & src == 0`).
    #[verifier::opaque]
    pub open spec fn test_rr(self, dst: Gpr, src: Gpr) -> AsmState {
        self.put(ITag::Other, wrr(0x85, src.code(), dst.code()))
    }

    /// `xor dst, src`: `REX.W 31 /r`.
    #[verifier::opaque]
    pub open spec fn xor_rr(self, dst: Gpr, src: Gpr) -> AsmState {
        self.put(xor_tag(dst, src), wrr(0x31, src.code(), dst.code()))
    }

    /// `imul dst, src`: `REX.W 0F AF /r` (`dst *= src`, two-operand form).
    #[verifier::opaque]
    pub open spec fn imul_rr(self, dst: Gpr, src: Gpr) -> AsmState {
        self.put(ITag::Other, wrr0f(0xAF, dst.code(), src.code()))
    }

    /// `cqo`: `REX.W 99` — sign-extend RAX into RDX:RAX (the dividend setup for a signed
    /// `idiv`).
    #[verifier::opaque]
    pub open spec fn cqo(self) -> AsmState {
        self.put(ITag::Other, two(0x48, 0x99))
    }

    /// `idiv src`: `REX.W F7 /7` — signed divide RDX:RAX by `src`, quotient in RAX and
    /// remainder in RDX.
    #[verifier::opaque]
    pub open spec fn idiv_r(self, src: Gpr) -> AsmState {
        self.put(ITag::Other, wrr(0xF7, 7, src.code()))
    }

    /// `div src`: `REX.W F7 /6` — **unsigned** divide RDX:RAX by `src`, quotient in RAX and
    /// remainder in RDX.
    #[verifier::opaque]
    pub open spec fn div_r(self, src: Gpr) -> AsmState {
        self.put(ITag::Other, wrr(0xF7, 6, src.code()))
    }

    /// `mul src`: `REX.W F7 /4` — **unsigned** multiply RAX by `src`, producing the 128-bit
    /// product in RDX:RAX.
    #[verifier::opaque]
    pub open spec fn mul_r(self, src: Gpr) -> AsmState {
        self.put(ITag::Other, wrr(0xF7, 4, src.code()))
    }

    /// `imul src`: `REX.W F7 /5` — **signed** one-operand multiply RAX by `src`, producing
    /// the full 128-bit product in RDX:RAX and setting OF iff the result does not fit a
    /// sign-extended 64 bits.
    #[verifier::opaque]
    pub open spec fn imul_r1(self, src: Gpr) -> AsmState {
        self.put(ITag::Other, wrr(0xF7, 5, src.code()))
    }

    /// `xor rdx, rdx`: zero RDX (the unsigned-division high-half dividend).
    #[verifier::opaque]
    pub open spec fn zero_rdx(self) -> AsmState {
        self.put(ITag::XorSelf { dst: Gpr::Rdx }, wrr(0x31, 2, 2))
    }

    /// `neg dst`: `REX.W F7 /3` (two's-complement negation).
    #[verifier::opaque]
    pub open spec fn neg_r(self, dst: Gpr) -> AsmState {
        self.put(ITag::Other, wrr(0xF7, 3, dst.code()))
    }

    /// `not dst`: `REX.W F7 /2` (one's-complement / bitwise NOT).
    #[verifier::opaque]
    pub open spec fn not_r(self, dst: Gpr) -> AsmState {
        self.put(ITag::Other, wrr(0xF7, 2, dst.code()))
    }

    /// `shl dst, cl`: `REX.W D3 /4`.
    #[verifier::opaque]
    pub open spec fn shl_cl(self, dst: Gpr) -> AsmState {
        self.put(ITag::Other, wrr(0xD3, 4, dst.code()))
    }

    /// `shr dst, cl`: `REX.W D3 /5` (logical / unsigned right shift).
    #[verifier::opaque]
    pub open spec fn shr_cl(self, dst: Gpr) -> AsmState {
        self.put(ITag::Other, wrr(0xD3, 5, dst.code()))
    }

    /// `sar dst, cl`: `REX.W D3 /7` (arithmetic / signed right shift).
    #[verifier::opaque]
    pub open spec fn sar_cl(self, dst: Gpr) -> AsmState {
        self.put(ITag::Other, wrr(0xD3, 7, dst.code()))
    }

    /// `and dst, imm32`: `REX.W 81 /4 id` (sign-extended).
    #[verifier::opaque]
    pub open spec fn and_ri(self, dst: Gpr, imm: i32) -> AsmState {
        self.put(ITag::Other, wrr_i32(0x81, 4, dst.code(), imm))
    }

    /// `xor dst, imm32`: `REX.W 81 /6 id`.
    #[verifier::opaque]
    pub open spec fn xor_ri(self, dst: Gpr, imm: i32) -> AsmState {
        self.put(ITag::Other, wrr_i32(0x81, 6, dst.code(), imm))
    }

    /// `cmp dst, imm32`: `REX.W 81 /7 id`.
    #[verifier::opaque]
    pub open spec fn cmp_ri(self, dst: Gpr, imm: i32) -> AsmState {
        self.put(ITag::Other, wrr_i32(0x81, 7, dst.code(), imm))
    }

    /// `add dst, imm32`: `REX.W 81 /0 id` (sign-extended).
    #[verifier::opaque]
    pub open spec fn add_ri(self, dst: Gpr, imm: i32) -> AsmState {
        self.put(ITag::Other, wrr_i32(0x81, 0, dst.code(), imm))
    }

    /// `imul dst, src, imm32`: `REX.W 69 /r id` — `dst = src * imm32`.
    #[verifier::opaque]
    pub open spec fn imul_rri(self, dst: Gpr, src: Gpr, imm: i32) -> AsmState {
        self.put(ITag::Other, wrr_i32(0x69, dst.code(), src.code(), imm))
    }

    /// `shl dst, imm8`: `REX.W C1 /4 ib` — left-shift by a constant (a power-of-two
    /// element-size scale).
    #[verifier::opaque]
    pub open spec fn shl_ri(self, dst: Gpr, imm: u8) -> AsmState {
        self.put(ITag::Other, wrr_i8(0xC1, 4, dst.code(), imm))
    }

    /// `shr dst, imm8`: `REX.W C1 /5 ib` — logical right-shift by a constant.
    #[verifier::opaque]
    pub open spec fn shr_ri(self, dst: Gpr, imm: u8) -> AsmState {
        self.put(ITag::Other, wrr_i8(0xC1, 5, dst.code(), imm))
    }

    /// `sar dst, imm8`: `REX.W C1 /7 ib` — arithmetic (sign-propagating) right- shift by a
    /// constant.
    #[verifier::opaque]
    pub open spec fn sar_ri(self, dst: Gpr, imm: u8) -> AsmState {
        self.put(ITag::Other, wrr_i8(0xC1, 7, dst.code(), imm))
    }

    /// `sub rsp, imm32`: `REX.W 81 /5 id` (allocate stack frame).
    #[verifier::opaque]
    pub open spec fn sub_rsp_imm(self, imm: i32) -> AsmState {
        self.put(ITag::Other, wrr_i32(0x81, 5, 4, imm))
    }

    /// `add rsp, imm32`: `REX.W 81 /0 id` (deallocate stack frame).
    #[verifier::opaque]
    pub open spec fn add_rsp_imm(self, imm: i32) -> AsmState {
        self.put(ITag::Other, wrr_i32(0x81, 0, 4, imm))
    }

    /// `setcc al`: `0F 90+tttn C0` — set AL to 1 if `cc` holds, else 0. (No REX: AL is the
    /// low byte of RAX, register 0.).
    #[verifier::opaque]
    pub open spec fn setcc_al(self, cc: Cc) -> AsmState {
        self.put(ITag::Other, setcc(cc))
    }

    /// `movzx dst, al`: `REX.W 0F B6 /r` — zero-extend AL (the `setcc` byte result) into a
    /// full 64-bit `dst`.
    #[verifier::opaque]
    pub open spec fn movzx_al(self, dst: Gpr) -> AsmState {
        self.put(ITag::Other, wrr0f(0xB6, dst.code(), 0))
    }

    /// `movzx dst, src8`: `REX.W 0F B6 /r` — zero-extend the low byte of `src`.
    #[verifier::opaque]
    pub open spec fn movzx8(self, dst: Gpr, src: Gpr) -> AsmState {
        self.put(ITag::Other, wrr0f(0xB6, dst.code(), src.code()))
    }

    /// `movsx dst, src8`: `REX.W 0F BE /r` — sign-extend the low byte of `src`.
    #[verifier::opaque]
    pub open spec fn movsx8(self, dst: Gpr, src: Gpr) -> AsmState {
        self.put(ITag::Other, wrr0f(0xBE, dst.code(), src.code()))
    }

    /// `movzx dst, src16`: `REX.W 0F B7 /r` — zero-extend the low word of `src`.
    #[verifier::opaque]
    pub open spec fn movzx16(self, dst: Gpr, src: Gpr) -> AsmState {
        self.put(ITag::Other, wrr0f(0xB7, dst.code(), src.code()))
    }

    /// `movsx dst, src16`: `REX.W 0F BF /r` — sign-extend the low word of `src`.
    #[verifier::opaque]
    pub open spec fn movsx16(self, dst: Gpr, src: Gpr) -> AsmState {
        self.put(ITag::Other, wrr0f(0xBF, dst.code(), src.code()))
    }

    /// `movsxd dst, src32`: `REX.W 63 /r` — sign-extend the low dword of `src`.
    #[verifier::opaque]
    pub open spec fn movsxd(self, dst: Gpr, src: Gpr) -> AsmState {
        self.put(ITag::Other, wrr(0x63, dst.code(), src.code()))
    }

    /// `push reg`: `50+rd` (plus a `REX.B` prefix for `r8`–`r15`).
    #[verifier::opaque]
    pub open spec fn push(self, reg: Gpr) -> AsmState {
        self.put(ITag::Other, oreg(0x50, reg.code()))
    }

    /// `pop reg`: `58+rd` (plus a `REX.B` prefix for `r8`–`r15`).
    #[verifier::opaque]
    pub open spec fn pop(self, reg: Gpr) -> AsmState {
        self.put(ITag::Other, oreg(0x58, reg.code()))
    }

    /// `ret`: `C3`.
    #[verifier::opaque]
    pub open spec fn ret(self) -> AsmState {
        self.put(ITag::CtrlNoFlags, one(0xC3))
    }

    /// `leave`: `C9` — `mov rsp, rbp; pop rbp` in one byte (the epilogue).
    #[verifier::opaque]
    pub open spec fn leave(self) -> AsmState {
        self.put(ITag::CtrlNoFlags, one(0xC9))
    }

    /// `syscall`: `0F 05`.
    #[verifier::opaque]
    pub open spec fn syscall(self) -> AsmState {
        self.put(ITag::CtrlNoFlags, two(0x0F, 0x05))
    }

    /// `jmp label` (near, rel32): `E9 cd`.
    #[verifier::opaque]
    pub open spec fn jmp(self, label: LabelId) -> AsmState {
        self.put_hole(ITag::Jmp { label }, one(0xE9), 4, FixupKind::Local(label))
    }

    /// `jcc label` (near, rel32): `0F 80+tttn cd`.
    #[verifier::opaque]
    pub open spec fn jcc(self, cc: Cc, label: LabelId) -> AsmState {
        self.put_hole(
            ITag::Jcc { label },
            two(0x0F, (0x80 + cc.bits()) as u8),
            4,
            FixupKind::Local(label),
        )
    }

    /// `call func` (near, rel32): `E8 cd`.
    #[verifier::opaque]
    pub open spec fn call_fn(self, func: FnId) -> AsmState {
        self.put_hole(ITag::CtrlNoFlags, one(0xE8), 4, FixupKind::Call(func))
    }

    /// `call <runtime routine>` (near, rel32): `E8 cd`.
    #[verifier::opaque]
    pub open spec fn call_runtime(self, rt: RuntimeFn) -> AsmState {
        self.put_hole(ITag::CtrlNoFlags, one(0xE8), 4, FixupKind::Runtime(rt))
    }

    /// `call label` (near, rel32 to a function-local label): `E8 cd`.
    #[verifier::opaque]
    pub open spec fn call_label(self, label: LabelId) -> AsmState {
        self.put_hole(ITag::CtrlNoFlags, one(0xE8), 4, FixupKind::Local(label))
    }

    /// An unconditional jump to a local label (alias of `Asm::jmp`, named for the render-
    /// loop call sites).
    #[verifier::opaque]
    pub open spec fn jmp_local(self, label: LabelId) -> AsmState {
        self.put_hole(ITag::Jmp { label }, one(0xE9), 4, FixupKind::Local(label))
    }

    /// A conditional jump to a local label (alias of `Asm::jcc`).
    #[verifier::opaque]
    pub open spec fn jcc_local(self, cc: Cc, label: LabelId) -> AsmState {
        self.put_hole(
            ITag::Jcc { label },
            two(0x0F, (0x80 + cc.bits()) as u8),
            4,
            FixupKind::Local(label),
        )
    }
}

/// A function under construction.
pub struct Asm {
    buf: Vec<u8>,
    fixups: Vec<Fixup>,
    label_offsets: Vec<Option<usize>>,
    marks: Vec<Mark>,
    peephole_saved_bytes: usize,
    peephole_on: bool,
    instrs: Ghost<Seq<Ins>>,
}

impl View for Asm {
    type V = AsmState;

    closed spec fn view(&self) -> AsmState {
        AsmState {
            instrs: self.instrs@,
            labels: self.label_offsets@,
            sealed: self.marks@.len() == 0 && self.instrs@.len() > 0,
            saved: self.peephole_saved_bytes as nat,
            on: self.peephole_on,
        }
    }
}

impl Asm {
    /// The buffers agree with the instruction list.
    pub closed spec fn buffers_ok(&self) -> bool {
        &&& self.buf@ == flat(self.instrs@)
        &&& self.fixups@ == fixups_of(self.instrs@)
        &&& self.marks@.len() == 0 || self.marks@ == marks_of(self.instrs@)
    }

    /// The buffers agree with the instruction list, whose instructions are all
    /// encoded as tagged, and recorded label offsets are true.
    pub open spec fn wf(&self) -> bool {
        &&& self.buffers_ok()
        &&& all_ok(self@.instrs)
        &&& self@.labels_ok()
    }

    /// Well-formed and open for more instructions.
    pub open spec fn ready(&self) -> bool {
        self.wf() && !self@.sealed
    }

    /// An empty function that is optimized when it is finished.
    pub fn new() -> (r: Asm)
        ensures
            r.ready(),
            r@ == AsmState::empty(true),
    {
        Asm::with_peephole(true)
    }

    /// An empty function, optimized when it is finished if `on`.
    pub fn with_peephole(on: bool) -> (r: Asm)
        ensures
            r.ready(),
            r@ == AsmState::empty(on),
    {
        let r = Asm {
            buf: Vec::new(),
            fixups: Vec::new(),
            label_offsets: Vec::new(),
            marks: Vec::new(),
            peephole_saved_bytes: 0,
            peephole_on: on,
            instrs: Ghost(Seq::empty()),
        };
        proof {
            assert(r.buf@ =~= Seq::empty());
            assert(r.fixups@ =~= Seq::empty());
            assert(r.marks@ =~= Seq::empty());
            assert(r.label_offsets@ =~= Seq::empty());
        }
        r
    }

    /// The offset of the next instruction.
    pub fn pos(&self) -> (r: usize)
        requires
            self.wf(),
        ensures
            r == self@.code().len(),
    {
        self.buf.len()
    }

    /// The code so far, its holes still open.
    pub fn code(&self) -> (r: &[u8])
        requires
            self.wf(),
        ensures
            r@ == self@.code(),
    {
        self.buf.as_slice()
    }

    fn put(&mut self, tag: ITag, bytes: Vec<u8>)
        requires
            old(self).ready(),
            !(tag is Label),
            ins_ok((Ins { tag, bytes: bytes@, fixups: Seq::empty() })),
        ensures
            final(self).ready(),
            final(self)@ == old(self)@.put(tag, bytes@),
            old(self)@.tidy() ==> final(self)@.tidy(),
    {
        let ghost i = Ins { tag, bytes: bytes@, fixups: Seq::empty() };
        let ghost s = self.instrs@;
        let _len: usize = self.buf.len();
        assert(self.marks@ =~= marks_of(s));
        self.marks.push(Mark { at: self.buf.len(), tag });
        let mut bytes = bytes;
        self.buf.append(&mut bytes);
        self.instrs = Ghost(s.push(i));
        proof {
            appended(s, i);
            assert(self.fixups@ =~= fixups_of(s.push(i)));
            labels_after_push(old(self)@.labels, s, i);
            if old(self)@.tidy() {
                push_tidy(old(self)@, self@, i);
            }
        }
    }

    fn put_hole(&mut self, tag: ITag, head: Vec<u8>, wide: bool, kind: FixupKind)
        requires
            old(self).ready(),
            !(tag is Label),
            1 <= head@.len() <= 16,
            hole_width(kind) == (if wide {
                8nat
            } else {
                4
            }),
            kind is Call || kind is Runtime ==> head@.last() == 0xE8,
            tag_ok(
                hole_ins(
                    tag,
                    head@,
                    if wide {
                        8
                    } else {
                        4
                    },
                    kind,
                ),
            ),
        ensures
            final(self).ready(),
            final(self)@ == old(self)@.put_hole(
                tag,
                head@,
                if wide {
                    8
                } else {
                    4
                },
                kind,
            ),
            old(self)@.tidy() && (kind matches FixupKind::Local(l) ==> l.0 < old(
                self,
            )@.labels.len()) ==> final(self)@.tidy(),
    {
        let ghost width: nat = if wide {
            8
        } else {
            4
        };
        let ghost i = hole_ins(tag, head@, width, kind);
        let ghost s = self.instrs@;
        let _len: usize = self.buf.len();
        assert(self.marks@ =~= marks_of(s));
        self.marks.push(Mark { at: self.buf.len(), tag });
        let mut head = head;
        let ghost h = head@;
        self.buf.append(&mut head);
        self.fixups.push(Fixup { at: self.buf.len(), kind });
        push_zeros(
            &mut self.buf,
            if wide {
                8
            } else {
                4
            },
        );
        self.instrs = Ghost(s.push(i));
        proof {
            hole_is_open(tag, h, width, kind);
            assert(ins_ok(i));
            appended(s, i);
            assert(self.buf@ =~= flat(s) + i.bytes);
            assert(self.fixups@ =~= fixups_of(s.push(i)));
            labels_after_push(old(self)@.labels, s, i);
            if old(self)@.tidy() && (kind matches FixupKind::Local(l) ==> l.0 < old(
                self,
            )@.labels.len()) {
                push_tidy(old(self)@, self@, i);
            }
        }
    }

    /// `mov dst, src` (register to register): `REX.W 89 /r`, with `src` in the reg field
    /// and `dst` in the rm field (the `MOV r/m64, r64` direction).
    pub fn mov_rr(&mut self, dst: Gpr, src: Gpr)
        requires
            old(self).ready(),
        ensures
            final(self).ready(),
            final(self)@ == old(self)@.mov_rr(dst, src),
            final(self)@.labels == old(self)@.labels,
            old(self)@.tidy() ==> final(self)@.tidy(),
    {
        proof {
            reveal(AsmState::mov_rr);
        }
        self.put(ITag::MovRr { dst, src }, wrr_vec(0x89, src.num(), dst.num()));
    }

    /// `mov dst32, src32` (32-bit operand, **no** `REX.W`): `89 /r`.
    pub fn mov_rr32(&mut self, dst: Gpr, src: Gpr)
        requires
            old(self).ready(),
        ensures
            final(self).ready(),
            final(self)@ == old(self)@.mov_rr32(dst, src),
            final(self)@.labels == old(self)@.labels,
            old(self)@.tidy() ==> final(self)@.tidy(),
    {
        proof {
            reveal(AsmState::mov_rr32);
        }
        self.put(ITag::MovRr32 { dst, src }, orr_vec(0x89, src.num(), dst.num()));
    }

    /// `mov dst, imm`: loads a 64-bit immediate.
    pub fn mov_ri(&mut self, dst: Gpr, imm: i64)
        requires
            old(self).ready(),
        ensures
            final(self).ready(),
            final(self)@ == old(self)@.mov_ri(dst, imm),
            final(self)@.labels == old(self)@.labels,
            old(self)@.tidy() ==> final(self)@.tidy(),
    {
        proof {
            reveal(AsmState::mov_ri);
        }
        self.put(ITag::MovRi { dst, imm }, mov_ri_vec(dst, imm));
    }

    /// `mov dst, [rbp + disp]` (load a stack slot): `REX.W 8B /r`.
    pub fn mov_load(&mut self, dst: Gpr, disp: i32)
        requires
            old(self).ready(),
        ensures
            final(self).ready(),
            final(self)@ == old(self)@.mov_load(dst, disp),
            final(self)@.labels == old(self)@.labels,
            old(self)@.tidy() ==> final(self)@.tidy(),
    {
        proof {
            reveal(AsmState::mov_load);
        }
        self.put(ITag::Other, wrbp_vec(0x8B, dst.num(), disp));
    }

    /// `lea dst, [rbp + disp]` (address of a stack slot): `REX.W 8D /r`.
    pub fn lea_rbp(&mut self, dst: Gpr, disp: i32)
        requires
            old(self).ready(),
        ensures
            final(self).ready(),
            final(self)@ == old(self)@.lea_rbp(dst, disp),
            final(self)@.labels == old(self)@.labels,
            old(self)@.tidy() ==> final(self)@.tidy(),
    {
        proof {
            reveal(AsmState::lea_rbp);
        }
        self.put(ITag::Other, wrbp_vec(0x8D, dst.num(), disp));
    }

    /// `mov [rbp + disp], src` (store a stack slot): `REX.W 89 /r`.
    pub fn mov_store(&mut self, disp: i32, src: Gpr)
        requires
            old(self).ready(),
        ensures
            final(self).ready(),
            final(self)@ == old(self)@.mov_store(disp, src),
            final(self)@.labels == old(self)@.labels,
            old(self)@.tidy() ==> final(self)@.tidy(),
    {
        proof {
            reveal(AsmState::mov_store);
        }
        self.put(ITag::Other, wrbp_vec(0x89, src.num(), disp));
    }

    /// `lea dst, [base + disp]` (address of an arbitrary memory operand): `REX.W 8D /r`.
    pub fn lea_mem(&mut self, dst: Gpr, base: Gpr, disp: i32)
        requires
            old(self).ready(),
        ensures
            final(self).ready(),
            final(self)@ == old(self)@.lea_mem(dst, base, disp),
            final(self)@.labels == old(self)@.labels,
            old(self)@.tidy() ==> final(self)@.tidy(),
    {
        proof {
            reveal(AsmState::lea_mem);
        }
        self.put(ITag::Other, wmem_vec(0x8D, dst.num(), base.num(), disp));
    }

    /// `mov dst, [base + disp]` (64-bit load): `REX.W 8B /r`.
    pub fn mov_load_mem(&mut self, dst: Gpr, base: Gpr, disp: i32)
        requires
            old(self).ready(),
        ensures
            final(self).ready(),
            final(self)@ == old(self)@.mov_load_mem(dst, base, disp),
            final(self)@.labels == old(self)@.labels,
            old(self)@.tidy() ==> final(self)@.tidy(),
    {
        proof {
            reveal(AsmState::mov_load_mem);
        }
        self.put(ITag::Other, wmem_vec(0x8B, dst.num(), base.num(), disp));
    }

    /// `movsxd dst, [base + disp]` (32-bit sign-extending load): `REX.W 63 /r`.
    pub fn movsxd_mem(&mut self, dst: Gpr, base: Gpr, disp: i32)
        requires
            old(self).ready(),
        ensures
            final(self).ready(),
            final(self)@ == old(self)@.movsxd_mem(dst, base, disp),
            final(self)@.labels == old(self)@.labels,
            old(self)@.tidy() ==> final(self)@.tidy(),
    {
        proof {
            reveal(AsmState::movsxd_mem);
        }
        self.put(ITag::Other, wmem_vec(0x63, dst.num(), base.num(), disp));
    }

    /// `mov [base + disp], src` (64-bit store): `REX.W 89 /r`.
    pub fn mov_store_mem(&mut self, base: Gpr, disp: i32, src: Gpr)
        requires
            old(self).ready(),
        ensures
            final(self).ready(),
            final(self)@ == old(self)@.mov_store_mem(base, disp, src),
            final(self)@.labels == old(self)@.labels,
            old(self)@.tidy() ==> final(self)@.tidy(),
    {
        proof {
            reveal(AsmState::mov_store_mem);
        }
        self.put(ITag::Other, wmem_vec(0x89, src.num(), base.num(), disp));
    }

    /// `movzx dst, byte [base + disp]`: `REX.W 0F B6 /r` (zero-extend a byte).
    pub fn movzx8_mem(&mut self, dst: Gpr, base: Gpr, disp: i32)
        requires
            old(self).ready(),
        ensures
            final(self).ready(),
            final(self)@ == old(self)@.movzx8_mem(dst, base, disp),
            final(self)@.labels == old(self)@.labels,
            old(self)@.tidy() ==> final(self)@.tidy(),
    {
        proof {
            reveal(AsmState::movzx8_mem);
        }
        self.put(ITag::Other, wmem0f_vec(0xB6, dst.num(), base.num(), disp));
    }

    /// `movsx dst, byte [base + disp]`: `REX.W 0F BE /r` (sign-extend a byte).
    pub fn movsx8_mem(&mut self, dst: Gpr, base: Gpr, disp: i32)
        requires
            old(self).ready(),
        ensures
            final(self).ready(),
            final(self)@ == old(self)@.movsx8_mem(dst, base, disp),
            final(self)@.labels == old(self)@.labels,
            old(self)@.tidy() ==> final(self)@.tidy(),
    {
        proof {
            reveal(AsmState::movsx8_mem);
        }
        self.put(ITag::Other, wmem0f_vec(0xBE, dst.num(), base.num(), disp));
    }

    /// `movzx dst, word [base + disp]`: `REX.W 0F B7 /r` (zero-extend a word).
    pub fn movzx16_mem(&mut self, dst: Gpr, base: Gpr, disp: i32)
        requires
            old(self).ready(),
        ensures
            final(self).ready(),
            final(self)@ == old(self)@.movzx16_mem(dst, base, disp),
            final(self)@.labels == old(self)@.labels,
            old(self)@.tidy() ==> final(self)@.tidy(),
    {
        proof {
            reveal(AsmState::movzx16_mem);
        }
        self.put(ITag::Other, wmem0f_vec(0xB7, dst.num(), base.num(), disp));
    }

    /// `movsx dst, word [base + disp]`: `REX.W 0F BF /r` (sign-extend a word).
    pub fn movsx16_mem(&mut self, dst: Gpr, base: Gpr, disp: i32)
        requires
            old(self).ready(),
        ensures
            final(self).ready(),
            final(self)@ == old(self)@.movsx16_mem(dst, base, disp),
            final(self)@.labels == old(self)@.labels,
            old(self)@.tidy() ==> final(self)@.tidy(),
    {
        proof {
            reveal(AsmState::movsx16_mem);
        }
        self.put(ITag::Other, wmem0f_vec(0xBF, dst.num(), base.num(), disp));
    }

    /// `mov dst32, [base + disp]` (32-bit load, **no** `REX.W`): `8B /r`.
    pub fn mov_load32_mem(&mut self, dst: Gpr, base: Gpr, disp: i32)
        requires
            old(self).ready(),
        ensures
            final(self).ready(),
            final(self)@ == old(self)@.mov_load32_mem(dst, base, disp),
            final(self)@.labels == old(self)@.labels,
            old(self)@.tidy() ==> final(self)@.tidy(),
    {
        proof {
            reveal(AsmState::mov_load32_mem);
        }
        self.put(ITag::Other, omem_vec(0x8B, dst.num(), base.num(), disp));
    }

    /// `mov byte [base + disp], src8`: `88 /r` — stores the low byte of `src`.
    pub fn mov_store8_mem(&mut self, base: Gpr, disp: i32, src: Gpr)
        requires
            old(self).ready(),
        ensures
            final(self).ready(),
            final(self)@ == old(self)@.mov_store8_mem(base, disp, src),
            final(self)@.labels == old(self)@.labels,
            old(self)@.tidy() ==> final(self)@.tidy(),
    {
        proof {
            reveal(AsmState::mov_store8_mem);
        }
        self.put(ITag::Other, store8_vec(src.num(), base.num(), disp));
    }

    /// `mov word [base + disp], src16`: `66 89 /r` (the `66` operand-size prefix selects a
    /// 16-bit store of the low word of `src`).
    pub fn mov_store16_mem(&mut self, base: Gpr, disp: i32, src: Gpr)
        requires
            old(self).ready(),
        ensures
            final(self).ready(),
            final(self)@ == old(self)@.mov_store16_mem(base, disp, src),
            final(self)@.labels == old(self)@.labels,
            old(self)@.tidy() ==> final(self)@.tidy(),
    {
        proof {
            reveal(AsmState::mov_store16_mem);
        }
        self.put(ITag::Other, store16_vec(src.num(), base.num(), disp));
    }

    /// `mov dword [base + disp], src32`: `89 /r` (no `REX.W`) — 32-bit store of the low
    /// dword of `src`.
    pub fn mov_store32_mem(&mut self, base: Gpr, disp: i32, src: Gpr)
        requires
            old(self).ready(),
        ensures
            final(self).ready(),
            final(self)@ == old(self)@.mov_store32_mem(base, disp, src),
            final(self)@.labels == old(self)@.labels,
            old(self)@.tidy() ==> final(self)@.tidy(),
    {
        proof {
            reveal(AsmState::mov_store32_mem);
        }
        self.put(ITag::Other, omem_vec(0x89, src.num(), base.num(), disp));
    }

    /// `rep movsb`: `F3 A4` — copy RCX bytes from `[rsi]` to `[rdi]`, advancing both.
    pub fn rep_movsb(&mut self)
        requires
            old(self).ready(),
        ensures
            final(self).ready(),
            final(self)@ == old(self)@.rep_movsb(),
            final(self)@.labels == old(self)@.labels,
            old(self)@.tidy() ==> final(self)@.tidy(),
    {
        proof {
            reveal(AsmState::rep_movsb);
        }
        self.put(ITag::Other, two_vec(0xF3, 0xA4));
    }

    /// `movsd dst, [base + disp]` (load an f64): `F2 0F 10 /r`.
    pub fn movsd_load(&mut self, dst: Xmm, base: Gpr, disp: i32)
        requires
            old(self).ready(),
        ensures
            final(self).ready(),
            final(self)@ == old(self)@.movsd_load(dst, base, disp),
            final(self)@.labels == old(self)@.labels,
            old(self)@.tidy() ==> final(self)@.tidy(),
    {
        proof {
            reveal(AsmState::movsd_load);
        }
        self.put(ITag::Other, sse_mem_vec(0x10, dst.num(), base.num(), disp));
    }

    /// `movsd [base + disp], src` (store an f64): `F2 0F 11 /r`.
    pub fn movsd_store(&mut self, base: Gpr, disp: i32, src: Xmm)
        requires
            old(self).ready(),
        ensures
            final(self).ready(),
            final(self)@ == old(self)@.movsd_store(base, disp, src),
            final(self)@.labels == old(self)@.labels,
            old(self)@.tidy() ==> final(self)@.tidy(),
    {
        proof {
            reveal(AsmState::movsd_store);
        }
        self.put(ITag::Other, sse_mem_vec(0x11, src.num(), base.num(), disp));
    }

    /// `movsd dst, src` (xmm→xmm copy): `F2 0F 10 /r` with a register-direct ModRM (`dst`
    /// in reg, `src` in rm).
    pub fn movsd_rr(&mut self, dst: Xmm, src: Xmm)
        requires
            old(self).ready(),
        ensures
            final(self).ready(),
            final(self)@ == old(self)@.movsd_rr(dst, src),
            final(self)@.labels == old(self)@.labels,
            old(self)@.tidy() ==> final(self)@.tidy(),
    {
        proof {
            reveal(AsmState::movsd_rr);
        }
        self.put(ITag::Other, sse_rr_vec(0xF2, 0x10, dst.num(), src.num()));
    }

    /// `addsd dst, src`: `F2 0F 58 /r`.
    pub fn addsd(&mut self, dst: Xmm, src: Xmm)
        requires
            old(self).ready(),
        ensures
            final(self).ready(),
            final(self)@ == old(self)@.addsd(dst, src),
            final(self)@.labels == old(self)@.labels,
            old(self)@.tidy() ==> final(self)@.tidy(),
    {
        proof {
            reveal(AsmState::addsd);
        }
        self.put(ITag::Other, sse_rr_vec(0xF2, 0x58, dst.num(), src.num()));
    }

    /// `subsd dst, src`: `F2 0F 5C /r`.
    pub fn subsd(&mut self, dst: Xmm, src: Xmm)
        requires
            old(self).ready(),
        ensures
            final(self).ready(),
            final(self)@ == old(self)@.subsd(dst, src),
            final(self)@.labels == old(self)@.labels,
            old(self)@.tidy() ==> final(self)@.tidy(),
    {
        proof {
            reveal(AsmState::subsd);
        }
        self.put(ITag::Other, sse_rr_vec(0xF2, 0x5C, dst.num(), src.num()));
    }

    /// `mulsd dst, src`: `F2 0F 59 /r`.
    pub fn mulsd(&mut self, dst: Xmm, src: Xmm)
        requires
            old(self).ready(),
        ensures
            final(self).ready(),
            final(self)@ == old(self)@.mulsd(dst, src),
            final(self)@.labels == old(self)@.labels,
            old(self)@.tidy() ==> final(self)@.tidy(),
    {
        proof {
            reveal(AsmState::mulsd);
        }
        self.put(ITag::Other, sse_rr_vec(0xF2, 0x59, dst.num(), src.num()));
    }

    /// `divsd dst, src`: `F2 0F 5E /r`.
    pub fn divsd(&mut self, dst: Xmm, src: Xmm)
        requires
            old(self).ready(),
        ensures
            final(self).ready(),
            final(self)@ == old(self)@.divsd(dst, src),
            final(self)@.labels == old(self)@.labels,
            old(self)@.tidy() ==> final(self)@.tidy(),
    {
        proof {
            reveal(AsmState::divsd);
        }
        self.put(ITag::Other, sse_rr_vec(0xF2, 0x5E, dst.num(), src.num()));
    }

    /// `ucomisd dst, src`: `66 0F 2E /r` — an ordered f64 compare that sets the ZF/PF/CF
    /// flags a `setcc`/`jcc` then reads.
    pub fn ucomisd(&mut self, dst: Xmm, src: Xmm)
        requires
            old(self).ready(),
        ensures
            final(self).ready(),
            final(self)@ == old(self)@.ucomisd(dst, src),
            final(self)@.labels == old(self)@.labels,
            old(self)@.tidy() ==> final(self)@.tidy(),
    {
        proof {
            reveal(AsmState::ucomisd);
        }
        self.put(ITag::Other, sse_rr_vec(0x66, 0x2E, dst.num(), src.num()));
    }

    /// `movq dst, src` (GPR→xmm bit-copy): `66 REX.W 0F 6E /r` — moves the raw 64-bit bit
    /// pattern of GPR `src` into the low quadword of xmm `dst` (zeroing the high quadword).
    pub fn movq_xmm_r64(&mut self, dst: Xmm, src: Gpr)
        requires
            old(self).ready(),
        ensures
            final(self).ready(),
            final(self)@ == old(self)@.movq_xmm_r64(dst, src),
            final(self)@.labels == old(self)@.labels,
            old(self)@.tidy() ==> final(self)@.tidy(),
    {
        proof {
            reveal(AsmState::movq_xmm_r64);
        }
        self.put(ITag::Other, sse_wrr_vec(0x66, 0x6E, dst.num(), src.num()));
    }

    /// `cvtsi2sd dst, src` (int→f64): `F2 REX.W 0F 2A /r` — converts the 64-bit GPR `src`
    /// to a double in xmm `dst`.
    pub fn cvtsi2sd(&mut self, dst: Xmm, src: Gpr)
        requires
            old(self).ready(),
        ensures
            final(self).ready(),
            final(self)@ == old(self)@.cvtsi2sd(dst, src),
            final(self)@.labels == old(self)@.labels,
            old(self)@.tidy() ==> final(self)@.tidy(),
    {
        proof {
            reveal(AsmState::cvtsi2sd);
        }
        self.put(ITag::Other, sse_wrr_vec(0xF2, 0x2A, dst.num(), src.num()));
    }

    /// `cvttsd2si dst, src` (f64→int, truncating): `F2 REX.W 0F 2C /r` — converts the
    /// double in xmm `src` to a 64-bit GPR `dst`, rounding toward zero.
    pub fn cvttsd2si(&mut self, dst: Gpr, src: Xmm)
        requires
            old(self).ready(),
        ensures
            final(self).ready(),
            final(self)@ == old(self)@.cvttsd2si(dst, src),
            final(self)@.labels == old(self)@.labels,
            old(self)@.tidy() ==> final(self)@.tidy(),
    {
        proof {
            reveal(AsmState::cvttsd2si);
        }
        self.put(ITag::Other, sse_wrr_vec(0xF2, 0x2C, dst.num(), src.num()));
    }

    /// `mov dst, imm64` whose 8 immediate bytes are a `.rodata` pointer hole.
    pub fn mov_ri_data(&mut self, dst: Gpr, data_off: u32)
        requires
            old(self).ready(),
        ensures
            final(self).ready(),
            final(self)@ == old(self)@.mov_ri_data(dst, data_off),
            final(self)@.labels == old(self)@.labels,
            old(self)@.tidy() ==> final(self)@.tidy(),
    {
        proof {
            reveal(AsmState::mov_ri_data);
        }
        self.put_hole(ITag::Other, movabs_vec(dst.num()), true, FixupKind::Data(data_off));
    }

    /// `mov dst, imm64` whose 8 immediate bytes are a writable-state pointer hole.
    pub fn mov_ri_state(&mut self, dst: Gpr, state_off: u32)
        requires
            old(self).ready(),
        ensures
            final(self).ready(),
            final(self)@ == old(self)@.mov_ri_state(dst, state_off),
            final(self)@.labels == old(self)@.labels,
            old(self)@.tidy() ==> final(self)@.tidy(),
    {
        proof {
            reveal(AsmState::mov_ri_state);
        }
        self.put_hole(ITag::Other, movabs_vec(dst.num()), true, FixupKind::State(state_off));
    }

    /// `add dst, src`: `REX.W 01 /r`.
    pub fn add_rr(&mut self, dst: Gpr, src: Gpr)
        requires
            old(self).ready(),
        ensures
            final(self).ready(),
            final(self)@ == old(self)@.add_rr(dst, src),
            final(self)@.labels == old(self)@.labels,
            old(self)@.tidy() ==> final(self)@.tidy(),
    {
        proof {
            reveal(AsmState::add_rr);
        }
        self.put(ITag::Other, wrr_vec(0x01, src.num(), dst.num()));
    }

    /// `sub dst, src`: `REX.W 29 /r`.
    pub fn sub_rr(&mut self, dst: Gpr, src: Gpr)
        requires
            old(self).ready(),
        ensures
            final(self).ready(),
            final(self)@ == old(self)@.sub_rr(dst, src),
            final(self)@.labels == old(self)@.labels,
            old(self)@.tidy() ==> final(self)@.tidy(),
    {
        proof {
            reveal(AsmState::sub_rr);
        }
        self.put(ITag::Other, wrr_vec(0x29, src.num(), dst.num()));
    }

    /// `and dst, src`: `REX.W 21 /r`.
    pub fn and_rr(&mut self, dst: Gpr, src: Gpr)
        requires
            old(self).ready(),
        ensures
            final(self).ready(),
            final(self)@ == old(self)@.and_rr(dst, src),
            final(self)@.labels == old(self)@.labels,
            old(self)@.tidy() ==> final(self)@.tidy(),
    {
        proof {
            reveal(AsmState::and_rr);
        }
        self.put(ITag::Other, wrr_vec(0x21, src.num(), dst.num()));
    }

    /// `or dst, src`: `REX.W 09 /r`.
    pub fn or_rr(&mut self, dst: Gpr, src: Gpr)
        requires
            old(self).ready(),
        ensures
            final(self).ready(),
            final(self)@ == old(self)@.or_rr(dst, src),
            final(self)@.labels == old(self)@.labels,
            old(self)@.tidy() ==> final(self)@.tidy(),
    {
        proof {
            reveal(AsmState::or_rr);
        }
        self.put(ITag::Other, wrr_vec(0x09, src.num(), dst.num()));
    }

    /// `adc dst, src`: `REX.W 11 /r` (add-with-carry — `dst = dst + src + CF`).
    pub fn adc_rr(&mut self, dst: Gpr, src: Gpr)
        requires
            old(self).ready(),
        ensures
            final(self).ready(),
            final(self)@ == old(self)@.adc_rr(dst, src),
            final(self)@.labels == old(self)@.labels,
            old(self)@.tidy() ==> final(self)@.tidy(),
    {
        proof {
            reveal(AsmState::adc_rr);
        }
        self.put(ITag::Other, wrr_vec(0x11, src.num(), dst.num()));
    }

    /// `sbb dst, src`: `REX.W 19 /r` (subtract-with-borrow — `dst = dst - src - CF`).
    pub fn sbb_rr(&mut self, dst: Gpr, src: Gpr)
        requires
            old(self).ready(),
        ensures
            final(self).ready(),
            final(self)@ == old(self)@.sbb_rr(dst, src),
            final(self)@.labels == old(self)@.labels,
            old(self)@.tidy() ==> final(self)@.tidy(),
    {
        proof {
            reveal(AsmState::sbb_rr);
        }
        self.put(ITag::Other, wrr_vec(0x19, src.num(), dst.num()));
    }

    /// `cmp dst, src`: `REX.W 39 /r` (the `CMP r/m64, r64` direction, so flags are set as
    /// for `dst - src`).
    pub fn cmp_rr(&mut self, dst: Gpr, src: Gpr)
        requires
            old(self).ready(),
        ensures
            final(self).ready(),
            final(self)@ == old(self)@.cmp_rr(dst, src),
            final(self)@.labels == old(self)@.labels,
            old(self)@.tidy() ==> final(self)@.tidy(),
    {
        proof {
            reveal(AsmState::cmp_rr);
        }
        self.put(ITag::Other, wrr_vec(0x39, src.num(), dst.num()));
    }

    /// `test dst, src`: `REX.W 85 /r` (sets ZF for `dst & src == 0`).
    pub fn test_rr(&mut self, dst: Gpr, src: Gpr)
        requires
            old(self).ready(),
        ensures
            final(self).ready(),
            final(self)@ == old(self)@.test_rr(dst, src),
            final(self)@.labels == old(self)@.labels,
            old(self)@.tidy() ==> final(self)@.tidy(),
    {
        proof {
            reveal(AsmState::test_rr);
        }
        self.put(ITag::Other, wrr_vec(0x85, src.num(), dst.num()));
    }

    /// `xor dst, src`: `REX.W 31 /r`.
    pub fn xor_rr(&mut self, dst: Gpr, src: Gpr)
        requires
            old(self).ready(),
        ensures
            final(self).ready(),
            final(self)@ == old(self)@.xor_rr(dst, src),
            final(self)@.labels == old(self)@.labels,
            old(self)@.tidy() ==> final(self)@.tidy(),
    {
        proof {
            reveal(AsmState::xor_rr);
        }
        let tag: ITag = if dst == src {
            ITag::XorSelf { dst }
        } else {
            ITag::Other
        };
        self.put(tag, wrr_vec(0x31, src.num(), dst.num()));
    }

    /// `imul dst, src`: `REX.W 0F AF /r` (`dst *= src`, two-operand form).
    pub fn imul_rr(&mut self, dst: Gpr, src: Gpr)
        requires
            old(self).ready(),
        ensures
            final(self).ready(),
            final(self)@ == old(self)@.imul_rr(dst, src),
            final(self)@.labels == old(self)@.labels,
            old(self)@.tidy() ==> final(self)@.tidy(),
    {
        proof {
            reveal(AsmState::imul_rr);
        }
        self.put(ITag::Other, wrr0f_vec(0xAF, dst.num(), src.num()));
    }

    /// `cqo`: `REX.W 99` — sign-extend RAX into RDX:RAX (the dividend setup for a signed
    /// `idiv`).
    pub fn cqo(&mut self)
        requires
            old(self).ready(),
        ensures
            final(self).ready(),
            final(self)@ == old(self)@.cqo(),
            final(self)@.labels == old(self)@.labels,
            old(self)@.tidy() ==> final(self)@.tidy(),
    {
        proof {
            reveal(AsmState::cqo);
        }
        self.put(ITag::Other, two_vec(0x48, 0x99));
    }

    /// `idiv src`: `REX.W F7 /7` — signed divide RDX:RAX by `src`, quotient in RAX and
    /// remainder in RDX.
    pub fn idiv_r(&mut self, src: Gpr)
        requires
            old(self).ready(),
        ensures
            final(self).ready(),
            final(self)@ == old(self)@.idiv_r(src),
            final(self)@.labels == old(self)@.labels,
            old(self)@.tidy() ==> final(self)@.tidy(),
    {
        proof {
            reveal(AsmState::idiv_r);
        }
        self.put(ITag::Other, wrr_vec(0xF7, 7, src.num()));
    }

    /// `div src`: `REX.W F7 /6` — **unsigned** divide RDX:RAX by `src`, quotient in RAX and
    /// remainder in RDX.
    pub fn div_r(&mut self, src: Gpr)
        requires
            old(self).ready(),
        ensures
            final(self).ready(),
            final(self)@ == old(self)@.div_r(src),
            final(self)@.labels == old(self)@.labels,
            old(self)@.tidy() ==> final(self)@.tidy(),
    {
        proof {
            reveal(AsmState::div_r);
        }
        self.put(ITag::Other, wrr_vec(0xF7, 6, src.num()));
    }

    /// `mul src`: `REX.W F7 /4` — **unsigned** multiply RAX by `src`, producing the 128-bit
    /// product in RDX:RAX.
    pub fn mul_r(&mut self, src: Gpr)
        requires
            old(self).ready(),
        ensures
            final(self).ready(),
            final(self)@ == old(self)@.mul_r(src),
            final(self)@.labels == old(self)@.labels,
            old(self)@.tidy() ==> final(self)@.tidy(),
    {
        proof {
            reveal(AsmState::mul_r);
        }
        self.put(ITag::Other, wrr_vec(0xF7, 4, src.num()));
    }

    /// `imul src`: `REX.W F7 /5` — **signed** one-operand multiply RAX by `src`, producing
    /// the full 128-bit product in RDX:RAX and setting OF iff the result does not fit a
    /// sign-extended 64 bits.
    pub fn imul_r1(&mut self, src: Gpr)
        requires
            old(self).ready(),
        ensures
            final(self).ready(),
            final(self)@ == old(self)@.imul_r1(src),
            final(self)@.labels == old(self)@.labels,
            old(self)@.tidy() ==> final(self)@.tidy(),
    {
        proof {
            reveal(AsmState::imul_r1);
        }
        self.put(ITag::Other, wrr_vec(0xF7, 5, src.num()));
    }

    /// `xor rdx, rdx`: zero RDX (the unsigned-division high-half dividend).
    pub fn zero_rdx(&mut self)
        requires
            old(self).ready(),
        ensures
            final(self).ready(),
            final(self)@ == old(self)@.zero_rdx(),
            final(self)@.labels == old(self)@.labels,
            old(self)@.tidy() ==> final(self)@.tidy(),
    {
        proof {
            reveal(AsmState::zero_rdx);
        }
        self.put(ITag::XorSelf { dst: Gpr::Rdx }, wrr_vec(0x31, 2, 2));
    }

    /// `neg dst`: `REX.W F7 /3` (two's-complement negation).
    pub fn neg_r(&mut self, dst: Gpr)
        requires
            old(self).ready(),
        ensures
            final(self).ready(),
            final(self)@ == old(self)@.neg_r(dst),
            final(self)@.labels == old(self)@.labels,
            old(self)@.tidy() ==> final(self)@.tidy(),
    {
        proof {
            reveal(AsmState::neg_r);
        }
        self.put(ITag::Other, wrr_vec(0xF7, 3, dst.num()));
    }

    /// `not dst`: `REX.W F7 /2` (one's-complement / bitwise NOT).
    pub fn not_r(&mut self, dst: Gpr)
        requires
            old(self).ready(),
        ensures
            final(self).ready(),
            final(self)@ == old(self)@.not_r(dst),
            final(self)@.labels == old(self)@.labels,
            old(self)@.tidy() ==> final(self)@.tidy(),
    {
        proof {
            reveal(AsmState::not_r);
        }
        self.put(ITag::Other, wrr_vec(0xF7, 2, dst.num()));
    }

    /// `shl dst, cl`: `REX.W D3 /4`.
    pub fn shl_cl(&mut self, dst: Gpr)
        requires
            old(self).ready(),
        ensures
            final(self).ready(),
            final(self)@ == old(self)@.shl_cl(dst),
            final(self)@.labels == old(self)@.labels,
            old(self)@.tidy() ==> final(self)@.tidy(),
    {
        proof {
            reveal(AsmState::shl_cl);
        }
        self.put(ITag::Other, wrr_vec(0xD3, 4, dst.num()));
    }

    /// `shr dst, cl`: `REX.W D3 /5` (logical / unsigned right shift).
    pub fn shr_cl(&mut self, dst: Gpr)
        requires
            old(self).ready(),
        ensures
            final(self).ready(),
            final(self)@ == old(self)@.shr_cl(dst),
            final(self)@.labels == old(self)@.labels,
            old(self)@.tidy() ==> final(self)@.tidy(),
    {
        proof {
            reveal(AsmState::shr_cl);
        }
        self.put(ITag::Other, wrr_vec(0xD3, 5, dst.num()));
    }

    /// `sar dst, cl`: `REX.W D3 /7` (arithmetic / signed right shift).
    pub fn sar_cl(&mut self, dst: Gpr)
        requires
            old(self).ready(),
        ensures
            final(self).ready(),
            final(self)@ == old(self)@.sar_cl(dst),
            final(self)@.labels == old(self)@.labels,
            old(self)@.tidy() ==> final(self)@.tidy(),
    {
        proof {
            reveal(AsmState::sar_cl);
        }
        self.put(ITag::Other, wrr_vec(0xD3, 7, dst.num()));
    }

    /// `and dst, imm32`: `REX.W 81 /4 id` (sign-extended).
    pub fn and_ri(&mut self, dst: Gpr, imm: i32)
        requires
            old(self).ready(),
        ensures
            final(self).ready(),
            final(self)@ == old(self)@.and_ri(dst, imm),
            final(self)@.labels == old(self)@.labels,
            old(self)@.tidy() ==> final(self)@.tidy(),
    {
        proof {
            reveal(AsmState::and_ri);
        }
        self.put(ITag::Other, wrr_i32_vec(0x81, 4, dst.num(), imm));
    }

    /// `xor dst, imm32`: `REX.W 81 /6 id`.
    pub fn xor_ri(&mut self, dst: Gpr, imm: i32)
        requires
            old(self).ready(),
        ensures
            final(self).ready(),
            final(self)@ == old(self)@.xor_ri(dst, imm),
            final(self)@.labels == old(self)@.labels,
            old(self)@.tidy() ==> final(self)@.tidy(),
    {
        proof {
            reveal(AsmState::xor_ri);
        }
        self.put(ITag::Other, wrr_i32_vec(0x81, 6, dst.num(), imm));
    }

    /// `cmp dst, imm32`: `REX.W 81 /7 id`.
    pub fn cmp_ri(&mut self, dst: Gpr, imm: i32)
        requires
            old(self).ready(),
        ensures
            final(self).ready(),
            final(self)@ == old(self)@.cmp_ri(dst, imm),
            final(self)@.labels == old(self)@.labels,
            old(self)@.tidy() ==> final(self)@.tidy(),
    {
        proof {
            reveal(AsmState::cmp_ri);
        }
        self.put(ITag::Other, wrr_i32_vec(0x81, 7, dst.num(), imm));
    }

    /// `add dst, imm32`: `REX.W 81 /0 id` (sign-extended).
    pub fn add_ri(&mut self, dst: Gpr, imm: i32)
        requires
            old(self).ready(),
        ensures
            final(self).ready(),
            final(self)@ == old(self)@.add_ri(dst, imm),
            final(self)@.labels == old(self)@.labels,
            old(self)@.tidy() ==> final(self)@.tidy(),
    {
        proof {
            reveal(AsmState::add_ri);
        }
        self.put(ITag::Other, wrr_i32_vec(0x81, 0, dst.num(), imm));
    }

    /// `imul dst, src, imm32`: `REX.W 69 /r id` — `dst = src * imm32`.
    pub fn imul_rri(&mut self, dst: Gpr, src: Gpr, imm: i32)
        requires
            old(self).ready(),
        ensures
            final(self).ready(),
            final(self)@ == old(self)@.imul_rri(dst, src, imm),
            final(self)@.labels == old(self)@.labels,
            old(self)@.tidy() ==> final(self)@.tidy(),
    {
        proof {
            reveal(AsmState::imul_rri);
        }
        self.put(ITag::Other, wrr_i32_vec(0x69, dst.num(), src.num(), imm));
    }

    /// `shl dst, imm8`: `REX.W C1 /4 ib` — left-shift by a constant (a power-of-two
    /// element-size scale).
    pub fn shl_ri(&mut self, dst: Gpr, imm: u8)
        requires
            old(self).ready(),
        ensures
            final(self).ready(),
            final(self)@ == old(self)@.shl_ri(dst, imm),
            final(self)@.labels == old(self)@.labels,
            old(self)@.tidy() ==> final(self)@.tidy(),
    {
        proof {
            reveal(AsmState::shl_ri);
        }
        self.put(ITag::Other, wrr_i8_vec(0xC1, 4, dst.num(), imm));
    }

    /// `shr dst, imm8`: `REX.W C1 /5 ib` — logical right-shift by a constant.
    pub fn shr_ri(&mut self, dst: Gpr, imm: u8)
        requires
            old(self).ready(),
        ensures
            final(self).ready(),
            final(self)@ == old(self)@.shr_ri(dst, imm),
            final(self)@.labels == old(self)@.labels,
            old(self)@.tidy() ==> final(self)@.tidy(),
    {
        proof {
            reveal(AsmState::shr_ri);
        }
        self.put(ITag::Other, wrr_i8_vec(0xC1, 5, dst.num(), imm));
    }

    /// `sar dst, imm8`: `REX.W C1 /7 ib` — arithmetic (sign-propagating) right- shift by a
    /// constant.
    pub fn sar_ri(&mut self, dst: Gpr, imm: u8)
        requires
            old(self).ready(),
        ensures
            final(self).ready(),
            final(self)@ == old(self)@.sar_ri(dst, imm),
            final(self)@.labels == old(self)@.labels,
            old(self)@.tidy() ==> final(self)@.tidy(),
    {
        proof {
            reveal(AsmState::sar_ri);
        }
        self.put(ITag::Other, wrr_i8_vec(0xC1, 7, dst.num(), imm));
    }

    /// `sub rsp, imm32`: `REX.W 81 /5 id` (allocate stack frame).
    pub fn sub_rsp_imm(&mut self, imm: i32)
        requires
            old(self).ready(),
        ensures
            final(self).ready(),
            final(self)@ == old(self)@.sub_rsp_imm(imm),
            final(self)@.labels == old(self)@.labels,
            old(self)@.tidy() ==> final(self)@.tidy(),
    {
        proof {
            reveal(AsmState::sub_rsp_imm);
        }
        self.put(ITag::Other, wrr_i32_vec(0x81, 5, 4, imm));
    }

    /// `add rsp, imm32`: `REX.W 81 /0 id` (deallocate stack frame).
    pub fn add_rsp_imm(&mut self, imm: i32)
        requires
            old(self).ready(),
        ensures
            final(self).ready(),
            final(self)@ == old(self)@.add_rsp_imm(imm),
            final(self)@.labels == old(self)@.labels,
            old(self)@.tidy() ==> final(self)@.tidy(),
    {
        proof {
            reveal(AsmState::add_rsp_imm);
        }
        self.put(ITag::Other, wrr_i32_vec(0x81, 0, 4, imm));
    }

    /// `setcc al`: `0F 90+tttn C0` — set AL to 1 if `cc` holds, else 0. (No REX: AL is the
    /// low byte of RAX, register 0.).
    pub fn setcc_al(&mut self, cc: Cc)
        requires
            old(self).ready(),
        ensures
            final(self).ready(),
            final(self)@ == old(self)@.setcc_al(cc),
            final(self)@.labels == old(self)@.labels,
            old(self)@.tidy() ==> final(self)@.tidy(),
    {
        proof {
            reveal(AsmState::setcc_al);
        }
        self.put(ITag::Other, setcc_vec(cc));
    }

    /// `movzx dst, al`: `REX.W 0F B6 /r` — zero-extend AL (the `setcc` byte result) into a
    /// full 64-bit `dst`.
    pub fn movzx_al(&mut self, dst: Gpr)
        requires
            old(self).ready(),
        ensures
            final(self).ready(),
            final(self)@ == old(self)@.movzx_al(dst),
            final(self)@.labels == old(self)@.labels,
            old(self)@.tidy() ==> final(self)@.tidy(),
    {
        proof {
            reveal(AsmState::movzx_al);
        }
        self.put(ITag::Other, wrr0f_vec(0xB6, dst.num(), 0));
    }

    /// `movzx dst, src8`: `REX.W 0F B6 /r` — zero-extend the low byte of `src`.
    pub fn movzx8(&mut self, dst: Gpr, src: Gpr)
        requires
            old(self).ready(),
        ensures
            final(self).ready(),
            final(self)@ == old(self)@.movzx8(dst, src),
            final(self)@.labels == old(self)@.labels,
            old(self)@.tidy() ==> final(self)@.tidy(),
    {
        proof {
            reveal(AsmState::movzx8);
        }
        self.put(ITag::Other, wrr0f_vec(0xB6, dst.num(), src.num()));
    }

    /// `movsx dst, src8`: `REX.W 0F BE /r` — sign-extend the low byte of `src`.
    pub fn movsx8(&mut self, dst: Gpr, src: Gpr)
        requires
            old(self).ready(),
        ensures
            final(self).ready(),
            final(self)@ == old(self)@.movsx8(dst, src),
            final(self)@.labels == old(self)@.labels,
            old(self)@.tidy() ==> final(self)@.tidy(),
    {
        proof {
            reveal(AsmState::movsx8);
        }
        self.put(ITag::Other, wrr0f_vec(0xBE, dst.num(), src.num()));
    }

    /// `movzx dst, src16`: `REX.W 0F B7 /r` — zero-extend the low word of `src`.
    pub fn movzx16(&mut self, dst: Gpr, src: Gpr)
        requires
            old(self).ready(),
        ensures
            final(self).ready(),
            final(self)@ == old(self)@.movzx16(dst, src),
            final(self)@.labels == old(self)@.labels,
            old(self)@.tidy() ==> final(self)@.tidy(),
    {
        proof {
            reveal(AsmState::movzx16);
        }
        self.put(ITag::Other, wrr0f_vec(0xB7, dst.num(), src.num()));
    }

    /// `movsx dst, src16`: `REX.W 0F BF /r` — sign-extend the low word of `src`.
    pub fn movsx16(&mut self, dst: Gpr, src: Gpr)
        requires
            old(self).ready(),
        ensures
            final(self).ready(),
            final(self)@ == old(self)@.movsx16(dst, src),
            final(self)@.labels == old(self)@.labels,
            old(self)@.tidy() ==> final(self)@.tidy(),
    {
        proof {
            reveal(AsmState::movsx16);
        }
        self.put(ITag::Other, wrr0f_vec(0xBF, dst.num(), src.num()));
    }

    /// `movsxd dst, src32`: `REX.W 63 /r` — sign-extend the low dword of `src`.
    pub fn movsxd(&mut self, dst: Gpr, src: Gpr)
        requires
            old(self).ready(),
        ensures
            final(self).ready(),
            final(self)@ == old(self)@.movsxd(dst, src),
            final(self)@.labels == old(self)@.labels,
            old(self)@.tidy() ==> final(self)@.tidy(),
    {
        proof {
            reveal(AsmState::movsxd);
        }
        self.put(ITag::Other, wrr_vec(0x63, dst.num(), src.num()));
    }

    /// `push reg`: `50+rd` (plus a `REX.B` prefix for `r8`–`r15`).
    pub fn push(&mut self, reg: Gpr)
        requires
            old(self).ready(),
        ensures
            final(self).ready(),
            final(self)@ == old(self)@.push(reg),
            final(self)@.labels == old(self)@.labels,
            old(self)@.tidy() ==> final(self)@.tidy(),
    {
        proof {
            reveal(AsmState::push);
        }
        self.put(ITag::Other, oreg_vec(0x50, reg.num()));
    }

    /// `pop reg`: `58+rd` (plus a `REX.B` prefix for `r8`–`r15`).
    pub fn pop(&mut self, reg: Gpr)
        requires
            old(self).ready(),
        ensures
            final(self).ready(),
            final(self)@ == old(self)@.pop(reg),
            final(self)@.labels == old(self)@.labels,
            old(self)@.tidy() ==> final(self)@.tidy(),
    {
        proof {
            reveal(AsmState::pop);
        }
        self.put(ITag::Other, oreg_vec(0x58, reg.num()));
    }

    /// `ret`: `C3`.
    pub fn ret(&mut self)
        requires
            old(self).ready(),
        ensures
            final(self).ready(),
            final(self)@ == old(self)@.ret(),
            final(self)@.labels == old(self)@.labels,
            old(self)@.tidy() ==> final(self)@.tidy(),
    {
        proof {
            reveal(AsmState::ret);
        }
        self.put(ITag::CtrlNoFlags, one_vec(0xC3));
    }

    /// `leave`: `C9` — `mov rsp, rbp; pop rbp` in one byte (the epilogue).
    pub fn leave(&mut self)
        requires
            old(self).ready(),
        ensures
            final(self).ready(),
            final(self)@ == old(self)@.leave(),
            final(self)@.labels == old(self)@.labels,
            old(self)@.tidy() ==> final(self)@.tidy(),
    {
        proof {
            reveal(AsmState::leave);
        }
        self.put(ITag::CtrlNoFlags, one_vec(0xC9));
    }

    /// `syscall`: `0F 05`.
    pub fn syscall(&mut self)
        requires
            old(self).ready(),
        ensures
            final(self).ready(),
            final(self)@ == old(self)@.syscall(),
            final(self)@.labels == old(self)@.labels,
            old(self)@.tidy() ==> final(self)@.tidy(),
    {
        proof {
            reveal(AsmState::syscall);
        }
        self.put(ITag::CtrlNoFlags, two_vec(0x0F, 0x05));
    }

    /// `jmp label` (near, rel32): `E9 cd`.
    pub fn jmp(&mut self, label: LabelId)
        requires
            old(self).ready(),
        ensures
            final(self).ready(),
            final(self)@ == old(self)@.jmp(label),
            final(self)@.labels == old(self)@.labels,
            old(self)@.tidy() && label.0 < old(self)@.labels.len() ==> final(self)@.tidy(),
    {
        proof {
            reveal(AsmState::jmp);
        }
        self.put_hole(ITag::Jmp { label }, one_vec(0xE9), false, FixupKind::Local(label));
    }

    /// `jcc label` (near, rel32): `0F 80+tttn cd`.
    pub fn jcc(&mut self, cc: Cc, label: LabelId)
        requires
            old(self).ready(),
        ensures
            final(self).ready(),
            final(self)@ == old(self)@.jcc(cc, label),
            final(self)@.labels == old(self)@.labels,
            old(self)@.tidy() && label.0 < old(self)@.labels.len() ==> final(self)@.tidy(),
    {
        proof {
            reveal(AsmState::jcc);
        }
        let t: u8 = cc.tttn();
        proof {
            jcc_ins_ok(t, label);
        }
        self.put_hole(ITag::Jcc { label }, two_vec(0x0F, 0x80 + t), false, FixupKind::Local(label));
    }

    /// `call func` (near, rel32): `E8 cd`.
    pub fn call_fn(&mut self, func: FnId)
        requires
            old(self).ready(),
        ensures
            final(self).ready(),
            final(self)@ == old(self)@.call_fn(func),
            final(self)@.labels == old(self)@.labels,
            old(self)@.tidy() ==> final(self)@.tidy(),
    {
        proof {
            reveal(AsmState::call_fn);
        }
        self.put_hole(ITag::CtrlNoFlags, one_vec(0xE8), false, FixupKind::Call(func));
    }

    /// `call <runtime routine>` (near, rel32): `E8 cd`.
    pub fn call_runtime(&mut self, rt: RuntimeFn)
        requires
            old(self).ready(),
        ensures
            final(self).ready(),
            final(self)@ == old(self)@.call_runtime(rt),
            final(self)@.labels == old(self)@.labels,
            old(self)@.tidy() ==> final(self)@.tidy(),
    {
        proof {
            reveal(AsmState::call_runtime);
        }
        self.put_hole(ITag::CtrlNoFlags, one_vec(0xE8), false, FixupKind::Runtime(rt));
    }

    /// `call label` (near, rel32 to a function-local label): `E8 cd`.
    pub fn call_label(&mut self, label: LabelId)
        requires
            old(self).ready(),
        ensures
            final(self).ready(),
            final(self)@ == old(self)@.call_label(label),
            final(self)@.labels == old(self)@.labels,
            old(self)@.tidy() && label.0 < old(self)@.labels.len() ==> final(self)@.tidy(),
    {
        proof {
            reveal(AsmState::call_label);
        }
        self.put_hole(ITag::CtrlNoFlags, one_vec(0xE8), false, FixupKind::Local(label));
    }

    /// An unconditional jump to a local label (alias of `Asm::jmp`, named for the render-
    /// loop call sites).
    pub fn jmp_local(&mut self, label: LabelId)
        requires
            old(self).ready(),
        ensures
            final(self).ready(),
            final(self)@ == old(self)@.jmp_local(label),
            final(self)@.labels == old(self)@.labels,
            old(self)@.tidy() && label.0 < old(self)@.labels.len() ==> final(self)@.tidy(),
    {
        proof {
            reveal(AsmState::jmp_local);
        }
        self.put_hole(ITag::Jmp { label }, one_vec(0xE9), false, FixupKind::Local(label));
    }

    /// A conditional jump to a local label (alias of `Asm::jcc`).
    pub fn jcc_local(&mut self, cc: Cc, label: LabelId)
        requires
            old(self).ready(),
        ensures
            final(self).ready(),
            final(self)@ == old(self)@.jcc_local(cc, label),
            final(self)@.labels == old(self)@.labels,
            old(self)@.tidy() && label.0 < old(self)@.labels.len() ==> final(self)@.tidy(),
    {
        proof {
            reveal(AsmState::jcc_local);
        }
        let t: u8 = cc.tttn();
        proof {
            jcc_ins_ok(t, label);
        }
        self.put_hole(ITag::Jcc { label }, two_vec(0x0F, 0x80 + t), false, FixupKind::Local(label));
    }

    /// Emits raw bytes as one instruction.
    pub fn emit_bytes(&mut self, bytes: &[u8])
        requires
            old(self).ready(),
        ensures
            final(self).ready(),
            final(self)@ == old(self)@.emit_bytes(bytes@),
            final(self)@.labels == old(self)@.labels,
            old(self)@.tidy() ==> final(self)@.tidy(),
    {
        self.put(ITag::Other, copy_bytes(bytes));
    }

    /// Makes labels `0..n`, all unbound, in place of those there were.
    pub fn reserve_labels(&mut self, n: usize)
        requires
            old(self).ready(),
        ensures
            final(self).ready(),
            final(self)@ == old(self)@.reserve_labels(n as nat),
            old(self)@.instrs.len() == 0 ==> final(self)@.tidy(),
    {
        let mut labels: Vec<Option<usize>> = Vec::new();
        let mut i: usize = 0;
        while i < n
            invariant
                i <= n,
                labels@ == Seq::new(i as nat, |k: int| None::<usize>),
            decreases n - i,
        {
            labels.push(None);
            i = i + 1;
            assert(labels@ =~= Seq::new(i as nat, |k: int| None::<usize>));
        }
        self.label_offsets = labels;
        reveal(AsmState::tidy);
    }

    /// Binds a reserved label to the next instruction.
    pub fn bind_label(&mut self, label: LabelId)
        requires
            old(self).ready(),
            label.0 < old(self)@.labels.len(),
        ensures
            final(self).ready(),
            final(self)@ == old(self)@.bind(label),
            old(self)@.tidy() && (old(self)@.numbered() ==> old(self)@.labels[label.0 as int] is None)
                ==> final(self)@.tidy(),
    {
        let ghost s = self.instrs@;
        let ghost i = Ins {
            tag: ITag::Label { label },
            bytes: Seq::empty(),
            fixups: Seq::empty(),
        };
        let at: usize = self.buf.len();
        assert(self.marks@ =~= marks_of(s));
        self.label_offsets[label.0 as usize] = Some(at);
        self.marks.push(Mark { at, tag: ITag::Label { label } });
        self.instrs = Ghost(s.push(i));
        proof {
            appended(s, i);
            assert(self.buf@ =~= flat(s) + i.bytes);
            assert(self.fixups@ =~= fixups_of(s.push(i)));
            labels_after_push(old(self)@.labels, s, i);
            assert(s.push(i).take(s.len() as int) =~= s);
            if old(self)@.tidy() && (old(self)@.numbered() ==> old(
                self,
            )@.labels[label.0 as int] is None) {
                push_tidy(old(self)@, self@, i);
            }
        }
    }

    /// Makes one more label.
    pub fn new_local_label(&mut self) -> (r: LabelId)
        requires
            old(self).ready(),
        ensures
            final(self).ready(),
            final(self)@ == old(self)@.new_label(),
            r == old(self)@.fresh(),
            old(self)@.tidy() ==> final(self)@.tidy(),
    {
        let id = LabelId(((self.label_offsets.len() as u64) % 0x1_0000_0000) as u32);
        self.label_offsets.push(None);
        proof {
            assert forall|l: LabelId|
                l.0 < self@.labels.len() && (#[trigger] self@.labels[l.0 as int]) is Some implies
                label_offset(self@.instrs, l) == Some(self@.labels[l.0 as int].unwrap() as nat) by {
                assert(old(self)@.labels[l.0 as int] == self@.labels[l.0 as int]);
            }
            reveal(AsmState::tidy);
        }
        id
    }

    /// Binds a label made by [`Asm::new_local_label`] to the next instruction.
    pub fn bind_local(&mut self, label: LabelId)
        requires
            old(self).ready(),
            label.0 < old(self)@.labels.len(),
        ensures
            final(self).ready(),
            final(self)@ == old(self)@.bind(label),
            old(self)@.tidy() && (old(self)@.numbered() ==> old(self)@.labels[label.0 as int] is None)
                ==> final(self)@.tidy(),
    {
        self.bind_label(label);
    }

    /// The bytes that optimizing saved.
    pub fn peephole_savings(&self) -> (r: usize)
        ensures
            r == self@.saved,
    {
        self.peephole_saved_bytes
    }

    /// The number of instructions so far.
    pub fn instr_count(&self) -> (r: usize)
        requires
            self.ready(),
        ensures
            r == self@.instrs.len(),
    {
        proof {
            marks_length(self.instrs@);
        }
        self.marks.len()
    }

    /// Optimizes the instructions so far; the function then takes no more.
    pub fn peephole(&mut self)
        requires
            old(self).wf(),
            old(self)@.bindings_in_table(),
        ensures
            final(self).wf(),
            final(self)@ == old(self)@.peephole(),
    {
        let notes: Vec<LineNote> = Vec::new();
        let _none = self.peephole_with_lines(&notes);
    }

    /// Optimizes the instructions so far, and gives the marks of the statements whose
    /// instructions `notes` gives; the code is the same with and without them.
    pub fn peephole_with_lines(&mut self, notes: &Vec<LineNote>) -> (marks: Vec<LineMark>)
        requires
            old(self).wf(),
            old(self)@.bindings_in_table(),
        ensures
            final(self).wf(),
            final(self)@ == old(self)@.peephole(),
            marks@ == kept_marks(old(self)@, notes@),
    {
        let ghost s = self.instrs@;
        proof {
            marks_length(s);
        }
        if self.marks.len() == 0 {
            let none: Vec<LineMark> = Vec::new();
            assert(none@ =~= Seq::empty());
            return none;
        }
        let mut instrs = self.explode_to_instrs();
        let mut from = numbers(instrs.len());
        let before: usize = self.buf.len();
        if !self.peephole_on {
            return surviving(&instrs, &from, notes);
        }
        optimize_list(&mut instrs, &mut from);
        let ghost t = views(instrs@);
        proof {
            optimize_keeps(s);
        }
        let marks = surviving(&instrs, &from, notes);
        self.reassemble_from_instrs(instrs);
        let after: usize = self.buf.len();
        self.peephole_saved_bytes = before - after;
        marks
    }

    fn explode_to_instrs(&self) -> (out: Vec<Instr>)
        requires
            self.ready(),
        ensures
            views(out@) == self@.instrs,
    {
        let ghost s = self.instrs@;
        proof {
            marks_length(s);
        }
        let _len: usize = self.buf.len();
        assert(self.marks@ =~= marks_of(s));
        let mut out: Vec<Instr> = Vec::new();
        let mut i: usize = 0;
        let mut p: usize = 0;
        assert(s.take(0) =~= Seq::empty());
        while i < self.marks.len()
            invariant
                self.ready(),
                s == self.instrs@,
                self.marks@ == marks_of(s),
                self.marks@.len() == s.len(),
                flat(s).len() <= usize::MAX,
                i <= s.len(),
                views(out@) == s.take(i as int),
                p == fixups_of(s.take(i as int)).len(),
                p <= self.fixups@.len(),
            decreases s.len() - i,
        {
            let start: usize = self.marks[i].at;
            let end: usize = if i + 1 < self.marks.len() {
                self.marks[i + 1].at
            } else {
                self.buf.len()
            };
            proof {
                mark_at(s, i as int);
                code_at(s, i as int);
                if i + 1 < s.len() {
                    mark_at(s, i + 1);
                } else {
                    assert(s.take(i + 1) =~= s);
                }
                fixups_prefix(s, i as int);
                fixups_prefix(s, i + 1);
                later_fixups(s, i + 1);
                assert(s.take(i + 1).drop_last() =~= s.take(i as int));
                assert(s.take(i + 1).last() == s[i as int]);
                assert(ins_ok(s[i as int]));
            }
            let ghost fx1 = fixups_of(s.take(i + 1));
            let part = vstd::slice::slice_subrange(self.buf.as_slice(), start, end);
            let bytes = copy_bytes(part);
            let mut fixups: Vec<(usize, FixupKind)> = Vec::new();
            let ghost own = s[i as int].fixups;
            if p < self.fixups.len() && self.fixups[p].at < end {
                let f: Fixup = self.fixups[p];
                proof {
                    if own.len() == 0 {
                        assert(fx1.len() == p);
                        assert(false);
                    }
                    assert(fx1[p as int] == placed(own, offset(s, i as int))[0]);
                    assert(self.fixups@[p as int] == fx1[p as int]);
                }
                fixups.push((f.at - start, f.kind));
                p = p + 1;
            } else {
                proof {
                    if own.len() == 1 {
                        assert(fx1[p as int] == placed(own, offset(s, i as int))[0]);
                        assert(self.fixups@[p as int] == fx1[p as int]);
                        assert(false);
                    }
                }
            }
            assert(fixups@ =~= own);
            let ghost v0 = views(out@);
            out.push(Instr { tag: self.marks[i].tag, bytes, fixups });
            assert(views(out@) =~= v0.push(s[i as int]));
            assert(s.take(i + 1) =~= s.take(i as int).push(s[i as int]));
            i = i + 1;
        }
        assert(s.take(i as int) =~= s);
        out
    }

    fn reassemble_from_instrs(&mut self, instrs: Vec<Instr>)
        requires
            old(self).ready(),
            all_ok(views(instrs@)),
            flat(views(instrs@)).len() <= old(self)@.code().len(),
            forall|l: LabelId| #[trigger]
                has_label(views(instrs@), l) <==> has_label(old(self)@.instrs, l),
            old(self)@.bindings_in_table(),
        ensures
            final(self).wf(),
            final(self)@.instrs == views(instrs@),
            final(self)@.labels == rebind(old(self)@.labels, views(instrs@)),
            final(self)@.sealed == (instrs@.len() > 0),
            final(self)@.on == old(self)@.on,
            final(self)@.saved == old(self)@.saved,
            final(self).buf@.len() == flat(views(instrs@)).len(),
    {
        let ghost s = views(instrs@);
        let ghost labels0 = self.label_offsets@;
        let ghost max = self.buf@.len();
        let _len: usize = self.buf.len();
        let mut buf: Vec<u8> = Vec::new();
        let mut fixups: Vec<Fixup> = Vec::new();
        let mut i: usize = 0;
        proof {
            assert(s.take(0) =~= Seq::empty());
            assert(buf@ =~= flat(s.take(0)));
            assert(fixups@ =~= fixups_of(s.take(0)));
        }
        while i < instrs.len()
            invariant
                s == views(instrs@),
                all_ok(s),
                i <= s.len(),
                flat(s).len() <= max <= usize::MAX,
                buf@ == flat(s.take(i as int)),
                fixups@ == fixups_of(s.take(i as int)),
                self.label_offsets@ == rebind(labels0, s.take(i as int)),
                self.label_offsets@.len() == labels0.len(),
                forall|l: LabelId| #[trigger] has_label(s, l) ==> l.0 < labels0.len(),
                self.peephole_on == old(self).peephole_on,
                self.peephole_saved_bytes == old(self).peephole_saved_bytes,
            decreases s.len() - i,
        {
            let base: usize = buf.len();
            proof {
                assert(s.take(i + 1).drop_last() =~= s.take(i as int));
                assert(s.take(i + 1).last() == s[i as int]);
                code_at(s, i as int);
                assert(ins_ok(s[i as int]));
            }
            match instrs[i].tag {
                ITag::Label { label } => {
                    proof {
                        assert(s[i as int].tag == (ITag::Label { label }));
                        assert(has_label(s, label));
                    }
                    self.label_offsets[label.0 as usize] = Some(base);
                },
                _ => {},
            }
            assert(self.label_offsets@ =~= rebind(labels0, s.take(i + 1)));
            push_all(&mut buf, instrs[i].bytes.as_slice());
            let ghost fx0 = fixups@;
            let ghost own = s[i as int].fixups;
            let mut k: usize = 0;
            assert(fixups@ =~= fx0 + placed(own.take(0), base as nat));
            while k < instrs[i].fixups.len()
                invariant
                    i < s.len(),
                    s == views(instrs@),
                    own == s[i as int].fixups,
                    k <= own.len() <= 1,
                    own.len() == 1 ==> base + own[0].0 <= usize::MAX,
                    fixups@ == fx0 + placed(own.take(k as int), base as nat),
                decreases own.len() - k,
            {
                let f: (usize, FixupKind) = instrs[i].fixups[k];
                assert(f == own[k as int]);
                fixups.push(Fixup { at: base + f.0, kind: f.1 });
                k = k + 1;
                assert(fixups@ =~= fx0 + placed(own.take(k as int), base as nat));
            }
            assert(own.take(k as int) =~= own);
            i = i + 1;
        }
        assert(s.take(i as int) =~= s);
        self.buf = buf;
        self.fixups = fixups;
        self.marks = Vec::new();
        self.instrs = Ghost(s);
        proof {
            rebind_offsets(labels0, s);
            assert forall|l: LabelId|
                l.0 < self@.labels.len() && (#[trigger] self@.labels[l.0 as int]) is Some implies
                label_offset(s, l) == Some(self@.labels[l.0 as int].unwrap() as nat) by {
                bound_has_offset(s, l);
                bound_has_offset(old(self)@.instrs, l);
                if label_offset(s, l) is None {
                    assert(!has_label(s, l));
                    assert(labels0[l.0 as int] is Some);
                    assert(old(self)@.labels[l.0 as int] is Some);
                    assert(has_label(old(self)@.instrs, l));
                }
                offset_bounded(s, l);
            }
        }
    }

    /// Optimizes the function, fills in its own jumps, and returns the code with
    /// the fixups that are left.
    pub fn finish(self) -> (r: (Vec<u8>, Vec<Fixup>))
        requires
            self.wf(),
            self@.bindings_in_table(),
            self@.targets_bound(),
        ensures
            r.0@ == linked_code(self@.peephole().instrs),
            r.1@ == outer(fixups_of(self@.peephole().instrs)),
            forall|k: int|
                0 <= k < r.1@.len() ==> (#[trigger] r.1@[k]).at + hole_width(r.1@[k].kind)
                    <= r.0@.len(),
            apart(r.1@),
    {
        let notes: Vec<LineNote> = Vec::new();
        let (code, fixups, _none) = self.finish_with_lines(&notes);
        (code, fixups)
    }

    /// As [`Asm::finish`], with the marks of the statements whose instructions `notes`
    /// gives.
    pub fn finish_with_lines(self, notes: &Vec<LineNote>) -> (r: (
        Vec<u8>,
        Vec<Fixup>,
        Vec<LineMark>,
    ))
        requires
            self.wf(),
            self@.bindings_in_table(),
            self@.targets_bound(),
        ensures
            r.0@ == linked_code(self@.peephole().instrs),
            r.1@ == outer(fixups_of(self@.peephole().instrs)),
            r.2@ == kept_marks(self@, notes@),
            forall|k: int|
                0 <= k < r.1@.len() ==> (#[trigger] r.1@[k]).at + hole_width(r.1@[k].kind)
                    <= r.0@.len(),
            apart(r.1@),
            forall|k: int| 0 <= k < r.2@.len() ==> (#[trigger] r.2@[k]).at < r.0@.len(),
            r.2@.len() <= notes@.len(),
    {
        let ghost before = self@;
        let _len: usize = self.buf.len();
        let mut this = self;
        let marks = this.peephole_with_lines(notes);
        let ghost s = this.instrs@;
        let ghost fx = this.fixups@;
        proof {
            targets_after_peephole(before);
            fixups_in_code(s);
        }
        let mut remaining: Vec<Fixup> = Vec::new();
        let mut i: usize = 0;
        assert(fx.take(0) =~= Seq::empty());
        assert(remaining@ =~= outer(fx.take(0)));
        let labels = this.label_offsets;
        let fixups = this.fixups;
        let mut buf = this.buf;
        while i < fixups.len()
            invariant
                i <= fx.len(),
                fixups@ == fx,
                fx == fixups_of(s),
                buf@ == patched(s, flat(s), fx.take(i as int)),
                buf@.len() == flat(s).len(),
                remaining@ == outer(fx.take(i as int)),
                forall|k: int|
                    0 <= k < fx.len() ==> (#[trigger] fx[k]).at + hole_width(fx[k].kind) <= flat(
                        s,
                    ).len(),
                forall|k: int|
                    0 <= k < fx.len() && (#[trigger] fx[k]).kind is Local ==> recorded(
                        s,
                        labels@,
                        fx[k].kind->Local_0,
                    ),
            decreases fx.len() - i,
        {
            let f: Fixup = fixups[i];
            proof {
                assert(fx.take(i + 1).drop_last() =~= fx.take(i as int));
                assert(fx.take(i + 1).last() == f);
                assert(fx[i as int] == f);
            }
            match f.kind {
                FixupKind::Local(label) => {
                    assert(fx[i as int].kind == FixupKind::Local(label));
                    let at: usize = f.at;
                    match labels[label.0 as usize] {
                        Some(target) => {
                            write32(&mut buf, at, displacement(target, at));
                        },
                        None => {
                            assert(false);
                        },
                    }
                },
                _ => {
                    remaining.push(f);
                },
            }
            i = i + 1;
        }
        assert(fx.take(i as int) =~= fx);
        proof {
            outer_members(fx);
            assert(apart(fx)) by {
                assert forall|j: int, k: int| 0 <= j < k < fx.len() implies (#[trigger] fx[j]).at
                    + hole_width(fx[j].kind) <= (#[trigger] fx[k]).at by {
                    holes_disjoint(s, j, k);
                }
            }
            outer_apart(fx);
            marks_lie_within(before, notes@);
        }
        (buf, remaining, marks)
    }
}

proof fn marks_lie_within(a: AsmState, notes: Seq<LineNote>)
    requires
        flat(a.peephole().instrs).len() <= usize::MAX,
    ensures
        kept_marks(a, notes).len() <= notes.len(),
        forall|k: int|
            0 <= k < kept_marks(a, notes).len() ==> (#[trigger] kept_marks(a, notes)[k]).at < flat(
                a.peephole().instrs,
            ).len(),
{
    if !a.sealed && a.instrs.len() > 0 {
        let s = settled_instrs(a);
        let o = settled_from(a);
        assert(s == a.peephole().instrs);
        marks_are_few(s, o, notes, 0);
        assert forall|k: int| 0 <= k < kept_marks(a, notes).len() implies (
        #[trigger] kept_marks(a, notes)[k]).at < flat(s).len() by {
            let _ = mark_is_of_a_statement(s, o, notes, k);
        }
    }
}

fn numbers(n: usize) -> (r: Vec<usize>)
    ensures
        r@ == identity(n as nat),
{
    let mut r: Vec<usize> = Vec::new();
    let mut i: usize = 0;
    while i < n
        invariant
            i <= n,
            r@.len() == i,
            forall|k: int| 0 <= k < i ==> #[trigger] r@[k] == k,
        decreases n - i,
    {
        r.push(i);
        i = i + 1;
    }
    assert(r@ =~= identity(n as nat));
    r
}

/// The displacement that sends the branch with its hole at `at` to `target`.
pub(crate) fn displacement(target: usize, at: usize) -> (r: u32)
    ensures
        r == rel32(target as nat, at as nat),
{
    let sum: u128 = target as u128 + 0x4_0000_0000_0000_0000u128 - (at as u128 + 4);
    proof {
        let d = target - (at + 4);
        assert(sum == d + 0x4_0000_0000 * 0x1_0000_0000);
        vstd::arithmetic::div_mod::lemma_mod_multiples_vanish(
            0x4_0000_0000,
            d as int,
            0x1_0000_0000,
        );
    }
    (sum % 0x1_0000_0000) as u32
}

// ---------------------------------------------------------------------------
//  Lemmas on instruction lists
// ---------------------------------------------------------------------------

proof fn appended(s: Seq<Ins>, i: Ins)
    ensures
        flat(s.push(i)) == flat(s) + i.bytes,
        marks_of(s.push(i)) == marks_of(s).push(Mark { at: flat(s).len() as usize, tag: i.tag }),
        fixups_of(s.push(i)) == fixups_of(s) + placed(i.fixups, flat(s).len()),
        all_ok(s) && ins_ok(i) ==> all_ok(s.push(i)),
{
    flat_push(s, i);
    assert(s.push(i).drop_last() =~= s);
    assert(s.push(i).last() == i);
    if all_ok(s) && ins_ok(i) {
        assert forall|k: int| 0 <= k < s.push(i).len() implies ins_ok(#[trigger] s.push(i)[k]) by {
            if k < s.len() {
                assert(s.push(i)[k] == s[k]);
            }
        }
    }
}

/// One more instruction whose label, if it has one, is in the table.
proof fn push_tidy(a: AsmState, b: AsmState, i: Ins)
    requires
        a.tidy(),
        b.instrs == a.instrs.push(i),
        b.labels.len() == a.labels.len(),
        forall|l: LabelId| #[trigger] refers(i, l) ==> l.0 < a.labels.len(),
        i.tag matches ITag::Label { label } ==> {
            &&& label.0 < a.labels.len()
            &&& a.numbered() ==> a.labels[label.0 as int] is None
            &&& b.labels[label.0 as int] is Some
        },
        forall|l: LabelId|
            l.0 < a.labels.len() && (#[trigger] a.labels[l.0 as int]) is Some
                ==> b.labels[l.0 as int] is Some,
    ensures
        b.tidy(),
{
    reveal(AsmState::tidy);
    if a.numbered() {
        assert forall|l: LabelId| #[trigger] has_label(b.instrs, l) implies b.labels[l.0 as int] is Some by {
            let k = choose|k: int|
                0 <= k < b.instrs.len() && (#[trigger] b.instrs[k]).tag == (ITag::Label {
                    label: l,
                });
            if k < a.instrs.len() {
                assert(a.instrs[k].tag == (ITag::Label { label: l }));
                assert(has_label(a.instrs, l));
                assert(a.labels[l.0 as int] is Some);
            }
        }
        assert forall|j: int, k: int|
            0 <= j < k < b.instrs.len() && (#[trigger] b.instrs[j]).tag is Label implies (
        #[trigger] b.instrs[k]).tag != b.instrs[j].tag by {
            assert(a.instrs[j] == b.instrs[j]);
            if k < a.instrs.len() {
                assert(a.instrs[k] == b.instrs[k]);
            } else {
                match i.tag {
                    ITag::Label { label } => {
                        if a.instrs[j].tag == i.tag {
                            assert(has_label(a.instrs, label));
                        }
                    },
                    _ => {},
                }
            }
        }
    }
    assert forall|l: LabelId| #[trigger] has_label(b.instrs, l) implies l.0 < b.labels.len() by {
        let k = choose|k: int|
            0 <= k < b.instrs.len() && (#[trigger] b.instrs[k]).tag == (ITag::Label { label: l });
        if k < a.instrs.len() {
            assert(a.instrs[k].tag == (ITag::Label { label: l }));
            assert(has_label(a.instrs, l));
        }
    }
    assert forall|k: int, l: LabelId|
        0 <= k < b.instrs.len() && #[trigger] refers(b.instrs[k], l) implies l.0
        < b.labels.len() by {
        if k < a.instrs.len() {
            assert(refers(a.instrs[k], l));
        }
    }
}

proof fn label_in_list(s: Seq<Ins>, l: LabelId)
    ensures
        last_label(s, l) matches Some(i) ==> 0 <= i < s.len() && s[i].tag == (ITag::Label {
            label: l,
        }),
        last_label(s, l) is Some <==> has_label(s, l),
    decreases s.len(),
{
    if s.len() > 0 {
        let s0 = s.drop_last();
        label_in_list(s0, l);
        if last_label(s, l) is Some {
            let i = last_label(s, l).unwrap();
            if i < s0.len() {
                assert(s[i] == s0[i]);
            }
            assert(s[i].tag == (ITag::Label { label: l }));
        }
        if has_label(s, l) {
            let i = choose|i: int|
                0 <= i < s.len() && (#[trigger] s[i]).tag == (ITag::Label { label: l });
            if i < s0.len() {
                assert(s0[i].tag == (ITag::Label { label: l }));
                assert(has_label(s0, l));
            }
        }
    }
}

pub(crate) proof fn bound_has_offset(s: Seq<Ins>, l: LabelId)
    ensures
        label_offset(s, l) is Some <==> has_label(s, l),
{
    label_in_list(s, l);
}

/// An instruction that binds nothing leaves every label where it was.
proof fn labels_after_push(labels: Seq<Option<usize>>, s: Seq<Ins>, i: Ins)
    ensures
        forall|l: LabelId|
            i.tag != (ITag::Label { label: l }) ==> #[trigger] label_offset(s.push(i), l)
                == label_offset(s, l),
        forall|l: LabelId|
            i.tag == (ITag::Label { label: l }) ==> #[trigger] label_offset(s.push(i), l) == Some(
                flat(s).len(),
            ),
{
    let t = s.push(i);
    assert(t.drop_last() =~= s);
    assert(t.last() == i);
    assert forall|l: LabelId| true implies (i.tag != (ITag::Label { label: l })
        ==> #[trigger] label_offset(t, l) == label_offset(s, l)) && (i.tag == (ITag::Label {
        label: l,
    }) ==> label_offset(t, l) == Some(flat(s).len())) by {
        label_in_list(s, l);
        if i.tag == (ITag::Label { label: l }) {
            assert(t.take(s.len() as int) =~= s);
        } else if last_label(s, l) is Some {
            let k = last_label(s, l).unwrap();
            assert(t.take(k) =~= s.take(k));
        }
    }
}

proof fn marks_length(s: Seq<Ins>)
    ensures
        marks_of(s).len() == s.len(),
    decreases s.len(),
{
    if s.len() > 0 {
        marks_length(s.drop_last());
    }
}

/// The code of a prefix is a prefix of the code.
pub proof fn code_prefix(s: Seq<Ins>, i: int)
    requires
        0 <= i <= s.len(),
    ensures
        offset(s, i) <= flat(s).len(),
        flat(s).take(offset(s, i) as int) == flat(s.take(i)),
    decreases s.len(),
{
    if i == s.len() {
        assert(s.take(i) =~= s);
        assert(flat(s).take(flat(s).len() as int) =~= flat(s));
    } else {
        let s0 = s.drop_last();
        code_prefix(s0, i);
        assert(s0.take(i) =~= s.take(i));
        assert(flat(s).take(offset(s, i) as int) =~= flat(s0).take(offset(s, i) as int));
    }
}

/// The bytes of the `i`-th instruction stand at its offset.
pub proof fn code_at(s: Seq<Ins>, i: int)
    requires
        0 <= i < s.len(),
    ensures
        offset(s, i + 1) == offset(s, i) + s[i].bytes.len(),
        offset(s, i + 1) <= flat(s).len(),
        flat(s).subrange(offset(s, i) as int, offset(s, i + 1) as int) == s[i].bytes,
{
    assert(s.take(i + 1).drop_last() =~= s.take(i));
    assert(s.take(i + 1).last() == s[i]);
    code_prefix(s, i);
    code_prefix(s, i + 1);
    let f = flat(s).take(offset(s, i + 1) as int);
    assert(f == flat(s.take(i)) + s[i].bytes);
    assert(flat(s).subrange(offset(s, i) as int, offset(s, i + 1) as int) =~= s[i].bytes) by {
        assert forall|k: int| 0 <= k < s[i].bytes.len() implies flat(s)[offset(s, i) + k]
            == s[i].bytes[k] by {
            assert(f[offset(s, i) + k] == flat(s)[offset(s, i) + k]);
        }
    }
}

proof fn mark_at(s: Seq<Ins>, i: int)
    requires
        0 <= i < s.len(),
        flat(s).len() <= usize::MAX,
    ensures
        marks_of(s).len() == s.len(),
        marks_of(s)[i].at == offset(s, i),
        marks_of(s)[i].tag == s[i].tag,
    decreases s.len(),
{
    marks_length(s);
    code_prefix(s, i);
    if i == s.len() - 1 {
        assert(s.drop_last() =~= s.take(i));
    } else {
        let s0 = s.drop_last();
        mark_at(s0, i);
        marks_length(s0);
        assert(s0.take(i) =~= s.take(i));
    }
}

/// The fixups of a prefix are a prefix of the fixups.
proof fn fixups_prefix(s: Seq<Ins>, i: int)
    requires
        0 <= i <= s.len(),
    ensures
        fixups_of(s.take(i)).len() <= fixups_of(s).len(),
        forall|k: int|
            0 <= k < fixups_of(s.take(i)).len() ==> (#[trigger] fixups_of(s)[k]) == fixups_of(
                s.take(i),
            )[k],
    decreases s.len(),
{
    if i == s.len() {
        assert(s.take(i) =~= s);
    } else {
        fixups_prefix(s.drop_last(), i);
        assert(s.drop_last().take(i) =~= s.take(i));
        assert forall|k: int| 0 <= k < fixups_of(s.take(i)).len() implies (#[trigger] fixups_of(
            s,
        )[k]) == fixups_of(s.take(i))[k] by {
            assert(fixups_of(s)[k] == fixups_of(s.drop_last())[k]);
        }
    }
}

/// The holes of the instructions from the `i`-th on lie behind its start.
proof fn later_fixups(s: Seq<Ins>, i: int)
    requires
        0 <= i <= s.len(),
        all_ok(s),
        flat(s).len() <= usize::MAX,
    ensures
        forall|k: int|
            fixups_of(s.take(i)).len() <= k < fixups_of(s).len() ==> (#[trigger] fixups_of(s)[k]).at
                >= offset(s, i),
    decreases s.len(),
{
    if i == s.len() {
        assert(s.take(i) =~= s);
    } else {
        let s0 = s.drop_last();
        assert forall|k: int| 0 <= k < s0.len() implies ins_ok(#[trigger] s0[k]) by {
            assert(s[k] == s0[k]);
        }
        later_fixups(s0, i);
        code_prefix(s0, i);
        assert(s0.take(i) =~= s.take(i));
        assert(ins_ok(s[s.len() - 1]));
        assert forall|k: int| fixups_of(s.take(i)).len() <= k < fixups_of(s).len() implies (
        #[trigger] fixups_of(s)[k]).at >= offset(s, i) by {
            if k < fixups_of(s0).len() {
                assert(fixups_of(s)[k] == fixups_of(s0)[k]);
            } else {
                let f = placed(s.last().fixups, flat(s0).len());
                assert(fixups_of(s)[k] == f[k - fixups_of(s0).len()]);
            }
        }
    }
}

/// Every hole lies within the code.
pub proof fn fixups_in_code(s: Seq<Ins>)
    requires
        all_ok(s),
        flat(s).len() <= usize::MAX,
    ensures
        forall|k: int|
            0 <= k < fixups_of(s).len() ==> (#[trigger] fixups_of(s)[k]).at + hole_width(
                fixups_of(s)[k].kind,
            ) <= flat(s).len(),
        forall|k: int|
            0 <= k < fixups_of(s).len() && (#[trigger] fixups_of(s)[k]).kind is Local ==> exists|
                i: int,
            |
                0 <= i < s.len() && refers(#[trigger] s[i], fixups_of(s)[k].kind->Local_0),
    decreases s.len(),
{
    if s.len() > 0 {
        let s0 = s.drop_last();
        assert forall|k: int| 0 <= k < s0.len() implies ins_ok(#[trigger] s0[k]) by {
            assert(s[k] == s0[k]);
        }
        fixups_in_code(s0);
        assert(ins_ok(s[s.len() - 1]));
        let f = placed(s.last().fixups, flat(s0).len());
        assert forall|k: int| 0 <= k < fixups_of(s).len() implies (#[trigger] fixups_of(s)[k]).at
            + hole_width(fixups_of(s)[k].kind) <= flat(s).len() by {
            if k < fixups_of(s0).len() {
                assert(fixups_of(s)[k] == fixups_of(s0)[k]);
            } else {
                assert(fixups_of(s)[k] == f[k - fixups_of(s0).len()]);
            }
        }
        assert forall|k: int|
            0 <= k < fixups_of(s).len() && (#[trigger] fixups_of(s)[k]).kind is Local implies exists|
            i: int,
        |
            0 <= i < s.len() && refers(#[trigger] s[i], fixups_of(s)[k].kind->Local_0) by {
            let l = fixups_of(s)[k].kind->Local_0;
            if k < fixups_of(s0).len() {
                assert(fixups_of(s)[k] == fixups_of(s0)[k]);
                let i = choose|i: int| 0 <= i < s0.len() && refers(#[trigger] s0[i], l);
                assert(refers(s[i], l));
            } else {
                let m = k - fixups_of(s0).len();
                assert(fixups_of(s)[k] == f[m]);
                assert(s.last().fixups[m].1 == FixupKind::Local(l));
                assert(refers(s[s.len() - 1], l));
            }
        }
    }
}

proof fn rebind_offsets(labels: Seq<Option<usize>>, s: Seq<Ins>)
    requires
        forall|l: LabelId| #[trigger] has_label(s, l) ==> l.0 < labels.len(),
    ensures
        rebind(labels, s).len() == labels.len(),
        forall|l: LabelId|
            l.0 < labels.len() ==> (#[trigger] rebind(labels, s)[l.0 as int]) == (match label_offset(
                s,
                l,
            ) {
                Some(o) => Some(o as usize),
                None => labels[l.0 as int],
            }),
    decreases s.len(),
{
    if s.len() > 0 {
        let s0 = s.drop_last();
        assert forall|l: LabelId| #[trigger] has_label(s0, l) implies l.0 < labels.len() by {
            let i = choose|i: int|
                0 <= i < s0.len() && (#[trigger] s0[i]).tag == (ITag::Label { label: l });
            assert(s[i].tag == (ITag::Label { label: l }));
            assert(has_label(s, l));
        }
        rebind_offsets(labels, s0);
        labels_after_push(labels, s0, s.last());
        assert(s0.push(s.last()) =~= s);
        match s.last().tag {
            ITag::Label { label } => {
                assert(s[s.len() - 1].tag == (ITag::Label { label }));
                assert(has_label(s, label));
            },
            _ => {},
        }
        assert forall|l: LabelId| l.0 < labels.len() implies (#[trigger] rebind(
            labels,
            s,
        )[l.0 as int]) == (match label_offset(s, l) {
            Some(o) => Some(o as usize),
            None => labels[l.0 as int],
        }) by {
            assert(rebind(labels, s0)[l.0 as int] == (match label_offset(s0, l) {
                Some(o) => Some(o as usize),
                None => labels[l.0 as int],
            }));
            match s.last().tag {
                ITag::Label { label } => {
                    if label.0 == l.0 {
                        assert(label == l);
                    }
                },
                _ => {},
            }
        }
    }
}

/// Whether the table holds the offset at which `l` is bound.
spec fn recorded(s: Seq<Ins>, labels: Seq<Option<usize>>, l: LabelId) -> bool {
    &&& l.0 < labels.len()
    &&& labels[l.0 as int] is Some
    &&& label_offset(s, l) == Some(labels[l.0 as int].unwrap() as nat)
}

proof fn offset_bounded(s: Seq<Ins>, l: LabelId)
    ensures
        label_offset(s, l) matches Some(o) ==> o <= flat(s).len(),
{
    label_in_list(s, l);
    if last_label(s, l) is Some {
        code_prefix(s, last_label(s, l).unwrap());
    }
}

/// After optimizing, every label that the code refers to is recorded where it
/// is bound.
proof fn targets_after_peephole(a: AsmState)
    requires
        all_ok(a.instrs),
        a.labels_ok(),
        a.bindings_in_table(),
        a.targets_bound(),
        flat(a.instrs).len() <= usize::MAX,
    ensures
        all_ok(a.peephole().instrs),
        flat(a.peephole().instrs).len() <= usize::MAX,
        forall|k: int|
            0 <= k < fixups_of(a.peephole().instrs).len() && (#[trigger] fixups_of(
                a.peephole().instrs,
            )[k]).kind is Local ==> recorded(
                a.peephole().instrs,
                a.peephole().labels,
                fixups_of(a.peephole().instrs)[k].kind->Local_0,
            ),
{
    let s = a.instrs;
    let b = a.peephole();
    let t = b.instrs;
    optimize_keeps(s);
    assert(linked(s)) by {
        assert forall|i: int, l: LabelId|
            0 <= i < s.len() && #[trigger] refers(s[i], l) implies has_label(s, l) by {
            assert(a.labels[l.0 as int] is Some);
            bound_has_offset(s, l);
        }
    }
    fixups_in_code(t);
    assert forall|k: int|
        0 <= k < fixups_of(t).len() && (#[trigger] fixups_of(t)[k]).kind is Local implies recorded(
        t,
        b.labels,
        fixups_of(t)[k].kind->Local_0,
    ) by {
        let l = fixups_of(t)[k].kind->Local_0;
        let i = choose|i: int| 0 <= i < t.len() && refers(#[trigger] t[i], l);
        assert(has_label(t, l));
        assert(has_label(s, l));
        bound_has_offset(t, l);
        offset_bounded(t, l);
        if !(a.sealed || s.len() == 0 || !a.on) {
            assert forall|l: LabelId| #[trigger] has_label(t, l) implies l.0 < a.labels.len() by {
                assert(has_label(s, l));
            }
            rebind_offsets(a.labels, t);
            assert(rebind(a.labels, t)[l.0 as int] == (match label_offset(t, l) {
                Some(o) => Some(o as usize),
                None => a.labels[l.0 as int],
            }));
        }
    }
}

// ---------------------------------------------------------------------------
//  Laws
// ---------------------------------------------------------------------------

/// Holes come in the order of their offsets, and no two share a byte.
pub proof fn holes_disjoint(s: Seq<Ins>, j: int, k: int)
    requires
        all_ok(s),
        flat(s).len() <= usize::MAX,
        0 <= j < k < fixups_of(s).len(),
    ensures
        fixups_of(s)[j].at + hole_width(fixups_of(s)[j].kind) <= fixups_of(s)[k].at,
    decreases s.len(),
{
    let s0 = s.drop_last();
    assert forall|i: int| 0 <= i < s0.len() implies ins_ok(#[trigger] s0[i]) by {
        assert(s[i] == s0[i]);
    }
    assert(ins_ok(s[s.len() - 1]));
    let f = placed(s.last().fixups, flat(s0).len());
    assert(fixups_of(s)[j] == fixups_of(s0)[j]);
    if k < fixups_of(s0).len() {
        assert(fixups_of(s)[k] == fixups_of(s0)[k]);
        holes_disjoint(s0, j, k);
    } else {
        assert(fixups_of(s)[k] == f[k - fixups_of(s0).len()]);
        fixups_in_code(s0);
    }
}

proof fn patched_length(s: Seq<Ins>, code: Seq<u8>, fx: Seq<Fixup>)
    ensures
        patched(s, code, fx).len() == code.len(),
    decreases fx.len(),
{
    if fx.len() > 0 {
        patched_length(s, code, fx.drop_last());
    }
}

/// Finished code is as long as what was emitted.
pub proof fn linked_length(s: Seq<Ins>)
    ensures
        linked_code(s).len() == flat(s).len(),
{
    patched_length(s, flat(s), fixups_of(s));
}

/// Leaving out fixups keeps the others apart.
pub proof fn outer_apart(fx: Seq<Fixup>)
    requires
        apart(fx),
    ensures
        apart(outer(fx)),
    decreases fx.len(),
{
    if fx.len() > 0 {
        let f0 = fx.drop_last();
        assert forall|j: int, k: int| 0 <= j < k < f0.len() implies (#[trigger] f0[j]).at + hole_width(
            f0[j].kind,
        ) <= (#[trigger] f0[k]).at by {
            assert(f0[j] == fx[j] && f0[k] == fx[k]);
        }
        outer_apart(f0);
        outer_members(f0);
        let o = outer(fx);
        assert forall|j: int, k: int| 0 <= j < k < o.len() implies (#[trigger] o[j]).at + hole_width(
            o[j].kind,
        ) <= (#[trigger] o[k]).at by {
            let o0 = outer(f0);
            if k < o0.len() {
                assert(o[j] == o0[j] && o[k] == o0[k]);
            } else {
                assert(o[j] == o0[j]);
                assert(f0.contains(o0[j]));
                let i = choose|i: int| 0 <= i < f0.len() && f0[i] == o0[j];
                assert(fx[i] == o[j]);
                assert(o[k] == fx[fx.len() - 1]);
            }
        }
    }
}

/// The fixups that are left are among those that were recorded.
pub proof fn outer_members(fx: Seq<Fixup>)
    ensures
        forall|k: int| 0 <= k < outer(fx).len() ==> fx.contains(#[trigger] outer(fx)[k]),
    decreases fx.len(),
{
    if fx.len() > 0 {
        let f0 = fx.drop_last();
        outer_members(f0);
        assert forall|k: int| 0 <= k < outer(fx).len() implies fx.contains(
            #[trigger] outer(fx)[k],
        ) by {
            if k < outer(f0).len() {
                assert(outer(fx)[k] == outer(f0)[k]);
                assert(f0.contains(outer(f0)[k]));
                let j = choose|j: int| 0 <= j < f0.len() && f0[j] == outer(f0)[k];
                assert(fx[j] == outer(fx)[k]);
            } else {
                assert(fx[fx.len() - 1] == outer(fx)[k]);
            }
        }
    }
}

/// A byte that no label hole covers stays as it was emitted.
proof fn patched_elsewhere(s: Seq<Ins>, code: Seq<u8>, fx: Seq<Fixup>, i: int)
    requires
        0 <= i < code.len(),
        forall|k: int|
            0 <= k < fx.len() && (#[trigger] fx[k]).kind is Local ==> !(fx[k].at <= i < fx[k].at
                + 4),
    ensures
        patched(s, code, fx)[i] == code[i],
    decreases fx.len(),
{
    patched_length(s, code, fx);
    if fx.len() > 0 {
        let fx0 = fx.drop_last();
        assert forall|k: int| 0 <= k < fx0.len() && (#[trigger] fx0[k]).kind is Local implies !(
        fx0[k].at <= i < fx0[k].at + 4) by {
            assert(fx[k] == fx0[k]);
        }
        patched_elsewhere(s, code, fx0, i);
        patched_length(s, code, fx0);
        assert(fx[fx.len() - 1] == fx.last());
    }
}

proof fn patched_later(s: Seq<Ins>, code: Seq<u8>, fx: Seq<Fixup>, n: int, i: int)
    requires
        0 <= n <= fx.len(),
        0 <= i < code.len(),
        forall|k: int|
            n <= k < fx.len() && (#[trigger] fx[k]).kind is Local ==> !(fx[k].at <= i < fx[k].at
                + 4),
    ensures
        patched(s, code, fx)[i] == patched(s, code, fx.take(n))[i],
    decreases fx.len(),
{
    patched_length(s, code, fx);
    if n == fx.len() {
        assert(fx.take(n) =~= fx);
    } else {
        let fx0 = fx.drop_last();
        assert forall|k: int| n <= k < fx0.len() && (#[trigger] fx0[k]).kind is Local implies !(
        fx0[k].at <= i < fx0[k].at + 4) by {
            assert(fx[k] == fx0[k]);
        }
        patched_later(s, code, fx0, n, i);
        patched_length(s, code, fx0);
        assert(fx0.take(n) =~= fx.take(n));
        assert(fx[fx.len() - 1] == fx.last());
    }
}

/// In finished code every jump to a label of the function holds the distance
/// from the end of its hole to the label's binding, and every byte outside
/// those holes is the byte that was emitted.
pub proof fn finished_jumps_land_on_labels(s: Seq<Ins>, k: int, l: LabelId)
    requires
        all_ok(s),
        flat(s).len() <= usize::MAX,
        0 <= k < fixups_of(s).len(),
        fixups_of(s)[k].kind == FixupKind::Local(l),
        label_offset(s, l) is Some,
    ensures
        linked_code(s).len() == flat(s).len(),
        linked_code(s).subrange(fixups_of(s)[k].at as int, fixups_of(s)[k].at + 4) == le32(
            rel32(label_offset(s, l).unwrap(), fixups_of(s)[k].at as nat),
        ),
{
    let fx = fixups_of(s);
    let at = fx[k].at as int;
    let w = rel32(label_offset(s, l).unwrap(), at as nat);
    fixups_in_code(s);
    patched_length(s, flat(s), fx);
    let code = linked_code(s);
    assert forall|i: int| at <= i < at + 4 implies #[trigger] code[i] == le32(w)[i - at] by {
        assert forall|j: int| k + 1 <= j < fx.len() && (#[trigger] fx[j]).kind is Local implies !(
        fx[j].at <= i < fx[j].at + 4) by {
            holes_disjoint(s, k, j);
        }
        patched_later(s, flat(s), fx, k + 1, i);
        assert(fx.take(k + 1).last() == fx[k]);
        assert(fx.take(k + 1).drop_last() =~= fx.take(k));
        patched_length(s, flat(s), fx.take(k));
    }
    assert(code.subrange(at, at + 4) =~= le32(w));
}

/// A byte of finished code that lies in no label hole is the byte that was
/// emitted.
pub proof fn finished_code_elsewhere(s: Seq<Ins>, i: int)
    requires
        0 <= i < flat(s).len(),
        forall|k: int|
            0 <= k < fixups_of(s).len() && (#[trigger] fixups_of(s)[k]).kind is Local ==> !(
            fixups_of(s)[k].at <= i < fixups_of(s)[k].at + 4),
    ensures
        linked_code(s)[i] == flat(s)[i],
{
    patched_elsewhere(s, flat(s), fixups_of(s), i);
}

} // verus!
