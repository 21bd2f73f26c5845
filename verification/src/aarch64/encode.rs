//! The AArch64 instruction encoder.
//!
//! Every instruction is one little-endian 32-bit word. [`Aarch64Asm`] collects
//! the words of one function; its model is [`A64State`].
use vstd::prelude::*;

use crate::bytes::{bits64, le32, push_u32, rd32, splice32, wrap64, write32};
use crate::aarch64::link::site_width;
use crate::encode::{Cc, Fixup, FixupKind, LabelId};
use crate::mir_ids::FnId;

verus! {

/// A register by its number: `x0..x30`, 31 being `sp` or `xzr`; or `d0..d31`.
#[derive(Clone, Copy, PartialEq, Eq, Structural, Hash, Debug)]
pub struct Reg(pub u8);

/// The number of the stack pointer, where an instruction takes one.
pub const SP: u8 = 31;

/// The number of the zero register, where an instruction takes one.
pub const XZR: u8 = 31;

/// The number of the frame pointer.
pub const FP: u8 = 29;

/// The number of the link register.
pub const LR: u8 = 30;

/// The width of a memory access.
#[derive(Clone, Copy, PartialEq, Eq, Structural, Debug)]
pub enum MemSize {
    /// One byte.
    B,
    /// Two bytes.
    H,
    /// Four bytes.
    W,
    /// Eight bytes.
    X,
}

impl MemSize {
    /// The two size bits of a load or store.
    pub open spec fn field(self) -> u32 {
        match self {
            MemSize::B => 0,
            MemSize::H => 1,
            MemSize::W => 2,
            MemSize::X => 3,
        }
    }

    /// The number of bytes.
    pub open spec fn width(self) -> i64 {
        match self {
            MemSize::B => 1,
            MemSize::H => 2,
            MemSize::W => 4,
            MemSize::X => 8,
        }
    }

    fn size_field(self) -> (r: u32)
        ensures
            r == self.field(),
    {
        match self {
            MemSize::B => 0,
            MemSize::H => 1,
            MemSize::W => 2,
            MemSize::X => 3,
        }
    }

    fn bytes(self) -> (r: i64)
        ensures
            r == self.width(),
    {
        match self {
            MemSize::B => 1,
            MemSize::H => 2,
            MemSize::W => 4,
            MemSize::X => 8,
        }
    }
}

/// Which displacement field a local branch has.
#[derive(Clone, Copy, PartialEq, Eq, Structural, Debug)]
pub enum BranchKind {
    /// The 26-bit field of `b`.
    Imm26,
    /// The 19-bit field of `b.cond`.
    Imm19,
}

/// A branch to a label of the same function.
#[derive(Clone, Copy, PartialEq, Eq, Structural, Debug)]
pub struct Branch {
    /// The offset of the branch instruction.
    pub at: usize,
    /// Where it goes.
    pub label: LabelId,
    /// Which field holds the displacement.
    pub kind: BranchKind,
}

// ---------------------------------------------------------------------------
//  Instruction words
// ---------------------------------------------------------------------------

/// Two register fields.
pub open spec fn rr(base: u32, rd: Reg, rn: Reg) -> u32 {
    base | ((rn.0 as u32) << 5) | (rd.0 as u32)
}

/// Three register fields.
pub open spec fn rrr(base: u32, rd: Reg, rn: Reg, rm: Reg) -> u32 {
    base | ((rm.0 as u32) << 16) | ((rn.0 as u32) << 5) | (rd.0 as u32)
}

/// Four register fields.
pub open spec fn rrra(base: u32, rd: Reg, rn: Reg, rm: Reg, ra: Reg) -> u32 {
    base | ((rm.0 as u32) << 16) | ((ra.0 as u32) << 10) | ((rn.0 as u32) << 5) | (rd.0 as u32)
}

/// Three register fields and a 6-bit shift.
pub open spec fn shifted(base: u32, rd: Reg, rn: Reg, rm: Reg, sh: u8) -> u32 {
    base | ((rm.0 as u32) << 16) | (((sh as u32) & 0x3F) << 10) | ((rn.0 as u32) << 5) | (
    rd.0 as u32)
}

/// Two register fields and a 12-bit immediate.
pub open spec fn imm(base: u32, rd: Reg, rn: Reg, imm12: u32) -> u32 {
    base | ((imm12 & 0xFFF) << 10) | ((rn.0 as u32) << 5) | (rd.0 as u32)
}

/// A bit-field move.
pub open spec fn bfm(base: u32, rd: Reg, rn: Reg, immr: u8, imms: u8) -> u32 {
    base | (((immr as u32) & 0x3F) << 16) | (((imms as u32) & 0x3F) << 10) | ((rn.0 as u32) << 5)
        | (rd.0 as u32)
}

/// A move of a 16-bit immediate into lane `hw`.
pub open spec fn movw(base: u32, rd: Reg, imm16: u16, hw: u8) -> u32 {
    base | (((hw as u32) & 3) << 21) | ((imm16 as u32) << 5) | (rd.0 as u32)
}

/// `adrp`: the page displacement in 21 bits, its low two apart.
pub open spec fn adrp_word(rd: Reg, imm21: i32) -> u32 {
    let v = imm21 % 0x20_0000;
    0x9000_0000u32 | (((v % 4) as u32) << 29) | (((v / 4) as u32) << 5) | (rd.0 as u32)
}

/// `cset rd, cc`, which is encoded with the inverse condition.
pub open spec fn cset_word(rd: Reg, cc: Cc) -> u32 {
    0x9A9F_07E0u32 | (((cc.cond_bits() ^ 1) as u32) << 12) | (rd.0 as u32)
}

/// `off / 8`, rounded towards zero.
pub open spec fn eighth(off: int) -> int {
    if off >= 0 {
        off / 8
    } else {
        -((-off) / 8)
    }
}

/// A load or store of a register pair.
pub open spec fn pair(base: u32, rt: Reg, rt2: Reg, rn: Reg, off: i32) -> u32 {
    base | (((eighth(off as int) % 128) as u32) << 15) | ((rt2.0 as u32) << 10) | ((rn.0 as u32)
        << 5) | (rt.0 as u32)
}

/// The scaled unsigned 12-bit offset, where `off` has one.
pub open spec fn scaled(off: i64, size: MemSize) -> Option<u32> {
    if off < 0 || off % size.width() != 0 || off / size.width() > 0xFFF {
        None
    } else {
        Some((off / size.width()) as u32)
    }
}

/// The signed 9-bit offset, where `off` has one.
pub open spec fn unscaled(off: i64) -> Option<u32> {
    if -256 <= off <= 255 {
        Some((off % 512) as u32)
    } else {
        None
    }
}

/// A load or store at a scaled unsigned offset.
pub open spec fn at_scaled(op: u32, size: MemSize, imm12: u32, rn: Reg, rt: Reg) -> u32 {
    (size.field() << 30) | op | (imm12 << 10) | ((rn.0 as u32) << 5) | (rt.0 as u32)
}

/// A load or store at a signed unscaled offset.
pub open spec fn at_unscaled(op: u32, size: MemSize, imm9: u32, rn: Reg, rt: Reg) -> u32 {
    (size.field() << 30) | op | (imm9 << 12) | ((rn.0 as u32) << 5) | (rt.0 as u32)
}

/// A load or store at a register offset.
pub open spec fn at_register(op: u32, size: MemSize, rm: Reg, rn: Reg, rt: Reg) -> u32 {
    (size.field() << 30) | op | ((rm.0 as u32) << 16) | ((rn.0 as u32) << 5) | (rt.0 as u32)
}

/// The 16-bit lane `i` of `u`.
pub open spec fn lane(u: u64, i: int) -> u16 {
    if i == 0 {
        (u % 0x1_0000) as u16
    } else if i == 1 {
        (u / 0x1_0000 % 0x1_0000) as u16
    } else if i == 2 {
        (u / 0x1_0000_0000 % 0x1_0000) as u16
    } else {
        (u / 0x1_0000_0000_0000) as u16
    }
}

/// The words that build `u` in `rd` from lane `i` on: `movz` for the first
/// nonzero lane, `movk` for the others; a lone `movz` of zero where none is.
pub open spec fn mov_words(rd: Reg, u: u64, i: int, started: bool) -> Seq<u32>
    decreases 4 - i,
{
    if i >= 4 {
        if started {
            Seq::empty()
        } else {
            seq![movw(0xD280_0000, rd, 0, 0)]
        }
    } else if lane(u, i) == 0 {
        mov_words(rd, u, i + 1, started)
    } else {
        seq![
            movw(
                if started {
                    0xF280_0000
                } else {
                    0xD280_0000
                },
                rd,
                lane(u, i),
                i as u8,
            ),
        ] + mov_words(rd, u, i + 1, true)
    }
}

/// The displacement field of a branch at `at` to `target`, `2^26` or `2^19` wide.
pub open spec fn branch_imm(target: int, at: int, modulus: int) -> int {
    ((target - at) / 4) % modulus
}

/// `base` with the displacement of the branch at `at` to `target` filled in.
pub open spec fn branch_word(base: int, kind: BranchKind, target: int, at: int) -> u32 {
    match kind {
        BranchKind::Imm26 => (base / 0x400_0000 * 0x400_0000 + branch_imm(
            target,
            at,
            0x400_0000,
        )) as u32,
        BranchKind::Imm19 => (base / 0x100_0000 * 0x100_0000 + 32 * branch_imm(target, at, 0x8_0000)
            + base % 32) as u32,
    }
}

/// `code` with the displacements of `br` filled in.
pub open spec fn resolved(
    code: Seq<u8>,
    labels: Seq<Option<usize>>,
    br: Seq<Branch>,
) -> Seq<u8>
    decreases br.len(),
{
    if br.len() == 0 {
        code
    } else {
        let before = resolved(code, labels, br.drop_last());
        let b = br.last();
        splice32(
            before,
            b.at as int,
            branch_word(
                rd32(code, b.at as int),
                b.kind,
                labels[b.label.0 as int].unwrap() as int,
                b.at as int,
            ),
        )
    }
}

fn rr_word(base: u32, rd: Reg, rn: Reg) -> (r: u32)
    ensures
        r == rr(base, rd, rn),
{
    base | ((rn.0 as u32) << 5) | (rd.0 as u32)
}

fn rrr_word(base: u32, rd: Reg, rn: Reg, rm: Reg) -> (r: u32)
    ensures
        r == rrr(base, rd, rn, rm),
{
    base | ((rm.0 as u32) << 16) | ((rn.0 as u32) << 5) | (rd.0 as u32)
}

fn rrra_word(base: u32, rd: Reg, rn: Reg, rm: Reg, ra: Reg) -> (r: u32)
    ensures
        r == rrra(base, rd, rn, rm, ra),
{
    base | ((rm.0 as u32) << 16) | ((ra.0 as u32) << 10) | ((rn.0 as u32) << 5) | (rd.0 as u32)
}

fn shifted_word(base: u32, rd: Reg, rn: Reg, rm: Reg, sh: u8) -> (r: u32)
    ensures
        r == shifted(base, rd, rn, rm, sh),
{
    base | ((rm.0 as u32) << 16) | (((sh as u32) & 0x3F) << 10) | ((rn.0 as u32) << 5) | (
    rd.0 as u32)
}

fn imm_word(base: u32, rd: Reg, rn: Reg, imm12: u32) -> (r: u32)
    ensures
        r == imm(base, rd, rn, imm12),
{
    base | ((imm12 & 0xFFF) << 10) | ((rn.0 as u32) << 5) | (rd.0 as u32)
}

fn bfm_word(base: u32, rd: Reg, rn: Reg, immr: u8, imms: u8) -> (r: u32)
    ensures
        r == bfm(base, rd, rn, immr, imms),
{
    base | (((immr as u32) & 0x3F) << 16) | (((imms as u32) & 0x3F) << 10) | ((rn.0 as u32) << 5)
        | (rd.0 as u32)
}

fn movw_word(base: u32, rd: Reg, imm16: u16, hw: u8) -> (r: u32)
    ensures
        r == movw(base, rd, imm16, hw),
{
    base | (((hw as u32) & 3) << 21) | ((imm16 as u32) << 5) | (rd.0 as u32)
}

fn adrp_enc(rd: Reg, imm21: i32) -> (r: u32)
    ensures
        r == adrp_word(rd, imm21),
{
    let v: u32 = ((imm21 as i64 + 0x8000_0000) % 0x20_0000) as u32;
    assert(v == imm21 % 0x20_0000);
    0x9000_0000u32 | ((v % 4) << 29) | ((v / 4) << 5) | (rd.0 as u32)
}

fn cset_enc(rd: Reg, cc: Cc) -> (r: u32)
    ensures
        r == cset_word(rd, cc),
{
    0x9A9F_07E0u32 | (((cc.cond4() ^ 1) as u32) << 12) | (rd.0 as u32)
}

fn pair_word(base: u32, rt: Reg, rt2: Reg, rn: Reg, off: i32) -> (r: u32)
    ensures
        r == pair(base, rt, rt2, rn, off),
{
    let e: u32 = if off >= 0 {
        ((off / 8) % 128) as u32
    } else {
        let q: i64 = (-(off as i64)) / 8;
        ((0x4000_0000 - q) % 128) as u32
    };
    assert(e == eighth(off as int) % 128);
    base | (e << 15) | ((rt2.0 as u32) << 10) | ((rn.0 as u32) << 5) | (rt.0 as u32)
}

fn at_scaled_word(op: u32, size: MemSize, imm12: u32, rn: Reg, rt: Reg) -> (r: u32)
    ensures
        r == at_scaled(op, size, imm12, rn, rt),
{
    (size.size_field() << 30) | op | (imm12 << 10) | ((rn.0 as u32) << 5) | (rt.0 as u32)
}

fn at_unscaled_word(op: u32, size: MemSize, imm9: u32, rn: Reg, rt: Reg) -> (r: u32)
    ensures
        r == at_unscaled(op, size, imm9, rn, rt),
{
    (size.size_field() << 30) | op | (imm9 << 12) | ((rn.0 as u32) << 5) | (rt.0 as u32)
}

fn at_register_word(op: u32, size: MemSize, rm: Reg, rn: Reg, rt: Reg) -> (r: u32)
    ensures
        r == at_register(op, size, rm, rn, rt),
{
    (size.size_field() << 30) | op | ((rm.0 as u32) << 16) | ((rn.0 as u32) << 5) | (rt.0 as u32)
}

fn lane_of(u: u64, i: usize) -> (r: u16)
    requires
        i < 4,
    ensures
        r == lane(u, i as int),
{
    if i == 0 {
        (u % 0x1_0000) as u16
    } else if i == 1 {
        (u / 0x1_0000 % 0x1_0000) as u16
    } else if i == 2 {
        (u / 0x1_0000_0000 % 0x1_0000) as u16
    } else {
        (u / 0x1_0000_0000_0000) as u16
    }
}

fn scaled_off(off: i64, size: MemSize) -> (r: Option<u32>)
    ensures
        r == scaled(off, size),
{
    let bytes: i64 = size.bytes();
    if off < 0 || off % bytes != 0 {
        return None;
    }
    let n: i64 = off / bytes;
    if n > 0xFFF {
        return None;
    }
    Some(n as u32)
}

fn unscaled_off(off: i64) -> (r: Option<u32>)
    ensures
        r == unscaled(off),
{
    if -256 <= off && off <= 255 {
        Some(((off + 512) % 512) as u32)
    } else {
        None
    }
}

// ---------------------------------------------------------------------------
//  The model
// ---------------------------------------------------------------------------

/// What an [`Aarch64Asm`] holds.
pub struct A64State {
    /// The code so far.
    pub code: Seq<u8>,
    /// The fixups that need the whole program.
    pub fixups: Seq<Fixup>,
    /// The offset each label was bound at, by label number.
    pub labels: Seq<Option<usize>>,
    /// The branches to labels of the function.
    pub branches: Seq<Branch>,
}

/// The bytes of a sequence of words.
pub open spec fn word_bytes(w: Seq<u32>) -> Seq<u8>
    decreases w.len(),
{
    if w.len() == 0 {
        Seq::empty()
    } else {
        word_bytes(w.drop_last()) + le32(w.last())
    }
}

/// Whether fixups stand in order and none reaches into the next.
pub open spec fn sites_in_order(fx: Seq<Fixup>) -> bool {
    forall|j: int, k: int|
        0 <= j < k < fx.len() ==> (#[trigger] fx[j]).at + site_width(fx[j].kind) <= (
        #[trigger] fx[k]).at
}

proof fn order_grows(fx: Seq<Fixup>, f: Fixup)
    requires
        sites_in_order(fx),
        forall|k: int| 0 <= k < fx.len() ==> (#[trigger] fx[k]).at + site_width(fx[k].kind) <= f.at,
    ensures
        sites_in_order(fx.push(f)),
{
    let g = fx.push(f);
    assert forall|j: int, k: int| 0 <= j < k < g.len() implies (#[trigger] g[j]).at + site_width(
        g[j].kind,
    ) <= (#[trigger] g[k]).at by {
        assert(g[j] == fx[j]);
        if k < fx.len() {
            assert(g[k] == fx[k]);
        }
    }
}

impl A64State {
    /// An empty function.
    pub open spec fn empty() -> A64State {
        A64State {
            code: Seq::empty(),
            fixups: Seq::empty(),
            labels: Seq::empty(),
            branches: Seq::empty(),
        }
    }

    /// One more word.
    pub open spec fn word(self, w: u32) -> A64State {
        A64State { code: self.code + le32(w), ..self }
    }

    /// More words.
    pub open spec fn words(self, w: Seq<u32>) -> A64State {
        A64State { code: self.code + word_bytes(w), ..self }
    }

    /// One more fixup, at the next word.
    pub open spec fn fixup(self, kind: FixupKind) -> A64State {
        A64State {
            fixups: self.fixups.push(Fixup { at: self.code.len() as usize, kind }),
            ..self
        }
    }

    /// One more local branch, at the next word.
    pub open spec fn branch(self, label: LabelId, kind: BranchKind) -> A64State {
        A64State {
            branches: self.branches.push(Branch { at: self.code.len() as usize, label, kind }),
            ..self
        }
    }

    /// Materializes an arbitrary 64-bit immediate into `rd` using the minimal `movz`+`movk`
    /// sequence: `movz` the lowest non-trivial lane, then `movk` every remaining nonzero
    /// lane.
    #[verifier::opaque]
    pub open spec fn mov_imm(self, rd: Reg, imm: i64) -> A64State {
        self.words(mov_words(rd, wrap64(imm as int), 0, false))
    }

    /// A four-word hole for an address: `movz` and three `movk`.
    pub open spec fn address_hole(self, rd: Reg, kind: FixupKind) -> A64State {
        self.fixup(kind).movz(rd, 0, 0).movk(rd, 0, 1).movk(rd, 0, 2).movk(rd, 0, 3)
    }

    /// Materializes a `.rodata` pointer hole: a 4-instruction `movz`+`movk×3` sequence
    /// (`mov_imm`-shaped) whose 16-bit lanes are patched at link time to the string's
    /// absolute virtual address.
    #[verifier::opaque]
    pub open spec fn mov_imm_data(self, rd: Reg, data_off: u32) -> A64State {
        self.address_hole(rd, FixupKind::Data(data_off))
    }

    /// Materializes a writable state-segment pointer hole, like `Aarch64Asm::mov_imm_data`
    /// but resolving to `state_vaddr + offset`.
    #[verifier::opaque]
    pub open spec fn mov_imm_state(self, rd: Reg, state_off: u32) -> A64State {
        self.address_hole(rd, FixupKind::State(state_off))
    }

    /// `add Rd, Rn, #imm` for a non-negative immediate that may exceed the 12-bit field.
    #[verifier::opaque]
    pub open spec fn add_imm_pos(self, rd: Reg, rn: Reg, imm: u32) -> A64State {
        if imm <= 0xFFF {
            self.add_imm(rd, rn, imm)
        } else if imm % 0x1000 == 0 && imm / 0x1000 <= 0xFFF {
            self.word(self::imm(0x9140_0000, rd, rn, imm / 0x1000))
        } else {
            self.mov_imm(Reg(15), imm as i64).add_ext(rd, rn, Reg(15))
        }
    }

    /// `add Rd, Rn, #disp` where `disp` may be **negative** (a frame-home offset is `fp -
    /// k`).
    #[verifier::opaque]
    pub open spec fn add_imm_to(self, rd: Reg, rn: Reg, disp: i32) -> A64State {
        if disp >= 0 {
            self.add_imm_pos(rd, rn, disp as u32)
        } else if -disp <= 0xFFF {
            self.sub_imm(rd, rn, (-disp) as u32)
        } else {
            self.mov_imm(Reg(15), disp as i64).add_ext(rd, rn, Reg(15))
        }
    }

    /// A load or store: `op` at a scaled offset, `op_u` at a signed 9-bit one,
    /// else `op_r` at an offset in `x17`.
    pub open spec fn access(
        self,
        op: u32,
        op_u: u32,
        op_r: u32,
        rt: Reg,
        rn: Reg,
        off: i64,
        size: MemSize,
    ) -> A64State {
        match scaled(off, size) {
            Some(i) => self.word(at_scaled(op, size, i, rn, rt)),
            None => match unscaled(off) {
                Some(i) => self.word(at_unscaled(op_u, size, i, rn, rt)),
                None => self.mov_imm(Reg(17), off).word(at_register(op_r, size, Reg(17), rn, rt)),
            },
        }
    }

    /// `str Rt, [Rn, #off]` — store the full register (or a sub-width slice per `size`).
    #[verifier::opaque]
    pub open spec fn store(self, rt: Reg, rn: Reg, off: i64, size: MemSize) -> A64State {
        self.access(0x3900_0000, 0x3800_0000, 0x3820_6800, rt, rn, off, size)
    }

    /// `ldr Rt, [Rn, #off]` — load, zero-extending sub-width sizes.
    #[verifier::opaque]
    pub open spec fn load(self, rt: Reg, rn: Reg, off: i64, size: MemSize) -> A64State {
        self.access(0x3940_0000, 0x3840_0000, 0x3860_6800, rt, rn, off, size)
    }

    /// `ldrs{b,h,w} Rt, [Rn, #off]` — sign-extending sub-width load (64-bit destination,
    /// `opc=10`).
    #[verifier::opaque]
    pub open spec fn load_signed(self, rt: Reg, rn: Reg, off: i64, size: MemSize) -> A64State {
        if size == MemSize::X {
            self.load(rt, rn, off, size)
        } else {
            self.access(0x3980_0000, 0x3880_0000, 0x38A0_6800, rt, rn, off, size)
        }
    }

    /// `b label` — unconditional branch to a function-local label (`imm26`).
    #[verifier::opaque]
    pub open spec fn b(self, label: LabelId) -> A64State {
        self.branch(label, BranchKind::Imm26).word(0x1400_0000)
    }

    /// `b.cc label` — conditional branch (`imm19`).
    #[verifier::opaque]
    pub open spec fn bcc(self, cc: Cc, label: LabelId) -> A64State {
        self.branch(label, BranchKind::Imm19).word(0x5400_0000u32 | (cc.cond_bits() as u32))
    }

    /// `bl func` — branch-with-link to another function (an `imm26` call).
    #[verifier::opaque]
    pub open spec fn bl_fn(self, func: FnId) -> A64State {
        self.fixup(FixupKind::Call(func)).word(0x9400_0000)
    }

    /// `n` fresh labels, and no others.
    pub open spec fn reserve_labels(self, n: nat) -> A64State {
        A64State { labels: Seq::new(n, |i: int| None), ..self }
    }

    /// One more label.
    pub open spec fn new_label(self) -> A64State {
        A64State { labels: self.labels.push(None), ..self }
    }

    /// `label` bound here.
    pub open spec fn bind(self, label: LabelId) -> A64State {
        A64State {
            labels: self.labels.update(label.0 as int, Some(self.code.len() as usize)),
            ..self
        }
    }

    /// Whether every label that a branch goes to is in the label table, and the fixups
    /// stand in order within the code.
    #[verifier::opaque]
    pub open spec fn tidy(self) -> bool {
        &&& forall|k: int|
            0 <= k < self.branches.len() ==> (#[trigger] self.branches[k]).label.0
                < self.labels.len()
        &&& forall|k: int|
            0 <= k < self.fixups.len() ==> (#[trigger] self.fixups[k]).at + site_width(
                self.fixups[k].kind,
            ) <= self.code.len()
        &&& sites_in_order(self.fixups)
    }

    /// The number that the next label gets.
    pub open spec fn fresh(self) -> LabelId {
        LabelId((self.labels.len() % 0x1_0000_0000) as u32)
    }

    /// Whether every label that a branch goes to has been bound.
    pub open spec fn targets_bound(self) -> bool {
        forall|k: int|
            0 <= k < self.branches.len() ==> (#[trigger] self.branches[k]).label.0
                < self.labels.len() && self.labels[self.branches[k].label.0 as int] is Some
    }

    /// Code, labels and branches stand at word boundaries, branches in order.
    pub open spec fn wf(self) -> bool {
        &&& self.code.len() % 4 == 0
        &&& forall|k: int|
            0 <= k < self.labels.len() && (#[trigger] self.labels[k]) is Some
                ==> self.labels[k].unwrap() % 4 == 0
        &&& forall|k: int|
            0 <= k < self.branches.len() ==> (#[trigger] self.branches[k]).at % 4 == 0
                && self.branches[k].at + 4 <= self.code.len()
        &&& forall|j: int, k: int|
            0 <= j < k < self.branches.len() ==> (#[trigger] self.branches[j]).at + 4 <= (
            #[trigger] self.branches[k]).at
    }

    /// `movz Rd, #imm16, LSL #(hw*16)` — zero-out then set one 16-bit lane.
    #[verifier::opaque]
    pub open spec fn movz(self, rd: Reg, imm16: u16, hw: u8) -> A64State {
        self.word(movw(0xD280_0000, rd, imm16, hw))
    }

    /// `movk Rd, #imm16, LSL #(hw*16)` — keep the other lanes, set one lane.
    #[verifier::opaque]
    pub open spec fn movk(self, rd: Reg, imm16: u16, hw: u8) -> A64State {
        self.word(movw(0xF280_0000, rd, imm16, hw))
    }

    /// `movn Rd, #imm16, LSL #(hw*16)` — move the bitwise-NOT of one lane (used to
    /// materialize small negative constants compactly).
    #[verifier::opaque]
    pub open spec fn movn(self, rd: Reg, imm16: u16, hw: u8) -> A64State {
        self.word(movw(0x9280_0000, rd, imm16, hw))
    }

    /// `adrp Rd, page` — form a PC-relative ±4 GiB page address.
    #[verifier::opaque]
    pub open spec fn adrp(self, rd: Reg, imm21: i32) -> A64State {
        self.word(adrp_word(rd, imm21))
    }

    /// `add Rd, Rn, Rm` (64-bit, no shift).
    #[verifier::opaque]
    pub open spec fn add(self, rd: Reg, rn: Reg, rm: Reg) -> A64State {
        self.word(rrr(0x8B00_0000, rd, rn, rm))
    }

    /// `sub Rd, Rn, Rm` (base `0xCB000000`).
    #[verifier::opaque]
    pub open spec fn sub(self, rd: Reg, rn: Reg, rm: Reg) -> A64State {
        self.word(rrr(0xCB00_0000, rd, rn, rm))
    }

    /// `add Rd, Rn, Rm` in the **extended-register** form (`option = UXTX`, `imm3 = 0`) —
    /// i.e.
    #[verifier::opaque]
    pub open spec fn add_ext(self, rd: Reg, rn: Reg, rm: Reg) -> A64State {
        self.word(rrr(0x8B20_6000, rd, rn, rm))
    }

    /// `sub Rd, Rn, Rm` in the **extended-register** form (`option = UXTX`, `imm3 = 0`) —
    /// the SP-capable subtract (slot 31 means `sp`, not `xzr`).
    #[verifier::opaque]
    pub open spec fn sub_ext(self, rd: Reg, rn: Reg, rm: Reg) -> A64State {
        self.word(rrr(0xCB20_6000, rd, rn, rm))
    }

    /// `and Rd, Rn, Rm` (base `0x8A000000`).
    #[verifier::opaque]
    pub open spec fn and(self, rd: Reg, rn: Reg, rm: Reg) -> A64State {
        self.word(rrr(0x8A00_0000, rd, rn, rm))
    }

    /// `orr Rd, Rn, Rm` (base `0xAA000000`).
    #[verifier::opaque]
    pub open spec fn orr(self, rd: Reg, rn: Reg, rm: Reg) -> A64State {
        self.word(rrr(0xAA00_0000, rd, rn, rm))
    }

    /// `eor Rd, Rn, Rm` (base `0xCA000000`).
    #[verifier::opaque]
    pub open spec fn eor(self, rd: Reg, rn: Reg, rm: Reg) -> A64State {
        self.word(rrr(0xCA00_0000, rd, rn, rm))
    }

    /// `orn Rd, Rn, Rm` — `Rn | ~Rm`; with `Rn == xzr` this is `mvn`/`not`.
    #[verifier::opaque]
    pub open spec fn orn(self, rd: Reg, rn: Reg, rm: Reg) -> A64State {
        self.word(rrr(0xAA20_0000, rd, rn, rm))
    }

    /// `mul Rd, Rn, Rm` = `madd Rd, Rn, Rm, xzr`.
    #[verifier::opaque]
    pub open spec fn mul(self, rd: Reg, rn: Reg, rm: Reg) -> A64State {
        self.word(rrr(0x9B00_7C00, rd, rn, rm))
    }

    /// `sdiv Rd, Rn, Rm` — signed divide.
    #[verifier::opaque]
    pub open spec fn sdiv(self, rd: Reg, rn: Reg, rm: Reg) -> A64State {
        self.word(rrr(0x9AC0_0C00, rd, rn, rm))
    }

    /// `udiv Rd, Rn, Rm` — unsigned divide.
    #[verifier::opaque]
    pub open spec fn udiv(self, rd: Reg, rn: Reg, rm: Reg) -> A64State {
        self.word(rrr(0x9AC0_0800, rd, rn, rm))
    }

    /// `smulh Rd, Rn, Rm` — signed high 64 bits of a 128-bit product (signed multiply-
    /// overflow check).
    #[verifier::opaque]
    pub open spec fn smulh(self, rd: Reg, rn: Reg, rm: Reg) -> A64State {
        self.word(rrr(0x9B40_7C00, rd, rn, rm))
    }

    /// `umulh Rd, Rn, Rm` — unsigned high 64 bits of the product.
    #[verifier::opaque]
    pub open spec fn umulh(self, rd: Reg, rn: Reg, rm: Reg) -> A64State {
        self.word(rrr(0x9BC0_7C00, rd, rn, rm))
    }

    /// `lslv Rd, Rn, Rm` — logical shift left by a register amount.
    #[verifier::opaque]
    pub open spec fn lslv(self, rd: Reg, rn: Reg, rm: Reg) -> A64State {
        self.word(rrr(0x9AC0_2000, rd, rn, rm))
    }

    /// `lsrv Rd, Rn, Rm` — logical shift right (base `0x9AC02400`).
    #[verifier::opaque]
    pub open spec fn lsrv(self, rd: Reg, rn: Reg, rm: Reg) -> A64State {
        self.word(rrr(0x9AC0_2400, rd, rn, rm))
    }

    /// `asrv Rd, Rn, Rm` — arithmetic (sign-propagating) shift right (base `0x9AC02800`).
    #[verifier::opaque]
    pub open spec fn asrv(self, rd: Reg, rn: Reg, rm: Reg) -> A64State {
        self.word(rrr(0x9AC0_2800, rd, rn, rm))
    }

    /// `adds Rd, Rn, Rm` — flag-setting add (base `0xAB000000`).
    #[verifier::opaque]
    pub open spec fn adds(self, rd: Reg, rn: Reg, rm: Reg) -> A64State {
        self.word(rrr(0xAB00_0000, rd, rn, rm))
    }

    /// `subs Rd, Rn, Rm` — flag-setting subtract (base `0xEB000000`).
    #[verifier::opaque]
    pub open spec fn subs(self, rd: Reg, rn: Reg, rm: Reg) -> A64State {
        self.word(rrr(0xEB00_0000, rd, rn, rm))
    }

    /// `add Rd, Rn, Rm, LSL #sh` — shifted add, used to scale an index by a power-of-two
    /// element stride in one instruction.
    #[verifier::opaque]
    pub open spec fn add_lsl(self, rd: Reg, rn: Reg, rm: Reg, sh: u8) -> A64State {
        self.word(shifted(0x8B00_0000, rd, rn, rm, sh))
    }

    /// `madd Rd, Rn, Rm, Ra` — `Ra + Rn*Rm`.
    #[verifier::opaque]
    pub open spec fn madd(self, rd: Reg, rn: Reg, rm: Reg, ra: Reg) -> A64State {
        self.word(rrra(0x9B00_0000, rd, rn, rm, ra))
    }

    /// `msub Rd, Rn, Rm, Ra` — `Ra - Rn*Rm`; the remainder building block (`rem = a -
    /// (a/b)*b`).
    #[verifier::opaque]
    pub open spec fn msub(self, rd: Reg, rn: Reg, rm: Reg, ra: Reg) -> A64State {
        self.word(rrra(0x9B00_8000, rd, rn, rm, ra))
    }

    /// `mov Rd, Rn` (register copy) = `orr Rd, xzr, Rn`.
    #[verifier::opaque]
    pub open spec fn mov_reg(self, rd: Reg, rn: Reg) -> A64State {
        self.word(rrr(0xAA00_0000, rd, Reg(XZR), rn))
    }

    /// `mvn Rd, Rm` = `orn Rd, xzr, Rm` — bitwise NOT.
    #[verifier::opaque]
    pub open spec fn mvn(self, rd: Reg, rm: Reg) -> A64State {
        self.word(rrr(0xAA20_0000, rd, Reg(XZR), rm))
    }

    /// `neg Rd, Rm` = `sub Rd, xzr, Rm` — two's-complement negate.
    #[verifier::opaque]
    pub open spec fn neg(self, rd: Reg, rm: Reg) -> A64State {
        self.word(rrr(0xCB00_0000, rd, Reg(XZR), rm))
    }

    /// `ubfm Rd, Rn, #immr, #imms` — the bitfield-move primitive behind immediate
    /// `lsl`/`lsr` and unsigned narrows.
    #[verifier::opaque]
    pub open spec fn ubfm(self, rd: Reg, rn: Reg, immr: u8, imms: u8) -> A64State {
        self.word(bfm(0xD340_0000, rd, rn, immr, imms))
    }

    /// `sbfm Rd, Rn, #immr, #imms` — signed bitfield move (sign-extending narrows / `asr`
    /// immediate).
    #[verifier::opaque]
    pub open spec fn sbfm(self, rd: Reg, rn: Reg, immr: u8, imms: u8) -> A64State {
        self.word(bfm(0x9340_0000, rd, rn, immr, imms))
    }

    /// `lsl Rd, Rn, #sh` — immediate logical shift left, via `ubfm`.
    #[verifier::opaque]
    pub open spec fn lsl_imm(self, rd: Reg, rn: Reg, sh: u8) -> A64State {
        self.word(bfm(0xD340_0000, rd, rn, ((64 - sh % 64) % 64) as u8, (63 - sh % 64) as u8))
    }

    /// `lsr Rd, Rn, #sh` — immediate logical shift right, via `ubfm`.
    #[verifier::opaque]
    pub open spec fn lsr_imm(self, rd: Reg, rn: Reg, sh: u8) -> A64State {
        self.word(bfm(0xD340_0000, rd, rn, (sh % 64) as u8, 63))
    }

    /// `asr Rd, Rn, #sh` — immediate arithmetic shift right, via `sbfm`.
    #[verifier::opaque]
    pub open spec fn asr_imm(self, rd: Reg, rn: Reg, sh: u8) -> A64State {
        self.word(bfm(0x9340_0000, rd, rn, (sh % 64) as u8, 63))
    }

    /// `add Rd, Rn, #imm12` (unsigned 12-bit immediate, no shift).
    #[verifier::opaque]
    pub open spec fn add_imm(self, rd: Reg, rn: Reg, imm12: u32) -> A64State {
        self.word(imm(0x9100_0000, rd, rn, imm12))
    }

    /// `sub Rd, Rn, #imm12` (base `0xD1000000`).
    #[verifier::opaque]
    pub open spec fn sub_imm(self, rd: Reg, rn: Reg, imm12: u32) -> A64State {
        self.word(imm(0xD100_0000, rd, rn, imm12))
    }

    /// `adds Rd, Rn, #imm12` — flag-setting add (base `0xB1000000`).
    #[verifier::opaque]
    pub open spec fn adds_imm(self, rd: Reg, rn: Reg, imm12: u32) -> A64State {
        self.word(imm(0xB100_0000, rd, rn, imm12))
    }

    /// `subs Rd, Rn, #imm12` — flag-setting subtract (base `0xF1000000`).
    #[verifier::opaque]
    pub open spec fn subs_imm(self, rd: Reg, rn: Reg, imm12: u32) -> A64State {
        self.word(imm(0xF100_0000, rd, rn, imm12))
    }

    /// `mov Rd, sp` / `mov sp, Rn` — the SP-form move (`add Rd, Rn, #0`), distinct from the
    /// `orr`-based register move because `xzr`/`sp` share slot 31.
    #[verifier::opaque]
    pub open spec fn mov_sp(self, rd: Reg, rn: Reg) -> A64State {
        self.word(imm(0x9100_0000, rd, rn, 0))
    }

    /// `cmp Rn, #imm12` = `subs xzr, Rn, #imm12`.
    #[verifier::opaque]
    pub open spec fn cmp_imm(self, rn: Reg, imm12: u32) -> A64State {
        self.word(imm(0xF100_0000, Reg(XZR), rn, imm12))
    }

    /// `cmp Rn, Rm` = `subs xzr, Rn, Rm`.
    #[verifier::opaque]
    pub open spec fn cmp(self, rn: Reg, rm: Reg) -> A64State {
        self.word(rrr(0xEB00_0000, Reg(XZR), rn, rm))
    }

    /// `tst Rn, Rm` = `ands xzr, Rn, Rm` — flag-setting AND.
    #[verifier::opaque]
    pub open spec fn tst(self, rn: Reg, rm: Reg) -> A64State {
        self.word(rrr(0xEA00_0000, Reg(XZR), rn, rm))
    }

    /// `cset Rd, cc` = `csinc Rd, xzr, xzr, invert(cc)` — materialize a condition into a
    /// 0/1 boolean.
    #[verifier::opaque]
    pub open spec fn cset(self, rd: Reg, cc: Cc) -> A64State {
        self.word(cset_word(rd, cc))
    }

    /// `stp Rt, Rt2, [sp, #-16]!` — pre-indexed store-pair, the AAPCS64 frame save of
    /// `{x29, x30}`.
    #[verifier::opaque]
    pub open spec fn stp_pre(self, rt: Reg, rt2: Reg, rn: Reg, off: i32) -> A64State {
        self.word(pair(0xA980_0000, rt, rt2, rn, off))
    }

    /// `ldp Rt, Rt2, [sp], #16` — post-indexed load-pair, the frame restore of `{x29,
    /// x30}`.
    #[verifier::opaque]
    pub open spec fn ldp_post(self, rt: Reg, rt2: Reg, rn: Reg, off: i32) -> A64State {
        self.word(pair(0xA8C0_0000, rt, rt2, rn, off))
    }

    /// `ret` (`ret x30`) — return to the link register.
    #[verifier::opaque]
    pub open spec fn ret(self) -> A64State {
        self.word(0xD65F_03C0)
    }

    /// `svc #0` — supervisor call (a Linux syscall).
    #[verifier::opaque]
    pub open spec fn svc0(self) -> A64State {
        self.word(0xD400_0001)
    }

    /// `fadd Dd, Dn, Dm` (base `0x1E602800`).
    #[verifier::opaque]
    pub open spec fn fadd(self, dd: Reg, dn: Reg, dm: Reg) -> A64State {
        self.word(rrr(0x1E60_2800, dd, dn, dm))
    }

    /// `fsub Dd, Dn, Dm` (base `0x1E603800`).
    #[verifier::opaque]
    pub open spec fn fsub(self, dd: Reg, dn: Reg, dm: Reg) -> A64State {
        self.word(rrr(0x1E60_3800, dd, dn, dm))
    }

    /// `fmul Dd, Dn, Dm` (base `0x1E600800`).
    #[verifier::opaque]
    pub open spec fn fmul(self, dd: Reg, dn: Reg, dm: Reg) -> A64State {
        self.word(rrr(0x1E60_0800, dd, dn, dm))
    }

    /// `fdiv Dd, Dn, Dm` (base `0x1E601800`).
    #[verifier::opaque]
    pub open spec fn fdiv(self, dd: Reg, dn: Reg, dm: Reg) -> A64State {
        self.word(rrr(0x1E60_1800, dd, dn, dm))
    }

    /// `fcmp Dn, Dm` (base `0x1E602000`).
    #[verifier::opaque]
    pub open spec fn fcmp(self, dn: Reg, dm: Reg) -> A64State {
        self.word(rrr(0x1E60_2000, Reg(0), dn, dm))
    }

    /// `scvtf Dd, Xn` — signed 64-bit int → double (base `0x9E620000`).
    #[verifier::opaque]
    pub open spec fn scvtf(self, dd: Reg, xn: Reg) -> A64State {
        self.word(rr(0x9E62_0000, dd, xn))
    }

    /// `fcvtzs Xd, Dn` — double → signed 64-bit int, truncating (base `0x9E780000`).
    #[verifier::opaque]
    pub open spec fn fcvtzs(self, xd: Reg, dn: Reg) -> A64State {
        self.word(rr(0x9E78_0000, xd, dn))
    }
}

/// A function under construction.
pub struct Aarch64Asm {
    buf: Vec<u8>,
    fixups: Vec<Fixup>,
    label_offsets: Vec<Option<usize>>,
    local_branches: Vec<Branch>,
}

impl View for Aarch64Asm {
    type V = A64State;

    closed spec fn view(&self) -> A64State {
        A64State {
            code: self.buf@,
            fixups: self.fixups@,
            labels: self.label_offsets@,
            branches: self.local_branches@,
        }
    }
}

impl Aarch64Asm {
    /// See [`A64State::wf`].
    pub open spec fn wf(&self) -> bool {
        self@.wf()
    }

    /// An empty function.
    pub fn new() -> (r: Aarch64Asm)
        ensures
            r.wf(),
            r@ == A64State::empty(),
    {
        let r = Aarch64Asm {
            buf: Vec::new(),
            fixups: Vec::new(),
            label_offsets: Vec::new(),
            local_branches: Vec::new(),
        };
        proof {
            assert(r.buf@ =~= Seq::empty());
            assert(r.fixups@ =~= Seq::empty());
            assert(r.label_offsets@ =~= Seq::empty());
            assert(r.local_branches@ =~= Seq::empty());
        }
        r
    }

    /// The offset of the next instruction.
    pub fn pos(&self) -> (r: usize)
        ensures
            r == self@.code.len(),
    {
        self.buf.len()
    }

    /// The code so far, its branches still open.
    pub fn code(&self) -> (r: &[u8])
        ensures
            r@ == self@.code,
    {
        self.buf.as_slice()
    }

    fn word(&mut self, w: u32)
        requires
            old(self).wf(),
        ensures
            final(self).wf(),
            final(self)@ == old(self)@.word(w),
            final(self)@.labels == old(self)@.labels,
            old(self)@.tidy() ==> final(self)@.tidy(),
    {
        push_u32(&mut self.buf, w);
        proof {
            reveal(A64State::tidy);
        }
    }

    fn fixup(&mut self, kind: FixupKind)
        requires
            old(self).wf(),
        ensures
            final(self).wf(),
            final(self)@ == old(self)@.fixup(kind),
            final(self)@.labels == old(self)@.labels,
    {
        self.fixups.push(Fixup { at: self.buf.len(), kind });
    }

    /// `movz Rd, #imm16, LSL #(hw*16)` — zero-out then set one 16-bit lane.
    pub fn movz(&mut self, rd: Reg, imm16: u16, hw: u8)
        requires
            old(self).wf(),
        ensures
            final(self).wf(),
            final(self)@ == old(self)@.movz(rd, imm16, hw),
            final(self)@.labels == old(self)@.labels,
            old(self)@.tidy() ==> final(self)@.tidy(),
    {
        proof {
            reveal(A64State::movz);
        }
        self.word(movw_word(0xD280_0000, rd, imm16, hw));
    }

    /// `movk Rd, #imm16, LSL #(hw*16)` — keep the other lanes, set one lane.
    pub fn movk(&mut self, rd: Reg, imm16: u16, hw: u8)
        requires
            old(self).wf(),
        ensures
            final(self).wf(),
            final(self)@ == old(self)@.movk(rd, imm16, hw),
            final(self)@.labels == old(self)@.labels,
            old(self)@.tidy() ==> final(self)@.tidy(),
    {
        proof {
            reveal(A64State::movk);
        }
        self.word(movw_word(0xF280_0000, rd, imm16, hw));
    }

    /// `movn Rd, #imm16, LSL #(hw*16)` — move the bitwise-NOT of one lane (used to
    /// materialize small negative constants compactly).
    pub fn movn(&mut self, rd: Reg, imm16: u16, hw: u8)
        requires
            old(self).wf(),
        ensures
            final(self).wf(),
            final(self)@ == old(self)@.movn(rd, imm16, hw),
            final(self)@.labels == old(self)@.labels,
            old(self)@.tidy() ==> final(self)@.tidy(),
    {
        proof {
            reveal(A64State::movn);
        }
        self.word(movw_word(0x9280_0000, rd, imm16, hw));
    }

    /// `adrp Rd, page` — form a PC-relative ±4 GiB page address.
    pub fn adrp(&mut self, rd: Reg, imm21: i32)
        requires
            old(self).wf(),
        ensures
            final(self).wf(),
            final(self)@ == old(self)@.adrp(rd, imm21),
            final(self)@.labels == old(self)@.labels,
            old(self)@.tidy() ==> final(self)@.tidy(),
    {
        proof {
            reveal(A64State::adrp);
        }
        self.word(adrp_enc(rd, imm21));
    }

    /// `add Rd, Rn, Rm` (64-bit, no shift).
    pub fn add(&mut self, rd: Reg, rn: Reg, rm: Reg)
        requires
            old(self).wf(),
        ensures
            final(self).wf(),
            final(self)@ == old(self)@.add(rd, rn, rm),
            final(self)@.labels == old(self)@.labels,
            old(self)@.tidy() ==> final(self)@.tidy(),
    {
        proof {
            reveal(A64State::add);
        }
        self.word(rrr_word(0x8B00_0000, rd, rn, rm));
    }

    /// `sub Rd, Rn, Rm` (base `0xCB000000`).
    pub fn sub(&mut self, rd: Reg, rn: Reg, rm: Reg)
        requires
            old(self).wf(),
        ensures
            final(self).wf(),
            final(self)@ == old(self)@.sub(rd, rn, rm),
            final(self)@.labels == old(self)@.labels,
            old(self)@.tidy() ==> final(self)@.tidy(),
    {
        proof {
            reveal(A64State::sub);
        }
        self.word(rrr_word(0xCB00_0000, rd, rn, rm));
    }

    /// `add Rd, Rn, Rm` in the **extended-register** form (`option = UXTX`, `imm3 = 0`) —
    /// i.e.
    pub fn add_ext(&mut self, rd: Reg, rn: Reg, rm: Reg)
        requires
            old(self).wf(),
        ensures
            final(self).wf(),
            final(self)@ == old(self)@.add_ext(rd, rn, rm),
            final(self)@.labels == old(self)@.labels,
            old(self)@.tidy() ==> final(self)@.tidy(),
    {
        proof {
            reveal(A64State::add_ext);
        }
        self.word(rrr_word(0x8B20_6000, rd, rn, rm));
    }

    /// `sub Rd, Rn, Rm` in the **extended-register** form (`option = UXTX`, `imm3 = 0`) —
    /// the SP-capable subtract (slot 31 means `sp`, not `xzr`).
    pub fn sub_ext(&mut self, rd: Reg, rn: Reg, rm: Reg)
        requires
            old(self).wf(),
        ensures
            final(self).wf(),
            final(self)@ == old(self)@.sub_ext(rd, rn, rm),
            final(self)@.labels == old(self)@.labels,
            old(self)@.tidy() ==> final(self)@.tidy(),
    {
        proof {
            reveal(A64State::sub_ext);
        }
        self.word(rrr_word(0xCB20_6000, rd, rn, rm));
    }

    /// `and Rd, Rn, Rm` (base `0x8A000000`).
    pub fn and(&mut self, rd: Reg, rn: Reg, rm: Reg)
        requires
            old(self).wf(),
        ensures
            final(self).wf(),
            final(self)@ == old(self)@.and(rd, rn, rm),
            final(self)@.labels == old(self)@.labels,
            old(self)@.tidy() ==> final(self)@.tidy(),
    {
        proof {
            reveal(A64State::and);
        }
        self.word(rrr_word(0x8A00_0000, rd, rn, rm));
    }

    /// `orr Rd, Rn, Rm` (base `0xAA000000`).
    pub fn orr(&mut self, rd: Reg, rn: Reg, rm: Reg)
        requires
            old(self).wf(),
        ensures
            final(self).wf(),
            final(self)@ == old(self)@.orr(rd, rn, rm),
            final(self)@.labels == old(self)@.labels,
            old(self)@.tidy() ==> final(self)@.tidy(),
    {
        proof {
            reveal(A64State::orr);
        }
        self.word(rrr_word(0xAA00_0000, rd, rn, rm));
    }

    /// `eor Rd, Rn, Rm` (base `0xCA000000`).
    pub fn eor(&mut self, rd: Reg, rn: Reg, rm: Reg)
        requires
            old(self).wf(),
        ensures
            final(self).wf(),
            final(self)@ == old(self)@.eor(rd, rn, rm),
            final(self)@.labels == old(self)@.labels,
            old(self)@.tidy() ==> final(self)@.tidy(),
    {
        proof {
            reveal(A64State::eor);
        }
        self.word(rrr_word(0xCA00_0000, rd, rn, rm));
    }

    /// `orn Rd, Rn, Rm` — `Rn | ~Rm`; with `Rn == xzr` this is `mvn`/`not`.
    pub fn orn(&mut self, rd: Reg, rn: Reg, rm: Reg)
        requires
            old(self).wf(),
        ensures
            final(self).wf(),
            final(self)@ == old(self)@.orn(rd, rn, rm),
            final(self)@.labels == old(self)@.labels,
            old(self)@.tidy() ==> final(self)@.tidy(),
    {
        proof {
            reveal(A64State::orn);
        }
        self.word(rrr_word(0xAA20_0000, rd, rn, rm));
    }

    /// `mul Rd, Rn, Rm` = `madd Rd, Rn, Rm, xzr`.
    pub fn mul(&mut self, rd: Reg, rn: Reg, rm: Reg)
        requires
            old(self).wf(),
        ensures
            final(self).wf(),
            final(self)@ == old(self)@.mul(rd, rn, rm),
            final(self)@.labels == old(self)@.labels,
            old(self)@.tidy() ==> final(self)@.tidy(),
    {
        proof {
            reveal(A64State::mul);
        }
        self.word(rrr_word(0x9B00_7C00, rd, rn, rm));
    }

    /// `sdiv Rd, Rn, Rm` — signed divide.
    pub fn sdiv(&mut self, rd: Reg, rn: Reg, rm: Reg)
        requires
            old(self).wf(),
        ensures
            final(self).wf(),
            final(self)@ == old(self)@.sdiv(rd, rn, rm),
            final(self)@.labels == old(self)@.labels,
            old(self)@.tidy() ==> final(self)@.tidy(),
    {
        proof {
            reveal(A64State::sdiv);
        }
        self.word(rrr_word(0x9AC0_0C00, rd, rn, rm));
    }

    /// `udiv Rd, Rn, Rm` — unsigned divide.
    pub fn udiv(&mut self, rd: Reg, rn: Reg, rm: Reg)
        requires
            old(self).wf(),
        ensures
            final(self).wf(),
            final(self)@ == old(self)@.udiv(rd, rn, rm),
            final(self)@.labels == old(self)@.labels,
            old(self)@.tidy() ==> final(self)@.tidy(),
    {
        proof {
            reveal(A64State::udiv);
        }
        self.word(rrr_word(0x9AC0_0800, rd, rn, rm));
    }

    /// `smulh Rd, Rn, Rm` — signed high 64 bits of a 128-bit product (signed multiply-
    /// overflow check).
    pub fn smulh(&mut self, rd: Reg, rn: Reg, rm: Reg)
        requires
            old(self).wf(),
        ensures
            final(self).wf(),
            final(self)@ == old(self)@.smulh(rd, rn, rm),
            final(self)@.labels == old(self)@.labels,
            old(self)@.tidy() ==> final(self)@.tidy(),
    {
        proof {
            reveal(A64State::smulh);
        }
        self.word(rrr_word(0x9B40_7C00, rd, rn, rm));
    }

    /// `umulh Rd, Rn, Rm` — unsigned high 64 bits of the product.
    pub fn umulh(&mut self, rd: Reg, rn: Reg, rm: Reg)
        requires
            old(self).wf(),
        ensures
            final(self).wf(),
            final(self)@ == old(self)@.umulh(rd, rn, rm),
            final(self)@.labels == old(self)@.labels,
            old(self)@.tidy() ==> final(self)@.tidy(),
    {
        proof {
            reveal(A64State::umulh);
        }
        self.word(rrr_word(0x9BC0_7C00, rd, rn, rm));
    }

    /// `lslv Rd, Rn, Rm` — logical shift left by a register amount.
    pub fn lslv(&mut self, rd: Reg, rn: Reg, rm: Reg)
        requires
            old(self).wf(),
        ensures
            final(self).wf(),
            final(self)@ == old(self)@.lslv(rd, rn, rm),
            final(self)@.labels == old(self)@.labels,
            old(self)@.tidy() ==> final(self)@.tidy(),
    {
        proof {
            reveal(A64State::lslv);
        }
        self.word(rrr_word(0x9AC0_2000, rd, rn, rm));
    }

    /// `lsrv Rd, Rn, Rm` — logical shift right (base `0x9AC02400`).
    pub fn lsrv(&mut self, rd: Reg, rn: Reg, rm: Reg)
        requires
            old(self).wf(),
        ensures
            final(self).wf(),
            final(self)@ == old(self)@.lsrv(rd, rn, rm),
            final(self)@.labels == old(self)@.labels,
            old(self)@.tidy() ==> final(self)@.tidy(),
    {
        proof {
            reveal(A64State::lsrv);
        }
        self.word(rrr_word(0x9AC0_2400, rd, rn, rm));
    }

    /// `asrv Rd, Rn, Rm` — arithmetic (sign-propagating) shift right (base `0x9AC02800`).
    pub fn asrv(&mut self, rd: Reg, rn: Reg, rm: Reg)
        requires
            old(self).wf(),
        ensures
            final(self).wf(),
            final(self)@ == old(self)@.asrv(rd, rn, rm),
            final(self)@.labels == old(self)@.labels,
            old(self)@.tidy() ==> final(self)@.tidy(),
    {
        proof {
            reveal(A64State::asrv);
        }
        self.word(rrr_word(0x9AC0_2800, rd, rn, rm));
    }

    /// `adds Rd, Rn, Rm` — flag-setting add (base `0xAB000000`).
    pub fn adds(&mut self, rd: Reg, rn: Reg, rm: Reg)
        requires
            old(self).wf(),
        ensures
            final(self).wf(),
            final(self)@ == old(self)@.adds(rd, rn, rm),
            final(self)@.labels == old(self)@.labels,
            old(self)@.tidy() ==> final(self)@.tidy(),
    {
        proof {
            reveal(A64State::adds);
        }
        self.word(rrr_word(0xAB00_0000, rd, rn, rm));
    }

    /// `subs Rd, Rn, Rm` — flag-setting subtract (base `0xEB000000`).
    pub fn subs(&mut self, rd: Reg, rn: Reg, rm: Reg)
        requires
            old(self).wf(),
        ensures
            final(self).wf(),
            final(self)@ == old(self)@.subs(rd, rn, rm),
            final(self)@.labels == old(self)@.labels,
            old(self)@.tidy() ==> final(self)@.tidy(),
    {
        proof {
            reveal(A64State::subs);
        }
        self.word(rrr_word(0xEB00_0000, rd, rn, rm));
    }

    /// `add Rd, Rn, Rm, LSL #sh` — shifted add, used to scale an index by a power-of-two
    /// element stride in one instruction.
    pub fn add_lsl(&mut self, rd: Reg, rn: Reg, rm: Reg, sh: u8)
        requires
            old(self).wf(),
        ensures
            final(self).wf(),
            final(self)@ == old(self)@.add_lsl(rd, rn, rm, sh),
            final(self)@.labels == old(self)@.labels,
            old(self)@.tidy() ==> final(self)@.tidy(),
    {
        proof {
            reveal(A64State::add_lsl);
        }
        self.word(shifted_word(0x8B00_0000, rd, rn, rm, sh));
    }

    /// `madd Rd, Rn, Rm, Ra` — `Ra + Rn*Rm`.
    pub fn madd(&mut self, rd: Reg, rn: Reg, rm: Reg, ra: Reg)
        requires
            old(self).wf(),
        ensures
            final(self).wf(),
            final(self)@ == old(self)@.madd(rd, rn, rm, ra),
            final(self)@.labels == old(self)@.labels,
            old(self)@.tidy() ==> final(self)@.tidy(),
    {
        proof {
            reveal(A64State::madd);
        }
        self.word(rrra_word(0x9B00_0000, rd, rn, rm, ra));
    }

    /// `msub Rd, Rn, Rm, Ra` — `Ra - Rn*Rm`; the remainder building block (`rem = a -
    /// (a/b)*b`).
    pub fn msub(&mut self, rd: Reg, rn: Reg, rm: Reg, ra: Reg)
        requires
            old(self).wf(),
        ensures
            final(self).wf(),
            final(self)@ == old(self)@.msub(rd, rn, rm, ra),
            final(self)@.labels == old(self)@.labels,
            old(self)@.tidy() ==> final(self)@.tidy(),
    {
        proof {
            reveal(A64State::msub);
        }
        self.word(rrra_word(0x9B00_8000, rd, rn, rm, ra));
    }

    /// `mov Rd, Rn` (register copy) = `orr Rd, xzr, Rn`.
    pub fn mov_reg(&mut self, rd: Reg, rn: Reg)
        requires
            old(self).wf(),
        ensures
            final(self).wf(),
            final(self)@ == old(self)@.mov_reg(rd, rn),
            final(self)@.labels == old(self)@.labels,
            old(self)@.tidy() ==> final(self)@.tidy(),
    {
        proof {
            reveal(A64State::mov_reg);
        }
        self.word(rrr_word(0xAA00_0000, rd, Reg(XZR), rn));
    }

    /// `mvn Rd, Rm` = `orn Rd, xzr, Rm` — bitwise NOT.
    pub fn mvn(&mut self, rd: Reg, rm: Reg)
        requires
            old(self).wf(),
        ensures
            final(self).wf(),
            final(self)@ == old(self)@.mvn(rd, rm),
            final(self)@.labels == old(self)@.labels,
            old(self)@.tidy() ==> final(self)@.tidy(),
    {
        proof {
            reveal(A64State::mvn);
        }
        self.word(rrr_word(0xAA20_0000, rd, Reg(XZR), rm));
    }

    /// `neg Rd, Rm` = `sub Rd, xzr, Rm` — two's-complement negate.
    pub fn neg(&mut self, rd: Reg, rm: Reg)
        requires
            old(self).wf(),
        ensures
            final(self).wf(),
            final(self)@ == old(self)@.neg(rd, rm),
            final(self)@.labels == old(self)@.labels,
            old(self)@.tidy() ==> final(self)@.tidy(),
    {
        proof {
            reveal(A64State::neg);
        }
        self.word(rrr_word(0xCB00_0000, rd, Reg(XZR), rm));
    }

    /// `ubfm Rd, Rn, #immr, #imms` — the bitfield-move primitive behind immediate
    /// `lsl`/`lsr` and unsigned narrows.
    pub fn ubfm(&mut self, rd: Reg, rn: Reg, immr: u8, imms: u8)
        requires
            old(self).wf(),
        ensures
            final(self).wf(),
            final(self)@ == old(self)@.ubfm(rd, rn, immr, imms),
            final(self)@.labels == old(self)@.labels,
            old(self)@.tidy() ==> final(self)@.tidy(),
    {
        proof {
            reveal(A64State::ubfm);
        }
        self.word(bfm_word(0xD340_0000, rd, rn, immr, imms));
    }

    /// `sbfm Rd, Rn, #immr, #imms` — signed bitfield move (sign-extending narrows / `asr`
    /// immediate).
    pub fn sbfm(&mut self, rd: Reg, rn: Reg, immr: u8, imms: u8)
        requires
            old(self).wf(),
        ensures
            final(self).wf(),
            final(self)@ == old(self)@.sbfm(rd, rn, immr, imms),
            final(self)@.labels == old(self)@.labels,
            old(self)@.tidy() ==> final(self)@.tidy(),
    {
        proof {
            reveal(A64State::sbfm);
        }
        self.word(bfm_word(0x9340_0000, rd, rn, immr, imms));
    }

    /// `lsl Rd, Rn, #sh` — immediate logical shift left, via `ubfm`.
    pub fn lsl_imm(&mut self, rd: Reg, rn: Reg, sh: u8)
        requires
            old(self).wf(),
        ensures
            final(self).wf(),
            final(self)@ == old(self)@.lsl_imm(rd, rn, sh),
            final(self)@.labels == old(self)@.labels,
            old(self)@.tidy() ==> final(self)@.tidy(),
    {
        proof {
            reveal(A64State::lsl_imm);
        }
        self.word(bfm_word(0xD340_0000, rd, rn, (64 - sh % 64) % 64, 63 - sh % 64));
    }

    /// `lsr Rd, Rn, #sh` — immediate logical shift right, via `ubfm`.
    pub fn lsr_imm(&mut self, rd: Reg, rn: Reg, sh: u8)
        requires
            old(self).wf(),
        ensures
            final(self).wf(),
            final(self)@ == old(self)@.lsr_imm(rd, rn, sh),
            final(self)@.labels == old(self)@.labels,
            old(self)@.tidy() ==> final(self)@.tidy(),
    {
        proof {
            reveal(A64State::lsr_imm);
        }
        self.word(bfm_word(0xD340_0000, rd, rn, sh % 64, 63));
    }

    /// `asr Rd, Rn, #sh` — immediate arithmetic shift right, via `sbfm`.
    pub fn asr_imm(&mut self, rd: Reg, rn: Reg, sh: u8)
        requires
            old(self).wf(),
        ensures
            final(self).wf(),
            final(self)@ == old(self)@.asr_imm(rd, rn, sh),
            final(self)@.labels == old(self)@.labels,
            old(self)@.tidy() ==> final(self)@.tidy(),
    {
        proof {
            reveal(A64State::asr_imm);
        }
        self.word(bfm_word(0x9340_0000, rd, rn, sh % 64, 63));
    }

    /// `add Rd, Rn, #imm12` (unsigned 12-bit immediate, no shift).
    pub fn add_imm(&mut self, rd: Reg, rn: Reg, imm12: u32)
        requires
            old(self).wf(),
        ensures
            final(self).wf(),
            final(self)@ == old(self)@.add_imm(rd, rn, imm12),
            final(self)@.labels == old(self)@.labels,
            old(self)@.tidy() ==> final(self)@.tidy(),
    {
        proof {
            reveal(A64State::add_imm);
        }
        self.word(imm_word(0x9100_0000, rd, rn, imm12));
    }

    /// `sub Rd, Rn, #imm12` (base `0xD1000000`).
    pub fn sub_imm(&mut self, rd: Reg, rn: Reg, imm12: u32)
        requires
            old(self).wf(),
        ensures
            final(self).wf(),
            final(self)@ == old(self)@.sub_imm(rd, rn, imm12),
            final(self)@.labels == old(self)@.labels,
            old(self)@.tidy() ==> final(self)@.tidy(),
    {
        proof {
            reveal(A64State::sub_imm);
        }
        self.word(imm_word(0xD100_0000, rd, rn, imm12));
    }

    /// `adds Rd, Rn, #imm12` — flag-setting add (base `0xB1000000`).
    pub fn adds_imm(&mut self, rd: Reg, rn: Reg, imm12: u32)
        requires
            old(self).wf(),
        ensures
            final(self).wf(),
            final(self)@ == old(self)@.adds_imm(rd, rn, imm12),
            final(self)@.labels == old(self)@.labels,
            old(self)@.tidy() ==> final(self)@.tidy(),
    {
        proof {
            reveal(A64State::adds_imm);
        }
        self.word(imm_word(0xB100_0000, rd, rn, imm12));
    }

    /// `subs Rd, Rn, #imm12` — flag-setting subtract (base `0xF1000000`).
    pub fn subs_imm(&mut self, rd: Reg, rn: Reg, imm12: u32)
        requires
            old(self).wf(),
        ensures
            final(self).wf(),
            final(self)@ == old(self)@.subs_imm(rd, rn, imm12),
            final(self)@.labels == old(self)@.labels,
            old(self)@.tidy() ==> final(self)@.tidy(),
    {
        proof {
            reveal(A64State::subs_imm);
        }
        self.word(imm_word(0xF100_0000, rd, rn, imm12));
    }

    /// `mov Rd, sp` / `mov sp, Rn` — the SP-form move (`add Rd, Rn, #0`), distinct from the
    /// `orr`-based register move because `xzr`/`sp` share slot 31.
    pub fn mov_sp(&mut self, rd: Reg, rn: Reg)
        requires
            old(self).wf(),
        ensures
            final(self).wf(),
            final(self)@ == old(self)@.mov_sp(rd, rn),
            final(self)@.labels == old(self)@.labels,
            old(self)@.tidy() ==> final(self)@.tidy(),
    {
        proof {
            reveal(A64State::mov_sp);
        }
        self.word(imm_word(0x9100_0000, rd, rn, 0));
    }

    /// `cmp Rn, #imm12` = `subs xzr, Rn, #imm12`.
    pub fn cmp_imm(&mut self, rn: Reg, imm12: u32)
        requires
            old(self).wf(),
        ensures
            final(self).wf(),
            final(self)@ == old(self)@.cmp_imm(rn, imm12),
            final(self)@.labels == old(self)@.labels,
            old(self)@.tidy() ==> final(self)@.tidy(),
    {
        proof {
            reveal(A64State::cmp_imm);
        }
        self.word(imm_word(0xF100_0000, Reg(XZR), rn, imm12));
    }

    /// `cmp Rn, Rm` = `subs xzr, Rn, Rm`.
    pub fn cmp(&mut self, rn: Reg, rm: Reg)
        requires
            old(self).wf(),
        ensures
            final(self).wf(),
            final(self)@ == old(self)@.cmp(rn, rm),
            final(self)@.labels == old(self)@.labels,
            old(self)@.tidy() ==> final(self)@.tidy(),
    {
        proof {
            reveal(A64State::cmp);
        }
        self.word(rrr_word(0xEB00_0000, Reg(XZR), rn, rm));
    }

    /// `tst Rn, Rm` = `ands xzr, Rn, Rm` — flag-setting AND.
    pub fn tst(&mut self, rn: Reg, rm: Reg)
        requires
            old(self).wf(),
        ensures
            final(self).wf(),
            final(self)@ == old(self)@.tst(rn, rm),
            final(self)@.labels == old(self)@.labels,
            old(self)@.tidy() ==> final(self)@.tidy(),
    {
        proof {
            reveal(A64State::tst);
        }
        self.word(rrr_word(0xEA00_0000, Reg(XZR), rn, rm));
    }

    /// `cset Rd, cc` = `csinc Rd, xzr, xzr, invert(cc)` — materialize a condition into a
    /// 0/1 boolean.
    pub fn cset(&mut self, rd: Reg, cc: Cc)
        requires
            old(self).wf(),
        ensures
            final(self).wf(),
            final(self)@ == old(self)@.cset(rd, cc),
            final(self)@.labels == old(self)@.labels,
            old(self)@.tidy() ==> final(self)@.tidy(),
    {
        proof {
            reveal(A64State::cset);
        }
        self.word(cset_enc(rd, cc));
    }

    /// `stp Rt, Rt2, [sp, #-16]!` — pre-indexed store-pair, the AAPCS64 frame save of
    /// `{x29, x30}`.
    pub fn stp_pre(&mut self, rt: Reg, rt2: Reg, rn: Reg, off: i32)
        requires
            old(self).wf(),
        ensures
            final(self).wf(),
            final(self)@ == old(self)@.stp_pre(rt, rt2, rn, off),
            final(self)@.labels == old(self)@.labels,
            old(self)@.tidy() ==> final(self)@.tidy(),
    {
        proof {
            reveal(A64State::stp_pre);
        }
        self.word(pair_word(0xA980_0000, rt, rt2, rn, off));
    }

    /// `ldp Rt, Rt2, [sp], #16` — post-indexed load-pair, the frame restore of `{x29,
    /// x30}`.
    pub fn ldp_post(&mut self, rt: Reg, rt2: Reg, rn: Reg, off: i32)
        requires
            old(self).wf(),
        ensures
            final(self).wf(),
            final(self)@ == old(self)@.ldp_post(rt, rt2, rn, off),
            final(self)@.labels == old(self)@.labels,
            old(self)@.tidy() ==> final(self)@.tidy(),
    {
        proof {
            reveal(A64State::ldp_post);
        }
        self.word(pair_word(0xA8C0_0000, rt, rt2, rn, off));
    }

    /// `ret` (`ret x30`) — return to the link register.
    pub fn ret(&mut self)
        requires
            old(self).wf(),
        ensures
            final(self).wf(),
            final(self)@ == old(self)@.ret(),
            final(self)@.labels == old(self)@.labels,
            old(self)@.tidy() ==> final(self)@.tidy(),
    {
        proof {
            reveal(A64State::ret);
        }
        self.word(0xD65F_03C0);
    }

    /// `svc #0` — supervisor call (a Linux syscall).
    pub fn svc0(&mut self)
        requires
            old(self).wf(),
        ensures
            final(self).wf(),
            final(self)@ == old(self)@.svc0(),
            final(self)@.labels == old(self)@.labels,
            old(self)@.tidy() ==> final(self)@.tidy(),
    {
        proof {
            reveal(A64State::svc0);
        }
        self.word(0xD400_0001);
    }

    /// `fadd Dd, Dn, Dm` (base `0x1E602800`).
    pub fn fadd(&mut self, dd: Reg, dn: Reg, dm: Reg)
        requires
            old(self).wf(),
        ensures
            final(self).wf(),
            final(self)@ == old(self)@.fadd(dd, dn, dm),
            final(self)@.labels == old(self)@.labels,
            old(self)@.tidy() ==> final(self)@.tidy(),
    {
        proof {
            reveal(A64State::fadd);
        }
        self.word(rrr_word(0x1E60_2800, dd, dn, dm));
    }

    /// `fsub Dd, Dn, Dm` (base `0x1E603800`).
    pub fn fsub(&mut self, dd: Reg, dn: Reg, dm: Reg)
        requires
            old(self).wf(),
        ensures
            final(self).wf(),
            final(self)@ == old(self)@.fsub(dd, dn, dm),
            final(self)@.labels == old(self)@.labels,
            old(self)@.tidy() ==> final(self)@.tidy(),
    {
        proof {
            reveal(A64State::fsub);
        }
        self.word(rrr_word(0x1E60_3800, dd, dn, dm));
    }

    /// `fmul Dd, Dn, Dm` (base `0x1E600800`).
    pub fn fmul(&mut self, dd: Reg, dn: Reg, dm: Reg)
        requires
            old(self).wf(),
        ensures
            final(self).wf(),
            final(self)@ == old(self)@.fmul(dd, dn, dm),
            final(self)@.labels == old(self)@.labels,
            old(self)@.tidy() ==> final(self)@.tidy(),
    {
        proof {
            reveal(A64State::fmul);
        }
        self.word(rrr_word(0x1E60_0800, dd, dn, dm));
    }

    /// `fdiv Dd, Dn, Dm` (base `0x1E601800`).
    pub fn fdiv(&mut self, dd: Reg, dn: Reg, dm: Reg)
        requires
            old(self).wf(),
        ensures
            final(self).wf(),
            final(self)@ == old(self)@.fdiv(dd, dn, dm),
            final(self)@.labels == old(self)@.labels,
            old(self)@.tidy() ==> final(self)@.tidy(),
    {
        proof {
            reveal(A64State::fdiv);
        }
        self.word(rrr_word(0x1E60_1800, dd, dn, dm));
    }

    /// `fcmp Dn, Dm` (base `0x1E602000`).
    pub fn fcmp(&mut self, dn: Reg, dm: Reg)
        requires
            old(self).wf(),
        ensures
            final(self).wf(),
            final(self)@ == old(self)@.fcmp(dn, dm),
            final(self)@.labels == old(self)@.labels,
            old(self)@.tidy() ==> final(self)@.tidy(),
    {
        proof {
            reveal(A64State::fcmp);
        }
        self.word(rrr_word(0x1E60_2000, Reg(0), dn, dm));
    }

    /// `scvtf Dd, Xn` — signed 64-bit int → double (base `0x9E620000`).
    pub fn scvtf(&mut self, dd: Reg, xn: Reg)
        requires
            old(self).wf(),
        ensures
            final(self).wf(),
            final(self)@ == old(self)@.scvtf(dd, xn),
            final(self)@.labels == old(self)@.labels,
            old(self)@.tidy() ==> final(self)@.tidy(),
    {
        proof {
            reveal(A64State::scvtf);
        }
        self.word(rr_word(0x9E62_0000, dd, xn));
    }

    /// `fcvtzs Xd, Dn` — double → signed 64-bit int, truncating (base `0x9E780000`).
    pub fn fcvtzs(&mut self, xd: Reg, dn: Reg)
        requires
            old(self).wf(),
        ensures
            final(self).wf(),
            final(self)@ == old(self)@.fcvtzs(xd, dn),
            final(self)@.labels == old(self)@.labels,
            old(self)@.tidy() ==> final(self)@.tidy(),
    {
        proof {
            reveal(A64State::fcvtzs);
        }
        self.word(rr_word(0x9E78_0000, xd, dn));
    }

    /// Materializes an arbitrary 64-bit immediate into `rd` using the minimal `movz`+`movk`
    /// sequence: `movz` the lowest non-trivial lane, then `movk` every remaining nonzero
    /// lane.
    pub fn mov_imm(&mut self, rd: Reg, imm: i64)
        requires
            old(self).wf(),
        ensures
            final(self).wf(),
            final(self)@ == old(self)@.mov_imm(rd, imm),
            final(self)@.labels == old(self)@.labels,
            old(self)@.tidy() ==> final(self)@.tidy(),
    {
        proof {
            reveal(A64State::mov_imm);
        }
        let u: u64 = bits64(imm);
        let ghost all = mov_words(rd, u, 0, false);
        let ghost mut done: Seq<u32> = Seq::empty();
        let mut started: bool = false;
        let mut i: usize = 0;
        assert(all =~= done + mov_words(rd, u, 0, false));
        assert(self@.code =~= old(self)@.code + word_bytes(done));
        while i < 4
            invariant
                i <= 4,
                self.wf(),
                all == done + mov_words(rd, u, i as int, started),
                self@ == old(self)@.words(done),
                old(self)@.tidy() ==> self@.tidy(),
            decreases 4 - i,
        {
            let l: u16 = lane_of(u, i);
            if l != 0 {
                let base: u32 = if started {
                    0xF280_0000
                } else {
                    0xD280_0000
                };
                let w: u32 = movw_word(base, rd, l, i as u8);
                self.word(w);
                proof {
                    let next = done.push(w);
                    assert(next.drop_last() =~= done);
                    assert(self@.code =~= old(self)@.code + word_bytes(next));
                    assert(all =~= next + mov_words(rd, u, i + 1, true));
                    done = next;
                }
                started = true;
            }
            i = i + 1;
        }
        if !started {
            self.movz(rd, 0, 0);
            proof {
                reveal(A64State::movz);
                let w = movw(0xD280_0000, rd, 0, 0);
                let next = done.push(w);
                assert(next.drop_last() =~= done);
                assert(self@.code =~= old(self)@.code + word_bytes(next));
                assert(all =~= next);
            }
        } else {
            assert(all =~= done);
        }
    }

    fn address_hole(&mut self, rd: Reg, kind: FixupKind)
        requires
            old(self).wf(),
        ensures
            final(self).wf(),
            final(self)@ == old(self)@.address_hole(rd, kind),
            final(self)@.labels == old(self)@.labels,
            old(self)@.tidy() ==> final(self)@.tidy(),
    {
        let _len: usize = self.buf.len();
        self.fixup(kind);
        self.movz(rd, 0, 0);
        self.movk(rd, 0, 1);
        self.movk(rd, 0, 2);
        self.movk(rd, 0, 3);
        proof {
            reveal(A64State::tidy);
            reveal(A64State::movz);
            reveal(A64State::movk);
            if old(self)@.tidy() {
                order_grows(old(self)@.fixups, self@.fixups.last());
            }
        }
    }

    /// Materializes a `.rodata` pointer hole: a 4-instruction `movz`+`movk×3` sequence
    /// (`mov_imm`-shaped) whose 16-bit lanes are patched at link time to the string's
    /// absolute virtual address.
    pub fn mov_imm_data(&mut self, rd: Reg, data_off: u32)
        requires
            old(self).wf(),
        ensures
            final(self).wf(),
            final(self)@ == old(self)@.mov_imm_data(rd, data_off),
            final(self)@.labels == old(self)@.labels,
            old(self)@.tidy() ==> final(self)@.tidy(),
    {
        proof {
            reveal(A64State::mov_imm_data);
        }
        self.address_hole(rd, FixupKind::Data(data_off));
    }

    /// Materializes a writable state-segment pointer hole, like `Aarch64Asm::mov_imm_data`
    /// but resolving to `state_vaddr + offset`.
    pub fn mov_imm_state(&mut self, rd: Reg, state_off: u32)
        requires
            old(self).wf(),
        ensures
            final(self).wf(),
            final(self)@ == old(self)@.mov_imm_state(rd, state_off),
            final(self)@.labels == old(self)@.labels,
            old(self)@.tidy() ==> final(self)@.tidy(),
    {
        proof {
            reveal(A64State::mov_imm_state);
        }
        self.address_hole(rd, FixupKind::State(state_off));
    }

    /// `add Rd, Rn, #imm` for a non-negative immediate that may exceed the 12-bit field.
    pub fn add_imm_pos(&mut self, rd: Reg, rn: Reg, imm: u32)
        requires
            old(self).wf(),
        ensures
            final(self).wf(),
            final(self)@ == old(self)@.add_imm_pos(rd, rn, imm),
            final(self)@.labels == old(self)@.labels,
            old(self)@.tidy() ==> final(self)@.tidy(),
    {
        proof {
            reveal(A64State::add_imm_pos);
        }
        if imm <= 0xFFF {
            self.add_imm(rd, rn, imm);
        } else if imm % 0x1000 == 0 && imm / 0x1000 <= 0xFFF {
            self.word(imm_word(0x9140_0000, rd, rn, imm / 0x1000));
        } else {
            self.mov_imm(Reg(15), imm as i64);
            self.add_ext(rd, rn, Reg(15));
        }
    }

    /// `add Rd, Rn, #disp` where `disp` may be **negative** (a frame-home offset is `fp -
    /// k`).
    pub fn add_imm_to(&mut self, rd: Reg, rn: Reg, disp: i32)
        requires
            old(self).wf(),
        ensures
            final(self).wf(),
            final(self)@ == old(self)@.add_imm_to(rd, rn, disp),
            final(self)@.labels == old(self)@.labels,
            old(self)@.tidy() ==> final(self)@.tidy(),
    {
        proof {
            reveal(A64State::add_imm_to);
        }
        if disp >= 0 {
            self.add_imm_pos(rd, rn, disp as u32);
        } else {
            let mag: u32 = (-(disp as i64)) as u32;
            if mag <= 0xFFF {
                self.sub_imm(rd, rn, mag);
            } else {
                self.mov_imm(Reg(15), disp as i64);
                self.add_ext(rd, rn, Reg(15));
            }
        }
    }

    fn access(
        &mut self,
        op: u32,
        op_u: u32,
        op_r: u32,
        rt: Reg,
        rn: Reg,
        off: i64,
        size: MemSize,
    )
        requires
            old(self).wf(),
        ensures
            final(self).wf(),
            final(self)@ == old(self)@.access(op, op_u, op_r, rt, rn, off, size),
            final(self)@.labels == old(self)@.labels,
            old(self)@.tidy() ==> final(self)@.tidy(),
    {
        match scaled_off(off, size) {
            Some(i) => self.word(at_scaled_word(op, size, i, rn, rt)),
            None => match unscaled_off(off) {
                Some(i) => self.word(at_unscaled_word(op_u, size, i, rn, rt)),
                None => {
                    self.mov_imm(Reg(17), off);
                    self.word(at_register_word(op_r, size, Reg(17), rn, rt));
                },
            },
        }
    }

    /// `str Rt, [Rn, #off]` — store the full register (or a sub-width slice per `size`).
    pub fn store(&mut self, rt: Reg, rn: Reg, off: i64, size: MemSize)
        requires
            old(self).wf(),
        ensures
            final(self).wf(),
            final(self)@ == old(self)@.store(rt, rn, off, size),
            final(self)@.labels == old(self)@.labels,
            old(self)@.tidy() ==> final(self)@.tidy(),
    {
        proof {
            reveal(A64State::store);
        }
        self.access(0x3900_0000, 0x3800_0000, 0x3820_6800, rt, rn, off, size);
    }

    /// `ldr Rt, [Rn, #off]` — load, zero-extending sub-width sizes.
    pub fn load(&mut self, rt: Reg, rn: Reg, off: i64, size: MemSize)
        requires
            old(self).wf(),
        ensures
            final(self).wf(),
            final(self)@ == old(self)@.load(rt, rn, off, size),
            final(self)@.labels == old(self)@.labels,
            old(self)@.tidy() ==> final(self)@.tidy(),
    {
        proof {
            reveal(A64State::load);
        }
        self.access(0x3940_0000, 0x3840_0000, 0x3860_6800, rt, rn, off, size);
    }

    /// `ldrs{b,h,w} Rt, [Rn, #off]` — sign-extending sub-width load (64-bit destination,
    /// `opc=10`).
    pub fn load_signed(&mut self, rt: Reg, rn: Reg, off: i64, size: MemSize)
        requires
            old(self).wf(),
        ensures
            final(self).wf(),
            final(self)@ == old(self)@.load_signed(rt, rn, off, size),
            final(self)@.labels == old(self)@.labels,
            old(self)@.tidy() ==> final(self)@.tidy(),
    {
        proof {
            reveal(A64State::load_signed);
        }
        if size == MemSize::X {
            self.load(rt, rn, off, size);
        } else {
            self.access(0x3980_0000, 0x3880_0000, 0x38A0_6800, rt, rn, off, size);
        }
    }

    fn branch(&mut self, label: LabelId, kind: BranchKind, w: u32)
        requires
            old(self).wf(),
        ensures
            final(self).wf(),
            final(self)@ == old(self)@.branch(label, kind).word(w),
            final(self)@.labels == old(self)@.labels,
            old(self)@.tidy() && label.0 < old(self)@.labels.len() ==> final(self)@.tidy(),
    {
        let at: usize = self.buf.len();
        self.local_branches.push(Branch { at, label, kind });
        push_u32(&mut self.buf, w);
        proof {
            reveal(A64State::tidy);
            let br = old(self)@.branches;
            assert forall|j: int, k: int| 0 <= j < k < self@.branches.len() implies (
            #[trigger] self@.branches[j]).at + 4 <= (#[trigger] self@.branches[k]).at by {
                assert(self@.branches[j] == br[j]);
                if k < br.len() {
                    assert(self@.branches[k] == br[k]);
                }
            }
        }
    }

    /// `b label` — unconditional branch to a function-local label (`imm26`).
    pub fn b(&mut self, label: LabelId)
        requires
            old(self).wf(),
        ensures
            final(self).wf(),
            final(self)@ == old(self)@.b(label),
            final(self)@.labels == old(self)@.labels,
            old(self)@.tidy() && label.0 < old(self)@.labels.len() ==> final(self)@.tidy(),
    {
        proof {
            reveal(A64State::b);
        }
        self.branch(label, BranchKind::Imm26, 0x1400_0000);
    }

    /// `b.cc label` — conditional branch (`imm19`).
    pub fn bcc(&mut self, cc: Cc, label: LabelId)
        requires
            old(self).wf(),
        ensures
            final(self).wf(),
            final(self)@ == old(self)@.bcc(cc, label),
            final(self)@.labels == old(self)@.labels,
            old(self)@.tidy() && label.0 < old(self)@.labels.len() ==> final(self)@.tidy(),
    {
        proof {
            reveal(A64State::bcc);
        }
        self.branch(label, BranchKind::Imm19, 0x5400_0000u32 | (cc.cond4() as u32));
    }

    /// `bl func` — branch-with-link to another function (an `imm26` call).
    pub fn bl_fn(&mut self, func: FnId)
        requires
            old(self).wf(),
        ensures
            final(self).wf(),
            final(self)@ == old(self)@.bl_fn(func),
            final(self)@.labels == old(self)@.labels,
            old(self)@.tidy() ==> final(self)@.tidy(),
    {
        proof {
            reveal(A64State::bl_fn);
        }
        let _len: usize = self.buf.len();
        self.fixup(FixupKind::Call(func));
        self.word(0x9400_0000);
        proof {
            reveal(A64State::tidy);
            if old(self)@.tidy() {
                order_grows(old(self)@.fixups, self@.fixups.last());
            }
        }
    }

    /// Reserves `n` distinct labels (`LabelId(0)..LabelId(n)`).
    pub fn reserve_labels(&mut self, n: usize)
        requires
            old(self).wf(),
        ensures
            final(self).wf(),
            final(self)@ == old(self)@.reserve_labels(n as nat),
            old(self)@.branches.len() == 0 && old(self)@.tidy() ==> final(self)@.tidy(),
    {
        let mut labels: Vec<Option<usize>> = Vec::new();
        let mut i: usize = 0;
        while i < n
            invariant
                i <= n,
                labels@ == Seq::new(i as nat, |k: int| None::<usize>),
            decreases n - i,
        {
            labels.push(None);
            i = i + 1;
            assert(labels@ =~= Seq::new(i as nat, |k: int| None::<usize>));
        }
        self.label_offsets = labels;
        reveal(A64State::tidy);
    }

    /// Binds `label` at the current position.
    pub fn bind_label(&mut self, label: LabelId)
        requires
            old(self).wf(),
            label.0 < old(self)@.labels.len(),
        ensures
            final(self).wf(),
            final(self)@ == old(self)@.bind(label),
            old(self)@.tidy() ==> final(self)@.tidy(),
    {
        self.label_offsets[label.0 as usize] = Some(self.buf.len());
        reveal(A64State::tidy);
    }

    /// Allocates a fresh dynamically-created local label (render-loop targets).
    pub fn new_local_label(&mut self) -> (r: LabelId)
        requires
            old(self).wf(),
        ensures
            final(self).wf(),
            final(self)@ == old(self)@.new_label(),
            r == old(self)@.fresh(),
            old(self)@.tidy() ==> final(self)@.tidy(),
    {
        let id = LabelId(((self.label_offsets.len() as u64) % 0x1_0000_0000) as u32);
        self.label_offsets.push(None);
        proof {
            reveal(A64State::tidy);
            let labels = old(self)@.labels;
            assert forall|k: int|
                0 <= k < self@.labels.len() && (#[trigger] self@.labels[k]) is Some implies
                self@.labels[k].unwrap() % 4 == 0 by {
                assert(labels[k] == self@.labels[k]);
            }
        }
        id
    }

    /// Binds a dynamically-allocated local label at the current position.
    pub fn bind_local(&mut self, label: LabelId)
        requires
            old(self).wf(),
            label.0 < old(self)@.labels.len(),
        ensures
            final(self).wf(),
            final(self)@ == old(self)@.bind(label),
            old(self)@.tidy() ==> final(self)@.tidy(),
    {
        self.bind_label(label);
    }

    /// An unconditional branch to a local label.
    pub fn b_local(&mut self, label: LabelId)
        requires
            old(self).wf(),
        ensures
            final(self).wf(),
            final(self)@ == old(self)@.b(label),
            final(self)@.labels == old(self)@.labels,
            old(self)@.tidy() && label.0 < old(self)@.labels.len() ==> final(self)@.tidy(),
    {
        proof {
            reveal(A64State::b);
        }
        self.b(label);
    }

    /// A conditional branch to a local label.
    pub fn bcc_local(&mut self, cc: Cc, label: LabelId)
        requires
            old(self).wf(),
        ensures
            final(self).wf(),
            final(self)@ == old(self)@.bcc(cc, label),
            final(self)@.labels == old(self)@.labels,
            old(self)@.tidy() && label.0 < old(self)@.labels.len() ==> final(self)@.tidy(),
    {
        proof {
            reveal(A64State::bcc);
        }
        self.bcc(cc, label);
    }

    /// Resolves all intra-function branch fixups against the bound label offsets, patching
    /// each `imm26`/`imm19` field, and returns the finalized bytes plus the surviving
    /// cross-function/data fixups.
    pub fn finish(self) -> (r: (Vec<u8>, Vec<Fixup>))
        requires
            self.wf(),
            self@.targets_bound(),
        ensures
            r.0@ == resolved(self@.code, self@.labels, self@.branches),
            r.1@ == self@.fixups,
            r.0@.len() == self@.code.len(),
    {
        let ghost st = self@;
        let br = self.local_branches;
        let labels = self.label_offsets;
        let mut buf = self.buf;
        let mut i: usize = 0;
        assert(br@.take(0) =~= Seq::empty());
        while i < br.len()
            invariant
                i <= br@.len(),
                br@ == st.branches,
                labels@ == st.labels,
                st.wf(),
                st.targets_bound(),
                buf@ == resolved(st.code, st.labels, br@.take(i as int)),
                buf@.len() == st.code.len(),
                forall|j: int, k: int|
                    i <= j < br@.len() && br@[j].at <= k < br@[j].at + 4 ==> #[trigger] buf@[k]
                        == st.code[k] && (#[trigger] br@[j]).at <= k,
            decreases br@.len() - i,
        {
            let b: Branch = br[i];
            proof {
                assert(br@.take(i + 1).drop_last() =~= br@.take(i as int));
                assert(br@.take(i + 1).last() == b);
                assert(st.branches[i as int] == b);
            }
            let at: usize = b.at;
            let _len: usize = buf.len();
            match labels[b.label.0 as usize] {
                Some(target) => {
                    assert(st.labels[b.label.0 as int] is Some);
                    let base: u32 = read32(&buf, at);
                    assert(base == rd32(st.code, at as int)) by {
                        assert(buf@[at as int] == st.code[at as int] && br@[i as int].at <= at);
                        assert(buf@[at + 1] == st.code[at + 1]);
                        assert(buf@[at + 2] == st.code[at + 2]);
                        assert(buf@[at + 3] == st.code[at + 3]);
                    }
                    let w: u32 = fill_branch(base, b.kind, target, at);
                    let ghost before = buf@;
                    write32(&mut buf, at, w);
                    proof {
                        assert forall|j: int, k: int|
                            i + 1 <= j < br@.len() && br@[j].at <= k < br@[j].at + 4 implies
                            #[trigger] buf@[k] == st.code[k] && (#[trigger] br@[j]).at <= k by {
                            assert(st.branches[i as int].at + 4 <= st.branches[j].at);
                            assert(before[k] == st.code[k] && br@[j].at <= k);
                        }
                    }
                },
                None => {
                    assert(false);
                },
            }
            i = i + 1;
        }
        assert(br@.take(i as int) =~= br@);
        (buf, self.fixups)
    }
}

fn read32(buf: &Vec<u8>, at: usize) -> (r: u32)
    requires
        at + 4 <= buf@.len(),
    ensures
        r == rd32(buf@, at as int),
{
    let _len: usize = buf.len();
    buf[at] as u32 + 0x100 * (buf[at + 1] as u32) + 0x1_0000 * (buf[at + 2] as u32) + 0x100_0000 * (
    buf[at + 3] as u32)
}

fn fill_branch(base: u32, kind: BranchKind, target: usize, at: usize) -> (r: u32)
    requires
        target % 4 == 0,
        at % 4 == 0,
    ensures
        r == branch_word(base as int, kind, target as int, at as int),
{
    let sum: u128 = (target as u128 + 0x4_0000_0000_0000_0000u128 - at as u128) / 4;
    proof {
        assert(sum == (target - at) / 4 + 0x1_0000_0000_0000_0000);
        let d = (target - at) / 4;
        assert(sum % 0x400_0000 == d % 0x400_0000);
        assert(sum % 0x8_0000 == d % 0x8_0000);
    }
    match kind {
        BranchKind::Imm26 => base / 0x400_0000 * 0x400_0000 + (sum % 0x400_0000) as u32,
        BranchKind::Imm19 => base / 0x100_0000 * 0x100_0000 + 32 * ((sum % 0x8_0000) as u32) + base
            % 32,
    }
}

// ---------------------------------------------------------------------------
//  Laws
// ---------------------------------------------------------------------------

/// Words take four bytes each.
pub proof fn word_bytes_len(w: Seq<u32>)
    ensures
        word_bytes(w).len() == 4 * w.len(),
    decreases w.len(),
{
    if w.len() > 0 {
        word_bytes_len(w.drop_last());
    }
}

/// The value of a register after a move of `imm16` into lane `hw` of `before`:
/// `movz` (opcode bit 29 clear) zeroes the other lanes, `movk` keeps them.
pub open spec fn lane_value(before: int, keep: bool, imm16: int, hw: int) -> int {
    let unit: int = if hw == 0 {
        1
    } else if hw == 1 {
        0x1_0000
    } else if hw == 2 {
        0x1_0000_0000
    } else {
        0x1_0000_0000_0000
    };
    if keep {
        before - before / unit % 0x1_0000 * unit + imm16 * unit
    } else {
        imm16 * unit
    }
}

/// What a `movz` or `movk` word does to its register.
pub open spec fn run_mov(before: int, w: u32) -> int {
    lane_value(
        before,
        w & 0x2000_0000 != 0,
        ((w >> 5) & 0xFFFF) as int,
        ((w >> 21) & 3) as int,
    )
}

/// What a sequence of `movz` and `movk` words does to their register.
pub open spec fn run_movs(before: int, w: Seq<u32>) -> int
    decreases w.len(),
{
    if w.len() == 0 {
        before
    } else {
        run_movs(run_mov(before, w[0]), w.skip(1))
    }
}

pub(crate) proof fn movw_fields(rd: Reg, imm16: u16, hw: u8)
    requires
        rd.0 < 32,
        hw < 4,
    ensures
        movw(0xD280_0000, rd, imm16, hw) & 0x2000_0000 == 0,
        movw(0xF280_0000, rd, imm16, hw) & 0x2000_0000 != 0,
        (movw(0xD280_0000, rd, imm16, hw) >> 5) & 0xFFFF == imm16,
        (movw(0xF280_0000, rd, imm16, hw) >> 5) & 0xFFFF == imm16,
        (movw(0xD280_0000, rd, imm16, hw) >> 21) & 3 == hw,
        (movw(0xF280_0000, rd, imm16, hw) >> 21) & 3 == hw,
{
    let r = rd.0 as u32;
    let i = imm16 as u32;
    let h = hw as u32;
    assert(r < 32 && i <= 0xFFFF && h < 4 ==> {
        let z = 0xD280_0000u32 | ((h & 3) << 21) | (i << 5) | r;
        let k = 0xF280_0000u32 | ((h & 3) << 21) | (i << 5) | r;
        &&& z & 0x2000_0000 == 0
        &&& k & 0x2000_0000 != 0
        &&& (z >> 5) & 0xFFFF == i
        &&& (k >> 5) & 0xFFFF == i
        &&& (z >> 21) & 3 == h
        &&& (k >> 21) & 3 == h
    }) by (bit_vector);
}

/// The lanes of `u` below lane `i`, as a number.
spec fn low_lanes(u: u64, i: int) -> int {
    if i <= 0 {
        0
    } else if i == 1 {
        (u % 0x1_0000) as int
    } else if i == 2 {
        (u % 0x1_0000_0000) as int
    } else if i == 3 {
        (u % 0x1_0000_0000_0000) as int
    } else {
        u as int
    }
}

/// The lanes up to lane `i` are those below it and lane `i` itself.
proof fn lanes_grow(u: u64, i: int)
    requires
        0 <= i < 4,
    ensures
        i == 0 ==> low_lanes(u, 1) == lane(u, 0),
        i == 1 ==> low_lanes(u, 2) == low_lanes(u, 1) + lane(u, 1) * 0x1_0000,
        i == 2 ==> low_lanes(u, 3) == low_lanes(u, 2) + lane(u, 2) * 0x1_0000_0000,
        i == 3 ==> low_lanes(u, 4) == low_lanes(u, 3) + lane(u, 3) * 0x1_0000_0000_0000,
        0 <= low_lanes(u, 1) < 0x1_0000,
        0 <= low_lanes(u, 2) < 0x1_0000_0000,
        0 <= low_lanes(u, 3) < 0x1_0000_0000_0000,
        lane(u, i) == 0 ==> low_lanes(u, i + 1) == low_lanes(u, i),
{
    if i == 3 {
        assert(u / 0x1_0000_0000_0000 < 0x1_0000);
    }
}

/// One word takes the register from the lanes below lane `i` to those up to it.
proof fn mov_step(rd: Reg, u: u64, i: int, started: bool, before: int)
    requires
        rd.0 < 32,
        0 <= i < 4,
        started ==> before == low_lanes(u, i),
        !started ==> low_lanes(u, i) == 0,
    ensures
        run_mov(
            before,
            movw(
                if started {
                    0xF280_0000
                } else {
                    0xD280_0000
                },
                rd,
                lane(u, i),
                i as u8,
            ),
        ) == low_lanes(u, i + 1),
{
    movw_fields(rd, lane(u, i), i as u8);
    lanes_grow(u, i);
}

proof fn mov_words_build(rd: Reg, u: u64, i: int, started: bool, before: int)
    requires
        rd.0 < 32,
        0 <= i <= 4,
        started ==> before == low_lanes(u, i),
        !started ==> low_lanes(u, i) == 0,
    ensures
        run_movs(before, mov_words(rd, u, i, started)) == u,
    decreases 4 - i,
{
    if i >= 4 {
        if !started {
            let w = seq![movw(0xD280_0000, rd, 0, 0)];
            movw_fields(rd, 0, 0);
            assert(w.skip(1) =~= Seq::empty());
            assert(run_movs(before, w) == run_movs(run_mov(before, w[0]), w.skip(1)));
        }
    } else if lane(u, i) == 0 {
        lanes_grow(u, i);
        mov_words_build(rd, u, i + 1, started, before);
    } else {
        let base: u32 = if started {
            0xF280_0000
        } else {
            0xD280_0000
        };
        let w = movw(base, rd, lane(u, i), i as u8);
        let rest = mov_words(rd, u, i + 1, true);
        let all = seq![w] + rest;
        assert(all == mov_words(rd, u, i, started));
        assert(all.skip(1) =~= rest);
        mov_step(rd, u, i, started, before);
        assert(run_movs(before, all) == run_movs(run_mov(before, w), rest));
        mov_words_build(rd, u, i + 1, true, low_lanes(u, i + 1));
    }
}

/// The words of `mov_imm` leave exactly the immediate in the register,
/// whatever it held before.
pub proof fn mov_imm_builds_value(rd: Reg, imm: i64, before: int)
    requires
        rd.0 < 32,
    ensures
        run_movs(before, mov_words(rd, wrap64(imm as int), 0, false)) == wrap64(imm as int),
        1 <= mov_words(rd, wrap64(imm as int), 0, false).len() <= 4,
{
    mov_words_build(rd, wrap64(imm as int), 0, false, before);
    mov_words_len(rd, wrap64(imm as int), 0, false);
}

proof fn mov_words_len(rd: Reg, u: u64, i: int, started: bool)
    requires
        0 <= i <= 4,
    ensures
        mov_words(rd, u, i, started).len() <= 4 - i + if started {
            0int
        } else {
            if i == 4 {
                1
            } else {
                0
            }
        } || (!started && mov_words(rd, u, i, started).len() == 1),
        !started ==> mov_words(rd, u, i, started).len() >= 1,
    decreases 4 - i,
{
    if i < 4 {
        mov_words_len(rd, u, i + 1, started);
        mov_words_len(rd, u, i + 1, true);
    }
}

/// Stores at different signed 9-bit offsets from the same base are different
/// instructions, and none is a store at a scaled offset.
pub proof fn unscaled_stores_distinct(a: i64, b: i64, size: MemSize, rn: Reg, rt: Reg)
    requires
        -256 <= a <= 255,
        -256 <= b <= 255,
        a != b,
        rn.0 < 32,
        rt.0 < 32,
    ensures
        at_unscaled(0x3800_0000, size, unscaled(a).unwrap(), rn, rt) != at_unscaled(
            0x3800_0000,
            size,
            unscaled(b).unwrap(),
            rn,
            rt,
        ),
        forall|i: u32|
            i <= 0xFFF ==> at_unscaled(0x3800_0000, size, unscaled(a).unwrap(), rn, rt)
                != #[trigger] at_scaled(0x3900_0000, size, i, rn, rt),
{
    let x = unscaled(a).unwrap();
    let y = unscaled(b).unwrap();
    let s = size.field();
    let n = rn.0 as u32;
    let t = rt.0 as u32;
    assert(x != y);
    assert(x < 512 && y < 512 && x != y && s < 4 && n < 32 && t < 32 ==> (s << 30) | 0x3800_0000u32
        | (x << 12) | (n << 5) | t != (s << 30) | 0x3800_0000u32 | (y << 12) | (n << 5) | t)
        by (bit_vector);
    assert forall|i: u32| i <= 0xFFF implies at_unscaled(0x3800_0000, size, x, rn, rt)
        != #[trigger] at_scaled(0x3900_0000, size, i, rn, rt) by {
        assert(i <= 0xFFF && x < 512 && s < 4 && n < 32 && t < 32 ==> (s << 30) | 0x3800_0000u32 | (
        x << 12) | (n << 5) | t != (s << 30) | 0x3900_0000u32 | (i << 10) | (n << 5) | t)
            by (bit_vector);
    }
}

proof fn resolved_length(code: Seq<u8>, labels: Seq<Option<usize>>, br: Seq<Branch>)
    ensures
        resolved(code, labels, br).len() == code.len(),
    decreases br.len(),
{
    if br.len() > 0 {
        resolved_length(code, labels, br.drop_last());
    }
}

proof fn resolved_elsewhere(
    code: Seq<u8>,
    labels: Seq<Option<usize>>,
    br: Seq<Branch>,
    n: int,
    i: int,
)
    requires
        0 <= n <= br.len(),
        0 <= i < code.len(),
        forall|k: int| n <= k < br.len() ==> !((#[trigger] br[k]).at <= i < br[k].at + 4),
    ensures
        resolved(code, labels, br)[i] == resolved(code, labels, br.take(n))[i],
    decreases br.len(),
{
    resolved_length(code, labels, br);
    if n == br.len() {
        assert(br.take(n) =~= br);
    } else {
        let b0 = br.drop_last();
        assert forall|k: int| n <= k < b0.len() implies !((#[trigger] b0[k]).at <= i < b0[k].at
            + 4) by {
            assert(br[k] == b0[k]);
        }
        resolved_elsewhere(code, labels, b0, n, i);
        resolved_length(code, labels, b0);
        assert(b0.take(n) =~= br.take(n));
        assert(br[br.len() - 1] == br.last());
    }
}

/// In finished code every local branch holds the distance to its label, in
/// words, in its displacement field.
pub proof fn finished_branches_land_on_labels(st: A64State, k: int)
    requires
        st.wf(),
        st.targets_bound(),
        0 <= k < st.branches.len(),
    ensures
        rd32(resolved(st.code, st.labels, st.branches), st.branches[k].at as int) == branch_word(
            rd32(st.code, st.branches[k].at as int),
            st.branches[k].kind,
            st.labels[st.branches[k].label.0 as int].unwrap() as int,
            st.branches[k].at as int,
        ),
        4 * ((st.labels[st.branches[k].label.0 as int].unwrap() - st.branches[k].at) / 4)
            == st.labels[st.branches[k].label.0 as int].unwrap() - st.branches[k].at,
{
    let br = st.branches;
    let at = br[k].at as int;
    let target = st.labels[br[k].label.0 as int].unwrap();
    let w = branch_word(rd32(st.code, at), br[k].kind, target as int, at);
    let before = resolved(st.code, st.labels, br.take(k));
    resolved_length(st.code, st.labels, br.take(k));
    assert(br.take(k + 1).last() == br[k]);
    assert(br.take(k + 1).drop_last() =~= br.take(k));
    assert(resolved(st.code, st.labels, br.take(k + 1)) == splice32(before, at, w));
    assert forall|i: int| at <= i < at + 4 implies resolved(st.code, st.labels, br)[i] == splice32(
        before,
        at,
        w,
    )[i] by {
        assert forall|j: int| k + 1 <= j < br.len() implies !((#[trigger] br[j]).at <= i < br[j].at
            + 4) by {
            assert(st.branches[k].at + 4 <= st.branches[j].at);
        }
        resolved_elsewhere(st.code, st.labels, br, k + 1, i);
    }
    crate::bytes::splice32_reads_back(before, at, w);
    same_word(resolved(st.code, st.labels, br), splice32(before, at, w), at);
    assert(target % 4 == 0 && st.branches[k].at % 4 == 0);
    whole_words(target as int, at);
}

proof fn same_word(a: Seq<u8>, b: Seq<u8>, at: int)
    requires
        forall|i: int| at <= i < at + 4 ==> a[i] == b[i],
    ensures
        rd32(a, at) == rd32(b, at),
{
    assert(a[at] == b[at] && a[at + 1] == b[at + 1] && a[at + 2] == b[at + 2] && a[at + 3] == b[at
        + 3]);
}

proof fn whole_words(target: int, at: int)
    requires
        target % 4 == 0,
        at % 4 == 0,
    ensures
        4 * ((target - at) / 4) == target - at,
{
}

} // verus!
