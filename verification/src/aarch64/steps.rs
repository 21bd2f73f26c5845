//! What each instruction of the AArch64 encoder does on the processor.
use vstd::prelude::*;

use crate::aarch64::encode::{
    A64State, MemSize, Reg, XZR, at_register, at_scaled, at_unscaled, bfm, cset_word, imm, movw,
    rrr, rrra, shifted, unscaled,
};
use crate::aarch64::fields::{
    bit_field_reads_back, four_registers_read_back, masks, number_reads_back,
    register_access_reads_back, scaled_access_reads_back, shifted_register_reads_back,
    three_registers_read_back, unscaled_access_reads_back, wide_move_reads_back,
};
use crate::aarch64::machine::{Act, Alu, Core, act, condition, read, run, size_of};
use crate::bytes::{le32, le32_reads_back, rd32};
use crate::encode::Cc;

verus! {

/// Whether `t` is `s` with one more word, which does `a` and is no branch.
#[verifier::opaque]
pub open spec fn adds(s: A64State, t: A64State, a: Act) -> bool {
    &&& t.code.len() == s.code.len() + 4
    &&& t.code.take(s.code.len() as int) == s.code
    &&& read(rd32(t.code, s.code.len() as int) as u32) == a
    &&& t.branches == s.branches
}

/// What one more word leaves of a processor.
pub proof fn added_runs(s: A64State, t: A64State, a: Act, n: nat, c: Core)
    requires
        adds(s, t, a),
        n <= s.code.len(),
    ensures
        run(t.code, n, c) == (match run(s.code, n, c) {
            Some(d) => act(a, d),
            None => None,
        }),
        n <= t.code.len(),
{
    reveal(adds);
    assert(t.code.take(t.code.len() - 4) =~= s.code);
}

pub(crate) proof fn word_adds(s: A64State, t: A64State, w: u32)
    requires
        t.code == s.code + le32(w),
        t.branches == s.branches,
    ensures
        adds(s, t, read(w)),
{
    reveal(adds);
    le32_reads_back(w);
    assert(t.code.take(s.code.len() as int) =~= s.code);
    assert(rd32(t.code, s.code.len() as int) == rd32(le32(w), 0));
}

/// Whether a number names a register.
pub open spec fn named(r: Reg) -> bool {
    r.0 < 32
}

/// The number of a register.
pub open spec fn index(r: Reg) -> int {
    r.0 as int
}

proof fn opcodes()
    ensures
        0x8B00_0000u32 & 0x1F_03FF == 0,
        0xCB00_0000u32 & 0x1F_03FF == 0,
        0x8A00_0000u32 & 0x1F_03FF == 0,
        0xAA00_0000u32 & 0x1F_03FF == 0,
        0xAA20_0000u32 & 0x1F_03FF == 0,
        0xCA00_0000u32 & 0x1F_03FF == 0,
        0x9AC0_0C00u32 & 0x1F_03FF == 0,
        0x9AC0_0800u32 & 0x1F_03FF == 0,
        0x9AC0_2000u32 & 0x1F_03FF == 0,
        0x9AC0_2400u32 & 0x1F_03FF == 0,
        0x9AC0_2800u32 & 0x1F_03FF == 0,
        0xEB00_0000u32 & 0x1F_03FF == 0,
        0x9B00_0000u32 & 0x1F_7FFF == 0,
        0x9B00_8000u32 & 0x1F_7FFF == 0,
        0x9100_0000u32 & 0x3F_FFFF == 0,
        0xD100_0000u32 & 0x3F_FFFF == 0,
        0xF100_0000u32 & 0x3F_FFFF == 0,
        0xB100_0000u32 & 0x3F_FFFF == 0,
        0xD340_0000u32 & 0x3F_FFFF == 0,
        0x9340_0000u32 & 0x3F_FFFF == 0,
        0xD280_0000u32 & 0x7F_FFFF == 0,
        0xF280_0000u32 & 0x7F_FFFF == 0,
        0x8B20_6000u32 & 0x1F_03FF == 0,
        0x9140_0000u32 & 0x3F_FFFF == 0,
        0x8B00_0000u32 & 0x1F_FFFF == 0,
{
    assert(0x8B00_0000u32 & 0x1F_03FF == 0 && 0xCB00_0000u32 & 0x1F_03FF == 0 && 0x8A00_0000u32
        & 0x1F_03FF == 0 && 0xAA00_0000u32 & 0x1F_03FF == 0 && 0xAA20_0000u32 & 0x1F_03FF == 0
        && 0xCA00_0000u32 & 0x1F_03FF == 0 && 0x9AC0_0C00u32 & 0x1F_03FF == 0 && 0x9AC0_0800u32
        & 0x1F_03FF == 0 && 0x9AC0_2000u32 & 0x1F_03FF == 0 && 0x9AC0_2400u32 & 0x1F_03FF == 0
        && 0x9AC0_2800u32 & 0x1F_03FF == 0 && 0xEB00_0000u32 & 0x1F_03FF == 0 && 0x9B00_0000u32
        & 0x1F_7FFF == 0 && 0x9B00_8000u32 & 0x1F_7FFF == 0 && 0x9100_0000u32 & 0x3F_FFFF == 0
        && 0xD100_0000u32 & 0x3F_FFFF == 0 && 0xF100_0000u32 & 0x3F_FFFF == 0 && 0xB100_0000u32
        & 0x3F_FFFF == 0 && 0xD340_0000u32 & 0x3F_FFFF == 0 && 0x9340_0000u32 & 0x3F_FFFF == 0 && 0xD280_0000u32 & 0x7F_FFFF == 0
        && 0xF280_0000u32 & 0x7F_FFFF == 0 && 0x8B20_6000u32 & 0x1F_03FF == 0 && 0x9140_0000u32
        & 0x3F_FFFF == 0 && 0x8B00_0000u32 & 0x1F_FFFF == 0) by (bit_vector);
}

proof fn accesses()
    ensures
        0x3900_0000u32 & 0xC03F_FFFF == 0,
        0x3940_0000u32 & 0xC03F_FFFF == 0,
        0x3980_0000u32 & 0xC03F_FFFF == 0,
        0x3800_0000u32 & 0xC01F_FFFF == 0,
        0x3840_0000u32 & 0xC01F_FFFF == 0,
        0x3880_0000u32 & 0xC01F_FFFF == 0,
        0x3820_6800u32 & 0xC01F_03FF == 0,
        0x3860_6800u32 & 0xC01F_03FF == 0,
        0x38A0_6800u32 & 0xC01F_03FF == 0,
{
    assert(0x3900_0000u32 & 0xC03F_FFFF == 0 && 0x3940_0000u32 & 0xC03F_FFFF == 0 && 0x3980_0000u32
        & 0xC03F_FFFF == 0 && 0x3800_0000u32 & 0xC01F_FFFF == 0 && 0x3840_0000u32 & 0xC01F_FFFF
        == 0 && 0x3880_0000u32 & 0xC01F_FFFF == 0 && 0x3820_6800u32 & 0xC01F_03FF == 0
        && 0x3860_6800u32 & 0xC01F_03FF == 0 && 0x38A0_6800u32 & 0xC01F_03FF == 0)
        by (bit_vector);
}

proof fn product_word(rd: Reg, rn: Reg, rm: Reg)
    requires
        named(rd),
        named(rn),
        named(rm),
    ensures
        rrr(0x9B00_7C00, rd, rn, rm) == rrra(0x9B00_0000, rd, rn, rm, Reg(XZR)),
{
    let d = rd.0 as u32;
    let n = rn.0 as u32;
    let m = rm.0 as u32;
    assert(0x9B00_7C00u32 | (m << 16) | (n << 5) | d == 0x9B00_0000u32 | (m << 16) | (31u32 << 10)
        | (n << 5) | d) by (bit_vector)
        requires
            d < 32,
            n < 32,
            m < 32,
    ;
}

/// A number, as one of any size.
pub open spec fn number(v: u32) -> int {
    v as int
}

/// The number of the opposite condition.
pub open spec fn other_way(cc: Cc) -> int {
    if cc.cond_bits() % 2 == 0 {
        cc.cond_bits() + 1
    } else {
        cc.cond_bits() - 1
    }
}

/// The opposite condition holds just where the condition does not.
pub proof fn other_way_is_opposite(c: Core, cc: Cc)
    ensures
        condition(c, other_way(cc)) == !condition(c, cc.cond_bits() as int),
{
}

proof fn condition_word(rd: Reg, cc: Cc)
    requires
        named(rd),
    ensures
        read(cset_word(rd, cc)) == (Act::Condition { rd: index(rd), unless: other_way(cc) }),
{
    reveal(read);
    masks();
    let d = rd.0 as u32;
    let b = cc.cond_bits();
    let k = (b ^ 1) as u32;
    assert(0u8 ^ 1 == 1 && 1u8 ^ 1 == 0 && 2u8 ^ 1 == 3 && 3u8 ^ 1 == 2 && 5u8 ^ 1 == 4 && 6u8 ^ 1
        == 7 && 8u8 ^ 1 == 9 && 9u8 ^ 1 == 8 && 10u8 ^ 1 == 11 && 11u8 ^ 1 == 10 && 12u8 ^ 1 == 13
        && 13u8 ^ 1 == 12) by (bit_vector);
    let w = 0x9A9F_07E0u32 | (k << 12) | d;
    assert((w >> 24u32) & 0xFF == 0x9A && (w >> 21u32) & 7 == 4 && w & 0xFFFF_0FE0 == 0x9A9F_07E0
        && (w >> 12u32) & 0xF == k && (w >> 0u32) & 0x1F == d) by (bit_vector)
        requires
            w == 0x9A9F_07E0u32 | (k << 12) | d,
            d < 32,
            k < 16,
    ;
}

/// A move of sixteen bits reads back.
pub proof fn lane_word(keep: bool, rd: Reg, v: u16, part: u8)
    requires
        named(rd),
        part < 4,
    ensures
        read(
            movw(
                if keep {
                    0xF280_0000
                } else {
                    0xD280_0000
                },
                rd,
                v,
                part,
            ),
        ) == (Act::Lane { keep, rd: index(rd), value: v as int, part: part as int }),
{
    reveal(read);
    opcodes();
    if keep {
        wide_move_reads_back(0xF280_0000, rd, v, part);
    } else {
        wide_move_reads_back(0xD280_0000, rd, v, part);
    }
}

/// What the opcodes of a load or store do.
pub enum Access {
    Store,
    Load,
    LoadSigned,
}

/// The opcode with a scaled offset.
pub open spec fn scaled_op(k: Access) -> u32 {
    match k {
        Access::Store => 0x3900_0000,
        Access::Load => 0x3940_0000,
        Access::LoadSigned => 0x3980_0000,
    }
}

/// The opcode with an unscaled offset.
pub open spec fn unscaled_op(k: Access) -> u32 {
    match k {
        Access::Store => 0x3800_0000,
        Access::Load => 0x3840_0000,
        Access::LoadSigned => 0x3880_0000,
    }
}

/// The opcode with the offset in a register.
pub open spec fn register_op(k: Access) -> u32 {
    match k {
        Access::Store => 0x3820_6800,
        Access::Load => 0x3860_6800,
        Access::LoadSigned => 0x38A0_6800,
    }
}

/// What a load or store at an offset does.
pub open spec fn access_act(k: Access, size: MemSize, rt: Reg, rn: Reg, off: int) -> Act {
    match k {
        Access::Store => Act::Store { size, rt: index(rt), rn: index(rn), off },
        Access::Load => Act::Load { signed: false, size, rt: index(rt), rn: index(rn), off },
        Access::LoadSigned => Act::Load { signed: true, size, rt: index(rt), rn: index(rn), off },
    }
}

/// What a load or store at an offset in a register does.
pub open spec fn access_at_act(k: Access, size: MemSize, rt: Reg, rn: Reg, rm: Reg) -> Act {
    let rm = index(rm);
    match k {
        Access::Store => Act::StoreAt { size, rt: index(rt), rn: index(rn), rm },
        Access::Load => Act::LoadAt { signed: false, size, rt: index(rt), rn: index(rn), rm },
        Access::LoadSigned => Act::LoadAt { signed: true, size, rt: index(rt), rn: index(rn), rm },
    }
}

/// A load or store with a scaled offset is at the offset.
pub proof fn scaled_word(k: Access, size: MemSize, i: u32, rn: Reg, rt: Reg)
    requires
        named(rn),
        named(rt),
        i <= 0xFFF,
        k is LoadSigned ==> size != MemSize::X,
    ensures
        read(at_scaled(scaled_op(k), size, i, rn, rt)) == access_act(
            k,
            size,
            rt,
            rn,
            i * size.width(),
        ),
{
    reveal(read);
    accesses();
    scaled_access_reads_back(scaled_op(k), size, i, rn, rt);
    assert(size_of(size.field() as int) == size);
}

/// A load or store with an unscaled offset is at the offset.
pub proof fn unscaled_word(k: Access, size: MemSize, off: i64, rn: Reg, rt: Reg)
    requires
        named(rn),
        named(rt),
        -256 <= off <= 255,
        k is LoadSigned ==> size != MemSize::X,
    ensures
        read(at_unscaled(unscaled_op(k), size, unscaled(off).unwrap(), rn, rt)) == access_act(
            k,
            size,
            rt,
            rn,
            off as int,
        ),
{
    reveal(read);
    accesses();
    unscaled_access_reads_back(unscaled_op(k), size, unscaled(off).unwrap(), rn, rt);
    assert(size_of(size.field() as int) == size);
}

/// A load or store with the offset in a register is at the offset.
pub proof fn register_word(k: Access, size: MemSize, rm: Reg, rn: Reg, rt: Reg)
    requires
        named(rn),
        named(rt),
        named(rm),
        k is LoadSigned ==> size != MemSize::X,
    ensures
        read(at_register(register_op(k), size, rm, rn, rt)) == access_at_act(k, size, rt, rn, rm),
{
    reveal(read);
    accesses();
    register_access_reads_back(register_op(k), size, rm, rn, rt);
    assert(size_of(size.field() as int) == size);
}

/// `add` on three registers.
pub proof fn add_does(s: A64State, rd: Reg, rn: Reg, rm: Reg)
    requires
        named(rd),
        named(rn),
        named(rm),
    ensures
        adds(s, s.add(rd, rn, rm), 
            Act::Binary { op: Alu::Plus, rd: index(rd), rn: index(rn), rm: index(rm) }),
{
    reveal(A64State::add);
    reveal(read);
    opcodes();
    three_registers_read_back(0x8B00_0000, rd, rn, rm);
    word_adds(s, s.add(rd, rn, rm), rrr(0x8B00_0000, rd, rn, rm));
}

/// `sub` on three registers.
pub proof fn sub_does(s: A64State, rd: Reg, rn: Reg, rm: Reg)
    requires
        named(rd),
        named(rn),
        named(rm),
    ensures
        adds(s, s.sub(rd, rn, rm), 
            Act::Binary { op: Alu::Minus, rd: index(rd), rn: index(rn), rm: index(rm) }),
{
    reveal(A64State::sub);
    reveal(read);
    opcodes();
    three_registers_read_back(0xCB00_0000, rd, rn, rm);
    word_adds(s, s.sub(rd, rn, rm), rrr(0xCB00_0000, rd, rn, rm));
}

/// `and` on three registers.
pub proof fn and_does(s: A64State, rd: Reg, rn: Reg, rm: Reg)
    requires
        named(rd),
        named(rn),
        named(rm),
    ensures
        adds(s, s.and(rd, rn, rm), 
            Act::Binary { op: Alu::And, rd: index(rd), rn: index(rn), rm: index(rm) }),
{
    reveal(A64State::and);
    reveal(read);
    opcodes();
    three_registers_read_back(0x8A00_0000, rd, rn, rm);
    word_adds(s, s.and(rd, rn, rm), rrr(0x8A00_0000, rd, rn, rm));
}

/// `orr` on three registers.
pub proof fn orr_does(s: A64State, rd: Reg, rn: Reg, rm: Reg)
    requires
        named(rd),
        named(rn),
        named(rm),
    ensures
        adds(s, s.orr(rd, rn, rm), 
            Act::Binary { op: Alu::Or, rd: index(rd), rn: index(rn), rm: index(rm) }),
{
    reveal(A64State::orr);
    reveal(read);
    opcodes();
    three_registers_read_back(0xAA00_0000, rd, rn, rm);
    word_adds(s, s.orr(rd, rn, rm), rrr(0xAA00_0000, rd, rn, rm));
}

/// `eor` on three registers.
pub proof fn eor_does(s: A64State, rd: Reg, rn: Reg, rm: Reg)
    requires
        named(rd),
        named(rn),
        named(rm),
    ensures
        adds(s, s.eor(rd, rn, rm), 
            Act::Binary { op: Alu::Xor, rd: index(rd), rn: index(rn), rm: index(rm) }),
{
    reveal(A64State::eor);
    reveal(read);
    opcodes();
    three_registers_read_back(0xCA00_0000, rd, rn, rm);
    word_adds(s, s.eor(rd, rn, rm), rrr(0xCA00_0000, rd, rn, rm));
}

/// `sdiv` on three registers.
pub proof fn sdiv_does(s: A64State, rd: Reg, rn: Reg, rm: Reg)
    requires
        named(rd),
        named(rn),
        named(rm),
    ensures
        adds(s, s.sdiv(rd, rn, rm), 
            Act::Binary { op: Alu::SignedOver, rd: index(rd), rn: index(rn), rm: index(rm) }),
{
    reveal(A64State::sdiv);
    reveal(read);
    opcodes();
    three_registers_read_back(0x9AC0_0C00, rd, rn, rm);
    word_adds(s, s.sdiv(rd, rn, rm), rrr(0x9AC0_0C00, rd, rn, rm));
}

/// `udiv` on three registers.
pub proof fn udiv_does(s: A64State, rd: Reg, rn: Reg, rm: Reg)
    requires
        named(rd),
        named(rn),
        named(rm),
    ensures
        adds(s, s.udiv(rd, rn, rm), 
            Act::Binary { op: Alu::Over, rd: index(rd), rn: index(rn), rm: index(rm) }),
{
    reveal(A64State::udiv);
    reveal(read);
    opcodes();
    three_registers_read_back(0x9AC0_0800, rd, rn, rm);
    word_adds(s, s.udiv(rd, rn, rm), rrr(0x9AC0_0800, rd, rn, rm));
}

/// `lslv` on three registers.
pub proof fn lslv_does(s: A64State, rd: Reg, rn: Reg, rm: Reg)
    requires
        named(rd),
        named(rn),
        named(rm),
    ensures
        adds(s, s.lslv(rd, rn, rm), 
            Act::Binary { op: Alu::Left, rd: index(rd), rn: index(rn), rm: index(rm) }),
{
    reveal(A64State::lslv);
    reveal(read);
    opcodes();
    three_registers_read_back(0x9AC0_2000, rd, rn, rm);
    word_adds(s, s.lslv(rd, rn, rm), rrr(0x9AC0_2000, rd, rn, rm));
}

/// `lsrv` on three registers.
pub proof fn lsrv_does(s: A64State, rd: Reg, rn: Reg, rm: Reg)
    requires
        named(rd),
        named(rn),
        named(rm),
    ensures
        adds(s, s.lsrv(rd, rn, rm), 
            Act::Binary { op: Alu::Right, rd: index(rd), rn: index(rn), rm: index(rm) }),
{
    reveal(A64State::lsrv);
    reveal(read);
    opcodes();
    three_registers_read_back(0x9AC0_2400, rd, rn, rm);
    word_adds(s, s.lsrv(rd, rn, rm), rrr(0x9AC0_2400, rd, rn, rm));
}

/// `asrv` on three registers.
pub proof fn asrv_does(s: A64State, rd: Reg, rn: Reg, rm: Reg)
    requires
        named(rd),
        named(rn),
        named(rm),
    ensures
        adds(s, s.asrv(rd, rn, rm), 
            Act::Binary { op: Alu::SignedRight, rd: index(rd), rn: index(rn), rm: index(rm) }),
{
    reveal(A64State::asrv);
    reveal(read);
    opcodes();
    three_registers_read_back(0x9AC0_2800, rd, rn, rm);
    word_adds(s, s.asrv(rd, rn, rm), rrr(0x9AC0_2800, rd, rn, rm));
}

/// `mov` of a register.
pub proof fn mov_reg_does(s: A64State, rd: Reg, rn: Reg)
    requires
        named(rd),
        named(rn),
    ensures
        adds(s, s.mov_reg(rd, rn), 
            Act::Binary { op: Alu::Or, rd: index(rd), rn: 31, rm: index(rn) }),
{
    reveal(A64State::mov_reg);
    reveal(read);
    opcodes();
    three_registers_read_back(0xAA00_0000, rd, Reg(XZR), rn);
    word_adds(s, s.mov_reg(rd, rn), rrr(0xAA00_0000, rd, Reg(XZR), rn));
}

/// `mvn` of a register.
pub proof fn mvn_does(s: A64State, rd: Reg, rm: Reg)
    requires
        named(rd),
        named(rm),
    ensures
        adds(s, s.mvn(rd, rm), 
            Act::Binary { op: Alu::OrNot, rd: index(rd), rn: 31, rm: index(rm) }),
{
    reveal(A64State::mvn);
    reveal(read);
    opcodes();
    three_registers_read_back(0xAA20_0000, rd, Reg(XZR), rm);
    word_adds(s, s.mvn(rd, rm), rrr(0xAA20_0000, rd, Reg(XZR), rm));
}

/// `neg` of a register.
pub proof fn neg_does(s: A64State, rd: Reg, rm: Reg)
    requires
        named(rd),
        named(rm),
    ensures
        adds(s, s.neg(rd, rm), 
            Act::Binary { op: Alu::Minus, rd: index(rd), rn: 31, rm: index(rm) }),
{
    reveal(A64State::neg);
    reveal(read);
    opcodes();
    three_registers_read_back(0xCB00_0000, rd, Reg(XZR), rm);
    word_adds(s, s.neg(rd, rm), rrr(0xCB00_0000, rd, Reg(XZR), rm));
}

/// `cmp` of two registers.
pub proof fn cmp_does(s: A64State, rn: Reg, rm: Reg)
    requires
        named(rn),
        named(rm),
    ensures
        adds(s, s.cmp(rn, rm), Act::Compare { rd: 31, rn: index(rn), rm: index(rm) }),
{
    reveal(A64State::cmp);
    reveal(read);
    opcodes();
    three_registers_read_back(0xEB00_0000, Reg(XZR), rn, rm);
    word_adds(s, s.cmp(rn, rm), rrr(0xEB00_0000, Reg(XZR), rn, rm));
}

/// `cmp` of a register and a number.
pub proof fn cmp_imm_does(s: A64State, rn: Reg, imm12: u32)
    requires
        named(rn),
        imm12 <= 0xFFF,
    ensures
        adds(s, s.cmp_imm(rn, imm12), 
            Act::CompareImm { rd: 31, rn: index(rn), value: number(imm12) }),
{
    reveal(A64State::cmp_imm);
    reveal(read);
    opcodes();
    number_reads_back(0xF100_0000, Reg(XZR), rn, imm12);
    word_adds(s, s.cmp_imm(rn, imm12), imm(0xF100_0000, Reg(XZR), rn, imm12));
}

/// `msub` on four registers.
pub proof fn msub_does(s: A64State, rd: Reg, rn: Reg, rm: Reg, ra: Reg)
    requires
        named(rd),
        named(rn),
        named(rm),
        named(ra),
    ensures
        adds(s, s.msub(rd, rn, rm, ra), 
            Act::TimesPlus {
                minus: true,
                rd: index(rd),
                rn: index(rn),
                rm: index(rm),
                ra: index(ra),
            }),
{
    reveal(A64State::msub);
    reveal(read);
    opcodes();
    four_registers_read_back(0x9B00_8000, rd, rn, rm, ra);
    word_adds(s, s.msub(rd, rn, rm, ra), rrra(0x9B00_8000, rd, rn, rm, ra));
}

/// `mul` of two registers.
pub proof fn mul_does(s: A64State, rd: Reg, rn: Reg, rm: Reg)
    requires
        named(rd),
        named(rn),
        named(rm),
    ensures
        adds(s, s.mul(rd, rn, rm), 
            Act::TimesPlus { minus: false, rd: index(rd), rn: index(rn), rm: index(rm), ra: 31 }),
{
    reveal(A64State::mul);
    reveal(read);
    opcodes();
    four_registers_read_back(0x9B00_0000, rd, rn, rm, Reg(XZR));
    product_word(rd, rn, rm);
    word_adds(s, s.mul(rd, rn, rm), rrra(0x9B00_0000, rd, rn, rm, Reg(XZR)));
}

/// The low bits of a register, without a sign.
pub proof fn ubfm_does(s: A64State, rd: Reg, rn: Reg, immr: u8, imms: u8)
    requires
        named(rd),
        named(rn),
        immr == 0,
        imms < 64,
    ensures
        adds(s, s.ubfm(rd, rn, immr, imms), 
            Act::Low { signed: false, rd: index(rd), rn: index(rn), width: imms + 1 }),
{
    reveal(A64State::ubfm);
    reveal(read);
    opcodes();
    bit_field_reads_back(0xD340_0000, rd, rn, immr, imms);
    word_adds(s, s.ubfm(rd, rn, immr, imms), bfm(0xD340_0000, rd, rn, immr, imms));
}

/// `lsl` by a number.
pub proof fn lsl_imm_does(s: A64State, rd: Reg, rn: Reg, sh: u8)
    requires
        named(rd),
        named(rn),
        1 <= sh < 64,
    ensures
        adds(
            s,
            s.lsl_imm(rd, rn, sh),
            Act::LeftImm { rd: index(rd), rn: index(rn), by: sh as int },
        ),
{
    reveal(A64State::lsl_imm);
    reveal(read);
    opcodes();
    let r = (64 - sh) as u8;
    let k = (63 - sh) as u8;
    bit_field_reads_back(0xD340_0000, rd, rn, r, k);
    word_adds(s, s.lsl_imm(rd, rn, sh), bfm(0xD340_0000, rd, rn, r, k));
}

/// The low bits of a register, with their sign.
pub proof fn sbfm_does(s: A64State, rd: Reg, rn: Reg, immr: u8, imms: u8)
    requires
        named(rd),
        named(rn),
        immr == 0,
        imms < 64,
    ensures
        adds(s, s.sbfm(rd, rn, immr, imms), 
            Act::Low { signed: true, rd: index(rd), rn: index(rn), width: imms + 1 }),
{
    reveal(A64State::sbfm);
    reveal(read);
    opcodes();
    bit_field_reads_back(0x9340_0000, rd, rn, immr, imms);
    word_adds(s, s.sbfm(rd, rn, immr, imms), bfm(0x9340_0000, rd, rn, immr, imms));
}

/// `add` of a number.
pub proof fn add_imm_does(s: A64State, rd: Reg, rn: Reg, imm12: u32)
    requires
        named(rd),
        named(rn),
        imm12 <= 0xFFF,
    ensures
        adds(
            s,
            s.add_imm(rd, rn, imm12),
            Act::PlusImm { rd: index(rd), rn: index(rn), value: imm12 as int },
        ),
{
    reveal(A64State::add_imm);
    reveal(read);
    opcodes();
    number_reads_back(0x9100_0000, rd, rn, imm12);
    word_adds(s, s.add_imm(rd, rn, imm12), imm(0x9100_0000, rd, rn, imm12));
}

/// `add` of a number shifted by twelve bits.
pub proof fn add_far_does(s: A64State, rd: Reg, rn: Reg, imm12: u32)
    requires
        named(rd),
        named(rn),
        imm12 <= 0xFFF,
    ensures
        adds(
            s,
            s.word(imm(0x9140_0000, rd, rn, imm12)),
            Act::PlusImm { rd: index(rd), rn: index(rn), value: imm12 * 0x1000 },
        ),
{
    reveal(read);
    opcodes();
    number_reads_back(0x9140_0000, rd, rn, imm12);
    word_adds(s, s.word(imm(0x9140_0000, rd, rn, imm12)), imm(0x9140_0000, rd, rn, imm12));
}

/// `add` of a register, with the stack pointer among those that can be named.
pub proof fn add_ext_does(s: A64State, rd: Reg, rn: Reg, rm: Reg)
    requires
        named(rd),
        named(rn),
        named(rm),
    ensures
        adds(
            s,
            s.add_ext(rd, rn, rm),
            Act::PlusBase { rd: index(rd), rn: index(rn), rm: index(rm) },
        ),
{
    reveal(A64State::add_ext);
    reveal(read);
    opcodes();
    three_registers_read_back(0x8B20_6000, rd, rn, rm);
    word_adds(s, s.add_ext(rd, rn, rm), rrr(0x8B20_6000, rd, rn, rm));
}

/// What an `add` of a shifted register does.
pub open spec fn shifted_act(rd: Reg, rn: Reg, rm: Reg, sh: u8) -> Act {
    if sh == 0 {
        Act::Binary { op: Alu::Plus, rd: index(rd), rn: index(rn), rm: index(rm) }
    } else {
        Act::PlusShifted { rd: index(rd), rn: index(rn), rm: index(rm), by: sh as int }
    }
}

/// `add` of a register that is shifted to the left.
pub proof fn add_lsl_does(s: A64State, rd: Reg, rn: Reg, rm: Reg, sh: u8)
    requires
        named(rd),
        named(rn),
        named(rm),
        sh < 64,
    ensures
        adds(s, s.add_lsl(rd, rn, rm, sh), shifted_act(rd, rn, rm, sh)),
{
    reveal(A64State::add_lsl);
    reveal(read);
    opcodes();
    shifted_register_reads_back(0x8B00_0000, rd, rn, rm, sh);
    word_adds(s, s.add_lsl(rd, rn, rm, sh), shifted(0x8B00_0000, rd, rn, rm, sh));
}

/// `adds` of a number.
pub proof fn adds_imm_does(s: A64State, rd: Reg, rn: Reg, imm12: u32)
    requires
        named(rd),
        named(rn),
        imm12 <= 0xFFF,
    ensures
        adds(
            s,
            s.adds_imm(rd, rn, imm12),
            Act::PlusFlags { rd: index(rd), rn: index(rn), value: imm12 as int },
        ),
{
    reveal(A64State::adds_imm);
    reveal(read);
    opcodes();
    number_reads_back(0xB100_0000, rd, rn, imm12);
    word_adds(s, s.adds_imm(rd, rn, imm12), imm(0xB100_0000, rd, rn, imm12));
}

/// `sub` of a number.
pub proof fn sub_imm_does(s: A64State, rd: Reg, rn: Reg, imm12: u32)
    requires
        named(rd),
        named(rn),
        imm12 <= 0xFFF,
    ensures
        adds(
            s,
            s.sub_imm(rd, rn, imm12),
            Act::PlusImm { rd: index(rd), rn: index(rn), value: -(imm12 as int) },
        ),
{
    reveal(A64State::sub_imm);
    reveal(read);
    opcodes();
    number_reads_back(0xD100_0000, rd, rn, imm12);
    word_adds(s, s.sub_imm(rd, rn, imm12), imm(0xD100_0000, rd, rn, imm12));
}

/// A condition goes to a register.
pub proof fn cset_does(s: A64State, rd: Reg, cc: Cc)
    requires
        named(rd),
    ensures
        adds(s, s.cset(rd, cc), Act::Condition { rd: index(rd), unless: other_way(cc) }),
{
    reveal(A64State::cset);
    reveal(read);
    condition_word(rd, cc);
    word_adds(s, s.cset(rd, cc), cset_word(rd, cc));
}

} // verus!
