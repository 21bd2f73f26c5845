//! Instruction words read back as they were written: every field holds what it was made of,
//! and the rest of the word is the opcode.
use vstd::prelude::*;

use crate::aarch64::encode::{
    MemSize, Reg, at_register, at_scaled, at_unscaled, bfm, imm, movw, rr, rrr, rrra, shifted,
};

verus! {

/// The `n` bits of a word from bit `at` on.
pub open spec fn bits_at(w: u32, at: u32, n: u32) -> u32 {
    (w >> at) & sub_one(1u32 << n)
}

/// One less; zero for zero.
pub open spec fn sub_one(x: u32) -> u32 {
    if x == 0 {
        0
    } else {
        (x - 1) as u32
    }
}

pub(crate) proof fn masks()
    ensures
        sub_one(1u32 << 5u32) == 0x1F,
        sub_one(1u32 << 2u32) == 3,
        sub_one(1u32 << 6u32) == 0x3F,
        sub_one(1u32 << 9u32) == 0x1FF,
        sub_one(1u32 << 12u32) == 0xFFF,
        sub_one(1u32 << 16u32) == 0xFFFF,
        sub_one(1u32 << 8u32) == 0xFF,
        sub_one(1u32 << 3u32) == 7,
        sub_one(1u32 << 4u32) == 0xF,
{
    assert(1u32 << 5u32 == 0x20 && 1u32 << 2u32 == 4 && 1u32 << 6u32 == 0x40 && 1u32 << 9u32
        == 0x200 && 1u32 << 12u32 == 0x1000 && 1u32 << 16u32 == 0x1_0000 && 1u32 << 8u32 == 0x100
        && 1u32 << 3u32 == 8 && 1u32 << 4u32 == 0x10) by (bit_vector);
}

/// An instruction on two registers reads back.
pub proof fn two_registers_read_back(base: u32, rd: Reg, rn: Reg)
    requires
        base & 0x3FF == 0,
        rd.0 < 32,
        rn.0 < 32,
    ensures
        bits_at(rr(base, rd, rn), 0, 5) == rd.0,
        bits_at(rr(base, rd, rn), 5, 5) == rn.0,
        rr(base, rd, rn) & 0xFFFF_FC00 == base,
{
    masks();
    let d = rd.0 as u32;
    let n = rn.0 as u32;
    let w = base | (n << 5) | d;
    assert((w >> 0u32) & 0x1F == d && (w >> 5u32) & 0x1F == n && w & 0xFFFF_FC00 == base)
        by (bit_vector)
        requires
            w == base | (n << 5) | d,
            base & 0x3FF == 0,
            d < 32,
            n < 32,
    ;
}

/// An instruction on three registers reads back.
pub proof fn three_registers_read_back(base: u32, rd: Reg, rn: Reg, rm: Reg)
    requires
        base & 0x1F_03FF == 0,
        rd.0 < 32,
        rn.0 < 32,
        rm.0 < 32,
    ensures
        bits_at(rrr(base, rd, rn, rm), 24, 8) == base as int / 0x100_0000,
        bits_at(rrr(base, rd, rn, rm), 21, 3) == base as int / 0x20_0000 % 8,
        bits_at(rrr(base, rd, rn, rm), 0, 5) == rd.0,
        bits_at(rrr(base, rd, rn, rm), 5, 5) == rn.0,
        bits_at(rrr(base, rd, rn, rm), 16, 5) == rm.0,
        rrr(base, rd, rn, rm) & 0xFFE0_FC00 == base,
{
    masks();
    let d = rd.0 as u32;
    let n = rn.0 as u32;
    let m = rm.0 as u32;
    let w = base | (m << 16) | (n << 5) | d;
    assert((w >> 24u32) & 0xFF == base / 0x100_0000 && (w >> 21u32) & 7 == base / 0x20_0000 % 8 && (w >> 0u32) & 0x1F == d && (w >> 5u32) & 0x1F == n && (w >> 16u32) & 0x1F == m && w
        & 0xFFE0_FC00 == base) by (bit_vector)
        requires
            w == base | (m << 16) | (n << 5) | d,
            base & 0x1F_03FF == 0,
            d < 32,
            n < 32,
            m < 32,
    ;
}

/// An instruction on four registers reads back.
pub proof fn four_registers_read_back(base: u32, rd: Reg, rn: Reg, rm: Reg, ra: Reg)
    requires
        base & 0x1F_7FFF == 0,
        rd.0 < 32,
        rn.0 < 32,
        rm.0 < 32,
        ra.0 < 32,
    ensures
        bits_at(rrra(base, rd, rn, rm, ra), 24, 8) == base as int / 0x100_0000,
        bits_at(rrra(base, rd, rn, rm, ra), 0, 5) == rd.0,
        bits_at(rrra(base, rd, rn, rm, ra), 5, 5) == rn.0,
        bits_at(rrra(base, rd, rn, rm, ra), 10, 5) == ra.0,
        bits_at(rrra(base, rd, rn, rm, ra), 16, 5) == rm.0,
        rrra(base, rd, rn, rm, ra) & 0xFFE0_8000 == base,
{
    masks();
    let d = rd.0 as u32;
    let n = rn.0 as u32;
    let m = rm.0 as u32;
    let a = ra.0 as u32;
    let w = base | (m << 16) | (a << 10) | (n << 5) | d;
    assert((w >> 24u32) & 0xFF == base / 0x100_0000 && (w >> 0u32) & 0x1F == d && (w >> 5u32) & 0x1F == n && (w >> 10u32) & 0x1F == a && (w
        >> 16u32) & 0x1F == m && w & 0xFFE0_8000 == base) by (bit_vector)
        requires
            w == base | (m << 16) | (a << 10) | (n << 5) | d,
            base & 0x1F_7FFF == 0,
            d < 32,
            n < 32,
            m < 32,
            a < 32,
    ;
}

/// An instruction on three registers, one of them shifted by up to 63, reads back.
pub proof fn shifted_register_reads_back(base: u32, rd: Reg, rn: Reg, rm: Reg, sh: u8)
    requires
        base & 0x1F_FFFF == 0,
        rd.0 < 32,
        rn.0 < 32,
        rm.0 < 32,
        sh < 64,
    ensures
        bits_at(shifted(base, rd, rn, rm, sh), 24, 8) == base as int / 0x100_0000,
        shifted(base, rd, rn, rm, sh) & 0xFFE0_FC00 == base + sh * 0x400,
        bits_at(shifted(base, rd, rn, rm, sh), 0, 5) == rd.0,
        bits_at(shifted(base, rd, rn, rm, sh), 5, 5) == rn.0,
        bits_at(shifted(base, rd, rn, rm, sh), 10, 6) == sh,
        bits_at(shifted(base, rd, rn, rm, sh), 16, 5) == rm.0,
        shifted(base, rd, rn, rm, sh) & 0xFFE0_0000 == base,
{
    masks();
    let d = rd.0 as u32;
    let n = rn.0 as u32;
    let m = rm.0 as u32;
    let k = sh as u32;
    let w = base | (m << 16) | ((k & 0x3F) << 10) | (n << 5) | d;
    assert((w >> 24u32) & 0xFF == base / 0x100_0000 && w & 0xFFE0_FC00 == base + k * 0x400 && (w
        >> 0u32) & 0x1F == d && (w >> 5u32) & 0x1F == n && (w >> 10u32) & 0x3F == k && (w
        >> 16u32) & 0x1F == m && w & 0xFFE0_0000 == base) by (bit_vector)
        requires
            w == base | (m << 16) | ((k & 0x3F) << 10) | (n << 5) | d,
            base & 0x1F_FFFF == 0,
            d < 32,
            n < 32,
            m < 32,
            k < 64,
    ;
}

/// An instruction with a number of twelve bits reads back.
pub proof fn number_reads_back(base: u32, rd: Reg, rn: Reg, imm12: u32)
    requires
        base & 0x3F_FFFF == 0,
        rd.0 < 32,
        rn.0 < 32,
        imm12 <= 0xFFF,
    ensures
        bits_at(imm(base, rd, rn, imm12), 24, 8) == base as int / 0x100_0000,
        bits_at(imm(base, rd, rn, imm12), 0, 5) == rd.0,
        bits_at(imm(base, rd, rn, imm12), 5, 5) == rn.0,
        bits_at(imm(base, rd, rn, imm12), 10, 12) == imm12,
        imm(base, rd, rn, imm12) & 0xFFC0_0000 == base,
{
    masks();
    let d = rd.0 as u32;
    let n = rn.0 as u32;
    let w = base | ((imm12 & 0xFFF) << 10) | (n << 5) | d;
    assert((w >> 24u32) & 0xFF == base / 0x100_0000 && (w >> 0u32) & 0x1F == d && (w >> 5u32) & 0x1F == n && (w >> 10u32) & 0xFFF == imm12 && w
        & 0xFFC0_0000 == base) by (bit_vector)
        requires
            w == base | ((imm12 & 0xFFF) << 10) | (n << 5) | d,
            base & 0x3F_FFFF == 0,
            d < 32,
            n < 32,
            imm12 <= 0xFFF,
    ;
}

/// A bit-field move reads back.
pub proof fn bit_field_reads_back(base: u32, rd: Reg, rn: Reg, immr: u8, imms: u8)
    requires
        base & 0x3F_FFFF == 0,
        rd.0 < 32,
        rn.0 < 32,
        immr < 64,
        imms < 64,
    ensures
        bits_at(bfm(base, rd, rn, immr, imms), 24, 8) == base as int / 0x100_0000,
        bits_at(bfm(base, rd, rn, immr, imms), 0, 5) == rd.0,
        bits_at(bfm(base, rd, rn, immr, imms), 5, 5) == rn.0,
        bits_at(bfm(base, rd, rn, immr, imms), 10, 6) == imms,
        bits_at(bfm(base, rd, rn, immr, imms), 16, 6) == immr,
        bfm(base, rd, rn, immr, imms) & 0xFFC0_0000 == base,
{
    masks();
    let d = rd.0 as u32;
    let n = rn.0 as u32;
    let r = immr as u32;
    let k = imms as u32;
    let w = base | ((r & 0x3F) << 16) | ((k & 0x3F) << 10) | (n << 5) | d;
    assert((w >> 24u32) & 0xFF == base / 0x100_0000 && (w >> 0u32) & 0x1F == d && (w >> 5u32) & 0x1F == n && (w >> 10u32) & 0x3F == k && (w
        >> 16u32) & 0x3F == r && w & 0xFFC0_0000 == base) by (bit_vector)
        requires
            w == base | ((r & 0x3F) << 16) | ((k & 0x3F) << 10) | (n << 5) | d,
            base & 0x3F_FFFF == 0,
            d < 32,
            n < 32,
            r < 64,
            k < 64,
    ;
}

/// A move of sixteen bits to one of the four parts of a register reads back.
pub proof fn wide_move_reads_back(base: u32, rd: Reg, imm16: u16, hw: u8)
    requires
        base & 0x7F_FFFF == 0,
        rd.0 < 32,
        hw < 4,
    ensures
        bits_at(movw(base, rd, imm16, hw), 24, 8) == base as int / 0x100_0000,
        bits_at(movw(base, rd, imm16, hw), 0, 5) == rd.0,
        bits_at(movw(base, rd, imm16, hw), 5, 16) == imm16,
        bits_at(movw(base, rd, imm16, hw), 21, 2) == hw,
        movw(base, rd, imm16, hw) & 0xFF80_0000 == base,
{
    masks();
    let d = rd.0 as u32;
    let v = imm16 as u32;
    let h = hw as u32;
    let w = base | ((h & 3) << 21) | (v << 5) | d;
    assert((w >> 24u32) & 0xFF == base / 0x100_0000 && (w >> 0u32) & 0x1F == d && (w >> 5u32) & 0xFFFF == v && (w >> 21u32) & 3 == h && w
        & 0xFF80_0000 == base) by (bit_vector)
        requires
            w == base | ((h & 3) << 21) | (v << 5) | d,
            base & 0x7F_FFFF == 0,
            d < 32,
            v <= 0xFFFF,
            h < 4,
    ;
}

/// A load or store with a scaled offset reads back.
pub proof fn scaled_access_reads_back(op: u32, size: MemSize, imm12: u32, rn: Reg, rt: Reg)
    requires
        op & 0xC03F_FFFF == 0,
        rn.0 < 32,
        rt.0 < 32,
        imm12 <= 0xFFF,
    ensures
        bits_at(at_scaled(op, size, imm12, rn, rt), 24, 8) % 64 == op as int / 0x100_0000,
        bits_at(at_scaled(op, size, imm12, rn, rt), 24, 8) / 64 == size.field(),
        bits_at(at_scaled(op, size, imm12, rn, rt), 0, 5) == rt.0,
        bits_at(at_scaled(op, size, imm12, rn, rt), 5, 5) == rn.0,
        bits_at(at_scaled(op, size, imm12, rn, rt), 10, 12) == imm12,
        bits_at(at_scaled(op, size, imm12, rn, rt), 30, 2) == size.field(),
        at_scaled(op, size, imm12, rn, rt) & 0x3FC0_0000 == op,
{
    masks();
    let t = rt.0 as u32;
    let n = rn.0 as u32;
    let z = size.field();
    let w = (z << 30) | op | (imm12 << 10) | (n << 5) | t;
    assert(((w >> 24u32) & 0xFF) % 64 == op / 0x100_0000 && ((w >> 24u32) & 0xFF) / 64 == z && (w >> 0u32) & 0x1F == t && (w >> 5u32) & 0x1F == n && (w >> 10u32) & 0xFFF == imm12 && (
    w >> 30u32) & 3 == z && w & 0x3FC0_0000 == op) by (bit_vector)
        requires
            w == (z << 30) | op | (imm12 << 10) | (n << 5) | t,
            op & 0xC03F_FFFF == 0,
            z < 4,
            n < 32,
            t < 32,
            imm12 <= 0xFFF,
    ;
}

/// A load or store with an unscaled offset reads back.
pub proof fn unscaled_access_reads_back(op: u32, size: MemSize, imm9: u32, rn: Reg, rt: Reg)
    requires
        op & 0xC01F_FFFF == 0,
        rn.0 < 32,
        rt.0 < 32,
        imm9 <= 0x1FF,
    ensures
        bits_at(at_unscaled(op, size, imm9, rn, rt), 24, 8) % 64 == op as int / 0x100_0000,
        bits_at(at_unscaled(op, size, imm9, rn, rt), 24, 8) / 64 == size.field(),
        bits_at(at_unscaled(op, size, imm9, rn, rt), 10, 2) == op as int / 0x400 % 4,
        bits_at(at_unscaled(op, size, imm9, rn, rt), 0, 5) == rt.0,
        bits_at(at_unscaled(op, size, imm9, rn, rt), 5, 5) == rn.0,
        bits_at(at_unscaled(op, size, imm9, rn, rt), 12, 9) == imm9,
        bits_at(at_unscaled(op, size, imm9, rn, rt), 30, 2) == size.field(),
        at_unscaled(op, size, imm9, rn, rt) & 0x3FE0_0C00 == op,
{
    masks();
    let t = rt.0 as u32;
    let n = rn.0 as u32;
    let z = size.field();
    let w = (z << 30) | op | (imm9 << 12) | (n << 5) | t;
    assert(((w >> 24u32) & 0xFF) % 64 == op / 0x100_0000 && ((w >> 24u32) & 0xFF) / 64 == z && (w >> 10u32) & 3 == op / 0x400 % 4 && (w >> 0u32) & 0x1F == t && (w >> 5u32) & 0x1F == n && (w >> 12u32) & 0x1FF == imm9 && (w
        >> 30u32) & 3 == z && w & 0x3FE0_0C00 == op) by (bit_vector)
        requires
            w == (z << 30) | op | (imm9 << 12) | (n << 5) | t,
            op & 0xC01F_FFFF == 0,
            z < 4,
            n < 32,
            t < 32,
            imm9 <= 0x1FF,
    ;
}

/// A load or store with the offset in a register reads back.
pub proof fn register_access_reads_back(op: u32, size: MemSize, rm: Reg, rn: Reg, rt: Reg)
    requires
        op & 0xC01F_03FF == 0,
        rm.0 < 32,
        rn.0 < 32,
        rt.0 < 32,
    ensures
        bits_at(at_register(op, size, rm, rn, rt), 24, 8) % 64 == op as int / 0x100_0000,
        bits_at(at_register(op, size, rm, rn, rt), 24, 8) / 64 == size.field(),
        bits_at(at_register(op, size, rm, rn, rt), 10, 2) == op as int / 0x400 % 4,
        bits_at(at_register(op, size, rm, rn, rt), 0, 5) == rt.0,
        bits_at(at_register(op, size, rm, rn, rt), 5, 5) == rn.0,
        bits_at(at_register(op, size, rm, rn, rt), 16, 5) == rm.0,
        bits_at(at_register(op, size, rm, rn, rt), 30, 2) == size.field(),
        at_register(op, size, rm, rn, rt) & 0x3FE0_FC00 == op,
{
    masks();
    let t = rt.0 as u32;
    let n = rn.0 as u32;
    let m = rm.0 as u32;
    let z = size.field();
    let w = (z << 30) | op | (m << 16) | (n << 5) | t;
    assert(((w >> 24u32) & 0xFF) % 64 == op / 0x100_0000 && ((w >> 24u32) & 0xFF) / 64 == z && (w >> 10u32) & 3 == op / 0x400 % 4 && (w >> 0u32) & 0x1F == t && (w >> 5u32) & 0x1F == n && (w >> 16u32) & 0x1F == m && (w
        >> 30u32) & 3 == z && w & 0x3FE0_FC00 == op) by (bit_vector)
        requires
            w == (z << 30) | op | (m << 16) | (n << 5) | t,
            op & 0xC01F_03FF == 0,
            z < 4,
            n < 32,
            m < 32,
            t < 32,
    ;
}

} // verus!
