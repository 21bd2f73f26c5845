//! What one more instruction does to a processor that lowered code has left.
use vstd::prelude::*;

use crate::floats::{FloatOp, computed, from_integer};
use crate::bytes::wrap64;
use crate::encode::Cc;
use crate::lower::effects::{adds_takes, takes, tells};
use crate::lower::env::LowState;
use crate::machine::{
    Act, Alu, Cpu, Shift, Single, act, binary, cut_off, fetch, float_compared, in_space, low_bytes,
    patch, product, shifted, signed64, single,
};
use crate::reg::{Gpr, Xmm};
use crate::steps::{
    adc_rr_does, add_ri_does, add_rr_does, and_ri_does, and_rr_does, cmp_ri_does, cmp_rr_does,
    cqo_does, cvtsi2sd_does, cvttsd2si_does, div_r_does, float_arith_does, float_index, idiv_r_does,
    imul_r1_does, imul_rr_does, imul_rri_does, index, lea_rbp_does, leave_does, mov_load32_mem_does,
    mov_load_does, mov_load_mem_does, mov_ri_data_does, mov_ri_does, mov_ri_state_does,
    mov_rr32_does, mov_rr_does, mov_store16_mem_does, mov_store32_mem_does, mov_store8_mem_does,
    mov_store_does, mov_store_mem_does, movq_xmm_r64_does, movsd_load_does, movsd_store_does,
    movsx16_does, movsx16_mem_does, movsx8_does, movsx8_mem_does, movsxd_does, movsxd_mem_does,
    movzx16_mem_does, movzx8_mem_does, movzx_al_does, mul_r_does, neg_r_does, not_r_does,
    or_rr_does, pop_does, push_does, rep_movsb_does, sar_cl_does, sar_ri_does, sbb_rr_does,
    setcc_al_does, shl_cl_does, shl_ri_does, shr_cl_does, shr_ri_does, sub_rr_does,
    sub_rsp_imm_does, test_rr_does, ucomisd_does, widened, xor_ri_does, xor_rr_does, zero_rdx_does,
};

verus! {

pub(crate) proof fn follow_mov_ri(
    s: LowState,
    t: LowState,
    dst: Gpr,
    imm: i64,
    c: Cpu,
    d: Cpu,
) -> (e: Cpu)
    requires
        takes(s, t, c, d),
    ensures
        takes(s, t.on(t.text.mov_ri(dst, imm)), c, e),
        e == d.put(index(dst), wrap64(imm as int) as int),
{
    reveal(act);
    let u = t.on(t.text.mov_ri(dst, imm));
    mov_ri_does(t.text, dst, imm);
    let a = Act::MoveImm { dst: index(dst), value: wrap64(imm as int) };
    adds_takes(s, t, u, a, c, d);
    act(a, d).unwrap()
}

pub(crate) proof fn follow_mov_ri_data(
    s: LowState,
    t: LowState,
    dst: Gpr,
    off: u32,
    c: Cpu,
    d: Cpu,
) -> (e: Cpu)
    requires
        takes(s, t, c, d),
    ensures
        takes(s, t.on(t.text.mov_ri_data(dst, off)), c, e),
        e == d.put(index(dst), d.data + off),
{
    reveal(act);
    let u = t.on(t.text.mov_ri_data(dst, off));
    mov_ri_data_does(t.text, dst, off);
    let a = Act::Address { dst: index(dst), state: false, off };
    adds_takes(s, t, u, a, c, d);
    act(a, d).unwrap()
}

pub(crate) proof fn follow_mov_rr(
    s: LowState,
    t: LowState,
    dst: Gpr,
    src: Gpr,
    c: Cpu,
    d: Cpu,
) -> (e: Cpu)
    requires
        takes(s, t, c, d),
    ensures
        takes(s, t.on(t.text.mov_rr(dst, src)), c, e),
        e == d.put(index(dst), d.reg(index(src)) as int),
{
    reveal(act);
    let u = t.on(t.text.mov_rr(dst, src));
    mov_rr_does(t.text, dst, src);
    let a = Act::Move { dst: index(dst), src: index(src) };
    adds_takes(s, t, u, a, c, d);
    act(a, d).unwrap()
}

pub(crate) proof fn follow_mov_rr32(
    s: LowState,
    t: LowState,
    dst: Gpr,
    src: Gpr,
    c: Cpu,
    d: Cpu,
) -> (e: Cpu)
    requires
        takes(s, t, c, d),
    ensures
        takes(s, t.on(t.text.mov_rr32(dst, src)), c, e),
        e == d.put(index(dst), d.reg(index(src)) as int % 0x1_0000_0000),
{
    reveal(act);
    let u = t.on(t.text.mov_rr32(dst, src));
    mov_rr32_does(t.text, dst, src);
    let a = Act::MoveLow { dst: index(dst), src: index(src) };
    adds_takes(s, t, u, a, c, d);
    act(a, d).unwrap()
}

pub(crate) proof fn follow_add_rr(
    s: LowState,
    t: LowState,
    dst: Gpr,
    src: Gpr,
    c: Cpu,
    d: Cpu,
) -> (e: Cpu)
    requires
        takes(s, t, c, d),
    ensures
        takes(s, t.on(t.text.add_rr(dst, src)), c, e),
        Some(e) == binary(d, Alu::Plus, index(dst), d.reg(index(src))),
{
    reveal(act);
    let u = t.on(t.text.add_rr(dst, src));
    add_rr_does(t.text, dst, src);
    let a = Act::Binary { op: Alu::Plus, dst: index(dst), src: index(src) };
    adds_takes(s, t, u, a, c, d);
    act(a, d).unwrap()
}

pub(crate) proof fn follow_sub_rr(
    s: LowState,
    t: LowState,
    dst: Gpr,
    src: Gpr,
    c: Cpu,
    d: Cpu,
) -> (e: Cpu)
    requires
        takes(s, t, c, d),
    ensures
        takes(s, t.on(t.text.sub_rr(dst, src)), c, e),
        Some(e) == binary(d, Alu::Minus, index(dst), d.reg(index(src))),
{
    reveal(act);
    let u = t.on(t.text.sub_rr(dst, src));
    sub_rr_does(t.text, dst, src);
    let a = Act::Binary { op: Alu::Minus, dst: index(dst), src: index(src) };
    adds_takes(s, t, u, a, c, d);
    act(a, d).unwrap()
}

pub(crate) proof fn follow_xor_rr(
    s: LowState,
    t: LowState,
    dst: Gpr,
    src: Gpr,
    c: Cpu,
    d: Cpu,
) -> (e: Cpu)
    requires
        takes(s, t, c, d),
    ensures
        takes(s, t.on(t.text.xor_rr(dst, src)), c, e),
        Some(e) == binary(d, Alu::Xor, index(dst), d.reg(index(src))),
{
    reveal(act);
    let u = t.on(t.text.xor_rr(dst, src));
    xor_rr_does(t.text, dst, src);
    let a = Act::Binary { op: Alu::Xor, dst: index(dst), src: index(src) };
    adds_takes(s, t, u, a, c, d);
    act(a, d).unwrap()
}

pub(crate) proof fn follow_or_rr(
    s: LowState,
    t: LowState,
    dst: Gpr,
    src: Gpr,
    c: Cpu,
    d: Cpu,
) -> (e: Cpu)
    requires
        takes(s, t, c, d),
    ensures
        takes(s, t.on(t.text.or_rr(dst, src)), c, e),
        Some(e) == binary(d, Alu::Or, index(dst), d.reg(index(src))),
{
    reveal(act);
    let u = t.on(t.text.or_rr(dst, src));
    or_rr_does(t.text, dst, src);
    let a = Act::Binary { op: Alu::Or, dst: index(dst), src: index(src) };
    adds_takes(s, t, u, a, c, d);
    act(a, d).unwrap()
}

pub(crate) proof fn follow_and_rr(
    s: LowState,
    t: LowState,
    dst: Gpr,
    src: Gpr,
    c: Cpu,
    d: Cpu,
) -> (e: Cpu)
    requires
        takes(s, t, c, d),
    ensures
        takes(s, t.on(t.text.and_rr(dst, src)), c, e),
        Some(e) == binary(d, Alu::And, index(dst), d.reg(index(src))),
{
    reveal(act);
    let u = t.on(t.text.and_rr(dst, src));
    and_rr_does(t.text, dst, src);
    let a = Act::Binary { op: Alu::And, dst: index(dst), src: index(src) };
    adds_takes(s, t, u, a, c, d);
    act(a, d).unwrap()
}

pub(crate) proof fn follow_cmp_rr(
    s: LowState,
    t: LowState,
    dst: Gpr,
    src: Gpr,
    c: Cpu,
    d: Cpu,
) -> (e: Cpu)
    requires
        takes(s, t, c, d),
    ensures
        takes(s, t.on(t.text.cmp_rr(dst, src)), c, e),
        Some(e) == binary(d, Alu::Compare, index(dst), d.reg(index(src))),
{
    reveal(act);
    let u = t.on(t.text.cmp_rr(dst, src));
    cmp_rr_does(t.text, dst, src);
    let a = Act::Binary { op: Alu::Compare, dst: index(dst), src: index(src) };
    adds_takes(s, t, u, a, c, d);
    act(a, d).unwrap()
}

pub(crate) proof fn follow_adc_rr(
    s: LowState,
    t: LowState,
    dst: Gpr,
    src: Gpr,
    c: Cpu,
    d: Cpu,
) -> (e: Cpu)
    requires
        takes(s, t, c, d),
        d.carry is Some,
    ensures
        takes(s, t.on(t.text.adc_rr(dst, src)), c, e),
        Some(e) == binary(d, Alu::PlusCarry, index(dst), d.reg(index(src))),
{
    reveal(act);
    let u = t.on(t.text.adc_rr(dst, src));
    adc_rr_does(t.text, dst, src);
    let a = Act::Binary { op: Alu::PlusCarry, dst: index(dst), src: index(src) };
    adds_takes(s, t, u, a, c, d);
    act(a, d).unwrap()
}

pub(crate) proof fn follow_sbb_rr(
    s: LowState,
    t: LowState,
    dst: Gpr,
    src: Gpr,
    c: Cpu,
    d: Cpu,
) -> (e: Cpu)
    requires
        takes(s, t, c, d),
        d.carry is Some,
    ensures
        takes(s, t.on(t.text.sbb_rr(dst, src)), c, e),
        Some(e) == binary(d, Alu::MinusBorrow, index(dst), d.reg(index(src))),
{
    reveal(act);
    let u = t.on(t.text.sbb_rr(dst, src));
    sbb_rr_does(t.text, dst, src);
    let a = Act::Binary { op: Alu::MinusBorrow, dst: index(dst), src: index(src) };
    adds_takes(s, t, u, a, c, d);
    act(a, d).unwrap()
}

pub(crate) proof fn follow_add_ri(
    s: LowState,
    t: LowState,
    dst: Gpr,
    imm: i32,
    c: Cpu,
    d: Cpu,
) -> (e: Cpu)
    requires
        takes(s, t, c, d),
    ensures
        takes(s, t.on(t.text.add_ri(dst, imm)), c, e),
        Some(e) == binary(d, Alu::Plus, index(dst), wrap64(imm as int)),
{
    reveal(act);
    let u = t.on(t.text.add_ri(dst, imm));
    add_ri_does(t.text, dst, imm);
    let a = Act::BinaryImm { op: Alu::Plus, dst: index(dst), value: imm as int };
    adds_takes(s, t, u, a, c, d);
    act(a, d).unwrap()
}

pub(crate) proof fn follow_and_ri(
    s: LowState,
    t: LowState,
    dst: Gpr,
    imm: i32,
    c: Cpu,
    d: Cpu,
) -> (e: Cpu)
    requires
        takes(s, t, c, d),
    ensures
        takes(s, t.on(t.text.and_ri(dst, imm)), c, e),
        Some(e) == binary(d, Alu::And, index(dst), wrap64(imm as int)),
{
    reveal(act);
    let u = t.on(t.text.and_ri(dst, imm));
    and_ri_does(t.text, dst, imm);
    let a = Act::BinaryImm { op: Alu::And, dst: index(dst), value: imm as int };
    adds_takes(s, t, u, a, c, d);
    act(a, d).unwrap()
}

pub(crate) proof fn follow_xor_ri(
    s: LowState,
    t: LowState,
    dst: Gpr,
    imm: i32,
    c: Cpu,
    d: Cpu,
) -> (e: Cpu)
    requires
        takes(s, t, c, d),
    ensures
        takes(s, t.on(t.text.xor_ri(dst, imm)), c, e),
        Some(e) == binary(d, Alu::Xor, index(dst), wrap64(imm as int)),
{
    reveal(act);
    let u = t.on(t.text.xor_ri(dst, imm));
    xor_ri_does(t.text, dst, imm);
    let a = Act::BinaryImm { op: Alu::Xor, dst: index(dst), value: imm as int };
    adds_takes(s, t, u, a, c, d);
    act(a, d).unwrap()
}

pub(crate) proof fn follow_sub_rsp_imm(
    s: LowState,
    t: LowState,
    imm: i32,
    c: Cpu,
    d: Cpu,
) -> (e: Cpu)
    requires
        takes(s, t, c, d),
    ensures
        takes(s, t.on(t.text.sub_rsp_imm(imm)), c, e),
        Some(e) == binary(d, Alu::Minus, 4, wrap64(imm as int)),
{
    reveal(act);
    let u = t.on(t.text.sub_rsp_imm(imm));
    sub_rsp_imm_does(t.text, imm);
    let a = Act::BinaryImm { op: Alu::Minus, dst: 4, value: imm as int };
    adds_takes(s, t, u, a, c, d);
    act(a, d).unwrap()
}

pub(crate) proof fn follow_imul_rr(
    s: LowState,
    t: LowState,
    dst: Gpr,
    src: Gpr,
    c: Cpu,
    d: Cpu,
) -> (e: Cpu)
    requires
        takes(s, t, c, d),
    ensures
        takes(s, t.on(t.text.imul_rr(dst, src)), c, e),
        e == product(d, index(dst), d.reg(index(dst)), signed64(d.reg(index(src)))),
{
    reveal(act);
    let u = t.on(t.text.imul_rr(dst, src));
    imul_rr_does(t.text, dst, src);
    let a = Act::Times { dst: index(dst), src: index(src) };
    adds_takes(s, t, u, a, c, d);
    act(a, d).unwrap()
}

pub(crate) proof fn follow_imul_rri(
    s: LowState,
    t: LowState,
    dst: Gpr,
    src: Gpr,
    imm: i32,
    c: Cpu,
    d: Cpu,
) -> (e: Cpu)
    requires
        takes(s, t, c, d),
    ensures
        takes(s, t.on(t.text.imul_rri(dst, src, imm)), c, e),
        e == product(d, index(dst), d.reg(index(src)), imm as int),
{
    reveal(act);
    let u = t.on(t.text.imul_rri(dst, src, imm));
    imul_rri_does(t.text, dst, src, imm);
    let a = Act::TimesImm { dst: index(dst), src: index(src), value: imm as int };
    adds_takes(s, t, u, a, c, d);
    act(a, d).unwrap()
}

pub(crate) proof fn follow_mul_r(
    s: LowState,
    t: LowState,
    src: Gpr,
    c: Cpu,
    d: Cpu,
) -> (e: Cpu)
    requires
        takes(s, t, c, d),
    ensures
        takes(s, t.on(t.text.mul_r(src)), c, e),
        Some(e) == single(d, Single::Times, index(src)),
{
    reveal(act);
    let u = t.on(t.text.mul_r(src));
    mul_r_does(t.text, src);
    let a = Act::Single { op: Single::Times, reg: index(src) };
    adds_takes(s, t, u, a, c, d);
    act(a, d).unwrap()
}

pub(crate) proof fn follow_imul_r1(
    s: LowState,
    t: LowState,
    src: Gpr,
    c: Cpu,
    d: Cpu,
) -> (e: Cpu)
    requires
        takes(s, t, c, d),
    ensures
        takes(s, t.on(t.text.imul_r1(src)), c, e),
        Some(e) == single(d, Single::SignedTimes, index(src)),
{
    reveal(act);
    let u = t.on(t.text.imul_r1(src));
    imul_r1_does(t.text, src);
    let a = Act::Single { op: Single::SignedTimes, reg: index(src) };
    adds_takes(s, t, u, a, c, d);
    act(a, d).unwrap()
}

pub(crate) proof fn follow_neg_r(
    s: LowState,
    t: LowState,
    dst: Gpr,
    c: Cpu,
    d: Cpu,
) -> (e: Cpu)
    requires
        takes(s, t, c, d),
    ensures
        takes(s, t.on(t.text.neg_r(dst)), c, e),
        Some(e) == single(d, Single::Neg, index(dst)),
{
    reveal(act);
    let u = t.on(t.text.neg_r(dst));
    neg_r_does(t.text, dst);
    let a = Act::Single { op: Single::Neg, reg: index(dst) };
    adds_takes(s, t, u, a, c, d);
    act(a, d).unwrap()
}

pub(crate) proof fn follow_not_r(
    s: LowState,
    t: LowState,
    dst: Gpr,
    c: Cpu,
    d: Cpu,
) -> (e: Cpu)
    requires
        takes(s, t, c, d),
    ensures
        takes(s, t.on(t.text.not_r(dst)), c, e),
        Some(e) == single(d, Single::Not, index(dst)),
{
    reveal(act);
    let u = t.on(t.text.not_r(dst));
    not_r_does(t.text, dst);
    let a = Act::Single { op: Single::Not, reg: index(dst) };
    adds_takes(s, t, u, a, c, d);
    act(a, d).unwrap()
}

pub(crate) proof fn follow_shl_cl(
    s: LowState,
    t: LowState,
    dst: Gpr,
    c: Cpu,
    d: Cpu,
) -> (e: Cpu)
    requires
        takes(s, t, c, d),
    ensures
        takes(s, t.on(t.text.shl_cl(dst)), c, e),
        e == d.put(
            index(dst),
            shifted(Shift::Left, d.reg(index(dst)), d.reg(1) as int % 256),
        ).lost_flags(),
{
    reveal(act);
    let u = t.on(t.text.shl_cl(dst));
    shl_cl_does(t.text, dst);
    let a = Act::Shift { op: Shift::Left, dst: index(dst), by: None };
    adds_takes(s, t, u, a, c, d);
    act(a, d).unwrap()
}

pub(crate) proof fn follow_shl_ri(
    s: LowState,
    t: LowState,
    dst: Gpr,
    imm: u8,
    c: Cpu,
    d: Cpu,
) -> (e: Cpu)
    requires
        takes(s, t, c, d),
    ensures
        takes(s, t.on(t.text.shl_ri(dst, imm)), c, e),
        e == d.put(
            index(dst),
            shifted(Shift::Left, d.reg(index(dst)), imm as int),
        ).lost_flags(),
{
    reveal(act);
    let u = t.on(t.text.shl_ri(dst, imm));
    shl_ri_does(t.text, dst, imm);
    let a = Act::Shift { op: Shift::Left, dst: index(dst), by: Some(imm as int) };
    adds_takes(s, t, u, a, c, d);
    act(a, d).unwrap()
}

pub(crate) proof fn follow_sar_cl(
    s: LowState,
    t: LowState,
    dst: Gpr,
    c: Cpu,
    d: Cpu,
) -> (e: Cpu)
    requires
        takes(s, t, c, d),
    ensures
        takes(s, t.on(t.text.sar_cl(dst)), c, e),
        e == d.put(
            index(dst),
            shifted(Shift::Signed, d.reg(index(dst)), d.reg(1) as int % 256),
        ).lost_flags(),
{
    reveal(act);
    let u = t.on(t.text.sar_cl(dst));
    sar_cl_does(t.text, dst);
    let a = Act::Shift { op: Shift::Signed, dst: index(dst), by: None };
    adds_takes(s, t, u, a, c, d);
    act(a, d).unwrap()
}

pub(crate) proof fn follow_sar_ri(
    s: LowState,
    t: LowState,
    dst: Gpr,
    imm: u8,
    c: Cpu,
    d: Cpu,
) -> (e: Cpu)
    requires
        takes(s, t, c, d),
    ensures
        takes(s, t.on(t.text.sar_ri(dst, imm)), c, e),
        e == d.put(
            index(dst),
            shifted(Shift::Signed, d.reg(index(dst)), imm as int),
        ).lost_flags(),
{
    reveal(act);
    let u = t.on(t.text.sar_ri(dst, imm));
    sar_ri_does(t.text, dst, imm);
    let a = Act::Shift { op: Shift::Signed, dst: index(dst), by: Some(imm as int) };
    adds_takes(s, t, u, a, c, d);
    act(a, d).unwrap()
}

pub(crate) proof fn follow_shr_cl(
    s: LowState,
    t: LowState,
    dst: Gpr,
    c: Cpu,
    d: Cpu,
) -> (e: Cpu)
    requires
        takes(s, t, c, d),
    ensures
        takes(s, t.on(t.text.shr_cl(dst)), c, e),
        e == d.put(
            index(dst),
            shifted(Shift::Right, d.reg(index(dst)), d.reg(1) as int % 256),
        ).lost_flags(),
{
    reveal(act);
    let u = t.on(t.text.shr_cl(dst));
    shr_cl_does(t.text, dst);
    let a = Act::Shift { op: Shift::Right, dst: index(dst), by: None };
    adds_takes(s, t, u, a, c, d);
    act(a, d).unwrap()
}

pub(crate) proof fn follow_shr_ri(
    s: LowState,
    t: LowState,
    dst: Gpr,
    imm: u8,
    c: Cpu,
    d: Cpu,
) -> (e: Cpu)
    requires
        takes(s, t, c, d),
    ensures
        takes(s, t.on(t.text.shr_ri(dst, imm)), c, e),
        e == d.put(
            index(dst),
            shifted(Shift::Right, d.reg(index(dst)), imm as int),
        ).lost_flags(),
{
    reveal(act);
    let u = t.on(t.text.shr_ri(dst, imm));
    shr_ri_does(t.text, dst, imm);
    let a = Act::Shift { op: Shift::Right, dst: index(dst), by: Some(imm as int) };
    adds_takes(s, t, u, a, c, d);
    act(a, d).unwrap()
}

pub(crate) proof fn follow_mov_load_mem(
    s: LowState,
    t: LowState,
    dst: Gpr,
    base: Gpr,
    disp: i32,
    c: Cpu,
    d: Cpu,
) -> (e: Cpu)
    requires
        takes(s, t, c, d),
        in_space(d.reg(index(base)) + disp, 8),
    ensures
        takes(s, t.on(t.text.mov_load_mem(dst, base, disp)), c, e),
        e == d.put(
            index(dst),
            low_bytes(fetch(d.mem, d.reg(index(base)) + disp, 8), 8, false),
        ),
{
    reveal(act);
    let u = t.on(t.text.mov_load_mem(dst, base, disp));
    mov_load_mem_does(t.text, dst, base, disp);
    let a = Act::Load {
        dst: index(dst),
        base: index(base),
        disp: disp as int,
        size: 8,
        signed: false,
    };
    adds_takes(s, t, u, a, c, d);
    act(a, d).unwrap()
}

pub(crate) proof fn follow_mov_load32_mem(
    s: LowState,
    t: LowState,
    dst: Gpr,
    base: Gpr,
    disp: i32,
    c: Cpu,
    d: Cpu,
) -> (e: Cpu)
    requires
        takes(s, t, c, d),
        in_space(d.reg(index(base)) + disp, 4),
    ensures
        takes(s, t.on(t.text.mov_load32_mem(dst, base, disp)), c, e),
        e == d.put(
            index(dst),
            low_bytes(fetch(d.mem, d.reg(index(base)) + disp, 4), 4, false),
        ),
{
    reveal(act);
    let u = t.on(t.text.mov_load32_mem(dst, base, disp));
    mov_load32_mem_does(t.text, dst, base, disp);
    let a = Act::Load {
        dst: index(dst),
        base: index(base),
        disp: disp as int,
        size: 4,
        signed: false,
    };
    adds_takes(s, t, u, a, c, d);
    act(a, d).unwrap()
}

pub(crate) proof fn follow_movzx16_mem(
    s: LowState,
    t: LowState,
    dst: Gpr,
    base: Gpr,
    disp: i32,
    c: Cpu,
    d: Cpu,
) -> (e: Cpu)
    requires
        takes(s, t, c, d),
        in_space(d.reg(index(base)) + disp, 2),
    ensures
        takes(s, t.on(t.text.movzx16_mem(dst, base, disp)), c, e),
        e == d.put(
            index(dst),
            low_bytes(fetch(d.mem, d.reg(index(base)) + disp, 2), 2, false),
        ),
{
    reveal(act);
    let u = t.on(t.text.movzx16_mem(dst, base, disp));
    movzx16_mem_does(t.text, dst, base, disp);
    let a = Act::Load {
        dst: index(dst),
        base: index(base),
        disp: disp as int,
        size: 2,
        signed: false,
    };
    adds_takes(s, t, u, a, c, d);
    act(a, d).unwrap()
}

pub(crate) proof fn follow_movzx8_mem(
    s: LowState,
    t: LowState,
    dst: Gpr,
    base: Gpr,
    disp: i32,
    c: Cpu,
    d: Cpu,
) -> (e: Cpu)
    requires
        takes(s, t, c, d),
        in_space(d.reg(index(base)) + disp, 1),
    ensures
        takes(s, t.on(t.text.movzx8_mem(dst, base, disp)), c, e),
        e == d.put(
            index(dst),
            low_bytes(fetch(d.mem, d.reg(index(base)) + disp, 1), 1, false),
        ),
{
    reveal(act);
    let u = t.on(t.text.movzx8_mem(dst, base, disp));
    movzx8_mem_does(t.text, dst, base, disp);
    let a = Act::Load {
        dst: index(dst),
        base: index(base),
        disp: disp as int,
        size: 1,
        signed: false,
    };
    adds_takes(s, t, u, a, c, d);
    act(a, d).unwrap()
}

pub(crate) proof fn follow_movsx16_mem(
    s: LowState,
    t: LowState,
    dst: Gpr,
    base: Gpr,
    disp: i32,
    c: Cpu,
    d: Cpu,
) -> (e: Cpu)
    requires
        takes(s, t, c, d),
        in_space(d.reg(index(base)) + disp, 2),
    ensures
        takes(s, t.on(t.text.movsx16_mem(dst, base, disp)), c, e),
        e == d.put(
            index(dst),
            low_bytes(fetch(d.mem, d.reg(index(base)) + disp, 2), 2, true),
        ),
{
    reveal(act);
    let u = t.on(t.text.movsx16_mem(dst, base, disp));
    movsx16_mem_does(t.text, dst, base, disp);
    let a = Act::Load {
        dst: index(dst),
        base: index(base),
        disp: disp as int,
        size: 2,
        signed: true,
    };
    adds_takes(s, t, u, a, c, d);
    act(a, d).unwrap()
}

pub(crate) proof fn follow_movsx8_mem(
    s: LowState,
    t: LowState,
    dst: Gpr,
    base: Gpr,
    disp: i32,
    c: Cpu,
    d: Cpu,
) -> (e: Cpu)
    requires
        takes(s, t, c, d),
        in_space(d.reg(index(base)) + disp, 1),
    ensures
        takes(s, t.on(t.text.movsx8_mem(dst, base, disp)), c, e),
        e == d.put(
            index(dst),
            low_bytes(fetch(d.mem, d.reg(index(base)) + disp, 1), 1, true),
        ),
{
    reveal(act);
    let u = t.on(t.text.movsx8_mem(dst, base, disp));
    movsx8_mem_does(t.text, dst, base, disp);
    let a = Act::Load {
        dst: index(dst),
        base: index(base),
        disp: disp as int,
        size: 1,
        signed: true,
    };
    adds_takes(s, t, u, a, c, d);
    act(a, d).unwrap()
}

pub(crate) proof fn follow_movsxd_mem(
    s: LowState,
    t: LowState,
    dst: Gpr,
    base: Gpr,
    disp: i32,
    c: Cpu,
    d: Cpu,
) -> (e: Cpu)
    requires
        takes(s, t, c, d),
        in_space(d.reg(index(base)) + disp, 4),
    ensures
        takes(s, t.on(t.text.movsxd_mem(dst, base, disp)), c, e),
        e == d.put(
            index(dst),
            low_bytes(fetch(d.mem, d.reg(index(base)) + disp, 4), 4, true),
        ),
{
    reveal(act);
    let u = t.on(t.text.movsxd_mem(dst, base, disp));
    movsxd_mem_does(t.text, dst, base, disp);
    let a = Act::Load {
        dst: index(dst),
        base: index(base),
        disp: disp as int,
        size: 4,
        signed: true,
    };
    adds_takes(s, t, u, a, c, d);
    act(a, d).unwrap()
}

pub(crate) proof fn follow_mov_store_mem(
    s: LowState,
    t: LowState,
    base: Gpr,
    disp: i32,
    src: Gpr,
    c: Cpu,
    d: Cpu,
) -> (e: Cpu)
    requires
        takes(s, t, c, d),
        in_space(d.reg(index(base)) + disp, 8),
    ensures
        takes(s, t.on(t.text.mov_store_mem(base, disp, src)), c, e),
        e == d.with_mem(
            patch(d.mem, d.reg(index(base)) + disp, 8, d.reg(index(src)) as int),
        ),
{
    reveal(act);
    let u = t.on(t.text.mov_store_mem(base, disp, src));
    mov_store_mem_does(t.text, base, disp, src);
    let a = Act::Store {
        base: index(base),
        disp: disp as int,
        src: index(src),
        size: 8,
    };
    adds_takes(s, t, u, a, c, d);
    act(a, d).unwrap()
}

pub(crate) proof fn follow_mov_store32_mem(
    s: LowState,
    t: LowState,
    base: Gpr,
    disp: i32,
    src: Gpr,
    c: Cpu,
    d: Cpu,
) -> (e: Cpu)
    requires
        takes(s, t, c, d),
        in_space(d.reg(index(base)) + disp, 4),
    ensures
        takes(s, t.on(t.text.mov_store32_mem(base, disp, src)), c, e),
        e == d.with_mem(
            patch(d.mem, d.reg(index(base)) + disp, 4, d.reg(index(src)) as int),
        ),
{
    reveal(act);
    let u = t.on(t.text.mov_store32_mem(base, disp, src));
    mov_store32_mem_does(t.text, base, disp, src);
    let a = Act::Store {
        base: index(base),
        disp: disp as int,
        src: index(src),
        size: 4,
    };
    adds_takes(s, t, u, a, c, d);
    act(a, d).unwrap()
}

pub(crate) proof fn follow_mov_store16_mem(
    s: LowState,
    t: LowState,
    base: Gpr,
    disp: i32,
    src: Gpr,
    c: Cpu,
    d: Cpu,
) -> (e: Cpu)
    requires
        takes(s, t, c, d),
        in_space(d.reg(index(base)) + disp, 2),
    ensures
        takes(s, t.on(t.text.mov_store16_mem(base, disp, src)), c, e),
        e == d.with_mem(
            patch(d.mem, d.reg(index(base)) + disp, 2, d.reg(index(src)) as int),
        ),
{
    reveal(act);
    let u = t.on(t.text.mov_store16_mem(base, disp, src));
    mov_store16_mem_does(t.text, base, disp, src);
    let a = Act::Store {
        base: index(base),
        disp: disp as int,
        src: index(src),
        size: 2,
    };
    adds_takes(s, t, u, a, c, d);
    act(a, d).unwrap()
}

pub(crate) proof fn follow_mov_store8_mem(
    s: LowState,
    t: LowState,
    base: Gpr,
    disp: i32,
    src: Gpr,
    c: Cpu,
    d: Cpu,
) -> (e: Cpu)
    requires
        takes(s, t, c, d),
        in_space(d.reg(index(base)) + disp, 1),
    ensures
        takes(s, t.on(t.text.mov_store8_mem(base, disp, src)), c, e),
        e == d.with_mem(
            patch(d.mem, d.reg(index(base)) + disp, 1, d.reg(index(src)) as int),
        ),
{
    reveal(act);
    let u = t.on(t.text.mov_store8_mem(base, disp, src));
    mov_store8_mem_does(t.text, base, disp, src);
    let a = Act::Store {
        base: index(base),
        disp: disp as int,
        src: index(src),
        size: 1,
    };
    adds_takes(s, t, u, a, c, d);
    act(a, d).unwrap()
}

pub(crate) proof fn follow_mov_load(
    s: LowState,
    t: LowState,
    dst: Gpr,
    disp: i32,
    c: Cpu,
    d: Cpu,
) -> (e: Cpu)
    requires
        takes(s, t, c, d),
        in_space(d.reg(5) + disp, 8),
    ensures
        takes(s, t.on(t.text.mov_load(dst, disp)), c, e),
        e == d.put(index(dst), low_bytes(fetch(d.mem, d.reg(5) + disp, 8), 8, false)),
{
    reveal(act);
    let u = t.on(t.text.mov_load(dst, disp));
    mov_load_does(t.text, dst, disp);
    let a = Act::Load { dst: index(dst), base: 5, disp: disp as int, size: 8, signed: false };
    adds_takes(s, t, u, a, c, d);
    act(a, d).unwrap()
}

pub(crate) proof fn follow_mov_store(
    s: LowState,
    t: LowState,
    disp: i32,
    src: Gpr,
    c: Cpu,
    d: Cpu,
) -> (e: Cpu)
    requires
        takes(s, t, c, d),
        in_space(d.reg(5) + disp, 8),
    ensures
        takes(s, t.on(t.text.mov_store(disp, src)), c, e),
        e == d.with_mem(patch(d.mem, d.reg(5) + disp, 8, d.reg(index(src)) as int)),
{
    reveal(act);
    let u = t.on(t.text.mov_store(disp, src));
    mov_store_does(t.text, disp, src);
    let a = Act::Store { base: 5, disp: disp as int, src: index(src), size: 8 };
    adds_takes(s, t, u, a, c, d);
    act(a, d).unwrap()
}

pub(crate) proof fn follow_mov_ri_state(
    s: LowState,
    t: LowState,
    dst: Gpr,
    off: u32,
    c: Cpu,
    d: Cpu,
) -> (e: Cpu)
    requires
        takes(s, t, c, d),
    ensures
        takes(s, t.on(t.text.mov_ri_state(dst, off)), c, e),
        e == d.put(index(dst), d.state + off),
{
    reveal(act);
    let u = t.on(t.text.mov_ri_state(dst, off));
    mov_ri_state_does(t.text, dst, off);
    let a = Act::Address { dst: index(dst), state: true, off };
    adds_takes(s, t, u, a, c, d);
    act(a, d).unwrap()
}

pub(crate) proof fn follow_setcc_al(
    s: LowState,
    t: LowState,
    cc: Cc,
    c: Cpu,
    d: Cpu,
) -> (e: Cpu)
    requires
        takes(s, t, c, d),
        tells(d, cc) is Some,
    ensures
        takes(s, t.on(t.text.setcc_al(cc)), c, e),
        e == d.put(
            0,
            d.reg(0) - d.reg(0) % 256 + (if tells(d, cc) == Some(true) {
                1int
            } else {
                0
            }),
        ),
{
    reveal(act);
    let u = t.on(t.text.setcc_al(cc));
    setcc_al_does(t.text, cc);
    let a = Act::Condition { cc: cc.bits() as int };
    adds_takes(s, t, u, a, c, d);
    act(a, d).unwrap()
}

pub(crate) proof fn follow_movsx8(
    s: LowState,
    t: LowState,
    dst: Gpr,
    src: Gpr,
    c: Cpu,
    d: Cpu,
) -> (e: Cpu)
    requires
        takes(s, t, c, d),
    ensures
        takes(s, t.on(t.text.movsx8(dst, src)), c, e),
        e == d.put(index(dst), low_bytes(d.reg(index(src)) as int, 1, true)),
{
    reveal(act);
    let u = t.on(t.text.movsx8(dst, src));
    movsx8_does(t.text, dst, src);
    let a = Act::Extend { dst: index(dst), src: index(src), size: 1, signed: true };
    adds_takes(s, t, u, a, c, d);
    act(a, d).unwrap()
}

pub(crate) proof fn follow_movsx16(
    s: LowState,
    t: LowState,
    dst: Gpr,
    src: Gpr,
    c: Cpu,
    d: Cpu,
) -> (e: Cpu)
    requires
        takes(s, t, c, d),
    ensures
        takes(s, t.on(t.text.movsx16(dst, src)), c, e),
        e == d.put(index(dst), low_bytes(d.reg(index(src)) as int, 2, true)),
{
    reveal(act);
    let u = t.on(t.text.movsx16(dst, src));
    movsx16_does(t.text, dst, src);
    let a = Act::Extend { dst: index(dst), src: index(src), size: 2, signed: true };
    adds_takes(s, t, u, a, c, d);
    act(a, d).unwrap()
}

pub(crate) proof fn follow_movsxd(
    s: LowState,
    t: LowState,
    dst: Gpr,
    src: Gpr,
    c: Cpu,
    d: Cpu,
) -> (e: Cpu)
    requires
        takes(s, t, c, d),
    ensures
        takes(s, t.on(t.text.movsxd(dst, src)), c, e),
        e == d.put(index(dst), low_bytes(d.reg(index(src)) as int, 4, true)),
{
    reveal(act);
    let u = t.on(t.text.movsxd(dst, src));
    movsxd_does(t.text, dst, src);
    let a = Act::Extend { dst: index(dst), src: index(src), size: 4, signed: true };
    adds_takes(s, t, u, a, c, d);
    act(a, d).unwrap()
}

pub(crate) proof fn follow_movzx_al(
    s: LowState,
    t: LowState,
    dst: Gpr,
    c: Cpu,
    d: Cpu,
) -> (e: Cpu)
    requires
        takes(s, t, c, d),
    ensures
        takes(s, t.on(t.text.movzx_al(dst)), c, e),
        e == d.put(index(dst), low_bytes(d.reg(0) as int, 1, false)),
{
    reveal(act);
    let u = t.on(t.text.movzx_al(dst));
    movzx_al_does(t.text, dst);
    let a = Act::Extend { dst: index(dst), src: 0, size: 1, signed: false };
    adds_takes(s, t, u, a, c, d);
    act(a, d).unwrap()
}

pub(crate) proof fn follow_pop(s: LowState, t: LowState, reg: Gpr, c: Cpu, d: Cpu) -> (e: Cpu)
    requires
        takes(s, t, c, d),
        in_space(d.reg(4) as int, 8),
    ensures
        takes(s, t.on(t.text.pop(reg)), c, e),
        e == d.put(4, d.reg(4) + 8).put(index(reg), fetch(d.mem, d.reg(4) as int, 8)),
{
    reveal(act);
    let u = t.on(t.text.pop(reg));
    pop_does(t.text, reg);
    let a = Act::Pop { reg: index(reg) };
    adds_takes(s, t, u, a, c, d);
    act(a, d).unwrap()
}

pub(crate) proof fn follow_push(
    s: LowState,
    t: LowState,
    reg: Gpr,
    c: Cpu,
    d: Cpu,
) -> (e: Cpu)
    requires
        takes(s, t, c, d),
        d.reg(4) >= 8,
    ensures
        takes(s, t.on(t.text.push(reg)), c, e),
        e == d.put(4, d.reg(4) - 8).with_mem(
            patch(d.mem, d.reg(4) - 8, 8, d.reg(index(reg)) as int),
        ),
{
    reveal(act);
    let u = t.on(t.text.push(reg));
    push_does(t.text, reg);
    let a = Act::Push { reg: index(reg) };
    adds_takes(s, t, u, a, c, d);
    act(a, d).unwrap()
}

pub(crate) proof fn follow_leave(
    s: LowState,
    t: LowState,
    c: Cpu,
    d: Cpu,
) -> (e: Cpu)
    requires
        takes(s, t, c, d),
        in_space(d.reg(5) as int, 8),
    ensures
        takes(s, t.on(t.text.leave()), c, e),
        e == d.put(4, d.reg(5) + 8).put(5, fetch(d.mem, d.reg(5) as int, 8)),
{
    reveal(act);
    let u = t.on(t.text.leave());
    leave_does(t.text);
    let a = Act::Leave;
    adds_takes(s, t, u, a, c, d);
    act(a, d).unwrap()
}

pub(crate) proof fn follow_lea_rbp(
    s: LowState,
    t: LowState,
    dst: Gpr,
    disp: i32,
    c: Cpu,
    d: Cpu,
) -> (e: Cpu)
    requires
        takes(s, t, c, d),
    ensures
        takes(s, t.on(t.text.lea_rbp(dst, disp)), c, e),
        e == d.put(index(dst), d.reg(5) + disp),
{
    reveal(act);
    let u = t.on(t.text.lea_rbp(dst, disp));
    lea_rbp_does(t.text, dst, disp);
    let a = Act::Lea { dst: index(dst), base: 5, disp: disp as int };
    adds_takes(s, t, u, a, c, d);
    act(a, d).unwrap()
}

pub(crate) proof fn follow_test_rr(
    s: LowState,
    t: LowState,
    dst: Gpr,
    src: Gpr,
    c: Cpu,
    d: Cpu,
) -> (e: Cpu)
    requires
        takes(s, t, c, d),
    ensures
        takes(s, t.on(t.text.test_rr(dst, src)), c, e),
        e == d.result_flags(
            d.reg(index(dst)) & d.reg(index(src)),
            Some(false),
            Some(false),
        ),
{
    reveal(act);
    let u = t.on(t.text.test_rr(dst, src));
    test_rr_does(t.text, dst, src);
    let a = Act::Test { a: index(dst), b: index(src) };
    adds_takes(s, t, u, a, c, d);
    act(a, d).unwrap()
}

pub(crate) proof fn follow_cmp_ri(
    s: LowState,
    t: LowState,
    dst: Gpr,
    imm: i32,
    c: Cpu,
    d: Cpu,
) -> (e: Cpu)
    requires
        takes(s, t, c, d),
    ensures
        takes(s, t.on(t.text.cmp_ri(dst, imm)), c, e),
        Some(e) == binary(d, Alu::Compare, index(dst), wrap64(widened(imm))),
{
    reveal(act);
    let u = t.on(t.text.cmp_ri(dst, imm));
    cmp_ri_does(t.text, dst, imm);
    let a = Act::BinaryImm { op: Alu::Compare, dst: index(dst), value: widened(imm) };
    adds_takes(s, t, u, a, c, d);
    act(a, d).unwrap()
}

pub(crate) proof fn follow_cqo(
    s: LowState,
    t: LowState,
    c: Cpu,
    d: Cpu,
) -> (e: Cpu)
    requires
        takes(s, t, c, d),
    ensures
        takes(s, t.on(t.text.cqo()), c, e),
        e == d.put(
            2,
            if d.reg(0) < 0x8000_0000_0000_0000 {
                0
            } else {
                -1
            },
        ),
{
    reveal(act);
    let u = t.on(t.text.cqo());
    cqo_does(t.text);
    let a = Act::Spread;
    adds_takes(s, t, u, a, c, d);
    act(a, d).unwrap()
}

pub(crate) proof fn follow_zero_rdx(
    s: LowState,
    t: LowState,
    c: Cpu,
    d: Cpu,
) -> (e: Cpu)
    requires
        takes(s, t, c, d),
    ensures
        takes(s, t.on(t.text.zero_rdx()), c, e),
        Some(e) == binary(d, Alu::Xor, 2, d.reg(2)),
{
    reveal(act);
    let u = t.on(t.text.zero_rdx());
    zero_rdx_does(t.text);
    let a = Act::Binary { op: Alu::Xor, dst: 2, src: 2 };
    adds_takes(s, t, u, a, c, d);
    act(a, d).unwrap()
}

pub(crate) proof fn follow_div_r(
    s: LowState,
    t: LowState,
    src: Gpr,
    c: Cpu,
    d: Cpu,
) -> (e: Cpu)
    requires
        takes(s, t, c, d),
        single(d, Single::Over, index(src)) is Some,
    ensures
        takes(s, t.on(t.text.div_r(src)), c, e),
        Some(e) == single(d, Single::Over, index(src)),
{
    reveal(act);
    let u = t.on(t.text.div_r(src));
    div_r_does(t.text, src);
    let a = Act::Single { op: Single::Over, reg: index(src) };
    adds_takes(s, t, u, a, c, d);
    act(a, d).unwrap()
}

pub(crate) proof fn follow_idiv_r(
    s: LowState,
    t: LowState,
    src: Gpr,
    c: Cpu,
    d: Cpu,
) -> (e: Cpu)
    requires
        takes(s, t, c, d),
        single(d, Single::SignedOver, index(src)) is Some,
    ensures
        takes(s, t.on(t.text.idiv_r(src)), c, e),
        Some(e) == single(d, Single::SignedOver, index(src)),
{
    reveal(act);
    let u = t.on(t.text.idiv_r(src));
    idiv_r_does(t.text, src);
    let a = Act::Single { op: Single::SignedOver, reg: index(src) };
    adds_takes(s, t, u, a, c, d);
    act(a, d).unwrap()
}

pub(crate) proof fn follow_rep_movsb(
    s: LowState,
    t: LowState,
    c: Cpu,
    d: Cpu,
) -> (e: Cpu)
    requires
        takes(s, t, c, d),
        act(Act::Copy, d) is Some,
    ensures
        takes(s, t.on(t.text.rep_movsb()), c, e),
        Some(e) == act(Act::Copy, d),
{
    reveal(act);
    let u = t.on(t.text.rep_movsb());
    rep_movsb_does(t.text);
    let a = Act::Copy;
    adds_takes(s, t, u, a, c, d);
    act(a, d).unwrap()
}

pub(crate) proof fn follow_movsd_load(
    s: LowState,
    t: LowState,
    dst: Xmm,
    base: Gpr,
    disp: i32,
    c: Cpu,
    d: Cpu,
) -> (e: Cpu)
    requires
        takes(s, t, c, d),
        in_space(d.reg(index(base)) + disp, 8),
    ensures
        takes(s, t.on(t.text.movsd_load(dst, base, disp)), c, e),
        e == d.put_float(
            float_index(dst),
            fetch(d.mem, d.reg(index(base)) + disp, 8) as u64,
        ),
{
    reveal(act);
    let u = t.on(t.text.movsd_load(dst, base, disp));
    movsd_load_does(t.text, dst, base, disp);
    let a = Act::FloatLoad { dst: float_index(dst), base: index(base), disp: disp as int };
    adds_takes(s, t, u, a, c, d);
    act(a, d).unwrap()
}

pub(crate) proof fn follow_movsd_store(
    s: LowState,
    t: LowState,
    base: Gpr,
    disp: i32,
    src: Xmm,
    c: Cpu,
    d: Cpu,
) -> (e: Cpu)
    requires
        takes(s, t, c, d),
        in_space(d.reg(index(base)) + disp, 8),
    ensures
        takes(s, t.on(t.text.movsd_store(base, disp, src)), c, e),
        e == d.with_mem(
            patch(d.mem, d.reg(index(base)) + disp, 8, d.floats[float_index(src)] as int),
        ),
{
    reveal(act);
    let u = t.on(t.text.movsd_store(base, disp, src));
    movsd_store_does(t.text, base, disp, src);
    let a = Act::FloatStore { base: index(base), disp: disp as int, src: float_index(src) };
    adds_takes(s, t, u, a, c, d);
    act(a, d).unwrap()
}

pub(crate) proof fn follow_movq_xmm_r64(
    s: LowState,
    t: LowState,
    dst: Xmm,
    src: Gpr,
    c: Cpu,
    d: Cpu,
) -> (e: Cpu)
    requires
        takes(s, t, c, d),
    ensures
        takes(s, t.on(t.text.movq_xmm_r64(dst, src)), c, e),
        e == d.put_float(float_index(dst), d.reg(index(src))),
{
    reveal(act);
    let u = t.on(t.text.movq_xmm_r64(dst, src));
    movq_xmm_r64_does(t.text, dst, src);
    let a = Act::FloatBits { dst: float_index(dst), src: index(src) };
    adds_takes(s, t, u, a, c, d);
    act(a, d).unwrap()
}

pub(crate) proof fn follow_addsd(
    s: LowState,
    t: LowState,
    dst: Xmm,
    src: Xmm,
    c: Cpu,
    d: Cpu,
) -> (e: Cpu)
    requires
        takes(s, t, c, d),
        computed(
            FloatOp::Plus,
            d.floats[float_index(dst)],
            d.floats[float_index(src)],
        ) is Some,
    ensures
        takes(s, t.on(t.text.addsd(dst, src)), c, e),
        Some(e) == (match computed(
            FloatOp::Plus,
            d.floats[float_index(dst)],
            d.floats[float_index(src)],
        ) {
            Some(v) => Some(d.put_float(float_index(dst), v)),
            None => None,
        }),
{
    reveal(act);
    let u = t.on(t.text.addsd(dst, src));
    float_arith_does(t.text, dst, src);
    let a = Act::Float { op: FloatOp::Plus, dst: float_index(dst), src: float_index(src) };
    adds_takes(s, t, u, a, c, d);
    act(a, d).unwrap()
}

pub(crate) proof fn follow_subsd(
    s: LowState,
    t: LowState,
    dst: Xmm,
    src: Xmm,
    c: Cpu,
    d: Cpu,
) -> (e: Cpu)
    requires
        takes(s, t, c, d),
        computed(
            FloatOp::Minus,
            d.floats[float_index(dst)],
            d.floats[float_index(src)],
        ) is Some,
    ensures
        takes(s, t.on(t.text.subsd(dst, src)), c, e),
        Some(e) == (match computed(
            FloatOp::Minus,
            d.floats[float_index(dst)],
            d.floats[float_index(src)],
        ) {
            Some(v) => Some(d.put_float(float_index(dst), v)),
            None => None,
        }),
{
    reveal(act);
    let u = t.on(t.text.subsd(dst, src));
    float_arith_does(t.text, dst, src);
    let a = Act::Float { op: FloatOp::Minus, dst: float_index(dst), src: float_index(src) };
    adds_takes(s, t, u, a, c, d);
    act(a, d).unwrap()
}

pub(crate) proof fn follow_mulsd(
    s: LowState,
    t: LowState,
    dst: Xmm,
    src: Xmm,
    c: Cpu,
    d: Cpu,
) -> (e: Cpu)
    requires
        takes(s, t, c, d),
        computed(
            FloatOp::Times,
            d.floats[float_index(dst)],
            d.floats[float_index(src)],
        ) is Some,
    ensures
        takes(s, t.on(t.text.mulsd(dst, src)), c, e),
        Some(e) == (match computed(
            FloatOp::Times,
            d.floats[float_index(dst)],
            d.floats[float_index(src)],
        ) {
            Some(v) => Some(d.put_float(float_index(dst), v)),
            None => None,
        }),
{
    reveal(act);
    let u = t.on(t.text.mulsd(dst, src));
    float_arith_does(t.text, dst, src);
    let a = Act::Float { op: FloatOp::Times, dst: float_index(dst), src: float_index(src) };
    adds_takes(s, t, u, a, c, d);
    act(a, d).unwrap()
}

pub(crate) proof fn follow_divsd(
    s: LowState,
    t: LowState,
    dst: Xmm,
    src: Xmm,
    c: Cpu,
    d: Cpu,
) -> (e: Cpu)
    requires
        takes(s, t, c, d),
        computed(
            FloatOp::Over,
            d.floats[float_index(dst)],
            d.floats[float_index(src)],
        ) is Some,
    ensures
        takes(s, t.on(t.text.divsd(dst, src)), c, e),
        Some(e) == (match computed(
            FloatOp::Over,
            d.floats[float_index(dst)],
            d.floats[float_index(src)],
        ) {
            Some(v) => Some(d.put_float(float_index(dst), v)),
            None => None,
        }),
{
    reveal(act);
    let u = t.on(t.text.divsd(dst, src));
    float_arith_does(t.text, dst, src);
    let a = Act::Float { op: FloatOp::Over, dst: float_index(dst), src: float_index(src) };
    adds_takes(s, t, u, a, c, d);
    act(a, d).unwrap()
}

pub(crate) proof fn follow_ucomisd(
    s: LowState,
    t: LowState,
    a: Xmm,
    b: Xmm,
    c: Cpu,
    d: Cpu,
) -> (e: Cpu)
    requires
        takes(s, t, c, d),
    ensures
        takes(s, t.on(t.text.ucomisd(a, b)), c, e),
        e == float_compared(d, d.floats[float_index(a)], d.floats[float_index(b)]),
{
    reveal(act);
    let u = t.on(t.text.ucomisd(a, b));
    ucomisd_does(t.text, a, b);
    let m = Act::FloatCompare { a: float_index(a), b: float_index(b) };
    adds_takes(s, t, u, m, c, d);
    act(m, d).unwrap()
}

pub(crate) proof fn follow_cvtsi2sd(
    s: LowState,
    t: LowState,
    dst: Xmm,
    src: Gpr,
    c: Cpu,
    d: Cpu,
) -> (e: Cpu)
    requires
        takes(s, t, c, d),
    ensures
        takes(s, t.on(t.text.cvtsi2sd(dst, src)), c, e),
        e == d.put_float(float_index(dst), from_integer(signed64(d.reg(index(src))))),
{
    reveal(act);
    let u = t.on(t.text.cvtsi2sd(dst, src));
    cvtsi2sd_does(t.text, dst, src);
    let a = Act::FromWord { dst: float_index(dst), src: index(src) };
    adds_takes(s, t, u, a, c, d);
    act(a, d).unwrap()
}

pub(crate) proof fn follow_cvttsd2si(
    s: LowState,
    t: LowState,
    dst: Gpr,
    src: Xmm,
    c: Cpu,
    d: Cpu,
) -> (e: Cpu)
    requires
        takes(s, t, c, d),
    ensures
        takes(s, t.on(t.text.cvttsd2si(dst, src)), c, e),
        e == d.put(index(dst), cut_off(d.floats[float_index(src)])),
{
    reveal(act);
    let u = t.on(t.text.cvttsd2si(dst, src));
    cvttsd2si_does(t.text, dst, src);
    let a = Act::ToWord { dst: index(dst), src: float_index(src) };
    adds_takes(s, t, u, a, c, d);
    act(a, d).unwrap()
}

} // verus!
