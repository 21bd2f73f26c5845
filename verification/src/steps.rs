//! What each instruction of the encoder does on the processor.
use vstd::prelude::*;

use crate::floats::FloatOp;
use crate::bytes::{le32, le32_reads_back, le64, le64_reads_back, rd32, rd64, wrap32, wrap64, zeros};
use crate::encode::{
    AsmState, Cc, FixupKind, ITag, hole_ins, mem, mov_ri_bytes, movabs, omem, one, oreg, orr, setcc,
    sse_mem, sse_rr, sse_wrr, store16, store8, two, wmem, wmem0f, wrbp, wrr, wrr0f, wrr_i32, wrr_i8,
};
use crate::machine::{
    Act, Alu, Cpu, Form, Rm, Shift, Single, act, act_of, float_act, float_memory_reads_back,
    float_registers_read_back, is_prefix, meaning, mem_act, mem_form, narrow_memory_reads_back,
    narrow_registers_read_back, plain_op, read_form, reg_act, reg_form, run, run_one_more, signed32,
    small_stores_read_back, wide_memory_reads_back, wide_registers_read_back,
};
use crate::peephole::Ins;
use crate::reg::{Gpr, Xmm};

verus! {

/// The number of a register.
pub open spec fn index(r: Gpr) -> int {
    r.code() as int
}

/// Whether `t` is `s` with one more instruction, which does `a`.
#[verifier::opaque]
pub open spec fn adds(s: AsmState, t: AsmState, a: Act) -> bool {
    &&& t.instrs.len() == s.instrs.len() + 1
    &&& t.instrs.drop_last() == s.instrs
    &&& meaning(t.instrs.last()) == a
}

/// What one more instruction leaves of a processor.
pub proof fn added_runs(s: AsmState, t: AsmState, a: Act, n: nat, c: Cpu)
    requires
        adds(s, t, a),
        n <= s.instrs.len(),
    ensures
        run(t.instrs, n, c) == (match run(s.instrs, n, c) {
            Some(d) => act(a, d),
            None => None,
        }),
        n <= t.instrs.len(),
{
    reveal(adds);
    assert(t.instrs =~= s.instrs.push(t.instrs.last()));
    run_one_more(s.instrs, t.instrs.last(), n, c);
}

/// Nothing more leaves the processor as it was.
pub proof fn nothing_runs(s: AsmState, c: Cpu)
    ensures
        run(s.instrs, s.instrs.len(), c) == Some(c),
{
}

proof fn put_adds(s: AsmState, t: AsmState, i: Ins)
    requires
        t.instrs == s.instrs.push(i),
    ensures
        adds(s, t, meaning(i)),
{
    reveal(adds);
    assert(t.instrs.drop_last() =~= s.instrs);
}

proof fn immediate_reads(imm: i32)
    ensures
        signed32(rd32(le32(wrap32(imm as int)), 0)) == imm,
        le32(wrap32(imm as int)).len() == 4,
{
    le32_reads_back(wrap32(imm as int));
}

proof fn form_acts(s: Seq<u8>, f: Form)
    requires
        3 <= s.len() <= 9 || s.len() == 2 && s[0] == 0x89 || s.len() == 10 && s[0] == 0xF2,
        read_form(s) == Some(f),
    ensures
        act_of(s) == (match f.rm {
            Rm::Reg(rm) => reg_act(f, rm),
            Rm::Mem { base, disp } => mem_act(f, base, disp),
        }),
{
    reveal(act_of);
}

proof fn wide_acts(op: u8, reg: u8, rm: u8)
    requires
        reg < 16,
        rm < 16,
    ensures
        plain_op(op) ==> act_of(wrr(op, reg, rm)) == reg_act(
            reg_form(0, true, true, false, op as int, reg as int, rm as int, Seq::empty()),
            rm as int,
        ),
        act_of(wrr0f(op, reg, rm)) == reg_act(
            reg_form(0, true, true, true, op as int, reg as int, rm as int, Seq::empty()),
            rm as int,
        ),
{
    wide_registers_read_back(op, reg, rm, Seq::empty());
    assert(wrr(op, reg, rm) + Seq::<u8>::empty() =~= wrr(op, reg, rm));
    assert(wrr0f(op, reg, rm) + Seq::<u8>::empty() =~= wrr0f(op, reg, rm));
    if plain_op(op) {
        form_acts(wrr(op, reg, rm), read_form(wrr(op, reg, rm)).unwrap());
    }
    form_acts(wrr0f(op, reg, rm), read_form(wrr0f(op, reg, rm)).unwrap());
}

proof fn narrow_acts(op: u8, reg: u8, rm: u8)
    requires
        reg < 16,
        rm < 16,
        op == 0x89,
    ensures
        act_of(orr(op, reg, rm)) == (Act::MoveLow { dst: rm as int, src: reg as int }),
{
    narrow_registers_read_back(op, reg, rm);
    form_acts(orr(op, reg, rm), read_form(orr(op, reg, rm)).unwrap());
}

proof fn number_acts(op: u8, reg: u8, rm: u8, imm: i32)
    requires
        reg < 16,
        rm < 16,
        plain_op(op),
    ensures
        act_of(wrr_i32(op, reg, rm, imm)) == reg_act(
            reg_form(
                0,
                true,
                true,
                false,
                op as int,
                reg as int,
                rm as int,
                le32(wrap32(imm as int)),
            ),
            rm as int,
        ),
        signed32(rd32(le32(wrap32(imm as int)), 0)) == imm,
        le32(wrap32(imm as int)).len() == 4,
{
    wide_registers_read_back(op, reg, rm, le32(wrap32(imm as int)));
    immediate_reads(imm);
    assert(wrr_i32(op, reg, rm, imm).len() == 7);
    form_acts(wrr_i32(op, reg, rm, imm), read_form(wrr_i32(op, reg, rm, imm)).unwrap());
}

proof fn byte_acts(op: u8, reg: u8, rm: u8, imm: u8)
    requires
        reg < 16,
        rm < 16,
        plain_op(op),
    ensures
        act_of(wrr_i8(op, reg, rm, imm)) == reg_act(
            reg_form(0, true, true, false, op as int, reg as int, rm as int, seq![imm]),
            rm as int,
        ),
{
    wide_registers_read_back(op, reg, rm, seq![imm]);
    assert(wrr_i8(op, reg, rm, imm) =~= wrr(op, reg, rm) + seq![imm]);
    assert(wrr_i8(op, reg, rm, imm).len() == 4);
    form_acts(wrr_i8(op, reg, rm, imm), read_form(wrr_i8(op, reg, rm, imm)).unwrap());
}

proof fn operand_length(reg: u8, base: u8, disp: i32)
    ensures
        2 <= mem(reg, base, disp).len() <= 6,
{
}

proof fn wide_mem_acts(op: u8, reg: u8, base: u8, disp: i32)
    requires
        reg < 16,
        base < 16,
    ensures
        plain_op(op) ==> act_of(wmem(op, reg, base, disp)) == mem_act(
            mem_form(0, true, true, false, op as int, reg as int, base as int, disp as int),
            base as int,
            disp as int,
        ),
        act_of(wmem0f(op, reg, base, disp)) == mem_act(
            mem_form(0, true, true, true, op as int, reg as int, base as int, disp as int),
            base as int,
            disp as int,
        ),
{
    wide_memory_reads_back(op, reg, base, disp);
    operand_length(reg, base, disp);
    if plain_op(op) {
        form_acts(wmem(op, reg, base, disp), read_form(wmem(op, reg, base, disp)).unwrap());
    }
    form_acts(wmem0f(op, reg, base, disp), read_form(wmem0f(op, reg, base, disp)).unwrap());
}

proof fn narrow_mem_acts(op: u8, reg: u8, base: u8, disp: i32)
    requires
        reg < 16,
        base < 16,
        plain_op(op),
    ensures
        act_of(omem(op, reg, base, disp)) == mem_act(
            mem_form(
                0,
                reg >= 8 || base >= 8,
                false,
                false,
                op as int,
                reg as int,
                base as int,
                disp as int,
            ),
            base as int,
            disp as int,
        ),
{
    narrow_memory_reads_back(op, reg, base, disp);
    operand_length(reg, base, disp);
    form_acts(omem(op, reg, base, disp), read_form(omem(op, reg, base, disp)).unwrap());
}

proof fn small_store_acts(reg: u8, base: u8, disp: i32)
    requires
        reg < 16,
        base < 16,
    ensures
        act_of(store8(reg, base, disp)) == (Act::Store {
            base: base as int,
            disp: disp as int,
            src: reg as int,
            size: 1,
        }),
        act_of(store16(reg, base, disp)) == (Act::Store {
            base: base as int,
            disp: disp as int,
            src: reg as int,
            size: 2,
        }),
{
    small_stores_read_back(reg, base, disp);
    operand_length(reg, base, disp);
    form_acts(store8(reg, base, disp), read_form(store8(reg, base, disp)).unwrap());
    form_acts(store16(reg, base, disp), read_form(store16(reg, base, disp)).unwrap());
}

/// A number, as one of any size.
pub open spec fn widened(imm: i32) -> int {
    imm as int
}

proof fn condition_acts(cc: Cc)
    ensures
        act_of(setcc(cc)) == (Act::Condition { cc: cc.bits() as int }),
{
    reveal(read_form);
    let s = setcc(cc);
    assert(s.skip(1).skip(1) =~= seq![0xC0u8]);
    assert(s.skip(1).skip(1).skip(1) =~= Seq::<u8>::empty());
    form_acts(s, read_form(s).unwrap());
}

proof fn load_number_acts(dst: Gpr, imm: i64)
    ensures
        act_of(mov_ri_bytes(dst, imm)) == (Act::MoveImm {
            dst: index(dst),
            value: wrap64(imm as int),
        }),
{
    let s = mov_ri_bytes(dst, imm);
    if i32::MIN <= imm <= i32::MAX {
        number_acts(0xC7, 0, dst.code(), imm as i32);
        assert(s =~= wrr_i32(0xC7, 0, dst.code(), imm as i32));
    } else {
        large_number_acts(dst.code(), wrap64(imm as int));
    }
}

proof fn large_number_acts(reg: u8, v: u64)
    requires
        reg < 16,
    ensures
        act_of(movabs(reg) + le64(v)) == (Act::MoveImm { dst: reg as int, value: v }),
{
    reveal(act_of);
    let s = movabs(reg) + le64(v);
    le64_reads_back(v);
    assert(s.len() == 10);
    assert(s[0] == 0x48 || s[0] == 0x49);
    assert(s[0] % 2 == reg / 8);
    assert(s[1] == 0xB8 + reg % 8);
    assert(rd64(s, 2) == rd64(le64(v), 0)) by {
        assert(rd32(s, 2) == rd32(le64(v), 0));
        assert(rd32(s, 6) == rd32(le64(v), 4));
    }
}

proof fn stack_acts(reg: u8)
    requires
        reg < 16,
    ensures
        act_of(oreg(0x50, reg)) == (Act::Push { reg: reg as int }),
        act_of(oreg(0x58, reg)) == (Act::Pop { reg: reg as int }),
{
    reveal(act_of);
}

proof fn fixed_acts()
    ensures
        act_of(two(0x48, 0x99)) is Spread,
        act_of(two(0xF3, 0xA4)) is Copy,
        act_of(one(0xC9)) is Leave,
{
    reveal(act_of);
}

proof fn hole_acts(dst: Gpr, kind: FixupKind)
    requires
        kind is State || kind is Data,
    ensures
        meaning(hole_ins(ITag::Other, movabs(dst.code()), 8, kind)) == (match kind {
            FixupKind::State(off) => Act::Address { dst: index(dst), state: true, off },
            FixupKind::Data(off) => Act::Address { dst: index(dst), state: false, off },
            _ => Act::Unknown,
        }),
{
    le64_reads_back(0);
    assert(zeros(8) =~= le64(0));
    large_number_acts(dst.code(), 0);
}

/// `mov` copies a register.
pub proof fn mov_rr_does(s: AsmState, dst: Gpr, src: Gpr)
    ensures
        adds(s, s.mov_rr(dst, src), Act::Move { dst: index(dst), src: index(src) }),
{
    reveal(AsmState::mov_rr);
    wide_acts(0x89, src.code(), dst.code());
    let t = s.mov_rr(dst, src);
    put_adds(s, t, t.instrs.last());
}

/// `mov` of half words copies the low half and clears the high one.
pub proof fn mov_rr32_does(s: AsmState, dst: Gpr, src: Gpr)
    ensures
        adds(s, s.mov_rr32(dst, src), Act::MoveLow { dst: index(dst), src: index(src) }),
{
    reveal(AsmState::mov_rr32);
    narrow_acts(0x89, src.code(), dst.code());
    let t = s.mov_rr32(dst, src);
    put_adds(s, t, t.instrs.last());
}

/// `add` on two registers.
pub proof fn add_rr_does(s: AsmState, dst: Gpr, src: Gpr)
    ensures
        adds(
            s,
            s.add_rr(dst, src),
            Act::Binary { op: Alu::Plus, dst: index(dst), src: index(src) },
        ),
{
    reveal(AsmState::add_rr);
    wide_acts(0x01, src.code(), dst.code());
    let t = s.add_rr(dst, src);
    put_adds(s, t, t.instrs.last());
}

/// `or` on two registers.
pub proof fn or_rr_does(s: AsmState, dst: Gpr, src: Gpr)
    ensures
        adds(s, s.or_rr(dst, src), Act::Binary { op: Alu::Or, dst: index(dst), src: index(src) }),
{
    reveal(AsmState::or_rr);
    wide_acts(0x09, src.code(), dst.code());
    let t = s.or_rr(dst, src);
    put_adds(s, t, t.instrs.last());
}

/// `adc` on two registers.
pub proof fn adc_rr_does(s: AsmState, dst: Gpr, src: Gpr)
    ensures
        adds(
            s,
            s.adc_rr(dst, src),
            Act::Binary { op: Alu::PlusCarry, dst: index(dst), src: index(src) },
        ),
{
    reveal(AsmState::adc_rr);
    wide_acts(0x11, src.code(), dst.code());
    let t = s.adc_rr(dst, src);
    put_adds(s, t, t.instrs.last());
}

/// `sbb` on two registers.
pub proof fn sbb_rr_does(s: AsmState, dst: Gpr, src: Gpr)
    ensures
        adds(
            s,
            s.sbb_rr(dst, src),
            Act::Binary { op: Alu::MinusBorrow, dst: index(dst), src: index(src) },
        ),
{
    reveal(AsmState::sbb_rr);
    wide_acts(0x19, src.code(), dst.code());
    let t = s.sbb_rr(dst, src);
    put_adds(s, t, t.instrs.last());
}

/// `and` on two registers.
pub proof fn and_rr_does(s: AsmState, dst: Gpr, src: Gpr)
    ensures
        adds(s, s.and_rr(dst, src), Act::Binary { op: Alu::And, dst: index(dst), src: index(src) }),
{
    reveal(AsmState::and_rr);
    wide_acts(0x21, src.code(), dst.code());
    let t = s.and_rr(dst, src);
    put_adds(s, t, t.instrs.last());
}

/// `sub` on two registers.
pub proof fn sub_rr_does(s: AsmState, dst: Gpr, src: Gpr)
    ensures
        adds(
            s,
            s.sub_rr(dst, src),
            Act::Binary { op: Alu::Minus, dst: index(dst), src: index(src) },
        ),
{
    reveal(AsmState::sub_rr);
    wide_acts(0x29, src.code(), dst.code());
    let t = s.sub_rr(dst, src);
    put_adds(s, t, t.instrs.last());
}

/// `xor` on two registers.
pub proof fn xor_rr_does(s: AsmState, dst: Gpr, src: Gpr)
    ensures
        adds(s, s.xor_rr(dst, src), Act::Binary { op: Alu::Xor, dst: index(dst), src: index(src) }),
{
    reveal(AsmState::xor_rr);
    wide_acts(0x31, src.code(), dst.code());
    let t = s.xor_rr(dst, src);
    put_adds(s, t, t.instrs.last());
}

/// `cmp` on two registers.
pub proof fn cmp_rr_does(s: AsmState, dst: Gpr, src: Gpr)
    ensures
        adds(
            s,
            s.cmp_rr(dst, src),
            Act::Binary { op: Alu::Compare, dst: index(dst), src: index(src) },
        ),
{
    reveal(AsmState::cmp_rr);
    wide_acts(0x39, src.code(), dst.code());
    let t = s.cmp_rr(dst, src);
    put_adds(s, t, t.instrs.last());
}

/// `test` on two registers.
pub proof fn test_rr_does(s: AsmState, dst: Gpr, src: Gpr)
    ensures
        adds(s, s.test_rr(dst, src), Act::Test { a: index(dst), b: index(src) }),
{
    reveal(AsmState::test_rr);
    wide_acts(0x85, src.code(), dst.code());
    let t = s.test_rr(dst, src);
    put_adds(s, t, t.instrs.last());
}

/// `imul` of two registers.
pub proof fn imul_rr_does(s: AsmState, dst: Gpr, src: Gpr)
    ensures
        adds(s, s.imul_rr(dst, src), Act::Times { dst: index(dst), src: index(src) }),
{
    reveal(AsmState::imul_rr);
    wide_acts(0xAF, dst.code(), src.code());
    let t = s.imul_rr(dst, src);
    put_adds(s, t, t.instrs.last());
}

/// `idiv` with `rdx:rax`.
pub proof fn idiv_r_does(s: AsmState, src: Gpr)
    ensures
        adds(s, s.idiv_r(src), Act::Single { op: Single::SignedOver, reg: index(src) }),
{
    reveal(AsmState::idiv_r);
    wide_acts(0xF7, 7, src.code());
    let t = s.idiv_r(src);
    put_adds(s, t, t.instrs.last());
}

/// `div` with `rdx:rax`.
pub proof fn div_r_does(s: AsmState, src: Gpr)
    ensures
        adds(s, s.div_r(src), Act::Single { op: Single::Over, reg: index(src) }),
{
    reveal(AsmState::div_r);
    wide_acts(0xF7, 6, src.code());
    let t = s.div_r(src);
    put_adds(s, t, t.instrs.last());
}

/// `mul` with `rdx:rax`.
pub proof fn mul_r_does(s: AsmState, src: Gpr)
    ensures
        adds(s, s.mul_r(src), Act::Single { op: Single::Times, reg: index(src) }),
{
    reveal(AsmState::mul_r);
    wide_acts(0xF7, 4, src.code());
    let t = s.mul_r(src);
    put_adds(s, t, t.instrs.last());
}

/// `imul` with `rdx:rax`.
pub proof fn imul_r1_does(s: AsmState, src: Gpr)
    ensures
        adds(s, s.imul_r1(src), Act::Single { op: Single::SignedTimes, reg: index(src) }),
{
    reveal(AsmState::imul_r1);
    wide_acts(0xF7, 5, src.code());
    let t = s.imul_r1(src);
    put_adds(s, t, t.instrs.last());
}

/// `neg` of a register.
pub proof fn neg_r_does(s: AsmState, dst: Gpr)
    ensures
        adds(s, s.neg_r(dst), Act::Single { op: Single::Neg, reg: index(dst) }),
{
    reveal(AsmState::neg_r);
    wide_acts(0xF7, 3, dst.code());
    let t = s.neg_r(dst);
    put_adds(s, t, t.instrs.last());
}

/// `not` of a register.
pub proof fn not_r_does(s: AsmState, dst: Gpr)
    ensures
        adds(s, s.not_r(dst), Act::Single { op: Single::Not, reg: index(dst) }),
{
    reveal(AsmState::not_r);
    wide_acts(0xF7, 2, dst.code());
    let t = s.not_r(dst);
    put_adds(s, t, t.instrs.last());
}

/// `shl` by `cl`.
pub proof fn shl_cl_does(s: AsmState, dst: Gpr)
    ensures
        adds(s, s.shl_cl(dst), Act::Shift { op: Shift::Left, dst: index(dst), by: None }),
{
    reveal(AsmState::shl_cl);
    wide_acts(0xD3, 4, dst.code());
    let t = s.shl_cl(dst);
    put_adds(s, t, t.instrs.last());
}

/// `shl` by a number.
pub proof fn shl_ri_does(s: AsmState, dst: Gpr, imm: u8)
    ensures
        adds(
            s,
            s.shl_ri(dst, imm),
            Act::Shift { op: Shift::Left, dst: index(dst), by: Some(imm as int) },
        ),
{
    reveal(AsmState::shl_ri);
    byte_acts(0xC1, 4, dst.code(), imm);
    let t = s.shl_ri(dst, imm);
    put_adds(s, t, t.instrs.last());
}

/// `shr` by `cl`.
pub proof fn shr_cl_does(s: AsmState, dst: Gpr)
    ensures
        adds(s, s.shr_cl(dst), Act::Shift { op: Shift::Right, dst: index(dst), by: None }),
{
    reveal(AsmState::shr_cl);
    wide_acts(0xD3, 5, dst.code());
    let t = s.shr_cl(dst);
    put_adds(s, t, t.instrs.last());
}

/// `shr` by a number.
pub proof fn shr_ri_does(s: AsmState, dst: Gpr, imm: u8)
    ensures
        adds(
            s,
            s.shr_ri(dst, imm),
            Act::Shift { op: Shift::Right, dst: index(dst), by: Some(imm as int) },
        ),
{
    reveal(AsmState::shr_ri);
    byte_acts(0xC1, 5, dst.code(), imm);
    let t = s.shr_ri(dst, imm);
    put_adds(s, t, t.instrs.last());
}

/// `sar` by `cl`.
pub proof fn sar_cl_does(s: AsmState, dst: Gpr)
    ensures
        adds(s, s.sar_cl(dst), Act::Shift { op: Shift::Signed, dst: index(dst), by: None }),
{
    reveal(AsmState::sar_cl);
    wide_acts(0xD3, 7, dst.code());
    let t = s.sar_cl(dst);
    put_adds(s, t, t.instrs.last());
}

/// `sar` by a number.
pub proof fn sar_ri_does(s: AsmState, dst: Gpr, imm: u8)
    ensures
        adds(
            s,
            s.sar_ri(dst, imm),
            Act::Shift { op: Shift::Signed, dst: index(dst), by: Some(imm as int) },
        ),
{
    reveal(AsmState::sar_ri);
    byte_acts(0xC1, 7, dst.code(), imm);
    let t = s.sar_ri(dst, imm);
    put_adds(s, t, t.instrs.last());
}

/// `and` with a number.
pub proof fn and_ri_does(s: AsmState, dst: Gpr, imm: i32)
    ensures
        adds(
            s,
            s.and_ri(dst, imm),
            Act::BinaryImm { op: Alu::And, dst: index(dst), value: imm as int },
        ),
{
    reveal(AsmState::and_ri);
    number_acts(0x81, 4, dst.code(), imm);
    let t = s.and_ri(dst, imm);
    put_adds(s, t, t.instrs.last());
}

/// `xor` with a number.
pub proof fn xor_ri_does(s: AsmState, dst: Gpr, imm: i32)
    ensures
        adds(
            s,
            s.xor_ri(dst, imm),
            Act::BinaryImm { op: Alu::Xor, dst: index(dst), value: imm as int },
        ),
{
    reveal(AsmState::xor_ri);
    number_acts(0x81, 6, dst.code(), imm);
    let t = s.xor_ri(dst, imm);
    put_adds(s, t, t.instrs.last());
}

/// `cmp` with a number.
pub proof fn cmp_ri_does(s: AsmState, dst: Gpr, imm: i32)
    ensures
        adds(
            s,
            s.cmp_ri(dst, imm),
            Act::BinaryImm { op: Alu::Compare, dst: index(dst), value: widened(imm) },
        ),
{
    reveal(AsmState::cmp_ri);
    number_acts(0x81, 7, dst.code(), imm);
    let t = s.cmp_ri(dst, imm);
    put_adds(s, t, t.instrs.last());
}

/// `add` with a number.
pub proof fn add_ri_does(s: AsmState, dst: Gpr, imm: i32)
    ensures
        adds(
            s,
            s.add_ri(dst, imm),
            Act::BinaryImm { op: Alu::Plus, dst: index(dst), value: imm as int },
        ),
{
    reveal(AsmState::add_ri);
    number_acts(0x81, 0, dst.code(), imm);
    let t = s.add_ri(dst, imm);
    put_adds(s, t, t.instrs.last());
}

/// `sub` of a number and the stack pointer.
pub proof fn sub_rsp_imm_does(s: AsmState, imm: i32)
    ensures
        adds(s, s.sub_rsp_imm(imm), Act::BinaryImm { op: Alu::Minus, dst: 4, value: imm as int }),
{
    reveal(AsmState::sub_rsp_imm);
    number_acts(0x81, 5, 4, imm);
    let t = s.sub_rsp_imm(imm);
    put_adds(s, t, t.instrs.last());
}

/// `add` of a number and the stack pointer.
pub proof fn add_rsp_imm_does(s: AsmState, imm: i32)
    ensures
        adds(s, s.add_rsp_imm(imm), Act::BinaryImm { op: Alu::Plus, dst: 4, value: imm as int }),
{
    reveal(AsmState::add_rsp_imm);
    number_acts(0x81, 0, 4, imm);
    let t = s.add_rsp_imm(imm);
    put_adds(s, t, t.instrs.last());
}

/// `imul` with a number.
pub proof fn imul_rri_does(s: AsmState, dst: Gpr, src: Gpr, imm: i32)
    ensures
        adds(
            s,
            s.imul_rri(dst, src, imm),
            Act::TimesImm { dst: index(dst), src: index(src), value: imm as int },
        ),
{
    reveal(AsmState::imul_rri);
    number_acts(0x69, dst.code(), src.code(), imm);
    let t = s.imul_rri(dst, src, imm);
    put_adds(s, t, t.instrs.last());
}

/// `movzx8` widens part of a register.
pub proof fn movzx8_does(s: AsmState, dst: Gpr, src: Gpr)
    ensures
        adds(
            s,
            s.movzx8(dst, src),
            Act::Extend { dst: index(dst), src: index(src), size: 1, signed: false },
        ),
{
    reveal(AsmState::movzx8);
    wide_acts(0xB6, dst.code(), src.code());
    let t = s.movzx8(dst, src);
    put_adds(s, t, t.instrs.last());
}

/// `movsx8` widens part of a register.
pub proof fn movsx8_does(s: AsmState, dst: Gpr, src: Gpr)
    ensures
        adds(
            s,
            s.movsx8(dst, src),
            Act::Extend { dst: index(dst), src: index(src), size: 1, signed: true },
        ),
{
    reveal(AsmState::movsx8);
    wide_acts(0xBE, dst.code(), src.code());
    let t = s.movsx8(dst, src);
    put_adds(s, t, t.instrs.last());
}

/// `movzx16` widens part of a register.
pub proof fn movzx16_does(s: AsmState, dst: Gpr, src: Gpr)
    ensures
        adds(
            s,
            s.movzx16(dst, src),
            Act::Extend { dst: index(dst), src: index(src), size: 2, signed: false },
        ),
{
    reveal(AsmState::movzx16);
    wide_acts(0xB7, dst.code(), src.code());
    let t = s.movzx16(dst, src);
    put_adds(s, t, t.instrs.last());
}

/// `movsx16` widens part of a register.
pub proof fn movsx16_does(s: AsmState, dst: Gpr, src: Gpr)
    ensures
        adds(
            s,
            s.movsx16(dst, src),
            Act::Extend { dst: index(dst), src: index(src), size: 2, signed: true },
        ),
{
    reveal(AsmState::movsx16);
    wide_acts(0xBF, dst.code(), src.code());
    let t = s.movsx16(dst, src);
    put_adds(s, t, t.instrs.last());
}

/// `movsxd` widens part of a register.
pub proof fn movsxd_does(s: AsmState, dst: Gpr, src: Gpr)
    ensures
        adds(
            s,
            s.movsxd(dst, src),
            Act::Extend { dst: index(dst), src: index(src), size: 4, signed: true },
        ),
{
    reveal(AsmState::movsxd);
    wide_acts(0x63, dst.code(), src.code());
    let t = s.movsxd(dst, src);
    put_adds(s, t, t.instrs.last());
}

/// `movzx` widens `al`.
pub proof fn movzx_al_does(s: AsmState, dst: Gpr)
    ensures
        adds(s, s.movzx_al(dst), Act::Extend { dst: index(dst), src: 0, size: 1, signed: false }),
{
    reveal(AsmState::movzx_al);
    wide_acts(0xB6, dst.code(), 0);
    let t = s.movzx_al(dst);
    put_adds(s, t, t.instrs.last());
}

/// A load of 8 bytes.
pub proof fn mov_load_mem_does(s: AsmState, dst: Gpr, base: Gpr, disp: i32)
    ensures
        adds(s, s.mov_load_mem(dst, base, disp), 
            Act::Load {
                dst: index(dst),
                base: index(base),
                disp: disp as int,
                size: 8,
                signed: false,
            }),
{
    reveal(AsmState::mov_load_mem);
    wide_mem_acts(0x8B, dst.code(), base.code(), disp);
    let t = s.mov_load_mem(dst, base, disp);
    put_adds(s, t, t.instrs.last());
}

/// A load of 4 bytes.
pub proof fn movsxd_mem_does(s: AsmState, dst: Gpr, base: Gpr, disp: i32)
    ensures
        adds(s, s.movsxd_mem(dst, base, disp), 
            Act::Load {
                dst: index(dst),
                base: index(base),
                disp: disp as int,
                size: 4,
                signed: true,
            }),
{
    reveal(AsmState::movsxd_mem);
    wide_mem_acts(0x63, dst.code(), base.code(), disp);
    let t = s.movsxd_mem(dst, base, disp);
    put_adds(s, t, t.instrs.last());
}

/// A load of one byte.
pub proof fn movzx8_mem_does(s: AsmState, dst: Gpr, base: Gpr, disp: i32)
    ensures
        adds(s, s.movzx8_mem(dst, base, disp), 
            Act::Load {
                dst: index(dst),
                base: index(base),
                disp: disp as int,
                size: 1,
                signed: false,
            }),
{
    reveal(AsmState::movzx8_mem);
    wide_mem_acts(0xB6, dst.code(), base.code(), disp);
    let t = s.movzx8_mem(dst, base, disp);
    put_adds(s, t, t.instrs.last());
}

/// A load of one byte.
pub proof fn movsx8_mem_does(s: AsmState, dst: Gpr, base: Gpr, disp: i32)
    ensures
        adds(s, s.movsx8_mem(dst, base, disp), 
            Act::Load {
                dst: index(dst),
                base: index(base),
                disp: disp as int,
                size: 1,
                signed: true,
            }),
{
    reveal(AsmState::movsx8_mem);
    wide_mem_acts(0xBE, dst.code(), base.code(), disp);
    let t = s.movsx8_mem(dst, base, disp);
    put_adds(s, t, t.instrs.last());
}

/// A load of 2 bytes.
pub proof fn movzx16_mem_does(s: AsmState, dst: Gpr, base: Gpr, disp: i32)
    ensures
        adds(s, s.movzx16_mem(dst, base, disp), 
            Act::Load {
                dst: index(dst),
                base: index(base),
                disp: disp as int,
                size: 2,
                signed: false,
            }),
{
    reveal(AsmState::movzx16_mem);
    wide_mem_acts(0xB7, dst.code(), base.code(), disp);
    let t = s.movzx16_mem(dst, base, disp);
    put_adds(s, t, t.instrs.last());
}

/// A load of 2 bytes.
pub proof fn movsx16_mem_does(s: AsmState, dst: Gpr, base: Gpr, disp: i32)
    ensures
        adds(s, s.movsx16_mem(dst, base, disp), 
            Act::Load {
                dst: index(dst),
                base: index(base),
                disp: disp as int,
                size: 2,
                signed: true,
            }),
{
    reveal(AsmState::movsx16_mem);
    wide_mem_acts(0xBF, dst.code(), base.code(), disp);
    let t = s.movsx16_mem(dst, base, disp);
    put_adds(s, t, t.instrs.last());
}

/// A load of 4 bytes.
pub proof fn mov_load32_mem_does(s: AsmState, dst: Gpr, base: Gpr, disp: i32)
    ensures
        adds(s, s.mov_load32_mem(dst, base, disp), 
            Act::Load {
                dst: index(dst),
                base: index(base),
                disp: disp as int,
                size: 4,
                signed: false,
            }),
{
    reveal(AsmState::mov_load32_mem);
    narrow_mem_acts(0x8B, dst.code(), base.code(), disp);
    let t = s.mov_load32_mem(dst, base, disp);
    put_adds(s, t, t.instrs.last());
}

/// A store of 8 bytes.
pub proof fn mov_store_mem_does(s: AsmState, base: Gpr, disp: i32, src: Gpr)
    ensures
        adds(s, s.mov_store_mem(base, disp, src), 
            Act::Store { base: index(base), disp: disp as int, src: index(src), size: 8 }),
{
    reveal(AsmState::mov_store_mem);
    wide_mem_acts(0x89, src.code(), base.code(), disp);
    let t = s.mov_store_mem(base, disp, src);
    put_adds(s, t, t.instrs.last());
}

/// A store of 4 bytes.
pub proof fn mov_store32_mem_does(s: AsmState, base: Gpr, disp: i32, src: Gpr)
    ensures
        adds(s, s.mov_store32_mem(base, disp, src), 
            Act::Store { base: index(base), disp: disp as int, src: index(src), size: 4 }),
{
    reveal(AsmState::mov_store32_mem);
    narrow_mem_acts(0x89, src.code(), base.code(), disp);
    let t = s.mov_store32_mem(base, disp, src);
    put_adds(s, t, t.instrs.last());
}

/// A store of 2 bytes.
pub proof fn mov_store16_mem_does(s: AsmState, base: Gpr, disp: i32, src: Gpr)
    ensures
        adds(s, s.mov_store16_mem(base, disp, src), 
            Act::Store { base: index(base), disp: disp as int, src: index(src), size: 2 }),
{
    reveal(AsmState::mov_store16_mem);
    small_store_acts(src.code(), base.code(), disp);
    let t = s.mov_store16_mem(base, disp, src);
    put_adds(s, t, t.instrs.last());
}

/// A store of one byte.
pub proof fn mov_store8_mem_does(s: AsmState, base: Gpr, disp: i32, src: Gpr)
    ensures
        adds(s, s.mov_store8_mem(base, disp, src), 
            Act::Store { base: index(base), disp: disp as int, src: index(src), size: 1 }),
{
    reveal(AsmState::mov_store8_mem);
    small_store_acts(src.code(), base.code(), disp);
    let t = s.mov_store8_mem(base, disp, src);
    put_adds(s, t, t.instrs.last());
}

/// The address of memory.
pub proof fn lea_mem_does(s: AsmState, dst: Gpr, base: Gpr, disp: i32)
    ensures
        adds(
            s,
            s.lea_mem(dst, base, disp),
            Act::Lea { dst: index(dst), base: index(base), disp: disp as int },
        ),
{
    reveal(AsmState::lea_mem);
    wide_mem_acts(0x8D, dst.code(), base.code(), disp);
    let t = s.lea_mem(dst, base, disp);
    put_adds(s, t, t.instrs.last());
}

/// A load from the frame.
pub proof fn mov_load_does(s: AsmState, dst: Gpr, disp: i32)
    ensures
        adds(s, s.mov_load(dst, disp), 
            Act::Load { dst: index(dst), base: 5, disp: disp as int, size: 8, signed: false }),
{
    reveal(AsmState::mov_load);
    wide_mem_acts(0x8B, dst.code(), 5, disp);
    assert(wrbp(0x8B, dst.code(), disp) =~= wmem(0x8B, dst.code(), 5, disp));
    let t = s.mov_load(dst, disp);
    put_adds(s, t, t.instrs.last());
}

/// The address of a slot of the frame.
pub proof fn lea_rbp_does(s: AsmState, dst: Gpr, disp: i32)
    ensures
        adds(s, s.lea_rbp(dst, disp), Act::Lea { dst: index(dst), base: 5, disp: disp as int }),
{
    reveal(AsmState::lea_rbp);
    wide_mem_acts(0x8D, dst.code(), 5, disp);
    assert(wrbp(0x8D, dst.code(), disp) =~= wmem(0x8D, dst.code(), 5, disp));
    let t = s.lea_rbp(dst, disp);
    put_adds(s, t, t.instrs.last());
}

/// A store to the frame.
pub proof fn mov_store_does(s: AsmState, disp: i32, src: Gpr)
    ensures
        adds(s, s.mov_store(disp, src), 
            Act::Store { base: 5, disp: disp as int, src: index(src), size: 8 }),
{
    reveal(AsmState::mov_store);
    wide_mem_acts(0x89, src.code(), 5, disp);
    assert(wrbp(0x89, src.code(), disp) =~= wmem(0x89, src.code(), 5, disp));
    let t = s.mov_store(disp, src);
    put_adds(s, t, t.instrs.last());
}

/// `cqo` spreads the sign of `rax`.
pub proof fn cqo_does(s: AsmState)
    ensures
        adds(s, s.cqo(), Act::Spread),
{
    reveal(AsmState::cqo);
    fixed_acts();
    let t = s.cqo();
    put_adds(s, t, t.instrs.last());
}

/// `xor rdx, rdx`.
pub proof fn zero_rdx_does(s: AsmState)
    ensures
        adds(s, s.zero_rdx(), Act::Binary { op: Alu::Xor, dst: 2, src: 2 }),
{
    reveal(AsmState::zero_rdx);
    wide_acts(0x31, 2, 2);
    let t = s.zero_rdx();
    put_adds(s, t, t.instrs.last());
}

/// `leave` undoes a frame.
pub proof fn leave_does(s: AsmState)
    ensures
        adds(s, s.leave(), Act::Leave),
{
    reveal(AsmState::leave);
    fixed_acts();
    let t = s.leave();
    put_adds(s, t, t.instrs.last());
}

/// `rep movsb` copies bytes.
pub proof fn rep_movsb_does(s: AsmState)
    ensures
        adds(s, s.rep_movsb(), Act::Copy),
{
    reveal(AsmState::rep_movsb);
    fixed_acts();
    let t = s.rep_movsb();
    put_adds(s, t, t.instrs.last());
}

/// A condition goes to `al`.
pub proof fn setcc_al_does(s: AsmState, cc: Cc)
    ensures
        adds(s, s.setcc_al(cc), Act::Condition { cc: cc.bits() as int }),
{
    reveal(AsmState::setcc_al);
    condition_acts(cc);
    let t = s.setcc_al(cc);
    put_adds(s, t, t.instrs.last());
}

/// `push` of a register.
pub proof fn push_does(s: AsmState, reg: Gpr)
    ensures
        adds(s, s.push(reg), Act::Push { reg: index(reg) }),
{
    reveal(AsmState::push);
    stack_acts(reg.code());
    let t = s.push(reg);
    put_adds(s, t, t.instrs.last());
}

/// `pop` of a register.
pub proof fn pop_does(s: AsmState, reg: Gpr)
    ensures
        adds(s, s.pop(reg), Act::Pop { reg: index(reg) }),
{
    reveal(AsmState::pop);
    stack_acts(reg.code());
    let t = s.pop(reg);
    put_adds(s, t, t.instrs.last());
}

/// `mov` of a number, in either form.
pub proof fn mov_ri_does(s: AsmState, dst: Gpr, imm: i64)
    ensures
        adds(s, s.mov_ri(dst, imm), Act::MoveImm { dst: index(dst), value: wrap64(imm as int) }),
{
    reveal(AsmState::mov_ri);
    load_number_acts(dst, imm);
    let t = s.mov_ri(dst, imm);
    put_adds(s, t, t.instrs.last());
}

/// The address of a part of the state.
pub proof fn mov_ri_state_does(s: AsmState, dst: Gpr, off: u32)
    ensures
        adds(s, s.mov_ri_state(dst, off), Act::Address { dst: index(dst), state: true, off }),
{
    reveal(AsmState::mov_ri_state);
    hole_acts(dst, FixupKind::State(off));
    let t = s.mov_ri_state(dst, off);
    put_adds(s, t, t.instrs.last());
}

/// The address of data.
pub proof fn mov_ri_data_does(s: AsmState, dst: Gpr, off: u32)
    ensures
        adds(s, s.mov_ri_data(dst, off), Act::Address { dst: index(dst), state: false, off }),
{
    reveal(AsmState::mov_ri_data);
    hole_acts(dst, FixupKind::Data(off));
    let t = s.mov_ri_data(dst, off);
    put_adds(s, t, t.instrs.last());
}

// ---------------------------------------------------------------------------
//  Floats
// ---------------------------------------------------------------------------

/// The number of a floating-point register.
pub open spec fn float_index(r: Xmm) -> int {
    r.code() as int
}

proof fn float_acts(prefix: u8, op: u8, reg: u8, rm: u8)
    requires
        reg < 16,
        rm < 16,
        is_prefix(prefix),
        op != 0x99,
    ensures
        act_of(sse_rr(prefix, op, reg, rm)) == float_act(
            reg_form(
                prefix as int,
                reg >= 8 || rm >= 8,
                false,
                true,
                op as int,
                reg as int,
                rm as int,
                Seq::empty(),
            ),
            rm as int,
        ),
        act_of(sse_wrr(prefix, op, reg, rm)) == float_act(
            reg_form(
                prefix as int,
                true,
                true,
                true,
                op as int,
                reg as int,
                rm as int,
                Seq::empty(),
            ),
            rm as int,
        ),
{
    float_registers_read_back(prefix, op, reg, rm);
    let a = sse_rr(prefix, op, reg, rm);
    let b = sse_wrr(prefix, op, reg, rm);
    form_acts(a, read_form(a).unwrap());
    form_acts(b, read_form(b).unwrap());
}

proof fn float_memory_acts(op: u8, reg: u8, base: u8, disp: i32)
    requires
        reg < 16,
        base < 16,
    ensures
        act_of(sse_mem(op, reg, base, disp)) == mem_act(
            mem_form(
                0xF2,
                reg >= 8 || base >= 8,
                false,
                true,
                op as int,
                reg as int,
                base as int,
                disp as int,
            ),
            base as int,
            disp as int,
        ),
{
    float_memory_reads_back(op, reg, base, disp);
    let a = sse_mem(op, reg, base, disp);
    operand_length(reg, base, disp);
    form_acts(a, read_form(a).unwrap());
}

/// A float is loaded.
pub proof fn movsd_load_does(s: AsmState, dst: Xmm, base: Gpr, disp: i32)
    ensures
        adds(
            s,
            s.movsd_load(dst, base, disp),
            Act::FloatLoad { dst: float_index(dst), base: index(base), disp: disp as int },
        ),
{
    reveal(AsmState::movsd_load);
    float_memory_acts(0x10, dst.code(), base.code(), disp);
    let t = s.movsd_load(dst, base, disp);
    put_adds(s, t, t.instrs.last());
}

/// A float is stored.
pub proof fn movsd_store_does(s: AsmState, base: Gpr, disp: i32, src: Xmm)
    ensures
        adds(
            s,
            s.movsd_store(base, disp, src),
            Act::FloatStore { base: index(base), disp: disp as int, src: float_index(src) },
        ),
{
    reveal(AsmState::movsd_store);
    float_memory_acts(0x11, src.code(), base.code(), disp);
    let t = s.movsd_store(base, disp, src);
    put_adds(s, t, t.instrs.last());
}

/// The bits of a word go to a floating-point register.
pub proof fn movq_xmm_r64_does(s: AsmState, dst: Xmm, src: Gpr)
    ensures
        adds(
            s,
            s.movq_xmm_r64(dst, src),
            Act::FloatBits { dst: float_index(dst), src: index(src) },
        ),
{
    reveal(AsmState::movq_xmm_r64);
    float_acts(0x66, 0x6E, dst.code(), src.code());
    let t = s.movq_xmm_r64(dst, src);
    put_adds(s, t, t.instrs.last());
}

/// The four operations.
pub proof fn float_arith_does(s: AsmState, dst: Xmm, src: Xmm)
    ensures
        ({
            let d = float_index(dst);
            let e = float_index(src);
            &&& adds(s, s.addsd(dst, src), Act::Float { op: FloatOp::Plus, dst: d, src: e })
            &&& adds(s, s.subsd(dst, src), Act::Float { op: FloatOp::Minus, dst: d, src: e })
            &&& adds(s, s.mulsd(dst, src), Act::Float { op: FloatOp::Times, dst: d, src: e })
            &&& adds(s, s.divsd(dst, src), Act::Float { op: FloatOp::Over, dst: d, src: e })
        }),
{
    reveal(AsmState::addsd);
    reveal(AsmState::subsd);
    reveal(AsmState::mulsd);
    reveal(AsmState::divsd);
    float_acts(0xF2, 0x58, dst.code(), src.code());
    float_acts(0xF2, 0x5C, dst.code(), src.code());
    float_acts(0xF2, 0x59, dst.code(), src.code());
    float_acts(0xF2, 0x5E, dst.code(), src.code());
    let a = s.addsd(dst, src);
    let b = s.subsd(dst, src);
    let c = s.mulsd(dst, src);
    let d = s.divsd(dst, src);
    put_adds(s, a, a.instrs.last());
    put_adds(s, b, b.instrs.last());
    put_adds(s, c, c.instrs.last());
    put_adds(s, d, d.instrs.last());
}

/// Floats are compared.
pub proof fn ucomisd_does(s: AsmState, a: Xmm, b: Xmm)
    ensures
        adds(s, s.ucomisd(a, b), Act::FloatCompare { a: float_index(a), b: float_index(b) }),
{
    reveal(AsmState::ucomisd);
    float_acts(0x66, 0x2E, a.code(), b.code());
    let t = s.ucomisd(a, b);
    put_adds(s, t, t.instrs.last());
}

/// A word becomes a float.
pub proof fn cvtsi2sd_does(s: AsmState, dst: Xmm, src: Gpr)
    ensures
        adds(s, s.cvtsi2sd(dst, src), Act::FromWord { dst: float_index(dst), src: index(src) }),
{
    reveal(AsmState::cvtsi2sd);
    float_acts(0xF2, 0x2A, dst.code(), src.code());
    let t = s.cvtsi2sd(dst, src);
    put_adds(s, t, t.instrs.last());
}

/// A float becomes a word.
pub proof fn cvttsd2si_does(s: AsmState, dst: Gpr, src: Xmm)
    ensures
        adds(s, s.cvttsd2si(dst, src), Act::ToWord { dst: index(dst), src: float_index(src) }),
{
    reveal(AsmState::cvttsd2si);
    float_acts(0xF2, 0x2C, dst.code(), src.code());
    let t = s.cvttsd2si(dst, src);
    put_adds(s, t, t.instrs.last());
}

} // verus!
