//! Lowered statements do what they say: for assignments of scalars to whole locals.
use vstd::prelude::*;

use crate::lower::mem_effects::apart;
use crate::aarch64::encode::{FP, Reg};
use crate::aarch64::lower::effects::{
    adds_takes, load_reads, normalizing_wraps, number_is_loaded, only_regs, store_writes, takes,
    takes_nothing,
};
use crate::aarch64::lower::env::{A64Func, A64Low, RES, S2, S3};
use crate::aarch64::machine::{Act, Alu, Core, act, combined, condition};
use crate::aarch64::steps::{
    add_does, adds, and_does, asrv_does, cmp_does, cset_does, eor_does, index, lslv_does, lsrv_does,
    msub_does, mul_does, mvn_does, neg_does, orr_does, other_way, other_way_is_opposite, sdiv_does,
    sub_does, udiv_does,
};
use crate::bytes::wrap64;
use crate::lower::arith_effects::{
    exact, low_bits_of_word, same_word, value_is_word, value_of, words_combine,
};
use crate::lower::effects::{holds, low_bits, written_reads_kept};
use crate::lower::values::{cc_of, compares};
use crate::lower::word_effects::product_is_word;
use crate::machine::{SPAN, fetch, fetch_same, in_space, low_bytes, patch};
use crate::mir::{BinOp, Const, LocalId, Operand, Rvalue, Statement, UnOp};
use crate::types::TypeId;
use vstd::arithmetic::div_mod::lemma_fundamental_div_mod;
use vstd::arithmetic::power2::pow2;

verus! {

// ---------------------------------------------------------------------------
//  Operands
// ---------------------------------------------------------------------------

/// How many bytes a load or store of a scalar takes.
pub open spec fn scalar_width(env: A64Func, ty: TypeId) -> nat {
    env.mem_size(ty).width() as nat
}

/// The word that a scalar constant is.
pub open spec fn constant_word(env: A64Func, k: Const) -> Option<u64> {
    match k {
        Const::Int { value, ty } => Some(wrap64(env.const_int_bits(value, ty) as int)),
        Const::Bool(b) => Some(
            if b {
                1
            } else {
                0
            },
        ),
        Const::Void => Some(0),
        Const::EnumVal { variant, .. } => Some(wrap64((variant as i64) as int)),
        Const::ErrVal { tag, .. } => Some(tag.0 as u64),
        Const::Undef { .. } => Some(0),
        _ => None,
    }
}

/// The word in the home of a local.
#[verifier::opaque]
pub open spec fn local_word(env: A64Func, c: Core, l: LocalId) -> Option<u64> {
    let ty = env.local_ty(l);
    let n = scalar_width(env, ty);
    let a = c.reg(29) + env.home(l);
    if in_space(a, n) {
        Some(wrap64(low_bytes(fetch(c.mem, a, n), n, env.repr_of(ty).signed)))
    } else {
        None
    }
}

/// The word of a constant or a whole local.
pub open spec fn operand_word(env: A64Func, c: Core, op: Operand) -> Option<u64> {
    match op {
        Operand::Const(k) => constant_word(env, k),
        Operand::Copy(p) => if p.proj@.len() == 0 {
            local_word(env, c, p.base)
        } else {
            None
        },
    }
}

/// Whether nothing changed but the registers that operators are computed in.
pub open spec fn only_temps(c: Core, d: Core) -> bool {
    &&& d.wf()
    &&& d.mem == c.mem
    &&& d.sp == c.sp
    &&& forall|r: int|
        0 <= r < 31 && r != 9 && r != 10 && r != 11 && r != 17 ==> #[trigger] d.regs[r]
            == c.regs[r]
}

pub(crate) proof fn temps_trans(c: Core, d: Core, e: Core)
    requires
        only_temps(c, d),
        only_temps(d, e),
    ensures
        only_temps(c, e),
{
    assert forall|r: int| 0 <= r < 31 && r != 9 && r != 10 && r != 11 && r != 17 implies
        #[trigger] e.regs[r] == c.regs[r] by {
        assert(d.regs[r] == c.regs[r]);
    }
}

/// The complement of a word.
pub(crate) proof fn complement_of(x: u64)
    by (bit_vector)
    ensures
        0u64 | !x == !x,
        !x == 0xFFFF_FFFF_FFFF_FFFFu64 - x,
{
}

proof fn word_stays(env: A64Func, c: Core, d: Core, op: Operand)
    requires
        only_temps(c, d),
    ensures
        operand_word(env, d, op) == operand_word(env, c, op),
{
    reveal(local_word);
    assert(d.regs[29] == c.regs[29]);
}

/// An operand that is a constant or a whole local is loaded as its word.
pub proof fn operand_loads(
    env: A64Func,
    s: A64Low,
    t: A64Low,
    op: Operand,
    dst: Reg,
    c: Core,
    d: Core,
) -> (e: Core)
    requires
        takes(s, t, c, d),
        d.wf(),
        t.err is None,
        dst.0 < 29,
        dst.0 != 17,
        operand_word(env, d, op) is Some,
    ensures
        takes(s, env.operand_to(t, op, dst), c, e),
        env.operand_to(t, op, dst).err is None,
        only_regs(d, e, index(dst), 17),
        e.reg(index(dst)) == operand_word(env, d, op).unwrap(),
{
    match op {
        Operand::Const(k) => {
            reveal(A64Func::const_to);
            let w: i64 = match k {
                Const::Int { value, ty } => env.const_int_bits(value, ty),
                Const::Bool(b) => b as i64,
                Const::EnumVal { variant, .. } => variant as i64,
                Const::ErrVal { tag, .. } => tag.0 as i64,
                _ => 0,
            };
            number_is_loaded(s, t, dst, w, c, d)
        },
        Operand::Copy(p) => {
            reveal(local_word);
            reveal(A64Func::load_sized);
            load_reads(
                env,
                s,
                t,
                dst,
                Reg(FP),
                env.home(p.base),
                env.local_ty(p.base),
                c,
                d,
            )
        },
    }
}

proof fn operands_load(env: A64Func, s: A64Low, lhs: Operand, rhs: Operand, c: Core) -> (r: (
    A64Low,
    Core,
))
    requires
        c.wf(),
        s.err is None,
        operand_word(env, c, lhs) is Some,
        operand_word(env, c, rhs) is Some,
    ensures
        r.0 == env.operand_to(env.operand_to(s, lhs, Reg(RES)), rhs, Reg(S2)),
        env.operand_to(s, lhs, Reg(RES)).err is None,
        r.0.err is None,
        takes(s, r.0, c, r.1),
        only_temps(c, r.1),
        r.1.reg(9) == operand_word(env, c, lhs).unwrap(),
        r.1.reg(10) == operand_word(env, c, rhs).unwrap(),
{
    takes_nothing(s, c);
    let t1 = env.operand_to(s, lhs, Reg(RES));
    let c1 = operand_loads(env, s, s, lhs, Reg(RES), c, c);
    assert(only_temps(c, c1));
    word_stays(env, c, c1, rhs);
    let t2 = env.operand_to(t1, rhs, Reg(S2));
    let c2 = operand_loads(env, s, t1, rhs, Reg(S2), c, c1);
    assert(only_temps(c1, c2));
    temps_trans(c, c1, c2);
    assert(c2.regs[9] == c1.regs[9]);
    (t2, c2)
}

// ---------------------------------------------------------------------------
//  Operators
// ---------------------------------------------------------------------------

/// The width to which results of a type are brought.
pub open spec fn result_width(env: A64Func, ty: TypeId) -> nat {
    let w = env.repr_of(ty).width;
    if 1 <= w < 64 {
        w as nat
    } else {
        64
    }
}

/// A number brought to the width of an integer type.
pub open spec fn brought(env: A64Func, v: int, ty: TypeId) -> u64 {
    wrap64(low_bits(v, result_width(env, ty), env.repr_of(ty).signed))
}

proof fn binary_runs(
    s: A64Low,
    t: A64Low,
    u: A64Low,
    op: Alu,
    rd: int,
    rn: int,
    rm: int,
    c: Core,
    d: Core,
) -> (e: Core)
    requires
        takes(s, t, c, d),
        d.wf(),
        adds(t.text, u.text, Act::Binary { op, rd, rn, rm }),
        0 <= rd < 31,
    ensures
        takes(s, u, c, e),
        e == d.put(rd, combined(op, d.reg(rn), d.reg(rm))),
{
    reveal(act);
    let a = Act::Binary { op, rd, rn, rm };
    adds_takes(s, t, u, a, c, d);
    act(a, d).unwrap()
}

proof fn combined_is_exact(op: Alu, which: BinOp, x: u64, y: u64, signed: bool)
    requires
        y != 0 || (which != BinOp::Div && which != BinOp::Rem),
    ensures
        which == BinOp::Add && op is Plus || which == BinOp::Sub && op is Minus || which
            == BinOp::BitAnd && op is And || which == BinOp::BitOr && op is Or || which
            == BinOp::BitXor && op is Xor || which == BinOp::Shl && op is Left || which
            == BinOp::Shr && signed && op is SignedRight || which == BinOp::Shr && !signed
            && op is Right || which == BinOp::Div && signed && op is SignedOver || which
            == BinOp::Div && !signed && op is Over ==> wrap64(combined(op, x, y)) == wrap64(
            exact(which, x, y, signed),
        ),
{
    reveal(combined);
    words_combine(x, y, signed);
    if which == BinOp::Shl {
        let p = pow2((y % 64) as nat) as int;
        let k = value_is_word(x, signed);
        assert((x + k * SPAN) * p == x * p + (k * p) * SPAN) by (nonlinear_arith);
        same_word(value_of(x, signed) * p, x * p, k * p);
    }
}

proof fn remainder_wraps(x: u64, y: u64, q: int, signed: bool)
    ensures
        wrap64(x - wrap64(q) * y) == wrap64(value_of(x, signed) - q * value_of(y, signed)),
{
    let j = value_is_word(x, signed);
    let k = value_is_word(y, signed);
    let m = q / (SPAN as int);
    lemma_fundamental_div_mod(q, SPAN as int);
    let w = wrap64(q) as int;
    assert(q == w + m * SPAN) by (nonlinear_arith)
        requires
            q == SPAN * m + w,
    ;
    let a = value_of(x, signed);
    let b = value_of(y, signed);
    let z = -j + m * b + w * k;
    assert(x - w * y == a - q * b + z * SPAN) by (nonlinear_arith)
        requires
            a == x + j * SPAN,
            b == y + k * SPAN,
            q == w + m * SPAN,
            z == -j + m * b + w * k,
    ;
    same_word(x - w * y, a - q * b, z);
}

#[verifier::spinoff_prover]
proof fn arith_runs(
    env: A64Func,
    s: A64Low,
    t: A64Low,
    op: BinOp,
    signed: bool,
    c: Core,
    d: Core,
) -> (e: Core)
    requires
        takes(s, t, c, d),
        d.wf(),
        !compares(op),
        op == BinOp::Div || op == BinOp::Rem ==> d.reg(10) != 0,
    ensures
        takes(s, env.eval_arith(t, op, signed), c, e),
        env.eval_arith(t, op, signed).err == t.err,
        only_temps(d, e),
        e.reg(9) == wrap64(exact(op, d.reg(9), d.reg(10), signed)),
{
    reveal(A64Func::eval_arith);
    let a = Reg(RES);
    let b = Reg(S2);
    let u = env.eval_arith(t, op, signed);
    let x = d.reg(9);
    let y = d.reg(10);
    match op {
        BinOp::Add => {
            add_does(t.text, a, a, b);
            combined_is_exact(Alu::Plus, op, x, y, signed);
            binary_runs(s, t, u, Alu::Plus, 9, 9, 10, c, d)
        },
        BinOp::Sub => {
            sub_does(t.text, a, a, b);
            combined_is_exact(Alu::Minus, op, x, y, signed);
            binary_runs(s, t, u, Alu::Minus, 9, 9, 10, c, d)
        },
        BinOp::Mul => {
            mul_does(t.text, a, a, b);
            reveal(act);
            let z = Act::TimesPlus { minus: false, rd: 9, rn: 9, rm: 10, ra: 31 };
            product_is_word(x, y);
            words_combine(x, y, signed);
            adds_takes(s, t, u, z, c, d);
            act(z, d).unwrap()
        },
        BinOp::BitAnd => {
            and_does(t.text, a, a, b);
            combined_is_exact(Alu::And, op, x, y, signed);
            binary_runs(s, t, u, Alu::And, 9, 9, 10, c, d)
        },
        BinOp::BitOr => {
            orr_does(t.text, a, a, b);
            combined_is_exact(Alu::Or, op, x, y, signed);
            binary_runs(s, t, u, Alu::Or, 9, 9, 10, c, d)
        },
        BinOp::BitXor => {
            eor_does(t.text, a, a, b);
            combined_is_exact(Alu::Xor, op, x, y, signed);
            binary_runs(s, t, u, Alu::Xor, 9, 9, 10, c, d)
        },
        BinOp::Div => {
            if signed {
                sdiv_does(t.text, a, a, b);
                combined_is_exact(Alu::SignedOver, op, x, y, signed);
                binary_runs(s, t, u, Alu::SignedOver, 9, 9, 10, c, d)
            } else {
                udiv_does(t.text, a, a, b);
                combined_is_exact(Alu::Over, op, x, y, signed);
                binary_runs(s, t, u, Alu::Over, 9, 9, 10, c, d)
            }
        },
        BinOp::Rem => remainder_runs(env, s, t, signed, c, d),
        BinOp::Shl => {
            lslv_does(t.text, a, a, b);
            combined_is_exact(Alu::Left, op, x, y, signed);
            binary_runs(s, t, u, Alu::Left, 9, 9, 10, c, d)
        },
        _ => {
            if signed {
                asrv_does(t.text, a, a, b);
                combined_is_exact(Alu::SignedRight, op, x, y, signed);
                binary_runs(s, t, u, Alu::SignedRight, 9, 9, 10, c, d)
            } else {
                lsrv_does(t.text, a, a, b);
                combined_is_exact(Alu::Right, op, x, y, signed);
                binary_runs(s, t, u, Alu::Right, 9, 9, 10, c, d)
            }
        },
    }
}

#[verifier::spinoff_prover]
proof fn remainder_runs(
    env: A64Func,
    s: A64Low,
    t: A64Low,
    signed: bool,
    c: Core,
    d: Core,
) -> (e: Core)
    requires
        takes(s, t, c, d),
        d.wf(),
        d.reg(10) != 0,
    ensures
        takes(s, env.eval_arith(t, BinOp::Rem, signed), c, e),
        env.eval_arith(t, BinOp::Rem, signed).err == t.err,
        only_temps(d, e),
        e.reg(9) == wrap64(exact(BinOp::Rem, d.reg(9), d.reg(10), signed)),
{
    reveal(A64Func::eval_arith);
    let a = Reg(RES);
    let b = Reg(S2);
    let q = Reg(S3);
    let u = env.eval_arith(t, BinOp::Rem, signed);
    let x = d.reg(9);
    let y = d.reg(10);
    let op = if signed {
        Alu::SignedOver
    } else {
        Alu::Over
    };
    let t1 = if signed {
        t.on(t.text.sdiv(q, a, b))
    } else {
        t.on(t.text.udiv(q, a, b))
    };
    if signed {
        sdiv_does(t.text, q, a, b);
    } else {
        udiv_does(t.text, q, a, b);
    }
    let d1 = binary_runs(s, t, t1, op, 11, 9, 10, c, d);
    combined_is_exact(op, BinOp::Div, x, y, signed);
    remainder_wraps(x, y, exact(BinOp::Div, x, y, signed), signed);
    msub_does(t1.text, a, q, b, a);
    let z = Act::TimesPlus { minus: true, rd: 9, rn: 11, rm: 10, ra: 9 };
    assert(act(z, d1) == Some(d1.put(9, d1.reg(9) - d1.reg(11) * d1.reg(10)))) by {
        reveal(act);
    }
    adds_takes(s, t1, u, z, c, d1);
    act(z, d1).unwrap()
}

proof fn difference_tells(c: Core, x: u64, y: u64, op: BinOp, signed: bool)
    requires
        compares(op),
    ensures
        condition(c.compared(x, y), cc_of(op, signed).cond_bits() as int) == holds(
            op,
            signed,
            x,
            y,
        ),
{
    assert((wrap64(x - y) == 0) == (x == y));
}

proof fn comparison_runs(
    s: A64Low,
    t: A64Low,
    op: BinOp,
    signed: bool,
    c: Core,
    d: Core,
) -> (e: Core)
    requires
        takes(s, t, c, d),
        d.wf(),
        compares(op),
    ensures
        takes(s, compared(t, op, signed), c, e),
        only_temps(d, e),
        e.reg(9) == truth(holds(op, signed, d.reg(9), d.reg(10))),
{
    cmp_does(t.text, Reg(RES), Reg(S2));
    let d1 = flags_run(s, t, c, d);
    condition_runs(s, t, op, signed, c, d, d1)
}

/// One for true, zero for false.
pub open spec fn truth(b: bool) -> u64 {
    if b {
        1
    } else {
        0
    }
}

/// The code of a comparison.
pub open spec fn compared(t: A64Low, op: BinOp, signed: bool) -> A64Low {
    let t = tested(t);
    t.on(t.text.cset(Reg(RES), cc_of(op, signed)))
}

/// The code of a test.
pub open spec fn tested(t: A64Low) -> A64Low {
    t.on(t.text.cmp(Reg(RES), Reg(S2)))
}

pub(crate) proof fn flags_run(s: A64Low, t: A64Low, c: Core, d: Core) -> (e: Core)
    requires
        takes(s, t, c, d),
        d.wf(),
    ensures
        takes(s, tested(t), c, e),
        e == d.compared(d.reg(9), d.reg(10)),
{
    cmp_does(t.text, Reg(RES), Reg(S2));
    reveal(act);
    let z = Act::Compare { rd: 31, rn: index(Reg(RES)), rm: index(Reg(S2)) };
    adds_takes(s, t, tested(t), z, c, d);
    act(z, d).unwrap()
}

proof fn condition_runs(
    s: A64Low,
    t: A64Low,
    op: BinOp,
    signed: bool,
    c: Core,
    d: Core,
    d1: Core,
) -> (e: Core)
    requires
        takes(s, tested(t), c, d1),
        d.wf(),
        d1 == d.compared(d.reg(9), d.reg(10)),
        compares(op),
    ensures
        takes(s, compared(t, op, signed), c, e),
        only_temps(d, e),
        e.reg(9) == truth(holds(op, signed, d.reg(9), d.reg(10))),
{
    let cc = cc_of(op, signed);
    let t1 = tested(t);
    let u = compared(t, op, signed);
    cset_does(t1.text, Reg(RES), cc);
    other_way_is_opposite(d1, cc);
    difference_tells(d, d.reg(9), d.reg(10), op, signed);
    reveal(act);
    let z = Act::Condition { rd: 9, unless: other_way(cc) };
    adds_takes(s, t1, u, z, c, d1);
    act(z, d1).unwrap()
}

/// Whether an operator has a result: no division by zero.
pub open spec fn has_result(op: BinOp, y: u64) -> bool {
    op == BinOp::Div || op == BinOp::Rem ==> y != 0
}

/// The value of a binary operator on two words.
pub open spec fn binary_value(
    env: A64Func,
    op: BinOp,
    lhs: Operand,
    rhs: Operand,
    ty: TypeId,
    x: u64,
    y: u64,
) -> u64 {
    let signed = env.repr_of(ty).signed;
    if compares(op) {
        truth(
            holds(
                op,
                signed,
                brought(env, x as int, env.type_or(lhs, ty)),
                brought(env, y as int, env.type_or(rhs, ty)),
            ),
        )
    } else {
        brought(env, exact(op, x, y, signed), ty)
    }
}

/// An integer operator on constants and whole locals computes its exact result, brought to
/// the width of its type; a comparison, one where it holds and zero where it does not.
#[verifier::spinoff_prover]
pub proof fn operator_is_right(
    env: A64Func,
    s: A64Low,
    op: BinOp,
    lhs: Operand,
    rhs: Operand,
    ty: TypeId,
    c: Core,
) -> (d: Core)
    requires
        c.wf(),
        s.err is None,
        !env.is_float(ty),
        operand_word(env, c, lhs) is Some,
        operand_word(env, c, rhs) is Some,
        has_result(op, operand_word(env, c, rhs).unwrap()),
    ensures
        takes(s, env.eval_binary(s, op, lhs, rhs, ty), c, d),
        env.eval_binary(s, op, lhs, rhs, ty).err is None,
        only_temps(c, d),
        d.reg(9) == binary_value(
            env,
            op,
            lhs,
            rhs,
            ty,
            operand_word(env, c, lhs).unwrap(),
            operand_word(env, c, rhs).unwrap(),
        ),
{
    reveal(A64Func::eval_binary);
    let x = operand_word(env, c, lhs).unwrap();
    let y = operand_word(env, c, rhs).unwrap();
    let signed = env.repr_of(ty).signed;
    let (t, c2) = operands_load(env, s, lhs, rhs, c);
    if compares(op) {
        compare_is_right(env, s, t, op, lhs, rhs, ty, c, c2)
    } else {
        let u = env.eval_arith(t, op, signed);
        let c3 = arith_runs(env, s, t, op, signed, c, c2);
        low_bits_of_word(exact(op, x, y, signed), result_width(env, ty), signed);
        let d = normalizing_wraps(env, s, u, Reg(RES), ty, c, c3);
        temps_trans(c, c2, c3);
        assert(only_temps(c3, d));
        temps_trans(c, c3, d);
        d
    }
}

#[verifier::spinoff_prover]
proof fn compare_is_right(
    env: A64Func,
    s: A64Low,
    t: A64Low,
    op: BinOp,
    lhs: Operand,
    rhs: Operand,
    ty: TypeId,
    c: Core,
    d: Core,
) -> (e: Core)
    requires
        takes(s, t, c, d),
        d.wf(),
        t.err is None,
        only_temps(c, d),
        compares(op),
    ensures
        takes(s, env.eval_compare(t, op, lhs, rhs, ty), c, e),
        env.eval_compare(t, op, lhs, rhs, ty).err is None,
        only_temps(c, e),
        e.reg(9) == binary_value(env, op, lhs, rhs, ty, d.reg(9), d.reg(10)),
{
    let lt = env.type_or(lhs, ty);
    let rt = env.type_or(rhs, ty);
    let x = d.reg(9);
    let y = d.reg(10);
    let signed = env.repr_of(ty).signed;
    let t1 = env.normalize(t, Reg(RES), lt);
    let d1 = normalizing_wraps(env, s, t, Reg(RES), lt, c, d);
    let t2 = env.normalize(t1, Reg(S2), rt);
    assert(d1.regs[10] == d.regs[10]);
    let d2 = normalizing_wraps(env, s, t1, Reg(S2), rt, c, d1);
    assert(d2.regs[9] == d1.regs[9]);
    low_bits_of_word(x as int, result_width(env, lt), env.repr_of(lt).signed);
    low_bits_of_word(y as int, result_width(env, rt), env.repr_of(rt).signed);
    assert(wrap64(x as int) == x && wrap64(y as int) == y);
    let e = comparison_runs(s, t2, op, signed, c, d2);
    assert(env.eval_compare(t, op, lhs, rhs, ty) == compared(t2, op, signed)) by {
        reveal(A64Func::eval_compare);
    }
    assert(only_temps(d, d1));
    assert(only_temps(d1, d2));
    temps_trans(c, d, d1);
    temps_trans(c, d1, d2);
    temps_trans(c, d2, e);
    e
}

// ---------------------------------------------------------------------------
//  Assignments
// ---------------------------------------------------------------------------

/// Whether `d` is `c` with the low bytes of a word in the home of a local. Nothing else
/// changed but the registers that operators are computed in.
pub open spec fn assigned(env: A64Func, c: Core, d: Core, l: LocalId, v: u64) -> bool {
    &&& d.wf()
    &&& d.sp == c.sp
    &&& d.mem == patch(
        c.mem,
        c.reg(29) + env.home(l),
        scalar_width(env, env.local_ty(l)),
        v as int,
    )
    &&& forall|r: int|
        0 <= r < 31 && r != 9 && r != 10 && r != 11 && r != 17 ==> #[trigger] d.regs[r]
            == c.regs[r]
}

proof fn result_is_stored(
    env: A64Func,
    s: A64Low,
    t: A64Low,
    l: LocalId,
    c: Core,
    d: Core,
    b: Core,
) -> (e: Core)
    requires
        takes(s, t, c, d),
        t.err is None,
        only_temps(b, d),
        in_space(b.reg(29) + env.home(l), 8),
    ensures
        takes(s, env.store_scalar(t, l, Reg(RES)), c, e),
        env.store_scalar(t, l, Reg(RES)).err is None,
        assigned(env, b, e, l, d.reg(9)),
{
    reveal(A64Func::store_scalar);
    reveal(A64Func::store_sized);
    assert(d.regs[29] == b.regs[29]);
    let e = store_writes(
        env,
        s,
        t,
        Reg(FP),
        env.home(l),
        Reg(RES),
        env.local_ty(l),
        c,
        d,
    );
    assert forall|r: int| 0 <= r < 31 && r != 9 && r != 10 && r != 11 && r != 17 implies
        #[trigger] e.regs[r] == b.regs[r] by {
        assert(d.regs[r] == b.regs[r]);
    }
    e
}

/// The word that a load gives of a stored word.
pub open spec fn kept_word(env: A64Func, ty: TypeId, v: u64) -> u64 {
    wrap64(low_bytes(v as int, scalar_width(env, ty), env.repr_of(ty).signed))
}

/// A local that was assigned a word reads as its low bytes, as many as its type has, extended
/// as the type is signed or not.
pub proof fn assigned_local_reads(env: A64Func, c: Core, d: Core, l: LocalId, v: u64)
    requires
        assigned(env, c, d, l, v),
        in_space(c.reg(29) + env.home(l), 8),
    ensures
        local_word(env, d, l) == Some(kept_word(env, env.local_ty(l), v)),
{
    reveal(local_word);
    assert(d.regs[29] == c.regs[29]);
    written_reads_kept(
        c.mem,
        c.reg(29) + env.home(l),
        scalar_width(env, env.local_ty(l)),
        v,
        env.repr_of(env.local_ty(l)).signed,
    );
}

/// An assignment to one local leaves every other as it was whose home is apart from that of
/// the first.
pub proof fn other_local_stays(env: A64Func, c: Core, d: Core, l: LocalId, v: u64, m: LocalId)
    requires
        assigned(env, c, d, l, v),
        apart(env.home(l) as int, env.home(m) as int, 8),
    ensures
        local_word(env, d, m) == local_word(env, c, m),
{
    reveal(local_word);
    assert(d.regs[29] == c.regs[29]);
    let a = c.reg(29) + env.home(m);
    fetch_same(d.mem, a, c.mem, a, scalar_width(env, env.local_ty(m)));
}

/// The assignment of a value to a whole local.
pub open spec fn assigns(stmt: Statement, l: LocalId, rvalue: Rvalue) -> bool {
    stmt matches Statement::Assign { place, rvalue: r } && place.base == l && place.proj@.len() == 0
        && r == rvalue
}

/// Whether a value is a scalar, to be computed in one word.
pub open spec fn in_one_word(env: A64Func, l: LocalId, rvalue: Rvalue) -> bool {
    env.effective_agg_ty(l, rvalue) is None && !env.is_wide_int(env.local_ty(l))
}

/// The value that is computed for a local, where it is one of a word and has one.
pub open spec fn computed(env: A64Func, c: Core, l: LocalId, rvalue: Rvalue) -> Option<u64> {
    if !in_one_word(env, l, rvalue) {
        None
    } else {
        match rvalue {
            Rvalue::Use(op) => match operand_word(env, c, op) {
                Some(x) => Some(brought(env, x as int, env.local_ty(l))),
                None => None,
            },
            Rvalue::Binary { op, lhs, rhs, ty } => match (
                operand_word(env, c, lhs),
                operand_word(env, c, rhs),
            ) {
                (Some(x), Some(y)) => if has_result(op, y) && !env.is_float(ty) {
                    Some(binary_value(env, op, lhs, rhs, ty, x, y))
                } else {
                    None
                },
                _ => None,
            },
            Rvalue::Unary { un, operand, ty } => match operand_word(env, c, operand) {
                Some(x) => Some(
                    match un {
                        UnOp::Neg => brought(env, -value_of(x, env.repr_of(ty).signed), ty),
                        UnOp::BitNot => brought(
                            env,
                            -1 - value_of(x, env.repr_of(ty).signed),
                            ty,
                        ),
                        UnOp::Not => x ^ 1,
                    },
                ),
                None => None,
            },
            Rvalue::Cast { kind, operand, ty } => match operand_word(env, c, operand) {
                Some(x) => if env.extends(kind) {
                    Some(brought(env, x as int, ty))
                } else {
                    None
                },
                None => None,
            },
            _ => None,
        }
    }
}

proof fn loaded_and_brought(
    env: A64Func,
    s: A64Low,
    operand: Operand,
    ty: TypeId,
    c: Core,
) -> (r: (A64Low, Core))
    requires
        c.wf(),
        s.err is None,
        operand_word(env, c, operand) is Some,
    ensures
        env.operand_to(s, operand, Reg(RES)).err is None,
        r.0 == env.normalize(env.operand_to(s, operand, Reg(RES)), Reg(RES), ty),
        r.0.err is None,
        takes(s, r.0, c, r.1),
        only_temps(c, r.1),
        r.1.reg(9) == brought(env, operand_word(env, c, operand).unwrap() as int, ty),
{
    takes_nothing(s, c);
    let x = operand_word(env, c, operand).unwrap();
    let t1 = env.operand_to(s, operand, Reg(RES));
    let c1 = operand_loads(env, s, s, operand, Reg(RES), c, c);
    let t2 = env.normalize(t1, Reg(RES), ty);
    let c2 = normalizing_wraps(env, s, t1, Reg(RES), ty, c, c1);
    low_bits_of_word(x as int, result_width(env, ty), env.repr_of(ty).signed);
    assert(wrap64(x as int) == x);
    assert(only_temps(c, c1));
    assert(only_temps(c1, c2));
    temps_trans(c, c1, c2);
    (t2, c2)
}

/// The code of a unary operation, before its result is stored.
pub open spec fn operated(env: A64Func, t: A64Low, un: UnOp, ty: TypeId) -> A64Low {
    match un {
        UnOp::Neg => env.normalize(t.on(t.text.neg(Reg(RES), Reg(RES))), Reg(RES), ty),
        UnOp::BitNot => env.normalize(t.on(t.text.mvn(Reg(RES), Reg(RES))), Reg(RES), ty),
        UnOp::Not => {
            let t = t.on(t.text.mov_imm(Reg(S2), 1));
            t.on(t.text.eor(Reg(RES), Reg(RES), Reg(S2)))
        },
    }
}

#[verifier::spinoff_prover]
proof fn unary_runs(
    env: A64Func,
    s: A64Low,
    un: UnOp,
    operand: Operand,
    ty: TypeId,
    c: Core,
) -> (r: (A64Low, Core))
    requires
        c.wf(),
        s.err is None,
        operand_word(env, c, operand) is Some,
    ensures
        env.operand_to(s, operand, Reg(RES)).err is None,
        r.0 == operated(env, env.operand_to(s, operand, Reg(RES)), un, ty),
        r.0.err is None,
        takes(s, r.0, c, r.1),
        only_temps(c, r.1),
        ({
            let x = operand_word(env, c, operand).unwrap();
            let v = value_of(x, env.repr_of(ty).signed);
            r.1.reg(9) == match un {
                UnOp::Neg => brought(env, -v, ty),
                UnOp::BitNot => brought(env, -1 - v, ty),
                UnOp::Not => x ^ 1,
            }
        }),
{
    takes_nothing(s, c);
    let a = Reg(RES);
    let x = operand_word(env, c, operand).unwrap();
    let signed = env.repr_of(ty).signed;
    let v = value_of(x, signed);
    let t = env.operand_to(s, operand, a);
    let c1 = operand_loads(env, s, s, operand, a, c, c);
    assert(only_temps(c, c1));
    words_combine(x, x, signed);
    reveal(combined);
    complement_of(x);
    let u = operated(env, t, un, ty);
    match un {
        UnOp::Neg => {
            let t1 = t.on(t.text.neg(a, a));
            neg_does(t.text, a, a);
            let c2 = binary_runs(s, t, t1, Alu::Minus, 9, 31, 9, c, c1);
            low_bits_of_word(-v, result_width(env, ty), signed);
            let d = normalizing_wraps(env, s, t1, a, ty, c, c2);
            assert(only_temps(c1, c2));
            assert(only_temps(c2, d));
            temps_trans(c, c1, c2);
            temps_trans(c, c2, d);
            (u, d)
        },
        UnOp::BitNot => {
            let t1 = t.on(t.text.mvn(a, a));
            mvn_does(t.text, a, a);
            let c2 = binary_runs(s, t, t1, Alu::OrNot, 9, 31, 9, c, c1);
            same_word(-1 - x, 0xFFFF_FFFF_FFFF_FFFF - x, -1);
            low_bits_of_word(-1 - v, result_width(env, ty), signed);
            let d = normalizing_wraps(env, s, t1, a, ty, c, c2);
            assert(only_temps(c1, c2));
            assert(only_temps(c2, d));
            temps_trans(c, c1, c2);
            temps_trans(c, c2, d);
            (u, d)
        },
        UnOp::Not => {
            let t1 = t.on(t.text.mov_imm(Reg(S2), 1));
            let c2 = number_is_loaded(s, t, Reg(S2), 1, c, c1);
            eor_does(t1.text, a, a, Reg(S2));
            let d = binary_runs(s, t1, u, Alu::Xor, 9, 9, 10, c, c2);
            assert(only_temps(c1, c2));
            assert(only_temps(c2, d));
            temps_trans(c, c1, c2);
            temps_trans(c, c2, d);
            (u, d)
        },
    }
}

/// A statement that assigns a scalar of a word to a whole local assigns the value that it
/// says: an integer operator's exact result or a conversion's operand, brought to the width of
/// the type, or the truth of a comparison. Operands are constants and whole locals.
pub proof fn assignment_simulates(
    env: A64Func,
    s: A64Low,
    stmt: Statement,
    l: LocalId,
    rvalue: Rvalue,
    c: Core,
) -> (d: Core)
    requires
        c.wf(),
        s.err is None,
        assigns(stmt, l, rvalue),
        in_space(c.reg(29) + env.home(l), 8),
        computed(env, c, l, rvalue) is Some,
    ensures
        takes(s, env.lower_stmt(s, stmt), c, d),
        env.lower_stmt(s, stmt).err is None,
        assigned(env, c, d, l, computed(env, c, l, rvalue).unwrap()),
{
    assert(env.lower_stmt(s, stmt) == env.lower_scalar_rvalue(s, l, rvalue)) by {
        reveal(A64Func::lower_stmt);
        reveal(A64Func::lower_rvalue);
    }
    match rvalue {
        Rvalue::Use(op) => {
            let (t, c1) = loaded_and_brought(env, s, op, env.local_ty(l), c);
            assert(env.lower_scalar_rvalue(s, l, rvalue) == env.store_scalar(t, l, Reg(RES))) by {
                reveal(A64Func::lower_scalar_rvalue);
            }
            result_is_stored(env, s, t, l, c, c1, c)
        },
        Rvalue::Binary { op, lhs, rhs, ty } => {
            let t = env.eval_binary(s, op, lhs, rhs, ty);
            let c1 = operator_is_right(env, s, op, lhs, rhs, ty, c);
            assert(env.lower_scalar_rvalue(s, l, rvalue) == env.store_scalar(t, l, Reg(RES))) by {
                reveal(A64Func::lower_scalar_rvalue);
            }
            result_is_stored(env, s, t, l, c, c1, c)
        },
        Rvalue::Unary { un, operand, ty } => {
            let (t, c1) = unary_runs(env, s, un, operand, ty, c);
            assert(env.lower_scalar_rvalue(s, l, rvalue) == env.store_scalar(t, l, Reg(RES))) by {
                reveal(A64Func::lower_scalar_rvalue);
                reveal(A64Func::lower_unary);
            }
            result_is_stored(env, s, t, l, c, c1, c)
        },
        Rvalue::Cast { kind, operand, ty } => {
            let (t, c1) = loaded_and_brought(env, s, operand, ty, c);
            assert(env.lower_scalar_rvalue(s, l, rvalue) == env.store_scalar(t, l, Reg(RES))) by {
                reveal(A64Func::lower_scalar_rvalue);
            }
            result_is_stored(env, s, t, l, c, c1, c)
        },
        _ => c,
    }
}

} // verus!
