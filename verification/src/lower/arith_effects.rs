//! What lowered integer operators compute.
use vstd::prelude::*;

use crate::bytes::wrap64;
use crate::lower::effects::{
    comparison_is_right, holds, load_reads, low_bits, normalizing_wraps, only_regs, scalar_width,
    takes, takes_nothing,
};
use crate::lower::env::{Env, LowState};
use crate::lower::follow::{
    follow_add_rr, follow_and_rr, follow_cqo, follow_div_r, follow_idiv_r, follow_imul_rr,
    follow_mov_ri, follow_mov_rr, follow_neg_r, follow_not_r, follow_or_rr, follow_sar_cl,
    follow_shl_cl, follow_shr_cl, follow_sub_rr, follow_xor_ri, follow_xor_rr, follow_zero_rdx,
};
use crate::lower::values::{cc_of, compares};
use crate::machine::{
    Cpu, SPAN, Shift, fetch, in_space, is_signed64, low_bytes, shifted, signed64, toward_zero,
};
use crate::mir::{BinOp, Const, LocalId, Operand, UnOp};
use crate::reg::{Gpr, gpr_codes_distinct};
use crate::steps::index;
use crate::types::TypeId;
use vstd::arithmetic::div_mod::{
    lemma_fundamental_div_mod, lemma_mod_mod, lemma_mod_multiples_vanish,
};
use vstd::arithmetic::power2::{
    lemma2_to64, lemma2_to64_rest, lemma_pow2_adds, lemma_pow2_pos, pow2,
};

verus! {

// ---------------------------------------------------------------------------
//  Words and numbers
// ---------------------------------------------------------------------------

/// Numbers that differ by whole words have the same word.
pub proof fn same_word(a: int, b: int, k: int)
    requires
        a == b + k * SPAN,
    ensures
        wrap64(a) == wrap64(b),
{
    lemma_mod_multiples_vanish(k, b, SPAN as int);
    assert(k * SPAN == SPAN * k);
}

/// The word of the low bits of a number is that of the low bits of its word.
pub proof fn low_bits_of_word(v: int, w: nat, signed: bool)
    requires
        1 <= w <= 64,
    ensures
        low_bits(wrap64(v) as int, w, signed) == low_bits(v, w, signed),
        wrap64(low_bits(v, 64, signed)) == wrap64(v),
{
    let p = pow2(w) as int;
    let q = pow2((64 - w) as nat) as int;
    lemma_pow2_pos(w);
    lemma_pow2_pos((64 - w) as nat);
    lemma_pow2_adds(w, (64 - w) as nat);
    lemma2_to64_rest();
    assert(p * q == SPAN);
    lemma_mod_mod(v, p, q);
    let u = v % (SPAN as int);
    assert(low_bits(v, 64, signed) == u || low_bits(v, 64, signed) == u - SPAN);
    same_word(u - SPAN, u, -1);
    lemma_fundamental_div_mod(v, SPAN as int);
    same_word(v, u, v / (SPAN as int));
}

/// The number that a word stands for.
pub open spec fn value_of(x: u64, signed: bool) -> int {
    if signed {
        signed64(x)
    } else {
        x as int
    }
}

pub(crate) proof fn value_is_word(x: u64, signed: bool) -> (k: int)
    ensures
        value_of(x, signed) == x + k * SPAN,
        k == 0 || k == -1,
{
    if signed && x >= 0x8000_0000_0000_0000 {
        -1
    } else {
        0
    }
}

pub(crate) proof fn words_combine(x: u64, y: u64, signed: bool)
    ensures
        wrap64(x + y) == wrap64(value_of(x, signed) + value_of(y, signed)),
        wrap64(x - y) == wrap64(value_of(x, signed) - value_of(y, signed)),
        wrap64(signed64(x) * signed64(y)) == wrap64(value_of(x, signed) * value_of(y, signed)),
        wrap64(-x) == wrap64(-value_of(x, signed)),
        wrap64(-1 - x) == wrap64(-1 - value_of(x, signed)),
{
    let j = value_is_word(x, signed);
    let k = value_is_word(y, signed);
    let a = value_of(x, signed);
    let b = value_of(y, signed);
    assert((j + k) * SPAN == j * SPAN + k * SPAN && (j - k) * SPAN == j * SPAN - k * SPAN && (-j)
        * SPAN == -(j * SPAN)) by (nonlinear_arith);
    same_word(a + b, x + y, j + k);
    same_word(a - b, x - y, j - k);
    same_word(-a, -x, -j);
    same_word(-1 - a, -1 - x, -j);
    if !signed {
        let m = value_is_word(x, true);
        let n = value_is_word(y, true);
        assert((x + m * SPAN) * (y + n * SPAN) == x * y + (m * y + n * x + m * n * SPAN) * SPAN)
            by (nonlinear_arith);
        same_word(signed64(x) * signed64(y), x * y, m * y + n * x + m * n * SPAN);
    }
}

proof fn shifts_combine(x: u64, n: int, signed: bool)
    requires
        0 <= n,
    ensures
        wrap64(shifted(Shift::Left, x, n)) == wrap64(
            value_of(x, signed) * (pow2((n % 64) as nat) as int),
        ),
        shifted(Shift::Right, x, n) == value_of(x, false) / (pow2((n % 64) as nat) as int),
        shifted(Shift::Signed, x, n) == value_of(x, true) / (pow2((n % 64) as nat) as int),
{
    reveal(shifted);
    let p = pow2((n % 64) as nat) as int;
    let k = value_is_word(x, signed);
    assert((x + k * SPAN) * p == x * p + (k * p) * SPAN) by (nonlinear_arith);
    same_word(value_of(x, signed) * p, x * p, k * p);
}

// ---------------------------------------------------------------------------
//  Operands
// ---------------------------------------------------------------------------

/// The word that a scalar constant is.
pub open spec fn constant_word(env: Env, k: Const) -> Option<u64> {
    match k {
        Const::Int { value, ty } => Some(wrap64(env.const_int_bits(value, ty) as int)),
        Const::Bool(b) => Some(
            if b {
                1
            } else {
                0
            },
        ),
        Const::Void => Some(0),
        Const::EnumVal { variant, .. } => Some(wrap64((variant as i64) as int)),
        Const::ErrVal { tag, .. } => Some(tag.0 as u64),
        Const::Undef { .. } => Some(0),
        _ => None,
    }
}

/// The word of a local: in its register, else in its home, else zero.
#[verifier::opaque]
pub open spec fn local_word(env: Env, c: Cpu, l: LocalId) -> Option<u64> {
    match env.reg_of(l) {
        Some(r) => Some(c.reg(index(r))),
        None => match env.home(l) {
            Some(h) => {
                let ty = env.local_ty(l);
                let n = scalar_width(env, ty);
                if in_space(c.reg(5) + h, n) {
                    Some(
                        wrap64(
                            low_bytes(fetch(c.mem, c.reg(5) + h, n), n, env.repr_of(ty).signed),
                        ),
                    )
                } else {
                    None
                }
            },
            None => Some(0),
        },
    }
}

/// The word of a constant or a whole local.
pub open spec fn operand_word(env: Env, c: Cpu, op: Operand) -> Option<u64> {
    match op {
        Operand::Const(k) => constant_word(env, k),
        Operand::Copy(p) => if p.proj@.len() == 0 {
            local_word(env, c, p.base)
        } else {
            None
        },
    }
}

/// Whether an operand lives in a register.
pub open spec fn in_register(env: Env, op: Operand, r: Gpr) -> bool {
    op matches Operand::Copy(p) && env.reg_of(p.base) == Some(r)
}

/// An operand that is a constant or a whole local is loaded as its word; nothing else
/// changes.
#[verifier::spinoff_prover]
pub proof fn operand_loads(
    env: Env,
    s: LowState,
    t: LowState,
    op: Operand,
    dst: Gpr,
    c: Cpu,
    d: Cpu,
) -> (e: Cpu)
    requires
        takes(s, t, c, d),
        d.wf(),
        t.err is None,
        operand_word(env, d, op) is Some,
    ensures
        takes(s, env.operand_to(t, op, dst), c, e),
        env.operand_to(t, op, dst).err is None,
        e == d.put(index(dst), operand_word(env, d, op).unwrap() as int),
{
    match op {
        Operand::Const(k) => {
            reveal(Env::const_to);
            let w: i64 = match k {
                Const::Int { value, ty } => env.const_int_bits(value, ty),
                Const::Bool(b) => b as i64,
                Const::EnumVal { variant, .. } => variant as i64,
                Const::ErrVal { tag, .. } => tag.0 as i64,
                _ => 0,
            };
            follow_mov_ri(s, t, dst, w, c, d)
        },
        Operand::Copy(p) => {
            reveal(Env::local_to);
            reveal(local_word);
            match env.reg_of(p.base) {
                Some(r) => if r != dst {
                    follow_mov_rr(s, t, dst, r, c, d)
                } else {
                    assert(d.regs =~= d.put(index(dst), d.reg(index(r)) as int).regs);
                    d
                },
                None => match env.home(p.base) {
                    Some(h) => {
                        assert(index(Gpr::Rbp) == 5);
                        load_reads(env, s, t, dst, Gpr::Rbp, h, env.local_ty(p.base), c, d)
                    },
                    None => follow_mov_ri(s, t, dst, 0, c, d),
                },
            }
        },
    }
}

// ---------------------------------------------------------------------------
//  Operators
// ---------------------------------------------------------------------------

/// The width to which results of a type are brought.
pub open spec fn result_width(env: Env, ty: TypeId) -> nat {
    let w = env.repr_of(ty).width;
    if 1 <= w < 64 {
        w as nat
    } else {
        64
    }
}

/// The result of an operator as an exact number.
pub open spec fn exact(op: BinOp, x: u64, y: u64, signed: bool) -> int {
    let a = value_of(x, signed);
    let b = value_of(y, signed);
    match op {
        BinOp::Add => a + b,
        BinOp::Sub => a - b,
        BinOp::Mul => a * b,
        BinOp::BitAnd => (x & y) as int,
        BinOp::BitOr => (x | y) as int,
        BinOp::BitXor => (x ^ y) as int,
        BinOp::Div => toward_zero(a, b),
        BinOp::Rem => a - toward_zero(a, b) * b,
        BinOp::Shl => a * (pow2((y % 64) as nat) as int),
        _ => a / (pow2((y % 64) as nat) as int),
    }
}

/// Whether an operator has a result: no division by zero, and no quotient beyond a word.
pub open spec fn has_result(op: BinOp, x: u64, y: u64, signed: bool) -> bool {
    op == BinOp::Div || op == BinOp::Rem ==> y != 0 && (signed ==> is_signed64(
        toward_zero(signed64(x), signed64(y)),
    ))
}

#[verifier::spinoff_prover]
proof fn operator_runs(
    env: Env,
    s: LowState,
    t: LowState,
    op: BinOp,
    ty: TypeId,
    c: Cpu,
    d: Cpu,
) -> (e: Cpu)
    requires
        takes(s, t, c, d),
        d.wf(),
        !compares(op),
        op != BinOp::Div && op != BinOp::Rem,
    ensures
        takes(s, operated(env, t, op, ty), c, e),
        only_regs(d, e, Gpr::Rax, Gpr::Rax),
        e.reg(0) == wrap64(exact(op, d.reg(0), d.reg(1), env.repr_of(ty).signed)),
{
    let x = d.reg(0);
    let y = d.reg(1);
    let signed = env.repr_of(ty).signed;
    assert(index(Gpr::Rax) == 0 && index(Gpr::Rcx) == 1);
    words_combine(x, y, signed);
    assert(y as int % 256 % 64 == y as int % 64);
    match op {
        BinOp::Add => follow_add_rr(s, t, Gpr::Rax, Gpr::Rcx, c, d),
        BinOp::Sub => follow_sub_rr(s, t, Gpr::Rax, Gpr::Rcx, c, d),
        BinOp::Mul => follow_imul_rr(s, t, Gpr::Rax, Gpr::Rcx, c, d),
        BinOp::BitAnd => follow_and_rr(s, t, Gpr::Rax, Gpr::Rcx, c, d),
        BinOp::BitOr => follow_or_rr(s, t, Gpr::Rax, Gpr::Rcx, c, d),
        BinOp::BitXor => follow_xor_rr(s, t, Gpr::Rax, Gpr::Rcx, c, d),
        BinOp::Shl => {
            shifts_combine(x, y as int % 256, signed);
            follow_shl_cl(s, t, Gpr::Rax, c, d)
        },
        _ => {
            shifts_combine(x, y as int % 256, signed);
            if signed {
                follow_sar_cl(s, t, Gpr::Rax, c, d)
            } else {
                follow_shr_cl(s, t, Gpr::Rax, c, d)
            }
        },
    }
}

/// The code of an operator on `rax` and `rcx`, before its result is brought to its width.
pub open spec fn operated(env: Env, s: LowState, op: BinOp, ty: TypeId) -> LowState {
    match op {
        BinOp::Add => s.on(s.text.add_rr(Gpr::Rax, Gpr::Rcx)),
        BinOp::Sub => s.on(s.text.sub_rr(Gpr::Rax, Gpr::Rcx)),
        BinOp::Mul => s.on(s.text.imul_rr(Gpr::Rax, Gpr::Rcx)),
        BinOp::BitAnd => s.on(s.text.and_rr(Gpr::Rax, Gpr::Rcx)),
        BinOp::BitOr => s.on(s.text.or_rr(Gpr::Rax, Gpr::Rcx)),
        BinOp::BitXor => s.on(s.text.xor_rr(Gpr::Rax, Gpr::Rcx)),
        BinOp::Div => env.divide(s, ty),
        BinOp::Rem => {
            let s = env.divide(s, ty);
            s.on(s.text.mov_rr(Gpr::Rax, Gpr::Rdx))
        },
        BinOp::Shl => s.on(s.text.shl_cl(Gpr::Rax)),
        _ => if env.repr_of(ty).signed {
            s.on(s.text.sar_cl(Gpr::Rax))
        } else {
            s.on(s.text.shr_cl(Gpr::Rax))
        },
    }
}

/// Whether `d` differs from `c` in no register but `rax`, `rcx` and `rdx`, and not in memory.
pub open spec fn only_scratch(c: Cpu, d: Cpu) -> bool {
    &&& d.wf()
    &&& d.mem == c.mem
    &&& d.state == c.state
    &&& d.data == c.data
    &&& forall|r: int| 3 <= r < 16 ==> #[trigger] d.reg(r) == c.reg(r)
}

#[verifier::spinoff_prover]
proof fn division_runs(
    env: Env,
    s: LowState,
    t: LowState,
    ty: TypeId,
    c: Cpu,
    d: Cpu,
) -> (e: Cpu)
    requires
        takes(s, t, c, d),
        d.wf(),
        has_result(BinOp::Div, d.reg(0), d.reg(1), env.repr_of(ty).signed),
    ensures
        takes(s, env.divide(t, ty), c, e),
        only_scratch(d, e),
        e.reg(0) == wrap64(exact(BinOp::Div, d.reg(0), d.reg(1), env.repr_of(ty).signed)),
        e.reg(2) == wrap64(exact(BinOp::Rem, d.reg(0), d.reg(1), env.repr_of(ty).signed)),
{
    reveal(Env::divide);
    let x = d.reg(0);
    let y = d.reg(1);
    assert(index(Gpr::Rcx) == 1);
    if env.repr_of(ty).signed {
        let t1 = t.on(t.text.cqo());
        let d1 = follow_cqo(s, t, c, d);
        assert(signed64(d1.reg(2)) * SPAN + d1.reg(0) == signed64(x));
        follow_idiv_r(s, t1, Gpr::Rcx, c, d1)
    } else {
        let t1 = t.on(t.text.zero_rdx());
        let d1 = follow_zero_rdx(s, t, c, d);
        let z = d.reg(2);
        assert(z ^ z == 0) by (bit_vector);
        assert(d1.reg(2) * SPAN + d1.reg(0) == x);
        let q = x as int / (y as int);
        assert(0 <= q <= x) by {
            lemma_fundamental_div_mod(x as int, y as int);
            assert(q <= x) by (nonlinear_arith)
                requires
                    x == y * q + x as int % (y as int),
                    0 <= x as int % (y as int),
                    y >= 1,
            ;
            assert(q >= 0) by (nonlinear_arith)
                requires
                    q == x as int / (y as int),
                    x >= 0,
                    y >= 1,
            ;
        }
        assert(x as int % (y as int) == x - q * y) by {
            lemma_fundamental_div_mod(x as int, y as int);
            assert(y * q == q * y) by (nonlinear_arith);
        }
        follow_div_r(s, t1, Gpr::Rcx, c, d1)
    }
}

#[verifier::spinoff_prover]
proof fn operation_runs(
    env: Env,
    s: LowState,
    t: LowState,
    op: BinOp,
    ty: TypeId,
    c: Cpu,
    d: Cpu,
) -> (e: Cpu)
    requires
        takes(s, t, c, d),
        d.wf(),
        !compares(op),
        has_result(op, d.reg(0), d.reg(1), env.repr_of(ty).signed),
    ensures
        takes(s, operated(env, t, op, ty), c, e),
        only_scratch(d, e),
        e.reg(0) == wrap64(exact(op, d.reg(0), d.reg(1), env.repr_of(ty).signed)),
{
    if op == BinOp::Div {
        division_runs(env, s, t, ty, c, d)
    } else if op == BinOp::Rem {
        let t1 = env.divide(t, ty);
        let q = division_runs(env, s, t, ty, c, d);
        assert(index(Gpr::Rax) == 0 && index(Gpr::Rdx) == 2);
        let e = follow_mov_rr(s, t1, Gpr::Rax, Gpr::Rdx, c, q);
        assert forall|r: int| 3 <= r < 16 implies #[trigger] e.reg(r) == d.reg(r) by {
            assert(q.reg(r) == d.reg(r));
        }
        e
    } else {
        operator_runs(env, s, t, op, ty, c, d)
    }
}

/// An integer operator on constants and whole locals computes its exact result, brought to
/// the width of its type: the low bits, extended as the type is signed or not. No memory
/// changes, and no register but `rax`, `rcx` and `rdx`.
pub proof fn operator_is_right(
    env: Env,
    s: LowState,
    op: BinOp,
    lhs: Operand,
    rhs: Operand,
    ty: TypeId,
    c: Cpu,
) -> (d: Cpu)
    requires
        c.wf(),
        s.err is None,
        !compares(op),
        operand_word(env, c, lhs) is Some,
        operand_word(env, c, rhs) is Some,
        !in_register(env, rhs, Gpr::Rax),
        has_result(
            op,
            operand_word(env, c, lhs).unwrap(),
            operand_word(env, c, rhs).unwrap(),
            env.repr_of(ty).signed,
        ),
    ensures
        takes(s, env.eval_binary_into_rax(s, op, lhs, rhs, ty), c, d),
        env.eval_binary_into_rax(s, op, lhs, rhs, ty).err is None,
        only_scratch(c, d),
        d.reg(0) == wrap64(
            low_bits(
                exact(
                    op,
                    operand_word(env, c, lhs).unwrap(),
                    operand_word(env, c, rhs).unwrap(),
                    env.repr_of(ty).signed,
                ),
                result_width(env, ty),
                env.repr_of(ty).signed,
            ),
        ),
{
    let x = operand_word(env, c, lhs).unwrap();
    let y = operand_word(env, c, rhs).unwrap();
    let signed = env.repr_of(ty).signed;
    let (t, c2) = operands_load(env, s, lhs, rhs, c);
    let u = operated(env, t, op, ty);
    let c3 = operation_runs(env, s, t, op, ty, c, c2);
    assert(env.eval_binary_into_rax(s, op, lhs, rhs, ty) == env.normalize(u, Gpr::Rax, ty)) by {
        reveal(Env::eval_binary_into_rax);
        reveal(Env::divide);
    }
    assert(env.normalize(u, Gpr::Rax, ty).err is None) by {
        reveal(Env::divide);
        reveal(Env::normalize);
        reveal(Env::normalize_signed_other);
        reveal(Env::normalize_unsigned_other);
    }
    low_bits_of_word(exact(op, x, y, signed), result_width(env, ty), signed);
    let d = normalizing_wraps(env, s, u, Gpr::Rax, ty, c, c3);
    assert forall|r: int| 3 <= r < 16 implies #[trigger] d.reg(r) == c.reg(r) by {
        assert(c2.reg(r) == c.reg(r));
        assert(c3.reg(r) == c2.reg(r));
    }
    d
}

pub(crate) proof fn operands_load(
    env: Env,
    s: LowState,
    lhs: Operand,
    rhs: Operand,
    c: Cpu,
) -> (r: (
    LowState,
    Cpu,
))
    requires
        c.wf(),
        s.err is None,
        operand_word(env, c, lhs) is Some,
        operand_word(env, c, rhs) is Some,
        !in_register(env, rhs, Gpr::Rax),
    ensures
        r.0 == env.operand_to(env.operand_to(s, lhs, Gpr::Rax), rhs, Gpr::Rcx),
        env.operand_to(s, lhs, Gpr::Rax).err is None,
        r.0.err is None,
        takes(s, r.0, c, r.1),
        r.1 == c.put(0, operand_word(env, c, lhs).unwrap() as int).put(
            1,
            operand_word(env, c, rhs).unwrap() as int,
        ),
{
    takes_nothing(s, c);
    assert(index(Gpr::Rax) == 0 && index(Gpr::Rcx) == 1 && index(Gpr::Rbp) == 5);
    let t1 = env.operand_to(s, lhs, Gpr::Rax);
    let c1 = operand_loads(env, s, s, lhs, Gpr::Rax, c, c);
    assert(operand_word(env, c1, rhs) == operand_word(env, c, rhs)) by {
        reveal(local_word);
        if let Operand::Copy(p) = rhs {
            if let Some(r) = env.reg_of(p.base) {
                gpr_codes_distinct(r, Gpr::Rax);
            }
        }
    }
    let t2 = env.operand_to(t1, rhs, Gpr::Rcx);
    let c2 = operand_loads(env, s, t1, rhs, Gpr::Rcx, c, c1);
    (t2, c2)
}

/// The code of a comparison of `rax` and `rcx`.
pub open spec fn compared(env: Env, t: LowState, op: BinOp, signed: bool) -> LowState {
    env.set_bool(t.on(t.text.cmp_rr(Gpr::Rax, Gpr::Rcx)), cc_of(op, signed))
}

/// A comparison of constants and whole locals leaves one in `rax` where it holds, and zero
/// where it does not. It is one of signed numbers where either operand is signed.
pub proof fn comparison_of_operands_is_right(
    env: Env,
    s: LowState,
    op: BinOp,
    lhs: Operand,
    rhs: Operand,
    c: Cpu,
) -> (d: Cpu)
    requires
        c.wf(),
        s.err is None,
        compares(op),
        !env.operand_is_float(lhs),
        !env.operand_is_wide(lhs),
        operand_word(env, c, lhs) is Some,
        operand_word(env, c, rhs) is Some,
        !in_register(env, rhs, Gpr::Rax),
    ensures
        takes(s, env.eval_compare_into_rax(s, op, lhs, rhs), c, d),
        env.eval_compare_into_rax(s, op, lhs, rhs).err is None,
        only_scratch(c, d),
        d.reg(0) == if holds(
            op,
            env.operand_signed(lhs) || env.operand_signed(rhs),
            operand_word(env, c, lhs).unwrap(),
            operand_word(env, c, rhs).unwrap(),
        ) {
            1u64
        } else {
            0u64
        },
{
    let signed = env.operand_signed(lhs) || env.operand_signed(rhs);
    let (t, c2) = operands_load(env, s, lhs, rhs, c);
    assert(env.eval_compare_into_rax(s, op, lhs, rhs) == compared(env, t, op, signed)) by {
        reveal(Env::eval_compare_into_rax);
    }
    assert(compared(env, t, op, signed).err is None) by {
        reveal(Env::set_bool);
    }
    let d = comparison_is_right(env, s, t, op, signed, c, c2);
    assert forall|r: int| 3 <= r < 16 implies #[trigger] d.reg(r) == c.reg(r) by {
        assert(c2.reg(r) == c.reg(r));
    }
    d
}

/// A unary operator on a constant or a whole local computes its result: the negative or the
/// complement, brought to the width of its type, or the other truth value.
pub proof fn unary_operator_is_right(
    env: Env,
    s: LowState,
    op: UnOp,
    operand: Operand,
    ty: TypeId,
    c: Cpu,
) -> (d: Cpu)
    requires
        c.wf(),
        s.err is None,
        operand_word(env, c, operand) is Some,
    ensures
        takes(s, env.eval_unary_into_rax(s, op, operand, ty), c, d),
        env.eval_unary_into_rax(s, op, operand, ty).err is None,
        only_scratch(c, d),
        ({
            let x = operand_word(env, c, operand).unwrap();
            let signed = env.repr_of(ty).signed;
            let w = result_width(env, ty);
            match op {
                UnOp::Neg => d.reg(0) == wrap64(low_bits(-value_of(x, signed), w, signed)),
                UnOp::BitNot => d.reg(0) == wrap64(
                    low_bits(-1 - value_of(x, signed), w, signed),
                ),
                UnOp::Not => d.reg(0) == x ^ 1,
            }
        }),
{
    takes_nothing(s, c);
    assert(index(Gpr::Rax) == 0);
    let t = env.operand_to(s, operand, Gpr::Rax);
    let c1 = operand_loads(env, s, s, operand, Gpr::Rax, c, c);
    assert(env.eval_unary_into_rax(s, op, operand, ty) == unary_operated(env, t, op, ty)) by {
        reveal(Env::eval_unary_into_rax);
    }
    let d = unary_runs(env, s, t, op, ty, c, c1);
    assert forall|r: int| 3 <= r < 16 implies #[trigger] d.reg(r) == c.reg(r) by {
        assert(c1.reg(r) == c.reg(r));
    }
    d
}

/// The code of a unary operator on `rax`.
pub open spec fn unary_operated(env: Env, t: LowState, op: UnOp, ty: TypeId) -> LowState {
    match op {
        UnOp::Neg => env.normalize(t.on(t.text.neg_r(Gpr::Rax)), Gpr::Rax, ty),
        UnOp::BitNot => env.normalize(t.on(t.text.not_r(Gpr::Rax)), Gpr::Rax, ty),
        UnOp::Not => t.on(t.text.xor_ri(Gpr::Rax, 1)),
    }
}

#[verifier::spinoff_prover]
proof fn unary_runs(
    env: Env,
    s: LowState,
    t: LowState,
    op: UnOp,
    ty: TypeId,
    c: Cpu,
    d: Cpu,
) -> (e: Cpu)
    requires
        takes(s, t, c, d),
        d.wf(),
        t.err is None,
    ensures
        takes(s, unary_operated(env, t, op, ty), c, e),
        unary_operated(env, t, op, ty).err is None,
        only_regs(d, e, Gpr::Rax, Gpr::Rcx),
        ({
            let x = d.reg(0);
            let signed = env.repr_of(ty).signed;
            let w = result_width(env, ty);
            match op {
                UnOp::Neg => e.reg(0) == wrap64(low_bits(-value_of(x, signed), w, signed)),
                UnOp::BitNot => e.reg(0) == wrap64(
                    low_bits(-1 - value_of(x, signed), w, signed),
                ),
                UnOp::Not => e.reg(0) == x ^ 1,
            }
        }),
{
    assert(index(Gpr::Rax) == 0 && index(Gpr::Rcx) == 1);
    let x = d.reg(0);
    let signed = env.repr_of(ty).signed;
    let w = result_width(env, ty);
    words_combine(x, x, signed);
    assert(unary_operated(env, t, op, ty).err is None) by {
        reveal(Env::normalize);
        reveal(Env::normalize_signed_other);
        reveal(Env::normalize_unsigned_other);
    }
    match op {
        UnOp::Neg => {
            let t1 = t.on(t.text.neg_r(Gpr::Rax));
            let d1 = follow_neg_r(s, t, Gpr::Rax, c, d);
            low_bits_of_word(-value_of(x, signed), w, signed);
            normalizing_wraps(env, s, t1, Gpr::Rax, ty, c, d1)
        },
        UnOp::BitNot => {
            let t1 = t.on(t.text.not_r(Gpr::Rax));
            let d1 = follow_not_r(s, t, Gpr::Rax, c, d);
            low_bits_of_word(-1 - value_of(x, signed), w, signed);
            normalizing_wraps(env, s, t1, Gpr::Rax, ty, c, d1)
        },
        UnOp::Not => follow_xor_ri(s, t, Gpr::Rax, 1, c, d),
    }
}

} // verus!
