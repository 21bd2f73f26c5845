//! What lowered code does with floats: it loads and stores their bits, compares and converts
//! the numbers that they stand for, and computes with them.
use vstd::prelude::*;

use crate::encode::Cc;
use crate::bytes::wrap64;
use crate::floats::{FloatOp, computed, from_integer, is_finite, is_nan, value, whole_part};
use crate::lower::arith_effects::local_word;
use crate::lower::assign_effects::{
    assigned, assigned_local_reads, assigns, home_in_space, result_is_stored,
};
use crate::lower::effects::{
    keeps, low_bits, normalizing_wraps, scalar_width, set_bool_runs, takes, takes_nothing,
};
use crate::lower::env::{Env, LowState};
use crate::lower::follow::{
    follow_addsd, follow_cvtsi2sd, follow_cvttsd2si, follow_divsd, follow_mov_ri,
    follow_movq_xmm_r64, follow_movsd_load, follow_movsd_store, follow_mulsd, follow_subsd,
    follow_ucomisd,
};
use crate::lower::mem_effects::kept_but;
use crate::lower::operand_effects::{addressable, scalar_loads, scalar_word};
use crate::lower::place_effects::{address_is_right, address_of, general_address};
use crate::lower::scalar::as_signed;
use crate::lower::simulation::takes_compose;
use crate::lower::values::compares;
use crate::lower::wide_effects::{
    frame_stays, keeping_follows, led_stays, outside_scratch, same_outside, scratch,
};
use crate::machine::{
    Cpu, cut_off, fetch, in_space, is_signed64, pow256_values, signed64, written_is_read,
};
use crate::mir::{BinOp, CastKind, Const, LocalId, Operand, Rvalue, Statement};
use crate::reg::{Gpr, Xmm, gpr_codes_distinct};
use crate::steps::{float_index, index};
use crate::types::TypeId;

verus! {

/// The bits of a float operand: those of a constant, or the word that stands in a place.
pub open spec fn float_bits(env: Env, c: Cpu, op: Operand) -> Option<u64> {
    match op {
        Operand::Const(k) => match k {
            Const::Float { bits, .. } => Some(bits),
            _ => None,
        },
        Operand::Copy(p) => match address_of(env, c, p, p.proj@.len() as usize) {
            Some(a) => if in_space(a as int, 8) {
                Some(fetch(c.mem, a as int, 8) as u64)
            } else {
                None
            },
            None => None,
        },
    }
}

/// Whether a float operand has the same bits whatever expressions do to their registers.
pub open spec fn float_stands(env: Env, c: Cpu, op: Operand) -> bool {
    forall|d: Cpu|
        kept_but(c, d, scratch()) && d.mem == c.mem ==> #[trigger] float_bits(env, d, op)
            == float_bits(env, c, op)
}

/// A float operand that is reached through none of those registers has the same bits.
pub proof fn float_outside_scratch_stands(env: Env, c: Cpu, op: Operand)
    requires
        outside_scratch(env, op),
        op matches Operand::Copy(p) ==> p.proj@.len() <= usize::MAX,
    ensures
        float_stands(env, c, op),
{
    assert forall|d: Cpu| kept_but(c, d, scratch()) && d.mem == c.mem implies #[trigger] float_bits(
        env,
        d,
        op,
    ) == float_bits(env, c, op) by {
        frame_stays(c, d);
        if let Operand::Copy(p) = op {
            let n = p.proj@.len() as usize;
            if let Some(h) = env.home(p.base) {
                led_stays(env, c, d, p, 0, n, wrap64(c.reg(5) + h));
            } else if let Some(r) = env.reg_of(p.base) {
                assert(d.reg(index(r)) == c.reg(index(r)));
                led_stays(env, c, d, p, 1, n, c.reg(index(r)));
            }
        }
    }
}

proof fn bits_come_back(bits: u64)
    ensures
        wrap64(as_signed(bits) as int) == bits,
{
}

proof fn loading_keeps(c: Cpu, d: Cpu)
    requires
        d.wf(),
        d.state == c.state,
        d.data == c.data,
        forall|r: int|
            0 <= r < 16 && r != 0 && r != 10 && r != 11 ==> #[trigger] d.reg(r) == c.reg(r),
    ensures
        kept_but(c, d, scratch()),
{
    assert(index(Gpr::Rax) == 0 && index(Gpr::R10) == 10 && index(Gpr::R11) == 11);
    assert forall|q: Gpr| !scratch().contains(q) implies #[trigger] d.reg(index(q)) == c.reg(
        index(q),
    ) by {
        gpr_codes_distinct(q, Gpr::Rax);
        gpr_codes_distinct(q, Gpr::R10);
        gpr_codes_distinct(q, Gpr::R11);
    }
}

#[verifier::spinoff_prover]
proof fn float_in_memory_is_loaded(env: Env, s: LowState, op: Operand, dst: Xmm, c: Cpu) -> (d: Cpu)
    requires
        c.wf(),
        s.err is None,
        op is Copy,
        addressable(env, op),
        float_bits(env, c, op) is Some,
    ensures
        takes(s, env.load_float_operand(s, op, dst), c, d),
        env.load_float_operand(s, op, dst).err is None,
        d.floats == c.floats.update(float_index(dst), float_bits(env, c, op).unwrap()),
        kept_but(c, d, scratch()),
        d.mem == c.mem,
{
    assert(index(Gpr::R10) == 10 && index(Gpr::R11) == 11);
    let p = op->Copy_0;
    let n = p.proj@.len() as usize;
    general_address(env, s, p, n, Gpr::R11, c);
    let t = env.place_addr(s, p, n, Gpr::R11);
    let c1 = address_is_right(env, s, p, n, Gpr::R11, c);
    let d = follow_movsd_load(s, t, dst, Gpr::R11, 0, c, c1);
    assert(env.load_float_operand(s, op, dst) == t.on(t.text.movsd_load(dst, Gpr::R11, 0))) by {
        reveal(Env::load_float_operand);
    }
    assert forall|r: int| 0 <= r < 16 && r != 0 && r != 10 && r != 11 implies #[trigger] d.reg(r)
        == c.reg(r) by {
        assert(c1.reg(r) == c.reg(r));
    }
    loading_keeps(c, d);
    d
}

/// A float operand is loaded bit by bit; no other floating-point register changes, and no
/// memory.
#[verifier::spinoff_prover]
pub proof fn float_is_loaded(env: Env, s: LowState, op: Operand, dst: Xmm, c: Cpu) -> (d: Cpu)
    requires
        c.wf(),
        s.err is None,
        addressable(env, op),
        float_bits(env, c, op) is Some,
    ensures
        takes(s, env.load_float_operand(s, op, dst), c, d),
        env.load_float_operand(s, op, dst).err is None,
        d.floats == c.floats.update(float_index(dst), float_bits(env, c, op).unwrap()),
        kept_but(c, d, scratch()),
        d.mem == c.mem,
{
    match op {
        Operand::Copy(_) => float_in_memory_is_loaded(env, s, op, dst, c),
        Operand::Const(k) => {
            takes_nothing(s, c);
            assert(index(Gpr::Rax) == 0);
            let bits = k->Float_bits;
            bits_come_back(bits);
            let t = s.on(s.text.mov_ri(Gpr::Rax, as_signed(bits)));
            let c1 = follow_mov_ri(s, s, Gpr::Rax, as_signed(bits), c, c);
            let d = follow_movq_xmm_r64(s, t, dst, Gpr::Rax, c, c1);
            assert(env.load_float_operand(s, op, dst) == t.on(
                t.text.movq_xmm_r64(dst, Gpr::Rax),
            )) by {
                reveal(Env::load_float_operand);
            }
            loading_keeps(c, d);
            d
        },
    }
}

#[verifier::spinoff_prover]
proof fn both_are_loaded(env: Env, s: LowState, lhs: Operand, rhs: Operand, c: Cpu) -> (d: Cpu)
    requires
        c.wf(),
        c.has_floats(),
        s.err is None,
        addressable(env, lhs),
        addressable(env, rhs),
        float_bits(env, c, lhs) is Some,
        float_bits(env, c, rhs) is Some,
        float_stands(env, c, rhs),
    ensures
        ({
            let t = env.load_float_operand(s, lhs, Xmm::Xmm0);
            let u = env.load_float_operand(t, rhs, Xmm::Xmm1);
            &&& t.err is None
            &&& u.err is None
            &&& takes(s, u, c, d)
        }),
        d.has_floats(),
        d.floats[0] == float_bits(env, c, lhs).unwrap(),
        d.floats[1] == float_bits(env, c, rhs).unwrap(),
        kept_but(c, d, scratch()),
        d.mem == c.mem,
{
    assert(float_index(Xmm::Xmm0) == 0 && float_index(Xmm::Xmm1) == 1);
    let t = env.load_float_operand(s, lhs, Xmm::Xmm0);
    let c1 = float_is_loaded(env, s, lhs, Xmm::Xmm0, c);
    assert(float_bits(env, c1, rhs) == float_bits(env, c, rhs));
    let u = env.load_float_operand(t, rhs, Xmm::Xmm1);
    let d = float_is_loaded(env, t, rhs, Xmm::Xmm1, c1);
    takes_compose(s, t, u, c, c1, d);
    keeping_follows(c, c1, d);
    d
}

// ---------------------------------------------------------------------------
//  Comparisons
// ---------------------------------------------------------------------------

/// Whether a relation holds between two numbers.
pub open spec fn related(op: BinOp, x: int, y: int) -> bool {
    match op {
        BinOp::Eq => x == y,
        BinOp::Ne => x != y,
        BinOp::Lt => x < y,
        BinOp::Le => x <= y,
        BinOp::Gt => x > y,
        BinOp::Ge => x >= y,
        _ => false,
    }
}

/// How a comparison of two floats comes out. Where either is no number, it is as if the first
/// were both less than the second and equal to it.
pub open spec fn float_related(op: BinOp, a: u64, b: u64) -> bool {
    if is_nan(a) || is_nan(b) {
        op == BinOp::Eq || op == BinOp::Lt || op == BinOp::Le
    } else {
        related(op, value(a), value(b))
    }
}

/// One for what is so, zero for what is not.
pub open spec fn truth_word(b: bool) -> u64 {
    if b {
        1
    } else {
        0
    }
}

/// A comparison of floats leaves one in `rax` just where the relation holds between the
/// numbers that they stand for, else zero.
#[verifier::spinoff_prover]
#[verifier::rlimit(40)]
pub proof fn float_comparison_is_right(
    env: Env,
    s: LowState,
    op: BinOp,
    lhs: Operand,
    rhs: Operand,
    c: Cpu,
) -> (d: Cpu)
    requires
        c.wf(),
        c.has_floats(),
        s.err is None,
        compares(op),
        addressable(env, lhs),
        addressable(env, rhs),
        float_bits(env, c, lhs) is Some,
        float_bits(env, c, rhs) is Some,
        float_stands(env, c, rhs),
    ensures
        takes(s, env.lower_float_compare_into_rax(s, op, lhs, rhs), c, d),
        env.lower_float_compare_into_rax(s, op, lhs, rhs).err is None,
        d.reg(0) == truth_word(
            float_related(
                op,
                float_bits(env, c, lhs).unwrap(),
                float_bits(env, c, rhs).unwrap(),
            ),
        ),
        kept_but(c, d, scratch()),
        d.mem == c.mem,
{
    reveal(Env::lower_float_compare_into_rax);
    reveal(Env::set_bool);
    assert(float_index(Xmm::Xmm0) == 0 && float_index(Xmm::Xmm1) == 1 && index(Gpr::Rax) == 0);
    let a = float_bits(env, c, lhs).unwrap();
    let b = float_bits(env, c, rhs).unwrap();
    let t = env.load_float_operand(s, lhs, Xmm::Xmm0);
    let u = env.load_float_operand(t, rhs, Xmm::Xmm1);
    let c1 = both_are_loaded(env, s, lhs, rhs, c);
    let v = u.on(u.text.ucomisd(Xmm::Xmm0, Xmm::Xmm1));
    let c2 = follow_ucomisd(s, u, Xmm::Xmm0, Xmm::Xmm1, c, c1);
    let holds = float_related(op, a, b);
    let d = match op {
        BinOp::Eq => set_bool_runs(env, s, v, Cc::E, c, c2, holds),
        BinOp::Ne => set_bool_runs(env, s, v, Cc::Ne, c, c2, holds),
        BinOp::Lt => set_bool_runs(env, s, v, Cc::B, c, c2, holds),
        BinOp::Le => set_bool_runs(env, s, v, Cc::Be, c, c2, holds),
        BinOp::Gt => set_bool_runs(env, s, v, Cc::A, c, c2, holds),
        _ => set_bool_runs(env, s, v, Cc::Ae, c, c2, holds),
    };
    assert forall|q: Gpr| !scratch().contains(q) implies #[trigger] d.reg(index(q)) == c.reg(
        index(q),
    ) by {
        gpr_codes_distinct(q, Gpr::Rax);
        assert(c1.reg(index(q)) == c.reg(index(q)));
    }
    d
}

/// Whether `d` is `c` with a word assigned to a local: a read of the local gives it, and
/// nothing else changed but the registers that expressions use.
pub open spec fn reads_as(env: Env, c: Cpu, d: Cpu, l: LocalId, v: u64) -> bool {
    &&& local_word(env, d, l) == Some(v)
    &&& match env.reg_of(l) {
        Some(r) => kept_but(c, d, scratch().insert(r)) && d.mem == c.mem,
        None => kept_but(c, d, scratch()) && same_outside(
            c.mem,
            d.mem,
            c.reg(5) + env.home(l).unwrap(),
            scalar_width(env, env.local_ty(l)) as int,
        ),
    }
}

/// Whether a local can hold a word whole.
pub open spec fn can_hold(env: Env, c: Cpu, l: LocalId, v: u64) -> bool {
    &&& home_in_space(env, c, l)
    &&& env.reg_of(l) is Some || env.home(l) is Some && keeps(env, env.local_ty(l), v)
}

pub(crate) proof fn assigned_reads(env: Env, c: Cpu, b: Cpu, d: Cpu, l: LocalId, v: u64)
    requires
        kept_but(c, b, scratch()),
        b.mem == c.mem,
        assigned(env, b, d, l, v),
        can_hold(env, c, l, v),
    ensures
        reads_as(env, c, d, l, v),
{
    frame_stays(c, b);
    assigned_local_reads(env, b, d, l, v);
    assert(index(Gpr::Rax) == 0 && index(Gpr::Rcx) == 1 && index(Gpr::Rdx) == 2);
    match env.reg_of(l) {
        Some(r) => {
            assert forall|q: Gpr| !scratch().insert(r).contains(q) implies #[trigger] d.reg(
                index(q),
            ) == c.reg(index(q)) by {
                assert(q != r && !scratch().contains(q));
                gpr_codes_distinct(q, r);
                gpr_codes_distinct(q, Gpr::Rax);
                gpr_codes_distinct(q, Gpr::Rcx);
                gpr_codes_distinct(q, Gpr::Rdx);
                assert(b.reg(index(q)) == c.reg(index(q)));
            }
        },
        None => {
            assert forall|q: Gpr| !scratch().contains(q) implies #[trigger] d.reg(index(q))
                == c.reg(index(q)) by {
                gpr_codes_distinct(q, Gpr::Rax);
                gpr_codes_distinct(q, Gpr::Rcx);
                gpr_codes_distinct(q, Gpr::Rdx);
                assert(b.reg(index(q)) == c.reg(index(q)));
            }
        },
    }
}

/// A statement that assigns a comparison of floats to a local assigns one just where the
/// relation holds, else zero.
#[verifier::spinoff_prover]
pub proof fn float_comparison_is_assigned(
    env: Env,
    s: LowState,
    stmt: Statement,
    l: LocalId,
    op: BinOp,
    lhs: Operand,
    rhs: Operand,
    ty: TypeId,
    c: Cpu,
) -> (d: Cpu)
    requires
        c.wf(),
        c.has_floats(),
        s.err is None,
        assigns(stmt, l, Rvalue::Binary { op, lhs, rhs, ty }),
        env.effective_agg_ty(l, Rvalue::Binary { op, lhs, rhs, ty }) is None,
        compares(op),
        env.operand_is_float(lhs),
        !env.is_float(ty),
        !env.is_wide_int(ty),
        !env.is_wide_int(env.local_ty(l)),
        addressable(env, lhs),
        addressable(env, rhs),
        float_bits(env, c, lhs) is Some,
        float_bits(env, c, rhs) is Some,
        float_stands(env, c, rhs),
        can_hold(env, c, l, 0),
        can_hold(env, c, l, 1),
    ensures
        takes(s, env.lower_stmt(s, stmt), c, d),
        env.lower_stmt(s, stmt).err is None,
        reads_as(
            env,
            c,
            d,
            l,
            truth_word(
                float_related(
                    op,
                    float_bits(env, c, lhs).unwrap(),
                    float_bits(env, c, rhs).unwrap(),
                ),
            ),
        ),
{
    let t = env.lower_float_compare_into_rax(s, op, lhs, rhs);
    let c1 = float_comparison_is_right(env, s, op, lhs, rhs, c);
    frame_stays(c, c1);
    assert(env.lower_stmt(s, stmt) == env.store_scalar_result(t, l)) by {
        reveal(Env::lower_stmt);
        reveal(Env::lower_rvalue);
        reveal(Env::eval_binary_into_rax);
        reveal(Env::eval_compare_into_rax);
    }
    let d = result_is_stored(env, s, t, l, c, c1);
    assigned_reads(env, c, c1, d, l, c1.reg(0));
    d
}

// ---------------------------------------------------------------------------
//  Arithmetic, copies and conversions
// ---------------------------------------------------------------------------

/// Whether the home of a float local is in the address space.
pub open spec fn float_home(env: Env, c: Cpu, l: LocalId) -> bool {
    env.home(l) matches Some(h) && in_space(c.reg(5) + h, 8)
}

/// Whether `d` is `c` with a float in the home of a local, and nothing else changed but the
/// registers that expressions use.
pub open spec fn float_assigned(env: Env, c: Cpu, d: Cpu, l: LocalId, bits: u64) -> bool {
    let a = c.reg(5) + env.home(l).unwrap();
    &&& fetch(d.mem, a, 8) == bits
    &&& same_outside(c.mem, d.mem, a, 8)
    &&& kept_but(c, d, scratch())
}

#[verifier::spinoff_prover]
pub(crate) proof fn float_is_stored(
    env: Env,
    s: LowState,
    t: LowState,
    l: LocalId,
    c: Cpu,
    d: Cpu,
) -> (e: Cpu)
    requires
        takes(s, t, c, d),
        kept_but(c, d, scratch()),
        d.mem == c.mem,
        d.has_floats(),
        float_home(env, c, l),
    ensures
        takes(s, env.store_float_xmm0(t, l), c, e),
        env.store_float_xmm0(t, l).err == t.err,
        float_assigned(env, c, e, l, d.floats[0]),
{
    reveal(Env::store_float_xmm0);
    assert(float_index(Xmm::Xmm0) == 0 && index(Gpr::Rbp) == 5);
    frame_stays(c, d);
    let h = env.home(l).unwrap();
    let e = follow_movsd_store(s, t, Gpr::Rbp, h, Xmm::Xmm0, c, d);
    pow256_values();
    written_is_read(d.mem, c.reg(5) + h, 8, d.floats[0] as int);
    assert forall|q: Gpr| !scratch().contains(q) implies #[trigger] e.reg(index(q)) == c.reg(
        index(q),
    ) by {
        assert(d.reg(index(q)) == c.reg(index(q)));
    }
    e
}

/// The operation of an operator.
pub open spec fn float_operation(op: BinOp) -> Option<FloatOp> {
    match op {
        BinOp::Add => Some(FloatOp::Plus),
        BinOp::Sub => Some(FloatOp::Minus),
        BinOp::Mul => Some(FloatOp::Times),
        BinOp::Div => Some(FloatOp::Over),
        _ => None,
    }
}

/// A statement that assigns the sum, difference, product or quotient of two floats to a local
/// leaves there the number nearest to the exact result.
#[verifier::spinoff_prover]
#[verifier::rlimit(40)]
pub proof fn float_operator_is_assigned(
    env: Env,
    s: LowState,
    stmt: Statement,
    l: LocalId,
    op: BinOp,
    lhs: Operand,
    rhs: Operand,
    ty: TypeId,
    c: Cpu,
) -> (d: Cpu)
    requires
        c.wf(),
        c.has_floats(),
        s.err is None,
        assigns(stmt, l, Rvalue::Binary { op, lhs, rhs, ty }),
        env.effective_agg_ty(l, Rvalue::Binary { op, lhs, rhs, ty }) is None,
        env.is_float(ty),
        float_operation(op) is Some,
        addressable(env, lhs),
        addressable(env, rhs),
        float_bits(env, c, lhs) is Some,
        float_bits(env, c, rhs) is Some,
        float_stands(env, c, rhs),
        computed(
            float_operation(op).unwrap(),
            float_bits(env, c, lhs).unwrap(),
            float_bits(env, c, rhs).unwrap(),
        ) is Some,
        float_home(env, c, l),
    ensures
        takes(s, env.lower_stmt(s, stmt), c, d),
        env.lower_stmt(s, stmt).err is None,
        float_assigned(
            env,
            c,
            d,
            l,
            computed(
                float_operation(op).unwrap(),
                float_bits(env, c, lhs).unwrap(),
                float_bits(env, c, rhs).unwrap(),
            ).unwrap(),
        ),
{
    assert(float_index(Xmm::Xmm0) == 0 && float_index(Xmm::Xmm1) == 1);
    let t = env.load_float_operand(s, lhs, Xmm::Xmm0);
    let u = env.load_float_operand(t, rhs, Xmm::Xmm1);
    let c1 = both_are_loaded(env, s, lhs, rhs, c);
    let x = Xmm::Xmm0;
    let y = Xmm::Xmm1;
    let (v, c2) = match op {
        BinOp::Add => (u.on(u.text.addsd(x, y)), follow_addsd(s, u, x, y, c, c1)),
        BinOp::Sub => (u.on(u.text.subsd(x, y)), follow_subsd(s, u, x, y, c, c1)),
        BinOp::Mul => (u.on(u.text.mulsd(x, y)), follow_mulsd(s, u, x, y, c, c1)),
        _ => (u.on(u.text.divsd(x, y)), follow_divsd(s, u, x, y, c, c1)),
    };
    assert(env.lower_stmt(s, stmt) == env.store_float_xmm0(v, l)) by {
        reveal(Env::lower_stmt);
        reveal(Env::lower_rvalue);
        reveal(Env::lower_float_binary);
    }
    assert(kept_but(c, c2, scratch())) by {
        assert forall|q: Gpr| !scratch().contains(q) implies #[trigger] c2.reg(index(q)) == c.reg(
            index(q),
        ) by {
            assert(c1.reg(index(q)) == c.reg(index(q)));
        }
    }
    float_is_stored(env, s, v, l, c, c2)
}

/// A statement that copies a float to a local copies its bits.
#[verifier::spinoff_prover]
pub proof fn float_copy_is_assigned(
    env: Env,
    s: LowState,
    stmt: Statement,
    l: LocalId,
    operand: Operand,
    c: Cpu,
) -> (d: Cpu)
    requires
        c.wf(),
        c.has_floats(),
        s.err is None,
        assigns(stmt, l, Rvalue::Use(operand)),
        env.effective_agg_ty(l, Rvalue::Use(operand)) is None,
        env.is_float(env.local_ty(l)),
        addressable(env, operand),
        float_bits(env, c, operand) is Some,
        float_home(env, c, l),
    ensures
        takes(s, env.lower_stmt(s, stmt), c, d),
        env.lower_stmt(s, stmt).err is None,
        float_assigned(env, c, d, l, float_bits(env, c, operand).unwrap()),
{
    assert(float_index(Xmm::Xmm0) == 0);
    let t = env.load_float_operand(s, operand, Xmm::Xmm0);
    let c1 = float_is_loaded(env, s, operand, Xmm::Xmm0, c);
    assert(env.lower_stmt(s, stmt) == env.store_float_xmm0(t, l)) by {
        reveal(Env::lower_stmt);
        reveal(Env::lower_rvalue);
        reveal(Env::lower_use);
        reveal(Env::lower_float_use);
    }
    float_is_stored(env, s, t, l, c, c1)
}

/// A statement that converts an integer to a float assigns the number nearest to it.
#[verifier::spinoff_prover]
pub proof fn float_from_integer_is_assigned(
    env: Env,
    s: LowState,
    stmt: Statement,
    l: LocalId,
    operand: Operand,
    ty: TypeId,
    c: Cpu,
) -> (d: Cpu)
    requires
        c.wf(),
        c.has_floats(),
        s.err is None,
        assigns(stmt, l, Rvalue::Cast { kind: CastKind::IntToFloat, operand, ty }),
        env.effective_agg_ty(
            l,
            Rvalue::Cast { kind: CastKind::IntToFloat, operand, ty },
        ) is None,
        !env.is_wide_int(ty),
        !env.is_wide_int(env.local_ty(l)),
        addressable(env, operand),
        scalar_word(env, c, operand) is Some,
        float_home(env, c, l),
    ensures
        takes(s, env.lower_stmt(s, stmt), c, d),
        env.lower_stmt(s, stmt).err is None,
        float_assigned(
            env,
            c,
            d,
            l,
            from_integer(signed64(scalar_word(env, c, operand).unwrap())),
        ),
{
    assert(float_index(Xmm::Xmm0) == 0 && index(Gpr::Rax) == 0);
    let t = env.operand_to(s, operand, Gpr::Rax);
    let c1 = scalar_loads(env, s, operand, Gpr::Rax, c);
    let u = t.on(t.text.cvtsi2sd(Xmm::Xmm0, Gpr::Rax));
    let c2 = follow_cvtsi2sd(s, t, Xmm::Xmm0, Gpr::Rax, c, c1);
    assert(env.lower_stmt(s, stmt) == env.store_float_xmm0(u, l)) by {
        reveal(Env::lower_stmt);
        reveal(Env::lower_rvalue);
        reveal(Env::lower_cast);
    }
    assert(kept_but(c, c2, scratch())) by {
        assert forall|q: Gpr| !scratch().contains(q) implies #[trigger] c2.reg(index(q)) == c.reg(
            index(q),
        ) by {
            assert(!set![Gpr::Rax, Gpr::R10, Gpr::R11].contains(q));
            assert(c1.reg(index(q)) == c.reg(index(q)));
        }
    }
    float_is_stored(env, s, u, l, c, c2)
}

/// The word of an integer type that a float is cut off to.
pub open spec fn cut_to(env: Env, bits: u64, ty: TypeId) -> u64 {
    let r = env.repr_of(ty);
    let x = wrap64(cut_off(bits));
    if 1 <= r.width < 64 {
        wrap64(low_bits(x as int, r.width as nat, r.signed))
    } else {
        x
    }
}

/// A statement that converts a float to an integer assigns its whole part, the next integer
/// toward zero, brought to the width of its type.
#[verifier::spinoff_prover]
#[verifier::rlimit(40)]
pub proof fn integer_from_float_is_assigned(
    env: Env,
    s: LowState,
    stmt: Statement,
    l: LocalId,
    operand: Operand,
    ty: TypeId,
    c: Cpu,
) -> (d: Cpu)
    requires
        c.wf(),
        c.has_floats(),
        s.err is None,
        assigns(stmt, l, Rvalue::Cast { kind: CastKind::FloatToInt, operand, ty }),
        env.effective_agg_ty(
            l,
            Rvalue::Cast { kind: CastKind::FloatToInt, operand, ty },
        ) is None,
        !env.is_wide_int(ty),
        !env.is_wide_int(env.local_ty(l)),
        addressable(env, operand),
        float_bits(env, c, operand) is Some,
        can_hold(env, c, l, cut_to(env, float_bits(env, c, operand).unwrap(), ty)),
    ensures
        takes(s, env.lower_stmt(s, stmt), c, d),
        env.lower_stmt(s, stmt).err is None,
        reads_as(env, c, d, l, cut_to(env, float_bits(env, c, operand).unwrap(), ty)),
        ({
            let b = float_bits(env, c, operand).unwrap();
            is_finite(b) && is_signed64(whole_part(b)) ==> cut_off(b) == whole_part(b)
        }),
{
    assert(float_index(Xmm::Xmm0) == 0 && index(Gpr::Rax) == 0 && index(Gpr::Rcx) == 1);
    let t = env.load_float_operand(s, operand, Xmm::Xmm0);
    let c1 = float_is_loaded(env, s, operand, Xmm::Xmm0, c);
    let t1 = t.on(t.text.cvttsd2si(Gpr::Rax, Xmm::Xmm0));
    let c2 = follow_cvttsd2si(s, t, Gpr::Rax, Xmm::Xmm0, c, c1);
    let t2 = env.normalize(t1, Gpr::Rax, ty);
    let c3 = normalizing_wraps(env, s, t1, Gpr::Rax, ty, c, c2);
    assert(t2.err == t1.err) by {
        reveal(Env::normalize);
        reveal(Env::normalize_signed_other);
        reveal(Env::normalize_unsigned_other);
    }
    assert(env.lower_stmt(s, stmt) == env.store_scalar_result(t2, l)) by {
        reveal(Env::lower_stmt);
        reveal(Env::lower_rvalue);
        reveal(Env::lower_cast);
    }
    assert(kept_but(c, c3, scratch())) by {
        assert forall|q: Gpr| !scratch().contains(q) implies #[trigger] c3.reg(index(q)) == c.reg(
            index(q),
        ) by {
            gpr_codes_distinct(q, Gpr::Rax);
            gpr_codes_distinct(q, Gpr::Rcx);
            assert(c1.reg(index(q)) == c.reg(index(q)));
            assert(c2.reg(index(q)) == c1.reg(index(q)));
        }
    }
    frame_stays(c, c3);
    let d = result_is_stored(env, s, t2, l, c, c3);
    assigned_reads(env, c, c3, d, l, c3.reg(0));
    d
}

} // verus!
