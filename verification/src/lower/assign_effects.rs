//! What lowered assignments do to locals.
use vstd::prelude::*;

use crate::bytes::wrap64;
use crate::lower::arith_effects::{
    comparison_of_operands_is_right, exact, has_result, in_register, local_word, low_bits_of_word,
    only_scratch, operand_loads, operand_word, operator_is_right, result_width,
    unary_operator_is_right, value_of,
};
use crate::lower::effects::{
    holds, keeps, low_bits, normalizing_wraps, scalar_width, store_writes, takes, takes_nothing,
    written_reads_kept,
};
use crate::lower::env::{Env, LowState};
use crate::lower::follow::follow_mov_rr;
use crate::lower::mem_effects::{apart, holds_at};
use crate::lower::values::compares;
use crate::machine::{Cpu, fetch_same, in_space, patch};
use crate::mir::{BinOp, CastKind, LocalId, Operand, Rvalue, Statement, UnOp};
use crate::reg::{Gpr, gpr_codes_distinct};
use crate::steps::index;
use crate::types::TypeId;

verus! {

/// Whether `d` is `c` with a word assigned to a local: it is in its register, or its low
/// bytes are in its home. Nothing else changed but `rax`, `rcx` and `rdx`.
pub open spec fn assigned(env: Env, c: Cpu, d: Cpu, l: LocalId, v: u64) -> bool {
    &&& d.wf()
    &&& d.state == c.state
    &&& d.data == c.data
    &&& match env.reg_of(l) {
        Some(r) => d.mem == c.mem && d.reg(index(r)) == v && forall|q: int|
            3 <= q < 16 && q != index(r) ==> #[trigger] d.reg(q) == c.reg(q),
        None => (forall|q: int| 3 <= q < 16 ==> #[trigger] d.reg(q) == c.reg(q)) && match env.home(
            l,
        ) {
            Some(h) => holds_at(
                c.mem,
                d.mem,
                c.reg(5) + h,
                scalar_width(env, env.local_ty(l)),
                v as int,
            ),
            None => d.mem == c.mem,
        },
    }
}

/// Whether a local's home, where it has one, is in the address space.
pub open spec fn home_in_space(env: Env, c: Cpu, l: LocalId) -> bool {
    env.reg_of(l) is None ==> (env.home(l) matches Some(h) ==> in_space(
        c.reg(5) + h,
        scalar_width(env, env.local_ty(l)),
    ))
}

/// The word in `rax` goes to the local.
pub proof fn result_is_stored(
    env: Env,
    s: LowState,
    t: LowState,
    l: LocalId,
    c: Cpu,
    d: Cpu,
) -> (e: Cpu)
    requires
        takes(s, t, c, d),
        d.wf(),
        home_in_space(env, d, l),
    ensures
        takes(s, env.store_scalar_result(t, l), c, e),
        env.store_scalar_result(t, l).err == t.err,
        assigned(env, d, e, l, d.reg(0)),
{
    reveal(Env::store_scalar_result);
    assert(index(Gpr::Rax) == 0 && index(Gpr::Rbp) == 5);
    match env.reg_of(l) {
        Some(r) => if r != Gpr::Rax {
            follow_mov_rr(s, t, r, Gpr::Rax, c, d)
        } else {
            d
        },
        None => match env.home(l) {
            Some(h) => store_writes(env, s, t, Gpr::Rbp, h, Gpr::Rax, env.local_ty(l), c, d),
            None => d,
        },
    }
}

/// A local that was assigned a word reads as this word, where it lives in a register, or in a
/// home and the word is one that a store of its type keeps whole.
pub proof fn assigned_local_reads(env: Env, c: Cpu, d: Cpu, l: LocalId, v: u64)
    requires
        assigned(env, c, d, l, v),
        home_in_space(env, c, l),
        env.reg_of(l) is Some || env.home(l) is Some && keeps(env, env.local_ty(l), v),
    ensures
        local_word(env, d, l) == Some(v),
{
    reveal(local_word);
    if env.reg_of(l) is None {
        let a = c.reg(5) + env.home(l).unwrap();
        let n = scalar_width(env, env.local_ty(l));
        written_reads_kept(c.mem, a, n, v, env.repr_of(env.local_ty(l)).signed);
        fetch_same(d.mem, a, patch(c.mem, a, n, v as int), a, n);
        assert(d.reg(5) == c.reg(5));
    }
}

/// An assignment to one local leaves every other as it was that lives in another register,
/// or in a home apart from that of the first.
pub proof fn other_local_stays(env: Env, c: Cpu, d: Cpu, l: LocalId, v: u64, m: LocalId)
    requires
        assigned(env, c, d, l, v),
        env.reg_of(l) != Some(Gpr::Rbp),
        match env.reg_of(m) {
            Some(q) => index(q) >= 3 && env.reg_of(l) != Some(q),
            None => env.reg_of(l) is None ==> (env.home(l) matches Some(h) ==> env.home(m) matches Some(k) ==> apart(
                h as int,
                k as int,
                8,
            )),
        },
    ensures
        local_word(env, d, m) == local_word(env, c, m),
{
    reveal(local_word);
    assert(index(Gpr::Rbp) == 5);
    if let Some(r) = env.reg_of(l) {
        gpr_codes_distinct(r, Gpr::Rbp);
    }
    assert(d.reg(5) == c.reg(5));
    match env.reg_of(m) {
        Some(q) => {
            if let Some(r) = env.reg_of(l) {
                gpr_codes_distinct(r, q);
            }
        },
        None => {
            if let Some(k) = env.home(m) {
                fetch_same(
                    d.mem,
                    c.reg(5) + k,
                    c.mem,
                    c.reg(5) + k,
                    scalar_width(env, env.local_ty(m)),
                );
            }
        },
    }
}

proof fn after_scratch(env: Env, c: Cpu, d: Cpu, e: Cpu, l: LocalId, v: u64)
    requires
        only_scratch(c, d),
        assigned(env, d, e, l, v),
    ensures
        assigned(env, c, e, l, v),
{
    assert(d.reg(5) == c.reg(5));
    assert forall|q: int| 3 <= q < 16 && (env.reg_of(l) matches Some(r) ==> q != index(r)) implies
        #[trigger] e.reg(q) == c.reg(q) by {
        assert(d.reg(q) == c.reg(q));
    }
}

/// The assignment of a value to a whole local.
pub open spec fn assigns(stmt: Statement, l: LocalId, rvalue: Rvalue) -> bool {
    stmt matches Statement::Assign { place, rvalue: r } && place.base == l && place.proj@.len() == 0
        && r == rvalue
}

/// Whether a value is a scalar, to be computed in one word.
pub open spec fn in_one_word(env: Env, l: LocalId, rvalue: Rvalue, ty: TypeId) -> bool {
    &&& env.effective_agg_ty(l, rvalue) is None
    &&& !env.is_float(ty)
    &&& !env.is_wide_int(ty)
    &&& !env.is_wide_int(env.local_ty(l))
}

/// A statement that assigns an integer operator's value to a local assigns its exact result,
/// brought to the width of its type.
pub proof fn operator_is_assigned(
    env: Env,
    s: LowState,
    stmt: Statement,
    l: LocalId,
    op: BinOp,
    lhs: Operand,
    rhs: Operand,
    ty: TypeId,
    c: Cpu,
) -> (d: Cpu)
    requires
        c.wf(),
        s.err is None,
        assigns(stmt, l, Rvalue::Binary { op, lhs, rhs, ty }),
        in_one_word(env, l, Rvalue::Binary { op, lhs, rhs, ty }, ty),
        !compares(op),
        operand_word(env, c, lhs) is Some,
        operand_word(env, c, rhs) is Some,
        !in_register(env, rhs, Gpr::Rax),
        home_in_space(env, c, l),
        has_result(
            op,
            operand_word(env, c, lhs).unwrap(),
            operand_word(env, c, rhs).unwrap(),
            env.repr_of(ty).signed,
        ),
    ensures
        takes(s, env.lower_stmt(s, stmt), c, d),
        env.lower_stmt(s, stmt).err is None,
        assigned(
            env,
            c,
            d,
            l,
            wrap64(
                low_bits(
                    exact(
                        op,
                        operand_word(env, c, lhs).unwrap(),
                        operand_word(env, c, rhs).unwrap(),
                        env.repr_of(ty).signed,
                    ),
                    result_width(env, ty),
                    env.repr_of(ty).signed,
                ),
            ),
        ),
{
    let t = env.eval_binary_into_rax(s, op, lhs, rhs, ty);
    let c1 = operator_is_right(env, s, op, lhs, rhs, ty, c);
    assert(c1.reg(5) == c.reg(5));
    assert(env.lower_stmt(s, stmt) == env.store_scalar_result(t, l)) by {
        reveal(Env::lower_stmt);
        reveal(Env::lower_rvalue);
    }
    let d = result_is_stored(env, s, t, l, c, c1);
    after_scratch(env, c, c1, d, l, c1.reg(0));
    d
}

/// A statement that assigns an integer conversion to a local assigns the value, brought to
/// the width of the type: the low bits, extended as the type is signed or not.
pub proof fn conversion_is_assigned(
    env: Env,
    s: LowState,
    stmt: Statement,
    l: LocalId,
    kind: CastKind,
    operand: Operand,
    ty: TypeId,
    c: Cpu,
) -> (d: Cpu)
    requires
        c.wf(),
        s.err is None,
        assigns(stmt, l, Rvalue::Cast { kind, operand, ty }),
        in_one_word(env, l, Rvalue::Cast { kind, operand, ty }, ty),
        kind != CastKind::IntToFloat,
        kind != CastKind::FloatToInt,
        !env.operand_is_wide(operand),
        operand_word(env, c, operand) is Some,
        home_in_space(env, c, l),
    ensures
        takes(s, env.lower_stmt(s, stmt), c, d),
        env.lower_stmt(s, stmt).err is None,
        assigned(
            env,
            c,
            d,
            l,
            wrap64(
                low_bits(
                    operand_word(env, c, operand).unwrap() as int,
                    result_width(env, ty),
                    env.repr_of(ty).signed,
                ),
            ),
        ),
{
    takes_nothing(s, c);
    assert(index(Gpr::Rax) == 0 && index(Gpr::Rcx) == 1);
    let x = operand_word(env, c, operand).unwrap();
    let t1 = env.operand_to(s, operand, Gpr::Rax);
    let c1 = operand_loads(env, s, s, operand, Gpr::Rax, c, c);
    let t2 = env.normalize(t1, Gpr::Rax, ty);
    let c2 = normalizing_wraps(env, s, t1, Gpr::Rax, ty, c, c1);
    low_bits_of_word(x as int, result_width(env, ty), env.repr_of(ty).signed);
    assert(wrap64(x as int) == x);
    assert(only_scratch(c, c2)) by {
        assert forall|q: int| 3 <= q < 16 implies #[trigger] c2.reg(q) == c.reg(q) by {
            assert(c1.reg(q) == c.reg(q));
        }
    }
    assert(c2.reg(5) == c.reg(5));
    assert(t2.err is None) by {
        reveal(Env::normalize);
        reveal(Env::normalize_signed_other);
        reveal(Env::normalize_unsigned_other);
    }
    assert(env.lower_stmt(s, stmt) == env.store_scalar_result(t2, l)) by {
        reveal(Env::lower_stmt);
        reveal(Env::lower_rvalue);
        reveal(Env::lower_cast);
    }
    let d = result_is_stored(env, s, t2, l, c, c2);
    after_scratch(env, c, c2, d, l, c2.reg(0));
    d
}

/// A statement that assigns a constant or a whole local to a local assigns its value, brought
/// to the width of the local's type.
pub proof fn copy_is_assigned(
    env: Env,
    s: LowState,
    stmt: Statement,
    l: LocalId,
    operand: Operand,
    c: Cpu,
) -> (d: Cpu)
    requires
        c.wf(),
        s.err is None,
        assigns(stmt, l, Rvalue::Use(operand)),
        in_one_word(env, l, Rvalue::Use(operand), env.local_ty(l)),
        !(env.is_error_type(env.local_ty(l)) && env.holds_error_union(operand)),
        operand_word(env, c, operand) is Some,
        home_in_space(env, c, l),
    ensures
        takes(s, env.lower_stmt(s, stmt), c, d),
        env.lower_stmt(s, stmt).err is None,
        assigned(
            env,
            c,
            d,
            l,
            wrap64(
                low_bits(
                    operand_word(env, c, operand).unwrap() as int,
                    result_width(env, env.local_ty(l)),
                    env.repr_of(env.local_ty(l)).signed,
                ),
            ),
        ),
{
    takes_nothing(s, c);
    assert(index(Gpr::Rax) == 0 && index(Gpr::Rcx) == 1);
    let x = operand_word(env, c, operand).unwrap();
    let t1 = env.operand_to(s, operand, Gpr::Rax);
    let c1 = operand_loads(env, s, s, operand, Gpr::Rax, c, c);
    let t2 = env.normalize(t1, Gpr::Rax, env.local_ty(l));
    let c2 = normalizing_wraps(env, s, t1, Gpr::Rax, env.local_ty(l), c, c1);
    low_bits_of_word(
        x as int,
        result_width(env, env.local_ty(l)),
        env.repr_of(env.local_ty(l)).signed,
    );
    assert(wrap64(x as int) == x);
    assert(only_scratch(c, c2)) by {
        assert forall|q: int| 3 <= q < 16 implies #[trigger] c2.reg(q) == c.reg(q) by {
            assert(c1.reg(q) == c.reg(q));
        }
    }
    assert(c2.reg(5) == c.reg(5));
    assert(t2.err is None) by {
        reveal(Env::normalize);
        reveal(Env::normalize_signed_other);
        reveal(Env::normalize_unsigned_other);
    }
    assert(env.lower_stmt(s, stmt) == env.store_scalar_result(t2, l)) by {
        reveal(Env::lower_stmt);
        reveal(Env::lower_rvalue);
        reveal(Env::lower_use);
    }
    let d = result_is_stored(env, s, t2, l, c, c2);
    after_scratch(env, c, c2, d, l, c2.reg(0));
    d
}

/// A statement that assigns a comparison to a local assigns one where it holds, else zero.
pub proof fn comparison_is_assigned(
    env: Env,
    s: LowState,
    stmt: Statement,
    l: LocalId,
    op: BinOp,
    lhs: Operand,
    rhs: Operand,
    ty: TypeId,
    c: Cpu,
) -> (d: Cpu)
    requires
        c.wf(),
        s.err is None,
        assigns(stmt, l, Rvalue::Binary { op, lhs, rhs, ty }),
        in_one_word(env, l, Rvalue::Binary { op, lhs, rhs, ty }, ty),
        compares(op),
        !env.operand_is_float(lhs),
        !env.operand_is_wide(lhs),
        operand_word(env, c, lhs) is Some,
        operand_word(env, c, rhs) is Some,
        !in_register(env, rhs, Gpr::Rax),
        home_in_space(env, c, l),
    ensures
        takes(s, env.lower_stmt(s, stmt), c, d),
        env.lower_stmt(s, stmt).err is None,
        assigned(
            env,
            c,
            d,
            l,
            if holds(
                op,
                env.operand_signed(lhs) || env.operand_signed(rhs),
                operand_word(env, c, lhs).unwrap(),
                operand_word(env, c, rhs).unwrap(),
            ) {
                1
            } else {
                0
            },
        ),
{
    let t = env.eval_compare_into_rax(s, op, lhs, rhs);
    let c1 = comparison_of_operands_is_right(env, s, op, lhs, rhs, c);
    assert(c1.reg(5) == c.reg(5));
    assert(env.lower_stmt(s, stmt) == env.store_scalar_result(t, l)) by {
        reveal(Env::lower_stmt);
        reveal(Env::lower_rvalue);
        reveal(Env::eval_binary_into_rax);
    }
    let d = result_is_stored(env, s, t, l, c, c1);
    after_scratch(env, c, c1, d, l, c1.reg(0));
    d
}

/// A statement that assigns a unary operator's value to a local assigns the negative or the
/// complement, brought to the width of its type, or the other truth value.
pub proof fn unary_operator_is_assigned(
    env: Env,
    s: LowState,
    stmt: Statement,
    l: LocalId,
    un: UnOp,
    operand: Operand,
    ty: TypeId,
    c: Cpu,
) -> (d: Cpu)
    requires
        c.wf(),
        s.err is None,
        assigns(stmt, l, Rvalue::Unary { un, operand, ty }),
        in_one_word(env, l, Rvalue::Unary { un, operand, ty }, ty),
        operand_word(env, c, operand) is Some,
        home_in_space(env, c, l),
    ensures
        takes(s, env.lower_stmt(s, stmt), c, d),
        env.lower_stmt(s, stmt).err is None,
        ({
            let x = operand_word(env, c, operand).unwrap();
            let signed = env.repr_of(ty).signed;
            let w = result_width(env, ty);
            assigned(
                env,
                c,
                d,
                l,
                match un {
                    UnOp::Neg => wrap64(low_bits(-value_of(x, signed), w, signed)),
                    UnOp::BitNot => wrap64(low_bits(-1 - value_of(x, signed), w, signed)),
                    UnOp::Not => x ^ 1,
                },
            )
        }),
{
    let t = env.eval_unary_into_rax(s, un, operand, ty);
    let c1 = unary_operator_is_right(env, s, un, operand, ty, c);
    assert(c1.reg(5) == c.reg(5));
    assert(env.lower_stmt(s, stmt) == env.store_scalar_result(t, l)) by {
        reveal(Env::lower_stmt);
        reveal(Env::lower_rvalue);
        reveal(Env::lower_unary);
    }
    let d = result_is_stored(env, s, t, l, c, c1);
    after_scratch(env, c, c1, d, l, c1.reg(0));
    d
}

} // verus!
