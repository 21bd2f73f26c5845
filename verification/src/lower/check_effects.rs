//! What lowered safety checks find out.
use vstd::prelude::*;

use crate::bytes::wrap64;
use crate::encode::Cc;
use crate::lower::arith_effects::{
    exact, in_register, local_word, low_bits_of_word, only_scratch, operand_loads, operand_word,
    operands_load, value_of, words_combine,
};
use crate::lower::effects::{
    is_value, low_bits, normalizing_wraps, only_regs, set_bool_runs, takes, takes_nothing, tells,
};
use crate::lower::env::{Env, LowState, Repr};
use crate::lower::follow::{
    follow_add_rr, follow_and_rr, follow_cmp_rr, follow_imul_r1, follow_imul_rr, follow_mov_ri,
    follow_mov_rr, follow_mul_r, follow_sub_rr, follow_xor_ri,
};
use crate::lower::intr::{ArithKind, MINUS_ONE, min_of};
use crate::machine::{Cpu, SPAN, is_signed64, signed64};
use crate::mir::{BinOp, Operand};
use crate::reg::{Gpr, gpr_codes_distinct};
use crate::steps::index;
use crate::types::TypeId;
use vstd::arithmetic::power2::{
    lemma2_to64, lemma2_to64_rest, lemma_pow2_pos, lemma_pow2_strictly_increases,
    lemma_pow2_unfold, pow2,
};

verus! {

/// Whether a number is one of an integer type of `w` bits.
pub open spec fn fits(v: int, w: nat, signed: bool) -> bool {
    if signed {
        -pow2((w - 1) as nat) <= v < pow2((w - 1) as nat)
    } else {
        0 <= v < pow2(w)
    }
}

/// The operator whose overflow is tested.
pub open spec fn operator_of(kind: ArithKind) -> BinOp {
    match kind {
        ArithKind::Add => BinOp::Add,
        ArithKind::Sub => BinOp::Sub,
        ArithKind::Mul => BinOp::Mul,
    }
}

/// One for true, zero for false.
pub open spec fn truth(b: bool) -> u64 {
    if b {
        1
    } else {
        0
    }
}

proof fn truth_turned(b: bool)
    ensures
        truth(b) ^ 1 == truth(!b),
{
    assert(0u64 ^ 1 == 1) by (bit_vector);
    assert(1u64 ^ 1 == 0) by (bit_vector);
}

proof fn powers(w: nat)
    requires
        1 <= w < 64,
    ensures
        pow2(w) == 2 * pow2((w - 1) as nat),
        1 <= pow2((w - 1) as nat) <= 0x4000_0000_0000_0000,
        w <= 32 ==> pow2(w) <= 0x1_0000_0000,
        pow2(64) == SPAN,
{
    lemma_pow2_unfold(w);
    lemma_pow2_pos((w - 1) as nat);
    lemma2_to64();
    lemma2_to64_rest();
    if w < 63 {
        lemma_pow2_strictly_increases((w - 1) as nat, 62);
    }
    if w < 32 {
        lemma_pow2_strictly_increases(w, 32);
    }
}

/// A number that a signed word can hold, or with an unsigned type a word, fits a type just
/// where bringing its word to the type's width does not change it.
pub proof fn fitting_is_unchanged(v: int, w: nat, signed: bool)
    requires
        1 <= w < 64,
        signed ==> is_signed64(v),
        !signed ==> -0x8000_0000_0000_0000 <= v < SPAN,
    ensures
        fits(v, w, signed) == (wrap64(v) == wrap64(low_bits(wrap64(v) as int, w, signed))),
{
    powers(w);
    low_bits_of_word(v, w, signed);
    let p = pow2(w) as int;
    let u = v % p;
    assert(0 <= u < p);
    if fits(v, w, signed) {
        if v >= 0 {
            assert(u == v) by (nonlinear_arith)
                requires
                    u == v % p,
                    0 <= v < p,
            ;
        } else {
            assert(u == v + p) by (nonlinear_arith)
                requires
                    u == v % p,
                    -p <= v < 0,
            ;
        }
    }
}

/// Whether a word is a value of an integer type.
pub open spec fn is_value_of(env: Env, v: u64, ty: TypeId) -> bool {
    is_value(v, env.repr_of(ty).width as nat, env.repr_of(ty).signed)
}

/// Testing whether `rax` is a value of a type leaves the answer in `rax`.
#[verifier::spinoff_prover]
pub proof fn narrowing_test_is_right(
    env: Env,
    s: LowState,
    t: LowState,
    ty: TypeId,
    c: Cpu,
    d: Cpu,
) -> (e: Cpu)
    requires
        takes(s, t, c, d),
        d.wf(),
        1 <= env.repr_of(ty).width < 64,
    ensures
        takes(s, env.unchanged_by_narrowing(t, ty), c, e),
        only_scratch(d, e),
        e.reg(0) == truth(is_value_of(env, d.reg(0), ty)),
{
    reveal(Env::unchanged_by_narrowing);
    assert(index(Gpr::Rax) == 0 && index(Gpr::Rcx) == 1);
    let t1 = t.on(t.text.mov_rr(Gpr::Rcx, Gpr::Rax));
    let d1 = follow_mov_rr(s, t, Gpr::Rcx, Gpr::Rax, c, d);
    let t2 = env.normalize(t1, Gpr::Rcx, ty);
    let d2 = normalizing_wraps(env, s, t1, Gpr::Rcx, ty, c, d1);
    assert(d2.reg(0) == d.reg(0));
    let t3 = t2.on(t2.text.cmp_rr(Gpr::Rax, Gpr::Rcx));
    let d3 = follow_cmp_rr(s, t2, Gpr::Rax, Gpr::Rcx, c, d2);
    let b = d2.reg(0) == d2.reg(1);
    assert((wrap64(d2.reg(0) - d2.reg(1)) == 0) == b);
    assert(tells(d3, Cc::E) == Some(b));
    let e = set_bool_runs(env, s, t3, Cc::E, c, d3, b);
    assert forall|r: int| 3 <= r < 16 implies #[trigger] e.reg(r) == d.reg(r) by {
        assert(d1.reg(r) == d.reg(r));
        assert(d2.reg(r) == d1.reg(r));
    }
    e
}

#[verifier::spinoff_prover]
proof fn arith_runs(
    env: Env,
    s: LowState,
    t: LowState,
    kind: ArithKind,
    signed: bool,
    c: Cpu,
    d: Cpu,
) -> (e: Cpu)
    requires
        takes(s, t, c, d),
        d.wf(),
    ensures
        takes(s, env.arith(t, kind), c, e),
        only_regs(d, e, Gpr::Rax, Gpr::Rax),
        e.reg(0) == wrap64(exact(operator_of(kind), d.reg(0), d.reg(1), signed)),
        kind != ArithKind::Mul ==> e.over == Some(
            !is_signed64(exact(operator_of(kind), d.reg(0), d.reg(1), true)),
        ),
        kind != ArithKind::Mul ==> e.carry == Some(
            !(0 <= exact(operator_of(kind), d.reg(0), d.reg(1), false) < SPAN),
        ),
{
    reveal(Env::arith);
    assert(index(Gpr::Rax) == 0 && index(Gpr::Rcx) == 1);
    words_combine(d.reg(0), d.reg(1), signed);
    match kind {
        ArithKind::Add => follow_add_rr(s, t, Gpr::Rax, Gpr::Rcx, c, d),
        ArithKind::Sub => follow_sub_rr(s, t, Gpr::Rax, Gpr::Rcx, c, d),
        ArithKind::Mul => follow_imul_rr(s, t, Gpr::Rax, Gpr::Rcx, c, d),
    }
}

proof fn narrow_result_small(kind: ArithKind, x: u64, y: u64, w: nat, signed: bool)
    requires
        1 <= w < 64,
        kind == ArithKind::Mul ==> w <= 32,
        fits(value_of(x, signed), w, signed),
        fits(value_of(y, signed), w, signed),
    ensures
        signed ==> is_signed64(exact(operator_of(kind), x, y, signed)),
        !signed ==> -0x8000_0000_0000_0000 <= exact(operator_of(kind), x, y, signed) < SPAN,
{
    powers(w);
    let a = value_of(x, signed);
    let b = value_of(y, signed);
    if kind == ArithKind::Mul {
        let p: int = if signed {
            0x8000_0000
        } else {
            0x1_0000_0000
        };
        assert(-p <= a <= p && -p <= b <= p);
        assert(-(p * p) <= a * b <= p * p) by (nonlinear_arith)
            requires
                -p <= a <= p,
                -p <= b <= p,
        ;
        if !signed {
            assert(0 <= a * b <= (p - 1) * (p - 1)) by (nonlinear_arith)
                requires
                    0 <= a <= p - 1,
                    0 <= b <= p - 1,
            ;
        }
    }
}

/// The overflow test of an operator on values of a narrow type, given as constants or whole
/// locals, leaves one in `rax` where the exact result is a value of the type, else zero.
/// Products are those of types of up to 32 bits.
pub proof fn narrow_overflow_test_is_right(
    env: Env,
    s: LowState,
    args: Seq<Operand>,
    ty: TypeId,
    kind: ArithKind,
    c: Cpu,
) -> (d: Cpu)
    requires
        c.wf(),
        s.err is None,
        args.len() >= 2,
        1 <= env.repr_of(ty).width < 64,
        kind == ArithKind::Mul ==> env.repr_of(ty).width <= 32,
        !env.is_wide_int(ty),
        operand_word(env, c, args[0]) is Some,
        operand_word(env, c, args[1]) is Some,
        !in_register(env, args[1], Gpr::Rax),
        fits(
            value_of(operand_word(env, c, args[0]).unwrap(), env.repr_of(ty).signed),
            env.repr_of(ty).width as nat,
            env.repr_of(ty).signed,
        ),
        fits(
            value_of(operand_word(env, c, args[1]).unwrap(), env.repr_of(ty).signed),
            env.repr_of(ty).width as nat,
            env.repr_of(ty).signed,
        ),
    ensures
        takes(s, env.overflow_predicate(s, args, ty, kind), c, d),
        only_scratch(c, d),
        d.reg(0) == truth(
            fits(
                exact(
                    operator_of(kind),
                    operand_word(env, c, args[0]).unwrap(),
                    operand_word(env, c, args[1]).unwrap(),
                    env.repr_of(ty).signed,
                ),
                env.repr_of(ty).width as nat,
                env.repr_of(ty).signed,
            ),
        ),
{
    let r = env.repr_of(ty);
    let w = r.width as nat;
    let x = operand_word(env, c, args[0]).unwrap();
    let y = operand_word(env, c, args[1]).unwrap();
    let (t, c2) = operands_load(env, s, args[0], args[1], c);
    let u = env.arith(t, kind);
    assert(c2.reg(0) == x && c2.reg(1) == y);
    let c3 = arith_runs(env, s, t, kind, r.signed, c, c2);
    assert(env.overflow_predicate(s, args, ty, kind) == env.unchanged_by_narrowing(u, ty)) by {
        reveal(Env::overflow_predicate);
        reveal(Env::first_operand_to);
        reveal(Env::second_operand_to);
    }
    narrow_result_small(kind, x, y, w, r.signed);
    fitting_is_unchanged(exact(operator_of(kind), x, y, r.signed), w, r.signed);
    let d = narrowing_test_is_right(env, s, u, ty, c, c3);
    assert forall|q: int| 3 <= q < 16 implies #[trigger] d.reg(q) == c.reg(q) by {
        assert(c2.reg(q) == c.reg(q));
        assert(c3.reg(q) == c2.reg(q));
    }
    d
}

pub(crate) proof fn flag_to_answer(
    env: Env,
    s: LowState,
    t: LowState,
    cc: Cc,
    c: Cpu,
    d: Cpu,
    b: bool,
) -> (e: Cpu)
    requires
        takes(s, t, c, d),
        d.wf(),
        tells(d, cc) == Some(b),
    ensures
        takes(s, answered(env, t, cc), c, e),
        only_regs(d, e, Gpr::Rax, Gpr::Rax),
        e.reg(0) == truth(!b),
{
    let t1 = env.set_bool(t, cc);
    let d1 = set_bool_runs(env, s, t, cc, c, d, b);
    truth_turned(b);
    follow_xor_ri(s, t1, Gpr::Rax, 1, c, d1)
}

/// The code that leaves the opposite of a condition in `rax`.
pub open spec fn answered(env: Env, t: LowState, cc: Cc) -> LowState {
    let t = env.set_bool(t, cc);
    t.on(t.text.xor_ri(Gpr::Rax, 1))
}

/// The code of an operation on words whose overflow is tested.
pub open spec fn word_operation(env: Env, t: LowState, repr: Repr, kind: ArithKind) -> LowState {
    if kind == ArithKind::Mul {
        if repr.signed {
            t.on(t.text.imul_r1(Gpr::Rcx))
        } else {
            t.on(t.text.mul_r(Gpr::Rcx))
        }
    } else {
        env.arith(t, kind)
    }
}

#[verifier::spinoff_prover]
proof fn word_operation_runs(
    env: Env,
    s: LowState,
    t: LowState,
    repr: Repr,
    kind: ArithKind,
    c: Cpu,
    d: Cpu,
) -> (e: Cpu)
    requires
        takes(s, t, c, d),
        d.wf(),
    ensures
        takes(s, word_operation(env, t, repr, kind), c, e),
        only_scratch(d, e),
        repr.signed ==> e.over == Some(
            !is_signed64(exact(operator_of(kind), d.reg(0), d.reg(1), true)),
        ),
        !repr.signed ==> e.carry == Some(
            !(0 <= exact(operator_of(kind), d.reg(0), d.reg(1), false) < SPAN),
        ),
{
    assert(index(Gpr::Rcx) == 1);
    if kind == ArithKind::Mul {
        let x = d.reg(0);
        let y = d.reg(1);
        assert(x * y >= 0) by (nonlinear_arith);
        if repr.signed {
            follow_imul_r1(s, t, Gpr::Rcx, c, d)
        } else {
            follow_mul_r(s, t, Gpr::Rcx, c, d)
        }
    } else {
        arith_runs(env, s, t, kind, repr.signed, c, d)
    }
}

/// The overflow test of an operator on words, given as constants or whole locals, leaves one
/// in `rax` where the exact result is a word of the same kind, else zero.
pub proof fn word_overflow_test_is_right(
    env: Env,
    s: LowState,
    args: Seq<Operand>,
    repr: Repr,
    kind: ArithKind,
    c: Cpu,
) -> (d: Cpu)
    requires
        c.wf(),
        s.err is None,
        args.len() >= 2,
        operand_word(env, c, args[0]) is Some,
        operand_word(env, c, args[1]) is Some,
        !in_register(env, args[1], Gpr::Rax),
    ensures
        takes(s, env.overflow_predicate_64(s, args, repr, kind), c, d),
        only_scratch(c, d),
        d.reg(0) == truth(
            fits(
                exact(
                    operator_of(kind),
                    operand_word(env, c, args[0]).unwrap(),
                    operand_word(env, c, args[1]).unwrap(),
                    repr.signed,
                ),
                64,
                repr.signed,
            ),
        ),
{
    let x = operand_word(env, c, args[0]).unwrap();
    let y = operand_word(env, c, args[1]).unwrap();
    let (t, c2) = operands_load(env, s, args[0], args[1], c);
    let u = word_operation(env, t, repr, kind);
    let c3 = word_operation_runs(env, s, t, repr, kind, c, c2);
    let cc = if repr.signed {
        Cc::O
    } else {
        Cc::C
    };
    lemma2_to64_rest();
    let b = !fits(exact(operator_of(kind), x, y, repr.signed), 64, repr.signed);
    assert(tells(c3, cc) == Some(b));
    assert(env.overflow_predicate_64(s, args, repr, kind) == answered(env, u, cc)) by {
        reveal(Env::overflow_predicate_64);
        reveal(Env::first_operand_to);
        reveal(Env::second_operand_to);
    }
    let d = flag_to_answer(env, s, u, cc, c, c3, b);
    assert forall|q: int| 3 <= q < 16 implies #[trigger] d.reg(q) == c.reg(q) by {
        assert(c2.reg(q) == c.reg(q));
        assert(c3.reg(q) == c2.reg(q));
    }
    d
}

#[verifier::spinoff_prover]
proof fn equality_runs(
    env: Env,
    s: LowState,
    t: LowState,
    v: i64,
    cc: Cc,
    c: Cpu,
    d: Cpu,
) -> (e: Cpu)
    requires
        takes(s, t, c, d),
        d.wf(),
        cc == Cc::E || cc == Cc::Ne || cc == Cc::Ge,
    ensures
        takes(s, env.rax_is(t, v, cc), c, e),
        only_regs(d, e, Gpr::Rax, Gpr::Rcx),
        e.reg(0) == truth(
            if cc == Cc::E {
                signed64(d.reg(0)) == v
            } else if cc == Cc::Ne {
                signed64(d.reg(0)) != v
            } else {
                signed64(d.reg(0)) >= v
            },
        ),
{
    reveal(Env::rax_is);
    assert(index(Gpr::Rax) == 0 && index(Gpr::Rcx) == 1);
    let t1 = t.on(t.text.mov_ri(Gpr::Rcx, v));
    let d1 = follow_mov_ri(s, t, Gpr::Rcx, v, c, d);
    let t2 = t1.on(t1.text.cmp_rr(Gpr::Rax, Gpr::Rcx));
    let d2 = follow_cmp_rr(s, t1, Gpr::Rax, Gpr::Rcx, c, d1);
    let b = if cc == Cc::E {
        signed64(d.reg(0)) == v
    } else if cc == Cc::Ne {
        signed64(d.reg(0)) != v
    } else {
        signed64(d.reg(0)) >= v
    };
    let x = d1.reg(0);
    let y = d1.reg(1);
    assert(signed64(y) == v);
    assert((wrap64(x - y) == 0) == (x == y));
    assert(tells(d2, cc) == Some(b));
    set_bool_runs(env, s, t2, cc, c, d2, b)
}

/// The test of a negation leaves one in `rax` where the negative of the value of a signed
/// type of up to a word is a value of the type, else zero.
pub proof fn negation_test_is_right(
    env: Env,
    s: LowState,
    args: Seq<Operand>,
    ty: TypeId,
    c: Cpu,
) -> (d: Cpu)
    requires
        c.wf(),
        s.err is None,
        args.len() >= 1,
        env.repr_of(ty).signed,
        1 <= env.repr_of(ty).width <= 64,
        !env.is_wide_int(ty),
        operand_word(env, c, args[0]) is Some,
        fits(
            signed64(operand_word(env, c, args[0]).unwrap()),
            env.repr_of(ty).width as nat,
            true,
        ),
    ensures
        takes(s, env.neg_overflow_predicate(s, args, ty), c, d),
        only_scratch(c, d),
        d.reg(0) == truth(
            fits(
                -signed64(operand_word(env, c, args[0]).unwrap()),
                env.repr_of(ty).width as nat,
                true,
            ),
        ),
{
    reveal(Env::neg_overflow_predicate);
    reveal(Env::first_operand_to);
    takes_nothing(s, c);
    let r = env.repr_of(ty);
    let t = env.operand_to(s, args[0], Gpr::Rax);
    let c1 = operand_loads(env, s, s, args[0], Gpr::Rax, c, c);
    least_value(r);
    let d = equality_runs(env, s, t, min_of(r), Cc::Ne, c, c1);
    assert forall|q: int| 3 <= q < 16 implies #[trigger] d.reg(q) == c.reg(q) by {
        assert(c1.reg(q) == c.reg(q));
    }
    d
}

proof fn least_value(r: Repr)
    requires
        1 <= r.width <= 64,
    ensures
        min_of(r) == -pow2((r.width - 1) as nat),
{
    lemma2_to64_rest();
    if r.width < 64 {
        powers(r.width as nat);
    }
}

/// The test of a narrowing leaves one in `rax` where the value is one of the narrow type,
/// else zero. A value beyond the signed words is not brought to a signed type.
pub proof fn fitting_test_is_right(
    env: Env,
    s: LowState,
    args: Seq<Operand>,
    ty: TypeId,
    source_signed: bool,
    c: Cpu,
) -> (d: Cpu)
    requires
        c.wf(),
        s.err is None,
        args.len() >= 1,
        1 <= env.repr_of(ty).width < 64,
        operand_word(env, c, args[0]) is Some,
        env.repr_of(ty).signed ==> is_signed64(
            value_of(operand_word(env, c, args[0]).unwrap(), source_signed),
        ),
    ensures
        takes(s, env.narrow_fits_predicate(s, args, ty), c, d),
        only_scratch(c, d),
        d.reg(0) == truth(
            fits(
                value_of(operand_word(env, c, args[0]).unwrap(), source_signed),
                env.repr_of(ty).width as nat,
                env.repr_of(ty).signed,
            ),
        ),
{
    reveal(Env::narrow_fits_predicate);
    reveal(Env::first_operand_to);
    takes_nothing(s, c);
    let r = env.repr_of(ty);
    let x = operand_word(env, c, args[0]).unwrap();
    let v = value_of(x, source_signed);
    let t = env.operand_to(s, args[0], Gpr::Rax);
    let c1 = operand_loads(env, s, s, args[0], Gpr::Rax, c, c);
    fitting_is_unchanged(v, r.width as nat, r.signed);
    assert(wrap64(v) == x);
    let d = narrowing_test_is_right(env, s, t, ty, c, c1);
    assert forall|q: int| 3 <= q < 16 implies #[trigger] d.reg(q) == c.reg(q) by {
        assert(c1.reg(q) == c.reg(q));
    }
    d
}

/// The test of a signed division leaves one in `rax` where the quotient is a value of the
/// type, else zero: it is not one just where the least value is divided by minus one.
#[verifier::spinoff_prover]
pub proof fn division_test_is_right(
    env: Env,
    s: LowState,
    args: Seq<Operand>,
    ty: TypeId,
    c: Cpu,
) -> (d: Cpu)
    requires
        c.wf(),
        s.err is None,
        args.len() >= 2,
        env.repr_of(ty).signed,
        1 <= env.repr_of(ty).width <= 64,
        !env.is_wide_int(ty),
        operand_word(env, c, args[0]) is Some,
        operand_word(env, c, args[1]) is Some,
        !in_register(env, args[1], Gpr::Rax),
        !in_register(env, args[1], Gpr::Rcx),
        !in_register(env, args[1], Gpr::Rdx),
    ensures
        takes(s, env.div_overflow_predicate(s, args, ty), c, d),
        only_scratch(c, d),
        d.reg(0) == truth(
            !(signed64(operand_word(env, c, args[0]).unwrap()) == -pow2(
                (env.repr_of(ty).width - 1) as nat,
            ) && signed64(operand_word(env, c, args[1]).unwrap()) == -1),
        ),
{
    reveal(Env::div_overflow_predicate);
    reveal(Env::first_operand_to);
    reveal(Env::second_operand_to);
    takes_nothing(s, c);
    assert(index(Gpr::Rax) == 0 && index(Gpr::Rcx) == 1 && index(Gpr::Rdx) == 2 && index(Gpr::Rbp)
        == 5);
    let r = env.repr_of(ty);
    least_value(r);
    let t1 = env.operand_to(s, args[0], Gpr::Rax);
    let c1 = operand_loads(env, s, s, args[0], Gpr::Rax, c, c);
    let t2 = env.rax_is(t1, min_of(r), Cc::E);
    let c2 = equality_runs(env, s, t1, min_of(r), Cc::E, c, c1);
    let t3 = t2.on(t2.text.mov_rr(Gpr::Rdx, Gpr::Rax));
    let c3 = follow_mov_rr(s, t2, Gpr::Rdx, Gpr::Rax, c, c2);
    assert(c3.reg(5) == c.reg(5)) by {
        assert(c2.reg(5) == c1.reg(5));
    }
    assert(operand_word(env, c3, args[1]) == operand_word(env, c, args[1])) by {
        reveal(local_word);
        if let Operand::Copy(p) = args[1] {
            if let Some(q) = env.reg_of(p.base) {
                gpr_codes_distinct(q, Gpr::Rax);
                gpr_codes_distinct(q, Gpr::Rcx);
                gpr_codes_distinct(q, Gpr::Rdx);
                assert(c2.reg(index(q)) == c1.reg(index(q)));
            }
        }
    }
    assert(t3.err is None) by {
        reveal(Env::rax_is);
        reveal(Env::set_bool);
    }
    let t4 = env.operand_to(t3, args[1], Gpr::Rax);
    let c4 = operand_loads(env, s, t3, args[1], Gpr::Rax, c, c3);
    let t5 = env.rax_is(t4, MINUS_ONE, Cc::E);
    let c5 = equality_runs(env, s, t4, MINUS_ONE, Cc::E, c, c4);
    assert(c5.reg(2) == c3.reg(2));
    let t6 = t5.on(t5.text.and_rr(Gpr::Rax, Gpr::Rdx));
    let c6 = follow_and_rr(s, t5, Gpr::Rax, Gpr::Rdx, c, c5);
    let d = follow_xor_ri(s, t6, Gpr::Rax, 1, c, c6);
    assert(0u64 & 0 == 0 && 0u64 & 1 == 0 && 1u64 & 0 == 0 && 1u64 & 1 == 1) by (bit_vector);
    truth_turned(true);
    truth_turned(false);
    assert forall|q: int| 3 <= q < 16 implies #[trigger] d.reg(q) == c.reg(q) by {
        assert(c1.reg(q) == c.reg(q));
        assert(c2.reg(q) == c1.reg(q));
        assert(c3.reg(q) == c2.reg(q));
        assert(c4.reg(q) == c3.reg(q));
        assert(c5.reg(q) == c4.reg(q));
    }
    d
}

} // verus!
