//! What lowered code does with integers of two words.
use vstd::prelude::*;

use crate::bytes::wrap64;
use crate::lower::arith_effects::{in_register, local_word, operand_word};
use crate::lower::effects::takes;
use crate::lower::env::{Env, LowState};
use crate::lower::follow::{follow_mov_ri, follow_mov_store, follow_not_r};
use crate::lower::mem_effects::kept_but;
use crate::lower::operand_effects::{
    addressable, pair_at, wide_operand_loads, wide_scratch, wide_value,
};
use crate::lower::place_effects::{led, no_index_in, stepped};
use crate::lower::scalar::sum32;
use crate::lower::simulation::takes_compose;
use crate::lower::word_effects::{pair, wide_difference_is_right, wide_sum_is_right, wrap128};
use crate::machine::{
    Bytes, Cpu, SPAN, elsewhere_stays, fetch, in_space, pow256_values, written_is_read,
};
use crate::mir::{BinOp, LocalId, Operand, Place, Proj, UnOp};
use crate::reg::{Gpr, gpr_codes_distinct};
use crate::steps::index;

verus! {

/// The registers that code of an expression may use.
pub open spec fn scratch() -> Set<Gpr> {
    set![
        Gpr::Rax,
        Gpr::Rcx,
        Gpr::Rdx,
        Gpr::Rsi,
        Gpr::Rdi,
        Gpr::R8,
        Gpr::R9,
        Gpr::R10,
        Gpr::R11,
    ]
}

/// Whether an operand stays the same number when those registers change.
pub open spec fn number_stands(env: Env, c: Cpu, op: Operand) -> bool {
    forall|d: Cpu|
        kept_but(c, d, scratch()) && d.mem == c.mem ==> #[trigger] wide_value(env, d, op)
            == wide_value(env, c, op)
}

/// Whether an operand is in none of those registers.
pub open spec fn outside_scratch(env: Env, op: Operand) -> bool {
    op matches Operand::Copy(p) ==> {
        &&& env.reg_of(p.base) matches Some(r) ==> !scratch().contains(r)
        &&& forall|r: Gpr| scratch().contains(r) ==> #[trigger] no_index_in(env, p, r)
    }
}

proof fn step_stays(env: Env, c: Cpu, d: Cpu, p: Place, i: usize, n: usize, a: u64)
    requires
        kept_but(c, d, scratch()),
        d.mem == c.mem,
        outside_scratch(env, Operand::Copy(p)),
        i < n <= p.proj@.len(),
    ensures
        stepped(env, d, p, i, n, a) == stepped(env, c, p, i, n, a),
{
    if let Proj::Index { at, .. } = p.proj@[i as int] {
        word_stays(env, c, d, at, p, i as int);
    }
}

proof fn word_stays(env: Env, c: Cpu, d: Cpu, at: Operand, p: Place, i: int)
    requires
        kept_but(c, d, scratch()),
        d.mem == c.mem,
        outside_scratch(env, Operand::Copy(p)),
        0 <= i < p.proj@.len(),
        p.proj@[i] matches Proj::Index { at: k, .. } && k == at,
    ensures
        operand_word(env, d, at) == operand_word(env, c, at),
{
    reveal(local_word);
    assert(index(Gpr::Rbp) == 5);
    assert(!scratch().contains(Gpr::Rbp));
    assert(d.reg(5) == c.reg(5));
    if let Operand::Copy(q) = at {
        if let Some(r) = env.reg_of(q.base) {
            if scratch().contains(r) {
                assert(no_index_in(env, p, r));
                assert(!in_register(env, at, r));
            }
        }
    }
}

pub(crate) proof fn led_stays(env: Env, c: Cpu, d: Cpu, p: Place, i: usize, n: usize, a: u64)
    requires
        kept_but(c, d, scratch()),
        d.mem == c.mem,
        outside_scratch(env, Operand::Copy(p)),
        n <= p.proj@.len(),
    ensures
        led(env, d, p, i, n, a) == led(env, c, p, i, n, a),
    decreases n - i,
{
    if i < n {
        step_stays(env, c, d, p, i, n, a);
        if let Some(b) = stepped(env, c, p, i, n, a) {
            led_stays(env, c, d, p, (i + 1) as usize, n, b);
        }
    }
}

/// An operand that is in none of those registers stays the same number.
pub proof fn number_outside_scratch_stands(env: Env, c: Cpu, op: Operand)
    requires
        outside_scratch(env, op),
        op matches Operand::Copy(p) ==> p.proj@.len() <= usize::MAX,
    ensures
        number_stands(env, c, op),
{
    reveal(local_word);
    assert forall|d: Cpu| kept_but(c, d, scratch()) && d.mem == c.mem implies #[trigger] wide_value(
        env,
        d,
        op,
    ) == wide_value(env, c, op) by {
        assert(index(Gpr::Rbp) == 5);
        assert(!scratch().contains(Gpr::Rbp));
        assert(d.reg(5) == c.reg(5));
        if let Operand::Copy(p) = op {
            let n = p.proj@.len() as usize;
            if let Some(r) = env.reg_of(p.base) {
                assert(d.reg(index(r)) == c.reg(index(r)));
            }
            let k = if n > 0 {
                (n - 1) as usize
            } else {
                0
            };
            if let Some(h) = env.home(p.base) {
                led_stays(env, c, d, p, 0, n, wrap64(c.reg(5) + h));
                led_stays(env, c, d, p, 0, k, wrap64(c.reg(5) + h));
            } else if let Some(r) = env.reg_of(p.base) {
                led_stays(env, c, d, p, 1, n, c.reg(index(r)));
                led_stays(env, c, d, p, 1, k, c.reg(index(r)));
            }
        }
    }
}

// ---------------------------------------------------------------------------
//  Sums, differences and complements
// ---------------------------------------------------------------------------

proof fn wraps_add_up(a: int, b: int)
    ensures
        wrap128(wrap128(a) + wrap128(b)) == wrap128(a + b),
        wrap128(wrap128(a) - wrap128(b)) == wrap128(a - b),
{
    let m = SPAN * SPAN;
    vstd::arithmetic::div_mod::lemma_add_mod_noop(a, b, m);
    vstd::arithmetic::div_mod::lemma_sub_mod_noop(a, b, m);
}

pub(crate) proof fn loading_keeps(c: Cpu, d: Cpu, lo: Gpr, hi: Gpr)
    requires
        kept_but(c, d, wide_scratch(lo, hi)),
        scratch().contains(lo),
        scratch().contains(hi),
    ensures
        kept_but(c, d, scratch()),
{
    assert forall|r: Gpr| !scratch().contains(r) implies #[trigger] d.reg(index(r)) == c.reg(
        index(r),
    ) by {
        assert(!wide_scratch(lo, hi).contains(r));
    }
}

pub(crate) proof fn keeping_follows(c: Cpu, d: Cpu, e: Cpu)
    requires
        kept_but(c, d, scratch()),
        kept_but(d, e, scratch()),
    ensures
        kept_but(c, e, scratch()),
{
    assert forall|r: Gpr| !scratch().contains(r) implies #[trigger] e.reg(index(r)) == c.reg(
        index(r),
    ) by {
        assert(d.reg(index(r)) == c.reg(index(r)));
    }
}

/// Whether an operator is one of those on two words, and what it gives.
pub open spec fn wide_result(op: BinOp, a: int, b: int) -> Option<int> {
    match op {
        BinOp::Add => Some(a + b),
        BinOp::Sub => Some(a - b),
        _ => None,
    }
}

/// The sum or difference of two operands, each a number of two words or a narrower one, is
/// right modulo `2` to the `128`.
#[verifier::spinoff_prover]
#[verifier::rlimit(40)]
pub proof fn wide_operator_is_right(
    env: Env,
    s: LowState,
    op: BinOp,
    lhs: Operand,
    rhs: Operand,
    c: Cpu,
) -> (d: Cpu)
    requires
        c.wf(),
        s.err is None,
        addressable(env, lhs),
        addressable(env, rhs),
        wide_value(env, c, lhs) is Some,
        wide_value(env, c, rhs) is Some,
        number_stands(env, c, rhs),
        wide_result(op, 0, 0) is Some,
    ensures
        takes(s, env.eval_wide_binary_into_pair(s, op, lhs, rhs), c, d),
        env.eval_wide_binary_into_pair(s, op, lhs, rhs).err is None,
        pair(d.reg(0), d.reg(2)) == wrap128(
            wide_result(
                op,
                wide_value(env, c, lhs).unwrap(),
                wide_value(env, c, rhs).unwrap(),
            ).unwrap(),
        ),
        kept_but(c, d, scratch()),
        d.mem == c.mem,
{
    reveal(Env::eval_wide_binary_into_pair);
    assert(index(Gpr::Rax) == 0 && index(Gpr::Rcx) == 1 && index(Gpr::Rdx) == 2 && index(Gpr::R8)
        == 8);
    let a = wide_value(env, c, lhs).unwrap();
    let b = wide_value(env, c, rhs).unwrap();
    let t = env.load_wide_operand(s, lhs, Gpr::Rax, Gpr::Rdx);
    let c1 = wide_operand_loads(env, s, lhs, Gpr::Rax, Gpr::Rdx, c);
    loading_keeps(c, c1, Gpr::Rax, Gpr::Rdx);
    assert(wide_value(env, c1, rhs) == wide_value(env, c, rhs));
    let u = env.load_wide_operand(t, rhs, Gpr::Rcx, Gpr::R8);
    let c2 = wide_operand_loads(env, t, rhs, Gpr::Rcx, Gpr::R8, c1);
    takes_compose(s, t, u, c, c1, c2);
    loading_keeps(c1, c2, Gpr::Rcx, Gpr::R8);
    keeping_follows(c, c1, c2);
    assert(!wide_scratch(Gpr::Rcx, Gpr::R8).contains(Gpr::Rax));
    assert(!wide_scratch(Gpr::Rcx, Gpr::R8).contains(Gpr::Rdx));
    assert(c2.reg(index(Gpr::Rax)) == c1.reg(0) && c2.reg(index(Gpr::Rdx)) == c1.reg(2));
    wraps_add_up(a, b);
    let d = if op == BinOp::Add {
        wide_sum_is_right(s, u, c, c2)
    } else {
        wide_difference_is_right(s, u, c, c2)
    };
    assert(kept_but(c2, d, scratch())) by {
        assert forall|r: Gpr| !scratch().contains(r) implies #[trigger] d.reg(index(r)) == c2.reg(
            index(r),
        ) by {
            assert(!set![Gpr::Rax, Gpr::Rdx].contains(r));
        }
    }
    keeping_follows(c, c2, d);
    d
}

/// What a complement gives.
pub open spec fn wide_complement(op: UnOp, a: int) -> Option<int> {
    match op {
        UnOp::Neg => Some(-a),
        UnOp::BitNot => Some(-1 - a),
        UnOp::Not => None,
    }
}

proof fn complement_pairs(x: u64, y: u64, a: int)
    requires
        pair(x, y) == wrap128(a),
    ensures
        pair((SPAN - 1 - x) as u64, (SPAN - 1 - y) as u64) == wrap128(-1 - a),
{
    let m = SPAN * SPAN;
    let p = pair((SPAN - 1 - x) as u64, (SPAN - 1 - y) as u64);
    assert(p == m - 1 - pair(x, y));
    wraps_add_up(-1, a);
    assert(wrap128(-1) == m - 1);
    assert(0 <= p < m);
    vstd::arithmetic::div_mod::lemma_small_mod(p as nat, m as nat);
}

#[verifier::spinoff_prover]
proof fn complement_runs(s: LowState, t: LowState, a: int, c: Cpu, d: Cpu) -> (e: Cpu)
    requires
        takes(s, t, c, d),
        d.wf(),
        pair(d.reg(0), d.reg(2)) == wrap128(a),
    ensures
        ({
            let u = t.on(t.text.not_r(Gpr::Rax));
            takes(s, u.on(u.text.not_r(Gpr::Rdx)), c, e)
        }),
        pair(e.reg(0), e.reg(2)) == wrap128(-1 - a),
        kept_but(d, e, set![Gpr::Rax, Gpr::Rdx]),
        e.mem == d.mem,
{
    assert(index(Gpr::Rax) == 0 && index(Gpr::Rdx) == 2);
    let u = t.on(t.text.not_r(Gpr::Rax));
    let d1 = follow_not_r(s, t, Gpr::Rax, c, d);
    let e = follow_not_r(s, u, Gpr::Rdx, c, d1);
    complement_pairs(d.reg(0), d.reg(2), a);
    assert forall|r: Gpr| !set![Gpr::Rax, Gpr::Rdx].contains(r) implies #[trigger] e.reg(index(r))
        == d.reg(index(r)) by {
        gpr_codes_distinct(r, Gpr::Rax);
        gpr_codes_distinct(r, Gpr::Rdx);
    }
    e
}

/// The negation or the complement of an operand is right modulo `2` to the `128`.
#[verifier::spinoff_prover]
#[verifier::rlimit(40)]
pub proof fn wide_complement_is_right(
    env: Env,
    s: LowState,
    op: UnOp,
    operand: Operand,
    c: Cpu,
) -> (d: Cpu)
    requires
        c.wf(),
        s.err is None,
        addressable(env, operand),
        wide_value(env, c, operand) is Some,
        op != UnOp::Not,
    ensures
        takes(s, env.eval_wide_unary_into_pair(s, op, operand), c, d),
        env.eval_wide_unary_into_pair(s, op, operand).err is None,
        pair(d.reg(0), d.reg(2)) == wrap128(
            wide_complement(op, wide_value(env, c, operand).unwrap()).unwrap(),
        ),
        kept_but(c, d, scratch()),
        d.mem == c.mem,
{
    reveal(Env::eval_wide_unary_into_pair);
    assert(index(Gpr::Rax) == 0 && index(Gpr::Rcx) == 1 && index(Gpr::Rdx) == 2 && index(Gpr::R8)
        == 8);
    let a = wide_value(env, c, operand).unwrap();
    let t = env.load_wide_operand(s, operand, Gpr::Rax, Gpr::Rdx);
    let c1 = wide_operand_loads(env, s, operand, Gpr::Rax, Gpr::Rdx, c);
    loading_keeps(c, c1, Gpr::Rax, Gpr::Rdx);
    let t1 = t.on(t.text.not_r(Gpr::Rax));
    let t2 = t1.on(t1.text.not_r(Gpr::Rdx));
    let c2 = complement_runs(s, t, a, c, c1);
    assert(kept_but(c1, c2, scratch())) by {
        assert forall|r: Gpr| !scratch().contains(r) implies #[trigger] c2.reg(index(r)) == c1.reg(
            index(r),
        ) by {
            assert(!set![Gpr::Rax, Gpr::Rdx].contains(r));
        }
    }
    keeping_follows(c, c1, c2);
    if op == UnOp::Neg {
        let t3 = t2.on(t2.text.mov_ri(Gpr::Rcx, 1));
        let c3 = follow_mov_ri(s, t2, Gpr::Rcx, 1, c, c2);
        let t4 = t3.on(t3.text.mov_ri(Gpr::R8, 0));
        let c4 = follow_mov_ri(s, t3, Gpr::R8, 0, c, c3);
        let d = wide_sum_is_right(s, t4, c, c4);
        assert(pair(1, 0) == wrap128(1));
        wraps_add_up(-1 - a, 1);
        assert(kept_but(c2, d, scratch())) by {
            assert forall|r: Gpr| !scratch().contains(r) implies #[trigger] d.reg(index(r))
                == c2.reg(index(r)) by {
                assert(!set![Gpr::Rax, Gpr::Rdx].contains(r));
                gpr_codes_distinct(r, Gpr::Rcx);
                gpr_codes_distinct(r, Gpr::R8);
                assert(c4.reg(index(r)) == c2.reg(index(r)));
            }
        }
        keeping_follows(c, c2, d);
        d
    } else {
        c2
    }
}

// ---------------------------------------------------------------------------
//  Results in the frame
// ---------------------------------------------------------------------------

/// Whether `k` is `m` but for `n` bytes.
pub open spec fn same_outside(m: Bytes, k: Bytes, a: int, n: int) -> bool {
    forall|x: int| !(a <= x < a + n) ==> #[trigger] k(x) == m(x)
}

#[verifier::spinoff_prover]
pub(crate) proof fn pair_is_stored(
    env: Env,
    s: LowState,
    t: LowState,
    at: i32,
    c: Cpu,
    d: Cpu,
) -> (e: Cpu)
    requires
        takes(s, t, c, d),
        d.wf(),
        at + 8 <= i32::MAX,
        in_space(d.reg(5) + at, 16),
    ensures
        takes(s, env.store_wide_pair(t, at, Gpr::Rax, Gpr::Rdx), c, e),
        env.store_wide_pair(t, at, Gpr::Rax, Gpr::Rdx).err == t.err,
        e.regs == d.regs,
        kept_but(d, e, Set::empty()),
        pair_at(e.mem, d.reg(5) + at) == pair(d.reg(0), d.reg(2)),
        same_outside(d.mem, e.mem, d.reg(5) + at, 16),
{
    reveal(Env::store_wide_pair);
    assert(index(Gpr::Rax) == 0 && index(Gpr::Rdx) == 2);
    let a = d.reg(5) + at;
    let t1 = t.on(t.text.mov_store(at, Gpr::Rax));
    let d1 = follow_mov_store(s, t, at, Gpr::Rax, c, d);
    assert(sum32(at, 8) == at + 8);
    let e = follow_mov_store(s, t1, sum32(at, 8), Gpr::Rdx, c, d1);
    pow256_values();
    written_is_read(d.mem, a, 8, d.reg(0) as int);
    elsewhere_stays(d1.mem, a + 8, 8, d.reg(2) as int, a, 8);
    written_is_read(d1.mem, a + 8, 8, d.reg(2) as int);
    assert(fetch(e.mem, a, 8) == d.reg(0));
    assert(fetch(e.mem, a + 8, 8) == d.reg(2));
    e
}

/// The sum or difference of two operands goes to the home of its local, and nowhere else.
#[verifier::spinoff_prover]
pub proof fn wide_operator_is_stored(
    env: Env,
    s: LowState,
    dst: LocalId,
    op: BinOp,
    lhs: Operand,
    rhs: Operand,
    c: Cpu,
) -> (d: Cpu)
    requires
        c.wf(),
        s.err is None,
        addressable(env, lhs),
        addressable(env, rhs),
        wide_value(env, c, lhs) is Some,
        wide_value(env, c, rhs) is Some,
        number_stands(env, c, rhs),
        wide_result(op, 0, 0) is Some,
        env.home(dst) matches Some(h) && h + 8 <= i32::MAX && in_space(c.reg(5) + h, 16),
    ensures
        takes(s, env.lower_wide_binary(s, dst, op, lhs, rhs), c, d),
        env.lower_wide_binary(s, dst, op, lhs, rhs).err is None,
        pair_at(d.mem, c.reg(5) + env.home(dst).unwrap()) == wrap128(
            wide_result(
                op,
                wide_value(env, c, lhs).unwrap(),
                wide_value(env, c, rhs).unwrap(),
            ).unwrap(),
        ),
        same_outside(c.mem, d.mem, c.reg(5) + env.home(dst).unwrap(), 16),
        kept_but(c, d, scratch()),
{
    reveal(Env::lower_wide_binary);
    let h = env.home(dst).unwrap();
    let t = env.eval_wide_binary_into_pair(s, op, lhs, rhs);
    let c1 = wide_operator_is_right(env, s, op, lhs, rhs, c);
    frame_stays(c, c1);
    let d = pair_is_stored(env, s, t, h, c, c1);
    storing_keeps(c, c1, d);
    d
}

pub(crate) proof fn frame_stays(c: Cpu, d: Cpu)
    requires
        kept_but(c, d, scratch()),
    ensures
        d.reg(5) == c.reg(5),
{
    assert(!scratch().contains(Gpr::Rbp));
    assert(d.reg(index(Gpr::Rbp)) == c.reg(index(Gpr::Rbp)));
    assert(index(Gpr::Rbp) == 5);
}

proof fn storing_keeps(c: Cpu, d: Cpu, e: Cpu)
    requires
        kept_but(c, d, scratch()),
        kept_but(d, e, Set::empty()),
    ensures
        kept_but(c, e, scratch()),
{
    assert forall|r: Gpr| !scratch().contains(r) implies #[trigger] e.reg(index(r)) == c.reg(
        index(r),
    ) by {
        assert(!Set::<Gpr>::empty().contains(r));
        assert(d.reg(index(r)) == c.reg(index(r)));
    }
}

/// The negation or the complement of an operand goes to the home of its local, and nowhere
/// else.
#[verifier::spinoff_prover]
pub proof fn wide_complement_is_stored(
    env: Env,
    s: LowState,
    dst: LocalId,
    op: UnOp,
    operand: Operand,
    c: Cpu,
) -> (d: Cpu)
    requires
        c.wf(),
        s.err is None,
        addressable(env, operand),
        wide_value(env, c, operand) is Some,
        op != UnOp::Not,
        env.home(dst) matches Some(h) && h + 8 <= i32::MAX && in_space(c.reg(5) + h, 16),
    ensures
        takes(s, env.lower_wide_unary(s, dst, op, operand), c, d),
        env.lower_wide_unary(s, dst, op, operand).err is None,
        pair_at(d.mem, c.reg(5) + env.home(dst).unwrap()) == wrap128(
            wide_complement(op, wide_value(env, c, operand).unwrap()).unwrap(),
        ),
        same_outside(c.mem, d.mem, c.reg(5) + env.home(dst).unwrap(), 16),
        kept_but(c, d, scratch()),
{
    reveal(Env::lower_wide_unary);
    let h = env.home(dst).unwrap();
    let t = env.eval_wide_unary_into_pair(s, op, operand);
    let c1 = wide_complement_is_right(env, s, op, operand, c);
    frame_stays(c, c1);
    let d = pair_is_stored(env, s, t, h, c, c1);
    storing_keeps(c, c1, d);
    d
}

/// A number converted to two words keeps its value, and goes to the home of its local and
/// nowhere else.
#[verifier::spinoff_prover]
pub proof fn widened_number_is_stored(
    env: Env,
    s: LowState,
    dst: LocalId,
    operand: Operand,
    c: Cpu,
) -> (d: Cpu)
    requires
        c.wf(),
        s.err is None,
        addressable(env, operand),
        wide_value(env, c, operand) is Some,
        env.home(dst) matches Some(h) && h + 8 <= i32::MAX && in_space(c.reg(5) + h, 16),
    ensures
        takes(s, env.lower_wide_cast(s, dst, operand), c, d),
        env.lower_wide_cast(s, dst, operand).err is None,
        pair_at(d.mem, c.reg(5) + env.home(dst).unwrap()) == wrap128(
            wide_value(env, c, operand).unwrap(),
        ),
        same_outside(c.mem, d.mem, c.reg(5) + env.home(dst).unwrap(), 16),
        kept_but(c, d, scratch()),
{
    reveal(Env::lower_wide_cast);
    assert(index(Gpr::Rax) == 0 && index(Gpr::Rdx) == 2);
    let h = env.home(dst).unwrap();
    let t = env.load_wide_operand(s, operand, Gpr::Rax, Gpr::Rdx);
    let c1 = wide_operand_loads(env, s, operand, Gpr::Rax, Gpr::Rdx, c);
    loading_keeps(c, c1, Gpr::Rax, Gpr::Rdx);
    frame_stays(c, c1);
    let d = pair_is_stored(env, s, t, h, c, c1);
    storing_keeps(c, c1, d);
    d
}

} // verus!
