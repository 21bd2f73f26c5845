//! What the overflow test on integers of two words tells.
use vstd::prelude::*;

use crate::encode::Cc;
use crate::lower::check_effects::{answered, flag_to_answer, truth};
use crate::lower::effects::{takes, tells};
use crate::lower::env::{Env, LowState};
use crate::lower::follow::{follow_adc_rr, follow_add_rr, follow_sbb_rr, follow_sub_rr};
use crate::lower::intr::ArithKind;
use crate::lower::mem_effects::kept_but;
use crate::lower::operand_effects::{addressable, wide_operand_loads, wide_scratch, wide_value};
use crate::lower::simulation::takes_compose;
use crate::lower::wide_effects::{keeping_follows, loading_keeps, number_stands, scratch};
use crate::lower::word_effects::{pair, wrap128};
use crate::machine::{Cpu, SPAN, is_signed64, signed64};
use crate::mir::Operand;
use crate::reg::{Gpr, gpr_codes_distinct};
use crate::steps::index;

verus! {

/// The signed number that a number is modulo `2` to the `128`.
pub open spec fn signed128(v: int) -> int {
    let u = wrap128(v);
    if 2 * u >= SPAN * SPAN {
        u - SPAN * SPAN
    } else {
        u
    }
}

/// Whether a number is a signed one of two words.
pub open spec fn is_signed128(v: int) -> bool {
    -(SPAN * SPAN) <= 2 * v && 2 * v < SPAN * SPAN
}

proof fn halves_are_signed(lo: u64, hi: u64, v: int)
    requires
        pair(lo, hi) == wrap128(v),
    ensures
        signed128(v) == lo + signed64(hi) * SPAN,
{
    let u = wrap128(v);
    assert(u == lo + hi * SPAN);
    if signed64(hi) < 0 {
        assert(2 * u >= SPAN * SPAN);
    } else {
        assert(2 * u < SPAN * SPAN);
    }
}

proof fn high_half_tells(lo: int, hi: int)
    requires
        0 <= lo < SPAN,
    ensures
        is_signed128(lo + hi * SPAN) == is_signed64(hi),
{
}

/// The code of an operation on two words.
pub open spec fn two_words_operated(t: LowState, kind: ArithKind) -> LowState {
    if kind == ArithKind::Add {
        let u = t.on(t.text.add_rr(Gpr::Rax, Gpr::Rcx));
        u.on(u.text.adc_rr(Gpr::Rdx, Gpr::R8))
    } else {
        let u = t.on(t.text.sub_rr(Gpr::Rax, Gpr::Rcx));
        u.on(u.text.sbb_rr(Gpr::Rdx, Gpr::R8))
    }
}

/// The exact sum or difference of two numbers.
pub open spec fn exactly(kind: ArithKind, a: int, b: int) -> int {
    if kind == ArithKind::Add {
        a + b
    } else {
        a - b
    }
}

#[verifier::spinoff_prover]
#[verifier::rlimit(40)]
proof fn operation_tells(
    s: LowState,
    t: LowState,
    kind: ArithKind,
    a: int,
    b: int,
    c: Cpu,
    d: Cpu,
) -> (e: Cpu)
    requires
        takes(s, t, c, d),
        d.wf(),
        kind != ArithKind::Mul,
        pair(d.reg(0), d.reg(2)) == wrap128(a),
        pair(d.reg(1), d.reg(8)) == wrap128(b),
    ensures
        takes(s, two_words_operated(t, kind), c, e),
        e.wf(),
        e.mem == d.mem,
        e.over == Some(!is_signed128(exactly(kind, signed128(a), signed128(b)))),
        kept_but(d, e, scratch()),
{
    assert(index(Gpr::Rax) == 0 && index(Gpr::Rcx) == 1 && index(Gpr::Rdx) == 2 && index(Gpr::R8)
        == 8);
    let x = d.reg(0);
    let y = d.reg(1);
    let p = signed64(d.reg(2));
    let q = signed64(d.reg(8));
    halves_are_signed(x, d.reg(2), a);
    halves_are_signed(y, d.reg(8), b);
    let e = if kind == ArithKind::Add {
        let k: int = if x + y >= SPAN {
            1
        } else {
            0
        };
        let u = t.on(t.text.add_rr(Gpr::Rax, Gpr::Rcx));
        let d1 = follow_add_rr(s, t, Gpr::Rax, Gpr::Rcx, c, d);
        assert(signed128(a) + signed128(b) == (x + y - k * SPAN) + (p + q + k) * SPAN);
        high_half_tells(x + y - k * SPAN, p + q + k);
        follow_adc_rr(s, u, Gpr::Rdx, Gpr::R8, c, d1)
    } else {
        let k: int = if x < y {
            1
        } else {
            0
        };
        let u = t.on(t.text.sub_rr(Gpr::Rax, Gpr::Rcx));
        let d1 = follow_sub_rr(s, t, Gpr::Rax, Gpr::Rcx, c, d);
        assert(signed128(a) - signed128(b) == (x - y + k * SPAN) + (p - q - k) * SPAN);
        high_half_tells(x - y + k * SPAN, p - q - k);
        follow_sbb_rr(s, u, Gpr::Rdx, Gpr::R8, c, d1)
    };
    assert forall|r: Gpr| !scratch().contains(r) implies #[trigger] e.reg(index(r)) == d.reg(
        index(r),
    ) by {
        assert(r != Gpr::Rax && r != Gpr::Rdx);
        gpr_codes_distinct(r, Gpr::Rax);
        gpr_codes_distinct(r, Gpr::Rdx);
    }
    e
}

/// The overflow test of a sum or difference of two words leaves one in `rax` where the exact
/// result is a signed number of two words, else zero.
#[verifier::spinoff_prover]
#[verifier::rlimit(40)]
pub proof fn wide_overflow_test_is_right(
    env: Env,
    s: LowState,
    args: Seq<Operand>,
    kind: ArithKind,
    c: Cpu,
) -> (d: Cpu)
    requires
        c.wf(),
        s.err is None,
        args.len() >= 2,
        addressable(env, args[0]),
        addressable(env, args[1]),
        wide_value(env, c, args[0]) is Some,
        wide_value(env, c, args[1]) is Some,
        number_stands(env, c, args[1]),
        kind != ArithKind::Mul,
    ensures
        takes(s, env.overflow_predicate_128(s, args, kind), c, d),
        env.overflow_predicate_128(s, args, kind).err is None,
        d.reg(0) == truth(
            is_signed128(
                exactly(
                    kind,
                    signed128(wide_value(env, c, args[0]).unwrap()),
                    signed128(wide_value(env, c, args[1]).unwrap()),
                ),
            ),
        ),
        kept_but(c, d, scratch()),
        d.mem == c.mem,
{
    assert(index(Gpr::Rax) == 0 && index(Gpr::Rcx) == 1 && index(Gpr::Rdx) == 2 && index(Gpr::R8)
        == 8);
    let lhs = args[0];
    let rhs = args[1];
    let a = wide_value(env, c, lhs).unwrap();
    let b = wide_value(env, c, rhs).unwrap();
    let t = env.load_wide_operand(s, lhs, Gpr::Rax, Gpr::Rdx);
    let c1 = wide_operand_loads(env, s, lhs, Gpr::Rax, Gpr::Rdx, c);
    loading_keeps(c, c1, Gpr::Rax, Gpr::Rdx);
    assert(wide_value(env, c1, rhs) == wide_value(env, c, rhs));
    let u = env.load_wide_operand(t, rhs, Gpr::Rcx, Gpr::R8);
    let c2 = wide_operand_loads(env, t, rhs, Gpr::Rcx, Gpr::R8, c1);
    takes_compose(s, t, u, c, c1, c2);
    loading_keeps(c1, c2, Gpr::Rcx, Gpr::R8);
    keeping_follows(c, c1, c2);
    assert(!wide_scratch(Gpr::Rcx, Gpr::R8).contains(Gpr::Rax));
    assert(!wide_scratch(Gpr::Rcx, Gpr::R8).contains(Gpr::Rdx));
    assert(c2.reg(index(Gpr::Rax)) == c1.reg(0) && c2.reg(index(Gpr::Rdx)) == c1.reg(2));
    let v = two_words_operated(u, kind);
    let c3 = operation_tells(s, u, kind, a, b, c, c2);
    keeping_follows(c, c2, c3);
    let over = !is_signed128(exactly(kind, signed128(a), signed128(b)));
    assert(tells(c3, Cc::O) == Some(over));
    let d = flag_to_answer(env, s, v, Cc::O, c, c3, over);
    assert(env.overflow_predicate_128(s, args, kind) == answered(env, v, Cc::O)) by {
        reveal(Env::overflow_predicate_128);
        reveal(Env::wide_argument);
    }
    assert(answered(env, v, Cc::O).err is None) by {
        reveal(Env::set_bool);
    }
    assert(kept_but(c3, d, scratch())) by {
        assert forall|r: Gpr| !scratch().contains(r) implies #[trigger] d.reg(index(r)) == c3.reg(
            index(r),
        ) by {
            gpr_codes_distinct(r, Gpr::Rax);
        }
    }
    keeping_follows(c, c3, d);
    d
}

} // verus!
