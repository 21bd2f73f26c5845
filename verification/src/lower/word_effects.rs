//! What lowered code does with whole words: the generator, the clock, strides and numbers of
//! two words.
use vstd::prelude::*;

use crate::bytes::wrap64;
use crate::lower::arith_effects::{only_scratch, same_word, value_is_word};
use crate::lower::effects::{only_regs, takes, takes_nothing};
use crate::lower::env::{Env, LowState};
use crate::lower::follow::{
    follow_adc_rr, follow_add_rr, follow_imul_rr, follow_imul_rri, follow_mov_load_mem,
    follow_mov_ri, follow_mov_ri_state, follow_mov_rr, follow_mov_store_mem, follow_sbb_rr,
    follow_shl_ri, follow_shr_ri, follow_sub_rr, follow_xor_rr,
};
use crate::lower::intr::{GOLDEN, MIX_ONE, MIX_TWO};
use crate::lower::mem_effects::{fetched_is_word, holds_at, kept_but};
use crate::lower::scalar::log2_of;
use crate::machine::{Cpu, SPAN, Shift, fetch, in_space, shifted, signed64};
use crate::reg::{Gpr, gpr_codes_distinct};
use crate::steps::index;
use vstd::arithmetic::power2::{lemma2_to64, lemma_pow2_unfold, pow2};
use vstd::bits::lemma_u64_shr_is_div;

verus! {

// ---------------------------------------------------------------------------
//  The random number generator
// ---------------------------------------------------------------------------

/// The state that follows a state of the SplitMix64 generator.
pub open spec fn next_state(state: u64) -> u64 {
    wrap64(state + 0x9E37_79B9_7F4A_7C15)
}

/// A word times another, modulo `2` to the `64`.
pub open spec fn times(x: u64, y: u64) -> u64 {
    wrap64(x * y)
}

/// The number that SplitMix64 gives out at a state.
pub open spec fn mixed(z: u64) -> u64 {
    let a = times(z ^ (z >> 30), 0xBF58_476D_1CE4_E5B9);
    let b = times(a ^ (a >> 27), 0x94D0_49BB_1331_11EB);
    b ^ (b >> 31)
}

pub(crate) proof fn product_is_word(x: u64, y: u64)
    ensures
        wrap64(signed64(x) * signed64(y)) == times(x, y),
{
    let m = value_is_word(x, true);
    let n = value_is_word(y, true);
    assert((x + m * SPAN) * (y + n * SPAN) == x * y + (m * y + n * x + m * n * SPAN) * SPAN)
        by (nonlinear_arith);
    same_word(signed64(x) * signed64(y), x * y, m * y + n * x + m * n * SPAN);
}

proof fn shift_right_is(x: u64, n: u8)
    requires
        n < 64,
    ensures
        shifted(Shift::Right, x, n as int) == x >> n,
        0 <= shifted(Shift::Right, x, n as int) < SPAN,
{
    reveal(shifted);
    lemma_u64_shr_is_div(x, n as u64);
    assert(x >> n == x >> (n as u64)) by (bit_vector)
        requires
            n < 64,
    ;
}

/// Whether only `rax`, `rcx`, `rdx` and `r11` changed, beyond memory.
pub open spec fn only_mixing(c: Cpu, d: Cpu) -> bool {
    kept_but(c, d, set![Gpr::Rax, Gpr::Rcx, Gpr::Rdx, Gpr::R11])
}

/// `rax` with its bits shifted to the right mixed in.
pub open spec fn xored(t: LowState, n: u8) -> LowState {
    let t = t.on(t.text.mov_rr(Gpr::Rdx, Gpr::Rax));
    let t = t.on(t.text.shr_ri(Gpr::Rdx, n));
    t.on(t.text.xor_rr(Gpr::Rax, Gpr::Rdx))
}

/// `rax` times a number.
pub open spec fn multiplied(t: LowState, k: i64) -> LowState {
    let t = t.on(t.text.mov_ri(Gpr::Rcx, k));
    t.on(t.text.imul_rr(Gpr::Rax, Gpr::Rcx))
}

#[verifier::spinoff_prover]
proof fn xored_runs(s: LowState, t: LowState, n: u8, c: Cpu, d: Cpu) -> (e: Cpu)
    requires
        takes(s, t, c, d),
        d.wf(),
        n < 64,
    ensures
        takes(s, xored(t, n), c, e),
        only_scratch(d, e),
        e.reg(0) == d.reg(0) ^ (d.reg(0) >> n),
{
    assert(index(Gpr::Rax) == 0 && index(Gpr::Rdx) == 2);
    shift_right_is(d.reg(0), n);
    let t1 = t.on(t.text.mov_rr(Gpr::Rdx, Gpr::Rax));
    let d1 = follow_mov_rr(s, t, Gpr::Rdx, Gpr::Rax, c, d);
    let t2 = t1.on(t1.text.shr_ri(Gpr::Rdx, n));
    let d2 = follow_shr_ri(s, t1, Gpr::Rdx, n, c, d1);
    follow_xor_rr(s, t2, Gpr::Rax, Gpr::Rdx, c, d2)
}

proof fn multiplied_runs(s: LowState, t: LowState, k: i64, c: Cpu, d: Cpu) -> (e: Cpu)
    requires
        takes(s, t, c, d),
        d.wf(),
    ensures
        takes(s, multiplied(t, k), c, e),
        only_scratch(d, e),
        e.reg(0) == times(d.reg(0), wrap64(k as int)),
{
    assert(index(Gpr::Rax) == 0 && index(Gpr::Rcx) == 1);
    product_is_word(d.reg(0), wrap64(k as int));
    let t1 = t.on(t.text.mov_ri(Gpr::Rcx, k));
    let d1 = follow_mov_ri(s, t, Gpr::Rcx, k, c, d);
    follow_imul_rr(s, t1, Gpr::Rax, Gpr::Rcx, c, d1)
}

/// The code that advances the generator's state.
pub open spec fn advanced(env: Env, t: LowState) -> LowState {
    let t = t.on(t.text.mov_ri_state(Gpr::R11, env.abi.rng_state));
    let t = t.on(t.text.mov_load_mem(Gpr::Rax, Gpr::R11, 0));
    let t = t.on(t.text.mov_ri(Gpr::Rcx, GOLDEN));
    let t = t.on(t.text.add_rr(Gpr::Rax, Gpr::Rcx));
    t.on(t.text.mov_store_mem(Gpr::R11, 0, Gpr::Rax))
}

#[verifier::spinoff_prover]
proof fn advanced_runs(env: Env, s: LowState, c: Cpu) -> (e: Cpu)
    requires
        c.wf(),
        in_space(c.state + env.abi.rng_state, 8),
    ensures
        takes(s, advanced(env, s), c, e),
        only_mixing(c, e),
        e.reg(0) == next_state(fetch(c.mem, c.state + env.abi.rng_state, 8) as u64),
        holds_at(
            c.mem,
            e.mem,
            c.state + env.abi.rng_state,
            8,
            next_state(fetch(c.mem, c.state + env.abi.rng_state, 8) as u64) as int,
        ),
{
    takes_nothing(s, c);
    assert(index(Gpr::Rax) == 0 && index(Gpr::Rcx) == 1 && index(Gpr::R11) == 11);
    let at = c.state + env.abi.rng_state;
    fetched_is_word(c.mem, at, 8);
    let t1 = s.on(s.text.mov_ri_state(Gpr::R11, env.abi.rng_state));
    let c1 = follow_mov_ri_state(s, s, Gpr::R11, env.abi.rng_state, c, c);
    let t2 = t1.on(t1.text.mov_load_mem(Gpr::Rax, Gpr::R11, 0));
    let c2 = follow_mov_load_mem(s, t1, Gpr::Rax, Gpr::R11, 0, c, c1);
    let t3 = t2.on(t2.text.mov_ri(Gpr::Rcx, GOLDEN));
    let c3 = follow_mov_ri(s, t2, Gpr::Rcx, GOLDEN, c, c2);
    let t4 = t3.on(t3.text.add_rr(Gpr::Rax, Gpr::Rcx));
    let c4 = follow_add_rr(s, t3, Gpr::Rax, Gpr::Rcx, c, c3);
    let e = follow_mov_store_mem(s, t4, Gpr::R11, 0, Gpr::Rax, c, c4);
    assert forall|r: Gpr|
        !set![Gpr::Rax, Gpr::Rcx, Gpr::Rdx, Gpr::R11].contains(r) implies #[trigger] e.reg(
        index(r),
    ) == c.reg(index(r)) by {
        assert(r != Gpr::Rax && r != Gpr::Rcx && r != Gpr::R11);
        gpr_codes_distinct(r, Gpr::Rax);
        gpr_codes_distinct(r, Gpr::Rcx);
        gpr_codes_distinct(r, Gpr::R11);
    }
    e
}

/// The generator's next number is SplitMix64's: its state goes on by the golden ratio, and
/// the new state, mixed, is in `rax`. Nothing else in memory changes.
#[verifier::spinoff_prover]
pub proof fn generator_is_splitmix(env: Env, s: LowState, c: Cpu) -> (d: Cpu)
    requires
        c.wf(),
        in_space(c.state + env.abi.rng_state, 8),
    ensures
        takes(s, env.emit_splitmix64_next(s), c, d),
        only_mixing(c, d),
        d.reg(0) == mixed(next_state(fetch(c.mem, c.state + env.abi.rng_state, 8) as u64)),
        holds_at(
            c.mem,
            d.mem,
            c.state + env.abi.rng_state,
            8,
            next_state(fetch(c.mem, c.state + env.abi.rng_state, 8) as u64) as int,
        ),
{
    reveal(Env::emit_splitmix64_next);
    assert(wrap64(MIX_ONE as int) == 0xBF58_476D_1CE4_E5B9);
    assert(wrap64(MIX_TWO as int) == 0x94D0_49BB_1331_11EB);
    let t1 = advanced(env, s);
    let c1 = advanced_runs(env, s, c);
    let t2 = xored(t1, 30);
    let c2 = xored_runs(s, t1, 30, c, c1);
    let t3 = multiplied(t2, MIX_ONE);
    let c3 = multiplied_runs(s, t2, MIX_ONE, c, c2);
    let t4 = xored(t3, 27);
    let c4 = xored_runs(s, t3, 27, c, c3);
    let t5 = multiplied(t4, MIX_TWO);
    let c5 = multiplied_runs(s, t4, MIX_TWO, c, c4);
    let d = xored_runs(s, t5, 31, c, c5);
    assert forall|r: Gpr|
        !set![Gpr::Rax, Gpr::Rcx, Gpr::Rdx, Gpr::R11].contains(r) implies #[trigger] d.reg(
        index(r),
    ) == c.reg(index(r)) by {
        assert(r != Gpr::Rax && r != Gpr::Rcx && r != Gpr::Rdx);
        assert(3 <= index(r) < 16);
        assert(c1.reg(index(r)) == c.reg(index(r)));
        assert(c2.reg(index(r)) == c1.reg(index(r)));
        assert(c3.reg(index(r)) == c2.reg(index(r)));
        assert(c4.reg(index(r)) == c3.reg(index(r)));
        assert(c5.reg(index(r)) == c4.reg(index(r)));
    }
    d
}

/// The clock's reading is the word that the state holds for it.
pub proof fn clock_reads_state(env: Env, s: LowState, c: Cpu) -> (d: Cpu)
    requires
        c.wf(),
        in_space(c.state + env.abi.clock_nanos, 8),
    ensures
        takes(s, env.lower_clock_now(s), c, d),
        only_regs(c, d, Gpr::Rax, Gpr::R11),
        d.reg(0) == fetch(c.mem, c.state + env.abi.clock_nanos, 8),
{
    reveal(Env::lower_clock_now);
    takes_nothing(s, c);
    assert(index(Gpr::Rax) == 0 && index(Gpr::R11) == 11);
    fetched_is_word(c.mem, c.state + env.abi.clock_nanos, 8);
    let t1 = s.on(s.text.mov_ri_state(Gpr::R11, env.abi.clock_nanos));
    let c1 = follow_mov_ri_state(s, s, Gpr::R11, env.abi.clock_nanos, c, c);
    follow_mov_load_mem(s, t1, Gpr::Rax, Gpr::R11, 0, c, c1)
}

// ---------------------------------------------------------------------------
//  Strides
// ---------------------------------------------------------------------------

pub(crate) proof fn logarithm(n: u64)
    ensures
        log2_of(n) matches Some(k) ==> k < 64 && n == pow2(k as nat),
    decreases n,
{
    lemma2_to64();
    if n > 1 && n % 2 == 0 {
        logarithm(n / 2);
        if let Some(k) = log2_of(n / 2) {
            lemma_pow2_unfold((k + 1) as nat);
            if k >= 63 {
                vstd::arithmetic::power2::lemma2_to64_rest();
            }
        }
    }
}

/// Scaling multiplies a register by a stride, modulo `2` to the `64`.
pub proof fn scaling_multiplies(
    env: Env,
    s: LowState,
    t: LowState,
    reg: Gpr,
    stride: u64,
    c: Cpu,
    d: Cpu,
) -> (e: Cpu)
    requires
        takes(s, t, c, d),
        d.wf(),
        stride <= i32::MAX,
    ensures
        takes(s, env.scale(t, reg, stride), c, e),
        only_regs(d, e, reg, reg),
        e.reg(index(reg)) == wrap64(d.reg(index(reg)) * stride),
{
    reveal(Env::scale);
    logarithm(stride);
    let x = d.reg(index(reg));
    match log2_of(stride) {
        Some(k) => {
            if k != 0 {
                assert(shifted(Shift::Left, x, k as int) == x * stride) by {
                    reveal(shifted);
                }
                follow_shl_ri(s, t, reg, k, c, d)
            } else {
                lemma2_to64();
                assert(x * 1 == x);
                d
            }
        },
        None => {
            let m = value_is_word(x, true);
            assert((x + m * SPAN) * stride == x * stride + (m * stride) * SPAN)
                by (nonlinear_arith);
            same_word(signed64(x) * stride, x * stride, m * stride);
            follow_imul_rri(s, t, reg, reg, stride as i32, c, d)
        },
    }
}

// ---------------------------------------------------------------------------
//  Numbers of two words
// ---------------------------------------------------------------------------

/// The number that two words are.
pub open spec fn pair(lo: u64, hi: u64) -> int {
    lo + hi * SPAN
}

/// A number modulo `2` to the `128`.
pub open spec fn wrap128(v: int) -> int {
    v % (SPAN * SPAN)
}

pub(crate) proof fn pair_is(lo: int, hi: int, v: int)
    requires
        v == lo + hi * SPAN,
        0 <= lo < SPAN,
    ensures
        pair(wrap64(lo), wrap64(hi)) == wrap128(v),
{
    let h = hi % (SPAN as int);
    let q = hi / (SPAN as int);
    vstd::arithmetic::div_mod::lemma_fundamental_div_mod(hi, SPAN as int);
    assert(v == q * (SPAN * SPAN) + (lo + h * SPAN)) by (nonlinear_arith)
        requires
            v == lo + hi * SPAN,
            hi == SPAN * q + h,
    ;
    assert(0 <= lo + h * SPAN < SPAN * SPAN) by (nonlinear_arith)
        requires
            0 <= lo < SPAN,
            0 <= h < SPAN,
    ;
    vstd::arithmetic::div_mod::lemma_fundamental_div_mod_converse(
        v,
        (SPAN * SPAN) as int,
        q,
        lo + h * SPAN,
    );
}

proof fn sum_of_pairs(a: u64, b: u64, x: u64, y: u64)
    ensures
        ({
            let k: int = if a + x >= SPAN {
                1
            } else {
                0
            };
            pair(wrap64(a + x), wrap64(b + y + k)) == wrap128(pair(a, b) + pair(x, y))
        }),
{
    let k: int = if a + x >= SPAN {
        1
    } else {
        0
    };
    let lo = a + x - k * SPAN;
    assert(wrap64(lo) == wrap64(a + x));
    pair_is(lo, b + y + k, pair(a, b) + pair(x, y));
}

proof fn difference_of_pairs(a: u64, b: u64, x: u64, y: u64)
    ensures
        ({
            let k: int = if a < x {
                1
            } else {
                0
            };
            pair(wrap64(a - x), wrap64(b - y - k)) == wrap128(pair(a, b) - pair(x, y))
        }),
{
    let k: int = if a < x {
        1
    } else {
        0
    };
    let lo = a - x + k * SPAN;
    assert(wrap64(lo) == wrap64(a - x));
    pair_is(lo, b - y - k, pair(a, b) - pair(x, y));
}

/// The sum of two numbers of two words, in `rdx:rax`, is exact modulo `2` to the `128`.
#[verifier::spinoff_prover]
#[verifier::rlimit(40)]
pub proof fn wide_sum_is_right(s: LowState, t: LowState, c: Cpu, d: Cpu) -> (e: Cpu)
    requires
        takes(s, t, c, d),
        d.wf(),
    ensures
        ({
            let u = t.on(t.text.add_rr(Gpr::Rax, Gpr::Rcx));
            takes(s, u.on(u.text.adc_rr(Gpr::Rdx, Gpr::R8)), c, e)
        }),
        kept_but(d, e, set![Gpr::Rax, Gpr::Rdx]),
        e.mem == d.mem,
        pair(e.reg(0), e.reg(2)) == wrap128(
            pair(d.reg(0), d.reg(2)) + pair(d.reg(1), d.reg(8)),
        ),
{
    assert(index(Gpr::Rax) == 0 && index(Gpr::Rcx) == 1 && index(Gpr::Rdx) == 2 && index(Gpr::R8)
        == 8);
    let u = t.on(t.text.add_rr(Gpr::Rax, Gpr::Rcx));
    let d1 = follow_add_rr(s, t, Gpr::Rax, Gpr::Rcx, c, d);
    let e = follow_adc_rr(s, u, Gpr::Rdx, Gpr::R8, c, d1);
    sum_of_pairs(d.reg(0), d.reg(2), d.reg(1), d.reg(8));
    assert forall|r: Gpr| !set![Gpr::Rax, Gpr::Rdx].contains(r) implies #[trigger] e.reg(index(r))
        == d.reg(index(r)) by {
        assert(r != Gpr::Rax && r != Gpr::Rdx);
        gpr_codes_distinct(r, Gpr::Rax);
        gpr_codes_distinct(r, Gpr::Rdx);
    }
    e
}

/// The difference of two numbers of two words, in `rdx:rax`, is exact modulo `2` to the `128`.
#[verifier::spinoff_prover]
#[verifier::rlimit(40)]
pub proof fn wide_difference_is_right(s: LowState, t: LowState, c: Cpu, d: Cpu) -> (e: Cpu)
    requires
        takes(s, t, c, d),
        d.wf(),
    ensures
        ({
            let u = t.on(t.text.sub_rr(Gpr::Rax, Gpr::Rcx));
            takes(s, u.on(u.text.sbb_rr(Gpr::Rdx, Gpr::R8)), c, e)
        }),
        kept_but(d, e, set![Gpr::Rax, Gpr::Rdx]),
        e.mem == d.mem,
        pair(e.reg(0), e.reg(2)) == wrap128(
            pair(d.reg(0), d.reg(2)) - pair(d.reg(1), d.reg(8)),
        ),
{
    assert(index(Gpr::Rax) == 0 && index(Gpr::Rcx) == 1 && index(Gpr::Rdx) == 2 && index(Gpr::R8)
        == 8);
    let u = t.on(t.text.sub_rr(Gpr::Rax, Gpr::Rcx));
    let d1 = follow_sub_rr(s, t, Gpr::Rax, Gpr::Rcx, c, d);
    let e = follow_sbb_rr(s, u, Gpr::Rdx, Gpr::R8, c, d1);
    difference_of_pairs(d.reg(0), d.reg(2), d.reg(1), d.reg(8));
    assert forall|r: Gpr| !set![Gpr::Rax, Gpr::Rdx].contains(r) implies #[trigger] e.reg(index(r))
        == d.reg(index(r)) by {
        assert(r != Gpr::Rax && r != Gpr::Rdx);
        gpr_codes_distinct(r, Gpr::Rax);
        gpr_codes_distinct(r, Gpr::Rdx);
    }
    e
}

} // verus!
