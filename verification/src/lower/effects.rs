//! What lowered code does on the processor.
use vstd::prelude::*;

use crate::bytes::wrap64;
use crate::encode::Cc;
use crate::lower::env::{Env, LowState};
use crate::lower::follow::{
    follow_and_ri, follow_cmp_rr, follow_mov_load32_mem, follow_mov_load_mem, follow_mov_ri,
    follow_mov_rr32, follow_mov_store16_mem, follow_mov_store32_mem, follow_mov_store8_mem,
    follow_mov_store_mem, follow_movsx16, follow_movsx16_mem, follow_movsx8, follow_movsx8_mem,
    follow_movsxd, follow_movsxd_mem, follow_movzx16_mem, follow_movzx8_mem, follow_movzx_al,
    follow_sar_cl, follow_sar_ri, follow_setcc_al, follow_shl_cl, follow_shl_ri, follow_shr_ri,
};
use crate::lower::scalar::mask_of;
use crate::lower::values::{cc_of, compares};
use crate::machine::{
    Act, Bytes, Cpu, SPAN, Shift, act, condition, fetch, fetch_bounded, in_space, is_signed64,
    low_bytes, patch, pow256, pow256_values, run, shifted, signed64, written_is_read,
};
use crate::mir::BinOp;
use crate::layout::pow2_from;
use crate::reg::{Gpr, gpr_codes_distinct};
use crate::steps::{added_runs, adds, index};
use crate::types::{Type, TypeId};
use vstd::arithmetic::div_mod::{
    lemma_div_multiples_vanish, lemma_fundamental_div_mod, lemma_fundamental_div_mod_converse,
};
use vstd::arithmetic::power2::{
    lemma2_to64, lemma2_to64_rest, lemma_pow2_adds, lemma_pow2_pos, lemma_pow2_strictly_increases,
    lemma_pow2_unfold, pow2,
};
use vstd::bits::{low_bits_mask, lemma_u64_low_bits_mask_is_mod};

verus! {

/// Whether the code that `t` has beyond `s` takes `c` to `d`.
#[verifier::opaque]
pub open spec fn takes(s: LowState, t: LowState, c: Cpu, d: Cpu) -> bool {
    &&& s.text.instrs.len() <= t.text.instrs.len()
    &&& t.text.instrs.take(s.text.instrs.len() as int) == s.text.instrs
    &&& run(t.text.instrs, s.text.instrs.len(), c) == Some(d)
}

/// Whether `d` differs from `c` in no register but those given, and not in memory.
pub open spec fn only_regs(c: Cpu, d: Cpu, a: Gpr, b: Gpr) -> bool {
    &&& d.wf()
    &&& d.mem == c.mem
    &&& d.state == c.state
    &&& d.data == c.data
    &&& d.floats == c.floats
    &&& forall|r: int| 0 <= r < 16 && r != index(a) && r != index(b) ==> #[trigger] d.reg(r) == c.reg(r)
}

/// Whether a condition holds.
pub open spec fn tells(c: Cpu, cc: Cc) -> Option<bool> {
    condition(c, cc.bits() as int)
}

/// The low `w` bits of a number, read as signed or unsigned.
pub open spec fn low_bits(v: int, w: nat, signed: bool) -> int {
    let u = v % (pow2(w) as int);
    if signed && 2 * u >= pow2(w) {
        u - pow2(w)
    } else {
        u
    }
}

pub(crate) proof fn adds_takes(s: LowState, t: LowState, u: LowState, a: Act, c: Cpu, d: Cpu)
    requires
        takes(s, t, c, d),
        adds(t.text, u.text, a),
        act(a, d) is Some,
    ensures
        takes(s, u, c, act(a, d).unwrap()),
{
    reveal(takes);
    reveal(adds);
    added_runs(t.text, u.text, a, s.text.instrs.len(), c);
    let n = s.text.instrs.len() as int;
    assert(u.text.instrs.take(n) =~= u.text.instrs.drop_last().take(n));
}

/// A word and itself.
pub(crate) proof fn with_itself(x: u64)
    by (bit_vector)
    ensures
        x & x == x,
        x ^ x == 0,
        0 | x == x,
{
}

pub(crate) proof fn takes_nothing(s: LowState, c: Cpu)
    ensures
        takes(s, s, c, c),
{
    reveal(takes);
    assert(s.text.instrs.take(s.text.instrs.len() as int) =~= s.text.instrs);
}

proof fn truth_in_byte(x: u64, k: int)
    requires
        k == 0 || k == 1,
    ensures
        low_bytes(wrap64(x - x % 256 + k) as int, 1, false) == k,
{
    pow256_values();
    assert((x - x % 256 + k) % 256 == k);
}

/// A condition goes to `rax` as zero or one.
pub(crate) proof fn set_bool_runs(
    env: Env,
    s: LowState,
    t: LowState,
    cc: Cc,
    c: Cpu,
    d: Cpu,
    b: bool,
) -> (e: Cpu)
    requires
        takes(s, t, c, d),
        d.wf(),
        tells(d, cc) == Some(b),
    ensures
        takes(s, env.set_bool(t, cc), c, e),
        e == d.put(
            0,
            if b {
                1
            } else {
                0
            },
        ),
{
    reveal(Env::set_bool);
    let t1 = t.on(t.text.setcc_al(cc));
    let d1 = follow_setcc_al(s, t, cc, c, d);
    let d2 = follow_movzx_al(s, t1, Gpr::Rax, c, d1);
    let k: int = if b {
        1
    } else {
        0
    };
    truth_in_byte(d.reg(0), k);
    assert(d2.regs =~= d.put(0, k).regs);
    d2
}

/// How a comparison of two words comes out.
pub open spec fn holds(op: BinOp, signed: bool, x: u64, y: u64) -> bool {
    let a = if signed {
        signed64(x)
    } else {
        x as int
    };
    let b = if signed {
        signed64(y)
    } else {
        y as int
    };
    match op {
        BinOp::Eq => a == b,
        BinOp::Ne => a != b,
        BinOp::Lt => a < b,
        BinOp::Le => a <= b,
        BinOp::Gt => a > b,
        _ => a >= b,
    }
}

proof fn difference_tells(x: u64, y: u64)
    ensures
        (wrap64(x - y) == 0) == (x == y),
        (signed64(x) < signed64(y)) == ((wrap64(x - y) >= 0x8000_0000_0000_0000) != !is_signed64(
            signed64(x) - signed64(y),
        )),
{
}

/// A comparison of `rax` and `rcx` leaves one in `rax` where it holds, and zero where it
/// does not; nothing else changes.
pub proof fn comparison_is_right(
    env: Env,
    s: LowState,
    t: LowState,
    op: BinOp,
    signed: bool,
    c: Cpu,
    d: Cpu,
) -> (e: Cpu)
    requires
        takes(s, t, c, d),
        d.wf(),
        compares(op),
    ensures
        takes(
            s,
            env.set_bool(t.on(t.text.cmp_rr(Gpr::Rax, Gpr::Rcx)), cc_of(op, signed)),
            c,
            e,
        ),
        only_regs(d, e, Gpr::Rax, Gpr::Rax),
        e.reg(0) == if holds(op, signed, d.reg(0), d.reg(1)) {
            1u64
        } else {
            0u64
        },
{
    let t1 = t.on(t.text.cmp_rr(Gpr::Rax, Gpr::Rcx));
    let d1 = follow_cmp_rr(s, t, Gpr::Rax, Gpr::Rcx, c, d);
    let b = holds(op, signed, d.reg(0), d.reg(1));
    difference_tells(d.reg(0), d.reg(1));
    assert(tells(d1, cc_of(op, signed)) == Some(b));
    set_bool_runs(env, s, t1, cc_of(op, signed), c, d1, b)
}

// ---------------------------------------------------------------------------
//  Widths
// ---------------------------------------------------------------------------

proof fn shift_pair(v: u64, w: int)
    requires
        1 <= w < 64,
    ensures
        shifted(Shift::Signed, wrap64(shifted(Shift::Left, v, 64 - w)), 64 - w) == low_bits(
            v as int,
            w as nat,
            true,
        ),
        shifted(Shift::Right, wrap64(shifted(Shift::Left, v, 64 - w)), 64 - w) == low_bits(
            v as int,
            w as nat,
            false,
        ),
{
    reveal(shifted);
    let k = pow2((64 - w) as nat) as int;
    let p = pow2(w as nat) as int;
    lemma_pow2_adds((64 - w) as nat, w as nat);
    lemma2_to64_rest();
    lemma_pow2_pos((64 - w) as nat);
    lemma_pow2_pos(w as nat);
    assert(k * p == SPAN);
    let q = v as int / p;
    let u = v as int % p;
    lemma_fundamental_div_mod(v as int, p);
    assert(v * k == q * SPAN + u * k) by (nonlinear_arith)
        requires
            v == p * q + u,
            k * p == SPAN,
    ;
    assert(0 <= u * k < SPAN) by (nonlinear_arith)
        requires
            0 <= u < p,
            k * p == SPAN,
            k > 0,
    ;
    lemma_fundamental_div_mod_converse(v * k, SPAN as int, q, u * k);
    assert(wrap64(v * k) == u * k);
    lemma_div_multiples_vanish(u, k);
    assert(u * k == k * u) by (nonlinear_arith);
    if 2 * u >= p {
        assert(2 * (u * k) >= SPAN) by (nonlinear_arith)
            requires
                2 * u >= p,
                k * p == SPAN,
                k > 0,
        ;
        assert(u * k - SPAN == (u - p) * k) by (nonlinear_arith)
            requires
                k * p == SPAN,
        ;
        lemma_div_multiples_vanish(u - p, k);
        assert((u - p) * k == k * (u - p)) by (nonlinear_arith);
    } else {
        assert(2 * (u * k) < SPAN) by (nonlinear_arith)
            requires
                2 * u < p,
                k * p == SPAN,
                k > 0,
        ;
    }
}

pub(crate) proof fn bits_of_bytes(v: int, signed: bool)
    ensures
        low_bits(v, 8, signed) == low_bytes(v, 1, signed),
        low_bits(v, 16, signed) == low_bytes(v, 2, signed),
        low_bits(v, 32, signed) == low_bytes(v, 4, signed),
        low_bits(v, 64, signed) == low_bytes(v, 8, signed),
{
    lemma2_to64();
    lemma2_to64_rest();
    pow256_values();
}

pub(crate) proof fn mask_cuts(v: u64, w: u32)
    requires
        1 <= w < 32,
    ensures
        v & wrap64((mask_of(w) as i32) as int) == low_bits(v as int, w as nat, false),
        mask_of(w) <= 0x7FFF_FFFF,
{
    lemma2_to64();
    lemma_pow2_pos(w as nat);
    if w < 31 {
        lemma_pow2_strictly_increases(w as nat, 31);
    }
    assert(pow2(31) == 0x8000_0000);
    lemma_u64_low_bits_mask_is_mod(v, w as nat);
    assert(low_bits_mask(w as nat) == pow2(w as nat) - 1) by {
        reveal(low_bits_mask);
    }
    assert(wrap64((mask_of(w) as i32) as int) == low_bits_mask(w as nat) as u64);
}

#[verifier::spinoff_prover]
proof fn shifts_run(
    env: Env,
    s: LowState,
    t: LowState,
    dst: Gpr,
    w: u16,
    c: Cpu,
    d: Cpu,
) -> (e: Cpu)
    requires
        takes(s, t, c, d),
        d.wf(),
        1 <= w < 64,
    ensures
        takes(s, env.normalize_signed_other(t, dst, w), c, e),
        only_regs(d, e, dst, Gpr::Rcx),
        e.reg(index(dst)) == wrap64(low_bits(d.reg(index(dst)) as int, w as nat, true)),
{
    reveal(Env::normalize_signed_other);
    shift_pair(d.reg(index(dst)), w as int);
    if dst == Gpr::Rcx {
        let t1 = t.on(t.text.shl_ri(dst, (64 - w) as u8));
        let d1 = follow_shl_ri(s, t, dst, (64 - w) as u8, c, d);
        follow_sar_ri(s, t1, dst, (64 - w) as u8, c, d1)
    } else {
        gpr_codes_distinct(dst, Gpr::Rcx);
        let n = (64 - w) as i64;
        let t1 = t.on(t.text.mov_ri(Gpr::Rcx, n));
        let d1 = follow_mov_ri(s, t, Gpr::Rcx, n, c, d);
        let t2 = t1.on(t1.text.shl_cl(dst));
        let d2 = follow_shl_cl(s, t1, dst, c, d1);
        let t3 = t2.on(t2.text.mov_ri(Gpr::Rcx, n));
        let d3 = follow_mov_ri(s, t2, Gpr::Rcx, n, c, d2);
        follow_sar_cl(s, t3, dst, c, d3)
    }
}

/// Bringing a register to the width of an integer type keeps the low bits of its value,
/// extended as the type is signed or not; no other register but `rcx` changes, and no
/// memory.
#[verifier::spinoff_prover]
pub proof fn normalizing_wraps(
    env: Env,
    s: LowState,
    t: LowState,
    dst: Gpr,
    ty: TypeId,
    c: Cpu,
    d: Cpu,
) -> (e: Cpu)
    requires
        takes(s, t, c, d),
        d.wf(),
    ensures
        takes(s, env.normalize(t, dst, ty), c, e),
        only_regs(d, e, dst, Gpr::Rcx),
        e.reg(index(dst)) == (if 1 <= env.repr_of(ty).width < 64 {
            wrap64(
                low_bits(
                    d.reg(index(dst)) as int,
                    env.repr_of(ty).width as nat,
                    env.repr_of(ty).signed,
                ),
            )
        } else {
            d.reg(index(dst))
        }),
{
    reveal(Env::normalize);
    let r = env.repr_of(ty);
    bits_of_bytes(d.reg(index(dst)) as int, r.signed);
    if r.width == 0 || r.width >= 64 {
        d
    } else if r.signed && r.width == 8 {
        follow_movsx8(s, t, dst, dst, c, d)
    } else if r.signed && r.width == 16 {
        follow_movsx16(s, t, dst, dst, c, d)
    } else if r.signed && r.width == 32 {
        follow_movsxd(s, t, dst, dst, c, d)
    } else if r.signed {
        shifts_run(env, s, t, dst, r.width, c, d)
    } else if r.width == 32 {
        pow256_values();
        follow_mov_rr32(s, t, dst, dst, c, d)
    } else if r.width > 32 {
        let n = (64 - r.width) as u8;
        let t1 = t.on(t.text.shl_ri(dst, n));
        let d1 = follow_shl_ri(s, t, dst, n, c, d);
        reveal(Env::normalize_unsigned_other);
        shift_pair(d.reg(index(dst)), r.width as int);
        follow_shr_ri(s, t1, dst, n, c, d1)
    } else {
        mask_cuts(d.reg(index(dst)), r.width as u32);
        follow_and_ri(s, t, dst, mask_of(r.width as u32) as i32, c, d)
    }
}

/// Bringing a register to the width of an unsigned type leaves the bits of its value below
/// that width, and no others.
pub proof fn normalizing_masks(
    env: Env,
    s: LowState,
    t: LowState,
    dst: Gpr,
    ty: TypeId,
    c: Cpu,
    d: Cpu,
) -> (e: Cpu)
    requires
        takes(s, t, c, d),
        d.wf(),
        1 <= env.repr_of(ty).width < 64,
        !env.repr_of(ty).signed,
    ensures
        takes(s, env.normalize(t, dst, ty), c, e),
        only_regs(d, e, dst, Gpr::Rcx),
        e.reg(index(dst)) == d.reg(index(dst)) & mask_of(env.repr_of(ty).width as u32),
{
    let v = d.reg(index(dst));
    let w = env.repr_of(ty).width as nat;
    lemma_pow2_pos(w);
    lemma2_to64_rest();
    lemma_pow2_strictly_increases(w, 64);
    lemma_u64_low_bits_mask_is_mod(v, w);
    assert(low_bits_mask(w) == pow2(w) - 1) by {
        reveal(low_bits_mask);
    }
    assert(v as int % (pow2(w) as int) <= v) by {
        lemma_fundamental_div_mod(v as int, pow2(w) as int);
        assert(pow2(w) * (v as int / (pow2(w) as int)) >= 0) by (nonlinear_arith)
            requires
                pow2(w) > 0,
                v as int / (pow2(w) as int) >= 0,
        ;
    }
    normalizing_wraps(env, s, t, dst, ty, c, d)
}

// ---------------------------------------------------------------------------
//  Loads and stores
// ---------------------------------------------------------------------------

/// How many bytes a load or store of a scalar takes.
pub open spec fn scalar_width(env: Env, ty: TypeId) -> nat {
    let n = env.scalar_store_size(ty);
    if n == 1 || n == 2 || n == 4 {
        n as nat
    } else {
        8
    }
}

/// The word that a load gives of a stored word: its low bytes, extended as the type is signed
/// or not.
pub open spec fn kept_word(env: Env, ty: TypeId, v: u64) -> u64 {
    wrap64(low_bytes(v as int, scalar_width(env, ty), env.repr_of(ty).signed))
}

/// Whether a word is one that a store of a type keeps whole.
pub open spec fn keeps(env: Env, ty: TypeId, v: u64) -> bool {
    kept_word(env, ty, v) == v
}

/// Whether a word is a value of an integer type of `w` bits.
pub open spec fn is_value(v: u64, w: nat, signed: bool) -> bool {
    v == wrap64(low_bits(v as int, w, signed))
}

/// A store writes as many bytes as a value of its type has, and no others.
#[verifier::spinoff_prover]
pub proof fn store_writes(
    env: Env,
    s: LowState,
    t: LowState,
    base: Gpr,
    disp: i32,
    src: Gpr,
    ty: TypeId,
    c: Cpu,
    d: Cpu,
) -> (e: Cpu)
    requires
        takes(s, t, c, d),
        d.wf(),
        in_space(d.reg(index(base)) + disp, scalar_width(env, ty)),
    ensures
        takes(s, env.store_sized(t, base, disp, src, ty), c, e),
        env.store_sized(t, base, disp, src, ty).err == t.err,
        e == d.with_mem(
            patch(
                d.mem,
                d.reg(index(base)) + disp,
                scalar_width(env, ty),
                d.reg(index(src)) as int,
            ),
        ),
{
    reveal(Env::store_sized);
    let n = scalar_width(env, ty);
    if n == 1 {
        follow_mov_store8_mem(s, t, base, disp, src, c, d)
    } else if n == 2 {
        follow_mov_store16_mem(s, t, base, disp, src, c, d)
    } else if n == 4 {
        follow_mov_store32_mem(s, t, base, disp, src, c, d)
    } else {
        follow_mov_store_mem(s, t, base, disp, src, c, d)
    }
}

/// A load reads as many bytes as a value of its type has, and extends them as the type is
/// signed or not.
#[verifier::spinoff_prover]
pub proof fn load_reads(
    env: Env,
    s: LowState,
    t: LowState,
    dst: Gpr,
    base: Gpr,
    disp: i32,
    ty: TypeId,
    c: Cpu,
    d: Cpu,
) -> (e: Cpu)
    requires
        takes(s, t, c, d),
        d.wf(),
        in_space(d.reg(index(base)) + disp, scalar_width(env, ty)),
    ensures
        takes(s, env.load_sized(t, dst, base, disp, ty), c, e),
        env.load_sized(t, dst, base, disp, ty).err == t.err,
        e == d.put(
            index(dst),
            low_bytes(
                fetch(d.mem, d.reg(index(base)) + disp, scalar_width(env, ty)),
                scalar_width(env, ty),
                env.repr_of(ty).signed,
            ),
        ),
{
    reveal(Env::load_sized);
    let r = env.repr_of(ty);
    let n = scalar_width(env, ty);
    let at = d.reg(index(base)) + disp;
    if n == 1 && !r.signed {
        follow_movzx8_mem(s, t, dst, base, disp, c, d)
    } else if n == 1 {
        follow_movsx8_mem(s, t, dst, base, disp, c, d)
    } else if n == 2 && !r.signed {
        follow_movzx16_mem(s, t, dst, base, disp, c, d)
    } else if n == 2 {
        follow_movsx16_mem(s, t, dst, base, disp, c, d)
    } else if n == 4 && !r.signed {
        follow_mov_load32_mem(s, t, dst, base, disp, c, d)
    } else if n == 4 {
        follow_movsxd_mem(s, t, dst, base, disp, c, d)
    } else {
        fetch_bounded(d.mem, at, 8);
        pow256_values();
        word_either_way(fetch(d.mem, at, 8));
        follow_mov_load_mem(s, t, dst, base, disp, c, d)
    }
}

pub(crate) proof fn word_either_way(v: int)
    requires
        0 <= v < SPAN,
    ensures
        wrap64(low_bytes(v, 8, true)) == wrap64(low_bytes(v, 8, false)),
        wrap64(low_bytes(v, 8, false)) == v,
{
    pow256_values();
}

/// A store keeps a value of its type whole: one of an integer type of up to a word, or a
/// truth value, or a word of any other type.
pub proof fn values_are_kept(env: Env, ty: TypeId, v: u64)
    requires
        match env.ty(ty) {
            Type::Int { .. } => 1 <= env.repr_of(ty).width <= 64 && is_value(
                v,
                env.repr_of(ty).width as nat,
                env.repr_of(ty).signed,
            ),
            Type::Bool => v <= 1,
            _ => true,
        },
    ensures
        keeps(env, ty, v),
{
    let n = scalar_width(env, ty);
    let r = env.repr_of(ty);
    reveal_with_fuel(pow2_from, 5);
    pow256_values();
    if n == 8 {
        word_either_way(v as int);
    } else if env.ty(ty) is Int {
        let w = r.width as nat;
        assert(w <= 8 * n);
        narrow_kept(v, w, n, r.signed);
    }
}

#[verifier::spinoff_prover]
#[verifier::rlimit(30)]
proof fn narrow_kept(v: u64, w: nat, n: nat, signed: bool)
    requires
        n == 1 || n == 2 || n == 4,
        1 <= w <= 8 * n,
        is_value(v, w, signed),
    ensures
        wrap64(low_bytes(v as int, n, signed)) == v,
{
    pow256_values();
    lemma2_to64();
    lemma_pow2_unfold(w);
    lemma_pow2_pos((w - 1) as nat);
    assert(pow2(8 * n) == pow256(n));
    if w < 8 * n {
        lemma_pow2_strictly_increases(w, 8 * n);
    }
    let r = low_bits(v as int, w, signed);
    let p = pow256(n);
    assert(-(p / 2) <= r < p);
    if signed {
        assert(2 * r < p);
        if r < 0 {
            assert(v == r + SPAN);
            assert((r + SPAN) % p == r + p);
        }
    }
}

/// A load gives back what a store wrote: the low bytes of the stored word, extended as the
/// type is signed or not.
pub proof fn stored_reads_back(
    env: Env,
    s: LowState,
    base: Gpr,
    disp: i32,
    src: Gpr,
    dst: Gpr,
    ty: TypeId,
    c: Cpu,
) -> (d: Cpu)
    requires
        c.wf(),
        in_space(c.reg(index(base)) + disp, scalar_width(env, ty)),
    ensures
        takes(
            s,
            env.load_sized(env.store_sized(s, base, disp, src, ty), dst, base, disp, ty),
            c,
            d,
        ),
        d.reg(index(dst)) == kept_word(env, ty, c.reg(index(src))),
{
    let n = scalar_width(env, ty);
    let v = c.reg(index(src));
    let t = env.store_sized(s, base, disp, src, ty);
    takes_nothing(s, c);
    let c1 = store_writes(env, s, s, base, disp, src, ty, c, c);
    written_reads_kept(c.mem, c.reg(index(base)) + disp, n, v, env.repr_of(ty).signed);
    load_reads(env, s, t, dst, base, disp, ty, c, c1)
}

/// The low bytes of what was written are read.
pub proof fn written_reads_kept(m: Bytes, a: int, n: nat, v: u64, signed: bool)
    requires
        n == 1 || n == 2 || n == 4 || n == 8,
    ensures
        low_bytes(fetch(patch(m, a, n, v as int), a, n), n, signed) == low_bytes(
            v as int,
            n,
            signed,
        ),
{
    written_is_read(m, a, n, v as int);
    pow256_values();
}

} // verus!
