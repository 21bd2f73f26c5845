//! What operands are, and that lowered code loads them: words, and numbers of two words.
use vstd::prelude::*;

use crate::lower::packed_effects::{bits_value, field_is_loaded};
use crate::bytes::wrap64;
use crate::lower::arith_effects::{operand_loads, operand_word, value_of};
use crate::lower::effects::{low_bits, normalizing_wraps, takes, takes_nothing};
use crate::lower::env::{Env, LowState};
use crate::lower::follow::{follow_mov_load_mem, follow_mov_ri, follow_mov_rr, follow_sar_ri};
use crate::lower::mem_effects::{fetched_is_word, kept_but};
use crate::lower::place::LastStep;
use crate::lower::place_effects::{
    address_is_right, address_of, general_address, no_index_in, place_loads, place_word,
};
use crate::lower::scalar::{wide_hi, wide_lo};
use crate::lower::word_effects::{pair, pair_is, wrap128};
use crate::machine::{
    Bytes, Cpu, SPAN, Shift, fetch, fetch_bounded, in_space, pow256_values, shifted, signed64,
};
use crate::mir::{Const, Operand};
use crate::reg::{Gpr, gpr_codes_distinct};
use crate::steps::index;
use crate::types::TypeId;
use vstd::arithmetic::power2::{lemma2_to64, lemma2_to64_rest, pow2};

verus! {

/// The word of a scalar operand: a constant, a local or a part of one, bit fields and the
/// addresses of arrays among them.
pub open spec fn scalar_word(env: Env, c: Cpu, op: Operand) -> Option<u64> {
    match op {
        Operand::Copy(p) => if p.proj@.len() == 0 {
            operand_word(env, c, op)
        } else {
            match env.last_step(p) {
                LastStep::Load => place_word(env, c, p),
                LastStep::Length(k) => Some(wrap64(k as int)),
                LastStep::Address => address_of(env, c, p, (p.proj@.len() - 1) as usize),
                LastStep::Packed(pf) => match address_of(
                    env,
                    c,
                    p,
                    (p.proj@.len() - 1) as usize,
                ) {
                    Some(a) => if in_space(a as int, 8) && 1 <= pf.width && pf.off + pf.width
                        <= 64 {
                        Some(bits_value(fetch(c.mem, a as int, 8) as u64, pf))
                    } else {
                        None
                    },
                    None => None,
                },
            }
        },
        Operand::Const(_) => operand_word(env, c, op),
    }
}

/// Whether no index of an operand lives in a register that addresses are computed in.
pub open spec fn addressable(env: Env, op: Operand) -> bool {
    op matches Operand::Copy(p) ==> p.proj@.len() <= usize::MAX && no_index_in(env, p, Gpr::R10)
        && no_index_in(env, p, Gpr::R11) && no_index_in(env, p, Gpr::Rax) && no_index_in(
        env,
        p,
        Gpr::Rcx,
    )
}

/// A scalar operand is loaded as its word; only the register it goes to and those that
/// addresses are computed in change.
#[verifier::spinoff_prover]
pub proof fn scalar_loads(env: Env, t: LowState, op: Operand, dst: Gpr, d: Cpu) -> (e: Cpu)
    requires
        d.wf(),
        t.err is None,
        addressable(env, op),
        dst != Gpr::R10,
        dst != Gpr::Rbp,
        op matches Operand::Copy(p) ==> no_index_in(env, p, dst),
        scalar_word(env, d, op) is Some,
    ensures
        takes(t, env.operand_to(t, op, dst), d, e),
        env.operand_to(t, op, dst).err is None,
        Some(e.reg(index(dst))) == scalar_word(env, d, op),
        kept_but(d, e, set![dst, Gpr::R10, Gpr::R11]),
        e.mem == d.mem,
        e.floats == d.floats,
{
    takes_nothing(t, d);
    let part = op matches Operand::Copy(p) && p.proj@.len() > 0;
    let e = if !part {
        operand_loads(env, t, t, op, dst, d, d)
    } else {
        let p = op->Copy_0;
        match env.last_step(p) {
            LastStep::Load => place_loads(env, t, p, dst, d),
            LastStep::Length(k) => follow_mov_ri(t, t, dst, k, d, d),
            LastStep::Address => {
                let n = (p.proj@.len() - 1) as usize;
                general_address(env, t, p, n, dst, d);
                address_is_right(env, t, p, n, dst, d)
            },
            LastStep::Packed(pf) => field_is_loaded(env, t, p, pf, dst, d),
        }
    };
    if !(part && env.last_step(op->Copy_0) is Load) {
        assert forall|r: Gpr| !set![dst, Gpr::R10, Gpr::R11].contains(r) implies #[trigger] e.reg(
            index(r),
        ) == d.reg(index(r)) by {
            assert(r != dst && r != Gpr::R10);
            gpr_codes_distinct(r, dst);
            gpr_codes_distinct(r, Gpr::R10);
        }
    }
    e
}

// ---------------------------------------------------------------------------
//  Numbers of two words
// ---------------------------------------------------------------------------

/// The number that a word of an integer type stands for, brought to the width of the type.
pub open spec fn number_in(env: Env, x: u64, ty: TypeId) -> int {
    let r = env.repr_of(ty);
    if 1 <= r.width < 64 {
        low_bits(x as int, r.width as nat, r.signed)
    } else {
        value_of(x, r.signed)
    }
}

/// The two words at an address.
pub open spec fn pair_at(m: Bytes, a: int) -> int {
    pair(fetch(m, a, 8) as u64, fetch(m, a + 8, 8) as u64)
}

/// The number that an operand of an operation on two words stands for: that of a constant,
/// the two words of a place, or a narrower integer.
pub open spec fn wide_value(env: Env, c: Cpu, op: Operand) -> Option<int> {
    match op {
        Operand::Const(k) => match k {
            Const::Int { value, .. } => Some(value as int),
            _ => None,
        },
        Operand::Copy(p) => if env.is_wide_int(env.place_type(p)) {
            match address_of(env, c, p, p.proj@.len() as usize) {
                Some(a) => if in_space(a as int, 16) {
                    Some(pair_at(c.mem, a as int))
                } else {
                    None
                },
                None => None,
            }
        } else {
            match scalar_word(env, c, op) {
                Some(x) => Some(number_in(env, x, env.place_type(p))),
                None => None,
            }
        },
    }
}

/// The registers that loading two words changes.
pub open spec fn wide_scratch(lo: Gpr, hi: Gpr) -> Set<Gpr> {
    set![lo, hi, Gpr::Rcx, Gpr::R10, Gpr::R11]
}

proof fn constant_halves(value: i128)
    ensures
        pair(wrap64(wide_lo(value) as int), wrap64(wide_hi(value) as int)) == wrap128(
            value as int,
        ),
{
    let lo = value as int % (SPAN as int);
    let hi = value as int / (SPAN as int);
    assert(value as int == lo + hi * SPAN);
    pair_is(lo, hi, value as int);
    assert(wrap64(wide_lo(value) as int) == wrap64(lo));
    assert(wrap64(wide_hi(value) as int) == wrap64(hi));
}

proof fn sign_fills(x: u64)
    ensures
        shifted(Shift::Signed, x, 63) == if signed64(x) < 0 {
            -1int
        } else {
            0
        },
        pair(x, wrap64(shifted(Shift::Signed, x, 63))) == wrap128(signed64(x)),
{
    lemma2_to64();
    lemma2_to64_rest();
    reveal(shifted);
    assert(63int % 64 == 63);
    assert(pow2(63) == 0x8000_0000_0000_0000);
    let v = signed64(x);
    assert(shifted(Shift::Signed, x, 63) == v / (pow2(63) as int));
    assert(-0x8000_0000_0000_0000 <= v < 0x8000_0000_0000_0000);
    assert(v / 0x8000_0000_0000_0000int == if v < 0 {
        -1int
    } else {
        0
    });
    let h: int = if signed64(x) < 0 {
        -1
    } else {
        0
    };
    pair_is(x as int, h, signed64(x));
}

proof fn low_bits_in_word(x: u64, w: nat, signed: bool)
    requires
        1 <= w < 64,
    ensures
        ({
            let v = low_bits(x as int, w, signed);
            let y = wrap64(v);
            &&& signed ==> signed64(y) == v
            &&& !signed ==> y == v
        }),
{
    lemma2_to64();
    lemma2_to64_rest();
    vstd::arithmetic::power2::lemma_pow2_pos(w);
    if w < 63 {
        vstd::arithmetic::power2::lemma_pow2_strictly_increases(w, 63);
    }
    let p = pow2(w) as int;
    assert(pow2(63) == 0x8000_0000_0000_0000);
    assert(0 <= x as int % p < p) by (nonlinear_arith)
        requires
            p > 0,
    ;
}

proof fn number_fills(env: Env, x: u64, ty: TypeId, y: u64)
    requires
        y == (if 1 <= env.repr_of(ty).width < 64 {
            wrap64(low_bits(x as int, env.repr_of(ty).width as nat, env.repr_of(ty).signed))
        } else {
            x
        }),
    ensures
        value_of(y, env.repr_of(ty).signed) == number_in(env, x, ty),
{
    let r = env.repr_of(ty);
    if 1 <= r.width < 64 {
        low_bits_in_word(x, r.width as nat, r.signed);
    }
}

proof fn wide_apart(r: Gpr, lo: Gpr, hi: Gpr)
    requires
        !wide_scratch(lo, hi).contains(r),
    ensures
        index(r) != index(lo),
        index(r) != index(hi),
        index(r) != index(Gpr::Rcx),
        index(r) != index(Gpr::R10),
        index(r) != index(Gpr::R11),
        r != Gpr::Rcx,
        0 <= index(r) < 16,
{
    gpr_codes_distinct(r, lo);
    gpr_codes_distinct(r, hi);
    gpr_codes_distinct(r, Gpr::Rcx);
    gpr_codes_distinct(r, Gpr::R10);
    gpr_codes_distinct(r, Gpr::R11);
}

/// What narrow operands leave: the number in the low word, and its sign in the high one.
#[verifier::spinoff_prover]
#[verifier::rlimit(40)]
proof fn narrow_operand_loads(
    env: Env,
    t: LowState,
    op: Operand,
    lo: Gpr,
    hi: Gpr,
    d: Cpu,
) -> (e: Cpu)
    requires
        d.wf(),
        t.err is None,
        lo != hi,
        lo == Gpr::Rax || lo == Gpr::Rcx,
        op is Copy,
        !env.is_wide_int(env.place_type(op->Copy_0)),
        addressable(env, op),
        wide_value(env, d, op) is Some,
    ensures
        takes(t, env.load_wide_operand(t, op, lo, hi), d, e),
        env.load_wide_operand(t, op, lo, hi).err is None,
        pair(e.reg(index(lo)), e.reg(index(hi))) == wrap128(wide_value(env, d, op).unwrap()),
        kept_but(d, e, wide_scratch(lo, hi)),
        e.mem == d.mem,
{
    reveal(Env::load_wide_operand);
    gpr_codes_distinct(lo, hi);
    let ty = env.place_type(op->Copy_0);
    let signed = env.repr_of(ty).signed;
    let x = scalar_word(env, d, op).unwrap();
    let t1 = env.operand_to(t, op, lo);
    let d1 = scalar_loads(env, t, op, lo, d);
    let t2 = env.normalize(t1, lo, ty);
    let d2 = normalizing_wraps(env, t, t1, lo, ty, d, d1);
    let y = d2.reg(index(lo));
    number_fills(env, x, ty, y);
    let t3 = t2.on(t2.text.mov_rr(hi, lo));
    let e = if signed {
        let d3 = follow_mov_rr(t, t2, hi, lo, d, d2);
        sign_fills(y);
        follow_sar_ri(t, t3, hi, 63, d, d3)
    } else {
        let e = follow_mov_ri(t, t2, hi, 0, d, d2);
        pair_is(y as int, 0, y as int);
        e
    };
    assert(env.normalize(t1, lo, ty).err == t1.err) by {
        reveal(Env::normalize);
        reveal(Env::normalize_signed_other);
        reveal(Env::normalize_unsigned_other);
    }
    assert forall|r: Gpr| !wide_scratch(lo, hi).contains(r) implies #[trigger] e.reg(index(r))
        == d.reg(index(r)) by {
        wide_apart(r, lo, hi);
        assert(!set![lo, Gpr::R10, Gpr::R11].contains(r));
        assert(d1.reg(index(r)) == d.reg(index(r)));
        assert(d2.reg(index(r)) == d1.reg(index(r)));
    }
    e
}

#[verifier::spinoff_prover]
#[verifier::rlimit(40)]
proof fn constant_loads(
    env: Env,
    t: LowState,
    op: Operand,
    lo: Gpr,
    hi: Gpr,
    d: Cpu,
) -> (e: Cpu)
    requires
        d.wf(),
        t.err is None,
        lo != hi,
        op is Const,
        wide_value(env, d, op) is Some,
    ensures
        takes(t, env.load_wide_operand(t, op, lo, hi), d, e),
        env.load_wide_operand(t, op, lo, hi).err is None,
        pair(e.reg(index(lo)), e.reg(index(hi))) == wrap128(wide_value(env, d, op).unwrap()),
        kept_but(d, e, wide_scratch(lo, hi)),
        e.mem == d.mem,
{
    takes_nothing(t, d);
    gpr_codes_distinct(lo, hi);
    let value = op->Const_0->Int_value;
    constant_halves(value);
    let t1 = t.on(t.text.mov_ri(lo, wide_lo(value)));
    let d1 = follow_mov_ri(t, t, lo, wide_lo(value), d, d);
    let e = follow_mov_ri(t, t1, hi, wide_hi(value), d, d1);
    assert(env.load_wide_operand(t, op, lo, hi) == t1.on(t1.text.mov_ri(hi, wide_hi(value)))) by {
        reveal(Env::load_wide_operand);
    }
    assert(e.reg(index(lo)) == wrap64(wide_lo(value) as int));
    assert(e.reg(index(hi)) == wrap64(wide_hi(value) as int));
    assert forall|r: Gpr| !wide_scratch(lo, hi).contains(r) implies #[trigger] e.reg(index(r))
        == d.reg(index(r)) by {
        wide_apart(r, lo, hi);
        assert(d1.reg(index(r)) == d.reg(index(r)));
    }
    e
}

#[verifier::spinoff_prover]
#[verifier::rlimit(40)]
proof fn two_words_load(
    env: Env,
    t: LowState,
    op: Operand,
    lo: Gpr,
    hi: Gpr,
    d: Cpu,
) -> (e: Cpu)
    requires
        d.wf(),
        t.err is None,
        lo != hi,
        lo != Gpr::R11,
        hi != Gpr::R11,
        op is Copy,
        env.is_wide_int(env.place_type(op->Copy_0)),
        addressable(env, op),
        wide_value(env, d, op) is Some,
    ensures
        takes(t, env.load_wide_operand(t, op, lo, hi), d, e),
        env.load_wide_operand(t, op, lo, hi).err is None,
        pair(e.reg(index(lo)), e.reg(index(hi))) == wrap128(wide_value(env, d, op).unwrap()),
        kept_but(d, e, wide_scratch(lo, hi)),
        e.mem == d.mem,
{
    takes_nothing(t, d);
    gpr_codes_distinct(lo, hi);
    gpr_codes_distinct(lo, Gpr::R11);
    gpr_codes_distinct(hi, Gpr::R11);
    let p = op->Copy_0;
    let n = p.proj@.len() as usize;
    general_address(env, t, p, n, Gpr::R11, d);
    let t1 = env.place_addr(t, p, n, Gpr::R11);
    let d1 = address_is_right(env, t, p, n, Gpr::R11, d);
    let a = d1.reg(index(Gpr::R11)) as int;
    fetched_is_word(d.mem, a, 8);
    fetched_is_word(d.mem, a + 8, 8);
    let t2 = t1.on(t1.text.mov_load_mem(lo, Gpr::R11, 0));
    let d2 = follow_mov_load_mem(t, t1, lo, Gpr::R11, 0, d, d1);
    let e = follow_mov_load_mem(t, t2, hi, Gpr::R11, 8, d, d2);
    let x = fetch(d.mem, a, 8);
    let y = fetch(d.mem, a + 8, 8);
    fetch_bounded(d.mem, a, 8);
    fetch_bounded(d.mem, a + 8, 8);
    pow256_values();
    pair_is(x, y, x + y * SPAN);
    assert(env.load_wide_operand(t, op, lo, hi) == t2.on(
        t2.text.mov_load_mem(hi, Gpr::R11, 8),
    )) by {
        reveal(Env::load_wide_operand);
    }
    assert(e.reg(index(lo)) == x && e.reg(index(hi)) == y);
    assert forall|r: Gpr| !wide_scratch(lo, hi).contains(r) implies #[trigger] e.reg(index(r))
        == d.reg(index(r)) by {
        wide_apart(r, lo, hi);
        assert(d1.reg(index(r)) == d.reg(index(r)));
        assert(d2.reg(index(r)) == d1.reg(index(r)));
    }
    e
}

/// An operand of an operation on two words is loaded as its number, modulo `2` to the `128`:
/// a narrower one with its sign, or with zeros where it has none.
pub proof fn wide_operand_loads(
    env: Env,
    t: LowState,
    op: Operand,
    lo: Gpr,
    hi: Gpr,
    d: Cpu,
) -> (e: Cpu)
    requires
        d.wf(),
        t.err is None,
        lo != hi,
        lo == Gpr::Rax || lo == Gpr::Rcx,
        hi != Gpr::R11,
        addressable(env, op),
        wide_value(env, d, op) is Some,
    ensures
        takes(t, env.load_wide_operand(t, op, lo, hi), d, e),
        env.load_wide_operand(t, op, lo, hi).err is None,
        pair(e.reg(index(lo)), e.reg(index(hi))) == wrap128(wide_value(env, d, op).unwrap()),
        kept_but(d, e, wide_scratch(lo, hi)),
        e.mem == d.mem,
{
    match op {
        Operand::Const(_) => constant_loads(env, t, op, lo, hi, d),
        Operand::Copy(p) => if env.is_wide_int(env.place_type(p)) {
            two_words_load(env, t, op, lo, hi, d)
        } else {
            narrow_operand_loads(env, t, op, lo, hi, d)
        },
    }
}

} // verus!
