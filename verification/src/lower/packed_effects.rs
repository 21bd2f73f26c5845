//! What lowered code does with bit fields.
use vstd::prelude::*;

use crate::bytes::wrap64;
use crate::lower::effects::{low_bits, takes};
use crate::lower::env::{Env, LowState};
use crate::lower::follow::{
    follow_and_ri, follow_and_rr, follow_mov_load_mem, follow_mov_ri, follow_mov_store_mem,
    follow_or_rr, follow_sar_ri, follow_shl_ri, follow_shr_ri,
};
use crate::lower::mem_effects::fetched_is_word;
use crate::lower::place_effects::{
    address_is_right, address_of, agrees, general_address, no_index_in,
};
use crate::lower::scalar::{as_signed, hole_mask, mask_of};
use crate::machine::{Cpu, SPAN, Shift, fetch, in_space, patch, shifted};
use crate::mir::{PackedField, Place};
use crate::reg::{Gpr, gpr_codes_distinct};
use crate::steps::index;
use vstd::arithmetic::div_mod::{
    lemma_div_multiples_vanish, lemma_fundamental_div_mod, lemma_fundamental_div_mod_converse,
};
use vstd::arithmetic::power2::{
    lemma2_to64, lemma2_to64_rest, lemma_pow2_adds, lemma_pow2_pos, lemma_pow2_strictly_increases,
    lemma_pow2_unfold, pow2,
};
use vstd::bits::{lemma_u64_shl_is_mul, lemma_u64_shr_is_div};

verus! {

// ---------------------------------------------------------------------------
//  Bits
// ---------------------------------------------------------------------------

/// A word with `width` bits from bit `off` on replaced by the low bits of `v`.
pub open spec fn with_field(w: u64, v: u64, off: u32, width: u32) -> u64 {
    (w & hole_mask(off, width)) | ((v & mask_of(width)) << (off as u64))
}

/// The `width` bits from bit `off` on.
pub open spec fn field_of(w: u64, off: u32, width: u32) -> u64 {
    (w >> (off as u64)) & mask_of(width)
}

pub(crate) proof fn masks_are_bits(off: u32, width: u32)
    requires
        1 <= width,
        off + width <= 64,
    ensures
        hole_mask(off, width) == !(mask_of(width) << (off as u64)),
        width < 64 ==> mask_of(width) == (1u64 << (width as u64)) - 1,
        width == 64 ==> mask_of(width) == 0xFFFF_FFFF_FFFF_FFFF,
{
    lemma2_to64();
    lemma2_to64_rest();
    lemma_pow2_pos(width as nat);
    lemma_pow2_pos(off as nat);
    if width < 64 {
        lemma_pow2_strictly_increases(width as nat, 64);
        lemma_u64_shl_is_mul(1, width as u64);
    }
    let m = mask_of(width);
    assert(m == pow2(width as nat) - 1);
    lemma_pow2_adds(width as nat, off as nat);
    if off + width < 64 {
        lemma_pow2_strictly_increases((off + width) as nat, 64);
    }
    let p = pow2(off as nat) as int;
    let q = pow2(width as nat) as int;
    assert((q - 1) * p == q * p - p) by (nonlinear_arith);
    lemma_u64_shl_is_mul(m, off as u64);
    let x = m << (off as u64);
    assert(!x == 0xFFFF_FFFF_FFFF_FFFFu64 - x) by (bit_vector);
}

/// A bit field that was written reads as the low bits of what was written.
#[verifier::spinoff_prover]
#[verifier::rlimit(30)]
pub proof fn written_field_reads(w: u64, v: u64, off: u32, width: u32)
    requires
        1 <= width,
        off + width <= 64,
    ensures
        field_of(with_field(w, v, off, width), off, width) == v & mask_of(width),
{
    masks_are_bits(off, width);
    let m = mask_of(width);
    let o = off as u64;
    let n = width as u64;
    assert((((w & !(m << o)) | ((v & m) << o)) >> o) & m == v & m) by (bit_vector)
        requires
            n >= 1,
            o + n <= 64,
            n < 64 ==> m == (1u64 << n) - 1,
            n == 64 ==> m == 0xFFFF_FFFF_FFFF_FFFF,
    ;
}

/// Writing a bit field changes no bit outside of it: every field apart from it reads as
/// before.
#[verifier::spinoff_prover]
#[verifier::rlimit(30)]
pub proof fn other_fields_stay(w: u64, v: u64, off: u32, width: u32, o2: u32, w2: u32)
    requires
        1 <= width,
        1 <= w2,
        off + width <= 64,
        o2 + w2 <= 64,
        off + width <= o2 || o2 + w2 <= off,
    ensures
        field_of(with_field(w, v, off, width), o2, w2) == field_of(w, o2, w2),
{
    masks_are_bits(off, width);
    masks_are_bits(o2, w2);
    let m = mask_of(width);
    let k = mask_of(w2);
    let o = off as u64;
    let n = width as u64;
    let p = o2 as u64;
    let q = w2 as u64;
    assert((((w & !(m << o)) | ((v & m) << o)) >> p) & k == (w >> p) & k) by (bit_vector)
        requires
            n >= 1,
            q >= 1,
            o + n <= 64,
            p + q <= 64,
            o + n <= p || p + q <= o,
            n < 64 ==> m == (1u64 << n) - 1,
            n == 64 ==> m == 0xFFFF_FFFF_FFFF_FFFF,
            q < 64 ==> k == (1u64 << q) - 1,
            q == 64 ==> k == 0xFFFF_FFFF_FFFF_FFFF,
    ;
}

proof fn signed_field(w: u64, off: u32, width: u32)
    requires
        1 <= width,
        off + width <= 64,
    ensures
        shifted(Shift::Signed, wrap64(shifted(Shift::Left, w, 64 - off - width)), 64 - width)
            == low_bits(w as int / (pow2(off as nat) as int), width as nat, true),
{
    reveal(shifted);
    let top = (64 - off - width) as nat;
    let a = pow2(off as nat) as int;
    let p = pow2(width as nat) as int;
    let k = pow2(top) as int;
    lemma_pow2_pos(off as nat);
    lemma_pow2_pos(width as nat);
    lemma_pow2_pos(top);
    lemma_pow2_adds(off as nat, top);
    lemma_pow2_adds(width as nat, (off + top) as nat);
    lemma2_to64();
    lemma2_to64_rest();
    let b = a * k;
    assert(b == pow2((64 - width) as nat));
    assert(p * b == SPAN);
    let h = w as int / a;
    let g = w as int % a;
    let q = h / p;
    let f = h % p;
    lemma_fundamental_div_mod(w as int, a);
    lemma_fundamental_div_mod(h, p);
    let rest = f * b + g * k;
    assert(w * k == q * SPAN + rest) by (nonlinear_arith)
        requires
            w == a * h + g,
            h == p * q + f,
            b == a * k,
            p * b == SPAN,
            rest == f * b + g * k,
    ;
    assert(0 <= g * k < b) by (nonlinear_arith)
        requires
            0 <= g < a,
            k > 0,
            b == a * k,
    ;
    assert(0 <= f * b <= (p - 1) * b) by (nonlinear_arith)
        requires
            0 <= f <= p - 1,
            b > 0,
    ;
    assert((p - 1) * b == SPAN - b) by (nonlinear_arith)
        requires
            p * b == SPAN,
    ;
    lemma_fundamental_div_mod_converse(w * k, SPAN as int, q, rest);
    assert(wrap64(w * k) == rest);
    if width == 64 {
        assert(top == 0 && (64 - width) as nat == 0);
        assert(b == 1 && k == 1 && a == 1);
        assert(rest == f) by (nonlinear_arith)
            requires
                rest == f * b + g * k,
                b == 1,
                k == 1,
                g == 0,
        ;
    }
    assert((2 * f >= p) == (rest >= 0x8000_0000_0000_0000)) by {
        if 2 * f >= p {
            assert(2 * (f * b) >= SPAN) by (nonlinear_arith)
                requires
                    2 * f >= p,
                    p * b == SPAN,
                    b > 0,
            ;
        } else {
            halves(width, f, p);
            assert(2 * (f * b) + 2 * b <= SPAN) by (nonlinear_arith)
                requires
                    2 * f + 2 <= p,
                    p * b == SPAN,
                    b > 0,
            ;
        }
    }
    if 2 * f >= p {
        assert(rest - SPAN == (f - p) * b + g * k) by (nonlinear_arith)
            requires
                rest == f * b + g * k,
                p * b == SPAN,
        ;
        assert((f - p) * b == b * (f - p)) by (nonlinear_arith);
        lemma_fundamental_div_mod_converse(rest - SPAN, b, f - p, g * k);
    } else {
        lemma_fundamental_div_mod_converse(rest, b, f, g * k);
    }
}

proof fn halves(width: u32, f: int, p: int)
    requires
        1 <= width <= 64,
        p == pow2(width as nat),
        2 * f < p,
    ensures
        2 * f + 2 <= p,
{
    lemma_pow2_unfold(width as nat);
}

// ---------------------------------------------------------------------------
//  Code
// ---------------------------------------------------------------------------

proof fn masked_runs(
    env: Env,
    s: LowState,
    t: LowState,
    dst: Gpr,
    mask: u64,
    c: Cpu,
    d: Cpu,
) -> (e: Cpu)
    requires
        takes(s, t, c, d),
        d.wf(),
        dst != Gpr::R10,
    ensures
        takes(s, env.mask_to(t, dst, mask), c, e),
        agrees(d, e, dst),
        e.reg(index(dst)) == d.reg(index(dst)) & mask,
{
    mask_comes_back(mask);
    if mask <= 0x7FFF_FFFF {
        assert(env.mask_to(t, dst, mask) == t.on(t.text.and_ri(dst, mask as i32))) by {
            reveal(Env::mask_to);
        }
        follow_and_ri(s, t, dst, mask as i32, c, d)
    } else {
        assert(env.mask_to(t, dst, mask) == anded(t, dst, mask)) by {
            reveal(Env::mask_to);
        }
        anded_runs(s, t, dst, mask, c, d)
    }
}

/// The code that takes the bits of a register that are set in a word.
pub open spec fn anded(t: LowState, dst: Gpr, mask: u64) -> LowState {
    let t = t.on(t.text.mov_ri(Gpr::R10, as_signed(mask)));
    t.on(t.text.and_rr(dst, Gpr::R10))
}

proof fn anded_runs(s: LowState, t: LowState, dst: Gpr, mask: u64, c: Cpu, d: Cpu) -> (e: Cpu)
    requires
        takes(s, t, c, d),
        d.wf(),
        dst != Gpr::R10,
    ensures
        takes(s, anded(t, dst, mask), c, e),
        agrees(d, e, dst),
        e.reg(index(dst)) == d.reg(index(dst)) & mask,
{
    gpr_codes_distinct(dst, Gpr::R10);
    mask_comes_back(mask);
    let t1 = t.on(t.text.mov_ri(Gpr::R10, as_signed(mask)));
    let d1 = follow_mov_ri(s, t, Gpr::R10, as_signed(mask), c, d);
    follow_and_rr(s, t1, dst, Gpr::R10, c, d1)
}

proof fn mask_comes_back(mask: u64)
    ensures
        wrap64(as_signed(mask) as int) == mask,
        mask <= 0x7FFF_FFFF ==> wrap64((mask as i32) as int) == mask,
{
}

proof fn cleared_runs(
    env: Env,
    s: LowState,
    t: LowState,
    dst: Gpr,
    off: u32,
    width: u32,
    c: Cpu,
    d: Cpu,
) -> (e: Cpu)
    requires
        takes(s, t, c, d),
        d.wf(),
        dst != Gpr::R10,
    ensures
        takes(s, env.clear_field(t, dst, off, width), c, e),
        agrees(d, e, dst),
        e.reg(index(dst)) == d.reg(index(dst)) & hole_mask(off, width),
{
    assert(env.clear_field(t, dst, off, width) == anded(t, dst, hole_mask(off, width))) by {
        reveal(Env::clear_field);
    }
    anded_runs(s, t, dst, hole_mask(off, width), c, d)
}

/// The code that moves the low bits of `src` to their place in a word.
pub open spec fn placed(env: Env, t: LowState, pf: PackedField, src: Gpr) -> LowState {
    let t = env.mask_to(t, src, mask_of(pf.width));
    if pf.off != 0 {
        t.on(t.text.shl_ri(src, pf.off as u8))
    } else {
        t
    }
}

#[verifier::spinoff_prover]
pub(crate) proof fn placed_runs(
    env: Env,
    s: LowState,
    t: LowState,
    pf: PackedField,
    src: Gpr,
    c: Cpu,
    d: Cpu,
) -> (e: Cpu)
    requires
        takes(s, t, c, d),
        d.wf(),
        src != Gpr::R10,
        1 <= pf.width,
        pf.off + pf.width <= 64,
    ensures
        takes(s, placed(env, t, pf, src), c, e),
        agrees(d, e, src),
        e.reg(index(src)) == (d.reg(index(src)) & mask_of(pf.width)) << (pf.off as u64),
{
    let v = d.reg(index(src));
    let m = mask_of(pf.width);
    let x = v & m;
    let t1 = env.mask_to(t, src, m);
    let d1 = masked_runs(env, s, t, src, m, c, d);
    field_fits(v, pf.off, pf.width);
    if pf.off != 0 {
        assert(shifted(Shift::Left, x, pf.off as int) == x << (pf.off as u64)) by {
            reveal(shifted);
            lemma_u64_shl_is_mul(x, pf.off as u64);
        }
        let e = follow_shl_ri(s, t1, src, pf.off as u8, c, d1);
        assert forall|r: int| 0 <= r < 16 && r != index(src) && r != index(Gpr::R10) implies
            #[trigger] e.reg(r) == d.reg(r) by {
            assert(d1.reg(r) == d.reg(r));
        }
        e
    } else {
        assert(x << 0u64 == x) by (bit_vector);
        d1
    }
}

proof fn field_fits(v: u64, off: u32, width: u32)
    requires
        1 <= width,
        off + width <= 64,
    ensures
        (v & mask_of(width)) * pow2(off as nat) <= u64::MAX,
{
    masks_are_bits(off, width);
    let m = mask_of(width);
    assert(v & m <= m) by (bit_vector);
    lemma2_to64();
    lemma2_to64_rest();
    lemma_pow2_pos(width as nat);
    lemma_pow2_pos(off as nat);
    if width < 64 {
        lemma_pow2_strictly_increases(width as nat, 64);
    }
    assert(m == pow2(width as nat) - 1);
    lemma_pow2_adds(width as nat, off as nat);
    if off + width < 64 {
        lemma_pow2_strictly_increases((off + width) as nat, 64);
    }
    let p = pow2(off as nat) as int;
    let q = pow2(width as nat) as int;
    let x = (v & m) as int;
    assert(x * p <= q * p - p) by (nonlinear_arith)
        requires
            x <= q - 1,
            p > 0,
    ;
}

/// A store to a bit field replaces its bits in the word at the address of its struct by the
/// low bits of the value, and changes no other.
#[verifier::spinoff_prover]
pub proof fn field_is_stored(
    env: Env,
    s: LowState,
    place: Place,
    pf: PackedField,
    c: Cpu,
) -> (d: Cpu)
    requires
        c.wf(),
        s.err is None,
        0 < place.proj@.len() <= usize::MAX,
        1 <= pf.width,
        pf.off + pf.width <= 64,
        no_index_in(env, place, Gpr::R10),
        no_index_in(env, place, Gpr::R11),
        address_of(env, c, place, (place.proj@.len() - 1) as usize) matches Some(a) && in_space(
            a as int,
            8,
        ),
    ensures
        takes(s, env.store_packed_field(s, place, pf, Gpr::Rdx), c, d),
        ({
            let a = address_of(env, c, place, (place.proj@.len() - 1) as usize).unwrap();
            d.mem == patch(
                c.mem,
                a as int,
                8,
                with_field(
                    fetch(c.mem, a as int, 8) as u64,
                    c.reg(2),
                    pf.off,
                    pf.width,
                ) as int,
            )
        }),
{
    reveal(Env::store_packed_field);
    assert(index(Gpr::Rcx) == 1 && index(Gpr::Rdx) == 2 && index(Gpr::R10) == 10 && index(Gpr::R11)
        == 11);
    let n = (place.proj@.len() - 1) as usize;
    let t1 = env.place_addr(s, place, n, Gpr::R11);
    let c1 = address_is_right(env, s, place, n, Gpr::R11, c);
    general_address(env, s, place, n, Gpr::R11, c);
    let a = c1.reg(11);
    assert(c1.reg(2) == c.reg(2));
    let t2 = placed(env, t1, pf, Gpr::Rdx);
    let c2 = placed_runs(env, s, t1, pf, Gpr::Rdx, c, c1);
    assert(c2.reg(11) == a);
    fetched_is_word(c.mem, a as int, 8);
    let t3 = t2.on(t2.text.mov_load_mem(Gpr::Rcx, Gpr::R11, 0));
    let c3 = follow_mov_load_mem(s, t2, Gpr::Rcx, Gpr::R11, 0, c, c2);
    let t4 = env.clear_field(t3, Gpr::Rcx, pf.off, pf.width);
    let c4 = cleared_runs(env, s, t3, Gpr::Rcx, pf.off, pf.width, c, c3);
    assert(c4.reg(11) == a && c4.reg(2) == c2.reg(2)) by {
        assert(c4.reg(11) == c3.reg(11));
        assert(c4.reg(2) == c3.reg(2));
    }
    let t5 = t4.on(t4.text.or_rr(Gpr::Rcx, Gpr::Rdx));
    let c5 = follow_or_rr(s, t4, Gpr::Rcx, Gpr::Rdx, c, c4);
    follow_mov_store_mem(s, t5, Gpr::R11, 0, Gpr::Rcx, c, c5)
}

/// The code that brings the bits of a field to the bottom of a register.
pub open spec fn extracted(env: Env, t: LowState, pf: PackedField, dst: Gpr) -> LowState {
    if pf.signed {
        let top = (64 - pf.off - pf.width) as u8;
        let t = if top != 0 {
            t.on(t.text.shl_ri(dst, top))
        } else {
            t
        };
        t.on(t.text.sar_ri(dst, (64 - pf.width) as u8))
    } else {
        let t = if pf.off != 0 {
            t.on(t.text.shr_ri(dst, pf.off as u8))
        } else {
            t
        };
        if pf.width < 64 {
            env.mask_to(t, dst, mask_of(pf.width))
        } else {
            t
        }
    }
}

#[verifier::spinoff_prover]
proof fn signed_field_runs(
    env: Env,
    s: LowState,
    t: LowState,
    pf: PackedField,
    dst: Gpr,
    c: Cpu,
    d: Cpu,
) -> (e: Cpu)
    requires
        takes(s, t, c, d),
        d.wf(),
        pf.signed,
        1 <= pf.width,
        pf.off + pf.width <= 64,
    ensures
        takes(s, extracted(env, t, pf, dst), c, e),
        extracted(env, t, pf, dst).err == t.err,
        agrees(d, e, dst),
        e.reg(index(dst)) == wrap64(
            low_bits(
                d.reg(index(dst)) as int / (pow2(pf.off as nat) as int),
                pf.width as nat,
                true,
            ),
        ),
{
    let w = d.reg(index(dst));
    let top = (64 - pf.off - pf.width) as u8;
    signed_field(w, pf.off, pf.width);
    if top != 0 {
        let t1 = t.on(t.text.shl_ri(dst, top));
        let d1 = follow_shl_ri(s, t, dst, top, c, d);
        follow_sar_ri(s, t1, dst, (64 - pf.width) as u8, c, d1)
    } else {
        assert(wrap64(shifted(Shift::Left, w, 0)) == w) by {
            reveal(shifted);
            lemma2_to64();
            assert(w * 1 == w);
        }
        follow_sar_ri(s, t, dst, (64 - pf.width) as u8, c, d)
    }
}

proof fn unsigned_field_runs(
    env: Env,
    s: LowState,
    t: LowState,
    pf: PackedField,
    dst: Gpr,
    c: Cpu,
    d: Cpu,
) -> (e: Cpu)
    requires
        takes(s, t, c, d),
        d.wf(),
        !pf.signed,
        dst != Gpr::R10,
        1 <= pf.width,
        pf.off + pf.width <= 64,
    ensures
        takes(s, extracted(env, t, pf, dst), c, e),
        extracted(env, t, pf, dst).err == t.err,
        agrees(d, e, dst),
        e.reg(index(dst)) == field_of(d.reg(index(dst)), pf.off, pf.width),
{
    let w = d.reg(index(dst));
    let t1 = if pf.off != 0 {
        t.on(t.text.shr_ri(dst, pf.off as u8))
    } else {
        t
    };
    assert(w >> 0u64 == w) by (bit_vector);
    let d1 = if pf.off != 0 {
        assert(shifted(Shift::Right, w, pf.off as int) == w >> (pf.off as u64)) by {
            reveal(shifted);
            lemma_u64_shr_is_div(w, pf.off as u64);
        }
        follow_shr_ri(s, t, dst, pf.off as u8, c, d)
    } else {
        d
    };
    if pf.width < 64 {
        assert(env.mask_to(t1, dst, mask_of(pf.width)).err == t1.err) by {
            reveal(Env::mask_to);
        }
        let e = masked_runs(env, s, t1, dst, mask_of(pf.width), c, d1);
        assert forall|r: int| 0 <= r < 16 && r != index(dst) && r != index(Gpr::R10) implies
            #[trigger] e.reg(r) == d.reg(r) by {
            assert(d1.reg(r) == d.reg(r));
        }
        e
    } else {
        masks_are_bits(pf.off, pf.width);
        assert(w & 0xFFFF_FFFF_FFFF_FFFF == w) by (bit_vector);
        d1
    }
}

/// The value of a bit field of a word, extended as the field is signed or not.
pub open spec fn bits_value(w: u64, pf: PackedField) -> u64 {
    if pf.signed {
        wrap64(low_bits(w as int / (pow2(pf.off as nat) as int), pf.width as nat, true))
    } else {
        field_of(w, pf.off, pf.width)
    }
}

/// A load of a bit field gives its bits, extended as the field is signed or not; only the
/// register it goes to and `r10` change.
#[verifier::spinoff_prover]
#[verifier::rlimit(40)]
pub proof fn field_is_loaded(
    env: Env,
    s: LowState,
    place: Place,
    pf: PackedField,
    dst: Gpr,
    c: Cpu,
) -> (d: Cpu)
    requires
        c.wf(),
        s.err is None,
        0 < place.proj@.len() <= usize::MAX,
        1 <= pf.width,
        pf.off + pf.width <= 64,
        dst != Gpr::R10,
        dst != Gpr::Rbp,
        no_index_in(env, place, Gpr::R10),
        no_index_in(env, place, dst),
        address_of(env, c, place, (place.proj@.len() - 1) as usize) matches Some(a) && in_space(
            a as int,
            8,
        ),
    ensures
        takes(s, env.load_packed_field(s, place, pf, dst), c, d),
        env.load_packed_field(s, place, pf, dst).err is None,
        agrees(c, d, dst),
        ({
            let a = address_of(env, c, place, (place.proj@.len() - 1) as usize).unwrap();
            d.reg(index(dst)) == bits_value(fetch(c.mem, a as int, 8) as u64, pf)
        }),
{
    gpr_codes_distinct(dst, Gpr::R10);
    let n = (place.proj@.len() - 1) as usize;
    let t1 = env.place_addr(s, place, n, dst);
    let c1 = address_is_right(env, s, place, n, dst, c);
    general_address(env, s, place, n, dst, c);
    let a = c1.reg(index(dst));
    fetched_is_word(c.mem, a as int, 8);
    let w = fetch(c.mem, a as int, 8) as u64;
    let t2 = t1.on(t1.text.mov_load_mem(dst, dst, 0));
    let c2 = follow_mov_load_mem(s, t1, dst, dst, 0, c, c1);
    let d = if pf.signed {
        signed_field_runs(env, s, t2, pf, dst, c, c2)
    } else {
        unsigned_field_runs(env, s, t2, pf, dst, c, c2)
    };
    assert forall|r: int| 0 <= r < 16 && r != index(dst) && r != index(Gpr::R10) implies
        #[trigger] d.reg(r) == c.reg(r) by {
        assert(c2.reg(r) == c1.reg(r));
        assert(c1.reg(r) == c.reg(r));
    }
    d
}

} // verus!
