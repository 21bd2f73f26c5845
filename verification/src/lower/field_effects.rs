//! What printing code does with a number in a field: its digits go to the cursor.
use vstd::arithmetic::power2::{
    lemma2_to64, lemma2_to64_rest, lemma_pow2_adds, lemma_pow2_pos, pow2,
};
use vstd::bits::{lemma_u64_low_bits_mask_is_mod, low_bits_mask};
use vstd::prelude::*;
use vstd::utf8::{encode_scalar, is_scalar};

use crate::behavior::labels_once;
use crate::bytes::wrap64;
use crate::lower::char_effects::{code_point_is_printed, encoded};
use crate::lower::effects::{
    load_reads, low_bits, mask_cuts, normalizing_wraps, scalar_width, takes, takes_nothing,
};
use crate::lower::env::{Env, LowState};
use crate::lower::follow::{follow_and_ri, follow_and_rr, follow_mov_ri};
use crate::lower::loops::{onwards, reaches, straight_on, within};
use crate::lower::print_effects::{
    cursor_clear, decimal_word_is_printed, kept_both, number_text, only_printing, print_regs,
    printing_apart, written,
};
use crate::lower::radix_effects::{in_radix, radix_is_printed};
use crate::lower::scalar::{mask_of, sum32};
use crate::machine::{
    Cpu, SPAN, fetch, fetch_bounded, in_space, low_bytes, pow256, pow256_values, signed64,
};
use crate::mir::LocalId;
use crate::peephole::Ins;
use crate::reg::Gpr;
use crate::steps::index;
use crate::types::TypeId;

verus! {

/// Where a field stands, and the number that its bytes are.
pub open spec fn field_number(env: Env, c: Cpu, home: i32, foff: u64, fty: TypeId) -> int {
    fetch(c.mem, c.reg(5) + home + foff, scalar_width(env, fty))
}

/// Whether a field of a number of a type can be read.
pub open spec fn field_stands(env: Env, c: Cpu, home: i32, foff: u64, fty: TypeId) -> bool {
    &&& foff <= i32::MAX
    &&& home + foff <= i32::MAX
    &&& in_space(c.reg(5) + home + foff, scalar_width(env, fty))
    &&& 1 <= env.repr_of(fty).width <= 8 * scalar_width(env, fty)
}

proof fn bytes_in_bits(n: nat)
    requires
        n == 1 || n == 2 || n == 4 || n == 8,
    ensures
        pow256(n) == pow2(8 * n),
        pow2(8 * n) <= SPAN,
{
    lemma2_to64();
    lemma2_to64_rest();
    pow256_values();
}

proof fn cut_of_shifted(v: int, w: nat, k: nat)
    requires
        w <= k,
    ensures
        (v - pow2(k)) % (pow2(w) as int) == v % (pow2(w) as int),
        (v + pow2(k)) % (pow2(w) as int) == v % (pow2(w) as int),
{
    lemma_pow2_pos(w);
    lemma_pow2_adds(w, (k - w) as nat);
    let m = pow2(w) as int;
    let f = pow2((k - w) as nat) as int;
    assert(v - pow2(k) == m * (-f) + v) by (nonlinear_arith)
        requires
            pow2(k) == m * f,
    ;
    vstd::arithmetic::div_mod::lemma_mod_multiples_vanish(-f, v, m);
    vstd::arithmetic::div_mod::lemma_mod_multiples_vanish(f, v, m);
}

/// The low bits of a number are those of the word that is loaded of it.
proof fn loaded_bits(f: int, n: nat, w: nat, signed: bool)
    requires
        n == 1 || n == 2 || n == 4 || n == 8,
        0 <= f < pow256(n),
        w <= 8 * n,
    ensures
        wrap64(low_bytes(f, n, signed)) as int % (pow2(w) as int) == f % (pow2(w) as int),
        n == 8 ==> wrap64(low_bytes(f, n, signed)) == f,
{
    bytes_in_bits(n);
    lemma2_to64_rest();
    assert(f % pow256(n) == f) by {
        vstd::arithmetic::div_mod::lemma_small_mod(f as nat, pow256(n) as nat);
    }
    let v = low_bytes(f, n, signed);
    cut_of_shifted(f, w, 8 * n);
    if v < 0 {
        cut_of_shifted(v, w, 64);
        assert(wrap64(v) == v + SPAN);
    } else {
        assert(wrap64(v) == v);
    }
}

#[verifier::spinoff_prover]
proof fn low_bits_are_kept(env: Env, s: LowState, t: LowState, w: u16, c: Cpu, d: Cpu) -> (e: Cpu)
    requires
        takes(s, t, c, d),
        d.wf(),
        1 <= w < 64,
    ensures
        takes(s, env.keep_low_bits(t, w), c, e),
        only_printing(d, e),
        e.mem == d.mem,
        e.reg(11) == d.reg(11),
        e.reg(4) == d.reg(4),
        e.reg(0) == d.reg(0) as int % (pow2(w as nat) as int),
{
    reveal(Env::keep_low_bits);
    assert(index(Gpr::Rax) == 0 && index(Gpr::Rcx) == 1);
    let x = d.reg(0);
    let m = mask_of(w as u32);
    lemma2_to64();
    lemma2_to64_rest();
    let e = if w < 32 {
        mask_cuts(x, w as u32);
        follow_and_ri(s, t, Gpr::Rax, m as i32, c, d)
    } else {
        vstd::arithmetic::power2::lemma_pow2_strictly_increases(w as nat, 64);
        if w < 63 {
            vstd::arithmetic::power2::lemma_pow2_strictly_increases(w as nat, 63);
        }
        lemma_u64_low_bits_mask_is_mod(x, w as nat);
        assert(low_bits_mask(w as nat) == pow2(w as nat) - 1) by {
            reveal(low_bits_mask);
        }
        let t1 = t.on(t.text.mov_ri(Gpr::Rcx, m as i64));
        let d1 = follow_mov_ri(s, t, Gpr::Rcx, m as i64, c, d);
        assert(d1.reg(1) == m);
        follow_and_rr(s, t1, Gpr::Rax, Gpr::Rcx, c, d1)
    };
    assert forall|r: Gpr| !print_regs().contains(r) implies #[trigger] e.reg(index(r)) == d.reg(
        index(r),
    ) by {
        printing_apart(r);
    }
    e
}

#[verifier::spinoff_prover]
proof fn field_loads(
    env: Env,
    s: LowState,
    home: i32,
    foff: u64,
    fty: TypeId,
    c: Cpu,
) -> (d: Cpu)
    requires
        c.wf(),
        field_stands(env, c, home, foff, fty),
    ensures
        takes(s, env.load_sized(s, Gpr::Rax, Gpr::Rbp, sum32(home, foff as i32), fty), c, d),
        only_printing(c, d),
        d.mem == c.mem,
        d.reg(11) == c.reg(11),
        d.reg(4) == c.reg(4),
        d.reg(0) == wrap64(
            low_bytes(
                field_number(env, c, home, foff, fty),
                scalar_width(env, fty),
                env.repr_of(fty).signed,
            ),
        ),
{
    assert(index(Gpr::Rax) == 0 && index(Gpr::Rbp) == 5);
    takes_nothing(s, c);
    let d = load_reads(env, s, s, Gpr::Rax, Gpr::Rbp, sum32(home, foff as i32), fty, c, c);
    assert forall|r: Gpr| !print_regs().contains(r) implies #[trigger] d.reg(index(r)) == c.reg(
        index(r),
    ) by {
        printing_apart(r);
    }
    d
}

/// A number in a field goes to the cursor in a radix: as the bits of its type, read as an
/// unsigned number.
#[verifier::spinoff_prover]
#[verifier::rlimit(40)]
pub proof fn field_in_radix_is_printed(
    env: Env,
    w: Seq<Ins>,
    s: LowState,
    base: LocalId,
    home: i32,
    foff: u64,
    fty: TypeId,
    radix: u64,
    upper: bool,
    c: Cpu,
) -> (d: Cpu)
    requires
        labels_once(w),
        within(w, env.render_radix_field(s, base, foff, fty, radix, upper)),
        c.wf(),
        env.has_digits(fty),
        env.layout(fty).size <= 8,
        env.home(base) == Some(home),
        field_stands(env, c, home, foff, fty),
        2 <= radix <= 16,
        cursor_clear(c, 64, 64),
    ensures
        reaches(w, s, c, env.render_radix_field(s, base, foff, fty, radix, upper), d),
        only_printing(c, d),
        ({
            let bits = field_number(env, c, home, foff, fty) % (pow2(
                env.repr_of(fty).width as nat,
            ) as int);
            let text = in_radix(bits as nat, radix as nat, upper);
            &&& d.reg(11) == c.reg(11) + text.len()
            &&& written(c.mem, d.mem, text, d.reg(11) as int, c.reg(4) as int, c.reg(4) + 64)
        }),
{
    let r = env.repr_of(fty);
    let f = field_number(env, c, home, foff, fty);
    let n = scalar_width(env, fty);
    fetch_bounded(c.mem, c.reg(5) + home + foff, n);
    loaded_bits(f, n, r.width as nat, r.signed);
    bytes_in_bits(n);
    let t1 = env.load_sized(s, Gpr::Rax, Gpr::Rbp, sum32(home, foff as i32), fty);
    let c1 = field_loads(env, s, home, foff, fty, c);
    let (t2, c2): (LowState, Cpu) = if r.width < 64 {
        (env.keep_low_bits(t1, r.width), low_bits_are_kept(env, s, t1, r.width, c, c1))
    } else {
        (t1, c1)
    };
    let bits = f % (pow2(r.width as nat) as int);
    lemma_pow2_pos(r.width as nat);
    assert(c2.reg(0) == bits) by {
        if r.width >= 64 {
            vstd::arithmetic::div_mod::lemma_small_mod(f as nat, pow2(64));
        }
    }
    if r.width < 64 {
        kept_both(c, c1, c2);
    }
    let u = env.emit_radix_digits(t2, radix, upper);
    assert(env.render_radix_field(s, base, foff, fty, radix, upper) == u) by {
        reveal(Env::render_radix_field);
    }
    let d = radix_is_printed(env, w, t2, radix, upper, c2);
    straight_on(w, s, t2, c, c2);
    onwards(w, s, c, t2, c2, u, d);
    kept_both(c, c2, d);
    d
}

/// A number in a field goes to the cursor in decimal: the number that its bits are in its type.
#[verifier::spinoff_prover]
#[verifier::rlimit(40)]
pub proof fn field_in_decimal_is_printed(
    env: Env,
    w: Seq<Ins>,
    s: LowState,
    base: LocalId,
    home: i32,
    foff: u64,
    fty: TypeId,
    c: Cpu,
) -> (d: Cpu)
    requires
        labels_once(w),
        within(w, env.render_decimal_field(s, base, foff, fty)),
        c.wf(),
        env.ty(fty) is Int,
        env.layout(fty).size <= 8,
        env.home(base) == Some(home),
        field_stands(env, c, home, foff, fty),
        cursor_clear(c, 21, 24),
    ensures
        reaches(w, s, c, env.render_decimal_field(s, base, foff, fty), d),
        only_printing(c, d),
        ({
            let value = low_bits(
                field_number(env, c, home, foff, fty),
                env.repr_of(fty).width as nat,
                env.repr_of(fty).signed,
            );
            let text = number_text(value);
            &&& d.reg(11) == c.reg(11) + text.len()
            &&& written(c.mem, d.mem, text, d.reg(11) as int, c.reg(4) as int, c.reg(4) + 24)
        }),
{
    assert(index(Gpr::Rax) == 0 && index(Gpr::Rcx) == 1);
    let r = env.repr_of(fty);
    let f = field_number(env, c, home, foff, fty);
    let n = scalar_width(env, fty);
    fetch_bounded(c.mem, c.reg(5) + home + foff, n);
    loaded_bits(f, n, r.width as nat, r.signed);
    bytes_in_bits(n);
    let t1 = env.load_sized(s, Gpr::Rax, Gpr::Rbp, sum32(home, foff as i32), fty);
    let c1 = field_loads(env, s, home, foff, fty, c);
    let t2 = env.normalize(t1, Gpr::Rax, fty);
    let c2 = normalizing_wraps(env, s, t1, Gpr::Rax, fty, c, c1);
    let value = low_bits(f, r.width as nat, r.signed);
    assert(only_printing(c1, c2)) by {
        assert forall|q: Gpr| !print_regs().contains(q) implies #[trigger] c2.reg(index(q))
            == c1.reg(index(q)) by {
            printing_apart(q);
        }
    }
    kept_both(c, c1, c2);
    value_in_word(f, r.width as nat, r.signed, c2.reg(0));
    let u = env.render_decimal_64(t2, r.signed);
    assert(env.render_decimal_field(s, base, foff, fty) == u) by {
        reveal(Env::render_decimal_field);
    }
    let d = decimal_word_is_printed(env, w, t2, r.signed, c2);
    straight_on(w, s, t2, c, c2);
    onwards(w, s, c, t2, c2, u, d);
    kept_both(c, c2, d);
    d
}

proof fn value_in_word(f: int, w: nat, signed: bool, x: u64)
    requires
        0 <= f < SPAN,
        1 <= w <= 64,
        x == (if w < 64 {
            wrap64(low_bits(f, w, signed))
        } else {
            f as u64
        }),
    ensures
        (if signed {
            signed64(x)
        } else {
            x as int
        }) == low_bits(f, w, signed),
{
    lemma2_to64();
    lemma2_to64_rest();
    lemma_pow2_pos(w);
    if w < 64 {
        if w < 63 {
            vstd::arithmetic::power2::lemma_pow2_strictly_increases(w, 63);
        }
        vstd::arithmetic::div_mod::lemma_mod_bound(f, pow2(w) as int);
    } else {
        vstd::arithmetic::div_mod::lemma_small_mod(f as nat, pow2(64));
    }
}

/// A code point in a field goes to the cursor as its UTF-8 bytes.
#[verifier::spinoff_prover]
#[verifier::rlimit(40)]
pub proof fn field_as_code_point_is_printed(
    env: Env,
    w: Seq<Ins>,
    s: LowState,
    base: LocalId,
    home: i32,
    foff: u64,
    fty: TypeId,
    c: Cpu,
) -> (d: Cpu)
    requires
        labels_once(w),
        within(w, env.render_char_field(s, base, foff, fty)),
        c.wf(),
        env.is_code_point(fty),
        !env.repr_of(fty).signed,
        env.home(base) == Some(home),
        field_stands(env, c, home, foff, fty),
        cursor_clear(c, 4, 8),
        field_number(env, c, home, foff, fty) <= 0x10FFFF,
        is_scalar(field_number(env, c, home, foff, fty) as u32),
    ensures
        reaches(w, s, c, env.render_char_field(s, base, foff, fty), d),
        only_printing(c, d),
        ({
            let text = encode_scalar(field_number(env, c, home, foff, fty) as u32);
            &&& d.reg(11) == c.reg(11) + text.len()
            &&& encoded(c.mem, d.mem, text, c.reg(11) as int, c.reg(4) as int, c.reg(4) + 8)
        }),
{
    let f = field_number(env, c, home, foff, fty);
    let n = scalar_width(env, fty);
    fetch_bounded(c.mem, c.reg(5) + home + foff, n);
    bytes_in_bits(n);
    let t1 = env.load_sized(s, Gpr::Rax, Gpr::Rbp, sum32(home, foff as i32), fty);
    let c1 = field_loads(env, s, home, foff, fty, c);
    assert(c1.reg(0) == f) by {
        vstd::arithmetic::div_mod::lemma_small_mod(f as nat, pow256(n) as nat);
    }
    let u = env.emit_utf8_encode(t1);
    assert(env.render_char_field(s, base, foff, fty) == u) by {
        reveal(Env::render_char_field);
    }
    let d = code_point_is_printed(env, w, t1, c1);
    straight_on(w, s, t1, c, c1);
    onwards(w, s, c, t1, c1, u, d);
    kept_both(c, c1, d);
    d
}

} // verus!
