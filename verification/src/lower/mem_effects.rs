//! What lowered code does to memory.
use vstd::prelude::*;

use crate::bytes::wrap64;
use crate::lower::effects::{takes, takes_nothing};
use crate::lower::env::{Env, LowState};
use crate::lower::follow::{
    follow_mov_load, follow_mov_load32_mem, follow_mov_load_mem, follow_mov_ri, follow_mov_rr,
    follow_mov_store, follow_mov_store16_mem, follow_mov_store32_mem, follow_mov_store8_mem,
    follow_mov_store_mem, follow_movzx16_mem, follow_movzx8_mem, follow_rep_movsb, follow_shr_ri,
};
use crate::lower::scalar::sum32;
use crate::machine::{
    Act, Bytes, Cpu, Shift, act, block_copy, byte_at, bytes_of_fetched, copy_block, elsewhere_stays,
    fetch, fetch_bounded, in_space, low_bytes, patch, pow256, pow256_values, shifted,
    written_is_read,
};
use crate::reg::{Gpr, gpr_codes_distinct};
use crate::steps::index;
use vstd::arithmetic::div_mod::lemma_small_mod;
use vstd::arithmetic::power2::lemma2_to64;

verus! {

/// Whether no register changed but those given.
pub open spec fn kept_but(c: Cpu, d: Cpu, changed: Set<Gpr>) -> bool {
    &&& d.wf()
    &&& d.state == c.state
    &&& d.data == c.data
    &&& forall|r: Gpr| !changed.contains(r) ==> #[trigger] d.reg(index(r)) == c.reg(index(r))
}

/// Whether `k` is `m` with the bytes of `v` at `a`.
pub open spec fn holds_at(m: Bytes, k: Bytes, a: int, n: nat, v: int) -> bool {
    forall|x: int| #[trigger] k(x) == patch(m, a, n, v)(x)
}

/// Whether `k` is `m` with `n` bytes copied.
pub open spec fn copied(m: Bytes, k: Bytes, to: int, from: int, n: int) -> bool {
    forall|x: int| #[trigger]
        k(x) == if to <= x < to + n {
            m(from + (x - to))
        } else {
            m(x)
        }
}

/// Whether `k` is `m` with `n` zero bytes at `a`.
pub open spec fn zeroed_at(m: Bytes, k: Bytes, a: int, n: int) -> bool {
    forall|x: int| #[trigger]
        k(x) == if a <= x < a + n {
            0
        } else {
            m(x)
        }
}

/// Whether two stretches of memory have no byte in common.
pub open spec fn apart(a: int, b: int, n: int) -> bool {
    a + n <= b || b + n <= a
}

// ---------------------------------------------------------------------------
//  Parts of a word
// ---------------------------------------------------------------------------

pub(crate) proof fn byte_of_quotient(v: int, k: int)
    requires
        k >= 0,
    ensures
        byte_at(v / 0x1_0000, k) == byte_at(v, k + 2),
        byte_at(v / 0x1_0000_0000, k) == byte_at(v, k + 4),
{
    assert(byte_at(v, k + 2) == byte_at(v / 256, k + 1));
    assert(byte_at(v / 256, k + 1) == byte_at(v / 256 / 256, k));
    assert(byte_at(v, k + 4) == byte_at(v / 256, k + 3));
    assert(byte_at(v / 256, k + 3) == byte_at(v / 256 / 256, k + 2));
    assert(byte_at(v / 256 / 256, k + 2) == byte_at(v / 256 / 256 / 256, k + 1));
    assert(byte_at(v / 256 / 256 / 256, k + 1) == byte_at(v / 256 / 256 / 256 / 256, k));
}

proof fn shifted_right(v: u64)
    ensures
        shifted(Shift::Right, v, 16) == v as int / 0x1_0000,
        shifted(Shift::Right, v, 32) == v as int / 0x1_0000_0000,
{
    reveal(shifted);
    lemma2_to64();
}

proof fn parts_join(m: Bytes, m1: Bytes, m2: Bytes, a: int, j: nat, k: nat, v: int)
    requires
        v >= 0,
        j == 2 || j == 4,
        holds_at(m, m1, a, j, v),
        holds_at(
            m1,
            m2,
            a + j,
            k,
            if j == 2 {
                v / 0x1_0000
            } else {
                v / 0x1_0000_0000
            },
        ),
    ensures
        holds_at(m, m2, a, j + k, v),
{
    assert forall|x: int| #[trigger] m2(x) == patch(m, a, j + k, v)(x) by {
        if a + j <= x < a + j + k {
            byte_of_quotient(v, x - (a + j));
        }
        assert(m1(x) == patch(m, a, j, v)(x));
    }
}

/// The low bytes of a register go to as many bytes of the frame, whatever their number, and
/// to no others; only `rcx` is needed for it.
#[verifier::spinoff_prover]
pub proof fn part_of_word_stored(
    env: Env,
    s: LowState,
    t: LowState,
    off: i32,
    src: Gpr,
    n: u64,
    c: Cpu,
    d: Cpu,
) -> (e: Cpu)
    requires
        takes(s, t, c, d),
        d.wf(),
        n <= 8,
        off + n <= i32::MAX,
        in_space(d.reg(5) + off, n as nat),
        src != Gpr::Rbp,
    ensures
        takes(s, env.store_eightbyte(t, off, src, n), c, e),
        kept_but(d, e, set![Gpr::Rcx]),
        holds_at(d.mem, e.mem, d.reg(5) + off, n as nat, d.reg(index(src)) as int),
        n == 1 || n == 2 || n == 4 || n == 8 ==> e.regs == d.regs,
    decreases n,
{
    let v = d.reg(index(src));
    assert(index(Gpr::Rbp) == 5);
    if n == 0 {
        d
    } else if n == 1 {
        follow_mov_store8_mem(s, t, Gpr::Rbp, off, src, c, d)
    } else if n == 2 {
        follow_mov_store16_mem(s, t, Gpr::Rbp, off, src, c, d)
    } else if n == 4 {
        follow_mov_store32_mem(s, t, Gpr::Rbp, off, src, c, d)
    } else if n == 8 {
        follow_mov_store(s, t, off, src, c, d)
    } else {
        let j: u64 = if n < 4 {
            2
        } else {
            4
        };
        let by: u8 = if n < 4 {
            16
        } else {
            32
        };
        let d1 = part_of_word_stored(env, s, t, off, src, j, c, d);
        let t1 = env.store_eightbyte(t, off, src, j);
        let t2 = t1.on(t1.text.mov_rr(Gpr::Rcx, src));
        let d2 = follow_mov_rr(s, t1, Gpr::Rcx, src, c, d1);
        let t3 = t2.on(t2.text.shr_ri(Gpr::Rcx, by));
        let d3 = follow_shr_ri(s, t2, Gpr::Rcx, by, c, d2);
        shifted_right(v);
        let e = part_of_word_stored(
            env,
            s,
            t3,
            sum32(off, j as i32),
            Gpr::Rcx,
            (n - j) as u64,
            c,
            d3,
        );
        parts_join(d.mem, d1.mem, e.mem, d.reg(5) + off, j as nat, (n - j) as nat, v as int);
        e
    }
}

// ---------------------------------------------------------------------------
//  Zeros
// ---------------------------------------------------------------------------

proof fn zeros_follow(m: Bytes, m1: Bytes, m2: Bytes, a: int, k: nat, n: int)
    requires
        m1 == patch(m, a, k, 0),
        zeroed_at(m1, m2, a + k, n),
        n >= 0,
    ensures
        zeroed_at(m, m2, a, k + n),
{
    assert forall|x: int| #[trigger]
        m2(x) == if a <= x < a + k + n {
            0
        } else {
            m(x)
        } by {
        if a <= x < a + k {
            zero_bytes_are_zero(x - a);
        }
    }
}

proof fn zero_bytes_are_zero(k: int)
    ensures
        byte_at(0, k) == 0,
    decreases k,
{
    if k > 0 {
        zero_bytes_are_zero(k - 1);
    }
}

#[verifier::spinoff_prover]
proof fn zero_from_runs(
    env: Env,
    s: LowState,
    t: LowState,
    dst: Gpr,
    off: i32,
    rem: i32,
    c: Cpu,
    d: Cpu,
) -> (e: Cpu)
    requires
        takes(s, t, c, d),
        d.wf(),
        rem >= 0,
        off >= 0,
        off + rem <= i32::MAX,
        d.reg(0) == 0,
        in_space(d.reg(index(dst)) + off, rem as nat),
    ensures
        takes(s, env.zero_from(t, dst, off, rem), c, e),
        e.regs == d.regs,
        e.state == d.state,
        e.data == d.data,
        zeroed_at(d.mem, e.mem, d.reg(index(dst)) + off, rem as int),
    decreases rem,
{
    let a = d.reg(index(dst)) + off;
    if rem >= 8 {
        let t1 = t.on(t.text.mov_store_mem(dst, off, Gpr::Rax));
        let d1 = follow_mov_store_mem(s, t, dst, off, Gpr::Rax, c, d);
        let e = zero_from_runs(env, s, t1, dst, sum32(off, 8), (rem - 8) as i32, c, d1);
        zeros_follow(d.mem, d1.mem, e.mem, a, 8, rem - 8);
        e
    } else if rem > 0 {
        let t1 = t.on(t.text.mov_store8_mem(dst, off, Gpr::Rax));
        let d1 = follow_mov_store8_mem(s, t, dst, off, Gpr::Rax, c, d);
        let e = zero_from_runs(env, s, t1, dst, sum32(off, 1), (rem - 1) as i32, c, d1);
        zeros_follow(d.mem, d1.mem, e.mem, a, 1, rem - 1);
        e
    } else {
        d
    }
}

/// Zeroing leaves `size` zero bytes where `dst` points, and changes no other.
pub proof fn zeroing_zeroes(env: Env, s: LowState, dst: Gpr, size: u64, c: Cpu) -> (d: Cpu)
    requires
        c.wf(),
        size <= i32::MAX,
        dst != Gpr::Rax,
        in_space(c.reg(index(dst)) as int, size as nat),
    ensures
        takes(s, env.zero_bytes(s, dst, size), c, d),
        kept_but(c, d, set![Gpr::Rax]),
        zeroed_at(c.mem, d.mem, c.reg(index(dst)) as int, size as int),
{
    reveal(Env::zero_bytes);
    takes_nothing(s, c);
    gpr_codes_distinct(dst, Gpr::Rax);
    let t = s.on(s.text.mov_ri(Gpr::Rax, 0));
    let c1 = follow_mov_ri(s, s, Gpr::Rax, 0, c, c);
    let d = zero_from_runs(env, s, t, dst, 0, size as i32, c, c1);
    assert forall|r: Gpr| !set![Gpr::Rax].contains(r) implies #[trigger] d.reg(index(r)) == c.reg(
        index(r),
    ) by {
        gpr_codes_distinct(r, Gpr::Rax);
    }
    d
}

// ---------------------------------------------------------------------------
//  Copies
// ---------------------------------------------------------------------------

pub(crate) proof fn fetched_is_word(m: Bytes, a: int, k: nat)
    requires
        k == 1 || k == 2 || k == 4 || k == 8,
    ensures
        wrap64(low_bytes(fetch(m, a, k), k, false)) == fetch(m, a, k),
{
    fetch_bounded(m, a, k);
    pow256_values();
    lemma_small_mod(fetch(m, a, k) as nat, pow256(k) as nat);
}

proof fn piece_copied(m: Bytes, m1: Bytes, m2: Bytes, to: int, from: int, off: int, k: nat, n: int)
    requires
        0 <= off,
        off + k <= n,
        apart(to, from, n),
        copied(m, m1, to, from, off),
        m2 == patch(m1, to + off, k, fetch(m1, from + off, k)),
    ensures
        copied(m, m2, to, from, off + k),
{
    assert forall|x: int| #[trigger]
        m2(x) == if to <= x < to + (off + k) {
            m(from + (x - to))
        } else {
            m(x)
        } by {
        if to + off <= x < to + off + k {
            bytes_of_fetched(m1, from + off, k, x - (to + off));
            assert(m1(from + (x - to)) == m(from + (x - to)));
        } else {
            assert(m2(x) == m1(x));
        }
    }
}

/// What holds after part of a copy: so many bytes are copied, and only `rdx` was needed.
pub open spec fn copying(c: Cpu, d: Cpu, to: int, from: int, off: int) -> bool {
    &&& kept_but(c, d, set![Gpr::Rdx])
    &&& copied(c.mem, d.mem, to, from, off)
}

#[verifier::spinoff_prover]
proof fn piece_runs(
    s: LowState,
    t: LowState,
    dst: Gpr,
    src: Gpr,
    off: i32,
    k: nat,
    n: int,
    c: Cpu,
    d: Cpu,
) -> (e: Cpu)
    requires
        takes(s, t, c, d),
        c.wf(),
        k == 1 || k == 2 || k == 4 || k == 8,
        0 <= off,
        off + k <= n,
        dst != Gpr::Rdx,
        src != Gpr::Rdx,
        in_space(c.reg(index(dst)) as int, n as nat),
        in_space(c.reg(index(src)) as int, n as nat),
        apart(c.reg(index(dst)) as int, c.reg(index(src)) as int, n),
        copying(c, d, c.reg(index(dst)) as int, c.reg(index(src)) as int, off as int),
    ensures
        takes(s, piece(t, dst, src, off, k), c, e),
        copying(c, e, c.reg(index(dst)) as int, c.reg(index(src)) as int, off + k),
{
    let to = c.reg(index(dst)) as int;
    let from = c.reg(index(src)) as int;
    assert(d.reg(index(dst)) == c.reg(index(dst)));
    assert(d.reg(index(src)) == c.reg(index(src)));
    gpr_codes_distinct(dst, Gpr::Rdx);
    fetched_is_word(d.mem, from + off, k);
    let (t1, d1) = if k == 8 {
        (
            t.on(t.text.mov_load_mem(Gpr::Rdx, src, off)),
            follow_mov_load_mem(s, t, Gpr::Rdx, src, off, c, d),
        )
    } else if k == 4 {
        (
            t.on(t.text.mov_load32_mem(Gpr::Rdx, src, off)),
            follow_mov_load32_mem(s, t, Gpr::Rdx, src, off, c, d),
        )
    } else if k == 2 {
        (
            t.on(t.text.movzx16_mem(Gpr::Rdx, src, off)),
            follow_movzx16_mem(s, t, Gpr::Rdx, src, off, c, d),
        )
    } else {
        (
            t.on(t.text.movzx8_mem(Gpr::Rdx, src, off)),
            follow_movzx8_mem(s, t, Gpr::Rdx, src, off, c, d),
        )
    };
    let e = if k == 8 {
        follow_mov_store_mem(s, t1, dst, off, Gpr::Rdx, c, d1)
    } else if k == 4 {
        follow_mov_store32_mem(s, t1, dst, off, Gpr::Rdx, c, d1)
    } else if k == 2 {
        follow_mov_store16_mem(s, t1, dst, off, Gpr::Rdx, c, d1)
    } else {
        follow_mov_store8_mem(s, t1, dst, off, Gpr::Rdx, c, d1)
    };
    piece_copied(c.mem, d.mem, e.mem, to, from, off as int, k, n);
    assert forall|r: Gpr| !set![Gpr::Rdx].contains(r) implies #[trigger] e.reg(index(r)) == c.reg(
        index(r),
    ) by {
        gpr_codes_distinct(r, Gpr::Rdx);
        assert(d.reg(index(r)) == c.reg(index(r)));
    }
    e
}

/// A load and a store of `k` bytes.
pub open spec fn piece(t: LowState, dst: Gpr, src: Gpr, off: i32, k: nat) -> LowState {
    if k == 8 {
        let t = t.on(t.text.mov_load_mem(Gpr::Rdx, src, off));
        t.on(t.text.mov_store_mem(dst, off, Gpr::Rdx))
    } else if k == 4 {
        let t = t.on(t.text.mov_load32_mem(Gpr::Rdx, src, off));
        t.on(t.text.mov_store32_mem(dst, off, Gpr::Rdx))
    } else if k == 2 {
        let t = t.on(t.text.movzx16_mem(Gpr::Rdx, src, off));
        t.on(t.text.mov_store16_mem(dst, off, Gpr::Rdx))
    } else {
        let t = t.on(t.text.movzx8_mem(Gpr::Rdx, src, off));
        t.on(t.text.mov_store8_mem(dst, off, Gpr::Rdx))
    }
}

proof fn words_run(
    env: Env,
    s: LowState,
    t: LowState,
    dst: Gpr,
    src: Gpr,
    off: i32,
    rem: i32,
    c: Cpu,
    d: Cpu,
) -> (e: Cpu)
    requires
        takes(s, t, c, d),
        c.wf(),
        rem >= 0,
        off >= 0,
        off + rem <= 64,
        dst != Gpr::Rdx,
        src != Gpr::Rdx,
        in_space(c.reg(index(dst)) as int, (off + rem) as nat),
        in_space(c.reg(index(src)) as int, (off + rem) as nat),
        apart(c.reg(index(dst)) as int, c.reg(index(src)) as int, off + rem),
        copying(c, d, c.reg(index(dst)) as int, c.reg(index(src)) as int, off as int),
    ensures
        takes(s, env.copy_words(t, dst, src, off, rem), c, e),
        copying(
            c,
            e,
            c.reg(index(dst)) as int,
            c.reg(index(src)) as int,
            off + rem as int / 8 * 8,
        ),
    decreases rem,
{
    if rem >= 8 {
        let t1 = piece(t, dst, src, off, 8);
        let d1 = piece_runs(s, t, dst, src, off, 8, off + rem, c, d);
        words_run(env, s, t1, dst, src, sum32(off, 8), (rem - 8) as i32, c, d1)
    } else {
        d
    }
}

#[verifier::spinoff_prover]
proof fn tail_runs(
    env: Env,
    s: LowState,
    t: LowState,
    dst: Gpr,
    src: Gpr,
    off: i32,
    rem: i32,
    c: Cpu,
    d: Cpu,
) -> (e: Cpu)
    requires
        takes(s, t, c, d),
        c.wf(),
        0 <= rem < 8,
        off >= 0,
        off + rem <= 64,
        dst != Gpr::Rdx,
        src != Gpr::Rdx,
        in_space(c.reg(index(dst)) as int, (off + rem) as nat),
        in_space(c.reg(index(src)) as int, (off + rem) as nat),
        apart(c.reg(index(dst)) as int, c.reg(index(src)) as int, off + rem),
        copying(c, d, c.reg(index(dst)) as int, c.reg(index(src)) as int, off as int),
    ensures
        takes(s, env.copy_tail(t, dst, src, off, rem), c, e),
        copying(c, e, c.reg(index(dst)) as int, c.reg(index(src)) as int, off + rem),
{
    reveal(Env::copy_tail);
    let n = off + rem;
    let (t1, d1, off1, rem1) = if rem >= 4 {
        (
            piece(t, dst, src, off, 4),
            piece_runs(s, t, dst, src, off, 4, n, c, d),
            (off + 4) as i32,
            rem - 4,
        )
    } else {
        (t, d, off, rem as int)
    };
    let (t2, d2, off2, rem2) = if rem1 >= 2 {
        (
            piece(t1, dst, src, off1, 2),
            piece_runs(s, t1, dst, src, off1, 2, n, c, d1),
            (off1 + 2) as i32,
            rem1 - 2,
        )
    } else {
        (t1, d1, off1, rem1)
    };
    if rem2 >= 1 {
        piece_runs(s, t2, dst, src, off2, 1, n, c, d2)
    } else {
        d2
    }
}

/// The registers that a copy of some size needs.
pub open spec fn copy_scratch(size: u64) -> Set<Gpr> {
    if size <= 64 {
        set![Gpr::Rdx]
    } else {
        set![Gpr::Rcx, Gpr::Rsi, Gpr::Rdi]
    }
}

proof fn block_copied(c: Cpu)
    requires
        c.wf(),
        in_space(c.reg(6) as int, c.reg(1) as nat),
        in_space(c.reg(7) as int, c.reg(1) as nat),
        apart(c.reg(7) as int, c.reg(6) as int, c.reg(1) as int),
    ensures
        act(Act::Copy, c) is Some,
        ({
            let d = act(Act::Copy, c).unwrap();
            &&& d.regs.len() == c.regs.len()
            &&& d.state == c.state
            &&& d.data == c.data
            &&& forall|r: int|
                0 <= r < c.regs.len() && r != 1 && r != 6 && r != 7 ==> #[trigger] d.reg(r)
                    == c.reg(r)
            &&& copied(c.mem, d.mem, c.reg(7) as int, c.reg(6) as int, c.reg(1) as int)
        }),
{
    assert(act(Act::Copy, c) == block_copy(c)) by {
        reveal(act);
    }
    let d = block_copy(c).unwrap();
    assert(d.mem == copy_block(c.mem, c.reg(7) as int, c.reg(6) as int, c.reg(1) as int));
}

#[verifier::spinoff_prover]
proof fn large_copy_runs(s: LowState, dst: Gpr, src: Gpr, size: u64, c: Cpu) -> (d: Cpu)
    requires
        c.wf(),
        !set![Gpr::Rcx, Gpr::Rsi, Gpr::Rdi].contains(dst),
        !set![Gpr::Rcx, Gpr::Rsi, Gpr::Rdi].contains(src),
        in_space(c.reg(index(dst)) as int, size as nat),
        in_space(c.reg(index(src)) as int, size as nat),
        apart(c.reg(index(dst)) as int, c.reg(index(src)) as int, size as int),
        size <= i64::MAX,
    ensures
        takes(s, large_copy(s, dst, src, size), c, d),
        kept_but(c, d, set![Gpr::Rcx, Gpr::Rsi, Gpr::Rdi]),
        copied(
            c.mem,
            d.mem,
            c.reg(index(dst)) as int,
            c.reg(index(src)) as int,
            size as int,
        ),
{
    takes_nothing(s, c);
    assert(src != Gpr::Rdi);
    gpr_codes_distinct(src, Gpr::Rdi);
    let t1 = s.on(s.text.mov_rr(Gpr::Rdi, dst));
    let c1 = follow_mov_rr(s, s, Gpr::Rdi, dst, c, c);
    let t2 = t1.on(t1.text.mov_rr(Gpr::Rsi, src));
    let c2 = follow_mov_rr(s, t1, Gpr::Rsi, src, c, c1);
    let t3 = t2.on(t2.text.mov_ri(Gpr::Rcx, size as i64));
    let c3 = follow_mov_ri(s, t2, Gpr::Rcx, size as i64, c, c2);
    block_copied(c3);
    let d = follow_rep_movsb(s, t3, c, c3);
    assert forall|r: Gpr|
        !set![Gpr::Rcx, Gpr::Rsi, Gpr::Rdi].contains(r) implies #[trigger] d.reg(index(r))
        == c.reg(index(r)) by {
        assert(r != Gpr::Rdi && r != Gpr::Rsi && r != Gpr::Rcx);
        gpr_codes_distinct(r, Gpr::Rdi);
        gpr_codes_distinct(r, Gpr::Rsi);
        gpr_codes_distinct(r, Gpr::Rcx);
        assert(d.reg(index(r)) == c3.reg(index(r)));
    }
    d
}

/// A copy by `rep movsb`.
pub open spec fn large_copy(s: LowState, dst: Gpr, src: Gpr, size: u64) -> LowState {
    let s = s.on(s.text.mov_rr(Gpr::Rdi, dst));
    let s = s.on(s.text.mov_rr(Gpr::Rsi, src));
    let s = s.on(s.text.mov_ri(Gpr::Rcx, size as i64));
    s.on(s.text.rep_movsb())
}

/// A copy leaves at `dst` the `size` bytes that stand at `src`, and changes no other byte
/// and no register that it does not need, where the two stretches are apart.
#[verifier::spinoff_prover]
pub proof fn copy_copies(env: Env, s: LowState, dst: Gpr, src: Gpr, size: u64, c: Cpu) -> (d: Cpu)
    requires
        c.wf(),
        !copy_scratch(size).contains(dst),
        !copy_scratch(size).contains(src),
        in_space(c.reg(index(dst)) as int, size as nat),
        in_space(c.reg(index(src)) as int, size as nat),
        apart(c.reg(index(dst)) as int, c.reg(index(src)) as int, size as int),
        size <= i64::MAX,
    ensures
        takes(s, env.memcpy(s, dst, src, size), c, d),
        kept_but(c, d, copy_scratch(size)),
        copied(
            c.mem,
            d.mem,
            c.reg(index(dst)) as int,
            c.reg(index(src)) as int,
            size as int,
        ),
{
    reveal(Env::memcpy);
    takes_nothing(s, c);
    if size == 0 {
        c
    } else if size <= 64 {
        let t = env.copy_words(s, dst, src, 0, size as i32);
        let c1 = words_run(env, s, s, dst, src, 0, size as i32, c, c);
        tail_runs(
            env,
            s,
            t,
            dst,
            src,
            (size / 8 * 8) as i32,
            (size % 8) as i32,
            c,
            c1,
        )
    } else {
        large_copy_runs(s, dst, src, size, c)
    }
}

// ---------------------------------------------------------------------------
//  Saved registers
// ---------------------------------------------------------------------------

/// Whether the slots of the saved registers are in the address space, apart from each
/// other, and those of different registers, none of them `rbp`.
pub open spec fn slots_apart(env: Env, bp: u64) -> bool {
    let slots = env.plan.callee_saved_slots;
    &&& slots.len() <= usize::MAX
    &&& forall|i: int|
        0 <= i < slots.len() ==> in_space(bp + (#[trigger] slots[i]).1, 8) && slots[i].0 != Gpr::Rbp
    &&& forall|i: int, j: int|
        0 <= i < j < slots.len() ==> apart(
            (#[trigger] slots[i]).1 as int,
            (#[trigger] slots[j]).1 as int,
            8,
        ) && slots[i].0 != slots[j].0
}

/// Whether the slots from the `from`-th up to the `n`-th hold the registers of `c`.
pub open spec fn saved_up_to(env: Env, m: Bytes, c: Cpu, from: int, n: int) -> bool {
    let slots = env.plan.callee_saved_slots;
    forall|i: int|
        from <= i < n ==> fetch(m, c.reg(5) + (#[trigger] slots[i]).1, 8) == c.reg(
            index(slots[i].0),
        )
}

/// Whether every slot of a saved register ends below the frame pointer.
pub open spec fn slots_below(env: Env) -> bool {
    forall|i: int|
        0 <= i < env.plan.callee_saved_slots.len() ==> (
        #[trigger] env.plan.callee_saved_slots[i]).1 <= -8
}

/// Whether memory from the frame pointer on is the same.
pub open spec fn same_above(m: Bytes, k: Bytes, bp: u64) -> bool {
    forall|x: int| x >= bp ==> #[trigger] k(x) == m(x)
}

proof fn saves_run(env: Env, s: LowState, t: LowState, i: int, c: Cpu, d: Cpu, b: Cpu) -> (e: Cpu)
    requires
        takes(s, t, c, d),
        b.wf(),
        d.regs == b.regs,
        d.state == b.state,
        d.data == b.data,
        0 <= i <= env.plan.callee_saved_slots.len(),
        slots_apart(env, b.reg(5)),
        saved_up_to(env, d.mem, b, 0, i),
    ensures
        takes(s, env.save_all_from(t, i), c, e),
        e.regs == b.regs,
        slots_below(env) ==> same_above(d.mem, e.mem, b.reg(5)),
        e.state == b.state,
        e.data == b.data,
        saved_up_to(env, e.mem, b, 0, env.plan.callee_saved_slots.len() as int),
    decreases env.plan.callee_saved_slots.len() - i,
{
    let slots = env.plan.callee_saved_slots;
    if i < slots.len() {
        reveal(Env::save);
        let slot = slots[i];
        let t1 = t.on(t.text.mov_store(slot.1, slot.0));
        assert(env.save(t, i as usize) == t1);
        let d1 = follow_mov_store(s, t, slot.1, slot.0, c, d);
        let v = b.reg(index(slot.0)) as int;
        assert(saved_up_to(env, d1.mem, b, 0, i + 1)) by {
            assert forall|j: int| 0 <= j < i + 1 implies fetch(
                d1.mem,
                b.reg(5) + (#[trigger] slots[j]).1,
                8,
            ) == b.reg(index(slots[j].0)) by {
                if j < i {
                    elsewhere_stays(d.mem, b.reg(5) + slot.1, 8, v, b.reg(5) + slots[j].1, 8);
                } else {
                    written_is_read(d.mem, b.reg(5) + slot.1, 8, v);
                    pow256_values();
                }
            }
        }
        let e = saves_run(env, s, t1, i + 1, c, d1, b);
        if slots_below(env) {
            assert(slots[i].1 <= -8);
            assert(same_above(d.mem, d1.mem, b.reg(5)));
            assert forall|x: int| x >= b.reg(5) implies #[trigger] (e.mem)(x) == (d.mem)(x) by {
                assert((d1.mem)(x) == (d.mem)(x));
            }
        }
        e
    } else {
        d
    }
}

/// Saving stores every register that is to be saved, and changes none.
pub proof fn saving_saves(env: Env, s: LowState, c: Cpu) -> (d: Cpu)
    requires
        c.wf(),
        slots_apart(env, c.reg(5)),
    ensures
        takes(s, env.save_all(s), c, d),
        d.regs == c.regs,
        slots_below(env) ==> same_above(c.mem, d.mem, c.reg(5)),
        saved_up_to(env, d.mem, c, 0, env.plan.callee_saved_slots.len() as int),
{
    takes_nothing(s, c);
    saves_run(env, s, s, 0, c, c, c)
}

/// Whether a register is not among those that are saved.
pub open spec fn not_saved(env: Env, r: Gpr) -> bool {
    forall|j: int|
        0 <= j < env.plan.callee_saved_slots.len() ==> (
        #[trigger] env.plan.callee_saved_slots[j]).0 != r
}

proof fn restores_run(
    env: Env,
    s: LowState,
    t: LowState,
    i: int,
    c: Cpu,
    d: Cpu,
    b: Cpu,
) -> (e: Cpu)
    requires
        takes(s, t, c, d),
        b.wf(),
        d.wf(),
        d.reg(5) == b.reg(5),
        0 <= i <= env.plan.callee_saved_slots.len(),
        slots_apart(env, b.reg(5)),
        saved_up_to(env, d.mem, b, 0, env.plan.callee_saved_slots.len() as int),
        forall|j: int|
            0 <= j < i ==> d.reg(index((#[trigger] env.plan.callee_saved_slots[j]).0)) == b.reg(
                index(env.plan.callee_saved_slots[j].0),
            ),
    ensures
        takes(s, env.restore_saved_from(t, i), c, e),
        e.wf(),
        forall|r: Gpr| #[trigger] not_saved(env, r) ==> e.reg(index(r)) == d.reg(index(r)),
        e.mem == d.mem,
        e.floats == d.floats,
        e.reg(5) == b.reg(5),
        forall|j: int|
            0 <= j < env.plan.callee_saved_slots.len() ==> e.reg(
                index((#[trigger] env.plan.callee_saved_slots[j]).0),
            ) == b.reg(index(env.plan.callee_saved_slots[j].0)),
    decreases env.plan.callee_saved_slots.len() - i,
{
    let slots = env.plan.callee_saved_slots;
    if i < slots.len() {
        reveal(Env::restore);
        let slot = slots[i];
        let t1 = t.on(t.text.mov_load(slot.0, slot.1));
        assert(env.restore(t, i as usize) == t1);
        let d1 = follow_mov_load(s, t, slot.0, slot.1, c, d);
        gpr_codes_distinct(slot.0, Gpr::Rbp);
        fetched_is_word(d.mem, b.reg(5) + slot.1, 8);
        assert forall|j: int| 0 <= j < i + 1 implies d1.reg(index((#[trigger] slots[j]).0))
            == b.reg(index(slots[j].0)) by {
            if j < i {
                gpr_codes_distinct(slots[j].0, slot.0);
            }
        }
        let e = restores_run(env, s, t1, i + 1, c, d1, b);
        assert forall|r: Gpr| #[trigger] not_saved(env, r) implies e.reg(index(r)) == d.reg(
            index(r),
        ) by {
            assert(slots[i].0 != r);
            gpr_codes_distinct(slot.0, r);
        }
        e
    } else {
        d
    }
}

/// Restoring gives back every saved register, whatever ran in between, as long as it left
/// the frame pointer and the slots alone.
pub proof fn saved_registers_come_back(env: Env, s: LowState, c: Cpu, before: Cpu) -> (d: Cpu)
    requires
        c.wf(),
        before.wf(),
        c.reg(5) == before.reg(5),
        slots_apart(env, before.reg(5)),
        saved_up_to(env, c.mem, before, 0, env.plan.callee_saved_slots.len() as int),
    ensures
        takes(s, env.restore_saved(s), c, d),
        d.wf(),
        forall|r: Gpr| #[trigger] not_saved(env, r) ==> d.reg(index(r)) == c.reg(index(r)),
        d.mem == c.mem,
        d.floats == c.floats,
        d.reg(5) == c.reg(5),
        forall|j: int|
            0 <= j < env.plan.callee_saved_slots.len() ==> d.reg(
                index((#[trigger] env.plan.callee_saved_slots[j]).0),
            ) == before.reg(index(env.plan.callee_saved_slots[j].0)),
{
    takes_nothing(s, c);
    restores_run(env, s, s, 0, c, c, before)
}

} // verus!
