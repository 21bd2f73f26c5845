//! Arguments arrive: what a caller passes is what stands where a parameter lives.
use vstd::prelude::*;

use crate::lower::abi::{ArgCursor, Passed, class_of};
use crate::lower::effects::{takes, takes_nothing};
use crate::lower::env::{ArgClass, Env, LowState};
use crate::lower::float_effects::{float_bits, float_is_loaded};
use crate::lower::follow::{
    follow_add_ri, follow_mov_load, follow_mov_load_mem, follow_mov_rr, follow_mov_store,
    follow_mov_store8_mem, follow_mov_store_mem, follow_movsd_store, follow_movzx8_mem,
};
use crate::lower::agg_effects::copying_goes_on;
use crate::lower::calls::{int_reg_at, sse_reg_at};
use crate::lower::mem_effects::{
    apart, copied, copy_copies, copy_scratch, fetched_is_word, kept_but,
};
use crate::lower::operand_effects::{addressable, scalar_loads, scalar_word};
use crate::lower::place_effects::{address_is_right, address_of, general_address, no_index_in};
use crate::lower::scalar::sum32;
use crate::lower::simulation::takes_compose;
use crate::lower::wide_effects::{same_outside, scratch};
use crate::machine::{
    Bytes, Cpu, bytes_of_fetched, fetch, fetch_bounded, fetch_same, in_space, patch, pow256_values,
    written_is_read,
};
use crate::mir::{LocalId, Operand};
use crate::mir_ids::FnId;
use crate::reg::{ARG_REG_COUNT, Gpr, SSE_ARG_REG_COUNT, gpr_codes_distinct};
use crate::steps::{float_index, index};

verus! {

// ---------------------------------------------------------------------------
//  Passing
// ---------------------------------------------------------------------------

proof fn word_fetched(m: Bytes, a: int)
    ensures
        crate::bytes::wrap64(crate::machine::low_bytes(fetch(m, a, 8), 8, false)) == fetch(m, a, 8),
        0 <= fetch(m, a, 8) <= u64::MAX,
{
    fetched_is_word(m, a, 8);
    fetch_bounded(m, a, 8);
    pow256_values();
}

/// Whether no index of an argument lives in a register.
pub open spec fn no_index_of(env: Env, arg: Operand, r: Gpr) -> bool {
    arg matches Operand::Copy(p) ==> no_index_in(env, p, r)
}

/// An argument of one word that goes in a register is in that register, and no other register
/// that arguments go in has changed.
#[verifier::spinoff_prover]
pub proof fn word_is_passed(
    env: Env,
    s: LowState,
    func: FnId,
    arg: Operand,
    i: usize,
    k: ArgCursor,
    c: Cpu,
) -> (d: Cpu)
    requires
        c.wf(),
        s.err is None,
        !env.as_c_string(func, arg, i),
        env.arg_spot(func, arg, i, k) is Int,
        addressable(env, arg),
        no_index_of(env, arg, int_reg_at(k.ints)),
        scalar_word(env, c, arg) is Some,
    ensures
        takes(s, env.pass_in_regs(s, func, arg, i, k), c, d),
        env.pass_in_regs(s, func, arg, i, k).err is None,
        Some(d.reg(index(int_reg_at(k.ints)))) == scalar_word(env, c, arg),
        kept_but(c, d, set![int_reg_at(k.ints), Gpr::R10, Gpr::R11]),
        d.mem == c.mem,
{
    reveal(Env::pass_in_regs);
    scalar_loads(env, s, arg, int_reg_at(k.ints), c)
}

/// An aggregate of up to two words that goes in registers is in them, its first eight bytes in
/// the first.
#[verifier::spinoff_prover]
#[verifier::rlimit(40)]
pub proof fn pair_is_passed(
    env: Env,
    s: LowState,
    func: FnId,
    arg: Operand,
    i: usize,
    k: ArgCursor,
    size: u64,
    c: Cpu,
) -> (d: Cpu)
    requires
        c.wf(),
        s.err is None,
        k.ints + 1 < ARG_REG_COUNT,
        env.arg_spot(func, arg, i, k) == Passed::MemInt(k.ints, size),
        size > 8,
        arg is Copy,
        addressable(env, arg),
        address_of(env, c, arg->Copy_0, arg->Copy_0.proj@.len() as usize) matches Some(a)
            && in_space(a as int, 16),
    ensures
        takes(s, env.pass_in_regs(s, func, arg, i, k), c, d),
        env.pass_in_regs(s, func, arg, i, k).err is None,
        ({
            let a = address_of(
                env,
                c,
                arg->Copy_0,
                arg->Copy_0.proj@.len() as usize,
            ).unwrap() as int;
            &&& d.reg(index(int_reg_at(k.ints))) == fetch(c.mem, a, 8)
            &&& d.reg(index(int_reg_at((k.ints + 1) as usize))) == fetch(c.mem, a + 8, 8)
        }),
        kept_but(
            c,
            d,
            set![int_reg_at(k.ints), int_reg_at((k.ints + 1) as usize), Gpr::R10, Gpr::R11],
        ),
        d.mem == c.mem,
{
    assert(index(Gpr::R11) == 11 && index(Gpr::R10) == 10);
    let p = arg->Copy_0;
    let n = p.proj@.len() as usize;
    let r0 = int_reg_at(k.ints);
    let r1 = int_reg_at((k.ints + 1) as usize);
    gpr_codes_distinct(r0, Gpr::R11);
    gpr_codes_distinct(r1, Gpr::R11);
    gpr_codes_distinct(r0, r1);
    general_address(env, s, p, n, Gpr::R11, c);
    let t1 = env.place_addr(s, p, n, Gpr::R11);
    let c1 = address_is_right(env, s, p, n, Gpr::R11, c);
    let a = c1.reg(11) as int;
    word_fetched(c.mem, a);
    word_fetched(c.mem, a + 8);
    let t2 = t1.on(t1.text.mov_load_mem(r0, Gpr::R11, 0));
    let c2 = follow_mov_load_mem(s, t1, r0, Gpr::R11, 0, c, c1);
    assert(c2.reg(11) == a);
    let t3 = t2.on(t2.text.mov_load_mem(r1, Gpr::R11, 8));
    let d = follow_mov_load_mem(s, t2, r1, Gpr::R11, 8, c, c2);
    assert(env.pass_in_regs(s, func, arg, i, k) == t3) by {
        reveal(Env::pass_in_regs);
    }
    assert forall|q: Gpr| !set![r0, r1, Gpr::R10, Gpr::R11].contains(q) implies #[trigger] d.reg(
        index(q),
    ) == c.reg(index(q)) by {
        assert(q != r0 && q != r1 && q != Gpr::R10 && q != Gpr::R11);
        gpr_codes_distinct(q, r0);
        gpr_codes_distinct(q, r1);
        gpr_codes_distinct(q, Gpr::R10);
        gpr_codes_distinct(q, Gpr::R11);
        assert(c1.reg(index(q)) == c.reg(index(q)));
        assert(c2.reg(index(q)) == c1.reg(index(q)));
    }
    d
}

/// A float that goes in a register is in that register, and no other has changed.
#[verifier::spinoff_prover]
pub proof fn float_is_passed(
    env: Env,
    s: LowState,
    func: FnId,
    arg: Operand,
    i: usize,
    k: ArgCursor,
    c: Cpu,
) -> (d: Cpu)
    requires
        c.wf(),
        s.err is None,
        env.arg_spot(func, arg, i, k) is Sse,
        addressable(env, arg),
        float_bits(env, c, arg) is Some,
    ensures
        takes(s, env.pass_in_regs(s, func, arg, i, k), c, d),
        env.pass_in_regs(s, func, arg, i, k).err is None,
        d.floats == c.floats.update(
            float_index(sse_reg_at(k.sses)),
            float_bits(env, c, arg).unwrap(),
        ),
        kept_but(c, d, scratch()),
        d.mem == c.mem,
{
    reveal(Env::pass_in_regs);
    float_is_loaded(env, s, arg, sse_reg_at(k.sses), c)
}

/// An argument of one word that goes on the stack is at its place there, and no other byte has
/// changed.
#[verifier::spinoff_prover]
pub proof fn word_is_passed_on_stack(
    env: Env,
    s: LowState,
    func: FnId,
    arg: Operand,
    i: usize,
    k: ArgCursor,
    c: Cpu,
) -> (d: Cpu)
    requires
        c.wf(),
        s.err is None,
        !env.as_c_string(func, arg, i),
        !env.is_float(env.type_or_ret(arg)),
        env.arg_spot(func, arg, i, k) == Passed::Stack(k.stack),
        addressable(env, arg),
        scalar_word(env, c, arg) is Some,
        in_space(c.reg(4) + k.stack, 8),
    ensures
        takes(s, env.pass_on_stack(s, func, arg, i, k), c, d),
        env.pass_on_stack(s, func, arg, i, k).err is None,
        fetch(d.mem, c.reg(4) + k.stack, 8) == scalar_word(env, c, arg).unwrap(),
        same_outside(c.mem, d.mem, c.reg(4) + k.stack, 8),
        kept_but(c, d, scratch()),
{
    assert(index(Gpr::Rax) == 0 && index(Gpr::Rsp) == 4);
    let t1 = env.operand_to(s, arg, Gpr::Rax);
    let c1 = scalar_loads(env, s, arg, Gpr::Rax, c);
    assert(c1.reg(index(Gpr::Rsp)) == c.reg(index(Gpr::Rsp)));
    let t2 = t1.on(t1.text.mov_store_mem(Gpr::Rsp, k.stack, Gpr::Rax));
    let d = follow_mov_store_mem(s, t1, Gpr::Rsp, k.stack, Gpr::Rax, c, c1);
    assert(env.pass_on_stack(s, func, arg, i, k) == t2) by {
        reveal(Env::pass_on_stack);
    }
    pow256_values();
    written_is_read(c.mem, c.reg(4) + k.stack, 8, c1.reg(0) as int);
    assert forall|q: Gpr| !scratch().contains(q) implies #[trigger] d.reg(index(q)) == c.reg(
        index(q),
    ) by {
        assert(!set![Gpr::Rax, Gpr::R10, Gpr::R11].contains(q));
        assert(c1.reg(index(q)) == c.reg(index(q)));
    }
    d
}

/// An aggregate that goes on the stack is copied there whole, and no other byte has changed.
#[verifier::spinoff_prover]
#[verifier::rlimit(40)]
pub proof fn block_is_passed_on_stack(
    env: Env,
    s: LowState,
    func: FnId,
    arg: Operand,
    i: usize,
    k: ArgCursor,
    size: u64,
    c: Cpu,
) -> (d: Cpu)
    requires
        c.wf(),
        s.err is None,
        env.arg_spot(func, arg, i, k) == Passed::MemStack(k.stack, size),
        size <= i64::MAX,
        arg is Copy,
        addressable(env, arg),
        address_of(env, c, arg->Copy_0, arg->Copy_0.proj@.len() as usize) matches Some(a)
            && in_space(a as int, size as nat) && apart(
            c.reg(4) + k.stack,
            a as int,
            size as int,
        ),
        0 <= c.reg(4) + k.stack < crate::machine::SPAN,
        in_space(c.reg(4) + k.stack, size as nat),
    ensures
        takes(s, env.pass_on_stack(s, func, arg, i, k), c, d),
        env.pass_on_stack(s, func, arg, i, k).err is None,
        copied(
            c.mem,
            d.mem,
            c.reg(4) + k.stack,
            address_of(
                env,
                c,
                arg->Copy_0,
                arg->Copy_0.proj@.len() as usize,
            ).unwrap() as int,
            size as int,
        ),
        kept_but(c, d, scratch()),
{
    assert(index(Gpr::Rax) == 0 && index(Gpr::Rsp) == 4 && index(Gpr::R11) == 11 && index(Gpr::R10)
        == 10);
    let p = arg->Copy_0;
    let n = p.proj@.len() as usize;
    general_address(env, s, p, n, Gpr::Rax, c);
    let t1 = env.place_addr(s, p, n, Gpr::Rax);
    let c1 = address_is_right(env, s, p, n, Gpr::Rax, c);
    let t2 = t1.on(t1.text.mov_rr(Gpr::R11, Gpr::Rsp));
    let c2 = follow_mov_rr(s, t1, Gpr::R11, Gpr::Rsp, c, c1);
    let t3 = t2.on(t2.text.add_ri(Gpr::R11, k.stack));
    let c3 = follow_add_ri(s, t2, Gpr::R11, k.stack, c, c2);
    assert(c3.reg(11) == c.reg(4) + k.stack && c3.reg(0) == c1.reg(0) && c3.mem == c.mem);
    let t4 = env.memcpy(t3, Gpr::R11, Gpr::Rax, size);
    let d = copy_copies(env, t3, Gpr::R11, Gpr::Rax, size, c3);
    takes_compose(s, t3, t4, c, c3, d);
    copying_goes_on(env, t3, Gpr::R11, Gpr::Rax, size);
    assert(env.pass_on_stack(s, func, arg, i, k) == t4) by {
        reveal(Env::pass_on_stack);
    }
    assert forall|q: Gpr| !scratch().contains(q) implies #[trigger] d.reg(index(q)) == c.reg(
        index(q),
    ) by {
        gpr_codes_distinct(q, Gpr::Rax);
        gpr_codes_distinct(q, Gpr::R10);
        gpr_codes_distinct(q, Gpr::R11);
        assert(!copy_scratch(size).contains(q));
        assert(d.reg(index(q)) == c3.reg(index(q)));
        assert(c1.reg(index(q)) == c.reg(index(q)));
        assert(c2.reg(index(q)) == c1.reg(index(q)));
        assert(c3.reg(index(q)) == c2.reg(index(q)));
    }
    d
}

// ---------------------------------------------------------------------------
//  Parameters
// ---------------------------------------------------------------------------

/// Whether a word of a parameter can be stored where it lives.
pub open spec fn lives(env: Env, c: Cpu, param: LocalId, at: i32) -> bool {
    let stays = !env.in_memory(env.local_ty(param)) && env.reg_of(param) is Some;
    &&& stays || (env.home(param) matches Some(h) && h + at <= i32::MAX && in_space(
        c.reg(5) + h + at,
        8,
    ))
    &&& at == 0 || at == 8 && env.in_memory(env.local_ty(param))
}

/// Whether a word of a parameter stands where it lives, and nothing else changed.
pub open spec fn stands_in_param(
    env: Env,
    c: Cpu,
    d: Cpu,
    param: LocalId,
    at: i32,
    v: u64,
) -> bool {
    if !env.in_memory(env.local_ty(param)) && env.reg_of(param) is Some {
        let r = env.reg_of(param).unwrap();
        &&& d.reg(index(r)) == v
        &&& kept_but(c, d, set![r])
        &&& d.mem == c.mem
    } else {
        let at = c.reg(5) + env.home(param).unwrap() + at;
        &&& fetch(d.mem, at, 8) == v
        &&& d.regs == c.regs
        &&& kept_but(c, d, Set::empty())
        &&& same_outside(c.mem, d.mem, at, 8)
    }
}

#[verifier::spinoff_prover]
proof fn word_is_kept(
    env: Env,
    s: LowState,
    t: LowState,
    param: LocalId,
    at: i32,
    src: Gpr,
    c: Cpu,
    d: Cpu,
) -> (e: Cpu)
    requires
        takes(s, t, c, d),
        d.wf(),
        lives(env, d, param, at),
    ensures
        takes(s, env.store_param_word(t, param, at, src, env.local_ty(param)), c, e),
        env.store_param_word(t, param, at, src, env.local_ty(param)).err == t.err,
        stands_in_param(env, d, e, param, at, d.reg(index(src))),
        src == Gpr::Rax ==> takes(
            s,
            env.store_param_word_from_rax(t, param, at, env.local_ty(param)),
            c,
            e,
        ) || env.reg_of(param) == Some(Gpr::Rax),
        env.store_param_word_from_rax(t, param, at, env.local_ty(param)).err == t.err,
{
    reveal(Env::store_param_word);
    reveal(Env::store_param_word_from_rax);
    assert(index(Gpr::Rbp) == 5);
    let ty = env.local_ty(param);
    pow256_values();
    if env.in_memory(ty) || env.reg_of(param) is None {
        let h = env.home(param).unwrap();
        written_is_read(d.mem, d.reg(5) + h + at, 8, d.reg(index(src)) as int);
        if env.in_memory(ty) {
            follow_mov_store_mem(s, t, Gpr::Rbp, sum32(h, at), src, c, d)
        } else {
            follow_mov_store(s, t, h, src, c, d)
        }
    } else {
        let r = env.reg_of(param).unwrap();
        if r != src {
            let e = follow_mov_rr(s, t, r, src, c, d);
            assert forall|q: Gpr| !set![r].contains(q) implies #[trigger] e.reg(index(q)) == d.reg(
                index(q),
            ) by {
                assert(q != r);
                gpr_codes_distinct(q, r);
            }
            e
        } else {
            d
        }
    }
}

/// A parameter of one word that comes in a register stands where it lives.
#[verifier::spinoff_prover]
pub proof fn word_parameter_is_kept(
    env: Env,
    s: LowState,
    param: LocalId,
    k: ArgCursor,
    c: Cpu,
) -> (d:
    Cpu)
    requires
        c.wf(),
        class_of(env.prog, env.local_ty(param)) is OneInt,
        k.ints < ARG_REG_COUNT,
        lives(env, c, param, 0),
    ensures
        takes(s, env.lower_param(s, param, k), c, d),
        env.lower_param(s, param, k).err == s.err,
        stands_in_param(env, c, d, param, 0, c.reg(index(int_reg_at(k.ints)))),
{
    reveal(Env::lower_param);
    takes_nothing(s, c);
    word_is_kept(env, s, s, param, 0, int_reg_at(k.ints), c, c)
}

/// A parameter of one word that comes on the stack stands where it lives.
#[verifier::spinoff_prover]
pub proof fn stacked_parameter_is_kept(
    env: Env,
    s: LowState,
    param: LocalId,
    k: ArgCursor,
    c: Cpu,
) -> (d: Cpu)
    requires
        c.wf(),
        class_of(env.prog, env.local_ty(param)) is OneInt,
        k.ints >= ARG_REG_COUNT,
        lives(env, c, param, 0),
        env.reg_of(param) != Some(Gpr::Rax),
        in_space(c.reg(5) + k.stack, 8),
    ensures
        takes(s, env.lower_param(s, param, k), c, d),
        env.lower_param(s, param, k).err == s.err,
        ({
            let v = fetch(c.mem, c.reg(5) + k.stack, 8) as u64;
            &&& stands_in_param(env, c.put(0, v as int), d, param, 0, v)
        }),
{
    reveal(Env::lower_param);
    takes_nothing(s, c);
    assert(index(Gpr::Rax) == 0);
    let t1 = s.on(s.text.mov_load(Gpr::Rax, k.stack));
    let c1 = follow_mov_load(s, s, Gpr::Rax, k.stack, c, c);
    word_fetched(c.mem, c.reg(5) + k.stack);
    word_is_kept(env, s, t1, param, 0, Gpr::Rax, c, c1)
}

/// A parameter of two words that comes in registers stands in its home, the first word first.
#[verifier::spinoff_prover]
#[verifier::rlimit(40)]
pub proof fn pair_parameter_is_kept(
    env: Env,
    s: LowState,
    param: LocalId,
    k: ArgCursor,
    c: Cpu,
) -> (d:
    Cpu)
    requires
        c.wf(),
        class_of(env.prog, env.local_ty(param)) is TwoInt,
        k.ints + 1 < ARG_REG_COUNT,
        env.in_memory(env.local_ty(param)),
        lives(env, c, param, 0),
        lives(env, c, param, 8),
    ensures
        takes(s, env.lower_param(s, param, k), c, d),
        env.lower_param(s, param, k).err == s.err,
        ({
            let at = c.reg(5) + env.home(param).unwrap();
            &&& fetch(d.mem, at, 8) == c.reg(index(int_reg_at(k.ints)))
            &&& fetch(d.mem, at + 8, 8) == c.reg(index(int_reg_at((k.ints + 1) as usize)))
            &&& same_outside(c.mem, d.mem, at, 16)
        }),
        d.regs == c.regs,
{
    takes_nothing(s, c);
    let ty = env.local_ty(param);
    let r0 = int_reg_at(k.ints);
    let r1 = int_reg_at((k.ints + 1) as usize);
    let at = c.reg(5) + env.home(param).unwrap();
    let t1 = env.store_param_word(s, param, 0, r0, ty);
    let c1 = word_is_kept(env, s, s, param, 0, r0, c, c);
    let d = word_is_kept(env, s, t1, param, 8, r1, c, c1);
    assert(env.lower_param(s, param, k) == env.store_param_word(t1, param, 8, r1, ty)) by {
        reveal(Env::lower_param);
    }
    let m1 = c1.mem;
    let m2 = d.mem;
    assert forall|i: int| 0 <= i < 8 implies #[trigger] m2(at + i) == m1(at + i) by {}
    fetch_same(m2, at, m1, at, 8);
    let m = c.mem;
    assert forall|x: int| !(at <= x < at + 16) implies #[trigger] m2(x) == m(x) by {
        assert(m1(x) == m(x));
    }
    d
}

/// A float parameter that comes in a register stands in its home.
#[verifier::spinoff_prover]
pub proof fn float_parameter_is_kept(
    env: Env,
    s: LowState,
    param: LocalId,
    k: ArgCursor,
    c: Cpu,
) -> (d:
    Cpu)
    requires
        c.wf(),
        class_of(env.prog, env.local_ty(param)) is Sse,
        k.sses < SSE_ARG_REG_COUNT,
        env.home(param) matches Some(h) && in_space(c.reg(5) + h, 8),
    ensures
        takes(s, env.lower_param(s, param, k), c, d),
        env.lower_param(s, param, k).err == s.err,
        ({
            let at = c.reg(5) + env.home(param).unwrap();
            &&& fetch(d.mem, at, 8) == c.floats[float_index(sse_reg_at(k.sses))]
            &&& same_outside(c.mem, d.mem, at, 8)
        }),
        d.regs == c.regs,
{
    reveal(Env::lower_param);
    assert(index(Gpr::Rbp) == 5);
    takes_nothing(s, c);
    let h = env.home(param).unwrap();
    let x = sse_reg_at(k.sses);
    pow256_values();
    written_is_read(c.mem, c.reg(5) + h, 8, c.floats[float_index(x)] as int);
    follow_movsd_store(s, s, Gpr::Rbp, h, x, c, c)
}

proof fn next_piece(m: Bytes, m1: Bytes, to: int, from: int, off: int, n: nat, all: int)
    requires
        0 <= off,
        off + n <= all,
        copied(m, m1, to, from, off),
        apart(to, from, all),
    ensures
        fetch(m1, from + off, n) == fetch(m, from + off, n),
        copied(m, patch(m1, to + off, n, fetch(m, from + off, n)), to, from, off + n),
{
    assert forall|i: int| 0 <= i < n implies #[trigger] m1(
        from + off + i,
    ) == m(from + off + i) by {}
    fetch_same(m1, from + off, m, from + off, n);
    let v = fetch(m, from + off, n);
    let z = patch(m1, to + off, n, v);
    assert forall|x: int| #[trigger]
        z(x) == if to <= x < to + off + n {
            m(from + (x - to))
        } else {
            m(x)
        } by {
        if to + off <= x < to + off + n {
            bytes_of_fetched(m, from + off, n, x - (to + off));
        }
    }
}

#[verifier::spinoff_prover]
#[verifier::rlimit(40)]
proof fn stack_copy_runs(
    env: Env,
    s: LowState,
    t: LowState,
    src: i32,
    dst: i32,
    off: i32,
    rem: i32,
    m: Bytes,
    c: Cpu,
    d: Cpu,
) -> (e: Cpu)
    requires
        takes(s, t, c, d),
        d.wf(),
        0 <= off,
        0 <= rem,
        off + rem <= i32::MAX,
        src + off + rem <= i32::MAX,
        dst + off + rem <= i32::MAX,
        in_space(d.reg(5) + src, (off + rem) as nat),
        in_space(d.reg(5) + dst, (off + rem) as nat),
        apart(d.reg(5) + dst, d.reg(5) + src, off + rem),
        copied(m, d.mem, d.reg(5) + dst, d.reg(5) + src, off as int),
    ensures
        takes(s, env.stack_copy_from(t, src, dst, off, rem), c, e),
        env.stack_copy_from(t, src, dst, off, rem).err == t.err,
        kept_but(d, e, set![Gpr::Rax]),
        copied(m, e.mem, d.reg(5) + dst, d.reg(5) + src, off + rem),
    decreases rem,
{
    assert(index(Gpr::Rax) == 0 && index(Gpr::Rbp) == 5);
    if rem <= 0 {
        d
    } else {
        let n: nat = if rem >= 8 {
            8
        } else {
            1
        };
        let to = d.reg(5) + dst;
        let from = d.reg(5) + src;
        next_piece(m, d.mem, to, from, off as int, n, off + rem);
        fetched_is_word(d.mem, from + off, n);
        let v = fetch(m, from + off, n);
        let (t2, d2): (LowState, Cpu) = if rem >= 8 {
            let t1 = t.on(t.text.mov_load(Gpr::Rax, sum32(src, off)));
            let d1 = follow_mov_load(s, t, Gpr::Rax, sum32(src, off), c, d);
            (
                t1.on(t1.text.mov_store(sum32(dst, off), Gpr::Rax)),
                follow_mov_store(s, t1, sum32(dst, off), Gpr::Rax, c, d1),
            )
        } else {
            let t1 = t.on(t.text.movzx8_mem(Gpr::Rax, Gpr::Rbp, sum32(src, off)));
            let d1 = follow_movzx8_mem(s, t, Gpr::Rax, Gpr::Rbp, sum32(src, off), c, d);
            (
                t1.on(t1.text.mov_store8_mem(Gpr::Rbp, sum32(dst, off), Gpr::Rax)),
                follow_mov_store8_mem(s, t1, Gpr::Rbp, sum32(dst, off), Gpr::Rax, c, d1),
            )
        };
        assert(d2.mem == patch(d.mem, to + off, n, v));
        assert(d2.reg(5) == d.reg(5));
        let e = stack_copy_runs(
            env,
            s,
            t2,
            src,
            dst,
            (off + n) as i32,
            (rem - n) as i32,
            m,
            c,
            d2,
        );
        assert forall|q: Gpr| !set![Gpr::Rax].contains(q) implies #[trigger] e.reg(index(q)) == d.reg(
            index(q),
        ) by {
            assert(q != Gpr::Rax);
            gpr_codes_distinct(q, Gpr::Rax);
            assert(e.reg(index(q)) == d2.reg(index(q)));
        }
        e
    }
}

/// A parameter that comes whole on the stack is copied to its home.
#[verifier::spinoff_prover]
pub proof fn block_parameter_is_kept(
    env: Env,
    s: LowState,
    param: LocalId,
    k: ArgCursor,
    size: u64,
    c: Cpu,
) -> (d: Cpu)
    requires
        c.wf(),
        class_of(env.prog, env.local_ty(param)) == (ArgClass::Memory { size }),
        size <= i32::MAX,
        env.home(param) matches Some(h) && h + size <= i32::MAX && in_space(
            c.reg(5) + h,
            size as nat,
        ) && apart(c.reg(5) + h, c.reg(5) + k.stack, size as int),
        k.stack + size <= i32::MAX,
        in_space(c.reg(5) + k.stack, size as nat),
    ensures
        takes(s, env.lower_param(s, param, k), c, d),
        env.lower_param(s, param, k).err == s.err,
        copied(
            c.mem,
            d.mem,
            c.reg(5) + env.home(param).unwrap(),
            c.reg(5) + k.stack,
            size as int,
        ),
        kept_but(c, d, set![Gpr::Rax]),
{
    reveal(Env::lower_param);
    reveal(Env::copy_stack_to_home);
    takes_nothing(s, c);
    stack_copy_runs(
        env,
        s,
        s,
        k.stack,
        env.home(param).unwrap(),
        0,
        size as i32,
        c.mem,
        c,
        c,
    )
}

// ---------------------------------------------------------------------------
//  From argument to parameter
// ---------------------------------------------------------------------------

/// An argument of one word arrives: whatever happens between the code that passes it and the
/// code that takes it, as long as its register is left alone, the parameter holds the word of
/// the argument. The two agree on the register where the cursors of the call and of the
/// function agree.
pub proof fn word_argument_arrives(
    env: Env,
    s: LowState,
    func: FnId,
    arg: Operand,
    i: usize,
    k: ArgCursor,
    c: Cpu,
    callee: Env,
    t: LowState,
    param: LocalId,
    kp: ArgCursor,
    d: Cpu,
) -> (r: (Cpu, Cpu))
    requires
        c.wf(),
        s.err is None,
        !env.as_c_string(func, arg, i),
        env.arg_spot(func, arg, i, k) is Int,
        addressable(env, arg),
        no_index_of(env, arg, int_reg_at(k.ints)),
        scalar_word(env, c, arg) is Some,
        d.wf(),
        kp.ints == k.ints,
        kp.ints < ARG_REG_COUNT,
        class_of(callee.prog, callee.local_ty(param)) is OneInt,
        lives(callee, d, param, 0),
    ensures
        takes(s, env.pass_in_regs(s, func, arg, i, k), c, r.0),
        takes(t, callee.lower_param(t, param, kp), d, r.1),
        d.reg(index(int_reg_at(k.ints))) == r.0.reg(index(int_reg_at(k.ints)))
            ==> stands_in_param(callee, d, r.1, param, 0, scalar_word(env, c, arg).unwrap()),
{
    let c1 = word_is_passed(env, s, func, arg, i, k, c);
    let d1 = word_parameter_is_kept(callee, t, param, kp, d);
    (c1, d1)
}

/// An aggregate of two words that is passed in registers arrives whole: every byte in the home
/// of the parameter is the byte of the argument.
#[verifier::spinoff_prover]
pub proof fn pair_argument_arrives(
    env: Env,
    s: LowState,
    func: FnId,
    arg: Operand,
    i: usize,
    k: ArgCursor,
    size: u64,
    c: Cpu,
    callee: Env,
    t: LowState,
    param: LocalId,
    kp: ArgCursor,
    d: Cpu,
) -> (r: (Cpu, Cpu))
    requires
        c.wf(),
        s.err is None,
        k.ints + 1 < ARG_REG_COUNT,
        env.arg_spot(func, arg, i, k) == Passed::MemInt(k.ints, size),
        size > 8,
        arg is Copy,
        addressable(env, arg),
        address_of(env, c, arg->Copy_0, arg->Copy_0.proj@.len() as usize) matches Some(a)
            && in_space(a as int, 16),
        d.wf(),
        kp.ints == k.ints,
        class_of(callee.prog, callee.local_ty(param)) is TwoInt,
        callee.in_memory(callee.local_ty(param)),
        lives(callee, d, param, 0),
        lives(callee, d, param, 8),
    ensures
        takes(s, env.pass_in_regs(s, func, arg, i, k), c, r.0),
        takes(t, callee.lower_param(t, param, kp), d, r.1),
        ({
            let r0 = index(int_reg_at(k.ints));
            let r1 = index(int_reg_at((k.ints + 1) as usize));
            let a = address_of(
                env,
                c,
                arg->Copy_0,
                arg->Copy_0.proj@.len() as usize,
            ).unwrap() as int;
            d.reg(r0) == r.0.reg(r0) && d.reg(r1) == r.0.reg(r1) ==> forall|j: int|
                0 <= j < 16 ==> #[trigger] (r.1.mem)(d.reg(5) + callee.home(param).unwrap() + j)
                    == (c.mem)(a + j)
        }),
{
    let c1 = pair_is_passed(env, s, func, arg, i, k, size, c);
    let d1 = pair_parameter_is_kept(callee, t, param, kp, d);
    let r0 = index(int_reg_at(k.ints));
    let r1 = index(int_reg_at((k.ints + 1) as usize));
    let a = address_of(
        env,
        c,
        arg->Copy_0,
        arg->Copy_0.proj@.len() as usize,
    ).unwrap() as int;
    if d.reg(r0) == c1.reg(r0) && d.reg(r1) == c1.reg(r1) {
        let m = c.mem;
        let z = d1.mem;
        let at = d.reg(5) + callee.home(param).unwrap();
        assert forall|j: int| 0 <= j < 16 implies #[trigger] z(at + j) == m(a + j) by {
            if j < 8 {
                bytes_of_fetched(m, a, 8, j);
                bytes_of_fetched(z, at, 8, j);
            } else {
                bytes_of_fetched(m, a + 8, 8, j - 8);
                bytes_of_fetched(z, at + 8, 8, j - 8);
            }
        }
    }
    (c1, d1)
}

/// A float argument arrives: the home of the parameter holds its bits.
pub proof fn float_argument_arrives(
    env: Env,
    s: LowState,
    func: FnId,
    arg: Operand,
    i: usize,
    k: ArgCursor,
    c: Cpu,
    callee: Env,
    t: LowState,
    param: LocalId,
    kp: ArgCursor,
    d: Cpu,
) -> (r: (Cpu, Cpu))
    requires
        c.wf(),
        c.has_floats(),
        s.err is None,
        env.arg_spot(func, arg, i, k) is Sse,
        addressable(env, arg),
        float_bits(env, c, arg) is Some,
        d.wf(),
        kp.sses == k.sses,
        kp.sses < SSE_ARG_REG_COUNT,
        class_of(callee.prog, callee.local_ty(param)) is Sse,
        callee.home(param) matches Some(h) && in_space(d.reg(5) + h, 8),
    ensures
        takes(s, env.pass_in_regs(s, func, arg, i, k), c, r.0),
        takes(t, callee.lower_param(t, param, kp), d, r.1),
        d.floats[float_index(sse_reg_at(k.sses))] == r.0.floats[float_index(sse_reg_at(k.sses))]
            ==> fetch(r.1.mem, d.reg(5) + callee.home(param).unwrap(), 8) == float_bits(
            env,
            c,
            arg,
        ).unwrap(),
{
    let c1 = float_is_passed(env, s, func, arg, i, k, c);
    let d1 = float_parameter_is_kept(callee, t, param, kp, d);
    assert(0 <= float_index(sse_reg_at(k.sses)) < 16);
    (c1, d1)
}

/// An aggregate that is passed on the stack arrives whole: every byte in the home of the
/// parameter is the byte of the argument, where the frame of the function stands two words
/// below the arguments.
#[verifier::spinoff_prover]
pub proof fn block_argument_arrives(
    env: Env,
    s: LowState,
    func: FnId,
    arg: Operand,
    i: usize,
    k: ArgCursor,
    size: u64,
    c: Cpu,
    callee: Env,
    t: LowState,
    param: LocalId,
    kp: ArgCursor,
    d: Cpu,
) -> (r: (Cpu, Cpu))
    requires
        c.wf(),
        s.err is None,
        env.arg_spot(func, arg, i, k) == Passed::MemStack(k.stack, size),
        size <= i32::MAX,
        arg is Copy,
        addressable(env, arg),
        address_of(env, c, arg->Copy_0, arg->Copy_0.proj@.len() as usize) matches Some(a)
            && in_space(a as int, size as nat) && apart(
            c.reg(4) + k.stack,
            a as int,
            size as int,
        ),
        0 <= c.reg(4) + k.stack < crate::machine::SPAN,
        in_space(c.reg(4) + k.stack, size as nat),
        d.wf(),
        d.reg(5) + 16 == c.reg(4),
        kp.stack == k.stack + 16,
        class_of(callee.prog, callee.local_ty(param)) == (ArgClass::Memory { size }),
        callee.home(param) matches Some(h) && h + size <= i32::MAX && in_space(
            d.reg(5) + h,
            size as nat,
        ) && apart(d.reg(5) + h, d.reg(5) + kp.stack, size as int),
        kp.stack + size <= i32::MAX,
    ensures
        takes(s, env.pass_on_stack(s, func, arg, i, k), c, r.0),
        takes(t, callee.lower_param(t, param, kp), d, r.1),
        ({
            let a = address_of(
                env,
                c,
                arg->Copy_0,
                arg->Copy_0.proj@.len() as usize,
            ).unwrap() as int;
            let at = c.reg(4) + k.stack;
            (forall|j: int| 0 <= j < size ==> #[trigger] (d.mem)(at + j) == (r.0.mem)(at + j))
                ==> forall|j: int|
                0 <= j < size ==> #[trigger] (r.1.mem)(d.reg(5) + callee.home(param).unwrap() + j)
                    == (c.mem)(a + j)
        }),
{
    let c1 = block_is_passed_on_stack(env, s, func, arg, i, k, size, c);
    let d1 = block_parameter_is_kept(callee, t, param, kp, size, d);
    let a = address_of(
        env,
        c,
        arg->Copy_0,
        arg->Copy_0.proj@.len() as usize,
    ).unwrap() as int;
    let at = c.reg(4) + k.stack;
    let m = c.mem;
    let m1 = c1.mem;
    let m2 = d.mem;
    let z = d1.mem;
    if forall|j: int| 0 <= j < size ==> #[trigger] m2(at + j) == m1(at + j) {
        let h = d.reg(5) + callee.home(param).unwrap();
        assert forall|j: int| 0 <= j < size implies #[trigger] z(h + j) == m(a + j) by {
            assert(m2(at + j) == m1(at + j));
            assert(m1(at + j) == m(a + (at + j - at)));
        }
    }
    (c1, d1)
}

/// The hidden pointer of a function that returns an aggregate in memory is kept in its slot.
#[verifier::spinoff_prover]
pub proof fn hidden_pointer_is_kept(env: Env, s: LowState, slot: i32, c: Cpu) -> (d: Cpu)
    requires
        c.wf(),
        env.plan.ret_ptr_slot == Some(slot),
        env.func.params@.len() == 0,
        in_space(c.reg(5) + slot, 8),
    ensures
        takes(s, env.lower_prologue_params(s), c, d),
        fetch(d.mem, c.reg(5) + slot, 8) == c.reg(7),
        same_outside(c.mem, d.mem, c.reg(5) + slot, 8),
        d.regs == c.regs,
{
    reveal(Env::lower_prologue_params);
    assert(index(Gpr::Rdi) == 7);
    takes_nothing(s, c);
    pow256_values();
    written_is_read(c.mem, c.reg(5) + slot, 8, c.reg(7) as int);
    follow_mov_store(s, s, slot, Gpr::Rdi, c, c)
}

} // verus!
