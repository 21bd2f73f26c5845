//! What functions return is what their callers get: values in registers, and aggregates in
//! registers or through a hidden pointer.
use vstd::prelude::*;

use crate::lower::abi::class_of;
use crate::lower::assign_effects::result_is_stored;
use crate::lower::effects::{normalizing_wraps, takes, takes_nothing};
use crate::lower::env::{EntryKind, Env, LowState};
use crate::lower::float_effects::{
    assigned_reads, can_hold, float_assigned, float_bits, float_home, float_is_loaded,
    float_is_stored, reads_as,
};
use crate::lower::follow::{follow_mov_load, follow_mov_load_mem, follow_xor_rr};
use crate::lower::frame_effects::{end_in_order, frame_is_taken_down, unframed};
use crate::lower::agg_effects::{brought, copying_goes_on};
use crate::lower::mem_effects::{
    apart, copied, copy_copies, copy_scratch, fetched_is_word, kept_but, not_saved,
    part_of_word_stored,
};
use crate::lower::operand_effects::addressable;
use crate::lower::place_effects::{address_is_right, address_of, general_address};
use crate::lower::scalar::sum32;
use crate::lower::simulation::{entered, frame_stands, takes_compose};
use crate::lower::wide_effects::{frame_stays, same_outside, scratch};
use crate::machine::{
    Cpu, byte_at, bytes_of_fetched, fetch, fetch_bounded, fetch_same, in_space, pow256_values,
};
use crate::mir::{LocalId, Operand, Terminator};
use crate::mir_ids::FnId;
use crate::reg::{Gpr, Xmm, gpr_codes_distinct};
use crate::steps::{float_index, index};
use crate::types::TypeId;

verus! {

// ---------------------------------------------------------------------------
//  Aggregates in registers
// ---------------------------------------------------------------------------

/// Whether a function returns an aggregate in one or two registers.
pub open spec fn returns_in_registers(env: Env) -> bool {
    let ty = env.func.ret;
    &&& env.kind == EntryKind::Helper
    &&& !env.is_float(ty)
    &&& env.in_memory(ty)
    &&& class_of(env.prog, ty) is OneInt || class_of(env.prog, ty) is TwoInt
}

/// The bytes that are read of an aggregate of up to two words.
pub open spec fn words_read(size: u64) -> nat {
    if size > 8 {
        16
    } else {
        8
    }
}

#[verifier::spinoff_prover]
proof fn words_are_returned(env: Env, s: LowState, value: Operand, ty: TypeId, c: Cpu) -> (d: Cpu)
    requires
        c.wf(),
        s.err is None,
        value is Copy,
        addressable(env, value),
        address_of(env, c, value->Copy_0, value->Copy_0.proj@.len() as usize) matches Some(a)
            && in_space(a as int, words_read(env.layout(ty).size)),
    ensures
        takes(s, env.return_in_regs(s, value, ty), c, d),
        env.return_in_regs(s, value, ty).err is None,
        ({
            let a = address_of(
                env,
                c,
                value->Copy_0,
                value->Copy_0.proj@.len() as usize,
            ).unwrap() as int;
            &&& d.reg(0) == fetch(c.mem, a, 8)
            &&& env.layout(ty).size > 8 ==> d.reg(2) == fetch(c.mem, a + 8, 8)
        }),
        kept_but(c, d, scratch()),
        d.mem == c.mem,
{
    assert(index(Gpr::Rax) == 0 && index(Gpr::Rdx) == 2 && index(Gpr::R11) == 11);
    let p = value->Copy_0;
    let n = p.proj@.len() as usize;
    general_address(env, s, p, n, Gpr::R11, c);
    let t = env.place_addr(s, p, n, Gpr::R11);
    let c1 = address_is_right(env, s, p, n, Gpr::R11, c);
    let a = c1.reg(11) as int;
    let t1 = t.on(t.text.mov_load_mem(Gpr::Rax, Gpr::R11, 0));
    let c2 = follow_mov_load_mem(s, t, Gpr::Rax, Gpr::R11, 0, c, c1);
    fetched_is_word(c.mem, a, 8);
    fetched_is_word(c.mem, a + 8, 8);
    fetch_bounded(c.mem, a, 8);
    fetch_bounded(c.mem, a + 8, 8);
    pow256_values();
    let wide = env.layout(ty).size > 8;
    let t2 = t1.on(t1.text.mov_load_mem(Gpr::Rdx, Gpr::R11, 8));
    let d = if wide {
        follow_mov_load_mem(s, t1, Gpr::Rdx, Gpr::R11, 8, c, c2)
    } else {
        c2
    };
    assert(env.return_in_regs(s, value, ty) == if wide {
        t2
    } else {
        t1
    }) by {
        reveal(Env::return_in_regs);
    }
    assert forall|q: Gpr| !scratch().contains(q) implies #[trigger] d.reg(index(q)) == c.reg(
        index(q),
    ) by {
        gpr_codes_distinct(q, Gpr::Rax);
        gpr_codes_distinct(q, Gpr::Rdx);
        gpr_codes_distinct(q, Gpr::R10);
        gpr_codes_distinct(q, Gpr::R11);
        assert(c1.reg(index(q)) == c.reg(index(q)));
    }
    d
}

proof fn frame_still_stands(env: Env, caller: Cpu, c: Cpu, d: Cpu)
    requires
        frame_stands(env, caller, c),
        kept_but(c, d, scratch()),
        d.mem == c.mem,
    ensures
        frame_stands(env, caller, d),
{
    frame_stays(c, d);
}

/// The code of a return of an aggregate of up to two words puts its first eight bytes into
/// `rax` and those that follow into `rdx`, and gives the caller back its stack pointer and its
/// frame pointer. The last instruction returns to the caller.
#[verifier::spinoff_prover]
pub proof fn aggregate_is_returned(
    env: Env,
    s: LowState,
    value: Operand,
    caller: Cpu,
    c: Cpu,
) -> (r: (LowState, Cpu))
    requires
        s.err is None,
        returns_in_registers(env),
        frame_stands(env, caller, c),
        not_saved(env, Gpr::Rdx),
        value is Copy,
        addressable(env, value),
        address_of(env, c, value->Copy_0, value->Copy_0.proj@.len() as usize) matches Some(a)
            && in_space(a as int, words_read(env.layout(env.func.ret).size)),
    ensures
        takes(s, r.0, c, r.1),
        env.lower_terminator(s, Terminator::Return { value }) == r.0.on(r.0.text.ret()),
        ({
            let a = address_of(
                env,
                c,
                value->Copy_0,
                value->Copy_0.proj@.len() as usize,
            ).unwrap() as int;
            &&& r.1.reg(0) == fetch(c.mem, a, 8)
            &&& env.layout(env.func.ret).size > 8 ==> r.1.reg(2) == fetch(c.mem, a + 8, 8)
        }),
        r.1.reg(4) == caller.reg(4),
        r.1.reg(5) == caller.reg(5),
        r.1.mem == c.mem,
{
    let ty = env.func.ret;
    let t = env.return_in_regs(s, value, ty);
    let c1 = words_are_returned(env, s, value, ty, c);
    frame_still_stands(env, caller, c, c1);
    let u = unframed(env, t);
    assert(env.lower_terminator(s, Terminator::Return { value }) == u.on(u.text.ret())) by {
        reveal(Env::lower_terminator);
        reveal(Env::lower_return);
        reveal(Env::lower_helper_return);
        end_in_order(env, t);
    }
    let d = frame_is_taken_down(env, t, caller, entered(caller), c1);
    takes_compose(s, t, u, c, c1, d);
    assert(index(Gpr::Rax) == 0 && index(Gpr::Rdx) == 2);
    (u, d)
}

/// The bytes in two registers, as those of an aggregate.
pub open spec fn register_byte(c: Cpu, k: int) -> u8 {
    if k < 8 {
        byte_at(c.reg(0) as int, k)
    } else {
        byte_at(c.reg(2) as int, k - 8)
    }
}

/// The code behind a call that returns an aggregate in registers stores the bytes of `rax`,
/// and behind them those of `rdx`, in the home of the destination, and no others.
#[verifier::spinoff_prover]
#[verifier::rlimit(40)]
pub proof fn register_result_is_stored(
    env: Env,
    s: LowState,
    dst: LocalId,
    func: FnId,
    args: Seq<Operand>,
    ty: TypeId,
    d: Cpu,
) -> (e: Cpu)
    requires
        d.wf(),
        env.lower_call_raw(s, func, args).err is None,
        !(class_of(env.prog, ty) is Memory),
        env.layout(ty).size <= 16,
        env.home(dst) matches Some(h) && h + 16 <= i32::MAX && in_space(
            d.reg(5) + h,
            env.layout(ty).size as nat,
        ),
    ensures
        takes(
            env.lower_call_raw(s, func, args),
            env.lower_call_aggregate(s, dst, func, args, ty),
            d,
            e,
        ),
        env.lower_call_aggregate(s, dst, func, args, ty).err is None,
        forall|k: int|
            0 <= k < env.layout(ty).size ==> #[trigger] (e.mem)(
                d.reg(5) + env.home(dst).unwrap() + k,
            ) == register_byte(d, k),
        same_outside(
            d.mem,
            e.mem,
            d.reg(5) + env.home(dst).unwrap(),
            env.layout(ty).size as int,
        ),
        kept_but(d, e, set![Gpr::Rcx]),
{
    let t = env.lower_call_raw(s, func, args);
    let h = env.home(dst).unwrap();
    let size = env.layout(ty).size;
    let at = d.reg(5) + h;
    takes_nothing(t, d);
    assert(index(Gpr::Rax) == 0 && index(Gpr::Rdx) == 2 && index(Gpr::Rbp) == 5 && index(Gpr::Rcx)
        == 1);
    if size <= 8 {
        let e = part_of_word_stored(env, t, t, h, Gpr::Rax, size, d, d);
        storing_goes_on(env, t, h, Gpr::Rax, size);
        assert(env.lower_call_aggregate(s, dst, func, args, ty) == env.store_eightbyte(
            t,
            h,
            Gpr::Rax,
            size,
        )) by {
            reveal(Env::lower_call_aggregate);
        }
        e
    } else {
        let t1 = env.store_eightbyte(t, h, Gpr::Rax, 8);
        let d1 = part_of_word_stored(env, t, t, h, Gpr::Rax, 8, d, d);
        storing_goes_on(env, t, h, Gpr::Rax, 8);
        let k = (size - 8) as u64;
        let e = part_of_word_stored(env, t, t1, sum32(h, 8), Gpr::Rdx, k, d, d1);
        storing_goes_on(env, t1, sum32(h, 8), Gpr::Rdx, k);
        assert(env.lower_call_aggregate(s, dst, func, args, ty) == env.store_eightbyte(
            t1,
            sum32(h, 8),
            Gpr::Rdx,
            k,
        )) by {
            reveal(Env::lower_call_aggregate);
        }
        let m = d.mem;
        let m1 = d1.mem;
        let m2 = e.mem;
        assert forall|x: int| 0 <= x < size implies #[trigger] m2(at + x) == register_byte(d, x) by {
            assert(m1(at + x) == crate::machine::patch(m, at, 8, d.reg(0) as int)(at + x));
        }
        assert forall|x: int| !(at <= x < at + size) implies #[trigger] m2(x) == m(x) by {
            assert(m1(x) == crate::machine::patch(m, at, 8, d.reg(0) as int)(x));
        }
        e
    }
}

proof fn storing_goes_on(env: Env, s: LowState, off: i32, src: Gpr, n: u64)
    requires
        n <= 8,
    ensures
        env.store_eightbyte(s, off, src, n).err == s.err,
    decreases n,
{
    if n == 0 || n == 1 || n == 2 || n == 4 || n == 8 {
    } else if n < 4 {
        let s1 = env.store_eightbyte(s, off, src, 2);
        storing_goes_on(env, s, off, src, 2);
        let s2 = s1.on(s1.text.mov_rr(Gpr::Rcx, src));
        let s3 = s2.on(s2.text.shr_ri(Gpr::Rcx, 16));
        storing_goes_on(env, s3, sum32(off, 2), Gpr::Rcx, (n - 2) as u64);
    } else {
        let s1 = env.store_eightbyte(s, off, src, 4);
        storing_goes_on(env, s, off, src, 4);
        let s2 = s1.on(s1.text.mov_rr(Gpr::Rcx, src));
        let s3 = s2.on(s2.text.shr_ri(Gpr::Rcx, 32));
        storing_goes_on(env, s3, sum32(off, 4), Gpr::Rcx, (n - 4) as u64);
    }
}

/// An aggregate that a function returns in registers arrives whole: whatever the caller does
/// between the return and the code behind the call, as long as it leaves `rax` and `rdx`
/// alone, every byte in the home of the call's destination is the byte of the aggregate that
/// was returned, and no other byte changes.
#[verifier::spinoff_prover]
pub proof fn returned_aggregate_arrives(
    callee: Env,
    at_return: LowState,
    value: Operand,
    before: Cpu,
    c: Cpu,
    env: Env,
    s: LowState,
    dst: LocalId,
    func: FnId,
    args: Seq<Operand>,
    d: Cpu,
) -> (r: (LowState, Cpu, Cpu))
    requires
        env.prog == callee.prog,
        at_return.err is None,
        returns_in_registers(callee),
        frame_stands(callee, before, c),
        not_saved(callee, Gpr::Rdx),
        value is Copy,
        addressable(callee, value),
        address_of(callee, c, value->Copy_0, value->Copy_0.proj@.len() as usize) matches Some(a)
            && in_space(a as int, words_read(callee.layout(callee.func.ret).size)),
        d.wf(),
        env.lower_call_raw(s, func, args).err is None,
        env.layout(callee.func.ret).size <= 16,
        env.home(dst) matches Some(h) && h + 16 <= i32::MAX && in_space(
            d.reg(5) + h,
            env.layout(callee.func.ret).size as nat,
        ),
    ensures
        takes(at_return, r.0, c, r.1),
        callee.lower_terminator(at_return, Terminator::Return { value }) == r.0.on(
            r.0.text.ret(),
        ),
        takes(
            env.lower_call_raw(s, func, args),
            env.lower_call_aggregate(s, dst, func, args, callee.func.ret),
            d,
            r.2,
        ),
        d.reg(0) == r.1.reg(0) && d.reg(2) == r.1.reg(2) ==> forall|k: int|
            0 <= k < env.layout(callee.func.ret).size ==> #[trigger] (r.2.mem)(
                d.reg(5) + env.home(dst).unwrap() + k,
            ) == (c.mem)(
                address_of(
                    callee,
                    c,
                    value->Copy_0,
                    value->Copy_0.proj@.len() as usize,
                ).unwrap() + k,
            ),
        same_outside(
            d.mem,
            r.2.mem,
            d.reg(5) + env.home(dst).unwrap(),
            env.layout(callee.func.ret).size as int,
        ),
{
    let ty = callee.func.ret;
    let (t, c1) = aggregate_is_returned(callee, at_return, value, before, c);
    let e = register_result_is_stored(env, s, dst, func, args, ty, d);
    let a = address_of(
        callee,
        c,
        value->Copy_0,
        value->Copy_0.proj@.len() as usize,
    ).unwrap() as int;
    if d.reg(0) == c1.reg(0) && d.reg(2) == c1.reg(2) {
        let m = c.mem;
        let m2 = e.mem;
        assert forall|k: int| 0 <= k < env.layout(ty).size implies #[trigger] m2(
            d.reg(5) + env.home(dst).unwrap() + k,
        ) == m(a + k) by {
            assert(m2(d.reg(5) + env.home(dst).unwrap() + k) == register_byte(d, k));
            if k < 8 {
                bytes_of_fetched(m, a, 8, k);
            } else {
                bytes_of_fetched(m, a + 8, 8, k - 8);
            }
        }
    }
    (t, c1, e)
}

/// A return of nothing from a function that returns an error union says that there was no
/// error: both registers are zero.
#[verifier::spinoff_prover]
pub proof fn success_is_returned(env: Env, s: LowState, value: Operand, ty: TypeId, c: Cpu) -> (d:
    Cpu)
    requires
        c.wf(),
        env.is_void_const(value),
        env.is_error_union(ty),
    ensures
        takes(s, env.return_in_regs(s, value, ty), c, d),
        env.return_in_regs(s, value, ty).err == s.err,
        d.reg(0) == 0,
        env.layout(ty).size > 8 ==> d.reg(2) == 0,
        kept_but(c, d, scratch()),
        d.mem == c.mem,
{
    reveal(Env::return_in_regs);
    takes_nothing(s, c);
    assert(index(Gpr::Rax) == 0 && index(Gpr::Rdx) == 2);
    let t = s.on(s.text.xor_rr(Gpr::Rax, Gpr::Rax));
    let c1 = follow_xor_rr(s, s, Gpr::Rax, Gpr::Rax, c, c);
    crate::lower::effects::with_itself(c.reg(0));
    crate::lower::effects::with_itself(c.reg(2));
    let d = if env.layout(ty).size > 8 {
        follow_xor_rr(s, t, Gpr::Rdx, Gpr::Rdx, c, c1)
    } else {
        c1
    };
    assert forall|q: Gpr| !scratch().contains(q) implies #[trigger] d.reg(index(q)) == c.reg(
        index(q),
    ) by {
        gpr_codes_distinct(q, Gpr::Rax);
        gpr_codes_distinct(q, Gpr::Rdx);
    }
    d
}

// ---------------------------------------------------------------------------
//  Aggregates in memory
// ---------------------------------------------------------------------------

/// A function that returns an aggregate of more than two words copies it to where the hidden
/// pointer points, and returns that pointer in `rax`; no other byte changes.
#[verifier::spinoff_prover]
#[verifier::rlimit(40)]
pub proof fn aggregate_goes_to_hidden_pointer(
    env: Env,
    s: LowState,
    value: Operand,
    size: u64,
    c: Cpu,
) -> (d: Cpu)
    requires
        c.wf(),
        s.err is None,
        value is Copy,
        addressable(env, value),
        size <= i64::MAX,
        env.plan.ret_ptr_slot matches Some(slot) && in_space(c.reg(5) + slot, 8) && {
            let to = fetch(c.mem, c.reg(5) + slot, 8);
            &&& in_space(to, size as nat)
            &&& c.reg(5) + slot + 8 <= to || to + size <= c.reg(5) + slot
            &&& address_of(env, c, value->Copy_0, value->Copy_0.proj@.len() as usize) matches Some(
                a,
            ) && in_space(a as int, size as nat) && apart(to, a as int, size as int)
        },
        env.reg_of(value->Copy_0.base) != Some(Gpr::R11),
        forall|k: Cpu|
            kept_but(c, k, scratch()) && k.mem == c.mem ==> #[trigger] address_of(
                env,
                k,
                value->Copy_0,
                value->Copy_0.proj@.len() as usize,
            ) == address_of(env, c, value->Copy_0, value->Copy_0.proj@.len() as usize),
    ensures
        takes(s, env.return_in_memory(s, value, size), c, d),
        env.return_in_memory(s, value, size).err is None,
        ({
            let to = fetch(c.mem, c.reg(5) + env.plan.ret_ptr_slot.unwrap(), 8);
            let a = address_of(
                env,
                c,
                value->Copy_0,
                value->Copy_0.proj@.len() as usize,
            ).unwrap();
            &&& copied(c.mem, d.mem, to, a as int, size as int)
            &&& d.reg(0) == to
        }),
        kept_but(c, d, scratch()),
{
    assert(index(Gpr::Rax) == 0 && index(Gpr::R11) == 11 && index(Gpr::Rbp) == 5);
    takes_nothing(s, c);
    let p = value->Copy_0;
    let n = p.proj@.len() as usize;
    let slot = env.plan.ret_ptr_slot.unwrap();
    let to = fetch(c.mem, c.reg(5) + slot, 8);
    fetched_is_word(c.mem, c.reg(5) + slot, 8);
    fetch_bounded(c.mem, c.reg(5) + slot, 8);
    pow256_values();
    let t1 = s.on(s.text.mov_load(Gpr::R11, slot));
    let c1 = follow_mov_load(s, s, Gpr::R11, slot, c, c);
    assert(kept_but(c, c1, scratch())) by {
        assert forall|q: Gpr| !scratch().contains(q) implies #[trigger] c1.reg(index(q)) == c.reg(
            index(q),
        ) by {
            gpr_codes_distinct(q, Gpr::R11);
        }
    }
    assert(address_of(env, c1, p, n) == address_of(env, c, p, n));
    general_address(env, t1, p, n, Gpr::Rax, c1);
    let t2 = env.place_addr(t1, p, n, Gpr::Rax);
    let c2 = address_is_right(env, t1, p, n, Gpr::Rax, c1);
    takes_compose(s, t1, t2, c, c1, c2);
    assert(c2.reg(11) == to);
    let t3 = env.memcpy(t2, Gpr::R11, Gpr::Rax, size);
    let c3 = copy_copies(env, t2, Gpr::R11, Gpr::Rax, size, c2);
    takes_compose(s, t2, t3, c, c2, c3);
    copying_goes_on(env, t2, Gpr::R11, Gpr::Rax, size);
    assert(!copy_scratch(size).contains(Gpr::Rbp));
    assert(c3.reg(index(Gpr::Rbp)) == c2.reg(index(Gpr::Rbp)));
    let m = c.mem;
    let m3 = c3.mem;
    assert forall|i: int| 0 <= i < 8 implies #[trigger] m3(c.reg(5) + slot + i) == m(
        c.reg(5) + slot + i,
    ) by {}
    fetch_same(m3, c.reg(5) + slot, m, c.reg(5) + slot, 8);
    let d = follow_mov_load(s, t3, Gpr::Rax, slot, c, c3);
    assert(env.return_in_memory(s, value, size) == t3.on(t3.text.mov_load(Gpr::Rax, slot))) by {
        reveal(Env::return_in_memory);
    }
    assert forall|q: Gpr| !scratch().contains(q) implies #[trigger] d.reg(index(q)) == c.reg(
        index(q),
    ) by {
        gpr_codes_distinct(q, Gpr::Rax);
        gpr_codes_distinct(q, Gpr::R10);
        assert(c1.reg(index(q)) == c.reg(index(q)));
        assert(c2.reg(index(q)) == c1.reg(index(q)));
        assert(!copy_scratch(size).contains(q));
        assert(c3.reg(index(q)) == c2.reg(index(q)));
    }
    d
}

// ---------------------------------------------------------------------------
//  Scalars
// ---------------------------------------------------------------------------

/// The word that a call returns, brought to the width of its type, goes to the destination.
#[verifier::spinoff_prover]
pub proof fn call_result_is_assigned(
    env: Env,
    s: LowState,
    dst: LocalId,
    func: FnId,
    args: Seq<Operand>,
    ty: TypeId,
    d: Cpu,
) -> (e: Cpu)
    requires
        d.wf(),
        env.lower_call_raw(s, func, args).err is None,
        !env.is_float(ty),
        can_hold(env, d, dst, brought(env, d.reg(0), ty)),
    ensures
        takes(
            env.lower_call_raw(s, func, args),
            env.lower_call(s, dst, func, args, ty),
            d,
            e,
        ),
        env.lower_call(s, dst, func, args, ty).err is None,
        reads_as(env, d, e, dst, brought(env, d.reg(0), ty)),
{
    assert(index(Gpr::Rax) == 0 && index(Gpr::Rcx) == 1);
    let t = env.lower_call_raw(s, func, args);
    takes_nothing(t, d);
    let t1 = env.normalize(t, Gpr::Rax, ty);
    let d1 = normalizing_wraps(env, t, t, Gpr::Rax, ty, d, d);
    assert(t1.err == t.err) by {
        reveal(Env::normalize);
        reveal(Env::normalize_signed_other);
        reveal(Env::normalize_unsigned_other);
    }
    assert(env.lower_call(s, dst, func, args, ty) == env.store_scalar_result(t1, dst)) by {
        reveal(Env::lower_call);
    }
    assert(kept_but(d, d1, scratch())) by {
        assert forall|q: Gpr| !scratch().contains(q) implies #[trigger] d1.reg(index(q)) == d.reg(
            index(q),
        ) by {
            gpr_codes_distinct(q, Gpr::Rax);
            gpr_codes_distinct(q, Gpr::Rcx);
        }
    }
    frame_stays(d, d1);
    let e = result_is_stored(env, t, t1, dst, d, d1);
    assigned_reads(env, d, d1, e, dst, d1.reg(0));
    e
}

/// The float that a call returns in `xmm0` goes to the destination.
#[verifier::spinoff_prover]
pub proof fn float_result_is_assigned(
    env: Env,
    s: LowState,
    dst: LocalId,
    func: FnId,
    args: Seq<Operand>,
    ty: TypeId,
    d: Cpu,
) -> (e: Cpu)
    requires
        d.wf(),
        d.has_floats(),
        env.lower_call_raw(s, func, args).err is None,
        env.is_float(ty),
        float_home(env, d, dst),
    ensures
        takes(
            env.lower_call_raw(s, func, args),
            env.lower_call(s, dst, func, args, ty),
            d,
            e,
        ),
        env.lower_call(s, dst, func, args, ty).err is None,
        float_assigned(env, d, e, dst, d.floats[0]),
{
    let t = env.lower_call_raw(s, func, args);
    takes_nothing(t, d);
    assert(env.lower_call(s, dst, func, args, ty) == env.store_float_xmm0(t, dst)) by {
        reveal(Env::lower_call);
    }
    float_is_stored(env, t, t, dst, d, d)
}

/// A function that returns a float returns its bits in `xmm0`.
#[verifier::spinoff_prover]
pub proof fn float_is_returned(env: Env, s: LowState, value: Operand, c: Cpu) -> (d: Cpu)
    requires
        c.wf(),
        c.has_floats(),
        s.err is None,
        env.is_float(env.func.ret),
        addressable(env, value),
        float_bits(env, c, value) is Some,
    ensures
        takes(s, env.lower_helper_return(s, value), c, d),
        env.lower_helper_return(s, value).err is None,
        d.floats[0] == float_bits(env, c, value).unwrap(),
        kept_but(c, d, scratch()),
        d.mem == c.mem,
{
    reveal(Env::lower_helper_return);
    assert(float_index(Xmm::Xmm0) == 0);
    float_is_loaded(env, s, value, Xmm::Xmm0, c)
}

} // verus!
