//! What allocations leave in the home of their result.
use vstd::prelude::*;

use crate::lower::intr::Want;
use crate::runtime::RuntimeFn;
use crate::lower::place_effects::{address_is_right, address_of, general_address, no_index_in};
use crate::lower::simulation::takes_compose;
use crate::behavior::labels_once;
use crate::encode::{AsmState, Cc};
use crate::lower::effects::{takes, takes_nothing, tells, with_itself};
use crate::lower::env::{Env, LowState};
use crate::lower::follow::{
    follow_mov_load_mem, follow_mov_ri, follow_mov_store16_mem, follow_mov_store_mem, follow_pop,
    follow_push, follow_test_rr,
};
use crate::lower::loops::{
    branch_passed, branch_taken, jump_comes, onwards, past_label, reaches, starts, starts_trans,
    straight_on, within,
};
use crate::lower::mem_effects::{fetched_is_word, kept_but};
use crate::lower::operand_effects::{addressable, scalar_loads, scalar_word};
use crate::lower::scalar::sum32;
use crate::lower::wide_effects::{same_outside, scratch};
use crate::machine::{
    Cpu, elsewhere_stays, fetch, fetch_bounded, in_space, pow256_values, written_is_read,
};
use crate::mir::{IntrinsicPath, IntrinsicRoot, Operand};
use crate::peephole::Ins;
use crate::reg::{Gpr, gpr_codes_distinct};
use crate::steps::index;

verus! {

/// Whether the word of an operand is the same whatever stands in the `n` bytes at `at` and in
/// the registers that expressions use.
pub open spec fn stands_beside(env: Env, c: Cpu, op: Operand, at: int, n: int) -> bool {
    forall|d: Cpu|
        kept_but(c, d, scratch()) && same_outside(c.mem, d.mem, at, n) ==> #[trigger] scalar_word(
            env,
            d,
            op,
        ) == scalar_word(env, c, op)
}

/// Whether the home of an error union has room for a tag and, `off` bytes on, for a payload of
/// `n` bytes.
pub open spec fn union_room(c: Cpu, home: i32, off: i32, n: int) -> bool {
    &&& off >= 2
    &&& home + off + n <= i32::MAX
    &&& 0 <= c.reg(5) + home
    &&& in_space(c.reg(5) + home, (off + n) as nat)
}

/// The tag of an error in the tables of a program: that of the first entry with its name.
pub proof fn tag_is_of_name(env: Env, name: Seq<char>, k: int)
    requires
        0 <= k < env.prog.err_names@.len(),
        env.prog.err_names@[k].1@ == name,
        forall|j: int| 0 <= j < k ==> #[trigger] env.prog.err_names@[j].1@ != name,
    ensures
        env.tag_named(name, 0) == env.prog.err_names@[k].0.0,
{
    tag_is_found(env, name, 0, k);
}

proof fn tag_is_found(env: Env, name: Seq<char>, i: int, k: int)
    requires
        0 <= i <= k < env.prog.err_names@.len(),
        env.prog.err_names@[k].1@ == name,
        forall|j: int| 0 <= j < k ==> #[trigger] env.prog.err_names@[j].1@ != name,
    ensures
        env.tag_named(name, i) == env.prog.err_names@[k].0.0,
    decreases k - i,
{
    if i < k {
        assert(env.prog.err_names@[i].1@ != name);
        tag_is_found(env, name, i + 1, k);
    }
}

/// The tag of an error where an allocation fails is that of `OutOfMemory`.
pub proof fn failed_allocation_is_out_of_memory(env: Env, k: int)
    requires
        0 <= k < env.prog.err_names@.len(),
        env.prog.err_names@[k].1@ == "OutOfMemory"@,
        forall|j: int| 0 <= j < k ==> #[trigger] env.prog.err_names@[j].1@ != "OutOfMemory"@,
    ensures
        env.oom_tag() == env.prog.err_names@[k].0.0,
{
    tag_is_of_name(env, "OutOfMemory"@, k);
}

/// Code that tells a null pointer from another, up to the jump.
pub open spec fn null_tested(s: LowState) -> LowState {
    let t = s.on(s.text.new_label());
    let t = t.on(t.text.new_label());
    t.on(t.text.test_rr(Gpr::Rax, Gpr::Rax))
}

/// Code that stores a tag.
pub open spec fn tag_stored(s: LowState, home: i32, tag: i64) -> LowState {
    let t = s.on(s.text.mov_ri(Gpr::Rax, tag));
    t.on(t.text.mov_store16_mem(Gpr::Rbp, home, Gpr::Rax))
}

#[verifier::spinoff_prover]
pub(crate) proof fn tag_store_runs(
    s: LowState,
    t: LowState,
    home: i32,
    tag: u16,
    c: Cpu,
    d: Cpu,
) -> (e: Cpu)
    requires
        takes(s, t, c, d),
        d.wf(),
        in_space(d.reg(5) + home, 2),
    ensures
        takes(s, tag_stored(t, home, tag as i64), c, e),
        kept_but(d, e, scratch()),
        fetch(e.mem, d.reg(5) + home, 2) == tag,
        same_outside(d.mem, e.mem, d.reg(5) + home, 2),
        forall|b: int, k: nat|
            d.reg(5) + home + 2 <= b ==> #[trigger] fetch(e.mem, b, k) == fetch(d.mem, b, k),
{
    assert(index(Gpr::Rax) == 0 && index(Gpr::Rbp) == 5);
    let t1 = t.on(t.text.mov_ri(Gpr::Rax, tag as i64));
    let d1 = follow_mov_ri(s, t, Gpr::Rax, tag as i64, c, d);
    let e = follow_mov_store16_mem(s, t1, Gpr::Rbp, home, Gpr::Rax, c, d1);
    let at = d.reg(5) + home;
    written_is_read(d.mem, at, 2, tag as int);
    pow256_values();
    assert forall|b: int, k: nat| at + 2 <= b implies #[trigger] fetch(e.mem, b, k) == fetch(
        d.mem,
        b,
        k,
    ) by {
        elsewhere_stays(d.mem, at, 2, tag as int, b, k);
    }
    assert forall|q: Gpr| !scratch().contains(q) implies #[trigger] e.reg(index(q)) == d.reg(
        index(q),
    ) by {
        gpr_codes_distinct(q, Gpr::Rax);
    }
    e
}

/// A pointer that is stored as the value of an error union is read back from it, and the tag
/// says that there is no error.
#[verifier::spinoff_prover]
pub proof fn pointer_result_is_stored(
    env: Env,
    s: LowState,
    home: i32,
    off: i32,
    src: Gpr,
    c: Cpu,
) -> (d: Cpu)
    requires
        c.wf(),
        union_room(c, home, off, 8),
    ensures
        takes(s, env.write_eu_ok_ptr(s, home, off, src), c, d),
        fetch(d.mem, c.reg(5) + home, 2) == 0,
        fetch(d.mem, c.reg(5) + home + off, 8) == c.reg(index(src)),
        same_outside(c.mem, d.mem, c.reg(5) + home, off + 8),
        kept_but(c, d, scratch()),
{
    reveal(Env::write_eu_ok_ptr);
    assert(index(Gpr::Rbp) == 5);
    takes_nothing(s, c);
    let at = sum32(home, off);
    let t = s.on(s.text.mov_store_mem(Gpr::Rbp, at, src));
    let c1 = follow_mov_store_mem(s, s, Gpr::Rbp, at, src, c, c);
    written_is_read(c.mem, c.reg(5) + at, 8, c.reg(index(src)) as int);
    pow256_values();
    tag_store_runs(s, t, home, 0, c, c1)
}

proof fn slice_code_extends(env: Env, s: LowState, t: LowState, home: i32, cell: i32)
    ensures
        ({
            let oom = s.text.fresh();
            let done = s.on(s.text.new_label()).text.fresh();
            let t1 = t.on(t.text.mov_store_mem(Gpr::Rbp, cell, Gpr::Rcx));
            let t2 = tag_stored(t1, home, 0);
            let t3 = t2.on(t2.text.jmp_local(done));
            let t4 = t3.on(t3.text.bind(oom));
            let t5 = tag_stored(t4, home, env.oom_tag() as i64);
            let t6 = t5.on(t5.text.bind(done));
            &&& starts(t6.text.instrs, t5.text.instrs)
            &&& starts(t6.text.instrs, t4.text.instrs)
            &&& starts(t6.text.instrs, t3.text.instrs)
            &&& starts(t6.text.instrs, t2.text.instrs)
            &&& starts(t6.text.instrs, t.text.instrs)
        }),
{
    reveal(AsmState::mov_store_mem);
    reveal(AsmState::mov_store16_mem);
    reveal(AsmState::mov_ri);
    reveal(AsmState::jmp_local);
    let oom = s.text.fresh();
    let done = s.on(s.text.new_label()).text.fresh();
    let t1 = t.on(t.text.mov_store_mem(Gpr::Rbp, cell, Gpr::Rcx));
    let t2 = tag_stored(t1, home, 0);
    let t3 = t2.on(t2.text.jmp_local(done));
    let t4 = t3.on(t3.text.bind(oom));
    let t5 = tag_stored(t4, home, env.oom_tag() as i64);
    let t6 = t5.on(t5.text.bind(done));
    let w = t6.text.instrs;
    assert(w.take(t5.text.instrs.len() as int) =~= t5.text.instrs);
    assert(w.take(t4.text.instrs.len() as int) =~= t4.text.instrs);
    assert(w.take(t3.text.instrs.len() as int) =~= t3.text.instrs);
    assert(w.take(t2.text.instrs.len() as int) =~= t2.text.instrs);
    assert(w.take(t.text.instrs.len() as int) =~= t.text.instrs);
}

/// Code that stores the pointer and the length of a slice, up to the tag.
pub open spec fn slice_stored(
    env: Env,
    s: LowState,
    home: i32,
    off: i32,
    len: Operand,
) -> LowState {
    let oom = s.text.fresh();
    let t = null_tested(s);
    let t = t.on(t.text.jcc_local(Cc::E, oom));
    let t = t.on(t.text.mov_store_mem(Gpr::Rbp, sum32(home, off), Gpr::Rax));
    env.operand_to(t, len, Gpr::Rcx)
}

#[verifier::spinoff_prover]
#[verifier::rlimit(40)]
proof fn slice_store_runs(
    env: Env,
    s: LowState,
    home: i32,
    off: i32,
    len: Operand,
    c: Cpu,
) -> (r: (Cpu, Cpu))
    requires
        c.wf(),
        s.err is None,
        union_room(c, home, off, 16),
        addressable(env, len),
        scalar_word(env, c, len) is Some,
        stands_beside(env, c, len, c.reg(5) + home, off + 16),
    ensures
        ({
            let oom = s.text.fresh();
            let t = null_tested(s);
            let t1 = t.on(t.text.jcc_local(Cc::E, oom));
            let t3 = slice_stored(env, s, home, off, len);
            let t4 = t3.on(
                t3.text.mov_store_mem(Gpr::Rbp, sum32(sum32(home, off), 8), Gpr::Rcx),
            );
            let t5 = tag_stored(t4, home, 0);
            &&& takes(t1, t3, c, r.0)
            &&& t3.err is None
            &&& takes(t1, t5, c, r.1)
        }),
        fetch(r.1.mem, c.reg(5) + home, 2) == 0,
        fetch(r.1.mem, c.reg(5) + home + off, 8) == c.reg(0),
        fetch(r.1.mem, c.reg(5) + home + off + 8, 8) == scalar_word(env, c, len).unwrap(),
        same_outside(c.mem, r.1.mem, c.reg(5) + home, off + 16),
        kept_but(c, r.1, scratch()),
{
    assert(index(Gpr::Rax) == 0 && index(Gpr::Rcx) == 1 && index(Gpr::Rbp) == 5);
    let oom = s.text.fresh();
    let t = null_tested(s);
    let t1 = t.on(t.text.jcc_local(Cc::E, oom));
    let cell = sum32(home, off);
    let at = c.reg(5) + home;
    takes_nothing(t1, c);
    let t2 = t1.on(t1.text.mov_store_mem(Gpr::Rbp, cell, Gpr::Rax));
    let c2 = follow_mov_store_mem(t1, t1, Gpr::Rbp, cell, Gpr::Rax, c, c);
    assert(same_outside(c.mem, c2.mem, at, off + 16));
    assert(kept_but(c, c2, scratch()));
    assert(scalar_word(env, c2, len) == scalar_word(env, c, len));
    let t3 = env.operand_to(t2, len, Gpr::Rcx);
    let c3 = scalar_loads(env, t2, len, Gpr::Rcx, c2);
    takes_compose(t1, t2, t3, c, c2, c3);
    assert(c3.reg(index(Gpr::Rbp)) == c2.reg(index(Gpr::Rbp)));
    let cell2 = sum32(cell, 8);
    let t4 = t3.on(t3.text.mov_store_mem(Gpr::Rbp, cell2, Gpr::Rcx));
    let c4 = follow_mov_store_mem(t1, t3, Gpr::Rbp, cell2, Gpr::Rcx, c, c3);
    let c5 = tag_store_runs(t1, t4, home, 0, c, c4);
    let m = c.mem;
    let p = c.reg(0) as int;
    let n = scalar_word(env, c, len).unwrap() as int;
    pow256_values();
    written_is_read(m, at + off, 8, p);
    written_is_read(c3.mem, at + off + 8, 8, n);
    elsewhere_stays(c3.mem, at + off + 8, 8, n, at + off, 8);
    assert forall|q: Gpr| !scratch().contains(q) implies #[trigger] c5.reg(index(q)) == c.reg(
        index(q),
    ) by {
        assert(c5.reg(index(q)) == c4.reg(index(q)));
        assert(c3.reg(index(q)) == c2.reg(index(q)));
    }
    (c3, c5)
}

/// What an allocation of a slice leaves in the home of its result, once the runtime has
/// returned a pointer in `rax`. Where the pointer is not null: the tag that says that there is
/// no error, the pointer, and behind it the value of the operand that counts the elements.
/// Where it is null: the tag of `OutOfMemory`. No byte outside the result changes.
#[verifier::spinoff_prover]
#[verifier::rlimit(40)]
pub proof fn slice_result_is_stored(
    env: Env,
    w: Seq<Ins>,
    s: LowState,
    home: i32,
    off: i32,
    len: Operand,
    c: Cpu,
) -> (d: Cpu)
    requires
        labels_once(w),
        within(w, env.write_alloc_slice_result(s, home, off, len)),
        c.wf(),
        s.err is None,
        union_room(c, home, off, 16),
        addressable(env, len),
        scalar_word(env, c, len) is Some,
        stands_beside(env, c, len, c.reg(5) + home, off + 16),
    ensures
        env.write_alloc_slice_result(s, home, off, len).err is None,
        reaches(w, s, c, env.write_alloc_slice_result(s, home, off, len), d),
        c.reg(0) != 0 ==> {
            &&& fetch(d.mem, c.reg(5) + home, 2) == 0
            &&& fetch(d.mem, c.reg(5) + home + off, 8) == c.reg(0)
            &&& fetch(d.mem, c.reg(5) + home + off + 8, 8) == scalar_word(env, c, len).unwrap()
        },
        c.reg(0) == 0 ==> fetch(d.mem, c.reg(5) + home, 2) == env.oom_tag(),
        same_outside(c.mem, d.mem, c.reg(5) + home, off + 16),
        kept_but(c, d, scratch()),
{
    assert(index(Gpr::Rax) == 0 && index(Gpr::Rbp) == 5);
    let oom = s.text.fresh();
    let done = s.on(s.text.new_label()).text.fresh();
    let s2 = s.on(s.text.new_label());
    let s2 = s2.on(s2.text.new_label());
    let t = null_tested(s);
    let t1 = t.on(t.text.jcc_local(Cc::E, oom));
    let t3 = slice_stored(env, s, home, off, len);
    let cell2 = sum32(sum32(home, off), 8);
    let t4 = t3.on(t3.text.mov_store_mem(Gpr::Rbp, cell2, Gpr::Rcx));
    let t5 = tag_stored(t4, home, 0);
    let t6 = t5.on(t5.text.jmp_local(done));
    let t7 = t6.on(t6.text.bind(oom));
    let t8 = tag_stored(t7, home, env.oom_tag() as i64);
    let t9 = t8.on(t8.text.bind(done));
    takes_nothing(s2, c);
    let c1 = follow_test_rr(s2, s2, Gpr::Rax, Gpr::Rax, c, c);
    with_itself(c.reg(0));
    assert(tells(c1, Cc::E) == Some(c.reg(0) == 0));
    assert(c1.regs == c.regs && c1.mem == c.mem);
    assert(kept_but(c, c1, scratch()));
    assert(scalar_word(env, c1, len) == scalar_word(env, c, len));
    assert(stands_beside(env, c1, len, c.reg(5) + home, off + 16)) by {
        assert forall|k: Cpu|
            kept_but(c1, k, scratch()) && same_outside(
                c1.mem,
                k.mem,
                c.reg(5) + home,
                off + 16,
            ) implies #[trigger] scalar_word(env, k, len) == scalar_word(env, c1, len) by {
            assert(kept_but(c, k, scratch())) by {
                assert forall|q: Gpr| !scratch().contains(q) implies #[trigger] k.reg(index(q))
                    == c.reg(index(q)) by {
                    assert(k.reg(index(q)) == c1.reg(index(q)));
                }
            }
        }
    }
    let (c3, c5) = slice_store_runs(env, s, home, off, len, c1);
    assert(env.write_alloc_slice_result(s, home, off, len) == t9) by {
        reveal(Env::write_alloc_slice_result);
    }
    slice_code_extends(env, s, t3, home, cell2);
    starts_trans(w, t9.text.instrs, t8.text.instrs);
    starts_trans(w, t9.text.instrs, t7.text.instrs);
    starts_trans(w, t9.text.instrs, t6.text.instrs);
    starts_trans(w, t9.text.instrs, t5.text.instrs);
    starts_trans(w, t9.text.instrs, t3.text.instrs);
    straight_on(w, t1, t3, c1, c3);
    assert(within(w, t)) by {
        reveal(AsmState::jcc_local);
        assert(t1.text.instrs.take(t.text.instrs.len() as int) =~= t.text.instrs);
        starts_trans(w, t1.text.instrs, t.text.instrs);
    }
    straight_on(w, s2, t, c, c1);
    assert(reaches(w, s, c, t, c1));
    if c.reg(0) == 0 {
        branch_taken(w, t, Cc::E, oom, t6, c1);
        onwards(w, s, c, t, c1, t6, c1);
        past_label(w, t6, oom, c1);
        onwards(w, s, c, t6, c1, t7, c1);
        takes_nothing(t7, c1);
        let d = tag_store_runs(t7, t7, home, env.oom_tag(), c1, c1);
        straight_on(w, t7, t8, c1, d);
        onwards(w, s, c, t7, c1, t8, d);
        past_label(w, t8, done, d);
        onwards(w, s, c, t8, d, t9, d);
        assert forall|q: Gpr| !scratch().contains(q) implies #[trigger] d.reg(index(q)) == c.reg(
            index(q),
        ) by {
            assert(d.reg(index(q)) == c1.reg(index(q)));
        }
        d
    } else {
        branch_passed(w, t, Cc::E, oom, c1);
        onwards(w, s, c, t, c1, t1, c1);
        straight_on(w, t1, t5, c1, c5);
        onwards(w, s, c, t1, c1, t5, c5);
        jump_comes(w, t5, done, t8, c5);
        onwards(w, s, c, t5, c5, t8, c5);
        past_label(w, t8, done, c5);
        onwards(w, s, c, t8, c5, t9, c5);
        assert forall|q: Gpr| !scratch().contains(q) implies #[trigger] c5.reg(index(q)) == c.reg(
            index(q),
        ) by {
            assert(c5.reg(index(q)) == c1.reg(index(q)));
        }
        c5
    }
}

// ---------------------------------------------------------------------------
//  What the runtime is asked for
// ---------------------------------------------------------------------------

/// Whether the word of an operand is the same whatever stands in the registers that
/// expressions use and in the `n` bytes below the stack pointer.
pub open spec fn stands_above(env: Env, c: Cpu, op: Operand, n: int) -> bool {
    forall|d: Cpu|
        kept_but(c, d, scratch().insert(Gpr::Rsp)) && same_outside(
            c.mem,
            d.mem,
            c.reg(4) - n,
            n,
        ) ==> #[trigger] scalar_word(env, d, op) == scalar_word(env, c, op)
}

/// The handle of the allocator that an operation is asked of: the value that the path starts
/// at, or zero.
pub open spec fn handle_word(env: Env, c: Cpu, path: IntrinsicPath) -> Option<u64> {
    match path.root {
        IntrinsicRoot::Value(op) => scalar_word(env, c, op),
        _ => Some(0),
    }
}

/// Whether the handle of an allocator can be loaded with `n` bytes below the stack pointer in
/// use.
pub open spec fn handle_loads(env: Env, c: Cpu, path: IntrinsicPath, n: int) -> bool {
    &&& handle_word(env, c, path) is Some
    &&& path.root matches IntrinsicRoot::Value(op) ==> addressable(env, op) && loads_into(
        env,
        op,
        Gpr::Rdi,
    ) && stands_above(env, c, op, n)
}

/// Whether no index of an operand lives in a register.
pub open spec fn loads_into(env: Env, op: Operand, r: Gpr) -> bool {
    op matches Operand::Copy(p) ==> no_index_in(env, p, r)
}

#[verifier::spinoff_prover]
proof fn handle_is_loaded(env: Env, s: LowState, path: IntrinsicPath, b: Cpu, n: int, c: Cpu) -> (d:
    Cpu)
    requires
        c.wf(),
        s.err is None,
        handle_loads(env, b, path, n),
        kept_but(b, c, scratch().insert(Gpr::Rsp)),
        same_outside(b.mem, c.mem, b.reg(4) - n, n),
    ensures
        takes(s, env.handle_to(s, path, Gpr::Rdi), c, d),
        env.handle_to(s, path, Gpr::Rdi).err is None,
        Some(d.reg(7)) == handle_word(env, b, path),
        kept_but(c, d, set![Gpr::Rdi, Gpr::R10, Gpr::R11]),
        d.mem == c.mem,
{
    reveal(Env::handle_to);
    assert(index(Gpr::Rdi) == 7);
    takes_nothing(s, c);
    match path.root {
        IntrinsicRoot::Value(op) => {
            assert(scalar_word(env, c, op) == scalar_word(env, b, op));
            scalar_loads(env, s, op, Gpr::Rdi, c)
        },
        _ => {
            let d = follow_mov_ri(s, s, Gpr::Rdi, 0, c, c);
            assert forall|q: Gpr| !set![Gpr::Rdi, Gpr::R10, Gpr::R11].contains(q) implies
                #[trigger] d.reg(index(q)) == c.reg(index(q)) by {
                assert(q != Gpr::Rdi);
                gpr_codes_distinct(q, Gpr::Rdi);
            }
            d
        },
    }
}

proof fn widened_keep(c: Cpu, d: Cpu, changed: Set<Gpr>)
    requires
        kept_but(c, d, changed),
        changed.subset_of(scratch()),
    ensures
        kept_but(c, d, scratch()),
        kept_but(c, d, scratch().insert(Gpr::Rsp)),
        d.reg(4) == c.reg(4),
{
    assert(index(Gpr::Rsp) == 4);
    assert(!scratch().contains(Gpr::Rsp));
    assert(d.reg(index(Gpr::Rsp)) == c.reg(index(Gpr::Rsp)));
    assert forall|r: Gpr| !scratch().contains(r) implies #[trigger] d.reg(index(r)) == c.reg(
        index(r),
    ) by {
        assert(!changed.contains(r));
    }
}

/// A creation asks the runtime for one element of the size of the type, of the allocator that
/// is named, and what the runtime returns is stored as the value of the result.
#[verifier::spinoff_prover]
pub proof fn creation_is_asked_for(
    env: Env,
    s: LowState,
    home: i32,
    off: i32,
    path: IntrinsicPath,
    args: Seq<Operand>,
    c: Cpu,
) -> (r: (LowState, Cpu))
    requires
        c.wf(),
        s.err is None,
        handle_loads(env, c, path, 0),
        env.natural_stride(env.undef_carrier_ty(args)) <= i64::MAX,
    ensures
        takes(s, r.0, c, r.1),
        env.lower_create(s, home, off, path, args) == env.write_eu_ok_ptr(
            r.0.on(r.0.text.call_runtime(RuntimeFn::Alloc)),
            home,
            off,
            Gpr::Rax,
        ),
        Some(r.1.reg(7)) == handle_word(env, c, path),
        r.1.reg(6) == 1,
        r.1.reg(2) == env.natural_stride(env.undef_carrier_ty(args)),
        r.1.mem == c.mem,
        kept_but(c, r.1, scratch()),
{
    assert(index(Gpr::Rdi) == 7 && index(Gpr::Rsi) == 6 && index(Gpr::Rdx) == 2);
    let size = env.natural_stride(env.undef_carrier_ty(args));
    let t1 = env.handle_to(s, path, Gpr::Rdi);
    let c1 = handle_is_loaded(env, s, path, c, 0, c);
    widened_keep(c, c1, set![Gpr::Rdi, Gpr::R10, Gpr::R11]);
    let t2 = t1.on(t1.text.mov_ri(Gpr::Rsi, 1));
    let c2 = follow_mov_ri(s, t1, Gpr::Rsi, 1, c, c1);
    let t3 = t2.on(t2.text.mov_ri(Gpr::Rdx, size as i64));
    let d = follow_mov_ri(s, t2, Gpr::Rdx, size as i64, c, c2);
    assert(env.lower_create(s, home, off, path, args) == env.write_eu_ok_ptr(
        t3.on(t3.text.call_runtime(RuntimeFn::Alloc)),
        home,
        off,
        Gpr::Rax,
    )) by {
        reveal(Env::lower_create);
    }
    assert forall|q: Gpr| !scratch().contains(q) implies #[trigger] d.reg(index(q)) == c.reg(
        index(q),
    ) by {
        gpr_codes_distinct(q, Gpr::Rsi);
        gpr_codes_distinct(q, Gpr::Rdx);
        assert(c1.reg(index(q)) == c.reg(index(q)));
    }
    (t3, d)
}

/// The code that keeps a word in `rsi` while the handle is loaded.
pub open spec fn handle_beside(env: Env, t: LowState, path: IntrinsicPath) -> LowState {
    let t = t.on(t.text.push(Gpr::Rsi));
    let t = env.handle_to(t, path, Gpr::Rdi);
    t.on(t.text.pop(Gpr::Rsi))
}

#[verifier::spinoff_prover]
#[verifier::rlimit(40)]
proof fn handle_comes_beside(
    env: Env,
    s: LowState,
    t: LowState,
    path: IntrinsicPath,
    c: Cpu,
    d: Cpu,
) -> (e: Cpu)
    requires
        takes(s, t, c, d),
        t.err is None,
        kept_but(c, d, scratch()),
        d.mem == c.mem,
        handle_loads(env, c, path, 8),
        8 <= c.reg(4),
    ensures
        takes(s, handle_beside(env, t, path), c, e),
        env.handle_to(t.on(t.text.push(Gpr::Rsi)), path, Gpr::Rdi).err is None,
        e.reg(6) == d.reg(6),
        Some(e.reg(7)) == handle_word(env, c, path),
        kept_but(c, e, scratch()),
        same_outside(c.mem, e.mem, c.reg(4) - 8, 8),
{
    assert(index(Gpr::Rdi) == 7 && index(Gpr::Rsi) == 6 && index(Gpr::Rsp) == 4);
    assert(d.reg(index(Gpr::Rsp)) == c.reg(index(Gpr::Rsp))) by {
        assert(!scratch().contains(Gpr::Rsp));
    }
    let t1 = t.on(t.text.push(Gpr::Rsi));
    let d1 = follow_push(s, t, Gpr::Rsi, c, d);
    assert(kept_but(c, d1, scratch().insert(Gpr::Rsp))) by {
        assert forall|q: Gpr| !scratch().insert(Gpr::Rsp).contains(q) implies #[trigger] d1.reg(
            index(q),
        ) == c.reg(index(q)) by {
            assert(q != Gpr::Rsp && !scratch().contains(q));
            gpr_codes_distinct(q, Gpr::Rsp);
            assert(d.reg(index(q)) == c.reg(index(q)));
        }
    }
    let t2 = env.handle_to(t1, path, Gpr::Rdi);
    let d2 = handle_is_loaded(env, t1, path, c, 8, d1);
    takes_compose(s, t1, t2, c, d1, d2);
    assert(d2.reg(index(Gpr::Rsp)) == d1.reg(index(Gpr::Rsp)));
    written_is_read(d.mem, c.reg(4) - 8, 8, d.reg(6) as int);
    pow256_values();
    let e = follow_pop(s, t2, Gpr::Rsi, c, d2);
    assert forall|q: Gpr| !scratch().contains(q) implies #[trigger] e.reg(index(q)) == c.reg(
        index(q),
    ) by {
        if q == Gpr::Rsp {
        } else {
            gpr_codes_distinct(q, Gpr::Rsp);
            gpr_codes_distinct(q, Gpr::Rsi);
            assert(!set![Gpr::Rdi, Gpr::R10, Gpr::R11].contains(q));
            assert(d2.reg(index(q)) == d1.reg(index(q)));
            assert(!scratch().insert(Gpr::Rsp).contains(q));
            assert(d1.reg(index(q)) == c.reg(index(q)));
        }
    }
    e
}

/// An allocation of a slice asks the runtime for as many elements as the operand says, of the
/// size of the type, of the allocator that is named; what the runtime returns is stored as the
/// slice of the result, with that operand as its length.
#[verifier::spinoff_prover]
#[verifier::rlimit(40)]
pub proof fn slice_is_asked_for(
    env: Env,
    s: LowState,
    home: i32,
    off: i32,
    path: IntrinsicPath,
    args: Seq<Operand>,
    i: usize,
    c: Cpu,
) -> (r: (LowState, Cpu))
    requires
        c.wf(),
        s.err is None,
        env.last_of(args, Want::Real) == Some(i),
        addressable(env, args[i as int]),
        loads_into(env, args[i as int], Gpr::Rsi),
        scalar_word(env, c, args[i as int]) is Some,
        handle_loads(env, c, path, 8),
        8 <= c.reg(4),
        env.slice_elem_stride(env.undef_carrier_ty(args)) <= i64::MAX,
    ensures
        takes(s, r.0, c, r.1),
        env.lower_alloc(s, home, off, path, args) == env.write_alloc_slice_result(
            r.0.on(r.0.text.call_runtime(RuntimeFn::Alloc)),
            home,
            off,
            args[i as int],
        ),
        Some(r.1.reg(7)) == handle_word(env, c, path),
        Some(r.1.reg(6)) == scalar_word(env, c, args[i as int]),
        r.1.reg(2) == env.slice_elem_stride(env.undef_carrier_ty(args)),
        kept_but(c, r.1, scratch()),
        same_outside(c.mem, r.1.mem, c.reg(4) - 8, 8),
{
    assert(index(Gpr::Rdi) == 7 && index(Gpr::Rsi) == 6 && index(Gpr::Rdx) == 2);
    let op = args[i as int];
    let size = env.slice_elem_stride(env.undef_carrier_ty(args));
    let t1 = env.operand_to(s, op, Gpr::Rsi);
    let c1 = scalar_loads(env, s, op, Gpr::Rsi, c);
    widened_keep(c, c1, set![Gpr::Rsi, Gpr::R10, Gpr::R11]);
    let t2 = handle_beside(env, t1, path);
    let c2 = handle_comes_beside(env, s, t1, path, c, c1);
    let t3 = t2.on(t2.text.mov_ri(Gpr::Rdx, size as i64));
    let d = follow_mov_ri(s, t2, Gpr::Rdx, size as i64, c, c2);
    assert(env.lower_alloc(s, home, off, path, args) == env.write_alloc_slice_result(
        t3.on(t3.text.call_runtime(RuntimeFn::Alloc)),
        home,
        off,
        op,
    )) by {
        reveal(Env::lower_alloc);
    }
    assert forall|q: Gpr| !scratch().contains(q) implies #[trigger] d.reg(index(q)) == c.reg(
        index(q),
    ) by {
        gpr_codes_distinct(q, Gpr::Rdx);
        assert(c2.reg(index(q)) == c.reg(index(q)));
    }
    (t3, d)
}

/// The pointer that an operand releases: that of a slice in a place, or a pointer itself.
pub open spec fn released(env: Env, c: Cpu, op: Operand) -> Option<u64> {
    if env.operand_is_slice(op) {
        match op {
            Operand::Copy(p) => match address_of(env, c, p, p.proj@.len() as usize) {
                Some(a) => if in_space(a as int, 8) {
                    Some(fetch(c.mem, a as int, 8) as u64)
                } else {
                    None
                },
                None => None,
            },
            Operand::Const(_) => None,
        }
    } else {
        scalar_word(env, c, op)
    }
}

#[verifier::spinoff_prover]
proof fn pointer_is_loaded(env: Env, s: LowState, op: Operand, c: Cpu) -> (d: Cpu)
    requires
        c.wf(),
        s.err is None,
        addressable(env, op),
        loads_into(env, op, Gpr::Rsi),
        released(env, c, op) is Some,
    ensures
        takes(s, env.load_ptr_operand(s, op, Gpr::Rsi), c, d),
        env.load_ptr_operand(s, op, Gpr::Rsi).err is None,
        env.operand_is_slice(op) ==> env.load_ptr_operand(s, op, Gpr::Rsi) == env.load_slice_ptr(
            s,
            op,
            Gpr::Rsi,
        ),
        Some(d.reg(6)) == released(env, c, op),
        kept_but(c, d, set![Gpr::Rsi, Gpr::R10, Gpr::R11]),
        d.mem == c.mem,
{
    reveal(Env::load_ptr_operand);
    reveal(Env::load_slice_ptr);
    assert(index(Gpr::Rsi) == 6);
    if env.operand_is_slice(op) {
        let p = op->Copy_0;
        let n = p.proj@.len() as usize;
        general_address(env, s, p, n, Gpr::Rsi, c);
        let t1 = env.place_addr(s, p, n, Gpr::Rsi);
        let c1 = address_is_right(env, s, p, n, Gpr::Rsi, c);
        fetched_is_word(c.mem, c1.reg(6) as int, 8);
        fetch_bounded(c.mem, c1.reg(6) as int, 8);
        pow256_values();
        let d = follow_mov_load_mem(s, t1, Gpr::Rsi, Gpr::Rsi, 0, c, c1);
        assert forall|q: Gpr| !set![Gpr::Rsi, Gpr::R10, Gpr::R11].contains(q) implies
            #[trigger] d.reg(index(q)) == c.reg(index(q)) by {
            assert(q != Gpr::Rsi && q != Gpr::R10);
            gpr_codes_distinct(q, Gpr::Rsi);
            gpr_codes_distinct(q, Gpr::R10);
            assert(c1.reg(index(q)) == c.reg(index(q)));
        }
        d
    } else {
        scalar_loads(env, s, op, Gpr::Rsi, c)
    }
}

/// A release gives the runtime the pointer of what is released, the allocator that is named,
/// and whether safety checks are left out.
#[verifier::spinoff_prover]
#[verifier::rlimit(40)]
pub proof fn release_is_asked_for(
    env: Env,
    s: LowState,
    path: IntrinsicPath,
    args: Seq<Operand>,
    i: usize,
    c: Cpu,
) -> (r: (LowState, Cpu))
    requires
        c.wf(),
        s.err is None,
        env.first_of(args, Want::Real) == Some(i),
        addressable(env, args[i as int]),
        loads_into(env, args[i as int], Gpr::Rsi),
        released(env, c, args[i as int]) is Some,
        handle_loads(env, c, path, 8),
        8 <= c.reg(4),
    ensures
        takes(s, r.0, c, r.1),
        env.lower_free_op(s, path, args) == r.0.on(r.0.text.call_runtime(RuntimeFn::Free)),
        Some(r.1.reg(7)) == handle_word(env, c, path),
        Some(r.1.reg(6)) == released(env, c, args[i as int]),
        r.1.reg(2) == (if env.checks_off() {
            1u64
        } else {
            0u64
        }),
        kept_but(c, r.1, scratch()),
        same_outside(c.mem, r.1.mem, c.reg(4) - 8, 8),
{
    assert(index(Gpr::Rdi) == 7 && index(Gpr::Rsi) == 6 && index(Gpr::Rdx) == 2);
    let op = args[i as int];
    let t1 = env.load_ptr_operand(s, op, Gpr::Rsi);
    let c1 = pointer_is_loaded(env, s, op, c);
    widened_keep(c, c1, set![Gpr::Rsi, Gpr::R10, Gpr::R11]);
    let t2 = handle_beside(env, t1, path);
    let c2 = handle_comes_beside(env, s, t1, path, c, c1);
    let t3 = t2.on(t2.text.mov_ri(Gpr::Rdx, env.checks_off_word()));
    let d = follow_mov_ri(s, t2, Gpr::Rdx, env.checks_off_word(), c, c2);
    assert(env.lower_free_op(s, path, args) == t3.on(t3.text.call_runtime(RuntimeFn::Free))) by {
        reveal(Env::lower_free_op);
    }
    assert forall|q: Gpr| !scratch().contains(q) implies #[trigger] d.reg(index(q)) == c.reg(
        index(q),
    ) by {
        gpr_codes_distinct(q, Gpr::Rdx);
        assert(c2.reg(index(q)) == c.reg(index(q)));
    }
    (t3, d)
}

} // verus!
