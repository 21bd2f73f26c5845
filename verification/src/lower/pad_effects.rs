//! What padding code does to a field that was rendered: where its bytes go and what stands
//! around them.
use vstd::prelude::*;

use crate::behavior::labels_once;
use crate::bytes::wrap64;
use crate::encode::{AsmState, Cc, LabelId};
use crate::fmt_native::{Align, Spec};
use crate::lower::effects::{takes, takes_nothing, tells, with_itself};
use crate::lower::env::{Env, LowState};
use crate::lower::follow::{
    follow_add_ri, follow_add_rr, follow_cmp_rr, follow_mov_load_mem, follow_mov_ri, follow_mov_rr,
    follow_mov_store8_mem, follow_movzx8_mem, follow_shr_ri, follow_sub_rr, follow_test_rr,
};
use crate::lower::intr::ONE_LESS;
use crate::lower::loops::{
    branch_passed, branch_taken, jump_comes, onwards, past_label, reaches, starts, starts_trans,
    straight_on, within,
};
use crate::lower::mem_effects::{fetched_is_word, kept_but};
use crate::lower::print::FIELD_START_SLOT;
use crate::lower::print_effects::byte_moves;
use crate::lower::wide_effects::{keeping_follows, same_outside, scratch};
use crate::machine::{
    Bytes, Cpu, SPAN, Shift, byte_at, fetch, fetch_bounded, fetch_same, in_space, pow256_values,
    shifted,
};
use crate::peephole::Ins;

use crate::reg::{Gpr, gpr_codes_distinct};
use crate::steps::index;
use vstd::arithmetic::power2::{lemma2_to64, pow2};

verus! {

// ---------------------------------------------------------------------------
//  Runs of a byte
// ---------------------------------------------------------------------------

/// Whether `k` is `m` with `n` times a byte at `a`.
pub open spec fn filled(m: Bytes, k: Bytes, a: int, n: int, fill: u8) -> bool {
    forall|x: int| #[trigger]
        k(x) == if a <= x < a + n {
            fill
        } else {
            m(x)
        }
}

/// One byte of a run.
pub open spec fn fill_byte(t: LowState, dst: Gpr, count: Gpr, fill: i64) -> LowState {
    let t = t.on(t.text.mov_ri(Gpr::Rax, fill));
    let t = t.on(t.text.mov_store8_mem(dst, 0, Gpr::Rax));
    let t = t.on(t.text.add_ri(dst, 1));
    t.on(t.text.add_ri(count, ONE_LESS))
}

/// The label of a run and its test.
pub open spec fn fill_tested(s: LowState, top: LabelId, count: Gpr) -> LowState {
    let t = s.on(s.text.bind(top));
    t.on(t.text.test_rr(count, count))
}

/// A run up to its jump back.
pub open spec fn fill_turned(
    s: LowState,
    top: LabelId,
    end: LabelId,
    dst: Gpr,
    count: Gpr,
    fill: i64,
) -> LowState {
    let t = fill_tested(s, top, count);
    let t = t.on(t.text.jcc_local(Cc::E, end));
    let t = fill_byte(t, dst, count, fill);
    t.on(t.text.jmp_local(top))
}

/// A run.
pub open spec fn fill_done(
    s: LowState,
    top: LabelId,
    end: LabelId,
    dst: Gpr,
    count: Gpr,
    fill: i64,
) -> LowState {
    let t = fill_turned(s, top, end, dst, count, fill);
    t.on(t.text.bind(end))
}

proof fn fill_parts(
    w: Seq<Ins>,
    s: LowState,
    top: LabelId,
    end: LabelId,
    dst: Gpr,
    count: Gpr,
    fill: i64,
)
    requires
        within(w, fill_done(s, top, end, dst, count, fill)),
    ensures
        ({
            let t1 = s.on(s.text.bind(top));
            let t2 = fill_tested(s, top, count);
            let t3 = t2.on(t2.text.jcc_local(Cc::E, end));
            &&& within(w, s)
            &&& within(w, t1)
            &&& within(w, t2)
            &&& within(w, t3)
            &&& within(w, fill_byte(t3, dst, count, fill))
            &&& within(w, fill_turned(s, top, end, dst, count, fill))
        }),
{
    reveal(AsmState::test_rr);
    reveal(AsmState::jcc_local);
    reveal(AsmState::jmp_local);
    reveal(AsmState::mov_ri);
    reveal(AsmState::mov_store8_mem);
    reveal(AsmState::add_ri);
    let t1 = s.on(s.text.bind(top));
    let t2 = fill_tested(s, top, count);
    let t3 = t2.on(t2.text.jcc_local(Cc::E, end));
    let t4 = fill_byte(t3, dst, count, fill);
    let t5 = fill_turned(s, top, end, dst, count, fill);
    let t6 = fill_done(s, top, end, dst, count, fill);
    let z = t6.text.instrs;
    assert(z.take(t5.text.instrs.len() as int) =~= t5.text.instrs);
    assert(z.take(t4.text.instrs.len() as int) =~= t4.text.instrs);
    assert(z.take(t3.text.instrs.len() as int) =~= t3.text.instrs);
    assert(z.take(t2.text.instrs.len() as int) =~= t2.text.instrs);
    assert(z.take(t1.text.instrs.len() as int) =~= t1.text.instrs);
    assert(z.take(s.text.instrs.len() as int) =~= s.text.instrs);
    starts_trans(w, z, t5.text.instrs);
    starts_trans(w, z, t4.text.instrs);
    starts_trans(w, z, t3.text.instrs);
    starts_trans(w, z, t2.text.instrs);
    starts_trans(w, z, t1.text.instrs);
    starts_trans(w, z, s.text.instrs);
}

proof fn fill_byte_is(fill: u8)
    ensures
        byte_at(fill as int, 0) == fill,
{
    reveal_with_fuel(byte_at, 2);
}

/// Whether a run can be written through two registers.
pub open spec fn fill_regs(dst: Gpr, count: Gpr) -> bool {
    &&& dst != count
    &&& dst == Gpr::R11 || dst == Gpr::Rdi
    &&& count == Gpr::R9 || count == Gpr::R10
}

#[verifier::spinoff_prover]
proof fn fill_byte_runs(
    s: LowState,
    t: LowState,
    dst: Gpr,
    count: Gpr,
    fill: u8,
    c: Cpu,
    d: Cpu,
) -> (e: Cpu)
    requires
        takes(s, t, c, d),
        d.wf(),
        fill_regs(dst, count),
        d.reg(index(dst)) + 1 < SPAN,
        d.reg(index(count)) > 0,
    ensures
        takes(s, fill_byte(t, dst, count, fill as i64), c, e),
        kept_but(d, e, set![Gpr::Rax, dst, count]),
        e.reg(index(dst)) == d.reg(index(dst)) + 1,
        e.reg(index(count)) == d.reg(index(count)) - 1,
        filled(d.mem, e.mem, d.reg(index(dst)) as int, 1, fill),
{
    assert(index(Gpr::Rax) == 0 && index(Gpr::R11) == 11 && index(Gpr::Rdi) == 7);
    assert(index(Gpr::R9) == 9 && index(Gpr::R10) == 10);
    fill_byte_is(fill);
    let t1 = t.on(t.text.mov_ri(Gpr::Rax, fill as i64));
    let d1 = follow_mov_ri(s, t, Gpr::Rax, fill as i64, c, d);
    assert(d1.reg(0) == fill);
    let t2 = t1.on(t1.text.mov_store8_mem(dst, 0, Gpr::Rax));
    let d2 = follow_mov_store8_mem(s, t1, dst, 0, Gpr::Rax, c, d1);
    let t3 = t2.on(t2.text.add_ri(dst, 1));
    let d3 = follow_add_ri(s, t2, dst, 1, c, d2);
    let e = follow_add_ri(s, t3, count, ONE_LESS, c, d3);
    assert forall|r: Gpr| !set![Gpr::Rax, dst, count].contains(r) implies #[trigger] e.reg(index(r))
        == d.reg(index(r)) by {
        assert(r != Gpr::Rax && r != dst && r != count);
        gpr_codes_distinct(r, Gpr::Rax);
        gpr_codes_distinct(r, dst);
        gpr_codes_distinct(r, count);
    }
    e
}

#[verifier::spinoff_prover]
#[verifier::rlimit(30)]
proof fn fill_loops(
    w: Seq<Ins>,
    s: LowState,
    top: LabelId,
    end: LabelId,
    dst: Gpr,
    count: Gpr,
    fill: u8,
    c: Cpu,
) -> (d: Cpu)
    requires
        labels_once(w),
        within(w, fill_done(s, top, end, dst, count, fill as i64)),
        c.wf(),
        fill_regs(dst, count),
        c.reg(index(dst)) + c.reg(index(count)) < SPAN,
    ensures
        reaches(w, s, c, fill_done(s, top, end, dst, count, fill as i64), d),
        kept_but(c, d, set![Gpr::Rax, dst, count]),
        d.reg(index(dst)) == c.reg(index(dst)) + c.reg(index(count)),
        filled(c.mem, d.mem, c.reg(index(dst)) as int, c.reg(index(count)) as int, fill),
    decreases c.reg(index(count)),
{
    fill_parts(w, s, top, end, dst, count, fill as i64);
    let n = c.reg(index(count));
    let t1 = s.on(s.text.bind(top));
    let t2 = fill_tested(s, top, count);
    let t3 = t2.on(t2.text.jcc_local(Cc::E, end));
    let t4 = fill_byte(t3, dst, count, fill as i64);
    let t5 = fill_turned(s, top, end, dst, count, fill as i64);
    let t6 = fill_done(s, top, end, dst, count, fill as i64);
    past_label(w, s, top, c);
    takes_nothing(t1, c);
    let c2 = follow_test_rr(t1, t1, count, count, c, c);
    straight_on(w, t1, t2, c, c2);
    onwards(w, s, c, t1, c, t2, c2);
    with_itself(n);
    assert(tells(c2, Cc::E) == Some(n == 0));
    assert(c2.regs == c.regs && c2.mem == c.mem);
    if n == 0 {
        branch_taken(w, t2, Cc::E, end, t5, c2);
        onwards(w, s, c, t2, c2, t5, c2);
        past_label(w, t5, end, c2);
        onwards(w, s, c, t5, c2, t6, c2);
        c2
    } else {
        branch_passed(w, t2, Cc::E, end, c2);
        onwards(w, s, c, t2, c2, t3, c2);
        takes_nothing(t3, c2);
        let c4 = fill_byte_runs(t3, t3, dst, count, fill, c2, c2);
        straight_on(w, t3, t4, c2, c4);
        onwards(w, s, c, t3, c2, t4, c4);
        jump_comes(w, t4, top, s, c4);
        onwards(w, s, c, t4, c4, s, c4);
        let d = fill_loops(w, s, top, end, dst, count, fill, c4);
        onwards(w, s, c, s, c4, t6, d);
        let a = c.reg(index(dst)) as int;
        let m = c.mem;
        let k = c4.mem;
        assert forall|x: int| #[trigger]
            (d.mem)(x) == if a <= x < a + n {
                fill
            } else {
                m(x)
            } by {
            assert(k(x) == if a <= x < a + 1 {
                fill
            } else {
                m(x)
            });
        }
        assert forall|r: Gpr| !set![Gpr::Rax, dst, count].contains(r) implies #[trigger] d.reg(
            index(r),
        ) == c.reg(index(r)) by {
            assert(c4.reg(index(r)) == c2.reg(index(r)));
        }
        d
    }
}

/// Code that writes a byte as often as a register says does so.
#[verifier::spinoff_prover]
pub proof fn run_is_written(
    env: Env,
    w: Seq<Ins>,
    s: LowState,
    dst: Gpr,
    count: Gpr,
    fill: u8,
    c: Cpu,
) -> (d: Cpu)
    requires
        labels_once(w),
        within(w, env.emit_fill_run(s, dst, count, fill as i64)),
        c.wf(),
        fill_regs(dst, count),
        c.reg(index(dst)) + c.reg(index(count)) < SPAN,
    ensures
        within(w, s),
        reaches(w, s, c, env.emit_fill_run(s, dst, count, fill as i64), d),
        kept_but(c, d, set![Gpr::Rax, dst, count]),
        d.reg(index(dst)) == c.reg(index(dst)) + c.reg(index(count)),
        filled(c.mem, d.mem, c.reg(index(dst)) as int, c.reg(index(count)) as int, fill),
{
    reveal(Env::emit_fill_run);
    let top = s.text.fresh();
    let s1 = s.on(s.text.new_label());
    let end = s1.text.fresh();
    let s2 = s1.on(s1.text.new_label());
    assert(env.emit_fill_run(s, dst, count, fill as i64) == fill_done(
        s2,
        top,
        end,
        dst,
        count,
        fill as i64,
    ));
    fill_parts(w, s2, top, end, dst, count, fill as i64);
    fill_loops(w, s2, top, end, dst, count, fill, c)
}

// ---------------------------------------------------------------------------
//  Moving a field
// ---------------------------------------------------------------------------

/// Whether `k` is `m` with the `n` bytes at `a` copied to where they are `by` further on.
pub open spec fn moved(m: Bytes, k: Bytes, a: int, n: int, by: int) -> bool {
    forall|x: int| #[trigger]
        k(x) == if a + by <= x < a + by + n {
            m(x - by)
        } else {
            m(x)
        }
}

/// One byte of a move.
pub open spec fn move_byte(t: LowState, start: Gpr, pad: Gpr) -> LowState {
    let t = t.on(t.text.add_ri(Gpr::Rax, ONE_LESS));
    let t = t.on(t.text.mov_rr(Gpr::R11, start));
    let t = t.on(t.text.add_rr(Gpr::R11, Gpr::Rax));
    let t = t.on(t.text.movzx8_mem(Gpr::Rdx, Gpr::R11, 0));
    let t = t.on(t.text.add_rr(Gpr::R11, pad));
    t.on(t.text.mov_store8_mem(Gpr::R11, 0, Gpr::Rdx))
}

/// The label of a move and its test.
pub open spec fn move_tested(s: LowState, top: LabelId) -> LowState {
    let t = s.on(s.text.bind(top));
    t.on(t.text.test_rr(Gpr::Rax, Gpr::Rax))
}

/// A move up to its jump back.
pub open spec fn move_turned(
    s: LowState,
    top: LabelId,
    end: LabelId,
    start: Gpr,
    pad: Gpr,
) -> LowState {
    let t = move_tested(s, top);
    let t = t.on(t.text.jcc_local(Cc::E, end));
    let t = move_byte(t, start, pad);
    t.on(t.text.jmp_local(top))
}

/// A move.
pub open spec fn move_done(
    s: LowState,
    top: LabelId,
    end: LabelId,
    start: Gpr,
    pad: Gpr,
) -> LowState {
    let t = move_turned(s, top, end, start, pad);
    t.on(t.text.bind(end))
}

proof fn move_parts(w: Seq<Ins>, s: LowState, top: LabelId, end: LabelId, start: Gpr, pad: Gpr)
    requires
        within(w, move_done(s, top, end, start, pad)),
    ensures
        ({
            let t1 = s.on(s.text.bind(top));
            let t2 = move_tested(s, top);
            let t3 = t2.on(t2.text.jcc_local(Cc::E, end));
            &&& within(w, s)
            &&& within(w, t1)
            &&& within(w, t2)
            &&& within(w, t3)
            &&& within(w, move_byte(t3, start, pad))
            &&& within(w, move_turned(s, top, end, start, pad))
        }),
{
    reveal(AsmState::test_rr);
    reveal(AsmState::jcc_local);
    reveal(AsmState::jmp_local);
    reveal(AsmState::mov_rr);
    reveal(AsmState::movzx8_mem);
    reveal(AsmState::mov_store8_mem);
    reveal(AsmState::add_ri);
    reveal(AsmState::add_rr);
    let t1 = s.on(s.text.bind(top));
    let t2 = move_tested(s, top);
    let t3 = t2.on(t2.text.jcc_local(Cc::E, end));
    let t4 = move_byte(t3, start, pad);
    let t5 = move_turned(s, top, end, start, pad);
    let z = move_done(s, top, end, start, pad).text.instrs;
    assert(z.take(t5.text.instrs.len() as int) =~= t5.text.instrs);
    assert(z.take(t4.text.instrs.len() as int) =~= t4.text.instrs);
    assert(z.take(t3.text.instrs.len() as int) =~= t3.text.instrs);
    assert(z.take(t2.text.instrs.len() as int) =~= t2.text.instrs);
    assert(z.take(t1.text.instrs.len() as int) =~= t1.text.instrs);
    assert(z.take(s.text.instrs.len() as int) =~= s.text.instrs);
    starts_trans(w, z, t5.text.instrs);
    starts_trans(w, z, t4.text.instrs);
    starts_trans(w, z, t3.text.instrs);
    starts_trans(w, z, t2.text.instrs);
    starts_trans(w, z, t1.text.instrs);
    starts_trans(w, z, s.text.instrs);
}

/// Whether a field whose start and distance stand in two registers can be moved.
pub open spec fn move_regs(start: Gpr, pad: Gpr) -> bool {
    &&& start == Gpr::Rsi
    &&& pad == Gpr::R8 || pad == Gpr::R10
}

/// The part of a move that loads a byte.
pub open spec fn byte_taken(t: LowState, start: Gpr) -> LowState {
    let t = t.on(t.text.add_ri(Gpr::Rax, ONE_LESS));
    let t = t.on(t.text.mov_rr(Gpr::R11, start));
    let t = t.on(t.text.add_rr(Gpr::R11, Gpr::Rax));
    t.on(t.text.movzx8_mem(Gpr::Rdx, Gpr::R11, 0))
}

#[verifier::spinoff_prover]
proof fn byte_is_taken(s: LowState, t: LowState, c: Cpu, d: Cpu) -> (e: Cpu)
    requires
        takes(s, t, c, d),
        d.wf(),
        d.reg(0) > 0,
        d.reg(6) + d.reg(0) < SPAN,
    ensures
        takes(s, byte_taken(t, Gpr::Rsi), c, e),
        e.wf(),
        e.state == d.state,
        e.data == d.data,
        e.mem == d.mem,
        forall|r: int|
            0 <= r < 16 && r != 0 && r != 2 && r != 11 ==> #[trigger] e.reg(r) == d.reg(r),
        e.reg(0) == d.reg(0) - 1,
        e.reg(11) == d.reg(6) + d.reg(0) - 1,
        e.reg(2) == (d.mem)(d.reg(6) + d.reg(0) - 1),
{
    assert(index(Gpr::Rax) == 0 && index(Gpr::Rdx) == 2 && index(Gpr::R11) == 11);
    assert(index(Gpr::Rsi) == 6);
    byte_moves(d.mem, d.reg(6) + d.reg(0) - 1);
    let t1 = t.on(t.text.add_ri(Gpr::Rax, ONE_LESS));
    let d1 = follow_add_ri(s, t, Gpr::Rax, ONE_LESS, c, d);
    let t2 = t1.on(t1.text.mov_rr(Gpr::R11, Gpr::Rsi));
    let d2 = follow_mov_rr(s, t1, Gpr::R11, Gpr::Rsi, c, d1);
    let t3 = t2.on(t2.text.add_rr(Gpr::R11, Gpr::Rax));
    let d3 = follow_add_rr(s, t2, Gpr::R11, Gpr::Rax, c, d2);
    assert(d3.reg(11) == d.reg(6) + d.reg(0) - 1);
    follow_movzx8_mem(s, t3, Gpr::Rdx, Gpr::R11, 0, c, d3)
}

#[verifier::spinoff_prover]
#[verifier::rlimit(40)]
proof fn move_byte_runs(s: LowState, t: LowState, start: Gpr, pad: Gpr, c: Cpu, d: Cpu) -> (e: Cpu)
    requires
        takes(s, t, c, d),
        d.wf(),
        move_regs(start, pad),
        d.reg(0) > 0,
        d.reg(index(start)) + d.reg(0) + d.reg(index(pad)) < SPAN,
    ensures
        takes(s, move_byte(t, start, pad), c, e),
        kept_but(d, e, set![Gpr::Rax, Gpr::Rdx, Gpr::R11]),
        e.reg(0) == d.reg(0) - 1,
        moved(
            d.mem,
            e.mem,
            d.reg(index(start)) + d.reg(0) - 1,
            1,
            d.reg(index(pad)) as int,
        ),
{
    assert(index(Gpr::Rdx) == 2 && index(Gpr::R11) == 11 && index(Gpr::Rsi) == 6);
    assert(index(Gpr::R8) == 8 && index(Gpr::R10) == 10);
    let from = d.reg(6) + d.reg(0) - 1;
    let by = d.reg(index(pad)) as int;
    byte_moves(d.mem, from);
    let t4 = byte_taken(t, Gpr::Rsi);
    let d4 = byte_is_taken(s, t, c, d);
    assert(d4.reg(index(pad)) == d.reg(index(pad)));
    let t5 = t4.on(t4.text.add_rr(Gpr::R11, pad));
    let d5 = follow_add_rr(s, t4, Gpr::R11, pad, c, d4);
    assert(d5.reg(11) == from + by && d5.reg(2) == (d.mem)(from) && d5.mem == d.mem);
    let e = follow_mov_store8_mem(s, t5, Gpr::R11, 0, Gpr::Rdx, c, d5);
    let m = d.mem;
    let k = e.mem;
    assert forall|x: int| #[trigger]
        k(x) == if from + by <= x < from + by + 1 {
            m(x - by)
        } else {
            m(x)
        } by {
        if x == from + by {
            assert(x - by == from);
        }
    }
    assert forall|r: Gpr| !set![Gpr::Rax, Gpr::Rdx, Gpr::R11].contains(r) implies #[trigger] e.reg(
        index(r),
    ) == d.reg(index(r)) by {
        assert(index(Gpr::Rax) == 0);
        gpr_codes_distinct(r, Gpr::Rax);
        gpr_codes_distinct(r, Gpr::Rdx);
        gpr_codes_distinct(r, Gpr::R11);
        assert(d4.reg(index(r)) == d.reg(index(r)));
    }
    e
}

#[verifier::spinoff_prover]
#[verifier::rlimit(30)]
proof fn move_loops(
    w: Seq<Ins>,
    s: LowState,
    top: LabelId,
    end: LabelId,
    start: Gpr,
    pad: Gpr,
    c: Cpu,
) -> (d: Cpu)
    requires
        labels_once(w),
        within(w, move_done(s, top, end, start, pad)),
        c.wf(),
        move_regs(start, pad),
        c.reg(index(start)) + c.reg(0) + c.reg(index(pad)) < SPAN,
    ensures
        reaches(w, s, c, move_done(s, top, end, start, pad), d),
        kept_but(c, d, set![Gpr::Rax, Gpr::Rdx, Gpr::R11]),
        moved(
            c.mem,
            d.mem,
            c.reg(index(start)) as int,
            c.reg(0) as int,
            c.reg(index(pad)) as int,
        ),
    decreases c.reg(0),
{
    move_parts(w, s, top, end, start, pad);
    assert(index(Gpr::Rax) == 0);
    let n = c.reg(0);
    let t1 = s.on(s.text.bind(top));
    let t2 = move_tested(s, top);
    let t3 = t2.on(t2.text.jcc_local(Cc::E, end));
    let t4 = move_byte(t3, start, pad);
    let t5 = move_turned(s, top, end, start, pad);
    let t6 = move_done(s, top, end, start, pad);
    past_label(w, s, top, c);
    takes_nothing(t1, c);
    let c2 = follow_test_rr(t1, t1, Gpr::Rax, Gpr::Rax, c, c);
    straight_on(w, t1, t2, c, c2);
    onwards(w, s, c, t1, c, t2, c2);
    with_itself(n);
    assert(tells(c2, Cc::E) == Some(n == 0));
    assert(c2.regs == c.regs && c2.mem == c.mem);
    if n == 0 {
        branch_taken(w, t2, Cc::E, end, t5, c2);
        onwards(w, s, c, t2, c2, t5, c2);
        past_label(w, t5, end, c2);
        onwards(w, s, c, t5, c2, t6, c2);
        c2
    } else {
        branch_passed(w, t2, Cc::E, end, c2);
        onwards(w, s, c, t2, c2, t3, c2);
        takes_nothing(t3, c2);
        let c4 = move_byte_runs(t3, t3, start, pad, c2, c2);
        straight_on(w, t3, t4, c2, c4);
        onwards(w, s, c, t3, c2, t4, c4);
        jump_comes(w, t4, top, s, c4);
        onwards(w, s, c, t4, c4, s, c4);
        assert(c4.reg(index(start)) == c.reg(index(start)));
        assert(c4.reg(index(pad)) == c.reg(index(pad)));
        let d = move_loops(w, s, top, end, start, pad, c4);
        onwards(w, s, c, s, c4, t6, d);
        let a = c.reg(index(start)) as int;
        let by = c.reg(index(pad)) as int;
        let m = c.mem;
        let k = c4.mem;
        assert forall|x: int| #[trigger]
            (d.mem)(x) == if a + by <= x < a + by + n {
                m(x - by)
            } else {
                m(x)
            } by {
            let y = x - by;
            let last = a + n - 1;
            assert(k(y) == if last + by <= y < last + by + 1 {
                m(y - by)
            } else {
                m(y)
            });
            assert(k(x) == if last + by <= x < last + by + 1 {
                m(x - by)
            } else {
                m(x)
            });
        }
        assert forall|r: Gpr| !set![Gpr::Rax, Gpr::Rdx, Gpr::R11].contains(r) implies
            #[trigger] d.reg(index(r)) == c.reg(index(r)) by {
            assert(c4.reg(index(r)) == c2.reg(index(r)));
        }
        d
    }
}

/// Code that moves a field to the right does so, whether or not the two places overlap.
#[verifier::spinoff_prover]
pub proof fn field_is_moved(env: Env, w: Seq<Ins>, s: LowState, pad: Gpr, c: Cpu) -> (d: Cpu)
    requires
        labels_once(w),
        within(w, env.shift_field_right(s, Gpr::Rsi, Gpr::Rcx, pad)),
        c.wf(),
        move_regs(Gpr::Rsi, pad),
        c.reg(6) + c.reg(1) + c.reg(index(pad)) < SPAN,
    ensures
        within(w, s),
        reaches(w, s, c, env.shift_field_right(s, Gpr::Rsi, Gpr::Rcx, pad), d),
        kept_but(c, d, set![Gpr::Rax, Gpr::Rdx, Gpr::R11]),
        moved(c.mem, d.mem, c.reg(6) as int, c.reg(1) as int, c.reg(index(pad)) as int),
{
    reveal(Env::shift_field_right);
    assert(index(Gpr::Rax) == 0 && index(Gpr::Rcx) == 1 && index(Gpr::Rsi) == 6);
    assert(index(Gpr::R8) == 8 && index(Gpr::R10) == 10);
    let s1 = s.on(s.text.mov_rr(Gpr::Rax, Gpr::Rcx));
    let top = s1.text.fresh();
    let s2 = s1.on(s1.text.new_label());
    let end = s2.text.fresh();
    let s3 = s2.on(s2.text.new_label());
    assert(env.shift_field_right(s, Gpr::Rsi, Gpr::Rcx, pad) == move_done(
        s3,
        top,
        end,
        Gpr::Rsi,
        pad,
    ));
    move_parts(w, s3, top, end, Gpr::Rsi, pad);
    takes_nothing(s, c);
    let c1 = follow_mov_rr(s, s, Gpr::Rax, Gpr::Rcx, c, c);
    straight_on(w, s, s1, c, c1);
    let d = move_loops(w, s3, top, end, Gpr::Rsi, pad, c1);
    let u = move_done(s3, top, end, Gpr::Rsi, pad);
    assert(reaches(w, s1, c1, u, d));
    onwards(w, s, c, s1, c1, u, d);
    assert forall|r: Gpr| !set![Gpr::Rax, Gpr::Rdx, Gpr::R11].contains(r) implies #[trigger] d.reg(
        index(r),
    ) == c.reg(index(r)) by {
        gpr_codes_distinct(r, Gpr::Rax);
        assert(d.reg(index(r)) == c1.reg(index(r)));
    }
    d
}

// ---------------------------------------------------------------------------
//  Padding
// ---------------------------------------------------------------------------

/// Whether `k` is `m` but for the `total` bytes at `f`: there stand the `n` bytes that stood at
/// `f`, with `front` times the fill byte in front of them and fill bytes behind.
pub open spec fn padded(
    m: Bytes,
    k: Bytes,
    f: int,
    n: int,
    front: int,
    total: int,
    fill: u8,
) -> bool {
    forall|x: int| #[trigger]
        k(x) == if f + front <= x < f + front + n {
            m(x - front)
        } else if f <= x < f + total {
            fill
        } else {
            m(x)
        }
}

/// Whether the word that says where a field starts stands on the stack, apart from the field.
pub open spec fn field_starts(c: Cpu, f: int, total: int) -> bool {
    let at = c.reg(4) + FIELD_START_SLOT;
    &&& in_space(at, 8)
    &&& fetch(c.mem, at, 8) == f
    &&& at + 8 <= f || f + total <= at
    &&& 0 <= f
    &&& f + total < SPAN
}

proof fn start_stays(c: Cpu, d: Cpu, f: int, total: int)
    requires
        field_starts(c, f, total),
        d.reg(4) == c.reg(4),
        same_outside(c.mem, d.mem, f, total),
    ensures
        field_starts(d, f, total),
{
    let at = c.reg(4) + FIELD_START_SLOT;
    let m = c.mem;
    let k = d.mem;
    assert forall|i: int| 0 <= i < 8 implies #[trigger] k(at + i) == m(at + i) by {}
    fetch_same(k, at, m, at, 8);
}

proof fn start_loads(s: LowState, t: LowState, dst: Gpr, f: int, total: int, c: Cpu, d: Cpu) -> (e:
    Cpu)
    requires
        takes(s, t, c, d),
        d.wf(),
        field_starts(d, f, total),
    ensures
        takes(s, t.on(t.text.mov_load_mem(dst, Gpr::Rsp, FIELD_START_SLOT)), c, e),
        e == d.put(index(dst), f),
{
    assert(index(Gpr::Rsp) == 4);
    let at = d.reg(4) + FIELD_START_SLOT;
    fetched_is_word(d.mem, at, 8);
    fetch_bounded(d.mem, at, 8);
    pow256_values();
    follow_mov_load_mem(s, t, dst, Gpr::Rsp, FIELD_START_SLOT, c, d)
}

proof fn run_within(env: Env, w: Seq<Ins>, s: LowState, dst: Gpr, count: Gpr, fill: i64)
    requires
        within(w, env.emit_fill_run(s, dst, count, fill)),
    ensures
        within(w, s),
{
    reveal(Env::emit_fill_run);
    let top = s.text.fresh();
    let s1 = s.on(s.text.new_label());
    let end = s1.text.fresh();
    let s2 = s1.on(s1.text.new_label());
    assert(env.emit_fill_run(s, dst, count, fill) == fill_done(s2, top, end, dst, count, fill));
    fill_parts(w, s2, top, end, dst, count, fill);
}

proof fn move_within(env: Env, w: Seq<Ins>, s: LowState, pad: Gpr)
    requires
        within(w, env.shift_field_right(s, Gpr::Rsi, Gpr::Rcx, pad)),
    ensures
        within(w, s),
{
    reveal(Env::shift_field_right);
    reveal(AsmState::mov_rr);
    let s1 = s.on(s.text.mov_rr(Gpr::Rax, Gpr::Rcx));
    let top = s1.text.fresh();
    let s2 = s1.on(s1.text.new_label());
    let end = s2.text.fresh();
    let s3 = s2.on(s2.text.new_label());
    assert(env.shift_field_right(s, Gpr::Rsi, Gpr::Rcx, pad) == move_done(
        s3,
        top,
        end,
        Gpr::Rsi,
        pad,
    ));
    move_parts(w, s3, top, end, Gpr::Rsi, pad);
    assert(s3.text.instrs.take(s.text.instrs.len() as int) =~= s.text.instrs);
    starts_trans(w, s3.text.instrs, s.text.instrs);
}

/// What the registers hold when a field is padded: where it starts, how long it is and by how
/// much it is too short.
pub open spec fn field_measured(c: Cpu, f: int, n: int, short: int) -> bool {
    &&& c.wf()
    &&& field_starts(c, f, n + short)
    &&& c.reg(6) == f
    &&& c.reg(1) == n
    &&& c.reg(10) == short
    &&& c.reg(11) == f + n
}

proof fn scratch_kept(c: Cpu, d: Cpu, changed: Set<Gpr>)
    requires
        kept_but(c, d, changed),
        changed.subset_of(scratch()),
    ensures
        kept_but(c, d, scratch()),
        d.reg(4) == c.reg(4),
        d.reg(5) == c.reg(5),
{
    assert(index(Gpr::Rsp) == 4 && index(Gpr::Rbp) == 5);
    assert(!changed.contains(Gpr::Rsp) && !changed.contains(Gpr::Rbp)) by {
        assert(!scratch().contains(Gpr::Rsp) && !scratch().contains(Gpr::Rbp));
    }
    assert forall|r: Gpr| !scratch().contains(r) implies #[trigger] d.reg(index(r)) == c.reg(
        index(r),
    ) by {
        assert(!changed.contains(r));
    }
}

proof fn loaded_keeps(c: Cpu, d: Cpu, r: Gpr, v: int)
    requires
        c.wf(),
        scratch().contains(r),
        d == c.put(index(r), v),
    ensures
        kept_but(c, d, scratch()),
        d.mem == c.mem,
        d.reg(4) == c.reg(4),
{
    assert(index(Gpr::Rsp) == 4);
    gpr_codes_distinct(Gpr::Rsp, r);
    assert forall|q: Gpr| !scratch().contains(q) implies #[trigger] d.reg(index(q)) == c.reg(
        index(q),
    ) by {
        gpr_codes_distinct(q, r);
    }
}

/// Filling in front of a field.
#[verifier::spinoff_prover]
#[verifier::rlimit(60)]
proof fn right_is_padded(
    env: Env,
    w: Seq<Ins>,
    s: LowState,
    width: i32,
    fill: u8,
    f: int,
    n: int,
    short: int,
    c: Cpu,
) -> (d: Cpu)
    requires
        labels_once(w),
        within(w, env.pad_right(s, width as i64, fill as i64)),
        0 <= n,
        0 <= short,
        n + short == width,
        field_measured(c, f, n, short),
    ensures
        within(w, s),
        reaches(w, s, c, env.pad_right(s, width as i64, fill as i64), d),
        kept_but(c, d, scratch()),
        d.reg(11) == f + width,
        padded(c.mem, d.mem, f, n, short, width as int, fill),
{
    assert(index(Gpr::Rdi) == 7 && index(Gpr::R10) == 10 && index(Gpr::R11) == 11);
    assert(index(Gpr::Rcx) == 1 && index(Gpr::Rsi) == 6 && index(Gpr::Rsp) == 4);
    let t1 = env.shift_field_right(s, Gpr::Rsi, Gpr::Rcx, Gpr::R10);
    let t2 = t1.on(t1.text.mov_load_mem(Gpr::Rdi, Gpr::Rsp, FIELD_START_SLOT));
    let t3 = env.emit_fill_run(t2, Gpr::Rdi, Gpr::R10, fill as i64);
    let t4 = t3.on(t3.text.mov_load_mem(Gpr::R11, Gpr::Rsp, FIELD_START_SLOT));
    let t5 = t4.on(t4.text.add_ri(Gpr::R11, width));
    assert(env.pad_right(s, width as i64, fill as i64) == t5) by {
        reveal(Env::pad_right);
    }
    assert(within(w, t3)) by {
        reveal(AsmState::mov_load_mem);
        reveal(AsmState::add_ri);
        assert(t5.text.instrs.take(t3.text.instrs.len() as int) =~= t3.text.instrs);
        starts_trans(w, t5.text.instrs, t3.text.instrs);
    }
    run_within(env, w, t2, Gpr::Rdi, Gpr::R10, fill as i64);
    assert(within(w, t1)) by {
        reveal(AsmState::mov_load_mem);
        assert(t2.text.instrs.take(t1.text.instrs.len() as int) =~= t1.text.instrs);
        starts_trans(w, t2.text.instrs, t1.text.instrs);
    }
    let c1 = field_is_moved(env, w, s, Gpr::R10, c);
    let m = c.mem;
    let m1 = c1.mem;
    scratch_kept(c, c1, set![Gpr::Rax, Gpr::Rdx, Gpr::R11]);
    start_stays(c, c1, f, width as int);
    takes_nothing(t1, c1);
    let c2 = start_loads(t1, t1, Gpr::Rdi, f, width as int, c1, c1);
    loaded_keeps(c1, c2, Gpr::Rdi, f);
    keeping_follows(c, c1, c2);
    straight_on(w, t1, t2, c1, c2);
    onwards(w, s, c, t1, c1, t2, c2);
    assert(c1.reg(index(Gpr::R10)) == c.reg(index(Gpr::R10)));
    let c3 = run_is_written(env, w, t2, Gpr::Rdi, Gpr::R10, fill, c2);
    onwards(w, s, c, t2, c2, t3, c3);
    let m3 = c3.mem;
    scratch_kept(c2, c3, set![Gpr::Rax, Gpr::Rdi, Gpr::R10]);
    keeping_follows(c, c2, c3);
    start_stays(c1, c3, f, width as int);
    takes_nothing(t3, c3);
    let c4 = start_loads(t3, t3, Gpr::R11, f, width as int, c3, c3);
    let d = follow_add_ri(t3, t4, Gpr::R11, width, c3, c4);
    straight_on(w, t3, t5, c3, d);
    onwards(w, s, c, t3, c3, t5, d);
    assert(d.mem == m3);
    assert forall|x: int| #[trigger]
        m3(x) == if f + short <= x < f + short + n {
            m(x - short)
        } else if f <= x < f + width {
            fill
        } else {
            m(x)
        } by {
        assert(m1(x) == if f + short <= x < f + short + n {
            m(x - short)
        } else {
            m(x)
        });
    }
    assert forall|q: Gpr| !scratch().contains(q) implies #[trigger] d.reg(index(q)) == c.reg(
        index(q),
    ) by {
        gpr_codes_distinct(q, Gpr::R11);
        assert(c3.reg(index(q)) == c.reg(index(q)));
    }
    d
}

proof fn half(v: u64)
    ensures
        wrap64(shifted(Shift::Right, v, 1)) == v as int / 2,
{
    reveal(shifted);
    lemma2_to64();
    assert(pow2((1int % 64) as nat) == 2);
}

/// The code in front of a centred field, up to its last run.
pub open spec fn centred(env: Env, s: LowState, fill: i64) -> LowState {
    let s = s.on(s.text.mov_rr(Gpr::R8, Gpr::R10));
    let s = s.on(s.text.shr_ri(Gpr::R8, 1));
    let s = env.shift_field_right(s, Gpr::Rsi, Gpr::Rcx, Gpr::R8);
    let s = s.on(s.text.mov_load_mem(Gpr::Rdi, Gpr::Rsp, FIELD_START_SLOT));
    let s = s.on(s.text.mov_rr(Gpr::R9, Gpr::R8));
    env.emit_fill_run(s, Gpr::Rdi, Gpr::R9, fill)
}

/// The registers for the last run of a centred field.
pub open spec fn behind_centred(t: LowState) -> LowState {
    let s = t.on(t.text.mov_load_mem(Gpr::R11, Gpr::Rsp, FIELD_START_SLOT));
    let s = s.on(s.text.add_rr(Gpr::R11, Gpr::R8));
    let s = s.on(s.text.add_rr(Gpr::R11, Gpr::Rcx));
    let s = s.on(s.text.mov_rr(Gpr::R9, Gpr::R10));
    s.on(s.text.sub_rr(Gpr::R9, Gpr::R8))
}

proof fn behind_extends(t: LowState)
    ensures
        starts(behind_centred(t).text.instrs, t.text.instrs),
{
    reveal(AsmState::mov_load_mem);
    reveal(AsmState::add_rr);
    reveal(AsmState::mov_rr);
    reveal(AsmState::sub_rr);
    assert(behind_centred(t).text.instrs.take(t.text.instrs.len() as int) =~= t.text.instrs);
}

#[verifier::spinoff_prover]
#[verifier::rlimit(60)]
proof fn front_is_padded(
    env: Env,
    w: Seq<Ins>,
    s: LowState,
    fill: u8,
    f: int,
    n: int,
    short: int,
    c: Cpu,
) -> (d: Cpu)
    requires
        labels_once(w),
        within(w, centred(env, s, fill as i64)),
        0 <= n,
        0 <= short,
        field_measured(c, f, n, short),
    ensures
        within(w, s),
        reaches(w, s, c, centred(env, s, fill as i64), d),
        kept_but(c, d, scratch()),
        d.reg(8) == short / 2,
        d.reg(1) == n,
        d.reg(10) == short,
        field_starts(d, f, n + short),
        padded(c.mem, d.mem, f, n, short / 2, n + short / 2, fill),
{
    assert(index(Gpr::Rdi) == 7 && index(Gpr::R8) == 8 && index(Gpr::R9) == 9);
    assert(index(Gpr::R10) == 10 && index(Gpr::R11) == 11 && index(Gpr::Rcx) == 1);
    assert(index(Gpr::Rsi) == 6 && index(Gpr::Rsp) == 4);
    let front = short / 2;
    let t1 = s.on(s.text.mov_rr(Gpr::R8, Gpr::R10));
    let t2 = t1.on(t1.text.shr_ri(Gpr::R8, 1));
    let t3 = env.shift_field_right(t2, Gpr::Rsi, Gpr::Rcx, Gpr::R8);
    let t4 = t3.on(t3.text.mov_load_mem(Gpr::Rdi, Gpr::Rsp, FIELD_START_SLOT));
    let t5 = t4.on(t4.text.mov_rr(Gpr::R9, Gpr::R8));
    let t6 = env.emit_fill_run(t5, Gpr::Rdi, Gpr::R9, fill as i64);
    run_within(env, w, t5, Gpr::Rdi, Gpr::R9, fill as i64);
    assert(within(w, t3)) by {
        reveal(AsmState::mov_load_mem);
        reveal(AsmState::mov_rr);
        assert(t5.text.instrs.take(t3.text.instrs.len() as int) =~= t3.text.instrs);
        starts_trans(w, t5.text.instrs, t3.text.instrs);
    }
    move_within(env, w, t2, Gpr::R8);
    takes_nothing(s, c);
    let c1 = follow_mov_rr(s, s, Gpr::R8, Gpr::R10, c, c);
    let c2 = follow_shr_ri(s, t1, Gpr::R8, 1, c, c1);
    half(c.reg(10));
    straight_on(w, s, t2, c, c2);
    assert(c2.mem == c.mem && c2.reg(8) == front);
    assert(forall|r: int| 0 <= r < 16 && r != 8 ==> #[trigger] c2.reg(r) == c.reg(r));
    assert(kept_but(c, c2, scratch())) by {
        assert forall|q: Gpr| !scratch().contains(q) implies #[trigger] c2.reg(index(q)) == c.reg(
            index(q),
        ) by {
            gpr_codes_distinct(q, Gpr::R8);
        }
    }
    let c3 = field_is_moved(env, w, t2, Gpr::R8, c2);
    onwards(w, s, c, t2, c2, t3, c3);
    scratch_kept(c2, c3, set![Gpr::Rax, Gpr::Rdx, Gpr::R11]);
    keeping_follows(c, c2, c3);
    assert(c3.reg(index(Gpr::R8)) == front && c3.reg(index(Gpr::R10)) == short);
    assert(c3.reg(index(Gpr::Rcx)) == n);
    start_stays(c, c3, f, n + short);
    takes_nothing(t3, c3);
    let c4 = start_loads(t3, t3, Gpr::Rdi, f, n + short, c3, c3);
    loaded_keeps(c3, c4, Gpr::Rdi, f);
    let c5 = follow_mov_rr(t3, t4, Gpr::R9, Gpr::R8, c3, c4);
    loaded_keeps(c4, c5, Gpr::R9, front);
    keeping_follows(c, c3, c4);
    keeping_follows(c, c4, c5);
    straight_on(w, t3, t5, c3, c5);
    onwards(w, s, c, t3, c3, t5, c5);
    let d = run_is_written(env, w, t5, Gpr::Rdi, Gpr::R9, fill, c5);
    onwards(w, s, c, t5, c5, t6, d);
    scratch_kept(c5, d, set![Gpr::Rax, Gpr::Rdi, Gpr::R9]);
    keeping_follows(c, c5, d);
    assert(d.reg(index(Gpr::R8)) == front && d.reg(index(Gpr::R10)) == short);
    assert(d.reg(index(Gpr::Rcx)) == n);
    let m = c.mem;
    let m3 = c3.mem;
    let k = d.mem;
    assert forall|x: int| #[trigger]
        k(x) == if f + front <= x < f + front + n {
            m(x - front)
        } else if f <= x < f + n + front {
            fill
        } else {
            m(x)
        } by {
        assert(m3(x) == if f + front <= x < f + front + n {
            m(x - front)
        } else {
            m(x)
        });
    }
    start_stays(c, d, f, n + short);
    d
}

#[verifier::spinoff_prover]
#[verifier::rlimit(40)]
proof fn behind_runs(t: LowState, f: int, n: int, short: int, c: Cpu) -> (d: Cpu)
    requires
        c.wf(),
        field_starts(c, f, n + short),
        0 <= n,
        0 <= short,
        c.reg(8) == short / 2,
        c.reg(1) == n,
        c.reg(10) == short,
    ensures
        takes(t, behind_centred(t), c, d),
        kept_but(c, d, scratch()),
        d.mem == c.mem,
        d.reg(11) == f + short / 2 + n,
        d.reg(9) == short - short / 2,
{
    assert(index(Gpr::R8) == 8 && index(Gpr::R9) == 9 && index(Gpr::R10) == 10);
    assert(index(Gpr::R11) == 11 && index(Gpr::Rcx) == 1);
    takes_nothing(t, c);
    let u1 = t.on(t.text.mov_load_mem(Gpr::R11, Gpr::Rsp, FIELD_START_SLOT));
    let d1 = start_loads(t, t, Gpr::R11, f, n + short, c, c);
    let u2 = u1.on(u1.text.add_rr(Gpr::R11, Gpr::R8));
    let d2 = follow_add_rr(t, u1, Gpr::R11, Gpr::R8, c, d1);
    assert(d2.reg(11) == f + short / 2);
    let u3 = u2.on(u2.text.add_rr(Gpr::R11, Gpr::Rcx));
    let d3 = follow_add_rr(t, u2, Gpr::R11, Gpr::Rcx, c, d2);
    assert(d3.reg(11) == f + short / 2 + n);
    let u4 = u3.on(u3.text.mov_rr(Gpr::R9, Gpr::R10));
    let d4 = follow_mov_rr(t, u3, Gpr::R9, Gpr::R10, c, d3);
    let d = follow_sub_rr(t, u4, Gpr::R9, Gpr::R8, c, d4);
    assert forall|q: Gpr| !scratch().contains(q) implies #[trigger] d.reg(index(q)) == c.reg(
        index(q),
    ) by {
        gpr_codes_distinct(q, Gpr::R9);
        gpr_codes_distinct(q, Gpr::R11);
    }
    d
}

/// Filling on both sides of a field.
#[verifier::spinoff_prover]
#[verifier::rlimit(60)]
proof fn centre_is_padded(
    env: Env,
    w: Seq<Ins>,
    s: LowState,
    fill: u8,
    f: int,
    n: int,
    short: int,
    c: Cpu,
) -> (d: Cpu)
    requires
        labels_once(w),
        within(w, env.pad_center(s, fill as i64)),
        0 <= n,
        0 <= short,
        field_measured(c, f, n, short),
    ensures
        within(w, s),
        reaches(w, s, c, env.pad_center(s, fill as i64), d),
        kept_but(c, d, scratch()),
        d.reg(11) == f + n + short,
        padded(c.mem, d.mem, f, n, short / 2, n + short, fill),
{
    assert(index(Gpr::R8) == 8 && index(Gpr::R9) == 9 && index(Gpr::R10) == 10);
    assert(index(Gpr::R11) == 11 && index(Gpr::Rcx) == 1);
    let front = short / 2;
    let t1 = centred(env, s, fill as i64);
    let t2 = behind_centred(t1);
    let t3 = env.emit_fill_run(t2, Gpr::R11, Gpr::R9, fill as i64);
    assert(env.pad_center(s, fill as i64) == t3) by {
        reveal(Env::pad_center);
    }
    run_within(env, w, t2, Gpr::R11, Gpr::R9, fill as i64);
    behind_extends(t1);
    starts_trans(w, t2.text.instrs, t1.text.instrs);
    let c1 = front_is_padded(env, w, s, fill, f, n, short, c);
    let c2 = behind_runs(t1, f, n, short, c1);
    straight_on(w, t1, t2, c1, c2);
    onwards(w, s, c, t1, c1, t2, c2);
    keeping_follows(c, c1, c2);
    let d = run_is_written(env, w, t2, Gpr::R11, Gpr::R9, fill, c2);
    onwards(w, s, c, t2, c2, t3, d);
    scratch_kept(c2, d, set![Gpr::Rax, Gpr::R11, Gpr::R9]);
    keeping_follows(c, c2, d);
    let m = c.mem;
    let m1 = c1.mem;
    let k = d.mem;
    assert forall|x: int| #[trigger]
        k(x) == if f + front <= x < f + front + n {
            m(x - front)
        } else if f <= x < f + n + short {
            fill
        } else {
            m(x)
        } by {
        assert(m1(x) == if f + front <= x < f + front + n {
            m(x - front)
        } else if f <= x < f + n + front {
            fill
        } else {
            m(x)
        });
    }
    d
}

/// By how much a field is too short.
pub open spec fn shortfall(n: int, width: int) -> int {
    if n < width {
        width - n
    } else {
        0
    }
}

/// How many of the fill bytes stand in front of a field.
pub open spec fn fill_in_front(align: Align, short: int) -> int {
    match align {
        Align::Right => short,
        Align::Center => short / 2,
        _ => 0,
    }
}

/// How many fill bytes there are.
pub open spec fn fill_in_all(align: Align, short: int) -> int {
    match align {
        Align::Unset => 0,
        _ => short,
    }
}

/// The code that pads on one side or both.
pub open spec fn aligned(env: Env, s: LowState, spec: Spec) -> LowState {
    match spec.align {
        Align::Left => env.emit_fill_run(s, Gpr::R11, Gpr::R10, env.fill_word(spec)),
        Align::Right => env.pad_right(s, env.width_word(spec), env.fill_word(spec)),
        Align::Center => env.pad_center(s, env.fill_word(spec)),
        Align::Unset => s,
    }
}

#[verifier::spinoff_prover]
proof fn sides_are_padded(
    env: Env,
    w: Seq<Ins>,
    s: LowState,
    spec: Spec,
    f: int,
    n: int,
    c: Cpu,
) -> (d: Cpu)
    requires
        labels_once(w),
        within(w, aligned(env, s, spec)),
        0 <= n < spec.width <= i32::MAX,
        field_measured(c, f, n, spec.width - n),
    ensures
        within(w, s),
        reaches(w, s, c, aligned(env, s, spec), d),
        kept_but(c, d, scratch()),
        ({
            let short = spec.width - n;
            let all = fill_in_all(spec.align, short);
            &&& d.reg(11) == f + n + all
            &&& padded(
                c.mem,
                d.mem,
                f,
                n,
                fill_in_front(spec.align, short),
                n + all,
                spec.fill,
            )
        }),
{
    assert(index(Gpr::R10) == 10 && index(Gpr::R11) == 11);
    let short = spec.width - n;
    match spec.align {
        Align::Left => {
            run_within(env, w, s, Gpr::R11, Gpr::R10, spec.fill as i64);
            let d = run_is_written(env, w, s, Gpr::R11, Gpr::R10, spec.fill, c);
            scratch_kept(c, d, set![Gpr::Rax, Gpr::R11, Gpr::R10]);
            d
        },
        Align::Right => right_is_padded(env, w, s, spec.width as i32, spec.fill, f, n, short, c),
        Align::Center => centre_is_padded(env, w, s, spec.fill, f, n, short, c),
        Align::Unset => {
            takes_nothing(s, c);
            straight_on(w, s, s, c, c);
            c
        },
    }
}

/// The code that measures a field.
pub open spec fn measuring(s: LowState) -> LowState {
    let s = s.on(s.text.mov_load_mem(Gpr::Rsi, Gpr::Rsp, FIELD_START_SLOT));
    let s = s.on(s.text.mov_rr(Gpr::Rdi, Gpr::R11));
    let s = s.on(s.text.mov_rr(Gpr::Rcx, Gpr::Rdi));
    s.on(s.text.sub_rr(Gpr::Rcx, Gpr::Rsi))
}

#[verifier::spinoff_prover]
proof fn measuring_runs(s: LowState, f: int, n: int, total: int, c: Cpu) -> (d: Cpu)
    requires
        c.wf(),
        field_starts(c, f, total),
        0 <= n <= total,
        c.reg(11) == f + n,
    ensures
        takes(s, measuring(s), c, d),
        kept_but(c, d, scratch()),
        d.mem == c.mem,
        d.reg(4) == c.reg(4),
        d.reg(6) == f,
        d.reg(1) == n,
        d.reg(11) == f + n,
{
    assert(index(Gpr::Rcx) == 1 && index(Gpr::Rsi) == 6 && index(Gpr::Rdi) == 7 && index(Gpr::R11)
        == 11);
    takes_nothing(s, c);
    let t1 = s.on(s.text.mov_load_mem(Gpr::Rsi, Gpr::Rsp, FIELD_START_SLOT));
    let c1 = start_loads(s, s, Gpr::Rsi, f, total, c, c);
    let t2 = t1.on(t1.text.mov_rr(Gpr::Rdi, Gpr::R11));
    let c2 = follow_mov_rr(s, t1, Gpr::Rdi, Gpr::R11, c, c1);
    let t3 = t2.on(t2.text.mov_rr(Gpr::Rcx, Gpr::Rdi));
    let c3 = follow_mov_rr(s, t2, Gpr::Rcx, Gpr::Rdi, c, c2);
    let d = follow_sub_rr(s, t3, Gpr::Rcx, Gpr::Rsi, c, c3);
    assert forall|q: Gpr| !scratch().contains(q) implies #[trigger] d.reg(index(q)) == c.reg(
        index(q),
    ) by {
        gpr_codes_distinct(q, Gpr::Rcx);
        gpr_codes_distinct(q, Gpr::Rsi);
        gpr_codes_distinct(q, Gpr::Rdi);
    }
    d
}

/// The code that sees whether a field is as wide as it should be.
pub open spec fn width_tested(s: LowState, width: i64) -> LowState {
    let s = s.on(s.text.mov_ri(Gpr::Rax, width));
    s.on(s.text.cmp_rr(Gpr::Rcx, Gpr::Rax))
}

#[verifier::spinoff_prover]
proof fn width_test_runs(s: LowState, width: i64, c: Cpu) -> (d: Cpu)
    requires
        c.wf(),
        0 <= width,
    ensures
        takes(s, width_tested(s, width), c, d),
        kept_but(c, d, set![Gpr::Rax]),
        d.mem == c.mem,
        tells(d, Cc::Ae) == Some(c.reg(1) >= width),
{
    assert(index(Gpr::Rax) == 0 && index(Gpr::Rcx) == 1);
    takes_nothing(s, c);
    let t1 = s.on(s.text.mov_ri(Gpr::Rax, width));
    let c1 = follow_mov_ri(s, s, Gpr::Rax, width, c, c);
    let d = follow_cmp_rr(s, t1, Gpr::Rcx, Gpr::Rax, c, c1);
    assert forall|q: Gpr| !set![Gpr::Rax].contains(q) implies #[trigger] d.reg(index(q)) == c.reg(
        index(q),
    ) by {
        assert(q != Gpr::Rax);
        gpr_codes_distinct(q, Gpr::Rax);
    }
    d
}

/// The code that computes by how much a field is too short.
pub open spec fn shortened(s: LowState, width: i64) -> LowState {
    let s = s.on(s.text.mov_ri(Gpr::R10, width));
    s.on(s.text.sub_rr(Gpr::R10, Gpr::Rcx))
}

#[verifier::spinoff_prover]
proof fn shortening_runs(s: LowState, width: i64, c: Cpu) -> (d: Cpu)
    requires
        c.wf(),
        c.reg(1) <= width,
    ensures
        takes(s, shortened(s, width), c, d),
        kept_but(c, d, set![Gpr::R10]),
        d.mem == c.mem,
        d.reg(10) == width - c.reg(1),
{
    assert(index(Gpr::R10) == 10 && index(Gpr::Rcx) == 1);
    takes_nothing(s, c);
    let t1 = s.on(s.text.mov_ri(Gpr::R10, width));
    let c1 = follow_mov_ri(s, s, Gpr::R10, width, c, c);
    let d = follow_sub_rr(s, t1, Gpr::R10, Gpr::Rcx, c, c1);
    assert forall|q: Gpr| !set![Gpr::R10].contains(q) implies #[trigger] d.reg(index(q)) == c.reg(
        index(q),
    ) by {
        assert(q != Gpr::R10);
        gpr_codes_distinct(q, Gpr::R10);
    }
    d
}

proof fn prefix(z: Seq<Ins>, s: Seq<Ins>)
    requires
        s.len() <= z.len(),
        forall|i: int| 0 <= i < s.len() ==> #[trigger] s[i] == z[i],
    ensures
        starts(z, s),
{
    assert(z.take(s.len() as int) =~= s);
}

/// The code in front of the fill.
proof fn shortened_extends(s: LowState, done: LabelId, width: i64)
    ensures
        ({
            let t2 = width_tested(s, width);
            let t3 = t2.on(t2.text.jcc_local(Cc::Ae, done));
            let z = shortened(t3, width).text.instrs;
            &&& starts(z, s.text.instrs)
            &&& starts(z, t2.text.instrs)
            &&& starts(z, t3.text.instrs)
        }),
{
    reveal(AsmState::mov_ri);
    reveal(AsmState::cmp_rr);
    reveal(AsmState::jcc_local);
    reveal(AsmState::sub_rr);
    let t2 = width_tested(s, width);
    let t3 = t2.on(t2.text.jcc_local(Cc::Ae, done));
    let z = shortened(t3, width).text.instrs;
    prefix(z, s.text.instrs);
    prefix(z, t2.text.instrs);
    prefix(z, t3.text.instrs);
}

/// A field of `n` bytes that was rendered at the cursor is padded to its width: with an
/// alignment, the fill bytes that it lacks stand behind it, in front of it, or half of them,
/// rounded down, in front of it and the rest behind; without one, or where it is wide enough,
/// there are none. The bytes of the field are the same, no byte outside changes, and the cursor
/// stands right behind.
#[verifier::spinoff_prover]
#[verifier::rlimit(40)]
pub proof fn field_is_padded(
    env: Env,
    w: Seq<Ins>,
    s: LowState,
    spec: Spec,
    f: int,
    n: int,
    c: Cpu,
) -> (d: Cpu)
    requires
        labels_once(w),
        within(w, env.emit_field_padding(s, spec)),
        c.wf(),
        0 <= n,
        spec.width <= i32::MAX,
        c.reg(11) == f + n,
        field_starts(c, f, n + shortfall(n, env.width_word(spec) as int)),
    ensures
        reaches(w, s, c, env.emit_field_padding(s, spec), d),
        kept_but(c, d, scratch()),
        ({
            let short = shortfall(n, spec.width as int);
            let all = fill_in_all(spec.align, short);
            &&& d.reg(11) == f + n + all
            &&& padded(
                c.mem,
                d.mem,
                f,
                n,
                fill_in_front(spec.align, short),
                n + all,
                spec.fill,
            )
        }),
{
    let width = env.width_word(spec);
    let short = shortfall(n, width as int);
    let t1 = measuring(s);
    let done = t1.text.fresh();
    let s2 = t1.on(t1.text.new_label());
    let t2 = width_tested(s2, width);
    let t3 = t2.on(t2.text.jcc_local(Cc::Ae, done));
    let t4 = shortened(t3, width);
    let t5 = aligned(env, t4, spec);
    let t6 = t5.on(t5.text.bind(done));
    assert(env.emit_field_padding(s, spec) == t6) by {
        reveal(Env::emit_field_padding);
    }
    assert(within(w, t5)) by {
        assert(t6.text.instrs.take(t5.text.instrs.len() as int) =~= t5.text.instrs);
        starts_trans(w, t6.text.instrs, t5.text.instrs);
    }
    assert(within(w, t4)) by {
        match spec.align {
            Align::Left => run_within(env, w, t4, Gpr::R11, Gpr::R10, spec.fill as i64),
            Align::Right => right_within(env, w, t4, width, spec.fill as i64),
            Align::Center => centre_within(env, w, t4, spec.fill as i64),
            Align::Unset => {},
        }
    }
    shortened_extends(s2, done, width);
    starts_trans(w, t4.text.instrs, s2.text.instrs);
    starts_trans(w, t4.text.instrs, t2.text.instrs);
    starts_trans(w, t4.text.instrs, t3.text.instrs);
    assert(within(w, t1));
    let c1 = measuring_runs(s, f, n, n + short, c);
    straight_on(w, s, t1, c, c1);
    start_stays(c, c1, f, n + short);
    let c2 = width_test_runs(s2, width, c1);
    straight_on(w, s2, t2, c1, c2);
    assert(reaches(w, t1, c1, t2, c2));
    onwards(w, s, c, t1, c1, t2, c2);
    scratch_kept(c1, c2, set![Gpr::Rax]);
    keeping_follows(c, c1, c2);
    start_stays(c1, c2, f, n + short);
    assert(index(Gpr::Rcx) == 1 && index(Gpr::Rsi) == 6 && index(Gpr::R11) == 11);
    assert(c2.reg(index(Gpr::Rcx)) == n && c2.reg(index(Gpr::Rsi)) == f && c2.reg(index(Gpr::R11))
        == f + n);
    if n >= width {
        branch_taken(w, t2, Cc::Ae, done, t5, c2);
        onwards(w, s, c, t2, c2, t5, c2);
        past_label(w, t5, done, c2);
        onwards(w, s, c, t5, c2, t6, c2);
        c2
    } else {
        branch_passed(w, t2, Cc::Ae, done, c2);
        onwards(w, s, c, t2, c2, t3, c2);
        let c4 = shortening_runs(t3, width, c2);
        straight_on(w, t3, t4, c2, c4);
        onwards(w, s, c, t3, c2, t4, c4);
        scratch_kept(c2, c4, set![Gpr::R10]);
        keeping_follows(c, c2, c4);
        start_stays(c2, c4, f, n + short);
        assert(c4.reg(index(Gpr::Rcx)) == n && c4.reg(index(Gpr::Rsi)) == f && c4.reg(
            index(Gpr::R11),
        ) == f + n);
        let d = sides_are_padded(env, w, t4, spec, f, n, c4);
        onwards(w, s, c, t4, c4, t5, d);
        past_label(w, t5, done, d);
        onwards(w, s, c, t5, d, t6, d);
        keeping_follows(c, c4, d);
        d
    }
}

proof fn right_within(env: Env, w: Seq<Ins>, s: LowState, width: i64, fill: i64)
    requires
        within(w, env.pad_right(s, width, fill)),
    ensures
        within(w, s),
{
    let t1 = env.shift_field_right(s, Gpr::Rsi, Gpr::Rcx, Gpr::R10);
    let t2 = t1.on(t1.text.mov_load_mem(Gpr::Rdi, Gpr::Rsp, FIELD_START_SLOT));
    let t3 = env.emit_fill_run(t2, Gpr::Rdi, Gpr::R10, fill);
    let t4 = t3.on(t3.text.mov_load_mem(Gpr::R11, Gpr::Rsp, FIELD_START_SLOT));
    let t5 = t4.on(t4.text.add_ri(Gpr::R11, width as i32));
    assert(env.pad_right(s, width, fill) == t5) by {
        reveal(Env::pad_right);
    }
    reveal(AsmState::mov_load_mem);
    reveal(AsmState::add_ri);
    assert(t5.text.instrs.take(t3.text.instrs.len() as int) =~= t3.text.instrs);
    starts_trans(w, t5.text.instrs, t3.text.instrs);
    run_within(env, w, t2, Gpr::Rdi, Gpr::R10, fill);
    assert(t2.text.instrs.take(t1.text.instrs.len() as int) =~= t1.text.instrs);
    starts_trans(w, t2.text.instrs, t1.text.instrs);
    move_within(env, w, s, Gpr::R10);
}

proof fn centre_within(env: Env, w: Seq<Ins>, s: LowState, fill: i64)
    requires
        within(w, env.pad_center(s, fill)),
    ensures
        within(w, s),
{
    let t1 = centred(env, s, fill);
    let t2 = behind_centred(t1);
    let t3 = env.emit_fill_run(t2, Gpr::R11, Gpr::R9, fill);
    assert(env.pad_center(s, fill) == t3) by {
        reveal(Env::pad_center);
    }
    run_within(env, w, t2, Gpr::R11, Gpr::R9, fill);
    behind_extends(t1);
    starts_trans(w, t2.text.instrs, t1.text.instrs);
    let u1 = s.on(s.text.mov_rr(Gpr::R8, Gpr::R10));
    let u2 = u1.on(u1.text.shr_ri(Gpr::R8, 1));
    let u3 = env.shift_field_right(u2, Gpr::Rsi, Gpr::Rcx, Gpr::R8);
    let u4 = u3.on(u3.text.mov_load_mem(Gpr::Rdi, Gpr::Rsp, FIELD_START_SLOT));
    let u5 = u4.on(u4.text.mov_rr(Gpr::R9, Gpr::R8));
    run_within(env, w, u5, Gpr::Rdi, Gpr::R9, fill);
    reveal(AsmState::mov_load_mem);
    reveal(AsmState::mov_rr);
    reveal(AsmState::shr_ri);
    assert(u5.text.instrs.take(u3.text.instrs.len() as int) =~= u3.text.instrs);
    starts_trans(w, u5.text.instrs, u3.text.instrs);
    move_within(env, w, u2, Gpr::R8);
    assert(u2.text.instrs.take(s.text.instrs.len() as int) =~= s.text.instrs);
    starts_trans(w, u2.text.instrs, s.text.instrs);
}

} // verus!
