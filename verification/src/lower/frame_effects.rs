//! What the entry of a function and its end do to the stack.
use vstd::prelude::*;

use crate::frame::{FrameInput, plan_of, save_slots_in_order};
use crate::lower::effects::{takes, takes_nothing};
use crate::lower::env::{Env, LowState};
use crate::lower::follow::{follow_leave, follow_mov_rr, follow_push, follow_sub_rsp_imm};
use crate::lower::mem_effects::{
    apart, not_saved, saved_registers_come_back, saved_up_to, slots_apart, slots_below,
};
use crate::machine::{Cpu, fetch, in_space, patch, pow256_values, written_is_read};
use crate::reg::{Gpr, gpr_codes_distinct};
use crate::steps::index;

verus! {

/// The code that sets up a frame.
pub open spec fn framed(env: Env, s: LowState) -> LowState {
    let s = s.on(s.text.push(Gpr::Rbp));
    let s = s.on(s.text.mov_rr(Gpr::Rbp, Gpr::Rsp));
    if env.plan.frame_size > 0 {
        s.on(s.text.sub_rsp_imm(env.plan.frame_size))
    } else {
        s
    }
}

/// A function starts with its frame, the registers it saves and its parameters.
pub proof fn entry_in_order(env: Env, s: LowState)
    ensures
        env.lower_entry(s) == env.lower_prologue_params(env.save_all(framed(env, s))),
{
    reveal(Env::lower_entry);
}

/// Setting up a frame puts the caller's frame pointer on the stack, lets the frame pointer
/// point to it, and takes as many bytes as the frame has.
#[verifier::spinoff_prover]
pub proof fn frame_is_set_up(env: Env, s: LowState, c: Cpu) -> (d: Cpu)
    requires
        c.wf(),
        env.plan.frame_size >= 0,
        c.reg(4) >= 8 + env.plan.frame_size,
    ensures
        takes(s, framed(env, s), c, d),
        d.wf(),
        d.reg(5) == c.reg(4) - 8,
        d.reg(4) == c.reg(4) - 8 - env.plan.frame_size,
        forall|r: int| 0 <= r < 16 && r != 4 && r != 5 ==> #[trigger] d.reg(r) == c.reg(r),
        fetch(d.mem, d.reg(5) as int, 8) == c.reg(5),
        d.mem == patch(c.mem, c.reg(4) - 8, 8, c.reg(5) as int),
{
    takes_nothing(s, c);
    assert(index(Gpr::Rsp) == 4 && index(Gpr::Rbp) == 5);
    let t1 = s.on(s.text.push(Gpr::Rbp));
    let c1 = follow_push(s, s, Gpr::Rbp, c, c);
    let t2 = t1.on(t1.text.mov_rr(Gpr::Rbp, Gpr::Rsp));
    let c2 = follow_mov_rr(s, t1, Gpr::Rbp, Gpr::Rsp, c, c1);
    written_is_read(c.mem, c.reg(4) - 8, 8, c.reg(5) as int);
    pow256_values();
    if env.plan.frame_size > 0 {
        follow_sub_rsp_imm(s, t2, env.plan.frame_size, c, c2)
    } else {
        c2
    }
}

/// The code that takes a frame down, but for the return.
pub open spec fn unframed(env: Env, s: LowState) -> LowState {
    let s = env.restore_saved(s);
    s.on(s.text.leave())
}

/// A function ends with taking its frame down and returning.
pub proof fn end_in_order(env: Env, s: LowState)
    ensures
        env.epilogue_and_ret(s) == unframed(env, s).on(unframed(env, s).text.ret()),
{
    reveal(Env::epilogue_and_ret);
}

/// Taking down a frame gives the caller back its stack pointer, its frame pointer and every
/// register that was saved, whatever ran since the frame was set up, as long as it left the
/// frame pointer, the word that it points to and the slots alone.
pub proof fn frame_is_taken_down(
    env: Env,
    s: LowState,
    caller: Cpu,
    entered: Cpu,
    c: Cpu,
) -> (d: Cpu)
    requires
        caller.wf(),
        entered.wf(),
        c.wf(),
        caller.reg(4) >= 8,
        entered.reg(5) == caller.reg(4) - 8,
        forall|r: int|
            0 <= r < 16 && r != 4 && r != 5 ==> #[trigger] entered.reg(r) == caller.reg(r),
        slots_apart(env, entered.reg(5)),
        c.reg(5) == entered.reg(5),
        fetch(c.mem, c.reg(5) as int, 8) == caller.reg(5),
        saved_up_to(env, c.mem, entered, 0, env.plan.callee_saved_slots.len() as int),
        forall|j: int|
            0 <= j < env.plan.callee_saved_slots.len() ==> (
            #[trigger] env.plan.callee_saved_slots[j]).0 != Gpr::Rsp,
    ensures
        takes(s, unframed(env, s), c, d),
        d.reg(4) == caller.reg(4),
        d.reg(5) == caller.reg(5),
        d.mem == c.mem,
        not_saved(env, Gpr::Rax) ==> d.reg(0) == c.reg(0),
        not_saved(env, Gpr::Rdx) ==> d.reg(2) == c.reg(2),
        d.floats == c.floats,
        forall|j: int|
            0 <= j < env.plan.callee_saved_slots.len() ==> d.reg(
                index((#[trigger] env.plan.callee_saved_slots[j]).0),
            ) == caller.reg(index(env.plan.callee_saved_slots[j].0)),
{
    assert(index(Gpr::Rax) == 0 && index(Gpr::Rdx) == 2 && index(Gpr::Rsp) == 4 && index(Gpr::Rbp)
        == 5);
    let t = env.restore_saved(s);
    let c1 = saved_registers_come_back(env, s, c, entered);
    let d = follow_leave(s, t, c, c1);
    let slots = env.plan.callee_saved_slots;
    assert forall|j: int| 0 <= j < slots.len() implies d.reg(index((#[trigger] slots[j]).0))
        == caller.reg(index(slots[j].0)) by {
        gpr_codes_distinct(slots[j].0, Gpr::Rsp);
        gpr_codes_distinct(slots[j].0, Gpr::Rbp);
        assert(c1.reg(index(slots[j].0)) == entered.reg(index(slots[j].0)));
    }
    d
}

/// The slots of a planned frame are apart and below the frame pointer, so that saving one
/// register does not harm another.
pub proof fn planned_slots_apart(env: Env, f: FrameInput, bp: u64)
    requires
        env.plan == plan_of(f),
        f.frame_size() <= i32::MAX,
        bp >= f.frame_size(),
        f.saved.len() <= usize::MAX,
        forall|i: int| 0 <= i < f.saved.len() ==> #[trigger] f.saved[i] != Gpr::Rbp,
        forall|i: int, j: int|
            0 <= i < j < f.saved.len() ==> #[trigger] f.saved[i] != #[trigger] f.saved[j],
    ensures
        slots_apart(env, bp),
        slots_below(env),
{
    let slots = env.plan.callee_saved_slots;
    assert forall|i: int| 0 <= i < slots.len() implies (#[trigger] slots[i]).1 <= -8 by {
        save_slots_in_order(f, i, i);
    }
    assert forall|i: int| 0 <= i < slots.len() implies in_space(bp + (#[trigger] slots[i]).1, 8)
        && slots[i].0 != Gpr::Rbp by {
        save_slots_in_order(f, i, i);
        assert(f.saved[i] != Gpr::Rbp);
    }
    assert forall|i: int, j: int| 0 <= i < j < slots.len() implies apart(
        (#[trigger] slots[i]).1 as int,
        (#[trigger] slots[j]).1 as int,
        8,
    ) && slots[i].0 != slots[j].0 by {
        save_slots_in_order(f, i, j);
        assert(f.saved[i] != f.saved[j]);
    }
}

} // verus!
