//! Where lowered code goes: branches, switches and jumps ahead.
use vstd::prelude::*;

use crate::bytes::wrap64;
use crate::encode::{AsmState, Cc, ITag, LabelId};
use crate::lower::arith_effects::{operand_loads, operand_word};
use crate::lower::body::immediate_of;
use crate::lower::effects::{only_regs, takes, takes_nothing, tells, with_itself};
use crate::lower::env::{Env, LowState};
use crate::lower::follow::{
    follow_add_rr, follow_cmp_ri, follow_cmp_rr, follow_mov_load_mem, follow_mov_ri,
    follow_mov_ri_state, follow_mov_store_mem, follow_test_rr,
};
use crate::lower::mem_effects::fetched_is_word;
use crate::lower::scalar::wide_lo;
use crate::machine::{
    Act, Alu, Cpu, act, binary, condition, fetch, in_space, meaning, patch, run, signed64,
};
use crate::mir::{BlockId, Operand, Terminator};
use crate::peephole::Ins;
use crate::reg::Gpr;
use crate::steps::{adds, cmp_ri_does, cmp_rr_does, index, mov_ri_does, widened};

verus! {

// ---------------------------------------------------------------------------
//  Jumps ahead
// ---------------------------------------------------------------------------

/// How far code got.
pub enum Flow {
    /// To its end.
    On(Cpu),
    /// To a label that does not stand in it.
    Jumped(LabelId, Cpu),
    /// Not at all.
    Stuck,
}

/// What one instruction does to a flow. One that has jumped passes over everything up to
/// its label.
pub open spec fn onward(f: Flow, i: Ins) -> Flow {
    match f {
        Flow::On(d) => match i.tag {
            ITag::Label { .. } => Flow::On(d),
            ITag::Jmp { label } => Flow::Jumped(label, d),
            ITag::Jcc { label } => match condition(d, i.bytes[1] as int % 16) {
                Some(true) => Flow::Jumped(label, d),
                Some(false) => Flow::On(d),
                None => Flow::Stuck,
            },
            _ => match act(meaning(i), d) {
                Some(e) => Flow::On(e),
                None => Flow::Stuck,
            },
        },
        Flow::Jumped(l, d) => if i.tag == (ITag::Label { label: l }) {
            Flow::On(d)
        } else {
            f
        },
        Flow::Stuck => f,
    }
}

/// How far the instructions from the `n`-th on get, where no jump goes back.
pub open spec fn flow(s: Seq<Ins>, n: nat, c: Cpu) -> Flow
    decreases s.len(),
{
    if s.len() <= n {
        Flow::On(c)
    } else {
        onward(flow(s.drop_last(), n, c), s.last())
    }
}

/// Whether the code that `t` has beyond `s` gets as far as `f`, from `c`.
#[verifier::opaque]
pub open spec fn flows(s: LowState, t: LowState, c: Cpu, f: Flow) -> bool {
    &&& s.text.instrs.len() <= t.text.instrs.len()
    &&& t.text.instrs.take(s.text.instrs.len() as int) == s.text.instrs
    &&& flow(t.text.instrs, s.text.instrs.len(), c) == f
}

proof fn straight_flows(s: Seq<Ins>, n: nat, m: nat, c: Cpu, f: Cpu, d: Cpu)
    requires
        n <= m <= s.len(),
        flow(s.take(m as int), n, c) == Flow::On(f),
        run(s, m, f) == Some(d),
    ensures
        flow(s, n, c) == Flow::On(d),
    decreases s.len(),
{
    if s.len() == m {
        assert(s.take(m as int) =~= s);
    } else {
        let t = s.drop_last();
        assert(t.take(m as int) =~= s.take(m as int));
        let e = run(t, m, f).unwrap();
        straight_flows(t, n, m, c, f, e);
        assert(act(Act::Unknown, e) is None) by {
            reveal(act);
        }
    }
}

proof fn takes_flows(s: LowState, t: LowState, u: LowState, c: Cpu, d: Cpu, e: Cpu)
    requires
        flows(s, t, c, Flow::On(d)),
        takes(t, u, d, e),
    ensures
        flows(s, u, c, Flow::On(e)),
{
    reveal(flows);
    reveal(takes);
    straight_flows(u.text.instrs, s.text.instrs.len(), t.text.instrs.len(), c, d, e);
    let n = s.text.instrs.len() as int;
    let k = t.text.instrs.len() as int;
    assert(u.text.instrs.take(n) =~= u.text.instrs.take(k).take(n));
}

proof fn nothing_flows(s: LowState, c: Cpu)
    ensures
        flows(s, s, c, Flow::On(c)),
{
    reveal(flows);
    assert(s.text.instrs.take(s.text.instrs.len() as int) =~= s.text.instrs);
}

proof fn one_more(s: LowState, t: LowState, u: LowState, i: Ins, c: Cpu, f: Flow)
    requires
        flows(s, t, c, f),
        u.text.instrs == t.text.instrs.push(i),
    ensures
        flows(s, u, c, onward(f, i)),
{
    reveal(flows);
    assert(u.text.instrs.drop_last() =~= t.text.instrs);
    let n = s.text.instrs.len() as int;
    assert(u.text.instrs.take(n) =~= t.text.instrs.take(n));
}

/// A jump goes to its label.
pub(crate) proof fn jump_flows(s: LowState, t: LowState, label: LabelId, c: Cpu, d: Cpu)
    requires
        flows(s, t, c, Flow::On(d)),
    ensures
        flows(s, t.on(t.text.jmp(label)), c, Flow::Jumped(label, d)),
{
    reveal(AsmState::jmp);
    let u = t.on(t.text.jmp(label));
    one_more(s, t, u, u.text.instrs.last(), c, Flow::On(d));
}

/// A conditional jump goes to its label where the condition holds, and on where it does not.
pub(crate) proof fn branch_flows(
    s: LowState,
    t: LowState,
    cc: Cc,
    label: LabelId,
    c: Cpu,
    d: Cpu,
    b: bool,
)
    requires
        flows(s, t, c, Flow::On(d)),
        tells(d, cc) == Some(b),
    ensures
        flows(
            s,
            t.on(t.text.jcc(cc, label)),
            c,
            if b {
                Flow::Jumped(label, d)
            } else {
                Flow::On(d)
            },
        ),
        t.text.jcc_local(cc, label) == t.text.jcc(cc, label),
{
    reveal(AsmState::jcc);
    reveal(AsmState::jcc_local);
    let u = t.on(t.text.jcc(cc, label));
    let i = u.text.instrs.last();
    assert(i.bytes[1] == 0x80 + cc.bits());
    assert(i.bytes[1] as int % 16 == cc.bits());
    one_more(s, t, u, i, c, Flow::On(d));
}

/// What was jumped over is not run.
proof fn jumped_over(s: LowState, t: LowState, u: LowState, a: Act, c: Cpu, l: LabelId, d: Cpu)
    requires
        flows(s, t, c, Flow::Jumped(l, d)),
        adds(t.text, u.text, a),
        !(a is Unknown),
    ensures
        flows(s, u, c, Flow::Jumped(l, d)),
{
    reveal(adds);
    let i = u.text.instrs.last();
    assert(u.text.instrs =~= t.text.instrs.push(i));
    one_more(s, t, u, i, c, Flow::Jumped(l, d));
}

proof fn jumped_over_jump(s: LowState, t: LowState, label: LabelId, c: Cpu, l: LabelId, d: Cpu)
    requires
        flows(s, t, c, Flow::Jumped(l, d)),
    ensures
        flows(s, t.on(t.text.jmp(label)), c, Flow::Jumped(l, d)),
{
    reveal(AsmState::jmp);
    let u = t.on(t.text.jmp(label));
    one_more(s, t, u, u.text.instrs.last(), c, Flow::Jumped(l, d));
}

proof fn jumped_over_branch(
    s: LowState,
    t: LowState,
    cc: Cc,
    label: LabelId,
    c: Cpu,
    l: LabelId,
    d: Cpu,
)
    requires
        flows(s, t, c, Flow::Jumped(l, d)),
    ensures
        flows(s, t.on(t.text.jcc(cc, label)), c, Flow::Jumped(l, d)),
{
    reveal(AsmState::jcc);
    let u = t.on(t.text.jcc(cc, label));
    one_more(s, t, u, u.text.instrs.last(), c, Flow::Jumped(l, d));
}

proof fn arrived(s: LowState, t: LowState, label: LabelId, c: Cpu, d: Cpu)
    requires
        flows(s, t, c, Flow::On(d)) || flows(s, t, c, Flow::Jumped(label, d)),
    ensures
        flows(s, t.on(t.text.bind(label)), c, Flow::On(d)),
{
    let u = t.on(t.text.bind(label));
    let i = u.text.instrs.last();
    if flows(s, t, c, Flow::On(d)) {
        one_more(s, t, u, i, c, Flow::On(d));
    } else {
        one_more(s, t, u, i, c, Flow::Jumped(label, d));
    }
}

// ---------------------------------------------------------------------------
//  The ends of blocks
// ---------------------------------------------------------------------------

/// Whether only `rax`, `rcx` and flags changed.
pub open spec fn only_tested(c: Cpu, d: Cpu) -> bool {
    only_regs(c, d, Gpr::Rax, Gpr::Rcx)
}

/// A block that ends with a jump goes on to the block that is named.
pub proof fn goto_goes(env: Env, s: LowState, target: BlockId, c: Cpu)
    ensures
        flows(
            s,
            env.lower_terminator(s, Terminator::Goto(target)),
            c,
            Flow::Jumped(LabelId(target.0), c),
        ),
{
    reveal(Env::lower_terminator);
    nothing_flows(s, c);
    jump_flows(s, s, LabelId(target.0), c, c);
}

/// A block that ends with a branch goes on to its first block where the condition, a constant
/// or a whole local, is not zero, and to its second where it is.
pub proof fn branch_goes(
    env: Env,
    s: LowState,
    cond: Operand,
    then_bb: BlockId,
    else_bb: BlockId,
    c: Cpu,
) -> (d: Cpu)
    requires
        c.wf(),
        s.err is None,
        operand_word(env, c, cond) is Some,
    ensures
        flows(
            s,
            env.lower_terminator(s, Terminator::Branch { cond, then_bb, else_bb }),
            c,
            Flow::Jumped(
                if operand_word(env, c, cond) != Some(0u64) {
                    LabelId(then_bb.0)
                } else {
                    LabelId(else_bb.0)
                },
                d,
            ),
        ),
        only_tested(c, d),
{
    reveal(Env::lower_terminator);
    takes_nothing(s, c);
    nothing_flows(s, c);
    assert(index(Gpr::Rax) == 0);
    let x = operand_word(env, c, cond).unwrap();
    let t1 = env.operand_to(s, cond, Gpr::Rax);
    let c1 = operand_loads(env, s, s, cond, Gpr::Rax, c, c);
    let t2 = t1.on(t1.text.test_rr(Gpr::Rax, Gpr::Rax));
    let c2 = follow_test_rr(s, t1, Gpr::Rax, Gpr::Rax, c, c1);
    with_itself(x);
    assert(tells(c2, Cc::Ne) == Some(x != 0));
    from_start(s, t2, c, c2);
    let t3 = t2.on(t2.text.jcc(Cc::Ne, LabelId(then_bb.0)));
    branch_flows(s, t2, Cc::Ne, LabelId(then_bb.0), c, c2, x != 0);
    if x != 0 {
        jumped_over_jump(s, t3, LabelId(else_bb.0), c, LabelId(then_bb.0), c2);
    } else {
        jump_flows(s, t3, LabelId(else_bb.0), c, c2);
    }
    c2
}

proof fn from_start(s: LowState, t: LowState, c: Cpu, d: Cpu)
    requires
        takes(s, t, c, d),
    ensures
        flows(s, t, c, Flow::On(d)),
{
    reveal(flows);
    reveal(takes);
    let n = s.text.instrs.len();
    flow_of_prefix(t.text.instrs, n, c);
    straight_flows(t.text.instrs, n, n, c, c, d);
}

proof fn flow_of_prefix(s: Seq<Ins>, n: nat, c: Cpu)
    requires
        n <= s.len(),
    ensures
        flow(s.take(n as int), n, c) == Flow::On(c),
{
}

/// The block that a switch chooses: that of the first case with the value, else the default.
pub open spec fn chosen(
    targets: Seq<(i128, BlockId)>,
    i: int,
    default: BlockId,
    x: u64,
) -> BlockId
    decreases targets.len() - i,
{
    if i < 0 || i >= targets.len() {
        default
    } else if x == wrap64(targets[i].0 as int) {
        targets[i].1
    } else {
        chosen(targets, i + 1, default, x)
    }
}

proof fn tested(d: Cpu, e: Cpu, y: u64, v: int)
    requires
        binary(d, Alu::Compare, 0, y) == Some(e),
        y == wrap64(v),
    ensures
        tells(e, Cc::E) == Some(d.reg(0) == wrap64(v)),
{
    let x = d.reg(0);
    assert((wrap64(x - y) == 0) == (x == y));
}

proof fn case_value(v: i128)
    ensures
        wrap64(wide_lo(v) as int) == wrap64(v as int),
        immediate_of(v) matches Some(imm) ==> wrap64(imm as int) == wrap64(v as int),
{
}

/// The code of a test of one case, before its jump.
pub open spec fn case_tested(s: LowState, value: i128) -> LowState {
    match immediate_of(value) {
        Some(imm) => s.on(s.text.cmp_ri(Gpr::Rax, imm)),
        None => {
            let s = s.on(s.text.mov_ri(Gpr::Rcx, wide_lo(value)));
            s.on(s.text.cmp_rr(Gpr::Rax, Gpr::Rcx))
        },
    }
}

#[verifier::spinoff_prover]
proof fn case_runs(t: LowState, value: i128, d: Cpu) -> (e: Cpu)
    requires
        d.wf(),
    ensures
        takes(t, case_tested(t, value), d, e),
        only_regs(d, e, Gpr::Rcx, Gpr::Rcx),
        tells(e, Cc::E) == Some(is_case(d.reg(0), value)),
{
    takes_nothing(t, d);
    case_value(value);
    assert(index(Gpr::Rax) == 0 && index(Gpr::Rcx) == 1);
    match immediate_of(value) {
        Some(imm) => {
            let e = follow_cmp_ri(t, t, Gpr::Rax, imm, d, d);
            tested_case(d, e, wrap64(widened(imm)), value);
            e
        },
        None => {
            let t1 = t.on(t.text.mov_ri(Gpr::Rcx, wide_lo(value)));
            let d1 = follow_mov_ri(t, t, Gpr::Rcx, wide_lo(value), d, d);
            let e = follow_cmp_rr(t, t1, Gpr::Rax, Gpr::Rcx, d, d1);
            tested_case(d1, e, d1.reg(1), value);
            e
        },
    }
}

/// Whether a word is the value of a case.
pub open spec fn is_case(x: u64, value: i128) -> bool {
    x == wrap64(value as int)
}

proof fn tested_case(d: Cpu, e: Cpu, y: u64, value: i128)
    requires
        binary(d, Alu::Compare, 0, y) == Some(e),
        is_case(y, value),
    ensures
        tells(e, Cc::E) == Some(is_case(d.reg(0), value)),
{
    tested(d, e, y, value as int);
}

proof fn over_case(
    env: Env,
    s: LowState,
    t: LowState,
    value: i128,
    target: BlockId,
    c: Cpu,
    l: LabelId,
    d: Cpu,
)
    requires
        flows(s, t, c, Flow::Jumped(l, d)),
    ensures
        flows(s, env.switch_case(t, value, target), c, Flow::Jumped(l, d)),
{
    reveal(Env::switch_case);
    let u = case_tested(t, value);
    match immediate_of(value) {
        Some(imm) => {
            over_test_of_number(s, t, imm, c, l, d);
        },
        None => {
            let t1 = t.on(t.text.mov_ri(Gpr::Rcx, wide_lo(value)));
            over_number(s, t, Gpr::Rcx, wide_lo(value), c, l, d);
            over_test(s, t1, c, l, d);
        },
    }
    jumped_over_branch(s, u, Cc::E, LabelId(target.0), c, l, d);
}

proof fn over_test_of_number(s: LowState, t: LowState, imm: i32, c: Cpu, l: LabelId, d: Cpu)
    requires
        flows(s, t, c, Flow::Jumped(l, d)),
    ensures
        flows(s, t.on(t.text.cmp_ri(Gpr::Rax, imm)), c, Flow::Jumped(l, d)),
{
    cmp_ri_does(t.text, Gpr::Rax, imm);
    let u = t.on(t.text.cmp_ri(Gpr::Rax, imm));
    let a = Act::BinaryImm { op: Alu::Compare, dst: index(Gpr::Rax), value: widened(imm) };
    jumped_over(s, t, u, a, c, l, d);
}

proof fn over_test(s: LowState, t: LowState, c: Cpu, l: LabelId, d: Cpu)
    requires
        flows(s, t, c, Flow::Jumped(l, d)),
    ensures
        flows(s, t.on(t.text.cmp_rr(Gpr::Rax, Gpr::Rcx)), c, Flow::Jumped(l, d)),
{
    cmp_rr_does(t.text, Gpr::Rax, Gpr::Rcx);
    let u = t.on(t.text.cmp_rr(Gpr::Rax, Gpr::Rcx));
    let a = Act::Binary { op: Alu::Compare, dst: index(Gpr::Rax), src: index(Gpr::Rcx) };
    jumped_over(s, t, u, a, c, l, d);
}

proof fn over_number(s: LowState, t: LowState, dst: Gpr, v: i64, c: Cpu, l: LabelId, d: Cpu)
    requires
        flows(s, t, c, Flow::Jumped(l, d)),
    ensures
        flows(s, t.on(t.text.mov_ri(dst, v)), c, Flow::Jumped(l, d)),
{
    mov_ri_does(t.text, dst, v);
    let u = t.on(t.text.mov_ri(dst, v));
    let a = Act::MoveImm { dst: index(dst), value: wrap64(v as int) };
    jumped_over(s, t, u, a, c, l, d);
}

proof fn over_cases(
    env: Env,
    s: LowState,
    t: LowState,
    targets: Seq<(i128, BlockId)>,
    i: int,
    c: Cpu,
    l: LabelId,
    d: Cpu,
)
    requires
        flows(s, t, c, Flow::Jumped(l, d)),
        0 <= i,
    ensures
        flows(s, env.switch_cases_from(t, targets, i), c, Flow::Jumped(l, d)),
    decreases targets.len() - i,
{
    if i < targets.len() {
        let t1 = env.switch_case(t, targets[i].0, targets[i].1);
        over_case(env, s, t, targets[i].0, targets[i].1, c, l, d);
        over_cases(env, s, t1, targets, i + 1, c, l, d);
    }
}

proof fn cases_flow(
    env: Env,
    s: LowState,
    t: LowState,
    targets: Seq<(i128, BlockId)>,
    i: int,
    default: BlockId,
    c: Cpu,
    d: Cpu,
) -> (e: Cpu)
    requires
        flows(s, t, c, Flow::On(d)),
        d.wf(),
        0 <= i <= targets.len(),
    ensures
        ({
            let u = env.switch_cases_from(t, targets, i);
            flows(
                s,
                u.on(u.text.jmp(LabelId(default.0))),
                c,
                Flow::Jumped(LabelId(chosen(targets, i, default, d.reg(0)).0), e),
            )
        }),
        only_regs(d, e, Gpr::Rcx, Gpr::Rcx),
    decreases targets.len() - i,
{
    let u = env.switch_cases_from(t, targets, i);
    if i < targets.len() {
        let value = targets[i].0;
        let label = LabelId(targets[i].1.0);
        let t1 = case_tested(t, value);
        let d1 = case_runs(t, value, d);
        assert(d1.reg(0) == d.reg(0));
        takes_flows(s, t, t1, c, d, d1);
        let b = is_case(d.reg(0), value);
        branch_flows(s, t1, Cc::E, label, c, d1, b);
        let t2 = env.switch_case(t, value, targets[i].1);
        assert(t2 == t1.on(t1.text.jcc(Cc::E, label))) by {
            reveal(Env::switch_case);
        }
        if b {
            over_cases(env, s, t2, targets, i + 1, c, label, d1);
            jumped_over_jump(s, u, LabelId(default.0), c, label, d1);
            d1
        } else {
            let e = cases_flow(env, s, t2, targets, i + 1, default, c, d1);
            assert forall|r: int| 0 <= r < 16 && r != 1 implies #[trigger] e.reg(r) == d.reg(r) by {
                assert(d1.reg(r) == d.reg(r));
            }
            e
        }
    } else {
        jump_flows(s, u, LabelId(default.0), c, d);
        d
    }
}

/// A block that ends with a switch on a constant or a whole local goes on to the block of the
/// first case that has its value, and to the default block where none has it.
pub proof fn switch_goes(
    env: Env,
    s: LowState,
    scrutinee: Operand,
    targets: Vec<(i128, BlockId)>,
    default: BlockId,
    c: Cpu,
) -> (d: Cpu)
    requires
        c.wf(),
        s.err is None,
        !env.holds_error_union(scrutinee),
        operand_word(env, c, scrutinee) is Some,
    ensures
        flows(
            s,
            env.lower_terminator(s, Terminator::Switch { scrutinee, targets, default }),
            c,
            Flow::Jumped(
                LabelId(
                    chosen(
                        targets@,
                        0,
                        default,
                        operand_word(env, c, scrutinee).unwrap(),
                    ).0,
                ),
                d,
            ),
        ),
        only_tested(c, d),
{
    reveal(Env::lower_terminator);
    reveal(Env::load_switch_scrutinee);
    takes_nothing(s, c);
    assert(index(Gpr::Rax) == 0 && index(Gpr::Rcx) == 1);
    let t1 = env.operand_to(s, scrutinee, Gpr::Rax);
    let c1 = operand_loads(env, s, s, scrutinee, Gpr::Rax, c, c);
    from_start(s, t1, c, c1);
    let d = cases_flow(env, s, t1, targets@, 0, default, c, c1);
    assert(env.switch_cases(t1, targets@).err is None) by {
        cases_do_not_fail(env, t1, targets@, 0);
    }
    assert forall|r: int| 2 <= r < 16 implies #[trigger] d.reg(r) == c.reg(r) by {
        assert(c1.reg(r) == c.reg(r));
    }
    d
}

proof fn cases_do_not_fail(env: Env, t: LowState, targets: Seq<(i128, BlockId)>, i: int)
    requires
        0 <= i,
        t.err is None,
    ensures
        env.switch_cases_from(t, targets, i).err is None,
    decreases targets.len() - i,
{
    if i < targets.len() {
        reveal(Env::switch_case);
        cases_do_not_fail(
            env,
            env.switch_case(t, targets[i].0, targets[i].1),
            targets,
            i + 1,
        );
    }
}

// ---------------------------------------------------------------------------
//  The clock
// ---------------------------------------------------------------------------

/// The code that advances the clock by `rcx`.
pub open spec fn ticked(env: Env, t: LowState) -> LowState {
    let t = t.on(t.text.mov_ri_state(Gpr::R11, env.abi.clock_nanos));
    let t = t.on(t.text.mov_load_mem(Gpr::Rax, Gpr::R11, 0));
    let t = t.on(t.text.add_rr(Gpr::Rax, Gpr::Rcx));
    let t = t.on(t.text.mov_store_mem(Gpr::R11, 0, Gpr::Rax));
    t.on(t.text.mov_ri(Gpr::Rax, 0))
}

#[verifier::spinoff_prover]
proof fn ticked_runs(env: Env, t: LowState, d: Cpu) -> (e: Cpu)
    requires
        d.wf(),
        in_space(d.state + env.abi.clock_nanos, 8),
    ensures
        takes(t, ticked(env, t), d, e),
        e.mem == patch(
            d.mem,
            d.state + env.abi.clock_nanos,
            8,
            wrap64(fetch(d.mem, d.state + env.abi.clock_nanos, 8) + d.reg(1)) as int,
        ),
{
    takes_nothing(t, d);
    assert(index(Gpr::Rax) == 0 && index(Gpr::Rcx) == 1 && index(Gpr::R11) == 11);
    fetched_is_word(d.mem, d.state + env.abi.clock_nanos, 8);
    let t1 = t.on(t.text.mov_ri_state(Gpr::R11, env.abi.clock_nanos));
    let d1 = follow_mov_ri_state(t, t, Gpr::R11, env.abi.clock_nanos, d, d);
    let t2 = t1.on(t1.text.mov_load_mem(Gpr::Rax, Gpr::R11, 0));
    let d2 = follow_mov_load_mem(t, t1, Gpr::Rax, Gpr::R11, 0, d, d1);
    let t3 = t2.on(t2.text.add_rr(Gpr::Rax, Gpr::Rcx));
    let d3 = follow_add_rr(t, t2, Gpr::Rax, Gpr::Rcx, d, d2);
    let t4 = t3.on(t3.text.mov_store_mem(Gpr::R11, 0, Gpr::Rax));
    let d4 = follow_mov_store_mem(t, t3, Gpr::R11, 0, Gpr::Rax, d, d3);
    follow_mov_ri(t, t4, Gpr::Rax, 0, d, d4)
}

/// Sleeping for a number of nanoseconds, a constant or a whole local, moves the clock on by
/// it, and not at all where it is negative. Nothing else in memory changes.
#[verifier::spinoff_prover]
pub proof fn sleeping_moves_clock(env: Env, s: LowState, args: Seq<Operand>, c: Cpu) -> (d: Cpu)
    requires
        c.wf(),
        s.err is None,
        args.len() > 0,
        operand_word(env, c, args[0]) is Some,
        in_space(c.state + env.abi.clock_nanos, 8),
    ensures
        flows(s, env.lower_clock_sleep(s, args), c, Flow::On(d)),
        ({
            let n = signed64(operand_word(env, c, args[0]).unwrap());
            d.mem == patch(
                c.mem,
                c.state + env.abi.clock_nanos,
                8,
                wrap64(
                    fetch(c.mem, c.state + env.abi.clock_nanos, 8) + (if n > 0 {
                        n
                    } else {
                        0
                    }),
                ) as int,
            )
        }),
{
    reveal(Env::lower_clock_sleep);
    reveal(AsmState::jcc);
    reveal(AsmState::jcc_local);
    takes_nothing(s, c);
    assert(index(Gpr::Rcx) == 1);
    let x = operand_word(env, c, args[0]).unwrap();
    let t1 = env.operand_to(s, args[0], Gpr::Rcx);
    let c1 = operand_loads(env, s, s, args[0], Gpr::Rcx, c, c);
    from_start(s, t1, c, c1);
    let label = t1.text.fresh();
    let t2 = t1.on(t1.text.new_label());
    same_code_flows(s, t1, t2, c, Flow::On(c1));
    let t3 = t2.on(t2.text.test_rr(Gpr::Rcx, Gpr::Rcx));
    takes_nothing(t2, c1);
    let c3 = follow_test_rr(t2, t2, Gpr::Rcx, Gpr::Rcx, c1, c1);
    takes_flows(s, t2, t3, c, c1, c3);
    with_itself(x);
    let b = x < 0x8000_0000_0000_0000;
    assert(tells(c3, Cc::Ge) == Some(b));
    let t4 = t3.on(t3.text.jcc_local(Cc::Ge, label));
    branch_flows(s, t3, Cc::Ge, label, c, c3, b);
    let t5 = t4.on(t4.text.mov_ri(Gpr::Rcx, 0));
    let t6 = t5.on(t5.text.bind(label));
    let c6 = if b {
        over_number(s, t4, Gpr::Rcx, 0, c, label, c3);
        arrived(s, t5, label, c, c3);
        c3
    } else {
        takes_nothing(t4, c3);
        let c5 = follow_mov_ri(t4, t4, Gpr::Rcx, 0, c3, c3);
        takes_flows(s, t4, t5, c, c3, c5);
        arrived(s, t5, label, c, c5);
        c5
    };
    let t7 = ticked(env, t6);
    let d = ticked_runs(env, t6, c6);
    takes_flows(s, t6, t7, c, c6, d);
    d
}

proof fn same_code_flows(s: LowState, t: LowState, u: LowState, c: Cpu, f: Flow)
    requires
        flows(s, t, c, f),
        u.text.instrs == t.text.instrs,
    ensures
        flows(s, u, c, f),
{
    reveal(flows);
}

} // verus!
