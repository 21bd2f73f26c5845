//! Where lowered code goes: jumps, branches and switches.
use vstd::prelude::*;

use crate::lower::scalar::wide_lo;
use crate::lower::flow_effects::chosen;
use crate::mir::{BlockId, Operand, Terminator};
use crate::aarch64::steps::{cmp_imm_does, index, number};
use crate::aarch64::lower::simulation::{
    flags_run, only_temps, operand_loads, operand_word, temps_trans, tested,
};
use crate::aarch64::lower::effects::{adds_takes, number_is_loaded, takes, takes_nothing};
use crate::aarch64::encode::{A64State, Branch, BranchKind, Reg};
use crate::aarch64::fields::{bits_at, masks};
use crate::aarch64::lower::env::{A64Func, A64Low, RES, S2};
use crate::aarch64::machine::{Act, Core, act, condition, read, run};
use crate::bytes::{le32, le32_reads_back, rd32, wrap64};
use crate::encode::{Cc, LabelId};

verus! {

/// The number of a condition.
pub open spec fn cond_number(cc: Cc) -> int {
    cc.cond_bits() as int
}

/// How far code got.
pub enum Flow {
    /// To its end.
    On(Core),
    /// To a label.
    Jumped(LabelId, Core),
    /// Not at all.
    Stuck,
}

/// The label of the branch at an offset.
pub open spec fn branch_at(b: Seq<Branch>, k: int) -> Option<LabelId>
    decreases b.len(),
{
    if b.len() == 0 {
        None
    } else if b.last().at == k {
        Some(b.last().label)
    } else {
        branch_at(b.drop_last(), k)
    }
}

/// What one word does to a flow: a branch goes to its label, always or where its condition
/// holds.
pub open spec fn onward(f: Flow, w: u32, target: Option<LabelId>) -> Flow {
    match f {
        Flow::On(d) => match target {
            Some(l) => if w == 0x1400_0000 {
                Flow::Jumped(l, d)
            } else if bits_at(w, 24, 8) == 0x54 {
                if condition(d, bits_at(w, 0, 4) as int) {
                    Flow::Jumped(l, d)
                } else {
                    Flow::On(d)
                }
            } else {
                Flow::Stuck
            },
            None => match act(read(w), d) {
                Some(e) => Flow::On(e),
                None => Flow::Stuck,
            },
        },
        _ => f,
    }
}

/// How far the words from byte `n` on get, up to the first branch that is taken.
pub open spec fn flow(code: Seq<u8>, b: Seq<Branch>, n: nat, c: Core) -> Flow
    decreases code.len(),
{
    if code.len() < n + 4 {
        Flow::On(c)
    } else {
        let k = code.len() - 4;
        onward(flow(code.take(k), b, n, c), rd32(code, k) as u32, branch_at(b, k))
    }
}

/// Whether every branch is behind the end of the code.
pub open spec fn branches_behind(t: A64State) -> bool {
    forall|i: int| 0 <= i < t.branches.len() ==> (#[trigger] t.branches[i]).at < t.code.len()
}

/// Whether `t` has the branches of `s`, and others only beyond its code.
pub open spec fn branches_added(s: A64State, t: A64State) -> bool {
    &&& s.branches.len() <= t.branches.len()
    &&& forall|i: int|
        0 <= i < t.branches.len() ==> if i < s.branches.len() {
            #[trigger] t.branches[i] == s.branches[i]
        } else {
            t.branches[i].at >= s.code.len()
        }
}

/// Whether the code that `t` has beyond `s` gets as far as `f`, from `c`.
#[verifier::opaque]
pub open spec fn flows(s: A64Low, t: A64Low, c: Core, f: Flow) -> bool {
    &&& s.text.code.len() <= t.text.code.len()
    &&& t.text.code.take(s.text.code.len() as int) == s.text.code
    &&& (t.text.code.len() - s.text.code.len()) % 4 == 0
    &&& branches_behind(t.text)
    &&& branches_added(s.text, t.text)
    &&& flow(t.text.code, t.text.branches, s.text.code.len(), c) == f
}

proof fn nothing_flows(s: A64Low, c: Core)
    requires
        branches_behind(s.text),
    ensures
        flows(s, s, c, Flow::On(c)),
{
    reveal(flows);
    assert(s.text.code.take(s.text.code.len() as int) =~= s.text.code);
}

proof fn no_branch_ahead(b: Seq<Branch>, k: int)
    requires
        forall|i: int| 0 <= i < b.len() ==> (#[trigger] b[i]).at < k,
    ensures
        branch_at(b, k) is None,
    decreases b.len(),
{
    if b.len() > 0 {
        assert(b[b.len() - 1].at < k);
        assert forall|i: int| 0 <= i < b.drop_last().len() implies (
        #[trigger] b.drop_last()[i]).at < k by {
            assert(b.drop_last()[i] == b[i]);
        }
        no_branch_ahead(b.drop_last(), k);
    }
}

proof fn later_branch_is_unseen(code: Seq<u8>, b: Seq<Branch>, x: Branch, n: nat, c: Core)
    requires
        x.at >= code.len(),
    ensures
        flow(code, b.push(x), n, c) == flow(code, b, n, c),
    decreases code.len(),
{
    if code.len() >= n + 4 {
        let k = code.len() - 4;
        later_branch_is_unseen(code.take(k), b, x, n, c);
        assert(b.push(x).drop_last() =~= b);
    }
}

proof fn straight_flows(code: Seq<u8>, b: Seq<Branch>, n: nat, m: nat, c: Core, f: Core, d: Core)
    requires
        n <= m <= code.len(),
        (m - n) % 4 == 0,
        flow(code.take(m as int), b, n, c) == Flow::On(f),
        run(code, m, f) == Some(d),
        forall|i: int| 0 <= i < b.len() ==> (#[trigger] b[i]).at < m,
        (code.len() - m) % 4 == 0,
    ensures
        flow(code, b, n, c) == Flow::On(d),
    decreases code.len(),
{
    if code.len() < m + 4 {
        assert(code.take(m as int) =~= code);
    } else {
        let k = code.len() - 4;
        let t = code.take(k);
        assert(t.take(m as int) =~= code.take(m as int));
        let e = run(t, m, f).unwrap();
        straight_flows(t, b, n, m, c, f, e);
        assert forall|i: int| 0 <= i < b.len() implies (#[trigger] b[i]).at < k by {}
        no_branch_ahead(b, k);
    }
}

proof fn takes_flows(s: A64Low, t: A64Low, u: A64Low, c: Core, d: Core, e: Core)
    requires
        flows(s, t, c, Flow::On(d)),
        takes(t, u, d, e),
    ensures
        flows(s, u, c, Flow::On(e)),
{
    reveal(flows);
    reveal(takes);
    let n = s.text.code.len();
    let k = t.text.code.len();
    straight_flows(u.text.code, u.text.branches, n, k, c, d, e);
    assert(u.text.code.take(n as int) =~= u.text.code.take(k as int).take(n as int));
}

proof fn jumped_takes(
    s: A64Low,
    t: A64Low,
    u: A64Low,
    c: Core,
    d: Core,
    e: Core,
    l: LabelId,
    j: Core,
)
    requires
        flows(s, t, c, Flow::Jumped(l, j)),
        takes(t, u, d, e),
    ensures
        flows(s, u, c, Flow::Jumped(l, j)),
{
    reveal(flows);
    reveal(takes);
    let n = s.text.code.len();
    let k = t.text.code.len();
    jumped_stays(u.text.code, u.text.branches, n, k, c, l, j);
    assert(u.text.code.take(n as int) =~= u.text.code.take(k as int).take(n as int));
}

proof fn jumped_stays(
    code: Seq<u8>,
    b: Seq<Branch>,
    n: nat,
    m: nat,
    c: Core,
    l: LabelId,
    j: Core,
)
    requires
        n <= m <= code.len(),
        flow(code.take(m as int), b, n, c) == Flow::Jumped(l, j),
        (code.len() - m) % 4 == 0,
        (m - n) % 4 == 0,
    ensures
        flow(code, b, n, c) == Flow::Jumped(l, j),
    decreases code.len(),
{
    if code.len() < m + 4 {
        assert(code.take(m as int) =~= code);
    } else {
        let t = code.take(code.len() - 4);
        assert(t.take(m as int) =~= code.take(m as int));
        jumped_stays(t, b, n, m, c, l, j);
    }
}

/// A branch word behind the code.
pub open spec fn branched(t: A64Low, label: LabelId, kind: BranchKind, w: u32) -> A64Low {
    t.on(t.text.branch(label, kind).word(w))
}

proof fn one_more_branch(
    s: A64Low,
    t: A64Low,
    label: LabelId,
    kind: BranchKind,
    w: u32,
    c: Core,
    f: Flow,
)
    requires
        flows(s, t, c, f),
        t.text.code.len() <= usize::MAX,
    ensures
        flows(s, branched(t, label, kind, w), c, onward(f, w, Some(label))),
{
    reveal(flows);
    let u = branched(t, label, kind, w);
    let x = Branch { at: t.text.code.len() as usize, label, kind };
    let n = s.text.code.len();
    let k = t.text.code.len();
    le32_reads_back(w);
    assert(u.text.branches == t.text.branches.push(x));
    assert(u.text.code.take(k as int) =~= t.text.code);
    assert(u.text.code.take(n as int) =~= u.text.code.take(k as int).take(n as int));
    assert(rd32(u.text.code, k as int) == rd32(le32(w), 0));
    later_branch_is_unseen(t.text.code, t.text.branches, x, n, c);
    assert forall|i: int| 0 <= i < u.text.branches.len() implies (
    #[trigger] u.text.branches[i]).at < u.text.code.len() by {
        if i < t.text.branches.len() {
            assert(t.text.branches[i].at < k);
        }
    }
    assert forall|i: int| 0 <= i < u.text.branches.len() implies if i < s.text.branches.len() {
        #[trigger] u.text.branches[i] == s.text.branches[i]
    } else {
        u.text.branches[i].at >= s.text.code.len()
    } by {
        if i < t.text.branches.len() {
            assert(u.text.branches[i] == t.text.branches[i]);
        }
    }
}

proof fn jump_flows(s: A64Low, t: A64Low, label: LabelId, c: Core, f: Flow)
    requires
        flows(s, t, c, f),
        !(f is Stuck),
        t.text.code.len() <= usize::MAX,
    ensures
        flows(
            s,
            t.on(t.text.b(label)),
            c,
            match f {
                Flow::On(d) => Flow::Jumped(label, d),
                _ => f,
            },
        ),
{
    reveal(A64State::b);
    one_more_branch(s, t, label, BranchKind::Imm26, 0x1400_0000, c, f);
}

pub(crate) proof fn condition_word(cc: Cc)
    ensures
        ({
            let i = 0x5400_0000u32 | (cc.cond_bits() as u32);
            i != 0x1400_0000 && bits_at(i, 24, 8) == 0x54 && bits_at(i, 0, 4) == cond_number(cc)
        }),
{
    let k = cc.cond_bits() as u32;
    let w = 0x5400_0000u32 | k;
    masks();
    assert(w != 0x1400_0000 && (w >> 24u32) & 0xFF == 0x54 && (w >> 0u32) & 0xF == k)
        by (bit_vector)
        requires
            w == 0x5400_0000u32 | k,
            k < 16,
    ;
}

proof fn branch_flows(s: A64Low, t: A64Low, cc: Cc, label: LabelId, c: Core, f: Flow)
    requires
        flows(s, t, c, f),
        !(f is Stuck),
        t.text.code.len() <= usize::MAX,
    ensures
        flows(
            s,
            t.on(t.text.bcc(cc, label)),
            c,
            match f {
                Flow::On(d) => if condition(d, cond_number(cc)) {
                    Flow::Jumped(label, d)
                } else {
                    f
                },
                _ => f,
            },
        ),
{
    reveal(A64State::bcc);
    condition_word(cc);
    let w = 0x5400_0000u32 | (cc.cond_bits() as u32);
    one_more_branch(s, t, label, BranchKind::Imm19, w, c, f);
}

// ---------------------------------------------------------------------------
//  The ends of blocks
// ---------------------------------------------------------------------------

/// A block that ends with a jump goes on to the block that is named.
pub proof fn goto_goes(env: A64Func, s: A64Low, target: BlockId, c: Core)
    requires
        branches_behind(s.text),
        s.text.code.len() <= usize::MAX,
    ensures
        flows(
            s,
            env.lower_terminator(s, Terminator::Goto(target)),
            c,
            Flow::Jumped(LabelId(target.0), c),
        ),
{
    reveal(A64Func::lower_terminator);
    nothing_flows(s, c);
    jump_flows(s, s, LabelId(target.0), c, Flow::On(c));
}

/// The code of a test against zero.
pub open spec fn tested_zero(t: A64Low) -> A64Low {
    t.on(t.text.cmp_imm(Reg(RES), 0))
}

proof fn zero_test_runs(t: A64Low, d: Core) -> (e: Core)
    requires
        d.wf(),
    ensures
        takes(t, tested_zero(t), d, e),
        only_temps(d, e),
        condition(e, cond_number(Cc::Ne)) == (d.reg(9) != 0),
{
    takes_nothing(t, d);
    cmp_imm_does(t.text, Reg(RES), 0);
    reveal(act);
    let z = Act::CompareImm { rd: 31, rn: index(Reg(RES)), value: number(0) };
    adds_takes(t, t, tested_zero(t), z, d, d);
    act(z, d).unwrap()
}

proof fn branch_len(t: A64Low, cc: Cc, label: LabelId)
    ensures
        t.on(t.text.bcc(cc, label)).text.code.len() == t.text.code.len() + 4,
        t.on(t.text.b(label)).text.code.len() == t.text.code.len() + 4,
{
    reveal(A64State::bcc);
    reveal(A64State::b);
}

/// A block that ends with a branch goes on to its first block where the condition, a constant
/// or a whole local, is not zero, and to its second where it is.
pub proof fn branch_goes(
    env: A64Func,
    s: A64Low,
    cond: Operand,
    then_bb: BlockId,
    else_bb: BlockId,
    c: Core,
) -> (d: Core)
    requires
        c.wf(),
        s.err is None,
        branches_behind(s.text),
        operand_word(env, c, cond) is Some,
        env.lower_terminator(
            s,
            Terminator::Branch { cond, then_bb, else_bb },
        ).text.code.len() <= usize::MAX,
    ensures
        flows(
            s,
            env.lower_terminator(s, Terminator::Branch { cond, then_bb, else_bb }),
            c,
            Flow::Jumped(
                if operand_word(env, c, cond) != Some(0u64) {
                    LabelId(then_bb.0)
                } else {
                    LabelId(else_bb.0)
                },
                d,
            ),
        ),
        only_temps(c, d),
{
    reveal(A64Func::lower_terminator);
    takes_nothing(s, c);
    nothing_flows(s, c);
    let t1 = env.operand_to(s, cond, Reg(RES));
    let c1 = operand_loads(env, s, s, cond, Reg(RES), c, c);
    let t2 = tested_zero(t1);
    let c2 = zero_test_runs(t1, c1);
    let t3 = t2.on(t2.text.bcc(Cc::Ne, LabelId(then_bb.0)));
    branch_len(t2, Cc::Ne, LabelId(then_bb.0));
    branch_len(t3, Cc::Ne, LabelId(else_bb.0));
    takes_flows(s, s, t1, c, c, c1);
    takes_flows(s, t1, t2, c, c1, c2);
    branch_flows(s, t2, Cc::Ne, LabelId(then_bb.0), c, Flow::On(c2));
    let f = if c1.reg(9) != 0 {
        Flow::Jumped(LabelId(then_bb.0), c2)
    } else {
        Flow::On(c2)
    };
    jump_flows(s, t3, LabelId(else_bb.0), c, f);
    assert(only_temps(c, c1));
    temps_trans(c, c1, c2);
    c2
}

// ---------------------------------------------------------------------------
//  Switches
// ---------------------------------------------------------------------------

/// The code of a test of one case, before its branch.
pub open spec fn case_tested(t: A64Low, value: i128) -> A64Low {
    tested(t.on(t.text.mov_imm(Reg(S2), wide_lo(value))))
}

/// Whether a word is the value of a case.
pub open spec fn is_case(x: u64, value: i128) -> bool {
    x == wrap64(value as int)
}

proof fn case_runs(t: A64Low, value: i128, d: Core) -> (e: Core)
    requires
        d.wf(),
    ensures
        takes(t, case_tested(t, value), d, e),
        only_temps(d, e),
        e.reg(9) == d.reg(9),
        condition(e, cond_number(Cc::E)) == is_case(d.reg(9), value),
{
    takes_nothing(t, d);
    let t1 = t.on(t.text.mov_imm(Reg(S2), wide_lo(value)));
    let d1 = number_is_loaded(t, t, Reg(S2), wide_lo(value), d, d);
    let e = flags_run(t, t1, d, d1);
    let x = d.reg(9);
    let y = d1.reg(10);
    assert(y == wrap64(value as int));
    assert((wrap64(x - y) == 0) == (x == y));
    e
}

proof fn case_grows(env: A64Func, t: A64Low, value: i128, target: BlockId)
    ensures
        env.switch_case(t, value, target) == case_tested(t, value).on(
            case_tested(t, value).text.bcc(Cc::E, LabelId(target.0)),
        ),
        t.text.code.len() + 4 <= env.switch_case(t, value, target).text.code.len(),
        case_tested(t, value).text.code.len() <= env.switch_case(t, value, target).text.code.len(),
        env.switch_case(t, value, target).err == t.err,
{
    reveal(A64Func::switch_case);
    reveal(A64State::mov_imm);
    reveal(A64State::cmp);
    reveal(A64State::bcc);
}

proof fn cases_grow(env: A64Func, t: A64Low, targets: Seq<(i128, BlockId)>, i: int)
    requires
        0 <= i,
    ensures
        t.text.code.len() <= env.switch_cases_from(t, targets, i).text.code.len(),
        env.switch_cases_from(t, targets, i).err == t.err,
    decreases targets.len() - i,
{
    if i < targets.len() {
        case_grows(env, t, targets[i].0, targets[i].1);
        cases_grow(env, env.switch_case(t, targets[i].0, targets[i].1), targets, i + 1);
    }
}

proof fn cases_flow(
    env: A64Func,
    s: A64Low,
    t: A64Low,
    targets: Seq<(i128, BlockId)>,
    i: int,
    default: BlockId,
    c: Core,
    d: Core,
    jumped: Option<(LabelId, Core)>,
) -> (e: Core)
    requires
        flows(
            s,
            t,
            c,
            match jumped {
                Some((l, j)) => Flow::Jumped(l, j),
                None => Flow::On(d),
            },
        ),
        d.wf(),
        0 <= i <= targets.len(),
        env.switch_cases_from(t, targets, i).text.code.len() + 4 <= usize::MAX,
    ensures
        ({
            let u = env.switch_cases_from(t, targets, i);
            flows(
                s,
                u.on(u.text.b(LabelId(default.0))),
                c,
                match jumped {
                    Some((l, j)) => Flow::Jumped(l, j),
                    None => Flow::Jumped(LabelId(chosen(targets, i, default, d.reg(9)).0), e),
                },
            )
        }),
        only_temps(d, e),
    decreases targets.len() - i,
{
    let u = env.switch_cases_from(t, targets, i);
    if i < targets.len() {
        let value = targets[i].0;
        let label = LabelId(targets[i].1.0);
        let t1 = case_tested(t, value);
        let t2 = env.switch_case(t, value, targets[i].1);
        let d1 = case_runs(t, value, d);
        case_grows(env, t, value, targets[i].1);
        cases_grow(env, t2, targets, i + 1);
        match jumped {
            Some((l, j)) => {
                jumped_takes(s, t, t1, c, d, d1, l, j);
                branch_flows(s, t1, Cc::E, label, c, Flow::Jumped(l, j));
                let e = cases_flow(env, s, t2, targets, i + 1, default, c, d1, jumped);
                temps_trans(d, d1, e);
                e
            },
            None => {
                takes_flows(s, t, t1, c, d, d1);
                branch_flows(s, t1, Cc::E, label, c, Flow::On(d1));
                let next = if is_case(d.reg(9), value) {
                    Some((label, d1))
                } else {
                    None
                };
                let e = cases_flow(env, s, t2, targets, i + 1, default, c, d1, next);
                temps_trans(d, d1, e);
                if is_case(d.reg(9), value) {
                    d1
                } else {
                    e
                }
            },
        }
    } else {
        match jumped {
            Some((l, j)) => {
                jump_flows(s, u, LabelId(default.0), c, Flow::Jumped(l, j));
            },
            None => {
                jump_flows(s, u, LabelId(default.0), c, Flow::On(d));
            },
        }
        d
    }
}

/// A block that ends with a switch on a constant or a whole local goes on to the block of the
/// first case that has its value, and to the default block where none has it.
pub proof fn switch_goes(
    env: A64Func,
    s: A64Low,
    scrutinee: Operand,
    targets: Vec<(i128, BlockId)>,
    default: BlockId,
    c: Core,
) -> (d: Core)
    requires
        c.wf(),
        s.err is None,
        branches_behind(s.text),
        !env.operand_is_error_union(scrutinee),
        operand_word(env, c, scrutinee) is Some,
        env.lower_terminator(
            s,
            Terminator::Switch { scrutinee, targets, default },
        ).text.code.len() <= usize::MAX,
    ensures
        flows(
            s,
            env.lower_terminator(s, Terminator::Switch { scrutinee, targets, default }),
            c,
            Flow::Jumped(
                LabelId(
                    chosen(
                        targets@,
                        0,
                        default,
                        operand_word(env, c, scrutinee).unwrap(),
                    ).0,
                ),
                d,
            ),
        ),
        only_temps(c, d),
{
    reveal(A64Func::lower_terminator);
    reveal(A64Func::load_switch_scrutinee);
    takes_nothing(s, c);
    nothing_flows(s, c);
    let t1 = env.operand_to(s, scrutinee, Reg(RES));
    let c1 = operand_loads(env, s, s, scrutinee, Reg(RES), c, c);
    takes_flows(s, s, t1, c, c, c1);
    cases_grow(env, t1, targets@, 0);
    let u = env.switch_cases(t1, targets@);
    branch_len(u, Cc::E, LabelId(default.0));
    let d = cases_flow(env, s, t1, targets@, 0, default, c, c1, None);
    assert(only_temps(c, c1));
    temps_trans(c, c1, d);
    d
}

} // verus!
