//! Lowered blocks do what their statements say: for blocks of scalar assignments that end
//! with a jump, a branch or a switch.
use vstd::prelude::*;

use crate::encode::LabelId;
use crate::aarch64::lower::effects::{takes, takes_nothing};
use crate::aarch64::lower::env::{A64Func, A64Low};
use crate::aarch64::lower::flow::{
    Flow, branch_at, branch_goes, branches_added, branches_behind, flow, flows, goto_goes,
    switch_goes,
};
use crate::aarch64::lower::simulation::{
    assigned, assigned_local_reads, assignment_simulates, assigns, binary_value, brought, computed,
    constant_word, has_result, in_one_word, kept_word, local_word, only_temps, operand_word,
    other_local_stays,
};
use crate::aarch64::encode::{A64State, Branch};
use crate::aarch64::machine::{Core, run};
use crate::lower::arith_effects::value_of;
use crate::lower::flow_effects::chosen;
use crate::lower::mem_effects::apart;
use crate::machine::in_space;
use crate::mir::{Block, BlockId, LocalId, Operand, Rvalue, Statement, Terminator, UnOp};

verus! {

// ---------------------------------------------------------------------------
//  What statements say
// ---------------------------------------------------------------------------

/// The value of a constant or a whole local.
pub open spec fn operand_value(env: A64Func, m: Seq<u64>, op: Operand) -> Option<u64> {
    match op {
        Operand::Const(k) => constant_word(env, k),
        Operand::Copy(p) => if p.proj@.len() == 0 && p.base.0 < m.len() {
            Some(m[p.base.0 as int])
        } else {
            None
        },
    }
}

/// The value that is assigned to a local, where it is one of a word and has one.
pub open spec fn value_for(env: A64Func, m: Seq<u64>, l: LocalId, rvalue: Rvalue) -> Option<u64> {
    if !in_one_word(env, l, rvalue) {
        None
    } else {
        match rvalue {
            Rvalue::Use(op) => match operand_value(env, m, op) {
                Some(x) => Some(brought(env, x as int, env.local_ty(l))),
                None => None,
            },
            Rvalue::Binary { op, lhs, rhs, ty } => match (
                operand_value(env, m, lhs),
                operand_value(env, m, rhs),
            ) {
                (Some(x), Some(y)) => if has_result(op, y) && !env.is_float(ty) {
                    Some(binary_value(env, op, lhs, rhs, ty, x, y))
                } else {
                    None
                },
                _ => None,
            },
            Rvalue::Unary { un, operand, ty } => match operand_value(env, m, operand) {
                Some(x) => Some(
                    match un {
                        UnOp::Neg => brought(env, -value_of(x, env.repr_of(ty).signed), ty),
                        UnOp::BitNot => brought(
                            env,
                            -1 - value_of(x, env.repr_of(ty).signed),
                            ty,
                        ),
                        UnOp::Not => x ^ 1,
                    },
                ),
                None => None,
            },
            Rvalue::Cast { kind, operand, ty } => match operand_value(env, m, operand) {
                Some(x) => if env.extends(kind) {
                    Some(brought(env, x as int, ty))
                } else {
                    None
                },
                None => None,
            },
            _ => None,
        }
    }
}

/// The values of the locals after a statement, where it assigns a value of a word to a whole
/// local, or does nothing. A local keeps what its type has room for.
pub open spec fn after_stmt(env: A64Func, m: Seq<u64>, stmt: Statement) -> Option<Seq<u64>> {
    match stmt {
        Statement::Assign { place, rvalue } => if place.proj@.len() == 0 && place.base.0
            < m.len() {
            match value_for(env, m, place.base, rvalue) {
                Some(v) => Some(
                    m.update(place.base.0 as int, kept_word(env, env.local_ty(place.base), v)),
                ),
                None => None,
            }
        } else {
            None
        },
        Statement::Eval { .. } => None,
        _ => Some(m),
    }
}

/// The values of the locals after the statements of a block from the `i`-th on.
pub open spec fn after_stmts(env: A64Func, m: Seq<u64>, b: Block, i: int) -> Option<Seq<u64>>
    decreases b.stmts@.len() - i,
{
    if i < 0 || i >= b.stmts@.len() {
        Some(m)
    } else {
        match after_stmt(env, m, b.stmts@[i]) {
            Some(k) => after_stmts(env, k, b, i + 1),
            None => None,
        }
    }
}

/// The block that follows, where the end of a block is a jump, a branch or a switch.
pub open spec fn next_block(env: A64Func, m: Seq<u64>, term: Terminator) -> Option<BlockId> {
    match term {
        Terminator::Goto(t) => Some(t),
        Terminator::Branch { cond, then_bb, else_bb } => match operand_value(env, m, cond) {
            Some(x) => Some(
                if x != 0 {
                    then_bb
                } else {
                    else_bb
                },
            ),
            None => None,
        },
        Terminator::Switch { scrutinee, targets, default } => match operand_value(
            env,
            m,
            scrutinee,
        ) {
            Some(x) => if env.operand_is_error_union(scrutinee) {
                None
            } else {
                Some(chosen(targets@, 0, default, x))
            },
            None => None,
        },
        _ => None,
    }
}

// ---------------------------------------------------------------------------
//  Where locals live
// ---------------------------------------------------------------------------

/// Whether the homes of the first `n` locals are in the address space, and apart.
pub open spec fn all_live(env: A64Func, fp: u64, n: nat) -> bool {
    &&& forall|l: LocalId| l.0 < n ==> in_space(fp + #[trigger] env.home(l), 8)
    &&& forall|l: LocalId, k: LocalId|
        l.0 < n && k.0 < n && l != k ==> apart(
            #[trigger] env.home(l) as int,
            #[trigger] env.home(k) as int,
            8,
        )
}

/// Whether a processor holds the values of the locals.
pub open spec fn holds_values(env: A64Func, c: Core, m: Seq<u64>) -> bool {
    &&& c.wf()
    &&& all_live(env, c.reg(29), m.len())
    &&& forall|l: LocalId|
        l.0 < m.len() ==> #[trigger] local_word(env, c, l) == Some(m[l.0 as int])
}

proof fn value_is_held(env: A64Func, c: Core, m: Seq<u64>, op: Operand)
    requires
        holds_values(env, c, m),
        operand_value(env, m, op) is Some,
    ensures
        operand_word(env, c, op) == operand_value(env, m, op),
{
    if let Operand::Copy(p) = op {
        assert(local_word(env, c, p.base) == Some(m[p.base.0 as int]));
    }
}

proof fn value_is_computed(env: A64Func, c: Core, m: Seq<u64>, l: LocalId, rvalue: Rvalue)
    requires
        holds_values(env, c, m),
        value_for(env, m, l, rvalue) is Some,
    ensures
        computed(env, c, l, rvalue) == value_for(env, m, l, rvalue),
{
    match rvalue {
        Rvalue::Use(op) => value_is_held(env, c, m, op),
        Rvalue::Binary { lhs, rhs, .. } => {
            value_is_held(env, c, m, lhs);
            value_is_held(env, c, m, rhs);
        },
        Rvalue::Unary { operand, .. } => value_is_held(env, c, m, operand),
        Rvalue::Cast { operand, .. } => value_is_held(env, c, m, operand),
        _ => {},
    }
}

proof fn assignment_held(env: A64Func, c: Core, d: Core, m: Seq<u64>, l: LocalId, v: u64)
    requires
        holds_values(env, c, m),
        l.0 < m.len(),
        assigned(env, c, d, l, v),
    ensures
        holds_values(env, d, m.update(l.0 as int, kept_word(env, env.local_ty(l), v))),
        d.sp == c.sp,
        d.reg(29) == c.reg(29),
{
    let k = m.update(l.0 as int, kept_word(env, env.local_ty(l), v));
    assert(d.regs[29] == c.regs[29]);
    assert(in_space(c.reg(29) + env.home(l), 8));
    assert forall|q: LocalId| q.0 < k.len() implies #[trigger] local_word(env, d, q) == Some(
        k[q.0 as int],
    ) by {
        assert(local_word(env, c, q) == Some(m[q.0 as int]));
        if q == l {
            assigned_local_reads(env, c, d, l, v);
        } else {
            assert(apart(env.home(l) as int, env.home(q) as int, 8));
            other_local_stays(env, c, d, l, v, q);
        }
    }
}

proof fn testing_keeps(env: A64Func, c: Core, d: Core, m: Seq<u64>)
    requires
        holds_values(env, c, m),
        only_temps(c, d),
    ensures
        holds_values(env, d, m),
        d.sp == c.sp,
        d.reg(29) == c.reg(29),
{
    assert(d.regs[29] == c.regs[29]);
    reveal(local_word);
    assert forall|q: LocalId| q.0 < m.len() implies #[trigger] local_word(env, d, q) == Some(
        m[q.0 as int],
    ) by {
        assert(local_word(env, c, q) == Some(m[q.0 as int]));
    }
}

// ---------------------------------------------------------------------------
//  Blocks
// ---------------------------------------------------------------------------

/// The code of a statement does to the locals what the statement says.
pub proof fn statement_simulates(
    env: A64Func,
    s: A64Low,
    stmt: Statement,
    c: Core,
    m: Seq<u64>,
) -> (d: Core)
    requires
        s.err is None,
        holds_values(env, c, m),
        after_stmt(env, m, stmt) is Some,
    ensures
        takes(s, env.lower_stmt(s, stmt), c, d),
        env.lower_stmt(s, stmt).err is None,
        holds_values(env, d, after_stmt(env, m, stmt).unwrap()),
        d.sp == c.sp,
        d.reg(29) == c.reg(29),
{
    match stmt {
        Statement::Assign { place, rvalue } => {
            let l = place.base;
            value_is_computed(env, c, m, l, rvalue);
            assert(assigns(stmt, l, rvalue));
            assert(in_space(c.reg(29) + env.home(l), 8));
            let d = assignment_simulates(env, s, stmt, l, rvalue, c);
            assignment_held(env, c, d, m, l, value_for(env, m, l, rvalue).unwrap());
            d
        },
        _ => {
            reveal(A64Func::lower_stmt);
            takes_nothing(s, c);
            c
        },
    }
}

proof fn runs_compose(code: Seq<u8>, n: nat, k: nat, c: Core, d: Core)
    requires
        n <= k <= code.len(),
        run(code.take(k as int), n, c) == Some(d),
        (k - n) % 4 == 0,
        (code.len() - k) % 4 == 0,
    ensures
        run(code, n, c) == run(code, k, d),
    decreases code.len(),
{
    if code.len() < k + 4 {
        assert(code.take(k as int) =~= code);
    } else {
        let t = code.take(code.len() - 4);
        assert(t.take(k as int) =~= code.take(k as int));
        runs_compose(t, n, k, c, d);
    }
}

pub(crate) proof fn takes_compose(s: A64Low, t: A64Low, u: A64Low, c: Core, d: Core, e: Core)
    requires
        takes(s, t, c, d),
        takes(t, u, d, e),
    ensures
        takes(s, u, c, e),
{
    reveal(takes);
    let n = s.text.code.len();
    let k = t.text.code.len();
    runs_compose(u.text.code, n, k, c, d);
    assert(u.text.code.take(n as int) =~= u.text.code.take(k as int).take(n as int));
}

proof fn statements_run(
    env: A64Func,
    s: A64Low,
    b: Block,
    i: int,
    c: Core,
    m: Seq<u64>,
) -> (d: Core)
    requires
        s.err is None,
        0 <= i <= b.stmts@.len(),
        holds_values(env, c, m),
        after_stmts(env, m, b, i) is Some,
    ensures
        takes(s, env.lower_stmts_from(s, b, i), c, d),
        env.lower_stmts_from(s, b, i).err is None,
        holds_values(env, d, after_stmts(env, m, b, i).unwrap()),
        d.sp == c.sp,
        d.reg(29) == c.reg(29),
    decreases b.stmts@.len() - i,
{
    if i < b.stmts@.len() {
        let stmt = b.stmts@[i];
        assert(b.stmts[i] == stmt);
        let t = env.lower_stmt(s, stmt);
        let c1 = statement_simulates(env, s, stmt, c, m);
        let k = after_stmt(env, m, stmt).unwrap();
        let d = statements_run(env, t, b, i + 1, c1, k);
        takes_compose(s, t, env.lower_stmts_from(t, b, i + 1), c, c1, d);
        d
    } else {
        takes_nothing(s, c);
        c
    }
}

proof fn straight(code: Seq<u8>, b: Seq<Branch>, n: nat, c: Core, d: Core)
    requires
        run(code, n, c) == Some(d),
        forall|i: int| 0 <= i < b.len() ==> (#[trigger] b[i]).at < n || b[i].at >= code.len(),
    ensures
        flow(code, b, n, c) == Flow::On(d),
    decreases code.len(),
{
    if code.len() >= n + 4 {
        let k = code.len() - 4;
        let e = run(code.take(k), n, c).unwrap();
        straight(code.take(k), b, n, c, e);
        no_branch_between(b, n, k, code.len());
    }
}

proof fn no_branch_between(b: Seq<Branch>, n: nat, k: int, end: nat)
    requires
        n <= k < end,
        forall|i: int| 0 <= i < b.len() ==> (#[trigger] b[i]).at < n || b[i].at >= end,
    ensures
        branch_at(b, k) is None,
    decreases b.len(),
{
    if b.len() > 0 {
        assert(b[b.len() - 1].at < n || b[b.len() - 1].at >= end);
        assert forall|i: int| 0 <= i < b.drop_last().len() implies (
        #[trigger] b.drop_last()[i]).at < n || b.drop_last()[i].at >= end by {
            assert(b.drop_last()[i] == b[i]);
        }
        no_branch_between(b.drop_last(), n, k, end);
    }
}

proof fn flow_goes_on(code: Seq<u8>, b: Seq<Branch>, n: nat, k: nat, c: Core, d: Core)
    requires
        n <= k <= code.len(),
        run(code.take(k as int), n, c) == Some(d),
        (k - n) % 4 == 0,
        (code.len() - k) % 4 == 0,
        forall|i: int| 0 <= i < b.len() ==> (#[trigger] b[i]).at < n || b[i].at >= k,
    ensures
        flow(code, b, n, c) == flow(code, b, k, d),
    decreases code.len(),
{
    if code.len() < k + 4 {
        assert(code.take(k as int) =~= code);
        straight(code, b, n, c, d);
    } else {
        let t = code.take(code.len() - 4);
        assert(t.take(k as int) =~= code.take(k as int));
        flow_goes_on(t, b, n, k, c, d);
    }
}

proof fn flows_compose(s: A64Low, t: A64Low, u: A64Low, c: Core, d: Core, f: Flow)
    requires
        branches_behind(s.text),
        takes(s, t, c, d),
        flows(t, u, d, f),
    ensures
        flows(s, u, c, f),
{
    reveal(takes);
    reveal(flows);
    let n = s.text.code.len();
    let k = t.text.code.len();
    let b = u.text.branches;
    assert forall|i: int| 0 <= i < b.len() implies (#[trigger] b[i]).at < n || b[i].at >= k by {
        if i < t.text.branches.len() {
            assert(b[i] == t.text.branches[i]);
            assert(s.text.branches[i].at < n);
        }
    }
    flow_goes_on(u.text.code, b, n, k, c, d);
    assert(u.text.code.take(n as int) =~= u.text.code.take(k as int).take(n as int));
    assert(branches_added(s.text, u.text)) by {
        assert forall|i: int| 0 <= i < b.len() implies if i < s.text.branches.len() {
            #[trigger] b[i] == s.text.branches[i]
        } else {
            b[i].at >= n
        } by {
            if i < t.text.branches.len() {
                assert(b[i] == t.text.branches[i]);
            }
        }
    }
}

/// The code of a block does what the block says: started where the locals have their values,
/// it leaves them with the values that the statements give them, in order, and goes to the
/// block that its end chooses. The stack and frame pointers stay.
pub proof fn block_simulates(env: A64Func, s: A64Low, b: Block, c: Core, m: Seq<u64>) -> (d: Core)
    requires
        s.err is None,
        branches_behind(s.text),
        holds_values(env, c, m),
        after_stmts(env, m, b, 0) is Some,
        next_block(env, after_stmts(env, m, b, 0).unwrap(), b.term) is Some,
        env.lower_block_body(s, b).text.code.len() <= usize::MAX,
    ensures
        flows(
            s,
            env.lower_block_body(s, b),
            c,
            Flow::Jumped(
                LabelId(next_block(env, after_stmts(env, m, b, 0).unwrap(), b.term).unwrap().0),
                d,
            ),
        ),
        holds_values(env, d, after_stmts(env, m, b, 0).unwrap()),
        d.sp == c.sp,
        d.reg(29) == c.reg(29),
{
    reveal(A64Func::lower_block_body);
    let k = after_stmts(env, m, b, 0).unwrap();
    let t = env.lower_stmts(s, b);
    let c1 = statements_run(env, s, b, 0, c, m);
    assert(branches_behind(t.text)) by {
        reveal(takes);
    }
    let u = env.lower_terminator(t, b.term);
    let d = match b.term {
        Terminator::Goto(target) => {
            assert(t.text.code.len() <= u.text.code.len()) by {
                reveal(A64Func::lower_terminator);
                reveal(A64State::b);
            }
            goto_goes(env, t, target, c1);
            c1
        },
        Terminator::Branch { cond, then_bb, else_bb } => {
            value_is_held(env, c1, k, cond);
            let d = branch_goes(env, t, cond, then_bb, else_bb, c1);
            testing_keeps(env, c1, d, k);
            d
        },
        Terminator::Switch { scrutinee, targets, default } => {
            value_is_held(env, c1, k, scrutinee);
            let d = switch_goes(env, t, scrutinee, targets, default, c1);
            testing_keeps(env, c1, d, k);
            d
        },
        _ => c1,
    };
    flows_compose(
        s,
        t,
        u,
        c,
        c1,
        Flow::Jumped(LabelId(next_block(env, k, b.term).unwrap().0), d),
    );
    d
}

} // verus!
