//! Lowered blocks do what their statements say: for blocks of scalar assignments that end
//! with a jump, a branch or a switch.
use vstd::prelude::*;

use crate::frame::{
    FrameInput, frame_parts_in_order, home_aligned, homes_disjoint, homes_hold_words, plan_of,
};
use crate::bytes::wrap64;
use crate::encode::LabelId;
use crate::lower::arith_effects::{
    constant_word, exact, has_result, in_register, local_word, low_bits_of_word, operand_loads,
    operand_word, result_width, value_of,
};
use crate::lower::assign_effects::{
    assigned, assigned_local_reads, assigns, comparison_is_assigned, conversion_is_assigned,
    copy_is_assigned, home_in_space, in_one_word, operator_is_assigned, other_local_stays,
    unary_operator_is_assigned,
};
use crate::lower::effects::{holds, keeps, low_bits, normalizing_wraps, takes, takes_nothing};
use crate::lower::env::{EntryKind, Env, LowState};
use crate::lower::flow_effects::{
    Flow, branch_goes, chosen, flow, flows, goto_goes, only_tested, switch_goes,
};
use crate::lower::frame_effects::{
    end_in_order, frame_is_set_up, frame_is_taken_down, framed, unframed,
};
use crate::lower::mem_effects::{
    apart, not_saved, saved_up_to, saving_saves, slots_apart, slots_below,
};
use crate::lower::values::compares;
use crate::machine::{Cpu, act, fetch, fetch_same, in_space, run};
use crate::mir::{
    BinOp, Block, BlockId, CastKind, LocalId, Operand, Rvalue, Statement, Terminator, UnOp,
};
use crate::peephole::Ins;
use crate::reg::{Gpr, gpr_codes_distinct};
use crate::steps::index;
use crate::types::TypeId;

verus! {

// ---------------------------------------------------------------------------
//  What statements say
// ---------------------------------------------------------------------------

/// The value of a constant or a whole local.
pub open spec fn operand_value(env: Env, m: Seq<u64>, op: Operand) -> Option<u64> {
    match op {
        Operand::Const(k) => constant_word(env, k),
        Operand::Copy(p) => if p.proj@.len() == 0 && p.base.0 < m.len() {
            Some(m[p.base.0 as int])
        } else {
            None
        },
    }
}

/// A number brought to the width of an integer type.
pub open spec fn brought(env: Env, v: int, ty: TypeId) -> u64 {
    wrap64(low_bits(v, result_width(env, ty), env.repr_of(ty).signed))
}

/// The value of a binary operator.
pub open spec fn binary_value(
    env: Env,
    m: Seq<u64>,
    op: BinOp,
    lhs: Operand,
    rhs: Operand,
    ty: TypeId,
) -> Option<u64> {
    match (operand_value(env, m, lhs), operand_value(env, m, rhs)) {
        (Some(x), Some(y)) => if compares(op) {
            if env.operand_is_float(lhs) || env.operand_is_wide(lhs) {
                None
            } else if holds(op, env.operand_signed(lhs) || env.operand_signed(rhs), x, y) {
                Some(1)
            } else {
                Some(0)
            }
        } else if has_result(op, x, y, env.repr_of(ty).signed) {
            Some(brought(env, exact(op, x, y, env.repr_of(ty).signed), ty))
        } else {
            None
        },
        _ => None,
    }
}

/// The value of a unary operator.
pub open spec fn unary_value(env: Env, x: u64, un: UnOp, ty: TypeId) -> u64 {
    match un {
        UnOp::Neg => brought(env, -value_of(x, env.repr_of(ty).signed), ty),
        UnOp::BitNot => brought(env, -1 - value_of(x, env.repr_of(ty).signed), ty),
        UnOp::Not => x ^ 1,
    }
}

/// The value that is computed for a local, where it is one of a word and has one.
pub open spec fn computed(env: Env, m: Seq<u64>, l: LocalId, rvalue: Rvalue) -> Option<u64> {
    match rvalue {
        Rvalue::Use(op) => match operand_value(env, m, op) {
            Some(x) => if in_one_word(env, l, rvalue, env.local_ty(l)) && !(env.is_error_type(
                env.local_ty(l),
            ) && env.holds_error_union(op)) {
                Some(brought(env, x as int, env.local_ty(l)))
            } else {
                None
            },
            None => None,
        },
        Rvalue::Binary { op, lhs, rhs, ty } => if in_one_word(env, l, rvalue, ty) {
            binary_value(env, m, op, lhs, rhs, ty)
        } else {
            None
        },
        Rvalue::Unary { un, operand, ty } => match operand_value(env, m, operand) {
            Some(x) => if in_one_word(env, l, rvalue, ty) {
                Some(unary_value(env, x, un, ty))
            } else {
                None
            },
            None => None,
        },
        Rvalue::Cast { kind, operand, ty } => match operand_value(env, m, operand) {
            Some(x) => if in_one_word(
                env,
                l,
                rvalue,
                ty,
            ) && !env.operand_is_wide(operand) && kind != CastKind::IntToFloat && kind
                != CastKind::FloatToInt {
                Some(brought(env, x as int, ty))
            } else {
                None
            },
            None => None,
        },
        _ => None,
    }
}

/// The values of the locals after a statement, where it assigns a value of a word that is one
/// of its type to a whole local, or does nothing.
pub open spec fn after_stmt(env: Env, m: Seq<u64>, stmt: Statement) -> Option<Seq<u64>> {
    match stmt {
        Statement::Assign { place, rvalue } => if place.proj@.len() == 0 && place.base.0
            < m.len() {
            match computed(env, m, place.base, rvalue) {
                Some(v) => if keeps(env, env.local_ty(place.base), v) {
                    Some(m.update(place.base.0 as int, v))
                } else {
                    None
                },
                None => None,
            }
        } else {
            None
        },
        Statement::Eval { .. } => None,
        _ => Some(m),
    }
}

/// The values of the locals after the statements of a block from the `i`-th on.
pub open spec fn after_stmts(env: Env, m: Seq<u64>, b: Block, i: int) -> Option<Seq<u64>>
    decreases b.stmts@.len() - i,
{
    if i < 0 || i >= b.stmts@.len() {
        Some(m)
    } else {
        match after_stmt(env, m, b.stmts@[i]) {
            Some(k) => after_stmts(env, k, b, i + 1),
            None => None,
        }
    }
}

/// The block that follows, where the end of a block is a jump, a branch or a switch.
pub open spec fn next_block(env: Env, m: Seq<u64>, term: Terminator) -> Option<BlockId> {
    match term {
        Terminator::Goto(t) => Some(t),
        Terminator::Branch { cond, then_bb, else_bb } => match operand_value(env, m, cond) {
            Some(x) => Some(
                if x != 0 {
                    then_bb
                } else {
                    else_bb
                },
            ),
            None => None,
        },
        Terminator::Switch { scrutinee, targets, default } => match operand_value(
            env,
            m,
            scrutinee,
        ) {
            Some(x) => if env.holds_error_union(scrutinee) {
                None
            } else {
                Some(chosen(targets@, 0, default, x))
            },
            None => None,
        },
        _ => None,
    }
}

// ---------------------------------------------------------------------------
//  Where locals live
// ---------------------------------------------------------------------------

/// Whether a register can hold a local: it is not needed as scratch, and is neither the stack
/// nor the frame pointer.
pub open spec fn holds_locals(r: Gpr) -> bool {
    index(r) >= 3 && r != Gpr::Rsp && r != Gpr::Rbp
}

/// Whether a local lives in a register, or in a home of eight bytes.
pub open spec fn lives(env: Env, bp: u64, l: LocalId) -> bool {
    match env.reg_of(l) {
        Some(r) => holds_locals(r),
        None => env.home(l) matches Some(h) && in_space(bp + h, 8),
    }
}

/// Whether two locals live apart.
pub open spec fn live_apart(env: Env, l: LocalId, k: LocalId) -> bool {
    match (env.reg_of(l), env.reg_of(k)) {
        (Some(a), Some(b)) => a != b,
        (None, None) => env.home(l) matches Some(h) && env.home(k) matches Some(j) && apart(
            h as int,
            j as int,
            8,
        ),
        _ => true,
    }
}

/// Whether the first `n` locals live, and live apart.
pub open spec fn all_live(env: Env, bp: u64, n: nat) -> bool {
    &&& forall|l: LocalId| l.0 < n ==> #[trigger] lives(env, bp, l)
    &&& forall|l: LocalId, k: LocalId|
        l.0 < n && k.0 < n && l != k ==> #[trigger] live_apart(env, l, k)
}

/// Whether a processor holds the values of the locals.
pub open spec fn holds_values(env: Env, c: Cpu, m: Seq<u64>) -> bool {
    &&& c.wf()
    &&& all_live(env, c.reg(5), m.len())
    &&& forall|l: LocalId|
        l.0 < m.len() ==> #[trigger] local_word(env, c, l) == Some(m[l.0 as int])
}

/// The locals of a planned frame live apart, where those without a home are in registers of
/// their own.
pub proof fn planned_locals_live(env: Env, f: FrameInput, bp: u64)
    requires
        env.plan == plan_of(f),
        f.frame_size() <= i32::MAX,
        bp >= f.frame_size(),
        f.locals.len() <= 0x1_0000_0000,
        forall|l: LocalId|
            l.0 < f.locals.len() ==> match #[trigger] env.reg_of(l) {
                Some(r) => holds_locals(r),
                None => f.home(l.0 as int) is Some,
            },
        forall|l: LocalId, k: LocalId|
            l.0 < f.locals.len() && k.0 < f.locals.len() && l != k && (#[trigger] env.reg_of(
                l,
            )) is Some ==> env.reg_of(l) != #[trigger] env.reg_of(k),
    ensures
        all_live(env, bp, f.locals.len()),
{
    frame_parts_in_order(f);
    assert forall|l: LocalId| l.0 < f.locals.len() implies #[trigger] lives(env, bp, l) by {
        if env.reg_of(l) is None {
            home_aligned(f, l.0 as int);
            homes_hold_words(f, l.0 as int);
        }
    }
    assert forall|l: LocalId, k: LocalId|
        l.0 < f.locals.len() && k.0 < f.locals.len() && l != k implies #[trigger] live_apart(
        env,
        l,
        k,
    ) by {
        if env.reg_of(l) is None && env.reg_of(k) is None {
            home_aligned(f, l.0 as int);
            home_aligned(f, k.0 as int);
            homes_hold_words(f, l.0 as int);
            homes_hold_words(f, k.0 as int);
            if l.0 < k.0 {
                homes_disjoint(f, l.0 as int, k.0 as int);
            } else {
                homes_disjoint(f, k.0 as int, l.0 as int);
            }
        }
    }
}

proof fn value_is_held(env: Env, c: Cpu, m: Seq<u64>, op: Operand)
    requires
        holds_values(env, c, m),
        operand_value(env, m, op) is Some,
    ensures
        operand_word(env, c, op) == operand_value(env, m, op),
        !in_register(env, op, Gpr::Rax),
{
    if let Operand::Copy(p) = op {
        assert(lives(env, c.reg(5), p.base));
    }
}

proof fn assignment_held(env: Env, c: Cpu, d: Cpu, m: Seq<u64>, l: LocalId, v: u64)
    requires
        holds_values(env, c, m),
        l.0 < m.len(),
        assigned(env, c, d, l, v),
        keeps(env, env.local_ty(l), v),
    ensures
        holds_values(env, d, m.update(l.0 as int, v)),
        d.reg(4) == c.reg(4),
        d.reg(5) == c.reg(5),
{
    let k = m.update(l.0 as int, v);
    assert(index(Gpr::Rsp) == 4 && index(Gpr::Rbp) == 5);
    assert(lives(env, c.reg(5), l));
    if let Some(r) = env.reg_of(l) {
        gpr_codes_distinct(r, Gpr::Rsp);
        gpr_codes_distinct(r, Gpr::Rbp);
    }
    assert(d.reg(5) == c.reg(5) && d.reg(4) == c.reg(4));
    assert forall|q: LocalId| q.0 < k.len() implies #[trigger] local_word(env, d, q) == Some(
        k[q.0 as int],
    ) by {
        assert(lives(env, c.reg(5), q));
        assert(local_word(env, c, q) == Some(m[q.0 as int]));
        if q == l {
            assigned_local_reads(env, c, d, l, v);
        } else {
            assert(live_apart(env, l, q));
            other_local_stays(env, c, d, l, v, q);
        }
    }
}

proof fn testing_keeps(env: Env, c: Cpu, d: Cpu, m: Seq<u64>)
    requires
        holds_values(env, c, m),
        only_tested(c, d),
    ensures
        holds_values(env, d, m),
        d.reg(4) == c.reg(4),
        d.reg(5) == c.reg(5),
{
    assert(index(Gpr::Rax) == 0 && index(Gpr::Rcx) == 1);
    assert(d.reg(5) == c.reg(5) && d.reg(4) == c.reg(4));
    assert forall|q: LocalId| q.0 < m.len() implies #[trigger] local_word(env, d, q) == Some(
        m[q.0 as int],
    ) by {
        assert(lives(env, c.reg(5), q));
        assert(local_word(env, c, q) == Some(m[q.0 as int]));
        reveal(local_word);
        if let Some(r) = env.reg_of(q) {
            assert(d.reg(index(r)) == c.reg(index(r)));
        }
    }
}

// ---------------------------------------------------------------------------
//  Statements
// ---------------------------------------------------------------------------

/// The code of a statement does to the locals what the statement says.
pub proof fn statement_simulates(
    env: Env,
    s: LowState,
    stmt: Statement,
    c: Cpu,
    m: Seq<u64>,
) -> (d: Cpu)
    requires
        s.err is None,
        holds_values(env, c, m),
        after_stmt(env, m, stmt) is Some,
    ensures
        takes(s, env.lower_stmt(s, stmt), c, d),
        env.lower_stmt(s, stmt).err is None,
        holds_values(env, d, after_stmt(env, m, stmt).unwrap()),
        d.reg(4) == c.reg(4),
        d.reg(5) == c.reg(5),
{
    match stmt {
        Statement::Assign { place, rvalue } => {
            let l = place.base;
            let v = computed(env, m, l, rvalue).unwrap();
            assert(lives(env, c.reg(5), l));
            assert(home_in_space(env, c, l));
            assert(assigns(stmt, l, rvalue));
            let d = assignment_runs(env, s, stmt, l, rvalue, c, m);
            assignment_held(env, c, d, m, l, v);
            d
        },
        _ => {
            reveal(Env::lower_stmt);
            takes_nothing(s, c);
            c
        },
    }
}

proof fn assignment_runs(
    env: Env,
    s: LowState,
    stmt: Statement,
    l: LocalId,
    rvalue: Rvalue,
    c: Cpu,
    m: Seq<u64>,
) -> (d: Cpu)
    requires
        s.err is None,
        holds_values(env, c, m),
        assigns(stmt, l, rvalue),
        home_in_space(env, c, l),
        computed(env, m, l, rvalue) is Some,
    ensures
        takes(s, env.lower_stmt(s, stmt), c, d),
        env.lower_stmt(s, stmt).err is None,
        assigned(env, c, d, l, computed(env, m, l, rvalue).unwrap()),
{
    match rvalue {
        Rvalue::Use(op) => {
            value_is_held(env, c, m, op);
            copy_is_assigned(env, s, stmt, l, op, c)
        },
        Rvalue::Binary { op, lhs, rhs, ty } => {
            value_is_held(env, c, m, lhs);
            value_is_held(env, c, m, rhs);
            if compares(op) {
                comparison_is_assigned(env, s, stmt, l, op, lhs, rhs, ty, c)
            } else {
                operator_is_assigned(env, s, stmt, l, op, lhs, rhs, ty, c)
            }
        },
        Rvalue::Unary { un, operand, ty } => {
            value_is_held(env, c, m, operand);
            unary_operator_is_assigned(env, s, stmt, l, un, operand, ty, c)
        },
        Rvalue::Cast { kind, operand, ty } => {
            value_is_held(env, c, m, operand);
            conversion_is_assigned(env, s, stmt, l, kind, operand, ty, c)
        },
        _ => c,
    }
}

proof fn runs_compose(s: Seq<Ins>, n: nat, k: nat, c: Cpu, d: Cpu)
    requires
        n <= k <= s.len(),
        run(s.take(k as int), n, c) == Some(d),
    ensures
        run(s, n, c) == run(s, k, d),
    decreases s.len(),
{
    if s.len() == k {
        assert(s.take(k as int) =~= s);
    } else {
        assert(s.drop_last().take(k as int) =~= s.take(k as int));
        runs_compose(s.drop_last(), n, k, c, d);
    }
}

/// Code behind code.
pub(crate) proof fn takes_compose(s: LowState, t: LowState, u: LowState, c: Cpu, d: Cpu, e: Cpu)
    requires
        takes(s, t, c, d),
        takes(t, u, d, e),
    ensures
        takes(s, u, c, e),
{
    reveal(takes);
    let n = s.text.instrs.len();
    let k = t.text.instrs.len();
    runs_compose(u.text.instrs, n, k, c, d);
    assert(u.text.instrs.take(n as int) =~= u.text.instrs.take(k as int).take(n as int));
}

proof fn statements_run(
    env: Env,
    s: LowState,
    b: Block,
    i: int,
    c: Cpu,
    m: Seq<u64>,
) -> (d: Cpu)
    requires
        s.err is None,
        0 <= i <= b.stmts@.len(),
        holds_values(env, c, m),
        after_stmts(env, m, b, i) is Some,
    ensures
        takes(s, env.lower_stmts_from(s, b, i), c, d),
        env.lower_stmts_from(s, b, i).err is None,
        holds_values(env, d, after_stmts(env, m, b, i).unwrap()),
        d.reg(4) == c.reg(4),
        d.reg(5) == c.reg(5),
    decreases b.stmts@.len() - i,
{
    if i < b.stmts@.len() {
        let stmt = b.stmts@[i];
        assert(b.stmts[i] == stmt);
        let t = env.lower_stmt(s, stmt);
        let c1 = statement_simulates(env, s, stmt, c, m);
        let k = after_stmt(env, m, stmt).unwrap();
        let d = statements_run(env, t, b, i + 1, c1, k);
        takes_compose(s, t, env.lower_stmts_from(t, b, i + 1), c, c1, d);
        d
    } else {
        takes_nothing(s, c);
        c
    }
}

// ---------------------------------------------------------------------------
//  Blocks
// ---------------------------------------------------------------------------

proof fn flow_goes_on(s: Seq<Ins>, n: nat, k: nat, c: Cpu, d: Cpu)
    requires
        n <= k <= s.len(),
        run(s.take(k as int), n, c) == Some(d),
    ensures
        flow(s, n, c) == flow(s, k, d),
    decreases s.len(),
{
    if s.len() == k {
        assert(s.take(k as int) =~= s);
        straight(s, n, c, d);
    } else {
        assert(s.drop_last().take(k as int) =~= s.take(k as int));
        flow_goes_on(s.drop_last(), n, k, c, d);
    }
}

proof fn straight(s: Seq<Ins>, n: nat, c: Cpu, d: Cpu)
    requires
        run(s, n, c) == Some(d),
    ensures
        flow(s, n, c) == Flow::On(d),
    decreases s.len(),
{
    if s.len() > n {
        let e = run(s.drop_last(), n, c).unwrap();
        straight(s.drop_last(), n, c, e);
        reveal(act);
    }
}

proof fn flows_compose(s: LowState, t: LowState, u: LowState, c: Cpu, d: Cpu, f: Flow)
    requires
        takes(s, t, c, d),
        flows(t, u, d, f),
    ensures
        flows(s, u, c, f),
{
    reveal(takes);
    reveal(flows);
    flow_goes_on(u.text.instrs, s.text.instrs.len(), t.text.instrs.len(), c, d);
    let n = s.text.instrs.len() as int;
    let k = t.text.instrs.len() as int;
    assert(u.text.instrs.take(n) =~= u.text.instrs.take(k).take(n));
}

/// The code of a block does what the block says: started where the locals have their values,
/// it leaves them with the values that the statements give them, in order, and goes to the
/// block that its end chooses. The stack and frame pointers stay.
pub proof fn block_simulates(env: Env, s: LowState, b: Block, c: Cpu, m: Seq<u64>) -> (d: Cpu)
    requires
        s.err is None,
        holds_values(env, c, m),
        after_stmts(env, m, b, 0) is Some,
        next_block(env, after_stmts(env, m, b, 0).unwrap(), b.term) is Some,
    ensures
        flows(
            s,
            env.lower_block_body(s, b),
            c,
            Flow::Jumped(
                LabelId(next_block(env, after_stmts(env, m, b, 0).unwrap(), b.term).unwrap().0),
                d,
            ),
        ),
        holds_values(env, d, after_stmts(env, m, b, 0).unwrap()),
        d.reg(4) == c.reg(4),
        d.reg(5) == c.reg(5),
{
    reveal(Env::lower_block_body);
    let k = after_stmts(env, m, b, 0).unwrap();
    let t = env.lower_stmts(s, b);
    let c1 = statements_run(env, s, b, 0, c, m);
    let u = env.lower_terminator(t, b.term);
    let d = match b.term {
        Terminator::Goto(target) => {
            goto_goes(env, t, target, c1);
            c1
        },
        Terminator::Branch { cond, then_bb, else_bb } => {
            value_is_held(env, c1, k, cond);
            let d = branch_goes(env, t, cond, then_bb, else_bb, c1);
            testing_keeps(env, c1, d, k);
            d
        },
        Terminator::Switch { scrutinee, targets, default } => {
            value_is_held(env, c1, k, scrutinee);
            let d = switch_goes(env, t, scrutinee, targets, default, c1);
            testing_keeps(env, c1, d, k);
            d
        },
        _ => c1,
    };
    flows_compose(
        s,
        t,
        u,
        c,
        c1,
        Flow::Jumped(LabelId(next_block(env, k, b.term).unwrap().0), d),
    );
    d
}

// ---------------------------------------------------------------------------
//  Returns
// ---------------------------------------------------------------------------

/// Whether a function returns a value of a word.
pub open spec fn returns_word(env: Env) -> bool {
    &&& env.kind != EntryKind::VoidEntry
    &&& !env.is_float(env.func.ret)
    &&& !env.in_memory(env.func.ret)
}

/// Whether the frame of a function stands as its entry set it up for a caller.
pub open spec fn frame_stands(env: Env, caller: Cpu, c: Cpu) -> bool {
    &&& caller.wf()
    &&& c.wf()
    &&& caller.reg(4) >= 8
    &&& c.reg(5) == caller.reg(4) - 8
    &&& fetch(c.mem, c.reg(5) as int, 8) == caller.reg(5)
    &&& slots_apart(env, c.reg(5))
    &&& saved_up_to(
        env,
        c.mem,
        entered(caller),
        0,
        env.plan.callee_saved_slots.len() as int,
    )
    &&& not_saved(env, Gpr::Rax)
    &&& not_saved(env, Gpr::Rsp)
}

/// The registers of a caller, with the frame pointer of the function that it called.
pub open spec fn entered(caller: Cpu) -> Cpu {
    caller.put(5, caller.reg(4) - 8)
}

/// The entry of a function, up to its parameters, lets its frame stand for the caller.
pub proof fn entry_simulates(env: Env, s: LowState, caller: Cpu) -> (d: Cpu)
    requires
        caller.wf(),
        env.plan.frame_size >= 0,
        caller.reg(4) >= 8 + env.plan.frame_size,
        slots_apart(env, wrap64(caller.reg(4) - 8)),
        slots_below(env),
        not_saved(env, Gpr::Rax),
        not_saved(env, Gpr::Rsp),
    ensures
        takes(s, env.save_all(framed(env, s)), caller, d),
        frame_stands(env, caller, d),
        d.reg(4) == caller.reg(4) - 8 - env.plan.frame_size,
{
    assert(index(Gpr::Rsp) == 4 && index(Gpr::Rbp) == 5);
    let t = framed(env, s);
    let c = frame_is_set_up(env, s, caller);
    let d = saving_saves(env, t, c);
    takes_compose(s, t, env.save_all(t), caller, c, d);
    let bp = c.reg(5) as int;
    assert forall|i: int| 0 <= i < 8 implies #[trigger] (d.mem)(bp + i) == (c.mem)(bp + i) by {}
    fetch_same(d.mem, bp, c.mem, bp, 8);
    let slots = env.plan.callee_saved_slots;
    assert forall|i: int| 0 <= i < slots.len() implies fetch(
        d.mem,
        entered(caller).reg(5) + (#[trigger] slots[i]).1,
        8,
    ) == entered(caller).reg(index(slots[i].0)) by {
        assert(slots[i].0 != Gpr::Rsp && slots[i].0 != Gpr::Rbp);
        gpr_codes_distinct(slots[i].0, Gpr::Rsp);
        gpr_codes_distinct(slots[i].0, Gpr::Rbp);
        assert(c.reg(index(slots[i].0)) == caller.reg(index(slots[i].0)));
    }
    d
}

/// The code of a return puts the returned value, brought to the width of its type, into
/// `rax`, and gives the caller back its stack pointer, its frame pointer and the registers
/// that were saved. The last instruction returns to the caller.
pub proof fn return_simulates(
    env: Env,
    s: LowState,
    value: Operand,
    caller: Cpu,
    c: Cpu,
    m: Seq<u64>,
) -> (r: (LowState, Cpu))
    requires
        s.err is None,
        returns_word(env),
        holds_values(env, c, m),
        operand_value(env, m, value) is Some,
        frame_stands(env, caller, c),
    ensures
        takes(s, r.0, c, r.1),
        env.lower_terminator(s, Terminator::Return { value }) == r.0.on(r.0.text.ret()),
        r.1.reg(0) == brought(env, operand_value(env, m, value).unwrap() as int, env.func.ret),
        r.1.reg(4) == caller.reg(4),
        r.1.reg(5) == caller.reg(5),
        forall|j: int|
            0 <= j < env.plan.callee_saved_slots.len() ==> r.1.reg(
                index((#[trigger] env.plan.callee_saved_slots[j]).0),
            ) == caller.reg(index(env.plan.callee_saved_slots[j].0)),
{
    takes_nothing(s, c);
    assert(index(Gpr::Rax) == 0 && index(Gpr::Rcx) == 1);
    value_is_held(env, c, m, value);
    let x = operand_value(env, m, value).unwrap();
    let ty = env.func.ret;
    let t1 = env.operand_to(s, value, Gpr::Rax);
    let c1 = operand_loads(env, s, s, value, Gpr::Rax, c, c);
    let t2 = env.normalize(t1, Gpr::Rax, ty);
    let c2 = normalizing_wraps(env, s, t1, Gpr::Rax, ty, c, c1);
    low_bits_of_word(x as int, result_width(env, ty), env.repr_of(ty).signed);
    assert(wrap64(x as int) == x);
    assert(c2.reg(5) == c.reg(5)) by {
        assert(c1.reg(5) == c.reg(5));
    }
    assert(t2.err is None) by {
        reveal(Env::normalize);
        reveal(Env::normalize_signed_other);
        reveal(Env::normalize_unsigned_other);
    }
    let u = unframed(env, t2);
    assert(env.lower_terminator(s, Terminator::Return { value }) == u.on(u.text.ret())) by {
        reveal(Env::lower_terminator);
        reveal(Env::lower_return);
        reveal(Env::lower_helper_return);
        end_in_order(env, t2);
    }
    let d = frame_is_taken_down(env, t2, caller, entered(caller), c2);
    takes_compose(s, t2, u, c, c2, d);
    (u, d)
}

} // verus!
