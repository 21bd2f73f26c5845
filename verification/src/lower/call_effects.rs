//! Callers pass arguments where the functions that they call take their parameters.
use vstd::prelude::*;

use crate::lower::abi::{ArgCursor, Passed, class_of, rounded32};
use crate::lower::env::{Env, Scope};
use crate::lower::scalar::sum32;
use crate::mir::Operand;
use crate::mir_ids::FnId;

verus! {

/// Registers and stack before the `n`-th parameter of a function.
pub open spec fn param_cursor(env: Env, n: int) -> ArgCursor
    decreases n,
{
    if n <= 0 {
        env.first_param()
    } else {
        env.param_next(env.func.params@[n - 1], param_cursor(env, n - 1))
    }
}

/// Whether an argument is one of its parameter's kind: of its class, or a string for a
/// pointer. A float parameter has a home, and a pair of words is passed as such.
pub open spec fn meets(scope: Scope, env: Env, callee: FnId, arg: Operand, i: int) -> bool {
    let param = env.func.params@[i];
    let class = class_of(env.prog, env.local_ty(param));
    if scope.as_c_string(callee, arg, i as usize) {
        class is OneInt
    } else {
        &&& scope.arg_class(arg) == class
        &&& class is TwoInt ==> rounded32(scope.pair_size(arg) as i32, 8) == 16
        &&& class is Sse ==> env.home(param) is Some
    }
}

proof fn sums_commute(a: i32, b: i32, k: i32)
    ensures
        sum32(sum32(a, b), k) == sum32(sum32(a, k), b),
{
}

/// Every argument is passed where the function that is called takes the parameter: in the same
/// register, or on the stack sixteen bytes below, where the return address and the caller's
/// frame pointer are not pushed yet.
pub proof fn arguments_meet_parameters(
    scope: Scope,
    env: Env,
    callee: FnId,
    args: Seq<Operand>,
    n: int,
)
    requires
        env.prog == scope.prog,
        0 <= n <= args.len(),
        n <= env.func.params@.len(),
        forall|i: int| 0 <= i < n ==> meets(scope, env, callee, #[trigger] args[i], i),
    ensures
        ({
            let c = scope.arg_cursor(callee, args, env.plan.ret_ptr_slot is Some, n);
            let p = param_cursor(env, n);
            &&& p.ints == c.ints
            &&& p.sses == c.sses
            &&& p.stack == sum32(c.stack, 16)
        }),
    decreases n,
{
    let hidden = env.plan.ret_ptr_slot is Some;
    if n > 0 {
        let c = scope.arg_cursor(callee, args, hidden, n - 1);
        let arg = args[n - 1];
        arguments_meet_parameters(scope, env, callee, args, n - 1);
        assert(meets(scope, env, callee, args[n - 1], n - 1));
        sums_commute(c.stack, 16, 8);
        sums_commute(c.stack, 16, 16);
        match scope.arg_spot(callee, arg, (n - 1) as usize, c) {
            Passed::MemStack(_, size) => {
                sums_commute(c.stack, 16, rounded32(size as i32, 8));
            },
            _ => {},
        }
    }
}

} // verus!
