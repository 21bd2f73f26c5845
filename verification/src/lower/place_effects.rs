//! What addresses lowered code computes, and what it reads there.
use vstd::prelude::*;

use crate::bytes::wrap64;
use crate::lower::arith_effects::{in_register, local_word, operand_loads, operand_word};
use crate::lower::effects::{load_reads, only_regs, scalar_width, takes, takes_nothing};
use crate::lower::env::{Env, LowState};
use crate::lower::follow::{
    follow_add_ri, follow_add_rr, follow_lea_rbp, follow_mov_load_mem, follow_mov_rr,
};
use crate::lower::mem_effects::{fetched_is_word, kept_but};
use crate::lower::place::is_part;
use crate::lower::word_effects::scaling_multiplies;
use crate::machine::{Cpu, fetch, in_space, low_bytes};
use crate::mir::{Operand, Place, Proj, SliceMeta};
use crate::reg::{Gpr, gpr_codes_distinct};
use crate::steps::index;

verus! {

/// Where one step of a place leads from an address; `None` where it leads nowhere, or where
/// nothing is said of it: into packed structs, and by indexes that are themselves parts of
/// locals.
pub open spec fn stepped(
    env: Env,
    c: Cpu,
    place: Place,
    i: usize,
    n: usize,
    a: u64,
) -> Option<u64> {
    match place.proj@[i as int] {
        Proj::Field { index, packed, .. } => {
            let off = env.field_offset(env.type_at(place, i), index);
            if packed is None && off <= i32::MAX {
                Some(wrap64(a + off))
            } else {
                None
            }
        },
        Proj::Deref => word_at(c, a),
        Proj::SliceMeta { which, .. } => Some(
            match which {
                SliceMeta::Ptr => a,
                SliceMeta::Len => wrap64(a + 8),
            },
        ),
        Proj::Payload { .. } => {
            let off = env.payload_off(place, i, n);
            if off <= i32::MAX {
                Some(wrap64(a + off))
            } else {
                None
            }
        },
        Proj::Index { at, ty } => {
            let sliced = env.is_slice(env.type_at(place, i));
            let in_field = env.field_before(place, i);
            let stride = if sliced && in_field {
                env.field_slice_stride(ty)
            } else {
                env.natural_stride(ty)
            };
            let start = if sliced {
                word_at(c, a)
            } else {
                Some(a)
            };
            if is_part(at) || stride > i32::MAX || (sliced && !in_field && env.is_open_type(ty)) {
                None
            } else {
                match (start, operand_word(env, c, at)) {
                    (Some(b), Some(k)) => Some(wrap64(b + k * stride)),
                    _ => None,
                }
            }
        },
    }
}

/// The word at an address.
pub open spec fn word_at(c: Cpu, a: u64) -> Option<u64> {
    if in_space(a as int, 8) {
        Some(fetch(c.mem, a as int, 8) as u64)
    } else {
        None
    }
}

/// Where the steps of a place from the `i`-th on lead.
pub open spec fn led(env: Env, c: Cpu, place: Place, i: usize, n: usize, a: u64) -> Option<u64>
    decreases n - i,
{
    if i < n {
        match stepped(env, c, place, i, n, a) {
            Some(b) => led(env, c, place, (i + 1) as usize, n, b),
            None => None,
        }
    } else {
        Some(a)
    }
}

/// Whether no index of a place lives in a register.
pub open spec fn no_index_in(env: Env, place: Place, r: Gpr) -> bool {
    forall|i: int|
        0 <= i < place.proj@.len() ==> (#[trigger] place.proj@[i] matches Proj::Index { at, .. }
            ==> !in_register(env, at, r))
}

/// Whether registers are equal but for two, and memory is.
pub open spec fn agrees(c: Cpu, d: Cpu, a: Gpr) -> bool {
    only_regs(c, d, a, Gpr::R10)
}

proof fn word_stays(env: Env, c: Cpu, d: Cpu, dst: Gpr, op: Operand)
    requires
        agrees(c, d, dst),
        dst != Gpr::Rbp,
        !in_register(env, op, dst),
        !in_register(env, op, Gpr::R10),
    ensures
        operand_word(env, d, op) == operand_word(env, c, op),
{
    reveal(local_word);
    assert(index(Gpr::Rbp) == 5);
    gpr_codes_distinct(dst, Gpr::Rbp);
    assert(d.reg(5) == c.reg(5));
    if let Operand::Copy(p) = op {
        if let Some(r) = env.reg_of(p.base) {
            gpr_codes_distinct(r, dst);
            gpr_codes_distinct(r, Gpr::R10);
        }
    }
}

proof fn sum_wraps(a: u64, p: int)
    ensures
        wrap64(a + wrap64(p)) == wrap64(a + p),
{
}

proof fn agrees_on(from: Cpu, d: Cpu, e: Cpu, dst: Gpr)
    requires
        agrees(from, d, dst),
        agrees(d, e, dst),
    ensures
        agrees(from, e, dst),
{
    assert forall|r: int| 0 <= r < 16 && r != index(dst) && r != index(Gpr::R10) implies
        #[trigger] e.reg(r) == from.reg(r) by {
        assert(d.reg(r) == from.reg(r));
    }
}

proof fn index_runs(
    env: Env,
    s: LowState,
    t: LowState,
    at: Operand,
    stride: u64,
    dst: Gpr,
    c: Cpu,
    d: Cpu,
) -> (e: Cpu)
    requires
        takes(s, t, c, d),
        d.wf(),
        t.err is None,
        dst != Gpr::R10,
        stride <= i32::MAX,
        operand_word(env, d, at) is Some,
    ensures
        takes(s, indexed(env, t, at, stride, dst), c, e),
        env.operand_to(t, at, Gpr::R10).err is None,
        agrees(d, e, dst),
        e.reg(index(dst)) == wrap64(
            d.reg(index(dst)) + operand_word(env, d, at).unwrap() * stride,
        ),
{
    gpr_codes_distinct(dst, Gpr::R10);
    let k = operand_word(env, d, at).unwrap();
    let t1 = env.operand_to(t, at, Gpr::R10);
    let d1 = operand_loads(env, s, t, at, Gpr::R10, c, d);
    let t2 = env.scale(t1, Gpr::R10, stride);
    let d2 = scaling_multiplies(env, s, t1, Gpr::R10, stride, c, d1);
    assert(d2.reg(index(dst)) == d.reg(index(dst)));
    let e = follow_add_rr(s, t2, dst, Gpr::R10, c, d2);
    sum_wraps(d.reg(index(dst)), k * stride);
    assert forall|r: int| 0 <= r < 16 && r != index(dst) && r != index(Gpr::R10) implies
        #[trigger] e.reg(r) == d.reg(r) by {
        assert(d1.reg(r) == d.reg(r));
        assert(d2.reg(r) == d1.reg(r));
    }
    e
}

/// The code that adds an index times a stride to `dst`.
pub open spec fn indexed(env: Env, t: LowState, at: Operand, stride: u64, dst: Gpr) -> LowState {
    let t = env.operand_to(t, at, Gpr::R10);
    let t = env.scale(t, Gpr::R10, stride);
    t.on(t.text.add_rr(dst, Gpr::R10))
}

/// The code that adds an offset to `dst`.
pub open spec fn moved(t: LowState, dst: Gpr, off: u64) -> LowState {
    if off != 0 {
        t.on(t.text.add_ri(dst, off as i32))
    } else {
        t
    }
}

proof fn moved_runs(s: LowState, t: LowState, dst: Gpr, off: u64, c: Cpu, d: Cpu) -> (e: Cpu)
    requires
        takes(s, t, c, d),
        d.wf(),
        off <= i32::MAX,
    ensures
        takes(s, moved(t, dst, off), c, e),
        agrees(d, e, dst),
        e.reg(index(dst)) == wrap64(d.reg(index(dst)) + off),
{
    if off != 0 {
        follow_add_ri(s, t, dst, off as i32, c, d)
    } else {
        d
    }
}

proof fn pointed_runs(s: LowState, t: LowState, dst: Gpr, c: Cpu, d: Cpu) -> (e: Cpu)
    requires
        takes(s, t, c, d),
        d.wf(),
        in_space(d.reg(index(dst)) as int, 8),
    ensures
        takes(s, t.on(t.text.mov_load_mem(dst, dst, 0)), c, e),
        agrees(d, e, dst),
        e.reg(index(dst)) == fetch(d.mem, d.reg(index(dst)) as int, 8) as u64,
{
    fetched_is_word(d.mem, d.reg(index(dst)) as int, 8);
    follow_mov_load_mem(s, t, dst, dst, 0, c, d)
}

proof fn element_runs(
    env: Env,
    s: LowState,
    t: LowState,
    place: Place,
    i: usize,
    n: usize,
    dst: Gpr,
    c: Cpu,
    d: Cpu,
    from: Cpu,
) -> (e: Cpu)
    requires
        takes(s, t, c, d),
        d.wf(),
        t.err is None,
        i < place.proj@.len(),
        place.proj@[i as int] is Index,
        dst != Gpr::R10,
        dst != Gpr::Rbp,
        agrees(from, d, dst),
        no_index_in(env, place, dst),
        no_index_in(env, place, Gpr::R10),
        stepped(env, from, place, i, n, d.reg(index(dst))) is Some,
    ensures
        takes(s, env.place_step(t, place, i, n, dst), c, e),
        env.place_step(t, place, i, n, dst).err is None,
        agrees(d, e, dst),
        Some(e.reg(index(dst))) == stepped(env, from, place, i, n, d.reg(index(dst))),
{
    let at = place.proj@[i as int]->Index_at;
    let ty = place.proj@[i as int]->Index_ty;
    let sliced = env.is_slice(env.type_at(place, i));
    let in_field = env.field_before(place, i);
    let stride = if sliced && in_field {
        env.field_slice_stride(ty)
    } else {
        env.natural_stride(ty)
    };
    let (t1, d1) = if sliced {
        (t.on(t.text.mov_load_mem(dst, dst, 0)), pointed_runs(s, t, dst, c, d))
    } else {
        (t, d)
    };
    agrees_on(from, d, d1, dst);
    word_stays(env, from, d1, dst, at);
    let e = index_runs(env, s, t1, at, stride, dst, c, d1);
    assert(env.place_step(t, place, i, n, dst) == indexed(env, t1, at, stride, dst));
    assert(indexed(env, t1, at, stride, dst).err is None) by {
        reveal(Env::scale);
    }
    agrees_on(d, d1, e, dst);
    e
}

#[verifier::spinoff_prover]
proof fn step_runs(
    env: Env,
    s: LowState,
    t: LowState,
    place: Place,
    i: usize,
    n: usize,
    dst: Gpr,
    c: Cpu,
    d: Cpu,
    from: Cpu,
) -> (e: Cpu)
    requires
        takes(s, t, c, d),
        d.wf(),
        t.err is None,
        i < place.proj@.len(),
        dst != Gpr::R10,
        dst != Gpr::Rbp,
        agrees(from, d, dst),
        no_index_in(env, place, dst),
        no_index_in(env, place, Gpr::R10),
        stepped(env, from, place, i, n, d.reg(index(dst))) is Some,
    ensures
        takes(s, env.place_step(t, place, i, n, dst), c, e),
        env.place_step(t, place, i, n, dst).err is None,
        agrees(from, e, dst),
        Some(e.reg(index(dst))) == stepped(env, from, place, i, n, d.reg(index(dst))),
{
    let a = d.reg(index(dst));
    let e = match place.proj@[i as int] {
        Proj::Field { index: k, .. } => moved_runs(
            s,
            t,
            dst,
            env.field_offset(env.type_at(place, i), k),
            c,
            d,
        ),
        Proj::Deref => pointed_runs(s, t, dst, c, d),
        Proj::SliceMeta { which, .. } => match which {
            SliceMeta::Ptr => d,
            SliceMeta::Len => moved_runs(s, t, dst, 8, c, d),
        },
        Proj::Payload { .. } => moved_runs(s, t, dst, env.payload_off(place, i, n), c, d),
        Proj::Index { .. } => element_runs(env, s, t, place, i, n, dst, c, d, from),
    };
    agrees_on(from, d, e, dst);
    e
}

/// The steps of a place lead the address in `dst` where they should; only `dst` and `r10`
/// change.
pub proof fn steps_lead(
    env: Env,
    s: LowState,
    t: LowState,
    place: Place,
    i: usize,
    n: usize,
    dst: Gpr,
    c: Cpu,
    d: Cpu,
    from: Cpu,
) -> (e: Cpu)
    requires
        takes(s, t, c, d),
        d.wf(),
        t.err is None,
        i <= n <= place.proj@.len(),
        dst != Gpr::R10,
        dst != Gpr::Rbp,
        agrees(from, d, dst),
        no_index_in(env, place, dst),
        no_index_in(env, place, Gpr::R10),
        led(env, from, place, i, n, d.reg(index(dst))) is Some,
    ensures
        takes(s, env.place_steps(t, place, i, n, dst), c, e),
        env.place_steps(t, place, i, n, dst).err is None,
        agrees(from, e, dst),
        Some(e.reg(index(dst))) == led(env, from, place, i, n, d.reg(index(dst))),
    decreases n - i,
{
    if i < n {
        let t1 = env.place_step(t, place, i, n, dst);
        let d1 = step_runs(env, s, t, place, i, n, dst, c, d, from);
        steps_lead(env, s, t1, place, (i + 1) as usize, n, dst, c, d1, from)
    } else {
        d
    }
}

/// The address of a place that starts in the home of its local, or at the pointer that the
/// local holds in its register.
pub open spec fn address_of(env: Env, c: Cpu, place: Place, n: usize) -> Option<u64> {
    match env.home(place.base) {
        Some(h) => led(env, c, place, 0, n, wrap64(c.reg(5) + h)),
        None => match env.reg_of(place.base) {
            Some(r) => if n >= 1 && place.proj@[0] is Deref {
                led(env, c, place, 1, n, c.reg(index(r)))
            } else {
                None
            },
            None => None,
        },
    }
}

/// The address of a place, with its fields, elements, payloads and the pointers on the way,
/// is computed into `dst`; only `dst` and `r10` change.
pub proof fn address_is_right(
    env: Env,
    s: LowState,
    place: Place,
    n: usize,
    dst: Gpr,
    c: Cpu,
) -> (d: Cpu)
    requires
        c.wf(),
        s.err is None,
        n <= place.proj@.len(),
        dst != Gpr::R10,
        dst != Gpr::Rbp,
        no_index_in(env, place, dst),
        no_index_in(env, place, Gpr::R10),
        address_of(env, c, place, n) is Some,
    ensures
        takes(s, env.place_addr(s, place, n, dst), c, d),
        env.place_addr(s, place, n, dst).err is None,
        agrees(c, d, dst),
        Some(d.reg(index(dst))) == address_of(env, c, place, n),
{
    takes_nothing(s, c);
    match env.home(place.base) {
        Some(h) => {
            let t = s.on(s.text.lea_rbp(dst, h));
            let c1 = follow_lea_rbp(s, s, dst, h, c, c);
            assert(agrees(c, c1, dst));
            steps_lead(env, s, t, place, 0, n, dst, c, c1, c)
        },
        None => {
            let r = env.reg_of(place.base).unwrap();
            let (t, c1) = if r != dst {
                (s.on(s.text.mov_rr(dst, r)), follow_mov_rr(s, s, dst, r, c, c))
            } else {
                (s, c)
            };
            assert(agrees(c, c1, dst));
            steps_lead(env, s, t, place, 1, n, dst, c, c1, c)
        },
    }
}

/// The same for the address that may be of a whole local.
pub(crate) proof fn general_address(env: Env, s: LowState, place: Place, n: usize, dst: Gpr, c: Cpu)
    requires
        address_of(env, c, place, n) is Some,
    ensures
        env.place_addr_general(s, place, n, dst) == env.place_addr(s, place, n, dst),
{
    if n == 0 {
        let t = s.on(s.text.lea_rbp(dst, env.home(place.base).unwrap()));
        assert(env.place_steps(t, place, 0, 0, dst) == t);
    }
}

/// The word that a load at a place gives.
pub open spec fn place_word(env: Env, c: Cpu, place: Place) -> Option<u64> {
    let ty = env.place_type(place);
    let size = scalar_width(env, ty);
    match address_of(env, c, place, place.proj@.len() as usize) {
        Some(a) => if in_space(a as int, size) {
            Some(
                wrap64(low_bytes(fetch(c.mem, a as int, size), size, env.repr_of(ty).signed)),
            )
        } else {
            None
        },
        None => None,
    }
}

/// A load from a place that is reached in memory gives the bytes that stand at its address,
/// as many as its type has, extended as the type is signed or not; only `dst`, `r10` and
/// `r11` change.
pub proof fn place_loads(env: Env, s: LowState, place: Place, dst: Gpr, c: Cpu) -> (d: Cpu)
    requires
        c.wf(),
        s.err is None,
        0 < place.proj@.len() <= usize::MAX,
        env.last_step(place) is Load,
        no_index_in(env, place, Gpr::R10),
        no_index_in(env, place, Gpr::R11),
        place_word(env, c, place) is Some,
    ensures
        takes(s, env.load_place_scalar(s, place, dst), c, d),
        env.load_place_scalar(s, place, dst).err is None,
        Some(d.reg(index(dst))) == place_word(env, c, place),
        d.mem == c.mem,
        d.floats == c.floats,
        kept_but(c, d, set![dst, Gpr::R10, Gpr::R11]),
{
    let n = place.proj@.len() as usize;
    let t = env.place_addr(s, place, n, Gpr::R11);
    let c1 = address_is_right(env, s, place, n, Gpr::R11, c);
    let d = load_reads(env, s, t, dst, Gpr::R11, 0, env.place_type(place), c, c1);
    assert forall|r: Gpr| !set![dst, Gpr::R10, Gpr::R11].contains(r) implies #[trigger] d.reg(
        index(r),
    ) == c.reg(index(r)) by {
        assert(r != dst && r != Gpr::R10 && r != Gpr::R11);
        gpr_codes_distinct(r, dst);
        gpr_codes_distinct(r, Gpr::R10);
        gpr_codes_distinct(r, Gpr::R11);
        assert(c1.reg(index(r)) == c.reg(index(r)));
    }
    d
}

} // verus!
