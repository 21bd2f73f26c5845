//! What the code that stores into places does: scalars, aggregates, elements and slices.
use vstd::prelude::*;

use crate::bytes::wrap64;
use crate::lower::agg_effects::{brought, copying_goes_on};
use crate::lower::alloc_effects::stands_beside;
use crate::lower::effects::{normalizing_wraps, scalar_width, store_writes, takes};
use crate::lower::env::{Env, LowState};
use crate::lower::follow::{follow_add_rr, follow_lea_rbp, follow_mov_load_mem, follow_mov_store};
use crate::lower::mem_effects::{
    apart, copied, copy_copies, copy_scratch, fetched_is_word, kept_but,
};
use crate::lower::operand_effects::{addressable, scalar_loads, scalar_word};
use crate::lower::place_effects::{address_is_right, address_of, general_address};
use crate::lower::scalar::sum32;
use crate::lower::simulation::takes_compose;
use crate::lower::wide_effects::{frame_stays, keeping_follows, same_outside, scratch};
use crate::lower::word_effects::scaling_multiplies;
use crate::machine::{
    Cpu, elsewhere_stays, fetch, fetch_bounded, in_space, patch, pow256_values, written_is_read,
};
use crate::mir::{Operand, Place, Rvalue};
use crate::reg::{Gpr, gpr_codes_distinct};
use crate::steps::index;
use crate::types::{Type, TypeId};

verus! {

/// Whether the address of a place is the same whatever expressions do to their registers.
pub open spec fn address_stands(env: Env, c: Cpu, p: Place) -> bool {
    forall|d: Cpu|
        kept_but(c, d, scratch()) && d.mem == c.mem ==> #[trigger] address_of(
            env,
            d,
            p,
            p.proj@.len() as usize,
        ) == address_of(env, c, p, p.proj@.len() as usize)
}

/// Whether the word of an operand is the same whatever expressions do to their registers.
pub open spec fn word_stands(env: Env, c: Cpu, op: Operand) -> bool {
    forall|d: Cpu|
        kept_but(c, d, scratch()) && d.mem == c.mem ==> #[trigger] scalar_word(env, d, op)
            == scalar_word(env, c, op)
}

proof fn loading_keeps(c: Cpu, d: Cpu, r: Gpr)
    requires
        kept_but(c, d, set![r, Gpr::R10, Gpr::R11]),
        scratch().contains(r),
    ensures
        kept_but(c, d, scratch()),
{
    assert forall|q: Gpr| !scratch().contains(q) implies #[trigger] d.reg(index(q)) == c.reg(
        index(q),
    ) by {
        assert(q != r && q != Gpr::R10 && q != Gpr::R11);
        assert(!set![r, Gpr::R10, Gpr::R11].contains(q));
    }
}

proof fn one_register(c: Cpu, d: Cpu, r: Gpr)
    requires
        c.wf(),
        d.wf(),
        d.state == c.state,
        d.data == c.data,
        scratch().contains(r),
        forall|x: int| 0 <= x < 16 && x != index(r) ==> #[trigger] d.reg(x) == c.reg(x),
    ensures
        kept_but(c, d, scratch()),
{
    assert forall|q: Gpr| !scratch().contains(q) implies #[trigger] d.reg(index(q)) == c.reg(
        index(q),
    ) by {
        gpr_codes_distinct(q, r);
    }
}

#[verifier::spinoff_prover]
proof fn address_to(env: Env, s: LowState, p: Place, dst: Gpr, c: Cpu) -> (d: Cpu)
    requires
        c.wf(),
        s.err is None,
        addressable(env, Operand::Copy(p)),
        dst == Gpr::Rax || dst == Gpr::R11,
        address_of(env, c, p, p.proj@.len() as usize) is Some,
    ensures
        takes(s, env.place_addr(s, p, p.proj@.len() as usize, dst), c, d),
        env.place_addr(s, p, p.proj@.len() as usize, dst).err is None,
        env.place_addr_general(s, p, p.proj@.len() as usize, dst) == env.place_addr(
            s,
            p,
            p.proj@.len() as usize,
            dst,
        ),
        Some(d.reg(index(dst))) == address_of(env, c, p, p.proj@.len() as usize),
        dst == Gpr::R11 ==> d.reg(0) == c.reg(0),
        dst == Gpr::R11 ==> d.reg(2) == c.reg(2),
        kept_but(c, d, scratch()),
        d.mem == c.mem,
{
    assert(index(Gpr::Rax) == 0 && index(Gpr::Rdx) == 2 && index(Gpr::R11) == 11 && index(Gpr::R10)
        == 10);
    let n = p.proj@.len() as usize;
    general_address(env, s, p, n, dst, c);
    let d = address_is_right(env, s, p, n, dst, c);
    assert forall|q: Gpr| !scratch().contains(q) implies #[trigger] d.reg(index(q)) == c.reg(
        index(q),
    ) by {
        gpr_codes_distinct(q, dst);
        gpr_codes_distinct(q, Gpr::R10);
    }
    d
}

// ---------------------------------------------------------------------------
//  Slices
// ---------------------------------------------------------------------------

/// The pointer to the first element of what a slice is made of: a slice, an array or what a
/// pointer points to.
pub open spec fn data_pointer(env: Env, c: Cpu, ptr: Operand) -> Option<u64> {
    match ptr {
        Operand::Copy(p) => match env.ty(env.place_type(p)) {
            Type::Slice { .. } => match address_of(env, c, p, p.proj@.len() as usize) {
                Some(a) => if in_space(a as int, 8) {
                    Some(fetch(c.mem, a as int, 8) as u64)
                } else {
                    None
                },
                None => None,
            },
            Type::Array { .. } => address_of(env, c, p, p.proj@.len() as usize),
            _ => scalar_word(env, c, ptr),
        },
        Operand::Const(_) => None,
    }
}

#[verifier::spinoff_prover]
proof fn data_is_loaded(env: Env, s: LowState, ptr: Operand, c: Cpu) -> (d: Cpu)
    requires
        c.wf(),
        s.err is None,
        addressable(env, ptr),
        data_pointer(env, c, ptr) is Some,
    ensures
        takes(s, env.slice_data_ptr(s, ptr, Gpr::Rax), c, d),
        env.slice_data_ptr(s, ptr, Gpr::Rax).err is None,
        Some(d.reg(0)) == data_pointer(env, c, ptr),
        kept_but(c, d, scratch()),
        d.mem == c.mem,
{
    reveal(Env::slice_data_ptr);
    assert(index(Gpr::Rax) == 0);
    let p = ptr->Copy_0;
    match env.ty(env.place_type(p)) {
        Type::Slice { .. } => {
            let t1 = env.place_addr(s, p, p.proj@.len() as usize, Gpr::Rax);
            let c1 = address_to(env, s, p, Gpr::Rax, c);
            let d = follow_mov_load_mem(s, t1, Gpr::Rax, Gpr::Rax, 0, c, c1);
            fetched_is_word(c.mem, c1.reg(0) as int, 8);
            fetch_bounded(c.mem, c1.reg(0) as int, 8);
            pow256_values();
            one_register(c1, d, Gpr::Rax);
            keeping_follows(c, c1, d);
            d
        },
        Type::Array { .. } => address_to(env, s, p, Gpr::Rax, c),
        _ => {
            let d = scalar_loads(env, s, ptr, Gpr::Rax, c);
            loading_keeps(c, d, Gpr::Rax);
            d
        },
    }
}

/// The pointer of a slice that is made: that to the first element, and as often the size of an
/// element as the offset says.
pub open spec fn slice_start(env: Env, c: Cpu, ptr: Operand, offset: Operand, ty: TypeId) -> u64 {
    wrap64(
        data_pointer(env, c, ptr).unwrap() + scalar_word(env, c, offset).unwrap() * env.elem_bytes(
            ty,
        ),
    )
}

proof fn product_wraps(a: u64, x: u64, k: u64)
    ensures
        wrap64(a + wrap64(x * k)) == wrap64(a + x * k),
{
    let p = x * k;
    let z = crate::machine::SPAN as int;
    vstd::arithmetic::div_mod::lemma_fundamental_div_mod(p, z);
    assert(p / z * z == z * (p / z)) by (nonlinear_arith);
    crate::lower::arith_effects::same_word(a + p, a + wrap64(p), p / z);
}

#[verifier::spinoff_prover]
proof fn start_is_computed(
    env: Env,
    s: LowState,
    ptr: Operand,
    offset: Operand,
    ty: TypeId,
    c: Cpu,
) -> (d: Cpu)
    requires
        c.wf(),
        s.err is None,
        addressable(env, ptr),
        addressable(env, offset),
        data_pointer(env, c, ptr) is Some,
        scalar_word(env, c, offset) is Some,
        word_stands(env, c, offset),
        env.elem_bytes(ty) <= i32::MAX,
    ensures
        takes(s, env.slice_pointer(s, ptr, offset, ty), c, d),
        env.slice_pointer(s, ptr, offset, ty).err is None,
        d.reg(0) == slice_start(env, c, ptr, offset, ty),
        kept_but(c, d, scratch()),
        d.mem == c.mem,
{
    assert(index(Gpr::Rax) == 0 && index(Gpr::Rcx) == 1);
    let k = env.elem_bytes(ty);
    let t1 = env.slice_data_ptr(s, ptr, Gpr::Rax);
    let c1 = data_is_loaded(env, s, ptr, c);
    assert(scalar_word(env, c1, offset) == scalar_word(env, c, offset));
    let t2 = env.operand_to(t1, offset, Gpr::Rcx);
    let c2 = scalar_loads(env, t1, offset, Gpr::Rcx, c1);
    takes_compose(s, t1, t2, c, c1, c2);
    loading_keeps(c1, c2, Gpr::Rcx);
    keeping_follows(c, c1, c2);
    assert(c2.reg(index(Gpr::Rax)) == c1.reg(index(Gpr::Rax)));
    let t3 = env.scale(t2, Gpr::Rcx, k);
    let c3 = scaling_multiplies(env, s, t2, Gpr::Rcx, k, c, c2);
    let d = follow_add_rr(s, t3, Gpr::Rax, Gpr::Rcx, c, c3);
    product_wraps(c1.reg(0), c2.reg(1), k);
    assert(env.slice_pointer(s, ptr, offset, ty) == t3.on(t3.text.add_rr(Gpr::Rax, Gpr::Rcx)))
        by {
        reveal(Env::slice_pointer);
    }
    assert(t3.err == t2.err) by {
        reveal(Env::scale);
    }
    assert(c3.reg(0) == c2.reg(0));
    assert forall|q: Gpr| !scratch().contains(q) implies #[trigger] d.reg(index(q)) == c.reg(
        index(q),
    ) by {
        gpr_codes_distinct(q, Gpr::Rax);
        gpr_codes_distinct(q, Gpr::Rcx);
        assert(c2.reg(index(q)) == c.reg(index(q)));
        assert(c3.reg(index(q)) == c2.reg(index(q)));
    }
    d
}

/// The code that stores the words of a slice, the pointer of which stands in `rax`.
pub open spec fn length_stored(env: Env, t: LowState, home: i32, len: Operand) -> LowState {
    let t = t.on(t.text.mov_store(home, Gpr::Rax));
    let t = env.operand_to(t, len, Gpr::Rax);
    t.on(t.text.mov_store(sum32(home, 8), Gpr::Rax))
}

#[verifier::spinoff_prover]
#[verifier::rlimit(40)]
proof fn slice_words_are_stored(
    env: Env,
    s: LowState,
    t: LowState,
    home: i32,
    len: Operand,
    c: Cpu,
    d: Cpu,
) -> (e: Cpu)
    requires
        takes(s, t, c, d),
        t.err is None,
        kept_but(c, d, scratch()),
        d.mem == c.mem,
        addressable(env, len),
        scalar_word(env, c, len) is Some,
        stands_beside(env, c, len, c.reg(5) + home, 16),
        home + 8 <= i32::MAX,
        in_space(c.reg(5) + home, 16),
    ensures
        takes(s, length_stored(env, t, home, len), c, e),
        env.operand_to(t.on(t.text.mov_store(home, Gpr::Rax)), len, Gpr::Rax).err is None,
        length_stored(env, t, home, len).err is None,
        fetch(e.mem, c.reg(5) + home, 8) == d.reg(0),
        fetch(e.mem, c.reg(5) + home + 8, 8) == scalar_word(env, c, len).unwrap(),
        same_outside(c.mem, e.mem, c.reg(5) + home, 16),
        kept_but(c, e, scratch()),
{
    assert(index(Gpr::Rax) == 0);
    let at = c.reg(5) + home;
    frame_stays(c, d);
    let t2 = t.on(t.text.mov_store(home, Gpr::Rax));
    let c2 = follow_mov_store(s, t, home, Gpr::Rax, c, d);
    assert(kept_but(c, c2, scratch())) by {
        assert forall|q: Gpr| !scratch().contains(q) implies #[trigger] c2.reg(index(q)) == c.reg(
            index(q),
        ) by {
            assert(d.reg(index(q)) == c.reg(index(q)));
        }
    }
    assert(same_outside(c.mem, c2.mem, at, 16));
    assert(scalar_word(env, c2, len) == scalar_word(env, c, len));
    let t3 = env.operand_to(t2, len, Gpr::Rax);
    let c3 = scalar_loads(env, t2, len, Gpr::Rax, c2);
    takes_compose(s, t2, t3, c, c2, c3);
    loading_keeps(c2, c3, Gpr::Rax);
    keeping_follows(c, c2, c3);
    frame_stays(c, c3);
    let e = follow_mov_store(s, t3, sum32(home, 8), Gpr::Rax, c, c3);
    pow256_values();
    written_is_read(d.mem, at, 8, d.reg(0) as int);
    written_is_read(c3.mem, at + 8, 8, c3.reg(0) as int);
    elsewhere_stays(c3.mem, at + 8, 8, c3.reg(0) as int, at, 8);
    assert forall|q: Gpr| !scratch().contains(q) implies #[trigger] e.reg(index(q)) == c.reg(
        index(q),
    ) by {
        assert(c3.reg(index(q)) == c.reg(index(q)));
    }
    e
}

/// A slice that is made holds the pointer to the element that it starts at, and the length that
/// it was given; no other bytes change.
#[verifier::spinoff_prover]
#[verifier::rlimit(40)]
pub proof fn slice_is_made(
    env: Env,
    s: LowState,
    home: i32,
    ptr: Operand,
    offset: Operand,
    len: Operand,
    ty: TypeId,
    c: Cpu,
) -> (d: Cpu)
    requires
        c.wf(),
        s.err is None,
        addressable(env, ptr),
        addressable(env, offset),
        addressable(env, len),
        data_pointer(env, c, ptr) is Some,
        scalar_word(env, c, offset) is Some,
        scalar_word(env, c, len) is Some,
        word_stands(env, c, offset),
        stands_beside(env, c, len, c.reg(5) + home, 16),
        env.elem_bytes(ty) <= i32::MAX,
        home + 8 <= i32::MAX,
        in_space(c.reg(5) + home, 16),
    ensures
        takes(s, env.build_make_slice(s, home, ptr, offset, len, ty), c, d),
        env.build_make_slice(s, home, ptr, offset, len, ty).err is None,
        fetch(d.mem, c.reg(5) + home, 8) == slice_start(env, c, ptr, offset, ty),
        fetch(d.mem, c.reg(5) + home + 8, 8) == scalar_word(env, c, len).unwrap(),
        same_outside(c.mem, d.mem, c.reg(5) + home, 16),
        kept_but(c, d, scratch()),
{
    let t1 = env.slice_pointer(s, ptr, offset, ty);
    let c1 = start_is_computed(env, s, ptr, offset, ty, c);
    let d = slice_words_are_stored(env, s, t1, home, len, c, c1);
    assert(env.build_make_slice(s, home, ptr, offset, len, ty) == length_stored(
        env,
        t1,
        home,
        len,
    )) by {
        reveal(Env::build_make_slice);
    }
    d
}

// ---------------------------------------------------------------------------
//  Copies of aggregates
// ---------------------------------------------------------------------------

#[verifier::spinoff_prover]
proof fn bytes_are_copied(
    env: Env,
    s: LowState,
    t: LowState,
    size: u64,
    c: Cpu,
    d: Cpu,
) -> (e: Cpu)
    requires
        takes(s, t, c, d),
        d.wf(),
        size <= i64::MAX,
        in_space(d.reg(11) as int, size as nat),
        in_space(d.reg(0) as int, size as nat),
        apart(d.reg(11) as int, d.reg(0) as int, size as int),
    ensures
        takes(s, env.memcpy(t, Gpr::R11, Gpr::Rax, size), c, e),
        env.memcpy(t, Gpr::R11, Gpr::Rax, size).err == t.err,
        copied(d.mem, e.mem, d.reg(11) as int, d.reg(0) as int, size as int),
        kept_but(d, e, scratch()),
{
    assert(index(Gpr::Rax) == 0 && index(Gpr::R11) == 11);
    let e = copy_copies(env, t, Gpr::R11, Gpr::Rax, size, d);
    takes_compose(s, t, env.memcpy(t, Gpr::R11, Gpr::Rax, size), c, d, e);
    copying_goes_on(env, t, Gpr::R11, Gpr::Rax, size);
    assert forall|q: Gpr| !scratch().contains(q) implies #[trigger] e.reg(index(q)) == d.reg(
        index(q),
    ) by {
        assert(!copy_scratch(size).contains(q));
    }
    e
}

/// An aggregate that is used as a value is copied whole to the home of the destination.
#[verifier::spinoff_prover]
pub proof fn aggregate_is_copied(
    env: Env,
    s: LowState,
    home: i32,
    p: Place,
    ty: TypeId,
    c: Cpu,
) -> (d: Cpu)
    requires
        c.wf(),
        s.err is None,
        addressable(env, Operand::Copy(p)),
        env.in_memory(env.place_type(p)),
        env.layout(ty).size <= i64::MAX,
        p.proj@.len() == 0 ==> env.home(p.base) is Some,
        address_of(env, c, p, p.proj@.len() as usize) matches Some(a) && in_space(
            a as int,
            env.layout(ty).size as nat,
        ) && apart(c.reg(5) + home, a as int, env.layout(ty).size as int),
        0 <= c.reg(5) + home < crate::machine::SPAN,
        in_space(c.reg(5) + home, env.layout(ty).size as nat),
    ensures
        takes(s, env.aggregate_use(s, home, Operand::Copy(p), ty), c, d),
        env.aggregate_use(s, home, Operand::Copy(p), ty).err is None,
        copied(
            c.mem,
            d.mem,
            c.reg(5) + home,
            address_of(env, c, p, p.proj@.len() as usize).unwrap() as int,
            env.layout(ty).size as int,
        ),
        kept_but(c, d, scratch()),
{
    assert(index(Gpr::Rax) == 0 && index(Gpr::R11) == 11);
    let n = p.proj@.len() as usize;
    let size = env.layout(ty).size;
    let t1 = env.place_addr(s, p, n, Gpr::Rax);
    let c1 = address_to(env, s, p, Gpr::Rax, c);
    frame_stays(c, c1);
    let t2 = t1.on(t1.text.lea_rbp(Gpr::R11, home));
    let c2 = follow_lea_rbp(s, t1, Gpr::R11, home, c, c1);
    one_register(c1, c2, Gpr::R11);
    keeping_follows(c, c1, c2);
    let d = bytes_are_copied(env, s, t2, size, c, c2);
    keeping_follows(c, c2, d);
    assert(env.aggregate_use(s, home, Operand::Copy(p), ty) == env.memcpy(
        t2,
        Gpr::R11,
        Gpr::Rax,
        size,
    )) by {
        reveal(Env::aggregate_use);
    }
    d
}

/// Whether the bytes of one place can be copied to another.
pub open spec fn places_copy(env: Env, c: Cpu, to: Place, from: Place, size: u64) -> bool {
    &&& addressable(env, Operand::Copy(to))
    &&& addressable(env, Operand::Copy(from))
    &&& address_stands(env, c, to)
    &&& size <= i64::MAX
    &&& address_of(env, c, from, from.proj@.len() as usize) is Some
    &&& address_of(env, c, to, to.proj@.len() as usize) is Some
    &&& ({
        let a = address_of(env, c, from, from.proj@.len() as usize).unwrap() as int;
        let b = address_of(env, c, to, to.proj@.len() as usize).unwrap() as int;
        &&& in_space(a, size as nat)
        &&& in_space(b, size as nat)
        &&& apart(b, a, size as int)
    })
}

#[verifier::spinoff_prover]
proof fn place_is_copied(env: Env, s: LowState, to: Place, from: Place, size: u64, c: Cpu) -> (d:
    Cpu)
    requires
        c.wf(),
        s.err is None,
        places_copy(env, c, to, from, size),
    ensures
        ({
            let t1 = env.place_addr(s, from, from.proj@.len() as usize, Gpr::Rax);
            let t2 = env.place_addr(t1, to, to.proj@.len() as usize, Gpr::R11);
            let t3 = env.memcpy(t2, Gpr::R11, Gpr::Rax, size);
            &&& env.place_addr_general(s, from, from.proj@.len() as usize, Gpr::Rax) == t1
            &&& t1.err is None
            &&& t2.err is None
            &&& t3.err is None
            &&& takes(s, t3, c, d)
        }),
        copied(
            c.mem,
            d.mem,
            address_of(env, c, to, to.proj@.len() as usize).unwrap() as int,
            address_of(env, c, from, from.proj@.len() as usize).unwrap() as int,
            size as int,
        ),
        kept_but(c, d, scratch()),
{
    assert(index(Gpr::Rax) == 0 && index(Gpr::R11) == 11);
    let t1 = env.place_addr(s, from, from.proj@.len() as usize, Gpr::Rax);
    let c1 = address_to(env, s, from, Gpr::Rax, c);
    assert(address_of(env, c1, to, to.proj@.len() as usize) == address_of(
        env,
        c,
        to,
        to.proj@.len() as usize,
    ));
    let t2 = env.place_addr(t1, to, to.proj@.len() as usize, Gpr::R11);
    let c2 = address_to(env, t1, to, Gpr::R11, c1);
    takes_compose(s, t1, t2, c, c1, c2);
    keeping_follows(c, c1, c2);
    let d = bytes_are_copied(env, s, t2, size, c, c2);
    keeping_follows(c, c2, d);
    d
}

/// An aggregate that is assigned to a part of a local is copied there whole.
#[verifier::spinoff_prover]
pub proof fn aggregate_goes_to_place(
    env: Env,
    s: LowState,
    to: Place,
    from: Place,
    c: Cpu,
) -> (d: Cpu)
    requires
        c.wf(),
        s.err is None,
        !(env.last_step(to) is Packed),
        env.in_memory(env.place_type(to)),
        places_copy(env, c, to, from, env.layout(env.place_type(to)).size),
    ensures
        ({
            let u = env.lower_rvalue_to_place(s, to, Rvalue::Use(Operand::Copy(from)));
            takes(s, u, c, d) && u.err is None
        }),
        copied(
            c.mem,
            d.mem,
            address_of(env, c, to, to.proj@.len() as usize).unwrap() as int,
            address_of(env, c, from, from.proj@.len() as usize).unwrap() as int,
            env.layout(env.place_type(to)).size as int,
        ),
        kept_but(c, d, scratch()),
{
    reveal(Env::lower_rvalue_to_place);
    reveal(Env::store_aggregate_rvalue_to_place);
    place_is_copied(env, s, to, from, env.layout(env.place_type(to)).size, c)
}

/// An element of a slice that is assigned is copied as wide as the elements of the slice are.
#[verifier::spinoff_prover]
pub proof fn element_is_copied(
    env: Env,
    s: LowState,
    to: Place,
    from: Place,
    stride: u64,
    c: Cpu,
) -> (d: Cpu)
    requires
        c.wf(),
        s.err is None,
        !(env.last_step(to) is Packed),
        !env.in_memory(env.place_type(to)),
        env.slice_index_aggregate_stride(to) == Some(stride),
        places_copy(env, c, to, from, stride),
    ensures
        ({
            let u = env.lower_rvalue_to_place(s, to, Rvalue::Use(Operand::Copy(from)));
            takes(s, u, c, d) && u.err is None
        }),
        copied(
            c.mem,
            d.mem,
            address_of(env, c, to, to.proj@.len() as usize).unwrap() as int,
            address_of(env, c, from, from.proj@.len() as usize).unwrap() as int,
            stride as int,
        ),
        kept_but(c, d, scratch()),
{
    reveal(Env::lower_rvalue_to_place);
    reveal(Env::copy_element);
    place_is_copied(env, s, to, from, stride, c)
}

// ---------------------------------------------------------------------------
//  Scalars in places
// ---------------------------------------------------------------------------

/// A scalar that is assigned to a part of a local is stored there, brought to the width of its
/// type, and as many bytes as its type has.
#[verifier::spinoff_prover]
#[verifier::rlimit(40)]
pub proof fn scalar_goes_to_place(
    env: Env,
    s: LowState,
    to: Place,
    op: Operand,
    c: Cpu,
) -> (d: Cpu)
    requires
        c.wf(),
        s.err is None,
        !(env.last_step(to) is Packed),
        !env.in_memory(env.place_type(to)),
        !env.is_wide_int(env.place_type(to)),
        op is Copy ==> env.slice_index_aggregate_stride(to) is None,
        addressable(env, op),
        addressable(env, Operand::Copy(to)),
        address_stands(env, c, to),
        scalar_word(env, c, op) is Some,
        address_of(env, c, to, to.proj@.len() as usize) matches Some(a) && in_space(
            a as int,
            scalar_width(env, env.place_type(to)),
        ),
    ensures
        takes(s, env.lower_rvalue_to_place(s, to, Rvalue::Use(op)), c, d),
        env.lower_rvalue_to_place(s, to, Rvalue::Use(op)).err is None,
        d.mem == patch(
            c.mem,
            address_of(env, c, to, to.proj@.len() as usize).unwrap() as int,
            scalar_width(env, env.place_type(to)),
            brought(env, scalar_word(env, c, op).unwrap(), env.place_type(to)) as int,
        ),
        kept_but(c, d, scratch()),
{
    let ty = env.place_type(to);
    assert(index(Gpr::Rax) == 0 && index(Gpr::R11) == 11 && index(Gpr::Rcx) == 1);
    let t1 = env.operand_to(s, op, Gpr::Rax);
    let c1 = scalar_loads(env, s, op, Gpr::Rax, c);
    loading_keeps(c, c1, Gpr::Rax);
    let t2 = env.normalize(t1, Gpr::Rax, ty);
    let c2 = normalizing_wraps(env, s, t1, Gpr::Rax, ty, c, c1);
    assert(t2.err == t1.err) by {
        reveal(Env::normalize);
        reveal(Env::normalize_signed_other);
        reveal(Env::normalize_unsigned_other);
    }
    assert(kept_but(c1, c2, scratch())) by {
        assert forall|q: Gpr| !scratch().contains(q) implies #[trigger] c2.reg(index(q)) == c1.reg(
            index(q),
        ) by {
            gpr_codes_distinct(q, Gpr::Rax);
            gpr_codes_distinct(q, Gpr::Rcx);
        }
    }
    keeping_follows(c, c1, c2);
    assert(address_of(env, c2, to, to.proj@.len() as usize) == address_of(
        env,
        c,
        to,
        to.proj@.len() as usize,
    ));
    let t3 = env.place_addr(t2, to, to.proj@.len() as usize, Gpr::R11);
    let c3 = address_to(env, t2, to, Gpr::R11, c2);
    takes_compose(s, t2, t3, c, c2, c3);
    keeping_follows(c, c2, c3);
    let d = store_writes(env, s, t3, Gpr::R11, 0, Gpr::Rax, ty, c, c3);
    assert(env.lower_rvalue_to_place(s, to, Rvalue::Use(op)) == env.store_sized(
        t3,
        Gpr::R11,
        0,
        Gpr::Rax,
        ty,
    )) by {
        reveal(Env::lower_rvalue_to_place);
        reveal(Env::store_scalar_rvalue);
        reveal(Env::eval_scalar_rvalue_into_rax);
    }
    assert forall|q: Gpr| !scratch().contains(q) implies #[trigger] d.reg(index(q)) == c.reg(
        index(q),
    ) by {
        assert(c3.reg(index(q)) == c.reg(index(q)));
    }
    d
}

} // verus!
