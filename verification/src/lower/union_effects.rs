//! What the code for optionals, error unions and slices does: what it builds, and what it reads
//! of what was built.
use vstd::prelude::*;

use crate::bytes::wrap64;
use crate::encode::Cc;
use crate::lower::agg_effects::{bytes_at, clear_of, field_bytes, field_is_stored};
use crate::lower::alloc_effects::{tag_store_runs, tag_stored};
use crate::lower::arith_effects::local_word;
use crate::lower::assign_effects::result_is_stored;
use crate::lower::effects::{takes, takes_nothing, tells, with_itself};
use crate::lower::env::{Env, LowState};
use crate::lower::float_effects::{assigned_reads, can_hold, reads_as, truth_word};
use crate::lower::follow::{
    follow_lea_rbp, follow_mov_ri, follow_mov_store8_mem, follow_movzx16_mem, follow_movzx8_mem,
    follow_test_rr,
};
use crate::lower::effects::set_bool_runs;
use crate::lower::mem_effects::{fetched_is_word, kept_but, zeroing_zeroes};
use crate::lower::operand_effects::{addressable, scalar_loads, scalar_word};
use crate::lower::place_effects::{address_is_right, address_of, general_address};
use crate::lower::scalar::sum32;
use crate::lower::simulation::takes_compose;
use crate::lower::wide_effects::{frame_stays, keeping_follows, same_outside, scratch};
use crate::machine::{Cpu, byte_at, fetch, in_space};
use crate::mir::{DiscrKind, LocalId, Operand, Place, Rvalue};
use crate::reg::{Gpr, gpr_codes_distinct};
use crate::steps::index;
use crate::types::{Type, TypeId};

verus! {

// ---------------------------------------------------------------------------
//  Tests against zero
// ---------------------------------------------------------------------------

/// The code that tells whether `rax` is zero.
pub open spec fn zero_told(env: Env, t: LowState, cc: Cc) -> LowState {
    env.set_bool(t.on(t.text.test_rr(Gpr::Rax, Gpr::Rax)), cc)
}

#[verifier::spinoff_prover]
proof fn zero_is_told(env: Env, s: LowState, t: LowState, cc: Cc, c: Cpu, d: Cpu) -> (e: Cpu)
    requires
        takes(s, t, c, d),
        d.wf(),
        cc == Cc::E || cc == Cc::Ne,
    ensures
        takes(s, zero_told(env, t, cc), c, e),
        zero_told(env, t, cc).err == t.err,
        e.reg(0) == truth_word((d.reg(0) == 0) == (cc == Cc::E)),
        kept_but(d, e, set![Gpr::Rax]),
        e.mem == d.mem,
{
    reveal(Env::set_bool);
    assert(index(Gpr::Rax) == 0);
    let t1 = t.on(t.text.test_rr(Gpr::Rax, Gpr::Rax));
    let d1 = follow_test_rr(s, t, Gpr::Rax, Gpr::Rax, c, d);
    with_itself(d.reg(0));
    let b = (d.reg(0) == 0) == (cc == Cc::E);
    assert(tells(d1, cc) == Some(b));
    let e = set_bool_runs(env, s, t1, cc, c, d1, b);
    assert forall|q: Gpr| !set![Gpr::Rax].contains(q) implies #[trigger] e.reg(index(q)) == d.reg(
        index(q),
    ) by {
        assert(q != Gpr::Rax);
        gpr_codes_distinct(q, Gpr::Rax);
    }
    e
}

/// Whether a local can hold the truth of something.
pub open spec fn can_tell(env: Env, c: Cpu, l: LocalId) -> bool {
    can_hold(env, c, l, 0) && can_hold(env, c, l, 1)
}

#[verifier::spinoff_prover]
proof fn truth_is_stored(
    env: Env,
    s: LowState,
    t: LowState,
    cc: Cc,
    dst: LocalId,
    c: Cpu,
    d: Cpu,
) -> (e: Cpu)
    requires
        takes(s, t, c, d),
        t.err is None,
        kept_but(c, d, scratch()),
        d.mem == c.mem,
        cc == Cc::E || cc == Cc::Ne,
        can_tell(env, c, dst),
    ensures
        takes(s, env.store_scalar_result(zero_told(env, t, cc), dst), c, e),
        env.store_scalar_result(zero_told(env, t, cc), dst).err is None,
        reads_as(env, c, e, dst, truth_word((d.reg(0) == 0) == (cc == Cc::E))),
{
    let t1 = zero_told(env, t, cc);
    let d1 = zero_is_told(env, s, t, cc, c, d);
    assert(kept_but(d, d1, scratch())) by {
        assert forall|q: Gpr| !scratch().contains(q) implies #[trigger] d1.reg(index(q)) == d.reg(
            index(q),
        ) by {
            assert(!set![Gpr::Rax].contains(q));
        }
    }
    keeping_follows(c, d, d1);
    frame_stays(c, d1);
    let e = result_is_stored(env, s, t1, dst, c, d1);
    assigned_reads(env, c, d1, e, dst, d1.reg(0));
    e
}

// ---------------------------------------------------------------------------
//  Discriminants
// ---------------------------------------------------------------------------

proof fn address_goes_to_r11(env: Env, s: LowState, op: Operand, c: Cpu) -> (d: Cpu)
    requires
        c.wf(),
        s.err is None,
        op is Copy,
        addressable(env, op),
        address_of(env, c, op->Copy_0, op->Copy_0.proj@.len() as usize) is Some,
    ensures
        takes(s, env.aggregate_operand_addr(s, op, Gpr::R11), c, d),
        env.aggregate_operand_addr(s, op, Gpr::R11).err is None,
        Some(d.reg(11)) == address_of(env, c, op->Copy_0, op->Copy_0.proj@.len() as usize),
        kept_but(c, d, scratch()),
        d.mem == c.mem,
{
    reveal(Env::aggregate_operand_addr);
    assert(index(Gpr::R11) == 11);
    let p = op->Copy_0;
    let n = p.proj@.len() as usize;
    general_address(env, s, p, n, Gpr::R11, c);
    let d = address_is_right(env, s, p, n, Gpr::R11, c);
    assert forall|q: Gpr| !scratch().contains(q) implies #[trigger] d.reg(index(q)) == c.reg(
        index(q),
    ) by {
        gpr_codes_distinct(q, Gpr::R10);
        gpr_codes_distinct(q, Gpr::R11);
    }
    d
}

/// The discriminant of an optional with a flag is one where the flag is clear, else zero.
#[verifier::spinoff_prover]
pub proof fn flag_tells(env: Env, s: LowState, dst: LocalId, op: Operand, c: Cpu) -> (d: Cpu)
    requires
        c.wf(),
        s.err is None,
        op is Copy,
        addressable(env, op),
        env.is_flagged_optional(env.place_type(op->Copy_0)),
        address_of(env, c, op->Copy_0, op->Copy_0.proj@.len() as usize) matches Some(a) && in_space(
            a + env.flag_offset(env.place_type(op->Copy_0)),
            1,
        ),
        can_tell(env, c, dst),
    ensures
        takes(s, env.lower_discr_optional(s, dst, op), c, d),
        env.lower_discr_optional(s, dst, op).err is None,
        ({
            let p = op->Copy_0;
            let a = address_of(env, c, p, p.proj@.len() as usize).unwrap();
            reads_as(
                env,
                c,
                d,
                dst,
                truth_word((c.mem)(a + env.flag_offset(env.place_type(p))) == 0),
            )
        }),
{
    assert(index(Gpr::Rax) == 0 && index(Gpr::R11) == 11);
    let ty = env.place_type(op->Copy_0);
    let off = env.flag_offset(ty);
    let t1 = env.aggregate_operand_addr(s, op, Gpr::R11);
    let c1 = address_goes_to_r11(env, s, op, c);
    let t2 = t1.on(t1.text.movzx8_mem(Gpr::Rax, Gpr::R11, off));
    let c2 = follow_movzx8_mem(s, t1, Gpr::Rax, Gpr::R11, off, c, c1);
    crate::lower::print_effects::byte_moves(c.mem, c1.reg(11) + off);
    assert(c2.reg(0) == (c.mem)(c1.reg(11) + off));
    assert(kept_but(c1, c2, scratch())) by {
        assert forall|q: Gpr| !scratch().contains(q) implies #[trigger] c2.reg(index(q)) == c1.reg(
            index(q),
        ) by {
            gpr_codes_distinct(q, Gpr::Rax);
        }
    }
    keeping_follows(c, c1, c2);
    assert(env.lower_discr_optional(s, dst, op) == env.store_scalar_result(
        zero_told(env, t2, Cc::E),
        dst,
    )) by {
        reveal(Env::lower_discr_optional);
        reveal(Env::set_bool);
    }
    truth_is_stored(env, s, t2, Cc::E, dst, c, c2)
}

/// The discriminant of an optional pointer is one where it is null, else zero.
#[verifier::spinoff_prover]
pub proof fn null_tells(env: Env, s: LowState, dst: LocalId, op: Operand, c: Cpu) -> (d: Cpu)
    requires
        c.wf(),
        s.err is None,
        addressable(env, op),
        env.operand_type(op) matches Some(ty) && !env.is_flagged_optional(ty),
        scalar_word(env, c, op) is Some,
        can_tell(env, c, dst),
    ensures
        takes(s, env.lower_discr_optional(s, dst, op), c, d),
        env.lower_discr_optional(s, dst, op).err is None,
        reads_as(env, c, d, dst, truth_word(scalar_word(env, c, op) == Some(0u64))),
{
    assert(index(Gpr::Rax) == 0);
    let t1 = env.operand_to(s, op, Gpr::Rax);
    let c1 = scalar_loads(env, s, op, Gpr::Rax, c);
    assert(kept_but(c, c1, scratch())) by {
        assert forall|q: Gpr| !scratch().contains(q) implies #[trigger] c1.reg(index(q)) == c.reg(
            index(q),
        ) by {
            assert(!set![Gpr::Rax, Gpr::R10, Gpr::R11].contains(q));
        }
    }
    assert(env.lower_discr_optional(s, dst, op) == env.store_scalar_result(
        zero_told(env, t1, Cc::E),
        dst,
    )) by {
        reveal(Env::lower_discr_optional);
        reveal(Env::test_operand);
        reveal(Env::set_bool);
    }
    truth_is_stored(env, s, t1, Cc::E, dst, c, c1)
}

/// The discriminant of an error union in a place is one where its tag is not zero, else zero.
#[verifier::spinoff_prover]
pub proof fn tag_tells(env: Env, s: LowState, dst: LocalId, op: Operand, c: Cpu) -> (d: Cpu)
    requires
        c.wf(),
        s.err is None,
        op is Copy,
        addressable(env, op),
        env.holds_allocation(op) || env.operand_is_error_union(op),
        address_of(env, c, op->Copy_0, op->Copy_0.proj@.len() as usize) matches Some(a) && in_space(
            a as int,
            2,
        ),
        can_tell(env, c, dst),
    ensures
        takes(s, env.lower_discr_error_union(s, dst, op), c, d),
        env.lower_discr_error_union(s, dst, op).err is None,
        ({
            let p = op->Copy_0;
            let a = address_of(env, c, p, p.proj@.len() as usize).unwrap();
            reads_as(env, c, d, dst, truth_word(fetch(c.mem, a as int, 2) != 0))
        }),
{
    assert(index(Gpr::Rax) == 0 && index(Gpr::R11) == 11);
    let t1 = env.aggregate_operand_addr(s, op, Gpr::R11);
    let c1 = address_goes_to_r11(env, s, op, c);
    let t2 = t1.on(t1.text.movzx16_mem(Gpr::Rax, Gpr::R11, 0));
    let c2 = follow_movzx16_mem(s, t1, Gpr::Rax, Gpr::R11, 0, c, c1);
    fetched_is_word(c.mem, c1.reg(11) as int, 2);
    assert(kept_but(c1, c2, scratch())) by {
        assert forall|q: Gpr| !scratch().contains(q) implies #[trigger] c2.reg(index(q)) == c1.reg(
            index(q),
        ) by {
            gpr_codes_distinct(q, Gpr::Rax);
        }
    }
    keeping_follows(c, c1, c2);
    assert(env.lower_discr_error_union(s, dst, op) == env.store_scalar_result(
        zero_told(env, t2, Cc::Ne),
        dst,
    )) by {
        reveal(Env::lower_discr_error_union);
        reveal(Env::set_bool);
    }
    truth_is_stored(env, s, t2, Cc::Ne, dst, c, c2)
}

// ---------------------------------------------------------------------------
//  Optionals and error unions that are made
// ---------------------------------------------------------------------------

/// Whether a home has room for an optional with a flag.
pub open spec fn optional_room(env: Env, c: Cpu, home: i32, oty: TypeId) -> bool {
    let size = env.layout(oty).size;
    &&& env.is_flagged_optional(oty)
    &&& 0 <= env.flag_offset(oty) < size <= i32::MAX
    &&& home + size + 8 <= i32::MAX
    &&& 0 <= c.reg(5) + home
    &&& in_space(c.reg(5) + home, size as nat)
}

/// An optional that is made as null has a flag that is clear, and changes no other bytes.
#[verifier::spinoff_prover]
pub proof fn null_is_made(env: Env, s: LowState, home: i32, oty: TypeId, c: Cpu) -> (d: Cpu)
    requires
        c.wf(),
        optional_room(env, c, home, oty),
    ensures
        takes(s, env.build_make_null(s, home, oty), c, d),
        env.build_make_null(s, home, oty).err == s.err,
        (d.mem)(c.reg(5) + home + env.flag_offset(oty)) == 0,
        same_outside(c.mem, d.mem, c.reg(5) + home, env.layout(oty).size as int),
        kept_but(c, d, scratch()),
{
    assert(index(Gpr::R11) == 11);
    takes_nothing(s, c);
    let size = env.layout(oty).size;
    let t1 = s.on(s.text.lea_rbp(Gpr::R11, home));
    let c1 = follow_lea_rbp(s, s, Gpr::R11, home, c, c);
    assert(c1.reg(11) == c.reg(5) + home);
    let t2 = env.zero_bytes(t1, Gpr::R11, size);
    let d = zeroing_zeroes(env, t1, Gpr::R11, size, c1);
    takes_compose(s, t1, t2, c, c1, d);
    assert(env.build_make_null(s, home, oty) == t2) by {
        reveal(Env::build_make_null);
    }
    zeroing_goes_on(env, t1, Gpr::R11, size);
    assert forall|q: Gpr| !scratch().contains(q) implies #[trigger] d.reg(index(q)) == c.reg(
        index(q),
    ) by {
        gpr_codes_distinct(q, Gpr::R11);
        assert(!set![Gpr::Rax].contains(q));
        assert(d.reg(index(q)) == c1.reg(index(q)));
    }
    d
}

proof fn zeroing_goes_on(env: Env, s: LowState, dst: Gpr, size: u64)
    ensures
        env.zero_bytes(s, dst, size).err == s.err,
{
    reveal(Env::zero_bytes);
    let t = s.on(s.text.mov_ri(Gpr::Rax, 0));
    zeros_go_on(env, t, dst, 0, size as i32);
}

proof fn zeros_go_on(env: Env, s: LowState, dst: Gpr, off: i32, rem: i32)
    ensures
        env.zero_from(s, dst, off, rem).err == s.err,
    decreases rem,
{
    if rem >= 8 {
        let t = s.on(s.text.mov_store_mem(dst, off, Gpr::Rax));
        zeros_go_on(env, t, dst, sum32(off, 8), (rem - 8) as i32);
    } else if rem > 0 {
        let t = s.on(s.text.mov_store8_mem(dst, off, Gpr::Rax));
        zeros_go_on(env, t, dst, sum32(off, 1), (rem - 1) as i32);
    }
}

/// Whether an operand can be stored as the payload of an optional.
pub open spec fn payload_of_optional(
    env: Env,
    s: LowState,
    c: Cpu,
    home: i32,
    op: Operand,
    oty: TypeId,
) -> bool {
    let inner = env.optional_inner(oty);
    &&& addressable(env, op)
    &&& env.layout(inner).size <= i64::MAX
    &&& field_bytes(env, s.ro, c, op, inner) is Some
    &&& field_bytes(env, s.ro, c, op, inner).unwrap().len() <= env.flag_offset(oty)
    &&& clear_of(
        env,
        c,
        op,
        inner,
        c.reg(5) + home,
        field_bytes(env, s.ro, c, op, inner).unwrap().len() as int,
    )
}

/// An optional that is made with a value holds the bytes of the value and a flag that is set.
#[verifier::spinoff_prover]
#[verifier::rlimit(40)]
pub proof fn some_is_made(env: Env, s: LowState, home: i32, op: Operand, oty: TypeId, c: Cpu) -> (d:
    Cpu)
    requires
        c.wf(),
        s.err is None,
        optional_room(env, c, home, oty),
        payload_of_optional(env, s, c, home, op, oty),
    ensures
        takes(s, env.build_make_some(s, home, op, oty), c, d),
        env.build_make_some(s, home, op, oty).err is None,
        ({
            let v = field_bytes(env, s.ro, c, op, env.optional_inner(oty)).unwrap();
            bytes_at(d.mem, c.reg(5) + home, v.len()) =~= v
        }),
        (d.mem)(c.reg(5) + home + env.flag_offset(oty)) == 1,
        same_outside(c.mem, d.mem, c.reg(5) + home, env.layout(oty).size as int),
        kept_but(c, d, scratch()),
{
    assert(index(Gpr::Rax) == 0 && index(Gpr::Rbp) == 5);
    let inner = env.optional_inner(oty);
    let v = field_bytes(env, s.ro, c, op, inner).unwrap();
    let off = env.flag_offset(oty);
    let at = c.reg(5) + home;
    let t1 = env.store_field_operand(s, home, op, inner);
    let c1 = field_is_stored(env, s, home, op, inner, c);
    frame_stays(c, c1);
    let t2 = t1.on(t1.text.mov_ri(Gpr::Rax, 1));
    let c2 = follow_mov_ri(s, t1, Gpr::Rax, 1, c, c1);
    let cell = sum32(home, off);
    let t3 = t2.on(t2.text.mov_store8_mem(Gpr::Rbp, cell, Gpr::Rax));
    let d = follow_mov_store8_mem(s, t2, Gpr::Rbp, cell, Gpr::Rax, c, c2);
    assert(env.build_make_some(s, home, op, oty) == t3) by {
        reveal(Env::build_make_some);
    }
    let m = c.mem;
    let m1 = c1.mem;
    let k = d.mem;
    assert(k(at + off) == 1) by {
        reveal_with_fuel(byte_at, 2);
    }
    assert forall|i: int| 0 <= i < v.len() implies #[trigger] k(at + i) == v[i] by {
        assert(m1(at + i) == v[i]);
    }
    assert forall|x: int| !(at <= x < at + env.layout(oty).size) implies #[trigger] k(x) == m(x) by {
        assert(m1(x) == m(x));
    }
    assert forall|q: Gpr| !scratch().contains(q) implies #[trigger] d.reg(index(q)) == c.reg(
        index(q),
    ) by {
        gpr_codes_distinct(q, Gpr::Rax);
        assert(c1.reg(index(q)) == c.reg(index(q)));
    }
    d
}

/// Whether a place is a whole local with a home.
pub open spec fn whole(env: Env, p: Place, l: LocalId, home: i32) -> bool {
    p.base == l && p.proj@.len() == 0 && env.home(l) == Some(home)
}

proof fn tell_stays(env: Env, c: Cpu, d: Cpu, l: LocalId)
    requires
        can_tell(env, c, l),
        d.reg(5) == c.reg(5),
    ensures
        can_tell(env, d, l),
{
}

/// Code that makes an optional with a flag, and the code that takes its discriminant: the
/// destination reads one where the optional was made as null, and zero where it was made with
/// a value.
#[verifier::spinoff_prover]
#[verifier::rlimit(40)]
pub proof fn optional_tells_how_it_was_made(
    env: Env,
    s: LowState,
    o: LocalId,
    home: i32,
    make: Rvalue,
    p: Place,
    dst: LocalId,
    c: Cpu,
) -> (d: Cpu)
    requires
        c.wf(),
        s.err is None,
        whole(env, p, o, home),
        optional_room(env, c, home, env.local_ty(o)),
        make matches Rvalue::MakeNull(t) && t == env.local_ty(o) || (make matches Rvalue::MakeSome(
            op,
            t,
        ) && t == env.local_ty(o) && payload_of_optional(env, s, c, home, op, t)),
        can_tell(env, c, dst),
    ensures
        ({
            let t = env.lower_aggregate_rvalue(s, o, make, env.local_ty(o));
            let u = env.lower_discriminant(t, dst, Operand::Copy(p), DiscrKind::Optional);
            takes(s, u, c, d) && u.err is None
        }),
        local_word(env, d, dst) == Some(truth_word(make is MakeNull)),
{
    let oty = env.local_ty(o);
    let t = env.lower_aggregate_rvalue(s, o, make, oty);
    let at = c.reg(5) + home;
    let c1: Cpu = match make {
        Rvalue::MakeSome(op, _) => {
            assert(t == env.build_make_some(s, home, op, oty)) by {
                reveal(Env::lower_aggregate_rvalue);
            }
            some_is_made(env, s, home, op, oty, c)
        },
        _ => {
            assert(t == env.build_make_null(s, home, oty)) by {
                reveal(Env::lower_aggregate_rvalue);
            }
            null_is_made(env, s, home, oty, c)
        },
    };
    frame_stays(c, c1);
    assert(address_of(env, c1, p, 0) == Some(at as u64)) by {
        assert(wrap64(at) == at);
    }
    tell_stays(env, c, c1, dst);
    assert(env.place_type(p) == oty);
    let u = env.lower_discriminant(t, dst, Operand::Copy(p), DiscrKind::Optional);
    assert(u == env.lower_discr_optional(t, dst, Operand::Copy(p))) by {
        reveal(Env::lower_discriminant);
    }
    let d = flag_tells(env, t, dst, Operand::Copy(p), c1);
    takes_compose(s, t, u, c, c1, d);
    d
}

/// An error union that is made as an error holds its tag.
#[verifier::spinoff_prover]
pub proof fn err_is_made(env: Env, s: LowState, home: i32, tag: u16, c: Cpu) -> (d: Cpu)
    requires
        c.wf(),
        in_space(c.reg(5) + home, 2),
    ensures
        takes(s, env.build_make_err(s, home, tag), c, d),
        env.build_make_err(s, home, tag).err == s.err,
        fetch(d.mem, c.reg(5) + home, 2) == tag,
        same_outside(c.mem, d.mem, c.reg(5) + home, 2),
        kept_but(c, d, scratch()),
{
    reveal(Env::build_make_err);
    takes_nothing(s, c);
    tag_store_runs(s, s, home, tag, c, c)
}

/// Whether a home has room for an error union with a payload of `n` bytes.
pub open spec fn union_room(env: Env, c: Cpu, home: i32, ety: TypeId, n: int) -> bool {
    let off = env.payload_offset(ety);
    &&& off >= 2
    &&& home + off + n + 8 <= i32::MAX
    &&& 0 <= c.reg(5) + home
    &&& in_space(c.reg(5) + home, (off + n) as nat)
}

/// Whether an operand can be stored as the payload of an error union, whatever the tag.
pub open spec fn payload_of_union(
    env: Env,
    s: LowState,
    c: Cpu,
    home: i32,
    op: Operand,
    ety: TypeId,
) -> bool {
    let ok = env.error_union_ok(ety);
    let v = field_bytes(env, s.ro, c, op, ok);
    let at = c.reg(5) + home;
    &&& addressable(env, op)
    &&& env.ty(ok) != Type::Void
    &&& env.layout(ok).size <= i64::MAX
    &&& v is Some
    &&& union_room(env, c, home, ety, v.unwrap().len() as int)
    &&& forall|d: Cpu|
        kept_but(c, d, scratch()) && same_outside(c.mem, d.mem, at, 2) ==> #[trigger] field_bytes(
            env,
            s.ro,
            d,
            op,
            ok,
        ) == v && clear_of(
            env,
            d,
            op,
            ok,
            at + env.payload_offset(ety),
            v.unwrap().len() as int,
        )
}

/// An error union that is made with a value holds its bytes, and a tag that is zero.
#[verifier::spinoff_prover]
#[verifier::rlimit(40)]
pub proof fn ok_is_made(env: Env, s: LowState, home: i32, op: Operand, ety: TypeId, c: Cpu) -> (d:
    Cpu)
    requires
        c.wf(),
        s.err is None,
        payload_of_union(env, s, c, home, op, ety),
    ensures
        takes(s, env.build_make_ok(s, home, op, ety), c, d),
        env.build_make_ok(s, home, op, ety).err is None,
        fetch(d.mem, c.reg(5) + home, 2) == 0,
        ({
            let v = field_bytes(env, s.ro, c, op, env.error_union_ok(ety)).unwrap();
            let off = env.payload_offset(ety);
            &&& bytes_at(d.mem, c.reg(5) + home + off, v.len()) =~= v
            &&& same_outside(c.mem, d.mem, c.reg(5) + home, off + v.len())
        }),
        kept_but(c, d, scratch()),
{
    let ok = env.error_union_ok(ety);
    let v = field_bytes(env, s.ro, c, op, ok).unwrap();
    let off = env.payload_offset(ety);
    let at = c.reg(5) + home;
    takes_nothing(s, c);
    let t1 = tag_stored(s, home, 0);
    let c1 = tag_store_runs(s, s, home, 0, c, c);
    frame_stays(c, c1);
    assert(field_bytes(env, s.ro, c1, op, ok) == Some(v));
    let cell = sum32(home, off);
    let t2 = env.store_field_operand(t1, cell, op, ok);
    let d = field_is_stored(env, t1, cell, op, ok, c1);
    takes_compose(s, t1, t2, c, c1, d);
    keeping_follows(c, c1, d);
    assert(env.build_make_ok(s, home, op, ety) == t2) by {
        reveal(Env::build_make_ok);
    }
    let m = c.mem;
    let m1 = c1.mem;
    let k = d.mem;
    assert forall|i: int| 0 <= i < 2 implies #[trigger] k(at + i) == m1(at + i) by {}
    crate::machine::fetch_same(k, at, m1, at, 2);
    assert forall|i: int| 0 <= i < v.len() implies #[trigger] k(at + off + i) == v[i] by {}
    assert forall|x: int| !(at <= x < at + off + v.len()) implies #[trigger] k(x) == m(x) by {
        assert(m1(x) == m(x));
    }
    d
}

/// Code that makes an error union, and the code that takes its discriminant: the destination
/// reads one where it was made as an error, and zero where it was made with a value.
#[verifier::spinoff_prover]
#[verifier::rlimit(40)]
pub proof fn error_union_tells_how_it_was_made(
    env: Env,
    s: LowState,
    l: LocalId,
    home: i32,
    make: Rvalue,
    p: Place,
    dst: LocalId,
    c: Cpu,
) -> (d: Cpu)
    requires
        c.wf(),
        s.err is None,
        whole(env, p, l, home),
        env.is_error_union(env.local_ty(l)),
        0 <= c.reg(5) + home,
        in_space(c.reg(5) + home, 2),
        make matches Rvalue::MakeErr(tag, _) && tag.0 != 0 || (make matches Rvalue::MakeOk(op, t)
            && t == env.local_ty(l) && payload_of_union(env, s, c, home, op, t)),
        can_tell(env, c, dst),
    ensures
        ({
            let t = env.lower_aggregate_rvalue(s, l, make, env.local_ty(l));
            let u = env.lower_discriminant(t, dst, Operand::Copy(p), DiscrKind::ErrorUnion);
            takes(s, u, c, d) && u.err is None
        }),
        local_word(env, d, dst) == Some(truth_word(make is MakeErr)),
{
    let ety = env.local_ty(l);
    let t = env.lower_aggregate_rvalue(s, l, make, ety);
    let at = c.reg(5) + home;
    let c1: Cpu = match make {
        Rvalue::MakeOk(op, _) => {
            assert(t == env.build_make_ok(s, home, op, ety)) by {
                reveal(Env::lower_aggregate_rvalue);
            }
            ok_is_made(env, s, home, op, ety, c)
        },
        Rvalue::MakeErr(tag, _) => {
            assert(t == env.build_make_err(s, home, tag.0)) by {
                reveal(Env::lower_aggregate_rvalue);
            }
            err_is_made(env, s, home, tag.0, c)
        },
        _ => c,
    };
    frame_stays(c, c1);
    assert(address_of(env, c1, p, 0) == Some(at as u64)) by {
        assert(wrap64(at) == at);
    }
    tell_stays(env, c, c1, dst);
    assert(env.place_type(p) == ety);
    let u = env.lower_discriminant(t, dst, Operand::Copy(p), DiscrKind::ErrorUnion);
    assert(u == env.lower_discr_error_union(t, dst, Operand::Copy(p))) by {
        reveal(Env::lower_discriminant);
    }
    let d = tag_tells(env, t, dst, Operand::Copy(p), c1);
    takes_compose(s, t, u, c, c1, d);
    d
}

} // verus!
