//! What lowered code leaves where it builds an aggregate: the values of its fields.
use vstd::prelude::*;

use crate::lower::packed_effects::{
    field_of, masks_are_bits, other_fields_stay, placed, placed_runs, with_field,
    written_field_reads,
};
use crate::bytes::wrap64;
use crate::intern::Pool;
use crate::layout::{
    alignment_facts, fields_do_not_overlap, fields_end, fields_of, is_pow2, offsets_fit, stride,
    up_facts,
};
use crate::lower::agg::{SliceConst, end_after, start_behind};
use crate::lower::arith_effects::local_word;
use crate::lower::effects::{
    low_bits, normalizing_wraps, scalar_width, store_writes, takes, takes_nothing,
};
use crate::lower::env::{Env, LowState};
use crate::lower::follow::{
    follow_lea_rbp, follow_mov_load_mem, follow_mov_ri, follow_mov_ri_data, follow_mov_store,
    follow_mov_store16_mem, follow_mov_store32_mem, follow_mov_store8_mem, follow_mov_store_mem,
    follow_or_rr,
};
use crate::lower::mem_effects::{copy_copies, copy_scratch, fetched_is_word, kept_but};
use crate::lower::operand_effects::{addressable, scalar_loads, scalar_word};
use crate::lower::place_effects::{address_is_right, address_of, general_address, led};
use crate::lower::scalar::{mask_of, sum32, wide_hi, wide_lo};
use crate::lower::simulation::takes_compose;
use crate::lower::wide_effects::{keeping_follows, same_outside, scratch};
use crate::machine::{Bytes, Cpu, byte_at, bytes_of_fetched, fetch, fetch_same, in_space, patch};
use crate::mir::{AggKind, Const, Operand, PackedField};
use crate::reg::{Gpr, gpr_codes_distinct};
use crate::steps::index;
use crate::types::TypeId;

verus! {

/// The low `n` bytes of a number, the lowest first.
pub open spec fn bytes_of(v: int, n: nat) -> Seq<u8> {
    Seq::new(n, |k: int| byte_at(v, k))
}

/// The `n` bytes at an address.
pub open spec fn bytes_at(m: Bytes, a: int, n: nat) -> Seq<u8> {
    Seq::new(n, |k: int| m(a + k))
}

/// A word brought to the width of a type.
pub open spec fn brought(env: Env, x: u64, ty: TypeId) -> u64 {
    let r = env.repr_of(ty);
    if 1 <= r.width < 64 {
        wrap64(low_bits(x as int, r.width as nat, r.signed))
    } else {
        x
    }
}

/// Where the bytes of a field are copied from, where they are.
pub open spec fn field_source(env: Env, c: Cpu, op: Operand, fty: TypeId) -> Option<u64> {
    match op {
        Operand::Copy(p) => if env.in_memory(fty) || (!env.is_float(fty) && env.is_wide_int(fty)) {
            address_of(env, c, p, p.proj@.len() as usize)
        } else {
            None
        },
        Operand::Const(_) => None,
    }
}

/// The bytes that a field gets from its operand: those of the place it is copied from, the
/// pointer and the length of a string, the two words of a wide constant, or the word of a
/// scalar at the width of its type. The data of a string goes to `ro`. Nothing is said of
/// floats.
pub open spec fn field_bytes(
    env: Env,
    ro: Pool,
    c: Cpu,
    op: Operand,
    fty: TypeId,
) -> Option<Seq<u8>> {
    if env.in_memory(fty) {
        match op {
            Operand::Copy(_) => match field_source(env, c, op, fty) {
                Some(a) => if in_space(a as int, env.layout(fty).size as nat) {
                    Some(bytes_at(c.mem, a as int, env.layout(fty).size as nat))
                } else {
                    None
                },
                None => None,
            },
            Operand::Const(_) => match env.slice_const(op) {
                SliceConst::Bytes(id) => Some(
                    bytes_of(wrap64(c.data + ro.offset_of(env.const_bytes(id))) as int, 8)
                        + bytes_of(wrap64(env.const_bytes(id).len() as i64 as int) as int, 8),
                ),
                SliceConst::Empty => Some(bytes_of(0, 8) + bytes_of(0, 8)),
                SliceConst::No => None,
            },
        }
    } else if env.is_float(fty) {
        None
    } else if env.is_wide_int(fty) {
        match op {
            Operand::Copy(_) => match field_source(env, c, op, fty) {
                Some(a) => if in_space(a as int, 16) {
                    Some(bytes_at(c.mem, a as int, 16))
                } else {
                    None
                },
                None => None,
            },
            Operand::Const(k) => match k {
                Const::Int { value, .. } => Some(
                    bytes_of(wrap64(wide_lo(value) as int) as int, 8) + bytes_of(
                        wrap64(wide_hi(value) as int) as int,
                        8,
                    ),
                ),
                _ => None,
            },
        }
    } else {
        match scalar_word(env, c, op) {
            Some(x) => Some(bytes_of(brought(env, x, fty) as int, scalar_width(env, fty))),
            None => None,
        }
    }
}

/// Whether `k` is `m` with the bytes `v` at `a`.
pub open spec fn written(m: Bytes, k: Bytes, a: int, v: Seq<u8>) -> bool {
    forall|x: int| #[trigger]
        k(x) == if a <= x < a + v.len() {
            v[x - a]
        } else {
            m(x)
        }
}

// ---------------------------------------------------------------------------
//  One field
// ---------------------------------------------------------------------------

proof fn data_goes_along(s: LowState, t: LowState, b: Seq<u8>, c: Cpu, d: Cpu)
    requires
        takes(s, t, c, d),
    ensures
        takes(s, t.with_data(b), c, d),
{
    reveal(takes);
}

proof fn two_words_written(m: Bytes, m1: Bytes, m2: Bytes, a: int, v: int, w: int)
    requires
        m1 == patch(m, a, 8, v),
        m2 == patch(m1, a + 8, 8, w),
    ensures
        written(m, m2, a, bytes_of(v, 8) + bytes_of(w, 8)),
{
}

/// Whether a register change is one of the scratch registers alone.
proof fn put_keeps(c: Cpu, d: Cpu, r: Gpr, v: int, e: Cpu)
    requires
        c.wf(),
        kept_but(c, d, scratch()),
        scratch().contains(r),
        e == d.put(index(r), v),
    ensures
        kept_but(c, e, scratch()),
{
    assert forall|q: Gpr| !scratch().contains(q) implies #[trigger] e.reg(index(q)) == c.reg(
        index(q),
    ) by {
        gpr_codes_distinct(q, r);
        assert(d.reg(index(q)) == c.reg(index(q)));
    }
}

proof fn mem_keeps(c: Cpu, d: Cpu, m: Bytes)
    requires
        kept_but(c, d, scratch()),
    ensures
        kept_but(c, d.with_mem(m), scratch()),
{
    assert forall|q: Gpr| !scratch().contains(q) implies #[trigger] d.with_mem(m).reg(index(q))
        == c.reg(index(q)) by {
        assert(d.reg(index(q)) == c.reg(index(q)));
    }
}

#[verifier::spinoff_prover]
proof fn words_are_stored(
    s: LowState,
    t: LowState,
    at: i32,
    v: i64,
    w: i64,
    c: Cpu,
    d: Cpu,
) -> (e: Cpu)
    requires
        takes(s, t, c, d),
        d.wf(),
        at + 8 <= i32::MAX,
        in_space(d.reg(5) + at, 16),
    ensures
        ({
            let t1 = t.on(t.text.mov_ri(Gpr::Rax, v));
            let t2 = t1.on(t1.text.mov_store(at, Gpr::Rax));
            let t3 = t2.on(t2.text.mov_ri(Gpr::Rax, w));
            takes(s, t3.on(t3.text.mov_store(sum32(at, 8), Gpr::Rax)), c, e)
        }),
        written(
            d.mem,
            e.mem,
            d.reg(5) + at,
            bytes_of(wrap64(v as int) as int, 8) + bytes_of(wrap64(w as int) as int, 8),
        ),
        kept_but(d, e, scratch()),
{
    assert(index(Gpr::Rax) == 0 && index(Gpr::Rbp) == 5);
    let a = d.reg(5) + at;
    let t1 = t.on(t.text.mov_ri(Gpr::Rax, v));
    let d1 = follow_mov_ri(s, t, Gpr::Rax, v, c, d);
    put_keeps(d, d, Gpr::Rax, wrap64(v as int) as int, d1);
    let t2 = t1.on(t1.text.mov_store(at, Gpr::Rax));
    let d2 = follow_mov_store(s, t1, at, Gpr::Rax, c, d1);
    mem_keeps(d, d1, d2.mem);
    let t3 = t2.on(t2.text.mov_ri(Gpr::Rax, w));
    let d3 = follow_mov_ri(s, t2, Gpr::Rax, w, c, d2);
    put_keeps(d, d2, Gpr::Rax, wrap64(w as int) as int, d3);
    let e = follow_mov_store(s, t3, sum32(at, 8), Gpr::Rax, c, d3);
    mem_keeps(d, d3, e.mem);
    two_words_written(
        d.mem,
        d2.mem,
        e.mem,
        a,
        wrap64(v as int) as int,
        wrap64(w as int) as int,
    );
    e
}

#[verifier::spinoff_prover]
proof fn slice_is_stored(
    env: Env,
    s: LowState,
    at: i32,
    op: Operand,
    c: Cpu,
) -> (d: Cpu)
    requires
        c.wf(),
        at + 8 <= i32::MAX,
        in_space(c.reg(5) + at, 16),
        env.slice_const(op) is Bytes,
    ensures
        ({
            let id = env.slice_const(op)->Bytes_0;
            &&& takes(s, env.slice_words(s, Gpr::Rbp, at, id), c, d)
            &&& env.slice_words(s, Gpr::Rbp, at, id).err == s.err
            &&& written(
                c.mem,
                d.mem,
                c.reg(5) + at,
                bytes_of(wrap64(c.data + s.ro.offset_of(env.const_bytes(id))) as int, 8)
                    + bytes_of(wrap64(env.const_bytes(id).len() as i64 as int) as int, 8),
            )
        }),
        kept_but(c, d, scratch()),
{
    reveal(Env::slice_words);
    assert(index(Gpr::Rax) == 0 && index(Gpr::Rbp) == 5);
    takes_nothing(s, c);
    let id = env.slice_const(op)->Bytes_0;
    let b = env.const_bytes(id);
    let off = s.ro.offset_of(b);
    let n = b.len() as i64;
    let a = c.reg(5) + at;
    data_goes_along(s, s, b, c, c);
    let t = s.with_data(b);
    let t1 = t.on(t.text.mov_ri_data(Gpr::Rax, off));
    let d1 = follow_mov_ri_data(s, t, Gpr::Rax, off, c, c);
    put_keeps(c, c, Gpr::Rax, c.data + off, d1);
    let t2 = t1.on(t1.text.mov_store_mem(Gpr::Rbp, at, Gpr::Rax));
    let d2 = follow_mov_store_mem(s, t1, Gpr::Rbp, at, Gpr::Rax, c, d1);
    mem_keeps(c, d1, d2.mem);
    let t3 = t2.on(t2.text.mov_ri(Gpr::Rax, n));
    let d3 = follow_mov_ri(s, t2, Gpr::Rax, n, c, d2);
    put_keeps(c, d2, Gpr::Rax, wrap64(n as int) as int, d3);
    let d = follow_mov_store_mem(s, t3, Gpr::Rbp, sum32(at, 8), Gpr::Rax, c, d3);
    mem_keeps(c, d3, d.mem);
    two_words_written(
        c.mem,
        d2.mem,
        d.mem,
        a,
        wrap64(c.data + off) as int,
        wrap64(n as int) as int,
    );
    d
}

#[verifier::spinoff_prover]
proof fn empty_slice_is_stored(env: Env, s: LowState, at: i32, c: Cpu) -> (d: Cpu)
    requires
        c.wf(),
        at + 8 <= i32::MAX,
        in_space(c.reg(5) + at, 16),
    ensures
        takes(s, env.empty_slice_words(s, Gpr::Rbp, at), c, d),
        env.empty_slice_words(s, Gpr::Rbp, at).err == s.err,
        written(c.mem, d.mem, c.reg(5) + at, bytes_of(0, 8) + bytes_of(0, 8)),
        kept_but(c, d, scratch()),
{
    reveal(Env::empty_slice_words);
    assert(index(Gpr::Rax) == 0 && index(Gpr::Rbp) == 5);
    takes_nothing(s, c);
    let a = c.reg(5) + at;
    let t1 = s.on(s.text.mov_ri(Gpr::Rax, 0));
    let d1 = follow_mov_ri(s, s, Gpr::Rax, 0, c, c);
    put_keeps(c, c, Gpr::Rax, wrap64(0) as int, d1);
    let t2 = t1.on(t1.text.mov_store_mem(Gpr::Rbp, at, Gpr::Rax));
    let d2 = follow_mov_store_mem(s, t1, Gpr::Rbp, at, Gpr::Rax, c, d1);
    mem_keeps(c, d1, d2.mem);
    let t3 = t2.on(t2.text.mov_ri(Gpr::Rax, 0));
    let d3 = follow_mov_ri(s, t2, Gpr::Rax, 0, c, d2);
    put_keeps(c, d2, Gpr::Rax, wrap64(0) as int, d3);
    let d = follow_mov_store_mem(s, t3, Gpr::Rbp, sum32(at, 8), Gpr::Rax, c, d3);
    mem_keeps(c, d3, d.mem);
    two_words_written(c.mem, d2.mem, d.mem, a, 0, 0);
    d
}

/// Whether the bytes that a field is copied from have none in common with it.
pub open spec fn clear_of(env: Env, c: Cpu, op: Operand, fty: TypeId, at: int, n: int) -> bool {
    field_source(env, c, op, fty) matches Some(a) ==> {
        let size: int = if env.in_memory(fty) {
            env.layout(fty).size as int
        } else {
            16
        };
        a + size <= at || at + n <= a
    }
}

proof fn address_goes_to_rax(env: Env, s: LowState, op: Operand, c: Cpu) -> (d: Cpu)
    requires
        c.wf(),
        s.err is None,
        op is Copy,
        addressable(env, op),
        address_of(env, c, op->Copy_0, op->Copy_0.proj@.len() as usize) is Some,
    ensures
        ({
            let p = op->Copy_0;
            let t = env.place_addr_general(s, p, p.proj@.len() as usize, Gpr::Rax);
            &&& takes(s, t, c, d)
            &&& t.err is None
            &&& Some(d.reg(0)) == address_of(env, c, p, p.proj@.len() as usize)
        }),
        kept_but(c, d, scratch()),
        d.mem == c.mem,
        d.reg(5) == c.reg(5),
{
    let p = op->Copy_0;
    let n = p.proj@.len() as usize;
    assert(index(Gpr::Rax) == 0 && index(Gpr::Rbp) == 5);
    general_address(env, s, p, n, Gpr::Rax, c);
    let d = address_is_right(env, s, p, n, Gpr::Rax, c);
    assert forall|q: Gpr| !scratch().contains(q) implies #[trigger] d.reg(index(q)) == c.reg(
        index(q),
    ) by {
        gpr_codes_distinct(q, Gpr::Rax);
        gpr_codes_distinct(q, Gpr::R10);
    }
    assert(!scratch().contains(Gpr::Rbp));
    assert(d.reg(index(Gpr::Rbp)) == c.reg(index(Gpr::Rbp)));
    d
}

#[verifier::spinoff_prover]
proof fn block_is_copied(
    env: Env,
    s: LowState,
    at: i32,
    op: Operand,
    fty: TypeId,
    c: Cpu,
) -> (d: Cpu)
    requires
        c.wf(),
        s.err is None,
        op is Copy,
        env.in_memory(fty),
        addressable(env, op),
        field_bytes(env, s.ro, c, op, fty) is Some,
        env.layout(fty).size <= i64::MAX,
        in_space(c.reg(5) + at, env.layout(fty).size as nat),
        clear_of(env, c, op, fty, c.reg(5) + at, env.layout(fty).size as int),
    ensures
        takes(s, env.store_field_operand(s, at, op, fty), c, d),
        env.store_field_operand(s, at, op, fty).err is None,
        written(c.mem, d.mem, c.reg(5) + at, field_bytes(env, s.ro, c, op, fty).unwrap()),
        kept_but(c, d, scratch()),
{
    reveal(Env::store_field_operand);
    let p = op->Copy_0;
    let size = env.layout(fty).size;
    assert(index(Gpr::Rax) == 0 && index(Gpr::R11) == 11 && index(Gpr::Rbp) == 5);
    let t = env.place_addr_general(s, p, p.proj@.len() as usize, Gpr::Rax);
    let c1 = address_goes_to_rax(env, s, op, c);
    let t1 = t.on(t.text.lea_rbp(Gpr::R11, at));
    let c2 = follow_lea_rbp(s, t, Gpr::R11, at, c, c1);
    put_keeps(c, c1, Gpr::R11, c1.reg(5) + at, c2);
    let u = env.memcpy(t1, Gpr::R11, Gpr::Rax, size);
    let d = copy_copies(env, t1, Gpr::R11, Gpr::Rax, size, c2);
    takes_compose(s, t1, u, c, c2, d);
    assert(kept_but(c2, d, scratch())) by {
        assert forall|q: Gpr| !scratch().contains(q) implies #[trigger] d.reg(index(q)) == c2.reg(
            index(q),
        ) by {
            assert(!copy_scratch(size).contains(q));
        }
    }
    keeping_follows(c, c2, d);
    assert(u.err is None) by {
        copying_goes_on(env, t1, Gpr::R11, Gpr::Rax, size);
    }
    d
}

proof fn words_go_on(env: Env, s: LowState, dst: Gpr, src: Gpr, off: i32, n: i32)
    ensures
        env.copy_words(s, dst, src, off, n).err == s.err,
    decreases n,
{
    reveal_with_fuel(Env::copy_words, 2);
    if n >= 8 {
        let s1 = s.on(s.text.mov_load_mem(Gpr::Rdx, src, off));
        let s2 = s1.on(s1.text.mov_store_mem(dst, off, Gpr::Rdx));
        words_go_on(env, s2, dst, src, sum32(off, 8), (n - 8) as i32);
    }
}

pub(crate) proof fn copying_goes_on(env: Env, s: LowState, dst: Gpr, src: Gpr, size: u64)
    ensures
        env.memcpy(s, dst, src, size).err == s.err,
{
    reveal(Env::memcpy);
    reveal(Env::copy_tail);
    words_go_on(env, s, dst, src, 0, size as i32);
}

#[verifier::spinoff_prover]
#[verifier::rlimit(40)]
proof fn two_words_are_copied(
    env: Env,
    s: LowState,
    at: i32,
    op: Operand,
    fty: TypeId,
    c: Cpu,
) -> (d: Cpu)
    requires
        c.wf(),
        s.err is None,
        op is Copy,
        !env.in_memory(fty),
        !env.is_float(fty),
        env.is_wide_int(fty),
        addressable(env, op),
        field_bytes(env, s.ro, c, op, fty) is Some,
        at + 8 <= i32::MAX,
        in_space(c.reg(5) + at, 16),
        clear_of(env, c, op, fty, c.reg(5) + at, 16),
    ensures
        takes(s, env.store_field_operand(s, at, op, fty), c, d),
        env.store_field_operand(s, at, op, fty).err is None,
        written(c.mem, d.mem, c.reg(5) + at, field_bytes(env, s.ro, c, op, fty).unwrap()),
        kept_but(c, d, scratch()),
{
    reveal(Env::store_field_operand);
    reveal(Env::store_wide_int);
    let p = op->Copy_0;
    let to = c.reg(5) + at;
    assert(index(Gpr::Rax) == 0 && index(Gpr::Rcx) == 1 && index(Gpr::Rbp) == 5);
    let t = env.place_addr_general(s, p, p.proj@.len() as usize, Gpr::Rax);
    let c1 = address_goes_to_rax(env, s, op, c);
    let a = c1.reg(0) as int;
    let t1 = t.on(t.text.mov_load_mem(Gpr::Rcx, Gpr::Rax, 0));
    let d1 = follow_mov_load_mem(s, t, Gpr::Rcx, Gpr::Rax, 0, c, c1);
    let x = fetch(c.mem, a, 8);
    fetched_is_word(c.mem, a, 8);
    put_keeps(c, c1, Gpr::Rcx, x, d1);
    let t2 = t1.on(t1.text.mov_store(at, Gpr::Rcx));
    let d2 = follow_mov_store(s, t1, at, Gpr::Rcx, c, d1);
    mem_keeps(c, d1, d2.mem);
    let t3 = t2.on(t2.text.mov_load_mem(Gpr::Rcx, Gpr::Rax, 8));
    let d3 = follow_mov_load_mem(s, t2, Gpr::Rcx, Gpr::Rax, 8, c, d2);
    let y = fetch(d2.mem, a + 8, 8);
    fetched_is_word(d2.mem, a + 8, 8);
    put_keeps(c, d2, Gpr::Rcx, y, d3);
    let d = follow_mov_store(s, t3, sum32(at, 8), Gpr::Rcx, c, d3);
    mem_keeps(c, d3, d.mem);
    let m = c.mem;
    let m2 = d2.mem;
    let k = d.mem;
    assert forall|z: int| #[trigger]
        k(z) == if to <= z < to + 16 {
            bytes_at(m, a, 16)[z - to]
        } else {
            m(z)
        } by {
        if to <= z < to + 8 {
            bytes_of_fetched(c.mem, a, 8, z - to);
        } else if to + 8 <= z < to + 16 {
            bytes_of_fetched(d2.mem, a + 8, 8, z - to - 8);
            assert(m2(a + 8 + (z - to - 8)) == m(a + (z - to)));
        }
    }
    d
}

#[verifier::spinoff_prover]
#[verifier::rlimit(40)]
proof fn scalar_is_stored(
    env: Env,
    s: LowState,
    at: i32,
    op: Operand,
    fty: TypeId,
    c: Cpu,
) -> (d: Cpu)
    requires
        c.wf(),
        s.err is None,
        !env.in_memory(fty),
        !env.is_float(fty),
        !env.is_wide_int(fty),
        addressable(env, op),
        field_bytes(env, s.ro, c, op, fty) is Some,
        in_space(c.reg(5) + at, scalar_width(env, fty)),
    ensures
        takes(s, env.store_field_operand(s, at, op, fty), c, d),
        env.store_field_operand(s, at, op, fty).err is None,
        written(c.mem, d.mem, c.reg(5) + at, field_bytes(env, s.ro, c, op, fty).unwrap()),
        kept_but(c, d, scratch()),
{
    reveal(Env::store_field_operand);
    assert(index(Gpr::Rax) == 0 && index(Gpr::Rcx) == 1 && index(Gpr::Rbp) == 5);
    let t = env.operand_to(s, op, Gpr::Rax);
    let c1 = scalar_loads(env, s, op, Gpr::Rax, c);
    let t1 = env.normalize(t, Gpr::Rax, fty);
    let c2 = normalizing_wraps(env, s, t, Gpr::Rax, fty, c, c1);
    assert(t1.err == t.err) by {
        reveal(Env::normalize);
        reveal(Env::normalize_signed_other);
        reveal(Env::normalize_unsigned_other);
    }
    assert(kept_but(c, c2, scratch())) by {
        assert forall|q: Gpr| !scratch().contains(q) implies #[trigger] c2.reg(index(q)) == c.reg(
            index(q),
        ) by {
            gpr_codes_distinct(q, Gpr::Rax);
            gpr_codes_distinct(q, Gpr::Rcx);
            assert(!set![Gpr::Rax, Gpr::R10, Gpr::R11].contains(q));
            assert(c1.reg(index(q)) == c.reg(index(q)));
        }
    }
    assert(c2.reg(5) == c.reg(5)) by {
        assert(!scratch().contains(Gpr::Rbp));
        assert(c2.reg(index(Gpr::Rbp)) == c.reg(index(Gpr::Rbp)));
    }
    let d = store_writes(env, s, t1, Gpr::Rbp, at, Gpr::Rax, fty, c, c2);
    mem_keeps(c, c2, d.mem);
    d
}

/// An operand stored as a field leaves its bytes there, and changes no others, where it is
/// not copied from there.
#[verifier::spinoff_prover]
pub proof fn field_is_stored(
    env: Env,
    s: LowState,
    at: i32,
    op: Operand,
    fty: TypeId,
    c: Cpu,
) -> (d: Cpu)
    requires
        c.wf(),
        s.err is None,
        addressable(env, op),
        field_bytes(env, s.ro, c, op, fty) is Some,
        at + 8 <= i32::MAX,
        env.layout(fty).size <= i64::MAX,
        in_space(c.reg(5) + at, field_bytes(env, s.ro, c, op, fty).unwrap().len()),
        clear_of(
            env,
            c,
            op,
            fty,
            c.reg(5) + at,
            field_bytes(env, s.ro, c, op, fty).unwrap().len() as int,
        ),
    ensures
        takes(s, env.store_field_operand(s, at, op, fty), c, d),
        env.store_field_operand(s, at, op, fty).err is None,
        written(c.mem, d.mem, c.reg(5) + at, field_bytes(env, s.ro, c, op, fty).unwrap()),
        kept_but(c, d, scratch()),
{
    takes_nothing(s, c);
    if env.in_memory(fty) {
        match op {
            Operand::Copy(_) => block_is_copied(env, s, at, op, fty, c),
            Operand::Const(_) => {
                reveal(Env::store_field_operand);
                match env.slice_const(op) {
                    SliceConst::Bytes(_) => slice_is_stored(env, s, at, op, c),
                    _ => empty_slice_is_stored(env, s, at, c),
                }
            },
        }
    } else if env.is_wide_int(fty) {
        match op {
            Operand::Copy(_) => two_words_are_copied(env, s, at, op, fty, c),
            Operand::Const(k) => {
                reveal(Env::store_field_operand);
                reveal(Env::store_wide_int);
                let value = k->Int_value;
                words_are_stored(s, s, at, wide_lo(value), wide_hi(value), c, c)
            },
        }
    } else {
        scalar_is_stored(env, s, at, op, fty, c)
    }
}

// ---------------------------------------------------------------------------
//  All fields
// ---------------------------------------------------------------------------

/// An aggregate that is built: where, of what kind, from which fields, of which type.
pub struct Built {
    pub home: i32,
    pub kind: AggKind,
    pub fields: Seq<Operand>,
    pub ty: TypeId,
}

impl Built {
    /// Whether its type has no layout.
    pub open spec fn loose(self, env: Env) -> bool {
        env.layout_opt(self.ty) is None
    }

    /// The type of a field.
    pub open spec fn field_ty(self, env: Env, j: int) -> TypeId {
        if self.loose(env) {
            env.loose_field_type(self.kind, self.fields[j], self.ty)
        } else {
            env.agg_field_type(self.kind, j as usize, self.ty)
        }
    }

    /// Where the first `j` fields end, where the type has no layout.
    pub open spec fn end(self, env: Env, j: int) -> u64
        decreases j,
    {
        if j <= 0 {
            0
        } else {
            end_after(self.end(env, j - 1), env.layout(self.field_ty(env, j - 1)))
        }
    }

    /// The offset of a field: that of its type, or behind the fields before it.
    pub open spec fn off(self, env: Env, j: int) -> u64 {
        if self.loose(env) {
            start_behind(self.end(env, j), env.layout(self.field_ty(env, j)))
        } else {
            env.agg_offset(self.kind, self.fields.len() as usize, self.ty, j as usize)
        }
    }

    /// The code of the fields from the `i`-th on.
    pub open spec fn rest(self, env: Env, t: LowState, i: int) -> LowState {
        if self.loose(env) {
            env.loose_fields_from(
                t,
                self.home,
                self.kind,
                self.fields,
                self.ty,
                i,
                self.end(env, i),
            )
        } else {
            env.fields_from(t, self.home, self.kind, self.fields, self.ty, i)
        }
    }

    /// The code before the `j`-th field.
    pub open spec fn before(self, env: Env, s: LowState, j: int) -> LowState
        decreases j,
    {
        if j <= 0 {
            s
        } else {
            env.store_field_operand(
                self.before(env, s, j - 1),
                sum32(self.home, self.off(env, j - 1) as i32),
                self.fields[j - 1],
                self.field_ty(env, j - 1),
            )
        }
    }

    /// The bytes that the `j`-th field gets from its operand.
    pub open spec fn value(self, env: Env, s: LowState, c: Cpu, j: int) -> Option<Seq<u8>> {
        field_bytes(
            env,
            self.before(env, s, j).ro,
            c,
            self.fields[j],
            self.field_ty(env, j),
        )
    }

    /// Whether the bytes of the `j`-th field are those of its operand, as far as the field
    /// reaches.
    pub open spec fn holds(self, env: Env, s: LowState, c: Cpu, m: Bytes, j: int) -> bool {
        let v = self.value(env, s, c, j).unwrap();
        forall|k: int|
            0 <= k < v.len() && k < env.layout(self.field_ty(env, j)).size ==> #[trigger] m(
                c.reg(5) + self.home + self.off(env, j) + k,
            ) == v[k]
    }

    /// Whether the `j`-th field can be stored within `room` bytes: its operand has a value
    /// there is something to say of, which stays the same and elsewhere while the room is
    /// written.
    pub open spec fn storable(self, env: Env, s: LowState, c: Cpu, room: int, j: int) -> bool {
        let op = self.fields[j];
        let fty = self.field_ty(env, j);
        let at = c.reg(5) + self.home;
        &&& addressable(env, op)
        &&& env.layout(fty).size <= i64::MAX
        &&& self.value(env, s, c, j) matches Some(v) && self.off(env, j) + v.len() <= room
        &&& self.off(env, j) <= i32::MAX
        &&& self.home + self.off(env, j) + 8 <= i32::MAX
        &&& clear_of(env, c, op, fty, at, room)
        &&& forall|d: Cpu|
            kept_but(c, d, scratch()) && same_outside(c.mem, d.mem, at, room)
                ==> #[trigger] field_source(env, d, op, fty) == field_source(env, c, op, fty)
                && self.value(env, s, d, j) == self.value(env, s, c, j)
    }

    /// Whether the fields stand one behind the other.
    pub open spec fn in_order(self, env: Env) -> bool {
        forall|i: int, j: int|
            0 <= i < j < self.fields.len() ==> #[trigger] self.off(env, i) + env.layout(
                self.field_ty(env, i),
            ).size <= #[trigger] self.off(env, j)
    }
}

proof fn field_of_aggregate_is_stored(
    env: Env,
    b: Built,
    s: LowState,
    room: int,
    j: int,
    c: Cpu,
    d: Cpu,
) -> (e: Cpu)
    requires
        c.wf(),
        b.before(env, s, j).err is None,
        0 <= j < b.fields.len(),
        b.storable(env, s, c, room, j),
        in_space(c.reg(5) + b.home, room as nat),
        room >= 0,
        kept_but(c, d, scratch()),
        same_outside(c.mem, d.mem, c.reg(5) + b.home, room),
    ensures
        takes(b.before(env, s, j), b.before(env, s, j + 1), d, e),
        b.before(env, s, j + 1).err is None,
        written(
            d.mem,
            e.mem,
            c.reg(5) + b.home + b.off(env, j),
            b.value(env, s, c, j).unwrap(),
        ),
        kept_but(c, e, scratch()),
        same_outside(c.mem, e.mem, c.reg(5) + b.home, room),
{
    let op = b.fields[j];
    let fty = b.field_ty(env, j);
    let off = b.off(env, j);
    let at = sum32(b.home, off as i32);
    let v = b.value(env, s, c, j).unwrap();
    assert(index(Gpr::Rbp) == 5);
    assert(d.reg(5) == c.reg(5)) by {
        assert(!scratch().contains(Gpr::Rbp));
        assert(d.reg(index(Gpr::Rbp)) == c.reg(index(Gpr::Rbp)));
    }
    assert(field_source(env, d, op, fty) == field_source(env, c, op, fty));
    assert(at == b.home + off);
    let e = field_is_stored(env, b.before(env, s, j), at, op, fty, d);
    keeping_follows(c, d, e);
    let m = c.mem;
    let k = d.mem;
    let l = e.mem;
    let base = c.reg(5) + b.home;
    assert forall|x: int| !(base <= x < base + room) implies #[trigger] l(x) == m(x) by {
        assert(k(x) == m(x));
    }
    e
}

#[verifier::spinoff_prover]
proof fn fields_are_stored(
    env: Env,
    b: Built,
    s: LowState,
    room: int,
    i: int,
    c: Cpu,
    d: Cpu,
) -> (e: Cpu)
    requires
        c.wf(),
        b.before(env, s, i).err is None,
        0 <= i <= b.fields.len() <= usize::MAX,
        forall|j: int| 0 <= j < b.fields.len() ==> #[trigger] b.storable(env, s, c, room, j),
        b.in_order(env),
        in_space(c.reg(5) + b.home, room as nat),
        room >= 0,
        kept_but(c, d, scratch()),
        same_outside(c.mem, d.mem, c.reg(5) + b.home, room),
    ensures
        ({
            let t = b.before(env, s, i);
            let u = b.rest(env, t, i);
            &&& takes(t, u, d, e)
            &&& u.err is None
        }),
        forall|j: int| i <= j < b.fields.len() ==> #[trigger] b.holds(env, s, c, e.mem, j),
        forall|h: int| 0 <= h < i && b.holds(env, s, c, d.mem, h) ==> #[trigger] b.holds(
            env,
            s,
            c,
            e.mem,
            h,
        ),
        kept_but(c, e, scratch()),
        same_outside(c.mem, e.mem, c.reg(5) + b.home, room),
    decreases b.fields.len() - i,
{
    let t = b.before(env, s, i);
    if i >= b.fields.len() {
        takes_nothing(t, d);
        d
    } else {
        let off = b.off(env, i);
        let t1 = b.before(env, s, i + 1);
        assert(b.storable(env, s, c, room, i));
        let d1 = field_of_aggregate_is_stored(env, b, s, room, i, c, d);
        let e = fields_are_stored(env, b, s, room, i + 1, c, d1);
        let u = b.rest(env, t1, i + 1);
        assert(b.rest(env, t, i) == u);
        takes_compose(t, t1, u, d, d1, e);
        assert(b.holds(env, s, c, d1.mem, i)) by {
            let m = d1.mem;
            let v = b.value(env, s, c, i).unwrap();
            assert forall|k: int|
                0 <= k < v.len() && k < env.layout(b.field_ty(env, i)).size implies #[trigger] m(
                c.reg(5) + b.home + off + k,
            ) == v[k] by {
                let x = c.reg(5) + b.home + off + k;
                assert(v[x - (c.reg(5) + b.home + off)] == v[k]);
            }
        }
        assert forall|h: int| 0 <= h < i && b.holds(env, s, c, d.mem, h) implies #[trigger] b.holds(
            env,
            s,
            c,
            e.mem,
            h,
        ) by {
            earlier_field_stays(env, b, s, c, d.mem, d1.mem, h, i);
            assert(b.holds(env, s, c, d1.mem, h));
        }
        assert forall|j: int| i <= j < b.fields.len() implies #[trigger] b.holds(
            env,
            s,
            c,
            e.mem,
            j,
        ) by {
            if j == i {
                assert(b.holds(env, s, c, d1.mem, i));
            }
        }
        e
    }
}

proof fn earlier_field_stays(
    env: Env,
    b: Built,
    s: LowState,
    c: Cpu,
    m: Bytes,
    k: Bytes,
    h: int,
    i: int,
)
    requires
        0 <= h < i < b.fields.len(),
        b.in_order(env),
        b.holds(env, s, c, m, h),
        written(m, k, c.reg(5) + b.home + b.off(env, i), b.value(env, s, c, i).unwrap()),
    ensures
        b.holds(env, s, c, k, h),
{
    let v = b.value(env, s, c, h).unwrap();
    assert(b.off(env, h) + env.layout(b.field_ty(env, h)).size <= b.off(env, i));
    assert forall|x: int|
        0 <= x < v.len() && x < env.layout(b.field_ty(env, h)).size implies #[trigger] k(
        c.reg(5) + b.home + b.off(env, h) + x,
    ) == v[x] by {
        assert(m(c.reg(5) + b.home + b.off(env, h) + x) == v[x]);
    }
}

/// An aggregate that is no packed struct holds in each of its fields the value of its operand;
/// no byte outside the room that it is given changes, nor any register but those that
/// expressions use.
pub proof fn aggregate_holds_its_fields(
    env: Env,
    b: Built,
    s: LowState,
    room: int,
    c: Cpu,
) -> (d: Cpu)
    requires
        c.wf(),
        s.err is None,
        !env.is_float_vector(b.ty),
        !(b.kind == AggKind::Struct && env.is_packed(b.ty)),
        b.fields.len() <= usize::MAX,
        forall|j: int| 0 <= j < b.fields.len() ==> #[trigger] b.storable(env, s, c, room, j),
        b.in_order(env),
        room >= 0,
        in_space(c.reg(5) + b.home, room as nat),
    ensures
        takes(s, env.build_aggregate(s, b.home, b.kind, b.fields, b.ty), c, d),
        env.build_aggregate(s, b.home, b.kind, b.fields, b.ty).err is None,
        forall|j: int| 0 <= j < b.fields.len() ==> #[trigger] b.holds(env, s, c, d.mem, j),
        same_outside(c.mem, d.mem, c.reg(5) + b.home, room),
        kept_but(c, d, scratch()),
{
    reveal(Env::build_aggregate);
    fields_are_stored(env, b, s, room, 0, c, c)
}

// ---------------------------------------------------------------------------
//  When the conditions hold
// ---------------------------------------------------------------------------

/// The fields of a struct stand one behind the other.
pub proof fn struct_fields_are_in_order(env: Env, b: Built)
    requires
        b.kind == AggKind::Struct,
        !b.loose(env),
        offsets_fit(env.prog.arena, b.ty),
        b.fields.len() <= fields_of(env.prog.arena, b.ty).len() <= usize::MAX,
    ensures
        b.in_order(env),
{
    let f = fields_of(env.prog.arena, b.ty);
    assert(fields_end(env.prog.arena, f.take(f.len() as int)) <= u64::MAX);
    assert(f.take(f.len() as int) =~= f);
    assert forall|i: int, j: int| 0 <= i < j < b.fields.len() implies #[trigger] b.off(env, i)
        + env.layout(b.field_ty(env, i)).size <= #[trigger] b.off(env, j) by {
        fields_do_not_overlap(env.prog.arena, f, i, j);
    }
}

/// The elements of an array stand one behind the other, where it fits the address space.
pub proof fn array_elements_are_in_order(env: Env, b: Built)
    requires
        b.kind == AggKind::Array,
        !b.loose(env),
        env.ty(b.ty) is Array,
        env.layout_opt(b.field_ty(env, 0)) is Some,
        b.fields.len() * stride(env.prog.arena, b.ty) <= u64::MAX,
        b.fields.len() <= usize::MAX,
    ensures
        b.in_order(env),
{
    let n = stride(env.prog.arena, b.ty);
    assert forall|i: int, j: int| 0 <= i < j < b.fields.len() implies #[trigger] b.off(env, i)
        + env.layout(b.field_ty(env, i)).size <= #[trigger] b.off(env, j) by {
        assert(0 <= i * n && i * n + n <= j * n && j * n <= b.fields.len() * n)
            by (nonlinear_arith)
            requires
                0 <= i < j < b.fields.len(),
                n >= 0,
        ;
        assert(b.field_ty(env, i) == b.field_ty(env, 0));
    }
}

proof fn ends_rise(env: Env, b: Built, i: int, j: int)
    requires
        0 <= i < j,
        b.loose(env),
        b.end(env, j) < u64::MAX,
    ensures
        b.off(env, i) + env.layout(b.field_ty(env, i)).size <= b.end(env, j),
        b.end(env, i) < u64::MAX,
    decreases j,
{
    let l = env.layout(b.field_ty(env, j - 1));
    alignment_facts(env.prog.arena, b.field_ty(env, j - 1), 0);
    reveal_with_fuel(is_pow2, 5);
    up_facts(b.end(env, j - 1) as int, l.align as int);
    if i < j - 1 {
        ends_rise(env, b, i, j - 1);
    }
}

/// The fields of an aggregate whose type has no layout stand one behind the other, where
/// they fit the address space.
pub proof fn loose_fields_are_in_order(env: Env, b: Built)
    requires
        b.loose(env),
        b.end(env, b.fields.len() as int) < u64::MAX,
    ensures
        b.in_order(env),
{
    assert forall|i: int, j: int| 0 <= i < j < b.fields.len() implies #[trigger] b.off(env, i)
        + env.layout(b.field_ty(env, i)).size <= #[trigger] b.off(env, j) by {
        let l = env.layout(b.field_ty(env, j));
        ends_rise(env, b, j, b.fields.len() as int);
        ends_rise(env, b, i, j);
        alignment_facts(env.prog.arena, b.field_ty(env, j), 0);
        reveal_with_fuel(is_pow2, 5);
        up_facts(b.end(env, j) as int, l.align as int);
    }
}

/// A constant stays what it is whatever is written.
pub proof fn constant_field_is_storable(
    env: Env,
    b: Built,
    s: LowState,
    c: Cpu,
    room: int,
    j: int,
)
    requires
        0 <= j < b.fields.len(),
        b.fields[j] is Const,
        b.value(env, s, c, j) matches Some(v) && b.off(env, j) + v.len() <= room,
        env.layout(b.field_ty(env, j)).size <= i64::MAX,
        b.off(env, j) <= i32::MAX,
        b.home + b.off(env, j) + 8 <= i32::MAX,
    ensures
        b.storable(env, s, c, room, j),
{
}

/// A scalar local in a register that expressions do not use stays what it is whatever is
/// written.
pub proof fn register_field_is_storable(
    env: Env,
    b: Built,
    s: LowState,
    c: Cpu,
    room: int,
    j: int,
)
    requires
        0 <= j < b.fields.len(),
        b.fields[j] matches Operand::Copy(p) && p.proj@.len() == 0 && (env.reg_of(
            p.base,
        ) matches Some(r) && !scratch().contains(r)),
        !env.in_memory(b.field_ty(env, j)),
        !env.is_wide_int(b.field_ty(env, j)),
        b.value(env, s, c, j) matches Some(v) && b.off(env, j) + v.len() <= room,
        env.layout(b.field_ty(env, j)).size <= i64::MAX,
        b.off(env, j) <= i32::MAX,
        b.home + b.off(env, j) + 8 <= i32::MAX,
    ensures
        b.storable(env, s, c, room, j),
{
    reveal(local_word);
    let op = b.fields[j];
    let fty = b.field_ty(env, j);
    let r = env.reg_of(op->Copy_0.base).unwrap();
    assert forall|d: Cpu|
        kept_but(c, d, scratch()) && same_outside(
            c.mem,
            d.mem,
            c.reg(5) + b.home,
            room,
        ) implies #[trigger] field_source(env, d, op, fty) == field_source(env, c, op, fty)
        && b.value(env, s, d, j) == b.value(env, s, c, j) by {
        assert(d.reg(index(r)) == c.reg(index(r)));
        assert(scalar_word(env, d, op) == scalar_word(env, c, op));
    }
}

/// A whole local whose home has no byte in common with the room stays what it is.
pub proof fn home_field_is_storable(
    env: Env,
    b: Built,
    s: LowState,
    c: Cpu,
    room: int,
    j: int,
)
    requires
        0 <= j < b.fields.len(),
        b.fields[j] matches Operand::Copy(p) && p.proj@.len() == 0 && env.reg_of(p.base) is None
            && (env.home(p.base) matches Some(h) && {
            let n: int = if env.in_memory(b.field_ty(env, j)) {
                env.layout(b.field_ty(env, j)).size as int
            } else {
                16
            };
            &&& 0 <= c.reg(5) + h <= u64::MAX
            &&& h + n <= b.home || b.home + room <= h
        }),
        b.value(env, s, c, j) matches Some(v) && b.off(env, j) + v.len() <= room,
        env.layout(b.field_ty(env, j)).size <= i64::MAX,
        b.off(env, j) <= i32::MAX,
        b.home + b.off(env, j) + 8 <= i32::MAX,
    ensures
        b.storable(env, s, c, room, j),
{
    reveal(local_word);
    let op = b.fields[j];
    let fty = b.field_ty(env, j);
    let p = op->Copy_0;
    let h = env.home(p.base).unwrap();
    let a = c.reg(5) + h;
    let base = c.reg(5) + b.home;
    assert(index(Gpr::Rbp) == 5);
    assert(!scratch().contains(Gpr::Rbp));
    assert(wrap64(a) == a);
    assert(led(env, c, p, 0, 0, wrap64(a)) == Some(wrap64(a)));
    assert forall|d: Cpu|
        kept_but(c, d, scratch()) && same_outside(
            c.mem,
            d.mem,
            base,
            room,
        ) implies #[trigger] field_source(env, d, op, fty) == field_source(env, c, op, fty)
        && b.value(env, s, d, j) == b.value(env, s, c, j) by {
        assert(d.reg(index(Gpr::Rbp)) == c.reg(index(Gpr::Rbp)));
        assert(led(env, d, p, 0, 0, wrap64(a)) == Some(wrap64(a)));
        let m = c.mem;
        let k = d.mem;
        let n: int = if env.in_memory(fty) {
            env.layout(fty).size as int
        } else {
            16
        };
        assert forall|x: int| a <= x < a + n implies #[trigger] k(x) == m(x) by {}
        assert(bytes_at(k, a, n as nat) =~= bytes_at(m, a, n as nat));
        if !env.in_memory(fty) {
            let w = scalar_width(env, env.local_ty(p.base));
            assert forall|i: int| 0 <= i < w implies #[trigger] k(a + i) == m(a + i) by {}
            fetch_same(k, a, m, a, w);
        }
    }
}

// ---------------------------------------------------------------------------
//  Packed structs
// ---------------------------------------------------------------------------

/// The first bit and the number of bits of a field of a packed struct; none where it has no
/// bits.
pub open spec fn bits_of(env: Env, ty: TypeId, j: int) -> Option<(u32, u32)> {
    match env.struct_field(ty, j as usize) {
        Some(f) => match (f.bit_offset, f.bit_width) {
            (Some(off), Some(width)) => if width != 0 {
                Some((off, width))
            } else {
                None
            },
            _ => None,
        },
        None => None,
    }
}

/// Whether a field of a packed struct has no bits, or bits of one word and an operand whose
/// word stays the same.
pub open spec fn packable(env: Env, c: Cpu, fields: Seq<Operand>, ty: TypeId, j: int) -> bool {
    bits_of(env, ty, j) matches Some(b) ==> {
        &&& b.0 + b.1 <= 64
        &&& addressable(env, fields[j])
        &&& scalar_word(env, c, fields[j]) is Some
        &&& forall|d: Cpu|
            kept_but(c, d, scratch()) && d.mem == c.mem ==> #[trigger] scalar_word(
                env,
                d,
                fields[j],
            ) == scalar_word(env, c, fields[j])
    }
}

/// Whether two fields of a packed struct have no bit in common.
pub open spec fn bits_apart(env: Env, ty: TypeId, i: int, j: int) -> bool {
    match (bits_of(env, ty, i), bits_of(env, ty, j)) {
        (Some(a), Some(b)) => a.0 + a.1 <= b.0 || b.0 + b.1 <= a.0,
        _ => true,
    }
}

/// Whether the bits of a field are the low bits of its operand, brought to its type.
pub open spec fn bits_hold(
    env: Env,
    c: Cpu,
    fields: Seq<Operand>,
    ty: TypeId,
    w: u64,
    j: int,
) -> bool {
    bits_of(env, ty, j) matches Some(b) ==> field_of(w, b.0, b.1) == brought(
        env,
        scalar_word(env, c, fields[j]).unwrap(),
        env.struct_field(ty, j as usize).unwrap().ty,
    ) & mask_of(b.1)
}

/// Whether the bits of a field are clear.
pub open spec fn bits_clear(env: Env, ty: TypeId, w: u64, j: int) -> bool {
    bits_of(env, ty, j) matches Some(b) ==> field_of(w, b.0, b.1) == 0
}

proof fn adding_is_writing(w: u64, v: u64, off: u32, width: u32)
    requires
        1 <= width,
        off + width <= 64,
        field_of(w, off, width) == 0,
    ensures
        w | ((v & mask_of(width)) << (off as u64)) == with_field(w, v, off, width),
{
    masks_are_bits(off, width);
    let m = mask_of(width);
    let o = off as u64;
    let n = width as u64;
    assert(w & !(m << o) == w) by (bit_vector)
        requires
            n >= 1,
            o + n <= 64,
            (w >> o) & m == 0,
            n < 64 ==> m == (1u64 << n) - 1,
            n == 64 ==> m == 0xFFFF_FFFF_FFFF_FFFF,
    ;
}

#[verifier::spinoff_prover]
#[verifier::rlimit(40)]
proof fn bits_are_added(
    env: Env,
    fields: Seq<Operand>,
    ty: TypeId,
    j: int,
    t: LowState,
    c: Cpu,
    d: Cpu,
) -> (e: Cpu)
    requires
        c.wf(),
        t.err is None,
        0 <= j < fields.len(),
        bits_of(env, ty, j) is Some,
        packable(env, c, fields, ty, j),
        kept_but(c, d, scratch()),
        d.mem == c.mem,
    ensures
        ({
            let b = bits_of(env, ty, j).unwrap();
            let v = brought(
                env,
                scalar_word(env, c, fields[j]).unwrap(),
                env.struct_field(ty, j as usize).unwrap().ty,
            );
            e.reg(2) == d.reg(2) | ((v & mask_of(b.1)) << (b.0 as u64))
        }),
        takes(t, env.add_packed_field(t, fields[j], ty, j as usize), d, e),
        env.add_packed_field(t, fields[j], ty, j as usize).err is None,
        kept_but(c, e, scratch()),
        e.mem == c.mem,
{
    assert(index(Gpr::Rax) == 0 && index(Gpr::Rcx) == 1 && index(Gpr::Rdx) == 2 && index(
        Gpr::R10,
    ) == 10);
    let op = fields[j];
    let f = env.struct_field(ty, j as usize).unwrap();
    let b = bits_of(env, ty, j).unwrap();
    let pf = PackedField { off: b.0, width: b.1, signed: false };
    masks_are_bits(b.0, b.1);
    assert(scalar_word(env, d, op) == scalar_word(env, c, op));
    let t1 = env.operand_to(t, op, Gpr::Rax);
    let d1 = scalar_loads(env, t, op, Gpr::Rax, d);
    let t2 = env.normalize(t1, Gpr::Rax, f.ty);
    let d2 = normalizing_wraps(env, t, t1, Gpr::Rax, f.ty, d, d1);
    assert(t2.err == t1.err) by {
        reveal(Env::normalize);
        reveal(Env::normalize_signed_other);
        reveal(Env::normalize_unsigned_other);
    }
    let t3 = placed(env, t2, pf, Gpr::Rax);
    let d3 = placed_runs(env, t, t2, pf, Gpr::Rax, d, d2);
    assert(t3.err == t2.err) by {
        reveal(Env::mask_to);
    }
    let e = follow_or_rr(t, t3, Gpr::Rdx, Gpr::Rax, d, d3);
    assert(!set![Gpr::Rax, Gpr::R10, Gpr::R11].contains(Gpr::Rdx));
    assert(d1.reg(index(Gpr::Rdx)) == d.reg(index(Gpr::Rdx)));
    assert(env.add_packed_field(t, op, ty, j as usize) == t3.on(
        t3.text.or_rr(Gpr::Rdx, Gpr::Rax),
    )) by {
        reveal(Env::add_packed_field);
    }
    assert forall|q: Gpr| !scratch().contains(q) implies #[trigger] e.reg(index(q)) == c.reg(
        index(q),
    ) by {
        gpr_codes_distinct(q, Gpr::Rax);
        gpr_codes_distinct(q, Gpr::Rcx);
        gpr_codes_distinct(q, Gpr::Rdx);
        gpr_codes_distinct(q, Gpr::R10);
        assert(!set![Gpr::Rax, Gpr::R10, Gpr::R11].contains(q));
        assert(d.reg(index(q)) == c.reg(index(q)));
        assert(d1.reg(index(q)) == d.reg(index(q)));
        assert(d2.reg(index(q)) == d1.reg(index(q)));
        assert(d3.reg(index(q)) == d2.reg(index(q)));
    }
    e
}

proof fn adding_keeps_bits(
    env: Env,
    c: Cpu,
    fields: Seq<Operand>,
    ty: TypeId,
    w: u64,
    v: u64,
    i: int,
    j: int,
)
    requires
        bits_of(env, ty, i) is Some,
        packable(env, c, fields, ty, i),
        packable(env, c, fields, ty, j),
        bits_apart(env, ty, i, j),
    ensures
        ({
            let b = bits_of(env, ty, i).unwrap();
            let x = with_field(w, v, b.0, b.1);
            &&& bits_clear(env, ty, w, j) ==> bits_clear(env, ty, x, j)
            &&& bits_hold(env, c, fields, ty, w, j) ==> bits_hold(env, c, fields, ty, x, j)
        }),
{
    let b = bits_of(env, ty, i).unwrap();
    if let Some(o) = bits_of(env, ty, j) {
        other_fields_stay(w, v, b.0, b.1, o.0, o.1);
    }
}

#[verifier::spinoff_prover]
proof fn packed_fields_are_added(
    env: Env,
    fields: Seq<Operand>,
    ty: TypeId,
    i: int,
    t: LowState,
    c: Cpu,
    d: Cpu,
) -> (e: Cpu)
    requires
        c.wf(),
        t.err is None,
        0 <= i <= fields.len() <= usize::MAX,
        forall|j: int| 0 <= j < fields.len() ==> #[trigger] packable(env, c, fields, ty, j),
        forall|h: int, j: int|
            0 <= h < fields.len() && 0 <= j < fields.len() && h != j ==> #[trigger] bits_apart(
                env,
                ty,
                h,
                j,
            ),
        kept_but(c, d, scratch()),
        d.mem == c.mem,
        forall|j: int| 0 <= j < i ==> #[trigger] bits_hold(env, c, fields, ty, d.reg(2), j),
        forall|j: int| i <= j < fields.len() ==> #[trigger] bits_clear(env, ty, d.reg(2), j),
    ensures
        takes(t, env.packed_from(t, fields, ty, i), d, e),
        env.packed_from(t, fields, ty, i).err is None,
        kept_but(c, e, scratch()),
        e.mem == c.mem,
        forall|j: int|
            0 <= j < fields.len() ==> #[trigger] bits_hold(env, c, fields, ty, e.reg(2), j),
    decreases fields.len() - i,
{
    if i >= fields.len() {
        takes_nothing(t, d);
        d
    } else {
        let t1 = env.add_packed_field(t, fields[i], ty, i as usize);
        assert(packable(env, c, fields, ty, i));
        assert(bits_clear(env, ty, d.reg(2), i));
        let d1 = if bits_of(env, ty, i) is Some {
            let b = bits_of(env, ty, i).unwrap();
            let v = brought(
                env,
                scalar_word(env, c, fields[i]).unwrap(),
                env.struct_field(ty, i as usize).unwrap().ty,
            );
            let w = d.reg(2);
            let d1 = bits_are_added(env, fields, ty, i, t, c, d);
            adding_is_writing(w, v, b.0, b.1);
            written_field_reads(w, v, b.0, b.1);
            assert(d1.reg(2) == with_field(w, v, b.0, b.1));
            assert(bits_hold(env, c, fields, ty, d1.reg(2), i));
            assert forall|j: int| 0 <= j < i implies #[trigger] bits_hold(
                env,
                c,
                fields,
                ty,
                d1.reg(2),
                j,
            ) by {
                assert(bits_hold(env, c, fields, ty, w, j));
                assert(bits_apart(env, ty, i, j));
                assert(packable(env, c, fields, ty, j));
                adding_keeps_bits(env, c, fields, ty, w, v, i, j);
            }
            assert forall|j: int| i < j < fields.len() implies #[trigger] bits_clear(
                env,
                ty,
                d1.reg(2),
                j,
            ) by {
                assert(bits_clear(env, ty, w, j));
                assert(bits_apart(env, ty, i, j));
                assert(packable(env, c, fields, ty, j));
                adding_keeps_bits(env, c, fields, ty, w, v, i, j);
            }
            d1
        } else {
            assert(t1 == t) by {
                reveal(Env::add_packed_field);
            }
            takes_nothing(t, d);
            d
        };
        let e = packed_fields_are_added(env, fields, ty, i + 1, t1, c, d1);
        let u = env.packed_from(t1, fields, ty, i + 1);
        takes_compose(t, t1, u, d, d1, e);
        e
    }
}

/// The number of bytes that a packed struct is stored in.
pub open spec fn packed_width(size: u64) -> nat {
    if size == 1 {
        1
    } else if size == 2 {
        2
    } else if size == 4 {
        4
    } else {
        8
    }
}

/// A packed struct of up to a word is stored as one number whose bits are those of its
/// fields, each with the low bits of its operand; no other byte changes, nor any register but
/// those that expressions use.
#[verifier::spinoff_prover]
pub proof fn packed_aggregate_holds_its_fields(
    env: Env,
    s: LowState,
    home: i32,
    fields: Seq<Operand>,
    ty: TypeId,
    c: Cpu,
) -> (r: (Cpu, u64))
    requires
        c.wf(),
        s.err is None,
        env.is_packed(ty),
        env.layout(ty).size <= 8,
        fields.len() <= usize::MAX,
        forall|j: int| 0 <= j < fields.len() ==> #[trigger] packable(env, c, fields, ty, j),
        forall|h: int, j: int|
            0 <= h < fields.len() && 0 <= j < fields.len() && h != j ==> #[trigger] bits_apart(
                env,
                ty,
                h,
                j,
            ),
        in_space(c.reg(5) + home, packed_width(env.layout(ty).size)),
    ensures
        takes(s, env.build_aggregate(s, home, AggKind::Struct, fields, ty), c, r.0),
        env.build_aggregate(s, home, AggKind::Struct, fields, ty).err is None,
        r.0.mem == patch(
            c.mem,
            c.reg(5) + home,
            packed_width(env.layout(ty).size),
            r.1 as int,
        ),
        forall|j: int| 0 <= j < fields.len() ==> #[trigger] bits_hold(env, c, fields, ty, r.1, j),
        kept_but(c, r.0, scratch()),
{
    reveal(Env::build_aggregate);
    reveal(Env::build_packed_aggregate);
    assert(index(Gpr::Rdx) == 2 && index(Gpr::Rbp) == 5);
    takes_nothing(s, c);
    let size = env.layout(ty).size;
    let t = s.on(s.text.mov_ri(Gpr::Rdx, 0));
    let c1 = follow_mov_ri(s, s, Gpr::Rdx, 0, c, c);
    put_keeps(c, c, Gpr::Rdx, wrap64(0) as int, c1);
    assert forall|j: int| 0 <= j < fields.len() implies #[trigger] bits_clear(
        env,
        ty,
        c1.reg(2),
        j,
    ) by {
        if let Some(b) = bits_of(env, ty, j) {
            nothing_is_clear(b.0, b.1);
        }
    }
    let u = env.packed_from(t, fields, ty, 0);
    let d = packed_fields_are_added(env, fields, ty, 0, t, c, c1);
    takes_compose(s, t, u, c, c1, d);
    assert(d.reg(5) == c.reg(5)) by {
        assert(!scratch().contains(Gpr::Rbp));
        assert(d.reg(index(Gpr::Rbp)) == c.reg(index(Gpr::Rbp)));
    }
    let w = d.reg(2);
    let e = if size == 1 {
        follow_mov_store8_mem(s, u, Gpr::Rbp, home, Gpr::Rdx, c, d)
    } else if size == 2 {
        follow_mov_store16_mem(s, u, Gpr::Rbp, home, Gpr::Rdx, c, d)
    } else if size == 4 {
        follow_mov_store32_mem(s, u, Gpr::Rbp, home, Gpr::Rdx, c, d)
    } else {
        follow_mov_store_mem(s, u, Gpr::Rbp, home, Gpr::Rdx, c, d)
    };
    mem_keeps(c, d, e.mem);
    (e, w)
}

proof fn nothing_is_clear(off: u32, width: u32)
    ensures
        field_of(0, off, width) == 0,
{
    let o = off as u64;
    let m = mask_of(width);
    assert((0u64 >> o) & m == 0) by (bit_vector);
}

} // verus!
