//! What the code for aggregates does: copies, fields, optionals and error unions.
use vstd::prelude::*;

use crate::aarch64::encode::{FP, MemSize, Reg};
use crate::aarch64::lower::blocks::takes_compose;
use crate::aarch64::lower::effects::{
    adds_takes, normalizing_wraps, number_is_loaded, store_writes, takes, takes_nothing,
};
use crate::aarch64::lower::env::{A64Func, A64Low, ADDR, RES, S2, S3, S4};
use crate::aarch64::lower::place_effects::{
    address_is_right, address_of, countable, kept_frame, led, number_is_added, only_addressing,
    only_working, product_wraps, scalar_loads, scalar_word, sized_load_reads, sized_store_writes,
    stepped,
};
use crate::aarch64::lower::simulation::{
    brought, kept_word, local_word, operand_word, result_width, scalar_width, truth,
};
use crate::aarch64::machine::{Act, Alu, Core, act, combined};
use crate::aarch64::steps::{
    add_does, cmp_imm_does, cset_does, index, lsl_imm_does, mul_does, number, other_way,
    other_way_is_opposite,
};
use crate::bytes::wrap64;
use crate::encode::Cc;
use crate::lower::agg_effects::{bytes_at, bytes_of, written};
use crate::lower::arith_effects::low_bits_of_word;
use crate::lower::effects::written_reads_kept;
use crate::lower::mem_effects::{apart, byte_of_quotient, copied};
use crate::lower::scalar::{log2_of, sum32, wide_hi, wide_lo};
use crate::lower::wide_effects::same_outside;
use crate::lower::word_effects::logarithm;
use crate::machine::{
    Bytes, SPAN, byte_at, bytes_of_fetched, elsewhere_stays, fetch, fetch_bounded, fetch_same,
    in_space, patch, pow256, pow256_values, written_is_read,
};
use crate::mir::{Const, DiscrKind, LocalId, Operand, Place, Proj, Rvalue};
use crate::types::{Type, TypeId};
use vstd::arithmetic::power2::{lemma2_to64, pow2};

verus! {

// ---------------------------------------------------------------------------
//  Copies
// ---------------------------------------------------------------------------

/// Whether no registers changed but two that copies go through.
pub open spec fn only_copying(c: Core, d: Core) -> bool {
    &&& d.wf()
    &&& d.sp == c.sp
    &&& forall|r: int| 0 <= r < 31 && r != 12 && r != 17 ==> #[trigger] d.regs[r] == c.regs[r]
}

proof fn piece_copied(m: Bytes, k: Bytes, to: int, from: int, off: int, n: nat, all: int)
    requires
        0 <= off,
        off + n <= all,
        copied(m, k, to, from, off),
        apart(to, from, all),
    ensures
        fetch(k, from + off, n) == fetch(m, from + off, n),
        copied(m, patch(k, to + off, n, fetch(m, from + off, n)), to, from, off + n),
{
    assert forall|i: int| 0 <= i < n implies #[trigger] k(from + off + i) == m(from + off + i) by {}
    fetch_same(k, from + off, m, from + off, n);
    let v = fetch(m, from + off, n);
    let z = patch(k, to + off, n, v);
    assert forall|x: int| #[trigger]
        z(x) == if to <= x < to + off + n {
            m(from + (x - to))
        } else {
            m(x)
        } by {
        if to + off <= x < to + off + n {
            bytes_of_fetched(m, from + off, n, x - (to + off));
        }
    }
}

#[verifier::spinoff_prover]
#[verifier::rlimit(40)]
proof fn copy_runs(
    env: A64Func,
    s: A64Low,
    t: A64Low,
    dst: Reg,
    src: Reg,
    off: i64,
    rem: i64,
    m: Bytes,
    c: Core,
    d: Core,
) -> (e: Core)
    requires
        takes(s, t, c, d),
        d.wf(),
        dst.0 < 31 && dst.0 != 12 && dst.0 != 17,
        src.0 < 31 && src.0 != 12 && src.0 != 17,
        0 <= off,
        0 <= rem,
        off + rem <= i64::MAX,
        in_space(d.reg(index(dst)) as int, (off + rem) as nat),
        in_space(d.reg(index(src)) as int, (off + rem) as nat),
        apart(d.reg(index(dst)) as int, d.reg(index(src)) as int, off + rem),
        copied(m, d.mem, d.reg(index(dst)) as int, d.reg(index(src)) as int, off as int),
    ensures
        takes(s, env.copy_from(t, dst, src, off, rem), c, e),
        env.copy_from(t, dst, src, off, rem).err == t.err,
        only_copying(d, e),
        copied(m, e.mem, d.reg(index(dst)) as int, d.reg(index(src)) as int, off + rem),
    decreases rem,
{
    if rem <= 0 {
        d
    } else {
        let (n, size): (nat, MemSize) = if rem >= 8 {
            (8, MemSize::X)
        } else {
            (1, MemSize::B)
        };
        let to = d.reg(index(dst)) as int;
        let from = d.reg(index(src)) as int;
        piece_copied(m, d.mem, to, from, off as int, n, off + rem);
        let t1 = t.on(t.text.load(Reg(S4), src, off, size));
        let d1 = sized_load_reads(s, t, Reg(S4), src, off, size, c, d);
        assert(d1.reg(index(dst)) == to && d1.reg(12) == fetch(m, from + off, n));
        let t2 = t1.on(t1.text.store(Reg(S4), dst, off, size));
        let d2 = sized_store_writes(s, t1, Reg(S4), dst, off, size, c, d1);
        assert(d2.mem == patch(d.mem, to + off, n, fetch(m, from + off, n)));
        assert(d2.regs[index(dst)] == d.regs[index(dst)]);
        assert(d2.regs[index(src)] == d.regs[index(src)]);
        let e = copy_runs(
            env,
            s,
            t2,
            dst,
            src,
            (off + n) as i64,
            (rem - n) as i64,
            m,
            c,
            d2,
        );
        assert forall|r: int| 0 <= r < 31 && r != 12 && r != 17 implies #[trigger] e.regs[r]
            == d.regs[r] by {
            assert(d2.regs[r] == d1.regs[r]);
            assert(d1.regs[r] == d.regs[r]);
        }
        e
    }
}

/// A copy of bytes copies them.
#[verifier::spinoff_prover]
pub proof fn copy_copies(
    env: A64Func,
    t: A64Low,
    dst: Reg,
    src: Reg,
    size: u64,
    d: Core,
) -> (e: Core)
    requires
        d.wf(),
        dst.0 < 31 && dst.0 != 12 && dst.0 != 17,
        src.0 < 31 && src.0 != 12 && src.0 != 17,
        size <= i64::MAX,
        in_space(d.reg(index(dst)) as int, size as nat),
        in_space(d.reg(index(src)) as int, size as nat),
        apart(d.reg(index(dst)) as int, d.reg(index(src)) as int, size as int),
    ensures
        takes(t, env.memcpy(t, dst, src, size), d, e),
        env.memcpy(t, dst, src, size).err == t.err,
        only_copying(d, e),
        copied(
            d.mem,
            e.mem,
            d.reg(index(dst)) as int,
            d.reg(index(src)) as int,
            size as int,
        ),
{
    reveal(A64Func::memcpy);
    takes_nothing(t, d);
    copy_runs(env, t, t, dst, src, 0, size as i64, d.mem, d, d)
}

// ---------------------------------------------------------------------------
//  Fields
// ---------------------------------------------------------------------------

/// The bytes that a field of a type is given by an operand: those of its word, brought to the
/// width of the type; the two words of a wide integer; or those of an aggregate in a place.
pub open spec fn field_bytes(env: A64Func, c: Core, op: Operand, fty: TypeId) -> Option<Seq<u8>> {
    if env.string_of(op) is Some {
        None
    } else if env.in_memory(fty) {
        match op {
            Operand::Copy(p) => match address_of(env, c, p, p.proj@.len() as usize) {
                Some(a) => if in_space(a as int, env.layout(fty).size as nat) {
                    Some(bytes_at(c.mem, a as int, env.layout(fty).size as nat))
                } else {
                    None
                },
                None => None,
            },
            Operand::Const(_) => None,
        }
    } else if env.is_wide_int(fty) {
        match op {
            Operand::Copy(p) => match address_of(env, c, p, p.proj@.len() as usize) {
                Some(a) => if in_space(a as int, 16) {
                    Some(bytes_at(c.mem, a as int, 16))
                } else {
                    None
                },
                None => None,
            },
            Operand::Const(k) => match k {
                Const::Int { value, .. } => Some(bytes_of(value as int, 16)),
                _ => None,
            },
        }
    } else {
        match scalar_word(env, c, op) {
            Some(x) => Some(
                bytes_of(brought(env, x as int, fty) as int, scalar_width(env, fty)),
            ),
            None => None,
        }
    }
}

/// Whether the bytes of an aggregate that is copied stand apart from where they go.
pub open spec fn source_apart(env: A64Func, c: Core, op: Operand, fty: TypeId, at: int) -> bool {
    env.in_memory(fty) ==> (op matches Operand::Copy(p) ==> {
        &&& env.layout(fty).size <= i64::MAX
        &&& apart(
            at,
            address_of(env, c, p, p.proj@.len() as usize).unwrap() as int,
            env.layout(fty).size as int,
        )
    })
}

/// Whether nothing changed but memory and the registers that expressions are computed in.
pub open spec fn kept_working(c: Core, d: Core) -> bool {
    &&& d.wf()
    &&& d.sp == c.sp
    &&& kept_frame(c, d)
}

proof fn working_trans(c: Core, d: Core, e: Core)
    requires
        kept_working(c, d),
        kept_working(d, e),
    ensures
        kept_working(c, e),
{
    assert forall|r: int|
        0 <= r < 31 && !(9 <= r <= 13) && r != 15 && r != 16 && r != 17 implies #[trigger] e.regs[r]
        == c.regs[r] by {
        assert(d.regs[r] == c.regs[r]);
    }
}

proof fn scalar_word_brought(env: A64Func, x: u64, ty: TypeId)
    ensures
        brought(env, x as int, ty) == (if 1 <= env.repr_of(ty).width < 64 {
            wrap64(
                crate::lower::effects::low_bits(
                    x as int,
                    env.repr_of(ty).width as nat,
                    env.repr_of(ty).signed,
                ),
            )
        } else {
            x
        }),
{
    low_bits_of_word(x as int, result_width(env, ty), env.repr_of(ty).signed);
    assert(wrap64(x as int) == x);
}

#[verifier::spinoff_prover]
proof fn scalar_field_is_stored(
    env: A64Func,
    s: A64Low,
    at: i32,
    op: Operand,
    fty: TypeId,
    c: Core,
) -> (d: Core)
    requires
        c.wf(),
        s.err is None,
        countable(op),
        env.string_of(op) is None,
        !env.in_memory(fty),
        !env.is_wide_int(fty),
        scalar_word(env, c, op) is Some,
        in_space(c.reg(29) + at, scalar_width(env, fty)),
    ensures
        takes(s, env.store_field_operand(s, at, op, fty), c, d),
        env.store_field_operand(s, at, op, fty).err is None,
        kept_working(c, d),
        d.mem == patch(
            c.mem,
            c.reg(29) + at,
            scalar_width(env, fty),
            brought(env, scalar_word(env, c, op).unwrap() as int, fty) as int,
        ),
{
    let t1 = env.operand_to(s, op, Reg(RES));
    let c1 = scalar_loads(env, s, op, Reg(RES), c);
    let t2 = env.normalize(t1, Reg(RES), fty);
    let c2 = normalizing_wraps(env, s, t1, Reg(RES), fty, c, c1);
    scalar_word_brought(env, c1.reg(9), fty);
    assert(c1.regs[29] == c.regs[29] && c2.regs[29] == c1.regs[29]);
    assert(env.store_field_operand(s, at, op, fty) == env.store_sized(
        t2,
        Reg(FP),
        at,
        Reg(RES),
        fty,
    )) by {
        reveal(A64Func::store_field_operand);
    }
    reveal(A64Func::store_sized);
    let d = store_writes(env, s, t2, Reg(FP), at, Reg(RES), fty, c, c2);
    assert forall|r: int|
        0 <= r < 31 && !(9 <= r <= 13) && r != 15 && r != 16 && r != 17 implies #[trigger] d.regs[r]
        == c.regs[r] by {
        assert(c2.regs[r] == c1.regs[r]);
        assert(c1.regs[r] == c.regs[r]);
    }
    d
}

#[verifier::spinoff_prover]
proof fn copied_field_is_stored(
    env: A64Func,
    s: A64Low,
    at: i32,
    op: Operand,
    fty: TypeId,
    c: Core,
) -> (d: Core)
    requires
        c.wf(),
        s.err is None,
        countable(op),
        env.string_of(op) is None,
        env.in_memory(fty),
        op is Copy,
        env.layout(fty).size <= i64::MAX,
        address_of(env, c, op->Copy_0, op->Copy_0.proj@.len() as usize) matches Some(a) && in_space(
            a as int,
            env.layout(fty).size as nat,
        ) && apart(c.reg(29) + at, a as int, env.layout(fty).size as int),
        in_space(c.reg(29) + at, env.layout(fty).size as nat),
        c.reg(29) + at < SPAN,
    ensures
        takes(s, env.store_field_operand(s, at, op, fty), c, d),
        env.store_field_operand(s, at, op, fty).err is None,
        kept_working(c, d),
        copied(
            c.mem,
            d.mem,
            c.reg(29) + at,
            address_of(
                env,
                c,
                op->Copy_0,
                op->Copy_0.proj@.len() as usize,
            ).unwrap() as int,
            env.layout(fty).size as int,
        ),
{
    let p = op->Copy_0;
    let n = p.proj@.len() as usize;
    let size = env.layout(fty).size;
    let t1 = env.place_addr(s, p, n, Reg(RES));
    let c1 = address_is_right(env, s, p, n, Reg(RES), c);
    assert(c1.regs[29] == c.regs[29]);
    let t2 = t1.on(t1.text.add_imm_to(Reg(ADDR), Reg(FP), at));
    let c2 = number_is_added(s, t1, Reg(ADDR), Reg(FP), at, c, c1);
    assert(c2.reg(9) == c1.reg(9) && c2.reg(16) == c.reg(29) + at);
    let t3 = env.memcpy(t2, Reg(ADDR), Reg(RES), size);
    let d = copy_copies(env, t2, Reg(ADDR), Reg(RES), size, c2);
    takes_compose(s, t2, t3, c, c2, d);
    assert(env.store_field_operand(s, at, op, fty) == t3) by {
        reveal(A64Func::store_field_operand);
    }
    assert forall|r: int|
        0 <= r < 31 && !(9 <= r <= 13) && r != 15 && r != 16 && r != 17 implies #[trigger] d.regs[r]
        == c.regs[r] by {
        assert(d.regs[r] == c2.regs[r]);
        assert(c2.regs[r] == c1.regs[r]);
        assert(c1.regs[r] == c.regs[r]);
    }
    d
}

/// The words of a wide operand.
pub open spec fn wide_words(env: A64Func, c: Core, op: Operand) -> Option<(int, int)> {
    match op {
        Operand::Copy(p) => match address_of(env, c, p, p.proj@.len() as usize) {
            Some(a) => if in_space(a as int, 16) {
                Some((fetch(c.mem, a as int, 8), fetch(c.mem, a + 8, 8)))
            } else {
                None
            },
            None => None,
        },
        Operand::Const(k) => match k {
            Const::Int { value, .. } => Some(
                (
                    value as int % (SPAN as int),
                    value as int / (SPAN as int) % (SPAN as int),
                ),
            ),
            _ => None,
        },
    }
}

proof fn wide_words_wrap(value: i128)
    ensures
        wrap64(wide_lo(value) as int) == value as int % (SPAN as int),
        wrap64(wide_hi(value) as int) == value as int / (SPAN as int) % (SPAN as int),
{
}

/// A wide operand is loaded as its two words.
#[verifier::spinoff_prover]
pub proof fn wide_loads(env: A64Func, s: A64Low, op: Operand, c: Core) -> (d: Core)
    requires
        c.wf(),
        s.err is None,
        countable(op),
        wide_words(env, c, op) is Some,
    ensures
        takes(s, env.eval_wide_operand(s, op, Reg(RES), Reg(S2)), c, d),
        env.eval_wide_operand(s, op, Reg(RES), Reg(S2)).err is None,
        only_working(c, d),
        d.reg(9) == wide_words(env, c, op).unwrap().0,
        d.reg(10) == wide_words(env, c, op).unwrap().1,
{
    reveal(A64Func::eval_wide_operand);
    takes_nothing(s, c);
    match op {
        Operand::Copy(p) => {
            let n = p.proj@.len() as usize;
            let t1 = env.place_addr(s, p, n, Reg(ADDR));
            let c1 = address_is_right(env, s, p, n, Reg(ADDR), c);
            let t2 = t1.on(t1.text.load(Reg(RES), Reg(ADDR), 0, MemSize::X));
            let c2 = sized_load_reads(s, t1, Reg(RES), Reg(ADDR), 0, MemSize::X, c, c1);
            assert(c2.reg(16) == c1.reg(16));
            let d = sized_load_reads(s, t2, Reg(S2), Reg(ADDR), 8, MemSize::X, c, c2);
            assert(d.reg(9) == c2.reg(9));
            assert forall|r: int|
                0 <= r < 31 && !(9 <= r <= 13) && r != 15 && r != 16 && r != 17 implies
                #[trigger] d.regs[r] == c.regs[r] by {
                assert(d.regs[r] == c2.regs[r]);
                assert(c2.regs[r] == c1.regs[r]);
                assert(c1.regs[r] == c.regs[r]);
            }
            d
        },
        Operand::Const(k) => {
            let value = k->Int_value;
            wide_words_wrap(value);
            let t1 = s.on(s.text.mov_imm(Reg(RES), wide_lo(value)));
            let c1 = number_is_loaded(s, s, Reg(RES), wide_lo(value), c, c);
            number_is_loaded(s, t1, Reg(S2), wide_hi(value), c, c1)
        },
    }
}

/// Two words are stored one behind the other.
#[verifier::spinoff_prover]
pub proof fn pair_is_stored(env: A64Func, s: A64Low, t: A64Low, home: i32, c: Core, d: Core) -> (e:
    Core)
    requires
        takes(s, t, c, d),
        d.wf(),
        in_space(d.reg(29) + home, 16),
    ensures
        takes(s, env.store_pair(t, home, Reg(RES), Reg(S2)), c, e),
        env.store_pair(t, home, Reg(RES), Reg(S2)).err == t.err,
        kept_working(d, e),
        fetch(e.mem, d.reg(29) + home, 8) == d.reg(9),
        fetch(e.mem, d.reg(29) + home + 8, 8) == d.reg(10),
        same_outside(d.mem, e.mem, d.reg(29) + home, 16),
{
    reveal(A64Func::store_pair);
    reveal(A64Func::st);
    reveal(A64Func::st_hi);
    let at = d.reg(29) + home;
    let t1 = env.st(t, Reg(RES), Reg(FP), home, MemSize::X);
    let d1 = sized_store_writes(s, t, Reg(RES), Reg(FP), home as i64, MemSize::X, c, d);
    assert(d1.regs[29] == d.regs[29] && d1.regs[10] == d.regs[10]);
    let e = sized_store_writes(s, t1, Reg(S2), Reg(FP), (home + 8) as i64, MemSize::X, c, d1);
    pow256_values();
    written_is_read(d.mem, at, 8, d.reg(9) as int);
    written_is_read(d1.mem, at + 8, 8, d.reg(10) as int);
    elsewhere_stays(d1.mem, at + 8, 8, d.reg(10) as int, at, 8);
    assert forall|r: int|
        0 <= r < 31 && !(9 <= r <= 13) && r != 15 && r != 16 && r != 17 implies #[trigger] e.regs[r]
        == d.regs[r] by {
        assert(e.regs[r] == d1.regs[r]);
    }
    e
}

// ---------------------------------------------------------------------------
//  Tags and flags
// ---------------------------------------------------------------------------

/// A tag that is stored in the home of an error union is read back from it.
#[verifier::spinoff_prover]
pub proof fn tag_is_stored(env: A64Func, s: A64Low, home: i32, tag: u16, c: Core) -> (d: Core)
    requires
        c.wf(),
        in_space(c.reg(29) + home, 2),
    ensures
        takes(s, env.store_tag(s, home, tag), c, d),
        env.store_tag(s, home, tag).err == s.err,
        kept_working(c, d),
        fetch(d.mem, c.reg(29) + home, 2) == tag,
        same_outside(c.mem, d.mem, c.reg(29) + home, 2),
{
    reveal(A64Func::store_tag);
    reveal(A64Func::st);
    takes_nothing(s, c);
    let t = s.on(s.text.mov_imm(Reg(RES), tag as i64));
    let c1 = number_is_loaded(s, s, Reg(RES), tag as i64, c, c);
    let d = sized_store_writes(s, t, Reg(RES), Reg(FP), home as i64, MemSize::H, c, c1);
    pow256_values();
    written_is_read(c.mem, c.reg(29) + home, 2, tag as int);
    assert forall|r: int|
        0 <= r < 31 && !(9 <= r <= 13) && r != 15 && r != 16 && r != 17 implies #[trigger] d.regs[r]
        == c.regs[r] by {
        assert(d.regs[r] == c1.regs[r]);
    }
    d
}

/// A flag that is stored in the home of an optional is the byte behind its payload.
#[verifier::spinoff_prover]
pub proof fn flag_is_stored(
    env: A64Func,
    s: A64Low,
    t: A64Low,
    home: i32,
    oty: TypeId,
    flag: u8,
    c: Core,
    d: Core,
) -> (e: Core)
    requires
        takes(s, t, c, d),
        d.wf(),
        env.flag_at(oty) <= i32::MAX,
        in_space(d.reg(29) + home + env.flag_at(oty), 1),
    ensures
        takes(s, env.store_flag(t, home, oty, flag as i64), c, e),
        env.store_flag(t, home, oty, flag as i64).err == t.err,
        kept_working(d, e),
        (e.mem)(d.reg(29) + home + env.flag_at(oty)) == flag,
        same_outside(d.mem, e.mem, d.reg(29) + home + env.flag_at(oty), 1),
{
    reveal(A64Func::store_flag);
    let t1 = t.on(t.text.mov_imm(Reg(RES), flag as i64));
    let d1 = number_is_loaded(s, t, Reg(RES), flag as i64, c, d);
    let off = (home as i64 + env.flag_at(oty) as i32 as i64) as i64;
    let e = sized_store_writes(s, t1, Reg(RES), Reg(FP), off, MemSize::B, c, d1);
    reveal_with_fuel(byte_at, 2);
    assert(byte_at(flag as int, 0) == flag);
    assert forall|r: int|
        0 <= r < 31 && !(9 <= r <= 13) && r != 15 && r != 16 && r != 17 implies #[trigger] e.regs[r]
        == d.regs[r] by {
        assert(e.regs[r] == d1.regs[r]);
    }
    e
}

// ---------------------------------------------------------------------------
//  Values of a word in homes
// ---------------------------------------------------------------------------

/// Whether `d` is `c` with the low bytes of a word in the home of a local. Nothing else
/// changed but the registers that expressions are computed in.
pub open spec fn put_in_home(env: A64Func, c: Core, d: Core, l: LocalId, v: u64) -> bool {
    &&& kept_working(c, d)
    &&& d.mem == patch(
        c.mem,
        c.reg(29) + env.home(l),
        scalar_width(env, env.local_ty(l)),
        v as int,
    )
}

/// A local that was given a word reads as its low bytes, as many as its type has, extended as
/// the type is signed or not.
pub proof fn home_reads(env: A64Func, c: Core, d: Core, l: LocalId, v: u64)
    requires
        put_in_home(env, c, d, l, v),
        in_space(c.reg(29) + env.home(l), 8),
    ensures
        local_word(env, d, l) == Some(kept_word(env, env.local_ty(l), v)),
{
    reveal(local_word);
    assert(d.regs[29] == c.regs[29]);
    written_reads_kept(
        c.mem,
        c.reg(29) + env.home(l),
        scalar_width(env, env.local_ty(l)),
        v,
        env.repr_of(env.local_ty(l)).signed,
    );
}

/// Zero and one are kept in a home of any width.
pub proof fn truth_is_kept(env: A64Func, ty: TypeId, b: bool)
    ensures
        kept_word(env, ty, truth(b)) == truth(b),
{
    pow256_values();
    let v = truth(b) as int;
    match env.mem_size(ty) {
        MemSize::B => assert(v % 0x100 == v),
        MemSize::H => assert(v % 0x1_0000 == v),
        MemSize::W => assert(v % 0x1_0000_0000 == v),
        MemSize::X => assert(v % 0x1_0000_0000_0000_0000 == v),
    }
}

#[verifier::spinoff_prover]
proof fn word_is_stored(env: A64Func, s: A64Low, t: A64Low, l: LocalId, c: Core, d: Core) -> (e:
    Core)
    requires
        takes(s, t, c, d),
        d.wf(),
        in_space(d.reg(29) + env.home(l), 8),
    ensures
        takes(s, env.store_scalar(t, l, Reg(RES)), c, e),
        env.store_scalar(t, l, Reg(RES)).err == t.err,
        put_in_home(env, d, e, l, d.reg(9)),
{
    reveal(A64Func::store_scalar);
    reveal(A64Func::store_sized);
    store_writes(env, s, t, Reg(FP), env.home(l), Reg(RES), env.local_ty(l), c, d)
}

/// The code of a test.
pub open spec fn zero_tested(t: A64Low) -> A64Low {
    t.on(t.text.cmp_imm(Reg(RES), 0))
}

#[verifier::spinoff_prover]
proof fn zero_test_runs(s: A64Low, t: A64Low, c: Core, d: Core) -> (e: Core)
    requires
        takes(s, t, c, d),
        d.wf(),
    ensures
        takes(s, zero_tested(t), c, e),
        e == d.compared(d.reg(9), 0),
{
    cmp_imm_does(t.text, Reg(RES), 0);
    reveal(act);
    let z = Act::CompareImm { rd: 31, rn: index(Reg(RES)), value: number(0) };
    adds_takes(s, t, zero_tested(t), z, c, d);
    act(z, d).unwrap()
}

#[verifier::spinoff_prover]
proof fn test_is_stored(
    env: A64Func,
    s: A64Low,
    t: A64Low,
    dst: LocalId,
    cc: Cc,
    c: Core,
    d: Core,
) -> (e: Core)
    requires
        takes(s, t, c, d),
        d.wf(),
        cc == Cc::E || cc == Cc::Ne,
        in_space(d.reg(29) + env.home(dst), 8),
    ensures
        takes(s, env.store_test(t, dst, cc), c, e),
        env.store_test(t, dst, cc).err == t.err,
        put_in_home(env, d, e, dst, truth((d.reg(9) == 0) == (cc == Cc::E))),
{
    let t1 = zero_tested(t);
    let d1 = zero_test_runs(s, t, c, d);
    let t2 = t1.on(t1.text.cset(Reg(RES), cc));
    cset_does(t1.text, Reg(RES), cc);
    other_way_is_opposite(d1, cc);
    let z = Act::Condition { rd: 9, unless: other_way(cc) };
    assert(act(z, d1) is Some) by {
        reveal(act);
    }
    adds_takes(s, t1, t2, z, c, d1);
    let d2 = act(z, d1).unwrap();
    assert(d2.wf() && d2.mem == d.mem && d2.sp == d.sp && d2.regs[29] == d.regs[29] && (forall|
        r: int,
    |
        0 <= r < 31 && r != 9 ==> #[trigger] d2.regs[r] == d.regs[r]) && d2.reg(9) == truth(
        (d.reg(9) == 0) == (cc == Cc::E),
    )) by {
        reveal(act);
        assert(wrap64(d.reg(9) - 0) == d.reg(9));
    }
    assert(env.store_test(t, dst, cc) == env.store_scalar(t2, dst, Reg(RES))) by {
        reveal(A64Func::store_test);
    }
    let e = word_is_stored(env, s, t2, dst, c, d2);
    assert forall|r: int|
        0 <= r < 31 && !(9 <= r <= 13) && r != 15 && r != 16 && r != 17 implies #[trigger] e.regs[r]
        == d.regs[r] by {
        assert(e.regs[r] == d2.regs[r]);
    }
    e
}

// ---------------------------------------------------------------------------
//  Discriminants
// ---------------------------------------------------------------------------

/// Whether the flag of an optional in a place can be read.
pub open spec fn flag_readable(env: A64Func, c: Core, p: Place, oty: TypeId) -> bool {
    address_of(env, c, p, p.proj@.len() as usize) matches Some(a) && env.flag_at(oty) <= i32::MAX
        && in_space(a + env.flag_at(oty), 1)
}

/// The discriminant of an optional with a flag is one where the flag is clear, else zero.
#[verifier::spinoff_prover]
pub proof fn flag_tells(env: A64Func, s: A64Low, dst: LocalId, p: Place, c: Core) -> (d: Core)
    requires
        c.wf(),
        s.err is None,
        countable(Operand::Copy(p)),
        env.is_flagged_optional(env.place_type(p)),
        flag_readable(env, c, p, env.place_type(p)),
        in_space(c.reg(29) + env.home(dst), 8),
    ensures
        takes(s, env.lower_discr_optional(s, dst, Operand::Copy(p)), c, d),
        env.lower_discr_optional(s, dst, Operand::Copy(p)).err is None,
        put_in_home(
            env,
            c,
            d,
            dst,
            truth(
                (c.mem)(
                    address_of(env, c, p, p.proj@.len() as usize).unwrap() + env.flag_at(
                        env.place_type(p),
                    ),
                ) == 0,
            ),
        ),
{
    let ty = env.place_type(p);
    let n = p.proj@.len() as usize;
    let a = address_of(env, c, p, n).unwrap() as int;
    let off = env.flag_at(ty);
    let t1 = env.place_addr(s, p, n, Reg(ADDR));
    let c1 = address_is_right(env, s, p, n, Reg(ADDR), c);
    let t2 = t1.on(t1.text.load(Reg(RES), Reg(ADDR), off as i64, MemSize::B));
    let c2 = sized_load_reads(s, t1, Reg(RES), Reg(ADDR), off as i64, MemSize::B, c, c1);
    reveal_with_fuel(fetch, 2);
    assert(c2.reg(9) == (c.mem)(a + off));
    assert(c2.regs[29] == c1.regs[29] && c1.regs[29] == c.regs[29]);
    assert(env.lower_discr_optional(s, dst, Operand::Copy(p)) == env.store_test(t2, dst, Cc::E))
        by {
        reveal(A64Func::lower_discr_optional);
        reveal(A64Func::load_flag);
    }
    let d = test_is_stored(env, s, t2, dst, Cc::E, c, c2);
    assert forall|r: int|
        0 <= r < 31 && !(9 <= r <= 13) && r != 15 && r != 16 && r != 17 implies #[trigger] d.regs[r]
        == c.regs[r] by {
        assert(d.regs[r] == c2.regs[r]);
        assert(c2.regs[r] == c1.regs[r]);
        assert(c1.regs[r] == c.regs[r]);
    }
    d
}

/// The discriminant of an optional pointer is one where it is null, else zero.
#[verifier::spinoff_prover]
pub proof fn null_tells(env: A64Func, s: A64Low, dst: LocalId, op: Operand, c: Core) -> (d: Core)
    requires
        c.wf(),
        s.err is None,
        countable(op),
        env.operand_type(op) matches Some(ty) && !env.is_flagged_optional(ty),
        scalar_word(env, c, op) is Some,
        in_space(c.reg(29) + env.home(dst), 8),
    ensures
        takes(s, env.lower_discr_optional(s, dst, op), c, d),
        env.lower_discr_optional(s, dst, op).err is None,
        put_in_home(env, c, d, dst, truth(scalar_word(env, c, op) == Some(0u64))),
{
    let t1 = env.operand_to(s, op, Reg(RES));
    let c1 = scalar_loads(env, s, op, Reg(RES), c);
    assert(c1.regs[29] == c.regs[29]);
    assert(env.lower_discr_optional(s, dst, op) == env.store_test(t1, dst, Cc::E)) by {
        reveal(A64Func::lower_discr_optional);
    }
    let d = test_is_stored(env, s, t1, dst, Cc::E, c, c1);
    assert forall|r: int|
        0 <= r < 31 && !(9 <= r <= 13) && r != 15 && r != 16 && r != 17 implies #[trigger] d.regs[r]
        == c.regs[r] by {
        assert(d.regs[r] == c1.regs[r]);
        assert(c1.regs[r] == c.regs[r]);
    }
    d
}

/// The discriminant of an error union in a place is one where its tag is not zero, else zero.
#[verifier::spinoff_prover]
pub proof fn tag_tells(env: A64Func, s: A64Low, dst: LocalId, p: Place, c: Core) -> (d: Core)
    requires
        c.wf(),
        s.err is None,
        countable(Operand::Copy(p)),
        env.is_error_union(env.place_type(p)),
        address_of(env, c, p, p.proj@.len() as usize) matches Some(a) && in_space(a as int, 2),
        in_space(c.reg(29) + env.home(dst), 8),
    ensures
        takes(s, env.lower_discr_error_union(s, dst, Operand::Copy(p)), c, d),
        env.lower_discr_error_union(s, dst, Operand::Copy(p)).err is None,
        put_in_home(
            env,
            c,
            d,
            dst,
            truth(
                fetch(
                    c.mem,
                    address_of(env, c, p, p.proj@.len() as usize).unwrap() as int,
                    2,
                ) != 0,
            ),
        ),
{
    let n = p.proj@.len() as usize;
    let a = address_of(env, c, p, n).unwrap() as int;
    let t1 = env.place_addr(s, p, n, Reg(ADDR));
    let c1 = address_is_right(env, s, p, n, Reg(ADDR), c);
    let t2 = t1.on(t1.text.load(Reg(RES), Reg(ADDR), 0, MemSize::H));
    let c2 = sized_load_reads(s, t1, Reg(RES), Reg(ADDR), 0, MemSize::H, c, c1);
    assert(c2.reg(9) == fetch(c.mem, a, 2));
    assert(c2.regs[29] == c1.regs[29] && c1.regs[29] == c.regs[29]);
    assert(env.lower_discr_error_union(s, dst, Operand::Copy(p)) == env.store_test(
        t2,
        dst,
        Cc::Ne,
    )) by {
        reveal(A64Func::lower_discr_error_union);
        reveal(A64Func::load_tag);
    }
    let d = test_is_stored(env, s, t2, dst, Cc::Ne, c, c2);
    assert forall|r: int|
        0 <= r < 31 && !(9 <= r <= 13) && r != 15 && r != 16 && r != 17 implies #[trigger] d.regs[r]
        == c.regs[r] by {
        assert(d.regs[r] == c2.regs[r]);
        assert(c2.regs[r] == c1.regs[r]);
        assert(c1.regs[r] == c.regs[r]);
    }
    d
}

// ---------------------------------------------------------------------------
//  Fields of any kind
// ---------------------------------------------------------------------------

proof fn patch_is_written(m: Bytes, a: int, n: nat, v: int)
    ensures
        written(m, patch(m, a, n, v), a, bytes_of(v, n)),
{
}

proof fn copy_is_written(m: Bytes, k: Bytes, to: int, from: int, n: int)
    requires
        copied(m, k, to, from, n),
        0 <= n,
    ensures
        written(m, k, to, bytes_at(m, from, n as nat)),
{
}

proof fn low_part(q: int, r: int, n: nat, i: int)
    requires
        0 <= i < n,
    ensures
        byte_at(q * pow256(n) + r, i) == byte_at(r, i),
    decreases n,
{
    let y = q * pow256((n - 1) as nat);
    let p = pow256((n - 1) as nat);
    assert(pow256(n) == 256 * p);
    assert(q * (256 * p) == 256 * (q * p)) by (nonlinear_arith);
    let v = 256 * y + r;
    assert(v % 256 == r % 256);
    assert(v / 256 == y + r / 256);
    if i > 0 {
        low_part(q, r / 256, (n - 1) as nat, i - 1);
    }
}

proof fn high_bytes(v: int, i: int)
    requires
        0 <= i < 8,
    ensures
        byte_at(v % (SPAN as int), i) == byte_at(v, i),
        byte_at(v / (SPAN as int) % (SPAN as int), i) == byte_at(v, 8 + i),
{
    pow256_values();
    let q = v / (SPAN as int);
    low_part(q, v % (SPAN as int), 8, i);
    low_part(q / (SPAN as int), q % (SPAN as int), 8, i);
    byte_of_quotient(v, i + 4);
    byte_of_quotient(v / 0x1_0000_0000, i);
    assert(v / 0x1_0000_0000 / 0x1_0000_0000 == q);
}

/// An operand that is stored as a field gives the field its bytes, and changes no others.
#[verifier::spinoff_prover]
#[verifier::rlimit(40)]
pub proof fn field_is_stored(
    env: A64Func,
    s: A64Low,
    at: i32,
    op: Operand,
    fty: TypeId,
    c: Core,
) -> (d: Core)
    requires
        c.wf(),
        s.err is None,
        countable(op),
        field_bytes(env, c, op, fty) matches Some(v) && in_space(c.reg(29) + at, v.len()),
        source_apart(env, c, op, fty, c.reg(29) + at),
        c.reg(29) + at < SPAN,
    ensures
        takes(s, env.store_field_operand(s, at, op, fty), c, d),
        env.store_field_operand(s, at, op, fty).err is None,
        kept_working(c, d),
        written(c.mem, d.mem, c.reg(29) + at, field_bytes(env, c, op, fty).unwrap()),
{
    let to = c.reg(29) + at;
    if env.in_memory(fty) {
        let d = copied_field_is_stored(env, s, at, op, fty, c);
        let p = op->Copy_0;
        copy_is_written(
            c.mem,
            d.mem,
            to,
            address_of(env, c, p, p.proj@.len() as usize).unwrap() as int,
            env.layout(fty).size as int,
        );
        d
    } else if env.is_wide_int(fty) {
        let t1 = env.eval_wide_operand(s, op, Reg(RES), Reg(S2));
        let c1 = wide_loads(env, s, op, c);
        assert(c1.regs[29] == c.regs[29]);
        assert(env.store_field_operand(s, at, op, fty) == env.store_pair(
            t1,
            at,
            Reg(RES),
            Reg(S2),
        )) by {
            reveal(A64Func::store_field_operand);
        }
        let d = pair_is_stored(env, s, t1, at, c, c1);
        working_trans(c, c1, d);
        let v = field_bytes(env, c, op, fty).unwrap();
        let m = d.mem;
        assert forall|x: int| to <= x < to + 16 implies #[trigger] m(x) == v[x - to] by {
            if x < to + 8 {
                let i = x - to;
                bytes_of_fetched(m, to, 8, i);
                match op {
                    Operand::Copy(p) => bytes_of_fetched(
                        c.mem,
                        address_of(env, c, p, p.proj@.len() as usize).unwrap() as int,
                        8,
                        i,
                    ),
                    Operand::Const(k) => high_bytes(k->Int_value as int, i),
                }
            } else {
                let i = x - to - 8;
                bytes_of_fetched(m, to + 8, 8, i);
                match op {
                    Operand::Copy(p) => bytes_of_fetched(
                        c.mem,
                        address_of(env, c, p, p.proj@.len() as usize).unwrap() + 8,
                        8,
                        i,
                    ),
                    Operand::Const(k) => high_bytes(k->Int_value as int, i),
                }
            }
        }
        d
    } else {
        let d = scalar_field_is_stored(env, s, at, op, fty, c);
        patch_is_written(
            c.mem,
            to,
            scalar_width(env, fty),
            brought(env, scalar_word(env, c, op).unwrap() as int, fty) as int,
        );
        d
    }
}

// ---------------------------------------------------------------------------
//  Optionals and error unions that are made and taken apart
// ---------------------------------------------------------------------------

/// Whether a place is a whole local.
pub open spec fn whole(p: Place, l: LocalId) -> bool {
    p.base == l && p.proj@.len() == 0
}

/// Whether the home of an optional has room for its payload and its flag.
pub open spec fn optional_room(env: A64Func, c: Core, o: LocalId) -> bool {
    let at = c.reg(29) + env.home(o);
    let off = env.flag_at(env.local_ty(o));
    &&& env.is_flagged_optional(env.local_ty(o))
    &&& off <= i32::MAX
    &&& 0 <= at
    &&& in_space(at, (off + 1) as nat)
}

/// Whether an operand can be stored as the payload of an optional.
pub open spec fn payload_of_optional(env: A64Func, c: Core, o: LocalId, op: Operand) -> bool {
    let fty = env.some_type(op, env.local_ty(o));
    &&& countable(op)
    &&& field_bytes(env, c, op, fty) matches Some(v) && v.len() <= env.flag_at(env.local_ty(o))
    &&& source_apart(env, c, op, fty, c.reg(29) + env.home(o))
}

/// An optional that is made with a value holds the bytes of the value, and behind them a flag
/// that is set.
#[verifier::spinoff_prover]
pub proof fn some_is_made(env: A64Func, s: A64Low, o: LocalId, op: Operand, c: Core) -> (d: Core)
    requires
        c.wf(),
        s.err is None,
        optional_room(env, c, o),
        payload_of_optional(env, c, o, op),
    ensures
        takes(s, env.build_make_some(s, env.home(o), op, env.local_ty(o)), c, d),
        env.build_make_some(s, env.home(o), op, env.local_ty(o)).err is None,
        kept_working(c, d),
        ({
            let v = field_bytes(env, c, op, env.some_type(op, env.local_ty(o))).unwrap();
            bytes_at(d.mem, c.reg(29) + env.home(o), v.len()) =~= v
        }),
        (d.mem)(c.reg(29) + env.home(o) + env.flag_at(env.local_ty(o))) == 1,
        same_outside(
            c.mem,
            d.mem,
            c.reg(29) + env.home(o),
            env.flag_at(env.local_ty(o)) + 1,
        ),
{
    let oty = env.local_ty(o);
    let home = env.home(o);
    let fty = env.some_type(op, oty);
    let at = c.reg(29) + home;
    let v = field_bytes(env, c, op, fty).unwrap();
    let t1 = env.store_field_operand(s, home, op, fty);
    let c1 = field_is_stored(env, s, home, op, fty, c);
    assert(c1.regs[29] == c.regs[29]);
    let d = flag_is_stored(env, s, t1, home, oty, 1, c, c1);
    assert(env.build_make_some(s, home, op, oty) == env.store_flag(t1, home, oty, 1)) by {
        reveal(A64Func::build_make_some);
    }
    working_trans(c, c1, d);
    let m = c.mem;
    let m1 = c1.mem;
    let k = d.mem;
    assert forall|i: int| 0 <= i < v.len() implies #[trigger] k(at + i) == v[i] by {
        assert(m1(at + i) == v[i]);
    }
    assert forall|x: int| !(at <= x < at + env.flag_at(oty) + 1) implies #[trigger] k(x) == m(x) by {
        assert(m1(x) == m(x));
    }
    d
}

/// Code that makes an optional with a flag, and the code that takes its discriminant: the
/// destination reads one where the optional was made as null, and zero where it was made with
/// a value.
#[verifier::spinoff_prover]
#[verifier::rlimit(40)]
pub proof fn optional_tells_how_it_was_made(
    env: A64Func,
    s: A64Low,
    o: LocalId,
    make: Rvalue,
    p: Place,
    dst: LocalId,
    c: Core,
) -> (d: Core)
    requires
        c.wf(),
        s.err is None,
        whole(p, o),
        optional_room(env, c, o),
        env.in_memory(env.local_ty(o)),
        make matches Rvalue::MakeNull(t) && t == env.local_ty(o) || (make matches Rvalue::MakeSome(
            op,
            t,
        ) && t == env.local_ty(o) && payload_of_optional(env, c, o, op)),
        !env.in_memory(env.local_ty(dst)),
        !env.is_wide_int(env.local_ty(dst)),
        in_space(c.reg(29) + env.home(dst), 8),
    ensures
        ({
            let t = env.lower_rvalue(s, o, make);
            let u = env.lower_rvalue(
                t,
                dst,
                Rvalue::Discriminant { operand: Operand::Copy(p), of: DiscrKind::Optional },
            );
            takes(s, u, c, d) && u.err is None
        }),
        local_word(env, d, dst) == Some(truth(make is MakeNull)),
{
    let oty = env.local_ty(o);
    let home = env.home(o);
    let off = env.flag_at(oty);
    let t = env.lower_rvalue(s, o, make);
    let at = c.reg(29) + home;
    let c1: Core = match make {
        Rvalue::MakeSome(op, _) => {
            assert(t == env.build_make_some(s, home, op, oty)) by {
                reveal(A64Func::lower_rvalue);
                reveal(A64Func::lower_aggregate_rvalue);
            }
            some_is_made(env, s, o, op, c)
        },
        _ => {
            assert(t == env.store_flag(s, home, oty, 0)) by {
                reveal(A64Func::lower_rvalue);
                reveal(A64Func::lower_aggregate_rvalue);
            }
            takes_nothing(s, c);
            flag_is_stored(env, s, s, home, oty, 0, c, c)
        },
    };
    assert(c1.regs[29] == c.regs[29]);
    assert(address_of(env, c1, p, 0) == Some(at as u64)) by {
        assert(wrap64(at) == at);
    }
    let discr = Rvalue::Discriminant { operand: Operand::Copy(p), of: DiscrKind::Optional };
    let u = env.lower_rvalue(t, dst, discr);
    assert(u == env.lower_discr_optional(t, dst, Operand::Copy(p))) by {
        reveal(A64Func::lower_rvalue);
        reveal(A64Func::lower_scalar_rvalue);
        reveal(A64Func::lower_discriminant);
    }
    assert(env.place_type(p) == oty);
    let d = flag_tells(env, t, dst, p, c1);
    takes_compose(s, t, u, c, c1, d);
    home_reads(env, c1, d, dst, truth(make is MakeNull));
    truth_is_kept(env, env.local_ty(dst), make is MakeNull);
    d
}

/// Whether an operand is a word that is not zero.
pub open spec fn not_null(env: A64Func, c: Core, op: Operand) -> bool {
    &&& countable(op)
    &&& scalar_word(env, c, op) is Some
    &&& scalar_word(env, c, op) != Some(0u64)
}

/// Code that makes an optional pointer, and the code that takes its discriminant: the
/// destination reads one where the optional was made as null, and zero where it was made with
/// a pointer, which is never zero.
#[verifier::spinoff_prover]
#[verifier::rlimit(40)]
pub proof fn optional_pointer_tells_how_it_was_made(
    env: A64Func,
    s: A64Low,
    o: LocalId,
    make: Rvalue,
    p: Place,
    dst: LocalId,
    c: Core,
) -> (d: Core)
    requires
        c.wf(),
        s.err is None,
        whole(p, o),
        !env.is_flagged_optional(env.local_ty(o)),
        !env.in_memory(env.local_ty(o)),
        !env.is_wide_int(env.local_ty(o)),
        scalar_width(env, env.local_ty(o)) == 8,
        env.effective_agg_ty(o, make) is None,
        make is MakeNull || (make matches Rvalue::MakeSome(op, _) && not_null(env, c, op)),
        !env.in_memory(env.local_ty(dst)),
        !env.is_wide_int(env.local_ty(dst)),
        in_space(c.reg(29) + env.home(o), 8),
        in_space(c.reg(29) + env.home(dst), 8),
    ensures
        ({
            let t = env.lower_rvalue(s, o, make);
            let u = env.lower_rvalue(
                t,
                dst,
                Rvalue::Discriminant { operand: Operand::Copy(p), of: DiscrKind::Optional },
            );
            takes(s, u, c, d) && u.err is None
        }),
        local_word(env, d, dst) == Some(truth(make is MakeNull)),
{
    let t = env.lower_rvalue(s, o, make);
    takes_nothing(s, c);
    let (v, c1): (u64, Core) = match make {
        Rvalue::MakeSome(op, _) => {
            let t1 = env.operand_to(s, op, Reg(RES));
            let c0 = scalar_loads(env, s, op, Reg(RES), c);
            assert(c0.regs[29] == c.regs[29]);
            assert(t == env.store_scalar(t1, o, Reg(RES))) by {
                reveal(A64Func::lower_rvalue);
                reveal(A64Func::lower_scalar_rvalue);
            }
            (c0.reg(9), word_is_stored(env, s, t1, o, c, c0))
        },
        _ => {
            let t1 = s.on(s.text.mov_imm(Reg(RES), 0));
            let c0 = number_is_loaded(s, s, Reg(RES), 0, c, c);
            assert(c0.regs[29] == c.regs[29]);
            assert(t == env.store_scalar(t1, o, Reg(RES))) by {
                reveal(A64Func::lower_rvalue);
                reveal(A64Func::lower_scalar_rvalue);
            }
            (0u64, word_is_stored(env, s, t1, o, c, c0))
        },
    };
    assert(c1.regs[29] == c.regs[29]);
    assert(local_word(env, c1, o) == Some(v)) by {
        reveal(local_word);
        let at = c.reg(29) + env.home(o);
        written_reads_kept(c.mem, at, 8, v, env.repr_of(env.local_ty(o)).signed);
        pow256_values();
        crate::lower::effects::word_either_way(v as int);
    }
    let discr = Rvalue::Discriminant { operand: Operand::Copy(p), of: DiscrKind::Optional };
    let u = env.lower_rvalue(t, dst, discr);
    assert(u == env.lower_discr_optional(t, dst, Operand::Copy(p))) by {
        reveal(A64Func::lower_rvalue);
        reveal(A64Func::lower_scalar_rvalue);
        reveal(A64Func::lower_discriminant);
    }
    assert(env.place_type(p) == env.local_ty(o));
    let d = null_tells(env, t, dst, Operand::Copy(p), c1);
    takes_compose(s, t, u, c, c1, d);
    home_reads(env, c1, d, dst, truth(make is MakeNull));
    truth_is_kept(env, env.local_ty(dst), make is MakeNull);
    d
}

/// Whether the home of an error union has room for a tag and its payload.
pub open spec fn union_room(env: A64Func, c: Core, l: LocalId, n: int) -> bool {
    let at = c.reg(29) + env.home(l);
    let off = env.payload_offset(env.local_ty(l));
    &&& env.is_error_union(env.local_ty(l))
    &&& 2 <= off
    &&& env.home(l) + off <= i32::MAX
    &&& 0 <= at
    &&& in_space(at, (off + n) as nat)
    &&& at + off < SPAN
}

/// Whether an operand can be stored as the payload of an error union.
pub open spec fn payload_of_union(env: A64Func, c: Core, l: LocalId, op: Operand) -> bool {
    let fty = env.ok_type(op, env.local_ty(l));
    let off = env.payload_offset(env.local_ty(l));
    &&& countable(op)
    &&& field_bytes(env, c, op, fty) matches Some(v) && union_room(env, c, l, v.len() as int)
    &&& source_apart(env, c, op, fty, c.reg(29) + env.home(l) + off)
}

/// An error union that is made with a value holds its bytes, and a tag that is zero.
#[verifier::spinoff_prover]
#[verifier::rlimit(40)]
pub proof fn ok_is_made(env: A64Func, s: A64Low, l: LocalId, op: Operand, c: Core) -> (d: Core)
    requires
        c.wf(),
        s.err is None,
        payload_of_union(env, c, l, op),
    ensures
        takes(s, env.build_make_ok(s, env.home(l), op, env.local_ty(l)), c, d),
        env.build_make_ok(s, env.home(l), op, env.local_ty(l)).err is None,
        kept_working(c, d),
        fetch(d.mem, c.reg(29) + env.home(l), 2) == 0,
        ({
            let v = field_bytes(env, c, op, env.ok_type(op, env.local_ty(l))).unwrap();
            let off = env.payload_offset(env.local_ty(l));
            &&& bytes_at(d.mem, c.reg(29) + env.home(l) + off, v.len()) =~= v
            &&& same_outside(c.mem, d.mem, c.reg(29) + env.home(l), off + v.len())
        }),
{
    let ety = env.local_ty(l);
    let home = env.home(l);
    let off = env.payload_offset(ety);
    let fty = env.ok_type(op, ety);
    let at = c.reg(29) + home;
    let v = field_bytes(env, c, op, fty).unwrap();
    let cell = sum32(home, off);
    let t1 = env.store_field_operand(s, cell, op, fty);
    let c1 = field_is_stored(env, s, cell, op, fty, c);
    assert(c1.regs[29] == c.regs[29]);
    let t2 = env.store_tag(t1, home, 0);
    let d = tag_is_stored(env, t1, home, 0, c1);
    takes_compose(s, t1, t2, c, c1, d);
    assert(env.build_make_ok(s, home, op, ety) == t2) by {
        reveal(A64Func::build_make_ok);
        reveal(A64Func::store_tag);
    }
    working_trans(c, c1, d);
    let m = c.mem;
    let m1 = c1.mem;
    let k = d.mem;
    assert forall|i: int| 0 <= i < v.len() implies #[trigger] k(at + off + i) == v[i] by {
        assert(m1(at + off + i) == v[i]);
    }
    assert forall|x: int| !(at <= x < at + off + v.len()) implies #[trigger] k(x) == m(x) by {
        assert(m1(x) == m(x));
    }
    d
}

/// Code that makes an error union, and the code that takes its discriminant: the destination
/// reads one where it was made as an error, and zero where it was made with a value.
#[verifier::spinoff_prover]
#[verifier::rlimit(40)]
pub proof fn error_union_tells_how_it_was_made(
    env: A64Func,
    s: A64Low,
    l: LocalId,
    make: Rvalue,
    p: Place,
    dst: LocalId,
    c: Core,
) -> (d: Core)
    requires
        c.wf(),
        s.err is None,
        whole(p, l),
        env.is_error_union(env.local_ty(l)),
        env.in_memory(env.local_ty(l)),
        0 <= c.reg(29) + env.home(l),
        in_space(c.reg(29) + env.home(l), 2),
        make matches Rvalue::MakeErr(tag, _) && tag.0 != 0 || (make matches Rvalue::MakeOk(op, t)
            && t == env.local_ty(l) && payload_of_union(env, c, l, op)),
        !env.in_memory(env.local_ty(dst)),
        !env.is_wide_int(env.local_ty(dst)),
        in_space(c.reg(29) + env.home(dst), 8),
    ensures
        ({
            let t = env.lower_rvalue(s, l, make);
            let u = env.lower_rvalue(
                t,
                dst,
                Rvalue::Discriminant { operand: Operand::Copy(p), of: DiscrKind::ErrorUnion },
            );
            takes(s, u, c, d) && u.err is None
        }),
        local_word(env, d, dst) == Some(truth(make is MakeErr)),
{
    let ety = env.local_ty(l);
    let home = env.home(l);
    let t = env.lower_rvalue(s, l, make);
    let at = c.reg(29) + home;
    let c1: Core = match make {
        Rvalue::MakeOk(op, _) => {
            assert(t == env.build_make_ok(s, home, op, ety)) by {
                reveal(A64Func::lower_rvalue);
                reveal(A64Func::lower_aggregate_rvalue);
            }
            ok_is_made(env, s, l, op, c)
        },
        Rvalue::MakeErr(tag, _) => {
            assert(t == env.store_tag(s, home, tag.0)) by {
                reveal(A64Func::lower_rvalue);
                reveal(A64Func::lower_aggregate_rvalue);
            }
            tag_is_stored(env, s, home, tag.0, c)
        },
        _ => c,
    };
    assert(c1.regs[29] == c.regs[29]);
    assert(address_of(env, c1, p, 0) == Some(at as u64)) by {
        assert(wrap64(at) == at);
    }
    let discr = Rvalue::Discriminant { operand: Operand::Copy(p), of: DiscrKind::ErrorUnion };
    let u = env.lower_rvalue(t, dst, discr);
    assert(u == env.lower_discr_error_union(t, dst, Operand::Copy(p))) by {
        reveal(A64Func::lower_rvalue);
        reveal(A64Func::lower_scalar_rvalue);
        reveal(A64Func::lower_discriminant);
    }
    assert(env.place_type(p) == ety);
    let d = tag_tells(env, t, dst, p, c1);
    takes_compose(s, t, u, c, c1, d);
    home_reads(env, c1, d, dst, truth(make is MakeErr));
    truth_is_kept(env, env.local_ty(dst), make is MakeErr);
    d
}

// ---------------------------------------------------------------------------
//  Values in places
// ---------------------------------------------------------------------------

/// The word of an operand is the same whatever stands in the registers that expressions are
/// computed in.
pub proof fn word_stays(env: A64Func, c: Core, d: Core, op: Operand)
    requires
        only_working(c, d),
    ensures
        scalar_word(env, d, op) == scalar_word(env, c, op),
{
    working_operand(env, c, d, op);
    if let Operand::Copy(p) = op {
        working_address(env, c, d, p, p.proj@.len() as usize);
        if p.proj@.len() > 0 {
            working_address(env, c, d, p, (p.proj@.len() as usize - 1) as usize);
        }
    }
}

proof fn working_operand(env: A64Func, c: Core, d: Core, op: Operand)
    requires
        only_working(c, d),
    ensures
        operand_word(env, d, op) == operand_word(env, c, op),
{
    reveal(local_word);
    assert(d.regs[29] == c.regs[29]);
}

/// The address of a place is the same whatever stands in those registers.
pub proof fn working_address(env: A64Func, c: Core, d: Core, p: Place, n: usize)
    requires
        only_working(c, d),
    ensures
        address_of(env, d, p, n) == address_of(env, c, p, n),
{
    assert(d.regs[29] == c.regs[29]);
    let home = c.reg(29) + env.home(p.base);
    if n > 0 && p.proj@[0] is Deref {
        working_steps(env, c, d, p, 1, n, fetch(c.mem, home, 8) as u64);
    } else {
        working_steps(env, c, d, p, 0, n, wrap64(home));
    }
}

proof fn working_steps(env: A64Func, c: Core, d: Core, p: Place, i: usize, n: usize, x: u64)
    requires
        only_working(c, d),
    ensures
        led(env, d, p, i, n, x) == led(env, c, p, i, n, x),
    decreases n - i,
{
    if i < n {
        if let Proj::Index { at, .. } = p.proj@[i as int] {
            working_operand(env, c, d, at);
        }
        if let Some(b) = stepped(env, c, p, i, x) {
            working_steps(env, c, d, p, (i + 1) as usize, n, b);
        }
    }
}

proof fn addressing_works(c: Core, d: Core, a: int)
    requires
        only_addressing(c, d, a),
        a == 9 || a == 16,
    ensures
        only_working(c, d),
{
    assert forall|r: int|
        0 <= r < 31 && !(9 <= r <= 13) && r != 15 && r != 16 && r != 17 implies #[trigger] d.regs[r]
        == c.regs[r] by {}
}

proof fn working_follows(c: Core, d: Core, e: Core)
    requires
        only_working(c, d),
        only_working(d, e),
    ensures
        only_working(c, e),
{
    assert forall|r: int|
        0 <= r < 31 && !(9 <= r <= 13) && r != 15 && r != 16 && r != 17 implies #[trigger] e.regs[r]
        == c.regs[r] by {
        assert(d.regs[r] == c.regs[r]);
    }
}

/// A scalar in any place that is assigned to a whole local is stored there, brought to the
/// width of the local.
#[verifier::spinoff_prover]
pub proof fn scalar_is_assigned(env: A64Func, s: A64Low, l: LocalId, op: Operand, c: Core) -> (d:
    Core)
    requires
        c.wf(),
        s.err is None,
        countable(op),
        scalar_word(env, c, op) is Some,
        in_space(c.reg(29) + env.home(l), 8),
    ensures
        takes(s, env.lower_scalar_rvalue(s, l, Rvalue::Use(op)), c, d),
        env.lower_scalar_rvalue(s, l, Rvalue::Use(op)).err is None,
        put_in_home(
            env,
            c,
            d,
            l,
            brought(env, scalar_word(env, c, op).unwrap() as int, env.local_ty(l)),
        ),
{
    let ty = env.local_ty(l);
    let t1 = env.operand_to(s, op, Reg(RES));
    let c1 = scalar_loads(env, s, op, Reg(RES), c);
    let t2 = env.normalize(t1, Reg(RES), ty);
    let c2 = normalizing_wraps(env, s, t1, Reg(RES), ty, c, c1);
    scalar_word_brought(env, c1.reg(9), ty);
    assert(c1.regs[29] == c.regs[29] && c2.regs[29] == c1.regs[29]);
    assert(env.lower_scalar_rvalue(s, l, Rvalue::Use(op)) == env.store_scalar(t2, l, Reg(RES)))
        by {
        reveal(A64Func::lower_scalar_rvalue);
    }
    let d = word_is_stored(env, s, t2, l, c, c2);
    assert forall|r: int|
        0 <= r < 31 && !(9 <= r <= 13) && r != 15 && r != 16 && r != 17 implies #[trigger] d.regs[r]
        == c.regs[r] by {
        assert(d.regs[r] == c2.regs[r]);
        assert(c2.regs[r] == c1.regs[r]);
        assert(c1.regs[r] == c.regs[r]);
    }
    d
}

/// The address of a place that is taken is the address that loads and stores of it use.
#[verifier::spinoff_prover]
pub proof fn address_is_taken(env: A64Func, s: A64Low, l: LocalId, p: Place, c: Core) -> (d: Core)
    requires
        c.wf(),
        s.err is None,
        countable(Operand::Copy(p)),
        address_of(env, c, p, p.proj@.len() as usize) is Some,
        in_space(c.reg(29) + env.home(l), 8),
    ensures
        takes(s, env.lower_scalar_rvalue(s, l, Rvalue::Ref { place: p }), c, d),
        env.lower_scalar_rvalue(s, l, Rvalue::Ref { place: p }).err is None,
        put_in_home(env, c, d, l, address_of(env, c, p, p.proj@.len() as usize).unwrap()),
{
    let n = p.proj@.len() as usize;
    let t1 = env.place_addr(s, p, n, Reg(RES));
    let c1 = address_is_right(env, s, p, n, Reg(RES), c);
    assert(c1.regs[29] == c.regs[29]);
    assert(env.lower_scalar_rvalue(s, l, Rvalue::Ref { place: p }) == env.store_scalar(
        t1,
        l,
        Reg(RES),
    )) by {
        reveal(A64Func::lower_scalar_rvalue);
    }
    let d = word_is_stored(env, s, t1, l, c, c1);
    assert forall|r: int|
        0 <= r < 31 && !(9 <= r <= 13) && r != 15 && r != 16 && r != 17 implies #[trigger] d.regs[r]
        == c.regs[r] by {
        assert(d.regs[r] == c1.regs[r]);
        assert(c1.regs[r] == c.regs[r]);
    }
    d
}

/// A scalar that is assigned to a part of a local is stored there, brought to the width of its
/// type, and as many bytes as its type has.
#[verifier::spinoff_prover]
pub proof fn scalar_goes_to_place(env: A64Func, s: A64Low, to: Place, op: Operand, c: Core) -> (d:
    Core)
    requires
        c.wf(),
        s.err is None,
        !env.in_memory(env.place_type(to)),
        countable(op),
        countable(Operand::Copy(to)),
        scalar_word(env, c, op) is Some,
        address_of(env, c, to, to.proj@.len() as usize) matches Some(a) && in_space(
            a as int,
            scalar_width(env, env.place_type(to)),
        ),
    ensures
        takes(s, env.lower_rvalue_to_place(s, to, Rvalue::Use(op)), c, d),
        env.lower_rvalue_to_place(s, to, Rvalue::Use(op)).err is None,
        kept_working(c, d),
        d.mem == patch(
            c.mem,
            address_of(env, c, to, to.proj@.len() as usize).unwrap() as int,
            scalar_width(env, env.place_type(to)),
            brought(env, scalar_word(env, c, op).unwrap() as int, env.place_type(to)) as int,
        ),
{
    let ty = env.place_type(to);
    let n = to.proj@.len() as usize;
    let t1 = env.operand_to(s, op, Reg(RES));
    let c1 = scalar_loads(env, s, op, Reg(RES), c);
    let t2 = env.normalize(t1, Reg(RES), ty);
    let c2 = normalizing_wraps(env, s, t1, Reg(RES), ty, c, c1);
    scalar_word_brought(env, c1.reg(9), ty);
    assert(only_working(c1, c2));
    working_follows(c, c1, c2);
    working_address(env, c, c2, to, n);
    let t3 = env.place_addr(t2, to, n, Reg(ADDR));
    let c3 = address_is_right(env, t2, to, n, Reg(ADDR), c2);
    takes_compose(s, t2, t3, c, c2, c3);
    addressing_works(c2, c3, 16);
    assert(c3.regs[9] == c2.regs[9]);
    assert(env.lower_rvalue_to_place(s, to, Rvalue::Use(op)) == env.store_sized(
        t3,
        Reg(ADDR),
        0,
        Reg(RES),
        ty,
    )) by {
        reveal(A64Func::lower_rvalue_to_place);
        reveal(A64Func::scalar_for_place);
    }
    reveal(A64Func::store_sized);
    let d = store_writes(env, s, t3, Reg(ADDR), 0, Reg(RES), ty, c, c3);
    assert forall|r: int|
        0 <= r < 31 && !(9 <= r <= 13) && r != 15 && r != 16 && r != 17 implies #[trigger] d.regs[r]
        == c.regs[r] by {
        assert(d.regs[r] == c3.regs[r]);
        assert(c3.regs[r] == c2.regs[r]);
        assert(c2.regs[r] == c.regs[r]);
    }
    d
}

/// An aggregate that is assigned to a part of a local is copied there whole.
#[verifier::spinoff_prover]
pub proof fn aggregate_goes_to_place(
    env: A64Func,
    s: A64Low,
    to: Place,
    from: Place,
    c: Core,
) -> (d:
    Core)
    requires
        c.wf(),
        s.err is None,
        env.in_memory(env.place_type(to)),
        env.layout(env.place_type(to)).size <= i64::MAX,
        countable(Operand::Copy(to)),
        countable(Operand::Copy(from)),
        address_of(env, c, from, from.proj@.len() as usize) is Some,
        address_of(env, c, to, to.proj@.len() as usize) is Some,
        ({
            let size = env.layout(env.place_type(to)).size;
            let a = address_of(env, c, from, from.proj@.len() as usize).unwrap() as int;
            let b = address_of(env, c, to, to.proj@.len() as usize).unwrap() as int;
            in_space(a, size as nat) && in_space(b, size as nat) && apart(b, a, size as int)
        }),
    ensures
        ({
            let u = env.lower_rvalue_to_place(s, to, Rvalue::Use(Operand::Copy(from)));
            takes(s, u, c, d) && u.err is None
        }),
        kept_working(c, d),
        copied(
            c.mem,
            d.mem,
            address_of(env, c, to, to.proj@.len() as usize).unwrap() as int,
            address_of(env, c, from, from.proj@.len() as usize).unwrap() as int,
            env.layout(env.place_type(to)).size as int,
        ),
{
    let size = env.layout(env.place_type(to)).size;
    let n = to.proj@.len() as usize;
    let t1 = env.place_addr(s, from, from.proj@.len() as usize, Reg(RES));
    let c1 = address_is_right(env, s, from, from.proj@.len() as usize, Reg(RES), c);
    addressing_works(c, c1, 9);
    working_address(env, c, c1, to, n);
    let t2 = env.place_addr(t1, to, n, Reg(ADDR));
    let c2 = address_is_right(env, t1, to, n, Reg(ADDR), c1);
    takes_compose(s, t1, t2, c, c1, c2);
    addressing_works(c1, c2, 16);
    working_follows(c, c1, c2);
    assert(c2.regs[9] == c1.regs[9]);
    let t3 = env.memcpy(t2, Reg(ADDR), Reg(RES), size);
    let d = copy_copies(env, t2, Reg(ADDR), Reg(RES), size, c2);
    takes_compose(s, t2, t3, c, c2, d);
    assert(env.lower_rvalue_to_place(s, to, Rvalue::Use(Operand::Copy(from))) == t3) by {
        reveal(A64Func::lower_rvalue_to_place);
        reveal(A64Func::aggregate_to_place);
    }
    assert forall|r: int|
        0 <= r < 31 && !(9 <= r <= 13) && r != 15 && r != 16 && r != 17 implies #[trigger] d.regs[r]
        == c.regs[r] by {
        assert(d.regs[r] == c2.regs[r]);
        assert(c2.regs[r] == c.regs[r]);
    }
    d
}

/// An aggregate that is used as a value is copied whole to the home of the destination.
#[verifier::spinoff_prover]
pub proof fn aggregate_is_copied(
    env: A64Func,
    s: A64Low,
    home: i32,
    p: Place,
    ty: TypeId,
    c: Core,
) -> (d: Core)
    requires
        c.wf(),
        s.err is None,
        countable(Operand::Copy(p)),
        env.in_memory(env.place_type(p)),
        env.layout(ty).size <= i64::MAX,
        address_of(env, c, p, p.proj@.len() as usize) matches Some(a) && in_space(
            a as int,
            env.layout(ty).size as nat,
        ) && apart(c.reg(29) + home, a as int, env.layout(ty).size as int),
        0 <= c.reg(29) + home < SPAN,
        in_space(c.reg(29) + home, env.layout(ty).size as nat),
    ensures
        takes(s, env.aggregate_use(s, home, Operand::Copy(p), ty), c, d),
        env.aggregate_use(s, home, Operand::Copy(p), ty).err is None,
        kept_working(c, d),
        copied(
            c.mem,
            d.mem,
            c.reg(29) + home,
            address_of(env, c, p, p.proj@.len() as usize).unwrap() as int,
            env.layout(ty).size as int,
        ),
{
    let n = p.proj@.len() as usize;
    let size = env.layout(ty).size;
    let t1 = env.place_addr(s, p, n, Reg(RES));
    let c1 = address_is_right(env, s, p, n, Reg(RES), c);
    assert(c1.regs[29] == c.regs[29]);
    let t2 = env.lea_home(t1, Reg(ADDR), home);
    reveal(A64Func::lea_home);
    let c2 = number_is_added(s, t1, Reg(ADDR), Reg(FP), home, c, c1);
    assert(c2.reg(9) == c1.reg(9) && c2.reg(16) == c.reg(29) + home);
    let t3 = env.memcpy(t2, Reg(ADDR), Reg(RES), size);
    let d = copy_copies(env, t2, Reg(ADDR), Reg(RES), size, c2);
    takes_compose(s, t2, t3, c, c2, d);
    assert(env.aggregate_use(s, home, Operand::Copy(p), ty) == t3) by {
        reveal(A64Func::aggregate_use);
    }
    assert forall|r: int|
        0 <= r < 31 && !(9 <= r <= 13) && r != 15 && r != 16 && r != 17 implies #[trigger] d.regs[r]
        == c.regs[r] by {
        assert(d.regs[r] == c2.regs[r]);
        assert(c2.regs[r] == c1.regs[r]);
        assert(c1.regs[r] == c.regs[r]);
    }
    d
}

/// A wide integer that is assigned to a whole local is stored there, low word first.
#[verifier::spinoff_prover]
pub proof fn wide_is_assigned(
    env: A64Func,
    s: A64Low,
    l: LocalId,
    op: Operand,
    c: Core,
) -> (d: Core)
    requires
        c.wf(),
        s.err is None,
        countable(op),
        wide_words(env, c, op) is Some,
        in_space(c.reg(29) + env.home(l), 16),
    ensures
        takes(s, env.lower_wide_rvalue(s, l, Rvalue::Use(op)), c, d),
        env.lower_wide_rvalue(s, l, Rvalue::Use(op)).err is None,
        kept_working(c, d),
        fetch(d.mem, c.reg(29) + env.home(l), 8) == wide_words(env, c, op).unwrap().0,
        fetch(d.mem, c.reg(29) + env.home(l) + 8, 8) == wide_words(env, c, op).unwrap().1,
        same_outside(c.mem, d.mem, c.reg(29) + env.home(l), 16),
{
    let t1 = env.eval_wide_operand(s, op, Reg(RES), Reg(S2));
    let c1 = wide_loads(env, s, op, c);
    assert(c1.regs[29] == c.regs[29]);
    assert(env.lower_wide_rvalue(s, l, Rvalue::Use(op)) == env.store_pair(
        t1,
        env.home(l),
        Reg(RES),
        Reg(S2),
    )) by {
        reveal(A64Func::lower_wide_rvalue);
    }
    let d = pair_is_stored(env, s, t1, env.home(l), c, c1);
    working_trans(c, c1, d);
    d
}

// ---------------------------------------------------------------------------
//  Slices
// ---------------------------------------------------------------------------

/// The pointer to the first element of what a slice is made of: a slice, an array or what a
/// pointer points to.
pub open spec fn data_pointer(env: A64Func, c: Core, ptr: Operand) -> Option<u64> {
    match ptr {
        Operand::Copy(p) => match env.ty(env.place_type(p)) {
            Type::Slice { .. } => match address_of(env, c, p, p.proj@.len() as usize) {
                Some(a) => if in_space(a as int, 8) {
                    Some(fetch(c.mem, a as int, 8) as u64)
                } else {
                    None
                },
                None => None,
            },
            Type::Array { .. } => address_of(env, c, p, p.proj@.len() as usize),
            _ => scalar_word(env, c, ptr),
        },
        Operand::Const(_) => None,
    }
}

#[verifier::spinoff_prover]
proof fn data_is_loaded(env: A64Func, s: A64Low, ptr: Operand, c: Core) -> (d: Core)
    requires
        c.wf(),
        s.err is None,
        countable(ptr),
        env.string_of(ptr) is None,
        data_pointer(env, c, ptr) is Some,
    ensures
        takes(s, env.slice_data_ptr(s, ptr, Reg(RES)), c, d),
        env.slice_data_ptr(s, ptr, Reg(RES)).err is None,
        Some(d.reg(9)) == data_pointer(env, c, ptr),
        only_working(c, d),
{
    reveal(A64Func::slice_data_ptr);
    let p = ptr->Copy_0;
    let n = p.proj@.len() as usize;
    match env.ty(env.place_type(p)) {
        Type::Slice { .. } => {
            let t1 = env.place_addr(s, p, n, Reg(ADDR));
            let c1 = address_is_right(env, s, p, n, Reg(ADDR), c);
            addressing_works(c, c1, 16);
            fetch_bounded(c.mem, c1.reg(16) as int, 8);
            pow256_values();
            let d = sized_load_reads(s, t1, Reg(RES), Reg(ADDR), 0, MemSize::X, c, c1);
            assert(only_working(c1, d));
            working_follows(c, c1, d);
            d
        },
        Type::Array { .. } => {
            let d = address_is_right(env, s, p, n, Reg(RES), c);
            addressing_works(c, d, 9);
            d
        },
        _ => scalar_loads(env, s, ptr, Reg(RES), c),
    }
}

/// The pointer of a slice that is made: that to the first element, and as often the size of an
/// element as the offset says.
pub open spec fn slice_start(
    env: A64Func,
    c: Core,
    ptr: Operand,
    offset: Operand,
    ty: TypeId,
) -> u64 {
    wrap64(
        data_pointer(env, c, ptr).unwrap() + scalar_word(env, c, offset).unwrap() * env.elem_bytes(
            ty,
        ),
    )
}

/// The code that multiplies by a stride.
pub open spec fn scaled_by(t: A64Low, stride: u64) -> A64Low {
    match log2_of(stride) {
        Some(sh) => if sh != 0 {
            t.on(t.text.lsl_imm(Reg(S2), Reg(S2), sh))
        } else {
            t
        },
        None => {
            let t = t.on(t.text.mov_imm(Reg(S3), stride as i64));
            t.on(t.text.mul(Reg(S2), Reg(S2), Reg(S3)))
        },
    }
}

#[verifier::spinoff_prover]
#[verifier::rlimit(40)]
proof fn scaling_multiplies(s: A64Low, t: A64Low, stride: u64, c: Core, d: Core) -> (e: Core)
    requires
        takes(s, t, c, d),
        d.wf(),
        stride <= i64::MAX,
    ensures
        takes(s, scaled_by(t, stride), c, e),
        scaled_by(t, stride).err == t.err,
        only_working(d, e),
        e.regs[9] == d.regs[9],
        e.reg(10) == wrap64(d.reg(10) * stride),
{
    reveal(act);
    let x = d.reg(10);
    match log2_of(stride) {
        Some(sh) => {
            logarithm(stride);
            if sh != 0 {
                let u = t.on(t.text.lsl_imm(Reg(S2), Reg(S2), sh));
                lsl_imm_does(t.text, Reg(S2), Reg(S2), sh);
                let z = Act::LeftImm { rd: 10, rn: 10, by: sh as int };
                adds_takes(s, t, u, z, c, d);
                assert(x * (pow2(sh as nat) as int) == x * stride) by (nonlinear_arith)
                    requires
                        pow2(sh as nat) == stride,
                ;
                act(z, d).unwrap()
            } else {
                lemma2_to64();
                assert(x * stride == x) by (nonlinear_arith)
                    requires
                        stride == 1,
                ;
                d
            }
        },
        None => {
            let t1 = t.on(t.text.mov_imm(Reg(S3), stride as i64));
            let d1 = number_is_loaded(s, t, Reg(S3), stride as i64, c, d);
            let u = t1.on(t1.text.mul(Reg(S2), Reg(S2), Reg(S3)));
            mul_does(t1.text, Reg(S2), Reg(S2), Reg(S3));
            let z = Act::TimesPlus { minus: false, rd: 10, rn: 10, rm: 11, ra: 31 };
            adds_takes(s, t1, u, z, c, d1);
            act(z, d1).unwrap()
        },
    }
}

/// A slice that is made holds the pointer to the element that it starts at, and the length that
/// it was given; no other bytes change.
#[verifier::spinoff_prover]
#[verifier::rlimit(60)]
pub proof fn slice_is_made(
    env: A64Func,
    s: A64Low,
    home: i32,
    ptr: Operand,
    offset: Operand,
    len: Operand,
    ty: TypeId,
    c: Core,
) -> (d: Core)
    requires
        c.wf(),
        s.err is None,
        countable(ptr),
        countable(offset),
        countable(len),
        env.string_of(ptr) is None,
        data_pointer(env, c, ptr) is Some,
        scalar_word(env, c, offset) is Some,
        scalar_word(env, c, len) is Some,
        env.elem_bytes(ty) <= i64::MAX,
        in_space(c.reg(29) + home, 16),
    ensures
        takes(s, env.build_make_slice(s, home, ptr, offset, len, ty), c, d),
        env.build_make_slice(s, home, ptr, offset, len, ty).err is None,
        kept_working(c, d),
        fetch(d.mem, c.reg(29) + home, 8) == slice_start(env, c, ptr, offset, ty),
        fetch(d.mem, c.reg(29) + home + 8, 8) == scalar_word(env, c, len).unwrap(),
        same_outside(c.mem, d.mem, c.reg(29) + home, 16),
{
    let k = env.elem_bytes(ty);
    let t1 = env.slice_data_ptr(s, ptr, Reg(RES));
    let c1 = data_is_loaded(env, s, ptr, c);
    word_stays(env, c, c1, offset);
    let t2 = env.operand_to(t1, offset, Reg(S2));
    let c2 = scalar_loads(env, t1, offset, Reg(S2), c1);
    takes_compose(s, t1, t2, c, c1, c2);
    working_follows(c, c1, c2);
    let t3 = scaled_by(t2, k);
    let c3 = scaling_multiplies(s, t2, k, c, c2);
    working_follows(c, c2, c3);
    let t4 = t3.on(t3.text.add(Reg(RES), Reg(RES), Reg(S2)));
    add_does(t3.text, Reg(RES), Reg(RES), Reg(S2));
    let z = Act::Binary { op: Alu::Plus, rd: 9, rn: 9, rm: 10 };
    assert(act(z, c3) == Some(c3.put(9, c3.reg(9) + c3.reg(10)))) by {
        reveal(act);
        reveal(combined);
    }
    adds_takes(s, t3, t4, z, c, c3);
    let c4 = c3.put(9, c3.reg(9) + c3.reg(10));
    assert(c4.reg(9) == slice_start(env, c, ptr, offset, ty)) by {
        product_wraps(c1.reg(9), c2.reg(10), k);
    }
    assert(only_working(c3, c4));
    working_follows(c, c3, c4);
    word_stays(env, c, c4, len);
    let t5 = env.operand_to(t4, len, Reg(S2));
    let c5 = scalar_loads(env, t4, len, Reg(S2), c4);
    takes_compose(s, t4, t5, c, c4, c5);
    working_follows(c, c4, c5);
    assert(c5.regs[29] == c.regs[29]);
    assert(env.build_make_slice(s, home, ptr, offset, len, ty) == env.store_pair(
        t5,
        home,
        Reg(RES),
        Reg(S2),
    )) by {
        reveal(A64Func::build_make_slice);
    }
    let d = pair_is_stored(env, s, t5, home, c, c5);
    working_trans(c, c5, d);
    d
}

} // verus!
