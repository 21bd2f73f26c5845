//! What lowered code does on the processor: numbers, memory and widths.
use vstd::prelude::*;

use crate::aarch64::encode::{
    A64State, MemSize, Reg, at_register, at_scaled, at_unscaled, lane, lane_value,
    mov_imm_builds_value, mov_words, movw, movw_fields, run_mov, run_movs, scaled, unscaled,
    word_bytes, word_bytes_len,
};
use crate::aarch64::lower::env::{A64Func, A64Low};
use crate::aarch64::machine::{Act, Core, act, loaded, read, run, run_one_more, stored};
use crate::aarch64::steps::{
    Access, access_act, access_at_act, added_runs, adds, index, lane_word, named, register_op,
    register_word, sbfm_does, scaled_op, scaled_word, ubfm_does, unscaled_op, unscaled_word,
    word_adds,
};
use crate::bytes::{le32, wrap64};
use crate::lower::effects::{low_bits, word_either_way};
use crate::machine::{SPAN, fetch, fetch_bounded, in_space, low_bytes, patch, pow256_values};
use crate::types::TypeId;

verus! {

/// Whether the code that `t` has beyond `s` takes `c` to `d`.
#[verifier::opaque]
pub open spec fn takes(s: A64Low, t: A64Low, c: Core, d: Core) -> bool {
    &&& s.text.code.len() <= t.text.code.len()
    &&& t.text.code.take(s.text.code.len() as int) == s.text.code
    &&& (t.text.code.len() - s.text.code.len()) % 4 == 0
    &&& t.text.branches == s.text.branches
    &&& run(t.text.code, s.text.code.len(), c) == Some(d)
}

pub(crate) proof fn takes_nothing(s: A64Low, c: Core)
    ensures
        takes(s, s, c, c),
{
    reveal(takes);
    assert(s.text.code.take(s.text.code.len() as int) =~= s.text.code);
}

pub(crate) proof fn adds_takes(s: A64Low, t: A64Low, u: A64Low, a: Act, c: Core, d: Core)
    requires
        takes(s, t, c, d),
        adds(t.text, u.text, a),
        act(a, d) is Some,
    ensures
        takes(s, u, c, act(a, d).unwrap()),
{
    reveal(takes);
    reveal(adds);
    added_runs(t.text, u.text, a, s.text.code.len(), c);
    let n = s.text.code.len() as int;
    let k = t.text.code.len() as int;
    assert(u.text.code.take(n) =~= u.text.code.take(k).take(n));
}

/// Whether nothing changed but two registers.
pub open spec fn only_regs(c: Core, d: Core, a: int, b: int) -> bool {
    &&& d.wf()
    &&& d.mem == c.mem
    &&& d.sp == c.sp
    &&& forall|r: int| 0 <= r < 31 && r != a && r != b ==> #[trigger] d.regs[r] == c.regs[r]
}

// ---------------------------------------------------------------------------
//  Numbers
// ---------------------------------------------------------------------------

/// Whether a word moves sixteen bits into `rd`.
pub open spec fn is_lane(w: u32, rd: Reg) -> bool {
    read(w) == (Act::Lane {
        keep: w & 0x2000_0000 != 0,
        rd: index(rd),
        value: ((w >> 5) & 0xFFFF) as int,
        part: ((w >> 21) & 3) as int,
    }) && (w >> 5) & 0xFFFF <= 0xFFFF
}

proof fn movs_append(before: int, ws: Seq<u32>, w: u32)
    ensures
        run_movs(before, ws.push(w)) == run_mov(run_movs(before, ws), w),
    decreases ws.len(),
{
    if ws.len() == 0 {
        assert(ws.push(w).skip(1) =~= Seq::<u32>::empty());
        assert(run_movs(run_mov(before, w), ws.push(w).skip(1)) == run_mov(before, w));
    } else {
        assert(ws.push(w).skip(1) =~= ws.skip(1).push(w));
        movs_append(run_mov(before, ws[0]), ws.skip(1), w);
    }
}

proof fn lane_in_range(before: int, keep: bool, v: int, part: int)
    requires
        0 <= before < SPAN,
        0 <= v <= 0xFFFF,
        0 <= part < 4,
    ensures
        0 <= lane_value(before, keep, v, part) < SPAN,
{
    if keep {
        if part == 0 {
            assert(before / 1 == before);
        } else if part == 1 {
            second_lane(before, v);
        } else if part == 2 {
            third_lane(before, v);
        } else {
            let q = before / 0x1_0000_0000_0000;
            assert(q % 0x1_0000 == q);
        }
    }
}

proof fn second_lane(before: int, v: int)
    requires
        0 <= before < SPAN,
        0 <= v <= 0xFFFF,
    ensures
        0 <= before - before / 0x1_0000 % 0x1_0000 * 0x1_0000 + v * 0x1_0000 < SPAN,
{
    let q = before / 0x1_0000;
    let l = q % 0x1_0000;
    let h = q / 0x1_0000;
    assert(q == 0x1_0000 * h + l);
    assert(h <= 0xFFFF_FFFF);
    assert(before < 0x1_0000 * q + 0x1_0000);
}

proof fn third_lane(before: int, v: int)
    requires
        0 <= before < SPAN,
        0 <= v <= 0xFFFF,
    ensures
        0 <= before - before / 0x1_0000_0000 % 0x1_0000 * 0x1_0000_0000 + v * 0x1_0000_0000 < SPAN,
{
    let q = before / 0x1_0000_0000;
    let l = q % 0x1_0000;
    let h = q / 0x1_0000;
    assert(q == 0x1_0000 * h + l);
    assert(h <= 0xFFFF);
    assert(before < 0x1_0000_0000 * q + 0x1_0000_0000);
}

#[verifier::spinoff_prover]
#[verifier::rlimit(40)]
proof fn movs_run(code: Seq<u8>, ws: Seq<u32>, rd: Reg, n: nat, c: Core, d: Core)
    requires
        n <= code.len(),
        run(code, n, c) == Some(d),
        d.wf(),
        rd.0 < 31,
        forall|i: int| 0 <= i < ws.len() ==> is_lane(#[trigger] ws[i], rd),
    ensures
        0 <= run_movs(d.reg(index(rd)) as int, ws) < SPAN,
        run(code + word_bytes(ws), n, c) == Some(
            d.put(index(rd), run_movs(d.reg(index(rd)) as int, ws)),
        ),
    decreases ws.len(),
{
    if ws.len() == 0 {
        assert(code + word_bytes(ws) =~= code);
        assert(d.put(index(rd), d.reg(index(rd)) as int).regs =~= d.regs);
    } else {
        let w = ws.last();
        let us = ws.drop_last();
        assert forall|i: int| 0 <= i < us.len() implies is_lane(#[trigger] us[i], rd) by {
            assert(us[i] == ws[i]);
        }
        movs_run(code, us, rd, n, c, d);
        let before = run_movs(d.reg(index(rd)) as int, us);
        assert(us.push(w) =~= ws);
        movs_append(d.reg(index(rd)) as int, us, w);
        assert(is_lane(ws[ws.len() - 1], rd));
        three_bits(w);
        lane_in_range(
            before,
            w & 0x2000_0000 != 0,
            ((w >> 5) & 0xFFFF) as int,
            ((w >> 21) & 3) as int,
        );
        assert(code + word_bytes(ws) =~= (code + word_bytes(us)) + le32(w));
        run_one_more(code + word_bytes(us), w, n, c);
        reveal(act);
        let e = d.put(index(rd), before);
        assert(e.put(index(rd), run_mov(before, w)).regs =~= d.put(
            index(rd),
            run_mov(before, w),
        ).regs);
    }
}

proof fn three_bits(w: u32)
    ensures
        (w >> 21) & 3 < 4,
{
    assert((w >> 21) & 3 < 4) by (bit_vector);
}

proof fn words_are_lanes(rd: Reg, u: u64, i: int, started: bool)
    requires
        named(rd),
        0 <= i <= 4,
    ensures
        forall|k: int|
            0 <= k < mov_words(rd, u, i, started).len() ==> is_lane(
                #[trigger] mov_words(rd, u, i, started)[k],
                rd,
            ),
    decreases 4 - i,
{
    let ws = mov_words(rd, u, i, started);
    if i >= 4 {
        if !started {
            lane_is_lane(false, rd, 0, 0);
            let w = movw(0xD280_0000, rd, 0, 0);
            assert(is_lane(w, rd));
            assert(ws == seq![w]);
            assert forall|k: int| 0 <= k < ws.len() implies is_lane(#[trigger] ws[k], rd) by {
                assert(ws[k] == w);
            }
        }
    } else if lane(u, i) == 0 {
        words_are_lanes(rd, u, i + 1, started);
        assert(ws == mov_words(rd, u, i + 1, started));
    } else {
        words_are_lanes(rd, u, i + 1, true);
        lane_is_lane(started, rd, lane(u, i), i as u8);
        assert forall|k: int| 0 <= k < ws.len() implies is_lane(#[trigger] ws[k], rd) by {
            if k == 0 {
                assert(ws[0] == movw(
                    if started {
                        0xF280_0000
                    } else {
                        0xD280_0000
                    },
                    rd,
                    lane(u, i),
                    i as u8,
                ));
            } else {
                assert(ws[k] == mov_words(rd, u, i + 1, true)[k - 1]);
            }
        }
    }
}

proof fn lane_is_lane(keep: bool, rd: Reg, v: u16, part: u8)
    requires
        named(rd),
        part < 4,
    ensures
        is_lane(
            movw(
                if keep {
                    0xF280_0000
                } else {
                    0xD280_0000
                },
                rd,
                v,
                part,
            ),
            rd,
        ),
{
    lane_word(keep, rd, v, part);
    movw_fields(rd, v, part);
}

proof fn words_take(s: A64Low, t: A64Low, ws: Seq<u32>, c: Core, d: Core, e: Core)
    requires
        takes(s, t, c, d),
        run(t.text.code + word_bytes(ws), s.text.code.len(), c) == Some(e),
    ensures
        takes(s, t.on(t.text.words(ws)), c, e),
{
    reveal(takes);
    word_bytes_len(ws);
    let u = t.on(t.text.words(ws));
    let n = s.text.code.len() as int;
    let k = t.text.code.len() as int;
    assert(u.text.code.take(k) =~= t.text.code);
    assert(u.text.code.take(n) =~= u.text.code.take(k).take(n));
}

/// Loading a number leaves it in the register, whatever it held before.
pub proof fn number_is_loaded(s: A64Low, t: A64Low, rd: Reg, v: i64, c: Core, d: Core) -> (e: Core)
    requires
        takes(s, t, c, d),
        d.wf(),
        rd.0 < 31,
    ensures
        takes(s, t.on(t.text.mov_imm(rd, v)), c, e),
        e == d.put(index(rd), wrap64(v as int) as int),
{
    let ws = mov_words(rd, wrap64(v as int), 0, false);
    let e = d.put(index(rd), wrap64(v as int) as int);
    words_are_lanes(rd, wrap64(v as int), 0, false);
    assert(run(t.text.code, s.text.code.len(), c) == Some(d) && s.text.code.len()
        <= t.text.code.len()) by {
        reveal(takes);
    }
    movs_run(t.text.code, ws, rd, s.text.code.len(), c, d);
    mov_imm_builds_value(rd, v, d.reg(index(rd)) as int);
    assert(t.text.mov_imm(rd, v) == t.text.words(ws)) by {
        reveal(A64State::mov_imm);
    }
    words_take(s, t, ws, c, d, e);
    e
}

// ---------------------------------------------------------------------------
//  Loads and stores
// ---------------------------------------------------------------------------

/// What a load or store at an address leaves.
pub open spec fn accessed(k: Access, c: Core, size: MemSize, rt: Reg, a: int) -> Option<Core> {
    match k {
        Access::Store => stored(c, size, index(rt), a),
        Access::Load => loaded(c, false, size, index(rt), a),
        Access::LoadSigned => loaded(c, true, size, index(rt), a),
    }
}

/// A load or store at a displacement from a register is at the address that is the sum of the
/// two, in whichever form it is encoded; the form with the largest reach needs `x17`. As a
/// base the last register is the stack pointer, and as a value it is zero.
#[verifier::spinoff_prover]
pub proof fn access_is_right(
    s: A64Low,
    t: A64Low,
    k: Access,
    rt: Reg,
    rn: Reg,
    off: i64,
    size: MemSize,
    c: Core,
    d: Core,
) -> (e: Core)
    requires
        takes(s, t, c, d),
        d.wf(),
        named(rt),
        named(rn),
        rt.0 != 17,
        rn.0 != 17,
        k is LoadSigned ==> size != MemSize::X,
        in_space(d.base(index(rn)) + off, size.width() as nat),
    ensures
        takes(
            s,
            t.on(
                t.text.access(scaled_op(k), unscaled_op(k), register_op(k), rt, rn, off, size),
            ),
            c,
            e,
        ),
        exists|f: Core| #[trigger]
            only_regs(d, f, 17, 17) && accessed(k, f, size, rt, d.base(index(rn)) + off) == Some(e),
{
    let u = t.on(t.text.access(scaled_op(k), unscaled_op(k), register_op(k), rt, rn, off, size));
    let a = d.base(index(rn)) + off;
    match scaled(off, size) {
        Some(i) => {
            scaled_word(k, size, i, rn, rt);
            scaled_offset(off, size);
            word_adds(t.text, u.text, at_scaled(scaled_op(k), size, i, rn, rt));
            let b = access_act(k, size, rt, rn, off as int);
            assert(act(b, d) == accessed(k, d, size, rt, a)) by {
                reveal(act);
            }
            adds_takes(s, t, u, b, c, d);
            assert(only_regs(d, d, 17, 17));
            act(b, d).unwrap()
        },
        None => match unscaled(off) {
            Some(i) => {
                unscaled_word(k, size, off, rn, rt);
                word_adds(t.text, u.text, at_unscaled(unscaled_op(k), size, i, rn, rt));
                let b = access_act(k, size, rt, rn, off as int);
                assert(act(b, d) == accessed(k, d, size, rt, a)) by {
                    reveal(act);
                }
                adds_takes(s, t, u, b, c, d);
                assert(only_regs(d, d, 17, 17));
                act(b, d).unwrap()
            },
            None => {
                let x = Reg(17);
                let t1 = t.on(t.text.mov_imm(x, off));
                let d1 = number_is_loaded(s, t, x, off, c, d);
                register_word(k, size, x, rn, rt);
                word_adds(t1.text, u.text, at_register(register_op(k), size, x, rn, rt));
                let b = access_at_act(k, size, rt, rn, x);
                assert(d1.base(index(rn)) == d.base(index(rn)));
                assert(d1.reg(17) == wrap64(off as int));
                offset_wraps(d.base(index(rn)), off);
                assert(act(b, d1) == accessed(k, d1, size, rt, a)) by {
                    reveal(act);
                }
                adds_takes(s, t1, u, b, c, d1);
                assert(only_regs(d, d1, 17, 17));
                act(b, d1).unwrap()
            },
        },
    }
}

proof fn scaled_offset(off: i64, size: MemSize)
    requires
        scaled(off, size) is Some,
    ensures
        scaled(off, size).unwrap() * size.width() == off,
        scaled(off, size).unwrap() <= 0xFFF,
{
    match size {
        MemSize::B => {
            assert(off / 1 * 1 == off);
        },
        MemSize::H => {
            assert(off / 2 * 2 == off);
        },
        MemSize::W => {
            assert(off / 4 * 4 == off);
        },
        MemSize::X => {
            assert(off / 8 * 8 == off);
        },
    }
}

proof fn offset_wraps(a: u64, off: i64)
    requires
        0 <= a + off < SPAN,
    ensures
        wrap64(a + wrap64(off as int)) == a + off,
{
}

/// A store writes as many bytes as a value of its type has.
pub proof fn store_writes(
    env: A64Func,
    s: A64Low,
    t: A64Low,
    base: Reg,
    disp: i32,
    src: Reg,
    ty: TypeId,
    c: Core,
    d: Core,
) -> (e: Core)
    requires
        takes(s, t, c, d),
        d.wf(),
        base.0 < 31,
        src.0 < 31,
        base.0 != 17,
        src.0 != 17,
        in_space(d.reg(index(base)) + disp, env.mem_size(ty).width() as nat),
    ensures
        takes(s, env.store_sized(t, base, disp, src, ty), c, e),
        e.wf(),
        e.sp == d.sp,
        forall|r: int| 0 <= r < 31 && r != 17 ==> #[trigger] e.regs[r] == d.regs[r],
        e.mem == patch(
            d.mem,
            d.reg(index(base)) + disp,
            env.mem_size(ty).width() as nat,
            d.reg(index(src)) as int,
        ),
{
    reveal(A64Func::store_sized);
    reveal(A64State::store);
    access_is_right(s, t, Access::Store, src, base, disp as i64, env.mem_size(ty), c, d)
}

/// A load reads as many bytes as a value of its type has, extended as the type is signed.
pub proof fn load_reads(
    env: A64Func,
    s: A64Low,
    t: A64Low,
    dst: Reg,
    base: Reg,
    disp: i32,
    ty: TypeId,
    c: Core,
    d: Core,
) -> (e: Core)
    requires
        takes(s, t, c, d),
        d.wf(),
        base.0 < 31,
        dst.0 < 31,
        base.0 != 17,
        dst.0 != 17,
        in_space(d.reg(index(base)) + disp, env.mem_size(ty).width() as nat),
    ensures
        takes(s, env.load_sized(t, dst, base, disp, ty), c, e),
        only_regs(d, e, index(dst), 17),
        e.reg(index(dst)) == wrap64(
            low_bytes(
                fetch(d.mem, d.reg(index(base)) + disp, env.mem_size(ty).width() as nat),
                env.mem_size(ty).width() as nat,
                env.repr_of(ty).signed,
            ),
        ),
{
    reveal(A64Func::load_sized);
    reveal(A64State::load_signed);
    reveal(A64State::load);
    let size = env.mem_size(ty);
    let a = d.reg(index(base)) + disp;
    if env.repr_of(ty).signed && size != MemSize::X {
        access_is_right(s, t, Access::LoadSigned, dst, base, disp as i64, size, c, d)
    } else {
        if size == MemSize::X {
            fetch_bounded(d.mem, a, 8);
            pow256_values();
            word_either_way(fetch(d.mem, a, 8));
        }
        access_is_right(s, t, Access::Load, dst, base, disp as i64, size, c, d)
    }
}

// ---------------------------------------------------------------------------
//  Widths
// ---------------------------------------------------------------------------

/// Bringing a register to the width of an integer type keeps the low bits of its value,
/// extended as the type is signed or not, and changes nothing else.
pub proof fn normalizing_wraps(
    env: A64Func,
    s: A64Low,
    t: A64Low,
    dst: Reg,
    ty: TypeId,
    c: Core,
    d: Core,
) -> (e: Core)
    requires
        takes(s, t, c, d),
        d.wf(),
        dst.0 < 31,
    ensures
        takes(s, env.normalize(t, dst, ty), c, e),
        env.normalize(t, dst, ty).err == t.err,
        only_regs(d, e, index(dst), index(dst)),
        e.reg(index(dst)) == (if 1 <= env.repr_of(ty).width < 64 {
            wrap64(
                low_bits(
                    d.reg(index(dst)) as int,
                    env.repr_of(ty).width as nat,
                    env.repr_of(ty).signed,
                ),
            )
        } else {
            d.reg(index(dst))
        }),
{
    reveal(A64Func::normalize);
    let r = env.repr_of(ty);
    let u = env.normalize(t, dst, ty);
    if r.width == 0 || r.width >= 64 {
        d
    } else {
        let k = (r.width - 1) as u8;
        let a = Act::Low { signed: r.signed, rd: index(dst), rn: index(dst), width: k + 1 };
        if r.signed {
            sbfm_does(t.text, dst, dst, 0, k);
        } else {
            ubfm_does(t.text, dst, dst, 0, k);
        }
        reveal(act);
        adds_takes(s, t, u, a, c, d);
        act(a, d).unwrap()
    }
}

} // verus!
