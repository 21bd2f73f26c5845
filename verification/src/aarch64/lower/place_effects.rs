//! What the code for places does: which address it computes, and what it loads from there.
use vstd::prelude::*;

use crate::aarch64::encode::{A64State, FP, MemSize, Reg};
use crate::aarch64::lower::blocks::takes_compose;
use crate::aarch64::lower::effects::{
    access_is_right, adds_takes, load_reads, number_is_loaded, only_regs, takes, takes_nothing,
};
use crate::aarch64::lower::env::{A64Func, A64Low, ADDR, S4, S5};
use crate::aarch64::lower::simulation::{local_word, operand_loads, operand_word, scalar_width};
use crate::aarch64::lower::value::FinalStep;
use crate::aarch64::machine::{Act, Alu, Core, act, combined};
use crate::aarch64::steps::{
    Access, add_does, add_ext_does, add_far_does, add_imm_does, add_lsl_does, index, mul_does,
    shifted_act, sub_imm_does,
};
use crate::bytes::wrap64;
use crate::lower::arith_effects::same_word;
use crate::lower::mem_effects::fetched_is_word;
use crate::lower::scalar::log2_of;
use crate::lower::word_effects::logarithm;
use crate::machine::{SPAN, fetch, fetch_bounded, in_space, low_bytes, patch, pow256_values};
use crate::mir::{Operand, Place, Proj, SliceMeta};
use vstd::arithmetic::div_mod::lemma_fundamental_div_mod;
use vstd::arithmetic::power2::{lemma2_to64, pow2};

verus! {

// ---------------------------------------------------------------------------
//  Sums with numbers
// ---------------------------------------------------------------------------

proof fn far_number(v: u32)
    requires
        v % 0x1000 == 0,
    ensures
        v / 0x1000 * 0x1000 == v,
{
}

/// The sum of a register and a number that is not negative.
#[verifier::spinoff_prover]
pub proof fn positive_is_added(
    s: A64Low,
    t: A64Low,
    rd: Reg,
    rn: Reg,
    v: u32,
    c: Core,
    d: Core,
) -> (e:
    Core)
    requires
        takes(s, t, c, d),
        d.wf(),
        rd.0 < 31,
        rn.0 < 31,
        rd.0 != 15,
        rn.0 != 15,
    ensures
        takes(s, t.on(t.text.add_imm_pos(rd, rn, v)), c, e),
        only_regs(d, e, index(rd), 15),
        e.reg(index(rd)) == wrap64(d.reg(index(rn)) + v),
{
    reveal(A64State::add_imm_pos);
    reveal(act);
    let u = t.on(t.text.add_imm_pos(rd, rn, v));
    if v <= 0xFFF {
        let a = Act::PlusImm { rd: index(rd), rn: index(rn), value: v as int };
        add_imm_does(t.text, rd, rn, v);
        adds_takes(s, t, u, a, c, d);
        act(a, d).unwrap()
    } else if v % 0x1000 == 0 && v / 0x1000 <= 0xFFF {
        far_number(v);
        let a = Act::PlusImm { rd: index(rd), rn: index(rn), value: v as int };
        add_far_does(t.text, rd, rn, v / 0x1000);
        adds_takes(s, t, u, a, c, d);
        act(a, d).unwrap()
    } else {
        let t1 = t.on(t.text.mov_imm(Reg(15), v as i64));
        let d1 = number_is_loaded(s, t, Reg(15), v as i64, c, d);
        let a = Act::PlusBase { rd: index(rd), rn: index(rn), rm: 15 };
        add_ext_does(t1.text, rd, rn, Reg(15));
        adds_takes(s, t1, u, a, c, d1);
        act(a, d1).unwrap()
    }
}

/// The sum of a register and a number.
#[verifier::spinoff_prover]
pub proof fn number_is_added(
    s: A64Low,
    t: A64Low,
    rd: Reg,
    rn: Reg,
    v: i32,
    c: Core,
    d: Core,
) -> (e:
    Core)
    requires
        takes(s, t, c, d),
        d.wf(),
        rd.0 < 31,
        rn.0 < 31,
        rd.0 != 15,
        rn.0 != 15,
    ensures
        takes(s, t.on(t.text.add_imm_to(rd, rn, v)), c, e),
        only_regs(d, e, index(rd), 15),
        e.reg(index(rd)) == wrap64(d.reg(index(rn)) + v),
{
    reveal(A64State::add_imm_to);
    reveal(act);
    let u = t.on(t.text.add_imm_to(rd, rn, v));
    if v >= 0 {
        positive_is_added(s, t, rd, rn, v as u32, c, d)
    } else if -v <= 0xFFF {
        let a = Act::PlusImm { rd: index(rd), rn: index(rn), value: v as int };
        sub_imm_does(t.text, rd, rn, (-v) as u32);
        adds_takes(s, t, u, a, c, d);
        act(a, d).unwrap()
    } else {
        let t1 = t.on(t.text.mov_imm(Reg(15), v as i64));
        let d1 = number_is_loaded(s, t, Reg(15), v as i64, c, d);
        let a = Act::PlusBase { rd: index(rd), rn: index(rn), rm: 15 };
        add_ext_does(t1.text, rd, rn, Reg(15));
        adds_takes(s, t1, u, a, c, d1);
        negative_wraps(d.reg(index(rn)), v);
        act(a, d1).unwrap()
    }
}

proof fn negative_wraps(x: u64, v: i32)
    requires
        v < 0,
    ensures
        wrap64(x + wrap64(v as int)) == wrap64(x + v),
{
}

// ---------------------------------------------------------------------------
//  Loads and stores of a size
// ---------------------------------------------------------------------------

/// A load of a size reads that many bytes and clears the rest of the register.
pub proof fn sized_load_reads(
    s: A64Low,
    t: A64Low,
    dst: Reg,
    base: Reg,
    off: i64,
    size: MemSize,
    c: Core,
    d: Core,
) -> (e: Core)
    requires
        takes(s, t, c, d),
        d.wf(),
        base.0 < 31,
        dst.0 < 31,
        base.0 != 17,
        dst.0 != 17,
        in_space(d.reg(index(base)) + off, size.width() as nat),
    ensures
        takes(s, t.on(t.text.load(dst, base, off, size)), c, e),
        only_regs(d, e, index(dst), 17),
        e.reg(index(dst)) == fetch(d.mem, d.reg(index(base)) + off, size.width() as nat),
{
    reveal(A64State::load);
    fetched_is_word(d.mem, d.reg(index(base)) + off, size.width() as nat);
    access_is_right(s, t, Access::Load, dst, base, off, size, c, d)
}

/// A store of a size writes that many of the low bytes of a register.
pub proof fn sized_store_writes(
    s: A64Low,
    t: A64Low,
    src: Reg,
    base: Reg,
    off: i64,
    size: MemSize,
    c: Core,
    d: Core,
) -> (e: Core)
    requires
        takes(s, t, c, d),
        d.wf(),
        base.0 < 31,
        src.0 < 31,
        base.0 != 17,
        src.0 != 17,
        in_space(d.reg(index(base)) + off, size.width() as nat),
    ensures
        takes(s, t.on(t.text.store(src, base, off, size)), c, e),
        e.wf(),
        e.sp == d.sp,
        forall|r: int| 0 <= r < 31 && r != 17 ==> #[trigger] e.regs[r] == d.regs[r],
        e.mem == patch(
            d.mem,
            d.reg(index(base)) + off,
            size.width() as nat,
            d.reg(index(src)) as int,
        ),
{
    reveal(A64State::store);
    access_is_right(s, t, Access::Store, src, base, off, size, c, d)
}

// ---------------------------------------------------------------------------
//  Addresses
// ---------------------------------------------------------------------------

/// Whether nothing changed but a register and those that addresses are computed in.
pub open spec fn only_addressing(c: Core, d: Core, a: int) -> bool {
    &&& d.wf()
    &&& d.mem == c.mem
    &&& d.sp == c.sp
    &&& forall|r: int|
        0 <= r < 31 && r != a && r != 12 && r != 13 && r != 15 && r != 17 ==> #[trigger] d.regs[r]
            == c.regs[r]
}

proof fn addressing_trans(c: Core, d: Core, e: Core, a: int)
    requires
        only_addressing(c, d, a),
        only_addressing(d, e, a),
    ensures
        only_addressing(c, e, a),
{
    assert forall|r: int|
        0 <= r < 31 && r != a && r != 12 && r != 13 && r != 15 && r != 17 implies #[trigger] e.regs[r]
        == c.regs[r] by {
        assert(d.regs[r] == c.regs[r]);
    }
}

/// The address that a step of a place leads to from an address.
pub open spec fn stepped(env: A64Func, c: Core, place: Place, i: usize, a: u64) -> Option<u64> {
    match place.proj@[i as int] {
        Proj::Deref => if in_space(a as int, 8) {
            Some(fetch(c.mem, a as int, 8) as u64)
        } else {
            None
        },
        Proj::Field { index, .. } => {
            let off = env.field_offset(env.walked(place, i), index as usize);
            if off <= u32::MAX {
                Some(wrap64(a + off))
            } else {
                None
            }
        },
        Proj::Index { at, .. } => {
            let stride = env.elem_bytes(env.walked(place, i));
            match operand_word(env, c, at) {
                Some(x) => if stride <= i64::MAX {
                    Some(wrap64(a + x * stride))
                } else {
                    None
                },
                None => None,
            }
        },
        Proj::SliceMeta { which, .. } => Some(
            match which {
                SliceMeta::Ptr => a,
                SliceMeta::Len => wrap64(a + 8),
            },
        ),
        Proj::Payload { ty } => Some(wrap64(a + env.payload_start(ty))),
    }
}

/// The address that the steps from the `i`-th up to the `n`-th lead to from an address.
pub open spec fn led(env: A64Func, c: Core, place: Place, i: usize, n: usize, a: u64) -> Option<u64>
    decreases n - i,
{
    if i < n {
        match stepped(env, c, place, i, a) {
            Some(b) => led(env, c, place, (i + 1) as usize, n, b),
            None => None,
        }
    } else {
        Some(a)
    }
}

/// The address of what the first `n` steps of a place reach.
pub open spec fn address_of(env: A64Func, c: Core, place: Place, n: usize) -> Option<u64> {
    let home = c.reg(29) + env.home(place.base);
    if n > 0 && place.proj@[0] is Deref {
        if in_space(home, 8) {
            led(env, c, place, 1, n, fetch(c.mem, home, 8) as u64)
        } else {
            None
        }
    } else {
        led(env, c, place, 0, n, wrap64(home))
    }
}

/// Whether a register can hold an address that is computed.
pub open spec fn holds_address(r: Reg) -> bool {
    r.0 < 29 && r.0 != 12 && r.0 != 13 && r.0 != 15 && r.0 != 17
}

proof fn operand_stays(env: A64Func, c: Core, d: Core, op: Operand, a: int)
    requires
        only_addressing(c, d, a),
        a != 29,
    ensures
        operand_word(env, d, op) == operand_word(env, c, op),
        d.regs[29] == c.regs[29],
{
    reveal(local_word);
    assert(d.regs[29] == c.regs[29]);
}

proof fn step_stays(env: A64Func, c: Core, d: Core, place: Place, i: usize, x: u64, a: int)
    requires
        only_addressing(c, d, a),
        a != 29,
    ensures
        stepped(env, d, place, i, x) == stepped(env, c, place, i, x),
{
    if let Proj::Index { at, .. } = place.proj@[i as int] {
        operand_stays(env, c, d, at, a);
    }
}

proof fn steps_stay(
    env: A64Func,
    c: Core,
    d: Core,
    place: Place,
    i: usize,
    n: usize,
    x: u64,
    a: int,
)
    requires
        only_addressing(c, d, a),
        a != 29,
    ensures
        led(env, d, place, i, n, x) == led(env, c, place, i, n, x),
    decreases n - i,
{
    if i < n {
        step_stays(env, c, d, place, i, x, a);
        if let Some(b) = stepped(env, c, place, i, x) {
            steps_stay(env, c, d, place, (i + 1) as usize, n, b, a);
        }
    }
}

/// An address is the same whatever stands in the registers that addresses are computed in.
pub proof fn address_stays(env: A64Func, c: Core, d: Core, place: Place, n: usize, a: int)
    requires
        only_addressing(c, d, a),
        a != 29,
    ensures
        address_of(env, d, place, n) == address_of(env, c, place, n),
{
    assert(d.regs[29] == c.regs[29]);
    let home = c.reg(29) + env.home(place.base);
    if n > 0 && place.proj@[0] is Deref {
        steps_stay(env, c, d, place, 1, n, fetch(c.mem, home, 8) as u64, a);
    } else {
        steps_stay(env, c, d, place, 0, n, wrap64(home), a);
    }
}

proof fn scaled_index(x: u64, stride: u64, sh: u8)
    requires
        log2_of(stride) == Some(sh),
    ensures
        sh < 64,
        pow2(sh as nat) == stride,
{
    logarithm(stride);
}

pub(crate) proof fn product_wraps(a: u64, x: u64, stride: u64)
    ensures
        wrap64(a + wrap64(x * stride)) == wrap64(a + x * stride),
{
    let p = x * stride;
    let k = SPAN as int;
    lemma_fundamental_div_mod(p, k);
    assert(p / k * k == k * (p / k)) by (nonlinear_arith);
    same_word(a + p, a + wrap64(p), p / k);
}

/// The code of an index adds as often the stride of the elements as the index says.
#[verifier::spinoff_prover]
#[verifier::rlimit(40)]
proof fn index_is_right(
    env: A64Func,
    t: A64Low,
    place: Place,
    i: usize,
    dst: Reg,
    d: Core,
) -> (e: Core)
    requires
        d.wf(),
        t.err is None,
        holds_address(dst),
        i < place.proj@.len(),
        place.proj@[i as int] is Index,
        stepped(env, d, place, i, d.reg(index(dst))) is Some,
    ensures
        takes(t, env.place_step(t, place, i, dst), d, e),
        env.place_step(t, place, i, dst).err is None,
        only_addressing(d, e, index(dst)),
        Some(e.reg(index(dst))) == stepped(env, d, place, i, d.reg(index(dst))),
{
    let at = place.proj@[i as int]->Index_at;
    let stride = env.elem_bytes(env.walked(place, i));
    let x = operand_word(env, d, at).unwrap();
    let a = d.reg(index(dst));
    takes_nothing(t, d);
    let t1 = env.operand_to(t, at, Reg(S5));
    let d1 = operand_loads(env, t, t, at, Reg(S5), d, d);
    assert(d1.reg(13) == x && d1.reg(index(dst)) == a);
    reveal(act);
    match log2_of(stride) {
        Some(sh) => {
            scaled_index(x, stride, sh);
            let u = t1.on(t1.text.add_lsl(dst, dst, Reg(S5), sh));
            add_lsl_does(t1.text, dst, dst, Reg(S5), sh);
            let z = shifted_act(dst, dst, Reg(S5), sh);
            adds_takes(t, t1, u, z, d, d1);
            let e = act(z, d1).unwrap();
            if sh == 0 {
                reveal(combined);
                lemma2_to64();
                assert(x * stride == x) by (nonlinear_arith)
                    requires
                        stride == 1,
                ;
            } else {
                assert(x * (pow2(sh as nat) as int) == x * stride) by (nonlinear_arith)
                    requires
                        pow2(sh as nat) == stride,
                ;
            }
            e
        },
        None => {
            let t2 = t1.on(t1.text.mov_imm(Reg(S4), stride as i64));
            let d2 = number_is_loaded(t, t1, Reg(S4), stride as i64, d, d1);
            assert(d2.reg(12) == stride);
            let t3 = t2.on(t2.text.mul(Reg(S5), Reg(S5), Reg(S4)));
            mul_does(t2.text, Reg(S5), Reg(S5), Reg(S4));
            let z = Act::TimesPlus { minus: false, rd: 13, rn: 13, rm: 12, ra: 31 };
            adds_takes(t, t2, t3, z, d, d2);
            let d3 = act(z, d2).unwrap();
            assert(d3.reg(13) == wrap64(x * stride));
            let u = t3.on(t3.text.add(dst, dst, Reg(S5)));
            add_does(t3.text, dst, dst, Reg(S5));
            let y = Act::Binary { op: Alu::Plus, rd: index(dst), rn: index(dst), rm: 13 };
            adds_takes(t, t3, u, y, d, d3);
            reveal(combined);
            product_wraps(a, x, stride);
            act(y, d3).unwrap()
        },
    }
}

/// The code of a step leads from one address to the next.
#[verifier::spinoff_prover]
#[verifier::rlimit(40)]
proof fn step_is_right(
    env: A64Func,
    t: A64Low,
    place: Place,
    i: usize,
    dst: Reg,
    d: Core,
) -> (e: Core)
    requires
        d.wf(),
        t.err is None,
        holds_address(dst),
        i < place.proj@.len(),
        stepped(env, d, place, i, d.reg(index(dst))) is Some,
    ensures
        takes(t, env.place_step(t, place, i, dst), d, e),
        env.place_step(t, place, i, dst).err is None,
        only_addressing(d, e, index(dst)),
        Some(e.reg(index(dst))) == stepped(env, d, place, i, d.reg(index(dst))),
{
    takes_nothing(t, d);
    let a = d.reg(index(dst));
    match place.proj@[i as int] {
        Proj::Deref => {
            fetch_bounded(d.mem, a as int, 8);
            pow256_values();
            sized_load_reads(t, t, dst, dst, 0, MemSize::X, d, d)
        },
        Proj::Field { index, .. } => {
            let off = env.field_offset(env.walked(place, i), index as usize);
            if off != 0 {
                positive_is_added(t, t, dst, dst, off as u32, d, d)
            } else {
                d
            }
        },
        Proj::Index { at, .. } => index_is_right(env, t, place, i, dst, d),
        Proj::SliceMeta { which, .. } => match which {
            SliceMeta::Ptr => d,
            SliceMeta::Len => positive_is_added(t, t, dst, dst, 8, d, d),
        },
        Proj::Payload { ty } => positive_is_added(
            t,
            t,
            dst,
            dst,
            env.payload_start(ty),
            d,
            d,
        ),
    }
}

#[verifier::spinoff_prover]
proof fn steps_are_right(
    env: A64Func,
    s: A64Low,
    t: A64Low,
    place: Place,
    i: usize,
    n: usize,
    dst: Reg,
    c: Core,
    d: Core,
) -> (e: Core)
    requires
        takes(s, t, c, d),
        d.wf(),
        t.err is None,
        holds_address(dst),
        n <= place.proj@.len(),
        led(env, d, place, i, n, d.reg(index(dst))) is Some,
    ensures
        takes(s, env.place_steps(t, place, i, n, dst), c, e),
        env.place_steps(t, place, i, n, dst).err is None,
        only_addressing(d, e, index(dst)),
        Some(e.reg(index(dst))) == led(env, d, place, i, n, d.reg(index(dst))),
    decreases n - i,
{
    if i < n {
        let t1 = env.place_step(t, place, i, dst);
        let d1 = step_is_right(env, t, place, i, dst, d);
        takes_compose(s, t, t1, c, d, d1);
        steps_stay(
            env,
            d,
            d1,
            place,
            (i + 1) as usize,
            n,
            d1.reg(index(dst)),
            index(dst),
        );
        let e = steps_are_right(env, s, t1, place, (i + 1) as usize, n, dst, c, d1);
        addressing_trans(d, d1, e, index(dst));
        e
    } else {
        d
    }
}

/// The code for a place computes the address of what its steps reach, and changes nothing but
/// that register and those that addresses are computed in.
#[verifier::spinoff_prover]
pub proof fn address_is_right(
    env: A64Func,
    s: A64Low,
    place: Place,
    n: usize,
    dst: Reg,
    c: Core,
) -> (d: Core)
    requires
        c.wf(),
        s.err is None,
        n <= place.proj@.len(),
        holds_address(dst),
        address_of(env, c, place, n) is Some,
    ensures
        takes(s, env.place_addr(s, place, n, dst), c, d),
        env.place_addr(s, place, n, dst).err is None,
        only_addressing(c, d, index(dst)),
        Some(d.reg(index(dst))) == address_of(env, c, place, n),
{
    takes_nothing(s, c);
    let h = env.home(place.base);
    let home = c.reg(29) + h;
    if n > 0 && place.proj@[0] is Deref {
        reveal(A64Func::ld);
        let t = env.ld(s, dst, Reg(FP), h, MemSize::X);
        let c1 = sized_load_reads(s, s, dst, Reg(FP), h as i64, MemSize::X, c, c);
        fetch_bounded(c.mem, home, 8);
        pow256_values();
        steps_stay(env, c, c1, place, 1, n, c1.reg(index(dst)), index(dst));
        let d = steps_are_right(env, s, t, place, 1, n, dst, c, c1);
        addressing_trans(c, c1, d, index(dst));
        d
    } else {
        reveal(A64Func::lea_home);
        let t = env.lea_home(s, dst, h);
        let c1 = number_is_added(s, s, dst, Reg(FP), h, c, c);
        assert(only_addressing(c, c1, index(dst)));
        if n == 0 {
            c1
        } else {
            steps_stay(env, c, c1, place, 0, n, c1.reg(index(dst)), index(dst));
            let d = steps_are_right(env, s, t, place, 0, n, dst, c, c1);
            addressing_trans(c, c1, d, index(dst));
            d
        }
    }
}

// ---------------------------------------------------------------------------
//  Scalars in places
// ---------------------------------------------------------------------------

/// The word of a scalar operand: that of a constant, or of what stands in a place.
pub open spec fn scalar_word(env: A64Func, c: Core, op: Operand) -> Option<u64> {
    match op {
        Operand::Const(_) => operand_word(env, c, op),
        Operand::Copy(p) => if p.proj@.len() == 0 {
            operand_word(env, c, op)
        } else {
            let n = p.proj@.len() as usize;
            match env.final_step(p) {
                FinalStep::Length(k) => Some(wrap64(k as int)),
                FinalStep::Address => address_of(env, c, p, (n - 1) as usize),
                FinalStep::Load => {
                    let ty = env.place_type(p);
                    let w = scalar_width(env, ty);
                    match address_of(env, c, p, n) {
                        Some(a) => if in_space(a as int, w) {
                            Some(
                                wrap64(
                                    low_bytes(
                                        fetch(c.mem, a as int, w),
                                        w,
                                        env.repr_of(ty).signed,
                                    ),
                                ),
                            )
                        } else {
                            None
                        },
                        None => None,
                    }
                },
            }
        },
    }
}

/// Whether nothing changed but the registers that expressions are computed in.
pub open spec fn only_working(c: Core, d: Core) -> bool {
    &&& d.wf()
    &&& d.mem == c.mem
    &&& d.sp == c.sp
    &&& kept_frame(c, d)
}

/// Whether no registers changed but those that expressions are computed in.
pub open spec fn kept_frame(c: Core, d: Core) -> bool {
    forall|r: int|
        0 <= r < 31 && !(9 <= r <= 13) && r != 15 && r != 16 && r != 17 ==> #[trigger] d.regs[r]
            == c.regs[r]
}

/// Whether a place has as many steps as a number can say.
pub open spec fn countable(op: Operand) -> bool {
    op matches Operand::Copy(p) ==> p.proj@.len() <= usize::MAX
}

/// A scalar operand is loaded as its word.
#[verifier::spinoff_prover]
pub proof fn scalar_loads(env: A64Func, t: A64Low, op: Operand, dst: Reg, d: Core) -> (e: Core)
    requires
        d.wf(),
        t.err is None,
        dst.0 == 9 || dst.0 == 10,
        countable(op),
        scalar_word(env, d, op) is Some,
    ensures
        takes(t, env.operand_to(t, op, dst), d, e),
        env.operand_to(t, op, dst).err is None,
        only_working(d, e),
        dst.0 == 10 ==> e.regs[9] == d.regs[9],
        e.reg(index(dst)) == scalar_word(env, d, op).unwrap(),
{
    takes_nothing(t, d);
    let part = op matches Operand::Copy(p) && p.proj@.len() > 0;
    if !part {
        operand_loads(env, t, t, op, dst, d, d)
    } else {
        let p = op->Copy_0;
        let n = p.proj@.len() as usize;
        match env.final_step(p) {
            FinalStep::Length(k) => number_is_loaded(t, t, dst, k, d, d),
            FinalStep::Address => address_is_right(env, t, p, (n - 1) as usize, dst, d),
            FinalStep::Load => {
                let t1 = env.place_addr(t, p, n, Reg(ADDR));
                let d1 = address_is_right(env, t, p, n, Reg(ADDR), d);
                reveal(A64Func::load_sized);
                load_reads(env, t, t1, dst, Reg(ADDR), 0, env.place_type(p), d, d1)
            },
        }
    }
}

} // verus!
