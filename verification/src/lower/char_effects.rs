//! What printing code does with code points: their UTF-8 bytes go to the cursor.
use vstd::prelude::*;

use crate::behavior::labels_once;
use crate::encode::{AsmState, Cc, LabelId};
use crate::lower::effects::{takes, takes_nothing, tells};
use crate::lower::env::{Env, LowState};
use crate::lower::follow::{
    follow_add_ri, follow_and_ri, follow_cmp_ri, follow_mov_load_mem, follow_mov_ri,
    follow_mov_store8_mem, follow_mov_store_mem, follow_shr_cl,
};
use crate::lower::loops::{
    branch_passed, branch_taken, jump_comes, onwards, past_label, reaches, starts, starts_trans,
    straight_on, within,
};
use crate::lower::mem_effects::fetched_is_word;
use crate::lower::print_effects::{
    cursor_clear, kept_both, only_printing, print_regs, printing_apart,
};
use crate::machine::{
    Bytes, Cpu, SPAN, Shift, byte_at, elsewhere_stays, fetch, in_space, patch, pow256_values,
    shifted, written_is_read,
};
use crate::peephole::Ins;
use crate::reg::Gpr;
use crate::steps::index;
use vstd::arithmetic::power2::{lemma2_to64, pow2};
use vstd::utf8::{
    encode_scalar, has_width_1_encoding, has_width_2_encoding, has_width_3_encoding, is_scalar,
    last_continuation_byte, leading_byte_width_1, leading_byte_width_2, leading_byte_width_3,
    leading_byte_width_4, second_last_continuation_byte, third_last_continuation_byte,
};

verus! {

proof fn low_six(x: u64)
    ensures
        x & 63 == x % 64,
{
    assert(x & 63 == x % 64) by (bit_vector);
}

/// The bytes of a code point, by division.
proof fn parts_of(v: u32)
    ensures
        v <= 0x7F ==> leading_byte_width_1(v) == v,
        v <= 0x7FF ==> leading_byte_width_2(v) == 0xC0 + v / 64,
        v <= 0xFFFF ==> leading_byte_width_3(v) == 0xE0 + v / 4096,
        v <= 0x10FFFF ==> leading_byte_width_4(v) == 0xF0 + v / 262144,
        last_continuation_byte(v) == 0x80 + v % 64,
        second_last_continuation_byte(v) == 0x80 + v / 64 % 64,
        third_last_continuation_byte(v) == 0x80 + v / 4096 % 64,
{
    assert((v <= 0x7F ==> (v & 0x7F) as u8 == v) && (v <= 0x7FF ==> 0xC0u8 | ((v >> 6) & 0x1F) as u8
        == 0xC0 + v / 64) && (v <= 0xFFFF ==> 0xE0u8 | ((v >> 12) & 0x0F) as u8 == 0xE0 + v / 4096)
        && (v <= 0x10FFFF ==> 0xF0u8 | ((v >> 18) & 0x7) as u8 == 0xF0 + v / 262144) && 0x80u8 | (v
        & 0x3F) as u8 == 0x80 + v % 64 && 0x80u8 | ((v >> 6) & 0x3F) as u8 == 0x80 + v / 64 % 64
        && 0x80u8 | ((v >> 12) & 0x3F) as u8 == 0x80 + v / 4096 % 64) by (bit_vector);
}

/// Two to the power of a shift.
pub open spec fn scale_of(shift: int) -> int {
    if shift == 0 {
        1
    } else if shift == 6 {
        64
    } else if shift == 12 {
        4096
    } else {
        262144
    }
}

proof fn shift_divides(v: u64, shift: int)
    requires
        shift == 6 || shift == 12 || shift == 18,
    ensures
        shifted(Shift::Right, v, shift % 256) == v as int / scale_of(shift),
{
    reveal(shifted);
    lemma2_to64();
}

proof fn small_byte(x: int)
    requires
        0 <= x < 256,
    ensures
        byte_at(x, 0) == x,
{
    reveal_with_fuel(byte_at, 2);
}

/// Where a code point is kept while it is written.
pub open spec fn kept_point(c: Cpu, v: u64) -> bool {
    &&& c.wf()
    &&& in_space(c.reg(4) as int, 8)
    &&& fetch(c.mem, c.reg(4) as int, 8) == v
    &&& c.reg(11) + 4 < SPAN
    &&& c.reg(11) + 4 <= c.reg(4) || c.reg(4) + 8 <= c.reg(11)
}

/// One continuation byte.
pub open spec fn continued(s: LowState, shift: i32, at: i32) -> LowState {
    let s = s.on(s.text.mov_load_mem(Gpr::Rax, Gpr::Rsp, 0));
    let s = if shift > 0 {
        let s = s.on(s.text.mov_ri(Gpr::Rcx, shift as i64));
        s.on(s.text.shr_cl(Gpr::Rax))
    } else {
        s
    };
    let s = s.on(s.text.and_ri(Gpr::Rax, 63));
    let s = s.on(s.text.add_ri(Gpr::Rax, 128));
    s.on(s.text.mov_store8_mem(Gpr::R11, at, Gpr::Rax))
}

#[verifier::spinoff_prover]
#[verifier::rlimit(60)]
proof fn byte_continues(
    s: LowState,
    t: LowState,
    shift: i32,
    at: i32,
    v: u64,
    c: Cpu,
    d: Cpu,
) -> (e:
    Cpu)
    requires
        takes(s, t, c, d),
        kept_point(d, v),
        shift == 0 || shift == 6 || shift == 12,
        1 <= at < 4,
    ensures
        takes(s, continued(t, shift, at), c, e),
        kept_point(e, v),
        only_printing(d, e),
        e.reg(11) == d.reg(11),
        e.mem == patch(d.mem, d.reg(11) + at, 1, 0x80 + v as int / scale_of(shift as int) % 64),
{
    assert(index(Gpr::Rax) == 0 && index(Gpr::Rcx) == 1 && index(Gpr::Rsp) == 4 && index(Gpr::R11)
        == 11);
    fetched_is_word(d.mem, d.reg(4) as int, 8);
    let t1 = t.on(t.text.mov_load_mem(Gpr::Rax, Gpr::Rsp, 0));
    let d1 = follow_mov_load_mem(s, t, Gpr::Rax, Gpr::Rsp, 0, c, d);
    assert(d1.reg(0) == v);
    let x = v as int / scale_of(shift as int);
    let (t2, d2): (LowState, Cpu) = if shift > 0 {
        let t11 = t1.on(t1.text.mov_ri(Gpr::Rcx, shift as i64));
        let d11 = follow_mov_ri(s, t1, Gpr::Rcx, shift as i64, c, d1);
        shift_divides(v, shift as int);
        (t11.on(t11.text.shr_cl(Gpr::Rax)), follow_shr_cl(s, t11, Gpr::Rax, c, d11))
    } else {
        (t1, d1)
    };
    assert(d2.reg(0) == x && d2.reg(11) == d.reg(11) && d2.mem == d.mem && d2.reg(4) == d.reg(4));
    let t3 = t2.on(t2.text.and_ri(Gpr::Rax, 63));
    let d3 = follow_and_ri(s, t2, Gpr::Rax, 63, c, d2);
    low_six(x as u64);
    assert(d3.reg(0) == x % 64);
    let t4 = t3.on(t3.text.add_ri(Gpr::Rax, 128));
    let d4 = follow_add_ri(s, t3, Gpr::Rax, 128, c, d3);
    assert(d4.reg(0) == 0x80 + x % 64);
    let e = follow_mov_store8_mem(s, t4, Gpr::R11, at, Gpr::Rax, c, d4);
    elsewhere_stays(d.mem, d.reg(11) + at, 1, 0x80 + x % 64, d.reg(4) as int, 8);
    assert forall|r: Gpr| !print_regs().contains(r) implies #[trigger] e.reg(index(r)) == d.reg(
        index(r),
    ) by {
        printing_apart(r);
        assert(d2.reg(index(r)) == d.reg(index(r)));
    }
    e
}

/// The code of a first byte.
pub open spec fn led_by(s: LowState, lead: i32, shift: i32) -> LowState {
    let s = s.on(s.text.mov_store_mem(Gpr::Rsp, 0, Gpr::Rax));
    let s = s.on(s.text.mov_ri(Gpr::Rcx, shift as i64));
    let s = s.on(s.text.shr_cl(Gpr::Rax));
    let s = s.on(s.text.add_ri(Gpr::Rax, lead));
    s.on(s.text.mov_store8_mem(Gpr::R11, 0, Gpr::Rax))
}

#[verifier::spinoff_prover]
#[verifier::rlimit(60)]
proof fn byte_leads(s: LowState, lead: i32, shift: i32, c: Cpu) -> (d: Cpu)
    requires
        c.wf(),
        cursor_clear(c, 4, 8),
        shift == 6 || shift == 12 || shift == 18,
        0 <= lead < 256,
        c.reg(0) as int / scale_of(shift as int) + lead < 256,
    ensures
        takes(s, led_by(s, lead, shift), c, d),
        kept_point(d, c.reg(0)),
        only_printing(c, d),
        d.reg(11) == c.reg(11),
        d.mem == patch(
            patch(c.mem, c.reg(4) as int, 8, c.reg(0) as int),
            c.reg(11) as int,
            1,
            lead + c.reg(0) as int / scale_of(shift as int),
        ),
{
    assert(index(Gpr::Rax) == 0 && index(Gpr::Rcx) == 1 && index(Gpr::Rsp) == 4 && index(Gpr::R11)
        == 11);
    takes_nothing(s, c);
    let v = c.reg(0);
    let x = v as int / scale_of(shift as int);
    let t1 = s.on(s.text.mov_store_mem(Gpr::Rsp, 0, Gpr::Rax));
    let c1 = follow_mov_store_mem(s, s, Gpr::Rsp, 0, Gpr::Rax, c, c);
    written_is_read(c.mem, c.reg(4) as int, 8, v as int);
    pow256_values();
    let t2 = t1.on(t1.text.mov_ri(Gpr::Rcx, shift as i64));
    let c2 = follow_mov_ri(s, t1, Gpr::Rcx, shift as i64, c, c1);
    let t3 = t2.on(t2.text.shr_cl(Gpr::Rax));
    shift_divides(v, shift as int);
    let c3 = follow_shr_cl(s, t2, Gpr::Rax, c, c2);
    assert(c3.reg(0) == x && c3.reg(11) == c.reg(11) && c3.mem == c1.mem && c3.reg(4) == c.reg(4));
    let t4 = t3.on(t3.text.add_ri(Gpr::Rax, lead));
    let c4 = follow_add_ri(s, t3, Gpr::Rax, lead, c, c3);
    assert(c4.reg(0) == lead + x);
    let d = follow_mov_store8_mem(s, t4, Gpr::R11, 0, Gpr::Rax, c, c4);
    elsewhere_stays(c1.mem, c.reg(11) as int, 1, lead + x, c.reg(4) as int, 8);
    assert forall|r: Gpr| !print_regs().contains(r) implies #[trigger] d.reg(index(r)) == c.reg(
        index(r),
    ) by {
        printing_apart(r);
    }
    d
}

/// Whether `k` is `m` with bytes at the cursor, but for the scratch room.
pub open spec fn encoded(m: Bytes, k: Bytes, text: Seq<u8>, at: int, lo: int, hi: int) -> bool {
    &&& forall|i: int| 0 <= i < text.len() ==> #[trigger] k(at + i) == text[i]
    &&& forall|x: int|
        !(at <= x < at + text.len()) && !(lo <= x < hi) ==> #[trigger] k(x) == m(x)
}

#[verifier::spinoff_prover]
#[verifier::rlimit(60)]
proof fn bytes_are_put(env: Env, s: LowState, lead: i32, shift: i32, n: i32, c: Cpu) -> (d: Cpu)
    requires
        c.wf(),
        cursor_clear(c, 4, 8),
        (lead == 0xC0 && shift == 6 && n == 2 && 0x80 <= c.reg(0) <= 0x7FF) || (lead == 0xE0
            && shift == 12 && n == 3 && 0x800 <= c.reg(0) <= 0xFFFF) || (lead == 0xF0 && shift == 18
            && n == 4 && 0x10000 <= c.reg(0) <= 0x10FFFF),
        is_scalar(c.reg(0) as u32),
    ensures
        takes(s, env.utf8_bytes(s, lead, shift, n), c, d),
        only_printing(c, d),
        d.reg(11) == c.reg(11) + n,
        encode_scalar(c.reg(0) as u32).len() == n,
        encoded(
            c.mem,
            d.mem,
            encode_scalar(c.reg(0) as u32),
            c.reg(11) as int,
            c.reg(4) as int,
            c.reg(4) + 8,
        ),
{
    reveal(Env::utf8_bytes);
    assert(index(Gpr::R11) == 11);
    let v = c.reg(0);
    parts_of(v as u32);
    let at = c.reg(11) as int;
    let t1 = led_by(s, lead, shift);
    let c1 = byte_leads(s, lead, shift, c);
    if n == 2 {
        let t2 = continued(t1, 0, 1);
        let c2 = byte_continues(s, t1, 0, 1, v, c, c1);
        assert(env.continuation_bytes(t1, 0, 1) == t2) by {
            reveal_with_fuel(Env::continuation_bytes, 2);
        }
        kept_both(c, c1, c2);
        let d = follow_add_ri(s, t2, Gpr::R11, n, c, c2);
        moving_on(c2, d);
        kept_both(c, c2, d);
        small_byte(0xC0 + v as int / 64);
        small_byte(0x80 + v as int % 64);
        d
    } else if n == 3 {
        let t2 = continued(t1, 6, 1);
        let c2 = byte_continues(s, t1, 6, 1, v, c, c1);
        let t3 = continued(t2, 0, 2);
        let c3 = byte_continues(s, t2, 0, 2, v, c, c2);
        assert(env.continuation_bytes(t1, 6, 1) == t3) by {
            reveal_with_fuel(Env::continuation_bytes, 3);
        }
        kept_both(c, c1, c2);
        kept_both(c, c2, c3);
        let d = follow_add_ri(s, t3, Gpr::R11, n, c, c3);
        moving_on(c3, d);
        kept_both(c, c3, d);
        small_byte(0xE0 + v as int / 4096);
        small_byte(0x80 + v as int / 64 % 64);
        small_byte(0x80 + v as int % 64);
        d
    } else {
        let t2 = continued(t1, 12, 1);
        let c2 = byte_continues(s, t1, 12, 1, v, c, c1);
        let t3 = continued(t2, 6, 2);
        let c3 = byte_continues(s, t2, 6, 2, v, c, c2);
        let t4 = continued(t3, 0, 3);
        let c4 = byte_continues(s, t3, 0, 3, v, c, c3);
        assert(env.continuation_bytes(t1, 12, 1) == t4) by {
            reveal_with_fuel(Env::continuation_bytes, 4);
        }
        kept_both(c, c1, c2);
        kept_both(c, c2, c3);
        kept_both(c, c3, c4);
        let d = follow_add_ri(s, t4, Gpr::R11, n, c, c4);
        moving_on(c4, d);
        kept_both(c, c4, d);
        small_byte(0xF0 + v as int / 262144);
        small_byte(0x80 + v as int / 4096 % 64);
        small_byte(0x80 + v as int / 64 % 64);
        small_byte(0x80 + v as int % 64);
        d
    }
}

proof fn moving_on(c: Cpu, d: Cpu)
    requires
        c.wf(),
        d.wf(),
        d.state == c.state,
        d.data == c.data,
        forall|r: int| 0 <= r < 16 && r != 11 ==> #[trigger] d.reg(r) == c.reg(r),
    ensures
        only_printing(c, d),
{
    assert forall|r: Gpr| !print_regs().contains(r) implies #[trigger] d.reg(index(r)) == c.reg(
        index(r),
    ) by {
        printing_apart(r);
    }
}

/// A code point below 128 is one byte.
#[verifier::spinoff_prover]
proof fn byte_is_put(env: Env, s: LowState, c: Cpu) -> (d: Cpu)
    requires
        c.wf(),
        c.reg(11) + 1 < SPAN,
        c.reg(0) < 0x80,
    ensures
        takes(s, env.emit_byte_from_rax(s), c, d),
        only_printing(c, d),
        d.reg(11) == c.reg(11) + 1,
        encode_scalar(c.reg(0) as u32).len() == 1,
        encoded(c.mem, d.mem, encode_scalar(c.reg(0) as u32), c.reg(11) as int, 0, 0),
{
    reveal(Env::emit_byte_from_rax);
    assert(index(Gpr::Rax) == 0 && index(Gpr::R11) == 11);
    takes_nothing(s, c);
    parts_of(c.reg(0) as u32);
    small_byte(c.reg(0) as int);
    let t1 = s.on(s.text.mov_store8_mem(Gpr::R11, 0, Gpr::Rax));
    let c1 = follow_mov_store8_mem(s, s, Gpr::R11, 0, Gpr::Rax, c, c);
    let d = follow_add_ri(s, t1, Gpr::R11, 1, c, c1);
    moving_on(c, d);
    d
}

/// The code of a test against a bound.
pub open spec fn bound_tested(t: LowState, bound: i32) -> LowState {
    t.on(t.text.cmp_ri(Gpr::Rax, bound))
}

#[verifier::spinoff_prover]
proof fn bound_test_runs(t: LowState, bound: i32, c: Cpu) -> (d: Cpu)
    requires
        c.wf(),
        0 <= bound,
    ensures
        takes(t, bound_tested(t, bound), c, d),
        tells(d, Cc::Ae) == Some(c.reg(0) >= bound),
        d.regs == c.regs,
        d.mem == c.mem,
        d.wf(),
        d.state == c.state,
        d.data == c.data,
{
    assert(index(Gpr::Rax) == 0);
    takes_nothing(t, c);
    follow_cmp_ri(t, t, Gpr::Rax, bound, c, c)
}

proof fn prefix(z: Seq<Ins>, s: Seq<Ins>)
    requires
        s.len() <= z.len(),
        forall|i: int| 0 <= i < s.len() ==> #[trigger] s[i] == z[i],
    ensures
        starts(z, s),
{
    assert(z.take(s.len() as int) =~= s);
}

proof fn bytes_extend(env: Env, s: LowState, lead: i32, shift: i32, n: i32)
    requires
        shift <= 18,
    ensures
        starts(env.utf8_bytes(s, lead, shift, n).text.instrs, s.text.instrs),
{
    reveal(Env::utf8_bytes);
    reveal(AsmState::mov_store_mem);
    reveal(AsmState::mov_ri);
    reveal(AsmState::shr_cl);
    reveal(AsmState::add_ri);
    reveal(AsmState::mov_store8_mem);
    let t1 = led_by(s, lead, shift);
    let t2 = env.continuation_bytes(t1, (shift - 6) as i32, 1);
    prefix(t1.text.instrs, s.text.instrs);
    continuation_extends(env, t1, (shift - 6) as i32, 1);
    starts_trans(t2.text.instrs, t1.text.instrs, s.text.instrs);
    let t3 = t2.on(t2.text.add_ri(Gpr::R11, n));
    prefix(t3.text.instrs, t2.text.instrs);
    starts_trans(t3.text.instrs, t2.text.instrs, s.text.instrs);
}

proof fn continuation_extends(env: Env, s: LowState, shift: i32, at: i32)
    ensures
        starts(env.continuation_bytes(s, shift, at).text.instrs, s.text.instrs),
    decreases shift + 6,
{
    if shift >= 0 {
        reveal(AsmState::mov_load_mem);
        reveal(AsmState::mov_ri);
        reveal(AsmState::shr_cl);
        reveal(AsmState::and_ri);
        reveal(AsmState::add_ri);
        reveal(AsmState::mov_store8_mem);
        let t = continued(s, shift, at);
        prefix(t.text.instrs, s.text.instrs);
        continuation_extends(env, t, (shift - 6) as i32, crate::lower::scalar::sum32(at, 1));
        starts_trans(
            env.continuation_bytes(s, shift, at).text.instrs,
            t.text.instrs,
            s.text.instrs,
        );
    } else {
        prefix(s.text.instrs, s.text.instrs);
    }
}

/// The code of one length: its test, its bytes and the jump to the end.
pub open spec fn of_length(
    env: Env,
    s: LowState,
    bound: i32,
    more: LabelId,
    done: LabelId,
    lead: i32,
    shift: i32,
    n: i32,
) -> LowState {
    let t = bound_tested(s, bound);
    let t = t.on(t.text.jcc_local(Cc::Ae, more));
    let t = if n == 1 {
        env.emit_byte_from_rax(t)
    } else {
        env.utf8_bytes(t, lead, shift, n)
    };
    let t = t.on(t.text.jmp_local(done));
    t.on(t.text.bind(more))
}

proof fn length_parts(
    env: Env,
    w: Seq<Ins>,
    s: LowState,
    bound: i32,
    more: LabelId,
    done: LabelId,
    lead: i32,
    shift: i32,
    n: i32,
)
    requires
        within(w, of_length(env, s, bound, more, done, lead, shift, n)),
        shift <= 18,
    ensures
        ({
            let t1 = bound_tested(s, bound);
            let t2 = t1.on(t1.text.jcc_local(Cc::Ae, more));
            let t3 = if n == 1 {
                env.emit_byte_from_rax(t2)
            } else {
                env.utf8_bytes(t2, lead, shift, n)
            };
            let t4 = t3.on(t3.text.jmp_local(done));
            &&& within(w, s)
            &&& within(w, t1)
            &&& within(w, t2)
            &&& within(w, t3)
            &&& within(w, t4)
        }),
{
    reveal(AsmState::cmp_ri);
    reveal(AsmState::jcc_local);
    reveal(AsmState::jmp_local);
    let t1 = bound_tested(s, bound);
    let t2 = t1.on(t1.text.jcc_local(Cc::Ae, more));
    let t3 = if n == 1 {
        env.emit_byte_from_rax(t2)
    } else {
        env.utf8_bytes(t2, lead, shift, n)
    };
    let t4 = t3.on(t3.text.jmp_local(done));
    let t5 = t4.on(t4.text.bind(more));
    prefix(t5.text.instrs, t4.text.instrs);
    starts_trans(w, t5.text.instrs, t4.text.instrs);
    prefix(t4.text.instrs, t3.text.instrs);
    starts_trans(w, t4.text.instrs, t3.text.instrs);
    if n == 1 {
        reveal(Env::emit_byte_from_rax);
        reveal(AsmState::mov_store8_mem);
        reveal(AsmState::add_ri);
        prefix(t3.text.instrs, t2.text.instrs);
    } else {
        bytes_extend(env, t2, lead, shift, n);
    }
    starts_trans(w, t3.text.instrs, t2.text.instrs);
    prefix(t2.text.instrs, t1.text.instrs);
    starts_trans(w, t2.text.instrs, t1.text.instrs);
    prefix(t1.text.instrs, s.text.instrs);
    starts_trans(w, t1.text.instrs, s.text.instrs);
}

/// Whether a code point has its bytes at the cursor.
pub open spec fn point_put(c: Cpu, d: Cpu) -> bool {
    let text = encode_scalar(c.reg(0) as u32);
    &&& only_printing(c, d)
    &&& d.reg(11) == c.reg(11) + text.len()
    &&& encoded(c.mem, d.mem, text, c.reg(11) as int, c.reg(4) as int, c.reg(4) + 8)
}

/// One length: what has it is written and goes to the end; what has more bytes goes on.
#[verifier::spinoff_prover]
#[verifier::rlimit(40)]
proof fn length_goes(
    env: Env,
    w: Seq<Ins>,
    s: LowState,
    bound: i32,
    more: LabelId,
    done: LabelId,
    lead: i32,
    shift: i32,
    n: i32,
    end: LowState,
    b: Cpu,
    c: Cpu,
) -> (d: Cpu)
    requires
        labels_once(w),
        within(w, of_length(env, s, bound, more, done, lead, shift, n)),
        within(w, end.on(end.text.bind(done))),
        c.wf(),
        c.regs == b.regs,
        c.mem == b.mem,
        c.state == b.state,
        c.data == b.data,
        b.wf(),
        cursor_clear(c, 4, 8),
        is_scalar(c.reg(0) as u32),
        c.reg(0) <= 0x10FFFF,
        (n == 1 && bound == 0x80 && shift <= 18) || (n == 2 && bound == 0x800 && lead == 0xC0
            && shift == 6 && c.reg(0) >= 0x80) || (n == 3 && bound == 0x10000 && lead == 0xE0
            && shift == 12 && c.reg(0) >= 0x800),
    ensures
        c.reg(0) < bound ==> reaches(w, s, c, end, d) && point_put(b, d),
        c.reg(0) >= bound ==> reaches(
            w,
            s,
            c,
            of_length(env, s, bound, more, done, lead, shift, n),
            d,
        ) && d.regs == b.regs && d.mem == b.mem && d.wf() && d.state == b.state && d.data == b.data,
{
    length_parts(env, w, s, bound, more, done, lead, shift, n);
    let t1 = bound_tested(s, bound);
    let t2 = t1.on(t1.text.jcc_local(Cc::Ae, more));
    let t3 = if n == 1 {
        env.emit_byte_from_rax(t2)
    } else {
        env.utf8_bytes(t2, lead, shift, n)
    };
    let t4 = t3.on(t3.text.jmp_local(done));
    let t5 = t4.on(t4.text.bind(more));
    let c1 = bound_test_runs(s, bound, c);
    straight_on(w, s, t1, c, c1);
    if c.reg(0) < bound {
        branch_passed(w, t1, Cc::Ae, more, c1);
        onwards(w, s, c, t1, c1, t2, c1);
        let d = if n == 1 {
            byte_is_put(env, t2, c1)
        } else {
            bytes_are_put(env, t2, lead, shift, n, c1)
        };
        straight_on(w, t2, t3, c1, d);
        onwards(w, s, c, t2, c1, t3, d);
        jump_comes(w, t3, done, end, d);
        onwards(w, s, c, t3, d, end, d);
        d
    } else {
        branch_taken(w, t1, Cc::Ae, more, t4, c1);
        onwards(w, s, c, t1, c1, t4, c1);
        past_label(w, t4, more, c1);
        onwards(w, s, c, t4, c1, t5, c1);
        c1
    }
}

/// The UTF-8 bytes of the code point in `rax` go to the cursor, which goes on behind them;
/// beyond that only the scratch room at the top of the stack is written to.
#[verifier::spinoff_prover]
#[verifier::rlimit(60)]
pub proof fn code_point_is_printed(env: Env, w: Seq<Ins>, s: LowState, c: Cpu) -> (d: Cpu)
    requires
        labels_once(w),
        within(w, env.emit_utf8_encode(s)),
        c.wf(),
        cursor_clear(c, 4, 8),
        c.reg(0) <= 0x10FFFF,
        is_scalar(c.reg(0) as u32),
    ensures
        reaches(w, s, c, env.emit_utf8_encode(s), d),
        only_printing(c, d),
        d.reg(11) == c.reg(11) + encode_scalar(c.reg(0) as u32).len(),
        encoded(
            c.mem,
            d.mem,
            encode_scalar(c.reg(0) as u32),
            c.reg(11) as int,
            c.reg(4) as int,
            c.reg(4) + 8,
        ),
        within(w, s),
{
    let l1 = s.text.fresh();
    let s1 = s.on(s.text.new_label());
    let l2 = s1.text.fresh();
    let s2 = s1.on(s1.text.new_label());
    let l3 = s2.text.fresh();
    let s3 = s2.on(s2.text.new_label());
    let done = s3.text.fresh();
    let s4 = s3.on(s3.text.new_label());
    let u1 = of_length(env, s4, 0x80, l1, done, 0, 0, 1);
    let u2 = of_length(env, u1, 0x800, l2, done, 0xC0, 6, 2);
    let u3 = of_length(env, u2, 0x10000, l3, done, 0xE0, 12, 3);
    let u4 = env.utf8_bytes(u3, 0xF0, 18, 4);
    let u5 = u4.on(u4.text.bind(done));
    assert(env.emit_utf8_encode(s) == u5) by {
        reveal(Env::emit_utf8_encode);
    }
    prefix(u5.text.instrs, u4.text.instrs);
    starts_trans(w, u5.text.instrs, u4.text.instrs);
    bytes_extend(env, u3, 0xF0, 18, 4);
    starts_trans(w, u4.text.instrs, u3.text.instrs);
    length_parts(env, w, u2, 0x10000, l3, done, 0xE0, 12, 3);
    length_parts(env, w, u1, 0x800, l2, done, 0xC0, 6, 2);
    length_parts(env, w, s4, 0x80, l1, done, 0, 0, 1);
    let c1 = length_goes(env, w, s4, 0x80, l1, done, 0, 0, 1, u4, c, c);
    if c.reg(0) < 0x80 {
        assert(reaches(w, s, c, u4, c1));
        past_label(w, u4, done, c1);
        onwards(w, s, c, u4, c1, u5, c1);
        c1
    } else {
        assert(reaches(w, s, c, u1, c1));
        let c2 = length_goes(env, w, u1, 0x800, l2, done, 0xC0, 6, 2, u4, c, c1);
        if c.reg(0) < 0x800 {
            onwards(w, s, c, u1, c1, u4, c2);
            past_label(w, u4, done, c2);
            onwards(w, s, c, u4, c2, u5, c2);
            c2
        } else {
            onwards(w, s, c, u1, c1, u2, c2);
            let c3 = length_goes(env, w, u2, 0x10000, l3, done, 0xE0, 12, 3, u4, c, c2);
            if c.reg(0) < 0x10000 {
                onwards(w, s, c, u2, c2, u4, c3);
                past_label(w, u4, done, c3);
                onwards(w, s, c, u4, c3, u5, c3);
                c3
            } else {
                onwards(w, s, c, u2, c2, u3, c3);
                let d = bytes_are_put(env, u3, 0xF0, 18, 4, c3);
                straight_on(w, u3, u4, c3, d);
                onwards(w, s, c, u3, c3, u4, d);
                past_label(w, u4, done, d);
                onwards(w, s, c, u4, d, u5, d);
                d
            }
        }
    }
}

} // verus!
