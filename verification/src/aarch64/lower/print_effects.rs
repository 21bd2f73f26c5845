//! What printing code does: the division of two words by ten, bit by bit.
use vstd::prelude::*;

use crate::aarch64::encode::{
    A64State, BranchKind, MemSize, Reg, SP, XZR, at_register, at_scaled, at_unscaled, imm, scaled,
    unscaled,
};
use crate::aarch64::lower::effects::{
    access_is_right, adds_takes, number_is_loaded, takes, takes_nothing,
};
use crate::aarch64::lower::env::{A64Func, A64Low, S2, S3, S4, S5};
use crate::aarch64::lower::flow::{branches_behind, cond_number};
use crate::aarch64::lower::loops::{
    branch_behind, branch_passed, branch_taken, jump_comes, onwards, reaches, starts, starts_trans,
    straight_on,
};
use crate::aarch64::machine::{Act, Alu, Core, act, combined, condition};
use crate::aarch64::steps::{
    Access, and_does, cmp_imm_does, index, lsl_imm_does, lsrv_does, number, orr_does, sub_imm_does,
};
use crate::encode::{Cc, LabelId};
use crate::lower::mem_effects::fetched_is_word;
use crate::machine::{
    SPAN, elsewhere_stays, fetch, fetch_bounded, in_space, patch, pow256_values, written_is_read,
};
use vstd::arithmetic::power2::{
    lemma2_to64, lemma2_to64_rest, lemma_pow2_pos, lemma_pow2_unfold, pow2,
};

verus! {

// ---------------------------------------------------------------------------
//  Single instructions
// ---------------------------------------------------------------------------

pub(crate) proof fn less_runs(s: A64Low, t: A64Low, rd: Reg, v: u32, c: Core, d: Core) -> (e: Core)
    requires
        takes(s, t, c, d),
        rd.0 < 31,
        v <= 0xFFF,
    ensures
        takes(s, t.on(t.text.sub_imm(rd, rd, v)), c, e),
        e == d.put(index(rd), d.reg(index(rd)) - v),
{
    reveal(act);
    sub_imm_does(t.text, rd, rd, v);
    let a = Act::PlusImm { rd: index(rd), rn: index(rd), value: -(v as int) };
    adds_takes(s, t, t.on(t.text.sub_imm(rd, rd, v)), a, c, d);
    act(a, d).unwrap()
}

/// A number as a word.
pub open spec fn in_word(v: u32) -> u64 {
    v as u64
}

pub(crate) proof fn test_runs(s: A64Low, t: A64Low, rn: Reg, v: u32, c: Core, d: Core) -> (e: Core)
    requires
        takes(s, t, c, d),
        rn.0 < 31,
        v <= 0xFFF,
    ensures
        takes(s, t.on(t.text.cmp_imm(rn, v)), c, e),
        e == d.compared(d.reg(index(rn)), in_word(v)),
{
    reveal(act);
    cmp_imm_does(t.text, rn, v);
    let a = Act::CompareImm { rd: 31, rn: index(rn), value: number(v) };
    adds_takes(s, t, t.on(t.text.cmp_imm(rn, v)), a, c, d);
    act(a, d).unwrap()
}

proof fn right_runs(s: A64Low, t: A64Low, rd: Reg, rn: Reg, rm: Reg, c: Core, d: Core) -> (e: Core)
    requires
        takes(s, t, c, d),
        rd.0 < 31,
        rn.0 < 31,
        rm.0 < 31,
    ensures
        takes(s, t.on(t.text.lsrv(rd, rn, rm)), c, e),
        e == d.put(index(rd), combined(Alu::Right, d.reg(index(rn)), d.reg(index(rm)))),
{
    reveal(act);
    lsrv_does(t.text, rd, rn, rm);
    let a = Act::Binary { op: Alu::Right, rd: index(rd), rn: index(rn), rm: index(rm) };
    adds_takes(s, t, t.on(t.text.lsrv(rd, rn, rm)), a, c, d);
    act(a, d).unwrap()
}

proof fn and_runs(s: A64Low, t: A64Low, rd: Reg, rm: Reg, c: Core, d: Core) -> (e: Core)
    requires
        takes(s, t, c, d),
        rd.0 < 31,
        rm.0 < 31,
    ensures
        takes(s, t.on(t.text.and(rd, rd, rm)), c, e),
        e == d.put(index(rd), (d.reg(index(rd)) & d.reg(index(rm))) as int),
{
    reveal(act);
    reveal(combined);
    and_does(t.text, rd, rd, rm);
    let a = Act::Binary { op: Alu::And, rd: index(rd), rn: index(rd), rm: index(rm) };
    adds_takes(s, t, t.on(t.text.and(rd, rd, rm)), a, c, d);
    act(a, d).unwrap()
}

pub(crate) proof fn or_runs(s: A64Low, t: A64Low, rd: Reg, rm: Reg, c: Core, d: Core) -> (e: Core)
    requires
        takes(s, t, c, d),
        rd.0 < 31,
        rm.0 < 31,
    ensures
        takes(s, t.on(t.text.orr(rd, rd, rm)), c, e),
        e == d.put(index(rd), (d.reg(index(rd)) | d.reg(index(rm))) as int),
{
    reveal(act);
    reveal(combined);
    orr_does(t.text, rd, rd, rm);
    let a = Act::Binary { op: Alu::Or, rd: index(rd), rn: index(rd), rm: index(rm) };
    adds_takes(s, t, t.on(t.text.orr(rd, rd, rm)), a, c, d);
    act(a, d).unwrap()
}

proof fn twice_runs(s: A64Low, t: A64Low, rd: Reg, c: Core, d: Core) -> (e: Core)
    requires
        takes(s, t, c, d),
        rd.0 < 31,
    ensures
        takes(s, t.on(t.text.lsl_imm(rd, rd, 1)), c, e),
        e == d.put(index(rd), 2 * d.reg(index(rd))),
{
    reveal(act);
    lsl_imm_does(t.text, rd, rd, 1);
    lemma2_to64();
    let x = d.reg(index(rd));
    let p = pow2(1) as int;
    assert(x * p == 2 * x) by (nonlinear_arith)
        requires
            p == 2,
    ;
    let a = Act::LeftImm { rd: index(rd), rn: index(rd), by: 1 };
    adds_takes(s, t, t.on(t.text.lsl_imm(rd, rd, 1)), a, c, d);
    act(a, d).unwrap()
}

// ---------------------------------------------------------------------------
//  One bit
// ---------------------------------------------------------------------------

/// The next bit behind the remainder, and room for one in the quotient.
pub open spec fn bit_in(t: A64Low) -> A64Low {
    let t = t.on(t.text.sub_imm(Reg(S2), Reg(S2), 1));
    let t = t.on(t.text.lsrv(Reg(14), Reg(S4), Reg(S2)));
    let t = t.on(t.text.and(Reg(14), Reg(14), Reg(15)));
    let t = t.on(t.text.lsl_imm(Reg(8), Reg(8), 1));
    let t = t.on(t.text.orr(Reg(8), Reg(8), Reg(14)));
    t.on(t.text.lsl_imm(Reg(S5), Reg(S5), 1))
}

/// Ten off the remainder, and a one in the quotient.
pub open spec fn ten_off(t: A64Low) -> A64Low {
    let t = t.on(t.text.sub_imm(Reg(8), Reg(8), 10));
    t.on(t.text.orr(Reg(S5), Reg(S5), Reg(15)))
}

/// Whether nothing changed but the registers that the division uses.
pub open spec fn only_dividing(c: Core, d: Core) -> bool {
    &&& d.wf()
    &&& d.sp == c.sp
    &&& forall|r: int|
        0 <= r < 31 && r != 8 && r != 10 && r != 12 && r != 13 && r != 14 && r != 15 && r != 17
            ==> #[trigger] d.regs[r] == c.regs[r]
}

proof fn bit_behind(x: u64, b: u64)
    by (bit_vector)
    requires
        x < 0x8000_0000_0000_0000,
        b <= 1,
    ensures
        ((2 * x) as u64 | b) == 2 * x + b,
{
}

proof fn low_bit(x: u64)
    by (bit_vector)
    ensures
        x & 1 == x % 2,
{
}

#[verifier::spinoff_prover]
#[verifier::rlimit(40)]
proof fn bit_in_runs(t: A64Low, d: Core) -> (e: Core)
    requires
        d.wf(),
        1 <= d.regs[10] <= 64,
        d.regs[8] < 10,
        d.regs[13] < 0x8000_0000_0000_0000,
        d.regs[15] == 1,
    ensures
        takes(t, bit_in(t), d, e),
        only_dividing(d, e),
        e.mem == d.mem,
        e.regs[10] == d.regs[10] - 1,
        e.regs[12] == d.regs[12],
        e.regs[15] == 1,
        e.regs[13] == 2 * d.regs[13],
        e.regs[8] == 2 * d.regs[8] + d.regs[12] as int / (pow2((d.regs[10] - 1) as nat) as int) % 2,
{
    takes_nothing(t, d);
    let k = d.regs[10];
    let lo = d.regs[12];
    let t1 = t.on(t.text.sub_imm(Reg(S2), Reg(S2), 1));
    let d1 = less_runs(t, t, Reg(S2), 1, d, d);
    let t2 = t1.on(t1.text.lsrv(Reg(14), Reg(S4), Reg(S2)));
    let d2 = right_runs(t, t1, Reg(14), Reg(S4), Reg(S2), d, d1);
    let n = pow2((k - 1) as nat) as int;
    lemma_pow2_pos((k - 1) as nat);
    let y = lo as int / n;
    assert(0 <= y <= lo) by (nonlinear_arith)
        requires
            y == lo as int / n,
            n >= 1,
    ;
    assert(d1.regs[10] == k - 1);
    assert(d2.regs[14] == y) by {
        reveal(combined);
        assert((k - 1) % 64 == k - 1);
    }
    low_bit(y as u64);
    let t3 = t2.on(t2.text.and(Reg(14), Reg(14), Reg(15)));
    let d3 = and_runs(t, t2, Reg(14), Reg(15), d, d2);
    let b = (y % 2) as u64;
    assert(d3.regs[14] == b);
    let t4 = t3.on(t3.text.lsl_imm(Reg(8), Reg(8), 1));
    let d4 = twice_runs(t, t3, Reg(8), d, d3);
    assert(d4.regs[8] == 2 * d.regs[8]);
    bit_behind(d.regs[8], b);
    let t5 = t4.on(t4.text.orr(Reg(8), Reg(8), Reg(14)));
    let d5 = or_runs(t, t4, Reg(8), Reg(14), d, d4);
    assert(d5.regs[8] == 2 * d.regs[8] + b);
    twice_runs(t, t5, Reg(S5), d, d5)
}

#[verifier::spinoff_prover]
proof fn ten_off_runs(t: A64Low, d: Core, q: u64) -> (e: Core)
    requires
        d.wf(),
        10 <= d.regs[8],
        q < 0x8000_0000_0000_0000,
        d.regs[13] == 2 * q,
        d.regs[15] == 1,
    ensures
        takes(t, ten_off(t), d, e),
        only_dividing(d, e),
        e.mem == d.mem,
        e.regs[8] == d.regs[8] - 10,
        e.regs[10] == d.regs[10],
        e.regs[12] == d.regs[12],
        e.regs[13] == 2 * q + 1,
        e.regs[15] == 1,
{
    takes_nothing(t, d);
    let t1 = t.on(t.text.sub_imm(Reg(8), Reg(8), 10));
    let d1 = less_runs(t, t, Reg(8), 10, d, d);
    bit_behind(q, 1);
    or_runs(t, t1, Reg(S5), Reg(15), d, d1)
}

// ---------------------------------------------------------------------------
//  The loop
// ---------------------------------------------------------------------------

/// The loop up to its first branch.
pub open spec fn bits_tested(s: A64Low, top: LabelId) -> A64Low {
    let t = s.on(s.text.bind(top));
    t.on(t.text.cmp_imm(Reg(S2), 0))
}

/// The loop up to its second branch.
pub open spec fn bits_compared(s: A64Low, top: LabelId, done: LabelId) -> A64Low {
    let t = bits_tested(s, top);
    let t = t.on(t.text.bcc(Cc::E, done));
    let t = bit_in(t);
    let t = t.on(t.text.new_label());
    t.on(t.text.cmp_imm(Reg(8), 10))
}

/// The loop up to where its branches meet.
pub open spec fn bits_met(s: A64Low, top: LabelId, done: LabelId) -> A64Low {
    let t = bits_compared(s, top, done);
    let t = t.on(t.text.bcc(Cc::B, s.text.fresh()));
    ten_off(t)
}

/// The loop up to its jump back.
pub open spec fn bits_turned(s: A64Low, top: LabelId, done: LabelId) -> A64Low {
    let t = bits_met(s, top, done);
    let t = t.on(t.text.bind(s.text.fresh()));
    t.on(t.text.b(top))
}

/// The loop.
pub open spec fn bits_done(s: A64Low, top: LabelId, done: LabelId) -> A64Low {
    let t = bits_turned(s, top, done);
    t.on(t.text.bind(done))
}

proof fn words_behind(s: A64State, t: A64State)
    requires
        branches_behind(s),
        t.branches == s.branches,
        t.labels == s.labels,
        s.code.len() <= t.code.len(),
        t.code.take(s.code.len() as int) == s.code,
    ensures
        starts(t, s),
        branches_behind(t),
{
}

pub(crate) proof fn bound_behind(s: A64State, l: LabelId)
    requires
        branches_behind(s),
        l.0 < s.labels.len(),
        s.labels[l.0 as int] is None,
    ensures
        starts(s.bind(l), s),
        branches_behind(s.bind(l)),
{
    assert(s.bind(l).code.take(s.code.len() as int) =~= s.code);
}

pub(crate) proof fn opened_behind(s: A64State)
    requires
        branches_behind(s),
    ensures
        starts(s.new_label(), s),
        branches_behind(s.new_label()),
{
    assert(s.code.take(s.code.len() as int) =~= s.code);
}

proof fn bit_in_extends(t: A64Low)
    requires
        branches_behind(t.text),
    ensures
        starts(bit_in(t).text, t.text),
        branches_behind(bit_in(t).text),
        bit_in(t).text.labels == t.text.labels,
{
    reveal(A64State::sub_imm);
    reveal(A64State::lsrv);
    reveal(A64State::and);
    reveal(A64State::lsl_imm);
    reveal(A64State::orr);
    let u = bit_in(t);
    assert(u.text.code.take(t.text.code.len() as int) =~= t.text.code);
    words_behind(t.text, u.text);
}

proof fn ten_off_extends(t: A64Low)
    requires
        branches_behind(t.text),
    ensures
        starts(ten_off(t).text, t.text),
        branches_behind(ten_off(t).text),
        ten_off(t).text.labels == t.text.labels,
{
    reveal(A64State::sub_imm);
    reveal(A64State::orr);
    let u = ten_off(t);
    assert(u.text.code.take(t.text.code.len() as int) =~= t.text.code);
    words_behind(t.text, u.text);
}

pub(crate) proof fn test_extends(t: A64Low, rn: Reg, v: u32)
    requires
        branches_behind(t.text),
    ensures
        starts(t.text.cmp_imm(rn, v), t.text),
        branches_behind(t.text.cmp_imm(rn, v)),
        t.text.cmp_imm(rn, v).labels == t.text.labels,
{
    reveal(A64State::cmp_imm);
    word_behind(t.text, imm(0xF100_0000, Reg(XZR), rn, v));
}

proof fn word_behind(s: A64State, i: u32)
    requires
        branches_behind(s),
    ensures
        starts(s.word(i), s),
        branches_behind(s.word(i)),
{
    assert(s.word(i).code.take(s.code.len() as int) =~= s.code);
    words_behind(s, s.word(i));
}

pub(crate) proof fn branch_extends(t: A64Low, cc: Cc, l: LabelId)
    requires
        branches_behind(t.text),
        t.text.code.len() <= usize::MAX,
    ensures
        starts(t.text.bcc(cc, l), t.text),
        branches_behind(t.text.bcc(cc, l)),
        t.text.bcc(cc, l).labels == t.text.labels,
{
    reveal(A64State::bcc);
    branch_behind(t, l, BranchKind::Imm19, 0x5400_0000u32 | (cc.cond_bits() as u32));
}

pub(crate) proof fn jump_extends(t: A64Low, l: LabelId)
    requires
        branches_behind(t.text),
        t.text.code.len() <= usize::MAX,
    ensures
        starts(t.text.b(l), t.text),
        branches_behind(t.text.b(l)),
        t.text.b(l).labels == t.text.labels,
{
    reveal(A64State::b);
    branch_behind(t, l, BranchKind::Imm26, 0x1400_0000);
}

/// Whether the labels of the loop are there and not bound yet.
pub open spec fn bits_open(s: A64State, top: LabelId, done: LabelId) -> bool {
    &&& s.labels.len() < 0x1_0000_0000
    &&& top.0 < s.labels.len()
    &&& done.0 < s.labels.len()
    &&& top != done
    &&& s.labels[top.0 as int] is None
    &&& s.labels[done.0 as int] is None
}

/// Every part of the loop is in the code that holds the loop.
pub open spec fn bits_within(w: A64State, s: A64Low, top: LabelId, done: LabelId) -> bool {
    let t1 = s.on(s.text.bind(top));
    let t2 = bits_tested(s, top);
    let t3 = t2.on(t2.text.bcc(Cc::E, done));
    let t4 = bit_in(t3);
    let t5 = t4.on(t4.text.new_label());
    let t6 = bits_compared(s, top, done);
    let t7 = t6.on(t6.text.bcc(Cc::B, s.text.fresh()));
    let t8 = bits_met(s, top, done);
    let t9 = t8.on(t8.text.bind(s.text.fresh()));
    let t10 = bits_turned(s, top, done);
    let t11 = bits_done(s, top, done);
    &&& starts(w, s.text)
    &&& starts(w, t1.text) && branches_behind(t1.text)
    &&& starts(w, t2.text) && branches_behind(t2.text)
    &&& starts(w, t3.text) && branches_behind(t3.text)
    &&& starts(w, t4.text) && branches_behind(t4.text)
    &&& starts(w, t5.text) && branches_behind(t5.text)
    &&& starts(w, t6.text) && branches_behind(t6.text)
    &&& starts(w, t7.text) && branches_behind(t7.text)
    &&& starts(w, t8.text) && branches_behind(t8.text)
    &&& starts(w, t9.text) && branches_behind(t9.text)
    &&& starts(w, t10.text) && branches_behind(t10.text)
    &&& starts(w, t11.text) && branches_behind(t11.text)
    &&& s.text.fresh().0 < t8.text.labels.len()
    &&& done.0 < t10.text.labels.len()
}

#[verifier::spinoff_prover]
#[verifier::rlimit(40)]
pub(crate) proof fn bits_parts(w: A64State, s: A64Low, top: LabelId, done: LabelId)
    requires
        starts(w, bits_done(s, top, done).text),
        w.code.len() <= usize::MAX,
        branches_behind(s.text),
        bits_open(s.text, top, done),
    ensures
        bits_within(w, s, top, done),
        branches_behind(bits_done(s, top, done).text),
        bits_done(s, top, done).text.labels.len() == s.text.labels.len() + 1,
{
    let noset = s.text.fresh();
    let t1 = s.on(s.text.bind(top));
    bound_behind(s.text, top);
    let t2 = bits_tested(s, top);
    test_extends(t1, Reg(S2), 0);
    let t3 = t2.on(t2.text.bcc(Cc::E, done));
    let t4 = bit_in(t3);
    let t5 = t4.on(t4.text.new_label());
    let t6 = bits_compared(s, top, done);
    let t7 = t6.on(t6.text.bcc(Cc::B, noset));
    let t8 = bits_met(s, top, done);
    let t9 = t8.on(t8.text.bind(noset));
    let t10 = bits_turned(s, top, done);
    let t11 = bits_done(s, top, done);
    shorter(s, top, done);
    branch_extends(t2, Cc::E, done);
    bit_in_extends(t3);
    opened_behind(t4.text);
    test_extends(t5, Reg(8), 10);
    branch_extends(t6, Cc::B, noset);
    ten_off_extends(t7);
    assert(t8.text.labels == s.text.bind(top).labels.push(None));
    bound_behind(t8.text, noset);
    jump_extends(t9, top);
    bound_behind(t10.text, done);
    starts_trans(w, t11.text, t10.text);
    starts_trans(w, t10.text, t9.text);
    starts_trans(w, t9.text, t8.text);
    starts_trans(w, t8.text, t7.text);
    starts_trans(w, t7.text, t6.text);
    starts_trans(w, t6.text, t5.text);
    starts_trans(w, t5.text, t4.text);
    starts_trans(w, t4.text, t3.text);
    starts_trans(w, t3.text, t2.text);
    starts_trans(w, t2.text, t1.text);
    starts_trans(w, t1.text, s.text);
}

/// The loop starts behind what stands in front of it.
pub(crate) proof fn test_longer(s: A64Low, top: LabelId)
    ensures
        s.text.code.len() <= bits_tested(s, top).text.code.len(),
{
    reveal(A64State::cmp_imm);
}

/// The parts of the loop are no longer than the loop.
pub(crate) proof fn shorter(s: A64Low, top: LabelId, done: LabelId)
    ensures
        bits_tested(s, top).text.code.len() <= bits_done(s, top, done).text.code.len(),
        bits_compared(s, top, done).text.code.len() <= bits_done(s, top, done).text.code.len(),
        bits_met(s, top, done).text.code.len() <= bits_done(s, top, done).text.code.len(),
{
    reveal(A64State::sub_imm);
    reveal(A64State::lsrv);
    reveal(A64State::and);
    reveal(A64State::lsl_imm);
    reveal(A64State::orr);
    reveal(A64State::cmp_imm);
    reveal(A64State::bcc);
    reveal(A64State::b);
}

proof fn one_more_bit(q: int, rem: int, lo: int, k: nat)
    requires
        k >= 1,
        0 <= q,
        0 <= rem < 10,
        0 <= lo,
    ensures
        ({
            let m = pow2(k) as int;
            let n = pow2((k - 1) as nat) as int;
            let t = 2 * rem + lo / n % 2;
            let x = rem * m + lo % m;
            &&& m == 2 * n
            &&& n >= 1
            &&& x == t * n + lo % n
            &&& t < 20
            &&& t < 10 ==> q * m + x / 10 == (2 * q) * n + (t * n + lo % n) / 10
            &&& t >= 10 ==> q * m + x / 10 == (2 * q + 1) * n + ((t - 10) * n + lo % n) / 10
            &&& t >= 10 ==> x % 10 == ((t - 10) * n + lo % n) % 10
        }),
{
    let m = pow2(k) as int;
    let n = pow2((k - 1) as nat) as int;
    lemma_pow2_unfold(k);
    lemma_pow2_pos((k - 1) as nat);
    let b = lo / n % 2;
    let t = 2 * rem + b;
    vstd::arithmetic::div_mod::lemma_mod_breakdown(lo, n, 2);
    assert(n * 2 == m);
    assert(lo % m == n * b + lo % n);
    assert(rem * m + (n * b + lo % n) == (2 * rem + b) * n + lo % n) by (nonlinear_arith)
        requires
            m == 2 * n,
    ;
    assert(q * m == (2 * q) * n) by (nonlinear_arith)
        requires
            m == 2 * n,
    ;
    let x = t * n + lo % n;
    assert((t - 10) * n + lo % n == x - 10 * n) by (nonlinear_arith)
        requires
            x == t * n + lo % n,
    ;
    assert((2 * q + 1) * n == (2 * q) * n + n) by (nonlinear_arith);
}

/// What the loop leaves of a quotient, a remainder and the `k` low bits that are still to come.
pub open spec fn divided(c: Core, d: Core) -> bool {
    let m = pow2(c.regs[10] as nat) as int;
    let x = c.regs[8] * m + c.regs[12] as int % m;
    &&& d.regs[13] == c.regs[13] * m + x / 10
    &&& d.regs[8] == x % 10
}

#[verifier::spinoff_prover]
#[verifier::rlimit(60)]
proof fn bits_loop(w: A64State, s: A64Low, top: LabelId, done: LabelId, c: Core) -> (d: Core)
    requires
        starts(w, bits_done(s, top, done).text),
        w.code.len() <= usize::MAX,
        branches_behind(s.text),
        bits_open(s.text, top, done),
        c.wf(),
        c.regs[10] <= 64,
        c.regs[8] < 10,
        c.regs[15] == 1,
        (c.regs[13] + 1) * pow2(c.regs[10] as nat) <= SPAN,
    ensures
        reaches(w, s, c, bits_done(s, top, done), d),
        only_dividing(c, d),
        d.mem == c.mem,
        divided(c, d),
    decreases c.regs[10],
{
    bits_parts(w, s, top, done);
    let noset = s.text.fresh();
    let k = c.regs[10] as nat;
    let q = c.regs[13];
    let lo = c.regs[12];
    let rem = c.regs[8];
    let t1 = s.on(s.text.bind(top));
    let t2 = bits_tested(s, top);
    let t3 = t2.on(t2.text.bcc(Cc::E, done));
    let t4 = bit_in(t3);
    let t5 = t4.on(t4.text.new_label());
    let t6 = bits_compared(s, top, done);
    let t7 = t6.on(t6.text.bcc(Cc::B, noset));
    let t8 = bits_met(s, top, done);
    let t9 = t8.on(t8.text.bind(noset));
    let t10 = bits_turned(s, top, done);
    let t11 = bits_done(s, top, done);
    takes_nothing(t1, c);
    let c2 = test_runs(t1, t1, Reg(S2), 0, c, c);
    straight_on(w, t1, t2, c, c2);
    assert(condition(c2, cond_number(Cc::E)) == (k == 0));
    if k == 0 {
        branch_taken(w, t2, Cc::E, done, t10, c2);
        onwards(w, s, c, t2, c2, t11, c2);
        lemma2_to64();
        assert(lo as int % 1 == 0);
        c2
    } else {
        branch_passed(w, t2, Cc::E, done, c2);
        onwards(w, s, c, t2, c2, t3, c2);
        one_more_bit(q as int, rem as int, lo as int, k);
        let n = pow2((k - 1) as nat) as int;
        assert(2 * (q + 1) <= SPAN && (2 * q + 2) * n <= SPAN) by (nonlinear_arith)
            requires
                (q + 1) * (2 * n) <= SPAN,
                n >= 1,
                q >= 0,
        ;
        let c4 = bit_in_runs(t3, c2);
        straight_on(w, t3, t4, c2, c4);
        onwards(w, s, c, t3, c2, t4, c4);
        takes_nothing(t5, c4);
        let c6 = test_runs(t5, t5, Reg(8), 10, c4, c4);
        straight_on(w, t5, t6, c4, c6);
        onwards(w, s, c, t5, c4, t6, c6);
        let t = 2 * rem + lo as int / n % 2;
        assert(condition(c6, cond_number(Cc::B)) == (t < 10));
        assert((2 * q + 1) * n <= SPAN) by (nonlinear_arith)
            requires
                (2 * q + 2) * n <= SPAN,
                n >= 1,
        ;
        if t < 10 {
            branch_taken(w, t6, Cc::B, noset, t8, c6);
            onwards(w, s, c, t6, c6, t9, c6);
            jump_comes(w, t9, top, s, c6);
            onwards(w, s, c, t9, c6, s, c6);
            let d = bits_loop(w, s, top, done, c6);
            onwards(w, s, c, s, c6, t11, d);
            d
        } else {
            branch_passed(w, t6, Cc::B, noset, c6);
            onwards(w, s, c, t6, c6, t7, c6);
            let c8 = ten_off_runs(t7, c6, q);
            straight_on(w, t7, t8, c6, c8);
            onwards(w, s, c, t7, c6, t9, c8);
            jump_comes(w, t9, top, s, c8);
            onwards(w, s, c, t9, c8, s, c8);
            let d = bits_loop(w, s, top, done, c8);
            onwards(w, s, c, s, c8, t11, d);
            d
        }
    }
}

// ---------------------------------------------------------------------------
//  Loads, stores and numbers
// ---------------------------------------------------------------------------

/// Whether `t` is `s` with more straight code.
pub open spec fn grows(s: A64State, t: A64State) -> bool {
    &&& starts(t, s)
    &&& t.branches == s.branches
    &&& t.labels == s.labels
}

pub(crate) proof fn grows_trans(s: A64State, t: A64State, u: A64State)
    requires
        grows(s, t),
        grows(t, u),
    ensures
        grows(s, u),
{
    starts_trans(u, t, s);
}

proof fn words_grow(s: A64State, t: A64State)
    requires
        t.branches == s.branches,
        t.labels == s.labels,
        s.code.len() <= t.code.len(),
        t.code.take(s.code.len() as int) == s.code,
    ensures
        grows(s, t),
{
}

pub(crate) proof fn number_grows(s: A64State, rd: Reg, v: i64)
    ensures
        grows(s, s.mov_imm(rd, v)),
{
    reveal(A64State::mov_imm);
    let t = s.mov_imm(rd, v);
    assert(t.code.take(s.code.len() as int) =~= s.code);
    words_grow(s, t);
}

pub(crate) proof fn word_grows(s: A64State, i: u32)
    ensures
        grows(s, s.word(i)),
{
    assert(s.word(i).code.take(s.code.len() as int) =~= s.code);
    words_grow(s, s.word(i));
}

proof fn access_grows(
    s: A64State,
    op: u32,
    u: u32,
    r: u32,
    rt: Reg,
    rn: Reg,
    off: i64,
    size: MemSize,
)
    ensures
        grows(s, s.access(op, u, r, rt, rn, off, size)),
{
    match scaled(off, size) {
        Some(i) => word_grows(s, at_scaled(op, size, i, rn, rt)),
        None => match unscaled(off) {
            Some(i) => word_grows(s, at_unscaled(u, size, i, rn, rt)),
            None => {
                number_grows(s, Reg(17), off);
                let t = s.mov_imm(Reg(17), off);
                let i = at_register(r, size, Reg(17), rn, rt);
                word_grows(t, i);
                grows_trans(s, t, t.word(i));
            },
        },
    }
}

pub(crate) proof fn store_grows(s: A64State, rt: Reg, rn: Reg, off: i64, size: MemSize)
    ensures
        grows(s, s.store(rt, rn, off, size)),
{
    reveal(A64State::store);
    access_grows(s, 0x3900_0000, 0x3800_0000, 0x3820_6800, rt, rn, off, size);
}

pub(crate) proof fn load_grows(s: A64State, rt: Reg, rn: Reg, off: i64, size: MemSize)
    ensures
        grows(s, s.load(rt, rn, off, size)),
{
    reveal(A64State::load);
    access_grows(s, 0x3940_0000, 0x3840_0000, 0x3860_6800, rt, rn, off, size);
}

pub(crate) proof fn grown_behind(s: A64State, t: A64State)
    requires
        grows(s, t),
        branches_behind(s),
    ensures
        branches_behind(t),
{
}

/// Whether no register changed but `x17` and one more.
pub open spec fn only_reg(c: Core, d: Core, r: int) -> bool {
    &&& d.wf()
    &&& d.sp == c.sp
    &&& forall|k: int| 0 <= k < 31 && k != 17 && k != r ==> #[trigger] d.regs[k] == c.regs[k]
}

pub(crate) proof fn keep_runs(
    s: A64Low,
    t: A64Low,
    rt: Reg,
    off: i64,
    c: Core,
    d: Core,
) -> (e: Core)
    requires
        takes(s, t, c, d),
        d.wf(),
        rt.0 < 31,
        rt.0 != 17,
        in_space(d.sp + off, 8),
    ensures
        takes(s, t.on(t.text.store(rt, Reg(SP), off, MemSize::X)), c, e),
        only_reg(d, e, 17),
        e.mem == patch(d.mem, d.sp + off, 8, d.regs[index(rt)] as int),
{
    reveal(A64State::store);
    access_is_right(s, t, Access::Store, rt, Reg(SP), off, MemSize::X, c, d)
}

pub(crate) proof fn fetch_runs(
    s: A64Low,
    t: A64Low,
    rt: Reg,
    off: i64,
    c: Core,
    d: Core,
) -> (e: Core)
    requires
        takes(s, t, c, d),
        d.wf(),
        rt.0 < 31,
        rt.0 != 17,
        in_space(d.sp + off, 8),
    ensures
        takes(s, t.on(t.text.load(rt, Reg(SP), off, MemSize::X)), c, e),
        only_reg(d, e, index(rt)),
        e.mem == d.mem,
        e.regs[index(rt)] == fetch(d.mem, d.sp + off, 8),
{
    reveal(A64State::load);
    fetched_is_word(d.mem, d.sp + off, 8);
    access_is_right(s, t, Access::Load, rt, Reg(SP), off, MemSize::X, c, d)
}

// ---------------------------------------------------------------------------
//  The division
// ---------------------------------------------------------------------------

/// What the loop starts from.
pub open spec fn bits_set_up(t: A64Low) -> A64Low {
    let t = t.on(t.text.store(Reg(S2), Reg(SP), 16, MemSize::X));
    let t = t.on(t.text.store(Reg(S3), Reg(SP), 24, MemSize::X));
    let t = t.on(t.text.load(Reg(8), Reg(SP), 32, MemSize::X));
    let t = t.on(t.text.load(Reg(S4), Reg(SP), 0, MemSize::X));
    let t = t.on(t.text.mov_imm(Reg(S5), 0));
    let t = t.on(t.text.mov_imm(Reg(S2), 64));
    t.on(t.text.mov_imm(Reg(15), 1))
}

pub(crate) proof fn bits_set_up_grows(t: A64Low)
    ensures
        grows(t.text, bits_set_up(t).text),
{
    let t1 = t.text.store(Reg(S2), Reg(SP), 16, MemSize::X);
    store_grows(t.text, Reg(S2), Reg(SP), 16, MemSize::X);
    let t2 = t1.store(Reg(S3), Reg(SP), 24, MemSize::X);
    store_grows(t1, Reg(S3), Reg(SP), 24, MemSize::X);
    let t3 = t2.load(Reg(8), Reg(SP), 32, MemSize::X);
    load_grows(t2, Reg(8), Reg(SP), 32, MemSize::X);
    let t4 = t3.load(Reg(S4), Reg(SP), 0, MemSize::X);
    load_grows(t3, Reg(S4), Reg(SP), 0, MemSize::X);
    let t5 = t4.mov_imm(Reg(S5), 0);
    number_grows(t4, Reg(S5), 0);
    let t6 = t5.mov_imm(Reg(S2), 64);
    number_grows(t5, Reg(S2), 64);
    let t7 = t6.mov_imm(Reg(15), 1);
    number_grows(t6, Reg(15), 1);
    grows_trans(t.text, t1, t2);
    grows_trans(t.text, t2, t3);
    grows_trans(t.text, t3, t4);
    grows_trans(t.text, t4, t5);
    grows_trans(t.text, t5, t6);
    grows_trans(t.text, t6, t7);
}

#[verifier::spinoff_prover]
#[verifier::rlimit(40)]
proof fn bits_set_up_runs(t: A64Low, d: Core) -> (e: Core)
    requires
        d.wf(),
        in_space(d.sp as int, 40),
    ensures
        takes(t, bits_set_up(t), d, e),
        only_dividing(d, e),
        e.mem == patch(
            patch(d.mem, d.sp + 16, 8, d.regs[10] as int),
            d.sp + 24,
            8,
            d.regs[11] as int,
        ),
        e.regs[8] == fetch(d.mem, d.sp + 32, 8),
        e.regs[12] == fetch(d.mem, d.sp as int, 8),
        e.regs[13] == 0,
        e.regs[10] == 64,
        e.regs[15] == 1,
        e.regs[11] == d.regs[11],
{
    takes_nothing(t, d);
    let sp = d.sp as int;
    let t1 = t.on(t.text.store(Reg(S2), Reg(SP), 16, MemSize::X));
    let d1 = keep_runs(t, t, Reg(S2), 16, d, d);
    let t2 = t1.on(t1.text.store(Reg(S3), Reg(SP), 24, MemSize::X));
    let d2 = keep_runs(t, t1, Reg(S3), 24, d, d1);
    elsewhere_stays(d.mem, sp + 16, 8, d.regs[10] as int, sp, 8);
    elsewhere_stays(d.mem, sp + 16, 8, d.regs[10] as int, sp + 32, 8);
    elsewhere_stays(d1.mem, sp + 24, 8, d.regs[11] as int, sp, 8);
    elsewhere_stays(d1.mem, sp + 24, 8, d.regs[11] as int, sp + 32, 8);
    let t3 = t2.on(t2.text.load(Reg(8), Reg(SP), 32, MemSize::X));
    let d3 = fetch_runs(t, t2, Reg(8), 32, d, d2);
    let t4 = t3.on(t3.text.load(Reg(S4), Reg(SP), 0, MemSize::X));
    let d4 = fetch_runs(t, t3, Reg(S4), 0, d, d3);
    let t5 = t4.on(t4.text.mov_imm(Reg(S5), 0));
    let d5 = number_is_loaded(t, t4, Reg(S5), 0, d, d4);
    let t6 = t5.on(t5.text.mov_imm(Reg(S2), 64));
    let d6 = number_is_loaded(t, t5, Reg(S2), 64, d, d5);
    number_is_loaded(t, t6, Reg(15), 1, d, d6)
}

/// What is left when the loop is done.
pub open spec fn bits_put(t: A64Low) -> A64Low {
    let t = t.on(t.text.store(Reg(S5), Reg(SP), 0, MemSize::X));
    let t = t.on(t.text.load(Reg(S2), Reg(SP), 16, MemSize::X));
    t.on(t.text.load(Reg(S3), Reg(SP), 24, MemSize::X))
}

pub(crate) proof fn bits_put_grows(t: A64Low)
    ensures
        grows(t.text, bits_put(t).text),
{
    let t1 = t.text.store(Reg(S5), Reg(SP), 0, MemSize::X);
    store_grows(t.text, Reg(S5), Reg(SP), 0, MemSize::X);
    let t2 = t1.load(Reg(S2), Reg(SP), 16, MemSize::X);
    load_grows(t1, Reg(S2), Reg(SP), 16, MemSize::X);
    let t3 = t2.load(Reg(S3), Reg(SP), 24, MemSize::X);
    load_grows(t2, Reg(S3), Reg(SP), 24, MemSize::X);
    grows_trans(t.text, t1, t2);
    grows_trans(t.text, t2, t3);
}

#[verifier::spinoff_prover]
#[verifier::rlimit(40)]
proof fn bits_put_runs(t: A64Low, d: Core) -> (e: Core)
    requires
        d.wf(),
        in_space(d.sp as int, 40),
    ensures
        takes(t, bits_put(t), d, e),
        e.wf(),
        e.sp == d.sp,
        e.mem == patch(d.mem, d.sp as int, 8, d.regs[13] as int),
        e.regs[10] == fetch(d.mem, d.sp + 16, 8),
        e.regs[11] == fetch(d.mem, d.sp + 24, 8),
        forall|k: int|
            0 <= k < 31 && k != 10 && k != 11 && k != 17 ==> #[trigger] e.regs[k] == d.regs[k],
{
    takes_nothing(t, d);
    let sp = d.sp as int;
    let t1 = t.on(t.text.store(Reg(S5), Reg(SP), 0, MemSize::X));
    let d1 = keep_runs(t, t, Reg(S5), 0, d, d);
    elsewhere_stays(d.mem, sp, 8, d.regs[13] as int, sp + 16, 8);
    elsewhere_stays(d.mem, sp, 8, d.regs[13] as int, sp + 24, 8);
    let t2 = t1.on(t1.text.load(Reg(S2), Reg(SP), 16, MemSize::X));
    let d2 = fetch_runs(t, t1, Reg(S2), 16, d, d1);
    fetch_runs(t, t2, Reg(S3), 24, d, d2)
}

/// What `divmod10_128_low` leaves: the quotient in place of the low word, the remainder in
/// `x8`, and in memory beyond that only two saved registers.
pub open spec fn low_divided(c: Core, d: Core) -> bool {
    let sp = c.sp as int;
    let x = fetch(c.mem, sp + 32, 8) * SPAN + fetch(c.mem, sp, 8);
    &&& d.wf()
    &&& d.sp == c.sp
    &&& d.regs[8] == x % 10
    &&& fetch(d.mem, sp, 8) == x / 10
    &&& forall|k: int|
        0 <= k < 31 && k != 8 && k != 12 && k != 13 && k != 14 && k != 15 && k != 17
            ==> #[trigger] d.regs[k] == c.regs[k]
    &&& forall|a: int|
        !(sp <= a < sp + 8) && !(sp + 16 <= a < sp + 32) ==> #[trigger] (d.mem)(a) == (c.mem)(a)
}

proof fn bit_labels(t: A64Low)
    ensures
        bit_in(t).text.labels == t.text.labels,
{
    reveal(A64State::sub_imm);
    reveal(A64State::lsrv);
    reveal(A64State::and);
    reveal(A64State::lsl_imm);
    reveal(A64State::orr);
}

proof fn branch_labels(t: A64Low, cc: Cc, l: LabelId)
    ensures
        t.text.bcc(cc, l).labels == t.text.labels,
{
    reveal(A64State::bcc);
}

proof fn test_labels(t: A64Low, rn: Reg, v: u32)
    ensures
        t.text.cmp_imm(rn, v).labels == t.text.labels,
{
    reveal(A64State::cmp_imm);
}

proof fn no_label_in_bit(s: A64Low, top: LabelId, done: LabelId)
    requires
        top.0 < s.text.labels.len(),
    ensures
        ({
            let t = bits_tested(s, top);
            bit_in(t.on(t.text.bcc(Cc::E, done))).text.labels.len() == s.text.labels.len()
        }),
{
    let t = bits_tested(s, top);
    test_labels(s.on(s.text.bind(top)), Reg(S2), 0);
    branch_labels(t, Cc::E, done);
    bit_labels(t.on(t.text.bcc(Cc::E, done)));
}

/// The labels of the division's loop are the next two, and the loop makes a third.
pub(crate) proof fn division_code(env: A64Func, s: A64Low)
    requires
        s.text.labels.len() < 0xFFFF_FFF0,
    ensures
        ({
            let t1 = bits_set_up(s);
            let n = s.text.labels.len() as u32;
            let t2 = t1.on(t1.text.new_label().new_label());
            &&& env.divmod10_128_low(s) == bits_put(
                bits_done(t2, LabelId(n), LabelId((n + 1) as u32)),
            )
            &&& bits_open(t2.text, LabelId(n), LabelId((n + 1) as u32))
        }),
{
    reveal(A64Func::divmod10_128_low);
    bits_set_up_grows(s);
    let t1 = bits_set_up(s);
    let n = s.text.labels.len() as u32;
    let t2 = t1.on(t1.text.new_label().new_label());
    let top = LabelId(n);
    let done = LabelId((n + 1) as u32);
    assert(t1.text.fresh() == top);
    assert(t1.text.new_label().fresh() == done);
    let t3 = bits_tested(t2, top);
    let t4 = t3.on(t3.text.bcc(Cc::E, done));
    let t5 = bit_in(t4);
    no_label_in_bit(t2, top, done);
    assert(t5.text.fresh() == t2.text.fresh());
}

/// Dividing by ten bit by bit divides: the high remainder and the low word, as one number,
/// leave their quotient by ten in place of the low word and the remainder in `x8`.
#[verifier::spinoff_prover]
#[verifier::rlimit(60)]
pub proof fn low_word_is_divided(env: A64Func, w: A64State, s: A64Low, c: Core) -> (d: Core)
    requires
        starts(w, env.divmod10_128_low(s).text),
        w.code.len() <= usize::MAX,
        branches_behind(s.text),
        s.text.labels.len() < 0xFFFF_FFF0,
        c.wf(),
        in_space(c.sp as int, 40),
        fetch(c.mem, c.sp + 32, 8) < 10,
    ensures
        reaches(w, s, c, env.divmod10_128_low(s), d),
        low_divided(c, d),
        branches_behind(env.divmod10_128_low(s).text),
{
    let sp = c.sp as int;
    let r = fetch(c.mem, sp + 32, 8);
    let lo = fetch(c.mem, sp, 8);
    fetch_bounded(c.mem, sp, 8);
    fetch_bounded(c.mem, sp + 32, 8);
    pow256_values();
    division_code(env, s);
    let n = s.text.labels.len() as u32;
    let top = LabelId(n);
    let done = LabelId((n + 1) as u32);
    let t1 = bits_set_up(s);
    let t2 = t1.on(t1.text.new_label().new_label());
    let t3 = bits_done(t2, top, done);
    let u = bits_put(t3);
    bits_set_up_grows(s);
    grown_behind(s.text, t1.text);
    opened_behind(t1.text);
    opened_behind(t1.text.new_label());
    starts_trans(t2.text, t1.text.new_label(), t1.text);
    bits_put_grows(t3);
    starts_trans(w, u.text, t3.text);
    bits_parts(w, t2, top, done);
    grown_behind(t3.text, u.text);
    starts_trans(w, t2.text, t1.text);
    let c1 = bits_set_up_runs(s, c);
    straight_on(w, s, t1, c, c1);
    lemma2_to64_rest();
    let c3 = bits_loop(w, t2, top, done, c1);
    onwards(w, s, c, t2, c1, t3, c3);
    let d = bits_put_runs(t3, c3);
    straight_on(w, t3, u, c3, d);
    onwards(w, s, c, t3, c3, u, d);
    let x = r * SPAN + lo;
    assert(lo % (SPAN as int) == lo);
    assert(c3.regs[13] == x / 10 && c3.regs[8] == x % 10);
    let m1 = patch(c.mem, sp + 16, 8, c.regs[10] as int);
    written_is_read(c.mem, sp + 16, 8, c.regs[10] as int);
    elsewhere_stays(m1, sp + 24, 8, c.regs[11] as int, sp + 16, 8);
    written_is_read(m1, sp + 24, 8, c.regs[11] as int);
    written_is_read(c3.mem, sp, 8, c3.regs[13] as int);
    assert forall|k: int|
        0 <= k < 31 && k != 8 && k != 12 && k != 13 && k != 14 && k != 15 && k != 17 implies
        #[trigger] d.regs[k] == c.regs[k] by {
        if k != 10 && k != 11 {
            assert(c1.regs[k] == c.regs[k]);
            assert(c3.regs[k] == c1.regs[k]);
        }
    }
    d
}

} // verus!
