//! What printing code does: numbers of one and two words, written in decimal at the cursor.
use vstd::prelude::*;

use crate::behavior::labels_once;
use crate::bytes::wrap64;
use crate::encode::{AsmState, Cc, LabelId};
use crate::lower::effects::{takes, takes_nothing, tells, with_itself};
use crate::lower::env::{Env, LowState};
use crate::lower::follow::{
    follow_add_ri, follow_div_r, follow_mov_load, follow_mov_load_mem, follow_mov_ri, follow_mov_rr,
    follow_mov_store8_mem, follow_mov_store_mem, follow_movzx8_mem, follow_neg_r, follow_not_r,
    follow_or_rr, follow_sub_rr, follow_test_rr, follow_zero_rdx,
};
use crate::lower::intr::ONE_LESS;
use crate::lower::loops::{
    branch_passed, branch_taken, jump_comes, onwards, past_label, reaches, starts, starts_trans,
    straight_on, within,
};
use crate::lower::mem_effects::{copied, fetched_is_word, kept_but};
use crate::lower::print::{WIDE_HI_SLOT, WIDE_LO_SLOT};
use crate::lower::scalar::sum32;
use crate::machine::{
    Bytes, Cpu, SPAN, byte_at, elsewhere_stays, fetch, fetch_bounded, in_space, low_bytes, patch,
    pow256_values, signed64, written_is_read,
};
use crate::peephole::Ins;
use crate::reg::{Gpr, gpr_codes_distinct};
use crate::steps::index;
use crate::text::{decimal, digit};

verus! {

// ---------------------------------------------------------------------------
//  Copying to the cursor
// ---------------------------------------------------------------------------

/// One byte of a copy.
pub open spec fn copy_byte(t: LowState) -> LowState {
    let t = t.on(t.text.movzx8_mem(Gpr::Rdx, Gpr::Rax, 0));
    let t = t.on(t.text.mov_store8_mem(Gpr::R11, 0, Gpr::Rdx));
    let t = t.on(t.text.add_ri(Gpr::Rax, 1));
    let t = t.on(t.text.add_ri(Gpr::R11, 1));
    t.on(t.text.add_ri(Gpr::Rcx, ONE_LESS))
}

/// The registers that printing uses.
pub open spec fn print_regs() -> Set<Gpr> {
    set![Gpr::Rax, Gpr::Rcx, Gpr::Rdx, Gpr::Rsi, Gpr::Rdi, Gpr::R11]
}

/// Whether no register changed but those that printing uses.
pub open spec fn only_printing(c: Cpu, d: Cpu) -> bool {
    kept_but(c, d, print_regs())
}

/// The numbers of the registers that printing uses are those of no others.
pub(crate) proof fn printing_apart(r: Gpr)
    requires
        !print_regs().contains(r),
    ensures
        0 <= index(r) < 16,
        index(r) != 0,
        index(r) != 1,
        index(r) != 2,
        index(r) != 6,
        index(r) != 7,
        index(r) != 11,
{
    gpr_codes_distinct(r, Gpr::Rax);
    gpr_codes_distinct(r, Gpr::Rcx);
    gpr_codes_distinct(r, Gpr::Rdx);
    gpr_codes_distinct(r, Gpr::Rsi);
    gpr_codes_distinct(r, Gpr::Rdi);
    gpr_codes_distinct(r, Gpr::R11);
}

proof fn copy_byte_extends(t: LowState)
    ensures
        starts(copy_byte(t).text.instrs, t.text.instrs),
{
    reveal(AsmState::movzx8_mem);
    reveal(AsmState::mov_store8_mem);
    reveal(AsmState::add_ri);
    let u = copy_byte(t);
    assert(u.text.instrs.len() == t.text.instrs.len() + 5);
    assert(u.text.instrs.take(t.text.instrs.len() as int) =~= t.text.instrs);
}

pub(crate) proof fn byte_moves(m: Bytes, a: int)
    ensures
        wrap64(low_bytes(fetch(m, a, 1), 1, false)) == m(a),
        byte_at(m(a) as int, 0) == m(a),
{
    fetched_is_word(m, a, 1);
    reveal_with_fuel(fetch, 2);
    reveal_with_fuel(byte_at, 2);
}

#[verifier::spinoff_prover]
proof fn copy_byte_runs(s: LowState, t: LowState, c: Cpu, d: Cpu) -> (e: Cpu)
    requires
        takes(s, t, c, d),
        d.wf(),
        d.reg(0) + 1 < SPAN,
        d.reg(11) + 1 < SPAN,
        d.reg(1) > 0,
    ensures
        takes(s, copy_byte(t), c, e),
        only_printing(d, e),
        e.reg(0) == d.reg(0) + 1,
        e.reg(11) == d.reg(11) + 1,
        e.reg(1) == d.reg(1) - 1,
        e.reg(6) == d.reg(6),
        e.reg(7) == d.reg(7),
        forall|x: int| #[trigger]
            (e.mem)(x) == if x == d.reg(11) {
                (d.mem)(d.reg(0) as int)
            } else {
                (d.mem)(x)
            },
{
    assert(index(Gpr::Rax) == 0 && index(Gpr::Rcx) == 1 && index(Gpr::Rdx) == 2);
    assert(index(Gpr::R11) == 11 && index(Gpr::Rsi) == 6 && index(Gpr::Rdi) == 7);
    byte_moves(d.mem, d.reg(0) as int);
    let t1 = t.on(t.text.movzx8_mem(Gpr::Rdx, Gpr::Rax, 0));
    let d1 = follow_movzx8_mem(s, t, Gpr::Rdx, Gpr::Rax, 0, c, d);
    assert(d1.reg(2) == (d.mem)(d.reg(0) as int));
    let t2 = t1.on(t1.text.mov_store8_mem(Gpr::R11, 0, Gpr::Rdx));
    let d2 = follow_mov_store8_mem(s, t1, Gpr::R11, 0, Gpr::Rdx, c, d1);
    let t3 = t2.on(t2.text.add_ri(Gpr::Rax, 1));
    let d3 = follow_add_ri(s, t2, Gpr::Rax, 1, c, d2);
    let t4 = t3.on(t3.text.add_ri(Gpr::R11, 1));
    let d4 = follow_add_ri(s, t3, Gpr::R11, 1, c, d3);
    let e = follow_add_ri(s, t4, Gpr::Rcx, ONE_LESS, c, d4);
    assert forall|r: Gpr| !print_regs().contains(r) implies #[trigger] e.reg(index(r)) == d.reg(
        index(r),
    ) by {
        printing_apart(r);
    }
    e
}

/// The label of a copy loop and its test.
pub open spec fn copy_tested(s: LowState, top: LabelId) -> LowState {
    let t = s.on(s.text.bind(top));
    t.on(t.text.test_rr(Gpr::Rcx, Gpr::Rcx))
}

/// A copy loop up to its jump back.
pub open spec fn copy_turned(s: LowState, top: LabelId, end: LabelId) -> LowState {
    let t = copy_tested(s, top);
    let t = t.on(t.text.jcc_local(Cc::E, end));
    let t = copy_byte(t);
    t.on(t.text.jmp_local(top))
}

/// A copy loop.
pub open spec fn copy_done(s: LowState, top: LabelId, end: LabelId) -> LowState {
    let t = copy_turned(s, top, end);
    t.on(t.text.bind(end))
}

pub(crate) proof fn copy_parts(w: Seq<Ins>, s: LowState, top: LabelId, end: LabelId)
    requires
        within(w, copy_done(s, top, end)),
    ensures
        ({
            let t1 = s.on(s.text.bind(top));
            let t2 = copy_tested(s, top);
            let t3 = t2.on(t2.text.jcc_local(Cc::E, end));
            let t4 = copy_byte(t3);
            let t5 = copy_turned(s, top, end);
            &&& within(w, t1)
            &&& within(w, t2)
            &&& within(w, t3)
            &&& within(w, t4)
            &&& within(w, t5)
            &&& within(w, s)
        }),
{
    reveal(AsmState::test_rr);
    reveal(AsmState::jcc_local);
    reveal(AsmState::jmp_local);
    let t1 = s.on(s.text.bind(top));
    let t2 = copy_tested(s, top);
    let t3 = t2.on(t2.text.jcc_local(Cc::E, end));
    let t4 = copy_byte(t3);
    let t5 = copy_turned(s, top, end);
    let t6 = copy_done(s, top, end);
    pushed(t5, t6);
    starts_trans(w, t6.text.instrs, t5.text.instrs);
    pushed(t4, t5);
    starts_trans(w, t5.text.instrs, t4.text.instrs);
    copy_byte_extends(t3);
    starts_trans(w, t4.text.instrs, t3.text.instrs);
    pushed(t2, t3);
    starts_trans(w, t3.text.instrs, t2.text.instrs);
    pushed(t1, t2);
    starts_trans(w, t2.text.instrs, t1.text.instrs);
    pushed(s, t1);
    starts_trans(w, t1.text.instrs, s.text.instrs);
}

proof fn pushed(s: LowState, t: LowState)
    requires
        t.text.instrs.len() == s.text.instrs.len() + 1,
        t.text.instrs == s.text.instrs.push(t.text.instrs.last()),
    ensures
        starts(t.text.instrs, s.text.instrs),
{
    assert(t.text.instrs.take(s.text.instrs.len() as int) =~= s.text.instrs);
}

/// Whether the bytes from `a` on can be copied to `b`.
pub open spec fn copyable(a: int, b: int, n: int) -> bool {
    &&& 0 <= a
    &&& 0 <= b
    &&& a + n < SPAN
    &&& b + n < SPAN
    &&& a + n <= b || b + n <= a
}

#[verifier::spinoff_prover]
#[verifier::rlimit(30)]
pub(crate) proof fn copy_loops(
    w: Seq<Ins>,
    s: LowState,
    top: LabelId,
    end: LabelId,
    c: Cpu,
) -> (d: Cpu)
    requires
        labels_once(w),
        within(w, copy_done(s, top, end)),
        c.wf(),
        copyable(c.reg(0) as int, c.reg(11) as int, c.reg(1) as int),
    ensures
        reaches(w, s, c, copy_done(s, top, end), d),
        only_printing(c, d),
        d.reg(11) == c.reg(11) + c.reg(1),
        copied(c.mem, d.mem, c.reg(11) as int, c.reg(0) as int, c.reg(1) as int),
    decreases c.reg(1),
{
    copy_parts(w, s, top, end);
    assert(index(Gpr::Rcx) == 1);
    let n = c.reg(1);
    let t1 = s.on(s.text.bind(top));
    let t2 = copy_tested(s, top);
    let t3 = t2.on(t2.text.jcc_local(Cc::E, end));
    let t4 = copy_byte(t3);
    let t5 = copy_turned(s, top, end);
    let t6 = copy_done(s, top, end);
    past_label(w, s, top, c);
    takes_nothing(t1, c);
    let c2 = follow_test_rr(t1, t1, Gpr::Rcx, Gpr::Rcx, c, c);
    straight_on(w, t1, t2, c, c2);
    onwards(w, s, c, t1, c, t2, c2);
    with_itself(n);
    assert(tells(c2, Cc::E) == Some(n == 0));
    assert(c2.regs == c.regs && c2.mem == c.mem);
    if n == 0 {
        branch_taken(w, t2, Cc::E, end, t5, c2);
        onwards(w, s, c, t2, c2, t5, c2);
        past_label(w, t5, end, c2);
        onwards(w, s, c, t5, c2, t6, c2);
        c2
    } else {
        branch_passed(w, t2, Cc::E, end, c2);
        onwards(w, s, c, t2, c2, t3, c2);
        takes_nothing(t3, c2);
        let c4 = copy_byte_runs(t3, t3, c2, c2);
        straight_on(w, t3, t4, c2, c4);
        onwards(w, s, c, t3, c2, t4, c4);
        jump_comes(w, t4, top, s, c4);
        onwards(w, s, c, t4, c4, s, c4);
        let d = copy_loops(w, s, top, end, c4);
        onwards(w, s, c, s, c4, t6, d);
        assert forall|x: int| #[trigger]
            (d.mem)(x) == if c.reg(11) <= x < c.reg(11) + n {
                (c.mem)(c.reg(0) + (x - c.reg(11)))
            } else {
                (c.mem)(x)
            } by {
            let y = c4.reg(0) + (x - c4.reg(11));
            assert(y == c.reg(0) + (x - c.reg(11)));
            assert((c4.mem)(y) == if y == c.reg(11) {
                (c.mem)(c.reg(0) as int)
            } else {
                (c.mem)(y)
            });
            assert((c4.mem)(x) == if x == c.reg(11) {
                (c.mem)(c.reg(0) as int)
            } else {
                (c.mem)(x)
            });
        }
        d
    }
}

// ---------------------------------------------------------------------------
//  Digits of one word
// ---------------------------------------------------------------------------

/// Ten to the `k`.
pub open spec fn ten_to(k: nat) -> nat
    decreases k,
{
    if k == 0 {
        1
    } else {
        10 * ten_to((k - 1) as nat)
    }
}

/// A number below ten to the `k` has at most `k` digits.
pub proof fn digits_few(n: nat, k: nat)
    requires
        k >= 1,
        n < ten_to(k),
    ensures
        1 <= decimal(n).len() <= k,
    decreases k,
{
    if n >= 10 {
        if k == 1 {
            assert(ten_to(1) == 10) by {
                reveal_with_fuel(ten_to, 2);
            }
        } else {
            assert(n / 10 < ten_to((k - 1) as nat));
            digits_few(n / 10, (k - 1) as nat);
        }
    }
}

proof fn digit_code(d: int)
    requires
        0 <= d < 10,
    ensures
        digit(d) as u8 == 48 + d,
{
}

/// One digit: `rax` over ten, the remainder in front of what is written.
pub open spec fn next_digit(t: LowState) -> LowState {
    let t = t.on(t.text.zero_rdx());
    let t = t.on(t.text.mov_ri(Gpr::Rcx, 10));
    let t = t.on(t.text.div_r(Gpr::Rcx));
    let t = t.on(t.text.add_ri(Gpr::Rdi, ONE_LESS));
    let t = t.on(t.text.add_ri(Gpr::Rdx, 48));
    let t = t.on(t.text.mov_store8_mem(Gpr::Rdi, 0, Gpr::Rdx));
    t.on(t.text.test_rr(Gpr::Rax, Gpr::Rax))
}

proof fn next_digit_extends(t: LowState)
    ensures
        starts(next_digit(t).text.instrs, t.text.instrs),
{
    reveal(AsmState::zero_rdx);
    reveal(AsmState::mov_ri);
    reveal(AsmState::div_r);
    reveal(AsmState::add_ri);
    reveal(AsmState::mov_store8_mem);
    reveal(AsmState::test_rr);
    let u = next_digit(t);
    assert(u.text.instrs.len() == t.text.instrs.len() + 7);
    assert(u.text.instrs.take(t.text.instrs.len() as int) =~= t.text.instrs);
}

#[verifier::spinoff_prover]
#[verifier::rlimit(30)]
proof fn next_digit_runs(s: LowState, t: LowState, c: Cpu, d: Cpu) -> (e: Cpu)
    requires
        takes(s, t, c, d),
        d.wf(),
        d.reg(7) > 0,
    ensures
        takes(s, next_digit(t), c, e),
        only_printing(d, e),
        e.reg(0) == d.reg(0) / 10,
        e.reg(6) == d.reg(6),
        e.reg(7) == d.reg(7) - 1,
        e.reg(11) == d.reg(11),
        tells(e, Cc::Ne) == Some(d.reg(0) / 10 != 0),
        forall|x: int| #[trigger]
            (e.mem)(x) == if x == d.reg(7) - 1 {
                (48 + d.reg(0) % 10) as u8
            } else {
                (d.mem)(x)
            },
{
    assert(index(Gpr::Rax) == 0 && index(Gpr::Rcx) == 1 && index(Gpr::Rdx) == 2);
    assert(index(Gpr::R11) == 11 && index(Gpr::Rsi) == 6 && index(Gpr::Rdi) == 7);
    let x = d.reg(0);
    let z = d.reg(2);
    with_itself(z);
    let t1 = t.on(t.text.zero_rdx());
    let d1 = follow_zero_rdx(s, t, c, d);
    let t2 = t1.on(t1.text.mov_ri(Gpr::Rcx, 10));
    let d2 = follow_mov_ri(s, t1, Gpr::Rcx, 10, c, d1);
    assert(d2.reg(1) == 10 && d2.reg(2) == 0 && d2.reg(0) == x);
    assert(d2.reg(2) * SPAN + d2.reg(0) == x);
    let t3 = t2.on(t2.text.div_r(Gpr::Rcx));
    let d3 = follow_div_r(s, t2, Gpr::Rcx, c, d2);
    assert(d3.reg(0) == x / 10 && d3.reg(2) == x % 10);
    let t4 = t3.on(t3.text.add_ri(Gpr::Rdi, ONE_LESS));
    let d4 = follow_add_ri(s, t3, Gpr::Rdi, ONE_LESS, c, d3);
    let t5 = t4.on(t4.text.add_ri(Gpr::Rdx, 48));
    let d5 = follow_add_ri(s, t4, Gpr::Rdx, 48, c, d4);
    assert(d5.reg(2) == 48 + x % 10);
    let t6 = t5.on(t5.text.mov_store8_mem(Gpr::Rdi, 0, Gpr::Rdx));
    let d6 = follow_mov_store8_mem(s, t5, Gpr::Rdi, 0, Gpr::Rdx, c, d5);
    let q = (x / 10) as u64;
    with_itself(q);
    let e = follow_test_rr(s, t6, Gpr::Rax, Gpr::Rax, c, d6);
    assert(byte_at((48 + x % 10) as int, 0) == (48 + x % 10) as u8) by {
        reveal_with_fuel(byte_at, 2);
    }
    assert forall|r: Gpr| !print_regs().contains(r) implies #[trigger] e.reg(index(r)) == d.reg(
        index(r),
    ) by {
        printing_apart(r);
    }
    e
}

/// Whether `k` is `m` with `text` in front of `end`, but for what stands from `lo` to `hi`.
pub open spec fn written(m: Bytes, k: Bytes, text: Seq<char>, end: int, lo: int, hi: int) -> bool {
    &&& forall|x: int|
        end - text.len() <= x < end ==> #[trigger] k(x) == text[x - (end - text.len())] as u8
    &&& forall|x: int|
        !(end - text.len() <= x < end) && !(lo <= x < hi) ==> #[trigger] k(x) == m(x)
}

pub(crate) proof fn digit_in_front(
    m: Bytes,
    m1: Bytes,
    k: Bytes,
    v: nat,
    end: int,
    lo: int,
    hi: int,
)
    requires
        v >= 10,
        !(lo <= end - 1 < hi),
        m1(end - 1) == (48 + v % 10) as u8,
        forall|x: int| x != end - 1 && !(lo <= x < hi) ==> #[trigger] m1(x) == m(x),
        written(m1, k, decimal(v / 10), end - 1, lo, hi),
    ensures
        written(m, k, decimal(v), end, lo, hi),
{
    let a = decimal(v / 10);
    let b = decimal(v);
    assert(b == a.push(digit((v % 10) as int)));
    digit_code((v % 10) as int);
    let n = b.len();
    assert forall|x: int| end - n <= x < end implies #[trigger] k(x) == b[x - (end - n)] as u8 by {
        if x == end - 1 {
            assert(k(x) == m1(x));
        } else {
            assert(k(x) == a[x - (end - 1 - a.len())] as u8);
        }
    }
    assert forall|x: int| !(end - n <= x < end) && !(lo <= x < hi) implies #[trigger] k(x) == m(
        x,
    ) by {
        assert(k(x) == m1(x));
    }
}

pub(crate) proof fn only_digit(m: Bytes, k: Bytes, v: nat, end: int, lo: int, hi: int)
    requires
        v < 10,
        k(end - 1) == (48 + v) as u8,
        forall|x: int| x != end - 1 && !(lo <= x < hi) ==> #[trigger] k(x) == m(x),
    ensures
        written(m, k, decimal(v), end, lo, hi),
{
    digit_code(v as int);
    let b = decimal(v);
    assert(b == seq![digit(v as int)]);
    assert forall|x: int| end - b.len() <= x < end implies #[trigger] k(x) == b[x - (end
        - b.len())] as u8 by {
        assert(x == end - 1);
    }
}

/// The code of a digit loop: its label, the digit and the jump back.
pub open spec fn digits_done(s: LowState, top: LabelId) -> LowState {
    let t = s.on(s.text.bind(top));
    let t = next_digit(t);
    t.on(t.text.jcc_local(Cc::Ne, top))
}

#[verifier::spinoff_prover]
#[verifier::rlimit(30)]
proof fn digits_loop(w: Seq<Ins>, s: LowState, top: LabelId, c: Cpu) -> (d: Cpu)
    requires
        labels_once(w),
        within(w, digits_done(s, top)),
        c.wf(),
        decimal(c.reg(0) as nat).len() <= c.reg(7),
    ensures
        reaches(w, s, c, digits_done(s, top), d),
        only_printing(c, d),
        d.reg(6) == c.reg(6),
        d.reg(7) == c.reg(7) - decimal(c.reg(0) as nat).len(),
        d.reg(11) == c.reg(11),
        written(c.mem, d.mem, decimal(c.reg(0) as nat), c.reg(7) as int, 0, 0),
    decreases c.reg(0),
{
    let v = c.reg(0) as nat;
    let t1 = s.on(s.text.bind(top));
    let t2 = next_digit(t1);
    let t3 = digits_done(s, top);
    reveal(AsmState::jcc_local);
    pushed(t2, t3);
    starts_trans(w, t3.text.instrs, t2.text.instrs);
    next_digit_extends(t1);
    starts_trans(w, t2.text.instrs, t1.text.instrs);
    past_label(w, s, top, c);
    takes_nothing(t1, c);
    assert(decimal(v).len() >= 1) by {
        if v >= 10 {
            assert(decimal(v) == decimal(v / 10).push(digit((v % 10) as int)));
        }
    }
    let c2 = next_digit_runs(t1, t1, c, c);
    straight_on(w, t1, t2, c, c2);
    onwards(w, s, c, t1, c, t2, c2);
    let end = c.reg(7) as int;
    if v < 10 {
        branch_passed(w, t2, Cc::Ne, top, c2);
        onwards(w, s, c, t2, c2, t3, c2);
        only_digit(c.mem, c2.mem, v, end, 0, 0);
        c2
    } else {
        branch_taken(w, t2, Cc::Ne, top, s, c2);
        onwards(w, s, c, t2, c2, s, c2);
        assert(decimal(v).len() == decimal(v / 10).len() + 1);
        let d = digits_loop(w, s, top, c2);
        onwards(w, s, c, s, c2, t3, d);
        digit_in_front(c.mem, c2.mem, d.mem, v, end, 0, 0);
        d
    }
}

// ---------------------------------------------------------------------------
//  From the scratch room to the cursor
// ---------------------------------------------------------------------------

/// `rcx` and `rax` as the copy wants them.
pub open spec fn copy_set_up(t: LowState) -> LowState {
    let t = t.on(t.text.mov_rr(Gpr::Rcx, Gpr::Rsi));
    let t = t.on(t.text.sub_rr(Gpr::Rcx, Gpr::Rdi));
    t.on(t.text.mov_rr(Gpr::Rax, Gpr::Rdi))
}

proof fn copy_set_up_extends(t: LowState)
    ensures
        starts(copy_set_up(t).text.instrs, t.text.instrs),
{
    reveal(AsmState::mov_rr);
    reveal(AsmState::sub_rr);
    let u = copy_set_up(t);
    assert(u.text.instrs.len() == t.text.instrs.len() + 3);
    assert(u.text.instrs.take(t.text.instrs.len() as int) =~= t.text.instrs);
}

#[verifier::spinoff_prover]
proof fn copy_set_up_runs(s: LowState, t: LowState, c: Cpu, d: Cpu) -> (e: Cpu)
    requires
        takes(s, t, c, d),
        d.wf(),
        d.reg(7) <= d.reg(6),
    ensures
        takes(s, copy_set_up(t), c, e),
        only_printing(d, e),
        e.mem == d.mem,
        e.reg(0) == d.reg(7),
        e.reg(1) == d.reg(6) - d.reg(7),
        e.reg(11) == d.reg(11),
{
    assert(index(Gpr::Rax) == 0 && index(Gpr::Rcx) == 1);
    assert(index(Gpr::Rsi) == 6 && index(Gpr::Rdi) == 7);
    let t1 = t.on(t.text.mov_rr(Gpr::Rcx, Gpr::Rsi));
    let d1 = follow_mov_rr(s, t, Gpr::Rcx, Gpr::Rsi, c, d);
    let t2 = t1.on(t1.text.sub_rr(Gpr::Rcx, Gpr::Rdi));
    let d2 = follow_sub_rr(s, t1, Gpr::Rcx, Gpr::Rdi, c, d1);
    let e = follow_mov_rr(s, t2, Gpr::Rax, Gpr::Rdi, c, d2);
    assert forall|r: Gpr| !print_regs().contains(r) implies #[trigger] e.reg(index(r)) == d.reg(
        index(r),
    ) by {
        printing_apart(r);
    }
    e
}

pub(crate) proof fn kept_both(c: Cpu, d: Cpu, e: Cpu)
    requires
        only_printing(c, d),
        only_printing(d, e),
    ensures
        only_printing(c, e),
{
    assert forall|r: Gpr| !print_regs().contains(r) implies #[trigger] e.reg(index(r)) == c.reg(
        index(r),
    ) by {
        assert(d.reg(index(r)) == c.reg(index(r)));
    }
}

pub(crate) proof fn scratch_within(env: Env, w: Seq<Ins>, t: LowState)
    requires
        within(w, env.copy_scratch_to_cursor(t)),
    ensures
        within(w, t),
{
    reveal(Env::copy_scratch_to_cursor);
    reveal(Env::copy_runtime_len_to_cursor);
    let t1 = copy_set_up(t);
    let top = t1.text.fresh();
    let t2 = t1.on(t1.text.new_label());
    let end = t2.text.fresh();
    let t3 = t2.on(t2.text.new_label());
    assert(env.copy_scratch_to_cursor(t) == copy_done(t3, top, end));
    copy_parts(w, t3, top, end);
    copy_set_up_extends(t);
    starts_trans(w, t1.text.instrs, t.text.instrs);
}

/// What stands between `rdi` and `rsi` goes to the cursor, which goes on behind it.
pub(crate) proof fn scratch_is_copied(env: Env, w: Seq<Ins>, t: LowState, c: Cpu) -> (d: Cpu)
    requires
        labels_once(w),
        within(w, env.copy_scratch_to_cursor(t)),
        c.wf(),
        c.reg(7) <= c.reg(6),
        copyable(c.reg(7) as int, c.reg(11) as int, c.reg(6) - c.reg(7)),
    ensures
        reaches(w, t, c, env.copy_scratch_to_cursor(t), d),
        only_printing(c, d),
        d.reg(11) == c.reg(11) + (c.reg(6) - c.reg(7)),
        copied(c.mem, d.mem, c.reg(11) as int, c.reg(7) as int, c.reg(6) - c.reg(7)),
{
    reveal(Env::copy_scratch_to_cursor);
    reveal(Env::copy_runtime_len_to_cursor);
    let t1 = copy_set_up(t);
    let top = t1.text.fresh();
    let t2 = t1.on(t1.text.new_label());
    let end = t2.text.fresh();
    let t3 = t2.on(t2.text.new_label());
    let u = copy_done(t3, top, end);
    assert(env.copy_scratch_to_cursor(t) == u);
    copy_parts(w, t3, top, end);
    takes_nothing(t, c);
    let c1 = copy_set_up_runs(t, t, c, c);
    straight_on(w, t, t1, c, c1);
    let d = copy_loops(w, t3, top, end, c1);
    onwards(w, t, c, t3, c1, u, d);
    kept_both(c, c1, d);
    d
}

/// Text that stands below `end`, copied to the cursor.
pub(crate) proof fn text_is_copied(
    m: Bytes,
    k: Bytes,
    j: Bytes,
    text: Seq<char>,
    end: int,
    at: int,
    lo: int,
    hi: int,
)
    requires
        lo <= end - text.len(),
        end <= hi,
        at + text.len() <= lo || hi <= at,
        written(m, k, text, end, lo, hi),
        copied(k, j, at, end - text.len(), text.len() as int),
    ensures
        written(m, j, text, at + text.len(), lo, hi),
{
    let n = text.len() as int;
    assert forall|x: int| at <= x < at + n implies #[trigger] j(x) == text[x - at] as u8 by {
        assert(j(x) == k(end - n + (x - at)));
    }
    assert forall|x: int| !(at <= x < at + n) && !(lo <= x < hi) implies #[trigger] j(x) == m(
        x,
    ) by {
        assert(j(x) == k(x));
    }
}

/// `rsi` and `rdi` at the end of the scratch room.
#[verifier::spinoff_prover]
#[verifier::rlimit(30)]
pub(crate) proof fn scratch_runs(
    env: Env,
    s: LowState,
    t: LowState,
    end: i32,
    c: Cpu,
    d: Cpu,
) -> (e: Cpu)
    requires
        takes(s, t, c, d),
        d.wf(),
        0 <= end,
        d.reg(4) + end < SPAN,
    ensures
        takes(s, env.scratch_at(t, end), c, e),
        only_printing(d, e),
        e.mem == d.mem,
        e.reg(0) == d.reg(0),
        e.reg(2) == d.reg(2),
        e.reg(6) == d.reg(4) + end,
        e.reg(7) == d.reg(4) + end,
        e.reg(11) == d.reg(11),
{
    reveal(Env::scratch_at);
    assert(index(Gpr::Rsp) == 4 && index(Gpr::Rsi) == 6 && index(Gpr::Rdi) == 7);
    let t1 = t.on(t.text.mov_rr(Gpr::Rsi, Gpr::Rsp));
    let d1 = follow_mov_rr(s, t, Gpr::Rsi, Gpr::Rsp, c, d);
    let t2 = t1.on(t1.text.add_ri(Gpr::Rsi, end));
    let d2 = follow_add_ri(s, t1, Gpr::Rsi, end, c, d1);
    let e = follow_mov_rr(s, t2, Gpr::Rdi, Gpr::Rsi, c, d2);
    assert forall|r: Gpr| !print_regs().contains(r) implies #[trigger] e.reg(index(r)) == d.reg(
        index(r),
    ) by {
        printing_apart(r);
    }
    e
}

pub(crate) proof fn stack_kept(c: Cpu, d: Cpu)
    requires
        only_printing(c, d),
    ensures
        d.reg(4) == c.reg(4),
        d.reg(5) == c.reg(5),
{
    assert(index(Gpr::Rsp) == 4 && index(Gpr::Rbp) == 5);
    assert(!print_regs().contains(Gpr::Rsp) && !print_regs().contains(Gpr::Rbp));
    assert(d.reg(index(Gpr::Rsp)) == c.reg(index(Gpr::Rsp)));
    assert(d.reg(index(Gpr::Rbp)) == c.reg(index(Gpr::Rbp)));
}

/// Whether `n` bytes at the cursor stand clear of the `room` bytes at the top of the stack.
pub open spec fn cursor_clear(c: Cpu, n: int, room: int) -> bool {
    &&& c.reg(4) + room < SPAN
    &&& c.reg(11) + n < SPAN
    &&& c.reg(11) + n <= c.reg(4) || c.reg(4) + room <= c.reg(11)
}

proof fn word_digits(x: u64)
    ensures
        1 <= decimal(x as nat).len() <= 20,
{
    reveal_with_fuel(ten_to, 21);
    digits_few(x as nat, 20);
}

/// The decimal digits of `rax` go to the cursor, which goes on behind them; beyond that only
/// the scratch room at the top of the stack is written to.
#[verifier::spinoff_prover]
pub proof fn word_is_printed(env: Env, w: Seq<Ins>, s: LowState, c: Cpu) -> (d: Cpu)
    requires
        labels_once(w),
        within(w, env.emit_u64_digits(s)),
        c.wf(),
        cursor_clear(c, 20, 24),
    ensures
        reaches(w, s, c, env.emit_u64_digits(s), d),
        only_printing(c, d),
        d.reg(11) == c.reg(11) + decimal(c.reg(0) as nat).len(),
        written(
            c.mem,
            d.mem,
            decimal(c.reg(0) as nat),
            d.reg(11) as int,
            c.reg(4) as int,
            c.reg(4) + 24,
        ),
        within(w, s),
{
    reveal(Env::emit_u64_digits);
    let t1 = env.scratch_at(s, 24);
    let top = t1.text.fresh();
    let t2 = t1.on(t1.text.new_label());
    let t3 = digits_done(t2, top);
    let u = env.copy_scratch_to_cursor(t3);
    assert(env.emit_u64_digits(s) == u);
    scratch_within(env, w, t3);
    digits_within(w, t2, top);
    let text = decimal(c.reg(0) as nat);
    word_digits(c.reg(0));
    takes_nothing(s, c);
    let c1 = scratch_runs(env, s, s, 24, c, c);
    straight_on(w, s, t1, c, c1);
    let c3 = digits_loop(w, t2, top, c1);
    onwards(w, s, c, t2, c1, t3, c3);
    let d = scratch_is_copied(env, w, t3, c3);
    onwards(w, s, c, t3, c3, u, d);
    kept_both(c, c1, c3);
    kept_both(c, c3, d);
    let end = c.reg(4) + 24;
    assert(written(c.mem, c3.mem, text, end, c.reg(4) as int, end)) by {
        let k = c3.mem;
        assert forall|x: int| !(end - text.len() <= x < end) && !(c.reg(4) <= x < end) implies
            #[trigger] k(x) == (c.mem)(x) by {
            assert(k(x) == (c1.mem)(x));
        }
    }
    text_is_copied(c.mem, c3.mem, d.mem, text, end, c.reg(11) as int, c.reg(4) as int, end);
    d
}

proof fn digits_within(w: Seq<Ins>, s: LowState, top: LabelId)
    requires
        within(w, digits_done(s, top)),
    ensures
        within(w, s),
{
    reveal(AsmState::jcc_local);
    let t1 = s.on(s.text.bind(top));
    let t2 = next_digit(t1);
    let t3 = digits_done(s, top);
    pushed(t2, t3);
    starts_trans(w, t3.text.instrs, t2.text.instrs);
    next_digit_extends(t1);
    starts_trans(w, t2.text.instrs, t1.text.instrs);
    pushed(s, t1);
    starts_trans(w, t1.text.instrs, s.text.instrs);
}

// ---------------------------------------------------------------------------
//  Digits of two words
// ---------------------------------------------------------------------------

/// The number in the two working words above the scratch room.
pub open spec fn wide_at(m: Bytes, sp: int) -> nat {
    (fetch(m, sp + 48, 8) * SPAN + fetch(m, sp + 40, 8)) as nat
}

/// The high word over ten.
pub open spec fn high_divided(t: LowState) -> LowState {
    let t = t.on(t.text.mov_load_mem(Gpr::Rax, Gpr::Rsp, WIDE_HI_SLOT));
    let t = t.on(t.text.zero_rdx());
    let t = t.on(t.text.mov_ri(Gpr::Rcx, 10));
    let t = t.on(t.text.div_r(Gpr::Rcx));
    t.on(t.text.mov_store_mem(Gpr::Rsp, WIDE_HI_SLOT, Gpr::Rax))
}

/// The remainder and the low word over ten.
pub open spec fn low_divided(t: LowState) -> LowState {
    let t = t.on(t.text.mov_load_mem(Gpr::Rax, Gpr::Rsp, WIDE_LO_SLOT));
    let t = t.on(t.text.mov_ri(Gpr::Rcx, 10));
    let t = t.on(t.text.div_r(Gpr::Rcx));
    t.on(t.text.mov_store_mem(Gpr::Rsp, WIDE_LO_SLOT, Gpr::Rax))
}

/// The remainder in front of what is written, and a test of what is left.
pub open spec fn digit_put(t: LowState) -> LowState {
    let t = t.on(t.text.add_ri(Gpr::Rdi, ONE_LESS));
    let t = t.on(t.text.add_ri(Gpr::Rdx, 48));
    let t = t.on(t.text.mov_store8_mem(Gpr::Rdi, 0, Gpr::Rdx));
    let t = t.on(t.text.mov_load_mem(Gpr::Rax, Gpr::Rsp, WIDE_LO_SLOT));
    let t = t.on(t.text.mov_load_mem(Gpr::Rcx, Gpr::Rsp, WIDE_HI_SLOT));
    t.on(t.text.or_rr(Gpr::Rax, Gpr::Rcx))
}

/// One digit of the working words.
pub open spec fn next_wide_digit(t: LowState) -> LowState {
    digit_put(low_divided(high_divided(t)))
}

proof fn next_wide_digit_extends(t: LowState)
    ensures
        starts(next_wide_digit(t).text.instrs, t.text.instrs),
{
    reveal(AsmState::mov_load_mem);
    reveal(AsmState::zero_rdx);
    reveal(AsmState::mov_ri);
    reveal(AsmState::div_r);
    reveal(AsmState::mov_store_mem);
    reveal(AsmState::add_ri);
    reveal(AsmState::mov_store8_mem);
    reveal(AsmState::or_rr);
    let u = next_wide_digit(t);
    assert(u.text.instrs.len() == t.text.instrs.len() + 15);
    assert(u.text.instrs.take(t.text.instrs.len() as int) =~= t.text.instrs);
}

#[verifier::spinoff_prover]
#[verifier::rlimit(30)]
proof fn high_divides(s: LowState, t: LowState, c: Cpu, d: Cpu) -> (e: Cpu)
    requires
        takes(s, t, c, d),
        d.wf(),
        d.reg(4) + 56 < SPAN,
    ensures
        takes(s, high_divided(t), c, e),
        only_printing(d, e),
        e.reg(2) == fetch(d.mem, d.reg(4) + 48, 8) % 10,
        e.reg(6) == d.reg(6),
        e.reg(7) == d.reg(7),
        e.reg(11) == d.reg(11),
        e.mem == patch(
            d.mem,
            d.reg(4) + 48,
            8,
            fetch(d.mem, d.reg(4) + 48, 8) / 10,
        ),
{
    assert(index(Gpr::Rax) == 0 && index(Gpr::Rcx) == 1 && index(Gpr::Rdx) == 2);
    assert(index(Gpr::R11) == 11 && index(Gpr::Rsi) == 6 && index(Gpr::Rdi) == 7);
    assert(index(Gpr::Rsp) == 4);
    let a = d.reg(4) + 48;
    fetched_is_word(d.mem, a, 8);
    let hi = fetch(d.mem, a, 8);
    let t1 = t.on(t.text.mov_load_mem(Gpr::Rax, Gpr::Rsp, WIDE_HI_SLOT));
    let d1 = follow_mov_load_mem(s, t, Gpr::Rax, Gpr::Rsp, WIDE_HI_SLOT, c, d);
    assert(d1.reg(0) == hi);
    let z = d1.reg(2);
    with_itself(z);
    let t2 = t1.on(t1.text.zero_rdx());
    let d2 = follow_zero_rdx(s, t1, c, d1);
    let t3 = t2.on(t2.text.mov_ri(Gpr::Rcx, 10));
    let d3 = follow_mov_ri(s, t2, Gpr::Rcx, 10, c, d2);
    assert(d3.reg(1) == 10 && d3.reg(2) == 0 && d3.reg(0) == hi);
    assert(d3.reg(2) * SPAN + d3.reg(0) == hi);
    let t4 = t3.on(t3.text.div_r(Gpr::Rcx));
    let d4 = follow_div_r(s, t3, Gpr::Rcx, c, d3);
    assert(d4.reg(0) == hi / 10 && d4.reg(2) == hi % 10);
    let e = follow_mov_store_mem(s, t4, Gpr::Rsp, WIDE_HI_SLOT, Gpr::Rax, c, d4);
    assert forall|r: Gpr| !print_regs().contains(r) implies #[trigger] e.reg(index(r)) == d.reg(
        index(r),
    ) by {
        printing_apart(r);
    }
    e
}

#[verifier::spinoff_prover]
#[verifier::rlimit(30)]
proof fn low_divides(s: LowState, t: LowState, c: Cpu, d: Cpu) -> (e: Cpu)
    requires
        takes(s, t, c, d),
        d.wf(),
        d.reg(4) + 56 < SPAN,
        d.reg(2) < 10,
    ensures
        takes(s, low_divided(t), c, e),
        only_printing(d, e),
        e.reg(2) == (d.reg(2) * SPAN + fetch(d.mem, d.reg(4) + 40, 8)) % 10,
        e.reg(6) == d.reg(6),
        e.reg(7) == d.reg(7),
        e.reg(11) == d.reg(11),
        e.mem == patch(
            d.mem,
            d.reg(4) + 40,
            8,
            (d.reg(2) * SPAN + fetch(d.mem, d.reg(4) + 40, 8)) / 10,
        ),
        0 <= (d.reg(2) * SPAN + fetch(d.mem, d.reg(4) + 40, 8)) / 10 < SPAN,
{
    assert(index(Gpr::Rax) == 0 && index(Gpr::Rcx) == 1 && index(Gpr::Rdx) == 2);
    assert(index(Gpr::R11) == 11 && index(Gpr::Rsi) == 6 && index(Gpr::Rdi) == 7);
    assert(index(Gpr::Rsp) == 4);
    let a = d.reg(4) + 40;
    fetched_is_word(d.mem, a, 8);
    let lo = fetch(d.mem, a, 8);
    let n = d.reg(2) * SPAN + lo;
    let t1 = t.on(t.text.mov_load_mem(Gpr::Rax, Gpr::Rsp, WIDE_LO_SLOT));
    let d1 = follow_mov_load_mem(s, t, Gpr::Rax, Gpr::Rsp, WIDE_LO_SLOT, c, d);
    assert(d1.reg(0) == lo);
    let t2 = t1.on(t1.text.mov_ri(Gpr::Rcx, 10));
    let d2 = follow_mov_ri(s, t1, Gpr::Rcx, 10, c, d1);
    assert(d2.reg(1) == 10 && d2.reg(2) == d.reg(2) && d2.reg(0) == lo);
    assert(n / 10 < SPAN);
    let t3 = t2.on(t2.text.div_r(Gpr::Rcx));
    let d3 = follow_div_r(s, t2, Gpr::Rcx, c, d2);
    assert(d3.reg(0) == n / 10 && d3.reg(2) == n % 10);
    let e = follow_mov_store_mem(s, t3, Gpr::Rsp, WIDE_LO_SLOT, Gpr::Rax, c, d3);
    assert forall|r: Gpr| !print_regs().contains(r) implies #[trigger] e.reg(index(r)) == d.reg(
        index(r),
    ) by {
        printing_apart(r);
    }
    e
}

/// Two words together are zero where both are.
pub(crate) proof fn both_zero(x: u64, y: u64)
    by (bit_vector)
    ensures
        (x | y == 0) == (x == 0 && y == 0),
{
}

#[verifier::spinoff_prover]
#[verifier::rlimit(30)]
proof fn digit_is_put(s: LowState, t: LowState, c: Cpu, d: Cpu) -> (e: Cpu)
    requires
        takes(s, t, c, d),
        d.wf(),
        d.reg(4) + 56 < SPAN,
        0 < d.reg(7) <= d.reg(4) + 40,
        d.reg(2) < 10,
    ensures
        takes(s, digit_put(t), c, e),
        only_printing(d, e),
        e.reg(6) == d.reg(6),
        e.reg(7) == d.reg(7) - 1,
        e.reg(11) == d.reg(11),
        e.mem == patch(d.mem, d.reg(7) - 1, 1, 48 + d.reg(2)),
        tells(e, Cc::Ne) == Some(
            !(fetch(d.mem, d.reg(4) + 40, 8) == 0 && fetch(d.mem, d.reg(4) + 48, 8) == 0),
        ),
{
    assert(index(Gpr::Rax) == 0 && index(Gpr::Rcx) == 1 && index(Gpr::Rdx) == 2);
    assert(index(Gpr::R11) == 11 && index(Gpr::Rsi) == 6 && index(Gpr::Rdi) == 7);
    assert(index(Gpr::Rsp) == 4);
    let sp = d.reg(4) as int;
    let t1 = t.on(t.text.add_ri(Gpr::Rdi, ONE_LESS));
    let d1 = follow_add_ri(s, t, Gpr::Rdi, ONE_LESS, c, d);
    let t2 = t1.on(t1.text.add_ri(Gpr::Rdx, 48));
    let d2 = follow_add_ri(s, t1, Gpr::Rdx, 48, c, d1);
    assert(d2.reg(2) == 48 + d.reg(2) && d2.reg(7) == d.reg(7) - 1);
    let t3 = t2.on(t2.text.mov_store8_mem(Gpr::Rdi, 0, Gpr::Rdx));
    let d3 = follow_mov_store8_mem(s, t2, Gpr::Rdi, 0, Gpr::Rdx, c, d2);
    let k = d3.mem;
    elsewhere_stays(d.mem, d.reg(7) - 1, 1, 48 + d.reg(2), sp + 40, 8);
    elsewhere_stays(d.mem, d.reg(7) - 1, 1, 48 + d.reg(2), sp + 48, 8);
    fetched_is_word(k, sp + 40, 8);
    fetched_is_word(k, sp + 48, 8);
    let t4 = t3.on(t3.text.mov_load_mem(Gpr::Rax, Gpr::Rsp, WIDE_LO_SLOT));
    let d4 = follow_mov_load_mem(s, t3, Gpr::Rax, Gpr::Rsp, WIDE_LO_SLOT, c, d3);
    let t5 = t4.on(t4.text.mov_load_mem(Gpr::Rcx, Gpr::Rsp, WIDE_HI_SLOT));
    let d5 = follow_mov_load_mem(s, t4, Gpr::Rcx, Gpr::Rsp, WIDE_HI_SLOT, c, d4);
    let lo = d5.reg(0);
    let hi = d5.reg(1);
    assert(lo == fetch(d.mem, sp + 40, 8) && hi == fetch(d.mem, sp + 48, 8));
    both_zero(lo, hi);
    let e = follow_or_rr(s, t5, Gpr::Rax, Gpr::Rcx, c, d5);
    assert forall|r: Gpr| !print_regs().contains(r) implies #[trigger] e.reg(index(r)) == d.reg(
        index(r),
    ) by {
        printing_apart(r);
    }
    e
}

pub(crate) proof fn wide_quotient(hi: int, lo: int)
    requires
        0 <= hi < SPAN,
        0 <= lo < SPAN,
    ensures
        ({
            let n = hi % 10 * SPAN + lo;
            let v = hi * SPAN + lo;
            &&& v / 10 == hi / 10 * SPAN + n / 10
            &&& v % 10 == n % 10
        }),
{
}

#[verifier::spinoff_prover]
#[verifier::rlimit(30)]
proof fn next_wide_digit_runs(s: LowState, t: LowState, c: Cpu, d: Cpu) -> (e: Cpu)
    requires
        takes(s, t, c, d),
        d.wf(),
        d.reg(4) + 56 < SPAN,
        0 < d.reg(7) <= d.reg(4) + 40,
    ensures
        takes(s, next_wide_digit(t), c, e),
        only_printing(d, e),
        e.reg(6) == d.reg(6),
        e.reg(7) == d.reg(7) - 1,
        e.reg(11) == d.reg(11),
        wide_at(e.mem, d.reg(4) as int) == wide_at(d.mem, d.reg(4) as int) / 10,
        tells(e, Cc::Ne) == Some(wide_at(d.mem, d.reg(4) as int) / 10 != 0),
        (e.mem)(d.reg(7) - 1) == (48 + wide_at(d.mem, d.reg(4) as int) % 10) as u8,
        forall|x: int|
            x != d.reg(7) - 1 && !(d.reg(4) + 40 <= x < d.reg(4) + 56) ==> #[trigger] (e.mem)(x)
                == (d.mem)(x),
{
    let sp = d.reg(4) as int;
    let hi = fetch(d.mem, sp + 48, 8);
    let lo = fetch(d.mem, sp + 40, 8);
    fetch_bounded(d.mem, sp + 48, 8);
    fetch_bounded(d.mem, sp + 40, 8);
    pow256_values();
    wide_quotient(hi, lo);
    let t1 = high_divided(t);
    let d1 = high_divides(s, t, c, d);
    stack_kept(d, d1);
    elsewhere_stays(d.mem, sp + 48, 8, hi / 10, sp + 40, 8);
    written_is_read(d.mem, sp + 48, 8, hi / 10);
    assert(fetch(d1.mem, sp + 48, 8) == hi / 10);
    assert(fetch(d1.mem, sp + 40, 8) == lo);
    let t2 = low_divided(t1);
    let d2 = low_divides(s, t1, c, d1);
    stack_kept(d1, d2);
    let q = (d1.reg(2) * SPAN + lo) / 10;
    elsewhere_stays(d1.mem, sp + 40, 8, q, sp + 48, 8);
    written_is_read(d1.mem, sp + 40, 8, q);
    assert(fetch(d2.mem, sp + 40, 8) == q);
    assert(fetch(d2.mem, sp + 48, 8) == hi / 10);
    let e = digit_is_put(s, t2, c, d2);
    kept_both(d, d1, d2);
    kept_both(d, d2, e);
    let b = 48 + d2.reg(2);
    elsewhere_stays(d2.mem, d.reg(7) - 1, 1, b, sp + 40, 8);
    elsewhere_stays(d2.mem, d.reg(7) - 1, 1, b, sp + 48, 8);
    assert(byte_at(b, 0) == b as u8) by {
        reveal_with_fuel(byte_at, 2);
    }
    e
}

/// The code of a digit loop over the working words.
pub open spec fn wide_digits_done(s: LowState, top: LabelId) -> LowState {
    let t = s.on(s.text.bind(top));
    let t = next_wide_digit(t);
    t.on(t.text.jcc_local(Cc::Ne, top))
}

proof fn wide_digits_within(w: Seq<Ins>, s: LowState, top: LabelId)
    requires
        within(w, wide_digits_done(s, top)),
    ensures
        within(w, s.on(s.text.bind(top))),
        within(w, next_wide_digit(s.on(s.text.bind(top)))),
        within(w, s),
{
    reveal(AsmState::jcc_local);
    let t1 = s.on(s.text.bind(top));
    let t2 = next_wide_digit(t1);
    let t3 = wide_digits_done(s, top);
    pushed(t2, t3);
    starts_trans(w, t3.text.instrs, t2.text.instrs);
    next_wide_digit_extends(t1);
    starts_trans(w, t2.text.instrs, t1.text.instrs);
    pushed(s, t1);
    starts_trans(w, t1.text.instrs, s.text.instrs);
}

#[verifier::spinoff_prover]
#[verifier::rlimit(30)]
proof fn wide_digits_loop(w: Seq<Ins>, s: LowState, top: LabelId, c: Cpu) -> (d: Cpu)
    requires
        labels_once(w),
        within(w, wide_digits_done(s, top)),
        c.wf(),
        c.reg(4) + 56 < SPAN,
        decimal(wide_at(c.mem, c.reg(4) as int)).len() <= c.reg(7) <= c.reg(4) + 40,
    ensures
        reaches(w, s, c, wide_digits_done(s, top), d),
        only_printing(c, d),
        d.reg(6) == c.reg(6),
        d.reg(7) == c.reg(7) - decimal(wide_at(c.mem, c.reg(4) as int)).len(),
        d.reg(11) == c.reg(11),
        written(
            c.mem,
            d.mem,
            decimal(wide_at(c.mem, c.reg(4) as int)),
            c.reg(7) as int,
            c.reg(4) + 40,
            c.reg(4) + 56,
        ),
    decreases wide_at(c.mem, c.reg(4) as int),
{
    let sp = c.reg(4) as int;
    let v = wide_at(c.mem, sp);
    let t1 = s.on(s.text.bind(top));
    let t2 = next_wide_digit(t1);
    let t3 = wide_digits_done(s, top);
    wide_digits_within(w, s, top);
    past_label(w, s, top, c);
    takes_nothing(t1, c);
    assert(decimal(v).len() >= 1) by {
        if v >= 10 {
            assert(decimal(v) == decimal(v / 10).push(digit((v % 10) as int)));
        }
    }
    let c2 = next_wide_digit_runs(t1, t1, c, c);
    stack_kept(c, c2);
    straight_on(w, t1, t2, c, c2);
    onwards(w, s, c, t1, c, t2, c2);
    let end = c.reg(7) as int;
    if v < 10 {
        branch_passed(w, t2, Cc::Ne, top, c2);
        onwards(w, s, c, t2, c2, t3, c2);
        only_digit(c.mem, c2.mem, v, end, sp + 40, sp + 56);
        c2
    } else {
        branch_taken(w, t2, Cc::Ne, top, s, c2);
        onwards(w, s, c, t2, c2, s, c2);
        assert(decimal(v).len() == decimal(v / 10).len() + 1);
        let d = wide_digits_loop(w, s, top, c2);
        onwards(w, s, c, s, c2, t3, d);
        kept_both(c, c2, d);
        digit_in_front(c.mem, c2.mem, d.mem, v, end, sp + 40, sp + 56);
        d
    }
}

// ---------------------------------------------------------------------------
//  Signs
// ---------------------------------------------------------------------------

/// A number in decimal.
pub open spec fn number_text(v: int) -> Seq<char> {
    if v < 0 {
        seq!['-'] + decimal((-v) as nat)
    } else {
        decimal(v as nat)
    }
}

pub(crate) proof fn sign_in_front(m: Bytes, m1: Bytes, k: Bytes, v: int, at: int, lo: int, hi: int)
    requires
        v < 0,
        at < lo || hi <= at,
        m1(at) == 45,
        forall|x: int| x != at ==> #[trigger] m1(x) == m(x),
        written(m1, k, decimal((-v) as nat), at + number_text(v).len(), lo, hi),
    ensures
        written(m, k, number_text(v), at + number_text(v).len(), lo, hi),
{
    let a = decimal((-v) as nat);
    let b = number_text(v);
    let end = at + b.len();
    assert(b.len() == a.len() + 1);
    assert('-' as u8 == 45);
    assert forall|x: int| end - b.len() <= x < end implies #[trigger] k(x) == b[x - (end
        - b.len())] as u8 by {
        if x == at {
            assert(k(x) == m1(x));
            assert(b[0] == '-');
        } else {
            assert(k(x) == a[x - (end - a.len())] as u8);
            assert(b[x - at] == a[x - at - 1]);
        }
    }
    assert forall|x: int| !(end - b.len() <= x < end) && !(lo <= x < hi) implies #[trigger] k(x)
        == m(x) by {
        assert(k(x) == m1(x));
    }
}

#[verifier::spinoff_prover]
proof fn minus_sign_runs(env: Env, s: LowState, t: LowState, c: Cpu, d: Cpu) -> (e: Cpu)
    requires
        takes(s, t, c, d),
        d.wf(),
        d.reg(11) + 1 < SPAN,
    ensures
        takes(s, env.minus_sign(t), c, e),
        only_printing(d, e),
        e.reg(0) == wrap64(-d.reg(0)),
        e.reg(11) == d.reg(11) + 1,
        (e.mem)(d.reg(11) as int) == 45,
        forall|x: int| x != d.reg(11) ==> #[trigger] (e.mem)(x) == (d.mem)(x),
{
    reveal(Env::minus_sign);
    assert(index(Gpr::Rax) == 0 && index(Gpr::Rcx) == 1 && index(Gpr::R11) == 11);
    let t1 = t.on(t.text.mov_rr(Gpr::Rcx, Gpr::Rax));
    let d1 = follow_mov_rr(s, t, Gpr::Rcx, Gpr::Rax, c, d);
    let t2 = t1.on(t1.text.mov_ri(Gpr::Rax, 45));
    let d2 = follow_mov_ri(s, t1, Gpr::Rax, 45, c, d1);
    let t3 = t2.on(t2.text.mov_store8_mem(Gpr::R11, 0, Gpr::Rax));
    let d3 = follow_mov_store8_mem(s, t2, Gpr::R11, 0, Gpr::Rax, c, d2);
    let t4 = t3.on(t3.text.add_ri(Gpr::R11, 1));
    let d4 = follow_add_ri(s, t3, Gpr::R11, 1, c, d3);
    let t5 = t4.on(t4.text.mov_rr(Gpr::Rax, Gpr::Rcx));
    let d5 = follow_mov_rr(s, t4, Gpr::Rax, Gpr::Rcx, c, d4);
    let e = follow_neg_r(s, t5, Gpr::Rax, c, d5);
    assert(byte_at(45, 0) == 45) by {
        reveal_with_fuel(byte_at, 2);
    }
    assert forall|r: Gpr| !print_regs().contains(r) implies #[trigger] e.reg(index(r)) == d.reg(
        index(r),
    ) by {
        printing_apart(r);
    }
    e
}

proof fn minus_sign_extends(env: Env, t: LowState)
    ensures
        starts(env.minus_sign(t).text.instrs, t.text.instrs),
{
    reveal(Env::minus_sign);
    reveal(AsmState::mov_rr);
    reveal(AsmState::mov_ri);
    reveal(AsmState::mov_store8_mem);
    reveal(AsmState::add_ri);
    reveal(AsmState::neg_r);
    let u = env.minus_sign(t);
    assert(u.text.instrs.len() == t.text.instrs.len() + 6);
    assert(u.text.instrs.take(t.text.instrs.len() as int) =~= t.text.instrs);
}

/// The sign of a word, where it is written, and the word without it.
pub open spec fn word_signed(env: Env, s: LowState, nonneg: LabelId) -> LowState {
    let t = s.on(s.text.test_rr(Gpr::Rax, Gpr::Rax));
    let t = t.on(t.text.jcc_local(Cc::Ge, nonneg));
    let t = env.minus_sign(t);
    t.on(t.text.bind(nonneg))
}

/// The value of `rax`.
pub open spec fn word_value(c: Cpu, signed: bool) -> int {
    if signed {
        signed64(c.reg(0))
    } else {
        c.reg(0) as int
    }
}

#[verifier::spinoff_prover]
#[verifier::rlimit(30)]
proof fn word_sign_is_put(
    env: Env,
    w: Seq<Ins>,
    s: LowState,
    nonneg: LabelId,
    c: Cpu,
) -> (d: Cpu)
    requires
        labels_once(w),
        within(w, word_signed(env, s, nonneg)),
        c.wf(),
        c.reg(11) + 1 < SPAN,
    ensures
        reaches(w, s, c, word_signed(env, s, nonneg), d),
        only_printing(c, d),
        signed64(c.reg(0)) >= 0 ==> d.reg(0) == c.reg(0) && d.reg(11) == c.reg(11) && d.mem
            == c.mem,
        signed64(c.reg(0)) < 0 ==> {
            &&& d.reg(0) == -signed64(c.reg(0))
            &&& d.reg(11) == c.reg(11) + 1
            &&& (d.mem)(c.reg(11) as int) == 45
            &&& forall|x: int| x != c.reg(11) ==> #[trigger] (d.mem)(x) == (c.mem)(x)
        },
        within(w, s),
{
    reveal(AsmState::test_rr);
    reveal(AsmState::jcc_local);
    assert(index(Gpr::Rax) == 0);
    let t1 = s.on(s.text.test_rr(Gpr::Rax, Gpr::Rax));
    let t2 = t1.on(t1.text.jcc_local(Cc::Ge, nonneg));
    let t3 = env.minus_sign(t2);
    let t4 = word_signed(env, s, nonneg);
    pushed(t3, t4);
    starts_trans(w, t4.text.instrs, t3.text.instrs);
    minus_sign_extends(env, t2);
    starts_trans(w, t3.text.instrs, t2.text.instrs);
    pushed(t1, t2);
    starts_trans(w, t2.text.instrs, t1.text.instrs);
    takes_nothing(s, c);
    let c1 = follow_test_rr(s, s, Gpr::Rax, Gpr::Rax, c, c);
    straight_on(w, s, t1, c, c1);
    let x = c.reg(0);
    with_itself(x);
    assert(tells(c1, Cc::Ge) == Some(x < 0x8000_0000_0000_0000));
    if x < 0x8000_0000_0000_0000 {
        branch_taken(w, t1, Cc::Ge, nonneg, t3, c1);
        onwards(w, s, c, t1, c1, t3, c1);
        past_label(w, t3, nonneg, c1);
        onwards(w, s, c, t3, c1, t4, c1);
        c1
    } else {
        branch_passed(w, t1, Cc::Ge, nonneg, c1);
        onwards(w, s, c, t1, c1, t2, c1);
        takes_nothing(t2, c1);
        let c3 = minus_sign_runs(env, t2, t2, c1, c1);
        straight_on(w, t2, t3, c1, c3);
        onwards(w, s, c, t2, c1, t3, c3);
        past_label(w, t3, nonneg, c3);
        onwards(w, s, c, t3, c3, t4, c3);
        assert(wrap64(-x) == SPAN - x);
        c3
    }
}

/// A word, signed or not, goes to the cursor in decimal, with a minus sign where it is
/// negative, and the cursor goes on behind it; beyond that only the scratch room at the top
/// of the stack is written to.
#[verifier::spinoff_prover]
pub proof fn decimal_word_is_printed(
    env: Env,
    w: Seq<Ins>,
    s: LowState,
    signed: bool,
    c: Cpu,
) -> (d: Cpu)
    requires
        labels_once(w),
        within(w, env.render_decimal_64(s, signed)),
        c.wf(),
        cursor_clear(c, 21, 24),
    ensures
        reaches(w, s, c, env.render_decimal_64(s, signed), d),
        only_printing(c, d),
        d.reg(11) == c.reg(11) + number_text(word_value(c, signed)).len(),
        written(
            c.mem,
            d.mem,
            number_text(word_value(c, signed)),
            d.reg(11) as int,
            c.reg(4) as int,
            c.reg(4) + 24,
        ),
        within(w, s),
{
    reveal(Env::render_decimal_64);
    let sp = c.reg(4) as int;
    if signed {
        let nonneg = s.text.fresh();
        let t1 = s.on(s.text.new_label());
        let t2 = word_signed(env, t1, nonneg);
        let u = env.emit_u64_digits(t2);
        assert(env.render_decimal_64(s, signed) == u);
        digits_start(env, w, t2);
        let c2 = word_sign_is_put(env, w, t1, nonneg, c);
        stack_kept(c, c2);
        let d = word_is_printed(env, w, t2, c2);
        onwards(w, s, c, t2, c2, u, d);
        kept_both(c, c2, d);
        let v = signed64(c.reg(0));
        if v < 0 {
            sign_in_front(c.mem, c2.mem, d.mem, v, c.reg(11) as int, sp, sp + 24);
        }
        d
    } else {
        word_is_printed(env, w, s, c)
    }
}

proof fn digits_start(env: Env, w: Seq<Ins>, s: LowState)
    requires
        within(w, env.emit_u64_digits(s)),
    ensures
        within(w, s),
{
    reveal(Env::emit_u64_digits);
    let t1 = env.scratch_at(s, 24);
    let top = t1.text.fresh();
    let t2 = t1.on(t1.text.new_label());
    scratch_within(env, w, digits_done(t2, top));
    digits_within(w, t2, top);
    scratch_extends(env, s, 24);
    starts_trans(w, t1.text.instrs, s.text.instrs);
}

proof fn scratch_extends(env: Env, t: LowState, end: i32)
    ensures
        starts(env.scratch_at(t, end).text.instrs, t.text.instrs),
{
    reveal(Env::scratch_at);
    reveal(AsmState::mov_rr);
    reveal(AsmState::add_ri);
    let u = env.scratch_at(t, end);
    assert(u.text.instrs.len() == t.text.instrs.len() + 3);
    assert(u.text.instrs.take(t.text.instrs.len() as int) =~= t.text.instrs);
}

// ---------------------------------------------------------------------------
//  Signs of two words
// ---------------------------------------------------------------------------

/// The minus sign, and the complement of two words with one more in the low one.
pub open spec fn wide_complement(t: LowState) -> LowState {
    let t = t.on(t.text.mov_ri(Gpr::Rcx, 45));
    let t = t.on(t.text.mov_store8_mem(Gpr::R11, 0, Gpr::Rcx));
    let t = t.on(t.text.add_ri(Gpr::R11, 1));
    let t = t.on(t.text.not_r(Gpr::Rax));
    let t = t.on(t.text.not_r(Gpr::Rdx));
    t.on(t.text.add_ri(Gpr::Rax, 1))
}

proof fn wide_complement_extends(t: LowState)
    ensures
        starts(wide_complement(t).text.instrs, t.text.instrs),
{
    reveal(AsmState::mov_ri);
    reveal(AsmState::mov_store8_mem);
    reveal(AsmState::add_ri);
    reveal(AsmState::not_r);
    let u = wide_complement(t);
    assert(u.text.instrs.len() == t.text.instrs.len() + 6);
    assert(u.text.instrs.take(t.text.instrs.len() as int) =~= t.text.instrs);
}

#[verifier::spinoff_prover]
#[verifier::rlimit(30)]
proof fn wide_complement_runs(s: LowState, t: LowState, c: Cpu, d: Cpu) -> (e: Cpu)
    requires
        takes(s, t, c, d),
        d.wf(),
        d.reg(11) + 1 < SPAN,
    ensures
        takes(s, wide_complement(t), c, e),
        only_printing(d, e),
        e.reg(0) == wrap64(SPAN - d.reg(0)),
        e.reg(2) == SPAN - 1 - d.reg(2),
        e.reg(11) == d.reg(11) + 1,
        tells(e, Cc::Ae) == Some(d.reg(0) != 0),
        (e.mem)(d.reg(11) as int) == 45,
        forall|x: int| x != d.reg(11) ==> #[trigger] (e.mem)(x) == (d.mem)(x),
{
    assert(index(Gpr::Rax) == 0 && index(Gpr::Rcx) == 1 && index(Gpr::Rdx) == 2);
    assert(index(Gpr::R11) == 11);
    let t1 = t.on(t.text.mov_ri(Gpr::Rcx, 45));
    let d1 = follow_mov_ri(s, t, Gpr::Rcx, 45, c, d);
    let t2 = t1.on(t1.text.mov_store8_mem(Gpr::R11, 0, Gpr::Rcx));
    let d2 = follow_mov_store8_mem(s, t1, Gpr::R11, 0, Gpr::Rcx, c, d1);
    let t3 = t2.on(t2.text.add_ri(Gpr::R11, 1));
    let d3 = follow_add_ri(s, t2, Gpr::R11, 1, c, d2);
    let t4 = t3.on(t3.text.not_r(Gpr::Rax));
    let d4 = follow_not_r(s, t3, Gpr::Rax, c, d3);
    assert(d4.reg(0) == SPAN - 1 - d.reg(0));
    let t5 = t4.on(t4.text.not_r(Gpr::Rdx));
    let d5 = follow_not_r(s, t4, Gpr::Rdx, c, d4);
    assert(d5.reg(2) == SPAN - 1 - d.reg(2));
    let e = follow_add_ri(s, t5, Gpr::Rax, 1, c, d5);
    assert(byte_at(45, 0) == 45) by {
        reveal_with_fuel(byte_at, 2);
    }
    assert forall|r: Gpr| !print_regs().contains(r) implies #[trigger] e.reg(index(r)) == d.reg(
        index(r),
    ) by {
        printing_apart(r);
    }
    e
}

/// The two words in `rdx` and `rax`.
pub open spec fn wide_regs(c: Cpu) -> int {
    c.reg(2) * SPAN + c.reg(0)
}

/// Two words read as a signed number.
pub open spec fn signed128(v: int) -> int {
    if v < 0x8000_0000_0000_0000 * SPAN {
        v
    } else {
        v - SPAN * SPAN
    }
}

/// Whether `d` is `c` with the sign of its two words at the cursor and the words without it.
pub open spec fn wide_sign_put(c: Cpu, d: Cpu) -> bool {
    let v = signed128(wide_regs(c));
    &&& only_printing(c, d)
    &&& v >= 0 ==> wide_regs(d) == v && d.reg(11) == c.reg(11) && d.mem == c.mem
    &&& v < 0 ==> {
        &&& wide_regs(d) == -v
        &&& d.reg(11) == c.reg(11) + 1
        &&& (d.mem)(c.reg(11) as int) == 45
        &&& forall|x: int| x != c.reg(11) ==> #[trigger] (d.mem)(x) == (c.mem)(x)
    }
}

/// The carry into the high word, where there is one.
pub open spec fn wide_carried(t: LowState, nocarry: LabelId) -> LowState {
    let t = t.on(t.text.jcc_local(Cc::Ae, nocarry));
    let t = t.on(t.text.add_ri(Gpr::Rdx, 1));
    t.on(t.text.bind(nocarry))
}

#[verifier::spinoff_prover]
#[verifier::rlimit(30)]
proof fn carry_goes_up(w: Seq<Ins>, t: LowState, nocarry: LabelId, c: Cpu, b: bool) -> (d: Cpu)
    requires
        labels_once(w),
        within(w, wide_carried(t, nocarry)),
        c.wf(),
        tells(c, Cc::Ae) == Some(b),
        c.reg(2) + 1 < SPAN,
    ensures
        reaches(w, t, c, wide_carried(t, nocarry), d),
        only_printing(c, d),
        d.mem == c.mem,
        d.reg(0) == c.reg(0),
        d.reg(2) == c.reg(2) + (if b {
            0int
        } else {
            1
        }),
        d.reg(11) == c.reg(11),
        within(w, t),
{
    reveal(AsmState::jcc_local);
    reveal(AsmState::add_ri);
    assert(index(Gpr::Rdx) == 2);
    let t1 = t.on(t.text.jcc_local(Cc::Ae, nocarry));
    let t2 = t1.on(t1.text.add_ri(Gpr::Rdx, 1));
    let t3 = wide_carried(t, nocarry);
    pushed(t2, t3);
    starts_trans(w, t3.text.instrs, t2.text.instrs);
    pushed(t1, t2);
    starts_trans(w, t2.text.instrs, t1.text.instrs);
    pushed(t, t1);
    starts_trans(w, t1.text.instrs, t.text.instrs);
    if b {
        branch_taken(w, t, Cc::Ae, nocarry, t2, c);
        past_label(w, t2, nocarry, c);
        onwards(w, t, c, t2, c, t3, c);
        c
    } else {
        branch_passed(w, t, Cc::Ae, nocarry, c);
        takes_nothing(t1, c);
        let d = follow_add_ri(t1, t1, Gpr::Rdx, 1, c, c);
        straight_on(w, t1, t2, c, d);
        onwards(w, t, c, t1, c, t2, d);
        past_label(w, t2, nocarry, d);
        onwards(w, t, c, t2, d, t3, d);
        assert forall|r: Gpr| !print_regs().contains(r) implies #[trigger] d.reg(index(r))
            == c.reg(index(r)) by {
            printing_apart(r);
        }
        d
    }
}

pub(crate) proof fn complement_is_negation(hi: int, lo: int)
    requires
        0x8000_0000_0000_0000 <= hi < SPAN,
        0 <= lo < SPAN,
    ensures
        signed128(hi * SPAN + lo) < 0,
        lo == 0 ==> wrap64(SPAN - lo) == 0 && (SPAN - hi) * SPAN == -signed128(hi * SPAN + lo),
        lo != 0 ==> wrap64(SPAN - lo) == SPAN - lo && (SPAN - 1 - hi) * SPAN + (SPAN - lo)
            == -signed128(hi * SPAN + lo),
{
    assert(hi * SPAN >= 0x8000_0000_0000_0000 * SPAN);
}

#[verifier::spinoff_prover]
#[verifier::rlimit(40)]
proof fn wide_sign_is_put(env: Env, w: Seq<Ins>, s: LowState, c: Cpu) -> (d: Cpu)
    requires
        labels_once(w),
        within(w, env.wide_magnitude(s)),
        c.wf(),
        c.reg(11) + 1 < SPAN,
    ensures
        reaches(w, s, c, env.wide_magnitude(s), d),
        wide_sign_put(c, d),
        within(w, s),
{
    reveal(Env::wide_magnitude);
    reveal(AsmState::test_rr);
    assert(index(Gpr::Rdx) == 2);
    let nonneg = s.text.fresh();
    let s0 = s.on(s.text.new_label());
    let t1 = s0.on(s0.text.test_rr(Gpr::Rdx, Gpr::Rdx));
    let t2 = t1.on(t1.text.jcc_local(Cc::Ge, nonneg));
    let t3 = wide_complement(t2);
    let nocarry = t3.text.fresh();
    let t4 = t3.on(t3.text.new_label());
    let t5 = wide_carried(t4, nocarry);
    let t6 = t5.on(t5.text.bind(nonneg));
    assert(env.wide_magnitude(s) == t6);
    pushed(t5, t6);
    starts_trans(w, t6.text.instrs, t5.text.instrs);
    carried_within(w, t4, nocarry);
    wide_complement_extends(t2);
    starts_trans(w, t3.text.instrs, t2.text.instrs);
    assert(starts(t2.text.instrs, t1.text.instrs)) by {
        reveal(AsmState::jcc_local);
        pushed(t1, t2);
    }
    starts_trans(w, t2.text.instrs, t1.text.instrs);
    takes_nothing(s0, c);
    let c1 = follow_test_rr(s0, s0, Gpr::Rdx, Gpr::Rdx, c, c);
    straight_on(w, s0, t1, c, c1);
    let hi = c.reg(2);
    let lo = c.reg(0);
    with_itself(hi);
    assert(tells(c1, Cc::Ge) == Some(hi < 0x8000_0000_0000_0000));
    if hi < 0x8000_0000_0000_0000 {
        branch_taken(w, t1, Cc::Ge, nonneg, t5, c1);
        onwards(w, s, c, t1, c1, t5, c1);
        past_label(w, t5, nonneg, c1);
        onwards(w, s, c, t5, c1, t6, c1);
        assert(hi * SPAN + lo < 0x8000_0000_0000_0000 * SPAN);
        c1
    } else {
        branch_passed(w, t1, Cc::Ge, nonneg, c1);
        onwards(w, s, c, t1, c1, t2, c1);
        takes_nothing(t2, c1);
        let c3 = wide_complement_runs(t2, t2, c1, c1);
        straight_on(w, t2, t3, c1, c3);
        onwards(w, s, c, t2, c1, t3, c3);
        let c5 = carry_goes_up(w, t4, nocarry, c3, lo != 0);
        onwards(w, s, c, t4, c3, t5, c5);
        past_label(w, t5, nonneg, c5);
        onwards(w, s, c, t5, c5, t6, c5);
        kept_both(c, c3, c5);
        complement_is_negation(hi as int, lo as int);
        c5
    }
}

proof fn carried_within(w: Seq<Ins>, t: LowState, nocarry: LabelId)
    requires
        within(w, wide_carried(t, nocarry)),
    ensures
        within(w, t),
{
    reveal(AsmState::jcc_local);
    reveal(AsmState::add_ri);
    let t1 = t.on(t.text.jcc_local(Cc::Ae, nocarry));
    let t2 = t1.on(t1.text.add_ri(Gpr::Rdx, 1));
    let t3 = wide_carried(t, nocarry);
    pushed(t2, t3);
    starts_trans(w, t3.text.instrs, t2.text.instrs);
    pushed(t1, t2);
    starts_trans(w, t2.text.instrs, t1.text.instrs);
    pushed(t, t1);
    starts_trans(w, t1.text.instrs, t.text.instrs);
}

// ---------------------------------------------------------------------------
//  Numbers of two words
// ---------------------------------------------------------------------------

/// Both words of a home in `rax` and `rdx`.
pub open spec fn wide_loaded(s: LowState, off: i32) -> LowState {
    let t = s.on(s.text.mov_load(Gpr::Rax, off));
    t.on(t.text.mov_load(Gpr::Rdx, sum32(sum32(off, 4), 4)))
}

/// `rax` and `rdx` in the working words.
pub open spec fn wide_stored(s: LowState) -> LowState {
    let t = s.on(s.text.mov_store_mem(Gpr::Rsp, WIDE_LO_SLOT, Gpr::Rax));
    t.on(t.text.mov_store_mem(Gpr::Rsp, WIDE_HI_SLOT, Gpr::Rdx))
}

/// The number at a home of two words.
pub open spec fn wide_home(c: Cpu, off: i32, signed: bool) -> int {
    let a = c.reg(5) + off;
    let v = fetch(c.mem, a + 8, 8) * SPAN + fetch(c.mem, a, 8);
    if signed {
        signed128(v)
    } else {
        v
    }
}

#[verifier::spinoff_prover]
#[verifier::rlimit(30)]
proof fn wide_load_runs(s: LowState, off: i32, c: Cpu) -> (d: Cpu)
    requires
        c.wf(),
        off + 8 <= i32::MAX,
        in_space(c.reg(5) + off, 16),
    ensures
        takes(s, wide_loaded(s, off), c, d),
        only_printing(c, d),
        d.mem == c.mem,
        d.reg(11) == c.reg(11),
        wide_regs(d) == wide_home(c, off, false),
{
    assert(index(Gpr::Rax) == 0 && index(Gpr::Rdx) == 2);
    let a = c.reg(5) + off;
    fetched_is_word(c.mem, a, 8);
    fetched_is_word(c.mem, a + 8, 8);
    takes_nothing(s, c);
    let t1 = s.on(s.text.mov_load(Gpr::Rax, off));
    let c1 = follow_mov_load(s, s, Gpr::Rax, off, c, c);
    let at: i32 = sum32(sum32(off, 4), 4);
    assert(at == off + 8);
    let d = follow_mov_load(s, t1, Gpr::Rdx, at, c, c1);
    assert forall|r: Gpr| !print_regs().contains(r) implies #[trigger] d.reg(index(r)) == c.reg(
        index(r),
    ) by {
        printing_apart(r);
    }
    d
}

proof fn wide_stored_extends(t: LowState)
    ensures
        starts(wide_stored(t).text.instrs, t.text.instrs),
{
    reveal(AsmState::mov_store_mem);
    let u = wide_stored(t);
    assert(u.text.instrs.len() == t.text.instrs.len() + 2);
    assert(u.text.instrs.take(t.text.instrs.len() as int) =~= t.text.instrs);
}

#[verifier::spinoff_prover]
#[verifier::rlimit(30)]
proof fn wide_store_runs(s: LowState, c: Cpu) -> (d: Cpu)
    requires
        c.wf(),
        c.reg(4) + 56 < SPAN,
    ensures
        takes(s, wide_stored(s), c, d),
        only_printing(c, d),
        d.reg(11) == c.reg(11),
        wide_at(d.mem, c.reg(4) as int) == wide_regs(c),
        forall|x: int|
            !(c.reg(4) + 40 <= x < c.reg(4) + 56) ==> #[trigger] (d.mem)(x) == (c.mem)(x),
{
    assert(index(Gpr::Rax) == 0 && index(Gpr::Rdx) == 2 && index(Gpr::Rsp) == 4);
    let sp = c.reg(4) as int;
    takes_nothing(s, c);
    let t1 = s.on(s.text.mov_store_mem(Gpr::Rsp, WIDE_LO_SLOT, Gpr::Rax));
    let c1 = follow_mov_store_mem(s, s, Gpr::Rsp, WIDE_LO_SLOT, Gpr::Rax, c, c);
    let d = follow_mov_store_mem(s, t1, Gpr::Rsp, WIDE_HI_SLOT, Gpr::Rdx, c, c1);
    pow256_values();
    written_is_read(c.mem, sp + 40, 8, c.reg(0) as int);
    elsewhere_stays(c1.mem, sp + 48, 8, c.reg(2) as int, sp + 40, 8);
    written_is_read(c1.mem, sp + 48, 8, c.reg(2) as int);
    d
}

pub(crate) proof fn wide_digits(v: nat)
    requires
        v < SPAN * SPAN,
    ensures
        1 <= decimal(v).len() <= 39,
{
    reveal_with_fuel(ten_to, 40);
    assert(SPAN * SPAN == 0x1_0000_0000_0000_0000_0000_0000_0000_0000int);
    digits_few(v, 39);
}

/// The digits of `rdx` and `rax`: the working words, the loop and the copy.
pub open spec fn wide_rendered(env: Env, s: LowState) -> LowState {
    let t = env.scratch_at(wide_stored(s), 40);
    let top = t.text.fresh();
    let t = t.on(t.text.new_label());
    env.copy_scratch_to_cursor(wide_digits_done(t, top))
}

proof fn wide_rendered_within(env: Env, w: Seq<Ins>, s: LowState)
    requires
        within(w, wide_rendered(env, s)),
    ensures
        within(w, s),
        ({
            let t = env.scratch_at(wide_stored(s), 40);
            let top = t.text.fresh();
            let t2 = t.on(t.text.new_label());
            &&& within(w, t)
            &&& within(w, wide_stored(s))
            &&& within(w, wide_digits_done(t2, top))
        }),
{
    let t1 = wide_stored(s);
    let t = env.scratch_at(t1, 40);
    let top = t.text.fresh();
    let t2 = t.on(t.text.new_label());
    let t3 = wide_digits_done(t2, top);
    scratch_within(env, w, t3);
    wide_digits_within(w, t2, top);
    scratch_extends(env, t1, 40);
    starts_trans(w, t.text.instrs, t1.text.instrs);
    wide_stored_extends(s);
    starts_trans(w, t1.text.instrs, s.text.instrs);
}

#[verifier::spinoff_prover]
#[verifier::rlimit(30)]
proof fn wide_is_rendered(env: Env, w: Seq<Ins>, s: LowState, c: Cpu) -> (d: Cpu)
    requires
        labels_once(w),
        within(w, wide_rendered(env, s)),
        c.wf(),
        cursor_clear(c, 39, 56),
    ensures
        reaches(w, s, c, wide_rendered(env, s), d),
        only_printing(c, d),
        d.reg(11) == c.reg(11) + decimal(wide_regs(c) as nat).len(),
        written(
            c.mem,
            d.mem,
            decimal(wide_regs(c) as nat),
            d.reg(11) as int,
            c.reg(4) as int,
            c.reg(4) + 56,
        ),
{
    let sp = c.reg(4) as int;
    let v = wide_regs(c) as nat;
    assert(v < SPAN * SPAN);
    wide_digits(v);
    let text = decimal(v);
    let t1 = wide_stored(s);
    let t = env.scratch_at(t1, 40);
    let top = t.text.fresh();
    let t2 = t.on(t.text.new_label());
    let t3 = wide_digits_done(t2, top);
    let u = wide_rendered(env, s);
    wide_rendered_within(env, w, s);
    let c1 = wide_store_runs(s, c);
    stack_kept(c, c1);
    let c2 = scratch_runs(env, s, t1, 40, c, c1);
    stack_kept(c1, c2);
    straight_on(w, s, t, c, c2);
    let c3 = wide_digits_loop(w, t2, top, c2);
    onwards(w, s, c, t2, c2, t3, c3);
    let d = scratch_is_copied(env, w, t3, c3);
    onwards(w, s, c, t3, c3, u, d);
    kept_both(c, c1, c2);
    kept_both(c, c2, c3);
    kept_both(c, c3, d);
    let k = c3.mem;
    assert(written(c.mem, k, text, sp + 40, sp, sp + 56)) by {
        assert forall|x: int|
            !(sp + 40 - text.len() <= x < sp + 40) && !(sp <= x < sp + 56) implies #[trigger] k(x)
            == (c.mem)(x) by {
            assert(k(x) == (c2.mem)(x));
            assert((c1.mem)(x) == (c.mem)(x));
        }
    }
    text_is_copied(c.mem, k, d.mem, text, sp + 40, c.reg(11) as int, sp, sp + 56);
    d
}

/// A number of two words, signed or not, goes from its home to the cursor in decimal, with a
/// minus sign where it is negative, and the cursor goes on behind it; beyond that only the
/// scratch room and the working words at the top of the stack are written to.
#[verifier::spinoff_prover]
#[verifier::rlimit(30)]
pub proof fn decimal_pair_is_printed(
    env: Env,
    w: Seq<Ins>,
    s: LowState,
    off: i32,
    signed: bool,
    c: Cpu,
) -> (d: Cpu)
    requires
        labels_once(w),
        within(w, env.render_decimal_128(s, off, signed)),
        c.wf(),
        off + 8 <= i32::MAX,
        in_space(c.reg(5) + off, 16),
        cursor_clear(c, 40, 56),
    ensures
        reaches(w, s, c, env.render_decimal_128(s, off, signed), d),
        only_printing(c, d),
        d.reg(11) == c.reg(11) + number_text(wide_home(c, off, signed)).len(),
        written(
            c.mem,
            d.mem,
            number_text(wide_home(c, off, signed)),
            d.reg(11) as int,
            c.reg(4) as int,
            c.reg(4) + 56,
        ),
        within(w, s),
{
    let sp = c.reg(4) as int;
    let t1 = wide_loaded(s, off);
    let u = env.render_decimal_128(s, off, signed);
    pair_code(env, s, off, signed);
    if signed {
        let t2 = env.wide_magnitude(t1);
        wide_rendered_within(env, w, t2);
        let c1 = wide_load_runs(s, off, c);
        stack_kept(c, c1);
        let c2 = wide_sign_is_put(env, w, t1, c1);
        stack_kept(c1, c2);
        straight_on(w, s, t1, c, c1);
        onwards(w, s, c, t1, c1, t2, c2);
        let d = wide_is_rendered(env, w, t2, c2);
        onwards(w, s, c, t2, c2, u, d);
        kept_both(c, c1, c2);
        kept_both(c, c2, d);
        let v = wide_home(c, off, true);
        if v < 0 {
            sign_in_front(c1.mem, c2.mem, d.mem, v, c.reg(11) as int, sp, sp + 56);
        }
        d
    } else {
        wide_rendered_within(env, w, t1);
        let c1 = wide_load_runs(s, off, c);
        stack_kept(c, c1);
        straight_on(w, s, t1, c, c1);
        let d = wide_is_rendered(env, w, t1, c1);
        onwards(w, s, c, t1, c1, u, d);
        kept_both(c, c1, d);
        d
    }
}

proof fn pair_code(env: Env, s: LowState, off: i32, signed: bool)
    ensures
        env.render_decimal_128(s, off, signed) == wide_rendered(
            env,
            if signed {
                env.wide_magnitude(wide_loaded(s, off))
            } else {
                wide_loaded(s, off)
            },
        ),
{
    reveal(Env::render_decimal_128);
}

} // verus!
