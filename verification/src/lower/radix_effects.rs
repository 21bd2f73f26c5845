//! What printing code does with numbers in other radixes than ten.
use vstd::prelude::*;

use crate::behavior::labels_once;
use crate::encode::{AsmState, Cc, LabelId};
use crate::lower::effects::{takes, takes_nothing, tells, with_itself};
use crate::lower::env::{Env, LowState};
use crate::lower::follow::{
    follow_add_ri, follow_cmp_ri, follow_div_r, follow_mov_ri, follow_mov_store8_mem,
    follow_test_rr, follow_zero_rdx,
};
use crate::lower::intr::ONE_LESS;
use crate::lower::loops::{
    branch_passed, branch_taken, jump_comes, onwards, past_label, reaches, starts, starts_trans,
    straight_on, within,
};
use crate::lower::print_effects::{
    cursor_clear, kept_both, only_printing, print_regs, printing_apart, scratch_is_copied,
    scratch_runs, scratch_within, text_is_copied, written,
};
use crate::machine::{Bytes, Cpu, SPAN, byte_at};
use crate::peephole::Ins;
use crate::reg::Gpr;
use crate::steps::index;
use vstd::arithmetic::power2::{lemma2_to64, lemma2_to64_rest, lemma_pow2_unfold, pow2};

verus! {

/// The character of a digit.
pub open spec fn digit_char(d: int, upper: bool) -> char {
    if d < 10 {
        ('0' as int + d) as char
    } else if upper {
        ('A' as int + (d - 10)) as char
    } else {
        ('a' as int + (d - 10)) as char
    }
}

/// The text of a number in a radix, without a sign.
pub open spec fn in_radix(v: nat, radix: nat, upper: bool) -> Seq<char>
    decreases v,
{
    if v < radix || radix < 2 {
        seq![digit_char(v as int, upper)]
    } else {
        proof {
            quotient_less(v, radix);
        }
        in_radix(v / radix, radix, upper).push(digit_char((v % radix) as int, upper))
    }
}

/// What `ten` is for digits in upper or lower case.
pub open spec fn case_of(upper: bool) -> i32 {
    if upper {
        55
    } else {
        87
    }
}

proof fn digit_code(d: int, upper: bool)
    requires
        0 <= d < 16,
    ensures
        digit_char(d, upper) as u8 == (if d < 10 {
            48 + d
        } else {
            case_of(upper) + d
        }),
{
}

/// The code that tells small digits from others.
pub open spec fn small_tested(s: LowState) -> LowState {
    let t = s.on(s.text.new_label());
    let t = t.on(t.text.new_label());
    t.on(t.text.cmp_ri(Gpr::Rdx, 10))
}

#[verifier::spinoff_prover]
proof fn small_test_runs(s: LowState, c: Cpu) -> (d: Cpu)
    requires
        c.wf(),
    ensures
        ({
            let t = s.on(s.text.new_label());
            let t = t.on(t.text.new_label());
            takes(t, small_tested(s), c, d)
        }),
        tells(d, Cc::B) == Some(c.reg(2) < 10),
        d.regs == c.regs,
        d.mem == c.mem,
        d.wf(),
        d.state == c.state,
        d.data == c.data,
{
    assert(index(Gpr::Rdx) == 2);
    let t = s.on(s.text.new_label());
    let t = t.on(t.text.new_label());
    takes_nothing(t, c);
    follow_cmp_ri(t, t, Gpr::Rdx, 10, c, c)
}

proof fn prefix(z: Seq<Ins>, s: Seq<Ins>)
    requires
        s.len() <= z.len(),
        forall|i: int| 0 <= i < s.len() ==> #[trigger] s[i] == z[i],
    ensures
        starts(z, s),
{
    assert(z.take(s.len() as int) =~= s);
}

proof fn digit_parts(s: LowState, ten: i32)
    ensures
        ({
            let small = s.text.fresh();
            let wrote = s.on(s.text.new_label()).text.fresh();
            let t = small_tested(s);
            let t1 = t.on(t.text.jcc_local(Cc::B, small));
            let t2 = t1.on(t1.text.add_ri(Gpr::Rdx, ten));
            let t3 = t2.on(t2.text.jmp_local(wrote));
            let t4 = t3.on(t3.text.bind(small));
            let t5 = t4.on(t4.text.add_ri(Gpr::Rdx, 48));
            let z = t5.on(t5.text.bind(wrote)).text.instrs;
            &&& starts(z, s.text.instrs)
            &&& starts(z, t.text.instrs)
            &&& starts(z, t1.text.instrs)
            &&& starts(z, t2.text.instrs)
            &&& starts(z, t3.text.instrs)
            &&& starts(z, t4.text.instrs)
            &&& starts(z, t5.text.instrs)
        }),
{
    reveal(AsmState::cmp_ri);
    reveal(AsmState::jcc_local);
    reveal(AsmState::add_ri);
    reveal(AsmState::jmp_local);
    let small = s.text.fresh();
    let wrote = s.on(s.text.new_label()).text.fresh();
    let t = small_tested(s);
    let t1 = t.on(t.text.jcc_local(Cc::B, small));
    let t2 = t1.on(t1.text.add_ri(Gpr::Rdx, ten));
    let t3 = t2.on(t2.text.jmp_local(wrote));
    let t4 = t3.on(t3.text.bind(small));
    let t5 = t4.on(t4.text.add_ri(Gpr::Rdx, 48));
    let z = t5.on(t5.text.bind(wrote)).text.instrs;
    prefix(z, s.text.instrs);
    prefix(z, t.text.instrs);
    prefix(z, t1.text.instrs);
    prefix(z, t2.text.instrs);
    prefix(z, t3.text.instrs);
    prefix(z, t4.text.instrs);
    prefix(z, t5.text.instrs);
}

/// A digit in `rdx` becomes the code of its character; nothing else changes.
#[verifier::spinoff_prover]
#[verifier::rlimit(40)]
pub proof fn digit_is_made(env: Env, w: Seq<Ins>, s: LowState, upper: bool, c: Cpu) -> (d: Cpu)
    requires
        labels_once(w),
        within(w, env.digit_of_rdx(s, case_of(upper))),
        c.wf(),
        c.reg(2) < 16,
    ensures
        within(w, s),
        reaches(w, s, c, env.digit_of_rdx(s, case_of(upper)), d),
        d.reg(2) == digit_char(c.reg(2) as int, upper) as u8,
        forall|r: int| 0 <= r < 16 && r != 2 ==> #[trigger] d.reg(r) == c.reg(r),
        d.mem == c.mem,
        d.wf(),
        d.state == c.state,
        d.data == c.data,
{
    let ten = case_of(upper);
    let small = s.text.fresh();
    let wrote = s.on(s.text.new_label()).text.fresh();
    let t = small_tested(s);
    let t1 = t.on(t.text.jcc_local(Cc::B, small));
    let t2 = t1.on(t1.text.add_ri(Gpr::Rdx, ten));
    let t3 = t2.on(t2.text.jmp_local(wrote));
    let t4 = t3.on(t3.text.bind(small));
    let t5 = t4.on(t4.text.add_ri(Gpr::Rdx, 48));
    let t6 = t5.on(t5.text.bind(wrote));
    assert(env.digit_of_rdx(s, ten) == t6) by {
        reveal(Env::digit_of_rdx);
    }
    digit_parts(s, ten);
    starts_trans(w, t6.text.instrs, s.text.instrs);
    starts_trans(w, t6.text.instrs, t.text.instrs);
    starts_trans(w, t6.text.instrs, t1.text.instrs);
    starts_trans(w, t6.text.instrs, t2.text.instrs);
    starts_trans(w, t6.text.instrs, t3.text.instrs);
    starts_trans(w, t6.text.instrs, t4.text.instrs);
    starts_trans(w, t6.text.instrs, t5.text.instrs);
    assert(index(Gpr::Rdx) == 2);
    digit_code(c.reg(2) as int, upper);
    let s2 = s.on(s.text.new_label());
    let s2 = s2.on(s2.text.new_label());
    let c1 = small_test_runs(s, c);
    straight_on(w, s2, t, c, c1);
    assert(reaches(w, s, c, t, c1));
    if c.reg(2) < 10 {
        branch_taken(w, t, Cc::B, small, t3, c1);
        onwards(w, s, c, t, c1, t3, c1);
        past_label(w, t3, small, c1);
        onwards(w, s, c, t3, c1, t4, c1);
        takes_nothing(t4, c1);
        let d = follow_add_ri(t4, t4, Gpr::Rdx, 48, c1, c1);
        straight_on(w, t4, t5, c1, d);
        onwards(w, s, c, t4, c1, t5, d);
        past_label(w, t5, wrote, d);
        onwards(w, s, c, t5, d, t6, d);
        d
    } else {
        branch_passed(w, t, Cc::B, small, c1);
        onwards(w, s, c, t, c1, t1, c1);
        takes_nothing(t1, c1);
        let d = follow_add_ri(t1, t1, Gpr::Rdx, ten, c1, c1);
        straight_on(w, t1, t2, c1, d);
        onwards(w, s, c, t1, c1, t2, d);
        jump_comes(w, t2, wrote, t5, d);
        onwards(w, s, c, t2, d, t5, d);
        past_label(w, t5, wrote, d);
        onwards(w, s, c, t5, d, t6, d);
        d
    }
}

/// The quotient and the remainder of a digit.
pub open spec fn divided(t: LowState, radix: u64) -> LowState {
    let t = t.on(t.text.zero_rdx());
    let t = t.on(t.text.mov_ri(Gpr::Rcx, radix as i64));
    t.on(t.text.div_r(Gpr::Rcx))
}

#[verifier::spinoff_prover]
proof fn division_runs(t: LowState, radix: u64, c: Cpu) -> (d: Cpu)
    requires
        c.wf(),
        2 <= radix <= 16,
    ensures
        takes(t, divided(t, radix), c, d),
        only_printing(c, d),
        d.mem == c.mem,
        d.reg(0) == c.reg(0) / radix,
        d.reg(2) == c.reg(0) % radix,
        d.reg(6) == c.reg(6),
        d.reg(7) == c.reg(7),
        d.reg(11) == c.reg(11),
{
    assert(index(Gpr::Rax) == 0 && index(Gpr::Rcx) == 1 && index(Gpr::Rdx) == 2);
    takes_nothing(t, c);
    let x = c.reg(0);
    with_itself(c.reg(2));
    let t1 = t.on(t.text.zero_rdx());
    let d1 = follow_zero_rdx(t, t, c, c);
    let t2 = t1.on(t1.text.mov_ri(Gpr::Rcx, radix as i64));
    let d2 = follow_mov_ri(t, t1, Gpr::Rcx, radix as i64, c, d1);
    assert(d2.reg(1) == radix && d2.reg(2) == 0 && d2.reg(0) == x);
    assert(d2.reg(2) * SPAN + d2.reg(0) == x);
    assert(x as int / (radix as int) < SPAN) by (nonlinear_arith)
        requires
            radix >= 2,
            x < SPAN,
    ;
    let d = follow_div_r(t, t2, Gpr::Rcx, c, d2);
    assert forall|r: Gpr| !print_regs().contains(r) implies #[trigger] d.reg(index(r)) == c.reg(
        index(r),
    ) by {
        printing_apart(r);
    }
    d
}

/// A digit goes in front of what is written.
pub open spec fn digit_put(t: LowState) -> LowState {
    let t = t.on(t.text.add_ri(Gpr::Rdi, ONE_LESS));
    let t = t.on(t.text.mov_store8_mem(Gpr::Rdi, 0, Gpr::Rdx));
    t.on(t.text.test_rr(Gpr::Rax, Gpr::Rax))
}

#[verifier::spinoff_prover]
proof fn digit_is_put(t: LowState, c: Cpu) -> (d: Cpu)
    requires
        c.wf(),
        c.reg(7) > 0,
        c.reg(2) < 256,
    ensures
        takes(t, digit_put(t), c, d),
        only_printing(c, d),
        d.reg(0) == c.reg(0),
        d.reg(6) == c.reg(6),
        d.reg(7) == c.reg(7) - 1,
        d.reg(11) == c.reg(11),
        tells(d, Cc::Ne) == Some(c.reg(0) != 0),
        forall|x: int| #[trigger]
            (d.mem)(x) == if x == c.reg(7) - 1 {
                c.reg(2) as u8
            } else {
                (c.mem)(x)
            },
{
    assert(index(Gpr::Rax) == 0 && index(Gpr::Rdx) == 2 && index(Gpr::Rdi) == 7);
    takes_nothing(t, c);
    let t1 = t.on(t.text.add_ri(Gpr::Rdi, ONE_LESS));
    let d1 = follow_add_ri(t, t, Gpr::Rdi, ONE_LESS, c, c);
    let t2 = t1.on(t1.text.mov_store8_mem(Gpr::Rdi, 0, Gpr::Rdx));
    let d2 = follow_mov_store8_mem(t, t1, Gpr::Rdi, 0, Gpr::Rdx, c, d1);
    with_itself(c.reg(0));
    let d = follow_test_rr(t, t2, Gpr::Rax, Gpr::Rax, c, d2);
    assert(byte_at(c.reg(2) as int, 0) == c.reg(2) as u8) by {
        reveal_with_fuel(byte_at, 2);
    }
    assert forall|r: Gpr| !print_regs().contains(r) implies #[trigger] d.reg(index(r)) == c.reg(
        index(r),
    ) by {
        printing_apart(r);
    }
    d
}

/// The code of one turn: its label, the division, the digit and the test.
pub open spec fn radix_turn(
    env: Env,
    s: LowState,
    top: LabelId,
    radix: u64,
    upper: bool,
) -> LowState {
    let t = s.on(s.text.bind(top));
    let t = divided(t, radix);
    let t = env.digit_of_rdx(t, case_of(upper));
    digit_put(t)
}

/// The code of a digit loop.
pub open spec fn radix_done(
    env: Env,
    s: LowState,
    top: LabelId,
    radix: u64,
    upper: bool,
) -> LowState {
    let t = radix_turn(env, s, top, radix, upper);
    t.on(t.text.jcc_local(Cc::Ne, top))
}

proof fn radix_parts(env: Env, w: Seq<Ins>, s: LowState, top: LabelId, radix: u64, upper: bool)
    requires
        within(w, radix_done(env, s, top, radix, upper)),
    ensures
        ({
            let t1 = s.on(s.text.bind(top));
            let t2 = divided(t1, radix);
            let t3 = env.digit_of_rdx(t2, case_of(upper));
            &&& within(w, s)
            &&& within(w, t1)
            &&& within(w, t2)
            &&& within(w, t3)
            &&& within(w, digit_put(t3))
        }),
{
    reveal(AsmState::jcc_local);
    reveal(AsmState::test_rr);
    reveal(AsmState::mov_store8_mem);
    reveal(AsmState::add_ri);
    reveal(AsmState::zero_rdx);
    reveal(AsmState::mov_ri);
    reveal(AsmState::div_r);
    let t1 = s.on(s.text.bind(top));
    let t2 = divided(t1, radix);
    let t3 = env.digit_of_rdx(t2, case_of(upper));
    let t4 = digit_put(t3);
    let z = radix_done(env, s, top, radix, upper).text.instrs;
    prefix(z, t4.text.instrs);
    starts_trans(w, z, t4.text.instrs);
    prefix(t4.text.instrs, t3.text.instrs);
    starts_trans(w, t4.text.instrs, t3.text.instrs);
    digit_parts(t2, case_of(upper));
    assert(starts(t3.text.instrs, t2.text.instrs)) by {
        reveal(Env::digit_of_rdx);
    }
    starts_trans(w, t3.text.instrs, t2.text.instrs);
    prefix(t2.text.instrs, t1.text.instrs);
    starts_trans(w, t2.text.instrs, t1.text.instrs);
    prefix(t1.text.instrs, s.text.instrs);
    starts_trans(w, t1.text.instrs, s.text.instrs);
}

proof fn radix_digit_in_front(
    m: Bytes,
    m1: Bytes,
    k: Bytes,
    v: nat,
    radix: nat,
    upper: bool,
    end: int,
)
    requires
        2 <= radix <= 16,
        v >= radix,
        m1(end - 1) == digit_char((v % radix) as int, upper) as u8,
        forall|x: int| x != end - 1 ==> #[trigger] m1(x) == m(x),
        written(m1, k, in_radix(v / radix, radix, upper), end - 1, 0, 0),
    ensures
        written(m, k, in_radix(v, radix, upper), end, 0, 0),
{
    let a = in_radix(v / radix, radix, upper);
    let b = in_radix(v, radix, upper);
    assert(b == a.push(digit_char((v % radix) as int, upper)));
    let n = b.len();
    assert forall|x: int| end - n <= x < end implies #[trigger] k(x) == b[x - (end - n)] as u8 by {
        if x == end - 1 {
            assert(k(x) == m1(x));
        } else {
            assert(k(x) == a[x - (end - 1 - a.len())] as u8);
        }
    }
    assert forall|x: int| !(end - n <= x < end) implies #[trigger] k(x) == m(x) by {
        assert(k(x) == m1(x));
    }
}

/// A quotient is less than what is divided.
pub proof fn quotient_less(v: nat, radix: nat)
    requires
        v >= radix,
        radix >= 2,
    ensures
        v / radix < v,
        v / radix >= 1,
{
    assert(v / radix < v && v / radix >= 1) by (nonlinear_arith)
        requires
            v >= radix,
            radix >= 2,
    ;
}

proof fn remainder_small(v: nat, radix: nat)
    requires
        2 <= radix,
    ensures
        v % radix < radix,
        v < radix ==> v % radix == v && v / radix == 0,
{
    assert(v % radix < radix && (v < radix ==> v % radix == v && v / radix == 0))
        by (nonlinear_arith)
        requires
            radix >= 2,
    ;
}

#[verifier::spinoff_prover]
#[verifier::rlimit(40)]
proof fn radix_loop(
    env: Env,
    w: Seq<Ins>,
    s: LowState,
    top: LabelId,
    radix: u64,
    upper: bool,
    c: Cpu,
) -> (d: Cpu)
    requires
        labels_once(w),
        within(w, radix_done(env, s, top, radix, upper)),
        c.wf(),
        2 <= radix <= 16,
        in_radix(c.reg(0) as nat, radix as nat, upper).len() <= c.reg(7),
    ensures
        reaches(w, s, c, radix_done(env, s, top, radix, upper), d),
        only_printing(c, d),
        d.reg(6) == c.reg(6),
        d.reg(7) == c.reg(7) - in_radix(c.reg(0) as nat, radix as nat, upper).len(),
        d.reg(11) == c.reg(11),
        written(
            c.mem,
            d.mem,
            in_radix(c.reg(0) as nat, radix as nat, upper),
            c.reg(7) as int,
            0,
            0,
        ),
    decreases c.reg(0),
{
    let v = c.reg(0) as nat;
    let b = radix as nat;
    radix_parts(env, w, s, top, radix, upper);
    remainder_small(v, b);
    let t1 = s.on(s.text.bind(top));
    let t2 = divided(t1, radix);
    let t3 = env.digit_of_rdx(t2, case_of(upper));
    let t4 = digit_put(t3);
    let t5 = radix_done(env, s, top, radix, upper);
    past_label(w, s, top, c);
    let c2 = division_runs(t1, radix, c);
    straight_on(w, t1, t2, c, c2);
    onwards(w, s, c, t1, c, t2, c2);
    let c3 = digit_is_made(env, w, t2, upper, c2);
    onwards(w, s, c, t2, c2, t3, c3);
    assert(only_printing(c2, c3)) by {
        assert forall|r: Gpr| !print_regs().contains(r) implies #[trigger] c3.reg(index(r))
            == c2.reg(index(r)) by {
            printing_apart(r);
        }
    }
    kept_both(c, c2, c3);
    let text = in_radix(v, b, upper);
    assert(text.len() >= 1);
    let c4 = digit_is_put(t3, c3);
    straight_on(w, t3, t4, c3, c4);
    onwards(w, s, c, t3, c3, t4, c4);
    kept_both(c, c3, c4);
    let end = c.reg(7) as int;
    if v < b {
        branch_passed(w, t4, Cc::Ne, top, c4);
        onwards(w, s, c, t4, c4, t5, c4);
        assert(text =~= seq![digit_char(v as int, upper)]);
        c4
    } else {
        quotient_less(v, b);
        branch_taken(w, t4, Cc::Ne, top, s, c4);
        onwards(w, s, c, t4, c4, s, c4);
        assert(text == in_radix(v / b, b, upper).push(digit_char((v % b) as int, upper)));
        let d = radix_loop(env, w, s, top, radix, upper, c4);
        onwards(w, s, c, s, c4, t5, d);
        kept_both(c, c4, d);
        radix_digit_in_front(c.mem, c4.mem, d.mem, v, b, upper, end);
        d
    }
}

/// A number below two to the `k` has at most `k` digits in any radix.
pub proof fn radix_digits_few(v: nat, radix: nat, upper: bool, k: nat)
    requires
        radix >= 2,
        k >= 1,
        v < pow2(k),
    ensures
        1 <= in_radix(v, radix, upper).len() <= k,
    decreases k,
{
    if v >= radix {
        lemma_pow2_unfold(k);
        lemma2_to64();
        if k == 1 {
            assert(pow2(1) == 2);
        } else {
            quotient_less(v, radix);
            let p = pow2((k - 1) as nat);
            assert(v / radix < p) by (nonlinear_arith)
                requires
                    v < 2 * p,
                    radix >= 2,
            ;
            radix_digits_few(v / radix, radix, upper, (k - 1) as nat);
        }
    }
}

/// The digits of `rax` in a radix go to the cursor, which goes on behind them; beyond that only
/// the scratch room at the top of the stack is written to.
#[verifier::spinoff_prover]
#[verifier::rlimit(60)]
pub proof fn radix_is_printed(
    env: Env,
    w: Seq<Ins>,
    s: LowState,
    radix: u64,
    upper: bool,
    c: Cpu,
) -> (d: Cpu)
    requires
        labels_once(w),
        within(w, env.emit_radix_digits(s, radix, upper)),
        c.wf(),
        2 <= radix <= 16,
        cursor_clear(c, 64, 64),
    ensures
        reaches(w, s, c, env.emit_radix_digits(s, radix, upper), d),
        only_printing(c, d),
        d.reg(11) == c.reg(11) + in_radix(c.reg(0) as nat, radix as nat, upper).len(),
        written(
            c.mem,
            d.mem,
            in_radix(c.reg(0) as nat, radix as nat, upper),
            d.reg(11) as int,
            c.reg(4) as int,
            c.reg(4) + 64,
        ),
        within(w, s),
{
    assert(index(Gpr::Rax) == 0 && index(Gpr::Rdx) == 2 && index(Gpr::R11) == 11);
    let v = c.reg(0) as nat;
    let text = in_radix(v, radix as nat, upper);
    lemma2_to64();
    lemma2_to64_rest();
    radix_digits_few(v, radix as nat, upper, 64);
    let nonzero = s.text.fresh();
    let s1 = s.on(s.text.new_label());
    let done = s1.text.fresh();
    let s2 = s1.on(s1.text.new_label());
    let t1 = s2.on(s2.text.test_rr(Gpr::Rax, Gpr::Rax));
    let t2 = t1.on(t1.text.jcc_local(Cc::Ne, nonzero));
    let t3 = zero_put(t2);
    let t4 = t3.on(t3.text.jmp_local(done));
    let t5 = t4.on(t4.text.bind(nonzero));
    let t6 = env.scratch_at(t5, 64);
    let top = t6.text.fresh();
    let t7 = t6.on(t6.text.new_label());
    let t8 = radix_done(env, t7, top, radix, upper);
    let t9 = env.copy_scratch_to_cursor(t8);
    let u = t9.on(t9.text.bind(done));
    assert(env.emit_radix_digits(s, radix, upper) == u) by {
        reveal(Env::emit_radix_digits);
    }
    prefix(u.text.instrs, t9.text.instrs);
    starts_trans(w, u.text.instrs, t9.text.instrs);
    scratch_within(env, w, t8);
    radix_parts(env, w, t7, top, radix, upper);
    radix_front(env, s, t2);
    starts_trans(w, t6.text.instrs, t5.text.instrs);
    starts_trans(w, t6.text.instrs, t4.text.instrs);
    starts_trans(w, t6.text.instrs, t3.text.instrs);
    starts_trans(w, t6.text.instrs, t2.text.instrs);
    starts_trans(w, t6.text.instrs, t1.text.instrs);
    takes_nothing(s2, c);
    with_itself(c.reg(0));
    let c1 = follow_test_rr(s2, s2, Gpr::Rax, Gpr::Rax, c, c);
    straight_on(w, s2, t1, c, c1);
    assert(reaches(w, s, c, t1, c1));
    assert(tells(c1, Cc::Ne) == Some(c.reg(0) != 0));
    assert(c1.regs == c.regs && c1.mem == c.mem);
    assert(only_printing(c, c1));
    if v == 0 {
        branch_passed(w, t1, Cc::Ne, nonzero, c1);
        onwards(w, s, c, t1, c1, t2, c1);
        let d = zero_is_put(t2, c1);
        straight_on(w, t2, t3, c1, d);
        onwards(w, s, c, t2, c1, t3, d);
        jump_comes(w, t3, done, t9, d);
        onwards(w, s, c, t3, d, t9, d);
        past_label(w, t9, done, d);
        onwards(w, s, c, t9, d, u, d);
        kept_both(c, c1, d);
        assert(text =~= seq!['0']);
        d
    } else {
        branch_taken(w, t1, Cc::Ne, nonzero, t4, c1);
        onwards(w, s, c, t1, c1, t4, c1);
        past_label(w, t4, nonzero, c1);
        onwards(w, s, c, t4, c1, t5, c1);
        takes_nothing(t5, c1);
        let c6 = scratch_runs(env, t5, t5, 64, c1, c1);
        straight_on(w, t5, t6, c1, c6);
        onwards(w, s, c, t5, c1, t6, c6);
        kept_both(c, c1, c6);
        let c8 = radix_loop(env, w, t7, top, radix, upper, c6);
        assert(reaches(w, t6, c6, t8, c8));
        onwards(w, s, c, t6, c6, t8, c8);
        kept_both(c, c6, c8);
        let d = scratch_is_copied(env, w, t8, c8);
        onwards(w, s, c, t8, c8, t9, d);
        past_label(w, t9, done, d);
        onwards(w, s, c, t9, d, u, d);
        kept_both(c, c8, d);
        let end = c.reg(4) + 64;
        assert(written(c.mem, c8.mem, text, end, c.reg(4) as int, end)) by {
            let k = c8.mem;
            assert forall|x: int| !(end - text.len() <= x < end) && !(c.reg(4) <= x < end) implies
                #[trigger] k(x) == (c.mem)(x) by {
                assert(k(x) == (c6.mem)(x));
            }
        }
        text_is_copied(c.mem, c8.mem, d.mem, text, end, c.reg(11) as int, c.reg(4) as int, end);
        d
    }
}

/// The code that writes a zero.
pub open spec fn zero_put(t: LowState) -> LowState {
    let t = t.on(t.text.mov_ri(Gpr::Rdx, 48));
    let t = t.on(t.text.mov_store8_mem(Gpr::R11, 0, Gpr::Rdx));
    t.on(t.text.add_ri(Gpr::R11, 1))
}

#[verifier::spinoff_prover]
proof fn zero_is_put(t: LowState, c: Cpu) -> (d: Cpu)
    requires
        c.wf(),
        c.reg(11) + 1 < SPAN,
    ensures
        takes(t, zero_put(t), c, d),
        only_printing(c, d),
        d.reg(11) == c.reg(11) + 1,
        forall|x: int| #[trigger]
            (d.mem)(x) == if x == c.reg(11) {
                '0' as u8
            } else {
                (c.mem)(x)
            },
{
    assert(index(Gpr::Rdx) == 2 && index(Gpr::R11) == 11);
    takes_nothing(t, c);
    let t1 = t.on(t.text.mov_ri(Gpr::Rdx, 48));
    let d1 = follow_mov_ri(t, t, Gpr::Rdx, 48, c, c);
    let t2 = t1.on(t1.text.mov_store8_mem(Gpr::R11, 0, Gpr::Rdx));
    let d2 = follow_mov_store8_mem(t, t1, Gpr::R11, 0, Gpr::Rdx, c, d1);
    let d = follow_add_ri(t, t2, Gpr::R11, 1, c, d2);
    assert(byte_at(48, 0) == 48) by {
        reveal_with_fuel(byte_at, 2);
    }
    assert forall|r: Gpr| !print_regs().contains(r) implies #[trigger] d.reg(index(r)) == c.reg(
        index(r),
    ) by {
        printing_apart(r);
    }
    d
}

proof fn radix_front(env: Env, s: LowState, t2: LowState)
    requires
        ({
            let s1 = s.on(s.text.new_label());
            let s2 = s1.on(s1.text.new_label());
            let t1 = s2.on(s2.text.test_rr(Gpr::Rax, Gpr::Rax));
            t2 == t1.on(t1.text.jcc_local(Cc::Ne, s.text.fresh()))
        }),
    ensures
        ({
            let s1 = s.on(s.text.new_label());
            let done = s1.text.fresh();
            let s2 = s1.on(s1.text.new_label());
            let t1 = s2.on(s2.text.test_rr(Gpr::Rax, Gpr::Rax));
            let t3 = zero_put(t2);
            let t4 = t3.on(t3.text.jmp_local(done));
            let t5 = t4.on(t4.text.bind(s.text.fresh()));
            let z = env.scratch_at(t5, 64).text.instrs;
            &&& starts(z, t5.text.instrs)
            &&& starts(z, t4.text.instrs)
            &&& starts(z, t3.text.instrs)
            &&& starts(z, t2.text.instrs)
            &&& starts(z, t1.text.instrs)
        }),
{
    reveal(AsmState::test_rr);
    reveal(AsmState::jcc_local);
    reveal(AsmState::mov_ri);
    reveal(AsmState::mov_store8_mem);
    reveal(AsmState::add_ri);
    reveal(AsmState::jmp_local);
    reveal(AsmState::mov_rr);
    reveal(Env::scratch_at);
    let s1 = s.on(s.text.new_label());
    let done = s1.text.fresh();
    let s2 = s1.on(s1.text.new_label());
    let t1 = s2.on(s2.text.test_rr(Gpr::Rax, Gpr::Rax));
    let t3 = zero_put(t2);
    let t4 = t3.on(t3.text.jmp_local(done));
    let t5 = t4.on(t4.text.bind(s.text.fresh()));
    let z = env.scratch_at(t5, 64).text.instrs;
    prefix(z, t5.text.instrs);
    prefix(z, t4.text.instrs);
    prefix(z, t3.text.instrs);
    prefix(z, t2.text.instrs);
    prefix(z, t1.text.instrs);
}

} // verus!
