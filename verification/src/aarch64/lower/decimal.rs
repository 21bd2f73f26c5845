//! What printing code does: numbers of two words, written in decimal at the cursor.
use vstd::prelude::*;

use crate::aarch64::encode::{A64State, FP, MemSize, Reg, SP, XZR, rrr};
use crate::aarch64::lower::effects::{
    access_is_right, adds_takes, number_is_loaded, takes, takes_nothing,
};
use crate::aarch64::lower::env::{A64Func, A64Low, ADDR, RES, S2, S3, S4, S5};
use crate::aarch64::lower::simulation::complement_of;
use crate::aarch64::lower::flow::{branches_behind, cond_number, tested_zero};
use crate::aarch64::lower::loops::{
    branch_passed, branch_taken, jump_comes, onwards, reaches, starts, starts_trans, straight_on,
};
use crate::aarch64::lower::print_effects::{
    bits_done, bits_parts, bits_put, bits_put_grows, bits_set_up, bits_set_up_grows, bound_behind,
    branch_extends, division_code, fetch_runs, grown_behind, grows, grows_trans, jump_extends,
    keep_runs, less_runs, load_grows, low_divided, low_word_is_divided, number_grows, opened_behind,
    or_runs, shorter, store_grows, test_extends, test_longer, test_runs, word_grows,
};
use crate::aarch64::machine::{Act, Alu, Core, act, combined, condition};
use crate::aarch64::steps::{
    Access, add_does, add_imm_does, adds_imm_does, cset_does, index, mov_reg_does, msub_does,
    mvn_does, other_way, other_way_is_opposite, sub_does, udiv_does,
};
use crate::bytes::wrap64;
use crate::encode::{Cc, LabelId};
use crate::lower::effects::with_itself;
use crate::lower::mem_effects::{copied, fetched_is_word};
use crate::lower::print_effects::{
    both_zero, byte_moves, complement_is_negation, copyable, digit_in_front, number_text,
    only_digit, sign_in_front, signed128, text_is_copied, wide_digits, wide_quotient, written,
};
use crate::machine::{
    Bytes, SPAN, byte_at, elsewhere_stays, fetch, fetch_bounded, in_space, patch, pow256_values,
    written_is_read,
};
use crate::text::{decimal, digit};

verus! {

/// The number in the two working words at the top of the stack.
pub open spec fn wide_at(m: Bytes, sp: int) -> nat {
    (fetch(m, sp + 8, 8) * SPAN + fetch(m, sp, 8)) as nat
}

/// The high word over ten, with the remainder kept for the low one.
pub open spec fn high_divided(t: A64Low) -> A64Low {
    let t = t.on(t.text.mov_imm(Reg(14), 10));
    let t = t.on(t.text.load(Reg(RES), Reg(SP), 8, MemSize::X));
    let t = t.on(t.text.udiv(Reg(15), Reg(RES), Reg(14)));
    let t = t.on(t.text.msub(Reg(8), Reg(15), Reg(14), Reg(RES)));
    let t = t.on(t.text.store(Reg(15), Reg(SP), 8, MemSize::X));
    t.on(t.text.store(Reg(8), Reg(SP), 32, MemSize::X))
}

/// The remainder in front of what is written.
pub open spec fn digit_put(t: A64Low) -> A64Low {
    let t = t.on(t.text.add_imm_pos(Reg(8), Reg(8), 48));
    let t = t.on(t.text.sub_imm(Reg(S3), Reg(S3), 1));
    t.on(t.text.store(Reg(8), Reg(S3), 0, MemSize::B))
}

/// Whether no register changed but those that the digits need.
pub open spec fn only_digits(c: Core, d: Core) -> bool {
    &&& d.wf()
    &&& d.sp == c.sp
    &&& forall|k: int|
        0 <= k < 31 && k != 8 && k != 9 && k != 11 && k != 12 && k != 13 && k != 14 && k != 15 && k
            != 17 ==> #[trigger] d.regs[k] == c.regs[k]
}

proof fn high_divided_grows(t: A64Low)
    ensures
        grows(t.text, high_divided(t).text),
{
    let t1 = t.text.mov_imm(Reg(14), 10);
    number_grows(t.text, Reg(14), 10);
    let t2 = t1.load(Reg(RES), Reg(SP), 8, MemSize::X);
    load_grows(t1, Reg(RES), Reg(SP), 8, MemSize::X);
    let t3 = t2.udiv(Reg(15), Reg(RES), Reg(14));
    let t4 = t3.msub(Reg(8), Reg(15), Reg(14), Reg(RES));
    assert(grows(t2, t3) && grows(t3, t4)) by {
        reveal(A64State::udiv);
        reveal(A64State::msub);
        word_grows(t2, rrr(0x9AC0_0800, Reg(15), Reg(RES), Reg(14)));
        word_grows(
            t3,
            crate::aarch64::encode::rrra(0x9B00_8000, Reg(8), Reg(15), Reg(14), Reg(RES)),
        );
    }
    let t5 = t4.store(Reg(15), Reg(SP), 8, MemSize::X);
    store_grows(t4, Reg(15), Reg(SP), 8, MemSize::X);
    let t6 = t5.store(Reg(8), Reg(SP), 32, MemSize::X);
    store_grows(t5, Reg(8), Reg(SP), 32, MemSize::X);
    grows_trans(t.text, t1, t2);
    grows_trans(t.text, t2, t3);
    grows_trans(t.text, t3, t4);
    grows_trans(t.text, t4, t5);
    grows_trans(t.text, t5, t6);
}

proof fn digit_put_grows(t: A64Low)
    ensures
        grows(t.text, digit_put(t).text),
{
    let t1 = t.text.add_imm_pos(Reg(8), Reg(8), 48);
    let t2 = t1.sub_imm(Reg(S3), Reg(S3), 1);
    assert(grows(t.text, t1) && grows(t1, t2)) by {
        reveal(A64State::add_imm_pos);
        reveal(A64State::add_imm);
        reveal(A64State::sub_imm);
        word_grows(t.text, crate::aarch64::encode::imm(0x9100_0000, Reg(8), Reg(8), 48));
        word_grows(t1, crate::aarch64::encode::imm(0xD100_0000, Reg(S3), Reg(S3), 1));
    }
    let t3 = t2.store(Reg(8), Reg(S3), 0, MemSize::B);
    store_grows(t2, Reg(8), Reg(S3), 0, MemSize::B);
    grows_trans(t.text, t1, t2);
    grows_trans(t.text, t2, t3);
}

proof fn quotient_runs(s: A64Low, t: A64Low, c: Core, d: Core) -> (e: Core)
    requires
        takes(s, t, c, d),
        d.wf(),
        d.regs[14] == 10,
    ensures
        ({
            let t1 = t.on(t.text.udiv(Reg(15), Reg(RES), Reg(14)));
            takes(s, t1.on(t1.text.msub(Reg(8), Reg(15), Reg(14), Reg(RES))), c, e)
        }),
        e.wf(),
        e.sp == d.sp,
        e.mem == d.mem,
        e.regs[15] == d.regs[9] / 10,
        e.regs[8] == d.regs[9] % 10,
        forall|k: int| 0 <= k < 31 && k != 8 && k != 15 ==> #[trigger] e.regs[k] == d.regs[k],
{
    reveal(act);
    reveal(combined);
    let t1 = t.on(t.text.udiv(Reg(15), Reg(RES), Reg(14)));
    udiv_does(t.text, Reg(15), Reg(RES), Reg(14));
    let a = Act::Binary { op: Alu::Over, rd: 15, rn: 9, rm: 14 };
    adds_takes(s, t, t1, a, c, d);
    let d1 = act(a, d).unwrap();
    let x = d.regs[9];
    assert(d1.regs[15] == x / 10);
    let t2 = t1.on(t1.text.msub(Reg(8), Reg(15), Reg(14), Reg(RES)));
    msub_does(t1.text, Reg(8), Reg(15), Reg(14), Reg(RES));
    let b = Act::TimesPlus { minus: true, rd: 8, rn: 15, rm: 14, ra: 9 };
    adds_takes(s, t1, t2, b, c, d1);
    let e = act(b, d1).unwrap();
    let q = d1.regs[15];
    let y = d1.regs[14];
    assert(q * y == 10 * q) by (nonlinear_arith)
        requires
            y == 10,
    ;
    assert(e.regs[8] == x % 10);
    e
}

#[verifier::spinoff_prover]
#[verifier::rlimit(40)]
proof fn high_divides(t: A64Low, d: Core) -> (e: Core)
    requires
        d.wf(),
        in_space(d.sp as int, 40),
    ensures
        takes(t, high_divided(t), d, e),
        only_digits(d, e),
        e.regs[11] == d.regs[11],
        e.mem == patch(
            patch(d.mem, d.sp + 8, 8, fetch(d.mem, d.sp + 8, 8) / 10),
            d.sp + 32,
            8,
            fetch(d.mem, d.sp + 8, 8) % 10,
        ),
{
    takes_nothing(t, d);
    let sp = d.sp as int;
    let t1 = t.on(t.text.mov_imm(Reg(14), 10));
    let d1 = number_is_loaded(t, t, Reg(14), 10, d, d);
    let t2 = t1.on(t1.text.load(Reg(RES), Reg(SP), 8, MemSize::X));
    let d2 = fetch_runs(t, t1, Reg(RES), 8, d, d1);
    let t3 = t2.on(t2.text.udiv(Reg(15), Reg(RES), Reg(14)));
    let t4 = t3.on(t3.text.msub(Reg(8), Reg(15), Reg(14), Reg(RES)));
    let d4 = quotient_runs(t, t2, d, d2);
    let t5 = t4.on(t4.text.store(Reg(15), Reg(SP), 8, MemSize::X));
    let d5 = keep_runs(t, t4, Reg(15), 8, d, d4);
    keep_runs(t, t5, Reg(8), 32, d, d5)
}

#[verifier::spinoff_prover]
#[verifier::rlimit(40)]
proof fn digit_is_put(t: A64Low, d: Core) -> (e: Core)
    requires
        d.wf(),
        d.regs[8] < 10,
        d.regs[11] > 0,
    ensures
        takes(t, digit_put(t), d, e),
        only_digits(d, e),
        e.regs[11] == d.regs[11] - 1,
        e.mem == patch(d.mem, d.regs[11] - 1, 1, 48 + d.regs[8]),
{
    takes_nothing(t, d);
    let t1 = t.on(t.text.add_imm_pos(Reg(8), Reg(8), 48));
    let d1 = d.put(8, d.regs[8] + 48);
    assert(takes(t, t1, d, d1)) by {
        reveal(A64State::add_imm_pos);
        reveal(act);
        add_imm_does(t.text, Reg(8), Reg(8), 48);
        let a = Act::PlusImm { rd: 8, rn: 8, value: 48 };
        adds_takes(t, t, t1, a, d, d);
    }
    let t2 = t1.on(t1.text.sub_imm(Reg(S3), Reg(S3), 1));
    let d2 = less_runs(t, t1, Reg(S3), 1, d, d1);
    reveal(A64State::store);
    access_is_right(t, t2, Access::Store, Reg(8), Reg(S3), 0, MemSize::B, d, d2)
}

/// Whether `d` is `c` with one digit less in the working words and one more written.
pub open spec fn digit_taken(c: Core, d: Core) -> bool {
    let sp = c.sp as int;
    let v = wide_at(c.mem, sp);
    &&& only_digits(c, d)
    &&& d.regs[11] == c.regs[11] - 1
    &&& wide_at(d.mem, sp) == v / 10
    &&& (d.mem)(c.regs[11] - 1) == (48 + v % 10) as u8
    &&& forall|a: int|
        a != c.regs[11] - 1 && !(sp <= a < sp + 40) ==> #[trigger] (d.mem)(a) == (c.mem)(a)
}

proof fn division_extends(env: A64Func, w: A64State, s: A64Low)
    requires
        starts(w, env.divmod10_128_low(s).text),
        w.code.len() <= usize::MAX,
        branches_behind(s.text),
        s.text.labels.len() < 0xFFFF_FFF0,
    ensures
        starts(w, s.text),
        branches_behind(env.divmod10_128_low(s).text),
        env.divmod10_128_low(s).text.labels.len() == s.text.labels.len() + 3,
        s.text.code.len() <= env.divmod10_128_low(s).text.code.len(),
        starts(env.divmod10_128_low(s).text, s.text),
{
    division_code(env, s);
    let n = s.text.labels.len() as u32;
    let top = LabelId(n);
    let done = LabelId((n + 1) as u32);
    let t1 = bits_set_up(s);
    let t2 = t1.on(t1.text.new_label().new_label());
    let t3 = bits_done(t2, top, done);
    let u = bits_put(t3);
    bits_set_up_grows(s);
    grown_behind(s.text, t1.text);
    opened_behind(t1.text);
    opened_behind(t1.text.new_label());
    starts_trans(t2.text, t1.text.new_label(), t1.text);
    starts_trans(t2.text, t1.text, s.text);
    bits_put_grows(t3);
    starts_trans(w, u.text, t3.text);
    bits_parts(w, t2, top, done);
    starts_trans(w, t2.text, s.text);
    grown_behind(t3.text, u.text);
    itself(t3.text);
    bits_parts(t3.text, t2, top, done);
    starts_trans(u.text, t3.text, t2.text);
    starts_trans(u.text, t2.text, s.text);
}

proof fn itself(s: A64State)
    ensures
        starts(s, s),
{
    assert(s.code.take(s.code.len() as int) =~= s.code);
}

/// What the high word's division leaves in memory.
proof fn high_words(m: Bytes, k: Bytes, sp: int)
    requires
        k == patch(
            patch(m, sp + 8, 8, fetch(m, sp + 8, 8) / 10),
            sp + 32,
            8,
            fetch(m, sp + 8, 8) % 10,
        ),
    ensures
        fetch(k, sp + 32, 8) == fetch(m, sp + 8, 8) % 10,
        fetch(k, sp + 8, 8) == fetch(m, sp + 8, 8) / 10,
        fetch(k, sp, 8) == fetch(m, sp, 8),
        forall|a: int| !(sp <= a < sp + 40) ==> #[trigger] k(a) == m(a),
{
    let hi = fetch(m, sp + 8, 8);
    fetch_bounded(m, sp + 8, 8);
    pow256_values();
    let m1 = patch(m, sp + 8, 8, hi / 10);
    written_is_read(m, sp + 8, 8, hi / 10);
    elsewhere_stays(m, sp + 8, 8, hi / 10, sp, 8);
    elsewhere_stays(m1, sp + 32, 8, hi % 10, sp, 8);
    elsewhere_stays(m1, sp + 32, 8, hi % 10, sp + 8, 8);
    written_is_read(m1, sp + 32, 8, hi % 10);
}

/// The two divisions and the byte, put together.
#[verifier::spinoff_prover]
proof fn digit_follows(c: Core, c1: Core, c2: Core, d: Core)
    requires
        c.sp + 40 < c.regs[11],
        only_digits(c, c1),
        c1.regs[11] == c.regs[11],
        c1.mem == patch(
            patch(c.mem, c.sp + 8, 8, fetch(c.mem, c.sp + 8, 8) / 10),
            c.sp + 32,
            8,
            fetch(c.mem, c.sp + 8, 8) % 10,
        ),
        low_divided(c1, c2),
        only_digits(c2, d),
        d.regs[11] == c2.regs[11] - 1,
        d.mem == patch(c2.mem, c2.regs[11] - 1, 1, 48 + c2.regs[8]),
    ensures
        digit_taken(c, d),
{
    let sp = c.sp as int;
    let hi = fetch(c.mem, sp + 8, 8);
    let lo = fetch(c.mem, sp, 8);
    fetch_bounded(c.mem, sp, 8);
    fetch_bounded(c.mem, sp + 8, 8);
    pow256_values();
    high_words(c.mem, c1.mem, sp);
    wide_quotient(hi, lo);
    crate::machine::fetch_same(c2.mem, sp + 8, c1.mem, sp + 8, 8);
    let b = 48 + c2.regs[8];
    let at = c2.regs[11] - 1;
    assert(c2.regs[11] == c1.regs[11]);
    elsewhere_stays(c2.mem, at, 1, b, sp, 8);
    elsewhere_stays(c2.mem, at, 1, b, sp + 8, 8);
    assert(byte_at(b, 0) == b as u8) by {
        reveal_with_fuel(byte_at, 2);
    }
    assert(only_digits(c, d)) by {
        assert forall|k: int|
            0 <= k < 31 && k != 8 && k != 9 && k != 11 && k != 12 && k != 13 && k != 14 && k != 15
                && k != 17 implies #[trigger] d.regs[k] == c.regs[k] by {
            assert(c1.regs[k] == c.regs[k]);
            assert(c2.regs[k] == c1.regs[k]);
        }
    }
    assert forall|a: int| a != c.regs[11] - 1 && !(sp <= a < sp + 40) implies #[trigger] (d.mem)(a)
        == (c.mem)(a) by {
        assert((c2.mem)(a) == (c1.mem)(a));
        assert((c1.mem)(a) == (c.mem)(a));
    }
}

#[verifier::spinoff_prover]
#[verifier::rlimit(40)]
proof fn next_digit_runs(env: A64Func, w: A64State, s: A64Low, c: Core) -> (d: Core)
    requires
        starts(w, env.next_wide_digit(s).text),
        w.code.len() <= usize::MAX,
        branches_behind(s.text),
        s.text.labels.len() < 0xFFFF_FFF0,
        c.wf(),
        in_space(c.sp as int, 40),
        c.sp + 40 < c.regs[11],
    ensures
        reaches(w, s, c, env.next_wide_digit(s), d),
        digit_taken(c, d),
{
    let t1 = high_divided(s);
    let t2 = env.divmod10_128_low(t1);
    let t3 = digit_put(t2);
    assert(env.next_wide_digit(s) == t3) by {
        reveal(A64Func::next_wide_digit);
    }
    high_divided_grows(s);
    grown_behind(s.text, t1.text);
    digit_put_grows(t2);
    starts_trans(w, t3.text, t2.text);
    division_extends(env, w, t1);
    let c1 = high_divides(s, c);
    straight_on(w, s, t1, c, c1);
    high_words(c.mem, c1.mem, c.sp as int);
    let c2 = low_word_is_divided(env, w, t1, c1);
    onwards(w, s, c, t1, c1, t2, c2);
    let d = digit_is_put(t2, c2);
    straight_on(w, t2, t3, c2, d);
    onwards(w, s, c, t2, c2, t3, d);
    digit_follows(c, c1, c2, d);
    d
}

// ---------------------------------------------------------------------------
//  The loop
// ---------------------------------------------------------------------------

/// Both working words in one.
pub open spec fn words_joined(t: A64Low) -> A64Low {
    let t = t.on(t.text.load(Reg(RES), Reg(SP), 0, MemSize::X));
    let t = t.on(t.text.load(Reg(15), Reg(SP), 8, MemSize::X));
    t.on(t.text.orr(Reg(RES), Reg(RES), Reg(15)))
}

proof fn words_joined_grows(t: A64Low)
    ensures
        grows(t.text, words_joined(t).text),
{
    let t1 = t.text.load(Reg(RES), Reg(SP), 0, MemSize::X);
    load_grows(t.text, Reg(RES), Reg(SP), 0, MemSize::X);
    let t2 = t1.load(Reg(15), Reg(SP), 8, MemSize::X);
    load_grows(t1, Reg(15), Reg(SP), 8, MemSize::X);
    let t3 = t2.orr(Reg(RES), Reg(RES), Reg(15));
    assert(grows(t2, t3)) by {
        reveal(A64State::orr);
        word_grows(t2, rrr(0xAA00_0000, Reg(RES), Reg(RES), Reg(15)));
    }
    grows_trans(t.text, t1, t2);
    grows_trans(t.text, t2, t3);
}

#[verifier::spinoff_prover]
#[verifier::rlimit(40)]
proof fn words_join(t: A64Low, d: Core) -> (e: Core)
    requires
        d.wf(),
        in_space(d.sp as int, 40),
    ensures
        takes(t, words_joined(t), d, e),
        only_digits(d, e),
        e.mem == d.mem,
        e.regs[11] == d.regs[11],
        (e.regs[9] == 0) == (wide_at(d.mem, d.sp as int) == 0),
{
    takes_nothing(t, d);
    let sp = d.sp as int;
    fetch_bounded(d.mem, sp, 8);
    fetch_bounded(d.mem, sp + 8, 8);
    let t1 = t.on(t.text.load(Reg(RES), Reg(SP), 0, MemSize::X));
    let d1 = fetch_runs(t, t, Reg(RES), 0, d, d);
    let t2 = t1.on(t1.text.load(Reg(15), Reg(SP), 8, MemSize::X));
    let d2 = fetch_runs(t, t1, Reg(15), 8, d, d1);
    both_zero(d2.regs[9], d2.regs[15]);
    or_runs(t, t2, Reg(RES), Reg(15), d, d2)
}

/// The digits of the working words: the label, the digit, the test and the branch back.
pub open spec fn digits_done(env: A64Func, s: A64Low, top: LabelId) -> A64Low {
    let t = s.on(s.text.bind(top));
    let t = env.next_wide_digit(t);
    let t = words_joined(t);
    let t = tested_zero(t);
    t.on(t.text.bcc(Cc::Ne, top))
}

/// Whether a label is there and not bound yet, with room for more.
pub open spec fn label_open(s: A64State, l: LabelId) -> bool {
    &&& s.labels.len() < 0xFFFF_FFF0
    &&& l.0 < s.labels.len()
    &&& s.labels[l.0 as int] is None
}

proof fn digit_extends(env: A64Func, s: A64Low)
    requires
        branches_behind(s.text),
        s.text.labels.len() < 0xFFFF_FFF0,
        env.next_wide_digit(s).text.code.len() <= usize::MAX,
    ensures
        branches_behind(env.next_wide_digit(s).text),
        starts(env.next_wide_digit(s).text, s.text),
        env.next_wide_digit(s).text.labels.len() == s.text.labels.len() + 3,
{
    let t1 = high_divided(s);
    let t2 = env.divmod10_128_low(t1);
    let t3 = digit_put(t2);
    assert(env.next_wide_digit(s) == t3) by {
        reveal(A64Func::next_wide_digit);
    }
    high_divided_grows(s);
    grown_behind(s.text, t1.text);
    digit_put_grows(t2);
    itself(t2.text);
    division_extends(env, t2.text, t1);
    grown_behind(t2.text, t3.text);
    starts_trans(t3.text, t2.text, t1.text);
    starts_trans(t3.text, t1.text, s.text);
}

#[verifier::spinoff_prover]
#[verifier::rlimit(40)]
proof fn digits_parts(env: A64Func, w: A64State, s: A64Low, top: LabelId)
    requires
        starts(w, digits_done(env, s, top).text),
        w.code.len() <= usize::MAX,
        branches_behind(s.text),
        label_open(s.text, top),
    ensures
        ({
            let t1 = s.on(s.text.bind(top));
            let t2 = env.next_wide_digit(t1);
            let t3 = words_joined(t2);
            let t4 = tested_zero(t3);
            let t5 = digits_done(env, s, top);
            &&& starts(w, s.text)
            &&& starts(w, t1.text) && branches_behind(t1.text)
            &&& starts(w, t2.text) && branches_behind(t2.text)
            &&& starts(w, t3.text) && branches_behind(t3.text)
            &&& starts(w, t4.text) && branches_behind(t4.text)
            &&& branches_behind(t5.text)
            &&& t1.text.labels.len() == s.text.labels.len()
            &&& t5.text.labels.len() == s.text.labels.len() + 3
        }),
{
    let t1 = s.on(s.text.bind(top));
    let t2 = env.next_wide_digit(t1);
    let t3 = words_joined(t2);
    let t4 = tested_zero(t3);
    let t5 = digits_done(env, s, top);
    bound_behind(s.text, top);
    longer(env, s, top);
    digit_extends(env, t1);
    words_joined_grows(t2);
    grown_behind(t2.text, t3.text);
    test_extends(t3, Reg(RES), 0);
    branch_extends(t4, Cc::Ne, top);
    starts_trans(w, t5.text, t4.text);
    starts_trans(w, t4.text, t3.text);
    starts_trans(w, t3.text, t2.text);
    starts_trans(w, t2.text, t1.text);
    starts_trans(w, t1.text, s.text);
}

proof fn longer(env: A64Func, s: A64Low, top: LabelId)
    ensures
        ({
            let t = env.next_wide_digit(s.on(s.text.bind(top)));
            let u = words_joined(t);
            let v = tested_zero(u);
            let n = digits_done(env, s, top).text.code.len();
            t.text.code.len() <= n && v.text.code.len() <= n
        }),
{
    let t = env.next_wide_digit(s.on(s.text.bind(top)));
    words_joined_grows(t);
    reveal(A64State::cmp_imm);
    reveal(A64State::bcc);
}

#[verifier::spinoff_prover]
#[verifier::rlimit(60)]
proof fn digits_loop(env: A64Func, w: A64State, s: A64Low, top: LabelId, c: Core) -> (d: Core)
    requires
        starts(w, digits_done(env, s, top).text),
        w.code.len() <= usize::MAX,
        branches_behind(s.text),
        label_open(s.text, top),
        c.wf(),
        in_space(c.sp as int, 40),
        c.sp + 40 + decimal(wide_at(c.mem, c.sp as int)).len() <= c.regs[11],
    ensures
        reaches(w, s, c, digits_done(env, s, top), d),
        only_digits(c, d),
        d.regs[11] == c.regs[11] - decimal(wide_at(c.mem, c.sp as int)).len(),
        written(
            c.mem,
            d.mem,
            decimal(wide_at(c.mem, c.sp as int)),
            c.regs[11] as int,
            c.sp as int,
            c.sp + 40,
        ),
    decreases wide_at(c.mem, c.sp as int),
{
    digits_parts(env, w, s, top);
    let sp = c.sp as int;
    let v = wide_at(c.mem, sp);
    let end = c.regs[11] as int;
    let t1 = s.on(s.text.bind(top));
    let t2 = env.next_wide_digit(t1);
    let t3 = words_joined(t2);
    let t4 = tested_zero(t3);
    let t5 = digits_done(env, s, top);
    assert(decimal(v).len() >= 1) by {
        if v >= 10 {
            assert(decimal(v) == decimal(v / 10).push(digit((v % 10) as int)));
        }
    }
    let c2 = next_digit_runs(env, w, t1, c);
    let c3 = words_join(t2, c2);
    straight_on(w, t2, t3, c2, c3);
    onwards(w, s, c, t2, c2, t3, c3);
    let c4 = zero_tested(t3, c3);
    straight_on(w, t3, t4, c3, c4);
    onwards(w, s, c, t3, c3, t4, c4);
    digits_both(c, c2, c3);
    if v < 10 {
        branch_passed(w, t4, Cc::Ne, top, c4);
        onwards(w, s, c, t4, c4, t5, c4);
        only_digit(c.mem, c4.mem, v, end, sp, sp + 40);
        c4
    } else {
        branch_taken(w, t4, Cc::Ne, top, s, c4);
        onwards(w, s, c, t4, c4, s, c4);
        assert(decimal(v).len() == decimal(v / 10).len() + 1);
        let d = digits_loop(env, w, s, top, c4);
        onwards(w, s, c, s, c4, t5, d);
        digits_both(c, c4, d);
        digit_in_front(c.mem, c4.mem, d.mem, v, end, sp, sp + 40);
        d
    }
}

proof fn zero_tested(t: A64Low, d: Core) -> (e: Core)
    requires
        d.wf(),
    ensures
        takes(t, tested_zero(t), d, e),
        e.regs == d.regs,
        e.sp == d.sp,
        e.mem == d.mem,
        condition(e, cond_number(Cc::Ne)) == (d.regs[9] != 0),
{
    takes_nothing(t, d);
    test_runs(t, t, Reg(RES), 0, d, d)
}

proof fn digits_both(c: Core, d: Core, e: Core)
    requires
        only_digits(c, d),
        only_digits(d, e),
    ensures
        only_digits(c, e),
{
    assert forall|k: int|
        0 <= k < 31 && k != 8 && k != 9 && k != 11 && k != 12 && k != 13 && k != 14 && k != 15 && k
            != 17 implies #[trigger] e.regs[k] == c.regs[k] by {
        assert(d.regs[k] == c.regs[k]);
    }
}

// ---------------------------------------------------------------------------
//  Copying to the cursor
// ---------------------------------------------------------------------------

/// One byte of a copy.
pub open spec fn copy_byte(t: A64Low) -> A64Low {
    let t = t.on(t.text.load(Reg(S4), Reg(S2), 0, MemSize::B));
    let t = t.on(t.text.store(Reg(S4), Reg(ADDR), 0, MemSize::B));
    let t = t.on(t.text.add_imm_pos(Reg(S2), Reg(S2), 1));
    let t = t.on(t.text.add_imm_pos(Reg(ADDR), Reg(ADDR), 1));
    t.on(t.text.sub_imm(Reg(S3), Reg(S3), 1))
}

/// The test of what is left to copy.
pub open spec fn tested_length(t: A64Low) -> A64Low {
    t.on(t.text.cmp_imm(Reg(S3), 0))
}

proof fn plus_grows(s: A64State, rd: Reg, v: u32)
    requires
        v <= 0xFFF,
    ensures
        grows(s, s.add_imm_pos(rd, rd, v)),
        grows(s, s.sub_imm(rd, rd, v)),
{
    reveal(A64State::add_imm_pos);
    reveal(A64State::add_imm);
    reveal(A64State::sub_imm);
    word_grows(s, crate::aarch64::encode::imm(0x9100_0000, rd, rd, v));
    word_grows(s, crate::aarch64::encode::imm(0xD100_0000, rd, rd, v));
}

proof fn copy_byte_grows(t: A64Low)
    ensures
        grows(t.text, copy_byte(t).text),
{
    let t1 = t.text.load(Reg(S4), Reg(S2), 0, MemSize::B);
    load_grows(t.text, Reg(S4), Reg(S2), 0, MemSize::B);
    let t2 = t1.store(Reg(S4), Reg(ADDR), 0, MemSize::B);
    store_grows(t1, Reg(S4), Reg(ADDR), 0, MemSize::B);
    let t3 = t2.add_imm_pos(Reg(S2), Reg(S2), 1);
    plus_grows(t2, Reg(S2), 1);
    let t4 = t3.add_imm_pos(Reg(ADDR), Reg(ADDR), 1);
    plus_grows(t3, Reg(ADDR), 1);
    let t5 = t4.sub_imm(Reg(S3), Reg(S3), 1);
    plus_grows(t4, Reg(S3), 1);
    grows_trans(t.text, t1, t2);
    grows_trans(t.text, t2, t3);
    grows_trans(t.text, t3, t4);
    grows_trans(t.text, t4, t5);
}

proof fn plus_runs(s: A64Low, t: A64Low, rd: Reg, v: u32, c: Core, d: Core) -> (e: Core)
    requires
        takes(s, t, c, d),
        rd.0 < 31,
        v <= 0xFFF,
    ensures
        takes(s, t.on(t.text.add_imm_pos(rd, rd, v)), c, e),
        e == d.put(index(rd), d.reg(index(rd)) + v),
{
    reveal(A64State::add_imm_pos);
    reveal(act);
    add_imm_does(t.text, rd, rd, v);
    let a = Act::PlusImm { rd: index(rd), rn: index(rd), value: v as int };
    adds_takes(s, t, t.on(t.text.add_imm_pos(rd, rd, v)), a, c, d);
    act(a, d).unwrap()
}

/// Whether no register changed but those that printing uses.
pub open spec fn only_printing(c: Core, d: Core) -> bool {
    &&& d.wf()
    &&& d.sp == c.sp
    &&& forall|k: int| 0 <= k < 31 && !(8 <= k <= 17) ==> #[trigger] d.regs[k] == c.regs[k]
}

#[verifier::spinoff_prover]
#[verifier::rlimit(40)]
proof fn copy_byte_runs(t: A64Low, d: Core) -> (e: Core)
    requires
        d.wf(),
        d.regs[10] + 1 < SPAN,
        d.regs[16] + 1 < SPAN,
        d.regs[11] > 0,
    ensures
        takes(t, copy_byte(t), d, e),
        only_printing(d, e),
        e.regs[10] == d.regs[10] + 1,
        e.regs[16] == d.regs[16] + 1,
        e.regs[11] == d.regs[11] - 1,
        forall|x: int| #[trigger]
            (e.mem)(x) == if x == d.regs[16] {
                (d.mem)(d.regs[10] as int)
            } else {
                (d.mem)(x)
            },
{
    takes_nothing(t, d);
    byte_moves(d.mem, d.regs[10] as int);
    let t1 = t.on(t.text.load(Reg(S4), Reg(S2), 0, MemSize::B));
    reveal(A64State::load);
    let d1 = access_is_right(t, t, Access::Load, Reg(S4), Reg(S2), 0, MemSize::B, d, d);
    assert(d1.regs[12] == (d.mem)(d.regs[10] as int));
    let t2 = t1.on(t1.text.store(Reg(S4), Reg(ADDR), 0, MemSize::B));
    reveal(A64State::store);
    let d2 = access_is_right(t, t1, Access::Store, Reg(S4), Reg(ADDR), 0, MemSize::B, d, d1);
    let t3 = t2.on(t2.text.add_imm_pos(Reg(S2), Reg(S2), 1));
    let d3 = plus_runs(t, t2, Reg(S2), 1, d, d2);
    let t4 = t3.on(t3.text.add_imm_pos(Reg(ADDR), Reg(ADDR), 1));
    let d4 = plus_runs(t, t3, Reg(ADDR), 1, d, d3);
    less_runs(t, t4, Reg(S3), 1, d, d4)
}

/// A copy loop up to its jump back.
pub open spec fn copy_turned(s: A64Low, top: LabelId, end: LabelId) -> A64Low {
    let t = tested_length(s.on(s.text.bind(top)));
    let t = t.on(t.text.bcc(Cc::E, end));
    let t = copy_byte(t);
    t.on(t.text.b(top))
}

/// A copy loop.
pub open spec fn copy_done(s: A64Low, top: LabelId, end: LabelId) -> A64Low {
    let t = copy_turned(s, top, end);
    t.on(t.text.bind(end))
}

proof fn copy_lengths(s: A64Low, top: LabelId, end: LabelId)
    ensures
        ({
            let t2 = tested_length(s.on(s.text.bind(top)));
            let t4 = copy_byte(t2.on(t2.text.bcc(Cc::E, end)));
            let n = copy_done(s, top, end).text.code.len();
            t2.text.code.len() <= n && t4.text.code.len() <= n
        }),
{
    reveal(A64State::bcc);
    reveal(A64State::b);
    let t2 = tested_length(s.on(s.text.bind(top)));
    copy_byte_grows(t2.on(t2.text.bcc(Cc::E, end)));
}

#[verifier::spinoff_prover]
#[verifier::rlimit(40)]
proof fn copy_parts(w: A64State, s: A64Low, top: LabelId, end: LabelId)
    requires
        starts(w, copy_done(s, top, end).text),
        w.code.len() <= usize::MAX,
        branches_behind(s.text),
        label_open(s.text, top),
        label_open(s.text, end),
        top != end,
    ensures
        ({
            let t1 = s.on(s.text.bind(top));
            let t2 = tested_length(t1);
            let t3 = t2.on(t2.text.bcc(Cc::E, end));
            let t4 = copy_byte(t3);
            let t5 = copy_turned(s, top, end);
            &&& starts(w, s.text)
            &&& starts(w, t1.text) && branches_behind(t1.text)
            &&& starts(w, t2.text) && branches_behind(t2.text)
            &&& starts(w, t3.text) && branches_behind(t3.text)
            &&& starts(w, t4.text) && branches_behind(t4.text)
            &&& starts(w, t5.text) && branches_behind(t5.text)
            &&& end.0 < t5.text.labels.len()
        }),
{
    let t1 = s.on(s.text.bind(top));
    let t2 = tested_length(t1);
    let t3 = t2.on(t2.text.bcc(Cc::E, end));
    let t4 = copy_byte(t3);
    let t5 = copy_turned(s, top, end);
    let t6 = copy_done(s, top, end);
    bound_behind(s.text, top);
    copy_lengths(s, top, end);
    test_extends(t1, Reg(S3), 0);
    branch_extends(t2, Cc::E, end);
    copy_byte_grows(t3);
    grown_behind(t3.text, t4.text);
    jump_extends(t4, top);
    bound_behind(t5.text, end);
    starts_trans(w, t6.text, t5.text);
    starts_trans(w, t5.text, t4.text);
    starts_trans(w, t4.text, t3.text);
    starts_trans(w, t3.text, t2.text);
    starts_trans(w, t2.text, t1.text);
    starts_trans(w, t1.text, s.text);
}

proof fn length_tested(t: A64Low, d: Core) -> (e: Core)
    requires
        d.wf(),
    ensures
        takes(t, tested_length(t), d, e),
        e.regs == d.regs,
        e.sp == d.sp,
        e.mem == d.mem,
        condition(e, cond_number(Cc::E)) == (d.regs[11] == 0),
{
    takes_nothing(t, d);
    test_runs(t, t, Reg(S3), 0, d, d)
}

#[verifier::spinoff_prover]
#[verifier::rlimit(40)]
proof fn copy_loops(w: A64State, s: A64Low, top: LabelId, end: LabelId, c: Core) -> (d: Core)
    requires
        starts(w, copy_done(s, top, end).text),
        w.code.len() <= usize::MAX,
        branches_behind(s.text),
        label_open(s.text, top),
        label_open(s.text, end),
        top != end,
        c.wf(),
        copyable(c.regs[10] as int, c.regs[16] as int, c.regs[11] as int),
    ensures
        reaches(w, s, c, copy_done(s, top, end), d),
        only_printing(c, d),
        d.regs[16] == c.regs[16] + c.regs[11],
        copied(c.mem, d.mem, c.regs[16] as int, c.regs[10] as int, c.regs[11] as int),
    decreases c.regs[11],
{
    copy_parts(w, s, top, end);
    let n = c.regs[11];
    let t1 = s.on(s.text.bind(top));
    let t2 = tested_length(t1);
    let t3 = t2.on(t2.text.bcc(Cc::E, end));
    let t4 = copy_byte(t3);
    let t5 = copy_turned(s, top, end);
    let t6 = copy_done(s, top, end);
    let c2 = length_tested(t1, c);
    straight_on(w, t1, t2, c, c2);
    if n == 0 {
        branch_taken(w, t2, Cc::E, end, t5, c2);
        onwards(w, s, c, t2, c2, t6, c2);
        c2
    } else {
        branch_passed(w, t2, Cc::E, end, c2);
        onwards(w, s, c, t2, c2, t3, c2);
        let c4 = copy_byte_runs(t3, c2);
        straight_on(w, t3, t4, c2, c4);
        onwards(w, s, c, t3, c2, t4, c4);
        jump_comes(w, t4, top, s, c4);
        onwards(w, s, c, t4, c4, s, c4);
        let d = copy_loops(w, s, top, end, c4);
        onwards(w, s, c, s, c4, t6, d);
        assert forall|x: int| #[trigger]
            (d.mem)(x) == if c.regs[16] <= x < c.regs[16] + n {
                (c.mem)(c.regs[10] + (x - c.regs[16]))
            } else {
                (c.mem)(x)
            } by {
            let y = c4.regs[10] + (x - c4.regs[16]);
            assert(y == c.regs[10] + (x - c.regs[16]));
            assert((c4.mem)(y) == if y == c.regs[16] {
                (c.mem)(c.regs[10] as int)
            } else {
                (c.mem)(y)
            });
            assert((c4.mem)(x) == if x == c.regs[16] {
                (c.mem)(c.regs[10] as int)
            } else {
                (c.mem)(x)
            });
        }
        d
    }
}

// ---------------------------------------------------------------------------
//  Numbers of two words
// ---------------------------------------------------------------------------

/// The two words in `x10` and `x9`.
pub open spec fn wide_regs(c: Core) -> int {
    c.regs[10] * SPAN + c.regs[9]
}

/// The working words, and the end of the scratch room.
pub open spec fn wide_stored(env: A64Func, s: A64Low) -> A64Low {
    let t = s.on(s.text.store(Reg(RES), Reg(SP), 0, MemSize::X));
    let t = t.on(t.text.store(Reg(S2), Reg(SP), 8, MemSize::X));
    env.scratch_at(t, 128)
}

proof fn scratch_grows(env: A64Func, t: A64Low)
    ensures
        grows(t.text, env.scratch_at(t, 128).text),
{
    reveal(A64Func::scratch_at);
    reveal(A64State::add_imm_to);
    reveal(A64State::add_imm_pos);
    reveal(A64State::add_imm);
    reveal(A64State::mov_reg);
    let i = crate::aarch64::encode::imm(0x9100_0000, Reg(S2), Reg(SP), 128);
    let t1 = t.text.word(i);
    let j = rrr(0xAA00_0000, Reg(S3), Reg(XZR), Reg(S2));
    word_grows(t.text, i);
    word_grows(t1, j);
    grows_trans(t.text, t1, t1.word(j));
}

proof fn wide_stored_grows(env: A64Func, t: A64Low)
    ensures
        grows(t.text, wide_stored(env, t).text),
{
    let t1 = t.on(t.text.store(Reg(RES), Reg(SP), 0, MemSize::X));
    store_grows(t.text, Reg(RES), Reg(SP), 0, MemSize::X);
    let t2 = t1.on(t1.text.store(Reg(S2), Reg(SP), 8, MemSize::X));
    store_grows(t1.text, Reg(S2), Reg(SP), 8, MemSize::X);
    scratch_grows(env, t2);
    grows_trans(t.text, t1.text, t2.text);
    grows_trans(t.text, t2.text, wide_stored(env, t).text);
}

proof fn scratch_runs(env: A64Func, s: A64Low, t: A64Low, c: Core, d: Core) -> (e: Core)
    requires
        takes(s, t, c, d),
        d.wf(),
        d.sp + 128 < SPAN,
    ensures
        takes(s, env.scratch_at(t, 128), c, e),
        e == d.put(10, d.sp + 128).put(11, d.sp + 128),
{
    reveal(A64Func::scratch_at);
    reveal(A64State::add_imm_to);
    reveal(A64State::add_imm_pos);
    reveal(act);
    reveal(combined);
    let t1 = t.on(t.text.add_imm(Reg(S2), Reg(SP), 128));
    add_imm_does(t.text, Reg(S2), Reg(SP), 128);
    let a = Act::PlusImm { rd: 10, rn: 31, value: 128 };
    adds_takes(s, t, t1, a, c, d);
    let d1 = act(a, d).unwrap();
    let t2 = t1.on(t1.text.mov_reg(Reg(S3), Reg(S2)));
    mov_reg_does(t1.text, Reg(S3), Reg(S2));
    with_itself(d1.regs[10]);
    let b = Act::Binary { op: Alu::Or, rd: 11, rn: 31, rm: 10 };
    adds_takes(s, t1, t2, b, c, d1);
    act(b, d1).unwrap()
}

#[verifier::spinoff_prover]
#[verifier::rlimit(40)]
proof fn wide_store_runs(env: A64Func, t: A64Low, d: Core) -> (e: Core)
    requires
        d.wf(),
        d.sp + 128 < SPAN,
    ensures
        takes(t, wide_stored(env, t), d, e),
        only_printing(d, e),
        e.regs[10] == d.sp + 128,
        e.regs[11] == d.sp + 128,
        e.regs[16] == d.regs[16],
        wide_at(e.mem, d.sp as int) == wide_regs(d),
        forall|x: int| !(d.sp <= x < d.sp + 16) ==> #[trigger] (e.mem)(x) == (d.mem)(x),
{
    takes_nothing(t, d);
    let sp = d.sp as int;
    let t1 = t.on(t.text.store(Reg(RES), Reg(SP), 0, MemSize::X));
    let d1 = keep_runs(t, t, Reg(RES), 0, d, d);
    let t2 = t1.on(t1.text.store(Reg(S2), Reg(SP), 8, MemSize::X));
    let d2 = keep_runs(t, t1, Reg(S2), 8, d, d1);
    pow256_values();
    written_is_read(d.mem, sp, 8, d.regs[9] as int);
    elsewhere_stays(d1.mem, sp + 8, 8, d.regs[10] as int, sp, 8);
    written_is_read(d1.mem, sp + 8, 8, d.regs[10] as int);
    scratch_runs(env, t, t2, d, d2)
}

/// The length of the digits and where they start.
pub open spec fn digits_found(t: A64Low) -> A64Low {
    let t = t.on(t.text.sub(Reg(S3), Reg(S2), Reg(S3)));
    t.on(t.text.sub(Reg(S2), Reg(S2), Reg(S3)))
}

proof fn digits_found_grows(t: A64Low)
    ensures
        grows(t.text, digits_found(t).text),
{
    reveal(A64State::sub);
    let i = rrr(0xCB00_0000, Reg(S3), Reg(S2), Reg(S3));
    let j = rrr(0xCB00_0000, Reg(S2), Reg(S2), Reg(S3));
    word_grows(t.text, i);
    word_grows(t.text.word(i), j);
    grows_trans(t.text, t.text.word(i), t.text.word(i).word(j));
}

proof fn digits_find(t: A64Low, d: Core) -> (e: Core)
    requires
        d.wf(),
        d.regs[11] <= d.regs[10],
    ensures
        takes(t, digits_found(t), d, e),
        only_printing(d, e),
        e.mem == d.mem,
        e.regs[10] == d.regs[11],
        e.regs[11] == d.regs[10] - d.regs[11],
        e.regs[16] == d.regs[16],
{
    reveal(act);
    reveal(combined);
    takes_nothing(t, d);
    let t1 = t.on(t.text.sub(Reg(S3), Reg(S2), Reg(S3)));
    sub_does(t.text, Reg(S3), Reg(S2), Reg(S3));
    let a = Act::Binary { op: Alu::Minus, rd: 11, rn: 10, rm: 11 };
    adds_takes(t, t, t1, a, d, d);
    let d1 = act(a, d).unwrap();
    let t2 = t1.on(t1.text.sub(Reg(S2), Reg(S2), Reg(S3)));
    sub_does(t1.text, Reg(S2), Reg(S2), Reg(S3));
    let b = Act::Binary { op: Alu::Minus, rd: 10, rn: 10, rm: 11 };
    adds_takes(t, t1, t2, b, d, d1);
    act(b, d1).unwrap()
}

/// The digits of `x10` and `x9`: the working words, the loop and the copy.
pub open spec fn wide_rendered(env: A64Func, s: A64Low) -> A64Low {
    let t = wide_stored(env, s);
    let top = t.text.fresh();
    let t = t.on(t.text.new_label());
    let t = digits_found(digits_done(env, t, top));
    env.copy_runtime_to_cursor(t)
}

/// Whether `n` bytes at the cursor stand clear of the room at the top of the stack.
pub open spec fn cursor_clear(c: Core, n: int) -> bool {
    &&& c.sp + 128 < SPAN
    &&& c.regs[16] + n < SPAN
    &&& c.regs[16] + n <= c.sp || c.sp + 128 <= c.regs[16]
}

proof fn printing_both(c: Core, d: Core, e: Core)
    requires
        only_printing(c, d),
        only_printing(d, e),
    ensures
        only_printing(c, e),
{
    assert forall|k: int| 0 <= k < 31 && !(8 <= k <= 17) implies #[trigger] e.regs[k]
        == c.regs[k] by {
        assert(d.regs[k] == c.regs[k]);
    }
}

/// How the code of a number is put together.
spec fn wide_parts(env: A64Func, w: A64State, s: A64Low) -> bool {
    let t1 = wide_stored(env, s);
    let n = s.text.labels.len() as u32;
    let top = LabelId(n);
    let t2 = t1.on(t1.text.new_label());
    let t3 = digits_done(env, t2, top);
    let t4 = digits_found(t3);
    let t5 = t4.on(t4.text.new_label().new_label());
    let top2 = LabelId((n + 4) as u32);
    let end2 = LabelId((n + 5) as u32);
    &&& wide_rendered(env, s) == copy_done(t5, top2, end2)
    &&& starts(w, s.text)
    &&& starts(w, t1.text) && branches_behind(t1.text)
    &&& starts(w, t3.text) && branches_behind(t3.text)
    &&& starts(w, t4.text) && branches_behind(t4.text)
    &&& branches_behind(t2.text)
    &&& label_open(t2.text, top)
    &&& starts(w, t5.text) && branches_behind(t5.text)
    &&& label_open(t5.text, top2)
    &&& label_open(t5.text, end2)
}

#[verifier::spinoff_prover]
#[verifier::rlimit(60)]
proof fn wide_code(env: A64Func, w: A64State, s: A64Low)
    requires
        starts(w, wide_rendered(env, s).text),
        w.code.len() <= usize::MAX,
        branches_behind(s.text),
        s.text.labels.len() < 0xFFFF_FF00,
    ensures
        wide_parts(env, w, s),
{
    reveal(A64Func::copy_runtime_to_cursor);
    let t1 = wide_stored(env, s);
    wide_stored_grows(env, s);
    grown_behind(s.text, t1.text);
    let n = s.text.labels.len() as u32;
    let top = LabelId(n);
    assert(t1.text.fresh() == top);
    let t2 = t1.on(t1.text.new_label());
    opened_behind(t1.text);
    let t3 = digits_done(env, t2, top);
    let t4 = digits_found(t3);
    digits_found_grows(t3);
    let t4a = t4.on(t4.text.new_label());
    let t5 = t4.on(t4.text.new_label().new_label());
    let top2 = t4.text.fresh();
    let end2 = t4a.text.fresh();
    let u = copy_done(t5, top2, end2);
    assert(wide_rendered(env, s) == u);
    copy_longer(t5, top2, end2);
    itself(t3.text);
    digits_parts(env, t3.text, t2, top);
    grown_behind(t3.text, t4.text);
    opened_behind(t4.text);
    opened_behind(t4a.text);
    starts_trans(t5.text, t4a.text, t4.text);
    assert(t4.text.labels.len() == n + 4);
    assert(top2 == LabelId((n + 4) as u32) && end2 == LabelId((n + 5) as u32));
    copy_parts(w, t5, top2, end2);
    starts_trans(w, t5.text, t4.text);
    starts_trans(w, t4.text, t3.text);
    digits_parts(env, w, t2, top);
    starts_trans(w, t2.text, t1.text);
    starts_trans(w, t1.text, s.text);
}

proof fn copy_longer(s: A64Low, top: LabelId, end: LabelId)
    ensures
        s.text.code.len() <= copy_done(s, top, end).text.code.len(),
{
    reveal(A64State::bcc);
    reveal(A64State::b);
    let t1 = s.on(s.text.bind(top));
    let t2 = tested_length(t1);
    copy_byte_grows(t2.on(t2.text.bcc(Cc::E, end)));
    length_grows(t1);
}

proof fn length_grows(t: A64Low)
    ensures
        t.text.code.len() <= tested_length(t).text.code.len(),
{
    reveal(A64State::cmp_imm);
}

#[verifier::spinoff_prover]
#[verifier::rlimit(60)]
proof fn wide_is_rendered(env: A64Func, w: A64State, s: A64Low, c: Core) -> (d: Core)
    requires
        starts(w, wide_rendered(env, s).text),
        w.code.len() <= usize::MAX,
        branches_behind(s.text),
        s.text.labels.len() < 0xFFFF_FF00,
        c.wf(),
        cursor_clear(c, 39),
    ensures
        reaches(w, s, c, wide_rendered(env, s), d),
        only_printing(c, d),
        d.regs[16] == c.regs[16] + decimal(wide_regs(c) as nat).len(),
        written(
            c.mem,
            d.mem,
            decimal(wide_regs(c) as nat),
            d.regs[16] as int,
            c.sp as int,
            c.sp + 128,
        ),
{
    wide_code(env, w, s);
    let sp = c.sp as int;
    let v = wide_regs(c) as nat;
    assert(v < SPAN * SPAN);
    wide_digits(v);
    let text = decimal(v);
    let n = s.text.labels.len() as u32;
    let top = LabelId(n);
    let t1 = wide_stored(env, s);
    let t2 = t1.on(t1.text.new_label());
    let t3 = digits_done(env, t2, top);
    let t4 = digits_found(t3);
    let t5 = t4.on(t4.text.new_label().new_label());
    let u = wide_rendered(env, s);
    let c1 = wide_store_runs(env, s, c);
    straight_on(w, s, t1, c, c1);
    let c3 = digits_loop(env, w, t2, top, c1);
    onwards(w, s, c, t2, c1, t3, c3);
    let c4 = digits_find(t3, c3);
    straight_on(w, t3, t4, c3, c4);
    onwards(w, s, c, t3, c3, t5, c4);
    let d = copy_loops(w, t5, LabelId((n + 4) as u32), LabelId((n + 5) as u32), c4);
    onwards(w, s, c, t5, c4, u, d);
    assert(only_printing(c1, c3)) by {
        assert forall|k: int| 0 <= k < 31 && !(8 <= k <= 17) implies #[trigger] c3.regs[k]
            == c1.regs[k] by {}
    }
    printing_both(c, c1, c3);
    printing_both(c, c3, c4);
    printing_both(c, c4, d);
    let k = c3.mem;
    assert(written(c.mem, k, text, sp + 128, sp, sp + 128)) by {
        assert forall|x: int|
            !(sp + 128 - text.len() <= x < sp + 128) && !(sp <= x < sp + 128) implies #[trigger] k(
            x,
        ) == (c.mem)(x) by {
            assert(k(x) == (c1.mem)(x));
            assert((c1.mem)(x) == (c.mem)(x));
        }
    }
    text_is_copied(c.mem, k, d.mem, text, sp + 128, c.regs[16] as int, sp, sp + 128);
    d
}

/// Both words of a home in `x9` and `x10`.
pub open spec fn wide_loaded(env: A64Func, s: A64Low, off: i32) -> A64Low {
    let t = env.ld(s, Reg(RES), Reg(FP), off, MemSize::X);
    env.ld_hi(t, Reg(S2), Reg(FP), off)
}

/// The number at a home of two words.
pub open spec fn wide_home(c: Core, off: i32) -> int {
    let a = c.regs[29] + off;
    fetch(c.mem, a + 8, 8) * SPAN + fetch(c.mem, a, 8)
}

#[verifier::spinoff_prover]
#[verifier::rlimit(40)]
proof fn wide_load_runs(env: A64Func, t: A64Low, off: i32, d: Core) -> (e: Core)
    requires
        d.wf(),
        in_space(d.regs[29] + off, 16),
    ensures
        takes(t, wide_loaded(env, t, off), d, e),
        only_printing(d, e),
        e.mem == d.mem,
        e.regs[16] == d.regs[16],
        wide_regs(e) == wide_home(d, off),
        grows(t.text, wide_loaded(env, t, off).text),
{
    reveal(A64Func::ld);
    reveal(A64Func::ld_hi);
    takes_nothing(t, d);
    let a = d.regs[29] + off;
    fetched_is_word(d.mem, a, 8);
    fetched_is_word(d.mem, a + 8, 8);
    let t1 = t.on(t.text.load(Reg(RES), Reg(FP), off as i64, MemSize::X));
    load_grows(t.text, Reg(RES), Reg(FP), off as i64, MemSize::X);
    load_grows(t1.text, Reg(S2), Reg(FP), (off + 8) as i64, MemSize::X);
    grows_trans(t.text, t1.text, wide_loaded(env, t, off).text);
    reveal(A64State::load);
    let d1 = access_is_right(t, t, Access::Load, Reg(RES), Reg(FP), off as i64, MemSize::X, d, d);
    access_is_right(t, t1, Access::Load, Reg(S2), Reg(FP), (off + 8) as i64, MemSize::X, d, d1)
}

// ---------------------------------------------------------------------------
//  Signs
// ---------------------------------------------------------------------------

/// The minus sign, and the words without theirs.
pub open spec fn wide_negated(env: A64Func, t: A64Low) -> A64Low {
    let t = env.minus_sign(t);
    let t = t.on(t.text.mvn(Reg(RES), Reg(RES)));
    let t = t.on(t.text.mvn(Reg(S2), Reg(S2)));
    let t = t.on(t.text.adds_imm(Reg(RES), Reg(RES), 1));
    let t = t.on(t.text.cset(Reg(S5), Cc::C));
    t.on(t.text.add(Reg(S2), Reg(S2), Reg(S5)))
}

proof fn minus_sign_grows(env: A64Func, t: A64Low)
    ensures
        grows(t.text, env.minus_sign(t).text),
{
    reveal(A64Func::minus_sign);
    let t1 = t.text.mov_imm(Reg(S5), 45);
    number_grows(t.text, Reg(S5), 45);
    let t2 = t1.store(Reg(S5), Reg(ADDR), 0, MemSize::B);
    store_grows(t1, Reg(S5), Reg(ADDR), 0, MemSize::B);
    plus_grows(t2, Reg(ADDR), 1);
    grows_trans(t.text, t1, t2);
    grows_trans(t.text, t2, t2.add_imm_pos(Reg(ADDR), Reg(ADDR), 1));
}

proof fn wide_negated_grows(env: A64Func, t: A64Low)
    ensures
        grows(t.text, wide_negated(env, t).text),
{
    minus_sign_grows(env, t);
    let t1 = env.minus_sign(t).text;
    let t2 = t1.mvn(Reg(RES), Reg(RES));
    let t3 = t2.mvn(Reg(S2), Reg(S2));
    let t4 = t3.adds_imm(Reg(RES), Reg(RES), 1);
    let t5 = t4.cset(Reg(S5), Cc::C);
    let t6 = t5.add(Reg(S2), Reg(S2), Reg(S5));
    assert(grows(t1, t2) && grows(t2, t3)) by {
        reveal(A64State::mvn);
        word_grows(t1, rrr(0xAA20_0000, Reg(RES), Reg(XZR), Reg(RES)));
        word_grows(t2, rrr(0xAA20_0000, Reg(S2), Reg(XZR), Reg(S2)));
    }
    assert(grows(t3, t4)) by {
        reveal(A64State::adds_imm);
        word_grows(t3, crate::aarch64::encode::imm(0xB100_0000, Reg(RES), Reg(RES), 1));
    }
    assert(grows(t4, t5) && grows(t5, t6)) by {
        reveal(A64State::cset);
        reveal(A64State::add);
        word_grows(t4, crate::aarch64::encode::cset_word(Reg(S5), Cc::C));
        word_grows(t5, rrr(0x8B00_0000, Reg(S2), Reg(S2), Reg(S5)));
    }
    grows_trans(t.text, t1, t2);
    grows_trans(t.text, t2, t3);
    grows_trans(t.text, t3, t4);
    grows_trans(t.text, t4, t5);
    grows_trans(t.text, t5, t6);
}

#[verifier::spinoff_prover]
#[verifier::rlimit(40)]
proof fn minus_sign_runs(env: A64Func, t: A64Low, d: Core) -> (e: Core)
    requires
        d.wf(),
        d.regs[16] + 1 < SPAN,
    ensures
        takes(t, env.minus_sign(t), d, e),
        only_printing(d, e),
        e.regs[9] == d.regs[9],
        e.regs[10] == d.regs[10],
        e.regs[16] == d.regs[16] + 1,
        (e.mem)(d.regs[16] as int) == 45,
        forall|x: int| x != d.regs[16] ==> #[trigger] (e.mem)(x) == (d.mem)(x),
{
    reveal(A64Func::minus_sign);
    takes_nothing(t, d);
    let t1 = t.on(t.text.mov_imm(Reg(S5), 45));
    let d1 = number_is_loaded(t, t, Reg(S5), 45, d, d);
    let t2 = t1.on(t1.text.store(Reg(S5), Reg(ADDR), 0, MemSize::B));
    reveal(A64State::store);
    let d2 = access_is_right(t, t1, Access::Store, Reg(S5), Reg(ADDR), 0, MemSize::B, d, d1);
    assert(byte_at(45, 0) == 45) by {
        reveal_with_fuel(byte_at, 2);
    }
    plus_runs(t, t2, Reg(ADDR), 1, d, d2)
}

proof fn not_runs(s: A64Low, t: A64Low, rd: Reg, c: Core, d: Core) -> (e: Core)
    requires
        takes(s, t, c, d),
        rd.0 < 31,
    ensures
        takes(s, t.on(t.text.mvn(rd, rd)), c, e),
        e == d.put(index(rd), SPAN - 1 - d.reg(index(rd))),
{
    reveal(act);
    reveal(combined);
    mvn_does(t.text, rd, rd);
    complement_of(d.reg(index(rd)));
    let a = Act::Binary { op: Alu::OrNot, rd: index(rd), rn: 31, rm: index(rd) };
    adds_takes(s, t, t.on(t.text.mvn(rd, rd)), a, c, d);
    act(a, d).unwrap()
}

#[verifier::spinoff_prover]
#[verifier::rlimit(40)]
proof fn wide_negates(env: A64Func, t: A64Low, d: Core) -> (e: Core)
    requires
        d.wf(),
        d.regs[16] + 1 < SPAN,
        d.regs[10] >= 1,
    ensures
        takes(t, wide_negated(env, t), d, e),
        only_printing(d, e),
        e.regs[9] == wrap64(SPAN - d.regs[9]),
        e.regs[10] == SPAN - 1 - d.regs[10] + (if d.regs[9] == 0 {
            1int
        } else {
            0
        }),
        e.regs[16] == d.regs[16] + 1,
        (e.mem)(d.regs[16] as int) == 45,
        forall|x: int| x != d.regs[16] ==> #[trigger] (e.mem)(x) == (d.mem)(x),
{
    let t1 = env.minus_sign(t);
    let d1 = minus_sign_runs(env, t, d);
    let t2 = t1.on(t1.text.mvn(Reg(RES), Reg(RES)));
    let d2 = not_runs(t, t1, Reg(RES), d, d1);
    let t3 = t2.on(t2.text.mvn(Reg(S2), Reg(S2)));
    let d3 = not_runs(t, t2, Reg(S2), d, d2);
    let t4 = t3.on(t3.text.adds_imm(Reg(RES), Reg(RES), 1));
    let t5 = t4.on(t4.text.cset(Reg(S5), Cc::C));
    let t6 = t5.on(t5.text.add(Reg(S2), Reg(S2), Reg(S5)));
    reveal(act);
    reveal(combined);
    adds_imm_does(t3.text, Reg(RES), Reg(RES), 1);
    let a = Act::PlusFlags { rd: 9, rn: 9, value: 1 };
    adds_takes(t, t3, t4, a, d, d3);
    let d4 = act(a, d3).unwrap();
    assert(d4.carry == (d.regs[9] == 0));
    cset_does(t4.text, Reg(S5), Cc::C);
    other_way_is_opposite(d4, Cc::C);
    let b = Act::Condition { rd: 13, unless: other_way(Cc::C) };
    adds_takes(t, t4, t5, b, d, d4);
    let d5 = act(b, d4).unwrap();
    assert(d5.regs[13] == if d.regs[9] == 0 {
        1u64
    } else {
        0
    });
    add_does(t5.text, Reg(S2), Reg(S2), Reg(S5));
    let k = Act::Binary { op: Alu::Plus, rd: 10, rn: 10, rm: 13 };
    adds_takes(t, t5, t6, k, d, d5);
    act(k, d5).unwrap()
}

/// The test of the high word.
pub open spec fn tested_high(t: A64Low) -> A64Low {
    t.on(t.text.cmp_imm(Reg(S2), 0))
}

proof fn high_tested(t: A64Low, d: Core) -> (e: Core)
    requires
        d.wf(),
    ensures
        takes(t, tested_high(t), d, e),
        e.regs == d.regs,
        e.sp == d.sp,
        e.mem == d.mem,
        condition(e, cond_number(Cc::Ge)) == (d.regs[10] < 0x8000_0000_0000_0000),
{
    takes_nothing(t, d);
    test_runs(t, t, Reg(S2), 0, d, d)
}

/// Whether `d` is `c` with the sign of its two words at the cursor and the words without it.
pub open spec fn wide_sign_put(c: Core, d: Core) -> bool {
    let v = signed128(wide_regs(c));
    &&& only_printing(c, d)
    &&& v >= 0 ==> wide_regs(d) == v && d.regs[16] == c.regs[16] && d.mem == c.mem
    &&& v < 0 ==> {
        &&& wide_regs(d) == -v
        &&& d.regs[16] == c.regs[16] + 1
        &&& (d.mem)(c.regs[16] as int) == 45
        &&& forall|x: int| x != c.regs[16] ==> #[trigger] (d.mem)(x) == (c.mem)(x)
    }
}

/// How the code of a sign is put together.
spec fn sign_parts(env: A64Func, w: A64State, s: A64Low) -> bool {
    let nonneg = s.text.fresh();
    let s0 = s.on(s.text.new_label());
    let t1 = tested_high(s0);
    let t2 = t1.on(t1.text.bcc(Cc::Ge, nonneg));
    let t3 = wide_negated(env, t2);
    let t4 = env.wide_magnitude(s);
    &&& t4 == t3.on(t3.text.bind(nonneg))
    &&& starts(w, s.text)
    &&& branches_behind(s0.text)
    &&& starts(w, t1.text) && branches_behind(t1.text)
    &&& starts(w, t2.text) && branches_behind(t2.text)
    &&& starts(w, t3.text) && branches_behind(t3.text)
    &&& branches_behind(t4.text)
    &&& nonneg.0 < t3.text.labels.len()
    &&& t4.text.labels.len() == s.text.labels.len() + 1
}

proof fn sign_lengths(env: A64Func, s: A64Low, l: LabelId)
    ensures
        ({
            let t1 = tested_high(s);
            let t3 = wide_negated(env, t1.on(t1.text.bcc(Cc::Ge, l)));
            t1.text.code.len() <= t3.text.code.len()
        }),
{
    reveal(A64State::bcc);
    let t1 = tested_high(s);
    wide_negated_grows(env, t1.on(t1.text.bcc(Cc::Ge, l)));
}

#[verifier::spinoff_prover]
#[verifier::rlimit(40)]
proof fn sign_code(env: A64Func, w: A64State, s: A64Low)
    requires
        starts(w, env.wide_magnitude(s).text),
        w.code.len() <= usize::MAX,
        branches_behind(s.text),
        s.text.labels.len() < 0xFFFF_FF00,
    ensures
        sign_parts(env, w, s),
{
    reveal(A64Func::wide_magnitude);
    let nonneg = s.text.fresh();
    let s0 = s.on(s.text.new_label());
    let t1 = tested_high(s0);
    let t2 = t1.on(t1.text.bcc(Cc::Ge, nonneg));
    let t3 = wide_negated(env, t2);
    let t4 = t3.on(t3.text.bind(nonneg));
    assert(env.wide_magnitude(s) == t4);
    sign_lengths(env, s0, nonneg);
    opened_behind(s.text);
    test_extends(s0, Reg(S2), 0);
    branch_extends(t1, Cc::Ge, nonneg);
    wide_negated_grows(env, t2);
    grown_behind(t2.text, t3.text);
    bound_behind(t3.text, nonneg);
    starts_trans(w, t4.text, t3.text);
    starts_trans(w, t3.text, t2.text);
    starts_trans(w, t2.text, t1.text);
    starts_trans(w, t1.text, s0.text);
    starts_trans(w, s0.text, s.text);
}

#[verifier::spinoff_prover]
#[verifier::rlimit(40)]
proof fn wide_sign_is_put(env: A64Func, w: A64State, s: A64Low, c: Core) -> (d: Core)
    requires
        starts(w, env.wide_magnitude(s).text),
        w.code.len() <= usize::MAX,
        branches_behind(s.text),
        s.text.labels.len() < 0xFFFF_FF00,
        c.wf(),
        c.regs[16] + 1 < SPAN,
    ensures
        reaches(w, s, c, env.wide_magnitude(s), d),
        wide_sign_put(c, d),
{
    sign_code(env, w, s);
    let nonneg = s.text.fresh();
    let s0 = s.on(s.text.new_label());
    let t1 = tested_high(s0);
    let t2 = t1.on(t1.text.bcc(Cc::Ge, nonneg));
    let t3 = wide_negated(env, t2);
    let t4 = env.wide_magnitude(s);
    let c1 = high_tested(s0, c);
    straight_on(w, s0, t1, c, c1);
    let hi = c.regs[10];
    let lo = c.regs[9];
    if hi < 0x8000_0000_0000_0000 {
        branch_taken(w, t1, Cc::Ge, nonneg, t3, c1);
        onwards(w, s, c, t1, c1, t4, c1);
        assert(hi * SPAN + lo < 0x8000_0000_0000_0000 * SPAN);
        c1
    } else {
        branch_passed(w, t1, Cc::Ge, nonneg, c1);
        onwards(w, s, c, t1, c1, t2, c1);
        let c3 = wide_negates(env, t2, c1);
        straight_on(w, t2, t3, c1, c3);
        onwards(w, s, c, t2, c1, t4, c3);
        complement_is_negation(hi as int, lo as int);
        c3
    }
}

/// The number at a home of two words, signed or not.
pub open spec fn wide_value(c: Core, off: i32, signed: bool) -> int {
    if signed {
        signed128(wide_home(c, off))
    } else {
        wide_home(c, off)
    }
}

/// A number of two words, signed or not, goes from its home to the cursor in decimal, with a
/// minus sign where it is negative, and the cursor goes on behind it; beyond that only the
/// room at the top of the stack is written to.
#[verifier::spinoff_prover]
#[verifier::rlimit(40)]
pub proof fn decimal_pair_is_printed(
    env: A64Func,
    w: A64State,
    s: A64Low,
    off: i32,
    signed: bool,
    c: Core,
) -> (d: Core)
    requires
        starts(w, env.render_decimal_128(s, off, signed).text),
        w.code.len() <= usize::MAX,
        branches_behind(s.text),
        s.text.labels.len() < 0xFFFF_FE00,
        c.wf(),
        in_space(c.regs[29] + off, 16),
        cursor_clear(c, 40),
    ensures
        reaches(w, s, c, env.render_decimal_128(s, off, signed), d),
        only_printing(c, d),
        d.regs[16] == c.regs[16] + number_text(wide_value(c, off, signed)).len(),
        written(
            c.mem,
            d.mem,
            number_text(wide_value(c, off, signed)),
            d.regs[16] as int,
            c.sp as int,
            c.sp + 128,
        ),
{
    let sp = c.sp as int;
    let t1 = wide_loaded(env, s, off);
    let u = env.render_decimal_128(s, off, signed);
    pair_code(env, s, off, signed);
    let c1 = wide_load_runs(env, s, off, c);
    grown_behind(s.text, t1.text);
    if signed {
        let t2 = env.wide_magnitude(t1);
        sign_labels(env, t1);
        number_longer(env, t2);
        itself(t2.text);
        sign_code(env, t2.text, t1);
        wide_code(env, w, t2);
        sign_code(env, w, t1);
        straight_on(w, s, t1, c, c1);
        let c2 = wide_sign_is_put(env, w, t1, c1);
        onwards(w, s, c, t1, c1, t2, c2);
        let d = wide_is_rendered(env, w, t2, c2);
        onwards(w, s, c, t2, c2, u, d);
        printing_both(c, c1, c2);
        printing_both(c, c2, d);
        let v = wide_value(c, off, true);
        if v < 0 {
            sign_in_front(c1.mem, c2.mem, d.mem, v, c.regs[16] as int, sp, sp + 128);
        }
        d
    } else {
        wide_code(env, w, t1);
        straight_on(w, s, t1, c, c1);
        let d = wide_is_rendered(env, w, t1, c1);
        onwards(w, s, c, t1, c1, u, d);
        printing_both(c, c1, d);
        d
    }
}

proof fn sign_labels(env: A64Func, s: A64Low)
    requires
        s.text.labels.len() < 0xFFFF_FE00,
    ensures
        env.wide_magnitude(s).text.labels.len() == s.text.labels.len() + 1,
{
    reveal(A64Func::wide_magnitude);
    let nonneg = s.text.fresh();
    let s0 = s.on(s.text.new_label());
    let t1 = tested_high(s0);
    let t2 = t1.on(t1.text.bcc(Cc::Ge, nonneg));
    high_labels(s0);
    assert(t2.text.labels == t1.text.labels) by {
        reveal(A64State::bcc);
    }
    wide_negated_grows(env, t2);
    let t3 = wide_negated(env, t2);
    assert(env.wide_magnitude(s) == t3.on(t3.text.bind(nonneg)));
}

proof fn high_labels(t: A64Low)
    ensures
        tested_high(t).text.labels == t.text.labels,
{
    reveal(A64State::cmp_imm);
}

/// The code of a number stands behind what stands in front of it.
proof fn number_longer(env: A64Func, s: A64Low)
    requires
        s.text.labels.len() < 0xFFFF_FF00,
    ensures
        s.text.code.len() <= wide_rendered(env, s).text.code.len(),
{
    reveal(A64Func::copy_runtime_to_cursor);
    let t1 = wide_stored(env, s);
    wide_stored_grows(env, s);
    let top = t1.text.fresh();
    let t2 = t1.on(t1.text.new_label());
    let t3 = digits_done(env, t2, top);
    longer(env, t2, top);
    digit_longer(env, t2.on(t2.text.bind(top)));
    let t4 = digits_found(t3);
    digits_found_grows(t3);
    let t4a = t4.on(t4.text.new_label());
    let t5 = t4a.on(t4a.text.new_label());
    copy_longer(t5, t4.text.fresh(), t4a.text.fresh());
    assert(wide_rendered(env, s) == copy_done(t5, t4.text.fresh(), t4a.text.fresh()));
}

proof fn digit_longer(env: A64Func, s: A64Low)
    requires
        s.text.labels.len() < 0xFFFF_FFF0,
    ensures
        s.text.code.len() <= env.next_wide_digit(s).text.code.len(),
{
    reveal(A64Func::next_wide_digit);
    let t0 = high_divided(s);
    high_divided_grows(s);
    let t1 = bits_set_up(t0);
    bits_set_up_grows(t0);
    division_code(env, t0);
    let n = t0.text.labels.len() as u32;
    let top = LabelId(n);
    let done = LabelId((n + 1) as u32);
    let t2 = t1.on(t1.text.new_label().new_label());
    test_longer(t2, top);
    shorter(t2, top, done);
    let t3 = bits_done(t2, top, done);
    bits_put_grows(t3);
    digit_put_grows(env.divmod10_128_low(t0));
}

proof fn pair_code(env: A64Func, s: A64Low, off: i32, signed: bool)
    ensures
        env.render_decimal_128(s, off, signed) == wide_rendered(
            env,
            if signed {
                env.wide_magnitude(wide_loaded(env, s, off))
            } else {
                wide_loaded(env, s, off)
            },
        ),
{
    reveal(A64Func::render_decimal_128);
    reveal(A64Func::wide_value);
    reveal(A64Func::copy_digits_to_cursor_from_high_end);
}

} // verus!
