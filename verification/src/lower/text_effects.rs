//! What printing code does with words, strings and literals: their bytes go to the cursor.
use vstd::prelude::*;

use crate::behavior::labels_once;
use crate::encode::{AsmState, Cc};
use crate::lower::effects::{set_bool_runs, takes, takes_nothing, tells, with_itself};
use crate::lower::env::{Env, LowState};
use crate::lower::follow::{
    follow_add_ri, follow_mov_load, follow_mov_load_mem, follow_mov_ri, follow_mov_ri_data,
    follow_mov_rr, follow_mov_store8_mem, follow_mov_store_mem, follow_movzx8_mem, follow_test_rr,
};
use crate::lower::loops::{
    branch_passed, branch_taken, jump_comes, onwards, past_label, reaches, starts, starts_trans,
    straight_on, within,
};
use crate::lower::mem_effects::{apart, copied, fetched_is_word};
use crate::lower::print_effects::{
    copy_done, copy_loops, copy_parts, copyable, kept_both, only_printing, print_regs,
    printing_apart, written,
};
use crate::lower::scalar::sum32;
use crate::machine::{
    Bytes, Cpu, SPAN, byte_at, bytes_of_fetched, fetch, fetch_bounded, fetch_same, in_space, patch,
    pow256_values,
};
use crate::mir::LocalId;
use crate::peephole::Ins;
use crate::reg::Gpr;
use crate::steps::index;
use crate::types::TypeId;

verus! {

proof fn prefix(z: Seq<Ins>, s: Seq<Ins>)
    requires
        s.len() <= z.len(),
        forall|i: int| 0 <= i < s.len() ==> #[trigger] s[i] == z[i],
    ensures
        starts(z, s),
{
    assert(z.take(s.len() as int) =~= s);
}

// ---------------------------------------------------------------------------
//  Truth
// ---------------------------------------------------------------------------

#[verifier::spinoff_prover]
proof fn byte_is_put(env: Env, s: LowState, t: LowState, at: i32, b: u8, c: Cpu, d: Cpu) -> (e: Cpu)
    requires
        takes(s, t, c, d),
        d.wf(),
        0 <= at < 5,
        d.reg(11) + 5 < SPAN,
    ensures
        takes(s, env.put_byte(t, at, b as i64), c, e),
        only_printing(d, e),
        e.reg(11) == d.reg(11),
        forall|x: int| #[trigger]
            (e.mem)(x) == if x == d.reg(11) + at {
                b
            } else {
                (d.mem)(x)
            },
{
    reveal(Env::put_byte);
    assert(index(Gpr::Rax) == 0 && index(Gpr::R11) == 11);
    let t1 = t.on(t.text.mov_ri(Gpr::Rax, b as i64));
    let d1 = follow_mov_ri(s, t, Gpr::Rax, b as i64, c, d);
    let e = follow_mov_store8_mem(s, t1, Gpr::R11, at, Gpr::Rax, c, d1);
    assert(byte_at(b as int, 0) == b) by {
        reveal_with_fuel(byte_at, 2);
    }
    assert forall|r: Gpr| !print_regs().contains(r) implies #[trigger] e.reg(index(r)) == d.reg(
        index(r),
    ) by {
        printing_apart(r);
    }
    e
}

/// The code that writes `true`.
pub open spec fn yes_put(env: Env, s: LowState) -> LowState {
    let s = env.put_byte(s, 0, 0x74);
    let s = env.put_byte(s, 1, 0x72);
    let s = env.put_byte(s, 2, 0x75);
    let s = env.put_byte(s, 3, 0x65);
    s.on(s.text.add_ri(Gpr::R11, 4))
}

/// The code that writes `false`.
pub open spec fn no_put(env: Env, s: LowState) -> LowState {
    let s = env.put_byte(s, 0, 0x66);
    let s = env.put_byte(s, 1, 0x61);
    let s = env.put_byte(s, 2, 0x6C);
    let s = env.put_byte(s, 3, 0x73);
    let s = env.put_byte(s, 4, 0x65);
    s.on(s.text.add_ri(Gpr::R11, 5))
}

/// The word for a truth.
pub open spec fn truth_text(b: bool) -> Seq<char> {
    if b {
        seq!['t', 'r', 'u', 'e']
    } else {
        seq!['f', 'a', 'l', 's', 'e']
    }
}

proof fn moving_on(c: Cpu, d: Cpu)
    requires
        c.wf(),
        d.wf(),
        d.state == c.state,
        d.data == c.data,
        forall|r: int| 0 <= r < 16 && r != 11 ==> #[trigger] d.reg(r) == c.reg(r),
    ensures
        only_printing(c, d),
{
    assert forall|r: Gpr| !print_regs().contains(r) implies #[trigger] d.reg(index(r)) == c.reg(
        index(r),
    ) by {
        printing_apart(r);
    }
}

#[verifier::spinoff_prover]
#[verifier::rlimit(40)]
proof fn yes_is_put(env: Env, s: LowState, c: Cpu) -> (d: Cpu)
    requires
        c.wf(),
        c.reg(11) + 5 < SPAN,
    ensures
        takes(s, yes_put(env, s), c, d),
        only_printing(c, d),
        d.reg(11) == c.reg(11) + 4,
        written(c.mem, d.mem, truth_text(true), d.reg(11) as int, 0, 0),
{
    assert(index(Gpr::R11) == 11);
    takes_nothing(s, c);
    let t1 = env.put_byte(s, 0, 0x74);
    let c1 = byte_is_put(env, s, s, 0, 0x74, c, c);
    let t2 = env.put_byte(t1, 1, 0x72);
    let c2 = byte_is_put(env, s, t1, 1, 0x72, c, c1);
    let t3 = env.put_byte(t2, 2, 0x75);
    let c3 = byte_is_put(env, s, t2, 2, 0x75, c, c2);
    let t4 = env.put_byte(t3, 3, 0x65);
    let c4 = byte_is_put(env, s, t3, 3, 0x65, c, c3);
    let d = follow_add_ri(s, t4, Gpr::R11, 4, c, c4);
    kept_both(c, c1, c2);
    kept_both(c, c2, c3);
    kept_both(c, c3, c4);
    moving_on(c4, d);
    kept_both(c, c4, d);
    four_bytes(c.mem, c1.mem, c2.mem, c3.mem, c4.mem, c.reg(11) as int);
    d
}

proof fn four_bytes(m: Bytes, m1: Bytes, m2: Bytes, m3: Bytes, m4: Bytes, at: int)
    requires
        forall|x: int| #[trigger]
            m1(x) == if x == at + 0 {
                0x74
            } else {
                m(x)
            },
        forall|x: int| #[trigger]
            m2(x) == if x == at + 1 {
                0x72
            } else {
                m1(x)
            },
        forall|x: int| #[trigger]
            m3(x) == if x == at + 2 {
                0x75
            } else {
                m2(x)
            },
        forall|x: int| #[trigger]
            m4(x) == if x == at + 3 {
                0x65
            } else {
                m3(x)
            },
    ensures
        written(m, m4, truth_text(true), at + 4, 0, 0),
{
    let text = truth_text(true);
    assert forall|x: int| at <= x < at + 4 implies #[trigger] m4(x) == text[x - at] as u8 by {
        assert(m3(x) == m3(x) && m2(x) == m2(x) && m1(x) == m1(x));
    }
    assert forall|x: int| !(at <= x < at + 4) implies #[trigger] m4(x) == m(x) by {
        assert(m3(x) == m3(x) && m2(x) == m2(x) && m1(x) == m1(x));
    }
}

#[verifier::spinoff_prover]
#[verifier::rlimit(40)]
proof fn no_is_put(env: Env, s: LowState, c: Cpu) -> (d: Cpu)
    requires
        c.wf(),
        c.reg(11) + 5 < SPAN,
    ensures
        takes(s, no_put(env, s), c, d),
        only_printing(c, d),
        d.reg(11) == c.reg(11) + 5,
        written(c.mem, d.mem, truth_text(false), d.reg(11) as int, 0, 0),
{
    assert(index(Gpr::R11) == 11);
    takes_nothing(s, c);
    let t1 = env.put_byte(s, 0, 0x66);
    let c1 = byte_is_put(env, s, s, 0, 0x66, c, c);
    let t2 = env.put_byte(t1, 1, 0x61);
    let c2 = byte_is_put(env, s, t1, 1, 0x61, c, c1);
    let t3 = env.put_byte(t2, 2, 0x6C);
    let c3 = byte_is_put(env, s, t2, 2, 0x6C, c, c2);
    let t4 = env.put_byte(t3, 3, 0x73);
    let c4 = byte_is_put(env, s, t3, 3, 0x73, c, c3);
    let t5 = env.put_byte(t4, 4, 0x65);
    let c5 = byte_is_put(env, s, t4, 4, 0x65, c, c4);
    let d = follow_add_ri(s, t5, Gpr::R11, 5, c, c5);
    kept_both(c, c1, c2);
    kept_both(c, c2, c3);
    kept_both(c, c3, c4);
    kept_both(c, c4, c5);
    moving_on(c5, d);
    kept_both(c, c5, d);
    five_bytes(c.mem, c1.mem, c2.mem, c3.mem, c4.mem, c5.mem, c.reg(11) as int);
    d
}

proof fn five_bytes(m: Bytes, m1: Bytes, m2: Bytes, m3: Bytes, m4: Bytes, m5: Bytes, at: int)
    requires
        forall|x: int| #[trigger]
            m1(x) == if x == at + 0 {
                0x66
            } else {
                m(x)
            },
        forall|x: int| #[trigger]
            m2(x) == if x == at + 1 {
                0x61
            } else {
                m1(x)
            },
        forall|x: int| #[trigger]
            m3(x) == if x == at + 2 {
                0x6C
            } else {
                m2(x)
            },
        forall|x: int| #[trigger]
            m4(x) == if x == at + 3 {
                0x73
            } else {
                m3(x)
            },
        forall|x: int| #[trigger]
            m5(x) == if x == at + 4 {
                0x65
            } else {
                m4(x)
            },
    ensures
        written(m, m5, truth_text(false), at + 5, 0, 0),
{
    let text = truth_text(false);
    assert forall|x: int| at <= x < at + 5 implies #[trigger] m5(x) == text[x - at] as u8 by {
        assert(m4(x) == m4(x) && m3(x) == m3(x) && m2(x) == m2(x) && m1(x) == m1(x));
    }
    assert forall|x: int| !(at <= x < at + 5) implies #[trigger] m5(x) == m(x) by {
        assert(m4(x) == m4(x) && m3(x) == m3(x) && m2(x) == m2(x) && m1(x) == m1(x));
    }
}

proof fn truth_parts(env: Env, s: LowState)
    ensures
        ({
            let end = s.text.fresh();
            let s1 = s.on(s.text.new_label());
            let no = s1.text.fresh();
            let s2 = s1.on(s1.text.new_label());
            let t1 = s2.on(s2.text.test_rr(Gpr::Rax, Gpr::Rax));
            let t2 = t1.on(t1.text.jcc_local(Cc::E, no));
            let t3 = yes_put(env, t2);
            let t4 = t3.on(t3.text.jmp_local(end));
            let t5 = t4.on(t4.text.bind(no));
            let t6 = no_put(env, t5);
            let z = t6.on(t6.text.bind(end)).text.instrs;
            &&& starts(z, t1.text.instrs)
            &&& starts(z, t2.text.instrs)
            &&& starts(z, t3.text.instrs)
            &&& starts(z, t4.text.instrs)
            &&& starts(z, t5.text.instrs)
            &&& starts(z, t6.text.instrs)
        }),
{
    reveal(Env::put_byte);
    reveal(AsmState::test_rr);
    reveal(AsmState::jcc_local);
    reveal(AsmState::jmp_local);
    reveal(AsmState::mov_ri);
    reveal(AsmState::mov_store8_mem);
    reveal(AsmState::add_ri);
    let end = s.text.fresh();
    let s1 = s.on(s.text.new_label());
    let no = s1.text.fresh();
    let s2 = s1.on(s1.text.new_label());
    let t1 = s2.on(s2.text.test_rr(Gpr::Rax, Gpr::Rax));
    let t2 = t1.on(t1.text.jcc_local(Cc::E, no));
    let t3 = yes_put(env, t2);
    let t4 = t3.on(t3.text.jmp_local(end));
    let t5 = t4.on(t4.text.bind(no));
    let t6 = no_put(env, t5);
    let z = t6.on(t6.text.bind(end)).text.instrs;
    prefix(z, t6.text.instrs);
    prefix(t6.text.instrs, t5.text.instrs);
    starts_trans(z, t6.text.instrs, t5.text.instrs);
    prefix(t5.text.instrs, t4.text.instrs);
    starts_trans(z, t5.text.instrs, t4.text.instrs);
    prefix(t4.text.instrs, t3.text.instrs);
    starts_trans(z, t4.text.instrs, t3.text.instrs);
    prefix(t3.text.instrs, t2.text.instrs);
    starts_trans(z, t3.text.instrs, t2.text.instrs);
    prefix(t2.text.instrs, t1.text.instrs);
    starts_trans(z, t2.text.instrs, t1.text.instrs);
}

/// A truth in `rax` is written as `true` or `false` at the cursor, which goes on behind it; no
/// other byte changes.
#[verifier::spinoff_prover]
#[verifier::rlimit(40)]
pub proof fn truth_is_printed(env: Env, w: Seq<Ins>, s: LowState, c: Cpu) -> (d: Cpu)
    requires
        labels_once(w),
        within(w, env.emit_bool_word(s)),
        c.wf(),
        c.reg(11) + 5 < SPAN,
    ensures
        reaches(w, s, c, env.emit_bool_word(s), d),
        only_printing(c, d),
        d.reg(11) == c.reg(11) + truth_text(c.reg(0) != 0).len(),
        written(c.mem, d.mem, truth_text(c.reg(0) != 0), d.reg(11) as int, 0, 0),
{
    assert(index(Gpr::Rax) == 0);
    let end = s.text.fresh();
    let s1 = s.on(s.text.new_label());
    let no = s1.text.fresh();
    let s2 = s1.on(s1.text.new_label());
    let t1 = s2.on(s2.text.test_rr(Gpr::Rax, Gpr::Rax));
    let t2 = t1.on(t1.text.jcc_local(Cc::E, no));
    let t3 = yes_put(env, t2);
    let t4 = t3.on(t3.text.jmp_local(end));
    let t5 = t4.on(t4.text.bind(no));
    let t6 = no_put(env, t5);
    let t7 = t6.on(t6.text.bind(end));
    assert(env.emit_bool_word(s) == t7) by {
        reveal(Env::emit_bool_word);
    }
    truth_parts(env, s);
    starts_trans(w, t7.text.instrs, t1.text.instrs);
    starts_trans(w, t7.text.instrs, t2.text.instrs);
    starts_trans(w, t7.text.instrs, t3.text.instrs);
    starts_trans(w, t7.text.instrs, t4.text.instrs);
    starts_trans(w, t7.text.instrs, t5.text.instrs);
    starts_trans(w, t7.text.instrs, t6.text.instrs);
    takes_nothing(s2, c);
    with_itself(c.reg(0));
    let c1 = follow_test_rr(s2, s2, Gpr::Rax, Gpr::Rax, c, c);
    straight_on(w, s2, t1, c, c1);
    assert(reaches(w, s, c, t1, c1));
    assert(tells(c1, Cc::E) == Some(c.reg(0) == 0));
    assert(c1.regs == c.regs && c1.mem == c.mem);
    assert(only_printing(c, c1));
    if c.reg(0) == 0 {
        branch_taken(w, t1, Cc::E, no, t4, c1);
        onwards(w, s, c, t1, c1, t4, c1);
        past_label(w, t4, no, c1);
        onwards(w, s, c, t4, c1, t5, c1);
        let d = no_is_put(env, t5, c1);
        straight_on(w, t5, t6, c1, d);
        onwards(w, s, c, t5, c1, t6, d);
        past_label(w, t6, end, d);
        onwards(w, s, c, t6, d, t7, d);
        kept_both(c, c1, d);
        d
    } else {
        branch_passed(w, t1, Cc::E, no, c1);
        onwards(w, s, c, t1, c1, t2, c1);
        let d = yes_is_put(env, t2, c1);
        straight_on(w, t2, t3, c1, d);
        onwards(w, s, c, t2, c1, t3, d);
        jump_comes(w, t3, end, t6, d);
        onwards(w, s, c, t3, d, t6, d);
        past_label(w, t6, end, d);
        onwards(w, s, c, t6, d, t7, d);
        kept_both(c, c1, d);
        d
    }
}

/// A truth in `rax` is written as `1` or `0` at the cursor, which goes on behind it.
#[verifier::spinoff_prover]
pub proof fn truth_digit_is_printed(env: Env, s: LowState, c: Cpu) -> (d: Cpu)
    requires
        c.wf(),
        c.reg(11) + 1 < SPAN,
    ensures
        takes(s, env.emit_bool_digit(s), c, d),
        only_printing(c, d),
        d.reg(11) == c.reg(11) + 1,
        forall|x: int| #[trigger]
            (d.mem)(x) == if x == c.reg(11) {
                if c.reg(0) != 0 {
                    '1' as u8
                } else {
                    '0' as u8
                }
            } else {
                (c.mem)(x)
            },
{
    reveal(Env::emit_bool_digit);
    assert(index(Gpr::Rax) == 0 && index(Gpr::R11) == 11);
    takes_nothing(s, c);
    with_itself(c.reg(0));
    let t1 = s.on(s.text.test_rr(Gpr::Rax, Gpr::Rax));
    let c1 = follow_test_rr(s, s, Gpr::Rax, Gpr::Rax, c, c);
    assert(tells(c1, Cc::Ne) == Some(c.reg(0) != 0));
    let t2 = env.set_bool(t1, Cc::Ne);
    let c2 = set_bool_runs(env, s, t1, Cc::Ne, c, c1, c.reg(0) != 0);
    let t3 = t2.on(t2.text.add_ri(Gpr::Rax, 48));
    let c3 = follow_add_ri(s, t2, Gpr::Rax, 48, c, c2);
    let t4 = t3.on(t3.text.mov_store8_mem(Gpr::R11, 0, Gpr::Rax));
    let c4 = follow_mov_store8_mem(s, t3, Gpr::R11, 0, Gpr::Rax, c, c3);
    let d = follow_add_ri(s, t4, Gpr::R11, 1, c, c4);
    assert(byte_at(48, 0) == 48 && byte_at(49, 0) == 49) by {
        reveal_with_fuel(byte_at, 2);
    }
    assert forall|r: Gpr| !print_regs().contains(r) implies #[trigger] d.reg(index(r)) == c.reg(
        index(r),
    ) by {
        printing_apart(r);
    }
    d
}

// ---------------------------------------------------------------------------
//  Literals
// ---------------------------------------------------------------------------

proof fn next_piece(m: Bytes, m1: Bytes, to: int, from: int, off: int, n: nat, all: int)
    requires
        0 <= off,
        off + n <= all,
        copied(m, m1, to, from, off),
        apart(to, from, all),
    ensures
        fetch(m1, from + off, n) == fetch(m, from + off, n),
        copied(m, patch(m1, to + off, n, fetch(m, from + off, n)), to, from, off + n),
{
    assert forall|i: int| 0 <= i < n implies #[trigger] m1(
        from + off + i,
    ) == m(from + off + i) by {}
    fetch_same(m1, from + off, m, from + off, n);
    let v = fetch(m, from + off, n);
    let z = patch(m1, to + off, n, v);
    assert forall|x: int| #[trigger]
        z(x) == if to <= x < to + off + n {
            m(from + (x - to))
        } else {
            m(x)
        } by {
        if to + off <= x < to + off + n {
            bytes_of_fetched(m, from + off, n, x - (to + off));
        }
    }
}

#[verifier::spinoff_prover]
#[verifier::rlimit(40)]
proof fn cursor_copy_runs(
    env: Env,
    s: LowState,
    t: LowState,
    off: i32,
    rem: i32,
    m: Bytes,
    c: Cpu,
    d: Cpu,
) -> (e: Cpu)
    requires
        takes(s, t, c, d),
        d.wf(),
        0 <= off,
        0 <= rem,
        off + rem <= i32::MAX,
        in_space(d.reg(1) as int, (off + rem) as nat),
        in_space(d.reg(11) as int, (off + rem) as nat),
        apart(d.reg(11) as int, d.reg(1) as int, off + rem),
        copied(m, d.mem, d.reg(11) as int, d.reg(1) as int, off as int),
    ensures
        takes(s, env.cursor_copy_from(t, off, rem), c, e),
        only_printing(d, e),
        e.reg(11) == d.reg(11),
        copied(m, e.mem, d.reg(11) as int, d.reg(1) as int, off + rem),
    decreases rem,
{
    assert(index(Gpr::Rdx) == 2 && index(Gpr::Rcx) == 1 && index(Gpr::R11) == 11);
    if rem <= 0 {
        d
    } else {
        let n: nat = if rem >= 8 {
            8
        } else {
            1
        };
        let to = d.reg(11) as int;
        let from = d.reg(1) as int;
        next_piece(m, d.mem, to, from, off as int, n, off + rem);
        fetched_is_word(d.mem, from + off, n);
        let v = fetch(m, from + off, n);
        let (t2, d2): (LowState, Cpu) = if rem >= 8 {
            let t1 = t.on(t.text.mov_load_mem(Gpr::Rdx, Gpr::Rcx, off));
            let d1 = follow_mov_load_mem(s, t, Gpr::Rdx, Gpr::Rcx, off, c, d);
            (
                t1.on(t1.text.mov_store_mem(Gpr::R11, off, Gpr::Rdx)),
                follow_mov_store_mem(s, t1, Gpr::R11, off, Gpr::Rdx, c, d1),
            )
        } else {
            let t1 = t.on(t.text.movzx8_mem(Gpr::Rdx, Gpr::Rcx, off));
            let d1 = follow_movzx8_mem(s, t, Gpr::Rdx, Gpr::Rcx, off, c, d);
            (
                t1.on(t1.text.mov_store8_mem(Gpr::R11, off, Gpr::Rdx)),
                follow_mov_store8_mem(s, t1, Gpr::R11, off, Gpr::Rdx, c, d1),
            )
        };
        assert(d2.mem == patch(d.mem, to + off, n, v));
        assert(d2.reg(11) == d.reg(11) && d2.reg(1) == d.reg(1));
        assert(only_printing(d, d2)) by {
            assert forall|r: Gpr| !print_regs().contains(r) implies #[trigger] d2.reg(index(r))
                == d.reg(index(r)) by {
                printing_apart(r);
            }
        }
        let e = cursor_copy_runs(env, s, t2, (off + n) as i32, (rem - n) as i32, m, c, d2);
        kept_both(d, d2, e);
        e
    }
}

/// A literal goes to the cursor whole: its bytes, which stand in the data of the program, are
/// copied, and the cursor goes on behind them.
#[verifier::spinoff_prover]
#[verifier::rlimit(40)]
pub proof fn literal_is_printed(env: Env, s: LowState, bytes: Seq<u8>, c: Cpu) -> (d: Cpu)
    requires
        c.wf(),
        0 < bytes.len() <= i32::MAX,
        ({
            let from = c.data + s.ro.offset_of(bytes);
            &&& 0 <= from < SPAN
            &&& in_space(from, bytes.len())
            &&& in_space(c.reg(11) as int, bytes.len())
            &&& c.reg(11) + bytes.len() < SPAN
            &&& apart(c.reg(11) as int, from, bytes.len() as int)
            &&& forall|i: int| 0 <= i < bytes.len() ==> #[trigger] (c.mem)(from + i) == bytes[i]
        }),
    ensures
        takes(s, env.emit_literal(s, bytes), c, d),
        only_printing(c, d),
        d.reg(11) == c.reg(11) + bytes.len(),
        forall|i: int| 0 <= i < bytes.len() ==> #[trigger] (d.mem)(c.reg(11) + i) == bytes[i],
        forall|x: int|
            !(c.reg(11) <= x < c.reg(11) + bytes.len()) ==> #[trigger] (d.mem)(x) == (c.mem)(x),
{
    reveal(Env::emit_literal);
    reveal(Env::copy_to_cursor);
    assert(index(Gpr::Rax) == 0 && index(Gpr::Rcx) == 1 && index(Gpr::R11) == 11);
    let off = s.ro.offset_of(bytes);
    let from = c.data + off;
    let n = bytes.len() as u64;
    let s1 = s.with_data(bytes);
    assert(takes(s, s1, c, c)) by {
        takes_nothing(s, c);
        reveal(takes);
    }
    let t1 = s1.on(s1.text.mov_ri_data(Gpr::Rax, off));
    let c1 = follow_mov_ri_data(s, s1, Gpr::Rax, off, c, c);
    let t2 = t1.on(t1.text.mov_rr(Gpr::Rcx, Gpr::Rax));
    let c2 = follow_mov_rr(s, t1, Gpr::Rcx, Gpr::Rax, c, c1);
    assert(c2.reg(1) == from && c2.reg(11) == c.reg(11) && c2.mem == c.mem);
    let t3 = env.cursor_copy_from(t2, 0, n as i32);
    let c3 = cursor_copy_runs(env, s, t2, 0, n as i32, c.mem, c, c2);
    let d = follow_add_ri(s, t3, Gpr::R11, n as i32, c, c3);
    assert(only_printing(c, c2)) by {
        assert forall|r: Gpr| !print_regs().contains(r) implies #[trigger] c2.reg(index(r)) == c.reg(
            index(r),
        ) by {
            printing_apart(r);
        }
    }
    kept_both(c, c2, c3);
    moving_on(c3, d);
    kept_both(c, c3, d);
    let m = c.mem;
    let k = d.mem;
    assert forall|i: int| 0 <= i < bytes.len() implies #[trigger] k(c.reg(11) + i) == bytes[i] by {
        assert(m(from + i) == bytes[i]);
    }
    d
}

// ---------------------------------------------------------------------------
//  Strings
// ---------------------------------------------------------------------------

/// A string in a field goes to the cursor whole: as many bytes as its length says, from where
/// its pointer points.
#[verifier::spinoff_prover]
#[verifier::rlimit(40)]
pub proof fn string_is_printed(
    env: Env,
    w: Seq<Ins>,
    s: LowState,
    base: LocalId,
    home: i32,
    foff: u64,
    fty: TypeId,
    c: Cpu,
) -> (d: Cpu)
    requires
        labels_once(w),
        within(w, env.render_string_field(s, base, foff, fty)),
        c.wf(),
        env.is_slice(fty),
        env.home(base) == Some(home),
        foff <= i32::MAX,
        home + foff + 8 <= i32::MAX,
        in_space(c.reg(5) + home + foff, 16),
        copyable(
            fetch(c.mem, c.reg(5) + home + foff, 8),
            c.reg(11) as int,
            fetch(c.mem, c.reg(5) + home + foff + 8, 8),
        ),
    ensures
        reaches(w, s, c, env.render_string_field(s, base, foff, fty), d),
        only_printing(c, d),
        d.reg(11) == c.reg(11) + fetch(c.mem, c.reg(5) + home + foff + 8, 8),
        copied(
            c.mem,
            d.mem,
            c.reg(11) as int,
            fetch(c.mem, c.reg(5) + home + foff, 8),
            fetch(c.mem, c.reg(5) + home + foff + 8, 8),
        ),
{
    assert(index(Gpr::Rax) == 0 && index(Gpr::Rcx) == 1);
    let cell = sum32(home, foff as i32);
    let at = c.reg(5) + home + foff;
    takes_nothing(s, c);
    fetched_is_word(c.mem, at, 8);
    fetched_is_word(c.mem, at + 8, 8);
    fetch_bounded(c.mem, at, 8);
    fetch_bounded(c.mem, at + 8, 8);
    pow256_values();
    let t1 = s.on(s.text.mov_load(Gpr::Rax, cell));
    let c1 = follow_mov_load(s, s, Gpr::Rax, cell, c, c);
    let t2 = t1.on(t1.text.mov_load(Gpr::Rcx, sum32(cell, 8)));
    let c2 = follow_mov_load(s, t1, Gpr::Rcx, sum32(cell, 8), c, c1);
    assert(only_printing(c, c2)) by {
        assert forall|r: Gpr| !print_regs().contains(r) implies #[trigger] c2.reg(index(r)) == c.reg(
            index(r),
        ) by {
            printing_apart(r);
        }
    }
    let top = t2.text.fresh();
    let t3 = t2.on(t2.text.new_label());
    let end = t3.text.fresh();
    let t4 = t3.on(t3.text.new_label());
    let u = copy_done(t4, top, end);
    assert(env.render_string_field(s, base, foff, fty) == u) by {
        reveal(Env::render_string_field);
        reveal(Env::copy_runtime_len_to_cursor);
    }
    copy_parts(w, t4, top, end);
    straight_on(w, s, t2, c, c2);
    let d = copy_loops(w, t4, top, end, c2);
    assert(reaches(w, t2, c2, u, d));
    onwards(w, s, c, t2, c2, u, d);
    kept_both(c, c2, d);
    d
}

} // verus!
