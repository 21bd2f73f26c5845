//! What instruction lists do, and that optimizing does not change it.
//!
//! A machine has registers, flags and a world (memory and everything outside). The
//! moves, jumps and zeroings that the optimizer knows have a fixed meaning; every other
//! instruction means what a [`Meaning`] says, and what a list does is the sequence of
//! those that it runs, with what each of them sees.
use vstd::prelude::*;

use crate::bytes::wrap64;
use crate::encode::{AsmState, ITag, LabelId};
use crate::peephole::{
    Ins, Sweep, drops, flags_dead, follow, forward, last_label, last_label_in_range, moved_into,
    optimize, overwrites, past_labels, resolve, round, round_shrinks, same_labels, sweep,
    sweep_keeps, sweep_members, thread_jumps, threaded, zero_to_xor, zeroed,
};
use crate::peephole::{has_label, loose_jumps, zero_moves};
use crate::reg::Gpr;

verus! {

/// The value of each register.
pub type Regs = spec_fn(Gpr) -> int;

/// The state of a machine.
pub struct Machine {
    pub regs: Regs,
    pub flags: int,
    pub world: int,
}

/// What the instructions mean that the optimizer knows nothing of.
pub struct Meaning {
    /// Any other instruction: it may read and write everything.
    pub other: spec_fn(Ins, Machine) -> Machine,
    /// A call, return, frame teardown or system call: it reads no flags and leaves none
    /// that can be relied on; `None` where it leaves the function.
    pub control: spec_fn(Ins, Regs, int) -> Option<Machine>,
    /// Whether a condition holds of the flags.
    pub taken: spec_fn(int, int) -> bool,
    /// The flags behind `xor r, r`.
    pub zero_flags: int,
}

/// What can be seen of a machine at work.
pub enum Event {
    /// An instruction of any other kind runs.
    Other(Ins, Machine),
    /// A control instruction runs.
    Control(Ins, Regs, int),
    /// The end of the list is reached.
    End(Machine),
    /// A jump goes to a label that is not bound.
    Lost(LabelId, Machine),
}

/// What one step does.
pub enum Next {
    /// Go on at a position, with what was seen.
    Go { pc: int, m: Machine, seen: Option<Event> },
    /// No more steps.
    Stop(Event),
}

/// `regs` with `v` in `r`.
pub open spec fn put(regs: Regs, r: Gpr, v: int) -> Regs {
    |q: Gpr|
        if q == r {
            v
        } else {
            regs(q)
        }
}

/// `m` with `v` in `r`.
pub open spec fn write(m: Machine, r: Gpr, v: int) -> Machine {
    Machine { regs: put(m.regs, r, v), ..m }
}

/// A jump to `l`.
pub open spec fn jump(s: Seq<Ins>, l: LabelId, m: Machine) -> Next {
    match last_label(s, l) {
        Some(i) => Next::Go { pc: i, m, seen: None },
        None => Next::Stop(Event::Lost(l, m)),
    }
}

/// The step at position `pc`.
pub open spec fn step(s: Seq<Ins>, means: Meaning, pc: int, m: Machine) -> Next {
    if pc < 0 || pc >= s.len() {
        Next::Stop(Event::End(m))
    } else {
        match s[pc].tag {
            ITag::MovRr { dst, src } => Next::Go {
                pc: pc + 1,
                m: write(m, dst, (m.regs)(src)),
                seen: None,
            },
            ITag::MovRr32 { dst, src } => Next::Go {
                pc: pc + 1,
                m: write(m, dst, (m.regs)(src) % 0x1_0000_0000),
                seen: None,
            },
            ITag::MovRi { dst, imm } => Next::Go {
                pc: pc + 1,
                m: write(m, dst, wrap64(imm as int) as int),
                seen: None,
            },
            ITag::XorSelf { dst } => Next::Go {
                pc: pc + 1,
                m: Machine { flags: means.zero_flags, ..write(m, dst, 0) },
                seen: None,
            },
            ITag::Label { .. } => Next::Go { pc: pc + 1, m, seen: None },
            ITag::Jmp { label } => jump(s, label, m),
            ITag::Jcc { label } => if (means.taken)(s[pc].bytes[1] as int % 16, m.flags) {
                jump(s, label, m)
            } else {
                Next::Go { pc: pc + 1, m, seen: None }
            },
            ITag::CtrlNoFlags => match (means.control)(s[pc], m.regs, m.world) {
                Some(after) => Next::Go {
                    pc: pc + 1,
                    m: after,
                    seen: Some(Event::Control(s[pc], m.regs, m.world)),
                },
                None => Next::Stop(Event::Control(s[pc], m.regs, m.world)),
            },
            ITag::Other => Next::Go {
                pc: pc + 1,
                m: (means.other)(s[pc], m),
                seen: Some(Event::Other(s[pc], m)),
            },
        }
    }
}

/// What is seen in one step.
pub open spec fn seen_in(e: Option<Event>) -> Seq<Event> {
    match e {
        Some(e) => seq![e],
        None => Seq::empty(),
    }
}

/// What is seen in at most `n` steps from position `pc` on.
pub open spec fn trace(s: Seq<Ins>, means: Meaning, pc: int, m: Machine, n: nat) -> Seq<Event>
    decreases n,
{
    if n == 0 {
        Seq::empty()
    } else {
        match step(s, means, pc, m) {
            Next::Stop(e) => seq![e],
            Next::Go { pc: pc2, m: m2, seen } => seen_in(seen) + trace(
                s,
                means,
                pc2,
                m2,
                (n - 1) as nat,
            ),
        }
    }
}

/// Whether `t` shows `seen` in some number of steps from a state on.
pub open spec fn shown(t: Seq<Ins>, means: Meaning, m: Machine, seen: Seq<Event>) -> bool {
    exists|k: nat| seen == #[trigger] trace(t, means, 0, m, k)
}

/// Whether all that `s` shows from a state on is shown by `t` too.
pub open spec fn shows(s: Seq<Ins>, t: Seq<Ins>, means: Meaning, m: Machine) -> bool {
    forall|n: nat| shown(t, means, m, #[trigger] trace(s, means, 0, m, n))
}

/// Whether `s` and `t` do the same, whatever the other instructions mean and in
/// whatever state they start.
pub open spec fn behaves_like(s: Seq<Ins>, t: Seq<Ins>) -> bool {
    forall|means: Meaning, m: Machine|
        #![trigger shows(s, t, means, m)]
        #![trigger shows(t, s, means, m)]
        shows(s, t, means, m) && shows(t, s, means, m)
}

/// Whether no label is bound twice.
pub open spec fn labels_once(s: Seq<Ins>) -> bool {
    forall|i: int, j: int|
        0 <= i < j < s.len() && (#[trigger] s[i]).tag is Label ==> (#[trigger] s[j]).tag != s[i].tag
}

// ---------------------------------------------------------------------------
//  Lists side by side
// ---------------------------------------------------------------------------

/// The rewritings of which optimizing is made.
enum Rewrite {
    Delete(Sweep),
    Zero,
    Thread,
}

spec fn rewritten(rw: Rewrite, s: Seq<Ins>) -> Seq<Ins> {
    match rw {
        Rewrite::Delete(rule) => sweep(s, rule),
        Rewrite::Zero => zero_to_xor(s),
        Rewrite::Thread => thread_jumps(s),
    }
}

/// Whether the instruction at `i` is deleted.
spec fn dropped(s: Seq<Ins>, rule: Sweep, i: int) -> bool {
    drops(
        rule,
        s[i].tag,
        if i + 1 < s.len() {
            Some(s[i + 1].tag)
        } else {
            None
        },
    )
}

/// How many of the first `i` instructions stay.
spec fn kept(s: Seq<Ins>, rule: Sweep, i: int) -> int
    decreases i,
{
    if i <= 0 {
        0
    } else {
        kept(s, rule, i - 1) + if dropped(s, rule, i - 1) {
            0int
        } else {
            1
        }
    }
}

/// Where `n` silent steps over labels and jumps lead from `pc`.
spec fn path(s: Seq<Ins>, pc: int, n: nat) -> Option<int>
    decreases n,
{
    if n == 0 {
        Some(pc)
    } else if pc < 0 || pc >= s.len() {
        None
    } else {
        match s[pc].tag {
            ITag::Label { .. } => path(s, pc + 1, (n - 1) as nat),
            ITag::Jmp { label } => match last_label(s, label) {
                Some(i) => path(s, i, (n - 1) as nat),
                None => None,
            },
            _ => None,
        }
    }
}

/// Whether two machines differ at most in `r`.
spec fn but_for(a: Machine, b: Machine, r: Gpr) -> bool {
    a.flags == b.flags && a.world == b.world && forall|q: Gpr| q != r ==> #[trigger] (a.regs)(q) == (b.regs)(q)
}

/// Whether a list at `pc` and its rewriting at `pc2` do the same from here on; `lag` is
/// how many silent steps the list may take before its rewriting takes one.
spec fn related(
    rw: Rewrite,
    s: Seq<Ins>,
    pc: int,
    m: Machine,
    pc2: int,
    m2: Machine,
    lag: nat,
) -> bool {
    match rw {
        Rewrite::Delete(rule) => {
            &&& 0 <= pc <= s.len()
            &&& lag == s.len() - pc
            &&& pc2 == kept(s, rule, pc)
            &&& m == m2 || (rule is DeadStore && pc < s.len() && exists|r: Gpr| #[trigger]
                overwrites(s[pc].tag, r) && but_for(m, m2, r))
        },
        Rewrite::Zero => {
            &&& 0 <= pc <= s.len()
            &&& lag == 0
            &&& pc2 == pc
            &&& m.regs == m2.regs
            &&& m.world == m2.world
            &&& m.flags == m2.flags || flags_dead(s, pc)
        },
        Rewrite::Thread => {
            &&& 0 <= pc <= s.len()
            &&& m == m2
            &&& path(s, pc, lag) == Some(pc2)
        },
    }
}

/// Whether the list takes a silent step that its rewriting does not.
spec fn stays(rw: Rewrite, s: Seq<Ins>, pc: int, lag: nat) -> bool {
    match rw {
        Rewrite::Delete(rule) => pc < s.len() && dropped(s, rule, pc),
        Rewrite::Zero => false,
        Rewrite::Thread => lag > 0,
    }
}

/// Whether two steps show the same and lead to states that do.
spec fn steps_match(rw: Rewrite, s: Seq<Ins>, a: Next, b: Next, lag: nat) -> bool {
    match (a, b) {
        (Next::Stop(e), Next::Stop(f)) => e == f,
        (
            Next::Go { pc, m, seen },
            Next::Go { pc: pc2, m: m2, seen: seen2 },
        ) => seen == seen2 && related(rw, s, pc, m, pc2, m2, lag),
        _ => false,
    }
}

// ---------------------------------------------------------------------------
//  Deleting
// ---------------------------------------------------------------------------

proof fn kept_shift(s: Seq<Ins>, rule: Sweep, i: int)
    requires
        1 <= i <= s.len(),
    ensures
        kept(s, rule, i) == kept(s.skip(1), rule, i - 1) + if dropped(s, rule, 0) {
            0int
        } else {
            1
        },
    decreases i,
{
    if i > 1 {
        kept_shift(s, rule, i - 1);
        assert(s.skip(1)[i - 2] == s[i - 1]);
        if i < s.len() {
            assert(s.skip(1)[i - 1] == s[i]);
        }
    } else {
        assert(kept(s, rule, 0) == 0);
        assert(kept(s.skip(1), rule, 0) == 0);
    }
}

/// What stays stands where [`kept`] says.
proof fn kept_at(s: Seq<Ins>, rule: Sweep, i: int)
    requires
        0 <= i <= s.len(),
    ensures
        0 <= kept(s, rule, i) <= sweep(s, rule).len(),
        i < s.len() && !dropped(s, rule, i) ==> kept(s, rule, i) < sweep(s, rule).len() && sweep(
            s,
            rule,
        )[kept(s, rule, i)] == s[i],
        i == s.len() ==> kept(s, rule, i) == sweep(s, rule).len(),
    decreases s.len(),
{
    if s.len() > 0 {
        let rest = s.skip(1);
        if i > 0 {
            kept_shift(s, rule, i);
            kept_at(rest, rule, i - 1);
            if i < s.len() {
                assert(rest[i - 1] == s[i]);
                if i + 1 < s.len() {
                    assert(rest[i] == s[i + 1]);
                }
                assert(dropped(s, rule, i) == dropped(rest, rule, i - 1));
            }
        }
    }
}

proof fn swept_labels_once(s: Seq<Ins>, rule: Sweep)
    requires
        labels_once(s),
    ensures
        labels_once(sweep(s, rule)),
    decreases s.len(),
{
    if s.len() > 0 {
        let rest = s.skip(1);
        assert forall|i: int, j: int|
            0 <= i < j < rest.len() && (#[trigger] rest[i]).tag is Label implies (
        #[trigger] rest[j]).tag != rest[i].tag by {
            assert(s[i + 1] == rest[i] && s[j + 1] == rest[j]);
        }
        swept_labels_once(rest, rule);
        sweep_members(rest, rule);
        let r = sweep(rest, rule);
        let t = sweep(s, rule);
        assert forall|i: int, j: int| 0 <= i < j < t.len() && (#[trigger] t[i]).tag is Label implies (
        #[trigger] t[j]).tag != t[i].tag by {
            if drops(rule, s[0].tag, crate::peephole::next_tag(s)) {
                assert(t == r);
            } else if i == 0 {
                assert(t[j] == r[j - 1]);
                assert(rest.contains(r[j - 1]));
                let k = choose|k: int| 0 <= k < rest.len() && rest[k] == r[j - 1];
                assert(s[k + 1] == t[j]);
            } else {
                assert(t[i] == r[i - 1] && t[j] == r[j - 1]);
            }
        }
    }
}

/// A label that is bound once is bound where it stands.
proof fn bound_where(s: Seq<Ins>, l: LabelId, i: int)
    requires
        labels_once(s),
        0 <= i < s.len(),
        s[i].tag == (ITag::Label { label: l }),
    ensures
        last_label(s, l) == Some(i),
{
    last_label_in_range(s, l);
    match last_label(s, l) {
        Some(k) => {
            if k < i {
                assert(s[k].tag is Label && s[i].tag == s[k].tag);
            } else if i < k {
                assert(s[i].tag is Label && s[k].tag == s[i].tag);
            }
        },
        None => {},
    }
}

/// A label moves to where [`kept`] says.
proof fn swept_label(s: Seq<Ins>, rule: Sweep, l: LabelId)
    requires
        labels_once(s),
    ensures
        last_label(sweep(s, rule), l) == (match last_label(s, l) {
            Some(i) => Some(kept(s, rule, i)),
            None => None,
        }),
        last_label(s, l) matches Some(i) ==> 0 <= i < s.len(),
{
    let t = sweep(s, rule);
    last_label_in_range(s, l);
    last_label_in_range(t, l);
    sweep_keeps(s, rule);
    match last_label(s, l) {
        Some(i) => {
            kept_at(s, rule, i);
            swept_labels_once(s, rule);
            bound_where(t, l, kept(s, rule, i));
        },
        None => {
            assert(!has_label(s, l));
            assert(!has_label(t, l));
            if last_label(t, l) is Some {
                let k = last_label(t, l).unwrap();
                assert(t[k].tag == (ITag::Label { label: l }));
            }
        },
    }
}

proof fn self_write(m: Machine, r: Gpr)
    ensures
        write(m, r, (m.regs)(r)) == m,
{
    assert(put(m.regs, r, (m.regs)(r)) =~= m.regs);
}

proof fn same_write(a: Machine, b: Machine, r: Gpr, v: int)
    requires
        but_for(a, b, r),
    ensures
        write(a, r, v) == write(b, r, v),
{
    assert(put(a.regs, r, v) =~= put(b.regs, r, v));
}

proof fn deleted_step(rule: Sweep, s: Seq<Ins>, means: Meaning, pc: int, m: Machine, m2: Machine)
    requires
        labels_once(s),
        related(
            Rewrite::Delete(rule),
            s,
            pc,
            m,
            kept(s, rule, pc),
            m2,
            (s.len() - pc) as nat,
        ),
        stays(Rewrite::Delete(rule), s, pc, (s.len() - pc) as nat),
    ensures
        step(s, means, pc, m) matches Next::Go { pc: to, m: m1, seen } && to == pc + 1
            && seen is None && related(
            Rewrite::Delete(rule),
            s,
            to,
            m1,
            kept(s, rule, pc),
            m2,
            (s.len() - to) as nat,
        ),
{
    match rule {
        Sweep::SelfMove => {
            match s[pc].tag {
                ITag::MovRr { dst, src } => {
                    self_write(m, dst);
                },
                _ => {},
            }
        },
        Sweep::JumpToNext => {
            match s[pc].tag {
                ITag::Jmp { label } => {
                    bound_where(s, label, pc + 1);
                },
                _ => {},
            }
        },
        Sweep::DeadStore => {
            let r = moved_into(s[pc].tag).unwrap();
            assert(overwrites(s[pc + 1].tag, r));
            match step(s, means, pc, m) {
                Next::Go { pc: _, m: m1, seen: _ } => {
                    assert(but_for(m1, m2, r)) by {
                        if m != m2 {
                            let q = choose|q: Gpr| #[trigger]
                                overwrites(s[pc].tag, q) && but_for(m, m2, q);
                            assert(q == r);
                        }
                    }
                },
                _ => {},
            }
        },
    }
}

proof fn kept_step(
    rule: Sweep,
    s: Seq<Ins>,
    means: Meaning,
    pc: int,
    m: Machine,
    m2: Machine,
) -> (lag: nat)
    requires
        labels_once(s),
        related(
            Rewrite::Delete(rule),
            s,
            pc,
            m,
            kept(s, rule, pc),
            m2,
            (s.len() - pc) as nat,
        ),
        !stays(Rewrite::Delete(rule), s, pc, (s.len() - pc) as nat),
    ensures
        steps_match(
            Rewrite::Delete(rule),
            s,
            step(s, means, pc, m),
            step(sweep(s, rule), means, kept(s, rule, pc), m2),
            lag,
        ),
{
    let t = sweep(s, rule);
    kept_at(s, rule, pc);
    if pc < s.len() {
        assert(kept(s, rule, pc + 1) == kept(s, rule, pc) + 1);
        if m != m2 {
            let r = choose|r: Gpr| #[trigger] overwrites(s[pc].tag, r) && but_for(m, m2, r);
            match s[pc].tag {
                ITag::MovRi { dst, imm } => {
                    same_write(m, m2, r, wrap64(imm as int) as int);
                },
                ITag::MovRr { dst, src } => {
                    same_write(m, m2, r, (m.regs)(src));
                },
                ITag::XorSelf { dst } => {
                    same_write(m, m2, r, 0);
                },
                _ => {},
            }
            (s.len() - (pc + 1)) as nat
        } else {
            match s[pc].tag {
                ITag::Jmp { label } => {
                    swept_label(s, rule, label);
                    match last_label(s, label) {
                        Some(i) => (s.len() - i) as nat,
                        None => 0,
                    }
                },
                ITag::Jcc { label } => {
                    swept_label(s, rule, label);
                    if (means.taken)(s[pc].bytes[1] as int % 16, m.flags) {
                        match last_label(s, label) {
                            Some(i) => (s.len() - i) as nat,
                            None => 0,
                        }
                    } else {
                        (s.len() - (pc + 1)) as nat
                    }
                },
                _ => (s.len() - (pc + 1)) as nat,
            }
        }
    } else {
        0
    }
}

// ---------------------------------------------------------------------------
//  Zeroing
// ---------------------------------------------------------------------------

proof fn zeroed_labels(s: Seq<Ins>)
    ensures
        forall|l: LabelId| #[trigger] last_label(zero_to_xor(s), l) == last_label(s, l),
        labels_once(s) ==> labels_once(zero_to_xor(s)),
{
    let t = zero_to_xor(s);
    assert forall|i: int|
        0 <= i < s.len() && ((#[trigger] s[i]).tag is Label || t[i].tag is Label) implies s[i].tag
        == t[i].tag by {
        assert(t[i] == zeroed(s, i));
    }
    assert forall|l: LabelId| #[trigger] last_label(t, l) == last_label(s, l) by {
        same_labels(s, t, l);
    }
    if labels_once(s) {
        assert forall|i: int, j: int| 0 <= i < j < t.len() && (#[trigger] t[i]).tag is Label implies (
        #[trigger] t[j]).tag != t[i].tag by {
            assert(s[i].tag == t[i].tag);
            assert(s[j].tag is Label || t[j].tag is Label ==> s[j].tag == t[j].tag);
        }
    }
}

proof fn zero_step(s: Seq<Ins>, means: Meaning, pc: int, m: Machine, m2: Machine)
    requires
        related(Rewrite::Zero, s, pc, m, pc, m2, 0),
    ensures
        steps_match(
            Rewrite::Zero,
            s,
            step(s, means, pc, m),
            step(zero_to_xor(s), means, pc, m2),
            0,
        ),
{
    let t = zero_to_xor(s);
    zeroed_labels(s);
    if pc < s.len() {
        assert(t[pc] == zeroed(s, pc));
        match s[pc].tag {
            ITag::Jmp { label } => {
                last_label_in_range(s, label);
                assert(last_label(t, label) == last_label(s, label));
                assert(m == m2);
            },
            ITag::Jcc { label } => {
                last_label_in_range(s, label);
                assert(last_label(t, label) == last_label(s, label));
                assert(m == m2);
            },
            ITag::Other => {
                assert(m == m2);
            },
            _ => {},
        }
    } else {
        assert(m == m2);
    }
}

// ---------------------------------------------------------------------------
//  Threading
// ---------------------------------------------------------------------------

proof fn threaded_labels(s: Seq<Ins>)
    ensures
        forall|l: LabelId| #[trigger] last_label(thread_jumps(s), l) == last_label(s, l),
        labels_once(s) ==> labels_once(thread_jumps(s)),
{
    let t = thread_jumps(s);
    assert forall|i: int|
        0 <= i < s.len() && ((#[trigger] s[i]).tag is Label || t[i].tag is Label) implies s[i].tag
        == t[i].tag by {
        assert(t[i] == threaded(s, i));
    }
    assert forall|l: LabelId| #[trigger] last_label(t, l) == last_label(s, l) by {
        same_labels(s, t, l);
    }
    if labels_once(s) {
        assert forall|i: int, j: int| 0 <= i < j < t.len() && (#[trigger] t[i]).tag is Label implies (
        #[trigger] t[j]).tag != t[i].tag by {
            assert(s[i].tag == t[i].tag);
            assert(s[j].tag is Label || t[j].tag is Label ==> s[j].tag == t[j].tag);
        }
    }
}

proof fn path_adds(s: Seq<Ins>, pc: int, a: nat, b: nat)
    ensures
        path(s, pc, a) matches Some(q) ==> path(s, pc, (a + b) as nat) == path(s, q, b),
    decreases a,
{
    if a > 0 && 0 <= pc < s.len() {
        match s[pc].tag {
            ITag::Label { .. } => {
                path_adds(s, pc + 1, (a - 1) as nat, b);
            },
            ITag::Jmp { label } => {
                match last_label(s, label) {
                    Some(i) => {
                        path_adds(s, i, (a - 1) as nat, b);
                    },
                    None => {},
                }
            },
            _ => {},
        }
    }
}

proof fn past_labels_path(s: Seq<Ins>, j: int) -> (n: nat)
    requires
        0 <= j <= s.len(),
    ensures
        path(s, j, n) == Some(past_labels(s, j)),
    decreases s.len() - j,
{
    if j < s.len() && s[j].tag is Label {
        let n = past_labels_path(s, j + 1);
        n + 1
    } else {
        0
    }
}

/// The way from a label to the one at the end of the jumps from it.
proof fn follow_path(s: Seq<Ins>, start: LabelId, cur: LabelId, fuel: nat) -> (n: nat)
    requires
        follow(s, start, cur, fuel) is Some,
    ensures
        last_label(s, cur) is Some,
        last_label(s, follow(s, start, cur, fuel).unwrap()) is Some,
        path(s, last_label(s, cur).unwrap(), n) == last_label(
            s,
            follow(s, start, cur, fuel).unwrap(),
        ),
    decreases fuel,
{
    last_label_in_range(s, cur);
    let i = last_label(s, cur).unwrap();
    match forward(s, cur) {
        Some(next) => {
            let a = past_labels_path(s, i);
            let j = past_labels(s, i);
            let b = follow_path(s, start, next, (fuel - 1) as nat);
            let k = last_label(s, next).unwrap();
            assert(path(s, j, (b + 1) as nat) == path(s, k, b));
            path_adds(s, i, a, (b + 1) as nat);
            a + b + 1
        },
        None => 0,
    }
}

proof fn thread_step(
    s: Seq<Ins>,
    means: Meaning,
    pc: int,
    pc2: int,
    m: Machine,
    lag: nat,
) -> (after: nat)
    requires
        related(Rewrite::Thread, s, pc, m, pc2, m, lag),
    ensures
        lag > 0 ==> (step(s, means, pc, m) matches Next::Go { pc: to, m: m1, seen } && seen is None
            && m1 == m && related(Rewrite::Thread, s, to, m, pc2, m, (lag - 1) as nat)),
        lag == 0 ==> steps_match(
            Rewrite::Thread,
            s,
            step(s, means, pc, m),
            step(thread_jumps(s), means, pc2, m),
            after,
        ),
{
    let t = thread_jumps(s);
    threaded_labels(s);
    if lag > 0 {
        match s[pc].tag {
            ITag::Jmp { label } => {
                last_label_in_range(s, label);
            },
            _ => {},
        }
        0
    } else if pc < s.len() {
        assert(t[pc] == threaded(s, pc));
        match s[pc].tag {
            ITag::Jmp { label } => {
                last_label_in_range(s, label);
                assert(last_label(t, label) == last_label(s, label));
                match resolve(s, label) {
                    Some(end) => {
                        assert(last_label(t, end) == last_label(s, end));
                        follow_path(s, label, label, crate::peephole::MAX_HOPS as nat)
                    },
                    None => 0,
                }
            },
            ITag::Jcc { label } => {
                last_label_in_range(s, label);
                assert(last_label(t, label) == last_label(s, label));
                let c = (s[pc].bytes[1] % 16) as u8;
                match resolve(s, label) {
                    Some(end) => {
                        assert(last_label(t, end) == last_label(s, end));
                        assert(t[pc].bytes[1] as int % 16 == c);
                        let n = follow_path(s, label, label, crate::peephole::MAX_HOPS as nat);
                        if (means.taken)(s[pc].bytes[1] as int % 16, m.flags) {
                            n
                        } else {
                            0
                        }
                    },
                    None => 0,
                }
            },
            _ => 0,
        }
    } else {
        0
    }
}

// ---------------------------------------------------------------------------
//  Any rewriting
// ---------------------------------------------------------------------------

proof fn any_step(
    rw: Rewrite,
    s: Seq<Ins>,
    means: Meaning,
    pc: int,
    m: Machine,
    pc2: int,
    m2: Machine,
    lag: nat,
) -> (after: nat)
    requires
        labels_once(s),
        related(rw, s, pc, m, pc2, m2, lag),
    ensures
        stays(rw, s, pc, lag) ==> lag > 0 && (step(s, means, pc, m) matches Next::Go {
            pc: to,
            m: m1,
            seen,
        } && seen is None && related(rw, s, to, m1, pc2, m2, (lag - 1) as nat)),
        !stays(rw, s, pc, lag) ==> steps_match(
            rw,
            s,
            step(s, means, pc, m),
            step(rewritten(rw, s), means, pc2, m2),
            after,
        ),
{
    match rw {
        Rewrite::Delete(rule) => {
            if stays(rw, s, pc, lag) {
                deleted_step(rule, s, means, pc, m, m2);
                0
            } else {
                kept_step(rule, s, means, pc, m, m2)
            }
        },
        Rewrite::Zero => {
            zero_step(s, means, pc, m, m2);
            0
        },
        Rewrite::Thread => thread_step(s, means, pc, pc2, m, lag),
    }
}

/// What a list shows, its rewriting shows.
proof fn rewriting_shows(
    rw: Rewrite,
    s: Seq<Ins>,
    means: Meaning,
    pc: int,
    m: Machine,
    pc2: int,
    m2: Machine,
    lag: nat,
    n: nat,
) -> (k: nat)
    requires
        labels_once(s),
        related(rw, s, pc, m, pc2, m2, lag),
    ensures
        trace(s, means, pc, m, n) == trace(rewritten(rw, s), means, pc2, m2, k),
    decreases n,
{
    let t = rewritten(rw, s);
    if n == 0 {
        assert(trace(t, means, pc2, m2, 0) == trace(s, means, pc, m, 0));
        0
    } else {
        let after = any_step(rw, s, means, pc, m, pc2, m2, lag);
        match step(s, means, pc, m) {
            Next::Go { pc: to, m: m1, seen } => {
                if stays(rw, s, pc, lag) {
                    let k = rewriting_shows(
                        rw,
                        s,
                        means,
                        to,
                        m1,
                        pc2,
                        m2,
                        (lag - 1) as nat,
                        (n - 1) as nat,
                    );
                    assert(seen_in(seen) + trace(s, means, to, m1, (n - 1) as nat) =~= trace(
                        s,
                        means,
                        to,
                        m1,
                        (n - 1) as nat,
                    ));
                    k
                } else {
                    match step(t, means, pc2, m2) {
                        Next::Go { pc: to2, m: m3, seen: _ } => {
                            let k = rewriting_shows(
                                rw,
                                s,
                                means,
                                to,
                                m1,
                                to2,
                                m3,
                                after,
                                (n - 1) as nat,
                            );
                            k + 1
                        },
                        Next::Stop(_) => 0,
                    }
                }
            },
            Next::Stop(_) => {
                assert(!stays(rw, s, pc, lag));
                1
            },
        }
    }
}

/// What a rewriting shows, the list shows.
proof fn list_shows(
    rw: Rewrite,
    s: Seq<Ins>,
    means: Meaning,
    pc: int,
    m: Machine,
    pc2: int,
    m2: Machine,
    lag: nat,
    k: nat,
) -> (n: nat)
    requires
        labels_once(s),
        related(rw, s, pc, m, pc2, m2, lag),
    ensures
        trace(s, means, pc, m, n) == trace(rewritten(rw, s), means, pc2, m2, k),
    decreases k, lag,
{
    let t = rewritten(rw, s);
    if k == 0 {
        assert(trace(t, means, pc2, m2, 0) == trace(s, means, pc, m, 0));
        0
    } else {
        let after = any_step(rw, s, means, pc, m, pc2, m2, lag);
        match step(s, means, pc, m) {
            Next::Go { pc: to, m: m1, seen } => {
                if stays(rw, s, pc, lag) {
                    let n = list_shows(rw, s, means, to, m1, pc2, m2, (lag - 1) as nat, k);
                    assert(seen_in(seen) + trace(s, means, to, m1, n) =~= trace(
                        s,
                        means,
                        to,
                        m1,
                        n,
                    ));
                    n + 1
                } else {
                    match step(t, means, pc2, m2) {
                        Next::Go { pc: to2, m: m3, seen: _ } => {
                            let n = list_shows(
                                rw,
                                s,
                                means,
                                to,
                                m1,
                                to2,
                                m3,
                                after,
                                (k - 1) as nat,
                            );
                            n + 1
                        },
                        Next::Stop(_) => 0,
                    }
                }
            },
            Next::Stop(_) => {
                assert(!stays(rw, s, pc, lag));
                1
            },
        }
    }
}

proof fn rewriting_behaves(rw: Rewrite, s: Seq<Ins>)
    requires
        labels_once(s),
    ensures
        behaves_like(s, rewritten(rw, s)),
        labels_once(rewritten(rw, s)),
{
    let t = rewritten(rw, s);
    let lag: nat = match rw {
        Rewrite::Delete(_) => s.len(),
        _ => 0,
    };
    assert forall|means: Meaning, m: Machine| shows(s, t, means, m) && shows(t, s, means, m) by {
        assert(related(rw, s, 0, m, 0, m, lag)) by {
            match rw {
                Rewrite::Delete(rule) => {
                    assert(kept(s, rule, 0) == 0);
                },
                _ => {},
            }
        }
        assert forall|n: nat| shown(t, means, m, #[trigger] trace(s, means, 0, m, n)) by {
            let k = rewriting_shows(rw, s, means, 0, m, 0, m, lag, n);
            assert(trace(s, means, 0, m, n) == trace(t, means, 0, m, k));
        }
        assert forall|n: nat| shown(s, means, m, #[trigger] trace(t, means, 0, m, n)) by {
            let k = list_shows(rw, s, means, 0, m, 0, m, lag, n);
            assert(trace(t, means, 0, m, n) == trace(s, means, 0, m, k));
        }
    }
    match rw {
        Rewrite::Delete(rule) => {
            swept_labels_once(s, rule);
        },
        Rewrite::Zero => {
            zeroed_labels(s);
        },
        Rewrite::Thread => {
            threaded_labels(s);
        },
    }
}

proof fn shows_on(s: Seq<Ins>, t: Seq<Ins>, u: Seq<Ins>, means: Meaning, m: Machine)
    requires
        shows(s, t, means, m),
        shows(t, u, means, m),
    ensures
        shows(s, u, means, m),
{
    assert forall|n: nat| shown(u, means, m, #[trigger] trace(s, means, 0, m, n)) by {
        assert(shown(t, means, m, trace(s, means, 0, m, n)));
        let j = choose|j: nat| trace(s, means, 0, m, n) == #[trigger] trace(t, means, 0, m, j);
        assert(shown(u, means, m, trace(t, means, 0, m, j)));
        let k = choose|k: nat| trace(t, means, 0, m, j) == #[trigger] trace(u, means, 0, m, k);
        assert(trace(s, means, 0, m, n) == trace(u, means, 0, m, k));
    }
}

/// A list that behaves like one that behaves like a third behaves like the third.
pub proof fn behaves_like_on(s: Seq<Ins>, t: Seq<Ins>, u: Seq<Ins>)
    requires
        behaves_like(s, t),
        behaves_like(t, u),
    ensures
        behaves_like(s, u),
{
    assert forall|means: Meaning, m: Machine| shows(s, u, means, m) && shows(u, s, means, m) by {
        assert(shows(s, t, means, m) && shows(t, s, means, m));
        assert(shows(t, u, means, m) && shows(u, t, means, m));
        shows_on(s, t, u, means, m);
        shows_on(u, t, s, means, m);
    }
}

/// One round of the rules changes nothing of what a list does.
proof fn round_behaves(s: Seq<Ins>)
    requires
        labels_once(s),
    ensures
        behaves_like(s, round(s)),
        labels_once(round(s)),
{
    let a = sweep(s, Sweep::SelfMove);
    let b = zero_to_xor(a);
    let c = sweep(b, Sweep::DeadStore);
    let d = sweep(c, Sweep::JumpToNext);
    rewriting_behaves(Rewrite::Delete(Sweep::SelfMove), s);
    rewriting_behaves(Rewrite::Zero, a);
    rewriting_behaves(Rewrite::Delete(Sweep::DeadStore), b);
    rewriting_behaves(Rewrite::Delete(Sweep::JumpToNext), c);
    rewriting_behaves(Rewrite::Thread, d);
    behaves_like_on(s, a, b);
    behaves_like_on(s, b, c);
    behaves_like_on(s, c, d);
    behaves_like_on(s, d, round(s));
}

proof fn behaves_like_itself(s: Seq<Ins>)
    ensures
        behaves_like(s, s),
{
    assert forall|means: Meaning, m: Machine| shows(s, s, means, m) by {
        assert forall|n: nat| shown(s, means, m, #[trigger] trace(s, means, 0, m, n)) by {
            assert(trace(s, means, 0, m, n) == trace(s, means, 0, m, n));
        }
    }
}

/// Optimizing changes nothing of what a list does in which no label is bound twice:
/// whatever the other instructions mean and in whatever state the machine starts, both
/// lists run the same other instructions in the same order and in the same states, and
/// end alike or both not at all.
pub proof fn optimize_keeps_behavior(s: Seq<Ins>)
    requires
        labels_once(s),
    ensures
        behaves_like(s, optimize(s)),
        labels_once(optimize(s)),
    decreases s.len(), zero_moves(s), loose_jumps(s),
{
    round_shrinks(s);
    if round(s) != s {
        round_behaves(s);
        optimize_keeps_behavior(round(s));
        behaves_like_on(s, round(s), optimize(s));
    } else {
        behaves_like_itself(s);
    }
}

/// The optimized function does what the function does.
pub proof fn peephole_keeps_behavior(a: AsmState)
    requires
        labels_once(a.instrs),
    ensures
        behaves_like(a.instrs, a.peephole().instrs),
{
    optimize_keeps_behavior(a.instrs);
    behaves_like_itself(a.instrs);
}

} // verus!
