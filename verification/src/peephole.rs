//! The peephole optimizer over a function's instruction list.
//!
//! A function is a list of tagged instructions ([`Ins`]). Five rules rewrite it
//! until none applies: self-moves go, `mov r, 0` becomes `xor r, r` where the
//! flags are dead, a move that the next instruction overwrites goes, a jump to
//! the label right behind it goes, and a jump to a jump takes the final target.
use std::collections::HashMap;

use vstd::prelude::*;

use crate::encode::{FixupKind, ITag, LabelId};
use crate::encode::{jcc_bytes, jmp_bytes, wrr, wrr_vec};
use crate::encode::ins_ok;
use crate::reg::Gpr;

verus! {

broadcast use vstd::std_specs::hash::group_hash_axioms;

/// One instruction: what the optimizer knows of it, its bytes, and its fixups
/// as (offset in the bytes, kind).
pub struct Ins {
    pub tag: ITag,
    pub bytes: Seq<u8>,
    pub fixups: Seq<(usize, FixupKind)>,
}

/// One instruction, in executable form.
pub struct Instr {
    pub tag: ITag,
    pub bytes: Vec<u8>,
    pub fixups: Vec<(usize, FixupKind)>,
}

impl View for Instr {
    type V = Ins;

    open spec fn view(&self) -> Ins {
        Ins { tag: self.tag, bytes: self.bytes@, fixups: self.fixups@ }
    }
}

/// The instruction list that a vector of instructions stands for.
pub open spec fn views(v: Seq<Instr>) -> Seq<Ins> {
    Seq::new(v.len(), |i: int| v[i]@)
}

/// The code bytes of an instruction list.
pub open spec fn flat(s: Seq<Ins>) -> Seq<u8>
    decreases s.len(),
{
    if s.len() == 0 {
        Seq::empty()
    } else {
        flat(s.drop_last()) + s.last().bytes
    }
}

// ---------------------------------------------------------------------------
//  The rules that delete instructions
// ---------------------------------------------------------------------------

/// The deleting rules.
#[derive(Clone, Copy)]
pub enum Sweep {
    /// `mov r, r` does nothing.
    SelfMove,
    /// A move whose destination the next instruction overwrites unread.
    DeadStore,
    /// A jump to the label right behind it.
    JumpToNext,
}

/// The register that a removable move writes.
pub open spec fn moved_into(t: ITag) -> Option<Gpr> {
    match t {
        ITag::MovRi { dst, .. } => Some(dst),
        ITag::MovRr { dst, src } => if dst != src {
            Some(dst)
        } else {
            None
        },
        _ => None,
    }
}

/// Whether `t` overwrites `r` without reading it.
pub open spec fn overwrites(t: ITag, r: Gpr) -> bool {
    match t {
        ITag::MovRi { dst, .. } => dst == r,
        ITag::MovRr { dst, src } => dst == r && src != r,
        ITag::XorSelf { dst } => dst == r,
        _ => false,
    }
}

/// Whether `rule` deletes an instruction tagged `a` whose successor is tagged `b`.
pub open spec fn drops(rule: Sweep, a: ITag, b: Option<ITag>) -> bool {
    match rule {
        Sweep::SelfMove => a matches ITag::MovRr { dst, src } && dst == src,
        Sweep::DeadStore => match (moved_into(a), b) {
            (Some(r), Some(t)) => overwrites(t, r),
            _ => false,
        },
        Sweep::JumpToNext => match (a, b) {
            (ITag::Jmp { label }, Some(ITag::Label { label: here })) => label == here,
            _ => false,
        },
    }
}

/// The tag of the second instruction, where there is one.
pub open spec fn next_tag(s: Seq<Ins>) -> Option<ITag> {
    if s.len() >= 2 {
        Some(s[1].tag)
    } else {
        None
    }
}

/// `s` without the instructions that `rule` deletes; each is judged against its
/// successor in `s`.
pub open spec fn sweep(s: Seq<Ins>, rule: Sweep) -> Seq<Ins>
    decreases s.len(),
{
    if s.len() == 0 {
        s
    } else {
        let rest = sweep(s.skip(1), rule);
        if drops(rule, s[0].tag, next_tag(s)) {
            rest
        } else {
            seq![s[0]] + rest
        }
    }
}

// ---------------------------------------------------------------------------
//  mov r, 0  ->  xor r, r
// ---------------------------------------------------------------------------

/// Whether the flags are overwritten or abandoned before any read, from
/// position `j` on and within the block.
pub open spec fn flags_dead(s: Seq<Ins>, j: int) -> bool
    decreases s.len() - j,
{
    if j < 0 || j >= s.len() {
        false
    } else {
        match s[j].tag {
            ITag::MovRr { .. } | ITag::MovRr32 { .. } | ITag::MovRi { .. } => flags_dead(s, j + 1),
            ITag::XorSelf { .. } | ITag::CtrlNoFlags => true,
            _ => false,
        }
    }
}

/// Whether `t` is `mov r, 0`.
pub open spec fn is_zero_move(t: ITag) -> bool {
    t matches ITag::MovRi { imm, .. } && imm == 0
}

/// The instruction `xor dst, dst`.
pub open spec fn xor_ins(dst: Gpr) -> Ins {
    Ins {
        tag: ITag::XorSelf { dst },
        bytes: wrr(0x31, dst.code(), dst.code()),
        fixups: Seq::empty(),
    }
}

/// The instruction at `i`, as an `xor` where it is `mov r, 0` and the flags are
/// dead behind it.
pub open spec fn zeroed(s: Seq<Ins>, i: int) -> Ins {
    match s[i].tag {
        ITag::MovRi { dst, imm } => if imm == 0 && flags_dead(s, i + 1) {
            xor_ins(dst)
        } else {
            s[i]
        },
        _ => s[i],
    }
}

/// `s` with every `mov r, 0` before dead flags as `xor r, r`.
pub open spec fn zero_to_xor(s: Seq<Ins>) -> Seq<Ins> {
    Seq::new(s.len(), |i: int| zeroed(s, i))
}

// ---------------------------------------------------------------------------
//  Jump threading
// ---------------------------------------------------------------------------

/// The position of the last binding of `l`.
pub open spec fn last_label(s: Seq<Ins>, l: LabelId) -> Option<int>
    decreases s.len(),
{
    if s.len() == 0 {
        None
    } else if s.last().tag == (ITag::Label { label: l }) {
        Some(s.len() - 1)
    } else {
        last_label(s.drop_last(), l)
    }
}

/// The first position from `j` on that is no label.
pub open spec fn past_labels(s: Seq<Ins>, j: int) -> int
    decreases s.len() - j,
{
    if 0 <= j < s.len() && s[j].tag is Label {
        past_labels(s, j + 1)
    } else {
        j
    }
}

/// Where control goes at once from label `l`: the target of the jump that
/// stands there, where one does.
pub open spec fn forward(s: Seq<Ins>, l: LabelId) -> Option<LabelId> {
    match last_label(s, l) {
        None => None,
        Some(i) => {
            let j = past_labels(s, i);
            if 0 <= j < s.len() {
                match s[j].tag {
                    ITag::Jmp { label } => if label != l {
                        Some(label)
                    } else {
                        None
                    },
                    _ => None,
                }
            } else {
                None
            }
        },
    }
}

/// Follows jumps from `cur` for at most `fuel` steps to the label where they
/// end; `None` where that is `start` itself, is unbound, or is further off.
pub open spec fn follow(s: Seq<Ins>, start: LabelId, cur: LabelId, fuel: nat) -> Option<LabelId>
    decreases fuel,
{
    if fuel == 0 || last_label(s, cur) is None {
        None
    } else {
        match forward(s, cur) {
            Some(next) => follow(s, start, next, (fuel - 1) as nat),
            None => if cur == start {
                None
            } else {
                Some(cur)
            },
        }
    }
}

/// The longest chain of jumps that is followed.
pub const MAX_HOPS: u32 = 16;

/// The label where a jump to `l` ends up, where it is another one.
pub open spec fn resolve(s: Seq<Ins>, l: LabelId) -> Option<LabelId> {
    follow(s, l, l, MAX_HOPS as nat)
}

/// The instruction `jmp l`.
pub open spec fn jmp_ins(l: LabelId) -> Ins {
    Ins {
        tag: ITag::Jmp { label: l },
        bytes: jmp_bytes(),
        fixups: seq![(1usize, FixupKind::Local(l))],
    }
}

/// The conditional jump to `l` with condition bits `tttn`.
pub open spec fn jcc_ins(tttn: u8, l: LabelId) -> Ins {
    Ins {
        tag: ITag::Jcc { label: l },
        bytes: jcc_bytes(tttn),
        fixups: seq![(2usize, FixupKind::Local(l))],
    }
}

/// The instruction at `i`, with a jump to a jump sent to the final target.
pub open spec fn threaded(s: Seq<Ins>, i: int) -> Ins {
    match s[i].tag {
        ITag::Jmp { label } => match resolve(s, label) {
            Some(t) => jmp_ins(t),
            None => s[i],
        },
        ITag::Jcc { label } => match resolve(s, label) {
            Some(t) => jcc_ins((s[i].bytes[1] % 16) as u8, t),
            None => s[i],
        },
        _ => s[i],
    }
}

/// `s` with every jump to a jump sent to the final target.
pub open spec fn thread_jumps(s: Seq<Ins>) -> Seq<Ins> {
    Seq::new(s.len(), |i: int| threaded(s, i))
}

// ---------------------------------------------------------------------------
//  The fixed point
// ---------------------------------------------------------------------------

/// All five rules, once, in order.
pub open spec fn round(s: Seq<Ins>) -> Seq<Ins> {
    thread_jumps(
        sweep(
            sweep(zero_to_xor(sweep(s, Sweep::SelfMove)), Sweep::DeadStore),
            Sweep::JumpToNext,
        ),
    )
}

/// How many entries are `true`.
pub open spec fn count(b: Seq<bool>) -> nat
    decreases b.len(),
{
    if b.len() == 0 {
        0
    } else {
        count(b.drop_last()) + if b.last() {
            1nat
        } else {
            0nat
        }
    }
}

/// How many instructions are `mov r, 0`.
pub open spec fn zero_moves(s: Seq<Ins>) -> nat {
    count(Seq::new(s.len(), |i: int| is_zero_move(s[i].tag)))
}

/// Whether `l` is bound at a place that does not jump on elsewhere.
pub open spec fn settled(s: Seq<Ins>, l: LabelId) -> bool {
    last_label(s, l) is Some && forward(s, l) is None
}

/// Whether the instruction at `i` is a jump to a label that is not settled.
pub open spec fn is_loose(s: Seq<Ins>, i: int) -> bool {
    match s[i].tag {
        ITag::Jmp { label } => !settled(s, label),
        ITag::Jcc { label } => !settled(s, label),
        _ => false,
    }
}

/// How many jumps go to a label that is not settled.
pub open spec fn loose_jumps(s: Seq<Ins>) -> nat {
    count(Seq::new(s.len(), |i: int| is_loose(s, i)))
}

/// The order in which every rewrite goes down: length, then `mov r, 0` count,
/// then loose jumps.
pub open spec fn smaller(t: Seq<Ins>, s: Seq<Ins>) -> bool {
    ||| t.len() < s.len()
    ||| t.len() == s.len() && zero_moves(t) < zero_moves(s)
    ||| t.len() == s.len() && zero_moves(t) == zero_moves(s) && loose_jumps(t) < loose_jumps(s)
}

/// The result of rewriting `s` until no rule applies.
pub open spec fn optimize(s: Seq<Ins>) -> Seq<Ins>
    decreases s.len(), zero_moves(s), loose_jumps(s),
    via optimize_decreases
{
    if round(s) == s {
        s
    } else {
        optimize(round(s))
    }
}

#[via_fn]
proof fn optimize_decreases(s: Seq<Ins>) {
    round_shrinks(s);
}

// ---------------------------------------------------------------------------
//  Where the instructions that are left come from
// ---------------------------------------------------------------------------

/// The numbers below `n`.
pub open spec fn identity(n: nat) -> Seq<usize> {
    Seq::new(n, |i: int| i as usize)
}

/// `o` without what stands at the instructions of `s` that `rule` deletes.
pub open spec fn sweep_from(s: Seq<Ins>, o: Seq<usize>, rule: Sweep) -> Seq<usize>
    decreases s.len(),
{
    if s.len() == 0 {
        o
    } else {
        let rest = sweep_from(s.skip(1), o.skip(1), rule);
        if drops(rule, s[0].tag, next_tag(s)) {
            rest
        } else {
            seq![o[0]] + rest
        }
    }
}

/// `o` without what stands at the instructions that a round deletes.
pub open spec fn round_from(s: Seq<Ins>, o: Seq<usize>) -> Seq<usize> {
    let a = sweep(s, Sweep::SelfMove);
    let b = zero_to_xor(a);
    let c = sweep(b, Sweep::DeadStore);
    sweep_from(
        c,
        sweep_from(b, sweep_from(s, o, Sweep::SelfMove), Sweep::DeadStore),
        Sweep::JumpToNext,
    )
}

/// `o` without what stands at the instructions that optimizing deletes.
pub open spec fn optimize_from(s: Seq<Ins>, o: Seq<usize>) -> Seq<usize>
    decreases s.len(), zero_moves(s), loose_jumps(s),
    via optimize_from_decreases
{
    if round(s) == s {
        o
    } else {
        optimize_from(round(s), round_from(s, o))
    }
}

#[via_fn]
proof fn optimize_from_decreases(s: Seq<Ins>, o: Seq<usize>) {
    round_shrinks(s);
}

/// Whether one instruction is what the rules may make of another: itself, the shorter way to
/// zero its register, or the same jump to another label.
pub open spec fn derived(t: Ins, s: Ins) -> bool {
    ||| t == s
    ||| is_zero_move(s.tag) && t.tag is XorSelf
    ||| s.tag is Jmp && t.tag is Jmp
    ||| s.tag is Jcc && t.tag is Jcc
}

/// Whether `s` is what is left of `s0`: each instruction is derived from the one that `o`
/// names, and those are in order.
pub open spec fn left_of(s0: Seq<Ins>, s: Seq<Ins>, o: Seq<usize>) -> bool {
    &&& o.len() == s.len()
    &&& forall|k: int|
        0 <= k < s.len() ==> (#[trigger] o[k]) < s0.len() && derived(s[k], s0[o[k] as int])
    &&& forall|j: int, k: int| 0 <= j < k < o.len() ==> #[trigger] o[j] < #[trigger] o[k]
}

proof fn sweep_from_picks(s: Seq<Ins>, o: Seq<usize>, rule: Sweep) -> (at: Seq<int>)
    requires
        o.len() == s.len(),
    ensures
        at.len() == sweep(s, rule).len(),
        sweep_from(s, o, rule).len() == at.len(),
        forall|k: int|
            0 <= k < at.len() ==> 0 <= (#[trigger] at[k]) < s.len() && sweep(s, rule)[k]
                == s[at[k]] && sweep_from(s, o, rule)[k] == o[at[k]],
        forall|j: int, k: int| 0 <= j < k < at.len() ==> #[trigger] at[j] < #[trigger] at[k],
    decreases s.len(),
{
    if s.len() == 0 {
        Seq::empty()
    } else {
        let rest = sweep_from_picks(s.skip(1), o.skip(1), rule);
        let moved = Seq::new(rest.len(), |k: int| rest[k] + 1);
        if drops(rule, s[0].tag, next_tag(s)) {
            moved
        } else {
            seq![0int] + moved
        }
    }
}

proof fn sweeping_leaves(s0: Seq<Ins>, s: Seq<Ins>, o: Seq<usize>, rule: Sweep)
    requires
        left_of(s0, s, o),
    ensures
        left_of(s0, sweep(s, rule), sweep_from(s, o, rule)),
{
    let at = sweep_from_picks(s, o, rule);
    let t = sweep(s, rule);
    let p = sweep_from(s, o, rule);
    assert forall|k: int| 0 <= k < t.len() implies (#[trigger] p[k]) < s0.len() && derived(
        t[k],
        s0[p[k] as int],
    ) by {
        assert(p[k] == o[at[k]]);
    }
    assert forall|j: int, k: int| 0 <= j < k < p.len() implies #[trigger] p[j] < #[trigger] p[k] by {
        assert(at[j] < at[k]);
        assert(p[j] == o[at[j]] && p[k] == o[at[k]]);
    }
}

proof fn round_leaves(s0: Seq<Ins>, s: Seq<Ins>, o: Seq<usize>)
    requires
        left_of(s0, s, o),
    ensures
        left_of(s0, round(s), round_from(s, o)),
{
    let a = sweep(s, Sweep::SelfMove);
    let oa = sweep_from(s, o, Sweep::SelfMove);
    let b = zero_to_xor(a);
    sweeping_leaves(s0, s, o, Sweep::SelfMove);
    assert(left_of(s0, b, oa)) by {
        assert forall|k: int| 0 <= k < b.len() implies (#[trigger] oa[k]) < s0.len() && derived(
            b[k],
            s0[oa[k] as int],
        ) by {
            assert(b[k] == zeroed(a, k));
        }
    }
    let c = sweep(b, Sweep::DeadStore);
    let oc = sweep_from(b, oa, Sweep::DeadStore);
    sweeping_leaves(s0, b, oa, Sweep::DeadStore);
    let d = sweep(c, Sweep::JumpToNext);
    let od = sweep_from(c, oc, Sweep::JumpToNext);
    sweeping_leaves(s0, c, oc, Sweep::JumpToNext);
    let e = thread_jumps(d);
    assert forall|k: int| 0 <= k < e.len() implies (#[trigger] od[k]) < s0.len() && derived(
        e[k],
        s0[od[k] as int],
    ) by {
        assert(e[k] == threaded(d, k));
    }
}

proof fn optimizing_leaves(s0: Seq<Ins>, s: Seq<Ins>, o: Seq<usize>)
    requires
        left_of(s0, s, o),
    ensures
        left_of(s0, optimize(s), optimize_from(s, o)),
    decreases s.len(), zero_moves(s), loose_jumps(s),
{
    round_shrinks(s);
    if round(s) != s {
        round_leaves(s0, s, o);
        optimizing_leaves(s0, round(s), round_from(s, o));
    }
}

/// Optimizing adds no instruction and reorders none: each that is left is derived from one
/// of those that were there, in their order.
pub proof fn optimizing_only_takes(s: Seq<Ins>)
    requires
        s.len() <= usize::MAX,
    ensures
        left_of(s, optimize(s), optimize_from(s, identity(s.len()))),
{
    optimizing_leaves(s, s, identity(s.len()));
}

proof fn sweep_from_same(s: Seq<Ins>, o: Seq<usize>, rule: Sweep)
    requires
        o.len() == s.len(),
        sweep(s, rule) == s,
    ensures
        sweep_from(s, o, rule) == o,
    decreases s.len(),
{
    if s.len() > 0 {
        sweep_shrinks(s.skip(1), rule);
        if drops(rule, s[0].tag, next_tag(s)) {
            assert(sweep(s, rule).len() < s.len());
        } else {
            assert(sweep(s, rule).skip(1) =~= sweep(s.skip(1), rule));
            sweep_from_same(s.skip(1), o.skip(1), rule);
            assert(seq![o[0]] + o.skip(1) =~= o);
        }
    }
}

proof fn round_from_same(s: Seq<Ins>, o: Seq<usize>)
    requires
        o.len() == s.len(),
        round(s) == s,
    ensures
        round_from(s, o) == o,
{
    round_unchanged(s);
    sweep_from_same(s, o, Sweep::SelfMove);
    sweep_from_same(s, o, Sweep::DeadStore);
    sweep_from_same(s, o, Sweep::JumpToNext);
}

/// The code of the first instructions, and of one more.
pub(crate) proof fn flat_of_prefix(s: Seq<Ins>, k: int)
    requires
        0 <= k < s.len(),
    ensures
        flat(s.take(k + 1)).len() == flat(s.take(k)).len() + s[k].bytes.len(),
        flat(s.take(k + 1)).len() <= flat(s).len(),
    decreases s.len() - k,
{
    assert(s.take(k + 1).drop_last() =~= s.take(k));
    assert(s.take(k + 1).last() == s[k]);
    if k + 1 < s.len() {
        flat_of_prefix(s, k + 1);
    } else {
        assert(s.take(k + 1) =~= s);
    }
}

// ---------------------------------------------------------------------------
//  Termination
// ---------------------------------------------------------------------------

proof fn count_monotone(a: Seq<bool>, b: Seq<bool>)
    requires
        a.len() == b.len(),
        forall|i: int| 0 <= i < a.len() && #[trigger] a[i] ==> b[i],
    ensures
        count(a) <= count(b),
        (exists|i: int| 0 <= i < a.len() && !a[i] && b[i]) ==> count(a) < count(b),
    decreases a.len(),
{
    if a.len() > 0 {
        let a0 = a.drop_last();
        let b0 = b.drop_last();
        assert forall|i: int| 0 <= i < a0.len() && #[trigger] a0[i] implies b0[i] by {
            assert(a[i] == a0[i] && b[i] == b0[i]);
        }
        count_monotone(a0, b0);
        if exists|i: int| 0 <= i < a.len() && !a[i] && b[i] {
            let i = choose|i: int| 0 <= i < a.len() && !a[i] && b[i];
            if i < a0.len() {
                assert(!a0[i] && b0[i]);
            } else {
                assert(!a.last() && b.last());
            }
        }
        assert(a.last() ==> b.last()) by {
            assert(a[a.len() - 1] ==> b[a.len() - 1]);
        }
    }
}

proof fn sweep_shrinks(s: Seq<Ins>, rule: Sweep)
    ensures
        sweep(s, rule).len() <= s.len(),
        sweep(s, rule).len() == s.len() ==> sweep(s, rule) == s,
    decreases s.len(),
{
    if s.len() > 0 {
        sweep_shrinks(s.skip(1), rule);
        if !drops(rule, s[0].tag, next_tag(s)) && sweep(s, rule).len() == s.len() {
            assert(seq![s[0]] + s.skip(1) =~= s);
        }
    }
}

proof fn zero_to_xor_shrinks(s: Seq<Ins>)
    ensures
        zero_to_xor(s) == s || smaller(zero_to_xor(s), s),
        zero_to_xor(s).len() == s.len(),
{
    let t = zero_to_xor(s);
    let a = Seq::new(t.len(), |i: int| is_zero_move(t[i].tag));
    let b = Seq::new(s.len(), |i: int| is_zero_move(s[i].tag));
    assert forall|i: int| 0 <= i < a.len() && #[trigger] a[i] implies b[i] by {
        assert(t[i] == zeroed(s, i));
    }
    count_monotone(a, b);
    if t != s {
        assert(exists|i: int| 0 <= i < s.len() && t[i] != s[i]) by {
            if forall|i: int| 0 <= i < s.len() ==> t[i] == s[i] {
                assert(t =~= s);
            }
        }
        let i = choose|i: int| 0 <= i < s.len() && t[i] != s[i];
        assert(t[i] == zeroed(s, i));
        assert(!a[i] && b[i]);
    }
}

/// The label that [`follow`] finds is settled, and is not the one it started from.
proof fn follow_ends_settled(s: Seq<Ins>, start: LabelId, cur: LabelId, fuel: nat)
    ensures
        follow(s, start, cur, fuel) matches Some(t) ==> settled(s, t) && t != start,
    decreases fuel,
{
    if fuel > 0 && last_label(s, cur) is Some {
        match forward(s, cur) {
            Some(next) => follow_ends_settled(s, start, next, (fuel - 1) as nat),
            None => {},
        }
    }
}

proof fn settled_stays(s: Seq<Ins>, l: LabelId)
    requires
        settled(s, l),
    ensures
        resolve(s, l) is None,
{
    assert(follow(s, l, l, 16) is None);
}

/// Two lists with the same labels in the same places bind them alike.
pub(crate) proof fn same_labels(s: Seq<Ins>, t: Seq<Ins>, l: LabelId)
    requires
        s.len() == t.len(),
        forall|i: int|
            0 <= i < s.len() ==> ((#[trigger] s[i]).tag is Label || t[i].tag is Label ==> s[i].tag
                == t[i].tag),
    ensures
        last_label(s, l) == last_label(t, l),
    decreases s.len(),
{
    if s.len() > 0 {
        let s0 = s.drop_last();
        let t0 = t.drop_last();
        assert(s[s.len() - 1] == s.last());
        assert forall|i: int|
            0 <= i < s0.len() && ((#[trigger] s0[i]).tag is Label || t0[i].tag is Label) implies
            s0[i].tag == t0[i].tag by {
            assert(s[i] == s0[i] && t[i] == t0[i]);
        }
        same_labels(s0, t0, l);
    }
}

proof fn same_past_labels(s: Seq<Ins>, t: Seq<Ins>, j: int)
    requires
        s.len() == t.len(),
        forall|i: int| 0 <= i < s.len() ==> ((#[trigger] s[i]).tag is Label <==> t[i].tag is Label),
    ensures
        past_labels(s, j) == past_labels(t, j),
    decreases s.len() - j,
{
    if 0 <= j < s.len() && s[j].tag is Label {
        same_past_labels(s, t, j + 1);
    }
}

pub(crate) proof fn last_label_in_range(s: Seq<Ins>, l: LabelId)
    ensures
        last_label(s, l) matches Some(i) ==> 0 <= i < s.len() && s[i].tag == (ITag::Label {
            label: l,
        }),
        last_label(s, l) is None ==> forall|i: int|
            0 <= i < s.len() ==> (#[trigger] s[i]).tag != (ITag::Label { label: l }),
    decreases s.len(),
{
    if s.len() > 0 {
        let s0 = s.drop_last();
        last_label_in_range(s0, l);
        if last_label(s, l) is None {
            assert forall|i: int| 0 <= i < s.len() implies (#[trigger] s[i]).tag != (ITag::Label {
                label: l,
            }) by {
                if i < s0.len() {
                    assert(s0[i] == s[i]);
                }
            }
        }
    }
}

proof fn thread_keeps_settled(s: Seq<Ins>, l: LabelId)
    requires
        settled(s, l),
    ensures
        settled(thread_jumps(s), l),
{
    let t = thread_jumps(s);
    assert forall|i: int|
        0 <= i < s.len() && ((#[trigger] s[i]).tag is Label || t[i].tag is Label) implies s[i].tag
        == t[i].tag by {
        assert(t[i] == threaded(s, i));
    }
    same_labels(s, t, l);
    let i = last_label(s, l).unwrap();
    assert forall|i: int| 0 <= i < s.len() implies ((#[trigger] s[i]).tag is Label
        <==> t[i].tag is Label) by {
        assert(t[i] == threaded(s, i));
    }
    same_past_labels(s, t, i);
    let j = past_labels(s, i);
    if 0 <= j < s.len() {
        settled_stays(s, l);
        assert(t[j] == threaded(s, j));
    }
}

proof fn thread_shrinks(s: Seq<Ins>)
    ensures
        thread_jumps(s) == s || smaller(thread_jumps(s), s),
        thread_jumps(s).len() == s.len(),
{
    let t = thread_jumps(s);
    let za = Seq::new(t.len(), |i: int| is_zero_move(t[i].tag));
    let zb = Seq::new(s.len(), |i: int| is_zero_move(s[i].tag));
    assert forall|i: int| 0 <= i < s.len() implies za[i] == zb[i] by {
        assert(t[i] == threaded(s, i));
    }
    assert(za =~= zb);
    let a = Seq::new(t.len(), |i: int| is_loose(t, i));
    let b = Seq::new(s.len(), |i: int| is_loose(s, i));
    assert forall|i: int| 0 <= i < a.len() && #[trigger] a[i] implies b[i] by {
        loose_after_threading(s, i);
    }
    count_monotone(a, b);
    if t != s {
        assert(exists|i: int| 0 <= i < s.len() && t[i] != s[i]) by {
            if forall|i: int| 0 <= i < s.len() ==> t[i] == s[i] {
                assert(t =~= s);
            }
        }
        let i = choose|i: int| 0 <= i < s.len() && t[i] != s[i];
        loose_after_threading(s, i);
        assert(t[i] == threaded(s, i));
        assert(!a[i] && b[i]);
    }
}

proof fn loose_after_threading(s: Seq<Ins>, i: int)
    requires
        0 <= i < s.len(),
    ensures
        is_loose(thread_jumps(s), i) ==> is_loose(s, i),
        thread_jumps(s)[i] != s[i] ==> is_loose(s, i) && !is_loose(thread_jumps(s), i),
{
    let t = thread_jumps(s);
    assert(t[i] == threaded(s, i));
    match s[i].tag {
        ITag::Jmp { label } => {
            follow_ends_settled(s, label, label, 16);
            if settled(s, label) {
                settled_stays(s, label);
                thread_keeps_settled(s, label);
            }
            match resolve(s, label) {
                Some(l) => thread_keeps_settled(s, l),
                None => {},
            }
        },
        ITag::Jcc { label } => {
            follow_ends_settled(s, label, label, 16);
            if settled(s, label) {
                settled_stays(s, label);
                thread_keeps_settled(s, label);
            }
            match resolve(s, label) {
                Some(l) => thread_keeps_settled(s, l),
                None => {},
            }
        },
        _ => {},
    }
}

/// A round leaves the list as it is or makes it smaller.
pub proof fn round_shrinks(s: Seq<Ins>)
    ensures
        round(s) == s || smaller(round(s), s),
{
    let a = sweep(s, Sweep::SelfMove);
    let b = zero_to_xor(a);
    let c = sweep(b, Sweep::DeadStore);
    let d = sweep(c, Sweep::JumpToNext);
    sweep_shrinks(s, Sweep::SelfMove);
    zero_to_xor_shrinks(a);
    sweep_shrinks(b, Sweep::DeadStore);
    sweep_shrinks(c, Sweep::JumpToNext);
    thread_shrinks(d);
}

/// No rule applies to an optimized list.
pub proof fn optimize_is_fixed_point(s: Seq<Ins>)
    ensures
        round(optimize(s)) == optimize(s),
        optimize(optimize(s)) == optimize(s),
    decreases s.len(), zero_moves(s), loose_jumps(s),
{
    round_shrinks(s);
    if round(s) != s {
        optimize_is_fixed_point(round(s));
    }
}

// ---------------------------------------------------------------------------
//  What every rewrite keeps
// ---------------------------------------------------------------------------

/// Every instruction is encoded as its tag says.
pub open spec fn all_ok(s: Seq<Ins>) -> bool {
    forall|i: int| 0 <= i < s.len() ==> ins_ok(#[trigger] s[i])
}

/// Whether `l` is bound somewhere in `s`.
pub open spec fn has_label(s: Seq<Ins>, l: LabelId) -> bool {
    exists|i: int| 0 <= i < s.len() && (#[trigger] s[i]).tag == (ITag::Label { label: l })
}

/// Whether `i` refers to `l`.
pub open spec fn refers(i: Ins, l: LabelId) -> bool {
    exists|k: int| 0 <= k < i.fixups.len() && (#[trigger] i.fixups[k]).1 == FixupKind::Local(l)
}

/// Every label that an instruction refers to is bound.
pub open spec fn linked(s: Seq<Ins>) -> bool {
    forall|i: int, l: LabelId| 0 <= i < s.len() && #[trigger] refers(s[i], l) ==> has_label(s, l)
}

/// `t` is a rewriting of `s` that keeps every label, stays encoded and linked,
/// and is no longer.
pub open spec fn keeps(s: Seq<Ins>, t: Seq<Ins>) -> bool {
    &&& forall|l: LabelId| has_label(s, l) <==> #[trigger] has_label(t, l)
    &&& all_ok(s) ==> all_ok(t)
    &&& all_ok(s) && linked(s) ==> linked(t)
    &&& all_ok(s) ==> flat(t).len() <= flat(s).len()
}

pub(crate) proof fn flat_push(s: Seq<Ins>, i: Ins)
    ensures
        flat(s.push(i)) == flat(s) + i.bytes,
{
    assert(s.push(i).drop_last() =~= s);
}

proof fn flat_front(s: Seq<Ins>)
    requires
        s.len() > 0,
    ensures
        flat(s) == s[0].bytes + flat(s.skip(1)),
    decreases s.len(),
{
    if s.len() == 1 {
        assert(s.drop_last() =~= Seq::empty());
        assert(s.skip(1) =~= Seq::empty());
        assert(flat(s) =~= s[0].bytes + flat(s.skip(1)));
    } else {
        flat_front(s.drop_last());
        assert(s.drop_last().skip(1) =~= s.skip(1).drop_last());
        assert(s.skip(1).last() == s.last());
        assert(flat(s) =~= s[0].bytes + flat(s.skip(1)));
    }
}

pub(crate) proof fn sweep_members(s: Seq<Ins>, rule: Sweep)
    ensures
        forall|i: int| 0 <= i < sweep(s, rule).len() ==> s.contains(#[trigger] sweep(s, rule)[i]),
        forall|i: int|
            0 <= i < s.len() && (#[trigger] s[i]).tag is Label ==> sweep(s, rule).contains(s[i]),
        flat(sweep(s, rule)).len() <= flat(s).len(),
    decreases s.len(),
{
    if s.len() > 0 {
        let rest = s.skip(1);
        let r = sweep(rest, rule);
        let t = sweep(s, rule);
        sweep_members(rest, rule);
        flat_front(s);
        assert forall|i: int| 0 <= i < t.len() implies s.contains(#[trigger] t[i]) by {
            if drops(rule, s[0].tag, next_tag(s)) {
                assert(rest.contains(r[i]));
                let k = choose|k: int| 0 <= k < rest.len() && rest[k] == r[i];
                assert(s[k + 1] == r[i]);
            } else if i == 0 {
                assert(s[0] == t[0]);
            } else {
                assert(rest.contains(r[i - 1]));
                let k = choose|k: int| 0 <= k < rest.len() && rest[k] == r[i - 1];
                assert(s[k + 1] == t[i]);
            }
        }
        assert forall|i: int| 0 <= i < s.len() && (#[trigger] s[i]).tag is Label implies t.contains(
            s[i],
        ) by {
            let off: int = if drops(rule, s[0].tag, next_tag(s)) {
                0
            } else {
                1
            };
            if i == 0 {
                assert(off == 1 && t[0] == s[0]);
            } else {
                assert(rest[i - 1] == s[i]);
                assert(r.contains(s[i]));
                let k = choose|k: int| 0 <= k < r.len() && r[k] == s[i];
                assert(t[k + off] == s[i]);
            }
        }
        if !drops(rule, s[0].tag, next_tag(s)) {
            flat_front(t);
            assert(t.skip(1) =~= r);
        }
    }
}

pub(crate) proof fn sweep_keeps(s: Seq<Ins>, rule: Sweep)
    ensures
        keeps(s, sweep(s, rule)),
{
    let t = sweep(s, rule);
    sweep_members(s, rule);
    assert forall|l: LabelId| has_label(s, l) <==> #[trigger] has_label(t, l) by {
        if has_label(s, l) {
            let i = choose|i: int|
                0 <= i < s.len() && (#[trigger] s[i]).tag == (ITag::Label { label: l });
            assert(t.contains(s[i]));
            let k = choose|k: int| 0 <= k < t.len() && t[k] == s[i];
            assert(t[k].tag == (ITag::Label { label: l }));
        }
        if has_label(t, l) {
            let i = choose|i: int|
                0 <= i < t.len() && (#[trigger] t[i]).tag == (ITag::Label { label: l });
            assert(s.contains(t[i]));
            let k = choose|k: int| 0 <= k < s.len() && s[k] == t[i];
            assert(s[k].tag == (ITag::Label { label: l }));
        }
    }
    if all_ok(s) {
        assert forall|i: int| 0 <= i < t.len() implies ins_ok(#[trigger] t[i]) by {
            assert(s.contains(t[i]));
            let k = choose|k: int| 0 <= k < s.len() && s[k] == t[i];
            assert(ins_ok(s[k]));
        }
        if linked(s) {
            assert forall|i: int, l: LabelId|
                0 <= i < t.len() && #[trigger] refers(t[i], l) implies has_label(t, l) by {
                assert(s.contains(t[i]));
                let k = choose|k: int| 0 <= k < s.len() && s[k] == t[i];
                assert(refers(s[k], l));
                assert(has_label(s, l));
            }
        }
    }
}

/// Rewriting each instruction in place by one that is no longer.
proof fn flat_pointwise(s: Seq<Ins>, t: Seq<Ins>)
    requires
        s.len() == t.len(),
        forall|i: int| 0 <= i < s.len() ==> (#[trigger] t[i]).bytes.len() <= s[i].bytes.len(),
    ensures
        flat(t).len() <= flat(s).len(),
    decreases s.len(),
{
    if s.len() > 0 {
        let s0 = s.drop_last();
        let t0 = t.drop_last();
        assert forall|i: int| 0 <= i < s0.len() implies (#[trigger] t0[i]).bytes.len()
            <= s0[i].bytes.len() by {
            assert(t[i] == t0[i] && s[i] == s0[i]);
        }
        flat_pointwise(s0, t0);
        assert(t[t.len() - 1] == t.last());
    }
}

proof fn labels_in_place(s: Seq<Ins>, t: Seq<Ins>)
    requires
        s.len() == t.len(),
        forall|i: int|
            0 <= i < s.len() ==> ((#[trigger] t[i]).tag is Label || s[i].tag is Label ==> t[i].tag
                == s[i].tag),
    ensures
        forall|l: LabelId| has_label(s, l) <==> #[trigger] has_label(t, l),
{
    assert forall|l: LabelId| has_label(s, l) <==> #[trigger] has_label(t, l) by {
        if has_label(s, l) {
            let i = choose|i: int|
                0 <= i < s.len() && (#[trigger] s[i]).tag == (ITag::Label { label: l });
            assert(t[i].tag == s[i].tag);
        }
        if has_label(t, l) {
            let i = choose|i: int|
                0 <= i < t.len() && (#[trigger] t[i]).tag == (ITag::Label { label: l });
            assert(s[i].tag == t[i].tag);
        }
    }
}

pub(crate) proof fn zero_to_xor_keeps(s: Seq<Ins>)
    ensures
        keeps(s, zero_to_xor(s)),
{
    let t = zero_to_xor(s);
    assert forall|i: int|
        0 <= i < s.len() && ((#[trigger] t[i]).tag is Label || s[i].tag is Label) implies t[i].tag
        == s[i].tag by {
        assert(t[i] == zeroed(s, i));
    }
    labels_in_place(s, t);
    if all_ok(s) {
        assert forall|i: int| 0 <= i < t.len() implies ins_ok(#[trigger] t[i]) && t[i].bytes.len()
            <= s[i].bytes.len() by {
            assert(ins_ok(s[i]));
            assert(t[i] == zeroed(s, i));
        }
        flat_pointwise(s, t);
        if linked(s) {
            assert forall|i: int, l: LabelId|
                0 <= i < t.len() && #[trigger] refers(t[i], l) implies has_label(t, l) by {
                assert(t[i] == zeroed(s, i));
                assert(t[i].fixups.len() > 0);
                assert(refers(s[i], l));
                assert(has_label(s, l));
            }
        }
    }
}

pub(crate) proof fn thread_keeps(s: Seq<Ins>)
    ensures
        keeps(s, thread_jumps(s)),
{
    let t = thread_jumps(s);
    assert forall|i: int|
        0 <= i < s.len() && ((#[trigger] t[i]).tag is Label || s[i].tag is Label) implies t[i].tag
        == s[i].tag by {
        assert(t[i] == threaded(s, i));
    }
    labels_in_place(s, t);
    if all_ok(s) {
        assert forall|i: int| 0 <= i < t.len() implies ins_ok(#[trigger] t[i]) && t[i].bytes.len()
            <= s[i].bytes.len() by {
            assert(ins_ok(s[i]));
            assert(t[i] == threaded(s, i));
            match s[i].tag {
                ITag::Jmp { label } => {
                    if let Some(l) = resolve(s, label) {
                        crate::encode::jmp_ins_ok(l);
                    }
                },
                ITag::Jcc { label } => {
                    if let Some(l) = resolve(s, label) {
                        crate::encode::jcc_ins_ok((s[i].bytes[1] % 16) as u8, l);
                    }
                },
                _ => {},
            }
        }
        flat_pointwise(s, t);
        if linked(s) {
            assert forall|i: int, l: LabelId|
                0 <= i < t.len() && #[trigger] refers(t[i], l) implies has_label(t, l) by {
                assert(t[i] == threaded(s, i));
                if t[i] != s[i] {
                    let k = choose|k: int|
                        0 <= k < t[i].fixups.len() && (#[trigger] t[i].fixups[k]).1
                            == FixupKind::Local(l);
                    match s[i].tag {
                        ITag::Jmp { label } => follow_ends_settled(s, label, label, 16),
                        ITag::Jcc { label } => follow_ends_settled(s, label, label, 16),
                        _ => {},
                    }
                    assert(settled(s, l));
                    last_label_in_range(s, l);
                    assert(s[last_label(s, l).unwrap()].tag == (ITag::Label { label: l }));
                    assert(has_label(s, l));
                } else {
                    assert(refers(s[i], l));
                    assert(has_label(s, l));
                }
            }
        }
    }
}

/// Optimizing keeps every label, keeps the code well encoded and linked, and
/// never makes it longer.
pub proof fn optimize_keeps(s: Seq<Ins>)
    ensures
        keeps(s, optimize(s)),
    decreases s.len(), zero_moves(s), loose_jumps(s),
{
    round_shrinks(s);
    if round(s) != s {
        let a = sweep(s, Sweep::SelfMove);
        let b = zero_to_xor(a);
        let c = sweep(b, Sweep::DeadStore);
        let d = sweep(c, Sweep::JumpToNext);
        sweep_keeps(s, Sweep::SelfMove);
        zero_to_xor_keeps(a);
        sweep_keeps(b, Sweep::DeadStore);
        sweep_keeps(c, Sweep::JumpToNext);
        thread_keeps(d);
        optimize_keeps(round(s));
    }
}

// ---------------------------------------------------------------------------
//  Execution
// ---------------------------------------------------------------------------

fn drops_now(rule: Sweep, a: ITag, b: Option<ITag>) -> (r: bool)
    ensures
        r == drops(rule, a, b),
{
    match rule {
        Sweep::SelfMove => match a {
            ITag::MovRr { dst, src } => dst == src,
            _ => false,
        },
        Sweep::DeadStore => {
            let written: Option<Gpr> = match a {
                ITag::MovRi { dst, .. } => Some(dst),
                ITag::MovRr { dst, src } => if dst != src {
                    Some(dst)
                } else {
                    None
                },
                _ => None,
            };
            match (written, b) {
                (Some(r), Some(t)) => match t {
                    ITag::MovRi { dst, .. } => dst == r,
                    ITag::MovRr { dst, src } => dst == r && src != r,
                    ITag::XorSelf { dst } => dst == r,
                    _ => false,
                },
                _ => false,
            }
        },
        Sweep::JumpToNext => match (a, b) {
            (ITag::Jmp { label }, Some(ITag::Label { label: here })) => label == here,
            _ => false,
        },
    }
}

/// Deletes what `rule` deletes, with what `from` says of it, and says whether anything went.
fn sweep_out(instrs: &mut Vec<Instr>, from: &mut Vec<usize>, rule: Sweep) -> (changed: bool)
    requires
        old(from)@.len() == old(instrs)@.len(),
    ensures
        views(final(instrs)@) == sweep(views(old(instrs)@), rule),
        final(from)@ == sweep_from(views(old(instrs)@), old(from)@, rule),
        final(from)@.len() == final(instrs)@.len(),
        changed == (views(final(instrs)@) != views(old(instrs)@)),
{
    let ghost s0 = views(instrs@);
    let ghost o0 = from@;
    let mut changed: bool = false;
    let mut i: usize = 0;
    assert(from@.take(0) + sweep_from(s0.skip(0), from@.skip(0), rule) =~= sweep_from(
        s0,
        o0,
        rule,
    )) by {
        assert(s0.skip(0) =~= s0);
        assert(from@.skip(0) =~= o0);
    }
    assert(views(instrs@).take(0) + sweep(views(instrs@).skip(0), rule) =~= sweep(s0, rule)) by {
        assert(views(instrs@).skip(0) =~= s0);
    }
    while i < instrs.len()
        invariant
            i <= instrs@.len() <= s0.len(),
            from@.len() == instrs@.len(),
            sweep_from(s0, o0, rule) == from@.take(i as int) + sweep_from(
                views(instrs@).skip(i as int),
                from@.skip(i as int),
                rule,
            ),
            sweep(s0, rule) == views(instrs@).take(i as int) + sweep(
                views(instrs@).skip(i as int),
                rule,
            ),
            changed == (instrs@.len() < s0.len()),
            !changed ==> views(instrs@) == s0,
        decreases instrs@.len() - i,
    {
        let ghost cur = views(instrs@);
        let ghost o = from@;
        let next: Option<ITag> = if i + 1 < instrs.len() {
            Some(instrs[i + 1].tag)
        } else {
            None
        };
        proof {
            assert(cur.skip(i as int)[0] == instrs@[i as int]@);
            assert(cur.skip(i as int).skip(1) =~= cur.skip(i + 1));
            assert(o.skip(i as int)[0] == o[i as int]);
            assert(o.skip(i as int).skip(1) =~= o.skip(i + 1));
            assert(next == next_tag(cur.skip(i as int)));
        }
        if drops_now(rule, instrs[i].tag, next) {
            let _gone = instrs.remove(i);
            let _whence: usize = from.remove(i);
            changed = true;
            proof {
                assert(from@.take(i as int) =~= o.take(i as int));
                assert(from@.skip(i as int) =~= o.skip(i + 1));
                assert(views(instrs@).take(i as int) =~= cur.take(i as int));
                assert(views(instrs@).skip(i as int) =~= cur.skip(i + 1));
            }
        } else {
            proof {
                let rest = sweep_from(cur.skip(i + 1), o.skip(i + 1), rule);
                assert(o.take(i as int) + (seq![o[i as int]] + rest) =~= o.take(i + 1) + rest);
                assert(cur.take(i as int) + (seq![cur[i as int]] + sweep(cur.skip(i + 1), rule))
                    =~= cur.take(i + 1) + sweep(cur.skip(i + 1), rule));
            }
            i = i + 1;
        }
    }
    proof {
        assert(views(instrs@).skip(i as int) =~= Seq::empty());
        assert(views(instrs@).take(i as int) =~= views(instrs@));
        assert(from@.skip(i as int) =~= Seq::empty());
        assert(from@.take(i as int) + from@.skip(i as int) =~= from@);
        assert(views(instrs@) + Seq::<Ins>::empty() =~= views(instrs@));
    }
    changed
}

/// Whether the flags are overwritten or abandoned from `start` on before any
/// read, within the block.
fn flags_clobbered_before_use_in_block(instrs: &Vec<Instr>, start: usize) -> (r: bool)
    ensures
        r == flags_dead(views(instrs@), start as int),
{
    let mut j: usize = start;
    while j < instrs.len()
        invariant
            flags_dead(views(instrs@), start as int) == flags_dead(views(instrs@), j as int),
        decreases instrs@.len() - j,
    {
        assert(views(instrs@)[j as int].tag == instrs@[j as int].tag);
        match instrs[j].tag {
            ITag::MovRr { .. } | ITag::MovRr32 { .. } | ITag::MovRi { .. } => {},
            ITag::XorSelf { .. } | ITag::CtrlNoFlags => {
                return true;
            },
            _ => {
                return false;
            },
        }
        j = j + 1;
    }
    false
}

proof fn flags_dead_suffix(s: Seq<Ins>, t: Seq<Ins>, j: int)
    requires
        s.len() == t.len(),
        0 <= j,
        forall|k: int| j <= k < s.len() ==> (#[trigger] s[k]) == t[k],
    ensures
        flags_dead(s, j) == flags_dead(t, j),
    decreases s.len() - j,
{
    if j < s.len() {
        assert(s[j] == t[j]);
        flags_dead_suffix(s, t, j + 1);
    }
}

/// Turns every `mov r, 0` before dead flags into `xor r, r`.
fn peep_mov_zero_to_xor(instrs: &mut Vec<Instr>) -> (changed: bool)
    ensures
        views(final(instrs)@) == zero_to_xor(views(old(instrs)@)),
        changed == (views(final(instrs)@) != views(old(instrs)@)),
{
    let ghost s0 = views(instrs@);
    let mut changed: bool = false;
    let mut i: usize = 0;
    while i < instrs.len()
        invariant
            i <= instrs@.len() == s0.len(),
            forall|k: int| 0 <= k < i ==> (#[trigger] views(instrs@)[k]) == zeroed(s0, k),
            forall|k: int| i <= k < s0.len() ==> (#[trigger] views(instrs@)[k]) == s0[k],
            changed ==> exists|k: int| 0 <= k < i && #[trigger] zeroed(s0, k) != s0[k],
            !changed ==> views(instrs@) == s0,
        decreases instrs@.len() - i,
    {
        let ghost cur = views(instrs@);
        assert(cur[i as int] == s0[i as int]);
        let dead = flags_clobbered_before_use_in_block(instrs, i + 1);
        proof {
            flags_dead_suffix(cur, s0, i + 1);
        }
        match instrs[i].tag {
            ITag::MovRi { dst, imm } => {
                if imm == 0 && dead {
                    let n: u8 = dst.num();
                    let bytes = wrr_vec(0x31, n, n);
                    let fixups: Vec<(usize, FixupKind)> = Vec::new();
                    instrs[i] = Instr { tag: ITag::XorSelf { dst }, bytes, fixups };
                    changed = true;
                    proof {
                        assert(instrs@[i as int]@.fixups =~= Seq::empty());
                        assert(instrs@[i as int]@ == zeroed(s0, i as int));
                        assert(views(instrs@) =~= cur.update(i as int, zeroed(s0, i as int)));
                        assert(zeroed(s0, i as int).tag != s0[i as int].tag);
                    }
                }
            },
            _ => {},
        }
        i = i + 1;
    }
    proof {
        assert(views(instrs@) =~= zero_to_xor(s0));
        if changed {
            let k = choose|k: int| 0 <= k < i && #[trigger] zeroed(s0, k) != s0[k];
            assert(views(instrs@)[k] != s0[k]);
        }
    }
    changed
}

/// The label table: where each label was last bound.
spec fn table_of(m: Map<u32, usize>, s: Seq<Ins>) -> bool {
    &&& forall|id: u32| #[trigger] m.contains_key(id) <==> last_label(s, LabelId(id)) is Some
    &&& forall|id: u32| #[trigger]
        m.contains_key(id) ==> last_label(s, LabelId(id)) == Some(m[id] as int)
}

fn label_table(instrs: &Vec<Instr>) -> (m: HashMap<u32, usize>)
    ensures
        table_of(m@, views(instrs@)),
{
    let mut m: HashMap<u32, usize> = HashMap::new();
    let mut i: usize = 0;
    while i < instrs.len()
        invariant
            i <= instrs@.len(),
            table_of(m@, views(instrs@).take(i as int)),
        decreases instrs@.len() - i,
    {
        let ghost pre = views(instrs@).take(i as int);
        let ghost cur = views(instrs@).take(i + 1);
        proof {
            assert(cur.drop_last() =~= pre);
            assert(cur.last().tag == instrs@[i as int].tag);
            assert forall|id: u32| true implies last_label(cur, LabelId(id)) == (if cur.last().tag
                == (ITag::Label { label: LabelId(id) }) {
                Some(i as int)
            } else {
                last_label(pre, LabelId(id))
            }) by {}
        }
        let ghost before = m@;
        match instrs[i].tag {
            ITag::Label { label } => {
                m.insert(label.0, i);
                proof {
                    assert forall|id: u32| true implies (#[trigger] m@.contains_key(id)
                        <==> last_label(cur, LabelId(id)) is Some) && (m@.contains_key(id)
                        ==> last_label(cur, LabelId(id)) == Some(m@[id] as int)) by {
                        if id == label.0 {
                            assert(label == LabelId(id));
                        } else {
                            assert(before.contains_key(id) <==> m@.contains_key(id));
                        }
                    }
                }
            },
            _ => {
                proof {
                    assert forall|id: u32| true implies (#[trigger] m@.contains_key(id)
                        <==> last_label(cur, LabelId(id)) is Some) && (m@.contains_key(id)
                        ==> last_label(cur, LabelId(id)) == Some(m@[id] as int)) by {}
                }
            },
        }
        i = i + 1;
    }
    assert(views(instrs@).take(i as int) =~= views(instrs@));
    m
}

/// The label where a jump to `start` ends up, where it is another one.
fn resolve_label(instrs: &Vec<Instr>, table: &HashMap<u32, usize>, start: LabelId) -> (r: Option<
    LabelId,
>)
    requires
        table_of(table@, views(instrs@)),
    ensures
        r == resolve(views(instrs@), start),
{
    let ghost s = views(instrs@);
    let mut cur: LabelId = start;
    let mut fuel: u32 = MAX_HOPS;
    while fuel > 0
        invariant
            s == views(instrs@),
            table_of(table@, s),
            fuel <= MAX_HOPS,
            resolve(s, start) == follow(s, start, cur, fuel as nat),
        decreases fuel,
    {
        proof {
            last_label_in_range(s, cur);
            assert(table@.contains_key(cur.0) <==> last_label(s, LabelId(cur.0)) is Some);
        }
        let mut j: usize = match table.get(&cur.0) {
            Some(i) => *i,
            None => {
                return None;
            },
        };
        let ghost at = j as int;
        while j < instrs.len() && is_label(instrs[j].tag)
            invariant
                s == views(instrs@),
                at <= j,
                past_labels(s, at) == past_labels(s, j as int),
            decreases instrs@.len() - j,
        {
            assert(s[j as int].tag == instrs@[j as int].tag);
            j = j + 1;
        }
        assert(past_labels(s, at) == j) by {
            if j < s.len() {
                assert(s[j as int].tag == instrs@[j as int].tag);
            }
        }
        let mut next: Option<LabelId> = None;
        if j < instrs.len() {
            assert(s[j as int].tag == instrs@[j as int].tag);
            match instrs[j].tag {
                ITag::Jmp { label } => {
                    if label != cur {
                        next = Some(label);
                    }
                },
                _ => {},
            }
        }
        assert(next == forward(s, cur));
        match next {
            Some(l) => {
                cur = l;
                fuel = fuel - 1;
            },
            None => {
                return if cur == start {
                    None
                } else {
                    Some(cur)
                };
            },
        }
    }
    None
}

fn is_label(t: ITag) -> (r: bool)
    ensures
        r == t is Label,
{
    match t {
        ITag::Label { .. } => true,
        _ => false,
    }
}

/// Where each jump ends up, where that is not where it goes now.
fn retargets(instrs: &Vec<Instr>) -> (out: Vec<Option<LabelId>>)
    ensures
        out@.len() == instrs@.len(),
        forall|i: int|
            0 <= i < out@.len() ==> (#[trigger] out@[i]) == (match instrs@[i].tag {
                ITag::Jmp { label } => resolve(views(instrs@), label),
                ITag::Jcc { label } => resolve(views(instrs@), label),
                _ => None,
            }),
{
    let table = label_table(instrs);
    let mut out: Vec<Option<LabelId>> = Vec::new();
    let mut i: usize = 0;
    while i < instrs.len()
        invariant
            i <= instrs@.len(),
            table_of(table@, views(instrs@)),
            out@.len() == i,
            forall|k: int|
                0 <= k < out@.len() ==> (#[trigger] out@[k]) == (match instrs@[k].tag {
                    ITag::Jmp { label } => resolve(views(instrs@), label),
                    ITag::Jcc { label } => resolve(views(instrs@), label),
                    _ => None,
                }),
        decreases instrs@.len() - i,
    {
        let r: Option<LabelId> = match instrs[i].tag {
            ITag::Jmp { label } => resolve_label(instrs, &table, label),
            ITag::Jcc { label } => resolve_label(instrs, &table, label),
            _ => None,
        };
        out.push(r);
        i = i + 1;
    }
    out
}

/// The instruction `jmp target`.
fn rewrite_jmp_target(target: LabelId) -> (r: Instr)
    ensures
        r@ == jmp_ins(target),
{
    let mut bytes: Vec<u8> = Vec::new();
    bytes.push(0xE9);
    crate::bytes::push_u32(&mut bytes, 0);
    let mut fixups: Vec<(usize, FixupKind)> = Vec::new();
    fixups.push((1, FixupKind::Local(target)));
    assert(bytes@ =~= jmp_bytes());
    assert(fixups@ =~= jmp_ins(target).fixups);
    Instr { tag: ITag::Jmp { label: target }, bytes, fixups }
}

/// A conditional jump to `target` with the condition of `inst`.
fn rewrite_jcc_target(inst: &Instr, target: LabelId) -> (r: Instr)
    requires
        inst@.bytes.len() > 1,
    ensures
        r@ == jcc_ins((inst@.bytes[1] % 16) as u8, target),
{
    let tttn: u8 = inst.bytes[1] % 16;
    let mut bytes: Vec<u8> = Vec::new();
    bytes.push(0x0F);
    bytes.push(0x80 + tttn);
    crate::bytes::push_u32(&mut bytes, 0);
    let mut fixups: Vec<(usize, FixupKind)> = Vec::new();
    fixups.push((2, FixupKind::Local(target)));
    assert(bytes@ =~= jcc_bytes(tttn));
    assert(fixups@ =~= jcc_ins(tttn, target).fixups);
    Instr { tag: ITag::Jcc { label: target }, bytes, fixups }
}

/// A jump that is threaded is not what it was.
proof fn threading_changes(s: Seq<Ins>, i: int)
    requires
        0 <= i < s.len(),
        match s[i].tag {
            ITag::Jmp { label } => resolve(s, label) is Some,
            ITag::Jcc { label } => resolve(s, label) is Some,
            _ => false,
        },
    ensures
        threaded(s, i) != s[i],
{
    match s[i].tag {
        ITag::Jmp { label } => {
            follow_ends_settled(s, label, label, 16);
        },
        ITag::Jcc { label } => {
            follow_ends_settled(s, label, label, 16);
        },
        _ => {},
    }
}

/// Sends every jump to a jump to its final target.
fn peep_jump_to_jump(instrs: &mut Vec<Instr>) -> (changed: bool)
    requires
        all_ok(views(old(instrs)@)),
    ensures
        views(final(instrs)@) == thread_jumps(views(old(instrs)@)),
        changed == (views(final(instrs)@) != views(old(instrs)@)),
{
    let ghost s0 = views(instrs@);
    let targets = retargets(instrs);
    let mut changed: bool = false;
    let mut i: usize = 0;
    while i < instrs.len()
        invariant
            i <= instrs@.len() == s0.len(),
            targets@.len() == s0.len(),
            all_ok(s0),
            forall|k: int|
                0 <= k < s0.len() ==> (#[trigger] targets@[k]) == (match s0[k].tag {
                    ITag::Jmp { label } => resolve(s0, label),
                    ITag::Jcc { label } => resolve(s0, label),
                    _ => None,
                }),
            forall|k: int| 0 <= k < i ==> (#[trigger] views(instrs@)[k]) == threaded(s0, k),
            forall|k: int| i <= k < s0.len() ==> (#[trigger] views(instrs@)[k]) == s0[k],
            changed ==> exists|k: int| 0 <= k < i && #[trigger] threaded(s0, k) != s0[k],
            !changed ==> views(instrs@) == s0,
        decreases instrs@.len() - i,
    {
        let ghost cur = views(instrs@);
        assert(cur[i as int] == s0[i as int]);
        assert(ins_ok(s0[i as int]));
        let target: Option<LabelId> = targets[i];
        match target {
            Some(t) => {
                let rewritten: Option<Instr> = match instrs[i].tag {
                    ITag::Jmp { .. } => Some(rewrite_jmp_target(t)),
                    ITag::Jcc { .. } => Some(rewrite_jcc_target(&instrs[i], t)),
                    _ => None,
                };
                match rewritten {
                    Some(inst) => {
                        proof {
                            threading_changes(s0, i as int);
                            assert(inst@ == threaded(s0, i as int));
                        }
                        instrs[i] = inst;
                        changed = true;
                        assert(views(instrs@) =~= cur.update(i as int, threaded(s0, i as int)));
                    },
                    None => {},
                }
            },
            None => {},
        }
        i = i + 1;
    }
    proof {
        assert(views(instrs@) =~= thread_jumps(s0));
        if changed {
            let k = choose|k: int| 0 <= k < i && #[trigger] threaded(s0, k) != s0[k];
            assert(views(instrs@)[k] != s0[k]);
        }
    }
    changed
}

/// A round that ends where it began changed nothing on the way.
proof fn round_unchanged(s: Seq<Ins>)
    requires
        round(s) == s,
    ensures
        sweep(s, Sweep::SelfMove) == s,
        zero_to_xor(s) == s,
        sweep(s, Sweep::DeadStore) == s,
        sweep(s, Sweep::JumpToNext) == s,
        thread_jumps(s) == s,
{
    let a = sweep(s, Sweep::SelfMove);
    let b = zero_to_xor(a);
    let c = sweep(b, Sweep::DeadStore);
    let d = sweep(c, Sweep::JumpToNext);
    sweep_shrinks(s, Sweep::SelfMove);
    zero_to_xor_shrinks(a);
    sweep_shrinks(b, Sweep::DeadStore);
    sweep_shrinks(c, Sweep::JumpToNext);
    thread_shrinks(d);
}

/// None of the five rules finds anything in an optimized list.
pub proof fn optimize_leaves_nothing(s: Seq<Ins>)
    ensures
        sweep(optimize(s), Sweep::SelfMove) == optimize(s),
        zero_to_xor(optimize(s)) == optimize(s),
        sweep(optimize(s), Sweep::DeadStore) == optimize(s),
        sweep(optimize(s), Sweep::JumpToNext) == optimize(s),
        thread_jumps(optimize(s)) == optimize(s),
{
    optimize_is_fixed_point(s);
    round_unchanged(optimize(s));
}

/// Rewrites the list until no rule applies; what `from` says of an instruction goes with it.
pub(crate) fn optimize_list(instrs: &mut Vec<Instr>, from: &mut Vec<usize>)
    requires
        all_ok(views(old(instrs)@)),
        old(from)@.len() == old(instrs)@.len(),
    ensures
        views(final(instrs)@) == optimize(views(old(instrs)@)),
        final(from)@ == optimize_from(views(old(instrs)@), old(from)@),
        final(from)@.len() == final(instrs)@.len(),
{
    let ghost s0 = views(instrs@);
    let ghost o0 = from@;
    let mut changed: bool = true;
    while changed
        invariant
            optimize(views(instrs@)) == optimize(s0),
            optimize_from(views(instrs@), from@) == optimize_from(s0, o0),
            from@.len() == instrs@.len(),
            all_ok(views(instrs@)),
            !changed ==> views(instrs@) == optimize(s0),
            !changed ==> from@ == optimize_from(s0, o0),
        decreases
            views(instrs@).len(),
            zero_moves(views(instrs@)),
            loose_jumps(views(instrs@)),
            changed as int,
    {
        let ghost s = views(instrs@);
        let ghost o = from@;
        let c1 = sweep_out(instrs, from, Sweep::SelfMove);
        let ghost a = views(instrs@);
        let c2 = peep_mov_zero_to_xor(instrs);
        let ghost b = views(instrs@);
        let c3 = sweep_out(instrs, from, Sweep::DeadStore);
        let ghost c = views(instrs@);
        let c4 = sweep_out(instrs, from, Sweep::JumpToNext);
        let ghost d = views(instrs@);
        proof {
            sweep_keeps(s, Sweep::SelfMove);
            zero_to_xor_keeps(a);
            sweep_keeps(b, Sweep::DeadStore);
            sweep_keeps(c, Sweep::JumpToNext);
            thread_keeps(d);
        }
        let c5 = peep_jump_to_jump(instrs);
        changed = c1 || c2 || c3 || c4 || c5;
        proof {
            assert(views(instrs@) == round(s));
            round_shrinks(s);
            assert(from@ == round_from(s, o));
            if round(s) == s {
                round_unchanged(s);
                round_from_same(s, o);
            }
        }
    }
}

} // verus!
