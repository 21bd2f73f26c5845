//! What a finished function is handed out with: the holes that are left, and what stands in
//! the holes that were filled.
use vstd::prelude::*;

use crate::bytes::{le32, zeros};
use crate::encode::{
    AsmState, Fixup, FixupKind, bound_has_offset, finished_code_elsewhere,
    finished_jumps_land_on_labels, fixups_in_code, fixups_of, hole_open, hole_width, holes_disjoint,
    ins_ok, label_offset, linked_code, linked_length, outer, outer_members, placed, rel32,
};
use crate::peephole::{
    Ins, Sweep, all_ok, drops, flat, has_label, linked, loose_jumps, next_tag, optimize,
    optimize_keeps, refers, round, round_shrinks, sweep, sweep_keeps, thread_jumps, thread_keeps,
    threaded, zero_moves, zero_to_xor, zero_to_xor_keeps, zeroed,
};

verus! {

/// What the holes refer to, in order.
pub open spec fn kinds(fx: Seq<Fixup>) -> Seq<FixupKind> {
    Seq::new(fx.len(), |k: int| fx[k].kind)
}

/// What the hole of `i` refers to, where it is outside the function.
pub open spec fn outer_of(i: Ins) -> Seq<FixupKind> {
    if i.fixups.len() == 0 || i.fixups[0].1 is Local {
        Seq::empty()
    } else {
        seq![i.fixups[0].1]
    }
}

/// What the holes of `s` refer to outside the function, in order.
pub open spec fn outer_kinds(s: Seq<Ins>) -> Seq<FixupKind>
    decreases s.len(),
{
    if s.len() == 0 {
        Seq::empty()
    } else {
        outer_of(s[0]) + outer_kinds(s.skip(1))
    }
}

/// Whether the hole `f` of `code` is still open: all zero, and behind the opcode of a call
/// where it is one of a call.
pub open spec fn hole_left(code: Seq<u8>, f: Fixup) -> bool {
    &&& 1 <= f.at
    &&& f.at + hole_width(f.kind) <= code.len()
    &&& code.subrange(f.at as int, f.at + hole_width(f.kind)) == zeros(hole_width(f.kind))
    &&& f.kind is Call || f.kind is Runtime ==> code[f.at - 1] == 0xE8
}

/// Whether the hole `f` of `code` holds the distance to where its label is bound in `s`.
pub open spec fn lands(s: Seq<Ins>, code: Seq<u8>, f: Fixup) -> bool {
    f.kind matches FixupKind::Local(l) ==> {
        &&& label_offset(s, l) is Some
        &&& f.at + 4 <= code.len()
        &&& code.subrange(f.at as int, f.at + 4) == le32(
            rel32(label_offset(s, l).unwrap(), f.at as nat),
        )
    }
}

// ---------------------------------------------------------------------------
//  Rewriting keeps the outer holes
// ---------------------------------------------------------------------------

proof fn outer_kinds_last(s: Seq<Ins>)
    requires
        s.len() > 0,
    ensures
        outer_kinds(s) == outer_kinds(s.drop_last()) + outer_of(s.last()),
    decreases s.len(),
{
    if s.len() == 1 {
        assert(s.skip(1) =~= Seq::empty());
        assert(s.drop_last() =~= Seq::empty());
        assert(outer_kinds(s) =~= outer_kinds(s.drop_last()) + outer_of(s.last()));
    } else {
        outer_kinds_last(s.skip(1));
        assert(s.skip(1).drop_last() =~= s.drop_last().skip(1));
        assert(s.skip(1).last() == s.last());
        assert(outer_kinds(s) =~= outer_kinds(s.drop_last()) + outer_of(s.last()));
    }
}

proof fn kinds_of_outer(s: Seq<Ins>)
    requires
        all_ok(s),
    ensures
        kinds(outer(fixups_of(s))) == outer_kinds(s),
    decreases s.len(),
{
    if s.len() > 0 {
        let s0 = s.drop_last();
        assert(all_ok(s0)) by {
            assert forall|i: int| 0 <= i < s0.len() implies ins_ok(#[trigger] s0[i]) by {
                assert(s[i] == s0[i]);
            }
        }
        assert(ins_ok(s[s.len() - 1]));
        kinds_of_outer(s0);
        outer_kinds_last(s);
        let fx0 = fixups_of(s0);
        let fx = fixups_of(s);
        let f = placed(s.last().fixups, flat(s0).len());
        assert(fx == fx0 + f);
        if f.len() == 0 {
            assert(fx =~= fx0);
            assert(outer_kinds(s) =~= outer_kinds(s0));
        } else {
            assert(fx.drop_last() =~= fx0);
            assert(fx.last() == f[0]);
            assert(kinds(outer(fx)) =~= outer_kinds(s));
        }
    }
}

proof fn pointwise(s: Seq<Ins>, t: Seq<Ins>)
    requires
        s.len() == t.len(),
        forall|i: int| 0 <= i < s.len() ==> outer_of(#[trigger] s[i]) == outer_of(t[i]),
    ensures
        outer_kinds(s) == outer_kinds(t),
    decreases s.len(),
{
    if s.len() > 0 {
        let s1 = s.skip(1);
        let t1 = t.skip(1);
        assert forall|i: int| 0 <= i < s1.len() implies outer_of(#[trigger] s1[i]) == outer_of(
            t1[i],
        ) by {
            assert(s1[i] == s[i + 1] && t1[i] == t[i + 1]);
        }
        pointwise(s1, t1);
        assert(outer_of(s[0]) == outer_of(t[0]));
    }
}

proof fn sweep_keeps_outer(s: Seq<Ins>, rule: Sweep)
    requires
        all_ok(s),
    ensures
        outer_kinds(sweep(s, rule)) == outer_kinds(s),
    decreases s.len(),
{
    if s.len() > 0 {
        let s1 = s.skip(1);
        assert(all_ok(s1)) by {
            assert forall|i: int| 0 <= i < s1.len() implies ins_ok(#[trigger] s1[i]) by {
                assert(s1[i] == s[i + 1]);
            }
        }
        sweep_keeps_outer(s1, rule);
        assert(ins_ok(s[0]));
        let rest = sweep(s1, rule);
        if drops(rule, s[0].tag, next_tag(s)) {
            assert(outer_of(s[0]) == Seq::<FixupKind>::empty());
            assert(outer_kinds(s) =~= outer_kinds(s1));
        } else {
            let t = seq![s[0]] + rest;
            assert(t.skip(1) =~= rest);
            assert(t[0] == s[0]);
        }
    }
}

proof fn zero_to_xor_keeps_outer(s: Seq<Ins>)
    requires
        all_ok(s),
    ensures
        outer_kinds(zero_to_xor(s)) == outer_kinds(s),
{
    let t = zero_to_xor(s);
    assert forall|i: int| 0 <= i < s.len() implies outer_of(#[trigger] s[i]) == outer_of(t[i]) by {
        assert(t[i] == zeroed(s, i));
        assert(ins_ok(s[i]));
    }
    pointwise(s, t);
}

proof fn thread_keeps_outer(s: Seq<Ins>)
    requires
        all_ok(s),
    ensures
        outer_kinds(thread_jumps(s)) == outer_kinds(s),
{
    let t = thread_jumps(s);
    assert forall|i: int| 0 <= i < s.len() implies outer_of(#[trigger] s[i]) == outer_of(t[i]) by {
        assert(t[i] == threaded(s, i));
        assert(ins_ok(s[i]));
    }
    pointwise(s, t);
}

proof fn optimize_keeps_outer(s: Seq<Ins>)
    requires
        all_ok(s),
    ensures
        outer_kinds(optimize(s)) == outer_kinds(s),
    decreases s.len(), zero_moves(s), loose_jumps(s),
{
    round_shrinks(s);
    if round(s) != s {
        let a = sweep(s, Sweep::SelfMove);
        let b = zero_to_xor(a);
        let c = sweep(b, Sweep::DeadStore);
        let d = sweep(c, Sweep::JumpToNext);
        sweep_keeps(s, Sweep::SelfMove);
        sweep_keeps_outer(s, Sweep::SelfMove);
        zero_to_xor_keeps(a);
        zero_to_xor_keeps_outer(a);
        sweep_keeps(b, Sweep::DeadStore);
        sweep_keeps_outer(b, Sweep::DeadStore);
        sweep_keeps(c, Sweep::JumpToNext);
        sweep_keeps_outer(c, Sweep::JumpToNext);
        thread_keeps(d);
        thread_keeps_outer(d);
        optimize_keeps_outer(round(s));
    }
}

// ---------------------------------------------------------------------------
//  The bytes of a hole
// ---------------------------------------------------------------------------

/// The `k`-th hole is all zero as it was emitted, behind the opcode of a call where it is one
/// of a call, and that opcode lies in no hole.
proof fn emitted_hole(s: Seq<Ins>, k: int)
    requires
        all_ok(s),
        flat(s).len() <= usize::MAX,
        0 <= k < fixups_of(s).len(),
    ensures
        ({
            let fx = fixups_of(s);
            let f = fx[k];
            &&& 1 <= f.at
            &&& f.at + hole_width(f.kind) <= flat(s).len()
            &&& forall|j: int| f.at <= j < f.at + hole_width(f.kind) ==> #[trigger] flat(s)[j] == 0
            &&& f.kind is Call || f.kind is Runtime ==> flat(s)[f.at - 1] == 0xE8
            &&& forall|m: int|
                0 <= m < fx.len() ==> !((#[trigger] fx[m]).at <= f.at - 1 < fx[m].at + hole_width(
                    fx[m].kind,
                ))
        }),
    decreases s.len(),
{
    let s0 = s.drop_last();
    assert(all_ok(s0)) by {
        assert forall|i: int| 0 <= i < s0.len() implies ins_ok(#[trigger] s0[i]) by {
            assert(s[i] == s0[i]);
        }
    }
    let i = s.last();
    assert(ins_ok(s[s.len() - 1]));
    let fx0 = fixups_of(s0);
    let fx = fixups_of(s);
    let p = placed(i.fixups, flat(s0).len());
    assert(fx == fx0 + p);
    assert(flat(s) == flat(s0) + i.bytes);
    fixups_in_code(s0);
    if k < fx0.len() {
        emitted_hole(s0, k);
        let f = fx0[k];
        assert(fx[k] == f);
        assert forall|j: int| f.at <= j < f.at + hole_width(f.kind) implies #[trigger] flat(s)[j]
            == 0 by {
            assert(flat(s)[j] == flat(s0)[j]);
        }
        assert forall|m: int| 0 <= m < fx.len() implies !((#[trigger] fx[m]).at <= f.at - 1
            < fx[m].at + hole_width(fx[m].kind)) by {
            if m < fx0.len() {
                assert(fx[m] == fx0[m]);
            } else {
                assert(fx[m] == p[m - fx0.len()]);
            }
        }
    } else {
        let f = p[0];
        assert(fx[k] == f);
        reveal(hole_open);
        assert(hole_open(i));
        assert forall|j: int| f.at <= j < f.at + hole_width(f.kind) implies #[trigger] flat(s)[j]
            == 0 by {
            assert(flat(s)[j] == i.bytes[j - flat(s0).len()]);
        }
        assert forall|m: int| 0 <= m < fx.len() implies !((#[trigger] fx[m]).at <= f.at - 1
            < fx[m].at + hole_width(fx[m].kind)) by {
            if m < fx0.len() {
                assert(fx[m] == fx0[m]);
            } else {
                assert(fx[m] == p[0]);
            }
        }
    }
}

/// Filling in the jumps leaves every outer hole open.
proof fn outer_hole_left(s: Seq<Ins>, k: int)
    requires
        all_ok(s),
        flat(s).len() <= usize::MAX,
        0 <= k < fixups_of(s).len(),
        !(fixups_of(s)[k].kind is Local),
    ensures
        hole_left(linked_code(s), fixups_of(s)[k]),
{
    let fx = fixups_of(s);
    let f = fx[k];
    let w = hole_width(f.kind);
    let code = linked_code(s);
    emitted_hole(s, k);
    linked_length(s);
    assert forall|j: int| f.at <= j < f.at + w implies #[trigger] code[j] == 0 by {
        assert forall|m: int| 0 <= m < fx.len() && (#[trigger] fx[m]).kind is Local implies !(
        fx[m].at <= j < fx[m].at + 4) by {
            if m < k {
                holes_disjoint(s, m, k);
            } else {
                holes_disjoint(s, k, m);
            }
        }
        finished_code_elsewhere(s, j);
        assert(flat(s)[j] == 0);
    }
    assert(code.subrange(f.at as int, f.at + w) =~= zeros(w));
    finished_code_elsewhere(s, f.at - 1);
}

// ---------------------------------------------------------------------------
//  The law
// ---------------------------------------------------------------------------

/// Finishing a function hands out one hole for each call, runtime call, data and state
/// reference that was emitted, in order and all still open, a call's behind its opcode; and in
/// the code every jump within the function holds the distance to where its label is bound.
pub proof fn finished_function(a: AsmState)
    requires
        all_ok(a.instrs),
        linked(a.instrs),
        flat(a.instrs).len() <= usize::MAX,
    ensures
        ({
            let s = a.peephole().instrs;
            let code = linked_code(s);
            let left = outer(fixups_of(s));
            &&& code.len() <= flat(a.instrs).len()
            &&& kinds(left) == kinds(outer(fixups_of(a.instrs)))
            &&& forall|k: int| 0 <= k < left.len() ==> hole_left(code, #[trigger] left[k])
            &&& forall|k: int|
                0 <= k < fixups_of(s).len() ==> lands(s, code, #[trigger] fixups_of(s)[k])
        }),
{
    let s = a.peephole().instrs;
    let fx = fixups_of(s);
    let code = linked_code(s);
    let left = outer(fx);
    optimize_keeps(a.instrs);
    optimize_keeps_outer(a.instrs);
    kinds_of_outer(a.instrs);
    kinds_of_outer(s);
    linked_length(s);
    outer_members(fx);
    fixups_in_code(s);
    assert forall|k: int| 0 <= k < left.len() implies hole_left(code, #[trigger] left[k]) by {
        assert(fx.contains(left[k]));
        let m = choose|m: int| 0 <= m < fx.len() && fx[m] == left[k];
        outer_not_local(fx, k);
        outer_hole_left(s, m);
    }
    assert forall|k: int| 0 <= k < fx.len() implies lands(s, code, #[trigger] fx[k]) by {
        if let FixupKind::Local(l) = fx[k].kind {
            let i = choose|i: int| 0 <= i < s.len() && refers(#[trigger] s[i], l);
            assert(has_label(s, l));
            bound_has_offset(s, l);
            finished_jumps_land_on_labels(s, k, l);
        }
    }
}

proof fn outer_not_local(fx: Seq<Fixup>, k: int)
    requires
        0 <= k < outer(fx).len(),
    ensures
        !(outer(fx)[k].kind is Local),
    decreases fx.len(),
{
    if fx.len() > 0 {
        let o = outer(fx.drop_last());
        if k < o.len() {
            outer_not_local(fx.drop_last(), k);
        }
    }
}

} // verus!
