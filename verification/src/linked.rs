//! What holds of linked programs: every call lands on its callee, every reference holds
//! the address of its data, and the code stands where its offset says.
use vstd::prelude::*;

use crate::bytes::{rd32, rd64, splice32_reads_back, splice64_reads_back};
use crate::encode::{Fixup, FixupKind, apart, fixups_of, hole_width, outer_apart, rel32};
use crate::link::{
    LinkEnv, LoweredView, RoutineView, Site, all_within, codes, fn_offset, fn_sites, needs_runtime,
    patch, patch_all, patch_len, program_env, program_sites, program_text, raw_text, routine_codes,
    routine_offset, routine_sites, routines_within, sites_at, start_code_short, start_fixups,
    start_instrs_ok, start_state,
};
use crate::mir_ids::FnId;

verus! {

/// Whether the fixups of every function are apart.
pub open spec fn all_apart(l: Seq<LoweredView>) -> bool {
    forall|i: int| 0 <= i < l.len() ==> apart((#[trigger] l[i]).fixups)
}

/// Whether the fixups of every routine are apart.
pub open spec fn routines_apart(l: Seq<RoutineView>) -> bool {
    forall|i: int| 0 <= i < l.len() ==> apart((#[trigger] l[i]).fixups)
}

/// Where a fixup stands in the text.
pub open spec fn place(s: Site) -> int {
    s.base + s.fixup.at
}

/// Where the hole of a fixup ends.
pub open spec fn hole_end(s: Site) -> int {
    place(s) + hole_width(s.fixup.kind)
}

/// Whether fixups stand in order and none reaches into the next.
pub open spec fn sites_apart(s: Seq<Site>) -> bool {
    forall|j: int, k: int|
        0 <= j < k < s.len() ==> hole_end(#[trigger] s[j]) <= place(#[trigger] s[k])
}

/// Whether all fixups stand between two offsets.
pub open spec fn sites_between(s: Seq<Site>, lo: int, hi: int) -> bool {
    forall|k: int| 0 <= k < s.len() ==> lo <= place(#[trigger] s[k]) && hole_end(s[k]) <= hi
}

/// Whether a fixup is resolved in `text`: a call holds the displacement to its callee, a
/// reference the address of its data.
pub open spec fn resolved_at(env: LinkEnv, text: Seq<u8>, s: Site) -> bool {
    match s.fixup.kind {
        FixupKind::Call(f) => fn_offset(env.start, env.fns, f) is Some && rd32(text, place(s))
            == rel32(fn_offset(env.start, env.fns, f).unwrap(), place(s) as nat),
        FixupKind::Runtime(rt) => routine_offset(env.routines_start(), env.routines, rt) is Some
            && rd32(text, place(s)) == rel32(
            routine_offset(env.routines_start(), env.routines, rt).unwrap(),
            place(s) as nat,
        ),
        FixupKind::Data(off) => rd64(text, place(s)) == (env.rodata + off) as u64,
        FixupKind::State(off) => rd64(text, place(s)) == (env.state + off) as u64,
        FixupKind::Local(_) => true,
    }
}

/// A branch with its hole at `at` whose displacement is [`rel32`] lands on the target:
/// behind the hole, plus the displacement, modulo its 32 bits.
pub proof fn rel32_lands(target: nat, at: nat)
    ensures
        (at + 4 + rel32(target, at)) % 0x1_0000_0000 == target % 0x1_0000_0000,
{
    let d = target - (at + 4);
    vstd::arithmetic::div_mod::lemma_fundamental_div_mod(d, 0x1_0000_0000);
    let q = d / 0x1_0000_0000;
    assert(at + 4 + rel32(target, at) == target - q * 0x1_0000_0000) by (nonlinear_arith)
        requires
            rel32(target, at) == d - q * 0x1_0000_0000,
            d == target - (at + 4),
    ;
    vstd::arithmetic::div_mod::lemma_mod_multiples_vanish(-q, target as int, 0x1_0000_0000);
    assert(-q * 0x1_0000_0000 + target == target - q * 0x1_0000_0000) by (nonlinear_arith);
}

proof fn patch_step(env: LinkEnv, text: Seq<u8>, s: Site)
    requires
        patch(env, text, s) is Ok,
        hole_end(s) <= text.len(),
    ensures
        resolved_at(env, patch(env, text, s)->Ok_0, s),
        patch(env, text, s)->Ok_0.len() == text.len(),
        forall|i: int|
            0 <= i < text.len() && !(place(s) <= i < hole_end(s)) ==> (#[trigger] patch(
                env,
                text,
                s,
            )->Ok_0[i])
                == text[i],
{
    let at = place(s);
    match s.fixup.kind {
        FixupKind::Call(f) => {
            splice32_reads_back(
                text,
                at,
                rel32(fn_offset(env.start, env.fns, f).unwrap(), at as nat),
            );
        },
        FixupKind::Runtime(rt) => {
            splice32_reads_back(
                text,
                at,
                rel32(
                    routine_offset(env.routines_start(), env.routines, rt).unwrap(),
                    at as nat,
                ),
            );
        },
        FixupKind::Data(off) => {
            splice64_reads_back(text, at, (env.rodata + off) as u64);
        },
        FixupKind::State(off) => {
            splice64_reads_back(text, at, (env.state + off) as u64);
        },
        FixupKind::Local(_) => {},
    }
}

/// Two texts that agree on a hole resolve its fixup alike.
proof fn resolved_alike(env: LinkEnv, a: Seq<u8>, b: Seq<u8>, s: Site)
    requires
        resolved_at(env, a, s),
        forall|i: int| place(s) <= i < hole_end(s) ==> #[trigger] a[i] == b[i],
    ensures
        resolved_at(env, b, s),
{
    let at = place(s);
    match s.fixup.kind {
        FixupKind::Local(_) => {},
        FixupKind::Data(_) => {
            assert(rd32(a, at) == rd32(b, at));
            assert(rd32(a, at + 4) == rd32(b, at + 4));
        },
        FixupKind::State(_) => {
            assert(rd32(a, at) == rd32(b, at));
            assert(rd32(a, at + 4) == rd32(b, at + 4));
        },
        _ => {
            assert(rd32(a, at) == rd32(b, at));
        },
    }
}

/// Where all fixups are apart, each is resolved in the end, and nothing but their holes
/// changes.
pub proof fn all_resolved(env: LinkEnv, text: Seq<u8>, s: Seq<Site>)
    requires
        patch_all(env, text, s) is Ok,
        sites_between(s, 0, text.len() as int),
        sites_apart(s),
    ensures
        patch_all(env, text, s)->Ok_0.len() == text.len(),
        forall|k: int|
            0 <= k < s.len() ==> resolved_at(env, patch_all(env, text, s)->Ok_0, #[trigger] s[k]),
        forall|i: int|
            0 <= i < text.len() && (forall|k: int|
                0 <= k < s.len() ==> !(place(#[trigger] s[k]) <= i < hole_end(s[k])))
                ==> #[trigger] patch_all(env, text, s)->Ok_0[i] == text[i],
    decreases s.len(),
{
    patch_len(env, text, s);
    if s.len() > 0 {
        let s0 = s.drop_last();
        let last = s.last();
        assert(last == s[s.len() - 1]);
        assert forall|k: int| 0 <= k < s0.len() implies 0 <= place(#[trigger] s0[k]) && hole_end(
            s0[k],
        ) <= text.len() by {
            assert(s0[k] == s[k]);
        }
        assert forall|j: int, k: int| 0 <= j < k < s0.len() implies hole_end(#[trigger] s0[j])
            <= place(#[trigger] s0[k]) by {
            assert(s0[j] == s[j] && s0[k] == s[k]);
        }
        all_resolved(env, text, s0);
        let before = patch_all(env, text, s0)->Ok_0;
        patch_step(env, before, last);
        let after = patch_all(env, text, s)->Ok_0;
        assert forall|k: int| 0 <= k < s.len() implies resolved_at(env, after, #[trigger] s[k]) by {
            if k < s0.len() {
                assert(s0[k] == s[k]);
                assert(hole_end(s[k]) <= place(last));
                assert forall|i: int| place(s[k]) <= i < hole_end(s[k]) implies #[trigger] before[i]
                    == after[i] by {}
                resolved_alike(env, before, after, s[k]);
            }
        }
        assert forall|i: int|
            0 <= i < text.len() && (forall|k: int|
                0 <= k < s.len() ==> !(place(#[trigger] s[k]) <= i < hole_end(s[k])))
            implies #[trigger] after[i] == text[i] by {
            assert forall|k: int| 0 <= k < s0.len() implies !(place(#[trigger] s0[k]) <= i
                < hole_end(s0[k])) by {
                assert(s0[k] == s[k]);
            }
            assert(!(place(last) <= i < hole_end(last)));
            assert(before[i] == text[i]);
        }
    }
}

proof fn joined_apart(a: Seq<Site>, b: Seq<Site>, lo: int, mid: int, hi: int)
    requires
        sites_apart(a),
        sites_between(a, lo, mid),
        sites_apart(b),
        sites_between(b, mid, hi),
        lo <= mid <= hi,
    ensures
        sites_apart(a + b),
        sites_between(a + b, lo, hi),
{
    let s = a + b;
    assert forall|k: int| 0 <= k < s.len() implies lo <= place(#[trigger] s[k]) && hole_end(s[k])
        <= hi by {
        if k < a.len() {
            assert(s[k] == a[k]);
        } else {
            assert(s[k] == b[k - a.len()]);
        }
    }
    assert forall|j: int, k: int| 0 <= j < k < s.len() implies hole_end(#[trigger] s[j]) <= place(
        #[trigger] s[k],
    ) by {
        if k < a.len() {
            assert(s[j] == a[j] && s[k] == a[k]);
        } else if j < a.len() {
            assert(s[j] == a[j] && s[k] == b[k - a.len()]);
        } else {
            assert(s[j] == b[j - a.len()] && s[k] == b[k - a.len()]);
        }
    }
}

proof fn sites_at_apart(base: nat, f: Seq<Fixup>, len: nat)
    requires
        apart(f),
        forall|k: int| 0 <= k < f.len() ==> (#[trigger] f[k]).at + hole_width(f[k].kind) <= len,
    ensures
        sites_apart(sites_at(base, f)),
        sites_between(sites_at(base, f), base as int, (base + len) as int),
{
    let s = sites_at(base, f);
    assert forall|k: int| 0 <= k < s.len() implies base <= place(#[trigger] s[k]) && hole_end(s[k])
        <= base + len by {
        assert(s[k].fixup == f[k]);
    }
    assert forall|j: int, k: int| 0 <= j < k < s.len() implies hole_end(#[trigger] s[j]) <= place(
        #[trigger] s[k],
    ) by {
        assert(s[j].fixup == f[j] && s[k].fixup == f[k]);
    }
}

proof fn fn_sites_apart(start: nat, l: Seq<LoweredView>)
    requires
        all_within(l),
        all_apart(l),
    ensures
        sites_apart(fn_sites(start, l)),
        sites_between(fn_sites(start, l), start as int, (start + codes(l).len()) as int),
    decreases l.len(),
{
    if l.len() > 0 {
        let l0 = l.drop_last();
        let last = l.last();
        assert(last == l[l.len() - 1]);
        assert forall|i: int| 0 <= i < l0.len() implies crate::link::within(
            (#[trigger] l0[i]).code,
            l0[i].fixups,
        ) && apart(l0[i].fixups) by {
            assert(l0[i] == l[i]);
        }
        fn_sites_apart(start, l0);
        let mid = start + codes(l0).len();
        sites_at_apart(mid, last.fixups, last.code.len());
        joined_apart(
            fn_sites(start, l0),
            sites_at(mid, last.fixups),
            start as int,
            mid as int,
            (mid + last.code.len()) as int,
        );
    }
}

proof fn routine_sites_apart(start: nat, l: Seq<RoutineView>)
    requires
        routines_within(l),
        routines_apart(l),
    ensures
        sites_apart(routine_sites(start, l)),
        sites_between(
            routine_sites(start, l),
            start as int,
            (start + routine_codes(l).len()) as int,
        ),
    decreases l.len(),
{
    if l.len() > 0 {
        let l0 = l.drop_last();
        let last = l.last();
        assert(last == l[l.len() - 1]);
        assert forall|i: int| 0 <= i < l0.len() implies crate::link::within(
            (#[trigger] l0[i]).code,
            l0[i].fixups,
        ) && apart(l0[i].fixups) by {
            assert(l0[i] == l[i]);
        }
        routine_sites_apart(start, l0);
        let mid = start + routine_codes(l0).len();
        sites_at_apart(mid, last.fixups, last.code.len());
        joined_apart(
            routine_sites(start, l0),
            sites_at(mid, last.fixups),
            start as int,
            mid as int,
            (mid + last.code.len()) as int,
        );
    }
}

proof fn start_fixups_apart(main: FnId, needs: bool, rng_state: u32, reg_next: u32)
    ensures
        apart(start_fixups(main, needs, rng_state, reg_next)),
{
    let a = start_state(main, needs, rng_state, reg_next);
    start_instrs_ok(main, needs, rng_state, reg_next);
    crate::peephole::optimize_keeps(a.instrs);
    let t = a.peephole().instrs;
    let fx = fixups_of(t);
    assert forall|j: int, k: int| 0 <= j < k < fx.len() implies (#[trigger] fx[j]).at + hole_width(
        fx[j].kind,
    ) <= (#[trigger] fx[k]).at by {
        crate::encode::holes_disjoint(t, j, k);
    }
    outer_apart(fx);
}

/// The fixups of a whole program stand in order, apart and within the text.
pub proof fn program_sites_apart(
    main: FnId,
    fns: Seq<LoweredView>,
    routines: Seq<RoutineView>,
    rng_state: u32,
    reg_next: u32,
    rodata_len: nat,
)
    requires
        all_within(fns),
        all_apart(fns),
        routines_within(routines),
        routines_apart(routines),
    ensures
        ({
            let env = program_env(main, fns, routines, rng_state, reg_next, rodata_len);
            let s = program_sites(main, env, needs_runtime(fns), rng_state, reg_next);
            &&& sites_apart(s)
            &&& sites_between(
                s,
                0,
                raw_text(main, fns, routines, rng_state, reg_next).len() as int,
            )
        }),
{
    let needs = needs_runtime(fns);
    let env = program_env(main, fns, routines, rng_state, reg_next, rodata_len);
    let f = start_fixups(main, needs, rng_state, reg_next);
    start_code_short(main, needs, rng_state, reg_next);
    start_fixups_apart(main, needs, rng_state, reg_next);
    sites_at_apart(0, f, env.start);
    fn_sites_apart(env.start, fns);
    let a = sites_at(0, f);
    let b = fn_sites(env.start, fns);
    joined_apart(a, b, 0, env.start as int, env.routines_start() as int);
    let c = routine_sites(env.routines_start(), env.routines);
    routine_sites_apart(env.routines_start(), env.routines);
    joined_apart(
        a + b,
        c,
        0,
        env.routines_start() as int,
        (env.routines_start() + routine_codes(env.routines).len()) as int,
    );
}

/// In the text of a linked program every fixup of every function is resolved: a call goes
/// to where its callee stands, a reference holds the address of its data.
pub proof fn linked_fixups_resolved(
    main: FnId,
    fns: Seq<LoweredView>,
    routines: Seq<RoutineView>,
    rng_state: u32,
    reg_next: u32,
    rodata_len: nat,
    i: int,
    k: int,
)
    requires
        all_within(fns),
        all_apart(fns),
        routines_within(routines),
        routines_apart(routines),
        program_text(main, fns, routines, rng_state, reg_next, rodata_len) is Ok,
        0 <= i < fns.len(),
        0 <= k < fns[i].fixups.len(),
    ensures
        ({
            let env = program_env(main, fns, routines, rng_state, reg_next, rodata_len);
            resolved_at(
                env,
                program_text(main, fns, routines, rng_state, reg_next, rodata_len)->Ok_0,
                Site {
                    base: env.start + codes(fns.take(i)).len(),
                    fixup: fns[i].fixups[k],
                },
            )
        }),
{
    let env = program_env(main, fns, routines, rng_state, reg_next, rodata_len);
    let s = program_sites(main, env, needs_runtime(fns), rng_state, reg_next);
    program_sites_apart(main, fns, routines, rng_state, reg_next, rodata_len);
    all_resolved(env, raw_text(main, fns, routines, rng_state, reg_next), s);
    let a = sites_at(0, start_fixups(main, needs_runtime(fns), rng_state, reg_next));
    let at = fn_site_found(env.start, fns, i, k);
    assert(s[a.len() + at] == fn_sites(env.start, fns)[at]);
}

pub(crate) proof fn fn_site_found(start: nat, l: Seq<LoweredView>, i: int, k: int) -> (at: int)
    requires
        0 <= i < l.len(),
        0 <= k < l[i].fixups.len(),
    ensures
        0 <= at < fn_sites(start, l).len(),
        fn_sites(start, l)[at] == (Site {
            base: start + codes(l.take(i)).len(),
            fixup: l[i].fixups[k],
        }),
    decreases l.len(),
{
    let l0 = l.drop_last();
    if i < l0.len() {
        assert(l0[i] == l[i]);
        assert(l0.take(i) =~= l.take(i));
        fn_site_found(start, l0, i, k)
    } else {
        assert(l0 =~= l.take(i));
        assert(l.last() == l[i]);
        fn_sites(start, l0).len() as int + k
    }
}

/// In the text of a linked program the code of every function stands at its offset, byte
/// by byte but for the holes of its fixups.
pub proof fn linked_code_in_place(
    main: FnId,
    fns: Seq<LoweredView>,
    routines: Seq<RoutineView>,
    rng_state: u32,
    reg_next: u32,
    rodata_len: nat,
    i: int,
    b: int,
)
    requires
        all_within(fns),
        all_apart(fns),
        routines_within(routines),
        routines_apart(routines),
        program_text(main, fns, routines, rng_state, reg_next, rodata_len) is Ok,
        0 <= i < fns.len(),
        0 <= b < fns[i].code.len(),
        forall|k: int|
            0 <= k < fns[i].fixups.len() ==> !((#[trigger] fns[i].fixups[k]).at <= b
                < fns[i].fixups[k].at + hole_width(fns[i].fixups[k].kind)),
    ensures
        ({
            let env = program_env(main, fns, routines, rng_state, reg_next, rodata_len);
            let off = env.start + codes(fns.take(i)).len();
            program_text(main, fns, routines, rng_state, reg_next, rodata_len)->Ok_0[off + b]
                == fns[i].code[b]
        }),
{
    let env = program_env(main, fns, routines, rng_state, reg_next, rodata_len);
    let raw = raw_text(main, fns, routines, rng_state, reg_next);
    let s = program_sites(main, env, needs_runtime(fns), rng_state, reg_next);
    program_sites_apart(main, fns, routines, rng_state, reg_next, rodata_len);
    all_resolved(env, raw, s);
    let off = env.start + codes(fns.take(i)).len();
    code_in_codes(fns, i, b);
    assert(raw[off + b] == fns[i].code[b]);
    assert forall|n: int| 0 <= n < s.len() implies !(place(#[trigger] s[n]) <= off + b < hole_end(
        s[n],
    )) by {
        let a = sites_at(0, start_fixups(main, needs_runtime(fns), rng_state, reg_next));
        let f = fn_sites(env.start, fns);
        let c = routine_sites(env.routines_start(), env.routines);
        if n < a.len() {
            start_code_short(main, needs_runtime(fns), rng_state, reg_next);
            assert(s[n] == a[n]);
            assert(a[n].fixup == start_fixups(main, needs_runtime(fns), rng_state, reg_next)[n]);
        } else if n < a.len() + f.len() {
            assert(s[n] == f[n - a.len()]);
            fn_site_misses(env.start, fns, i, b, n - a.len());
        } else {
            assert(s[n] == c[n - a.len() - f.len()]);
            routine_sites_apart(env.routines_start(), env.routines);
        }
    }
}

proof fn code_in_codes(l: Seq<LoweredView>, i: int, b: int)
    requires
        0 <= i < l.len(),
        0 <= b < l[i].code.len(),
    ensures
        codes(l.take(i)).len() + b < codes(l).len(),
        codes(l)[codes(l.take(i)).len() + b] == l[i].code[b],
    decreases l.len(),
{
    let l0 = l.drop_last();
    if i < l0.len() {
        assert(l0[i] == l[i]);
        assert(l0.take(i) =~= l.take(i));
        code_in_codes(l0, i, b);
    } else {
        assert(l0 =~= l.take(i));
        assert(l.last() == l[i]);
    }
}

proof fn fn_site_misses(start: nat, l: Seq<LoweredView>, i: int, b: int, n: int)
    requires
        all_within(l),
        all_apart(l),
        0 <= i < l.len(),
        0 <= b < l[i].code.len(),
        forall|k: int|
            0 <= k < l[i].fixups.len() ==> !((#[trigger] l[i].fixups[k]).at <= b
                < l[i].fixups[k].at + hole_width(l[i].fixups[k].kind)),
        0 <= n < fn_sites(start, l).len(),
    ensures
        !(place(fn_sites(start, l)[n]) <= start + codes(l.take(i)).len() + b < hole_end(
            fn_sites(start, l)[n],
        )),
    decreases l.len(),
{
    let l0 = l.drop_last();
    let last = l.last();
    assert(last == l[l.len() - 1]);
    assert forall|j: int| 0 <= j < l0.len() implies crate::link::within(
        (#[trigger] l0[j]).code,
        l0[j].fixups,
    ) && apart(l0[j].fixups) by {
        assert(l0[j] == l[j]);
    }
    let mid = start + codes(l0).len();
    let before = fn_sites(start, l0);
    let f = sites_at(mid, last.fixups);
    if i < l0.len() {
        assert(l0[i] == l[i]);
        assert(l0.take(i) =~= l.take(i));
        code_in_codes(l0, i, b);
        if n < before.len() {
            assert(fn_sites(start, l)[n] == before[n]);
            fn_site_misses(start, l0, i, b, n);
        } else {
            assert(fn_sites(start, l)[n] == f[n - before.len()]);
        }
    } else {
        assert(l0 =~= l.take(i));
        assert(last == l[i]);
        if n < before.len() {
            assert(fn_sites(start, l)[n] == before[n]);
            fn_sites_apart(start, l0);
        } else {
            assert(fn_sites(start, l)[n] == f[n - before.len()]);
            assert(f[n - before.len()].fixup == last.fixups[n - before.len()]);
        }
    }
}

} // verus!
