//! What holds of linked AArch64 programs: every call is a branch to its callee, and every
//! reference a move of the address of its data.
use vstd::prelude::*;

use crate::aarch64::encode::{lane, sites_in_order};
use crate::aarch64::link::{
    A64Env, all_within, branch26, patch, patch_all, program_env, program_text, raw_text, site_width,
    start_state, start_state_facts, with_imm16, with_lanes,
};
use crate::bytes::{rd32, splice32_reads_back};
use crate::encode::{Fixup, FixupKind};
use crate::link::{LoweredView, Site, codes, fn_offset, fn_sites, sites_at};
use crate::linked::place;
use crate::mir_ids::FnId;

verus! {

/// Whether the fixups of every function are in order.
pub open spec fn all_in_order(l: Seq<LoweredView>) -> bool {
    forall|i: int| 0 <= i < l.len() ==> sites_in_order((#[trigger] l[i]).fixups)
}

/// Where the words of a fixup end.
pub open spec fn site_end(s: Site) -> int {
    place(s) + site_width(s.fixup.kind)
}

/// Whether fixups stand in order and none reaches into the next.
pub open spec fn in_order(s: Seq<Site>) -> bool {
    forall|j: int, k: int|
        0 <= j < k < s.len() ==> site_end(#[trigger] s[j]) <= place(#[trigger] s[k])
}

/// Whether all fixups stand between two offsets.
pub open spec fn between(s: Seq<Site>, lo: int, hi: int) -> bool {
    forall|k: int| 0 <= k < s.len() ==> lo <= place(#[trigger] s[k]) && site_end(s[k]) <= hi
}

/// Whether the four moves at `at` in `text` are those in `raw` with the lanes of `value`.
pub open spec fn moves_value(raw: Seq<u8>, text: Seq<u8>, at: int, value: u64) -> bool {
    &&& rd32(text, at) == with_imm16(rd32(raw, at), lane(value, 0))
    &&& rd32(text, at + 4) == with_imm16(rd32(raw, at + 4), lane(value, 1))
    &&& rd32(text, at + 8) == with_imm16(rd32(raw, at + 8), lane(value, 2))
    &&& rd32(text, at + 12) == with_imm16(rd32(raw, at + 12), lane(value, 3))
}

/// Whether a fixup of the unresolved text `raw` is resolved in `text`.
pub open spec fn resolved_at(env: A64Env, raw: Seq<u8>, text: Seq<u8>, s: Site) -> bool {
    match s.fixup.kind {
        FixupKind::Call(f) => fn_offset(env.start, env.fns, f) is Some && rd32(text, place(s))
            == branch26(
            rd32(raw, place(s)),
            place(s),
            fn_offset(env.start, env.fns, f).unwrap() as int,
        ),
        FixupKind::Data(off) => moves_value(raw, text, place(s), (env.rodata + off) as u64),
        FixupKind::State(off) => moves_value(raw, text, place(s), (env.state + off) as u64),
        _ => true,
    }
}

proof fn lanes_step(text: Seq<u8>, at: int, value: u64)
    requires
        0 <= at,
        at + 16 <= text.len(),
    ensures
        moves_value(text, with_lanes(text, at, value, 4), at, value),
        with_lanes(text, at, value, 4).len() == text.len(),
        forall|i: int|
            0 <= i < text.len() && !(at <= i < at + 16) ==> (#[trigger] with_lanes(
                text,
                at,
                value,
                4,
            )[i])
                == text[i],
{
    reveal_with_fuel(with_lanes, 5);
    let t0 = text;
    let w0 = with_imm16(rd32(t0, at), lane(value, 0));
    splice32_reads_back(t0, at, w0);
    let t1 = with_lanes(text, at, value, 1);
    let w1 = with_imm16(rd32(t1, at + 4), lane(value, 1));
    splice32_reads_back(t1, at + 4, w1);
    let t2 = with_lanes(text, at, value, 2);
    let w2 = with_imm16(rd32(t2, at + 8), lane(value, 2));
    splice32_reads_back(t2, at + 8, w2);
    let t3 = with_lanes(text, at, value, 3);
    let w3 = with_imm16(rd32(t3, at + 12), lane(value, 3));
    splice32_reads_back(t3, at + 12, w3);
    let t4 = with_lanes(text, at, value, 4);
    assert(rd32(t1, at + 4) == rd32(text, at + 4));
    assert(rd32(t2, at + 8) == rd32(text, at + 8));
    assert(rd32(t3, at + 12) == rd32(text, at + 12));
    assert(rd32(t4, at) == rd32(t1, at));
    assert(rd32(t4, at + 4) == rd32(t2, at + 4));
    assert(rd32(t4, at + 8) == rd32(t3, at + 8));
}

proof fn patch_step(env: A64Env, text: Seq<u8>, s: Site)
    requires
        patch(env, text, s) is Ok,
        site_end(s) <= text.len(),
    ensures
        resolved_at(env, text, patch(env, text, s)->Ok_0, s),
        patch(env, text, s)->Ok_0.len() == text.len(),
        forall|i: int|
            0 <= i < text.len() && !(place(s) <= i < site_end(s)) ==> (#[trigger] patch(
                env,
                text,
                s,
            )->Ok_0[i])
                == text[i],
{
    let at = place(s);
    match s.fixup.kind {
        FixupKind::Call(f) => {
            splice32_reads_back(
                text,
                at,
                branch26(
                    rd32(text, at),
                    at,
                    fn_offset(env.start, env.fns, f).unwrap() as int,
                ),
            );
        },
        FixupKind::Data(off) => {
            lanes_step(text, at, (env.rodata + off) as u64);
        },
        FixupKind::State(off) => {
            lanes_step(text, at, (env.state + off) as u64);
        },
        _ => {},
    }
}

/// Texts that agree on the words of a fixup resolve it alike.
proof fn resolved_alike(env: A64Env, raw: Seq<u8>, raw2: Seq<u8>, a: Seq<u8>, b: Seq<u8>, s: Site)
    requires
        resolved_at(env, raw, a, s),
        forall|i: int| place(s) <= i < site_end(s) ==> #[trigger] a[i] == b[i],
        forall|i: int| place(s) <= i < site_end(s) ==> #[trigger] raw[i] == raw2[i],
    ensures
        resolved_at(env, raw2, b, s),
{
    let at = place(s);
    assert(rd32(a, at) == rd32(b, at) && rd32(raw, at) == rd32(raw2, at));
    if site_width(s.fixup.kind) == 16 {
        assert(rd32(a, at + 4) == rd32(b, at + 4) && rd32(raw, at + 4) == rd32(raw2, at + 4));
        assert(rd32(a, at + 8) == rd32(b, at + 8) && rd32(raw, at + 8) == rd32(raw2, at + 8));
        assert(rd32(a, at + 12) == rd32(b, at + 12) && rd32(raw, at + 12) == rd32(raw2, at + 12));
    }
}

/// Where all fixups are in order, each is resolved in the end, and nothing but their words
/// changes.
pub proof fn all_resolved(env: A64Env, raw: Seq<u8>, s: Seq<Site>)
    requires
        patch_all(env, raw, s) is Ok,
        between(s, 0, raw.len() as int),
        in_order(s),
    ensures
        patch_all(env, raw, s)->Ok_0.len() == raw.len(),
        forall|k: int|
            0 <= k < s.len() ==> resolved_at(
                env,
                raw,
                patch_all(env, raw, s)->Ok_0,
                #[trigger] s[k],
            ),
        forall|i: int|
            0 <= i < raw.len() && (forall|k: int|
                0 <= k < s.len() ==> !(place(#[trigger] s[k]) <= i < site_end(s[k])))
                ==> #[trigger] patch_all(env, raw, s)->Ok_0[i] == raw[i],
    decreases s.len(),
{
    if s.len() > 0 {
        let s0 = s.drop_last();
        let last = s.last();
        assert(last == s[s.len() - 1]);
        assert forall|k: int| 0 <= k < s0.len() implies 0 <= place(#[trigger] s0[k]) && site_end(
            s0[k],
        ) <= raw.len() by {
            assert(s0[k] == s[k]);
        }
        assert forall|j: int, k: int| 0 <= j < k < s0.len() implies site_end(#[trigger] s0[j])
            <= place(#[trigger] s0[k]) by {
            assert(s0[j] == s[j] && s0[k] == s[k]);
        }
        all_resolved(env, raw, s0);
        let before = patch_all(env, raw, s0)->Ok_0;
        patch_step(env, before, last);
        let after = patch_all(env, raw, s)->Ok_0;
        assert forall|k: int| 0 <= k < s.len() implies resolved_at(
            env,
            raw,
            after,
            #[trigger] s[k],
        ) by {
            if k < s0.len() {
                assert(s0[k] == s[k]);
                assert(site_end(s[k]) <= place(last));
                resolved_alike(env, raw, raw, before, after, s[k]);
            } else {
                assert forall|i: int| place(last) <= i < site_end(last) implies #[trigger] before[i]
                    == raw[i] by {
                    assert forall|j: int| 0 <= j < s0.len() implies !(place(#[trigger] s0[j]) <= i
                        < site_end(s0[j])) by {
                        assert(s0[j] == s[j]);
                        assert(site_end(s[j]) <= place(last));
                    }
                }
                resolved_alike(env, before, raw, after, after, last);
            }
        }
        assert forall|i: int|
            0 <= i < raw.len() && (forall|k: int|
                0 <= k < s.len() ==> !(place(#[trigger] s[k]) <= i < site_end(s[k])))
            implies #[trigger] after[i] == raw[i] by {
            assert forall|k: int| 0 <= k < s0.len() implies !(place(#[trigger] s0[k]) <= i
                < site_end(s0[k])) by {
                assert(s0[k] == s[k]);
            }
            assert(!(place(last) <= i < site_end(last)));
            assert(before[i] == raw[i]);
        }
    }
}

proof fn joined_in_order(a: Seq<Site>, b: Seq<Site>, lo: int, mid: int, hi: int)
    requires
        in_order(a),
        between(a, lo, mid),
        in_order(b),
        between(b, mid, hi),
        lo <= mid <= hi,
    ensures
        in_order(a + b),
        between(a + b, lo, hi),
{
    let s = a + b;
    assert forall|k: int| 0 <= k < s.len() implies lo <= place(#[trigger] s[k]) && site_end(s[k])
        <= hi by {
        if k < a.len() {
            assert(s[k] == a[k]);
        } else {
            assert(s[k] == b[k - a.len()]);
        }
    }
    assert forall|j: int, k: int| 0 <= j < k < s.len() implies site_end(#[trigger] s[j]) <= place(
        #[trigger] s[k],
    ) by {
        if k < a.len() {
            assert(s[j] == a[j] && s[k] == a[k]);
        } else if j < a.len() {
            assert(s[j] == a[j] && s[k] == b[k - a.len()]);
        } else {
            assert(s[j] == b[j - a.len()] && s[k] == b[k - a.len()]);
        }
    }
}

proof fn sites_at_in_order(base: nat, f: Seq<Fixup>, len: nat)
    requires
        sites_in_order(f),
        forall|k: int| 0 <= k < f.len() ==> (#[trigger] f[k]).at + site_width(f[k].kind) <= len,
    ensures
        in_order(sites_at(base, f)),
        between(sites_at(base, f), base as int, (base + len) as int),
{
    let s = sites_at(base, f);
    assert forall|k: int| 0 <= k < s.len() implies base <= place(#[trigger] s[k]) && site_end(s[k])
        <= base + len by {
        assert(s[k].fixup == f[k]);
    }
    assert forall|j: int, k: int| 0 <= j < k < s.len() implies site_end(#[trigger] s[j]) <= place(
        #[trigger] s[k],
    ) by {
        assert(s[j].fixup == f[j] && s[k].fixup == f[k]);
    }
}

proof fn fn_sites_in_order(start: nat, l: Seq<LoweredView>)
    requires
        all_within(l),
        all_in_order(l),
    ensures
        in_order(fn_sites(start, l)),
        between(fn_sites(start, l), start as int, (start + codes(l).len()) as int),
    decreases l.len(),
{
    if l.len() > 0 {
        let l0 = l.drop_last();
        let last = l.last();
        let n = l.len() - 1;
        assert(last == l[n]);
        assert forall|i: int| 0 <= i < l0.len() implies sites_in_order(
            (#[trigger] l0[i]).fixups,
        ) by {
            assert(l0[i] == l[i]);
        }
        assert forall|i: int, k: int| 0 <= i < l0.len() && 0 <= k < l0[i].fixups.len() implies (
        #[trigger] l0[i].fixups[k]).at + site_width(l0[i].fixups[k].kind) <= l0[i].code.len() by {
            assert(l[i].fixups[k] == l0[i].fixups[k]);
        }
        fn_sites_in_order(start, l0);
        let mid = start + codes(l0).len();
        assert forall|k: int| 0 <= k < last.fixups.len() implies (#[trigger] last.fixups[k]).at
            + site_width(last.fixups[k].kind) <= last.code.len() by {
            assert(l[n].fixups[k] == last.fixups[k]);
        }
        sites_at_in_order(mid, last.fixups, last.code.len());
        joined_in_order(
            fn_sites(start, l0),
            sites_at(mid, last.fixups),
            start as int,
            mid as int,
            (mid + last.code.len()) as int,
        );
    }
}

/// In the text of a linked program every fixup of every function is resolved: a call is a
/// branch to where its callee stands, a reference a move of the address of its data.
pub proof fn linked_fixups_resolved(
    main: FnId,
    fns: Seq<LoweredView>,
    rodata_len: nat,
    i: int,
    k: int,
)
    requires
        all_within(fns),
        all_in_order(fns),
        program_text(main, fns, rodata_len) is Ok,
        0 <= i < fns.len(),
        0 <= k < fns[i].fixups.len(),
    ensures
        ({
            let env = program_env(main, fns, rodata_len);
            resolved_at(
                env,
                raw_text(main, fns),
                program_text(main, fns, rodata_len)->Ok_0,
                Site {
                    base: env.start + codes(fns.take(i)).len(),
                    fixup: fns[i].fixups[k],
                },
            )
        }),
{
    let env = program_env(main, fns, rodata_len);
    let f = start_state(main).fixups;
    let a = sites_at(0, f);
    let b = fn_sites(env.start, fns);
    let s = a + b;
    start_state_facts(main);
    assert forall|j: int| 0 <= j < f.len() implies (#[trigger] f[j]).at + site_width(f[j].kind)
        <= env.start by {
        assert(a[j].fixup == f[j]);
    }
    assert(sites_in_order(f));
    sites_at_in_order(0, f, env.start);
    fn_sites_in_order(env.start, fns);
    joined_in_order(a, b, 0, env.start as int, (env.start + codes(fns).len()) as int);
    all_resolved(env, raw_text(main, fns), s);
    let at = crate::linked::fn_site_found(env.start, fns, i, k);
    assert(s[a.len() + at] == b[at]);
}

} // verus!
