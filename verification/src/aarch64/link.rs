//! Stitching lowered AArch64 functions into a program.
use std::collections::HashMap;

use vstd::prelude::*;

use crate::aarch64::encode::{A64State, Aarch64Asm, Reg, lane};
use crate::bytes::{push_all, rd32, splice32, write32};
use crate::elf::{
    ElfImage, LOAD_BASE, TEXT_VADDR, elf_file, rodata_off, rodata_vaddr_for, state_off,
    state_vaddr_for, write_elf_for,
};
use crate::encode::{Fixup, FixupKind};
use crate::link::{
    LoweredFn, LoweredView, Site, code_bytes, codes, entry_of, find_main, fn_offset, fn_sites,
    fn_table, lowered_need, lowered_views, needs_runtime, place_functions, sites_at, too_large,
    too_large_message,
};
use crate::mir::MirProgram;
use crate::mir_ids::FnId;
use crate::target::{AARCH64_EXIT_GROUP, Target};
use crate::{CodegenError, RoData, unsupported};

verus! {

broadcast use vstd::std_specs::hash::group_hash_axioms;

/// `d / 4`, rounded towards zero.
pub open spec fn quarter(d: int) -> int {
    if d >= 0 {
        d / 4
    } else {
        -((-d) / 4)
    }
}

/// A branch word with its 26-bit displacement from `site` to `target`.
pub open spec fn branch26(base: int, site: int, target: int) -> u32 {
    (base / 0x400_0000 * 0x400_0000 + quarter(target - site) % 0x400_0000) as u32
}

/// A `movz` or `movk` word with its 16-bit immediate replaced.
pub open spec fn with_imm16(base: int, imm: u16) -> u32 {
    (base - base / 32 % 0x1_0000 * 32 + imm * 32) as u32
}

/// `text` with the immediates of the `n` moves at `site` set to the lanes of `value`.
pub open spec fn with_lanes(text: Seq<u8>, site: int, value: u64, n: int) -> Seq<u8>
    decreases n,
{
    if n <= 0 {
        text
    } else {
        let before = with_lanes(text, site, value, n - 1);
        let at = site + 4 * (n - 1);
        splice32(before, at, with_imm16(rd32(before, at), lane(value, n - 1)))
    }
}

/// How many bytes a fixup covers.
pub open spec fn site_width(kind: FixupKind) -> nat {
    match kind {
        FixupKind::Data(_) | FixupKind::State(_) => 16,
        _ => 4,
    }
}

/// What fixups are resolved against.
pub struct A64Env {
    pub start: nat,
    pub fns: Seq<LoweredView>,
    pub rodata: u64,
    pub state: u64,
}

/// `text` with one fixup resolved, or why it cannot be.
pub open spec fn patch(env: A64Env, text: Seq<u8>, s: Site) -> Result<Seq<u8>, Seq<char>> {
    let at = s.base + s.fixup.at;
    match s.fixup.kind {
        FixupKind::Call(f) => match fn_offset(env.start, env.fns, f) {
            Some(t) => Ok(
                splice32(text, at as int, branch26(rd32(text, at as int), at as int, t as int)),
            ),
            None => Err("call to an unknown fn"@),
        },
        FixupKind::Data(off) => Ok(with_lanes(text, at as int, (env.rodata + off) as u64, 4)),
        FixupKind::State(off) => Ok(with_lanes(text, at as int, (env.state + off) as u64, 4)),
        FixupKind::Runtime(_) => Err("aarch64 runtime call was not refused"@),
        FixupKind::Local(_) => Ok(text),
    }
}

/// `text` with all fixups resolved in order, or the first failure.
pub open spec fn patch_all(env: A64Env, text: Seq<u8>, s: Seq<Site>) -> Result<Seq<u8>, Seq<char>>
    decreases s.len(),
{
    if s.len() == 0 {
        Ok(text)
    } else {
        match patch_all(env, text, s.drop_last()) {
            Ok(t) => patch(env, t, s.last()),
            Err(e) => Err(e),
        }
    }
}

/// The entry code: call `main` with a null token, exit with its result.
pub open spec fn start_state(main: FnId) -> A64State {
    A64State::empty().reserve_labels(0).mov_imm(Reg(0), 0).bl_fn(main).mov_imm(
        Reg(8),
        AARCH64_EXIT_GROUP,
    ).svc0()
}

/// The unresolved text of a program.
pub open spec fn raw_text(main: FnId, fns: Seq<LoweredView>) -> Seq<u8> {
    start_state(main).code + codes(fns)
}

/// What the fixups of a program are resolved against.
pub open spec fn program_env(main: FnId, fns: Seq<LoweredView>, rodata_len: nat) -> A64Env {
    let n = raw_text(main, fns).len() as int;
    A64Env {
        start: start_state(main).code.len(),
        fns,
        rodata: (LOAD_BASE + rodata_off(n)) as u64,
        state: (LOAD_BASE + state_off(n, rodata_len as int)) as u64,
    }
}

/// The text of a program, or why it cannot be linked.
pub open spec fn program_text(main: FnId, fns: Seq<LoweredView>, rodata_len: nat) -> Result<
    Seq<u8>,
    Seq<char>,
> {
    let env = program_env(main, fns, rodata_len);
    patch_all(
        env,
        raw_text(main, fns),
        sites_at(0, start_state(main).fixups) + fn_sites(env.start, fns),
    )
}

/// The message for a program that needs the runtime.
pub open spec fn no_runtime_message() -> Seq<char> {
    "the *System heap runtime is not yet ported to aarch64; cross-compile hello-class programs or use the x86-64 backend / VM"@
}

/// Whether the fixups of every function lie within its code.
pub open spec fn all_within(l: Seq<LoweredView>) -> bool {
    forall|i: int, k: int|
        0 <= i < l.len() && 0 <= k < l[i].fixups.len() ==> (#[trigger] l[i].fixups[k]).at
            + site_width(l[i].fixups[k].kind) <= l[i].code.len()
}

/// Whether every fixup lies within `n` bytes.
pub open spec fn sites_within(s: Seq<Site>, n: nat) -> bool {
    forall|k: int|
        0 <= k < s.len() ==> (#[trigger] s[k]).base + s[k].fixup.at + site_width(s[k].fixup.kind)
            <= n
}

fn build_start_shim(main: FnId) -> (a: Aarch64Asm)
    ensures
        a.wf(),
        a@ == start_state(main),
{
    let mut a = Aarch64Asm::new();
    a.reserve_labels(0);
    a.mov_imm(Reg(0), 0);
    a.bl_fn(main);
    a.mov_imm(Reg(8), AARCH64_EXIT_GROUP);
    a.svc0();
    a
}

fn read_word(text: &Vec<u8>, at: usize) -> (r: u32)
    requires
        at + 4 <= text@.len(),
    ensures
        r == rd32(text@, at as int),
{
    let _len: usize = text.len();
    text[at] as u32 + 0x100 * (text[at + 1] as u32) + 0x1_0000 * (text[at + 2] as u32) + 0x100_0000
        * (text[at + 3] as u32)
}

fn patch_branch26(text: &mut Vec<u8>, site: usize, target: usize)
    requires
        site + 4 <= old(text)@.len(),
    ensures
        final(text)@ == splice32(
            old(text)@,
            site as int,
            branch26(rd32(old(text)@, site as int), site as int, target as int),
        ),
{
    let base: u32 = read_word(text, site);
    let imm: u32 = if target >= site {
        (((target - site) / 4) as u64 % 0x400_0000) as u32
    } else {
        let back: u64 = ((site - target) / 4) as u64 % 0x400_0000;
        ((0x400_0000 - back) % 0x400_0000) as u32
    };
    proof {
        let d = target - site;
        if d < 0 {
            let q = (-d) / 4;
            assert((0x400_0000 - q % 0x400_0000) % 0x400_0000 == (-q) % 0x400_0000);
        }
        assert(imm == quarter(d) % 0x400_0000);
    }
    write32(text, site, base / 0x400_0000 * 0x400_0000 + imm);
}

fn lane_of(v: u64, i: usize) -> (r: u16)
    requires
        i < 4,
    ensures
        r == lane(v, i as int),
{
    if i == 0 {
        (v % 0x1_0000) as u16
    } else if i == 1 {
        (v / 0x1_0000 % 0x1_0000) as u16
    } else if i == 2 {
        (v / 0x1_0000_0000 % 0x1_0000) as u16
    } else {
        (v / 0x1_0000_0000_0000) as u16
    }
}

fn set_imm16(base: u32, imm: u16) -> (r: u32)
    ensures
        r == with_imm16(base as int, imm),
{
    base - base / 32 % 0x1_0000 * 32 + (imm as u32) * 32
}

/// Fills the four sixteen-bit lanes of the moves at `site` with the parts of `value`.
pub fn patch_movz_movk(text: &mut Vec<u8>, site: usize, value: u64)
    requires
        site + 16 <= old(text)@.len(),
    ensures
        final(text)@ == with_lanes(old(text)@, site as int, value, 4),
        final(text)@.len() == old(text)@.len(),
{
    let _len: usize = text.len();
    let mut i: usize = 0;
    while i < 4
        invariant
            i <= 4,
            site + 16 <= text@.len(),
            text@.len() == old(text)@.len(),
            text@.len() <= usize::MAX,
            text@ == with_lanes(old(text)@, site as int, value, i as int),
        decreases 4 - i,
    {
        let at: usize = site + 4 * i;
        let base: u32 = read_word(text, at);
        let w: u32 = set_imm16(base, lane_of(value, i));
        write32(text, at, w);
        i = i + 1;
    }
}

/// Where offsets are looked up while patching.
struct Tables {
    fns: HashMap<u32, usize>,
    rodata: u64,
    state: u64,
}

impl Tables {
    spec fn of(&self, env: A64Env) -> bool {
        &&& fn_table(self.fns@, env.start, env.fns)
        &&& self.rodata == env.rodata
        &&& self.state == env.state
        &&& env.rodata <= 0x7FFF_FFFF_FFFF_FFFF
        &&& env.state <= 0x7FFF_FFFF_FFFF_FFFF
    }
}

fn patch_fixup(
    text: &mut Vec<u8>,
    base: usize,
    fx: Fixup,
    tables: &Tables,
    env: Ghost<A64Env>,
) -> (r:
    Result<(), CodegenError>)
    requires
        tables.of(env@),
        base + fx.at + site_width(fx.kind) <= old(text)@.len(),
    ensures
        ({
            let p = patch(env@, old(text)@, Site { base: base as nat, fixup: fx });
            match r {
                Ok(_) => p == Ok::<Seq<u8>, Seq<char>>(final(text)@) && final(text)@.len() == old(
                    text,
                )@.len(),
                Err(e) => p is Err && e.unsupported(p->Err_0),
            }
        }),
{
    let _len: usize = text.len();
    let site: usize = base + fx.at;
    match fx.kind {
        FixupKind::Call(callee) => {
            assert(tables.fns@.contains_key(callee.0) <==> fn_offset(
                env@.start,
                env@.fns,
                FnId(callee.0),
            ) is Some);
            match tables.fns.get(&callee.0) {
                Some(target) => {
                    patch_branch26(text, site, *target);
                },
                None => {
                    return Err(unsupported("call to an unknown fn"));
                },
            }
        },
        FixupKind::Data(off) => {
            patch_movz_movk(text, site, tables.rodata + off as u64);
        },
        FixupKind::State(off) => {
            patch_movz_movk(text, site, tables.state + off as u64);
        },
        FixupKind::Runtime(_) => {
            return Err(unsupported("aarch64 runtime call was not refused"));
        },
        FixupKind::Local(_) => {},
    }
    Ok(())
}

/// Whether resolving `s` fails with `e`.
pub open spec fn patch_fails(env: A64Env, raw: Seq<u8>, s: Seq<Site>, e: CodegenError) -> bool {
    patch_all(env, raw, s) is Err && e.unsupported(patch_all(env, raw, s)->Err_0)
}

proof fn failed_at(env: A64Env, raw: Seq<u8>, s: Seq<Site>, n: int, e: CodegenError)
    requires
        0 <= n <= s.len(),
        patch_fails(env, raw, s.take(n), e),
    ensures
        patch_fails(env, raw, s, e),
    decreases s.len(),
{
    if n == s.len() {
        assert(s.take(n) =~= s);
    } else {
        assert(s.drop_last().take(n) =~= s.take(n));
        failed_at(env, raw, s.drop_last(), n, e);
    }
}

fn patch_fixups(
    text: &mut Vec<u8>,
    base: usize,
    fixups: &Vec<Fixup>,
    tables: &Tables,
    env: Ghost<A64Env>,
    raw: Ghost<Seq<u8>>,
    done: Ghost<Seq<Site>>,
) -> (r: Result<(), CodegenError>)
    requires
        tables.of(env@),
        sites_within(sites_at(base as nat, fixups@), old(text)@.len()),
        patch_all(env@, raw@, done@) == Ok::<Seq<u8>, Seq<char>>(old(text)@),
    ensures
        ({
            let s = done@ + sites_at(base as nat, fixups@);
            match r {
                Ok(_) => patch_all(env@, raw@, s) == Ok::<Seq<u8>, Seq<char>>(final(text)@)
                    && final(text)@.len() == old(text)@.len(),
                Err(e) => patch_fails(env@, raw@, s, e),
            }
        }),
{
    let ghost mine = sites_at(base as nat, fixups@);
    let ghost len = text@.len();
    let mut i: usize = 0;
    assert(done@ + mine.take(0) =~= done@);
    while i < fixups.len()
        invariant
            tables.of(env@),
            mine == sites_at(base as nat, fixups@),
            sites_within(mine, len),
            text@.len() == len,
            i <= fixups@.len(),
            patch_all(env@, raw@, done@ + mine.take(i as int)) == Ok::<Seq<u8>, Seq<char>>(text@),
        decreases fixups@.len() - i,
    {
        let fx: Fixup = fixups[i];
        proof {
            assert(mine[i as int].fixup == fx);
            let s = done@ + mine.take(i + 1);
            assert(s.drop_last() =~= done@ + mine.take(i as int));
            assert(s.last() == mine[i as int]);
        }
        match patch_fixup(text, base, fx, tables, env) {
            Ok(_) => {},
            Err(e) => {
                proof {
                    let s = done@ + mine;
                    assert(s.take(done@.len() + i + 1) =~= done@ + mine.take(i + 1));
                    failed_at(env@, raw@, s, done@.len() + i + 1, e);
                }
                return Err(e);
            },
        }
        i = i + 1;
    }
    assert(mine.take(i as int) =~= mine);
    Ok(())
}

proof fn codes_grow(l: Seq<LoweredView>, i: int)
    requires
        0 <= i <= l.len(),
    ensures
        codes(l.take(i)).len() <= codes(l).len(),
    decreases l.len(),
{
    if i == l.len() {
        assert(l.take(i) =~= l);
    } else {
        codes_grow(l.drop_last(), i);
        assert(l.drop_last().take(i) =~= l.take(i));
    }
}

proof fn fn_sites_prefix(start: nat, l: Seq<LoweredView>, i: int)
    requires
        0 <= i <= l.len(),
    ensures
        fn_sites(start, l.take(i)).len() <= fn_sites(start, l).len(),
        fn_sites(start, l).take(fn_sites(start, l.take(i)).len() as int) == fn_sites(
            start,
            l.take(i),
        ),
    decreases l.len(),
{
    if i == l.len() {
        assert(l.take(i) =~= l);
        assert(fn_sites(start, l).take(fn_sites(start, l).len() as int) =~= fn_sites(start, l));
    } else {
        fn_sites_prefix(start, l.drop_last(), i);
        assert(l.drop_last().take(i) =~= l.take(i));
        let n = fn_sites(start, l.take(i)).len() as int;
        assert(fn_sites(start, l).take(n) =~= fn_sites(start, l.drop_last()).take(n));
    }
}

fn patch_functions(
    text: &mut Vec<u8>,
    start: usize,
    lowered: &Vec<LoweredFn>,
    tables: &Tables,
    env: Ghost<A64Env>,
    raw: Ghost<Seq<u8>>,
    done: Ghost<Seq<Site>>,
) -> (r: Result<(), CodegenError>)
    requires
        tables.of(env@),
        all_within(lowered_views(lowered@)),
        start + codes(lowered_views(lowered@)).len() <= old(text)@.len(),
        patch_all(env@, raw@, done@) == Ok::<Seq<u8>, Seq<char>>(old(text)@),
    ensures
        ({
            let s = done@ + fn_sites(start as nat, lowered_views(lowered@));
            match r {
                Ok(_) => patch_all(env@, raw@, s) == Ok::<Seq<u8>, Seq<char>>(final(text)@)
                    && final(text)@.len() == old(text)@.len(),
                Err(e) => patch_fails(env@, raw@, s, e),
            }
        }),
{
    let ghost l = lowered_views(lowered@);
    let ghost len = text@.len();
    let _len: usize = text.len();
    let mut base: usize = start;
    let mut i: usize = 0;
    assert(l.take(0) =~= Seq::empty());
    assert(done@ + fn_sites(start as nat, l.take(0)) =~= done@);
    while i < lowered.len()
        invariant
            tables.of(env@),
            l == lowered_views(lowered@),
            all_within(l),
            start + codes(l).len() <= len <= usize::MAX,
            text@.len() == len,
            i <= l.len(),
            base == start + codes(l.take(i as int)).len(),
            patch_all(env@, raw@, done@ + fn_sites(start as nat, l.take(i as int))) == Ok::<
                Seq<u8>,
                Seq<char>,
            >(text@),
        decreases l.len() - i,
    {
        let ghost here = done@ + fn_sites(start as nat, l.take(i as int));
        let ghost mine = sites_at(base as nat, l[i as int].fixups);
        proof {
            codes_grow(l, i + 1);
            assert(l.take(i + 1).drop_last() =~= l.take(i as int));
            assert(l.take(i + 1).last() == l[i as int]);
            assert forall|k: int| 0 <= k < mine.len() implies (#[trigger] mine[k]).base
                + mine[k].fixup.at + site_width(mine[k].fixup.kind) <= len by {
                assert(mine[k].fixup == l[i as int].fixups[k]);
            }
            assert(here + mine =~= done@ + fn_sites(start as nat, l.take(i + 1)));
        }
        match patch_fixups(text, base, &lowered[i].fixups, tables, env, raw, Ghost(here)) {
            Ok(_) => {},
            Err(e) => {
                proof {
                    let s = done@ + fn_sites(start as nat, l);
                    fn_sites_prefix(start as nat, l, i + 1);
                    let n = (here + mine).len() as int;
                    assert(s.take(n) =~= here + mine);
                    failed_at(env@, raw@, s, n, e);
                }
                return Err(e);
            },
        }
        base = base + lowered[i].code.len();
        i = i + 1;
    }
    assert(l.take(i as int) =~= l);
    Ok(())
}

proof fn patch_len(env: A64Env, raw: Seq<u8>, s: Seq<Site>)
    ensures
        patch_all(env, raw, s) matches Ok(t) ==> t.len() == raw.len(),
    decreases s.len(),
{
    if s.len() > 0 {
        patch_len(env, raw, s.drop_last());
        match patch_all(env, raw, s.drop_last()) {
            Ok(t) => {
                let at = s.last().base + s.last().fixup.at;
                match s.last().fixup.kind {
                    FixupKind::Data(off) => lanes_len(t, at as int, (env.rodata + off) as u64, 4),
                    FixupKind::State(off) => lanes_len(t, at as int, (env.state + off) as u64, 4),
                    _ => {},
                }
            },
            Err(_) => {},
        }
    }
}

proof fn lanes_len(text: Seq<u8>, site: int, value: u64, n: int)
    ensures
        with_lanes(text, site, value, n).len() == text.len(),
    decreases n,
{
    if n > 0 {
        lanes_len(text, site, value, n - 1);
    }
}

pub(crate) proof fn start_state_facts(main: FnId)
    ensures
        start_state(main).code.len() <= 64,
        start_state(main).targets_bound(),
        start_state(main).branches.len() == 0,
        start_state(main).fixups.len() == 1,
        sites_within(sites_at(0, start_state(main).fixups), start_state(main).code.len()),
{
    reveal(A64State::mov_imm);
    reveal(A64State::bl_fn);
    reveal(A64State::svc0);
    crate::aarch64::encode::mov_imm_builds_value(Reg(0), 0, 0);
    crate::aarch64::encode::mov_imm_builds_value(Reg(8), AARCH64_EXIT_GROUP, 0);
    let a = A64State::empty().reserve_labels(0).mov_imm(Reg(0), 0);
    crate::aarch64::encode::word_bytes_len(
        crate::aarch64::encode::mov_words(
            Reg(0),
            crate::bytes::wrap64(0),
            0,
            false,
        ),
    );
    crate::aarch64::encode::word_bytes_len(
        crate::aarch64::encode::mov_words(
            Reg(8),
            crate::bytes::wrap64(AARCH64_EXIT_GROUP as int),
            0,
            false,
        ),
    );
    let s = sites_at(0, start_state(main).fixups);
    assert(start_state(main).fixups.len() == 1);
    assert forall|k: int| 0 <= k < s.len() implies (#[trigger] s[k]).base + s[k].fixup.at
        + site_width(s[k].fixup.kind) <= start_state(main).code.len() by {
        assert(s[k].fixup == start_state(main).fixups[0]);
        assert(s[k].fixup.at == a.code.len());
    }
}

/// Whether `r` is the executable of a program, or why there is none: no entry, a need of
/// the runtime, code and data beyond the address space, or a fixup that cannot be
/// resolved.
pub open spec fn linked_program(
    prog: MirProgram,
    fns: Seq<LoweredView>,
    rodata: Seq<u8>,
    r: Result<ElfImage, CodegenError>,
) -> bool {
    match entry_of(prog, 0) {
        None => r == Err::<ElfImage, CodegenError>(CodegenError::NoMain),
        Some(main) => {
            let p = program_text(main, fns, rodata.len());
            let fits = codes(fns).len() + rodata.len() <= 0x7FFF_FFFF_FF00_0000;
            match r {
                Ok(img) => {
                    &&& !needs_runtime(fns)
                    &&& fits
                    &&& p is Ok
                    &&& img.bytes@ == elf_file(p->Ok_0, rodata, 0, 0xB7, None)
                    &&& img.text_len == p->Ok_0.len()
                    &&& img.text_vaddr == TEXT_VADDR
                    &&& img.rodata_vaddr == LOAD_BASE + rodata_off(p->Ok_0.len() as int)
                    &&& img.state_vaddr == 0
                },
                Err(e) => if needs_runtime(fns) {
                    e.unsupported(no_runtime_message())
                } else if !fits {
                    e.unsupported(too_large_message())
                } else {
                    p is Err && e.unsupported(p->Err_0)
                },
            }
        },
    }
}

/// Links lowered functions into an AArch64 executable.
pub fn link_program_aarch64(
    prog: &MirProgram,
    lowered: &Vec<LoweredFn>,
    rodata: &RoData,
) -> (r: Result<ElfImage, CodegenError>)
    requires
        all_within(lowered_views(lowered@)),
    ensures
        linked_program(*prog, lowered_views(lowered@), rodata@.bytes, r),
{
    let main: FnId = match find_main(prog) {
        Some(m) => m,
        None => {
            return Err(CodegenError::NoMain);
        },
    };
    if lowered_need(lowered) {
        return Err(
            unsupported(
                "the *System heap runtime is not yet ported to aarch64; cross-compile hello-class programs or use the x86-64 backend / VM",
            ),
        );
    }
    let ghost l = lowered_views(lowered@);
    let data = rodata.bytes();
    let data_len: usize = data.len();
    let own: u128 = code_bytes(lowered);
    if own > 0x7FFF_FFFF_FF00_0000 || own + data_len as u128 > 0x7FFF_FFFF_FF00_0000 {
        return Err(too_large());
    }
    let shim = build_start_shim(main);
    proof {
        start_state_facts(main);
    }
    let ghost shim_state = start_state(main);
    assert(shim_state.branches =~= Seq::empty());
    let (start_bytes, start_fixups) = shim.finish();
    assert(start_bytes@ == shim_state.code);
    let start: usize = start_bytes.len();
    let mut text: Vec<u8> = Vec::new();
    push_all(&mut text, start_bytes.as_slice());
    assert(text@ =~= shim_state.code);
    let fns = place_functions(&mut text, lowered);
    let ghost raw = raw_text(main, l);
    assert(text@ =~= raw);
    let rodata_at: u64 = rodata_vaddr_for(text.len());
    let state_at: u64 = state_vaddr_for(text.len(), data_len);
    let ghost env = program_env(main, l, data_len as nat);
    proof {
        crate::elf::segments_page_congruent(raw.len() as int, data_len as int);
        crate::elf::rounded_facts(rodata_off(raw.len() as int) + data_len, crate::elf::PAGE as int);
    }
    let tables = Tables { fns, rodata: rodata_at, state: state_at };
    let ghost none: Seq<Site> = Seq::empty();
    let ghost s1 = sites_at(0, shim_state.fixups);
    let ghost all = s1 + fn_sites(env.start, l);
    proof {
        assert(none + s1 =~= s1);
        assert(all.take(s1.len() as int) =~= s1);
        patch_len(env, raw, all);
        assert(sites_within(s1, text@.len()));
    }
    match patch_fixups(
        &mut text,
        0,
        &start_fixups,
        &tables,
        Ghost(env),
        Ghost(raw),
        Ghost(none),
    ) {
        Ok(_) => {},
        Err(e) => {
            proof {
                failed_at(env, raw, all, s1.len() as int, e);
            }
            return Err(e);
        },
    }
    match patch_functions(
        &mut text,
        start,
        lowered,
        &tables,
        Ghost(env),
        Ghost(raw),
        Ghost(s1),
    ) {
        Ok(_) => {},
        Err(e) => {
            return Err(e);
        },
    }
    Ok(write_elf_for(text.as_slice(), data, 0, Target::Aarch64Linux.e_machine()))
}

// ---------------------------------------------------------------------------
//  Laws
// ---------------------------------------------------------------------------

/// A patched immediate reads back, and the rest of the word stays.
pub proof fn imm16_reads_back(base: u32, imm: u16)
    ensures
        with_imm16(base as int, imm) as int / 32 % 0x1_0000 == imm,
        with_imm16(base as int, imm) as int % 32 == base as int % 32,
        with_imm16(base as int, imm) as int / 0x20_0000 == base as int / 0x20_0000,
{
}

/// A patched branch keeps its opcode and holds the distance in words.
pub proof fn branch26_reads_back(base: u32, site: int, target: int)
    requires
        (target - site) % 4 == 0,
        -0x800_0000 <= target - site < 0x800_0000,
    ensures
        branch26(base as int, site, target) as int / 0x400_0000 == base as int / 0x400_0000,
        ({
            let f = branch26(base as int, site, target) as int % 0x400_0000;
            let words = if f >= 0x200_0000 {
                f - 0x400_0000
            } else {
                f
            };
            site + 4 * words == target
        }),
{
}

} // verus!
