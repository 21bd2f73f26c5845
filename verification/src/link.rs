//! Stitching lowered functions into a program.
use std::collections::HashMap;

use vstd::prelude::*;

use crate::bytes::{push_all, splice32, splice64, write32, write64};
use crate::debug_info::{DebugCtx, build_dwarf, dwarf_of, mark_count, marks_ok, segments_ok};
use crate::dwarf::sections;
use crate::elf::{
    DebugView, ElfImage, LOAD_BASE, TEXT_VADDR, debug_total, elf_file, rodata_off, rodata_vaddr_for,
    state_off, state_vaddr_for, write_elf_with_debug,
};
use crate::encode::{
    Asm, AsmState, Fixup, FixupKind, displacement, fixups_of, hole_width, linked_code, outer, rel32,
};
use crate::mir::MirProgram;
use crate::mir_ids::FnId;
use crate::reg::Gpr;
use crate::runtime::RuntimeFn;
use crate::text::same_str;
use crate::{CodegenError, RoData, unsupported};

verus! {

broadcast use vstd::std_specs::hash::group_hash_axioms;

/// The seed of the deterministic random numbers, as a signed word.
pub const RNG_SEED: i64 = -0x61C8_8646_80B5_83EB;

/// The source line of the code from an offset on.
#[derive(Clone, Copy, PartialEq, Eq, Structural, Debug)]
pub struct LineMark {
    /// The offset in the function's code.
    pub at: usize,
    /// The line.
    pub line: u32,
}

/// A lowered function.
pub struct LoweredFn {
    /// Which function.
    pub id: FnId,
    /// The code, its own jumps resolved.
    pub code: Vec<u8>,
    /// The fixups that are left.
    pub fixups: Vec<Fixup>,
    /// The source lines.
    pub line_marks: Vec<LineMark>,
}

/// What a [`LoweredFn`] holds.
pub struct LoweredView {
    pub id: FnId,
    pub code: Seq<u8>,
    pub fixups: Seq<Fixup>,
    pub marks: Seq<LineMark>,
}

impl View for LoweredFn {
    type V = LoweredView;

    open spec fn view(&self) -> LoweredView {
        LoweredView {
            id: self.id,
            code: self.code@,
            fixups: self.fixups@,
            marks: self.line_marks@,
        }
    }
}

/// What a list of lowered functions holds.
pub open spec fn lowered_views(v: Seq<LoweredFn>) -> Seq<LoweredView> {
    Seq::new(v.len(), |i: int| v[i]@)
}

/// A runtime routine.
pub struct Routine {
    /// Which routine.
    pub rt: RuntimeFn,
    /// The code, its own jumps resolved.
    pub code: Vec<u8>,
    /// The fixups that are left.
    pub fixups: Vec<Fixup>,
}

/// What a [`Routine`] holds.
pub struct RoutineView {
    pub rt: RuntimeFn,
    pub code: Seq<u8>,
    pub fixups: Seq<Fixup>,
}

impl View for Routine {
    type V = RoutineView;

    open spec fn view(&self) -> RoutineView {
        RoutineView { rt: self.rt, code: self.code@, fixups: self.fixups@ }
    }
}

/// What a list of routines holds.
pub open spec fn routine_views(v: Seq<Routine>) -> Seq<RoutineView> {
    Seq::new(v.len(), |i: int| v[i]@)
}

/// The runtime support library.
pub struct Runtime {
    /// The routines, in the order in which they are linked.
    pub routines: Vec<Routine>,
    /// The size of the writable state segment.
    pub state_size: u64,
    /// The offset of the random number state in it.
    pub rng_state: u32,
    /// The offset of the next free allocator handle in it.
    pub reg_next: u32,
}

// ---------------------------------------------------------------------------
//  Layout of the text
// ---------------------------------------------------------------------------

/// The code of the functions.
pub open spec fn codes(l: Seq<LoweredView>) -> Seq<u8>
    decreases l.len(),
{
    if l.len() == 0 {
        Seq::empty()
    } else {
        codes(l.drop_last()) + l.last().code
    }
}

/// The code of the routines.
pub open spec fn routine_codes(l: Seq<RoutineView>) -> Seq<u8>
    decreases l.len(),
{
    if l.len() == 0 {
        Seq::empty()
    } else {
        routine_codes(l.drop_last()) + l.last().code
    }
}

/// The offset of a function, where the functions start at `start`.
pub open spec fn fn_offset(start: nat, l: Seq<LoweredView>, id: FnId) -> Option<nat>
    decreases l.len(),
{
    if l.len() == 0 {
        None
    } else if l.last().id == id {
        Some(start + codes(l.drop_last()).len())
    } else {
        fn_offset(start, l.drop_last(), id)
    }
}

/// The offset of a routine, where the routines start at `start`.
pub open spec fn routine_offset(start: nat, l: Seq<RoutineView>, rt: RuntimeFn) -> Option<nat>
    decreases l.len(),
{
    if l.len() == 0 {
        None
    } else if l.last().rt == rt {
        Some(start + routine_codes(l.drop_last()).len())
    } else {
        routine_offset(start, l.drop_last(), rt)
    }
}

/// A fixup, with the offset of the code that it belongs to.
pub struct Site {
    pub base: nat,
    pub fixup: Fixup,
}

/// The fixups of code at `base`.
pub open spec fn sites_at(base: nat, f: Seq<Fixup>) -> Seq<Site> {
    Seq::new(f.len(), |i: int| Site { base, fixup: f[i] })
}

/// The fixups of the functions.
pub open spec fn fn_sites(start: nat, l: Seq<LoweredView>) -> Seq<Site>
    decreases l.len(),
{
    if l.len() == 0 {
        Seq::empty()
    } else {
        fn_sites(start, l.drop_last()) + sites_at(
            start + codes(l.drop_last()).len(),
            l.last().fixups,
        )
    }
}

/// The fixups of the routines.
pub open spec fn routine_sites(start: nat, l: Seq<RoutineView>) -> Seq<Site>
    decreases l.len(),
{
    if l.len() == 0 {
        Seq::empty()
    } else {
        routine_sites(start, l.drop_last()) + sites_at(
            start + routine_codes(l.drop_last()).len(),
            l.last().fixups,
        )
    }
}

/// What fixups are resolved against.
pub struct LinkEnv {
    /// The length of the entry code, behind which the functions start.
    pub start: nat,
    /// The functions.
    pub fns: Seq<LoweredView>,
    /// The routines behind them.
    pub routines: Seq<RoutineView>,
    /// The address of the read-only data.
    pub rodata: u64,
    /// The address of the writable state.
    pub state: u64,
}

impl LinkEnv {
    /// Where the routines start.
    pub open spec fn routines_start(self) -> nat {
        self.start + codes(self.fns).len()
    }
}

/// `text` with one fixup resolved, or why it cannot be.
pub open spec fn patch(env: LinkEnv, text: Seq<u8>, s: Site) -> Result<Seq<u8>, Seq<char>> {
    let at = s.base + s.fixup.at;
    match s.fixup.kind {
        FixupKind::Call(f) => match fn_offset(env.start, env.fns, f) {
            Some(t) => Ok(splice32(text, at as int, rel32(t, at as nat))),
            None => Err("call to an unknown fn"@),
        },
        FixupKind::Runtime(rt) => match routine_offset(env.routines_start(), env.routines, rt) {
            Some(t) => Ok(splice32(text, at as int, rel32(t, at as nat))),
            None => Err("call to an unemitted runtime fn"@),
        },
        FixupKind::Data(off) => Ok(splice64(text, at as int, (env.rodata + off) as u64)),
        FixupKind::State(off) => Ok(splice64(text, at as int, (env.state + off) as u64)),
        FixupKind::Local(_) => Ok(text),
    }
}

/// `text` with all fixups resolved in order, or the first failure.
pub open spec fn patch_all(env: LinkEnv, text: Seq<u8>, s: Seq<Site>) -> Result<
    Seq<u8>,
    Seq<char>,
>
    decreases s.len(),
{
    if s.len() == 0 {
        Ok(text)
    } else {
        match patch_all(env, text, s.drop_last()) {
            Ok(t) => patch(env, t, s.last()),
            Err(e) => Err(e),
        }
    }
}

/// Whether a fixup needs the runtime.
pub open spec fn needs_state(kind: FixupKind) -> bool {
    kind is Runtime || kind is State
}

/// Whether any of the fixups needs the runtime.
pub open spec fn any_needs(f: Seq<Fixup>) -> bool {
    exists|k: int| 0 <= k < f.len() && needs_state((#[trigger] f[k]).kind)
}

/// Whether any of the functions needs the runtime.
pub open spec fn needs_runtime(l: Seq<LoweredView>) -> bool {
    exists|i: int| 0 <= i < l.len() && any_needs((#[trigger] l[i]).fixups)
}

/// Whether the fixups lie within the code.
pub open spec fn within(code: Seq<u8>, f: Seq<Fixup>) -> bool {
    forall|k: int|
        0 <= k < f.len() ==> (#[trigger] f[k]).at + hole_width(f[k].kind) <= code.len()
}

/// Whether the fixups of every function lie within its code.
pub open spec fn all_within(l: Seq<LoweredView>) -> bool {
    forall|i: int| 0 <= i < l.len() ==> within((#[trigger] l[i]).code, l[i].fixups)
}

/// Whether the fixups of every routine lie within its code.
pub open spec fn routines_within(l: Seq<RoutineView>) -> bool {
    forall|i: int| 0 <= i < l.len() ==> within((#[trigger] l[i]).code, l[i].fixups)
}

/// Whether every fixup lies within `n` bytes.
pub open spec fn sites_within(s: Seq<Site>, n: nat) -> bool {
    forall|k: int|
        0 <= k < s.len() ==> (#[trigger] s[k]).base + s[k].fixup.at + hole_width(s[k].fixup.kind)
            <= n
}

// ---------------------------------------------------------------------------
//  The entry code
// ---------------------------------------------------------------------------

/// The entry code: set up the runtime state, call `main`, exit with its result.
pub open spec fn start_state(
    main: FnId,
    needs: bool,
    rng_state: u32,
    reg_next: u32,
) -> AsmState {
    let a = AsmState::empty(true).reserve_labels(0);
    let b = if needs {
        a.mov_ri_state(Gpr::R11, rng_state).mov_ri(Gpr::Rax, RNG_SEED).mov_store_mem(
            Gpr::R11,
            0,
            Gpr::Rax,
        ).mov_ri_state(Gpr::R11, reg_next).mov_ri(Gpr::Rax, 1).mov_store_mem(
            Gpr::R11,
            0,
            Gpr::Rax,
        )
    } else {
        a
    };
    b.xor_rr(Gpr::Rdi, Gpr::Rdi).call_fn(main).mov_rr(Gpr::Rdi, Gpr::Rax).mov_ri(
        Gpr::Rax,
        60,
    ).syscall()
}

/// The bytes of the entry code.
pub open spec fn start_code(main: FnId, needs: bool, rng_state: u32, reg_next: u32) -> Seq<u8> {
    linked_code(start_state(main, needs, rng_state, reg_next).peephole().instrs)
}

/// The fixups of the entry code.
pub open spec fn start_fixups(main: FnId, needs: bool, rng_state: u32, reg_next: u32) -> Seq<
    Fixup,
> {
    outer(fixups_of(start_state(main, needs, rng_state, reg_next).peephole().instrs))
}

fn build_start_shim(main: FnId, needs: bool, rng_state: u32, reg_next: u32) -> (a: Asm)
    ensures
        a.ready(),
        a@ == start_state(main, needs, rng_state, reg_next),
{
    let mut a = Asm::new();
    a.reserve_labels(0);
    if needs {
        a.mov_ri_state(Gpr::R11, rng_state);
        a.mov_ri(Gpr::Rax, RNG_SEED);
        a.mov_store_mem(Gpr::R11, 0, Gpr::Rax);
        a.mov_ri_state(Gpr::R11, reg_next);
        a.mov_ri(Gpr::Rax, 1);
        a.mov_store_mem(Gpr::R11, 0, Gpr::Rax);
    }
    a.xor_rr(Gpr::Rdi, Gpr::Rdi);
    a.call_fn(main);
    a.mov_rr(Gpr::Rdi, Gpr::Rax);
    a.mov_ri(Gpr::Rax, 60);
    a.syscall();
    a
}

/// The entry code binds no label and refers to none.
proof fn start_state_closed(main: FnId, needs: bool, rng_state: u32, reg_next: u32)
    ensures
        start_state(main, needs, rng_state, reg_next).bindings_in_table(),
        start_state(main, needs, rng_state, reg_next).targets_bound(),
{
    reveal(AsmState::mov_ri_state);
    reveal(AsmState::mov_ri);
    reveal(AsmState::mov_store_mem);
    reveal(AsmState::xor_rr);
    reveal(AsmState::call_fn);
    reveal(AsmState::mov_rr);
    reveal(AsmState::syscall);
    let s = start_state(main, needs, rng_state, reg_next);
    assert forall|i: int, l: crate::encode::LabelId|
        0 <= i < s.instrs.len() && #[trigger] crate::peephole::refers(s.instrs[i], l) implies l.0
        < s.labels.len() && s.labels[l.0 as int] is Some by {
        let k = choose|k: int|
            0 <= k < s.instrs[i].fixups.len() && (#[trigger] s.instrs[i].fixups[k]).1
                == FixupKind::Local(l);
        assert(s.instrs[i].fixups.len() <= 1);
    }
    assert forall|l: crate::encode::LabelId| #[trigger] crate::peephole::has_label(
        s.instrs,
        l,
    ) implies l.0 < s.labels.len() by {
        let i = choose|i: int|
            0 <= i < s.instrs.len() && (#[trigger] s.instrs[i]).tag == (crate::encode::ITag::Label {
                label: l,
            });
        assert(!(s.instrs[i].tag is Label));
    }
}

// ---------------------------------------------------------------------------
//  Patching
// ---------------------------------------------------------------------------

/// A table of function offsets.
pub open spec fn fn_table(m: Map<u32, usize>, start: nat, l: Seq<LoweredView>) -> bool {
    &&& forall|id: u32| #[trigger] m.contains_key(id) <==> fn_offset(start, l, FnId(id)) is Some
    &&& forall|id: u32| #[trigger]
        m.contains_key(id) ==> fn_offset(start, l, FnId(id)) == Some(m[id] as nat)
}

fn find_routine(routines: &Vec<Routine>, base: usize, rt: RuntimeFn) -> (r: Option<usize>)
    requires
        base + routine_codes(routine_views(routines@)).len() <= usize::MAX,
    ensures
        match r {
            Some(o) => routine_offset(base as nat, routine_views(routines@), rt) == Some(o as nat),
            None => routine_offset(base as nat, routine_views(routines@), rt) is None,
        },
{
    let ghost v = routine_views(routines@);
    let mut found: Option<usize> = None;
    let mut off: usize = base;
    let mut i: usize = 0;
    assert(v.take(0) =~= Seq::empty());
    while i < routines.len()
        invariant
            v == routine_views(routines@),
            i <= v.len(),
            base + routine_codes(v).len() <= usize::MAX,
            off == base + routine_codes(v.take(i as int)).len(),
            match found {
                Some(o) => routine_offset(base as nat, v.take(i as int), rt) == Some(o as nat),
                None => routine_offset(base as nat, v.take(i as int), rt) is None,
            },
        decreases v.len() - i,
    {
        proof {
            let t = v.take(i + 1);
            assert(t.drop_last() =~= v.take(i as int));
            assert(t.last() == v[i as int]);
            routine_codes_prefix(v, i + 1);
        }
        if routines[i].rt == rt {
            found = Some(off);
        }
        off = off + routines[i].code.len();
        i = i + 1;
    }
    assert(v.take(i as int) =~= v);
    found
}

proof fn routine_codes_prefix(l: Seq<RoutineView>, i: int)
    requires
        0 <= i <= l.len(),
    ensures
        routine_codes(l.take(i)).len() <= routine_codes(l).len(),
    decreases l.len(),
{
    if i == l.len() {
        assert(l.take(i) =~= l);
    } else {
        routine_codes_prefix(l.drop_last(), i);
        assert(l.drop_last().take(i) =~= l.take(i));
    }
}

proof fn codes_prefix(l: Seq<LoweredView>, i: int)
    requires
        0 <= i <= l.len(),
    ensures
        codes(l.take(i)).len() <= codes(l).len(),
    decreases l.len(),
{
    if i == l.len() {
        assert(l.take(i) =~= l);
    } else {
        codes_prefix(l.drop_last(), i);
        assert(l.drop_last().take(i) =~= l.take(i));
    }
}

/// Where offsets are looked up while patching.
struct Tables<'a> {
    fns: HashMap<u32, usize>,
    routines: &'a Vec<Routine>,
    with_routines: bool,
    routines_start: usize,
    rodata: u64,
    state: u64,
}

impl Tables<'_> {
    spec fn of(&self, env: LinkEnv) -> bool {
        &&& fn_table(self.fns@, env.start, env.fns)
        &&& env.routines == (if self.with_routines {
            routine_views(self.routines@)
        } else {
            Seq::empty()
        })
        &&& self.routines_start == env.routines_start()
        &&& self.routines_start + routine_codes(env.routines).len() <= usize::MAX
        &&& self.rodata == env.rodata
        &&& self.state == env.state
        &&& env.rodata <= 0x7FFF_FFFF_FFFF_FFFF
        &&& env.state <= 0x7FFF_FFFF_FFFF_FFFF
    }
}

fn patch_fixup(
    text: &mut Vec<u8>,
    base: usize,
    fx: Fixup,
    tables: &Tables,
    env: Ghost<LinkEnv>,
) -> (r: Result<(), CodegenError>)
    requires
        tables.of(env@),
        base + fx.at + hole_width(fx.kind) <= old(text)@.len(),
    ensures
        ({
            let p = patch(env@, old(text)@, Site { base: base as nat, fixup: fx });
            match r {
                Ok(_) => p == Ok::<Seq<u8>, Seq<char>>(final(text)@) && final(text)@.len() == old(
                    text,
                )@.len(),
                Err(e) => p is Err && e.unsupported(p->Err_0),
            }
        }),
{
    let _len: usize = text.len();
    let site: usize = base + fx.at;
    match fx.kind {
        FixupKind::Call(callee) => {
            assert(tables.fns@.contains_key(callee.0) <==> fn_offset(
                env@.start,
                env@.fns,
                FnId(callee.0),
            ) is Some);
            match tables.fns.get(&callee.0) {
                Some(target) => {
                    write32(text, site, displacement(*target, site));
                },
                None => {
                    return Err(unsupported("call to an unknown fn"));
                },
            }
        },
        FixupKind::Runtime(rt) => {
            let found: Option<usize> = if tables.with_routines {
                find_routine(tables.routines, tables.routines_start, rt)
            } else {
                None
            };
            match found {
                Some(target) => {
                    write32(text, site, displacement(target, site));
                },
                None => {
                    return Err(unsupported("call to an unemitted runtime fn"));
                },
            }
        },
        FixupKind::Data(off) => {
            write64(text, site, tables.rodata + off as u64);
        },
        FixupKind::State(off) => {
            write64(text, site, tables.state + off as u64);
        },
        FixupKind::Local(_) => {},
    }
    Ok(())
}

/// Resolves the fixups of the code at `base`, `done` being resolved already.
fn patch_fixups(
    text: &mut Vec<u8>,
    base: usize,
    fixups: &Vec<Fixup>,
    tables: &Tables,
    env: Ghost<LinkEnv>,
    raw: Ghost<Seq<u8>>,
    done: Ghost<Seq<Site>>,
) -> (r: Result<(), CodegenError>)
    requires
        tables.of(env@),
        sites_within(sites_at(base as nat, fixups@), old(text)@.len()),
        patch_all(env@, raw@, done@) == Ok::<Seq<u8>, Seq<char>>(old(text)@),
    ensures
        ({
            let p = patch_all(env@, raw@, done@ + sites_at(base as nat, fixups@));
            match r {
                Ok(_) => p == Ok::<Seq<u8>, Seq<char>>(final(text)@) && final(text)@.len() == old(
                    text,
                )@.len(),
                Err(e) => patch_fails(env@, raw@, done@ + sites_at(base as nat, fixups@), e),
            }
        }),
{
    let ghost mine = sites_at(base as nat, fixups@);
    let ghost len = text@.len();
    let mut i: usize = 0;
    assert(done@ + mine.take(0) =~= done@);
    while i < fixups.len()
        invariant
            tables.of(env@),
            mine == sites_at(base as nat, fixups@),
            sites_within(mine, len),
            text@.len() == len,
            i <= fixups@.len(),
            patch_all(env@, raw@, done@ + mine.take(i as int)) == Ok::<Seq<u8>, Seq<char>>(text@),
        decreases fixups@.len() - i,
    {
        let fx: Fixup = fixups[i];
        proof {
            assert(mine[i as int].fixup == fx);
            let s = done@ + mine.take(i + 1);
            assert(s.drop_last() =~= done@ + mine.take(i as int));
            assert(s.last() == mine[i as int]);
        }
        match patch_fixup(text, base, fx, tables, env) {
            Ok(_) => {},
            Err(e) => {
                proof {
                    let s = done@ + mine;
                    assert(s.take(done@.len() + i + 1) =~= done@ + mine.take(i + 1));
                    failed_at(env@, raw@, s, done@.len() + i + 1, e);
                }
                return Err(e);
            },
        }
        i = i + 1;
    }
    assert(mine.take(i as int) =~= mine);
    Ok(())
}

/// Whether resolving `s` fails with `e`.
pub open spec fn patch_fails(env: LinkEnv, raw: Seq<u8>, s: Seq<Site>, e: CodegenError) -> bool {
    patch_all(env, raw, s) is Err && e.unsupported(patch_all(env, raw, s)->Err_0)
}

/// A failure stays the failure whatever follows.
proof fn failed_at(env: LinkEnv, raw: Seq<u8>, s: Seq<Site>, n: int, e: CodegenError)
    requires
        0 <= n <= s.len(),
        patch_fails(env, raw, s.take(n), e),
    ensures
        patch_fails(env, raw, s, e),
    decreases s.len(),
{
    if n == s.len() {
        assert(s.take(n) =~= s);
    } else {
        assert(s.drop_last().take(n) =~= s.take(n));
        failed_at(env, raw, s.drop_last(), n, e);
    }
}

pub(crate) proof fn patch_len(env: LinkEnv, raw: Seq<u8>, s: Seq<Site>)
    ensures
        patch_all(env, raw, s) matches Ok(t) ==> t.len() == raw.len(),
    decreases s.len(),
{
    if s.len() > 0 {
        patch_len(env, raw, s.drop_last());
    }
}

// ---------------------------------------------------------------------------
//  The whole program
// ---------------------------------------------------------------------------

/// The unresolved text of a program.
pub open spec fn raw_text(
    main: FnId,
    fns: Seq<LoweredView>,
    routines: Seq<RoutineView>,
    rng_state: u32,
    reg_next: u32,
) -> Seq<u8> {
    start_code(main, needs_runtime(fns), rng_state, reg_next) + codes(fns) + (if needs_runtime(
        fns,
    ) {
        routine_codes(routines)
    } else {
        Seq::empty()
    })
}

/// What the fixups of a program are resolved against.
pub open spec fn program_env(
    main: FnId,
    fns: Seq<LoweredView>,
    routines: Seq<RoutineView>,
    rng_state: u32,
    reg_next: u32,
    rodata_len: nat,
) -> LinkEnv {
    let n = raw_text(main, fns, routines, rng_state, reg_next).len() as int;
    LinkEnv {
        start: start_code(main, needs_runtime(fns), rng_state, reg_next).len(),
        fns,
        routines: if needs_runtime(fns) {
            routines
        } else {
            Seq::empty()
        },
        rodata: (LOAD_BASE + rodata_off(n)) as u64,
        state: (LOAD_BASE + state_off(n, rodata_len as int)) as u64,
    }
}

/// All fixups of a program: those of the entry code, the functions, the routines.
pub open spec fn program_sites(
    main: FnId,
    env: LinkEnv,
    needs: bool,
    rng_state: u32,
    reg_next: u32,
) -> Seq<Site> {
    sites_at(0, start_fixups(main, needs, rng_state, reg_next)) + fn_sites(env.start, env.fns)
        + routine_sites(env.routines_start(), env.routines)
}

/// The text of a program, or why it cannot be linked.
pub open spec fn program_text(
    main: FnId,
    fns: Seq<LoweredView>,
    routines: Seq<RoutineView>,
    rng_state: u32,
    reg_next: u32,
    rodata_len: nat,
) -> Result<Seq<u8>, Seq<char>> {
    let env = program_env(main, fns, routines, rng_state, reg_next, rodata_len);
    patch_all(
        env,
        raw_text(main, fns, routines, rng_state, reg_next),
        program_sites(main, env, needs_runtime(fns), rng_state, reg_next),
    )
}

/// The entry function: the first one named `main`, else the first declared entry.
pub open spec fn entry_of(prog: MirProgram, i: int) -> Option<FnId>
    decreases prog.funcs@.len() - i,
{
    if i < 0 || i >= prog.funcs@.len() {
        if prog.entries@.len() > 0 {
            Some(prog.entries@[0])
        } else {
            None
        }
    } else if prog.funcs@[i].name@ == "main"@ {
        Some(prog.funcs@[i].id)
    } else {
        entry_of(prog, i + 1)
    }
}

/// The entry function: the first one named `main`, else the first declared entry.
pub fn find_main(prog: &MirProgram) -> (r: Option<FnId>)
    ensures
        r == entry_of(*prog, 0),
{
    let mut i: usize = 0;
    while i < prog.funcs.len()
        invariant
            i <= prog.funcs@.len(),
            entry_of(*prog, 0) == entry_of(*prog, i as int),
        decreases prog.funcs@.len() - i,
    {
        if same_str(prog.funcs[i].name.as_str(), "main") {
            return Some(prog.funcs[i].id);
        }
        i = i + 1;
    }
    if prog.entries.len() > 0 {
        Some(prog.entries[0])
    } else {
        None
    }
}

fn is_runtime_or_state(kind: FixupKind) -> (r: bool)
    ensures
        r == needs_state(kind),
{
    match kind {
        FixupKind::Runtime(_) => true,
        FixupKind::State(_) => true,
        _ => false,
    }
}

/// Whether any of the fixups needs the runtime.
pub(crate) fn fixups_need(f: &Vec<Fixup>) -> (r: bool)
    ensures
        r == any_needs(f@),
{
    let mut i: usize = 0;
    while i < f.len()
        invariant
            i <= f@.len(),
            forall|k: int| 0 <= k < i ==> !needs_state((#[trigger] f@[k]).kind),
        decreases f@.len() - i,
    {
        if is_runtime_or_state(f[i].kind) {
            return true;
        }
        i = i + 1;
    }
    false
}

/// Whether any of the functions needs the runtime.
pub(crate) fn lowered_need(lowered: &Vec<LoweredFn>) -> (r: bool)
    ensures
        r == needs_runtime(lowered_views(lowered@)),
{
    let ghost l = lowered_views(lowered@);
    let mut i: usize = 0;
    while i < lowered.len()
        invariant
            l == lowered_views(lowered@),
            i <= l.len(),
            forall|k: int| 0 <= k < i ==> !any_needs((#[trigger] l[k]).fixups),
        decreases l.len() - i,
    {
        if fixups_need(&lowered[i].fixups) {
            assert(any_needs(l[i as int].fixups));
            return true;
        }
        assert(l[i as int].fixups == lowered@[i as int].fixups@);
        i = i + 1;
    }
    false
}

/// The functions' code appended to `text`, and the table of their offsets.
pub(crate) fn place_functions(text: &mut Vec<u8>, lowered: &Vec<LoweredFn>) -> (m: HashMap<
    u32,
    usize,
>)
    ensures
        final(text)@ == old(text)@ + codes(lowered_views(lowered@)),
        fn_table(m@, old(text)@.len(), lowered_views(lowered@)),
{
    let ghost l = lowered_views(lowered@);
    let ghost t0 = text@;
    let mut m: HashMap<u32, usize> = HashMap::new();
    let mut i: usize = 0;
    assert(l.take(0) =~= Seq::empty());
    assert(text@ =~= t0 + codes(l.take(0)));
    while i < lowered.len()
        invariant
            l == lowered_views(lowered@),
            i <= l.len(),
            text@ == t0 + codes(l.take(i as int)),
            fn_table(m@, t0.len(), l.take(i as int)),
        decreases l.len() - i,
    {
        let ghost before = m@;
        let ghost pre = l.take(i as int);
        let ghost cur = l.take(i + 1);
        let off: usize = text.len();
        let id: u32 = lowered[i].id.0;
        m.insert(id, off);
        push_all(text, lowered[i].code.as_slice());
        proof {
            assert(cur.drop_last() =~= pre);
            assert(cur.last() == l[i as int]);
            assert(text@ =~= t0 + codes(cur));
            assert forall|k: u32| true implies (#[trigger] m@.contains_key(k) <==> fn_offset(
                t0.len(),
                cur,
                FnId(k),
            ) is Some) && (m@.contains_key(k) ==> fn_offset(t0.len(), cur, FnId(k)) == Some(
                m@[k] as nat,
            )) by {
                if k == id {
                    assert(cur.last().id == FnId(k));
                } else {
                    assert(before.contains_key(k) <==> m@.contains_key(k));
                }
            }
        }
        i = i + 1;
    }
    assert(l.take(i as int) =~= l);
    m
}

fn place_routines(text: &mut Vec<u8>, routines: &Vec<Routine>)
    ensures
        final(text)@ == old(text)@ + routine_codes(routine_views(routines@)),
{
    let ghost l = routine_views(routines@);
    let ghost t0 = text@;
    let mut i: usize = 0;
    assert(l.take(0) =~= Seq::empty());
    assert(text@ =~= t0 + routine_codes(l.take(0)));
    while i < routines.len()
        invariant
            l == routine_views(routines@),
            i <= l.len(),
            text@ == t0 + routine_codes(l.take(i as int)),
        decreases l.len() - i,
    {
        push_all(text, routines[i].code.as_slice());
        proof {
            let cur = l.take(i + 1);
            assert(cur.drop_last() =~= l.take(i as int));
            assert(cur.last() == l[i as int]);
            assert(text@ =~= t0 + routine_codes(cur));
        }
        i = i + 1;
    }
    assert(l.take(i as int) =~= l);
}

proof fn fn_site_within(start: nat, l: Seq<LoweredView>, i: int, n: nat)
    requires
        0 <= i < l.len(),
        all_within(l),
        start + codes(l).len() <= n,
    ensures
        sites_within(sites_at(start + codes(l.take(i)).len(), l[i].fixups), n),
{
    codes_prefix(l, i + 1);
    assert(l.take(i + 1).drop_last() =~= l.take(i));
    assert(l.take(i + 1).last() == l[i]);
    let s = sites_at(start + codes(l.take(i)).len(), l[i].fixups);
    assert forall|k: int| 0 <= k < s.len() implies (#[trigger] s[k]).base + s[k].fixup.at
        + hole_width(s[k].fixup.kind) <= n by {
        assert(within(l[i].code, l[i].fixups));
        assert(s[k].fixup == l[i].fixups[k]);
    }
}

proof fn routine_site_within(start: nat, l: Seq<RoutineView>, i: int, n: nat)
    requires
        0 <= i < l.len(),
        routines_within(l),
        start + routine_codes(l).len() <= n,
    ensures
        sites_within(sites_at(start + routine_codes(l.take(i)).len(), l[i].fixups), n),
{
    routine_codes_prefix(l, i + 1);
    assert(l.take(i + 1).drop_last() =~= l.take(i));
    assert(l.take(i + 1).last() == l[i]);
    let s = sites_at(start + routine_codes(l.take(i)).len(), l[i].fixups);
    assert forall|k: int| 0 <= k < s.len() implies (#[trigger] s[k]).base + s[k].fixup.at
        + hole_width(s[k].fixup.kind) <= n by {
        assert(within(l[i].code, l[i].fixups));
        assert(s[k].fixup == l[i].fixups[k]);
    }
}

/// Resolves the fixups of all functions.
fn patch_functions(
    text: &mut Vec<u8>,
    start: usize,
    lowered: &Vec<LoweredFn>,
    tables: &Tables,
    env: Ghost<LinkEnv>,
    raw: Ghost<Seq<u8>>,
    done: Ghost<Seq<Site>>,
) -> (r: Result<(), CodegenError>)
    requires
        tables.of(env@),
        all_within(lowered_views(lowered@)),
        start + codes(lowered_views(lowered@)).len() <= old(text)@.len(),
        patch_all(env@, raw@, done@) == Ok::<Seq<u8>, Seq<char>>(old(text)@),
    ensures
        ({
            let s = done@ + fn_sites(start as nat, lowered_views(lowered@));
            match r {
                Ok(_) => patch_all(env@, raw@, s) == Ok::<Seq<u8>, Seq<char>>(final(text)@)
                    && final(text)@.len() == old(text)@.len(),
                Err(e) => patch_fails(env@, raw@, s, e),
            }
        }),
{
    let ghost l = lowered_views(lowered@);
    let ghost len = text@.len();
    let _len: usize = text.len();
    let mut base: usize = start;
    let mut i: usize = 0;
    assert(l.take(0) =~= Seq::empty());
    assert(done@ + fn_sites(start as nat, l.take(0)) =~= done@);
    while i < lowered.len()
        invariant
            tables.of(env@),
            l == lowered_views(lowered@),
            all_within(l),
            start + codes(l).len() <= len <= usize::MAX,
            text@.len() == len,
            i <= l.len(),
            base == start + codes(l.take(i as int)).len(),
            patch_all(env@, raw@, done@ + fn_sites(start as nat, l.take(i as int))) == Ok::<
                Seq<u8>,
                Seq<char>,
            >(text@),
        decreases l.len() - i,
    {
        let ghost here = done@ + fn_sites(start as nat, l.take(i as int));
        proof {
            fn_site_within(start as nat, l, i as int, len);
            codes_prefix(l, i + 1);
            assert(l.take(i + 1).drop_last() =~= l.take(i as int));
            assert(l.take(i + 1).last() == l[i as int]);
        }
        let ghost mine = sites_at(base as nat, l[i as int].fixups);
        proof {
            assert(here + mine =~= done@ + fn_sites(start as nat, l.take(i + 1)));
        }
        match patch_fixups(text, base, &lowered[i].fixups, tables, env, raw, Ghost(here)) {
            Ok(_) => {},
            Err(e) => {
                proof {
                    let s = done@ + fn_sites(start as nat, l);
                    fn_sites_prefix(start as nat, l, i + 1);
                    let n = (here + mine).len() as int;
                    assert(s.take(n) =~= here + mine);
                    failed_at(env@, raw@, s, n, e);
                }
                return Err(e);
            },
        }
        base = base + lowered[i].code.len();
        i = i + 1;
    }
    assert(l.take(i as int) =~= l);
    Ok(())
}

proof fn fn_sites_prefix(start: nat, l: Seq<LoweredView>, i: int)
    requires
        0 <= i <= l.len(),
    ensures
        fn_sites(start, l.take(i)).len() <= fn_sites(start, l).len(),
        fn_sites(start, l).take(fn_sites(start, l.take(i)).len() as int) == fn_sites(
            start,
            l.take(i),
        ),
    decreases l.len(),
{
    if i == l.len() {
        assert(l.take(i) =~= l);
        assert(fn_sites(start, l).take(fn_sites(start, l).len() as int) =~= fn_sites(start, l));
    } else {
        fn_sites_prefix(start, l.drop_last(), i);
        assert(l.drop_last().take(i) =~= l.take(i));
        let n = fn_sites(start, l.take(i)).len() as int;
        assert(fn_sites(start, l).take(n) =~= fn_sites(start, l.drop_last()).take(n));
    }
}

proof fn routine_sites_prefix(start: nat, l: Seq<RoutineView>, i: int)
    requires
        0 <= i <= l.len(),
    ensures
        routine_sites(start, l.take(i)).len() <= routine_sites(start, l).len(),
        routine_sites(start, l).take(routine_sites(start, l.take(i)).len() as int)
            == routine_sites(start, l.take(i)),
    decreases l.len(),
{
    if i == l.len() {
        assert(l.take(i) =~= l);
        assert(routine_sites(start, l).take(routine_sites(start, l).len() as int)
            =~= routine_sites(start, l));
    } else {
        routine_sites_prefix(start, l.drop_last(), i);
        assert(l.drop_last().take(i) =~= l.take(i));
        let n = routine_sites(start, l.take(i)).len() as int;
        assert(routine_sites(start, l).take(n) =~= routine_sites(start, l.drop_last()).take(n));
    }
}

/// Resolves the fixups of all routines.
fn patch_routines(
    text: &mut Vec<u8>,
    start: usize,
    routines: &Vec<Routine>,
    tables: &Tables,
    env: Ghost<LinkEnv>,
    raw: Ghost<Seq<u8>>,
    done: Ghost<Seq<Site>>,
) -> (r: Result<(), CodegenError>)
    requires
        tables.of(env@),
        routines_within(routine_views(routines@)),
        start + routine_codes(routine_views(routines@)).len() <= old(text)@.len(),
        patch_all(env@, raw@, done@) == Ok::<Seq<u8>, Seq<char>>(old(text)@),
    ensures
        ({
            let s = done@ + routine_sites(start as nat, routine_views(routines@));
            match r {
                Ok(_) => patch_all(env@, raw@, s) == Ok::<Seq<u8>, Seq<char>>(final(text)@)
                    && final(text)@.len() == old(text)@.len(),
                Err(e) => patch_fails(env@, raw@, s, e),
            }
        }),
{
    let ghost l = routine_views(routines@);
    let ghost len = text@.len();
    let _len: usize = text.len();
    let mut base: usize = start;
    let mut i: usize = 0;
    assert(l.take(0) =~= Seq::empty());
    assert(done@ + routine_sites(start as nat, l.take(0)) =~= done@);
    while i < routines.len()
        invariant
            tables.of(env@),
            l == routine_views(routines@),
            routines_within(l),
            start + routine_codes(l).len() <= len <= usize::MAX,
            text@.len() == len,
            i <= l.len(),
            base == start + routine_codes(l.take(i as int)).len(),
            patch_all(env@, raw@, done@ + routine_sites(start as nat, l.take(i as int))) == Ok::<
                Seq<u8>,
                Seq<char>,
            >(text@),
        decreases l.len() - i,
    {
        let ghost here = done@ + routine_sites(start as nat, l.take(i as int));
        proof {
            routine_site_within(start as nat, l, i as int, len);
            routine_codes_prefix(l, i + 1);
            assert(l.take(i + 1).drop_last() =~= l.take(i as int));
            assert(l.take(i + 1).last() == l[i as int]);
        }
        let ghost mine = sites_at(base as nat, l[i as int].fixups);
        proof {
            assert(here + mine =~= done@ + routine_sites(start as nat, l.take(i + 1)));
        }
        match patch_fixups(text, base, &routines[i].fixups, tables, env, raw, Ghost(here)) {
            Ok(_) => {},
            Err(e) => {
                proof {
                    let s = done@ + routine_sites(start as nat, l);
                    routine_sites_prefix(start as nat, l, i + 1);
                    let n = (here + mine).len() as int;
                    assert(s.take(n) =~= here + mine);
                    failed_at(env@, raw@, s, n, e);
                }
                return Err(e);
            },
        }
        base = base + routines[i].code.len();
        i = i + 1;
    }
    assert(l.take(i as int) =~= l);
    Ok(())
}

/// The sizes that linking takes: far below the address space.
pub open spec fn link_fits(
    fns: Seq<LoweredView>,
    routines: Seq<RoutineView>,
    rodata_len: nat,
) -> bool {
    codes(fns).len() + routine_codes(routines).len() + rodata_len <= 0x7FFF_FFFF_FF00_0000
}

pub(crate) proof fn program_text_len(
    main: FnId,
    fns: Seq<LoweredView>,
    routines: Seq<RoutineView>,
    rng_state: u32,
    reg_next: u32,
    rodata_len: nat,
)
    requires
        link_fits(fns, routines, rodata_len),
    ensures
        program_text(main, fns, routines, rng_state, reg_next, rodata_len) matches Ok(t) ==> t.len()
            + rodata_len <= 0x7FFF_FFFF_FF00_1000,
{
    let env = program_env(main, fns, routines, rng_state, reg_next, rodata_len);
    start_code_short(main, needs_runtime(fns), rng_state, reg_next);
    patch_len(
        env,
        raw_text(main, fns, routines, rng_state, reg_next),
        program_sites(main, env, needs_runtime(fns), rng_state, reg_next),
    );
}

pub(crate) proof fn start_code_short(main: FnId, needs: bool, rng_state: u32, reg_next: u32)
    ensures
        start_code(main, needs, rng_state, reg_next).len() <= 200,
        within(
            start_code(main, needs, rng_state, reg_next),
            start_fixups(main, needs, rng_state, reg_next),
        ),
{
    let s = start_state(main, needs, rng_state, reg_next);
    start_instrs_ok(main, needs, rng_state, reg_next);
    crate::peephole::optimize_keeps(s.instrs);
    let t = s.peephole().instrs;
    crate::encode::linked_length(t);
    crate::encode::fixups_in_code(t);
    crate::encode::outer_members(fixups_of(t));
    let f = outer(fixups_of(t));
    assert forall|k: int| 0 <= k < f.len() implies (#[trigger] f[k]).at + hole_width(f[k].kind)
        <= linked_code(t).len() by {
        assert(fixups_of(t).contains(f[k]));
        let j = choose|j: int| 0 <= j < fixups_of(t).len() && fixups_of(t)[j] == f[k];
        assert(fixups_of(t)[j].at + hole_width(fixups_of(t)[j].kind) <= crate::peephole::flat(
            t,
        ).len());
    }
}

pub(crate) proof fn start_instrs_ok(main: FnId, needs: bool, rng_state: u32, reg_next: u32)
    ensures
        crate::peephole::all_ok(start_state(main, needs, rng_state, reg_next).instrs),
        crate::peephole::flat(start_state(main, needs, rng_state, reg_next).instrs).len() <= 200,
{
    reveal(AsmState::mov_ri_state);
    reveal(AsmState::mov_ri);
    reveal(AsmState::mov_store_mem);
    reveal(AsmState::xor_rr);
    reveal(AsmState::call_fn);
    reveal(AsmState::mov_rr);
    reveal(AsmState::syscall);
    let s = start_state(main, needs, rng_state, reg_next).instrs;
    assert(s.len() <= 11);
    assert forall|i: int| 0 <= i < s.len() implies crate::encode::ins_ok(#[trigger] s[i])
        && s[i].bytes.len() <= 16 by {
        reveal(crate::encode::hole_open);
    }
    short_code(s);
}

proof fn short_code(s: Seq<crate::peephole::Ins>)
    requires
        forall|i: int| 0 <= i < s.len() ==> (#[trigger] s[i]).bytes.len() <= 16,
    ensures
        crate::peephole::flat(s).len() <= 16 * s.len(),
    decreases s.len(),
{
    if s.len() > 0 {
        let s0 = s.drop_last();
        assert forall|i: int| 0 <= i < s0.len() implies (#[trigger] s0[i]).bytes.len() <= 16 by {
            assert(s[i] == s0[i]);
        }
        short_code(s0);
        assert(s[s.len() - 1] == s.last());
    }
}

/// Links the text of a program.
pub fn link_text(
    main: FnId,
    lowered: &Vec<LoweredFn>,
    runtime: &Runtime,
    rodata_len: usize,
) -> (r: Result<Vec<u8>, CodegenError>)
    requires
        all_within(lowered_views(lowered@)),
        routines_within(routine_views(runtime.routines@)),
        link_fits(
            lowered_views(lowered@),
            routine_views(runtime.routines@),
            rodata_len as nat,
        ),
    ensures
        ({
            let p = program_text(
                main,
                lowered_views(lowered@),
                routine_views(runtime.routines@),
                runtime.rng_state,
                runtime.reg_next,
                rodata_len as nat,
            );
            match r {
                Ok(t) => p == Ok::<Seq<u8>, Seq<char>>(t@) && t@.len() + rodata_len <= 0x7FFF_FFFF_FF00_1000,
                Err(e) => p is Err && e.unsupported(p->Err_0),
            }
        }),
{
    let ghost l = lowered_views(lowered@);
    let ghost rts = routine_views(runtime.routines@);
    let needs = lowered_need(lowered);
    let shim = build_start_shim(main, needs, runtime.rng_state, runtime.reg_next);
    proof {
        start_state_closed(main, needs, runtime.rng_state, runtime.reg_next);
        start_code_short(main, needs, runtime.rng_state, runtime.reg_next);
    }
    let (start_code_vec, start_fixups_vec) = shim.finish();
    let start: usize = start_code_vec.len();
    let mut text: Vec<u8> = Vec::new();
    push_all(&mut text, start_code_vec.as_slice());
    assert(text@ =~= start_code_vec@);
    let fns = place_functions(&mut text, lowered);
    let routines_start: usize = text.len();
    if needs {
        place_routines(&mut text, &runtime.routines);
    }
    let ghost raw = raw_text(main, l, rts, runtime.rng_state, runtime.reg_next);
    assert(text@ =~= raw);
    let rodata: u64 = rodata_vaddr_for(text.len());
    let state: u64 = state_vaddr_for(text.len(), rodata_len);
    let ghost env = program_env(
        main,
        l,
        rts,
        runtime.rng_state,
        runtime.reg_next,
        rodata_len as nat,
    );
    proof {
        crate::elf::segments_page_congruent(raw.len() as int, rodata_len as int);
        crate::elf::rounded_facts(
            rodata_off(raw.len() as int) + rodata_len,
            crate::elf::PAGE as int,
        );
    }
    let tables = Tables {
        fns,
        routines: &runtime.routines,
        with_routines: needs,
        routines_start,
        rodata,
        state,
    };
    let ghost none: Seq<Site> = Seq::empty();
    let ghost s1 = sites_at(
        0,
        start_fixups(main, needs, runtime.rng_state, runtime.reg_next),
    );
    let ghost s2 = s1 + fn_sites(env.start, l);
    let ghost all = program_sites(main, env, needs, runtime.rng_state, runtime.reg_next);
    proof {
        assert(none + s1 =~= s1);
        assert(sites_within(s1, text@.len())) by {
            let f = start_fixups(main, needs, runtime.rng_state, runtime.reg_next);
            assert forall|k: int| 0 <= k < s1.len() implies (#[trigger] s1[k]).base
                + s1[k].fixup.at + hole_width(s1[k].fixup.kind) <= text@.len() by {
                assert(s1[k].fixup == f[k]);
            }
        }
        assert(all == s2 + routine_sites(env.routines_start(), env.routines));
        assert(all.take(s1.len() as int) =~= s1);
        assert(all.take(s2.len() as int) =~= s2);
    }
    match patch_fixups(
        &mut text,
        0,
        &start_fixups_vec,
        &tables,
        Ghost(env),
        Ghost(raw),
        Ghost(none),
    ) {
        Ok(_) => {},
        Err(e) => {
            proof {
                failed_at(env, raw, all, s1.len() as int, e);
            }
            return Err(e);
        },
    }
    match patch_functions(&mut text, start, lowered, &tables, Ghost(env), Ghost(raw), Ghost(s1)) {
        Ok(_) => {},
        Err(e) => {
            proof {
                failed_at(env, raw, all, s2.len() as int, e);
            }
            return Err(e);
        },
    }
    if needs {
        match patch_routines(
            &mut text,
            routines_start,
            &runtime.routines,
            &tables,
            Ghost(env),
            Ghost(raw),
            Ghost(s2),
        ) {
            Ok(_) => {},
            Err(e) => {
                return Err(e);
            },
        }
    } else {
        assert(all =~= s2);
    }
    Ok(text)
}

/// The debug sections of a linked program, where there is a debug context.
pub open spec fn program_debug(
    prog: MirProgram,
    main: FnId,
    fns: Seq<LoweredView>,
    runtime: Runtime,
    debug: Option<&DebugCtx>,
) -> Option<DebugView> {
    match debug {
        None => None,
        Some(ctx) => Some(
            sections(
                dwarf_of(
                    prog,
                    fns,
                    start_code(
                        main,
                        needs_runtime(fns),
                        runtime.rng_state,
                        runtime.reg_next,
                    ).len(),
                    raw_text(
                        main,
                        fns,
                        routine_views(runtime.routines@),
                        runtime.rng_state,
                        runtime.reg_next,
                    ).len() as u64,
                    TEXT_VADDR,
                    *ctx,
                ),
            ),
        ),
    }
}

/// Whether the parts of a program are in order for linking.
pub open spec fn link_ready(
    prog: MirProgram,
    fns: Seq<LoweredView>,
    runtime: Runtime,
    debug: Option<&DebugCtx>,
) -> bool {
    &&& all_within(fns)
    &&& routines_within(routine_views(runtime.routines@))
    &&& debug matches Some(ctx) ==> segments_ok(ctx.source_map@) && marks_ok(prog, fns)
        && mark_count(fns) < 0xFFFF_FFF0
}

/// The message for a program that does not fit the address space.
pub open spec fn too_large_message() -> Seq<char> {
    "the program does not fit the address space"@
}

/// The error for a program that does not fit the address space.
pub(crate) fn too_large() -> (r: CodegenError)
    ensures
        r.unsupported(too_large_message()),
{
    unsupported("the program does not fit the address space")
}

/// The number of code bytes.
pub(crate) fn code_bytes(lowered: &Vec<LoweredFn>) -> (r: u128)
    ensures
        r == codes(lowered_views(lowered@)).len(),
{
    let ghost l = lowered_views(lowered@);
    let mut n: u128 = 0;
    let mut i: usize = 0;
    while i < lowered.len()
        invariant
            l == lowered_views(lowered@),
            i <= lowered@.len(),
            n == codes(l.take(i as int)).len(),
            n <= i * (usize::MAX as int),
        decreases lowered@.len() - i,
    {
        proof {
            assert(l.take(i + 1).drop_last() =~= l.take(i as int));
            assert(l.take(i + 1).last() == lowered@[i as int]@);
            assert((i + 1) * (usize::MAX as int) == i * (usize::MAX as int) + usize::MAX)
                by (nonlinear_arith);
            assert((i + 1) * (usize::MAX as int) <= (usize::MAX as int) * (usize::MAX as int))
                by (nonlinear_arith)
                requires
                    i + 1 <= usize::MAX,
                    usize::MAX >= 0,
            ;
            assert((usize::MAX as int) * (usize::MAX as int) <= 0xFFFF_FFFF_FFFF_FFFF
                * 0xFFFF_FFFF_FFFF_FFFF) by (nonlinear_arith)
                requires
                    0 <= usize::MAX <= 0xFFFF_FFFF_FFFF_FFFF,
            ;
        }
        let _len: usize = lowered[i].code.len();
        n = n + lowered[i].code.len() as u128;
        i = i + 1;
    }
    assert(l.take(i as int) =~= l);
    n
}

fn routine_bytes(routines: &Vec<Routine>) -> (r: u128)
    ensures
        r == routine_codes(routine_views(routines@)).len(),
{
    let ghost l = routine_views(routines@);
    let mut n: u128 = 0;
    let mut i: usize = 0;
    while i < routines.len()
        invariant
            l == routine_views(routines@),
            i <= routines@.len(),
            n == routine_codes(l.take(i as int)).len(),
            n <= i * (usize::MAX as int),
        decreases routines@.len() - i,
    {
        proof {
            assert(l.take(i + 1).drop_last() =~= l.take(i as int));
            assert(l.take(i + 1).last() == routines@[i as int]@);
            assert((i + 1) * (usize::MAX as int) == i * (usize::MAX as int) + usize::MAX)
                by (nonlinear_arith);
            assert((i + 1) * (usize::MAX as int) <= (usize::MAX as int) * (usize::MAX as int))
                by (nonlinear_arith)
                requires
                    i + 1 <= usize::MAX,
                    usize::MAX >= 0,
            ;
            assert((usize::MAX as int) * (usize::MAX as int) <= 0xFFFF_FFFF_FFFF_FFFF
                * 0xFFFF_FFFF_FFFF_FFFF) by (nonlinear_arith)
                requires
                    0 <= usize::MAX <= 0xFFFF_FFFF_FFFF_FFFF,
            ;
        }
        let _len: usize = routines[i].code.len();
        n = n + routines[i].code.len() as u128;
        i = i + 1;
    }
    assert(l.take(i as int) =~= l);
    n
}

/// Whether `r` is the executable of a program, or why there is none: no entry, code and
/// data beyond the address space, or a fixup that cannot be resolved.
pub open spec fn linked_program(
    prog: MirProgram,
    fns: Seq<LoweredView>,
    rodata: Seq<u8>,
    runtime: Runtime,
    debug: Option<&DebugCtx>,
    r: Result<ElfImage, CodegenError>,
) -> bool {
    match entry_of(prog, 0) {
        None => r == Err::<ElfImage, CodegenError>(CodegenError::NoMain),
        Some(main) => {
            let rts = routine_views(runtime.routines@);
            let p = program_text(main, fns, rts, runtime.rng_state, runtime.reg_next, rodata.len());
            let d = program_debug(prog, main, fns, runtime, debug);
            let state_size = if needs_runtime(fns) {
                runtime.state_size
            } else {
                0
            };
            match r {
                Ok(img) => {
                    &&& link_fits(fns, rts, rodata.len())
                    &&& p is Ok
                    &&& debug_total(d) <= 0x7FFF_FFFF_FF00_0000
                    &&& img.bytes@ == elf_file(p->Ok_0, rodata, state_size, 0x3E, d)
                    &&& img.text_len == p->Ok_0.len()
                    &&& img.text_vaddr == TEXT_VADDR
                    &&& img.rodata_vaddr == LOAD_BASE + rodata_off(p->Ok_0.len() as int)
                    &&& img.state_vaddr == (if state_size > 0 {
                        LOAD_BASE + state_off(p->Ok_0.len() as int, rodata.len() as int)
                    } else {
                        0
                    })
                },
                Err(e) => if !link_fits(fns, rts, rodata.len()) {
                    e.unsupported(too_large_message())
                } else if p is Err {
                    e.unsupported(p->Err_0)
                } else {
                    debug_total(d) > 0x7FFF_FFFF_FF00_0000 && e.unsupported(too_large_message())
                },
            }
        },
    }
}

/// Links lowered functions into an x86-64 executable.
pub fn link_program_x86(
    prog: &MirProgram,
    lowered: &Vec<LoweredFn>,
    rodata: &RoData,
    runtime: &Runtime,
    debug: Option<&DebugCtx>,
) -> (r: Result<ElfImage, CodegenError>)
    requires
        link_ready(*prog, lowered_views(lowered@), *runtime, debug),
    ensures
        linked_program(*prog, lowered_views(lowered@), rodata@.bytes, *runtime, debug, r),
{
    let main: FnId = match find_main(prog) {
        Some(m) => m,
        None => {
            return Err(CodegenError::NoMain);
        },
    };
    let ghost fns = lowered_views(lowered@);
    let bytes = rodata.bytes();
    let own: u128 = code_bytes(lowered);
    let theirs: u128 = routine_bytes(&runtime.routines);
    if own > 0x7FFF_FFFF_FF00_0000 || theirs > 0x7FFF_FFFF_FF00_0000 || own + theirs
        + bytes.len() as u128 > 0x7FFF_FFFF_FF00_0000 {
        return Err(too_large());
    }
    let text = match link_text(main, lowered, runtime, bytes.len()) {
        Ok(t) => t,
        Err(e) => {
            return Err(e);
        },
    };
    proof {
        let env = program_env(
            main,
            fns,
            routine_views(runtime.routines@),
            runtime.rng_state,
            runtime.reg_next,
            rodata@.bytes.len(),
        );
        patch_len(
            env,
            raw_text(
                main,
                fns,
                routine_views(runtime.routines@),
                runtime.rng_state,
                runtime.reg_next,
            ),
            program_sites(
                main,
                env,
                needs_runtime(fns),
                runtime.rng_state,
                runtime.reg_next,
            ),
        );
        start_code_short(main, needs_runtime(fns), runtime.rng_state, runtime.reg_next);
    }
    let needs = lowered_need(lowered);
    let state_size: u64 = if needs {
        runtime.state_size
    } else {
        0
    };
    match debug {
        None => Ok(write_elf_with_debug(text.as_slice(), bytes, state_size, 0x3E, None)),
        Some(ctx) => {
            let shim = build_start_shim(main, needs, runtime.rng_state, runtime.reg_next);
            proof {
                start_state_closed(main, needs, runtime.rng_state, runtime.reg_next);
            }
            let (start_bytes, _fixups) = shim.finish();
            let sections = build_dwarf(
                prog,
                lowered,
                start_bytes.len(),
                text.len() as u64,
                TEXT_VADDR,
                ctx,
            );
            if sections.info.len() as u128 + sections.abbrev.len() as u128 + sections.line.len() as u128
                + sections.str_.len() as u128 > 0x7FFF_FFFF_FF00_0000 {
                return Err(too_large());
            }
            Ok(write_elf_with_debug(text.as_slice(), bytes, state_size, 0x3E, Some(&sections)))
        },
    }
}

} // verus!
