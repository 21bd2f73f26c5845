//! Compiling whole programs: lower every function, then link.
use vstd::prelude::*;

use crate::text::base_of;
use crate::lines::{belongs, mark_at, settled_from, settled_instrs};
use crate::aarch64;
use crate::aarch64::link::link_program_aarch64;
use crate::aarch64::lower::env::{A64Low, Aarch64FnLower};
use crate::aarch64::lower::func::{a64_env_of, a64_function_ok};
use crate::debug_info::{
    DebugCtx, dwarf_of, mapped_line, mark_count, mark_is_in_the_table, marks_ok, segments_ok,
};
use crate::elf::{DebugView, ElfImage, debug_only_adds, debug_total};
use crate::encode::{AsmState, Fixup, LabelId, apart, fixups_of, linked_code, outer};
use crate::intern::Pool;
use crate::link::{
    LineMark, LoweredFn, LoweredView, Runtime, all_within, any_needs, codes, entry_of, find_main,
    fixups_need, link_program_x86, linked_program, lowered_views, needs_runtime, program_debug,
    program_text, program_text_len, routine_views, routines_within, within,
};
use crate::linked::all_apart;
use crate::lower::env::{Env, FnLower, LowState, RegAlloc};
use crate::lower::func::{env_of, function_ok, line_of_statement_is_marked, note_of, sound};
use crate::mir::{Block, MirFunction, MirProgram};
use crate::obj::ObjectImage;
use crate::object::{
    fn_relocs, is_object, link_object, needs_runtime_message, no_object_for, object_ready,
    program_relocs_env, some_needs, wrong_target,
};
use crate::runtime::RuntimeAbi;
use crate::target::Target;
use crate::{CodegenError, RoData, unsupported};

verus! {

/// What compiling takes beside the program: where the locals of each function live, and
/// the runtime support library.
pub struct Support {
    /// The register allocation of each function.
    pub allocs: Vec<RegAlloc>,
    /// What compiled code knows of the runtime.
    pub abi: RuntimeAbi,
    /// The runtime itself.
    pub runtime: Runtime,
}

/// Lowered functions and their data, or the first construct that is not supported.
pub struct Batch {
    pub fns: Seq<LoweredView>,
    pub ro: Pool,
    pub err: Option<Seq<char>>,
}

impl Batch {
    /// No functions.
    pub open spec fn start() -> Batch {
        Batch { fns: Seq::empty(), ro: Pool::start(Seq::empty()), err: None }
    }
}

/// Whether a program can be compiled to x86-64: its functions can be lowered, have
/// numbers, and the fixups of the runtime lie within it.
pub open spec fn program_ok(prog: MirProgram, sup: Support) -> bool {
    &&& prog.funcs@.len() <= 0x7FFE_0000
    &&& sup.allocs@.len() == prog.funcs@.len()
    &&& forall|i: int|
        0 <= i < prog.funcs@.len() ==> (#[trigger] prog.funcs@[i]).id.0 < prog.funcs@.len()
            && function_ok(prog, prog.funcs@[i], sup.abi, sup.allocs@[i])
    &&& routines_within(routine_views(sup.runtime.routines@))
}

/// Whether a program can be compiled to AArch64.
pub open spec fn a64_program_ok(prog: MirProgram) -> bool {
    forall|i: int| 0 <= i < prog.funcs@.len() ==> a64_function_ok(prog, #[trigger] prog.funcs@[i])
}

/// Whether a program can be compiled to a target.
pub open spec fn compilable(prog: MirProgram, target: Target, sup: Support) -> bool {
    match target {
        Target::X86_64Linux => program_ok(prog, sup),
        Target::Aarch64Linux => a64_program_ok(prog),
    }
}

/// The `i`-th function behind the data `ro`.
pub open spec fn x86_function(prog: MirProgram, sup: Support, i: int, ro: Pool) -> LowState {
    env_of(prog, prog.funcs@[i], sup.abi, sup.allocs@[i]).lowered_behind(ro, true)
}

/// What linking gets of a lowered function, without its lines.
pub open spec fn x86_view(prog: MirProgram, i: int, w: LowState) -> LoweredView {
    LoweredView {
        id: prog.funcs@[i].id,
        code: linked_code(w.text.peephole().instrs),
        fixups: outer(fixups_of(w.text.peephole().instrs)),
        marks: Seq::empty(),
    }
}

/// What linking gets of the `i`-th function behind the data `ro`.
pub open spec fn x86_lined(prog: MirProgram, sup: Support, i: int, ro: Pool) -> LoweredView {
    LoweredView {
        marks: env_of(prog, prog.funcs@[i], sup.abi, sup.allocs@[i]).line_marks(ro, true),
        ..x86_view(prog, i, x86_function(prog, sup, i, ro))
    }
}

/// The number of statements in blocks.
pub open spec fn stmt_count(blocks: Seq<Block>) -> nat
    decreases blocks.len(),
{
    if blocks.len() == 0 {
        0
    } else {
        stmt_count(blocks.drop_last()) + blocks.last().stmts@.len()
    }
}

/// The number of statements in functions.
pub open spec fn total_stmts(funcs: Seq<MirFunction>) -> nat
    decreases funcs.len(),
{
    if funcs.len() == 0 {
        0
    } else {
        total_stmts(funcs.drop_last()) + stmt_count(funcs.last().blocks@)
    }
}

/// Whether the rows of a program's statements can be told apart by file numbers of 32 bits.
pub open spec fn lines_ok(prog: MirProgram) -> bool {
    total_stmts(prog.funcs@) <= 0x8000_0000
}

proof fn stmt_notes_few(env: Env, s: LowState, b: Block, i: int)
    requires
        0 <= i <= b.stmts@.len(),
    ensures
        env.stmt_notes_from(s, b, i).len() <= b.stmts@.len() - i,
    decreases b.stmts@.len() - i,
{
    if i < b.stmts@.len() {
        stmt_notes_few(env, env.lower_stmt(s, b.stmts[i]), b, i + 1);
    }
}

proof fn notes_few(env: Env, s: LowState, i: int)
    requires
        0 <= i <= env.func.blocks@.len(),
    ensures
        env.notes_from(s, i).len() + stmt_count(env.func.blocks@.take(i)) <= stmt_count(
            env.func.blocks@,
        ),
    decreases env.func.blocks@.len() - i,
{
    let blocks = env.func.blocks@;
    if i < blocks.len() {
        let t = s.on(s.text.bind(LabelId(i as u32)));
        stmt_notes_few(env, t, blocks[i], 0);
        notes_few(env, env.lower_block_body(t, blocks[i]), i + 1);
        assert(blocks.take(i + 1).drop_last() =~= blocks.take(i));
        assert(blocks.take(i + 1).last() == blocks[i]);
    } else {
        assert(blocks.take(i) =~= blocks);
    }
}

proof fn line_notes_few(env: Env, ro: Pool)
    ensures
        env.line_notes(ro, true).len() <= stmt_count(env.func.blocks@),
{
    let s = LowState { text: AsmState::empty(true), ro, err: None };
    let s = s.on(s.text.reserve_labels(env.func.blocks@.len()));
    notes_few(env, env.lower_entry(s), 0);
}

pub(crate) proof fn stmts_grow(blocks: Seq<Block>, i: int)
    requires
        0 <= i <= blocks.len(),
    ensures
        stmt_count(blocks.take(i)) <= stmt_count(blocks),
    decreases blocks.len(),
{
    if i == blocks.len() {
        assert(blocks.take(i) =~= blocks);
    } else {
        stmts_grow(blocks.drop_last(), i);
        assert(blocks.drop_last().take(i) =~= blocks.take(i));
    }
}

pub(crate) proof fn total_grows(funcs: Seq<MirFunction>, i: int)
    requires
        0 <= i <= funcs.len(),
    ensures
        total_stmts(funcs.take(i)) <= total_stmts(funcs),
    decreases funcs.len(),
{
    if i == funcs.len() {
        assert(funcs.take(i) =~= funcs);
    } else {
        total_grows(funcs.drop_last(), i);
        assert(funcs.drop_last().take(i) =~= funcs.take(i));
    }
}

/// The first `n` functions.
pub open spec fn x86_batch(prog: MirProgram, sup: Support, n: int) -> Batch
    decreases n,
{
    if n <= 0 {
        Batch::start()
    } else {
        let b = x86_batch(prog, sup, n - 1);
        let w = x86_function(prog, sup, n - 1, b.ro);
        if b.err is Some {
            b
        } else if w.err is Some {
            Batch { err: w.err, ..b }
        } else {
            Batch { fns: b.fns.push(x86_lined(prog, sup, n - 1, b.ro)), ro: w.ro, err: None }
        }
    }
}

/// The first `n` functions for an object: those that are defined here, none of which
/// may need the runtime.
pub open spec fn object_batch(prog: MirProgram, sup: Support, n: int) -> Batch
    decreases n,
{
    if n <= 0 {
        Batch::start()
    } else {
        let b = object_batch(prog, sup, n - 1);
        let w = x86_function(prog, sup, n - 1, b.ro);
        if b.err is Some || prog.funcs@[n - 1].is_extern_decl {
            b
        } else if w.err is Some {
            Batch { err: w.err, ..b }
        } else if any_needs(x86_view(prog, n - 1, w).fixups) {
            Batch { err: Some(needs_runtime_message()), ..b }
        } else {
            Batch { fns: b.fns.push(x86_view(prog, n - 1, w)), ro: w.ro, err: None }
        }
    }
}

/// The `i`-th function behind the data `ro`.
pub open spec fn a64_function(prog: MirProgram, i: int, ro: Pool) -> A64Low {
    a64_env_of(prog, prog.funcs@[i]).lowered_behind(ro)
}

/// What linking gets of a lowered function.
pub open spec fn a64_view(prog: MirProgram, i: int, w: A64Low) -> LoweredView {
    LoweredView {
        id: prog.funcs@[i].id,
        code: aarch64::encode::resolved(w.text.code, w.text.labels, w.text.branches),
        fixups: w.text.fixups,
        marks: Seq::empty(),
    }
}

/// The first `n` functions.
pub open spec fn a64_batch(prog: MirProgram, n: int) -> Batch
    decreases n,
{
    if n <= 0 {
        Batch::start()
    } else {
        let b = a64_batch(prog, n - 1);
        let w = a64_function(prog, n - 1, b.ro);
        if b.err is Some {
            b
        } else if w.err is Some {
            Batch { err: w.err, ..b }
        } else {
            Batch { fns: b.fns.push(a64_view(prog, n - 1, w)), ro: w.ro, err: None }
        }
    }
}

proof fn x86_batch_stops(prog: MirProgram, sup: Support, i: int, n: int)
    requires
        0 <= i <= n,
        x86_batch(prog, sup, i).err is Some,
    ensures
        x86_batch(prog, sup, n).err == x86_batch(prog, sup, i).err,
    decreases n,
{
    if i < n {
        x86_batch_stops(prog, sup, i, n - 1);
    }
}

proof fn object_batch_stops(prog: MirProgram, sup: Support, i: int, n: int)
    requires
        0 <= i <= n,
        object_batch(prog, sup, i).err is Some,
    ensures
        object_batch(prog, sup, n).err == object_batch(prog, sup, i).err,
    decreases n,
{
    if i < n {
        object_batch_stops(prog, sup, i, n - 1);
    }
}

proof fn a64_batch_stops(prog: MirProgram, i: int, n: int)
    requires
        0 <= i <= n,
        a64_batch(prog, i).err is Some,
    ensures
        a64_batch(prog, n).err == a64_batch(prog, i).err,
    decreases n,
{
    if i < n {
        a64_batch_stops(prog, i, n - 1);
    }
}

/// Whether `r` is the batch `b`.
pub open spec fn batched(r: Result<(Vec<LoweredFn>, RoData), CodegenError>, b: Batch) -> bool {
    match r {
        Ok((fns, ro)) => b.err is None && lowered_views(fns@) == b.fns && ro@ == b.ro,
        Err(e) => b.err is Some && e.unsupported(b.err.unwrap()),
    }
}

fn lowered_fn(
    prog: &MirProgram,
    i: usize,
    code: Vec<u8>,
    fixups: Vec<Fixup>,
    line_marks: Vec<LineMark>,
) -> (r: LoweredFn)
    requires
        i < prog.funcs@.len(),
    ensures
        r@ == (LoweredView {
            id: prog.funcs@[i as int].id,
            code: code@,
            fixups: fixups@,
            marks: line_marks@,
        }),
{
    LoweredFn { id: prog.funcs[i].id, code, fixups, line_marks }
}

fn no_marks() -> (r: Vec<LineMark>)
    ensures
        r@ == Seq::<LineMark>::empty(),
{
    let r: Vec<LineMark> = Vec::new();
    assert(r@ =~= Seq::empty());
    r
}

/// Whether the marks of the `i`-th function lie within its code, and are no more than its
/// statements.
pub open spec fn lines_fit_in(prog: MirProgram, f: LoweredView, i: int) -> bool {
    &&& f.marks.len() <= stmt_count(prog.funcs@[i].blocks@)
    &&& forall|k: int| 0 <= k < f.marks.len() ==> (#[trigger] f.marks[k]).at <= f.code.len()
}

/// Whether the `i`-th function of a program is [`sound`].
pub open spec fn sound_at(prog: MirProgram, sup: Support, i: int) -> bool {
    sound(x86_function(prog, sup, i, x86_batch(prog, sup, i).ro).text)
}

/// Lowers all functions.
fn lower_x86(
    prog: &MirProgram,
    sup: &Support,
) -> (r: Result<(Vec<LoweredFn>, RoData), CodegenError>)
    requires
        program_ok(*prog, *sup),
    ensures
        batched(r, x86_batch(*prog, *sup, prog.funcs@.len() as int)),
        r matches Ok((fns, ro)) ==> all_within(lowered_views(fns@)) && all_apart(
            lowered_views(fns@),
        ) && fns@.len() == prog.funcs@.len() && forall|k: int|
            0 <= k < fns@.len() ==> (#[trigger] fns@[k]).id == prog.funcs@[k].id && lines_fit_in(
                *prog,
                fns@[k]@,
                k,
            ) && sound_at(*prog, *sup, k),
{
    let mut rodata = RoData::new();
    let mut fns: Vec<LoweredFn> = Vec::new();
    let n: usize = prog.funcs.len();
    assert(lowered_views(fns@) =~= Seq::empty());
    let mut i: usize = 0;
    while i < n
        invariant
            program_ok(*prog, *sup),
            n == prog.funcs@.len(),
            i <= n,
            rodata@.wf(),
            fns@.len() == i,
            all_within(lowered_views(fns@)),
            all_apart(lowered_views(fns@)),
            forall|k: int|
                0 <= k < i ==> (#[trigger] fns@[k]).id == prog.funcs@[k].id && lines_fit_in(
                    *prog,
                    fns@[k]@,
                    k,
                ) && sound_at(*prog, *sup, k),
            ({
                let b = x86_batch(*prog, *sup, i as int);
                &&& b.err is None
                &&& b.fns == lowered_views(fns@)
                &&& b.ro == rodata@
            }),
        decreases n - i,
    {
        let ghost before = lowered_views(fns@);
        assert(function_ok(*prog, prog.funcs@[i as int], sup.abi, sup.allocs@[i as int]));
        let cx = FnLower::new(prog, &prog.funcs[i], &sup.abi, &sup.allocs[i]);
        let ghost ro = rodata@;
        match cx.lower_with_lines(&mut rodata) {
            Ok(triple) => {
                let (code, fixups, marks) = triple;
                let f = lowered_fn(prog, i, code, fixups, marks);
                assert(within(f@.code, f@.fixups));
                let ghost fv = f@;
                proof {
                    let env = env_of(
                        *prog,
                        prog.funcs@[i as int],
                        sup.abi,
                        sup.allocs@[i as int],
                    );
                    line_notes_few(env, ro);
                    assert(lines_fit_in(*prog, fv, i as int));
                    assert(fv == x86_lined(*prog, *sup, i as int, ro));
                }
                fns.push(f);
                proof {
                    assert(lowered_views(fns@) =~= before.push(fv));
                    assert forall|k: int| 0 <= k < fns@.len() implies within(
                        (#[trigger] lowered_views(fns@)[k]).code,
                        lowered_views(fns@)[k].fixups,
                    ) && apart(lowered_views(fns@)[k].fixups) by {
                        if k < i {
                            assert(lowered_views(fns@)[k] == before[k]);
                        }
                    }
                }
            },
            Err(e) => {
                proof {
                    x86_batch_stops(*prog, *sup, i + 1, n as int);
                }
                return Err(e);
            },
        }
        i = i + 1;
    }
    Ok((fns, rodata))
}

/// Lowers all functions that are defined here.
fn lower_for_object(prog: &MirProgram, sup: &Support) -> (r: Result<
    (Vec<LoweredFn>, RoData),
    CodegenError,
>)
    requires
        program_ok(*prog, *sup),
    ensures
        batched(r, object_batch(*prog, *sup, prog.funcs@.len() as int)),
        r matches Ok((fns, ro)) ==> object_ready(*prog, lowered_views(fns@)) && !some_needs(
            lowered_views(fns@),
        ),
{
    let mut rodata = RoData::new();
    let mut fns: Vec<LoweredFn> = Vec::new();
    let n: usize = prog.funcs.len();
    assert(lowered_views(fns@) =~= Seq::empty());
    let mut i: usize = 0;
    while i < n
        invariant
            program_ok(*prog, *sup),
            n == prog.funcs@.len(),
            i <= n,
            rodata@.wf(),
            fns@.len() <= i,
            object_ready(*prog, lowered_views(fns@)),
            !some_needs(lowered_views(fns@)),
            ({
                let b = object_batch(*prog, *sup, i as int);
                &&& b.err is None
                &&& b.fns == lowered_views(fns@)
                &&& b.ro == rodata@
            }),
        decreases n - i,
    {
        let ghost before = lowered_views(fns@);
        assert(function_ok(*prog, prog.funcs@[i as int], sup.abi, sup.allocs@[i as int]));
        if !prog.funcs[i].is_extern_decl {
            let cx = FnLower::new(prog, &prog.funcs[i], &sup.abi, &sup.allocs[i]);
            match cx.lower(&mut rodata) {
                Ok(pair) => {
                    let (code, fixups) = pair;
                    if fixups_need(&fixups) {
                        proof {
                            object_batch_stops(*prog, *sup, i + 1, n as int);
                        }
                        return Err(
                            unsupported(
                                "a program using the `*System` runtime (heap / capabilities) cannot be linked with libc; build it with the freestanding `build-native` path or run it on the VM",
                            ),
                        );
                    }
                    let f = lowered_fn(prog, i, code, fixups, no_marks());
                    assert(within(f@.code, f@.fixups));
                    let ghost fv = f@;
                    fns.push(f);
                    proof {
                        let after = lowered_views(fns@);
                        assert(after =~= before.push(fv));
                        assert forall|k: int| 0 <= k < after.len() implies (
                        #[trigger] after[k]).id.0 < prog.funcs@.len() && within(
                            after[k].code,
                            after[k].fixups,
                        ) && !any_needs(after[k].fixups) by {
                            if k < before.len() {
                                assert(after[k] == before[k]);
                            }
                        }
                    }
                },
                Err(e) => {
                    proof {
                        object_batch_stops(*prog, *sup, i + 1, n as int);
                    }
                    return Err(e);
                },
            }
        }
        i = i + 1;
    }
    Ok((fns, rodata))
}

/// Lowers all functions.
fn lower_aarch64(prog: &MirProgram) -> (r: Result<(Vec<LoweredFn>, RoData), CodegenError>)
    requires
        a64_program_ok(*prog),
    ensures
        batched(r, a64_batch(*prog, prog.funcs@.len() as int)),
        r matches Ok((fns, ro)) ==> aarch64::link::all_within(lowered_views(fns@))
            && aarch64::linked::all_in_order(lowered_views(fns@)),
{
    let mut rodata = RoData::new();
    let mut fns: Vec<LoweredFn> = Vec::new();
    let n: usize = prog.funcs.len();
    assert(lowered_views(fns@) =~= Seq::empty());
    let mut i: usize = 0;
    while i < n
        invariant
            a64_program_ok(*prog),
            n == prog.funcs@.len(),
            i <= n,
            rodata@.wf(),
            fns@.len() == i,
            aarch64::link::all_within(lowered_views(fns@)),
            aarch64::linked::all_in_order(lowered_views(fns@)),
            ({
                let b = a64_batch(*prog, i as int);
                &&& b.err is None
                &&& b.fns == lowered_views(fns@)
                &&& b.ro == rodata@
            }),
        decreases n - i,
    {
        let ghost before = lowered_views(fns@);
        assert(a64_function_ok(*prog, prog.funcs@[i as int]));
        let cx = Aarch64FnLower::new(prog, &prog.funcs[i]);
        match cx.lower(&mut rodata) {
            Ok(pair) => {
                let (code, fixups) = pair;
                let f = lowered_fn(prog, i, code, fixups, no_marks());
                let ghost fv = f@;
                fns.push(f);
                proof {
                    let after = lowered_views(fns@);
                    assert(after =~= before.push(fv));
                    assert forall|j: int, k: int|
                        0 <= j < after.len() && 0 <= k < after[j].fixups.len() implies (
                    #[trigger] after[j].fixups[k]).at + aarch64::link::site_width(
                        after[j].fixups[k].kind,
                    ) <= after[j].code.len() by {
                        if j < i {
                            assert(after[j] == before[j]);
                            assert(before[j].fixups[k] == after[j].fixups[k]);
                        }
                    }
                    assert forall|j: int| 0 <= j < after.len() implies aarch64::encode::sites_in_order(
                        (#[trigger] after[j]).fixups,
                    ) by {
                        if j < i {
                            assert(after[j] == before[j]);
                        }
                    }
                }
            },
            Err(e) => {
                proof {
                    a64_batch_stops(*prog, i + 1, n as int);
                }
                return Err(e);
            },
        }
        i = i + 1;
    }
    Ok((fns, rodata))
}

/// Whether `r` is the x86-64 executable of a program, or why there is none: no entry, the
/// first construct that is not supported, or what linking refuses.
pub open spec fn compiled_x86(
    prog: MirProgram,
    sup: Support,
    debug: Option<&DebugCtx>,
    r: Result<ElfImage, CodegenError>,
) -> bool {
    let b = x86_batch(prog, sup, prog.funcs@.len() as int);
    if entry_of(prog, 0) is None {
        r == Err::<ElfImage, CodegenError>(CodegenError::NoMain)
    } else {
        match b.err {
            Some(msg) => r is Err && r->Err_0.unsupported(msg),
            None => linked_program(prog, b.fns, b.ro.bytes, sup.runtime, debug, r),
        }
    }
}

/// Whether `r` is the AArch64 executable of a program, or why there is none.
pub open spec fn compiled_aarch64(prog: MirProgram, r: Result<ElfImage, CodegenError>) -> bool {
    let b = a64_batch(prog, prog.funcs@.len() as int);
    if entry_of(prog, 0) is None {
        r == Err::<ElfImage, CodegenError>(CodegenError::NoMain)
    } else {
        match b.err {
            Some(msg) => r is Err && r->Err_0.unsupported(msg),
            None => aarch64::link::linked_program(prog, b.fns, b.ro.bytes, r),
        }
    }
}

/// Whether `r` is the executable of a program for a target, or why there is none.
pub open spec fn compiled(
    prog: MirProgram,
    target: Target,
    sup: Support,
    debug: Option<&DebugCtx>,
    r: Result<ElfImage, CodegenError>,
) -> bool {
    match target {
        Target::X86_64Linux => compiled_x86(prog, sup, debug, r),
        Target::Aarch64Linux => compiled_aarch64(prog, r),
    }
}

/// The debug sections that a program gets.
pub open spec fn debug_of(prog: MirProgram, sup: Support, ctx: &DebugCtx) -> Option<DebugView> {
    match entry_of(prog, 0) {
        Some(main) => program_debug(
            prog,
            main,
            x86_batch(prog, sup, prog.funcs@.len() as int).fns,
            sup.runtime,
            Some(ctx),
        ),
        None => None,
    }
}

/// Debug information changes no program. A program is refused with it just where it is
/// refused without it, and for the same reason. The addresses are the same, and so is every
/// byte of the file without it, but for the header fields that locate the section header
/// table; on AArch64 so is the whole file. This is so where the debug sections themselves are
/// not beyond the address space.
pub proof fn debug_changes_no_program(
    prog: MirProgram,
    target: Target,
    sup: Support,
    ctx: &DebugCtx,
    p: Result<ElfImage, CodegenError>,
    q: Result<ElfImage, CodegenError>,
)
    requires
        compiled(prog, target, sup, None, p),
        compiled(prog, target, sup, Some(ctx), q),
        debug_total(debug_of(prog, sup, ctx)) <= 0x7FFF_FFFF_FF00_0000,
    ensures
        p is Ok <==> q is Ok,
        p is Err ==> p->Err_0.text() == q->Err_0.text(),
        p is Ok ==> ({
            let a = p->Ok_0;
            let b = q->Ok_0;
            &&& a.text_len == b.text_len
            &&& a.text_vaddr == b.text_vaddr
            &&& a.rodata_vaddr == b.rodata_vaddr
            &&& a.state_vaddr == b.state_vaddr
            &&& match target {
                Target::Aarch64Linux => a.bytes@ == b.bytes@,
                Target::X86_64Linux => a.bytes@.len() < b.bytes@.len() && forall|i: int|
                    0 <= i < a.bytes@.len() && !(40 <= i < 48) && !(58 <= i < 64)
                        ==> #[trigger] b.bytes@[i] == a.bytes@[i],
            }
        }),
{
    let b = x86_batch(prog, sup, prog.funcs@.len() as int);
    if target == Target::X86_64Linux && p is Ok && q is Ok {
        let main = entry_of(prog, 0).unwrap();
        let rts = routine_views(sup.runtime.routines@);
        let text = program_text(
            main,
            b.fns,
            rts,
            sup.runtime.rng_state,
            sup.runtime.reg_next,
            b.ro.bytes.len(),
        )->Ok_0;
        let d = program_debug(prog, main, b.fns, sup.runtime, Some(ctx)).unwrap();
        let state_size = if needs_runtime(b.fns) {
            sup.runtime.state_size
        } else {
            0
        };
        program_text_len(
            main,
            b.fns,
            rts,
            sup.runtime.rng_state,
            sup.runtime.reg_next,
            b.ro.bytes.len(),
        );
        debug_only_adds(text, b.ro.bytes, state_size, 0x3E, d);
    }
}

proof fn marks_of_lowered(prog: MirProgram, fns: Seq<LoweredView>, n: int)
    requires
        0 <= n <= fns.len(),
        fns.len() == prog.funcs@.len(),
        forall|k: int| 0 <= k < fns.len() ==> lines_fit_in(prog, #[trigger] fns[k], k),
    ensures
        mark_count(fns.take(n)) <= n + total_stmts(prog.funcs@.take(n)),
    decreases n,
{
    if n > 0 {
        marks_of_lowered(prog, fns, n - 1);
        let f = prog.funcs@;
        assert(f.take(n).drop_last() =~= f.take(n - 1));
        assert(f.take(n).last() == f[n - 1]);
        assert(lines_fit_in(prog, fns[n - 1], n - 1));
        assert(fns.take(n).drop_last() =~= fns.take(n - 1));
        assert(fns.take(n).last() == fns[n - 1]);
    }
}

proof fn batch_holds(prog: MirProgram, sup: Support, i: int, n: int)
    requires
        0 <= i < n,
        x86_batch(prog, sup, n).err is None,
    ensures
        x86_batch(prog, sup, n).fns.len() == n,
        x86_batch(prog, sup, n).fns[i] == x86_lined(prog, sup, i, x86_batch(prog, sup, i).ro),
    decreases n,
{
    if n > 1 {
        batch_holds(
            prog,
            sup,
            if i < n - 1 {
                i
            } else {
                0
            },
            n - 1,
        );
    }
}

/// Every statement that has a line, and of whose code optimizing leaves any, has a row in the
/// line table of the program: at the address of the first byte that is left, with the line
/// that the source map gives for its own. The result says in which sequence and where.
pub proof fn statement_has_a_row(
    prog: MirProgram,
    sup: Support,
    ctx: DebugCtx,
    start: nat,
    text_len: u64,
    vaddr: u64,
    f: int,
    i: int,
    j: int,
    k: int,
) -> (r: (int, int))
    requires
        x86_batch(prog, sup, prog.funcs@.len() as int).err is None,
        0 <= f < prog.funcs@.len(),
        sound_at(prog, sup, f),
        0 <= i < prog.funcs@[f].blocks@.len(),
        0 <= j < prog.funcs@[f].blocks@[i].stmts@.len(),
        prog.funcs@[f].blocks@[i].line(j) != 0,
        ({
            let ro = x86_batch(prog, sup, f).ro;
            let env = env_of(prog, prog.funcs@[f], sup.abi, sup.allocs@[f]);
            let a = x86_function(prog, sup, f, ro).text;
            let b = prog.funcs@[f].blocks@[i];
            let n = note_of(env, env.code_before(ro, true, i, j), b.stmts@[j], b.line(j));
            &&& a.instrs.len() > 0
            &&& 0 <= k < settled_instrs(a).len()
            &&& belongs(settled_instrs(a), settled_from(a), n, k)
            &&& forall|h: int|
                0 <= h < k ==> !#[trigger] belongs(settled_instrs(a), settled_from(a), n, h)
        }),
    ensures
        ({
            let fns = x86_batch(prog, sup, prog.funcs@.len() as int).fns;
            let lines = dwarf_of(prog, fns, start, text_len, vaddr, ctx).lines;
            let low_pc = (vaddr + start + codes(fns.take(f)).len()) as u64;
            let a = x86_function(prog, sup, f, x86_batch(prog, sup, f).ro).text;
            let m = mark_at(settled_instrs(a), k, prog.funcs@[f].blocks@[i].line(j));
            &&& 0 <= r.0 < lines.len()
            &&& 0 <= r.1 < lines[r.0].len()
            &&& lines[r.0][r.1].address == (low_pc + m.at) as u64
            &&& lines[r.0][r.1].line == mapped_line(
                ctx.source_map@,
                prog.funcs@[f].blocks@[i].line(j),
            )
            &&& !lines[r.0][r.1].end_sequence
        }),
{
    let ro = x86_batch(prog, sup, f).ro;
    let env = env_of(prog, prog.funcs@[f], sup.abi, sup.allocs@[f]);
    let a = x86_function(prog, sup, f, ro).text;
    let fns = x86_batch(prog, sup, prog.funcs@.len() as int).fns;
    batch_holds(prog, sup, f, prog.funcs@.len() as int);
    line_of_statement_is_marked(env, ro, true, i, j, k);
    let m = mark_at(settled_instrs(a), k, prog.funcs@[f].blocks@[i].line(j));
    let x = choose|x: int| 0 <= x < fns[f].marks.len() && fns[f].marks[x] == m;
    mark_is_in_the_table(
        prog,
        ctx.source_map@,
        base_of(ctx.src_path@),
        vaddr,
        start,
        fns,
        f,
        x,
    )
}

/// Compiles a program to an x86-64 executable, with debug information where there is a
/// context for it: a row for each statement that has a line, where its code begins, and for
/// each function without such a one.
pub fn compile_program_x86(
    prog: &MirProgram,
    sup: &Support,
    debug: Option<&DebugCtx>,
) -> (r: Result<
    ElfImage,
    CodegenError,
>)
    requires
        program_ok(*prog, *sup),
        debug matches Some(ctx) ==> segments_ok(ctx.source_map@) && lines_ok(*prog),
    ensures
        compiled_x86(*prog, *sup, debug, r),
        r is Ok ==> ({
            let fns = x86_batch(*prog, *sup, prog.funcs@.len() as int).fns;
            all_within(fns) && all_apart(fns) && forall|i: int|
                0 <= i < prog.funcs@.len() ==> #[trigger] sound_at(*prog, *sup, i)
        }),
{
    match find_main(prog) {
        Some(_) => {},
        None => {
            return Err(CodegenError::NoMain);
        },
    }
    match lower_x86(prog, sup) {
        Ok(pair) => {
            let (fns, rodata) = pair;
            proof {
                let l = lowered_views(fns@);
                assert forall|k: int| 0 <= k < l.len() implies lines_fit_in(
                    *prog,
                    #[trigger] l[k],
                    k,
                ) && l[k].id.0 < prog.funcs@.len() by {
                    assert(fns@[k].id == prog.funcs@[k].id);
                }
                assert(marks_ok(*prog, l)) by {
                    assert forall|i: int| 0 <= i < l.len() implies (#[trigger] l[i]).id.0
                        < prog.funcs@.len() && forall|k: int|
                        0 <= k < l[i].marks.len() ==> (#[trigger] l[i].marks[k]).at
                            <= l[i].code.len() by {
                        assert(lines_fit_in(*prog, l[i], i));
                    }
                }
                assert forall|i: int| 0 <= i < prog.funcs@.len() implies #[trigger] sound_at(
                    *prog,
                    *sup,
                    i,
                ) by {
                    assert(fns@[i].id == prog.funcs@[i].id);
                }
                marks_of_lowered(*prog, l, l.len() as int);
                assert(l.take(l.len() as int) =~= l);
                assert(prog.funcs@.take(l.len() as int) =~= prog.funcs@);
            }
            link_program_x86(prog, &fns, &rodata, &sup.runtime, debug)
        },
        Err(e) => Err(e),
    }
}

/// Compiles a program to an AArch64 executable.
pub fn compile_program_aarch64(prog: &MirProgram) -> (r: Result<ElfImage, CodegenError>)
    requires
        a64_program_ok(*prog),
    ensures
        compiled_aarch64(*prog, r),
        r is Ok ==> ({
            let fns = a64_batch(*prog, prog.funcs@.len() as int).fns;
            aarch64::link::all_within(fns) && aarch64::linked::all_in_order(fns)
        }),
{
    match find_main(prog) {
        Some(_) => {},
        None => {
            return Err(CodegenError::NoMain);
        },
    }
    match lower_aarch64(prog) {
        Ok(pair) => {
            let (fns, rodata) = pair;
            link_program_aarch64(prog, &fns, &rodata)
        },
        Err(e) => Err(e),
    }
}

/// Compiles a program to an executable for a target, with debug information where there
/// is a context for it and the target is x86-64.
pub fn compile_program_with_debug(
    prog: &MirProgram,
    target: Target,
    sup: &Support,
    debug: Option<&DebugCtx>,
) -> (r: Result<ElfImage, CodegenError>)
    requires
        compilable(*prog, target, *sup),
        debug matches Some(ctx) ==> segments_ok(ctx.source_map@) && lines_ok(*prog),
    ensures
        compiled(*prog, target, *sup, debug, r),
{
    match target {
        Target::X86_64Linux => compile_program_x86(prog, sup, debug),
        Target::Aarch64Linux => compile_program_aarch64(prog),
    }
}

/// Compiles a program to an executable for a target.
pub fn compile_program(prog: &MirProgram, target: Target, sup: &Support) -> (r: Result<
    ElfImage,
    CodegenError,
>)
    requires
        compilable(*prog, target, *sup),
    ensures
        compiled(*prog, target, *sup, None, r),
{
    compile_program_with_debug(prog, target, sup, None)
}

/// Compiles a program to a static x86-64 Linux executable.
pub fn compile_program_to_elf(prog: &MirProgram, sup: &Support) -> (r: Result<
    ElfImage,
    CodegenError,
>)
    requires
        program_ok(*prog, *sup),
    ensures
        compiled_x86(*prog, *sup, None, r),
{
    compile_program(prog, Target::X86_64Linux, sup)
}

/// Whether `r` is the object of a program, or why there is none: the wrong target, the
/// first construct that is not supported, or what linking refuses.
pub open spec fn compiled_object(
    prog: MirProgram,
    target: Target,
    sup: Support,
    r: Result<ObjectImage, CodegenError>,
) -> bool {
    let b = object_batch(prog, sup, prog.funcs@.len() as int);
    let relocs = fn_relocs(program_relocs_env(prog, b.fns), b.fns);
    match r {
        Ok(img) => {
            &&& target == Target::X86_64Linux
            &&& b.err is None
            &&& crate::link::codes(b.fns).len() <= 0x7FFF_FFFF_FFFF_FFFF
            &&& is_object(prog, b.fns, b.ro.bytes, img)
        },
        Err(e) => if target != Target::X86_64Linux {
            e.unsupported(wrong_target(target))
        } else if b.err is Some {
            e.unsupported(b.err.unwrap())
        } else if crate::link::codes(b.fns).len() > 0x7FFF_FFFF_FFFF_FFFF {
            e.unsupported(crate::link::too_large_message())
        } else {
            relocs is Err && e.unsupported(relocs->Err_0)
        },
    }
}

/// Compiles a program to a relocatable object that links with C.
pub fn compile_program_to_object(prog: &MirProgram, target: Target, sup: &Support) -> (r: Result<
    ObjectImage,
    CodegenError,
>)
    requires
        target == Target::X86_64Linux ==> program_ok(*prog, *sup),
    ensures
        compiled_object(*prog, target, *sup, r),
{
    if target != Target::X86_64Linux {
        return Err(no_object_for(target));
    }
    match lower_for_object(prog, sup) {
        Ok(pair) => {
            let (fns, rodata) = pair;
            link_object(prog, target, &fns, &rodata)
        },
        Err(e) => Err(e),
    }
}

} // verus!
