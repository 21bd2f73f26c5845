//! Whole functions.
use vstd::prelude::*;

use crate::lines::{
    LineNote, belongs, kept_marks, mark_at, settled_from, settled_instrs, statement_is_marked,
};
use crate::behavior::{behaves_like, labels_once, peephole_keeps_behavior};
use crate::encode::{Asm, AsmState, Fixup, LabelId, apart, fixups_of, linked_code, outer};
use crate::frame::{FrameInput, in_memory, is_memory_aggregate, plan, plan_of};
use crate::intern::Pool;
use crate::layout::{layout, layout_of};
use crate::link::{LineMark, within};
use crate::lower::abi::{func_prints, outgoing_args_bytes, outgoing_bytes, prints_somewhere};
use crate::lower::env::{EntryKind, Env, FnLower, LowState, Out, RegAlloc, Scope, grew};
use crate::mir::{Block, MirFunction, MirProgram, Statement};
use crate::peephole::refers;
use crate::runtime::RuntimeAbi;
use crate::text::same_str;
use crate::types::Type;
use crate::{CodegenError, RoData};

verus! {

/// How a function returns: `main` is the entry.
pub open spec fn entry_kind(prog: MirProgram, func: MirFunction) -> EntryKind {
    if func.name@ == "main"@ {
        if prog.arena.at(func.ret) is Int {
            EntryKind::IntEntry
        } else {
            EntryKind::VoidEntry
        }
    } else {
        EntryKind::Helper
    }
}

/// Whether a function returns through a hidden pointer.
pub open spec fn returns_by_pointer(prog: MirProgram, func: MirFunction) -> bool {
    entry_kind(prog, func) == EntryKind::Helper && in_memory(prog.arena, func.ret) && match layout(
        prog.arena,
        func.ret,
    ) {
        Some(l) => l.size > 16,
        None => false,
    }
}

/// What the frame of a function is planned from.
pub open spec fn frame_input(prog: MirProgram, func: MirFunction, alloc: RegAlloc) -> FrameInput {
    FrameInput {
        arena: prog.arena,
        locals: func.locals@,
        needs: alloc.needs_home@,
        home_ty: alloc.home_ty@,
        home_size: alloc.home_size@,
        saved: alloc.callee_saved@,
        prints: prints_somewhere(func),
        ret_ptr: returns_by_pointer(prog, func),
        outgoing: outgoing_bytes(prog, func),
    }
}

/// What a function is lowered from.
pub open spec fn env_of(
    prog: MirProgram,
    func: MirFunction,
    abi: RuntimeAbi,
    alloc: RegAlloc,
) -> Env {
    Env {
        prog,
        func,
        abi,
        alloc,
        plan: plan_of(frame_input(prog, func, alloc)),
        kind: entry_kind(prog, func),
    }
}

/// Whether a function can be lowered: all that it refers to is there, and its frame
/// is within reach of a displacement.
pub open spec fn function_ok(
    prog: MirProgram,
    func: MirFunction,
    abi: RuntimeAbi,
    alloc: RegAlloc,
) -> bool {
    &&& (Scope { prog, func }).parts_ok()
    &&& (Scope { prog, func }).blocks_ok()
    &&& frame_input(prog, func, alloc).wf()
    &&& frame_input(prog, func, alloc).frame_size() <= i32::MAX
    &&& env_of(prog, func, abi, alloc).alloc_ok()
}

impl Env {
    /// The blocks from the `i`-th on.
    pub open spec fn blocks_from(self, s: LowState, i: int) -> LowState
        decreases self.func.blocks@.len() - i,
    {
        if i < 0 || i >= self.func.blocks@.len() {
            s
        } else {
            let s = s.on(s.text.bind(LabelId(i as u32)));
            let s = self.lower_block_body(s, self.func.blocks@[i]);
            if s.err is Some {
                s
            } else {
                self.blocks_from(s, i + 1)
            }
        }
    }

    /// The function: one label for each block, the entry, and the blocks.
    pub open spec fn whole(self, s: LowState) -> LowState {
        let s = s.on(s.text.reserve_labels(self.func.blocks@.len()));
        let s = self.lower_entry(s);
        if s.err is Some {
            s
        } else {
            self.blocks_from(s, 0)
        }
    }

    /// What there is to note of the statements of the blocks from the `i`-th on.
    pub open spec fn notes_from(self, s: LowState, i: int) -> Seq<LineNote>
        decreases self.func.blocks@.len() - i,
    {
        if i < 0 || i >= self.func.blocks@.len() {
            Seq::empty()
        } else {
            let t = s.on(s.text.bind(LabelId(i as u32)));
            let b = self.func.blocks@[i];
            self.stmt_notes_from(t, b, 0) + self.notes_from(self.lower_block_body(t, b), i + 1)
        }
    }

    /// What there is to note of the statements of the function: the instructions that each
    /// becomes, and its line.
    pub open spec fn line_notes(self, ro: Pool, on: bool) -> Seq<LineNote> {
        let s = LowState { text: AsmState::empty(on), ro, err: None };
        let s = s.on(s.text.reserve_labels(self.func.blocks@.len()));
        self.notes_from(self.lower_entry(s), 0)
    }

    /// What the code is before the `j`-th statement of a block.
    pub open spec fn before_stmt(self, s: LowState, b: Block, j: int) -> LowState
        decreases j,
    {
        if j <= 0 {
            s
        } else {
            self.lower_stmt(self.before_stmt(s, b, j - 1), b.stmts@[j - 1])
        }
    }

    /// What the code is behind the label of the `i`-th block.
    pub open spec fn at_block(self, s: LowState, i: int) -> LowState
        decreases i,
    {
        let t = if i <= 0 {
            s
        } else {
            self.lower_block_body(self.at_block(s, i - 1), self.func.blocks@[i - 1])
        };
        t.on(t.text.bind(LabelId(i as u32)))
    }

    /// What the code is before a statement of the function behind the data `ro`.
    pub open spec fn code_before(self, ro: Pool, on: bool, i: int, j: int) -> LowState {
        let s = LowState { text: AsmState::empty(on), ro, err: None };
        let s = s.on(s.text.reserve_labels(self.func.blocks@.len()));
        self.before_stmt(self.at_block(self.lower_entry(s), i), self.func.blocks@[i], j)
    }

    /// The line marks of the function behind the data `ro`.
    pub open spec fn line_marks(self, ro: Pool, on: bool) -> Seq<LineMark> {
        kept_marks(self.lowered_behind(ro, on).text, self.line_notes(ro, on))
    }

    /// The function behind the data `ro`, optimized if `on`.
    pub open spec fn lowered_behind(self, ro: Pool, on: bool) -> LowState {
        self.whole(LowState { text: AsmState::empty(on), ro, err: None })
    }
}

/// Whether `r` and the data after it are the finished function that `want` says.
pub open spec fn finished(
    r: Result<(Vec<u8>, Vec<Fixup>), CodegenError>,
    ro: Pool,
    want: LowState,
) -> bool {
    match r {
        Ok((code, fixups)) => {
            &&& want.err is None
            &&& code@ == linked_code(want.text.peephole().instrs)
            &&& fixups@ == outer(fixups_of(want.text.peephole().instrs))
            &&& ro == want.ro
        },
        Err(e) => want.err is Some && e.unsupported(want.err.unwrap()) && ro == want.ro,
    }
}

/// The same, with line marks.
pub open spec fn finished_lined(
    r: Result<(Vec<u8>, Vec<Fixup>, Vec<LineMark>), CodegenError>,
    ro: Pool,
    want: LowState,
    lines: Seq<LineMark>,
) -> bool {
    match r {
        Ok((code, fixups, marks)) => {
            &&& want.err is None
            &&& code@ == linked_code(want.text.peephole().instrs)
            &&& fixups@ == outer(fixups_of(want.text.peephole().instrs))
            &&& marks@ == lines
            &&& ro == want.ro
        },
        Err(e) => want.err is Some && e.unsupported(want.err.unwrap()) && ro == want.ro,
    }
}

/// Whether every jump of a function goes to a label of its own, and optimizing changes
/// nothing of what it does, as long as the label numbers have not run out.
pub open spec fn sound(a: AsmState) -> bool {
    &&& !a.sealed
    &&& a.targets_bound()
    &&& a.numbered() ==> labels_once(a.instrs) && behaves_like(a.instrs, a.peephole().instrs)
}

/// Whether every label but those of the blocks from the `i`-th of `n` on is bound.
pub(crate) open spec fn bound_but(labels: Seq<Option<usize>>, i: int, n: int) -> bool {
    forall|l: LabelId|
        l.0 < labels.len() && !(i <= l.0 < n) ==> (#[trigger] labels[l.0 as int]) is Some
}

/// Whether no label of the blocks from the `i`-th of `n` on is bound, as long as the
/// label numbers have not run out.
pub(crate) open spec fn still_open(labels: Seq<Option<usize>>, i: int, n: int) -> bool {
    labels.len() <= 0x1_0000_0000 ==> forall|l: LabelId|
        i <= l.0 < n ==> (#[trigger] labels[l.0 as int]) is None
}

proof fn open_after(a: Seq<Option<usize>>, b: Seq<Option<usize>>, i: int, n: int)
    requires
        still_open(a, i, n),
        0 <= i,
        n <= a.len(),
        grew(a, b),
    ensures
        still_open(b, i, n),
{
    reveal(grew);
    if b.len() <= 0x1_0000_0000 {
        assert forall|l: LabelId| i <= l.0 < n implies (#[trigger] b[l.0 as int]) is None by {
            assert(a[l.0 as int] is None);
        }
    }
}

pub(crate) proof fn bound_after(a: Seq<Option<usize>>, b: Seq<Option<usize>>, i: int, n: int)
    requires
        bound_but(a, i, n),
        n <= a.len(),
        grew(a, b),
    ensures
        bound_but(b, i, n),
        a.len() <= b.len(),
{
    reveal(grew);
    assert forall|l: LabelId| l.0 < b.len() && !(i <= l.0 < n) implies (
    #[trigger] b[l.0 as int]) is Some by {
        if l.0 < a.len() {
            assert(a[l.0 as int] is Some);
        }
    }
}

impl<'p> FnLower<'p> {
    /// The context of a function whose locals live where `alloc` says.
    pub fn new(
        prog: &'p MirProgram,
        func: &'p MirFunction,
        abi: &'p RuntimeAbi,
        alloc: &'p RegAlloc,
    ) -> (r: FnLower<'p>)
        requires
            function_ok(*prog, *func, *abi, *alloc),
        ensures
            r.env() == env_of(*prog, *func, *abi, *alloc),
            r.ok(),
    {
        let kind: EntryKind = if same_str(func.name.as_str(), "main") {
            match *prog.arena.get(func.ret) {
                Type::Int { .. } => EntryKind::IntEntry,
                _ => EntryKind::VoidEntry,
            }
        } else {
            EntryKind::Helper
        };
        let prints: bool = func_prints(func);
        let ret_mem: bool = kind == EntryKind::Helper && is_memory_aggregate(&prog.arena, func.ret)
            && match layout_of(&prog.arena, func.ret) {
            Some(l) => l.size > 16,
            None => false,
        };
        let outgoing: i32 = outgoing_args_bytes(prog, func);
        let frame = plan(
            func,
            &prog.arena,
            alloc.needs_home.as_slice(),
            alloc.home_ty.as_slice(),
            alloc.home_size.as_slice(),
            alloc.callee_saved.as_slice(),
            prints,
            ret_mem,
            outgoing,
        );
        FnLower { prog, func, abi, alloc, plan: frame, kind }
    }

    /// The finished code of the function and its fixups; its data goes to `rodata`.
    pub fn lower(self, rodata: &mut RoData) -> (r: Result<(Vec<u8>, Vec<Fixup>), CodegenError>)
        requires
            self.ok(),
            self.env().scope().blocks_ok(),
            old(rodata)@.wf(),
        ensures
            finished(r, final(rodata)@, self.env().lowered_behind(old(rodata)@, true)),
            final(rodata)@.wf(),
            r matches Ok((code, fixups)) ==> within(code@, fixups@) && apart(fixups@),
            r is Ok ==> sound(self.env().lowered_behind(old(rodata)@, true).text),
    {
        self.lower_with(rodata, true)
    }

    /// The finished code of the function, optimized if `on`.
    pub fn lower_with(self, rodata: &mut RoData, on: bool) -> (r: Result<
        (Vec<u8>, Vec<Fixup>),
        CodegenError,
    >)
        requires
            self.ok(),
            self.env().scope().blocks_ok(),
            old(rodata)@.wf(),
        ensures
            finished(r, final(rodata)@, self.env().lowered_behind(old(rodata)@, on)),
            final(rodata)@.wf(),
            r matches Ok((code, fixups)) ==> within(code@, fixups@) && apart(fixups@),
            r is Ok ==> sound(self.env().lowered_behind(old(rodata)@, on).text),
    {
        match self.lower_lined(rodata, on) {
            Ok((code, fixups, _marks)) => Ok((code, fixups)),
            Err(e) => Err(e),
        }
    }

    /// As [`FnLower::lower`], with the line marks of the statements; the code is the same.
    pub fn lower_with_lines(self, rodata: &mut RoData) -> (r: Result<
        (Vec<u8>, Vec<Fixup>, Vec<LineMark>),
        CodegenError,
    >)
        requires
            self.ok(),
            self.env().scope().blocks_ok(),
            old(rodata)@.wf(),
        ensures
            finished_lined(
                r,
                final(rodata)@,
                self.env().lowered_behind(old(rodata)@, true),
                self.env().line_marks(old(rodata)@, true),
            ),
            final(rodata)@.wf(),
            r matches Ok((code, fixups, marks)) ==> within(code@, fixups@) && apart(fixups@)
                && (forall|k: int|
                0 <= k < marks@.len() ==> (#[trigger] marks@[k]).at < code@.len())
                && marks@.len() <= self.env().line_notes(old(rodata)@, true).len(),
            r is Ok ==> sound(self.env().lowered_behind(old(rodata)@, true).text),
    {
        self.lower_lined(rodata, true)
    }

    fn lower_lined(self, rodata: &mut RoData, on: bool) -> (r: Result<
        (Vec<u8>, Vec<Fixup>, Vec<LineMark>),
        CodegenError,
    >)
        requires
            self.ok(),
            self.env().scope().blocks_ok(),
            old(rodata)@.wf(),
        ensures
            finished_lined(
                r,
                final(rodata)@,
                self.env().lowered_behind(old(rodata)@, on),
                self.env().line_marks(old(rodata)@, on),
            ),
            final(rodata)@.wf(),
            r matches Ok((code, fixups, marks)) ==> within(code@, fixups@) && apart(fixups@)
                && (forall|k: int|
                0 <= k < marks@.len() ==> (#[trigger] marks@[k]).at < code@.len())
                && marks@.len() <= self.env().line_notes(old(rodata)@, on).len(),
            r is Ok ==> sound(self.env().lowered_behind(old(rodata)@, on).text),
    {
        let ghost env = self.env();
        let ghost want = env.lowered_behind(rodata@, on);
        let n: usize = self.func.blocks.len();
        let mut out = Out { text: Asm::with_peephole(on), ro: RoData::new() };
        core::mem::swap(rodata, &mut out.ro);
        out.text.reserve_labels(n);
        let ghost l0 = out@.text.labels;
        match self.lower_entry(&mut out) {
            Ok(_) => {},
            Err(e) => {
                core::mem::swap(rodata, &mut out.ro);
                return Err(e);
            },
        }
        proof {
            assert(bound_but(l0, 0, n as int));
            bound_after(l0, out@.text.labels, 0, n as int);
            open_after(l0, out@.text.labels, 0, n as int);
        }
        let mut notes: Vec<LineNote> = Vec::new();
        let ghost noted = env.line_notes(old(rodata)@, on);
        assert(notes@ + noted =~= noted);
        let mut i: usize = 0;
        while i < n
            invariant
                self.ok(),
                noted == env.line_notes(old(rodata)@, on),
                noted == notes@ + env.notes_from(out@, i as int),
                env == self.env(),
                env.scope().blocks_ok(),
                n == env.func.blocks@.len(),
                i <= n,
                n <= out@.text.labels.len(),
                out.ok(),
                rodata@.wf(),
                bound_but(out@.text.labels, i as int, n as int),
                still_open(out@.text.labels, i as int, n as int),
                want == env.blocks_from(out@, i as int),
                want == env.lowered_behind(old(rodata)@, on),
            decreases n - i,
        {
            let ghost l1 = out@.text.labels;
            assert(out@.text.numbered() ==> l1[LabelId(i as u32).0 as int] is None);
            out.text.bind_label(LabelId(i as u32));
            let ghost l2 = out@.text.labels;
            proof {
                assert forall|l: LabelId| l.0 < l2.len() && !(i + 1 <= l.0 < n) implies (
                #[trigger] l2[l.0 as int]) is Some by {
                    if l.0 != i {
                        assert(l1[l.0 as int] is Some);
                    }
                }
                assert(bound_but(l2, i + 1, n as int));
                assert(env.block_ok(env.func.blocks@[i as int]));
            }
            let ghost before = notes@;
            let ghost here = env.stmt_notes_from(out@, env.func.blocks@[i as int], 0);
            match self.lower_block_body(&mut out, &self.func.blocks[i], &mut notes) {
                Ok(_) => {},
                Err(e) => {
                    core::mem::swap(rodata, &mut out.ro);
                    return Err(e);
                },
            }
            proof {
                bound_after(l2, out@.text.labels, i + 1, n as int);
                assert(still_open(l2, i + 1, n as int));
                open_after(l2, out@.text.labels, i + 1, n as int);
                let rest = env.notes_from(out@, i + 1);
                assert(before + (here + rest) =~= notes@ + rest);
            }
            i = i + 1;
        }
        assert(notes@ + Seq::<LineNote>::empty() =~= notes@);
        let ghost done = out@;
        core::mem::swap(rodata, &mut out.ro);
        proof {
            reveal(AsmState::tidy);
            assert forall|k: int, l: LabelId|
                0 <= k < done.text.instrs.len() && #[trigger] refers(
                    done.text.instrs[k],
                    l,
                ) implies l.0 < done.text.labels.len() && done.text.labels[l.0 as int] is Some by {
                assert(done.text.labels[l.0 as int] is Some);
            }
            if done.text.numbered() {
                peephole_keeps_behavior(done.text);
            }
        }
        Ok(out.text.finish_with_lines(&notes))
    }
}

// ---------------------------------------------------------------------------
//  Lines
// ---------------------------------------------------------------------------

/// The instructions and the line of a statement.
pub open spec fn note_of(env: Env, s: LowState, stmt: Statement, line: u32) -> LineNote {
    LineNote {
        from: s.text.instrs.len() as usize,
        to: env.lower_stmt(s, stmt).text.instrs.len() as usize,
        line,
    }
}

proof fn statement_is_noted(env: Env, s: LowState, b: Block, i: int, j: int)
    requires
        0 <= i <= j < b.stmts@.len(),
        b.line(j) != 0,
    ensures
        env.stmt_notes_from(env.before_stmt(s, b, i), b, i).contains(
            note_of(env, env.before_stmt(s, b, j), b.stmts@[j], b.line(j)),
        ),
    decreases j - i,
{
    let t = env.before_stmt(s, b, i);
    let u = env.lower_stmt(t, b.stmts[i]);
    let n = note_of(env, env.before_stmt(s, b, j), b.stmts@[j], b.line(j));
    let here = env.stmt_note(t, u, b.line(i));
    let rest = env.stmt_notes_from(u, b, i + 1);
    assert(env.stmt_notes_from(t, b, i) == here + rest);
    if i == j {
        assert((here + rest)[0] == n);
    } else {
        assert(env.before_stmt(s, b, i + 1) == u);
        statement_is_noted(env, s, b, i + 1, j);
        let at = choose|x: int| 0 <= x < rest.len() && rest[x] == n;
        assert((here + rest)[here.len() + at] == n);
    }
}

proof fn statement_of_block_is_noted(env: Env, s: LowState, t: LowState, h: int, i: int, j: int)
    requires
        0 <= h <= i < env.func.blocks@.len(),
        0 <= j < env.func.blocks@[i].stmts@.len(),
        env.func.blocks@[i].line(j) != 0,
        env.at_block(s, h) == t.on(t.text.bind(LabelId(h as u32))),
    ensures
        ({
            let b = env.func.blocks@[i];
            env.notes_from(t, h).contains(
                note_of(
                    env,
                    env.before_stmt(env.at_block(s, i), b, j),
                    b.stmts@[j],
                    b.line(j),
                ),
            )
        }),
    decreases i - h,
{
    let b = env.func.blocks@[i];
    let n = note_of(env, env.before_stmt(env.at_block(s, i), b, j), b.stmts@[j], b.line(j));
    let u = env.at_block(s, h);
    let first = env.func.blocks@[h];
    let here = env.stmt_notes_from(u, first, 0);
    let v = env.lower_block_body(u, first);
    let rest = env.notes_from(v, h + 1);
    assert(env.notes_from(t, h) == here + rest);
    if h == i {
        statement_is_noted(env, u, b, 0, j);
        let at = choose|x: int| 0 <= x < here.len() && here[x] == n;
        assert((here + rest)[at] == n);
    } else {
        statement_of_block_is_noted(env, s, v, h + 1, i, j);
        let at = choose|x: int| 0 <= x < rest.len() && rest[x] == n;
        assert((here + rest)[here.len() + at] == n);
    }
}

/// Every statement that has a line, and of whose code optimizing leaves any, has a mark with
/// its line at the first byte that is left.
pub proof fn line_of_statement_is_marked(env: Env, ro: Pool, on: bool, i: int, j: int, k: int)
    requires
        0 <= i < env.func.blocks@.len(),
        0 <= j < env.func.blocks@[i].stmts@.len(),
        env.func.blocks@[i].line(j) != 0,
        sound(env.lowered_behind(ro, on).text),
        env.lowered_behind(ro, on).text.instrs.len() > 0,
        ({
            let a = env.lowered_behind(ro, on).text;
            let b = env.func.blocks@[i];
            let n = note_of(env, env.code_before(ro, on, i, j), b.stmts@[j], b.line(j));
            &&& 0 <= k < settled_instrs(a).len()
            &&& belongs(settled_instrs(a), settled_from(a), n, k)
            &&& forall|h: int|
                0 <= h < k ==> !#[trigger] belongs(settled_instrs(a), settled_from(a), n, h)
        }),
    ensures
        env.line_marks(ro, on).contains(
            mark_at(
                settled_instrs(env.lowered_behind(ro, on).text),
                k,
                env.func.blocks@[i].line(j),
            ),
        ),
{
    let s0 = LowState { text: AsmState::empty(on), ro, err: None };
    let s1 = s0.on(s0.text.reserve_labels(env.func.blocks@.len()));
    let s = env.lower_entry(s1);
    let b = env.func.blocks@[i];
    let n = note_of(env, env.code_before(ro, on, i, j), b.stmts@[j], b.line(j));
    let notes = env.line_notes(ro, on);
    statement_of_block_is_noted(env, s, s, 0, i, j);
    let x = choose|x: int| 0 <= x < notes.len() && notes[x] == n;
    let a = env.lowered_behind(ro, on).text;
    statement_is_marked(settled_instrs(a), settled_from(a), notes, x, k);
}

} // verus!
