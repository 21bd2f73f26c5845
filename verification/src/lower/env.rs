//! The context in which a function is lowered, and what can be asked of it.
use vstd::prelude::*;

use crate::encode::{Asm, AsmState, LabelId};
use crate::frame::{FramePlan, PlanView, in_memory, is_memory_aggregate};
use crate::intern::Pool;
use crate::layout::{
    Layout, alignment_facts, field_offsets, fields_of, int_byte_size, int_bytes, is_pow2, layout,
    layout_of, layout_or_word, max, measurable, offsets_fit, offsets_of, round_up, up, up_facts,
};
use crate::mir::{
    Block, BuildMode, Const, ConstData, IntrinsicPath, IntrinsicRoot, LocalId, MirFunction,
    MirProgram, Operand, Place, Proj, Rvalue, Statement, Terminator, tags_ascend,
};
use crate::reg::Gpr;
use crate::runtime::RuntimeAbi;
use crate::text::same_str;
use crate::types::{IntBits, T_BOOL, Type, TypeArena, TypeId};
use crate::{CodegenError, RoData};

verus! {

/// Where a local lives.
#[derive(Clone, Copy, PartialEq, Eq, Structural, Debug)]
pub enum Loc {
    /// In a register.
    Reg(Gpr),
    /// In memory, or nowhere.
    Spill,
}

/// Where the locals of a function live, as a register allocator decided.
pub struct RegAlloc {
    /// The register of each local that has one.
    pub loc: Vec<Loc>,
    /// Whether a scalar needs a home in memory.
    pub needs_home: Vec<bool>,
    /// The type that a home is sized by, where it is not the local's own.
    pub home_ty: Vec<Option<TypeId>>,
    /// The size and alignment of a home, where no type gives them.
    pub home_size: Vec<Option<(u64, u64)>>,
    /// The callee-saved registers in use.
    pub callee_saved: Vec<Gpr>,
    /// The payload type of a local that holds the result of an allocation.
    pub eu_result: Vec<Option<TypeId>>,
    /// The length of an array whose type does not say it.
    pub array_len: Vec<Option<u64>>,
    /// The fields of a tuple whose type does not say them.
    pub agg_fields: Vec<Option<Vec<(TypeId, u64)>>>,
}

/// How a function returns.
#[derive(Clone, Copy, PartialEq, Eq, Structural, Debug)]
pub enum EntryKind {
    /// To its caller.
    Helper,
    /// The entry; its errors become the exit code.
    VoidEntry,
    /// The entry; its integer is the exit code.
    IntEntry,
}

/// The width and signedness of an integer; width 0 stands for no fixed width.
#[derive(Clone, Copy, PartialEq, Eq, Structural, Debug)]
pub struct Repr {
    pub width: u16,
    pub signed: bool,
}

/// How a value is passed.
#[derive(Clone, Copy, PartialEq, Eq, Structural, Debug)]
pub enum ArgClass {
    /// In one integer register.
    OneInt,
    /// In two integer registers.
    TwoInt,
    /// In one SSE register.
    Sse,
    /// In memory.
    Memory { size: u64 },
}

/// What a function is lowered from.
pub struct Env {
    pub prog: MirProgram,
    pub func: MirFunction,
    pub abi: RuntimeAbi,
    pub alloc: RegAlloc,
    pub plan: PlanView,
    pub kind: EntryKind,
}

/// What has been emitted, or the first construct that is not supported.
pub struct LowState {
    pub text: AsmState,
    pub ro: Pool,
    pub err: Option<Seq<char>>,
}

impl LowState {
    /// The same with other code.
    pub open spec fn on(self, text: AsmState) -> LowState {
        LowState { text, ..self }
    }

    /// The same with one more byte string in the read-only data.
    pub open spec fn with_data(self, b: Seq<u8>) -> LowState {
        LowState { ro: self.ro.add(b), ..self }
    }

    /// The same, stopped.
    pub open spec fn fail(self, msg: Seq<char>) -> LowState {
        LowState { err: Some(msg), ..self }
    }
}

/// The code and data under construction.
pub struct Out {
    pub text: Asm,
    pub ro: RoData,
}

impl View for Out {
    type V = LowState;

    open spec fn view(&self) -> LowState {
        LowState { text: self.text@, ro: self.ro@, err: None }
    }
}

impl Out {
    /// The code is well formed and its labels are in the table.
    pub open spec fn ok(&self) -> bool {
        &&& self.text.ready()
        &&& self.text@.tidy()
        &&& self.ro@.wf()
    }
}

/// Whether `r` and the code after it are what `want` says.
pub open spec fn lowered(r: Result<(), CodegenError>, after: LowState, want: LowState) -> bool {
    match r {
        Ok(_) => after == want,
        Err(e) => {
            &&& want.err is Some
            &&& e.unsupported(want.err.unwrap())
            &&& after.ro == want.ro
            &&& after.ro.wf()
        },
    }
}

/// Whether bound labels stay bound, all that came are bound, and no other is, as long as
/// the label numbers have not run out.
#[verifier::opaque]
pub open spec fn grew(a: Seq<Option<usize>>, b: Seq<Option<usize>>) -> bool {
    &&& a.len() <= b.len()
    &&& forall|l: LabelId| l.0 < a.len() && a[l.0 as int] is Some ==> #[trigger] b[l.0 as int] is Some
    &&& forall|l: LabelId| a.len() <= l.0 < b.len() ==> #[trigger] b[l.0 as int] is Some
    &&& b.len() <= 0x1_0000_0000 ==> forall|l: LabelId|
        l.0 < a.len() && a[l.0 as int] is None ==> #[trigger] b[l.0 as int] is None
}

pub(crate) proof fn grew_refl(a: Seq<Option<usize>>)
    ensures
        grew(a, a),
{
    reveal(grew);
}

pub(crate) proof fn grew_longer(a: Seq<Option<usize>>, b: Seq<Option<usize>>)
    requires
        grew(a, b),
    ensures
        a.len() <= b.len(),
        b.len() <= 0x1_0000_0000 ==> forall|l: LabelId|
            l.0 < a.len() && a[l.0 as int] is None ==> #[trigger] b[l.0 as int] is None,
{
    reveal(grew);
}

pub(crate) proof fn grew_trans(a: Seq<Option<usize>>, b: Seq<Option<usize>>, c: Seq<Option<usize>>)
    requires
        grew(a, b),
        grew(b, c),
    ensures
        grew(a, c),
{
    reveal(grew);
    assert forall|l: LabelId| a.len() <= l.0 < c.len() implies #[trigger] c[l.0 as int] is Some by {
        if l.0 < b.len() {
            assert(b[l.0 as int] is Some);
        }
    }
    assert forall|l: LabelId| l.0 < a.len() && a[l.0 as int] is Some implies #[trigger] c[l.0 as int] is Some by {
        assert(b[l.0 as int] is Some);
    }
    if c.len() <= 0x1_0000_0000 {
        assert forall|l: LabelId| l.0 < a.len() && a[l.0 as int] is None implies #[trigger] c[l.0 as int] is None by {
            assert(b[l.0 as int] is None);
        }
    }
}

/// Whether `b` grew out of `a`, but for the labels in `open`, which are not bound yet.
#[verifier::opaque]
pub open spec fn opening(
    a: Seq<Option<usize>>,
    b: Seq<Option<usize>>,
    open: Set<LabelId>,
) -> bool {
    &&& a.len() <= b.len()
    &&& forall|l: LabelId| l.0 < a.len() && a[l.0 as int] is Some ==> #[trigger] b[l.0 as int] is Some
    &&& forall|l: LabelId|
        a.len() <= l.0 < b.len() && !open.contains(l) ==> #[trigger] b[l.0 as int] is Some
    &&& b.len() <= 0x1_0000_0000 ==> forall|l: LabelId|
        l.0 < a.len() && a[l.0 as int] is None ==> #[trigger] b[l.0 as int] is None
    &&& b.len() <= 0x1_0000_0000 ==> forall|l: LabelId| #[trigger]
        open.contains(l) ==> a.len() <= l.0 < b.len() && b[l.0 as int] is None
}

/// Nothing is open at the start.
pub(crate) proof fn opening_start(a: Seq<Option<usize>>)
    ensures
        opening(a, a, Set::empty()),
{
    reveal(opening);
}

/// A new label is open.
pub(crate) proof fn opening_new(
    a: Seq<Option<usize>>,
    b: Seq<Option<usize>>,
    open: Set<LabelId>,
    x: LabelId,
)
    requires
        opening(a, b, open),
        x.0 == b.len() % 0x1_0000_0000,
    ensures
        opening(a, b.push(None), open.insert(x)),
        x.0 < b.push(None).len(),
{
    reveal(opening);
    let c = b.push(None);
    let after = open.insert(x);
    assert forall|l: LabelId| l.0 < a.len() && a[l.0 as int] is Some implies #[trigger] c[l.0 as int] is Some by {
        assert(b[l.0 as int] is Some);
    }
    assert forall|l: LabelId| a.len() <= l.0 < c.len() && !after.contains(l) implies #[trigger] c[l.0 as int] is Some by {
        assert(!open.contains(l) && l != x);
        assert(l.0 < b.len());
        assert(b[l.0 as int] is Some);
    }
    if c.len() <= 0x1_0000_0000 {
        assert forall|l: LabelId| l.0 < a.len() && a[l.0 as int] is None implies #[trigger] c[l.0 as int] is None by {
            assert(b[l.0 as int] is None);
        }
    }
}

/// What a call opens it binds.
pub(crate) proof fn opening_call(
    a: Seq<Option<usize>>,
    b: Seq<Option<usize>>,
    c: Seq<Option<usize>>,
    open: Set<LabelId>,
)
    requires
        opening(a, b, open),
        grew(b, c),
    ensures
        opening(a, c, open),
        b.len() <= c.len(),
{
    reveal(opening);
    reveal(grew);
    assert forall|l: LabelId| l.0 < a.len() && a[l.0 as int] is Some implies #[trigger] c[l.0 as int] is Some by {
        assert(b[l.0 as int] is Some);
    }
    assert forall|l: LabelId| a.len() <= l.0 < c.len() && !open.contains(l) implies #[trigger] c[l.0 as int] is Some by {
        if l.0 < b.len() {
            assert(b[l.0 as int] is Some);
        }
    }
    if c.len() <= 0x1_0000_0000 {
        assert forall|l: LabelId| l.0 < a.len() && a[l.0 as int] is None implies #[trigger] c[l.0 as int] is None by {
            assert(b[l.0 as int] is None);
        }
        assert forall|l: LabelId| #[trigger] open.contains(l) implies a.len() <= l.0 < c.len()
            && c[l.0 as int] is None by {
            assert(b[l.0 as int] is None);
        }
    }
}

/// An open label is not bound.
pub(crate) proof fn opening_unbound(
    a: Seq<Option<usize>>,
    b: Seq<Option<usize>>,
    open: Set<LabelId>,
    x: LabelId,
)
    requires
        opening(a, b, open),
        b.len() <= 0x1_0000_0000 ==> open.contains(x),
    ensures
        b.len() <= 0x1_0000_0000 ==> b[x.0 as int] is None,
{
    reveal(opening);
}

/// A bound label is no longer open.
pub(crate) proof fn opening_bound(
    a: Seq<Option<usize>>,
    b: Seq<Option<usize>>,
    c: Seq<Option<usize>>,
    open: Set<LabelId>,
    x: LabelId,
)
    requires
        opening(a, b, open),
        x.0 < b.len(),
        b.len() <= 0x1_0000_0000 ==> open.contains(x),
        c.len() == b.len(),
        c[x.0 as int] is Some,
        forall|l: LabelId| l != x && l.0 < b.len() ==> c[l.0 as int] == #[trigger] b[l.0 as int],
    ensures
        opening(a, c, open.remove(x)),
{
    reveal(opening);
    let after = open.remove(x);
    assert forall|l: LabelId| l.0 < a.len() && a[l.0 as int] is Some implies #[trigger] c[l.0 as int] is Some by {
        assert(b[l.0 as int] is Some);
    }
    assert forall|l: LabelId| a.len() <= l.0 < c.len() && !after.contains(l) implies #[trigger] c[l.0 as int] is Some by {
        if l != x {
            assert(b[l.0 as int] is Some);
        }
    }
    if c.len() <= 0x1_0000_0000 {
        assert forall|l: LabelId| l.0 < a.len() && a[l.0 as int] is None implies #[trigger] c[l.0 as int] is None by {
            assert(b[l.0 as int] is None);
            assert(l != x);
        }
        assert forall|l: LabelId| #[trigger] after.contains(l) implies a.len() <= l.0 < c.len()
            && c[l.0 as int] is None by {
            assert(open.contains(l));
            assert(b[l.0 as int] is None);
        }
    }
}

/// Where nothing is open, it grew.
pub(crate) proof fn opening_done(
    a: Seq<Option<usize>>,
    b: Seq<Option<usize>>,
    open: Set<LabelId>,
)
    requires
        opening(a, b, open),
        open =~= Set::empty(),
    ensures
        grew(a, b),
{
    reveal(opening);
    reveal(grew);
}

/// Lowers one function: its context.
pub struct FnLower<'p> {
    pub prog: &'p MirProgram,
    pub func: &'p MirFunction,
    pub abi: &'p RuntimeAbi,
    pub alloc: &'p RegAlloc,
    pub plan: FramePlan,
    pub kind: EntryKind,
}

/// Whether the types of a program are in order: their sizes and offsets are words.
pub open spec fn arena_ok(arena: TypeArena) -> bool {
    &&& arena.wf()
    &&& measurable(arena)
    &&& forall|ty: TypeId| #[trigger] arena.has(ty) ==> offsets_fit(arena, ty)
}

/// Whether the locals and parameters of a function are in order.
pub open spec fn signature_ok(arena: TypeArena, f: MirFunction) -> bool {
    &&& arena.has(f.ret)
    &&& f.locals@.len() <= u32::MAX
    &&& forall|i: int| 0 <= i < f.locals@.len() ==> arena.has((#[trigger] f.locals@[i]).ty)
    &&& forall|i: int| 0 <= i < f.params@.len() ==> (#[trigger] f.params@[i]).0 < f.locals@.len()
}

/// A function within its program.
pub struct Scope {
    pub prog: MirProgram,
    pub func: MirFunction,
}

impl Scope {
    /// Whether a constant refers to things of the program.
    pub open spec fn const_ok(self, c: Const) -> bool {
        match c {
            Const::Int { ty, .. } => self.prog.arena.has(ty),
            Const::Float { ty, .. } => self.prog.arena.has(ty),
            Const::EnumVal { ty, .. } => self.prog.arena.has(ty),
            Const::ErrVal { ty, .. } => self.prog.arena.has(ty),
            Const::Undef { ty } => self.prog.arena.has(ty),
            Const::EmptySlice { ty } => self.prog.arena.has(ty),
            Const::Str(id) => id.0 < self.prog.consts@.len(),
            Const::Aggregate { id, ty } => id.0 < self.prog.consts@.len() && self.prog.arena.has(ty),
            _ => true,
        }
    }

    /// Whether an operand refers to things of the function and program.
    pub open spec fn operand_ok(self, op: Operand) -> bool
        decreases op,
    {
        match op {
            Operand::Copy(p) => self.place_ok(p),
            Operand::Const(c) => self.const_ok(c),
        }
    }

    /// Whether a place refers to things of the function and program.
    pub open spec fn place_ok(self, p: Place) -> bool
        decreases p, p.proj@.len() + 1,
    {
        p.base.0 < self.func.locals@.len() && self.projs_ok(p, p.proj@.len() as int)
    }

    /// Whether the first `n` steps of a place do.
    pub open spec fn projs_ok(self, p: Place, n: int) -> bool
        decreases p, n,
    {
        if n <= 0 || n > p.proj@.len() {
            true
        } else {
            self.projs_ok(p, n - 1) && match p.proj@[n - 1] {
                Proj::Field { ty, .. } => self.prog.arena.has(ty),
                Proj::Index { at, ty } => self.prog.arena.has(ty) && self.operand_ok(at),
                Proj::Deref => true,
                Proj::SliceMeta { ty, .. } => self.prog.arena.has(ty),
                Proj::Payload { ty } => self.prog.arena.has(ty),
            }
        }
    }

    /// Whether all operands are in order.
    pub open spec fn operands_ok(self, args: Seq<Operand>) -> bool {
        forall|i: int| 0 <= i < args.len() ==> self.operand_ok(#[trigger] args[i])
    }

    /// Whether a computation is in order.
    pub open spec fn rvalue_ok(self, rv: Rvalue) -> bool {
        match rv {
            Rvalue::Use(op) => self.operand_ok(op),
            Rvalue::Binary { lhs, rhs, ty, .. } => self.operand_ok(lhs) && self.operand_ok(rhs)
                && self.prog.arena.has(ty),
            Rvalue::Unary { operand, ty, .. } => self.operand_ok(operand) && self.prog.arena.has(ty),
            Rvalue::Ref { place } => self.place_ok(place),
            Rvalue::Cast { operand, ty, .. } => self.operand_ok(operand) && self.prog.arena.has(ty),
            Rvalue::MakeSlice { ptr, offset, len, ty } => self.operand_ok(ptr) && self.operand_ok(
                offset,
            ) && self.operand_ok(len) && self.prog.arena.has(ty),
            Rvalue::MakeSome(op, ty) => self.operand_ok(op) && self.prog.arena.has(ty),
            Rvalue::MakeNull(ty) => self.prog.arena.has(ty),
            Rvalue::MakeOk(op, ty) => self.operand_ok(op) && self.prog.arena.has(ty),
            Rvalue::MakeErr(_, ty) => self.prog.arena.has(ty),
            Rvalue::Discriminant { operand, .. } => self.operand_ok(operand),
            Rvalue::Aggregate { fields, ty, .. } => self.operands_ok(fields@) && self.prog.arena.has(
                ty,
            ),
            Rvalue::Call { func, args, ty } => func.0 < self.prog.funcs@.len() && self.operands_ok(
                args@,
            ) && self.prog.arena.has(ty),
            Rvalue::Intrinsic { path, args } => self.path_ok(path) && self.operands_ok(args@),
        }
    }

    /// Whether the root of an intrinsic is in order.
    pub open spec fn path_ok(self, path: IntrinsicPath) -> bool {
        match path.root {
            IntrinsicRoot::Value(op) => self.operand_ok(op),
            _ => true,
        }
    }

    /// Whether a statement is in order.
    pub open spec fn stmt_ok(self, st: Statement) -> bool {
        match st {
            Statement::Assign { place, rvalue } => self.place_ok(place) && self.rvalue_ok(rvalue),
            Statement::Eval { rvalue } => self.rvalue_ok(rvalue),
            _ => true,
        }
    }

    /// Whether the end of a block is in order.
    pub open spec fn term_ok(self, t: Terminator) -> bool {
        let n = self.func.blocks@.len();
        match t {
            Terminator::Goto(b) => b.0 < n,
            Terminator::Branch { cond, then_bb, else_bb } => self.operand_ok(cond) && then_bb.0 < n
                && else_bb.0 < n,
            Terminator::Switch { scrutinee, targets, default } => self.operand_ok(scrutinee)
                && default.0 < n && forall|i: int|
                0 <= i < targets@.len() ==> (#[trigger] targets@[i]).1.0 < n,
            Terminator::Return { value } => self.operand_ok(value),
            _ => true,
        }
    }

    /// Whether a block is in order.
    pub open spec fn block_ok(self, b: Block) -> bool {
        &&& forall|i: int| 0 <= i < b.stmts@.len() ==> self.stmt_ok(#[trigger] b.stmts@[i])
        &&& self.term_ok(b.term)
    }

    /// The declared type of a local.
    pub open spec fn local_ty(self, l: LocalId) -> TypeId {
        self.func.locals@[l.0 as int].ty
    }

    /// What a pointer type points to; any other type itself.
    pub open spec fn pointee_ty(self, ty: TypeId) -> TypeId {
        match self.prog.arena.at(ty) {
            Type::Pointer { pointee } => pointee,
            _ => ty,
        }
    }

    /// The type of what the first `n` steps of a place reach.
    pub open spec fn type_at(self, place: Place, n: usize) -> TypeId
        decreases n,
    {
        if n == 0 {
            self.local_ty(place.base)
        } else {
            match place.proj@[n - 1] {
                Proj::Field { ty, .. } => ty,
                Proj::Index { ty, .. } => ty,
                Proj::SliceMeta { ty, .. } => ty,
                Proj::Payload { ty } => ty,
                Proj::Deref => self.pointee_ty(self.type_at(place, (n - 1) as usize)),
            }
        }
    }

    /// The type of an operand, where it says one.
    pub open spec fn operand_type(self, op: Operand) -> Option<TypeId> {
        match op {
            Operand::Copy(p) => Some(self.type_at(p, p.proj@.len() as usize)),
            Operand::Const(c) => match c {
                Const::Int { ty, .. } => Some(ty),
                Const::Float { ty, .. } => Some(ty),
                Const::EnumVal { ty, .. } => Some(ty),
                Const::Bool(_) => Some(TypeId(T_BOOL)),
                _ => None,
            },
        }
    }

    /// Whether the types, signatures and constants of the program are in order.
    pub open spec fn parts_ok(self) -> bool {
        &&& arena_ok(self.prog.arena)
        &&& signature_ok(self.prog.arena, self.func)
        &&& forall|i: int|
            0 <= i < self.prog.funcs@.len() ==> signature_ok(
                self.prog.arena,
                #[trigger] self.prog.funcs@[i],
            )
        &&& forall|i: int|
            0 <= i < self.prog.consts@.len() ==> (#[trigger] self.prog.consts@[i] matches ConstData::Aggregate(
                f,
            ) ==> self.operands_ok(f@))
        &&& tags_ascend(self.prog.err_names@)
    }

    /// Whether all blocks are in order.
    pub open spec fn blocks_ok(self) -> bool {
        &&& self.func.blocks@.len() <= u32::MAX
        &&& forall|i: int| 0 <= i < self.func.blocks@.len() ==> self.block_ok(
            #[trigger] self.func.blocks@[i],
        )
    }
}

impl Env {
    /// The function within its program.
    pub open spec fn scope(self) -> Scope {
        Scope { prog: self.prog, func: self.func }
    }

    /// See [`Scope::const_ok`].
    pub open spec fn const_ok(self, c: Const) -> bool {
        self.scope().const_ok(c)
    }

    /// See [`Scope::operand_ok`].
    pub open spec fn operand_ok(self, op: Operand) -> bool {
        self.scope().operand_ok(op)
    }

    /// See [`Scope::place_ok`].
    pub open spec fn place_ok(self, p: Place) -> bool {
        self.scope().place_ok(p)
    }

    /// See [`Scope::projs_ok`].
    pub open spec fn projs_ok(self, p: Place, n: int) -> bool {
        self.scope().projs_ok(p, n)
    }

    /// See [`Scope::operands_ok`].
    pub open spec fn operands_ok(self, args: Seq<Operand>) -> bool {
        self.scope().operands_ok(args)
    }

    /// See [`Scope::rvalue_ok`].
    pub open spec fn rvalue_ok(self, rv: Rvalue) -> bool {
        self.scope().rvalue_ok(rv)
    }

    /// See [`Scope::path_ok`].
    pub open spec fn path_ok(self, path: IntrinsicPath) -> bool {
        self.scope().path_ok(path)
    }

    /// See [`Scope::stmt_ok`].
    pub open spec fn stmt_ok(self, st: Statement) -> bool {
        self.scope().stmt_ok(st)
    }

    /// See [`Scope::term_ok`].
    pub open spec fn term_ok(self, t: Terminator) -> bool {
        self.scope().term_ok(t)
    }

    /// See [`Scope::block_ok`].
    pub open spec fn block_ok(self, b: Block) -> bool {
        self.scope().block_ok(b)
    }

    /// Whether there is one entry for each local, with types of the program.
    pub open spec fn alloc_ok(self) -> bool {
        let n = self.func.locals@.len();
        &&& self.alloc.loc@.len() == n
        &&& self.alloc.home_ty@.len() == n
        &&& self.alloc.home_size@.len() == n
        &&& self.alloc.eu_result@.len() == n
        &&& self.alloc.array_len@.len() == n
        &&& self.alloc.agg_fields@.len() == n
        &&& self.plan.local_home.len() == n
        &&& forall|i: int|
            0 <= i < n ==> ((#[trigger] self.alloc.eu_result@[i]) matches Some(t)
                ==> self.prog.arena.has(t))
        &&& forall|i: int|
            0 <= i < n ==> ((#[trigger] self.alloc.home_ty@[i]) matches Some(t)
                ==> self.prog.arena.has(t))
        &&& forall|i: int|
            0 <= i < n ==> ((#[trigger] self.alloc.agg_fields@[i]) matches Some(f)
                ==> forall|k: int| 0 <= k < f@.len() ==> self.prog.arena.has((#[trigger] f@[k]).0))
    }

    /// Whether everything that lowering looks up is there.
    pub open spec fn ok(self) -> bool {
        &&& self.scope().parts_ok()
        &&& self.alloc_ok()
    }

    /// The message for something that is not supported.
    pub open spec fn unsup(self, what: Seq<char>) -> Seq<char> {
        what + " in `"@ + self.func.name@ + "`"@
    }

    /// The message for something that is not supported, in three parts.
    pub open spec fn unsup3(self, a: Seq<char>, b: Seq<char>, c: Seq<char>) -> Seq<char> {
        self.unsup(a + b + c)
    }

    /// The type that an id names.
    pub open spec fn ty(self, ty: TypeId) -> Type {
        self.prog.arena.at(ty)
    }

    /// The declared type of a local.
    pub open spec fn local_ty(self, l: LocalId) -> TypeId {
        self.scope().local_ty(l)
    }

    /// The type of what the first `n` steps of a place reach.
    pub open spec fn type_at(self, place: Place, n: usize) -> TypeId {
        self.scope().type_at(place, n)
    }

    /// The type of an operand, where it says one.
    pub open spec fn operand_type(self, op: Operand) -> Option<TypeId> {
        self.scope().operand_type(op)
    }

    /// The tag of the error with a name, from the `i`-th on; 0 where there is none.
    pub open spec fn tag_named(self, name: Seq<char>, i: int) -> u16
        decreases self.prog.err_names@.len() - i,
    {
        if i < 0 || i >= self.prog.err_names@.len() {
            0
        } else if self.prog.err_names@[i].1@ == name {
            self.prog.err_names@[i].0.0
        } else {
            self.tag_named(name, i + 1)
        }
    }

    /// The layout of a type, a word standing in where it has none.
    pub open spec fn layout(self, ty: TypeId) -> Layout {
        layout_or_word(self.prog.arena, ty)
    }
}

/// The steps of a place in order are in order one by one.
pub(crate) proof fn proj_ok_at(env: Env, p: Place, n: int, i: int)
    requires
        env.projs_ok(p, n),
        0 <= i < n <= p.proj@.len(),
    ensures
        match p.proj@[i] {
            Proj::Field { ty, .. } => env.prog.arena.has(ty),
            Proj::Index { at, ty } => env.prog.arena.has(ty) && env.operand_ok(at),
            Proj::Deref => true,
            Proj::SliceMeta { ty, .. } => env.prog.arena.has(ty),
            Proj::Payload { ty } => env.prog.arena.has(ty),
        },
{
    step_ok_at(env.scope(), p, n, i);
}

/// The steps of a place in order are in order one by one.
pub(crate) proof fn step_ok_at(scope: Scope, p: Place, n: int, i: int)
    requires
        scope.projs_ok(p, n),
        0 <= i < n <= p.proj@.len(),
    ensures
        match p.proj@[i] {
            Proj::Field { ty, .. } => scope.prog.arena.has(ty),
            Proj::Index { at, ty } => scope.prog.arena.has(ty) && scope.operand_ok(at),
            Proj::Deref => true,
            Proj::SliceMeta { ty, .. } => scope.prog.arena.has(ty),
            Proj::Payload { ty } => scope.prog.arena.has(ty),
        },
    decreases n,
{
    if i < n - 1 {
        step_ok_at(scope, p, n - 1, i);
    }
}

/// A function within its program, for queries.
#[derive(Clone, Copy)]
pub struct ScopeRef<'p> {
    pub prog: &'p MirProgram,
    pub func: &'p MirFunction,
}

impl ScopeRef<'_> {
    /// The function within its program.
    pub open spec fn scope(&self) -> Scope {
        Scope { prog: *self.prog, func: *self.func }
    }

    pub(crate) fn local_ty(&self, l: LocalId) -> (r: TypeId)
        requires
            self.scope().parts_ok(),
            l.0 < self.func.locals@.len(),
        ensures
            r == self.scope().local_ty(l),
            self.prog.arena.has(r),
    {
        assert(self.prog.arena.has(self.func.locals@[l.0 as int].ty));
        self.func.locals[l.0 as usize].ty
    }

    pub(crate) fn type_at(&self, place: &Place, n: usize) -> (r: TypeId)
        requires
            self.scope().parts_ok(),
            self.scope().place_ok(*place),
            n <= place.proj@.len(),
        ensures
            r == self.scope().type_at(*place, n),
            self.prog.arena.has(r),
        decreases n,
    {
        if n == 0 {
            return self.local_ty(place.base);
        }
        proof {
            step_ok_at(self.scope(), *place, place.proj@.len() as int, n - 1);
        }
        match &place.proj[n - 1] {
            Proj::Field { ty, .. } => *ty,
            Proj::Index { ty, .. } => *ty,
            Proj::SliceMeta { ty, .. } => *ty,
            Proj::Payload { ty } => *ty,
            Proj::Deref => {
                let t: TypeId = self.type_at(place, n - 1);
                assert(self.prog.arena.type_ok(self.prog.arena.types@[t.0 as int]));
                match *self.prog.arena.get(t) {
                    Type::Pointer { pointee } => pointee,
                    _ => t,
                }
            },
        }
    }

    pub(crate) fn operand_type(&self, op: &Operand) -> (r: Option<TypeId>)
        requires
            self.scope().parts_ok(),
            self.scope().operand_ok(*op),
        ensures
            r == self.scope().operand_type(*op),
            r matches Some(t) ==> self.prog.arena.has(t),
    {
        match op {
            Operand::Copy(p) => Some(self.type_at(p, p.proj.len())),
            Operand::Const(c) => match *c {
                Const::Int { ty, .. } => Some(ty),
                Const::Float { ty, .. } => Some(ty),
                Const::EnumVal { ty, .. } => Some(ty),
                Const::Bool(_) => Some(TypeId(T_BOOL)),
                _ => None,
            },
        }
    }
}

impl FnLower<'_> {
    /// The context as a value.
    pub open spec fn env(&self) -> Env {
        Env {
            prog: *self.prog,
            func: *self.func,
            abi: *self.abi,
            alloc: *self.alloc,
            plan: self.plan@,
            kind: self.kind,
        }
    }

    /// See [`Env::ok`].
    pub open spec fn ok(&self) -> bool {
        self.env().ok()
    }

    pub(crate) fn unsup(&self, what: &str) -> (r: CodegenError)
        ensures
            r.unsupported(self.env().unsup(what@)),
    {
        let mut msg = String::from_str(what);
        msg.append(" in `");
        msg.append(self.func.name.as_str());
        msg.append("`");
        CodegenError::Unsupported(msg)
    }

    pub(crate) fn unsup3(&self, a: &str, b: &str, c: &str) -> (r: CodegenError)
        ensures
            r.unsupported(self.env().unsup3(a@, b@, c@)),
    {
        let mut msg = String::from_str(a);
        msg.append(b);
        msg.append(c);
        self.unsup(msg.as_str())
    }

    pub(crate) fn ty(&self, ty: TypeId) -> (r: Type)
        requires
            self.ok(),
            self.env().prog.arena.has(ty),
        ensures
            r == self.env().ty(ty),
            self.env().prog.arena.type_ok(r),
    {
        assert(self.prog.arena.type_ok(self.prog.arena.types@[ty.0 as int]));
        *self.prog.arena.get(ty)
    }

    /// The function within its program, for queries.
    pub(crate) fn scope_ref(&self) -> (r: ScopeRef<'_>)
        ensures
            r.scope() == self.env().scope(),
    {
        ScopeRef { prog: self.prog, func: self.func }
    }

    pub(crate) fn local_ty(&self, l: LocalId) -> (r: TypeId)
        requires
            self.ok(),
            l.0 < self.env().func.locals@.len(),
        ensures
            r == self.env().local_ty(l),
            self.env().prog.arena.has(r),
    {
        self.scope_ref().local_ty(l)
    }

    pub(crate) fn type_at(&self, place: &Place, n: usize) -> (r: TypeId)
        requires
            self.ok(),
            self.env().place_ok(*place),
            n <= place.proj@.len(),
        ensures
            r == self.env().type_at(*place, n),
            self.env().prog.arena.has(r),
    {
        self.scope_ref().type_at(place, n)
    }

    pub(crate) fn operand_type(&self, op: &Operand) -> (r: Option<TypeId>)
        requires
            self.ok(),
            self.env().operand_ok(*op),
        ensures
            r == self.env().operand_type(*op),
            r matches Some(t) ==> self.env().prog.arena.has(t),
    {
        self.scope_ref().operand_type(op)
    }

    pub(crate) fn oom_tag(&self) -> (r: u16)
        ensures
            r == self.env().oom_tag(),
    {
        let mut i: usize = 0;
        while i < self.prog.err_names.len()
            invariant
                i <= self.prog.err_names@.len(),
                self.env().tag_named("OutOfMemory"@, 0) == self.env().tag_named(
                    "OutOfMemory"@,
                    i as int,
                ),
            decreases self.prog.err_names@.len() - i,
        {
            if same_str(self.prog.err_names[i].1.as_str(), "OutOfMemory") {
                return self.prog.err_names[i].0.0;
            }
            i = i + 1;
        }
        0
    }

    pub(crate) fn layout(&self, ty: TypeId) -> (r: Layout)
        requires
            self.ok(),
            self.env().prog.arena.has(ty),
        ensures
            r == self.env().layout(ty),
            r.align >= 1,
            r.align <= 0x2_0000,
            is_pow2(r.align as int),
    {
        proof {
            alignment_facts(self.prog.arena, ty, 0);
            reveal_with_fuel(is_pow2, 5);
        }
        match layout_of(&self.prog.arena, ty) {
            Some(l) => l,
            None => Layout::WORD(),
        }
    }

    pub(crate) fn field_offset(&self, ty: TypeId, index: u32) -> (r: u64)
        requires
            self.ok(),
            self.env().prog.arena.has(ty),
        ensures
            r == self.env().field_offset(ty, index),
    {
        assert(offsets_fit(self.prog.arena, ty));
        let offs = field_offsets(&self.prog.arena, ty);
        if (index as usize) < offs.len() {
            offs[index as usize]
        } else {
            0
        }
    }

    pub(crate) fn eu_payload_of(&self, l: LocalId) -> (r: Option<(TypeId, i32)>)
        requires
            self.ok(),
            l.0 < self.env().func.locals@.len(),
        ensures
            r == self.env().eu_payload_of(l),
            r matches Some(p) ==> self.env().prog.arena.has(p.0),
    {
        assert(self.alloc.eu_result@[l.0 as int] == self.env().alloc.eu_result@[l.0 as int]);
        match self.alloc.eu_result[l.0 as usize] {
            Some(t) => {
                let a: u64 = self.layout(t).align;
                proof {
                    up_facts(2, a as int);
                }
                Some((t, round_up(2, a) as i32))
            },
            None => None,
        }
    }
}

impl Env {
    /// The tag of the error that an exhausted allocator gives.
    pub open spec fn oom_tag(self) -> u16 {
        self.tag_named("OutOfMemory"@, 0)
    }

    /// The offset of a struct field; 0 where there is no such field.
    pub open spec fn field_offset(self, ty: TypeId, index: u32) -> u64 {
        let offs = offsets_of(self.prog.arena, fields_of(self.prog.arena, ty));
        if (index as int) < offs.len() {
            offs[index as int]
        } else {
            0
        }
    }

    /// The payload type and offset of a local that holds the result of an
    /// allocation.
    pub open spec fn eu_payload_of(self, l: LocalId) -> Option<(TypeId, i32)> {
        match self.alloc.eu_result@[l.0 as int] {
            Some(t) => Some((t, up(2, self.layout(t).align as int) as u64 as i32)),
            None => None,
        }
    }
}

impl Env {
    /// The home of a local.
    pub open spec fn home(self, l: LocalId) -> Option<i32> {
        self.plan.local_home[l.0 as int]
    }

    /// The register of a local.
    pub open spec fn reg_of(self, l: LocalId) -> Option<Gpr> {
        match self.alloc.loc@[l.0 as int] {
            Loc::Reg(r) => Some(r),
            Loc::Spill => None,
        }
    }

    /// Whether safety checks are left out.
    pub open spec fn checks_off(self) -> bool {
        match self.prog.mode {
            BuildMode::ReleaseFast => true,
            _ => false,
        }
    }

    /// What a pointer type points to; any other type itself.
    pub open spec fn pointee_ty(self, ty: TypeId) -> TypeId {
        match self.ty(ty) {
            Type::Pointer { pointee } => pointee,
            _ => ty,
        }
    }

    /// The representation of a type; a type that is no integer has no width.
    pub open spec fn repr_of(self, ty: TypeId) -> Repr {
        match self.ty(ty) {
            Type::Int { signed, bits } => Repr {
                width: match bits {
                    IntBits::Fixed(n) => n,
                    IntBits::Usize => 64,
                    IntBits::Isize => 64,
                },
                signed,
            },
            _ => Repr { width: 0, signed: false },
        }
    }

    /// Whether a type is a float.
    pub open spec fn is_float(self, ty: TypeId) -> bool {
        match self.ty(ty) {
            Type::Float { .. } => true,
            Type::ComptimeFloat => true,
            _ => false,
        }
    }

    /// Whether a type is an integer of more than a word.
    pub open spec fn is_wide_int(self, ty: TypeId) -> bool {
        match self.ty(ty) {
            Type::Int { .. } => self.layout(ty).size > 8,
            _ => false,
        }
    }

    /// Whether a type lives in memory.
    pub open spec fn in_memory(self, ty: TypeId) -> bool {
        in_memory(self.prog.arena, ty)
    }

    /// Whether a type is a pointer.
    pub open spec fn is_pointer(self, ty: TypeId) -> bool {
        match self.ty(ty) {
            Type::Pointer { .. } => true,
            _ => false,
        }
    }

    /// Whether a type is a slice.
    pub open spec fn is_slice(self, ty: TypeId) -> bool {
        match self.ty(ty) {
            Type::Slice { .. } => true,
            _ => false,
        }
    }

    /// Whether a type is an error union.
    pub open spec fn is_error_union(self, ty: TypeId) -> bool {
        match self.ty(ty) {
            Type::ErrorUnion { .. } => true,
            _ => false,
        }
    }

    /// How many bytes a scalar takes in memory.
    pub open spec fn scalar_store_size(self, ty: TypeId) -> u64 {
        match self.ty(ty) {
            Type::Bool => 1,
            Type::Int { bits, .. } => max(int_bytes(bits), 1) as u64,
            _ => 8,
        }
    }

    /// The type of the value at a place.
    pub open spec fn place_type(self, place: Place) -> TypeId {
        self.type_at(place, place.proj@.len() as usize)
    }

    /// Whether an operand is a signed integer.
    pub open spec fn operand_signed(self, op: Operand) -> bool {
        match op {
            Operand::Copy(p) => self.repr_of(self.place_type(p)).signed,
            Operand::Const(c) => match c {
                Const::Int { ty, .. } => self.repr_of(ty).signed,
                _ => false,
            },
        }
    }

    /// The layout of a type, where it has one.
    pub open spec fn layout_opt(self, ty: TypeId) -> Option<Layout> {
        layout(self.prog.arena, ty)
    }

    /// The stride of the elements of a slice on its own.
    pub open spec fn slice_elem_stride(self, ty: TypeId) -> u64 {
        match self.layout_opt(ty) {
            Some(l) => if l.size >= 1 {
                l.size
            } else {
                1
            },
            None => 8,
        }
    }

    /// The stride of the elements of a slice in a struct field, which is that of a
    /// generic container: a word for all that is larger than two bytes and fits one.
    pub open spec fn field_slice_stride(self, ty: TypeId) -> u64 {
        match self.layout_opt(ty) {
            Some(l) => if l.size == 0 {
                1
            } else if l.size <= 2 {
                l.size
            } else if l.size <= 8 {
                8
            } else {
                l.size
            },
            None => 8,
        }
    }

    /// The size of an element, at least one byte.
    pub open spec fn natural_stride(self, ty: TypeId) -> u64 {
        if self.layout(ty).size >= 1 {
            self.layout(ty).size
        } else {
            1
        }
    }

    /// Whether a type is not known.
    pub open spec fn is_open_type(self, ty: TypeId) -> bool {
        match self.ty(ty) {
            Type::Deferred => true,
            Type::AnyType => true,
            _ => false,
        }
    }
}

impl FnLower<'_> {
    /// The home of a local.
    pub(crate) fn home(&self, l: LocalId) -> (r: Option<i32>)
        requires
            self.ok(),
            l.0 < self.env().func.locals@.len(),
        ensures
            r == self.env().home(l),
    {
        self.plan.local_home[l.0 as usize]
    }

    /// The register of a local.
    pub(crate) fn reg_of(&self, l: LocalId) -> (r: Option<Gpr>)
        requires
            self.ok(),
            l.0 < self.env().func.locals@.len(),
        ensures
            r == self.env().reg_of(l),
    {
        match self.alloc.loc[l.0 as usize] {
            Loc::Reg(r) => Some(r),
            Loc::Spill => None,
        }
    }

    /// Whether safety checks are left out.
    pub(crate) fn checks_off(&self) -> (r: bool)
        requires
            self.ok(),
        ensures
            r == self.env().checks_off(),
    {
        match self.prog.mode {
            BuildMode::ReleaseFast => true,
            _ => false,
        }
    }

    /// What a pointer type points to; any other type itself.
    pub(crate) fn pointee_ty(&self, ty: TypeId) -> (r: TypeId)
        requires
            self.ok(),
            self.env().prog.arena.has(ty),
        ensures
            r == self.env().pointee_ty(ty),
            self.env().prog.arena.has(r),
    {
        match self.ty(ty) {
            Type::Pointer { pointee } => pointee,
            _ => ty,
        }
    }

    /// The representation of a type; a type that is no integer has no width.
    pub(crate) fn repr_of(&self, ty: TypeId) -> (r: Repr)
        requires
            self.ok(),
            self.env().prog.arena.has(ty),
        ensures
            r == self.env().repr_of(ty),
    {
        match self.ty(ty) {
            Type::Int { signed, bits } => Repr {
                width: match bits {
                    IntBits::Fixed(n) => n,
                    IntBits::Usize => 64,
                    IntBits::Isize => 64,
                },
                signed,
            },
            _ => Repr { width: 0, signed: false },
        }
    }

    /// Whether a type is a float.
    pub(crate) fn is_float(&self, ty: TypeId) -> (r: bool)
        requires
            self.ok(),
            self.env().prog.arena.has(ty),
        ensures
            r == self.env().is_float(ty),
    {
        match self.ty(ty) {
            Type::Float { .. } => true,
            Type::ComptimeFloat => true,
            _ => false,
        }
    }

    /// Whether a type is an integer of more than a word.
    pub(crate) fn is_wide_int(&self, ty: TypeId) -> (r: bool)
        requires
            self.ok(),
            self.env().prog.arena.has(ty),
        ensures
            r == self.env().is_wide_int(ty),
    {
        match self.ty(ty) {
            Type::Int { .. } => self.layout(ty).size > 8,
            _ => false,
        }
    }

    /// Whether a type lives in memory.
    pub(crate) fn in_memory(&self, ty: TypeId) -> (r: bool)
        requires
            self.ok(),
            self.env().prog.arena.has(ty),
        ensures
            r == self.env().in_memory(ty),
    {
        is_memory_aggregate(&self.prog.arena, ty)
    }

    /// Whether a type is a pointer.
    pub(crate) fn is_pointer(&self, ty: TypeId) -> (r: bool)
        requires
            self.ok(),
            self.env().prog.arena.has(ty),
        ensures
            r == self.env().is_pointer(ty),
    {
        match self.ty(ty) {
            Type::Pointer { .. } => true,
            _ => false,
        }
    }

    /// Whether a type is a slice.
    pub(crate) fn is_slice(&self, ty: TypeId) -> (r: bool)
        requires
            self.ok(),
            self.env().prog.arena.has(ty),
        ensures
            r == self.env().is_slice(ty),
    {
        match self.ty(ty) {
            Type::Slice { .. } => true,
            _ => false,
        }
    }

    /// Whether a type is an error union.
    pub(crate) fn is_error_union(&self, ty: TypeId) -> (r: bool)
        requires
            self.ok(),
            self.env().prog.arena.has(ty),
        ensures
            r == self.env().is_error_union(ty),
    {
        match self.ty(ty) {
            Type::ErrorUnion { .. } => true,
            _ => false,
        }
    }

    /// How many bytes a scalar takes in memory.
    pub(crate) fn scalar_store_size(&self, ty: TypeId) -> (r: u64)
        requires
            self.ok(),
            self.env().prog.arena.has(ty),
        ensures
            r == self.env().scalar_store_size(ty),
    {
        match self.ty(ty) {
            Type::Bool => 1,
            Type::Int { bits, .. } => {
                let n: u64 = int_byte_size(bits);
                if n >= 1 {
                    n
                } else {
                    1
                }
            },
            _ => 8,
        }
    }

    /// The type of the value at a place.
    pub(crate) fn place_type(&self, place: &Place) -> (r: TypeId)
        requires
            self.ok(),
            self.env().place_ok(*place),
        ensures
            r == self.env().place_type(*place),
            self.env().prog.arena.has(r),
    {
        self.type_at(place, place.proj.len())
    }

    /// Whether an operand is a signed integer.
    pub(crate) fn operand_signed(&self, op: &Operand) -> (r: bool)
        requires
            self.ok(),
            self.env().operand_ok(*op),
        ensures
            r == self.env().operand_signed(*op),
    {
        match op {
            Operand::Copy(p) => self.repr_of(self.place_type(p)).signed,
            Operand::Const(c) => match *c {
                Const::Int { ty, .. } => self.repr_of(ty).signed,
                _ => false,
            },
        }
    }

    /// The layout of a type, where it has one.
    pub(crate) fn layout_opt(&self, ty: TypeId) -> (r: Option<Layout>)
        requires
            self.ok(),
            self.env().prog.arena.has(ty),
        ensures
            r == self.env().layout_opt(ty),
    {
        layout_of(&self.prog.arena, ty)
    }

    /// The stride of the elements of a slice on its own.
    pub(crate) fn slice_elem_stride(&self, ty: TypeId) -> (r: u64)
        requires
            self.ok(),
            self.env().prog.arena.has(ty),
        ensures
            r == self.env().slice_elem_stride(ty),
    {
        match self.layout_opt(ty) {
            Some(l) => if l.size >= 1 {
                l.size
            } else {
                1
            },
            None => 8,
        }
    }

    /// The stride of the elements of a slice in a struct field, which is that of a
    /// generic container: a word for all that is larger than two bytes and fits one.
    pub(crate) fn field_slice_stride(&self, ty: TypeId) -> (r: u64)
        requires
            self.ok(),
            self.env().prog.arena.has(ty),
        ensures
            r == self.env().field_slice_stride(ty),
    {
        match self.layout_opt(ty) {
            Some(l) => if l.size == 0 {
                1
            } else if l.size <= 2 {
                l.size
            } else if l.size <= 8 {
                8
            } else {
                l.size
            },
            None => 8,
        }
    }

    /// The size of an element, at least one byte.
    pub(crate) fn natural_stride(&self, ty: TypeId) -> (r: u64)
        requires
            self.ok(),
            self.env().prog.arena.has(ty),
        ensures
            r == self.env().natural_stride(ty),
    {
        if self.layout(ty).size >= 1 {
            self.layout(ty).size
        } else {
            1
        }
    }

    /// Whether a type is not known.
    pub(crate) fn is_open_type(&self, ty: TypeId) -> (r: bool)
        requires
            self.ok(),
            self.env().prog.arena.has(ty),
        ensures
            r == self.env().is_open_type(ty),
    {
        match self.ty(ty) {
            Type::Deferred => true,
            Type::AnyType => true,
            _ => false,
        }
    }
}

} // verus!
