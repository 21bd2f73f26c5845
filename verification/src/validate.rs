//! Whether a program can be compiled: everything that it refers to is there, and its
//! sizes are within reach.
use vstd::prelude::*;

use crate::aarch64::lower::func as a64_func;
use crate::compile::{
    Support, a64_program_ok, compilable, lines_ok, program_ok, stmt_count, stmts_grow, total_grows,
    total_stmts,
};
use crate::encode::{Fixup, FixupKind, hole_width};
use crate::frame::{frame_fits, is_memory_aggregate};
use crate::layout::{
    Layout, MAX_END, alignment_facts, all_measurable, fields_end, fields_of, is_pow2, layout_of,
    layout_or_word, max, measurable, offsets_fit, round_up, up_facts,
};
use crate::link::{Routine, routine_views, routines_within, within};
use crate::lower::abi::{func_prints, outgoing_args_bytes};
use crate::lower::env::{Scope, arena_ok, signature_ok};
use crate::lower::func::{env_of, frame_input, function_ok, returns_by_pointer};
use crate::mir::{
    Block, BlockId, Const, ConstData, ErrTag, IntrinsicPath, IntrinsicRoot, MirFunction, MirProgram,
    Operand, Place, Proj, Rvalue, Statement, Terminator, tags_ascend,
};
use crate::target::Target;
use crate::text::same_str;
use crate::types::{FieldInfo, IntBits, Type, TypeArena, TypeId};

verus! {

// ---------------------------------------------------------------------------
//  Types
// ---------------------------------------------------------------------------

fn has_type(arena: &TypeArena, ty: TypeId) -> (r: bool)
    ensures
        r == arena.has(ty),
{
    (ty.0 as usize) < arena.types.len()
}

fn type_valid(arena: &TypeArena, t: Type) -> (r: bool)
    ensures
        r == arena.type_ok(t),
{
    match t {
        Type::Pointer { pointee } => has_type(arena, pointee),
        Type::Slice { elem } => has_type(arena, elem),
        Type::Optional(inner) => has_type(arena, inner),
        Type::ErrorUnion { ok } => has_type(arena, ok),
        Type::Array { elem, .. } => has_type(arena, elem),
        Type::Vector { elem, .. } => has_type(arena, elem),
        Type::Struct(id) => (id.0 as usize) < arena.structs.len(),
        Type::Enum(id) => (id.0 as usize) < arena.enums.len(),
        Type::Union(id) => (id.0 as usize) < arena.unions.len(),
        _ => true,
    }
}

fn types_valid(arena: &TypeArena) -> (r: bool)
    ensures
        r == (forall|i: int|
            0 <= i < arena.types@.len() ==> arena.type_ok(#[trigger] arena.types@[i])),
{
    let mut i: usize = 0;
    while i < arena.types.len()
        invariant
            i <= arena.types@.len(),
            forall|k: int| 0 <= k < i ==> arena.type_ok(#[trigger] arena.types@[k]),
        decreases arena.types@.len() - i,
    {
        if !type_valid(arena, arena.types[i]) {
            assert(!arena.type_ok(arena.types@[i as int]));
            return false;
        }
        i = i + 1;
    }
    true
}

fn fields_valid(arena: &TypeArena) -> (r: bool)
    ensures
        r == (forall|i: int, k: int|
            0 <= i < arena.structs@.len() && 0 <= k < arena.structs@[i].fields@.len() ==> arena.has(
                (#[trigger] arena.structs@[i].fields@[k]).ty,
            )),
{
    let mut i: usize = 0;
    while i < arena.structs.len()
        invariant
            i <= arena.structs@.len(),
            forall|j: int, k: int|
                0 <= j < i && 0 <= k < arena.structs@[j].fields@.len() ==> arena.has(
                    (#[trigger] arena.structs@[j].fields@[k]).ty,
                ),
        decreases arena.structs@.len() - i,
    {
        let fields = &arena.structs[i].fields;
        let mut n: usize = 0;
        while n < fields.len()
            invariant
                i < arena.structs@.len(),
                fields@ == arena.structs@[i as int].fields@,
                n <= fields@.len(),
                forall|k: int| 0 <= k < n ==> arena.has((#[trigger] fields@[k]).ty),
            decreases fields@.len() - n,
        {
            if !has_type(arena, fields[n].ty) {
                assert(!arena.has(arena.structs@[i as int].fields@[n as int].ty));
                return false;
            }
            n = n + 1;
        }
        i = i + 1;
    }
    true
}

fn enums_valid(arena: &TypeArena) -> (r: bool)
    ensures
        r == (forall|i: int|
            0 <= i < arena.enums@.len() ==> arena.has((#[trigger] arena.enums@[i]).tag)),
{
    let mut i: usize = 0;
    while i < arena.enums.len()
        invariant
            i <= arena.enums@.len(),
            forall|k: int| 0 <= k < i ==> arena.has((#[trigger] arena.enums@[k]).tag),
        decreases arena.enums@.len() - i,
    {
        if !has_type(arena, arena.enums[i].tag) {
            assert(!arena.has(arena.enums@[i as int].tag));
            return false;
        }
        i = i + 1;
    }
    true
}

fn unions_valid(arena: &TypeArena) -> (r: bool)
    ensures
        r == (forall|i: int, k: int|
            0 <= i < arena.unions@.len() && 0 <= k < arena.unions@[i].variants@.len() ==> arena.has(
                (#[trigger] arena.unions@[i].variants@[k]).payload,
            )),
{
    let mut i: usize = 0;
    while i < arena.unions.len()
        invariant
            i <= arena.unions@.len(),
            forall|j: int, k: int|
                0 <= j < i && 0 <= k < arena.unions@[j].variants@.len() ==> arena.has(
                    (#[trigger] arena.unions@[j].variants@[k]).payload,
                ),
        decreases arena.unions@.len() - i,
    {
        let variants = &arena.unions[i].variants;
        let mut n: usize = 0;
        while n < variants.len()
            invariant
                i < arena.unions@.len(),
                variants@ == arena.unions@[i as int].variants@,
                n <= variants@.len(),
                forall|k: int| 0 <= k < n ==> arena.has((#[trigger] variants@[k]).payload),
            decreases variants@.len() - n,
        {
            if !has_type(arena, variants[n].payload) {
                assert(!arena.has(arena.unions@[i as int].variants@[n as int].payload));
                return false;
            }
            n = n + 1;
        }
        i = i + 1;
    }
    true
}

fn arena_well_formed(arena: &TypeArena) -> (r: bool)
    ensures
        r == arena.wf(),
{
    let n: usize = arena.types.len();
    if n < 4 || n > 0xFFFF_FFFF || arena.unions.len() > 0xFFFF_FFFF {
        return false;
    }
    arena.types[0] == Type::Void && arena.types[1] == Type::Bool && arena.types[2] == (Type::Int {
        signed: false,
        bits: IntBits::Fixed(8),
    }) && arena.types[3] == (Type::Slice { elem: TypeId(2) }) && types_valid(arena)
        && fields_valid(arena) && enums_valid(arena) && unions_valid(arena)
}

/// Further fields only end later.
proof fn fields_end_grows(arena: TypeArena, fields: Seq<FieldInfo>, i: int, n: int)
    requires
        0 <= i <= n <= fields.len(),
    ensures
        0 <= fields_end(arena, fields.take(i)) <= fields_end(arena, fields.take(n)),
    decreases n,
{
    if n > 0 {
        let t = fields.take(n);
        assert(t.drop_last() =~= fields.take(n - 1));
        let l = layout_or_word(arena, t.last().ty);
        if i < n {
            fields_end_grows(arena, fields, i, n - 1);
        } else {
            fields_end_grows(arena, fields, n - 1, n - 1);
        }
        up_facts(fields_end(arena, fields.take(n - 1)), max(l.align as int, 1));
    } else {
        assert(fields.take(0) =~= Seq::empty());
    }
}

fn offsets_in_reach(arena: &TypeArena, ty: TypeId) -> (r: bool)
    requires
        arena.wf(),
        measurable(*arena),
        arena.has(ty),
    ensures
        r == offsets_fit(*arena, ty),
{
    let ghost fields = fields_of(*arena, ty);
    assert(arena.type_ok(arena.types@[ty.0 as int]));
    let id: u32 = match *arena.get(ty) {
        Type::Struct(id) => id.0,
        _ => {
            assert forall|n: int| 0 <= n <= fields.len() implies #[trigger] fields_end(
                *arena,
                fields.take(n),
            ) <= MAX_END by {
                assert(fields.take(n) =~= Seq::empty());
            }
            return true;
        },
    };
    let mut end: u64 = 0;
    let mut i: usize = 0;
    assert(fields.take(0) =~= Seq::empty());
    while i < arena.structs[id as usize].fields.len()
        invariant
            arena.wf(),
            measurable(*arena),
            fields == fields_of(*arena, ty),
            id < arena.structs@.len(),
            fields == arena.structs@[id as int].fields@,
            i <= fields.len(),
            end == fields_end(*arena, fields.take(i as int)),
            end <= MAX_END,
        decreases fields.len() - i,
    {
        let fty: TypeId = arena.structs[id as usize].fields[i].ty;
        assert(arena.has(arena.structs@[id as int].fields@[i as int].ty));
        let l: Layout = match layout_of(arena, fty) {
            Some(l) => l,
            None => Layout::WORD(),
        };
        proof {
            let t = fields.take(i + 1);
            assert(t.drop_last() =~= fields.take(i as int));
            assert(t.last() == fields[i as int]);
            alignment_facts(*arena, fty, 0);
            reveal_with_fuel(is_pow2, 5);
            up_facts(end as int, max(l.align as int, 1));
        }
        let align: u64 = if l.align >= 1 {
            l.align
        } else {
            1
        };
        let at: u64 = round_up(end, align);
        if at > MAX_END || l.size > MAX_END - at {
            assert(fields_end(*arena, fields.take(i + 1)) > MAX_END);
            return false;
        }
        end = at + l.size;
        i = i + 1;
    }
    proof {
        assert forall|n: int| 0 <= n <= fields.len() implies #[trigger] fields_end(
            *arena,
            fields.take(n),
        ) <= MAX_END by {
            fields_end_grows(*arena, fields, n, fields.len() as int);
        }
    }
    true
}

fn arena_valid(arena: &TypeArena) -> (r: bool)
    ensures
        r == arena_ok(*arena),
{
    if !arena_well_formed(arena) || !all_measurable(arena) {
        return false;
    }
    let mut i: usize = 0;
    while i < arena.types.len()
        invariant
            arena.wf(),
            measurable(*arena),
            i <= arena.types@.len(),
            forall|t: TypeId| t.0 < i ==> #[trigger] offsets_fit(*arena, t),
        decreases arena.types@.len() - i,
    {
        let ty = TypeId(i as u32);
        if !offsets_in_reach(arena, ty) {
            assert(arena.has(ty));
            return false;
        }
        assert forall|t: TypeId| t.0 < i + 1 implies #[trigger] offsets_fit(*arena, t) by {
            if t.0 == i {
                assert(t == ty);
            }
        }
        i = i + 1;
    }
    true
}

// ---------------------------------------------------------------------------
//  Functions
// ---------------------------------------------------------------------------

fn signature_valid(arena: &TypeArena, f: &MirFunction) -> (r: bool)
    ensures
        r == signature_ok(*arena, *f),
{
    if !has_type(arena, f.ret) || f.locals.len() > 0xFFFF_FFFF {
        return false;
    }
    let mut i: usize = 0;
    while i < f.locals.len()
        invariant
            i <= f.locals@.len(),
            forall|k: int| 0 <= k < i ==> arena.has((#[trigger] f.locals@[k]).ty),
        decreases f.locals@.len() - i,
    {
        if !has_type(arena, f.locals[i].ty) {
            assert(!arena.has(f.locals@[i as int].ty));
            return false;
        }
        i = i + 1;
    }
    let n: usize = f.locals.len();
    let mut k: usize = 0;
    while k < f.params.len()
        invariant
            n == f.locals@.len(),
            k <= f.params@.len(),
            forall|j: int| 0 <= j < k ==> (#[trigger] f.params@[j]).0 < n,
        decreases f.params@.len() - k,
    {
        if f.params[k].0 as usize >= n {
            assert(!(f.params@[k as int].0 < n));
            return false;
        }
        k = k + 1;
    }
    true
}

fn const_valid(prog: &MirProgram, c: Const, Ghost(func): Ghost<MirFunction>) -> (r: bool)
    ensures
        r == (Scope { prog: *prog, func }).const_ok(c),
{
    let n: usize = prog.consts.len();
    match c {
        Const::Int { ty, .. } => has_type(&prog.arena, ty),
        Const::Float { ty, .. } => has_type(&prog.arena, ty),
        Const::EnumVal { ty, .. } => has_type(&prog.arena, ty),
        Const::ErrVal { ty, .. } => has_type(&prog.arena, ty),
        Const::Undef { ty } => has_type(&prog.arena, ty),
        Const::EmptySlice { ty } => has_type(&prog.arena, ty),
        Const::Str(id) => (id.0 as usize) < n,
        Const::Aggregate { id, ty } => (id.0 as usize) < n && has_type(&prog.arena, ty),
        _ => true,
    }
}

fn operand_valid(prog: &MirProgram, func: &MirFunction, op: &Operand) -> (r: bool)
    ensures
        r == (Scope { prog: *prog, func: *func }).operand_ok(*op),
    decreases op,
{
    match op {
        Operand::Copy(p) => place_valid(prog, func, p),
        Operand::Const(c) => const_valid(prog, *c, Ghost(*func)),
    }
}

fn place_valid(prog: &MirProgram, func: &MirFunction, p: &Place) -> (r: bool)
    ensures
        r == (Scope { prog: *prog, func: *func }).place_ok(*p),
    decreases p, p.proj@.len() + 1,
{
    (p.base.0 as usize) < func.locals.len() && projs_valid(prog, func, p, p.proj.len())
}

fn projs_valid(prog: &MirProgram, func: &MirFunction, p: &Place, n: usize) -> (r: bool)
    requires
        n <= p.proj@.len(),
    ensures
        r == (Scope { prog: *prog, func: *func }).projs_ok(*p, n as int),
    decreases p, n,
{
    if n == 0 {
        return true;
    }
    if !projs_valid(prog, func, p, n - 1) {
        return false;
    }
    match &p.proj[n - 1] {
        Proj::Field { ty, .. } => has_type(&prog.arena, *ty),
        Proj::Index { at, ty } => has_type(&prog.arena, *ty) && operand_valid(prog, func, at),
        Proj::Deref => true,
        Proj::SliceMeta { ty, .. } => has_type(&prog.arena, *ty),
        Proj::Payload { ty } => has_type(&prog.arena, *ty),
    }
}

fn operands_valid(prog: &MirProgram, func: &MirFunction, args: &Vec<Operand>) -> (r: bool)
    ensures
        r == (Scope { prog: *prog, func: *func }).operands_ok(args@),
{
    let ghost scope = Scope { prog: *prog, func: *func };
    let mut i: usize = 0;
    while i < args.len()
        invariant
            scope == (Scope { prog: *prog, func: *func }),
            i <= args@.len(),
            forall|k: int| 0 <= k < i ==> scope.operand_ok(#[trigger] args@[k]),
        decreases args@.len() - i,
    {
        if !operand_valid(prog, func, &args[i]) {
            assert(!scope.operand_ok(args@[i as int]));
            return false;
        }
        i = i + 1;
    }
    true
}

fn path_valid(prog: &MirProgram, func: &MirFunction, path: &IntrinsicPath) -> (r: bool)
    ensures
        r == (Scope { prog: *prog, func: *func }).path_ok(*path),
{
    match &path.root {
        IntrinsicRoot::Value(op) => operand_valid(prog, func, op),
        _ => true,
    }
}

fn rvalue_valid(prog: &MirProgram, func: &MirFunction, rv: &Rvalue) -> (r: bool)
    ensures
        r == (Scope { prog: *prog, func: *func }).rvalue_ok(*rv),
{
    match rv {
        Rvalue::Use(op) => operand_valid(prog, func, op),
        Rvalue::Binary { lhs, rhs, ty, .. } => operand_valid(prog, func, lhs) && operand_valid(
            prog,
            func,
            rhs,
        ) && has_type(&prog.arena, *ty),
        Rvalue::Unary { operand, ty, .. } => operand_valid(prog, func, operand) && has_type(
            &prog.arena,
            *ty,
        ),
        Rvalue::Ref { place } => place_valid(prog, func, place),
        Rvalue::Cast { operand, ty, .. } => operand_valid(prog, func, operand) && has_type(
            &prog.arena,
            *ty,
        ),
        Rvalue::MakeSlice { ptr, offset, len, ty } => operand_valid(prog, func, ptr)
            && operand_valid(prog, func, offset) && operand_valid(prog, func, len) && has_type(
            &prog.arena,
            *ty,
        ),
        Rvalue::MakeSome(op, ty) => operand_valid(prog, func, op) && has_type(&prog.arena, *ty),
        Rvalue::MakeNull(ty) => has_type(&prog.arena, *ty),
        Rvalue::MakeOk(op, ty) => operand_valid(prog, func, op) && has_type(&prog.arena, *ty),
        Rvalue::MakeErr(_, ty) => has_type(&prog.arena, *ty),
        Rvalue::Discriminant { operand, .. } => operand_valid(prog, func, operand),
        Rvalue::Aggregate { fields, ty, .. } => operands_valid(prog, func, fields) && has_type(
            &prog.arena,
            *ty,
        ),
        Rvalue::Call { func: callee, args, ty } => (callee.0 as usize) < prog.funcs.len()
            && operands_valid(prog, func, args) && has_type(&prog.arena, *ty),
        Rvalue::Intrinsic { path, args } => path_valid(prog, func, path) && operands_valid(
            prog,
            func,
            args,
        ),
    }
}

fn stmt_valid(prog: &MirProgram, func: &MirFunction, st: &Statement) -> (r: bool)
    ensures
        r == (Scope { prog: *prog, func: *func }).stmt_ok(*st),
{
    match st {
        Statement::Assign { place, rvalue } => place_valid(prog, func, place) && rvalue_valid(
            prog,
            func,
            rvalue,
        ),
        Statement::Eval { rvalue } => rvalue_valid(prog, func, rvalue),
        _ => true,
    }
}

fn targets_valid(targets: &Vec<(i128, BlockId)>, n: usize) -> (r: bool)
    ensures
        r == (forall|i: int| 0 <= i < targets@.len() ==> (#[trigger] targets@[i]).1.0 < n),
{
    let mut i: usize = 0;
    while i < targets.len()
        invariant
            i <= targets@.len(),
            forall|k: int| 0 <= k < i ==> (#[trigger] targets@[k]).1.0 < n,
        decreases targets@.len() - i,
    {
        if targets[i].1.0 as usize >= n {
            assert(!(targets@[i as int].1.0 < n));
            return false;
        }
        i = i + 1;
    }
    true
}

fn term_valid(prog: &MirProgram, func: &MirFunction, t: &Terminator) -> (r: bool)
    ensures
        r == (Scope { prog: *prog, func: *func }).term_ok(*t),
{
    let n: usize = func.blocks.len();
    match t {
        Terminator::Goto(b) => (b.0 as usize) < n,
        Terminator::Branch { cond, then_bb, else_bb } => operand_valid(prog, func, cond) && (
        then_bb.0 as usize) < n && (else_bb.0 as usize) < n,
        Terminator::Switch { scrutinee, targets, default } => operand_valid(
            prog,
            func,
            scrutinee,
        ) && (default.0 as usize) < n && targets_valid(targets, n),
        Terminator::Return { value } => operand_valid(prog, func, value),
        _ => true,
    }
}

fn block_valid(prog: &MirProgram, func: &MirFunction, b: &Block) -> (r: bool)
    ensures
        r == (Scope { prog: *prog, func: *func }).block_ok(*b),
{
    let ghost scope = Scope { prog: *prog, func: *func };
    let mut i: usize = 0;
    while i < b.stmts.len()
        invariant
            scope == (Scope { prog: *prog, func: *func }),
            i <= b.stmts@.len(),
            forall|k: int| 0 <= k < i ==> scope.stmt_ok(#[trigger] b.stmts@[k]),
        decreases b.stmts@.len() - i,
    {
        if !stmt_valid(prog, func, &b.stmts[i]) {
            assert(!scope.stmt_ok(b.stmts@[i as int]));
            return false;
        }
        i = i + 1;
    }
    term_valid(prog, func, &b.term)
}

fn blocks_valid(prog: &MirProgram, func: &MirFunction) -> (r: bool)
    ensures
        r == (Scope { prog: *prog, func: *func }).blocks_ok(),
{
    if func.blocks.len() > 0xFFFF_FFFF {
        return false;
    }
    let ghost scope = Scope { prog: *prog, func: *func };
    let mut i: usize = 0;
    while i < func.blocks.len()
        invariant
            scope == (Scope { prog: *prog, func: *func }),
            i <= func.blocks@.len(),
            forall|k: int| 0 <= k < i ==> scope.block_ok(#[trigger] func.blocks@[k]),
        decreases func.blocks@.len() - i,
    {
        if !block_valid(prog, func, &func.blocks[i]) {
            assert(!scope.block_ok(func.blocks@[i as int]));
            return false;
        }
        i = i + 1;
    }
    true
}

fn tags_valid(names: &Vec<(ErrTag, String)>) -> (r: bool)
    ensures
        r == tags_ascend(names@),
{
    let mut i: usize = 1;
    while i < names.len()
        invariant
            1 <= i,
            i <= names@.len() || names@.len() == 0,
            forall|k: int, j: int|
                0 <= k < j < i && j < names@.len() ==> (#[trigger] names@[k]).0.0 < (
                #[trigger] names@[j]).0.0,
        decreases names@.len() - i,
    {
        if names[i - 1].0.0 >= names[i].0.0 {
            assert(!tags_ascend(names@)) by {
                assert(names@[i - 1].0.0 >= names@[i as int].0.0);
            }
            return false;
        }
        assert forall|k: int, j: int| 0 <= k < j < i + 1 && j < names@.len() implies (
        #[trigger] names@[k]).0.0 < (#[trigger] names@[j]).0.0 by {
            if j == i && k < i - 1 {
                assert(names@[k].0.0 < names@[i - 1].0.0);
            }
        }
        i = i + 1;
    }
    true
}

fn parts_valid(prog: &MirProgram, func: &MirFunction) -> (r: bool)
    ensures
        r == (Scope { prog: *prog, func: *func }).parts_ok(),
{
    if !arena_valid(&prog.arena) || !signature_valid(&prog.arena, func) {
        return false;
    }
    let ghost scope = Scope { prog: *prog, func: *func };
    let mut i: usize = 0;
    while i < prog.funcs.len()
        invariant
            i <= prog.funcs@.len(),
            forall|k: int| 0 <= k < i ==> signature_ok(prog.arena, #[trigger] prog.funcs@[k]),
        decreases prog.funcs@.len() - i,
    {
        if !signature_valid(&prog.arena, &prog.funcs[i]) {
            assert(!signature_ok(prog.arena, prog.funcs@[i as int]));
            return false;
        }
        i = i + 1;
    }
    let mut k: usize = 0;
    while k < prog.consts.len()
        invariant
            scope == (Scope { prog: *prog, func: *func }),
            k <= prog.consts@.len(),
            forall|j: int|
                0 <= j < k ==> (#[trigger] prog.consts@[j] matches ConstData::Aggregate(f)
                    ==> scope.operands_ok(f@)),
        decreases prog.consts@.len() - k,
    {
        match &prog.consts[k] {
            ConstData::Aggregate(f) => {
                if !operands_valid(prog, func, f) {
                    assert(prog.consts@[k as int] is Aggregate);
                    return false;
                }
            },
            ConstData::Bytes(_) => {},
        }
        k = k + 1;
    }
    tags_valid(&prog.err_names)
}

// ---------------------------------------------------------------------------
//  Register allocations and frames
// ---------------------------------------------------------------------------

fn types_known(arena: &TypeArena, v: &Vec<Option<TypeId>>) -> (r: bool)
    ensures
        r == (forall|i: int|
            0 <= i < v@.len() ==> ((#[trigger] v@[i]) matches Some(t) ==> arena.has(t))),
{
    let mut i: usize = 0;
    while i < v.len()
        invariant
            i <= v@.len(),
            forall|k: int| 0 <= k < i ==> ((#[trigger] v@[k]) matches Some(t) ==> arena.has(t)),
        decreases v@.len() - i,
    {
        match v[i] {
            Some(t) => {
                if !has_type(arena, t) {
                    assert(!(v@[i as int] matches Some(t) ==> arena.has(t)));
                    return false;
                }
            },
            None => {},
        }
        i = i + 1;
    }
    true
}

fn pairs_known(arena: &TypeArena, f: &Vec<(TypeId, u64)>) -> (r: bool)
    ensures
        r == (forall|k: int| 0 <= k < f@.len() ==> arena.has((#[trigger] f@[k]).0)),
{
    let mut i: usize = 0;
    while i < f.len()
        invariant
            i <= f@.len(),
            forall|k: int| 0 <= k < i ==> arena.has((#[trigger] f@[k]).0),
        decreases f@.len() - i,
    {
        if !has_type(arena, f[i].0) {
            assert(!arena.has(f@[i as int].0));
            return false;
        }
        i = i + 1;
    }
    true
}

fn fields_known(arena: &TypeArena, v: &Vec<Option<Vec<(TypeId, u64)>>>) -> (r: bool)
    ensures
        r == (forall|i: int|
            0 <= i < v@.len() ==> ((#[trigger] v@[i]) matches Some(f) ==> forall|k: int|
                0 <= k < f@.len() ==> arena.has((#[trigger] f@[k]).0))),
{
    let mut i: usize = 0;
    while i < v.len()
        invariant
            i <= v@.len(),
            forall|j: int|
                0 <= j < i ==> ((#[trigger] v@[j]) matches Some(f) ==> forall|k: int|
                    0 <= k < f@.len() ==> arena.has((#[trigger] f@[k]).0)),
        decreases v@.len() - i,
    {
        match &v[i] {
            Some(f) => {
                if !pairs_known(arena, f) {
                    assert(v@[i as int] is Some);
                    return false;
                }
            },
            None => {},
        }
        i = i + 1;
    }
    true
}

fn power_of_two(a: u64) -> (r: bool)
    ensures
        r == is_pow2(a as int),
    decreases a,
{
    if a == 0 {
        false
    } else if a == 1 {
        true
    } else {
        a % 2 == 0 && power_of_two(a / 2)
    }
}

fn aligned_sizes(v: &Vec<Option<(u64, u64)>>) -> (r: bool)
    ensures
        r == (forall|i: int|
            0 <= i < v@.len() ==> ((#[trigger] v@[i]) matches Some((_, a)) ==> a <= 1 || is_pow2(
                a as int,
            ))),
{
    let mut i: usize = 0;
    while i < v.len()
        invariant
            i <= v@.len(),
            forall|k: int|
                0 <= k < i ==> ((#[trigger] v@[k]) matches Some((_, a)) ==> a <= 1 || is_pow2(
                    a as int,
                )),
        decreases v@.len() - i,
    {
        match v[i] {
            Some((_, a)) => {
                if a > 1 && !power_of_two(a) {
                    assert(v@[i as int] is Some);
                    return false;
                }
            },
            None => {},
        }
        i = i + 1;
    }
    true
}

fn returns_through_pointer(prog: &MirProgram, func: &MirFunction) -> (r: bool)
    requires
        arena_ok(prog.arena),
        prog.arena.has(func.ret),
    ensures
        r == returns_by_pointer(*prog, *func),
{
    if same_str(func.name.as_str(), "main") {
        return false;
    }
    is_memory_aggregate(&prog.arena, func.ret) && match layout_of(&prog.arena, func.ret) {
        Some(l) => l.size > 16,
        None => false,
    }
}

fn function_valid(prog: &MirProgram, i: usize, sup: &Support) -> (r: bool)
    requires
        i < prog.funcs@.len(),
        i < sup.allocs@.len(),
    ensures
        r == function_ok(*prog, prog.funcs@[i as int], sup.abi, sup.allocs@[i as int]),
{
    let func = &prog.funcs[i];
    let alloc = &sup.allocs[i];
    if !parts_valid(prog, func) || !blocks_valid(prog, func) {
        return false;
    }
    let n: usize = func.locals.len();
    let ghost f = frame_input(*prog, *func, *alloc);
    let ghost env = env_of(*prog, *func, sup.abi, *alloc);
    if alloc.needs_home.len() != n || alloc.home_ty.len() != n || alloc.home_size.len() != n {
        return false;
    }
    if !types_known(&prog.arena, &alloc.home_ty) || !aligned_sizes(&alloc.home_size) {
        proof {
            if f.wf() {
                assert forall|k: int| 0 <= k < alloc.home_ty@.len() implies ((
                #[trigger] alloc.home_ty@[k]) matches Some(t) ==> prog.arena.has(t)) by {
                    assert(f.home_ty[k] == alloc.home_ty@[k]);
                }
                assert forall|k: int| 0 <= k < alloc.home_size@.len() implies ((
                #[trigger] alloc.home_size@[k]) matches Some((_, a)) ==> a <= 1 || is_pow2(
                    a as int,
                )) by {
                    assert(f.home_size[k] == alloc.home_size@[k]);
                }
            }
        }
        return false;
    }
    assert(f.wf());
    let prints: bool = func_prints(func);
    let by_pointer: bool = returns_through_pointer(prog, func);
    let outgoing: i32 = outgoing_args_bytes(prog, func);
    if !frame_fits(
        func,
        &prog.arena,
        alloc.needs_home.as_slice(),
        alloc.home_ty.as_slice(),
        alloc.home_size.as_slice(),
        alloc.callee_saved.as_slice(),
        prints,
        by_pointer,
        outgoing,
    ) {
        return false;
    }
    if alloc.loc.len() != n || alloc.eu_result.len() != n || alloc.array_len.len() != n
        || alloc.agg_fields.len() != n {
        return false;
    }
    if !types_known(&prog.arena, &alloc.eu_result) {
        proof {
            if env.alloc_ok() {
                assert forall|k: int| 0 <= k < alloc.eu_result@.len() implies ((
                #[trigger] alloc.eu_result@[k]) matches Some(t) ==> prog.arena.has(t)) by {
                    assert(env.alloc.eu_result@[k] == alloc.eu_result@[k]);
                }
            }
        }
        return false;
    }
    if !fields_known(&prog.arena, &alloc.agg_fields) {
        proof {
            if env.alloc_ok() {
                assert forall|j: int| 0 <= j < alloc.agg_fields@.len() implies ((
                #[trigger] alloc.agg_fields@[j]) matches Some(g) ==> forall|k: int|
                    0 <= k < g@.len() ==> prog.arena.has((#[trigger] g@[k]).0)) by {
                    assert(env.alloc.agg_fields@[j] == alloc.agg_fields@[j]);
                }
            }
        }
        return false;
    }
    proof {
        assert(env.plan.local_home.len() == n);
        assert(env.alloc_ok());
    }
    true
}

fn fixup_fits(len: usize, f: &Fixup) -> (r: bool)
    ensures
        r == (f.at + hole_width(f.kind) <= len),
{
    let width: usize = match f.kind {
        FixupKind::Data(_) => 8,
        FixupKind::State(_) => 8,
        _ => 4,
    };
    width <= len && f.at <= len - width
}

fn routine_valid(routine: &Routine) -> (r: bool)
    ensures
        r == within(routine@.code, routine@.fixups),
{
    let mut i: usize = 0;
    while i < routine.fixups.len()
        invariant
            i <= routine.fixups@.len(),
            forall|k: int|
                0 <= k < i ==> (#[trigger] routine.fixups@[k]).at + hole_width(
                    routine.fixups@[k].kind,
                ) <= routine.code@.len(),
        decreases routine.fixups@.len() - i,
    {
        if !fixup_fits(routine.code.len(), &routine.fixups[i]) {
            assert(routine@.fixups[i as int] == routine.fixups@[i as int]);
            return false;
        }
        i = i + 1;
    }
    true
}

fn routines_valid(routines: &Vec<Routine>) -> (r: bool)
    ensures
        r == routines_within(routine_views(routines@)),
{
    let ghost views = routine_views(routines@);
    let mut i: usize = 0;
    while i < routines.len()
        invariant
            views == routine_views(routines@),
            i <= routines@.len(),
            forall|k: int|
                0 <= k < i ==> within((#[trigger] views[k]).code, views[k].fixups),
        decreases routines@.len() - i,
    {
        assert(views[i as int] == routines@[i as int]@);
        if !routine_valid(&routines[i]) {
            assert(!within(views[i as int].code, views[i as int].fixups));
            return false;
        }
        i = i + 1;
    }
    true
}

// ---------------------------------------------------------------------------
//  Programs
// ---------------------------------------------------------------------------

fn x86_valid(prog: &MirProgram, sup: &Support) -> (r: bool)
    ensures
        r == program_ok(*prog, *sup),
{
    let n: usize = prog.funcs.len();
    if n > 0x7FFE_0000 || sup.allocs.len() != n || !routines_valid(&sup.runtime.routines) {
        return false;
    }
    let mut i: usize = 0;
    while i < n
        invariant
            n == prog.funcs@.len(),
            n == sup.allocs@.len(),
            i <= n,
            forall|k: int|
                0 <= k < i ==> (#[trigger] prog.funcs@[k]).id.0 < n && function_ok(
                    *prog,
                    prog.funcs@[k],
                    sup.abi,
                    sup.allocs@[k],
                ),
        decreases n - i,
    {
        if prog.funcs[i].id.0 as usize >= n || !function_valid(prog, i, sup) {
            assert(!(prog.funcs@[i as int].id.0 < n) || !function_ok(
                *prog,
                prog.funcs@[i as int],
                sup.abi,
                sup.allocs@[i as int],
            ));
            return false;
        }
        i = i + 1;
    }
    true
}

fn a64_function_valid(prog: &MirProgram, func: &MirFunction) -> (r: bool)
    ensures
        r == a64_func::a64_function_ok(*prog, *func),
{
    if !parts_valid(prog, func) || !blocks_valid(prog, func) {
        return false;
    }
    a64_func::a64_frame_fits(prog, func)
}

fn a64_valid(prog: &MirProgram) -> (r: bool)
    ensures
        r == a64_program_ok(*prog),
{
    let mut i: usize = 0;
    while i < prog.funcs.len()
        invariant
            i <= prog.funcs@.len(),
            forall|k: int|
                0 <= k < i ==> a64_func::a64_function_ok(*prog, #[trigger] prog.funcs@[k]),
        decreases prog.funcs@.len() - i,
    {
        if !a64_function_valid(prog, &prog.funcs[i]) {
            assert(!a64_func::a64_function_ok(*prog, prog.funcs@[i as int]));
            return false;
        }
        i = i + 1;
    }
    true
}

fn stmts_in(blocks: &Vec<Block>) -> (r: Option<u64>)
    ensures
        match r {
            Some(n) => n == stmt_count(blocks@) && n <= 0x8000_0000,
            None => stmt_count(blocks@) > 0x8000_0000,
        },
{
    let mut n: u64 = 0;
    let mut i: usize = 0;
    assert(blocks@.take(0) =~= Seq::empty());
    while i < blocks.len()
        invariant
            i <= blocks@.len(),
            n == stmt_count(blocks@.take(i as int)),
            n <= 0x8000_0000,
        decreases blocks@.len() - i,
    {
        let more: usize = blocks[i].stmts.len();
        proof {
            assert(blocks@.take(i + 1).drop_last() =~= blocks@.take(i as int));
            assert(blocks@.take(i + 1).last() == blocks@[i as int]);
            stmts_grow(blocks@, i + 1);
        }
        if more as u64 > 0x8000_0000 - n {
            return None;
        }
        n = n + more as u64;
        i = i + 1;
    }
    assert(blocks@.take(i as int) =~= blocks@);
    Some(n)
}

/// Whether a program is one that debug information can be made for.
pub fn lines_fit(prog: &MirProgram) -> (r: bool)
    ensures
        r == lines_ok(*prog),
{
    let ghost f = prog.funcs@;
    let mut n: u64 = 0;
    let mut i: usize = 0;
    assert(f.take(0) =~= Seq::empty());
    while i < prog.funcs.len()
        invariant
            f == prog.funcs@,
            i <= f.len(),
            n == total_stmts(f.take(i as int)),
            n <= 0x8000_0000,
        decreases f.len() - i,
    {
        proof {
            assert(f.take(i + 1).drop_last() =~= f.take(i as int));
            assert(f.take(i + 1).last() == f[i as int]);
            total_grows(f, i + 1);
        }
        match stmts_in(&prog.funcs[i].blocks) {
            Some(more) => {
                if more > 0x8000_0000 - n {
                    return false;
                }
                n = n + more;
            },
            None => {
                return false;
            },
        }
        i = i + 1;
    }
    assert(f.take(i as int) =~= f);
    true
}

/// Whether a program can be compiled to a target.
pub fn is_compilable(prog: &MirProgram, target: Target, sup: &Support) -> (r: bool)
    ensures
        r == compilable(*prog, target, *sup),
{
    match target {
        Target::X86_64Linux => x86_valid(prog, sup),
        Target::Aarch64Linux => a64_valid(prog),
    }
}

} // verus!
