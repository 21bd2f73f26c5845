//! The context in which a function is lowered, and what can be asked of it.
use vstd::prelude::*;

use crate::aarch64::encode::{A64State, Aarch64Asm};
use crate::frame::{FramePlan, PlanView, in_memory, is_memory_aggregate};
use crate::intern::Pool;
use crate::layout::{
    Layout, alignment_facts, field_offsets, fields_of, int_byte_size, int_bytes, is_pow2, layout,
    layout_of, layout_or_word, max, offsets_of,
};
use crate::lower::env::{EntryKind, Repr, Scope};
use crate::lower::scalar::{wrap_bits, wrapped_bits};
use crate::mir::{
    Block, Const, ConstData, ConstId, IntrinsicPath, LocalId, MirFunction, MirProgram, Operand,
    Place, Proj, Rvalue, Statement, Terminator,
};
use crate::text::{decimal, push_decimal};
use crate::types::{FieldInfo, IntBits, T_BOOL, Type, TypeId};
use crate::{CodegenError, RoData};

verus! {

/// The register that results are computed in.
pub const RES: u8 = 9;

/// A scratch register.
pub const S2: u8 = 10;

/// A scratch register.
pub const S3: u8 = 11;

/// A scratch register.
pub const S4: u8 = 12;

/// A scratch register.
pub const S5: u8 = 13;

/// The register that addresses and the print cursor are computed in.
pub const ADDR: u8 = 16;

/// How many integer arguments come in registers.
pub const ARG_REGS: usize = 8;

/// The displacement that makes room for the frame pointer and link register.
pub const PAIR_BELOW: i32 = -16;

/// What a function is lowered from; every local has a home.
pub struct A64Func {
    pub prog: MirProgram,
    pub func: MirFunction,
    pub plan: PlanView,
    pub kind: EntryKind,
}

/// What has been emitted, or the first construct that is not supported.
pub struct A64Low {
    pub text: A64State,
    pub ro: Pool,
    pub err: Option<Seq<char>>,
}

impl A64Low {
    /// The same with other code.
    pub open spec fn on(self, text: A64State) -> A64Low {
        A64Low { text, ..self }
    }

    /// The same with one more byte string in the read-only data.
    pub open spec fn with_data(self, b: Seq<u8>) -> A64Low {
        A64Low { ro: self.ro.add(b), ..self }
    }

    /// The same, stopped.
    pub open spec fn fail(self, msg: Seq<char>) -> A64Low {
        A64Low { err: Some(msg), ..self }
    }
}

/// The code and data under construction.
pub struct A64Out {
    pub text: Aarch64Asm,
    pub ro: RoData,
}

impl View for A64Out {
    type V = A64Low;

    open spec fn view(&self) -> A64Low {
        A64Low { text: self.text@, ro: self.ro@, err: None }
    }
}

impl A64Out {
    /// The code is well formed and its labels are in the table.
    pub open spec fn ok(&self) -> bool {
        &&& self.text.wf()
        &&& self.text@.tidy()
        &&& self.ro@.wf()
    }
}

/// Whether `r` and the code after it are what `want` says.
pub open spec fn a64_lowered(r: Result<(), CodegenError>, after: A64Low, want: A64Low) -> bool {
    match r {
        Ok(_) => after == want,
        Err(e) => {
            &&& want.err is Some
            &&& e.unsupported(want.err.unwrap())
            &&& after.ro == want.ro
            &&& after.ro.wf()
        },
    }
}

/// What is said of everything that is not supported.
pub open spec fn subset_note() -> Seq<char> {
    "` (aarch64 backend covers the hello-class subset; cross-compile hello-class programs or use the x86-64 backend / VM)"@
}

/// Lowers one function: its context.
pub struct Aarch64FnLower<'p> {
    pub prog: &'p MirProgram,
    pub func: &'p MirFunction,
    pub plan: FramePlan,
    pub kind: EntryKind,
}

impl A64Func {
    /// The function within its program.
    pub open spec fn scope(self) -> Scope {
        Scope { prog: self.prog, func: self.func }
    }

    /// See [`Scope::const_ok`].
    pub open spec fn const_ok(self, c: Const) -> bool {
        self.scope().const_ok(c)
    }

    /// See [`Scope::operand_ok`].
    pub open spec fn operand_ok(self, op: Operand) -> bool {
        self.scope().operand_ok(op)
    }

    /// See [`Scope::place_ok`].
    pub open spec fn place_ok(self, p: Place) -> bool {
        self.scope().place_ok(p)
    }

    /// See [`Scope::projs_ok`].
    pub open spec fn projs_ok(self, p: Place, n: int) -> bool {
        self.scope().projs_ok(p, n)
    }

    /// See [`Scope::operands_ok`].
    pub open spec fn operands_ok(self, args: Seq<Operand>) -> bool {
        self.scope().operands_ok(args)
    }

    /// See [`Scope::rvalue_ok`].
    pub open spec fn rvalue_ok(self, rv: Rvalue) -> bool {
        self.scope().rvalue_ok(rv)
    }

    /// See [`Scope::path_ok`].
    pub open spec fn path_ok(self, path: IntrinsicPath) -> bool {
        self.scope().path_ok(path)
    }

    /// See [`Scope::stmt_ok`].
    pub open spec fn stmt_ok(self, st: Statement) -> bool {
        self.scope().stmt_ok(st)
    }

    /// See [`Scope::term_ok`].
    pub open spec fn term_ok(self, t: Terminator) -> bool {
        self.scope().term_ok(t)
    }

    /// See [`Scope::block_ok`].
    pub open spec fn block_ok(self, b: Block) -> bool {
        self.scope().block_ok(b)
    }

    /// Whether everything that lowering looks up is there.
    pub open spec fn ok(self) -> bool {
        &&& self.scope().parts_ok()
        &&& self.scope().blocks_ok()
        &&& self.plan.local_home.len() == self.func.locals@.len()
    }

    /// The message for something that is not supported.
    pub open spec fn unsup(self, what: Seq<char>) -> Seq<char> {
        what + " in `"@ + self.func.name@ + subset_note()
    }

    /// The message for something that is not supported, in three parts.
    pub open spec fn unsup3(self, a: Seq<char>, b: Seq<char>, c: Seq<char>) -> Seq<char> {
        self.unsup(a + b + c)
    }

    /// The type that an id names.
    pub open spec fn ty(self, ty: TypeId) -> Type {
        self.prog.arena.at(ty)
    }

    /// The declared type of a local.
    pub open spec fn local_ty(self, l: LocalId) -> TypeId {
        self.func.locals@[l.0 as int].ty
    }

    /// The type of what the first `n` steps of a place reach.
    pub open spec fn type_at(self, place: Place, n: usize) -> TypeId
        decreases n,
    {
        if n == 0 {
            self.local_ty(place.base)
        } else {
            match place.proj@[n - 1] {
                Proj::Field { ty, .. } => ty,
                Proj::Index { ty, .. } => ty,
                Proj::SliceMeta { ty, .. } => ty,
                Proj::Payload { ty } => ty,
                Proj::Deref => self.pointee_ty(self.type_at(place, (n - 1) as usize)),
            }
        }
    }

    /// The type by which the `i`-th step of a place is taken; a leading dereference
    /// leaves that of the local.
    pub open spec fn walked(self, place: Place, i: usize) -> TypeId
        decreases i,
    {
        if i == 0 {
            self.local_ty(place.base)
        } else {
            match place.proj@[i - 1] {
                Proj::Field { ty, .. } => ty,
                Proj::Index { ty, .. } => ty,
                Proj::SliceMeta { ty, .. } => ty,
                Proj::Payload { ty } => ty,
                Proj::Deref => if i == 1 {
                    self.local_ty(place.base)
                } else {
                    self.pointee_ty(self.walked(place, (i - 1) as usize))
                },
            }
        }
    }

    /// The layout of a type, a word standing in where it has none.
    pub open spec fn layout(self, ty: TypeId) -> Layout {
        layout_or_word(self.prog.arena, ty)
    }

    /// The home of a local.
    pub open spec fn home(self, l: LocalId) -> i32 {
        match self.plan.local_home[l.0 as int] {
            Some(h) => h,
            None => 0,
        }
    }

    /// The offset of a struct field; 0 where there is no such field.
    pub open spec fn field_offset(self, ty: TypeId, index: usize) -> u64 {
        let offs = offsets_of(self.prog.arena, fields_of(self.prog.arena, ty));
        if (index as int) < offs.len() {
            offs[index as int]
        } else {
            0
        }
    }

    /// The bytes of a constant.
    pub open spec fn const_bytes(self, id: ConstId) -> Seq<u8> {
        match self.prog.consts@[id.0 as int] {
            ConstData::Bytes(b) => b@,
            ConstData::Aggregate(_) => Seq::empty(),
        }
    }

    /// Whether a constant has bytes.
    pub open spec fn has_bytes(self, id: ConstId) -> bool {
        self.prog.consts@[id.0 as int] is Bytes
    }

    /// The fields of a constant.
    pub open spec fn const_fields(self, id: ConstId) -> Seq<Operand> {
        match self.prog.consts@[id.0 as int] {
            ConstData::Bytes(_) => Seq::empty(),
            ConstData::Aggregate(f) => f@,
        }
    }

    /// The name of an error, from the `i`-th on.
    pub open spec fn error_name_from(self, tag: u16, i: int) -> Seq<char>
        decreases self.prog.err_names@.len() - i,
    {
        if i < 0 || i >= self.prog.err_names@.len() {
            "error"@ + decimal(tag as nat)
        } else if self.prog.err_names@[i].0.0 == tag {
            self.prog.err_names@[i].1@
        } else {
            self.error_name_from(tag, i + 1)
        }
    }

    /// The name of an error; one without a name goes by its tag.
    pub open spec fn error_name(self, tag: u16) -> Seq<char> {
        self.error_name_from(tag, 0)
    }

    /// The field of a struct type, where there is one.
    pub open spec fn struct_field(self, ty: TypeId, i: usize) -> Option<FieldInfo> {
        let f = fields_of(self.prog.arena, ty);
        if (i as int) < f.len() {
            Some(f[i as int])
        } else {
            None
        }
    }
}

/// The steps of a place in order are in order one by one.
pub(crate) proof fn step_ok_at(env: A64Func, p: Place, n: int, i: int)
    requires
        env.projs_ok(p, n),
        0 <= i < n <= p.proj@.len(),
    ensures
        match p.proj@[i] {
            Proj::Field { ty, .. } => env.prog.arena.has(ty),
            Proj::Index { at, ty } => env.prog.arena.has(ty) && env.operand_ok(at),
            Proj::Deref => true,
            Proj::SliceMeta { ty, .. } => env.prog.arena.has(ty),
            Proj::Payload { ty } => env.prog.arena.has(ty),
        },
    decreases n,
{
    if i < n - 1 {
        step_ok_at(env, p, n - 1, i);
    }
}

impl Aarch64FnLower<'_> {
    /// The context as a value.
    pub open spec fn env(&self) -> A64Func {
        A64Func { prog: *self.prog, func: *self.func, plan: self.plan@, kind: self.kind }
    }

    /// See [`A64Func::ok`].
    pub open spec fn ok(&self) -> bool {
        self.env().ok()
    }

    pub(crate) fn unsup(&self, what: &str) -> (r: CodegenError)
        ensures
            r.unsupported(self.env().unsup(what@)),
    {
        let mut msg = String::from_str(what);
        msg.append(" in `");
        msg.append(self.func.name.as_str());
        msg.append(
            "` (aarch64 backend covers the hello-class subset; cross-compile hello-class programs or use the x86-64 backend / VM)",
        );
        CodegenError::Unsupported(msg)
    }

    pub(crate) fn unsup3(&self, a: &str, b: &str, c: &str) -> (r: CodegenError)
        ensures
            r.unsupported(self.env().unsup3(a@, b@, c@)),
    {
        let mut msg = String::from_str(a);
        msg.append(b);
        msg.append(c);
        self.unsup(msg.as_str())
    }

    pub(crate) fn ty(&self, ty: TypeId) -> (r: Type)
        requires
            self.ok(),
            self.env().prog.arena.has(ty),
        ensures
            r == self.env().ty(ty),
            self.env().prog.arena.type_ok(r),
    {
        assert(self.prog.arena.type_ok(self.prog.arena.types@[ty.0 as int]));
        *self.prog.arena.get(ty)
    }

    pub(crate) fn local_ty(&self, l: LocalId) -> (r: TypeId)
        requires
            self.ok(),
            l.0 < self.env().func.locals@.len(),
        ensures
            r == self.env().local_ty(l),
            self.env().prog.arena.has(r),
    {
        assert(self.env().prog.arena.has(self.func.locals@[l.0 as int].ty));
        self.func.locals[l.0 as usize].ty
    }

    pub(crate) fn type_at(&self, place: &Place, n: usize) -> (r: TypeId)
        requires
            self.ok(),
            self.env().place_ok(*place),
            n <= place.proj@.len(),
        ensures
            r == self.env().type_at(*place, n),
            self.env().prog.arena.has(r),
        decreases n,
    {
        if n == 0 {
            return self.local_ty(place.base);
        }
        proof {
            step_ok_at(self.env(), *place, place.proj@.len() as int, n - 1);
        }
        match &place.proj[n - 1] {
            Proj::Field { ty, .. } => *ty,
            Proj::Index { ty, .. } => *ty,
            Proj::SliceMeta { ty, .. } => *ty,
            Proj::Payload { ty } => *ty,
            Proj::Deref => self.pointee_ty(self.type_at(place, n - 1)),
        }
    }

    pub(crate) fn walked(&self, place: &Place, i: usize) -> (r: TypeId)
        requires
            self.ok(),
            self.env().place_ok(*place),
            i <= place.proj@.len(),
        ensures
            r == self.env().walked(*place, i),
            self.env().prog.arena.has(r),
        decreases i,
    {
        if i == 0 {
            return self.local_ty(place.base);
        }
        proof {
            step_ok_at(self.env(), *place, place.proj@.len() as int, i - 1);
        }
        match &place.proj[i - 1] {
            Proj::Field { ty, .. } => *ty,
            Proj::Index { ty, .. } => *ty,
            Proj::SliceMeta { ty, .. } => *ty,
            Proj::Payload { ty } => *ty,
            Proj::Deref => if i == 1 {
                self.local_ty(place.base)
            } else {
                self.pointee_ty(self.walked(place, i - 1))
            },
        }
    }

    pub(crate) fn layout(&self, ty: TypeId) -> (r: Layout)
        requires
            self.ok(),
            self.env().prog.arena.has(ty),
        ensures
            r == self.env().layout(ty),
            r.align >= 1,
            r.align <= 0x2_0000,
            is_pow2(r.align as int),
    {
        proof {
            alignment_facts(self.prog.arena, ty, 0);
            reveal_with_fuel(is_pow2, 5);
        }
        match layout_of(&self.prog.arena, ty) {
            Some(l) => l,
            None => Layout::WORD(),
        }
    }

    pub(crate) fn home(&self, l: LocalId) -> (r: i32)
        requires
            self.ok(),
            l.0 < self.env().func.locals@.len(),
        ensures
            r == self.env().home(l),
    {
        match self.plan.local_home[l.0 as usize] {
            Some(h) => h,
            None => 0,
        }
    }

    pub(crate) fn field_offset(&self, ty: TypeId, index: usize) -> (r: u64)
        requires
            self.ok(),
            self.env().prog.arena.has(ty),
        ensures
            r == self.env().field_offset(ty, index),
    {
        let offs = field_offsets(&self.prog.arena, ty);
        if index < offs.len() {
            offs[index]
        } else {
            0
        }
    }

    pub(crate) fn const_bytes(&self, id: ConstId) -> (r: &Vec<u8>)
        requires
            id.0 < self.env().prog.consts@.len(),
            self.env().has_bytes(id),
        ensures
            r@ == self.env().const_bytes(id),
    {
        match &self.prog.consts[id.0 as usize] {
            ConstData::Bytes(b) => b,
            ConstData::Aggregate(_) => {
                assert(false);
                loop
                    invariant
                        false,
                    decreases 0int,
                {
                }
            },
        }
    }

    pub(crate) fn has_bytes(&self, id: ConstId) -> (r: bool)
        requires
            id.0 < self.env().prog.consts@.len(),
        ensures
            r == self.env().has_bytes(id),
    {
        match &self.prog.consts[id.0 as usize] {
            ConstData::Bytes(_) => true,
            ConstData::Aggregate(_) => false,
        }
    }

    pub(crate) fn error_name(&self, tag: u16) -> (r: String)
        ensures
            r@ == self.env().error_name(tag),
    {
        let mut i: usize = 0;
        while i < self.prog.err_names.len()
            invariant
                i <= self.prog.err_names@.len(),
                self.env().error_name(tag) == self.env().error_name_from(tag, i as int),
            decreases self.prog.err_names@.len() - i,
        {
            if self.prog.err_names[i].0.0 == tag {
                return String::from_str(self.prog.err_names[i].1.as_str());
            }
            i = i + 1;
        }
        let mut name = String::from_str("error");
        push_decimal(&mut name, tag as u32);
        name
    }

    pub(crate) fn struct_field(&self, ty: TypeId, i: usize) -> (r: Option<FieldInfo>)
        requires
            self.ok(),
            self.env().prog.arena.has(ty),
        ensures
            r == self.env().struct_field(ty, i),
            r matches Some(f) ==> self.env().prog.arena.has(f.ty),
    {
        match self.ty(ty) {
            Type::Struct(id) => {
                if i < self.prog.arena.structs[id.0 as usize].fields.len() {
                    assert(self.prog.arena.has(
                        self.prog.arena.structs@[id.0 as int].fields@[i as int].ty,
                    ));
                    Some(self.prog.arena.structs[id.0 as usize].fields[i])
                } else {
                    None
                }
            },
            _ => None,
        }
    }
}

impl A64Func {
    /// What a pointer type points to; any other type itself.
    pub open spec fn pointee_ty(self, ty: TypeId) -> TypeId {
        match self.ty(ty) {
            Type::Pointer { pointee } => pointee,
            _ => ty,
        }
    }

    /// The representation of a type; a type that is no integer has no width.
    pub open spec fn repr_of(self, ty: TypeId) -> Repr {
        match self.ty(ty) {
            Type::Int { signed, bits } => Repr {
                width: match bits {
                    IntBits::Fixed(n) => n,
                    IntBits::Usize => 64,
                    IntBits::Isize => 64,
                },
                signed,
            },
            _ => Repr { width: 0, signed: false },
        }
    }

    /// Whether a type is a float.
    pub open spec fn is_float(self, ty: TypeId) -> bool {
        match self.ty(ty) {
            Type::Float { .. } => true,
            Type::ComptimeFloat => true,
            _ => false,
        }
    }

    /// Whether a type is an integer of more than a word.
    pub open spec fn is_wide_int(self, ty: TypeId) -> bool {
        match self.ty(ty) {
            Type::Int { .. } => self.layout(ty).size > 8,
            _ => false,
        }
    }

    /// Whether a type lives in memory.
    pub open spec fn in_memory(self, ty: TypeId) -> bool {
        in_memory(self.prog.arena, ty)
    }

    /// Whether a type is a pointer.
    pub open spec fn is_pointer(self, ty: TypeId) -> bool {
        match self.ty(ty) {
            Type::Pointer { .. } => true,
            _ => false,
        }
    }

    /// Whether a type is a slice.
    pub open spec fn is_slice(self, ty: TypeId) -> bool {
        match self.ty(ty) {
            Type::Slice { .. } => true,
            _ => false,
        }
    }

    /// Whether a type is an error union.
    pub open spec fn is_error_union(self, ty: TypeId) -> bool {
        match self.ty(ty) {
            Type::ErrorUnion { .. } => true,
            _ => false,
        }
    }

    /// How many bytes a scalar takes in memory.
    pub open spec fn scalar_store_size(self, ty: TypeId) -> u64 {
        match self.ty(ty) {
            Type::Bool => 1,
            Type::Int { bits, .. } => max(int_bytes(bits), 1) as u64,
            _ => 8,
        }
    }

    /// The type of the value at a place.
    pub open spec fn place_type(self, place: Place) -> TypeId {
        self.type_at(place, place.proj@.len() as usize)
    }

    /// The layout of a type, where it has one.
    pub open spec fn layout_opt(self, ty: TypeId) -> Option<Layout> {
        layout(self.prog.arena, ty)
    }

    /// The type of an operand, where it says one.
    pub open spec fn operand_type(self, op: Operand) -> Option<TypeId> {
        match op {
            Operand::Copy(p) => Some(self.place_type(p)),
            Operand::Const(c) => match c {
                Const::Int { ty, .. } => Some(ty),
                Const::Float { ty, .. } => Some(ty),
                Const::Undef { ty } => Some(ty),
                Const::Bool(_) => Some(TypeId(T_BOOL)),
                _ => None,
            },
        }
    }

    /// Whether an operand is an error union.
    pub open spec fn operand_is_error_union(self, op: Operand) -> bool {
        match self.operand_type(op) {
            Some(t) => self.is_error_union(t),
            None => false,
        }
    }

    /// The type of an operand, where it says one.
    pub open spec fn type_or(self, op: Operand, otherwise: TypeId) -> TypeId {
        match self.operand_type(op) {
            Some(t) => t,
            None => otherwise,
        }
    }

    /// The word that an integer constant of a type is.
    pub open spec fn const_int_bits(self, value: i128, ty: TypeId) -> i64 {
        if self.repr_of(ty).width == 0 || self.repr_of(ty).width >= 64 {
            value as i64
        } else {
            wrapped_bits(value, self.repr_of(ty).width, self.repr_of(ty).signed)
        }
    }
}

impl Aarch64FnLower<'_> {
    /// What a pointer type points to; any other type itself.
    pub(crate) fn pointee_ty(&self, ty: TypeId) -> (r: TypeId)
        requires
            self.ok(),
            self.env().prog.arena.has(ty),
        ensures
            r == self.env().pointee_ty(ty),
            self.env().prog.arena.has(r),
    {
        match self.ty(ty) {
            Type::Pointer { pointee } => pointee,
            _ => ty,
        }
    }

    /// The representation of a type; a type that is no integer has no width.
    pub(crate) fn repr_of(&self, ty: TypeId) -> (r: Repr)
        requires
            self.ok(),
            self.env().prog.arena.has(ty),
        ensures
            r == self.env().repr_of(ty),
    {
        match self.ty(ty) {
            Type::Int { signed, bits } => Repr {
                width: match bits {
                    IntBits::Fixed(n) => n,
                    IntBits::Usize => 64,
                    IntBits::Isize => 64,
                },
                signed,
            },
            _ => Repr { width: 0, signed: false },
        }
    }

    /// Whether a type is a float.
    pub(crate) fn is_float(&self, ty: TypeId) -> (r: bool)
        requires
            self.ok(),
            self.env().prog.arena.has(ty),
        ensures
            r == self.env().is_float(ty),
    {
        match self.ty(ty) {
            Type::Float { .. } => true,
            Type::ComptimeFloat => true,
            _ => false,
        }
    }

    /// Whether a type is an integer of more than a word.
    pub(crate) fn is_wide_int(&self, ty: TypeId) -> (r: bool)
        requires
            self.ok(),
            self.env().prog.arena.has(ty),
        ensures
            r == self.env().is_wide_int(ty),
    {
        match self.ty(ty) {
            Type::Int { .. } => self.layout(ty).size > 8,
            _ => false,
        }
    }

    /// Whether a type lives in memory.
    pub(crate) fn in_memory(&self, ty: TypeId) -> (r: bool)
        requires
            self.ok(),
            self.env().prog.arena.has(ty),
        ensures
            r == self.env().in_memory(ty),
    {
        is_memory_aggregate(&self.prog.arena, ty)
    }

    /// Whether a type is a pointer.
    pub(crate) fn is_pointer(&self, ty: TypeId) -> (r: bool)
        requires
            self.ok(),
            self.env().prog.arena.has(ty),
        ensures
            r == self.env().is_pointer(ty),
    {
        match self.ty(ty) {
            Type::Pointer { .. } => true,
            _ => false,
        }
    }

    /// Whether a type is a slice.
    pub(crate) fn is_slice(&self, ty: TypeId) -> (r: bool)
        requires
            self.ok(),
            self.env().prog.arena.has(ty),
        ensures
            r == self.env().is_slice(ty),
    {
        match self.ty(ty) {
            Type::Slice { .. } => true,
            _ => false,
        }
    }

    /// Whether a type is an error union.
    pub(crate) fn is_error_union(&self, ty: TypeId) -> (r: bool)
        requires
            self.ok(),
            self.env().prog.arena.has(ty),
        ensures
            r == self.env().is_error_union(ty),
    {
        match self.ty(ty) {
            Type::ErrorUnion { .. } => true,
            _ => false,
        }
    }

    /// How many bytes a scalar takes in memory.
    pub(crate) fn scalar_store_size(&self, ty: TypeId) -> (r: u64)
        requires
            self.ok(),
            self.env().prog.arena.has(ty),
        ensures
            r == self.env().scalar_store_size(ty),
    {
        match self.ty(ty) {
            Type::Bool => 1,
            Type::Int { bits, .. } => {
                let n: u64 = int_byte_size(bits);
                if n >= 1 {
                    n
                } else {
                    1
                }
            },
            _ => 8,
        }
    }

    /// The type of the value at a place.
    pub(crate) fn place_type(&self, place: &Place) -> (r: TypeId)
        requires
            self.ok(),
            self.env().place_ok(*place),
        ensures
            r == self.env().place_type(*place),
            self.env().prog.arena.has(r),
    {
        self.type_at(place, place.proj.len())
    }

    /// The layout of a type, where it has one.
    pub(crate) fn layout_opt(&self, ty: TypeId) -> (r: Option<Layout>)
        requires
            self.ok(),
            self.env().prog.arena.has(ty),
        ensures
            r == self.env().layout_opt(ty),
    {
        layout_of(&self.prog.arena, ty)
    }

    /// The type of an operand, where it says one.
    pub(crate) fn operand_type(&self, op: &Operand) -> (r: Option<TypeId>)
        requires
            self.ok(),
            self.env().operand_ok(*op),
        ensures
            r == self.env().operand_type(*op),
            r matches Some(t) ==> self.env().prog.arena.has(t),
    {
        match op {
            Operand::Copy(p) => Some(self.place_type(p)),
            Operand::Const(c) => match *c {
                Const::Int { ty, .. } => Some(ty),
                Const::Float { ty, .. } => Some(ty),
                Const::Undef { ty } => Some(ty),
                Const::Bool(_) => Some(TypeId(T_BOOL)),
                _ => None,
            },
        }
    }

    /// Whether an operand is an error union.
    pub(crate) fn operand_is_error_union(&self, op: &Operand) -> (r: bool)
        requires
            self.ok(),
            self.env().operand_ok(*op),
        ensures
            r == self.env().operand_is_error_union(*op),
    {
        match self.operand_type(op) {
            Some(t) => self.is_error_union(t),
            None => false,
        }
    }

    /// The type of an operand, where it says one.
    pub(crate) fn type_or(&self, op: &Operand, otherwise: TypeId) -> (r: TypeId)
        requires
            self.ok(),
            self.env().operand_ok(*op),
            self.env().prog.arena.has(otherwise),
        ensures
            r == self.env().type_or(*op, otherwise),
            self.env().prog.arena.has(r),
    {
        match self.operand_type(op) {
            Some(t) => t,
            None => otherwise,
        }
    }

    /// The word that an integer constant of a type is.
    pub(crate) fn const_int_bits(&self, value: i128, ty: TypeId) -> (r: i64)
        requires
            self.ok(),
            self.env().prog.arena.has(ty),
        ensures
            r == self.env().const_int_bits(value, ty),
    {
        if self.repr_of(ty).width == 0 || self.repr_of(ty).width >= 64 {
            value as i64
        } else {
            wrap_bits(value, self.repr_of(ty).width, self.repr_of(ty).signed)
        }
    }
}

} // verus!
