//! Aggregates: structs, arrays, slices, optionals and error unions.
use vstd::prelude::*;

use crate::show::{const_text, shown_const};
use crate::aarch64::encode::{FP, MemSize, Reg};
use crate::aarch64::lower::env::{
    A64Func, A64Low, A64Out, ADDR, Aarch64FnLower, RES, S2, S3, S4, a64_lowered,
};
use crate::lower::env::{grew, grew_refl, grew_trans};
use crate::aarch64::lower::value::{plus64, sum64};
use crate::layout::{
    Layout, elem_size, error_payload, error_union_payload_off, field_offsets, fields_of, offsets_of,
    stride,
};
use crate::lower::agg::{
    end_after, field_start, index_bytes, is_str_const, next_end, scaled_index, start_behind,
    str_const,
};
use crate::lower::scalar::{log2_exact, log2_of, plus, sum32};
use crate::lower::values::{rvalue_kind, rvalue_kind_text};
use crate::mir::{AggKind, Const, ConstData, ConstId, LocalId, Operand, Rvalue};
use crate::types::{T_STR, T_U8, Type, TypeId};
use crate::CodegenError;

verus! {

impl A64Func {
    /// Copies bytes from `off` on, word by word, then byte by byte.
    pub open spec fn copy_from(self, s: A64Low, dst: Reg, src: Reg, off: i64, rem: i64) -> A64Low
        decreases rem,
    {
        if rem >= 8 {
            let s = s.on(s.text.load(Reg(S4), src, off, MemSize::X));
            let s = s.on(s.text.store(Reg(S4), dst, off, MemSize::X));
            self.copy_from(s, dst, src, sum64(off, 8), (rem - 8) as i64)
        } else if rem > 0 {
            let s = s.on(s.text.load(Reg(S4), src, off, MemSize::B));
            let s = s.on(s.text.store(Reg(S4), dst, off, MemSize::B));
            self.copy_from(s, dst, src, sum64(off, 1), (rem - 1) as i64)
        } else {
            s
        }
    }

    /// Copies `size` bytes from `[src]` to `[dst]`.
    #[verifier::opaque]
    pub open spec fn memcpy(self, s: A64Low, dst: Reg, src: Reg, size: u64) -> A64Low {
        self.copy_from(s, dst, src, 0, size as i64)
    }

    /// The element type of an array without a layout.
    pub open spec fn loose_elem(self, kind: AggKind, ty: TypeId) -> Option<TypeId> {
        match kind {
            AggKind::Array => match self.ty(ty) {
                Type::Array { elem, .. } => Some(elem),
                _ => None,
            },
            _ => None,
        }
    }

    /// The type of an operand that is packed with others, where no element type is
    /// known.
    pub open spec fn packed_type(self, f: Operand) -> TypeId {
        if is_str_const(f) {
            TypeId(T_STR)
        } else {
            self.type_or(f, TypeId(T_U8))
        }
    }

    /// The type of a field of an aggregate whose own type has no layout.
    pub open spec fn loose_field_type(self, kind: AggKind, f: Operand, ty: TypeId) -> TypeId {
        match self.loose_elem(kind, ty) {
            Some(e) => if is_str_const(f) {
                TypeId(T_STR)
            } else {
                e
            },
            None => self.packed_type(f),
        }
    }

    /// The offset of a field of an aggregate of `n` fields.
    pub open spec fn agg_offset(self, kind: AggKind, n: usize, ty: TypeId, i: usize) -> u64 {
        match kind {
            AggKind::Struct => self.field_offset(ty, i),
            AggKind::Array => index_bytes(i, stride(self.prog.arena, ty)),
            AggKind::Tuple => if offsets_of(
                self.prog.arena,
                fields_of(self.prog.arena, ty),
            ).len() == n {
                self.field_offset(ty, i)
            } else {
                index_bytes(i, 8)
            },
        }
    }

    /// The type of a field of an aggregate.
    pub open spec fn agg_field_type(self, kind: AggKind, i: usize, ty: TypeId) -> TypeId {
        match kind {
            AggKind::Array => match self.ty(ty) {
                Type::Array { elem, .. } => elem,
                _ => ty,
            },
            _ => match self.struct_field(ty, i) {
                Some(f) => f.ty,
                None => ty,
            },
        }
    }

    /// The end of a loosely packed field behind `end`.
    pub open spec fn loose_end(self, kind: AggKind, f: Operand, ty: TypeId, end: u64) -> u64 {
        end_after(end, self.layout(self.loose_field_type(kind, f, ty)))
    }
}

impl Aarch64FnLower<'_> {
    /// Copies `size` bytes from `[src]` to `[dst]`.
    pub(crate) fn memcpy(&self, out: &mut A64Out, dst: Reg, src: Reg, size: u64)
        requires
            old(out).ok(),
        ensures
            final(out)@ == self.env().memcpy(old(out)@, dst, src, size),
            final(out).ok(),
            grew(old(out)@.text.labels, final(out)@.text.labels),
    {
        let ghost want = self.env().memcpy(out@, dst, src, size);
        proof {
            reveal(A64Func::memcpy);
            grew_refl(out@.text.labels);
        }
        let mut off: i64 = 0;
        let mut rem: i64 = size as i64;
        while rem > 0
            invariant
                out.ok(),
                out@.text.labels == old(out)@.text.labels,
                want == self.env().copy_from(out@, dst, src, off, rem),
            decreases rem,
        {
            if rem >= 8 {
                out.text.load(Reg(S4), src, off, MemSize::X);
                out.text.store(Reg(S4), dst, off, MemSize::X);
                off = plus64(off, 8);
                rem = rem - 8;
            } else {
                out.text.load(Reg(S4), src, off, MemSize::B);
                out.text.store(Reg(S4), dst, off, MemSize::B);
                off = plus64(off, 1);
                rem = rem - 1;
            }
        }
    }

    pub(crate) fn packed_type(&self, f: &Operand) -> (r: TypeId)
        requires
            self.ok(),
            self.env().operand_ok(*f),
        ensures
            r == self.env().packed_type(*f),
            self.env().prog.arena.has(r),
    {
        if str_const(f) {
            TypeId(T_STR)
        } else {
            self.type_or(f, TypeId(T_U8))
        }
    }

    fn loose_field_type(&self, kind: AggKind, f: &Operand, ty: TypeId) -> (r: TypeId)
        requires
            self.ok(),
            self.env().operand_ok(*f),
            self.env().prog.arena.has(ty),
        ensures
            r == self.env().loose_field_type(kind, *f, ty),
            self.env().prog.arena.has(r),
    {
        let elem: Option<TypeId> = match kind {
            AggKind::Array => match self.ty(ty) {
                Type::Array { elem, .. } => Some(elem),
                _ => None,
            },
            _ => None,
        };
        match elem {
            Some(e) => if str_const(f) {
                TypeId(T_STR)
            } else {
                e
            },
            None => self.packed_type(f),
        }
    }

    fn loose_end(&self, kind: AggKind, f: &Operand, ty: TypeId, end: u64) -> (r: u64)
        requires
            self.ok(),
            self.env().operand_ok(*f),
            self.env().prog.arena.has(ty),
        ensures
            r == self.env().loose_end(kind, *f, ty, end),
    {
        let l: Layout = self.layout(self.loose_field_type(kind, f, ty));
        next_end(end, l)
    }

    fn agg_offset(&self, kind: AggKind, n: usize, ty: TypeId, i: usize) -> (r: u64)
        requires
            self.ok(),
            self.env().prog.arena.has(ty),
        ensures
            r == self.env().agg_offset(kind, n, ty, i),
    {
        let offs = field_offsets(&self.prog.arena, ty);
        match kind {
            AggKind::Struct => self.field_offset(ty, i),
            AggKind::Array => scaled_index(i, elem_size(&self.prog.arena, ty)),
            AggKind::Tuple => if offs.len() == n {
                self.field_offset(ty, i)
            } else {
                scaled_index(i, 8)
            },
        }
    }

    fn agg_field_type(&self, kind: AggKind, i: usize, ty: TypeId) -> (r: TypeId)
        requires
            self.ok(),
            self.env().prog.arena.has(ty),
        ensures
            r == self.env().agg_field_type(kind, i, ty),
            self.env().prog.arena.has(r),
    {
        match kind {
            AggKind::Array => match self.ty(ty) {
                Type::Array { elem, .. } => elem,
                _ => ty,
            },
            _ => match self.struct_field(ty, i) {
                Some(f) => f.ty,
                None => ty,
            },
        }
    }

    /// Builds an aggregate from the fields of a constant.
    fn build_const(&self, out: &mut A64Out, home: i32, id: ConstId, ty: TypeId) -> (r: Result<
        (),
        CodegenError,
    >)
        requires
            self.ok(),
            old(out).ok(),
            id.0 < self.env().prog.consts@.len(),
            !self.env().has_bytes(id),
            self.env().prog.arena.has(ty),
        ensures
            a64_lowered(
                r,
                final(out)@,
                self.env().build_aggregate(
                    old(out)@,
                    home,
                    self.env().const_kind_of(ty),
                    self.env().const_fields(id),
                    ty,
                ),
            ),
            r is Ok ==> final(out).ok() && grew(old(out)@.text.labels, final(out)@.text.labels),
    {
        assert(self.env().prog.consts@[id.0 as int] == self.prog.consts@[id.0 as int]);
        match &self.prog.consts[id.0 as usize] {
            ConstData::Aggregate(f) => self.build_aggregate(
                out,
                home,
                self.const_kind_of(ty),
                f,
                ty,
            ),
            ConstData::Bytes(_) => {
                assert(false);
                Ok(())
            },
        }
    }
}

impl A64Func {
    /// The kind of aggregate that a constant of a type is.
    pub open spec fn const_kind_of(self, ty: TypeId) -> AggKind {
        match self.ty(ty) {
            Type::Array { .. } => AggKind::Array,
            _ => AggKind::Struct,
        }
    }

    /// Puts the address of a string into `dst`; a constant without bytes is empty.
    #[verifier::opaque]
    pub open spec fn string_to(self, s: A64Low, id: ConstId, dst: Reg) -> A64Low {
        let s = if self.has_bytes(id) {
            let off = s.ro.offset_of(self.const_bytes(id));
            let s = s.with_data(self.const_bytes(id));
            let s = s.on(s.text.mov_imm_data(dst, off));
            s
        } else {
            let off = s.ro.offset_of(Seq::<u8>::empty());
            let s = s.with_data(Seq::<u8>::empty());
            let s = s.on(s.text.mov_imm_data(dst, off));
            s
        };
        s
    }

    /// The length of a string.
    pub open spec fn string_len(self, id: ConstId) -> i64 {
        if self.has_bytes(id) {
            self.const_bytes(id).len() as i64
        } else {
            0
        }
    }

    /// Stores the address and length of a string.
    #[verifier::opaque]
    pub open spec fn string_words(self, s: A64Low, at: i32, id: ConstId) -> A64Low {
        let s = self.string_to(s, id, Reg(RES));
        let s = self.st(s, Reg(RES), Reg(FP), at, MemSize::X);
        let s = s.on(s.text.mov_imm(Reg(RES), self.string_len(id)));
        let s = self.st_hi(s, Reg(RES), Reg(FP), at);
        s
    }

    /// The string that an operand is.
    pub open spec fn string_of(self, op: Operand) -> Option<ConstId> {
        match op {
            Operand::Copy(_) => None,
            Operand::Const(c) => match c {
                Const::Str(id) => Some(id),
                _ => None,
            },
        }
    }

    /// Stores an operand as a field at a frame offset.
    #[verifier::opaque]
    pub open spec fn store_field_operand(
        self,
        s: A64Low,
        at: i32,
        op: Operand,
        fty: TypeId,
    ) -> A64Low {
        let s = match self.string_of(op) {
            Some(id) => {
                let s = self.string_words(s, at, id);
                s
            },
            None => {
                let s = if self.in_memory(fty) {
                    let s = match op {
                        Operand::Copy(p) => {
                            let s = self.place_addr(s, p, (p.proj@.len() as usize), Reg(RES));
                            if s.err is Some {
                                s
                            } else {
                                let s = s.on(s.text.add_imm_to(Reg(ADDR), Reg(FP), at));
                                let s = self.memcpy(s, Reg(ADDR), Reg(RES), self.layout(fty).size);
                                s
                            }
                        },
                        Operand::Const(_) => {
                            s.fail(self.unsup("a non-place aggregate field"@))
                        },
                    };
                    s
                } else if self.is_wide_int(fty) {
                    let s = self.eval_wide_operand(s, op, Reg(RES), Reg(S2));
                    if s.err is Some {
                        s
                    } else {
                        let s = self.store_pair(s, at, Reg(RES), Reg(S2));
                        s
                    }
                } else {
                    let s = self.operand_to(s, op, Reg(RES));
                    if s.err is Some {
                        s
                    } else {
                        let s = self.normalize(s, Reg(RES), fty);
                        let s = self.store_sized(s, Reg(FP), at, Reg(RES), fty);
                        s
                    }
                };
                s
            },
        };
        s
    }

    /// Stores a loosely packed field behind `end`.
    #[verifier::opaque]
    pub open spec fn loose_field(
        self,
        s: A64Low,
        home: i32,
        kind: AggKind,
        f: Operand,
        ty: TypeId,
        end: u64,
    ) -> A64Low {
        let fty = self.loose_field_type(kind, f, ty);
        let at = start_behind(end, self.layout(fty));
        let s = self.store_field_operand(s, sum32(home, at as i32), f, fty);
        s
    }

    /// Builds the fields of an aggregate whose type has no layout, one behind the other.
    pub open spec fn build_loose_fields(
        self,
        s: A64Low,
        home: i32,
        kind: AggKind,
        fields: Seq<Operand>,
        ty: TypeId,
    ) -> A64Low {
        self.build_loose_fields_from(s, home, kind, fields, ty, 0, 0)
    }

    /// The same from the `i`-th on.
    pub open spec fn build_loose_fields_from(
        self,
        s: A64Low,
        home: i32,
        kind: AggKind,
        fields: Seq<Operand>,
        ty: TypeId,
        i: int,
        end: u64,
    ) -> A64Low
        decreases fields.len() - i,
    {
        if i < 0 || i >= fields.len() {
            s
        } else {
            let k = i as usize;
            let s = self.loose_field(s, home, kind, fields[i], ty, end);
            if s.err is Some {
                s
            } else {
                self.build_loose_fields_from(
                    s,
                    home,
                    kind,
                    fields,
                    ty,
                    i + 1,
                    self.loose_end(kind, fields[i], ty, end),
                )
            }
        }
    }

    /// Stores a field where its type says.
    #[verifier::opaque]
    pub open spec fn placed_field(
        self,
        s: A64Low,
        home: i32,
        kind: AggKind,
        n: usize,
        f: Operand,
        ty: TypeId,
        i: usize,
    ) -> A64Low {
        let off = self.agg_offset(kind, n, ty, i);
        let s = self.store_field_operand(
            s,
            sum32(home, off as i32),
            f,
            self.agg_field_type(kind, i, ty),
        );
        s
    }

    /// Builds the fields of an aggregate at the offsets of its type.
    pub open spec fn build_fields(
        self,
        s: A64Low,
        home: i32,
        kind: AggKind,
        n: usize,
        fields: Seq<Operand>,
        ty: TypeId,
    ) -> A64Low {
        self.build_fields_from(s, home, kind, n, fields, ty, 0)
    }

    /// The same from the `i`-th on.
    pub open spec fn build_fields_from(
        self,
        s: A64Low,
        home: i32,
        kind: AggKind,
        n: usize,
        fields: Seq<Operand>,
        ty: TypeId,
        i: int,
    ) -> A64Low
        decreases fields.len() - i,
    {
        if i < 0 || i >= fields.len() {
            s
        } else {
            let k = i as usize;
            let s = self.placed_field(s, home, kind, n, fields[i], ty, k);
            if s.err is Some {
                s
            } else {
                self.build_fields_from(s, home, kind, n, fields, ty, i + 1)
            }
        }
    }

    /// Builds an aggregate field by field.
    #[verifier::opaque]
    pub open spec fn build_aggregate(
        self,
        s: A64Low,
        home: i32,
        kind: AggKind,
        fields: Seq<Operand>,
        ty: TypeId,
    ) -> A64Low {
        let s = if self.layout_opt(ty).is_none() {
            let s = self.build_loose_fields(s, home, kind, fields, ty);
            s
        } else {
            let n = fields.len() as usize;
            let s = self.build_fields(s, home, kind, n, fields, ty);
            s
        };
        s
    }

    /// The payload type of an error union.
    pub open spec fn ok_type(self, op: Operand, ty: TypeId) -> TypeId {
        match self.ty(ty) {
            Type::ErrorUnion { ok } => ok,
            _ => self.type_or(op, TypeId(T_U8)),
        }
    }

    /// The payload type of an optional.
    pub open spec fn some_type(self, op: Operand, ty: TypeId) -> TypeId {
        match self.ty(ty) {
            Type::Optional(inner) => inner,
            _ => self.type_or(op, TypeId(T_U8)),
        }
    }

    /// The offset of the payload of an error union.
    pub open spec fn payload_offset(self, ty: TypeId) -> i32 {
        error_payload(self.prog.arena, ty) as u64 as i32
    }

    /// Builds an error union with a value.
    #[verifier::opaque]
    pub open spec fn build_make_ok(self, s: A64Low, home: i32, op: Operand, ety: TypeId) -> A64Low {
        let s = self.store_field_operand(
            s,
            sum32(home, self.payload_offset(ety)),
            op,
            self.ok_type(op, ety),
        );
        if s.err is Some {
            s
        } else {
            let s = s.on(s.text.mov_imm(Reg(RES), 0));
            let s = self.st(s, Reg(RES), Reg(FP), home, MemSize::H);
            s
        }
    }

    /// Stores the flag of an optional.
    #[verifier::opaque]
    pub open spec fn store_flag(self, s: A64Low, home: i32, oty: TypeId, flag: i64) -> A64Low {
        let s = s.on(s.text.mov_imm(Reg(RES), flag));
        let s = s.on(
            s.text.store(
                Reg(RES),
                Reg(FP),
                (home as i64 + self.flag_at(oty) as i32 as i64) as i64,
                MemSize::B,
            ),
        );
        s
    }

    /// Builds an optional with a value.
    #[verifier::opaque]
    pub open spec fn build_make_some(
        self,
        s: A64Low,
        home: i32,
        op: Operand,
        oty: TypeId,
    ) -> A64Low {
        let s = self.store_field_operand(s, home, op, self.some_type(op, oty));
        if s.err is Some {
            s
        } else {
            let s = self.store_flag(s, home, oty, 1);
            s
        }
    }

    /// Stores an error.
    #[verifier::opaque]
    pub open spec fn store_tag(self, s: A64Low, home: i32, tag: u16) -> A64Low {
        let s = s.on(s.text.mov_imm(Reg(RES), tag as i64));
        let s = self.st(s, Reg(RES), Reg(FP), home, MemSize::H);
        s
    }

    /// Builds a constant `c`, which is the operand `op`.
    #[verifier::opaque]
    pub open spec fn materialize_const_aggregate(
        self,
        s: A64Low,
        home: i32,
        op: Operand,
        c: Const,
        ty: TypeId,
    ) -> A64Low {
        let s = match c {
            Const::Str(id) => {
                let s = self.string_words(s, home, id);
                s
            },
            Const::EmptySlice { .. } => {
                let s = s.on(s.text.mov_imm(Reg(RES), 0));
                let s = self.st(s, Reg(RES), Reg(FP), home, MemSize::X);
                let s = self.st_hi(s, Reg(RES), Reg(FP), home);
                s
            },
            Const::Aggregate { id, ty: aty } => {
                let s = if self.has_bytes(id) {
                    s.fail(self.unsup("aggregate const backed by bytes"@))
                } else {
                    let s = self.build_aggregate(
                        s,
                        home,
                        self.const_kind_of(aty),
                        self.const_fields(id),
                        aty,
                    );
                    s
                };
                s
            },
            Const::Undef { .. } => {
                s
            },
            Const::Void => {
                let s = if self.is_error_union(ty) {
                    let s = self.store_tag(s, home, 0);
                    s
                } else {
                    s
                };
                s
            },
            Const::ErrVal { tag, .. } => {
                let s = self.store_tag(s, home, tag.0);
                s
            },
            Const::Int { .. } => {
                let s = self.scalar_into_aggregate(s, home, op, ty);
                s
            },
            Const::Bool(_) => {
                let s = self.scalar_into_aggregate(s, home, op, ty);
                s
            },
            _ => {
                s.fail(self.unsup3("const aggregate "@, shown_const(c), ""@))
            },
        };
        s
    }

    /// Builds a scalar constant as the value of an optional or error union.
    #[verifier::opaque]
    pub open spec fn scalar_into_aggregate(
        self,
        s: A64Low,
        home: i32,
        op: Operand,
        ty: TypeId,
    ) -> A64Low {
        let s = match self.ty(ty) {
            Type::Optional(_) => {
                let s = self.build_make_some(s, home, op, ty);
                s
            },
            Type::ErrorUnion { .. } => {
                let s = self.build_make_ok(s, home, op, ty);
                s
            },
            _ => {
                s.fail(self.unsup("scalar constant into a non-optional aggregate"@))
            },
        };
        s
    }

    /// Copies an operand into the home of an aggregate; a scalar becomes the value of
    /// an optional or error union.
    #[verifier::opaque]
    pub open spec fn aggregate_use(self, s: A64Low, home: i32, op: Operand, ty: TypeId) -> A64Low {
        let s = match op {
            Operand::Copy(p) => {
                let src_ty = self.place_type(p);
                let coercible = !self.in_memory(src_ty) && !self.is_wide_int(src_ty);
                let s = if coercible && self.is_flagged_optional(ty) {
                    let s = self.build_make_some(s, home, op, ty);
                    s
                } else if coercible && self.is_error_union(ty) {
                    let s = self.build_make_ok(s, home, op, ty);
                    s
                } else {
                    let s = self.place_addr(s, p, (p.proj@.len() as usize), Reg(RES));
                    if s.err is Some {
                        s
                    } else {
                        let s = self.lea_home(s, Reg(ADDR), home);
                        let s = self.memcpy(s, Reg(ADDR), Reg(RES), self.layout(ty).size);
                        s
                    }
                };
                s
            },
            Operand::Const(c) => {
                let s = self.materialize_const_aggregate(s, home, op, c, ty);
                s
            },
        };
        s
    }

    /// Puts the data pointer of a slice under construction into `dst`.
    #[verifier::opaque]
    pub open spec fn slice_data_ptr(self, s: A64Low, op: Operand, dst: Reg) -> A64Low {
        let s = match self.string_of(op) {
            Some(id) => {
                let s = self.string_to(s, id, dst);
                s
            },
            None => {
                let s = match op {
                    Operand::Copy(p) => {
                        let s = match self.ty(self.place_type(p)) {
                            Type::Slice { .. } => {
                                let s = self.place_addr(s, p, (p.proj@.len() as usize), Reg(ADDR));
                                if s.err is Some {
                                    s
                                } else {
                                    let s = s.on(s.text.load(dst, Reg(ADDR), 0, MemSize::X));
                                    s
                                }
                            },
                            Type::Array { .. } => {
                                let s = self.place_addr(s, p, (p.proj@.len() as usize), dst);
                                s
                            },
                            _ => {
                                let s = self.operand_to(s, op, dst);
                                s
                            },
                        };
                        s
                    },
                    Operand::Const(_) => {
                        let s = self.operand_to(s, op, dst);
                        s
                    },
                };
                s
            },
        };
        s
    }

    /// Builds a slice.
    #[verifier::opaque]
    pub open spec fn build_make_slice(
        self,
        s: A64Low,
        home: i32,
        ptr: Operand,
        offset: Operand,
        len: Operand,
        ty: TypeId,
    ) -> A64Low {
        let stride = self.elem_bytes(ty);
        let s = self.slice_data_ptr(s, ptr, Reg(RES));
        if s.err is Some {
            s
        } else {
            let s = self.operand_to(s, offset, Reg(S2));
            if s.err is Some {
                s
            } else {
                let s = match log2_of(stride) {
                    Some(sh) => {
                        let s = if sh != 0 {
                            let s = s.on(s.text.lsl_imm(Reg(S2), Reg(S2), sh));
                            s
                        } else {
                            s
                        };
                        s
                    },
                    None => {
                        let s = s.on(s.text.mov_imm(Reg(S3), stride as i64));
                        let s = s.on(s.text.mul(Reg(S2), Reg(S2), Reg(S3)));
                        s
                    },
                };
                let s = s.on(s.text.add(Reg(RES), Reg(RES), Reg(S2)));
                let s = self.operand_to(s, len, Reg(S2));
                if s.err is Some {
                    s
                } else {
                    let s = self.store_pair(s, home, Reg(RES), Reg(S2));
                    s
                }
            }
        }
    }

    /// Computes a value in memory.
    #[verifier::opaque]
    pub open spec fn lower_aggregate_rvalue(
        self,
        s: A64Low,
        dst: LocalId,
        rvalue: Rvalue,
        ty: TypeId,
    ) -> A64Low {
        let home = self.home(dst);
        let s = match rvalue {
            Rvalue::Aggregate { agg, fields, .. } => {
                let s = self.build_aggregate(s, home, agg, fields@, ty);
                s
            },
            Rvalue::Use(op) => {
                let s = self.aggregate_use(s, home, op, ty);
                s
            },
            Rvalue::MakeSlice { ptr, offset, len, ty: sty } => {
                let s = self.build_make_slice(s, home, ptr, offset, len, sty);
                s
            },
            Rvalue::MakeOk(op, ety) => {
                let s = self.build_make_ok(s, home, op, ety);
                s
            },
            Rvalue::MakeErr(tag, _) => {
                let s = self.store_tag(s, home, tag.0);
                s
            },
            Rvalue::MakeSome(op, oty) => {
                let s = self.build_make_some(s, home, op, oty);
                s
            },
            Rvalue::MakeNull(oty) => {
                let s = self.store_flag(s, home, oty, 0);
                s
            },
            _ => {
                s.fail(self.unsup3("aggregate rvalue "@, rvalue_kind_text(rvalue), ""@))
            },
        };
        s
    }
}

impl Aarch64FnLower<'_> {
    /// The kind of aggregate that a constant of a type is.
    pub(crate) fn const_kind_of(&self, ty: TypeId) -> (r: AggKind)
        requires
            self.ok(),
            self.env().prog.arena.has(ty),
        ensures
            r == self.env().const_kind_of(ty),
    {
        match self.ty(ty) {
            Type::Array { .. } => AggKind::Array,
            _ => AggKind::Struct,
        }
    }

    /// Puts the address of a string into `dst`; a constant without bytes is empty.
    pub(crate) fn string_to(&self, out: &mut A64Out, id: ConstId, dst: Reg)
        requires
            self.ok(),
            old(out).ok(),
            id.0 < self.env().prog.consts@.len(),
        ensures
            final(out)@ == self.env().string_to(old(out)@, id, dst),
            final(out).ok(),
            grew(old(out)@.text.labels, final(out)@.text.labels),
    {
        let ghost l0 = out@.text.labels;
        proof {
            reveal(A64Func::string_to);
            grew_refl(l0);
        }
        if self.has_bytes(id) {
            let off: u32 = out.ro.intern(self.const_bytes(id).as_slice());
            out.text.mov_imm_data(dst, off);
        } else {
            let off: u32 = out.ro.intern(Vec::<u8>::new().as_slice());
            out.text.mov_imm_data(dst, off);
        }
    }

    /// The length of a string.
    pub(crate) fn string_len(&self, id: ConstId) -> (r: i64)
        requires
            self.ok(),
            id.0 < self.env().prog.consts@.len(),
        ensures
            r == self.env().string_len(id),
    {
        if self.has_bytes(id) {
            self.const_bytes(id).len() as i64
        } else {
            0
        }
    }

    /// Stores the address and length of a string.
    pub(crate) fn string_words(&self, out: &mut A64Out, at: i32, id: ConstId)
        requires
            self.ok(),
            old(out).ok(),
            id.0 < self.env().prog.consts@.len(),
        ensures
            final(out)@ == self.env().string_words(old(out)@, at, id),
            final(out).ok(),
            grew(old(out)@.text.labels, final(out)@.text.labels),
    {
        let ghost l0 = out@.text.labels;
        proof {
            reveal(A64Func::string_words);
            grew_refl(l0);
        }
        let ghost k1 = out@.text.labels;
        self.string_to(out, id, Reg(RES));
        proof {
            grew_trans(l0, k1, out@.text.labels);
        }
        let ghost k2 = out@.text.labels;
        self.st(out, Reg(RES), Reg(FP), at, MemSize::X);
        proof {
            grew_trans(l0, k2, out@.text.labels);
        }
        out.text.mov_imm(Reg(RES), self.string_len(id));
        let ghost k3 = out@.text.labels;
        self.st_hi(out, Reg(RES), Reg(FP), at);
        proof {
            grew_trans(l0, k3, out@.text.labels);
        }
    }

    /// The string that an operand is.
    pub(crate) fn string_of(&self, op: &Operand) -> (r: Option<ConstId>)
        requires
            self.ok(),
            self.env().operand_ok(*op),
        ensures
            r == self.env().string_of(*op),
            r matches Some(id) ==> id.0 < self.env().prog.consts@.len(),
    {
        match op {
            Operand::Copy(_) => None,
            Operand::Const(c) => match *c {
                Const::Str(id) => Some(id),
                _ => None,
            },
        }
    }

    /// Stores an operand as a field at a frame offset.
    pub(crate) fn store_field_operand(
        &self,
        out: &mut A64Out,
        at: i32,
        op: &Operand,
        fty: TypeId,
    ) -> (r: Result<(), CodegenError>)
        requires
            self.ok(),
            old(out).ok(),
            self.env().operand_ok(*op),
            self.env().prog.arena.has(fty),
        ensures
            a64_lowered(r, final(out)@, self.env().store_field_operand(old(out)@, at, *op, fty)),
            r is Ok ==> final(out).ok() && grew(old(out)@.text.labels, final(out)@.text.labels),
    {
        let ghost l0 = out@.text.labels;
        proof {
            reveal(A64Func::store_field_operand);
            grew_refl(l0);
        }
        match self.string_of(op) {
            Some(id) => {
                let ghost k4 = out@.text.labels;
                self.string_words(out, at, id);
                proof {
                    grew_trans(l0, k4, out@.text.labels);
                }
            },
            None => {
                if self.in_memory(fty) {
                    match op {
                        Operand::Copy(p) => {
                            let ghost k5 = out@.text.labels;
                            match self.place_addr(out, p, p.proj.len(), Reg(RES)) {
                                Ok(_) => {},
                                Err(e) => {
                                    return Err(e);
                                },
                            }
                            proof {
                                grew_trans(l0, k5, out@.text.labels);
                            }
                            out.text.add_imm_to(Reg(ADDR), Reg(FP), at);
                            let ghost k6 = out@.text.labels;
                            self.memcpy(out, Reg(ADDR), Reg(RES), self.layout(fty).size);
                            proof {
                                grew_trans(l0, k6, out@.text.labels);
                            }
                        },
                        Operand::Const(_) => {
                            return Err(self.unsup("a non-place aggregate field"));
                        },
                    }
                } else if self.is_wide_int(fty) {
                    let ghost k7 = out@.text.labels;
                    match self.eval_wide_operand(out, op, Reg(RES), Reg(S2)) {
                        Ok(_) => {},
                        Err(e) => {
                            return Err(e);
                        },
                    }
                    proof {
                        grew_trans(l0, k7, out@.text.labels);
                    }
                    let ghost k8 = out@.text.labels;
                    self.store_pair(out, at, Reg(RES), Reg(S2));
                    proof {
                        grew_trans(l0, k8, out@.text.labels);
                    }
                } else {
                    let ghost k9 = out@.text.labels;
                    match self.operand_to(out, op, Reg(RES)) {
                        Ok(_) => {},
                        Err(e) => {
                            return Err(e);
                        },
                    }
                    proof {
                        grew_trans(l0, k9, out@.text.labels);
                    }
                    let ghost k10 = out@.text.labels;
                    self.normalize(out, Reg(RES), fty);
                    proof {
                        grew_trans(l0, k10, out@.text.labels);
                    }
                    let ghost k11 = out@.text.labels;
                    self.store_sized(out, Reg(FP), at, Reg(RES), fty);
                    proof {
                        grew_trans(l0, k11, out@.text.labels);
                    }
                }
            },
        }
        Ok(())
    }

    /// Stores a loosely packed field behind `end`.
    pub(crate) fn loose_field(
        &self,
        out: &mut A64Out,
        home: i32,
        kind: AggKind,
        f: &Operand,
        ty: TypeId,
        end: u64,
    ) -> (r: Result<(), CodegenError>)
        requires
            self.ok(),
            old(out).ok(),
            self.env().operand_ok(*f),
            self.env().prog.arena.has(ty),
        ensures
            a64_lowered(r, final(out)@, self.env().loose_field(old(out)@, home, kind, *f, ty, end)),
            r is Ok ==> final(out).ok() && grew(old(out)@.text.labels, final(out)@.text.labels),
    {
        let ghost l0 = out@.text.labels;
        proof {
            reveal(A64Func::loose_field);
            grew_refl(l0);
        }
        let fty: TypeId = self.loose_field_type(kind, f, ty);
        let at: u64 = field_start(end, self.layout(fty));
        let ghost k12 = out@.text.labels;
        match self.store_field_operand(out, plus(home, at as i32), f, fty) {
            Ok(_) => {},
            Err(e) => {
                return Err(e);
            },
        }
        proof {
            grew_trans(l0, k12, out@.text.labels);
        }
        Ok(())
    }

    /// Builds the fields of an aggregate whose type has no layout, one behind the other.
    pub(crate) fn build_loose_fields(
        &self,
        out: &mut A64Out,
        home: i32,
        kind: AggKind,
        fields: &Vec<Operand>,
        ty: TypeId,
    ) -> (r: Result<(), CodegenError>)
        requires
            self.ok(),
            old(out).ok(),
            self.env().operands_ok(fields@),
            self.env().prog.arena.has(ty),
        ensures
            a64_lowered(
                r,
                final(out)@,
                self.env().build_loose_fields(old(out)@, home, kind, fields@, ty),
            ),
            r is Ok ==> final(out).ok() && grew(old(out)@.text.labels, final(out)@.text.labels),
    {
        let ghost l0 = out@.text.labels;
        let ghost want = self.env().build_loose_fields(out@, home, kind, fields@, ty);
        proof {
            grew_refl(l0);
        }
        let mut end: u64 = 0;
        let mut i: usize = 0;
        while i < fields.len()
            invariant
                self.ok(),
                out.ok(),
                self.env().operands_ok(fields@),
                self.env().prog.arena.has(ty),
                i <= fields@.len(),
                grew(l0, out@.text.labels),
                l0 == old(out)@.text.labels,
                want == self.env().build_loose_fields(old(out)@, home, kind, fields@, ty),
                want == self.env().build_loose_fields_from(
                    out@,
                    home,
                    kind,
                    fields@,
                    ty,
                    i as int,
                    end,
                ),
            decreases fields@.len() - i,
        {
            assert(self.env().operand_ok(fields@[i as int]));
            let ghost here = out@.text.labels;
            match self.loose_field(out, home, kind, &fields[i], ty, end) {
                Ok(_) => {},
                Err(e) => {
                    return Err(e);
                },
            }
            proof {
                grew_trans(l0, here, out@.text.labels);
            }
            end = self.loose_end(kind, &fields[i], ty, end);
            i = i + 1;
        }
        Ok(())
    }

    /// Stores a field where its type says.
    pub(crate) fn placed_field(
        &self,
        out: &mut A64Out,
        home: i32,
        kind: AggKind,
        n: usize,
        f: &Operand,
        ty: TypeId,
        i: usize,
    ) -> (r: Result<(), CodegenError>)
        requires
            self.ok(),
            old(out).ok(),
            self.env().operand_ok(*f),
            self.env().prog.arena.has(ty),
        ensures
            a64_lowered(
                r,
                final(out)@,
                self.env().placed_field(old(out)@, home, kind, n, *f, ty, i),
            ),
            r is Ok ==> final(out).ok() && grew(old(out)@.text.labels, final(out)@.text.labels),
    {
        let ghost l0 = out@.text.labels;
        proof {
            reveal(A64Func::placed_field);
            grew_refl(l0);
        }
        let off: u64 = self.agg_offset(kind, n, ty, i);
        let ghost k13 = out@.text.labels;
        match self.store_field_operand(
            out,
            plus(home, off as i32),
            f,
            self.agg_field_type(kind, i, ty),
        ) {
            Ok(_) => {},
            Err(e) => {
                return Err(e);
            },
        }
        proof {
            grew_trans(l0, k13, out@.text.labels);
        }
        Ok(())
    }

    /// Builds the fields of an aggregate at the offsets of its type.
    pub(crate) fn build_fields(
        &self,
        out: &mut A64Out,
        home: i32,
        kind: AggKind,
        n: usize,
        fields: &Vec<Operand>,
        ty: TypeId,
    ) -> (r: Result<(), CodegenError>)
        requires
            self.ok(),
            old(out).ok(),
            self.env().operands_ok(fields@),
            self.env().prog.arena.has(ty),
        ensures
            a64_lowered(
                r,
                final(out)@,
                self.env().build_fields(old(out)@, home, kind, n, fields@, ty),
            ),
            r is Ok ==> final(out).ok() && grew(old(out)@.text.labels, final(out)@.text.labels),
    {
        let ghost l0 = out@.text.labels;
        let ghost want = self.env().build_fields(out@, home, kind, n, fields@, ty);
        proof {
            grew_refl(l0);
        }
        let mut i: usize = 0;
        while i < fields.len()
            invariant
                self.ok(),
                out.ok(),
                self.env().operands_ok(fields@),
                self.env().prog.arena.has(ty),
                i <= fields@.len(),
                grew(l0, out@.text.labels),
                l0 == old(out)@.text.labels,
                want == self.env().build_fields(old(out)@, home, kind, n, fields@, ty),
                want == self.env().build_fields_from(out@, home, kind, n, fields@, ty, i as int),
            decreases fields@.len() - i,
        {
            assert(self.env().operand_ok(fields@[i as int]));
            let k: usize = i;
            let ghost here = out@.text.labels;
            match self.placed_field(out, home, kind, n, &fields[i], ty, k) {
                Ok(_) => {},
                Err(e) => {
                    return Err(e);
                },
            }
            proof {
                grew_trans(l0, here, out@.text.labels);
            }
            i = i + 1;
        }
        Ok(())
    }

    /// Builds an aggregate field by field.
    pub(crate) fn build_aggregate(
        &self,
        out: &mut A64Out,
        home: i32,
        kind: AggKind,
        fields: &Vec<Operand>,
        ty: TypeId,
    ) -> (r: Result<(), CodegenError>)
        requires
            self.ok(),
            old(out).ok(),
            self.env().operands_ok(fields@),
            self.env().prog.arena.has(ty),
        ensures
            a64_lowered(
                r,
                final(out)@,
                self.env().build_aggregate(old(out)@, home, kind, fields@, ty),
            ),
            r is Ok ==> final(out).ok() && grew(old(out)@.text.labels, final(out)@.text.labels),
    {
        let ghost l0 = out@.text.labels;
        proof {
            reveal(A64Func::build_aggregate);
            grew_refl(l0);
        }
        if self.layout_opt(ty).is_none() {
            let ghost k14 = out@.text.labels;
            match self.build_loose_fields(out, home, kind, fields, ty) {
                Ok(_) => {},
                Err(e) => {
                    return Err(e);
                },
            }
            proof {
                grew_trans(l0, k14, out@.text.labels);
            }
        } else {
            let n: usize = fields.len();
            let ghost k15 = out@.text.labels;
            match self.build_fields(out, home, kind, n, fields, ty) {
                Ok(_) => {},
                Err(e) => {
                    return Err(e);
                },
            }
            proof {
                grew_trans(l0, k15, out@.text.labels);
            }
        }
        Ok(())
    }

    /// The payload type of an error union.
    pub(crate) fn ok_type(&self, op: &Operand, ty: TypeId) -> (r: TypeId)
        requires
            self.ok(),
            self.env().operand_ok(*op),
            self.env().prog.arena.has(ty),
        ensures
            r == self.env().ok_type(*op, ty),
            self.env().prog.arena.has(r),
    {
        match self.ty(ty) {
            Type::ErrorUnion { ok } => ok,
            _ => self.type_or(op, TypeId(T_U8)),
        }
    }

    /// The payload type of an optional.
    pub(crate) fn some_type(&self, op: &Operand, ty: TypeId) -> (r: TypeId)
        requires
            self.ok(),
            self.env().operand_ok(*op),
            self.env().prog.arena.has(ty),
        ensures
            r == self.env().some_type(*op, ty),
            self.env().prog.arena.has(r),
    {
        match self.ty(ty) {
            Type::Optional(inner) => inner,
            _ => self.type_or(op, TypeId(T_U8)),
        }
    }

    /// The offset of the payload of an error union.
    pub(crate) fn payload_offset(&self, ty: TypeId) -> (r: i32)
        requires
            self.ok(),
            self.env().prog.arena.has(ty),
        ensures
            r == self.env().payload_offset(ty),
    {
        error_union_payload_off(&self.prog.arena, ty) as i32
    }

    /// Builds an error union with a value.
    pub(crate) fn build_make_ok(
        &self,
        out: &mut A64Out,
        home: i32,
        op: &Operand,
        ety: TypeId,
    ) -> (r: Result<(), CodegenError>)
        requires
            self.ok(),
            old(out).ok(),
            self.env().operand_ok(*op),
            self.env().prog.arena.has(ety),
        ensures
            a64_lowered(r, final(out)@, self.env().build_make_ok(old(out)@, home, *op, ety)),
            r is Ok ==> final(out).ok() && grew(old(out)@.text.labels, final(out)@.text.labels),
    {
        let ghost l0 = out@.text.labels;
        proof {
            reveal(A64Func::build_make_ok);
            grew_refl(l0);
        }
        let ghost k16 = out@.text.labels;
        match self.store_field_operand(
            out,
            plus(home, self.payload_offset(ety)),
            op,
            self.ok_type(op, ety),
        ) {
            Ok(_) => {},
            Err(e) => {
                return Err(e);
            },
        }
        proof {
            grew_trans(l0, k16, out@.text.labels);
        }
        out.text.mov_imm(Reg(RES), 0);
        let ghost k17 = out@.text.labels;
        self.st(out, Reg(RES), Reg(FP), home, MemSize::H);
        proof {
            grew_trans(l0, k17, out@.text.labels);
        }
        Ok(())
    }

    /// Stores the flag of an optional.
    pub(crate) fn store_flag(&self, out: &mut A64Out, home: i32, oty: TypeId, flag: i64)
        requires
            self.ok(),
            old(out).ok(),
            self.env().prog.arena.has(oty),
        ensures
            final(out)@ == self.env().store_flag(old(out)@, home, oty, flag),
            final(out).ok(),
            grew(old(out)@.text.labels, final(out)@.text.labels),
    {
        let ghost l0 = out@.text.labels;
        proof {
            reveal(A64Func::store_flag);
            grew_refl(l0);
        }
        out.text.mov_imm(Reg(RES), flag);
        out.text.store(
            Reg(RES),
            Reg(FP),
            (home as i64 + self.flag_at(oty) as i32 as i64) as i64,
            MemSize::B,
        );
    }

    /// Builds an optional with a value.
    pub(crate) fn build_make_some(
        &self,
        out: &mut A64Out,
        home: i32,
        op: &Operand,
        oty: TypeId,
    ) -> (r: Result<(), CodegenError>)
        requires
            self.ok(),
            old(out).ok(),
            self.env().operand_ok(*op),
            self.env().prog.arena.has(oty),
        ensures
            a64_lowered(r, final(out)@, self.env().build_make_some(old(out)@, home, *op, oty)),
            r is Ok ==> final(out).ok() && grew(old(out)@.text.labels, final(out)@.text.labels),
    {
        let ghost l0 = out@.text.labels;
        proof {
            reveal(A64Func::build_make_some);
            grew_refl(l0);
        }
        let ghost k18 = out@.text.labels;
        match self.store_field_operand(out, home, op, self.some_type(op, oty)) {
            Ok(_) => {},
            Err(e) => {
                return Err(e);
            },
        }
        proof {
            grew_trans(l0, k18, out@.text.labels);
        }
        let ghost k19 = out@.text.labels;
        self.store_flag(out, home, oty, 1);
        proof {
            grew_trans(l0, k19, out@.text.labels);
        }
        Ok(())
    }

    /// Stores an error.
    pub(crate) fn store_tag(&self, out: &mut A64Out, home: i32, tag: u16)
        requires
            self.ok(),
            old(out).ok(),
        ensures
            final(out)@ == self.env().store_tag(old(out)@, home, tag),
            final(out).ok(),
            grew(old(out)@.text.labels, final(out)@.text.labels),
    {
        let ghost l0 = out@.text.labels;
        proof {
            reveal(A64Func::store_tag);
            grew_refl(l0);
        }
        out.text.mov_imm(Reg(RES), tag as i64);
        let ghost k20 = out@.text.labels;
        self.st(out, Reg(RES), Reg(FP), home, MemSize::H);
        proof {
            grew_trans(l0, k20, out@.text.labels);
        }
    }

    /// Builds a constant `c`, which is the operand `op`.
    pub(crate) fn materialize_const_aggregate(
        &self,
        out: &mut A64Out,
        home: i32,
        op: &Operand,
        c: &Const,
        ty: TypeId,
    ) -> (r: Result<(), CodegenError>)
        requires
            self.ok(),
            old(out).ok(),
            self.env().operand_ok(*op),
            self.env().const_ok(*c),
            self.env().prog.arena.has(ty),
        ensures
            a64_lowered(
                r,
                final(out)@,
                self.env().materialize_const_aggregate(old(out)@, home, *op, *c, ty),
            ),
            r is Ok ==> final(out).ok() && grew(old(out)@.text.labels, final(out)@.text.labels),
    {
        let ghost l0 = out@.text.labels;
        proof {
            reveal(A64Func::materialize_const_aggregate);
            grew_refl(l0);
        }
        match *c {
            Const::Str(id) => {
                let ghost k21 = out@.text.labels;
                self.string_words(out, home, id);
                proof {
                    grew_trans(l0, k21, out@.text.labels);
                }
            },
            Const::EmptySlice { .. } => {
                out.text.mov_imm(Reg(RES), 0);
                let ghost k22 = out@.text.labels;
                self.st(out, Reg(RES), Reg(FP), home, MemSize::X);
                proof {
                    grew_trans(l0, k22, out@.text.labels);
                }
                let ghost k23 = out@.text.labels;
                self.st_hi(out, Reg(RES), Reg(FP), home);
                proof {
                    grew_trans(l0, k23, out@.text.labels);
                }
            },
            Const::Aggregate { id, ty: aty } => {
                if self.has_bytes(id) {
                    return Err(self.unsup("aggregate const backed by bytes"));
                } else {
                    let ghost k24 = out@.text.labels;
                    match self.build_const(out, home, id, aty) {
                        Ok(_) => {},
                        Err(e) => {
                            return Err(e);
                        },
                    }
                    proof {
                        grew_trans(l0, k24, out@.text.labels);
                    }
                }
            },
            Const::Undef { .. } => {},
            Const::Void => {
                if self.is_error_union(ty) {
                    let ghost k25 = out@.text.labels;
                    self.store_tag(out, home, 0);
                    proof {
                        grew_trans(l0, k25, out@.text.labels);
                    }
                }
            },
            Const::ErrVal { tag, .. } => {
                let ghost k26 = out@.text.labels;
                self.store_tag(out, home, tag.0);
                proof {
                    grew_trans(l0, k26, out@.text.labels);
                }
            },
            Const::Int { .. } => {
                let ghost k27 = out@.text.labels;
                match self.scalar_into_aggregate(out, home, op, ty) {
                    Ok(_) => {},
                    Err(e) => {
                        return Err(e);
                    },
                }
                proof {
                    grew_trans(l0, k27, out@.text.labels);
                }
            },
            Const::Bool(_) => {
                let ghost k28 = out@.text.labels;
                match self.scalar_into_aggregate(out, home, op, ty) {
                    Ok(_) => {},
                    Err(e) => {
                        return Err(e);
                    },
                }
                proof {
                    grew_trans(l0, k28, out@.text.labels);
                }
            },
            _ => {
                return Err(self.unsup3("const aggregate ", const_text(*c).as_str(), ""));
            },
        }
        Ok(())
    }

    /// Builds a scalar constant as the value of an optional or error union.
    pub(crate) fn scalar_into_aggregate(
        &self,
        out: &mut A64Out,
        home: i32,
        op: &Operand,
        ty: TypeId,
    ) -> (r: Result<(), CodegenError>)
        requires
            self.ok(),
            old(out).ok(),
            self.env().operand_ok(*op),
            self.env().prog.arena.has(ty),
        ensures
            a64_lowered(r, final(out)@, self.env().scalar_into_aggregate(old(out)@, home, *op, ty)),
            r is Ok ==> final(out).ok() && grew(old(out)@.text.labels, final(out)@.text.labels),
    {
        let ghost l0 = out@.text.labels;
        proof {
            reveal(A64Func::scalar_into_aggregate);
            grew_refl(l0);
        }
        match self.ty(ty) {
            Type::Optional(_) => {
                let ghost k29 = out@.text.labels;
                match self.build_make_some(out, home, op, ty) {
                    Ok(_) => {},
                    Err(e) => {
                        return Err(e);
                    },
                }
                proof {
                    grew_trans(l0, k29, out@.text.labels);
                }
            },
            Type::ErrorUnion { .. } => {
                let ghost k30 = out@.text.labels;
                match self.build_make_ok(out, home, op, ty) {
                    Ok(_) => {},
                    Err(e) => {
                        return Err(e);
                    },
                }
                proof {
                    grew_trans(l0, k30, out@.text.labels);
                }
            },
            _ => {
                return Err(self.unsup("scalar constant into a non-optional aggregate"));
            },
        }
        Ok(())
    }

    /// Copies an operand into the home of an aggregate; a scalar becomes the value of
    /// an optional or error union.
    pub(crate) fn aggregate_use(
        &self,
        out: &mut A64Out,
        home: i32,
        op: &Operand,
        ty: TypeId,
    ) -> (r: Result<(), CodegenError>)
        requires
            self.ok(),
            old(out).ok(),
            self.env().operand_ok(*op),
            self.env().prog.arena.has(ty),
        ensures
            a64_lowered(r, final(out)@, self.env().aggregate_use(old(out)@, home, *op, ty)),
            r is Ok ==> final(out).ok() && grew(old(out)@.text.labels, final(out)@.text.labels),
    {
        let ghost l0 = out@.text.labels;
        proof {
            reveal(A64Func::aggregate_use);
            grew_refl(l0);
        }
        match op {
            Operand::Copy(p) => {
                let src_ty: TypeId = self.place_type(p);
                let coercible: bool = !self.in_memory(src_ty) && !self.is_wide_int(src_ty);
                if coercible && self.is_flagged_optional(ty) {
                    let ghost k31 = out@.text.labels;
                    match self.build_make_some(out, home, op, ty) {
                        Ok(_) => {},
                        Err(e) => {
                            return Err(e);
                        },
                    }
                    proof {
                        grew_trans(l0, k31, out@.text.labels);
                    }
                } else if coercible && self.is_error_union(ty) {
                    let ghost k32 = out@.text.labels;
                    match self.build_make_ok(out, home, op, ty) {
                        Ok(_) => {},
                        Err(e) => {
                            return Err(e);
                        },
                    }
                    proof {
                        grew_trans(l0, k32, out@.text.labels);
                    }
                } else {
                    let ghost k33 = out@.text.labels;
                    match self.place_addr(out, p, p.proj.len(), Reg(RES)) {
                        Ok(_) => {},
                        Err(e) => {
                            return Err(e);
                        },
                    }
                    proof {
                        grew_trans(l0, k33, out@.text.labels);
                    }
                    let ghost k34 = out@.text.labels;
                    self.lea_home(out, Reg(ADDR), home);
                    proof {
                        grew_trans(l0, k34, out@.text.labels);
                    }
                    let ghost k35 = out@.text.labels;
                    self.memcpy(out, Reg(ADDR), Reg(RES), self.layout(ty).size);
                    proof {
                        grew_trans(l0, k35, out@.text.labels);
                    }
                }
            },
            Operand::Const(c) => {
                let ghost k36 = out@.text.labels;
                match self.materialize_const_aggregate(out, home, op, c, ty) {
                    Ok(_) => {},
                    Err(e) => {
                        return Err(e);
                    },
                }
                proof {
                    grew_trans(l0, k36, out@.text.labels);
                }
            },
        }
        Ok(())
    }

    /// Puts the data pointer of a slice under construction into `dst`.
    pub(crate) fn slice_data_ptr(
        &self,
        out: &mut A64Out,
        op: &Operand,
        dst: Reg,
    ) -> (r: Result<(), CodegenError>)
        requires
            self.ok(),
            old(out).ok(),
            self.env().operand_ok(*op),
        ensures
            a64_lowered(r, final(out)@, self.env().slice_data_ptr(old(out)@, *op, dst)),
            r is Ok ==> final(out).ok() && grew(old(out)@.text.labels, final(out)@.text.labels),
    {
        let ghost l0 = out@.text.labels;
        proof {
            reveal(A64Func::slice_data_ptr);
            grew_refl(l0);
        }
        match self.string_of(op) {
            Some(id) => {
                let ghost k37 = out@.text.labels;
                self.string_to(out, id, dst);
                proof {
                    grew_trans(l0, k37, out@.text.labels);
                }
            },
            None => {
                match op {
                    Operand::Copy(p) => {
                        match self.ty(self.place_type(p)) {
                            Type::Slice { .. } => {
                                let ghost k38 = out@.text.labels;
                                match self.place_addr(out, p, p.proj.len(), Reg(ADDR)) {
                                    Ok(_) => {},
                                    Err(e) => {
                                        return Err(e);
                                    },
                                }
                                proof {
                                    grew_trans(l0, k38, out@.text.labels);
                                }
                                out.text.load(dst, Reg(ADDR), 0, MemSize::X);
                            },
                            Type::Array { .. } => {
                                let ghost k39 = out@.text.labels;
                                match self.place_addr(out, p, p.proj.len(), dst) {
                                    Ok(_) => {},
                                    Err(e) => {
                                        return Err(e);
                                    },
                                }
                                proof {
                                    grew_trans(l0, k39, out@.text.labels);
                                }
                            },
                            _ => {
                                let ghost k40 = out@.text.labels;
                                match self.operand_to(out, op, dst) {
                                    Ok(_) => {},
                                    Err(e) => {
                                        return Err(e);
                                    },
                                }
                                proof {
                                    grew_trans(l0, k40, out@.text.labels);
                                }
                            },
                        }
                    },
                    Operand::Const(_) => {
                        let ghost k41 = out@.text.labels;
                        match self.operand_to(out, op, dst) {
                            Ok(_) => {},
                            Err(e) => {
                                return Err(e);
                            },
                        }
                        proof {
                            grew_trans(l0, k41, out@.text.labels);
                        }
                    },
                }
            },
        }
        Ok(())
    }

    /// Builds a slice.
    pub(crate) fn build_make_slice(
        &self,
        out: &mut A64Out,
        home: i32,
        ptr: &Operand,
        offset: &Operand,
        len: &Operand,
        ty: TypeId,
    ) -> (r: Result<(), CodegenError>)
        requires
            self.ok(),
            old(out).ok(),
            self.env().operand_ok(*ptr),
            self.env().operand_ok(*offset),
            self.env().operand_ok(*len),
            self.env().prog.arena.has(ty),
        ensures
            a64_lowered(
                r,
                final(out)@,
                self.env().build_make_slice(old(out)@, home, *ptr, *offset, *len, ty),
            ),
            r is Ok ==> final(out).ok() && grew(old(out)@.text.labels, final(out)@.text.labels),
    {
        let ghost l0 = out@.text.labels;
        proof {
            reveal(A64Func::build_make_slice);
            grew_refl(l0);
        }
        let stride: u64 = self.elem_bytes(ty);
        let ghost k42 = out@.text.labels;
        match self.slice_data_ptr(out, ptr, Reg(RES)) {
            Ok(_) => {},
            Err(e) => {
                return Err(e);
            },
        }
        proof {
            grew_trans(l0, k42, out@.text.labels);
        }
        let ghost k43 = out@.text.labels;
        match self.operand_to(out, offset, Reg(S2)) {
            Ok(_) => {},
            Err(e) => {
                return Err(e);
            },
        }
        proof {
            grew_trans(l0, k43, out@.text.labels);
        }
        match log2_exact(stride) {
            Some(sh) => {
                if sh != 0 {
                    out.text.lsl_imm(Reg(S2), Reg(S2), sh);
                }
            },
            None => {
                out.text.mov_imm(Reg(S3), stride as i64);
                out.text.mul(Reg(S2), Reg(S2), Reg(S3));
            },
        }
        out.text.add(Reg(RES), Reg(RES), Reg(S2));
        let ghost k44 = out@.text.labels;
        match self.operand_to(out, len, Reg(S2)) {
            Ok(_) => {},
            Err(e) => {
                return Err(e);
            },
        }
        proof {
            grew_trans(l0, k44, out@.text.labels);
        }
        let ghost k45 = out@.text.labels;
        self.store_pair(out, home, Reg(RES), Reg(S2));
        proof {
            grew_trans(l0, k45, out@.text.labels);
        }
        Ok(())
    }

    /// Computes a value in memory.
    pub(crate) fn lower_aggregate_rvalue(
        &self,
        out: &mut A64Out,
        dst: LocalId,
        rvalue: &Rvalue,
        ty: TypeId,
    ) -> (r: Result<(), CodegenError>)
        requires
            self.ok(),
            old(out).ok(),
            dst.0 < self.env().func.locals@.len(),
            self.env().rvalue_ok(*rvalue),
            self.env().prog.arena.has(ty),
        ensures
            a64_lowered(
                r,
                final(out)@,
                self.env().lower_aggregate_rvalue(old(out)@, dst, *rvalue, ty),
            ),
            r is Ok ==> final(out).ok() && grew(old(out)@.text.labels, final(out)@.text.labels),
    {
        let ghost l0 = out@.text.labels;
        proof {
            reveal(A64Func::lower_aggregate_rvalue);
            grew_refl(l0);
        }
        let home: i32 = self.home(dst);
        match rvalue {
            Rvalue::Aggregate { agg, fields, .. } => {
                let ghost k46 = out@.text.labels;
                match self.build_aggregate(out, home, *agg, fields, ty) {
                    Ok(_) => {},
                    Err(e) => {
                        return Err(e);
                    },
                }
                proof {
                    grew_trans(l0, k46, out@.text.labels);
                }
            },
            Rvalue::Use(op) => {
                let ghost k47 = out@.text.labels;
                match self.aggregate_use(out, home, op, ty) {
                    Ok(_) => {},
                    Err(e) => {
                        return Err(e);
                    },
                }
                proof {
                    grew_trans(l0, k47, out@.text.labels);
                }
            },
            Rvalue::MakeSlice { ptr, offset, len, ty: sty } => {
                let ghost k48 = out@.text.labels;
                match self.build_make_slice(out, home, ptr, offset, len, *sty) {
                    Ok(_) => {},
                    Err(e) => {
                        return Err(e);
                    },
                }
                proof {
                    grew_trans(l0, k48, out@.text.labels);
                }
            },
            Rvalue::MakeOk(op, ety) => {
                let ghost k49 = out@.text.labels;
                match self.build_make_ok(out, home, op, *ety) {
                    Ok(_) => {},
                    Err(e) => {
                        return Err(e);
                    },
                }
                proof {
                    grew_trans(l0, k49, out@.text.labels);
                }
            },
            Rvalue::MakeErr(tag, _) => {
                let ghost k50 = out@.text.labels;
                self.store_tag(out, home, tag.0);
                proof {
                    grew_trans(l0, k50, out@.text.labels);
                }
            },
            Rvalue::MakeSome(op, oty) => {
                let ghost k51 = out@.text.labels;
                match self.build_make_some(out, home, op, *oty) {
                    Ok(_) => {},
                    Err(e) => {
                        return Err(e);
                    },
                }
                proof {
                    grew_trans(l0, k51, out@.text.labels);
                }
            },
            Rvalue::MakeNull(oty) => {
                let ghost k52 = out@.text.labels;
                self.store_flag(out, home, *oty, 0);
                proof {
                    grew_trans(l0, k52, out@.text.labels);
                }
            },
            _ => {
                return Err(self.unsup3("aggregate rvalue ", rvalue_kind(rvalue), ""));
            },
        }
        Ok(())
    }
}

} // verus!
