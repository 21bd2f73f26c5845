//! Aggregates: structs, arrays, slices, optionals and error unions.
use vstd::prelude::*;

use crate::show::{const_text, shown_const, shown_type, type_text};
use crate::lower::env::{Env, FnLower, LowState, Out, grew, grew_refl, grew_trans, lowered};
use crate::layout::{
    Layout, elem_size, error_payload, error_union_payload_off, field_offsets, fields_of, is_pow2,
    max, offsets_fit, offsets_of, round_up, stride, up, up_fits,
};
use crate::lower::scalar::{low_mask, mask_of, plus, sum32};
use crate::mir::{AggKind, Const, ConstData, ConstId, Operand, Place, Rvalue};
use crate::reg::{Gpr, Xmm};
use crate::types::{FieldInfo, T_STR, Type, TypeId};
use crate::CodegenError;

verus! {

/// A constant that is a slice.
#[derive(Clone, Copy, PartialEq, Eq, Structural, Debug)]
pub enum SliceConst {
    /// The bytes of a string.
    Bytes(ConstId),
    /// Nothing.
    Empty,
    /// No slice.
    No,
}

/// Where the next field may start, behind a field of layout `l` behind `end`; an empty
/// field takes a byte.
pub open spec fn end_after(end: u64, l: Layout) -> u64 {
    let size = max(l.size as int, 1);
    if up_fits(end as int, l.align as int) && up(end as int, l.align as int) + size <= u64::MAX {
        (up(end as int, l.align as int) + size) as u64
    } else {
        u64::MAX
    }
}

/// Where the next field may start, behind a field of layout `l` behind `end`; an empty
/// field takes a byte.
pub(crate) fn next_end(end: u64, l: Layout) -> (r: u64)
    requires
        is_pow2(l.align as int),
        l.align >= 1,
    ensures
        r == end_after(end, l),
{
    if l.align > 1 && l.align - 1 > u64::MAX - end {
        return u64::MAX;
    }
    let at: u64 = round_up(end, l.align);
    let size: u64 = if l.size >= 1 {
        l.size
    } else {
        1
    };
    if size > u64::MAX - at {
        return u64::MAX;
    }
    at + size
}

/// Where a field of layout `l` behind `end` starts.
pub open spec fn start_behind(end: u64, l: Layout) -> u64 {
    if up_fits(end as int, l.align as int) {
        up(end as int, l.align as int) as u64
    } else {
        u64::MAX
    }
}

pub(crate) fn field_start(end: u64, l: Layout) -> (r: u64)
    requires
        is_pow2(l.align as int),
        l.align >= 1,
    ensures
        r == start_behind(end, l),
{
    if l.align > 1 && l.align - 1 > u64::MAX - end {
        return u64::MAX;
    }
    round_up(end, l.align)
}

/// `i` elements of `stride` bytes, modulo the word size.
pub open spec fn index_bytes(i: usize, stride: u64) -> u64 {
    ((i * stride) % 0x1_0000_0000_0000_0000) as u64
}

/// `i` elements of `stride` bytes, modulo the word size.
pub(crate) fn scaled_index(i: usize, stride: u64) -> (r: u64)
    ensures
        r == index_bytes(i, stride),
{
    proof {
        assert(i * stride <= 0xFFFF_FFFF_FFFF_FFFF * 0xFFFF_FFFF_FFFF_FFFF) by (nonlinear_arith)
            requires
                0 <= i <= 0xFFFF_FFFF_FFFF_FFFF,
                0 <= stride <= 0xFFFF_FFFF_FFFF_FFFF,
        ;
    }
    (((i as u128) * (stride as u128)) % 0x1_0000_0000_0000_0000) as u64
}

impl Env {
    /// The bytes of a constant.
    pub open spec fn const_bytes(self, id: ConstId) -> Seq<u8> {
        match self.prog.consts@[id.0 as int] {
            ConstData::Bytes(b) => b@,
            ConstData::Aggregate(_) => Seq::empty(),
        }
    }

    /// Whether a constant has bytes.
    pub open spec fn has_bytes(self, id: ConstId) -> bool {
        self.prog.consts@[id.0 as int] is Bytes
    }

    /// The fields of a constant.
    pub open spec fn const_fields(self, id: ConstId) -> Seq<Operand> {
        match self.prog.consts@[id.0 as int] {
            ConstData::Bytes(_) => Seq::empty(),
            ConstData::Aggregate(f) => f@,
        }
    }

    /// What slice an operand is, if it is a constant one.
    pub open spec fn slice_const(self, op: Operand) -> SliceConst {
        match op {
            Operand::Copy(_) => SliceConst::No,
            Operand::Const(c) => match c {
                Const::Str(id) => if self.has_bytes(id) {
                    SliceConst::Bytes(id)
                } else {
                    SliceConst::No
                },
                Const::EmptySlice { .. } => SliceConst::Empty,
                _ => SliceConst::No,
            },
        }
    }

    /// The type of a field of an aggregate whose own type has no layout.
    pub open spec fn loose_field_type(self, kind: AggKind, f: Operand, ty: TypeId) -> TypeId {
        if is_str_const(f) {
            TypeId(T_STR)
        } else {
            match self.loose_elem(kind, ty) {
                Some(e) => e,
                None => match self.operand_type(f) {
                    Some(t) => t,
                    None => ty,
                },
            }
        }
    }

    /// The element type of an array without a layout.
    pub open spec fn loose_elem(self, kind: AggKind, ty: TypeId) -> Option<TypeId> {
        match kind {
            AggKind::Array => match self.ty(ty) {
                Type::Array { elem, .. } => Some(elem),
                _ => None,
            },
            _ => None,
        }
    }

    /// Builds the fields of an aggregate whose type has no layout, one behind the
    /// other.
    pub open spec fn loose_fields_from(
        self,
        s: LowState,
        home: i32,
        kind: AggKind,
        fields: Seq<Operand>,
        ty: TypeId,
        i: int,
        end: u64,
    ) -> LowState
        decreases fields.len() - i,
    {
        if i < 0 || i >= fields.len() {
            s
        } else {
            let fty = self.loose_field_type(kind, fields[i], ty);
            let l = self.layout(fty);
            let s = self.store_field_operand(
                s,
                sum32(home, start_behind(end, l) as i32),
                fields[i],
                fty,
            );
            if s.err is Some {
                s
            } else {
                self.loose_fields_from(s, home, kind, fields, ty, i + 1, end_after(end, l))
            }
        }
    }

    /// Builds the fields of an aggregate at the offsets of its type.
    pub open spec fn fields_from(
        self,
        s: LowState,
        home: i32,
        kind: AggKind,
        fields: Seq<Operand>,
        ty: TypeId,
        i: int,
    ) -> LowState
        decreases fields.len() - i,
    {
        if i < 0 || i >= fields.len() {
            s
        } else {
            let off = self.agg_offset(kind, fields.len() as usize, ty, i as usize);
            let fty = self.agg_field_type(kind, i as usize, ty);
            let s = self.store_field_operand(s, sum32(home, off as i32), fields[i], fty);
            if s.err is Some {
                s
            } else {
                self.fields_from(s, home, kind, fields, ty, i + 1)
            }
        }
    }

    /// Adds the fields of a packed struct to `rdx` from the `i`-th on.
    pub open spec fn packed_from(
        self,
        s: LowState,
        fields: Seq<Operand>,
        ty: TypeId,
        i: int,
    ) -> LowState
        decreases fields.len() - i,
    {
        if i < 0 || i >= fields.len() {
            s
        } else {
            let s = self.add_packed_field(s, fields[i], ty, i as usize);
            if s.err is Some {
                s
            } else {
                self.packed_from(s, fields, ty, i + 1)
            }
        }
    }

    /// The field of a struct type, where there is one.
    pub open spec fn struct_field(self, ty: TypeId, i: usize) -> Option<FieldInfo> {
        let f = fields_of(self.prog.arena, ty);
        if (i as int) < f.len() {
            Some(f[i as int])
        } else {
            None
        }
    }

    /// Whether a type is a packed struct.
    pub open spec fn is_packed(self, ty: TypeId) -> bool {
        match self.ty(ty) {
            Type::Struct(id) => self.prog.arena.structs@[id.0 as int].packed,
            _ => false,
        }
    }

    /// The offset of a field of an aggregate of `n` fields.
    pub open spec fn agg_offset(self, kind: AggKind, n: usize, ty: TypeId, i: usize) -> u64 {
        match kind {
            AggKind::Struct => self.field_offset_at(ty, i),
            AggKind::Array => index_bytes(i, stride(self.prog.arena, ty)),
            AggKind::Tuple => if offsets_of(
                self.prog.arena,
                fields_of(self.prog.arena, ty),
            ).len() == n {
                self.field_offset_at(ty, i)
            } else {
                index_bytes(i, 8)
            },
        }
    }

    /// The offset of a struct field; 0 where there is no such field.
    pub open spec fn field_offset_at(self, ty: TypeId, i: usize) -> u64 {
        let offs = offsets_of(self.prog.arena, fields_of(self.prog.arena, ty));
        if (i as int) < offs.len() {
            offs[i as int]
        } else {
            0
        }
    }

    /// The type of a field of an aggregate.
    pub open spec fn agg_field_type(self, kind: AggKind, i: usize, ty: TypeId) -> TypeId {
        match kind {
            AggKind::Array => match self.ty(ty) {
                Type::Array { elem, .. } => elem,
                Type::Vector { elem, .. } => elem,
                _ => ty,
            },
            _ => match self.struct_field(ty, i) {
                Some(f) => f.ty,
                None => ty,
            },
        }
    }
}

/// Whether an operand is a string constant.
pub open spec fn is_str_const(op: Operand) -> bool {
    match op {
        Operand::Copy(_) => false,
        Operand::Const(c) => c is Str,
    }
}

pub(crate) fn str_const(op: &Operand) -> (r: bool)
    ensures
        r == is_str_const(*op),
{
    match op {
        Operand::Copy(_) => false,
        Operand::Const(c) => match *c {
            Const::Str(_) => true,
            _ => false,
        },
    }
}

impl FnLower<'_> {
    pub(crate) fn const_bytes(&self, id: ConstId) -> (r: &Vec<u8>)
        requires
            id.0 < self.env().prog.consts@.len(),
            self.env().has_bytes(id),
        ensures
            r@ == self.env().const_bytes(id),
    {
        match &self.prog.consts[id.0 as usize] {
            ConstData::Bytes(b) => b,
            ConstData::Aggregate(_) => {
                assert(false);
                loop
                    invariant
                        false,
                    decreases 0int,
                {
                }
            },
        }
    }

    pub(crate) fn has_bytes(&self, id: ConstId) -> (r: bool)
        requires
            id.0 < self.env().prog.consts@.len(),
        ensures
            r == self.env().has_bytes(id),
    {
        match &self.prog.consts[id.0 as usize] {
            ConstData::Bytes(_) => true,
            ConstData::Aggregate(_) => false,
        }
    }

    pub(crate) fn slice_const(&self, op: &Operand) -> (r: SliceConst)
        requires
            self.env().operand_ok(*op),
        ensures
            r == self.env().slice_const(*op),
            r matches SliceConst::Bytes(id) ==> id.0 < self.env().prog.consts@.len()
                && self.env().has_bytes(id),
    {
        match op {
            Operand::Copy(_) => SliceConst::No,
            Operand::Const(c) => match *c {
                Const::Str(id) => if self.has_bytes(id) {
                    SliceConst::Bytes(id)
                } else {
                    SliceConst::No
                },
                Const::EmptySlice { .. } => SliceConst::Empty,
                _ => SliceConst::No,
            },
        }
    }

    fn loose_elem(&self, kind: AggKind, ty: TypeId) -> (r: Option<TypeId>)
        requires
            self.ok(),
            self.env().prog.arena.has(ty),
        ensures
            r == self.env().loose_elem(kind, ty),
            r matches Some(t) ==> self.env().prog.arena.has(t),
    {
        match kind {
            AggKind::Array => match self.ty(ty) {
                Type::Array { elem, .. } => Some(elem),
                _ => None,
            },
            _ => None,
        }
    }

    fn loose_field_type(&self, kind: AggKind, f: &Operand, ty: TypeId) -> (r: TypeId)
        requires
            self.ok(),
            self.env().prog.arena.has(ty),
            self.env().operand_ok(*f),
        ensures
            r == self.env().loose_field_type(kind, *f, ty),
            self.env().prog.arena.has(r),
    {
        if str_const(f) {
            return TypeId(T_STR);
        }
        match self.loose_elem(kind, ty) {
            Some(e) => e,
            None => match self.operand_type(f) {
                Some(t) => t,
                None => ty,
            },
        }
    }

    pub(crate) fn struct_field(&self, ty: TypeId, i: usize) -> (r: Option<FieldInfo>)
        requires
            self.ok(),
            self.env().prog.arena.has(ty),
        ensures
            r == self.env().struct_field(ty, i),
            r matches Some(f) ==> self.env().prog.arena.has(f.ty),
    {
        match self.ty(ty) {
            Type::Struct(id) => {
                if i < self.prog.arena.structs[id.0 as usize].fields.len() {
                    assert(self.prog.arena.has(
                        self.prog.arena.structs@[id.0 as int].fields@[i as int].ty,
                    ));
                    Some(self.prog.arena.structs[id.0 as usize].fields[i])
                } else {
                    None
                }
            },
            _ => None,
        }
    }

    fn is_packed(&self, ty: TypeId) -> (r: bool)
        requires
            self.ok(),
            self.env().prog.arena.has(ty),
        ensures
            r == self.env().is_packed(ty),
    {
        match self.ty(ty) {
            Type::Struct(id) => self.prog.arena.structs[id.0 as usize].packed,
            _ => false,
        }
    }

    fn agg_offset(&self, kind: AggKind, n: usize, ty: TypeId, i: usize) -> (r: u64)
        requires
            self.ok(),
            self.env().prog.arena.has(ty),
        ensures
            r == self.env().agg_offset(kind, n, ty, i),
    {
        assert(offsets_fit(self.prog.arena, ty));
        let offs = field_offsets(&self.prog.arena, ty);
        let at: u64 = if i < offs.len() {
            offs[i]
        } else {
            0
        };
        match kind {
            AggKind::Struct => at,
            AggKind::Array => scaled_index(i, elem_size(&self.prog.arena, ty)),
            AggKind::Tuple => if offs.len() == n {
                at
            } else {
                scaled_index(i, 8)
            },
        }
    }

    fn agg_field_type(&self, kind: AggKind, i: usize, ty: TypeId) -> (r: TypeId)
        requires
            self.ok(),
            self.env().prog.arena.has(ty),
        ensures
            r == self.env().agg_field_type(kind, i, ty),
            self.env().prog.arena.has(r),
    {
        match kind {
            AggKind::Array => match self.ty(ty) {
                Type::Array { elem, .. } => elem,
                Type::Vector { elem, .. } => elem,
                _ => ty,
            },
            _ => match self.struct_field(ty, i) {
                Some(f) => f.ty,
                None => ty,
            },
        }
    }

    fn build_loose_fields(
        &self,
        out: &mut Out,
        home: i32,
        kind: AggKind,
        fields: &Vec<Operand>,
        ty: TypeId,
    ) -> (r: Result<(), CodegenError>)
        requires
            self.ok(),
            old(out).ok(),
            self.env().operands_ok(fields@),
            self.env().prog.arena.has(ty),
        ensures
            lowered(
                r,
                final(out)@,
                self.env().loose_fields_from(old(out)@, home, kind, fields@, ty, 0, 0),
            ),
            r is Ok ==> final(out).ok() && grew(old(out)@.text.labels, final(out)@.text.labels),
    {
        let ghost l0 = out@.text.labels;
        let ghost want = self.env().loose_fields_from(out@, home, kind, fields@, ty, 0, 0);
        proof {
            grew_refl(l0);
        }
        let mut end: u64 = 0;
        let mut i: usize = 0;
        while i < fields.len()
            invariant
                self.ok(),
                out.ok(),
                self.env().operands_ok(fields@),
                self.env().prog.arena.has(ty),
                i <= fields@.len(),
                grew(l0, out@.text.labels),
                want == self.env().loose_fields_from(old(out)@, home, kind, fields@, ty, 0, 0),
                want == self.env().loose_fields_from(out@, home, kind, fields@, ty, i as int, end),
            decreases fields@.len() - i,
        {
            assert(self.env().operand_ok(fields@[i as int]));
            let fty: TypeId = self.loose_field_type(kind, &fields[i], ty);
            let l: Layout = self.layout(fty);
            let ghost k = out@.text.labels;
            match self.store_field_operand(
                out,
                plus(home, field_start(end, l) as i32),
                &fields[i],
                fty,
            ) {
                Ok(_) => {},
                Err(e) => {
                    return Err(e);
                },
            }
            proof {
                grew_trans(l0, k, out@.text.labels);
            }
            end = next_end(end, l);
            i = i + 1;
        }
        Ok(())
    }

    fn build_fields(
        &self,
        out: &mut Out,
        home: i32,
        kind: AggKind,
        fields: &Vec<Operand>,
        ty: TypeId,
    ) -> (r: Result<(), CodegenError>)
        requires
            self.ok(),
            old(out).ok(),
            self.env().operands_ok(fields@),
            self.env().prog.arena.has(ty),
        ensures
            lowered(
                r,
                final(out)@,
                self.env().fields_from(old(out)@, home, kind, fields@, ty, 0),
            ),
            r is Ok ==> final(out).ok() && grew(old(out)@.text.labels, final(out)@.text.labels),
    {
        let ghost l0 = out@.text.labels;
        let ghost want = self.env().fields_from(out@, home, kind, fields@, ty, 0);
        proof {
            grew_refl(l0);
        }
        let mut i: usize = 0;
        while i < fields.len()
            invariant
                self.ok(),
                out.ok(),
                self.env().operands_ok(fields@),
                self.env().prog.arena.has(ty),
                i <= fields@.len(),
                grew(l0, out@.text.labels),
                want == self.env().fields_from(old(out)@, home, kind, fields@, ty, 0),
                want == self.env().fields_from(out@, home, kind, fields@, ty, i as int),
            decreases fields@.len() - i,
        {
            assert(self.env().operand_ok(fields@[i as int]));
            let off: u64 = self.agg_offset(kind, fields.len(), ty, i);
            let fty: TypeId = self.agg_field_type(kind, i, ty);
            let ghost k = out@.text.labels;
            match self.store_field_operand(out, plus(home, off as i32), &fields[i], fty) {
                Ok(_) => {},
                Err(e) => {
                    return Err(e);
                },
            }
            proof {
                grew_trans(l0, k, out@.text.labels);
            }
            i = i + 1;
        }
        Ok(())
    }

    /// Builds an aggregate from the fields of a constant.
    fn build_const(&self, out: &mut Out, home: i32, id: ConstId, ty: TypeId) -> (r: Result<
        (),
        CodegenError,
    >)
        requires
            self.ok(),
            old(out).ok(),
            id.0 < self.env().prog.consts@.len(),
            !self.env().has_bytes(id),
            self.env().prog.arena.has(ty),
        ensures
            lowered(
                r,
                final(out)@,
                self.env().build_aggregate(
                    old(out)@,
                    home,
                    self.env().const_kind_of(ty),
                    self.env().const_fields(id),
                    ty,
                ),
            ),
            r is Ok ==> final(out).ok() && grew(old(out)@.text.labels, final(out)@.text.labels),
    {
        assert(self.env().prog.consts@[id.0 as int] == self.prog.consts@[id.0 as int]);
        match &self.prog.consts[id.0 as usize] {
            ConstData::Aggregate(f) => self.build_aggregate(
                out,
                home,
                self.const_kind_of(ty),
                f,
                ty,
            ),
            ConstData::Bytes(_) => {
                assert(false);
                Ok(())
            },
        }
    }

    fn add_packed_fields(&self, out: &mut Out, fields: &Vec<Operand>, ty: TypeId) -> (r: Result<
        (),
        CodegenError,
    >)
        requires
            self.ok(),
            old(out).ok(),
            self.env().operands_ok(fields@),
            self.env().prog.arena.has(ty),
        ensures
            lowered(r, final(out)@, self.env().packed_from(old(out)@, fields@, ty, 0)),
            r is Ok ==> final(out).ok() && grew(old(out)@.text.labels, final(out)@.text.labels),
    {
        let ghost l0 = out@.text.labels;
        let ghost want = self.env().packed_from(out@, fields@, ty, 0);
        proof {
            grew_refl(l0);
        }
        let mut i: usize = 0;
        while i < fields.len()
            invariant
                self.ok(),
                out.ok(),
                self.env().operands_ok(fields@),
                self.env().prog.arena.has(ty),
                i <= fields@.len(),
                grew(l0, out@.text.labels),
                want == self.env().packed_from(old(out)@, fields@, ty, 0),
                want == self.env().packed_from(out@, fields@, ty, i as int),
            decreases fields@.len() - i,
        {
            assert(self.env().operand_ok(fields@[i as int]));
            let ghost k = out@.text.labels;
            match self.add_packed_field(out, &fields[i], ty, i) {
                Ok(_) => {},
                Err(e) => {
                    return Err(e);
                },
            }
            proof {
                grew_trans(l0, k, out@.text.labels);
            }
            i = i + 1;
        }
        Ok(())
    }
}

impl Env {
    /// Stores the pointer and length of a string.
    #[verifier::opaque]
    pub open spec fn slice_words(self, s: LowState, base: Gpr, at: i32, id: ConstId) -> LowState {
        let off = s.ro.offset_of(self.const_bytes(id));
        let s = s.with_data(self.const_bytes(id));
        let s = s.on(s.text.mov_ri_data(Gpr::Rax, off));
        let s = s.on(s.text.mov_store_mem(base, at, Gpr::Rax));
        let s = s.on(s.text.mov_ri(Gpr::Rax, self.const_bytes(id).len() as i64));
        let s = s.on(s.text.mov_store_mem(base, sum32(at, 8), Gpr::Rax));
        s
    }

    /// Stores the pointer and length of an empty slice.
    #[verifier::opaque]
    pub open spec fn empty_slice_words(self, s: LowState, base: Gpr, at: i32) -> LowState {
        let s = s.on(s.text.mov_ri(Gpr::Rax, 0));
        let s = s.on(s.text.mov_store_mem(base, at, Gpr::Rax));
        let s = s.on(s.text.mov_ri(Gpr::Rax, 0));
        let s = s.on(s.text.mov_store_mem(base, sum32(at, 8), Gpr::Rax));
        s
    }

    /// Stores an operand as a field at a frame offset.
    #[verifier::opaque]
    pub open spec fn store_field_operand(
        self,
        s: LowState,
        at: i32,
        op: Operand,
        fty: TypeId,
    ) -> LowState {
        let s = if self.in_memory(fty) {
            let s = match op {
                Operand::Copy(p) => {
                    let s = self.place_addr_general(s, p, (p.proj@.len() as usize), Gpr::Rax);
                    if s.err is Some {
                        s
                    } else {
                        let s = s.on(s.text.lea_rbp(Gpr::R11, at));
                        let s = self.memcpy(s, Gpr::R11, Gpr::Rax, self.layout(fty).size);
                        s
                    }
                },
                Operand::Const(_) => {
                    let s = match self.slice_const(op) {
                        SliceConst::Bytes(id) => {
                            let s = self.slice_words(s, Gpr::Rbp, at, id);
                            s
                        },
                        SliceConst::Empty => {
                            let s = self.empty_slice_words(s, Gpr::Rbp, at);
                            s
                        },
                        SliceConst::No => {
                            s.fail(self.unsup("nested constant aggregate field"@))
                        },
                    };
                    s
                },
            };
            s
        } else if self.is_float(fty) {
            let s = self.load_float_operand(s, op, Xmm::Xmm0);
            if s.err is Some {
                s
            } else {
                let s = s.on(s.text.movsd_store(Gpr::Rbp, at, Xmm::Xmm0));
                s
            }
        } else if self.is_wide_int(fty) {
            let s = self.store_wide_int(s, at, op);
            s
        } else {
            let s = self.operand_to(s, op, Gpr::Rax);
            if s.err is Some {
                s
            } else {
                let s = self.normalize(s, Gpr::Rax, fty);
                let s = self.store_sized(s, Gpr::Rbp, at, Gpr::Rax, fty);
                s
            }
        };
        s
    }

    /// Adds a field of a packed struct to `rdx`.
    #[verifier::opaque]
    pub open spec fn add_packed_field(
        self,
        s: LowState,
        f: Operand,
        ty: TypeId,
        i: usize,
    ) -> LowState {
        let s = match self.struct_field(ty, i) {
            Some(field) => {
                let s = match field.bit_offset {
                    Some(off) => {
                        let s = match field.bit_width {
                            Some(width) => {
                                let s = if width != 0 {
                                    let s = self.operand_to(s, f, Gpr::Rax);
                                    if s.err is Some {
                                        s
                                    } else {
                                        let s = self.normalize(s, Gpr::Rax, field.ty);
                                        let mask = if width >= 64 { 0xFFFF_FFFF_FFFF_FFFFu64 } else { mask_of(width) };
                                        let s = self.mask_to(s, Gpr::Rax, mask);
                                        let s = if off != 0 {
                                            let s = s.on(s.text.shl_ri(Gpr::Rax, off as u8));
                                            s
                                        } else {
                                            s
                                        };
                                        let s = s.on(s.text.or_rr(Gpr::Rdx, Gpr::Rax));
                                        s
                                    }
                                } else {
                                    s
                                };
                                s
                            },
                            None => {
                                s
                            },
                        };
                        s
                    },
                    None => {
                        s
                    },
                };
                s
            },
            None => {
                s
            },
        };
        s
    }

    /// Builds a packed struct in one integer.
    #[verifier::opaque]
    pub open spec fn build_packed_aggregate(
        self,
        s: LowState,
        home: i32,
        fields: Seq<Operand>,
        ty: TypeId,
    ) -> LowState {
        let size = self.layout(ty).size;
        let s = if size > 8 {
            s.fail(self.unsup("packed struct literal wider than 64 bits"@))
        } else {
            let s = s.on(s.text.mov_ri(Gpr::Rdx, 0));
            let s = self.packed_from(s, fields, ty, 0);
            if s.err is Some {
                s
            } else {
                let s = if size == 1 {
                    let s = s.on(s.text.mov_store8_mem(Gpr::Rbp, home, Gpr::Rdx));
                    s
                } else if size == 2 {
                    let s = s.on(s.text.mov_store16_mem(Gpr::Rbp, home, Gpr::Rdx));
                    s
                } else if size == 4 {
                    let s = s.on(s.text.mov_store32_mem(Gpr::Rbp, home, Gpr::Rdx));
                    s
                } else {
                    let s = s.on(s.text.mov_store_mem(Gpr::Rbp, home, Gpr::Rdx));
                    s
                };
                s
            }
        };
        s
    }

    /// Whether a type is a vector of floats.
    pub open spec fn is_float_vector(self, ty: TypeId) -> bool {
        match self.ty(ty) {
            Type::Vector { elem, .. } => self.is_float(elem),
            _ => false,
        }
    }

    /// Builds an aggregate field by field.
    #[verifier::opaque]
    pub open spec fn build_aggregate(
        self,
        s: LowState,
        home: i32,
        kind: AggKind,
        fields: Seq<Operand>,
        ty: TypeId,
    ) -> LowState {
        let s = if self.is_float_vector(ty) {
            s.fail(self.unsup("float-element @Vector on the native backend"@))
        } else if kind == AggKind::Struct && self.is_packed(ty) {
            let s = self.build_packed_aggregate(s, home, fields, ty);
            s
        } else if self.layout_opt(ty).is_none() {
            let s = self.loose_fields_from(s, home, kind, fields, ty, 0, 0);
            s
        } else {
            let s = self.fields_from(s, home, kind, fields, ty, 0);
            s
        };
        s
    }

    /// The kind of aggregate that a constant of a type is.
    pub open spec fn const_kind_of(self, ty: TypeId) -> AggKind {
        match self.ty(ty) {
            Type::Array { .. } => AggKind::Array,
            _ => AggKind::Struct,
        }
    }

    /// Builds an error.
    #[verifier::opaque]
    pub open spec fn build_make_err(self, s: LowState, home: i32, tag: u16) -> LowState {
        let s = s.on(s.text.mov_ri(Gpr::Rax, tag as i64));
        let s = s.on(s.text.mov_store16_mem(Gpr::Rbp, home, Gpr::Rax));
        s
    }

    /// The payload type of an optional.
    pub open spec fn optional_inner(self, ty: TypeId) -> TypeId {
        match self.ty(ty) {
            Type::Optional(i) => i,
            _ => ty,
        }
    }

    /// The payload type of an error union.
    pub open spec fn error_union_ok(self, ty: TypeId) -> TypeId {
        match self.ty(ty) {
            Type::ErrorUnion { ok } => ok,
            _ => ty,
        }
    }

    /// The offset of the payload of an error union.
    pub open spec fn payload_offset(self, ty: TypeId) -> i32 {
        error_payload(self.prog.arena, ty) as u64 as i32
    }

    /// Builds an optional with a value.
    #[verifier::opaque]
    pub open spec fn build_make_some(
        self,
        s: LowState,
        home: i32,
        op: Operand,
        oty: TypeId,
    ) -> LowState {
        let inner = self.optional_inner(oty);
        let s = if self.is_pointer(inner) {
            let s = self.operand_to(s, op, Gpr::Rax);
            if s.err is Some {
                s
            } else {
                let s = s.on(s.text.mov_store(home, Gpr::Rax));
                s
            }
        } else {
            let s = self.store_field_operand(s, home, op, inner);
            if s.err is Some {
                s
            } else {
                let s = s.on(s.text.mov_ri(Gpr::Rax, 1));
                let s = s.on(
                    s.text.mov_store8_mem(Gpr::Rbp, sum32(home, self.flag_offset(oty)), Gpr::Rax),
                );
                s
            }
        };
        s
    }

    /// Builds an optional without a value.
    #[verifier::opaque]
    pub open spec fn build_make_null(self, s: LowState, home: i32, oty: TypeId) -> LowState {
        let s = if self.is_pointer(self.optional_inner(oty)) {
            let s = s.on(s.text.mov_ri(Gpr::Rax, 0));
            let s = s.on(s.text.mov_store(home, Gpr::Rax));
            s
        } else {
            let s = s.on(s.text.lea_rbp(Gpr::R11, home));
            let s = self.zero_bytes(s, Gpr::R11, self.layout(oty).size);
            s
        };
        s
    }

    /// Builds an error union with a value.
    #[verifier::opaque]
    pub open spec fn build_make_ok(
        self,
        s: LowState,
        home: i32,
        op: Operand,
        ety: TypeId,
    ) -> LowState {
        let ok_ty = self.error_union_ok(ety);
        let s = s.on(s.text.mov_ri(Gpr::Rax, 0));
        let s = s.on(s.text.mov_store16_mem(Gpr::Rbp, home, Gpr::Rax));
        let s = if self.ty(ok_ty) != Type::Void {
            let s = self.store_field_operand(s, sum32(home, self.payload_offset(ety)), op, ok_ty);
            s
        } else {
            s
        };
        s
    }

    /// Builds a constant `c`, which is the operand `op`.
    #[verifier::opaque]
    pub open spec fn materialize_const_aggregate(
        self,
        s: LowState,
        home: i32,
        op: Operand,
        c: Const,
        ty: TypeId,
    ) -> LowState {
        let s = match c {
            Const::Str(id) => {
                let s = if self.has_bytes(id) {
                    let off = s.ro.offset_of(self.const_bytes(id));
                    let s = s.with_data(self.const_bytes(id));
                    let s = s.on(s.text.mov_ri_data(Gpr::Rax, off));
                    let s = s.on(s.text.mov_store(home, Gpr::Rax));
                    let s = s.on(s.text.mov_ri(Gpr::Rax, self.const_bytes(id).len() as i64));
                    let s = s.on(s.text.mov_store(sum32(home, 8), Gpr::Rax));
                    s
                } else {
                    s.fail(self.unsup("string const backed by an aggregate"@))
                };
                s
            },
            Const::EmptySlice { .. } => {
                let s = s.on(s.text.mov_ri(Gpr::Rax, 0));
                let s = s.on(s.text.mov_store(home, Gpr::Rax));
                let s = s.on(s.text.mov_store(sum32(home, 8), Gpr::Rax));
                s
            },
            Const::Aggregate { id, ty: aty } => {
                let s = if self.has_bytes(id) {
                    s.fail(self.unsup("aggregate const backed by bytes"@))
                } else {
                    let s = self.build_aggregate(
                        s,
                        home,
                        self.const_kind_of(aty),
                        self.const_fields(id),
                        aty,
                    );
                    s
                };
                s
            },
            Const::Undef { .. } => {
                s
            },
            Const::Void => {
                let s = if self.is_error_union(ty) {
                    let s = s.on(s.text.mov_ri(Gpr::Rax, 0));
                    let s = s.on(s.text.mov_store16_mem(Gpr::Rbp, home, Gpr::Rax));
                    s
                } else {
                    s
                };
                s
            },
            Const::ErrVal { tag, .. } => {
                let s = self.build_make_err(s, home, tag.0);
                s
            },
            Const::EnumVal { .. } => {
                s.fail(
                    self.unsup(
                        "const aggregate "@ + shown_const(c) + " of type "@ + shown_type(
                            self.ty(ty),
                        ),
                    ),
                )
            },
            _ => {
                let s = match self.ty(ty) {
                    Type::Optional(_) => {
                        let s = self.build_make_some(s, home, op, ty);
                        s
                    },
                    Type::ErrorUnion { .. } => {
                        let s = self.build_make_ok(s, home, op, ty);
                        s
                    },
                    _ => {
                        s.fail(self.unsup("scalar constant into a non-optional aggregate"@))
                    },
                };
                s
            },
        };
        s
    }

    /// Copies an operand into the home of an aggregate; a scalar becomes the value of
    /// an optional or error union.
    #[verifier::opaque]
    pub open spec fn aggregate_use(
        self,
        s: LowState,
        home: i32,
        op: Operand,
        ty: TypeId,
    ) -> LowState {
        let s = match op {
            Operand::Copy(p) => {
                let src_ty = self.place_type(p);
                let coercible = !self.in_memory(src_ty) && !self.is_wide_int(src_ty);
                let s = if coercible && self.is_flagged_optional(ty) {
                    let s = self.build_make_some(s, home, op, ty);
                    s
                } else if coercible && self.is_error_union(ty) {
                    let s = self.build_make_ok(s, home, op, ty);
                    s
                } else if p.proj@.len() == 0 && self.home(p.base).is_none() {
                    let s = self.operand_to(s, op, Gpr::Rax);
                    if s.err is Some {
                        s
                    } else {
                        let s = s.on(s.text.mov_store(home, Gpr::Rax));
                        s
                    }
                } else {
                    let s = self.place_addr_general(s, p, (p.proj@.len() as usize), Gpr::Rax);
                    if s.err is Some {
                        s
                    } else {
                        let s = s.on(s.text.lea_rbp(Gpr::R11, home));
                        let s = self.memcpy(s, Gpr::R11, Gpr::Rax, self.layout(ty).size);
                        s
                    }
                };
                s
            },
            Operand::Const(c) => {
                let s = self.materialize_const_aggregate(s, home, op, c, ty);
                s
            },
        };
        s
    }

    /// Whether a type is an optional with a flag.
    pub open spec fn is_flagged_optional(self, ty: TypeId) -> bool {
        match self.ty(ty) {
            Type::Optional(inner) => !self.is_pointer(inner),
            _ => false,
        }
    }

    /// Puts the data pointer of a slice under construction into `dst`.
    #[verifier::opaque]
    pub open spec fn slice_data_ptr(self, s: LowState, ptr: Operand, dst: Gpr) -> LowState {
        let s = match ptr {
            Operand::Copy(p) => {
                let s = match self.ty(self.place_type(p)) {
                    Type::Slice { .. } => {
                        let s = self.place_addr_general(s, p, (p.proj@.len() as usize), dst);
                        if s.err is Some {
                            s
                        } else {
                            let s = s.on(s.text.mov_load_mem(dst, dst, 0));
                            s
                        }
                    },
                    Type::Array { .. } => {
                        let s = self.place_addr_general(s, p, (p.proj@.len() as usize), dst);
                        s
                    },
                    _ => {
                        let s = self.load_place_scalar(s, p, dst);
                        s
                    },
                };
                s
            },
            Operand::Const(c) => {
                let s = match c {
                    Const::Str(_) => {
                        s.fail(self.unsup("MakeSlice from a string constant"@))
                    },
                    _ => {
                        s.fail(self.unsup("MakeSlice from a non-place constant pointer"@))
                    },
                };
                s
            },
        };
        s
    }

    /// The stride of the elements of a container.
    pub open spec fn elem_bytes(self, ty: TypeId) -> u64 {
        stride(self.prog.arena, ty)
    }

    /// Puts the pointer to an element of a slice under construction into `rax`.
    #[verifier::opaque]
    pub open spec fn slice_pointer(
        self,
        s: LowState,
        ptr: Operand,
        offset: Operand,
        ty: TypeId,
    ) -> LowState {
        let s = self.slice_data_ptr(s, ptr, Gpr::Rax);
        if s.err is Some {
            s
        } else {
            let s = self.operand_to(s, offset, Gpr::Rcx);
            if s.err is Some {
                s
            } else {
                let s = self.scale(s, Gpr::Rcx, self.elem_bytes(ty));
                let s = s.on(s.text.add_rr(Gpr::Rax, Gpr::Rcx));
                s
            }
        }
    }

    /// Builds a slice.
    #[verifier::opaque]
    pub open spec fn build_make_slice(
        self,
        s: LowState,
        home: i32,
        ptr: Operand,
        offset: Operand,
        len: Operand,
        ty: TypeId,
    ) -> LowState {
        let s = self.slice_pointer(s, ptr, offset, ty);
        if s.err is Some {
            s
        } else {
            let s = s.on(s.text.mov_store(home, Gpr::Rax));
            let s = self.operand_to(s, len, Gpr::Rax);
            if s.err is Some {
                s
            } else {
                let s = s.on(s.text.mov_store(sum32(home, 8), Gpr::Rax));
                s
            }
        }
    }

    /// Builds a slice in a part of a local.
    #[verifier::opaque]
    pub open spec fn store_make_slice_to_place(
        self,
        s: LowState,
        place: Place,
        ptr: Operand,
        offset: Operand,
        len: Operand,
        sty: TypeId,
    ) -> LowState {
        let s = self.slice_pointer(s, ptr, offset, sty);
        if s.err is Some {
            s
        } else {
            let s = self.operand_to(s, len, Gpr::Rdx);
            if s.err is Some {
                s
            } else {
                let s = self.place_addr(s, place, (place.proj@.len() as usize), Gpr::R11);
                if s.err is Some {
                    s
                } else {
                    let s = s.on(s.text.mov_store_mem(Gpr::R11, 0, Gpr::Rax));
                    let s = s.on(s.text.mov_store_mem(Gpr::R11, 8, Gpr::Rdx));
                    s
                }
            }
        }
    }

    /// Computes a scalar as the value of an optional or error union.
    #[verifier::opaque]
    pub open spec fn scalar_rvalue_into_aggregate(
        self,
        s: LowState,
        home: i32,
        rvalue: Rvalue,
        ty: TypeId,
    ) -> LowState {
        let s = match self.ty(ty) {
            Type::Optional(inner) => {
                let s = if self.is_pointer(inner) {
                    s.fail(self.unsup("scalar rvalue into a pointer-niche optional"@))
                } else {
                    let s = self.eval_scalar_rvalue_into_rax(s, rvalue, inner);
                    if s.err is Some {
                        s
                    } else {
                        let s = self.store_sized(s, Gpr::Rbp, home, Gpr::Rax, inner);
                        let s = s.on(s.text.mov_ri(Gpr::Rax, 1));
                        let s = s.on(
                            s.text.mov_store8_mem(
                                Gpr::Rbp,
                                sum32(home, self.flag_offset(ty)),
                                Gpr::Rax,
                            ),
                        );
                        s
                    }
                };
                s
            },
            Type::ErrorUnion { ok } => {
                let s = self.eval_scalar_rvalue_into_rax(s, rvalue, ok);
                if s.err is Some {
                    s
                } else {
                    let s = self.store_sized(
                        s,
                        Gpr::Rbp,
                        sum32(home, self.payload_offset(ty)),
                        Gpr::Rax,
                        ok,
                    );
                    let s = s.on(s.text.mov_ri(Gpr::Rax, 0));
                    let s = s.on(s.text.mov_store16_mem(Gpr::Rbp, home, Gpr::Rax));
                    s
                }
            },
            _ => {
                s.fail(self.unsup("scalar rvalue into a non-optional/-error-union aggregate"@))
            },
        };
        s
    }

    /// Stores an aggregate in a part of a local.
    #[verifier::opaque]
    pub open spec fn store_aggregate_rvalue_to_place(
        self,
        s: LowState,
        place: Place,
        rvalue: Rvalue,
        ty: TypeId,
    ) -> LowState {
        let s = match rvalue {
            Rvalue::Use(op) => {
                let s = match op {
                    Operand::Copy(p) => {
                        let s = self.place_addr_general(s, p, (p.proj@.len() as usize), Gpr::Rax);
                        if s.err is Some {
                            s
                        } else {
                            let s = self.place_addr(
                                s,
                                place,
                                (place.proj@.len() as usize),
                                Gpr::R11,
                            );
                            if s.err is Some {
                                s
                            } else {
                                let s = self.memcpy(s, Gpr::R11, Gpr::Rax, self.layout(ty).size);
                                s
                            }
                        }
                    },
                    Operand::Const(_) => {
                        s.fail(self.unsup("aggregate rvalue into a projected place"@))
                    },
                };
                s
            },
            Rvalue::MakeSlice { ptr, offset, len, ty: sty } => {
                let s = self.store_make_slice_to_place(s, place, ptr, offset, len, sty);
                s
            },
            _ => {
                s.fail(self.unsup("aggregate rvalue into a projected place"@))
            },
        };
        s
    }
}

impl FnLower<'_> {
    /// Stores the pointer and length of a string.
    pub(crate) fn slice_words(&self, out: &mut Out, base: Gpr, at: i32, id: ConstId)
        requires
            self.ok(),
            old(out).ok(),
            id.0 < self.env().prog.consts@.len(),
            self.env().has_bytes(id),
        ensures
            final(out)@ == self.env().slice_words(old(out)@, base, at, id),
            final(out).ok(),
            grew(old(out)@.text.labels, final(out)@.text.labels),
    {
        let ghost l0 = out@.text.labels;
        proof {
            reveal(Env::slice_words);
            grew_refl(l0);
        }
        let off: u32 = out.ro.intern(self.const_bytes(id).as_slice());
        out.text.mov_ri_data(Gpr::Rax, off);
        out.text.mov_store_mem(base, at, Gpr::Rax);
        out.text.mov_ri(Gpr::Rax, self.const_bytes(id).len() as i64);
        out.text.mov_store_mem(base, plus(at, 8), Gpr::Rax);
    }

    /// Stores the pointer and length of an empty slice.
    pub(crate) fn empty_slice_words(&self, out: &mut Out, base: Gpr, at: i32)
        requires
            self.ok(),
            old(out).ok(),
        ensures
            final(out)@ == self.env().empty_slice_words(old(out)@, base, at),
            final(out).ok(),
            grew(old(out)@.text.labels, final(out)@.text.labels),
    {
        let ghost l0 = out@.text.labels;
        proof {
            reveal(Env::empty_slice_words);
            grew_refl(l0);
        }
        out.text.mov_ri(Gpr::Rax, 0);
        out.text.mov_store_mem(base, at, Gpr::Rax);
        out.text.mov_ri(Gpr::Rax, 0);
        out.text.mov_store_mem(base, plus(at, 8), Gpr::Rax);
    }

    /// Stores an operand as a field at a frame offset.
    pub(crate) fn store_field_operand(
        &self,
        out: &mut Out,
        at: i32,
        op: &Operand,
        fty: TypeId,
    ) -> (r: Result<(), CodegenError>)
        requires
            self.ok(),
            old(out).ok(),
            self.env().operand_ok(*op),
            self.env().prog.arena.has(fty),
        ensures
            lowered(r, final(out)@, self.env().store_field_operand(old(out)@, at, *op, fty)),
            r is Ok ==> final(out).ok() && grew(old(out)@.text.labels, final(out)@.text.labels),
    {
        let ghost l0 = out@.text.labels;
        proof {
            reveal(Env::store_field_operand);
            grew_refl(l0);
        }
        if self.in_memory(fty) {
            match op {
                Operand::Copy(p) => {
                    let ghost k1 = out@.text.labels;
                    match self.place_addr_general(out, p, p.proj.len(), Gpr::Rax) {
                        Ok(_) => {},
                        Err(e) => {
                            return Err(e);
                        },
                    }
                    proof {
                        grew_trans(l0, k1, out@.text.labels);
                    }
                    out.text.lea_rbp(Gpr::R11, at);
                    let ghost k2 = out@.text.labels;
                    self.memcpy(out, Gpr::R11, Gpr::Rax, self.layout(fty).size);
                    proof {
                        grew_trans(l0, k2, out@.text.labels);
                    }
                },
                Operand::Const(_) => {
                    match self.slice_const(op) {
                        SliceConst::Bytes(id) => {
                            let ghost k3 = out@.text.labels;
                            self.slice_words(out, Gpr::Rbp, at, id);
                            proof {
                                grew_trans(l0, k3, out@.text.labels);
                            }
                        },
                        SliceConst::Empty => {
                            let ghost k4 = out@.text.labels;
                            self.empty_slice_words(out, Gpr::Rbp, at);
                            proof {
                                grew_trans(l0, k4, out@.text.labels);
                            }
                        },
                        SliceConst::No => {
                            return Err(self.unsup("nested constant aggregate field"));
                        },
                    }
                },
            }
        } else if self.is_float(fty) {
            let ghost k5 = out@.text.labels;
            match self.load_float_operand(out, op, Xmm::Xmm0) {
                Ok(_) => {},
                Err(e) => {
                    return Err(e);
                },
            }
            proof {
                grew_trans(l0, k5, out@.text.labels);
            }
            out.text.movsd_store(Gpr::Rbp, at, Xmm::Xmm0);
        } else if self.is_wide_int(fty) {
            let ghost k6 = out@.text.labels;
            match self.store_wide_int(out, at, op) {
                Ok(_) => {},
                Err(e) => {
                    return Err(e);
                },
            }
            proof {
                grew_trans(l0, k6, out@.text.labels);
            }
        } else {
            let ghost k7 = out@.text.labels;
            match self.operand_to(out, op, Gpr::Rax) {
                Ok(_) => {},
                Err(e) => {
                    return Err(e);
                },
            }
            proof {
                grew_trans(l0, k7, out@.text.labels);
            }
            let ghost k8 = out@.text.labels;
            self.normalize(out, Gpr::Rax, fty);
            proof {
                grew_trans(l0, k8, out@.text.labels);
            }
            let ghost k9 = out@.text.labels;
            self.store_sized(out, Gpr::Rbp, at, Gpr::Rax, fty);
            proof {
                grew_trans(l0, k9, out@.text.labels);
            }
        }
        Ok(())
    }

    /// Adds a field of a packed struct to `rdx`.
    pub(crate) fn add_packed_field(
        &self,
        out: &mut Out,
        f: &Operand,
        ty: TypeId,
        i: usize,
    ) -> (r: Result<(), CodegenError>)
        requires
            self.ok(),
            old(out).ok(),
            self.env().operand_ok(*f),
            self.env().prog.arena.has(ty),
        ensures
            lowered(r, final(out)@, self.env().add_packed_field(old(out)@, *f, ty, i)),
            r is Ok ==> final(out).ok() && grew(old(out)@.text.labels, final(out)@.text.labels),
    {
        let ghost l0 = out@.text.labels;
        proof {
            reveal(Env::add_packed_field);
            grew_refl(l0);
        }
        match self.struct_field(ty, i) {
            Some(field) => {
                match field.bit_offset {
                    Some(off) => {
                        match field.bit_width {
                            Some(width) => {
                                if width != 0 {
                                    let ghost k10 = out@.text.labels;
                                    match self.operand_to(out, f, Gpr::Rax) {
                                        Ok(_) => {},
                                        Err(e) => {
                                            return Err(e);
                                        },
                                    }
                                    proof {
                                        grew_trans(l0, k10, out@.text.labels);
                                    }
                                    let ghost k11 = out@.text.labels;
                                    self.normalize(out, Gpr::Rax, field.ty);
                                    proof {
                                        grew_trans(l0, k11, out@.text.labels);
                                    }
                                    let mask: u64 = if width >= 64 { 0xFFFF_FFFF_FFFF_FFFFu64 } else { low_mask(width) };
                                    let ghost k12 = out@.text.labels;
                                    self.mask_to(out, Gpr::Rax, mask);
                                    proof {
                                        grew_trans(l0, k12, out@.text.labels);
                                    }
                                    if off != 0 {
                                        out.text.shl_ri(Gpr::Rax, off as u8);
                                    }
                                    out.text.or_rr(Gpr::Rdx, Gpr::Rax);
                                }
                            },
                            None => {},
                        }
                    },
                    None => {},
                }
            },
            None => {},
        }
        Ok(())
    }

    /// Builds a packed struct in one integer.
    pub(crate) fn build_packed_aggregate(
        &self,
        out: &mut Out,
        home: i32,
        fields: &Vec<Operand>,
        ty: TypeId,
    ) -> (r: Result<(), CodegenError>)
        requires
            self.ok(),
            old(out).ok(),
            self.env().operands_ok(fields@),
            self.env().prog.arena.has(ty),
        ensures
            lowered(
                r,
                final(out)@,
                self.env().build_packed_aggregate(old(out)@, home, fields@, ty),
            ),
            r is Ok ==> final(out).ok() && grew(old(out)@.text.labels, final(out)@.text.labels),
    {
        let ghost l0 = out@.text.labels;
        proof {
            reveal(Env::build_packed_aggregate);
            grew_refl(l0);
        }
        let size: u64 = self.layout(ty).size;
        if size > 8 {
            return Err(self.unsup("packed struct literal wider than 64 bits"));
        } else {
            out.text.mov_ri(Gpr::Rdx, 0);
            let ghost k13 = out@.text.labels;
            match self.add_packed_fields(out, fields, ty) {
                Ok(_) => {},
                Err(e) => {
                    return Err(e);
                },
            }
            proof {
                grew_trans(l0, k13, out@.text.labels);
            }
            if size == 1 {
                out.text.mov_store8_mem(Gpr::Rbp, home, Gpr::Rdx);
            } else if size == 2 {
                out.text.mov_store16_mem(Gpr::Rbp, home, Gpr::Rdx);
            } else if size == 4 {
                out.text.mov_store32_mem(Gpr::Rbp, home, Gpr::Rdx);
            } else {
                out.text.mov_store_mem(Gpr::Rbp, home, Gpr::Rdx);
            }
        }
        Ok(())
    }

    /// Whether a type is a vector of floats.
    pub(crate) fn is_float_vector(&self, ty: TypeId) -> (r: bool)
        requires
            self.ok(),
            self.env().prog.arena.has(ty),
        ensures
            r == self.env().is_float_vector(ty),
    {
        match self.ty(ty) {
            Type::Vector { elem, .. } => self.is_float(elem),
            _ => false,
        }
    }

    /// Builds an aggregate field by field.
    pub(crate) fn build_aggregate(
        &self,
        out: &mut Out,
        home: i32,
        kind: AggKind,
        fields: &Vec<Operand>,
        ty: TypeId,
    ) -> (r: Result<(), CodegenError>)
        requires
            self.ok(),
            old(out).ok(),
            self.env().operands_ok(fields@),
            self.env().prog.arena.has(ty),
        ensures
            lowered(r, final(out)@, self.env().build_aggregate(old(out)@, home, kind, fields@, ty)),
            r is Ok ==> final(out).ok() && grew(old(out)@.text.labels, final(out)@.text.labels),
    {
        let ghost l0 = out@.text.labels;
        proof {
            reveal(Env::build_aggregate);
            grew_refl(l0);
        }
        if self.is_float_vector(ty) {
            return Err(self.unsup("float-element @Vector on the native backend"));
        } else if kind == AggKind::Struct && self.is_packed(ty) {
            let ghost k14 = out@.text.labels;
            match self.build_packed_aggregate(out, home, fields, ty) {
                Ok(_) => {},
                Err(e) => {
                    return Err(e);
                },
            }
            proof {
                grew_trans(l0, k14, out@.text.labels);
            }
        } else if self.layout_opt(ty).is_none() {
            let ghost k15 = out@.text.labels;
            match self.build_loose_fields(out, home, kind, fields, ty) {
                Ok(_) => {},
                Err(e) => {
                    return Err(e);
                },
            }
            proof {
                grew_trans(l0, k15, out@.text.labels);
            }
        } else {
            let ghost k16 = out@.text.labels;
            match self.build_fields(out, home, kind, fields, ty) {
                Ok(_) => {},
                Err(e) => {
                    return Err(e);
                },
            }
            proof {
                grew_trans(l0, k16, out@.text.labels);
            }
        }
        Ok(())
    }

    /// The kind of aggregate that a constant of a type is.
    pub(crate) fn const_kind_of(&self, ty: TypeId) -> (r: AggKind)
        requires
            self.ok(),
            self.env().prog.arena.has(ty),
        ensures
            r == self.env().const_kind_of(ty),
    {
        match self.ty(ty) {
            Type::Array { .. } => AggKind::Array,
            _ => AggKind::Struct,
        }
    }

    /// Builds an error.
    pub(crate) fn build_make_err(&self, out: &mut Out, home: i32, tag: u16)
        requires
            self.ok(),
            old(out).ok(),
        ensures
            final(out)@ == self.env().build_make_err(old(out)@, home, tag),
            final(out).ok(),
            grew(old(out)@.text.labels, final(out)@.text.labels),
    {
        let ghost l0 = out@.text.labels;
        proof {
            reveal(Env::build_make_err);
            grew_refl(l0);
        }
        out.text.mov_ri(Gpr::Rax, tag as i64);
        out.text.mov_store16_mem(Gpr::Rbp, home, Gpr::Rax);
    }

    /// The payload type of an optional.
    pub(crate) fn optional_inner(&self, ty: TypeId) -> (r: TypeId)
        requires
            self.ok(),
            self.env().prog.arena.has(ty),
        ensures
            r == self.env().optional_inner(ty),
            self.env().prog.arena.has(r),
    {
        match self.ty(ty) {
            Type::Optional(i) => i,
            _ => ty,
        }
    }

    /// The payload type of an error union.
    pub(crate) fn error_union_ok(&self, ty: TypeId) -> (r: TypeId)
        requires
            self.ok(),
            self.env().prog.arena.has(ty),
        ensures
            r == self.env().error_union_ok(ty),
            self.env().prog.arena.has(r),
    {
        match self.ty(ty) {
            Type::ErrorUnion { ok } => ok,
            _ => ty,
        }
    }

    /// The offset of the payload of an error union.
    pub(crate) fn payload_offset(&self, ty: TypeId) -> (r: i32)
        requires
            self.ok(),
            self.env().prog.arena.has(ty),
        ensures
            r == self.env().payload_offset(ty),
    {
        error_union_payload_off(&self.prog.arena, ty) as i32
    }

    /// Builds an optional with a value.
    pub(crate) fn build_make_some(
        &self,
        out: &mut Out,
        home: i32,
        op: &Operand,
        oty: TypeId,
    ) -> (r: Result<(), CodegenError>)
        requires
            self.ok(),
            old(out).ok(),
            self.env().operand_ok(*op),
            self.env().prog.arena.has(oty),
        ensures
            lowered(r, final(out)@, self.env().build_make_some(old(out)@, home, *op, oty)),
            r is Ok ==> final(out).ok() && grew(old(out)@.text.labels, final(out)@.text.labels),
    {
        let ghost l0 = out@.text.labels;
        proof {
            reveal(Env::build_make_some);
            grew_refl(l0);
        }
        let inner: TypeId = self.optional_inner(oty);
        if self.is_pointer(inner) {
            let ghost k17 = out@.text.labels;
            match self.operand_to(out, op, Gpr::Rax) {
                Ok(_) => {},
                Err(e) => {
                    return Err(e);
                },
            }
            proof {
                grew_trans(l0, k17, out@.text.labels);
            }
            out.text.mov_store(home, Gpr::Rax);
        } else {
            let ghost k18 = out@.text.labels;
            match self.store_field_operand(out, home, op, inner) {
                Ok(_) => {},
                Err(e) => {
                    return Err(e);
                },
            }
            proof {
                grew_trans(l0, k18, out@.text.labels);
            }
            out.text.mov_ri(Gpr::Rax, 1);
            out.text.mov_store8_mem(Gpr::Rbp, plus(home, self.flag_offset(oty)), Gpr::Rax);
        }
        Ok(())
    }

    /// Builds an optional without a value.
    pub(crate) fn build_make_null(
        &self,
        out: &mut Out,
        home: i32,
        oty: TypeId,
    ) -> (r: Result<(), CodegenError>)
        requires
            self.ok(),
            old(out).ok(),
            self.env().prog.arena.has(oty),
        ensures
            lowered(r, final(out)@, self.env().build_make_null(old(out)@, home, oty)),
            r is Ok ==> final(out).ok() && grew(old(out)@.text.labels, final(out)@.text.labels),
    {
        let ghost l0 = out@.text.labels;
        proof {
            reveal(Env::build_make_null);
            grew_refl(l0);
        }
        if self.is_pointer(self.optional_inner(oty)) {
            out.text.mov_ri(Gpr::Rax, 0);
            out.text.mov_store(home, Gpr::Rax);
        } else {
            out.text.lea_rbp(Gpr::R11, home);
            let ghost k19 = out@.text.labels;
            self.zero_bytes(out, Gpr::R11, self.layout(oty).size);
            proof {
                grew_trans(l0, k19, out@.text.labels);
            }
        }
        Ok(())
    }

    /// Builds an error union with a value.
    pub(crate) fn build_make_ok(
        &self,
        out: &mut Out,
        home: i32,
        op: &Operand,
        ety: TypeId,
    ) -> (r: Result<(), CodegenError>)
        requires
            self.ok(),
            old(out).ok(),
            self.env().operand_ok(*op),
            self.env().prog.arena.has(ety),
        ensures
            lowered(r, final(out)@, self.env().build_make_ok(old(out)@, home, *op, ety)),
            r is Ok ==> final(out).ok() && grew(old(out)@.text.labels, final(out)@.text.labels),
    {
        let ghost l0 = out@.text.labels;
        proof {
            reveal(Env::build_make_ok);
            grew_refl(l0);
        }
        let ok_ty: TypeId = self.error_union_ok(ety);
        out.text.mov_ri(Gpr::Rax, 0);
        out.text.mov_store16_mem(Gpr::Rbp, home, Gpr::Rax);
        if self.ty(ok_ty) != Type::Void {
            let ghost k20 = out@.text.labels;
            match self.store_field_operand(out, plus(home, self.payload_offset(ety)), op, ok_ty) {
                Ok(_) => {},
                Err(e) => {
                    return Err(e);
                },
            }
            proof {
                grew_trans(l0, k20, out@.text.labels);
            }
        }
        Ok(())
    }

    /// Builds a constant `c`, which is the operand `op`.
    pub(crate) fn materialize_const_aggregate(
        &self,
        out: &mut Out,
        home: i32,
        op: &Operand,
        c: &Const,
        ty: TypeId,
    ) -> (r: Result<(), CodegenError>)
        requires
            self.ok(),
            old(out).ok(),
            self.env().operand_ok(*op),
            self.env().const_ok(*c),
            self.env().prog.arena.has(ty),
        ensures
            lowered(
                r,
                final(out)@,
                self.env().materialize_const_aggregate(old(out)@, home, *op, *c, ty),
            ),
            r is Ok ==> final(out).ok() && grew(old(out)@.text.labels, final(out)@.text.labels),
    {
        let ghost l0 = out@.text.labels;
        proof {
            reveal(Env::materialize_const_aggregate);
            grew_refl(l0);
        }
        match *c {
            Const::Str(id) => {
                if self.has_bytes(id) {
                    let off: u32 = out.ro.intern(self.const_bytes(id).as_slice());
                    out.text.mov_ri_data(Gpr::Rax, off);
                    out.text.mov_store(home, Gpr::Rax);
                    out.text.mov_ri(Gpr::Rax, self.const_bytes(id).len() as i64);
                    out.text.mov_store(plus(home, 8), Gpr::Rax);
                } else {
                    return Err(self.unsup("string const backed by an aggregate"));
                }
            },
            Const::EmptySlice { .. } => {
                out.text.mov_ri(Gpr::Rax, 0);
                out.text.mov_store(home, Gpr::Rax);
                out.text.mov_store(plus(home, 8), Gpr::Rax);
            },
            Const::Aggregate { id, ty: aty } => {
                if self.has_bytes(id) {
                    return Err(self.unsup("aggregate const backed by bytes"));
                } else {
                    let ghost k21 = out@.text.labels;
                    match self.build_const(out, home, id, aty) {
                        Ok(_) => {},
                        Err(e) => {
                            return Err(e);
                        },
                    }
                    proof {
                        grew_trans(l0, k21, out@.text.labels);
                    }
                }
            },
            Const::Undef { .. } => {},
            Const::Void => {
                if self.is_error_union(ty) {
                    out.text.mov_ri(Gpr::Rax, 0);
                    out.text.mov_store16_mem(Gpr::Rbp, home, Gpr::Rax);
                }
            },
            Const::ErrVal { tag, .. } => {
                let ghost k22 = out@.text.labels;
                self.build_make_err(out, home, tag.0);
                proof {
                    grew_trans(l0, k22, out@.text.labels);
                }
            },
            Const::EnumVal { .. } => {
                let mut msg = String::from_str("const aggregate ");
                msg.append(const_text(*c).as_str());
                msg.append(" of type ");
                msg.append(type_text(self.ty(ty)).as_str());
                return Err(self.unsup(msg.as_str()));
            },
            _ => {
                match self.ty(ty) {
                    Type::Optional(_) => {
                        let ghost k23 = out@.text.labels;
                        match self.build_make_some(out, home, op, ty) {
                            Ok(_) => {},
                            Err(e) => {
                                return Err(e);
                            },
                        }
                        proof {
                            grew_trans(l0, k23, out@.text.labels);
                        }
                    },
                    Type::ErrorUnion { .. } => {
                        let ghost k24 = out@.text.labels;
                        match self.build_make_ok(out, home, op, ty) {
                            Ok(_) => {},
                            Err(e) => {
                                return Err(e);
                            },
                        }
                        proof {
                            grew_trans(l0, k24, out@.text.labels);
                        }
                    },
                    _ => {
                        return Err(self.unsup("scalar constant into a non-optional aggregate"));
                    },
                }
            },
        }
        Ok(())
    }

    /// Copies an operand into the home of an aggregate; a scalar becomes the value of
    /// an optional or error union.
    pub(crate) fn aggregate_use(
        &self,
        out: &mut Out,
        home: i32,
        op: &Operand,
        ty: TypeId,
    ) -> (r: Result<(), CodegenError>)
        requires
            self.ok(),
            old(out).ok(),
            self.env().operand_ok(*op),
            self.env().prog.arena.has(ty),
        ensures
            lowered(r, final(out)@, self.env().aggregate_use(old(out)@, home, *op, ty)),
            r is Ok ==> final(out).ok() && grew(old(out)@.text.labels, final(out)@.text.labels),
    {
        let ghost l0 = out@.text.labels;
        proof {
            reveal(Env::aggregate_use);
            grew_refl(l0);
        }
        match op {
            Operand::Copy(p) => {
                let src_ty: TypeId = self.place_type(p);
                let coercible: bool = !self.in_memory(src_ty) && !self.is_wide_int(src_ty);
                if coercible && self.is_flagged_optional(ty) {
                    let ghost k25 = out@.text.labels;
                    match self.build_make_some(out, home, op, ty) {
                        Ok(_) => {},
                        Err(e) => {
                            return Err(e);
                        },
                    }
                    proof {
                        grew_trans(l0, k25, out@.text.labels);
                    }
                } else if coercible && self.is_error_union(ty) {
                    let ghost k26 = out@.text.labels;
                    match self.build_make_ok(out, home, op, ty) {
                        Ok(_) => {},
                        Err(e) => {
                            return Err(e);
                        },
                    }
                    proof {
                        grew_trans(l0, k26, out@.text.labels);
                    }
                } else if p.proj.len() == 0 && self.home(p.base).is_none() {
                    let ghost k27 = out@.text.labels;
                    match self.operand_to(out, op, Gpr::Rax) {
                        Ok(_) => {},
                        Err(e) => {
                            return Err(e);
                        },
                    }
                    proof {
                        grew_trans(l0, k27, out@.text.labels);
                    }
                    out.text.mov_store(home, Gpr::Rax);
                } else {
                    let ghost k28 = out@.text.labels;
                    match self.place_addr_general(out, p, p.proj.len(), Gpr::Rax) {
                        Ok(_) => {},
                        Err(e) => {
                            return Err(e);
                        },
                    }
                    proof {
                        grew_trans(l0, k28, out@.text.labels);
                    }
                    out.text.lea_rbp(Gpr::R11, home);
                    let ghost k29 = out@.text.labels;
                    self.memcpy(out, Gpr::R11, Gpr::Rax, self.layout(ty).size);
                    proof {
                        grew_trans(l0, k29, out@.text.labels);
                    }
                }
            },
            Operand::Const(c) => {
                let ghost k30 = out@.text.labels;
                match self.materialize_const_aggregate(out, home, op, c, ty) {
                    Ok(_) => {},
                    Err(e) => {
                        return Err(e);
                    },
                }
                proof {
                    grew_trans(l0, k30, out@.text.labels);
                }
            },
        }
        Ok(())
    }

    /// Whether a type is an optional with a flag.
    pub(crate) fn is_flagged_optional(&self, ty: TypeId) -> (r: bool)
        requires
            self.ok(),
            self.env().prog.arena.has(ty),
        ensures
            r == self.env().is_flagged_optional(ty),
    {
        match self.ty(ty) {
            Type::Optional(inner) => !self.is_pointer(inner),
            _ => false,
        }
    }

    /// Puts the data pointer of a slice under construction into `dst`.
    pub(crate) fn slice_data_ptr(
        &self,
        out: &mut Out,
        ptr: &Operand,
        dst: Gpr,
    ) -> (r: Result<(), CodegenError>)
        requires
            self.ok(),
            old(out).ok(),
            self.env().operand_ok(*ptr),
        ensures
            lowered(r, final(out)@, self.env().slice_data_ptr(old(out)@, *ptr, dst)),
            r is Ok ==> final(out).ok() && grew(old(out)@.text.labels, final(out)@.text.labels),
    {
        let ghost l0 = out@.text.labels;
        proof {
            reveal(Env::slice_data_ptr);
            grew_refl(l0);
        }
        match ptr {
            Operand::Copy(p) => {
                match self.ty(self.place_type(p)) {
                    Type::Slice { .. } => {
                        let ghost k31 = out@.text.labels;
                        match self.place_addr_general(out, p, p.proj.len(), dst) {
                            Ok(_) => {},
                            Err(e) => {
                                return Err(e);
                            },
                        }
                        proof {
                            grew_trans(l0, k31, out@.text.labels);
                        }
                        out.text.mov_load_mem(dst, dst, 0);
                    },
                    Type::Array { .. } => {
                        let ghost k32 = out@.text.labels;
                        match self.place_addr_general(out, p, p.proj.len(), dst) {
                            Ok(_) => {},
                            Err(e) => {
                                return Err(e);
                            },
                        }
                        proof {
                            grew_trans(l0, k32, out@.text.labels);
                        }
                    },
                    _ => {
                        let ghost k33 = out@.text.labels;
                        match self.load_place_scalar(out, p, dst) {
                            Ok(_) => {},
                            Err(e) => {
                                return Err(e);
                            },
                        }
                        proof {
                            grew_trans(l0, k33, out@.text.labels);
                        }
                    },
                }
            },
            Operand::Const(c) => {
                match *c {
                    Const::Str(_) => {
                        return Err(self.unsup("MakeSlice from a string constant"));
                    },
                    _ => {
                        return Err(self.unsup("MakeSlice from a non-place constant pointer"));
                    },
                }
            },
        }
        Ok(())
    }

    /// The stride of the elements of a container.
    pub(crate) fn elem_bytes(&self, ty: TypeId) -> (r: u64)
        requires
            self.ok(),
            self.env().prog.arena.has(ty),
        ensures
            r == self.env().elem_bytes(ty),
    {
        elem_size(&self.prog.arena, ty)
    }

    /// Puts the pointer to an element of a slice under construction into `rax`.
    pub(crate) fn slice_pointer(
        &self,
        out: &mut Out,
        ptr: &Operand,
        offset: &Operand,
        ty: TypeId,
    ) -> (r: Result<(), CodegenError>)
        requires
            self.ok(),
            old(out).ok(),
            self.env().operand_ok(*ptr),
            self.env().operand_ok(*offset),
            self.env().prog.arena.has(ty),
        ensures
            lowered(r, final(out)@, self.env().slice_pointer(old(out)@, *ptr, *offset, ty)),
            r is Ok ==> final(out).ok() && grew(old(out)@.text.labels, final(out)@.text.labels),
    {
        let ghost l0 = out@.text.labels;
        proof {
            reveal(Env::slice_pointer);
            grew_refl(l0);
        }
        let ghost k34 = out@.text.labels;
        match self.slice_data_ptr(out, ptr, Gpr::Rax) {
            Ok(_) => {},
            Err(e) => {
                return Err(e);
            },
        }
        proof {
            grew_trans(l0, k34, out@.text.labels);
        }
        let ghost k35 = out@.text.labels;
        match self.operand_to(out, offset, Gpr::Rcx) {
            Ok(_) => {},
            Err(e) => {
                return Err(e);
            },
        }
        proof {
            grew_trans(l0, k35, out@.text.labels);
        }
        let ghost k36 = out@.text.labels;
        self.scale(out, Gpr::Rcx, self.elem_bytes(ty));
        proof {
            grew_trans(l0, k36, out@.text.labels);
        }
        out.text.add_rr(Gpr::Rax, Gpr::Rcx);
        Ok(())
    }

    /// Builds a slice.
    pub(crate) fn build_make_slice(
        &self,
        out: &mut Out,
        home: i32,
        ptr: &Operand,
        offset: &Operand,
        len: &Operand,
        ty: TypeId,
    ) -> (r: Result<(), CodegenError>)
        requires
            self.ok(),
            old(out).ok(),
            self.env().operand_ok(*ptr),
            self.env().operand_ok(*offset),
            self.env().operand_ok(*len),
            self.env().prog.arena.has(ty),
        ensures
            lowered(
                r,
                final(out)@,
                self.env().build_make_slice(old(out)@, home, *ptr, *offset, *len, ty),
            ),
            r is Ok ==> final(out).ok() && grew(old(out)@.text.labels, final(out)@.text.labels),
    {
        let ghost l0 = out@.text.labels;
        proof {
            reveal(Env::build_make_slice);
            grew_refl(l0);
        }
        let ghost k37 = out@.text.labels;
        match self.slice_pointer(out, ptr, offset, ty) {
            Ok(_) => {},
            Err(e) => {
                return Err(e);
            },
        }
        proof {
            grew_trans(l0, k37, out@.text.labels);
        }
        out.text.mov_store(home, Gpr::Rax);
        let ghost k38 = out@.text.labels;
        match self.operand_to(out, len, Gpr::Rax) {
            Ok(_) => {},
            Err(e) => {
                return Err(e);
            },
        }
        proof {
            grew_trans(l0, k38, out@.text.labels);
        }
        out.text.mov_store(plus(home, 8), Gpr::Rax);
        Ok(())
    }

    /// Builds a slice in a part of a local.
    pub(crate) fn store_make_slice_to_place(
        &self,
        out: &mut Out,
        place: &Place,
        ptr: &Operand,
        offset: &Operand,
        len: &Operand,
        sty: TypeId,
    ) -> (r: Result<(), CodegenError>)
        requires
            self.ok(),
            old(out).ok(),
            self.env().place_ok(*place),
            place.proj@.len() > 0,
            self.env().operand_ok(*ptr),
            self.env().operand_ok(*offset),
            self.env().operand_ok(*len),
            self.env().prog.arena.has(sty),
        ensures
            lowered(
                r,
                final(out)@,
                self.env().store_make_slice_to_place(old(out)@, *place, *ptr, *offset, *len, sty),
            ),
            r is Ok ==> final(out).ok() && grew(old(out)@.text.labels, final(out)@.text.labels),
    {
        let ghost l0 = out@.text.labels;
        proof {
            reveal(Env::store_make_slice_to_place);
            grew_refl(l0);
        }
        let ghost k39 = out@.text.labels;
        match self.slice_pointer(out, ptr, offset, sty) {
            Ok(_) => {},
            Err(e) => {
                return Err(e);
            },
        }
        proof {
            grew_trans(l0, k39, out@.text.labels);
        }
        let ghost k40 = out@.text.labels;
        match self.operand_to(out, len, Gpr::Rdx) {
            Ok(_) => {},
            Err(e) => {
                return Err(e);
            },
        }
        proof {
            grew_trans(l0, k40, out@.text.labels);
        }
        let ghost k41 = out@.text.labels;
        match self.place_addr(out, place, place.proj.len(), Gpr::R11) {
            Ok(_) => {},
            Err(e) => {
                return Err(e);
            },
        }
        proof {
            grew_trans(l0, k41, out@.text.labels);
        }
        out.text.mov_store_mem(Gpr::R11, 0, Gpr::Rax);
        out.text.mov_store_mem(Gpr::R11, 8, Gpr::Rdx);
        Ok(())
    }

    /// Computes a scalar as the value of an optional or error union.
    pub(crate) fn scalar_rvalue_into_aggregate(
        &self,
        out: &mut Out,
        home: i32,
        rvalue: &Rvalue,
        ty: TypeId,
    ) -> (r: Result<(), CodegenError>)
        requires
            self.ok(),
            old(out).ok(),
            self.env().rvalue_ok(*rvalue),
            self.env().prog.arena.has(ty),
        ensures
            lowered(
                r,
                final(out)@,
                self.env().scalar_rvalue_into_aggregate(old(out)@, home, *rvalue, ty),
            ),
            r is Ok ==> final(out).ok() && grew(old(out)@.text.labels, final(out)@.text.labels),
    {
        let ghost l0 = out@.text.labels;
        proof {
            reveal(Env::scalar_rvalue_into_aggregate);
            grew_refl(l0);
        }
        match self.ty(ty) {
            Type::Optional(inner) => {
                if self.is_pointer(inner) {
                    return Err(self.unsup("scalar rvalue into a pointer-niche optional"));
                } else {
                    let ghost k42 = out@.text.labels;
                    match self.eval_scalar_rvalue_into_rax(out, rvalue, inner) {
                        Ok(_) => {},
                        Err(e) => {
                            return Err(e);
                        },
                    }
                    proof {
                        grew_trans(l0, k42, out@.text.labels);
                    }
                    let ghost k43 = out@.text.labels;
                    self.store_sized(out, Gpr::Rbp, home, Gpr::Rax, inner);
                    proof {
                        grew_trans(l0, k43, out@.text.labels);
                    }
                    out.text.mov_ri(Gpr::Rax, 1);
                    out.text.mov_store8_mem(Gpr::Rbp, plus(home, self.flag_offset(ty)), Gpr::Rax);
                }
            },
            Type::ErrorUnion { ok } => {
                let ghost k44 = out@.text.labels;
                match self.eval_scalar_rvalue_into_rax(out, rvalue, ok) {
                    Ok(_) => {},
                    Err(e) => {
                        return Err(e);
                    },
                }
                proof {
                    grew_trans(l0, k44, out@.text.labels);
                }
                let ghost k45 = out@.text.labels;
                self.store_sized(out, Gpr::Rbp, plus(home, self.payload_offset(ty)), Gpr::Rax, ok);
                proof {
                    grew_trans(l0, k45, out@.text.labels);
                }
                out.text.mov_ri(Gpr::Rax, 0);
                out.text.mov_store16_mem(Gpr::Rbp, home, Gpr::Rax);
            },
            _ => {
                return Err(self.unsup("scalar rvalue into a non-optional/-error-union aggregate"));
            },
        }
        Ok(())
    }

    /// Stores an aggregate in a part of a local.
    pub(crate) fn store_aggregate_rvalue_to_place(
        &self,
        out: &mut Out,
        place: &Place,
        rvalue: &Rvalue,
        ty: TypeId,
    ) -> (r: Result<(), CodegenError>)
        requires
            self.ok(),
            old(out).ok(),
            self.env().place_ok(*place),
            place.proj@.len() > 0,
            self.env().rvalue_ok(*rvalue),
            self.env().prog.arena.has(ty),
        ensures
            lowered(
                r,
                final(out)@,
                self.env().store_aggregate_rvalue_to_place(old(out)@, *place, *rvalue, ty),
            ),
            r is Ok ==> final(out).ok() && grew(old(out)@.text.labels, final(out)@.text.labels),
    {
        let ghost l0 = out@.text.labels;
        proof {
            reveal(Env::store_aggregate_rvalue_to_place);
            grew_refl(l0);
        }
        match rvalue {
            Rvalue::Use(op) => {
                match op {
                    Operand::Copy(p) => {
                        let ghost k46 = out@.text.labels;
                        match self.place_addr_general(out, p, p.proj.len(), Gpr::Rax) {
                            Ok(_) => {},
                            Err(e) => {
                                return Err(e);
                            },
                        }
                        proof {
                            grew_trans(l0, k46, out@.text.labels);
                        }
                        let ghost k47 = out@.text.labels;
                        match self.place_addr(out, place, place.proj.len(), Gpr::R11) {
                            Ok(_) => {},
                            Err(e) => {
                                return Err(e);
                            },
                        }
                        proof {
                            grew_trans(l0, k47, out@.text.labels);
                        }
                        let ghost k48 = out@.text.labels;
                        self.memcpy(out, Gpr::R11, Gpr::Rax, self.layout(ty).size);
                        proof {
                            grew_trans(l0, k48, out@.text.labels);
                        }
                    },
                    Operand::Const(_) => {
                        return Err(self.unsup("aggregate rvalue into a projected place"));
                    },
                }
            },
            Rvalue::MakeSlice { ptr, offset, len, ty: sty } => {
                let ghost k49 = out@.text.labels;
                match self.store_make_slice_to_place(out, place, ptr, offset, len, *sty) {
                    Ok(_) => {},
                    Err(e) => {
                        return Err(e);
                    },
                }
                proof {
                    grew_trans(l0, k49, out@.text.labels);
                }
            },
            _ => {
                return Err(self.unsup("aggregate rvalue into a projected place"));
            },
        }
        Ok(())
    }
}

} // verus!
