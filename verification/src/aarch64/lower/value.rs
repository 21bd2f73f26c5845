//! Places, scalars and computations.
use vstd::prelude::*;

use crate::show::{const_text, shown_const};
use crate::aarch64::encode::{FP, MemSize, Reg};
use crate::aarch64::lower::env::{
    A64Func, A64Low, A64Out, ADDR, Aarch64FnLower, RES, S2, S3, S4, S5, a64_lowered,
};
use crate::encode::Cc;
use crate::lower::env::{grew, grew_refl, grew_trans};
use crate::aarch64::lower::env::step_ok_at;
use crate::layout::{elem_size, flag_off, optional_flag_off, round_up, stride, up, up_facts};
use crate::lower::env::Repr;
use crate::lower::scalar::{hi_word, lo_word, log2_exact, log2_of, wide_hi, wide_lo};
use crate::lower::values::{
    cc_of, compare_cc, compares, is_comparison, rvalue_kind, rvalue_kind_text,
};
use crate::mir::{BinOp, Const, DiscrKind, LocalId, Operand, Place, Proj, Rvalue, SliceMeta, UnOp};
use crate::types::{ArrayLen, Type, TypeId};
use crate::CodegenError;

verus! {

/// The sum of two displacements, modulo the word size.
pub open spec fn sum64(a: i64, b: i64) -> i64 {
    if a + b > i64::MAX {
        (a + b - 0x1_0000_0000_0000_0000) as i64
    } else if a + b < i64::MIN {
        (a + b + 0x1_0000_0000_0000_0000) as i64
    } else {
        (a + b) as i64
    }
}

/// The sum of two displacements, modulo the word size.
pub(crate) fn plus64(a: i64, b: i64) -> (r: i64)
    ensures
        r == sum64(a, b),
{
    let s: i128 = a as i128 + b as i128;
    if s > 0x7FFF_FFFF_FFFF_FFFF {
        (s - 0x1_0000_0000_0000_0000) as i64
    } else if s < -0x8000_0000_0000_0000 {
        (s + 0x1_0000_0000_0000_0000) as i64
    } else {
        s as i64
    }
}

/// What the last step of a place asks for.
#[derive(Clone, Copy, PartialEq, Eq, Structural, Debug)]
pub enum FinalStep {
    /// The length of an array.
    Length(i64),
    /// The address of an array.
    Address,
    /// A load from memory.
    Load,
}

impl A64Func {
    /// What the last step of a place asks for.
    pub open spec fn final_step(self, place: Place) -> FinalStep {
        let n = (place.proj@.len() - 1) as usize;
        match place.proj@[n as int] {
            Proj::SliceMeta { which, .. } => match self.ty(self.type_at(place, n)) {
                Type::Array { len, .. } => match which {
                    SliceMeta::Ptr => FinalStep::Address,
                    SliceMeta::Len => FinalStep::Length(
                        match len {
                            ArrayLen::Known(k) => k as i64,
                            _ => 0,
                        },
                    ),
                },
                _ => FinalStep::Load,
            },
            _ => FinalStep::Load,
        }
    }

    /// Whether a place starts at what a pointer points to.
    pub open spec fn starts_with_deref(self, place: Place) -> bool {
        place.proj@[0] is Deref
    }
}

impl Aarch64FnLower<'_> {
    fn final_step(&self, place: &Place) -> (r: FinalStep)
        requires
            self.ok(),
            self.env().place_ok(*place),
            place.proj@.len() > 0,
        ensures
            r == self.env().final_step(*place),
    {
        let n: usize = place.proj.len() - 1;
        match &place.proj[n] {
            Proj::SliceMeta { which, .. } => match self.ty(self.type_at(place, n)) {
                Type::Array { len, .. } => match *which {
                    SliceMeta::Ptr => FinalStep::Address,
                    SliceMeta::Len => {
                        let k: i64 = match len {
                            ArrayLen::Known(k) => k as i64,
                            _ => 0,
                        };
                        FinalStep::Length(k)
                    },
                },
                _ => FinalStep::Load,
            },
            _ => FinalStep::Load,
        }
    }

    fn starts_with_deref(&self, place: &Place) -> (r: bool)
        requires
            place.proj@.len() > 0,
        ensures
            r == self.env().starts_with_deref(*place),
    {
        match &place.proj[0] {
            Proj::Deref => true,
            _ => false,
        }
    }
}

impl A64Func {
    /// Loads from a displacement.
    #[verifier::opaque]
    pub open spec fn ld(self, s: A64Low, dst: Reg, base: Reg, off: i32, size: MemSize) -> A64Low {
        let s = s.on(s.text.load(dst, base, off as i64, size));
        s
    }

    /// Stores at a displacement.
    #[verifier::opaque]
    pub open spec fn st(self, s: A64Low, src: Reg, base: Reg, off: i32, size: MemSize) -> A64Low {
        let s = s.on(s.text.store(src, base, off as i64, size));
        s
    }

    /// Loads the word behind a displacement.
    #[verifier::opaque]
    pub open spec fn ld_hi(self, s: A64Low, dst: Reg, base: Reg, off: i32) -> A64Low {
        let s = s.on(s.text.load(dst, base, (off as i64 + 8) as i64, MemSize::X));
        s
    }

    /// Stores the word behind a displacement.
    #[verifier::opaque]
    pub open spec fn st_hi(self, s: A64Low, src: Reg, base: Reg, off: i32) -> A64Low {
        let s = s.on(s.text.store(src, base, (off as i64 + 8) as i64, MemSize::X));
        s
    }

    /// The size of a scalar in memory.
    pub open spec fn mem_size(self, ty: TypeId) -> MemSize {
        if self.scalar_store_size(ty) == 1 {
            MemSize::B
        } else if self.scalar_store_size(ty) == 2 {
            MemSize::H
        } else if self.scalar_store_size(ty) == 4 {
            MemSize::W
        } else {
            MemSize::X
        }
    }

    /// Loads a scalar of a type.
    #[verifier::opaque]
    pub open spec fn load_sized(
        self,
        s: A64Low,
        dst: Reg,
        base: Reg,
        disp: i32,
        ty: TypeId,
    ) -> A64Low {
        let size = self.mem_size(ty);
        let s = if self.repr_of(ty).signed && size != MemSize::X {
            let s = s.on(s.text.load_signed(dst, base, disp as i64, size));
            s
        } else {
            let s = s.on(s.text.load(dst, base, disp as i64, size));
            s
        };
        s
    }

    /// Stores a scalar of a type.
    #[verifier::opaque]
    pub open spec fn store_sized(
        self,
        s: A64Low,
        base: Reg,
        disp: i32,
        src: Reg,
        ty: TypeId,
    ) -> A64Low {
        let s = s.on(s.text.store(src, base, disp as i64, self.mem_size(ty)));
        s
    }

    /// Stores a scalar to the home of a local.
    #[verifier::opaque]
    pub open spec fn store_scalar(self, s: A64Low, dst: LocalId, src: Reg) -> A64Low {
        let s = self.store_sized(s, Reg(FP), self.home(dst), src, self.local_ty(dst));
        s
    }

    /// Brings the value in `dst` to the width of a type.
    #[verifier::opaque]
    pub open spec fn normalize(self, s: A64Low, dst: Reg, ty: TypeId) -> A64Low {
        let r = self.repr_of(ty);
        let s = if r.width != 0 && r.width < 64 {
            let s = if r.signed {
                let s = s.on(s.text.sbfm(dst, dst, 0, (r.width - 1) as u8));
                s
            } else {
                let s = s.on(s.text.ubfm(dst, dst, 0, (r.width - 1) as u8));
                s
            };
            s
        } else {
            s
        };
        s
    }

    /// Puts a scalar constant into `dst`.
    #[verifier::opaque]
    pub open spec fn const_to(self, s: A64Low, c: Const, dst: Reg) -> A64Low {
        let s = match c {
            Const::Int { value, ty } => {
                let s = s.on(s.text.mov_imm(dst, self.const_int_bits(value, ty)));
                s
            },
            Const::Bool(b) => {
                let s = s.on(s.text.mov_imm(dst, b as i64));
                s
            },
            Const::Void => {
                let s = s.on(s.text.mov_imm(dst, 0));
                s
            },
            Const::EnumVal { variant, .. } => {
                let s = s.on(s.text.mov_imm(dst, variant as i64));
                s
            },
            Const::ErrVal { tag, .. } => {
                let s = s.on(s.text.mov_imm(dst, tag.0 as i64));
                s
            },
            Const::Undef { .. } => {
                let s = s.on(s.text.mov_imm(dst, 0));
                s
            },
            _ => {
                s.fail(self.unsup3("non-scalar constant "@, shown_const(c), ""@))
            },
        };
        s
    }

    /// Puts the address of a home into `dst`.
    #[verifier::opaque]
    pub open spec fn lea_home(self, s: A64Low, dst: Reg, home: i32) -> A64Low {
        let s = s.on(s.text.add_imm_to(dst, Reg(FP), home));
        s
    }

    /// Loads a scalar operand into `dst`.
    pub open spec fn operand_to(self, s: A64Low, op: Operand, dst: Reg) -> A64Low
        decreases op, 0nat, 0nat,
    {
        let s = match op {
            Operand::Copy(p) => {
                let s = self.load_place_scalar(s, p, dst);
                s
            },
            Operand::Const(c) => {
                let s = self.const_to(s, c, dst);
                s
            },
        };
        s
    }

    /// Loads the scalar at a place into `dst`.
    pub open spec fn load_place_scalar(self, s: A64Low, place: Place, dst: Reg) -> A64Low
        decreases place, 5nat, 0nat,
    {
        let s = if place.proj@.len() == 0 {
            let s = self.load_sized(
                s,
                dst,
                Reg(FP),
                self.home(place.base),
                self.local_ty(place.base),
            );
            s
        } else {
            let n = place.proj@.len() as usize;
            let s = match self.final_step(place) {
                FinalStep::Length(k) => {
                    let s = s.on(s.text.mov_imm(dst, k));
                    s
                },
                FinalStep::Address => {
                    let s = self.place_addr(s, place, (n - 1) as usize, dst);
                    s
                },
                FinalStep::Load => {
                    let s = self.place_addr(s, place, n, Reg(ADDR));
                    if s.err is Some {
                        s
                    } else {
                        let s = self.load_sized(s, dst, Reg(ADDR), 0, self.place_type(place));
                        s
                    }
                },
            };
            s
        };
        s
    }

    /// Puts the address of what the first `n` steps of a place reach into `dst`.
    pub open spec fn place_addr(self, s: A64Low, place: Place, n: usize, dst: Reg) -> A64Low
        decreases place, 2nat, 0nat,
    {
        let s = if n == 0 {
            let s = self.lea_home(s, dst, self.home(place.base));
            s
        } else if self.starts_with_deref(place) {
            let s = self.ld(s, dst, Reg(FP), self.home(place.base), MemSize::X);
            let s = self.place_steps(s, place, 1, n, dst);
            s
        } else {
            let s = self.lea_home(s, dst, self.home(place.base));
            let s = self.place_steps(s, place, 0, n, dst);
            s
        };
        s
    }

    /// Moves the address in `dst` by the steps from the `i`-th on.
    pub open spec fn place_steps(
        self,
        s: A64Low,
        place: Place,
        i: usize,
        n: usize,
        dst: Reg,
    ) -> A64Low
        decreases place, 1nat, n - i,
    {
        let s = if i < n {
            let s = self.place_step(s, place, i, dst);
            if s.err is Some {
                s
            } else {
                let s = self.place_steps(s, place, (i + 1) as usize, n, dst);
                s
            }
        } else {
            s
        };
        s
    }

    /// The offset of a payload of a type behind an error tag.
    pub open spec fn payload_start(self, ty: TypeId) -> u32 {
        up(2, self.layout(ty).align as int) as u64 as u32
    }

    /// Moves the address in `dst` by one step.
    pub open spec fn place_step(self, s: A64Low, place: Place, i: usize, dst: Reg) -> A64Low
        decreases place, 0nat, 0nat,
    {
        let s = if i < place.proj@.len() {
            let s = match place.proj@[i as int] {
                Proj::Deref => {
                    let s = s.on(s.text.load(dst, dst, 0, MemSize::X));
                    s
                },
                Proj::Field { index, .. } => {
                    let off = self.field_offset(self.walked(place, i), index as usize);
                    let s = if off != 0 {
                        let s = s.on(s.text.add_imm_pos(dst, dst, off as u32));
                        s
                    } else {
                        s
                    };
                    s
                },
                Proj::Index { at, .. } => {
                    let stride = self.elem_bytes(self.walked(place, i));
                    let s = self.operand_to(s, at, Reg(S5));
                    if s.err is Some {
                        s
                    } else {
                        let s = match log2_of(stride) {
                            Some(sh) => {
                                let s = s.on(s.text.add_lsl(dst, dst, Reg(S5), sh));
                                s
                            },
                            None => {
                                let s = s.on(s.text.mov_imm(Reg(S4), stride as i64));
                                let s = s.on(s.text.mul(Reg(S5), Reg(S5), Reg(S4)));
                                let s = s.on(s.text.add(dst, dst, Reg(S5)));
                                s
                            },
                        };
                        s
                    }
                },
                Proj::SliceMeta { which, .. } => {
                    let s = match which {
                        SliceMeta::Ptr => {
                            s
                        },
                        SliceMeta::Len => {
                            let s = s.on(s.text.add_imm_pos(dst, dst, 8));
                            s
                        },
                    };
                    s
                },
                Proj::Payload { ty } => {
                    let s = s.on(s.text.add_imm_pos(dst, dst, self.payload_start(ty)));
                    s
                },
            };
            s
        } else {
            s
        };
        s
    }

    /// The stride of the elements of a container.
    pub open spec fn elem_bytes(self, ty: TypeId) -> u64 {
        stride(self.prog.arena, ty)
    }

    /// Loads a two-word operand.
    #[verifier::opaque]
    pub open spec fn eval_wide_operand(self, s: A64Low, op: Operand, lo: Reg, hi: Reg) -> A64Low {
        let s = match op {
            Operand::Copy(p) => {
                let s = self.place_addr(s, p, (p.proj@.len() as usize), Reg(ADDR));
                if s.err is Some {
                    s
                } else {
                    let s = s.on(s.text.load(lo, Reg(ADDR), 0, MemSize::X));
                    let s = s.on(s.text.load(hi, Reg(ADDR), 8, MemSize::X));
                    s
                }
            },
            Operand::Const(c) => {
                let s = match c {
                    Const::Int { value, .. } => {
                        let s = s.on(s.text.mov_imm(lo, wide_lo(value)));
                        let s = s.on(s.text.mov_imm(hi, wide_hi(value)));
                        s
                    },
                    _ => {
                        s.fail(self.unsup("a 128-bit non-int operand"@))
                    },
                };
                s
            },
        };
        s
    }

    /// Stores two words.
    #[verifier::opaque]
    pub open spec fn store_pair(self, s: A64Low, home: i32, lo: Reg, hi: Reg) -> A64Low {
        let s = self.st(s, lo, Reg(FP), home, MemSize::X);
        let s = self.st_hi(s, hi, Reg(FP), home);
        s
    }

    /// Whether an operand is a signed integer.
    pub open spec fn operand_signed(self, op: Operand) -> bool {
        match self.operand_type(op) {
            Some(t) => self.repr_of(t).signed,
            None => false,
        }
    }

    /// Computes a two-word integer.
    #[verifier::opaque]
    pub open spec fn lower_wide_rvalue(self, s: A64Low, dst: LocalId, rvalue: Rvalue) -> A64Low {
        let s = match rvalue {
            Rvalue::Use(op) => {
                let s = self.eval_wide_operand(s, op, Reg(RES), Reg(S2));
                if s.err is Some {
                    s
                } else {
                    let s = self.store_pair(s, self.home(dst), Reg(RES), Reg(S2));
                    s
                }
            },
            Rvalue::Cast { operand, .. } => {
                let s = self.operand_to(s, operand, Reg(RES));
                if s.err is Some {
                    s
                } else {
                    let s = if self.operand_signed(operand) {
                        let s = s.on(s.text.asr_imm(Reg(S2), Reg(RES), 63));
                        s
                    } else {
                        let s = s.on(s.text.mov_imm(Reg(S2), 0));
                        s
                    };
                    let s = self.store_pair(s, self.home(dst), Reg(RES), Reg(S2));
                    s
                }
            },
            _ => {
                s.fail(self.unsup3("128-bit rvalue "@, rvalue_kind_text(rvalue), ""@))
            },
        };
        s
    }

    /// Compares two values that are already loaded.
    #[verifier::opaque]
    pub open spec fn eval_compare(
        self,
        s: A64Low,
        op: BinOp,
        lhs: Operand,
        rhs: Operand,
        ty: TypeId,
    ) -> A64Low {
        let s = self.normalize(s, Reg(RES), self.type_or(lhs, ty));
        let s = self.normalize(s, Reg(S2), self.type_or(rhs, ty));
        let s = s.on(s.text.cmp(Reg(RES), Reg(S2)));
        let s = s.on(s.text.cset(Reg(RES), cc_of(op, self.repr_of(ty).signed)));
        s
    }

    /// Computes on two values that are already loaded.
    #[verifier::opaque]
    pub open spec fn eval_arith(self, s: A64Low, op: BinOp, signed: bool) -> A64Low {
        let s = match op {
            BinOp::Add => {
                let s = s.on(s.text.add(Reg(RES), Reg(RES), Reg(S2)));
                s
            },
            BinOp::Sub => {
                let s = s.on(s.text.sub(Reg(RES), Reg(RES), Reg(S2)));
                s
            },
            BinOp::Mul => {
                let s = s.on(s.text.mul(Reg(RES), Reg(RES), Reg(S2)));
                s
            },
            BinOp::BitAnd => {
                let s = s.on(s.text.and(Reg(RES), Reg(RES), Reg(S2)));
                s
            },
            BinOp::BitOr => {
                let s = s.on(s.text.orr(Reg(RES), Reg(RES), Reg(S2)));
                s
            },
            BinOp::BitXor => {
                let s = s.on(s.text.eor(Reg(RES), Reg(RES), Reg(S2)));
                s
            },
            BinOp::Div => {
                let s = if signed {
                    let s = s.on(s.text.sdiv(Reg(RES), Reg(RES), Reg(S2)));
                    s
                } else {
                    let s = s.on(s.text.udiv(Reg(RES), Reg(RES), Reg(S2)));
                    s
                };
                s
            },
            BinOp::Rem => {
                let s = if signed {
                    let s = s.on(s.text.sdiv(Reg(S3), Reg(RES), Reg(S2)));
                    s
                } else {
                    let s = s.on(s.text.udiv(Reg(S3), Reg(RES), Reg(S2)));
                    s
                };
                let s = s.on(s.text.msub(Reg(RES), Reg(S3), Reg(S2), Reg(RES)));
                s
            },
            BinOp::Shl => {
                let s = s.on(s.text.lslv(Reg(RES), Reg(RES), Reg(S2)));
                s
            },
            BinOp::Shr => {
                let s = if signed {
                    let s = s.on(s.text.asrv(Reg(RES), Reg(RES), Reg(S2)));
                    s
                } else {
                    let s = s.on(s.text.lsrv(Reg(RES), Reg(RES), Reg(S2)));
                    s
                };
                s
            },
            _ => {
                s.fail(self.unsup("a comparison op reached the arithmetic arm"@))
            },
        };
        s
    }

    /// Computes a binary operation.
    #[verifier::opaque]
    pub open spec fn eval_binary(
        self,
        s: A64Low,
        op: BinOp,
        lhs: Operand,
        rhs: Operand,
        ty: TypeId,
    ) -> A64Low {
        let s = if self.is_float(ty) {
            s.fail(self.unsup("f64 arithmetic"@))
        } else {
            let s = self.operand_to(s, lhs, Reg(RES));
            if s.err is Some {
                s
            } else {
                let s = self.operand_to(s, rhs, Reg(S2));
                if s.err is Some {
                    s
                } else {
                    let s = if compares(op) {
                        let s = self.eval_compare(s, op, lhs, rhs, ty);
                        s
                    } else {
                        let s = self.eval_arith(s, op, self.repr_of(ty).signed);
                        if s.err is Some {
                            s
                        } else {
                            let s = self.normalize(s, Reg(RES), ty);
                            s
                        }
                    };
                    s
                }
            }
        };
        s
    }

    /// Computes a unary operation.
    #[verifier::opaque]
    pub open spec fn lower_unary(
        self,
        s: A64Low,
        dst: LocalId,
        un: UnOp,
        operand: Operand,
        ty: TypeId,
    ) -> A64Low {
        let s = self.operand_to(s, operand, Reg(RES));
        if s.err is Some {
            s
        } else {
            let s = match un {
                UnOp::Neg => {
                    let s = s.on(s.text.neg(Reg(RES), Reg(RES)));
                    let s = self.normalize(s, Reg(RES), ty);
                    s
                },
                UnOp::BitNot => {
                    let s = s.on(s.text.mvn(Reg(RES), Reg(RES)));
                    let s = self.normalize(s, Reg(RES), ty);
                    s
                },
                UnOp::Not => {
                    let s = s.on(s.text.mov_imm(Reg(S2), 1));
                    let s = s.on(s.text.eor(Reg(RES), Reg(RES), Reg(S2)));
                    s
                },
            };
            let s = self.store_scalar(s, dst, Reg(RES));
            s
        }
    }

    /// Stores how the value in the result register stands to zero.
    #[verifier::opaque]
    pub open spec fn store_test(self, s: A64Low, dst: LocalId, cc: Cc) -> A64Low {
        let s = s.on(s.text.cmp_imm(Reg(RES), 0));
        let s = s.on(s.text.cset(Reg(RES), cc));
        let s = self.store_scalar(s, dst, Reg(RES));
        s
    }

    /// Loads the tag of an error union.
    #[verifier::opaque]
    pub open spec fn load_tag(self, s: A64Low, op: Operand) -> A64Low {
        let s = match op {
            Operand::Copy(p) => {
                let s = self.place_addr(s, p, (p.proj@.len() as usize), Reg(ADDR));
                if s.err is Some {
                    s
                } else {
                    let s = s.on(s.text.load(Reg(RES), Reg(ADDR), 0, MemSize::H));
                    s
                }
            },
            Operand::Const(_) => {
                let s = s.on(s.text.mov_imm(Reg(RES), 0));
                s
            },
        };
        s
    }

    /// Whether an error union is an error.
    #[verifier::opaque]
    pub open spec fn lower_discr_error_union(
        self,
        s: A64Low,
        dst: LocalId,
        operand: Operand,
    ) -> A64Low {
        let s = if self.operand_is_error_union(operand) {
            let s = self.load_tag(s, operand);
            s
        } else {
            let s = self.operand_to(s, operand, Reg(RES));
            s
        };
        if s.err is Some {
            s
        } else {
            let s = self.store_test(s, dst, Cc::Ne);
            s
        }
    }

    /// The offset of the flag of an optional.
    pub open spec fn flag_at(self, ty: TypeId) -> u64 {
        match flag_off(self.prog.arena, ty) {
            Some(o) => o,
            None => 0,
        }
    }

    /// Loads the flag of an optional.
    #[verifier::opaque]
    pub open spec fn load_flag(self, s: A64Low, op: Operand, ty: TypeId) -> A64Low {
        let s = match op {
            Operand::Copy(p) => {
                let s = self.place_addr(s, p, (p.proj@.len() as usize), Reg(ADDR));
                if s.err is Some {
                    s
                } else {
                    let s = s.on(
                        s.text.load(Reg(RES), Reg(ADDR), self.flag_at(ty) as i64, MemSize::B),
                    );
                    s
                }
            },
            Operand::Const(_) => {
                let s = s.on(s.text.mov_imm(Reg(RES), 0));
                s
            },
        };
        s
    }

    /// Whether a type is an optional with a flag.
    pub open spec fn is_flagged_optional(self, ty: TypeId) -> bool {
        match self.ty(ty) {
            Type::Optional(inner) => !self.is_pointer(inner),
            _ => false,
        }
    }

    /// Whether an optional is null.
    #[verifier::opaque]
    pub open spec fn lower_discr_optional(
        self,
        s: A64Low,
        dst: LocalId,
        operand: Operand,
    ) -> A64Low {
        let s = match self.operand_type(operand) {
            Some(ty) => {
                let s = if self.is_flagged_optional(ty) {
                    let s = self.load_flag(s, operand, ty);
                    s
                } else {
                    let s = self.operand_to(s, operand, Reg(RES));
                    s
                };
                if s.err is Some {
                    s
                } else {
                    let s = self.store_test(s, dst, Cc::E);
                    s
                }
            },
            None => {
                s.fail(self.unsup("optional discriminant of an untyped operand"@))
            },
        };
        s
    }

    /// The tag type of an operand that is an enum.
    pub open spec fn enum_tag_of(self, op: Operand) -> Option<TypeId> {
        match self.operand_type(op) {
            Some(t) => match self.ty(t) {
                Type::Enum(id) => Some(self.prog.arena.enums@[id.0 as int].tag),
                _ => None,
            },
            None => None,
        }
    }

    /// Whether an operand is a constant of an enum.
    pub open spec fn is_enum_const(self, op: Operand) -> bool {
        match op {
            Operand::Copy(_) => false,
            Operand::Const(c) => match c {
                Const::EnumVal { .. } => true,
                _ => false,
            },
        }
    }

    /// The variant of an enum.
    #[verifier::opaque]
    pub open spec fn lower_discr_union(self, s: A64Low, dst: LocalId, operand: Operand) -> A64Low {
        let s = match self.enum_tag_of(operand) {
            Some(tag) => {
                let s = self.operand_to(s, operand, Reg(RES));
                if s.err is Some {
                    s
                } else {
                    let s = self.normalize(s, Reg(RES), tag);
                    let s = self.store_scalar(s, dst, Reg(RES));
                    s
                }
            },
            None => {
                let s = if self.is_enum_const(operand) {
                    let s = self.operand_to(s, operand, Reg(RES));
                    if s.err is Some {
                        s
                    } else {
                        let s = self.store_scalar(s, dst, Reg(RES));
                        s
                    }
                } else {
                    s.fail(self.unsup("tagged-union (non-enum) discriminant"@))
                };
                s
            },
        };
        s
    }

    /// The discriminant of a value.
    #[verifier::opaque]
    pub open spec fn lower_discriminant(
        self,
        s: A64Low,
        dst: LocalId,
        operand: Operand,
        of: DiscrKind,
    ) -> A64Low {
        let s = match of {
            DiscrKind::ErrorUnion => {
                let s = self.lower_discr_error_union(s, dst, operand);
                s
            },
            DiscrKind::Optional => {
                let s = self.lower_discr_optional(s, dst, operand);
                s
            },
            DiscrKind::Union => {
                let s = self.lower_discr_union(s, dst, operand);
                s
            },
        };
        s
    }
}

impl Aarch64FnLower<'_> {
    /// Loads from a displacement.
    pub(crate) fn ld(&self, out: &mut A64Out, dst: Reg, base: Reg, off: i32, size: MemSize)
        requires
            self.ok(),
            old(out).ok(),
        ensures
            final(out)@ == self.env().ld(old(out)@, dst, base, off, size),
            final(out).ok(),
            grew(old(out)@.text.labels, final(out)@.text.labels),
    {
        let ghost l0 = out@.text.labels;
        proof {
            reveal(A64Func::ld);
            grew_refl(l0);
        }
        out.text.load(dst, base, off as i64, size);
    }

    /// Stores at a displacement.
    pub(crate) fn st(&self, out: &mut A64Out, src: Reg, base: Reg, off: i32, size: MemSize)
        requires
            self.ok(),
            old(out).ok(),
        ensures
            final(out)@ == self.env().st(old(out)@, src, base, off, size),
            final(out).ok(),
            grew(old(out)@.text.labels, final(out)@.text.labels),
    {
        let ghost l0 = out@.text.labels;
        proof {
            reveal(A64Func::st);
            grew_refl(l0);
        }
        out.text.store(src, base, off as i64, size);
    }

    /// Loads the word behind a displacement.
    pub(crate) fn ld_hi(&self, out: &mut A64Out, dst: Reg, base: Reg, off: i32)
        requires
            self.ok(),
            old(out).ok(),
        ensures
            final(out)@ == self.env().ld_hi(old(out)@, dst, base, off),
            final(out).ok(),
            grew(old(out)@.text.labels, final(out)@.text.labels),
    {
        let ghost l0 = out@.text.labels;
        proof {
            reveal(A64Func::ld_hi);
            grew_refl(l0);
        }
        out.text.load(dst, base, (off as i64 + 8) as i64, MemSize::X);
    }

    /// Stores the word behind a displacement.
    pub(crate) fn st_hi(&self, out: &mut A64Out, src: Reg, base: Reg, off: i32)
        requires
            self.ok(),
            old(out).ok(),
        ensures
            final(out)@ == self.env().st_hi(old(out)@, src, base, off),
            final(out).ok(),
            grew(old(out)@.text.labels, final(out)@.text.labels),
    {
        let ghost l0 = out@.text.labels;
        proof {
            reveal(A64Func::st_hi);
            grew_refl(l0);
        }
        out.text.store(src, base, (off as i64 + 8) as i64, MemSize::X);
    }

    /// The size of a scalar in memory.
    pub(crate) fn mem_size(&self, ty: TypeId) -> (r: MemSize)
        requires
            self.ok(),
            self.env().prog.arena.has(ty),
        ensures
            r == self.env().mem_size(ty),
    {
        if self.scalar_store_size(ty) == 1 {
            MemSize::B
        } else if self.scalar_store_size(ty) == 2 {
            MemSize::H
        } else if self.scalar_store_size(ty) == 4 {
            MemSize::W
        } else {
            MemSize::X
        }
    }

    /// Loads a scalar of a type.
    pub(crate) fn load_sized(&self, out: &mut A64Out, dst: Reg, base: Reg, disp: i32, ty: TypeId)
        requires
            self.ok(),
            old(out).ok(),
            self.env().prog.arena.has(ty),
        ensures
            final(out)@ == self.env().load_sized(old(out)@, dst, base, disp, ty),
            final(out).ok(),
            grew(old(out)@.text.labels, final(out)@.text.labels),
    {
        let ghost l0 = out@.text.labels;
        proof {
            reveal(A64Func::load_sized);
            grew_refl(l0);
        }
        let size: MemSize = self.mem_size(ty);
        if self.repr_of(ty).signed && size != MemSize::X {
            out.text.load_signed(dst, base, disp as i64, size);
        } else {
            out.text.load(dst, base, disp as i64, size);
        }
    }

    /// Stores a scalar of a type.
    pub(crate) fn store_sized(&self, out: &mut A64Out, base: Reg, disp: i32, src: Reg, ty: TypeId)
        requires
            self.ok(),
            old(out).ok(),
            self.env().prog.arena.has(ty),
        ensures
            final(out)@ == self.env().store_sized(old(out)@, base, disp, src, ty),
            final(out).ok(),
            grew(old(out)@.text.labels, final(out)@.text.labels),
    {
        let ghost l0 = out@.text.labels;
        proof {
            reveal(A64Func::store_sized);
            grew_refl(l0);
        }
        out.text.store(src, base, disp as i64, self.mem_size(ty));
    }

    /// Stores a scalar to the home of a local.
    pub(crate) fn store_scalar(&self, out: &mut A64Out, dst: LocalId, src: Reg)
        requires
            self.ok(),
            old(out).ok(),
            dst.0 < self.env().func.locals@.len(),
        ensures
            final(out)@ == self.env().store_scalar(old(out)@, dst, src),
            final(out).ok(),
            grew(old(out)@.text.labels, final(out)@.text.labels),
    {
        let ghost l0 = out@.text.labels;
        proof {
            reveal(A64Func::store_scalar);
            grew_refl(l0);
        }
        let ghost k1 = out@.text.labels;
        self.store_sized(out, Reg(FP), self.home(dst), src, self.local_ty(dst));
        proof {
            grew_trans(l0, k1, out@.text.labels);
        }
    }

    /// Brings the value in `dst` to the width of a type.
    pub(crate) fn normalize(&self, out: &mut A64Out, dst: Reg, ty: TypeId)
        requires
            self.ok(),
            old(out).ok(),
            self.env().prog.arena.has(ty),
        ensures
            final(out)@ == self.env().normalize(old(out)@, dst, ty),
            final(out).ok(),
            grew(old(out)@.text.labels, final(out)@.text.labels),
    {
        let ghost l0 = out@.text.labels;
        proof {
            reveal(A64Func::normalize);
            grew_refl(l0);
        }
        let r: Repr = self.repr_of(ty);
        if r.width != 0 && r.width < 64 {
            if r.signed {
                out.text.sbfm(dst, dst, 0, (r.width - 1) as u8);
            } else {
                out.text.ubfm(dst, dst, 0, (r.width - 1) as u8);
            }
        }
    }

    /// Puts a scalar constant into `dst`.
    pub(crate) fn const_to(
        &self,
        out: &mut A64Out,
        c: &Const,
        dst: Reg,
    ) -> (r: Result<(), CodegenError>)
        requires
            self.ok(),
            old(out).ok(),
            self.env().const_ok(*c),
        ensures
            a64_lowered(r, final(out)@, self.env().const_to(old(out)@, *c, dst)),
            r is Ok ==> final(out).ok() && grew(old(out)@.text.labels, final(out)@.text.labels),
    {
        let ghost l0 = out@.text.labels;
        proof {
            reveal(A64Func::const_to);
            grew_refl(l0);
        }
        match *c {
            Const::Int { value, ty } => {
                out.text.mov_imm(dst, self.const_int_bits(value, ty));
            },
            Const::Bool(b) => {
                out.text.mov_imm(dst, b as i64);
            },
            Const::Void => {
                out.text.mov_imm(dst, 0);
            },
            Const::EnumVal { variant, .. } => {
                out.text.mov_imm(dst, variant as i64);
            },
            Const::ErrVal { tag, .. } => {
                out.text.mov_imm(dst, tag.0 as i64);
            },
            Const::Undef { .. } => {
                out.text.mov_imm(dst, 0);
            },
            _ => {
                return Err(self.unsup3("non-scalar constant ", const_text(*c).as_str(), ""));
            },
        }
        Ok(())
    }

    /// Puts the address of a home into `dst`.
    pub(crate) fn lea_home(&self, out: &mut A64Out, dst: Reg, home: i32)
        requires
            self.ok(),
            old(out).ok(),
        ensures
            final(out)@ == self.env().lea_home(old(out)@, dst, home),
            final(out).ok(),
            grew(old(out)@.text.labels, final(out)@.text.labels),
    {
        let ghost l0 = out@.text.labels;
        proof {
            reveal(A64Func::lea_home);
            grew_refl(l0);
        }
        out.text.add_imm_to(dst, Reg(FP), home);
    }

    /// Loads a scalar operand into `dst`.
    pub(crate) fn operand_to(
        &self,
        out: &mut A64Out,
        op: &Operand,
        dst: Reg,
    ) -> (r: Result<(), CodegenError>)
        requires
            self.ok(),
            old(out).ok(),
            self.env().operand_ok(*op),
        ensures
            a64_lowered(r, final(out)@, self.env().operand_to(old(out)@, *op, dst)),
            r is Ok ==> final(out).ok() && grew(old(out)@.text.labels, final(out)@.text.labels),
        decreases op, 0nat, 0nat,
    {
        let ghost l0 = out@.text.labels;
        proof {
            grew_refl(l0);
        }
        match op {
            Operand::Copy(p) => {
                let ghost k2 = out@.text.labels;
                match self.load_place_scalar(out, p, dst) {
                    Ok(_) => {},
                    Err(e) => {
                        return Err(e);
                    },
                }
                proof {
                    grew_trans(l0, k2, out@.text.labels);
                }
            },
            Operand::Const(c) => {
                let ghost k3 = out@.text.labels;
                match self.const_to(out, c, dst) {
                    Ok(_) => {},
                    Err(e) => {
                        return Err(e);
                    },
                }
                proof {
                    grew_trans(l0, k3, out@.text.labels);
                }
            },
        }
        Ok(())
    }

    /// Loads the scalar at a place into `dst`.
    pub(crate) fn load_place_scalar(
        &self,
        out: &mut A64Out,
        place: &Place,
        dst: Reg,
    ) -> (r: Result<(), CodegenError>)
        requires
            self.ok(),
            old(out).ok(),
            self.env().place_ok(*place),
        ensures
            a64_lowered(r, final(out)@, self.env().load_place_scalar(old(out)@, *place, dst)),
            r is Ok ==> final(out).ok() && grew(old(out)@.text.labels, final(out)@.text.labels),
        decreases place, 5nat, 0nat,
    {
        let ghost l0 = out@.text.labels;
        proof {
            grew_refl(l0);
        }
        if place.proj.len() == 0 {
            let ghost k4 = out@.text.labels;
            self.load_sized(
                out,
                dst,
                Reg(FP),
                self.home(place.base),
                self.local_ty(place.base),
            );
            proof {
                grew_trans(l0, k4, out@.text.labels);
            }
        } else {
            let n: usize = place.proj.len();
            match self.final_step(place) {
                FinalStep::Length(k) => {
                    out.text.mov_imm(dst, k);
                },
                FinalStep::Address => {
                    let ghost k5 = out@.text.labels;
                    match self.place_addr(out, place, (n - 1) as usize, dst) {
                        Ok(_) => {},
                        Err(e) => {
                            return Err(e);
                        },
                    }
                    proof {
                        grew_trans(l0, k5, out@.text.labels);
                    }
                },
                FinalStep::Load => {
                    let ghost k6 = out@.text.labels;
                    match self.place_addr(out, place, n, Reg(ADDR)) {
                        Ok(_) => {},
                        Err(e) => {
                            return Err(e);
                        },
                    }
                    proof {
                        grew_trans(l0, k6, out@.text.labels);
                    }
                    let ghost k7 = out@.text.labels;
                    self.load_sized(out, dst, Reg(ADDR), 0, self.place_type(place));
                    proof {
                        grew_trans(l0, k7, out@.text.labels);
                    }
                },
            }
        }
        Ok(())
    }

    /// Puts the address of what the first `n` steps of a place reach into `dst`.
    pub(crate) fn place_addr(
        &self,
        out: &mut A64Out,
        place: &Place,
        n: usize,
        dst: Reg,
    ) -> (r: Result<(), CodegenError>)
        requires
            self.ok(),
            old(out).ok(),
            self.env().place_ok(*place),
            n <= place.proj@.len(),
        ensures
            a64_lowered(r, final(out)@, self.env().place_addr(old(out)@, *place, n, dst)),
            r is Ok ==> final(out).ok() && grew(old(out)@.text.labels, final(out)@.text.labels),
        decreases place, 2nat, 0nat,
    {
        let ghost l0 = out@.text.labels;
        proof {
            grew_refl(l0);
        }
        if n == 0 {
            let ghost k8 = out@.text.labels;
            self.lea_home(out, dst, self.home(place.base));
            proof {
                grew_trans(l0, k8, out@.text.labels);
            }
        } else if self.starts_with_deref(place) {
            let ghost k9 = out@.text.labels;
            self.ld(out, dst, Reg(FP), self.home(place.base), MemSize::X);
            proof {
                grew_trans(l0, k9, out@.text.labels);
            }
            let ghost k10 = out@.text.labels;
            match self.place_steps(out, place, 1, n, dst) {
                Ok(_) => {},
                Err(e) => {
                    return Err(e);
                },
            }
            proof {
                grew_trans(l0, k10, out@.text.labels);
            }
        } else {
            let ghost k11 = out@.text.labels;
            self.lea_home(out, dst, self.home(place.base));
            proof {
                grew_trans(l0, k11, out@.text.labels);
            }
            let ghost k12 = out@.text.labels;
            match self.place_steps(out, place, 0, n, dst) {
                Ok(_) => {},
                Err(e) => {
                    return Err(e);
                },
            }
            proof {
                grew_trans(l0, k12, out@.text.labels);
            }
        }
        Ok(())
    }

    /// Moves the address in `dst` by the steps from the `i`-th on.
    pub(crate) fn place_steps(
        &self,
        out: &mut A64Out,
        place: &Place,
        i: usize,
        n: usize,
        dst: Reg,
    ) -> (r: Result<(), CodegenError>)
        requires
            self.ok(),
            old(out).ok(),
            self.env().place_ok(*place),
            n <= place.proj@.len(),
        ensures
            a64_lowered(r, final(out)@, self.env().place_steps(old(out)@, *place, i, n, dst)),
            r is Ok ==> final(out).ok() && grew(old(out)@.text.labels, final(out)@.text.labels),
        decreases place, 1nat, n - i,
    {
        let ghost l0 = out@.text.labels;
        proof {
            grew_refl(l0);
        }
        if i < n {
            let ghost k13 = out@.text.labels;
            match self.place_step(out, place, i, dst) {
                Ok(_) => {},
                Err(e) => {
                    return Err(e);
                },
            }
            proof {
                grew_trans(l0, k13, out@.text.labels);
            }
            let ghost k14 = out@.text.labels;
            match self.place_steps(out, place, (i + 1) as usize, n, dst) {
                Ok(_) => {},
                Err(e) => {
                    return Err(e);
                },
            }
            proof {
                grew_trans(l0, k14, out@.text.labels);
            }
        }
        Ok(())
    }

    /// The offset of a payload of a type behind an error tag.
    pub(crate) fn payload_start(&self, ty: TypeId) -> (r: u32)
        requires
            self.ok(),
            self.env().prog.arena.has(ty),
        ensures
            r == self.env().payload_start(ty),
    {
        let a: u64 = self.layout(ty).align;
        proof {
            up_facts(2, a as int);
        }
        round_up(2, a) as u32
    }

    /// Moves the address in `dst` by one step.
    pub(crate) fn place_step(
        &self,
        out: &mut A64Out,
        place: &Place,
        i: usize,
        dst: Reg,
    ) -> (r: Result<(), CodegenError>)
        requires
            self.ok(),
            old(out).ok(),
            self.env().place_ok(*place),
            i < place.proj@.len(),
        ensures
            a64_lowered(r, final(out)@, self.env().place_step(old(out)@, *place, i, dst)),
            r is Ok ==> final(out).ok() && grew(old(out)@.text.labels, final(out)@.text.labels),
        decreases place, 0nat, 0nat,
    {
        let ghost l0 = out@.text.labels;
        proof {
            grew_refl(l0);
            step_ok_at(self.env(), *place, place.proj@.len() as int, i as int);
        }
        if i < place.proj.len() {
            match &place.proj[i as usize] {
                Proj::Deref => {
                    out.text.load(dst, dst, 0, MemSize::X);
                },
                Proj::Field { index, .. } => {
                    let off: u64 = self.field_offset(self.walked(place, i), *index as usize);
                    if off != 0 {
                        out.text.add_imm_pos(dst, dst, off as u32);
                    }
                },
                Proj::Index { at, .. } => {
                    let stride: u64 = self.elem_bytes(self.walked(place, i));
                    let ghost k15 = out@.text.labels;
                    match self.operand_to(out, at, Reg(S5)) {
                        Ok(_) => {},
                        Err(e) => {
                            return Err(e);
                        },
                    }
                    proof {
                        grew_trans(l0, k15, out@.text.labels);
                    }
                    match log2_exact(stride) {
                        Some(sh) => {
                            out.text.add_lsl(dst, dst, Reg(S5), sh);
                        },
                        None => {
                            out.text.mov_imm(Reg(S4), stride as i64);
                            out.text.mul(Reg(S5), Reg(S5), Reg(S4));
                            out.text.add(dst, dst, Reg(S5));
                        },
                    }
                },
                Proj::SliceMeta { which, .. } => {
                    match *which {
                        SliceMeta::Ptr => {},
                        SliceMeta::Len => {
                            out.text.add_imm_pos(dst, dst, 8);
                        },
                    }
                },
                Proj::Payload { ty } => {
                    out.text.add_imm_pos(dst, dst, self.payload_start(*ty));
                },
            }
        }
        Ok(())
    }

    /// The stride of the elements of a container.
    pub(crate) fn elem_bytes(&self, ty: TypeId) -> (r: u64)
        requires
            self.ok(),
            self.env().prog.arena.has(ty),
        ensures
            r == self.env().elem_bytes(ty),
    {
        elem_size(&self.prog.arena, ty)
    }

    /// Loads a two-word operand.
    pub(crate) fn eval_wide_operand(
        &self,
        out: &mut A64Out,
        op: &Operand,
        lo: Reg,
        hi: Reg,
    ) -> (r: Result<(), CodegenError>)
        requires
            self.ok(),
            old(out).ok(),
            self.env().operand_ok(*op),
        ensures
            a64_lowered(r, final(out)@, self.env().eval_wide_operand(old(out)@, *op, lo, hi)),
            r is Ok ==> final(out).ok() && grew(old(out)@.text.labels, final(out)@.text.labels),
    {
        let ghost l0 = out@.text.labels;
        proof {
            reveal(A64Func::eval_wide_operand);
            grew_refl(l0);
        }
        match op {
            Operand::Copy(p) => {
                let ghost k16 = out@.text.labels;
                match self.place_addr(out, p, p.proj.len(), Reg(ADDR)) {
                    Ok(_) => {},
                    Err(e) => {
                        return Err(e);
                    },
                }
                proof {
                    grew_trans(l0, k16, out@.text.labels);
                }
                out.text.load(lo, Reg(ADDR), 0, MemSize::X);
                out.text.load(hi, Reg(ADDR), 8, MemSize::X);
            },
            Operand::Const(c) => {
                match *c {
                    Const::Int { value, .. } => {
                        out.text.mov_imm(lo, lo_word(value));
                        out.text.mov_imm(hi, hi_word(value));
                    },
                    _ => {
                        return Err(self.unsup("a 128-bit non-int operand"));
                    },
                }
            },
        }
        Ok(())
    }

    /// Stores two words.
    pub(crate) fn store_pair(&self, out: &mut A64Out, home: i32, lo: Reg, hi: Reg)
        requires
            self.ok(),
            old(out).ok(),
        ensures
            final(out)@ == self.env().store_pair(old(out)@, home, lo, hi),
            final(out).ok(),
            grew(old(out)@.text.labels, final(out)@.text.labels),
    {
        let ghost l0 = out@.text.labels;
        proof {
            reveal(A64Func::store_pair);
            grew_refl(l0);
        }
        let ghost k17 = out@.text.labels;
        self.st(out, lo, Reg(FP), home, MemSize::X);
        proof {
            grew_trans(l0, k17, out@.text.labels);
        }
        let ghost k18 = out@.text.labels;
        self.st_hi(out, hi, Reg(FP), home);
        proof {
            grew_trans(l0, k18, out@.text.labels);
        }
    }

    /// Whether an operand is a signed integer.
    pub(crate) fn operand_signed(&self, op: &Operand) -> (r: bool)
        requires
            self.ok(),
            self.env().operand_ok(*op),
        ensures
            r == self.env().operand_signed(*op),
    {
        match self.operand_type(op) {
            Some(t) => self.repr_of(t).signed,
            None => false,
        }
    }

    /// Computes a two-word integer.
    pub(crate) fn lower_wide_rvalue(
        &self,
        out: &mut A64Out,
        dst: LocalId,
        rvalue: &Rvalue,
    ) -> (r: Result<(), CodegenError>)
        requires
            self.ok(),
            old(out).ok(),
            dst.0 < self.env().func.locals@.len(),
            self.env().rvalue_ok(*rvalue),
        ensures
            a64_lowered(r, final(out)@, self.env().lower_wide_rvalue(old(out)@, dst, *rvalue)),
            r is Ok ==> final(out).ok() && grew(old(out)@.text.labels, final(out)@.text.labels),
    {
        let ghost l0 = out@.text.labels;
        proof {
            reveal(A64Func::lower_wide_rvalue);
            grew_refl(l0);
        }
        match rvalue {
            Rvalue::Use(op) => {
                let ghost k19 = out@.text.labels;
                match self.eval_wide_operand(out, op, Reg(RES), Reg(S2)) {
                    Ok(_) => {},
                    Err(e) => {
                        return Err(e);
                    },
                }
                proof {
                    grew_trans(l0, k19, out@.text.labels);
                }
                let ghost k20 = out@.text.labels;
                self.store_pair(out, self.home(dst), Reg(RES), Reg(S2));
                proof {
                    grew_trans(l0, k20, out@.text.labels);
                }
            },
            Rvalue::Cast { operand, .. } => {
                let ghost k21 = out@.text.labels;
                match self.operand_to(out, operand, Reg(RES)) {
                    Ok(_) => {},
                    Err(e) => {
                        return Err(e);
                    },
                }
                proof {
                    grew_trans(l0, k21, out@.text.labels);
                }
                if self.operand_signed(operand) {
                    out.text.asr_imm(Reg(S2), Reg(RES), 63);
                } else {
                    out.text.mov_imm(Reg(S2), 0);
                }
                let ghost k22 = out@.text.labels;
                self.store_pair(out, self.home(dst), Reg(RES), Reg(S2));
                proof {
                    grew_trans(l0, k22, out@.text.labels);
                }
            },
            _ => {
                return Err(self.unsup3("128-bit rvalue ", rvalue_kind(rvalue), ""));
            },
        }
        Ok(())
    }

    /// Compares two values that are already loaded.
    pub(crate) fn eval_compare(
        &self,
        out: &mut A64Out,
        op: BinOp,
        lhs: &Operand,
        rhs: &Operand,
        ty: TypeId,
    )
        requires
            self.ok(),
            old(out).ok(),
            compares(op),
            self.env().operand_ok(*lhs),
            self.env().operand_ok(*rhs),
            self.env().prog.arena.has(ty),
        ensures
            final(out)@ == self.env().eval_compare(old(out)@, op, *lhs, *rhs, ty),
            final(out).ok(),
            grew(old(out)@.text.labels, final(out)@.text.labels),
    {
        let ghost l0 = out@.text.labels;
        proof {
            reveal(A64Func::eval_compare);
            grew_refl(l0);
        }
        let ghost k23 = out@.text.labels;
        self.normalize(out, Reg(RES), self.type_or(lhs, ty));
        proof {
            grew_trans(l0, k23, out@.text.labels);
        }
        let ghost k24 = out@.text.labels;
        self.normalize(out, Reg(S2), self.type_or(rhs, ty));
        proof {
            grew_trans(l0, k24, out@.text.labels);
        }
        out.text.cmp(Reg(RES), Reg(S2));
        out.text.cset(Reg(RES), compare_cc(op, self.repr_of(ty).signed));
    }

    /// Computes on two values that are already loaded.
    pub(crate) fn eval_arith(
        &self,
        out: &mut A64Out,
        op: BinOp,
        signed: bool,
    ) -> (r: Result<(), CodegenError>)
        requires
            self.ok(),
            old(out).ok(),
        ensures
            a64_lowered(r, final(out)@, self.env().eval_arith(old(out)@, op, signed)),
            r is Ok ==> final(out).ok() && grew(old(out)@.text.labels, final(out)@.text.labels),
    {
        let ghost l0 = out@.text.labels;
        proof {
            reveal(A64Func::eval_arith);
            grew_refl(l0);
        }
        match op {
            BinOp::Add => {
                out.text.add(Reg(RES), Reg(RES), Reg(S2));
            },
            BinOp::Sub => {
                out.text.sub(Reg(RES), Reg(RES), Reg(S2));
            },
            BinOp::Mul => {
                out.text.mul(Reg(RES), Reg(RES), Reg(S2));
            },
            BinOp::BitAnd => {
                out.text.and(Reg(RES), Reg(RES), Reg(S2));
            },
            BinOp::BitOr => {
                out.text.orr(Reg(RES), Reg(RES), Reg(S2));
            },
            BinOp::BitXor => {
                out.text.eor(Reg(RES), Reg(RES), Reg(S2));
            },
            BinOp::Div => {
                if signed {
                    out.text.sdiv(Reg(RES), Reg(RES), Reg(S2));
                } else {
                    out.text.udiv(Reg(RES), Reg(RES), Reg(S2));
                }
            },
            BinOp::Rem => {
                if signed {
                    out.text.sdiv(Reg(S3), Reg(RES), Reg(S2));
                } else {
                    out.text.udiv(Reg(S3), Reg(RES), Reg(S2));
                }
                out.text.msub(Reg(RES), Reg(S3), Reg(S2), Reg(RES));
            },
            BinOp::Shl => {
                out.text.lslv(Reg(RES), Reg(RES), Reg(S2));
            },
            BinOp::Shr => {
                if signed {
                    out.text.asrv(Reg(RES), Reg(RES), Reg(S2));
                } else {
                    out.text.lsrv(Reg(RES), Reg(RES), Reg(S2));
                }
            },
            _ => {
                return Err(self.unsup("a comparison op reached the arithmetic arm"));
            },
        }
        Ok(())
    }

    /// Computes a binary operation.
    pub(crate) fn eval_binary(
        &self,
        out: &mut A64Out,
        op: BinOp,
        lhs: &Operand,
        rhs: &Operand,
        ty: TypeId,
    ) -> (r: Result<(), CodegenError>)
        requires
            self.ok(),
            old(out).ok(),
            self.env().operand_ok(*lhs),
            self.env().operand_ok(*rhs),
            self.env().prog.arena.has(ty),
        ensures
            a64_lowered(r, final(out)@, self.env().eval_binary(old(out)@, op, *lhs, *rhs, ty)),
            r is Ok ==> final(out).ok() && grew(old(out)@.text.labels, final(out)@.text.labels),
    {
        let ghost l0 = out@.text.labels;
        proof {
            reveal(A64Func::eval_binary);
            grew_refl(l0);
        }
        if self.is_float(ty) {
            return Err(self.unsup("f64 arithmetic"));
        } else {
            let ghost k25 = out@.text.labels;
            match self.operand_to(out, lhs, Reg(RES)) {
                Ok(_) => {},
                Err(e) => {
                    return Err(e);
                },
            }
            proof {
                grew_trans(l0, k25, out@.text.labels);
            }
            let ghost k26 = out@.text.labels;
            match self.operand_to(out, rhs, Reg(S2)) {
                Ok(_) => {},
                Err(e) => {
                    return Err(e);
                },
            }
            proof {
                grew_trans(l0, k26, out@.text.labels);
            }
            if is_comparison(op) {
                let ghost k27 = out@.text.labels;
                self.eval_compare(out, op, lhs, rhs, ty);
                proof {
                    grew_trans(l0, k27, out@.text.labels);
                }
            } else {
                let ghost k28 = out@.text.labels;
                match self.eval_arith(out, op, self.repr_of(ty).signed) {
                    Ok(_) => {},
                    Err(e) => {
                        return Err(e);
                    },
                }
                proof {
                    grew_trans(l0, k28, out@.text.labels);
                }
                let ghost k29 = out@.text.labels;
                self.normalize(out, Reg(RES), ty);
                proof {
                    grew_trans(l0, k29, out@.text.labels);
                }
            }
        }
        Ok(())
    }

    /// Computes a unary operation.
    pub(crate) fn lower_unary(
        &self,
        out: &mut A64Out,
        dst: LocalId,
        un: UnOp,
        operand: &Operand,
        ty: TypeId,
    ) -> (r: Result<(), CodegenError>)
        requires
            self.ok(),
            old(out).ok(),
            dst.0 < self.env().func.locals@.len(),
            self.env().operand_ok(*operand),
            self.env().prog.arena.has(ty),
        ensures
            a64_lowered(r, final(out)@, self.env().lower_unary(old(out)@, dst, un, *operand, ty)),
            r is Ok ==> final(out).ok() && grew(old(out)@.text.labels, final(out)@.text.labels),
    {
        let ghost l0 = out@.text.labels;
        proof {
            reveal(A64Func::lower_unary);
            grew_refl(l0);
        }
        let ghost k30 = out@.text.labels;
        match self.operand_to(out, operand, Reg(RES)) {
            Ok(_) => {},
            Err(e) => {
                return Err(e);
            },
        }
        proof {
            grew_trans(l0, k30, out@.text.labels);
        }
        match un {
            UnOp::Neg => {
                out.text.neg(Reg(RES), Reg(RES));
                let ghost k31 = out@.text.labels;
                self.normalize(out, Reg(RES), ty);
                proof {
                    grew_trans(l0, k31, out@.text.labels);
                }
            },
            UnOp::BitNot => {
                out.text.mvn(Reg(RES), Reg(RES));
                let ghost k32 = out@.text.labels;
                self.normalize(out, Reg(RES), ty);
                proof {
                    grew_trans(l0, k32, out@.text.labels);
                }
            },
            UnOp::Not => {
                out.text.mov_imm(Reg(S2), 1);
                out.text.eor(Reg(RES), Reg(RES), Reg(S2));
            },
        }
        let ghost k33 = out@.text.labels;
        self.store_scalar(out, dst, Reg(RES));
        proof {
            grew_trans(l0, k33, out@.text.labels);
        }
        Ok(())
    }

    /// Stores how the value in the result register stands to zero.
    pub(crate) fn store_test(&self, out: &mut A64Out, dst: LocalId, cc: Cc)
        requires
            self.ok(),
            old(out).ok(),
            dst.0 < self.env().func.locals@.len(),
        ensures
            final(out)@ == self.env().store_test(old(out)@, dst, cc),
            final(out).ok(),
            grew(old(out)@.text.labels, final(out)@.text.labels),
    {
        let ghost l0 = out@.text.labels;
        proof {
            reveal(A64Func::store_test);
            grew_refl(l0);
        }
        out.text.cmp_imm(Reg(RES), 0);
        out.text.cset(Reg(RES), cc);
        let ghost k34 = out@.text.labels;
        self.store_scalar(out, dst, Reg(RES));
        proof {
            grew_trans(l0, k34, out@.text.labels);
        }
    }

    /// Loads the tag of an error union.
    pub(crate) fn load_tag(&self, out: &mut A64Out, op: &Operand) -> (r: Result<(), CodegenError>)
        requires
            self.ok(),
            old(out).ok(),
            self.env().operand_ok(*op),
        ensures
            a64_lowered(r, final(out)@, self.env().load_tag(old(out)@, *op)),
            r is Ok ==> final(out).ok() && grew(old(out)@.text.labels, final(out)@.text.labels),
    {
        let ghost l0 = out@.text.labels;
        proof {
            reveal(A64Func::load_tag);
            grew_refl(l0);
        }
        match op {
            Operand::Copy(p) => {
                let ghost k35 = out@.text.labels;
                match self.place_addr(out, p, p.proj.len(), Reg(ADDR)) {
                    Ok(_) => {},
                    Err(e) => {
                        return Err(e);
                    },
                }
                proof {
                    grew_trans(l0, k35, out@.text.labels);
                }
                out.text.load(Reg(RES), Reg(ADDR), 0, MemSize::H);
            },
            Operand::Const(_) => {
                out.text.mov_imm(Reg(RES), 0);
            },
        }
        Ok(())
    }

    /// Whether an error union is an error.
    pub(crate) fn lower_discr_error_union(
        &self,
        out: &mut A64Out,
        dst: LocalId,
        operand: &Operand,
    ) -> (r: Result<(), CodegenError>)
        requires
            self.ok(),
            old(out).ok(),
            dst.0 < self.env().func.locals@.len(),
            self.env().operand_ok(*operand),
        ensures
            a64_lowered(
                r,
                final(out)@,
                self.env().lower_discr_error_union(old(out)@, dst, *operand),
            ),
            r is Ok ==> final(out).ok() && grew(old(out)@.text.labels, final(out)@.text.labels),
    {
        let ghost l0 = out@.text.labels;
        proof {
            reveal(A64Func::lower_discr_error_union);
            grew_refl(l0);
        }
        if self.operand_is_error_union(operand) {
            let ghost k36 = out@.text.labels;
            match self.load_tag(out, operand) {
                Ok(_) => {},
                Err(e) => {
                    return Err(e);
                },
            }
            proof {
                grew_trans(l0, k36, out@.text.labels);
            }
        } else {
            let ghost k37 = out@.text.labels;
            match self.operand_to(out, operand, Reg(RES)) {
                Ok(_) => {},
                Err(e) => {
                    return Err(e);
                },
            }
            proof {
                grew_trans(l0, k37, out@.text.labels);
            }
        }
        let ghost k38 = out@.text.labels;
        self.store_test(out, dst, Cc::Ne);
        proof {
            grew_trans(l0, k38, out@.text.labels);
        }
        Ok(())
    }

    /// The offset of the flag of an optional.
    pub(crate) fn flag_at(&self, ty: TypeId) -> (r: u64)
        requires
            self.ok(),
            self.env().prog.arena.has(ty),
        ensures
            r == self.env().flag_at(ty),
    {
        match optional_flag_off(&self.prog.arena, ty) {
            Some(o) => o,
            None => 0,
        }
    }

    /// Loads the flag of an optional.
    pub(crate) fn load_flag(
        &self,
        out: &mut A64Out,
        op: &Operand,
        ty: TypeId,
    ) -> (r: Result<(), CodegenError>)
        requires
            self.ok(),
            old(out).ok(),
            self.env().operand_ok(*op),
            self.env().prog.arena.has(ty),
        ensures
            a64_lowered(r, final(out)@, self.env().load_flag(old(out)@, *op, ty)),
            r is Ok ==> final(out).ok() && grew(old(out)@.text.labels, final(out)@.text.labels),
    {
        let ghost l0 = out@.text.labels;
        proof {
            reveal(A64Func::load_flag);
            grew_refl(l0);
        }
        match op {
            Operand::Copy(p) => {
                let ghost k39 = out@.text.labels;
                match self.place_addr(out, p, p.proj.len(), Reg(ADDR)) {
                    Ok(_) => {},
                    Err(e) => {
                        return Err(e);
                    },
                }
                proof {
                    grew_trans(l0, k39, out@.text.labels);
                }
                out.text.load(Reg(RES), Reg(ADDR), self.flag_at(ty) as i64, MemSize::B);
            },
            Operand::Const(_) => {
                out.text.mov_imm(Reg(RES), 0);
            },
        }
        Ok(())
    }

    /// Whether a type is an optional with a flag.
    pub(crate) fn is_flagged_optional(&self, ty: TypeId) -> (r: bool)
        requires
            self.ok(),
            self.env().prog.arena.has(ty),
        ensures
            r == self.env().is_flagged_optional(ty),
    {
        match self.ty(ty) {
            Type::Optional(inner) => !self.is_pointer(inner),
            _ => false,
        }
    }

    /// Whether an optional is null.
    pub(crate) fn lower_discr_optional(
        &self,
        out: &mut A64Out,
        dst: LocalId,
        operand: &Operand,
    ) -> (r: Result<(), CodegenError>)
        requires
            self.ok(),
            old(out).ok(),
            dst.0 < self.env().func.locals@.len(),
            self.env().operand_ok(*operand),
        ensures
            a64_lowered(r, final(out)@, self.env().lower_discr_optional(old(out)@, dst, *operand)),
            r is Ok ==> final(out).ok() && grew(old(out)@.text.labels, final(out)@.text.labels),
    {
        let ghost l0 = out@.text.labels;
        proof {
            reveal(A64Func::lower_discr_optional);
            grew_refl(l0);
        }
        match self.operand_type(operand) {
            Some(ty) => {
                if self.is_flagged_optional(ty) {
                    let ghost k40 = out@.text.labels;
                    match self.load_flag(out, operand, ty) {
                        Ok(_) => {},
                        Err(e) => {
                            return Err(e);
                        },
                    }
                    proof {
                        grew_trans(l0, k40, out@.text.labels);
                    }
                } else {
                    let ghost k41 = out@.text.labels;
                    match self.operand_to(out, operand, Reg(RES)) {
                        Ok(_) => {},
                        Err(e) => {
                            return Err(e);
                        },
                    }
                    proof {
                        grew_trans(l0, k41, out@.text.labels);
                    }
                }
                let ghost k42 = out@.text.labels;
                self.store_test(out, dst, Cc::E);
                proof {
                    grew_trans(l0, k42, out@.text.labels);
                }
            },
            None => {
                return Err(self.unsup("optional discriminant of an untyped operand"));
            },
        }
        Ok(())
    }

    /// The tag type of an operand that is an enum.
    pub(crate) fn enum_tag_of(&self, op: &Operand) -> (r: Option<TypeId>)
        requires
            self.ok(),
            self.env().operand_ok(*op),
        ensures
            r == self.env().enum_tag_of(*op),
            r matches Some(t) ==> self.env().prog.arena.has(t),
    {
        match self.operand_type(op) {
            Some(t) => match self.ty(t) {
                Type::Enum(id) => Some(self.prog.arena.enums[id.0 as usize].tag),
                _ => None,
            },
            None => None,
        }
    }

    /// Whether an operand is a constant of an enum.
    pub(crate) fn is_enum_const(&self, op: &Operand) -> (r: bool)
        requires
            self.ok(),
        ensures
            r == self.env().is_enum_const(*op),
    {
        match op {
            Operand::Copy(_) => false,
            Operand::Const(c) => match *c {
                Const::EnumVal { .. } => true,
                _ => false,
            },
        }
    }

    /// The variant of an enum.
    pub(crate) fn lower_discr_union(
        &self,
        out: &mut A64Out,
        dst: LocalId,
        operand: &Operand,
    ) -> (r: Result<(), CodegenError>)
        requires
            self.ok(),
            old(out).ok(),
            dst.0 < self.env().func.locals@.len(),
            self.env().operand_ok(*operand),
        ensures
            a64_lowered(r, final(out)@, self.env().lower_discr_union(old(out)@, dst, *operand)),
            r is Ok ==> final(out).ok() && grew(old(out)@.text.labels, final(out)@.text.labels),
    {
        let ghost l0 = out@.text.labels;
        proof {
            reveal(A64Func::lower_discr_union);
            grew_refl(l0);
        }
        match self.enum_tag_of(operand) {
            Some(tag) => {
                let ghost k43 = out@.text.labels;
                match self.operand_to(out, operand, Reg(RES)) {
                    Ok(_) => {},
                    Err(e) => {
                        return Err(e);
                    },
                }
                proof {
                    grew_trans(l0, k43, out@.text.labels);
                }
                let ghost k44 = out@.text.labels;
                self.normalize(out, Reg(RES), tag);
                proof {
                    grew_trans(l0, k44, out@.text.labels);
                }
                let ghost k45 = out@.text.labels;
                self.store_scalar(out, dst, Reg(RES));
                proof {
                    grew_trans(l0, k45, out@.text.labels);
                }
            },
            None => {
                if self.is_enum_const(operand) {
                    let ghost k46 = out@.text.labels;
                    match self.operand_to(out, operand, Reg(RES)) {
                        Ok(_) => {},
                        Err(e) => {
                            return Err(e);
                        },
                    }
                    proof {
                        grew_trans(l0, k46, out@.text.labels);
                    }
                    let ghost k47 = out@.text.labels;
                    self.store_scalar(out, dst, Reg(RES));
                    proof {
                        grew_trans(l0, k47, out@.text.labels);
                    }
                } else {
                    return Err(self.unsup("tagged-union (non-enum) discriminant"));
                }
            },
        }
        Ok(())
    }

    /// The discriminant of a value.
    pub(crate) fn lower_discriminant(
        &self,
        out: &mut A64Out,
        dst: LocalId,
        operand: &Operand,
        of: DiscrKind,
    ) -> (r: Result<(), CodegenError>)
        requires
            self.ok(),
            old(out).ok(),
            dst.0 < self.env().func.locals@.len(),
            self.env().operand_ok(*operand),
        ensures
            a64_lowered(
                r,
                final(out)@,
                self.env().lower_discriminant(old(out)@, dst, *operand, of),
            ),
            r is Ok ==> final(out).ok() && grew(old(out)@.text.labels, final(out)@.text.labels),
    {
        let ghost l0 = out@.text.labels;
        proof {
            reveal(A64Func::lower_discriminant);
            grew_refl(l0);
        }
        match of {
            DiscrKind::ErrorUnion => {
                let ghost k48 = out@.text.labels;
                match self.lower_discr_error_union(out, dst, operand) {
                    Ok(_) => {},
                    Err(e) => {
                        return Err(e);
                    },
                }
                proof {
                    grew_trans(l0, k48, out@.text.labels);
                }
            },
            DiscrKind::Optional => {
                let ghost k49 = out@.text.labels;
                match self.lower_discr_optional(out, dst, operand) {
                    Ok(_) => {},
                    Err(e) => {
                        return Err(e);
                    },
                }
                proof {
                    grew_trans(l0, k49, out@.text.labels);
                }
            },
            DiscrKind::Union => {
                let ghost k50 = out@.text.labels;
                match self.lower_discr_union(out, dst, operand) {
                    Ok(_) => {},
                    Err(e) => {
                        return Err(e);
                    },
                }
                proof {
                    grew_trans(l0, k50, out@.text.labels);
                }
            },
        }
        Ok(())
    }
}

} // verus!
