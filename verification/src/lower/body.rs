//! Statements, ends of blocks, returns and traps.
use vstd::prelude::*;

use crate::lines::LineNote;
use crate::encode::LabelId;
use crate::lower::env::{
    Env, FnLower, LowState, Out, grew, grew_longer, grew_refl, grew_trans, lowered, opening_bound,
    opening_call, opening_done, opening_new, opening_start, opening_unbound,
};
use crate::encode::Cc;
use crate::lower::abi::{class_of, classify};
use crate::lower::env::{ArgClass, EntryKind, proj_ok_at};
use crate::lower::place::LastStep;
use crate::lower::print::{PANIC_EXIT, SYS_EXIT, SYS_WRITE};
use crate::lower::scalar::{lo_word, low_mask, mask_of, plus, sum32, wide_lo};
use crate::lower::values::{rvalue_kind, rvalue_kind_text};
use crate::mir::{
    Block, BlockId, Const, IntrinsicPath, IntrinsicRoot, LocalId, Operand, PackedField, Place, Proj,
    Rvalue, Statement, Terminator, TrapReason,
};
use crate::reg::{Gpr, Xmm};
use crate::text::{decimal, push_decimal, same_str};
use crate::types::{Type, TypeId};
use crate::CodegenError;
use vstd::utf8::encode_utf8;

verus! {

/// Whether a computation makes or copies an aggregate.
pub open spec fn builds_aggregate(rv: Rvalue) -> bool {
    match rv {
        Rvalue::Aggregate { .. } => true,
        Rvalue::MakeSlice { .. } => true,
        Rvalue::MakeSome(_, _) => true,
        Rvalue::MakeNull(_) => true,
        Rvalue::MakeOk(_, _) => true,
        Rvalue::MakeErr(_, _) => true,
        Rvalue::Use(_) => true,
        _ => false,
    }
}

pub(crate) fn rvalue_builds_aggregate(rv: &Rvalue) -> (r: bool)
    ensures
        r == builds_aggregate(*rv),
{
    match rv {
        Rvalue::Aggregate { .. } => true,
        Rvalue::MakeSlice { .. } => true,
        Rvalue::MakeSome(_, _) => true,
        Rvalue::MakeNull(_) => true,
        Rvalue::MakeOk(_, _) => true,
        Rvalue::MakeErr(_, _) => true,
        Rvalue::Use(_) => true,
        _ => false,
    }
}

/// What a stopped program says.
pub open spec fn trap_text(reason: TrapReason) -> Seq<char> {
    match reason {
        TrapReason::Bounds => "index out of bounds"@,
        TrapReason::Overflow => "integer overflow"@,
        TrapReason::DivByZero => "division by zero"@,
        TrapReason::NegOverflow => "negation of minimum integer"@,
        TrapReason::NarrowLoss => "cast truncated value"@,
        TrapReason::LenMismatch => "for loop length mismatch"@,
        TrapReason::Unreachable => "reached unreachable code"@,
        TrapReason::Panic => "reached @panic / unwrapped null"@,
    }
}

/// What a stopped program says.
pub fn trap_message(reason: TrapReason) -> (r: &'static str)
    ensures
        r@ == trap_text(reason),
{
    match reason {
        TrapReason::Bounds => "index out of bounds",
        TrapReason::Overflow => "integer overflow",
        TrapReason::DivByZero => "division by zero",
        TrapReason::NegOverflow => "negation of minimum integer",
        TrapReason::NarrowLoss => "cast truncated value",
        TrapReason::LenMismatch => "for loop length mismatch",
        TrapReason::Unreachable => "reached unreachable code",
        TrapReason::Panic => "reached @panic / unwrapped null",
    }
}

/// The line that a stopped program writes.
pub open spec fn panic_line_text(reason: TrapReason) -> Seq<char> {
    "panic: "@ + trap_text(reason) + "\n"@
}

pub(crate) fn panic_line(reason: TrapReason) -> (r: String)
    ensures
        r@ == panic_line_text(reason),
{
    let mut line = String::from_str("panic: ");
    line.append(trap_message(reason));
    line.append("\n");
    line
}

/// The line that a program writes for an error that leaves its entry.
pub open spec fn error_line_text(name: Seq<char>) -> Seq<char> {
    "error: "@ + name + "\n"@
}

pub(crate) fn error_line(name: &str) -> (r: String)
    ensures
        r@ == error_line_text(name@),
{
    let mut line = String::from_str("error: ");
    line.append(name);
    line.append("\n");
    line
}

/// A value as an immediate operand, where it fits.
pub open spec fn immediate_of(v: i128) -> Option<i32> {
    if i32::MIN <= v <= i32::MAX {
        Some(v as i32)
    } else {
        None
    }
}

pub(crate) fn immediate(v: i128) -> (r: Option<i32>)
    ensures
        r == immediate_of(v),
{
    if -0x8000_0000 <= v && v <= 0x7FFF_FFFF {
        Some(v as i32)
    } else {
        None
    }
}

impl Env {
    /// The name of an error, from the `i`-th on.
    pub open spec fn error_name_from(self, tag: u16, i: int) -> Seq<char>
        decreases self.prog.err_names@.len() - i,
    {
        if i < 0 || i >= self.prog.err_names@.len() {
            "error"@ + decimal(tag as nat)
        } else if self.prog.err_names@[i].0.0 == tag {
            self.prog.err_names@[i].1@
        } else {
            self.error_name_from(tag, i + 1)
        }
    }

    /// The name of an error; one without a name goes by its tag.
    pub open spec fn error_name(self, tag: u16) -> Seq<char> {
        self.error_name_from(tag, 0)
    }

    /// The stride of the elements of the slice that a place is an element of, where
    /// they are larger than a word.
    pub open spec fn slice_index_aggregate_stride(self, place: Place) -> Option<u64> {
        let n = (place.proj@.len() - 1) as usize;
        match place.proj@[n as int] {
            Proj::Index { ty, .. } => if self.is_slice(self.type_at(place, n))
                && self.slice_elem_stride(ty) > 8 {
                Some(self.slice_elem_stride(ty))
            } else {
                None
            },
            _ => None,
        }
    }

    /// The type by which the result of a computation is built in memory, if it is.
    pub open spec fn effective_agg_ty(self, dst: LocalId, rv: Rvalue) -> Option<TypeId> {
        if self.in_memory(self.local_ty(dst)) {
            Some(self.local_ty(dst))
        } else if self.home(dst) is Some && builds_aggregate(rv) {
            match self.alloc.home_ty@[dst.0 as int] {
                Some(ty) => if self.in_memory(ty) || self.alloc.home_size@[dst.0 as int] is Some {
                    Some(ty)
                } else {
                    None
                },
                None => None,
            }
        } else {
            None
        }
    }
}

impl FnLower<'_> {
    fn error_name(&self, tag: u16) -> (r: String)
        ensures
            r@ == self.env().error_name(tag),
    {
        let mut i: usize = 0;
        while i < self.prog.err_names.len()
            invariant
                i <= self.prog.err_names@.len(),
                self.env().error_name(tag) == self.env().error_name_from(tag, i as int),
            decreases self.prog.err_names@.len() - i,
        {
            if self.prog.err_names[i].0.0 == tag {
                return String::from_str(self.prog.err_names[i].1.as_str());
            }
            i = i + 1;
        }
        let mut name = String::from_str("error");
        push_decimal(&mut name, tag as u32);
        name
    }

    fn slice_index_aggregate_stride(&self, place: &Place) -> (r: Option<u64>)
        requires
            self.ok(),
            self.env().place_ok(*place),
            place.proj@.len() > 0,
        ensures
            r == self.env().slice_index_aggregate_stride(*place),
    {
        let n: usize = place.proj.len() - 1;
        proof {
            proj_ok_at(self.env(), *place, place.proj@.len() as int, n as int);
        }
        match &place.proj[n] {
            Proj::Index { ty, .. } => if self.is_slice(self.type_at(place, n))
                && self.slice_elem_stride(*ty) > 8 {
                Some(self.slice_elem_stride(*ty))
            } else {
                None
            },
            _ => None,
        }
    }

    fn effective_agg_ty(&self, dst: LocalId, rv: &Rvalue) -> (r: Option<TypeId>)
        requires
            self.ok(),
            dst.0 < self.env().func.locals@.len(),
        ensures
            r == self.env().effective_agg_ty(dst, *rv),
            r matches Some(t) ==> self.env().prog.arena.has(t),
    {
        let ty: TypeId = self.local_ty(dst);
        if self.in_memory(ty) {
            return Some(ty);
        }
        if self.home(dst).is_some() && rvalue_builds_aggregate(rv) {
            assert(self.alloc.home_ty@[dst.0 as int] == self.env().alloc.home_ty@[dst.0 as int]);
            match self.alloc.home_ty[dst.0 as usize] {
                Some(t) => {
                    if self.in_memory(t) || self.alloc.home_size[dst.0 as usize].is_some() {
                        return Some(t);
                    }
                },
                None => {},
            }
        }
        None
    }
}

impl Env {
    /// Stores into a bit field of the packed struct that all but the last step reach.
    #[verifier::opaque]
    pub open spec fn store_packed_field(
        self,
        s: LowState,
        place: Place,
        pf: PackedField,
        src: Gpr,
    ) -> LowState {
        let s = if pf.width == 0 || pf.width > 64 || pf.off > 64 - pf.width {
            s.fail(
                self.unsup(
                    "packed bit-field store wider than 64 bits or straddling the 64-bit limb"@,
                ),
            )
        } else {
            let n = (place.proj@.len() - 1) as usize;
            let s = self.place_addr_general(s, place, n, Gpr::R11);
            if s.err is Some {
                s
            } else {
                let s = self.mask_to(s, src, mask_of(pf.width));
                let s = if pf.off != 0 {
                    let s = s.on(s.text.shl_ri(src, pf.off as u8));
                    s
                } else {
                    s
                };
                let s = s.on(s.text.mov_load_mem(Gpr::Rcx, Gpr::R11, 0));
                let s = self.clear_field(s, Gpr::Rcx, pf.off, pf.width);
                let s = s.on(s.text.or_rr(Gpr::Rcx, src));
                let s = s.on(s.text.mov_store_mem(Gpr::R11, 0, Gpr::Rcx));
                s
            }
        };
        s
    }

    /// Stores a string.
    #[verifier::opaque]
    pub open spec fn text_words(self, s: LowState, at: i32, text: Seq<char>) -> LowState {
        let off = s.ro.offset_of(encode_utf8(text));
        let s = s.with_data(encode_utf8(text));
        let n = encode_utf8(text).len() as i64;
        let s = s.on(s.text.mov_ri_data(Gpr::Rax, off));
        let s = s.on(s.text.mov_store_mem(Gpr::Rbp, at, Gpr::Rax));
        let s = s.on(s.text.mov_ri(Gpr::Rax, n));
        let s = s.on(s.text.mov_store_mem(Gpr::Rbp, sum32(at, 8), Gpr::Rax));
        s
    }

    /// The tag of the `i`-th error.
    pub open spec fn tag_at(self, i: usize) -> i32 {
        self.prog.err_names@[i as int].0.0 as i32
    }

    /// Stores the name of the `i`-th error.
    #[verifier::opaque]
    pub open spec fn name_at(self, s: LowState, at: i32, i: usize) -> LowState {
        let s = self.text_words(s, at, self.prog.err_names@[i as int].1@);
        s
    }

    /// Stores the name of the `i`-th error, if `rcx` is its tag.
    #[verifier::opaque]
    pub open spec fn error_name_case(
        self,
        s: LowState,
        home: i32,
        done: LabelId,
        i: usize,
    ) -> LowState {
        let next = s.text.fresh();
        let s = s.on(s.text.new_label());
        let s = s.on(s.text.cmp_ri(Gpr::Rcx, self.tag_at(i)));
        let s = s.on(s.text.jcc_local(Cc::Ne, next));
        let s = self.name_at(s, home, i);
        let s = s.on(s.text.jmp_local(done));
        let s = s.on(s.text.bind(next));
        s
    }

    /// Stores the name of the error whose tag is in `rcx`.
    pub open spec fn error_name_cases(self, s: LowState, home: i32, done: LabelId) -> LowState {
        self.error_name_cases_from(s, home, done, 0)
    }

    /// The same from the `i`-th on.
    pub open spec fn error_name_cases_from(
        self,
        s: LowState,
        home: i32,
        done: LabelId,
        i: int,
    ) -> LowState
        decreases self.prog.err_names@.len() - i,
    {
        if i < 0 || i >= self.prog.err_names@.len() {
            s
        } else {
            let k = i as usize;
            let s = self.error_name_case(s, home, done, k);
            self.error_name_cases_from(s, home, done, i + 1)
        }
    }

    /// Loads the tag of an error into `dst`.
    #[verifier::opaque]
    pub open spec fn load_error_tag(self, s: LowState, op: Operand, dst: Gpr) -> LowState {
        let s = match op {
            Operand::Copy(p) => {
                let s = if self.operand_is_error_union(op) {
                    let s = self.place_addr_general(s, p, (p.proj@.len() as usize), Gpr::R11);
                    if s.err is Some {
                        s
                    } else {
                        let s = s.on(s.text.movzx16_mem(dst, Gpr::R11, 0));
                        s
                    }
                } else {
                    let s = self.operand_to(s, op, dst);
                    s
                };
                s
            },
            Operand::Const(c) => {
                let s = match c {
                    Const::ErrVal { tag, .. } => {
                        let s = s.on(s.text.mov_ri(dst, tag.0 as i64));
                        s
                    },
                    _ => {
                        s.fail(
                            self.unsup("@errorName operand is neither an error place nor a const"@),
                        )
                    },
                };
                s
            },
        };
        s
    }

    /// Stores the name of an error.
    #[verifier::opaque]
    pub open spec fn build_error_name(
        self,
        s: LowState,
        home: i32,
        args: Seq<Operand>,
    ) -> LowState {
        let s = if args.len() > 0 {
            let s = self.load_error_tag(s, args[0 as int], Gpr::Rcx);
            if s.err is Some {
                s
            } else {
                let done = s.text.fresh();
                let s = s.on(s.text.new_label());
                let s = self.text_words(s, home, "Unknown"@);
                let s = self.error_name_cases(s, home, done);
                let s = s.on(s.text.bind(done));
                s
            }
        } else {
            s.fail(self.unsup("@errorName without an operand"@))
        };
        s
    }

    /// Whether an intrinsic asks for the name of an error.
    pub open spec fn is_error_name(self, path: IntrinsicPath) -> bool {
        match path.root {
            IntrinsicRoot::Builtin(name) => name@ == "errorName"@,
            _ => false,
        }
    }

    /// Computes a value in memory.
    #[verifier::opaque]
    pub open spec fn lower_aggregate_rvalue(
        self,
        s: LowState,
        dst: LocalId,
        rvalue: Rvalue,
        ty: TypeId,
    ) -> LowState {
        let s = match self.home(dst) {
            Some(home) => {
                let s = match rvalue {
                    Rvalue::Aggregate { agg, fields, ty: aty } => {
                        let s = self.build_aggregate(s, home, agg, fields@, aty);
                        s
                    },
                    Rvalue::Use(op) => {
                        let s = self.aggregate_use(s, home, op, ty);
                        s
                    },
                    Rvalue::MakeSlice { ptr, offset, len, ty: sty } => {
                        let s = self.build_make_slice(s, home, ptr, offset, len, sty);
                        s
                    },
                    Rvalue::MakeSome(op, oty) => {
                        let s = self.build_make_some(s, home, op, oty);
                        s
                    },
                    Rvalue::MakeNull(oty) => {
                        let s = self.build_make_null(s, home, oty);
                        s
                    },
                    Rvalue::MakeOk(op, ety) => {
                        let s = self.build_make_ok(s, home, op, ety);
                        s
                    },
                    Rvalue::MakeErr(tag, _) => {
                        let s = self.build_make_err(s, home, tag.0);
                        s
                    },
                    Rvalue::Call { func, args, ty: cty } => {
                        let s = self.lower_call_aggregate(s, dst, func, args@, cty);
                        s
                    },
                    Rvalue::Intrinsic { path, args } => {
                        let s = if self.is_error_name(path) {
                            let s = self.build_error_name(s, home, args@);
                            s
                        } else {
                            s.fail(self.unsup("aggregate rvalue Intrinsic"@))
                        };
                        s
                    },
                    Rvalue::Binary { .. } => {
                        let s = self.scalar_rvalue_into_aggregate(s, home, rvalue, ty);
                        s
                    },
                    Rvalue::Unary { .. } => {
                        let s = self.scalar_rvalue_into_aggregate(s, home, rvalue, ty);
                        s
                    },
                    Rvalue::Cast { .. } => {
                        let s = self.scalar_rvalue_into_aggregate(s, home, rvalue, ty);
                        s
                    },
                    _ => {
                        s.fail(self.unsup3("aggregate rvalue "@, rvalue_kind_text(rvalue), ""@))
                    },
                };
                s
            },
            None => {
                s.fail(self.unsup("aggregate local without a home"@))
            },
        };
        s
    }

    /// Computes a value for its effect alone.
    #[verifier::opaque]
    pub open spec fn lower_rvalue_discard(self, s: LowState, rvalue: Rvalue) -> LowState {
        let s = match rvalue {
            Rvalue::Intrinsic { path, args } => {
                let s = self.lower_intrinsic_into_rax(s, path, args@);
                s
            },
            Rvalue::Call { func, args, .. } => {
                let s = self.lower_call_raw(s, func, args@);
                s
            },
            _ => {
                s
            },
        };
        s
    }

    /// Whether a computation copies a place.
    pub open spec fn copied_place(self, rvalue: Rvalue) -> bool {
        match rvalue {
            Rvalue::Use(op) => match op {
                Operand::Copy(_) => true,
                Operand::Const(_) => false,
            },
            _ => false,
        }
    }

    /// Copies an element of a slice.
    #[verifier::opaque]
    pub open spec fn copy_element(
        self,
        s: LowState,
        place: Place,
        rvalue: Rvalue,
        stride: u64,
    ) -> LowState {
        let s = match rvalue {
            Rvalue::Use(op) => {
                let s = match op {
                    Operand::Copy(p) => {
                        let s = self.place_addr_general(s, p, (p.proj@.len() as usize), Gpr::Rax);
                        if s.err is Some {
                            s
                        } else {
                            let s = self.place_addr(
                                s,
                                place,
                                (place.proj@.len() as usize),
                                Gpr::R11,
                            );
                            if s.err is Some {
                                s
                            } else {
                                let s = self.memcpy(s, Gpr::R11, Gpr::Rax, stride);
                                s
                            }
                        }
                    },
                    Operand::Const(_) => {
                        s
                    },
                };
                s
            },
            _ => {
                s
            },
        };
        s
    }

    /// Computes a scalar into a part of a local.
    #[verifier::opaque]
    pub open spec fn store_scalar_rvalue(
        self,
        s: LowState,
        place: Place,
        rvalue: Rvalue,
        val_ty: TypeId,
    ) -> LowState {
        let s = if self.is_wide_int(val_ty) {
            let s = self.eval_wide_rvalue_into_pair(s, rvalue);
            if s.err is Some {
                s
            } else {
                let s = self.place_addr(s, place, (place.proj@.len() as usize), Gpr::R11);
                if s.err is Some {
                    s
                } else {
                    let s = s.on(s.text.mov_store_mem(Gpr::R11, 0, Gpr::Rax));
                    let s = s.on(s.text.mov_store_mem(Gpr::R11, 8, Gpr::Rdx));
                    s
                }
            }
        } else {
            let s = self.eval_scalar_rvalue_into_rax(s, rvalue, val_ty);
            if s.err is Some {
                s
            } else {
                let s = self.place_addr(s, place, (place.proj@.len() as usize), Gpr::R11);
                if s.err is Some {
                    s
                } else {
                    let s = self.store_sized(s, Gpr::R11, 0, Gpr::Rax, val_ty);
                    s
                }
            }
        };
        s
    }

    /// Computes a value into a part of a local.
    #[verifier::opaque]
    pub open spec fn lower_rvalue_to_place(
        self,
        s: LowState,
        place: Place,
        rvalue: Rvalue,
    ) -> LowState {
        let val_ty = self.place_type(place);
        let s = match self.last_step(place) {
            LastStep::Packed(pf) => {
                let s = self.eval_scalar_rvalue_into_rax(s, rvalue, val_ty);
                if s.err is Some {
                    s
                } else {
                    let s = s.on(s.text.mov_rr(Gpr::Rdx, Gpr::Rax));
                    let s = self.store_packed_field(s, place, pf, Gpr::Rdx);
                    s
                }
            },
            _ => {
                let s = if self.in_memory(val_ty) {
                    let s = self.store_aggregate_rvalue_to_place(s, place, rvalue, val_ty);
                    s
                } else if self.copied_place(rvalue) {
                    let s = match self.slice_index_aggregate_stride(place) {
                        Some(stride) => {
                            let s = self.copy_element(s, place, rvalue, stride);
                            s
                        },
                        None => {
                            let s = self.store_scalar_rvalue(s, place, rvalue, val_ty);
                            s
                        },
                    };
                    s
                } else {
                    let s = self.store_scalar_rvalue(s, place, rvalue, val_ty);
                    s
                };
                s
            },
        };
        s
    }

    /// Whether a type is an error set.
    pub open spec fn is_error_type(self, ty: TypeId) -> bool {
        match self.ty(ty) {
            Type::ErrorSet(_) => true,
            Type::AnyError => true,
            _ => false,
        }
    }

    /// Whether an operand is an error union or holds the result of an allocation.
    pub open spec fn holds_error_union(self, op: Operand) -> bool {
        match op {
            Operand::Copy(p) => self.operand_is_error_union(op) || self.eu_payload_of(p.base).is_some(),
            Operand::Const(_) => false,
        }
    }

    /// Loads the tag of an error union into `dst`.
    #[verifier::opaque]
    pub open spec fn load_tag_of(self, s: LowState, op: Operand, dst: Gpr) -> LowState {
        let s = match op {
            Operand::Copy(p) => {
                let s = self.place_addr_general(s, p, (p.proj@.len() as usize), Gpr::R11);
                if s.err is Some {
                    s
                } else {
                    let s = s.on(s.text.movzx16_mem(dst, Gpr::R11, 0));
                    s
                }
            },
            Operand::Const(_) => {
                s
            },
        };
        s
    }

    /// Copies an operand into a scalar.
    #[verifier::opaque]
    pub open spec fn lower_use(self, s: LowState, dst: LocalId, op: Operand) -> LowState {
        let dst_ty = self.local_ty(dst);
        let s = if self.is_float(dst_ty) {
            let s = self.lower_float_use(s, dst, op);
            s
        } else if self.is_wide_int(dst_ty) {
            let s = match self.home(dst) {
                Some(h) => {
                    let s = self.store_wide_int(s, h, op);
                    s
                },
                None => {
                    s.fail(self.unsup("wide-int local without a home"@))
                },
            };
            s
        } else if self.is_error_type(dst_ty) && self.holds_error_union(op) {
            let s = self.load_tag_of(s, op, Gpr::Rax);
            if s.err is Some {
                s
            } else {
                let s = self.store_scalar_result(s, dst);
                s
            }
        } else {
            let s = self.operand_to(s, op, Gpr::Rax);
            if s.err is Some {
                s
            } else {
                let s = self.normalize(s, Gpr::Rax, dst_ty);
                let s = self.store_scalar_result(s, dst);
                s
            }
        };
        s
    }

    /// Computes a value into a local.
    #[verifier::opaque]
    pub open spec fn lower_rvalue(self, s: LowState, dst: LocalId, rvalue: Rvalue) -> LowState {
        let dst_ty = self.local_ty(dst);
        let s = match self.effective_agg_ty(dst, rvalue) {
            Some(agg_ty) => {
                let s = self.lower_aggregate_rvalue(s, dst, rvalue, agg_ty);
                s
            },
            None => {
                let s = match rvalue {
                    Rvalue::Use(op) => {
                        let s = self.lower_use(s, dst, op);
                        s
                    },
                    Rvalue::Binary { op, lhs, rhs, ty } => {
                        let s = if self.is_float(ty) {
                            let s = self.lower_float_binary(s, dst, op, lhs, rhs);
                            s
                        } else if self.is_wide_int(dst_ty) || self.is_wide_int(ty) {
                            let s = self.lower_wide_binary(s, dst, op, lhs, rhs);
                            s
                        } else {
                            let s = self.eval_binary_into_rax(s, op, lhs, rhs, ty);
                            if s.err is Some {
                                s
                            } else {
                                let s = self.store_scalar_result(s, dst);
                                s
                            }
                        };
                        s
                    },
                    Rvalue::Unary { un, operand, ty } => {
                        let s = if self.is_wide_int(dst_ty) || self.is_wide_int(ty) {
                            let s = self.lower_wide_unary(s, dst, un, operand);
                            s
                        } else {
                            let s = self.lower_unary(s, dst, un, operand, ty);
                            s
                        };
                        s
                    },
                    Rvalue::Cast { kind, operand, ty } => {
                        let s = if (self.is_wide_int(dst_ty) || self.is_wide_int(ty)) && self.extends(kind) {
                            let s = self.lower_wide_cast(s, dst, operand);
                            s
                        } else {
                            let s = self.lower_cast(s, dst, kind, operand, ty);
                            s
                        };
                        s
                    },
                    Rvalue::Call { func, args, ty } => {
                        let s = self.lower_call(s, dst, func, args@, ty);
                        s
                    },
                    Rvalue::Ref { place } => {
                        let s = self.place_addr_general(
                            s,
                            place,
                            (place.proj@.len() as usize),
                            Gpr::Rax,
                        );
                        if s.err is Some {
                            s
                        } else {
                            let s = self.store_scalar_result(s, dst);
                            s
                        }
                    },
                    Rvalue::Intrinsic { path, args } => {
                        let s = if self.eu_payload_of(dst).is_some() {
                            let s = self.lower_alloc_op_into_home(s, dst, path, args@);
                            s
                        } else {
                            let s = self.lower_intrinsic_into_rax(s, path, args@);
                            if s.err is Some {
                                s
                            } else {
                                let s = self.store_scalar_result(s, dst);
                                s
                            }
                        };
                        s
                    },
                    Rvalue::MakeNull(_) => {
                        let s = s.on(s.text.mov_ri(Gpr::Rax, 0));
                        let s = self.store_scalar_result(s, dst);
                        s
                    },
                    Rvalue::MakeSome(op, _) => {
                        let s = self.operand_to(s, op, Gpr::Rax);
                        if s.err is Some {
                            s
                        } else {
                            let s = self.store_scalar_result(s, dst);
                            s
                        }
                    },
                    Rvalue::Discriminant { operand, of } => {
                        let s = self.lower_discriminant(s, dst, operand, of);
                        s
                    },
                    Rvalue::Aggregate { fields, .. } => {
                        let s = if fields.len() == 0 {
                            let s = s.on(s.text.mov_ri(Gpr::Rax, 0));
                            let s = self.store_scalar_result(s, dst);
                            s
                        } else {
                            s.fail(self.unsup("scalar rvalue Aggregate"@))
                        };
                        s
                    },
                    _ => {
                        s.fail(self.unsup3("scalar rvalue "@, rvalue_kind_text(rvalue), ""@))
                    },
                };
                s
            },
        };
        s
    }

    /// Lowers a statement.
    #[verifier::opaque]
    pub open spec fn lower_stmt(self, s: LowState, stmt: Statement) -> LowState {
        let s = match stmt {
            Statement::Assign { place, rvalue } => {
                let s = if place.proj@.len() == 0 {
                    let s = self.lower_rvalue(s, place.base, rvalue);
                    s
                } else {
                    let s = self.lower_rvalue_to_place(s, place, rvalue);
                    s
                };
                s
            },
            Statement::Eval { rvalue } => {
                let s = self.lower_rvalue_discard(s, rvalue);
                s
            },
            _ => {
                s
            },
        };
        s
    }

    /// Lowers the statements of a block.
    pub open spec fn lower_stmts(self, s: LowState, b: Block) -> LowState {
        self.lower_stmts_from(s, b, 0)
    }

    /// The same from the `i`-th on.
    pub open spec fn lower_stmts_from(self, s: LowState, b: Block, i: int) -> LowState
        decreases b.stmts@.len() - i,
    {
        if i < 0 || i >= b.stmts@.len() {
            s
        } else {
            let k = i as usize;
            let s = self.lower_stmt(s, b.stmts[i]);
            if s.err is Some {
                s
            } else {
                self.lower_stmts_from(s, b, i + 1)
            }
        }
    }

    /// What there is to note of a statement that takes `s` to `t`: its instructions and its
    /// line, where it has one.
    pub open spec fn stmt_note(self, s: LowState, t: LowState, line: u32) -> Seq<LineNote> {
        if line == 0 {
            Seq::empty()
        } else {
            seq![
                LineNote {
                    from: s.text.instrs.len() as usize,
                    to: t.text.instrs.len() as usize,
                    line,
                },
            ]
        }
    }

    /// What there is to note of the statements of a block from the `i`-th on.
    pub open spec fn stmt_notes_from(self, s: LowState, b: Block, i: int) -> Seq<LineNote>
        decreases b.stmts@.len() - i,
    {
        if i < 0 || i >= b.stmts@.len() {
            Seq::empty()
        } else {
            let t = self.lower_stmt(s, b.stmts[i]);
            self.stmt_note(s, t, b.line(i)) + self.stmt_notes_from(t, b, i + 1)
        }
    }

    /// Restores a callee-saved register.
    #[verifier::opaque]
    pub open spec fn restore(self, s: LowState, i: usize) -> LowState {
        let slot = self.plan.callee_saved_slots[i as int];
        let s = s.on(s.text.mov_load(slot.0, slot.1));
        s
    }

    /// Restores the callee-saved registers.
    pub open spec fn restore_saved(self, s: LowState) -> LowState {
        self.restore_saved_from(s, 0)
    }

    /// The same from the `i`-th on.
    pub open spec fn restore_saved_from(self, s: LowState, i: int) -> LowState
        decreases self.plan.callee_saved_slots.len() - i,
    {
        if i < 0 || i >= self.plan.callee_saved_slots.len() {
            s
        } else {
            let k = i as usize;
            let s = self.restore(s, k);
            self.restore_saved_from(s, i + 1)
        }
    }

    /// Saves a callee-saved register.
    #[verifier::opaque]
    pub open spec fn save(self, s: LowState, i: usize) -> LowState {
        let slot = self.plan.callee_saved_slots[i as int];
        let s = s.on(s.text.mov_store(slot.1, slot.0));
        s
    }

    /// Saves the callee-saved registers.
    pub open spec fn save_all(self, s: LowState) -> LowState {
        self.save_all_from(s, 0)
    }

    /// The same from the `i`-th on.
    pub open spec fn save_all_from(self, s: LowState, i: int) -> LowState
        decreases self.plan.callee_saved_slots.len() - i,
    {
        if i < 0 || i >= self.plan.callee_saved_slots.len() {
            s
        } else {
            let k = i as usize;
            let s = self.save(s, k);
            self.save_all_from(s, i + 1)
        }
    }

    /// Restores the callee-saved registers and returns.
    #[verifier::opaque]
    pub open spec fn epilogue_and_ret(self, s: LowState) -> LowState {
        let s = self.restore_saved(s);
        let s = s.on(s.text.leave());
        let s = s.on(s.text.ret());
        s
    }

    /// Writes a string to the standard error.
    #[verifier::opaque]
    pub open spec fn write_text(self, s: LowState, text: Seq<char>) -> LowState {
        let off = s.ro.offset_of(encode_utf8(text));
        let s = s.with_data(encode_utf8(text));
        let n = encode_utf8(text).len() as i64;
        let s = s.on(s.text.mov_ri(Gpr::Rdi, 2));
        let s = s.on(s.text.mov_ri_data(Gpr::Rsi, off));
        let s = s.on(s.text.mov_ri(Gpr::Rdx, n));
        let s = s.on(s.text.mov_ri(Gpr::Rax, SYS_WRITE));
        let s = s.on(s.text.syscall());
        s
    }

    /// Exits.
    #[verifier::opaque]
    pub open spec fn exit_with(self, s: LowState, code: i64) -> LowState {
        let s = s.on(s.text.mov_ri(Gpr::Rdi, code));
        let s = s.on(s.text.mov_ri(Gpr::Rax, SYS_EXIT));
        let s = s.on(s.text.syscall());
        s
    }

    /// Writes the line for an error.
    #[verifier::opaque]
    pub open spec fn write_error_line(self, s: LowState, name: Seq<char>) -> LowState {
        let line = error_line_text(name);
        let s = self.write_text(s, line);
        s
    }

    /// Writes the line for the `i`-th error.
    #[verifier::opaque]
    pub open spec fn write_error_at(self, s: LowState, i: usize) -> LowState {
        let s = self.write_error_line(s, self.prog.err_names@[i as int].1@);
        s
    }

    /// Writes the line for the `i`-th error, if `rbx` is its tag.
    #[verifier::opaque]
    pub open spec fn escaped_case(self, s: LowState, done: LabelId, i: usize) -> LowState {
        let next = s.text.fresh();
        let s = s.on(s.text.new_label());
        let s = s.on(s.text.cmp_ri(Gpr::Rbx, self.tag_at(i)));
        let s = s.on(s.text.jcc_local(Cc::Ne, next));
        let s = self.write_error_at(s, i);
        let s = s.on(s.text.jmp_local(done));
        let s = s.on(s.text.bind(next));
        s
    }

    /// Writes the line for the error whose tag is in `rbx`.
    pub open spec fn escaped_cases(self, s: LowState, done: LabelId) -> LowState {
        self.escaped_cases_from(s, done, 0)
    }

    /// The same from the `i`-th on.
    pub open spec fn escaped_cases_from(self, s: LowState, done: LabelId, i: int) -> LowState
        decreases self.prog.err_names@.len() - i,
    {
        if i < 0 || i >= self.prog.err_names@.len() {
            s
        } else {
            let k = i as usize;
            let s = self.escaped_case(s, done, k);
            self.escaped_cases_from(s, done, i + 1)
        }
    }

    /// The tag of an error constant.
    pub open spec fn static_tag(self, value: Operand) -> Option<u16> {
        match value {
            Operand::Copy(_) => None,
            Operand::Const(c) => match c {
                Const::ErrVal { tag, .. } => Some(tag.0),
                _ => None,
            },
        }
    }

    /// Loads the tag of an error that leaves the entry into `rbx`.
    #[verifier::opaque]
    pub open spec fn escaped_tag(self, s: LowState, value: Operand) -> LowState {
        let s = match value {
            Operand::Copy(p) => {
                let s = self.place_addr_general(s, p, (p.proj@.len() as usize), Gpr::R11);
                if s.err is Some {
                    s
                } else {
                    let s = s.on(s.text.movzx16_mem(Gpr::Rbx, Gpr::R11, 0));
                    s
                }
            },
            Operand::Const(_) => {
                let s = s.on(s.text.mov_ri(Gpr::Rbx, 0));
                s
            },
        };
        s
    }

    /// Reports an error that leaves the entry and exits.
    #[verifier::opaque]
    pub open spec fn lower_escaped_error(self, s: LowState, value: Operand) -> LowState {
        let s = match self.static_tag(value) {
            Some(tag) => {
                let name = self.error_name(tag);
                let s = self.write_error_line(s, name);
                let s = self.exit_with(s, 1);
                s
            },
            None => {
                let s = self.escaped_tag(s, value);
                if s.err is Some {
                    s
                } else {
                    let done = s.text.fresh();
                    let s = s.on(s.text.new_label());
                    let s = self.escaped_cases(s, done);
                    let s = self.write_error_line(s, "error"@);
                    let s = s.on(s.text.bind(done));
                    let s = self.exit_with(s, 1);
                    s
                }
            },
        };
        s
    }

    /// Whether a returned value may be an error.
    pub open spec fn returns_error(self, value: Operand) -> bool {
        match value {
            Operand::Copy(p) => p.proj@.len() == 0 && (self.is_error_union(
                self.local_ty(p.base),
            ) || self.is_error_type(self.local_ty(p.base))),
            Operand::Const(c) => match c {
                Const::ErrVal { .. } => true,
                _ => false,
            },
        }
    }

    /// Whether a value is nothing.
    pub open spec fn is_void_const(self, value: Operand) -> bool {
        match value {
            Operand::Copy(_) => false,
            Operand::Const(c) => match c {
                Const::Void => true,
                _ => false,
            },
        }
    }

    /// Returns an aggregate through the hidden pointer.
    #[verifier::opaque]
    pub open spec fn return_in_memory(self, s: LowState, value: Operand, size: u64) -> LowState {
        let s = match self.plan.ret_ptr_slot {
            Some(slot) => {
                let s = s.on(s.text.mov_load(Gpr::R11, slot));
                let s = match value {
                    Operand::Copy(p) => {
                        let s = self.place_addr_general(s, p, (p.proj@.len() as usize), Gpr::Rax);
                        if s.err is Some {
                            s
                        } else {
                            let s = self.memcpy(s, Gpr::R11, Gpr::Rax, size);
                            s
                        }
                    },
                    Operand::Const(_) => {
                        s
                    },
                };
                if s.err is Some {
                    s
                } else {
                    let s = s.on(s.text.mov_load(Gpr::Rax, slot));
                    s
                }
            },
            None => {
                s.fail(self.unsup("memory return without an sret slot"@))
            },
        };
        s
    }

    /// Returns an aggregate in registers.
    #[verifier::opaque]
    pub open spec fn return_in_regs(self, s: LowState, value: Operand, ty: TypeId) -> LowState {
        let s = match value {
            Operand::Copy(p) => {
                let s = self.place_addr_general(s, p, (p.proj@.len() as usize), Gpr::R11);
                if s.err is Some {
                    s
                } else {
                    let s = s.on(s.text.mov_load_mem(Gpr::Rax, Gpr::R11, 0));
                    let s = if self.layout(ty).size > 8 {
                        let s = s.on(s.text.mov_load_mem(Gpr::Rdx, Gpr::R11, 8));
                        s
                    } else {
                        s
                    };
                    s
                }
            },
            Operand::Const(_) => {
                let s = if self.is_void_const(value) && self.is_error_union(ty) {
                    let s = s.on(s.text.xor_rr(Gpr::Rax, Gpr::Rax));
                    let s = if self.layout(ty).size > 8 {
                        let s = s.on(s.text.xor_rr(Gpr::Rdx, Gpr::Rdx));
                        s
                    } else {
                        s
                    };
                    s
                } else {
                    s.fail(self.unsup("register-class aggregate return from a non-place"@))
                };
                s
            },
        };
        s
    }

    /// Puts a returned value where the caller finds it.
    #[verifier::opaque]
    pub open spec fn lower_helper_return(self, s: LowState, value: Operand) -> LowState {
        let ty = self.func.ret;
        let s = if self.is_float(ty) {
            let s = self.load_float_operand(s, value, Xmm::Xmm0);
            s
        } else if self.in_memory(ty) {
            let s = match class_of(self.prog, ty) {
                ArgClass::Memory { size } => {
                    let s = self.return_in_memory(s, value, size);
                    s
                },
                ArgClass::OneInt => {
                    let s = self.return_in_regs(s, value, ty);
                    s
                },
                ArgClass::TwoInt => {
                    let s = self.return_in_regs(s, value, ty);
                    s
                },
                ArgClass::Sse => {
                    s
                },
            };
            s
        } else {
            let s = self.operand_to(s, value, Gpr::Rax);
            if s.err is Some {
                s
            } else {
                let s = self.normalize(s, Gpr::Rax, ty);
                s
            }
        };
        s
    }

    /// Returns.
    #[verifier::opaque]
    pub open spec fn lower_return(self, s: LowState, value: Operand) -> LowState {
        let s = if self.kind == EntryKind::VoidEntry && self.returns_error(value) {
            let s = self.lower_escaped_error(s, value);
            s
        } else {
            let s = match self.kind {
                EntryKind::VoidEntry => {
                    let s = s.on(s.text.mov_ri(Gpr::Rax, 0));
                    s
                },
                EntryKind::IntEntry => {
                    let s = self.operand_to(s, value, Gpr::Rax);
                    if s.err is Some {
                        s
                    } else {
                        let s = self.normalize(s, Gpr::Rax, self.func.ret);
                        s
                    }
                },
                EntryKind::Helper => {
                    let s = self.lower_helper_return(s, value);
                    s
                },
            };
            if s.err is Some {
                s
            } else {
                let s = self.epilogue_and_ret(s);
                s
            }
        };
        s
    }

    /// Stops the program with a message.
    #[verifier::opaque]
    pub open spec fn lower_trap(self, s: LowState, reason: TrapReason) -> LowState {
        let line = panic_line_text(reason);
        let s = self.write_text(s, line);
        let s = self.exit_with(s, PANIC_EXIT);
        s
    }

    /// Loads what a switch tests.
    #[verifier::opaque]
    pub open spec fn load_switch_scrutinee(self, s: LowState, op: Operand, dst: Gpr) -> LowState {
        let s = if self.holds_error_union(op) {
            let s = self.load_tag_of(s, op, dst);
            s
        } else {
            let s = self.operand_to(s, op, dst);
            s
        };
        s
    }

    /// Jumps to a block, if `rax` is a value.
    #[verifier::opaque]
    pub open spec fn switch_case(self, s: LowState, value: i128, target: BlockId) -> LowState {
        let s = match immediate_of(value) {
            Some(imm) => {
                let s = s.on(s.text.cmp_ri(Gpr::Rax, imm));
                s
            },
            None => {
                let s = s.on(s.text.mov_ri(Gpr::Rcx, wide_lo(value)));
                let s = s.on(s.text.cmp_rr(Gpr::Rax, Gpr::Rcx));
                s
            },
        };
        let s = s.on(s.text.jcc(Cc::E, LabelId(target.0)));
        s
    }

    /// Jumps to the block for the value in `rax`.
    pub open spec fn switch_cases(self, s: LowState, targets: Seq<(i128, BlockId)>) -> LowState {
        self.switch_cases_from(s, targets, 0)
    }

    /// The same from the `i`-th on.
    pub open spec fn switch_cases_from(
        self,
        s: LowState,
        targets: Seq<(i128, BlockId)>,
        i: int,
    ) -> LowState
        decreases targets.len() - i,
    {
        if i < 0 || i >= targets.len() {
            s
        } else {
            let k = i as usize;
            let s = self.switch_case(s, targets[i].0, targets[i].1);
            self.switch_cases_from(s, targets, i + 1)
        }
    }

    /// Lowers the end of a block.
    #[verifier::opaque]
    pub open spec fn lower_terminator(self, s: LowState, term: Terminator) -> LowState {
        let s = match term {
            Terminator::Goto(t) => {
                let s = s.on(s.text.jmp(LabelId(t.0)));
                s
            },
            Terminator::Branch { cond, then_bb, else_bb } => {
                let s = self.operand_to(s, cond, Gpr::Rax);
                if s.err is Some {
                    s
                } else {
                    let s = s.on(s.text.test_rr(Gpr::Rax, Gpr::Rax));
                    let s = s.on(s.text.jcc(Cc::Ne, LabelId(then_bb.0)));
                    let s = s.on(s.text.jmp(LabelId(else_bb.0)));
                    s
                }
            },
            Terminator::Switch { scrutinee, targets, default } => {
                let s = self.load_switch_scrutinee(s, scrutinee, Gpr::Rax);
                if s.err is Some {
                    s
                } else {
                    let s = self.switch_cases(s, targets@);
                    let s = s.on(s.text.jmp(LabelId(default.0)));
                    s
                }
            },
            Terminator::Return { value } => {
                let s = self.lower_return(s, value);
                s
            },
            Terminator::Trap { reason } => {
                let s = self.lower_trap(s, reason);
                s
            },
            Terminator::Unreachable => {
                let s = self.lower_trap(s, TrapReason::Unreachable);
                s
            },
        };
        s
    }

    /// Lowers a block behind its label.
    #[verifier::opaque]
    pub open spec fn lower_block_body(self, s: LowState, b: Block) -> LowState {
        let s = self.lower_stmts(s, b);
        if s.err is Some {
            s
        } else {
            let s = self.lower_terminator(s, b.term);
            s
        }
    }

    /// Lowers the entry of a function: its frame, saved registers and parameters.
    #[verifier::opaque]
    pub open spec fn lower_entry(self, s: LowState) -> LowState {
        let s = s.on(s.text.push(Gpr::Rbp));
        let s = s.on(s.text.mov_rr(Gpr::Rbp, Gpr::Rsp));
        let s = if self.plan.frame_size > 0 {
            let s = s.on(s.text.sub_rsp_imm(self.plan.frame_size));
            s
        } else {
            s
        };
        let s = self.save_all(s);
        let s = self.lower_prologue_params(s);
        s
    }
}

impl FnLower<'_> {
    /// Stores into a bit field of the packed struct that all but the last step reach.
    pub(crate) fn store_packed_field(
        &self,
        out: &mut Out,
        place: &Place,
        pf: PackedField,
        src: Gpr,
    ) -> (r: Result<(), CodegenError>)
        requires
            self.ok(),
            old(out).ok(),
            self.env().place_ok(*place),
            place.proj@.len() > 0,
        ensures
            lowered(r, final(out)@, self.env().store_packed_field(old(out)@, *place, pf, src)),
            r is Ok ==> final(out).ok() && grew(old(out)@.text.labels, final(out)@.text.labels),
    {
        let ghost l0 = out@.text.labels;
        proof {
            reveal(Env::store_packed_field);
            grew_refl(l0);
        }
        if pf.width == 0 || pf.width > 64 || pf.off > 64 - pf.width {
            return Err(
                self.unsup(
                    "packed bit-field store wider than 64 bits or straddling the 64-bit limb",
                ),
            );
        } else {
            let n: usize = place.proj.len() - 1;
            let ghost k1 = out@.text.labels;
            match self.place_addr_general(out, place, n, Gpr::R11) {
                Ok(_) => {},
                Err(e) => {
                    return Err(e);
                },
            }
            proof {
                grew_trans(l0, k1, out@.text.labels);
            }
            let ghost k2 = out@.text.labels;
            self.mask_to(out, src, low_mask(pf.width));
            proof {
                grew_trans(l0, k2, out@.text.labels);
            }
            if pf.off != 0 {
                out.text.shl_ri(src, pf.off as u8);
            }
            out.text.mov_load_mem(Gpr::Rcx, Gpr::R11, 0);
            let ghost k3 = out@.text.labels;
            self.clear_field(out, Gpr::Rcx, pf.off, pf.width);
            proof {
                grew_trans(l0, k3, out@.text.labels);
            }
            out.text.or_rr(Gpr::Rcx, src);
            out.text.mov_store_mem(Gpr::R11, 0, Gpr::Rcx);
        }
        Ok(())
    }

    /// Stores a string.
    pub(crate) fn text_words(&self, out: &mut Out, at: i32, text: &str)
        requires
            self.ok(),
            old(out).ok(),
        ensures
            final(out)@ == self.env().text_words(old(out)@, at, text@),
            final(out).ok(),
            grew(old(out)@.text.labels, final(out)@.text.labels),
    {
        let ghost l0 = out@.text.labels;
        proof {
            reveal(Env::text_words);
            grew_refl(l0);
        }
        let off: u32 = out.ro.intern(text.as_bytes());
        let n: i64 = text.as_bytes().len() as i64;
        out.text.mov_ri_data(Gpr::Rax, off);
        out.text.mov_store_mem(Gpr::Rbp, at, Gpr::Rax);
        out.text.mov_ri(Gpr::Rax, n);
        out.text.mov_store_mem(Gpr::Rbp, plus(at, 8), Gpr::Rax);
    }

    /// The tag of the `i`-th error.
    pub(crate) fn tag_at(&self, i: usize) -> (r: i32)
        requires
            self.ok(),
            i < self.env().prog.err_names@.len(),
        ensures
            r == self.env().tag_at(i),
    {
        self.prog.err_names[i as usize].0.0 as i32
    }

    /// Stores the name of the `i`-th error.
    pub(crate) fn name_at(&self, out: &mut Out, at: i32, i: usize)
        requires
            self.ok(),
            old(out).ok(),
            i < self.env().prog.err_names@.len(),
        ensures
            final(out)@ == self.env().name_at(old(out)@, at, i),
            final(out).ok(),
            grew(old(out)@.text.labels, final(out)@.text.labels),
    {
        let ghost l0 = out@.text.labels;
        proof {
            reveal(Env::name_at);
            grew_refl(l0);
        }
        let ghost k4 = out@.text.labels;
        self.text_words(out, at, self.prog.err_names[i as usize].1.as_str());
        proof {
            grew_trans(l0, k4, out@.text.labels);
        }
    }

    /// Stores the name of the `i`-th error, if `rcx` is its tag.
    pub(crate) fn error_name_case(&self, out: &mut Out, home: i32, done: LabelId, i: usize)
        requires
            self.ok(),
            old(out).ok(),
            i < self.env().prog.err_names@.len(),
            done.0 < old(out)@.text.labels.len(),
        ensures
            final(out)@ == self.env().error_name_case(old(out)@, home, done, i),
            final(out).ok(),
            grew(old(out)@.text.labels, final(out)@.text.labels),
    {
        let ghost l0 = out@.text.labels;
        let ghost mut open: Set<LabelId> = Set::empty();
        proof {
            reveal(Env::error_name_case);
            opening_start(l0);
        }
        let ghost k5 = out@.text.labels;
        let next: LabelId = out.text.new_local_label();
        proof {
            opening_new(l0, k5, open, next);
            open = open.insert(next);
        }
        out.text.cmp_ri(Gpr::Rcx, self.tag_at(i));
        out.text.jcc_local(Cc::Ne, next);
        let ghost k6 = out@.text.labels;
        self.name_at(out, home, i);
        proof {
            opening_call(l0, k6, out@.text.labels, open);
        }
        out.text.jmp_local(done);
        let ghost k7 = out@.text.labels;
        proof {
            opening_unbound(l0, k7, open, next);
        }
        out.text.bind_local(next);
        proof {
            opening_bound(l0, k7, out@.text.labels, open, next);
            open = open.remove(next);
        }
        proof {
            assert(open =~= Set::empty());
            opening_done(l0, out@.text.labels, open);
        }
    }

    /// Stores the name of the error whose tag is in `rcx`.
    pub(crate) fn error_name_cases(&self, out: &mut Out, home: i32, done: LabelId)
        requires
            self.ok(),
            old(out).ok(),
            done.0 < old(out)@.text.labels.len(),
        ensures
            final(out)@ == self.env().error_name_cases(old(out)@, home, done),
            final(out).ok(),
            grew(old(out)@.text.labels, final(out)@.text.labels),
    {
        let ghost l0 = out@.text.labels;
        let ghost want = self.env().error_name_cases(out@, home, done);
        proof {
            grew_refl(l0);
        }
        let mut i: usize = 0;
        while i < self.prog.err_names.len()
            invariant
                self.ok(),
                out.ok(),
                done.0 < old(out)@.text.labels.len(),
                i <= self.env().prog.err_names@.len(),
                grew(l0, out@.text.labels),
                l0 == old(out)@.text.labels,
                want == self.env().error_name_cases(old(out)@, home, done),
                want == self.env().error_name_cases_from(out@, home, done, i as int),
            decreases self.env().prog.err_names@.len() - i,
        {
            proof {
                grew_longer(l0, out@.text.labels);
            }
            let k: usize = i;
            let ghost here = out@.text.labels;
            self.error_name_case(out, home, done, k);
            proof {
                grew_trans(l0, here, out@.text.labels);
            }
            i = i + 1;
        }
    }

    /// Loads the tag of an error into `dst`.
    pub(crate) fn load_error_tag(
        &self,
        out: &mut Out,
        op: &Operand,
        dst: Gpr,
    ) -> (r: Result<(), CodegenError>)
        requires
            self.ok(),
            old(out).ok(),
            self.env().operand_ok(*op),
        ensures
            lowered(r, final(out)@, self.env().load_error_tag(old(out)@, *op, dst)),
            r is Ok ==> final(out).ok() && grew(old(out)@.text.labels, final(out)@.text.labels),
    {
        let ghost l0 = out@.text.labels;
        proof {
            reveal(Env::load_error_tag);
            grew_refl(l0);
        }
        match op {
            Operand::Copy(p) => {
                if self.operand_is_error_union(op) {
                    let ghost k8 = out@.text.labels;
                    match self.place_addr_general(out, p, p.proj.len(), Gpr::R11) {
                        Ok(_) => {},
                        Err(e) => {
                            return Err(e);
                        },
                    }
                    proof {
                        grew_trans(l0, k8, out@.text.labels);
                    }
                    out.text.movzx16_mem(dst, Gpr::R11, 0);
                } else {
                    let ghost k9 = out@.text.labels;
                    match self.operand_to(out, op, dst) {
                        Ok(_) => {},
                        Err(e) => {
                            return Err(e);
                        },
                    }
                    proof {
                        grew_trans(l0, k9, out@.text.labels);
                    }
                }
            },
            Operand::Const(c) => {
                match *c {
                    Const::ErrVal { tag, .. } => {
                        out.text.mov_ri(dst, tag.0 as i64);
                    },
                    _ => {
                        return Err(
                            self.unsup("@errorName operand is neither an error place nor a const"),
                        );
                    },
                }
            },
        }
        Ok(())
    }

    /// Stores the name of an error.
    pub(crate) fn build_error_name(
        &self,
        out: &mut Out,
        home: i32,
        args: &Vec<Operand>,
    ) -> (r: Result<(), CodegenError>)
        requires
            self.ok(),
            old(out).ok(),
            self.env().operands_ok(args@),
        ensures
            lowered(r, final(out)@, self.env().build_error_name(old(out)@, home, args@)),
            r is Ok ==> final(out).ok() && grew(old(out)@.text.labels, final(out)@.text.labels),
    {
        let ghost l0 = out@.text.labels;
        let ghost mut open: Set<LabelId> = Set::empty();
        proof {
            reveal(Env::build_error_name);
            opening_start(l0);
        }
        if args.len() > 0 {
            let ghost k10 = out@.text.labels;
            match self.load_error_tag(out, &args[0], Gpr::Rcx) {
                Ok(_) => {},
                Err(e) => {
                    return Err(e);
                },
            }
            proof {
                opening_call(l0, k10, out@.text.labels, open);
            }
            let ghost k11 = out@.text.labels;
            let done: LabelId = out.text.new_local_label();
            proof {
                opening_new(l0, k11, open, done);
                open = open.insert(done);
            }
            let ghost k12 = out@.text.labels;
            self.text_words(out, home, "Unknown");
            proof {
                opening_call(l0, k12, out@.text.labels, open);
            }
            let ghost k13 = out@.text.labels;
            self.error_name_cases(out, home, done);
            proof {
                opening_call(l0, k13, out@.text.labels, open);
            }
            let ghost k14 = out@.text.labels;
            proof {
                opening_unbound(l0, k14, open, done);
            }
            out.text.bind_local(done);
            proof {
                opening_bound(l0, k14, out@.text.labels, open, done);
                open = open.remove(done);
            }
        } else {
            return Err(self.unsup("@errorName without an operand"));
        }
        proof {
            assert(open =~= Set::empty());
            opening_done(l0, out@.text.labels, open);
        }
        Ok(())
    }

    /// Whether an intrinsic asks for the name of an error.
    pub(crate) fn is_error_name(&self, path: &IntrinsicPath) -> (r: bool)
        requires
            self.ok(),
        ensures
            r == self.env().is_error_name(*path),
    {
        match &path.root {
            IntrinsicRoot::Builtin(name) => same_str(name.as_str(), "errorName"),
            _ => false,
        }
    }

    /// Computes a value in memory.
    pub(crate) fn lower_aggregate_rvalue(
        &self,
        out: &mut Out,
        dst: LocalId,
        rvalue: &Rvalue,
        ty: TypeId,
    ) -> (r: Result<(), CodegenError>)
        requires
            self.ok(),
            old(out).ok(),
            dst.0 < self.env().func.locals@.len(),
            self.env().rvalue_ok(*rvalue),
            self.env().prog.arena.has(ty),
        ensures
            lowered(r, final(out)@, self.env().lower_aggregate_rvalue(old(out)@, dst, *rvalue, ty)),
            r is Ok ==> final(out).ok() && grew(old(out)@.text.labels, final(out)@.text.labels),
    {
        let ghost l0 = out@.text.labels;
        proof {
            reveal(Env::lower_aggregate_rvalue);
            grew_refl(l0);
        }
        match self.home(dst) {
            Some(home) => {
                match rvalue {
                    Rvalue::Aggregate { agg, fields, ty: aty } => {
                        let ghost k15 = out@.text.labels;
                        match self.build_aggregate(out, home, *agg, fields, *aty) {
                            Ok(_) => {},
                            Err(e) => {
                                return Err(e);
                            },
                        }
                        proof {
                            grew_trans(l0, k15, out@.text.labels);
                        }
                    },
                    Rvalue::Use(op) => {
                        let ghost k16 = out@.text.labels;
                        match self.aggregate_use(out, home, op, ty) {
                            Ok(_) => {},
                            Err(e) => {
                                return Err(e);
                            },
                        }
                        proof {
                            grew_trans(l0, k16, out@.text.labels);
                        }
                    },
                    Rvalue::MakeSlice { ptr, offset, len, ty: sty } => {
                        let ghost k17 = out@.text.labels;
                        match self.build_make_slice(out, home, ptr, offset, len, *sty) {
                            Ok(_) => {},
                            Err(e) => {
                                return Err(e);
                            },
                        }
                        proof {
                            grew_trans(l0, k17, out@.text.labels);
                        }
                    },
                    Rvalue::MakeSome(op, oty) => {
                        let ghost k18 = out@.text.labels;
                        match self.build_make_some(out, home, op, *oty) {
                            Ok(_) => {},
                            Err(e) => {
                                return Err(e);
                            },
                        }
                        proof {
                            grew_trans(l0, k18, out@.text.labels);
                        }
                    },
                    Rvalue::MakeNull(oty) => {
                        let ghost k19 = out@.text.labels;
                        match self.build_make_null(out, home, *oty) {
                            Ok(_) => {},
                            Err(e) => {
                                return Err(e);
                            },
                        }
                        proof {
                            grew_trans(l0, k19, out@.text.labels);
                        }
                    },
                    Rvalue::MakeOk(op, ety) => {
                        let ghost k20 = out@.text.labels;
                        match self.build_make_ok(out, home, op, *ety) {
                            Ok(_) => {},
                            Err(e) => {
                                return Err(e);
                            },
                        }
                        proof {
                            grew_trans(l0, k20, out@.text.labels);
                        }
                    },
                    Rvalue::MakeErr(tag, _) => {
                        let ghost k21 = out@.text.labels;
                        self.build_make_err(out, home, tag.0);
                        proof {
                            grew_trans(l0, k21, out@.text.labels);
                        }
                    },
                    Rvalue::Call { func, args, ty: cty } => {
                        let ghost k22 = out@.text.labels;
                        match self.lower_call_aggregate(out, dst, *func, args, *cty) {
                            Ok(_) => {},
                            Err(e) => {
                                return Err(e);
                            },
                        }
                        proof {
                            grew_trans(l0, k22, out@.text.labels);
                        }
                    },
                    Rvalue::Intrinsic { path, args } => {
                        if self.is_error_name(path) {
                            let ghost k23 = out@.text.labels;
                            match self.build_error_name(out, home, args) {
                                Ok(_) => {},
                                Err(e) => {
                                    return Err(e);
                                },
                            }
                            proof {
                                grew_trans(l0, k23, out@.text.labels);
                            }
                        } else {
                            return Err(self.unsup("aggregate rvalue Intrinsic"));
                        }
                    },
                    Rvalue::Binary { .. } => {
                        let ghost k24 = out@.text.labels;
                        match self.scalar_rvalue_into_aggregate(out, home, rvalue, ty) {
                            Ok(_) => {},
                            Err(e) => {
                                return Err(e);
                            },
                        }
                        proof {
                            grew_trans(l0, k24, out@.text.labels);
                        }
                    },
                    Rvalue::Unary { .. } => {
                        let ghost k25 = out@.text.labels;
                        match self.scalar_rvalue_into_aggregate(out, home, rvalue, ty) {
                            Ok(_) => {},
                            Err(e) => {
                                return Err(e);
                            },
                        }
                        proof {
                            grew_trans(l0, k25, out@.text.labels);
                        }
                    },
                    Rvalue::Cast { .. } => {
                        let ghost k26 = out@.text.labels;
                        match self.scalar_rvalue_into_aggregate(out, home, rvalue, ty) {
                            Ok(_) => {},
                            Err(e) => {
                                return Err(e);
                            },
                        }
                        proof {
                            grew_trans(l0, k26, out@.text.labels);
                        }
                    },
                    _ => {
                        return Err(self.unsup3("aggregate rvalue ", rvalue_kind(rvalue), ""));
                    },
                }
            },
            None => {
                return Err(self.unsup("aggregate local without a home"));
            },
        }
        Ok(())
    }

    /// Computes a value for its effect alone.
    pub(crate) fn lower_rvalue_discard(
        &self,
        out: &mut Out,
        rvalue: &Rvalue,
    ) -> (r: Result<(), CodegenError>)
        requires
            self.ok(),
            old(out).ok(),
            self.env().rvalue_ok(*rvalue),
        ensures
            lowered(r, final(out)@, self.env().lower_rvalue_discard(old(out)@, *rvalue)),
            r is Ok ==> final(out).ok() && grew(old(out)@.text.labels, final(out)@.text.labels),
    {
        let ghost l0 = out@.text.labels;
        proof {
            reveal(Env::lower_rvalue_discard);
            grew_refl(l0);
        }
        match rvalue {
            Rvalue::Intrinsic { path, args } => {
                let ghost k27 = out@.text.labels;
                match self.lower_intrinsic_into_rax(out, path, args) {
                    Ok(_) => {},
                    Err(e) => {
                        return Err(e);
                    },
                }
                proof {
                    grew_trans(l0, k27, out@.text.labels);
                }
            },
            Rvalue::Call { func, args, .. } => {
                let ghost k28 = out@.text.labels;
                match self.lower_call_raw(out, *func, args) {
                    Ok(_) => {},
                    Err(e) => {
                        return Err(e);
                    },
                }
                proof {
                    grew_trans(l0, k28, out@.text.labels);
                }
            },
            _ => {},
        }
        Ok(())
    }

    /// Whether a computation copies a place.
    pub(crate) fn copied_place(&self, rvalue: &Rvalue) -> (r: bool)
        requires
            self.ok(),
        ensures
            r == self.env().copied_place(*rvalue),
    {
        match rvalue {
            Rvalue::Use(op) => match op {
                Operand::Copy(_) => true,
                Operand::Const(_) => false,
            },
            _ => false,
        }
    }

    /// Copies an element of a slice.
    pub(crate) fn copy_element(
        &self,
        out: &mut Out,
        place: &Place,
        rvalue: &Rvalue,
        stride: u64,
    ) -> (r: Result<(), CodegenError>)
        requires
            self.ok(),
            old(out).ok(),
            self.env().place_ok(*place),
            place.proj@.len() > 0,
            self.env().rvalue_ok(*rvalue),
        ensures
            lowered(r, final(out)@, self.env().copy_element(old(out)@, *place, *rvalue, stride)),
            r is Ok ==> final(out).ok() && grew(old(out)@.text.labels, final(out)@.text.labels),
    {
        let ghost l0 = out@.text.labels;
        proof {
            reveal(Env::copy_element);
            grew_refl(l0);
        }
        match rvalue {
            Rvalue::Use(op) => {
                match op {
                    Operand::Copy(p) => {
                        let ghost k29 = out@.text.labels;
                        match self.place_addr_general(out, p, p.proj.len(), Gpr::Rax) {
                            Ok(_) => {},
                            Err(e) => {
                                return Err(e);
                            },
                        }
                        proof {
                            grew_trans(l0, k29, out@.text.labels);
                        }
                        let ghost k30 = out@.text.labels;
                        match self.place_addr(out, place, place.proj.len(), Gpr::R11) {
                            Ok(_) => {},
                            Err(e) => {
                                return Err(e);
                            },
                        }
                        proof {
                            grew_trans(l0, k30, out@.text.labels);
                        }
                        let ghost k31 = out@.text.labels;
                        self.memcpy(out, Gpr::R11, Gpr::Rax, stride);
                        proof {
                            grew_trans(l0, k31, out@.text.labels);
                        }
                    },
                    Operand::Const(_) => {},
                }
            },
            _ => {},
        }
        Ok(())
    }

    /// Computes a scalar into a part of a local.
    pub(crate) fn store_scalar_rvalue(
        &self,
        out: &mut Out,
        place: &Place,
        rvalue: &Rvalue,
        val_ty: TypeId,
    ) -> (r: Result<(), CodegenError>)
        requires
            self.ok(),
            old(out).ok(),
            self.env().place_ok(*place),
            place.proj@.len() > 0,
            self.env().rvalue_ok(*rvalue),
            self.env().prog.arena.has(val_ty),
        ensures
            lowered(
                r,
                final(out)@,
                self.env().store_scalar_rvalue(old(out)@, *place, *rvalue, val_ty),
            ),
            r is Ok ==> final(out).ok() && grew(old(out)@.text.labels, final(out)@.text.labels),
    {
        let ghost l0 = out@.text.labels;
        proof {
            reveal(Env::store_scalar_rvalue);
            grew_refl(l0);
        }
        if self.is_wide_int(val_ty) {
            let ghost k32 = out@.text.labels;
            match self.eval_wide_rvalue_into_pair(out, rvalue) {
                Ok(_) => {},
                Err(e) => {
                    return Err(e);
                },
            }
            proof {
                grew_trans(l0, k32, out@.text.labels);
            }
            let ghost k33 = out@.text.labels;
            match self.place_addr(out, place, place.proj.len(), Gpr::R11) {
                Ok(_) => {},
                Err(e) => {
                    return Err(e);
                },
            }
            proof {
                grew_trans(l0, k33, out@.text.labels);
            }
            out.text.mov_store_mem(Gpr::R11, 0, Gpr::Rax);
            out.text.mov_store_mem(Gpr::R11, 8, Gpr::Rdx);
        } else {
            let ghost k34 = out@.text.labels;
            match self.eval_scalar_rvalue_into_rax(out, rvalue, val_ty) {
                Ok(_) => {},
                Err(e) => {
                    return Err(e);
                },
            }
            proof {
                grew_trans(l0, k34, out@.text.labels);
            }
            let ghost k35 = out@.text.labels;
            match self.place_addr(out, place, place.proj.len(), Gpr::R11) {
                Ok(_) => {},
                Err(e) => {
                    return Err(e);
                },
            }
            proof {
                grew_trans(l0, k35, out@.text.labels);
            }
            let ghost k36 = out@.text.labels;
            self.store_sized(out, Gpr::R11, 0, Gpr::Rax, val_ty);
            proof {
                grew_trans(l0, k36, out@.text.labels);
            }
        }
        Ok(())
    }

    /// Computes a value into a part of a local.
    pub(crate) fn lower_rvalue_to_place(
        &self,
        out: &mut Out,
        place: &Place,
        rvalue: &Rvalue,
    ) -> (r: Result<(), CodegenError>)
        requires
            self.ok(),
            old(out).ok(),
            self.env().place_ok(*place),
            place.proj@.len() > 0,
            self.env().rvalue_ok(*rvalue),
        ensures
            lowered(r, final(out)@, self.env().lower_rvalue_to_place(old(out)@, *place, *rvalue)),
            r is Ok ==> final(out).ok() && grew(old(out)@.text.labels, final(out)@.text.labels),
    {
        let ghost l0 = out@.text.labels;
        proof {
            reveal(Env::lower_rvalue_to_place);
            grew_refl(l0);
        }
        let val_ty: TypeId = self.place_type(place);
        match self.last_step(place) {
            LastStep::Packed(pf) => {
                let ghost k37 = out@.text.labels;
                match self.eval_scalar_rvalue_into_rax(out, rvalue, val_ty) {
                    Ok(_) => {},
                    Err(e) => {
                        return Err(e);
                    },
                }
                proof {
                    grew_trans(l0, k37, out@.text.labels);
                }
                out.text.mov_rr(Gpr::Rdx, Gpr::Rax);
                let ghost k38 = out@.text.labels;
                match self.store_packed_field(out, place, pf, Gpr::Rdx) {
                    Ok(_) => {},
                    Err(e) => {
                        return Err(e);
                    },
                }
                proof {
                    grew_trans(l0, k38, out@.text.labels);
                }
            },
            _ => {
                if self.in_memory(val_ty) {
                    let ghost k39 = out@.text.labels;
                    match self.store_aggregate_rvalue_to_place(out, place, rvalue, val_ty) {
                        Ok(_) => {},
                        Err(e) => {
                            return Err(e);
                        },
                    }
                    proof {
                        grew_trans(l0, k39, out@.text.labels);
                    }
                } else if self.copied_place(rvalue) {
                    match self.slice_index_aggregate_stride(place) {
                        Some(stride) => {
                            let ghost k40 = out@.text.labels;
                            match self.copy_element(out, place, rvalue, stride) {
                                Ok(_) => {},
                                Err(e) => {
                                    return Err(e);
                                },
                            }
                            proof {
                                grew_trans(l0, k40, out@.text.labels);
                            }
                        },
                        None => {
                            let ghost k41 = out@.text.labels;
                            match self.store_scalar_rvalue(out, place, rvalue, val_ty) {
                                Ok(_) => {},
                                Err(e) => {
                                    return Err(e);
                                },
                            }
                            proof {
                                grew_trans(l0, k41, out@.text.labels);
                            }
                        },
                    }
                } else {
                    let ghost k42 = out@.text.labels;
                    match self.store_scalar_rvalue(out, place, rvalue, val_ty) {
                        Ok(_) => {},
                        Err(e) => {
                            return Err(e);
                        },
                    }
                    proof {
                        grew_trans(l0, k42, out@.text.labels);
                    }
                }
            },
        }
        Ok(())
    }

    /// Whether a type is an error set.
    pub(crate) fn is_error_type(&self, ty: TypeId) -> (r: bool)
        requires
            self.ok(),
            self.env().prog.arena.has(ty),
        ensures
            r == self.env().is_error_type(ty),
    {
        match self.ty(ty) {
            Type::ErrorSet(_) => true,
            Type::AnyError => true,
            _ => false,
        }
    }

    /// Whether an operand is an error union or holds the result of an allocation.
    pub(crate) fn holds_error_union(&self, op: &Operand) -> (r: bool)
        requires
            self.ok(),
            self.env().operand_ok(*op),
        ensures
            r == self.env().holds_error_union(*op),
    {
        match op {
            Operand::Copy(p) => self.operand_is_error_union(op) || self.eu_payload_of(p.base).is_some(),
            Operand::Const(_) => false,
        }
    }

    /// Loads the tag of an error union into `dst`.
    pub(crate) fn load_tag_of(
        &self,
        out: &mut Out,
        op: &Operand,
        dst: Gpr,
    ) -> (r: Result<(), CodegenError>)
        requires
            self.ok(),
            old(out).ok(),
            self.env().operand_ok(*op),
        ensures
            lowered(r, final(out)@, self.env().load_tag_of(old(out)@, *op, dst)),
            r is Ok ==> final(out).ok() && grew(old(out)@.text.labels, final(out)@.text.labels),
    {
        let ghost l0 = out@.text.labels;
        proof {
            reveal(Env::load_tag_of);
            grew_refl(l0);
        }
        match op {
            Operand::Copy(p) => {
                let ghost k43 = out@.text.labels;
                match self.place_addr_general(out, p, p.proj.len(), Gpr::R11) {
                    Ok(_) => {},
                    Err(e) => {
                        return Err(e);
                    },
                }
                proof {
                    grew_trans(l0, k43, out@.text.labels);
                }
                out.text.movzx16_mem(dst, Gpr::R11, 0);
            },
            Operand::Const(_) => {},
        }
        Ok(())
    }

    /// Copies an operand into a scalar.
    pub(crate) fn lower_use(
        &self,
        out: &mut Out,
        dst: LocalId,
        op: &Operand,
    ) -> (r: Result<(), CodegenError>)
        requires
            self.ok(),
            old(out).ok(),
            dst.0 < self.env().func.locals@.len(),
            self.env().operand_ok(*op),
        ensures
            lowered(r, final(out)@, self.env().lower_use(old(out)@, dst, *op)),
            r is Ok ==> final(out).ok() && grew(old(out)@.text.labels, final(out)@.text.labels),
    {
        let ghost l0 = out@.text.labels;
        proof {
            reveal(Env::lower_use);
            grew_refl(l0);
        }
        let dst_ty: TypeId = self.local_ty(dst);
        if self.is_float(dst_ty) {
            let ghost k44 = out@.text.labels;
            match self.lower_float_use(out, dst, op) {
                Ok(_) => {},
                Err(e) => {
                    return Err(e);
                },
            }
            proof {
                grew_trans(l0, k44, out@.text.labels);
            }
        } else if self.is_wide_int(dst_ty) {
            match self.home(dst) {
                Some(h) => {
                    let ghost k45 = out@.text.labels;
                    match self.store_wide_int(out, h, op) {
                        Ok(_) => {},
                        Err(e) => {
                            return Err(e);
                        },
                    }
                    proof {
                        grew_trans(l0, k45, out@.text.labels);
                    }
                },
                None => {
                    return Err(self.unsup("wide-int local without a home"));
                },
            }
        } else if self.is_error_type(dst_ty) && self.holds_error_union(op) {
            let ghost k46 = out@.text.labels;
            match self.load_tag_of(out, op, Gpr::Rax) {
                Ok(_) => {},
                Err(e) => {
                    return Err(e);
                },
            }
            proof {
                grew_trans(l0, k46, out@.text.labels);
            }
            let ghost k47 = out@.text.labels;
            self.store_scalar_result(out, dst);
            proof {
                grew_trans(l0, k47, out@.text.labels);
            }
        } else {
            let ghost k48 = out@.text.labels;
            match self.operand_to(out, op, Gpr::Rax) {
                Ok(_) => {},
                Err(e) => {
                    return Err(e);
                },
            }
            proof {
                grew_trans(l0, k48, out@.text.labels);
            }
            let ghost k49 = out@.text.labels;
            self.normalize(out, Gpr::Rax, dst_ty);
            proof {
                grew_trans(l0, k49, out@.text.labels);
            }
            let ghost k50 = out@.text.labels;
            self.store_scalar_result(out, dst);
            proof {
                grew_trans(l0, k50, out@.text.labels);
            }
        }
        Ok(())
    }

    /// Computes a value into a local.
    pub(crate) fn lower_rvalue(
        &self,
        out: &mut Out,
        dst: LocalId,
        rvalue: &Rvalue,
    ) -> (r: Result<(), CodegenError>)
        requires
            self.ok(),
            old(out).ok(),
            dst.0 < self.env().func.locals@.len(),
            self.env().rvalue_ok(*rvalue),
        ensures
            lowered(r, final(out)@, self.env().lower_rvalue(old(out)@, dst, *rvalue)),
            r is Ok ==> final(out).ok() && grew(old(out)@.text.labels, final(out)@.text.labels),
    {
        let ghost l0 = out@.text.labels;
        proof {
            reveal(Env::lower_rvalue);
            grew_refl(l0);
        }
        let dst_ty: TypeId = self.local_ty(dst);
        match self.effective_agg_ty(dst, rvalue) {
            Some(agg_ty) => {
                let ghost k51 = out@.text.labels;
                match self.lower_aggregate_rvalue(out, dst, rvalue, agg_ty) {
                    Ok(_) => {},
                    Err(e) => {
                        return Err(e);
                    },
                }
                proof {
                    grew_trans(l0, k51, out@.text.labels);
                }
            },
            None => {
                match rvalue {
                    Rvalue::Use(op) => {
                        let ghost k52 = out@.text.labels;
                        match self.lower_use(out, dst, op) {
                            Ok(_) => {},
                            Err(e) => {
                                return Err(e);
                            },
                        }
                        proof {
                            grew_trans(l0, k52, out@.text.labels);
                        }
                    },
                    Rvalue::Binary { op, lhs, rhs, ty } => {
                        if self.is_float(*ty) {
                            let ghost k53 = out@.text.labels;
                            match self.lower_float_binary(out, dst, *op, lhs, rhs) {
                                Ok(_) => {},
                                Err(e) => {
                                    return Err(e);
                                },
                            }
                            proof {
                                grew_trans(l0, k53, out@.text.labels);
                            }
                        } else if self.is_wide_int(dst_ty) || self.is_wide_int(*ty) {
                            let ghost k54 = out@.text.labels;
                            match self.lower_wide_binary(out, dst, *op, lhs, rhs) {
                                Ok(_) => {},
                                Err(e) => {
                                    return Err(e);
                                },
                            }
                            proof {
                                grew_trans(l0, k54, out@.text.labels);
                            }
                        } else {
                            let ghost k55 = out@.text.labels;
                            match self.eval_binary_into_rax(out, *op, lhs, rhs, *ty) {
                                Ok(_) => {},
                                Err(e) => {
                                    return Err(e);
                                },
                            }
                            proof {
                                grew_trans(l0, k55, out@.text.labels);
                            }
                            let ghost k56 = out@.text.labels;
                            self.store_scalar_result(out, dst);
                            proof {
                                grew_trans(l0, k56, out@.text.labels);
                            }
                        }
                    },
                    Rvalue::Unary { un, operand, ty } => {
                        if self.is_wide_int(dst_ty) || self.is_wide_int(*ty) {
                            let ghost k57 = out@.text.labels;
                            match self.lower_wide_unary(out, dst, *un, operand) {
                                Ok(_) => {},
                                Err(e) => {
                                    return Err(e);
                                },
                            }
                            proof {
                                grew_trans(l0, k57, out@.text.labels);
                            }
                        } else {
                            let ghost k58 = out@.text.labels;
                            match self.lower_unary(out, dst, *un, operand, *ty) {
                                Ok(_) => {},
                                Err(e) => {
                                    return Err(e);
                                },
                            }
                            proof {
                                grew_trans(l0, k58, out@.text.labels);
                            }
                        }
                    },
                    Rvalue::Cast { kind, operand, ty } => {
                        if (self.is_wide_int(dst_ty) || self.is_wide_int(*ty)) && self.extends(*kind) {
                            let ghost k59 = out@.text.labels;
                            match self.lower_wide_cast(out, dst, operand) {
                                Ok(_) => {},
                                Err(e) => {
                                    return Err(e);
                                },
                            }
                            proof {
                                grew_trans(l0, k59, out@.text.labels);
                            }
                        } else {
                            let ghost k60 = out@.text.labels;
                            match self.lower_cast(out, dst, *kind, operand, *ty) {
                                Ok(_) => {},
                                Err(e) => {
                                    return Err(e);
                                },
                            }
                            proof {
                                grew_trans(l0, k60, out@.text.labels);
                            }
                        }
                    },
                    Rvalue::Call { func, args, ty } => {
                        let ghost k61 = out@.text.labels;
                        match self.lower_call(out, dst, *func, args, *ty) {
                            Ok(_) => {},
                            Err(e) => {
                                return Err(e);
                            },
                        }
                        proof {
                            grew_trans(l0, k61, out@.text.labels);
                        }
                    },
                    Rvalue::Ref { place } => {
                        let ghost k62 = out@.text.labels;
                        match self.place_addr_general(out, place, place.proj.len(), Gpr::Rax) {
                            Ok(_) => {},
                            Err(e) => {
                                return Err(e);
                            },
                        }
                        proof {
                            grew_trans(l0, k62, out@.text.labels);
                        }
                        let ghost k63 = out@.text.labels;
                        self.store_scalar_result(out, dst);
                        proof {
                            grew_trans(l0, k63, out@.text.labels);
                        }
                    },
                    Rvalue::Intrinsic { path, args } => {
                        if self.eu_payload_of(dst).is_some() {
                            let ghost k64 = out@.text.labels;
                            match self.lower_alloc_op_into_home(out, dst, path, args) {
                                Ok(_) => {},
                                Err(e) => {
                                    return Err(e);
                                },
                            }
                            proof {
                                grew_trans(l0, k64, out@.text.labels);
                            }
                        } else {
                            let ghost k65 = out@.text.labels;
                            match self.lower_intrinsic_into_rax(out, path, args) {
                                Ok(_) => {},
                                Err(e) => {
                                    return Err(e);
                                },
                            }
                            proof {
                                grew_trans(l0, k65, out@.text.labels);
                            }
                            let ghost k66 = out@.text.labels;
                            self.store_scalar_result(out, dst);
                            proof {
                                grew_trans(l0, k66, out@.text.labels);
                            }
                        }
                    },
                    Rvalue::MakeNull(_) => {
                        out.text.mov_ri(Gpr::Rax, 0);
                        let ghost k67 = out@.text.labels;
                        self.store_scalar_result(out, dst);
                        proof {
                            grew_trans(l0, k67, out@.text.labels);
                        }
                    },
                    Rvalue::MakeSome(op, _) => {
                        let ghost k68 = out@.text.labels;
                        match self.operand_to(out, op, Gpr::Rax) {
                            Ok(_) => {},
                            Err(e) => {
                                return Err(e);
                            },
                        }
                        proof {
                            grew_trans(l0, k68, out@.text.labels);
                        }
                        let ghost k69 = out@.text.labels;
                        self.store_scalar_result(out, dst);
                        proof {
                            grew_trans(l0, k69, out@.text.labels);
                        }
                    },
                    Rvalue::Discriminant { operand, of } => {
                        let ghost k70 = out@.text.labels;
                        match self.lower_discriminant(out, dst, operand, *of) {
                            Ok(_) => {},
                            Err(e) => {
                                return Err(e);
                            },
                        }
                        proof {
                            grew_trans(l0, k70, out@.text.labels);
                        }
                    },
                    Rvalue::Aggregate { fields, .. } => {
                        if fields.len() == 0 {
                            out.text.mov_ri(Gpr::Rax, 0);
                            let ghost k71 = out@.text.labels;
                            self.store_scalar_result(out, dst);
                            proof {
                                grew_trans(l0, k71, out@.text.labels);
                            }
                        } else {
                            return Err(self.unsup("scalar rvalue Aggregate"));
                        }
                    },
                    _ => {
                        return Err(self.unsup3("scalar rvalue ", rvalue_kind(rvalue), ""));
                    },
                }
            },
        }
        Ok(())
    }

    /// Lowers a statement.
    pub(crate) fn lower_stmt(
        &self,
        out: &mut Out,
        stmt: &Statement,
    ) -> (r: Result<(), CodegenError>)
        requires
            self.ok(),
            old(out).ok(),
            self.env().stmt_ok(*stmt),
        ensures
            lowered(r, final(out)@, self.env().lower_stmt(old(out)@, *stmt)),
            r is Ok ==> final(out).ok() && grew(old(out)@.text.labels, final(out)@.text.labels),
    {
        let ghost l0 = out@.text.labels;
        proof {
            reveal(Env::lower_stmt);
            grew_refl(l0);
        }
        match stmt {
            Statement::Assign { place, rvalue } => {
                if place.proj.len() == 0 {
                    let ghost k72 = out@.text.labels;
                    match self.lower_rvalue(out, place.base, rvalue) {
                        Ok(_) => {},
                        Err(e) => {
                            return Err(e);
                        },
                    }
                    proof {
                        grew_trans(l0, k72, out@.text.labels);
                    }
                } else {
                    let ghost k73 = out@.text.labels;
                    match self.lower_rvalue_to_place(out, place, rvalue) {
                        Ok(_) => {},
                        Err(e) => {
                            return Err(e);
                        },
                    }
                    proof {
                        grew_trans(l0, k73, out@.text.labels);
                    }
                }
            },
            Statement::Eval { rvalue } => {
                let ghost k74 = out@.text.labels;
                match self.lower_rvalue_discard(out, rvalue) {
                    Ok(_) => {},
                    Err(e) => {
                        return Err(e);
                    },
                }
                proof {
                    grew_trans(l0, k74, out@.text.labels);
                }
            },
            _ => {},
        }
        Ok(())
    }

    /// Lowers the statements of a block, and notes their lines.
    pub(crate) fn lower_stmts(
        &self,
        out: &mut Out,
        b: &Block,
        notes: &mut Vec<LineNote>,
    ) -> (r: Result<(), CodegenError>)
        requires
            self.ok(),
            old(out).ok(),
            self.env().block_ok(*b),
        ensures
            lowered(r, final(out)@, self.env().lower_stmts(old(out)@, *b)),
            r is Ok ==> final(out).ok() && grew(old(out)@.text.labels, final(out)@.text.labels),
            r is Ok ==> final(notes)@ == old(notes)@ + self.env().stmt_notes_from(
                old(out)@,
                *b,
                0,
            ),
    {
        let ghost l0 = out@.text.labels;
        let ghost noted = notes@ + self.env().stmt_notes_from(out@, *b, 0);
        let ghost want = self.env().lower_stmts(out@, *b);
        proof {
            grew_refl(l0);
        }
        let mut i: usize = 0;
        while i < b.stmts.len()
            invariant
                self.ok(),
                out.ok(),
                self.env().block_ok(*b),
                i <= b.stmts@.len(),
                grew(l0, out@.text.labels),
                l0 == old(out)@.text.labels,
                want == self.env().lower_stmts(old(out)@, *b),
                want == self.env().lower_stmts_from(out@, *b, i as int),
                noted == old(notes)@ + self.env().stmt_notes_from(old(out)@, *b, 0),
                noted == notes@ + self.env().stmt_notes_from(out@, *b, i as int),
            decreases b.stmts@.len() - i,
        {
            assert(self.env().stmt_ok(b.stmts@[i as int]));
            let ghost here = out@.text.labels;
            let ghost s = out@;
            let ghost before = notes@;
            let from: usize = out.text.instr_count();
            match self.lower_stmt(out, &b.stmts[i]) {
                Ok(_) => {},
                Err(e) => {
                    return Err(e);
                },
            }
            let to: usize = out.text.instr_count();
            let line: u32 = b.line_of(i);
            if line != 0 {
                notes.push(LineNote { from, to, line });
            }
            proof {
                grew_trans(l0, here, out@.text.labels);
                let rest = self.env().stmt_notes_from(out@, *b, i + 1);
                let note = self.env().stmt_note(s, out@, line);
                assert(notes@ =~= before + note);
                assert(before + (note + rest) =~= notes@ + rest);
            }
            i = i + 1;
        }
        assert(notes@ + Seq::<LineNote>::empty() =~= notes@);
        Ok(())
    }

    /// Restores a callee-saved register.
    pub(crate) fn restore(&self, out: &mut Out, i: usize)
        requires
            self.ok(),
            old(out).ok(),
            i < self.env().plan.callee_saved_slots.len(),
        ensures
            final(out)@ == self.env().restore(old(out)@, i),
            final(out).ok(),
            grew(old(out)@.text.labels, final(out)@.text.labels),
    {
        let ghost l0 = out@.text.labels;
        proof {
            reveal(Env::restore);
            grew_refl(l0);
        }
        let slot: (Gpr, i32) = self.plan.callee_saved_slots[i as usize];
        out.text.mov_load(slot.0, slot.1);
    }

    /// Restores the callee-saved registers.
    pub(crate) fn restore_saved(&self, out: &mut Out)
        requires
            self.ok(),
            old(out).ok(),
        ensures
            final(out)@ == self.env().restore_saved(old(out)@),
            final(out).ok(),
            grew(old(out)@.text.labels, final(out)@.text.labels),
    {
        let ghost l0 = out@.text.labels;
        let ghost want = self.env().restore_saved(out@);
        proof {
            grew_refl(l0);
        }
        let mut i: usize = 0;
        while i < self.plan.callee_saved_slots.len()
            invariant
                self.ok(),
                out.ok(),
                i <= self.env().plan.callee_saved_slots.len(),
                grew(l0, out@.text.labels),
                l0 == old(out)@.text.labels,
                want == self.env().restore_saved(old(out)@),
                want == self.env().restore_saved_from(out@, i as int),
            decreases self.env().plan.callee_saved_slots.len() - i,
        {
            let k: usize = i;
            let ghost here = out@.text.labels;
            self.restore(out, k);
            proof {
                grew_trans(l0, here, out@.text.labels);
            }
            i = i + 1;
        }
    }

    /// Saves a callee-saved register.
    pub(crate) fn save(&self, out: &mut Out, i: usize)
        requires
            self.ok(),
            old(out).ok(),
            i < self.env().plan.callee_saved_slots.len(),
        ensures
            final(out)@ == self.env().save(old(out)@, i),
            final(out).ok(),
            grew(old(out)@.text.labels, final(out)@.text.labels),
    {
        let ghost l0 = out@.text.labels;
        proof {
            reveal(Env::save);
            grew_refl(l0);
        }
        let slot: (Gpr, i32) = self.plan.callee_saved_slots[i as usize];
        out.text.mov_store(slot.1, slot.0);
    }

    /// Saves the callee-saved registers.
    pub(crate) fn save_all(&self, out: &mut Out)
        requires
            self.ok(),
            old(out).ok(),
        ensures
            final(out)@ == self.env().save_all(old(out)@),
            final(out).ok(),
            grew(old(out)@.text.labels, final(out)@.text.labels),
    {
        let ghost l0 = out@.text.labels;
        let ghost want = self.env().save_all(out@);
        proof {
            grew_refl(l0);
        }
        let mut i: usize = 0;
        while i < self.plan.callee_saved_slots.len()
            invariant
                self.ok(),
                out.ok(),
                i <= self.env().plan.callee_saved_slots.len(),
                grew(l0, out@.text.labels),
                l0 == old(out)@.text.labels,
                want == self.env().save_all(old(out)@),
                want == self.env().save_all_from(out@, i as int),
            decreases self.env().plan.callee_saved_slots.len() - i,
        {
            let k: usize = i;
            let ghost here = out@.text.labels;
            self.save(out, k);
            proof {
                grew_trans(l0, here, out@.text.labels);
            }
            i = i + 1;
        }
    }

    /// Restores the callee-saved registers and returns.
    pub(crate) fn epilogue_and_ret(&self, out: &mut Out)
        requires
            self.ok(),
            old(out).ok(),
        ensures
            final(out)@ == self.env().epilogue_and_ret(old(out)@),
            final(out).ok(),
            grew(old(out)@.text.labels, final(out)@.text.labels),
    {
        let ghost l0 = out@.text.labels;
        proof {
            reveal(Env::epilogue_and_ret);
            grew_refl(l0);
        }
        let ghost k75 = out@.text.labels;
        self.restore_saved(out);
        proof {
            grew_trans(l0, k75, out@.text.labels);
        }
        out.text.leave();
        out.text.ret();
    }

    /// Writes a string to the standard error.
    pub(crate) fn write_text(&self, out: &mut Out, text: &str)
        requires
            self.ok(),
            old(out).ok(),
        ensures
            final(out)@ == self.env().write_text(old(out)@, text@),
            final(out).ok(),
            grew(old(out)@.text.labels, final(out)@.text.labels),
    {
        let ghost l0 = out@.text.labels;
        proof {
            reveal(Env::write_text);
            grew_refl(l0);
        }
        let off: u32 = out.ro.intern(text.as_bytes());
        let n: i64 = text.as_bytes().len() as i64;
        out.text.mov_ri(Gpr::Rdi, 2);
        out.text.mov_ri_data(Gpr::Rsi, off);
        out.text.mov_ri(Gpr::Rdx, n);
        out.text.mov_ri(Gpr::Rax, SYS_WRITE);
        out.text.syscall();
    }

    /// Exits.
    pub(crate) fn exit_with(&self, out: &mut Out, code: i64)
        requires
            self.ok(),
            old(out).ok(),
        ensures
            final(out)@ == self.env().exit_with(old(out)@, code),
            final(out).ok(),
            grew(old(out)@.text.labels, final(out)@.text.labels),
    {
        let ghost l0 = out@.text.labels;
        proof {
            reveal(Env::exit_with);
            grew_refl(l0);
        }
        out.text.mov_ri(Gpr::Rdi, code);
        out.text.mov_ri(Gpr::Rax, SYS_EXIT);
        out.text.syscall();
    }

    /// Writes the line for an error.
    pub(crate) fn write_error_line(&self, out: &mut Out, name: &str)
        requires
            self.ok(),
            old(out).ok(),
        ensures
            final(out)@ == self.env().write_error_line(old(out)@, name@),
            final(out).ok(),
            grew(old(out)@.text.labels, final(out)@.text.labels),
    {
        let ghost l0 = out@.text.labels;
        proof {
            reveal(Env::write_error_line);
            grew_refl(l0);
        }
        let line: String = error_line(name);
        let ghost k76 = out@.text.labels;
        self.write_text(out, line.as_str());
        proof {
            grew_trans(l0, k76, out@.text.labels);
        }
    }

    /// Writes the line for the `i`-th error.
    pub(crate) fn write_error_at(&self, out: &mut Out, i: usize)
        requires
            self.ok(),
            old(out).ok(),
            i < self.env().prog.err_names@.len(),
        ensures
            final(out)@ == self.env().write_error_at(old(out)@, i),
            final(out).ok(),
            grew(old(out)@.text.labels, final(out)@.text.labels),
    {
        let ghost l0 = out@.text.labels;
        proof {
            reveal(Env::write_error_at);
            grew_refl(l0);
        }
        let ghost k77 = out@.text.labels;
        self.write_error_line(out, self.prog.err_names[i as usize].1.as_str());
        proof {
            grew_trans(l0, k77, out@.text.labels);
        }
    }

    /// Writes the line for the `i`-th error, if `rbx` is its tag.
    pub(crate) fn escaped_case(&self, out: &mut Out, done: LabelId, i: usize)
        requires
            self.ok(),
            old(out).ok(),
            i < self.env().prog.err_names@.len(),
            done.0 < old(out)@.text.labels.len(),
        ensures
            final(out)@ == self.env().escaped_case(old(out)@, done, i),
            final(out).ok(),
            grew(old(out)@.text.labels, final(out)@.text.labels),
    {
        let ghost l0 = out@.text.labels;
        let ghost mut open: Set<LabelId> = Set::empty();
        proof {
            reveal(Env::escaped_case);
            opening_start(l0);
        }
        let ghost k78 = out@.text.labels;
        let next: LabelId = out.text.new_local_label();
        proof {
            opening_new(l0, k78, open, next);
            open = open.insert(next);
        }
        out.text.cmp_ri(Gpr::Rbx, self.tag_at(i));
        out.text.jcc_local(Cc::Ne, next);
        let ghost k79 = out@.text.labels;
        self.write_error_at(out, i);
        proof {
            opening_call(l0, k79, out@.text.labels, open);
        }
        out.text.jmp_local(done);
        let ghost k80 = out@.text.labels;
        proof {
            opening_unbound(l0, k80, open, next);
        }
        out.text.bind_local(next);
        proof {
            opening_bound(l0, k80, out@.text.labels, open, next);
            open = open.remove(next);
        }
        proof {
            assert(open =~= Set::empty());
            opening_done(l0, out@.text.labels, open);
        }
    }

    /// Writes the line for the error whose tag is in `rbx`.
    pub(crate) fn escaped_cases(&self, out: &mut Out, done: LabelId)
        requires
            self.ok(),
            old(out).ok(),
            done.0 < old(out)@.text.labels.len(),
        ensures
            final(out)@ == self.env().escaped_cases(old(out)@, done),
            final(out).ok(),
            grew(old(out)@.text.labels, final(out)@.text.labels),
    {
        let ghost l0 = out@.text.labels;
        let ghost want = self.env().escaped_cases(out@, done);
        proof {
            grew_refl(l0);
        }
        let mut i: usize = 0;
        while i < self.prog.err_names.len()
            invariant
                self.ok(),
                out.ok(),
                done.0 < old(out)@.text.labels.len(),
                i <= self.env().prog.err_names@.len(),
                grew(l0, out@.text.labels),
                l0 == old(out)@.text.labels,
                want == self.env().escaped_cases(old(out)@, done),
                want == self.env().escaped_cases_from(out@, done, i as int),
            decreases self.env().prog.err_names@.len() - i,
        {
            proof {
                grew_longer(l0, out@.text.labels);
            }
            let k: usize = i;
            let ghost here = out@.text.labels;
            self.escaped_case(out, done, k);
            proof {
                grew_trans(l0, here, out@.text.labels);
            }
            i = i + 1;
        }
    }

    /// The tag of an error constant.
    pub(crate) fn static_tag(&self, value: &Operand) -> (r: Option<u16>)
        requires
            self.ok(),
        ensures
            r == self.env().static_tag(*value),
    {
        match value {
            Operand::Copy(_) => None,
            Operand::Const(c) => match *c {
                Const::ErrVal { tag, .. } => Some(tag.0),
                _ => None,
            },
        }
    }

    /// Loads the tag of an error that leaves the entry into `rbx`.
    pub(crate) fn escaped_tag(
        &self,
        out: &mut Out,
        value: &Operand,
    ) -> (r: Result<(), CodegenError>)
        requires
            self.ok(),
            old(out).ok(),
            self.env().operand_ok(*value),
        ensures
            lowered(r, final(out)@, self.env().escaped_tag(old(out)@, *value)),
            r is Ok ==> final(out).ok() && grew(old(out)@.text.labels, final(out)@.text.labels),
    {
        let ghost l0 = out@.text.labels;
        proof {
            reveal(Env::escaped_tag);
            grew_refl(l0);
        }
        match value {
            Operand::Copy(p) => {
                let ghost k81 = out@.text.labels;
                match self.place_addr_general(out, p, p.proj.len(), Gpr::R11) {
                    Ok(_) => {},
                    Err(e) => {
                        return Err(e);
                    },
                }
                proof {
                    grew_trans(l0, k81, out@.text.labels);
                }
                out.text.movzx16_mem(Gpr::Rbx, Gpr::R11, 0);
            },
            Operand::Const(_) => {
                out.text.mov_ri(Gpr::Rbx, 0);
            },
        }
        Ok(())
    }

    /// Reports an error that leaves the entry and exits.
    pub(crate) fn lower_escaped_error(
        &self,
        out: &mut Out,
        value: &Operand,
    ) -> (r: Result<(), CodegenError>)
        requires
            self.ok(),
            old(out).ok(),
            self.env().operand_ok(*value),
        ensures
            lowered(r, final(out)@, self.env().lower_escaped_error(old(out)@, *value)),
            r is Ok ==> final(out).ok() && grew(old(out)@.text.labels, final(out)@.text.labels),
    {
        let ghost l0 = out@.text.labels;
        let ghost mut open: Set<LabelId> = Set::empty();
        proof {
            reveal(Env::lower_escaped_error);
            opening_start(l0);
        }
        match self.static_tag(value) {
            Some(tag) => {
                let name: String = self.error_name(tag);
                let ghost k82 = out@.text.labels;
                self.write_error_line(out, name.as_str());
                proof {
                    opening_call(l0, k82, out@.text.labels, open);
                }
                let ghost k83 = out@.text.labels;
                self.exit_with(out, 1);
                proof {
                    opening_call(l0, k83, out@.text.labels, open);
                }
            },
            None => {
                let ghost k84 = out@.text.labels;
                match self.escaped_tag(out, value) {
                    Ok(_) => {},
                    Err(e) => {
                        return Err(e);
                    },
                }
                proof {
                    opening_call(l0, k84, out@.text.labels, open);
                }
                let ghost k85 = out@.text.labels;
                let done: LabelId = out.text.new_local_label();
                proof {
                    opening_new(l0, k85, open, done);
                    open = open.insert(done);
                }
                let ghost k86 = out@.text.labels;
                self.escaped_cases(out, done);
                proof {
                    opening_call(l0, k86, out@.text.labels, open);
                }
                let ghost k87 = out@.text.labels;
                self.write_error_line(out, "error");
                proof {
                    opening_call(l0, k87, out@.text.labels, open);
                }
                let ghost k88 = out@.text.labels;
                proof {
                    opening_unbound(l0, k88, open, done);
                }
                out.text.bind_local(done);
                proof {
                    opening_bound(l0, k88, out@.text.labels, open, done);
                    open = open.remove(done);
                }
                let ghost k89 = out@.text.labels;
                self.exit_with(out, 1);
                proof {
                    opening_call(l0, k89, out@.text.labels, open);
                }
            },
        }
        proof {
            assert(open =~= Set::empty());
            opening_done(l0, out@.text.labels, open);
        }
        Ok(())
    }

    /// Whether a returned value may be an error.
    pub(crate) fn returns_error(&self, value: &Operand) -> (r: bool)
        requires
            self.ok(),
            self.env().operand_ok(*value),
        ensures
            r == self.env().returns_error(*value),
    {
        match value {
            Operand::Copy(p) => p.proj.len() == 0 && (self.is_error_union(
                self.local_ty(p.base),
            ) || self.is_error_type(self.local_ty(p.base))),
            Operand::Const(c) => match *c {
                Const::ErrVal { .. } => true,
                _ => false,
            },
        }
    }

    /// Whether a value is nothing.
    pub(crate) fn is_void_const(&self, value: &Operand) -> (r: bool)
        requires
            self.ok(),
        ensures
            r == self.env().is_void_const(*value),
    {
        match value {
            Operand::Copy(_) => false,
            Operand::Const(c) => match *c {
                Const::Void => true,
                _ => false,
            },
        }
    }

    /// Returns an aggregate through the hidden pointer.
    pub(crate) fn return_in_memory(
        &self,
        out: &mut Out,
        value: &Operand,
        size: u64,
    ) -> (r: Result<(), CodegenError>)
        requires
            self.ok(),
            old(out).ok(),
            self.env().operand_ok(*value),
        ensures
            lowered(r, final(out)@, self.env().return_in_memory(old(out)@, *value, size)),
            r is Ok ==> final(out).ok() && grew(old(out)@.text.labels, final(out)@.text.labels),
    {
        let ghost l0 = out@.text.labels;
        proof {
            reveal(Env::return_in_memory);
            grew_refl(l0);
        }
        match self.plan.ret_ptr_slot {
            Some(slot) => {
                out.text.mov_load(Gpr::R11, slot);
                match value {
                    Operand::Copy(p) => {
                        let ghost k90 = out@.text.labels;
                        match self.place_addr_general(out, p, p.proj.len(), Gpr::Rax) {
                            Ok(_) => {},
                            Err(e) => {
                                return Err(e);
                            },
                        }
                        proof {
                            grew_trans(l0, k90, out@.text.labels);
                        }
                        let ghost k91 = out@.text.labels;
                        self.memcpy(out, Gpr::R11, Gpr::Rax, size);
                        proof {
                            grew_trans(l0, k91, out@.text.labels);
                        }
                    },
                    Operand::Const(_) => {},
                }
                out.text.mov_load(Gpr::Rax, slot);
            },
            None => {
                return Err(self.unsup("memory return without an sret slot"));
            },
        }
        Ok(())
    }

    /// Returns an aggregate in registers.
    pub(crate) fn return_in_regs(
        &self,
        out: &mut Out,
        value: &Operand,
        ty: TypeId,
    ) -> (r: Result<(), CodegenError>)
        requires
            self.ok(),
            old(out).ok(),
            self.env().operand_ok(*value),
            self.env().prog.arena.has(ty),
        ensures
            lowered(r, final(out)@, self.env().return_in_regs(old(out)@, *value, ty)),
            r is Ok ==> final(out).ok() && grew(old(out)@.text.labels, final(out)@.text.labels),
    {
        let ghost l0 = out@.text.labels;
        proof {
            reveal(Env::return_in_regs);
            grew_refl(l0);
        }
        match value {
            Operand::Copy(p) => {
                let ghost k92 = out@.text.labels;
                match self.place_addr_general(out, p, p.proj.len(), Gpr::R11) {
                    Ok(_) => {},
                    Err(e) => {
                        return Err(e);
                    },
                }
                proof {
                    grew_trans(l0, k92, out@.text.labels);
                }
                out.text.mov_load_mem(Gpr::Rax, Gpr::R11, 0);
                if self.layout(ty).size > 8 {
                    out.text.mov_load_mem(Gpr::Rdx, Gpr::R11, 8);
                }
            },
            Operand::Const(_) => {
                if self.is_void_const(value) && self.is_error_union(ty) {
                    out.text.xor_rr(Gpr::Rax, Gpr::Rax);
                    if self.layout(ty).size > 8 {
                        out.text.xor_rr(Gpr::Rdx, Gpr::Rdx);
                    }
                } else {
                    return Err(self.unsup("register-class aggregate return from a non-place"));
                }
            },
        }
        Ok(())
    }

    /// Puts a returned value where the caller finds it.
    pub(crate) fn lower_helper_return(
        &self,
        out: &mut Out,
        value: &Operand,
    ) -> (r: Result<(), CodegenError>)
        requires
            self.ok(),
            old(out).ok(),
            self.env().operand_ok(*value),
        ensures
            lowered(r, final(out)@, self.env().lower_helper_return(old(out)@, *value)),
            r is Ok ==> final(out).ok() && grew(old(out)@.text.labels, final(out)@.text.labels),
    {
        let ghost l0 = out@.text.labels;
        proof {
            reveal(Env::lower_helper_return);
            grew_refl(l0);
        }
        let ty: TypeId = self.func.ret;
        if self.is_float(ty) {
            let ghost k93 = out@.text.labels;
            match self.load_float_operand(out, value, Xmm::Xmm0) {
                Ok(_) => {},
                Err(e) => {
                    return Err(e);
                },
            }
            proof {
                grew_trans(l0, k93, out@.text.labels);
            }
        } else if self.in_memory(ty) {
            match classify(self.prog, ty) {
                ArgClass::Memory { size } => {
                    let ghost k94 = out@.text.labels;
                    match self.return_in_memory(out, value, size) {
                        Ok(_) => {},
                        Err(e) => {
                            return Err(e);
                        },
                    }
                    proof {
                        grew_trans(l0, k94, out@.text.labels);
                    }
                },
                ArgClass::OneInt => {
                    let ghost k95 = out@.text.labels;
                    match self.return_in_regs(out, value, ty) {
                        Ok(_) => {},
                        Err(e) => {
                            return Err(e);
                        },
                    }
                    proof {
                        grew_trans(l0, k95, out@.text.labels);
                    }
                },
                ArgClass::TwoInt => {
                    let ghost k96 = out@.text.labels;
                    match self.return_in_regs(out, value, ty) {
                        Ok(_) => {},
                        Err(e) => {
                            return Err(e);
                        },
                    }
                    proof {
                        grew_trans(l0, k96, out@.text.labels);
                    }
                },
                ArgClass::Sse => {},
            }
        } else {
            let ghost k97 = out@.text.labels;
            match self.operand_to(out, value, Gpr::Rax) {
                Ok(_) => {},
                Err(e) => {
                    return Err(e);
                },
            }
            proof {
                grew_trans(l0, k97, out@.text.labels);
            }
            let ghost k98 = out@.text.labels;
            self.normalize(out, Gpr::Rax, ty);
            proof {
                grew_trans(l0, k98, out@.text.labels);
            }
        }
        Ok(())
    }

    /// Returns.
    pub(crate) fn lower_return(
        &self,
        out: &mut Out,
        value: &Operand,
    ) -> (r: Result<(), CodegenError>)
        requires
            self.ok(),
            old(out).ok(),
            self.env().operand_ok(*value),
        ensures
            lowered(r, final(out)@, self.env().lower_return(old(out)@, *value)),
            r is Ok ==> final(out).ok() && grew(old(out)@.text.labels, final(out)@.text.labels),
    {
        let ghost l0 = out@.text.labels;
        proof {
            reveal(Env::lower_return);
            grew_refl(l0);
        }
        if self.kind == EntryKind::VoidEntry && self.returns_error(value) {
            let ghost k99 = out@.text.labels;
            match self.lower_escaped_error(out, value) {
                Ok(_) => {},
                Err(e) => {
                    return Err(e);
                },
            }
            proof {
                grew_trans(l0, k99, out@.text.labels);
            }
        } else {
            match self.kind {
                EntryKind::VoidEntry => {
                    out.text.mov_ri(Gpr::Rax, 0);
                },
                EntryKind::IntEntry => {
                    let ghost k100 = out@.text.labels;
                    match self.operand_to(out, value, Gpr::Rax) {
                        Ok(_) => {},
                        Err(e) => {
                            return Err(e);
                        },
                    }
                    proof {
                        grew_trans(l0, k100, out@.text.labels);
                    }
                    let ghost k101 = out@.text.labels;
                    self.normalize(out, Gpr::Rax, self.func.ret);
                    proof {
                        grew_trans(l0, k101, out@.text.labels);
                    }
                },
                EntryKind::Helper => {
                    let ghost k102 = out@.text.labels;
                    match self.lower_helper_return(out, value) {
                        Ok(_) => {},
                        Err(e) => {
                            return Err(e);
                        },
                    }
                    proof {
                        grew_trans(l0, k102, out@.text.labels);
                    }
                },
            }
            let ghost k103 = out@.text.labels;
            self.epilogue_and_ret(out);
            proof {
                grew_trans(l0, k103, out@.text.labels);
            }
        }
        Ok(())
    }

    /// Stops the program with a message.
    pub(crate) fn lower_trap(&self, out: &mut Out, reason: TrapReason)
        requires
            self.ok(),
            old(out).ok(),
        ensures
            final(out)@ == self.env().lower_trap(old(out)@, reason),
            final(out).ok(),
            grew(old(out)@.text.labels, final(out)@.text.labels),
    {
        let ghost l0 = out@.text.labels;
        proof {
            reveal(Env::lower_trap);
            grew_refl(l0);
        }
        let line: String = panic_line(reason);
        let ghost k104 = out@.text.labels;
        self.write_text(out, line.as_str());
        proof {
            grew_trans(l0, k104, out@.text.labels);
        }
        let ghost k105 = out@.text.labels;
        self.exit_with(out, PANIC_EXIT);
        proof {
            grew_trans(l0, k105, out@.text.labels);
        }
    }

    /// Loads what a switch tests.
    pub(crate) fn load_switch_scrutinee(
        &self,
        out: &mut Out,
        op: &Operand,
        dst: Gpr,
    ) -> (r: Result<(), CodegenError>)
        requires
            self.ok(),
            old(out).ok(),
            self.env().operand_ok(*op),
        ensures
            lowered(r, final(out)@, self.env().load_switch_scrutinee(old(out)@, *op, dst)),
            r is Ok ==> final(out).ok() && grew(old(out)@.text.labels, final(out)@.text.labels),
    {
        let ghost l0 = out@.text.labels;
        proof {
            reveal(Env::load_switch_scrutinee);
            grew_refl(l0);
        }
        if self.holds_error_union(op) {
            let ghost k106 = out@.text.labels;
            match self.load_tag_of(out, op, dst) {
                Ok(_) => {},
                Err(e) => {
                    return Err(e);
                },
            }
            proof {
                grew_trans(l0, k106, out@.text.labels);
            }
        } else {
            let ghost k107 = out@.text.labels;
            match self.operand_to(out, op, dst) {
                Ok(_) => {},
                Err(e) => {
                    return Err(e);
                },
            }
            proof {
                grew_trans(l0, k107, out@.text.labels);
            }
        }
        Ok(())
    }

    /// Jumps to a block, if `rax` is a value.
    pub(crate) fn switch_case(&self, out: &mut Out, value: i128, target: BlockId)
        requires
            self.ok(),
            old(out).ok(),
            target.0 < old(out)@.text.labels.len(),
        ensures
            final(out)@ == self.env().switch_case(old(out)@, value, target),
            final(out).ok(),
            grew(old(out)@.text.labels, final(out)@.text.labels),
    {
        let ghost l0 = out@.text.labels;
        proof {
            reveal(Env::switch_case);
            grew_refl(l0);
        }
        match immediate(value) {
            Some(imm) => {
                out.text.cmp_ri(Gpr::Rax, imm);
            },
            None => {
                out.text.mov_ri(Gpr::Rcx, lo_word(value));
                out.text.cmp_rr(Gpr::Rax, Gpr::Rcx);
            },
        }
        out.text.jcc(Cc::E, LabelId(target.0));
    }

    /// Jumps to the block for the value in `rax`.
    pub(crate) fn switch_cases(&self, out: &mut Out, targets: &Vec<(i128, BlockId)>)
        requires
            self.ok(),
            old(out).ok(),
            forall|j: int| 0 <= j < targets@.len() ==> (#[trigger] targets@[j]).1.0 < old(out)@.text.labels.len(),
        ensures
            final(out)@ == self.env().switch_cases(old(out)@, targets@),
            final(out).ok(),
            grew(old(out)@.text.labels, final(out)@.text.labels),
    {
        let ghost l0 = out@.text.labels;
        let ghost want = self.env().switch_cases(out@, targets@);
        proof {
            grew_refl(l0);
        }
        let mut i: usize = 0;
        while i < targets.len()
            invariant
                self.ok(),
                out.ok(),
                forall|j: int| 0 <= j < targets@.len() ==> (#[trigger] targets@[j]).1.0 < old(out)@.text.labels.len(),
                i <= targets@.len(),
                grew(l0, out@.text.labels),
                l0 == old(out)@.text.labels,
                want == self.env().switch_cases(old(out)@, targets@),
                want == self.env().switch_cases_from(out@, targets@, i as int),
            decreases targets@.len() - i,
        {
            proof {
                grew_longer(l0, out@.text.labels);
                assert(targets@[i as int].1.0 < old(out)@.text.labels.len());
            }
            let ghost here = out@.text.labels;
            self.switch_case(out, targets[i].0, targets[i].1);
            proof {
                grew_trans(l0, here, out@.text.labels);
            }
            i = i + 1;
        }
    }

    /// Lowers the end of a block.
    pub(crate) fn lower_terminator(
        &self,
        out: &mut Out,
        term: &Terminator,
    ) -> (r: Result<(), CodegenError>)
        requires
            self.ok(),
            old(out).ok(),
            self.env().term_ok(*term),
            self.env().func.blocks@.len() <= old(out)@.text.labels.len(),
        ensures
            lowered(r, final(out)@, self.env().lower_terminator(old(out)@, *term)),
            r is Ok ==> final(out).ok() && grew(old(out)@.text.labels, final(out)@.text.labels),
    {
        let ghost l0 = out@.text.labels;
        proof {
            reveal(Env::lower_terminator);
            grew_refl(l0);
        }
        match term {
            Terminator::Goto(t) => {
                out.text.jmp(LabelId(t.0));
            },
            Terminator::Branch { cond, then_bb, else_bb } => {
                let ghost k108 = out@.text.labels;
                match self.operand_to(out, cond, Gpr::Rax) {
                    Ok(_) => {},
                    Err(e) => {
                        return Err(e);
                    },
                }
                proof {
                    grew_trans(l0, k108, out@.text.labels);
                }
                proof {
                    grew_longer(l0, out@.text.labels);
                }
                out.text.test_rr(Gpr::Rax, Gpr::Rax);
                out.text.jcc(Cc::Ne, LabelId(then_bb.0));
                out.text.jmp(LabelId(else_bb.0));
            },
            Terminator::Switch { scrutinee, targets, default } => {
                let ghost k109 = out@.text.labels;
                match self.load_switch_scrutinee(out, scrutinee, Gpr::Rax) {
                    Ok(_) => {},
                    Err(e) => {
                        return Err(e);
                    },
                }
                proof {
                    grew_trans(l0, k109, out@.text.labels);
                }
                proof {
                    grew_longer(l0, out@.text.labels);
                }
                let ghost k110 = out@.text.labels;
                self.switch_cases(out, targets);
                proof {
                    grew_trans(l0, k110, out@.text.labels);
                }
                proof {
                    grew_longer(l0, out@.text.labels);
                }
                out.text.jmp(LabelId(default.0));
            },
            Terminator::Return { value } => {
                let ghost k111 = out@.text.labels;
                match self.lower_return(out, value) {
                    Ok(_) => {},
                    Err(e) => {
                        return Err(e);
                    },
                }
                proof {
                    grew_trans(l0, k111, out@.text.labels);
                }
            },
            Terminator::Trap { reason } => {
                let ghost k112 = out@.text.labels;
                self.lower_trap(out, *reason);
                proof {
                    grew_trans(l0, k112, out@.text.labels);
                }
            },
            Terminator::Unreachable => {
                let ghost k113 = out@.text.labels;
                self.lower_trap(out, TrapReason::Unreachable);
                proof {
                    grew_trans(l0, k113, out@.text.labels);
                }
            },
        }
        Ok(())
    }

    /// Lowers a block behind its label, and notes the lines of its statements.
    pub(crate) fn lower_block_body(
        &self,
        out: &mut Out,
        b: &Block,
        notes: &mut Vec<LineNote>,
    ) -> (r: Result<(), CodegenError>)
        requires
            self.ok(),
            old(out).ok(),
            self.env().block_ok(*b),
            self.env().func.blocks@.len() <= old(out)@.text.labels.len(),
        ensures
            lowered(r, final(out)@, self.env().lower_block_body(old(out)@, *b)),
            r is Ok ==> final(out).ok() && grew(old(out)@.text.labels, final(out)@.text.labels),
            r is Ok ==> final(notes)@ == old(notes)@ + self.env().stmt_notes_from(
                old(out)@,
                *b,
                0,
            ),
    {
        let ghost l0 = out@.text.labels;
        proof {
            reveal(Env::lower_block_body);
            grew_refl(l0);
        }
        let ghost k114 = out@.text.labels;
        match self.lower_stmts(out, b, notes) {
            Ok(_) => {},
            Err(e) => {
                return Err(e);
            },
        }
        proof {
            grew_trans(l0, k114, out@.text.labels);
        }
        proof {
            grew_longer(l0, out@.text.labels);
        }
        let ghost k115 = out@.text.labels;
        match self.lower_terminator(out, &b.term) {
            Ok(_) => {},
            Err(e) => {
                return Err(e);
            },
        }
        proof {
            grew_trans(l0, k115, out@.text.labels);
        }
        Ok(())
    }

    /// Lowers the entry of a function: its frame, saved registers and parameters.
    pub(crate) fn lower_entry(&self, out: &mut Out) -> (r: Result<(), CodegenError>)
        requires
            self.ok(),
            old(out).ok(),
        ensures
            lowered(r, final(out)@, self.env().lower_entry(old(out)@)),
            r is Ok ==> final(out).ok() && grew(old(out)@.text.labels, final(out)@.text.labels),
    {
        let ghost l0 = out@.text.labels;
        proof {
            reveal(Env::lower_entry);
            grew_refl(l0);
        }
        out.text.push(Gpr::Rbp);
        out.text.mov_rr(Gpr::Rbp, Gpr::Rsp);
        if self.plan.frame_size > 0 {
            out.text.sub_rsp_imm(self.plan.frame_size);
        }
        let ghost k116 = out@.text.labels;
        self.save_all(out);
        proof {
            grew_trans(l0, k116, out@.text.labels);
        }
        let ghost k117 = out@.text.labels;
        match self.lower_prologue_params(out) {
            Ok(_) => {},
            Err(e) => {
                return Err(e);
            },
        }
        proof {
            grew_trans(l0, k117, out@.text.labels);
        }
        Ok(())
    }
}

} // verus!
