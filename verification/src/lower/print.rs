//! Printing.
use vstd::prelude::*;

use crate::encode::LabelId;
use crate::lower::env::{
    Env, FnLower, LowState, Out, grew, grew_refl, grew_trans, lowered, opening_bound, opening_call,
    opening_done, opening_new, opening_start, opening_unbound,
};
use crate::encode::Cc;
use crate::fmt_native::{Align, Spec, Step, StepView, Verb, parse, parsed, step_views};
use crate::layout::{field_offsets, offsets_fit};
use crate::lower::env::Repr;
use crate::lower::intr::{IntrinsicOp, ONE_LESS, dotted, intrinsic_of, intrinsic_op, joined};
use crate::lower::scalar::{low_mask, mask_of, plus, sum32};
use crate::mir::{Const, ConstId, IntrinsicPath, IntrinsicRoot, LocalId, Operand};
use crate::reg::Gpr;
use crate::types::{Type, TypeId};
use crate::CodegenError;

verus! {

/// The system call that writes.
pub const SYS_WRITE: i64 = 1;

/// The system call that exits.
pub const SYS_EXIT: i64 = 60;

/// The exit code of a program that stops itself.
pub const PANIC_EXIT: i64 = 134;

/// Where the start of a padded field is kept, from the stack pointer on.
pub const FIELD_START_SLOT: i32 = 112;

/// Where the low word of a two-word integer under division is kept, from the stack
/// pointer on: behind its digits.
pub const WIDE_LO_SLOT: i32 = 40;

/// Where the high word of a two-word integer under division is kept.
pub const WIDE_HI_SLOT: i32 = 48;

/// Where the values to print are.
#[derive(Clone, Copy, PartialEq, Eq, Structural, Debug)]
pub enum PrintArgs {
    /// There are none.
    Absent,
    /// In a local.
    Local(LocalId),
    /// Elsewhere.
    Other,
}

impl Env {
    /// The type and offset of a value to print; those that the allocator recovered
    /// come first.
    pub open spec fn tuple_field(self, l: LocalId, i: usize) -> Option<(TypeId, u64)> {
        match self.alloc.agg_fields@[l.0 as int] {
            Some(f) => if i < f@.len() {
                Some(f@[i as int])
            } else {
                None
            },
            None => match self.struct_field(self.tuple_type(l), i) {
                Some(f) => Some((f.ty, self.field_offset_at(self.tuple_type(l), i))),
                None => None,
            },
        }
    }

    /// The type of the values to print.
    pub open spec fn tuple_type(self, l: LocalId) -> TypeId {
        match self.alloc.home_ty@[l.0 as int] {
            Some(t) => t,
            None => self.local_ty(l),
        }
    }
}

impl FnLower<'_> {
    fn tuple_field(&self, l: LocalId, i: usize) -> (r: Option<(TypeId, u64)>)
        requires
            self.ok(),
            l.0 < self.env().func.locals@.len(),
        ensures
            r == self.env().tuple_field(l, i),
            r matches Some(f) ==> self.env().prog.arena.has(f.0),
    {
        assert(self.alloc.agg_fields@[l.0 as int] == self.env().alloc.agg_fields@[l.0 as int]);
        assert(self.alloc.home_ty@[l.0 as int] == self.env().alloc.home_ty@[l.0 as int]);
        match &self.alloc.agg_fields[l.0 as usize] {
            Some(f) => if i < f.len() {
                assert(self.env().prog.arena.has(f@[i as int].0));
                Some(f[i])
            } else {
                None
            },
            None => {
                let ty: TypeId = match self.alloc.home_ty[l.0 as usize] {
                    Some(t) => t,
                    None => self.local_ty(l),
                };
                assert(self.env().prog.arena.has(ty));
                assert(offsets_fit(self.prog.arena, ty));
                match self.struct_field(ty, i) {
                    Some(f) => {
                        let offs = field_offsets(&self.prog.arena, ty);
                        let at: u64 = if i < offs.len() {
                            offs[i]
                        } else {
                            0
                        };
                        Some((f.ty, at))
                    },
                    None => None,
                }
            },
        }
    }
}

impl Env {
    /// The local that a print writes to.
    pub open spec fn print_fd_local(self, path: IntrinsicPath) -> Option<LocalId> {
        match path.root {
            IntrinsicRoot::Value(op) => match op {
                Operand::Copy(p) => if p.proj@.len() == 0 {
                    Some(p.base)
                } else {
                    None
                },
                Operand::Const(_) => None,
            },
            _ => None,
        }
    }

    /// Whether an intrinsic is called on a value.
    pub open spec fn has_receiver(self, path: IntrinsicPath) -> bool {
        match path.root {
            IntrinsicRoot::Value(_) => true,
            _ => false,
        }
    }

    /// The string that an operand is.
    pub open spec fn string_arg(self, op: Operand) -> Option<ConstId> {
        match op {
            Operand::Copy(_) => None,
            Operand::Const(c) => match c {
                Const::Str(id) => Some(id),
                _ => None,
            },
        }
    }

    /// The format string of a print.
    pub open spec fn format_arg(self, args: Seq<Operand>) -> Option<ConstId> {
        if args.len() > 0 {
            self.string_arg(args[0 as int])
        } else {
            None
        }
    }

    /// Where the values to print are.
    pub open spec fn tuple_of(self, op: Operand) -> PrintArgs {
        match op {
            Operand::Copy(p) => if p.proj@.len() == 0 {
                PrintArgs::Local(p.base)
            } else {
                PrintArgs::Other
            },
            Operand::Const(c) => match c {
                Const::Void => PrintArgs::Absent,
                _ => PrintArgs::Other,
            },
        }
    }

    /// Where the values of a print are.
    pub open spec fn print_args(self, args: Seq<Operand>) -> PrintArgs {
        if args.len() > 1 {
            self.tuple_of(args[1 as int])
        } else {
            PrintArgs::Absent
        }
    }

    /// Copies `rcx` bytes from `rax` to the cursor.
    #[verifier::opaque]
    pub open spec fn copy_runtime_len_to_cursor(self, s: LowState) -> LowState {
        let top = s.text.fresh();
        let s = s.on(s.text.new_label());
        let end = s.text.fresh();
        let s = s.on(s.text.new_label());
        let s = s.on(s.text.bind(top));
        let s = s.on(s.text.test_rr(Gpr::Rcx, Gpr::Rcx));
        let s = s.on(s.text.jcc_local(Cc::E, end));
        let s = s.on(s.text.movzx8_mem(Gpr::Rdx, Gpr::Rax, 0));
        let s = s.on(s.text.mov_store8_mem(Gpr::R11, 0, Gpr::Rdx));
        let s = s.on(s.text.add_ri(Gpr::Rax, 1));
        let s = s.on(s.text.add_ri(Gpr::R11, 1));
        let s = s.on(s.text.add_ri(Gpr::Rcx, ONE_LESS));
        let s = s.on(s.text.jmp_local(top));
        let s = s.on(s.text.bind(end));
        s
    }

    /// Writes a byte `count_reg` times.
    #[verifier::opaque]
    pub open spec fn emit_fill_run(
        self,
        s: LowState,
        dst_reg: Gpr,
        count_reg: Gpr,
        fill: i64,
    ) -> LowState {
        let top = s.text.fresh();
        let s = s.on(s.text.new_label());
        let end = s.text.fresh();
        let s = s.on(s.text.new_label());
        let s = s.on(s.text.bind(top));
        let s = s.on(s.text.test_rr(count_reg, count_reg));
        let s = s.on(s.text.jcc_local(Cc::E, end));
        let s = s.on(s.text.mov_ri(Gpr::Rax, fill));
        let s = s.on(s.text.mov_store8_mem(dst_reg, 0, Gpr::Rax));
        let s = s.on(s.text.add_ri(dst_reg, 1));
        let s = s.on(s.text.add_ri(count_reg, ONE_LESS));
        let s = s.on(s.text.jmp_local(top));
        let s = s.on(s.text.bind(end));
        s
    }

    /// Moves a field to the right, last byte first.
    #[verifier::opaque]
    pub open spec fn shift_field_right(
        self,
        s: LowState,
        start_reg: Gpr,
        len_reg: Gpr,
        pad_reg: Gpr,
    ) -> LowState {
        let s = s.on(s.text.mov_rr(Gpr::Rax, len_reg));
        let top = s.text.fresh();
        let s = s.on(s.text.new_label());
        let end = s.text.fresh();
        let s = s.on(s.text.new_label());
        let s = s.on(s.text.bind(top));
        let s = s.on(s.text.test_rr(Gpr::Rax, Gpr::Rax));
        let s = s.on(s.text.jcc_local(Cc::E, end));
        let s = s.on(s.text.add_ri(Gpr::Rax, ONE_LESS));
        let s = s.on(s.text.mov_rr(Gpr::R11, start_reg));
        let s = s.on(s.text.add_rr(Gpr::R11, Gpr::Rax));
        let s = s.on(s.text.movzx8_mem(Gpr::Rdx, Gpr::R11, 0));
        let s = s.on(s.text.add_rr(Gpr::R11, pad_reg));
        let s = s.on(s.text.mov_store8_mem(Gpr::R11, 0, Gpr::Rdx));
        let s = s.on(s.text.jmp_local(top));
        let s = s.on(s.text.bind(end));
        s
    }

    /// Fills in front of the field.
    #[verifier::opaque]
    pub open spec fn pad_right(self, s: LowState, width: i64, fill: i64) -> LowState {
        let s = self.shift_field_right(s, Gpr::Rsi, Gpr::Rcx, Gpr::R10);
        let s = s.on(s.text.mov_load_mem(Gpr::Rdi, Gpr::Rsp, FIELD_START_SLOT));
        let s = self.emit_fill_run(s, Gpr::Rdi, Gpr::R10, fill);
        let s = s.on(s.text.mov_load_mem(Gpr::R11, Gpr::Rsp, FIELD_START_SLOT));
        let s = s.on(s.text.add_ri(Gpr::R11, width as i32));
        s
    }

    /// Fills on both sides of the field.
    #[verifier::opaque]
    pub open spec fn pad_center(self, s: LowState, fill: i64) -> LowState {
        let s = s.on(s.text.mov_rr(Gpr::R8, Gpr::R10));
        let s = s.on(s.text.shr_ri(Gpr::R8, 1));
        let s = self.shift_field_right(s, Gpr::Rsi, Gpr::Rcx, Gpr::R8);
        let s = s.on(s.text.mov_load_mem(Gpr::Rdi, Gpr::Rsp, FIELD_START_SLOT));
        let s = s.on(s.text.mov_rr(Gpr::R9, Gpr::R8));
        let s = self.emit_fill_run(s, Gpr::Rdi, Gpr::R9, fill);
        let s = s.on(s.text.mov_load_mem(Gpr::R11, Gpr::Rsp, FIELD_START_SLOT));
        let s = s.on(s.text.add_rr(Gpr::R11, Gpr::R8));
        let s = s.on(s.text.add_rr(Gpr::R11, Gpr::Rcx));
        let s = s.on(s.text.mov_rr(Gpr::R9, Gpr::R10));
        let s = s.on(s.text.sub_rr(Gpr::R9, Gpr::R8));
        let s = self.emit_fill_run(s, Gpr::R11, Gpr::R9, fill);
        s
    }

    /// The byte to pad with.
    pub open spec fn fill_word(self, spec: Spec) -> i64 {
        spec.fill as i64
    }

    /// The width to pad to.
    pub open spec fn width_word(self, spec: Spec) -> i64 {
        spec.width as i64
    }

    /// Pads the field that was rendered.
    #[verifier::opaque]
    pub open spec fn emit_field_padding(self, s: LowState, spec: Spec) -> LowState {
        let fill = self.fill_word(spec);
        let width = self.width_word(spec);
        let s = s.on(s.text.mov_load_mem(Gpr::Rsi, Gpr::Rsp, FIELD_START_SLOT));
        let s = s.on(s.text.mov_rr(Gpr::Rdi, Gpr::R11));
        let s = s.on(s.text.mov_rr(Gpr::Rcx, Gpr::Rdi));
        let s = s.on(s.text.sub_rr(Gpr::Rcx, Gpr::Rsi));
        let done = s.text.fresh();
        let s = s.on(s.text.new_label());
        let s = s.on(s.text.mov_ri(Gpr::Rax, width));
        let s = s.on(s.text.cmp_rr(Gpr::Rcx, Gpr::Rax));
        let s = s.on(s.text.jcc_local(Cc::Ae, done));
        let s = s.on(s.text.mov_ri(Gpr::R10, width));
        let s = s.on(s.text.sub_rr(Gpr::R10, Gpr::Rcx));
        let s = match spec.align {
            Align::Left => {
                let s = self.emit_fill_run(s, Gpr::R11, Gpr::R10, fill);
                s
            },
            Align::Right => {
                let s = self.pad_right(s, width, fill);
                s
            },
            Align::Center => {
                let s = self.pad_center(s, fill);
                s
            },
            Align::Unset => {
                s
            },
        };
        let s = s.on(s.text.bind(done));
        s
    }

    /// Turns a digit into its character; that of ten is `ten + 10`.
    #[verifier::opaque]
    pub open spec fn digit_of_rdx(self, s: LowState, ten: i32) -> LowState {
        let small = s.text.fresh();
        let s = s.on(s.text.new_label());
        let wrote = s.text.fresh();
        let s = s.on(s.text.new_label());
        let s = s.on(s.text.cmp_ri(Gpr::Rdx, 10));
        let s = s.on(s.text.jcc_local(Cc::B, small));
        let s = s.on(s.text.add_ri(Gpr::Rdx, ten));
        let s = s.on(s.text.jmp_local(wrote));
        let s = s.on(s.text.bind(small));
        let s = s.on(s.text.add_ri(Gpr::Rdx, 48));
        let s = s.on(s.text.bind(wrote));
        s
    }

    /// Copies the digits between `rdi` and `rsi` to the cursor.
    #[verifier::opaque]
    pub open spec fn copy_scratch_to_cursor(self, s: LowState) -> LowState {
        let s = s.on(s.text.mov_rr(Gpr::Rcx, Gpr::Rsi));
        let s = s.on(s.text.sub_rr(Gpr::Rcx, Gpr::Rdi));
        let s = s.on(s.text.mov_rr(Gpr::Rax, Gpr::Rdi));
        let s = self.copy_runtime_len_to_cursor(s);
        s
    }

    /// Points `rsi` and `rdi` at the end of the scratch room.
    #[verifier::opaque]
    pub open spec fn scratch_at(self, s: LowState, end: i32) -> LowState {
        let s = s.on(s.text.mov_rr(Gpr::Rsi, Gpr::Rsp));
        let s = s.on(s.text.add_ri(Gpr::Rsi, end));
        let s = s.on(s.text.mov_rr(Gpr::Rdi, Gpr::Rsi));
        s
    }

    /// Renders `rax` in a radix.
    #[verifier::opaque]
    pub open spec fn emit_radix_digits(self, s: LowState, radix: u64, upper: bool) -> LowState {
        let nonzero = s.text.fresh();
        let s = s.on(s.text.new_label());
        let done = s.text.fresh();
        let s = s.on(s.text.new_label());
        let s = s.on(s.text.test_rr(Gpr::Rax, Gpr::Rax));
        let s = s.on(s.text.jcc_local(Cc::Ne, nonzero));
        let s = s.on(s.text.mov_ri(Gpr::Rdx, 48));
        let s = s.on(s.text.mov_store8_mem(Gpr::R11, 0, Gpr::Rdx));
        let s = s.on(s.text.add_ri(Gpr::R11, 1));
        let s = s.on(s.text.jmp_local(done));
        let s = s.on(s.text.bind(nonzero));
        let s = self.scratch_at(s, 64);
        let top = s.text.fresh();
        let s = s.on(s.text.new_label());
        let s = s.on(s.text.bind(top));
        let s = s.on(s.text.zero_rdx());
        let s = s.on(s.text.mov_ri(Gpr::Rcx, radix as i64));
        let s = s.on(s.text.div_r(Gpr::Rcx));
        let s = if upper {
            let s = self.digit_of_rdx(s, 55);
            s
        } else {
            let s = self.digit_of_rdx(s, 87);
            s
        };
        let s = s.on(s.text.add_ri(Gpr::Rdi, ONE_LESS));
        let s = s.on(s.text.mov_store8_mem(Gpr::Rdi, 0, Gpr::Rdx));
        let s = s.on(s.text.test_rr(Gpr::Rax, Gpr::Rax));
        let s = s.on(s.text.jcc_local(Cc::Ne, top));
        let s = self.copy_scratch_to_cursor(s);
        let s = s.on(s.text.bind(done));
        s
    }

    /// Whether a value of a type has digits in any radix.
    pub open spec fn has_digits(self, ty: TypeId) -> bool {
        match self.ty(ty) {
            Type::Int { .. } => true,
            Type::Bool => true,
            Type::ComptimeInt => true,
            _ => false,
        }
    }

    /// Whether a value of a type can be a code point.
    pub open spec fn is_code_point(self, ty: TypeId) -> bool {
        match self.ty(ty) {
            Type::Int { .. } => true,
            Type::ComptimeInt => true,
            _ => false,
        }
    }

    /// Renders an integer in a radix.
    #[verifier::opaque]
    pub open spec fn render_radix_field(
        self,
        s: LowState,
        base: LocalId,
        foff: u64,
        fty: TypeId,
        radix: u64,
        upper: bool,
    ) -> LowState {
        let s = if !self.has_digits(fty) {
            s.fail(self.unsup("radix format of a non-integer field"@))
        } else if self.layout(fty).size > 8 {
            s.fail(self.unsup("radix format of a wide (>64-bit) integer"@))
        } else {
            let s = match self.home(base) {
                Some(h) => {
                    let r = self.repr_of(fty);
                    let s = self.load_sized(s, Gpr::Rax, Gpr::Rbp, sum32(h, foff as i32), fty);
                    let s = if r.width != 0 && r.width < 64 {
                        let s = self.keep_low_bits(s, r.width);
                        s
                    } else {
                        s
                    };
                    let s = self.emit_radix_digits(s, radix, upper);
                    s
                },
                None => {
                    s.fail(self.unsup("print tuple home"@))
                },
            };
            s
        };
        s
    }

    /// Clears all but the low bits of `rax`.
    #[verifier::opaque]
    pub open spec fn keep_low_bits(self, s: LowState, width: u16) -> LowState {
        let s = if width < 32 {
            let s = s.on(s.text.and_ri(Gpr::Rax, mask_of(width as u32) as i32));
            s
        } else {
            let s = s.on(s.text.mov_ri(Gpr::Rcx, mask_of(width as u32) as i64));
            let s = s.on(s.text.and_rr(Gpr::Rax, Gpr::Rcx));
            s
        };
        s
    }

    /// Writes the low byte of `rax`.
    #[verifier::opaque]
    pub open spec fn emit_byte_from_rax(self, s: LowState) -> LowState {
        let s = s.on(s.text.mov_store8_mem(Gpr::R11, 0, Gpr::Rax));
        let s = s.on(s.text.add_ri(Gpr::R11, 1));
        s
    }

    /// Writes the continuation bytes of a code point from bit `shift` down.
    pub open spec fn continuation_bytes(self, s: LowState, shift: i32, at: i32) -> LowState
        decreases shift + 6,
    {
        let s = if shift >= 0 {
            let s = s.on(s.text.mov_load_mem(Gpr::Rax, Gpr::Rsp, 0));
            let s = if shift > 0 {
                let s = s.on(s.text.mov_ri(Gpr::Rcx, shift as i64));
                let s = s.on(s.text.shr_cl(Gpr::Rax));
                s
            } else {
                s
            };
            let s = s.on(s.text.and_ri(Gpr::Rax, 63));
            let s = s.on(s.text.add_ri(Gpr::Rax, 128));
            let s = s.on(s.text.mov_store8_mem(Gpr::R11, at, Gpr::Rax));
            let s = self.continuation_bytes(s, (shift - 6) as i32, sum32(at, 1));
            s
        } else {
            s
        };
        s
    }

    /// Writes a code point of `n` bytes.
    #[verifier::opaque]
    pub open spec fn utf8_bytes(self, s: LowState, lead: i32, shift: i32, n: i32) -> LowState {
        let s = s.on(s.text.mov_store_mem(Gpr::Rsp, 0, Gpr::Rax));
        let s = s.on(s.text.mov_ri(Gpr::Rcx, shift as i64));
        let s = s.on(s.text.shr_cl(Gpr::Rax));
        let s = s.on(s.text.add_ri(Gpr::Rax, lead));
        let s = s.on(s.text.mov_store8_mem(Gpr::R11, 0, Gpr::Rax));
        let s = self.continuation_bytes(s, (shift - 6) as i32, 1);
        let s = s.on(s.text.add_ri(Gpr::R11, n));
        s
    }

    /// Writes the code point in `rax`.
    #[verifier::opaque]
    pub open spec fn emit_utf8_encode(self, s: LowState) -> LowState {
        let l1 = s.text.fresh();
        let s = s.on(s.text.new_label());
        let l2 = s.text.fresh();
        let s = s.on(s.text.new_label());
        let l3 = s.text.fresh();
        let s = s.on(s.text.new_label());
        let done = s.text.fresh();
        let s = s.on(s.text.new_label());
        let s = s.on(s.text.cmp_ri(Gpr::Rax, 0x80));
        let s = s.on(s.text.jcc_local(Cc::Ae, l1));
        let s = self.emit_byte_from_rax(s);
        let s = s.on(s.text.jmp_local(done));
        let s = s.on(s.text.bind(l1));
        let s = s.on(s.text.cmp_ri(Gpr::Rax, 0x800));
        let s = s.on(s.text.jcc_local(Cc::Ae, l2));
        let s = self.utf8_bytes(s, 0xC0, 6, 2);
        let s = s.on(s.text.jmp_local(done));
        let s = s.on(s.text.bind(l2));
        let s = s.on(s.text.cmp_ri(Gpr::Rax, 0x10000));
        let s = s.on(s.text.jcc_local(Cc::Ae, l3));
        let s = self.utf8_bytes(s, 0xE0, 12, 3);
        let s = s.on(s.text.jmp_local(done));
        let s = s.on(s.text.bind(l3));
        let s = self.utf8_bytes(s, 0xF0, 18, 4);
        let s = s.on(s.text.bind(done));
        s
    }

    /// Renders a code point.
    #[verifier::opaque]
    pub open spec fn render_char_field(
        self,
        s: LowState,
        base: LocalId,
        foff: u64,
        fty: TypeId,
    ) -> LowState {
        let s = if !self.is_code_point(fty) {
            s.fail(self.unsup("char format of a non-integer field"@))
        } else {
            let s = match self.home(base) {
                Some(h) => {
                    let s = self.load_sized(s, Gpr::Rax, Gpr::Rbp, sum32(h, foff as i32), fty);
                    let s = self.emit_utf8_encode(s);
                    s
                },
                None => {
                    s.fail(self.unsup("print tuple home"@))
                },
            };
            s
        };
        s
    }

    /// Renders a string.
    #[verifier::opaque]
    pub open spec fn render_string_field(
        self,
        s: LowState,
        base: LocalId,
        foff: u64,
        fty: TypeId,
    ) -> LowState {
        let s = if self.is_slice(fty) {
            let s = match self.home(base) {
                Some(h) => {
                    let s = s.on(s.text.mov_load(Gpr::Rax, sum32(h, foff as i32)));
                    let s = s.on(s.text.mov_load(Gpr::Rcx, sum32(sum32(h, foff as i32), 8)));
                    let s = self.copy_runtime_len_to_cursor(s);
                    s
                },
                None => {
                    s.fail(self.unsup("print tuple without a home"@))
                },
            };
            s
        } else {
            s.fail(self.unsup("string format of a non-slice field"@))
        };
        s
    }

    /// Renders `rax` in decimal.
    #[verifier::opaque]
    pub open spec fn emit_u64_digits(self, s: LowState) -> LowState {
        let s = self.scratch_at(s, 24);
        let top = s.text.fresh();
        let s = s.on(s.text.new_label());
        let s = s.on(s.text.bind(top));
        let s = s.on(s.text.zero_rdx());
        let s = s.on(s.text.mov_ri(Gpr::Rcx, 10));
        let s = s.on(s.text.div_r(Gpr::Rcx));
        let s = s.on(s.text.add_ri(Gpr::Rdi, ONE_LESS));
        let s = s.on(s.text.add_ri(Gpr::Rdx, 48));
        let s = s.on(s.text.mov_store8_mem(Gpr::Rdi, 0, Gpr::Rdx));
        let s = s.on(s.text.test_rr(Gpr::Rax, Gpr::Rax));
        let s = s.on(s.text.jcc_local(Cc::Ne, top));
        let s = self.copy_scratch_to_cursor(s);
        s
    }

    /// Writes the sign of a negative `rax` and negates it.
    #[verifier::opaque]
    pub open spec fn minus_sign(self, s: LowState) -> LowState {
        let s = s.on(s.text.mov_rr(Gpr::Rcx, Gpr::Rax));
        let s = s.on(s.text.mov_ri(Gpr::Rax, 45));
        let s = s.on(s.text.mov_store8_mem(Gpr::R11, 0, Gpr::Rax));
        let s = s.on(s.text.add_ri(Gpr::R11, 1));
        let s = s.on(s.text.mov_rr(Gpr::Rax, Gpr::Rcx));
        let s = s.on(s.text.neg_r(Gpr::Rax));
        s
    }

    /// Renders a word in decimal.
    #[verifier::opaque]
    pub open spec fn render_decimal_64(self, s: LowState, signed: bool) -> LowState {
        let s = if signed {
            let nonneg = s.text.fresh();
            let s = s.on(s.text.new_label());
            let s = s.on(s.text.test_rr(Gpr::Rax, Gpr::Rax));
            let s = s.on(s.text.jcc_local(Cc::Ge, nonneg));
            let s = self.minus_sign(s);
            let s = s.on(s.text.bind(nonneg));
            s
        } else {
            s
        };
        let s = self.emit_u64_digits(s);
        s
    }

    /// Writes the sign of a negative value of two words and negates it.
    #[verifier::opaque]
    pub open spec fn wide_magnitude(self, s: LowState) -> LowState {
        let nonneg = s.text.fresh();
        let s = s.on(s.text.new_label());
        let s = s.on(s.text.test_rr(Gpr::Rdx, Gpr::Rdx));
        let s = s.on(s.text.jcc_local(Cc::Ge, nonneg));
        let s = s.on(s.text.mov_ri(Gpr::Rcx, 45));
        let s = s.on(s.text.mov_store8_mem(Gpr::R11, 0, Gpr::Rcx));
        let s = s.on(s.text.add_ri(Gpr::R11, 1));
        let s = s.on(s.text.not_r(Gpr::Rax));
        let s = s.on(s.text.not_r(Gpr::Rdx));
        let s = s.on(s.text.add_ri(Gpr::Rax, 1));
        let nocarry = s.text.fresh();
        let s = s.on(s.text.new_label());
        let s = s.on(s.text.jcc_local(Cc::Ae, nocarry));
        let s = s.on(s.text.add_ri(Gpr::Rdx, 1));
        let s = s.on(s.text.bind(nocarry));
        let s = s.on(s.text.bind(nonneg));
        s
    }

    /// Renders two words in decimal.
    #[verifier::opaque]
    pub open spec fn render_decimal_128(self, s: LowState, off: i32, signed: bool) -> LowState {
        let s = s.on(s.text.mov_load(Gpr::Rax, off));
        let s = s.on(s.text.mov_load(Gpr::Rdx, sum32(sum32(off, 4), 4)));
        let s = if signed {
            let s = self.wide_magnitude(s);
            s
        } else {
            s
        };
        let s = s.on(s.text.mov_store_mem(Gpr::Rsp, WIDE_LO_SLOT, Gpr::Rax));
        let s = s.on(s.text.mov_store_mem(Gpr::Rsp, WIDE_HI_SLOT, Gpr::Rdx));
        let s = self.scratch_at(s, 40);
        let top = s.text.fresh();
        let s = s.on(s.text.new_label());
        let s = s.on(s.text.bind(top));
        let s = s.on(s.text.mov_load_mem(Gpr::Rax, Gpr::Rsp, WIDE_HI_SLOT));
        let s = s.on(s.text.zero_rdx());
        let s = s.on(s.text.mov_ri(Gpr::Rcx, 10));
        let s = s.on(s.text.div_r(Gpr::Rcx));
        let s = s.on(s.text.mov_store_mem(Gpr::Rsp, WIDE_HI_SLOT, Gpr::Rax));
        let s = s.on(s.text.mov_load_mem(Gpr::Rax, Gpr::Rsp, WIDE_LO_SLOT));
        let s = s.on(s.text.mov_ri(Gpr::Rcx, 10));
        let s = s.on(s.text.div_r(Gpr::Rcx));
        let s = s.on(s.text.mov_store_mem(Gpr::Rsp, WIDE_LO_SLOT, Gpr::Rax));
        let s = s.on(s.text.add_ri(Gpr::Rdi, ONE_LESS));
        let s = s.on(s.text.add_ri(Gpr::Rdx, 48));
        let s = s.on(s.text.mov_store8_mem(Gpr::Rdi, 0, Gpr::Rdx));
        let s = s.on(s.text.mov_load_mem(Gpr::Rax, Gpr::Rsp, WIDE_LO_SLOT));
        let s = s.on(s.text.mov_load_mem(Gpr::Rcx, Gpr::Rsp, WIDE_HI_SLOT));
        let s = s.on(s.text.or_rr(Gpr::Rax, Gpr::Rcx));
        let s = s.on(s.text.jcc_local(Cc::Ne, top));
        let s = self.copy_scratch_to_cursor(s);
        s
    }

    /// Writes a truth value as a digit.
    #[verifier::opaque]
    pub open spec fn emit_bool_digit(self, s: LowState) -> LowState {
        let s = s.on(s.text.test_rr(Gpr::Rax, Gpr::Rax));
        let s = self.set_bool(s, Cc::Ne);
        let s = s.on(s.text.add_ri(Gpr::Rax, 48));
        let s = s.on(s.text.mov_store8_mem(Gpr::R11, 0, Gpr::Rax));
        let s = s.on(s.text.add_ri(Gpr::R11, 1));
        s
    }

    /// Writes a byte behind the cursor.
    #[verifier::opaque]
    pub open spec fn put_byte(self, s: LowState, at: i32, b: i64) -> LowState {
        let s = s.on(s.text.mov_ri(Gpr::Rax, b));
        let s = s.on(s.text.mov_store8_mem(Gpr::R11, at, Gpr::Rax));
        s
    }

    /// Writes `true` or `false`.
    #[verifier::opaque]
    pub open spec fn emit_bool_word(self, s: LowState) -> LowState {
        let end = s.text.fresh();
        let s = s.on(s.text.new_label());
        let no = s.text.fresh();
        let s = s.on(s.text.new_label());
        let s = s.on(s.text.test_rr(Gpr::Rax, Gpr::Rax));
        let s = s.on(s.text.jcc_local(Cc::E, no));
        let s = self.put_byte(s, 0, 0x74);
        let s = self.put_byte(s, 1, 0x72);
        let s = self.put_byte(s, 2, 0x75);
        let s = self.put_byte(s, 3, 0x65);
        let s = s.on(s.text.add_ri(Gpr::R11, 4));
        let s = s.on(s.text.jmp_local(end));
        let s = s.on(s.text.bind(no));
        let s = self.put_byte(s, 0, 0x66);
        let s = self.put_byte(s, 1, 0x61);
        let s = self.put_byte(s, 2, 0x6C);
        let s = self.put_byte(s, 3, 0x73);
        let s = self.put_byte(s, 4, 0x65);
        let s = s.on(s.text.add_ri(Gpr::R11, 5));
        let s = s.on(s.text.bind(end));
        s
    }

    /// Renders a value in decimal.
    #[verifier::opaque]
    pub open spec fn render_decimal_field(
        self,
        s: LowState,
        base: LocalId,
        foff: u64,
        fty: TypeId,
    ) -> LowState {
        let s = match self.ty(fty) {
            Type::Int { .. } => {
                let s = match self.home(base) {
                    Some(h) => {
                        let signed = self.repr_of(fty).signed;
                        let s = if self.layout(fty).size > 8 {
                            let s = self.render_decimal_128(s, sum32(h, foff as i32), signed);
                            s
                        } else {
                            let s = self.load_sized(
                                s,
                                Gpr::Rax,
                                Gpr::Rbp,
                                sum32(h, foff as i32),
                                fty,
                            );
                            let s = self.normalize(s, Gpr::Rax, fty);
                            let s = self.render_decimal_64(s, signed);
                            s
                        };
                        s
                    },
                    None => {
                        s.fail(self.unsup("print tuple without a home"@))
                    },
                };
                s
            },
            Type::Bool => {
                let s = match self.home(base) {
                    Some(h) => {
                        let s = s.on(s.text.movzx8_mem(Gpr::Rax, Gpr::Rbp, sum32(h, foff as i32)));
                        let s = self.emit_bool_digit(s);
                        s
                    },
                    None => {
                        s.fail(self.unsup("print tuple home"@))
                    },
                };
                s
            },
            Type::Deferred => {
                let s = match self.home(base) {
                    Some(h) => {
                        let s = s.on(s.text.mov_load(Gpr::Rax, sum32(h, foff as i32)));
                        let s = self.render_decimal_64(s, false);
                        s
                    },
                    None => {
                        s.fail(self.unsup("print tuple without a home"@))
                    },
                };
                s
            },
            Type::ComptimeInt => {
                let s = match self.home(base) {
                    Some(h) => {
                        let s = s.on(s.text.mov_load(Gpr::Rax, sum32(h, foff as i32)));
                        let s = self.render_decimal_64(s, true);
                        s
                    },
                    None => {
                        s.fail(self.unsup("print tuple without a home"@))
                    },
                };
                s
            },
            _ => {
                s.fail(self.unsup("decimal format of a non-integer field"@))
            },
        };
        s
    }

    /// Renders a value by its type.
    #[verifier::opaque]
    pub open spec fn render_default_field(
        self,
        s: LowState,
        base: LocalId,
        foff: u64,
        fty: TypeId,
    ) -> LowState {
        let s = match self.ty(fty) {
            Type::Int { .. } => {
                let s = self.render_decimal_field(s, base, foff, fty);
                s
            },
            Type::ComptimeInt => {
                let s = self.render_decimal_field(s, base, foff, fty);
                s
            },
            Type::Slice { .. } => {
                let s = self.render_string_field(s, base, foff, fty);
                s
            },
            Type::Bool => {
                let s = match self.home(base) {
                    Some(h) => {
                        let s = s.on(s.text.movzx8_mem(Gpr::Rax, Gpr::Rbp, sum32(h, foff as i32)));
                        let s = self.emit_bool_word(s);
                        s
                    },
                    None => {
                        s.fail(self.unsup("print tuple home"@))
                    },
                };
                s
            },
            _ => {
                s.fail(self.unsup("default format of an unsupported field type"@))
            },
        };
        s
    }

    /// Renders a value.
    #[verifier::opaque]
    pub open spec fn render_field(
        self,
        s: LowState,
        base: LocalId,
        foff: u64,
        fty: TypeId,
        verb: Verb,
    ) -> LowState {
        let s = match verb {
            Verb::Str => {
                let s = self.render_string_field(s, base, foff, fty);
                s
            },
            Verb::Decimal => {
                let s = self.render_decimal_field(s, base, foff, fty);
                s
            },
            Verb::Default => {
                let s = self.render_default_field(s, base, foff, fty);
                s
            },
            Verb::Hex { upper } => {
                let s = self.render_radix_field(s, base, foff, fty, 16, upper);
                s
            },
            Verb::Bin => {
                let s = self.render_radix_field(s, base, foff, fty, 2, false);
                s
            },
            Verb::Oct => {
                let s = self.render_radix_field(s, base, foff, fty, 8, false);
                s
            },
            Verb::Char => {
                let s = self.render_char_field(s, base, foff, fty);
                s
            },
        };
        s
    }

    /// Renders a value of the tuple, with its padding.
    #[verifier::opaque]
    pub open spec fn emit_placeholder(
        self,
        s: LowState,
        arg_index: usize,
        spec: Spec,
        base: LocalId,
    ) -> LowState {
        let s = match self.tuple_field(base, arg_index) {
            Some(f) => {
                let pad = spec.align != Align::Unset && spec.width != 0;
                let s = if pad {
                    let s = s.on(s.text.mov_store_mem(Gpr::Rsp, FIELD_START_SLOT, Gpr::R11));
                    s
                } else {
                    s
                };
                let s = self.render_field(s, base, f.1, f.0, spec.verb);
                if s.err is Some {
                    s
                } else {
                    let s = if pad {
                        let s = self.emit_field_padding(s, spec);
                        s
                    } else {
                        s
                    };
                    s
                }
            },
            None => {
                s.fail(self.unsup("print with fewer args than placeholders"@))
            },
        };
        s
    }

    /// Writes bytes of the format string.
    #[verifier::opaque]
    pub open spec fn emit_literal(self, s: LowState, bytes: Seq<u8>) -> LowState {
        let s = if bytes.len() > 0 {
            let off = s.ro.offset_of(bytes);
            let s = s.with_data(bytes);
            let s = s.on(s.text.mov_ri_data(Gpr::Rax, off));
            let s = self.copy_to_cursor(s, Gpr::Rax, bytes.len() as u64);
            s
        } else {
            s
        };
        s
    }

    /// Renders a step of the format string.
    #[verifier::opaque]
    pub open spec fn print_step(self, s: LowState, step: StepView, values: PrintArgs) -> LowState {
        let s = match step {
            StepView::Literal(bytes) => {
                let s = self.emit_literal(s, bytes);
                s
            },
            StepView::Placeholder { arg_index, spec } => {
                let n = arg_index as usize;
                let s = match values {
                    PrintArgs::Local(base) => {
                        let s = self.emit_placeholder(s, n, spec, base);
                        s
                    },
                    _ => {
                        s.fail(self.unsup("print with fewer args than placeholders"@))
                    },
                };
                s
            },
        };
        s
    }

    /// Renders the steps of a format string.
    pub open spec fn print_steps(
        self,
        s: LowState,
        steps: Seq<StepView>,
        values: PrintArgs,
    ) -> LowState {
        self.print_steps_from(s, steps, values, 0)
    }

    /// The same from the `i`-th on.
    pub open spec fn print_steps_from(
        self,
        s: LowState,
        steps: Seq<StepView>,
        values: PrintArgs,
        i: int,
    ) -> LowState
        decreases steps.len() - i,
    {
        if i < 0 || i >= steps.len() {
            s
        } else {
            let k = i as usize;
            let s = self.print_step(s, steps[i], values);
            if s.err is Some {
                s
            } else {
                self.print_steps_from(s, steps, values, i + 1)
            }
        }
    }

    /// Renders into the buffer and writes it.
    #[verifier::opaque]
    pub open spec fn print_to(
        self,
        s: LowState,
        fd: LocalId,
        steps: Seq<StepView>,
        values: PrintArgs,
        buf: i32,
    ) -> LowState {
        let s = s.on(s.text.lea_rbp(Gpr::R11, buf));
        let s = self.print_steps(s, steps, values);
        if s.err is Some {
            s
        } else {
            let s = s.on(s.text.lea_rbp(Gpr::Rsi, buf));
            let s = s.on(s.text.mov_rr(Gpr::Rdx, Gpr::R11));
            let s = s.on(s.text.sub_rr(Gpr::Rdx, Gpr::Rsi));
            let s = self.local_to(s, fd, Gpr::Rdi);
            let s = s.on(s.text.mov_ri(Gpr::Rax, SYS_WRITE));
            let s = s.on(s.text.syscall());
            let s = s.on(s.text.mov_ri(Gpr::Rax, 0));
            s
        }
    }

    /// Prints by a format string.
    #[verifier::opaque]
    pub open spec fn print_parsed(
        self,
        s: LowState,
        fd: LocalId,
        id: ConstId,
        args: Seq<Operand>,
    ) -> LowState {
        let s = match parsed(self.const_bytes(id)) {
            Ok(steps) => {
                let values = self.print_args(args);
                let s = if values == PrintArgs::Other {
                    s.fail(self.unsup("print tuple not a bare local"@))
                } else {
                    let s = match self.plan.print_buf {
                        Some(buf) => {
                            let s = self.print_to(s, fd, steps, values, buf);
                            s
                        },
                        None => {
                            s.fail(self.unsup("print without a reserved buffer"@))
                        },
                    };
                    s
                };
                s
            },
            Err(e) => {
                s.fail(e)
            },
        };
        s
    }

    /// Prints.
    #[verifier::opaque]
    pub open spec fn lower_print_runtime(
        self,
        s: LowState,
        path: IntrinsicPath,
        args: Seq<Operand>,
    ) -> LowState {
        let s = match self.print_fd_local(path) {
            Some(fd) => {
                let s = match self.format_arg(args) {
                    Some(id) => {
                        let s = if self.has_bytes(id) {
                            let s = self.print_parsed(s, fd, id, args);
                            s
                        } else {
                            s.fail(self.unsup("print of a non-byte format const"@))
                        };
                        s
                    },
                    None => {
                        s.fail(self.unsup("print with a non-constant format string"@))
                    },
                };
                s
            },
            None => {
                let s = if self.has_receiver(path) {
                    s.fail(self.unsup("print receiver not a bare local"@))
                } else {
                    s.fail(self.unsup("print without a value receiver"@))
                };
                s
            },
        };
        s
    }

    /// Lowers an intrinsic.
    #[verifier::opaque]
    pub open spec fn lower_intrinsic_into_rax(
        self,
        s: LowState,
        path: IntrinsicPath,
        args: Seq<Operand>,
    ) -> LowState {
        let s = match path.root {
            IntrinsicRoot::Builtin(name) => {
                let s = self.lower_safety_predicate(s, name@, args);
                s
            },
            _ => {
                let s = match intrinsic_of(path.members@) {
                    IntrinsicOp::Stdout => {
                        let s = s.on(s.text.mov_ri(Gpr::Rax, 1));
                        s
                    },
                    IntrinsicOp::Stderr => {
                        let s = s.on(s.text.mov_ri(Gpr::Rax, 2));
                        s
                    },
                    IntrinsicOp::Print => {
                        let s = self.lower_print_runtime(s, path, args);
                        s
                    },
                    IntrinsicOp::Heap => {
                        let s = s.on(s.text.mov_ri(Gpr::Rax, 0));
                        s
                    },
                    IntrinsicOp::Free => {
                        let s = self.lower_free_op(s, path, args);
                        if s.err is Some {
                            s
                        } else {
                            let s = s.on(s.text.mov_ri(Gpr::Rax, 0));
                            s
                        }
                    },
                    IntrinsicOp::Allocate => {
                        s.fail(
                            self.unsup(
                                "heap allocation result consumed outside the recognized error-union shape"@,
                            ),
                        )
                    },
                    IntrinsicOp::ClockNow => {
                        let s = self.lower_clock_now(s);
                        s
                    },
                    IntrinsicOp::ClockSleep => {
                        let s = self.lower_clock_sleep(s, args);
                        s
                    },
                    IntrinsicOp::RandomInt => {
                        let s = self.emit_splitmix64_next(s);
                        s
                    },
                    IntrinsicOp::RandomBytes => {
                        let s = self.lower_random_bytes(s, args);
                        s
                    },
                    IntrinsicOp::EnvGet => {
                        let s = self.lower_env_get(s);
                        s
                    },
                    IntrinsicOp::Unknown => {
                        let name = dotted(path.members@, path.members@.len() as int);
                        s.fail(self.unsup3("intrinsic value."@, name, ""@))
                    },
                };
                s
            },
        };
        s
    }
}

impl FnLower<'_> {
    /// The local that a print writes to.
    pub(crate) fn print_fd_local(&self, path: &IntrinsicPath) -> (r: Option<LocalId>)
        requires
            self.ok(),
            self.env().path_ok(*path),
        ensures
            r == self.env().print_fd_local(*path),
            r matches Some(l) ==> l.0 < self.env().func.locals@.len(),
    {
        match &path.root {
            IntrinsicRoot::Value(op) => match op {
                Operand::Copy(p) => if p.proj.len() == 0 {
                    Some(p.base)
                } else {
                    None
                },
                Operand::Const(_) => None,
            },
            _ => None,
        }
    }

    /// Whether an intrinsic is called on a value.
    pub(crate) fn has_receiver(&self, path: &IntrinsicPath) -> (r: bool)
        requires
            self.ok(),
        ensures
            r == self.env().has_receiver(*path),
    {
        match &path.root {
            IntrinsicRoot::Value(_) => true,
            _ => false,
        }
    }

    /// The string that an operand is.
    pub(crate) fn string_arg(&self, op: &Operand) -> (r: Option<ConstId>)
        requires
            self.ok(),
            self.env().operand_ok(*op),
        ensures
            r == self.env().string_arg(*op),
            r matches Some(id) ==> id.0 < self.env().prog.consts@.len(),
    {
        match op {
            Operand::Copy(_) => None,
            Operand::Const(c) => match *c {
                Const::Str(id) => Some(id),
                _ => None,
            },
        }
    }

    /// The format string of a print.
    pub(crate) fn format_arg(&self, args: &Vec<Operand>) -> (r: Option<ConstId>)
        requires
            self.ok(),
            self.env().operands_ok(args@),
        ensures
            r == self.env().format_arg(args@),
            r matches Some(id) ==> id.0 < self.env().prog.consts@.len(),
    {
        if args.len() > 0 {
            self.string_arg(&args[0])
        } else {
            None
        }
    }

    /// Where the values to print are.
    pub(crate) fn tuple_of(&self, op: &Operand) -> (r: PrintArgs)
        requires
            self.ok(),
            self.env().operand_ok(*op),
        ensures
            r == self.env().tuple_of(*op),
            r matches PrintArgs::Local(l) ==> l.0 < self.env().func.locals@.len(),
    {
        match op {
            Operand::Copy(p) => if p.proj.len() == 0 {
                PrintArgs::Local(p.base)
            } else {
                PrintArgs::Other
            },
            Operand::Const(c) => match *c {
                Const::Void => PrintArgs::Absent,
                _ => PrintArgs::Other,
            },
        }
    }

    /// Where the values of a print are.
    pub(crate) fn print_args(&self, args: &Vec<Operand>) -> (r: PrintArgs)
        requires
            self.ok(),
            self.env().operands_ok(args@),
        ensures
            r == self.env().print_args(args@),
            r matches PrintArgs::Local(l) ==> l.0 < self.env().func.locals@.len(),
    {
        if args.len() > 1 {
            self.tuple_of(&args[1])
        } else {
            PrintArgs::Absent
        }
    }

    /// Copies `rcx` bytes from `rax` to the cursor.
    pub(crate) fn copy_runtime_len_to_cursor(&self, out: &mut Out)
        requires
            self.ok(),
            old(out).ok(),
        ensures
            final(out)@ == self.env().copy_runtime_len_to_cursor(old(out)@),
            final(out).ok(),
            grew(old(out)@.text.labels, final(out)@.text.labels),
    {
        let ghost l0 = out@.text.labels;
        let ghost mut open: Set<LabelId> = Set::empty();
        proof {
            reveal(Env::copy_runtime_len_to_cursor);
            opening_start(l0);
        }
        let ghost k1 = out@.text.labels;
        let top: LabelId = out.text.new_local_label();
        proof {
            opening_new(l0, k1, open, top);
            open = open.insert(top);
        }
        let ghost k2 = out@.text.labels;
        let end: LabelId = out.text.new_local_label();
        proof {
            opening_new(l0, k2, open, end);
            open = open.insert(end);
        }
        let ghost k3 = out@.text.labels;
        proof {
            opening_unbound(l0, k3, open, top);
        }
        out.text.bind_local(top);
        proof {
            opening_bound(l0, k3, out@.text.labels, open, top);
            open = open.remove(top);
        }
        out.text.test_rr(Gpr::Rcx, Gpr::Rcx);
        out.text.jcc_local(Cc::E, end);
        out.text.movzx8_mem(Gpr::Rdx, Gpr::Rax, 0);
        out.text.mov_store8_mem(Gpr::R11, 0, Gpr::Rdx);
        out.text.add_ri(Gpr::Rax, 1);
        out.text.add_ri(Gpr::R11, 1);
        out.text.add_ri(Gpr::Rcx, ONE_LESS);
        out.text.jmp_local(top);
        let ghost k4 = out@.text.labels;
        proof {
            opening_unbound(l0, k4, open, end);
        }
        out.text.bind_local(end);
        proof {
            opening_bound(l0, k4, out@.text.labels, open, end);
            open = open.remove(end);
        }
        proof {
            assert(open =~= Set::empty());
            opening_done(l0, out@.text.labels, open);
        }
    }

    /// Writes a byte `count_reg` times.
    pub(crate) fn emit_fill_run(&self, out: &mut Out, dst_reg: Gpr, count_reg: Gpr, fill: i64)
        requires
            self.ok(),
            old(out).ok(),
        ensures
            final(out)@ == self.env().emit_fill_run(old(out)@, dst_reg, count_reg, fill),
            final(out).ok(),
            grew(old(out)@.text.labels, final(out)@.text.labels),
    {
        let ghost l0 = out@.text.labels;
        let ghost mut open: Set<LabelId> = Set::empty();
        proof {
            reveal(Env::emit_fill_run);
            opening_start(l0);
        }
        let ghost k5 = out@.text.labels;
        let top: LabelId = out.text.new_local_label();
        proof {
            opening_new(l0, k5, open, top);
            open = open.insert(top);
        }
        let ghost k6 = out@.text.labels;
        let end: LabelId = out.text.new_local_label();
        proof {
            opening_new(l0, k6, open, end);
            open = open.insert(end);
        }
        let ghost k7 = out@.text.labels;
        proof {
            opening_unbound(l0, k7, open, top);
        }
        out.text.bind_local(top);
        proof {
            opening_bound(l0, k7, out@.text.labels, open, top);
            open = open.remove(top);
        }
        out.text.test_rr(count_reg, count_reg);
        out.text.jcc_local(Cc::E, end);
        out.text.mov_ri(Gpr::Rax, fill);
        out.text.mov_store8_mem(dst_reg, 0, Gpr::Rax);
        out.text.add_ri(dst_reg, 1);
        out.text.add_ri(count_reg, ONE_LESS);
        out.text.jmp_local(top);
        let ghost k8 = out@.text.labels;
        proof {
            opening_unbound(l0, k8, open, end);
        }
        out.text.bind_local(end);
        proof {
            opening_bound(l0, k8, out@.text.labels, open, end);
            open = open.remove(end);
        }
        proof {
            assert(open =~= Set::empty());
            opening_done(l0, out@.text.labels, open);
        }
    }

    /// Moves a field to the right, last byte first.
    pub(crate) fn shift_field_right(
        &self,
        out: &mut Out,
        start_reg: Gpr,
        len_reg: Gpr,
        pad_reg: Gpr,
    )
        requires
            self.ok(),
            old(out).ok(),
        ensures
            final(out)@ == self.env().shift_field_right(old(out)@, start_reg, len_reg, pad_reg),
            final(out).ok(),
            grew(old(out)@.text.labels, final(out)@.text.labels),
    {
        let ghost l0 = out@.text.labels;
        let ghost mut open: Set<LabelId> = Set::empty();
        proof {
            reveal(Env::shift_field_right);
            opening_start(l0);
        }
        out.text.mov_rr(Gpr::Rax, len_reg);
        let ghost k9 = out@.text.labels;
        let top: LabelId = out.text.new_local_label();
        proof {
            opening_new(l0, k9, open, top);
            open = open.insert(top);
        }
        let ghost k10 = out@.text.labels;
        let end: LabelId = out.text.new_local_label();
        proof {
            opening_new(l0, k10, open, end);
            open = open.insert(end);
        }
        let ghost k11 = out@.text.labels;
        proof {
            opening_unbound(l0, k11, open, top);
        }
        out.text.bind_local(top);
        proof {
            opening_bound(l0, k11, out@.text.labels, open, top);
            open = open.remove(top);
        }
        out.text.test_rr(Gpr::Rax, Gpr::Rax);
        out.text.jcc_local(Cc::E, end);
        out.text.add_ri(Gpr::Rax, ONE_LESS);
        out.text.mov_rr(Gpr::R11, start_reg);
        out.text.add_rr(Gpr::R11, Gpr::Rax);
        out.text.movzx8_mem(Gpr::Rdx, Gpr::R11, 0);
        out.text.add_rr(Gpr::R11, pad_reg);
        out.text.mov_store8_mem(Gpr::R11, 0, Gpr::Rdx);
        out.text.jmp_local(top);
        let ghost k12 = out@.text.labels;
        proof {
            opening_unbound(l0, k12, open, end);
        }
        out.text.bind_local(end);
        proof {
            opening_bound(l0, k12, out@.text.labels, open, end);
            open = open.remove(end);
        }
        proof {
            assert(open =~= Set::empty());
            opening_done(l0, out@.text.labels, open);
        }
    }

    /// Fills in front of the field.
    pub(crate) fn pad_right(&self, out: &mut Out, width: i64, fill: i64)
        requires
            self.ok(),
            old(out).ok(),
        ensures
            final(out)@ == self.env().pad_right(old(out)@, width, fill),
            final(out).ok(),
            grew(old(out)@.text.labels, final(out)@.text.labels),
    {
        let ghost l0 = out@.text.labels;
        proof {
            reveal(Env::pad_right);
            grew_refl(l0);
        }
        let ghost k13 = out@.text.labels;
        self.shift_field_right(out, Gpr::Rsi, Gpr::Rcx, Gpr::R10);
        proof {
            grew_trans(l0, k13, out@.text.labels);
        }
        out.text.mov_load_mem(Gpr::Rdi, Gpr::Rsp, FIELD_START_SLOT);
        let ghost k14 = out@.text.labels;
        self.emit_fill_run(out, Gpr::Rdi, Gpr::R10, fill);
        proof {
            grew_trans(l0, k14, out@.text.labels);
        }
        out.text.mov_load_mem(Gpr::R11, Gpr::Rsp, FIELD_START_SLOT);
        out.text.add_ri(Gpr::R11, width as i32);
    }

    /// Fills on both sides of the field.
    pub(crate) fn pad_center(&self, out: &mut Out, fill: i64)
        requires
            self.ok(),
            old(out).ok(),
        ensures
            final(out)@ == self.env().pad_center(old(out)@, fill),
            final(out).ok(),
            grew(old(out)@.text.labels, final(out)@.text.labels),
    {
        let ghost l0 = out@.text.labels;
        proof {
            reveal(Env::pad_center);
            grew_refl(l0);
        }
        out.text.mov_rr(Gpr::R8, Gpr::R10);
        out.text.shr_ri(Gpr::R8, 1);
        let ghost k15 = out@.text.labels;
        self.shift_field_right(out, Gpr::Rsi, Gpr::Rcx, Gpr::R8);
        proof {
            grew_trans(l0, k15, out@.text.labels);
        }
        out.text.mov_load_mem(Gpr::Rdi, Gpr::Rsp, FIELD_START_SLOT);
        out.text.mov_rr(Gpr::R9, Gpr::R8);
        let ghost k16 = out@.text.labels;
        self.emit_fill_run(out, Gpr::Rdi, Gpr::R9, fill);
        proof {
            grew_trans(l0, k16, out@.text.labels);
        }
        out.text.mov_load_mem(Gpr::R11, Gpr::Rsp, FIELD_START_SLOT);
        out.text.add_rr(Gpr::R11, Gpr::R8);
        out.text.add_rr(Gpr::R11, Gpr::Rcx);
        out.text.mov_rr(Gpr::R9, Gpr::R10);
        out.text.sub_rr(Gpr::R9, Gpr::R8);
        let ghost k17 = out@.text.labels;
        self.emit_fill_run(out, Gpr::R11, Gpr::R9, fill);
        proof {
            grew_trans(l0, k17, out@.text.labels);
        }
    }

    /// The byte to pad with.
    pub(crate) fn fill_word(&self, spec: Spec) -> (r: i64)
        requires
            self.ok(),
        ensures
            r == self.env().fill_word(spec),
    {
        spec.fill as i64
    }

    /// The width to pad to.
    pub(crate) fn width_word(&self, spec: Spec) -> (r: i64)
        requires
            self.ok(),
        ensures
            r == self.env().width_word(spec),
    {
        spec.width as i64
    }

    /// Pads the field that was rendered.
    pub(crate) fn emit_field_padding(&self, out: &mut Out, spec: Spec)
        requires
            self.ok(),
            old(out).ok(),
        ensures
            final(out)@ == self.env().emit_field_padding(old(out)@, spec),
            final(out).ok(),
            grew(old(out)@.text.labels, final(out)@.text.labels),
    {
        let ghost l0 = out@.text.labels;
        let ghost mut open: Set<LabelId> = Set::empty();
        proof {
            reveal(Env::emit_field_padding);
            opening_start(l0);
        }
        let fill: i64 = self.fill_word(spec);
        let width: i64 = self.width_word(spec);
        out.text.mov_load_mem(Gpr::Rsi, Gpr::Rsp, FIELD_START_SLOT);
        out.text.mov_rr(Gpr::Rdi, Gpr::R11);
        out.text.mov_rr(Gpr::Rcx, Gpr::Rdi);
        out.text.sub_rr(Gpr::Rcx, Gpr::Rsi);
        let ghost k18 = out@.text.labels;
        let done: LabelId = out.text.new_local_label();
        proof {
            opening_new(l0, k18, open, done);
            open = open.insert(done);
        }
        out.text.mov_ri(Gpr::Rax, width);
        out.text.cmp_rr(Gpr::Rcx, Gpr::Rax);
        out.text.jcc_local(Cc::Ae, done);
        out.text.mov_ri(Gpr::R10, width);
        out.text.sub_rr(Gpr::R10, Gpr::Rcx);
        match spec.align {
            Align::Left => {
                let ghost k19 = out@.text.labels;
                self.emit_fill_run(out, Gpr::R11, Gpr::R10, fill);
                proof {
                    opening_call(l0, k19, out@.text.labels, open);
                }
            },
            Align::Right => {
                let ghost k20 = out@.text.labels;
                self.pad_right(out, width, fill);
                proof {
                    opening_call(l0, k20, out@.text.labels, open);
                }
            },
            Align::Center => {
                let ghost k21 = out@.text.labels;
                self.pad_center(out, fill);
                proof {
                    opening_call(l0, k21, out@.text.labels, open);
                }
            },
            Align::Unset => {},
        }
        let ghost k22 = out@.text.labels;
        proof {
            opening_unbound(l0, k22, open, done);
        }
        out.text.bind_local(done);
        proof {
            opening_bound(l0, k22, out@.text.labels, open, done);
            open = open.remove(done);
        }
        proof {
            assert(open =~= Set::empty());
            opening_done(l0, out@.text.labels, open);
        }
    }

    /// Turns a digit into its character; that of ten is `ten + 10`.
    pub(crate) fn digit_of_rdx(&self, out: &mut Out, ten: i32)
        requires
            self.ok(),
            old(out).ok(),
        ensures
            final(out)@ == self.env().digit_of_rdx(old(out)@, ten),
            final(out).ok(),
            grew(old(out)@.text.labels, final(out)@.text.labels),
    {
        let ghost l0 = out@.text.labels;
        let ghost mut open: Set<LabelId> = Set::empty();
        proof {
            reveal(Env::digit_of_rdx);
            opening_start(l0);
        }
        let ghost k23 = out@.text.labels;
        let small: LabelId = out.text.new_local_label();
        proof {
            opening_new(l0, k23, open, small);
            open = open.insert(small);
        }
        let ghost k24 = out@.text.labels;
        let wrote: LabelId = out.text.new_local_label();
        proof {
            opening_new(l0, k24, open, wrote);
            open = open.insert(wrote);
        }
        out.text.cmp_ri(Gpr::Rdx, 10);
        out.text.jcc_local(Cc::B, small);
        out.text.add_ri(Gpr::Rdx, ten);
        out.text.jmp_local(wrote);
        let ghost k25 = out@.text.labels;
        proof {
            opening_unbound(l0, k25, open, small);
        }
        out.text.bind_local(small);
        proof {
            opening_bound(l0, k25, out@.text.labels, open, small);
            open = open.remove(small);
        }
        out.text.add_ri(Gpr::Rdx, 48);
        let ghost k26 = out@.text.labels;
        proof {
            opening_unbound(l0, k26, open, wrote);
        }
        out.text.bind_local(wrote);
        proof {
            opening_bound(l0, k26, out@.text.labels, open, wrote);
            open = open.remove(wrote);
        }
        proof {
            assert(open =~= Set::empty());
            opening_done(l0, out@.text.labels, open);
        }
    }

    /// Copies the digits between `rdi` and `rsi` to the cursor.
    pub(crate) fn copy_scratch_to_cursor(&self, out: &mut Out)
        requires
            self.ok(),
            old(out).ok(),
        ensures
            final(out)@ == self.env().copy_scratch_to_cursor(old(out)@),
            final(out).ok(),
            grew(old(out)@.text.labels, final(out)@.text.labels),
    {
        let ghost l0 = out@.text.labels;
        proof {
            reveal(Env::copy_scratch_to_cursor);
            grew_refl(l0);
        }
        out.text.mov_rr(Gpr::Rcx, Gpr::Rsi);
        out.text.sub_rr(Gpr::Rcx, Gpr::Rdi);
        out.text.mov_rr(Gpr::Rax, Gpr::Rdi);
        let ghost k27 = out@.text.labels;
        self.copy_runtime_len_to_cursor(out);
        proof {
            grew_trans(l0, k27, out@.text.labels);
        }
    }

    /// Points `rsi` and `rdi` at the end of the scratch room.
    pub(crate) fn scratch_at(&self, out: &mut Out, end: i32)
        requires
            self.ok(),
            old(out).ok(),
        ensures
            final(out)@ == self.env().scratch_at(old(out)@, end),
            final(out).ok(),
            grew(old(out)@.text.labels, final(out)@.text.labels),
    {
        let ghost l0 = out@.text.labels;
        proof {
            reveal(Env::scratch_at);
            grew_refl(l0);
        }
        out.text.mov_rr(Gpr::Rsi, Gpr::Rsp);
        out.text.add_ri(Gpr::Rsi, end);
        out.text.mov_rr(Gpr::Rdi, Gpr::Rsi);
    }

    /// Renders `rax` in a radix.
    pub(crate) fn emit_radix_digits(&self, out: &mut Out, radix: u64, upper: bool)
        requires
            self.ok(),
            old(out).ok(),
        ensures
            final(out)@ == self.env().emit_radix_digits(old(out)@, radix, upper),
            final(out).ok(),
            grew(old(out)@.text.labels, final(out)@.text.labels),
    {
        let ghost l0 = out@.text.labels;
        let ghost mut open: Set<LabelId> = Set::empty();
        proof {
            reveal(Env::emit_radix_digits);
            opening_start(l0);
        }
        let ghost k28 = out@.text.labels;
        let nonzero: LabelId = out.text.new_local_label();
        proof {
            opening_new(l0, k28, open, nonzero);
            open = open.insert(nonzero);
        }
        let ghost k29 = out@.text.labels;
        let done: LabelId = out.text.new_local_label();
        proof {
            opening_new(l0, k29, open, done);
            open = open.insert(done);
        }
        out.text.test_rr(Gpr::Rax, Gpr::Rax);
        out.text.jcc_local(Cc::Ne, nonzero);
        out.text.mov_ri(Gpr::Rdx, 48);
        out.text.mov_store8_mem(Gpr::R11, 0, Gpr::Rdx);
        out.text.add_ri(Gpr::R11, 1);
        out.text.jmp_local(done);
        let ghost k30 = out@.text.labels;
        proof {
            opening_unbound(l0, k30, open, nonzero);
        }
        out.text.bind_local(nonzero);
        proof {
            opening_bound(l0, k30, out@.text.labels, open, nonzero);
            open = open.remove(nonzero);
        }
        let ghost k31 = out@.text.labels;
        self.scratch_at(out, 64);
        proof {
            opening_call(l0, k31, out@.text.labels, open);
        }
        let ghost k32 = out@.text.labels;
        let top: LabelId = out.text.new_local_label();
        proof {
            opening_new(l0, k32, open, top);
            open = open.insert(top);
        }
        let ghost k33 = out@.text.labels;
        proof {
            opening_unbound(l0, k33, open, top);
        }
        out.text.bind_local(top);
        proof {
            opening_bound(l0, k33, out@.text.labels, open, top);
            open = open.remove(top);
        }
        out.text.zero_rdx();
        out.text.mov_ri(Gpr::Rcx, radix as i64);
        out.text.div_r(Gpr::Rcx);
        if upper {
            let ghost k34 = out@.text.labels;
            self.digit_of_rdx(out, 55);
            proof {
                opening_call(l0, k34, out@.text.labels, open);
            }
        } else {
            let ghost k35 = out@.text.labels;
            self.digit_of_rdx(out, 87);
            proof {
                opening_call(l0, k35, out@.text.labels, open);
            }
        }
        out.text.add_ri(Gpr::Rdi, ONE_LESS);
        out.text.mov_store8_mem(Gpr::Rdi, 0, Gpr::Rdx);
        out.text.test_rr(Gpr::Rax, Gpr::Rax);
        out.text.jcc_local(Cc::Ne, top);
        let ghost k36 = out@.text.labels;
        self.copy_scratch_to_cursor(out);
        proof {
            opening_call(l0, k36, out@.text.labels, open);
        }
        let ghost k37 = out@.text.labels;
        proof {
            opening_unbound(l0, k37, open, done);
        }
        out.text.bind_local(done);
        proof {
            opening_bound(l0, k37, out@.text.labels, open, done);
            open = open.remove(done);
        }
        proof {
            assert(open =~= Set::empty());
            opening_done(l0, out@.text.labels, open);
        }
    }

    /// Whether a value of a type has digits in any radix.
    pub(crate) fn has_digits(&self, ty: TypeId) -> (r: bool)
        requires
            self.ok(),
            self.env().prog.arena.has(ty),
        ensures
            r == self.env().has_digits(ty),
    {
        match self.ty(ty) {
            Type::Int { .. } => true,
            Type::Bool => true,
            Type::ComptimeInt => true,
            _ => false,
        }
    }

    /// Whether a value of a type can be a code point.
    pub(crate) fn is_code_point(&self, ty: TypeId) -> (r: bool)
        requires
            self.ok(),
            self.env().prog.arena.has(ty),
        ensures
            r == self.env().is_code_point(ty),
    {
        match self.ty(ty) {
            Type::Int { .. } => true,
            Type::ComptimeInt => true,
            _ => false,
        }
    }

    /// Renders an integer in a radix.
    pub(crate) fn render_radix_field(
        &self,
        out: &mut Out,
        base: LocalId,
        foff: u64,
        fty: TypeId,
        radix: u64,
        upper: bool,
    ) -> (r: Result<(), CodegenError>)
        requires
            self.ok(),
            old(out).ok(),
            base.0 < self.env().func.locals@.len(),
            self.env().prog.arena.has(fty),
        ensures
            lowered(
                r,
                final(out)@,
                self.env().render_radix_field(old(out)@, base, foff, fty, radix, upper),
            ),
            r is Ok ==> final(out).ok() && grew(old(out)@.text.labels, final(out)@.text.labels),
    {
        let ghost l0 = out@.text.labels;
        proof {
            reveal(Env::render_radix_field);
            grew_refl(l0);
        }
        if !self.has_digits(fty) {
            return Err(self.unsup("radix format of a non-integer field"));
        } else if self.layout(fty).size > 8 {
            return Err(self.unsup("radix format of a wide (>64-bit) integer"));
        } else {
            match self.home(base) {
                Some(h) => {
                    let r: Repr = self.repr_of(fty);
                    let ghost k38 = out@.text.labels;
                    self.load_sized(out, Gpr::Rax, Gpr::Rbp, plus(h, foff as i32), fty);
                    proof {
                        grew_trans(l0, k38, out@.text.labels);
                    }
                    if r.width != 0 && r.width < 64 {
                        let ghost k39 = out@.text.labels;
                        self.keep_low_bits(out, r.width);
                        proof {
                            grew_trans(l0, k39, out@.text.labels);
                        }
                    }
                    let ghost k40 = out@.text.labels;
                    self.emit_radix_digits(out, radix, upper);
                    proof {
                        grew_trans(l0, k40, out@.text.labels);
                    }
                },
                None => {
                    return Err(self.unsup("print tuple home"));
                },
            }
        }
        Ok(())
    }

    /// Clears all but the low bits of `rax`.
    pub(crate) fn keep_low_bits(&self, out: &mut Out, width: u16)
        requires
            self.ok(),
            old(out).ok(),
            0 < width < 64,
        ensures
            final(out)@ == self.env().keep_low_bits(old(out)@, width),
            final(out).ok(),
            grew(old(out)@.text.labels, final(out)@.text.labels),
    {
        let ghost l0 = out@.text.labels;
        proof {
            reveal(Env::keep_low_bits);
            grew_refl(l0);
        }
        if width < 32 {
            out.text.and_ri(Gpr::Rax, low_mask(width as u32) as i32);
        } else {
            out.text.mov_ri(Gpr::Rcx, low_mask(width as u32) as i64);
            out.text.and_rr(Gpr::Rax, Gpr::Rcx);
        }
    }

    /// Writes the low byte of `rax`.
    pub(crate) fn emit_byte_from_rax(&self, out: &mut Out)
        requires
            self.ok(),
            old(out).ok(),
        ensures
            final(out)@ == self.env().emit_byte_from_rax(old(out)@),
            final(out).ok(),
            grew(old(out)@.text.labels, final(out)@.text.labels),
    {
        let ghost l0 = out@.text.labels;
        proof {
            reveal(Env::emit_byte_from_rax);
            grew_refl(l0);
        }
        out.text.mov_store8_mem(Gpr::R11, 0, Gpr::Rax);
        out.text.add_ri(Gpr::R11, 1);
    }

    /// Writes the continuation bytes of a code point from bit `shift` down.
    pub(crate) fn continuation_bytes(&self, out: &mut Out, shift: i32, at: i32)
        requires
            self.ok(),
            old(out).ok(),
            shift < 64,
        ensures
            final(out)@ == self.env().continuation_bytes(old(out)@, shift, at),
            final(out).ok(),
            grew(old(out)@.text.labels, final(out)@.text.labels),
        decreases shift + 6,
    {
        let ghost l0 = out@.text.labels;
        proof {
            grew_refl(l0);
        }
        if shift >= 0 {
            out.text.mov_load_mem(Gpr::Rax, Gpr::Rsp, 0);
            if shift > 0 {
                out.text.mov_ri(Gpr::Rcx, shift as i64);
                out.text.shr_cl(Gpr::Rax);
            }
            out.text.and_ri(Gpr::Rax, 63);
            out.text.add_ri(Gpr::Rax, 128);
            out.text.mov_store8_mem(Gpr::R11, at, Gpr::Rax);
            let ghost k41 = out@.text.labels;
            self.continuation_bytes(out, (shift - 6) as i32, plus(at, 1));
            proof {
                grew_trans(l0, k41, out@.text.labels);
            }
        }
    }

    /// Writes a code point of `n` bytes.
    pub(crate) fn utf8_bytes(&self, out: &mut Out, lead: i32, shift: i32, n: i32)
        requires
            self.ok(),
            old(out).ok(),
            6 <= shift < 64,
        ensures
            final(out)@ == self.env().utf8_bytes(old(out)@, lead, shift, n),
            final(out).ok(),
            grew(old(out)@.text.labels, final(out)@.text.labels),
    {
        let ghost l0 = out@.text.labels;
        proof {
            reveal(Env::utf8_bytes);
            grew_refl(l0);
        }
        out.text.mov_store_mem(Gpr::Rsp, 0, Gpr::Rax);
        out.text.mov_ri(Gpr::Rcx, shift as i64);
        out.text.shr_cl(Gpr::Rax);
        out.text.add_ri(Gpr::Rax, lead);
        out.text.mov_store8_mem(Gpr::R11, 0, Gpr::Rax);
        let ghost k42 = out@.text.labels;
        self.continuation_bytes(out, (shift - 6) as i32, 1);
        proof {
            grew_trans(l0, k42, out@.text.labels);
        }
        out.text.add_ri(Gpr::R11, n);
    }

    /// Writes the code point in `rax`.
    pub(crate) fn emit_utf8_encode(&self, out: &mut Out)
        requires
            self.ok(),
            old(out).ok(),
        ensures
            final(out)@ == self.env().emit_utf8_encode(old(out)@),
            final(out).ok(),
            grew(old(out)@.text.labels, final(out)@.text.labels),
    {
        let ghost l0 = out@.text.labels;
        let ghost mut open: Set<LabelId> = Set::empty();
        proof {
            reveal(Env::emit_utf8_encode);
            opening_start(l0);
        }
        let ghost k43 = out@.text.labels;
        let l1: LabelId = out.text.new_local_label();
        proof {
            opening_new(l0, k43, open, l1);
            open = open.insert(l1);
        }
        let ghost k44 = out@.text.labels;
        let l2: LabelId = out.text.new_local_label();
        proof {
            opening_new(l0, k44, open, l2);
            open = open.insert(l2);
        }
        let ghost k45 = out@.text.labels;
        let l3: LabelId = out.text.new_local_label();
        proof {
            opening_new(l0, k45, open, l3);
            open = open.insert(l3);
        }
        let ghost k46 = out@.text.labels;
        let done: LabelId = out.text.new_local_label();
        proof {
            opening_new(l0, k46, open, done);
            open = open.insert(done);
        }
        out.text.cmp_ri(Gpr::Rax, 0x80);
        out.text.jcc_local(Cc::Ae, l1);
        let ghost k47 = out@.text.labels;
        self.emit_byte_from_rax(out);
        proof {
            opening_call(l0, k47, out@.text.labels, open);
        }
        out.text.jmp_local(done);
        let ghost k48 = out@.text.labels;
        proof {
            opening_unbound(l0, k48, open, l1);
        }
        out.text.bind_local(l1);
        proof {
            opening_bound(l0, k48, out@.text.labels, open, l1);
            open = open.remove(l1);
        }
        out.text.cmp_ri(Gpr::Rax, 0x800);
        out.text.jcc_local(Cc::Ae, l2);
        let ghost k49 = out@.text.labels;
        self.utf8_bytes(out, 0xC0, 6, 2);
        proof {
            opening_call(l0, k49, out@.text.labels, open);
        }
        out.text.jmp_local(done);
        let ghost k50 = out@.text.labels;
        proof {
            opening_unbound(l0, k50, open, l2);
        }
        out.text.bind_local(l2);
        proof {
            opening_bound(l0, k50, out@.text.labels, open, l2);
            open = open.remove(l2);
        }
        out.text.cmp_ri(Gpr::Rax, 0x10000);
        out.text.jcc_local(Cc::Ae, l3);
        let ghost k51 = out@.text.labels;
        self.utf8_bytes(out, 0xE0, 12, 3);
        proof {
            opening_call(l0, k51, out@.text.labels, open);
        }
        out.text.jmp_local(done);
        let ghost k52 = out@.text.labels;
        proof {
            opening_unbound(l0, k52, open, l3);
        }
        out.text.bind_local(l3);
        proof {
            opening_bound(l0, k52, out@.text.labels, open, l3);
            open = open.remove(l3);
        }
        let ghost k53 = out@.text.labels;
        self.utf8_bytes(out, 0xF0, 18, 4);
        proof {
            opening_call(l0, k53, out@.text.labels, open);
        }
        let ghost k54 = out@.text.labels;
        proof {
            opening_unbound(l0, k54, open, done);
        }
        out.text.bind_local(done);
        proof {
            opening_bound(l0, k54, out@.text.labels, open, done);
            open = open.remove(done);
        }
        proof {
            assert(open =~= Set::empty());
            opening_done(l0, out@.text.labels, open);
        }
    }

    /// Renders a code point.
    pub(crate) fn render_char_field(
        &self,
        out: &mut Out,
        base: LocalId,
        foff: u64,
        fty: TypeId,
    ) -> (r: Result<(), CodegenError>)
        requires
            self.ok(),
            old(out).ok(),
            base.0 < self.env().func.locals@.len(),
            self.env().prog.arena.has(fty),
        ensures
            lowered(r, final(out)@, self.env().render_char_field(old(out)@, base, foff, fty)),
            r is Ok ==> final(out).ok() && grew(old(out)@.text.labels, final(out)@.text.labels),
    {
        let ghost l0 = out@.text.labels;
        proof {
            reveal(Env::render_char_field);
            grew_refl(l0);
        }
        if !self.is_code_point(fty) {
            return Err(self.unsup("char format of a non-integer field"));
        } else {
            match self.home(base) {
                Some(h) => {
                    let ghost k55 = out@.text.labels;
                    self.load_sized(out, Gpr::Rax, Gpr::Rbp, plus(h, foff as i32), fty);
                    proof {
                        grew_trans(l0, k55, out@.text.labels);
                    }
                    let ghost k56 = out@.text.labels;
                    self.emit_utf8_encode(out);
                    proof {
                        grew_trans(l0, k56, out@.text.labels);
                    }
                },
                None => {
                    return Err(self.unsup("print tuple home"));
                },
            }
        }
        Ok(())
    }

    /// Renders a string.
    pub(crate) fn render_string_field(
        &self,
        out: &mut Out,
        base: LocalId,
        foff: u64,
        fty: TypeId,
    ) -> (r: Result<(), CodegenError>)
        requires
            self.ok(),
            old(out).ok(),
            base.0 < self.env().func.locals@.len(),
            self.env().prog.arena.has(fty),
        ensures
            lowered(r, final(out)@, self.env().render_string_field(old(out)@, base, foff, fty)),
            r is Ok ==> final(out).ok() && grew(old(out)@.text.labels, final(out)@.text.labels),
    {
        let ghost l0 = out@.text.labels;
        proof {
            reveal(Env::render_string_field);
            grew_refl(l0);
        }
        if self.is_slice(fty) {
            match self.home(base) {
                Some(h) => {
                    out.text.mov_load(Gpr::Rax, plus(h, foff as i32));
                    out.text.mov_load(Gpr::Rcx, plus(plus(h, foff as i32), 8));
                    let ghost k57 = out@.text.labels;
                    self.copy_runtime_len_to_cursor(out);
                    proof {
                        grew_trans(l0, k57, out@.text.labels);
                    }
                },
                None => {
                    return Err(self.unsup("print tuple without a home"));
                },
            }
        } else {
            return Err(self.unsup("string format of a non-slice field"));
        }
        Ok(())
    }

    /// Renders `rax` in decimal.
    pub(crate) fn emit_u64_digits(&self, out: &mut Out)
        requires
            self.ok(),
            old(out).ok(),
        ensures
            final(out)@ == self.env().emit_u64_digits(old(out)@),
            final(out).ok(),
            grew(old(out)@.text.labels, final(out)@.text.labels),
    {
        let ghost l0 = out@.text.labels;
        let ghost mut open: Set<LabelId> = Set::empty();
        proof {
            reveal(Env::emit_u64_digits);
            opening_start(l0);
        }
        let ghost k58 = out@.text.labels;
        self.scratch_at(out, 24);
        proof {
            opening_call(l0, k58, out@.text.labels, open);
        }
        let ghost k59 = out@.text.labels;
        let top: LabelId = out.text.new_local_label();
        proof {
            opening_new(l0, k59, open, top);
            open = open.insert(top);
        }
        let ghost k60 = out@.text.labels;
        proof {
            opening_unbound(l0, k60, open, top);
        }
        out.text.bind_local(top);
        proof {
            opening_bound(l0, k60, out@.text.labels, open, top);
            open = open.remove(top);
        }
        out.text.zero_rdx();
        out.text.mov_ri(Gpr::Rcx, 10);
        out.text.div_r(Gpr::Rcx);
        out.text.add_ri(Gpr::Rdi, ONE_LESS);
        out.text.add_ri(Gpr::Rdx, 48);
        out.text.mov_store8_mem(Gpr::Rdi, 0, Gpr::Rdx);
        out.text.test_rr(Gpr::Rax, Gpr::Rax);
        out.text.jcc_local(Cc::Ne, top);
        let ghost k61 = out@.text.labels;
        self.copy_scratch_to_cursor(out);
        proof {
            opening_call(l0, k61, out@.text.labels, open);
        }
        proof {
            assert(open =~= Set::empty());
            opening_done(l0, out@.text.labels, open);
        }
    }

    /// Writes the sign of a negative `rax` and negates it.
    pub(crate) fn minus_sign(&self, out: &mut Out)
        requires
            self.ok(),
            old(out).ok(),
        ensures
            final(out)@ == self.env().minus_sign(old(out)@),
            final(out).ok(),
            grew(old(out)@.text.labels, final(out)@.text.labels),
    {
        let ghost l0 = out@.text.labels;
        proof {
            reveal(Env::minus_sign);
            grew_refl(l0);
        }
        out.text.mov_rr(Gpr::Rcx, Gpr::Rax);
        out.text.mov_ri(Gpr::Rax, 45);
        out.text.mov_store8_mem(Gpr::R11, 0, Gpr::Rax);
        out.text.add_ri(Gpr::R11, 1);
        out.text.mov_rr(Gpr::Rax, Gpr::Rcx);
        out.text.neg_r(Gpr::Rax);
    }

    /// Renders a word in decimal.
    pub(crate) fn render_decimal_64(&self, out: &mut Out, signed: bool)
        requires
            self.ok(),
            old(out).ok(),
        ensures
            final(out)@ == self.env().render_decimal_64(old(out)@, signed),
            final(out).ok(),
            grew(old(out)@.text.labels, final(out)@.text.labels),
    {
        let ghost l0 = out@.text.labels;
        let ghost mut open: Set<LabelId> = Set::empty();
        proof {
            reveal(Env::render_decimal_64);
            opening_start(l0);
        }
        if signed {
            let ghost k62 = out@.text.labels;
            let nonneg: LabelId = out.text.new_local_label();
            proof {
                opening_new(l0, k62, open, nonneg);
                open = open.insert(nonneg);
            }
            out.text.test_rr(Gpr::Rax, Gpr::Rax);
            out.text.jcc_local(Cc::Ge, nonneg);
            let ghost k63 = out@.text.labels;
            self.minus_sign(out);
            proof {
                opening_call(l0, k63, out@.text.labels, open);
            }
            let ghost k64 = out@.text.labels;
            proof {
                opening_unbound(l0, k64, open, nonneg);
            }
            out.text.bind_local(nonneg);
            proof {
                opening_bound(l0, k64, out@.text.labels, open, nonneg);
                open = open.remove(nonneg);
            }
        }
        let ghost k65 = out@.text.labels;
        self.emit_u64_digits(out);
        proof {
            opening_call(l0, k65, out@.text.labels, open);
        }
        proof {
            assert(open =~= Set::empty());
            opening_done(l0, out@.text.labels, open);
        }
    }

    /// Writes the sign of a negative value of two words and negates it.
    pub(crate) fn wide_magnitude(&self, out: &mut Out)
        requires
            self.ok(),
            old(out).ok(),
        ensures
            final(out)@ == self.env().wide_magnitude(old(out)@),
            final(out).ok(),
            grew(old(out)@.text.labels, final(out)@.text.labels),
    {
        let ghost l0 = out@.text.labels;
        let ghost mut open: Set<LabelId> = Set::empty();
        proof {
            reveal(Env::wide_magnitude);
            opening_start(l0);
        }
        let ghost k66 = out@.text.labels;
        let nonneg: LabelId = out.text.new_local_label();
        proof {
            opening_new(l0, k66, open, nonneg);
            open = open.insert(nonneg);
        }
        out.text.test_rr(Gpr::Rdx, Gpr::Rdx);
        out.text.jcc_local(Cc::Ge, nonneg);
        out.text.mov_ri(Gpr::Rcx, 45);
        out.text.mov_store8_mem(Gpr::R11, 0, Gpr::Rcx);
        out.text.add_ri(Gpr::R11, 1);
        out.text.not_r(Gpr::Rax);
        out.text.not_r(Gpr::Rdx);
        out.text.add_ri(Gpr::Rax, 1);
        let ghost k67 = out@.text.labels;
        let nocarry: LabelId = out.text.new_local_label();
        proof {
            opening_new(l0, k67, open, nocarry);
            open = open.insert(nocarry);
        }
        out.text.jcc_local(Cc::Ae, nocarry);
        out.text.add_ri(Gpr::Rdx, 1);
        let ghost k68 = out@.text.labels;
        proof {
            opening_unbound(l0, k68, open, nocarry);
        }
        out.text.bind_local(nocarry);
        proof {
            opening_bound(l0, k68, out@.text.labels, open, nocarry);
            open = open.remove(nocarry);
        }
        let ghost k69 = out@.text.labels;
        proof {
            opening_unbound(l0, k69, open, nonneg);
        }
        out.text.bind_local(nonneg);
        proof {
            opening_bound(l0, k69, out@.text.labels, open, nonneg);
            open = open.remove(nonneg);
        }
        proof {
            assert(open =~= Set::empty());
            opening_done(l0, out@.text.labels, open);
        }
    }

    /// Renders two words in decimal.
    pub(crate) fn render_decimal_128(&self, out: &mut Out, off: i32, signed: bool)
        requires
            self.ok(),
            old(out).ok(),
        ensures
            final(out)@ == self.env().render_decimal_128(old(out)@, off, signed),
            final(out).ok(),
            grew(old(out)@.text.labels, final(out)@.text.labels),
    {
        let ghost l0 = out@.text.labels;
        let ghost mut open: Set<LabelId> = Set::empty();
        proof {
            reveal(Env::render_decimal_128);
            opening_start(l0);
        }
        out.text.mov_load(Gpr::Rax, off);
        out.text.mov_load(Gpr::Rdx, plus(plus(off, 4), 4));
        if signed {
            let ghost k70 = out@.text.labels;
            self.wide_magnitude(out);
            proof {
                opening_call(l0, k70, out@.text.labels, open);
            }
        }
        out.text.mov_store_mem(Gpr::Rsp, WIDE_LO_SLOT, Gpr::Rax);
        out.text.mov_store_mem(Gpr::Rsp, WIDE_HI_SLOT, Gpr::Rdx);
        let ghost k71 = out@.text.labels;
        self.scratch_at(out, 40);
        proof {
            opening_call(l0, k71, out@.text.labels, open);
        }
        let ghost k72 = out@.text.labels;
        let top: LabelId = out.text.new_local_label();
        proof {
            opening_new(l0, k72, open, top);
            open = open.insert(top);
        }
        let ghost k73 = out@.text.labels;
        proof {
            opening_unbound(l0, k73, open, top);
        }
        out.text.bind_local(top);
        proof {
            opening_bound(l0, k73, out@.text.labels, open, top);
            open = open.remove(top);
        }
        out.text.mov_load_mem(Gpr::Rax, Gpr::Rsp, WIDE_HI_SLOT);
        out.text.zero_rdx();
        out.text.mov_ri(Gpr::Rcx, 10);
        out.text.div_r(Gpr::Rcx);
        out.text.mov_store_mem(Gpr::Rsp, WIDE_HI_SLOT, Gpr::Rax);
        out.text.mov_load_mem(Gpr::Rax, Gpr::Rsp, WIDE_LO_SLOT);
        out.text.mov_ri(Gpr::Rcx, 10);
        out.text.div_r(Gpr::Rcx);
        out.text.mov_store_mem(Gpr::Rsp, WIDE_LO_SLOT, Gpr::Rax);
        out.text.add_ri(Gpr::Rdi, ONE_LESS);
        out.text.add_ri(Gpr::Rdx, 48);
        out.text.mov_store8_mem(Gpr::Rdi, 0, Gpr::Rdx);
        out.text.mov_load_mem(Gpr::Rax, Gpr::Rsp, WIDE_LO_SLOT);
        out.text.mov_load_mem(Gpr::Rcx, Gpr::Rsp, WIDE_HI_SLOT);
        out.text.or_rr(Gpr::Rax, Gpr::Rcx);
        out.text.jcc_local(Cc::Ne, top);
        let ghost k74 = out@.text.labels;
        self.copy_scratch_to_cursor(out);
        proof {
            opening_call(l0, k74, out@.text.labels, open);
        }
        proof {
            assert(open =~= Set::empty());
            opening_done(l0, out@.text.labels, open);
        }
    }

    /// Writes a truth value as a digit.
    pub(crate) fn emit_bool_digit(&self, out: &mut Out)
        requires
            self.ok(),
            old(out).ok(),
        ensures
            final(out)@ == self.env().emit_bool_digit(old(out)@),
            final(out).ok(),
            grew(old(out)@.text.labels, final(out)@.text.labels),
    {
        let ghost l0 = out@.text.labels;
        proof {
            reveal(Env::emit_bool_digit);
            grew_refl(l0);
        }
        out.text.test_rr(Gpr::Rax, Gpr::Rax);
        let ghost k75 = out@.text.labels;
        self.set_bool(out, Cc::Ne);
        proof {
            grew_trans(l0, k75, out@.text.labels);
        }
        out.text.add_ri(Gpr::Rax, 48);
        out.text.mov_store8_mem(Gpr::R11, 0, Gpr::Rax);
        out.text.add_ri(Gpr::R11, 1);
    }

    /// Writes a byte behind the cursor.
    pub(crate) fn put_byte(&self, out: &mut Out, at: i32, b: i64)
        requires
            self.ok(),
            old(out).ok(),
        ensures
            final(out)@ == self.env().put_byte(old(out)@, at, b),
            final(out).ok(),
            grew(old(out)@.text.labels, final(out)@.text.labels),
    {
        let ghost l0 = out@.text.labels;
        proof {
            reveal(Env::put_byte);
            grew_refl(l0);
        }
        out.text.mov_ri(Gpr::Rax, b);
        out.text.mov_store8_mem(Gpr::R11, at, Gpr::Rax);
    }

    /// Writes `true` or `false`.
    pub(crate) fn emit_bool_word(&self, out: &mut Out)
        requires
            self.ok(),
            old(out).ok(),
        ensures
            final(out)@ == self.env().emit_bool_word(old(out)@),
            final(out).ok(),
            grew(old(out)@.text.labels, final(out)@.text.labels),
    {
        let ghost l0 = out@.text.labels;
        let ghost mut open: Set<LabelId> = Set::empty();
        proof {
            reveal(Env::emit_bool_word);
            opening_start(l0);
        }
        let ghost k76 = out@.text.labels;
        let end: LabelId = out.text.new_local_label();
        proof {
            opening_new(l0, k76, open, end);
            open = open.insert(end);
        }
        let ghost k77 = out@.text.labels;
        let no: LabelId = out.text.new_local_label();
        proof {
            opening_new(l0, k77, open, no);
            open = open.insert(no);
        }
        out.text.test_rr(Gpr::Rax, Gpr::Rax);
        out.text.jcc_local(Cc::E, no);
        let ghost k78 = out@.text.labels;
        self.put_byte(out, 0, 0x74);
        proof {
            opening_call(l0, k78, out@.text.labels, open);
        }
        let ghost k79 = out@.text.labels;
        self.put_byte(out, 1, 0x72);
        proof {
            opening_call(l0, k79, out@.text.labels, open);
        }
        let ghost k80 = out@.text.labels;
        self.put_byte(out, 2, 0x75);
        proof {
            opening_call(l0, k80, out@.text.labels, open);
        }
        let ghost k81 = out@.text.labels;
        self.put_byte(out, 3, 0x65);
        proof {
            opening_call(l0, k81, out@.text.labels, open);
        }
        out.text.add_ri(Gpr::R11, 4);
        out.text.jmp_local(end);
        let ghost k82 = out@.text.labels;
        proof {
            opening_unbound(l0, k82, open, no);
        }
        out.text.bind_local(no);
        proof {
            opening_bound(l0, k82, out@.text.labels, open, no);
            open = open.remove(no);
        }
        let ghost k83 = out@.text.labels;
        self.put_byte(out, 0, 0x66);
        proof {
            opening_call(l0, k83, out@.text.labels, open);
        }
        let ghost k84 = out@.text.labels;
        self.put_byte(out, 1, 0x61);
        proof {
            opening_call(l0, k84, out@.text.labels, open);
        }
        let ghost k85 = out@.text.labels;
        self.put_byte(out, 2, 0x6C);
        proof {
            opening_call(l0, k85, out@.text.labels, open);
        }
        let ghost k86 = out@.text.labels;
        self.put_byte(out, 3, 0x73);
        proof {
            opening_call(l0, k86, out@.text.labels, open);
        }
        let ghost k87 = out@.text.labels;
        self.put_byte(out, 4, 0x65);
        proof {
            opening_call(l0, k87, out@.text.labels, open);
        }
        out.text.add_ri(Gpr::R11, 5);
        let ghost k88 = out@.text.labels;
        proof {
            opening_unbound(l0, k88, open, end);
        }
        out.text.bind_local(end);
        proof {
            opening_bound(l0, k88, out@.text.labels, open, end);
            open = open.remove(end);
        }
        proof {
            assert(open =~= Set::empty());
            opening_done(l0, out@.text.labels, open);
        }
    }

    /// Renders a value in decimal.
    pub(crate) fn render_decimal_field(
        &self,
        out: &mut Out,
        base: LocalId,
        foff: u64,
        fty: TypeId,
    ) -> (r: Result<(), CodegenError>)
        requires
            self.ok(),
            old(out).ok(),
            base.0 < self.env().func.locals@.len(),
            self.env().prog.arena.has(fty),
        ensures
            lowered(r, final(out)@, self.env().render_decimal_field(old(out)@, base, foff, fty)),
            r is Ok ==> final(out).ok() && grew(old(out)@.text.labels, final(out)@.text.labels),
    {
        let ghost l0 = out@.text.labels;
        proof {
            reveal(Env::render_decimal_field);
            grew_refl(l0);
        }
        match self.ty(fty) {
            Type::Int { .. } => {
                match self.home(base) {
                    Some(h) => {
                        let signed: bool = self.repr_of(fty).signed;
                        if self.layout(fty).size > 8 {
                            let ghost k89 = out@.text.labels;
                            self.render_decimal_128(out, plus(h, foff as i32), signed);
                            proof {
                                grew_trans(l0, k89, out@.text.labels);
                            }
                        } else {
                            let ghost k90 = out@.text.labels;
                            self.load_sized(out, Gpr::Rax, Gpr::Rbp, plus(h, foff as i32), fty);
                            proof {
                                grew_trans(l0, k90, out@.text.labels);
                            }
                            let ghost k91 = out@.text.labels;
                            self.normalize(out, Gpr::Rax, fty);
                            proof {
                                grew_trans(l0, k91, out@.text.labels);
                            }
                            let ghost k92 = out@.text.labels;
                            self.render_decimal_64(out, signed);
                            proof {
                                grew_trans(l0, k92, out@.text.labels);
                            }
                        }
                    },
                    None => {
                        return Err(self.unsup("print tuple without a home"));
                    },
                }
            },
            Type::Bool => {
                match self.home(base) {
                    Some(h) => {
                        out.text.movzx8_mem(Gpr::Rax, Gpr::Rbp, plus(h, foff as i32));
                        let ghost k93 = out@.text.labels;
                        self.emit_bool_digit(out);
                        proof {
                            grew_trans(l0, k93, out@.text.labels);
                        }
                    },
                    None => {
                        return Err(self.unsup("print tuple home"));
                    },
                }
            },
            Type::Deferred => {
                match self.home(base) {
                    Some(h) => {
                        out.text.mov_load(Gpr::Rax, plus(h, foff as i32));
                        let ghost k94 = out@.text.labels;
                        self.render_decimal_64(out, false);
                        proof {
                            grew_trans(l0, k94, out@.text.labels);
                        }
                    },
                    None => {
                        return Err(self.unsup("print tuple without a home"));
                    },
                }
            },
            Type::ComptimeInt => {
                match self.home(base) {
                    Some(h) => {
                        out.text.mov_load(Gpr::Rax, plus(h, foff as i32));
                        let ghost k95 = out@.text.labels;
                        self.render_decimal_64(out, true);
                        proof {
                            grew_trans(l0, k95, out@.text.labels);
                        }
                    },
                    None => {
                        return Err(self.unsup("print tuple without a home"));
                    },
                }
            },
            _ => {
                return Err(self.unsup("decimal format of a non-integer field"));
            },
        }
        Ok(())
    }

    /// Renders a value by its type.
    pub(crate) fn render_default_field(
        &self,
        out: &mut Out,
        base: LocalId,
        foff: u64,
        fty: TypeId,
    ) -> (r: Result<(), CodegenError>)
        requires
            self.ok(),
            old(out).ok(),
            base.0 < self.env().func.locals@.len(),
            self.env().prog.arena.has(fty),
        ensures
            lowered(r, final(out)@, self.env().render_default_field(old(out)@, base, foff, fty)),
            r is Ok ==> final(out).ok() && grew(old(out)@.text.labels, final(out)@.text.labels),
    {
        let ghost l0 = out@.text.labels;
        proof {
            reveal(Env::render_default_field);
            grew_refl(l0);
        }
        match self.ty(fty) {
            Type::Int { .. } => {
                let ghost k96 = out@.text.labels;
                match self.render_decimal_field(out, base, foff, fty) {
                    Ok(_) => {},
                    Err(e) => {
                        return Err(e);
                    },
                }
                proof {
                    grew_trans(l0, k96, out@.text.labels);
                }
            },
            Type::ComptimeInt => {
                let ghost k97 = out@.text.labels;
                match self.render_decimal_field(out, base, foff, fty) {
                    Ok(_) => {},
                    Err(e) => {
                        return Err(e);
                    },
                }
                proof {
                    grew_trans(l0, k97, out@.text.labels);
                }
            },
            Type::Slice { .. } => {
                let ghost k98 = out@.text.labels;
                match self.render_string_field(out, base, foff, fty) {
                    Ok(_) => {},
                    Err(e) => {
                        return Err(e);
                    },
                }
                proof {
                    grew_trans(l0, k98, out@.text.labels);
                }
            },
            Type::Bool => {
                match self.home(base) {
                    Some(h) => {
                        out.text.movzx8_mem(Gpr::Rax, Gpr::Rbp, plus(h, foff as i32));
                        let ghost k99 = out@.text.labels;
                        self.emit_bool_word(out);
                        proof {
                            grew_trans(l0, k99, out@.text.labels);
                        }
                    },
                    None => {
                        return Err(self.unsup("print tuple home"));
                    },
                }
            },
            _ => {
                return Err(self.unsup("default format of an unsupported field type"));
            },
        }
        Ok(())
    }

    /// Renders a value.
    pub(crate) fn render_field(
        &self,
        out: &mut Out,
        base: LocalId,
        foff: u64,
        fty: TypeId,
        verb: Verb,
    ) -> (r: Result<(), CodegenError>)
        requires
            self.ok(),
            old(out).ok(),
            base.0 < self.env().func.locals@.len(),
            self.env().prog.arena.has(fty),
        ensures
            lowered(r, final(out)@, self.env().render_field(old(out)@, base, foff, fty, verb)),
            r is Ok ==> final(out).ok() && grew(old(out)@.text.labels, final(out)@.text.labels),
    {
        let ghost l0 = out@.text.labels;
        proof {
            reveal(Env::render_field);
            grew_refl(l0);
        }
        match verb {
            Verb::Str => {
                let ghost k100 = out@.text.labels;
                match self.render_string_field(out, base, foff, fty) {
                    Ok(_) => {},
                    Err(e) => {
                        return Err(e);
                    },
                }
                proof {
                    grew_trans(l0, k100, out@.text.labels);
                }
            },
            Verb::Decimal => {
                let ghost k101 = out@.text.labels;
                match self.render_decimal_field(out, base, foff, fty) {
                    Ok(_) => {},
                    Err(e) => {
                        return Err(e);
                    },
                }
                proof {
                    grew_trans(l0, k101, out@.text.labels);
                }
            },
            Verb::Default => {
                let ghost k102 = out@.text.labels;
                match self.render_default_field(out, base, foff, fty) {
                    Ok(_) => {},
                    Err(e) => {
                        return Err(e);
                    },
                }
                proof {
                    grew_trans(l0, k102, out@.text.labels);
                }
            },
            Verb::Hex { upper } => {
                let ghost k103 = out@.text.labels;
                match self.render_radix_field(out, base, foff, fty, 16, upper) {
                    Ok(_) => {},
                    Err(e) => {
                        return Err(e);
                    },
                }
                proof {
                    grew_trans(l0, k103, out@.text.labels);
                }
            },
            Verb::Bin => {
                let ghost k104 = out@.text.labels;
                match self.render_radix_field(out, base, foff, fty, 2, false) {
                    Ok(_) => {},
                    Err(e) => {
                        return Err(e);
                    },
                }
                proof {
                    grew_trans(l0, k104, out@.text.labels);
                }
            },
            Verb::Oct => {
                let ghost k105 = out@.text.labels;
                match self.render_radix_field(out, base, foff, fty, 8, false) {
                    Ok(_) => {},
                    Err(e) => {
                        return Err(e);
                    },
                }
                proof {
                    grew_trans(l0, k105, out@.text.labels);
                }
            },
            Verb::Char => {
                let ghost k106 = out@.text.labels;
                match self.render_char_field(out, base, foff, fty) {
                    Ok(_) => {},
                    Err(e) => {
                        return Err(e);
                    },
                }
                proof {
                    grew_trans(l0, k106, out@.text.labels);
                }
            },
        }
        Ok(())
    }

    /// Renders a value of the tuple, with its padding.
    pub(crate) fn emit_placeholder(
        &self,
        out: &mut Out,
        arg_index: usize,
        spec: Spec,
        base: LocalId,
    ) -> (r: Result<(), CodegenError>)
        requires
            self.ok(),
            old(out).ok(),
            base.0 < self.env().func.locals@.len(),
        ensures
            lowered(r, final(out)@, self.env().emit_placeholder(old(out)@, arg_index, spec, base)),
            r is Ok ==> final(out).ok() && grew(old(out)@.text.labels, final(out)@.text.labels),
    {
        let ghost l0 = out@.text.labels;
        proof {
            reveal(Env::emit_placeholder);
            grew_refl(l0);
        }
        match self.tuple_field(base, arg_index) {
            Some(f) => {
                let pad: bool = spec.align != Align::Unset && spec.width != 0;
                if pad {
                    out.text.mov_store_mem(Gpr::Rsp, FIELD_START_SLOT, Gpr::R11);
                }
                let ghost k107 = out@.text.labels;
                match self.render_field(out, base, f.1, f.0, spec.verb) {
                    Ok(_) => {},
                    Err(e) => {
                        return Err(e);
                    },
                }
                proof {
                    grew_trans(l0, k107, out@.text.labels);
                }
                if pad {
                    let ghost k108 = out@.text.labels;
                    self.emit_field_padding(out, spec);
                    proof {
                        grew_trans(l0, k108, out@.text.labels);
                    }
                }
            },
            None => {
                return Err(self.unsup("print with fewer args than placeholders"));
            },
        }
        Ok(())
    }

    /// Writes bytes of the format string.
    pub(crate) fn emit_literal(&self, out: &mut Out, bytes: &Vec<u8>)
        requires
            self.ok(),
            old(out).ok(),
        ensures
            final(out)@ == self.env().emit_literal(old(out)@, bytes@),
            final(out).ok(),
            grew(old(out)@.text.labels, final(out)@.text.labels),
    {
        let ghost l0 = out@.text.labels;
        proof {
            reveal(Env::emit_literal);
            grew_refl(l0);
        }
        if bytes.len() > 0 {
            let off: u32 = out.ro.intern(bytes.as_slice());
            out.text.mov_ri_data(Gpr::Rax, off);
            let ghost k109 = out@.text.labels;
            self.copy_to_cursor(out, Gpr::Rax, bytes.len() as u64);
            proof {
                grew_trans(l0, k109, out@.text.labels);
            }
        }
    }

    /// Renders a step of the format string.
    pub(crate) fn print_step(
        &self,
        out: &mut Out,
        step: &Step,
        values: PrintArgs,
    ) -> (r: Result<(), CodegenError>)
        requires
            self.ok(),
            old(out).ok(),
            values matches PrintArgs::Local(l) ==> l.0 < self.env().func.locals@.len(),
        ensures
            lowered(r, final(out)@, self.env().print_step(old(out)@, step@, values)),
            r is Ok ==> final(out).ok() && grew(old(out)@.text.labels, final(out)@.text.labels),
    {
        let ghost l0 = out@.text.labels;
        proof {
            reveal(Env::print_step);
            grew_refl(l0);
        }
        match step {
            Step::Literal(bytes) => {
                let ghost k110 = out@.text.labels;
                self.emit_literal(out, bytes);
                proof {
                    grew_trans(l0, k110, out@.text.labels);
                }
            },
            Step::Placeholder { arg_index, spec } => {
                let n: usize = *arg_index;
                match values {
                    PrintArgs::Local(base) => {
                        let ghost k111 = out@.text.labels;
                        match self.emit_placeholder(out, n, *spec, base) {
                            Ok(_) => {},
                            Err(e) => {
                                return Err(e);
                            },
                        }
                        proof {
                            grew_trans(l0, k111, out@.text.labels);
                        }
                    },
                    _ => {
                        return Err(self.unsup("print with fewer args than placeholders"));
                    },
                }
            },
        }
        Ok(())
    }

    /// Renders the steps of a format string.
    pub(crate) fn print_steps(
        &self,
        out: &mut Out,
        steps: &Vec<Step>,
        values: PrintArgs,
    ) -> (r: Result<(), CodegenError>)
        requires
            self.ok(),
            old(out).ok(),
            values matches PrintArgs::Local(l) ==> l.0 < self.env().func.locals@.len(),
        ensures
            lowered(r, final(out)@, self.env().print_steps(old(out)@, step_views(steps@), values)),
            r is Ok ==> final(out).ok() && grew(old(out)@.text.labels, final(out)@.text.labels),
    {
        let ghost l0 = out@.text.labels;
        let ghost want = self.env().print_steps(out@, step_views(steps@), values);
        proof {
            grew_refl(l0);
        }
        let mut i: usize = 0;
        while i < steps.len()
            invariant
                self.ok(),
                out.ok(),
                values matches PrintArgs::Local(l) ==> l.0 < self.env().func.locals@.len(),
                i <= step_views(steps@).len(),
                grew(l0, out@.text.labels),
                l0 == old(out)@.text.labels,
                want == self.env().print_steps(old(out)@, step_views(steps@), values),
                want == self.env().print_steps_from(out@, step_views(steps@), values, i as int),
            decreases step_views(steps@).len() - i,
        {
            assert(step_views(steps@)[i as int] == steps@[i as int]@);
            let ghost here = out@.text.labels;
            match self.print_step(out, &steps[i], values) {
                Ok(_) => {},
                Err(e) => {
                    return Err(e);
                },
            }
            proof {
                grew_trans(l0, here, out@.text.labels);
            }
            i = i + 1;
        }
        Ok(())
    }

    /// Renders into the buffer and writes it.
    pub(crate) fn print_to(
        &self,
        out: &mut Out,
        fd: LocalId,
        steps: &Vec<Step>,
        values: PrintArgs,
        buf: i32,
    ) -> (r: Result<(), CodegenError>)
        requires
            self.ok(),
            old(out).ok(),
            fd.0 < self.env().func.locals@.len(),
            values matches PrintArgs::Local(l) ==> l.0 < self.env().func.locals@.len(),
        ensures
            lowered(
                r,
                final(out)@,
                self.env().print_to(old(out)@, fd, step_views(steps@), values, buf),
            ),
            r is Ok ==> final(out).ok() && grew(old(out)@.text.labels, final(out)@.text.labels),
    {
        let ghost l0 = out@.text.labels;
        proof {
            reveal(Env::print_to);
            grew_refl(l0);
        }
        out.text.lea_rbp(Gpr::R11, buf);
        let ghost k112 = out@.text.labels;
        match self.print_steps(out, steps, values) {
            Ok(_) => {},
            Err(e) => {
                return Err(e);
            },
        }
        proof {
            grew_trans(l0, k112, out@.text.labels);
        }
        out.text.lea_rbp(Gpr::Rsi, buf);
        out.text.mov_rr(Gpr::Rdx, Gpr::R11);
        out.text.sub_rr(Gpr::Rdx, Gpr::Rsi);
        let ghost k113 = out@.text.labels;
        self.local_to(out, fd, Gpr::Rdi);
        proof {
            grew_trans(l0, k113, out@.text.labels);
        }
        out.text.mov_ri(Gpr::Rax, SYS_WRITE);
        out.text.syscall();
        out.text.mov_ri(Gpr::Rax, 0);
        Ok(())
    }

    /// Prints by a format string.
    pub(crate) fn print_parsed(
        &self,
        out: &mut Out,
        fd: LocalId,
        id: ConstId,
        args: &Vec<Operand>,
    ) -> (r: Result<(), CodegenError>)
        requires
            self.ok(),
            old(out).ok(),
            fd.0 < self.env().func.locals@.len(),
            id.0 < self.env().prog.consts@.len(),
            self.env().has_bytes(id),
            self.env().operands_ok(args@),
        ensures
            lowered(r, final(out)@, self.env().print_parsed(old(out)@, fd, id, args@)),
            r is Ok ==> final(out).ok() && grew(old(out)@.text.labels, final(out)@.text.labels),
    {
        let ghost l0 = out@.text.labels;
        proof {
            reveal(Env::print_parsed);
            grew_refl(l0);
        }
        match parse(self.const_bytes(id).as_slice()) {
            Ok(steps) => {
                let values: PrintArgs = self.print_args(args);
                if values == PrintArgs::Other {
                    return Err(self.unsup("print tuple not a bare local"));
                } else {
                    match self.plan.print_buf {
                        Some(buf) => {
                            let ghost k114 = out@.text.labels;
                            match self.print_to(out, fd, &steps, values, buf) {
                                Ok(_) => {},
                                Err(e) => {
                                    return Err(e);
                                },
                            }
                            proof {
                                grew_trans(l0, k114, out@.text.labels);
                            }
                        },
                        None => {
                            return Err(self.unsup("print without a reserved buffer"));
                        },
                    }
                }
            },
            Err(e) => {
                return Err(CodegenError::Unsupported(e));
            },
        }
        Ok(())
    }

    /// Prints.
    pub(crate) fn lower_print_runtime(
        &self,
        out: &mut Out,
        path: &IntrinsicPath,
        args: &Vec<Operand>,
    ) -> (r: Result<(), CodegenError>)
        requires
            self.ok(),
            old(out).ok(),
            self.env().path_ok(*path),
            self.env().operands_ok(args@),
        ensures
            lowered(r, final(out)@, self.env().lower_print_runtime(old(out)@, *path, args@)),
            r is Ok ==> final(out).ok() && grew(old(out)@.text.labels, final(out)@.text.labels),
    {
        let ghost l0 = out@.text.labels;
        proof {
            reveal(Env::lower_print_runtime);
            grew_refl(l0);
        }
        match self.print_fd_local(path) {
            Some(fd) => {
                match self.format_arg(args) {
                    Some(id) => {
                        if self.has_bytes(id) {
                            let ghost k115 = out@.text.labels;
                            match self.print_parsed(out, fd, id, args) {
                                Ok(_) => {},
                                Err(e) => {
                                    return Err(e);
                                },
                            }
                            proof {
                                grew_trans(l0, k115, out@.text.labels);
                            }
                        } else {
                            return Err(self.unsup("print of a non-byte format const"));
                        }
                    },
                    None => {
                        return Err(self.unsup("print with a non-constant format string"));
                    },
                }
            },
            None => {
                if self.has_receiver(path) {
                    return Err(self.unsup("print receiver not a bare local"));
                } else {
                    return Err(self.unsup("print without a value receiver"));
                }
            },
        }
        Ok(())
    }

    /// Lowers an intrinsic.
    pub(crate) fn lower_intrinsic_into_rax(
        &self,
        out: &mut Out,
        path: &IntrinsicPath,
        args: &Vec<Operand>,
    ) -> (r: Result<(), CodegenError>)
        requires
            self.ok(),
            old(out).ok(),
            self.env().path_ok(*path),
            self.env().operands_ok(args@),
        ensures
            lowered(r, final(out)@, self.env().lower_intrinsic_into_rax(old(out)@, *path, args@)),
            r is Ok ==> final(out).ok() && grew(old(out)@.text.labels, final(out)@.text.labels),
    {
        let ghost l0 = out@.text.labels;
        proof {
            reveal(Env::lower_intrinsic_into_rax);
            grew_refl(l0);
        }
        match &path.root {
            IntrinsicRoot::Builtin(name) => {
                let ghost k116 = out@.text.labels;
                match self.lower_safety_predicate(out, name.as_str(), args) {
                    Ok(_) => {},
                    Err(e) => {
                        return Err(e);
                    },
                }
                proof {
                    grew_trans(l0, k116, out@.text.labels);
                }
            },
            _ => {
                match intrinsic_op(&path.members) {
                    IntrinsicOp::Stdout => {
                        out.text.mov_ri(Gpr::Rax, 1);
                    },
                    IntrinsicOp::Stderr => {
                        out.text.mov_ri(Gpr::Rax, 2);
                    },
                    IntrinsicOp::Print => {
                        let ghost k117 = out@.text.labels;
                        match self.lower_print_runtime(out, path, args) {
                            Ok(_) => {},
                            Err(e) => {
                                return Err(e);
                            },
                        }
                        proof {
                            grew_trans(l0, k117, out@.text.labels);
                        }
                    },
                    IntrinsicOp::Heap => {
                        out.text.mov_ri(Gpr::Rax, 0);
                    },
                    IntrinsicOp::Free => {
                        let ghost k118 = out@.text.labels;
                        match self.lower_free_op(out, path, args) {
                            Ok(_) => {},
                            Err(e) => {
                                return Err(e);
                            },
                        }
                        proof {
                            grew_trans(l0, k118, out@.text.labels);
                        }
                        out.text.mov_ri(Gpr::Rax, 0);
                    },
                    IntrinsicOp::Allocate => {
                        return Err(
                            self.unsup(
                                "heap allocation result consumed outside the recognized error-union shape",
                            ),
                        );
                    },
                    IntrinsicOp::ClockNow => {
                        let ghost k119 = out@.text.labels;
                        self.lower_clock_now(out);
                        proof {
                            grew_trans(l0, k119, out@.text.labels);
                        }
                    },
                    IntrinsicOp::ClockSleep => {
                        let ghost k120 = out@.text.labels;
                        match self.lower_clock_sleep(out, args) {
                            Ok(_) => {},
                            Err(e) => {
                                return Err(e);
                            },
                        }
                        proof {
                            grew_trans(l0, k120, out@.text.labels);
                        }
                    },
                    IntrinsicOp::RandomInt => {
                        let ghost k121 = out@.text.labels;
                        self.emit_splitmix64_next(out);
                        proof {
                            grew_trans(l0, k121, out@.text.labels);
                        }
                    },
                    IntrinsicOp::RandomBytes => {
                        let ghost k122 = out@.text.labels;
                        match self.lower_random_bytes(out, args) {
                            Ok(_) => {},
                            Err(e) => {
                                return Err(e);
                            },
                        }
                        proof {
                            grew_trans(l0, k122, out@.text.labels);
                        }
                    },
                    IntrinsicOp::EnvGet => {
                        let ghost k123 = out@.text.labels;
                        self.lower_env_get(out);
                        proof {
                            grew_trans(l0, k123, out@.text.labels);
                        }
                    },
                    IntrinsicOp::Unknown => {
                        let name: String = joined(&path.members);
                        return Err(self.unsup3("intrinsic value.", name.as_str(), ""));
                    },
                }
            },
        }
        Ok(())
    }
}

} // verus!
