//! Printing.
use vstd::prelude::*;

use crate::aarch64::encode::{FP, MemSize, Reg, SP};
use crate::aarch64::lower::env::{
    A64Func, A64Low, A64Out, ADDR, Aarch64FnLower, RES, S2, S3, S4, S5, a64_lowered,
};
use crate::encode::{Cc, LabelId};
use crate::lower::env::{
    grew, grew_refl, grew_trans, opening_bound, opening_call, opening_done, opening_new,
    opening_start, opening_unbound,
};
use crate::aarch64::lower::value::{plus64, sum64};
use crate::fmt_native::{Align, Spec, Step, StepView, Verb, parse, parsed, step_views};
use crate::layout::Layout;
use crate::lower::agg::{end_after, field_start, next_end, start_behind};
use crate::lower::env::Repr;
use crate::lower::intr::{IntrinsicOp, dotted, intrinsic_of, intrinsic_op, joined};
use crate::lower::print::PrintArgs;
use crate::lower::scalar::{plus, sum32};
use crate::mir::{
    Block, Const, ConstId, IntrinsicPath, IntrinsicRoot, LocalId, Operand, Rvalue, Statement,
};
use crate::target::AARCH64_WRITE;
use crate::types::{Type, TypeId};
use crate::CodegenError;

verus! {

/// The fields of the aggregate that a statement makes a local of.
pub open spec fn made_by(st: Statement, base: LocalId) -> Option<Seq<Operand>> {
    match st {
        Statement::Assign { place, rvalue } => if place.proj@.len() == 0 && place.base == base {
            match rvalue {
                Rvalue::Aggregate { fields, .. } => Some(fields@),
                _ => None,
            }
        } else {
            None
        },
        _ => None,
    }
}

/// The fields of the first aggregate that one of the statements from the `i`-th on
/// makes a local of.
pub open spec fn made_in(stmts: Seq<Statement>, base: LocalId, i: int) -> Option<Seq<Operand>>
    decreases stmts.len() - i,
{
    if i < 0 || i >= stmts.len() {
        None
    } else {
        match made_by(stmts[i], base) {
            Some(f) => Some(f),
            None => made_in(stmts, base, i + 1),
        }
    }
}

/// The fields of the first aggregate that one of the blocks from the `i`-th on makes a
/// local of.
pub open spec fn made_among(blocks: Seq<Block>, base: LocalId, i: int) -> Option<Seq<Operand>>
    decreases blocks.len() - i,
{
    if i < 0 || i >= blocks.len() {
        None
    } else {
        match made_in(blocks[i].stmts@, base, 0) {
            Some(f) => Some(f),
            None => made_among(blocks, base, i + 1),
        }
    }
}

impl A64Func {
    /// Where the `n`-th of some packed operands may start.
    pub open spec fn packed_end(self, fields: Seq<Operand>, n: int) -> u64
        decreases n,
    {
        if n <= 0 {
            0
        } else {
            end_after(
                self.packed_end(fields, n - 1),
                self.layout(self.packed_type(fields[n - 1])),
            )
        }
    }

    /// The type and offset of a value to print: those of the struct, or those of the
    /// operands that the tuple is made of.
    pub open spec fn tuple_field(self, l: LocalId, i: usize) -> Option<(TypeId, u64)> {
        let ty = self.local_ty(l);
        if self.ty(ty) is Struct {
            match self.struct_field(ty, i) {
                Some(f) => Some((f.ty, self.field_offset(ty, i))),
                None => None,
            }
        } else {
            match made_among(self.func.blocks@, l, 0) {
                Some(fields) => if i < fields.len() {
                    let fty = self.packed_type(fields[i as int]);
                    Some(
                        (
                            fty,
                            start_behind(self.packed_end(fields, i as int), self.layout(fty)),
                        ),
                    )
                } else {
                    None
                },
                None => None,
            }
        }
    }
}

impl<'p> Aarch64FnLower<'p> {
    /// The fields of the first aggregate that makes a local.
    fn find_tuple_fields(&self, base: LocalId) -> (r: Option<&'p Vec<Operand>>)
        requires
            self.ok(),
        ensures
            match r {
                Some(f) => made_among(self.env().func.blocks@, base, 0) == Some(f@)
                    && self.env().operands_ok(f@),
                None => made_among(self.env().func.blocks@, base, 0) is None,
            },
    {
        let blocks = &self.func.blocks;
        let mut i: usize = 0;
        while i < blocks.len()
            invariant
                self.ok(),
                blocks@ == self.env().func.blocks@,
                i <= blocks@.len(),
                made_among(blocks@, base, 0) == made_among(blocks@, base, i as int),
            decreases blocks@.len() - i,
        {
            assert(self.env().scope().block_ok(blocks@[i as int]));
            let stmts = &blocks[i].stmts;
            let mut k: usize = 0;
            while k < stmts.len()
                invariant
                    self.ok(),
                    i < blocks@.len(),
                    blocks@ == self.env().func.blocks@,
                    made_among(blocks@, base, 0) == made_among(blocks@, base, i as int),
                    stmts@ == blocks@[i as int].stmts@,
                    forall|j: int|
                        0 <= j < stmts@.len() ==> self.env().scope().stmt_ok(#[trigger] stmts@[j]),
                    k <= stmts@.len(),
                    made_in(stmts@, base, 0) == made_in(stmts@, base, k as int),
                decreases stmts@.len() - k,
            {
                assert(self.env().scope().stmt_ok(stmts@[k as int]));
                match &stmts[k] {
                    Statement::Assign { place, rvalue } => {
                        if place.proj.len() == 0 && place.base == base {
                            match rvalue {
                                Rvalue::Aggregate { fields, .. } => {
                                    return Some(fields);
                                },
                                _ => {},
                            }
                        }
                    },
                    _ => {},
                }
                k = k + 1;
            }
            i = i + 1;
        }
        None
    }

    fn packed_end(&self, fields: &Vec<Operand>, n: usize) -> (r: u64)
        requires
            self.ok(),
            self.env().operands_ok(fields@),
            n <= fields@.len(),
        ensures
            r == self.env().packed_end(fields@, n as int),
    {
        let mut end: u64 = 0;
        let mut i: usize = 0;
        while i < n
            invariant
                self.ok(),
                self.env().operands_ok(fields@),
                i <= n <= fields@.len(),
                end == self.env().packed_end(fields@, i as int),
            decreases n - i,
        {
            assert(self.env().operand_ok(fields@[i as int]));
            let l: Layout = self.layout(self.packed_type(&fields[i]));
            end = next_end(end, l);
            i = i + 1;
        }
        end
    }

    fn tuple_field(&self, l: LocalId, i: usize) -> (r: Option<(TypeId, u64)>)
        requires
            self.ok(),
            l.0 < self.env().func.locals@.len(),
        ensures
            r == self.env().tuple_field(l, i),
            r matches Some(f) ==> self.env().prog.arena.has(f.0),
    {
        let ty: TypeId = self.local_ty(l);
        let is_struct: bool = match self.ty(ty) {
            Type::Struct(_) => true,
            _ => false,
        };
        if is_struct {
            match self.struct_field(ty, i) {
                Some(f) => Some((f.ty, self.field_offset(ty, i))),
                None => None,
            }
        } else {
            match self.find_tuple_fields(l) {
                Some(fields) => if i < fields.len() {
                    assert(self.env().operand_ok(fields@[i as int]));
                    let fty: TypeId = self.packed_type(&fields[i]);
                    let fl: Layout = self.layout(fty);
                    Some((fty, field_start(self.packed_end(fields, i), fl)))
                } else {
                    None
                },
                None => None,
            }
        }
    }
}

impl A64Func {
    /// The local that a print writes to.
    pub open spec fn print_fd_local(self, path: IntrinsicPath) -> Option<LocalId> {
        match path.root {
            IntrinsicRoot::Value(op) => match op {
                Operand::Copy(p) => if p.proj@.len() == 0 {
                    Some(p.base)
                } else {
                    None
                },
                Operand::Const(_) => None,
            },
            _ => None,
        }
    }

    /// Whether an intrinsic is called on a value.
    pub open spec fn has_receiver(self, path: IntrinsicPath) -> bool {
        match path.root {
            IntrinsicRoot::Value(_) => true,
            _ => false,
        }
    }

    /// The string that an operand is.
    pub open spec fn string_arg(self, op: Operand) -> Option<ConstId> {
        match op {
            Operand::Copy(_) => None,
            Operand::Const(c) => match c {
                Const::Str(id) => Some(id),
                _ => None,
            },
        }
    }

    /// The format string of a print.
    pub open spec fn format_arg(self, args: Seq<Operand>) -> Option<ConstId> {
        if args.len() > 0 {
            self.string_arg(args[0 as int])
        } else {
            None
        }
    }

    /// Where the values to print are.
    pub open spec fn tuple_of(self, op: Operand) -> PrintArgs {
        match op {
            Operand::Copy(p) => if p.proj@.len() == 0 {
                PrintArgs::Local(p.base)
            } else {
                PrintArgs::Other
            },
            Operand::Const(c) => match c {
                Const::Void => PrintArgs::Absent,
                _ => PrintArgs::Other,
            },
        }
    }

    /// Where the values of a print are.
    pub open spec fn print_args(self, args: Seq<Operand>) -> PrintArgs {
        if args.len() > 1 {
            self.tuple_of(args[1 as int])
        } else {
            PrintArgs::Absent
        }
    }

    /// Calls the system.
    #[verifier::opaque]
    pub open spec fn emit_syscall(self, s: A64Low, nr: i64) -> A64Low {
        let s = s.on(s.text.mov_imm(Reg(8), nr));
        let s = s.on(s.text.svc0());
        s
    }

    /// Copies as many bytes as the third scratch register says to the cursor.
    #[verifier::opaque]
    pub open spec fn copy_runtime_to_cursor(self, s: A64Low) -> A64Low {
        let top = s.text.fresh();
        let s = s.on(s.text.new_label());
        let end = s.text.fresh();
        let s = s.on(s.text.new_label());
        let s = s.on(s.text.bind(top));
        let s = s.on(s.text.cmp_imm(Reg(S3), 0));
        let s = s.on(s.text.bcc(Cc::E, end));
        let s = s.on(s.text.load(Reg(S4), Reg(S2), 0, MemSize::B));
        let s = s.on(s.text.store(Reg(S4), Reg(ADDR), 0, MemSize::B));
        let s = s.on(s.text.add_imm_pos(Reg(S2), Reg(S2), 1));
        let s = s.on(s.text.add_imm_pos(Reg(ADDR), Reg(ADDR), 1));
        let s = s.on(s.text.sub_imm(Reg(S3), Reg(S3), 1));
        let s = s.on(s.text.b(top));
        let s = s.on(s.text.bind(end));
        s
    }

    /// Copies the digits below the end of the scratch room to the cursor.
    #[verifier::opaque]
    pub open spec fn copy_digits_to_cursor_from_high_end(self, s: A64Low) -> A64Low {
        let s = s.on(s.text.sub(Reg(S2), Reg(S2), Reg(S3)));
        let s = self.copy_runtime_to_cursor(s);
        s
    }

    /// Writes bytes of the format string.
    #[verifier::opaque]
    pub open spec fn emit_literal(self, s: A64Low, bytes: Seq<u8>) -> A64Low {
        let s = if bytes.len() > 0 {
            let off = s.ro.offset_of(bytes);
            let s = s.with_data(bytes);
            let s = s.on(s.text.mov_imm_data(Reg(S2), off));
            let s = self.memcpy(s, Reg(ADDR), Reg(S2), bytes.len() as u64);
            let s = s.on(s.text.add_imm_pos(Reg(ADDR), Reg(ADDR), bytes.len() as u64 as u32));
            s
        } else {
            s
        };
        s
    }

    /// Loads from a field of the tuple.
    #[verifier::opaque]
    pub open spec fn load_field(
        self,
        s: A64Low,
        dst: Reg,
        base: LocalId,
        foff: u64,
        more: i64,
        size: MemSize,
    ) -> A64Low {
        let s = s.on(
            s.text.load(
                dst,
                Reg(FP),
                sum64(sum64(self.home(base) as i64, foff as i64), more),
                size,
            ),
        );
        s
    }

    /// Renders a string.
    #[verifier::opaque]
    pub open spec fn render_string_field(
        self,
        s: A64Low,
        base: LocalId,
        foff: u64,
        fty: TypeId,
    ) -> A64Low {
        let s = if self.is_slice(fty) {
            let s = self.load_field(s, Reg(S2), base, foff, 0, MemSize::X);
            let s = self.load_field(s, Reg(S3), base, foff, 8, MemSize::X);
            let s = self.copy_runtime_to_cursor(s);
            s
        } else {
            s.fail(self.unsup("string format of a non-slice field"@))
        };
        s
    }

    /// Writes a truth value as a digit.
    #[verifier::opaque]
    pub open spec fn emit_bool_digit(self, s: A64Low) -> A64Low {
        let s = s.on(s.text.cmp_imm(Reg(RES), 0));
        let s = s.on(s.text.cset(Reg(RES), Cc::Ne));
        let s = s.on(s.text.add_imm_pos(Reg(RES), Reg(RES), 48));
        let s = s.on(s.text.store(Reg(RES), Reg(ADDR), 0, MemSize::B));
        let s = s.on(s.text.add_imm_pos(Reg(ADDR), Reg(ADDR), 1));
        s
    }

    /// Writes a byte behind the cursor.
    #[verifier::opaque]
    pub open spec fn put_byte(self, s: A64Low, at: i64, b: i64) -> A64Low {
        let s = s.on(s.text.mov_imm(Reg(RES), b));
        let s = s.on(s.text.store(Reg(RES), Reg(ADDR), at, MemSize::B));
        s
    }

    /// Writes `true` or `false`.
    #[verifier::opaque]
    pub open spec fn emit_bool_word(self, s: A64Low) -> A64Low {
        let end = s.text.fresh();
        let s = s.on(s.text.new_label());
        let no = s.text.fresh();
        let s = s.on(s.text.new_label());
        let s = s.on(s.text.cmp_imm(Reg(RES), 0));
        let s = s.on(s.text.bcc(Cc::E, no));
        let s = self.put_byte(s, 0, 0x74);
        let s = self.put_byte(s, 1, 0x72);
        let s = self.put_byte(s, 2, 0x75);
        let s = self.put_byte(s, 3, 0x65);
        let s = s.on(s.text.add_imm_pos(Reg(ADDR), Reg(ADDR), 4));
        let s = s.on(s.text.b(end));
        let s = s.on(s.text.bind(no));
        let s = self.put_byte(s, 0, 0x66);
        let s = self.put_byte(s, 1, 0x61);
        let s = self.put_byte(s, 2, 0x6C);
        let s = self.put_byte(s, 3, 0x73);
        let s = self.put_byte(s, 4, 0x65);
        let s = s.on(s.text.add_imm_pos(Reg(ADDR), Reg(ADDR), 5));
        let s = s.on(s.text.bind(end));
        s
    }

    /// Points two scratch registers at the end of the scratch room.
    #[verifier::opaque]
    pub open spec fn scratch_at(self, s: A64Low, end: i32) -> A64Low {
        let s = s.on(s.text.add_imm_to(Reg(S2), Reg(SP), end));
        let s = s.on(s.text.mov_reg(Reg(S3), Reg(S2)));
        s
    }

    /// Renders the result register in decimal.
    #[verifier::opaque]
    pub open spec fn emit_u64_digits(self, s: A64Low) -> A64Low {
        let s = self.scratch_at(s, 24);
        let s = s.on(s.text.mov_imm(Reg(S4), 10));
        let top = s.text.fresh();
        let s = s.on(s.text.new_label());
        let s = s.on(s.text.bind(top));
        let s = s.on(s.text.udiv(Reg(S5), Reg(RES), Reg(S4)));
        let s = s.on(s.text.msub(Reg(RES), Reg(S5), Reg(S4), Reg(RES)));
        let s = s.on(s.text.add_imm_pos(Reg(RES), Reg(RES), 48));
        let s = s.on(s.text.sub_imm(Reg(S3), Reg(S3), 1));
        let s = s.on(s.text.store(Reg(RES), Reg(S3), 0, MemSize::B));
        let s = s.on(s.text.mov_reg(Reg(RES), Reg(S5)));
        let s = s.on(s.text.cmp_imm(Reg(RES), 0));
        let s = s.on(s.text.bcc(Cc::Ne, top));
        let s = s.on(s.text.sub(Reg(S3), Reg(S2), Reg(S3)));
        let s = self.copy_digits_to_cursor_from_high_end(s);
        s
    }

    /// Writes a minus sign.
    #[verifier::opaque]
    pub open spec fn minus_sign(self, s: A64Low) -> A64Low {
        let s = s.on(s.text.mov_imm(Reg(S5), 45));
        let s = s.on(s.text.store(Reg(S5), Reg(ADDR), 0, MemSize::B));
        let s = s.on(s.text.add_imm_pos(Reg(ADDR), Reg(ADDR), 1));
        s
    }

    /// Renders a word in decimal.
    #[verifier::opaque]
    pub open spec fn render_decimal_64(self, s: A64Low, signed: bool) -> A64Low {
        let s = if signed {
            let nonneg = s.text.fresh();
            let s = s.on(s.text.new_label());
            let s = s.on(s.text.cmp_imm(Reg(RES), 0));
            let s = s.on(s.text.bcc(Cc::Ge, nonneg));
            let s = self.minus_sign(s);
            let s = s.on(s.text.neg(Reg(RES), Reg(RES)));
            let s = s.on(s.text.bind(nonneg));
            s
        } else {
            s
        };
        let s = self.emit_u64_digits(s);
        s
    }

    /// Writes the sign of a negative value of two words and negates it.
    #[verifier::opaque]
    pub open spec fn wide_magnitude(self, s: A64Low) -> A64Low {
        let nonneg = s.text.fresh();
        let s = s.on(s.text.new_label());
        let s = s.on(s.text.cmp_imm(Reg(S2), 0));
        let s = s.on(s.text.bcc(Cc::Ge, nonneg));
        let s = self.minus_sign(s);
        let s = s.on(s.text.mvn(Reg(RES), Reg(RES)));
        let s = s.on(s.text.mvn(Reg(S2), Reg(S2)));
        let s = s.on(s.text.adds_imm(Reg(RES), Reg(RES), 1));
        let s = s.on(s.text.cset(Reg(S5), Cc::C));
        let s = s.on(s.text.add(Reg(S2), Reg(S2), Reg(S5)));
        let s = s.on(s.text.bind(nonneg));
        s
    }

    /// Divides the high remainder and the low word by ten, bit by bit: the quotient
    /// replaces the low word, the remainder is left in `x8`.
    #[verifier::opaque]
    pub open spec fn divmod10_128_low(self, s: A64Low) -> A64Low {
        let s = s.on(s.text.store(Reg(S2), Reg(SP), 16, MemSize::X));
        let s = s.on(s.text.store(Reg(S3), Reg(SP), 24, MemSize::X));
        let s = s.on(s.text.load(Reg(8), Reg(SP), 32, MemSize::X));
        let s = s.on(s.text.load(Reg(S4), Reg(SP), 0, MemSize::X));
        let s = s.on(s.text.mov_imm(Reg(S5), 0));
        let s = s.on(s.text.mov_imm(Reg(S2), 64));
        let s = s.on(s.text.mov_imm(Reg(15), 1));
        let top = s.text.fresh();
        let s = s.on(s.text.new_label());
        let done = s.text.fresh();
        let s = s.on(s.text.new_label());
        let s = s.on(s.text.bind(top));
        let s = s.on(s.text.cmp_imm(Reg(S2), 0));
        let s = s.on(s.text.bcc(Cc::E, done));
        let s = s.on(s.text.sub_imm(Reg(S2), Reg(S2), 1));
        let s = s.on(s.text.lsrv(Reg(14), Reg(S4), Reg(S2)));
        let s = s.on(s.text.and(Reg(14), Reg(14), Reg(15)));
        let s = s.on(s.text.lsl_imm(Reg(8), Reg(8), 1));
        let s = s.on(s.text.orr(Reg(8), Reg(8), Reg(14)));
        let s = s.on(s.text.lsl_imm(Reg(S5), Reg(S5), 1));
        let noset = s.text.fresh();
        let s = s.on(s.text.new_label());
        let s = s.on(s.text.cmp_imm(Reg(8), 10));
        let s = s.on(s.text.bcc(Cc::B, noset));
        let s = s.on(s.text.sub_imm(Reg(8), Reg(8), 10));
        let s = s.on(s.text.orr(Reg(S5), Reg(S5), Reg(15)));
        let s = s.on(s.text.bind(noset));
        let s = s.on(s.text.b(top));
        let s = s.on(s.text.bind(done));
        let s = s.on(s.text.store(Reg(S5), Reg(SP), 0, MemSize::X));
        let s = s.on(s.text.load(Reg(S2), Reg(SP), 16, MemSize::X));
        let s = s.on(s.text.load(Reg(S3), Reg(SP), 24, MemSize::X));
        s
    }

    /// Divides the working value by ten and writes the remainder as a digit.
    #[verifier::opaque]
    pub open spec fn next_wide_digit(self, s: A64Low) -> A64Low {
        let s = s.on(s.text.mov_imm(Reg(14), 10));
        let s = s.on(s.text.load(Reg(RES), Reg(SP), 8, MemSize::X));
        let s = s.on(s.text.udiv(Reg(15), Reg(RES), Reg(14)));
        let s = s.on(s.text.msub(Reg(8), Reg(15), Reg(14), Reg(RES)));
        let s = s.on(s.text.store(Reg(15), Reg(SP), 8, MemSize::X));
        let s = s.on(s.text.store(Reg(8), Reg(SP), 32, MemSize::X));
        let s = self.divmod10_128_low(s);
        let s = s.on(s.text.add_imm_pos(Reg(8), Reg(8), 48));
        let s = s.on(s.text.sub_imm(Reg(S3), Reg(S3), 1));
        let s = s.on(s.text.store(Reg(8), Reg(S3), 0, MemSize::B));
        s
    }

    /// Puts the magnitude of a two-word integer into the working value.
    #[verifier::opaque]
    pub open spec fn wide_value(self, s: A64Low, off: i32, signed: bool) -> A64Low {
        let s = self.ld(s, Reg(RES), Reg(FP), off, MemSize::X);
        let s = self.ld_hi(s, Reg(S2), Reg(FP), off);
        let s = if signed {
            let s = self.wide_magnitude(s);
            s
        } else {
            s
        };
        let s = s.on(s.text.store(Reg(RES), Reg(SP), 0, MemSize::X));
        let s = s.on(s.text.store(Reg(S2), Reg(SP), 8, MemSize::X));
        s
    }

    /// Renders two words in decimal.
    #[verifier::opaque]
    pub open spec fn render_decimal_128(self, s: A64Low, off: i32, signed: bool) -> A64Low {
        let s = self.wide_value(s, off, signed);
        let s = self.scratch_at(s, 128);
        let top = s.text.fresh();
        let s = s.on(s.text.new_label());
        let s = s.on(s.text.bind(top));
        let s = self.next_wide_digit(s);
        let s = s.on(s.text.load(Reg(RES), Reg(SP), 0, MemSize::X));
        let s = s.on(s.text.load(Reg(15), Reg(SP), 8, MemSize::X));
        let s = s.on(s.text.orr(Reg(RES), Reg(RES), Reg(15)));
        let s = s.on(s.text.cmp_imm(Reg(RES), 0));
        let s = s.on(s.text.bcc(Cc::Ne, top));
        let s = s.on(s.text.sub(Reg(S3), Reg(S2), Reg(S3)));
        let s = self.copy_digits_to_cursor_from_high_end(s);
        s
    }

    /// Renders a value in decimal.
    #[verifier::opaque]
    pub open spec fn render_decimal_field(
        self,
        s: A64Low,
        base: LocalId,
        foff: u64,
        fty: TypeId,
    ) -> A64Low {
        let s = match self.ty(fty) {
            Type::Int { .. } => {
                let signed = self.repr_of(fty).signed;
                let at = sum32(self.home(base), foff as i32);
                let s = if self.layout(fty).size > 8 {
                    let s = self.render_decimal_128(s, at, signed);
                    s
                } else {
                    let s = self.load_sized(s, Reg(RES), Reg(FP), at, fty);
                    let s = self.render_decimal_64(s, signed);
                    s
                };
                s
            },
            Type::Bool => {
                let s = self.load_field(s, Reg(RES), base, foff, 0, MemSize::B);
                let s = self.emit_bool_digit(s);
                s
            },
            Type::Deferred => {
                let s = self.load_field(s, Reg(RES), base, foff, 0, MemSize::X);
                let s = self.render_decimal_64(s, false);
                s
            },
            Type::ComptimeInt => {
                let s = self.load_field(s, Reg(RES), base, foff, 0, MemSize::X);
                let s = self.render_decimal_64(s, true);
                s
            },
            _ => {
                s.fail(self.unsup("decimal format of a non-integer field"@))
            },
        };
        s
    }

    /// Renders a value by its type.
    #[verifier::opaque]
    pub open spec fn render_default_field(
        self,
        s: A64Low,
        base: LocalId,
        foff: u64,
        fty: TypeId,
    ) -> A64Low {
        let s = match self.ty(fty) {
            Type::Int { .. } => {
                let s = self.render_decimal_field(s, base, foff, fty);
                s
            },
            Type::ComptimeInt => {
                let s = self.render_decimal_field(s, base, foff, fty);
                s
            },
            Type::Slice { .. } => {
                let s = self.render_string_field(s, base, foff, fty);
                s
            },
            Type::Bool => {
                let s = self.load_field(s, Reg(RES), base, foff, 0, MemSize::B);
                let s = self.emit_bool_word(s);
                s
            },
            _ => {
                s.fail(self.unsup("default format of an unsupported field type"@))
            },
        };
        s
    }

    /// Turns a digit into its character; that of ten is `ten + 10`.
    #[verifier::opaque]
    pub open spec fn digit_of_res(self, s: A64Low, ten: u32) -> A64Low {
        let hi = s.text.fresh();
        let s = s.on(s.text.new_label());
        let wrote = s.text.fresh();
        let s = s.on(s.text.new_label());
        let s = s.on(s.text.cmp_imm(Reg(RES), 10));
        let s = s.on(s.text.bcc(Cc::Ae, hi));
        let s = s.on(s.text.add_imm_pos(Reg(RES), Reg(RES), 48));
        let s = s.on(s.text.b(wrote));
        let s = s.on(s.text.bind(hi));
        let s = s.on(s.text.add_imm_pos(Reg(RES), Reg(RES), ten));
        let s = s.on(s.text.bind(wrote));
        s
    }

    /// Renders the result register in a radix.
    #[verifier::opaque]
    pub open spec fn emit_radix_digits(self, s: A64Low, radix: i64, upper: bool) -> A64Low {
        let s = self.scratch_at(s, 64);
        let s = s.on(s.text.mov_imm(Reg(S4), radix));
        let top = s.text.fresh();
        let s = s.on(s.text.new_label());
        let s = s.on(s.text.bind(top));
        let s = s.on(s.text.udiv(Reg(S5), Reg(RES), Reg(S4)));
        let s = s.on(s.text.msub(Reg(RES), Reg(S5), Reg(S4), Reg(RES)));
        let s = if upper {
            let s = self.digit_of_res(s, 55);
            s
        } else {
            let s = self.digit_of_res(s, 87);
            s
        };
        let s = s.on(s.text.sub_imm(Reg(S3), Reg(S3), 1));
        let s = s.on(s.text.store(Reg(RES), Reg(S3), 0, MemSize::B));
        let s = s.on(s.text.mov_reg(Reg(RES), Reg(S5)));
        let s = s.on(s.text.cmp_imm(Reg(RES), 0));
        let s = s.on(s.text.bcc(Cc::Ne, top));
        let s = s.on(s.text.sub(Reg(S3), Reg(S2), Reg(S3)));
        let s = self.copy_digits_to_cursor_from_high_end(s);
        s
    }

    /// Renders an integer in a radix.
    #[verifier::opaque]
    pub open spec fn render_radix_field(
        self,
        s: A64Low,
        base: LocalId,
        foff: u64,
        fty: TypeId,
        radix: i64,
        upper: bool,
    ) -> A64Low {
        let s = match self.ty(fty) {
            Type::Int { .. } => {
                let s = if self.layout(fty).size > 8 {
                    s.fail(self.unsup("128-bit radix format"@))
                } else {
                    let r = self.repr_of(fty);
                    let s = self.load_sized(
                        s,
                        Reg(RES),
                        Reg(FP),
                        sum32(self.home(base), foff as i32),
                        fty,
                    );
                    let s = if r.width != 0 && r.width < 64 {
                        let s = s.on(s.text.ubfm(Reg(RES), Reg(RES), 0, (r.width - 1) as u8));
                        s
                    } else {
                        s
                    };
                    let s = self.emit_radix_digits(s, radix, upper);
                    s
                };
                s
            },
            _ => {
                s.fail(self.unsup("radix format of a non-integer field"@))
            },
        };
        s
    }

    /// Writes the low byte of the result register.
    #[verifier::opaque]
    pub open spec fn emit_char(self, s: A64Low) -> A64Low {
        let ok = s.text.fresh();
        let s = s.on(s.text.new_label());
        let s = s.on(s.text.cmp_imm(Reg(RES), 0x80));
        let s = s.on(s.text.bcc(Cc::B, ok));
        let s = s.on(s.text.bind(ok));
        let s = s.on(s.text.store(Reg(RES), Reg(ADDR), 0, MemSize::B));
        let s = s.on(s.text.add_imm_pos(Reg(ADDR), Reg(ADDR), 1));
        s
    }

    /// Renders a character.
    #[verifier::opaque]
    pub open spec fn render_char_field(
        self,
        s: A64Low,
        base: LocalId,
        foff: u64,
        fty: TypeId,
    ) -> A64Low {
        let s = match self.ty(fty) {
            Type::Int { .. } => {
                let s = self.load_sized(
                    s,
                    Reg(RES),
                    Reg(FP),
                    sum32(self.home(base), foff as i32),
                    fty,
                );
                let s = self.emit_char(s);
                s
            },
            _ => {
                s.fail(self.unsup("char format of a non-integer field"@))
            },
        };
        s
    }

    /// Renders a value.
    #[verifier::opaque]
    pub open spec fn render_field(
        self,
        s: A64Low,
        base: LocalId,
        foff: u64,
        fty: TypeId,
        verb: Verb,
    ) -> A64Low {
        let s = match verb {
            Verb::Str => {
                let s = self.render_string_field(s, base, foff, fty);
                s
            },
            Verb::Decimal => {
                let s = self.render_decimal_field(s, base, foff, fty);
                s
            },
            Verb::Default => {
                let s = self.render_default_field(s, base, foff, fty);
                s
            },
            Verb::Hex { upper } => {
                let s = self.render_radix_field(s, base, foff, fty, 16, upper);
                s
            },
            Verb::Bin => {
                let s = self.render_radix_field(s, base, foff, fty, 2, false);
                s
            },
            Verb::Oct => {
                let s = self.render_radix_field(s, base, foff, fty, 8, false);
                s
            },
            Verb::Char => {
                let s = self.render_char_field(s, base, foff, fty);
                s
            },
        };
        s
    }

    /// Renders a value of the tuple.
    #[verifier::opaque]
    pub open spec fn emit_placeholder(
        self,
        s: A64Low,
        arg_index: usize,
        spec: Spec,
        base: LocalId,
    ) -> A64Low {
        let s = match self.tuple_field(base, arg_index) {
            Some(f) => {
                let s = if spec.align != Align::Unset && spec.width != 0 {
                    s.fail(self.unsup("print field width/alignment padding"@))
                } else {
                    let s = self.render_field(s, base, f.1, f.0, spec.verb);
                    s
                };
                s
            },
            None => {
                s.fail(self.unsup("print with fewer args than placeholders"@))
            },
        };
        s
    }

    /// Renders a step of the format string.
    #[verifier::opaque]
    pub open spec fn print_step(self, s: A64Low, step: StepView, values: PrintArgs) -> A64Low {
        let s = match step {
            StepView::Literal(bytes) => {
                let s = self.emit_literal(s, bytes);
                s
            },
            StepView::Placeholder { arg_index, spec } => {
                let n = arg_index as usize;
                let s = match values {
                    PrintArgs::Local(base) => {
                        let s = self.emit_placeholder(s, n, spec, base);
                        s
                    },
                    _ => {
                        s.fail(self.unsup("print with fewer args than placeholders"@))
                    },
                };
                s
            },
        };
        s
    }

    /// Renders the steps of a format string.
    pub open spec fn print_steps(
        self,
        s: A64Low,
        steps: Seq<StepView>,
        values: PrintArgs,
    ) -> A64Low {
        self.print_steps_from(s, steps, values, 0)
    }

    /// The same from the `i`-th on.
    pub open spec fn print_steps_from(
        self,
        s: A64Low,
        steps: Seq<StepView>,
        values: PrintArgs,
        i: int,
    ) -> A64Low
        decreases steps.len() - i,
    {
        if i < 0 || i >= steps.len() {
            s
        } else {
            let k = i as usize;
            let s = self.print_step(s, steps[i], values);
            if s.err is Some {
                s
            } else {
                self.print_steps_from(s, steps, values, i + 1)
            }
        }
    }

    /// Renders into the buffer and writes it.
    #[verifier::opaque]
    pub open spec fn print_to(
        self,
        s: A64Low,
        fd: LocalId,
        steps: Seq<StepView>,
        values: PrintArgs,
        buf: i32,
    ) -> A64Low {
        let s = self.lea_home(s, Reg(ADDR), buf);
        let s = self.print_steps(s, steps, values);
        if s.err is Some {
            s
        } else {
            let s = self.lea_home(s, Reg(S2), buf);
            let s = s.on(s.text.sub(Reg(S3), Reg(ADDR), Reg(S2)));
            let s = self.ld(s, Reg(0), Reg(FP), self.home(fd), MemSize::X);
            let s = s.on(s.text.mov_reg(Reg(1), Reg(S2)));
            let s = s.on(s.text.mov_reg(Reg(2), Reg(S3)));
            let s = self.emit_syscall(s, AARCH64_WRITE);
            let s = s.on(s.text.mov_imm(Reg(RES), 0));
            s
        }
    }

    /// Prints by a format string.
    #[verifier::opaque]
    pub open spec fn print_parsed(
        self,
        s: A64Low,
        fd: LocalId,
        id: ConstId,
        args: Seq<Operand>,
    ) -> A64Low {
        let s = match parsed(self.const_bytes(id)) {
            Ok(steps) => {
                let values = self.print_args(args);
                let s = if values == PrintArgs::Other {
                    s.fail(self.unsup("print tuple not a bare local"@))
                } else {
                    let s = match self.plan.print_buf {
                        Some(buf) => {
                            let s = self.print_to(s, fd, steps, values, buf);
                            s
                        },
                        None => {
                            s.fail(self.unsup("print without a reserved buffer"@))
                        },
                    };
                    s
                };
                s
            },
            Err(e) => {
                s.fail(e)
            },
        };
        s
    }

    /// Prints.
    #[verifier::opaque]
    pub open spec fn lower_print(
        self,
        s: A64Low,
        path: IntrinsicPath,
        args: Seq<Operand>,
    ) -> A64Low {
        let s = match self.print_fd_local(path) {
            Some(fd) => {
                let s = match self.format_arg(args) {
                    Some(id) => {
                        let s = if self.has_bytes(id) {
                            let s = self.print_parsed(s, fd, id, args);
                            s
                        } else {
                            s.fail(self.unsup("print of a non-byte format const"@))
                        };
                        s
                    },
                    None => {
                        s.fail(self.unsup("print with a non-constant format string"@))
                    },
                };
                s
            },
            None => {
                let s = if self.has_receiver(path) {
                    s.fail(self.unsup("print receiver not a bare local"@))
                } else {
                    s.fail(self.unsup("print without a value receiver"@))
                };
                s
            },
        };
        s
    }

    /// Lowers an intrinsic.
    #[verifier::opaque]
    pub open spec fn lower_intrinsic_into_res(
        self,
        s: A64Low,
        path: IntrinsicPath,
        args: Seq<Operand>,
    ) -> A64Low {
        let s = match path.root {
            IntrinsicRoot::Builtin(name) => {
                s.fail(self.unsup3("safety/capability builtin @"@, name@, ""@))
            },
            _ => {
                let s = match intrinsic_of(path.members@) {
                    IntrinsicOp::Stdout => {
                        let s = s.on(s.text.mov_imm(Reg(RES), 1));
                        s
                    },
                    IntrinsicOp::Stderr => {
                        let s = s.on(s.text.mov_imm(Reg(RES), 2));
                        s
                    },
                    IntrinsicOp::Print => {
                        let s = self.lower_print(s, path, args);
                        s
                    },
                    _ => {
                        let name = dotted(path.members@, path.members@.len() as int);
                        s.fail(self.unsup3("intrinsic value."@, name, ""@))
                    },
                };
                s
            },
        };
        s
    }
}

impl Aarch64FnLower<'_> {
    /// The local that a print writes to.
    pub(crate) fn print_fd_local(&self, path: &IntrinsicPath) -> (r: Option<LocalId>)
        requires
            self.ok(),
            self.env().path_ok(*path),
        ensures
            r == self.env().print_fd_local(*path),
            r matches Some(l) ==> l.0 < self.env().func.locals@.len(),
    {
        match &path.root {
            IntrinsicRoot::Value(op) => match op {
                Operand::Copy(p) => if p.proj.len() == 0 {
                    Some(p.base)
                } else {
                    None
                },
                Operand::Const(_) => None,
            },
            _ => None,
        }
    }

    /// Whether an intrinsic is called on a value.
    pub(crate) fn has_receiver(&self, path: &IntrinsicPath) -> (r: bool)
        requires
            self.ok(),
        ensures
            r == self.env().has_receiver(*path),
    {
        match &path.root {
            IntrinsicRoot::Value(_) => true,
            _ => false,
        }
    }

    /// The string that an operand is.
    pub(crate) fn string_arg(&self, op: &Operand) -> (r: Option<ConstId>)
        requires
            self.ok(),
            self.env().operand_ok(*op),
        ensures
            r == self.env().string_arg(*op),
            r matches Some(id) ==> id.0 < self.env().prog.consts@.len(),
    {
        match op {
            Operand::Copy(_) => None,
            Operand::Const(c) => match *c {
                Const::Str(id) => Some(id),
                _ => None,
            },
        }
    }

    /// The format string of a print.
    pub(crate) fn format_arg(&self, args: &Vec<Operand>) -> (r: Option<ConstId>)
        requires
            self.ok(),
            self.env().operands_ok(args@),
        ensures
            r == self.env().format_arg(args@),
            r matches Some(id) ==> id.0 < self.env().prog.consts@.len(),
    {
        if args.len() > 0 {
            self.string_arg(&args[0])
        } else {
            None
        }
    }

    /// Where the values to print are.
    pub(crate) fn tuple_of(&self, op: &Operand) -> (r: PrintArgs)
        requires
            self.ok(),
            self.env().operand_ok(*op),
        ensures
            r == self.env().tuple_of(*op),
            r matches PrintArgs::Local(l) ==> l.0 < self.env().func.locals@.len(),
    {
        match op {
            Operand::Copy(p) => if p.proj.len() == 0 {
                PrintArgs::Local(p.base)
            } else {
                PrintArgs::Other
            },
            Operand::Const(c) => match *c {
                Const::Void => PrintArgs::Absent,
                _ => PrintArgs::Other,
            },
        }
    }

    /// Where the values of a print are.
    pub(crate) fn print_args(&self, args: &Vec<Operand>) -> (r: PrintArgs)
        requires
            self.ok(),
            self.env().operands_ok(args@),
        ensures
            r == self.env().print_args(args@),
            r matches PrintArgs::Local(l) ==> l.0 < self.env().func.locals@.len(),
    {
        if args.len() > 1 {
            self.tuple_of(&args[1])
        } else {
            PrintArgs::Absent
        }
    }

    /// Calls the system.
    pub(crate) fn emit_syscall(&self, out: &mut A64Out, nr: i64)
        requires
            self.ok(),
            old(out).ok(),
        ensures
            final(out)@ == self.env().emit_syscall(old(out)@, nr),
            final(out).ok(),
            grew(old(out)@.text.labels, final(out)@.text.labels),
    {
        let ghost l0 = out@.text.labels;
        proof {
            reveal(A64Func::emit_syscall);
            grew_refl(l0);
        }
        out.text.mov_imm(Reg(8), nr);
        out.text.svc0();
    }

    /// Copies as many bytes as the third scratch register says to the cursor.
    pub(crate) fn copy_runtime_to_cursor(&self, out: &mut A64Out)
        requires
            self.ok(),
            old(out).ok(),
        ensures
            final(out)@ == self.env().copy_runtime_to_cursor(old(out)@),
            final(out).ok(),
            grew(old(out)@.text.labels, final(out)@.text.labels),
    {
        let ghost l0 = out@.text.labels;
        let ghost mut open: Set<LabelId> = Set::empty();
        proof {
            reveal(A64Func::copy_runtime_to_cursor);
            opening_start(l0);
        }
        let ghost k1 = out@.text.labels;
        let top: LabelId = out.text.new_local_label();
        proof {
            opening_new(l0, k1, open, top);
            open = open.insert(top);
        }
        let ghost k2 = out@.text.labels;
        let end: LabelId = out.text.new_local_label();
        proof {
            opening_new(l0, k2, open, end);
            open = open.insert(end);
        }
        let ghost k3 = out@.text.labels;
        proof {
            opening_unbound(l0, k3, open, top);
        }
        out.text.bind_local(top);
        proof {
            opening_bound(l0, k3, out@.text.labels, open, top);
            open = open.remove(top);
        }
        out.text.cmp_imm(Reg(S3), 0);
        out.text.bcc_local(Cc::E, end);
        out.text.load(Reg(S4), Reg(S2), 0, MemSize::B);
        out.text.store(Reg(S4), Reg(ADDR), 0, MemSize::B);
        out.text.add_imm_pos(Reg(S2), Reg(S2), 1);
        out.text.add_imm_pos(Reg(ADDR), Reg(ADDR), 1);
        out.text.sub_imm(Reg(S3), Reg(S3), 1);
        out.text.b_local(top);
        let ghost k4 = out@.text.labels;
        proof {
            opening_unbound(l0, k4, open, end);
        }
        out.text.bind_local(end);
        proof {
            opening_bound(l0, k4, out@.text.labels, open, end);
            open = open.remove(end);
        }
        proof {
            assert(open =~= Set::empty());
            opening_done(l0, out@.text.labels, open);
        }
    }

    /// Copies the digits below the end of the scratch room to the cursor.
    pub(crate) fn copy_digits_to_cursor_from_high_end(&self, out: &mut A64Out)
        requires
            self.ok(),
            old(out).ok(),
        ensures
            final(out)@ == self.env().copy_digits_to_cursor_from_high_end(old(out)@),
            final(out).ok(),
            grew(old(out)@.text.labels, final(out)@.text.labels),
    {
        let ghost l0 = out@.text.labels;
        proof {
            reveal(A64Func::copy_digits_to_cursor_from_high_end);
            grew_refl(l0);
        }
        out.text.sub(Reg(S2), Reg(S2), Reg(S3));
        let ghost k5 = out@.text.labels;
        self.copy_runtime_to_cursor(out);
        proof {
            grew_trans(l0, k5, out@.text.labels);
        }
    }

    /// Writes bytes of the format string.
    pub(crate) fn emit_literal(&self, out: &mut A64Out, bytes: &Vec<u8>)
        requires
            self.ok(),
            old(out).ok(),
        ensures
            final(out)@ == self.env().emit_literal(old(out)@, bytes@),
            final(out).ok(),
            grew(old(out)@.text.labels, final(out)@.text.labels),
    {
        let ghost l0 = out@.text.labels;
        proof {
            reveal(A64Func::emit_literal);
            grew_refl(l0);
        }
        if bytes.len() > 0 {
            let off: u32 = out.ro.intern(bytes.as_slice());
            out.text.mov_imm_data(Reg(S2), off);
            let ghost k6 = out@.text.labels;
            self.memcpy(out, Reg(ADDR), Reg(S2), bytes.len() as u64);
            proof {
                grew_trans(l0, k6, out@.text.labels);
            }
            out.text.add_imm_pos(Reg(ADDR), Reg(ADDR), bytes.len() as u64 as u32);
        }
    }

    /// Loads from a field of the tuple.
    pub(crate) fn load_field(
        &self,
        out: &mut A64Out,
        dst: Reg,
        base: LocalId,
        foff: u64,
        more: i64,
        size: MemSize,
    )
        requires
            self.ok(),
            old(out).ok(),
            base.0 < self.env().func.locals@.len(),
        ensures
            final(out)@ == self.env().load_field(old(out)@, dst, base, foff, more, size),
            final(out).ok(),
            grew(old(out)@.text.labels, final(out)@.text.labels),
    {
        let ghost l0 = out@.text.labels;
        proof {
            reveal(A64Func::load_field);
            grew_refl(l0);
        }
        out.text.load(
            dst,
            Reg(FP),
            plus64(plus64(self.home(base) as i64, foff as i64), more),
            size,
        );
    }

    /// Renders a string.
    pub(crate) fn render_string_field(
        &self,
        out: &mut A64Out,
        base: LocalId,
        foff: u64,
        fty: TypeId,
    ) -> (r: Result<(), CodegenError>)
        requires
            self.ok(),
            old(out).ok(),
            base.0 < self.env().func.locals@.len(),
            self.env().prog.arena.has(fty),
        ensures
            a64_lowered(r, final(out)@, self.env().render_string_field(old(out)@, base, foff, fty)),
            r is Ok ==> final(out).ok() && grew(old(out)@.text.labels, final(out)@.text.labels),
    {
        let ghost l0 = out@.text.labels;
        proof {
            reveal(A64Func::render_string_field);
            grew_refl(l0);
        }
        if self.is_slice(fty) {
            let ghost k7 = out@.text.labels;
            self.load_field(out, Reg(S2), base, foff, 0, MemSize::X);
            proof {
                grew_trans(l0, k7, out@.text.labels);
            }
            let ghost k8 = out@.text.labels;
            self.load_field(out, Reg(S3), base, foff, 8, MemSize::X);
            proof {
                grew_trans(l0, k8, out@.text.labels);
            }
            let ghost k9 = out@.text.labels;
            self.copy_runtime_to_cursor(out);
            proof {
                grew_trans(l0, k9, out@.text.labels);
            }
        } else {
            return Err(self.unsup("string format of a non-slice field"));
        }
        Ok(())
    }

    /// Writes a truth value as a digit.
    pub(crate) fn emit_bool_digit(&self, out: &mut A64Out)
        requires
            self.ok(),
            old(out).ok(),
        ensures
            final(out)@ == self.env().emit_bool_digit(old(out)@),
            final(out).ok(),
            grew(old(out)@.text.labels, final(out)@.text.labels),
    {
        let ghost l0 = out@.text.labels;
        proof {
            reveal(A64Func::emit_bool_digit);
            grew_refl(l0);
        }
        out.text.cmp_imm(Reg(RES), 0);
        out.text.cset(Reg(RES), Cc::Ne);
        out.text.add_imm_pos(Reg(RES), Reg(RES), 48);
        out.text.store(Reg(RES), Reg(ADDR), 0, MemSize::B);
        out.text.add_imm_pos(Reg(ADDR), Reg(ADDR), 1);
    }

    /// Writes a byte behind the cursor.
    pub(crate) fn put_byte(&self, out: &mut A64Out, at: i64, b: i64)
        requires
            self.ok(),
            old(out).ok(),
        ensures
            final(out)@ == self.env().put_byte(old(out)@, at, b),
            final(out).ok(),
            grew(old(out)@.text.labels, final(out)@.text.labels),
    {
        let ghost l0 = out@.text.labels;
        proof {
            reveal(A64Func::put_byte);
            grew_refl(l0);
        }
        out.text.mov_imm(Reg(RES), b);
        out.text.store(Reg(RES), Reg(ADDR), at, MemSize::B);
    }

    /// Writes `true` or `false`.
    pub(crate) fn emit_bool_word(&self, out: &mut A64Out)
        requires
            self.ok(),
            old(out).ok(),
        ensures
            final(out)@ == self.env().emit_bool_word(old(out)@),
            final(out).ok(),
            grew(old(out)@.text.labels, final(out)@.text.labels),
    {
        let ghost l0 = out@.text.labels;
        let ghost mut open: Set<LabelId> = Set::empty();
        proof {
            reveal(A64Func::emit_bool_word);
            opening_start(l0);
        }
        let ghost k10 = out@.text.labels;
        let end: LabelId = out.text.new_local_label();
        proof {
            opening_new(l0, k10, open, end);
            open = open.insert(end);
        }
        let ghost k11 = out@.text.labels;
        let no: LabelId = out.text.new_local_label();
        proof {
            opening_new(l0, k11, open, no);
            open = open.insert(no);
        }
        out.text.cmp_imm(Reg(RES), 0);
        out.text.bcc_local(Cc::E, no);
        let ghost k12 = out@.text.labels;
        self.put_byte(out, 0, 0x74);
        proof {
            opening_call(l0, k12, out@.text.labels, open);
        }
        let ghost k13 = out@.text.labels;
        self.put_byte(out, 1, 0x72);
        proof {
            opening_call(l0, k13, out@.text.labels, open);
        }
        let ghost k14 = out@.text.labels;
        self.put_byte(out, 2, 0x75);
        proof {
            opening_call(l0, k14, out@.text.labels, open);
        }
        let ghost k15 = out@.text.labels;
        self.put_byte(out, 3, 0x65);
        proof {
            opening_call(l0, k15, out@.text.labels, open);
        }
        out.text.add_imm_pos(Reg(ADDR), Reg(ADDR), 4);
        out.text.b_local(end);
        let ghost k16 = out@.text.labels;
        proof {
            opening_unbound(l0, k16, open, no);
        }
        out.text.bind_local(no);
        proof {
            opening_bound(l0, k16, out@.text.labels, open, no);
            open = open.remove(no);
        }
        let ghost k17 = out@.text.labels;
        self.put_byte(out, 0, 0x66);
        proof {
            opening_call(l0, k17, out@.text.labels, open);
        }
        let ghost k18 = out@.text.labels;
        self.put_byte(out, 1, 0x61);
        proof {
            opening_call(l0, k18, out@.text.labels, open);
        }
        let ghost k19 = out@.text.labels;
        self.put_byte(out, 2, 0x6C);
        proof {
            opening_call(l0, k19, out@.text.labels, open);
        }
        let ghost k20 = out@.text.labels;
        self.put_byte(out, 3, 0x73);
        proof {
            opening_call(l0, k20, out@.text.labels, open);
        }
        let ghost k21 = out@.text.labels;
        self.put_byte(out, 4, 0x65);
        proof {
            opening_call(l0, k21, out@.text.labels, open);
        }
        out.text.add_imm_pos(Reg(ADDR), Reg(ADDR), 5);
        let ghost k22 = out@.text.labels;
        proof {
            opening_unbound(l0, k22, open, end);
        }
        out.text.bind_local(end);
        proof {
            opening_bound(l0, k22, out@.text.labels, open, end);
            open = open.remove(end);
        }
        proof {
            assert(open =~= Set::empty());
            opening_done(l0, out@.text.labels, open);
        }
    }

    /// Points two scratch registers at the end of the scratch room.
    pub(crate) fn scratch_at(&self, out: &mut A64Out, end: i32)
        requires
            self.ok(),
            old(out).ok(),
        ensures
            final(out)@ == self.env().scratch_at(old(out)@, end),
            final(out).ok(),
            grew(old(out)@.text.labels, final(out)@.text.labels),
    {
        let ghost l0 = out@.text.labels;
        proof {
            reveal(A64Func::scratch_at);
            grew_refl(l0);
        }
        out.text.add_imm_to(Reg(S2), Reg(SP), end);
        out.text.mov_reg(Reg(S3), Reg(S2));
    }

    /// Renders the result register in decimal.
    pub(crate) fn emit_u64_digits(&self, out: &mut A64Out)
        requires
            self.ok(),
            old(out).ok(),
        ensures
            final(out)@ == self.env().emit_u64_digits(old(out)@),
            final(out).ok(),
            grew(old(out)@.text.labels, final(out)@.text.labels),
    {
        let ghost l0 = out@.text.labels;
        let ghost mut open: Set<LabelId> = Set::empty();
        proof {
            reveal(A64Func::emit_u64_digits);
            opening_start(l0);
        }
        let ghost k23 = out@.text.labels;
        self.scratch_at(out, 24);
        proof {
            opening_call(l0, k23, out@.text.labels, open);
        }
        out.text.mov_imm(Reg(S4), 10);
        let ghost k24 = out@.text.labels;
        let top: LabelId = out.text.new_local_label();
        proof {
            opening_new(l0, k24, open, top);
            open = open.insert(top);
        }
        let ghost k25 = out@.text.labels;
        proof {
            opening_unbound(l0, k25, open, top);
        }
        out.text.bind_local(top);
        proof {
            opening_bound(l0, k25, out@.text.labels, open, top);
            open = open.remove(top);
        }
        out.text.udiv(Reg(S5), Reg(RES), Reg(S4));
        out.text.msub(Reg(RES), Reg(S5), Reg(S4), Reg(RES));
        out.text.add_imm_pos(Reg(RES), Reg(RES), 48);
        out.text.sub_imm(Reg(S3), Reg(S3), 1);
        out.text.store(Reg(RES), Reg(S3), 0, MemSize::B);
        out.text.mov_reg(Reg(RES), Reg(S5));
        out.text.cmp_imm(Reg(RES), 0);
        out.text.bcc_local(Cc::Ne, top);
        out.text.sub(Reg(S3), Reg(S2), Reg(S3));
        let ghost k26 = out@.text.labels;
        self.copy_digits_to_cursor_from_high_end(out);
        proof {
            opening_call(l0, k26, out@.text.labels, open);
        }
        proof {
            assert(open =~= Set::empty());
            opening_done(l0, out@.text.labels, open);
        }
    }

    /// Writes a minus sign.
    pub(crate) fn minus_sign(&self, out: &mut A64Out)
        requires
            self.ok(),
            old(out).ok(),
        ensures
            final(out)@ == self.env().minus_sign(old(out)@),
            final(out).ok(),
            grew(old(out)@.text.labels, final(out)@.text.labels),
    {
        let ghost l0 = out@.text.labels;
        proof {
            reveal(A64Func::minus_sign);
            grew_refl(l0);
        }
        out.text.mov_imm(Reg(S5), 45);
        out.text.store(Reg(S5), Reg(ADDR), 0, MemSize::B);
        out.text.add_imm_pos(Reg(ADDR), Reg(ADDR), 1);
    }

    /// Renders a word in decimal.
    pub(crate) fn render_decimal_64(&self, out: &mut A64Out, signed: bool)
        requires
            self.ok(),
            old(out).ok(),
        ensures
            final(out)@ == self.env().render_decimal_64(old(out)@, signed),
            final(out).ok(),
            grew(old(out)@.text.labels, final(out)@.text.labels),
    {
        let ghost l0 = out@.text.labels;
        let ghost mut open: Set<LabelId> = Set::empty();
        proof {
            reveal(A64Func::render_decimal_64);
            opening_start(l0);
        }
        if signed {
            let ghost k27 = out@.text.labels;
            let nonneg: LabelId = out.text.new_local_label();
            proof {
                opening_new(l0, k27, open, nonneg);
                open = open.insert(nonneg);
            }
            out.text.cmp_imm(Reg(RES), 0);
            out.text.bcc_local(Cc::Ge, nonneg);
            let ghost k28 = out@.text.labels;
            self.minus_sign(out);
            proof {
                opening_call(l0, k28, out@.text.labels, open);
            }
            out.text.neg(Reg(RES), Reg(RES));
            let ghost k29 = out@.text.labels;
            proof {
                opening_unbound(l0, k29, open, nonneg);
            }
            out.text.bind_local(nonneg);
            proof {
                opening_bound(l0, k29, out@.text.labels, open, nonneg);
                open = open.remove(nonneg);
            }
        }
        let ghost k30 = out@.text.labels;
        self.emit_u64_digits(out);
        proof {
            opening_call(l0, k30, out@.text.labels, open);
        }
        proof {
            assert(open =~= Set::empty());
            opening_done(l0, out@.text.labels, open);
        }
    }

    /// Writes the sign of a negative value of two words and negates it.
    pub(crate) fn wide_magnitude(&self, out: &mut A64Out)
        requires
            self.ok(),
            old(out).ok(),
        ensures
            final(out)@ == self.env().wide_magnitude(old(out)@),
            final(out).ok(),
            grew(old(out)@.text.labels, final(out)@.text.labels),
    {
        let ghost l0 = out@.text.labels;
        let ghost mut open: Set<LabelId> = Set::empty();
        proof {
            reveal(A64Func::wide_magnitude);
            opening_start(l0);
        }
        let ghost k31 = out@.text.labels;
        let nonneg: LabelId = out.text.new_local_label();
        proof {
            opening_new(l0, k31, open, nonneg);
            open = open.insert(nonneg);
        }
        out.text.cmp_imm(Reg(S2), 0);
        out.text.bcc_local(Cc::Ge, nonneg);
        let ghost k32 = out@.text.labels;
        self.minus_sign(out);
        proof {
            opening_call(l0, k32, out@.text.labels, open);
        }
        out.text.mvn(Reg(RES), Reg(RES));
        out.text.mvn(Reg(S2), Reg(S2));
        out.text.adds_imm(Reg(RES), Reg(RES), 1);
        out.text.cset(Reg(S5), Cc::C);
        out.text.add(Reg(S2), Reg(S2), Reg(S5));
        let ghost k33 = out@.text.labels;
        proof {
            opening_unbound(l0, k33, open, nonneg);
        }
        out.text.bind_local(nonneg);
        proof {
            opening_bound(l0, k33, out@.text.labels, open, nonneg);
            open = open.remove(nonneg);
        }
        proof {
            assert(open =~= Set::empty());
            opening_done(l0, out@.text.labels, open);
        }
    }

    /// Divides the high remainder and the low word by ten, bit by bit: the quotient
    /// replaces the low word, the remainder is left in `x8`.
    pub(crate) fn divmod10_128_low(&self, out: &mut A64Out)
        requires
            self.ok(),
            old(out).ok(),
        ensures
            final(out)@ == self.env().divmod10_128_low(old(out)@),
            final(out).ok(),
            grew(old(out)@.text.labels, final(out)@.text.labels),
    {
        let ghost l0 = out@.text.labels;
        let ghost mut open: Set<LabelId> = Set::empty();
        proof {
            reveal(A64Func::divmod10_128_low);
            opening_start(l0);
        }
        out.text.store(Reg(S2), Reg(SP), 16, MemSize::X);
        out.text.store(Reg(S3), Reg(SP), 24, MemSize::X);
        out.text.load(Reg(8), Reg(SP), 32, MemSize::X);
        out.text.load(Reg(S4), Reg(SP), 0, MemSize::X);
        out.text.mov_imm(Reg(S5), 0);
        out.text.mov_imm(Reg(S2), 64);
        out.text.mov_imm(Reg(15), 1);
        let ghost k34 = out@.text.labels;
        let top: LabelId = out.text.new_local_label();
        proof {
            opening_new(l0, k34, open, top);
            open = open.insert(top);
        }
        let ghost k35 = out@.text.labels;
        let done: LabelId = out.text.new_local_label();
        proof {
            opening_new(l0, k35, open, done);
            open = open.insert(done);
        }
        let ghost k36 = out@.text.labels;
        proof {
            opening_unbound(l0, k36, open, top);
        }
        out.text.bind_local(top);
        proof {
            opening_bound(l0, k36, out@.text.labels, open, top);
            open = open.remove(top);
        }
        out.text.cmp_imm(Reg(S2), 0);
        out.text.bcc_local(Cc::E, done);
        out.text.sub_imm(Reg(S2), Reg(S2), 1);
        out.text.lsrv(Reg(14), Reg(S4), Reg(S2));
        out.text.and(Reg(14), Reg(14), Reg(15));
        out.text.lsl_imm(Reg(8), Reg(8), 1);
        out.text.orr(Reg(8), Reg(8), Reg(14));
        out.text.lsl_imm(Reg(S5), Reg(S5), 1);
        let ghost k37 = out@.text.labels;
        let noset: LabelId = out.text.new_local_label();
        proof {
            opening_new(l0, k37, open, noset);
            open = open.insert(noset);
        }
        out.text.cmp_imm(Reg(8), 10);
        out.text.bcc_local(Cc::B, noset);
        out.text.sub_imm(Reg(8), Reg(8), 10);
        out.text.orr(Reg(S5), Reg(S5), Reg(15));
        let ghost k38 = out@.text.labels;
        proof {
            opening_unbound(l0, k38, open, noset);
        }
        out.text.bind_local(noset);
        proof {
            opening_bound(l0, k38, out@.text.labels, open, noset);
            open = open.remove(noset);
        }
        out.text.b_local(top);
        let ghost k39 = out@.text.labels;
        proof {
            opening_unbound(l0, k39, open, done);
        }
        out.text.bind_local(done);
        proof {
            opening_bound(l0, k39, out@.text.labels, open, done);
            open = open.remove(done);
        }
        out.text.store(Reg(S5), Reg(SP), 0, MemSize::X);
        out.text.load(Reg(S2), Reg(SP), 16, MemSize::X);
        out.text.load(Reg(S3), Reg(SP), 24, MemSize::X);
        proof {
            assert(open =~= Set::empty());
            opening_done(l0, out@.text.labels, open);
        }
    }

    /// Divides the working value by ten and writes the remainder as a digit.
    pub(crate) fn next_wide_digit(&self, out: &mut A64Out)
        requires
            self.ok(),
            old(out).ok(),
        ensures
            final(out)@ == self.env().next_wide_digit(old(out)@),
            final(out).ok(),
            grew(old(out)@.text.labels, final(out)@.text.labels),
    {
        let ghost l0 = out@.text.labels;
        proof {
            reveal(A64Func::next_wide_digit);
            grew_refl(l0);
        }
        out.text.mov_imm(Reg(14), 10);
        out.text.load(Reg(RES), Reg(SP), 8, MemSize::X);
        out.text.udiv(Reg(15), Reg(RES), Reg(14));
        out.text.msub(Reg(8), Reg(15), Reg(14), Reg(RES));
        out.text.store(Reg(15), Reg(SP), 8, MemSize::X);
        out.text.store(Reg(8), Reg(SP), 32, MemSize::X);
        let ghost k40 = out@.text.labels;
        self.divmod10_128_low(out);
        proof {
            grew_trans(l0, k40, out@.text.labels);
        }
        out.text.add_imm_pos(Reg(8), Reg(8), 48);
        out.text.sub_imm(Reg(S3), Reg(S3), 1);
        out.text.store(Reg(8), Reg(S3), 0, MemSize::B);
    }

    /// Puts the magnitude of a two-word integer into the working value.
    pub(crate) fn wide_value(&self, out: &mut A64Out, off: i32, signed: bool)
        requires
            self.ok(),
            old(out).ok(),
        ensures
            final(out)@ == self.env().wide_value(old(out)@, off, signed),
            final(out).ok(),
            grew(old(out)@.text.labels, final(out)@.text.labels),
    {
        let ghost l0 = out@.text.labels;
        proof {
            reveal(A64Func::wide_value);
            grew_refl(l0);
        }
        let ghost k41 = out@.text.labels;
        self.ld(out, Reg(RES), Reg(FP), off, MemSize::X);
        proof {
            grew_trans(l0, k41, out@.text.labels);
        }
        let ghost k42 = out@.text.labels;
        self.ld_hi(out, Reg(S2), Reg(FP), off);
        proof {
            grew_trans(l0, k42, out@.text.labels);
        }
        if signed {
            let ghost k43 = out@.text.labels;
            self.wide_magnitude(out);
            proof {
                grew_trans(l0, k43, out@.text.labels);
            }
        }
        out.text.store(Reg(RES), Reg(SP), 0, MemSize::X);
        out.text.store(Reg(S2), Reg(SP), 8, MemSize::X);
    }

    /// Renders two words in decimal.
    pub(crate) fn render_decimal_128(&self, out: &mut A64Out, off: i32, signed: bool)
        requires
            self.ok(),
            old(out).ok(),
        ensures
            final(out)@ == self.env().render_decimal_128(old(out)@, off, signed),
            final(out).ok(),
            grew(old(out)@.text.labels, final(out)@.text.labels),
    {
        let ghost l0 = out@.text.labels;
        let ghost mut open: Set<LabelId> = Set::empty();
        proof {
            reveal(A64Func::render_decimal_128);
            opening_start(l0);
        }
        let ghost k44 = out@.text.labels;
        self.wide_value(out, off, signed);
        proof {
            opening_call(l0, k44, out@.text.labels, open);
        }
        let ghost k45 = out@.text.labels;
        self.scratch_at(out, 128);
        proof {
            opening_call(l0, k45, out@.text.labels, open);
        }
        let ghost k46 = out@.text.labels;
        let top: LabelId = out.text.new_local_label();
        proof {
            opening_new(l0, k46, open, top);
            open = open.insert(top);
        }
        let ghost k47 = out@.text.labels;
        proof {
            opening_unbound(l0, k47, open, top);
        }
        out.text.bind_local(top);
        proof {
            opening_bound(l0, k47, out@.text.labels, open, top);
            open = open.remove(top);
        }
        let ghost k48 = out@.text.labels;
        self.next_wide_digit(out);
        proof {
            opening_call(l0, k48, out@.text.labels, open);
        }
        out.text.load(Reg(RES), Reg(SP), 0, MemSize::X);
        out.text.load(Reg(15), Reg(SP), 8, MemSize::X);
        out.text.orr(Reg(RES), Reg(RES), Reg(15));
        out.text.cmp_imm(Reg(RES), 0);
        out.text.bcc_local(Cc::Ne, top);
        out.text.sub(Reg(S3), Reg(S2), Reg(S3));
        let ghost k49 = out@.text.labels;
        self.copy_digits_to_cursor_from_high_end(out);
        proof {
            opening_call(l0, k49, out@.text.labels, open);
        }
        proof {
            assert(open =~= Set::empty());
            opening_done(l0, out@.text.labels, open);
        }
    }

    /// Renders a value in decimal.
    pub(crate) fn render_decimal_field(
        &self,
        out: &mut A64Out,
        base: LocalId,
        foff: u64,
        fty: TypeId,
    ) -> (r: Result<(), CodegenError>)
        requires
            self.ok(),
            old(out).ok(),
            base.0 < self.env().func.locals@.len(),
            self.env().prog.arena.has(fty),
        ensures
            a64_lowered(
                r,
                final(out)@,
                self.env().render_decimal_field(old(out)@, base, foff, fty),
            ),
            r is Ok ==> final(out).ok() && grew(old(out)@.text.labels, final(out)@.text.labels),
    {
        let ghost l0 = out@.text.labels;
        proof {
            reveal(A64Func::render_decimal_field);
            grew_refl(l0);
        }
        match self.ty(fty) {
            Type::Int { .. } => {
                let signed: bool = self.repr_of(fty).signed;
                let at: i32 = plus(self.home(base), foff as i32);
                if self.layout(fty).size > 8 {
                    let ghost k50 = out@.text.labels;
                    self.render_decimal_128(out, at, signed);
                    proof {
                        grew_trans(l0, k50, out@.text.labels);
                    }
                } else {
                    let ghost k51 = out@.text.labels;
                    self.load_sized(out, Reg(RES), Reg(FP), at, fty);
                    proof {
                        grew_trans(l0, k51, out@.text.labels);
                    }
                    let ghost k52 = out@.text.labels;
                    self.render_decimal_64(out, signed);
                    proof {
                        grew_trans(l0, k52, out@.text.labels);
                    }
                }
            },
            Type::Bool => {
                let ghost k53 = out@.text.labels;
                self.load_field(out, Reg(RES), base, foff, 0, MemSize::B);
                proof {
                    grew_trans(l0, k53, out@.text.labels);
                }
                let ghost k54 = out@.text.labels;
                self.emit_bool_digit(out);
                proof {
                    grew_trans(l0, k54, out@.text.labels);
                }
            },
            Type::Deferred => {
                let ghost k55 = out@.text.labels;
                self.load_field(out, Reg(RES), base, foff, 0, MemSize::X);
                proof {
                    grew_trans(l0, k55, out@.text.labels);
                }
                let ghost k56 = out@.text.labels;
                self.render_decimal_64(out, false);
                proof {
                    grew_trans(l0, k56, out@.text.labels);
                }
            },
            Type::ComptimeInt => {
                let ghost k57 = out@.text.labels;
                self.load_field(out, Reg(RES), base, foff, 0, MemSize::X);
                proof {
                    grew_trans(l0, k57, out@.text.labels);
                }
                let ghost k58 = out@.text.labels;
                self.render_decimal_64(out, true);
                proof {
                    grew_trans(l0, k58, out@.text.labels);
                }
            },
            _ => {
                return Err(self.unsup("decimal format of a non-integer field"));
            },
        }
        Ok(())
    }

    /// Renders a value by its type.
    pub(crate) fn render_default_field(
        &self,
        out: &mut A64Out,
        base: LocalId,
        foff: u64,
        fty: TypeId,
    ) -> (r: Result<(), CodegenError>)
        requires
            self.ok(),
            old(out).ok(),
            base.0 < self.env().func.locals@.len(),
            self.env().prog.arena.has(fty),
        ensures
            a64_lowered(
                r,
                final(out)@,
                self.env().render_default_field(old(out)@, base, foff, fty),
            ),
            r is Ok ==> final(out).ok() && grew(old(out)@.text.labels, final(out)@.text.labels),
    {
        let ghost l0 = out@.text.labels;
        proof {
            reveal(A64Func::render_default_field);
            grew_refl(l0);
        }
        match self.ty(fty) {
            Type::Int { .. } => {
                let ghost k59 = out@.text.labels;
                match self.render_decimal_field(out, base, foff, fty) {
                    Ok(_) => {},
                    Err(e) => {
                        return Err(e);
                    },
                }
                proof {
                    grew_trans(l0, k59, out@.text.labels);
                }
            },
            Type::ComptimeInt => {
                let ghost k60 = out@.text.labels;
                match self.render_decimal_field(out, base, foff, fty) {
                    Ok(_) => {},
                    Err(e) => {
                        return Err(e);
                    },
                }
                proof {
                    grew_trans(l0, k60, out@.text.labels);
                }
            },
            Type::Slice { .. } => {
                let ghost k61 = out@.text.labels;
                match self.render_string_field(out, base, foff, fty) {
                    Ok(_) => {},
                    Err(e) => {
                        return Err(e);
                    },
                }
                proof {
                    grew_trans(l0, k61, out@.text.labels);
                }
            },
            Type::Bool => {
                let ghost k62 = out@.text.labels;
                self.load_field(out, Reg(RES), base, foff, 0, MemSize::B);
                proof {
                    grew_trans(l0, k62, out@.text.labels);
                }
                let ghost k63 = out@.text.labels;
                self.emit_bool_word(out);
                proof {
                    grew_trans(l0, k63, out@.text.labels);
                }
            },
            _ => {
                return Err(self.unsup("default format of an unsupported field type"));
            },
        }
        Ok(())
    }

    /// Turns a digit into its character; that of ten is `ten + 10`.
    pub(crate) fn digit_of_res(&self, out: &mut A64Out, ten: u32)
        requires
            self.ok(),
            old(out).ok(),
        ensures
            final(out)@ == self.env().digit_of_res(old(out)@, ten),
            final(out).ok(),
            grew(old(out)@.text.labels, final(out)@.text.labels),
    {
        let ghost l0 = out@.text.labels;
        let ghost mut open: Set<LabelId> = Set::empty();
        proof {
            reveal(A64Func::digit_of_res);
            opening_start(l0);
        }
        let ghost k64 = out@.text.labels;
        let hi: LabelId = out.text.new_local_label();
        proof {
            opening_new(l0, k64, open, hi);
            open = open.insert(hi);
        }
        let ghost k65 = out@.text.labels;
        let wrote: LabelId = out.text.new_local_label();
        proof {
            opening_new(l0, k65, open, wrote);
            open = open.insert(wrote);
        }
        out.text.cmp_imm(Reg(RES), 10);
        out.text.bcc_local(Cc::Ae, hi);
        out.text.add_imm_pos(Reg(RES), Reg(RES), 48);
        out.text.b_local(wrote);
        let ghost k66 = out@.text.labels;
        proof {
            opening_unbound(l0, k66, open, hi);
        }
        out.text.bind_local(hi);
        proof {
            opening_bound(l0, k66, out@.text.labels, open, hi);
            open = open.remove(hi);
        }
        out.text.add_imm_pos(Reg(RES), Reg(RES), ten);
        let ghost k67 = out@.text.labels;
        proof {
            opening_unbound(l0, k67, open, wrote);
        }
        out.text.bind_local(wrote);
        proof {
            opening_bound(l0, k67, out@.text.labels, open, wrote);
            open = open.remove(wrote);
        }
        proof {
            assert(open =~= Set::empty());
            opening_done(l0, out@.text.labels, open);
        }
    }

    /// Renders the result register in a radix.
    pub(crate) fn emit_radix_digits(&self, out: &mut A64Out, radix: i64, upper: bool)
        requires
            self.ok(),
            old(out).ok(),
        ensures
            final(out)@ == self.env().emit_radix_digits(old(out)@, radix, upper),
            final(out).ok(),
            grew(old(out)@.text.labels, final(out)@.text.labels),
    {
        let ghost l0 = out@.text.labels;
        let ghost mut open: Set<LabelId> = Set::empty();
        proof {
            reveal(A64Func::emit_radix_digits);
            opening_start(l0);
        }
        let ghost k68 = out@.text.labels;
        self.scratch_at(out, 64);
        proof {
            opening_call(l0, k68, out@.text.labels, open);
        }
        out.text.mov_imm(Reg(S4), radix);
        let ghost k69 = out@.text.labels;
        let top: LabelId = out.text.new_local_label();
        proof {
            opening_new(l0, k69, open, top);
            open = open.insert(top);
        }
        let ghost k70 = out@.text.labels;
        proof {
            opening_unbound(l0, k70, open, top);
        }
        out.text.bind_local(top);
        proof {
            opening_bound(l0, k70, out@.text.labels, open, top);
            open = open.remove(top);
        }
        out.text.udiv(Reg(S5), Reg(RES), Reg(S4));
        out.text.msub(Reg(RES), Reg(S5), Reg(S4), Reg(RES));
        if upper {
            let ghost k71 = out@.text.labels;
            self.digit_of_res(out, 55);
            proof {
                opening_call(l0, k71, out@.text.labels, open);
            }
        } else {
            let ghost k72 = out@.text.labels;
            self.digit_of_res(out, 87);
            proof {
                opening_call(l0, k72, out@.text.labels, open);
            }
        }
        out.text.sub_imm(Reg(S3), Reg(S3), 1);
        out.text.store(Reg(RES), Reg(S3), 0, MemSize::B);
        out.text.mov_reg(Reg(RES), Reg(S5));
        out.text.cmp_imm(Reg(RES), 0);
        out.text.bcc_local(Cc::Ne, top);
        out.text.sub(Reg(S3), Reg(S2), Reg(S3));
        let ghost k73 = out@.text.labels;
        self.copy_digits_to_cursor_from_high_end(out);
        proof {
            opening_call(l0, k73, out@.text.labels, open);
        }
        proof {
            assert(open =~= Set::empty());
            opening_done(l0, out@.text.labels, open);
        }
    }

    /// Renders an integer in a radix.
    pub(crate) fn render_radix_field(
        &self,
        out: &mut A64Out,
        base: LocalId,
        foff: u64,
        fty: TypeId,
        radix: i64,
        upper: bool,
    ) -> (r: Result<(), CodegenError>)
        requires
            self.ok(),
            old(out).ok(),
            base.0 < self.env().func.locals@.len(),
            self.env().prog.arena.has(fty),
        ensures
            a64_lowered(
                r,
                final(out)@,
                self.env().render_radix_field(old(out)@, base, foff, fty, radix, upper),
            ),
            r is Ok ==> final(out).ok() && grew(old(out)@.text.labels, final(out)@.text.labels),
    {
        let ghost l0 = out@.text.labels;
        proof {
            reveal(A64Func::render_radix_field);
            grew_refl(l0);
        }
        match self.ty(fty) {
            Type::Int { .. } => {
                if self.layout(fty).size > 8 {
                    return Err(self.unsup("128-bit radix format"));
                } else {
                    let r: Repr = self.repr_of(fty);
                    let ghost k74 = out@.text.labels;
                    self.load_sized(
                        out,
                        Reg(RES),
                        Reg(FP),
                        plus(self.home(base), foff as i32),
                        fty,
                    );
                    proof {
                        grew_trans(l0, k74, out@.text.labels);
                    }
                    if r.width != 0 && r.width < 64 {
                        out.text.ubfm(Reg(RES), Reg(RES), 0, (r.width - 1) as u8);
                    }
                    let ghost k75 = out@.text.labels;
                    self.emit_radix_digits(out, radix, upper);
                    proof {
                        grew_trans(l0, k75, out@.text.labels);
                    }
                }
            },
            _ => {
                return Err(self.unsup("radix format of a non-integer field"));
            },
        }
        Ok(())
    }

    /// Writes the low byte of the result register.
    pub(crate) fn emit_char(&self, out: &mut A64Out)
        requires
            self.ok(),
            old(out).ok(),
        ensures
            final(out)@ == self.env().emit_char(old(out)@),
            final(out).ok(),
            grew(old(out)@.text.labels, final(out)@.text.labels),
    {
        let ghost l0 = out@.text.labels;
        let ghost mut open: Set<LabelId> = Set::empty();
        proof {
            reveal(A64Func::emit_char);
            opening_start(l0);
        }
        let ghost k76 = out@.text.labels;
        let ok: LabelId = out.text.new_local_label();
        proof {
            opening_new(l0, k76, open, ok);
            open = open.insert(ok);
        }
        out.text.cmp_imm(Reg(RES), 0x80);
        out.text.bcc_local(Cc::B, ok);
        let ghost k77 = out@.text.labels;
        proof {
            opening_unbound(l0, k77, open, ok);
        }
        out.text.bind_local(ok);
        proof {
            opening_bound(l0, k77, out@.text.labels, open, ok);
            open = open.remove(ok);
        }
        out.text.store(Reg(RES), Reg(ADDR), 0, MemSize::B);
        out.text.add_imm_pos(Reg(ADDR), Reg(ADDR), 1);
        proof {
            assert(open =~= Set::empty());
            opening_done(l0, out@.text.labels, open);
        }
    }

    /// Renders a character.
    pub(crate) fn render_char_field(
        &self,
        out: &mut A64Out,
        base: LocalId,
        foff: u64,
        fty: TypeId,
    ) -> (r: Result<(), CodegenError>)
        requires
            self.ok(),
            old(out).ok(),
            base.0 < self.env().func.locals@.len(),
            self.env().prog.arena.has(fty),
        ensures
            a64_lowered(r, final(out)@, self.env().render_char_field(old(out)@, base, foff, fty)),
            r is Ok ==> final(out).ok() && grew(old(out)@.text.labels, final(out)@.text.labels),
    {
        let ghost l0 = out@.text.labels;
        proof {
            reveal(A64Func::render_char_field);
            grew_refl(l0);
        }
        match self.ty(fty) {
            Type::Int { .. } => {
                let ghost k78 = out@.text.labels;
                self.load_sized(out, Reg(RES), Reg(FP), plus(self.home(base), foff as i32), fty);
                proof {
                    grew_trans(l0, k78, out@.text.labels);
                }
                let ghost k79 = out@.text.labels;
                self.emit_char(out);
                proof {
                    grew_trans(l0, k79, out@.text.labels);
                }
            },
            _ => {
                return Err(self.unsup("char format of a non-integer field"));
            },
        }
        Ok(())
    }

    /// Renders a value.
    pub(crate) fn render_field(
        &self,
        out: &mut A64Out,
        base: LocalId,
        foff: u64,
        fty: TypeId,
        verb: Verb,
    ) -> (r: Result<(), CodegenError>)
        requires
            self.ok(),
            old(out).ok(),
            base.0 < self.env().func.locals@.len(),
            self.env().prog.arena.has(fty),
        ensures
            a64_lowered(r, final(out)@, self.env().render_field(old(out)@, base, foff, fty, verb)),
            r is Ok ==> final(out).ok() && grew(old(out)@.text.labels, final(out)@.text.labels),
    {
        let ghost l0 = out@.text.labels;
        proof {
            reveal(A64Func::render_field);
            grew_refl(l0);
        }
        match verb {
            Verb::Str => {
                let ghost k80 = out@.text.labels;
                match self.render_string_field(out, base, foff, fty) {
                    Ok(_) => {},
                    Err(e) => {
                        return Err(e);
                    },
                }
                proof {
                    grew_trans(l0, k80, out@.text.labels);
                }
            },
            Verb::Decimal => {
                let ghost k81 = out@.text.labels;
                match self.render_decimal_field(out, base, foff, fty) {
                    Ok(_) => {},
                    Err(e) => {
                        return Err(e);
                    },
                }
                proof {
                    grew_trans(l0, k81, out@.text.labels);
                }
            },
            Verb::Default => {
                let ghost k82 = out@.text.labels;
                match self.render_default_field(out, base, foff, fty) {
                    Ok(_) => {},
                    Err(e) => {
                        return Err(e);
                    },
                }
                proof {
                    grew_trans(l0, k82, out@.text.labels);
                }
            },
            Verb::Hex { upper } => {
                let ghost k83 = out@.text.labels;
                match self.render_radix_field(out, base, foff, fty, 16, upper) {
                    Ok(_) => {},
                    Err(e) => {
                        return Err(e);
                    },
                }
                proof {
                    grew_trans(l0, k83, out@.text.labels);
                }
            },
            Verb::Bin => {
                let ghost k84 = out@.text.labels;
                match self.render_radix_field(out, base, foff, fty, 2, false) {
                    Ok(_) => {},
                    Err(e) => {
                        return Err(e);
                    },
                }
                proof {
                    grew_trans(l0, k84, out@.text.labels);
                }
            },
            Verb::Oct => {
                let ghost k85 = out@.text.labels;
                match self.render_radix_field(out, base, foff, fty, 8, false) {
                    Ok(_) => {},
                    Err(e) => {
                        return Err(e);
                    },
                }
                proof {
                    grew_trans(l0, k85, out@.text.labels);
                }
            },
            Verb::Char => {
                let ghost k86 = out@.text.labels;
                match self.render_char_field(out, base, foff, fty) {
                    Ok(_) => {},
                    Err(e) => {
                        return Err(e);
                    },
                }
                proof {
                    grew_trans(l0, k86, out@.text.labels);
                }
            },
        }
        Ok(())
    }

    /// Renders a value of the tuple.
    pub(crate) fn emit_placeholder(
        &self,
        out: &mut A64Out,
        arg_index: usize,
        spec: Spec,
        base: LocalId,
    ) -> (r: Result<(), CodegenError>)
        requires
            self.ok(),
            old(out).ok(),
            base.0 < self.env().func.locals@.len(),
        ensures
            a64_lowered(
                r,
                final(out)@,
                self.env().emit_placeholder(old(out)@, arg_index, spec, base),
            ),
            r is Ok ==> final(out).ok() && grew(old(out)@.text.labels, final(out)@.text.labels),
    {
        let ghost l0 = out@.text.labels;
        proof {
            reveal(A64Func::emit_placeholder);
            grew_refl(l0);
        }
        match self.tuple_field(base, arg_index) {
            Some(f) => {
                if spec.align != Align::Unset && spec.width != 0 {
                    return Err(self.unsup("print field width/alignment padding"));
                } else {
                    let ghost k87 = out@.text.labels;
                    match self.render_field(out, base, f.1, f.0, spec.verb) {
                        Ok(_) => {},
                        Err(e) => {
                            return Err(e);
                        },
                    }
                    proof {
                        grew_trans(l0, k87, out@.text.labels);
                    }
                }
            },
            None => {
                return Err(self.unsup("print with fewer args than placeholders"));
            },
        }
        Ok(())
    }

    /// Renders a step of the format string.
    pub(crate) fn print_step(
        &self,
        out: &mut A64Out,
        step: &Step,
        values: PrintArgs,
    ) -> (r: Result<(), CodegenError>)
        requires
            self.ok(),
            old(out).ok(),
            values matches PrintArgs::Local(l) ==> l.0 < self.env().func.locals@.len(),
        ensures
            a64_lowered(r, final(out)@, self.env().print_step(old(out)@, step@, values)),
            r is Ok ==> final(out).ok() && grew(old(out)@.text.labels, final(out)@.text.labels),
    {
        let ghost l0 = out@.text.labels;
        proof {
            reveal(A64Func::print_step);
            grew_refl(l0);
        }
        match step {
            Step::Literal(bytes) => {
                let ghost k88 = out@.text.labels;
                self.emit_literal(out, bytes);
                proof {
                    grew_trans(l0, k88, out@.text.labels);
                }
            },
            Step::Placeholder { arg_index, spec } => {
                let n: usize = *arg_index;
                match values {
                    PrintArgs::Local(base) => {
                        let ghost k89 = out@.text.labels;
                        match self.emit_placeholder(out, n, *spec, base) {
                            Ok(_) => {},
                            Err(e) => {
                                return Err(e);
                            },
                        }
                        proof {
                            grew_trans(l0, k89, out@.text.labels);
                        }
                    },
                    _ => {
                        return Err(self.unsup("print with fewer args than placeholders"));
                    },
                }
            },
        }
        Ok(())
    }

    /// Renders the steps of a format string.
    pub(crate) fn print_steps(
        &self,
        out: &mut A64Out,
        steps: &Vec<Step>,
        values: PrintArgs,
    ) -> (r: Result<(), CodegenError>)
        requires
            self.ok(),
            old(out).ok(),
            values matches PrintArgs::Local(l) ==> l.0 < self.env().func.locals@.len(),
        ensures
            a64_lowered(
                r,
                final(out)@,
                self.env().print_steps(old(out)@, step_views(steps@), values),
            ),
            r is Ok ==> final(out).ok() && grew(old(out)@.text.labels, final(out)@.text.labels),
    {
        let ghost l0 = out@.text.labels;
        let ghost want = self.env().print_steps(out@, step_views(steps@), values);
        proof {
            grew_refl(l0);
        }
        let mut i: usize = 0;
        while i < steps.len()
            invariant
                self.ok(),
                out.ok(),
                values matches PrintArgs::Local(l) ==> l.0 < self.env().func.locals@.len(),
                i <= step_views(steps@).len(),
                grew(l0, out@.text.labels),
                l0 == old(out)@.text.labels,
                want == self.env().print_steps(old(out)@, step_views(steps@), values),
                want == self.env().print_steps_from(out@, step_views(steps@), values, i as int),
            decreases step_views(steps@).len() - i,
        {
            assert(step_views(steps@)[i as int] == steps@[i as int]@);
            let ghost here = out@.text.labels;
            match self.print_step(out, &steps[i], values) {
                Ok(_) => {},
                Err(e) => {
                    return Err(e);
                },
            }
            proof {
                grew_trans(l0, here, out@.text.labels);
            }
            i = i + 1;
        }
        Ok(())
    }

    /// Renders into the buffer and writes it.
    pub(crate) fn print_to(
        &self,
        out: &mut A64Out,
        fd: LocalId,
        steps: &Vec<Step>,
        values: PrintArgs,
        buf: i32,
    ) -> (r: Result<(), CodegenError>)
        requires
            self.ok(),
            old(out).ok(),
            fd.0 < self.env().func.locals@.len(),
            values matches PrintArgs::Local(l) ==> l.0 < self.env().func.locals@.len(),
        ensures
            a64_lowered(
                r,
                final(out)@,
                self.env().print_to(old(out)@, fd, step_views(steps@), values, buf),
            ),
            r is Ok ==> final(out).ok() && grew(old(out)@.text.labels, final(out)@.text.labels),
    {
        let ghost l0 = out@.text.labels;
        proof {
            reveal(A64Func::print_to);
            grew_refl(l0);
        }
        let ghost k90 = out@.text.labels;
        self.lea_home(out, Reg(ADDR), buf);
        proof {
            grew_trans(l0, k90, out@.text.labels);
        }
        let ghost k91 = out@.text.labels;
        match self.print_steps(out, steps, values) {
            Ok(_) => {},
            Err(e) => {
                return Err(e);
            },
        }
        proof {
            grew_trans(l0, k91, out@.text.labels);
        }
        let ghost k92 = out@.text.labels;
        self.lea_home(out, Reg(S2), buf);
        proof {
            grew_trans(l0, k92, out@.text.labels);
        }
        out.text.sub(Reg(S3), Reg(ADDR), Reg(S2));
        let ghost k93 = out@.text.labels;
        self.ld(out, Reg(0), Reg(FP), self.home(fd), MemSize::X);
        proof {
            grew_trans(l0, k93, out@.text.labels);
        }
        out.text.mov_reg(Reg(1), Reg(S2));
        out.text.mov_reg(Reg(2), Reg(S3));
        let ghost k94 = out@.text.labels;
        self.emit_syscall(out, AARCH64_WRITE);
        proof {
            grew_trans(l0, k94, out@.text.labels);
        }
        out.text.mov_imm(Reg(RES), 0);
        Ok(())
    }

    /// Prints by a format string.
    pub(crate) fn print_parsed(
        &self,
        out: &mut A64Out,
        fd: LocalId,
        id: ConstId,
        args: &Vec<Operand>,
    ) -> (r: Result<(), CodegenError>)
        requires
            self.ok(),
            old(out).ok(),
            fd.0 < self.env().func.locals@.len(),
            id.0 < self.env().prog.consts@.len(),
            self.env().has_bytes(id),
            self.env().operands_ok(args@),
        ensures
            a64_lowered(r, final(out)@, self.env().print_parsed(old(out)@, fd, id, args@)),
            r is Ok ==> final(out).ok() && grew(old(out)@.text.labels, final(out)@.text.labels),
    {
        let ghost l0 = out@.text.labels;
        proof {
            reveal(A64Func::print_parsed);
            grew_refl(l0);
        }
        match parse(self.const_bytes(id).as_slice()) {
            Ok(steps) => {
                let values: PrintArgs = self.print_args(args);
                if values == PrintArgs::Other {
                    return Err(self.unsup("print tuple not a bare local"));
                } else {
                    match self.plan.print_buf {
                        Some(buf) => {
                            let ghost k95 = out@.text.labels;
                            match self.print_to(out, fd, &steps, values, buf) {
                                Ok(_) => {},
                                Err(e) => {
                                    return Err(e);
                                },
                            }
                            proof {
                                grew_trans(l0, k95, out@.text.labels);
                            }
                        },
                        None => {
                            return Err(self.unsup("print without a reserved buffer"));
                        },
                    }
                }
            },
            Err(e) => {
                return Err(CodegenError::Unsupported(e));
            },
        }
        Ok(())
    }

    /// Prints.
    pub(crate) fn lower_print(
        &self,
        out: &mut A64Out,
        path: &IntrinsicPath,
        args: &Vec<Operand>,
    ) -> (r: Result<(), CodegenError>)
        requires
            self.ok(),
            old(out).ok(),
            self.env().path_ok(*path),
            self.env().operands_ok(args@),
        ensures
            a64_lowered(r, final(out)@, self.env().lower_print(old(out)@, *path, args@)),
            r is Ok ==> final(out).ok() && grew(old(out)@.text.labels, final(out)@.text.labels),
    {
        let ghost l0 = out@.text.labels;
        proof {
            reveal(A64Func::lower_print);
            grew_refl(l0);
        }
        match self.print_fd_local(path) {
            Some(fd) => {
                match self.format_arg(args) {
                    Some(id) => {
                        if self.has_bytes(id) {
                            let ghost k96 = out@.text.labels;
                            match self.print_parsed(out, fd, id, args) {
                                Ok(_) => {},
                                Err(e) => {
                                    return Err(e);
                                },
                            }
                            proof {
                                grew_trans(l0, k96, out@.text.labels);
                            }
                        } else {
                            return Err(self.unsup("print of a non-byte format const"));
                        }
                    },
                    None => {
                        return Err(self.unsup("print with a non-constant format string"));
                    },
                }
            },
            None => {
                if self.has_receiver(path) {
                    return Err(self.unsup("print receiver not a bare local"));
                } else {
                    return Err(self.unsup("print without a value receiver"));
                }
            },
        }
        Ok(())
    }

    /// Lowers an intrinsic.
    pub(crate) fn lower_intrinsic_into_res(
        &self,
        out: &mut A64Out,
        path: &IntrinsicPath,
        args: &Vec<Operand>,
    ) -> (r: Result<(), CodegenError>)
        requires
            self.ok(),
            old(out).ok(),
            self.env().path_ok(*path),
            self.env().operands_ok(args@),
        ensures
            a64_lowered(
                r,
                final(out)@,
                self.env().lower_intrinsic_into_res(old(out)@, *path, args@),
            ),
            r is Ok ==> final(out).ok() && grew(old(out)@.text.labels, final(out)@.text.labels),
    {
        let ghost l0 = out@.text.labels;
        proof {
            reveal(A64Func::lower_intrinsic_into_res);
            grew_refl(l0);
        }
        match &path.root {
            IntrinsicRoot::Builtin(name) => {
                return Err(self.unsup3("safety/capability builtin @", name.as_str(), ""));
            },
            _ => {
                match intrinsic_op(&path.members) {
                    IntrinsicOp::Stdout => {
                        out.text.mov_imm(Reg(RES), 1);
                    },
                    IntrinsicOp::Stderr => {
                        out.text.mov_imm(Reg(RES), 2);
                    },
                    IntrinsicOp::Print => {
                        let ghost k97 = out@.text.labels;
                        match self.lower_print(out, path, args) {
                            Ok(_) => {},
                            Err(e) => {
                                return Err(e);
                            },
                        }
                        proof {
                            grew_trans(l0, k97, out@.text.labels);
                        }
                    },
                    _ => {
                        let name: String = joined(&path.members);
                        return Err(self.unsup3("intrinsic value.", name.as_str(), ""));
                    },
                }
            },
        }
        Ok(())
    }
}

} // verus!
