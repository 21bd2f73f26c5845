//! Statements, ends of blocks, returns and traps.
use vstd::prelude::*;

use crate::aarch64::encode::{FP, LR, MemSize, Reg, SP};
use crate::aarch64::lower::env::{
    A64Func, A64Low, A64Out, ADDR, ARG_REGS, Aarch64FnLower, PAIR_BELOW, RES, S2, S3, S5,
    a64_lowered,
};
use crate::encode::{Cc, LabelId};
use crate::lower::env::{
    grew, grew_longer, grew_refl, grew_trans, opening_bound, opening_call, opening_done,
    opening_new, opening_start, opening_unbound,
};
use crate::lower::abi::{class_of, classify};
use crate::lower::body::{
    builds_aggregate, error_line, error_line_text, panic_line, panic_line_text,
    rvalue_builds_aggregate,
};
use crate::lower::env::{ArgClass, EntryKind};
use crate::lower::print::PANIC_EXIT;
use crate::lower::scalar::{lo_word, wide_lo};
use crate::lower::values::{rvalue_kind, rvalue_kind_text};
use crate::mir::{
    Block, BlockId, CastKind, Const, LocalId, Operand, Place, Rvalue, Statement, Terminator,
    TrapReason,
};
use crate::target::{AARCH64_EXIT_GROUP, AARCH64_WRITE};
use crate::types::{Type, TypeId};
use crate::CodegenError;
use vstd::utf8::encode_utf8;

verus! {

impl A64Func {
    /// The type by which the result of a computation is built in memory, if it is.
    pub open spec fn effective_agg_ty(self, dst: LocalId, rv: Rvalue) -> Option<TypeId> {
        let ty = self.local_ty(dst);
        if self.in_memory(ty) || (builds_aggregate(rv) && self.ty(ty) is Deferred) {
            Some(ty)
        } else {
            None
        }
    }
}

impl Aarch64FnLower<'_> {
    fn effective_agg_ty(&self, dst: LocalId, rv: &Rvalue) -> (r: Option<TypeId>)
        requires
            self.ok(),
            dst.0 < self.env().func.locals@.len(),
        ensures
            r == self.env().effective_agg_ty(dst, *rv),
            r matches Some(t) ==> self.env().prog.arena.has(t),
    {
        let ty: TypeId = self.local_ty(dst);
        if self.in_memory(ty) {
            return Some(ty);
        }
        if rvalue_builds_aggregate(rv) {
            match self.ty(ty) {
                Type::Deferred => {
                    return Some(ty);
                },
                _ => {},
            }
        }
        None
    }
}

impl A64Func {
    /// Computes a value for its effect alone.
    #[verifier::opaque]
    pub open spec fn lower_rvalue_discard(self, s: A64Low, rvalue: Rvalue) -> A64Low {
        let s = match rvalue {
            Rvalue::Intrinsic { path, args } => {
                let s = self.lower_intrinsic_into_res(s, path, args@);
                s
            },
            Rvalue::Call { .. } => {
                s.fail(self.unsup("a discarded inter-procedure call"@))
            },
            _ => {
                s
            },
        };
        s
    }

    /// Whether a conversion keeps the integer value as far as it fits.
    pub open spec fn extends(self, kind: CastKind) -> bool {
        match kind {
            CastKind::Widen => true,
            CastKind::IntNarrow => true,
            CastKind::PtrReinterpret => true,
            _ => false,
        }
    }

    /// Computes a scalar.
    #[verifier::opaque]
    pub open spec fn lower_scalar_rvalue(self, s: A64Low, dst: LocalId, rvalue: Rvalue) -> A64Low {
        let s = match rvalue {
            Rvalue::Use(op) => {
                let s = self.operand_to(s, op, Reg(RES));
                if s.err is Some {
                    s
                } else {
                    let s = self.normalize(s, Reg(RES), self.local_ty(dst));
                    let s = self.store_scalar(s, dst, Reg(RES));
                    s
                }
            },
            Rvalue::Binary { op, lhs, rhs, ty } => {
                let s = self.eval_binary(s, op, lhs, rhs, ty);
                if s.err is Some {
                    s
                } else {
                    let s = self.store_scalar(s, dst, Reg(RES));
                    s
                }
            },
            Rvalue::Unary { un, operand, ty } => {
                let s = self.lower_unary(s, dst, un, operand, ty);
                s
            },
            Rvalue::Cast { kind, operand, ty } => {
                let s = if self.extends(kind) {
                    let s = self.operand_to(s, operand, Reg(RES));
                    if s.err is Some {
                        s
                    } else {
                        let s = self.normalize(s, Reg(RES), ty);
                        let s = self.store_scalar(s, dst, Reg(RES));
                        s
                    }
                } else {
                    s.fail(self.unsup("scalar rvalue Cast"@))
                };
                s
            },
            Rvalue::Ref { place } => {
                let s = self.place_addr(s, place, (place.proj@.len() as usize), Reg(RES));
                if s.err is Some {
                    s
                } else {
                    let s = self.store_scalar(s, dst, Reg(RES));
                    s
                }
            },
            Rvalue::Intrinsic { path, args } => {
                let s = self.lower_intrinsic_into_res(s, path, args@);
                if s.err is Some {
                    s
                } else {
                    let s = self.store_scalar(s, dst, Reg(RES));
                    s
                }
            },
            Rvalue::MakeNull(_) => {
                let s = s.on(s.text.mov_imm(Reg(RES), 0));
                let s = self.store_scalar(s, dst, Reg(RES));
                s
            },
            Rvalue::MakeSome(op, _) => {
                let s = self.operand_to(s, op, Reg(RES));
                if s.err is Some {
                    s
                } else {
                    let s = self.store_scalar(s, dst, Reg(RES));
                    s
                }
            },
            Rvalue::Aggregate { fields, .. } => {
                let s = if fields.len() == 0 {
                    let s = s.on(s.text.mov_imm(Reg(RES), 0));
                    let s = self.store_scalar(s, dst, Reg(RES));
                    s
                } else {
                    s.fail(self.unsup("scalar rvalue Aggregate"@))
                };
                s
            },
            Rvalue::Discriminant { operand, of } => {
                let s = self.lower_discriminant(s, dst, operand, of);
                s
            },
            _ => {
                s.fail(self.unsup3("scalar rvalue "@, rvalue_kind_text(rvalue), ""@))
            },
        };
        s
    }

    /// Computes a value into a local.
    #[verifier::opaque]
    pub open spec fn lower_rvalue(self, s: A64Low, dst: LocalId, rvalue: Rvalue) -> A64Low {
        let s = match self.effective_agg_ty(dst, rvalue) {
            Some(ty) => {
                let s = self.lower_aggregate_rvalue(s, dst, rvalue, ty);
                s
            },
            None => {
                let s = if self.is_wide_int(self.local_ty(dst)) {
                    let s = self.lower_wide_rvalue(s, dst, rvalue);
                    s
                } else {
                    let s = self.lower_scalar_rvalue(s, dst, rvalue);
                    s
                };
                s
            },
        };
        s
    }

    /// Copies an aggregate into a part of a local.
    #[verifier::opaque]
    pub open spec fn aggregate_to_place(
        self,
        s: A64Low,
        place: Place,
        rvalue: Rvalue,
        ty: TypeId,
    ) -> A64Low {
        let s = match rvalue {
            Rvalue::Use(op) => {
                let s = match op {
                    Operand::Copy(p) => {
                        let s = self.place_addr(s, p, (p.proj@.len() as usize), Reg(RES));
                        if s.err is Some {
                            s
                        } else {
                            let s = self.place_addr(
                                s,
                                place,
                                (place.proj@.len() as usize),
                                Reg(ADDR),
                            );
                            if s.err is Some {
                                s
                            } else {
                                let s = self.memcpy(s, Reg(ADDR), Reg(RES), self.layout(ty).size);
                                s
                            }
                        }
                    },
                    Operand::Const(_) => {
                        s.fail(self.unsup("an aggregate rvalue into a projected place"@))
                    },
                };
                s
            },
            _ => {
                s.fail(self.unsup("an aggregate rvalue into a projected place"@))
            },
        };
        s
    }

    /// Computes a scalar for a part of a local.
    #[verifier::opaque]
    pub open spec fn scalar_for_place(self, s: A64Low, rvalue: Rvalue, ty: TypeId) -> A64Low {
        let s = match rvalue {
            Rvalue::Use(op) => {
                let s = self.operand_to(s, op, Reg(RES));
                if s.err is Some {
                    s
                } else {
                    let s = self.normalize(s, Reg(RES), ty);
                    s
                }
            },
            Rvalue::Binary { op, lhs, rhs, ty: bty } => {
                let s = self.eval_binary(s, op, lhs, rhs, bty);
                s
            },
            Rvalue::Ref { place } => {
                let s = self.place_addr(s, place, (place.proj@.len() as usize), Reg(RES));
                s
            },
            _ => {
                s.fail(self.unsup3("rvalue "@, rvalue_kind_text(rvalue), " into a place"@))
            },
        };
        s
    }

    /// Computes a value into a part of a local.
    #[verifier::opaque]
    pub open spec fn lower_rvalue_to_place(
        self,
        s: A64Low,
        place: Place,
        rvalue: Rvalue,
    ) -> A64Low {
        let ty = self.place_type(place);
        let s = if self.in_memory(ty) {
            let s = self.aggregate_to_place(s, place, rvalue, ty);
            s
        } else {
            let s = self.scalar_for_place(s, rvalue, ty);
            if s.err is Some {
                s
            } else {
                let s = self.place_addr(s, place, (place.proj@.len() as usize), Reg(ADDR));
                if s.err is Some {
                    s
                } else {
                    let s = self.store_sized(s, Reg(ADDR), 0, Reg(RES), ty);
                    s
                }
            }
        };
        s
    }

    /// Lowers a statement.
    #[verifier::opaque]
    pub open spec fn lower_stmt(self, s: A64Low, stmt: Statement) -> A64Low {
        let s = match stmt {
            Statement::Assign { place, rvalue } => {
                let s = if place.proj@.len() == 0 {
                    let s = self.lower_rvalue(s, place.base, rvalue);
                    s
                } else {
                    let s = self.lower_rvalue_to_place(s, place, rvalue);
                    s
                };
                s
            },
            Statement::Eval { rvalue } => {
                let s = self.lower_rvalue_discard(s, rvalue);
                s
            },
            _ => {
                s
            },
        };
        s
    }

    /// Lowers the statements of a block.
    pub open spec fn lower_stmts(self, s: A64Low, b: Block) -> A64Low {
        self.lower_stmts_from(s, b, 0)
    }

    /// The same from the `i`-th on.
    pub open spec fn lower_stmts_from(self, s: A64Low, b: Block, i: int) -> A64Low
        decreases b.stmts@.len() - i,
    {
        if i < 0 || i >= b.stmts@.len() {
            s
        } else {
            let k = i as usize;
            let s = self.lower_stmt(s, b.stmts[i]);
            if s.err is Some {
                s
            } else {
                self.lower_stmts_from(s, b, i + 1)
            }
        }
    }

    /// Takes down the frame and returns.
    #[verifier::opaque]
    pub open spec fn epilogue_and_ret(self, s: A64Low) -> A64Low {
        let s = s.on(s.text.mov_sp(Reg(SP), Reg(FP)));
        let s = s.on(s.text.ldp_post(Reg(FP), Reg(LR), Reg(SP), 16));
        let s = s.on(s.text.ret());
        s
    }

    /// Writes a string to the standard error.
    #[verifier::opaque]
    pub open spec fn write_text(self, s: A64Low, text: Seq<char>) -> A64Low {
        let off = s.ro.offset_of(encode_utf8(text));
        let s = s.with_data(encode_utf8(text));
        let n = encode_utf8(text).len() as i64;
        let s = s.on(s.text.mov_imm(Reg(0), 2));
        let s = s.on(s.text.mov_imm_data(Reg(1), off));
        let s = s.on(s.text.mov_imm(Reg(2), n));
        let s = self.emit_syscall(s, AARCH64_WRITE);
        s
    }

    /// Exits.
    #[verifier::opaque]
    pub open spec fn exit_with(self, s: A64Low, code: i64) -> A64Low {
        let s = s.on(s.text.mov_imm(Reg(0), code));
        let s = self.emit_syscall(s, AARCH64_EXIT_GROUP);
        s
    }

    /// Writes the line for an error.
    #[verifier::opaque]
    pub open spec fn write_error_line(self, s: A64Low, name: Seq<char>) -> A64Low {
        let line = error_line_text(name);
        let s = self.write_text(s, line);
        s
    }

    /// Writes the line for the `i`-th error.
    #[verifier::opaque]
    pub open spec fn write_error_at(self, s: A64Low, i: usize) -> A64Low {
        let s = self.write_error_line(s, self.prog.err_names@[i as int].1@);
        s
    }

    /// The tag of the `i`-th error.
    pub open spec fn tag_word(self, i: usize) -> i64 {
        self.prog.err_names@[i as int].0.0 as i64
    }

    /// Writes the line for the `i`-th error, if its tag was loaded.
    #[verifier::opaque]
    pub open spec fn escaped_case(self, s: A64Low, done: LabelId, i: usize) -> A64Low {
        let next = s.text.fresh();
        let s = s.on(s.text.new_label());
        let s = s.on(s.text.mov_imm(Reg(S2), self.tag_word(i)));
        let s = s.on(s.text.cmp(Reg(S5), Reg(S2)));
        let s = s.on(s.text.bcc(Cc::Ne, next));
        let s = self.write_error_at(s, i);
        let s = s.on(s.text.b(done));
        let s = s.on(s.text.bind(next));
        s
    }

    /// Writes the line for the error whose tag is in `rbx`.
    pub open spec fn escaped_cases(self, s: A64Low, done: LabelId) -> A64Low {
        self.escaped_cases_from(s, done, 0)
    }

    /// The same from the `i`-th on.
    pub open spec fn escaped_cases_from(self, s: A64Low, done: LabelId, i: int) -> A64Low
        decreases self.prog.err_names@.len() - i,
    {
        if i < 0 || i >= self.prog.err_names@.len() {
            s
        } else {
            let k = i as usize;
            let s = self.escaped_case(s, done, k);
            self.escaped_cases_from(s, done, i + 1)
        }
    }

    /// The tag of an error constant.
    pub open spec fn static_tag(self, value: Operand) -> Option<u16> {
        match value {
            Operand::Copy(_) => None,
            Operand::Const(c) => match c {
                Const::ErrVal { tag, .. } => Some(tag.0),
                _ => None,
            },
        }
    }

    /// Loads the tag of an error that leaves the entry.
    #[verifier::opaque]
    pub open spec fn escaped_tag(self, s: A64Low, value: Operand) -> A64Low {
        let s = match value {
            Operand::Copy(p) => {
                let s = self.place_addr(s, p, (p.proj@.len() as usize), Reg(ADDR));
                if s.err is Some {
                    s
                } else {
                    let s = s.on(s.text.load(Reg(S5), Reg(ADDR), 0, MemSize::H));
                    s
                }
            },
            Operand::Const(_) => {
                let s = s.on(s.text.mov_imm(Reg(S5), 0));
                s
            },
        };
        s
    }

    /// Reports an error that leaves the entry and exits.
    #[verifier::opaque]
    pub open spec fn lower_escaped_error(self, s: A64Low, value: Operand) -> A64Low {
        let s = match self.static_tag(value) {
            Some(tag) => {
                let name = self.error_name(tag);
                let s = self.write_error_line(s, name);
                let s = self.exit_with(s, 1);
                s
            },
            None => {
                let s = self.escaped_tag(s, value);
                if s.err is Some {
                    s
                } else {
                    let done = s.text.fresh();
                    let s = s.on(s.text.new_label());
                    let s = self.escaped_cases(s, done);
                    let s = self.write_error_line(s, "error"@);
                    let s = s.on(s.text.bind(done));
                    let s = self.exit_with(s, 1);
                    s
                }
            },
        };
        s
    }

    /// Whether a type is an error set.
    pub open spec fn is_error_type(self, ty: TypeId) -> bool {
        match self.ty(ty) {
            Type::ErrorSet(_) => true,
            Type::AnyError => true,
            _ => false,
        }
    }

    /// Whether a returned value may be an error.
    pub open spec fn returns_error(self, value: Operand) -> bool {
        match value {
            Operand::Copy(p) => p.proj@.len() == 0 && (self.is_error_union(
                self.local_ty(p.base),
            ) || self.is_error_type(self.local_ty(p.base))),
            Operand::Const(c) => match c {
                Const::ErrVal { .. } => true,
                _ => false,
            },
        }
    }

    /// Puts a returned value where the caller finds it.
    #[verifier::opaque]
    pub open spec fn lower_helper_return(self, s: A64Low, value: Operand) -> A64Low {
        let ty = self.func.ret;
        let s = if self.is_float(ty) {
            s.fail(self.unsup("an f64 helper return"@))
        } else if self.in_memory(ty) {
            s.fail(self.unsup("an aggregate helper return"@))
        } else {
            let s = self.operand_to(s, value, Reg(0));
            if s.err is Some {
                s
            } else {
                let s = self.normalize(s, Reg(0), ty);
                s
            }
        };
        s
    }

    /// Returns.
    #[verifier::opaque]
    pub open spec fn lower_return(self, s: A64Low, value: Operand) -> A64Low {
        let s = if self.kind == EntryKind::VoidEntry && self.returns_error(value) {
            let s = self.lower_escaped_error(s, value);
            s
        } else {
            let s = match self.kind {
                EntryKind::VoidEntry => {
                    let s = s.on(s.text.mov_imm(Reg(0), 0));
                    s
                },
                EntryKind::IntEntry => {
                    let s = self.operand_to(s, value, Reg(0));
                    if s.err is Some {
                        s
                    } else {
                        let s = self.normalize(s, Reg(0), self.func.ret);
                        s
                    }
                },
                EntryKind::Helper => {
                    let s = self.lower_helper_return(s, value);
                    s
                },
            };
            if s.err is Some {
                s
            } else {
                let s = self.epilogue_and_ret(s);
                s
            }
        };
        s
    }

    /// Stops the program with a message.
    #[verifier::opaque]
    pub open spec fn lower_trap(self, s: A64Low, reason: TrapReason) -> A64Low {
        let line = panic_line_text(reason);
        let s = self.write_text(s, line);
        let s = self.exit_with(s, PANIC_EXIT);
        s
    }

    /// Loads what a switch tests.
    #[verifier::opaque]
    pub open spec fn load_switch_scrutinee(self, s: A64Low, op: Operand) -> A64Low {
        let s = match op {
            Operand::Copy(p) => {
                let s = if self.operand_is_error_union(op) {
                    let s = self.place_addr(s, p, (p.proj@.len() as usize), Reg(ADDR));
                    if s.err is Some {
                        s
                    } else {
                        let s = s.on(s.text.load(Reg(RES), Reg(ADDR), 0, MemSize::H));
                        s
                    }
                } else {
                    let s = self.operand_to(s, op, Reg(RES));
                    s
                };
                s
            },
            Operand::Const(_) => {
                let s = self.operand_to(s, op, Reg(RES));
                s
            },
        };
        s
    }

    /// Branches to a block, if the result register holds a value.
    #[verifier::opaque]
    pub open spec fn switch_case(self, s: A64Low, value: i128, target: BlockId) -> A64Low {
        let s = s.on(s.text.mov_imm(Reg(S2), wide_lo(value)));
        let s = s.on(s.text.cmp(Reg(RES), Reg(S2)));
        let s = s.on(s.text.bcc(Cc::E, LabelId(target.0)));
        s
    }

    /// Jumps to the block for the value in `rax`.
    pub open spec fn switch_cases(self, s: A64Low, targets: Seq<(i128, BlockId)>) -> A64Low {
        self.switch_cases_from(s, targets, 0)
    }

    /// The same from the `i`-th on.
    pub open spec fn switch_cases_from(
        self,
        s: A64Low,
        targets: Seq<(i128, BlockId)>,
        i: int,
    ) -> A64Low
        decreases targets.len() - i,
    {
        if i < 0 || i >= targets.len() {
            s
        } else {
            let k = i as usize;
            let s = self.switch_case(s, targets[i].0, targets[i].1);
            self.switch_cases_from(s, targets, i + 1)
        }
    }

    /// Lowers the end of a block.
    #[verifier::opaque]
    pub open spec fn lower_terminator(self, s: A64Low, term: Terminator) -> A64Low {
        let s = match term {
            Terminator::Goto(t) => {
                let s = s.on(s.text.b(LabelId(t.0)));
                s
            },
            Terminator::Branch { cond, then_bb, else_bb } => {
                let s = self.operand_to(s, cond, Reg(RES));
                if s.err is Some {
                    s
                } else {
                    let s = s.on(s.text.cmp_imm(Reg(RES), 0));
                    let s = s.on(s.text.bcc(Cc::Ne, LabelId(then_bb.0)));
                    let s = s.on(s.text.b(LabelId(else_bb.0)));
                    s
                }
            },
            Terminator::Switch { scrutinee, targets, default } => {
                let s = self.load_switch_scrutinee(s, scrutinee);
                if s.err is Some {
                    s
                } else {
                    let s = self.switch_cases(s, targets@);
                    let s = s.on(s.text.b(LabelId(default.0)));
                    s
                }
            },
            Terminator::Return { value } => {
                let s = self.lower_return(s, value);
                s
            },
            Terminator::Trap { reason } => {
                let s = self.lower_trap(s, reason);
                s
            },
            Terminator::Unreachable => {
                let s = self.lower_trap(s, TrapReason::Unreachable);
                s
            },
        };
        s
    }

    /// Lowers a block behind its label.
    #[verifier::opaque]
    pub open spec fn lower_block_body(self, s: A64Low, b: Block) -> A64Low {
        let s = self.lower_stmts(s, b);
        if s.err is Some {
            s
        } else {
            let s = self.lower_terminator(s, b.term);
            s
        }
    }

    /// Lowers the stack pointer.
    #[verifier::opaque]
    pub open spec fn emit_sp_sub(self, s: A64Low, n: i32) -> A64Low {
        let s = if n <= 0xFFF {
            let s = s.on(s.text.sub_imm(Reg(SP), Reg(SP), n as u32));
            s
        } else {
            let s = s.on(s.text.mov_imm(Reg(S3), n as u32 as i64));
            let s = s.on(s.text.sub_ext(Reg(SP), Reg(SP), Reg(S3)));
            s
        };
        s
    }

    /// The integer registers taken after a parameter.
    pub open spec fn param_next(self, param: LocalId, c: usize) -> usize {
        match class_of(self.prog, self.local_ty(param)) {
            ArgClass::OneInt => if c < ARG_REGS {
                (c + 1) as usize
            } else {
                c
            },
            ArgClass::TwoInt => if c < ARG_REGS - 1 {
                (c + 2) as usize
            } else {
                c
            },
            _ => c,
        }
    }

    /// Stores a parameter in its home.
    #[verifier::opaque]
    pub open spec fn lower_param(self, s: A64Low, param: LocalId, c: usize) -> A64Low {
        let ty = self.local_ty(param);
        let h = self.home(param);
        let s = match class_of(self.prog, ty) {
            ArgClass::OneInt => {
                let s = if c < ARG_REGS {
                    let s = self.store_sized(s, Reg(FP), h, Reg(c as u8), ty);
                    s
                } else {
                    s.fail(self.unsup("a stack-passed parameter"@))
                };
                s
            },
            ArgClass::TwoInt => {
                let s = if c < ARG_REGS - 1 {
                    let s = self.store_pair(s, h, Reg(c as u8), Reg((c + 1) as u8));
                    s
                } else {
                    s.fail(self.unsup("a stack-passed aggregate parameter"@))
                };
                s
            },
            _ => {
                s.fail(self.unsup("a float / memory-class parameter"@))
            },
        };
        s
    }

    /// Stores the parameters in their homes.
    pub open spec fn lower_prologue_params(self, s: A64Low) -> A64Low {
        self.lower_prologue_params_from(s, 0, 0)
    }

    /// The same from the `i`-th on.
    pub open spec fn lower_prologue_params_from(self, s: A64Low, i: int, c: usize) -> A64Low
        decreases self.func.params@.len() - i,
    {
        if i < 0 || i >= self.func.params@.len() {
            s
        } else {
            let k = i as usize;
            let s = self.lower_param(s, self.func.params[i], c);
            if s.err is Some {
                s
            } else {
                self.lower_prologue_params_from(s, i + 1, self.param_next(self.func.params[i], c))
            }
        }
    }

    /// Lowers the entry of a function: its frame and parameters.
    #[verifier::opaque]
    pub open spec fn lower_entry(self, s: A64Low) -> A64Low {
        let s = s.on(s.text.stp_pre(Reg(FP), Reg(LR), Reg(SP), PAIR_BELOW));
        let s = s.on(s.text.mov_sp(Reg(FP), Reg(SP)));
        let s = if self.plan.frame_size > 0 {
            let s = self.emit_sp_sub(s, self.plan.frame_size);
            s
        } else {
            s
        };
        let s = self.lower_prologue_params(s);
        s
    }
}

impl Aarch64FnLower<'_> {
    /// Computes a value for its effect alone.
    pub(crate) fn lower_rvalue_discard(
        &self,
        out: &mut A64Out,
        rvalue: &Rvalue,
    ) -> (r: Result<(), CodegenError>)
        requires
            self.ok(),
            old(out).ok(),
            self.env().rvalue_ok(*rvalue),
        ensures
            a64_lowered(r, final(out)@, self.env().lower_rvalue_discard(old(out)@, *rvalue)),
            r is Ok ==> final(out).ok() && grew(old(out)@.text.labels, final(out)@.text.labels),
    {
        let ghost l0 = out@.text.labels;
        proof {
            reveal(A64Func::lower_rvalue_discard);
            grew_refl(l0);
        }
        match rvalue {
            Rvalue::Intrinsic { path, args } => {
                let ghost k1 = out@.text.labels;
                match self.lower_intrinsic_into_res(out, path, args) {
                    Ok(_) => {},
                    Err(e) => {
                        return Err(e);
                    },
                }
                proof {
                    grew_trans(l0, k1, out@.text.labels);
                }
            },
            Rvalue::Call { .. } => {
                return Err(self.unsup("a discarded inter-procedure call"));
            },
            _ => {},
        }
        Ok(())
    }

    /// Whether a conversion keeps the integer value as far as it fits.
    pub(crate) fn extends(&self, kind: CastKind) -> (r: bool)
        requires
            self.ok(),
        ensures
            r == self.env().extends(kind),
    {
        match kind {
            CastKind::Widen => true,
            CastKind::IntNarrow => true,
            CastKind::PtrReinterpret => true,
            _ => false,
        }
    }

    /// Computes a scalar.
    pub(crate) fn lower_scalar_rvalue(
        &self,
        out: &mut A64Out,
        dst: LocalId,
        rvalue: &Rvalue,
    ) -> (r: Result<(), CodegenError>)
        requires
            self.ok(),
            old(out).ok(),
            dst.0 < self.env().func.locals@.len(),
            self.env().rvalue_ok(*rvalue),
        ensures
            a64_lowered(r, final(out)@, self.env().lower_scalar_rvalue(old(out)@, dst, *rvalue)),
            r is Ok ==> final(out).ok() && grew(old(out)@.text.labels, final(out)@.text.labels),
    {
        let ghost l0 = out@.text.labels;
        proof {
            reveal(A64Func::lower_scalar_rvalue);
            grew_refl(l0);
        }
        match rvalue {
            Rvalue::Use(op) => {
                let ghost k2 = out@.text.labels;
                match self.operand_to(out, op, Reg(RES)) {
                    Ok(_) => {},
                    Err(e) => {
                        return Err(e);
                    },
                }
                proof {
                    grew_trans(l0, k2, out@.text.labels);
                }
                let ghost k3 = out@.text.labels;
                self.normalize(out, Reg(RES), self.local_ty(dst));
                proof {
                    grew_trans(l0, k3, out@.text.labels);
                }
                let ghost k4 = out@.text.labels;
                self.store_scalar(out, dst, Reg(RES));
                proof {
                    grew_trans(l0, k4, out@.text.labels);
                }
            },
            Rvalue::Binary { op, lhs, rhs, ty } => {
                let ghost k5 = out@.text.labels;
                match self.eval_binary(out, *op, lhs, rhs, *ty) {
                    Ok(_) => {},
                    Err(e) => {
                        return Err(e);
                    },
                }
                proof {
                    grew_trans(l0, k5, out@.text.labels);
                }
                let ghost k6 = out@.text.labels;
                self.store_scalar(out, dst, Reg(RES));
                proof {
                    grew_trans(l0, k6, out@.text.labels);
                }
            },
            Rvalue::Unary { un, operand, ty } => {
                let ghost k7 = out@.text.labels;
                match self.lower_unary(out, dst, *un, operand, *ty) {
                    Ok(_) => {},
                    Err(e) => {
                        return Err(e);
                    },
                }
                proof {
                    grew_trans(l0, k7, out@.text.labels);
                }
            },
            Rvalue::Cast { kind, operand, ty } => {
                if self.extends(*kind) {
                    let ghost k8 = out@.text.labels;
                    match self.operand_to(out, operand, Reg(RES)) {
                        Ok(_) => {},
                        Err(e) => {
                            return Err(e);
                        },
                    }
                    proof {
                        grew_trans(l0, k8, out@.text.labels);
                    }
                    let ghost k9 = out@.text.labels;
                    self.normalize(out, Reg(RES), *ty);
                    proof {
                        grew_trans(l0, k9, out@.text.labels);
                    }
                    let ghost k10 = out@.text.labels;
                    self.store_scalar(out, dst, Reg(RES));
                    proof {
                        grew_trans(l0, k10, out@.text.labels);
                    }
                } else {
                    return Err(self.unsup("scalar rvalue Cast"));
                }
            },
            Rvalue::Ref { place } => {
                let ghost k11 = out@.text.labels;
                match self.place_addr(out, place, place.proj.len(), Reg(RES)) {
                    Ok(_) => {},
                    Err(e) => {
                        return Err(e);
                    },
                }
                proof {
                    grew_trans(l0, k11, out@.text.labels);
                }
                let ghost k12 = out@.text.labels;
                self.store_scalar(out, dst, Reg(RES));
                proof {
                    grew_trans(l0, k12, out@.text.labels);
                }
            },
            Rvalue::Intrinsic { path, args } => {
                let ghost k13 = out@.text.labels;
                match self.lower_intrinsic_into_res(out, path, args) {
                    Ok(_) => {},
                    Err(e) => {
                        return Err(e);
                    },
                }
                proof {
                    grew_trans(l0, k13, out@.text.labels);
                }
                let ghost k14 = out@.text.labels;
                self.store_scalar(out, dst, Reg(RES));
                proof {
                    grew_trans(l0, k14, out@.text.labels);
                }
            },
            Rvalue::MakeNull(_) => {
                out.text.mov_imm(Reg(RES), 0);
                let ghost k15 = out@.text.labels;
                self.store_scalar(out, dst, Reg(RES));
                proof {
                    grew_trans(l0, k15, out@.text.labels);
                }
            },
            Rvalue::MakeSome(op, _) => {
                let ghost k16 = out@.text.labels;
                match self.operand_to(out, op, Reg(RES)) {
                    Ok(_) => {},
                    Err(e) => {
                        return Err(e);
                    },
                }
                proof {
                    grew_trans(l0, k16, out@.text.labels);
                }
                let ghost k17 = out@.text.labels;
                self.store_scalar(out, dst, Reg(RES));
                proof {
                    grew_trans(l0, k17, out@.text.labels);
                }
            },
            Rvalue::Aggregate { fields, .. } => {
                if fields.len() == 0 {
                    out.text.mov_imm(Reg(RES), 0);
                    let ghost k18 = out@.text.labels;
                    self.store_scalar(out, dst, Reg(RES));
                    proof {
                        grew_trans(l0, k18, out@.text.labels);
                    }
                } else {
                    return Err(self.unsup("scalar rvalue Aggregate"));
                }
            },
            Rvalue::Discriminant { operand, of } => {
                let ghost k19 = out@.text.labels;
                match self.lower_discriminant(out, dst, operand, *of) {
                    Ok(_) => {},
                    Err(e) => {
                        return Err(e);
                    },
                }
                proof {
                    grew_trans(l0, k19, out@.text.labels);
                }
            },
            _ => {
                return Err(self.unsup3("scalar rvalue ", rvalue_kind(rvalue), ""));
            },
        }
        Ok(())
    }

    /// Computes a value into a local.
    pub(crate) fn lower_rvalue(
        &self,
        out: &mut A64Out,
        dst: LocalId,
        rvalue: &Rvalue,
    ) -> (r: Result<(), CodegenError>)
        requires
            self.ok(),
            old(out).ok(),
            dst.0 < self.env().func.locals@.len(),
            self.env().rvalue_ok(*rvalue),
        ensures
            a64_lowered(r, final(out)@, self.env().lower_rvalue(old(out)@, dst, *rvalue)),
            r is Ok ==> final(out).ok() && grew(old(out)@.text.labels, final(out)@.text.labels),
    {
        let ghost l0 = out@.text.labels;
        proof {
            reveal(A64Func::lower_rvalue);
            grew_refl(l0);
        }
        match self.effective_agg_ty(dst, rvalue) {
            Some(ty) => {
                let ghost k20 = out@.text.labels;
                match self.lower_aggregate_rvalue(out, dst, rvalue, ty) {
                    Ok(_) => {},
                    Err(e) => {
                        return Err(e);
                    },
                }
                proof {
                    grew_trans(l0, k20, out@.text.labels);
                }
            },
            None => {
                if self.is_wide_int(self.local_ty(dst)) {
                    let ghost k21 = out@.text.labels;
                    match self.lower_wide_rvalue(out, dst, rvalue) {
                        Ok(_) => {},
                        Err(e) => {
                            return Err(e);
                        },
                    }
                    proof {
                        grew_trans(l0, k21, out@.text.labels);
                    }
                } else {
                    let ghost k22 = out@.text.labels;
                    match self.lower_scalar_rvalue(out, dst, rvalue) {
                        Ok(_) => {},
                        Err(e) => {
                            return Err(e);
                        },
                    }
                    proof {
                        grew_trans(l0, k22, out@.text.labels);
                    }
                }
            },
        }
        Ok(())
    }

    /// Copies an aggregate into a part of a local.
    pub(crate) fn aggregate_to_place(
        &self,
        out: &mut A64Out,
        place: &Place,
        rvalue: &Rvalue,
        ty: TypeId,
    ) -> (r: Result<(), CodegenError>)
        requires
            self.ok(),
            old(out).ok(),
            self.env().place_ok(*place),
            self.env().rvalue_ok(*rvalue),
            self.env().prog.arena.has(ty),
        ensures
            a64_lowered(
                r,
                final(out)@,
                self.env().aggregate_to_place(old(out)@, *place, *rvalue, ty),
            ),
            r is Ok ==> final(out).ok() && grew(old(out)@.text.labels, final(out)@.text.labels),
    {
        let ghost l0 = out@.text.labels;
        proof {
            reveal(A64Func::aggregate_to_place);
            grew_refl(l0);
        }
        match rvalue {
            Rvalue::Use(op) => {
                match op {
                    Operand::Copy(p) => {
                        let ghost k23 = out@.text.labels;
                        match self.place_addr(out, p, p.proj.len(), Reg(RES)) {
                            Ok(_) => {},
                            Err(e) => {
                                return Err(e);
                            },
                        }
                        proof {
                            grew_trans(l0, k23, out@.text.labels);
                        }
                        let ghost k24 = out@.text.labels;
                        match self.place_addr(out, place, place.proj.len(), Reg(ADDR)) {
                            Ok(_) => {},
                            Err(e) => {
                                return Err(e);
                            },
                        }
                        proof {
                            grew_trans(l0, k24, out@.text.labels);
                        }
                        let ghost k25 = out@.text.labels;
                        self.memcpy(out, Reg(ADDR), Reg(RES), self.layout(ty).size);
                        proof {
                            grew_trans(l0, k25, out@.text.labels);
                        }
                    },
                    Operand::Const(_) => {
                        return Err(self.unsup("an aggregate rvalue into a projected place"));
                    },
                }
            },
            _ => {
                return Err(self.unsup("an aggregate rvalue into a projected place"));
            },
        }
        Ok(())
    }

    /// Computes a scalar for a part of a local.
    pub(crate) fn scalar_for_place(
        &self,
        out: &mut A64Out,
        rvalue: &Rvalue,
        ty: TypeId,
    ) -> (r: Result<(), CodegenError>)
        requires
            self.ok(),
            old(out).ok(),
            self.env().rvalue_ok(*rvalue),
            self.env().prog.arena.has(ty),
        ensures
            a64_lowered(r, final(out)@, self.env().scalar_for_place(old(out)@, *rvalue, ty)),
            r is Ok ==> final(out).ok() && grew(old(out)@.text.labels, final(out)@.text.labels),
    {
        let ghost l0 = out@.text.labels;
        proof {
            reveal(A64Func::scalar_for_place);
            grew_refl(l0);
        }
        match rvalue {
            Rvalue::Use(op) => {
                let ghost k26 = out@.text.labels;
                match self.operand_to(out, op, Reg(RES)) {
                    Ok(_) => {},
                    Err(e) => {
                        return Err(e);
                    },
                }
                proof {
                    grew_trans(l0, k26, out@.text.labels);
                }
                let ghost k27 = out@.text.labels;
                self.normalize(out, Reg(RES), ty);
                proof {
                    grew_trans(l0, k27, out@.text.labels);
                }
            },
            Rvalue::Binary { op, lhs, rhs, ty: bty } => {
                let ghost k28 = out@.text.labels;
                match self.eval_binary(out, *op, lhs, rhs, *bty) {
                    Ok(_) => {},
                    Err(e) => {
                        return Err(e);
                    },
                }
                proof {
                    grew_trans(l0, k28, out@.text.labels);
                }
            },
            Rvalue::Ref { place } => {
                let ghost k29 = out@.text.labels;
                match self.place_addr(out, place, place.proj.len(), Reg(RES)) {
                    Ok(_) => {},
                    Err(e) => {
                        return Err(e);
                    },
                }
                proof {
                    grew_trans(l0, k29, out@.text.labels);
                }
            },
            _ => {
                return Err(self.unsup3("rvalue ", rvalue_kind(rvalue), " into a place"));
            },
        }
        Ok(())
    }

    /// Computes a value into a part of a local.
    pub(crate) fn lower_rvalue_to_place(
        &self,
        out: &mut A64Out,
        place: &Place,
        rvalue: &Rvalue,
    ) -> (r: Result<(), CodegenError>)
        requires
            self.ok(),
            old(out).ok(),
            self.env().place_ok(*place),
            self.env().rvalue_ok(*rvalue),
        ensures
            a64_lowered(
                r,
                final(out)@,
                self.env().lower_rvalue_to_place(old(out)@, *place, *rvalue),
            ),
            r is Ok ==> final(out).ok() && grew(old(out)@.text.labels, final(out)@.text.labels),
    {
        let ghost l0 = out@.text.labels;
        proof {
            reveal(A64Func::lower_rvalue_to_place);
            grew_refl(l0);
        }
        let ty: TypeId = self.place_type(place);
        if self.in_memory(ty) {
            let ghost k30 = out@.text.labels;
            match self.aggregate_to_place(out, place, rvalue, ty) {
                Ok(_) => {},
                Err(e) => {
                    return Err(e);
                },
            }
            proof {
                grew_trans(l0, k30, out@.text.labels);
            }
        } else {
            let ghost k31 = out@.text.labels;
            match self.scalar_for_place(out, rvalue, ty) {
                Ok(_) => {},
                Err(e) => {
                    return Err(e);
                },
            }
            proof {
                grew_trans(l0, k31, out@.text.labels);
            }
            let ghost k32 = out@.text.labels;
            match self.place_addr(out, place, place.proj.len(), Reg(ADDR)) {
                Ok(_) => {},
                Err(e) => {
                    return Err(e);
                },
            }
            proof {
                grew_trans(l0, k32, out@.text.labels);
            }
            let ghost k33 = out@.text.labels;
            self.store_sized(out, Reg(ADDR), 0, Reg(RES), ty);
            proof {
                grew_trans(l0, k33, out@.text.labels);
            }
        }
        Ok(())
    }

    /// Lowers a statement.
    pub(crate) fn lower_stmt(
        &self,
        out: &mut A64Out,
        stmt: &Statement,
    ) -> (r: Result<(), CodegenError>)
        requires
            self.ok(),
            old(out).ok(),
            self.env().stmt_ok(*stmt),
        ensures
            a64_lowered(r, final(out)@, self.env().lower_stmt(old(out)@, *stmt)),
            r is Ok ==> final(out).ok() && grew(old(out)@.text.labels, final(out)@.text.labels),
    {
        let ghost l0 = out@.text.labels;
        proof {
            reveal(A64Func::lower_stmt);
            grew_refl(l0);
        }
        match stmt {
            Statement::Assign { place, rvalue } => {
                if place.proj.len() == 0 {
                    let ghost k34 = out@.text.labels;
                    match self.lower_rvalue(out, place.base, rvalue) {
                        Ok(_) => {},
                        Err(e) => {
                            return Err(e);
                        },
                    }
                    proof {
                        grew_trans(l0, k34, out@.text.labels);
                    }
                } else {
                    let ghost k35 = out@.text.labels;
                    match self.lower_rvalue_to_place(out, place, rvalue) {
                        Ok(_) => {},
                        Err(e) => {
                            return Err(e);
                        },
                    }
                    proof {
                        grew_trans(l0, k35, out@.text.labels);
                    }
                }
            },
            Statement::Eval { rvalue } => {
                let ghost k36 = out@.text.labels;
                match self.lower_rvalue_discard(out, rvalue) {
                    Ok(_) => {},
                    Err(e) => {
                        return Err(e);
                    },
                }
                proof {
                    grew_trans(l0, k36, out@.text.labels);
                }
            },
            _ => {},
        }
        Ok(())
    }

    /// Lowers the statements of a block.
    pub(crate) fn lower_stmts(&self, out: &mut A64Out, b: &Block) -> (r: Result<(), CodegenError>)
        requires
            self.ok(),
            old(out).ok(),
            self.env().block_ok(*b),
        ensures
            a64_lowered(r, final(out)@, self.env().lower_stmts(old(out)@, *b)),
            r is Ok ==> final(out).ok() && grew(old(out)@.text.labels, final(out)@.text.labels),
    {
        let ghost l0 = out@.text.labels;
        let ghost want = self.env().lower_stmts(out@, *b);
        proof {
            grew_refl(l0);
        }
        let mut i: usize = 0;
        while i < b.stmts.len()
            invariant
                self.ok(),
                out.ok(),
                self.env().block_ok(*b),
                i <= b.stmts@.len(),
                grew(l0, out@.text.labels),
                l0 == old(out)@.text.labels,
                want == self.env().lower_stmts(old(out)@, *b),
                want == self.env().lower_stmts_from(out@, *b, i as int),
            decreases b.stmts@.len() - i,
        {
            assert(self.env().stmt_ok(b.stmts@[i as int]));
            let ghost here = out@.text.labels;
            match self.lower_stmt(out, &b.stmts[i]) {
                Ok(_) => {},
                Err(e) => {
                    return Err(e);
                },
            }
            proof {
                grew_trans(l0, here, out@.text.labels);
            }
            i = i + 1;
        }
        Ok(())
    }

    /// Takes down the frame and returns.
    pub(crate) fn epilogue_and_ret(&self, out: &mut A64Out)
        requires
            self.ok(),
            old(out).ok(),
        ensures
            final(out)@ == self.env().epilogue_and_ret(old(out)@),
            final(out).ok(),
            grew(old(out)@.text.labels, final(out)@.text.labels),
    {
        let ghost l0 = out@.text.labels;
        proof {
            reveal(A64Func::epilogue_and_ret);
            grew_refl(l0);
        }
        out.text.mov_sp(Reg(SP), Reg(FP));
        out.text.ldp_post(Reg(FP), Reg(LR), Reg(SP), 16);
        out.text.ret();
    }

    /// Writes a string to the standard error.
    pub(crate) fn write_text(&self, out: &mut A64Out, text: &str)
        requires
            self.ok(),
            old(out).ok(),
        ensures
            final(out)@ == self.env().write_text(old(out)@, text@),
            final(out).ok(),
            grew(old(out)@.text.labels, final(out)@.text.labels),
    {
        let ghost l0 = out@.text.labels;
        proof {
            reveal(A64Func::write_text);
            grew_refl(l0);
        }
        let off: u32 = out.ro.intern(text.as_bytes());
        let n: i64 = text.as_bytes().len() as i64;
        out.text.mov_imm(Reg(0), 2);
        out.text.mov_imm_data(Reg(1), off);
        out.text.mov_imm(Reg(2), n);
        let ghost k37 = out@.text.labels;
        self.emit_syscall(out, AARCH64_WRITE);
        proof {
            grew_trans(l0, k37, out@.text.labels);
        }
    }

    /// Exits.
    pub(crate) fn exit_with(&self, out: &mut A64Out, code: i64)
        requires
            self.ok(),
            old(out).ok(),
        ensures
            final(out)@ == self.env().exit_with(old(out)@, code),
            final(out).ok(),
            grew(old(out)@.text.labels, final(out)@.text.labels),
    {
        let ghost l0 = out@.text.labels;
        proof {
            reveal(A64Func::exit_with);
            grew_refl(l0);
        }
        out.text.mov_imm(Reg(0), code);
        let ghost k38 = out@.text.labels;
        self.emit_syscall(out, AARCH64_EXIT_GROUP);
        proof {
            grew_trans(l0, k38, out@.text.labels);
        }
    }

    /// Writes the line for an error.
    pub(crate) fn write_error_line(&self, out: &mut A64Out, name: &str)
        requires
            self.ok(),
            old(out).ok(),
        ensures
            final(out)@ == self.env().write_error_line(old(out)@, name@),
            final(out).ok(),
            grew(old(out)@.text.labels, final(out)@.text.labels),
    {
        let ghost l0 = out@.text.labels;
        proof {
            reveal(A64Func::write_error_line);
            grew_refl(l0);
        }
        let line: String = error_line(name);
        let ghost k39 = out@.text.labels;
        self.write_text(out, line.as_str());
        proof {
            grew_trans(l0, k39, out@.text.labels);
        }
    }

    /// Writes the line for the `i`-th error.
    pub(crate) fn write_error_at(&self, out: &mut A64Out, i: usize)
        requires
            self.ok(),
            old(out).ok(),
            i < self.env().prog.err_names@.len(),
        ensures
            final(out)@ == self.env().write_error_at(old(out)@, i),
            final(out).ok(),
            grew(old(out)@.text.labels, final(out)@.text.labels),
    {
        let ghost l0 = out@.text.labels;
        proof {
            reveal(A64Func::write_error_at);
            grew_refl(l0);
        }
        let ghost k40 = out@.text.labels;
        self.write_error_line(out, self.prog.err_names[i as usize].1.as_str());
        proof {
            grew_trans(l0, k40, out@.text.labels);
        }
    }

    /// The tag of the `i`-th error.
    pub(crate) fn tag_word(&self, i: usize) -> (r: i64)
        requires
            self.ok(),
            i < self.env().prog.err_names@.len(),
        ensures
            r == self.env().tag_word(i),
    {
        self.prog.err_names[i as usize].0.0 as i64
    }

    /// Writes the line for the `i`-th error, if its tag was loaded.
    pub(crate) fn escaped_case(&self, out: &mut A64Out, done: LabelId, i: usize)
        requires
            self.ok(),
            old(out).ok(),
            i < self.env().prog.err_names@.len(),
            done.0 < old(out)@.text.labels.len(),
        ensures
            final(out)@ == self.env().escaped_case(old(out)@, done, i),
            final(out).ok(),
            grew(old(out)@.text.labels, final(out)@.text.labels),
    {
        let ghost l0 = out@.text.labels;
        let ghost mut open: Set<LabelId> = Set::empty();
        proof {
            reveal(A64Func::escaped_case);
            opening_start(l0);
        }
        let ghost k41 = out@.text.labels;
        let next: LabelId = out.text.new_local_label();
        proof {
            opening_new(l0, k41, open, next);
            open = open.insert(next);
        }
        out.text.mov_imm(Reg(S2), self.tag_word(i));
        out.text.cmp(Reg(S5), Reg(S2));
        out.text.bcc_local(Cc::Ne, next);
        let ghost k42 = out@.text.labels;
        self.write_error_at(out, i);
        proof {
            opening_call(l0, k42, out@.text.labels, open);
        }
        out.text.b_local(done);
        let ghost k43 = out@.text.labels;
        proof {
            opening_unbound(l0, k43, open, next);
        }
        out.text.bind_local(next);
        proof {
            opening_bound(l0, k43, out@.text.labels, open, next);
            open = open.remove(next);
        }
        proof {
            assert(open =~= Set::empty());
            opening_done(l0, out@.text.labels, open);
        }
    }

    /// Writes the line for the error whose tag is in `rbx`.
    pub(crate) fn escaped_cases(&self, out: &mut A64Out, done: LabelId)
        requires
            self.ok(),
            old(out).ok(),
            done.0 < old(out)@.text.labels.len(),
        ensures
            final(out)@ == self.env().escaped_cases(old(out)@, done),
            final(out).ok(),
            grew(old(out)@.text.labels, final(out)@.text.labels),
    {
        let ghost l0 = out@.text.labels;
        let ghost want = self.env().escaped_cases(out@, done);
        proof {
            grew_refl(l0);
        }
        let mut i: usize = 0;
        while i < self.prog.err_names.len()
            invariant
                self.ok(),
                out.ok(),
                done.0 < old(out)@.text.labels.len(),
                i <= self.env().prog.err_names@.len(),
                grew(l0, out@.text.labels),
                l0 == old(out)@.text.labels,
                want == self.env().escaped_cases(old(out)@, done),
                want == self.env().escaped_cases_from(out@, done, i as int),
            decreases self.env().prog.err_names@.len() - i,
        {
            proof {
                grew_longer(l0, out@.text.labels);
            }
            let k: usize = i;
            let ghost here = out@.text.labels;
            self.escaped_case(out, done, k);
            proof {
                grew_trans(l0, here, out@.text.labels);
            }
            i = i + 1;
        }
    }

    /// The tag of an error constant.
    pub(crate) fn static_tag(&self, value: &Operand) -> (r: Option<u16>)
        requires
            self.ok(),
        ensures
            r == self.env().static_tag(*value),
    {
        match value {
            Operand::Copy(_) => None,
            Operand::Const(c) => match *c {
                Const::ErrVal { tag, .. } => Some(tag.0),
                _ => None,
            },
        }
    }

    /// Loads the tag of an error that leaves the entry.
    pub(crate) fn escaped_tag(
        &self,
        out: &mut A64Out,
        value: &Operand,
    ) -> (r: Result<(), CodegenError>)
        requires
            self.ok(),
            old(out).ok(),
            self.env().operand_ok(*value),
        ensures
            a64_lowered(r, final(out)@, self.env().escaped_tag(old(out)@, *value)),
            r is Ok ==> final(out).ok() && grew(old(out)@.text.labels, final(out)@.text.labels),
    {
        let ghost l0 = out@.text.labels;
        proof {
            reveal(A64Func::escaped_tag);
            grew_refl(l0);
        }
        match value {
            Operand::Copy(p) => {
                let ghost k44 = out@.text.labels;
                match self.place_addr(out, p, p.proj.len(), Reg(ADDR)) {
                    Ok(_) => {},
                    Err(e) => {
                        return Err(e);
                    },
                }
                proof {
                    grew_trans(l0, k44, out@.text.labels);
                }
                out.text.load(Reg(S5), Reg(ADDR), 0, MemSize::H);
            },
            Operand::Const(_) => {
                out.text.mov_imm(Reg(S5), 0);
            },
        }
        Ok(())
    }

    /// Reports an error that leaves the entry and exits.
    pub(crate) fn lower_escaped_error(
        &self,
        out: &mut A64Out,
        value: &Operand,
    ) -> (r: Result<(), CodegenError>)
        requires
            self.ok(),
            old(out).ok(),
            self.env().operand_ok(*value),
        ensures
            a64_lowered(r, final(out)@, self.env().lower_escaped_error(old(out)@, *value)),
            r is Ok ==> final(out).ok() && grew(old(out)@.text.labels, final(out)@.text.labels),
    {
        let ghost l0 = out@.text.labels;
        let ghost mut open: Set<LabelId> = Set::empty();
        proof {
            reveal(A64Func::lower_escaped_error);
            opening_start(l0);
        }
        match self.static_tag(value) {
            Some(tag) => {
                let name: String = self.error_name(tag);
                let ghost k45 = out@.text.labels;
                self.write_error_line(out, name.as_str());
                proof {
                    opening_call(l0, k45, out@.text.labels, open);
                }
                let ghost k46 = out@.text.labels;
                self.exit_with(out, 1);
                proof {
                    opening_call(l0, k46, out@.text.labels, open);
                }
            },
            None => {
                let ghost k47 = out@.text.labels;
                match self.escaped_tag(out, value) {
                    Ok(_) => {},
                    Err(e) => {
                        return Err(e);
                    },
                }
                proof {
                    opening_call(l0, k47, out@.text.labels, open);
                }
                let ghost k48 = out@.text.labels;
                let done: LabelId = out.text.new_local_label();
                proof {
                    opening_new(l0, k48, open, done);
                    open = open.insert(done);
                }
                let ghost k49 = out@.text.labels;
                self.escaped_cases(out, done);
                proof {
                    opening_call(l0, k49, out@.text.labels, open);
                }
                let ghost k50 = out@.text.labels;
                self.write_error_line(out, "error");
                proof {
                    opening_call(l0, k50, out@.text.labels, open);
                }
                let ghost k51 = out@.text.labels;
                proof {
                    opening_unbound(l0, k51, open, done);
                }
                out.text.bind_local(done);
                proof {
                    opening_bound(l0, k51, out@.text.labels, open, done);
                    open = open.remove(done);
                }
                let ghost k52 = out@.text.labels;
                self.exit_with(out, 1);
                proof {
                    opening_call(l0, k52, out@.text.labels, open);
                }
            },
        }
        proof {
            assert(open =~= Set::empty());
            opening_done(l0, out@.text.labels, open);
        }
        Ok(())
    }

    /// Whether a type is an error set.
    pub(crate) fn is_error_type(&self, ty: TypeId) -> (r: bool)
        requires
            self.ok(),
            self.env().prog.arena.has(ty),
        ensures
            r == self.env().is_error_type(ty),
    {
        match self.ty(ty) {
            Type::ErrorSet(_) => true,
            Type::AnyError => true,
            _ => false,
        }
    }

    /// Whether a returned value may be an error.
    pub(crate) fn returns_error(&self, value: &Operand) -> (r: bool)
        requires
            self.ok(),
            self.env().operand_ok(*value),
        ensures
            r == self.env().returns_error(*value),
    {
        match value {
            Operand::Copy(p) => p.proj.len() == 0 && (self.is_error_union(
                self.local_ty(p.base),
            ) || self.is_error_type(self.local_ty(p.base))),
            Operand::Const(c) => match *c {
                Const::ErrVal { .. } => true,
                _ => false,
            },
        }
    }

    /// Puts a returned value where the caller finds it.
    pub(crate) fn lower_helper_return(
        &self,
        out: &mut A64Out,
        value: &Operand,
    ) -> (r: Result<(), CodegenError>)
        requires
            self.ok(),
            old(out).ok(),
            self.env().operand_ok(*value),
        ensures
            a64_lowered(r, final(out)@, self.env().lower_helper_return(old(out)@, *value)),
            r is Ok ==> final(out).ok() && grew(old(out)@.text.labels, final(out)@.text.labels),
    {
        let ghost l0 = out@.text.labels;
        proof {
            reveal(A64Func::lower_helper_return);
            grew_refl(l0);
        }
        let ty: TypeId = self.func.ret;
        if self.is_float(ty) {
            return Err(self.unsup("an f64 helper return"));
        } else if self.in_memory(ty) {
            return Err(self.unsup("an aggregate helper return"));
        } else {
            let ghost k53 = out@.text.labels;
            match self.operand_to(out, value, Reg(0)) {
                Ok(_) => {},
                Err(e) => {
                    return Err(e);
                },
            }
            proof {
                grew_trans(l0, k53, out@.text.labels);
            }
            let ghost k54 = out@.text.labels;
            self.normalize(out, Reg(0), ty);
            proof {
                grew_trans(l0, k54, out@.text.labels);
            }
        }
        Ok(())
    }

    /// Returns.
    pub(crate) fn lower_return(
        &self,
        out: &mut A64Out,
        value: &Operand,
    ) -> (r: Result<(), CodegenError>)
        requires
            self.ok(),
            old(out).ok(),
            self.env().operand_ok(*value),
        ensures
            a64_lowered(r, final(out)@, self.env().lower_return(old(out)@, *value)),
            r is Ok ==> final(out).ok() && grew(old(out)@.text.labels, final(out)@.text.labels),
    {
        let ghost l0 = out@.text.labels;
        proof {
            reveal(A64Func::lower_return);
            grew_refl(l0);
        }
        if self.kind == EntryKind::VoidEntry && self.returns_error(value) {
            let ghost k55 = out@.text.labels;
            match self.lower_escaped_error(out, value) {
                Ok(_) => {},
                Err(e) => {
                    return Err(e);
                },
            }
            proof {
                grew_trans(l0, k55, out@.text.labels);
            }
        } else {
            match self.kind {
                EntryKind::VoidEntry => {
                    out.text.mov_imm(Reg(0), 0);
                },
                EntryKind::IntEntry => {
                    let ghost k56 = out@.text.labels;
                    match self.operand_to(out, value, Reg(0)) {
                        Ok(_) => {},
                        Err(e) => {
                            return Err(e);
                        },
                    }
                    proof {
                        grew_trans(l0, k56, out@.text.labels);
                    }
                    let ghost k57 = out@.text.labels;
                    self.normalize(out, Reg(0), self.func.ret);
                    proof {
                        grew_trans(l0, k57, out@.text.labels);
                    }
                },
                EntryKind::Helper => {
                    let ghost k58 = out@.text.labels;
                    match self.lower_helper_return(out, value) {
                        Ok(_) => {},
                        Err(e) => {
                            return Err(e);
                        },
                    }
                    proof {
                        grew_trans(l0, k58, out@.text.labels);
                    }
                },
            }
            let ghost k59 = out@.text.labels;
            self.epilogue_and_ret(out);
            proof {
                grew_trans(l0, k59, out@.text.labels);
            }
        }
        Ok(())
    }

    /// Stops the program with a message.
    pub(crate) fn lower_trap(&self, out: &mut A64Out, reason: TrapReason)
        requires
            self.ok(),
            old(out).ok(),
        ensures
            final(out)@ == self.env().lower_trap(old(out)@, reason),
            final(out).ok(),
            grew(old(out)@.text.labels, final(out)@.text.labels),
    {
        let ghost l0 = out@.text.labels;
        proof {
            reveal(A64Func::lower_trap);
            grew_refl(l0);
        }
        let line: String = panic_line(reason);
        let ghost k60 = out@.text.labels;
        self.write_text(out, line.as_str());
        proof {
            grew_trans(l0, k60, out@.text.labels);
        }
        let ghost k61 = out@.text.labels;
        self.exit_with(out, PANIC_EXIT);
        proof {
            grew_trans(l0, k61, out@.text.labels);
        }
    }

    /// Loads what a switch tests.
    pub(crate) fn load_switch_scrutinee(
        &self,
        out: &mut A64Out,
        op: &Operand,
    ) -> (r: Result<(), CodegenError>)
        requires
            self.ok(),
            old(out).ok(),
            self.env().operand_ok(*op),
        ensures
            a64_lowered(r, final(out)@, self.env().load_switch_scrutinee(old(out)@, *op)),
            r is Ok ==> final(out).ok() && grew(old(out)@.text.labels, final(out)@.text.labels),
    {
        let ghost l0 = out@.text.labels;
        proof {
            reveal(A64Func::load_switch_scrutinee);
            grew_refl(l0);
        }
        match op {
            Operand::Copy(p) => {
                if self.operand_is_error_union(op) {
                    let ghost k62 = out@.text.labels;
                    match self.place_addr(out, p, p.proj.len(), Reg(ADDR)) {
                        Ok(_) => {},
                        Err(e) => {
                            return Err(e);
                        },
                    }
                    proof {
                        grew_trans(l0, k62, out@.text.labels);
                    }
                    out.text.load(Reg(RES), Reg(ADDR), 0, MemSize::H);
                } else {
                    let ghost k63 = out@.text.labels;
                    match self.operand_to(out, op, Reg(RES)) {
                        Ok(_) => {},
                        Err(e) => {
                            return Err(e);
                        },
                    }
                    proof {
                        grew_trans(l0, k63, out@.text.labels);
                    }
                }
            },
            Operand::Const(_) => {
                let ghost k64 = out@.text.labels;
                match self.operand_to(out, op, Reg(RES)) {
                    Ok(_) => {},
                    Err(e) => {
                        return Err(e);
                    },
                }
                proof {
                    grew_trans(l0, k64, out@.text.labels);
                }
            },
        }
        Ok(())
    }

    /// Branches to a block, if the result register holds a value.
    pub(crate) fn switch_case(&self, out: &mut A64Out, value: i128, target: BlockId)
        requires
            self.ok(),
            old(out).ok(),
            target.0 < old(out)@.text.labels.len(),
        ensures
            final(out)@ == self.env().switch_case(old(out)@, value, target),
            final(out).ok(),
            grew(old(out)@.text.labels, final(out)@.text.labels),
    {
        let ghost l0 = out@.text.labels;
        proof {
            reveal(A64Func::switch_case);
            grew_refl(l0);
        }
        out.text.mov_imm(Reg(S2), lo_word(value));
        out.text.cmp(Reg(RES), Reg(S2));
        out.text.bcc(Cc::E, LabelId(target.0));
    }

    /// Jumps to the block for the value in `rax`.
    pub(crate) fn switch_cases(&self, out: &mut A64Out, targets: &Vec<(i128, BlockId)>)
        requires
            self.ok(),
            old(out).ok(),
            forall|j: int| 0 <= j < targets@.len() ==> (#[trigger] targets@[j]).1.0 < old(out)@.text.labels.len(),
        ensures
            final(out)@ == self.env().switch_cases(old(out)@, targets@),
            final(out).ok(),
            grew(old(out)@.text.labels, final(out)@.text.labels),
    {
        let ghost l0 = out@.text.labels;
        let ghost want = self.env().switch_cases(out@, targets@);
        proof {
            grew_refl(l0);
        }
        let mut i: usize = 0;
        while i < targets.len()
            invariant
                self.ok(),
                out.ok(),
                forall|j: int| 0 <= j < targets@.len() ==> (#[trigger] targets@[j]).1.0 < old(out)@.text.labels.len(),
                i <= targets@.len(),
                grew(l0, out@.text.labels),
                l0 == old(out)@.text.labels,
                want == self.env().switch_cases(old(out)@, targets@),
                want == self.env().switch_cases_from(out@, targets@, i as int),
            decreases targets@.len() - i,
        {
            proof {
                grew_longer(l0, out@.text.labels);
                assert(targets@[i as int].1.0 < old(out)@.text.labels.len());
            }
            let ghost here = out@.text.labels;
            self.switch_case(out, targets[i].0, targets[i].1);
            proof {
                grew_trans(l0, here, out@.text.labels);
            }
            i = i + 1;
        }
    }

    /// Lowers the end of a block.
    pub(crate) fn lower_terminator(
        &self,
        out: &mut A64Out,
        term: &Terminator,
    ) -> (r: Result<(), CodegenError>)
        requires
            self.ok(),
            old(out).ok(),
            self.env().term_ok(*term),
            self.env().func.blocks@.len() <= old(out)@.text.labels.len(),
        ensures
            a64_lowered(r, final(out)@, self.env().lower_terminator(old(out)@, *term)),
            r is Ok ==> final(out).ok() && grew(old(out)@.text.labels, final(out)@.text.labels),
    {
        let ghost l0 = out@.text.labels;
        proof {
            reveal(A64Func::lower_terminator);
            grew_refl(l0);
        }
        match term {
            Terminator::Goto(t) => {
                out.text.b(LabelId(t.0));
            },
            Terminator::Branch { cond, then_bb, else_bb } => {
                let ghost k65 = out@.text.labels;
                match self.operand_to(out, cond, Reg(RES)) {
                    Ok(_) => {},
                    Err(e) => {
                        return Err(e);
                    },
                }
                proof {
                    grew_trans(l0, k65, out@.text.labels);
                }
                proof {
                    grew_longer(l0, out@.text.labels);
                }
                out.text.cmp_imm(Reg(RES), 0);
                out.text.bcc(Cc::Ne, LabelId(then_bb.0));
                out.text.b(LabelId(else_bb.0));
            },
            Terminator::Switch { scrutinee, targets, default } => {
                let ghost k66 = out@.text.labels;
                match self.load_switch_scrutinee(out, scrutinee) {
                    Ok(_) => {},
                    Err(e) => {
                        return Err(e);
                    },
                }
                proof {
                    grew_trans(l0, k66, out@.text.labels);
                }
                proof {
                    grew_longer(l0, out@.text.labels);
                }
                let ghost k67 = out@.text.labels;
                self.switch_cases(out, targets);
                proof {
                    grew_trans(l0, k67, out@.text.labels);
                }
                proof {
                    grew_longer(l0, out@.text.labels);
                }
                out.text.b(LabelId(default.0));
            },
            Terminator::Return { value } => {
                let ghost k68 = out@.text.labels;
                match self.lower_return(out, value) {
                    Ok(_) => {},
                    Err(e) => {
                        return Err(e);
                    },
                }
                proof {
                    grew_trans(l0, k68, out@.text.labels);
                }
            },
            Terminator::Trap { reason } => {
                let ghost k69 = out@.text.labels;
                self.lower_trap(out, *reason);
                proof {
                    grew_trans(l0, k69, out@.text.labels);
                }
            },
            Terminator::Unreachable => {
                let ghost k70 = out@.text.labels;
                self.lower_trap(out, TrapReason::Unreachable);
                proof {
                    grew_trans(l0, k70, out@.text.labels);
                }
            },
        }
        Ok(())
    }

    /// Lowers a block behind its label.
    pub(crate) fn lower_block_body(
        &self,
        out: &mut A64Out,
        b: &Block,
    ) -> (r: Result<(), CodegenError>)
        requires
            self.ok(),
            old(out).ok(),
            self.env().block_ok(*b),
            self.env().func.blocks@.len() <= old(out)@.text.labels.len(),
        ensures
            a64_lowered(r, final(out)@, self.env().lower_block_body(old(out)@, *b)),
            r is Ok ==> final(out).ok() && grew(old(out)@.text.labels, final(out)@.text.labels),
    {
        let ghost l0 = out@.text.labels;
        proof {
            reveal(A64Func::lower_block_body);
            grew_refl(l0);
        }
        let ghost k71 = out@.text.labels;
        match self.lower_stmts(out, b) {
            Ok(_) => {},
            Err(e) => {
                return Err(e);
            },
        }
        proof {
            grew_trans(l0, k71, out@.text.labels);
        }
        proof {
            grew_longer(l0, out@.text.labels);
        }
        let ghost k72 = out@.text.labels;
        match self.lower_terminator(out, &b.term) {
            Ok(_) => {},
            Err(e) => {
                return Err(e);
            },
        }
        proof {
            grew_trans(l0, k72, out@.text.labels);
        }
        Ok(())
    }

    /// Lowers the stack pointer.
    pub(crate) fn emit_sp_sub(&self, out: &mut A64Out, n: i32)
        requires
            self.ok(),
            old(out).ok(),
        ensures
            final(out)@ == self.env().emit_sp_sub(old(out)@, n),
            final(out).ok(),
            grew(old(out)@.text.labels, final(out)@.text.labels),
    {
        let ghost l0 = out@.text.labels;
        proof {
            reveal(A64Func::emit_sp_sub);
            grew_refl(l0);
        }
        if n <= 0xFFF {
            out.text.sub_imm(Reg(SP), Reg(SP), n as u32);
        } else {
            out.text.mov_imm(Reg(S3), n as u32 as i64);
            out.text.sub_ext(Reg(SP), Reg(SP), Reg(S3));
        }
    }

    /// The integer registers taken after a parameter.
    pub(crate) fn param_next(&self, param: LocalId, c: usize) -> (r: usize)
        requires
            self.ok(),
            param.0 < self.env().func.locals@.len(),
        ensures
            r == self.env().param_next(param, c),
    {
        match classify(self.prog, self.local_ty(param)) {
            ArgClass::OneInt => if c < ARG_REGS {
                (c + 1) as usize
            } else {
                c
            },
            ArgClass::TwoInt => if c < ARG_REGS - 1 {
                (c + 2) as usize
            } else {
                c
            },
            _ => c,
        }
    }

    /// Stores a parameter in its home.
    pub(crate) fn lower_param(
        &self,
        out: &mut A64Out,
        param: LocalId,
        c: usize,
    ) -> (r: Result<(), CodegenError>)
        requires
            self.ok(),
            old(out).ok(),
            param.0 < self.env().func.locals@.len(),
        ensures
            a64_lowered(r, final(out)@, self.env().lower_param(old(out)@, param, c)),
            r is Ok ==> final(out).ok() && grew(old(out)@.text.labels, final(out)@.text.labels),
    {
        let ghost l0 = out@.text.labels;
        proof {
            reveal(A64Func::lower_param);
            grew_refl(l0);
        }
        let ty: TypeId = self.local_ty(param);
        let h: i32 = self.home(param);
        match classify(self.prog, ty) {
            ArgClass::OneInt => {
                if c < ARG_REGS {
                    let ghost k73 = out@.text.labels;
                    self.store_sized(out, Reg(FP), h, Reg(c as u8), ty);
                    proof {
                        grew_trans(l0, k73, out@.text.labels);
                    }
                } else {
                    return Err(self.unsup("a stack-passed parameter"));
                }
            },
            ArgClass::TwoInt => {
                if c < ARG_REGS - 1 {
                    let ghost k74 = out@.text.labels;
                    self.store_pair(out, h, Reg(c as u8), Reg((c + 1) as u8));
                    proof {
                        grew_trans(l0, k74, out@.text.labels);
                    }
                } else {
                    return Err(self.unsup("a stack-passed aggregate parameter"));
                }
            },
            _ => {
                return Err(self.unsup("a float / memory-class parameter"));
            },
        }
        Ok(())
    }

    /// Stores the parameters in their homes.
    pub(crate) fn lower_prologue_params(&self, out: &mut A64Out) -> (r: Result<(), CodegenError>)
        requires
            self.ok(),
            old(out).ok(),
        ensures
            a64_lowered(r, final(out)@, self.env().lower_prologue_params(old(out)@)),
            r is Ok ==> final(out).ok() && grew(old(out)@.text.labels, final(out)@.text.labels),
    {
        let ghost l0 = out@.text.labels;
        let ghost want = self.env().lower_prologue_params(out@);
        proof {
            grew_refl(l0);
        }
        let mut c: usize = 0;
        let mut i: usize = 0;
        while i < self.func.params.len()
            invariant
                self.ok(),
                out.ok(),
                i <= self.env().func.params@.len(),
                grew(l0, out@.text.labels),
                l0 == old(out)@.text.labels,
                want == self.env().lower_prologue_params(old(out)@),
                want == self.env().lower_prologue_params_from(out@, i as int, c),
            decreases self.env().func.params@.len() - i,
        {
            assert(self.env().func.params@[i as int].0 < self.env().func.locals@.len());
            let ghost here = out@.text.labels;
            match self.lower_param(out, self.func.params[i], c) {
                Ok(_) => {},
                Err(e) => {
                    return Err(e);
                },
            }
            proof {
                grew_trans(l0, here, out@.text.labels);
            }
            c = self.param_next(self.func.params[i], c);
            i = i + 1;
        }
        Ok(())
    }

    /// Lowers the entry of a function: its frame and parameters.
    pub(crate) fn lower_entry(&self, out: &mut A64Out) -> (r: Result<(), CodegenError>)
        requires
            self.ok(),
            old(out).ok(),
        ensures
            a64_lowered(r, final(out)@, self.env().lower_entry(old(out)@)),
            r is Ok ==> final(out).ok() && grew(old(out)@.text.labels, final(out)@.text.labels),
    {
        let ghost l0 = out@.text.labels;
        proof {
            reveal(A64Func::lower_entry);
            grew_refl(l0);
        }
        out.text.stp_pre(Reg(FP), Reg(LR), Reg(SP), PAIR_BELOW);
        out.text.mov_sp(Reg(FP), Reg(SP));
        if self.plan.frame_size > 0 {
            let ghost k75 = out@.text.labels;
            self.emit_sp_sub(out, self.plan.frame_size);
            proof {
                grew_trans(l0, k75, out@.text.labels);
            }
        }
        let ghost k76 = out@.text.labels;
        match self.lower_prologue_params(out) {
            Ok(_) => {},
            Err(e) => {
                return Err(e);
            },
        }
        proof {
            grew_trans(l0, k76, out@.text.labels);
        }
        Ok(())
    }
}

} // verus!
