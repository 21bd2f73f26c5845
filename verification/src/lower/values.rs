//! Scalar and float computations.
use vstd::prelude::*;

use crate::lower::env::{Env, FnLower, LowState, Out, grew, grew_refl, grew_trans, lowered};
use crate::encode::Cc;
use crate::layout::{flag_off, optional_flag_off};
use crate::lower::scalar::{as_signed, hi_word, lo_word, plus, signed64, sum32, wide_hi, wide_lo};
use crate::mir::{BinOp, CastKind, Const, DiscrKind, LocalId, Operand, Rvalue, UnOp};
use crate::reg::{Gpr, Xmm};
use crate::types::{Type, TypeId};
use crate::CodegenError;

verus! {

/// The name of a kind of computation.
pub open spec fn rvalue_kind_text(rv: Rvalue) -> Seq<char> {
    match rv {
        Rvalue::Use(_) => "Use"@,
        Rvalue::Binary { .. } => "Binary"@,
        Rvalue::Unary { .. } => "Unary"@,
        Rvalue::Ref { .. } => "Ref"@,
        Rvalue::Cast { .. } => "Cast"@,
        Rvalue::MakeSlice { .. } => "MakeSlice"@,
        Rvalue::MakeSome(..) => "MakeSome"@,
        Rvalue::MakeNull(_) => "MakeNull"@,
        Rvalue::MakeOk(..) => "MakeOk"@,
        Rvalue::MakeErr(..) => "MakeErr"@,
        Rvalue::Discriminant { .. } => "Discriminant"@,
        Rvalue::Aggregate { .. } => "Aggregate"@,
        Rvalue::Call { .. } => "Call"@,
        Rvalue::Intrinsic { .. } => "Intrinsic"@,
    }
}

/// The name of a kind of computation.
pub(crate) fn rvalue_kind(rv: &Rvalue) -> (r: &'static str)
    ensures
        r@ == rvalue_kind_text(*rv),
{
    match rv {
        Rvalue::Use(_) => "Use",
        Rvalue::Binary { .. } => "Binary",
        Rvalue::Unary { .. } => "Unary",
        Rvalue::Ref { .. } => "Ref",
        Rvalue::Cast { .. } => "Cast",
        Rvalue::MakeSlice { .. } => "MakeSlice",
        Rvalue::MakeSome(..) => "MakeSome",
        Rvalue::MakeNull(_) => "MakeNull",
        Rvalue::MakeOk(..) => "MakeOk",
        Rvalue::MakeErr(..) => "MakeErr",
        Rvalue::Discriminant { .. } => "Discriminant",
        Rvalue::Aggregate { .. } => "Aggregate",
        Rvalue::Call { .. } => "Call",
        Rvalue::Intrinsic { .. } => "Intrinsic",
    }
}

/// Whether an operator compares.
pub open spec fn compares(op: BinOp) -> bool {
    op == BinOp::Eq || op == BinOp::Ne || op == BinOp::Lt || op == BinOp::Le || op == BinOp::Gt || op
        == BinOp::Ge
}

/// Whether an operator compares.
pub(crate) fn is_comparison(op: BinOp) -> (r: bool)
    ensures
        r == compares(op),
{
    op == BinOp::Eq || op == BinOp::Ne || op == BinOp::Lt || op == BinOp::Le || op == BinOp::Gt || op
        == BinOp::Ge
}

/// The condition that a comparison of integers tests.
pub open spec fn cc_of(op: BinOp, signed: bool) -> Cc {
    match op {
        BinOp::Eq => Cc::E,
        BinOp::Ne => Cc::Ne,
        BinOp::Lt => if signed {
            Cc::L
        } else {
            Cc::B
        },
        BinOp::Le => if signed {
            Cc::Le
        } else {
            Cc::Be
        },
        BinOp::Gt => if signed {
            Cc::G
        } else {
            Cc::A
        },
        _ => if signed {
            Cc::Ge
        } else {
            Cc::Ae
        },
    }
}

/// The condition that a comparison of integers tests.
pub(crate) fn compare_cc(op: BinOp, signed: bool) -> (r: Cc)
    requires
        compares(op),
    ensures
        r == cc_of(op, signed),
{
    match op {
        BinOp::Eq => Cc::E,
        BinOp::Ne => Cc::Ne,
        BinOp::Lt => if signed {
            Cc::L
        } else {
            Cc::B
        },
        BinOp::Le => if signed {
            Cc::Le
        } else {
            Cc::Be
        },
        BinOp::Gt => if signed {
            Cc::G
        } else {
            Cc::A
        },
        _ => if signed {
            Cc::Ge
        } else {
            Cc::Ae
        },
    }
}

impl Env {
    /// Loads a float operand into `dst`.
    #[verifier::opaque]
    pub open spec fn load_float_operand(self, s: LowState, op: Operand, dst: Xmm) -> LowState {
        let s = match op {
            Operand::Copy(p) => {
                let s = self.place_addr_general(s, p, (p.proj@.len() as usize), Gpr::R11);
                if s.err is Some {
                    s
                } else {
                    let s = s.on(s.text.movsd_load(dst, Gpr::R11, 0));
                    s
                }
            },
            Operand::Const(c) => {
                let s = match c {
                    Const::Float { bits, .. } => {
                        let s = s.on(s.text.mov_ri(Gpr::Rax, as_signed(bits)));
                        let s = s.on(s.text.movq_xmm_r64(dst, Gpr::Rax));
                        s
                    },
                    _ => {
                        s.fail(self.unsup("float operand from a non-float constant"@))
                    },
                };
                s
            },
        };
        s
    }

    /// Stores `xmm0` to the home of a float.
    #[verifier::opaque]
    pub open spec fn store_float_xmm0(self, s: LowState, dst: LocalId) -> LowState {
        let s = match self.home(dst) {
            Some(h) => {
                let s = s.on(s.text.movsd_store(Gpr::Rbp, h, Xmm::Xmm0));
                s
            },
            None => {
                s.fail(self.unsup("float local without a home"@))
            },
        };
        s
    }

    /// Copies a float.
    #[verifier::opaque]
    pub open spec fn lower_float_use(self, s: LowState, dst: LocalId, op: Operand) -> LowState {
        let s = self.load_float_operand(s, op, Xmm::Xmm0);
        if s.err is Some {
            s
        } else {
            let s = self.store_float_xmm0(s, dst);
            s
        }
    }

    /// Computes a binary operator on floats.
    #[verifier::opaque]
    pub open spec fn lower_float_binary(
        self,
        s: LowState,
        dst: LocalId,
        op: BinOp,
        lhs: Operand,
        rhs: Operand,
    ) -> LowState {
        let s = self.load_float_operand(s, lhs, Xmm::Xmm0);
        if s.err is Some {
            s
        } else {
            let s = self.load_float_operand(s, rhs, Xmm::Xmm1);
            if s.err is Some {
                s
            } else {
                let s = match op {
                    BinOp::Add => {
                        let s = s.on(s.text.addsd(Xmm::Xmm0, Xmm::Xmm1));
                        s
                    },
                    BinOp::Sub => {
                        let s = s.on(s.text.subsd(Xmm::Xmm0, Xmm::Xmm1));
                        s
                    },
                    BinOp::Mul => {
                        let s = s.on(s.text.mulsd(Xmm::Xmm0, Xmm::Xmm1));
                        s
                    },
                    BinOp::Div => {
                        let s = s.on(s.text.divsd(Xmm::Xmm0, Xmm::Xmm1));
                        s
                    },
                    _ => {
                        s.fail(self.unsup("unsupported float binary op"@))
                    },
                };
                if s.err is Some {
                    s
                } else {
                    let s = self.store_float_xmm0(s, dst);
                    s
                }
            }
        }
    }

    /// Puts the truth of a condition into `rax`.
    #[verifier::opaque]
    pub open spec fn set_bool(self, s: LowState, cc: Cc) -> LowState {
        let s = s.on(s.text.setcc_al(cc));
        let s = s.on(s.text.movzx_al(Gpr::Rax));
        s
    }

    /// Compares floats into `rax`.
    #[verifier::opaque]
    pub open spec fn lower_float_compare_into_rax(
        self,
        s: LowState,
        op: BinOp,
        lhs: Operand,
        rhs: Operand,
    ) -> LowState {
        let s = self.load_float_operand(s, lhs, Xmm::Xmm0);
        if s.err is Some {
            s
        } else {
            let s = self.load_float_operand(s, rhs, Xmm::Xmm1);
            if s.err is Some {
                s
            } else {
                let s = s.on(s.text.ucomisd(Xmm::Xmm0, Xmm::Xmm1));
                let s = match op {
                    BinOp::Eq => {
                        let s = self.set_bool(s, Cc::E);
                        s
                    },
                    BinOp::Ne => {
                        let s = self.set_bool(s, Cc::Ne);
                        s
                    },
                    BinOp::Lt => {
                        let s = self.set_bool(s, Cc::B);
                        s
                    },
                    BinOp::Le => {
                        let s = self.set_bool(s, Cc::Be);
                        s
                    },
                    BinOp::Gt => {
                        let s = self.set_bool(s, Cc::A);
                        s
                    },
                    BinOp::Ge => {
                        let s = self.set_bool(s, Cc::Ae);
                        s
                    },
                    _ => {
                        s.fail(self.unsup("unsupported float comparison"@))
                    },
                };
                s
            }
        }
    }

    /// Stores a two-word integer.
    #[verifier::opaque]
    pub open spec fn store_wide_int(self, s: LowState, at: i32, op: Operand) -> LowState {
        let s = match op {
            Operand::Copy(p) => {
                let s = self.place_addr_general(s, p, (p.proj@.len() as usize), Gpr::Rax);
                if s.err is Some {
                    s
                } else {
                    let s = s.on(s.text.mov_load_mem(Gpr::Rcx, Gpr::Rax, 0));
                    let s = s.on(s.text.mov_store(at, Gpr::Rcx));
                    let s = s.on(s.text.mov_load_mem(Gpr::Rcx, Gpr::Rax, 8));
                    let s = s.on(s.text.mov_store(sum32(at, 8), Gpr::Rcx));
                    s
                }
            },
            Operand::Const(c) => {
                let s = match c {
                    Const::Int { value, .. } => {
                        let s = s.on(s.text.mov_ri(Gpr::Rax, wide_lo(value)));
                        let s = s.on(s.text.mov_store(at, Gpr::Rax));
                        let s = s.on(s.text.mov_ri(Gpr::Rax, wide_hi(value)));
                        let s = s.on(s.text.mov_store(sum32(at, 8), Gpr::Rax));
                        s
                    },
                    _ => {
                        s.fail(self.unsup("wide-int store from an unsupported operand"@))
                    },
                };
                s
            },
        };
        s
    }

    /// Loads an integer as two words; a narrow one is extended.
    #[verifier::opaque]
    pub open spec fn load_wide_operand(
        self,
        s: LowState,
        op: Operand,
        lo: Gpr,
        hi: Gpr,
    ) -> LowState {
        let s = match op {
            Operand::Copy(p) => {
                let ty = self.place_type(p);
                let s = if self.is_wide_int(ty) {
                    let s = self.place_addr_general(s, p, (p.proj@.len() as usize), Gpr::R11);
                    if s.err is Some {
                        s
                    } else {
                        let s = s.on(s.text.mov_load_mem(lo, Gpr::R11, 0));
                        let s = s.on(s.text.mov_load_mem(hi, Gpr::R11, 8));
                        s
                    }
                } else {
                    let s = self.operand_to(s, op, lo);
                    if s.err is Some {
                        s
                    } else {
                        let s = self.normalize(s, lo, ty);
                        let s = if self.repr_of(ty).signed {
                            let s = s.on(s.text.mov_rr(hi, lo));
                            let s = s.on(s.text.sar_ri(hi, 63));
                            s
                        } else {
                            let s = s.on(s.text.mov_ri(hi, 0));
                            s
                        };
                        s
                    }
                };
                s
            },
            Operand::Const(c) => {
                let s = match c {
                    Const::Int { value, .. } => {
                        let s = s.on(s.text.mov_ri(lo, wide_lo(value)));
                        let s = s.on(s.text.mov_ri(hi, wide_hi(value)));
                        s
                    },
                    _ => {
                        s.fail(self.unsup("128-bit operand from an unsupported operand"@))
                    },
                };
                s
            },
        };
        s
    }

    /// Stores two words.
    #[verifier::opaque]
    pub open spec fn store_wide_pair(self, s: LowState, at: i32, lo: Gpr, hi: Gpr) -> LowState {
        let s = s.on(s.text.mov_store(at, lo));
        let s = s.on(s.text.mov_store(sum32(at, 8), hi));
        s
    }

    /// Adds or subtracts two-word integers into `rax` and `rdx`.
    #[verifier::opaque]
    pub open spec fn eval_wide_binary_into_pair(
        self,
        s: LowState,
        op: BinOp,
        lhs: Operand,
        rhs: Operand,
    ) -> LowState {
        let s = match op {
            BinOp::Add => {
                let s = self.load_wide_operand(s, lhs, Gpr::Rax, Gpr::Rdx);
                if s.err is Some {
                    s
                } else {
                    let s = self.load_wide_operand(s, rhs, Gpr::Rcx, Gpr::R8);
                    if s.err is Some {
                        s
                    } else {
                        let s = s.on(s.text.add_rr(Gpr::Rax, Gpr::Rcx));
                        let s = s.on(s.text.adc_rr(Gpr::Rdx, Gpr::R8));
                        s
                    }
                }
            },
            BinOp::Sub => {
                let s = self.load_wide_operand(s, lhs, Gpr::Rax, Gpr::Rdx);
                if s.err is Some {
                    s
                } else {
                    let s = self.load_wide_operand(s, rhs, Gpr::Rcx, Gpr::R8);
                    if s.err is Some {
                        s
                    } else {
                        let s = s.on(s.text.sub_rr(Gpr::Rax, Gpr::Rcx));
                        let s = s.on(s.text.sbb_rr(Gpr::Rdx, Gpr::R8));
                        s
                    }
                }
            },
            _ => {
                s.fail(self.unsup("128-bit integer multiply/divide/remainder/shift (use the VM)"@))
            },
        };
        s
    }

    /// Negates or complements a two-word integer into `rax` and `rdx`.
    #[verifier::opaque]
    pub open spec fn eval_wide_unary_into_pair(
        self,
        s: LowState,
        op: UnOp,
        operand: Operand,
    ) -> LowState {
        let s = self.load_wide_operand(s, operand, Gpr::Rax, Gpr::Rdx);
        if s.err is Some {
            s
        } else {
            let s = match op {
                UnOp::Neg => {
                    let s = s.on(s.text.not_r(Gpr::Rax));
                    let s = s.on(s.text.not_r(Gpr::Rdx));
                    let s = s.on(s.text.mov_ri(Gpr::Rcx, 1));
                    let s = s.on(s.text.mov_ri(Gpr::R8, 0));
                    let s = s.on(s.text.add_rr(Gpr::Rax, Gpr::Rcx));
                    let s = s.on(s.text.adc_rr(Gpr::Rdx, Gpr::R8));
                    s
                },
                UnOp::BitNot => {
                    let s = s.on(s.text.not_r(Gpr::Rax));
                    let s = s.on(s.text.not_r(Gpr::Rdx));
                    s
                },
                UnOp::Not => {
                    s.fail(self.unsup("logical not of a 128-bit integer"@))
                },
            };
            s
        }
    }

    /// Whether a conversion keeps the bits.
    pub open spec fn extends(self, kind: CastKind) -> bool {
        match kind {
            CastKind::Widen => true,
            CastKind::IntNarrow => true,
            CastKind::PtrReinterpret => true,
            _ => false,
        }
    }

    /// Computes a two-word integer into `rax` and `rdx`.
    #[verifier::opaque]
    pub open spec fn eval_wide_rvalue_into_pair(self, s: LowState, rvalue: Rvalue) -> LowState {
        let s = match rvalue {
            Rvalue::Use(op) => {
                let s = self.load_wide_operand(s, op, Gpr::Rax, Gpr::Rdx);
                s
            },
            Rvalue::Binary { op, lhs, rhs, .. } => {
                let s = self.eval_wide_binary_into_pair(s, op, lhs, rhs);
                s
            },
            Rvalue::Unary { un, operand, .. } => {
                let s = self.eval_wide_unary_into_pair(s, un, operand);
                s
            },
            Rvalue::Cast { kind, operand, .. } => {
                let s = if self.extends(kind) {
                    let s = self.load_wide_operand(s, operand, Gpr::Rax, Gpr::Rdx);
                    s
                } else {
                    s.fail(self.unsup3("128-bit "@, rvalue_kind_text(rvalue), ""@))
                };
                s
            },
            _ => {
                s.fail(self.unsup3("128-bit "@, rvalue_kind_text(rvalue), ""@))
            },
        };
        s
    }

    /// Adds or subtracts two-word integers.
    #[verifier::opaque]
    pub open spec fn lower_wide_binary(
        self,
        s: LowState,
        dst: LocalId,
        op: BinOp,
        lhs: Operand,
        rhs: Operand,
    ) -> LowState {
        let s = match self.home(dst) {
            Some(h) => {
                let s = self.eval_wide_binary_into_pair(s, op, lhs, rhs);
                if s.err is Some {
                    s
                } else {
                    let s = self.store_wide_pair(s, h, Gpr::Rax, Gpr::Rdx);
                    s
                }
            },
            None => {
                s.fail(self.unsup("wide-int binary result without a home"@))
            },
        };
        s
    }

    /// Negates or complements a two-word integer.
    #[verifier::opaque]
    pub open spec fn lower_wide_unary(
        self,
        s: LowState,
        dst: LocalId,
        op: UnOp,
        operand: Operand,
    ) -> LowState {
        let s = match self.home(dst) {
            Some(h) => {
                let s = self.eval_wide_unary_into_pair(s, op, operand);
                if s.err is Some {
                    s
                } else {
                    let s = self.store_wide_pair(s, h, Gpr::Rax, Gpr::Rdx);
                    s
                }
            },
            None => {
                s.fail(self.unsup("wide-int unary result without a home"@))
            },
        };
        s
    }

    /// Converts an integer to two words.
    #[verifier::opaque]
    pub open spec fn lower_wide_cast(
        self,
        s: LowState,
        dst: LocalId,
        operand: Operand,
    ) -> LowState {
        let s = match self.home(dst) {
            Some(h) => {
                let s = self.load_wide_operand(s, operand, Gpr::Rax, Gpr::Rdx);
                if s.err is Some {
                    s
                } else {
                    let s = self.store_wide_pair(s, h, Gpr::Rax, Gpr::Rdx);
                    s
                }
            },
            None => {
                s.fail(self.unsup("wide-int cast result without a home"@))
            },
        };
        s
    }

    /// Compares integers, or floats, into `rax`.
    #[verifier::opaque]
    pub open spec fn eval_compare_into_rax(
        self,
        s: LowState,
        op: BinOp,
        lhs: Operand,
        rhs: Operand,
    ) -> LowState {
        let s = if self.operand_is_float(lhs) {
            let s = self.lower_float_compare_into_rax(s, op, lhs, rhs);
            s
        } else if self.operand_is_wide(lhs) {
            s.fail(self.unsup("128-bit integer comparison (use the VM)"@))
        } else {
            let s = self.operand_to(s, lhs, Gpr::Rax);
            if s.err is Some {
                s
            } else {
                let s = self.operand_to(s, rhs, Gpr::Rcx);
                if s.err is Some {
                    s
                } else {
                    let s = s.on(s.text.cmp_rr(Gpr::Rax, Gpr::Rcx));
                    let s = self.set_bool(
                        s,
                        cc_of(op, self.operand_signed(lhs) || self.operand_signed(rhs)),
                    );
                    s
                }
            }
        };
        s
    }

    /// Whether an operand is a float.
    pub open spec fn operand_is_float(self, op: Operand) -> bool {
        match self.operand_type(op) {
            Some(t) => self.is_float(t),
            None => false,
        }
    }

    /// Whether an operand is an integer of more than a word.
    pub open spec fn operand_is_wide(self, op: Operand) -> bool {
        match self.operand_type(op) {
            Some(t) => self.is_wide_int(t),
            None => false,
        }
    }

    /// Whether an operand is an error union.
    pub open spec fn operand_is_error_union(self, op: Operand) -> bool {
        match self.operand_type(op) {
            Some(t) => self.is_error_union(t),
            None => false,
        }
    }

    /// Whether an operand is a slice.
    pub open spec fn operand_is_slice(self, op: Operand) -> bool {
        match self.operand_type(op) {
            Some(t) => self.is_slice(t),
            None => false,
        }
    }

    /// Divides `rax` by `rcx`.
    #[verifier::opaque]
    pub open spec fn divide(self, s: LowState, ty: TypeId) -> LowState {
        let s = if self.repr_of(ty).signed {
            let s = s.on(s.text.cqo());
            let s = s.on(s.text.idiv_r(Gpr::Rcx));
            s
        } else {
            let s = s.on(s.text.zero_rdx());
            let s = s.on(s.text.div_r(Gpr::Rcx));
            s
        };
        s
    }

    /// Computes a binary operator on integers into `rax`.
    #[verifier::opaque]
    pub open spec fn eval_binary_into_rax(
        self,
        s: LowState,
        op: BinOp,
        lhs: Operand,
        rhs: Operand,
        ty: TypeId,
    ) -> LowState {
        let s = if compares(op) {
            let s = self.eval_compare_into_rax(s, op, lhs, rhs);
            s
        } else {
            let s = self.operand_to(s, lhs, Gpr::Rax);
            if s.err is Some {
                s
            } else {
                let s = self.operand_to(s, rhs, Gpr::Rcx);
                if s.err is Some {
                    s
                } else {
                    let s = match op {
                        BinOp::Add => {
                            let s = s.on(s.text.add_rr(Gpr::Rax, Gpr::Rcx));
                            s
                        },
                        BinOp::Sub => {
                            let s = s.on(s.text.sub_rr(Gpr::Rax, Gpr::Rcx));
                            s
                        },
                        BinOp::Mul => {
                            let s = s.on(s.text.imul_rr(Gpr::Rax, Gpr::Rcx));
                            s
                        },
                        BinOp::BitAnd => {
                            let s = s.on(s.text.and_rr(Gpr::Rax, Gpr::Rcx));
                            s
                        },
                        BinOp::BitOr => {
                            let s = s.on(s.text.or_rr(Gpr::Rax, Gpr::Rcx));
                            s
                        },
                        BinOp::BitXor => {
                            let s = s.on(s.text.xor_rr(Gpr::Rax, Gpr::Rcx));
                            s
                        },
                        BinOp::Div => {
                            let s = self.divide(s, ty);
                            s
                        },
                        BinOp::Rem => {
                            let s = self.divide(s, ty);
                            let s = s.on(s.text.mov_rr(Gpr::Rax, Gpr::Rdx));
                            s
                        },
                        BinOp::Shl => {
                            let s = s.on(s.text.shl_cl(Gpr::Rax));
                            s
                        },
                        _ => {
                            let s = if self.repr_of(ty).signed {
                                let s = s.on(s.text.sar_cl(Gpr::Rax));
                                s
                            } else {
                                let s = s.on(s.text.shr_cl(Gpr::Rax));
                                s
                            };
                            s
                        },
                    };
                    let s = self.normalize(s, Gpr::Rax, ty);
                    s
                }
            }
        };
        s
    }

    /// Computes a unary operator into `rax`.
    #[verifier::opaque]
    pub open spec fn eval_unary_into_rax(
        self,
        s: LowState,
        op: UnOp,
        operand: Operand,
        ty: TypeId,
    ) -> LowState {
        let s = self.operand_to(s, operand, Gpr::Rax);
        if s.err is Some {
            s
        } else {
            let s = match op {
                UnOp::Neg => {
                    let s = s.on(s.text.neg_r(Gpr::Rax));
                    let s = self.normalize(s, Gpr::Rax, ty);
                    s
                },
                UnOp::BitNot => {
                    let s = s.on(s.text.not_r(Gpr::Rax));
                    let s = self.normalize(s, Gpr::Rax, ty);
                    s
                },
                UnOp::Not => {
                    let s = s.on(s.text.xor_ri(Gpr::Rax, 1));
                    s
                },
            };
            s
        }
    }

    /// Computes a unary operator.
    #[verifier::opaque]
    pub open spec fn lower_unary(
        self,
        s: LowState,
        dst: LocalId,
        op: UnOp,
        operand: Operand,
        ty: TypeId,
    ) -> LowState {
        let s = self.eval_unary_into_rax(s, op, operand, ty);
        if s.err is Some {
            s
        } else {
            let s = self.store_scalar_result(s, dst);
            s
        }
    }

    /// Computes a scalar into `rax`.
    #[verifier::opaque]
    pub open spec fn eval_scalar_rvalue_into_rax(
        self,
        s: LowState,
        rvalue: Rvalue,
        val_ty: TypeId,
    ) -> LowState {
        let s = match rvalue {
            Rvalue::Use(op) => {
                let s = self.operand_to(s, op, Gpr::Rax);
                if s.err is Some {
                    s
                } else {
                    let s = self.normalize(s, Gpr::Rax, val_ty);
                    s
                }
            },
            Rvalue::Binary { op, lhs, rhs, ty } => {
                let s = self.eval_binary_into_rax(s, op, lhs, rhs, ty);
                s
            },
            Rvalue::Unary { un, operand, ty } => {
                let s = self.eval_unary_into_rax(s, un, operand, ty);
                s
            },
            Rvalue::Cast { kind, operand, ty } => {
                let s = match kind {
                    CastKind::FloatToInt => {
                        let s = self.load_float_operand(s, operand, Xmm::Xmm0);
                        if s.err is Some {
                            s
                        } else {
                            let s = s.on(s.text.cvttsd2si(Gpr::Rax, Xmm::Xmm0));
                            let s = self.normalize(s, Gpr::Rax, ty);
                            s
                        }
                    },
                    CastKind::IntToFloat => {
                        s.fail(
                            self.unsup3(
                                "rvalue "@,
                                rvalue_kind_text(rvalue),
                                " into a projected place"@,
                            ),
                        )
                    },
                    _ => {
                        let s = self.operand_to(s, operand, Gpr::Rax);
                        if s.err is Some {
                            s
                        } else {
                            let s = self.normalize(s, Gpr::Rax, ty);
                            s
                        }
                    },
                };
                s
            },
            Rvalue::Ref { place } => {
                let s = self.place_addr_general(s, place, (place.proj@.len() as usize), Gpr::Rax);
                s
            },
            _ => {
                s.fail(
                    self.unsup3("rvalue "@, rvalue_kind_text(rvalue), " into a projected place"@),
                )
            },
        };
        s
    }

    /// Converts a scalar.
    #[verifier::opaque]
    pub open spec fn lower_cast(
        self,
        s: LowState,
        dst: LocalId,
        kind: CastKind,
        operand: Operand,
        ty: TypeId,
    ) -> LowState {
        let s = match kind {
            CastKind::IntToFloat => {
                let s = self.operand_to(s, operand, Gpr::Rax);
                if s.err is Some {
                    s
                } else {
                    let s = s.on(s.text.cvtsi2sd(Xmm::Xmm0, Gpr::Rax));
                    let s = self.store_float_xmm0(s, dst);
                    s
                }
            },
            CastKind::FloatToInt => {
                let s = self.load_float_operand(s, operand, Xmm::Xmm0);
                if s.err is Some {
                    s
                } else {
                    let s = s.on(s.text.cvttsd2si(Gpr::Rax, Xmm::Xmm0));
                    let s = self.normalize(s, Gpr::Rax, ty);
                    let s = self.store_scalar_result(s, dst);
                    s
                }
            },
            _ => {
                let s = if self.is_wide_int(ty) {
                    let s = self.lower_wide_cast(s, dst, operand);
                    s
                } else if self.operand_is_wide(operand) {
                    s.fail(self.unsup("narrowing cast from a 128-bit integer (use the VM)"@))
                } else {
                    let s = self.operand_to(s, operand, Gpr::Rax);
                    if s.err is Some {
                        s
                    } else {
                        let s = self.normalize(s, Gpr::Rax, ty);
                        let s = self.store_scalar_result(s, dst);
                        s
                    }
                };
                s
            },
        };
        s
    }

    /// Puts the address of an aggregate operand into `dst`.
    #[verifier::opaque]
    pub open spec fn aggregate_operand_addr(self, s: LowState, op: Operand, dst: Gpr) -> LowState {
        let s = match op {
            Operand::Copy(p) => {
                let s = self.place_addr_general(s, p, (p.proj@.len() as usize), dst);
                s
            },
            Operand::Const(_) => {
                s.fail(self.unsup("aggregate discriminant of a non-place operand"@))
            },
        };
        s
    }

    /// Tests a scalar operand against zero into `rax`.
    #[verifier::opaque]
    pub open spec fn test_operand(self, s: LowState, op: Operand, cc: Cc) -> LowState {
        let s = self.operand_to(s, op, Gpr::Rax);
        if s.err is Some {
            s
        } else {
            let s = s.on(s.text.test_rr(Gpr::Rax, Gpr::Rax));
            let s = self.set_bool(s, cc);
            s
        }
    }

    /// The offset of the flag of an optional.
    pub open spec fn flag_offset(self, ty: TypeId) -> i32 {
        match flag_off(self.prog.arena, ty) {
            Some(o) => o as i32,
            None => 0,
        }
    }

    /// Whether an optional is null.
    #[verifier::opaque]
    pub open spec fn lower_discr_optional(
        self,
        s: LowState,
        dst: LocalId,
        operand: Operand,
    ) -> LowState {
        let s = match self.operand_type(operand) {
            Some(ty) => {
                let s = match self.ty(ty) {
                    Type::Optional(inner) => {
                        let s = if self.is_pointer(inner) {
                            let s = self.test_operand(s, operand, Cc::E);
                            s
                        } else {
                            let s = self.aggregate_operand_addr(s, operand, Gpr::R11);
                            if s.err is Some {
                                s
                            } else {
                                let s = s.on(
                                    s.text.movzx8_mem(Gpr::Rax, Gpr::R11, self.flag_offset(ty)),
                                );
                                let s = s.on(s.text.test_rr(Gpr::Rax, Gpr::Rax));
                                let s = self.set_bool(s, Cc::E);
                                s
                            }
                        };
                        s
                    },
                    _ => {
                        let s = self.test_operand(s, operand, Cc::E);
                        s
                    },
                };
                if s.err is Some {
                    s
                } else {
                    let s = self.store_scalar_result(s, dst);
                    s
                }
            },
            None => {
                s.fail(self.unsup("optional discriminant of an untyped operand"@))
            },
        };
        s
    }

    /// Whether an operand is a whole local that holds the result of an allocation.
    pub open spec fn holds_allocation(self, op: Operand) -> bool {
        match op {
            Operand::Copy(p) => p.proj@.len() == 0 && self.eu_payload_of(p.base).is_some(),
            Operand::Const(_) => false,
        }
    }

    /// Whether an error union is an error.
    #[verifier::opaque]
    pub open spec fn lower_discr_error_union(
        self,
        s: LowState,
        dst: LocalId,
        operand: Operand,
    ) -> LowState {
        let s = if self.holds_allocation(operand) || self.operand_is_error_union(operand) {
            let s = self.aggregate_operand_addr(s, operand, Gpr::R11);
            if s.err is Some {
                s
            } else {
                let s = s.on(s.text.movzx16_mem(Gpr::Rax, Gpr::R11, 0));
                let s = s.on(s.text.test_rr(Gpr::Rax, Gpr::Rax));
                let s = self.set_bool(s, Cc::Ne);
                s
            }
        } else {
            let s = self.test_operand(s, operand, Cc::Ne);
            s
        };
        if s.err is Some {
            s
        } else {
            let s = self.store_scalar_result(s, dst);
            s
        }
    }

    /// The tag type of an operand that is an enum.
    pub open spec fn enum_tag_of(self, op: Operand) -> Option<TypeId> {
        match self.operand_type(op) {
            Some(t) => match self.ty(t) {
                Type::Enum(id) => Some(self.prog.arena.enums@[id.0 as int].tag),
                _ => None,
            },
            None => None,
        }
    }

    /// Whether an operand is a constant of an enum.
    pub open spec fn is_enum_const(self, op: Operand) -> bool {
        match op {
            Operand::Copy(_) => false,
            Operand::Const(c) => match c {
                Const::EnumVal { .. } => true,
                _ => false,
            },
        }
    }

    /// The variant of an enum.
    #[verifier::opaque]
    pub open spec fn lower_discr_union(
        self,
        s: LowState,
        dst: LocalId,
        operand: Operand,
    ) -> LowState {
        let tag = self.enum_tag_of(operand);
        let s = if tag.is_none() && !self.is_enum_const(operand) {
            s.fail(self.unsup("tagged-union (non-enum) discriminant"@))
        } else {
            let s = self.operand_to(s, operand, Gpr::Rax);
            if s.err is Some {
                s
            } else {
                let s = match tag {
                    Some(t) => {
                        let s = self.normalize(s, Gpr::Rax, t);
                        s
                    },
                    None => {
                        s
                    },
                };
                let s = self.store_scalar_result(s, dst);
                s
            }
        };
        s
    }

    /// The discriminant of an operand.
    #[verifier::opaque]
    pub open spec fn lower_discriminant(
        self,
        s: LowState,
        dst: LocalId,
        operand: Operand,
        of: DiscrKind,
    ) -> LowState {
        let s = match of {
            DiscrKind::Optional => {
                let s = self.lower_discr_optional(s, dst, operand);
                s
            },
            DiscrKind::ErrorUnion => {
                let s = self.lower_discr_error_union(s, dst, operand);
                s
            },
            DiscrKind::Union => {
                let s = self.lower_discr_union(s, dst, operand);
                s
            },
        };
        s
    }
}

impl FnLower<'_> {
    /// Loads a float operand into `dst`.
    pub(crate) fn load_float_operand(
        &self,
        out: &mut Out,
        op: &Operand,
        dst: Xmm,
    ) -> (r: Result<(), CodegenError>)
        requires
            self.ok(),
            old(out).ok(),
            self.env().operand_ok(*op),
        ensures
            lowered(r, final(out)@, self.env().load_float_operand(old(out)@, *op, dst)),
            r is Ok ==> final(out).ok() && grew(old(out)@.text.labels, final(out)@.text.labels),
    {
        let ghost l0 = out@.text.labels;
        proof {
            reveal(Env::load_float_operand);
            grew_refl(l0);
        }
        match op {
            Operand::Copy(p) => {
                let ghost k1 = out@.text.labels;
                match self.place_addr_general(out, p, p.proj.len(), Gpr::R11) {
                    Ok(_) => {},
                    Err(e) => {
                        return Err(e);
                    },
                }
                proof {
                    grew_trans(l0, k1, out@.text.labels);
                }
                out.text.movsd_load(dst, Gpr::R11, 0);
            },
            Operand::Const(c) => {
                match *c {
                    Const::Float { bits, .. } => {
                        out.text.mov_ri(Gpr::Rax, signed64(bits));
                        out.text.movq_xmm_r64(dst, Gpr::Rax);
                    },
                    _ => {
                        return Err(self.unsup("float operand from a non-float constant"));
                    },
                }
            },
        }
        Ok(())
    }

    /// Stores `xmm0` to the home of a float.
    pub(crate) fn store_float_xmm0(
        &self,
        out: &mut Out,
        dst: LocalId,
    ) -> (r: Result<(), CodegenError>)
        requires
            self.ok(),
            old(out).ok(),
            dst.0 < self.env().func.locals@.len(),
        ensures
            lowered(r, final(out)@, self.env().store_float_xmm0(old(out)@, dst)),
            r is Ok ==> final(out).ok() && grew(old(out)@.text.labels, final(out)@.text.labels),
    {
        let ghost l0 = out@.text.labels;
        proof {
            reveal(Env::store_float_xmm0);
            grew_refl(l0);
        }
        match self.home(dst) {
            Some(h) => {
                out.text.movsd_store(Gpr::Rbp, h, Xmm::Xmm0);
            },
            None => {
                return Err(self.unsup("float local without a home"));
            },
        }
        Ok(())
    }

    /// Copies a float.
    pub(crate) fn lower_float_use(
        &self,
        out: &mut Out,
        dst: LocalId,
        op: &Operand,
    ) -> (r: Result<(), CodegenError>)
        requires
            self.ok(),
            old(out).ok(),
            dst.0 < self.env().func.locals@.len(),
            self.env().operand_ok(*op),
        ensures
            lowered(r, final(out)@, self.env().lower_float_use(old(out)@, dst, *op)),
            r is Ok ==> final(out).ok() && grew(old(out)@.text.labels, final(out)@.text.labels),
    {
        let ghost l0 = out@.text.labels;
        proof {
            reveal(Env::lower_float_use);
            grew_refl(l0);
        }
        let ghost k2 = out@.text.labels;
        match self.load_float_operand(out, op, Xmm::Xmm0) {
            Ok(_) => {},
            Err(e) => {
                return Err(e);
            },
        }
        proof {
            grew_trans(l0, k2, out@.text.labels);
        }
        let ghost k3 = out@.text.labels;
        match self.store_float_xmm0(out, dst) {
            Ok(_) => {},
            Err(e) => {
                return Err(e);
            },
        }
        proof {
            grew_trans(l0, k3, out@.text.labels);
        }
        Ok(())
    }

    /// Computes a binary operator on floats.
    pub(crate) fn lower_float_binary(
        &self,
        out: &mut Out,
        dst: LocalId,
        op: BinOp,
        lhs: &Operand,
        rhs: &Operand,
    ) -> (r: Result<(), CodegenError>)
        requires
            self.ok(),
            old(out).ok(),
            dst.0 < self.env().func.locals@.len(),
            self.env().operand_ok(*lhs),
            self.env().operand_ok(*rhs),
        ensures
            lowered(r, final(out)@, self.env().lower_float_binary(old(out)@, dst, op, *lhs, *rhs)),
            r is Ok ==> final(out).ok() && grew(old(out)@.text.labels, final(out)@.text.labels),
    {
        let ghost l0 = out@.text.labels;
        proof {
            reveal(Env::lower_float_binary);
            grew_refl(l0);
        }
        let ghost k4 = out@.text.labels;
        match self.load_float_operand(out, lhs, Xmm::Xmm0) {
            Ok(_) => {},
            Err(e) => {
                return Err(e);
            },
        }
        proof {
            grew_trans(l0, k4, out@.text.labels);
        }
        let ghost k5 = out@.text.labels;
        match self.load_float_operand(out, rhs, Xmm::Xmm1) {
            Ok(_) => {},
            Err(e) => {
                return Err(e);
            },
        }
        proof {
            grew_trans(l0, k5, out@.text.labels);
        }
        match op {
            BinOp::Add => {
                out.text.addsd(Xmm::Xmm0, Xmm::Xmm1);
            },
            BinOp::Sub => {
                out.text.subsd(Xmm::Xmm0, Xmm::Xmm1);
            },
            BinOp::Mul => {
                out.text.mulsd(Xmm::Xmm0, Xmm::Xmm1);
            },
            BinOp::Div => {
                out.text.divsd(Xmm::Xmm0, Xmm::Xmm1);
            },
            _ => {
                return Err(self.unsup("unsupported float binary op"));
            },
        }
        let ghost k6 = out@.text.labels;
        match self.store_float_xmm0(out, dst) {
            Ok(_) => {},
            Err(e) => {
                return Err(e);
            },
        }
        proof {
            grew_trans(l0, k6, out@.text.labels);
        }
        Ok(())
    }

    /// Puts the truth of a condition into `rax`.
    pub(crate) fn set_bool(&self, out: &mut Out, cc: Cc)
        requires
            self.ok(),
            old(out).ok(),
        ensures
            final(out)@ == self.env().set_bool(old(out)@, cc),
            final(out).ok(),
            grew(old(out)@.text.labels, final(out)@.text.labels),
    {
        let ghost l0 = out@.text.labels;
        proof {
            reveal(Env::set_bool);
            grew_refl(l0);
        }
        out.text.setcc_al(cc);
        out.text.movzx_al(Gpr::Rax);
    }

    /// Compares floats into `rax`.
    pub(crate) fn lower_float_compare_into_rax(
        &self,
        out: &mut Out,
        op: BinOp,
        lhs: &Operand,
        rhs: &Operand,
    ) -> (r: Result<(), CodegenError>)
        requires
            self.ok(),
            old(out).ok(),
            self.env().operand_ok(*lhs),
            self.env().operand_ok(*rhs),
        ensures
            lowered(
                r,
                final(out)@,
                self.env().lower_float_compare_into_rax(old(out)@, op, *lhs, *rhs),
            ),
            r is Ok ==> final(out).ok() && grew(old(out)@.text.labels, final(out)@.text.labels),
    {
        let ghost l0 = out@.text.labels;
        proof {
            reveal(Env::lower_float_compare_into_rax);
            grew_refl(l0);
        }
        let ghost k7 = out@.text.labels;
        match self.load_float_operand(out, lhs, Xmm::Xmm0) {
            Ok(_) => {},
            Err(e) => {
                return Err(e);
            },
        }
        proof {
            grew_trans(l0, k7, out@.text.labels);
        }
        let ghost k8 = out@.text.labels;
        match self.load_float_operand(out, rhs, Xmm::Xmm1) {
            Ok(_) => {},
            Err(e) => {
                return Err(e);
            },
        }
        proof {
            grew_trans(l0, k8, out@.text.labels);
        }
        out.text.ucomisd(Xmm::Xmm0, Xmm::Xmm1);
        match op {
            BinOp::Eq => {
                let ghost k9 = out@.text.labels;
                self.set_bool(out, Cc::E);
                proof {
                    grew_trans(l0, k9, out@.text.labels);
                }
            },
            BinOp::Ne => {
                let ghost k10 = out@.text.labels;
                self.set_bool(out, Cc::Ne);
                proof {
                    grew_trans(l0, k10, out@.text.labels);
                }
            },
            BinOp::Lt => {
                let ghost k11 = out@.text.labels;
                self.set_bool(out, Cc::B);
                proof {
                    grew_trans(l0, k11, out@.text.labels);
                }
            },
            BinOp::Le => {
                let ghost k12 = out@.text.labels;
                self.set_bool(out, Cc::Be);
                proof {
                    grew_trans(l0, k12, out@.text.labels);
                }
            },
            BinOp::Gt => {
                let ghost k13 = out@.text.labels;
                self.set_bool(out, Cc::A);
                proof {
                    grew_trans(l0, k13, out@.text.labels);
                }
            },
            BinOp::Ge => {
                let ghost k14 = out@.text.labels;
                self.set_bool(out, Cc::Ae);
                proof {
                    grew_trans(l0, k14, out@.text.labels);
                }
            },
            _ => {
                return Err(self.unsup("unsupported float comparison"));
            },
        }
        Ok(())
    }

    /// Stores a two-word integer.
    pub(crate) fn store_wide_int(
        &self,
        out: &mut Out,
        at: i32,
        op: &Operand,
    ) -> (r: Result<(), CodegenError>)
        requires
            self.ok(),
            old(out).ok(),
            self.env().operand_ok(*op),
        ensures
            lowered(r, final(out)@, self.env().store_wide_int(old(out)@, at, *op)),
            r is Ok ==> final(out).ok() && grew(old(out)@.text.labels, final(out)@.text.labels),
    {
        let ghost l0 = out@.text.labels;
        proof {
            reveal(Env::store_wide_int);
            grew_refl(l0);
        }
        match op {
            Operand::Copy(p) => {
                let ghost k15 = out@.text.labels;
                match self.place_addr_general(out, p, p.proj.len(), Gpr::Rax) {
                    Ok(_) => {},
                    Err(e) => {
                        return Err(e);
                    },
                }
                proof {
                    grew_trans(l0, k15, out@.text.labels);
                }
                out.text.mov_load_mem(Gpr::Rcx, Gpr::Rax, 0);
                out.text.mov_store(at, Gpr::Rcx);
                out.text.mov_load_mem(Gpr::Rcx, Gpr::Rax, 8);
                out.text.mov_store(plus(at, 8), Gpr::Rcx);
            },
            Operand::Const(c) => {
                match *c {
                    Const::Int { value, .. } => {
                        out.text.mov_ri(Gpr::Rax, lo_word(value));
                        out.text.mov_store(at, Gpr::Rax);
                        out.text.mov_ri(Gpr::Rax, hi_word(value));
                        out.text.mov_store(plus(at, 8), Gpr::Rax);
                    },
                    _ => {
                        return Err(self.unsup("wide-int store from an unsupported operand"));
                    },
                }
            },
        }
        Ok(())
    }

    /// Loads an integer as two words; a narrow one is extended.
    pub(crate) fn load_wide_operand(
        &self,
        out: &mut Out,
        op: &Operand,
        lo: Gpr,
        hi: Gpr,
    ) -> (r: Result<(), CodegenError>)
        requires
            self.ok(),
            old(out).ok(),
            self.env().operand_ok(*op),
        ensures
            lowered(r, final(out)@, self.env().load_wide_operand(old(out)@, *op, lo, hi)),
            r is Ok ==> final(out).ok() && grew(old(out)@.text.labels, final(out)@.text.labels),
    {
        let ghost l0 = out@.text.labels;
        proof {
            reveal(Env::load_wide_operand);
            grew_refl(l0);
        }
        match op {
            Operand::Copy(p) => {
                let ty: TypeId = self.place_type(p);
                if self.is_wide_int(ty) {
                    let ghost k16 = out@.text.labels;
                    match self.place_addr_general(out, p, p.proj.len(), Gpr::R11) {
                        Ok(_) => {},
                        Err(e) => {
                            return Err(e);
                        },
                    }
                    proof {
                        grew_trans(l0, k16, out@.text.labels);
                    }
                    out.text.mov_load_mem(lo, Gpr::R11, 0);
                    out.text.mov_load_mem(hi, Gpr::R11, 8);
                } else {
                    let ghost k17 = out@.text.labels;
                    match self.operand_to(out, op, lo) {
                        Ok(_) => {},
                        Err(e) => {
                            return Err(e);
                        },
                    }
                    proof {
                        grew_trans(l0, k17, out@.text.labels);
                    }
                    let ghost k18 = out@.text.labels;
                    self.normalize(out, lo, ty);
                    proof {
                        grew_trans(l0, k18, out@.text.labels);
                    }
                    if self.repr_of(ty).signed {
                        out.text.mov_rr(hi, lo);
                        out.text.sar_ri(hi, 63);
                    } else {
                        out.text.mov_ri(hi, 0);
                    }
                }
            },
            Operand::Const(c) => {
                match *c {
                    Const::Int { value, .. } => {
                        out.text.mov_ri(lo, lo_word(value));
                        out.text.mov_ri(hi, hi_word(value));
                    },
                    _ => {
                        return Err(self.unsup("128-bit operand from an unsupported operand"));
                    },
                }
            },
        }
        Ok(())
    }

    /// Stores two words.
    pub(crate) fn store_wide_pair(&self, out: &mut Out, at: i32, lo: Gpr, hi: Gpr)
        requires
            self.ok(),
            old(out).ok(),
        ensures
            final(out)@ == self.env().store_wide_pair(old(out)@, at, lo, hi),
            final(out).ok(),
            grew(old(out)@.text.labels, final(out)@.text.labels),
    {
        let ghost l0 = out@.text.labels;
        proof {
            reveal(Env::store_wide_pair);
            grew_refl(l0);
        }
        out.text.mov_store(at, lo);
        out.text.mov_store(plus(at, 8), hi);
    }

    /// Adds or subtracts two-word integers into `rax` and `rdx`.
    pub(crate) fn eval_wide_binary_into_pair(
        &self,
        out: &mut Out,
        op: BinOp,
        lhs: &Operand,
        rhs: &Operand,
    ) -> (r: Result<(), CodegenError>)
        requires
            self.ok(),
            old(out).ok(),
            self.env().operand_ok(*lhs),
            self.env().operand_ok(*rhs),
        ensures
            lowered(
                r,
                final(out)@,
                self.env().eval_wide_binary_into_pair(old(out)@, op, *lhs, *rhs),
            ),
            r is Ok ==> final(out).ok() && grew(old(out)@.text.labels, final(out)@.text.labels),
    {
        let ghost l0 = out@.text.labels;
        proof {
            reveal(Env::eval_wide_binary_into_pair);
            grew_refl(l0);
        }
        match op {
            BinOp::Add => {
                let ghost k19 = out@.text.labels;
                match self.load_wide_operand(out, lhs, Gpr::Rax, Gpr::Rdx) {
                    Ok(_) => {},
                    Err(e) => {
                        return Err(e);
                    },
                }
                proof {
                    grew_trans(l0, k19, out@.text.labels);
                }
                let ghost k20 = out@.text.labels;
                match self.load_wide_operand(out, rhs, Gpr::Rcx, Gpr::R8) {
                    Ok(_) => {},
                    Err(e) => {
                        return Err(e);
                    },
                }
                proof {
                    grew_trans(l0, k20, out@.text.labels);
                }
                out.text.add_rr(Gpr::Rax, Gpr::Rcx);
                out.text.adc_rr(Gpr::Rdx, Gpr::R8);
            },
            BinOp::Sub => {
                let ghost k21 = out@.text.labels;
                match self.load_wide_operand(out, lhs, Gpr::Rax, Gpr::Rdx) {
                    Ok(_) => {},
                    Err(e) => {
                        return Err(e);
                    },
                }
                proof {
                    grew_trans(l0, k21, out@.text.labels);
                }
                let ghost k22 = out@.text.labels;
                match self.load_wide_operand(out, rhs, Gpr::Rcx, Gpr::R8) {
                    Ok(_) => {},
                    Err(e) => {
                        return Err(e);
                    },
                }
                proof {
                    grew_trans(l0, k22, out@.text.labels);
                }
                out.text.sub_rr(Gpr::Rax, Gpr::Rcx);
                out.text.sbb_rr(Gpr::Rdx, Gpr::R8);
            },
            _ => {
                return Err(
                    self.unsup("128-bit integer multiply/divide/remainder/shift (use the VM)"),
                );
            },
        }
        Ok(())
    }

    /// Negates or complements a two-word integer into `rax` and `rdx`.
    pub(crate) fn eval_wide_unary_into_pair(
        &self,
        out: &mut Out,
        op: UnOp,
        operand: &Operand,
    ) -> (r: Result<(), CodegenError>)
        requires
            self.ok(),
            old(out).ok(),
            self.env().operand_ok(*operand),
        ensures
            lowered(r, final(out)@, self.env().eval_wide_unary_into_pair(old(out)@, op, *operand)),
            r is Ok ==> final(out).ok() && grew(old(out)@.text.labels, final(out)@.text.labels),
    {
        let ghost l0 = out@.text.labels;
        proof {
            reveal(Env::eval_wide_unary_into_pair);
            grew_refl(l0);
        }
        let ghost k23 = out@.text.labels;
        match self.load_wide_operand(out, operand, Gpr::Rax, Gpr::Rdx) {
            Ok(_) => {},
            Err(e) => {
                return Err(e);
            },
        }
        proof {
            grew_trans(l0, k23, out@.text.labels);
        }
        match op {
            UnOp::Neg => {
                out.text.not_r(Gpr::Rax);
                out.text.not_r(Gpr::Rdx);
                out.text.mov_ri(Gpr::Rcx, 1);
                out.text.mov_ri(Gpr::R8, 0);
                out.text.add_rr(Gpr::Rax, Gpr::Rcx);
                out.text.adc_rr(Gpr::Rdx, Gpr::R8);
            },
            UnOp::BitNot => {
                out.text.not_r(Gpr::Rax);
                out.text.not_r(Gpr::Rdx);
            },
            UnOp::Not => {
                return Err(self.unsup("logical not of a 128-bit integer"));
            },
        }
        Ok(())
    }

    /// Whether a conversion keeps the bits.
    pub(crate) fn extends(&self, kind: CastKind) -> (r: bool)
        requires
            self.ok(),
        ensures
            r == self.env().extends(kind),
    {
        match kind {
            CastKind::Widen => true,
            CastKind::IntNarrow => true,
            CastKind::PtrReinterpret => true,
            _ => false,
        }
    }

    /// Computes a two-word integer into `rax` and `rdx`.
    pub(crate) fn eval_wide_rvalue_into_pair(
        &self,
        out: &mut Out,
        rvalue: &Rvalue,
    ) -> (r: Result<(), CodegenError>)
        requires
            self.ok(),
            old(out).ok(),
            self.env().rvalue_ok(*rvalue),
        ensures
            lowered(r, final(out)@, self.env().eval_wide_rvalue_into_pair(old(out)@, *rvalue)),
            r is Ok ==> final(out).ok() && grew(old(out)@.text.labels, final(out)@.text.labels),
    {
        let ghost l0 = out@.text.labels;
        proof {
            reveal(Env::eval_wide_rvalue_into_pair);
            grew_refl(l0);
        }
        match rvalue {
            Rvalue::Use(op) => {
                let ghost k24 = out@.text.labels;
                match self.load_wide_operand(out, op, Gpr::Rax, Gpr::Rdx) {
                    Ok(_) => {},
                    Err(e) => {
                        return Err(e);
                    },
                }
                proof {
                    grew_trans(l0, k24, out@.text.labels);
                }
            },
            Rvalue::Binary { op, lhs, rhs, .. } => {
                let ghost k25 = out@.text.labels;
                match self.eval_wide_binary_into_pair(out, *op, lhs, rhs) {
                    Ok(_) => {},
                    Err(e) => {
                        return Err(e);
                    },
                }
                proof {
                    grew_trans(l0, k25, out@.text.labels);
                }
            },
            Rvalue::Unary { un, operand, .. } => {
                let ghost k26 = out@.text.labels;
                match self.eval_wide_unary_into_pair(out, *un, operand) {
                    Ok(_) => {},
                    Err(e) => {
                        return Err(e);
                    },
                }
                proof {
                    grew_trans(l0, k26, out@.text.labels);
                }
            },
            Rvalue::Cast { kind, operand, .. } => {
                if self.extends(*kind) {
                    let ghost k27 = out@.text.labels;
                    match self.load_wide_operand(out, operand, Gpr::Rax, Gpr::Rdx) {
                        Ok(_) => {},
                        Err(e) => {
                            return Err(e);
                        },
                    }
                    proof {
                        grew_trans(l0, k27, out@.text.labels);
                    }
                } else {
                    return Err(self.unsup3("128-bit ", rvalue_kind(rvalue), ""));
                }
            },
            _ => {
                return Err(self.unsup3("128-bit ", rvalue_kind(rvalue), ""));
            },
        }
        Ok(())
    }

    /// Adds or subtracts two-word integers.
    pub(crate) fn lower_wide_binary(
        &self,
        out: &mut Out,
        dst: LocalId,
        op: BinOp,
        lhs: &Operand,
        rhs: &Operand,
    ) -> (r: Result<(), CodegenError>)
        requires
            self.ok(),
            old(out).ok(),
            dst.0 < self.env().func.locals@.len(),
            self.env().operand_ok(*lhs),
            self.env().operand_ok(*rhs),
        ensures
            lowered(r, final(out)@, self.env().lower_wide_binary(old(out)@, dst, op, *lhs, *rhs)),
            r is Ok ==> final(out).ok() && grew(old(out)@.text.labels, final(out)@.text.labels),
    {
        let ghost l0 = out@.text.labels;
        proof {
            reveal(Env::lower_wide_binary);
            grew_refl(l0);
        }
        match self.home(dst) {
            Some(h) => {
                let ghost k28 = out@.text.labels;
                match self.eval_wide_binary_into_pair(out, op, lhs, rhs) {
                    Ok(_) => {},
                    Err(e) => {
                        return Err(e);
                    },
                }
                proof {
                    grew_trans(l0, k28, out@.text.labels);
                }
                let ghost k29 = out@.text.labels;
                self.store_wide_pair(out, h, Gpr::Rax, Gpr::Rdx);
                proof {
                    grew_trans(l0, k29, out@.text.labels);
                }
            },
            None => {
                return Err(self.unsup("wide-int binary result without a home"));
            },
        }
        Ok(())
    }

    /// Negates or complements a two-word integer.
    pub(crate) fn lower_wide_unary(
        &self,
        out: &mut Out,
        dst: LocalId,
        op: UnOp,
        operand: &Operand,
    ) -> (r: Result<(), CodegenError>)
        requires
            self.ok(),
            old(out).ok(),
            dst.0 < self.env().func.locals@.len(),
            self.env().operand_ok(*operand),
        ensures
            lowered(r, final(out)@, self.env().lower_wide_unary(old(out)@, dst, op, *operand)),
            r is Ok ==> final(out).ok() && grew(old(out)@.text.labels, final(out)@.text.labels),
    {
        let ghost l0 = out@.text.labels;
        proof {
            reveal(Env::lower_wide_unary);
            grew_refl(l0);
        }
        match self.home(dst) {
            Some(h) => {
                let ghost k30 = out@.text.labels;
                match self.eval_wide_unary_into_pair(out, op, operand) {
                    Ok(_) => {},
                    Err(e) => {
                        return Err(e);
                    },
                }
                proof {
                    grew_trans(l0, k30, out@.text.labels);
                }
                let ghost k31 = out@.text.labels;
                self.store_wide_pair(out, h, Gpr::Rax, Gpr::Rdx);
                proof {
                    grew_trans(l0, k31, out@.text.labels);
                }
            },
            None => {
                return Err(self.unsup("wide-int unary result without a home"));
            },
        }
        Ok(())
    }

    /// Converts an integer to two words.
    pub(crate) fn lower_wide_cast(
        &self,
        out: &mut Out,
        dst: LocalId,
        operand: &Operand,
    ) -> (r: Result<(), CodegenError>)
        requires
            self.ok(),
            old(out).ok(),
            dst.0 < self.env().func.locals@.len(),
            self.env().operand_ok(*operand),
        ensures
            lowered(r, final(out)@, self.env().lower_wide_cast(old(out)@, dst, *operand)),
            r is Ok ==> final(out).ok() && grew(old(out)@.text.labels, final(out)@.text.labels),
    {
        let ghost l0 = out@.text.labels;
        proof {
            reveal(Env::lower_wide_cast);
            grew_refl(l0);
        }
        match self.home(dst) {
            Some(h) => {
                let ghost k32 = out@.text.labels;
                match self.load_wide_operand(out, operand, Gpr::Rax, Gpr::Rdx) {
                    Ok(_) => {},
                    Err(e) => {
                        return Err(e);
                    },
                }
                proof {
                    grew_trans(l0, k32, out@.text.labels);
                }
                let ghost k33 = out@.text.labels;
                self.store_wide_pair(out, h, Gpr::Rax, Gpr::Rdx);
                proof {
                    grew_trans(l0, k33, out@.text.labels);
                }
            },
            None => {
                return Err(self.unsup("wide-int cast result without a home"));
            },
        }
        Ok(())
    }

    /// Compares integers, or floats, into `rax`.
    pub(crate) fn eval_compare_into_rax(
        &self,
        out: &mut Out,
        op: BinOp,
        lhs: &Operand,
        rhs: &Operand,
    ) -> (r: Result<(), CodegenError>)
        requires
            self.ok(),
            old(out).ok(),
            self.env().operand_ok(*lhs),
            self.env().operand_ok(*rhs),
            compares(op),
        ensures
            lowered(r, final(out)@, self.env().eval_compare_into_rax(old(out)@, op, *lhs, *rhs)),
            r is Ok ==> final(out).ok() && grew(old(out)@.text.labels, final(out)@.text.labels),
    {
        let ghost l0 = out@.text.labels;
        proof {
            reveal(Env::eval_compare_into_rax);
            grew_refl(l0);
        }
        if self.operand_is_float(lhs) {
            let ghost k34 = out@.text.labels;
            match self.lower_float_compare_into_rax(out, op, lhs, rhs) {
                Ok(_) => {},
                Err(e) => {
                    return Err(e);
                },
            }
            proof {
                grew_trans(l0, k34, out@.text.labels);
            }
        } else if self.operand_is_wide(lhs) {
            return Err(self.unsup("128-bit integer comparison (use the VM)"));
        } else {
            let ghost k35 = out@.text.labels;
            match self.operand_to(out, lhs, Gpr::Rax) {
                Ok(_) => {},
                Err(e) => {
                    return Err(e);
                },
            }
            proof {
                grew_trans(l0, k35, out@.text.labels);
            }
            let ghost k36 = out@.text.labels;
            match self.operand_to(out, rhs, Gpr::Rcx) {
                Ok(_) => {},
                Err(e) => {
                    return Err(e);
                },
            }
            proof {
                grew_trans(l0, k36, out@.text.labels);
            }
            out.text.cmp_rr(Gpr::Rax, Gpr::Rcx);
            let ghost k37 = out@.text.labels;
            self.set_bool(
                out,
                compare_cc(op, self.operand_signed(lhs) || self.operand_signed(rhs)),
            );
            proof {
                grew_trans(l0, k37, out@.text.labels);
            }
        }
        Ok(())
    }

    /// Whether an operand is a float.
    pub(crate) fn operand_is_float(&self, op: &Operand) -> (r: bool)
        requires
            self.ok(),
            self.env().operand_ok(*op),
        ensures
            r == self.env().operand_is_float(*op),
    {
        match self.operand_type(op) {
            Some(t) => self.is_float(t),
            None => false,
        }
    }

    /// Whether an operand is an integer of more than a word.
    pub(crate) fn operand_is_wide(&self, op: &Operand) -> (r: bool)
        requires
            self.ok(),
            self.env().operand_ok(*op),
        ensures
            r == self.env().operand_is_wide(*op),
    {
        match self.operand_type(op) {
            Some(t) => self.is_wide_int(t),
            None => false,
        }
    }

    /// Whether an operand is an error union.
    pub(crate) fn operand_is_error_union(&self, op: &Operand) -> (r: bool)
        requires
            self.ok(),
            self.env().operand_ok(*op),
        ensures
            r == self.env().operand_is_error_union(*op),
    {
        match self.operand_type(op) {
            Some(t) => self.is_error_union(t),
            None => false,
        }
    }

    /// Whether an operand is a slice.
    pub(crate) fn operand_is_slice(&self, op: &Operand) -> (r: bool)
        requires
            self.ok(),
            self.env().operand_ok(*op),
        ensures
            r == self.env().operand_is_slice(*op),
    {
        match self.operand_type(op) {
            Some(t) => self.is_slice(t),
            None => false,
        }
    }

    /// Divides `rax` by `rcx`.
    pub(crate) fn divide(&self, out: &mut Out, ty: TypeId)
        requires
            self.ok(),
            old(out).ok(),
            self.env().prog.arena.has(ty),
        ensures
            final(out)@ == self.env().divide(old(out)@, ty),
            final(out).ok(),
            grew(old(out)@.text.labels, final(out)@.text.labels),
    {
        let ghost l0 = out@.text.labels;
        proof {
            reveal(Env::divide);
            grew_refl(l0);
        }
        if self.repr_of(ty).signed {
            out.text.cqo();
            out.text.idiv_r(Gpr::Rcx);
        } else {
            out.text.zero_rdx();
            out.text.div_r(Gpr::Rcx);
        }
    }

    /// Computes a binary operator on integers into `rax`.
    pub(crate) fn eval_binary_into_rax(
        &self,
        out: &mut Out,
        op: BinOp,
        lhs: &Operand,
        rhs: &Operand,
        ty: TypeId,
    ) -> (r: Result<(), CodegenError>)
        requires
            self.ok(),
            old(out).ok(),
            self.env().operand_ok(*lhs),
            self.env().operand_ok(*rhs),
            self.env().prog.arena.has(ty),
        ensures
            lowered(r, final(out)@, self.env().eval_binary_into_rax(old(out)@, op, *lhs, *rhs, ty)),
            r is Ok ==> final(out).ok() && grew(old(out)@.text.labels, final(out)@.text.labels),
    {
        let ghost l0 = out@.text.labels;
        proof {
            reveal(Env::eval_binary_into_rax);
            grew_refl(l0);
        }
        if is_comparison(op) {
            let ghost k38 = out@.text.labels;
            match self.eval_compare_into_rax(out, op, lhs, rhs) {
                Ok(_) => {},
                Err(e) => {
                    return Err(e);
                },
            }
            proof {
                grew_trans(l0, k38, out@.text.labels);
            }
        } else {
            let ghost k39 = out@.text.labels;
            match self.operand_to(out, lhs, Gpr::Rax) {
                Ok(_) => {},
                Err(e) => {
                    return Err(e);
                },
            }
            proof {
                grew_trans(l0, k39, out@.text.labels);
            }
            let ghost k40 = out@.text.labels;
            match self.operand_to(out, rhs, Gpr::Rcx) {
                Ok(_) => {},
                Err(e) => {
                    return Err(e);
                },
            }
            proof {
                grew_trans(l0, k40, out@.text.labels);
            }
            match op {
                BinOp::Add => {
                    out.text.add_rr(Gpr::Rax, Gpr::Rcx);
                },
                BinOp::Sub => {
                    out.text.sub_rr(Gpr::Rax, Gpr::Rcx);
                },
                BinOp::Mul => {
                    out.text.imul_rr(Gpr::Rax, Gpr::Rcx);
                },
                BinOp::BitAnd => {
                    out.text.and_rr(Gpr::Rax, Gpr::Rcx);
                },
                BinOp::BitOr => {
                    out.text.or_rr(Gpr::Rax, Gpr::Rcx);
                },
                BinOp::BitXor => {
                    out.text.xor_rr(Gpr::Rax, Gpr::Rcx);
                },
                BinOp::Div => {
                    let ghost k41 = out@.text.labels;
                    self.divide(out, ty);
                    proof {
                        grew_trans(l0, k41, out@.text.labels);
                    }
                },
                BinOp::Rem => {
                    let ghost k42 = out@.text.labels;
                    self.divide(out, ty);
                    proof {
                        grew_trans(l0, k42, out@.text.labels);
                    }
                    out.text.mov_rr(Gpr::Rax, Gpr::Rdx);
                },
                BinOp::Shl => {
                    out.text.shl_cl(Gpr::Rax);
                },
                _ => {
                    if self.repr_of(ty).signed {
                        out.text.sar_cl(Gpr::Rax);
                    } else {
                        out.text.shr_cl(Gpr::Rax);
                    }
                },
            }
            let ghost k43 = out@.text.labels;
            self.normalize(out, Gpr::Rax, ty);
            proof {
                grew_trans(l0, k43, out@.text.labels);
            }
        }
        Ok(())
    }

    /// Computes a unary operator into `rax`.
    pub(crate) fn eval_unary_into_rax(
        &self,
        out: &mut Out,
        op: UnOp,
        operand: &Operand,
        ty: TypeId,
    ) -> (r: Result<(), CodegenError>)
        requires
            self.ok(),
            old(out).ok(),
            self.env().operand_ok(*operand),
            self.env().prog.arena.has(ty),
        ensures
            lowered(r, final(out)@, self.env().eval_unary_into_rax(old(out)@, op, *operand, ty)),
            r is Ok ==> final(out).ok() && grew(old(out)@.text.labels, final(out)@.text.labels),
    {
        let ghost l0 = out@.text.labels;
        proof {
            reveal(Env::eval_unary_into_rax);
            grew_refl(l0);
        }
        let ghost k44 = out@.text.labels;
        match self.operand_to(out, operand, Gpr::Rax) {
            Ok(_) => {},
            Err(e) => {
                return Err(e);
            },
        }
        proof {
            grew_trans(l0, k44, out@.text.labels);
        }
        match op {
            UnOp::Neg => {
                out.text.neg_r(Gpr::Rax);
                let ghost k45 = out@.text.labels;
                self.normalize(out, Gpr::Rax, ty);
                proof {
                    grew_trans(l0, k45, out@.text.labels);
                }
            },
            UnOp::BitNot => {
                out.text.not_r(Gpr::Rax);
                let ghost k46 = out@.text.labels;
                self.normalize(out, Gpr::Rax, ty);
                proof {
                    grew_trans(l0, k46, out@.text.labels);
                }
            },
            UnOp::Not => {
                out.text.xor_ri(Gpr::Rax, 1);
            },
        }
        Ok(())
    }

    /// Computes a unary operator.
    pub(crate) fn lower_unary(
        &self,
        out: &mut Out,
        dst: LocalId,
        op: UnOp,
        operand: &Operand,
        ty: TypeId,
    ) -> (r: Result<(), CodegenError>)
        requires
            self.ok(),
            old(out).ok(),
            dst.0 < self.env().func.locals@.len(),
            self.env().operand_ok(*operand),
            self.env().prog.arena.has(ty),
        ensures
            lowered(r, final(out)@, self.env().lower_unary(old(out)@, dst, op, *operand, ty)),
            r is Ok ==> final(out).ok() && grew(old(out)@.text.labels, final(out)@.text.labels),
    {
        let ghost l0 = out@.text.labels;
        proof {
            reveal(Env::lower_unary);
            grew_refl(l0);
        }
        let ghost k47 = out@.text.labels;
        match self.eval_unary_into_rax(out, op, operand, ty) {
            Ok(_) => {},
            Err(e) => {
                return Err(e);
            },
        }
        proof {
            grew_trans(l0, k47, out@.text.labels);
        }
        let ghost k48 = out@.text.labels;
        self.store_scalar_result(out, dst);
        proof {
            grew_trans(l0, k48, out@.text.labels);
        }
        Ok(())
    }

    /// Computes a scalar into `rax`.
    pub(crate) fn eval_scalar_rvalue_into_rax(
        &self,
        out: &mut Out,
        rvalue: &Rvalue,
        val_ty: TypeId,
    ) -> (r: Result<(), CodegenError>)
        requires
            self.ok(),
            old(out).ok(),
            self.env().rvalue_ok(*rvalue),
            self.env().prog.arena.has(val_ty),
        ensures
            lowered(
                r,
                final(out)@,
                self.env().eval_scalar_rvalue_into_rax(old(out)@, *rvalue, val_ty),
            ),
            r is Ok ==> final(out).ok() && grew(old(out)@.text.labels, final(out)@.text.labels),
    {
        let ghost l0 = out@.text.labels;
        proof {
            reveal(Env::eval_scalar_rvalue_into_rax);
            grew_refl(l0);
        }
        match rvalue {
            Rvalue::Use(op) => {
                let ghost k49 = out@.text.labels;
                match self.operand_to(out, op, Gpr::Rax) {
                    Ok(_) => {},
                    Err(e) => {
                        return Err(e);
                    },
                }
                proof {
                    grew_trans(l0, k49, out@.text.labels);
                }
                let ghost k50 = out@.text.labels;
                self.normalize(out, Gpr::Rax, val_ty);
                proof {
                    grew_trans(l0, k50, out@.text.labels);
                }
            },
            Rvalue::Binary { op, lhs, rhs, ty } => {
                let ghost k51 = out@.text.labels;
                match self.eval_binary_into_rax(out, *op, lhs, rhs, *ty) {
                    Ok(_) => {},
                    Err(e) => {
                        return Err(e);
                    },
                }
                proof {
                    grew_trans(l0, k51, out@.text.labels);
                }
            },
            Rvalue::Unary { un, operand, ty } => {
                let ghost k52 = out@.text.labels;
                match self.eval_unary_into_rax(out, *un, operand, *ty) {
                    Ok(_) => {},
                    Err(e) => {
                        return Err(e);
                    },
                }
                proof {
                    grew_trans(l0, k52, out@.text.labels);
                }
            },
            Rvalue::Cast { kind, operand, ty } => {
                match *kind {
                    CastKind::FloatToInt => {
                        let ghost k53 = out@.text.labels;
                        match self.load_float_operand(out, operand, Xmm::Xmm0) {
                            Ok(_) => {},
                            Err(e) => {
                                return Err(e);
                            },
                        }
                        proof {
                            grew_trans(l0, k53, out@.text.labels);
                        }
                        out.text.cvttsd2si(Gpr::Rax, Xmm::Xmm0);
                        let ghost k54 = out@.text.labels;
                        self.normalize(out, Gpr::Rax, *ty);
                        proof {
                            grew_trans(l0, k54, out@.text.labels);
                        }
                    },
                    CastKind::IntToFloat => {
                        return Err(
                            self.unsup3("rvalue ", rvalue_kind(rvalue), " into a projected place"),
                        );
                    },
                    _ => {
                        let ghost k55 = out@.text.labels;
                        match self.operand_to(out, operand, Gpr::Rax) {
                            Ok(_) => {},
                            Err(e) => {
                                return Err(e);
                            },
                        }
                        proof {
                            grew_trans(l0, k55, out@.text.labels);
                        }
                        let ghost k56 = out@.text.labels;
                        self.normalize(out, Gpr::Rax, *ty);
                        proof {
                            grew_trans(l0, k56, out@.text.labels);
                        }
                    },
                }
            },
            Rvalue::Ref { place } => {
                let ghost k57 = out@.text.labels;
                match self.place_addr_general(out, place, place.proj.len(), Gpr::Rax) {
                    Ok(_) => {},
                    Err(e) => {
                        return Err(e);
                    },
                }
                proof {
                    grew_trans(l0, k57, out@.text.labels);
                }
            },
            _ => {
                return Err(self.unsup3("rvalue ", rvalue_kind(rvalue), " into a projected place"));
            },
        }
        Ok(())
    }

    /// Converts a scalar.
    pub(crate) fn lower_cast(
        &self,
        out: &mut Out,
        dst: LocalId,
        kind: CastKind,
        operand: &Operand,
        ty: TypeId,
    ) -> (r: Result<(), CodegenError>)
        requires
            self.ok(),
            old(out).ok(),
            dst.0 < self.env().func.locals@.len(),
            self.env().operand_ok(*operand),
            self.env().prog.arena.has(ty),
        ensures
            lowered(r, final(out)@, self.env().lower_cast(old(out)@, dst, kind, *operand, ty)),
            r is Ok ==> final(out).ok() && grew(old(out)@.text.labels, final(out)@.text.labels),
    {
        let ghost l0 = out@.text.labels;
        proof {
            reveal(Env::lower_cast);
            grew_refl(l0);
        }
        match kind {
            CastKind::IntToFloat => {
                let ghost k58 = out@.text.labels;
                match self.operand_to(out, operand, Gpr::Rax) {
                    Ok(_) => {},
                    Err(e) => {
                        return Err(e);
                    },
                }
                proof {
                    grew_trans(l0, k58, out@.text.labels);
                }
                out.text.cvtsi2sd(Xmm::Xmm0, Gpr::Rax);
                let ghost k59 = out@.text.labels;
                match self.store_float_xmm0(out, dst) {
                    Ok(_) => {},
                    Err(e) => {
                        return Err(e);
                    },
                }
                proof {
                    grew_trans(l0, k59, out@.text.labels);
                }
            },
            CastKind::FloatToInt => {
                let ghost k60 = out@.text.labels;
                match self.load_float_operand(out, operand, Xmm::Xmm0) {
                    Ok(_) => {},
                    Err(e) => {
                        return Err(e);
                    },
                }
                proof {
                    grew_trans(l0, k60, out@.text.labels);
                }
                out.text.cvttsd2si(Gpr::Rax, Xmm::Xmm0);
                let ghost k61 = out@.text.labels;
                self.normalize(out, Gpr::Rax, ty);
                proof {
                    grew_trans(l0, k61, out@.text.labels);
                }
                let ghost k62 = out@.text.labels;
                self.store_scalar_result(out, dst);
                proof {
                    grew_trans(l0, k62, out@.text.labels);
                }
            },
            _ => {
                if self.is_wide_int(ty) {
                    let ghost k63 = out@.text.labels;
                    match self.lower_wide_cast(out, dst, operand) {
                        Ok(_) => {},
                        Err(e) => {
                            return Err(e);
                        },
                    }
                    proof {
                        grew_trans(l0, k63, out@.text.labels);
                    }
                } else if self.operand_is_wide(operand) {
                    return Err(self.unsup("narrowing cast from a 128-bit integer (use the VM)"));
                } else {
                    let ghost k64 = out@.text.labels;
                    match self.operand_to(out, operand, Gpr::Rax) {
                        Ok(_) => {},
                        Err(e) => {
                            return Err(e);
                        },
                    }
                    proof {
                        grew_trans(l0, k64, out@.text.labels);
                    }
                    let ghost k65 = out@.text.labels;
                    self.normalize(out, Gpr::Rax, ty);
                    proof {
                        grew_trans(l0, k65, out@.text.labels);
                    }
                    let ghost k66 = out@.text.labels;
                    self.store_scalar_result(out, dst);
                    proof {
                        grew_trans(l0, k66, out@.text.labels);
                    }
                }
            },
        }
        Ok(())
    }

    /// Puts the address of an aggregate operand into `dst`.
    pub(crate) fn aggregate_operand_addr(
        &self,
        out: &mut Out,
        op: &Operand,
        dst: Gpr,
    ) -> (r: Result<(), CodegenError>)
        requires
            self.ok(),
            old(out).ok(),
            self.env().operand_ok(*op),
        ensures
            lowered(r, final(out)@, self.env().aggregate_operand_addr(old(out)@, *op, dst)),
            r is Ok ==> final(out).ok() && grew(old(out)@.text.labels, final(out)@.text.labels),
    {
        let ghost l0 = out@.text.labels;
        proof {
            reveal(Env::aggregate_operand_addr);
            grew_refl(l0);
        }
        match op {
            Operand::Copy(p) => {
                let ghost k67 = out@.text.labels;
                match self.place_addr_general(out, p, p.proj.len(), dst) {
                    Ok(_) => {},
                    Err(e) => {
                        return Err(e);
                    },
                }
                proof {
                    grew_trans(l0, k67, out@.text.labels);
                }
            },
            Operand::Const(_) => {
                return Err(self.unsup("aggregate discriminant of a non-place operand"));
            },
        }
        Ok(())
    }

    /// Tests a scalar operand against zero into `rax`.
    pub(crate) fn test_operand(
        &self,
        out: &mut Out,
        op: &Operand,
        cc: Cc,
    ) -> (r: Result<(), CodegenError>)
        requires
            self.ok(),
            old(out).ok(),
            self.env().operand_ok(*op),
        ensures
            lowered(r, final(out)@, self.env().test_operand(old(out)@, *op, cc)),
            r is Ok ==> final(out).ok() && grew(old(out)@.text.labels, final(out)@.text.labels),
    {
        let ghost l0 = out@.text.labels;
        proof {
            reveal(Env::test_operand);
            grew_refl(l0);
        }
        let ghost k68 = out@.text.labels;
        match self.operand_to(out, op, Gpr::Rax) {
            Ok(_) => {},
            Err(e) => {
                return Err(e);
            },
        }
        proof {
            grew_trans(l0, k68, out@.text.labels);
        }
        out.text.test_rr(Gpr::Rax, Gpr::Rax);
        let ghost k69 = out@.text.labels;
        self.set_bool(out, cc);
        proof {
            grew_trans(l0, k69, out@.text.labels);
        }
        Ok(())
    }

    /// The offset of the flag of an optional.
    pub(crate) fn flag_offset(&self, ty: TypeId) -> (r: i32)
        requires
            self.ok(),
            self.env().prog.arena.has(ty),
        ensures
            r == self.env().flag_offset(ty),
    {
        match optional_flag_off(&self.prog.arena, ty) {
            Some(o) => o as i32,
            None => 0,
        }
    }

    /// Whether an optional is null.
    pub(crate) fn lower_discr_optional(
        &self,
        out: &mut Out,
        dst: LocalId,
        operand: &Operand,
    ) -> (r: Result<(), CodegenError>)
        requires
            self.ok(),
            old(out).ok(),
            dst.0 < self.env().func.locals@.len(),
            self.env().operand_ok(*operand),
        ensures
            lowered(r, final(out)@, self.env().lower_discr_optional(old(out)@, dst, *operand)),
            r is Ok ==> final(out).ok() && grew(old(out)@.text.labels, final(out)@.text.labels),
    {
        let ghost l0 = out@.text.labels;
        proof {
            reveal(Env::lower_discr_optional);
            grew_refl(l0);
        }
        match self.operand_type(operand) {
            Some(ty) => {
                match self.ty(ty) {
                    Type::Optional(inner) => {
                        if self.is_pointer(inner) {
                            let ghost k70 = out@.text.labels;
                            match self.test_operand(out, operand, Cc::E) {
                                Ok(_) => {},
                                Err(e) => {
                                    return Err(e);
                                },
                            }
                            proof {
                                grew_trans(l0, k70, out@.text.labels);
                            }
                        } else {
                            let ghost k71 = out@.text.labels;
                            match self.aggregate_operand_addr(out, operand, Gpr::R11) {
                                Ok(_) => {},
                                Err(e) => {
                                    return Err(e);
                                },
                            }
                            proof {
                                grew_trans(l0, k71, out@.text.labels);
                            }
                            out.text.movzx8_mem(Gpr::Rax, Gpr::R11, self.flag_offset(ty));
                            out.text.test_rr(Gpr::Rax, Gpr::Rax);
                            let ghost k72 = out@.text.labels;
                            self.set_bool(out, Cc::E);
                            proof {
                                grew_trans(l0, k72, out@.text.labels);
                            }
                        }
                    },
                    _ => {
                        let ghost k73 = out@.text.labels;
                        match self.test_operand(out, operand, Cc::E) {
                            Ok(_) => {},
                            Err(e) => {
                                return Err(e);
                            },
                        }
                        proof {
                            grew_trans(l0, k73, out@.text.labels);
                        }
                    },
                }
                let ghost k74 = out@.text.labels;
                self.store_scalar_result(out, dst);
                proof {
                    grew_trans(l0, k74, out@.text.labels);
                }
            },
            None => {
                return Err(self.unsup("optional discriminant of an untyped operand"));
            },
        }
        Ok(())
    }

    /// Whether an operand is a whole local that holds the result of an allocation.
    pub(crate) fn holds_allocation(&self, op: &Operand) -> (r: bool)
        requires
            self.ok(),
            self.env().operand_ok(*op),
        ensures
            r == self.env().holds_allocation(*op),
    {
        match op {
            Operand::Copy(p) => p.proj.len() == 0 && self.eu_payload_of(p.base).is_some(),
            Operand::Const(_) => false,
        }
    }

    /// Whether an error union is an error.
    pub(crate) fn lower_discr_error_union(
        &self,
        out: &mut Out,
        dst: LocalId,
        operand: &Operand,
    ) -> (r: Result<(), CodegenError>)
        requires
            self.ok(),
            old(out).ok(),
            dst.0 < self.env().func.locals@.len(),
            self.env().operand_ok(*operand),
        ensures
            lowered(r, final(out)@, self.env().lower_discr_error_union(old(out)@, dst, *operand)),
            r is Ok ==> final(out).ok() && grew(old(out)@.text.labels, final(out)@.text.labels),
    {
        let ghost l0 = out@.text.labels;
        proof {
            reveal(Env::lower_discr_error_union);
            grew_refl(l0);
        }
        if self.holds_allocation(operand) || self.operand_is_error_union(operand) {
            let ghost k75 = out@.text.labels;
            match self.aggregate_operand_addr(out, operand, Gpr::R11) {
                Ok(_) => {},
                Err(e) => {
                    return Err(e);
                },
            }
            proof {
                grew_trans(l0, k75, out@.text.labels);
            }
            out.text.movzx16_mem(Gpr::Rax, Gpr::R11, 0);
            out.text.test_rr(Gpr::Rax, Gpr::Rax);
            let ghost k76 = out@.text.labels;
            self.set_bool(out, Cc::Ne);
            proof {
                grew_trans(l0, k76, out@.text.labels);
            }
        } else {
            let ghost k77 = out@.text.labels;
            match self.test_operand(out, operand, Cc::Ne) {
                Ok(_) => {},
                Err(e) => {
                    return Err(e);
                },
            }
            proof {
                grew_trans(l0, k77, out@.text.labels);
            }
        }
        let ghost k78 = out@.text.labels;
        self.store_scalar_result(out, dst);
        proof {
            grew_trans(l0, k78, out@.text.labels);
        }
        Ok(())
    }

    /// The tag type of an operand that is an enum.
    pub(crate) fn enum_tag_of(&self, op: &Operand) -> (r: Option<TypeId>)
        requires
            self.ok(),
            self.env().operand_ok(*op),
        ensures
            r == self.env().enum_tag_of(*op),
            r matches Some(t) ==> self.env().prog.arena.has(t),
    {
        match self.operand_type(op) {
            Some(t) => match self.ty(t) {
                Type::Enum(id) => Some(self.prog.arena.enums[id.0 as usize].tag),
                _ => None,
            },
            None => None,
        }
    }

    /// Whether an operand is a constant of an enum.
    pub(crate) fn is_enum_const(&self, op: &Operand) -> (r: bool)
        requires
            self.ok(),
        ensures
            r == self.env().is_enum_const(*op),
    {
        match op {
            Operand::Copy(_) => false,
            Operand::Const(c) => match *c {
                Const::EnumVal { .. } => true,
                _ => false,
            },
        }
    }

    /// The variant of an enum.
    pub(crate) fn lower_discr_union(
        &self,
        out: &mut Out,
        dst: LocalId,
        operand: &Operand,
    ) -> (r: Result<(), CodegenError>)
        requires
            self.ok(),
            old(out).ok(),
            dst.0 < self.env().func.locals@.len(),
            self.env().operand_ok(*operand),
        ensures
            lowered(r, final(out)@, self.env().lower_discr_union(old(out)@, dst, *operand)),
            r is Ok ==> final(out).ok() && grew(old(out)@.text.labels, final(out)@.text.labels),
    {
        let ghost l0 = out@.text.labels;
        proof {
            reveal(Env::lower_discr_union);
            grew_refl(l0);
        }
        let tag: Option<TypeId> = self.enum_tag_of(operand);
        if tag.is_none() && !self.is_enum_const(operand) {
            return Err(self.unsup("tagged-union (non-enum) discriminant"));
        } else {
            let ghost k79 = out@.text.labels;
            match self.operand_to(out, operand, Gpr::Rax) {
                Ok(_) => {},
                Err(e) => {
                    return Err(e);
                },
            }
            proof {
                grew_trans(l0, k79, out@.text.labels);
            }
            match tag {
                Some(t) => {
                    let ghost k80 = out@.text.labels;
                    self.normalize(out, Gpr::Rax, t);
                    proof {
                        grew_trans(l0, k80, out@.text.labels);
                    }
                },
                None => {},
            }
            let ghost k81 = out@.text.labels;
            self.store_scalar_result(out, dst);
            proof {
                grew_trans(l0, k81, out@.text.labels);
            }
        }
        Ok(())
    }

    /// The discriminant of an operand.
    pub(crate) fn lower_discriminant(
        &self,
        out: &mut Out,
        dst: LocalId,
        operand: &Operand,
        of: DiscrKind,
    ) -> (r: Result<(), CodegenError>)
        requires
            self.ok(),
            old(out).ok(),
            dst.0 < self.env().func.locals@.len(),
            self.env().operand_ok(*operand),
        ensures
            lowered(r, final(out)@, self.env().lower_discriminant(old(out)@, dst, *operand, of)),
            r is Ok ==> final(out).ok() && grew(old(out)@.text.labels, final(out)@.text.labels),
    {
        let ghost l0 = out@.text.labels;
        proof {
            reveal(Env::lower_discriminant);
            grew_refl(l0);
        }
        match of {
            DiscrKind::Optional => {
                let ghost k82 = out@.text.labels;
                match self.lower_discr_optional(out, dst, operand) {
                    Ok(_) => {},
                    Err(e) => {
                        return Err(e);
                    },
                }
                proof {
                    grew_trans(l0, k82, out@.text.labels);
                }
            },
            DiscrKind::ErrorUnion => {
                let ghost k83 = out@.text.labels;
                match self.lower_discr_error_union(out, dst, operand) {
                    Ok(_) => {},
                    Err(e) => {
                        return Err(e);
                    },
                }
                proof {
                    grew_trans(l0, k83, out@.text.labels);
                }
            },
            DiscrKind::Union => {
                let ghost k84 = out@.text.labels;
                match self.lower_discr_union(out, dst, operand) {
                    Ok(_) => {},
                    Err(e) => {
                        return Err(e);
                    },
                }
                proof {
                    grew_trans(l0, k84, out@.text.labels);
                }
            },
        }
        Ok(())
    }
}

} // verus!
