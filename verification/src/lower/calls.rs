//! Calls and parameters.
use vstd::prelude::*;

use crate::lower::env::{Env, FnLower, LowState, Out, grew, grew_refl, grew_trans, lowered};
use crate::bytes::copy_bytes;
use crate::lower::abi::{
    ArgCursor, Passed, class_of, classify, first_arg, is_slice_literal, round_up_i32, rounded32,
    slice_literal, start_args,
};
use crate::lower::agg::SliceConst;
use crate::lower::env::{ArgClass, signature_ok};
use crate::lower::scalar::{plus, sum32};
use crate::mir::{ConstId, FnAbi, LocalId, Operand};
use crate::mir_ids::FnId;
use crate::reg::{
    ARG_REG_COUNT, Gpr, SSE_ARG_REG_COUNT, Xmm, arg_reg, arg_reg_at, sse_arg_reg, sse_arg_reg_at,
};
use crate::text::{has_prefix, same_str};
use crate::types::{T_STR, TypeId};
use crate::CodegenError;

verus! {

/// The `i`-th integer argument register.
pub open spec fn int_reg_at(i: usize) -> Gpr {
    arg_reg_at(i as int)
}

/// The `i`-th SSE argument register.
pub open spec fn sse_reg_at(i: usize) -> Xmm {
    sse_arg_reg_at(i as int)
}

impl Env {
    /// See [`Scope::as_c_string`].
    pub open spec fn as_c_string(self, func: FnId, arg: Operand, i: usize) -> bool {
        self.scope().as_c_string(func, arg, i)
    }

    /// See [`Scope::type_or_ret`].
    pub open spec fn type_or_ret(self, arg: Operand) -> TypeId {
        self.scope().type_or_ret(arg)
    }

    /// See [`Scope::arg_spot`].
    pub open spec fn arg_spot(self, func: FnId, arg: Operand, i: usize, c: ArgCursor) -> Passed {
        self.scope().arg_spot(func, arg, i, c)
    }

    /// See [`Scope::arg_next`].
    pub open spec fn arg_next(self, func: FnId, arg: Operand, i: usize, c: ArgCursor) -> ArgCursor {
        self.scope().arg_next(func, arg, i, c)
    }

    /// See [`first_arg`].
    pub open spec fn first_arg(self, hidden: bool) -> ArgCursor {
        first_arg(hidden)
    }

    /// Whether a scalar parameter of `func` gets an aggregate of more than a word.
    pub open spec fn misfit(self, func: FnId, arg: Operand, i: usize) -> bool {
        let callee = self.prog.funcs@[func.0 as int];
        let pty = callee.locals@[callee.params@[i as int].0 as int].ty;
        &&& !self.in_memory(pty) && !self.is_float(pty) && self.layout(pty).size <= 8
        &&& !(is_slice_literal(arg) && self.ty(pty) is Pointer)
        &&& match self.passed_type(arg) {
            Some(t) => self.in_memory(t) && self.layout(t).size > 8,
            None => false,
        }
    }

    /// The type of an argument, a literal slice counted as a string.
    pub open spec fn passed_type(self, arg: Operand) -> Option<TypeId> {
        if is_slice_literal(arg) {
            Some(TypeId(T_STR))
        } else {
            self.operand_type(arg)
        }
    }

    /// Whether the function is a test.
    pub open spec fn in_test(self) -> bool {
        self.func.name@ == "test"@ || "test "@.is_prefix_of(self.func.name@)
    }

    /// Whether a call is refused for an aggregate passed to a scalar parameter.
    pub open spec fn refuses_args(self, func: FnId, args: Seq<Operand>) -> bool {
        &&& !self.in_test()
        &&& exists|i: int|
            0 <= i < args.len() && i < self.prog.funcs@[func.0 as int].params@.len() && self.misfit(
                func,
                #[trigger] args[i],
                i as usize,
            )
    }

    /// How many SSE registers the arguments take.
    pub open spec fn sse_used(self, func: FnId, args: Seq<Operand>, hidden: bool) -> usize {
        self.scope().args_end(func, args, 0, first_arg(hidden)).sses
    }

    /// A string constant as a C string: its bytes and a zero.
    pub open spec fn c_string(self, id: ConstId) -> Seq<u8> {
        self.const_bytes(id).push(0)
    }
}

impl FnLower<'_> {
    fn as_c_string(&self, func: FnId, arg: &Operand, i: usize) -> (r: bool)
        requires
            self.ok(),
            func.0 < self.env().prog.funcs@.len(),
        ensures
            r == self.env().as_c_string(func, *arg, i),
    {
        self.scope_ref().as_c_string(func, arg, i)
    }

    pub(crate) fn type_or_ret(&self, arg: &Operand) -> (r: TypeId)
        requires
            self.ok(),
            self.env().operand_ok(*arg),
        ensures
            r == self.env().type_or_ret(*arg),
            self.env().prog.arena.has(r),
    {
        self.scope_ref().type_or_ret(arg)
    }

    fn arg_spot(&self, func: FnId, arg: &Operand, i: usize, c: ArgCursor) -> (r: Passed)
        requires
            self.ok(),
            func.0 < self.env().prog.funcs@.len(),
            self.env().operand_ok(*arg),
        ensures
            r == self.env().arg_spot(func, *arg, i, c),
            match r {
                Passed::Int(n) => n < ARG_REG_COUNT,
                Passed::Sse(n) => n < SSE_ARG_REG_COUNT,
                Passed::MemInt(n, _) => n + 1 < ARG_REG_COUNT,
                _ => true,
            },
    {
        self.scope_ref().arg_spot(func, arg, i, c)
    }

    fn arg_next(&self, func: FnId, arg: &Operand, i: usize, c: ArgCursor) -> (r: ArgCursor)
        requires
            self.ok(),
            func.0 < self.env().prog.funcs@.len(),
            self.env().operand_ok(*arg),
        ensures
            r == self.env().arg_next(func, *arg, i, c),
    {
        self.scope_ref().arg_next(func, arg, i, c)
    }

    fn first_arg(&self, hidden: bool) -> (r: ArgCursor)
        ensures
            r == self.env().first_arg(hidden),
    {
        start_args(hidden)
    }

    fn misfit(&self, func: FnId, arg: &Operand, i: usize) -> (r: bool)
        requires
            self.ok(),
            func.0 < self.env().prog.funcs@.len(),
            i < self.env().prog.funcs@[func.0 as int].params@.len(),
            self.env().operand_ok(*arg),
        ensures
            r == self.env().misfit(func, *arg, i),
    {
        let callee = &self.prog.funcs[func.0 as usize];
        assert(signature_ok(self.prog.arena, self.prog.funcs@[func.0 as int]));
        assert(callee.params@[i as int].0 < callee.locals@.len());
        assert(self.prog.arena.has(callee.locals@[callee.params@[i as int].0 as int].ty));
        let pty: TypeId = callee.locals[callee.params[i].0 as usize].ty;
        let scalar: bool = !self.in_memory(pty) && !self.is_float(pty) && self.layout(pty).size <= 8;
        if !scalar {
            return false;
        }
        if slice_literal(arg) && self.is_pointer(pty) {
            return false;
        }
        let aty: Option<TypeId> = if slice_literal(arg) {
            Some(TypeId(T_STR))
        } else {
            self.operand_type(arg)
        };
        match aty {
            Some(t) => self.in_memory(t) && self.layout(t).size > 8,
            None => false,
        }
    }

    fn in_test(&self) -> (r: bool)
        ensures
            r == self.env().in_test(),
    {
        same_str(self.func.name.as_str(), "test") || has_prefix(self.func.name.as_str(), "test ")
    }

    fn refuses_args(&self, func: FnId, args: &Vec<Operand>) -> (r: bool)
        requires
            self.ok(),
            func.0 < self.env().prog.funcs@.len(),
            self.env().operands_ok(args@),
        ensures
            r == self.env().refuses_args(func, args@),
    {
        if self.in_test() {
            return false;
        }
        let n: usize = self.prog.funcs[func.0 as usize].params.len();
        let mut i: usize = 0;
        while i < n && i < args.len()
            invariant
                self.ok(),
                func.0 < self.env().prog.funcs@.len(),
                self.env().operands_ok(args@),
                n == self.prog.funcs@[func.0 as int].params@.len(),
                i <= n,
                i <= args@.len(),
                !self.env().in_test(),
                forall|k: int|
                    0 <= k < i ==> !self.env().misfit(func, #[trigger] args@[k], k as usize),
            decreases n - i,
        {
            assert(self.env().operand_ok(args@[i as int]));
            if self.misfit(func, &args[i], i) {
                assert(self.env().misfit(func, args@[i as int], i as usize));
                return true;
            }
            i = i + 1;
        }
        false
    }

    fn sse_used(&self, func: FnId, args: &Vec<Operand>, hidden: bool) -> (r: usize)
        requires
            self.ok(),
            func.0 < self.env().prog.funcs@.len(),
            self.env().operands_ok(args@),
        ensures
            r == self.env().sse_used(func, args@, hidden),
    {
        let mut c: ArgCursor = self.first_arg(hidden);
        let ghost want = self.env().scope().args_end(func, args@, 0, c);
        let mut i: usize = 0;
        while i < args.len()
            invariant
                self.ok(),
                func.0 < self.env().prog.funcs@.len(),
                self.env().operands_ok(args@),
                i <= args@.len(),
                want == self.env().scope().args_end(func, args@, i as int, c),
            decreases args@.len() - i,
        {
            assert(self.env().operand_ok(args@[i as int]));
            c = self.arg_next(func, &args[i], i, c);
            i = i + 1;
        }
        c.sses
    }

    fn c_string(&self, id: ConstId) -> (r: Vec<u8>)
        requires
            id.0 < self.env().prog.consts@.len(),
            self.env().has_bytes(id),
        ensures
            r@ == self.env().c_string(id),
    {
        let mut v: Vec<u8> = copy_bytes(self.const_bytes(id).as_slice());
        v.push(0);
        v
    }
}

impl Env {
    /// Puts a pointer to a C string into `dst`.
    #[verifier::opaque]
    pub open spec fn cstr_ptr_to(self, s: LowState, arg: Operand, dst: Gpr) -> LowState {
        let s = match self.slice_const(arg) {
            SliceConst::Bytes(id) => {
                let off = s.ro.offset_of(self.c_string(id));
                let s = s.with_data(self.c_string(id));
                let s = s.on(s.text.mov_ri_data(dst, off));
                s
            },
            _ => {
                let s = s.on(s.text.mov_ri(dst, 0));
                s
            },
        };
        s
    }

    /// Passes an argument, if it goes on the stack.
    #[verifier::opaque]
    pub open spec fn pass_on_stack(
        self,
        s: LowState,
        func: FnId,
        arg: Operand,
        i: usize,
        c: ArgCursor,
    ) -> LowState {
        let s = match self.arg_spot(func, arg, i, c) {
            Passed::Stack(off) => {
                let s = if self.as_c_string(func, arg, i) {
                    let s = self.cstr_ptr_to(s, arg, Gpr::Rax);
                    let s = s.on(s.text.mov_store_mem(Gpr::Rsp, off, Gpr::Rax));
                    s
                } else if self.is_float(self.type_or_ret(arg)) {
                    let s = self.load_float_operand(s, arg, Xmm::Xmm0);
                    if s.err is Some {
                        s
                    } else {
                        let s = s.on(s.text.movsd_store(Gpr::Rsp, off, Xmm::Xmm0));
                        s
                    }
                } else {
                    let s = self.operand_to(s, arg, Gpr::Rax);
                    if s.err is Some {
                        s
                    } else {
                        let s = s.on(s.text.mov_store_mem(Gpr::Rsp, off, Gpr::Rax));
                        s
                    }
                };
                s
            },
            Passed::MemStack(off, size) => {
                let s = match arg {
                    Operand::Copy(p) => {
                        let s = self.place_addr_general(s, p, (p.proj@.len() as usize), Gpr::Rax);
                        if s.err is Some {
                            s
                        } else {
                            let s = s.on(s.text.mov_rr(Gpr::R11, Gpr::Rsp));
                            let s = s.on(s.text.add_ri(Gpr::R11, off));
                            let s = self.memcpy(s, Gpr::R11, Gpr::Rax, size);
                            s
                        }
                    },
                    Operand::Const(_) => {
                        let s = match self.slice_const(arg) {
                            SliceConst::Bytes(id) => {
                                let s = self.slice_words(s, Gpr::Rsp, off, id);
                                s
                            },
                            SliceConst::Empty => {
                                let s = self.empty_slice_words(s, Gpr::Rsp, off);
                                s
                            },
                            SliceConst::No => {
                                s.fail(self.unsup("memory aggregate argument from a constant"@))
                            },
                        };
                        s
                    },
                };
                s
            },
            _ => {
                s
            },
        };
        s
    }

    /// Passes an argument, if it goes in registers.
    #[verifier::opaque]
    pub open spec fn pass_in_regs(
        self,
        s: LowState,
        func: FnId,
        arg: Operand,
        i: usize,
        c: ArgCursor,
    ) -> LowState {
        let s = match self.arg_spot(func, arg, i, c) {
            Passed::Int(n) => {
                let s = if self.as_c_string(func, arg, i) {
                    let s = self.cstr_ptr_to(s, arg, int_reg_at(n));
                    s
                } else {
                    let s = self.operand_to(s, arg, int_reg_at(n));
                    s
                };
                s
            },
            Passed::Sse(n) => {
                let s = self.load_float_operand(s, arg, sse_reg_at(n));
                s
            },
            Passed::MemInt(n, size) => {
                let s = match arg {
                    Operand::Copy(p) => {
                        let s = self.place_addr_general(s, p, (p.proj@.len() as usize), Gpr::R11);
                        if s.err is Some {
                            s
                        } else {
                            let s = s.on(s.text.mov_load_mem(int_reg_at(n), Gpr::R11, 0));
                            let s = if size > 8 {
                                let s = s.on(
                                    s.text.mov_load_mem(int_reg_at((n + 1) as usize), Gpr::R11, 8),
                                );
                                s
                            } else {
                                s
                            };
                            s
                        }
                    },
                    Operand::Const(_) => {
                        let s = match self.slice_const(arg) {
                            SliceConst::Bytes(id) => {
                                let off = s.ro.offset_of(self.const_bytes(id));
                                let s = s.with_data(self.const_bytes(id));
                                let s = s.on(s.text.mov_ri_data(int_reg_at(n), off));
                                let s = s.on(
                                    s.text.mov_ri(
                                        int_reg_at((n + 1) as usize),
                                        self.const_bytes(id).len() as i64,
                                    ),
                                );
                                s
                            },
                            SliceConst::Empty => {
                                let s = s.on(s.text.mov_ri(int_reg_at(n), 0));
                                let s = s.on(s.text.mov_ri(int_reg_at((n + 1) as usize), 0));
                                s
                            },
                            SliceConst::No => {
                                s.fail(
                                    self.unsup("in-register aggregate argument from a constant"@),
                                )
                            },
                        };
                        s
                    },
                };
                s
            },
            _ => {
                s
            },
        };
        s
    }

    /// Passes the arguments that go on the stack.
    pub open spec fn stack_args(
        self,
        s: LowState,
        func: FnId,
        args: Seq<Operand>,
        hidden: bool,
    ) -> LowState {
        self.stack_args_from(s, func, args, hidden, 0, self.first_arg(hidden))
    }

    /// The same from the `i`-th on.
    pub open spec fn stack_args_from(
        self,
        s: LowState,
        func: FnId,
        args: Seq<Operand>,
        hidden: bool,
        i: int,
        c: ArgCursor,
    ) -> LowState
        decreases args.len() - i,
    {
        if i < 0 || i >= args.len() {
            s
        } else {
            let k = i as usize;
            let s = self.pass_on_stack(s, func, args[i], k, c);
            if s.err is Some {
                s
            } else {
                self.stack_args_from(
                    s,
                    func,
                    args,
                    hidden,
                    i + 1,
                    self.arg_next(func, args[i], k, c),
                )
            }
        }
    }

    /// Passes the arguments that go in registers.
    pub open spec fn reg_args(
        self,
        s: LowState,
        func: FnId,
        args: Seq<Operand>,
        hidden: bool,
    ) -> LowState {
        self.reg_args_from(s, func, args, hidden, 0, self.first_arg(hidden))
    }

    /// The same from the `i`-th on.
    pub open spec fn reg_args_from(
        self,
        s: LowState,
        func: FnId,
        args: Seq<Operand>,
        hidden: bool,
        i: int,
        c: ArgCursor,
    ) -> LowState
        decreases args.len() - i,
    {
        if i < 0 || i >= args.len() {
            s
        } else {
            let k = i as usize;
            let s = self.pass_in_regs(s, func, args[i], k, c);
            if s.err is Some {
                s
            } else {
                self.reg_args_from(s, func, args, hidden, i + 1, self.arg_next(func, args[i], k, c))
            }
        }
    }

    /// Passes the arguments of a call: those on the stack, then those in registers.
    #[verifier::opaque]
    pub open spec fn marshal_args(
        self,
        s: LowState,
        func: FnId,
        args: Seq<Operand>,
        hidden: Option<Gpr>,
    ) -> LowState {
        let s = match hidden {
            Some(p) => {
                let s = if p != Gpr::Rdi {
                    let s = s.on(s.text.mov_rr(Gpr::Rdi, p));
                    s
                } else {
                    s
                };
                s
            },
            None => {
                s
            },
        };
        let s = self.stack_args(s, func, args, hidden.is_some());
        if s.err is Some {
            s
        } else {
            let s = self.reg_args(s, func, args, hidden.is_some());
            s
        }
    }

    /// Tells a C function how many SSE registers are in use.
    #[verifier::opaque]
    pub open spec fn maybe_set_vararg_al(self, s: LowState, func: FnId, sses: usize) -> LowState {
        let s = if self.prog.funcs@[func.0 as int].abi == FnAbi::C {
            let s = if sses == 0 {
                let s = s.on(s.text.xor_rr(Gpr::Rax, Gpr::Rax));
                s
            } else {
                let s = s.on(s.text.mov_ri(Gpr::Rax, sses as i64));
                s
            };
            s
        } else {
            s
        };
        s
    }

    /// Calls a function that fills memory.
    #[verifier::opaque]
    pub open spec fn lower_call_with_sret(
        self,
        s: LowState,
        func: FnId,
        args: Seq<Operand>,
        sret_reg: Gpr,
    ) -> LowState {
        let s = self.marshal_args(s, func, args, Some(sret_reg));
        if s.err is Some {
            s
        } else {
            let s = self.maybe_set_vararg_al(s, func, self.sse_used(func, args, true));
            let s = s.on(s.text.call_fn(func));
            s
        }
    }

    /// Calls a function that returns in registers.
    #[verifier::opaque]
    pub open spec fn lower_call_raw(self, s: LowState, func: FnId, args: Seq<Operand>) -> LowState {
        let s = if self.refuses_args(func, args) {
            s.fail(
                self.unsup(
                    "generic call passing an aggregate argument to a scalar parameter (un-monomorphized generic container of aggregates)"@,
                ),
            )
        } else {
            let s = self.marshal_args(s, func, args, None);
            if s.err is Some {
                s
            } else {
                let s = self.maybe_set_vararg_al(s, func, self.sse_used(func, args, false));
                let s = s.on(s.text.call_fn(func));
                s
            }
        };
        s
    }

    /// Calls a function for a scalar.
    #[verifier::opaque]
    pub open spec fn lower_call(
        self,
        s: LowState,
        dst: LocalId,
        func: FnId,
        args: Seq<Operand>,
        ty: TypeId,
    ) -> LowState {
        let s = self.lower_call_raw(s, func, args);
        if s.err is Some {
            s
        } else {
            let s = if self.is_float(ty) {
                let s = self.store_float_xmm0(s, dst);
                s
            } else {
                let s = self.normalize(s, Gpr::Rax, ty);
                let s = self.store_scalar_result(s, dst);
                s
            };
            s
        }
    }

    /// Stores the low bytes of a register, the largest power of two first.
    pub open spec fn store_eightbyte(self, s: LowState, off: i32, src: Gpr, nbytes: u64) -> LowState
        decreases nbytes,
    {
        let s = if nbytes == 0 {
            s
        } else if nbytes == 1 {
            let s = s.on(s.text.mov_store8_mem(Gpr::Rbp, off, src));
            s
        } else if nbytes == 2 {
            let s = s.on(s.text.mov_store16_mem(Gpr::Rbp, off, src));
            s
        } else if nbytes == 4 {
            let s = s.on(s.text.mov_store32_mem(Gpr::Rbp, off, src));
            s
        } else if nbytes == 8 {
            let s = s.on(s.text.mov_store(off, src));
            s
        } else if nbytes < 4 {
            let s = self.store_eightbyte(s, off, src, 2);
            let s = s.on(s.text.mov_rr(Gpr::Rcx, src));
            let s = s.on(s.text.shr_ri(Gpr::Rcx, 16));
            let s = self.store_eightbyte(s, sum32(off, 2), Gpr::Rcx, (nbytes - 2) as u64);
            s
        } else if nbytes < 8 {
            let s = self.store_eightbyte(s, off, src, 4);
            let s = s.on(s.text.mov_rr(Gpr::Rcx, src));
            let s = s.on(s.text.shr_ri(Gpr::Rcx, 32));
            let s = self.store_eightbyte(s, sum32(off, 4), Gpr::Rcx, (nbytes - 4) as u64);
            s
        } else {
            let s = self.store_eightbyte(s, off, src, 8);
            let s = s.on(s.text.mov_rr(Gpr::Rcx, src));
            let s = s.on(s.text.shr_ri(Gpr::Rcx, 64));
            let s = self.store_eightbyte(s, sum32(off, 8), Gpr::Rcx, (nbytes - 8) as u64);
            s
        };
        s
    }

    /// Calls a function for an aggregate.
    #[verifier::opaque]
    pub open spec fn lower_call_aggregate(
        self,
        s: LowState,
        dst: LocalId,
        func: FnId,
        args: Seq<Operand>,
        ty: TypeId,
    ) -> LowState {
        let s = match self.home(dst) {
            Some(home) => {
                let s = match class_of(self.prog, ty) {
                    ArgClass::Memory { .. } => {
                        let s = s.on(s.text.lea_rbp(Gpr::R11, home));
                        let s = self.lower_call_with_sret(s, func, args, Gpr::R11);
                        s
                    },
                    _ => {
                        let size = self.layout(ty).size;
                        let s = self.lower_call_raw(s, func, args);
                        if s.err is Some {
                            s
                        } else {
                            let s = if size <= 8 {
                                let s = self.store_eightbyte(s, home, Gpr::Rax, size);
                                s
                            } else {
                                let s = self.store_eightbyte(s, home, Gpr::Rax, 8);
                                let s = self.store_eightbyte(
                                    s,
                                    sum32(home, 8),
                                    Gpr::Rdx,
                                    (size - 8) as u64,
                                );
                                s
                            };
                            s
                        }
                    },
                };
                s
            },
            None => {
                s.fail(self.unsup("aggregate call result without a home"@))
            },
        };
        s
    }

    /// Registers and stack before the first parameter.
    pub open spec fn first_param(self) -> ArgCursor {
        if self.plan.ret_ptr_slot.is_some() {
            ArgCursor { ints: 1, sses: 0, stack: 16 }
        } else {
            ArgCursor { ints: 0, sses: 0, stack: 16 }
        }
    }

    /// Registers and stack after a parameter.
    pub open spec fn param_next(self, param: LocalId, c: ArgCursor) -> ArgCursor {
        match class_of(self.prog, self.local_ty(param)) {
            ArgClass::Memory { size } => ArgCursor { stack: sum32(
                c.stack,
                rounded32(size as i32, 8),
            ), ..c },
            ArgClass::Sse => if c.sses < SSE_ARG_REG_COUNT {
                ArgCursor { sses: (c.sses + 1) as usize, ..c }
            } else if self.home(param).is_some() {
                ArgCursor { stack: sum32(c.stack, 8), ..c }
            } else {
                c
            },
            ArgClass::OneInt => if c.ints < ARG_REG_COUNT {
                ArgCursor { ints: (c.ints + 1) as usize, ..c }
            } else {
                ArgCursor { stack: sum32(c.stack, 8), ..c }
            },
            ArgClass::TwoInt => if c.ints < ARG_REG_COUNT - 1 {
                ArgCursor { ints: (c.ints + 2) as usize, ..c }
            } else {
                ArgCursor { stack: sum32(c.stack, 16), ..c }
            },
        }
    }

    /// Stores a word of a parameter that came in a register.
    #[verifier::opaque]
    pub open spec fn store_param_word(
        self,
        s: LowState,
        param: LocalId,
        at: i32,
        src: Gpr,
        ty: TypeId,
    ) -> LowState {
        let s = if self.in_memory(ty) {
            let s = match self.home(param) {
                Some(h) => {
                    let s = s.on(s.text.mov_store_mem(Gpr::Rbp, sum32(h, at), src));
                    s
                },
                None => {
                    s
                },
            };
            s
        } else {
            let s = match self.reg_of(param) {
                Some(r) => {
                    let s = if r != src {
                        let s = s.on(s.text.mov_rr(r, src));
                        s
                    } else {
                        s
                    };
                    s
                },
                None => {
                    let s = match self.home(param) {
                        Some(h) => {
                            let s = s.on(s.text.mov_store(h, src));
                            s
                        },
                        None => {
                            s
                        },
                    };
                    s
                },
            };
            s
        };
        s
    }

    /// Stores a word of a parameter that came on the stack.
    #[verifier::opaque]
    pub open spec fn store_param_word_from_rax(
        self,
        s: LowState,
        param: LocalId,
        at: i32,
        ty: TypeId,
    ) -> LowState {
        let s = if self.in_memory(ty) {
            let s = match self.home(param) {
                Some(h) => {
                    let s = s.on(s.text.mov_store_mem(Gpr::Rbp, sum32(h, at), Gpr::Rax));
                    s
                },
                None => {
                    s
                },
            };
            s
        } else {
            let s = match self.reg_of(param) {
                Some(r) => {
                    let s = s.on(s.text.mov_rr(r, Gpr::Rax));
                    s
                },
                None => {
                    let s = match self.home(param) {
                        Some(h) => {
                            let s = s.on(s.text.mov_store(h, Gpr::Rax));
                            s
                        },
                        None => {
                            s
                        },
                    };
                    s
                },
            };
            s
        };
        s
    }

    /// Stores a parameter where it lives.
    #[verifier::opaque]
    pub open spec fn lower_param(self, s: LowState, param: LocalId, c: ArgCursor) -> LowState {
        let ty = self.local_ty(param);
        let s = match class_of(self.prog, ty) {
            ArgClass::Memory { size } => {
                let s = match self.home(param) {
                    Some(dst) => {
                        let s = self.copy_stack_to_home(s, c.stack, dst, size);
                        s
                    },
                    None => {
                        s.fail(self.unsup("memory param without a home"@))
                    },
                };
                s
            },
            ArgClass::Sse => {
                let s = match self.home(param) {
                    Some(h) => {
                        let s = if c.sses < SSE_ARG_REG_COUNT {
                            let s = s.on(s.text.movsd_store(Gpr::Rbp, h, sse_reg_at(c.sses)));
                            s
                        } else {
                            let s = s.on(s.text.movsd_load(Xmm::Xmm0, Gpr::Rbp, c.stack));
                            let s = s.on(s.text.movsd_store(Gpr::Rbp, h, Xmm::Xmm0));
                            s
                        };
                        s
                    },
                    None => {
                        s
                    },
                };
                s
            },
            ArgClass::OneInt => {
                let s = if c.ints < ARG_REG_COUNT {
                    let s = self.store_param_word(s, param, 0, int_reg_at(c.ints), ty);
                    s
                } else {
                    let s = s.on(s.text.mov_load(Gpr::Rax, c.stack));
                    let s = self.store_param_word_from_rax(s, param, 0, ty);
                    s
                };
                s
            },
            ArgClass::TwoInt => {
                let s = if c.ints < ARG_REG_COUNT - 1 {
                    let s = self.store_param_word(s, param, 0, int_reg_at(c.ints), ty);
                    let s = self.store_param_word(
                        s,
                        param,
                        8,
                        int_reg_at((c.ints + 1) as usize),
                        ty,
                    );
                    s
                } else {
                    let s = s.on(s.text.mov_load(Gpr::Rax, c.stack));
                    let s = self.store_param_word_from_rax(s, param, 0, ty);
                    let s = s.on(s.text.mov_load(Gpr::Rax, sum32(c.stack, 8)));
                    let s = self.store_param_word_from_rax(s, param, 8, ty);
                    s
                };
                s
            },
        };
        s
    }

    /// Stores the parameters where they live.
    pub open spec fn lower_params(self, s: LowState) -> LowState {
        self.lower_params_from(s, 0, self.first_param())
    }

    /// The same from the `i`-th on.
    pub open spec fn lower_params_from(self, s: LowState, i: int, c: ArgCursor) -> LowState
        decreases self.func.params@.len() - i,
    {
        if i < 0 || i >= self.func.params@.len() {
            s
        } else {
            let k = i as usize;
            let s = self.lower_param(s, self.func.params[i], c);
            if s.err is Some {
                s
            } else {
                self.lower_params_from(s, i + 1, self.param_next(self.func.params[i], c))
            }
        }
    }

    /// Stores the hidden result pointer and the parameters where they live.
    #[verifier::opaque]
    pub open spec fn lower_prologue_params(self, s: LowState) -> LowState {
        let s = match self.plan.ret_ptr_slot {
            Some(slot) => {
                let s = s.on(s.text.mov_store(slot, Gpr::Rdi));
                s
            },
            None => {
                s
            },
        };
        let s = self.lower_params(s);
        s
    }
}

impl FnLower<'_> {
    /// Puts a pointer to a C string into `dst`.
    pub(crate) fn cstr_ptr_to(&self, out: &mut Out, arg: &Operand, dst: Gpr)
        requires
            self.ok(),
            old(out).ok(),
            self.env().operand_ok(*arg),
        ensures
            final(out)@ == self.env().cstr_ptr_to(old(out)@, *arg, dst),
            final(out).ok(),
            grew(old(out)@.text.labels, final(out)@.text.labels),
    {
        let ghost l0 = out@.text.labels;
        proof {
            reveal(Env::cstr_ptr_to);
            grew_refl(l0);
        }
        match self.slice_const(arg) {
            SliceConst::Bytes(id) => {
                let off: u32 = out.ro.intern(self.c_string(id).as_slice());
                out.text.mov_ri_data(dst, off);
            },
            _ => {
                out.text.mov_ri(dst, 0);
            },
        }
    }

    /// Passes an argument, if it goes on the stack.
    pub(crate) fn pass_on_stack(
        &self,
        out: &mut Out,
        func: FnId,
        arg: &Operand,
        i: usize,
        c: ArgCursor,
    ) -> (r: Result<(), CodegenError>)
        requires
            self.ok(),
            old(out).ok(),
            func.0 < self.env().prog.funcs@.len(),
            self.env().operand_ok(*arg),
        ensures
            lowered(r, final(out)@, self.env().pass_on_stack(old(out)@, func, *arg, i, c)),
            r is Ok ==> final(out).ok() && grew(old(out)@.text.labels, final(out)@.text.labels),
    {
        let ghost l0 = out@.text.labels;
        proof {
            reveal(Env::pass_on_stack);
            grew_refl(l0);
        }
        match self.arg_spot(func, arg, i, c) {
            Passed::Stack(off) => {
                if self.as_c_string(func, arg, i) {
                    let ghost k1 = out@.text.labels;
                    self.cstr_ptr_to(out, arg, Gpr::Rax);
                    proof {
                        grew_trans(l0, k1, out@.text.labels);
                    }
                    out.text.mov_store_mem(Gpr::Rsp, off, Gpr::Rax);
                } else if self.is_float(self.type_or_ret(arg)) {
                    let ghost k2 = out@.text.labels;
                    match self.load_float_operand(out, arg, Xmm::Xmm0) {
                        Ok(_) => {},
                        Err(e) => {
                            return Err(e);
                        },
                    }
                    proof {
                        grew_trans(l0, k2, out@.text.labels);
                    }
                    out.text.movsd_store(Gpr::Rsp, off, Xmm::Xmm0);
                } else {
                    let ghost k3 = out@.text.labels;
                    match self.operand_to(out, arg, Gpr::Rax) {
                        Ok(_) => {},
                        Err(e) => {
                            return Err(e);
                        },
                    }
                    proof {
                        grew_trans(l0, k3, out@.text.labels);
                    }
                    out.text.mov_store_mem(Gpr::Rsp, off, Gpr::Rax);
                }
            },
            Passed::MemStack(off, size) => {
                match arg {
                    Operand::Copy(p) => {
                        let ghost k4 = out@.text.labels;
                        match self.place_addr_general(out, p, p.proj.len(), Gpr::Rax) {
                            Ok(_) => {},
                            Err(e) => {
                                return Err(e);
                            },
                        }
                        proof {
                            grew_trans(l0, k4, out@.text.labels);
                        }
                        out.text.mov_rr(Gpr::R11, Gpr::Rsp);
                        out.text.add_ri(Gpr::R11, off);
                        let ghost k5 = out@.text.labels;
                        self.memcpy(out, Gpr::R11, Gpr::Rax, size);
                        proof {
                            grew_trans(l0, k5, out@.text.labels);
                        }
                    },
                    Operand::Const(_) => {
                        match self.slice_const(arg) {
                            SliceConst::Bytes(id) => {
                                let ghost k6 = out@.text.labels;
                                self.slice_words(out, Gpr::Rsp, off, id);
                                proof {
                                    grew_trans(l0, k6, out@.text.labels);
                                }
                            },
                            SliceConst::Empty => {
                                let ghost k7 = out@.text.labels;
                                self.empty_slice_words(out, Gpr::Rsp, off);
                                proof {
                                    grew_trans(l0, k7, out@.text.labels);
                                }
                            },
                            SliceConst::No => {
                                return Err(self.unsup("memory aggregate argument from a constant"));
                            },
                        }
                    },
                }
            },
            _ => {},
        }
        Ok(())
    }

    /// Passes an argument, if it goes in registers.
    pub(crate) fn pass_in_regs(
        &self,
        out: &mut Out,
        func: FnId,
        arg: &Operand,
        i: usize,
        c: ArgCursor,
    ) -> (r: Result<(), CodegenError>)
        requires
            self.ok(),
            old(out).ok(),
            func.0 < self.env().prog.funcs@.len(),
            self.env().operand_ok(*arg),
        ensures
            lowered(r, final(out)@, self.env().pass_in_regs(old(out)@, func, *arg, i, c)),
            r is Ok ==> final(out).ok() && grew(old(out)@.text.labels, final(out)@.text.labels),
    {
        let ghost l0 = out@.text.labels;
        proof {
            reveal(Env::pass_in_regs);
            grew_refl(l0);
        }
        match self.arg_spot(func, arg, i, c) {
            Passed::Int(n) => {
                if self.as_c_string(func, arg, i) {
                    let ghost k8 = out@.text.labels;
                    self.cstr_ptr_to(out, arg, arg_reg(n));
                    proof {
                        grew_trans(l0, k8, out@.text.labels);
                    }
                } else {
                    let ghost k9 = out@.text.labels;
                    match self.operand_to(out, arg, arg_reg(n)) {
                        Ok(_) => {},
                        Err(e) => {
                            return Err(e);
                        },
                    }
                    proof {
                        grew_trans(l0, k9, out@.text.labels);
                    }
                }
            },
            Passed::Sse(n) => {
                let ghost k10 = out@.text.labels;
                match self.load_float_operand(out, arg, sse_arg_reg(n)) {
                    Ok(_) => {},
                    Err(e) => {
                        return Err(e);
                    },
                }
                proof {
                    grew_trans(l0, k10, out@.text.labels);
                }
            },
            Passed::MemInt(n, size) => {
                match arg {
                    Operand::Copy(p) => {
                        let ghost k11 = out@.text.labels;
                        match self.place_addr_general(out, p, p.proj.len(), Gpr::R11) {
                            Ok(_) => {},
                            Err(e) => {
                                return Err(e);
                            },
                        }
                        proof {
                            grew_trans(l0, k11, out@.text.labels);
                        }
                        out.text.mov_load_mem(arg_reg(n), Gpr::R11, 0);
                        if size > 8 {
                            out.text.mov_load_mem(arg_reg((n + 1) as usize), Gpr::R11, 8);
                        }
                    },
                    Operand::Const(_) => {
                        match self.slice_const(arg) {
                            SliceConst::Bytes(id) => {
                                let off: u32 = out.ro.intern(self.const_bytes(id).as_slice());
                                out.text.mov_ri_data(arg_reg(n), off);
                                out.text.mov_ri(
                                    arg_reg((n + 1) as usize),
                                    self.const_bytes(id).len() as i64,
                                );
                            },
                            SliceConst::Empty => {
                                out.text.mov_ri(arg_reg(n), 0);
                                out.text.mov_ri(arg_reg((n + 1) as usize), 0);
                            },
                            SliceConst::No => {
                                return Err(
                                    self.unsup("in-register aggregate argument from a constant"),
                                );
                            },
                        }
                    },
                }
            },
            _ => {},
        }
        Ok(())
    }

    /// Passes the arguments that go on the stack.
    pub(crate) fn stack_args(
        &self,
        out: &mut Out,
        func: FnId,
        args: &Vec<Operand>,
        hidden: bool,
    ) -> (r: Result<(), CodegenError>)
        requires
            self.ok(),
            old(out).ok(),
            func.0 < self.env().prog.funcs@.len(),
            self.env().operands_ok(args@),
        ensures
            lowered(r, final(out)@, self.env().stack_args(old(out)@, func, args@, hidden)),
            r is Ok ==> final(out).ok() && grew(old(out)@.text.labels, final(out)@.text.labels),
    {
        let ghost l0 = out@.text.labels;
        let ghost want = self.env().stack_args(out@, func, args@, hidden);
        proof {
            grew_refl(l0);
        }
        let mut c: ArgCursor = self.first_arg(hidden);
        let mut i: usize = 0;
        while i < args.len()
            invariant
                self.ok(),
                out.ok(),
                func.0 < self.env().prog.funcs@.len(),
                self.env().operands_ok(args@),
                i <= args@.len(),
                grew(l0, out@.text.labels),
                l0 == old(out)@.text.labels,
                want == self.env().stack_args(old(out)@, func, args@, hidden),
                want == self.env().stack_args_from(out@, func, args@, hidden, i as int, c),
            decreases args@.len() - i,
        {
            assert(self.env().operand_ok(args@[i as int]));
            let k: usize = i;
            let ghost here = out@.text.labels;
            match self.pass_on_stack(out, func, &args[i], k, c) {
                Ok(_) => {},
                Err(e) => {
                    return Err(e);
                },
            }
            proof {
                grew_trans(l0, here, out@.text.labels);
            }
            c = self.arg_next(func, &args[i], k, c);
            i = i + 1;
        }
        Ok(())
    }

    /// Passes the arguments that go in registers.
    pub(crate) fn reg_args(
        &self,
        out: &mut Out,
        func: FnId,
        args: &Vec<Operand>,
        hidden: bool,
    ) -> (r: Result<(), CodegenError>)
        requires
            self.ok(),
            old(out).ok(),
            func.0 < self.env().prog.funcs@.len(),
            self.env().operands_ok(args@),
        ensures
            lowered(r, final(out)@, self.env().reg_args(old(out)@, func, args@, hidden)),
            r is Ok ==> final(out).ok() && grew(old(out)@.text.labels, final(out)@.text.labels),
    {
        let ghost l0 = out@.text.labels;
        let ghost want = self.env().reg_args(out@, func, args@, hidden);
        proof {
            grew_refl(l0);
        }
        let mut c: ArgCursor = self.first_arg(hidden);
        let mut i: usize = 0;
        while i < args.len()
            invariant
                self.ok(),
                out.ok(),
                func.0 < self.env().prog.funcs@.len(),
                self.env().operands_ok(args@),
                i <= args@.len(),
                grew(l0, out@.text.labels),
                l0 == old(out)@.text.labels,
                want == self.env().reg_args(old(out)@, func, args@, hidden),
                want == self.env().reg_args_from(out@, func, args@, hidden, i as int, c),
            decreases args@.len() - i,
        {
            assert(self.env().operand_ok(args@[i as int]));
            let k: usize = i;
            let ghost here = out@.text.labels;
            match self.pass_in_regs(out, func, &args[i], k, c) {
                Ok(_) => {},
                Err(e) => {
                    return Err(e);
                },
            }
            proof {
                grew_trans(l0, here, out@.text.labels);
            }
            c = self.arg_next(func, &args[i], k, c);
            i = i + 1;
        }
        Ok(())
    }

    /// Passes the arguments of a call: those on the stack, then those in registers.
    pub(crate) fn marshal_args(
        &self,
        out: &mut Out,
        func: FnId,
        args: &Vec<Operand>,
        hidden: Option<Gpr>,
    ) -> (r: Result<(), CodegenError>)
        requires
            self.ok(),
            old(out).ok(),
            func.0 < self.env().prog.funcs@.len(),
            self.env().operands_ok(args@),
        ensures
            lowered(r, final(out)@, self.env().marshal_args(old(out)@, func, args@, hidden)),
            r is Ok ==> final(out).ok() && grew(old(out)@.text.labels, final(out)@.text.labels),
    {
        let ghost l0 = out@.text.labels;
        proof {
            reveal(Env::marshal_args);
            grew_refl(l0);
        }
        match hidden {
            Some(p) => {
                if p != Gpr::Rdi {
                    out.text.mov_rr(Gpr::Rdi, p);
                }
            },
            None => {},
        }
        let ghost k12 = out@.text.labels;
        match self.stack_args(out, func, args, hidden.is_some()) {
            Ok(_) => {},
            Err(e) => {
                return Err(e);
            },
        }
        proof {
            grew_trans(l0, k12, out@.text.labels);
        }
        let ghost k13 = out@.text.labels;
        match self.reg_args(out, func, args, hidden.is_some()) {
            Ok(_) => {},
            Err(e) => {
                return Err(e);
            },
        }
        proof {
            grew_trans(l0, k13, out@.text.labels);
        }
        Ok(())
    }

    /// Tells a C function how many SSE registers are in use.
    pub(crate) fn maybe_set_vararg_al(&self, out: &mut Out, func: FnId, sses: usize)
        requires
            self.ok(),
            old(out).ok(),
            func.0 < self.env().prog.funcs@.len(),
        ensures
            final(out)@ == self.env().maybe_set_vararg_al(old(out)@, func, sses),
            final(out).ok(),
            grew(old(out)@.text.labels, final(out)@.text.labels),
    {
        let ghost l0 = out@.text.labels;
        proof {
            reveal(Env::maybe_set_vararg_al);
            grew_refl(l0);
        }
        if self.prog.funcs[func.0 as usize].abi == FnAbi::C {
            if sses == 0 {
                out.text.xor_rr(Gpr::Rax, Gpr::Rax);
            } else {
                out.text.mov_ri(Gpr::Rax, sses as i64);
            }
        }
    }

    /// Calls a function that fills memory.
    pub(crate) fn lower_call_with_sret(
        &self,
        out: &mut Out,
        func: FnId,
        args: &Vec<Operand>,
        sret_reg: Gpr,
    ) -> (r: Result<(), CodegenError>)
        requires
            self.ok(),
            old(out).ok(),
            func.0 < self.env().prog.funcs@.len(),
            self.env().operands_ok(args@),
        ensures
            lowered(
                r,
                final(out)@,
                self.env().lower_call_with_sret(old(out)@, func, args@, sret_reg),
            ),
            r is Ok ==> final(out).ok() && grew(old(out)@.text.labels, final(out)@.text.labels),
    {
        let ghost l0 = out@.text.labels;
        proof {
            reveal(Env::lower_call_with_sret);
            grew_refl(l0);
        }
        let ghost k14 = out@.text.labels;
        match self.marshal_args(out, func, args, Some(sret_reg)) {
            Ok(_) => {},
            Err(e) => {
                return Err(e);
            },
        }
        proof {
            grew_trans(l0, k14, out@.text.labels);
        }
        let ghost k15 = out@.text.labels;
        self.maybe_set_vararg_al(out, func, self.sse_used(func, args, true));
        proof {
            grew_trans(l0, k15, out@.text.labels);
        }
        out.text.call_fn(func);
        Ok(())
    }

    /// Calls a function that returns in registers.
    pub(crate) fn lower_call_raw(
        &self,
        out: &mut Out,
        func: FnId,
        args: &Vec<Operand>,
    ) -> (r: Result<(), CodegenError>)
        requires
            self.ok(),
            old(out).ok(),
            func.0 < self.env().prog.funcs@.len(),
            self.env().operands_ok(args@),
        ensures
            lowered(r, final(out)@, self.env().lower_call_raw(old(out)@, func, args@)),
            r is Ok ==> final(out).ok() && grew(old(out)@.text.labels, final(out)@.text.labels),
    {
        let ghost l0 = out@.text.labels;
        proof {
            reveal(Env::lower_call_raw);
            grew_refl(l0);
        }
        if self.refuses_args(func, args) {
            return Err(
                self.unsup(
                    "generic call passing an aggregate argument to a scalar parameter (un-monomorphized generic container of aggregates)",
                ),
            );
        } else {
            let ghost k16 = out@.text.labels;
            match self.marshal_args(out, func, args, None) {
                Ok(_) => {},
                Err(e) => {
                    return Err(e);
                },
            }
            proof {
                grew_trans(l0, k16, out@.text.labels);
            }
            let ghost k17 = out@.text.labels;
            self.maybe_set_vararg_al(out, func, self.sse_used(func, args, false));
            proof {
                grew_trans(l0, k17, out@.text.labels);
            }
            out.text.call_fn(func);
        }
        Ok(())
    }

    /// Calls a function for a scalar.
    pub(crate) fn lower_call(
        &self,
        out: &mut Out,
        dst: LocalId,
        func: FnId,
        args: &Vec<Operand>,
        ty: TypeId,
    ) -> (r: Result<(), CodegenError>)
        requires
            self.ok(),
            old(out).ok(),
            dst.0 < self.env().func.locals@.len(),
            func.0 < self.env().prog.funcs@.len(),
            self.env().operands_ok(args@),
            self.env().prog.arena.has(ty),
        ensures
            lowered(r, final(out)@, self.env().lower_call(old(out)@, dst, func, args@, ty)),
            r is Ok ==> final(out).ok() && grew(old(out)@.text.labels, final(out)@.text.labels),
    {
        let ghost l0 = out@.text.labels;
        proof {
            reveal(Env::lower_call);
            grew_refl(l0);
        }
        let ghost k18 = out@.text.labels;
        match self.lower_call_raw(out, func, args) {
            Ok(_) => {},
            Err(e) => {
                return Err(e);
            },
        }
        proof {
            grew_trans(l0, k18, out@.text.labels);
        }
        if self.is_float(ty) {
            let ghost k19 = out@.text.labels;
            match self.store_float_xmm0(out, dst) {
                Ok(_) => {},
                Err(e) => {
                    return Err(e);
                },
            }
            proof {
                grew_trans(l0, k19, out@.text.labels);
            }
        } else {
            let ghost k20 = out@.text.labels;
            self.normalize(out, Gpr::Rax, ty);
            proof {
                grew_trans(l0, k20, out@.text.labels);
            }
            let ghost k21 = out@.text.labels;
            self.store_scalar_result(out, dst);
            proof {
                grew_trans(l0, k21, out@.text.labels);
            }
        }
        Ok(())
    }

    /// Stores the low bytes of a register, the largest power of two first.
    pub(crate) fn store_eightbyte(&self, out: &mut Out, off: i32, src: Gpr, nbytes: u64)
        requires
            self.ok(),
            old(out).ok(),
        ensures
            final(out)@ == self.env().store_eightbyte(old(out)@, off, src, nbytes),
            final(out).ok(),
            grew(old(out)@.text.labels, final(out)@.text.labels),
        decreases nbytes,
    {
        let ghost l0 = out@.text.labels;
        proof {
            grew_refl(l0);
        }
        if nbytes == 0 {
        } else if nbytes == 1 {
            out.text.mov_store8_mem(Gpr::Rbp, off, src);
        } else if nbytes == 2 {
            out.text.mov_store16_mem(Gpr::Rbp, off, src);
        } else if nbytes == 4 {
            out.text.mov_store32_mem(Gpr::Rbp, off, src);
        } else if nbytes == 8 {
            out.text.mov_store(off, src);
        } else if nbytes < 4 {
            let ghost k22 = out@.text.labels;
            self.store_eightbyte(out, off, src, 2);
            proof {
                grew_trans(l0, k22, out@.text.labels);
            }
            out.text.mov_rr(Gpr::Rcx, src);
            out.text.shr_ri(Gpr::Rcx, 16);
            let ghost k23 = out@.text.labels;
            self.store_eightbyte(out, plus(off, 2), Gpr::Rcx, (nbytes - 2) as u64);
            proof {
                grew_trans(l0, k23, out@.text.labels);
            }
        } else if nbytes < 8 {
            let ghost k24 = out@.text.labels;
            self.store_eightbyte(out, off, src, 4);
            proof {
                grew_trans(l0, k24, out@.text.labels);
            }
            out.text.mov_rr(Gpr::Rcx, src);
            out.text.shr_ri(Gpr::Rcx, 32);
            let ghost k25 = out@.text.labels;
            self.store_eightbyte(out, plus(off, 4), Gpr::Rcx, (nbytes - 4) as u64);
            proof {
                grew_trans(l0, k25, out@.text.labels);
            }
        } else {
            let ghost k26 = out@.text.labels;
            self.store_eightbyte(out, off, src, 8);
            proof {
                grew_trans(l0, k26, out@.text.labels);
            }
            out.text.mov_rr(Gpr::Rcx, src);
            out.text.shr_ri(Gpr::Rcx, 64);
            let ghost k27 = out@.text.labels;
            self.store_eightbyte(out, plus(off, 8), Gpr::Rcx, (nbytes - 8) as u64);
            proof {
                grew_trans(l0, k27, out@.text.labels);
            }
        }
    }

    /// Calls a function for an aggregate.
    pub(crate) fn lower_call_aggregate(
        &self,
        out: &mut Out,
        dst: LocalId,
        func: FnId,
        args: &Vec<Operand>,
        ty: TypeId,
    ) -> (r: Result<(), CodegenError>)
        requires
            self.ok(),
            old(out).ok(),
            dst.0 < self.env().func.locals@.len(),
            func.0 < self.env().prog.funcs@.len(),
            self.env().operands_ok(args@),
            self.env().prog.arena.has(ty),
        ensures
            lowered(
                r,
                final(out)@,
                self.env().lower_call_aggregate(old(out)@, dst, func, args@, ty),
            ),
            r is Ok ==> final(out).ok() && grew(old(out)@.text.labels, final(out)@.text.labels),
    {
        let ghost l0 = out@.text.labels;
        proof {
            reveal(Env::lower_call_aggregate);
            grew_refl(l0);
        }
        match self.home(dst) {
            Some(home) => {
                match classify(self.prog, ty) {
                    ArgClass::Memory { .. } => {
                        out.text.lea_rbp(Gpr::R11, home);
                        let ghost k28 = out@.text.labels;
                        match self.lower_call_with_sret(out, func, args, Gpr::R11) {
                            Ok(_) => {},
                            Err(e) => {
                                return Err(e);
                            },
                        }
                        proof {
                            grew_trans(l0, k28, out@.text.labels);
                        }
                    },
                    _ => {
                        let size: u64 = self.layout(ty).size;
                        let ghost k29 = out@.text.labels;
                        match self.lower_call_raw(out, func, args) {
                            Ok(_) => {},
                            Err(e) => {
                                return Err(e);
                            },
                        }
                        proof {
                            grew_trans(l0, k29, out@.text.labels);
                        }
                        if size <= 8 {
                            let ghost k30 = out@.text.labels;
                            self.store_eightbyte(out, home, Gpr::Rax, size);
                            proof {
                                grew_trans(l0, k30, out@.text.labels);
                            }
                        } else {
                            let ghost k31 = out@.text.labels;
                            self.store_eightbyte(out, home, Gpr::Rax, 8);
                            proof {
                                grew_trans(l0, k31, out@.text.labels);
                            }
                            let ghost k32 = out@.text.labels;
                            self.store_eightbyte(out, plus(home, 8), Gpr::Rdx, (size - 8) as u64);
                            proof {
                                grew_trans(l0, k32, out@.text.labels);
                            }
                        }
                    },
                }
            },
            None => {
                return Err(self.unsup("aggregate call result without a home"));
            },
        }
        Ok(())
    }

    /// Registers and stack before the first parameter.
    pub(crate) fn first_param(&self) -> (r: ArgCursor)
        requires
            self.ok(),
        ensures
            r == self.env().first_param(),
    {
        if self.plan.ret_ptr_slot.is_some() {
            ArgCursor { ints: 1, sses: 0, stack: 16 }
        } else {
            ArgCursor { ints: 0, sses: 0, stack: 16 }
        }
    }

    /// Registers and stack after a parameter.
    pub(crate) fn param_next(&self, param: LocalId, c: ArgCursor) -> (r: ArgCursor)
        requires
            self.ok(),
            param.0 < self.env().func.locals@.len(),
        ensures
            r == self.env().param_next(param, c),
    {
        match classify(self.prog, self.local_ty(param)) {
            ArgClass::Memory { size } => ArgCursor { stack: plus(
                c.stack,
                round_up_i32(size as i32, 8),
            ), ..c },
            ArgClass::Sse => if c.sses < SSE_ARG_REG_COUNT {
                ArgCursor { sses: (c.sses + 1) as usize, ..c }
            } else if self.home(param).is_some() {
                ArgCursor { stack: plus(c.stack, 8), ..c }
            } else {
                c
            },
            ArgClass::OneInt => if c.ints < ARG_REG_COUNT {
                ArgCursor { ints: (c.ints + 1) as usize, ..c }
            } else {
                ArgCursor { stack: plus(c.stack, 8), ..c }
            },
            ArgClass::TwoInt => if c.ints < ARG_REG_COUNT - 1 {
                ArgCursor { ints: (c.ints + 2) as usize, ..c }
            } else {
                ArgCursor { stack: plus(c.stack, 16), ..c }
            },
        }
    }

    /// Stores a word of a parameter that came in a register.
    pub(crate) fn store_param_word(
        &self,
        out: &mut Out,
        param: LocalId,
        at: i32,
        src: Gpr,
        ty: TypeId,
    )
        requires
            self.ok(),
            old(out).ok(),
            param.0 < self.env().func.locals@.len(),
            self.env().prog.arena.has(ty),
        ensures
            final(out)@ == self.env().store_param_word(old(out)@, param, at, src, ty),
            final(out).ok(),
            grew(old(out)@.text.labels, final(out)@.text.labels),
    {
        let ghost l0 = out@.text.labels;
        proof {
            reveal(Env::store_param_word);
            grew_refl(l0);
        }
        if self.in_memory(ty) {
            match self.home(param) {
                Some(h) => {
                    out.text.mov_store_mem(Gpr::Rbp, plus(h, at), src);
                },
                None => {},
            }
        } else {
            match self.reg_of(param) {
                Some(r) => {
                    if r != src {
                        out.text.mov_rr(r, src);
                    }
                },
                None => {
                    match self.home(param) {
                        Some(h) => {
                            out.text.mov_store(h, src);
                        },
                        None => {},
                    }
                },
            }
        }
    }

    /// Stores a word of a parameter that came on the stack.
    pub(crate) fn store_param_word_from_rax(
        &self,
        out: &mut Out,
        param: LocalId,
        at: i32,
        ty: TypeId,
    )
        requires
            self.ok(),
            old(out).ok(),
            param.0 < self.env().func.locals@.len(),
            self.env().prog.arena.has(ty),
        ensures
            final(out)@ == self.env().store_param_word_from_rax(old(out)@, param, at, ty),
            final(out).ok(),
            grew(old(out)@.text.labels, final(out)@.text.labels),
    {
        let ghost l0 = out@.text.labels;
        proof {
            reveal(Env::store_param_word_from_rax);
            grew_refl(l0);
        }
        if self.in_memory(ty) {
            match self.home(param) {
                Some(h) => {
                    out.text.mov_store_mem(Gpr::Rbp, plus(h, at), Gpr::Rax);
                },
                None => {},
            }
        } else {
            match self.reg_of(param) {
                Some(r) => {
                    out.text.mov_rr(r, Gpr::Rax);
                },
                None => {
                    match self.home(param) {
                        Some(h) => {
                            out.text.mov_store(h, Gpr::Rax);
                        },
                        None => {},
                    }
                },
            }
        }
    }

    /// Stores a parameter where it lives.
    pub(crate) fn lower_param(
        &self,
        out: &mut Out,
        param: LocalId,
        c: ArgCursor,
    ) -> (r: Result<(), CodegenError>)
        requires
            self.ok(),
            old(out).ok(),
            param.0 < self.env().func.locals@.len(),
        ensures
            lowered(r, final(out)@, self.env().lower_param(old(out)@, param, c)),
            r is Ok ==> final(out).ok() && grew(old(out)@.text.labels, final(out)@.text.labels),
    {
        let ghost l0 = out@.text.labels;
        proof {
            reveal(Env::lower_param);
            grew_refl(l0);
        }
        let ty: TypeId = self.local_ty(param);
        match classify(self.prog, ty) {
            ArgClass::Memory { size } => {
                match self.home(param) {
                    Some(dst) => {
                        let ghost k33 = out@.text.labels;
                        self.copy_stack_to_home(out, c.stack, dst, size);
                        proof {
                            grew_trans(l0, k33, out@.text.labels);
                        }
                    },
                    None => {
                        return Err(self.unsup("memory param without a home"));
                    },
                }
            },
            ArgClass::Sse => {
                match self.home(param) {
                    Some(h) => {
                        if c.sses < SSE_ARG_REG_COUNT {
                            out.text.movsd_store(Gpr::Rbp, h, sse_arg_reg(c.sses));
                        } else {
                            out.text.movsd_load(Xmm::Xmm0, Gpr::Rbp, c.stack);
                            out.text.movsd_store(Gpr::Rbp, h, Xmm::Xmm0);
                        }
                    },
                    None => {},
                }
            },
            ArgClass::OneInt => {
                if c.ints < ARG_REG_COUNT {
                    let ghost k34 = out@.text.labels;
                    self.store_param_word(out, param, 0, arg_reg(c.ints), ty);
                    proof {
                        grew_trans(l0, k34, out@.text.labels);
                    }
                } else {
                    out.text.mov_load(Gpr::Rax, c.stack);
                    let ghost k35 = out@.text.labels;
                    self.store_param_word_from_rax(out, param, 0, ty);
                    proof {
                        grew_trans(l0, k35, out@.text.labels);
                    }
                }
            },
            ArgClass::TwoInt => {
                if c.ints < ARG_REG_COUNT - 1 {
                    let ghost k36 = out@.text.labels;
                    self.store_param_word(out, param, 0, arg_reg(c.ints), ty);
                    proof {
                        grew_trans(l0, k36, out@.text.labels);
                    }
                    let ghost k37 = out@.text.labels;
                    self.store_param_word(out, param, 8, arg_reg((c.ints + 1) as usize), ty);
                    proof {
                        grew_trans(l0, k37, out@.text.labels);
                    }
                } else {
                    out.text.mov_load(Gpr::Rax, c.stack);
                    let ghost k38 = out@.text.labels;
                    self.store_param_word_from_rax(out, param, 0, ty);
                    proof {
                        grew_trans(l0, k38, out@.text.labels);
                    }
                    out.text.mov_load(Gpr::Rax, plus(c.stack, 8));
                    let ghost k39 = out@.text.labels;
                    self.store_param_word_from_rax(out, param, 8, ty);
                    proof {
                        grew_trans(l0, k39, out@.text.labels);
                    }
                }
            },
        }
        Ok(())
    }

    /// Stores the parameters where they live.
    pub(crate) fn lower_params(&self, out: &mut Out) -> (r: Result<(), CodegenError>)
        requires
            self.ok(),
            old(out).ok(),
        ensures
            lowered(r, final(out)@, self.env().lower_params(old(out)@)),
            r is Ok ==> final(out).ok() && grew(old(out)@.text.labels, final(out)@.text.labels),
    {
        let ghost l0 = out@.text.labels;
        let ghost want = self.env().lower_params(out@);
        proof {
            grew_refl(l0);
        }
        let mut c: ArgCursor = self.first_param();
        let mut i: usize = 0;
        while i < self.func.params.len()
            invariant
                self.ok(),
                out.ok(),
                i <= self.env().func.params@.len(),
                grew(l0, out@.text.labels),
                l0 == old(out)@.text.labels,
                want == self.env().lower_params(old(out)@),
                want == self.env().lower_params_from(out@, i as int, c),
            decreases self.env().func.params@.len() - i,
        {
            assert(self.env().func.params@[i as int].0 < self.env().func.locals@.len());
            let ghost here = out@.text.labels;
            match self.lower_param(out, self.func.params[i], c) {
                Ok(_) => {},
                Err(e) => {
                    return Err(e);
                },
            }
            proof {
                grew_trans(l0, here, out@.text.labels);
            }
            c = self.param_next(self.func.params[i], c);
            i = i + 1;
        }
        Ok(())
    }

    /// Stores the hidden result pointer and the parameters where they live.
    pub(crate) fn lower_prologue_params(&self, out: &mut Out) -> (r: Result<(), CodegenError>)
        requires
            self.ok(),
            old(out).ok(),
        ensures
            lowered(r, final(out)@, self.env().lower_prologue_params(old(out)@)),
            r is Ok ==> final(out).ok() && grew(old(out)@.text.labels, final(out)@.text.labels),
    {
        let ghost l0 = out@.text.labels;
        proof {
            reveal(Env::lower_prologue_params);
            grew_refl(l0);
        }
        match self.plan.ret_ptr_slot {
            Some(slot) => {
                out.text.mov_store(slot, Gpr::Rdi);
            },
            None => {},
        }
        let ghost k40 = out@.text.labels;
        match self.lower_params(out) {
            Ok(_) => {},
            Err(e) => {
                return Err(e);
            },
        }
        proof {
            grew_trans(l0, k40, out@.text.labels);
        }
        Ok(())
    }
}

} // verus!
