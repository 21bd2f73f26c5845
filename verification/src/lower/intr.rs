//! Intrinsics: allocators, clock, random numbers and overflow tests.
use vstd::prelude::*;

use crate::encode::LabelId;
use crate::lower::env::{
    Env, FnLower, LowState, Out, grew, grew_refl, grew_trans, lowered, opening_bound, opening_call,
    opening_done, opening_new, opening_start, opening_unbound,
};
use crate::encode::Cc;
use crate::lower::env::Repr;
use crate::lower::scalar::{plus, power2, sum32};
use crate::mir::{Const, IntrinsicPath, IntrinsicRoot, LocalId, Operand};
use crate::reg::Gpr;
use crate::runtime::RuntimeFn;
use crate::text::{decimal, push_decimal, same_str};
use crate::types::{ArrayLen, T_U8, Type, TypeId};
use crate::CodegenError;
use vstd::arithmetic::power2::{
    lemma2_to64, lemma2_to64_rest, lemma_pow2_strictly_increases, pow2,
};

verus! {

/// The increment of the SplitMix64 generator, as a signed word.
pub const GOLDEN: i64 = -0x61C8_8646_80B5_83EB;

/// The first multiplier of the SplitMix64 generator, as a signed word.
pub const MIX_ONE: i64 = -0x40A7_B892_E31B_1A47;

/// The second multiplier of the SplitMix64 generator, as a signed word.
pub const MIX_TWO: i64 = -0x6B2F_B644_ECCE_EE15;

/// What counts a register down when it is added.
pub const ONE_LESS: i32 = -1;

/// Minus one.
pub const MINUS_ONE: i64 = -1;

/// What an intrinsic of the system or of a value does.
#[derive(Clone, Copy, PartialEq, Eq, Structural, Debug)]
pub enum IntrinsicOp {
    Stdout,
    Stderr,
    Print,
    Heap,
    Free,
    Allocate,
    ClockNow,
    ClockSleep,
    RandomInt,
    RandomBytes,
    EnvGet,
    Unknown,
}

/// What an allocator is asked for.
#[derive(Clone, Copy, PartialEq, Eq, Structural, Debug)]
pub enum AllocOp {
    Create,
    Alloc,
    Realloc,
    Unknown,
}

/// What a builtin does.
#[derive(Clone, Copy, PartialEq, Eq, Structural, Debug)]
pub enum Builtin {
    AllocId,
    AllocHandle,
    GpaDeinit,
    ArenaDeinit,
    ClockNow,
    ClockSleep,
    RandomInt,
    RandomBytes,
    EnvGet,
    NoAddOverflow,
    NoSubOverflow,
    NoMulOverflow,
    NoDivOverflow,
    NoNegOverflow,
    NarrowFits,
    Unknown,
}

/// An operation whose overflow is tested.
#[derive(Clone, Copy, PartialEq, Eq, Structural, Debug)]
pub enum ArithKind {
    Add,
    Sub,
    Mul,
}

/// What is looked for among arguments.
#[derive(Clone, Copy, PartialEq, Eq, Structural, Debug)]
pub enum Want {
    /// A value that is read.
    Real,
    /// A value that is never read.
    Undef,
    /// A slice.
    Slice,
    /// A value that is read and is no slice.
    Length,
    /// A slice or a pointer.
    Buffer,
    /// An integer constant.
    Number,
    /// A value of an integer type of fixed width.
    Integer,
}

/// The one member of a path.
pub open spec fn one_member(m: Seq<String>, a: Seq<char>) -> bool {
    m.len() == 1 && m[0]@ == a
}

/// The two members of a path.
pub open spec fn two_members(m: Seq<String>, a: Seq<char>, b: Seq<char>) -> bool {
    m.len() == 2 && m[0]@ == a && m[1]@ == b
}

fn is_one(m: &Vec<String>, a: &str) -> (r: bool)
    ensures
        r == one_member(m@, a@),
{
    m.len() == 1 && same_str(m[0].as_str(), a)
}

fn is_two(m: &Vec<String>, a: &str, b: &str) -> (r: bool)
    ensures
        r == two_members(m@, a@, b@),
{
    m.len() == 2 && same_str(m[0].as_str(), a) && same_str(m[1].as_str(), b)
}

/// What an intrinsic does.
pub open spec fn intrinsic_of(m: Seq<String>) -> IntrinsicOp {
    if two_members(m, "io"@, "stdout"@) || one_member(m, "stdout"@) {
        IntrinsicOp::Stdout
    } else if two_members(m, "io"@, "stderr"@) || one_member(m, "stderr"@) {
        IntrinsicOp::Stderr
    } else if one_member(m, "print"@) {
        IntrinsicOp::Print
    } else if one_member(m, "heap"@) {
        IntrinsicOp::Heap
    } else if one_member(m, "free"@) || one_member(m, "destroy"@) {
        IntrinsicOp::Free
    } else if one_member(m, "create"@) || one_member(m, "alloc"@) || one_member(m, "realloc"@) {
        IntrinsicOp::Allocate
    } else if one_member(m, "clock"@) || two_members(m, "clock"@, "now"@) || two_members(
        m,
        "clock"@,
        "monotonicNanos"@,
    ) || two_members(m, "clock"@, "wallNanos"@) {
        IntrinsicOp::ClockNow
    } else if two_members(m, "clock"@, "sleep"@) {
        IntrinsicOp::ClockSleep
    } else if two_members(m, "random"@, "int"@) || two_members(m, "random"@, "intRangeLessThan"@) {
        IntrinsicOp::RandomInt
    } else if two_members(m, "random"@, "bytes"@) {
        IntrinsicOp::RandomBytes
    } else if two_members(m, "env"@, "get"@) {
        IntrinsicOp::EnvGet
    } else {
        IntrinsicOp::Unknown
    }
}

/// What an intrinsic does.
pub fn intrinsic_op(m: &Vec<String>) -> (r: IntrinsicOp)
    ensures
        r == intrinsic_of(m@),
{
    if is_two(m, "io", "stdout") || is_one(m, "stdout") {
        IntrinsicOp::Stdout
    } else if is_two(m, "io", "stderr") || is_one(m, "stderr") {
        IntrinsicOp::Stderr
    } else if is_one(m, "print") {
        IntrinsicOp::Print
    } else if is_one(m, "heap") {
        IntrinsicOp::Heap
    } else if is_one(m, "free") || is_one(m, "destroy") {
        IntrinsicOp::Free
    } else if is_one(m, "create") || is_one(m, "alloc") || is_one(m, "realloc") {
        IntrinsicOp::Allocate
    } else if is_one(m, "clock") || is_two(m, "clock", "now") || is_two(
        m,
        "clock",
        "monotonicNanos",
    ) || is_two(m, "clock", "wallNanos") {
        IntrinsicOp::ClockNow
    } else if is_two(m, "clock", "sleep") {
        IntrinsicOp::ClockSleep
    } else if is_two(m, "random", "int") || is_two(m, "random", "intRangeLessThan") {
        IntrinsicOp::RandomInt
    } else if is_two(m, "random", "bytes") {
        IntrinsicOp::RandomBytes
    } else if is_two(m, "env", "get") {
        IntrinsicOp::EnvGet
    } else {
        IntrinsicOp::Unknown
    }
}

/// What an allocator is asked for: the last member.
pub open spec fn allocation_of(m: Seq<String>) -> AllocOp {
    if m.len() == 0 {
        AllocOp::Unknown
    } else if m.last()@ == "create"@ {
        AllocOp::Create
    } else if m.last()@ == "alloc"@ {
        AllocOp::Alloc
    } else if m.last()@ == "realloc"@ {
        AllocOp::Realloc
    } else {
        AllocOp::Unknown
    }
}

/// What an allocator is asked for.
pub fn alloc_op(m: &Vec<String>) -> (r: AllocOp)
    ensures
        r == allocation_of(m@),
{
    let n: usize = m.len();
    if n == 0 {
        return AllocOp::Unknown;
    }
    let last = m[n - 1].as_str();
    if same_str(last, "create") {
        AllocOp::Create
    } else if same_str(last, "alloc") {
        AllocOp::Alloc
    } else if same_str(last, "realloc") {
        AllocOp::Realloc
    } else {
        AllocOp::Unknown
    }
}

/// What a builtin does.
pub open spec fn builtin_of(name: Seq<char>) -> Builtin {
    if name == "allocId"@ {
        Builtin::AllocId
    } else if name == "allocHandle"@ {
        Builtin::AllocHandle
    } else if name == "gpaDeinit"@ {
        Builtin::GpaDeinit
    } else if name == "arenaDeinit"@ {
        Builtin::ArenaDeinit
    } else if name == "clockNow"@ {
        Builtin::ClockNow
    } else if name == "clockSleep"@ {
        Builtin::ClockSleep
    } else if name == "randomInt"@ {
        Builtin::RandomInt
    } else if name == "randomBytes"@ {
        Builtin::RandomBytes
    } else if name == "envGet"@ {
        Builtin::EnvGet
    } else if name == "no_add_overflow"@ {
        Builtin::NoAddOverflow
    } else if name == "no_sub_overflow"@ {
        Builtin::NoSubOverflow
    } else if name == "no_mul_overflow"@ {
        Builtin::NoMulOverflow
    } else if name == "no_div_overflow"@ {
        Builtin::NoDivOverflow
    } else if name == "no_neg_overflow"@ {
        Builtin::NoNegOverflow
    } else if name == "narrow_fits"@ {
        Builtin::NarrowFits
    } else {
        Builtin::Unknown
    }
}

/// What a builtin does.
pub fn builtin(name: &str) -> (r: Builtin)
    ensures
        r == builtin_of(name@),
{
    if same_str(name, "allocId") {
        Builtin::AllocId
    } else if same_str(name, "allocHandle") {
        Builtin::AllocHandle
    } else if same_str(name, "gpaDeinit") {
        Builtin::GpaDeinit
    } else if same_str(name, "arenaDeinit") {
        Builtin::ArenaDeinit
    } else if same_str(name, "clockNow") {
        Builtin::ClockNow
    } else if same_str(name, "clockSleep") {
        Builtin::ClockSleep
    } else if same_str(name, "randomInt") {
        Builtin::RandomInt
    } else if same_str(name, "randomBytes") {
        Builtin::RandomBytes
    } else if same_str(name, "envGet") {
        Builtin::EnvGet
    } else if same_str(name, "no_add_overflow") {
        Builtin::NoAddOverflow
    } else if same_str(name, "no_sub_overflow") {
        Builtin::NoSubOverflow
    } else if same_str(name, "no_mul_overflow") {
        Builtin::NoMulOverflow
    } else if same_str(name, "no_div_overflow") {
        Builtin::NoDivOverflow
    } else if same_str(name, "no_neg_overflow") {
        Builtin::NoNegOverflow
    } else if same_str(name, "narrow_fits") {
        Builtin::NarrowFits
    } else {
        Builtin::Unknown
    }
}

/// The first `n` members of a path, with dots between them.
pub open spec fn dotted(m: Seq<String>, n: int) -> Seq<char>
    decreases n,
{
    if n <= 0 {
        ""@
    } else if n == 1 {
        m[0]@
    } else {
        dotted(m, n - 1) + "."@ + m[n - 1]@
    }
}

pub(crate) fn joined(m: &Vec<String>) -> (r: String)
    ensures
        r@ == dotted(m@, m@.len() as int),
{
    if m.len() == 0 {
        return String::from_str("");
    }
    let mut r = String::from_str(m[0].as_str());
    let mut i: usize = 1;
    while i < m.len()
        invariant
            1 <= i <= m@.len(),
            r@ == dotted(m@, i as int),
        decreases m@.len() - i,
    {
        r.append(".");
        r.append(m[i].as_str());
        i = i + 1;
    }
    r
}

/// The message for an argument that is not there.
pub open spec fn missing_argument_text(i: u32) -> Seq<char> {
    "intrinsic missing argument "@ + decimal(i as nat)
}

fn missing_argument(i: u32) -> (r: CodegenError)
    ensures
        r.unsupported(missing_argument_text(i)),
{
    let mut msg = String::from_str("intrinsic missing argument ");
    push_decimal(&mut msg, i);
    CodegenError::Unsupported(msg)
}

/// The least value of a signed integer.
pub open spec fn min_of(r: Repr) -> i64 {
    if r.width == 0 || r.width >= 64 {
        i64::MIN
    } else {
        (-(pow2((r.width - 1) as nat))) as i64
    }
}

fn type_min(r: Repr) -> (m: i64)
    ensures
        m == min_of(r),
{
    if r.width == 0 || r.width >= 64 {
        i64::MIN
    } else {
        let p: u128 = power2((r.width - 1) as u32);
        proof {
            lemma2_to64();
            lemma2_to64_rest();
            if r.width - 1 < 63 {
                lemma_pow2_strictly_increases((r.width - 1) as nat, 63);
            }
        }
        (-(p as i128)) as i64
    }
}

impl Env {
    /// The first argument from the `i`-th on that is wanted.
    pub open spec fn first_of_from(self, args: Seq<Operand>, w: Want, i: int) -> Option<usize>
        decreases args.len() - i,
    {
        if i < 0 || i >= args.len() {
            None
        } else if self.wanted(args[i], w) {
            Some(i as usize)
        } else {
            self.first_of_from(args, w, i + 1)
        }
    }

    /// The first argument that is wanted.
    pub open spec fn first_of(self, args: Seq<Operand>, w: Want) -> Option<usize> {
        self.first_of_from(args, w, 0)
    }

    /// The last of the first `n` arguments that is wanted.
    pub open spec fn last_of_to(self, args: Seq<Operand>, w: Want, n: int) -> Option<usize>
        decreases n,
    {
        if n <= 0 || n > args.len() {
            None
        } else if self.wanted(args[n - 1], w) {
            Some((n - 1) as usize)
        } else {
            self.last_of_to(args, w, n - 1)
        }
    }

    /// The last argument that is wanted.
    pub open spec fn last_of(self, args: Seq<Operand>, w: Want) -> Option<usize> {
        self.last_of_to(args, w, args.len() as int)
    }

    /// The runtime's number of an allocator kind.
    pub open spec fn kind_tag(self, kind: u64) -> i64 {
        self.abi.tag_of(kind as int)
    }
}

impl FnLower<'_> {
    pub(crate) fn first_of(&self, args: &Vec<Operand>, w: Want) -> (r: Option<usize>)
        requires
            self.ok(),
            self.env().operands_ok(args@),
        ensures
            r == self.env().first_of(args@, w),
            r matches Some(i) ==> i < args@.len() && self.env().wanted(args@[i as int], w)
                && self.env().operand_ok(args@[i as int]),
    {
        let mut i: usize = 0;
        while i < args.len()
            invariant
                self.ok(),
                self.env().operands_ok(args@),
                i <= args@.len(),
                self.env().first_of(args@, w) == self.env().first_of_from(args@, w, i as int),
            decreases args@.len() - i,
        {
            assert(self.env().operand_ok(args@[i as int]));
            if self.wanted(&args[i], w) {
                return Some(i);
            }
            i = i + 1;
        }
        None
    }

    pub(crate) fn last_of(&self, args: &Vec<Operand>, w: Want) -> (r: Option<usize>)
        requires
            self.ok(),
            self.env().operands_ok(args@),
        ensures
            r == self.env().last_of(args@, w),
            r matches Some(i) ==> i < args@.len() && self.env().wanted(args@[i as int], w)
                && self.env().operand_ok(args@[i as int]),
    {
        let mut n: usize = args.len();
        while n > 0
            invariant
                self.ok(),
                self.env().operands_ok(args@),
                n <= args@.len(),
                self.env().last_of(args@, w) == self.env().last_of_to(args@, w, n as int),
            decreases n,
        {
            assert(self.env().operand_ok(args@[n - 1]));
            if self.wanted(&args[n - 1], w) {
                return Some(n - 1);
            }
            n = n - 1;
        }
        None
    }

    fn kind_tag(&self, kind: u64) -> (r: i64)
        ensures
            r == self.env().kind_tag(kind),
    {
        self.abi.kind_tag(kind)
    }
}

impl Env {
    /// Whether an operand is never read.
    pub open spec fn is_undef(self, op: Operand) -> bool {
        match op {
            Operand::Copy(_) => false,
            Operand::Const(c) => match c {
                Const::Undef { .. } => true,
                _ => false,
            },
        }
    }

    /// Whether an operand is an integer constant.
    pub open spec fn is_number(self, op: Operand) -> bool {
        match op {
            Operand::Copy(_) => false,
            Operand::Const(c) => match c {
                Const::Int { .. } => true,
                _ => false,
            },
        }
    }

    /// Whether an operand is a slice or a pointer.
    pub open spec fn is_buffer(self, op: Operand) -> bool {
        match self.operand_type(op) {
            Some(t) => self.is_slice(t) || self.is_pointer(t),
            None => false,
        }
    }

    /// Whether an operand is an integer of fixed width.
    pub open spec fn has_width(self, op: Operand) -> bool {
        match self.operand_type(op) {
            Some(t) => self.repr_of(t).width != 0,
            None => false,
        }
    }

    /// Whether an argument is what is looked for.
    pub open spec fn wanted(self, op: Operand, w: Want) -> bool {
        match w {
            Want::Real => !self.is_undef(op),
            Want::Undef => self.is_undef(op),
            Want::Slice => self.operand_is_slice(op),
            Want::Length => !self.is_undef(op) && !self.operand_is_slice(op),
            Want::Buffer => self.is_buffer(op),
            Want::Number => self.is_number(op),
            Want::Integer => self.has_width(op),
        }
    }

    /// The type that an operand which is never read carries.
    pub open spec fn undef_type(self, op: Operand) -> TypeId {
        match op {
            Operand::Copy(_) => TypeId(T_U8),
            Operand::Const(c) => match c {
                Const::Undef { ty } => ty,
                _ => TypeId(T_U8),
            },
        }
    }

    /// The element type that an allocation names.
    pub open spec fn undef_carrier_ty(self, args: Seq<Operand>) -> TypeId {
        match self.first_of(args, Want::Undef) {
            Some(i) => self.undef_type(args[i as int]),
            None => TypeId(T_U8),
        }
    }

    /// The value of an integer constant, modulo the word size.
    pub open spec fn number_of(self, op: Operand) -> u64 {
        match op {
            Operand::Copy(_) => 0,
            Operand::Const(c) => match c {
                Const::Int { value, .. } => value as u64,
                _ => 0,
            },
        }
    }

    /// The allocator kind that an argument names.
    pub open spec fn alloc_kind(self, args: Seq<Operand>) -> u64 {
        match self.first_of(args, Want::Number) {
            Some(i) => self.number_of(args[i as int]),
            None => 0,
        }
    }

    /// The element type of a slice or array.
    pub open spec fn slice_elem_ty(self, ty: TypeId) -> TypeId {
        match self.ty(ty) {
            Type::Slice { elem } => elem,
            Type::Array { elem, .. } => elem,
            _ => ty,
        }
    }

    /// The element type of a slice operand.
    pub open spec fn elem_type_of(self, op: Operand) -> TypeId {
        match self.operand_type(op) {
            Some(t) => self.slice_elem_ty(t),
            None => TypeId(T_U8),
        }
    }

    /// Whether an operand is reached through a struct field.
    pub open spec fn operand_is_field(self, op: Operand) -> bool {
        match op {
            Operand::Copy(p) => self.field_before(p, (p.proj@.len() as usize)),
            Operand::Const(_) => false,
        }
    }

    /// The stride of the elements of a slice that is resized.
    pub open spec fn realloc_stride(self, op: Operand) -> u64 {
        if self.operand_is_field(op) {
            self.field_slice_stride(self.elem_type_of(op))
        } else {
            self.slice_elem_stride(self.elem_type_of(op))
        }
    }

    /// One where safety checks are left out.
    pub open spec fn checks_off_word(self) -> i64 {
        if self.checks_off() {
            1
        } else {
            0
        }
    }

    /// Puts the allocator handle into `dst`.
    #[verifier::opaque]
    pub open spec fn handle_to(self, s: LowState, path: IntrinsicPath, dst: Gpr) -> LowState {
        let s = match path.root {
            IntrinsicRoot::Value(op) => {
                let s = self.operand_to(s, op, dst);
                s
            },
            _ => {
                let s = s.on(s.text.mov_ri(dst, 0));
                s
            },
        };
        s
    }

    /// Stores a pointer as the value of an error union.
    #[verifier::opaque]
    pub open spec fn write_eu_ok_ptr(
        self,
        s: LowState,
        home: i32,
        payload_off: i32,
        src: Gpr,
    ) -> LowState {
        let s = s.on(s.text.mov_store_mem(Gpr::Rbp, sum32(home, payload_off), src));
        let s = s.on(s.text.mov_ri(Gpr::Rax, 0));
        let s = s.on(s.text.mov_store16_mem(Gpr::Rbp, home, Gpr::Rax));
        s
    }

    /// Stores a slice as the value of an error union, or the error where the pointer is
    /// null.
    #[verifier::opaque]
    pub open spec fn write_alloc_slice_result(
        self,
        s: LowState,
        home: i32,
        payload_off: i32,
        len_op: Operand,
    ) -> LowState {
        let oom = s.text.fresh();
        let s = s.on(s.text.new_label());
        let done = s.text.fresh();
        let s = s.on(s.text.new_label());
        let s = s.on(s.text.test_rr(Gpr::Rax, Gpr::Rax));
        let s = s.on(s.text.jcc_local(Cc::E, oom));
        let s = s.on(s.text.mov_store_mem(Gpr::Rbp, sum32(home, payload_off), Gpr::Rax));
        let s = self.operand_to(s, len_op, Gpr::Rcx);
        if s.err is Some {
            s
        } else {
            let s = s.on(
                s.text.mov_store_mem(Gpr::Rbp, sum32(sum32(home, payload_off), 8), Gpr::Rcx),
            );
            let s = s.on(s.text.mov_ri(Gpr::Rax, 0));
            let s = s.on(s.text.mov_store16_mem(Gpr::Rbp, home, Gpr::Rax));
            let s = s.on(s.text.jmp_local(done));
            let s = s.on(s.text.bind(oom));
            let s = s.on(s.text.mov_ri(Gpr::Rax, self.oom_tag() as i64));
            let s = s.on(s.text.mov_store16_mem(Gpr::Rbp, home, Gpr::Rax));
            let s = s.on(s.text.bind(done));
            s
        }
    }

    /// Puts the pointer of a slice into `dst`.
    #[verifier::opaque]
    pub open spec fn load_slice_ptr(self, s: LowState, op: Operand, dst: Gpr) -> LowState {
        let s = match op {
            Operand::Copy(p) => {
                let s = self.place_addr_general(s, p, (p.proj@.len() as usize), dst);
                if s.err is Some {
                    s
                } else {
                    let s = s.on(s.text.mov_load_mem(dst, dst, 0));
                    s
                }
            },
            Operand::Const(_) => {
                s.fail(self.unsup("slice operand of an allocator op is not a place"@))
            },
        };
        s
    }

    /// Puts a pointer or the pointer of a slice into `dst`.
    #[verifier::opaque]
    pub open spec fn load_ptr_operand(self, s: LowState, op: Operand, dst: Gpr) -> LowState {
        let s = if self.operand_is_slice(op) {
            let s = self.load_slice_ptr(s, op, dst);
            s
        } else {
            let s = self.operand_to(s, op, dst);
            s
        };
        s
    }

    /// Releases an allocation.
    #[verifier::opaque]
    pub open spec fn lower_free_op(
        self,
        s: LowState,
        path: IntrinsicPath,
        args: Seq<Operand>,
    ) -> LowState {
        let s = match self.first_of(args, Want::Real) {
            Some(i) => {
                let s = self.load_ptr_operand(s, args[i as int], Gpr::Rsi);
                if s.err is Some {
                    s
                } else {
                    let s = s.on(s.text.push(Gpr::Rsi));
                    let s = self.handle_to(s, path, Gpr::Rdi);
                    if s.err is Some {
                        s
                    } else {
                        let s = s.on(s.text.pop(Gpr::Rsi));
                        let s = s.on(s.text.mov_ri(Gpr::Rdx, self.checks_off_word()));
                        let s = s.on(s.text.call_runtime(RuntimeFn::Free));
                        s
                    }
                }
            },
            None => {
                s.fail(self.unsup("free without a pointer operand"@))
            },
        };
        s
    }

    /// Allocates one element.
    #[verifier::opaque]
    pub open spec fn lower_create(
        self,
        s: LowState,
        home: i32,
        payload_off: i32,
        path: IntrinsicPath,
        args: Seq<Operand>,
    ) -> LowState {
        let elem = self.undef_carrier_ty(args);
        let elem_size = self.natural_stride(elem);
        let s = self.handle_to(s, path, Gpr::Rdi);
        if s.err is Some {
            s
        } else {
            let s = s.on(s.text.mov_ri(Gpr::Rsi, 1));
            let s = s.on(s.text.mov_ri(Gpr::Rdx, elem_size as i64));
            let s = s.on(s.text.call_runtime(RuntimeFn::Alloc));
            let s = self.write_eu_ok_ptr(s, home, payload_off, Gpr::Rax);
            s
        }
    }

    /// Allocates a slice.
    #[verifier::opaque]
    pub open spec fn lower_alloc(
        self,
        s: LowState,
        home: i32,
        payload_off: i32,
        path: IntrinsicPath,
        args: Seq<Operand>,
    ) -> LowState {
        let elem_size = self.slice_elem_stride(self.undef_carrier_ty(args));
        let s = match self.last_of(args, Want::Real) {
            Some(i) => {
                let s = self.operand_to(s, args[i as int], Gpr::Rsi);
                if s.err is Some {
                    s
                } else {
                    let s = s.on(s.text.push(Gpr::Rsi));
                    let s = self.handle_to(s, path, Gpr::Rdi);
                    if s.err is Some {
                        s
                    } else {
                        let s = s.on(s.text.pop(Gpr::Rsi));
                        let s = s.on(s.text.mov_ri(Gpr::Rdx, elem_size as i64));
                        let s = s.on(s.text.call_runtime(RuntimeFn::Alloc));
                        let s = self.write_alloc_slice_result(s, home, payload_off, args[i as int]);
                        s
                    }
                }
            },
            None => {
                s.fail(self.unsup("alloc without a count operand"@))
            },
        };
        s
    }

    /// Resizes a slice.
    #[verifier::opaque]
    pub open spec fn lower_realloc(
        self,
        s: LowState,
        home: i32,
        payload_off: i32,
        path: IntrinsicPath,
        args: Seq<Operand>,
    ) -> LowState {
        let s = match self.first_of(args, Want::Slice) {
            Some(i) => {
                let s = match self.last_of(args, Want::Length) {
                    Some(n) => {
                        let s = self.load_slice_ptr(s, args[i as int], Gpr::Rsi);
                        if s.err is Some {
                            s
                        } else {
                            let s = s.on(s.text.push(Gpr::Rsi));
                            let s = self.operand_to(s, args[n as int], Gpr::Rdx);
                            if s.err is Some {
                                s
                            } else {
                                let s = s.on(s.text.push(Gpr::Rdx));
                                let s = self.handle_to(s, path, Gpr::Rdi);
                                if s.err is Some {
                                    s
                                } else {
                                    let s = s.on(s.text.pop(Gpr::Rdx));
                                    let s = s.on(s.text.pop(Gpr::Rsi));
                                    let s = s.on(
                                        s.text.mov_ri(
                                            Gpr::Rcx,
                                            self.realloc_stride(args[i as int]) as i64,
                                        ),
                                    );
                                    let s = s.on(s.text.mov_ri(Gpr::R8, self.checks_off_word()));
                                    let s = s.on(s.text.call_runtime(RuntimeFn::Realloc));
                                    let s = self.write_alloc_slice_result(
                                        s,
                                        home,
                                        payload_off,
                                        args[n as int],
                                    );
                                    s
                                }
                            }
                        }
                    },
                    None => {
                        s.fail(self.unsup("realloc without a length operand"@))
                    },
                };
                s
            },
            None => {
                s.fail(self.unsup("realloc without a slice operand"@))
            },
        };
        s
    }

    /// Stores the result of an allocation.
    #[verifier::opaque]
    pub open spec fn lower_alloc_op_into_home(
        self,
        s: LowState,
        dst: LocalId,
        path: IntrinsicPath,
        args: Seq<Operand>,
    ) -> LowState {
        let s = match self.home(dst) {
            Some(home) => {
                let s = match self.eu_payload_of(dst) {
                    Some(pair) => {
                        let s = match allocation_of(path.members@) {
                            AllocOp::Create => {
                                let s = self.lower_create(s, home, pair.1, path, args);
                                s
                            },
                            AllocOp::Alloc => {
                                let s = self.lower_alloc(s, home, pair.1, path, args);
                                s
                            },
                            AllocOp::Realloc => {
                                let s = self.lower_realloc(s, home, pair.1, path, args);
                                s
                            },
                            AllocOp::Unknown => {
                                s.fail(self.unsup("unrecognized allocator operation"@))
                            },
                        };
                        s
                    },
                    None => {
                        s.fail(self.unsup("alloc result without a recovered payload type"@))
                    },
                };
                s
            },
            None => {
                s.fail(self.unsup("alloc result without a home"@))
            },
        };
        s
    }

    /// Puts the address and the size of a buffer into two registers.
    #[verifier::opaque]
    pub open spec fn load_fba_buffer(
        self,
        s: LowState,
        op: Operand,
        buf_reg: Gpr,
        cap_reg: Gpr,
    ) -> LowState {
        let s = match self.operand_type(op) {
            Some(ty) => {
                let s = match self.ty(ty) {
                    Type::Slice { .. } => {
                        let s = match op {
                            Operand::Copy(p) => {
                                let s = self.place_addr_general(
                                    s,
                                    p,
                                    (p.proj@.len() as usize),
                                    Gpr::Rax,
                                );
                                if s.err is Some {
                                    s
                                } else {
                                    let s = s.on(s.text.mov_load_mem(buf_reg, Gpr::Rax, 0));
                                    let s = s.on(s.text.mov_load_mem(cap_reg, Gpr::Rax, 8));
                                    s
                                }
                            },
                            Operand::Const(_) => {
                                s.fail(self.unsup("FBA slice buffer is not a place"@))
                            },
                        };
                        s
                    },
                    Type::Pointer { pointee } => {
                        let s = self.operand_to(s, op, buf_reg);
                        if s.err is Some {
                            s
                        } else {
                            let s = match self.known_length(pointee) {
                                Some(n) => {
                                    let s = s.on(s.text.mov_ri(cap_reg, n as i64));
                                    s
                                },
                                None => {
                                    s.fail(
                                        self.unsup(
                                            "FBA pointer buffer without a known array length"@,
                                        ),
                                    )
                                },
                            };
                            s
                        }
                    },
                    _ => {
                        s.fail(self.unsup("unrecognized FBA buffer type"@))
                    },
                };
                s
            },
            None => {
                s.fail(self.unsup("FBA buffer operand without a type"@))
            },
        };
        s
    }

    /// The length of an array type that says it.
    pub open spec fn known_length(self, ty: TypeId) -> Option<u64> {
        match self.ty(ty) {
            Type::Array { len, .. } => match len {
                ArrayLen::Known(n) => Some(n),
                _ => None,
            },
            _ => None,
        }
    }

    /// Registers an allocator.
    #[verifier::opaque]
    pub open spec fn lower_alloc_id(self, s: LowState, args: Seq<Operand>) -> LowState {
        let kind = self.alloc_kind(args);
        let s = if kind == 3 {
            let s = match self.first_of(args, Want::Buffer) {
                Some(i) => {
                    let s = self.load_fba_buffer(s, args[i as int], Gpr::Rsi, Gpr::Rdx);
                    s
                },
                None => {
                    s.fail(self.unsup("@allocId(FixedBuffer) without a buffer operand"@))
                },
            };
            s
        } else {
            let s = s.on(s.text.mov_ri(Gpr::Rsi, 0));
            let s = s.on(s.text.mov_ri(Gpr::Rdx, 0));
            s
        };
        if s.err is Some {
            s
        } else {
            let s = s.on(s.text.mov_ri(Gpr::Rdi, self.kind_tag(kind)));
            let s = s.on(s.text.call_runtime(RuntimeFn::AllocId));
            s
        }
    }

    /// The handle of an allocator: its id.
    #[verifier::opaque]
    pub open spec fn lower_alloc_handle(self, s: LowState, args: Seq<Operand>) -> LowState {
        let s = if args.len() > 0 {
            let s = self.operand_to(s, args[0 as int], Gpr::Rax);
            s
        } else {
            s.fail(self.unsup("@allocHandle without an id operand"@))
        };
        s
    }

    /// Tears down a general-purpose allocator.
    #[verifier::opaque]
    pub open spec fn lower_gpa_deinit(self, s: LowState, args: Seq<Operand>) -> LowState {
        let s = if args.len() > 0 {
            let s = self.operand_to(s, args[0 as int], Gpr::Rdi);
            if s.err is Some {
                s
            } else {
                let s = s.on(s.text.mov_ri(Gpr::Rsi, self.checks_off_word()));
                let s = s.on(s.text.call_runtime(RuntimeFn::GpaDeinit));
                s
            }
        } else {
            s.fail(self.unsup("@gpaDeinit without an id operand"@))
        };
        s
    }

    /// Releases an arena.
    #[verifier::opaque]
    pub open spec fn lower_arena_deinit(self, s: LowState, args: Seq<Operand>) -> LowState {
        let s = if args.len() > 0 {
            let s = self.operand_to(s, args[0 as int], Gpr::Rdi);
            if s.err is Some {
                s
            } else {
                let s = s.on(s.text.call_runtime(RuntimeFn::ArenaDeinit));
                let s = s.on(s.text.mov_ri(Gpr::Rax, 0));
                s
            }
        } else {
            s.fail(self.unsup("@arenaDeinit without an id operand"@))
        };
        s
    }

    /// Reads the clock.
    #[verifier::opaque]
    pub open spec fn lower_clock_now(self, s: LowState) -> LowState {
        let s = s.on(s.text.mov_ri_state(Gpr::R11, self.abi.clock_nanos));
        let s = s.on(s.text.mov_load_mem(Gpr::Rax, Gpr::R11, 0));
        s
    }

    /// Advances the clock; by nothing where the duration is negative.
    #[verifier::opaque]
    pub open spec fn lower_clock_sleep(self, s: LowState, args: Seq<Operand>) -> LowState {
        let s = if args.len() > 0 {
            let s = self.operand_to(s, args[0 as int], Gpr::Rcx);
            if s.err is Some {
                s
            } else {
                let nonneg = s.text.fresh();
                let s = s.on(s.text.new_label());
                let s = s.on(s.text.test_rr(Gpr::Rcx, Gpr::Rcx));
                let s = s.on(s.text.jcc_local(Cc::Ge, nonneg));
                let s = s.on(s.text.mov_ri(Gpr::Rcx, 0));
                let s = s.on(s.text.bind(nonneg));
                let s = s.on(s.text.mov_ri_state(Gpr::R11, self.abi.clock_nanos));
                let s = s.on(s.text.mov_load_mem(Gpr::Rax, Gpr::R11, 0));
                let s = s.on(s.text.add_rr(Gpr::Rax, Gpr::Rcx));
                let s = s.on(s.text.mov_store_mem(Gpr::R11, 0, Gpr::Rax));
                let s = s.on(s.text.mov_ri(Gpr::Rax, 0));
                s
            }
        } else {
            s.fail(self.unsup("@clockSleep without a duration operand"@))
        };
        s
    }

    /// Advances the SplitMix64 generator and puts its next number into `rax`.
    #[verifier::opaque]
    pub open spec fn emit_splitmix64_next(self, s: LowState) -> LowState {
        let s = s.on(s.text.mov_ri_state(Gpr::R11, self.abi.rng_state));
        let s = s.on(s.text.mov_load_mem(Gpr::Rax, Gpr::R11, 0));
        let s = s.on(s.text.mov_ri(Gpr::Rcx, GOLDEN));
        let s = s.on(s.text.add_rr(Gpr::Rax, Gpr::Rcx));
        let s = s.on(s.text.mov_store_mem(Gpr::R11, 0, Gpr::Rax));
        let s = s.on(s.text.mov_rr(Gpr::Rdx, Gpr::Rax));
        let s = s.on(s.text.shr_ri(Gpr::Rdx, 30));
        let s = s.on(s.text.xor_rr(Gpr::Rax, Gpr::Rdx));
        let s = s.on(s.text.mov_ri(Gpr::Rcx, MIX_ONE));
        let s = s.on(s.text.imul_rr(Gpr::Rax, Gpr::Rcx));
        let s = s.on(s.text.mov_rr(Gpr::Rdx, Gpr::Rax));
        let s = s.on(s.text.shr_ri(Gpr::Rdx, 27));
        let s = s.on(s.text.xor_rr(Gpr::Rax, Gpr::Rdx));
        let s = s.on(s.text.mov_ri(Gpr::Rcx, MIX_TWO));
        let s = s.on(s.text.imul_rr(Gpr::Rax, Gpr::Rcx));
        let s = s.on(s.text.mov_rr(Gpr::Rdx, Gpr::Rax));
        let s = s.on(s.text.shr_ri(Gpr::Rdx, 31));
        let s = s.on(s.text.xor_rr(Gpr::Rax, Gpr::Rdx));
        s
    }

    /// Fills a buffer with random bytes.
    #[verifier::opaque]
    pub open spec fn lower_random_bytes(self, s: LowState, args: Seq<Operand>) -> LowState {
        let s = if args.len() > 0 {
            let s = self.load_fba_buffer(s, args[0 as int], Gpr::Rsi, Gpr::R8);
            if s.err is Some {
                s
            } else {
                let top = s.text.fresh();
                let s = s.on(s.text.new_label());
                let end = s.text.fresh();
                let s = s.on(s.text.new_label());
                let s = s.on(s.text.bind(top));
                let s = s.on(s.text.test_rr(Gpr::R8, Gpr::R8));
                let s = s.on(s.text.jcc_local(Cc::E, end));
                let s = self.emit_splitmix64_next(s);
                let s = s.on(s.text.mov_store8_mem(Gpr::Rsi, 0, Gpr::Rax));
                let s = s.on(s.text.add_ri(Gpr::Rsi, 1));
                let s = s.on(s.text.add_ri(Gpr::R8, ONE_LESS));
                let s = s.on(s.text.jmp_local(top));
                let s = s.on(s.text.bind(end));
                let s = s.on(s.text.mov_ri(Gpr::Rax, 0));
                s
            }
        } else {
            s.fail(self.unsup("@randomBytes without a buffer operand"@))
        };
        s
    }

    /// No variable is set.
    #[verifier::opaque]
    pub open spec fn lower_env_get(self, s: LowState) -> LowState {
        let s = s.on(s.text.mov_ri(Gpr::Rax, 0));
        s
    }

    /// The type that an overflow test is about.
    pub open spec fn predicate_type(self, args: Seq<Operand>) -> TypeId {
        if args.len() > 0 && self.is_undef(args.last()) && self.repr_of(
            self.undef_type(args.last()),
        ).width != 0 {
            self.undef_type(args.last())
        } else {
            match self.first_of(args, Want::Integer) {
                Some(i) => self.type_or_ret(args[i as int]),
                None => if args.len() > 0 {
                    self.type_or_ret(args[0 as int])
                } else {
                    self.func.ret
                },
            }
        }
    }

    /// Puts the first argument into `dst`.
    #[verifier::opaque]
    pub open spec fn first_operand_to(self, s: LowState, args: Seq<Operand>, dst: Gpr) -> LowState {
        let s = if args.len() > 0 {
            let s = self.operand_to(s, args[0 as int], dst);
            s
        } else {
            s.fail(missing_argument_text(0))
        };
        s
    }

    /// Puts the second argument into `dst`.
    #[verifier::opaque]
    pub open spec fn second_operand_to(
        self,
        s: LowState,
        args: Seq<Operand>,
        dst: Gpr,
    ) -> LowState {
        let s = if args.len() > 1 {
            let s = self.operand_to(s, args[1 as int], dst);
            s
        } else {
            s.fail(missing_argument_text(1))
        };
        s
    }

    /// Computes on `rax` and `rcx`.
    #[verifier::opaque]
    pub open spec fn arith(self, s: LowState, kind: ArithKind) -> LowState {
        let s = match kind {
            ArithKind::Add => {
                let s = s.on(s.text.add_rr(Gpr::Rax, Gpr::Rcx));
                s
            },
            ArithKind::Sub => {
                let s = s.on(s.text.sub_rr(Gpr::Rax, Gpr::Rcx));
                s
            },
            ArithKind::Mul => {
                let s = s.on(s.text.imul_rr(Gpr::Rax, Gpr::Rcx));
                s
            },
        };
        s
    }

    /// Whether an operation does not overflow its type.
    #[verifier::opaque]
    pub open spec fn overflow_predicate(
        self,
        s: LowState,
        args: Seq<Operand>,
        ty: TypeId,
        kind: ArithKind,
    ) -> LowState {
        let r = self.repr_of(ty);
        let s = if r.width == 0 {
            let s = s.on(s.text.mov_ri(Gpr::Rax, 1));
            s
        } else if self.is_wide_int(ty) {
            let s = self.overflow_predicate_128(s, args, kind);
            s
        } else if r.width >= 64 {
            let s = self.overflow_predicate_64(s, args, r, kind);
            s
        } else {
            let s = self.first_operand_to(s, args, Gpr::Rax);
            if s.err is Some {
                s
            } else {
                let s = self.second_operand_to(s, args, Gpr::Rcx);
                if s.err is Some {
                    s
                } else {
                    let s = self.arith(s, kind);
                    let s = self.unchanged_by_narrowing(s, ty);
                    s
                }
            }
        };
        s
    }

    /// Whether the value in `rax` is one of the type.
    #[verifier::opaque]
    pub open spec fn unchanged_by_narrowing(self, s: LowState, ty: TypeId) -> LowState {
        let s = s.on(s.text.mov_rr(Gpr::Rcx, Gpr::Rax));
        let s = self.normalize(s, Gpr::Rcx, ty);
        let s = s.on(s.text.cmp_rr(Gpr::Rax, Gpr::Rcx));
        let s = self.set_bool(s, Cc::E);
        s
    }

    /// Whether an operation on words does not overflow.
    #[verifier::opaque]
    pub open spec fn overflow_predicate_64(
        self,
        s: LowState,
        args: Seq<Operand>,
        repr: Repr,
        kind: ArithKind,
    ) -> LowState {
        let s = self.first_operand_to(s, args, Gpr::Rax);
        if s.err is Some {
            s
        } else {
            let s = self.second_operand_to(s, args, Gpr::Rcx);
            if s.err is Some {
                s
            } else {
                let s = if kind == ArithKind::Mul {
                    let s = if repr.signed {
                        let s = s.on(s.text.imul_r1(Gpr::Rcx));
                        s
                    } else {
                        let s = s.on(s.text.mul_r(Gpr::Rcx));
                        s
                    };
                    s
                } else {
                    let s = self.arith(s, kind);
                    s
                };
                let s = if repr.signed {
                    let s = self.set_bool(s, Cc::O);
                    s
                } else {
                    let s = self.set_bool(s, Cc::C);
                    s
                };
                let s = s.on(s.text.xor_ri(Gpr::Rax, 1));
                s
            }
        }
    }

    /// Puts an argument of two words into two registers.
    #[verifier::opaque]
    pub open spec fn wide_argument(
        self,
        s: LowState,
        args: Seq<Operand>,
        i: usize,
        lo: Gpr,
        hi: Gpr,
    ) -> LowState {
        let s = if i < args.len() {
            let s = self.load_wide_operand(s, args[i as int], lo, hi);
            s
        } else {
            s.fail(missing_argument_text(i as u32))
        };
        s
    }

    /// Whether an operation on two words does not overflow.
    #[verifier::opaque]
    pub open spec fn overflow_predicate_128(
        self,
        s: LowState,
        args: Seq<Operand>,
        kind: ArithKind,
    ) -> LowState {
        let s = self.wide_argument(s, args, 0, Gpr::Rax, Gpr::Rdx);
        if s.err is Some {
            s
        } else {
            let s = self.wide_argument(s, args, 1, Gpr::Rcx, Gpr::R8);
            if s.err is Some {
                s
            } else {
                let s = match kind {
                    ArithKind::Add => {
                        let s = s.on(s.text.add_rr(Gpr::Rax, Gpr::Rcx));
                        let s = s.on(s.text.adc_rr(Gpr::Rdx, Gpr::R8));
                        s
                    },
                    ArithKind::Sub => {
                        let s = s.on(s.text.sub_rr(Gpr::Rax, Gpr::Rcx));
                        let s = s.on(s.text.sbb_rr(Gpr::Rdx, Gpr::R8));
                        s
                    },
                    ArithKind::Mul => {
                        s.fail(self.unsup("128-bit integer multiply overflow check (use the VM)"@))
                    },
                };
                if s.err is Some {
                    s
                } else {
                    let s = self.set_bool(s, Cc::O);
                    let s = s.on(s.text.xor_ri(Gpr::Rax, 1));
                    s
                }
            }
        }
    }

    /// How the value in `rax` stands to a number.
    #[verifier::opaque]
    pub open spec fn rax_is(self, s: LowState, v: i64, cc: Cc) -> LowState {
        let s = s.on(s.text.mov_ri(Gpr::Rcx, v));
        let s = s.on(s.text.cmp_rr(Gpr::Rax, Gpr::Rcx));
        let s = self.set_bool(s, cc);
        s
    }

    /// Whether a division is not of the least value by minus one.
    #[verifier::opaque]
    pub open spec fn div_overflow_predicate(
        self,
        s: LowState,
        args: Seq<Operand>,
        ty: TypeId,
    ) -> LowState {
        let r = self.repr_of(ty);
        let s = if self.is_wide_int(ty) {
            s.fail(self.unsup("128-bit integer division (use the VM)"@))
        } else if !r.signed || r.width == 0 {
            let s = s.on(s.text.mov_ri(Gpr::Rax, 1));
            s
        } else {
            let s = self.first_operand_to(s, args, Gpr::Rax);
            if s.err is Some {
                s
            } else {
                let s = self.rax_is(s, min_of(r), Cc::E);
                let s = s.on(s.text.mov_rr(Gpr::Rdx, Gpr::Rax));
                let s = self.second_operand_to(s, args, Gpr::Rax);
                if s.err is Some {
                    s
                } else {
                    let s = self.rax_is(s, MINUS_ONE, Cc::E);
                    let s = s.on(s.text.and_rr(Gpr::Rax, Gpr::Rdx));
                    let s = s.on(s.text.xor_ri(Gpr::Rax, 1));
                    s
                }
            }
        };
        s
    }

    /// Whether a value is not the least one.
    #[verifier::opaque]
    pub open spec fn neg_overflow_predicate(
        self,
        s: LowState,
        args: Seq<Operand>,
        ty: TypeId,
    ) -> LowState {
        let r = self.repr_of(ty);
        let s = if !r.signed || r.width == 0 {
            let s = s.on(s.text.mov_ri(Gpr::Rax, 1));
            s
        } else if self.is_wide_int(ty) {
            let s = self.wide_argument(s, args, 0, Gpr::Rax, Gpr::Rdx);
            if s.err is Some {
                s
            } else {
                let s = s.on(s.text.test_rr(Gpr::Rax, Gpr::Rax));
                let s = s.on(s.text.setcc_al(Cc::E));
                let s = s.on(s.text.movzx_al(Gpr::Rcx));
                let s = s.on(s.text.mov_ri(Gpr::R8, i64::MIN));
                let s = s.on(s.text.cmp_rr(Gpr::Rdx, Gpr::R8));
                let s = s.on(s.text.setcc_al(Cc::E));
                let s = s.on(s.text.movzx_al(Gpr::Rax));
                let s = s.on(s.text.and_rr(Gpr::Rax, Gpr::Rcx));
                let s = s.on(s.text.xor_ri(Gpr::Rax, 1));
                s
            }
        } else {
            let s = self.first_operand_to(s, args, Gpr::Rax);
            if s.err is Some {
                s
            } else {
                let s = self.rax_is(s, min_of(r), Cc::Ne);
                s
            }
        };
        s
    }

    /// Whether the first argument is signed, where it has a type.
    pub open spec fn first_signed(self, args: Seq<Operand>, otherwise: bool) -> bool {
        match self.operand_type(args[0 as int]) {
            Some(t) => self.repr_of(t).signed,
            None => otherwise,
        }
    }

    /// Whether a value is one of a type.
    #[verifier::opaque]
    pub open spec fn narrow_fits_predicate(
        self,
        s: LowState,
        args: Seq<Operand>,
        ty: TypeId,
    ) -> LowState {
        let r = self.repr_of(ty);
        let s = if r.width == 0 {
            let s = s.on(s.text.mov_ri(Gpr::Rax, 1));
            s
        } else if r.width >= 64 {
            let s = if args.len() == 0 {
                s.fail(missing_argument_text(0))
            } else if self.first_signed(args, r.signed) == r.signed {
                let s = s.on(s.text.mov_ri(Gpr::Rax, 1));
                s
            } else {
                let s = self.first_operand_to(s, args, Gpr::Rax);
                if s.err is Some {
                    s
                } else {
                    let s = self.rax_is(s, 0, Cc::Ge);
                    s
                }
            };
            s
        } else {
            let s = self.first_operand_to(s, args, Gpr::Rax);
            if s.err is Some {
                s
            } else {
                let s = self.unchanged_by_narrowing(s, ty);
                s
            }
        };
        s
    }

    /// Lowers a builtin.
    #[verifier::opaque]
    pub open spec fn lower_safety_predicate(
        self,
        s: LowState,
        name: Seq<char>,
        args: Seq<Operand>,
    ) -> LowState {
        let ty = self.predicate_type(args);
        let s = match builtin_of(name) {
            Builtin::AllocId => {
                let s = self.lower_alloc_id(s, args);
                s
            },
            Builtin::AllocHandle => {
                let s = self.lower_alloc_handle(s, args);
                s
            },
            Builtin::GpaDeinit => {
                let s = self.lower_gpa_deinit(s, args);
                s
            },
            Builtin::ArenaDeinit => {
                let s = self.lower_arena_deinit(s, args);
                s
            },
            Builtin::ClockNow => {
                let s = self.lower_clock_now(s);
                s
            },
            Builtin::ClockSleep => {
                let s = self.lower_clock_sleep(s, args);
                s
            },
            Builtin::RandomInt => {
                let s = self.emit_splitmix64_next(s);
                s
            },
            Builtin::RandomBytes => {
                let s = self.lower_random_bytes(s, args);
                s
            },
            Builtin::EnvGet => {
                let s = self.lower_env_get(s);
                s
            },
            Builtin::NoAddOverflow => {
                let s = self.overflow_predicate(s, args, ty, ArithKind::Add);
                s
            },
            Builtin::NoSubOverflow => {
                let s = self.overflow_predicate(s, args, ty, ArithKind::Sub);
                s
            },
            Builtin::NoMulOverflow => {
                let s = self.overflow_predicate(s, args, ty, ArithKind::Mul);
                s
            },
            Builtin::NoDivOverflow => {
                let s = self.div_overflow_predicate(s, args, ty);
                s
            },
            Builtin::NoNegOverflow => {
                let s = self.neg_overflow_predicate(s, args, ty);
                s
            },
            Builtin::NarrowFits => {
                let s = self.narrow_fits_predicate(s, args, ty);
                s
            },
            Builtin::Unknown => {
                s.fail(self.unsup3("safety intrinsic @"@, name, ""@))
            },
        };
        s
    }
}

impl FnLower<'_> {
    /// Whether an operand is never read.
    pub(crate) fn is_undef(&self, op: &Operand) -> (r: bool)
        requires
            self.ok(),
        ensures
            r == self.env().is_undef(*op),
    {
        match op {
            Operand::Copy(_) => false,
            Operand::Const(c) => match *c {
                Const::Undef { .. } => true,
                _ => false,
            },
        }
    }

    /// Whether an operand is an integer constant.
    pub(crate) fn is_number(&self, op: &Operand) -> (r: bool)
        requires
            self.ok(),
        ensures
            r == self.env().is_number(*op),
    {
        match op {
            Operand::Copy(_) => false,
            Operand::Const(c) => match *c {
                Const::Int { .. } => true,
                _ => false,
            },
        }
    }

    /// Whether an operand is a slice or a pointer.
    pub(crate) fn is_buffer(&self, op: &Operand) -> (r: bool)
        requires
            self.ok(),
            self.env().operand_ok(*op),
        ensures
            r == self.env().is_buffer(*op),
    {
        match self.operand_type(op) {
            Some(t) => self.is_slice(t) || self.is_pointer(t),
            None => false,
        }
    }

    /// Whether an operand is an integer of fixed width.
    pub(crate) fn has_width(&self, op: &Operand) -> (r: bool)
        requires
            self.ok(),
            self.env().operand_ok(*op),
        ensures
            r == self.env().has_width(*op),
    {
        match self.operand_type(op) {
            Some(t) => self.repr_of(t).width != 0,
            None => false,
        }
    }

    /// Whether an argument is what is looked for.
    pub(crate) fn wanted(&self, op: &Operand, w: Want) -> (r: bool)
        requires
            self.ok(),
            self.env().operand_ok(*op),
        ensures
            r == self.env().wanted(*op, w),
    {
        match w {
            Want::Real => !self.is_undef(op),
            Want::Undef => self.is_undef(op),
            Want::Slice => self.operand_is_slice(op),
            Want::Length => !self.is_undef(op) && !self.operand_is_slice(op),
            Want::Buffer => self.is_buffer(op),
            Want::Number => self.is_number(op),
            Want::Integer => self.has_width(op),
        }
    }

    /// The type that an operand which is never read carries.
    pub(crate) fn undef_type(&self, op: &Operand) -> (r: TypeId)
        requires
            self.ok(),
            self.env().operand_ok(*op),
        ensures
            r == self.env().undef_type(*op),
            self.env().prog.arena.has(r),
    {
        match op {
            Operand::Copy(_) => TypeId(T_U8),
            Operand::Const(c) => match *c {
                Const::Undef { ty } => ty,
                _ => TypeId(T_U8),
            },
        }
    }

    /// The element type that an allocation names.
    pub(crate) fn undef_carrier_ty(&self, args: &Vec<Operand>) -> (r: TypeId)
        requires
            self.ok(),
            self.env().operands_ok(args@),
        ensures
            r == self.env().undef_carrier_ty(args@),
            self.env().prog.arena.has(r),
    {
        match self.first_of(args, Want::Undef) {
            Some(i) => self.undef_type(&args[i]),
            None => TypeId(T_U8),
        }
    }

    /// The value of an integer constant, modulo the word size.
    pub(crate) fn number_of(&self, op: &Operand) -> (r: u64)
        requires
            self.ok(),
        ensures
            r == self.env().number_of(*op),
    {
        match op {
            Operand::Copy(_) => 0,
            Operand::Const(c) => match *c {
                Const::Int { value, .. } => value as u64,
                _ => 0,
            },
        }
    }

    /// The allocator kind that an argument names.
    pub(crate) fn alloc_kind(&self, args: &Vec<Operand>) -> (r: u64)
        requires
            self.ok(),
            self.env().operands_ok(args@),
        ensures
            r == self.env().alloc_kind(args@),
    {
        match self.first_of(args, Want::Number) {
            Some(i) => self.number_of(&args[i]),
            None => 0,
        }
    }

    /// The element type of a slice or array.
    pub(crate) fn slice_elem_ty(&self, ty: TypeId) -> (r: TypeId)
        requires
            self.ok(),
            self.env().prog.arena.has(ty),
        ensures
            r == self.env().slice_elem_ty(ty),
            self.env().prog.arena.has(r),
    {
        match self.ty(ty) {
            Type::Slice { elem } => elem,
            Type::Array { elem, .. } => elem,
            _ => ty,
        }
    }

    /// The element type of a slice operand.
    pub(crate) fn elem_type_of(&self, op: &Operand) -> (r: TypeId)
        requires
            self.ok(),
            self.env().operand_ok(*op),
        ensures
            r == self.env().elem_type_of(*op),
            self.env().prog.arena.has(r),
    {
        match self.operand_type(op) {
            Some(t) => self.slice_elem_ty(t),
            None => TypeId(T_U8),
        }
    }

    /// Whether an operand is reached through a struct field.
    pub(crate) fn operand_is_field(&self, op: &Operand) -> (r: bool)
        requires
            self.ok(),
            self.env().operand_ok(*op),
        ensures
            r == self.env().operand_is_field(*op),
    {
        match op {
            Operand::Copy(p) => self.field_before(p, p.proj.len()),
            Operand::Const(_) => false,
        }
    }

    /// The stride of the elements of a slice that is resized.
    pub(crate) fn realloc_stride(&self, op: &Operand) -> (r: u64)
        requires
            self.ok(),
            self.env().operand_ok(*op),
        ensures
            r == self.env().realloc_stride(*op),
    {
        if self.operand_is_field(op) {
            self.field_slice_stride(self.elem_type_of(op))
        } else {
            self.slice_elem_stride(self.elem_type_of(op))
        }
    }

    /// One where safety checks are left out.
    pub(crate) fn checks_off_word(&self) -> (r: i64)
        requires
            self.ok(),
        ensures
            r == self.env().checks_off_word(),
    {
        if self.checks_off() {
            1
        } else {
            0
        }
    }

    /// Puts the allocator handle into `dst`.
    pub(crate) fn handle_to(
        &self,
        out: &mut Out,
        path: &IntrinsicPath,
        dst: Gpr,
    ) -> (r: Result<(), CodegenError>)
        requires
            self.ok(),
            old(out).ok(),
            self.env().path_ok(*path),
        ensures
            lowered(r, final(out)@, self.env().handle_to(old(out)@, *path, dst)),
            r is Ok ==> final(out).ok() && grew(old(out)@.text.labels, final(out)@.text.labels),
    {
        let ghost l0 = out@.text.labels;
        proof {
            reveal(Env::handle_to);
            grew_refl(l0);
        }
        match &path.root {
            IntrinsicRoot::Value(op) => {
                let ghost k1 = out@.text.labels;
                match self.operand_to(out, op, dst) {
                    Ok(_) => {},
                    Err(e) => {
                        return Err(e);
                    },
                }
                proof {
                    grew_trans(l0, k1, out@.text.labels);
                }
            },
            _ => {
                out.text.mov_ri(dst, 0);
            },
        }
        Ok(())
    }

    /// Stores a pointer as the value of an error union.
    pub(crate) fn write_eu_ok_ptr(&self, out: &mut Out, home: i32, payload_off: i32, src: Gpr)
        requires
            self.ok(),
            old(out).ok(),
        ensures
            final(out)@ == self.env().write_eu_ok_ptr(old(out)@, home, payload_off, src),
            final(out).ok(),
            grew(old(out)@.text.labels, final(out)@.text.labels),
    {
        let ghost l0 = out@.text.labels;
        proof {
            reveal(Env::write_eu_ok_ptr);
            grew_refl(l0);
        }
        out.text.mov_store_mem(Gpr::Rbp, plus(home, payload_off), src);
        out.text.mov_ri(Gpr::Rax, 0);
        out.text.mov_store16_mem(Gpr::Rbp, home, Gpr::Rax);
    }

    /// Stores a slice as the value of an error union, or the error where the pointer is
    /// null.
    pub(crate) fn write_alloc_slice_result(
        &self,
        out: &mut Out,
        home: i32,
        payload_off: i32,
        len_op: &Operand,
    ) -> (r: Result<(), CodegenError>)
        requires
            self.ok(),
            old(out).ok(),
            self.env().operand_ok(*len_op),
        ensures
            lowered(
                r,
                final(out)@,
                self.env().write_alloc_slice_result(old(out)@, home, payload_off, *len_op),
            ),
            r is Ok ==> final(out).ok() && grew(old(out)@.text.labels, final(out)@.text.labels),
    {
        let ghost l0 = out@.text.labels;
        let ghost mut open: Set<LabelId> = Set::empty();
        proof {
            reveal(Env::write_alloc_slice_result);
            opening_start(l0);
        }
        let ghost k2 = out@.text.labels;
        let oom: LabelId = out.text.new_local_label();
        proof {
            opening_new(l0, k2, open, oom);
            open = open.insert(oom);
        }
        let ghost k3 = out@.text.labels;
        let done: LabelId = out.text.new_local_label();
        proof {
            opening_new(l0, k3, open, done);
            open = open.insert(done);
        }
        out.text.test_rr(Gpr::Rax, Gpr::Rax);
        out.text.jcc_local(Cc::E, oom);
        out.text.mov_store_mem(Gpr::Rbp, plus(home, payload_off), Gpr::Rax);
        let ghost k4 = out@.text.labels;
        match self.operand_to(out, len_op, Gpr::Rcx) {
            Ok(_) => {},
            Err(e) => {
                return Err(e);
            },
        }
        proof {
            opening_call(l0, k4, out@.text.labels, open);
        }
        out.text.mov_store_mem(Gpr::Rbp, plus(plus(home, payload_off), 8), Gpr::Rcx);
        out.text.mov_ri(Gpr::Rax, 0);
        out.text.mov_store16_mem(Gpr::Rbp, home, Gpr::Rax);
        out.text.jmp_local(done);
        let ghost k5 = out@.text.labels;
        proof {
            opening_unbound(l0, k5, open, oom);
        }
        out.text.bind_local(oom);
        proof {
            opening_bound(l0, k5, out@.text.labels, open, oom);
            open = open.remove(oom);
        }
        out.text.mov_ri(Gpr::Rax, self.oom_tag() as i64);
        out.text.mov_store16_mem(Gpr::Rbp, home, Gpr::Rax);
        let ghost k6 = out@.text.labels;
        proof {
            opening_unbound(l0, k6, open, done);
        }
        out.text.bind_local(done);
        proof {
            opening_bound(l0, k6, out@.text.labels, open, done);
            open = open.remove(done);
        }
        proof {
            assert(open =~= Set::empty());
            opening_done(l0, out@.text.labels, open);
        }
        Ok(())
    }

    /// Puts the pointer of a slice into `dst`.
    pub(crate) fn load_slice_ptr(
        &self,
        out: &mut Out,
        op: &Operand,
        dst: Gpr,
    ) -> (r: Result<(), CodegenError>)
        requires
            self.ok(),
            old(out).ok(),
            self.env().operand_ok(*op),
        ensures
            lowered(r, final(out)@, self.env().load_slice_ptr(old(out)@, *op, dst)),
            r is Ok ==> final(out).ok() && grew(old(out)@.text.labels, final(out)@.text.labels),
    {
        let ghost l0 = out@.text.labels;
        proof {
            reveal(Env::load_slice_ptr);
            grew_refl(l0);
        }
        match op {
            Operand::Copy(p) => {
                let ghost k7 = out@.text.labels;
                match self.place_addr_general(out, p, p.proj.len(), dst) {
                    Ok(_) => {},
                    Err(e) => {
                        return Err(e);
                    },
                }
                proof {
                    grew_trans(l0, k7, out@.text.labels);
                }
                out.text.mov_load_mem(dst, dst, 0);
            },
            Operand::Const(_) => {
                return Err(self.unsup("slice operand of an allocator op is not a place"));
            },
        }
        Ok(())
    }

    /// Puts a pointer or the pointer of a slice into `dst`.
    pub(crate) fn load_ptr_operand(
        &self,
        out: &mut Out,
        op: &Operand,
        dst: Gpr,
    ) -> (r: Result<(), CodegenError>)
        requires
            self.ok(),
            old(out).ok(),
            self.env().operand_ok(*op),
        ensures
            lowered(r, final(out)@, self.env().load_ptr_operand(old(out)@, *op, dst)),
            r is Ok ==> final(out).ok() && grew(old(out)@.text.labels, final(out)@.text.labels),
    {
        let ghost l0 = out@.text.labels;
        proof {
            reveal(Env::load_ptr_operand);
            grew_refl(l0);
        }
        if self.operand_is_slice(op) {
            let ghost k8 = out@.text.labels;
            match self.load_slice_ptr(out, op, dst) {
                Ok(_) => {},
                Err(e) => {
                    return Err(e);
                },
            }
            proof {
                grew_trans(l0, k8, out@.text.labels);
            }
        } else {
            let ghost k9 = out@.text.labels;
            match self.operand_to(out, op, dst) {
                Ok(_) => {},
                Err(e) => {
                    return Err(e);
                },
            }
            proof {
                grew_trans(l0, k9, out@.text.labels);
            }
        }
        Ok(())
    }

    /// Releases an allocation.
    pub(crate) fn lower_free_op(
        &self,
        out: &mut Out,
        path: &IntrinsicPath,
        args: &Vec<Operand>,
    ) -> (r: Result<(), CodegenError>)
        requires
            self.ok(),
            old(out).ok(),
            self.env().path_ok(*path),
            self.env().operands_ok(args@),
        ensures
            lowered(r, final(out)@, self.env().lower_free_op(old(out)@, *path, args@)),
            r is Ok ==> final(out).ok() && grew(old(out)@.text.labels, final(out)@.text.labels),
    {
        let ghost l0 = out@.text.labels;
        proof {
            reveal(Env::lower_free_op);
            grew_refl(l0);
        }
        match self.first_of(args, Want::Real) {
            Some(i) => {
                let ghost k10 = out@.text.labels;
                match self.load_ptr_operand(out, &args[i], Gpr::Rsi) {
                    Ok(_) => {},
                    Err(e) => {
                        return Err(e);
                    },
                }
                proof {
                    grew_trans(l0, k10, out@.text.labels);
                }
                out.text.push(Gpr::Rsi);
                let ghost k11 = out@.text.labels;
                match self.handle_to(out, path, Gpr::Rdi) {
                    Ok(_) => {},
                    Err(e) => {
                        return Err(e);
                    },
                }
                proof {
                    grew_trans(l0, k11, out@.text.labels);
                }
                out.text.pop(Gpr::Rsi);
                out.text.mov_ri(Gpr::Rdx, self.checks_off_word());
                out.text.call_runtime(RuntimeFn::Free);
            },
            None => {
                return Err(self.unsup("free without a pointer operand"));
            },
        }
        Ok(())
    }

    /// Allocates one element.
    pub(crate) fn lower_create(
        &self,
        out: &mut Out,
        home: i32,
        payload_off: i32,
        path: &IntrinsicPath,
        args: &Vec<Operand>,
    ) -> (r: Result<(), CodegenError>)
        requires
            self.ok(),
            old(out).ok(),
            self.env().path_ok(*path),
            self.env().operands_ok(args@),
        ensures
            lowered(
                r,
                final(out)@,
                self.env().lower_create(old(out)@, home, payload_off, *path, args@),
            ),
            r is Ok ==> final(out).ok() && grew(old(out)@.text.labels, final(out)@.text.labels),
    {
        let ghost l0 = out@.text.labels;
        proof {
            reveal(Env::lower_create);
            grew_refl(l0);
        }
        let elem: TypeId = self.undef_carrier_ty(args);
        let elem_size: u64 = self.natural_stride(elem);
        let ghost k12 = out@.text.labels;
        match self.handle_to(out, path, Gpr::Rdi) {
            Ok(_) => {},
            Err(e) => {
                return Err(e);
            },
        }
        proof {
            grew_trans(l0, k12, out@.text.labels);
        }
        out.text.mov_ri(Gpr::Rsi, 1);
        out.text.mov_ri(Gpr::Rdx, elem_size as i64);
        out.text.call_runtime(RuntimeFn::Alloc);
        let ghost k13 = out@.text.labels;
        self.write_eu_ok_ptr(out, home, payload_off, Gpr::Rax);
        proof {
            grew_trans(l0, k13, out@.text.labels);
        }
        Ok(())
    }

    /// Allocates a slice.
    pub(crate) fn lower_alloc(
        &self,
        out: &mut Out,
        home: i32,
        payload_off: i32,
        path: &IntrinsicPath,
        args: &Vec<Operand>,
    ) -> (r: Result<(), CodegenError>)
        requires
            self.ok(),
            old(out).ok(),
            self.env().path_ok(*path),
            self.env().operands_ok(args@),
        ensures
            lowered(
                r,
                final(out)@,
                self.env().lower_alloc(old(out)@, home, payload_off, *path, args@),
            ),
            r is Ok ==> final(out).ok() && grew(old(out)@.text.labels, final(out)@.text.labels),
    {
        let ghost l0 = out@.text.labels;
        proof {
            reveal(Env::lower_alloc);
            grew_refl(l0);
        }
        let elem_size: u64 = self.slice_elem_stride(self.undef_carrier_ty(args));
        match self.last_of(args, Want::Real) {
            Some(i) => {
                let ghost k14 = out@.text.labels;
                match self.operand_to(out, &args[i], Gpr::Rsi) {
                    Ok(_) => {},
                    Err(e) => {
                        return Err(e);
                    },
                }
                proof {
                    grew_trans(l0, k14, out@.text.labels);
                }
                out.text.push(Gpr::Rsi);
                let ghost k15 = out@.text.labels;
                match self.handle_to(out, path, Gpr::Rdi) {
                    Ok(_) => {},
                    Err(e) => {
                        return Err(e);
                    },
                }
                proof {
                    grew_trans(l0, k15, out@.text.labels);
                }
                out.text.pop(Gpr::Rsi);
                out.text.mov_ri(Gpr::Rdx, elem_size as i64);
                out.text.call_runtime(RuntimeFn::Alloc);
                let ghost k16 = out@.text.labels;
                match self.write_alloc_slice_result(out, home, payload_off, &args[i]) {
                    Ok(_) => {},
                    Err(e) => {
                        return Err(e);
                    },
                }
                proof {
                    grew_trans(l0, k16, out@.text.labels);
                }
            },
            None => {
                return Err(self.unsup("alloc without a count operand"));
            },
        }
        Ok(())
    }

    /// Resizes a slice.
    pub(crate) fn lower_realloc(
        &self,
        out: &mut Out,
        home: i32,
        payload_off: i32,
        path: &IntrinsicPath,
        args: &Vec<Operand>,
    ) -> (r: Result<(), CodegenError>)
        requires
            self.ok(),
            old(out).ok(),
            self.env().path_ok(*path),
            self.env().operands_ok(args@),
        ensures
            lowered(
                r,
                final(out)@,
                self.env().lower_realloc(old(out)@, home, payload_off, *path, args@),
            ),
            r is Ok ==> final(out).ok() && grew(old(out)@.text.labels, final(out)@.text.labels),
    {
        let ghost l0 = out@.text.labels;
        proof {
            reveal(Env::lower_realloc);
            grew_refl(l0);
        }
        match self.first_of(args, Want::Slice) {
            Some(i) => {
                match self.last_of(args, Want::Length) {
                    Some(n) => {
                        let ghost k17 = out@.text.labels;
                        match self.load_slice_ptr(out, &args[i], Gpr::Rsi) {
                            Ok(_) => {},
                            Err(e) => {
                                return Err(e);
                            },
                        }
                        proof {
                            grew_trans(l0, k17, out@.text.labels);
                        }
                        out.text.push(Gpr::Rsi);
                        let ghost k18 = out@.text.labels;
                        match self.operand_to(out, &args[n], Gpr::Rdx) {
                            Ok(_) => {},
                            Err(e) => {
                                return Err(e);
                            },
                        }
                        proof {
                            grew_trans(l0, k18, out@.text.labels);
                        }
                        out.text.push(Gpr::Rdx);
                        let ghost k19 = out@.text.labels;
                        match self.handle_to(out, path, Gpr::Rdi) {
                            Ok(_) => {},
                            Err(e) => {
                                return Err(e);
                            },
                        }
                        proof {
                            grew_trans(l0, k19, out@.text.labels);
                        }
                        out.text.pop(Gpr::Rdx);
                        out.text.pop(Gpr::Rsi);
                        out.text.mov_ri(Gpr::Rcx, self.realloc_stride(&args[i]) as i64);
                        out.text.mov_ri(Gpr::R8, self.checks_off_word());
                        out.text.call_runtime(RuntimeFn::Realloc);
                        let ghost k20 = out@.text.labels;
                        match self.write_alloc_slice_result(out, home, payload_off, &args[n]) {
                            Ok(_) => {},
                            Err(e) => {
                                return Err(e);
                            },
                        }
                        proof {
                            grew_trans(l0, k20, out@.text.labels);
                        }
                    },
                    None => {
                        return Err(self.unsup("realloc without a length operand"));
                    },
                }
            },
            None => {
                return Err(self.unsup("realloc without a slice operand"));
            },
        }
        Ok(())
    }

    /// Stores the result of an allocation.
    pub(crate) fn lower_alloc_op_into_home(
        &self,
        out: &mut Out,
        dst: LocalId,
        path: &IntrinsicPath,
        args: &Vec<Operand>,
    ) -> (r: Result<(), CodegenError>)
        requires
            self.ok(),
            old(out).ok(),
            dst.0 < self.env().func.locals@.len(),
            self.env().path_ok(*path),
            self.env().operands_ok(args@),
        ensures
            lowered(
                r,
                final(out)@,
                self.env().lower_alloc_op_into_home(old(out)@, dst, *path, args@),
            ),
            r is Ok ==> final(out).ok() && grew(old(out)@.text.labels, final(out)@.text.labels),
    {
        let ghost l0 = out@.text.labels;
        proof {
            reveal(Env::lower_alloc_op_into_home);
            grew_refl(l0);
        }
        match self.home(dst) {
            Some(home) => {
                match self.eu_payload_of(dst) {
                    Some(pair) => {
                        match alloc_op(&path.members) {
                            AllocOp::Create => {
                                let ghost k21 = out@.text.labels;
                                match self.lower_create(out, home, pair.1, path, args) {
                                    Ok(_) => {},
                                    Err(e) => {
                                        return Err(e);
                                    },
                                }
                                proof {
                                    grew_trans(l0, k21, out@.text.labels);
                                }
                            },
                            AllocOp::Alloc => {
                                let ghost k22 = out@.text.labels;
                                match self.lower_alloc(out, home, pair.1, path, args) {
                                    Ok(_) => {},
                                    Err(e) => {
                                        return Err(e);
                                    },
                                }
                                proof {
                                    grew_trans(l0, k22, out@.text.labels);
                                }
                            },
                            AllocOp::Realloc => {
                                let ghost k23 = out@.text.labels;
                                match self.lower_realloc(out, home, pair.1, path, args) {
                                    Ok(_) => {},
                                    Err(e) => {
                                        return Err(e);
                                    },
                                }
                                proof {
                                    grew_trans(l0, k23, out@.text.labels);
                                }
                            },
                            AllocOp::Unknown => {
                                return Err(self.unsup("unrecognized allocator operation"));
                            },
                        }
                    },
                    None => {
                        return Err(self.unsup("alloc result without a recovered payload type"));
                    },
                }
            },
            None => {
                return Err(self.unsup("alloc result without a home"));
            },
        }
        Ok(())
    }

    /// Puts the address and the size of a buffer into two registers.
    pub(crate) fn load_fba_buffer(
        &self,
        out: &mut Out,
        op: &Operand,
        buf_reg: Gpr,
        cap_reg: Gpr,
    ) -> (r: Result<(), CodegenError>)
        requires
            self.ok(),
            old(out).ok(),
            self.env().operand_ok(*op),
        ensures
            lowered(r, final(out)@, self.env().load_fba_buffer(old(out)@, *op, buf_reg, cap_reg)),
            r is Ok ==> final(out).ok() && grew(old(out)@.text.labels, final(out)@.text.labels),
    {
        let ghost l0 = out@.text.labels;
        proof {
            reveal(Env::load_fba_buffer);
            grew_refl(l0);
        }
        match self.operand_type(op) {
            Some(ty) => {
                match self.ty(ty) {
                    Type::Slice { .. } => {
                        match op {
                            Operand::Copy(p) => {
                                let ghost k24 = out@.text.labels;
                                match self.place_addr_general(out, p, p.proj.len(), Gpr::Rax) {
                                    Ok(_) => {},
                                    Err(e) => {
                                        return Err(e);
                                    },
                                }
                                proof {
                                    grew_trans(l0, k24, out@.text.labels);
                                }
                                out.text.mov_load_mem(buf_reg, Gpr::Rax, 0);
                                out.text.mov_load_mem(cap_reg, Gpr::Rax, 8);
                            },
                            Operand::Const(_) => {
                                return Err(self.unsup("FBA slice buffer is not a place"));
                            },
                        }
                    },
                    Type::Pointer { pointee } => {
                        let ghost k25 = out@.text.labels;
                        match self.operand_to(out, op, buf_reg) {
                            Ok(_) => {},
                            Err(e) => {
                                return Err(e);
                            },
                        }
                        proof {
                            grew_trans(l0, k25, out@.text.labels);
                        }
                        match self.known_length(pointee) {
                            Some(n) => {
                                out.text.mov_ri(cap_reg, n as i64);
                            },
                            None => {
                                return Err(
                                    self.unsup("FBA pointer buffer without a known array length"),
                                );
                            },
                        }
                    },
                    _ => {
                        return Err(self.unsup("unrecognized FBA buffer type"));
                    },
                }
            },
            None => {
                return Err(self.unsup("FBA buffer operand without a type"));
            },
        }
        Ok(())
    }

    /// The length of an array type that says it.
    pub(crate) fn known_length(&self, ty: TypeId) -> (r: Option<u64>)
        requires
            self.ok(),
            self.env().prog.arena.has(ty),
        ensures
            r == self.env().known_length(ty),
    {
        match self.ty(ty) {
            Type::Array { len, .. } => match len {
                ArrayLen::Known(n) => Some(n),
                _ => None,
            },
            _ => None,
        }
    }

    /// Registers an allocator.
    pub(crate) fn lower_alloc_id(
        &self,
        out: &mut Out,
        args: &Vec<Operand>,
    ) -> (r: Result<(), CodegenError>)
        requires
            self.ok(),
            old(out).ok(),
            self.env().operands_ok(args@),
        ensures
            lowered(r, final(out)@, self.env().lower_alloc_id(old(out)@, args@)),
            r is Ok ==> final(out).ok() && grew(old(out)@.text.labels, final(out)@.text.labels),
    {
        let ghost l0 = out@.text.labels;
        proof {
            reveal(Env::lower_alloc_id);
            grew_refl(l0);
        }
        let kind: u64 = self.alloc_kind(args);
        if kind == 3 {
            match self.first_of(args, Want::Buffer) {
                Some(i) => {
                    let ghost k26 = out@.text.labels;
                    match self.load_fba_buffer(out, &args[i], Gpr::Rsi, Gpr::Rdx) {
                        Ok(_) => {},
                        Err(e) => {
                            return Err(e);
                        },
                    }
                    proof {
                        grew_trans(l0, k26, out@.text.labels);
                    }
                },
                None => {
                    return Err(self.unsup("@allocId(FixedBuffer) without a buffer operand"));
                },
            }
        } else {
            out.text.mov_ri(Gpr::Rsi, 0);
            out.text.mov_ri(Gpr::Rdx, 0);
        }
        out.text.mov_ri(Gpr::Rdi, self.kind_tag(kind));
        out.text.call_runtime(RuntimeFn::AllocId);
        Ok(())
    }

    /// The handle of an allocator: its id.
    pub(crate) fn lower_alloc_handle(
        &self,
        out: &mut Out,
        args: &Vec<Operand>,
    ) -> (r: Result<(), CodegenError>)
        requires
            self.ok(),
            old(out).ok(),
            self.env().operands_ok(args@),
        ensures
            lowered(r, final(out)@, self.env().lower_alloc_handle(old(out)@, args@)),
            r is Ok ==> final(out).ok() && grew(old(out)@.text.labels, final(out)@.text.labels),
    {
        let ghost l0 = out@.text.labels;
        proof {
            reveal(Env::lower_alloc_handle);
            grew_refl(l0);
        }
        if args.len() > 0 {
            let ghost k27 = out@.text.labels;
            match self.operand_to(out, &args[0], Gpr::Rax) {
                Ok(_) => {},
                Err(e) => {
                    return Err(e);
                },
            }
            proof {
                grew_trans(l0, k27, out@.text.labels);
            }
        } else {
            return Err(self.unsup("@allocHandle without an id operand"));
        }
        Ok(())
    }

    /// Tears down a general-purpose allocator.
    pub(crate) fn lower_gpa_deinit(
        &self,
        out: &mut Out,
        args: &Vec<Operand>,
    ) -> (r: Result<(), CodegenError>)
        requires
            self.ok(),
            old(out).ok(),
            self.env().operands_ok(args@),
        ensures
            lowered(r, final(out)@, self.env().lower_gpa_deinit(old(out)@, args@)),
            r is Ok ==> final(out).ok() && grew(old(out)@.text.labels, final(out)@.text.labels),
    {
        let ghost l0 = out@.text.labels;
        proof {
            reveal(Env::lower_gpa_deinit);
            grew_refl(l0);
        }
        if args.len() > 0 {
            let ghost k28 = out@.text.labels;
            match self.operand_to(out, &args[0], Gpr::Rdi) {
                Ok(_) => {},
                Err(e) => {
                    return Err(e);
                },
            }
            proof {
                grew_trans(l0, k28, out@.text.labels);
            }
            out.text.mov_ri(Gpr::Rsi, self.checks_off_word());
            out.text.call_runtime(RuntimeFn::GpaDeinit);
        } else {
            return Err(self.unsup("@gpaDeinit without an id operand"));
        }
        Ok(())
    }

    /// Releases an arena.
    pub(crate) fn lower_arena_deinit(
        &self,
        out: &mut Out,
        args: &Vec<Operand>,
    ) -> (r: Result<(), CodegenError>)
        requires
            self.ok(),
            old(out).ok(),
            self.env().operands_ok(args@),
        ensures
            lowered(r, final(out)@, self.env().lower_arena_deinit(old(out)@, args@)),
            r is Ok ==> final(out).ok() && grew(old(out)@.text.labels, final(out)@.text.labels),
    {
        let ghost l0 = out@.text.labels;
        proof {
            reveal(Env::lower_arena_deinit);
            grew_refl(l0);
        }
        if args.len() > 0 {
            let ghost k29 = out@.text.labels;
            match self.operand_to(out, &args[0], Gpr::Rdi) {
                Ok(_) => {},
                Err(e) => {
                    return Err(e);
                },
            }
            proof {
                grew_trans(l0, k29, out@.text.labels);
            }
            out.text.call_runtime(RuntimeFn::ArenaDeinit);
            out.text.mov_ri(Gpr::Rax, 0);
        } else {
            return Err(self.unsup("@arenaDeinit without an id operand"));
        }
        Ok(())
    }

    /// Reads the clock.
    pub(crate) fn lower_clock_now(&self, out: &mut Out)
        requires
            self.ok(),
            old(out).ok(),
        ensures
            final(out)@ == self.env().lower_clock_now(old(out)@),
            final(out).ok(),
            grew(old(out)@.text.labels, final(out)@.text.labels),
    {
        let ghost l0 = out@.text.labels;
        proof {
            reveal(Env::lower_clock_now);
            grew_refl(l0);
        }
        out.text.mov_ri_state(Gpr::R11, self.abi.clock_nanos);
        out.text.mov_load_mem(Gpr::Rax, Gpr::R11, 0);
    }

    /// Advances the clock; by nothing where the duration is negative.
    pub(crate) fn lower_clock_sleep(
        &self,
        out: &mut Out,
        args: &Vec<Operand>,
    ) -> (r: Result<(), CodegenError>)
        requires
            self.ok(),
            old(out).ok(),
            self.env().operands_ok(args@),
        ensures
            lowered(r, final(out)@, self.env().lower_clock_sleep(old(out)@, args@)),
            r is Ok ==> final(out).ok() && grew(old(out)@.text.labels, final(out)@.text.labels),
    {
        let ghost l0 = out@.text.labels;
        let ghost mut open: Set<LabelId> = Set::empty();
        proof {
            reveal(Env::lower_clock_sleep);
            opening_start(l0);
        }
        if args.len() > 0 {
            let ghost k30 = out@.text.labels;
            match self.operand_to(out, &args[0], Gpr::Rcx) {
                Ok(_) => {},
                Err(e) => {
                    return Err(e);
                },
            }
            proof {
                opening_call(l0, k30, out@.text.labels, open);
            }
            let ghost k31 = out@.text.labels;
            let nonneg: LabelId = out.text.new_local_label();
            proof {
                opening_new(l0, k31, open, nonneg);
                open = open.insert(nonneg);
            }
            out.text.test_rr(Gpr::Rcx, Gpr::Rcx);
            out.text.jcc_local(Cc::Ge, nonneg);
            out.text.mov_ri(Gpr::Rcx, 0);
            let ghost k32 = out@.text.labels;
            proof {
                opening_unbound(l0, k32, open, nonneg);
            }
            out.text.bind_local(nonneg);
            proof {
                opening_bound(l0, k32, out@.text.labels, open, nonneg);
                open = open.remove(nonneg);
            }
            out.text.mov_ri_state(Gpr::R11, self.abi.clock_nanos);
            out.text.mov_load_mem(Gpr::Rax, Gpr::R11, 0);
            out.text.add_rr(Gpr::Rax, Gpr::Rcx);
            out.text.mov_store_mem(Gpr::R11, 0, Gpr::Rax);
            out.text.mov_ri(Gpr::Rax, 0);
        } else {
            return Err(self.unsup("@clockSleep without a duration operand"));
        }
        proof {
            assert(open =~= Set::empty());
            opening_done(l0, out@.text.labels, open);
        }
        Ok(())
    }

    /// Advances the SplitMix64 generator and puts its next number into `rax`.
    pub(crate) fn emit_splitmix64_next(&self, out: &mut Out)
        requires
            self.ok(),
            old(out).ok(),
        ensures
            final(out)@ == self.env().emit_splitmix64_next(old(out)@),
            final(out).ok(),
            grew(old(out)@.text.labels, final(out)@.text.labels),
    {
        let ghost l0 = out@.text.labels;
        proof {
            reveal(Env::emit_splitmix64_next);
            grew_refl(l0);
        }
        out.text.mov_ri_state(Gpr::R11, self.abi.rng_state);
        out.text.mov_load_mem(Gpr::Rax, Gpr::R11, 0);
        out.text.mov_ri(Gpr::Rcx, GOLDEN);
        out.text.add_rr(Gpr::Rax, Gpr::Rcx);
        out.text.mov_store_mem(Gpr::R11, 0, Gpr::Rax);
        out.text.mov_rr(Gpr::Rdx, Gpr::Rax);
        out.text.shr_ri(Gpr::Rdx, 30);
        out.text.xor_rr(Gpr::Rax, Gpr::Rdx);
        out.text.mov_ri(Gpr::Rcx, MIX_ONE);
        out.text.imul_rr(Gpr::Rax, Gpr::Rcx);
        out.text.mov_rr(Gpr::Rdx, Gpr::Rax);
        out.text.shr_ri(Gpr::Rdx, 27);
        out.text.xor_rr(Gpr::Rax, Gpr::Rdx);
        out.text.mov_ri(Gpr::Rcx, MIX_TWO);
        out.text.imul_rr(Gpr::Rax, Gpr::Rcx);
        out.text.mov_rr(Gpr::Rdx, Gpr::Rax);
        out.text.shr_ri(Gpr::Rdx, 31);
        out.text.xor_rr(Gpr::Rax, Gpr::Rdx);
    }

    /// Fills a buffer with random bytes.
    pub(crate) fn lower_random_bytes(
        &self,
        out: &mut Out,
        args: &Vec<Operand>,
    ) -> (r: Result<(), CodegenError>)
        requires
            self.ok(),
            old(out).ok(),
            self.env().operands_ok(args@),
        ensures
            lowered(r, final(out)@, self.env().lower_random_bytes(old(out)@, args@)),
            r is Ok ==> final(out).ok() && grew(old(out)@.text.labels, final(out)@.text.labels),
    {
        let ghost l0 = out@.text.labels;
        let ghost mut open: Set<LabelId> = Set::empty();
        proof {
            reveal(Env::lower_random_bytes);
            opening_start(l0);
        }
        if args.len() > 0 {
            let ghost k33 = out@.text.labels;
            match self.load_fba_buffer(out, &args[0], Gpr::Rsi, Gpr::R8) {
                Ok(_) => {},
                Err(e) => {
                    return Err(e);
                },
            }
            proof {
                opening_call(l0, k33, out@.text.labels, open);
            }
            let ghost k34 = out@.text.labels;
            let top: LabelId = out.text.new_local_label();
            proof {
                opening_new(l0, k34, open, top);
                open = open.insert(top);
            }
            let ghost k35 = out@.text.labels;
            let end: LabelId = out.text.new_local_label();
            proof {
                opening_new(l0, k35, open, end);
                open = open.insert(end);
            }
            let ghost k36 = out@.text.labels;
            proof {
                opening_unbound(l0, k36, open, top);
            }
            out.text.bind_local(top);
            proof {
                opening_bound(l0, k36, out@.text.labels, open, top);
                open = open.remove(top);
            }
            out.text.test_rr(Gpr::R8, Gpr::R8);
            out.text.jcc_local(Cc::E, end);
            let ghost k37 = out@.text.labels;
            self.emit_splitmix64_next(out);
            proof {
                opening_call(l0, k37, out@.text.labels, open);
            }
            out.text.mov_store8_mem(Gpr::Rsi, 0, Gpr::Rax);
            out.text.add_ri(Gpr::Rsi, 1);
            out.text.add_ri(Gpr::R8, ONE_LESS);
            out.text.jmp_local(top);
            let ghost k38 = out@.text.labels;
            proof {
                opening_unbound(l0, k38, open, end);
            }
            out.text.bind_local(end);
            proof {
                opening_bound(l0, k38, out@.text.labels, open, end);
                open = open.remove(end);
            }
            out.text.mov_ri(Gpr::Rax, 0);
        } else {
            return Err(self.unsup("@randomBytes without a buffer operand"));
        }
        proof {
            assert(open =~= Set::empty());
            opening_done(l0, out@.text.labels, open);
        }
        Ok(())
    }

    /// No variable is set.
    pub(crate) fn lower_env_get(&self, out: &mut Out)
        requires
            self.ok(),
            old(out).ok(),
        ensures
            final(out)@ == self.env().lower_env_get(old(out)@),
            final(out).ok(),
            grew(old(out)@.text.labels, final(out)@.text.labels),
    {
        let ghost l0 = out@.text.labels;
        proof {
            reveal(Env::lower_env_get);
            grew_refl(l0);
        }
        out.text.mov_ri(Gpr::Rax, 0);
    }

    /// The type that an overflow test is about.
    pub(crate) fn predicate_type(&self, args: &Vec<Operand>) -> (r: TypeId)
        requires
            self.ok(),
            self.env().operands_ok(args@),
        ensures
            r == self.env().predicate_type(args@),
            self.env().prog.arena.has(r),
    {
        if args.len() > 0 && self.is_undef(&args[args.len() - 1]) && self.repr_of(
            self.undef_type(&args[args.len() - 1]),
        ).width != 0 {
            self.undef_type(&args[args.len() - 1])
        } else {
            match self.first_of(args, Want::Integer) {
                Some(i) => self.type_or_ret(&args[i]),
                None => if args.len() > 0 {
                    self.type_or_ret(&args[0])
                } else {
                    self.func.ret
                },
            }
        }
    }

    /// Puts the first argument into `dst`.
    pub(crate) fn first_operand_to(
        &self,
        out: &mut Out,
        args: &Vec<Operand>,
        dst: Gpr,
    ) -> (r: Result<(), CodegenError>)
        requires
            self.ok(),
            old(out).ok(),
            self.env().operands_ok(args@),
        ensures
            lowered(r, final(out)@, self.env().first_operand_to(old(out)@, args@, dst)),
            r is Ok ==> final(out).ok() && grew(old(out)@.text.labels, final(out)@.text.labels),
    {
        let ghost l0 = out@.text.labels;
        proof {
            reveal(Env::first_operand_to);
            grew_refl(l0);
        }
        if args.len() > 0 {
            let ghost k39 = out@.text.labels;
            match self.operand_to(out, &args[0], dst) {
                Ok(_) => {},
                Err(e) => {
                    return Err(e);
                },
            }
            proof {
                grew_trans(l0, k39, out@.text.labels);
            }
        } else {
            return Err(missing_argument(0));
        }
        Ok(())
    }

    /// Puts the second argument into `dst`.
    pub(crate) fn second_operand_to(
        &self,
        out: &mut Out,
        args: &Vec<Operand>,
        dst: Gpr,
    ) -> (r: Result<(), CodegenError>)
        requires
            self.ok(),
            old(out).ok(),
            self.env().operands_ok(args@),
        ensures
            lowered(r, final(out)@, self.env().second_operand_to(old(out)@, args@, dst)),
            r is Ok ==> final(out).ok() && grew(old(out)@.text.labels, final(out)@.text.labels),
    {
        let ghost l0 = out@.text.labels;
        proof {
            reveal(Env::second_operand_to);
            grew_refl(l0);
        }
        if args.len() > 1 {
            let ghost k40 = out@.text.labels;
            match self.operand_to(out, &args[1], dst) {
                Ok(_) => {},
                Err(e) => {
                    return Err(e);
                },
            }
            proof {
                grew_trans(l0, k40, out@.text.labels);
            }
        } else {
            return Err(missing_argument(1));
        }
        Ok(())
    }

    /// Computes on `rax` and `rcx`.
    pub(crate) fn arith(&self, out: &mut Out, kind: ArithKind)
        requires
            self.ok(),
            old(out).ok(),
        ensures
            final(out)@ == self.env().arith(old(out)@, kind),
            final(out).ok(),
            grew(old(out)@.text.labels, final(out)@.text.labels),
    {
        let ghost l0 = out@.text.labels;
        proof {
            reveal(Env::arith);
            grew_refl(l0);
        }
        match kind {
            ArithKind::Add => {
                out.text.add_rr(Gpr::Rax, Gpr::Rcx);
            },
            ArithKind::Sub => {
                out.text.sub_rr(Gpr::Rax, Gpr::Rcx);
            },
            ArithKind::Mul => {
                out.text.imul_rr(Gpr::Rax, Gpr::Rcx);
            },
        }
    }

    /// Whether an operation does not overflow its type.
    pub(crate) fn overflow_predicate(
        &self,
        out: &mut Out,
        args: &Vec<Operand>,
        ty: TypeId,
        kind: ArithKind,
    ) -> (r: Result<(), CodegenError>)
        requires
            self.ok(),
            old(out).ok(),
            self.env().operands_ok(args@),
            self.env().prog.arena.has(ty),
        ensures
            lowered(r, final(out)@, self.env().overflow_predicate(old(out)@, args@, ty, kind)),
            r is Ok ==> final(out).ok() && grew(old(out)@.text.labels, final(out)@.text.labels),
    {
        let ghost l0 = out@.text.labels;
        proof {
            reveal(Env::overflow_predicate);
            grew_refl(l0);
        }
        let r: Repr = self.repr_of(ty);
        if r.width == 0 {
            out.text.mov_ri(Gpr::Rax, 1);
        } else if self.is_wide_int(ty) {
            let ghost k41 = out@.text.labels;
            match self.overflow_predicate_128(out, args, kind) {
                Ok(_) => {},
                Err(e) => {
                    return Err(e);
                },
            }
            proof {
                grew_trans(l0, k41, out@.text.labels);
            }
        } else if r.width >= 64 {
            let ghost k42 = out@.text.labels;
            match self.overflow_predicate_64(out, args, r, kind) {
                Ok(_) => {},
                Err(e) => {
                    return Err(e);
                },
            }
            proof {
                grew_trans(l0, k42, out@.text.labels);
            }
        } else {
            let ghost k43 = out@.text.labels;
            match self.first_operand_to(out, args, Gpr::Rax) {
                Ok(_) => {},
                Err(e) => {
                    return Err(e);
                },
            }
            proof {
                grew_trans(l0, k43, out@.text.labels);
            }
            let ghost k44 = out@.text.labels;
            match self.second_operand_to(out, args, Gpr::Rcx) {
                Ok(_) => {},
                Err(e) => {
                    return Err(e);
                },
            }
            proof {
                grew_trans(l0, k44, out@.text.labels);
            }
            let ghost k45 = out@.text.labels;
            self.arith(out, kind);
            proof {
                grew_trans(l0, k45, out@.text.labels);
            }
            let ghost k46 = out@.text.labels;
            self.unchanged_by_narrowing(out, ty);
            proof {
                grew_trans(l0, k46, out@.text.labels);
            }
        }
        Ok(())
    }

    /// Whether the value in `rax` is one of the type.
    pub(crate) fn unchanged_by_narrowing(&self, out: &mut Out, ty: TypeId)
        requires
            self.ok(),
            old(out).ok(),
            self.env().prog.arena.has(ty),
        ensures
            final(out)@ == self.env().unchanged_by_narrowing(old(out)@, ty),
            final(out).ok(),
            grew(old(out)@.text.labels, final(out)@.text.labels),
    {
        let ghost l0 = out@.text.labels;
        proof {
            reveal(Env::unchanged_by_narrowing);
            grew_refl(l0);
        }
        out.text.mov_rr(Gpr::Rcx, Gpr::Rax);
        let ghost k47 = out@.text.labels;
        self.normalize(out, Gpr::Rcx, ty);
        proof {
            grew_trans(l0, k47, out@.text.labels);
        }
        out.text.cmp_rr(Gpr::Rax, Gpr::Rcx);
        let ghost k48 = out@.text.labels;
        self.set_bool(out, Cc::E);
        proof {
            grew_trans(l0, k48, out@.text.labels);
        }
    }

    /// Whether an operation on words does not overflow.
    pub(crate) fn overflow_predicate_64(
        &self,
        out: &mut Out,
        args: &Vec<Operand>,
        repr: Repr,
        kind: ArithKind,
    ) -> (r: Result<(), CodegenError>)
        requires
            self.ok(),
            old(out).ok(),
            self.env().operands_ok(args@),
        ensures
            lowered(r, final(out)@, self.env().overflow_predicate_64(old(out)@, args@, repr, kind)),
            r is Ok ==> final(out).ok() && grew(old(out)@.text.labels, final(out)@.text.labels),
    {
        let ghost l0 = out@.text.labels;
        proof {
            reveal(Env::overflow_predicate_64);
            grew_refl(l0);
        }
        let ghost k49 = out@.text.labels;
        match self.first_operand_to(out, args, Gpr::Rax) {
            Ok(_) => {},
            Err(e) => {
                return Err(e);
            },
        }
        proof {
            grew_trans(l0, k49, out@.text.labels);
        }
        let ghost k50 = out@.text.labels;
        match self.second_operand_to(out, args, Gpr::Rcx) {
            Ok(_) => {},
            Err(e) => {
                return Err(e);
            },
        }
        proof {
            grew_trans(l0, k50, out@.text.labels);
        }
        if kind == ArithKind::Mul {
            if repr.signed {
                out.text.imul_r1(Gpr::Rcx);
            } else {
                out.text.mul_r(Gpr::Rcx);
            }
        } else {
            let ghost k51 = out@.text.labels;
            self.arith(out, kind);
            proof {
                grew_trans(l0, k51, out@.text.labels);
            }
        }
        if repr.signed {
            let ghost k52 = out@.text.labels;
            self.set_bool(out, Cc::O);
            proof {
                grew_trans(l0, k52, out@.text.labels);
            }
        } else {
            let ghost k53 = out@.text.labels;
            self.set_bool(out, Cc::C);
            proof {
                grew_trans(l0, k53, out@.text.labels);
            }
        }
        out.text.xor_ri(Gpr::Rax, 1);
        Ok(())
    }

    /// Puts an argument of two words into two registers.
    pub(crate) fn wide_argument(
        &self,
        out: &mut Out,
        args: &Vec<Operand>,
        i: usize,
        lo: Gpr,
        hi: Gpr,
    ) -> (r: Result<(), CodegenError>)
        requires
            self.ok(),
            old(out).ok(),
            i < 2,
            self.env().operands_ok(args@),
        ensures
            lowered(r, final(out)@, self.env().wide_argument(old(out)@, args@, i, lo, hi)),
            r is Ok ==> final(out).ok() && grew(old(out)@.text.labels, final(out)@.text.labels),
    {
        let ghost l0 = out@.text.labels;
        proof {
            reveal(Env::wide_argument);
            grew_refl(l0);
        }
        if i < args.len() {
            let ghost k54 = out@.text.labels;
            match self.load_wide_operand(out, &args[i], lo, hi) {
                Ok(_) => {},
                Err(e) => {
                    return Err(e);
                },
            }
            proof {
                grew_trans(l0, k54, out@.text.labels);
            }
        } else {
            return Err(missing_argument(i as u32));
        }
        Ok(())
    }

    /// Whether an operation on two words does not overflow.
    pub(crate) fn overflow_predicate_128(
        &self,
        out: &mut Out,
        args: &Vec<Operand>,
        kind: ArithKind,
    ) -> (r: Result<(), CodegenError>)
        requires
            self.ok(),
            old(out).ok(),
            self.env().operands_ok(args@),
        ensures
            lowered(r, final(out)@, self.env().overflow_predicate_128(old(out)@, args@, kind)),
            r is Ok ==> final(out).ok() && grew(old(out)@.text.labels, final(out)@.text.labels),
    {
        let ghost l0 = out@.text.labels;
        proof {
            reveal(Env::overflow_predicate_128);
            grew_refl(l0);
        }
        let ghost k55 = out@.text.labels;
        match self.wide_argument(out, args, 0, Gpr::Rax, Gpr::Rdx) {
            Ok(_) => {},
            Err(e) => {
                return Err(e);
            },
        }
        proof {
            grew_trans(l0, k55, out@.text.labels);
        }
        let ghost k56 = out@.text.labels;
        match self.wide_argument(out, args, 1, Gpr::Rcx, Gpr::R8) {
            Ok(_) => {},
            Err(e) => {
                return Err(e);
            },
        }
        proof {
            grew_trans(l0, k56, out@.text.labels);
        }
        match kind {
            ArithKind::Add => {
                out.text.add_rr(Gpr::Rax, Gpr::Rcx);
                out.text.adc_rr(Gpr::Rdx, Gpr::R8);
            },
            ArithKind::Sub => {
                out.text.sub_rr(Gpr::Rax, Gpr::Rcx);
                out.text.sbb_rr(Gpr::Rdx, Gpr::R8);
            },
            ArithKind::Mul => {
                return Err(self.unsup("128-bit integer multiply overflow check (use the VM)"));
            },
        }
        let ghost k57 = out@.text.labels;
        self.set_bool(out, Cc::O);
        proof {
            grew_trans(l0, k57, out@.text.labels);
        }
        out.text.xor_ri(Gpr::Rax, 1);
        Ok(())
    }

    /// How the value in `rax` stands to a number.
    pub(crate) fn rax_is(&self, out: &mut Out, v: i64, cc: Cc)
        requires
            self.ok(),
            old(out).ok(),
        ensures
            final(out)@ == self.env().rax_is(old(out)@, v, cc),
            final(out).ok(),
            grew(old(out)@.text.labels, final(out)@.text.labels),
    {
        let ghost l0 = out@.text.labels;
        proof {
            reveal(Env::rax_is);
            grew_refl(l0);
        }
        out.text.mov_ri(Gpr::Rcx, v);
        out.text.cmp_rr(Gpr::Rax, Gpr::Rcx);
        let ghost k58 = out@.text.labels;
        self.set_bool(out, cc);
        proof {
            grew_trans(l0, k58, out@.text.labels);
        }
    }

    /// Whether a division is not of the least value by minus one.
    pub(crate) fn div_overflow_predicate(
        &self,
        out: &mut Out,
        args: &Vec<Operand>,
        ty: TypeId,
    ) -> (r: Result<(), CodegenError>)
        requires
            self.ok(),
            old(out).ok(),
            self.env().operands_ok(args@),
            self.env().prog.arena.has(ty),
        ensures
            lowered(r, final(out)@, self.env().div_overflow_predicate(old(out)@, args@, ty)),
            r is Ok ==> final(out).ok() && grew(old(out)@.text.labels, final(out)@.text.labels),
    {
        let ghost l0 = out@.text.labels;
        proof {
            reveal(Env::div_overflow_predicate);
            grew_refl(l0);
        }
        let r: Repr = self.repr_of(ty);
        if self.is_wide_int(ty) {
            return Err(self.unsup("128-bit integer division (use the VM)"));
        } else if !r.signed || r.width == 0 {
            out.text.mov_ri(Gpr::Rax, 1);
        } else {
            let ghost k59 = out@.text.labels;
            match self.first_operand_to(out, args, Gpr::Rax) {
                Ok(_) => {},
                Err(e) => {
                    return Err(e);
                },
            }
            proof {
                grew_trans(l0, k59, out@.text.labels);
            }
            let ghost k60 = out@.text.labels;
            self.rax_is(out, type_min(r), Cc::E);
            proof {
                grew_trans(l0, k60, out@.text.labels);
            }
            out.text.mov_rr(Gpr::Rdx, Gpr::Rax);
            let ghost k61 = out@.text.labels;
            match self.second_operand_to(out, args, Gpr::Rax) {
                Ok(_) => {},
                Err(e) => {
                    return Err(e);
                },
            }
            proof {
                grew_trans(l0, k61, out@.text.labels);
            }
            let ghost k62 = out@.text.labels;
            self.rax_is(out, MINUS_ONE, Cc::E);
            proof {
                grew_trans(l0, k62, out@.text.labels);
            }
            out.text.and_rr(Gpr::Rax, Gpr::Rdx);
            out.text.xor_ri(Gpr::Rax, 1);
        }
        Ok(())
    }

    /// Whether a value is not the least one.
    pub(crate) fn neg_overflow_predicate(
        &self,
        out: &mut Out,
        args: &Vec<Operand>,
        ty: TypeId,
    ) -> (r: Result<(), CodegenError>)
        requires
            self.ok(),
            old(out).ok(),
            self.env().operands_ok(args@),
            self.env().prog.arena.has(ty),
        ensures
            lowered(r, final(out)@, self.env().neg_overflow_predicate(old(out)@, args@, ty)),
            r is Ok ==> final(out).ok() && grew(old(out)@.text.labels, final(out)@.text.labels),
    {
        let ghost l0 = out@.text.labels;
        proof {
            reveal(Env::neg_overflow_predicate);
            grew_refl(l0);
        }
        let r: Repr = self.repr_of(ty);
        if !r.signed || r.width == 0 {
            out.text.mov_ri(Gpr::Rax, 1);
        } else if self.is_wide_int(ty) {
            let ghost k63 = out@.text.labels;
            match self.wide_argument(out, args, 0, Gpr::Rax, Gpr::Rdx) {
                Ok(_) => {},
                Err(e) => {
                    return Err(e);
                },
            }
            proof {
                grew_trans(l0, k63, out@.text.labels);
            }
            out.text.test_rr(Gpr::Rax, Gpr::Rax);
            out.text.setcc_al(Cc::E);
            out.text.movzx_al(Gpr::Rcx);
            out.text.mov_ri(Gpr::R8, i64::MIN);
            out.text.cmp_rr(Gpr::Rdx, Gpr::R8);
            out.text.setcc_al(Cc::E);
            out.text.movzx_al(Gpr::Rax);
            out.text.and_rr(Gpr::Rax, Gpr::Rcx);
            out.text.xor_ri(Gpr::Rax, 1);
        } else {
            let ghost k64 = out@.text.labels;
            match self.first_operand_to(out, args, Gpr::Rax) {
                Ok(_) => {},
                Err(e) => {
                    return Err(e);
                },
            }
            proof {
                grew_trans(l0, k64, out@.text.labels);
            }
            let ghost k65 = out@.text.labels;
            self.rax_is(out, type_min(r), Cc::Ne);
            proof {
                grew_trans(l0, k65, out@.text.labels);
            }
        }
        Ok(())
    }

    /// Whether the first argument is signed, where it has a type.
    pub(crate) fn first_signed(&self, args: &Vec<Operand>, otherwise: bool) -> (r: bool)
        requires
            self.ok(),
            self.env().operands_ok(args@),
            args@.len() > 0,
        ensures
            r == self.env().first_signed(args@, otherwise),
    {
        match self.operand_type(&args[0]) {
            Some(t) => self.repr_of(t).signed,
            None => otherwise,
        }
    }

    /// Whether a value is one of a type.
    pub(crate) fn narrow_fits_predicate(
        &self,
        out: &mut Out,
        args: &Vec<Operand>,
        ty: TypeId,
    ) -> (r: Result<(), CodegenError>)
        requires
            self.ok(),
            old(out).ok(),
            self.env().operands_ok(args@),
            self.env().prog.arena.has(ty),
        ensures
            lowered(r, final(out)@, self.env().narrow_fits_predicate(old(out)@, args@, ty)),
            r is Ok ==> final(out).ok() && grew(old(out)@.text.labels, final(out)@.text.labels),
    {
        let ghost l0 = out@.text.labels;
        proof {
            reveal(Env::narrow_fits_predicate);
            grew_refl(l0);
        }
        let r: Repr = self.repr_of(ty);
        if r.width == 0 {
            out.text.mov_ri(Gpr::Rax, 1);
        } else if r.width >= 64 {
            if args.len() == 0 {
                return Err(missing_argument(0));
            } else if self.first_signed(args, r.signed) == r.signed {
                out.text.mov_ri(Gpr::Rax, 1);
            } else {
                let ghost k66 = out@.text.labels;
                match self.first_operand_to(out, args, Gpr::Rax) {
                    Ok(_) => {},
                    Err(e) => {
                        return Err(e);
                    },
                }
                proof {
                    grew_trans(l0, k66, out@.text.labels);
                }
                let ghost k67 = out@.text.labels;
                self.rax_is(out, 0, Cc::Ge);
                proof {
                    grew_trans(l0, k67, out@.text.labels);
                }
            }
        } else {
            let ghost k68 = out@.text.labels;
            match self.first_operand_to(out, args, Gpr::Rax) {
                Ok(_) => {},
                Err(e) => {
                    return Err(e);
                },
            }
            proof {
                grew_trans(l0, k68, out@.text.labels);
            }
            let ghost k69 = out@.text.labels;
            self.unchanged_by_narrowing(out, ty);
            proof {
                grew_trans(l0, k69, out@.text.labels);
            }
        }
        Ok(())
    }

    /// Lowers a builtin.
    pub(crate) fn lower_safety_predicate(
        &self,
        out: &mut Out,
        name: &str,
        args: &Vec<Operand>,
    ) -> (r: Result<(), CodegenError>)
        requires
            self.ok(),
            old(out).ok(),
            self.env().operands_ok(args@),
        ensures
            lowered(r, final(out)@, self.env().lower_safety_predicate(old(out)@, name@, args@)),
            r is Ok ==> final(out).ok() && grew(old(out)@.text.labels, final(out)@.text.labels),
    {
        let ghost l0 = out@.text.labels;
        proof {
            reveal(Env::lower_safety_predicate);
            grew_refl(l0);
        }
        let ty: TypeId = self.predicate_type(args);
        match builtin(name) {
            Builtin::AllocId => {
                let ghost k70 = out@.text.labels;
                match self.lower_alloc_id(out, args) {
                    Ok(_) => {},
                    Err(e) => {
                        return Err(e);
                    },
                }
                proof {
                    grew_trans(l0, k70, out@.text.labels);
                }
            },
            Builtin::AllocHandle => {
                let ghost k71 = out@.text.labels;
                match self.lower_alloc_handle(out, args) {
                    Ok(_) => {},
                    Err(e) => {
                        return Err(e);
                    },
                }
                proof {
                    grew_trans(l0, k71, out@.text.labels);
                }
            },
            Builtin::GpaDeinit => {
                let ghost k72 = out@.text.labels;
                match self.lower_gpa_deinit(out, args) {
                    Ok(_) => {},
                    Err(e) => {
                        return Err(e);
                    },
                }
                proof {
                    grew_trans(l0, k72, out@.text.labels);
                }
            },
            Builtin::ArenaDeinit => {
                let ghost k73 = out@.text.labels;
                match self.lower_arena_deinit(out, args) {
                    Ok(_) => {},
                    Err(e) => {
                        return Err(e);
                    },
                }
                proof {
                    grew_trans(l0, k73, out@.text.labels);
                }
            },
            Builtin::ClockNow => {
                let ghost k74 = out@.text.labels;
                self.lower_clock_now(out);
                proof {
                    grew_trans(l0, k74, out@.text.labels);
                }
            },
            Builtin::ClockSleep => {
                let ghost k75 = out@.text.labels;
                match self.lower_clock_sleep(out, args) {
                    Ok(_) => {},
                    Err(e) => {
                        return Err(e);
                    },
                }
                proof {
                    grew_trans(l0, k75, out@.text.labels);
                }
            },
            Builtin::RandomInt => {
                let ghost k76 = out@.text.labels;
                self.emit_splitmix64_next(out);
                proof {
                    grew_trans(l0, k76, out@.text.labels);
                }
            },
            Builtin::RandomBytes => {
                let ghost k77 = out@.text.labels;
                match self.lower_random_bytes(out, args) {
                    Ok(_) => {},
                    Err(e) => {
                        return Err(e);
                    },
                }
                proof {
                    grew_trans(l0, k77, out@.text.labels);
                }
            },
            Builtin::EnvGet => {
                let ghost k78 = out@.text.labels;
                self.lower_env_get(out);
                proof {
                    grew_trans(l0, k78, out@.text.labels);
                }
            },
            Builtin::NoAddOverflow => {
                let ghost k79 = out@.text.labels;
                match self.overflow_predicate(out, args, ty, ArithKind::Add) {
                    Ok(_) => {},
                    Err(e) => {
                        return Err(e);
                    },
                }
                proof {
                    grew_trans(l0, k79, out@.text.labels);
                }
            },
            Builtin::NoSubOverflow => {
                let ghost k80 = out@.text.labels;
                match self.overflow_predicate(out, args, ty, ArithKind::Sub) {
                    Ok(_) => {},
                    Err(e) => {
                        return Err(e);
                    },
                }
                proof {
                    grew_trans(l0, k80, out@.text.labels);
                }
            },
            Builtin::NoMulOverflow => {
                let ghost k81 = out@.text.labels;
                match self.overflow_predicate(out, args, ty, ArithKind::Mul) {
                    Ok(_) => {},
                    Err(e) => {
                        return Err(e);
                    },
                }
                proof {
                    grew_trans(l0, k81, out@.text.labels);
                }
            },
            Builtin::NoDivOverflow => {
                let ghost k82 = out@.text.labels;
                match self.div_overflow_predicate(out, args, ty) {
                    Ok(_) => {},
                    Err(e) => {
                        return Err(e);
                    },
                }
                proof {
                    grew_trans(l0, k82, out@.text.labels);
                }
            },
            Builtin::NoNegOverflow => {
                let ghost k83 = out@.text.labels;
                match self.neg_overflow_predicate(out, args, ty) {
                    Ok(_) => {},
                    Err(e) => {
                        return Err(e);
                    },
                }
                proof {
                    grew_trans(l0, k83, out@.text.labels);
                }
            },
            Builtin::NarrowFits => {
                let ghost k84 = out@.text.labels;
                match self.narrow_fits_predicate(out, args, ty) {
                    Ok(_) => {},
                    Err(e) => {
                        return Err(e);
                    },
                }
                proof {
                    grew_trans(l0, k84, out@.text.labels);
                }
            },
            Builtin::Unknown => {
                return Err(self.unsup3("safety intrinsic @", name, ""));
            },
        }
        Ok(())
    }
}

} // verus!
