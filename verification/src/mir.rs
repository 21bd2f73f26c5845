//! The mid-level program that the back end compiles.
use vstd::prelude::*;

use crate::mir_ids::FnId;
use crate::types::{TypeArena, TypeId};

verus! {

/// A local of a function, by its index.
#[derive(Clone, Copy, PartialEq, Eq, Structural, Debug)]
pub struct LocalId(pub u32);

/// A basic block of a function, by its index.
#[derive(Clone, Copy, PartialEq, Eq, Structural, Debug)]
pub struct BlockId(pub u32);

/// A constant with data of its own, by its index.
#[derive(Clone, Copy, PartialEq, Eq, Structural, Debug)]
pub struct ConstId(pub u32);

/// The runtime tag of an error.
#[derive(Clone, Copy, PartialEq, Eq, Structural, Debug)]
pub struct ErrTag(pub u16);

/// A binary operator.
#[derive(Clone, Copy, PartialEq, Eq, Structural, Debug)]
pub enum BinOp {
    Add,
    Sub,
    Mul,
    Div,
    Rem,
    BitAnd,
    BitOr,
    BitXor,
    Shl,
    Shr,
    Eq,
    Ne,
    Lt,
    Le,
    Gt,
    Ge,
}

/// A unary operator.
#[derive(Clone, Copy, PartialEq, Eq, Structural, Debug)]
pub enum UnOp {
    /// Arithmetic negation.
    Neg,
    /// Bitwise complement.
    BitNot,
    /// Logical negation.
    Not,
}

/// A conversion.
#[derive(Clone, Copy, PartialEq, Eq, Structural, Debug)]
pub enum CastKind {
    Widen,
    IntNarrow,
    PtrReinterpret,
    IntToFloat,
    FloatToInt,
}

/// What a discriminant is taken of.
#[derive(Clone, Copy, PartialEq, Eq, Structural, Debug)]
pub enum DiscrKind {
    Optional,
    ErrorUnion,
    Union,
}

/// What an aggregate literal makes.
#[derive(Clone, Copy, PartialEq, Eq, Structural, Debug)]
pub enum AggKind {
    Struct,
    Array,
    Tuple,
}

/// A part of a slice.
#[derive(Clone, Copy, PartialEq, Eq, Structural, Debug)]
pub enum SliceMeta {
    Ptr,
    Len,
}

/// Why a program stops.
#[derive(Clone, Copy, PartialEq, Eq, Structural, Debug)]
pub enum TrapReason {
    Bounds,
    Overflow,
    DivByZero,
    NegOverflow,
    NarrowLoss,
    LenMismatch,
    Unreachable,
    Panic,
}

/// The calling convention of a function.
#[derive(Clone, Copy, PartialEq, Eq, Structural, Debug)]
pub enum FnAbi {
    /// The language's own.
    Native,
    /// That of C.
    C,
}

/// How a program is built.
#[derive(Clone, Copy, PartialEq, Eq, Structural, Debug)]
pub enum BuildMode {
    Debug,
    ReleaseSafe,
    ReleaseFast,
}

/// A bit field of a packed struct.
#[derive(Clone, Copy, PartialEq, Eq, Structural, Debug)]
pub struct PackedField {
    /// The first bit.
    pub off: u32,
    /// The number of bits.
    pub width: u32,
    /// Whether the top bit is a sign.
    pub signed: bool,
}

/// A step from a value to a part of it.
#[derive(Debug)]
pub enum Proj {
    /// A struct field.
    Field { index: u32, ty: TypeId, packed: Option<PackedField> },
    /// An element.
    Index { at: Operand, ty: TypeId },
    /// What a pointer points to.
    Deref,
    /// A part of a slice.
    SliceMeta { which: SliceMeta, ty: TypeId },
    /// The payload of an optional or error union.
    Payload { ty: TypeId },
}

/// A local or a part of it.
#[derive(Debug)]
pub struct Place {
    /// The local.
    pub base: LocalId,
    /// The steps to the part.
    pub proj: Vec<Proj>,
}

/// A value that is read.
#[derive(Debug)]
pub enum Operand {
    /// The value of a place.
    Copy(Place),
    /// A constant.
    Const(Const),
}

/// A constant.
#[derive(Clone, Copy, PartialEq, Eq, Structural, Debug)]
pub enum Const {
    /// An integer.
    Int { value: i128, ty: TypeId },
    /// A truth value.
    Bool(bool),
    /// Nothing.
    Void,
    /// A float, by its bits.
    Float { bits: u64, ty: TypeId },
    /// A value of an enum.
    EnumVal { variant: u32, ty: TypeId },
    /// An error.
    ErrVal { tag: ErrTag, ty: TypeId },
    /// A value that is never read.
    Undef { ty: TypeId },
    /// A string.
    Str(ConstId),
    /// A slice of nothing.
    EmptySlice { ty: TypeId },
    /// An aggregate.
    Aggregate { id: ConstId, ty: TypeId },
}

/// The data of a constant.
#[derive(Debug)]
pub enum ConstData {
    Bytes(Vec<u8>),
    Aggregate(Vec<Operand>),
}

/// What an intrinsic call starts from.
#[derive(Debug)]
pub enum IntrinsicRoot {
    /// A builtin, by name.
    Builtin(String),
    /// A value whose member is called.
    Value(Operand),
    /// The system root.
    System,
}

/// The function that an intrinsic call names.
#[derive(Debug)]
pub struct IntrinsicPath {
    pub root: IntrinsicRoot,
    pub members: Vec<String>,
}

/// A computation.
#[derive(Debug)]
pub enum Rvalue {
    Use(Operand),
    Binary { op: BinOp, lhs: Operand, rhs: Operand, ty: TypeId },
    Unary { un: UnOp, operand: Operand, ty: TypeId },
    Ref { place: Place },
    Cast { kind: CastKind, operand: Operand, ty: TypeId },
    MakeSlice { ptr: Operand, offset: Operand, len: Operand, ty: TypeId },
    MakeSome(Operand, TypeId),
    MakeNull(TypeId),
    MakeOk(Operand, TypeId),
    MakeErr(ErrTag, TypeId),
    Discriminant { operand: Operand, of: DiscrKind },
    Aggregate { agg: AggKind, fields: Vec<Operand>, ty: TypeId },
    Call { func: FnId, args: Vec<Operand>, ty: TypeId },
    Intrinsic { path: IntrinsicPath, args: Vec<Operand> },
}

/// A statement.
#[derive(Debug)]
pub enum Statement {
    Assign { place: Place, rvalue: Rvalue },
    Eval { rvalue: Rvalue },
    StorageLive(LocalId),
    StorageDead(LocalId),
    Check,
    Note,
}

/// How a block ends.
#[derive(Debug)]
pub enum Terminator {
    Goto(BlockId),
    Branch { cond: Operand, then_bb: BlockId, else_bb: BlockId },
    Switch { scrutinee: Operand, targets: Vec<(i128, BlockId)>, default: BlockId },
    Return { value: Operand },
    Trap { reason: TrapReason },
    Unreachable,
}

/// A basic block; `lines` says the source line of each statement, where it has one.
#[derive(Debug)]
pub struct Block {
    pub stmts: Vec<Statement>,
    pub term: Terminator,
    pub lines: Vec<u32>,
}

impl Block {
    /// The source line of the `i`-th statement; 0 where there is none.
    pub open spec fn line(self, i: int) -> u32 {
        if 0 <= i < self.lines@.len() {
            self.lines@[i]
        } else {
            0
        }
    }

    /// The source line of the `i`-th statement; 0 where there is none.
    pub fn line_of(&self, i: usize) -> (r: u32)
        ensures
            r == self.line(i as int),
    {
        if i < self.lines.len() {
            self.lines[i]
        } else {
            0
        }
    }
}

/// A local.
#[derive(Clone, Copy, PartialEq, Eq, Structural, Debug)]
pub struct LocalDecl {
    pub ty: TypeId,
}

/// How a function is visible to C.
#[derive(Debug)]
pub enum Linkage {
    /// Not at all.
    Internal,
    /// Defined elsewhere, under this symbol.
    ExternC(String),
    /// Defined here, under this symbol.
    ExportC(String),
}

/// A function.
#[derive(Debug)]
pub struct MirFunction {
    /// The position in the function list.
    pub id: FnId,
    /// The name in the source.
    pub name: String,
    /// The source line of the definition.
    pub line: u32,
    /// Whether only a declaration of a function defined elsewhere.
    pub is_extern_decl: bool,
    /// How C sees it.
    pub linkage: Linkage,
    pub params: Vec<LocalId>,
    pub locals: Vec<LocalDecl>,
    pub blocks: Vec<Block>,
    pub ret: TypeId,
    pub abi: FnAbi,
    pub varargs: bool,
}

/// Whether the names of the errors are in ascending order of their tags, each tag once.
pub open spec fn tags_ascend(names: Seq<(ErrTag, String)>) -> bool {
    forall|i: int, j: int|
        0 <= i < j < names.len() ==> (#[trigger] names[i]).0.0 < (#[trigger] names[j]).0.0
}

/// A program; `err_names` is in ascending order of the tags: see [`tags_ascend`].
pub struct MirProgram {
    pub arena: TypeArena,
    pub funcs: Vec<MirFunction>,
    pub consts: Vec<ConstData>,
    pub err_names: Vec<(ErrTag, String)>,
    pub mode: BuildMode,
    /// The declared entry points.
    pub entries: Vec<FnId>,
}

impl LocalId {
    /// The local's position.
    pub fn index(self) -> (r: usize)
        ensures
            r == self.0,
    {
        self.0 as usize
    }
}

impl Place {
    /// Whether the place is a whole local.
    pub open spec fn whole(&self) -> bool {
        self.proj@.len() == 0
    }

    /// Whether the place is a whole local.
    pub fn is_local(&self) -> (r: bool)
        ensures
            r == self.whole(),
    {
        self.proj.len() == 0
    }
}

} // verus!
