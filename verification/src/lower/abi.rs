//! How values are passed: classes of types, and the stack that calls need.
use vstd::prelude::*;

use crate::frame::{in_memory, is_memory_aggregate};
use crate::layout::{Layout, layout_of, layout_or_word, max, up};
use crate::lower::env::{ArgClass, Scope, ScopeRef, arena_ok, signature_ok};
use crate::lower::scalar::{plus, sum32};
use crate::mir::{Const, FnAbi, LocalId, MirFunction, MirProgram, Operand, Rvalue, Statement};
use crate::mir_ids::FnId;
use crate::reg::{ARG_REG_COUNT, SSE_ARG_REG_COUNT};
use crate::text::same_str;
use crate::types::{FieldInfo, Type, TypeArena, TypeId};

verus! {

/// Whether a float is found within a type, at most `fuel` steps in.
pub open spec fn holds_float(arena: TypeArena, ty: TypeId, fuel: nat) -> bool
    decreases fuel, 1int, 0int,
{
    match arena.at(ty) {
        Type::Float { .. } => true,
        Type::Struct(id) => fuel > 0 && any_holds_float(
            arena,
            arena.structs@[id.0 as int].fields@,
            arena.structs@[id.0 as int].fields@.len() as int,
            (fuel - 1) as nat,
        ),
        Type::Array { elem, .. } => fuel > 0 && holds_float(arena, elem, (fuel - 1) as nat),
        Type::Optional(inner) => fuel > 0 && holds_float(arena, inner, (fuel - 1) as nat),
        Type::ErrorUnion { ok } => fuel > 0 && holds_float(arena, ok, (fuel - 1) as nat),
        _ => false,
    }
}

/// Whether a float is found within one of the first `n` fields.
pub open spec fn any_holds_float(
    arena: TypeArena,
    fields: Seq<FieldInfo>,
    n: int,
    fuel: nat,
) -> bool
    decreases fuel, 2int, n,
{
    if n <= 0 {
        false
    } else {
        any_holds_float(arena, fields, n - 1, fuel) || holds_float(arena, fields[n - 1].ty, fuel)
    }
}

fn aggregate_has_float(arena: &TypeArena, ty: TypeId, fuel: usize) -> (r: bool)
    requires
        arena.wf(),
        arena.has(ty),
    ensures
        r == holds_float(*arena, ty, fuel as nat),
    decreases fuel,
{
    assert(arena.type_ok(arena.types@[ty.0 as int]));
    match *arena.get(ty) {
        Type::Float { .. } => true,
        Type::Struct(id) => {
            if fuel == 0 {
                return false;
            }
            let fields = &arena.structs[id.0 as usize].fields;
            let mut found: bool = false;
            let mut i: usize = 0;
            while i < fields.len()
                invariant
                    arena.wf(),
                    fuel > 0,
                    id.0 < arena.structs@.len(),
                    fields@ == arena.structs@[id.0 as int].fields@,
                    i <= fields@.len(),
                    found == any_holds_float(*arena, fields@, i as int, (fuel - 1) as nat),
                decreases fields@.len() - i,
            {
                assert(arena.has(arena.structs@[id.0 as int].fields@[i as int].ty));
                if aggregate_has_float(arena, fields[i].ty, fuel - 1) {
                    found = true;
                }
                i = i + 1;
            }
            found
        },
        Type::Array { elem, .. } => fuel > 0 && aggregate_has_float(arena, elem, fuel - 1),
        Type::Optional(inner) => fuel > 0 && aggregate_has_float(arena, inner, fuel - 1),
        Type::ErrorUnion { ok } => fuel > 0 && aggregate_has_float(arena, ok, fuel - 1),
        _ => false,
    }
}

/// How a value of a type is passed: a float in an SSE register; a scalar, an empty
/// aggregate and one of up to a word in an integer register; one of up to two words
/// in two; a larger one, or one that holds a float, in memory.
pub open spec fn class_of(prog: MirProgram, ty: TypeId) -> ArgClass {
    let size = layout_or_word(prog.arena, ty).size;
    if prog.arena.at(ty) is Float || prog.arena.at(ty) is ComptimeFloat {
        ArgClass::Sse
    } else if !in_memory(prog.arena, ty) || size == 0 {
        ArgClass::OneInt
    } else if size > 16 || holds_float(prog.arena, ty, prog.arena.types@.len()) {
        ArgClass::Memory { size }
    } else if size > 8 {
        ArgClass::TwoInt
    } else {
        ArgClass::OneInt
    }
}

/// How a value of a type is passed.
pub fn classify(prog: &MirProgram, ty: TypeId) -> (r: ArgClass)
    requires
        arena_ok(prog.arena),
        prog.arena.has(ty),
    ensures
        r == class_of(*prog, ty),
{
    match *prog.arena.get(ty) {
        Type::Float { .. } => {
            return ArgClass::Sse;
        },
        Type::ComptimeFloat => {
            return ArgClass::Sse;
        },
        _ => {},
    }
    if !is_memory_aggregate(&prog.arena, ty) {
        return ArgClass::OneInt;
    }
    let size: u64 = match layout_of(&prog.arena, ty) {
        Some(l) => l.size,
        None => Layout::WORD().size,
    };
    if size == 0 {
        return ArgClass::OneInt;
    }
    if size > 16 || aggregate_has_float(&prog.arena, ty, prog.arena.types.len()) {
        return ArgClass::Memory { size };
    }
    if size > 8 {
        ArgClass::TwoInt
    } else {
        ArgClass::OneInt
    }
}

/// `x` rounded up to a multiple of `a`, modulo the word size.
pub open spec fn rounded32(x: i32, a: i32) -> i32 {
    let y = sum32(x, (a - 1) as i32);
    (y - (y as int) % (a as int)) as i32
}

/// `x` rounded up to a multiple of `a`, a power of two; a result that does not fit
/// wraps.
pub fn round_up_i32(x: i32, a: i32) -> (r: i32)
    requires
        a == 8 || a == 16,
    ensures
        r == rounded32(x, a),
{
    let y: i32 = plus(x, a - 1);
    let m: i64 = (y as i64 + 0x8000_0000) % (a as i64);
    assert(m == (y as int) % (a as int));
    (y as i64 - m) as i32
}

/// Whether a value is a call of a print intrinsic.
pub open spec fn prints(rv: Rvalue) -> bool {
    match rv {
        Rvalue::Intrinsic { path, .. } => path.members@.len() > 0 && path.members@.last()@ == "print"@,
        _ => false,
    }
}

fn is_print_rvalue(rv: &Rvalue) -> (r: bool)
    ensures
        r == prints(*rv),
{
    match rv {
        Rvalue::Intrinsic { path, .. } => {
            let n: usize = path.members.len();
            n > 0 && same_str(path.members[n - 1].as_str(), "print")
        },
        _ => false,
    }
}

/// What a statement computes.
pub open spec fn computed(st: Statement) -> Option<Rvalue> {
    match st {
        Statement::Assign { rvalue, .. } => Some(rvalue),
        Statement::Eval { rvalue } => Some(rvalue),
        _ => None,
    }
}

/// Whether a statement prints.
pub open spec fn stmt_prints(st: Statement) -> bool {
    match computed(st) {
        Some(rv) => prints(rv),
        None => false,
    }
}

/// Whether a function prints.
pub open spec fn prints_somewhere(f: MirFunction) -> bool {
    exists|i: int, k: int|
        #![trigger f.blocks@[i].stmts@[k]]
        0 <= i < f.blocks@.len() && 0 <= k < f.blocks@[i].stmts@.len() && stmt_prints(
            f.blocks@[i].stmts@[k],
        )
}

/// Whether a function prints.
pub fn func_prints(func: &MirFunction) -> (r: bool)
    ensures
        r == prints_somewhere(*func),
{
    let mut i: usize = 0;
    while i < func.blocks.len()
        invariant
            i <= func.blocks@.len(),
            forall|b: int, k: int|
                #![trigger func.blocks@[b].stmts@[k]]
                0 <= b < i && 0 <= k < func.blocks@[b].stmts@.len() ==> !stmt_prints(
                    func.blocks@[b].stmts@[k],
                ),
        decreases func.blocks@.len() - i,
    {
        let stmts = &func.blocks[i].stmts;
        let mut j: usize = 0;
        while j < stmts.len()
            invariant
                i < func.blocks@.len(),
                stmts@ == func.blocks@[i as int].stmts@,
                j <= stmts@.len(),
                forall|k: int| 0 <= k < j ==> !stmt_prints(#[trigger] stmts@[k]),
            decreases stmts@.len() - j,
        {
            let hit: bool = match &stmts[j] {
                Statement::Assign { rvalue, .. } => is_print_rvalue(rvalue),
                Statement::Eval { rvalue } => is_print_rvalue(rvalue),
                _ => false,
            };
            if hit {
                assert(stmt_prints(func.blocks@[i as int].stmts@[j as int]));
                return true;
            }
            j = j + 1;
        }
        i = i + 1;
    }
    false
}

/// How much of the registers and the stack the arguments so far have taken.
#[derive(Clone, Copy, PartialEq, Eq, Structural, Debug)]
pub struct ArgCursor {
    /// Integer registers.
    pub ints: usize,
    /// SSE registers.
    pub sses: usize,
    /// Where the next argument on the stack goes.
    pub stack: i32,
}

/// Whether an operand is a string or an empty slice.
pub open spec fn is_slice_literal(op: Operand) -> bool {
    match op {
        Operand::Copy(_) => false,
        Operand::Const(c) => c is Str || c is EmptySlice,
    }
}

/// Whether an operand is a string or an empty slice.
pub fn slice_literal(op: &Operand) -> (r: bool)
    ensures
        r == is_slice_literal(*op),
{
    match op {
        Operand::Copy(_) => false,
        Operand::Const(c) => match *c {
            Const::Str(_) => true,
            Const::EmptySlice { .. } => true,
            _ => false,
        },
    }
}

/// Where an argument is passed.
#[derive(Clone, Copy, PartialEq, Eq, Structural, Debug)]
pub enum Passed {
    /// In an integer register.
    Int(usize),
    /// In an SSE register.
    Sse(usize),
    /// On the stack.
    Stack(i32),
    /// Its bytes in an integer register and the next.
    MemInt(usize, u64),
    /// Its bytes on the stack.
    MemStack(i32, u64),
}

impl Scope {
    /// Whether a parameter of `callee` takes a pointer; an argument of a C function
    /// beyond the declared parameters does.
    pub open spec fn callee_param_is_ptr(self, callee: FnId, i: usize) -> bool {
        let f = self.prog.funcs@[callee.0 as int];
        if i < f.params@.len() {
            self.prog.arena.at(f.locals@[f.params@[i as int].0 as int].ty) is Pointer
        } else {
            f.varargs && f.abi == FnAbi::C
        }
    }

    /// Whether an argument is a string that is passed as a C string.
    pub open spec fn as_c_string(self, callee: FnId, arg: Operand, i: usize) -> bool {
        is_slice_literal(arg) && self.callee_param_is_ptr(callee, i)
    }

    /// The type of an operand, that of the result standing in.
    pub open spec fn type_or_ret(self, arg: Operand) -> TypeId {
        match self.operand_type(arg) {
            Some(t) => t,
            None => self.func.ret,
        }
    }

    /// How an argument is passed; one without a type of its own by that of the first
    /// local.
    pub open spec fn arg_class(self, arg: Operand) -> ArgClass {
        if is_slice_literal(arg) {
            ArgClass::TwoInt
        } else {
            match self.operand_type(arg) {
                Some(t) => class_of(self.prog, t),
                None => if self.func.locals@.len() > 0 {
                    class_of(self.prog, self.local_ty(LocalId(0)))
                } else {
                    class_of(self.prog, self.func.ret)
                },
            }
        }
    }

    /// The size of an argument of two words.
    pub open spec fn pair_size(self, arg: Operand) -> u64 {
        if is_slice_literal(arg) {
            16
        } else {
            layout_or_word(self.prog.arena, self.type_or_ret(arg)).size
        }
    }

    /// Where an argument is passed.
    pub open spec fn arg_spot(self, callee: FnId, arg: Operand, i: usize, c: ArgCursor) -> Passed {
        if self.as_c_string(callee, arg, i) {
            if c.ints < ARG_REG_COUNT {
                Passed::Int(c.ints)
            } else {
                Passed::Stack(c.stack)
            }
        } else {
            match self.arg_class(arg) {
                ArgClass::Sse => if c.sses < SSE_ARG_REG_COUNT {
                    Passed::Sse(c.sses)
                } else {
                    Passed::Stack(c.stack)
                },
                ArgClass::OneInt => if c.ints < ARG_REG_COUNT {
                    Passed::Int(c.ints)
                } else {
                    Passed::Stack(c.stack)
                },
                ArgClass::TwoInt => if c.ints < ARG_REG_COUNT - 1 {
                    Passed::MemInt(c.ints, self.pair_size(arg))
                } else {
                    Passed::MemStack(c.stack, self.pair_size(arg))
                },
                ArgClass::Memory { size } => Passed::MemStack(c.stack, size),
            }
        }
    }

    /// Registers and stack after an argument.
    pub open spec fn arg_next(
        self,
        callee: FnId,
        arg: Operand,
        i: usize,
        c: ArgCursor,
    ) -> ArgCursor {
        after_spot(self.arg_spot(callee, arg, i, c), c)
    }

    /// Registers and stack after the arguments from the `i`-th on.
    pub open spec fn args_end(
        self,
        callee: FnId,
        args: Seq<Operand>,
        i: int,
        c: ArgCursor,
    ) -> ArgCursor
        decreases args.len() - i,
    {
        if i < 0 || i >= args.len() {
            c
        } else {
            self.args_end(callee, args, i + 1, self.arg_next(callee, args[i], i as usize, c))
        }
    }

    /// Registers and stack before the `n`-th argument.
    pub open spec fn arg_cursor(
        self,
        callee: FnId,
        args: Seq<Operand>,
        hidden: bool,
        n: int,
    ) -> ArgCursor
        decreases n,
    {
        if n <= 0 {
            first_arg(hidden)
        } else {
            self.arg_next(
                callee,
                args[n - 1],
                (n - 1) as usize,
                self.arg_cursor(callee, args, hidden, n - 1),
            )
        }
    }

    /// The stack bytes that the first `n` arguments of a call take.
    pub open spec fn args_room(self, callee: FnId, args: Seq<Operand>, hidden: bool, n: int) -> int
        decreases n,
    {
        if n <= 0 {
            0
        } else {
            self.args_room(callee, args, hidden, n - 1) + spot_bytes(
                self.arg_spot(
                    callee,
                    args[n - 1],
                    (n - 1) as usize,
                    self.arg_cursor(callee, args, hidden, n - 1),
                ),
            )
        }
    }

    /// The most stack bytes that a call takes, with or without a hidden result pointer
    /// where its result is passed in memory.
    pub open spec fn call_room(self, callee: FnId, args: Seq<Operand>, ty: TypeId) -> int {
        let n = args.len() as int;
        if class_of(self.prog, ty) is Memory {
            max(
                self.args_room(callee, args, false, n),
                self.args_room(callee, args, true, n),
            )
        } else {
            self.args_room(callee, args, false, n)
        }
    }

    /// The stack bytes that a statement takes.
    pub open spec fn stmt_room(self, st: Statement) -> int {
        match computed(st) {
            Some(Rvalue::Call { func, args, ty }) => self.call_room(func, args@, ty),
            _ => 0,
        }
    }

    /// The most stack bytes that one of the first `n` statements takes.
    pub open spec fn stmts_room(self, stmts: Seq<Statement>, n: int) -> int
        decreases n,
    {
        if n <= 0 {
            0
        } else {
            max(self.stmts_room(stmts, n - 1), self.stmt_room(stmts[n - 1]))
        }
    }

    /// The most stack bytes that a statement of one of the first `n` blocks takes.
    pub open spec fn blocks_room(self, n: int) -> int
        decreases n,
    {
        if n <= 0 {
            0
        } else {
            let stmts = self.func.blocks@[n - 1].stmts@;
            max(self.blocks_room(n - 1), self.stmts_room(stmts, stmts.len() as int))
        }
    }
}

/// Registers and stack before the first argument; a hidden result pointer takes a
/// register.
pub open spec fn first_arg(hidden: bool) -> ArgCursor {
    ArgCursor {
        ints: if hidden {
            1
        } else {
            0
        },
        sses: 0,
        stack: 0,
    }
}

/// Registers and stack behind an argument that is passed in `spot`.
pub open spec fn after_spot(spot: Passed, c: ArgCursor) -> ArgCursor {
    match spot {
        Passed::Int(n) => ArgCursor { ints: (n + 1) as usize, ..c },
        Passed::Sse(n) => ArgCursor { sses: (n + 1) as usize, ..c },
        Passed::Stack(at) => ArgCursor { stack: sum32(at, 8), ..c },
        Passed::MemInt(n, _) => ArgCursor { ints: (n + 2) as usize, ..c },
        Passed::MemStack(at, size) => ArgCursor {
            stack: sum32(at, rounded32(size as i32, 8)),
            ..c
        },
    }
}

/// The stack bytes that an argument takes, in whole words.
pub open spec fn spot_bytes(spot: Passed) -> int {
    match spot {
        Passed::Stack(_) => 8,
        Passed::MemStack(_, size) => up(size as int, 8),
        _ => 0,
    }
}

/// The bytes that a function sets aside for outgoing arguments: the most that a call
/// takes, 128 at least where it prints, in whole 16s; all there are where that is more.
pub open spec fn outgoing_bytes(prog: MirProgram, func: MirFunction) -> i32 {
    let calls = (Scope { prog, func }).blocks_room(func.blocks@.len() as int);
    let room = up(
        if prints_somewhere(func) {
            max(calls, 128)
        } else {
            calls
        },
        16,
    );
    if room <= i32::MAX {
        room as i32
    } else {
        i32::MAX
    }
}

impl ScopeRef<'_> {
    fn callee_param_is_ptr(&self, callee: FnId, i: usize) -> (r: bool)
        requires
            self.scope().parts_ok(),
            callee.0 < self.prog.funcs@.len(),
        ensures
            r == self.scope().callee_param_is_ptr(callee, i),
    {
        let f = &self.prog.funcs[callee.0 as usize];
        assert(signature_ok(self.prog.arena, self.prog.funcs@[callee.0 as int]));
        if i < f.params.len() {
            assert(f.params@[i as int].0 < f.locals@.len());
            assert(self.prog.arena.has(f.locals@[f.params@[i as int].0 as int].ty));
            match *self.prog.arena.get(f.locals[f.params[i].0 as usize].ty) {
                Type::Pointer { .. } => true,
                _ => false,
            }
        } else {
            f.varargs && f.abi == FnAbi::C
        }
    }

    pub(crate) fn as_c_string(&self, callee: FnId, arg: &Operand, i: usize) -> (r: bool)
        requires
            self.scope().parts_ok(),
            callee.0 < self.prog.funcs@.len(),
        ensures
            r == self.scope().as_c_string(callee, *arg, i),
    {
        slice_literal(arg) && self.callee_param_is_ptr(callee, i)
    }

    pub(crate) fn type_or_ret(&self, arg: &Operand) -> (r: TypeId)
        requires
            self.scope().parts_ok(),
            self.scope().operand_ok(*arg),
        ensures
            r == self.scope().type_or_ret(*arg),
            self.prog.arena.has(r),
    {
        match self.operand_type(arg) {
            Some(t) => t,
            None => self.func.ret,
        }
    }

    fn arg_class(&self, arg: &Operand) -> (r: ArgClass)
        requires
            self.scope().parts_ok(),
            self.scope().operand_ok(*arg),
        ensures
            r == self.scope().arg_class(*arg),
    {
        if slice_literal(arg) {
            return ArgClass::TwoInt;
        }
        let ty: TypeId = match self.operand_type(arg) {
            Some(t) => t,
            None => if self.func.locals.len() > 0 {
                self.local_ty(LocalId(0))
            } else {
                self.func.ret
            },
        };
        classify(self.prog, ty)
    }

    fn pair_size(&self, arg: &Operand) -> (r: u64)
        requires
            self.scope().parts_ok(),
            self.scope().operand_ok(*arg),
        ensures
            r == self.scope().pair_size(*arg),
    {
        if slice_literal(arg) {
            return 16;
        }
        match layout_of(&self.prog.arena, self.type_or_ret(arg)) {
            Some(l) => l.size,
            None => Layout::WORD().size,
        }
    }

    pub(crate) fn arg_spot(
        &self,
        callee: FnId,
        arg: &Operand,
        i: usize,
        c: ArgCursor,
    ) -> (r: Passed)
        requires
            self.scope().parts_ok(),
            callee.0 < self.prog.funcs@.len(),
            self.scope().operand_ok(*arg),
        ensures
            r == self.scope().arg_spot(callee, *arg, i, c),
            match r {
                Passed::Int(n) => n < ARG_REG_COUNT,
                Passed::Sse(n) => n < SSE_ARG_REG_COUNT,
                Passed::MemInt(n, _) => n + 1 < ARG_REG_COUNT,
                _ => true,
            },
    {
        if self.as_c_string(callee, arg, i) {
            return if c.ints < ARG_REG_COUNT {
                Passed::Int(c.ints)
            } else {
                Passed::Stack(c.stack)
            };
        }
        match self.arg_class(arg) {
            ArgClass::Sse => if c.sses < SSE_ARG_REG_COUNT {
                Passed::Sse(c.sses)
            } else {
                Passed::Stack(c.stack)
            },
            ArgClass::OneInt => if c.ints < ARG_REG_COUNT {
                Passed::Int(c.ints)
            } else {
                Passed::Stack(c.stack)
            },
            ArgClass::TwoInt => if c.ints < ARG_REG_COUNT - 1 {
                Passed::MemInt(c.ints, self.pair_size(arg))
            } else {
                Passed::MemStack(c.stack, self.pair_size(arg))
            },
            ArgClass::Memory { size } => Passed::MemStack(c.stack, size),
        }
    }

    pub(crate) fn arg_next(&self, callee: FnId, arg: &Operand, i: usize, c: ArgCursor) -> (r:
        ArgCursor)
        requires
            self.scope().parts_ok(),
            callee.0 < self.prog.funcs@.len(),
            self.scope().operand_ok(*arg),
        ensures
            r == self.scope().arg_next(callee, *arg, i, c),
    {
        behind_spot(self.arg_spot(callee, arg, i, c), c)
    }

    /// The stack bytes that a call takes, as far as they matter.
    fn args_stack(&self, callee: FnId, args: &Vec<Operand>, hidden: bool) -> (r: u64)
        requires
            self.scope().parts_ok(),
            callee.0 < self.prog.funcs@.len(),
            self.scope().operands_ok(args@),
        ensures
            r == capped(self.scope().args_room(callee, args@, hidden, args@.len() as int)),
            0 <= self.scope().args_room(callee, args@, hidden, args@.len() as int),
    {
        let mut c: ArgCursor = start_args(hidden);
        let mut room: u64 = 0;
        let mut i: usize = 0;
        while i < args.len()
            invariant
                self.scope().parts_ok(),
                callee.0 < self.prog.funcs@.len(),
                self.scope().operands_ok(args@),
                i <= args@.len(),
                c == self.scope().arg_cursor(callee, args@, hidden, i as int),
                0 <= self.scope().args_room(callee, args@, hidden, i as int),
                room == capped(self.scope().args_room(callee, args@, hidden, i as int)),
            decreases args@.len() - i,
        {
            assert(self.scope().operand_ok(args@[i as int]));
            let spot: Passed = self.arg_spot(callee, &args[i], i, c);
            let bytes: u64 = match spot {
                Passed::Stack(_) => 8,
                Passed::MemStack(_, size) => if size > ROOM_CAP {
                    ROOM_CAP
                } else {
                    (size + 7) / 8 * 8
                },
                _ => 0,
            };
            let sum: u64 = room + bytes;
            room = if sum > ROOM_CAP {
                ROOM_CAP
            } else {
                sum
            };
            c = self.arg_next(callee, &args[i], i, c);
            i = i + 1;
        }
        room
    }

    fn rvalue_stack(&self, rv: &Rvalue) -> (r: u64)
        requires
            self.scope().parts_ok(),
            self.scope().rvalue_ok(*rv),
        ensures
            r == capped(self.scope().stmt_room(Statement::Eval { rvalue: *rv })),
            0 <= self.scope().stmt_room(Statement::Eval { rvalue: *rv }),
    {
        match rv {
            Rvalue::Call { func, args, ty } => {
                let plain: u64 = self.args_stack(*func, args, false);
                match classify(self.prog, *ty) {
                    ArgClass::Memory { .. } => {
                        let with: u64 = self.args_stack(*func, args, true);
                        if with > plain {
                            with
                        } else {
                            plain
                        }
                    },
                    _ => plain,
                }
            },
            _ => 0,
        }
    }
}

/// More stack than a frame can hold.
pub const ROOM_CAP: u64 = 0x1_0000_0000;

/// `n`, as far as a frame can hold it.
pub open spec fn capped(n: int) -> u64 {
    if n > ROOM_CAP {
        ROOM_CAP
    } else {
        n as u64
    }
}

/// Registers and stack before the first argument.
pub(crate) fn start_args(hidden: bool) -> (r: ArgCursor)
    ensures
        r == first_arg(hidden),
{
    ArgCursor {
        ints: if hidden {
            1
        } else {
            0
        },
        sses: 0,
        stack: 0,
    }
}

fn behind_spot(spot: Passed, c: ArgCursor) -> (r: ArgCursor)
    requires
        match spot {
            Passed::Int(n) => n < ARG_REG_COUNT,
            Passed::Sse(n) => n < SSE_ARG_REG_COUNT,
            Passed::MemInt(n, _) => n + 1 < ARG_REG_COUNT,
            _ => true,
        },
    ensures
        r == after_spot(spot, c),
{
    match spot {
        Passed::Int(n) => ArgCursor { ints: n + 1, ..c },
        Passed::Sse(n) => ArgCursor { sses: n + 1, ..c },
        Passed::Stack(at) => ArgCursor { stack: plus(at, 8), ..c },
        Passed::MemInt(n, _) => ArgCursor { ints: n + 2, ..c },
        Passed::MemStack(at, size) => ArgCursor {
            stack: plus(at, round_up_i32(size as i32, 8)),
            ..c
        },
    }
}

/// The bytes that a function sets aside for outgoing arguments.
pub fn outgoing_args_bytes(prog: &MirProgram, func: &MirFunction) -> (r: i32)
    requires
        (Scope { prog: *prog, func: *func }).parts_ok(),
        (Scope { prog: *prog, func: *func }).blocks_ok(),
    ensures
        r == outgoing_bytes(*prog, *func),
{
    let this = ScopeRef { prog, func };
    let ghost scope = this.scope();
    let mut total: u64 = 0;
    let mut i: usize = 0;
    while i < func.blocks.len()
        invariant
            this.prog == prog,
            this.func == func,
            scope == this.scope(),
            scope.parts_ok(),
            scope.blocks_ok(),
            i <= func.blocks@.len(),
            0 <= scope.blocks_room(i as int),
            total == capped(scope.blocks_room(i as int)),
        decreases func.blocks@.len() - i,
    {
        assert(scope.block_ok(func.blocks@[i as int]));
        let stmts = &func.blocks[i].stmts;
        let mut here: u64 = 0;
        let mut j: usize = 0;
        while j < stmts.len()
            invariant
                scope == this.scope(),
                scope.parts_ok(),
                forall|k: int| 0 <= k < stmts@.len() ==> scope.stmt_ok(#[trigger] stmts@[k]),
                j <= stmts@.len(),
                0 <= scope.stmts_room(stmts@, j as int),
                here == capped(scope.stmts_room(stmts@, j as int)),
            decreases stmts@.len() - j,
        {
            assert(scope.stmt_ok(stmts@[j as int]));
            let bytes: u64 = match &stmts[j] {
                Statement::Assign { rvalue, .. } => this.rvalue_stack(rvalue),
                Statement::Eval { rvalue } => this.rvalue_stack(rvalue),
                _ => 0,
            };
            if bytes > here {
                here = bytes;
            }
            j = j + 1;
        }
        if here > total {
            total = here;
        }
        i = i + 1;
    }
    if func_prints(func) && total < 128 {
        total = 128;
    }
    let room: u64 = (total + 15) / 16 * 16;
    if room <= 0x7FFF_FFFF {
        room as i32
    } else {
        0x7FFF_FFFF
    }
}

// ---------------------------------------------------------------------------
//  Laws
// ---------------------------------------------------------------------------

proof fn room_adds_up(scope: Scope, callee: FnId, args: Seq<Operand>, hidden: bool, i: int, n: int)
    requires
        0 <= i <= n <= args.len(),
    ensures
        0 <= scope.args_room(callee, args, hidden, i) <= scope.args_room(callee, args, hidden, n),
    decreases n,
{
    if n > 0 {
        if i < n {
            room_adds_up(scope, callee, args, hidden, i, n - 1);
        } else {
            room_adds_up(scope, callee, args, hidden, n - 1, n - 1);
        }
    }
}

/// As long as the arguments fit a displacement, each on the stack stands behind those
/// before it.
proof fn cursor_is_room(scope: Scope, callee: FnId, args: Seq<Operand>, hidden: bool, n: int)
    requires
        0 <= n <= args.len(),
        scope.args_room(callee, args, hidden, n) <= i32::MAX,
    ensures
        scope.arg_cursor(callee, args, hidden, n).stack == scope.args_room(
            callee,
            args,
            hidden,
            n,
        ),
    decreases n,
{
    if n > 0 {
        room_adds_up(scope, callee, args, hidden, n - 1, n);
        cursor_is_room(scope, callee, args, hidden, n - 1);
        let c = scope.arg_cursor(callee, args, hidden, n - 1);
        let spot = scope.arg_spot(callee, args[n - 1], (n - 1) as usize, c);
        match spot {
            Passed::MemStack(at, size) => {
                assert(size <= up(size as int, 8) <= i32::MAX);
                assert(size as i32 == size);
                assert(rounded32(size as i32, 8) == up(size as int, 8));
            },
            _ => {},
        }
    }
}

proof fn stmt_in_room(scope: Scope, stmts: Seq<Statement>, k: int, n: int)
    requires
        0 <= k < n <= stmts.len(),
    ensures
        scope.stmt_room(stmts[k]) <= scope.stmts_room(stmts, n),
    decreases n,
{
    if k < n - 1 {
        stmt_in_room(scope, stmts, k, n - 1);
    }
}

proof fn block_in_room(scope: Scope, b: int, n: int)
    requires
        0 <= b < n <= scope.func.blocks@.len(),
    ensures
        scope.stmts_room(
            scope.func.blocks@[b].stmts@,
            scope.func.blocks@[b].stmts@.len() as int,
        ) <= scope.blocks_room(n),
    decreases n,
{
    if b < n - 1 {
        block_in_room(scope, b, n - 1);
    }
}

/// Every argument that a call passes on the stack lies within the bytes that the
/// function sets aside, as long as a displacement can reach them.
pub proof fn stack_arguments_fit(
    prog: MirProgram,
    func: MirFunction,
    b: int,
    k: int,
    callee: FnId,
    args: Vec<Operand>,
    ty: TypeId,
    hidden: bool,
    i: int,
)
    requires
        outgoing_bytes(prog, func) < i32::MAX,
        0 <= b < func.blocks@.len(),
        0 <= k < func.blocks@[b].stmts@.len(),
        computed(func.blocks@[b].stmts@[k]) == Some(Rvalue::Call { func: callee, args, ty }),
        hidden ==> class_of(prog, ty) is Memory,
        0 <= i < args@.len(),
    ensures
        ({
            let scope = Scope { prog, func };
            let c = scope.arg_cursor(callee, args@, hidden, i);
            match scope.arg_spot(callee, args@[i], i as usize, c) {
                Passed::Stack(at) => 0 <= at && at + 8 <= outgoing_bytes(prog, func),
                Passed::MemStack(at, size) => 0 <= at && at + size <= outgoing_bytes(prog, func),
                _ => true,
            }
        }),
{
    let scope = Scope { prog, func };
    let n = args@.len() as int;
    stmt_in_room(
        scope,
        func.blocks@[b].stmts@,
        k,
        func.blocks@[b].stmts@.len() as int,
    );
    block_in_room(scope, b, func.blocks@.len() as int);
    room_adds_up(scope, callee, args@, hidden, i, i + 1);
    room_adds_up(scope, callee, args@, hidden, i + 1, n);
    assert(scope.args_room(callee, args@, hidden, n) <= outgoing_bytes(prog, func));
    cursor_is_room(scope, callee, args@, hidden, i);
    room_adds_up(scope, callee, args@, hidden, 0, i);
}

} // verus!
