//! The stack frame of a function.
//!
//! Below the frame pointer stand, from the top down: the homes of the locals
//! that live in memory, the save slots of the callee-saved registers, the slot of
//! the hidden result pointer, the print buffer, and the outgoing arguments.
use vstd::prelude::*;

use crate::layout::{
    Layout, alignment_facts, is_pow2, layout, layout_of, layout_or_word, max, measurable, round_up,
    up, up_facts,
};
use crate::mir::{LocalDecl, MirFunction};
use crate::reg::Gpr;
use crate::types::{Type, TypeArena, TypeId};

verus! {

/// The size of the print buffer.
pub const PRINT_BUF_SIZE: i32 = 8192;

/// The plan of a frame; all offsets are relative to the frame pointer.
pub struct FramePlan {
    /// The home of each local that has one.
    pub local_home: Vec<Option<i32>>,
    /// The print buffer.
    pub print_buf: Option<i32>,
    /// The slot of the hidden result pointer.
    pub ret_ptr_slot: Option<i32>,
    /// The save slots of the callee-saved registers.
    pub callee_saved_slots: Vec<(Gpr, i32)>,
    /// The size of the frame: a multiple of 16.
    pub frame_size: i32,
}

/// What a [`FramePlan`] holds.
pub struct PlanView {
    pub local_home: Seq<Option<i32>>,
    pub print_buf: Option<i32>,
    pub ret_ptr_slot: Option<i32>,
    pub callee_saved_slots: Seq<(Gpr, i32)>,
    pub frame_size: i32,
}

impl View for FramePlan {
    type V = PlanView;

    open spec fn view(&self) -> PlanView {
        PlanView {
            local_home: self.local_home@,
            print_buf: self.print_buf,
            ret_ptr_slot: self.ret_ptr_slot,
            callee_saved_slots: self.callee_saved_slots@,
            frame_size: self.frame_size,
        }
    }
}

impl FramePlan {
    /// The offset of the outgoing arguments from the stack pointer.
    pub fn outgoing_args_base(&self) -> (r: i32)
        ensures
            r == 0,
    {
        0
    }
}

/// Whether a type lives in memory: all aggregates but the optional pointer.
pub open spec fn in_memory(arena: TypeArena, ty: TypeId) -> bool {
    match arena.at(ty) {
        Type::Struct(_) => true,
        Type::Array { .. } => true,
        Type::Slice { .. } => true,
        Type::ErrorUnion { .. } => true,
        Type::Vector { .. } => true,
        Type::Optional(inner) => !(arena.at(inner) is Pointer),
        _ => false,
    }
}

/// Whether a type lives in memory: all aggregates but the optional pointer.
pub fn is_memory_aggregate(arena: &TypeArena, ty: TypeId) -> (r: bool)
    requires
        arena.wf(),
        arena.has(ty),
    ensures
        r == in_memory(*arena, ty),
{
    assert(arena.type_ok(arena.types@[ty.0 as int]));
    match *arena.get(ty) {
        Type::Struct(_) => true,
        Type::Array { .. } => true,
        Type::Slice { .. } => true,
        Type::ErrorUnion { .. } => true,
        Type::Vector { .. } => true,
        Type::Optional(inner) => match *arena.get(inner) {
            Type::Pointer { .. } => false,
            _ => true,
        },
        _ => false,
    }
}

/// The home of an aggregate: never less than a word, which parameter passing
/// stores whole.
pub open spec fn padded_home(l: Layout) -> Layout {
    Layout {
        size: if l.size >= 8 {
            l.size
        } else {
            8
        },
        align: l.align,
    }
}

/// The home of a value of a type: an aggregate's own layout, that of an integer
/// of more than a word, else a word.
pub open spec fn type_home(arena: TypeArena, ty: TypeId) -> Layout {
    if in_memory(arena, ty) {
        padded_home(layout_or_word(arena, ty))
    } else {
        match layout(arena, ty) {
            Some(l) => if l.size > 8 {
                l
            } else {
                Layout::word()
            },
            None => Layout::word(),
        }
    }
}

/// The home of a local: none for a scalar that needs none; an explicit size and
/// alignment before an explicit type before its own.
pub open spec fn home_of(
    arena: TypeArena,
    ty: TypeId,
    needs: bool,
    home_ty: Option<TypeId>,
    home_size: Option<(u64, u64)>,
) -> Option<Layout> {
    if !in_memory(arena, ty) && !needs {
        None
    } else {
        match home_size {
            Some((size, align)) => Some(padded_home(Layout { size, align })),
            None => {
                let t = match home_ty {
                    Some(t) => t,
                    None => ty,
                };
                if in_memory(arena, t) {
                    Some(padded_home(layout_or_word(arena, t)))
                } else {
                    Some(type_home(arena, ty))
                }
            },
        }
    }
}

/// What a frame is planned from.
pub struct FrameInput {
    pub arena: TypeArena,
    pub locals: Seq<LocalDecl>,
    pub needs: Seq<bool>,
    pub home_ty: Seq<Option<TypeId>>,
    pub home_size: Seq<Option<(u64, u64)>>,
    pub saved: Seq<Gpr>,
    pub prints: bool,
    pub ret_ptr: bool,
    pub outgoing: i32,
}

impl FrameInput {
    /// The home of the `i`-th local.
    pub open spec fn home(self, i: int) -> Option<Layout> {
        home_of(
            self.arena,
            self.locals[i].ty,
            self.needs[i],
            self.home_ty[i],
            self.home_size[i],
        )
    }

    /// The bytes below the frame pointer that the first `n` locals take.
    pub open spec fn locals_end(self, n: int) -> int
        decreases n,
    {
        if n <= 0 {
            0
        } else {
            match self.home(n - 1) {
                None => self.locals_end(n - 1),
                Some(l) => up(
                    self.locals_end(n - 1) + max(l.size as int, 1),
                    max(l.align as int, 1),
                ),
            }
        }
    }

    /// The bytes that the locals and `n` save slots take.
    pub open spec fn saved_end(self, n: int) -> int
        decreases n,
    {
        if n <= 0 {
            self.locals_end(self.locals.len() as int)
        } else {
            up(self.saved_end(n - 1) + 8, 8)
        }
    }

    /// The bytes down to the result pointer slot.
    pub open spec fn ret_end(self) -> int {
        let c = self.saved_end(self.saved.len() as int);
        if self.ret_ptr {
            up(c + 8, 8)
        } else {
            c
        }
    }

    /// The bytes down to the print buffer.
    pub open spec fn print_end(self) -> int {
        if self.prints {
            up(self.ret_end() + PRINT_BUF_SIZE, 16)
        } else {
            self.ret_end()
        }
    }

    /// The size of the frame.
    pub open spec fn frame_size(self) -> int {
        up(self.print_end() + max(self.outgoing as int, 0), 16)
    }

    /// One entry for each local, everything in the arena, alignments that are
    /// powers of two.
    pub open spec fn wf(self) -> bool {
        &&& self.arena.wf()
        &&& measurable(self.arena)
        &&& self.needs.len() == self.locals.len()
        &&& self.home_ty.len() == self.locals.len()
        &&& self.home_size.len() == self.locals.len()
        &&& forall|i: int|
            0 <= i < self.locals.len() ==> self.arena.has((#[trigger] self.locals[i]).ty)
        &&& forall|i: int|
            0 <= i < self.locals.len() ==> ((#[trigger] self.home_ty[i]) matches Some(t)
                ==> self.arena.has(t))
        &&& forall|i: int|
            0 <= i < self.locals.len() ==> ((#[trigger] self.home_size[i]) matches Some((_, a))
                ==> a <= 1 || is_pow2(a as int))
    }
}

/// The plan of a frame: homes, save slots, result pointer and print buffer below the
/// frame pointer, in this order.
pub open spec fn plan_of(f: FrameInput) -> PlanView {
    PlanView {
        local_home: Seq::new(
            f.locals.len(),
            |i: int|
                match f.home(i) {
                    None => None,
                    Some(_) => Some((-f.locals_end(i + 1)) as i32),
                },
        ),
        print_buf: if f.prints {
            Some((-f.print_end()) as i32)
        } else {
            None
        },
        ret_ptr_slot: if f.ret_ptr {
            Some((-f.ret_end()) as i32)
        } else {
            None
        },
        callee_saved_slots: Seq::new(
            f.saved.len(),
            |i: int| (f.saved[i], (-f.saved_end(i + 1)) as i32),
        ),
        frame_size: f.frame_size() as i32,
    }
}

fn pad_aggregate_home(l: Layout) -> (r: Layout)
    ensures
        r == padded_home(l),
{
    Layout {
        size: if l.size >= 8 {
            l.size
        } else {
            8
        },
        align: l.align,
    }
}

fn layout_or(arena: &TypeArena, ty: TypeId) -> (r: Layout)
    requires
        arena.wf(),
        arena.has(ty),
        measurable(*arena),
    ensures
        r == layout_or_word(*arena, ty),
{
    match layout_of(arena, ty) {
        Some(l) => l,
        None => Layout::WORD(),
    }
}

fn home_layout(arena: &TypeArena, ty: TypeId) -> (r: Layout)
    requires
        arena.wf(),
        arena.has(ty),
        measurable(*arena),
    ensures
        r == type_home(*arena, ty),
{
    if is_memory_aggregate(arena, ty) {
        return pad_aggregate_home(layout_or(arena, ty));
    }
    match layout_of(arena, ty) {
        Some(l) => {
            if l.size > 8 {
                return l;
            }
        },
        None => {},
    }
    Layout::WORD()
}

/// The home of a local.
fn home_for(
    arena: &TypeArena,
    ty: TypeId,
    needs: bool,
    home_ty: Option<TypeId>,
    home_size: Option<(u64, u64)>,
) -> (r: Option<Layout>)
    requires
        arena.wf(),
        measurable(*arena),
        arena.has(ty),
        home_ty matches Some(t) ==> arena.has(t),
    ensures
        r == home_of(*arena, ty, needs, home_ty, home_size),
{
    if !is_memory_aggregate(arena, ty) && !needs {
        return None;
    }
    match home_size {
        Some((size, align)) => Some(pad_aggregate_home(Layout { size, align })),
        None => {
            let size_ty: TypeId = match home_ty {
                Some(t) => t,
                None => ty,
            };
            if is_memory_aggregate(arena, size_ty) {
                Some(pad_aggregate_home(layout_or(arena, size_ty)))
            } else {
                Some(home_layout(arena, ty))
            }
        },
    }
}

/// `x` rounded up to a multiple of `a`.
fn up_wide(x: u128, a: u64) -> (r: u128)
    requires
        x <= 0xF_FFFF_FFFF_FFFF_FFFF,
    ensures
        r == up(x as int, a as int),
{
    if a <= 1 {
        return x;
    }
    let y: u128 = x + (a as u128 - 1);
    proof {
        vstd::arithmetic::div_mod::lemma_fundamental_div_mod(y as int, a as int);
        assert((y as int) / (a as int) * (a as int) <= y) by (nonlinear_arith)
            requires
                y as int == (a as int) * ((y as int) / (a as int)) + (y as int) % (a as int),
                (y as int) % (a as int) >= 0,
        ;
        assert((y as int) % (a as int) >= 0);
    }
    y / (a as u128) * (a as u128)
}

/// Whether the frame of a function is within reach of a displacement.
pub fn frame_fits(
    func: &MirFunction,
    arena: &TypeArena,
    needs_home: &[bool],
    home_ty: &[Option<TypeId>],
    home_size: &[Option<(u64, u64)>],
    saved: &[Gpr],
    prints: bool,
    ret_ptr: bool,
    outgoing_args_size: i32,
) -> (r: bool)
    requires
        (FrameInput {
            arena: *arena,
            locals: func.locals@,
            needs: needs_home@,
            home_ty: home_ty@,
            home_size: home_size@,
            saved: saved@,
            prints,
            ret_ptr,
            outgoing: outgoing_args_size,
        }).wf(),
    ensures
        r == ((FrameInput {
            arena: *arena,
            locals: func.locals@,
            needs: needs_home@,
            home_ty: home_ty@,
            home_size: home_size@,
            saved: saved@,
            prints,
            ret_ptr,
            outgoing: outgoing_args_size,
        }).frame_size() <= i32::MAX),
{
    let ghost f = FrameInput {
        arena: *arena,
        locals: func.locals@,
        needs: needs_home@,
        home_ty: home_ty@,
        home_size: home_size@,
        saved: saved@,
        prints,
        ret_ptr,
        outgoing: outgoing_args_size,
    };
    proof {
        parts_within(f);
    }
    let mut cursor: u128 = 0;
    let mut i: usize = 0;
    while i < func.locals.len()
        invariant
            f.wf(),
            f == (FrameInput {
                arena: *arena,
                locals: func.locals@,
                needs: needs_home@,
                home_ty: home_ty@,
                home_size: home_size@,
                saved: saved@,
                prints,
                ret_ptr,
                outgoing: outgoing_args_size,
            }),
            f.locals_end(f.locals.len() as int) <= f.frame_size(),
            i <= f.locals.len(),
            cursor == f.locals_end(i as int),
            cursor <= i32::MAX,
        decreases f.locals.len() - i,
    {
        let ty: TypeId = func.locals[i].ty;
        proof {
            assert(f.arena.has(f.locals[i as int].ty));
            locals_end_grows(f, i + 1, f.locals.len() as int);
            assert(f.home_ty[i as int] == home_ty@[i as int]);
            assert(f.home_size[i as int] == home_size@[i as int]);
        }
        match home_for(arena, ty, needs_home[i], home_ty[i], home_size[i]) {
            None => {},
            Some(l) => {
                let size: u64 = if l.size >= 1 {
                    l.size
                } else {
                    1
                };
                let align: u64 = if l.align >= 1 {
                    l.align
                } else {
                    1
                };
                cursor = up_wide(cursor + size as u128, align);
                if cursor > 0x7FFF_FFFF {
                    return false;
                }
            },
        }
        i = i + 1;
    }
    let mut k: usize = 0;
    while k < saved.len()
        invariant
            f == (FrameInput {
                arena: *arena,
                locals: func.locals@,
                needs: needs_home@,
                home_ty: home_ty@,
                home_size: home_size@,
                saved: saved@,
                prints,
                ret_ptr,
                outgoing: outgoing_args_size,
            }),
            f.saved_end(f.saved.len() as int) <= f.frame_size(),
            k <= saved@.len(),
            cursor == f.saved_end(k as int),
            cursor <= i32::MAX,
        decreases saved@.len() - k,
    {
        proof {
            saved_end_grows(f, k + 1, f.saved.len() as int);
        }
        cursor = up_wide(cursor + 8, 8);
        if cursor > 0x7FFF_FFFF {
            return false;
        }
        k = k + 1;
    }
    if ret_ptr {
        cursor = up_wide(cursor + 8, 8);
    }
    if prints {
        cursor = up_wide(cursor + 8192, 16);
    }
    let outgoing: u128 = if outgoing_args_size >= 0 {
        outgoing_args_size as u128
    } else {
        0
    };
    up_wide(cursor + outgoing, 16) <= 0x7FFF_FFFF
}

/// Homes have alignments that are powers of two or nothing.
proof fn home_align(f: FrameInput, i: int)
    requires
        f.wf(),
        0 <= i < f.locals.len(),
    ensures
        f.home(i) matches Some(l) ==> l.align <= 1 || is_pow2(l.align as int),
{
    reveal_with_fuel(is_pow2, 5);
    assert(f.home_size[i] == f.home_size[i]);
    assert(f.home_ty[i] == f.home_ty[i]);
    alignment_facts(f.arena, f.locals[i].ty, 0);
    match f.home_ty[i] {
        Some(t) => alignment_facts(f.arena, t, 0),
        None => {},
    }
}

/// Further locals only take more.
proof fn locals_end_grows(f: FrameInput, i: int, n: int)
    requires
        0 <= i <= n,
    ensures
        0 <= f.locals_end(i) <= f.locals_end(n),
    decreases n,
{
    if n > 0 {
        if i < n {
            locals_end_grows(f, i, n - 1);
        } else {
            locals_end_grows(f, n - 1, n - 1);
        }
        match f.home(n - 1) {
            None => {},
            Some(l) => up_facts(
                f.locals_end(n - 1) + max(l.size as int, 1),
                max(l.align as int, 1),
            ),
        }
    }
}

proof fn saved_end_grows(f: FrameInput, i: int, n: int)
    requires
        0 <= i <= n,
    ensures
        f.locals_end(f.locals.len() as int) <= f.saved_end(i) <= f.saved_end(n),
        0 <= f.saved_end(i),
    decreases n,
{
    locals_end_grows(f, 0, f.locals.len() as int);
    if n > 0 {
        if i < n {
            saved_end_grows(f, i, n - 1);
        } else {
            saved_end_grows(f, n - 1, n - 1);
        }
        up_facts(f.saved_end(n - 1) + 8, 8);
    }
}

/// Every part ends within the frame.
proof fn parts_within(f: FrameInput)
    ensures
        0 <= f.locals_end(f.locals.len() as int) <= f.saved_end(f.saved.len() as int)
            <= f.ret_end() <= f.print_end() <= f.print_end() + max(f.outgoing as int, 0)
            <= f.frame_size(),
{
    locals_end_grows(f, 0, f.locals.len() as int);
    saved_end_grows(f, 0, f.saved.len() as int);
    up_facts(f.saved_end(f.saved.len() as int) + 8, 8);
    up_facts(f.ret_end() + PRINT_BUF_SIZE, 16);
    up_facts(f.print_end() + max(f.outgoing as int, 0), 16);
}

/// Plans the frame of a function.
pub fn plan(
    func: &MirFunction,
    arena: &TypeArena,
    needs_home: &[bool],
    home_ty: &[Option<TypeId>],
    home_size: &[Option<(u64, u64)>],
    saved: &[Gpr],
    prints: bool,
    ret_ptr: bool,
    outgoing_args_size: i32,
) -> (r: FramePlan)
    requires
        ({
            let f = FrameInput {
                arena: *arena,
                locals: func.locals@,
                needs: needs_home@,
                home_ty: home_ty@,
                home_size: home_size@,
                saved: saved@,
                prints,
                ret_ptr,
                outgoing: outgoing_args_size,
            };
            f.wf() && f.frame_size() <= i32::MAX
        }),
    ensures
        r@ == plan_of(
            (FrameInput {
                arena: *arena,
                locals: func.locals@,
                needs: needs_home@,
                home_ty: home_ty@,
                home_size: home_size@,
                saved: saved@,
                prints,
                ret_ptr,
                outgoing: outgoing_args_size,
            }),
        ),
{
    let ghost f = FrameInput {
        arena: *arena,
        locals: func.locals@,
        needs: needs_home@,
        home_ty: home_ty@,
        home_size: home_size@,
        saved: saved@,
        prints,
        ret_ptr,
        outgoing: outgoing_args_size,
    };
    proof {
        parts_within(f);
        reveal_with_fuel(is_pow2, 6);
    }
    let mut cursor: u64 = 0;
    let mut local_home: Vec<Option<i32>> = Vec::new();
    let mut i: usize = 0;
    while i < func.locals.len()
        invariant
            f.wf(),
            f.arena == *arena,
            f.locals == func.locals@,
            f.needs == needs_home@,
            f.home_ty == home_ty@,
            f.home_size == home_size@,
            f.locals_end(f.locals.len() as int) <= i32::MAX,
            i <= f.locals.len(),
            cursor == f.locals_end(i as int),
            cursor <= i32::MAX,
            local_home@.len() == i,
            forall|k: int|
                0 <= k < i ==> (#[trigger] local_home@[k]) == (match f.home(k) {
                    None => None,
                    Some(_) => Some((-f.locals_end(k + 1)) as i32),
                }),
        decreases f.locals.len() - i,
    {
        let ty: TypeId = func.locals[i].ty;
        assert(f.arena.has(f.locals[i as int].ty));
        proof {
            locals_end_grows(f, i + 1, f.locals.len() as int);
            home_align(f, i as int);
            assert(f.home_ty[i as int] == home_ty@[i as int]);
            assert(f.home_size[i as int] == home_size@[i as int]);
        }
        match home_for(arena, ty, needs_home[i], home_ty[i], home_size[i]) {
            None => {
                local_home.push(None);
            },
            Some(l) => {
                let size: u64 = if l.size >= 1 {
                    l.size
                } else {
                    1
                };
                let align: u64 = if l.align >= 1 {
                    l.align
                } else {
                    1
                };
                proof {
                    up_facts(cursor + size, align as int);
                    up_needs(cursor + size, align as int);
                }
                cursor = round_up(cursor + size, align);
                local_home.push(Some(-(cursor as i32)));
            },
        }
        i = i + 1;
    }
    let mut callee_saved_slots: Vec<(Gpr, i32)> = Vec::new();
    let mut k: usize = 0;
    while k < saved.len()
        invariant
            f.saved == saved@,
            f.saved_end(f.saved.len() as int) <= i32::MAX,
            k <= saved@.len(),
            cursor == f.saved_end(k as int),
            cursor <= i32::MAX,
            is_pow2(8),
            callee_saved_slots@.len() == k,
            forall|j: int|
                0 <= j < k ==> (#[trigger] callee_saved_slots@[j]) == (
                    f.saved[j],
                    (-f.saved_end(j + 1)) as i32,
                ),
        decreases saved@.len() - k,
    {
        proof {
            saved_end_grows(f, k + 1, f.saved.len() as int);
        }
        cursor = round_up(cursor + 8, 8);
        callee_saved_slots.push((saved[k], -(cursor as i32)));
        k = k + 1;
    }
    let mut ret_ptr_slot: Option<i32> = None;
    if ret_ptr {
        cursor = round_up(cursor + 8, 8);
        ret_ptr_slot = Some(-(cursor as i32));
    }
    let mut print_buf: Option<i32> = None;
    if prints {
        cursor = round_up(cursor + 8192, 16);
        print_buf = Some(-(cursor as i32));
    }
    let outgoing: u64 = if outgoing_args_size >= 0 {
        outgoing_args_size as u64
    } else {
        0
    };
    let frame_size: u64 = round_up(cursor + outgoing, 16);
    let r = FramePlan {
        local_home,
        print_buf,
        ret_ptr_slot,
        callee_saved_slots,
        frame_size: frame_size as i32,
    };
    proof {
        assert(r.local_home@ =~= plan_of(f).local_home);
        assert(r.callee_saved_slots@ =~= plan_of(f).callee_saved_slots);
    }
    r
}

/// A sum that is rounded to something small is small itself, and so is the
/// alignment that did it.
proof fn up_needs(x: int, a: int)
    requires
        0 <= x,
        1 <= a,
        up(x, a) <= i32::MAX,
    ensures
        x <= i32::MAX,
        x > 0 ==> a <= i32::MAX,
{
    up_facts(x, a);
    if a > i32::MAX && x > 0 {
        assert(up(x, a) >= a) by {
            let q = (x + a - 1) / a;
            assert(q >= 1) by (nonlinear_arith)
                requires
                    q == (x + a - 1) / a,
                    x >= 1,
                    a >= 1,
            ;
            assert(q * a >= a) by (nonlinear_arith)
                requires
                    q >= 1,
                    a >= 1,
            ;
        }
    }
}

// ---------------------------------------------------------------------------
//  Laws
// ---------------------------------------------------------------------------

/// The homes of two locals share no byte: the later one lies wholly below.
pub proof fn homes_disjoint(f: FrameInput, i: int, j: int)
    requires
        0 <= i < j < f.locals.len(),
        f.home(i) is Some,
        f.home(j) is Some,
    ensures
        -f.locals_end(j + 1) + f.home(j).unwrap().size <= -f.locals_end(i + 1),
{
    locals_end_grows(f, i + 1, j);
    let l = f.home(j).unwrap();
    up_facts(f.locals_end(j) + max(l.size as int, 1), max(l.align as int, 1));
}

/// Every home is aligned, lies below the frame pointer, and fits its local.
pub proof fn home_aligned(f: FrameInput, i: int)
    requires
        0 <= i < f.locals.len(),
        f.home(i) is Some,
    ensures
        f.locals_end(i + 1) % max(f.home(i).unwrap().align as int, 1) == 0,
        f.home(i).unwrap().size <= f.locals_end(i + 1),
        f.locals_end(i + 1) <= f.locals_end(f.locals.len() as int),
{
    locals_end_grows(f, i, i);
    locals_end_grows(f, i + 1, f.locals.len() as int);
    let l = f.home(i).unwrap();
    up_facts(f.locals_end(i) + max(l.size as int, 1), max(l.align as int, 1));
}

/// An aggregate has a home, and every home holds at least a whole word.
pub proof fn homes_hold_words(f: FrameInput, i: int)
    requires
        0 <= i < f.locals.len(),
    ensures
        in_memory(f.arena, f.locals[i].ty) ==> f.home(i) is Some,
        f.home(i) matches Some(l) ==> l.size >= 8,
{
}

/// The parts of the frame follow each other without overlap: locals, save slots,
/// result slot, print buffer, outgoing arguments; the frame is 16-byte aligned.
pub proof fn frame_parts_in_order(f: FrameInput)
    ensures
        0 <= f.locals_end(f.locals.len() as int),
        f.locals_end(f.locals.len() as int) + 8 * f.saved.len() <= f.saved_end(
            f.saved.len() as int,
        ),
        f.ret_ptr ==> f.saved_end(f.saved.len() as int) + 8 <= f.ret_end(),
        f.prints ==> f.ret_end() + PRINT_BUF_SIZE <= f.print_end(),
        f.ret_end() <= f.print_end(),
        f.print_end() + max(f.outgoing as int, 0) <= f.frame_size(),
        f.frame_size() % 16 == 0,
{
    parts_within(f);
    slots_take_words(f, f.saved.len() as int);
    up_facts(f.saved_end(f.saved.len() as int) + 8, 8);
    up_facts(f.ret_end() + PRINT_BUF_SIZE, 16);
    up_facts(f.print_end() + max(f.outgoing as int, 0), 16);
}

proof fn slots_take_words(f: FrameInput, n: int)
    requires
        0 <= n,
    ensures
        f.locals_end(f.locals.len() as int) + 8 * n <= f.saved_end(n),
    decreases n,
{
    if n > 0 {
        slots_take_words(f, n - 1);
        saved_end_grows(f, n - 1, n - 1);
        up_facts(f.saved_end(n - 1) + 8, 8);
    }
}

/// Save slots stand one below the other, each with room for a word, within the frame.
pub proof fn save_slots_in_order(f: FrameInput, i: int, j: int)
    requires
        0 <= i <= j < f.saved.len(),
    ensures
        8 <= f.saved_end(i + 1),
        i < j ==> f.saved_end(i + 1) + 8 <= f.saved_end(j + 1),
        f.saved_end(j + 1) <= f.frame_size(),
{
    parts_within(f);
    saved_end_grows(f, i, i);
    if i < j {
        saved_end_grows(f, i + 1, j);
    }
    saved_end_grows(f, j + 1, f.saved.len() as int);
    up_facts(f.saved_end(i) + 8, 8);
    up_facts(f.saved_end(j) + 8, 8);
}

} // verus!
