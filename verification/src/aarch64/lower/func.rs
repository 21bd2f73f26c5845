//! Whole functions.
use vstd::prelude::*;

use crate::aarch64::encode::{A64State, Aarch64Asm, resolved, sites_in_order};
use crate::aarch64::link::site_width;
use crate::aarch64::lower::env::{A64Func, A64Low, A64Out, Aarch64FnLower};
use crate::encode::{Fixup, LabelId};
use crate::frame::{FrameInput, frame_fits, plan, plan_of};
use crate::intern::Pool;
use crate::lower::abi::{func_prints, outgoing_args_bytes, outgoing_bytes, prints_somewhere};
use crate::lower::env::{EntryKind, Scope};
use crate::lower::func::{bound_after, bound_but, entry_kind};
use crate::mir::{MirFunction, MirProgram};
use crate::text::same_str;
use crate::types::{Type, TypeId};
use crate::{CodegenError, RoData};

verus! {

/// What the frame of a function is planned from: every local has a home.
pub open spec fn frame_input(prog: MirProgram, func: MirFunction) -> FrameInput {
    FrameInput {
        arena: prog.arena,
        locals: func.locals@,
        needs: Seq::new(func.locals@.len(), |i: int| true),
        home_ty: Seq::new(func.locals@.len(), |i: int| None),
        home_size: Seq::new(func.locals@.len(), |i: int| None),
        saved: Seq::empty(),
        prints: prints_somewhere(func),
        ret_ptr: false,
        outgoing: outgoing_bytes(prog, func),
    }
}

/// What a function is lowered from.
pub open spec fn a64_env_of(prog: MirProgram, func: MirFunction) -> A64Func {
    A64Func {
        prog,
        func,
        plan: plan_of(frame_input(prog, func)),
        kind: entry_kind(prog, func),
    }
}

/// Whether a function can be lowered: all that it refers to is there, and its frame
/// is within reach of a displacement.
pub open spec fn a64_function_ok(prog: MirProgram, func: MirFunction) -> bool {
    &&& (Scope { prog, func }).parts_ok()
    &&& (Scope { prog, func }).blocks_ok()
    &&& frame_input(prog, func).frame_size() <= i32::MAX
}

impl A64Func {
    /// The blocks from the `i`-th on.
    pub open spec fn blocks_from(self, s: A64Low, i: int) -> A64Low
        decreases self.func.blocks@.len() - i,
    {
        if i < 0 || i >= self.func.blocks@.len() {
            s
        } else {
            let s = s.on(s.text.bind(LabelId(i as u32)));
            let s = self.lower_block_body(s, self.func.blocks@[i]);
            if s.err is Some {
                s
            } else {
                self.blocks_from(s, i + 1)
            }
        }
    }

    /// The function: one label for each block, the entry, and the blocks.
    pub open spec fn whole(self, s: A64Low) -> A64Low {
        let s = s.on(s.text.reserve_labels(self.func.blocks@.len()));
        let s = self.lower_entry(s);
        if s.err is Some {
            s
        } else {
            self.blocks_from(s, 0)
        }
    }

    /// The function behind the data `ro`.
    pub open spec fn lowered_behind(self, ro: Pool) -> A64Low {
        self.whole(A64Low { text: A64State::empty(), ro, err: None })
    }
}

/// Whether `r` and the data after it are the finished function that `want` says.
pub open spec fn a64_finished(
    r: Result<(Vec<u8>, Vec<Fixup>), CodegenError>,
    ro: Pool,
    want: A64Low,
) -> bool {
    match r {
        Ok((code, fixups)) => {
            &&& want.err is None
            &&& code@ == resolved(want.text.code, want.text.labels, want.text.branches)
            &&& fixups@ == want.text.fixups
            &&& ro == want.ro
        },
        Err(e) => want.err is Some && e.unsupported(want.err.unwrap()) && ro == want.ro,
    }
}

/// What frames are planned from beside the function.
struct HomeInputs {
    needs: Vec<bool>,
    home_ty: Vec<Option<TypeId>>,
    home_size: Vec<Option<(u64, u64)>>,
    saved: Vec<crate::reg::Gpr>,
}

impl HomeInputs {
    /// A home for every local, no saved register.
    fn for_locals(prog: &MirProgram, func: &MirFunction) -> (r: HomeInputs)
        ensures
            ({
                let f = frame_input(*prog, *func);
                &&& r.needs@ == f.needs
                &&& r.home_ty@ == f.home_ty
                &&& r.home_size@ == f.home_size
                &&& r.saved@ == f.saved
            }),
    {
        let mut needs: Vec<bool> = Vec::new();
        let mut home_ty: Vec<Option<TypeId>> = Vec::new();
        let mut home_size: Vec<Option<(u64, u64)>> = Vec::new();
        let mut i: usize = 0;
        while i < func.locals.len()
            invariant
                i <= func.locals@.len(),
                needs@ == Seq::new(i as nat, |k: int| true),
                home_ty@ == Seq::new(i as nat, |k: int| None::<TypeId>),
                home_size@ == Seq::new(i as nat, |k: int| None::<(u64, u64)>),
            decreases func.locals@.len() - i,
        {
            needs.push(true);
            home_ty.push(None);
            home_size.push(None);
            i = i + 1;
            assert(needs@ =~= Seq::new(i as nat, |k: int| true));
            assert(home_ty@ =~= Seq::new(i as nat, |k: int| None::<TypeId>));
            assert(home_size@ =~= Seq::new(i as nat, |k: int| None::<(u64, u64)>));
        }
        let saved: Vec<crate::reg::Gpr> = Vec::new();
        proof {
            let f = frame_input(*prog, *func);
            assert(needs@ =~= f.needs);
            assert(home_ty@ =~= f.home_ty);
            assert(home_size@ =~= f.home_size);
            assert(saved@ =~= f.saved);
        }
        HomeInputs { needs, home_ty, home_size, saved }
    }
}

/// Whether the frame of a function is within reach of a displacement.
pub fn a64_frame_fits(prog: &MirProgram, func: &MirFunction) -> (r: bool)
    requires
        (Scope { prog: *prog, func: *func }).parts_ok(),
        (Scope { prog: *prog, func: *func }).blocks_ok(),
    ensures
        r == (frame_input(*prog, *func).frame_size() <= i32::MAX),
{
    let inputs = HomeInputs::for_locals(prog, func);
    let prints: bool = func_prints(func);
    let outgoing: i32 = outgoing_args_bytes(prog, func);
    frame_fits(
        func,
        &prog.arena,
        inputs.needs.as_slice(),
        inputs.home_ty.as_slice(),
        inputs.home_size.as_slice(),
        inputs.saved.as_slice(),
        prints,
        false,
        outgoing,
    )
}

impl<'p> Aarch64FnLower<'p> {
    /// The context of a function.
    pub fn new(prog: &'p MirProgram, func: &'p MirFunction) -> (r: Aarch64FnLower<'p>)
        requires
            a64_function_ok(*prog, *func),
        ensures
            r.env() == a64_env_of(*prog, *func),
            r.ok(),
    {
        let kind: EntryKind = if same_str(func.name.as_str(), "main") {
            match *prog.arena.get(func.ret) {
                Type::Int { .. } => EntryKind::IntEntry,
                _ => EntryKind::VoidEntry,
            }
        } else {
            EntryKind::Helper
        };
        let inputs = HomeInputs::for_locals(prog, func);
        let prints: bool = func_prints(func);
        let outgoing: i32 = outgoing_args_bytes(prog, func);
        let frame = plan(
            func,
            &prog.arena,
            inputs.needs.as_slice(),
            inputs.home_ty.as_slice(),
            inputs.home_size.as_slice(),
            inputs.saved.as_slice(),
            prints,
            false,
            outgoing,
        );
        Aarch64FnLower { prog, func, plan: frame, kind }
    }

    /// The finished code of the function and its fixups; its data goes to `rodata`.
    pub fn lower(self, rodata: &mut RoData) -> (r: Result<(Vec<u8>, Vec<Fixup>), CodegenError>)
        requires
            self.ok(),
            old(rodata)@.wf(),
        ensures
            a64_finished(r, final(rodata)@, self.env().lowered_behind(old(rodata)@)),
            final(rodata)@.wf(),
            r matches Ok((code, fixups)) ==> sites_in_order(fixups@) && forall|k: int|
                0 <= k < fixups@.len() ==> (#[trigger] fixups@[k]).at + site_width(fixups@[k].kind)
                    <= code@.len(),
    {
        let ghost env = self.env();
        let ghost want = env.lowered_behind(rodata@);
        let n: usize = self.func.blocks.len();
        let mut out = A64Out { text: Aarch64Asm::new(), ro: RoData::new() };
        core::mem::swap(rodata, &mut out.ro);
        assert(out.text@.tidy()) by {
            reveal(A64State::tidy);
        }
        out.text.reserve_labels(n);
        let ghost l0 = out@.text.labels;
        match self.lower_entry(&mut out) {
            Ok(_) => {},
            Err(e) => {
                core::mem::swap(rodata, &mut out.ro);
                return Err(e);
            },
        }
        proof {
            assert(bound_but(l0, 0, n as int));
            bound_after(l0, out@.text.labels, 0, n as int);
        }
        let mut i: usize = 0;
        while i < n
            invariant
                self.ok(),
                env == self.env(),
                n == env.func.blocks@.len(),
                i <= n,
                n <= out@.text.labels.len(),
                out.ok(),
                rodata@.wf(),
                bound_but(out@.text.labels, i as int, n as int),
                want == env.blocks_from(out@, i as int),
                want == env.lowered_behind(old(rodata)@),
            decreases n - i,
        {
            let ghost l1 = out@.text.labels;
            out.text.bind_label(LabelId(i as u32));
            let ghost l2 = out@.text.labels;
            proof {
                assert forall|l: LabelId| l.0 < l2.len() && !(i + 1 <= l.0 < n) implies (
                #[trigger] l2[l.0 as int]) is Some by {
                    if l.0 != i {
                        assert(l1[l.0 as int] is Some);
                    }
                }
                assert(bound_but(l2, i + 1, n as int));
                assert(env.block_ok(env.func.blocks@[i as int]));
            }
            match self.lower_block_body(&mut out, &self.func.blocks[i]) {
                Ok(_) => {},
                Err(e) => {
                    core::mem::swap(rodata, &mut out.ro);
                    return Err(e);
                },
            }
            proof {
                bound_after(l2, out@.text.labels, i + 1, n as int);
            }
            i = i + 1;
        }
        let ghost done = out@;
        core::mem::swap(rodata, &mut out.ro);
        proof {
            reveal(A64State::tidy);
            assert forall|k: int| 0 <= k < done.text.branches.len() implies (
            #[trigger] done.text.branches[k]).label.0 < done.text.labels.len()
                && done.text.labels[done.text.branches[k].label.0 as int] is Some by {
                let l = done.text.branches[k].label;
                assert(done.text.labels[l.0 as int] is Some);
            }
        }
        Ok(out.text.finish())
    }
}

} // verus!
