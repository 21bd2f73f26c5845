//! Places: addresses and loads of locals and their parts.
use vstd::prelude::*;

use crate::lower::env::{Env, FnLower, LowState, Out, grew, grew_refl, grew_trans, lowered};
use crate::layout::{error_payload, error_union_payload_off};
use crate::lower::env::proj_ok_at;
use crate::lower::scalar::{low_mask, mask_of};
use crate::mir::{LocalId, Operand, PackedField, Place, Proj, SliceMeta};
use crate::reg::Gpr;
use crate::types::{ArrayLen, Type, TypeId};
use crate::CodegenError;

verus! {

/// What the last step of a place asks for.
#[derive(Clone, Copy, PartialEq, Eq, Structural, Debug)]
pub enum LastStep {
    /// A bit field of a packed struct.
    Packed(PackedField),
    /// The length of an array.
    Length(i64),
    /// The address of an array.
    Address,
    /// A load from memory.
    Load,
}

impl Env {
    /// What the last step of a place asks for.
    pub open spec fn last_step(self, place: Place) -> LastStep {
        let n = (place.proj@.len() - 1) as usize;
        match place.proj@[n as int] {
            Proj::Field { packed, .. } => match packed {
                Some(pf) => LastStep::Packed(pf),
                None => LastStep::Load,
            },
            Proj::SliceMeta { which, .. } => match self.ty(self.type_at(place, n)) {
                Type::Array { len, .. } => match which {
                    SliceMeta::Ptr => LastStep::Address,
                    SliceMeta::Len => LastStep::Length(
                        match len {
                            ArrayLen::Known(k) => k as i64,
                            _ => if n == 0 {
                                match self.alloc.array_len@[place.base.0 as int] {
                                    Some(k) => k as i64,
                                    None => 0,
                                }
                            } else {
                                0
                            },
                        },
                    ),
                },
                _ => LastStep::Load,
            },
            _ => LastStep::Load,
        }
    }

    /// Whether one of the first `n` steps of a place is a struct field.
    pub open spec fn field_before(self, place: Place, n: usize) -> bool
        decreases n,
    {
        n > 0 && (place.proj@[n - 1] is Field || self.field_before(place, (n - 1) as usize))
    }

    /// The offset of the payload that the `i`-th of `n` steps reaches.
    pub open spec fn payload_off(self, place: Place, i: usize, n: usize) -> u64 {
        let cur = self.type_at(place, i);
        match self.ty(cur) {
            Type::ErrorUnion { .. } => error_payload(self.prog.arena, cur) as u64,
            _ => match self.eu_payload_of(place.base) {
                Some(p) => if n == 1 {
                    p.1 as u64
                } else {
                    0
                },
                None => 0,
            },
        }
    }
}

/// Whether an operand is a part of a local.
pub open spec fn is_part(op: Operand) -> bool {
    match op {
        Operand::Copy(p) => p.proj@.len() > 0,
        Operand::Const(_) => false,
    }
}

/// Whether an operand is a part of a local.
pub(crate) fn part_of_local(op: &Operand) -> (r: bool)
    ensures
        r == is_part(*op),
{
    match op {
        Operand::Copy(p) => p.proj.len() > 0,
        Operand::Const(_) => false,
    }
}

impl FnLower<'_> {
    pub(crate) fn last_step(&self, place: &Place) -> (r: LastStep)
        requires
            self.ok(),
            self.env().place_ok(*place),
            place.proj@.len() > 0,
        ensures
            r == self.env().last_step(*place),
    {
        let n: usize = place.proj.len() - 1;
        match &place.proj[n] {
            Proj::Field { packed, .. } => match *packed {
                Some(pf) => LastStep::Packed(pf),
                None => LastStep::Load,
            },
            Proj::SliceMeta { which, .. } => match self.ty(self.type_at(place, n)) {
                Type::Array { len, .. } => match *which {
                    SliceMeta::Ptr => LastStep::Address,
                    SliceMeta::Len => {
                        let k: i64 = match len {
                            ArrayLen::Known(k) => k as i64,
                            _ => if n == 0 {
                                match self.alloc.array_len[place.base.0 as usize] {
                                    Some(k) => k as i64,
                                    None => 0,
                                }
                            } else {
                                0
                            },
                        };
                        LastStep::Length(k)
                    },
                },
                _ => LastStep::Load,
            },
            _ => LastStep::Load,
        }
    }

    pub(crate) fn field_before(&self, place: &Place, n: usize) -> (r: bool)
        requires
            n <= place.proj@.len(),
        ensures
            r == self.env().field_before(*place, n),
        decreases n,
    {
        if n == 0 {
            return false;
        }
        match &place.proj[n - 1] {
            Proj::Field { .. } => true,
            _ => self.field_before(place, n - 1),
        }
    }

    pub(crate) fn payload_off(&self, place: &Place, i: usize, n: usize) -> (r: u64)
        requires
            self.ok(),
            self.env().place_ok(*place),
            i <= place.proj@.len(),
        ensures
            r == self.env().payload_off(*place, i, n),
    {
        let cur: TypeId = self.type_at(place, i);
        match self.ty(cur) {
            Type::ErrorUnion { .. } => error_union_payload_off(&self.prog.arena, cur),
            _ => match self.eu_payload_of(place.base) {
                Some(p) => if n == 1 {
                    p.1 as u64
                } else {
                    0
                },
                None => 0,
            },
        }
    }
}

impl Env {
    /// Loads a scalar operand into `dst`.
    pub open spec fn operand_to(self, s: LowState, op: Operand, dst: Gpr) -> LowState
        decreases op, 0nat, 0nat,
    {
        let s = match op {
            Operand::Copy(p) => {
                let s = self.load_place_scalar(s, p, dst);
                s
            },
            Operand::Const(c) => {
                let s = self.const_to(s, c, dst);
                s
            },
        };
        s
    }

    /// Loads a scalar local into `dst`; one that lives nowhere reads as zero.
    #[verifier::opaque]
    pub open spec fn local_to(self, s: LowState, l: LocalId, dst: Gpr) -> LowState {
        let s = match self.reg_of(l) {
            Some(r) => {
                let s = if r != dst {
                    let s = s.on(s.text.mov_rr(dst, r));
                    s
                } else {
                    s
                };
                s
            },
            None => {
                let s = match self.home(l) {
                    Some(h) => {
                        let s = self.load_sized(s, dst, Gpr::Rbp, h, self.local_ty(l));
                        s
                    },
                    None => {
                        let s = s.on(s.text.mov_ri(dst, 0));
                        s
                    },
                };
                s
            },
        };
        s
    }

    /// Loads the scalar at a place into `dst`.
    pub open spec fn load_place_scalar(self, s: LowState, place: Place, dst: Gpr) -> LowState
        decreases place, 5nat, 0nat,
    {
        let s = if place.proj@.len() == 0 {
            let s = self.local_to(s, place.base, dst);
            s
        } else {
            let n = place.proj@.len() as usize;
            let s = match self.last_step(place) {
                LastStep::Packed(pf) => {
                    let s = self.load_packed_field(s, place, pf, dst);
                    s
                },
                LastStep::Length(k) => {
                    let s = s.on(s.text.mov_ri(dst, k));
                    s
                },
                LastStep::Address => {
                    let s = self.place_addr_general(s, place, (n - 1) as usize, dst);
                    s
                },
                LastStep::Load => {
                    let s = self.place_addr(s, place, n, Gpr::R11);
                    if s.err is Some {
                        s
                    } else {
                        let s = self.load_sized(s, dst, Gpr::R11, 0, self.place_type(place));
                        s
                    }
                },
            };
            s
        };
        s
    }

    /// Loads a bit field of the packed struct that all but the last step reach.
    pub open spec fn load_packed_field(
        self,
        s: LowState,
        place: Place,
        pf: PackedField,
        dst: Gpr,
    ) -> LowState
        decreases place, 4nat, 0nat,
    {
        let s = if pf.width == 0 || pf.width > 64 || pf.off > 64 - pf.width {
            s.fail(
                self.unsup(
                    "packed bit-field load wider than 64 bits or straddling the 64-bit limb"@,
                ),
            )
        } else {
            let n = (place.proj@.len() - 1) as usize;
            let s = self.place_addr_general(s, place, n, dst);
            if s.err is Some {
                s
            } else {
                let s = s.on(s.text.mov_load_mem(dst, dst, 0));
                let s = if pf.signed {
                    let top = (64 - pf.off - pf.width) as u8;
                    let s = if top != 0 {
                        let s = s.on(s.text.shl_ri(dst, top));
                        s
                    } else {
                        s
                    };
                    let s = s.on(s.text.sar_ri(dst, (64 - pf.width) as u8));
                    s
                } else {
                    let s = if pf.off != 0 {
                        let s = s.on(s.text.shr_ri(dst, pf.off as u8));
                        s
                    } else {
                        s
                    };
                    let s = if pf.width < 64 {
                        let s = self.mask_to(s, dst, mask_of(pf.width));
                        s
                    } else {
                        s
                    };
                    s
                };
                s
            }
        };
        s
    }

    /// Puts the address of what the first `n` steps of a place reach into `dst`.
    pub open spec fn place_addr_general(
        self,
        s: LowState,
        place: Place,
        n: usize,
        dst: Gpr,
    ) -> LowState
        decreases place, 3nat, 0nat,
    {
        let s = if n == 0 {
            let s = match self.home(place.base) {
                Some(h) => {
                    let s = s.on(s.text.lea_rbp(dst, h));
                    s
                },
                None => {
                    s.fail(self.unsup("address of a register-only local"@))
                },
            };
            s
        } else {
            let s = self.place_addr(s, place, n, dst);
            s
        };
        s
    }

    /// Puts the address of what the first `n` steps of a place reach into `dst`: from
    /// the home of the local, or from the pointer that it holds in a register.
    pub open spec fn place_addr(self, s: LowState, place: Place, n: usize, dst: Gpr) -> LowState
        decreases place, 2nat, 0nat,
    {
        let s = match self.home(place.base) {
            Some(h) => {
                let s = s.on(s.text.lea_rbp(dst, h));
                let s = self.place_steps(s, place, 0, n, dst);
                s
            },
            None => {
                let s = match self.reg_of(place.base) {
                    Some(r) => {
                        let s = match place.proj@[0 as int] {
                            Proj::Deref => {
                                let s = if r != dst {
                                    let s = s.on(s.text.mov_rr(dst, r));
                                    s
                                } else {
                                    s
                                };
                                let s = self.place_steps(s, place, 1, n, dst);
                                s
                            },
                            _ => {
                                s.fail(
                                    self.unsup("projected place over a register-only non-pointer"@),
                                )
                            },
                        };
                        s
                    },
                    None => {
                        s.fail(self.unsup("projected place over a register-only local"@))
                    },
                };
                s
            },
        };
        s
    }

    /// Moves the address in `dst` by the steps from the `i`-th on.
    pub open spec fn place_steps(
        self,
        s: LowState,
        place: Place,
        i: usize,
        n: usize,
        dst: Gpr,
    ) -> LowState
        decreases place, 1nat, n - i,
    {
        let s = if i < n {
            let s = self.place_step(s, place, i, n, dst);
            if s.err is Some {
                s
            } else {
                let s = self.place_steps(s, place, (i + 1) as usize, n, dst);
                s
            }
        } else {
            s
        };
        s
    }

    /// Moves the address in `dst` by one step.
    pub open spec fn place_step(
        self,
        s: LowState,
        place: Place,
        i: usize,
        n: usize,
        dst: Gpr,
    ) -> LowState
        decreases place, 0nat, 0nat,
    {
        let s = if i < place.proj@.len() {
            let s = match place.proj@[i as int] {
                Proj::Field { index, packed, .. } => {
                    let s = if packed.is_some() {
                        s.fail(self.unsup("address of / through a packed-struct field"@))
                    } else {
                        let off = self.field_offset(self.type_at(place, i), index);
                        let s = if off != 0 {
                            let s = s.on(s.text.add_ri(dst, off as i32));
                            s
                        } else {
                            s
                        };
                        s
                    };
                    s
                },
                Proj::Index { at, ty } => {
                    let sliced = self.is_slice(self.type_at(place, i));
                    let in_field = self.field_before(place, i);
                    let s = if sliced {
                        let s = s.on(s.text.mov_load_mem(dst, dst, 0));
                        s
                    } else {
                        s
                    };
                    let s = if sliced && !in_field && self.is_open_type(ty) {
                        s.fail(self.unsup("slice index with an unresolved (generic) element type"@))
                    } else {
                        let stride = if sliced && in_field { self.field_slice_stride(ty) } else { self.natural_stride(ty) };
                        let s = if is_part(at) {
                            let s = s.on(s.text.push(dst));
                            let s = self.operand_to(s, at, Gpr::R10);
                            if s.err is Some {
                                s
                            } else {
                                let s = s.on(s.text.pop(dst));
                                s
                            }
                        } else {
                            let s = self.operand_to(s, at, Gpr::R10);
                            s
                        };
                        if s.err is Some {
                            s
                        } else {
                            let s = self.scale(s, Gpr::R10, stride);
                            let s = s.on(s.text.add_rr(dst, Gpr::R10));
                            s
                        }
                    };
                    s
                },
                Proj::Deref => {
                    let s = s.on(s.text.mov_load_mem(dst, dst, 0));
                    s
                },
                Proj::SliceMeta { which, .. } => {
                    let s = match which {
                        SliceMeta::Ptr => {
                            s
                        },
                        SliceMeta::Len => {
                            let s = s.on(s.text.add_ri(dst, 8));
                            s
                        },
                    };
                    s
                },
                Proj::Payload { .. } => {
                    let off = self.payload_off(place, i, n);
                    let s = if off != 0 {
                        let s = s.on(s.text.add_ri(dst, off as i32));
                        s
                    } else {
                        s
                    };
                    s
                },
            };
            s
        } else {
            s
        };
        s
    }
}

impl FnLower<'_> {
    /// Loads a scalar operand into `dst`.
    pub(crate) fn operand_to(
        &self,
        out: &mut Out,
        op: &Operand,
        dst: Gpr,
    ) -> (r: Result<(), CodegenError>)
        requires
            self.ok(),
            old(out).ok(),
            self.env().operand_ok(*op),
        ensures
            lowered(r, final(out)@, self.env().operand_to(old(out)@, *op, dst)),
            r is Ok ==> final(out).ok() && grew(old(out)@.text.labels, final(out)@.text.labels),
        decreases op, 0nat, 0nat,
    {
        let ghost l0 = out@.text.labels;
        proof {
            grew_refl(l0);
        }
        match op {
            Operand::Copy(p) => {
                let ghost k1 = out@.text.labels;
                match self.load_place_scalar(out, p, dst) {
                    Ok(_) => {},
                    Err(e) => {
                        return Err(e);
                    },
                }
                proof {
                    grew_trans(l0, k1, out@.text.labels);
                }
            },
            Operand::Const(c) => {
                let ghost k2 = out@.text.labels;
                match self.const_to(out, c, dst) {
                    Ok(_) => {},
                    Err(e) => {
                        return Err(e);
                    },
                }
                proof {
                    grew_trans(l0, k2, out@.text.labels);
                }
            },
        }
        Ok(())
    }

    /// Loads a scalar local into `dst`; one that lives nowhere reads as zero.
    pub(crate) fn local_to(&self, out: &mut Out, l: LocalId, dst: Gpr)
        requires
            self.ok(),
            old(out).ok(),
            l.0 < self.env().func.locals@.len(),
        ensures
            final(out)@ == self.env().local_to(old(out)@, l, dst),
            final(out).ok(),
            grew(old(out)@.text.labels, final(out)@.text.labels),
    {
        let ghost l0 = out@.text.labels;
        proof {
            reveal(Env::local_to);
            grew_refl(l0);
        }
        match self.reg_of(l) {
            Some(r) => {
                if r != dst {
                    out.text.mov_rr(dst, r);
                }
            },
            None => {
                match self.home(l) {
                    Some(h) => {
                        let ghost k1 = out@.text.labels;
                        self.load_sized(out, dst, Gpr::Rbp, h, self.local_ty(l));
                        proof {
                            grew_trans(l0, k1, out@.text.labels);
                        }
                    },
                    None => {
                        out.text.mov_ri(dst, 0);
                    },
                }
            },
        }
    }

    /// Loads the scalar at a place into `dst`.
    pub(crate) fn load_place_scalar(
        &self,
        out: &mut Out,
        place: &Place,
        dst: Gpr,
    ) -> (r: Result<(), CodegenError>)
        requires
            self.ok(),
            old(out).ok(),
            self.env().place_ok(*place),
        ensures
            lowered(r, final(out)@, self.env().load_place_scalar(old(out)@, *place, dst)),
            r is Ok ==> final(out).ok() && grew(old(out)@.text.labels, final(out)@.text.labels),
        decreases place, 5nat, 0nat,
    {
        let ghost l0 = out@.text.labels;
        proof {
            grew_refl(l0);
        }
        if place.proj.len() == 0 {
            let ghost k3 = out@.text.labels;
            self.local_to(out, place.base, dst);
            proof {
                grew_trans(l0, k3, out@.text.labels);
            }
        } else {
            let n: usize = place.proj.len();
            match self.last_step(place) {
                LastStep::Packed(pf) => {
                    let ghost k4 = out@.text.labels;
                    match self.load_packed_field(out, place, pf, dst) {
                        Ok(_) => {},
                        Err(e) => {
                            return Err(e);
                        },
                    }
                    proof {
                        grew_trans(l0, k4, out@.text.labels);
                    }
                },
                LastStep::Length(k) => {
                    out.text.mov_ri(dst, k);
                },
                LastStep::Address => {
                    let ghost k5 = out@.text.labels;
                    match self.place_addr_general(out, place, (n - 1) as usize, dst) {
                        Ok(_) => {},
                        Err(e) => {
                            return Err(e);
                        },
                    }
                    proof {
                        grew_trans(l0, k5, out@.text.labels);
                    }
                },
                LastStep::Load => {
                    let ghost k6 = out@.text.labels;
                    match self.place_addr(out, place, n, Gpr::R11) {
                        Ok(_) => {},
                        Err(e) => {
                            return Err(e);
                        },
                    }
                    proof {
                        grew_trans(l0, k6, out@.text.labels);
                    }
                    let ghost k7 = out@.text.labels;
                    self.load_sized(out, dst, Gpr::R11, 0, self.place_type(place));
                    proof {
                        grew_trans(l0, k7, out@.text.labels);
                    }
                },
            }
        }
        Ok(())
    }

    /// Loads a bit field of the packed struct that all but the last step reach.
    pub(crate) fn load_packed_field(
        &self,
        out: &mut Out,
        place: &Place,
        pf: PackedField,
        dst: Gpr,
    ) -> (r: Result<(), CodegenError>)
        requires
            self.ok(),
            old(out).ok(),
            self.env().place_ok(*place),
            place.proj@.len() > 0,
        ensures
            lowered(r, final(out)@, self.env().load_packed_field(old(out)@, *place, pf, dst)),
            r is Ok ==> final(out).ok() && grew(old(out)@.text.labels, final(out)@.text.labels),
        decreases place, 4nat, 0nat,
    {
        let ghost l0 = out@.text.labels;
        proof {
            grew_refl(l0);
        }
        if pf.width == 0 || pf.width > 64 || pf.off > 64 - pf.width {
            return Err(
                self.unsup(
                    "packed bit-field load wider than 64 bits or straddling the 64-bit limb",
                ),
            );
        } else {
            let n: usize = place.proj.len() - 1;
            let ghost k8 = out@.text.labels;
            match self.place_addr_general(out, place, n, dst) {
                Ok(_) => {},
                Err(e) => {
                    return Err(e);
                },
            }
            proof {
                grew_trans(l0, k8, out@.text.labels);
            }
            out.text.mov_load_mem(dst, dst, 0);
            if pf.signed {
                let top: u8 = (64 - pf.off - pf.width) as u8;
                if top != 0 {
                    out.text.shl_ri(dst, top);
                }
                out.text.sar_ri(dst, (64 - pf.width) as u8);
            } else {
                if pf.off != 0 {
                    out.text.shr_ri(dst, pf.off as u8);
                }
                if pf.width < 64 {
                    let ghost k9 = out@.text.labels;
                    self.mask_to(out, dst, low_mask(pf.width));
                    proof {
                        grew_trans(l0, k9, out@.text.labels);
                    }
                }
            }
        }
        Ok(())
    }

    /// Puts the address of what the first `n` steps of a place reach into `dst`.
    pub(crate) fn place_addr_general(
        &self,
        out: &mut Out,
        place: &Place,
        n: usize,
        dst: Gpr,
    ) -> (r: Result<(), CodegenError>)
        requires
            self.ok(),
            old(out).ok(),
            self.env().place_ok(*place),
            n <= place.proj@.len(),
        ensures
            lowered(r, final(out)@, self.env().place_addr_general(old(out)@, *place, n, dst)),
            r is Ok ==> final(out).ok() && grew(old(out)@.text.labels, final(out)@.text.labels),
        decreases place, 3nat, 0nat,
    {
        let ghost l0 = out@.text.labels;
        proof {
            grew_refl(l0);
        }
        if n == 0 {
            match self.home(place.base) {
                Some(h) => {
                    out.text.lea_rbp(dst, h);
                },
                None => {
                    return Err(self.unsup("address of a register-only local"));
                },
            }
        } else {
            let ghost k10 = out@.text.labels;
            match self.place_addr(out, place, n, dst) {
                Ok(_) => {},
                Err(e) => {
                    return Err(e);
                },
            }
            proof {
                grew_trans(l0, k10, out@.text.labels);
            }
        }
        Ok(())
    }

    /// Puts the address of what the first `n` steps of a place reach into `dst`: from
    /// the home of the local, or from the pointer that it holds in a register.
    pub(crate) fn place_addr(
        &self,
        out: &mut Out,
        place: &Place,
        n: usize,
        dst: Gpr,
    ) -> (r: Result<(), CodegenError>)
        requires
            self.ok(),
            old(out).ok(),
            self.env().place_ok(*place),
            1 <= n <= place.proj@.len(),
        ensures
            lowered(r, final(out)@, self.env().place_addr(old(out)@, *place, n, dst)),
            r is Ok ==> final(out).ok() && grew(old(out)@.text.labels, final(out)@.text.labels),
        decreases place, 2nat, 0nat,
    {
        let ghost l0 = out@.text.labels;
        proof {
            grew_refl(l0);
        }
        match self.home(place.base) {
            Some(h) => {
                out.text.lea_rbp(dst, h);
                let ghost k11 = out@.text.labels;
                match self.place_steps(out, place, 0, n, dst) {
                    Ok(_) => {},
                    Err(e) => {
                        return Err(e);
                    },
                }
                proof {
                    grew_trans(l0, k11, out@.text.labels);
                }
            },
            None => {
                match self.reg_of(place.base) {
                    Some(r) => {
                        match &place.proj[0 as usize] {
                            Proj::Deref => {
                                if r != dst {
                                    out.text.mov_rr(dst, r);
                                }
                                let ghost k12 = out@.text.labels;
                                match self.place_steps(out, place, 1, n, dst) {
                                    Ok(_) => {},
                                    Err(e) => {
                                        return Err(e);
                                    },
                                }
                                proof {
                                    grew_trans(l0, k12, out@.text.labels);
                                }
                            },
                            _ => {
                                return Err(
                                    self.unsup("projected place over a register-only non-pointer"),
                                );
                            },
                        }
                    },
                    None => {
                        return Err(self.unsup("projected place over a register-only local"));
                    },
                }
            },
        }
        Ok(())
    }

    /// Moves the address in `dst` by the steps from the `i`-th on.
    pub(crate) fn place_steps(
        &self,
        out: &mut Out,
        place: &Place,
        i: usize,
        n: usize,
        dst: Gpr,
    ) -> (r: Result<(), CodegenError>)
        requires
            self.ok(),
            old(out).ok(),
            self.env().place_ok(*place),
            n <= place.proj@.len(),
        ensures
            lowered(r, final(out)@, self.env().place_steps(old(out)@, *place, i, n, dst)),
            r is Ok ==> final(out).ok() && grew(old(out)@.text.labels, final(out)@.text.labels),
        decreases place, 1nat, n - i,
    {
        let ghost l0 = out@.text.labels;
        proof {
            grew_refl(l0);
        }
        if i < n {
            let ghost k13 = out@.text.labels;
            match self.place_step(out, place, i, n, dst) {
                Ok(_) => {},
                Err(e) => {
                    return Err(e);
                },
            }
            proof {
                grew_trans(l0, k13, out@.text.labels);
            }
            let ghost k14 = out@.text.labels;
            match self.place_steps(out, place, (i + 1) as usize, n, dst) {
                Ok(_) => {},
                Err(e) => {
                    return Err(e);
                },
            }
            proof {
                grew_trans(l0, k14, out@.text.labels);
            }
        }
        Ok(())
    }

    /// Moves the address in `dst` by one step.
    pub(crate) fn place_step(
        &self,
        out: &mut Out,
        place: &Place,
        i: usize,
        n: usize,
        dst: Gpr,
    ) -> (r: Result<(), CodegenError>)
        requires
            self.ok(),
            old(out).ok(),
            self.env().place_ok(*place),
            i < n <= place.proj@.len(),
        ensures
            lowered(r, final(out)@, self.env().place_step(old(out)@, *place, i, n, dst)),
            r is Ok ==> final(out).ok() && grew(old(out)@.text.labels, final(out)@.text.labels),
        decreases place, 0nat, 0nat,
    {
        let ghost l0 = out@.text.labels;
        proof {
            grew_refl(l0);
            proj_ok_at(self.env(), *place, place.proj@.len() as int, i as int);
        }
        if i < place.proj.len() {
            match &place.proj[i as usize] {
                Proj::Field { index, packed, .. } => {
                    if packed.is_some() {
                        return Err(self.unsup("address of / through a packed-struct field"));
                    } else {
                        let off: u64 = self.field_offset(self.type_at(place, i), *index);
                        if off != 0 {
                            out.text.add_ri(dst, off as i32);
                        }
                    }
                },
                Proj::Index { at, ty } => {
                    let sliced: bool = self.is_slice(self.type_at(place, i));
                    let in_field: bool = self.field_before(place, i);
                    if sliced {
                        out.text.mov_load_mem(dst, dst, 0);
                    }
                    if sliced && !in_field && self.is_open_type(*ty) {
                        return Err(
                            self.unsup("slice index with an unresolved (generic) element type"),
                        );
                    } else {
                        let stride: u64 = if sliced && in_field { self.field_slice_stride(*ty) } else { self.natural_stride(*ty) };
                        if part_of_local(at) {
                            out.text.push(dst);
                            let ghost k15 = out@.text.labels;
                            match self.operand_to(out, at, Gpr::R10) {
                                Ok(_) => {},
                                Err(e) => {
                                    return Err(e);
                                },
                            }
                            proof {
                                grew_trans(l0, k15, out@.text.labels);
                            }
                            out.text.pop(dst);
                        } else {
                            let ghost k16 = out@.text.labels;
                            match self.operand_to(out, at, Gpr::R10) {
                                Ok(_) => {},
                                Err(e) => {
                                    return Err(e);
                                },
                            }
                            proof {
                                grew_trans(l0, k16, out@.text.labels);
                            }
                        }
                        let ghost k17 = out@.text.labels;
                        self.scale(out, Gpr::R10, stride);
                        proof {
                            grew_trans(l0, k17, out@.text.labels);
                        }
                        out.text.add_rr(dst, Gpr::R10);
                    }
                },
                Proj::Deref => {
                    out.text.mov_load_mem(dst, dst, 0);
                },
                Proj::SliceMeta { which, .. } => {
                    match *which {
                        SliceMeta::Ptr => {},
                        SliceMeta::Len => {
                            out.text.add_ri(dst, 8);
                        },
                    }
                },
                Proj::Payload { .. } => {
                    let off: u64 = self.payload_off(place, i, n);
                    if off != 0 {
                        out.text.add_ri(dst, off as i32);
                    }
                },
            }
        }
        Ok(())
    }
}

} // verus!
