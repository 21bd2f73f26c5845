//! Scalars: constants, widths, loads and stores.
use vstd::prelude::*;

use crate::show::{const_text, shown_const};
use crate::lower::env::{Env, FnLower, LowState, Out, grew, grew_refl, grew_trans, lowered};
use crate::lower::env::Repr;
use crate::mir::{Const, LocalId};
use crate::reg::Gpr;
use crate::types::TypeId;
use crate::CodegenError;
use vstd::arithmetic::div_mod::{lemma_fundamental_div_mod, lemma_fundamental_div_mod_converse_mod};
use vstd::arithmetic::power2::{
    lemma2_to64, lemma2_to64_rest, lemma_pow2_adds, lemma_pow2_strictly_increases,
    lemma_pow2_unfold, pow2,
};

verus! {

/// The power of two that `n` is.
pub open spec fn log2_of(n: u64) -> Option<u8>
    decreases n,
{
    if n == 0 {
        None
    } else if n == 1 {
        Some(0)
    } else if n % 2 == 0 {
        match log2_of(n / 2) {
            Some(k) => Some((k + 1) as u8),
            None => None,
        }
    } else {
        None
    }
}

/// The power of two that `n` is.
pub(crate) fn log2_exact(n: u64) -> (r: Option<u8>)
    ensures
        r == log2_of(n),
        r matches Some(k) ==> k < 64 && n == pow2(k as nat),
    decreases n,
{
    proof {
        lemma2_to64();
    }
    if n == 0 {
        None
    } else if n == 1 {
        Some(0)
    } else if n % 2 == 0 {
        match log2_exact(n / 2) {
            Some(k) => {
                proof {
                    lemma_pow2_unfold((k + 1) as nat);
                    if k >= 63 {
                        lemma2_to64_rest();
                        assert(n == pow2(64));
                    }
                }
                Some(k + 1)
            },
            None => None,
        }
    } else {
        None
    }
}

/// `2` to the `n`.
pub(crate) fn power2(n: u32) -> (r: u128)
    requires
        n <= 64,
    ensures
        r == pow2(n as nat),
        1 <= r <= 0x1_0000_0000_0000_0000,
{
    let mut r: u128 = 1;
    let mut i: u32 = 0;
    proof {
        lemma2_to64();
        lemma2_to64_rest();
    }
    while i < n
        invariant
            i <= n <= 64,
            r == pow2(i as nat),
            1 <= r <= pow2(i as nat),
            pow2(64) == 0x1_0000_0000_0000_0000,
        decreases n - i,
    {
        proof {
            lemma_pow2_unfold((i + 1) as nat);
            lemma_pow2_grows(i as nat, 63);
            lemma_pow2_unfold(64);
        }
        r = r * 2;
        i = i + 1;
    }
    proof {
        lemma_pow2_grows(n as nat, 64);
    }
    r
}

proof fn lemma_pow2_grows(a: nat, b: nat)
    requires
        a <= b,
    ensures
        pow2(a) <= pow2(b),
{
    if a < b {
        lemma_pow2_strictly_increases(a, b);
    }
}

/// The word whose low `n` bits are set.
pub open spec fn mask_of(n: u32) -> u64 {
    (pow2(n as nat) - 1) as u64
}

/// The word whose low `n` bits are set.
pub(crate) fn low_mask(n: u32) -> (r: u64)
    requires
        n <= 64,
    ensures
        r == mask_of(n),
{
    (power2(n) - 1) as u64
}

/// The word in which `n` bits from bit `off` on are clear and all others set.
pub open spec fn hole_mask(off: u32, n: u32) -> u64 {
    (0xFFFF_FFFF_FFFF_FFFF - (pow2(n as nat) - 1) * pow2(off as nat)) as u64
}

/// The word in which `n` bits from bit `off` on are clear and all others set.
pub(crate) fn off_mask(off: u32, n: u32) -> (r: u64)
    requires
        off + n <= 64,
    ensures
        r == hole_mask(off, n),
{
    let a: u128 = power2(n);
    let b: u128 = power2(off);
    let c: u128 = power2(off + n);
    proof {
        lemma_pow2_adds(n as nat, off as nat);
        assert((a - 1) * b == a * b - b) by (nonlinear_arith);
        assert(a * b == c);
    }
    (0xFFFF_FFFF_FFFF_FFFFu128 - (c - b)) as u64
}

/// A word read as a signed number.
pub open spec fn as_signed(u: u64) -> i64 {
    if u < 0x8000_0000_0000_0000 {
        u as i64
    } else {
        (u - 0x1_0000_0000_0000_0000) as i64
    }
}

/// A word read as a signed number.
pub(crate) fn signed64(u: u64) -> (r: i64)
    ensures
        r == as_signed(u),
{
    if u < 0x8000_0000_0000_0000 {
        u as i64
    } else {
        (u as i128 - 0x1_0000_0000_0000_0000) as i64
    }
}

/// The low `w` bits of `value`, read as signed where `signed` says so.
pub open spec fn wrapped_bits(value: i128, w: u16, signed: bool) -> i64 {
    let m = pow2(w as nat) as int;
    let raw = (value as int) % m;
    if signed && 2 * raw >= m {
        (raw - m) as i64
    } else {
        raw as i64
    }
}

/// The low `w` bits of `value`, read as signed where `signed` says so.
pub(crate) fn wrap_bits(value: i128, w: u16, signed: bool) -> (r: i64)
    requires
        1 <= w < 64,
    ensures
        r == wrapped_bits(value, w, signed),
{
    let m: u128 = power2(w as u32);
    proof {
        lemma2_to64_rest();
        lemma_pow2_grows(w as nat, 63);
    }
    let raw: u128 = if value >= 0 {
        (value as u128) % m
    } else {
        let below: u128 = (-(value + 1)) as u128;
        m - 1 - below % m
    };
    proof {
        if value < 0 {
            let b = -(value + 1);
            lemma_fundamental_div_mod(b, m as int);
            let q = b / (m as int);
            let rem = b % (m as int);
            assert(value == -(b) - 1);
            assert(value == (-(q) - 1) * m + (m - 1 - rem)) by (nonlinear_arith)
                requires
                    b == m * q + rem,
                    value == -b - 1,
            ;
            lemma_fundamental_div_mod_converse_mod(value as int, m as int, -q - 1, m - 1 - rem);
        }
        assert(raw == (value as int) % (m as int));
    }
    if signed && 2 * raw >= m {
        (raw as i128 - m as i128) as i64
    } else {
        raw as i64
    }
}

/// The sum of two displacements, modulo 32 bits.
pub open spec fn sum32(a: i32, b: i32) -> i32 {
    if a + b > i32::MAX {
        (a + b - 0x1_0000_0000) as i32
    } else if a + b < i32::MIN {
        (a + b + 0x1_0000_0000) as i32
    } else {
        (a + b) as i32
    }
}

/// The sum of two displacements, modulo 32 bits.
pub(crate) fn plus(a: i32, b: i32) -> (r: i32)
    ensures
        r == sum32(a, b),
{
    let s: i64 = a as i64 + b as i64;
    if s > 0x7FFF_FFFF {
        (s - 0x1_0000_0000) as i32
    } else if s < -0x8000_0000 {
        (s + 0x1_0000_0000) as i32
    } else {
        s as i32
    }
}

/// The low word of a two-word integer.
pub open spec fn wide_lo(value: i128) -> i64 {
    as_signed(((value as int) % 0x1_0000_0000_0000_0000) as u64)
}

/// The high word of a two-word integer.
pub open spec fn wide_hi(value: i128) -> i64 {
    as_signed((((value as int) / 0x1_0000_0000_0000_0000) % 0x1_0000_0000_0000_0000) as u64)
}

/// The low word of a two-word integer.
pub(crate) fn lo_word(value: i128) -> (r: i64)
    ensures
        r == wide_lo(value),
{
    let u: u64 = if value >= 0 {
        ((value as u128) % 0x1_0000_0000_0000_0000) as u64
    } else {
        let below: u128 = (-(value + 1)) as u128;
        (0xFFFF_FFFF_FFFF_FFFF - below % 0x1_0000_0000_0000_0000) as u64
    };
    assert(u == (value as int) % 0x1_0000_0000_0000_0000);
    signed64(u)
}

/// The high word of a two-word integer.
pub(crate) fn hi_word(value: i128) -> (r: i64)
    ensures
        r == wide_hi(value),
{
    let u: u64 = if value >= 0 {
        ((value as u128) / 0x1_0000_0000_0000_0000) as u64
    } else {
        let below: u128 = (-(value + 1)) as u128;
        (0xFFFF_FFFF_FFFF_FFFF - below / 0x1_0000_0000_0000_0000) as u64
    };
    proof {
        if value >= 0 {
            assert(u == (value as int) / 0x1_0000_0000_0000_0000);
        } else {
            let b = -(value + 1);
            let q = b / 0x1_0000_0000_0000_0000;
            assert((value as int) / 0x1_0000_0000_0000_0000 == -q - 1);
            assert(0 <= q < 0x8000_0000_0000_0000);
            assert((-q - 1) % 0x1_0000_0000_0000_0000 == 0xFFFF_FFFF_FFFF_FFFF - q);
        }
        assert(u == ((value as int) / 0x1_0000_0000_0000_0000) % 0x1_0000_0000_0000_0000);
    }
    signed64(u)
}

impl Env {
    /// The word that an integer constant of a type is.
    pub open spec fn const_int_bits(self, value: i128, ty: TypeId) -> i64 {
        if self.repr_of(ty).width == 0 || self.repr_of(ty).width >= 64 {
            value as i64
        } else {
            wrapped_bits(value, self.repr_of(ty).width, self.repr_of(ty).signed)
        }
    }

    /// Loads a scalar of a type at its width.
    #[verifier::opaque]
    pub open spec fn load_sized(
        self,
        s: LowState,
        dst: Gpr,
        base: Gpr,
        disp: i32,
        ty: TypeId,
    ) -> LowState {
        let signed = self.repr_of(ty).signed;
        let size = self.scalar_store_size(ty);
        let s = if size == 1 && !signed {
            let s = s.on(s.text.movzx8_mem(dst, base, disp));
            s
        } else if size == 1 {
            let s = s.on(s.text.movsx8_mem(dst, base, disp));
            s
        } else if size == 2 && !signed {
            let s = s.on(s.text.movzx16_mem(dst, base, disp));
            s
        } else if size == 2 {
            let s = s.on(s.text.movsx16_mem(dst, base, disp));
            s
        } else if size == 4 && !signed {
            let s = s.on(s.text.mov_load32_mem(dst, base, disp));
            s
        } else if size == 4 {
            let s = s.on(s.text.movsxd_mem(dst, base, disp));
            s
        } else {
            let s = s.on(s.text.mov_load_mem(dst, base, disp));
            s
        };
        s
    }

    /// Stores a scalar of a type at its width.
    #[verifier::opaque]
    pub open spec fn store_sized(
        self,
        s: LowState,
        base: Gpr,
        disp: i32,
        src: Gpr,
        ty: TypeId,
    ) -> LowState {
        let size = self.scalar_store_size(ty);
        let s = if size == 1 {
            let s = s.on(s.text.mov_store8_mem(base, disp, src));
            s
        } else if size == 2 {
            let s = s.on(s.text.mov_store16_mem(base, disp, src));
            s
        } else if size == 4 {
            let s = s.on(s.text.mov_store32_mem(base, disp, src));
            s
        } else {
            let s = s.on(s.text.mov_store_mem(base, disp, src));
            s
        };
        s
    }

    /// Clears all bits of `dst` that are not set in `mask`.
    #[verifier::opaque]
    pub open spec fn mask_to(self, s: LowState, dst: Gpr, mask: u64) -> LowState {
        let s = if mask <= 0x7FFF_FFFF {
            let s = s.on(s.text.and_ri(dst, mask as i32));
            s
        } else {
            let s = s.on(s.text.mov_ri(Gpr::R10, as_signed(mask)));
            let s = s.on(s.text.and_rr(dst, Gpr::R10));
            s
        };
        s
    }

    /// Clears a bit field of `dst`.
    #[verifier::opaque]
    pub open spec fn clear_field(self, s: LowState, dst: Gpr, off: u32, width: u32) -> LowState {
        let s = s.on(s.text.mov_ri(Gpr::R10, as_signed(hole_mask(off, width))));
        let s = s.on(s.text.and_rr(dst, Gpr::R10));
        s
    }

    /// Multiplies `reg` by a stride.
    #[verifier::opaque]
    pub open spec fn scale(self, s: LowState, reg: Gpr, stride: u64) -> LowState {
        let s = match log2_of(stride) {
            Some(k) => {
                let s = if k != 0 {
                    let s = s.on(s.text.shl_ri(reg, k));
                    s
                } else {
                    s
                };
                s
            },
            None => {
                let s = s.on(s.text.imul_rri(reg, reg, stride as i32));
                s
            },
        };
        s
    }

    /// Sign-extends `dst` from an odd width by a pair of shifts. The count is in `rcx`,
    /// but for `rcx` itself.
    #[verifier::opaque]
    pub open spec fn normalize_signed_other(self, s: LowState, dst: Gpr, w: u16) -> LowState {
        let s = if dst == Gpr::Rcx {
            let s = s.on(s.text.shl_ri(dst, (64 - w) as u8));
            let s = s.on(s.text.sar_ri(dst, (64 - w) as u8));
            s
        } else {
            let s = s.on(s.text.mov_ri(Gpr::Rcx, (64 - w) as i64));
            let s = s.on(s.text.shl_cl(dst));
            let s = s.on(s.text.mov_ri(Gpr::Rcx, (64 - w) as i64));
            let s = s.on(s.text.sar_cl(dst));
            s
        };
        s
    }

    /// Zero-extends `dst` from a width of more than half a word by a pair of shifts.
    #[verifier::opaque]
    pub open spec fn normalize_unsigned_other(self, s: LowState, dst: Gpr, w: u16) -> LowState {
        let s = s.on(s.text.shl_ri(dst, (64 - w) as u8));
        let s = s.on(s.text.shr_ri(dst, (64 - w) as u8));
        s
    }

    /// Brings the value in `dst` to the width of a type.
    #[verifier::opaque]
    pub open spec fn normalize(self, s: LowState, dst: Gpr, ty: TypeId) -> LowState {
        let r = self.repr_of(ty);
        let s = if r.width != 0 && r.width < 64 {
            let s = if r.signed {
                let s = if r.width == 8 {
                    let s = s.on(s.text.movsx8(dst, dst));
                    s
                } else if r.width == 16 {
                    let s = s.on(s.text.movsx16(dst, dst));
                    s
                } else if r.width == 32 {
                    let s = s.on(s.text.movsxd(dst, dst));
                    s
                } else {
                    let s = self.normalize_signed_other(s, dst, r.width);
                    s
                };
                s
            } else if r.width == 32 {
                let s = s.on(s.text.mov_rr32(dst, dst));
                s
            } else if r.width < 32 {
                let s = s.on(s.text.and_ri(dst, mask_of(r.width as u32) as i32));
                s
            } else {
                let s = self.normalize_unsigned_other(s, dst, r.width);
                s
            };
            s
        } else {
            s
        };
        s
    }

    /// Puts a scalar constant into `dst`.
    #[verifier::opaque]
    pub open spec fn const_to(self, s: LowState, c: Const, dst: Gpr) -> LowState {
        let s = match c {
            Const::Int { value, ty } => {
                let s = s.on(s.text.mov_ri(dst, self.const_int_bits(value, ty)));
                s
            },
            Const::Bool(b) => {
                let s = s.on(s.text.mov_ri(dst, b as i64));
                s
            },
            Const::Void => {
                let s = s.on(s.text.mov_ri(dst, 0));
                s
            },
            Const::EnumVal { variant, .. } => {
                let s = s.on(s.text.mov_ri(dst, variant as i64));
                s
            },
            Const::ErrVal { tag, .. } => {
                let s = s.on(s.text.mov_ri(dst, tag.0 as i64));
                s
            },
            Const::Undef { .. } => {
                let s = s.on(s.text.mov_ri(dst, 0));
                s
            },
            _ => {
                s.fail(self.unsup3("non-scalar constant "@, shown_const(c), ""@))
            },
        };
        s
    }

    /// Stores `rax` to the register or home of a scalar.
    #[verifier::opaque]
    pub open spec fn store_scalar_result(self, s: LowState, dst: LocalId) -> LowState {
        let s = match self.reg_of(dst) {
            Some(r) => {
                let s = if r != Gpr::Rax {
                    let s = s.on(s.text.mov_rr(r, Gpr::Rax));
                    s
                } else {
                    s
                };
                s
            },
            None => {
                let s = match self.home(dst) {
                    Some(h) => {
                        let s = self.store_sized(s, Gpr::Rbp, h, Gpr::Rax, self.local_ty(dst));
                        s
                    },
                    None => {
                        s
                    },
                };
                s
            },
        };
        s
    }
}

impl FnLower<'_> {
    /// The word that an integer constant of a type is.
    pub(crate) fn const_int_bits(&self, value: i128, ty: TypeId) -> (r: i64)
        requires
            self.ok(),
            self.env().prog.arena.has(ty),
        ensures
            r == self.env().const_int_bits(value, ty),
    {
        if self.repr_of(ty).width == 0 || self.repr_of(ty).width >= 64 {
            value as i64
        } else {
            wrap_bits(value, self.repr_of(ty).width, self.repr_of(ty).signed)
        }
    }

    /// Loads a scalar of a type at its width.
    pub(crate) fn load_sized(&self, out: &mut Out, dst: Gpr, base: Gpr, disp: i32, ty: TypeId)
        requires
            self.ok(),
            old(out).ok(),
            self.env().prog.arena.has(ty),
        ensures
            final(out)@ == self.env().load_sized(old(out)@, dst, base, disp, ty),
            final(out).ok(),
            grew(old(out)@.text.labels, final(out)@.text.labels),
    {
        let ghost l0 = out@.text.labels;
        proof {
            reveal(Env::load_sized);
            grew_refl(l0);
        }
        let signed: bool = self.repr_of(ty).signed;
        let size: u64 = self.scalar_store_size(ty);
        if size == 1 && !signed {
            out.text.movzx8_mem(dst, base, disp);
        } else if size == 1 {
            out.text.movsx8_mem(dst, base, disp);
        } else if size == 2 && !signed {
            out.text.movzx16_mem(dst, base, disp);
        } else if size == 2 {
            out.text.movsx16_mem(dst, base, disp);
        } else if size == 4 && !signed {
            out.text.mov_load32_mem(dst, base, disp);
        } else if size == 4 {
            out.text.movsxd_mem(dst, base, disp);
        } else {
            out.text.mov_load_mem(dst, base, disp);
        }
    }

    /// Stores a scalar of a type at its width.
    pub(crate) fn store_sized(&self, out: &mut Out, base: Gpr, disp: i32, src: Gpr, ty: TypeId)
        requires
            self.ok(),
            old(out).ok(),
            self.env().prog.arena.has(ty),
        ensures
            final(out)@ == self.env().store_sized(old(out)@, base, disp, src, ty),
            final(out).ok(),
            grew(old(out)@.text.labels, final(out)@.text.labels),
    {
        let ghost l0 = out@.text.labels;
        proof {
            reveal(Env::store_sized);
            grew_refl(l0);
        }
        let size: u64 = self.scalar_store_size(ty);
        if size == 1 {
            out.text.mov_store8_mem(base, disp, src);
        } else if size == 2 {
            out.text.mov_store16_mem(base, disp, src);
        } else if size == 4 {
            out.text.mov_store32_mem(base, disp, src);
        } else {
            out.text.mov_store_mem(base, disp, src);
        }
    }

    /// Clears all bits of `dst` that are not set in `mask`.
    pub(crate) fn mask_to(&self, out: &mut Out, dst: Gpr, mask: u64)
        requires
            self.ok(),
            old(out).ok(),
        ensures
            final(out)@ == self.env().mask_to(old(out)@, dst, mask),
            final(out).ok(),
            grew(old(out)@.text.labels, final(out)@.text.labels),
    {
        let ghost l0 = out@.text.labels;
        proof {
            reveal(Env::mask_to);
            grew_refl(l0);
        }
        if mask <= 0x7FFF_FFFF {
            out.text.and_ri(dst, mask as i32);
        } else {
            out.text.mov_ri(Gpr::R10, signed64(mask));
            out.text.and_rr(dst, Gpr::R10);
        }
    }

    /// Clears a bit field of `dst`.
    pub(crate) fn clear_field(&self, out: &mut Out, dst: Gpr, off: u32, width: u32)
        requires
            self.ok(),
            old(out).ok(),
            off + width <= 64,
        ensures
            final(out)@ == self.env().clear_field(old(out)@, dst, off, width),
            final(out).ok(),
            grew(old(out)@.text.labels, final(out)@.text.labels),
    {
        let ghost l0 = out@.text.labels;
        proof {
            reveal(Env::clear_field);
            grew_refl(l0);
        }
        out.text.mov_ri(Gpr::R10, signed64(off_mask(off, width)));
        out.text.and_rr(dst, Gpr::R10);
    }

    /// Multiplies `reg` by a stride.
    pub(crate) fn scale(&self, out: &mut Out, reg: Gpr, stride: u64)
        requires
            self.ok(),
            old(out).ok(),
        ensures
            final(out)@ == self.env().scale(old(out)@, reg, stride),
            final(out).ok(),
            grew(old(out)@.text.labels, final(out)@.text.labels),
    {
        let ghost l0 = out@.text.labels;
        proof {
            reveal(Env::scale);
            grew_refl(l0);
        }
        match log2_exact(stride) {
            Some(k) => {
                if k != 0 {
                    out.text.shl_ri(reg, k);
                }
            },
            None => {
                out.text.imul_rri(reg, reg, stride as i32);
            },
        }
    }

    /// Sign-extends `dst` from an odd width by a pair of shifts.
    pub(crate) fn normalize_signed_other(&self, out: &mut Out, dst: Gpr, w: u16)
        requires
            self.ok(),
            old(out).ok(),
            w <= 64,
        ensures
            final(out)@ == self.env().normalize_signed_other(old(out)@, dst, w),
            final(out).ok(),
            grew(old(out)@.text.labels, final(out)@.text.labels),
    {
        let ghost l0 = out@.text.labels;
        proof {
            reveal(Env::normalize_signed_other);
            grew_refl(l0);
        }
        if dst == Gpr::Rcx {
            out.text.shl_ri(dst, (64 - w) as u8);
            out.text.sar_ri(dst, (64 - w) as u8);
        } else {
            out.text.mov_ri(Gpr::Rcx, (64 - w) as i64);
            out.text.shl_cl(dst);
            out.text.mov_ri(Gpr::Rcx, (64 - w) as i64);
            out.text.sar_cl(dst);
        }
    }

    /// Zero-extends `dst` from a width of more than half a word by a pair of shifts.
    pub(crate) fn normalize_unsigned_other(&self, out: &mut Out, dst: Gpr, w: u16)
        requires
            self.ok(),
            old(out).ok(),
            w <= 64,
        ensures
            final(out)@ == self.env().normalize_unsigned_other(old(out)@, dst, w),
            final(out).ok(),
            grew(old(out)@.text.labels, final(out)@.text.labels),
    {
        let ghost l0 = out@.text.labels;
        proof {
            reveal(Env::normalize_unsigned_other);
            grew_refl(l0);
        }
        out.text.shl_ri(dst, (64 - w) as u8);
        out.text.shr_ri(dst, (64 - w) as u8);
    }

    /// Brings the value in `dst` to the width of a type.
    pub(crate) fn normalize(&self, out: &mut Out, dst: Gpr, ty: TypeId)
        requires
            self.ok(),
            old(out).ok(),
            self.env().prog.arena.has(ty),
        ensures
            final(out)@ == self.env().normalize(old(out)@, dst, ty),
            final(out).ok(),
            grew(old(out)@.text.labels, final(out)@.text.labels),
    {
        let ghost l0 = out@.text.labels;
        proof {
            reveal(Env::normalize);
            grew_refl(l0);
        }
        let r: Repr = self.repr_of(ty);
        if r.width != 0 && r.width < 64 {
            if r.signed {
                if r.width == 8 {
                    out.text.movsx8(dst, dst);
                } else if r.width == 16 {
                    out.text.movsx16(dst, dst);
                } else if r.width == 32 {
                    out.text.movsxd(dst, dst);
                } else {
                    let ghost k1 = out@.text.labels;
                    self.normalize_signed_other(out, dst, r.width);
                    proof {
                        grew_trans(l0, k1, out@.text.labels);
                    }
                }
            } else if r.width == 32 {
                out.text.mov_rr32(dst, dst);
            } else if r.width < 32 {
                out.text.and_ri(dst, low_mask(r.width as u32) as i32);
            } else {
                let ghost k2 = out@.text.labels;
                self.normalize_unsigned_other(out, dst, r.width);
                proof {
                    grew_trans(l0, k2, out@.text.labels);
                }
            }
        }
    }

    /// Puts a scalar constant into `dst`.
    pub(crate) fn const_to(
        &self,
        out: &mut Out,
        c: &Const,
        dst: Gpr,
    ) -> (r: Result<(), CodegenError>)
        requires
            self.ok(),
            old(out).ok(),
            self.env().const_ok(*c),
        ensures
            lowered(r, final(out)@, self.env().const_to(old(out)@, *c, dst)),
            r is Ok ==> final(out).ok() && grew(old(out)@.text.labels, final(out)@.text.labels),
    {
        let ghost l0 = out@.text.labels;
        proof {
            reveal(Env::const_to);
            grew_refl(l0);
        }
        match *c {
            Const::Int { value, ty } => {
                out.text.mov_ri(dst, self.const_int_bits(value, ty));
            },
            Const::Bool(b) => {
                out.text.mov_ri(dst, b as i64);
            },
            Const::Void => {
                out.text.mov_ri(dst, 0);
            },
            Const::EnumVal { variant, .. } => {
                out.text.mov_ri(dst, variant as i64);
            },
            Const::ErrVal { tag, .. } => {
                out.text.mov_ri(dst, tag.0 as i64);
            },
            Const::Undef { .. } => {
                out.text.mov_ri(dst, 0);
            },
            _ => {
                return Err(self.unsup3("non-scalar constant ", const_text(*c).as_str(), ""));
            },
        }
        Ok(())
    }

    /// Stores `rax` to the register or home of a scalar.
    pub(crate) fn store_scalar_result(&self, out: &mut Out, dst: LocalId)
        requires
            self.ok(),
            old(out).ok(),
            dst.0 < self.env().func.locals@.len(),
        ensures
            final(out)@ == self.env().store_scalar_result(old(out)@, dst),
            final(out).ok(),
            grew(old(out)@.text.labels, final(out)@.text.labels),
    {
        let ghost l0 = out@.text.labels;
        proof {
            reveal(Env::store_scalar_result);
            grew_refl(l0);
        }
        match self.reg_of(dst) {
            Some(r) => {
                if r != Gpr::Rax {
                    out.text.mov_rr(r, Gpr::Rax);
                }
            },
            None => {
                match self.home(dst) {
                    Some(h) => {
                        let ghost k2 = out@.text.labels;
                        self.store_sized(out, Gpr::Rbp, h, Gpr::Rax, self.local_ty(dst));
                        proof {
                            grew_trans(l0, k2, out@.text.labels);
                        }
                    },
                    None => {},
                }
            },
        }
    }
}

} // verus!
