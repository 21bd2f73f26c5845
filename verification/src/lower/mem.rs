//! Copies and zeros of memory.
use vstd::prelude::*;

use crate::lower::env::{Env, FnLower, LowState, Out, grew, grew_refl, grew_trans};
use crate::lower::scalar::{plus, sum32};
use crate::reg::Gpr;

verus! {

impl Env {
    /// Zeros from `off` on, word by word, then byte by byte.
    pub open spec fn zero_from(self, s: LowState, dst: Gpr, off: i32, rem: i32) -> LowState
        decreases rem,
    {
        if rem >= 8 {
            self.zero_from(
                s.on(s.text.mov_store_mem(dst, off, Gpr::Rax)),
                dst,
                sum32(off, 8),
                (rem - 8) as i32,
            )
        } else if rem > 0 {
            self.zero_from(
                s.on(s.text.mov_store8_mem(dst, off, Gpr::Rax)),
                dst,
                sum32(off, 1),
                (rem - 1) as i32,
            )
        } else {
            s
        }
    }

    /// Copies stack bytes from `off` on, word by word, then byte by byte.
    pub open spec fn stack_copy_from(
        self,
        s: LowState,
        src: i32,
        dst: i32,
        off: i32,
        rem: i32,
    ) -> LowState
        decreases rem,
    {
        if rem >= 8 {
            let s = s.on(s.text.mov_load(Gpr::Rax, sum32(src, off)));
            let s = s.on(s.text.mov_store(sum32(dst, off), Gpr::Rax));
            self.stack_copy_from(s, src, dst, sum32(off, 8), (rem - 8) as i32)
        } else if rem > 0 {
            let s = s.on(s.text.movzx8_mem(Gpr::Rax, Gpr::Rbp, sum32(src, off)));
            let s = s.on(s.text.mov_store8_mem(Gpr::Rbp, sum32(dst, off), Gpr::Rax));
            self.stack_copy_from(s, src, dst, sum32(off, 1), (rem - 1) as i32)
        } else {
            s
        }
    }

    /// Copies bytes at `rcx` to the cursor from `off` on, word by word, then byte by
    /// byte.
    pub open spec fn cursor_copy_from(self, s: LowState, off: i32, rem: i32) -> LowState
        decreases rem,
    {
        if rem >= 8 {
            let s = s.on(s.text.mov_load_mem(Gpr::Rdx, Gpr::Rcx, off));
            let s = s.on(s.text.mov_store_mem(Gpr::R11, off, Gpr::Rdx));
            self.cursor_copy_from(s, sum32(off, 8), (rem - 8) as i32)
        } else if rem > 0 {
            let s = s.on(s.text.movzx8_mem(Gpr::Rdx, Gpr::Rcx, off));
            let s = s.on(s.text.mov_store8_mem(Gpr::R11, off, Gpr::Rdx));
            self.cursor_copy_from(s, sum32(off, 1), (rem - 1) as i32)
        } else {
            s
        }
    }

    /// Writes `size` zero bytes to `[dst]`.
    #[verifier::opaque]
    pub open spec fn zero_bytes(self, s: LowState, dst: Gpr, size: u64) -> LowState {
        self.zero_from(s.on(s.text.mov_ri(Gpr::Rax, 0)), dst, 0, size as i32)
    }

    /// Copies `size` bytes from one frame offset to another.
    #[verifier::opaque]
    pub open spec fn copy_stack_to_home(
        self,
        s: LowState,
        src: i32,
        dst: i32,
        size: u64,
    ) -> LowState {
        self.stack_copy_from(s, src, dst, 0, size as i32)
    }

    /// Copies `len` bytes from `[src]` to the cursor and advances it.
    #[verifier::opaque]
    pub open spec fn copy_to_cursor(self, s: LowState, src: Gpr, len: u64) -> LowState {
        let s = if src != Gpr::Rcx {
            s.on(s.text.mov_rr(Gpr::Rcx, src))
        } else {
            s
        };
        let s = self.cursor_copy_from(s, 0, len as i32);
        if len != 0 {
            s.on(s.text.add_ri(Gpr::R11, len as i32))
        } else {
            s
        }
    }
}

impl FnLower<'_> {
    /// Writes `size` zero bytes to `[dst]`.
    pub(crate) fn zero_bytes(&self, out: &mut Out, dst: Gpr, size: u64)
        requires
            old(out).ok(),
        ensures
            final(out)@ == self.env().zero_bytes(old(out)@, dst, size),
            final(out).ok(),
            grew(old(out)@.text.labels, final(out)@.text.labels),
    {
        let ghost want = self.env().zero_bytes(out@, dst, size);
        proof {
            reveal(Env::zero_bytes);
            grew_refl(out@.text.labels);
        }
        out.text.mov_ri(Gpr::Rax, 0);
        let mut off: i32 = 0;
        let mut rem: i32 = size as i32;
        while rem > 0
            invariant
                out.ok(),
                out@.text.labels == old(out)@.text.labels,
                want == self.env().zero_from(out@, dst, off, rem),
            decreases rem,
        {
            if rem >= 8 {
                out.text.mov_store_mem(dst, off, Gpr::Rax);
                off = plus(off, 8);
                rem = rem - 8;
            } else {
                out.text.mov_store8_mem(dst, off, Gpr::Rax);
                off = plus(off, 1);
                rem = rem - 1;
            }
        }
    }

    /// Copies `size` bytes from one frame offset to another.
    pub(crate) fn copy_stack_to_home(&self, out: &mut Out, src: i32, dst: i32, size: u64)
        requires
            old(out).ok(),
        ensures
            final(out)@ == self.env().copy_stack_to_home(old(out)@, src, dst, size),
            final(out).ok(),
            grew(old(out)@.text.labels, final(out)@.text.labels),
    {
        let ghost want = self.env().copy_stack_to_home(out@, src, dst, size);
        proof {
            reveal(Env::copy_stack_to_home);
            grew_refl(out@.text.labels);
        }
        let mut off: i32 = 0;
        let mut rem: i32 = size as i32;
        while rem > 0
            invariant
                out.ok(),
                out@.text.labels == old(out)@.text.labels,
                want == self.env().stack_copy_from(out@, src, dst, off, rem),
            decreases rem,
        {
            if rem >= 8 {
                out.text.mov_load(Gpr::Rax, plus(src, off));
                out.text.mov_store(plus(dst, off), Gpr::Rax);
                off = plus(off, 8);
                rem = rem - 8;
            } else {
                out.text.movzx8_mem(Gpr::Rax, Gpr::Rbp, plus(src, off));
                out.text.mov_store8_mem(Gpr::Rbp, plus(dst, off), Gpr::Rax);
                off = plus(off, 1);
                rem = rem - 1;
            }
        }
    }

    /// Copies `len` bytes from `[src]` to the cursor and advances it.
    pub(crate) fn copy_to_cursor(&self, out: &mut Out, src: Gpr, len: u64)
        requires
            old(out).ok(),
        ensures
            final(out)@ == self.env().copy_to_cursor(old(out)@, src, len),
            final(out).ok(),
            grew(old(out)@.text.labels, final(out)@.text.labels),
    {
        proof {
            reveal(Env::copy_to_cursor);
            grew_refl(out@.text.labels);
        }
        if src != Gpr::Rcx {
            out.text.mov_rr(Gpr::Rcx, src);
        }
        let ghost copied = self.env().cursor_copy_from(out@, 0, len as i32);
        let mut off: i32 = 0;
        let mut rem: i32 = len as i32;
        while rem > 0
            invariant
                out.ok(),
                out@.text.labels == old(out)@.text.labels,
                copied == self.env().cursor_copy_from(out@, off, rem),
            decreases rem,
        {
            if rem >= 8 {
                out.text.mov_load_mem(Gpr::Rdx, Gpr::Rcx, off);
                out.text.mov_store_mem(Gpr::R11, off, Gpr::Rdx);
                off = plus(off, 8);
                rem = rem - 8;
            } else {
                out.text.movzx8_mem(Gpr::Rdx, Gpr::Rcx, off);
                out.text.mov_store8_mem(Gpr::R11, off, Gpr::Rdx);
                off = plus(off, 1);
                rem = rem - 1;
            }
        }
        if len != 0 {
            out.text.add_ri(Gpr::R11, len as i32);
        }
    }
}

impl Env {
    /// Copies whole words.
    pub open spec fn copy_words(
        self,
        s: LowState,
        dst: Gpr,
        src: Gpr,
        off: i32,
        rem: i32,
    ) -> LowState
        decreases rem,
    {
        let s = if rem >= 8 {
            let s = s.on(s.text.mov_load_mem(Gpr::Rdx, src, off));
            let s = s.on(s.text.mov_store_mem(dst, off, Gpr::Rdx));
            let s = self.copy_words(s, dst, src, sum32(off, 8), (rem - 8) as i32);
            s
        } else {
            s
        };
        s
    }

    /// Copies fewer bytes than a word.
    #[verifier::opaque]
    pub open spec fn copy_tail(
        self,
        s: LowState,
        dst: Gpr,
        src: Gpr,
        off: i32,
        rem: i32,
    ) -> LowState {
        let s = if rem >= 4 {
            let s = s.on(s.text.mov_load32_mem(Gpr::Rdx, src, off));
            let s = s.on(s.text.mov_store32_mem(dst, off, Gpr::Rdx));
            s
        } else {
            s
        };
        let off2 = if rem >= 4 { (off + 4) as i32 } else { off };
        let rem2 = if rem >= 4 { (rem - 4) as i32 } else { rem };
        let s = if rem2 >= 2 {
            let s = s.on(s.text.movzx16_mem(Gpr::Rdx, src, off2));
            let s = s.on(s.text.mov_store16_mem(dst, off2, Gpr::Rdx));
            s
        } else {
            s
        };
        let off3 = if rem2 >= 2 { (off2 + 2) as i32 } else { off2 };
        let rem3 = if rem2 >= 2 { (rem2 - 2) as i32 } else { rem2 };
        let s = if rem3 >= 1 {
            let s = s.on(s.text.movzx8_mem(Gpr::Rdx, src, off3));
            let s = s.on(s.text.mov_store8_mem(dst, off3, Gpr::Rdx));
            s
        } else {
            s
        };
        s
    }

    /// Copies `size` bytes from `[src]` to `[dst]`: up to 64 unrolled, more by `rep movsb`.
    #[verifier::opaque]
    pub open spec fn memcpy(self, s: LowState, dst: Gpr, src: Gpr, size: u64) -> LowState {
        let s = if size != 0 {
            let s = if size <= 64 {
                let s = self.copy_words(s, dst, src, 0, size as i32);
                let s = self.copy_tail(s, dst, src, (size / 8 * 8) as i32, (size % 8) as i32);
                s
            } else {
                let s = s.on(s.text.mov_rr(Gpr::Rdi, dst));
                let s = s.on(s.text.mov_rr(Gpr::Rsi, src));
                let s = s.on(s.text.mov_ri(Gpr::Rcx, size as i64));
                let s = s.on(s.text.rep_movsb());
                s
            };
            s
        } else {
            s
        };
        s
    }
}

impl FnLower<'_> {
    /// Copies whole words.
    pub(crate) fn copy_words(&self, out: &mut Out, dst: Gpr, src: Gpr, off: i32, rem: i32)
        requires
            self.ok(),
            old(out).ok(),
        ensures
            final(out)@ == self.env().copy_words(old(out)@, dst, src, off, rem),
            final(out).ok(),
            grew(old(out)@.text.labels, final(out)@.text.labels),
        decreases rem,
    {
        let ghost l0 = out@.text.labels;
        proof {
            grew_refl(l0);
        }
        if rem >= 8 {
            out.text.mov_load_mem(Gpr::Rdx, src, off);
            out.text.mov_store_mem(dst, off, Gpr::Rdx);
            let ghost k1 = out@.text.labels;
            self.copy_words(out, dst, src, plus(off, 8), (rem - 8) as i32);
            proof {
                grew_trans(l0, k1, out@.text.labels);
            }
        }
    }

    /// Copies fewer bytes than a word.
    pub(crate) fn copy_tail(&self, out: &mut Out, dst: Gpr, src: Gpr, off: i32, rem: i32)
        requires
            self.ok(),
            old(out).ok(),
            0 <= rem < 8,
            0 <= off <= 64,
        ensures
            final(out)@ == self.env().copy_tail(old(out)@, dst, src, off, rem),
            final(out).ok(),
            grew(old(out)@.text.labels, final(out)@.text.labels),
    {
        let ghost l0 = out@.text.labels;
        proof {
            reveal(Env::copy_tail);
            grew_refl(l0);
        }
        if rem >= 4 {
            out.text.mov_load32_mem(Gpr::Rdx, src, off);
            out.text.mov_store32_mem(dst, off, Gpr::Rdx);
        }
        let off2: i32 = if rem >= 4 { (off + 4) as i32 } else { off };
        let rem2: i32 = if rem >= 4 { (rem - 4) as i32 } else { rem };
        if rem2 >= 2 {
            out.text.movzx16_mem(Gpr::Rdx, src, off2);
            out.text.mov_store16_mem(dst, off2, Gpr::Rdx);
        }
        let off3: i32 = if rem2 >= 2 { (off2 + 2) as i32 } else { off2 };
        let rem3: i32 = if rem2 >= 2 { (rem2 - 2) as i32 } else { rem2 };
        if rem3 >= 1 {
            out.text.movzx8_mem(Gpr::Rdx, src, off3);
            out.text.mov_store8_mem(dst, off3, Gpr::Rdx);
        }
    }

    /// Copies `size` bytes from `[src]` to `[dst]`: up to 64 unrolled, more by `rep movsb`.
    pub(crate) fn memcpy(&self, out: &mut Out, dst: Gpr, src: Gpr, size: u64)
        requires
            self.ok(),
            old(out).ok(),
            dst != Gpr::Rdx,
            src != Gpr::Rdx,
        ensures
            final(out)@ == self.env().memcpy(old(out)@, dst, src, size),
            final(out).ok(),
            grew(old(out)@.text.labels, final(out)@.text.labels),
    {
        let ghost l0 = out@.text.labels;
        proof {
            reveal(Env::memcpy);
            grew_refl(l0);
        }
        if size != 0 {
            if size <= 64 {
                let ghost k2 = out@.text.labels;
                self.copy_words(out, dst, src, 0, size as i32);
                proof {
                    grew_trans(l0, k2, out@.text.labels);
                }
                let ghost k3 = out@.text.labels;
                self.copy_tail(out, dst, src, (size / 8 * 8) as i32, (size % 8) as i32);
                proof {
                    grew_trans(l0, k3, out@.text.labels);
                }
            } else {
                out.text.mov_rr(Gpr::Rdi, dst);
                out.text.mov_rr(Gpr::Rsi, src);
                out.text.mov_ri(Gpr::Rcx, size as i64);
                out.text.rep_movsb();
            }
        }
    }
}

} // verus!
