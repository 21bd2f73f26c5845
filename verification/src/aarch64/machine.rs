//! What AArch64 machine code does: how instruction words read, and a processor that runs
//! straight-line code.
use vstd::prelude::*;

use crate::aarch64::encode::{MemSize, lane_value};
use crate::aarch64::fields::bits_at;
use crate::bytes::{le32, le32_reads_back, rd32, wrap64};
use crate::lower::effects::low_bits;
use crate::machine::{
    Bytes, SPAN, fetch, in_space, is_signed64, low_bytes, patch, signed64, toward_zero,
};
use vstd::arithmetic::power2::pow2;

verus! {

/// An operation of two operands.
pub enum Alu {
    Plus,
    Minus,
    And,
    Or,
    OrNot,
    Xor,
    SignedOver,
    Over,
    Left,
    Right,
    SignedRight,
}

/// What an instruction does.
#[allow(inconsistent_fields)]
pub enum Act {
    Binary { op: Alu, rd: int, rn: int, rm: int },
    /// The difference, for the flags too.
    Compare { rd: int, rn: int, rm: int },
    /// The difference from a number, for the flags too.
    CompareImm { rd: int, rn: int, value: int },
    PlusImm { rd: int, rn: int, value: int },
    /// The sum of a register and one that is shifted to the left.
    PlusShifted { rd: int, rn: int, rm: int, by: int },
    /// The sum with a register, of which each may be the stack pointer.
    PlusBase { rd: int, rn: int, rm: int },
    /// The sum with a number, for the flags too.
    PlusFlags { rd: int, rn: int, value: int },
    /// `ra` plus or minus the product.
    TimesPlus { minus: bool, rd: int, rn: int, rm: int, ra: int },
    /// A shift to the left by a number.
    LeftImm { rd: int, rn: int, by: int },
    /// The low bits, extended.
    Low { signed: bool, rd: int, rn: int, width: int },
    /// Sixteen bits to a part; the others stay or are cleared.
    Lane { keep: bool, rd: int, value: int, part: int },
    Load { signed: bool, size: MemSize, rt: int, rn: int, off: int },
    Store { size: MemSize, rt: int, rn: int, off: int },
    LoadAt { signed: bool, size: MemSize, rt: int, rn: int, rm: int },
    StoreAt { size: MemSize, rt: int, rn: int, rm: int },
    /// One where the condition does not hold, else zero.
    Condition { rd: int, unless: int },
    /// Nothing is said of it.
    Unknown,
}

/// The size with a number.
pub open spec fn size_of(n: int) -> MemSize {
    if n == 0 {
        MemSize::B
    } else if n == 1 {
        MemSize::H
    } else if n == 2 {
        MemSize::W
    } else {
        MemSize::X
    }
}

/// Nine bits read as a signed number.
pub open spec fn signed9(v: int) -> int {
    if v < 256 {
        v
    } else {
        v - 512
    }
}

/// An instruction on three registers.
pub open spec fn read_registers(w: u32, rd: int, rn: int, rm: int) -> Act {
    let op = w & 0xFFE0_FC00;
    if op == 0x8B00_0000 {
        Act::Binary { op: Alu::Plus, rd, rn, rm }
    } else if op == 0xCB00_0000 {
        Act::Binary { op: Alu::Minus, rd, rn, rm }
    } else if op == 0x8A00_0000 {
        Act::Binary { op: Alu::And, rd, rn, rm }
    } else if op == 0xAA00_0000 {
        Act::Binary { op: Alu::Or, rd, rn, rm }
    } else if op == 0xAA20_0000 {
        Act::Binary { op: Alu::OrNot, rd, rn, rm }
    } else if op == 0xCA00_0000 {
        Act::Binary { op: Alu::Xor, rd, rn, rm }
    } else if op == 0x9AC0_0C00 {
        Act::Binary { op: Alu::SignedOver, rd, rn, rm }
    } else if op == 0x9AC0_0800 {
        Act::Binary { op: Alu::Over, rd, rn, rm }
    } else if op == 0x9AC0_2000 {
        Act::Binary { op: Alu::Left, rd, rn, rm }
    } else if op == 0x9AC0_2400 {
        Act::Binary { op: Alu::Right, rd, rn, rm }
    } else if op == 0x9AC0_2800 {
        Act::Binary { op: Alu::SignedRight, rd, rn, rm }
    } else if op == 0xEB00_0000 {
        Act::Compare { rd, rn, rm }
    } else if op == 0x8B20_6000 {
        Act::PlusBase { rd, rn, rm }
    } else if w & 0xFFE0_0000 == 0x8B00_0000 {
        Act::PlusShifted { rd, rn, rm, by: bits_at(w, 10, 6) as int }
    } else {
        Act::Unknown
    }
}

/// A load or store.
pub open spec fn read_access(w: u32, rt: int, rn: int, rm: int) -> Act {
    let size = size_of(bits_at(w, 30, 2) as int);
    let scaled = bits_at(w, 10, 12) * size.width();
    let unscaled = signed9(bits_at(w, 12, 9) as int);
    if bits_at(w, 24, 8) % 64 == 0x39 {
        if w & 0x3FC0_0000 == 0x3900_0000 {
            Act::Store { size, rt, rn, off: scaled }
        } else if w & 0x3FC0_0000 == 0x3940_0000 {
            Act::Load { signed: false, size, rt, rn, off: scaled }
        } else if w & 0x3FC0_0000 == 0x3980_0000 && size != MemSize::X {
            Act::Load { signed: true, size, rt, rn, off: scaled }
        } else {
            Act::Unknown
        }
    } else if bits_at(w, 10, 2) == 0 {
        if w & 0x3FE0_0C00 == 0x3800_0000 {
            Act::Store { size, rt, rn, off: unscaled }
        } else if w & 0x3FE0_0C00 == 0x3840_0000 {
            Act::Load { signed: false, size, rt, rn, off: unscaled }
        } else if w & 0x3FE0_0C00 == 0x3880_0000 && size != MemSize::X {
            Act::Load { signed: true, size, rt, rn, off: unscaled }
        } else {
            Act::Unknown
        }
    } else if w & 0x3FE0_FC00 == 0x3820_6800 {
        Act::StoreAt { size, rt, rn, rm }
    } else if w & 0x3FE0_FC00 == 0x3860_6800 {
        Act::LoadAt { signed: false, size, rt, rn, rm }
    } else if w & 0x3FE0_FC00 == 0x38A0_6800 && size != MemSize::X {
        Act::LoadAt { signed: true, size, rt, rn, rm }
    } else {
        Act::Unknown
    }
}

/// What an instruction word does.
#[verifier::opaque]
pub open spec fn read(w: u32) -> Act {
    let top = bits_at(w, 24, 8);
    let rd = bits_at(w, 0, 5) as int;
    let rn = bits_at(w, 5, 5) as int;
    let rm = bits_at(w, 16, 5) as int;
    if top == 0x9B && w & 0xFFE0_8000 == 0x9B00_0000 {
        Act::TimesPlus { minus: false, rd, rn, rm, ra: bits_at(w, 10, 5) as int }
    } else if top == 0x9B && w & 0xFFE0_8000 == 0x9B00_8000 {
        Act::TimesPlus { minus: true, rd, rn, rm, ra: bits_at(w, 10, 5) as int }
    } else if top == 0x91 && w & 0xFFC0_0000 == 0x9100_0000 {
        Act::PlusImm { rd, rn, value: bits_at(w, 10, 12) as int }
    } else if top == 0x91 && w & 0xFFC0_0000 == 0x9140_0000 {
        Act::PlusImm { rd, rn, value: bits_at(w, 10, 12) * 0x1000 }
    } else if top == 0xD1 && w & 0xFFC0_0000 == 0xD100_0000 {
        Act::PlusImm { rd, rn, value: -(bits_at(w, 10, 12) as int) }
    } else if top == 0xB1 && w & 0xFFC0_0000 == 0xB100_0000 {
        Act::PlusFlags { rd, rn, value: bits_at(w, 10, 12) as int }
    } else if top == 0xF1 && w & 0xFFC0_0000 == 0xF100_0000 {
        Act::CompareImm { rd, rn, value: bits_at(w, 10, 12) as int }
    } else if top == 0xD3 && w & 0xFFC0_0000 == 0xD340_0000 && bits_at(w, 16, 6) == 0 {
        Act::Low { signed: false, rd, rn, width: bits_at(w, 10, 6) + 1 }
    } else if top == 0xD3 && w & 0xFFC0_0000 == 0xD340_0000 && bits_at(w, 16, 6) == bits_at(
        w,
        10,
        6,
    ) + 1 {
        Act::LeftImm { rd, rn, by: 64 - bits_at(w, 16, 6) }
    } else if top == 0x93 && w & 0xFFC0_0000 == 0x9340_0000 && bits_at(w, 16, 6) == 0 {
        Act::Low { signed: true, rd, rn, width: bits_at(w, 10, 6) + 1 }
    } else if top == 0xD2 && w & 0xFF80_0000 == 0xD280_0000 {
        Act::Lane {
            keep: false,
            rd,
            value: bits_at(w, 5, 16) as int,
            part: bits_at(w, 21, 2) as int,
        }
    } else if top == 0xF2 && w & 0xFF80_0000 == 0xF280_0000 {
        Act::Lane {
            keep: true,
            rd,
            value: bits_at(w, 5, 16) as int,
            part: bits_at(w, 21, 2) as int,
        }
    } else if top == 0x9A && bits_at(w, 21, 3) == 4 {
        if w & 0xFFFF_0FE0 == 0x9A9F_07E0 {
            Act::Condition { rd, unless: bits_at(w, 12, 4) as int }
        } else {
            Act::Unknown
        }
    } else if top % 64 == 0x38 || top % 64 == 0x39 {
        read_access(w, rd, rn, rm)
    } else {
        read_registers(w, rd, rn, rm)
    }
}

// ---------------------------------------------------------------------------
//  The processor
// ---------------------------------------------------------------------------

/// A processor.
pub struct Core {
    pub regs: Seq<u64>,
    pub sp: u64,
    pub mem: Bytes,
    pub neg: bool,
    pub zero: bool,
    pub carry: bool,
    pub over: bool,
}

impl Core {
    /// Whether there are as many registers as can be named.
    pub open spec fn wf(self) -> bool {
        self.regs.len() == 31
    }

    /// A register; the last number is that of the constant zero.
    pub open spec fn reg(self, r: int) -> u64 {
        if r == 31 {
            0
        } else {
            self.regs[r]
        }
    }

    /// A register; the last number is that of the stack pointer.
    pub open spec fn base(self, r: int) -> u64 {
        if r == 31 {
            self.sp
        } else {
            self.regs[r]
        }
    }

    /// The processor with the low word of `v` in a register.
    pub open spec fn put(self, r: int, v: int) -> Core {
        if r == 31 {
            self
        } else {
            Core { regs: self.regs.update(r, wrap64(v)), ..self }
        }
    }

    /// The processor with the low word of `v` in a register or the stack pointer.
    pub open spec fn put_base(self, r: int, v: int) -> Core {
        if r == 31 {
            Core { sp: wrap64(v), ..self }
        } else {
            self.put(r, v)
        }
    }

    /// The processor with other memory.
    pub open spec fn with_mem(self, mem: Bytes) -> Core {
        Core { mem, ..self }
    }

    /// The processor with the flags of a sum.
    pub open spec fn summed(self, x: u64, y: u64) -> Core {
        let r = wrap64(x + y);
        Core {
            neg: r >= 0x8000_0000_0000_0000,
            zero: r == 0,
            carry: x + y >= SPAN,
            over: !is_signed64(signed64(x) + signed64(y)),
            ..self
        }
    }

    /// The processor with the flags of a difference.
    pub open spec fn compared(self, x: u64, y: u64) -> Core {
        let r = wrap64(x - y);
        Core {
            neg: r >= 0x8000_0000_0000_0000,
            zero: r == 0,
            carry: x >= y,
            over: !is_signed64(signed64(x) - signed64(y)),
            ..self
        }
    }
}

/// Whether a condition holds.
pub open spec fn condition(c: Core, cc: int) -> bool {
    let base = if cc / 2 == 0 {
        c.zero
    } else if cc / 2 == 1 {
        c.carry
    } else if cc / 2 == 2 {
        c.neg
    } else if cc / 2 == 3 {
        c.over
    } else if cc / 2 == 4 {
        c.carry && !c.zero
    } else if cc / 2 == 5 {
        c.neg == c.over
    } else if cc / 2 == 6 {
        !c.zero && c.neg == c.over
    } else {
        true
    };
    if cc % 2 == 0 {
        base
    } else {
        !base
    }
}

/// The result of an operation. A division by zero gives zero; a shift is by the low six bits.
#[verifier::opaque]
pub open spec fn combined(op: Alu, x: u64, y: u64) -> int {
    match op {
        Alu::Plus => x + y,
        Alu::Minus => x - y,
        Alu::And => (x & y) as int,
        Alu::Or => (x | y) as int,
        Alu::OrNot => (x | !y) as int,
        Alu::Xor => (x ^ y) as int,
        Alu::SignedOver => if y == 0 {
            0
        } else {
            toward_zero(signed64(x), signed64(y))
        },
        Alu::Over => if y == 0 {
            0
        } else {
            x as int / (y as int)
        },
        Alu::Left => x * (pow2((y % 64) as nat) as int),
        Alu::Right => x as int / (pow2((y % 64) as nat) as int),
        Alu::SignedRight => signed64(x) / (pow2((y % 64) as nat) as int),
    }
}

/// A load.
pub open spec fn loaded(c: Core, signed: bool, size: MemSize, rt: int, a: int) -> Option<Core> {
    let n = size.width() as nat;
    if in_space(a, n) {
        Some(c.put(rt, low_bytes(fetch(c.mem, a, n), n, signed)))
    } else {
        None
    }
}

/// A store.
pub open spec fn stored(c: Core, size: MemSize, rt: int, a: int) -> Option<Core> {
    let n = size.width() as nat;
    if in_space(a, n) {
        Some(c.with_mem(patch(c.mem, a, n, c.reg(rt) as int)))
    } else {
        None
    }
}

/// What an instruction leaves of a processor; `None` where it faults or is not known.
#[verifier::opaque]
pub open spec fn act(a: Act, c: Core) -> Option<Core> {
    match a {
        Act::Binary { op, rd, rn, rm } => Some(c.put(rd, combined(op, c.reg(rn), c.reg(rm)))),
        Act::Compare { rd, rn, rm } => Some(
            c.compared(c.reg(rn), c.reg(rm)).put(rd, c.reg(rn) - c.reg(rm)),
        ),
        Act::CompareImm { rd, rn, value } => Some(
            c.compared(c.base(rn), value as u64).put(rd, c.base(rn) - value),
        ),
        Act::PlusImm { rd, rn, value } => Some(c.put_base(rd, c.base(rn) + value)),
        Act::PlusShifted { rd, rn, rm, by } => Some(
            c.put(rd, c.reg(rn) + c.reg(rm) * (pow2(by as nat) as int)),
        ),
        Act::PlusBase { rd, rn, rm } => Some(c.put_base(rd, c.base(rn) + c.reg(rm))),
        Act::PlusFlags { rd, rn, value } => Some(
            c.summed(c.base(rn), value as u64).put(rd, c.base(rn) + value),
        ),
        Act::TimesPlus { minus, rd, rn, rm, ra } => Some(
            c.put(
                rd,
                if minus {
                    c.reg(ra) - c.reg(rn) * c.reg(rm)
                } else {
                    c.reg(ra) + c.reg(rn) * c.reg(rm)
                },
            ),
        ),
        Act::LeftImm { rd, rn, by } => Some(c.put(rd, c.reg(rn) * (pow2(by as nat) as int))),
        Act::Low { signed, rd, rn, width } => Some(
            c.put(rd, low_bits(c.reg(rn) as int, width as nat, signed)),
        ),
        Act::Lane { keep, rd, value, part } => Some(
            c.put(rd, lane_value(c.reg(rd) as int, keep, value, part)),
        ),
        Act::Load { signed, size, rt, rn, off } => loaded(c, signed, size, rt, c.base(rn) + off),
        Act::Store { size, rt, rn, off } => stored(c, size, rt, c.base(rn) + off),
        Act::LoadAt { signed, size, rt, rn, rm } => loaded(
            c,
            signed,
            size,
            rt,
            wrap64(c.base(rn) + c.reg(rm)) as int,
        ),
        Act::StoreAt { size, rt, rn, rm } => stored(
            c,
            size,
            rt,
            wrap64(c.base(rn) + c.reg(rm)) as int,
        ),
        Act::Condition { rd, unless } => Some(
            c.put(
                rd,
                if condition(c, unless) {
                    0
                } else {
                    1
                },
            ),
        ),
        Act::Unknown => None,
    }
}

/// What the words from byte `n` on leave of a processor, one after the other.
pub open spec fn run(code: Seq<u8>, n: nat, c: Core) -> Option<Core>
    decreases code.len(),
{
    if code.len() < n + 4 {
        Some(c)
    } else {
        let k = code.len() - 4;
        match run(code.take(k), n, c) {
            Some(d) => act(read(rd32(code, k) as u32), d),
            None => None,
        }
    }
}

/// One more word acts on what the others left.
pub proof fn run_one_more(code: Seq<u8>, w: u32, n: nat, c: Core)
    requires
        n <= code.len(),
    ensures
        run(code + le32(w), n, c) == (match run(code, n, c) {
            Some(d) => act(read(w), d),
            None => None,
        }),
{
    let t = code + le32(w);
    le32_reads_back(w);
    assert(t.take(t.len() - 4) =~= code);
    assert(rd32(t, t.len() - 4) == rd32(le32(w), 0));
}

} // verus!
