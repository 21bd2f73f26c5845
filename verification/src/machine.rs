//! What x86-64 machine code does: how instructions read, and a processor that runs
//! straight-line code.
use vstd::prelude::*;

use crate::floats::{FloatOp, computed, from_integer, is_finite, is_nan, value, whole_part};
use crate::bytes::{le32_reads_back, rd32, rd64, wrap32, wrap64};
use crate::encode::{
    FixupKind, ITag, disp_bytes, disp_mode, mem, modrm, omem, orex, orr, rex, sse_mem, sse_rr,
    sse_wrr, store16, store8, wmem, wmem0f, wrr, wrr0f,
};
use crate::peephole::Ins;
use vstd::arithmetic::div_mod::lemma_mod_breakdown;
use vstd::arithmetic::power2::pow2;

verus! {

/// The second operand of an instruction with a ModRM byte.
pub enum Rm {
    /// A register.
    Reg(int),
    /// The memory at `base + disp`.
    Mem { base: int, disp: int },
}

/// An instruction with a ModRM byte.
pub struct Form {
    /// The mandatory or size prefix, or zero.
    pub prefix: int,
    /// Whether there is a REX prefix.
    pub has_rex: bool,
    /// Whether the operands are words of 64 bits.
    pub wide: bool,
    /// Whether the opcode has the `0F` escape.
    pub escaped: bool,
    /// The opcode.
    pub op: int,
    /// The register operand, or the opcode's extension.
    pub reg: int,
    /// The other operand.
    pub rm: Rm,
    /// The bytes of the immediate.
    pub rest: Seq<u8>,
}

/// A byte read as a signed number.
pub open spec fn signed8(b: int) -> int {
    if b < 0x80 {
        b
    } else {
        b - 0x100
    }
}

/// Four bytes read as a signed number.
pub open spec fn signed32(v: int) -> int {
    if v < 0x8000_0000 {
        v
    } else {
        v - 0x1_0000_0000
    }
}

/// Reads a ModRM byte and what belongs to it; `r` and `b` are the bits of the REX prefix.
/// No meaning is given to addresses without a displacement and to scaled indexes.
pub open spec fn operands(r: int, b: int, s: Seq<u8>) -> Option<(int, Rm, Seq<u8>)> {
    if s.len() == 0 {
        None
    } else {
        let m = s[0] as int;
        let mode = m / 64;
        let reg = m / 8 % 8 + 8 * r;
        let low = m % 8;
        if mode == 3 {
            Some((reg, Rm::Reg(low + 8 * b), s.skip(1)))
        } else if mode == 0 || (low == 4 && (s.len() < 2 || s[1] != 0x24)) {
            None
        } else {
            let rest = s.skip(if low == 4 {
                2
            } else {
                1
            });
            let base = low + 8 * b;
            if mode == 1 && rest.len() >= 1 {
                Some((reg, Rm::Mem { base, disp: signed8(rest[0] as int) }, rest.skip(1)))
            } else if mode == 2 && rest.len() >= 4 {
                Some((reg, Rm::Mem { base, disp: signed32(rd32(rest, 0)) }, rest.skip(4)))
            } else {
                None
            }
        }
    }
}

/// Whether a byte is a mandatory or size prefix.
pub open spec fn is_prefix(b: u8) -> bool {
    b == 0x66 || b == 0xF2 || b == 0xF3
}

/// Whether a byte is a REX prefix.
pub open spec fn is_rex(b: u8) -> bool {
    0x40 <= b < 0x50
}

/// Reads the opcode and operands behind the prefixes.
pub open spec fn read_opcode(prefix: int, x: Option<int>, s: Seq<u8>) -> Option<Form> {
    let bits = match x {
        Some(v) => v,
        None => 0,
    };
    let escaped = s.len() > 0 && s[0] == 0x0F;
    let t = if escaped {
        s.skip(1)
    } else {
        s
    };
    if t.len() == 0 {
        None
    } else {
        match operands(bits / 4 % 2, bits % 2, t.skip(1)) {
            Some((reg, rm, rest)) => Some(
                Form {
                    prefix,
                    has_rex: x is Some,
                    wide: bits / 8 % 2 == 1,
                    escaped,
                    op: t[0] as int,
                    reg,
                    rm,
                    rest,
                },
            ),
            None => None,
        }
    }
}

/// Reads the REX prefix and what follows.
pub open spec fn read_rex(prefix: int, s: Seq<u8>) -> Option<Form> {
    if s.len() > 0 && is_rex(s[0]) {
        read_opcode(prefix, Some(s[0] - 0x40), s.skip(1))
    } else {
        read_opcode(prefix, None, s)
    }
}

/// Reads an instruction with a ModRM byte.
#[verifier::opaque]
pub open spec fn read_form(s: Seq<u8>) -> Option<Form> {
    if s.len() > 0 && is_prefix(s[0]) {
        read_rex(s[0] as int, s.skip(1))
    } else {
        read_rex(0, s)
    }
}

/// A form on two registers.
pub open spec fn reg_form(
    prefix: int,
    has_rex: bool,
    wide: bool,
    escaped: bool,
    op: int,
    reg: int,
    rm: int,
    rest: Seq<u8>,
) -> Form {
    Form { prefix, has_rex, wide, escaped, op, reg, rm: Rm::Reg(rm), rest }
}

/// A form on a register and memory.
pub open spec fn mem_form(
    prefix: int,
    has_rex: bool,
    wide: bool,
    escaped: bool,
    op: int,
    reg: int,
    base: int,
    disp: int,
) -> Form {
    Form {
        prefix,
        has_rex,
        wide,
        escaped,
        op,
        reg,
        rm: Rm::Mem { base, disp },
        rest: Seq::empty(),
    }
}

/// Whether a byte is an opcode: no prefix and no escape.
pub open spec fn plain_op(op: u8) -> bool {
    !is_prefix(op) && !is_rex(op) && op != 0x0F
}

proof fn registers_read(reg: u8, rm: u8, rest: Seq<u8>)
    requires
        reg < 16,
        rm < 16,
    ensures
        operands(reg as int / 8, rm as int / 8, seq![modrm(3, reg, rm)] + rest) == Some(
            (reg as int, Rm::Reg(rm as int), rest),
        ),
{
    let s = seq![modrm(3, reg, rm)] + rest;
    assert(s.skip(1) =~= rest);
    assert(s[0] == 192 + (reg % 8) * 8 + rm % 8);
}

proof fn memory_reads(reg: u8, base: u8, disp: i32)
    requires
        reg < 16,
        base < 16,
    ensures
        operands(reg as int / 8, base as int / 8, mem(reg, base, disp)) == Some(
            (reg as int, Rm::Mem { base: base as int, disp: disp as int }, Seq::<u8>::empty()),
        ),
{
    let s = mem(reg, base, disp);
    let d = disp_bytes(disp);
    let m = modrm(disp_mode(disp), reg, base);
    assert(m == disp_mode(disp) * 64 + (reg % 8) * 8 + base % 8);
    assert(s[0] == m);
    le32_reads_back(wrap32(disp as int));
    if base % 8 == 4 {
        assert(s[1] == 0x24);
        assert(s.skip(2) =~= d);
    } else {
        assert(s.skip(1) =~= d);
    }
    if -128 <= disp <= 127 {
        assert(d.skip(1) =~= Seq::<u8>::empty());
    } else {
        assert(d.skip(4) =~= Seq::<u8>::empty());
    }
}

proof fn rex_reads(w: bool, reg: u8, rm: u8)
    requires
        reg < 16,
        rm < 16,
    ensures
        is_rex(rex(w, reg, rm)),
        !is_prefix(rex(w, reg, rm)),
        (rex(w, reg, rm) - 0x40) / 8 % 2 == if w {
            1int
        } else {
            0
        },
        (rex(w, reg, rm) - 0x40) / 4 % 2 == reg as int / 8,
        (rex(w, reg, rm) - 0x40) % 2 == rm as int / 8,
{
}

/// Instructions on two words read back as they were written, with what follows them.
#[verifier::spinoff_prover]
#[verifier::rlimit(40)]
pub proof fn wide_registers_read_back(op: u8, reg: u8, rm: u8, rest: Seq<u8>)
    requires
        reg < 16,
        rm < 16,
    ensures
        plain_op(op) ==> read_form(wrr(op, reg, rm) + rest) == Some(
            reg_form(0, true, true, false, op as int, reg as int, rm as int, rest),
        ),
        read_form(wrr0f(op, reg, rm) + rest) == Some(
            reg_form(0, true, true, true, op as int, reg as int, rm as int, rest),
        ),
{
    reveal(read_form);
    rex_reads(true, reg, rm);
    registers_read(reg, rm, rest);
    let tail = seq![modrm(3, reg, rm)] + rest;
    let s = wrr(op, reg, rm) + rest;
    assert(s.skip(1).skip(1) =~= tail);
    assert(s.skip(1)[0] == op);
    let t = wrr0f(op, reg, rm) + rest;
    assert(t.skip(1).skip(1).skip(1) =~= tail);
    assert(t.skip(1)[0] == 0x0F);
    assert(t.skip(1).skip(1)[0] == op);
}

proof fn optional_rex_reads(prefix: int, reg: u8, rm: u8, tail: Seq<u8>)
    requires
        reg < 16,
        rm < 16,
        tail.len() > 0,
        !is_rex(tail[0]),
    ensures
        read_rex(prefix, orex(reg, rm) + tail) == (if reg >= 8 || rm >= 8 {
            read_opcode(prefix, Some(rex(false, reg, rm) - 0x40), tail)
        } else {
            read_opcode(prefix, None, tail)
        }),
        orex(reg, rm).len() > 0 ==> is_rex((orex(reg, rm) + tail)[0]),
{
    rex_reads(false, reg, rm);
    let s = orex(reg, rm) + tail;
    if reg >= 8 || rm >= 8 {
        assert(s.skip(1) =~= tail);
    } else {
        assert(s =~= tail);
    }
}

/// Instructions on two half words, and those with an optional REX prefix, read back as
/// they were written.
pub proof fn narrow_registers_read_back(op: u8, reg: u8, rm: u8)
    requires
        reg < 16,
        rm < 16,
        plain_op(op),
    ensures
        read_form(orr(op, reg, rm)) == Some(
            reg_form(
                0,
                reg >= 8 || rm >= 8,
                false,
                false,
                op as int,
                reg as int,
                rm as int,
                Seq::empty(),
            ),
        ),
{
    reveal(read_form);
    rex_reads(false, reg, rm);
    let tail = seq![op, modrm(3, reg, rm)];
    registers_read(reg, rm, Seq::empty());
    assert(tail.skip(1) =~= seq![modrm(3, reg, rm)] + Seq::<u8>::empty());
    optional_rex_reads(0, reg, rm, tail);
}

/// Instructions on a word and memory read back as they were written: no base register is
/// taken for an escape, and no displacement is lost.
pub proof fn wide_memory_reads_back(op: u8, reg: u8, base: u8, disp: i32)
    requires
        reg < 16,
        base < 16,
    ensures
        plain_op(op) ==> read_form(wmem(op, reg, base, disp)) == Some(
            mem_form(0, true, true, false, op as int, reg as int, base as int, disp as int),
        ),
        read_form(wmem0f(op, reg, base, disp)) == Some(
            mem_form(0, true, true, true, op as int, reg as int, base as int, disp as int),
        ),
{
    reveal(read_form);
    rex_reads(true, reg, base);
    memory_reads(reg, base, disp);
    let m = mem(reg, base, disp);
    let a = wmem(op, reg, base, disp);
    assert(a.skip(1).skip(1) =~= m);
    let b = wmem0f(op, reg, base, disp);
    assert(b.skip(1).skip(1).skip(1) =~= m);
}

/// Instructions on a half word and memory read back as they were written.
pub proof fn narrow_memory_reads_back(op: u8, reg: u8, base: u8, disp: i32)
    requires
        reg < 16,
        base < 16,
        plain_op(op),
    ensures
        read_form(omem(op, reg, base, disp)) == Some(
            mem_form(
                0,
                reg >= 8 || base >= 8,
                false,
                false,
                op as int,
                reg as int,
                base as int,
                disp as int,
            ),
        ),
{
    reveal(read_form);
    rex_reads(false, reg, base);
    memory_reads(reg, base, disp);
    let m = mem(reg, base, disp);
    let tail = seq![op] + m;
    assert(tail.skip(1) =~= m);
    optional_rex_reads(0, reg, base, tail);
    assert(omem(op, reg, base, disp) =~= orex(reg, base) + tail);
    assert(omem(op, reg, base, disp)[0] == (orex(reg, base) + tail)[0]);
}

/// Stores of one and two bytes read back as they were written; a byte store from `spl` on
/// has the prefix that tells these registers from the high bytes.
pub proof fn small_stores_read_back(reg: u8, base: u8, disp: i32)
    requires
        reg < 16,
        base < 16,
    ensures
        read_form(store8(reg, base, disp)) == Some(
            mem_form(
                0,
                reg >= 4 || base >= 8,
                false,
                false,
                0x88,
                reg as int,
                base as int,
                disp as int,
            ),
        ),
        read_form(store16(reg, base, disp)) == Some(
            mem_form(
                0x66,
                reg >= 8 || base >= 8,
                false,
                false,
                0x89,
                reg as int,
                base as int,
                disp as int,
            ),
        ),
{
    reveal(read_form);
    rex_reads(false, reg, base);
    memory_reads(reg, base, disp);
    let m = mem(reg, base, disp);
    let tail8 = seq![0x88u8] + m;
    assert(tail8.skip(1) =~= m);
    let c = store8(reg, base, disp);
    if reg >= 4 || base >= 8 {
        assert(c.skip(1) =~= tail8);
    } else {
        assert(c =~= tail8);
    }
    let tail16 = seq![0x89u8] + m;
    assert(tail16.skip(1) =~= m);
    optional_rex_reads(0x66, reg, base, tail16);
    let d = store16(reg, base, disp);
    assert(d.skip(1) =~= orex(reg, base) + tail16);
}

/// Instructions on a floating-point register and memory read back as they were written.
pub proof fn float_memory_reads_back(op: u8, reg: u8, base: u8, disp: i32)
    requires
        reg < 16,
        base < 16,
    ensures
        read_form(sse_mem(op, reg, base, disp)) == Some(
            mem_form(
                0xF2,
                reg >= 8 || base >= 8,
                false,
                true,
                op as int,
                reg as int,
                base as int,
                disp as int,
            ),
        ),
{
    reveal(read_form);
    rex_reads(false, reg, base);
    memory_reads(reg, base, disp);
    let m = mem(reg, base, disp);
    let tail = seq![0x0Fu8, op] + m;
    assert(tail.skip(1).skip(1) =~= m);
    optional_rex_reads(0xF2, reg, base, tail);
    assert(sse_mem(op, reg, base, disp).skip(1) =~= orex(reg, base) + tail);
}

/// Instructions on floating-point registers read back as they were written.
pub proof fn float_registers_read_back(prefix: u8, op: u8, reg: u8, rm: u8)
    requires
        reg < 16,
        rm < 16,
        is_prefix(prefix),
    ensures
        read_form(sse_rr(prefix, op, reg, rm)) == Some(
            reg_form(
                prefix as int,
                reg >= 8 || rm >= 8,
                false,
                true,
                op as int,
                reg as int,
                rm as int,
                Seq::empty(),
            ),
        ),
        read_form(sse_wrr(prefix, op, reg, rm)) == Some(
            reg_form(
                prefix as int,
                true,
                true,
                true,
                op as int,
                reg as int,
                rm as int,
                Seq::empty(),
            ),
        ),
{
    reveal(read_form);
    rex_reads(true, reg, rm);
    rex_reads(false, reg, rm);
    registers_read(reg, rm, Seq::empty());
    let two = seq![modrm(3, reg, rm)];
    assert(two =~= two + Seq::<u8>::empty());
    let short = seq![0x0Fu8, op, modrm(3, reg, rm)];
    assert(short.skip(1).skip(1) =~= two);
    optional_rex_reads(prefix as int, reg, rm, short);
    assert(sse_rr(prefix, op, reg, rm).skip(1) =~= orex(reg, rm) + short);
    let w = sse_wrr(prefix, op, reg, rm);
    assert(w.skip(1).skip(1) =~= short);
}

// ---------------------------------------------------------------------------
//  Meaning
// ---------------------------------------------------------------------------

/// An operation of two operands.
pub enum Alu {
    Plus,
    Or,
    PlusCarry,
    MinusBorrow,
    And,
    Minus,
    Xor,
    /// As `Minus`, for the flags alone.
    Compare,
}

/// A shift.
pub enum Shift {
    Left,
    Right,
    /// To the right, with copies of the sign.
    Signed,
}

/// An operation of one operand.
pub enum Single {
    Not,
    Neg,
    /// `rdx:rax = rax * r`, unsigned.
    Times,
    /// `rdx:rax = rax * r`, signed.
    SignedTimes,
    /// `rdx:rax` by `r`, unsigned.
    Over,
    /// `rdx:rax` by `r`, signed.
    SignedOver,
}

/// What an instruction does.
#[allow(inconsistent_fields)]
pub enum Act {
    Move { dst: int, src: int },
    MoveLow { dst: int, src: int },
    MoveImm { dst: int, value: u64 },
    /// The address of the program's state or of its data, and an offset.
    Address { dst: int, state: bool, off: u32 },
    Load { dst: int, base: int, disp: int, size: nat, signed: bool },
    Store { base: int, disp: int, src: int, size: nat },
    Lea { dst: int, base: int, disp: int },
    Extend { dst: int, src: int, size: nat, signed: bool },
    Binary { op: Alu, dst: int, src: int },
    BinaryImm { op: Alu, dst: int, value: int },
    Test { a: int, b: int },
    Times { dst: int, src: int },
    TimesImm { dst: int, src: int, value: int },
    Shift { op: Shift, dst: int, by: Option<int> },
    Single { op: Single, reg: int },
    /// The sign of `rax` into all of `rdx`.
    Spread,
    /// A condition into `al`.
    Condition { cc: int },
    Push { reg: int },
    Pop { reg: int },
    /// The frame is left: the stack pointer goes back to it, and the frame pointer is popped.
    Leave,
    /// `rcx` bytes from `[rsi]` to `[rdi]`.
    Copy,
    FloatLoad { dst: int, base: int, disp: int },
    FloatStore { base: int, disp: int, src: int },
    /// The bits of a word into a floating-point register.
    FloatBits { dst: int, src: int },
    Float { op: FloatOp, dst: int, src: int },
    FloatCompare { a: int, b: int },
    /// The float nearest to a signed word.
    FromWord { dst: int, src: int },
    /// A float cut off to a signed word.
    ToWord { dst: int, src: int },
    /// Nothing is said of it.
    Unknown,
}

/// The operation with a number, as in the `81` group.
pub open spec fn alu_of(n: int) -> Alu {
    if n == 0 {
        Alu::Plus
    } else if n == 1 {
        Alu::Or
    } else if n == 2 {
        Alu::PlusCarry
    } else if n == 3 {
        Alu::MinusBorrow
    } else if n == 4 {
        Alu::And
    } else if n == 5 {
        Alu::Minus
    } else if n == 6 {
        Alu::Xor
    } else {
        Alu::Compare
    }
}

/// The shift with a number.
pub open spec fn shift_of(n: int) -> Option<Shift> {
    if n == 4 {
        Some(Shift::Left)
    } else if n == 5 {
        Some(Shift::Right)
    } else if n == 7 {
        Some(Shift::Signed)
    } else {
        None
    }
}

/// The operation of one operand with a number.
pub open spec fn single_of(n: int) -> Option<Single> {
    if n == 2 {
        Some(Single::Not)
    } else if n == 3 {
        Some(Single::Neg)
    } else if n == 4 {
        Some(Single::Times)
    } else if n == 5 {
        Some(Single::SignedTimes)
    } else if n == 6 {
        Some(Single::Over)
    } else if n == 7 {
        Some(Single::SignedOver)
    } else {
        None
    }
}

/// The operation on floats with an opcode.
pub open spec fn float_op_of(op: int) -> Option<FloatOp> {
    if op == 0x58 {
        Some(FloatOp::Plus)
    } else if op == 0x59 {
        Some(FloatOp::Times)
    } else if op == 0x5C {
        Some(FloatOp::Minus)
    } else if op == 0x5E {
        Some(FloatOp::Over)
    } else {
        None
    }
}

/// What an instruction with a mandatory prefix on two registers does.
pub open spec fn float_act(f: Form, rm: int) -> Act {
    if !f.escaped || f.rest.len() != 0 {
        Act::Unknown
    } else if f.prefix == 0xF2 && !f.wide && float_op_of(f.op) is Some {
        Act::Float { op: float_op_of(f.op).unwrap(), dst: f.reg, src: rm }
    } else if f.prefix == 0x66 && !f.wide && f.op == 0x2E {
        Act::FloatCompare { a: f.reg, b: rm }
    } else if f.prefix == 0x66 && f.wide && f.op == 0x6E {
        Act::FloatBits { dst: f.reg, src: rm }
    } else if f.prefix == 0xF2 && f.wide && f.op == 0x2A {
        Act::FromWord { dst: f.reg, src: rm }
    } else if f.prefix == 0xF2 && f.wide && f.op == 0x2C {
        Act::ToWord { dst: f.reg, src: rm }
    } else {
        Act::Unknown
    }
}

/// What an instruction on two registers does.
pub open spec fn reg_act(f: Form, rm: int) -> Act {
    let n = f.rest.len();
    if f.prefix != 0 {
        float_act(f, rm)
    } else if f.escaped && f.op == 0xB6 && f.wide && n == 0 {
        Act::Extend { dst: f.reg, src: rm, size: 1, signed: false }
    } else if f.escaped && f.op == 0xB7 && f.wide && n == 0 {
        Act::Extend { dst: f.reg, src: rm, size: 2, signed: false }
    } else if f.escaped && f.op == 0xBE && f.wide && n == 0 {
        Act::Extend { dst: f.reg, src: rm, size: 1, signed: true }
    } else if f.escaped && f.op == 0xBF && f.wide && n == 0 {
        Act::Extend { dst: f.reg, src: rm, size: 2, signed: true }
    } else if f.escaped && f.op == 0xAF && f.wide && n == 0 {
        Act::Times { dst: f.reg, src: rm }
    } else if f.escaped && 0x90 <= f.op < 0xA0 && !f.has_rex && rm == 0 && n == 0 {
        Act::Condition { cc: f.op - 0x90 }
    } else if f.escaped {
        Act::Unknown
    } else if !f.wide {
        if f.op == 0x89 && n == 0 {
            Act::MoveLow { dst: rm, src: f.reg }
        } else {
            Act::Unknown
        }
    } else if f.op == 0x89 && n == 0 {
        Act::Move { dst: rm, src: f.reg }
    } else if f.op == 0x63 && n == 0 {
        Act::Extend { dst: f.reg, src: rm, size: 4, signed: true }
    } else if f.op == 0x85 && n == 0 {
        Act::Test { a: rm, b: f.reg }
    } else if f.op < 0x40 && f.op % 8 == 1 && n == 0 {
        Act::Binary { op: alu_of(f.op / 8), dst: rm, src: f.reg }
    } else if f.op == 0x81 && n == 4 {
        Act::BinaryImm { op: alu_of(f.reg), dst: rm, value: signed32(rd32(f.rest, 0)) }
    } else if f.op == 0x69 && n == 4 {
        Act::TimesImm { dst: f.reg, src: rm, value: signed32(rd32(f.rest, 0)) }
    } else if f.op == 0xC7 && f.reg == 0 && n == 4 {
        Act::MoveImm { dst: rm, value: wrap64(signed32(rd32(f.rest, 0))) }
    } else if f.op == 0xD3 && n == 0 && shift_of(f.reg) is Some {
        Act::Shift { op: shift_of(f.reg).unwrap(), dst: rm, by: None }
    } else if f.op == 0xC1 && n == 1 && shift_of(f.reg) is Some {
        Act::Shift { op: shift_of(f.reg).unwrap(), dst: rm, by: Some(f.rest[0] as int) }
    } else if f.op == 0xF7 && n == 0 && single_of(f.reg) is Some {
        Act::Single { op: single_of(f.reg).unwrap(), reg: rm }
    } else {
        Act::Unknown
    }
}

/// What an instruction on memory does.
pub open spec fn mem_act(f: Form, base: int, disp: int) -> Act {
    if f.rest.len() != 0 {
        Act::Unknown
    } else if f.prefix == 0x66 {
        if !f.escaped && !f.wide && f.op == 0x89 {
            Act::Store { base, disp, src: f.reg, size: 2 }
        } else {
            Act::Unknown
        }
    } else if f.prefix == 0xF2 && f.escaped && !f.wide && f.op == 0x10 {
        Act::FloatLoad { dst: f.reg, base, disp }
    } else if f.prefix == 0xF2 && f.escaped && !f.wide && f.op == 0x11 {
        Act::FloatStore { base, disp, src: f.reg }
    } else if f.prefix != 0 {
        Act::Unknown
    } else if f.escaped {
        if !f.wide {
            Act::Unknown
        } else if f.op == 0xB6 {
            Act::Load { dst: f.reg, base, disp, size: 1, signed: false }
        } else if f.op == 0xB7 {
            Act::Load { dst: f.reg, base, disp, size: 2, signed: false }
        } else if f.op == 0xBE {
            Act::Load { dst: f.reg, base, disp, size: 1, signed: true }
        } else if f.op == 0xBF {
            Act::Load { dst: f.reg, base, disp, size: 2, signed: true }
        } else {
            Act::Unknown
        }
    } else if f.op == 0x89 {
        Act::Store {
            base,
            disp,
            src: f.reg,
            size: if f.wide {
                8
            } else {
                4
            },
        }
    } else if f.op == 0x8B {
        Act::Load {
            dst: f.reg,
            base,
            disp,
            size: if f.wide {
                8
            } else {
                4
            },
            signed: false,
        }
    } else if f.op == 0x8D && f.wide {
        Act::Lea { dst: f.reg, base, disp }
    } else if f.op == 0x63 && f.wide {
        Act::Load { dst: f.reg, base, disp, size: 4, signed: true }
    } else if f.op == 0x88 && !f.wide && (f.has_rex || f.reg < 4) {
        Act::Store { base, disp, src: f.reg, size: 1 }
    } else {
        Act::Unknown
    }
}

/// What the instruction with these bytes does.
#[verifier::opaque]
pub open spec fn act_of(s: Seq<u8>) -> Act {
    if s.len() == 10 && (s[0] == 0x48 || s[0] == 0x49) && 0xB8 <= s[1] < 0xC0 {
        Act::MoveImm { dst: s[1] - 0xB8 + 8 * (s[0] % 2), value: rd64(s, 2) as u64 }
    } else if s.len() == 1 && 0x50 <= s[0] < 0x58 {
        Act::Push { reg: s[0] - 0x50 }
    } else if s.len() == 1 && 0x58 <= s[0] < 0x60 {
        Act::Pop { reg: s[0] - 0x58 }
    } else if s.len() == 2 && s[0] == 0x41 && 0x50 <= s[1] < 0x58 {
        Act::Push { reg: s[1] - 0x50 + 8 }
    } else if s.len() == 2 && s[0] == 0x41 && 0x58 <= s[1] < 0x60 {
        Act::Pop { reg: s[1] - 0x58 + 8 }
    } else if s == seq![0x48u8, 0x99] {
        Act::Spread
    } else if s == seq![0xC9u8] {
        Act::Leave
    } else if s == seq![0xF3u8, 0xA4] {
        Act::Copy
    } else {
        match read_form(s) {
            Some(f) => match f.rm {
                Rm::Reg(rm) => reg_act(f, rm),
                Rm::Mem { base, disp } => mem_act(f, base, disp),
            },
            None => Act::Unknown,
        }
    }
}

/// Whether an instruction is a jump or the place of a label.
pub open spec fn steers(tag: ITag) -> bool {
    tag is Label || tag is Jmp || tag is Jcc
}

/// What an instruction does that is neither a jump nor a label, with the addresses that fill
/// its hole.
pub open spec fn meaning(i: Ins) -> Act {
    if steers(i.tag) {
        Act::Unknown
    } else if i.fixups.len() == 0 {
        act_of(i.bytes)
    } else {
        match (act_of(i.bytes), i.fixups[0].1) {
            (Act::MoveImm { dst, .. }, FixupKind::State(off)) => Act::Address { dst, state: true, off },
            (Act::MoveImm { dst, .. }, FixupKind::Data(off)) => Act::Address { dst, state: false, off },
            _ => Act::Unknown,
        }
    }
}

// ---------------------------------------------------------------------------
//  The processor
// ---------------------------------------------------------------------------

/// The memory.
pub type Bytes = spec_fn(int) -> u8;

/// A processor. A flag that is `None` has a value that nothing is known of.
pub struct Cpu {
    pub regs: Seq<u64>,
    pub mem: Bytes,
    pub zero: Option<bool>,
    pub sign: Option<bool>,
    pub carry: Option<bool>,
    pub over: Option<bool>,
    /// Where the program's state and its data stand.
    pub state: u64,
    pub data: u64,
    /// The low words of the floating-point registers.
    pub floats: Seq<u64>,
}

/// One more than the largest word.
pub const SPAN: u128 = 0x1_0000_0000_0000_0000;

/// A word read as a signed number.
pub open spec fn signed64(v: u64) -> int {
    if v < 0x8000_0000_0000_0000 {
        v as int
    } else {
        v - SPAN
    }
}

/// Whether a number is a signed word.
pub open spec fn is_signed64(v: int) -> bool {
    -0x8000_0000_0000_0000 <= v < 0x8000_0000_0000_0000
}

/// The `n` bytes at `a`, low byte first.
pub open spec fn fetch(m: Bytes, a: int, n: nat) -> int
    decreases n,
{
    if n == 0 {
        0
    } else {
        m(a) + 256 * fetch(m, a + 1, (n - 1) as nat)
    }
}

/// The `k`-th byte of a number.
pub open spec fn byte_at(v: int, k: int) -> u8
    decreases k,
{
    if k <= 0 {
        (v % 256) as u8
    } else {
        byte_at(v / 256, k - 1)
    }
}

/// The memory with the `n` low bytes of `v` at `a`.
pub open spec fn patch(m: Bytes, a: int, n: nat, v: int) -> Bytes {
    |x: int|
        if a <= x < a + n {
            byte_at(v, x - a)
        } else {
            m(x)
        }
}

/// `256` to the `n`.
pub open spec fn pow256(n: nat) -> int
    decreases n,
{
    if n == 0 {
        1
    } else {
        256 * pow256((n - 1) as nat)
    }
}

/// The low `n` bytes of a number, read as signed or unsigned.
pub open spec fn low_bytes(v: int, n: nat, signed: bool) -> int {
    let u = v % pow256(n);
    if signed && 2 * u >= pow256(n) {
        u - pow256(n)
    } else {
        u
    }
}

/// Whether `n` bytes can stand at `a`.
pub open spec fn in_space(a: int, n: nat) -> bool {
    0 <= a && a + n <= SPAN
}

impl Cpu {
    /// Whether there are as many registers as can be named.
    pub open spec fn wf(self) -> bool {
        self.regs.len() == 16
    }

    /// A register.
    pub open spec fn reg(self, r: int) -> u64 {
        self.regs[r]
    }

    /// The processor with the low word of `v` in a register.
    pub open spec fn put(self, r: int, v: int) -> Cpu {
        Cpu { regs: self.regs.update(r, wrap64(v)), ..self }
    }

    /// The processor with flags.
    pub open spec fn flags(
        self,
        zero: Option<bool>,
        sign: Option<bool>,
        carry: Option<bool>,
        over: Option<bool>,
    ) -> Cpu {
        Cpu { zero, sign, carry, over, ..self }
    }

    /// The processor with flags that nothing is known of.
    pub open spec fn lost_flags(self) -> Cpu {
        self.flags(None, None, None, None)
    }

    /// The processor with the zero and sign flags of a result.
    pub open spec fn result_flags(self, v: u64, carry: Option<bool>, over: Option<bool>) -> Cpu {
        self.flags(Some(v == 0), Some(v >= 0x8000_0000_0000_0000), carry, over)
    }

    /// Whether there are as many floating-point registers as can be named.
    pub open spec fn has_floats(self) -> bool {
        self.floats.len() == 16
    }

    /// The processor with a floating-point register.
    pub open spec fn put_float(self, r: int, b: u64) -> Cpu {
        Cpu { floats: self.floats.update(r, b), ..self }
    }

    /// The processor with other memory.
    pub open spec fn with_mem(self, mem: Bytes) -> Cpu {
        Cpu { mem, ..self }
    }
}

/// Whether a condition holds, as far as the flags are known.
pub open spec fn condition(c: Cpu, cc: int) -> Option<bool> {
    let pair = |a: Option<bool>, b: Option<bool>, f: spec_fn(bool, bool) -> bool|
        match (a, b) {
            (Some(x), Some(y)) => Some(f(x, y)),
            _ => None,
        };
    let base = if cc / 2 == 0 {
        c.over
    } else if cc / 2 == 1 {
        c.carry
    } else if cc / 2 == 2 {
        c.zero
    } else if cc / 2 == 3 {
        pair(c.carry, c.zero, |x: bool, y: bool| x || y)
    } else if cc / 2 == 4 {
        c.sign
    } else if cc / 2 == 6 {
        pair(c.sign, c.over, |x: bool, y: bool| x != y)
    } else if cc / 2 == 7 {
        pair(
            c.zero,
            pair(c.sign, c.over, |x: bool, y: bool| x != y),
            |x: bool, y: bool| x || y,
        )
    } else {
        None
    };
    match base {
        Some(b) => Some(if cc % 2 == 0 {
            b
        } else {
            !b
        }),
        None => None,
    }
}

/// An operation on a register and a word.
pub open spec fn binary(c: Cpu, op: Alu, dst: int, y: u64) -> Option<Cpu> {
    let x = c.reg(dst);
    match op {
        Alu::Plus => Some(
            c.put(dst, x + y).result_flags(
                wrap64(x + y),
                Some(x + y >= SPAN),
                Some(!is_signed64(signed64(x) + signed64(y))),
            ),
        ),
        Alu::PlusCarry => match c.carry {
            Some(b) => {
                let k: int = if b {
                    1
                } else {
                    0
                };
                Some(
                    c.put(dst, x + y + k).result_flags(
                        wrap64(x + y + k),
                        Some(x + y + k >= SPAN),
                        Some(!is_signed64(signed64(x) + signed64(y) + k)),
                    ),
                )
            },
            None => None,
        },
        Alu::Minus => Some(
            c.put(dst, x - y).result_flags(
                wrap64(x - y),
                Some(x < y),
                Some(!is_signed64(signed64(x) - signed64(y))),
            ),
        ),
        Alu::MinusBorrow => match c.carry {
            Some(b) => {
                let k: int = if b {
                    1
                } else {
                    0
                };
                Some(
                    c.put(dst, x - y - k).result_flags(
                        wrap64(x - y - k),
                        Some(x < y + k),
                        Some(!is_signed64(signed64(x) - signed64(y) - k)),
                    ),
                )
            },
            None => None,
        },
        Alu::Compare => Some(
            c.result_flags(
                wrap64(x - y),
                Some(x < y),
                Some(!is_signed64(signed64(x) - signed64(y))),
            ),
        ),
        Alu::And => Some(c.put(dst, (x & y) as int).result_flags(x & y, Some(false), Some(false))),
        Alu::Or => Some(c.put(dst, (x | y) as int).result_flags(x | y, Some(false), Some(false))),
        Alu::Xor => Some(c.put(dst, (x ^ y) as int).result_flags(x ^ y, Some(false), Some(false))),
    }
}

/// A product of signed words into a register.
pub open spec fn product(c: Cpu, dst: int, x: u64, y: int) -> Cpu {
    let p = signed64(x) * y;
    c.put(dst, p).flags(None, None, Some(!is_signed64(p)), Some(!is_signed64(p)))
}

/// A shift of a register. The count is taken modulo 64.
#[verifier::opaque]
pub open spec fn shifted(op: Shift, v: u64, by: int) -> int {
    let k = pow2((by % 64) as nat) as int;
    match op {
        Shift::Left => v * k,
        Shift::Right => v as int / k,
        Shift::Signed => signed64(v) / k,
    }
}

/// An operation of one operand. A quotient that does not fit stops the program.
pub open spec fn single(c: Cpu, op: Single, r: int) -> Option<Cpu> {
    let v = c.reg(r);
    match op {
        Single::Not => Some(c.put(r, -1 - v)),
        Single::Neg => Some(
            c.put(r, -v).result_flags(
                wrap64(-v),
                Some(v != 0),
                Some(v == 0x8000_0000_0000_0000),
            ),
        ),
        Single::Times => {
            let p = c.reg(0) * v;
            Some(
                c.put(0, p).put(2, p / (SPAN as int)).flags(
                    None,
                    None,
                    Some(p >= SPAN),
                    Some(p >= SPAN),
                ),
            )
        },
        Single::SignedTimes => {
            let p = signed64(c.reg(0)) * signed64(v);
            Some(
                c.put(0, p).put(2, p / (SPAN as int)).flags(
                    None,
                    None,
                    Some(!is_signed64(p)),
                    Some(!is_signed64(p)),
                ),
            )
        },
        Single::Over => {
            let n = c.reg(2) * SPAN + c.reg(0);
            if v == 0 || n / (v as int) >= SPAN {
                None
            } else {
                Some(c.put(0, n / (v as int)).put(2, n % (v as int)).lost_flags())
            }
        },
        Single::SignedOver => {
            let n = signed64(c.reg(2)) * SPAN + c.reg(0);
            let d = signed64(v);
            if d == 0 || !is_signed64(toward_zero(n, d)) {
                None
            } else {
                let q = toward_zero(n, d);
                Some(c.put(0, q).put(2, n - q * d).lost_flags())
            }
        },
    }
}

/// The quotient of two numbers, cut off toward zero.
pub open spec fn toward_zero(n: int, d: int) -> int {
    let q = magnitude(n) / magnitude(d);
    if (n < 0) == (d < 0) {
        q
    } else {
        -q
    }
}

/// A number without its sign.
pub open spec fn magnitude(n: int) -> int {
    if n < 0 {
        -n
    } else {
        n
    }
}

/// The memory with `n` bytes copied.
pub open spec fn copy_block(m: Bytes, to: int, from: int, n: int) -> Bytes {
    |x: int|
        if to <= x < to + n {
            m(from + (x - to))
        } else {
            m(x)
        }
}

/// A copy of `rcx` bytes from `[rsi]` to `[rdi]`. Nothing is said where they overlap.
pub open spec fn block_copy(c: Cpu) -> Option<Cpu> {
    let n = c.reg(1) as nat;
    let from = c.reg(6) as int;
    let to = c.reg(7) as int;
    if in_space(from, n) && in_space(to, n) && (to + n <= from || from + n <= to) {
        Some(
            c.put(1, 0).put(6, from + n).put(7, to + n).with_mem(
                copy_block(c.mem, to, from, n as int),
            ),
        )
    } else {
        None
    }
}

/// The signed word that a float is cut off to; what is none gives the least one.
pub open spec fn cut_off(b: u64) -> int {
    if is_finite(b) && is_signed64(whole_part(b)) {
        whole_part(b)
    } else {
        -0x8000_0000_0000_0000
    }
}

/// A comparison of two floats: the flags say whether the first is less, or they are equal.
/// Where either is no number, they say both.
pub open spec fn float_compared(c: Cpu, a: u64, b: u64) -> Cpu {
    let unordered = is_nan(a) || is_nan(b);
    c.flags(
        Some(unordered || value(a) == value(b)),
        Some(false),
        Some(unordered || value(a) < value(b)),
        Some(false),
    )
}

/// What an instruction leaves of a processor; `None` where it faults, where it is not
/// known, or where what it does rests on a flag that is not known.
#[verifier::opaque]
pub open spec fn act(a: Act, c: Cpu) -> Option<Cpu> {
    match a {
        Act::Move { dst, src } => Some(c.put(dst, c.reg(src) as int)),
        Act::MoveLow { dst, src } => Some(c.put(dst, c.reg(src) as int % 0x1_0000_0000)),
        Act::MoveImm { dst, value } => Some(c.put(dst, value as int)),
        Act::Address { dst, state, off } => Some(
            c.put(
                dst,
                (if state {
                    c.state
                } else {
                    c.data
                }) + off,
            ),
        ),
        Act::Load { dst, base, disp, size, signed } => {
            let a = c.reg(base) + disp;
            if in_space(a, size) {
                Some(c.put(dst, low_bytes(fetch(c.mem, a, size), size, signed)))
            } else {
                None
            }
        },
        Act::Store { base, disp, src, size } => {
            let a = c.reg(base) + disp;
            if in_space(a, size) {
                Some(c.with_mem(patch(c.mem, a, size, c.reg(src) as int)))
            } else {
                None
            }
        },
        Act::Lea { dst, base, disp } => Some(c.put(dst, c.reg(base) + disp)),
        Act::Extend { dst, src, size, signed } => Some(
            c.put(dst, low_bytes(c.reg(src) as int, size, signed)),
        ),
        Act::Binary { op, dst, src } => binary(c, op, dst, c.reg(src)),
        Act::BinaryImm { op, dst, value } => binary(c, op, dst, wrap64(value)),
        Act::Test { a, b } => Some(
            c.result_flags(c.reg(a) & c.reg(b), Some(false), Some(false)),
        ),
        Act::Times { dst, src } => Some(product(c, dst, c.reg(dst), signed64(c.reg(src)))),
        Act::TimesImm { dst, src, value } => Some(product(c, dst, c.reg(src), value)),
        Act::Shift { op, dst, by } => {
            let n = match by {
                Some(k) => k,
                None => c.reg(1) as int % 256,
            };
            Some(c.put(dst, shifted(op, c.reg(dst), n)).lost_flags())
        },
        Act::Single { op, reg } => single(c, op, reg),
        Act::Spread => Some(
            c.put(
                2,
                if c.reg(0) < 0x8000_0000_0000_0000 {
                    0
                } else {
                    -1
                },
            ),
        ),
        Act::Condition { cc } => match condition(c, cc) {
            Some(b) => Some(
                c.put(
                    0,
                    c.reg(0) - c.reg(0) % 256 + (if b {
                        1int
                    } else {
                        0
                    }),
                ),
            ),
            None => None,
        },
        Act::Push { reg } => {
            let a = c.reg(4) - 8;
            if in_space(a, 8) {
                Some(c.put(4, a).with_mem(patch(c.mem, a, 8, c.reg(reg) as int)))
            } else {
                None
            }
        },
        Act::Pop { reg } => {
            let a = c.reg(4) as int;
            if in_space(a, 8) {
                Some(c.put(4, a + 8).put(reg, fetch(c.mem, a, 8)))
            } else {
                None
            }
        },
        Act::Leave => {
            let a = c.reg(5) as int;
            if in_space(a, 8) {
                Some(c.put(4, a + 8).put(5, fetch(c.mem, a, 8)))
            } else {
                None
            }
        },
        Act::Copy => block_copy(c),
        Act::FloatLoad { dst, base, disp } => {
            let a = c.reg(base) + disp;
            if in_space(a, 8) {
                Some(c.put_float(dst, fetch(c.mem, a, 8) as u64))
            } else {
                None
            }
        },
        Act::FloatStore { base, disp, src } => {
            let a = c.reg(base) + disp;
            if in_space(a, 8) {
                Some(c.with_mem(patch(c.mem, a, 8, c.floats[src] as int)))
            } else {
                None
            }
        },
        Act::FloatBits { dst, src } => Some(c.put_float(dst, c.reg(src))),
        Act::Float { op, dst, src } => match computed(op, c.floats[dst], c.floats[src]) {
            Some(v) => Some(c.put_float(dst, v)),
            None => None,
        },
        Act::FloatCompare { a, b } => Some(float_compared(c, c.floats[a], c.floats[b])),
        Act::FromWord { dst, src } => Some(
            c.put_float(dst, from_integer(signed64(c.reg(src)))),
        ),
        Act::ToWord { dst, src } => Some(c.put(dst, cut_off(c.floats[src]))),
        Act::Unknown => None,
    }
}

/// What the instructions from the `n`-th on leave of a processor, one after the other.
pub open spec fn run(s: Seq<Ins>, n: nat, c: Cpu) -> Option<Cpu>
    decreases s.len(),
{
    if s.len() <= n {
        Some(c)
    } else {
        match run(s.drop_last(), n, c) {
            Some(d) => act(meaning(s.last()), d),
            None => None,
        }
    }
}

/// One more instruction acts on what the others left.
pub proof fn run_one_more(s: Seq<Ins>, i: Ins, n: nat, c: Cpu)
    requires
        n <= s.len(),
    ensures
        run(s.push(i), n, c) == (match run(s, n, c) {
            Some(d) => act(meaning(i), d),
            None => None,
        }),
        run(s, s.len(), c) == Some(c),
{
    assert(s.push(i).drop_last() =~= s);
}

// ---------------------------------------------------------------------------
//  Memory
// ---------------------------------------------------------------------------

/// What `n` bytes hold is less than `256` to the `n`.
pub proof fn fetch_bounded(m: Bytes, a: int, n: nat)
    ensures
        0 <= fetch(m, a, n) < pow256(n),
    decreases n,
{
    if n > 0 {
        fetch_bounded(m, a + 1, (n - 1) as nat);
    }
}

/// Equal bytes hold the same number.
pub proof fn fetch_same(m: Bytes, a: int, k: Bytes, b: int, n: nat)
    requires
        forall|i: int| 0 <= i < n ==> #[trigger] m(a + i) == k(b + i),
    ensures
        fetch(m, a, n) == fetch(k, b, n),
    decreases n,
{
    if n > 0 {
        assert(m(a + 0) == k(b + 0));
        assert forall|i: int| 0 <= i < n - 1 implies #[trigger] m(a + 1 + i) == k(b + 1 + i) by {
            assert(m(a + (1 + i)) == k(b + (1 + i)));
        }
        fetch_same(m, a + 1, k, b + 1, (n - 1) as nat);
    }
}

/// Bytes that are those of `v` hold `v`, as far as they go.
pub proof fn fetch_bytes(m: Bytes, a: int, n: nat, v: int)
    requires
        v >= 0,
        forall|i: int| 0 <= i < n ==> #[trigger] m(a + i) == byte_at(v, i),
    ensures
        fetch(m, a, n) == v % pow256(n),
    decreases n,
{
    if n > 0 {
        assert(m(a + 0) == byte_at(v, 0));
        assert forall|i: int| 0 <= i < n - 1 implies #[trigger] m(a + 1 + i) == byte_at(v / 256, i) by {
            assert(m(a + (1 + i)) == byte_at(v, 1 + i));
        }
        fetch_bytes(m, a + 1, (n - 1) as nat, v / 256);
        pow256_positive((n - 1) as nat);
        lemma_mod_breakdown(v, 256, pow256((n - 1) as nat));
    } else {
        assert(v % 1 == 0);
    }
}

/// `256` to the `n` is at least one.
pub proof fn pow256_positive(n: nat)
    ensures
        pow256(n) >= 1,
    decreases n,
{
    if n > 0 {
        pow256_positive((n - 1) as nat);
    }
}

/// The bytes of what `n` bytes hold are those bytes.
pub proof fn bytes_of_fetched(m: Bytes, a: int, n: nat, i: int)
    requires
        0 <= i < n,
    ensures
        byte_at(fetch(m, a, n), i) == m(a + i),
    decreases n,
{
    let rest = fetch(m, a + 1, (n - 1) as nat);
    fetch_bounded(m, a + 1, (n - 1) as nat);
    assert((m(a) + 256 * rest) / 256 == rest);
    assert((m(a) + 256 * rest) % 256 == m(a));
    if i > 0 {
        bytes_of_fetched(m, a + 1, (n - 1) as nat, i - 1);
    }
}

/// What was written is read, as far as it fits.
pub proof fn written_is_read(m: Bytes, a: int, n: nat, v: int)
    requires
        v >= 0,
    ensures
        fetch(patch(m, a, n, v), a, n) == v % pow256(n),
{
    fetch_bytes(patch(m, a, n, v), a, n, v);
}

/// What stands elsewhere stays.
pub proof fn elsewhere_stays(m: Bytes, a: int, n: nat, v: int, b: int, k: nat)
    requires
        b + k <= a || a + n <= b,
    ensures
        fetch(patch(m, a, n, v), b, k) == fetch(m, b, k),
{
    fetch_same(patch(m, a, n, v), b, m, b, k);
}

/// The powers of `256` up to a word.
pub proof fn pow256_values()
    ensures
        pow256(0) == 1,
        pow256(1) == 0x100,
        pow256(2) == 0x1_0000,
        pow256(4) == 0x1_0000_0000,
        pow256(8) == SPAN,
{
    reveal_with_fuel(pow256, 9);
}

} // verus!
