use k2_codegen::compile::{compile_program, compile_program_to_elf, Support};
use k2_codegen::link::Runtime;
use k2_codegen::lower::env::{Loc, RegAlloc};
use k2_codegen::mir::{
    AggKind, BinOp, Block, BlockId, BuildMode, CastKind, Const, ConstData, ConstId, DiscrKind,
    ErrTag, FnAbi, IntrinsicPath, IntrinsicRoot, Linkage, LocalDecl, LocalId, MirFunction,
    MirProgram, Operand, Place, Proj, Rvalue, SliceMeta, Statement, Terminator, TrapReason, UnOp,
};
use k2_codegen::mir_ids::FnId;
use k2_codegen::reg::Gpr;
use k2_codegen::runtime::RuntimeAbi;
use k2_codegen::target::Target;
use k2_codegen::types::{
    ArrayLen, FieldInfo, IntBits, StructId, StructInfo, Type, TypeArena, TypeId,
};
use k2_codegen::validate::is_compilable;
use k2_codegen::CodegenError;

// ---------------------------------------------------------------------------
//  A machine that runs executables
// ---------------------------------------------------------------------------

const STACK: u64 = 0x7000_0000;
const STACK_SIZE: usize = 1 << 16;

struct Cpu {
    regs: [u64; 16],
    xmm: [f64; 16],
    rip: u64,
    zf: bool,
    sf: bool,
    cf: bool,
    of: bool,
    mem: Vec<(u64, Vec<u8>)>,
    out: Vec<u8>,
    err: Vec<u8>,
    exit: Option<u64>,
}

fn le(b: &[u8], at: usize, n: usize) -> u64 {
    let mut v: u64 = 0;
    for i in 0..n {
        v |= (b[at + i] as u64) << (8 * i);
    }
    v
}

impl Cpu {
    fn load(image: &[u8]) -> Cpu {
        let phoff = le(image, 32, 8) as usize;
        let phnum = le(image, 56, 2) as usize;
        // What was never written is not zero.
        let mut mem = vec![(STACK, vec![0xA5u8; STACK_SIZE])];
        for i in 0..phnum {
            let p = phoff + 56 * i;
            if le(image, p, 4) != 1 {
                continue;
            }
            let off = le(image, p + 8, 8) as usize;
            let vaddr = le(image, p + 16, 8);
            let filesz = le(image, p + 32, 8) as usize;
            let memsz = le(image, p + 40, 8) as usize;
            let mut seg = if filesz > 0 { image[off..off + filesz].to_vec() } else { Vec::new() };
            seg.resize(memsz, 0);
            mem.push((vaddr, seg));
        }
        let mut regs = [0xA5A5_A5A5_A5A5_A5A5u64; 16];
        regs[4] = STACK + STACK_SIZE as u64 - 64;
        Cpu {
            regs,
            xmm: [0.0; 16],
            rip: le(image, 24, 8),
            zf: false,
            sf: false,
            cf: false,
            of: false,
            mem,
            out: Vec::new(),
            err: Vec::new(),
            exit: None,
        }
    }

    fn at(&mut self, addr: u64) -> &mut u8 {
        for (base, seg) in self.mem.iter_mut() {
            if addr >= *base && addr < *base + seg.len() as u64 {
                return &mut seg[(addr - *base) as usize];
            }
        }
        panic!("no memory at {addr:#x}");
    }

    fn read(&mut self, addr: u64, n: u64) -> u64 {
        let mut v: u64 = 0;
        for i in 0..n {
            v |= (*self.at(addr.wrapping_add(i)) as u64) << (8 * i);
        }
        v
    }

    fn write(&mut self, addr: u64, n: u64, v: u64) {
        for i in 0..n {
            *self.at(addr.wrapping_add(i)) = (v >> (8 * i)) as u8;
        }
    }

    fn fetch(&mut self, n: u64) -> u64 {
        let v = self.read(self.rip, n);
        self.rip += n;
        v
    }

    fn fetch32(&mut self) -> u64 {
        self.fetch(4) as u32 as i32 as i64 as u64
    }

    fn push(&mut self, v: u64) {
        self.regs[4] -= 8;
        self.write(self.regs[4], 8, v);
    }

    fn pop(&mut self) -> u64 {
        let v = self.read(self.regs[4], 8);
        self.regs[4] += 8;
        v
    }

    fn logic(&mut self, r: u64) {
        self.zf = r == 0;
        self.sf = (r as i64) < 0;
        self.cf = false;
        self.of = false;
    }

    fn sum(&mut self, a: u64, b: u64, carry: u64) -> u64 {
        let wide = a as u128 + b as u128 + carry as u128;
        let r = wide as u64;
        let signed = a as i64 as i128 + b as i64 as i128 + carry as i128;
        self.zf = r == 0;
        self.sf = (r as i64) < 0;
        self.cf = wide >> 64 != 0;
        self.of = signed != r as i64 as i128;
        r
    }

    fn difference(&mut self, a: u64, b: u64, borrow: u64) -> u64 {
        let r = a.wrapping_sub(b).wrapping_sub(borrow);
        let signed = a as i64 as i128 - b as i64 as i128 - borrow as i128;
        self.zf = r == 0;
        self.sf = (r as i64) < 0;
        self.cf = (a as u128) < b as u128 + borrow as u128;
        self.of = signed != r as i64 as i128;
        r
    }

    fn holds(&self, cc: u8) -> bool {
        let base = match cc >> 1 {
            0 => self.of,
            1 => self.cf,
            2 => self.zf,
            3 => self.cf || self.zf,
            4 => self.sf,
            6 => self.sf != self.of,
            7 => self.zf || self.sf != self.of,
            _ => panic!("condition {cc}"),
        };
        base != (cc & 1 == 1)
    }

    /// The register field, and the register or address that the other operand is.
    fn modrm(&mut self, rex: u64) -> (usize, Result<usize, u64>) {
        let b = self.fetch(1);
        let reg = ((b >> 3) & 7 | (rex & 4) << 1) as usize;
        let rm = (b & 7) as usize;
        let mode = b >> 6;
        if mode == 3 {
            return (reg, Ok(rm | ((rex & 1) << 3) as usize));
        }
        let base = if rm == 4 {
            let sib = self.fetch(1);
            assert_eq!((sib >> 3) & 7, 4);
            (sib & 7) as usize
        } else {
            assert!(!(rm == 5 && mode == 0));
            rm
        } | ((rex & 1) << 3) as usize;
        let disp = match mode {
            0 => 0,
            1 => self.fetch(1) as u8 as i8 as i64 as u64,
            _ => self.fetch32(),
        };
        (reg, Err(self.regs[base].wrapping_add(disp)))
    }

    fn get(&mut self, rm: Result<usize, u64>, n: u64) -> u64 {
        match rm {
            Ok(r) => {
                if n == 8 {
                    self.regs[r]
                } else {
                    self.regs[r] & ((1 << (8 * n)) - 1)
                }
            }
            Err(a) => self.read(a, n),
        }
    }

    fn set(&mut self, rm: Result<usize, u64>, n: u64, v: u64) {
        match rm {
            Ok(r) => {
                self.regs[r] = if n == 4 { v as u32 as u64 } else { v };
            }
            Err(a) => self.write(a, n, v),
        }
    }

    fn alu(&mut self, op: u64, a: u64, b: u64) -> Option<u64> {
        match op {
            0 => Some(self.sum(a, b, 0)),
            1 => {
                self.logic(a | b);
                Some(a | b)
            }
            2 => {
                let c = self.cf as u64;
                Some(self.sum(a, b, c))
            }
            3 => {
                let c = self.cf as u64;
                Some(self.difference(a, b, c))
            }
            4 => {
                self.logic(a & b);
                Some(a & b)
            }
            5 => Some(self.difference(a, b, 0)),
            6 => {
                self.logic(a ^ b);
                Some(a ^ b)
            }
            _ => {
                self.difference(a, b, 0);
                None
            }
        }
    }

    fn syscall(&mut self) {
        match self.regs[0] {
            1 => {
                let (fd, addr, n) = (self.regs[7], self.regs[6], self.regs[2]);
                let mut bytes = Vec::new();
                for i in 0..n {
                    bytes.push(*self.at(addr + i));
                }
                if fd == 1 {
                    self.out.extend_from_slice(&bytes);
                } else {
                    assert_eq!(fd, 2);
                    self.err.extend_from_slice(&bytes);
                }
                self.regs[0] = n;
            }
            60 | 231 => self.exit = Some(self.regs[7] & 0xFF),
            n => panic!("system call {n}"),
        }
        self.regs[1] = 0xDEAD;
        self.regs[11] = 0xDEAD;
    }

    fn float(&mut self, op: u64, rex: u64) {
        let (reg, rm) = self.modrm(rex);
        let value = |cpu: &mut Cpu| match rm {
            Ok(r) => cpu.xmm[r],
            Err(a) => f64::from_bits(cpu.read(a, 8)),
        };
        match op {
            0x10 => self.xmm[reg] = value(self),
            0x11 => {
                let bits = self.xmm[reg].to_bits();
                self.write(rm.unwrap_err(), 8, bits);
            }
            0x58 => self.xmm[reg] += value(self),
            0x5C => self.xmm[reg] -= value(self),
            0x59 => self.xmm[reg] *= value(self),
            0x5E => self.xmm[reg] /= value(self),
            0x2A => self.xmm[reg] = self.regs[rm.unwrap()] as i64 as f64,
            0x2C => self.regs[reg] = self.xmm[rm.unwrap()] as i64 as u64,
            0x6E => self.xmm[reg] = f64::from_bits(self.regs[rm.unwrap()]),
            0x2E => {
                let (a, b) = (self.xmm[reg], value(self));
                self.zf = a == b;
                self.cf = a < b;
                self.of = false;
                self.sf = false;
            }
            o => panic!("float {o:#x}"),
        }
    }

    fn step(&mut self) {
        let mut op = self.fetch(1);
        let mut half = false;
        let mut rep = false;
        let mut double = false;
        if op == 0xF2 {
            double = true;
            op = self.fetch(1);
        }
        if op == 0x66 {
            half = true;
            op = self.fetch(1);
        }
        if op == 0xF3 {
            rep = true;
            op = self.fetch(1);
        }
        let mut rex = 0;
        if op & 0xF0 == 0x40 {
            rex = op & 0xF;
            op = self.fetch(1);
        }
        let width = if rex & 8 != 0 {
            8
        } else if half {
            2
        } else {
            4
        };
        match op {
            0x50..=0x57 => {
                let r = (op & 7 | (rex & 1) << 3) as usize;
                self.push(self.regs[r]);
            }
            0x58..=0x5F => {
                let r = (op & 7 | (rex & 1) << 3) as usize;
                self.regs[r] = self.pop();
            }
            0x01 | 0x09 | 0x11 | 0x19 | 0x21 | 0x29 | 0x31 | 0x39 => {
                let (reg, rm) = self.modrm(rex);
                let (a, b) = (self.get(rm, 8), self.regs[reg]);
                if let Some(v) = self.alu(op >> 3, a, b) {
                    self.set(rm, 8, v);
                }
            }
            0x63 => {
                let (reg, rm) = self.modrm(rex);
                self.regs[reg] = self.get(rm, 4) as u32 as i32 as i64 as u64;
            }
            0x69 => {
                let (reg, rm) = self.modrm(rex);
                let a = self.get(rm, 8);
                let b = self.fetch32();
                self.regs[reg] = a.wrapping_mul(b);
            }
            0x81 => {
                let (reg, rm) = self.modrm(rex);
                let a = self.get(rm, 8);
                let b = self.fetch32();
                if let Some(v) = self.alu((reg & 7) as u64, a, b) {
                    self.set(rm, 8, v);
                }
            }
            0x85 => {
                let (reg, rm) = self.modrm(rex);
                let v = self.get(rm, 8) & self.regs[reg];
                self.logic(v);
            }
            0x88 => {
                let (reg, rm) = self.modrm(rex);
                let v = self.regs[reg];
                self.set(rm, 1, v);
            }
            0x89 => {
                let (reg, rm) = self.modrm(rex);
                let v = self.regs[reg];
                self.set(rm, width, v);
            }
            0x8B => {
                let (reg, rm) = self.modrm(rex);
                self.regs[reg] = self.get(rm, width);
            }
            0x8D => {
                let (reg, rm) = self.modrm(rex);
                self.regs[reg] = rm.unwrap_err();
            }
            0x99 => {
                self.regs[2] = ((self.regs[0] as i64) >> 63) as u64;
            }
            0xA4 => {
                assert!(rep);
                while self.regs[1] != 0 {
                    let b = self.read(self.regs[6], 1);
                    self.write(self.regs[7], 1, b);
                    self.regs[6] += 1;
                    self.regs[7] += 1;
                    self.regs[1] -= 1;
                }
            }
            0xB8..=0xBF => {
                let r = (op & 7 | (rex & 1) << 3) as usize;
                self.regs[r] = self.fetch(8);
            }
            0xC1 | 0xD3 => {
                let (kind, rm) = self.modrm(rex);
                let r = rm.unwrap();
                let n = if op == 0xC1 { self.fetch(1) } else { self.regs[1] } & 63;
                self.regs[r] = match kind & 7 {
                    4 => self.regs[r] << n,
                    5 => self.regs[r] >> n,
                    _ => ((self.regs[r] as i64) >> n) as u64,
                };
            }
            0xC3 => self.rip = self.pop(),
            0xC7 => {
                let (_, rm) = self.modrm(rex);
                let v = self.fetch32();
                self.set(rm, 8, v);
            }
            0xC9 => {
                self.regs[4] = self.regs[5];
                self.regs[5] = self.pop();
            }
            0xE8 => {
                let d = self.fetch32();
                let back = self.rip;
                self.push(back);
                self.rip = self.rip.wrapping_add(d);
            }
            0xE9 => {
                let d = self.fetch32();
                self.rip = self.rip.wrapping_add(d);
            }
            0xF7 => {
                let (kind, rm) = self.modrm(rex);
                let r = rm.unwrap();
                let (rax, rdx, v) = (self.regs[0], self.regs[2], self.regs[r]);
                match kind & 7 {
                    2 => self.regs[r] = !v,
                    3 => self.regs[r] = self.difference(0, v, 0),
                    4 => {
                        let p = rax as u128 * v as u128;
                        self.regs[0] = p as u64;
                        self.regs[2] = (p >> 64) as u64;
                        self.cf = self.regs[2] != 0;
                        self.of = self.cf;
                    }
                    5 => {
                        let p = rax as i64 as i128 * v as i64 as i128;
                        self.regs[0] = p as u64;
                        self.regs[2] = (p >> 64) as u64;
                        self.cf = p != p as i64 as i128;
                        self.of = self.cf;
                    }
                    6 => {
                        let n = (rdx as u128) << 64 | rax as u128;
                        assert!(n / v as u128 <= u64::MAX as u128);
                        self.regs[0] = (n / v as u128) as u64;
                        self.regs[2] = (n % v as u128) as u64;
                    }
                    7 => {
                        let n = ((rdx as u128) << 64 | rax as u128) as i128;
                        self.regs[0] = (n / v as i64 as i128) as u64;
                        self.regs[2] = (n % v as i64 as i128) as u64;
                    }
                    k => panic!("F7 /{k}"),
                }
            }
            0x0F => {
                let op2 = self.fetch(1);
                if double || half {
                    self.float(op2, rex);
                    return;
                }
                match op2 {
                    0x05 => self.syscall(),
                    0x80..=0x8F => {
                        let d = self.fetch32();
                        if self.holds((op2 & 0xF) as u8) {
                            self.rip = self.rip.wrapping_add(d);
                        }
                    }
                    0x90..=0x9F => {
                        let (_, rm) = self.modrm(rex);
                        let r = rm.unwrap();
                        let bit = self.holds((op2 & 0xF) as u8) as u64;
                        self.regs[r] = self.regs[r] & !0xFF | bit;
                    }
                    0xAF => {
                        let (reg, rm) = self.modrm(rex);
                        let b = self.get(rm, 8);
                        let p = self.regs[reg] as i64 as i128 * b as i64 as i128;
                        self.regs[reg] = p as u64;
                        self.cf = p != p as i64 as i128;
                        self.of = self.cf;
                    }
                    0xB6 | 0xB7 | 0xBE | 0xBF => {
                        let (reg, rm) = self.modrm(rex);
                        let n = if op2 & 1 == 0 { 1 } else { 2 };
                        let v = self.get(rm, n);
                        self.regs[reg] = match op2 {
                            0xBE => v as u8 as i8 as i64 as u64,
                            0xBF => v as u16 as i16 as i64 as u64,
                            _ => v,
                        };
                    }
                    o => panic!("0F {o:#x}"),
                }
            }
            o => panic!("opcode {o:#x} at {:#x}", self.rip),
        }
    }

    fn run(&mut self) -> u64 {
        for _ in 0..200_000 {
            self.step();
            if let Some(code) = self.exit {
                return code;
            }
        }
        panic!("no exit");
    }
}

// ---------------------------------------------------------------------------
//  Programs
// ---------------------------------------------------------------------------

fn copy(l: u32) -> Operand {
    Operand::Copy(Place { base: LocalId(l), proj: Vec::new() })
}

fn part(l: u32, proj: Vec<Proj>) -> Operand {
    Operand::Copy(Place { base: LocalId(l), proj })
}

fn num(value: i128, ty: TypeId) -> Operand {
    Operand::Const(Const::Int { value, ty })
}

fn assign(l: u32, rvalue: Rvalue) -> Statement {
    Statement::Assign { place: Place { base: LocalId(l), proj: Vec::new() }, rvalue }
}

fn assign_to(l: u32, proj: Vec<Proj>, rvalue: Rvalue) -> Statement {
    Statement::Assign { place: Place { base: LocalId(l), proj }, rvalue }
}

fn binary(op: BinOp, lhs: Operand, rhs: Operand, ty: TypeId) -> Rvalue {
    Rvalue::Binary { op, lhs, rhs, ty }
}

fn block(stmts: Vec<Statement>, term: Terminator) -> Block {
    Block { stmts, term, lines: Vec::new() }
}

fn ret(value: Operand) -> Terminator {
    Terminator::Return { value }
}

fn field(index: u32, ty: TypeId) -> Proj {
    Proj::Field { index, ty, packed: None }
}

fn function(
    id: u32,
    name: &str,
    params: u32,
    locals: &[TypeId],
    ret: TypeId,
    blocks: Vec<Block>,
) -> MirFunction {
    MirFunction {
        id: FnId(id),
        name: name.to_string(),
        line: 1,
        is_extern_decl: false,
        linkage: Linkage::Internal,
        params: (0..params).map(LocalId).collect(),
        locals: locals.iter().map(|&ty| LocalDecl { ty }).collect(),
        blocks,
        ret,
        abi: FnAbi::Native,
        varargs: false,
    }
}

/// Every local in memory.
fn spilled(f: &MirFunction) -> RegAlloc {
    let n = f.locals.len();
    RegAlloc {
        loc: vec![Loc::Spill; n],
        needs_home: vec![true; n],
        home_ty: vec![None; n],
        home_size: vec![None; n],
        callee_saved: Vec::new(),
        eu_result: vec![None; n],
        array_len: vec![None; n],
        agg_fields: (0..n).map(|_| None).collect(),
    }
}

fn program(arena: TypeArena, funcs: Vec<MirFunction>, consts: Vec<ConstData>) -> MirProgram {
    MirProgram {
        arena,
        funcs,
        consts,
        err_names: vec![
            (ErrTag(1), "OutOfMemory".to_string()),
            (ErrTag(7), "Oops".to_string()),
        ],
        mode: BuildMode::Debug,
        entries: Vec::new(),
    }
}

fn support(prog: &MirProgram) -> Support {
    Support {
        allocs: prog.funcs.iter().map(spilled).collect(),
        abi: RuntimeAbi {
            clock_nanos: 0,
            rng_state: 8,
            kind_tags: vec![0, 1, 2, 3],
            other_kind: 0,
        },
        runtime: Runtime { routines: Vec::new(), state_size: 64, rng_state: 8, reg_next: 16 },
    }
}

fn run_with(prog: &MirProgram, sup: &Support) -> (u64, String, String) {
    assert!(is_compilable(prog, Target::X86_64Linux, sup));
    let image = compile_program_to_elf(prog, sup).unwrap();
    let mut cpu = Cpu::load(&image.bytes);
    let code = cpu.run();
    (
        code,
        String::from_utf8(cpu.out).unwrap(),
        String::from_utf8(cpu.err).unwrap(),
    )
}

fn run(prog: &MirProgram) -> (u64, String, String) {
    run_with(prog, &support(prog))
}

fn message(e: CodegenError) -> String {
    e.message()
}

fn i64_of(arena: &mut TypeArena) -> TypeId {
    arena.intern(Type::Int { signed: true, bits: IntBits::Fixed(64) })
}

fn sized(arena: &mut TypeArena, signed: bool, n: u16) -> TypeId {
    arena.intern(Type::Int { signed, bits: IntBits::Fixed(n) })
}

/// A program whose `main` returns the value of one computation on two constants.
fn computed(signed: bool, width: u16, op: BinOp, a: i128, b: i128) -> i64 {
    let mut arena = TypeArena::new();
    let ty = sized(&mut arena, signed, width);
    let word = i64_of(&mut arena);
    let main = function(
        0,
        "main",
        0,
        &[ty, ty, ty, word],
        word,
        vec![block(
            vec![
                assign(0, Rvalue::Use(num(a, ty))),
                assign(1, Rvalue::Use(num(b, ty))),
                assign(2, binary(op, copy(0), copy(1), ty)),
                assign(3, Rvalue::Cast { kind: CastKind::Widen, operand: copy(2), ty: word }),
            ],
            ret(copy(3)),
        )],
    );
    let prog = program(arena, vec![main], Vec::new());
    let mut sup = support(&prog);
    let in_memory = result_of(&prog, &sup);
    let regs = [Gpr::Rbx, Gpr::R12, Gpr::R13];
    for i in 0..3 {
        sup.allocs[0].loc[i] = Loc::Reg(regs[i]);
        sup.allocs[0].needs_home[i] = false;
    }
    sup.allocs[0].callee_saved = regs.to_vec();
    assert_eq!(result_of(&prog, &sup), in_memory);
    in_memory
}

/// The whole word that `main` returns.
fn result_of(prog: &MirProgram, sup: &Support) -> i64 {
    assert!(is_compilable(prog, Target::X86_64Linux, sup));
    let image = compile_program(prog, Target::X86_64Linux, sup).unwrap();
    let mut cpu = Cpu::load(&image.bytes);
    // Stop at the exit and look at the whole result.
    cpu.run();
    cpu.regs[7] as i64
}

// ---------------------------------------------------------------------------
//  Tests
// ---------------------------------------------------------------------------

#[test]
fn main_returns_its_integer() {
    let mut arena = TypeArena::new();
    let ty = sized(&mut arena, true, 32);
    let main = function(0, "main", 0, &[], ty, vec![block(Vec::new(), ret(num(42, ty)))]);
    let prog = program(arena, vec![main], Vec::new());
    let (code, out, err) = run(&prog);
    assert_eq!(code, 42);
    assert_eq!(out, "");
    assert_eq!(err, "");
}

#[test]
fn lowered_bytes_of_a_constant() {
    let mut arena = TypeArena::new();
    let ty = sized(&mut arena, true, 32);
    let main = function(0, "main", 0, &[], ty, vec![block(Vec::new(), ret(num(42, ty)))]);
    let prog = program(arena, vec![main], Vec::new());
    let sup = support(&prog);
    let image = compile_program_to_elf(&prog, &sup).unwrap();
    let code: Vec<u8> = vec![
        0x55, // push rbp
        0x48, 0x89, 0xE5, // mov rbp, rsp
        0x48, 0xC7, 0xC0, 0x2A, 0, 0, 0, // mov rax, 42
        0x48, 0x63, 0xC0, // movsxd rax, eax
        0xC9, // leave
        0xC3, // ret
    ];
    let n = image.text_len as usize;
    let at = (image.text_vaddr - 0x40_0000) as usize;
    let text = &image.bytes[at..at + n];
    assert_eq!(&text[n - code.len()..], &code[..]);
}

#[test]
fn a_loop_sums_up() {
    let mut arena = TypeArena::new();
    let w = i64_of(&mut arena);
    let b = arena.t_bool();
    let main = function(
        0,
        "main",
        0,
        &[w, w, b],
        w,
        vec![
            block(
                vec![assign(0, Rvalue::Use(num(0, w))), assign(1, Rvalue::Use(num(1, w)))],
                Terminator::Goto(BlockId(1)),
            ),
            block(
                vec![assign(2, binary(BinOp::Le, copy(1), num(10, w), w))],
                Terminator::Branch { cond: copy(2), then_bb: BlockId(2), else_bb: BlockId(3) },
            ),
            block(
                vec![
                    assign(0, binary(BinOp::Add, copy(0), copy(1), w)),
                    assign(1, binary(BinOp::Add, copy(1), num(1, w), w)),
                ],
                Terminator::Goto(BlockId(1)),
            ),
            block(Vec::new(), ret(copy(0))),
        ],
    );
    let prog = program(arena, vec![main], Vec::new());
    assert_eq!(run(&prog).0, 55);
}

#[test]
fn locals_in_registers_survive_calls() {
    let mut arena = TypeArena::new();
    let w = i64_of(&mut arena);
    let callee = function(
        1,
        "twice",
        1,
        &[w, w],
        w,
        vec![block(vec![assign(1, binary(BinOp::Mul, copy(0), num(2, w), w))], ret(copy(1)))],
    );
    let main = function(
        0,
        "main",
        0,
        &[w, w, w],
        w,
        vec![block(
            vec![
                assign(0, Rvalue::Use(num(5, w))),
                assign(1, Rvalue::Call { func: FnId(1), args: vec![num(9, w)], ty: w }),
                assign(2, binary(BinOp::Add, copy(0), copy(1), w)),
            ],
            ret(copy(2)),
        )],
    );
    let prog = program(arena, vec![main, callee], Vec::new());
    let mut sup = support(&prog);
    sup.allocs[0].loc[0] = Loc::Reg(Gpr::Rbx);
    sup.allocs[0].needs_home[0] = false;
    sup.allocs[0].callee_saved = vec![Gpr::Rbx];
    sup.allocs[1].loc = vec![Loc::Reg(Gpr::Rbx), Loc::Reg(Gpr::R12)];
    sup.allocs[1].needs_home = vec![false, false];
    sup.allocs[1].callee_saved = vec![Gpr::Rbx, Gpr::R12];
    assert_eq!(run_with(&prog, &sup).0, 23);
}

#[test]
fn arguments_beyond_the_registers_go_on_the_stack() {
    let mut arena = TypeArena::new();
    let w = i64_of(&mut arena);
    let mut stmts = vec![assign(8, Rvalue::Use(num(0, w)))];
    for i in 0..8 {
        // 8 * acc + arg would overflow an exit code: weigh the arguments by position.
        stmts.push(assign(9, binary(BinOp::Mul, copy(i), num(i as i128 + 1, w), w)));
        stmts.push(assign(8, binary(BinOp::Add, copy(8), copy(9), w)));
    }
    let callee = function(1, "weigh", 8, &[w; 10], w, vec![block(stmts, ret(copy(8)))]);
    let main = function(
        0,
        "main",
        0,
        &[w],
        w,
        vec![block(
            vec![assign(
                0,
                Rvalue::Call {
                    func: FnId(1),
                    args: vec![3, 1, 4, 1, 5, 9, 2, 6].into_iter().map(|v| num(v, w)).collect(),
                    ty: w,
                },
            )],
            ret(copy(0)),
        )],
    );
    let prog = program(arena, vec![main, callee], Vec::new());
    assert_eq!(run(&prog).0, 3 + 2 + 12 + 4 + 25 + 54 + 14 + 48);
}

#[test]
fn integer_arithmetic() {
    assert_eq!(computed(true, 64, BinOp::Add, 40, 2), 42);
    assert_eq!(computed(true, 64, BinOp::Sub, 40, 42), -2);
    assert_eq!(computed(true, 64, BinOp::Mul, -6, 7), -42);
    assert_eq!(computed(true, 64, BinOp::Div, -43, 7), -6);
    assert_eq!(computed(true, 64, BinOp::Rem, -43, 7), -1);
    assert_eq!(computed(false, 8, BinOp::Div, 200, 7), 28);
    assert_eq!(computed(false, 8, BinOp::Rem, 200, 7), 4);
    assert_eq!(computed(false, 8, BinOp::Add, 250, 10), 4);
    assert_eq!(computed(true, 8, BinOp::Add, 120, 10), -126);
    assert_eq!(computed(false, 32, BinOp::Sub, 3, 5), 0xFFFF_FFFE);
    assert_eq!(computed(true, 16, BinOp::Mul, 300, 300), 90000 - 65536);
    assert_eq!(computed(false, 32, BinOp::BitAnd, 0b1100, 0b1010), 0b1000);
    assert_eq!(computed(false, 32, BinOp::BitOr, 0b1100, 0b1010), 0b1110);
    assert_eq!(computed(false, 32, BinOp::BitXor, 0b1100, 0b1010), 0b0110);
    assert_eq!(computed(false, 32, BinOp::Shl, 3, 4), 48);
    assert_eq!(computed(false, 32, BinOp::Shr, 0xF000_0000, 28), 15);
    assert_eq!(computed(true, 32, BinOp::Shr, -64, 3), -8);
    assert_eq!(computed(true, 24, BinOp::Add, 0x7F_FFFF, 1), -0x80_0000);
    assert_eq!(computed(true, 7, BinOp::Add, 60, 10), -58);
    assert_eq!(computed(true, 12, BinOp::Sub, -2000, 100), 1996);
    assert_eq!(computed(true, 20, BinOp::Mul, -3, 5), -15);
    assert_eq!(computed(false, 5, BinOp::Add, 30, 3), 1);
}

#[test]
fn unsigned_widths_beyond_half_a_word() {
    let top48: i128 = (1 << 48) - 1;
    assert_eq!(computed(false, 48, BinOp::Add, top48, 1), 0);
    assert_eq!(computed(false, 48, BinOp::Add, top48, 7), 6);
    assert_eq!(computed(false, 48, BinOp::Sub, 3, 5), (top48 - 1) as i64);
    assert_eq!(computed(false, 48, BinOp::Mul, 1 << 40, 1 << 10), 0);
    assert_eq!(computed(false, 48, BinOp::Mul, (1 << 40) + 3, 1 << 10), 3 << 10);
    assert_eq!(computed(false, 48, BinOp::Div, top48, 10), (top48 / 10) as i64);
    assert_eq!(computed(false, 48, BinOp::Shl, 1, 47), 1 << 47);
    assert_eq!(computed(false, 33, BinOp::Add, 1 << 32, 1 << 32), 0);
    assert_eq!(computed(false, 33, BinOp::Sub, 0, 1), (1 << 33) - 1);
    assert_eq!(computed(false, 63, BinOp::Sub, 0, 1), i64::MAX);
    assert_eq!(computed(false, 40, BinOp::Eq, 5, 5), 1);
    assert_eq!(computed(false, 40, BinOp::Lt, 1 << 39, 3), 0);
    assert_eq!(computed(true, 48, BinOp::Add, (1 << 47) - 1, 1), -(1 << 47));
}

#[test]
fn a_parameter_of_forty_eight_bits() {
    for (x, same) in [(5i128, 1u64), (6, 0), ((1 << 48) - 1, 0)] {
        let mut arena = TypeArena::new();
        let w = i64_of(&mut arena);
        let u = sized(&mut arena, false, 48);
        let truth = arena.t_bool();
        let callee = function(
            1,
            "is_five",
            1,
            &[u, truth],
            truth,
            vec![block(
                vec![assign(1, binary(BinOp::Eq, copy(0), num(5, u), truth))],
                ret(copy(1)),
            )],
        );
        let main = function(
            0,
            "main",
            0,
            &[truth, w],
            w,
            vec![block(
                vec![
                    assign(
                        0,
                        Rvalue::Call { func: FnId(1), args: vec![num(x, u)], ty: truth },
                    ),
                    assign(1, Rvalue::Cast { kind: CastKind::Widen, operand: copy(0), ty: w }),
                ],
                ret(copy(1)),
            )],
        );
        let prog = program(arena, vec![main, callee], Vec::new());
        assert_eq!(run(&prog).0, same);
    }
}

#[test]
fn decimal_numbers_of_every_length() {
    let mut v: i128 = 0;
    for d in [1, 2, 3, 4, 5, 6, 7, 8, 9, 0, 9, 8, 7, 6, 5, 4, 3, 2, 1, 9, 0, 1] {
        v = v * 10 + d;
        assert_eq!(printed("{d}", &[(false, 128)], &[v]), v.to_string());
        assert_eq!(printed("{d}", &[(true, 128)], &[-v]), (-v).to_string());
    }
    // Either word alone, and a borrow from the high one.
    for v in [1i128 << 64, (1 << 64) - 1, -(1 << 64), i128::MIN, i128::MIN + 1] {
        assert_eq!(printed("{d}", &[(true, 128)], &[v]), v.to_string());
    }
    assert_eq!(printed("{d}", &[(true, 64)], &[i64::MIN as i128]), i64::MIN.to_string());
    assert_eq!(printed("<{d}>", &[(false, 48)], &[(1 << 48) - 1]), "<281474976710655>");
}

#[test]
fn comparisons_by_signedness() {
    assert_eq!(computed(true, 8, BinOp::Lt, -1, 1), 1);
    assert_eq!(computed(false, 8, BinOp::Lt, 255, 1), 0);
    assert_eq!(computed(true, 64, BinOp::Ge, -5, -5), 1);
    assert_eq!(computed(false, 64, BinOp::Gt, 5, 6), 0);
    assert_eq!(computed(true, 32, BinOp::Eq, 7, 7), 1);
    assert_eq!(computed(true, 32, BinOp::Ne, 7, 7), 0);
    assert_eq!(computed(false, 16, BinOp::Le, 65535, 65535), 1);
}

#[test]
fn unary_operations() {
    let mut arena = TypeArena::new();
    let ty = sized(&mut arena, true, 8);
    let w = i64_of(&mut arena);
    let b = arena.t_bool();
    let main = function(
        0,
        "main",
        0,
        &[ty, ty, b, w, w, w, w],
        w,
        vec![block(
            vec![
                assign(0, Rvalue::Unary { un: UnOp::Neg, operand: num(5, ty), ty }),
                assign(1, Rvalue::Unary { un: UnOp::BitNot, operand: num(9, ty), ty }),
                assign(
                    2,
                    Rvalue::Unary {
                        un: UnOp::Not,
                        operand: Operand::Const(Const::Bool(false)),
                        ty: b,
                    },
                ),
                // -5 * -10 + 1
                assign(3, Rvalue::Cast { kind: CastKind::Widen, operand: copy(0), ty: w }),
                assign(4, Rvalue::Cast { kind: CastKind::Widen, operand: copy(1), ty: w }),
                assign(5, binary(BinOp::Mul, copy(3), copy(4), w)),
                assign(6, binary(BinOp::Add, copy(5), copy(2), w)),
            ],
            ret(copy(6)),
        )],
    );
    let prog = program(arena, vec![main], Vec::new());
    assert_eq!(run(&prog).0, 51);
}

fn member(path: &[&str], root: Operand, args: Vec<Operand>) -> Rvalue {
    Rvalue::Intrinsic {
        path: IntrinsicPath {
            root: IntrinsicRoot::Value(root),
            members: path.iter().map(|s| s.to_string()).collect(),
        },
        args,
    }
}

fn system(path: &[&str]) -> Rvalue {
    Rvalue::Intrinsic {
        path: IntrinsicPath {
            root: IntrinsicRoot::System,
            members: path.iter().map(|s| s.to_string()).collect(),
        },
        args: Vec::new(),
    }
}

fn builtin(name: &str, args: Vec<Operand>) -> Rvalue {
    Rvalue::Intrinsic {
        path: IntrinsicPath {
            root: IntrinsicRoot::Builtin(name.to_string()),
            members: Vec::new(),
        },
        args,
    }
}

/// A program that prints values by a format string.
fn printed(format: &str, types: &[(bool, u16)], values: &[i128]) -> String {
    let mut arena = TypeArena::new();
    let w = i64_of(&mut arena);
    let tys: Vec<TypeId> = types
        .iter()
        .map(|&(signed, n)| {
            if n == 0 {
                if signed {
                    arena.t_bool()
                } else {
                    arena.t_str()
                }
            } else {
                sized(&mut arena, signed, n)
            }
        })
        .collect();
    arena.structs.push(StructInfo {
        fields: tys
            .iter()
            .map(|&ty| FieldInfo { ty, bit_offset: None, bit_width: None })
            .collect(),
        packed: false,
    });
    let tuple = arena.intern(Type::Struct(StructId(0)));
    let fields = tys
        .iter()
        .zip(types)
        .zip(values)
        .map(|((&ty, &(signed, n)), &v)| {
            if n == 0 && signed {
                Operand::Const(Const::Bool(v != 0))
            } else if n == 0 {
                Operand::Const(Const::Str(ConstId(v as u32)))
            } else {
                num(v, ty)
            }
        })
        .collect();
    let main = function(
        0,
        "main",
        0,
        &[w, tuple],
        w,
        vec![block(
            vec![
                assign(0, system(&["io", "stdout"])),
                assign(1, Rvalue::Aggregate { agg: AggKind::Tuple, fields, ty: tuple }),
                Statement::Eval {
                    rvalue: member(
                        &["print"],
                        copy(0),
                        vec![Operand::Const(Const::Str(ConstId(0))), copy(1)],
                    ),
                },
            ],
            ret(num(0, w)),
        )],
    );
    let prog = program(
        arena,
        vec![main],
        vec![
            ConstData::Bytes(format.as_bytes().to_vec()),
            ConstData::Bytes(b"world".to_vec()),
            ConstData::Bytes(b"".to_vec()),
        ],
    );
    let (code, out, err) = run(&prog);
    assert_eq!(code, 0);
    assert_eq!(err, "");
    out
}

#[test]
fn hello_world() {
    assert_eq!(printed("hello, {s}!\n", &[(false, 0)], &[1]), "hello, world!\n");
    assert_eq!(printed(
        "a longer line of plain text {{}}\n",
        &[],
        &[],
    ), "a longer line of plain text {}\n");
    assert_eq!(printed("[{s}]", &[(false, 0)], &[2]), "[]");
}

#[test]
fn integers_in_every_radix() {
    assert_eq!(printed("{d}", &[(true, 64)], &[-1234567890123]), "-1234567890123");
    assert_eq!(printed("{d} {d}", &[(false, 8), (true, 8)], &[200, -128]), "200 -128");
    assert_eq!(printed("{}", &[(false, 64)], &[u64::MAX as i128]), "18446744073709551615");
    assert_eq!(printed("{x} {X}", &[(false, 32), (false, 32)], &[0xBEEF, 0xBEEF]), "beef BEEF");
    assert_eq!(printed("{b} {o}", &[(false, 8), (false, 16)], &[10, 64]), "1010 100");
    assert_eq!(printed("{x}", &[(true, 16)], &[-1]), "ffff");
    assert_eq!(printed("{x}{d}", &[(false, 8), (false, 8)], &[0, 0]), "00");
}

#[test]
fn wide_integers() {
    assert_eq!(
        printed("{d}", &[(false, 128)], &[i128::MAX]),
        "170141183460469231731687303715884105727"
    );
    assert_eq!(
        printed("{d}", &[(true, 128)], &[-170141183460469231731687303715884105727]),
        "-170141183460469231731687303715884105727"
    );
    assert_eq!(printed("{d}", &[(true, 128)], &[0]), "0");
    assert_eq!(printed("{d}", &[(true, 128)], &[-1]), "-1");
}

#[test]
fn truth_values() {
    assert_eq!(printed("{} {}", &[(true, 0), (true, 0)], &[1, 0]), "true false");
    assert_eq!(printed("{d}{d}", &[(true, 0), (true, 0)], &[1, 0]), "10");
}

#[test]
fn code_points() {
    assert_eq!(printed("{c}", &[(false, 32)], &[0x41]), "A");
    assert_eq!(printed("{c}", &[(false, 32)], &[0xE9]), "\u{E9}");
    assert_eq!(printed("{c}", &[(false, 32)], &[0x20AC]), "\u{20AC}");
    assert_eq!(printed("{c}", &[(false, 32)], &[0x1F600]), "\u{1F600}");
}

#[test]
fn padding() {
    assert_eq!(printed("[{d:>5}]", &[(true, 32)], &[42]), "[   42]");
    assert_eq!(printed("[{d:<5}]", &[(true, 32)], &[42]), "[42   ]");
    assert_eq!(printed("[{d:*^7}]", &[(true, 32)], &[42]), "[**42***]");
    assert_eq!(printed("[{s:>3}]", &[(false, 0)], &[1]), "[world]");
    assert_eq!(printed("[{d:0>4}]", &[(false, 8)], &[7]), "[0007]");
}

#[test]
fn an_error_leaves_main() {
    let mut arena = TypeArena::new();
    let void = arena.t_void();
    let set = arena.intern(Type::ErrorSet(0));
    let eu = arena.intern(Type::ErrorUnion { ok: void });
    let err = |tag| Operand::Const(Const::ErrVal { tag: ErrTag(tag), ty: set });
    let main = function(0, "main", 0, &[], eu, vec![block(Vec::new(), ret(err(7)))]);
    let prog = program(arena, vec![main], Vec::new());
    let (code, out, stderr) = run(&prog);
    assert_eq!((code, out.as_str(), stderr.as_str()), (1, "", "error: Oops\n"));

    // Found at run time, and without a name.
    for (tag, line) in [(7, "error: Oops\n"), (1, "error: OutOfMemory\n"), (9, "error: error\n")] {
        let mut arena = TypeArena::new();
        let void = arena.t_void();
        let eu = arena.intern(Type::ErrorUnion { ok: void });
        let main = function(
            0,
            "main",
            0,
            &[eu],
            eu,
            vec![block(vec![assign(0, Rvalue::MakeErr(ErrTag(tag), eu))], ret(copy(0)))],
        );
        let prog = program(arena, vec![main], Vec::new());
        let (code, _, stderr) = run(&prog);
        assert_eq!((code, stderr.as_str()), (1, line));
    }
}

#[test]
fn a_void_main_exits_with_zero() {
    let mut arena = TypeArena::new();
    let void = arena.t_void();
    let eu = arena.intern(Type::ErrorUnion { ok: void });
    let main = function(
        0,
        "main",
        0,
        &[],
        eu,
        vec![block(Vec::new(), ret(Operand::Const(Const::Void)))],
    );
    let prog = program(arena, vec![main], Vec::new());
    assert_eq!(run(&prog).0, 0);
}

#[test]
fn traps_say_why() {
    for (reason, line) in [
        (TrapReason::Bounds, "panic: index out of bounds\n"),
        (TrapReason::Overflow, "panic: integer overflow\n"),
        (TrapReason::DivByZero, "panic: division by zero\n"),
        (TrapReason::NegOverflow, "panic: negation of minimum integer\n"),
        (TrapReason::NarrowLoss, "panic: cast truncated value\n"),
        (TrapReason::LenMismatch, "panic: for loop length mismatch\n"),
        (TrapReason::Unreachable, "panic: reached unreachable code\n"),
        (TrapReason::Panic, "panic: reached @panic / unwrapped null\n"),
    ] {
        let mut arena = TypeArena::new();
        let w = i64_of(&mut arena);
        let main = function(
            0,
            "main",
            0,
            &[],
            w,
            vec![block(Vec::new(), Terminator::Trap { reason })],
        );
        let prog = program(arena, vec![main], Vec::new());
        let (code, _, stderr) = run(&prog);
        assert_eq!((code, stderr.as_str()), (134, line));
    }
}

fn predicate(name: &str, signed: bool, width: u16, values: &[i128]) -> u64 {
    let mut arena = TypeArena::new();
    let w = i64_of(&mut arena);
    let b = arena.t_bool();
    let ty = sized(&mut arena, signed, width);
    let args = values.iter().map(|&v| num(v, ty)).collect();
    let main = function(
        0,
        "main",
        0,
        &[b],
        w,
        vec![block(vec![assign(0, builtin(name, args))], ret(copy(0)))],
    );
    run(&program(arena, vec![main], Vec::new())).0
}

#[test]
fn overflow_predicates() {
    assert_eq!(predicate("no_add_overflow", true, 8, &[100, 27]), 1);
    assert_eq!(predicate("no_add_overflow", true, 8, &[100, 28]), 0);
    assert_eq!(predicate("no_add_overflow", false, 64, &[u64::MAX as i128, 1]), 0);
    assert_eq!(predicate("no_add_overflow", true, 64, &[i64::MAX as i128, 1]), 0);
    assert_eq!(predicate("no_add_overflow", true, 64, &[5, 1]), 1);
    assert_eq!(predicate("no_sub_overflow", false, 32, &[3, 4]), 0);
    assert_eq!(predicate("no_sub_overflow", false, 64, &[4, 3]), 1);
    assert_eq!(predicate("no_mul_overflow", false, 8, &[16, 16]), 0);
    assert_eq!(predicate("no_mul_overflow", true, 64, &[1 << 40, 1 << 40]), 0);
    assert_eq!(predicate("no_mul_overflow", false, 64, &[1 << 31, 1 << 32]), 1);
    assert_eq!(predicate("no_add_overflow", true, 128, &[i128::MAX, 1]), 0);
    assert_eq!(predicate("no_sub_overflow", true, 128, &[i128::MIN + 1, 1]), 1);
    assert_eq!(predicate("no_div_overflow", true, 32, &[i32::MIN as i128, -1]), 0);
    assert_eq!(predicate("no_div_overflow", true, 32, &[i32::MIN as i128, 1]), 1);
    assert_eq!(predicate("no_div_overflow", false, 32, &[7, 1]), 1);
    assert_eq!(predicate("no_add_overflow", true, 7, &[60, 3]), 1);
    assert_eq!(predicate("no_add_overflow", true, 7, &[60, 4]), 0);
    assert_eq!(predicate("no_sub_overflow", true, 12, &[-2000, 48]), 1);
    assert_eq!(predicate("no_sub_overflow", true, 12, &[-2000, 49]), 0);
    assert_eq!(predicate("no_neg_overflow", true, 16, &[-32768]), 0);
    assert_eq!(predicate("no_neg_overflow", true, 16, &[-32767]), 1);
    assert_eq!(predicate("no_neg_overflow", true, 128, &[i128::MIN]), 0);
    assert_eq!(predicate("no_neg_overflow", true, 128, &[1]), 1);
}

#[test]
fn a_narrowing_that_fits() {
    for (v, fits) in [(127, 1), (128, 0), (-128, 1), (-129, 0)] {
        let mut arena = TypeArena::new();
        let w = i64_of(&mut arena);
        let b = arena.t_bool();
        let ty = sized(&mut arena, true, 8);
        let main = function(
            0,
            "main",
            0,
            &[b],
            w,
            vec![block(
                vec![assign(
                    0,
                    builtin("narrow_fits", vec![num(v, w), Operand::Const(Const::Undef { ty })]),
                )],
                ret(copy(0)),
            )],
        );
        assert_eq!(run(&program(arena, vec![main], Vec::new())).0, fits);
    }
}

#[test]
fn structs_and_references() {
    let mut arena = TypeArena::new();
    let w = i64_of(&mut arena);
    let small = sized(&mut arena, false, 8);
    arena.structs.push(StructInfo {
        fields: vec![
            FieldInfo { ty: small, bit_offset: None, bit_width: None },
            FieldInfo { ty: w, bit_offset: None, bit_width: None },
            FieldInfo { ty: small, bit_offset: None, bit_width: None },
        ],
        packed: false,
    });
    let st = arena.intern(Type::Struct(StructId(0)));
    let ptr = arena.intern(Type::Pointer { pointee: st });
    let main = function(
        0,
        "main",
        0,
        &[st, st, ptr, w, w],
        w,
        vec![block(
            vec![
                assign(
                    0,
                    Rvalue::Aggregate {
                        agg: AggKind::Struct,
                        fields: vec![num(200, small), num(-3, w), num(7, small)],
                        ty: st,
                    },
                ),
                assign(1, Rvalue::Use(copy(0))),
                assign(2, Rvalue::Ref { place: Place { base: LocalId(1), proj: Vec::new() } }),
                // p.*.1 = 5, through the pointer; the first copy keeps -3.
                assign_to(2, vec![Proj::Deref, field(1, w)], Rvalue::Use(num(5, w))),
                assign(
                    3,
                    binary(BinOp::Add, part(1, vec![field(1, w)]), part(0, vec![field(1, w)]), w),
                ),
                assign(
                    4,
                    binary(BinOp::Add, copy(3), part(2, vec![Proj::Deref, field(0, small)]), w),
                ),
            ],
            ret(copy(4)),
        )],
    );
    assert_eq!(run(&program(arena, vec![main], Vec::new())).0, 202);
}

#[test]
fn arrays_and_slices() {
    let mut arena = TypeArena::new();
    let w = i64_of(&mut arena);
    let half = sized(&mut arena, true, 16);
    let arr = arena.intern(Type::Array { len: ArrayLen::Known(4), elem: half });
    let slice = arena.intern(Type::Slice { elem: half });
    let index = |at: Operand| Proj::Index { at, ty: half };
    let main = function(
        0,
        "main",
        0,
        &[arr, slice, w, w, w],
        w,
        vec![block(
            vec![
                assign(
                    0,
                    Rvalue::Aggregate {
                        agg: AggKind::Array,
                        fields: vec![num(1, half), num(-2, half), num(30, half), num(4, half)],
                        ty: arr,
                    },
                ),
                // s = a[1..4]
                assign(
                    1,
                    Rvalue::MakeSlice { ptr: copy(0), offset: num(1, w), len: num(3, w), ty: slice },
                ),
                assign_to(1, vec![index(num(2, w))], Rvalue::Use(num(11, half))),
                assign(
                    2,
                    binary(
                        BinOp::Add,
                        part(1, vec![index(num(0, w))]),
                        part(1, vec![index(num(1, w))]),
                        w,
                    ),
                ),
                assign(3, binary(BinOp::Add, copy(2), part(0, vec![index(num(3, w))]), w)),
                assign(
                    4,
                    binary(
                        BinOp::Add,
                        copy(3),
                        part(1, vec![Proj::SliceMeta { which: SliceMeta::Len, ty: w }]),
                        w,
                    ),
                ),
            ],
            ret(copy(4)),
        )],
    );
    // -2 + 30 + 11 + 3
    assert_eq!(run(&program(arena, vec![main], Vec::new())).0, 42);
}

#[test]
fn optionals_and_error_unions() {
    let mut arena = TypeArena::new();
    let w = i64_of(&mut arena);
    let b = arena.t_bool();
    let opt = arena.intern(Type::Optional(w));
    let eu = arena.intern(Type::ErrorUnion { ok: w });
    let payload = || vec![Proj::Payload { ty: w }];
    let discr = |l: u32, of: DiscrKind| Rvalue::Discriminant { operand: copy(l), of };
    let main = function(
        0,
        "main",
        0,
        &[opt, opt, eu, eu, b, b, b, b, w, w, w, w, w],
        w,
        vec![block(
            vec![
                assign(0, Rvalue::MakeSome(num(20, w), opt)),
                assign(1, Rvalue::MakeNull(opt)),
                assign(2, Rvalue::MakeOk(num(30, w), eu)),
                assign(3, Rvalue::MakeErr(ErrTag(7), eu)),
                assign(4, discr(0, DiscrKind::Optional)),
                assign(5, discr(1, DiscrKind::Optional)),
                assign(6, discr(2, DiscrKind::ErrorUnion)),
                assign(7, discr(3, DiscrKind::ErrorUnion)),
                // 20 + 30 + 0 + 2 * 1 + 4 * 0 + 8 * 1
                assign(8, binary(BinOp::Add, part(0, payload()), part(2, payload()), w)),
                assign(9, binary(BinOp::Add, copy(8), copy(4), w)),
                assign(10, binary(BinOp::Mul, copy(5), num(2, w), w)),
                assign(9, binary(BinOp::Add, copy(9), copy(10), w)),
                assign(11, binary(BinOp::Mul, copy(6), num(4, w), w)),
                assign(9, binary(BinOp::Add, copy(9), copy(11), w)),
                assign(12, binary(BinOp::Mul, copy(7), num(8, w), w)),
                assign(9, binary(BinOp::Add, copy(9), copy(12), w)),
            ],
            ret(copy(9)),
        )],
    );
    assert_eq!(run(&program(arena, vec![main], Vec::new())).0, 60);
}

#[test]
fn a_switch_takes_its_case() {
    for (v, code) in [(1, 10), (-5, 20), (1 << 40, 30), (2, 40)] {
        let mut arena = TypeArena::new();
        let w = i64_of(&mut arena);
        let main = function(
            0,
            "main",
            0,
            &[w],
            w,
            vec![
                block(
                    vec![assign(0, Rvalue::Use(num(v, w)))],
                    Terminator::Switch {
                        scrutinee: copy(0),
                        targets: vec![(1, BlockId(1)), (-5, BlockId(2)), (1 << 40, BlockId(3))],
                        default: BlockId(4),
                    },
                ),
                block(Vec::new(), ret(num(10, w))),
                block(Vec::new(), ret(num(20, w))),
                block(Vec::new(), ret(num(30, w))),
                block(Vec::new(), ret(num(40, w))),
            ],
        );
        assert_eq!(run(&program(arena, vec![main], Vec::new())).0, code);
    }
}

#[test]
fn aggregates_come_back_from_calls() {
    // One of two words in registers, one of three through memory, passed on by value.
    for n in [2u32, 3] {
        let mut arena = TypeArena::new();
        let w = i64_of(&mut arena);
        arena.structs.push(StructInfo {
            fields: (0..n)
                .map(|_| FieldInfo { ty: w, bit_offset: None, bit_width: None })
                .collect(),
            packed: false,
        });
        let st = arena.intern(Type::Struct(StructId(0)));
        let make = function(
            1,
            "make",
            1,
            &[w, st],
            st,
            vec![block(
                vec![assign(
                    1,
                    Rvalue::Aggregate {
                        agg: AggKind::Struct,
                        fields: (0..n).map(
                            |i| if i == 1 { copy(0) } else { num(i as i128 + 1, w) },
                        ).collect(),
                        ty: st,
                    },
                )],
                ret(copy(1)),
            )],
        );
        let mut stmts = vec![assign(1, Rvalue::Use(num(0, w)))];
        for i in 0..n {
            stmts.push(assign(1, binary(BinOp::Add, copy(1), part(0, vec![field(i, w)]), w)));
        }
        let total = function(2, "total", 1, &[st, w], w, vec![block(stmts, ret(copy(1)))]);
        let main = function(
            0,
            "main",
            0,
            &[st, w],
            w,
            vec![block(
                vec![
                    assign(0, Rvalue::Call { func: FnId(1), args: vec![num(50, w)], ty: st }),
                    assign(1, Rvalue::Call { func: FnId(2), args: vec![copy(0)], ty: w }),
                ],
                ret(copy(1)),
            )],
        );
        let code = if n == 2 { 51 } else { 54 };
        assert_eq!(run(&program(arena, vec![main, make, total], Vec::new())).0, code);
    }
}

#[test]
fn packed_structs_are_one_integer() {
    let mut arena = TypeArena::new();
    let w = i64_of(&mut arena);
    let u = sized(&mut arena, false, 8);
    let bits = |off: u32, width: u32| FieldInfo { ty: u, bit_offset: Some(off), bit_width: Some(width) };
    arena.structs.push(StructInfo { fields: vec![bits(0, 3), bits(3, 5)], packed: true });
    let st = arena.intern(Type::Struct(StructId(0)));
    let at = |index: u32, off: u32, width: u32| Proj::Field {
        index,
        ty: u,
        packed: Some(k2_codegen::mir::PackedField { off, width, signed: false }),
    };
    let main = function(
        0,
        "main",
        0,
        &[st, w, w],
        w,
        vec![block(
            vec![
                assign(
                    0,
                    Rvalue::Aggregate {
                        agg: AggKind::Struct,
                        fields: vec![num(5, u), num(9, u)],
                        ty: st,
                    },
                ),
                assign_to(0, vec![at(1, 3, 5)], Rvalue::Use(num(17, u))),
                // 5 * 10 + 17
                assign(1, binary(BinOp::Mul, part(0, vec![at(0, 0, 3)]), num(10, w), w)),
                assign(2, binary(BinOp::Add, copy(1), part(0, vec![at(1, 3, 5)]), w)),
            ],
            ret(copy(2)),
        )],
    );
    assert_eq!(run(&program(arena, vec![main], Vec::new())).0, 67);
}

#[test]
fn two_word_arithmetic() {
    let mut arena = TypeArena::new();
    let w = i64_of(&mut arena);
    let wide = sized(&mut arena, true, 128);
    arena.structs.push(StructInfo {
        fields: vec![FieldInfo { ty: wide, bit_offset: None, bit_width: None }],
        packed: false,
    });
    let tuple = arena.intern(Type::Struct(StructId(0)));
    let main = function(
        0,
        "main",
        0,
        &[w, tuple, wide, wide, wide],
        w,
        vec![block(
            vec![
                assign(0, system(&["stdout"])),
                assign(2, Rvalue::Use(num(u64::MAX as i128, wide))),
                assign(3, Rvalue::Use(num(5, wide))),
                assign(4, binary(BinOp::Add, copy(2), copy(3), wide)),
                assign(4, Rvalue::Unary { un: UnOp::Neg, operand: copy(4), ty: wide }),
                assign(
                    1,
                    Rvalue::Aggregate { agg: AggKind::Tuple, fields: vec![copy(4)], ty: tuple },
                ),
                Statement::Eval {
                    rvalue: member(
                        &["print"],
                        copy(0),
                        vec![Operand::Const(Const::Str(ConstId(0))), copy(1)],
                    ),
                },
            ],
            ret(num(0, w)),
        )],
    );
    let prog = program(arena, vec![main], vec![ConstData::Bytes(b"{d}\n".to_vec())]);
    assert_eq!(run(&prog).1, "-18446744073709551620\n");
}

#[test]
fn the_random_numbers_are_splitmix() {
    let mut arena = TypeArena::new();
    let w = sized(&mut arena, false, 64);
    arena.structs.push(StructInfo {
        fields: vec![FieldInfo { ty: w, bit_offset: None, bit_width: None }],
        packed: false,
    });
    let tuple = arena.intern(Type::Struct(StructId(0)));
    let main = function(
        0,
        "main",
        0,
        &[w, tuple, w],
        w,
        vec![block(
            vec![
                assign(0, system(&["stdout"])),
                assign(2, builtin("randomInt", Vec::new())),
                assign(2, builtin("randomInt", Vec::new())),
                assign(
                    1,
                    Rvalue::Aggregate { agg: AggKind::Tuple, fields: vec![copy(2)], ty: tuple },
                ),
                Statement::Eval {
                    rvalue: member(
                        &["print"],
                        copy(0),
                        vec![Operand::Const(Const::Str(ConstId(0))), copy(1)],
                    ),
                },
            ],
            ret(num(0, w)),
        )],
    );
    let prog = program(arena, vec![main], vec![ConstData::Bytes(b"{x}".to_vec())]);
    let mut state = k2_codegen::link::RNG_SEED as u64;
    let mut z = 0;
    for _ in 0..2 {
        state = state.wrapping_add(0x9E37_79B9_7F4A_7C15);
        z = state;
        z = (z ^ (z >> 30)).wrapping_mul(0xBF58_476D_1CE4_E5B9);
        z = (z ^ (z >> 27)).wrapping_mul(0x94D0_49BB_1331_11EB);
        z ^= z >> 31;
    }
    assert_eq!(run(&prog).1, format!("{z:x}"));
}

#[test]
fn the_clock_never_goes_back() {
    let mut arena = TypeArena::new();
    let w = i64_of(&mut arena);
    let main = function(
        0,
        "main",
        0,
        &[w, w],
        w,
        vec![block(
            vec![
                assign(0, builtin("clockSleep", vec![num(40, w)])),
                assign(0, builtin("clockSleep", vec![num(-30, w)])),
                assign(0, builtin("clockSleep", vec![num(2, w)])),
                assign(1, builtin("clockNow", Vec::new())),
            ],
            ret(copy(1)),
        )],
    );
    assert_eq!(run(&program(arena, vec![main], Vec::new())).0, 42);
}

#[test]
fn error_names() {
    for (tag, name) in [(7u16, "Oops"), (1, "OutOfMemory"), (3, "Unknown")] {
        let mut arena = TypeArena::new();
        let w = i64_of(&mut arena);
        let text = arena.t_str();
        let set = arena.intern(Type::ErrorSet(0));
        arena.structs.push(StructInfo {
            fields: vec![FieldInfo { ty: text, bit_offset: None, bit_width: None }],
            packed: false,
        });
        let tuple = arena.intern(Type::Struct(StructId(0)));
        let main = function(
            0,
            "main",
            0,
            &[w, tuple, text],
            w,
            vec![block(
                vec![
                    assign(0, system(&["stdout"])),
                    assign(
                        2,
                        builtin(
                            "errorName",
                            vec![Operand::Const(Const::ErrVal { tag: ErrTag(tag), ty: set })],
                        ),
                    ),
                    assign(
                        1,
                        Rvalue::Aggregate { agg: AggKind::Tuple, fields: vec![copy(2)], ty: tuple },
                    ),
                    Statement::Eval {
                        rvalue: member(
                            &["print"],
                            copy(0),
                            vec![Operand::Const(Const::Str(ConstId(0))), copy(1)],
                        ),
                    },
                ],
                ret(num(0, w)),
            )],
        );
        let prog = program(arena, vec![main], vec![ConstData::Bytes(b"{s}".to_vec())]);
        assert_eq!(run(&prog).1, name);
    }
}

#[test]
fn no_main_no_program() {
    let mut arena = TypeArena::new();
    let w = i64_of(&mut arena);
    let other = function(0, "other", 0, &[], w, vec![block(Vec::new(), ret(num(0, w)))]);
    let prog = program(arena, vec![other], Vec::new());
    let sup = support(&prog);
    let e = compile_program_to_elf(&prog, &sup).err().unwrap();
    assert!(matches!(e, CodegenError::NoMain));
}

#[test]
fn unsupported_constructs_are_named() {
    let mut arena = TypeArena::new();
    let w = i64_of(&mut arena);
    let cases: Vec<(Rvalue, &str)> = vec![
        (
            system(&["net", "connect"]),
            "unsupported by the v0.14 native backend: intrinsic value.net.connect in `main`",
        ),
        (
            builtin("mystery", Vec::new()),
            "unsupported by the v0.14 native backend: safety intrinsic @mystery in `main`",
        ),
        (
            builtin("no_add_overflow", vec![num(1, w)]),
            "unsupported by the v0.14 native backend: intrinsic missing argument 1",
        ),
        (
            builtin("gpaDeinit", Vec::new()),
            "unsupported by the v0.14 native backend: @gpaDeinit without an id operand in `main`",
        ),
        (
            Rvalue::MakeErr(ErrTag(1), w),
            "unsupported by the v0.14 native backend: scalar rvalue MakeErr in `main`",
        ),
    ];
    let mut arena = Some(arena);
    for (rv, want) in cases {
        let mut fresh = TypeArena::new();
        let _ = i64_of(&mut fresh);
        let main = function(
            0,
            "main",
            0,
            &[w],
            w,
            vec![block(vec![assign(0, rv)], ret(num(0, w)))],
        );
        let prog = program(arena.take().unwrap_or(fresh), vec![main], Vec::new());
        let sup = support(&prog);
        assert!(is_compilable(&prog, Target::X86_64Linux, &sup));
        assert_eq!(message(compile_program_to_elf(&prog, &sup).err().unwrap()), want);
    }
}

#[test]
fn broken_programs_are_not_compilable() {
    let mut arena = TypeArena::new();
    let w = i64_of(&mut arena);
    let main = function(0, "main", 0, &[w], w, vec![block(Vec::new(), ret(copy(0)))]);
    let mut prog = program(arena, vec![main], Vec::new());
    let mut sup = support(&prog);
    assert!(is_compilable(&prog, Target::X86_64Linux, &sup));
    assert!(is_compilable(&prog, Target::Aarch64Linux, &sup));
    prog.funcs[0].blocks[0].term = Terminator::Goto(BlockId(1));
    assert!(!is_compilable(&prog, Target::X86_64Linux, &sup));
    prog.funcs[0].blocks[0].term = ret(copy(1));
    assert!(!is_compilable(&prog, Target::X86_64Linux, &sup));
    prog.funcs[0].blocks[0].term = ret(Operand::Const(Const::Str(ConstId(0))));
    assert!(!is_compilable(&prog, Target::Aarch64Linux, &sup));
    prog.funcs[0].blocks[0].term = ret(copy(0));
    sup.allocs[0].loc.clear();
    assert!(!is_compilable(&prog, Target::X86_64Linux, &sup));
    assert!(is_compilable(&prog, Target::Aarch64Linux, &sup));
    sup.allocs.clear();
    assert!(!is_compilable(&prog, Target::X86_64Linux, &sup));
}

#[test]
fn floats_in_registers_and_memory() {
    let mut arena = TypeArena::new();
    let w = i64_of(&mut arena);
    let b = arena.t_bool();
    let f = arena.intern(Type::Float { width: 64 });
    let real = |v: f64| Operand::Const(Const::Float { bits: v.to_bits(), ty: f });
    let half = function(
        1,
        "half",
        1,
        &[f, f],
        f,
        vec![block(vec![assign(1, binary(BinOp::Div, copy(0), real(2.0), f))], ret(copy(1)))],
    );
    let main = function(
        0,
        "main",
        0,
        &[f, f, b, w, w, f],
        w,
        vec![block(
            vec![
                assign(0, Rvalue::Use(real(10.5))),
                // (10.5 * 8 - 4 + 4) / 2 = 42
                assign(1, binary(BinOp::Mul, copy(0), real(8.0), f)),
                assign(1, binary(BinOp::Sub, copy(1), real(4.0), f)),
                assign(5, Rvalue::Cast { kind: CastKind::IntToFloat, operand: num(4, w), ty: f }),
                assign(1, binary(BinOp::Add, copy(1), copy(5), f)),
                assign(1, Rvalue::Call { func: FnId(1), args: vec![copy(1)], ty: f }),
                assign(2, binary(BinOp::Lt, copy(0), copy(1), b)),
                assign(3, Rvalue::Cast { kind: CastKind::FloatToInt, operand: copy(1), ty: w }),
                assign(4, binary(BinOp::Add, copy(3), copy(2), w)),
            ],
            ret(copy(4)),
        )],
    );
    assert_eq!(run(&program(arena, vec![main, half], Vec::new())).0, 43);
}

#[test]
fn large_copies() {
    // More than an unrolled copy takes, into a struct and back out of it.
    let mut arena = TypeArena::new();
    let w = i64_of(&mut arena);
    let arr = arena.intern(Type::Array { len: ArrayLen::Known(20), elem: w });
    let index = |at: i128| Proj::Index { at: num(at, w), ty: w };
    let last = function(
        1,
        "last",
        1,
        &[arr],
        w,
        vec![block(Vec::new(), ret(part(0, vec![index(19)])))],
    );
    let main = function(
        0,
        "main",
        0,
        &[arr, arr, w, w],
        w,
        vec![block(
            vec![
                assign(
                    0,
                    Rvalue::Aggregate {
                        agg: AggKind::Array,
                        fields: (0..20).map(|i| num(i + 10, w)).collect(),
                        ty: arr,
                    },
                ),
                assign(1, Rvalue::Use(copy(0))),
                assign(2, Rvalue::Call { func: FnId(1), args: vec![copy(1)], ty: w }),
                assign(3, binary(BinOp::Add, copy(2), part(1, vec![index(3)]), w)),
            ],
            ret(copy(3)),
        )],
    );
    assert_eq!(run(&program(arena, vec![main, last], Vec::new())).0, 42);
}

#[test]
fn strings_are_passed_as_two_words() {
    let mut arena = TypeArena::new();
    let w = i64_of(&mut arena);
    let text = arena.t_str();
    let length = || vec![Proj::SliceMeta { which: SliceMeta::Len, ty: w }];
    let total = function(
        1,
        "total",
        2,
        &[text, text, w],
        w,
        vec![block(
            vec![assign(2, binary(BinOp::Add, part(0, length()), part(1, length()), w))],
            ret(copy(2)),
        )],
    );
    let main = function(
        0,
        "main",
        0,
        &[text, w],
        w,
        vec![block(
            vec![
                assign(0, Rvalue::Use(Operand::Const(Const::Str(ConstId(0))))),
                assign(
                    1,
                    Rvalue::Call {
                        func: FnId(1),
                        args: vec![copy(0), Operand::Const(Const::Str(ConstId(1)))],
                        ty: w,
                    },
                ),
            ],
            ret(copy(1)),
        )],
    );
    let prog = program(
        arena,
        vec![main, total],
        vec![ConstData::Bytes(b"four".to_vec()), ConstData::Bytes(b"seven..".to_vec())],
    );
    assert_eq!(run(&prog).0, 11);
}

/// What a computation on a number of two words and a narrower one prints.
fn widened_sum(op: BinOp, a: i128, signed: bool, width: u16, b: i128, narrow_first: bool) -> String {
    let mut arena = TypeArena::new();
    let w = i64_of(&mut arena);
    let wide = sized(&mut arena, true, 128);
    let narrow = sized(&mut arena, signed, width);
    arena.structs.push(StructInfo {
        fields: vec![FieldInfo { ty: wide, bit_offset: None, bit_width: None }],
        packed: false,
    });
    let tuple = arena.intern(Type::Struct(StructId(0)));
    let (lhs, rhs) = if narrow_first { (copy(3), copy(2)) } else { (copy(2), copy(3)) };
    let main = function(
        0,
        "main",
        0,
        &[w, tuple, wide, narrow, wide],
        w,
        vec![block(
            vec![
                assign(0, system(&["stdout"])),
                assign(2, Rvalue::Use(num(a, wide))),
                assign(3, Rvalue::Use(num(b, narrow))),
                assign(4, binary(op, lhs, rhs, wide)),
                assign(
                    1,
                    Rvalue::Aggregate { agg: AggKind::Tuple, fields: vec![copy(4)], ty: tuple },
                ),
                Statement::Eval {
                    rvalue: member(
                        &["print"],
                        copy(0),
                        vec![Operand::Const(Const::Str(ConstId(0))), copy(1)],
                    ),
                },
            ],
            ret(num(0, w)),
        )],
    );
    let prog = program(arena, vec![main], vec![ConstData::Bytes(b"{d}".to_vec())]);
    let printed = run(&prog).1;
    // The narrower number in a register.
    let mut sup = support(&prog);
    sup.allocs[0].loc[3] = Loc::Reg(Gpr::R12);
    sup.allocs[0].needs_home[3] = false;
    sup.allocs[0].callee_saved = vec![Gpr::R12];
    assert_eq!(run_with(&prog, &sup).1, printed);
    printed
}

#[test]
fn narrow_operands_of_two_word_arithmetic_keep_their_sign() {
    let a: i128 = 1 << 64;
    for width in [8u16, 16, 32, 48, 64] {
        let sum = |op, b, first| widened_sum(op, a, true, width, b, first);
        assert_eq!(sum(BinOp::Add, -5, false), (a - 5).to_string());
        assert_eq!(sum(BinOp::Add, -5, true), (a - 5).to_string());
        assert_eq!(sum(BinOp::Sub, -5, false), (a + 5).to_string());
        assert_eq!(sum(BinOp::Sub, -5, true), (-5 - a).to_string());
        assert_eq!(sum(BinOp::Add, 7, false), (a + 7).to_string());
        let top = if width == 64 { u64::MAX as i128 } else { (1i128 << width) - 1 };
        assert_eq!(widened_sum(BinOp::Add, a, false, width, top, false), (a + top).to_string());
    }
}

#[test]
fn unsupported_constants_are_shown() {
    let refused = |rv: Rvalue, local: TypeId, w: TypeId, arena: TypeArena| {
        let main = function(
            0,
            "main",
            0,
            &[local],
            w,
            vec![block(vec![assign(0, rv)], ret(num(0, w)))],
        );
        let prog = program(arena, vec![main], Vec::new());
        let sup = support(&prog);
        assert!(is_compilable(&prog, Target::X86_64Linux, &sup));
        message(compile_program_to_elf(&prog, &sup).err().unwrap())
    };
    let prefix = "unsupported by the v0.14 native backend: ";
    let mut arena = TypeArena::new();
    let w = i64_of(&mut arena);
    let none = Operand::Const(Const::EmptySlice { ty: w });
    assert_eq!(
        refused(binary(BinOp::Add, none, num(1, w), w), w, w, arena),
        format!("{prefix}non-scalar constant EmptySlice {{ ty: TypeId({}) }} in `main`", w.0)
    );
    let mut arena = TypeArena::new();
    let w = i64_of(&mut arena);
    let maybe = arena.intern(Type::Optional(w));
    let value = Operand::Const(Const::EnumVal { variant: 4, ty: w });
    assert_eq!(
        refused(Rvalue::Use(value), maybe, w, arena),
        format!(
            "{prefix}const aggregate EnumVal {{ variant: 4, ty: TypeId({}) }} of type Optional(TypeId({})) in `main`",
            w.0, w.0
        )
    );
}

#[test]
fn error_tags_ascend() {
    let mut arena = TypeArena::new();
    let w = i64_of(&mut arena);
    let main = function(0, "main", 0, &[w], w, vec![block(Vec::new(), ret(copy(0)))]);
    let mut prog = program(arena, vec![main], Vec::new());
    let sup = support(&prog);
    let named = |tags: &[u16]| -> Vec<(ErrTag, String)> {
        tags.iter().map(|&t| (ErrTag(t), format!("E{t}"))).collect()
    };
    for (tags, ok) in [
        (&[][..], true),
        (&[9], true),
        (&[1, 2, 7], true),
        (&[2, 1], false),
        (&[1, 1], false),
        (&[1, 5, 3], false),
    ] {
        prog.err_names = named(tags);
        assert_eq!(is_compilable(&prog, Target::X86_64Linux, &sup), ok);
        assert_eq!(is_compilable(&prog, Target::Aarch64Linux, &sup), ok);
    }
}

#[test]
fn every_field_of_an_aggregate_is_there() {
    let mut arena = TypeArena::new();
    let w = i64_of(&mut arena);
    let small = sized(&mut arena, true, 8);
    let wide = sized(&mut arena, true, 128);
    arena.structs.push(StructInfo {
        fields: vec![
            FieldInfo { ty: small, bit_offset: None, bit_width: None },
            FieldInfo { ty: wide, bit_offset: None, bit_width: None },
            FieldInfo { ty: w, bit_offset: None, bit_width: None },
        ],
        packed: false,
    });
    let inner = arena.intern(Type::Struct(StructId(0)));
    arena.structs.push(StructInfo {
        fields: vec![
            FieldInfo { ty: w, bit_offset: None, bit_width: None },
            FieldInfo { ty: inner, bit_offset: None, bit_width: None },
            FieldInfo { ty: small, bit_offset: None, bit_width: None },
        ],
        packed: false,
    });
    let outer = arena.intern(Type::Struct(StructId(1)));
    let strukt = |fields: Vec<Operand>, ty: TypeId| Rvalue::Aggregate {
        agg: AggKind::Struct,
        fields,
        ty,
    };
    let main = function(
        0,
        "main",
        0,
        &[w, wide, inner, outer, w, w, w],
        w,
        vec![block(
            vec![
                assign(0, Rvalue::Use(num(40, w))),
                assign(1, Rvalue::Use(num(-2, wide))),
                assign(2, strukt(vec![num(-1, small), copy(1), copy(0)], inner)),
                assign(3, strukt(vec![num(3, w), copy(2), num(100, small)], outer)),
                // 3 + 40 - 1 + 100
                assign(
                    4,
                    binary(
                        BinOp::Add,
                        part(3, vec![field(0, w)]),
                        part(3, vec![field(1, inner), field(2, w)]),
                        w,
                    ),
                ),
                assign(
                    5,
                    binary(BinOp::Add, copy(4), part(3, vec![field(1, inner), field(0, small)]), w),
                ),
                assign(6, binary(BinOp::Add, copy(5), part(3, vec![field(2, small)]), w)),
            ],
            ret(copy(6)),
        )],
    );
    assert_eq!(run(&program(arena, vec![main], Vec::new())).0, 142);
}
