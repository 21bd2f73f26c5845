use k2_codegen::compile::{compile_program, compile_program_aarch64, Support};
use k2_codegen::link::Runtime;
use k2_codegen::mir::{
    AggKind, BinOp, Block, BlockId, BuildMode, CastKind, Const, ConstData, ConstId, DiscrKind,
    ErrTag, FnAbi, IntrinsicPath, IntrinsicRoot, Linkage, LocalDecl, LocalId, MirFunction,
    MirProgram, Operand, Place, Proj, Rvalue, Statement, Terminator, TrapReason, UnOp,
};
use k2_codegen::mir_ids::FnId;
use k2_codegen::runtime::RuntimeAbi;
use k2_codegen::target::Target;
use k2_codegen::types::{
    ArrayLen, FieldInfo, IntBits, StructId, StructInfo, Type, TypeArena, TypeId,
};
use k2_codegen::validate::is_compilable;

// ---------------------------------------------------------------------------
//  A machine that runs executables
// ---------------------------------------------------------------------------

const STACK: u64 = 0x7000_0000;
const STACK_SIZE: usize = 1 << 16;

struct Cpu {
    x: [u64; 31],
    sp: u64,
    pc: u64,
    n: bool,
    z: bool,
    c: bool,
    v: bool,
    mem: Vec<(u64, Vec<u8>)>,
    out: Vec<u8>,
    err: Vec<u8>,
    exit: Option<u64>,
}

fn le(b: &[u8], at: usize, n: usize) -> u64 {
    let mut v: u64 = 0;
    for i in 0..n {
        v |= (b[at + i] as u64) << (8 * i);
    }
    v
}

fn sign(v: u64, bits: u32) -> u64 {
    (((v << (64 - bits)) as i64) >> (64 - bits)) as u64
}

impl Cpu {
    fn load(image: &[u8]) -> Cpu {
        assert_eq!(le(image, 18, 2), 0xB7);
        let phoff = le(image, 32, 8) as usize;
        let phnum = le(image, 56, 2) as usize;
        // What was never written is not zero.
        let mut mem = vec![(STACK, vec![0xA5u8; STACK_SIZE])];
        for i in 0..phnum {
            let p = phoff + 56 * i;
            if le(image, p, 4) != 1 {
                continue;
            }
            let off = le(image, p + 8, 8) as usize;
            let vaddr = le(image, p + 16, 8);
            let filesz = le(image, p + 32, 8) as usize;
            let mut seg = if filesz > 0 { image[off..off + filesz].to_vec() } else { Vec::new() };
            seg.resize(le(image, p + 40, 8) as usize, 0);
            mem.push((vaddr, seg));
        }
        Cpu {
            x: [0xA5A5_A5A5_A5A5_A5A5; 31],
            sp: STACK + STACK_SIZE as u64 - 64,
            pc: le(image, 24, 8),
            n: false,
            z: false,
            c: false,
            v: false,
            mem,
            out: Vec::new(),
            err: Vec::new(),
            exit: None,
        }
    }

    fn at(&mut self, addr: u64) -> &mut u8 {
        for (base, seg) in self.mem.iter_mut() {
            if addr >= *base && addr < *base + seg.len() as u64 {
                return &mut seg[(addr - *base) as usize];
            }
        }
        panic!("no memory at {addr:#x}");
    }

    fn read(&mut self, addr: u64, n: u64) -> u64 {
        let mut v: u64 = 0;
        for i in 0..n {
            v |= (*self.at(addr.wrapping_add(i)) as u64) << (8 * i);
        }
        v
    }

    fn write(&mut self, addr: u64, n: u64, v: u64) {
        for i in 0..n {
            *self.at(addr.wrapping_add(i)) = (v >> (8 * i)) as u8;
        }
    }

    /// A register, 31 being zero.
    fn zr(&self, r: u32) -> u64 {
        if r == 31 {
            0
        } else {
            self.x[r as usize]
        }
    }

    /// A register, 31 being the stack pointer.
    fn rsp(&self, r: u32) -> u64 {
        if r == 31 {
            self.sp
        } else {
            self.x[r as usize]
        }
    }

    fn set_zr(&mut self, r: u32, v: u64) {
        if r != 31 {
            self.x[r as usize] = v;
        }
    }

    fn set_sp(&mut self, r: u32, v: u64) {
        if r == 31 {
            self.sp = v;
        } else {
            self.x[r as usize] = v;
        }
    }

    fn flags(&mut self, a: u64, b: u64, carry: u64) -> u64 {
        let wide = a as u128 + b as u128 + carry as u128;
        let r = wide as u64;
        self.n = (r as i64) < 0;
        self.z = r == 0;
        self.c = wide >> 64 != 0;
        self.v = a as i64 as i128 + b as i64 as i128 + carry as i128 != r as i64 as i128;
        r
    }

    fn holds(&self, cond: u32) -> bool {
        let base = match cond >> 1 {
            0 => self.z,
            1 => self.c,
            2 => self.n,
            3 => self.v,
            4 => self.c && !self.z,
            5 => self.n == self.v,
            6 => self.n == self.v && !self.z,
            _ => true,
        };
        base != (cond & 1 == 1)
    }

    fn syscall(&mut self) {
        match self.x[8] {
            64 => {
                let (fd, addr, n) = (self.x[0], self.x[1], self.x[2]);
                let mut bytes = Vec::new();
                for i in 0..n {
                    bytes.push(*self.at(addr + i));
                }
                if fd == 1 {
                    self.out.extend_from_slice(&bytes);
                } else {
                    assert_eq!(fd, 2);
                    self.err.extend_from_slice(&bytes);
                }
                self.x[0] = n;
            }
            94 => self.exit = Some(self.x[0] & 0xFF),
            n => panic!("system call {n}"),
        }
    }

    fn memory(&mut self, w: u32) {
        let size = 1u64 << (w >> 30);
        let (rt, rn) = (w & 31, (w >> 5) & 31);
        let base = self.rsp(rn);
        let addr = if (w >> 24) & 1 == 1 {
            base + (((w >> 10) & 0xFFF) as u64) * size
        } else if (w >> 21) & 1 == 1 {
            assert_eq!((w >> 10) & 0x3F, 0b011010);
            base.wrapping_add(self.zr((w >> 16) & 31))
        } else {
            assert_eq!((w >> 10) & 3, 0);
            base.wrapping_add(sign(((w >> 12) & 0x1FF) as u64, 9))
        };
        match (w >> 22) & 3 {
            0 => {
                let v = self.zr(rt);
                self.write(addr, size, v);
            }
            1 => {
                let v = self.read(addr, size);
                self.set_zr(rt, v);
            }
            _ => {
                let v = self.read(addr, size);
                self.set_zr(rt, sign(v, 8 * size as u32));
            }
        }
    }

    fn bitfield(&mut self, w: u32, signed: bool) {
        let (rd, rn) = (w & 31, (w >> 5) & 31);
        let (immr, imms) = ((w >> 16) & 63, (w >> 10) & 63);
        let v = self.zr(rn);
        let r = if imms >= immr {
            let width = imms - immr + 1;
            let f = v >> immr;
            if signed {
                sign(f, width)
            } else if width == 64 {
                f
            } else {
                f & ((1 << width) - 1)
            }
        } else {
            let width = imms + 1;
            assert!(!signed);
            (v & ((1 << width) - 1)) << (64 - immr)
        };
        self.set_zr(rd, r);
    }

    fn step(&mut self) {
        let w = self.read(self.pc, 4) as u32;
        let here = self.pc;
        self.pc += 4;
        let (rd, rn, rm) = (w & 31, (w >> 5) & 31, (w >> 16) & 31);
        match w >> 24 {
            0x14..=0x17 => {
                self.pc = here.wrapping_add(sign((w & 0x3FF_FFFF) as u64, 26) << 2);
                return;
            }
            0x94..=0x97 => {
                self.x[30] = here + 4;
                self.pc = here.wrapping_add(sign((w & 0x3FF_FFFF) as u64, 26) << 2);
                return;
            }
            0x54 => {
                if self.holds(w & 15) {
                    self.pc = here.wrapping_add(sign(((w >> 5) & 0x7_FFFF) as u64, 19) << 2);
                }
                return;
            }
            0x38 | 0x39 | 0x78 | 0x79 | 0xB8 | 0xB9 | 0xF8 | 0xF9 => {
                self.memory(w);
                return;
            }
            _ => {}
        }
        if w == 0xD65F_03C0 {
            self.pc = self.x[30];
        } else if w == 0xD400_0001 {
            self.syscall();
        } else if w >> 22 == 0xA980_0000 >> 22 {
            let off = sign(((w >> 15) & 0x7F) as u64, 7) << 3;
            self.sp = self.sp.wrapping_add(off);
            assert_eq!(rn, 31);
            let (a, b, sp) = (self.zr(rd), self.zr((w >> 10) & 31), self.sp);
            self.write(sp, 8, a);
            self.write(sp + 8, 8, b);
        } else if w >> 22 == 0xA8C0_0000 >> 22 {
            assert_eq!(rn, 31);
            let sp = self.sp;
            let (a, b) = (self.read(sp, 8), self.read(sp + 8, 8));
            self.set_zr(rd, a);
            self.set_zr((w >> 10) & 31, b);
            self.sp = sp.wrapping_add(sign(((w >> 15) & 0x7F) as u64, 7) << 3);
        } else if (w >> 23) & 0x3F == 0x25 {
            // movn, movz, movk
            let (imm, hw) = (((w >> 5) & 0xFFFF) as u64, 16 * ((w >> 21) & 3));
            let v = match w >> 29 {
                0b100 => !(imm << hw),
                0b110 => imm << hw,
                _ => self.zr(rd) & !(0xFFFF << hw) | imm << hw,
            };
            self.set_zr(rd, v);
        } else if w >> 23 == 0x93400000u32 >> 23 {
            self.bitfield(w, true);
        } else if w >> 23 == 0xD3400000u32 >> 23 {
            self.bitfield(w, false);
        } else if (w >> 24) & 0x1F == 0x11 {
            // add, sub, adds, subs with an immediate
            let mut imm = ((w >> 10) & 0xFFF) as u64;
            if (w >> 22) & 1 == 1 {
                imm <<= 12;
            }
            let a = self.rsp(rn);
            match w >> 29 {
                0b100 => self.set_sp(rd, a.wrapping_add(imm)),
                0b110 => self.set_sp(rd, a.wrapping_sub(imm)),
                0b101 => {
                    let v = self.flags(a, imm, 0);
                    self.set_zr(rd, v);
                }
                _ => {
                    let v = self.flags(a, !imm, 1);
                    self.set_zr(rd, v);
                }
            }
        } else if (w >> 21) & 0xFF == 0x59 {
            // add, sub with an extended register
            assert_eq!((w >> 10) & 0x3F, 0b011000);
            let (a, b) = (self.rsp(rn), self.zr(rm));
            let v = if w >> 29 == 0b100 { a.wrapping_add(b) } else { a.wrapping_sub(b) };
            self.set_sp(rd, v);
        } else if (w >> 24) & 0x1F == 0x0B {
            let (a, b) = (self.zr(rn), self.zr(rm) << ((w >> 10) & 63));
            assert_eq!((w >> 22) & 3, 0);
            match w >> 29 {
                0b100 => self.set_zr(rd, a.wrapping_add(b)),
                0b110 => self.set_zr(rd, a.wrapping_sub(b)),
                0b101 => {
                    let v = self.flags(a, b, 0);
                    self.set_zr(rd, v);
                }
                _ => {
                    let v = self.flags(a, !b, 1);
                    self.set_zr(rd, v);
                }
            }
        } else if (w >> 24) & 0x1F == 0x0A {
            assert_eq!((w >> 10) & 63, 0);
            let a = self.zr(rn);
            let b = if (w >> 21) & 1 == 1 { !self.zr(rm) } else { self.zr(rm) };
            let v = match w >> 29 {
                0b100 => a & b,
                0b101 => a | b,
                0b110 => a ^ b,
                _ => panic!("ands"),
            };
            self.set_zr(rd, v);
        } else if w >> 21 == 0x9B00_0000 >> 21 {
            let p = self.zr(rn).wrapping_mul(self.zr(rm));
            let a = self.zr((w >> 10) & 31);
            let v = if (w >> 15) & 1 == 0 { a.wrapping_add(p) } else { a.wrapping_sub(p) };
            self.set_zr(rd, v);
        } else if w >> 21 == 0x9AC0_0000 >> 21 {
            let (a, b) = (self.zr(rn), self.zr(rm));
            let v = match (w >> 10) & 0x3F {
                0b000010 => {
                    if b == 0 {
                        0
                    } else {
                        a / b
                    }
                }
                0b000011 => {
                    if b == 0 {
                        0
                    } else {
                        (a as i64).wrapping_div(b as i64) as u64
                    }
                }
                0b001000 => a << (b & 63),
                0b001001 => a >> (b & 63),
                0b001010 => ((a as i64) >> (b & 63)) as u64,
                o => panic!("two-source {o:b}"),
            };
            self.set_zr(rd, v);
        } else if w >> 21 == 0x9A80_0000 >> 21 {
            assert_eq!((w >> 10) & 3, 1);
            let v = if self.holds((w >> 12) & 15) {
                self.zr(rn)
            } else {
                self.zr(rm).wrapping_add(1)
            };
            self.set_zr(rd, v);
        } else {
            panic!("word {w:#010x} at {here:#x}");
        }
    }

    fn run(&mut self) -> u64 {
        for _ in 0..500_000 {
            self.step();
            if let Some(code) = self.exit {
                return code;
            }
        }
        panic!("no exit");
    }
}

// ---------------------------------------------------------------------------
//  Programs
// ---------------------------------------------------------------------------

fn copy(l: u32) -> Operand {
    Operand::Copy(Place { base: LocalId(l), proj: Vec::new() })
}

fn part(l: u32, proj: Vec<Proj>) -> Operand {
    Operand::Copy(Place { base: LocalId(l), proj })
}

fn num(value: i128, ty: TypeId) -> Operand {
    Operand::Const(Const::Int { value, ty })
}

fn assign(l: u32, rvalue: Rvalue) -> Statement {
    Statement::Assign { place: Place { base: LocalId(l), proj: Vec::new() }, rvalue }
}

fn binary(op: BinOp, lhs: Operand, rhs: Operand, ty: TypeId) -> Rvalue {
    Rvalue::Binary { op, lhs, rhs, ty }
}

fn block(stmts: Vec<Statement>, term: Terminator) -> Block {
    Block { stmts, term, lines: Vec::new() }
}

fn ret(value: Operand) -> Terminator {
    Terminator::Return { value }
}

fn main_of(locals: &[TypeId], ret: TypeId, blocks: Vec<Block>) -> MirFunction {
    MirFunction {
        id: FnId(0),
        name: "main".to_string(),
        line: 1,
        is_extern_decl: false,
        linkage: Linkage::Internal,
        params: Vec::new(),
        locals: locals.iter().map(|&ty| LocalDecl { ty }).collect(),
        blocks,
        ret,
        abi: FnAbi::Native,
        varargs: false,
    }
}

fn program(arena: TypeArena, main: MirFunction, consts: Vec<ConstData>) -> MirProgram {
    MirProgram {
        arena,
        funcs: vec![main],
        consts,
        err_names: vec![
            (ErrTag(1), "OutOfMemory".to_string()),
            (ErrTag(7), "Oops".to_string()),
        ],
        mode: BuildMode::Debug,
        entries: Vec::new(),
    }
}

fn nothing() -> Support {
    Support {
        allocs: Vec::new(),
        abi: RuntimeAbi { clock_nanos: 0, rng_state: 0, kind_tags: Vec::new(), other_kind: 0 },
        runtime: Runtime { routines: Vec::new(), state_size: 0, rng_state: 0, reg_next: 0 },
    }
}

fn run(prog: &MirProgram) -> (u64, String, String) {
    let sup = nothing();
    assert!(is_compilable(prog, Target::Aarch64Linux, &sup));
    let image = compile_program(prog, Target::Aarch64Linux, &sup).unwrap();
    let mut cpu = Cpu::load(&image.bytes);
    let code = cpu.run();
    (
        code,
        String::from_utf8(cpu.out).unwrap(),
        String::from_utf8(cpu.err).unwrap(),
    )
}

fn sized(arena: &mut TypeArena, signed: bool, n: u16) -> TypeId {
    arena.intern(Type::Int { signed, bits: IntBits::Fixed(n) })
}

fn refused(stmts: Vec<Statement>, locals: &[TypeId], arena: TypeArena, w: TypeId) -> String {
    let main = main_of(locals, w, vec![block(stmts, ret(num(0, w)))]);
    let prog = program(arena, main, Vec::new());
    assert!(is_compilable(&prog, Target::Aarch64Linux, &nothing()));
    compile_program_aarch64(&prog).err().unwrap().message()
}

fn member(path: &[&str], root: IntrinsicRoot, args: Vec<Operand>) -> Rvalue {
    Rvalue::Intrinsic {
        path: IntrinsicPath { root, members: path.iter().map(|s| s.to_string()).collect() },
        args,
    }
}

/// A program that prints values by a format string.
fn printed(format: &str, types: &[(bool, u16)], values: &[i128]) -> String {
    let mut arena = TypeArena::new();
    let w = sized(&mut arena, true, 64);
    let tys: Vec<TypeId> = types
        .iter()
        .map(|&(signed, n)| {
            if n == 0 {
                if signed {
                    arena.t_bool()
                } else {
                    arena.t_str()
                }
            } else {
                sized(&mut arena, signed, n)
            }
        })
        .collect();
    arena.structs.push(StructInfo {
        fields: tys
            .iter()
            .map(|&ty| FieldInfo { ty, bit_offset: None, bit_width: None })
            .collect(),
        packed: false,
    });
    let tuple = arena.intern(Type::Struct(StructId(0)));
    let fields = tys
        .iter()
        .zip(types)
        .zip(values)
        .map(|((&ty, &(signed, n)), &v)| {
            if n == 0 && signed {
                Operand::Const(Const::Bool(v != 0))
            } else if n == 0 {
                Operand::Const(Const::Str(ConstId(v as u32)))
            } else {
                num(v, ty)
            }
        })
        .collect();
    let main = main_of(
        &[w, tuple],
        w,
        vec![block(
            vec![
                assign(0, member(&["io", "stdout"], IntrinsicRoot::System, Vec::new())),
                assign(1, Rvalue::Aggregate { agg: AggKind::Tuple, fields, ty: tuple }),
                Statement::Eval {
                    rvalue: member(
                        &["print"],
                        IntrinsicRoot::Value(copy(0)),
                        vec![Operand::Const(Const::Str(ConstId(0))), copy(1)],
                    ),
                },
            ],
            ret(num(0, w)),
        )],
    );
    let prog = program(
        arena,
        main,
        vec![
            ConstData::Bytes(format.as_bytes().to_vec()),
            ConstData::Bytes(b"world".to_vec()),
        ],
    );
    let (code, out, err) = run(&prog);
    assert_eq!(code, 0);
    assert_eq!(err, "");
    out
}

// ---------------------------------------------------------------------------
//  Tests
// ---------------------------------------------------------------------------

#[test]
fn a64_main_returns_its_integer() {
    let mut arena = TypeArena::new();
    let ty = sized(&mut arena, true, 32);
    let main = main_of(&[], ty, vec![block(Vec::new(), ret(num(42, ty)))]);
    assert_eq!(run(&program(arena, main, Vec::new())).0, 42);
}

#[test]
fn a64_a_loop_sums_up() {
    let mut arena = TypeArena::new();
    let w = sized(&mut arena, true, 64);
    let b = arena.t_bool();
    let main = main_of(
        &[w, w, b],
        w,
        vec![
            block(
                vec![assign(0, Rvalue::Use(num(0, w))), assign(1, Rvalue::Use(num(1, w)))],
                Terminator::Goto(BlockId(1)),
            ),
            block(
                vec![assign(2, binary(BinOp::Le, copy(1), num(10, w), w))],
                Terminator::Branch { cond: copy(2), then_bb: BlockId(2), else_bb: BlockId(3) },
            ),
            block(
                vec![
                    assign(0, binary(BinOp::Add, copy(0), copy(1), w)),
                    assign(1, binary(BinOp::Add, copy(1), num(1, w), w)),
                ],
                Terminator::Goto(BlockId(1)),
            ),
            block(Vec::new(), ret(copy(0))),
        ],
    );
    assert_eq!(run(&program(arena, main, Vec::new())).0, 55);
}

fn computed(op: BinOp, signed: bool, a: i128, b: i128) -> u64 {
    let mut arena = TypeArena::new();
    let w = sized(&mut arena, signed, 64);
    let main = main_of(
        &[w, w, w],
        w,
        vec![block(
            vec![
                assign(0, Rvalue::Use(num(a, w))),
                assign(1, Rvalue::Use(num(b, w))),
                assign(2, binary(op, copy(0), copy(1), w)),
            ],
            ret(copy(2)),
        )],
    );
    run(&program(arena, main, Vec::new())).0
}

#[test]
fn a64_arithmetic() {
    assert_eq!(computed(BinOp::Sub, true, 50, 8), 42);
    assert_eq!(computed(BinOp::Mul, true, 6, 7), 42);
    assert_eq!(computed(BinOp::Div, true, -85, -2), 42);
    assert_eq!(computed(BinOp::Rem, true, 142, 100), 42);
    assert_eq!(computed(BinOp::Div, false, 85, 2), 42);
    assert_eq!(computed(BinOp::BitAnd, false, 0b111010, 0b101111), 42);
    assert_eq!(computed(BinOp::BitOr, false, 0b101000, 0b000010), 42);
    assert_eq!(computed(BinOp::BitXor, false, 0b101011, 1), 42);
    assert_eq!(computed(BinOp::Shl, false, 21, 1), 42);
    assert_eq!(computed(BinOp::Shr, false, 84, 1), 42);
    assert_eq!(computed(BinOp::Shr, true, -84, 1), 256 - 42);
    assert_eq!(computed(BinOp::Lt, true, -1, 1), 1);
    assert_eq!(computed(BinOp::Lt, false, u64::MAX as i128, 1), 0);
    assert_eq!(computed(BinOp::Ge, true, 3, 3), 1);
    assert_eq!(computed(BinOp::Eq, true, 3, 4), 0);
    assert_eq!(computed(BinOp::Ne, true, 3, 4), 1);
    assert_eq!(computed(BinOp::Gt, false, 5, 4), 1);
}

#[test]
fn a64_hello_world() {
    assert_eq!(printed("hello, {s}!\n", &[(false, 0)], &[1]), "hello, world!\n");
    assert_eq!(printed(
        "{{}} plain text of some length\n",
        &[],
        &[],
    ), "{} plain text of some length\n");
}

#[test]
fn a64_numbers_are_rendered() {
    assert_eq!(printed("{d}", &[(true, 64)], &[-1234567890123]), "-1234567890123");
    assert_eq!(printed("{d} {d}", &[(false, 8), (true, 8)], &[200, -128]), "200 -128");
    assert_eq!(printed("{}", &[(false, 64)], &[u64::MAX as i128]), "18446744073709551615");
    assert_eq!(printed("{x} {X}", &[(false, 32), (false, 32)], &[0xBEEF, 0xBEEF]), "beef BEEF");
    assert_eq!(printed("{b} {o}", &[(false, 8), (false, 16)], &[10, 64]), "1010 100");
    assert_eq!(printed("{x}", &[(true, 16)], &[-1]), "ffff");
    assert_eq!(printed("{} {}", &[(true, 0), (true, 0)], &[1, 0]), "true false");
    assert_eq!(printed("{d}{d}", &[(true, 0), (true, 0)], &[1, 0]), "10");
    assert_eq!(printed("{c}", &[(false, 8)], &[0x41]), "A");
}

#[test]
fn a64_wide_numbers_are_rendered() {
    assert_eq!(
        printed("{d}", &[(true, 128)], &[i128::MAX]),
        "170141183460469231731687303715884105727"
    );
    assert_eq!(
        printed("<{d}>", &[(true, 128)], &[-18446744073709551617]),
        "<-18446744073709551617>"
    );
    assert_eq!(printed("{d}", &[(false, 128)], &[0]), "0");
}

#[test]
fn numbers_of_two_words_in_decimal() {
    let mut v: i128 = 0;
    for d in [9, 8, 7, 6, 5, 4, 3, 2, 1, 0, 1, 2, 3, 4, 5, 6, 7, 8, 9, 9, 0, 1] {
        v = v * 10 + d;
        assert_eq!(printed("{d}", &[(false, 128)], &[v]), v.to_string());
        assert_eq!(printed("{d}", &[(true, 128)], &[-v]), (-v).to_string());
    }
    for v in [1i128 << 64, (1 << 64) - 1, -(1 << 64), i128::MIN, i128::MIN + 1] {
        assert_eq!(printed("{d}", &[(true, 128)], &[v]), v.to_string());
    }
}

#[test]
fn a64_an_error_leaves_main() {
    for (tag, line) in [(7, "error: Oops\n"), (1, "error: OutOfMemory\n"), (9, "error: error\n")] {
        let mut arena = TypeArena::new();
        let void = arena.t_void();
        let eu = arena.intern(Type::ErrorUnion { ok: void });
        let main = main_of(
            &[eu],
            eu,
            vec![block(vec![assign(0, Rvalue::MakeErr(ErrTag(tag), eu))], ret(copy(0)))],
        );
        let (code, _, err) = run(&program(arena, main, Vec::new()));
        assert_eq!((code, err.as_str()), (1, line));
    }
    let mut arena = TypeArena::new();
    let void = arena.t_void();
    let set = arena.intern(Type::ErrorSet(0));
    let eu = arena.intern(Type::ErrorUnion { ok: void });
    let value = Operand::Const(Const::ErrVal { tag: ErrTag(9), ty: set });
    let main = main_of(&[], eu, vec![block(Vec::new(), ret(value))]);
    let (code, _, err) = run(&program(arena, main, Vec::new()));
    assert_eq!((code, err.as_str()), (1, "error: error9\n"));
}

#[test]
fn a64_traps_say_why() {
    let mut arena = TypeArena::new();
    let w = sized(&mut arena, true, 64);
    let main = main_of(
        &[],
        w,
        vec![block(Vec::new(), Terminator::Trap { reason: TrapReason::Bounds })],
    );
    let (code, _, err) = run(&program(arena, main, Vec::new()));
    assert_eq!((code, err.as_str()), (134, "panic: index out of bounds\n"));
}

#[test]
fn a64_switch_and_discriminants() {
    let mut arena = TypeArena::new();
    let w = sized(&mut arena, true, 64);
    let b = arena.t_bool();
    let opt = arena.intern(Type::Optional(w));
    let eu = arena.intern(Type::ErrorUnion { ok: w });
    let main = main_of(
        &[opt, eu, b, b, w],
        w,
        vec![
            block(
                vec![
                    assign(0, Rvalue::MakeNull(opt)),
                    assign(1, Rvalue::MakeOk(num(30, w), eu)),
                    assign(2, Rvalue::Discriminant { operand: copy(0), of: DiscrKind::Optional }),
                    assign(3, Rvalue::Discriminant { operand: copy(1), of: DiscrKind::ErrorUnion }),
                    assign(
                        4,
                        binary(BinOp::Add, part(1, vec![Proj::Payload { ty: w }]), num(11, w), w),
                    ),
                ],
                Terminator::Switch {
                    scrutinee: copy(4),
                    targets: vec![(40, BlockId(1)), (41, BlockId(2))],
                    default: BlockId(1),
                },
            ),
            block(Vec::new(), ret(num(1, w))),
            block(
                vec![assign(4, binary(BinOp::Add, copy(4), num(1, w), w))],
                ret(copy(4)),
            ),
        ],
    );
    assert_eq!(run(&program(arena, main, Vec::new())).0, 42);
}

#[test]
fn a64_arrays_and_structs() {
    let mut arena = TypeArena::new();
    let w = sized(&mut arena, true, 64);
    let half = sized(&mut arena, true, 16);
    let arr = arena.intern(Type::Array { len: ArrayLen::Known(3), elem: half });
    arena.structs.push(StructInfo {
        fields: vec![
            FieldInfo { ty: half, bit_offset: None, bit_width: None },
            FieldInfo { ty: arr, bit_offset: None, bit_width: None },
        ],
        packed: false,
    });
    let st = arena.intern(Type::Struct(StructId(0)));
    let index = |at: Operand| Proj::Index { at, ty: half };
    let field = |index: u32, ty: TypeId| Proj::Field { index, ty, packed: None };
    let main = main_of(
        &[arr, st, w, w],
        w,
        vec![block(
            vec![
                assign(
                    0,
                    Rvalue::Aggregate {
                        agg: AggKind::Array,
                        fields: vec![num(1, half), num(-2, half), num(30, half)],
                        ty: arr,
                    },
                ),
                assign(
                    1,
                    Rvalue::Aggregate {
                        agg: AggKind::Struct,
                        fields: vec![num(14, half), copy(0)],
                        ty: st,
                    },
                ),
                assign(2, Rvalue::Use(num(2, w))),
                assign(
                    3,
                    binary(
                        BinOp::Add,
                        part(1, vec![field(0, half)]),
                        part(1, vec![field(1, arr), index(copy(2))]),
                        w,
                    ),
                ),
                assign(3, binary(BinOp::Add, copy(3), part(0, vec![index(num(1, w))]), w)),
            ],
            ret(copy(3)),
        )],
    );
    assert_eq!(run(&program(arena, main, Vec::new())).0, 42);
}

#[test]
fn a64_unary_and_casts() {
    let mut arena = TypeArena::new();
    let w = sized(&mut arena, true, 64);
    let small = sized(&mut arena, false, 8);
    let main = main_of(
        &[w, w, w],
        w,
        vec![block(
            vec![
                assign(0, Rvalue::Unary { un: UnOp::Neg, operand: num(-40, w), ty: w }),
                assign(1, Rvalue::Unary { un: UnOp::BitNot, operand: num(-3, w), ty: w }),
                assign(2, binary(BinOp::Add, copy(0), copy(1), w)),
                assign(2, binary(BinOp::Add, copy(2), num(256, w), w)),
                assign(2, Rvalue::Cast { kind: CastKind::IntNarrow, operand: copy(2), ty: small }),
            ],
            ret(copy(2)),
        )],
    );
    assert_eq!(run(&program(arena, main, Vec::new())).0, 42);
}

#[test]
fn a64_refuses_what_is_beyond_the_subset() {
    let note = " in `main` (aarch64 backend covers the hello-class subset; cross-compile hello-class programs or use the x86-64 backend / VM)";
    let prefix = "unsupported by the v0.14 native backend: ";
    let mut arena = TypeArena::new();
    let w = sized(&mut arena, true, 64);
    let call = Rvalue::Call { func: FnId(0), args: Vec::new(), ty: w };
    assert_eq!(
        refused(vec![Statement::Eval { rvalue: call }], &[], arena, w),
        format!("{prefix}a discarded inter-procedure call{note}")
    );
    let mut arena = TypeArena::new();
    let w = sized(&mut arena, true, 64);
    let heap = member(&["heap"], IntrinsicRoot::System, Vec::new());
    assert_eq!(
        refused(vec![assign(0, heap)], &[w], arena, w),
        format!("{prefix}intrinsic value.heap{note}")
    );
    let mut arena = TypeArena::new();
    let w = sized(&mut arena, true, 64);
    let id = member(&[], IntrinsicRoot::Builtin("allocId".to_string()), Vec::new());
    assert_eq!(
        refused(vec![assign(0, id)], &[w], arena, w),
        format!("{prefix}safety/capability builtin @allocId{note}")
    );
    let mut arena = TypeArena::new();
    let w = sized(&mut arena, true, 64);
    let f = arena.intern(Type::Float { width: 64 });
    let sum = binary(BinOp::Add, copy(0), copy(0), f);
    assert_eq!(
        refused(vec![assign(0, sum)], &[f], arena, w),
        format!("{prefix}f64 arithmetic{note}")
    );
}

#[test]
fn a64_frames_of_every_size() {
    // A frame beyond the immediate of a subtraction, and offsets beyond those of a store.
    let mut arena = TypeArena::new();
    let w = sized(&mut arena, true, 64);
    let big = arena.intern(Type::Array { len: ArrayLen::Known(5000), elem: w });
    let main = main_of(
        &[w, big, w],
        w,
        vec![block(
            vec![
                assign(2, Rvalue::Use(num(40, w))),
                assign(0, Rvalue::Use(num(2, w))),
                assign(2, binary(BinOp::Add, copy(2), copy(0), w)),
            ],
            ret(copy(2)),
        )],
    );
    assert_eq!(run(&program(arena, main, Vec::new())).0, 42);
}

#[test]
fn a64_unsupported_constants_are_shown() {
    let note = " in `main` (aarch64 backend covers the hello-class subset; cross-compile hello-class programs or use the x86-64 backend / VM)";
    let prefix = "unsupported by the v0.14 native backend: ";
    let mut arena = TypeArena::new();
    let w = sized(&mut arena, true, 64);
    let none = Operand::Const(Const::EmptySlice { ty: w });
    assert_eq!(
        refused(vec![assign(0, binary(BinOp::Add, none, num(1, w), w))], &[w], arena, w),
        format!("{prefix}non-scalar constant EmptySlice {{ ty: TypeId({}) }}{note}", w.0)
    );
    let mut arena = TypeArena::new();
    let w = sized(&mut arena, true, 64);
    let maybe = arena.intern(Type::Optional(w));
    let value = Operand::Const(Const::EnumVal { variant: 4, ty: w });
    assert_eq!(
        refused(vec![assign(0, Rvalue::Use(value))], &[maybe], arena, w),
        format!("{prefix}const aggregate EnumVal {{ variant: 4, ty: TypeId({}) }}{note}", w.0)
    );
}
