use k2_codegen::compile::{
    compile_program_to_object, compile_program_with_debug, compile_program_x86, Support,
};
use k2_codegen::debug_info::{build_dwarf, DebugCtx, DwarfSourceMap};
use k2_codegen::encode::{Fixup, FixupKind};
use k2_codegen::frame::{frame_fits, plan};
use k2_codegen::link::{find_main, link_program_x86, LineMark, LoweredFn, Routine, Runtime};
use k2_codegen::lower::abi::{classify, func_prints, outgoing_args_bytes, round_up_i32};
use k2_codegen::lower::env::{ArgClass, FnLower, Loc, RegAlloc};
use k2_codegen::mir::{
    BinOp, Block, BlockId, BuildMode, Const, ConstData, ConstId, ErrTag, FnAbi, IntrinsicPath,
    IntrinsicRoot, Linkage, LocalDecl, LocalId, MirFunction, MirProgram, Operand, Place, Rvalue,
    Statement, Terminator,
};
use k2_codegen::mir_ids::FnId;
use k2_codegen::obj::{
    ObjectImage, R_X86_64_64, R_X86_64_PLT32, SEC_TEXT, SHN_UNDEF, STB_GLOBAL, STB_LOCAL, STT_FUNC,
};
use k2_codegen::reg::Gpr;
use k2_codegen::runtime::{RuntimeAbi, RuntimeFn};
use k2_codegen::target::Target;
use k2_codegen::text::{basename, has_prefix, sanitize_symbol, unique_symbol};
use k2_codegen::types::{
    ArrayLen, EnumId, FieldInfo, IntBits, StructId, StructInfo, Type, TypeArena, TypeId, UnionId,
};
use k2_codegen::show::{const_text, type_text};
use k2_codegen::validate::{is_compilable, lines_fit};
use k2_codegen::RoData;

fn copy(l: u32) -> Operand {
    Operand::Copy(Place { base: LocalId(l), proj: Vec::new() })
}

fn num(value: i128, ty: TypeId) -> Operand {
    Operand::Const(Const::Int { value, ty })
}

fn assign(l: u32, rvalue: Rvalue) -> Statement {
    Statement::Assign { place: Place { base: LocalId(l), proj: Vec::new() }, rvalue }
}

fn function(
    id: u32,
    name: &str,
    locals: &[TypeId],
    ret: TypeId,
    stmts: Vec<Statement>,
) -> MirFunction {
    MirFunction {
        id: FnId(id),
        name: name.to_string(),
        line: 10 * (id + 1),
        is_extern_decl: false,
        linkage: Linkage::Internal,
        params: Vec::new(),
        locals: locals.iter().map(|&ty| LocalDecl { ty }).collect(),
        blocks: vec![Block {
            stmts,
            term: Terminator::Return { value: num(0, ret) },
            lines: Vec::new(),
        }],
        ret,
        abi: FnAbi::Native,
        varargs: false,
    }
}

fn spilled(f: &MirFunction) -> RegAlloc {
    let n = f.locals.len();
    RegAlloc {
        loc: vec![Loc::Spill; n],
        needs_home: vec![true; n],
        home_ty: vec![None; n],
        home_size: vec![None; n],
        callee_saved: Vec::new(),
        eu_result: vec![None; n],
        array_len: vec![None; n],
        agg_fields: (0..n).map(|_| None).collect(),
    }
}

fn program(arena: TypeArena, funcs: Vec<MirFunction>, consts: Vec<ConstData>) -> MirProgram {
    MirProgram {
        arena,
        funcs,
        consts,
        err_names: Vec::new(),
        mode: BuildMode::Debug,
        entries: Vec::new(),
    }
}

fn support(prog: &MirProgram) -> Support {
    Support {
        allocs: prog.funcs.iter().map(spilled).collect(),
        abi: RuntimeAbi {
            clock_nanos: 0,
            rng_state: 8,
            kind_tags: vec![0, 1, 2, 3],
            other_kind: 0,
        },
        runtime: Runtime { routines: Vec::new(), state_size: 64, rng_state: 8, reg_next: 16 },
    }
}

fn word(arena: &mut TypeArena) -> TypeId {
    arena.intern(Type::Int { signed: true, bits: IntBits::Fixed(64) })
}

fn call(callee: u32, args: Vec<Operand>, ty: TypeId) -> Statement {
    Statement::Eval { rvalue: Rvalue::Call { func: FnId(callee), args, ty } }
}

fn object(prog: &MirProgram) -> ObjectImage {
    let sup = support(prog);
    assert!(is_compilable(prog, Target::X86_64Linux, &sup));
    compile_program_to_object(prog, Target::X86_64Linux, &sup).unwrap()
}

#[test]
fn an_object_names_what_it_defines_and_needs() {
    let mut arena = TypeArena::new();
    let w = word(&mut arena);
    let u8_ty = arena.t_u8();
    let ptr = arena.intern(Type::Pointer { pointee: u8_ty });
    let mut puts = function(2, "puts", &[ptr], w, Vec::new());
    puts.is_extern_decl = true;
    puts.linkage = Linkage::ExternC("puts".to_string());
    puts.params = vec![LocalId(0)];
    puts.abi = FnAbi::C;
    let mut exported = function(3, "k2 api", &[], w, Vec::new());
    exported.linkage = Linkage::ExportC("k2_api".to_string());
    let main = function(
        0,
        "main",
        &[],
        w,
        vec![
            call(1, Vec::new(), w),
            call(2, vec![Operand::Const(Const::Str(ConstId(0)))], w),
        ],
    );
    let helper = function(1, "a.b", &[], w, Vec::new());
    let prog = program(
        arena,
        vec![main, helper, puts, exported],
        vec![ConstData::Bytes(b"hi".to_vec())],
    );
    let img = object(&prog);
    assert!(img.had_extern);
    assert_eq!(img.exports, vec!["main".to_string(), "k2_api".to_string()]);
    // The string goes to C with its zero.
    assert_eq!(img.rodata, b"hi\0");
    let names: Vec<&str> = img.symbols.iter().map(|s| s.name.as_str()).collect();
    assert_eq!(names, vec!["", "", "", "a_b", "main", "k2_api", "puts"]);
    let binds: Vec<u8> = img.symbols.iter().map(|s| s.bind).collect();
    assert_eq!(
        binds,
        vec![STB_LOCAL, STB_LOCAL, STB_LOCAL, STB_LOCAL, STB_GLOBAL, STB_GLOBAL, STB_GLOBAL]
    );
    assert_eq!(img.symbols[3].typ, STT_FUNC);
    assert_eq!(img.symbols[3].shndx, SEC_TEXT);
    assert_eq!(img.symbols[6].shndx, SHN_UNDEF);
    // The functions stand one behind the other.
    let main_sym = &img.symbols[4];
    assert_eq!(main_sym.value, 0);
    assert_eq!(img.symbols[3].value, main_sym.size);
    assert_eq!(img.symbols[5].value, img.symbols[3].value + img.symbols[3].size);
    assert_eq!(img.text.len() as u64, img.symbols[5].value + img.symbols[5].size);
    // A call of a defined function, the data, a call of an outside one.
    assert!(img.relocs.iter().any(|r| r.typ == R_X86_64_64 && r.sym == 2 && r.addend == 0));
    assert!(img.relocs.iter().any(|r| r.typ == R_X86_64_PLT32 && r.sym == 6 && r.addend == -4));
}

#[test]
fn a_symbol_is_as_long_as_the_last_function_with_its_number() {
    let mut arena = TypeArena::new();
    let w = word(&mut arena);
    let main = function(0, "main", &[], w, vec![call(1, Vec::new(), w)]);
    let short = function(1, "short", &[], w, Vec::new());
    let long = function(1, "long", &[], w, vec![call(0, Vec::new(), w)]);
    let prog = program(arena, vec![main, short, long], Vec::new());
    let img = object(&prog);
    let own: Vec<_> =
        img.symbols.iter().filter(|s| s.typ == STT_FUNC && s.name != "main").collect();
    assert_eq!(own.len(), 2);
    assert_eq!(own[0].size, own[1].size);
    assert_eq!(own[1].value + own[1].size, img.text.len() as u64);
    assert!(own[0].value + own[0].size > own[1].value);
}

#[test]
fn objects_for_the_other_target_are_refused_first() {
    let mut arena = TypeArena::new();
    let w = word(&mut arena);
    let main = function(0, "main", &[w], w, Vec::new());
    let prog = program(arena, vec![main], Vec::new());
    // An allocation that fits no function at all.
    let mut sup = support(&prog);
    sup.allocs = Vec::new();
    assert!(!is_compilable(&prog, Target::X86_64Linux, &sup));
    let e = compile_program_to_object(&prog, Target::Aarch64Linux, &sup).err().unwrap();
    assert_eq!(
        e.message(),
        "unsupported by the v0.14 native backend: C-interop object emission is x86-64-only; `aarch64-linux` is not supported"
    );
}

#[test]
fn objects_are_for_one_target_and_no_runtime() {
    let mut arena = TypeArena::new();
    let w = word(&mut arena);
    let main = function(0, "main", &[], w, Vec::new());
    let prog = program(arena, vec![main], Vec::new());
    let sup = support(&prog);
    let e = compile_program_to_object(&prog, Target::Aarch64Linux, &sup).err().unwrap();
    assert_eq!(
        e.message(),
        "unsupported by the v0.14 native backend: C-interop object emission is x86-64-only; `aarch64-linux` is not supported"
    );
    let mut arena = TypeArena::new();
    let w = word(&mut arena);
    let now = Rvalue::Intrinsic {
        path: IntrinsicPath {
            root: IntrinsicRoot::Builtin("clockNow".to_string()),
            members: Vec::new(),
        },
        args: Vec::new(),
    };
    let main = function(0, "main", &[w], w, vec![assign(0, now)]);
    let prog = program(arena, vec![main], Vec::new());
    let sup = support(&prog);
    let e = compile_program_to_object(&prog, Target::X86_64Linux, &sup).err().unwrap();
    assert_eq!(
        e.message(),
        "unsupported by the v0.14 native backend: a program using the `*System` runtime (heap / capabilities) cannot be linked with libc; build it with the freestanding `build-native` path or run it on the VM"
    );
}

fn contains(bytes: &[u8], what: &[u8]) -> bool {
    bytes.windows(what.len()).any(|w| w == what)
}

#[test]
fn debug_information_names_files_and_functions() {
    let mut arena = TypeArena::new();
    let w = word(&mut arena);
    let helper = function(1, "helper", &[], w, Vec::new());
    let main = function(0, "main", &[], w, vec![call(1, Vec::new(), w)]);
    let prog = program(arena, vec![main, helper], Vec::new());
    let sup = support(&prog);
    let ctx = DebugCtx {
        producer: "k2c".to_string(),
        src_path: "/src/demo/first.k2".to_string(),
        comp_dir: "/src".to_string(),
        source_map: DwarfSourceMap::from_segments(vec![
            (1, 15, "first.k2".to_string(), 1),
            (16, 20, "lib/second.k2".to_string(), 1),
        ]),
    };
    assert!(ctx.source_map.fits());
    assert!(!ctx.source_map.is_empty());
    let plain = compile_program_x86(&prog, &sup, None).unwrap();
    let with = compile_program_with_debug(&prog, Target::X86_64Linux, &sup, Some(&ctx)).unwrap();
    assert!(with.bytes.len() > plain.bytes.len());
    assert_eq!(with.text_len, plain.text_len);
    for name in ["main\0", "helper\0", "first.k2\0", "second.k2\0", "k2c\0", "/src\0"] {
        assert!(contains(&with.bytes, name.as_bytes()), "{name}");
        assert!(name == "main\0" || !contains(&plain.bytes, name.as_bytes()), "{name}");
    }
    // What is loaded is the same.
    let at = (plain.text_vaddr - 0x40_0000) as usize;
    let n = plain.text_len as usize;
    assert_eq!(plain.bytes[at..at + n], with.bytes[at..at + n]);
}

#[test]
fn line_numbers_that_do_not_exist() {
    let map = DwarfSourceMap::from_segments(vec![(1, 10, "a".to_string(), u32::MAX)]);
    assert!(!map.fits());
    assert!(DwarfSourceMap::from_segments(Vec::new()).is_empty());
}

#[test]
fn calls_land_on_their_callees() {
    let mut arena = TypeArena::new();
    let w = word(&mut arena);
    let helper = function(1, "helper", &[], w, Vec::new());
    let main = function(0, "main", &[], w, vec![call(1, Vec::new(), w), call(0, Vec::new(), w)]);
    let prog = program(arena, vec![main, helper], Vec::new());
    let sup = support(&prog);
    let image = compile_program_x86(&prog, &sup, None).unwrap();
    let at = (image.text_vaddr - 0x40_0000) as usize;
    let text = &image.bytes[at..at + image.text_len as usize];
    // Every function starts with `push rbp; mov rbp, rsp`.
    let entries: Vec<usize> = (0..text.len() - 3)
        .filter(|&i| text[i..i + 4] == [0x55, 0x48, 0x89, 0xE5])
        .collect();
    assert_eq!(entries.len(), 2);
    let mut landed = Vec::new();
    for i in 0..text.len() - 4 {
        if text[i] == 0xE8 {
            let d = i32::from_le_bytes([text[i + 1], text[i + 2], text[i + 3], text[i + 4]]);
            landed.push((i as i64 + 5 + d as i64) as usize);
        }
    }
    assert_eq!(landed, vec![entries[0], entries[1], entries[0]]);
}

#[test]
fn calls_to_nowhere_are_refused() {
    let mut arena = TypeArena::new();
    let w = word(&mut arena);
    let main = function(0, "main", &[], w, Vec::new());
    let prog = program(arena, vec![main], Vec::new());
    let rodata = RoData::new();
    let runtime = Runtime { routines: Vec::new(), state_size: 0, rng_state: 0, reg_next: 0 };
    let lowered = |kind: FixupKind| {
        vec![LoweredFn {
            id: FnId(0),
            code: vec![0; 16],
            fixups: vec![Fixup { at: 4, kind }],
            line_marks: Vec::new(),
        }]
    };
    let refused = |kind: FixupKind| {
        link_program_x86(&prog, &lowered(kind), &rodata, &runtime, None).err().unwrap().message()
    };
    assert_eq!(
        refused(FixupKind::Call(FnId(9))),
        "unsupported by the v0.14 native backend: call to an unknown fn"
    );
    assert_eq!(
        refused(FixupKind::Runtime(RuntimeFn::Alloc)),
        "unsupported by the v0.14 native backend: call to an unemitted runtime fn"
    );
    // With the routine there, the call is linked, and the routine follows the code.
    let with = Runtime {
        routines: vec![Routine {
            rt: RuntimeFn::Alloc,
            code: vec![0xC3, 0x90, 0x90],
            fixups: Vec::new(),
        }],
        state_size: 64,
        rng_state: 0,
        reg_next: 0,
    };
    let image = link_program_x86(
        &prog,
        &lowered(FixupKind::Runtime(RuntimeFn::Alloc)),
        &rodata,
        &with,
        None,
    )
    .unwrap();
    let at = (image.text_vaddr - 0x40_0000) as usize;
    let text = &image.bytes[at..at + image.text_len as usize];
    let n = text.len();
    assert_eq!(text[n - 3..], [0xC3, 0x90, 0x90]);
    // From behind the hole (at 4 of 16) over 8 more bytes of code.
    assert_eq!(text[n - 15..n - 11], [8, 0, 0, 0]);
    assert!(image.state_vaddr > 0);
}

#[test]
fn the_entry_is_main_or_the_first_declared() {
    let mut arena = TypeArena::new();
    let w = word(&mut arena);
    let a = function(0, "a", &[], w, Vec::new());
    let b = function(1, "main", &[], w, Vec::new());
    let mut prog = program(arena, vec![a, b], Vec::new());
    prog.entries = vec![FnId(0)];
    assert_eq!(find_main(&prog), Some(FnId(1)));
    prog.funcs[1].name = "b".to_string();
    assert_eq!(find_main(&prog), Some(FnId(0)));
    prog.entries.clear();
    assert_eq!(find_main(&prog), None);
}

#[test]
fn optimizing_only_saves() {
    let mut arena = TypeArena::new();
    let w = word(&mut arena);
    let mut main = function(0, "main", &[w], w, vec![assign(0, Rvalue::Use(num(0, w)))]);
    main.blocks[0].term = Terminator::Goto(BlockId(1));
    main.blocks.push(Block {
        stmts: vec![assign(
            0,
            Rvalue::Binary { op: BinOp::Add, lhs: copy(0), rhs: num(1, w), ty: w },
        )],
        term: Terminator::Return { value: copy(0) },
        lines: Vec::new(),
    });
    let prog = program(arena, vec![main], Vec::new());
    let sup = support(&prog);
    let mut ro = RoData::new();
    let lower = |on: bool, ro: &mut RoData| {
        FnLower::new(&prog, &prog.funcs[0], &sup.abi, &sup.allocs[0])
            .lower_with(ro, on)
            .unwrap()
            .0
    };
    let off = lower(false, &mut ro);
    let on = lower(true, &mut ro);
    let default = FnLower::new(&prog, &prog.funcs[0], &sup.abi, &sup.allocs[0])
        .lower(&mut ro)
        .unwrap()
        .0;
    assert_eq!(on, default);
    // The jump to the next block goes.
    assert!(contains(&off, &[0xE9, 0, 0, 0, 0]));
    assert!(!contains(&on, &[0xE9, 0, 0, 0, 0]));
    assert_eq!(on.len() + 5, off.len());
}

#[test]
fn frames_are_planned_downward() {
    let mut arena = TypeArena::new();
    let w = word(&mut arena);
    let small = arena.t_u8();
    let arr = arena.intern(Type::Array { len: ArrayLen::Known(3), elem: w });
    let f = function(0, "f", &[w, arr, small, w], w, Vec::new());
    let plan_of = |outgoing: i32| {
        plan(
            &f,
            &arena,
            &[true, false, true, false],
            &[None; 4],
            &[None; 4],
            &[Gpr::Rbx, Gpr::R12],
            false,
            true,
            outgoing,
        )
    };
    let p = plan_of(0);
    assert_eq!(p.local_home, vec![Some(-8), Some(-32), Some(-40), None]);
    assert_eq!(p.callee_saved_slots, vec![(Gpr::Rbx, -48), (Gpr::R12, -56)]);
    assert_eq!(p.ret_ptr_slot, Some(-64));
    assert_eq!(p.print_buf, None);
    assert_eq!(p.frame_size, 64);
    assert_eq!(p.outgoing_args_base(), 0);
    assert_eq!(plan_of(24).frame_size, 96);
}

#[test]
fn frames_beyond_reach() {
    let mut arena = TypeArena::new();
    let w = word(&mut arena);
    let huge = arena.intern(Type::Array { len: ArrayLen::Known(1 << 28), elem: w });
    let f = function(0, "f", &[huge], w, Vec::new());
    assert!(!frame_fits(&f, &arena, &[false], &[None], &[None], &[], false, false, 0));
    let g = function(0, "g", &[w], w, Vec::new());
    assert!(frame_fits(&g, &arena, &[true], &[None], &[None], &[], true, true, 64));
    assert!(!frame_fits(&g, &arena, &[true], &[None], &[None], &[], true, true, i32::MAX));
}

#[test]
fn classes_of_arguments() {
    let mut arena = TypeArena::new();
    let w = word(&mut arena);
    let f = arena.intern(Type::Float { width: 64 });
    let text = arena.t_str();
    let with = |n: usize, ty: TypeId| StructInfo {
        fields: (0..n).map(|_| FieldInfo { ty, bit_offset: None, bit_width: None }).collect(),
        packed: false,
    };
    arena.structs.push(with(1, w));
    arena.structs.push(with(3, w));
    arena.structs.push(with(1, f));
    arena.structs.push(with(0, w));
    let one = arena.intern(Type::Struct(StructId(0)));
    let three = arena.intern(Type::Struct(StructId(1)));
    let real = arena.intern(Type::Struct(StructId(2)));
    let empty = arena.intern(Type::Struct(StructId(3)));
    let prog = program(arena, Vec::new(), Vec::new());
    assert_eq!(classify(&prog, w), ArgClass::OneInt);
    assert_eq!(classify(&prog, f), ArgClass::Sse);
    assert_eq!(classify(&prog, text), ArgClass::TwoInt);
    assert_eq!(classify(&prog, one), ArgClass::OneInt);
    assert_eq!(classify(&prog, three), ArgClass::Memory { size: 24 });
    assert_eq!(classify(&prog, real), ArgClass::Memory { size: 8 });
    assert_eq!(classify(&prog, empty), ArgClass::OneInt);
}

#[test]
fn room_for_outgoing_arguments() {
    let mut arena = TypeArena::new();
    let w = word(&mut arena);
    arena.structs.push(StructInfo {
        fields: (0..3).map(|_| FieldInfo { ty: w, bit_offset: None, bit_width: None }).collect(),
        packed: false,
    });
    let three = arena.intern(Type::Struct(StructId(0)));
    let callee = function(1, "callee", &[], w, Vec::new());
    let nine = function(2, "nine", &[w], w, vec![call(1, (0..9).map(|_| copy(0)).collect(), w)]);
    let memory = function(3, "memory", &[three], w, vec![call(1, vec![copy(0), copy(0)], w)]);
    let hidden = function(
        4,
        "hidden",
        &[w],
        w,
        vec![call(1, (0..6).map(|_| copy(0)).collect(), three)],
    );
    let print = Rvalue::Intrinsic {
        path: IntrinsicPath {
            root: IntrinsicRoot::Value(copy(0)),
            members: vec!["print".to_string()],
        },
        args: Vec::new(),
    };
    let prints = function(5, "prints", &[w], w, vec![Statement::Eval { rvalue: print }]);
    let prog = program(
        arena,
        vec![function(0, "main", &[], w, Vec::new()), callee, nine, memory, hidden, prints],
        Vec::new(),
    );
    let room = |i: usize| outgoing_args_bytes(&prog, &prog.funcs[i]);
    assert_eq!(room(0), 0);
    assert_eq!(room(2), 32);
    assert_eq!(room(3), 48);
    assert_eq!(room(4), 16);
    assert_eq!(room(5), 128);
    assert!(func_prints(&prog.funcs[5]));
    assert!(!func_prints(&prog.funcs[2]));
    assert_eq!(round_up_i32(17, 8), 24);
    assert_eq!(round_up_i32(-17, 16), -16);
}

#[test]
fn symbols_from_names() {
    assert_eq!(sanitize_symbol("a.b c"), "a_b_c");
    assert_eq!(sanitize_symbol("ok_1"), "ok_1");
    assert_eq!(basename("/a/b/c.k2"), "c.k2");
    assert_eq!(basename("c.k2"), "c.k2");
    assert_eq!(basename("a/"), "");
    let used = vec!["f".to_string()];
    let first = unique_symbol("f", &used);
    assert_ne!(first, "f");
    let second = unique_symbol("f", &vec!["f".to_string(), first.clone()]);
    assert_ne!(second, "f");
    assert_ne!(second, first);
    assert_eq!(unique_symbol("g", &used), "g");
    let taken: Vec<String> =
        ["f", "f_2", "f_4"].iter().map(|s| s.to_string()).collect();
    assert_eq!(unique_symbol("f", &taken), "f_3");
    assert!(has_prefix("test one", "test "));
    assert!(!has_prefix("tes", "test"));
    assert!(has_prefix("anything", ""));
}

/// The rows of a line program that starts with the address of its first row.
fn rows_of(program: &[u8]) -> Vec<(u64, i64, bool)> {
    let mut rows = Vec::new();
    let (mut address, mut line): (u64, i64) = (0, 1);
    let mut i = 0;
    let leb = |i: &mut usize, signed: bool| -> i64 {
        let (mut v, mut shift): (i64, u32) = (0, 0);
        loop {
            let b = program[*i];
            *i += 1;
            v |= ((b & 0x7F) as i64) << shift;
            shift += 7;
            if b & 0x80 == 0 {
                if signed && b & 0x40 != 0 {
                    v |= -1i64 << shift;
                }
                return v;
            }
        }
    };
    while i < program.len() {
        let op = program[i];
        i += 1;
        match op {
            0 => {
                let n = program[i] as usize;
                if program[i + 1] == 2 {
                    address = (0..8).map(|k| (program[i + 2 + k] as u64) << (8 * k)).sum();
                } else {
                    rows.push((address, line, true));
                    line = 1;
                }
                i += 1 + n;
            }
            1 => rows.push((address, line, false)),
            2 => address += leb(&mut i, false) as u64,
            3 => line += leb(&mut i, true),
            4 => {
                leb(&mut i, false);
            }
            _ => {
                let k = op as i64 - 13;
                address += (k / 14) as u64;
                line += k % 14 - 5;
                rows.push((address, line, false));
            }
        }
    }
    rows
}

#[test]
fn statements_have_rows() {
    let mut arena = TypeArena::new();
    let w = word(&mut arena);
    let sum = |k: i128| Rvalue::Binary { op: BinOp::Add, lhs: copy(0), rhs: num(k, w), ty: w };
    let stmts = vec![
        assign(0, Rvalue::Use(num(7, w))),
        // No code, so no row.
        Statement::StorageLive(LocalId(0)),
        assign(0, sum(1)),
        // No line, so no row.
        assign(0, sum(2)),
        assign(0, sum(3)),
    ];
    let mut main = function(0, "main", &[w], w, stmts);
    main.blocks[0].lines = vec![12, 13, 14, 0, 3];
    let helper = function(1, "helper", &[], w, Vec::new());
    let prog = program(arena, vec![main, helper], Vec::new());
    let sup = support(&prog);
    assert!(lines_fit(&prog));
    let lowered = |i: usize, with: bool| {
        let mut ro = RoData::new();
        let cx = FnLower::new(&prog, &prog.funcs[i], &sup.abi, &sup.allocs[i]);
        if with {
            cx.lower_with_lines(&mut ro).unwrap()
        } else {
            let (code, fixups) = cx.lower(&mut ro).unwrap();
            (code, fixups, Vec::new())
        }
    };
    let (code, fixups, marks) = lowered(0, true);
    // The code is the same with and without lines.
    assert_eq!((&code, &fixups), (&lowered(0, false).0, &lowered(0, false).1));
    let lines: Vec<u32> = marks.iter().map(|m| m.line).collect();
    assert_eq!(lines, [12, 14, 3]);
    assert!(marks.windows(2).all(|p| p[0].at < p[1].at));
    assert!(marks.iter().all(|m| m.at < code.len()));
    // Behind the entry stands `mov rax, 7`.
    assert_eq!(code[marks[0].at..marks[0].at + 3], [0x48, 0xC7, 0xC0]);
    assert_eq!(code[marks[0].at + 3], 7);
    let fns: Vec<LoweredFn> = (0..2)
        .map(|i| {
            let (code, fixups, line_marks) = lowered(i, true);
            LoweredFn { id: FnId(i as u32), code, fixups, line_marks }
        })
        .collect();
    assert!(fns[1].line_marks.is_empty());
    let ctx = DebugCtx {
        producer: "k2c".to_string(),
        src_path: "a.k2".to_string(),
        comp_dir: "/src".to_string(),
        source_map: DwarfSourceMap::from_segments(vec![(1, 100, "a.k2".to_string(), 1)]),
    };
    let sections = build_dwarf(&prog, &fns, 0, 64, 0x40_1000, &ctx);
    let start = sections.line.windows(3).position(|p| *p == [0, 9, 2]).unwrap();
    let end = code.len() as u64;
    let mut want: Vec<(u64, i64, bool)> =
        marks.iter().map(|m| (0x40_1000 + m.at as u64, m.line as i64, false)).collect();
    want.push((0x40_1000 + end, 3, true));
    // A function without lines has a row where it is declared.
    want.push((0x40_1000 + end, 20, false));
    want.push((0x40_1000 + end + fns[1].code.len() as u64, 20, true));
    assert_eq!(rows_of(&sections.line[start..]), want);
    // The image has them too.
    let image = compile_program_with_debug(&prog, Target::X86_64Linux, &sup, Some(&ctx)).unwrap();
    let plain = compile_program_x86(&prog, &sup, None).unwrap();
    assert_eq!(image.text_len, plain.text_len);
    let text = image.text_vaddr..image.text_vaddr + image.text_len as u64;
    let at = (0..image.bytes.len() - 11)
        .find(|&i| {
            let a: u64 = (0..8).map(|k| (image.bytes[i + 3 + k] as u64) << (8 * k)).sum();
            image.bytes[i..i + 3] == [0, 9, 2] && text.contains(&a)
        })
        .unwrap();
    let len = image.bytes[at..].windows(3).position(|p| *p == [0, 1, 1]).unwrap() + 3;
    let rows = rows_of(&image.bytes[at..at + len]);
    let lines: Vec<i64> = rows.iter().map(|r| r.1).collect();
    assert_eq!(lines, [12, 14, 3, 3]);
    let away = rows[0].0 - marks[0].at as u64;
    assert!(rows.iter().zip(&marks).all(|(r, m)| r.0 == away + m.at as u64));
    let entry = (away - 0x40_0000) as usize;
    assert_eq!(image.bytes[entry..entry + 4], [0x55, 0x48, 0x89, 0xE5]);
}

#[test]
fn a_statement_whose_code_goes_has_no_mark() {
    let mut arena = TypeArena::new();
    let w = word(&mut arena);
    // The second assignment overwrites the first, which is deleted whole.
    let stmts = vec![assign(0, Rvalue::Use(num(5, w))), assign(0, Rvalue::Use(num(7, w)))];
    let mut main = function(0, "main", &[w], w, stmts);
    main.blocks[0].lines = vec![8, 9];
    main.blocks[0].term = Terminator::Return { value: copy(0) };
    let prog = program(arena, vec![main], Vec::new());
    let mut sup = support(&prog);
    sup.allocs[0].loc[0] = Loc::Reg(Gpr::Rax);
    sup.allocs[0].needs_home[0] = false;
    assert!(is_compilable(&prog, Target::X86_64Linux, &sup));
    let cx = || FnLower::new(&prog, &prog.funcs[0], &sup.abi, &sup.allocs[0]);
    let mut ro = RoData::new();
    let plain = cx().lower_with(&mut ro, false).unwrap().0;
    let (code, _, marks) = cx().lower_with_lines(&mut ro).unwrap();
    assert!(contains(&plain, &[0x48, 0xC7, 0xC0, 5]));
    assert!(!contains(&code, &[0x48, 0xC7, 0xC0, 5]));
    assert_eq!(marks.len(), 1);
    let at = marks[0].at;
    assert_eq!(marks[0], LineMark { at, line: 9 });
    assert_eq!(code[at..at + 4], [0x48, 0xC7, 0xC0, 7]);
}

#[test]
fn constants_and_types_as_text() {
    let ty = TypeId(3);
    for (c, want) in [
        (Const::Int { value: i128::MIN, ty }, "Int { value: -170141183460469231731687303715884105728, ty: TypeId(3) }"),
        (Const::Int { value: 1205, ty }, "Int { value: 1205, ty: TypeId(3) }"),
        (Const::Bool(true), "Bool(true)"),
        (Const::Void, "Void"),
        (Const::Float { bits: u64::MAX, ty }, "Float { bits: 18446744073709551615, ty: TypeId(3) }"),
        (Const::EnumVal { variant: 2, ty }, "EnumVal { variant: 2, ty: TypeId(3) }"),
        (Const::ErrVal { tag: ErrTag(9), ty }, "ErrVal { tag: ErrTag(9), ty: TypeId(3) }"),
        (Const::Undef { ty }, "Undef { ty: TypeId(3) }"),
        (Const::Str(ConstId(0)), "Str(ConstId(0))"),
        (Const::EmptySlice { ty }, "EmptySlice { ty: TypeId(3) }"),
        (Const::Aggregate { id: ConstId(4), ty }, "Aggregate { id: ConstId(4), ty: TypeId(3) }"),
    ] {
        assert_eq!(const_text(c), want);
        assert_eq!(format!("{c:?}"), want);
    }
    for t in [
        Type::Int { signed: true, bits: IntBits::Fixed(7) },
        Type::Int { signed: false, bits: IntBits::Usize },
        Type::Int { signed: true, bits: IntBits::Isize },
        Type::Float { width: 64 },
        Type::Bool,
        Type::Void,
        Type::NoReturn,
        Type::Pointer { pointee: ty },
        Type::Opaque(6),
        Type::AnyOpaque,
        Type::Slice { elem: ty },
        Type::Optional(ty),
        Type::ErrorUnion { ok: ty },
        Type::ErrorSet(1),
        Type::AnyError,
        Type::Array { len: ArrayLen::Known(u64::MAX), elem: ty },
        Type::Array { len: ArrayLen::Inferred, elem: ty },
        Type::Vector { lanes: 4, elem: ty },
        Type::Struct(StructId(1)),
        Type::Enum(EnumId(2)),
        Type::Union(UnionId(3)),
        Type::ComptimeInt,
        Type::ComptimeFloat,
        Type::Deferred,
        Type::AnyType,
    ] {
        assert_eq!(type_text(t), format!("{t:?}"));
    }
    assert_eq!(
        type_text(Type::Array { len: ArrayLen::Known(5), elem: ty }),
        "Array { len: Known(5), elem: TypeId(3) }"
    );
}
