//! Relocatable objects for linking with C.
use std::collections::HashMap;

use vstd::prelude::*;

use crate::bytes::copy_bytes;
use crate::encode::{Fixup, FixupKind};
use crate::link::{
    LoweredFn, LoweredView, any_needs, code_bytes, codes, entry_of, find_main, fixups_need,
    fn_offset, fn_table, lowered_views, place_functions, too_large, too_large_message,
};
use crate::mir::{Linkage, MirFunction, MirProgram};
use crate::mir_ids::FnId;
use crate::obj::{
    ObjReloc, ObjSymbol, ObjectImage, R_X86_64_64, R_X86_64_PLT32, SEC_RODATA, SEC_TEXT, SHN_UNDEF,
    STB_GLOBAL, STB_LOCAL, STT_FUNC, STT_NOTYPE, STT_SECTION, SymbolView, symbol_views,
};
use crate::target::Target;
use crate::text::{
    sanitize_symbol, string_views, symbol_of, taken, unique, unique_is_free, unique_symbol,
};
use crate::{CodegenError, RoData, unsupported};

verus! {

broadcast use vstd::std_specs::hash::group_hash_axioms;

/// The message for an object on another target.
pub open spec fn wrong_target(target: Target) -> Seq<char> {
    "C-interop object emission is x86-64-only; `"@ + target.name() + "` is not supported"@
}

/// The message for a program that needs the runtime.
pub open spec fn needs_runtime_message() -> Seq<char> {
    "a program using the `*System` runtime (heap / capabilities) cannot be linked with libc; build it with the freestanding `build-native` path or run it on the VM"@
}

// ---------------------------------------------------------------------------
//  Symbols
// ---------------------------------------------------------------------------

/// Symbols under construction.
pub struct SymTab {
    /// The symbols.
    pub symbols: Seq<SymbolView>,
    /// The names that C can call.
    pub exports: Seq<Seq<char>>,
    /// The names that are taken.
    pub used: Seq<Seq<char>>,
}

/// A symbol without a name.
pub open spec fn bare_symbol(typ: u8, shndx: u16) -> SymbolView {
    SymbolView { name: Seq::empty(), bind: STB_LOCAL, typ, shndx, value: 0, size: 0 }
}

/// The null symbol and those of the two sections.
pub open spec fn first_symbols() -> Seq<SymbolView> {
    seq![
        bare_symbol(STT_NOTYPE, SHN_UNDEF),
        bare_symbol(STT_SECTION, SEC_TEXT),
        bare_symbol(STT_SECTION, SEC_RODATA),
    ]
}

/// The name and visibility of a defined function: an export under its symbol,
/// the entry as `main`, any other under a free name of its own.
pub open spec fn fn_symbol(
    prog: MirProgram,
    main: Option<FnId>,
    id: FnId,
    used: Seq<Seq<char>>,
) -> (Seq<char>, bool) {
    let f = prog.funcs@[id.0 as int];
    match f.linkage {
        Linkage::ExportC(name) => (name@, true),
        _ => if main == Some(id) {
            ("main"@, true)
        } else {
            (unique(symbol_of(f.name@), used), false)
        },
    }
}

/// How long the function with an id is; the last one where there are several.
pub open spec fn fn_size(l: Seq<LoweredView>, id: FnId) -> Option<nat>
    decreases l.len(),
{
    if l.len() == 0 {
        None
    } else if l.last().id == id {
        Some(l.last().code.len())
    } else {
        fn_size(l.drop_last(), id)
    }
}

/// The symbols of the defined functions.
pub open spec fn defined_symbols(
    prog: MirProgram,
    main: Option<FnId>,
    fns: Seq<LoweredView>,
) -> SymTab {
    symbols_upto(prog, main, fns, fns)
}

/// The symbols of the first ones of all defined functions.
pub open spec fn symbols_upto(
    prog: MirProgram,
    main: Option<FnId>,
    all: Seq<LoweredView>,
    fns: Seq<LoweredView>,
) -> SymTab
    decreases fns.len(),
{
    if fns.len() == 0 {
        SymTab { symbols: first_symbols(), exports: Seq::empty(), used: Seq::empty() }
    } else {
        let t = symbols_upto(prog, main, all, fns.drop_last());
        let (name, global) = fn_symbol(prog, main, fns.last().id, t.used);
        SymTab {
            symbols: t.symbols.push(
                SymbolView {
                    name,
                    bind: if global {
                        STB_GLOBAL
                    } else {
                        STB_LOCAL
                    },
                    typ: STT_FUNC,
                    shndx: SEC_TEXT,
                    value: codes(fns.drop_last()).len() as u64,
                    size: (match fn_size(all, fns.last().id) {
                        Some(n) => n,
                        None => 0,
                    }) as u64,
                },
            ),
            exports: if global {
                t.exports.push(name)
            } else {
                t.exports
            },
            used: t.used.push(name),
        }
    }
}

/// The symbols of one binding, in order.
pub open spec fn with_bind(s: Seq<SymbolView>, bind: u8) -> Seq<SymbolView>
    decreases s.len(),
{
    if s.len() == 0 {
        s
    } else if s.last().bind == bind {
        with_bind(s.drop_last(), bind).push(s.last())
    } else {
        with_bind(s.drop_last(), bind)
    }
}

/// The symbols with all local ones in front, otherwise in order.
pub open spec fn locals_first(s: Seq<SymbolView>) -> Seq<SymbolView> {
    with_bind(s, STB_LOCAL) + with_bind(s, STB_GLOBAL)
}

/// The name of a function that is defined elsewhere.
pub open spec fn extern_name(f: MirFunction) -> Seq<char> {
    match f.linkage {
        Linkage::ExternC(n) => n@,
        _ => symbol_of(f.name@),
    }
}

/// The symbols of the functions that are defined elsewhere.
pub open spec fn extern_symbols(funcs: Seq<MirFunction>) -> Seq<SymbolView>
    decreases funcs.len(),
{
    if funcs.len() == 0 {
        Seq::empty()
    } else if funcs.last().is_extern_decl {
        extern_symbols(funcs.drop_last()).push(
            SymbolView {
                name: extern_name(funcs.last()),
                bind: STB_GLOBAL,
                typ: STT_NOTYPE,
                shndx: SHN_UNDEF,
                value: 0,
                size: 0,
            },
        )
    } else {
        extern_symbols(funcs.drop_last())
    }
}

/// The symbol index of a function that is defined elsewhere, where those symbols
/// start at `base`.
pub open spec fn extern_index(base: nat, funcs: Seq<MirFunction>, id: FnId) -> Option<nat>
    decreases funcs.len(),
{
    if funcs.len() == 0 {
        None
    } else if funcs.last().is_extern_decl && funcs.last().id == id {
        Some(base + extern_symbols(funcs.drop_last()).len())
    } else {
        extern_index(base, funcs.drop_last(), id)
    }
}

// ---------------------------------------------------------------------------
//  Relocations
// ---------------------------------------------------------------------------

/// The section symbol of the code.
pub const SYM_TEXT: u32 = 1;

/// The section symbol of the read-only data.
pub const SYM_RODATA: u32 = 2;

/// What relocations refer to.
pub struct RelocEnv {
    pub fns: Seq<LoweredView>,
    pub funcs: Seq<MirFunction>,
    pub extern_base: nat,
}

/// The relocation of a fixup: a call goes through the callee's own symbol where it
/// is defined elsewhere, else through the code section.
pub open spec fn reloc_of(env: RelocEnv, base: nat, f: Fixup) -> Result<
    Option<ObjReloc>,
    Seq<char>,
> {
    let offset = (base + f.at) as u64;
    match f.kind {
        FixupKind::Call(id) => match extern_index(env.extern_base, env.funcs, id) {
            Some(sym) => Ok(
                Some(ObjReloc { offset, sym: sym as u32, typ: R_X86_64_PLT32, addend: -4i64 }),
            ),
            None => match fn_offset(0, env.fns, id) {
                Some(off) => Ok(
                    Some(
                        ObjReloc {
                            offset,
                            sym: SYM_TEXT,
                            typ: R_X86_64_PLT32,
                            addend: (off - 4) as i64,
                        },
                    ),
                ),
                None => Err("call to an unknown fn in object emission"@),
            },
        },
        FixupKind::Data(off) => Ok(
            Some(ObjReloc { offset, sym: SYM_RODATA, typ: R_X86_64_64, addend: off as i64 }),
        ),
        FixupKind::Runtime(_) => Err("runtime reference in a libc-linked object"@),
        FixupKind::State(_) => Err("runtime reference in a libc-linked object"@),
        FixupKind::Local(_) => Ok(None),
    }
}

/// The relocations of the fixups of code at `base`, behind `before`.
pub open spec fn fixup_relocs(
    env: RelocEnv,
    base: nat,
    f: Seq<Fixup>,
    before: Result<Seq<ObjReloc>, Seq<char>>,
) -> Result<Seq<ObjReloc>, Seq<char>>
    decreases f.len(),
{
    if f.len() == 0 {
        before
    } else {
        match fixup_relocs(env, base, f.drop_last(), before) {
            Err(e) => Err(e),
            Ok(r) => match reloc_of(env, base, f.last()) {
                Err(e) => Err(e),
                Ok(None) => Ok(r),
                Ok(Some(x)) => Ok(r.push(x)),
            },
        }
    }
}

/// The relocations of the first functions.
pub open spec fn fn_relocs(env: RelocEnv, fns: Seq<LoweredView>) -> Result<
    Seq<ObjReloc>,
    Seq<char>,
>
    decreases fns.len(),
{
    if fns.len() == 0 {
        Ok(Seq::empty())
    } else {
        fixup_relocs(
            env,
            codes(fns.drop_last()).len(),
            fns.last().fixups,
            fn_relocs(env, fns.drop_last()),
        )
    }
}

/// What the relocations of a program refer to.
pub open spec fn program_relocs_env(prog: MirProgram, fns: Seq<LoweredView>) -> RelocEnv {
    RelocEnv {
        fns,
        funcs: prog.funcs@,
        extern_base: defined_symbols(prog, entry_of(prog, 0), fns).symbols.len(),
    }
}

/// Whether `img` is the object of a program.
pub open spec fn is_object(
    prog: MirProgram,
    fns: Seq<LoweredView>,
    rodata: Seq<u8>,
    img: ObjectImage,
) -> bool {
    let t = defined_symbols(prog, entry_of(prog, 0), fns);
    let relocs = fn_relocs(program_relocs_env(prog, fns), fns);
    &&& img.text@ == codes(fns)
    &&& img.rodata@ == rodata
    &&& symbol_views(img.symbols@) == locals_first(t.symbols) + extern_symbols(prog.funcs@)
    &&& relocs == Ok::<Seq<ObjReloc>, Seq<char>>(img.relocs@)
    &&& img.had_extern == (extern_symbols(prog.funcs@).len() > 0)
    &&& string_views(img.exports@) == t.exports
}

/// Whether the sizes are in range and the lowered functions are functions of the
/// program.
pub open spec fn object_ready(prog: MirProgram, fns: Seq<LoweredView>) -> bool {
    &&& fns.len() + prog.funcs@.len() < 0xFFFE_0000
    &&& forall|i: int| 0 <= i < fns.len() ==> (#[trigger] fns[i]).id.0 < prog.funcs@.len()
    &&& forall|i: int|
        0 <= i < fns.len() ==> crate::link::within((#[trigger] fns[i]).code, fns[i].fixups)
}

/// Whether any function needs the runtime.
pub open spec fn some_needs(fns: Seq<LoweredView>) -> bool {
    exists|i: int| 0 <= i < fns.len() && any_needs((#[trigger] fns[i]).fixups)
}

/// The error for an object on another target.
pub(crate) fn no_object_for(target: Target) -> (r: CodegenError)
    ensures
        r.unsupported(wrong_target(target)),
{
    let mut msg = String::from_str("C-interop object emission is x86-64-only; `");
    msg.append(target.triple());
    msg.append("` is not supported");
    CodegenError::Unsupported(msg)
}

fn empty_symbol(typ: u8, shndx: u16) -> (r: ObjSymbol)
    ensures
        r@ == bare_symbol(typ, shndx),
{
    let r = ObjSymbol {
        name: String::from_str(""),
        bind: STB_LOCAL,
        typ,
        shndx,
        value: 0,
        size: 0,
    };
    proof {
        reveal_strlit("");
        assert(r@.name =~= Seq::empty());
    }
    r
}

fn copy_string(s: &String) -> (r: String)
    ensures
        r@ == s@,
{
    String::from_str(s.as_str())
}

/// A table of function sizes.
pub open spec fn size_table(m: Map<u32, usize>, l: Seq<LoweredView>) -> bool {
    &&& forall|id: u32| #[trigger] m.contains_key(id) <==> fn_size(l, FnId(id)) is Some
    &&& forall|id: u32| #[trigger]
        m.contains_key(id) ==> fn_size(l, FnId(id)) == Some(m[id] as nat)
}

fn function_sizes(lowered: &Vec<LoweredFn>) -> (m: HashMap<u32, usize>)
    ensures
        size_table(m@, lowered_views(lowered@)),
{
    let ghost l = lowered_views(lowered@);
    let mut m: HashMap<u32, usize> = HashMap::new();
    let mut i: usize = 0;
    assert(l.take(0) =~= Seq::empty());
    while i < lowered.len()
        invariant
            l == lowered_views(lowered@),
            i <= l.len(),
            size_table(m@, l.take(i as int)),
        decreases l.len() - i,
    {
        let ghost before = m@;
        let ghost cur = l.take(i + 1);
        let id: u32 = lowered[i].id.0;
        m.insert(id, lowered[i].code.len());
        proof {
            assert(cur.drop_last() =~= l.take(i as int));
            assert(cur.last() == l[i as int]);
            assert forall|k: u32| true implies (#[trigger] m@.contains_key(k) <==> fn_size(
                cur,
                FnId(k),
            ) is Some) && (m@.contains_key(k) ==> fn_size(cur, FnId(k)) == Some(m@[k] as nat)) by {
                if k == id {
                    assert(cur.last().id == FnId(k));
                } else {
                    assert(before.contains_key(k) <==> m@.contains_key(k));
                }
            }
        }
        i = i + 1;
    }
    assert(l.take(i as int) =~= l);
    m
}

fn define_symbols(
    prog: &MirProgram,
    main: Option<FnId>,
    lowered: &Vec<LoweredFn>,
) -> (r: (Vec<ObjSymbol>, Vec<String>))
    requires
        object_ready(*prog, lowered_views(lowered@)),
        codes(lowered_views(lowered@)).len() <= 0x7FFF_FFFF_FFFF_FFFF,
    ensures
        ({
            let t = defined_symbols(*prog, main, lowered_views(lowered@));
            symbol_views(r.0@) == t.symbols && string_views(r.1@) == t.exports
        }),
        r.0@.len() == 3 + lowered@.len(),
{
    let ghost fns = lowered_views(lowered@);
    let mut symbols: Vec<ObjSymbol> = Vec::new();
    symbols.push(empty_symbol(STT_NOTYPE, SHN_UNDEF));
    symbols.push(empty_symbol(STT_SECTION, SEC_TEXT));
    symbols.push(empty_symbol(STT_SECTION, SEC_RODATA));
    let mut exports: Vec<String> = Vec::new();
    let mut used: Vec<String> = Vec::new();
    let sizes: HashMap<u32, usize> = function_sizes(lowered);
    let mut off: u64 = 0;
    let mut i: usize = 0;
    proof {
        assert(fns.take(0) =~= Seq::empty());
        assert(symbol_views(symbols@) =~= first_symbols());
        assert(string_views(exports@) =~= Seq::empty());
        assert(string_views(used@) =~= Seq::empty());
    }
    while i < lowered.len()
        invariant
            fns == lowered_views(lowered@),
            object_ready(*prog, fns),
            codes(fns).len() <= 0x7FFF_FFFF_FFFF_FFFF,
            size_table(sizes@, fns),
            i <= fns.len(),
            off == codes(fns.take(i as int)).len(),
            symbols@.len() == 3 + i,
            used@.len() == i,
            ({
                let t = symbols_upto(*prog, main, fns, fns.take(i as int));
                &&& symbol_views(symbols@) == t.symbols
                &&& string_views(exports@) == t.exports
                &&& string_views(used@) == t.used
            }),
        decreases fns.len() - i,
    {
        let ghost t = symbols_upto(*prog, main, fns, fns.take(i as int));
        let ghost next = symbols_upto(*prog, main, fns, fns.take(i + 1));
        proof {
            assert(fns.take(i + 1).drop_last() =~= fns.take(i as int));
            assert(fns.take(i + 1).last() == fns[i as int]);
            assert(fns[i as int].id.0 < prog.funcs@.len());
            codes_grow(fns, i + 1);
        }
        let id: FnId = lowered[i].id;
        let f: &MirFunction = &prog.funcs[id.0 as usize];
        let export: Option<String> = match &f.linkage {
            Linkage::ExportC(name) => Some(copy_string(name)),
            _ => None,
        };
        let is_main = match main {
            Some(m) => m == id,
            None => false,
        };
        let (name, global): (String, bool) = match export {
            Some(n) => (n, true),
            None => if is_main {
                (String::from_str("main"), true)
            } else {
                let base = sanitize_symbol(f.name.as_str());
                (unique_symbol(base.as_str(), &used), false)
            },
        };
        let size: u64 = match sizes.get(&id.0) {
            Some(n) => *n as u64,
            None => 0,
        };
        assert(id == FnId(id.0));
        let ghost pair = fn_symbol(*prog, main, id, t.used);
        assert(name@ == pair.0 && global == pair.1);
        if global {
            exports.push(copy_string(&name));
        }
        used.push(copy_string(&name));
        symbols.push(
            ObjSymbol {
                name,
                bind: if global {
                    STB_GLOBAL
                } else {
                    STB_LOCAL
                },
                typ: STT_FUNC,
                shndx: SEC_TEXT,
                value: off,
                size,
            },
        );
        proof {
            assert(symbol_views(symbols@) =~= next.symbols);
            assert(string_views(exports@) =~= next.exports);
            assert(string_views(used@) =~= next.used);
        }
        off = off + lowered[i].code.len() as u64;
        i = i + 1;
    }
    assert(fns.take(i as int) =~= fns);
    (symbols, exports)
}

proof fn codes_grow(fns: Seq<LoweredView>, i: int)
    requires
        0 <= i <= fns.len(),
    ensures
        codes(fns.take(i)).len() <= codes(fns).len(),
    decreases fns.len(),
{
    if i == fns.len() {
        assert(fns.take(i) =~= fns);
    } else {
        codes_grow(fns.drop_last(), i);
        assert(fns.drop_last().take(i) =~= fns.take(i));
    }
}

fn copy_symbol(s: &ObjSymbol) -> (r: ObjSymbol)
    ensures
        r@ == s@,
{
    ObjSymbol {
        name: copy_string(&s.name),
        bind: s.bind,
        typ: s.typ,
        shndx: s.shndx,
        value: s.value,
        size: s.size,
    }
}

fn push_bind(out: &mut Vec<ObjSymbol>, symbols: &Vec<ObjSymbol>, bind: u8)
    ensures
        symbol_views(final(out)@) == symbol_views(old(out)@) + with_bind(
            symbol_views(symbols@),
            bind,
        ),
{
    let ghost v = symbol_views(symbols@);
    let ghost before = symbol_views(out@);
    let mut i: usize = 0;
    assert(v.take(0) =~= Seq::empty());
    assert(symbol_views(out@) =~= before + with_bind(v.take(0), bind));
    while i < symbols.len()
        invariant
            v == symbol_views(symbols@),
            i <= v.len(),
            symbol_views(out@) == before + with_bind(v.take(i as int), bind),
        decreases v.len() - i,
    {
        proof {
            assert(v.take(i + 1).drop_last() =~= v.take(i as int));
            assert(v.take(i + 1).last() == v[i as int]);
        }
        if symbols[i].bind == bind {
            let ghost o = symbol_views(out@);
            out.push(copy_symbol(&symbols[i]));
            assert(symbol_views(out@) =~= o.push(v[i as int]));
            assert(o.push(v[i as int]) =~= before + with_bind(v.take(i + 1), bind));
        }
        i = i + 1;
    }
    assert(v.take(i as int) =~= v);
}

/// Moves local symbols in front of global ones.
fn reorder_locals_first(symbols: &Vec<ObjSymbol>) -> (r: Vec<ObjSymbol>)
    ensures
        symbol_views(r@) == locals_first(symbol_views(symbols@)),
{
    let mut out: Vec<ObjSymbol> = Vec::new();
    assert(symbol_views(out@) =~= Seq::empty());
    push_bind(&mut out, symbols, STB_LOCAL);
    assert(symbol_views(out@) =~= with_bind(symbol_views(symbols@), STB_LOCAL));
    push_bind(&mut out, symbols, STB_GLOBAL);
    out
}

/// A table of the symbols of functions defined elsewhere.
spec fn extern_table(m: Map<u32, u32>, base: nat, funcs: Seq<MirFunction>) -> bool {
    &&& forall|id: u32| #[trigger] m.contains_key(id) <==> extern_index(
        base,
        funcs,
        FnId(id),
    ) is Some
    &&& forall|id: u32| #[trigger]
        m.contains_key(id) ==> extern_index(base, funcs, FnId(id)) == Some(m[id] as nat)
}

fn push_externs(symbols: &mut Vec<ObjSymbol>, funcs: &Vec<MirFunction>) -> (m: HashMap<u32, u32>)
    requires
        old(symbols)@.len() + funcs@.len() <= u32::MAX,
    ensures
        symbol_views(final(symbols)@) == symbol_views(old(symbols)@) + extern_symbols(funcs@),
        extern_table(m@, old(symbols)@.len(), funcs@),
{
    let ghost before = symbol_views(symbols@);
    let ghost base = symbols@.len();
    let mut m: HashMap<u32, u32> = HashMap::new();
    let mut i: usize = 0;
    proof {
        assert(funcs@.take(0) =~= Seq::empty());
        assert(symbol_views(symbols@) =~= before + extern_symbols(funcs@.take(0)));
    }
    while i < funcs.len()
        invariant
            i <= funcs@.len(),
            base + funcs@.len() <= u32::MAX,
            before.len() == base,
            symbol_views(symbols@) == before + extern_symbols(funcs@.take(i as int)),
            extern_symbols(funcs@.take(i as int)).len() <= i,
            extern_table(m@, base, funcs@.take(i as int)),
        decreases funcs@.len() - i,
    {
        let ghost t = funcs@.take(i + 1);
        let ghost old_m = m@;
        proof {
            assert(t.drop_last() =~= funcs@.take(i as int));
            assert(t.last() == funcs@[i as int]);
            assert(symbol_views(symbols@).len() == base + extern_symbols(
                funcs@.take(i as int),
            ).len());
        }
        if funcs[i].is_extern_decl {
            let name: String = match &funcs[i].linkage {
                Linkage::ExternC(n) => copy_string(n),
                _ => sanitize_symbol(funcs[i].name.as_str()),
            };
            assert(name@ == extern_name(funcs@[i as int]));
            let idx: u32 = symbols.len() as u32;
            let id: u32 = funcs[i].id.0;
            m.insert(id, idx);
            let ghost v0 = symbol_views(symbols@);
            symbols.push(
                ObjSymbol {
                    name,
                    bind: STB_GLOBAL,
                    typ: STT_NOTYPE,
                    shndx: SHN_UNDEF,
                    value: 0,
                    size: 0,
                },
            );
            proof {
                assert(symbol_views(symbols@) =~= v0.push(extern_symbols(t).last()));
                assert(symbol_views(symbols@) =~= before + extern_symbols(t));
                assert forall|k: u32| true implies (#[trigger] m@.contains_key(k) <==> extern_index(
                    base,
                    t,
                    FnId(k),
                ) is Some) && (m@.contains_key(k) ==> extern_index(base, t, FnId(k)) == Some(
                    m@[k] as nat,
                )) by {
                    if k == id {
                        assert(t.last().id == FnId(k));
                    } else {
                        assert(old_m.contains_key(k) <==> m@.contains_key(k));
                    }
                }
            }
        } else {
            proof {
                assert forall|k: u32| true implies (#[trigger] m@.contains_key(k) <==> extern_index(
                    base,
                    t,
                    FnId(k),
                ) is Some) && (m@.contains_key(k) ==> extern_index(base, t, FnId(k)) == Some(
                    m@[k] as nat,
                )) by {
                    assert(old_m.contains_key(k) <==> m@.contains_key(k));
                }
            }
        }
        i = i + 1;
    }
    assert(funcs@.take(i as int) =~= funcs@);
    m
}

/// Whether the relocations up to some point are `r`.
spec fn relocs_are(x: Result<Seq<ObjReloc>, Seq<char>>, r: Seq<ObjReloc>) -> bool {
    x == Ok::<Seq<ObjReloc>, Seq<char>>(r)
}

proof fn fixup_relocs_fail(
    env: RelocEnv,
    base: nat,
    f: Seq<Fixup>,
    before: Result<Seq<ObjReloc>, Seq<char>>,
    n: int,
)
    requires
        0 <= n <= f.len(),
        fixup_relocs(env, base, f.take(n), before) is Err,
    ensures
        fixup_relocs(env, base, f, before) == fixup_relocs(env, base, f.take(n), before),
    decreases f.len(),
{
    if n == f.len() {
        assert(f.take(n) =~= f);
    } else {
        assert(f.drop_last().take(n) =~= f.take(n));
        fixup_relocs_fail(env, base, f.drop_last(), before, n);
    }
}

proof fn fixup_relocs_err(
    env: RelocEnv,
    base: nat,
    f: Seq<Fixup>,
    before: Result<Seq<ObjReloc>, Seq<char>>,
)
    requires
        before is Err,
    ensures
        fixup_relocs(env, base, f, before) == before,
    decreases f.len(),
{
    if f.len() > 0 {
        fixup_relocs_err(env, base, f.drop_last(), before);
    }
}

proof fn fn_relocs_fail(env: RelocEnv, fns: Seq<LoweredView>, n: int)
    requires
        0 <= n <= fns.len(),
        fn_relocs(env, fns.take(n)) is Err,
    ensures
        fn_relocs(env, fns) == fn_relocs(env, fns.take(n)),
    decreases fns.len(),
{
    if n == fns.len() {
        assert(fns.take(n) =~= fns);
    } else {
        assert(fns.drop_last().take(n) =~= fns.take(n));
        fn_relocs_fail(env, fns.drop_last(), n);
        fixup_relocs_err(
            env,
            codes(fns.drop_last()).len(),
            fns.last().fixups,
            fn_relocs(env, fns.drop_last()),
        );
    }
}

proof fn fn_offset_bounded(fns: Seq<LoweredView>, id: FnId)
    ensures
        fn_offset(0, fns, id) matches Some(o) ==> o <= codes(fns).len(),
    decreases fns.len(),
{
    if fns.len() > 0 {
        fn_offset_bounded(fns.drop_last(), id);
    }
}

fn relocate(
    base: usize,
    f: Fixup,
    externs: &HashMap<u32, u32>,
    offsets: &HashMap<u32, usize>,
    env: Ghost<RelocEnv>,
) -> (r: Result<Option<ObjReloc>, CodegenError>)
    requires
        extern_table(externs@, env@.extern_base, env@.funcs),
        fn_table(offsets@, 0, env@.fns),
        codes(env@.fns).len() <= 0x7FFF_FFFF_FFFF_FFFF,
        base + f.at <= usize::MAX,
    ensures
        match r {
            Ok(x) => reloc_of(env@, base as nat, f) == Ok::<Option<ObjReloc>, Seq<char>>(x),
            Err(e) => reloc_of(env@, base as nat, f) is Err && e.unsupported(
                reloc_of(env@, base as nat, f)->Err_0,
            ),
        },
{
    let offset: u64 = (base + f.at) as u64;
    match f.kind {
        FixupKind::Call(id) => {
            proof {
                assert(externs@.contains_key(id.0) <==> extern_index(
                    env@.extern_base,
                    env@.funcs,
                    FnId(id.0),
                ) is Some);
                assert(offsets@.contains_key(id.0) <==> fn_offset(0, env@.fns, FnId(id.0)) is Some);
                fn_offset_bounded(env@.fns, id);
            }
            match externs.get(&id.0) {
                Some(sym) => Ok(
                    Some(ObjReloc { offset, sym: *sym, typ: R_X86_64_PLT32, addend: -4 }),
                ),
                None => match offsets.get(&id.0) {
                    Some(off) => Ok(
                        Some(
                            ObjReloc {
                                offset,
                                sym: SYM_TEXT,
                                typ: R_X86_64_PLT32,
                                addend: (*off) as i64 - 4,
                            },
                        ),
                    ),
                    None => Err(unsupported("call to an unknown fn in object emission")),
                },
            }
        },
        FixupKind::Data(off) => Ok(
            Some(ObjReloc { offset, sym: SYM_RODATA, typ: R_X86_64_64, addend: off as i64 }),
        ),
        FixupKind::Runtime(_) => Err(unsupported("runtime reference in a libc-linked object")),
        FixupKind::State(_) => Err(unsupported("runtime reference in a libc-linked object")),
        FixupKind::Local(_) => Ok(None),
    }
}

fn relocate_all(
    lowered: &Vec<LoweredFn>,
    externs: &HashMap<u32, u32>,
    offsets: &HashMap<u32, usize>,
    env: Ghost<RelocEnv>,
) -> (r: Result<Vec<ObjReloc>, CodegenError>)
    requires
        env@.fns == lowered_views(lowered@),
        extern_table(externs@, env@.extern_base, env@.funcs),
        fn_table(offsets@, 0, env@.fns),
        codes(env@.fns).len() <= 0x7FFF_FFFF_FFFF_FFFF,
        codes(env@.fns).len() <= usize::MAX,
        forall|i: int|
            0 <= i < env@.fns.len() ==> crate::link::within(
                (#[trigger] env@.fns[i]).code,
                env@.fns[i].fixups,
            ),
    ensures
        ({
            let x = fn_relocs(env@, env@.fns);
            match r {
                Ok(v) => x == Ok::<Seq<ObjReloc>, Seq<char>>(v@),
                Err(e) => x is Err && e.unsupported(x->Err_0),
            }
        }),
{
    let ghost fns = env@.fns;
    let mut relocs: Vec<ObjReloc> = Vec::new();
    let mut base: usize = 0;
    let mut i: usize = 0;
    assert(fns.take(0) =~= Seq::empty());
    assert(relocs@ =~= Seq::empty());
    while i < lowered.len()
        invariant
            env@.fns == lowered_views(lowered@),
            fns == env@.fns,
            extern_table(externs@, env@.extern_base, env@.funcs),
            fn_table(offsets@, 0, env@.fns),
            codes(fns).len() <= 0x7FFF_FFFF_FFFF_FFFF,
            codes(fns).len() <= usize::MAX,
            forall|i: int|
                0 <= i < fns.len() ==> crate::link::within((#[trigger] fns[i]).code, fns[i].fixups),
            i <= fns.len(),
            base == codes(fns.take(i as int)).len(),
            relocs_are(fn_relocs(env@, fns.take(i as int)), relocs@),
        decreases fns.len() - i,
    {
        let ghost f = fns[i as int].fixups;
        let ghost before = fn_relocs(env@, fns.take(i as int));
        proof {
            assert(fns.take(i + 1).drop_last() =~= fns.take(i as int));
            assert(fns.take(i + 1).last() == fns[i as int]);
            codes_grow(fns, i + 1);
            assert(f.take(0) =~= Seq::empty());
        }
        let mut k: usize = 0;
        while k < lowered[i].fixups.len()
            invariant
                i < fns.len(),
                env@.fns == lowered_views(lowered@),
                fns == env@.fns,
                f == fns[i as int].fixups,
                before == fn_relocs(env@, fns.take(i as int)),
                fn_relocs(env@, fns.take(i + 1)) == fixup_relocs(env@, base as nat, f, before),
                extern_table(externs@, env@.extern_base, env@.funcs),
                fn_table(offsets@, 0, env@.fns),
                codes(fns).len() <= 0x7FFF_FFFF_FFFF_FFFF,
                crate::link::within(fns[i as int].code, f),
                base + fns[i as int].code.len() <= usize::MAX,
                k <= f.len(),
                relocs_are(fixup_relocs(env@, base as nat, f.take(k as int), before), relocs@),
            decreases f.len() - k,
        {
            let fx: Fixup = lowered[i].fixups[k];
            proof {
                assert(f[k as int] == fx);
                assert(f.take(k + 1).drop_last() =~= f.take(k as int));
                assert(f.take(k + 1).last() == fx);
            }
            match relocate(base, fx, externs, offsets, env) {
                Ok(x) => {
                    match x {
                        Some(reloc) => relocs.push(reloc),
                        None => {},
                    }
                },
                Err(e) => {
                    proof {
                        fixup_relocs_fail(env@, base as nat, f, before, k + 1);
                        fn_relocs_fail(env@, fns, i + 1);
                    }
                    return Err(e);
                },
            }
            k = k + 1;
        }
        assert(f.take(k as int) =~= f);
        base = base + lowered[i].code.len();
        i = i + 1;
    }
    assert(fns.take(i as int) =~= fns);
    Ok(relocs)
}

/// Makes a relocatable object of lowered functions.
pub fn link_object(
    prog: &MirProgram,
    target: Target,
    lowered: &Vec<LoweredFn>,
    rodata: &RoData,
) -> (r: Result<ObjectImage, CodegenError>)
    requires
        object_ready(*prog, lowered_views(lowered@)),
    ensures
        ({
            let fns = lowered_views(lowered@);
            let relocs = fn_relocs(program_relocs_env(*prog, fns), fns);
            match r {
                Ok(img) => target == Target::X86_64Linux && !some_needs(fns) && codes(fns).len()
                    <= 0x7FFF_FFFF_FFFF_FFFF && is_object(
                    *prog,
                    fns,
                    rodata@.bytes,
                    img,
                ),
                Err(e) => if target != Target::X86_64Linux {
                    e.unsupported(wrong_target(target))
                } else if some_needs(fns) {
                    e.unsupported(needs_runtime_message())
                } else if codes(fns).len() > 0x7FFF_FFFF_FFFF_FFFF {
                    e.unsupported(too_large_message())
                } else {
                    relocs is Err && e.unsupported(relocs->Err_0)
                },
            }
        }),
{
    if target != Target::X86_64Linux {
        return Err(no_object_for(target));
    }
    let ghost fns = lowered_views(lowered@);
    let mut i: usize = 0;
    while i < lowered.len()
        invariant
            fns == lowered_views(lowered@),
            target == Target::X86_64Linux,
            i <= fns.len(),
            forall|k: int| 0 <= k < i ==> !any_needs((#[trigger] fns[k]).fixups),
        decreases fns.len() - i,
    {
        if fixups_need(&lowered[i].fixups) {
            assert(any_needs(fns[i as int].fixups));
            return Err(
                unsupported(
                    "a program using the `*System` runtime (heap / capabilities) cannot be linked with libc; build it with the freestanding `build-native` path or run it on the VM",
                ),
            );
        }
        assert(fns[i as int].fixups == lowered@[i as int].fixups@);
        i = i + 1;
    }
    if code_bytes(lowered) > 0x7FFF_FFFF_FFFF_FFFF {
        return Err(too_large());
    }
    let mut text: Vec<u8> = Vec::new();
    let offsets = place_functions(&mut text, lowered);
    assert(text@ =~= codes(fns));
    let main = find_main(prog);
    let (unordered, exports) = define_symbols(prog, main, lowered);
    let mut symbols = reorder_locals_first(&unordered);
    let ghost t = defined_symbols(*prog, main, fns);
    proof {
        defined_binds(*prog, main, fns, fns);
        locals_first_len(t.symbols);
        assert(symbol_views(symbols@).len() == symbols@.len());
    }
    let before: usize = symbols.len();
    let externs = push_externs(&mut symbols, &prog.funcs);
    let ghost env = program_relocs_env(*prog, fns);
    let _text_len: usize = text.len();
    let relocs = match relocate_all(lowered, &externs, &offsets, Ghost(env)) {
        Ok(v) => v,
        Err(e) => {
            return Err(e);
        },
    };
    assert(symbol_views(symbols@).len() == symbols@.len());
    let had_extern = symbols.len() > before;
    let data = copy_bytes(rodata.bytes());
    Ok(ObjectImage { text, rodata: data, symbols, relocs, had_extern, exports })
}

// ---------------------------------------------------------------------------
//  Laws
// ---------------------------------------------------------------------------

/// Whether every symbol is local or global.
pub open spec fn binds_ok(s: Seq<SymbolView>) -> bool {
    forall|i: int|
        0 <= i < s.len() ==> (#[trigger] s[i]).bind == STB_LOCAL || s[i].bind == STB_GLOBAL
}

proof fn defined_binds(
    prog: MirProgram,
    main: Option<FnId>,
    all: Seq<LoweredView>,
    fns: Seq<LoweredView>,
)
    ensures
        binds_ok(symbols_upto(prog, main, all, fns).symbols),
        symbols_upto(prog, main, all, fns).symbols.len() == 3 + fns.len(),
    decreases fns.len(),
{
    if fns.len() > 0 {
        defined_binds(prog, main, all, fns.drop_last());
    }
}

/// Reordering loses no symbol and adds none.
pub proof fn locals_first_len(s: Seq<SymbolView>)
    requires
        binds_ok(s),
    ensures
        locals_first(s).len() == s.len(),
        locals_first(s).to_multiset() == s.to_multiset(),
    decreases s.len(),
{
    let l = with_bind(s, STB_LOCAL);
    let g = with_bind(s, STB_GLOBAL);
    if s.len() == 0 {
        assert(l + g =~= s);
    } else {
        let s0 = s.drop_last();
        assert forall|i: int| 0 <= i < s0.len() implies (#[trigger] s0[i]).bind == STB_LOCAL
            || s0[i].bind == STB_GLOBAL by {
            assert(s[i] == s0[i]);
        }
        locals_first_len(s0);
        let l0 = with_bind(s0, STB_LOCAL);
        let g0 = with_bind(s0, STB_GLOBAL);
        assert(s[s.len() - 1] == s.last());
        assert(s =~= s0.push(s.last()));
        s0.to_multiset_ensures();
        vstd::seq_lib::lemma_multiset_commutative(l, g);
        vstd::seq_lib::lemma_multiset_commutative(l0, g0);
        l0.to_multiset_ensures();
        g0.to_multiset_ensures();
        if s.last().bind == STB_LOCAL {
            assert(l == l0.push(s.last()));
            assert(g == g0);
            assert(l.to_multiset() =~= l0.to_multiset().insert(s.last()));
        } else {
            assert(g == g0.push(s.last()));
            assert(l == l0);
            assert(g.to_multiset() =~= g0.to_multiset().insert(s.last()));
        }
        assert(locals_first(s).to_multiset() =~= s.to_multiset());
    }
}

proof fn with_bind_all(s: Seq<SymbolView>, bind: u8)
    ensures
        forall|i: int| 0 <= i < with_bind(s, bind).len() ==> (#[trigger] with_bind(s, bind)[i]).bind
            == bind,
    decreases s.len(),
{
    if s.len() > 0 {
        let s0 = s.drop_last();
        with_bind_all(s0, bind);
        assert forall|i: int| 0 <= i < with_bind(s, bind).len() implies (#[trigger] with_bind(
            s,
            bind,
        )[i]).bind == bind by {
            if i < with_bind(s0, bind).len() {
                assert(with_bind(s, bind)[i] == with_bind(s0, bind)[i]);
            }
        }
    }
}

/// In an object every local symbol stands in front of every global one, as the
/// format asks.
pub proof fn object_locals_in_front(s: Seq<SymbolView>, funcs: Seq<MirFunction>, i: int, j: int)
    requires
        ({
            let t = locals_first(s) + extern_symbols(funcs);
            0 <= i < t.len() && 0 <= j < t.len() && t[i].bind == STB_LOCAL && t[j].bind
                == STB_GLOBAL
        }),
    ensures
        i < j,
{
    let l = with_bind(s, STB_LOCAL);
    let g = with_bind(s, STB_GLOBAL);
    let t = locals_first(s) + extern_symbols(funcs);
    with_bind_all(s, STB_LOCAL);
    with_bind_all(s, STB_GLOBAL);
    externs_global(funcs);
    if i >= l.len() {
        if i < l.len() + g.len() {
            assert(t[i] == g[i - l.len()]);
        } else {
            assert(t[i] == extern_symbols(funcs)[i - l.len() - g.len()]);
        }
    }
    if j < l.len() {
        assert(t[j] == l[j]);
    }
}

proof fn externs_global(funcs: Seq<MirFunction>)
    ensures
        forall|i: int|
            0 <= i < extern_symbols(funcs).len() ==> (#[trigger] extern_symbols(funcs)[i]).bind
                == STB_GLOBAL,
    decreases funcs.len(),
{
    if funcs.len() > 0 {
        let f0 = funcs.drop_last();
        externs_global(f0);
        assert forall|i: int| 0 <= i < extern_symbols(funcs).len() implies (
        #[trigger] extern_symbols(funcs)[i]).bind == STB_GLOBAL by {
            if i < extern_symbols(f0).len() {
                assert(extern_symbols(funcs)[i] == extern_symbols(f0)[i]);
            }
        }
    }
}

proof fn with_bind_front(s: Seq<SymbolView>)
    requires
        s.len() >= 3,
        forall|i: int| 0 <= i < 3 ==> (#[trigger] s[i]).bind == STB_LOCAL,
    ensures
        with_bind(s, STB_LOCAL).len() >= 3,
        forall|i: int| 0 <= i < 3 ==> (#[trigger] with_bind(s, STB_LOCAL)[i]) == s[i],
    decreases s.len(),
{
    if s.len() == 3 {
        let a = s.drop_last();
        let b = a.drop_last();
        let c = b.drop_last();
        assert(s[2] == s.last() && s[1] == a.last() && s[0] == b.last());
        assert(c =~= Seq::empty());
        assert(with_bind(c, STB_LOCAL) =~= Seq::empty());
        assert(with_bind(b, STB_LOCAL) =~= seq![s[0]]);
        assert(with_bind(a, STB_LOCAL) =~= seq![s[0], s[1]]);
        assert(with_bind(s, STB_LOCAL) =~= seq![s[0], s[1], s[2]]);
    } else {
        let s0 = s.drop_last();
        assert forall|i: int| 0 <= i < 3 implies (#[trigger] s0[i]).bind == STB_LOCAL by {
            assert(s[i] == s0[i]);
        }
        with_bind_front(s0);
        assert forall|i: int| 0 <= i < 3 implies (#[trigger] with_bind(
            s,
            STB_LOCAL,
        )[i]) == s[i] by {
            assert(s0[i] == s[i]);
            assert(with_bind(s0, STB_LOCAL)[i] == s0[i]);
        }
    }
}

proof fn defined_front(
    prog: MirProgram,
    main: Option<FnId>,
    all: Seq<LoweredView>,
    fns: Seq<LoweredView>,
)
    ensures
        symbols_upto(prog, main, all, fns).symbols.len() >= 3,
        forall|i: int|
            0 <= i < 3 ==> (#[trigger] symbols_upto(prog, main, all, fns).symbols[i])
                == first_symbols()[i],
    decreases fns.len(),
{
    if fns.len() > 0 {
        defined_front(prog, main, all, fns.drop_last());
    }
}

/// The section symbols keep the indices that the relocations use.
pub proof fn section_symbols_in_place(prog: MirProgram, main: Option<FnId>, fns: Seq<LoweredView>)
    ensures
        ({
            let s = locals_first(defined_symbols(prog, main, fns).symbols);
            &&& s.len() >= 3
            &&& s[0] == bare_symbol(STT_NOTYPE, SHN_UNDEF)
            &&& s[SYM_TEXT as int] == bare_symbol(STT_SECTION, SEC_TEXT)
            &&& s[SYM_RODATA as int] == bare_symbol(STT_SECTION, SEC_RODATA)
        }),
{
    let s = defined_symbols(prog, main, fns).symbols;
    defined_front(prog, main, fns, fns);
    assert(first_symbols()[0] == bare_symbol(STT_NOTYPE, SHN_UNDEF));
    assert(first_symbols()[1] == bare_symbol(STT_SECTION, SEC_TEXT));
    assert(first_symbols()[2] == bare_symbol(STT_SECTION, SEC_RODATA));
    with_bind_front(s);
    let l = with_bind(s, STB_LOCAL);
    assert(locals_first(s)[0] == l[0] && locals_first(s)[1] == l[1] && locals_first(s)[2] == l[2]);
}

/// Every function stands in the text where its symbol says, with the size that it says, where
/// no later one has its id.
pub proof fn symbols_span_functions(
    prog: MirProgram,
    main: Option<FnId>,
    fns: Seq<LoweredView>,
    i: int,
)
    requires
        0 <= i < fns.len(),
        codes(fns).len() <= u64::MAX,
        forall|j: int| i < j < fns.len() ==> (#[trigger] fns[j]).id != fns[i].id,
    ensures
        ({
            let s = defined_symbols(prog, main, fns).symbols;
            &&& s.len() == 3 + fns.len()
            &&& s[3 + i].shndx == SEC_TEXT
            &&& s[3 + i].value + s[3 + i].size <= codes(fns).len()
            &&& codes(fns).subrange(
                s[3 + i].value as int,
                s[3 + i].value + s[3 + i].size,
            ) == fns[i].code
        }),
{
    symbol_count(prog, main, fns, fns);
    symbol_places(prog, main, fns, fns, i);
    last_size(fns, i);
    code_spans(fns, i);
}

proof fn symbol_places(
    prog: MirProgram,
    main: Option<FnId>,
    all: Seq<LoweredView>,
    fns: Seq<LoweredView>,
    i: int,
)
    requires
        0 <= i < fns.len(),
    ensures
        ({
            let s = symbols_upto(prog, main, all, fns).symbols[3 + i];
            &&& s.shndx == SEC_TEXT
            &&& s.value == codes(fns.take(i)).len() as u64
            &&& s.size == (match fn_size(all, fns[i].id) {
                Some(n) => n,
                None => 0,
            }) as u64
        }),
    decreases fns.len(),
{
    let f0 = fns.drop_last();
    symbol_count(prog, main, all, f0);
    if i < f0.len() {
        symbol_places(prog, main, all, f0, i);
        assert(f0.take(i) =~= fns.take(i));
    } else {
        assert(fns.take(i) =~= f0);
    }
}

proof fn last_size(fns: Seq<LoweredView>, i: int)
    requires
        0 <= i < fns.len(),
        forall|j: int| i < j < fns.len() ==> (#[trigger] fns[j]).id != fns[i].id,
    ensures
        fn_size(fns, fns[i].id) == Some(fns[i].code.len()),
    decreases fns.len(),
{
    let f0 = fns.drop_last();
    if i < f0.len() {
        assert(fns[fns.len() - 1].id != fns[i].id);
        assert forall|j: int| i < j < f0.len() implies (#[trigger] f0[j]).id != f0[i].id by {
            assert(f0[j] == fns[j]);
        }
        last_size(f0, i);
    }
}

proof fn code_spans(fns: Seq<LoweredView>, i: int)
    requires
        0 <= i < fns.len(),
    ensures
        codes(fns.take(i)).len() + fns[i].code.len() <= codes(fns).len(),
        codes(fns).subrange(
            codes(fns.take(i)).len() as int,
            (codes(fns.take(i)).len() + fns[i].code.len()) as int,
        ) == fns[i].code,
    decreases fns.len(),
{
    let f0 = fns.drop_last();
    let v = codes(fns.take(i)).len() as int;
    let n = fns[i].code.len() as int;
    if i < f0.len() {
        code_spans(f0, i);
        assert(f0.take(i) =~= fns.take(i));
        assert(codes(fns).subrange(v, v + n) =~= codes(f0).subrange(v, v + n));
    } else {
        assert(fns.take(i) =~= f0);
        assert(codes(fns).subrange(v, v + n) =~= fns.last().code);
    }
}


proof fn symbol_count(
    prog: MirProgram,
    main: Option<FnId>,
    all: Seq<LoweredView>,
    fns: Seq<LoweredView>,
)
    ensures
        symbols_upto(prog, main, all, fns).symbols.len() == 3 + fns.len(),
        symbols_upto(prog, main, all, fns).used.len() == fns.len(),
    decreases fns.len(),
{
    if fns.len() > 0 {
        symbol_count(prog, main, all, fns.drop_last());
    }
}

proof fn names_are_used(
    prog: MirProgram,
    main: Option<FnId>,
    all: Seq<LoweredView>,
    fns: Seq<LoweredView>,
    i: int,
)
    requires
        0 <= i < fns.len(),
    ensures
        symbols_upto(
            prog,
            main,
            all,
            fns,
        ).symbols[3 + i].name == symbols_upto(prog, main, all, fns).used[i],
    decreases fns.len(),
{
    symbol_count(prog, main, all, fns.drop_last());
    if i < fns.len() - 1 {
        names_are_used(prog, main, all, fns.drop_last(), i);
    }
}

/// A function that C cannot call has a name that no function before it has, so that no two of
/// them share a symbol.
pub proof fn helpers_have_their_own_names(
    prog: MirProgram,
    main: Option<FnId>,
    fns: Seq<LoweredView>,
    i: int,
    j: int,
)
    requires
        0 <= i < j < fns.len(),
        defined_symbols(prog, main, fns).symbols[3 + j].bind == STB_LOCAL,
    ensures
        defined_symbols(prog, main, fns).symbols[3 + i].name != defined_symbols(
            prog,
            main,
            fns,
        ).symbols[3 + j].name,
{
    names_differ(prog, main, fns, fns, i, j);
}

proof fn names_differ(
    prog: MirProgram,
    main: Option<FnId>,
    all: Seq<LoweredView>,
    fns: Seq<LoweredView>,
    i: int,
    j: int,
)
    requires
        0 <= i < j < fns.len(),
        symbols_upto(prog, main, all, fns).symbols[3 + j].bind == STB_LOCAL,
    ensures
        symbols_upto(
            prog,
            main,
            all,
            fns,
        ).symbols[3 + i].name != symbols_upto(prog, main, all, fns).symbols[3 + j].name,
    decreases fns.len(),
{
    let f0 = fns.drop_last();
    symbol_count(prog, main, all, f0);
    if j < f0.len() {
        names_differ(prog, main, all, f0, i, j);
    } else {
        let used = symbols_upto(prog, main, all, f0).used;
        names_are_used(prog, main, all, f0, i);
        unique_is_free(symbol_of(prog.funcs@[fns.last().id.0 as int].name@), used);
        assert(taken(used, used[i]));
    }
}

/// A call of a function that is defined elsewhere refers to the undefined symbol with its
/// name.
pub proof fn calls_refer_to_their_names(
    base: nat,
    before: Seq<SymbolView>,
    funcs: Seq<MirFunction>,
    id: FnId,
) -> (j: int)
    requires
        before.len() == base,
        extern_index(base, funcs, id) is Some,
    ensures
        0 <= j < funcs.len(),
        funcs[j].id == id,
        funcs[j].is_extern_decl,
        ({
            let k = extern_index(base, funcs, id).unwrap() as int;
            let s = before + extern_symbols(funcs);
            &&& base <= k < s.len()
            &&& s[k].name == extern_name(funcs[j])
            &&& s[k].shndx == SHN_UNDEF
            &&& s[k].bind == STB_GLOBAL
        }),
    decreases funcs.len(),
{
    let f0 = funcs.drop_last();
    if funcs.last().is_extern_decl && funcs.last().id == id {
        funcs.len() - 1
    } else {
        calls_refer_to_their_names(base, before, f0, id)
    }
}

} // verus!
