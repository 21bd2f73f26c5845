//! The ELF64 executable writer.
//!
//! An image has a text segment that also covers the headers, an optional
//! read-only data segment and an optional zero-filled writable segment, each at
//! an address congruent to its file offset modulo the page size. Debug sections
//! go behind the loaded bytes, with a section header table.
use vstd::prelude::*;

use crate::bytes::{
    le16, le32, le64, le64_reads_back, push_all, push_u16, push_u32, push_u64, push_zeros, rd32,
    rd64, zeros,
};

verus! {

/// The address at which file offset 0 is loaded.
pub const LOAD_BASE: u64 = 0x40_0000;

/// The page size.
pub const PAGE: u64 = 0x1000;

/// The address of the first code byte.
pub const TEXT_VADDR: u64 = 0x40_1000;

pub const EHDR_SIZE: u64 = 64;

pub const PHDR_SIZE: u64 = 56;

pub const SHDR_SIZE: u64 = 64;

pub const SHT_NULL: u32 = 0;

pub const SHT_PROGBITS: u32 = 1;

pub const SHT_STRTAB: u32 = 3;

pub const SHF_ALLOC: u64 = 2;

pub const SHF_ALLOC_EXEC: u64 = 6;

/// The debug sections of an image.
pub struct DebugSections {
    /// `.debug_info`.
    pub info: Vec<u8>,
    /// `.debug_abbrev`.
    pub abbrev: Vec<u8>,
    /// `.debug_line`.
    pub line: Vec<u8>,
    /// `.debug_str`.
    pub str_: Vec<u8>,
}

/// What [`DebugSections`] hold.
pub struct DebugView {
    pub info: Seq<u8>,
    pub abbrev: Seq<u8>,
    pub line: Seq<u8>,
    pub str_: Seq<u8>,
}

impl View for DebugSections {
    type V = DebugView;

    open spec fn view(&self) -> DebugView {
        DebugView { info: self.info@, abbrev: self.abbrev@, line: self.line@, str_: self.str_@ }
    }
}

impl DebugView {
    /// The bytes of all sections together.
    pub open spec fn total(self) -> nat {
        self.info.len() + self.abbrev.len() + self.line.len() + self.str_.len()
    }
}

/// A finished executable.
pub struct ElfImage {
    /// The file.
    pub bytes: Vec<u8>,
    /// The length of the code.
    pub text_len: usize,
    /// The address of the code.
    pub text_vaddr: u64,
    /// The address of the read-only data.
    pub rodata_vaddr: u64,
    /// The address of the writable segment; 0 where there is none.
    pub state_vaddr: u64,
}

/// The most bytes that an image is made from: with the load address and three pages, they
/// are within the address space.
pub const MAX_INPUT: u64 = 0xFFFF_FFFF_FFBF_CFFF;

/// `v` rounded up to a multiple of `align`.
pub open spec fn rounded(v: int, align: int) -> int {
    (v + align - 1) / align * align
}

/// The file offset of the read-only data.
pub open spec fn rodata_off(text_len: int) -> int {
    rounded(PAGE + text_len, PAGE as int)
}

/// The file offset, page for page, of the writable segment.
pub open spec fn state_off(text_len: int, rodata_len: int) -> int {
    rounded(rodata_off(text_len) + rodata_len, PAGE as int)
}

/// The ELF header.
#[verifier::opaque]
pub open spec fn ehdr(
    machine: u16,
    phnum: u16,
    shoff: u64,
    shentsize: u16,
    shnum: u16,
    shstrndx: u16,
) -> Seq<
    u8,
> {
    seq![0x7Fu8, 0x45, 0x4C, 0x46, 2, 1, 1, 0, 0, 0, 0, 0, 0, 0, 0, 0] + le16(2) + le16(machine)
        + le32(1) + le64(TEXT_VADDR) + le64(EHDR_SIZE) + le64(shoff) + le32(0) + le16(64) + le16(56)
        + le16(phnum) + le16(shentsize) + le16(shnum) + le16(shstrndx)
}

/// A loadable program header.
#[verifier::opaque]
pub open spec fn phdr(flags: u32, offset: u64, vaddr: u64, filesz: u64, memsz: u64) -> Seq<u8> {
    le32(1) + le32(flags) + le64(offset) + le64(vaddr) + le64(vaddr) + le64(filesz) + le64(memsz)
        + le64(PAGE)
}

/// A section header.
#[verifier::opaque]
pub open spec fn shdr(
    name: u32,
    typ: u32,
    flags: u64,
    addr: u64,
    offset: u64,
    size: u64,
    align: u64,
) -> Seq<u8> {
    le32(name) + le32(typ) + le64(flags) + le64(addr) + le64(offset) + le64(size) + le32(0) + le32(
        0,
    ) + le64(align) + le64(0)
}

/// The program headers: text, then read-only data and writable state where
/// there is any.
#[verifier::opaque]
pub open spec fn phdrs(text_len: int, rodata_len: int, state_size: u64) -> Seq<u8> {
    phdr(5, 0, LOAD_BASE, (PAGE + text_len) as u64, (PAGE + text_len) as u64) + (if rodata_len > 0 {
        phdr(
            4,
            rodata_off(text_len) as u64,
            (LOAD_BASE + rodata_off(text_len)) as u64,
            rodata_len as u64,
            rodata_len as u64,
        )
    } else {
        Seq::empty()
    }) + (if state_size > 0 {
        phdr(
            6,
            state_off(text_len, rodata_len) as u64,
            (LOAD_BASE + state_off(text_len, rodata_len)) as u64,
            0,
            state_size,
        )
    } else {
        Seq::empty()
    })
}

/// The number of program headers.
pub open spec fn phdr_count(rodata_len: int, state_size: u64) -> u16 {
    (1 + (if rodata_len > 0 {
        1int
    } else {
        0
    }) + (if state_size > 0 {
        1int
    } else {
        0
    })) as u16
}

/// `s` with zeros up to length `n`.
pub open spec fn padded(s: Seq<u8>, n: int) -> Seq<u8> {
    if s.len() < n {
        s + zeros((n - s.len()) as nat)
    } else {
        s
    }
}

/// The file from offset 0 to the end of the loaded bytes, behind the given header.
pub open spec fn loaded(header: Seq<u8>, text: Seq<u8>, rodata: Seq<u8>, state_size: u64) -> Seq<
    u8,
> {
    let code = padded(
        header + phdrs(text.len() as int, rodata.len() as int, state_size),
        PAGE as int,
    )
        + text;
    if rodata.len() > 0 {
        padded(code, rodata_off(text.len() as int)) + rodata
    } else {
        code
    }
}

/// The end of the loaded bytes in the file.
pub open spec fn loaded_end(text_len: int, rodata_len: int) -> int {
    if rodata_len > 0 {
        rodata_off(text_len) + rodata_len
    } else {
        PAGE + text_len
    }
}

/// The section name table.
pub open spec fn section_names() -> Seq<u8> {
    seq![
        0u8,
        // .text
        0x2E, 0x74, 0x65, 0x78, 0x74, 0,
        // .rodata
        0x2E, 0x72, 0x6F, 0x64, 0x61, 0x74, 0x61, 0,
        // .debug_abbrev
        0x2E, 0x64, 0x65, 0x62, 0x75, 0x67, 0x5F, 0x61, 0x62, 0x62, 0x72, 0x65, 0x76, 0,
        // .debug_str
        0x2E, 0x64, 0x65, 0x62, 0x75, 0x67, 0x5F, 0x73, 0x74, 0x72, 0,
        // .debug_line
        0x2E, 0x64, 0x65, 0x62, 0x75, 0x67, 0x5F, 0x6C, 0x69, 0x6E, 0x65, 0,
        // .debug_info
        0x2E, 0x64, 0x65, 0x62, 0x75, 0x67, 0x5F, 0x69, 0x6E, 0x66, 0x6F, 0,
        // .shstrtab
        0x2E, 0x73, 0x68, 0x73, 0x74, 0x72, 0x74, 0x61, 0x62, 0,
    ]
}

pub const NAME_TEXT: u32 = 1;

pub const NAME_RODATA: u32 = 7;

pub const NAME_ABBREV: u32 = 15;

pub const NAME_STR: u32 = 29;

pub const NAME_LINE: u32 = 40;

pub const NAME_INFO: u32 = 52;

pub const NAME_SHSTRTAB: u32 = 64;

pub const NAMES_LEN: u64 = 74;

/// Where the debug sections go in the file.
#[derive(Clone, Copy)]
pub struct SectionLayout {
    pub abbrev_off: u64,
    pub str_off: u64,
    pub line_off: u64,
    pub info_off: u64,
    pub shstrtab_off: u64,
    pub shoff: u64,
    pub shnum: u16,
    pub shstrndx: u16,
}

/// The sections follow the loaded bytes in order, each 8-byte aligned, then the
/// name table and the section header table.
pub open spec fn section_layout(d: DebugView, end: int, has_rodata: bool) -> SectionLayout {
    let abbrev = rounded(end, 8);
    let str_ = rounded(abbrev + d.abbrev.len(), 8);
    let line = rounded(str_ + d.str_.len(), 8);
    let info = rounded(line + d.line.len(), 8);
    let names = rounded(info + d.info.len(), 8);
    SectionLayout {
        abbrev_off: abbrev as u64,
        str_off: str_ as u64,
        line_off: line as u64,
        info_off: info as u64,
        shstrtab_off: names as u64,
        shoff: rounded(names + NAMES_LEN, 8) as u64,
        shnum: if has_rodata {
            8
        } else {
            7
        },
        shstrndx: if has_rodata {
            7
        } else {
            6
        },
    }
}

/// The section contents behind the loaded bytes `s`.
pub open spec fn with_sections(s: Seq<u8>, d: DebugView, l: SectionLayout) -> Seq<u8> {
    let a = padded(s, l.abbrev_off as int) + d.abbrev;
    let b = padded(a, l.str_off as int) + d.str_;
    let c = padded(b, l.line_off as int) + d.line;
    let e = padded(c, l.info_off as int) + d.info;
    let f = padded(e, l.shstrtab_off as int) + section_names();
    padded(f, l.shoff as int)
}

/// The section header table.
pub open spec fn shdrs(text_len: int, rodata_len: int, d: DebugView, l: SectionLayout) -> Seq<u8> {
    shdr(0, SHT_NULL, 0, 0, 0, 16, 0) + shdr(
        NAME_TEXT,
        SHT_PROGBITS,
        SHF_ALLOC_EXEC,
        TEXT_VADDR,
        PAGE,
        text_len as u64,
        16,
    ) + (if rodata_len > 0 {
        shdr(
            NAME_RODATA,
            SHT_PROGBITS,
            SHF_ALLOC,
            (LOAD_BASE + rodata_off(text_len)) as u64,
            rodata_off(text_len) as u64,
            rodata_len as u64,
            16,
        )
    } else {
        Seq::empty()
    }) + shdr(NAME_ABBREV, SHT_PROGBITS, 0, 0, l.abbrev_off, d.abbrev.len() as u64, 1) + shdr(
        NAME_STR,
        SHT_PROGBITS,
        0,
        0,
        l.str_off,
        d.str_.len() as u64,
        1,
    ) + shdr(NAME_LINE, SHT_PROGBITS, 0, 0, l.line_off, d.line.len() as u64, 1) + shdr(
        NAME_INFO,
        SHT_PROGBITS,
        0,
        0,
        l.info_off,
        d.info.len() as u64,
        1,
    ) + shdr(NAME_SHSTRTAB, SHT_STRTAB, 0, 0, l.shstrtab_off, NAMES_LEN, 1)
}

/// The header of an image.
pub open spec fn image_header(
    text_len: int,
    rodata_len: int,
    state_size: u64,
    machine: u16,
    debug: Option<DebugView>,
) -> Seq<u8> {
    let n = phdr_count(rodata_len, state_size);
    match debug {
        None => ehdr(machine, n, 0, 0, 0, 0),
        Some(d) => {
            let l = section_layout(d, loaded_end(text_len, rodata_len), rodata_len > 0);
            ehdr(machine, n, l.shoff, 64, l.shnum, l.shstrndx)
        },
    }
}

/// The file of an image.
pub open spec fn elf_file(
    text: Seq<u8>,
    rodata: Seq<u8>,
    state_size: u64,
    machine: u16,
    debug: Option<DebugView>,
) -> Seq<u8> {
    let t = text.len() as int;
    let r = rodata.len() as int;
    let base = loaded(image_header(t, r, state_size, machine, debug), text, rodata, state_size);
    match debug {
        None => base,
        Some(d) => {
            let l = section_layout(d, loaded_end(t, r), r > 0);
            with_sections(base, d, l) + shdrs(t, r, d, l)
        },
    }
}

/// How many bytes the debug sections have.
pub open spec fn debug_total(debug: Option<DebugView>) -> nat {
    match debug {
        None => 0,
        Some(d) => d.total(),
    }
}

fn round_up(v: u64, align: u64) -> (r: u64)
    requires
        align > 0,
        v + align <= u64::MAX,
    ensures
        r == rounded(v as int, align as int),
        v <= r < v + align,
        r % align == 0,
{
    proof {
        rounded_facts(v as int, align as int);
    }
    (v + (align - 1)) / align * align
}

/// Rounding up gives the least multiple that is not below.
pub proof fn rounded_facts(v: int, align: int)
    requires
        align > 0,
        v >= 0,
    ensures
        v <= rounded(v, align) < v + align,
        rounded(v, align) % align == 0,
        v % align == 0 ==> rounded(v, align) == v,
{
    let q = (v + align - 1) / align;
    vstd::arithmetic::div_mod::lemma_fundamental_div_mod(v + align - 1, align);
    assert(align * q == q * align) by (nonlinear_arith);
    vstd::arithmetic::div_mod::lemma_mod_multiples_basic(q, align);
    if v % align == 0 {
        let k = v / align;
        vstd::arithmetic::div_mod::lemma_fundamental_div_mod(v, align);
        assert(v == k * align) by (nonlinear_arith)
            requires
                v == align * k + 0,
        ;
        assert(rounded(v, align) - v < align && rounded(v, align) - v >= 0);
        assert(rounded(v, align) - v == (q - k) * align) by (nonlinear_arith)
            requires
                v == k * align,
                rounded(v, align) == q * align,
        ;
        assert(q - k == 0) by (nonlinear_arith)
            requires
                0 <= (q - k) * align < align,
                align > 0,
        ;
    }
}

/// The address of the read-only data behind `text_len` bytes of code.
pub fn rodata_vaddr_for(text_len: usize) -> (r: u64)
    requires
        LOAD_BASE + 0x2000 + text_len <= u64::MAX,
    ensures
        r == LOAD_BASE + rodata_off(text_len as int),
        r % PAGE == 0,
        TEXT_VADDR + text_len <= r < TEXT_VADDR + text_len + PAGE,
{
    LOAD_BASE + round_up(PAGE + text_len as u64, PAGE)
}

/// The address of the writable segment behind `text_len` bytes of code and
/// `rodata_len` bytes of read-only data.
pub fn state_vaddr_for(text_len: usize, rodata_len: usize) -> (r: u64)
    requires
        LOAD_BASE + 0x3000 + text_len + rodata_len <= u64::MAX,
    ensures
        r == LOAD_BASE + state_off(text_len as int, rodata_len as int),
        r % PAGE == 0,
        LOAD_BASE + rodata_off(text_len as int) + rodata_len <= r < LOAD_BASE + rodata_off(
            text_len as int,
        ) + rodata_len + PAGE,
{
    let off: u64 = round_up(PAGE + text_len as u64, PAGE);
    LOAD_BASE + round_up(off + rodata_len as u64, PAGE)
}

/// An executable without debug sections.
pub fn write_elf_for(text: &[u8], rodata: &[u8], state_size: u64, e_machine: u16) -> (r: ElfImage)
    requires
        text@.len() + rodata@.len() <= MAX_INPUT,
    ensures
        r.bytes@ == elf_file(text@, rodata@, state_size, e_machine, None),
        r.text_len == text@.len(),
        r.text_vaddr == TEXT_VADDR,
        r.rodata_vaddr == LOAD_BASE + rodata_off(text@.len() as int),
        r.state_vaddr == (if state_size > 0 {
            LOAD_BASE + state_off(text@.len() as int, rodata@.len() as int)
        } else {
            0
        }),
{
    write_elf_with_debug(text, rodata, state_size, e_machine, None)
}

/// What an optional reference to debug sections holds.
pub open spec fn debug_view(debug: Option<&DebugSections>) -> Option<DebugView> {
    match debug {
        Some(d) => Some(d@),
        None => None,
    }
}

impl SectionLayout {
    fn compute(ds: &DebugSections, loaded_end: u64, has_rodata: bool) -> (r: SectionLayout)
        requires
            loaded_end + ds@.total() <= MAX_INPUT + 0x3000,
        ensures
            r == section_layout(ds@, loaded_end as int, has_rodata),
            loaded_end <= r.abbrev_off < loaded_end + 8,
            r.abbrev_off + ds@.abbrev.len() <= r.str_off < r.abbrev_off + ds@.abbrev.len() + 8,
            r.str_off + ds@.str_.len() <= r.line_off < r.str_off + ds@.str_.len() + 8,
            r.line_off + ds@.line.len() <= r.info_off < r.line_off + ds@.line.len() + 8,
            r.info_off + ds@.info.len() <= r.shstrtab_off < r.info_off + ds@.info.len() + 8,
            r.shstrtab_off + NAMES_LEN <= r.shoff < r.shstrtab_off + NAMES_LEN + 8,
    {
        let abbrev_off: u64 = round_up(loaded_end, 8);
        let str_off: u64 = round_up(abbrev_off + ds.abbrev.len() as u64, 8);
        let line_off: u64 = round_up(str_off + ds.str_.len() as u64, 8);
        let info_off: u64 = round_up(line_off + ds.line.len() as u64, 8);
        let shstrtab_off: u64 = round_up(info_off + ds.info.len() as u64, 8);
        let shoff: u64 = round_up(shstrtab_off + NAMES_LEN, 8);
        let shnum: u16 = if has_rodata {
            8
        } else {
            7
        };
        SectionLayout {
            abbrev_off,
            str_off,
            line_off,
            info_off,
            shstrtab_off,
            shoff,
            shnum,
            shstrndx: shnum - 1,
        }
    }
}

fn push_ehdr(
    out: &mut Vec<u8>,
    machine: u16,
    phnum: u16,
    shoff: u64,
    shentsize: u16,
    shnum: u16,
    shstrndx: u16,
)
    ensures
        final(out)@ == old(out)@ + ehdr(machine, phnum, shoff, shentsize, shnum, shstrndx),
{
    out.push(0x7F);
    out.push(0x45);
    out.push(0x4C);
    out.push(0x46);
    out.push(2);
    out.push(1);
    out.push(1);
    push_zeros(out, 9);
    push_u16(out, 2);
    push_u16(out, machine);
    push_u32(out, 1);
    push_u64(out, TEXT_VADDR);
    push_u64(out, EHDR_SIZE);
    push_u64(out, shoff);
    push_u32(out, 0);
    push_u16(out, 64);
    push_u16(out, 56);
    push_u16(out, phnum);
    push_u16(out, shentsize);
    push_u16(out, shnum);
    push_u16(out, shstrndx);
    reveal(ehdr);
    assert(out@ =~= old(out)@ + ehdr(machine, phnum, shoff, shentsize, shnum, shstrndx));
}

fn push_phdr(out: &mut Vec<u8>, flags: u32, offset: u64, vaddr: u64, filesz: u64, memsz: u64)
    ensures
        final(out)@ == old(out)@ + phdr(flags, offset, vaddr, filesz, memsz),
{
    push_u32(out, 1);
    push_u32(out, flags);
    push_u64(out, offset);
    push_u64(out, vaddr);
    push_u64(out, vaddr);
    push_u64(out, filesz);
    push_u64(out, memsz);
    push_u64(out, PAGE);
    reveal(phdr);
    assert(out@ =~= old(out)@ + phdr(flags, offset, vaddr, filesz, memsz));
}

fn push_shdr(
    out: &mut Vec<u8>,
    name: u32,
    typ: u32,
    flags: u64,
    addr: u64,
    offset: u64,
    size: u64,
    align: u64,
)
    ensures
        final(out)@ == old(out)@ + shdr(name, typ, flags, addr, offset, size, align),
{
    push_u32(out, name);
    push_u32(out, typ);
    push_u64(out, flags);
    push_u64(out, addr);
    push_u64(out, offset);
    push_u64(out, size);
    push_u32(out, 0);
    push_u32(out, 0);
    push_u64(out, align);
    push_u64(out, 0);
    reveal(shdr);
    assert(out@ =~= old(out)@ + shdr(name, typ, flags, addr, offset, size, align));
}

fn pad_to(out: &mut Vec<u8>, to: u64)
    requires
        to <= old(out)@.len() + 0x1000,
    ensures
        final(out)@ == padded(old(out)@, to as int),
{
    let len: u64 = out.len() as u64;
    if len < to {
        push_zeros(out, (to - len) as usize);
    }
}

fn push4(out: &mut Vec<u8>, a: u8, b: u8, c: u8, d: u8)
    ensures
        final(out)@ == old(out)@ + seq![a, b, c, d],
{
    out.push(a);
    out.push(b);
    out.push(c);
    out.push(d);
    assert(out@ =~= old(out)@ + seq![a, b, c, d]);
}

fn push_section_names(out: &mut Vec<u8>)
    ensures
        final(out)@ == old(out)@ + section_names(),
{
    let mut names: Vec<u8> = Vec::new();
    push4(&mut names, 0, 0x2E, 0x74, 0x65);
    push4(&mut names, 0x78, 0x74, 0, 0x2E);
    push4(&mut names, 0x72, 0x6F, 0x64, 0x61);
    push4(&mut names, 0x74, 0x61, 0, 0x2E);
    push4(&mut names, 0x64, 0x65, 0x62, 0x75);
    push4(&mut names, 0x67, 0x5F, 0x61, 0x62);
    push4(&mut names, 0x62, 0x72, 0x65, 0x76);
    push4(&mut names, 0, 0x2E, 0x64, 0x65);
    push4(&mut names, 0x62, 0x75, 0x67, 0x5F);
    push4(&mut names, 0x73, 0x74, 0x72, 0);
    push4(&mut names, 0x2E, 0x64, 0x65, 0x62);
    push4(&mut names, 0x75, 0x67, 0x5F, 0x6C);
    push4(&mut names, 0x69, 0x6E, 0x65, 0);
    push4(&mut names, 0x2E, 0x64, 0x65, 0x62);
    push4(&mut names, 0x75, 0x67, 0x5F, 0x69);
    push4(&mut names, 0x6E, 0x66, 0x6F, 0);
    push4(&mut names, 0x2E, 0x73, 0x68, 0x73);
    push4(&mut names, 0x74, 0x72, 0x74, 0x61);
    names.push(0x62);
    names.push(0);
    assert(names@ =~= section_names());
    push_all(out, names.as_slice());
}

fn push_phdrs(out: &mut Vec<u8>, text_len: u64, rodata_len: u64, state_size: u64)
    requires
        text_len + rodata_len <= MAX_INPUT,
    ensures
        final(out)@ == old(out)@ + phdrs(text_len as int, rodata_len as int, state_size),
{
    let rodata_at: u64 = round_up(PAGE + text_len, PAGE);
    let state_at: u64 = round_up(rodata_at + rodata_len, PAGE);
    push_phdr(out, 5, 0, LOAD_BASE, PAGE + text_len, PAGE + text_len);
    if rodata_len > 0 {
        push_phdr(out, 4, rodata_at, LOAD_BASE + rodata_at, rodata_len, rodata_len);
    }
    if state_size > 0 {
        push_phdr(out, 6, state_at, LOAD_BASE + state_at, 0, state_size);
    }
    reveal(phdrs);
    assert(out@ =~= old(out)@ + phdrs(text_len as int, rodata_len as int, state_size));
}

fn push_sections(out: &mut Vec<u8>, ds: &DebugSections, l: SectionLayout)
    requires
        l.abbrev_off <= old(out)@.len() + 8,
        old(out)@.len() <= l.abbrev_off,
        l.abbrev_off + ds@.abbrev.len() <= l.str_off < l.abbrev_off + ds@.abbrev.len() + 8,
        l.str_off + ds@.str_.len() <= l.line_off < l.str_off + ds@.str_.len() + 8,
        l.line_off + ds@.line.len() <= l.info_off < l.line_off + ds@.line.len() + 8,
        l.info_off + ds@.info.len() <= l.shstrtab_off < l.info_off + ds@.info.len() + 8,
        l.shstrtab_off + NAMES_LEN <= l.shoff < l.shstrtab_off + NAMES_LEN + 8,
    ensures
        final(out)@ == with_sections(old(out)@, ds@, l),
{
    pad_to(out, l.abbrev_off);
    push_all(out, ds.abbrev.as_slice());
    pad_to(out, l.str_off);
    push_all(out, ds.str_.as_slice());
    pad_to(out, l.line_off);
    push_all(out, ds.line.as_slice());
    pad_to(out, l.info_off);
    push_all(out, ds.info.as_slice());
    pad_to(out, l.shstrtab_off);
    push_section_names(out);
    pad_to(out, l.shoff);
}

fn push_shdrs(
    out: &mut Vec<u8>,
    text_len: u64,
    rodata_len: u64,
    ds: &DebugSections,
    l: SectionLayout,
)
    requires
        text_len + rodata_len <= MAX_INPUT,
    ensures
        final(out)@ == old(out)@ + shdrs(text_len as int, rodata_len as int, ds@, l),
{
    let ghost start = out@;
    push_shdr(out, 0, SHT_NULL, 0, 0, 0, 16, 0);
    push_shdr(out, NAME_TEXT, SHT_PROGBITS, SHF_ALLOC_EXEC, TEXT_VADDR, PAGE, text_len, 16);
    if rodata_len > 0 {
        let at: u64 = round_up(PAGE + text_len, PAGE);
        push_shdr(out, NAME_RODATA, SHT_PROGBITS, SHF_ALLOC, LOAD_BASE + at, at, rodata_len, 16);
    }
    let ghost mid = out@;
    push_shdr(out, NAME_ABBREV, SHT_PROGBITS, 0, 0, l.abbrev_off, ds.abbrev.len() as u64, 1);
    push_shdr(out, NAME_STR, SHT_PROGBITS, 0, 0, l.str_off, ds.str_.len() as u64, 1);
    push_shdr(out, NAME_LINE, SHT_PROGBITS, 0, 0, l.line_off, ds.line.len() as u64, 1);
    push_shdr(out, NAME_INFO, SHT_PROGBITS, 0, 0, l.info_off, ds.info.len() as u64, 1);
    push_shdr(out, NAME_SHSTRTAB, SHT_STRTAB, 0, 0, l.shstrtab_off, NAMES_LEN, 1);
    assert(out@ =~= start + shdrs(text_len as int, rodata_len as int, ds@, l));
}

/// An executable, with debug sections where there are any.
pub fn write_elf_with_debug(
    text: &[u8],
    rodata: &[u8],
    state_size: u64,
    e_machine: u16,
    debug: Option<&DebugSections>,
) -> (r: ElfImage)
    requires
        text@.len() + rodata@.len() + debug_total(debug_view(debug)) <= MAX_INPUT,
    ensures
        r.bytes@ == elf_file(text@, rodata@, state_size, e_machine, debug_view(debug)),
        r.text_len == text@.len(),
        r.text_vaddr == TEXT_VADDR,
        r.rodata_vaddr == LOAD_BASE + rodata_off(text@.len() as int),
        r.state_vaddr == (if state_size > 0 {
            LOAD_BASE + state_off(text@.len() as int, rodata@.len() as int)
        } else {
            0
        }),
{
    let text_len: u64 = text.len() as u64;
    let rodata_len: u64 = rodata.len() as u64;
    let has_rodata = rodata_len > 0;
    let phnum: u16 = 1 + (if has_rodata {
        1u16
    } else {
        0
    }) + (if state_size > 0 {
        1u16
    } else {
        0
    });
    let rodata_at: u64 = round_up(PAGE + text_len, PAGE);
    let state_at: u64 = round_up(rodata_at + rodata_len, PAGE);
    let end: u64 = if has_rodata {
        rodata_at + rodata_len
    } else {
        PAGE + text_len
    };
    let mut bytes: Vec<u8> = Vec::new();
    let ghost header = image_header(
        text@.len() as int,
        rodata@.len() as int,
        state_size,
        e_machine,
        debug_view(debug),
    );
    match debug {
        Some(ds) => {
            let l = SectionLayout::compute(ds, end, has_rodata);
            push_ehdr(&mut bytes, e_machine, phnum, l.shoff, 64, l.shnum, l.shstrndx);
        },
        None => {
            push_ehdr(&mut bytes, e_machine, phnum, 0, 0, 0, 0);
        },
    }
    assert(bytes@ =~= header);
    push_phdrs(&mut bytes, text_len, rodata_len, state_size);
    proof {
        header_lengths(text_len as int, rodata_len as int, state_size);
    }
    pad_to(&mut bytes, PAGE);
    push_all(&mut bytes, text);
    if has_rodata {
        pad_to(&mut bytes, rodata_at);
        push_all(&mut bytes, rodata);
    }
    let ghost base = loaded(header, text@, rodata@, state_size);
    assert(bytes@ == base);
    match debug {
        Some(ds) => {
            let l = SectionLayout::compute(ds, end, has_rodata);
            push_sections(&mut bytes, ds, l);
            push_shdrs(&mut bytes, text_len, rodata_len, ds, l);
        },
        None => {},
    }
    ElfImage {
        bytes,
        text_len: text.len(),
        text_vaddr: TEXT_VADDR,
        rodata_vaddr: LOAD_BASE + rodata_at,
        state_vaddr: if state_size > 0 {
            LOAD_BASE + state_at
        } else {
            0
        },
    }
}

proof fn ehdr_length(m: u16, p: u16, o: u64, e: u16, n: u16, x: u16)
    ensures
        ehdr(m, p, o, e, n, x).len() == 64,
{
    reveal(ehdr);
}

proof fn phdr_length(flags: u32, offset: u64, vaddr: u64, filesz: u64, memsz: u64)
    ensures
        phdr(flags, offset, vaddr, filesz, memsz).len() == 56,
{
    reveal(phdr);
}

proof fn header_lengths(text_len: int, rodata_len: int, state_size: u64)
    ensures
        56 <= phdrs(text_len, rodata_len, state_size).len() <= 168,
        forall|m: u16, p: u16, o: u64, e: u16, n: u16, x: u16| #[trigger]
            ehdr(m, p, o, e, n, x).len() == 64,
{
    assert forall|m: u16, p: u16, o: u64, e: u16, n: u16, x: u16| #[trigger]
        ehdr(m, p, o, e, n, x).len() == 64 by {
        ehdr_length(m, p, o, e, n, x);
    }
    assert forall|f: u32, o: u64, v: u64, z: u64, m: u64| #[trigger]
        phdr(f, o, v, z, m).len() == 56 by {
        phdr_length(f, o, v, z, m);
    }
    reveal(phdrs);
}

// ---------------------------------------------------------------------------
//  Laws
// ---------------------------------------------------------------------------

/// Every segment is loaded at an address congruent to its file offset modulo
/// the page size, and the segments do not overlap in memory.
pub proof fn segments_page_congruent(text_len: int, rodata_len: int)
    requires
        0 <= text_len,
        0 <= rodata_len,
    ensures
        rodata_off(text_len) % (PAGE as int) == 0,
        state_off(text_len, rodata_len) % (PAGE as int) == 0,
        (LOAD_BASE + rodata_off(text_len)) % (PAGE as int) == rodata_off(text_len) % (PAGE as int),
        (LOAD_BASE + state_off(text_len, rodata_len)) % (PAGE as int) == state_off(
            text_len,
            rodata_len,
        ) % (PAGE as int),
        PAGE + text_len <= rodata_off(text_len) < PAGE + text_len + PAGE,
        rodata_off(text_len) + rodata_len <= state_off(text_len, rodata_len),
{
    rounded_facts(PAGE + text_len, PAGE as int);
    rounded_facts(rodata_off(text_len) + rodata_len, PAGE as int);
}

proof fn loaded_facts(
    text: Seq<u8>,
    rodata: Seq<u8>,
    state_size: u64,
    machine: u16,
    debug: Option<DebugView>,
)
    requires
        text.len() + rodata.len() + debug_total(debug) <= MAX_INPUT,
    ensures
        ({
            let t = text.len() as int;
            let r = rodata.len() as int;
            let f = elf_file(text, rodata, state_size, machine, debug);
            let h = image_header(t, r, state_size, machine, debug);
            let base = loaded(h, text, rodata, state_size);
            &&& h.len() == 64
            &&& base.len() == loaded_end(t, r)
            &&& base.len() <= f.len()
            &&& forall|i: int| 0 <= i < base.len() ==> #[trigger] f[i] == base[i]
        }),
{
    let t = text.len() as int;
    let r = rodata.len() as int;
    header_lengths(t, r, state_size);
    segments_page_congruent(t, r);
    let h = image_header(t, r, state_size, machine, debug);
    let base = loaded(h, text, rodata, state_size);
    match debug {
        None => {},
        Some(d) => {
            let l = section_layout(d, loaded_end(t, r), r > 0);
            let w = with_sections(base, d, l);
            with_sections_extends(base, d, l);
            assert forall|i: int| 0 <= i < base.len() implies #[trigger] elf_file(
                text,
                rodata,
                state_size,
                machine,
                debug,
            )[i] == base[i] by {
                assert((w + shdrs(t, r, d, l))[i] == w[i]);
            }
        },
    }
}

proof fn padded_extends(s: Seq<u8>, n: int, more: Seq<u8>)
    ensures
        s.len() <= (padded(s, n) + more).len(),
        forall|i: int| 0 <= i < s.len() ==> #[trigger] (padded(s, n) + more)[i] == s[i],
{
}

proof fn with_sections_extends(s: Seq<u8>, d: DebugView, l: SectionLayout)
    ensures
        s.len() <= with_sections(s, d, l).len(),
        forall|i: int| 0 <= i < s.len() ==> #[trigger] with_sections(s, d, l)[i] == s[i],
{
    let a = padded(s, l.abbrev_off as int) + d.abbrev;
    let b = padded(a, l.str_off as int) + d.str_;
    let c = padded(b, l.line_off as int) + d.line;
    let e = padded(c, l.info_off as int) + d.info;
    let f = padded(e, l.shstrtab_off as int) + section_names();
    padded_extends(s, l.abbrev_off as int, d.abbrev);
    padded_extends(a, l.str_off as int, d.str_);
    padded_extends(b, l.line_off as int, d.line);
    padded_extends(c, l.info_off as int, d.info);
    padded_extends(e, l.shstrtab_off as int, section_names());
    assert forall|i: int| 0 <= i < s.len() implies #[trigger] with_sections(s, d, l)[i] == s[i] by {
        assert(a[i] == s[i] && b[i] == a[i] && c[i] == b[i] && e[i] == c[i] && f[i] == e[i]);
    }
}

/// The code stands at the page behind the headers and the read-only data at the
/// offset its address was computed from, whether or not there are debug
/// sections.
pub proof fn image_holds_code_and_data(
    text: Seq<u8>,
    rodata: Seq<u8>,
    state_size: u64,
    machine: u16,
    debug: Option<DebugView>,
)
    requires
        text.len() + rodata.len() + debug_total(debug) <= MAX_INPUT,
    ensures
        ({
            let f = elf_file(text, rodata, state_size, machine, debug);
            let at = rodata_off(text.len() as int);
            &&& f.len() >= PAGE + text.len()
            &&& f.subrange(PAGE as int, PAGE + text.len()) == text
            &&& rodata.len() > 0 ==> f.len() >= at + rodata.len() && f.subrange(
                at,
                at + rodata.len(),
            ) == rodata
        }),
{
    let t = text.len() as int;
    let r = rodata.len() as int;
    loaded_facts(text, rodata, state_size, machine, debug);
    header_lengths(t, r, state_size);
    segments_page_congruent(t, r);
    let f = elf_file(text, rodata, state_size, machine, debug);
    let h = image_header(t, r, state_size, machine, debug);
    let base = loaded(h, text, rodata, state_size);
    let head = padded(h + phdrs(t, r, state_size), PAGE as int);
    assert(head.len() == PAGE);
    let code = head + text;
    assert forall|i: int| 0 <= i < t implies f[PAGE + i] == text[i] by {
        assert(code[PAGE + i] == text[i]);
        assert(base[PAGE + i] == code[PAGE + i]);
    }
    assert(f.subrange(PAGE as int, PAGE + t) =~= text);
    if r > 0 {
        let at = rodata_off(t);
        assert(padded(code, at).len() == at);
        assert forall|i: int| 0 <= i < r implies f[at + i] == rodata[i] by {
            assert(base[at + i] == rodata[i]);
        }
        assert(f.subrange(at, at + r) =~= rodata);
    }
}

/// Debug sections change nothing in the loaded part of the file but the header
/// fields that locate the section header table.
pub proof fn debug_leaves_loaded_bytes(
    text: Seq<u8>,
    rodata: Seq<u8>,
    state_size: u64,
    machine: u16,
    d: DebugView,
    i: int,
)
    requires
        text.len() + rodata.len() + d.total() <= MAX_INPUT,
        0 <= i < loaded_end(text.len() as int, rodata.len() as int),
        !(40 <= i < 48),
        !(58 <= i < 64),
    ensures
        elf_file(text, rodata, state_size, machine, Some(d))[i] == elf_file(
            text,
            rodata,
            state_size,
            machine,
            None,
        )[i],
{
    let t = text.len() as int;
    let r = rodata.len() as int;
    loaded_facts(text, rodata, state_size, machine, Some(d));
    loaded_facts(text, rodata, state_size, machine, None);
    header_lengths(t, r, state_size);
    segments_page_congruent(t, r);
    let h1 = image_header(t, r, state_size, machine, Some(d));
    let h2 = image_header(t, r, state_size, machine, None);
    let p = phdrs(t, r, state_size);
    if i < 64 {
        let l = section_layout(d, loaded_end(t, r), r > 0);
        let n = phdr_count(r, state_size);
        ehdr_same(machine, n, l.shoff, 64, l.shnum, l.shstrndx, 0, 0, 0, 0, i);
        assert(h1[i] == h2[i]);
    }
    let c1 = padded(h1 + p, PAGE as int) + text;
    let c2 = padded(h2 + p, PAGE as int) + text;
    if i < PAGE + t {
        assert(c1[i] == c2[i]);
    }
    assert(loaded(h1, text, rodata, state_size)[i] == loaded(h2, text, rodata, state_size)[i]);
}

proof fn header_in_file(
    text: Seq<u8>,
    rodata: Seq<u8>,
    state_size: u64,
    machine: u16,
    debug: Option<DebugView>,
)
    requires
        text.len() + rodata.len() + debug_total(debug) <= MAX_INPUT,
    ensures
        ({
            let f = elf_file(text, rodata, state_size, machine, debug);
            let h = image_header(
                text.len() as int,
                rodata.len() as int,
                state_size,
                machine,
                debug,
            );
            &&& h.len() == 64 <= f.len()
            &&& forall|i: int| 0 <= i < 64 ==> #[trigger] f[i] == h[i]
        }),
{
    let t = text.len() as int;
    let r = rodata.len() as int;
    loaded_facts(text, rodata, state_size, machine, debug);
    header_lengths(t, r, state_size);
    segments_page_congruent(t, r);
    let f = elf_file(text, rodata, state_size, machine, debug);
    let h = image_header(t, r, state_size, machine, debug);
    let base = loaded(h, text, rodata, state_size);
    let head = padded(h + phdrs(t, r, state_size), PAGE as int);
    assert forall|i: int| 0 <= i < 64 implies #[trigger] f[i] == h[i] by {
        assert(head[i] == h[i]);
        assert((head + text)[i] == head[i]);
        assert(base[i] == head[i]);
    }
}

/// A file names its machine and its entry, with or without debug sections.
pub proof fn file_names_machine_and_entry(
    text: Seq<u8>,
    rodata: Seq<u8>,
    state_size: u64,
    machine: u16,
    debug: Option<DebugView>,
)
    requires
        text.len() + rodata.len() + debug_total(debug) <= MAX_INPUT,
    ensures
        ({
            let f = elf_file(text, rodata, state_size, machine, debug);
            &&& f.len() >= 64
            &&& f.subrange(18, 20) == le16(machine)
            &&& rd64(f, 24) == TEXT_VADDR
        }),
{
    let t = text.len() as int;
    let r = rodata.len() as int;
    header_in_file(text, rodata, state_size, machine, debug);
    let f = elf_file(text, rodata, state_size, machine, debug);
    let n = phdr_count(r, state_size);
    let (o, e, k, x): (u64, u16, u16, u16) = match debug {
        None => (0, 0, 0, 0),
        Some(d) => {
            let l = section_layout(d, loaded_end(t, r), r > 0);
            (l.shoff, 64, l.shnum, l.shstrndx)
        },
    };
    let h = ehdr(machine, n, o, e, k, x);
    assert(h == image_header(t, r, state_size, machine, debug));
    entry_is_text(machine, n, o, e, k, x);
    machine_in_header(machine, n, o, e, k, x);
    assert(f.subrange(18, 20) =~= h.subrange(18, 20));
    assert(rd32(f, 24) == rd32(h, 24));
    assert(rd32(f, 28) == rd32(h, 28));
}

proof fn machine_in_header(machine: u16, n: u16, o: u64, e: u16, k: u16, x: u16)
    ensures
        ehdr(machine, n, o, e, k, x).len() == 64,
        ehdr(machine, n, o, e, k, x).subrange(18, 20) == le16(machine),
{
    reveal(ehdr);
    let a = seq![0x7Fu8, 0x45, 0x4C, 0x46, 2, 1, 1, 0, 0, 0, 0, 0, 0, 0, 0, 0] + le16(2);
    let rest = le32(1) + le64(TEXT_VADDR) + le64(EHDR_SIZE) + le64(o) + le32(0) + le16(64) + le16(
        56,
    ) + le16(n) + le16(e) + le16(k) + le16(x);
    assert(a.len() == 18 && rest.len() == 44);
    assert(ehdr(machine, n, o, e, k, x) =~= a + le16(machine) + rest);
    assert(ehdr(machine, n, o, e, k, x).subrange(18, 20) =~= le16(machine));
}

/// A file without debug sections ends with its read-only data, or its code where there is
/// none; the writable state takes no byte of it. Its section header fields are zero.
pub proof fn plain_file_ends_with_data(
    text: Seq<u8>,
    rodata: Seq<u8>,
    state_size: u64,
    machine: u16,
)
    requires
        text.len() + rodata.len() <= MAX_INPUT,
    ensures
        ({
            let f = elf_file(text, rodata, state_size, machine, None);
            &&& f.len() == (if rodata.len() == 0 {
                PAGE + text.len()
            } else {
                rodata_off(text.len() as int) + rodata.len()
            })
            &&& forall|i: int| 40 <= i < 48 || 58 <= i < 64 ==> #[trigger] f[i] == 0
        }),
{
    let t = text.len() as int;
    let r = rodata.len() as int;
    loaded_facts(text, rodata, state_size, machine, None);
    header_in_file(text, rodata, state_size, machine, None);
    let n = phdr_count(r, state_size);
    reveal(ehdr);
    let a = seq![0x7Fu8, 0x45, 0x4C, 0x46, 2, 1, 1, 0, 0, 0, 0, 0, 0, 0, 0, 0] + le16(2) + le16(
        machine,
    ) + le32(1) + le64(TEXT_VADDR) + le64(EHDR_SIZE);
    let c = le32(0) + le16(64) + le16(56) + le16(n);
    let z = le16(0) + le16(0) + le16(0);
    assert(a.len() == 40 && c.len() == 10 && z.len() == 6);
    assert(ehdr(machine, n, 0, 0, 0, 0) =~= a + le64(0) + c + z);
}

/// Debug sections make a file longer, and change no byte of the file without them but the
/// header fields that locate the section header table.
pub proof fn debug_only_adds(
    text: Seq<u8>,
    rodata: Seq<u8>,
    state_size: u64,
    machine: u16,
    d: DebugView,
)
    requires
        text.len() + rodata.len() + d.total() <= MAX_INPUT,
    ensures
        ({
            let a = elf_file(text, rodata, state_size, machine, None);
            let b = elf_file(text, rodata, state_size, machine, Some(d));
            &&& b.len() > a.len()
            &&& forall|i: int|
                0 <= i < a.len() && !(40 <= i < 48) && !(58 <= i < 64) ==> #[trigger] b[i] == a[i]
        }),
{
    let t = text.len() as int;
    let r = rodata.len() as int;
    let a = elf_file(text, rodata, state_size, machine, None);
    let b = elf_file(text, rodata, state_size, machine, Some(d));
    plain_file_ends_with_data(text, rodata, state_size, machine);
    loaded_facts(text, rodata, state_size, machine, Some(d));
    segments_page_congruent(t, r);
    let l = section_layout(d, loaded_end(t, r), r > 0);
    let h = image_header(t, r, state_size, machine, Some(d));
    let base = loaded(h, text, rodata, state_size);
    with_sections_extends(base, d, l);
    assert(shdrs(t, r, d, l).len() > 0) by {
        reveal(shdr);
    }
    assert forall|i: int|
        0 <= i < a.len() && !(40 <= i < 48) && !(58 <= i < 64) implies #[trigger] b[i] == a[i] by {
        debug_leaves_loaded_bytes(text, rodata, state_size, machine, d, i);
    }
}

proof fn ehdr_same(
    machine: u16,
    n: u16,
    o1: u64,
    e1: u16,
    n1: u16,
    x1: u16,
    o2: u64,
    e2: u16,
    n2: u16,
    x2: u16,
    i: int,
)
    requires
        0 <= i < 58,
        !(40 <= i < 48),
    ensures
        ehdr(machine, n, o1, e1, n1, x1)[i] == ehdr(machine, n, o2, e2, n2, x2)[i],
{
    reveal(ehdr);
    let a = seq![0x7Fu8, 0x45, 0x4C, 0x46, 2, 1, 1, 0, 0, 0, 0, 0, 0, 0, 0, 0] + le16(2) + le16(
        machine,
    ) + le32(1) + le64(TEXT_VADDR) + le64(EHDR_SIZE);
    let c = le32(0) + le16(64) + le16(56) + le16(n);
    let t1 = le16(e1) + le16(n1) + le16(x1);
    let t2 = le16(e2) + le16(n2) + le16(x2);
    assert(a.len() == 40 && c.len() == 10);
    assert(ehdr(machine, n, o1, e1, n1, x1) =~= a + le64(o1) + c + t1);
    assert(ehdr(machine, n, o2, e2, n2, x2) =~= a + le64(o2) + c + t2);
}

/// The entry point in the file header is the address of the first code byte.
pub proof fn entry_is_text(machine: u16, phnum: u16, shoff: u64, e: u16, n: u16, x: u16)
    ensures
        rd64(ehdr(machine, phnum, shoff, e, n, x), 24) == TEXT_VADDR,
{
    let h = ehdr(machine, phnum, shoff, e, n, x);
    reveal(ehdr);
    let a = seq![0x7Fu8, 0x45, 0x4C, 0x46, 2, 1, 1, 0, 0, 0, 0, 0, 0, 0, 0, 0] + le16(2) + le16(
        machine,
    ) + le32(1);
    let rest = le64(EHDR_SIZE) + le64(shoff) + le32(0) + le16(64) + le16(56) + le16(phnum) + le16(e)
        + le16(n) + le16(x);
    assert(a.len() == 24);
    assert(h =~= a + le64(TEXT_VADDR) + rest);
    le64_reads_back(TEXT_VADDR);
    assert(rd32(h, 24) == rd32(le64(TEXT_VADDR), 0));
    assert(rd32(h, 28) == rd32(le64(TEXT_VADDR), 4));
}

/// The debug sections stand where the section headers say, behind the loaded
/// bytes and apart from each other.
pub proof fn sections_stand_at_offsets(s: Seq<u8>, d: DebugView, has_rodata: bool)
    requires
        s.len() + d.total() <= MAX_INPUT + 0x3000,
    ensures
        ({
            let l = section_layout(d, s.len() as int, has_rodata);
            let w = with_sections(s, d, l);
            &&& w.len() == l.shoff
            &&& w.subrange(l.abbrev_off as int, l.abbrev_off + d.abbrev.len()) == d.abbrev
            &&& w.subrange(l.str_off as int, l.str_off + d.str_.len()) == d.str_
            &&& w.subrange(l.line_off as int, l.line_off + d.line.len()) == d.line
            &&& w.subrange(l.info_off as int, l.info_off + d.info.len()) == d.info
            &&& w.subrange(l.shstrtab_off as int, l.shstrtab_off + NAMES_LEN) == section_names()
        }),
{
    let l = section_layout(d, s.len() as int, has_rodata);
    let a = padded(s, l.abbrev_off as int) + d.abbrev;
    let b = padded(a, l.str_off as int) + d.str_;
    let c = padded(b, l.line_off as int) + d.line;
    let e = padded(c, l.info_off as int) + d.info;
    let f = padded(e, l.shstrtab_off as int) + section_names();
    let w = with_sections(s, d, l);
    rounded_facts(s.len() as int, 8);
    rounded_facts(l.abbrev_off + d.abbrev.len(), 8);
    rounded_facts(l.str_off + d.str_.len(), 8);
    rounded_facts(l.line_off + d.line.len(), 8);
    rounded_facts(l.info_off + d.info.len(), 8);
    rounded_facts(l.shstrtab_off + NAMES_LEN, 8);
    names_length();
    assert(a.len() == l.abbrev_off + d.abbrev.len());
    assert(b.len() == l.str_off + d.str_.len());
    assert(c.len() == l.line_off + d.line.len());
    assert(e.len() == l.info_off + d.info.len());
    assert(f.len() == l.shstrtab_off + NAMES_LEN);
    padded_extends(a, l.str_off as int, d.str_);
    padded_extends(b, l.line_off as int, d.line);
    padded_extends(c, l.info_off as int, d.info);
    padded_extends(e, l.shstrtab_off as int, section_names());
    assert forall|i: int| 0 <= i < f.len() implies w[i] == f[i] by {}
    part_stays(padded(s, l.abbrev_off as int), d.abbrev, a, b);
    part_stays(padded(s, l.abbrev_off as int), d.abbrev, b, c);
    part_stays(padded(s, l.abbrev_off as int), d.abbrev, c, e);
    part_stays(padded(s, l.abbrev_off as int), d.abbrev, e, f);
    part_stays(padded(s, l.abbrev_off as int), d.abbrev, f, w);
    part_stays(padded(a, l.str_off as int), d.str_, b, c);
    part_stays(padded(a, l.str_off as int), d.str_, c, e);
    part_stays(padded(a, l.str_off as int), d.str_, e, f);
    part_stays(padded(a, l.str_off as int), d.str_, f, w);
    part_stays(padded(b, l.line_off as int), d.line, c, e);
    part_stays(padded(b, l.line_off as int), d.line, e, f);
    part_stays(padded(b, l.line_off as int), d.line, f, w);
    part_stays(padded(c, l.info_off as int), d.info, e, f);
    part_stays(padded(c, l.info_off as int), d.info, f, w);
    part_stays(padded(e, l.shstrtab_off as int), section_names(), f, w);
}

/// A part that stands behind `head` in `x` stands there in every extension `y`.
proof fn part_stays(head: Seq<u8>, part: Seq<u8>, x: Seq<u8>, y: Seq<u8>)
    requires
        head.len() + part.len() <= x.len() <= y.len(),
        x == head + part || x.subrange(head.len() as int, (head.len() + part.len()) as int) == part,
        forall|i: int| 0 <= i < x.len() ==> #[trigger] y[i] == x[i],
    ensures
        y.subrange(head.len() as int, (head.len() + part.len()) as int) == part,
{
    let n = head.len() as int;
    let e = (head.len() + part.len()) as int;
    assert(x.subrange(n, e) =~= part);
    assert(y.subrange(n, e) =~= x.subrange(n, e));
}

proof fn names_length()
    ensures
        section_names().len() == NAMES_LEN,
{
}

} // verus!
