//! DWARF v5 debug sections: one compile unit, one subprogram entry per
//! function, and the line program that maps addresses to source lines.
use vstd::prelude::*;
use vstd::utf8::encode_utf8;

use crate::bytes::{
    le16, le32, le64, le64_reads_back, push_all, push_u16, push_u32, push_u64, rd32, rd64,
};
use crate::elf::{DebugSections, DebugView};
use crate::intern::{Interner, Pool, lookup, offsets_are_apart};

verus! {

pub const DW_TAG_COMPILE_UNIT: u8 = 0x11;

pub const DW_TAG_SUBPROGRAM: u8 = 0x2e;

pub const DW_AT_NAME: u8 = 0x03;

pub const DW_AT_STMT_LIST: u8 = 0x10;

pub const DW_AT_LOW_PC: u8 = 0x11;

pub const DW_AT_HIGH_PC: u8 = 0x12;

pub const DW_AT_LANGUAGE: u8 = 0x13;

pub const DW_AT_COMP_DIR: u8 = 0x1b;

pub const DW_AT_PRODUCER: u8 = 0x25;

pub const DW_AT_DECL_FILE: u8 = 0x3a;

pub const DW_AT_DECL_LINE: u8 = 0x3b;

pub const DW_FORM_ADDR: u8 = 0x01;

pub const DW_FORM_DATA2: u8 = 0x05;

pub const DW_FORM_DATA8: u8 = 0x07;

pub const DW_FORM_STRING: u8 = 0x08;

pub const DW_FORM_STRP: u8 = 0x0e;

pub const DW_FORM_UDATA: u8 = 0x0f;

pub const DW_FORM_SEC_OFFSET: u8 = 0x17;

pub const DW_UT_COMPILE: u8 = 0x01;

pub const DW_LANG_C: u16 = 0x0002;

pub const DW_LNS_COPY: u8 = 0x01;

pub const DW_LNS_ADVANCE_PC: u8 = 0x02;

pub const DW_LNS_ADVANCE_LINE: u8 = 0x03;

pub const DW_LNS_SET_FILE: u8 = 0x04;

pub const DW_LNE_END_SEQUENCE: u8 = 0x01;

pub const DW_LNE_SET_ADDRESS: u8 = 0x02;

pub const DW_LNCT_PATH: u8 = 0x1;

pub const DW_LNCT_DIRECTORY_INDEX: u8 = 0x2;

/// The smallest line advance of a special opcode, as a byte.
pub const LINE_BASE_BYTE: u8 = 0xFB;

/// The number of line advances that special opcodes cover, from -5 up.
pub const LINE_RANGE: u8 = 14;

/// The first special opcode.
pub const OPCODE_BASE: u8 = 13;

/// A function's debug entry.
pub struct DwFn {
    /// The source name.
    pub name: String,
    /// The address of its first byte.
    pub low_pc: u64,
    /// Its length in bytes.
    pub len: u64,
    /// The index of the file it is declared in.
    pub file: u32,
    /// The line it is declared on.
    pub decl_line: u32,
}

/// A row of the line table.
#[derive(Clone, Copy, PartialEq, Eq, Structural, Debug)]
pub struct DwRow {
    /// The address of the first byte that the row covers.
    pub address: u64,
    /// The file index.
    pub file: u32,
    /// The line number.
    pub line: u32,
    /// Whether the row ends its sequence: `address` is then one past the end.
    pub end_sequence: bool,
}

/// A run of rows over one stretch of code.
pub struct DwSeq {
    pub rows: Vec<DwRow>,
}

/// An entry of the file table.
pub struct DwFile {
    /// The path as shown.
    pub path: String,
    /// The index of its directory.
    pub dir_index: u32,
}

/// Everything that the debug sections are made from.
pub struct DwarfInput<'a> {
    /// What made the code.
    pub producer: &'a str,
    /// The file table; entry 0 is the primary source.
    pub files: Vec<DwFile>,
    /// The directory that paths are relative to.
    pub comp_dir: &'a str,
    /// The address of the code.
    pub text_vaddr: u64,
    /// The length of the code.
    pub text_len: u64,
    /// The functions.
    pub funcs: Vec<DwFn>,
    /// The line table, sequence by sequence.
    pub lines: Vec<DwSeq>,
}

/// What a [`DwFn`] holds.
pub struct FnView {
    pub name: Seq<char>,
    pub low_pc: u64,
    pub len: u64,
    pub file: u32,
    pub decl_line: u32,
}

/// What a [`DwFile`] holds.
pub struct FileView {
    pub path: Seq<char>,
    pub dir_index: u32,
}

/// What a [`DwarfInput`] holds.
pub struct DwarfView {
    pub producer: Seq<char>,
    pub files: Seq<FileView>,
    pub comp_dir: Seq<char>,
    pub text_vaddr: u64,
    pub text_len: u64,
    pub funcs: Seq<FnView>,
    pub lines: Seq<Seq<DwRow>>,
}

impl View for DwFn {
    type V = FnView;

    open spec fn view(&self) -> FnView {
        FnView {
            name: self.name@,
            low_pc: self.low_pc,
            len: self.len,
            file: self.file,
            decl_line: self.decl_line,
        }
    }
}

impl View for DwFile {
    type V = FileView;

    open spec fn view(&self) -> FileView {
        FileView { path: self.path@, dir_index: self.dir_index }
    }
}

impl View for DwarfInput<'_> {
    type V = DwarfView;

    open spec fn view(&self) -> DwarfView {
        DwarfView {
            producer: self.producer@,
            files: Seq::new(self.files@.len(), |i: int| self.files@[i]@),
            comp_dir: self.comp_dir@,
            text_vaddr: self.text_vaddr,
            text_len: self.text_len,
            funcs: Seq::new(self.funcs@.len(), |i: int| self.funcs@[i]@),
            lines: Seq::new(self.lines@.len(), |i: int| self.lines@[i].rows@),
        }
    }
}

// ---------------------------------------------------------------------------
//  LEB128
// ---------------------------------------------------------------------------

/// The unsigned LEB128 bytes of `v`.
pub open spec fn uleb_bytes(v: nat) -> Seq<u8>
    decreases v,
{
    if v < 128 {
        seq![v as u8]
    } else {
        seq![(v % 128 + 128) as u8] + uleb_bytes(v / 128)
    }
}

/// The signed LEB128 bytes of `v`.
pub open spec fn sleb_bytes(v: int) -> Seq<u8>
    decreases
        if v >= 0 {
            v
        } else {
            -v
        },
{
    if -64 <= v < 64 {
        seq![(v % 128) as u8]
    } else {
        seq![(v % 128 + 128) as u8] + sleb_bytes(v / 128)
    }
}

/// The number whose unsigned LEB128 bytes stand at `at`, and how many they are.
pub open spec fn read_uleb(s: Seq<u8>, at: int) -> (nat, nat)
    decreases s.len() - at,
{
    if at < 0 || at >= s.len() {
        (0, 0)
    } else if s[at] < 128 {
        (s[at] as nat, 1)
    } else {
        let (v, n) = read_uleb(s, at + 1);
        ((s[at] - 128 + 128 * v) as nat, n + 1)
    }
}

/// The number whose signed LEB128 bytes stand at `at`, and how many they are.
pub open spec fn read_sleb(s: Seq<u8>, at: int) -> (int, nat)
    decreases s.len() - at,
{
    if at < 0 || at >= s.len() {
        (0, 0)
    } else if s[at] < 64 {
        (s[at] as int, 1)
    } else if s[at] < 128 {
        (s[at] - 128, 1)
    } else {
        let (v, n) = read_sleb(s, at + 1);
        (s[at] - 128 + 128 * v, n + 1)
    }
}

/// Unsigned LEB128 reads back, wherever it stands.
pub proof fn uleb_reads_back(pre: Seq<u8>, v: nat, post: Seq<u8>)
    ensures
        read_uleb(pre + uleb_bytes(v) + post, pre.len() as int) == (v, uleb_bytes(v).len()),
        uleb_bytes(v).len() >= 1,
    decreases v,
{
    let s = pre + uleb_bytes(v) + post;
    if v >= 128 {
        let b = (v % 128 + 128) as u8;
        uleb_reads_back(pre.push(b), v / 128, post);
        assert(s =~= pre.push(b) + uleb_bytes(v / 128) + post);
        assert(s[pre.len() as int] == b);
    } else {
        assert(s[pre.len() as int] == v as u8);
    }
}

/// Signed LEB128 reads back, wherever it stands.
pub proof fn sleb_reads_back(pre: Seq<u8>, v: int, post: Seq<u8>)
    ensures
        read_sleb(pre + sleb_bytes(v) + post, pre.len() as int) == (v, sleb_bytes(v).len()),
        sleb_bytes(v).len() >= 1,
    decreases
        if v >= 0 {
            v
        } else {
            -v
        },
{
    let s = pre + sleb_bytes(v) + post;
    if -64 <= v < 64 {
        assert(s[pre.len() as int] == (v % 128) as u8);
    } else {
        let b = (v % 128 + 128) as u8;
        sleb_reads_back(pre.push(b), v / 128, post);
        assert(s =~= pre.push(b) + sleb_bytes(v / 128) + post);
        assert(s[pre.len() as int] == b);
    }
}

/// Appends `v` in unsigned LEB128.
pub fn uleb(b: &mut Vec<u8>, v: u64)
    ensures
        final(b)@ == old(b)@ + uleb_bytes(v as nat),
{
    let mut rest: u64 = v;
    assert(b@ + uleb_bytes(rest as nat) =~= old(b)@ + uleb_bytes(v as nat));
    while rest >= 128
        invariant
            b@ + uleb_bytes(rest as nat) == old(b)@ + uleb_bytes(v as nat),
        decreases rest,
    {
        let byte: u8 = (rest % 128 + 128) as u8;
        let ghost before = b@;
        b.push(byte);
        assert(b@ + uleb_bytes((rest / 128) as nat) =~= before + uleb_bytes(rest as nat));
        rest = rest / 128;
    }
    let ghost before = b@;
    b.push(rest as u8);
    assert(b@ =~= before + uleb_bytes(rest as nat));
}

/// Appends `v` in signed LEB128.
pub fn sleb(b: &mut Vec<u8>, v: i64)
    ensures
        final(b)@ == old(b)@ + sleb_bytes(v as int),
{
    let mut rest: i64 = v;
    assert(b@ + sleb_bytes(rest as int) =~= old(b)@ + sleb_bytes(v as int));
    while rest < -64 || rest >= 64
        invariant
            b@ + sleb_bytes(rest as int) == old(b)@ + sleb_bytes(v as int),
        decreases
            if rest >= 0 {
                rest as int
            } else {
                -rest
            },
    {
        let next: i64 = if rest >= 0 {
            rest / 128
        } else {
            -((-(rest + 1)) / 128) - 1
        };
        assert(next == (rest as int) / 128);
        let byte: u8 = (rest - next * 128 + 128) as u8;
        assert(byte == ((rest as int) % 128 + 128) as u8);
        let ghost before = b@;
        b.push(byte);
        assert(b@ + sleb_bytes(next as int) =~= before + sleb_bytes(rest as int));
        rest = next;
    }
    let ghost before = b@;
    let last: u8 = if rest >= 0 {
        rest as u8
    } else {
        (rest + 128) as u8
    };
    b.push(last);
    assert(b@ =~= before + sleb_bytes(rest as int));
}

// ---------------------------------------------------------------------------
//  Strings
// ---------------------------------------------------------------------------

/// A string's bytes with the closing NUL.
pub open spec fn cstr_bytes(s: Seq<char>) -> Seq<u8> {
    encode_utf8(s).push(0)
}

fn cstr(b: &mut Vec<u8>, s: &str)
    ensures
        final(b)@ == old(b)@ + cstr_bytes(s@),
{
    push_all(b, s.as_bytes());
    b.push(0);
    assert(b@ =~= old(b)@ + cstr_bytes(s@));
}

/// A pool of strings, each closed by a NUL, that starts with the empty one.
pub struct StrTab {
    pool: Interner,
}

impl View for StrTab {
    type V = Pool;

    closed spec fn view(&self) -> Pool {
        self.pool@
    }
}

/// A pool in which nothing was added.
pub open spec fn no_strings() -> Pool {
    Pool::start(seq![0u8])
}

/// The keys of strings.
pub open spec fn cstrs(ss: Seq<Seq<char>>) -> Seq<Seq<u8>> {
    Seq::new(ss.len(), |i: int| cstr_bytes(ss[i]))
}

/// The pool after the strings of `ss`, one after the other.
pub open spec fn strings_added(ss: Seq<Seq<char>>) -> Pool {
    no_strings().add_all(cstrs(ss))
}

impl StrTab {
    /// A pool in which nothing was added.
    pub fn new() -> (r: StrTab)
        ensures
            r@ == no_strings(),
            r@.wf(),
    {
        let mut zero: Vec<u8> = Vec::new();
        zero.push(0);
        assert(zero@ =~= seq![0u8]);
        StrTab { pool: Interner::start(zero) }
    }

    /// Adds `s` where it is not there yet, and returns its offset.
    pub fn add(&mut self, s: &str) -> (off: u32)
        requires
            old(self)@.wf(),
        ensures
            final(self)@.wf(),
            final(self)@ == old(self)@.add(cstr_bytes(s@)),
            off == old(self)@.offset_of(cstr_bytes(s@)),
    {
        let mut key: Vec<u8> = Vec::new();
        cstr(&mut key, s);
        assert(key@ =~= cstr_bytes(s@));
        self.pool.intern(key.as_slice())
    }

    /// The pool's bytes.
    pub fn into_bytes(self) -> (r: Vec<u8>)
        ensures
            r@ == self@.bytes,
    {
        self.pool.into_bytes()
    }
}

proof fn cstr_tells(s: Seq<char>, t: Seq<char>)
    requires
        cstr_bytes(s) == cstr_bytes(t),
    ensures
        s == t,
{
    assert(cstr_bytes(s).drop_last() =~= encode_utf8(s));
    assert(cstr_bytes(t).drop_last() =~= encode_utf8(t));
    vstd::utf8::encode_utf8_decode_utf8(s);
    vstd::utf8::encode_utf8_decode_utf8(t);
}

/// Over any run of additions to a fresh string pool: the offset that a string was given is its
/// offset ever after, its bytes and a NUL stand there, equal strings share it, and different
/// strings have different ones.
pub proof fn strings_have_their_own_offsets(ss: Seq<Seq<char>>, i: int, j: int)
    requires
        0 <= i < ss.len(),
        0 <= j < ss.len(),
        strings_added(ss).bytes.len() <= u32::MAX,
    ensures
        ({
            let p = strings_added(ss);
            let key = cstr_bytes(ss[i]);
            let off = p.offset_of(key);
            &&& strings_added(ss.take(i)).offset_of(key) == off
            &&& off + key.len() <= p.bytes.len()
            &&& p.bytes.subrange(off as int, off + key.len()) == key
            &&& p.bytes[0] == 0
            &&& ss[i] == ss[j] <==> off == p.offset_of(cstr_bytes(ss[j]))
        }),
{
    let keys = cstrs(ss);
    assert(keys[i].len() > 0 && keys[j].len() > 0);
    offsets_are_apart(seq![0u8], keys, i, j);
    assert(keys.take(i) =~= cstrs(ss.take(i)));
    if keys[i] == keys[j] {
        cstr_tells(ss[i], ss[j]);
    }
    assert(strings_added(ss).bytes.take(1)[0] == 0);
}

/// A string that is new goes to the end, with its NUL; one that is there changes nothing.
pub proof fn string_goes_to_the_end(p: Pool, s: Seq<char>)
    ensures
        lookup(p.seen, cstr_bytes(s)) is Some ==> p.add(cstr_bytes(s)) == p,
        lookup(p.seen, cstr_bytes(s)) is None ==> p.add(cstr_bytes(s)).bytes == p.bytes
            + encode_utf8(s) + seq![0u8],
{
    assert(p.bytes + cstr_bytes(s) =~= p.bytes + encode_utf8(s) + seq![0u8]);
}

// ---------------------------------------------------------------------------
//  .debug_abbrev and .debug_info
// ---------------------------------------------------------------------------

/// The attributes of a compile unit, as (name, form).
pub open spec fn unit_attrs() -> Seq<(u8, u8)> {
    seq![
        (DW_AT_PRODUCER, DW_FORM_STRP),
        (DW_AT_LANGUAGE, DW_FORM_DATA2),
        (DW_AT_NAME, DW_FORM_STRP),
        (DW_AT_COMP_DIR, DW_FORM_STRP),
        (DW_AT_LOW_PC, DW_FORM_ADDR),
        (DW_AT_HIGH_PC, DW_FORM_DATA8),
        (DW_AT_STMT_LIST, DW_FORM_SEC_OFFSET),
    ]
}

/// The attributes of a subprogram, as (name, form).
pub open spec fn subprogram_attrs() -> Seq<(u8, u8)> {
    seq![
        (DW_AT_NAME, DW_FORM_STRP),
        (DW_AT_LOW_PC, DW_FORM_ADDR),
        (DW_AT_HIGH_PC, DW_FORM_DATA8),
        (DW_AT_DECL_FILE, DW_FORM_UDATA),
        (DW_AT_DECL_LINE, DW_FORM_UDATA),
    ]
}

/// The bytes of an attribute list, closed by a pair of zeros.
pub open spec fn attr_bytes(a: Seq<(u8, u8)>) -> Seq<u8>
    decreases a.len(),
{
    if a.len() == 0 {
        seq![0u8, 0u8]
    } else {
        seq![a[0].0, a[0].1] + attr_bytes(a.skip(1))
    }
}

/// `.debug_abbrev`: entry 1 is the compile unit, entry 2 a subprogram.
pub open spec fn abbrev_bytes() -> Seq<u8> {
    seq![1u8, DW_TAG_COMPILE_UNIT, 1u8] + attr_bytes(unit_attrs()) + seq![
        2u8,
        DW_TAG_SUBPROGRAM,
        0u8,
    ] + attr_bytes(subprogram_attrs()) + seq![0u8]
}

/// The bytes of an attribute value in a form.
pub open spec fn value_bytes(form: u8, v: u64) -> Seq<u8> {
    if form == DW_FORM_DATA2 {
        le16((v % 0x1_0000) as u16)
    } else if form == DW_FORM_STRP || form == DW_FORM_SEC_OFFSET {
        le32((v % 0x1_0000_0000) as u32)
    } else if form == DW_FORM_UDATA {
        uleb_bytes(v as nat)
    } else {
        le64(v)
    }
}

/// The bytes of the values of an entry whose attributes are `a`.
pub open spec fn values_bytes(a: Seq<(u8, u8)>, v: Seq<u64>) -> Seq<u8>
    decreases a.len(),
{
    if a.len() == 0 {
        Seq::empty()
    } else {
        value_bytes(a[0].1, v[0]) + values_bytes(a.skip(1), v.skip(1))
    }
}

/// The compile unit's entry.
pub open spec fn unit_die(
    producer: u32,
    name: u32,
    comp_dir: u32,
    text_vaddr: u64,
    text_len: u64,
) -> Seq<u8> {
    seq![1u8] + le32(producer) + le16(DW_LANG_C) + le32(name) + le32(comp_dir) + le64(text_vaddr)
        + le64(text_len) + le32(0)
}

/// A function's entry.
pub open spec fn fn_die(f: FnView, name: u32) -> Seq<u8> {
    seq![2u8] + le32(name) + le64(f.low_pc) + le64(f.len) + uleb_bytes(f.file as nat) + uleb_bytes(
        f.decl_line as nat,
    )
}

/// The entries of all functions.
pub open spec fn fn_dies(funcs: Seq<FnView>, names: Seq<u32>) -> Seq<u8>
    decreases funcs.len(),
{
    if funcs.len() == 0 {
        Seq::empty()
    } else {
        fn_dies(funcs.drop_last(), names.drop_last()) + fn_die(funcs.last(), names.last())
    }
}

/// The unit header of `.debug_info` behind its length.
pub open spec fn info_header() -> Seq<u8> {
    le16(5) + seq![DW_UT_COMPILE, 8u8] + le32(0)
}

/// A section with its length in front.
pub open spec fn with_length(body: Seq<u8>) -> Seq<u8> {
    le32((body.len() % 0x1_0000_0000) as u32) + body
}

/// `.debug_info`.
pub open spec fn info_bytes(
    input: DwarfView,
    producer: u32,
    name: u32,
    comp_dir: u32,
    names: Seq<u32>,
) -> Seq<u8> {
    with_length(
        info_header() + unit_die(producer, name, comp_dir, input.text_vaddr, input.text_len)
            + fn_dies(input.funcs, names) + seq![0u8],
    )
}

/// Appends the first attribute of `rest`, the last part of a list that makes
/// `want` of the buffer.
fn push_attr(
    b: &mut Vec<u8>,
    at: u8,
    form: u8,
    rest: Ghost<Seq<(u8, u8)>>,
    want: Ghost<Seq<u8>>,
)
    requires
        rest@.len() > 0,
        rest@[0] == (at, form),
        old(b)@ + attr_bytes(rest@) == want@,
    ensures
        final(b)@ + attr_bytes(rest@.skip(1)) == want@,
{
    b.push(at);
    b.push(form);
    assert(b@ + attr_bytes(rest@.skip(1)) =~= old(b)@ + attr_bytes(rest@));
}

fn push_unit_attrs(b: &mut Vec<u8>)
    ensures
        final(b)@ == old(b)@ + attr_bytes(unit_attrs()),
{
    let ghost u = unit_attrs();
    let ghost want = b@ + attr_bytes(u);
    let ghost u1 = u.skip(1);
    let ghost u2 = u1.skip(1);
    let ghost u3 = u2.skip(1);
    let ghost u4 = u3.skip(1);
    let ghost u5 = u4.skip(1);
    let ghost u6 = u5.skip(1);
    push_attr(b, DW_AT_PRODUCER, DW_FORM_STRP, Ghost(u), Ghost(want));
    push_attr(b, DW_AT_LANGUAGE, DW_FORM_DATA2, Ghost(u1), Ghost(want));
    push_attr(b, DW_AT_NAME, DW_FORM_STRP, Ghost(u2), Ghost(want));
    push_attr(b, DW_AT_COMP_DIR, DW_FORM_STRP, Ghost(u3), Ghost(want));
    push_attr(b, DW_AT_LOW_PC, DW_FORM_ADDR, Ghost(u4), Ghost(want));
    push_attr(b, DW_AT_HIGH_PC, DW_FORM_DATA8, Ghost(u5), Ghost(want));
    push_attr(b, DW_AT_STMT_LIST, DW_FORM_SEC_OFFSET, Ghost(u6), Ghost(want));
    let ghost before = b@;
    b.push(0);
    b.push(0);
    assert(b@ =~= before + attr_bytes(u6.skip(1)));
}

fn push_subprogram_attrs(b: &mut Vec<u8>)
    ensures
        final(b)@ == old(b)@ + attr_bytes(subprogram_attrs()),
{
    let ghost u = subprogram_attrs();
    let ghost want = b@ + attr_bytes(u);
    let ghost u1 = u.skip(1);
    let ghost u2 = u1.skip(1);
    let ghost u3 = u2.skip(1);
    let ghost u4 = u3.skip(1);
    push_attr(b, DW_AT_NAME, DW_FORM_STRP, Ghost(u), Ghost(want));
    push_attr(b, DW_AT_LOW_PC, DW_FORM_ADDR, Ghost(u1), Ghost(want));
    push_attr(b, DW_AT_HIGH_PC, DW_FORM_DATA8, Ghost(u2), Ghost(want));
    push_attr(b, DW_AT_DECL_FILE, DW_FORM_UDATA, Ghost(u3), Ghost(want));
    push_attr(b, DW_AT_DECL_LINE, DW_FORM_UDATA, Ghost(u4), Ghost(want));
    let ghost before = b@;
    b.push(0);
    b.push(0);
    assert(b@ =~= before + attr_bytes(u4.skip(1)));
}

fn build_abbrev() -> (b: Vec<u8>)
    ensures
        b@ == abbrev_bytes(),
{
    let mut b: Vec<u8> = Vec::new();
    b.push(1);
    b.push(DW_TAG_COMPILE_UNIT);
    b.push(1);
    push_unit_attrs(&mut b);
    b.push(2);
    b.push(DW_TAG_SUBPROGRAM);
    b.push(0);
    push_subprogram_attrs(&mut b);
    b.push(0);
    assert(b@ =~= abbrev_bytes());
    b
}

fn push_fn_die(b: &mut Vec<u8>, f: &DwFn, name: u32)
    ensures
        final(b)@ == old(b)@ + fn_die(f@, name),
{
    b.push(2);
    push_u32(b, name);
    push_u64(b, f.low_pc);
    push_u64(b, f.len);
    uleb(b, f.file as u64);
    uleb(b, f.decl_line as u64);
    assert(b@ =~= old(b)@ + fn_die(f@, name));
}

/// `body` with its length in front.
fn prefix_length(body: &Vec<u8>) -> (r: Vec<u8>)
    ensures
        r@ == with_length(body@),
{
    let mut r: Vec<u8> = Vec::new();
    push_u32(&mut r, ((body.len() as u64) % 0x1_0000_0000) as u32);
    push_all(&mut r, body.as_slice());
    assert(r@ =~= with_length(body@));
    r
}

fn build_info(
    input: &DwarfInput,
    producer: u32,
    name: u32,
    comp_dir: u32,
    names: &Vec<u32>,
) -> (r: Vec<u8>)
    requires
        names@.len() == input.funcs@.len(),
    ensures
        r@ == info_bytes(input@, producer, name, comp_dir, names@),
{
    let mut b: Vec<u8> = Vec::new();
    push_u16(&mut b, 5);
    b.push(DW_UT_COMPILE);
    b.push(8);
    push_u32(&mut b, 0);
    assert(b@ =~= info_header());
    b.push(1);
    push_u32(&mut b, producer);
    push_u16(&mut b, DW_LANG_C);
    push_u32(&mut b, name);
    push_u32(&mut b, comp_dir);
    push_u64(&mut b, input.text_vaddr);
    push_u64(&mut b, input.text_len);
    push_u32(&mut b, 0);
    let ghost head = info_header() + unit_die(
        producer,
        name,
        comp_dir,
        input.text_vaddr,
        input.text_len,
    );
    assert(b@ =~= head);
    let mut i: usize = 0;
    let ghost funcs = input@.funcs;
    assert(b@ =~= head + fn_dies(funcs.take(0), names@.take(0)));
    while i < input.funcs.len()
        invariant
            i <= input.funcs@.len() == names@.len(),
            funcs == input@.funcs,
            b@ == head + fn_dies(funcs.take(i as int), names@.take(i as int)),
        decreases input.funcs@.len() - i,
    {
        push_fn_die(&mut b, &input.funcs[i], names[i]);
        proof {
            let f = funcs.take(i + 1);
            let n = names@.take(i + 1);
            assert(f.drop_last() =~= funcs.take(i as int));
            assert(n.drop_last() =~= names@.take(i as int));
            assert(b@ =~= head + fn_dies(f, n));
        }
        i = i + 1;
    }
    proof {
        assert(funcs.take(i as int) =~= funcs);
        assert(names@.take(i as int) =~= names@);
    }
    b.push(0);
    assert(b@ =~= head + fn_dies(funcs, names@) + seq![0u8]);
    prefix_length(&b)
}

// ---------------------------------------------------------------------------
//  .debug_line
// ---------------------------------------------------------------------------

/// An instruction of the line program.
#[derive(Clone, Copy, PartialEq, Eq, Structural, Debug)]
pub enum LineOp {
    /// Add to the address.
    AdvancePc(u64),
    /// Add to the line.
    AdvanceLine(i64),
    /// Set the file.
    SetFile(u32),
    /// Append a row.
    Copy,
    /// Set the address.
    SetAddress(u64),
    /// Append the closing row and start over.
    EndSequence,
    /// Advance address and line together and append a row.
    Special(u8),
}

/// The bytes of an instruction.
pub open spec fn op_bytes(op: LineOp) -> Seq<u8> {
    match op {
        LineOp::AdvancePc(n) => seq![DW_LNS_ADVANCE_PC] + uleb_bytes(n as nat),
        LineOp::AdvanceLine(n) => seq![DW_LNS_ADVANCE_LINE] + sleb_bytes(n as int),
        LineOp::SetFile(n) => seq![DW_LNS_SET_FILE] + uleb_bytes(n as nat),
        LineOp::Copy => seq![DW_LNS_COPY],
        LineOp::SetAddress(a) => seq![0u8, 9u8, DW_LNE_SET_ADDRESS] + le64(a),
        LineOp::EndSequence => seq![0u8, 1u8, DW_LNE_END_SEQUENCE],
        LineOp::Special(o) => seq![o],
    }
}

/// The bytes of a program.
pub open spec fn ops_bytes(ops: Seq<LineOp>) -> Seq<u8>
    decreases ops.len(),
{
    if ops.len() == 0 {
        Seq::empty()
    } else {
        ops_bytes(ops.drop_last()) + op_bytes(ops.last())
    }
}

/// How far a sequence has been emitted.
pub struct Cursor {
    pub addr: u64,
    pub line: int,
    pub file: u32,
    pub started: bool,
}

/// Where every sequence starts.
pub open spec fn start_cursor() -> Cursor {
    Cursor { addr: 0, line: 1, file: 1, started: false }
}

/// `b - a`, modulo the address space.
pub open spec fn addr_delta(a: u64, b: u64) -> u64 {
    ((b - a) % 0x1_0000_0000_0000_0000) as u64
}

/// The special opcode for an advance, where there is one.
pub open spec fn special(daddr: u64, dline: int) -> Option<u8> {
    if -5 <= dline <= 8 && dline + 5 + 14 * daddr + 13 <= 255 {
        Some((dline + 5 + 14 * daddr + 13) as u8)
    } else {
        None
    }
}

/// The instructions that append a row after an advance.
pub open spec fn advance_ops(daddr: u64, dline: int) -> Seq<LineOp> {
    match special(daddr, dline) {
        Some(o) => seq![LineOp::Special(o)],
        None => (if dline != 0 {
            seq![LineOp::AdvanceLine(dline as i64)]
        } else {
            Seq::empty()
        }) + (if daddr != 0 {
            seq![LineOp::AdvancePc(daddr)]
        } else {
            Seq::empty()
        }) + seq![LineOp::Copy],
    }
}

/// The instructions for one row.
pub open spec fn row_ops(c: Cursor, row: DwRow) -> Seq<LineOp> {
    if row.end_sequence {
        (if row.address > c.addr {
            seq![LineOp::AdvancePc((row.address - c.addr) as u64)]
        } else {
            Seq::empty()
        }) + seq![LineOp::EndSequence]
    } else {
        (if row.file != c.file {
            seq![LineOp::SetFile(row.file)]
        } else {
            Seq::empty()
        }) + (if !c.started {
            seq![LineOp::SetAddress(row.address)]
        } else {
            Seq::empty()
        }) + advance_ops(
            if c.started {
                addr_delta(c.addr, row.address)
            } else {
                0
            },
            row.line - c.line,
        )
    }
}

/// The cursor behind one row.
pub open spec fn row_next(c: Cursor, row: DwRow) -> Cursor {
    if row.end_sequence {
        Cursor {
            addr: if row.address > c.addr {
                row.address
            } else {
                c.addr
            },
            ..c
        }
    } else {
        Cursor { addr: row.address, line: row.line as int, file: row.file, started: true }
    }
}

/// The cursor behind `rows`.
pub open spec fn cursor_after(rows: Seq<DwRow>) -> Cursor
    decreases rows.len(),
{
    if rows.len() == 0 {
        start_cursor()
    } else {
        row_next(cursor_after(rows.drop_last()), rows.last())
    }
}

/// The instructions for a sequence.
pub open spec fn seq_ops(rows: Seq<DwRow>) -> Seq<LineOp>
    decreases rows.len(),
{
    if rows.len() == 0 {
        Seq::empty()
    } else {
        seq_ops(rows.drop_last()) + row_ops(cursor_after(rows.drop_last()), rows.last())
    }
}

/// The bytes of all sequences.
pub open spec fn lines_bytes(lines: Seq<Seq<DwRow>>) -> Seq<u8>
    decreases lines.len(),
{
    if lines.len() == 0 {
        Seq::empty()
    } else {
        lines_bytes(lines.drop_last()) + ops_bytes(seq_ops(lines.last()))
    }
}

/// The bytes of the file table.
pub open spec fn files_bytes(files: Seq<FileView>) -> Seq<u8>
    decreases files.len(),
{
    if files.len() == 0 {
        Seq::empty()
    } else {
        files_bytes(files.drop_last()) + cstr_bytes(files.last().path) + uleb_bytes(
            files.last().dir_index as nat,
        )
    }
}

/// The line program header behind its own length.
pub open spec fn line_header(input: DwarfView) -> Seq<u8> {
    seq![1u8, 1u8, 1u8, LINE_BASE_BYTE, LINE_RANGE, OPCODE_BASE] + seq![
        0u8,
        1u8,
        1u8,
        1u8,
        1u8,
        0u8,
        0u8,
        0u8,
        1u8,
        0u8,
        0u8,
        1u8,
    ] + seq![1u8, DW_LNCT_PATH, DW_FORM_STRING, 1u8] + cstr_bytes(input.comp_dir) + seq![
        2u8,
        DW_LNCT_PATH,
        DW_FORM_STRING,
        DW_LNCT_DIRECTORY_INDEX,
        DW_FORM_UDATA,
    ] + uleb_bytes(input.files.len()) + files_bytes(input.files)
}

/// `.debug_line`.
pub open spec fn line_bytes(input: DwarfView) -> Seq<u8> {
    with_length(
        le16(5) + seq![8u8, 0u8] + with_length(line_header(input)) + lines_bytes(input.lines),
    )
}

fn push_op(b: &mut Vec<u8>, op: LineOp)
    ensures
        final(b)@ == old(b)@ + op_bytes(op),
{
    match op {
        LineOp::AdvancePc(n) => {
            b.push(DW_LNS_ADVANCE_PC);
            uleb(b, n);
        },
        LineOp::AdvanceLine(n) => {
            b.push(DW_LNS_ADVANCE_LINE);
            sleb(b, n);
        },
        LineOp::SetFile(n) => {
            b.push(DW_LNS_SET_FILE);
            uleb(b, n as u64);
        },
        LineOp::Copy => {
            b.push(DW_LNS_COPY);
        },
        LineOp::SetAddress(a) => {
            b.push(0);
            b.push(9);
            b.push(DW_LNE_SET_ADDRESS);
            push_u64(b, a);
        },
        LineOp::EndSequence => {
            b.push(0);
            b.push(1);
            b.push(DW_LNE_END_SEQUENCE);
        },
        LineOp::Special(o) => {
            b.push(o);
        },
    }
    assert(b@ =~= old(b)@ + op_bytes(op));
}

proof fn ops_bytes_add(a: Seq<LineOp>, b: Seq<LineOp>)
    ensures
        ops_bytes(a + b) == ops_bytes(a) + ops_bytes(b),
    decreases b.len(),
{
    if b.len() == 0 {
        assert(a + b =~= a);
        assert(ops_bytes(a) + ops_bytes(b) =~= ops_bytes(a));
    } else {
        ops_bytes_add(a, b.drop_last());
        assert((a + b).drop_last() =~= a + b.drop_last());
        assert((a + b).last() == b.last());
        assert(ops_bytes(a + b) =~= ops_bytes(a) + ops_bytes(b));
    }
}

proof fn ops_bytes_one(op: LineOp)
    ensures
        ops_bytes(seq![op]) == op_bytes(op),
{
    assert(seq![op].drop_last() =~= Seq::empty());
    assert(ops_bytes(Seq::<LineOp>::empty()) + op_bytes(op) =~= op_bytes(op));
}

/// Appends one instruction to a program of which `done` is there.
fn emit_op(b: &mut Vec<u8>, op: LineOp, base: Ghost<Seq<u8>>, done: Ghost<Seq<LineOp>>)
    requires
        old(b)@ == base@ + ops_bytes(done@),
    ensures
        final(b)@ == base@ + ops_bytes(done@.push(op)),
{
    push_op(b, op);
    proof {
        assert(done@.push(op).drop_last() =~= done@);
        assert(b@ =~= base@ + ops_bytes(done@.push(op)));
    }
}

/// Appends a row `daddr` bytes and `dline` lines behind the last one: one special opcode
/// where that reaches, else the advances that are needed and a copy.
pub fn emit_row(b: &mut Vec<u8>, daddr: u64, dline: i64)
    ensures
        final(b)@ == old(b)@ + ops_bytes(advance_ops(daddr, dline as int)),
{
    let ghost base = b@;
    let ghost done: Seq<LineOp> = Seq::empty();
    assert(b@ =~= base + ops_bytes(done));
    if -5 <= dline && dline <= 8 && daddr <= 17 {
        let op: i64 = dline + 5 + 14 * (daddr as i64) + 13;
        if op <= 255 {
            emit_op(b, LineOp::Special(op as u8), Ghost(base), Ghost(done));
            assert(done.push(LineOp::Special(op as u8)) =~= advance_ops(daddr, dline as int));
            return;
        }
    }
    let ghost want = advance_ops(daddr, dline as int);
    if dline != 0 {
        emit_op(b, LineOp::AdvanceLine(dline), Ghost(base), Ghost(done));
    }
    let ghost d1 = if dline != 0 {
        done.push(LineOp::AdvanceLine(dline))
    } else {
        done
    };
    if daddr != 0 {
        emit_op(b, LineOp::AdvancePc(daddr), Ghost(base), Ghost(d1));
    }
    let ghost d2 = if daddr != 0 {
        d1.push(LineOp::AdvancePc(daddr))
    } else {
        d1
    };
    emit_op(b, LineOp::Copy, Ghost(base), Ghost(d2));
    assert(d2.push(LineOp::Copy) =~= want);
}

#[verifier::rlimit(30)]
fn emit_sequence(b: &mut Vec<u8>, rows: &Vec<DwRow>)
    ensures
        final(b)@ == old(b)@ + ops_bytes(seq_ops(rows@)),
{
    let ghost base = b@;
    let mut addr: u64 = 0;
    let mut line: i64 = 1;
    let mut file: u32 = 1;
    let mut started: bool = false;
    let mut i: usize = 0;
    assert(rows@.take(0) =~= Seq::empty());
    assert(b@ =~= base + ops_bytes(seq_ops(rows@.take(0))));
    while i < rows.len()
        invariant
            i <= rows@.len(),
            b@ == base + ops_bytes(seq_ops(rows@.take(i as int))),
            cursor_after(
                rows@.take(i as int),
            ) == (Cursor { addr, line: line as int, file, started }),
            0 <= line <= u32::MAX,
        decreases rows@.len() - i,
    {
        let row: DwRow = rows[i];
        let ghost c = Cursor { addr, line: line as int, file, started };
        let ghost prev = seq_ops(rows@.take(i as int));
        let ghost here = b@;
        let ghost mut done: Seq<LineOp> = Seq::empty();
        assert(b@ =~= here + ops_bytes(done));
        if row.end_sequence {
            if row.address > addr {
                emit_op(b, LineOp::AdvancePc(row.address - addr), Ghost(here), Ghost(done));
                proof {
                    done = done.push(LineOp::AdvancePc((row.address - addr) as u64));
                }
                addr = row.address;
            }
            emit_op(b, LineOp::EndSequence, Ghost(here), Ghost(done));
            assert(done.push(LineOp::EndSequence) =~= row_ops(c, row));
        } else {
            if row.file != file {
                emit_op(b, LineOp::SetFile(row.file), Ghost(here), Ghost(done));
                proof {
                    done = done.push(LineOp::SetFile(row.file));
                }
                file = row.file;
            }
            if !started {
                emit_op(b, LineOp::SetAddress(row.address), Ghost(here), Ghost(done));
                proof {
                    done = done.push(LineOp::SetAddress(row.address));
                }
                addr = row.address;
                started = true;
            }
            let daddr: u64 = row.address.wrapping_sub(addr);
            assert(daddr == addr_delta(addr, row.address));
            let dline: i64 = row.line as i64 - line;
            let ghost there = b@;
            emit_row(b, daddr, dline);
            proof {
                let adv = advance_ops(daddr, dline as int);
                ops_bytes_add(done, adv);
                assert(b@ =~= here + ops_bytes(done + adv));
                assert(done + adv =~= row_ops(c, row));
            }
            addr = row.address;
            line = row.line as i64;
        }
        proof {
            let r = rows@.take(i + 1);
            assert(r.drop_last() =~= rows@.take(i as int));
            assert(r.last() == row);
            ops_bytes_add(prev, row_ops(c, row));
            assert(b@ =~= base + ops_bytes(seq_ops(r)));
        }
        i = i + 1;
    }
    assert(rows@.take(i as int) =~= rows@);
}

fn build_line(input: &DwarfInput) -> (r: Vec<u8>)
    ensures
        r@ == line_bytes(input@),
{
    let mut h: Vec<u8> = Vec::new();
    h.push(1);
    h.push(1);
    h.push(1);
    h.push(LINE_BASE_BYTE);
    h.push(LINE_RANGE);
    h.push(OPCODE_BASE);
    h.push(0);
    h.push(1);
    h.push(1);
    h.push(1);
    h.push(1);
    h.push(0);
    h.push(0);
    h.push(0);
    h.push(1);
    h.push(0);
    h.push(0);
    h.push(1);
    h.push(1);
    h.push(DW_LNCT_PATH);
    h.push(DW_FORM_STRING);
    h.push(1);
    let ghost h1 = h@;
    cstr(&mut h, input.comp_dir);
    h.push(2);
    h.push(DW_LNCT_PATH);
    h.push(DW_FORM_STRING);
    h.push(DW_LNCT_DIRECTORY_INDEX);
    h.push(DW_FORM_UDATA);
    uleb(&mut h, input.files.len() as u64);
    let ghost head = h@;
    let ghost files = input@.files;
    let ghost lines = input@.lines;
    let mut i: usize = 0;
    assert(h@ =~= head + files_bytes(files.take(0)));
    while i < input.files.len()
        invariant
            i <= input.files@.len(),
            files == input@.files,
            h@ == head + files_bytes(files.take(i as int)),
        decreases input.files@.len() - i,
    {
        cstr(&mut h, input.files[i].path.as_str());
        uleb(&mut h, input.files[i].dir_index as u64);
        proof {
            let f = files.take(i + 1);
            assert(f.drop_last() =~= files.take(i as int));
            assert(f.last() == input.files@[i as int]@);
            assert(h@ =~= head + files_bytes(f));
        }
        i = i + 1;
    }
    assert(files.take(i as int) =~= files);
    assert(h@ =~= line_header(input@));
    let mut b: Vec<u8> = Vec::new();
    push_u16(&mut b, 5);
    b.push(8);
    b.push(0);
    let sized = prefix_length(&h);
    push_all(&mut b, sized.as_slice());
    let ghost start = le16(5) + seq![8u8, 0u8] + with_length(line_header(input@));
    assert(b@ =~= start);
    let mut k: usize = 0;
    assert(b@ =~= start + lines_bytes(lines.take(0)));
    while k < input.lines.len()
        invariant
            k <= input.lines@.len(),
            lines == input@.lines,
            b@ == start + lines_bytes(lines.take(k as int)),
        decreases input.lines@.len() - k,
    {
        emit_sequence(&mut b, &input.lines[k].rows);
        proof {
            let l = lines.take(k + 1);
            assert(l.drop_last() =~= lines.take(k as int));
            assert(l.last() == input.lines@[k as int].rows@);
            assert(b@ =~= start + lines_bytes(l));
        }
        k = k + 1;
    }
    assert(lines.take(k as int) =~= lines);
    prefix_length(&b)
}

// ---------------------------------------------------------------------------
//  All sections
// ---------------------------------------------------------------------------

/// The name of the primary source: that of the first file, or nothing.
pub open spec fn primary_name(input: DwarfView) -> Seq<char> {
    if input.files.len() > 0 {
        input.files[0].path
    } else {
        Seq::empty()
    }
}

/// The string pool behind the compile unit's three strings.
pub open spec fn unit_pool(input: DwarfView) -> Pool {
    Pool::start(seq![0u8]).add(cstr_bytes(input.producer)).add(
        cstr_bytes(primary_name(input)),
    ).add(cstr_bytes(input.comp_dir))
}

/// The string pool behind the names of `funcs`.
pub open spec fn names_pool(p: Pool, funcs: Seq<FnView>) -> Pool
    decreases funcs.len(),
{
    if funcs.len() == 0 {
        p
    } else {
        names_pool(p, funcs.drop_last()).add(cstr_bytes(funcs.last().name))
    }
}

/// The offsets of the names of `funcs`.
pub open spec fn name_offsets(p: Pool, funcs: Seq<FnView>) -> Seq<u32>
    decreases funcs.len(),
{
    if funcs.len() == 0 {
        Seq::empty()
    } else {
        name_offsets(p, funcs.drop_last()).push(
            names_pool(p, funcs.drop_last()).offset_of(cstr_bytes(funcs.last().name)),
        )
    }
}

/// The debug sections of `input`.
pub open spec fn sections(input: DwarfView) -> DebugView {
    let p0 = Pool::start(seq![0u8]);
    let p1 = p0.add(cstr_bytes(input.producer));
    let p2 = p1.add(cstr_bytes(primary_name(input)));
    DebugView {
        info: info_bytes(
            input,
            p0.offset_of(cstr_bytes(input.producer)),
            p1.offset_of(cstr_bytes(primary_name(input))),
            p2.offset_of(cstr_bytes(input.comp_dir)),
            name_offsets(unit_pool(input), input.funcs),
        ),
        abbrev: abbrev_bytes(),
        line: line_bytes(input),
        str_: names_pool(unit_pool(input), input.funcs).bytes,
    }
}

/// Builds the debug sections.
pub fn build(input: &DwarfInput) -> (r: DebugSections)
    ensures
        r@ == sections(input@),
{
    let mut strs = StrTab::new();
    let producer: u32 = strs.add(input.producer);
    let name: u32 = if input.files.len() > 0 {
        strs.add(input.files[0].path.as_str())
    } else {
        proof {
            reveal_strlit("");
            assert(""@ =~= Seq::empty());
        }
        strs.add("")
    };
    let comp_dir: u32 = strs.add(input.comp_dir);
    let ghost p = unit_pool(input@);
    let ghost funcs = input@.funcs;
    let mut names: Vec<u32> = Vec::new();
    let mut i: usize = 0;
    assert(funcs.take(0) =~= Seq::empty());
    assert(names@ =~= name_offsets(p, funcs.take(0)));
    while i < input.funcs.len()
        invariant
            i <= input.funcs@.len(),
            funcs == input@.funcs,
            strs@.wf(),
            strs@ == names_pool(p, funcs.take(i as int)),
            names@ == name_offsets(p, funcs.take(i as int)),
            names@.len() == i,
        decreases input.funcs@.len() - i,
    {
        let off: u32 = strs.add(input.funcs[i].name.as_str());
        names.push(off);
        proof {
            let f = funcs.take(i + 1);
            assert(f.drop_last() =~= funcs.take(i as int));
            assert(f.last() == input.funcs@[i as int]@);
        }
        i = i + 1;
    }
    assert(funcs.take(i as int) =~= funcs);
    let abbrev = build_abbrev();
    let line = build_line(input);
    let info = build_info(input, producer, name, comp_dir, &names);
    DebugSections { info, abbrev, line, str_: strs.into_bytes() }
}

// ---------------------------------------------------------------------------
//  Laws
// ---------------------------------------------------------------------------

/// The compile unit's values come in the order and in the forms that entry 1 of
/// the abbreviations announces.
pub proof fn unit_follows_abbrev(
    producer: u32,
    name: u32,
    comp_dir: u32,
    text_vaddr: u64,
    text_len: u64,
)
    ensures
        unit_die(producer, name, comp_dir, text_vaddr, text_len) == seq![1u8] + values_bytes(
            unit_attrs(),
            seq![
                producer as u64,
                DW_LANG_C as u64,
                name as u64,
                comp_dir as u64,
                text_vaddr,
                text_len,
                0,
            ],
        ),
{
    let a = unit_attrs();
    let v = seq![
        producer as u64,
        DW_LANG_C as u64,
        name as u64,
        comp_dir as u64,
        text_vaddr,
        text_len,
        0,
    ];
    let a1 = a.skip(1);
    let v1 = v.skip(1);
    let a2 = a1.skip(1);
    let v2 = v1.skip(1);
    let a3 = a2.skip(1);
    let v3 = v2.skip(1);
    let a4 = a3.skip(1);
    let v4 = v3.skip(1);
    let a5 = a4.skip(1);
    let v5 = v4.skip(1);
    let a6 = a5.skip(1);
    let v6 = v5.skip(1);
    assert(values_bytes(a6.skip(1), v6.skip(1)) =~= Seq::empty());
    assert(values_bytes(a6, v6) == value_bytes(a6[0].1, v6[0]) + values_bytes(
        a6.skip(1),
        v6.skip(1),
    ));
    assert(values_bytes(a6, v6) =~= le32(0));
    assert(values_bytes(a5, v5) == le64(text_len) + values_bytes(a6, v6));
    assert(values_bytes(a4, v4) == le64(text_vaddr) + values_bytes(a5, v5));
    assert(values_bytes(a3, v3) == le32(comp_dir) + values_bytes(a4, v4));
    assert(values_bytes(a2, v2) == le32(name) + values_bytes(a3, v3));
    assert(values_bytes(a1, v1) == le16(DW_LANG_C) + values_bytes(a2, v2));
    assert(values_bytes(a, v) == le32(producer) + values_bytes(a1, v1));
    unit_parts(
        seq![1u8],
        le32(producer),
        le16(DW_LANG_C),
        le32(name),
        le32(comp_dir),
        le64(text_vaddr),
        le64(text_len),
        le32(0),
    );
}

proof fn unit_parts(
    a: Seq<u8>,
    b: Seq<u8>,
    c: Seq<u8>,
    d: Seq<u8>,
    e: Seq<u8>,
    f: Seq<u8>,
    g: Seq<u8>,
    h: Seq<u8>,
)
    ensures
        a + b + c + d + e + f + g + h == a + (b + (c + (d + (e + (f + (g + h)))))),
{
    assert(a + b + c + d + e + f + g + h =~= a + (b + (c + (d + (e + (f + (g + h)))))));
}

/// A function's values come in the order and in the forms that entry 2 of the
/// abbreviations announces.
pub proof fn subprogram_follows_abbrev(f: FnView, name: u32)
    ensures
        fn_die(f, name) == seq![2u8] + values_bytes(
            subprogram_attrs(),
            seq![name as u64, f.low_pc, f.len, f.file as u64, f.decl_line as u64],
        ),
{
    reveal_with_fuel(values_bytes, 6);
    let v = seq![name as u64, f.low_pc, f.len, f.file as u64, f.decl_line as u64];
    assert(fn_die(f, name) =~= seq![2u8] + values_bytes(subprogram_attrs(), v));
}

/// The instruction that stands at `at`, and how many bytes it takes.
pub open spec fn read_op(s: Seq<u8>, at: int) -> (LineOp, nat) {
    let b = s[at];
    if b == 0 {
        if s[at + 2] == DW_LNE_SET_ADDRESS {
            (LineOp::SetAddress(rd64(s, at + 3) as u64), 11)
        } else {
            (LineOp::EndSequence, 3)
        }
    } else if b == DW_LNS_COPY {
        (LineOp::Copy, 1)
    } else if b == DW_LNS_ADVANCE_PC {
        (LineOp::AdvancePc(read_uleb(s, at + 1).0 as u64), 1 + read_uleb(s, at + 1).1)
    } else if b == DW_LNS_ADVANCE_LINE {
        (LineOp::AdvanceLine(read_sleb(s, at + 1).0 as i64), 1 + read_sleb(s, at + 1).1)
    } else if b == DW_LNS_SET_FILE {
        (LineOp::SetFile(read_uleb(s, at + 1).0 as u32), 1 + read_uleb(s, at + 1).1)
    } else {
        (LineOp::Special(b), 1)
    }
}

/// Whether an instruction is one that a sequence holds.
pub open spec fn op_ok(op: LineOp) -> bool {
    match op {
        LineOp::Special(o) => o >= OPCODE_BASE,
        _ => true,
    }
}

/// Every instruction reads back, wherever it stands.
pub proof fn op_reads_back(pre: Seq<u8>, op: LineOp, post: Seq<u8>)
    requires
        op_ok(op),
    ensures
        read_op(pre + op_bytes(op) + post, pre.len() as int) == (op, op_bytes(op).len()),
        op_bytes(op).len() >= 1,
{
    let s = pre + op_bytes(op) + post;
    let at = pre.len() as int;
    assert(s[at] == op_bytes(op)[0]);
    match op {
        LineOp::AdvancePc(n) => {
            uleb_reads_back(pre.push(DW_LNS_ADVANCE_PC), n as nat, post);
            assert(s =~= pre.push(DW_LNS_ADVANCE_PC) + uleb_bytes(n as nat) + post);
        },
        LineOp::AdvanceLine(n) => {
            sleb_reads_back(pre.push(DW_LNS_ADVANCE_LINE), n as int, post);
            assert(s =~= pre.push(DW_LNS_ADVANCE_LINE) + sleb_bytes(n as int) + post);
        },
        LineOp::SetFile(n) => {
            uleb_reads_back(pre.push(DW_LNS_SET_FILE), n as nat, post);
            assert(s =~= pre.push(DW_LNS_SET_FILE) + uleb_bytes(n as nat) + post);
        },
        LineOp::SetAddress(a) => {
            le64_reads_back(a);
            assert(s[at + 2] == DW_LNE_SET_ADDRESS);
            assert(rd32(s, at + 3) == rd32(le64(a), 0));
            assert(rd32(s, at + 7) == rd32(le64(a), 4));
        },
        LineOp::EndSequence => {
            assert(s[at + 2] == DW_LNE_END_SEQUENCE);
        },
        _ => {},
    }
}

/// The instructions whose bytes are `s` from `at` on.
pub open spec fn read_ops(s: Seq<u8>, at: int) -> Seq<LineOp>
    decreases s.len() - at,
{
    if at < 0 || at >= s.len() {
        Seq::empty()
    } else {
        let (op, n) = read_op(s, at);
        seq![op] + (if n >= 1 && at + n <= s.len() {
            read_ops(s, at + n)
        } else {
            Seq::empty()
        })
    }
}

proof fn ops_bytes_front(ops: Seq<LineOp>)
    requires
        ops.len() > 0,
    ensures
        ops_bytes(ops) == op_bytes(ops[0]) + ops_bytes(ops.skip(1)),
{
    ops_bytes_add(seq![ops[0]], ops.skip(1));
    ops_bytes_one(ops[0]);
    assert(seq![ops[0]] + ops.skip(1) =~= ops);
}

proof fn program_reads_back_from(pre: Seq<u8>, ops: Seq<LineOp>)
    requires
        forall|i: int| 0 <= i < ops.len() ==> op_ok(#[trigger] ops[i]),
    ensures
        read_ops(pre + ops_bytes(ops), pre.len() as int) == ops,
    decreases ops.len(),
{
    let s = pre + ops_bytes(ops);
    if ops.len() == 0 {
        assert(read_ops(s, pre.len() as int) =~= ops);
    } else {
        let op = ops[0];
        let rest = ops.skip(1);
        ops_bytes_front(ops);
        op_reads_back(pre, op, ops_bytes(rest));
        assert(s =~= pre + op_bytes(op) + ops_bytes(rest));
        assert forall|i: int| 0 <= i < rest.len() implies op_ok(#[trigger] rest[i]) by {
            assert(ops[i + 1] == rest[i]);
        }
        let next = pre + op_bytes(op);
        program_reads_back_from(next, rest);
        assert(s =~= next + ops_bytes(rest));
        assert(seq![op] + rest =~= ops);
    }
}

/// A line program reads back instruction by instruction.
pub proof fn program_reads_back(ops: Seq<LineOp>)
    requires
        forall|i: int| 0 <= i < ops.len() ==> op_ok(#[trigger] ops[i]),
    ensures
        read_ops(ops_bytes(ops), 0) == ops,
{
    program_reads_back_from(Seq::empty(), ops);
    assert(Seq::<u8>::empty() + ops_bytes(ops) =~= ops_bytes(ops));
}

/// The registers of the machine that runs a line program, and the rows it has
/// appended.
pub struct LineVm {
    pub addr: int,
    pub line: int,
    pub file: int,
    pub rows: Seq<(int, int, int, bool)>,
}

/// The machine at the start of a sequence.
pub open spec fn vm_start() -> LineVm {
    LineVm { addr: 0, line: 1, file: 1, rows: Seq::empty() }
}

/// One step of the machine.
pub open spec fn vm_step(m: LineVm, op: LineOp) -> LineVm {
    match op {
        LineOp::AdvancePc(n) => LineVm { addr: (m.addr + n) % 0x1_0000_0000_0000_0000, ..m },
        LineOp::AdvanceLine(n) => LineVm { line: m.line + n, ..m },
        LineOp::SetFile(n) => LineVm { file: n as int, ..m },
        LineOp::SetAddress(a) => LineVm { addr: a as int, ..m },
        LineOp::Copy => LineVm { rows: m.rows.push((m.addr, m.file, m.line, false)), ..m },
        LineOp::EndSequence => LineVm {
            addr: 0,
            line: 1,
            file: 1,
            rows: m.rows.push((m.addr, m.file, m.line, true)),
        },
        LineOp::Special(o) => {
            let addr = (m.addr + (o - OPCODE_BASE) / 14) % 0x1_0000_0000_0000_0000;
            let line = m.line - 5 + (o - OPCODE_BASE) % 14;
            LineVm { addr, line, file: m.file, rows: m.rows.push((addr, m.file, line, false)) }
        },
    }
}

/// A run of the machine.
pub open spec fn vm_run(m: LineVm, ops: Seq<LineOp>) -> LineVm
    decreases ops.len(),
{
    if ops.len() == 0 {
        m
    } else {
        vm_step(vm_run(m, ops.drop_last()), ops.last())
    }
}

/// The row that the machine should append for `row`.
pub open spec fn row_of(c: Cursor, row: DwRow) -> (int, int, int, bool) {
    if row.end_sequence {
        (row_next(c, row).addr as int, c.file as int, c.line, true)
    } else {
        (row.address as int, row.file as int, row.line as int, false)
    }
}

/// The rows that the machine should append for `rows`.
pub open spec fn rows_of(rows: Seq<DwRow>) -> Seq<(int, int, int, bool)>
    decreases rows.len(),
{
    if rows.len() == 0 {
        Seq::empty()
    } else {
        rows_of(rows.drop_last()).push(row_of(cursor_after(rows.drop_last()), rows.last()))
    }
}

proof fn vm_run_add(m: LineVm, a: Seq<LineOp>, b: Seq<LineOp>)
    ensures
        vm_run(m, a + b) == vm_run(vm_run(m, a), b),
    decreases b.len(),
{
    if b.len() == 0 {
        assert(a + b =~= a);
    } else {
        vm_run_add(m, a, b.drop_last());
        assert((a + b).drop_last() =~= a + b.drop_last());
        assert((a + b).last() == b.last());
    }
}

proof fn vm_run_one(m: LineVm, op: LineOp)
    ensures
        vm_run(m, seq![op]) == vm_step(m, op),
{
    assert(seq![op].drop_last() =~= Seq::empty());
    assert(vm_run(m, seq![op].drop_last()) == m);
}

proof fn vm_maybe(m: LineVm, yes: bool, op: LineOp)
    ensures
        vm_run(
            m,
            if yes {
                seq![op]
            } else {
                Seq::empty()
            },
        ) == (if yes {
            vm_step(m, op)
        } else {
            m
        }),
{
    vm_run_one(m, op);
}

proof fn one_op(op: LineOp)
    ensures
        ops_bytes(seq![op]) == op_bytes(op),
{
    assert(seq![op].drop_last() =~= Seq::empty());
    assert(ops_bytes(seq![op].drop_last()) =~= Seq::empty());
    assert(ops_bytes(seq![op]) =~= op_bytes(op));
}

proof fn row_is_short(daddr: u64, dline: int)
    ensures
        ({
            let code = dline + 5 + 14 * daddr + 13;
            let bytes = ops_bytes(advance_ops(daddr, dline));
            &&& bytes.len() >= 1
            &&& bytes.len() == 1 <==> -5 <= dline <= 8 && code <= 255
            &&& if bytes.len() == 1 {
                bytes[0] == code
            } else {
                bytes.last() == DW_LNS_COPY
            }
        }),
{
    let ops = advance_ops(daddr, dline);
    match special(daddr, dline) {
        Some(o) => {
            one_op(LineOp::Special(o));
        },
        None => {
            assert(ops.last() == LineOp::Copy);
            let front = ops.drop_last();
            assert(ops_bytes(ops) == ops_bytes(front) + seq![DW_LNS_COPY]);
            assert(dline != 0 || daddr != 0);
            assert(front.len() >= 1);
            assert(op_bytes(front.last()).len() >= 1);
        },
    }
}

/// Appending a row moves the machine by the advance and appends exactly that row. It takes one
/// byte just where a special opcode reaches, and ends with a copy everywhere else.
pub proof fn advance_runs(m: LineVm, daddr: u64, dline: int)
    requires
        0 <= m.addr < 0x1_0000_0000_0000_0000,
        i64::MIN <= dline <= i64::MAX,
    ensures
        ({
            let addr = (m.addr + daddr) % 0x1_0000_0000_0000_0000;
            let line = m.line + dline;
            vm_run(m, advance_ops(daddr, dline)) == (LineVm {
                addr,
                line,
                file: m.file,
                rows: m.rows.push((addr, m.file, line, false)),
            })
        }),
        ({
            let code = dline + 5 + 14 * daddr + 13;
            let bytes = ops_bytes(advance_ops(daddr, dline));
            &&& bytes.len() >= 1
            &&& bytes.len() == 1 <==> -5 <= dline <= 8 && code <= 255
            &&& if bytes.len() == 1 {
                bytes[0] == code
            } else {
                bytes.last() == DW_LNS_COPY
            }
        }),
{
    row_is_short(daddr, dline);
    match special(daddr, dline) {
        Some(o) => {
            vm_run_one(m, LineOp::Special(o));
            assert(o - 13 == dline + 5 + 14 * daddr);
            assert((o - 13) / 14 == daddr);
            assert((o - 13) % 14 == dline + 5);
        },
        None => {
            let a: Seq<LineOp> = if dline != 0 {
                seq![LineOp::AdvanceLine(dline as i64)]
            } else {
                Seq::empty()
            };
            let b: Seq<LineOp> = if daddr != 0 {
                seq![LineOp::AdvancePc(daddr)]
            } else {
                Seq::empty()
            };
            let c = seq![LineOp::Copy];
            vm_run_add(m, a + b, c);
            vm_run_add(m, a, b);
            vm_maybe(m, dline != 0, LineOp::AdvanceLine(dline as i64));
            let m1 = vm_run(m, a);
            vm_maybe(m1, daddr != 0, LineOp::AdvancePc(daddr));
            vm_run_one(vm_run(m1, b), LineOp::Copy);
        },
    }
}

proof fn delta_adds(a: u64, b: u64)
    ensures
        (a + addr_delta(a, b)) % 0x1_0000_0000_0000_0000 == b,
{
}

proof fn end_row_runs(m: LineVm, c: Cursor, row: DwRow)
    requires
        m.addr == c.addr,
        m.line == c.line,
        m.file == c.file,
        row.end_sequence,
    ensures
        vm_run(m, row_ops(c, row)).rows == m.rows.push(row_of(c, row)),
{
    let a: Seq<LineOp> = if row.address > c.addr {
        seq![LineOp::AdvancePc((row.address - c.addr) as u64)]
    } else {
        Seq::empty()
    };
    let end = seq![LineOp::EndSequence];
    assert(row_ops(c, row) == a + end);
    vm_run_add(m, a, end);
    vm_maybe(m, row.address > c.addr, LineOp::AdvancePc((row.address - c.addr) as u64));
    let m1 = vm_run(m, a);
    assert(m1.rows == m.rows);
    vm_run_one(m1, LineOp::EndSequence);
}

proof fn row_runs(m: LineVm, c: Cursor, row: DwRow)
    requires
        m.addr == c.addr,
        m.line == c.line,
        m.file == c.file,
        0 <= c.line <= u32::MAX,
        !row.end_sequence,
    ensures
        vm_run(m, row_ops(c, row)) == (LineVm {
            addr: row.address as int,
            line: row.line as int,
            file: row.file as int,
            rows: m.rows.push((row.address as int, row.file as int, row.line as int, false)),
        }),
{
    let a: Seq<LineOp> = if row.file != c.file {
        seq![LineOp::SetFile(row.file)]
    } else {
        Seq::empty()
    };
    let b: Seq<LineOp> = if !c.started {
        seq![LineOp::SetAddress(row.address)]
    } else {
        Seq::empty()
    };
    let daddr: u64 = if c.started {
        addr_delta(c.addr, row.address)
    } else {
        0
    };
    let adv = advance_ops(daddr, row.line - c.line);
    assert(row_ops(c, row) == a + b + adv);
    vm_run_add(m, a + b, adv);
    vm_run_add(m, a, b);
    vm_maybe(m, row.file != c.file, LineOp::SetFile(row.file));
    let m1 = vm_run(m, a);
    vm_maybe(m1, !c.started, LineOp::SetAddress(row.address));
    let m2 = vm_run(m1, b);
    assert(m2.rows == m.rows && m2.file == row.file && m2.line == c.line);
    delta_adds(c.addr, row.address);
    assert((m2.addr + daddr) % 0x1_0000_0000_0000_0000 == row.address);
    advance_runs(m2, daddr, row.line - c.line);
}

proof fn prefix_runs(rows: Seq<DwRow>)
    requires
        forall|i: int| 0 <= i < rows.len() ==> !(#[trigger] rows[i]).end_sequence,
    ensures
        ({
            let m = vm_run(vm_start(), seq_ops(rows));
            let c = cursor_after(rows);
            &&& m.rows == rows_of(rows)
            &&& m.addr == c.addr
            &&& m.line == c.line
            &&& m.file == c.file
            &&& 0 <= c.line <= u32::MAX
        }),
    decreases rows.len(),
{
    if rows.len() > 0 {
        let r0 = rows.drop_last();
        assert forall|i: int| 0 <= i < r0.len() implies !(#[trigger] r0[i]).end_sequence by {
            assert(rows[i] == r0[i]);
        }
        prefix_runs(r0);
        assert(!rows[rows.len() - 1].end_sequence);
        let c = cursor_after(r0);
        vm_run_add(vm_start(), seq_ops(r0), row_ops(c, rows.last()));
        row_runs(vm_run(vm_start(), seq_ops(r0)), c, rows.last());
    }
}

/// Running a sequence's line program gives back exactly its rows: the address,
/// file and line of each, and the closing row at the end address.
pub proof fn sequence_gives_back_rows(rows: Seq<DwRow>)
    requires
        forall|i: int| 0 <= i < rows.len() - 1 ==> !(#[trigger] rows[i]).end_sequence,
    ensures
        vm_run(vm_start(), seq_ops(rows)).rows == rows_of(rows),
        forall|i: int|
            0 <= i < rows.len() && !(#[trigger] rows[i]).end_sequence ==> rows_of(rows)[i] == (
                rows[i].address as int,
                rows[i].file as int,
                rows[i].line as int,
                false,
            ),
{
    if rows.len() > 0 {
        let r0 = rows.drop_last();
        assert forall|i: int| 0 <= i < r0.len() implies !(#[trigger] r0[i]).end_sequence by {
            assert(rows[i] == r0[i]);
        }
        prefix_runs(r0);
        let c = cursor_after(r0);
        vm_run_add(vm_start(), seq_ops(r0), row_ops(c, rows.last()));
        if rows.last().end_sequence {
            end_row_runs(vm_run(vm_start(), seq_ops(r0)), c, rows.last());
        } else {
            row_runs(vm_run(vm_start(), seq_ops(r0)), c, rows.last());
        }
    }
    rows_of_each(rows);
}

proof fn rows_of_each(rows: Seq<DwRow>)
    ensures
        rows_of(rows).len() == rows.len(),
        forall|i: int|
            0 <= i < rows.len() && !(#[trigger] rows[i]).end_sequence ==> rows_of(rows)[i] == (
                rows[i].address as int,
                rows[i].file as int,
                rows[i].line as int,
                false,
            ),
    decreases rows.len(),
{
    if rows.len() > 0 {
        let r0 = rows.drop_last();
        rows_of_each(r0);
        assert forall|i: int| 0 <= i < rows.len() && !(#[trigger] rows[i]).end_sequence implies rows_of(
            rows,
        )[i] == (rows[i].address as int, rows[i].file as int, rows[i].line as int, false) by {
            if i < r0.len() {
                assert(r0[i] == rows[i]);
            }
        }
    }
}

/// Every instruction of a sequence reads back: special opcodes stay clear of
/// the standard ones.
pub proof fn sequence_ops_ok(rows: Seq<DwRow>)
    ensures
        forall|i: int| 0 <= i < seq_ops(rows).len() ==> op_ok(#[trigger] seq_ops(rows)[i]),
    decreases rows.len(),
{
    if rows.len() > 0 {
        sequence_ops_ok(rows.drop_last());
        let a = seq_ops(rows.drop_last());
        let c = cursor_after(rows.drop_last());
        let b = row_ops(c, rows.last());
        assert forall|i: int| 0 <= i < b.len() implies op_ok(#[trigger] b[i]) by {}
        assert forall|i: int| 0 <= i < seq_ops(rows).len() implies op_ok(
            #[trigger] seq_ops(rows)[i],
        ) by {
            if i < a.len() {
                assert(seq_ops(rows)[i] == a[i]);
            } else {
                assert(seq_ops(rows)[i] == b[i - a.len()]);
            }
        }
    }
}

/// The bytes of a sequence's line program, read and run, give back its rows.
pub proof fn line_program_gives_back_rows(rows: Seq<DwRow>)
    requires
        forall|i: int| 0 <= i < rows.len() - 1 ==> !(#[trigger] rows[i]).end_sequence,
    ensures
        vm_run(vm_start(), read_ops(ops_bytes(seq_ops(rows)), 0)).rows == rows_of(rows),
{
    sequence_ops_ok(rows);
    program_reads_back(seq_ops(rows));
    sequence_gives_back_rows(rows);
}

} // verus!
