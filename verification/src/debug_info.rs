//! The debug information of a linked program.
use vstd::prelude::*;

use crate::dwarf;
use crate::dwarf::{DwFile, DwFn, DwRow, DwSeq, DwarfInput, DwarfView, FileView, FnView};
use crate::elf::DebugSections;
use crate::link::{LineMark, LoweredFn, LoweredView, codes, lowered_views};
use crate::mir::MirProgram;
use crate::text::{base_of, basename, same_str};

verus! {

/// A run of lines of the merged source that came from one file.
pub struct SegView {
    /// The first merged line.
    pub start: u32,
    /// The number of lines.
    pub count: u32,
    /// The file.
    pub file: Seq<char>,
    /// The line of the file that the first one is.
    pub file_start: u32,
}

/// A map from lines of a merged source back to files and lines.
pub struct DwarfSourceMap {
    segments: Vec<(u32, u32, String, u32)>,
}

/// What a list of segments holds.
pub open spec fn segment_views(v: Seq<(u32, u32, String, u32)>) -> Seq<SegView> {
    Seq::new(
        v.len(),
        |i: int| SegView { start: v[i].0, count: v[i].1, file: v[i].2@, file_start: v[i].3 },
    )
}

impl View for DwarfSourceMap {
    type V = Seq<SegView>;

    closed spec fn view(&self) -> Seq<SegView> {
        segment_views(self.segments@)
    }
}

/// Whether every line of the segments is a 32-bit number.
pub open spec fn segments_ok(s: Seq<SegView>) -> bool {
    forall|i: int| 0 <= i < s.len() ==> (#[trigger] s[i]).file_start + s[i].count <= 0x1_0000_0000
}

/// The file and line that a merged line came from: that of the first segment, from
/// the `i`-th on, that covers it.
pub open spec fn resolve_line(s: Seq<SegView>, i: int, line: u32) -> Option<(Seq<char>, u32)>
    decreases s.len() - i,
{
    if i < 0 || i >= s.len() {
        None
    } else if s[i].start <= line < s[i].start + s[i].count {
        Some((s[i].file, (s[i].file_start + (line - s[i].start)) as u32))
    } else {
        resolve_line(s, i + 1, line)
    }
}

impl DwarfSourceMap {
    /// A map of segments (first merged line, number of lines, file, first line in
    /// the file), the first one that covers a line deciding.
    pub fn from_segments(segments: Vec<(u32, u32, String, u32)>) -> (r: DwarfSourceMap)
        ensures
            r@ == segment_views(segments@),
    {
        DwarfSourceMap { segments }
    }

    /// Whether the last line of every segment has a number.
    pub fn fits(&self) -> (r: bool)
        ensures
            r == segments_ok(self@),
    {
        let mut i: usize = 0;
        while i < self.segments.len()
            invariant
                i <= self.segments@.len(),
                forall|k: int|
                    0 <= k < i ==> (#[trigger] self@[k]).file_start + self@[k].count
                        <= 0x1_0000_0000,
            decreases self.segments@.len() - i,
        {
            let seg = &self.segments[i];
            if seg.3 as u64 + seg.1 as u64 > 0x1_0000_0000 {
                assert(!(self@[i as int].file_start + self@[i as int].count <= 0x1_0000_0000));
                return false;
            }
            assert(self@[i as int].file_start + self@[i as int].count <= 0x1_0000_0000);
            i = i + 1;
        }
        true
    }

    /// Whether there is no segment.
    pub fn is_empty(&self) -> (r: bool)
        ensures
            r == (self@.len() == 0),
    {
        self.segments.len() == 0
    }

    /// The file and line that a merged line came from.
    fn resolve(&self, line: u32) -> (r: Option<(&str, u32)>)
        requires
            segments_ok(self@),
        ensures
            match r {
                Some((f, l)) => resolve_line(self@, 0, line) == Some((f@, l)),
                None => resolve_line(self@, 0, line) is None,
            },
    {
        let mut i: usize = 0;
        while i < self.segments.len()
            invariant
                segments_ok(self@),
                i <= self.segments@.len(),
                resolve_line(self@, 0, line) == resolve_line(self@, i as int, line),
            decreases self.segments@.len() - i,
        {
            let start: u32 = self.segments[i].0;
            let count: u32 = self.segments[i].1;
            assert(self@[i as int].start == start && self@[i as int].count == count);
            if line >= start && line - start < count {
                let at: u32 = self.segments[i].3 + (line - start);
                return Some((self.segments[i].2.as_str(), at));
            }
            i = i + 1;
        }
        None
    }
}

/// What debug information is made from besides the program.
pub struct DebugCtx {
    /// What made the code.
    pub producer: String,
    /// The path of the source.
    pub src_path: String,
    /// The directory of the compilation.
    pub comp_dir: String,
    /// The map of the merged source.
    pub source_map: DwarfSourceMap,
}

// ---------------------------------------------------------------------------
//  The file table
// ---------------------------------------------------------------------------

/// The position of `name` in the table, from `i` on.
pub open spec fn find_path(paths: Seq<Seq<char>>, name: Seq<char>, i: int) -> Option<int>
    decreases paths.len() - i,
{
    if i < 0 || i >= paths.len() {
        None
    } else if paths[i] == name {
        Some(i)
    } else {
        find_path(paths, name, i + 1)
    }
}

/// A table of the primary source alone, which is both entry 0 and entry 1.
pub open spec fn new_table(primary: Seq<char>) -> Seq<Seq<char>> {
    seq![base_of(primary), base_of(primary)]
}

/// The table after a file was looked up.
pub open spec fn table_with(paths: Seq<Seq<char>>, display: Seq<char>) -> Seq<Seq<char>> {
    match find_path(paths, base_of(display), 1) {
        Some(_) => paths,
        None => paths.push(base_of(display)),
    }
}

/// The index that a file is referred to by; never that of entry 0.
pub open spec fn file_index(paths: Seq<Seq<char>>, display: Seq<char>) -> u32 {
    match find_path(paths, base_of(display), 1) {
        Some(i) => i as u32,
        None => paths.len() as u32,
    }
}

/// Files in order of their index.
struct FileTable {
    paths: Vec<String>,
}

impl FileTable {
    spec fn names(&self) -> Seq<Seq<char>> {
        crate::text::string_views(self.paths@)
    }

    fn new(primary: &str) -> (r: FileTable)
        ensures
            r.names() == new_table(primary@),
    {
        let name = basename(primary);
        let mut paths: Vec<String> = Vec::new();
        paths.push(String::from_str(name));
        paths.push(String::from_str(name));
        let r = FileTable { paths };
        assert(r.names() =~= new_table(primary@));
        r
    }

    fn intern(&mut self, display: &str) -> (idx: u32)
        requires
            2 <= old(self).names().len() < u32::MAX,
        ensures
            final(self).names() == table_with(old(self).names(), display@),
            idx == file_index(old(self).names(), display@),
            idx >= 1,
    {
        let name = basename(display);
        let ghost names = self.names();
        let mut i: usize = 1;
        while i < self.paths.len()
            invariant
                1 <= i <= self.paths@.len() < u32::MAX,
                self.names() == names,
                names == old(self).names(),
                name@ == base_of(display@),
                find_path(names, name@, 1) == find_path(names, name@, i as int),
            decreases self.paths@.len() - i,
        {
            if same_str(self.paths[i].as_str(), name) {
                assert(names[i as int] == name@);
                return i as u32;
            }
            assert(names[i as int] != name@);
            i = i + 1;
        }
        let idx: u32 = self.paths.len() as u32;
        self.paths.push(String::from_str(name));
        assert(self.names() =~= names.push(name@));
        idx
    }

    fn primary_index(&self) -> (r: u32)
        ensures
            r == 1,
    {
        1
    }

    fn into_files(self) -> (r: Vec<DwFile>)
        ensures
            r@.len() == self.names().len(),
            forall|i: int|
                0 <= i < r@.len() ==> (#[trigger] r@[i])@ == (FileView {
                    path: self.names()[i],
                    dir_index: 0,
                }),
    {
        let mut out: Vec<DwFile> = Vec::new();
        let mut i: usize = 0;
        while i < self.paths.len()
            invariant
                i <= self.paths@.len(),
                out@.len() == i,
                forall|k: int|
                    0 <= k < i ==> (#[trigger] out@[k])@ == (FileView {
                        path: self.names()[k],
                        dir_index: 0,
                    }),
            decreases self.paths@.len() - i,
        {
            out.push(DwFile { path: String::from_str(self.paths[i].as_str()), dir_index: 0 });
            i = i + 1;
        }
        out
    }
}

// ---------------------------------------------------------------------------
//  Functions and lines
// ---------------------------------------------------------------------------

/// A line, the file it is in, and the file table.
pub struct Place {
    pub paths: Seq<Seq<char>>,
    pub file: u32,
    pub line: u32,
}

/// Where a merged line came from; the primary source where the map does not say.
pub open spec fn locate(s: Seq<SegView>, paths: Seq<Seq<char>>, line: u32) -> Place {
    match resolve_line(s, 0, line) {
        Some((f, l)) => Place { paths: table_with(paths, f), file: file_index(paths, f), line: l },
        None => Place { paths, file: 1, line },
    }
}

/// Rows under construction.
pub struct Rows {
    pub paths: Seq<Seq<char>>,
    pub rows: Seq<DwRow>,
}

/// The rows of a function's line marks.
pub open spec fn mark_rows(
    s: Seq<SegView>,
    paths: Seq<Seq<char>>,
    low_pc: u64,
    marks: Seq<LineMark>,
) -> Rows
    decreases marks.len(),
{
    if marks.len() == 0 {
        Rows { paths, rows: Seq::empty() }
    } else {
        let before = mark_rows(s, paths, low_pc, marks.drop_last());
        let p = locate(s, before.paths, marks.last().line);
        Rows {
            paths: p.paths,
            rows: before.rows.push(
                DwRow {
                    address: (low_pc + marks.last().at) as u64,
                    file: p.file,
                    line: p.line,
                    end_sequence: false,
                },
            ),
        }
    }
}

/// The debug information of the functions so far.
pub struct Units {
    pub paths: Seq<Seq<char>>,
    pub funcs: Seq<FnView>,
    pub lines: Seq<Seq<DwRow>>,
}

/// The rows of one function: those of its marks, or its declaration where it has
/// none.
pub open spec fn fn_rows(s: Seq<SegView>, decl: Place, low_pc: u64, l: LoweredView) -> Rows {
    if l.marks.len() == 0 {
        Rows {
            paths: decl.paths,
            rows: if decl.line != 0 {
                seq![
                    DwRow {
                        address: low_pc,
                        file: decl.file,
                        line: decl.line,
                        end_sequence: false,
                    },
                ]
            } else {
                Seq::empty()
            },
        }
    } else {
        mark_rows(s, decl.paths, low_pc, l.marks)
    }
}

/// One more function.
pub open spec fn add_fn(
    s: Seq<SegView>,
    u: Units,
    name: Seq<char>,
    line: u32,
    low_pc: u64,
    l: LoweredView,
) -> Units {
    let decl = locate(s, u.paths, line);
    let r = fn_rows(s, decl, low_pc, l);
    Units {
        paths: r.paths,
        funcs: u.funcs.push(
            FnView {
                name,
                low_pc,
                len: l.code.len() as u64,
                file: decl.file,
                decl_line: decl.line,
            },
        ),
        lines: if r.rows.len() == 0 {
            u.lines
        } else {
            u.lines.push(
                r.rows.push(
                    DwRow {
                        address: (low_pc + l.code.len()) as u64,
                        file: r.rows.last().file,
                        line: 0,
                        end_sequence: true,
                    },
                ),
            )
        },
    }
}

/// The debug information of all functions, the first at offset `start` of the text.
pub open spec fn units(
    prog: MirProgram,
    s: Seq<SegView>,
    primary: Seq<char>,
    vaddr: u64,
    start: nat,
    fns: Seq<LoweredView>,
) -> Units
    decreases fns.len(),
{
    if fns.len() == 0 {
        Units { paths: new_table(primary), funcs: Seq::empty(), lines: Seq::empty() }
    } else {
        let before = units(prog, s, primary, vaddr, start, fns.drop_last());
        let f = prog.funcs@[fns.last().id.0 as int];
        add_fn(
            s,
            before,
            f.name@,
            f.line,
            (vaddr + start + codes(fns.drop_last()).len()) as u64,
            fns.last(),
        )
    }
}

/// The input of the DWARF writer for a linked program.
pub open spec fn dwarf_of(
    prog: MirProgram,
    fns: Seq<LoweredView>,
    start: nat,
    text_len: u64,
    vaddr: u64,
    ctx: DebugCtx,
) -> DwarfView {
    let u = units(prog, ctx.source_map@, base_of(ctx.src_path@), vaddr, start, fns);
    DwarfView {
        producer: ctx.producer@,
        files: Seq::new(u.paths.len(), |i: int| FileView { path: u.paths[i], dir_index: 0 }),
        comp_dir: ctx.comp_dir@,
        text_vaddr: vaddr,
        text_len,
        funcs: u.funcs,
        lines: u.lines,
    }
}

/// Whether the lowered functions are functions of the program, with marks within
/// their code.
pub open spec fn marks_ok(prog: MirProgram, fns: Seq<LoweredView>) -> bool {
    forall|i: int|
        0 <= i < fns.len() ==> (#[trigger] fns[i]).id.0 < prog.funcs@.len() && forall|k: int|
            0 <= k < fns[i].marks.len() ==> (#[trigger] fns[i].marks[k]).at <= fns[i].code.len()
}

/// The number of line marks.
pub open spec fn mark_count(fns: Seq<LoweredView>) -> nat
    decreases fns.len(),
{
    if fns.len() == 0 {
        0
    } else {
        mark_count(fns.drop_last()) + fns.last().marks.len() + 1
    }
}

fn locate_line(map: &DwarfSourceMap, line: u32, files: &mut FileTable) -> (r: (u32, u32))
    requires
        segments_ok(map@),
        2 <= old(files).names().len() < u32::MAX,
    ensures
        ({
            let p = locate(map@, old(files).names(), line);
            final(files).names() == p.paths && r == (p.file, p.line)
        }),
        old(files).names().len() <= final(files).names().len() <= old(files).names().len() + 1,
{
    match map.resolve(line) {
        Some((file, at)) => (files.intern(file), at),
        None => (files.primary_index(), line),
    }
}

fn marks_to_rows(
    map: &DwarfSourceMap,
    files: &mut FileTable,
    low_pc: u64,
    marks: &Vec<LineMark>,
) -> (rows: Vec<DwRow>)
    requires
        segments_ok(map@),
        2 <= old(files).names().len(),
        old(files).names().len() + marks@.len() < u32::MAX,
        forall|k: int| 0 <= k < marks@.len() ==> low_pc + (#[trigger] marks@[k]).at <= u64::MAX,
    ensures
        ({
            let r = mark_rows(map@, old(files).names(), low_pc, marks@);
            final(files).names() == r.paths && rows@ == r.rows
        }),
        old(files).names().len() <= final(files).names().len() <= old(files).names().len()
            + marks@.len(),
{
    let ghost names = files.names();
    let mut rows: Vec<DwRow> = Vec::new();
    let mut i: usize = 0;
    assert(marks@.take(0) =~= Seq::empty());
    assert(rows@ =~= Seq::empty());
    while i < marks.len()
        invariant
            segments_ok(map@),
            i <= marks@.len(),
            2 <= names.len() <= files.names().len() <= names.len() + i,
            names.len() + marks@.len() < u32::MAX,
            forall|k: int| 0 <= k < marks@.len() ==> low_pc + (#[trigger] marks@[k]).at <= u64::MAX,
            ({
                let r = mark_rows(map@, names, low_pc, marks@.take(i as int));
                files.names() == r.paths && rows@ == r.rows
            }),
        decreases marks@.len() - i,
    {
        let m: LineMark = marks[i];
        proof {
            let t = marks@.take(i + 1);
            assert(t.drop_last() =~= marks@.take(i as int));
            assert(t.last() == m);
            assert(marks@[i as int] == m);
        }
        let (file, line): (u32, u32) = locate_line(map, m.line, files);
        rows.push(DwRow { address: low_pc + m.at as u64, file, line, end_sequence: false });
        i = i + 1;
    }
    assert(marks@.take(i as int) =~= marks@);
    rows
}

fn add_function(
    map: &DwarfSourceMap,
    files: &mut FileTable,
    funcs: &mut Vec<DwFn>,
    lines: &mut Vec<DwSeq>,
    name: &str,
    line: u32,
    low_pc: u64,
    lf: &LoweredFn,
)
    requires
        segments_ok(map@),
        2 <= old(files).names().len(),
        old(files).names().len() + lf@.marks.len() + 1 < u32::MAX,
        low_pc + lf@.code.len() <= u64::MAX,
        forall|k: int|
            0 <= k < lf@.marks.len() ==> (#[trigger] lf@.marks[k]).at <= lf@.code.len(),
    ensures
        ({
            let u = Units {
                paths: old(files).names(),
                funcs: fn_views(old(funcs)@),
                lines: seq_views(old(lines)@),
            };
            let v = add_fn(map@, u, name@, line, low_pc, lf@);
            &&& final(files).names() == v.paths
            &&& fn_views(final(funcs)@) == v.funcs
            &&& seq_views(final(lines)@) == v.lines
        }),
        old(files).names().len() <= final(files).names().len() <= old(files).names().len()
            + lf@.marks.len() + 1,
{
    let ghost u = Units {
        paths: files.names(),
        funcs: fn_views(funcs@),
        lines: seq_views(lines@),
    };
    let ghost v = add_fn(map@, u, name@, line, low_pc, lf@);
    let len: u64 = lf.code.len() as u64;
    let (decl_file, decl_line): (u32, u32) = locate_line(map, line, files);
    let ghost decl = locate(map@, u.paths, line);
    funcs.push(
        DwFn { name: String::from_str(name), low_pc, len, file: decl_file, decl_line },
    );
    assert(fn_views(funcs@) =~= v.funcs);
    let mut rows: Vec<DwRow> = Vec::new();
    if lf.line_marks.len() == 0 {
        if decl_line != 0 {
            rows.push(
                DwRow { address: low_pc, file: decl_file, line: decl_line, end_sequence: false },
            );
        }
    } else {
        proof {
            assert forall|k: int| 0 <= k < lf.line_marks@.len() implies low_pc + (
            #[trigger] lf.line_marks@[k]).at <= u64::MAX by {
                assert(lf@.marks[k].at <= lf@.code.len());
            }
        }
        rows = marks_to_rows(map, files, low_pc, &lf.line_marks);
    }
    assert(rows@ =~= fn_rows(map@, decl, low_pc, lf@).rows);
    if rows.len() > 0 {
        let last_file: u32 = rows[rows.len() - 1].file;
        rows.push(
            DwRow { address: low_pc + len, file: last_file, line: 0, end_sequence: true },
        );
        lines.push(DwSeq { rows });
    }
    assert(seq_views(lines@) =~= v.lines);
}

/// What a list of functions holds.
pub open spec fn fn_views(v: Seq<DwFn>) -> Seq<FnView> {
    Seq::new(v.len(), |i: int| v[i]@)
}

/// What a list of sequences holds.
pub open spec fn seq_views(v: Seq<DwSeq>) -> Seq<Seq<DwRow>> {
    Seq::new(v.len(), |i: int| v[i].rows@)
}

proof fn code_grows(fns: Seq<LoweredView>, i: int)
    requires
        0 <= i <= fns.len(),
    ensures
        codes(fns.take(i)).len() <= codes(fns).len(),
        mark_count(fns.take(i)) <= mark_count(fns),
    decreases fns.len(),
{
    if i == fns.len() {
        assert(fns.take(i) =~= fns);
    } else {
        code_grows(fns.drop_last(), i);
        assert(fns.drop_last().take(i) =~= fns.take(i));
    }
}

/// Builds the debug sections of a linked program whose functions start at `start`.
pub fn build_dwarf(
    prog: &MirProgram,
    lowered: &Vec<LoweredFn>,
    start: usize,
    text_len: u64,
    text_vaddr: u64,
    ctx: &DebugCtx,
) -> (r: DebugSections)
    requires
        segments_ok(ctx.source_map@),
        marks_ok(*prog, lowered_views(lowered@)),
        mark_count(lowered_views(lowered@)) < 0xFFFF_FFF0,
        text_vaddr + start + codes(lowered_views(lowered@)).len() <= u64::MAX,
    ensures
        r@ == dwarf::sections(
            dwarf_of(
                *prog,
                lowered_views(lowered@),
                start as nat,
                text_len,
                text_vaddr,
                *ctx,
            ),
        ),
{
    let ghost fns = lowered_views(lowered@);
    let ghost segs = ctx.source_map@;
    let ghost primary = base_of(ctx.src_path@);
    let mut files = FileTable::new(basename(ctx.src_path.as_str()));
    let mut funcs: Vec<DwFn> = Vec::new();
    let mut lines: Vec<DwSeq> = Vec::new();
    let mut off: u64 = start as u64;
    let mut i: usize = 0;
    proof {
        assert(fns.take(0) =~= Seq::empty());
        assert(fn_views(funcs@) =~= Seq::empty());
        assert(seq_views(lines@) =~= Seq::empty());
    }
    while i < lowered.len()
        invariant
            fns == lowered_views(lowered@),
            segs == ctx.source_map@,
            segments_ok(segs),
            marks_ok(*prog, fns),
            mark_count(fns) < 0xFFFF_FFF0,
            text_vaddr + start + codes(fns).len() <= u64::MAX,
            i <= fns.len(),
            off == start + codes(fns.take(i as int)).len(),
            2 <= files.names().len() <= 2 + mark_count(fns.take(i as int)),
            ({
                let u = units(*prog, segs, primary, text_vaddr, start as nat, fns.take(i as int));
                &&& files.names() == u.paths
                &&& fn_views(funcs@) == u.funcs
                &&& seq_views(lines@) == u.lines
            }),
        decreases fns.len() - i,
    {
        proof {
            let t = fns.take(i + 1);
            assert(t.drop_last() =~= fns.take(i as int));
            assert(t.last() == fns[i as int]);
            code_grows(fns, i + 1);
            assert(fns[i as int].id.0 < prog.funcs@.len());
        }
        let k: usize = lowered[i].id.0 as usize;
        add_function(
            &ctx.source_map,
            &mut files,
            &mut funcs,
            &mut lines,
            prog.funcs[k].name.as_str(),
            prog.funcs[k].line,
            text_vaddr + off,
            &lowered[i],
        );
        off = off + lowered[i].code.len() as u64;
        i = i + 1;
    }
    assert(fns.take(i as int) =~= fns);
    let ghost names = files.names();
    let input = DwarfInput {
        producer: ctx.producer.as_str(),
        files: files.into_files(),
        comp_dir: ctx.comp_dir.as_str(),
        text_vaddr,
        text_len,
        funcs,
        lines,
    };
    proof {
        let d = dwarf_of(*prog, fns, start as nat, text_len, text_vaddr, *ctx);
        assert(input@.files =~= d.files);
        assert(input@.funcs =~= d.funcs);
        assert(input@.lines =~= d.lines);
    }
    dwarf::build(&input)
}

// ---------------------------------------------------------------------------
//  Laws
// ---------------------------------------------------------------------------

proof fn find_path_from(paths: Seq<Seq<char>>, name: Seq<char>, i: int)
    requires
        0 <= i,
    ensures
        find_path(paths, name, i) matches Some(k) ==> i <= k < paths.len() && paths[k] == name,
    decreases paths.len() - i,
{
    if i < paths.len() && paths[i] != name {
        find_path_from(paths, name, i + 1);
    }
}

/// A file is never referred to by index 0, its entry holds its base name, and
/// looking it up again gives the same index.
pub proof fn file_index_stable(paths: Seq<Seq<char>>, display: Seq<char>)
    requires
        2 <= paths.len() < u32::MAX,
    ensures
        file_index(paths, display) >= 1,
        table_with(paths, display)[file_index(paths, display) as int] == base_of(display),
        file_index(table_with(paths, display), display) == file_index(paths, display),
        table_with(table_with(paths, display), display) == table_with(paths, display),
{
    let name = base_of(display);
    find_path_from(paths, name, 1);
    if find_path(paths, name, 1) is None {
        find_in_pushed(paths, name, 1);
    }
}

proof fn find_in_pushed(paths: Seq<Seq<char>>, name: Seq<char>, i: int)
    requires
        0 <= i <= paths.len(),
        find_path(paths, name, i) is None,
    ensures
        find_path(paths.push(name), name, i) == Some(paths.len() as int),
    decreases paths.len() - i,
{
    if i < paths.len() {
        assert(paths.push(name)[i] == paths[i]);
        find_in_pushed(paths, name, i + 1);
    } else {
        assert(paths.push(name)[i] == name);
    }
}

/// Every line sequence ends with its one closing row.
pub proof fn sequences_close_once(
    prog: MirProgram,
    s: Seq<SegView>,
    primary: Seq<char>,
    vaddr: u64,
    start: nat,
    fns: Seq<LoweredView>,
    i: int,
)
    requires
        0 <= i < units(prog, s, primary, vaddr, start, fns).lines.len(),
    ensures
        ({
            let rows = units(prog, s, primary, vaddr, start, fns).lines[i];
            &&& rows.len() >= 2
            &&& rows.last().end_sequence
            &&& forall|k: int| 0 <= k < rows.len() - 1 ==> !(#[trigger] rows[k]).end_sequence
        }),
    decreases fns.len(),
{
    if fns.len() > 0 {
        let before = units(prog, s, primary, vaddr, start, fns.drop_last());
        let all = units(prog, s, primary, vaddr, start, fns);
        if i < before.lines.len() {
            sequences_close_once(prog, s, primary, vaddr, start, fns.drop_last(), i);
            assert(all.lines[i] == before.lines[i]);
        } else {
            let f = prog.funcs@[fns.last().id.0 as int];
            let low_pc = (vaddr + start + codes(fns.drop_last()).len()) as u64;
            let decl = locate(s, before.paths, f.line);
            mark_rows_open(s, decl.paths, low_pc, fns.last().marks);
            let r = fn_rows(s, decl, low_pc, fns.last()).rows;
            let rows = all.lines[i];
            assert forall|k: int| 0 <= k < rows.len() - 1 implies !(
            #[trigger] rows[k]).end_sequence by {
                assert(rows[k] == r[k]);
            }
        }
    }
}

proof fn mark_rows_open(
    s: Seq<SegView>,
    paths: Seq<Seq<char>>,
    low_pc: u64,
    marks: Seq<LineMark>,
)
    ensures
        mark_rows(s, paths, low_pc, marks).rows.len() == marks.len(),
        forall|k: int|
            0 <= k < marks.len() ==> !(#[trigger] mark_rows(
                s,
                paths,
                low_pc,
                marks,
            ).rows[k]).end_sequence,
    decreases marks.len(),
{
    if marks.len() > 0 {
        mark_rows_open(s, paths, low_pc, marks.drop_last());
    }
}

/// Every line mark of a function has a row of its own, at its address, with the line that the
/// source map gives for it.
pub proof fn mark_has_its_row(
    s: Seq<SegView>,
    paths: Seq<Seq<char>>,
    low_pc: u64,
    marks: Seq<LineMark>,
    k: int,
)
    requires
        0 <= k < marks.len(),
    ensures
        mark_rows(s, paths, low_pc, marks).rows.len() == marks.len(),
        ({
            let row = mark_rows(s, paths, low_pc, marks).rows[k];
            &&& row.address == (low_pc + marks[k].at) as u64
            &&& row.line == mapped_line(s, marks[k].line)
            &&& !row.end_sequence
        }),
    decreases marks.len(),
{
    mark_rows_open(s, paths, low_pc, marks);
    mark_rows_open(s, paths, low_pc, marks.drop_last());
    if k < marks.len() - 1 {
        mark_has_its_row(s, paths, low_pc, marks.drop_last(), k);
        assert(marks.drop_last()[k] == marks[k]);
    }
}

/// The line that the source map gives for a merged line.
pub open spec fn mapped_line(s: Seq<SegView>, line: u32) -> u32 {
    match resolve_line(s, 0, line) {
        Some((_, l)) => l,
        None => line,
    }
}

/// Every line mark of every function has a row of its own in the line table, at its address
/// in the text; the result says in which sequence and where.
pub proof fn mark_is_in_the_table(
    prog: MirProgram,
    s: Seq<SegView>,
    primary: Seq<char>,
    vaddr: u64,
    start: nat,
    fns: Seq<LoweredView>,
    f: int,
    k: int,
) -> (r: (int, int))
    requires
        0 <= f < fns.len(),
        0 <= k < fns[f].marks.len(),
    ensures
        ({
            let lines = units(prog, s, primary, vaddr, start, fns).lines;
            let low_pc = (vaddr + start + codes(fns.take(f)).len()) as u64;
            let m = fns[f].marks[k];
            &&& 0 <= r.0 < lines.len()
            &&& 0 <= r.1 < lines[r.0].len()
            &&& lines[r.0][r.1].address == (low_pc + m.at) as u64
            &&& lines[r.0][r.1].line == mapped_line(s, m.line)
            &&& !lines[r.0][r.1].end_sequence
        }),
    decreases fns.len(),
{
    let before = units(prog, s, primary, vaddr, start, fns.drop_last());
    let all = units(prog, s, primary, vaddr, start, fns);
    if f < fns.len() - 1 {
        assert(fns.drop_last().take(f) =~= fns.take(f));
        let r = mark_is_in_the_table(
            prog,
            s,
            primary,
            vaddr,
            start,
            fns.drop_last(),
            f,
            k,
        );
        assert(all.lines[r.0] == before.lines[r.0]);
        r
    } else {
        assert(fns.drop_last() =~= fns.take(f));
        let g = prog.funcs@[fns.last().id.0 as int];
        let low_pc = (vaddr + start + codes(fns.drop_last()).len()) as u64;
        let decl = locate(s, before.paths, g.line);
        mark_has_its_row(s, decl.paths, low_pc, fns[f].marks, k);
        let rows = fn_rows(s, decl, low_pc, fns.last()).rows;
        assert(all.lines[before.lines.len() as int][k] == rows[k]);
        (before.lines.len() as int, k)
    }
}

} // verus!
