//! The source lines of code: which instructions each statement became, and where the first of
//! them that optimizing leaves begins.
use vstd::prelude::*;

use crate::encode::AsmState;
use crate::link::LineMark;
use crate::peephole::{Ins, Instr, flat, flat_of_prefix, identity, optimize, optimize_from, views};

verus! {

/// The instructions of a statement, from one and up to another, and its source line.
#[derive(Clone, Copy, PartialEq, Eq, Structural, Debug)]
pub struct LineNote {
    /// The first instruction.
    pub from: usize,
    /// The first instruction behind it.
    pub to: usize,
    /// The line.
    pub line: u32,
}

/// Whether the `k`-th instruction of `s` belongs to a statement and has code; `o` says which
/// instruction each was before optimizing.
pub open spec fn belongs(s: Seq<Ins>, o: Seq<usize>, n: LineNote, k: int) -> bool {
    n.from <= o[k] < n.to && s[k].bytes.len() > 0
}

/// The first instruction of a statement that has code, from the `k`-th of `s` on.
pub open spec fn first_kept(s: Seq<Ins>, o: Seq<usize>, n: LineNote, k: int) -> Option<int>
    decreases s.len() - k,
{
    if k < 0 || k >= s.len() {
        None
    } else if belongs(s, o, n, k) {
        Some(k)
    } else {
        first_kept(s, o, n, k + 1)
    }
}

/// The mark of the code that begins with the `k`-th instruction.
pub open spec fn mark_at(s: Seq<Ins>, k: int, line: u32) -> LineMark {
    LineMark { at: flat(s.take(k)).len() as usize, line }
}

/// The marks of the statements from the `i`-th on: one for each of which any code is left.
pub open spec fn marks_from(s: Seq<Ins>, o: Seq<usize>, notes: Seq<LineNote>, i: int) -> Seq<
    LineMark,
>
    decreases notes.len() - i,
{
    if i < 0 || i >= notes.len() {
        Seq::empty()
    } else {
        let rest = marks_from(s, o, notes, i + 1);
        match first_kept(s, o, notes[i], 0) {
            Some(k) => seq![mark_at(s, k, notes[i].line)] + rest,
            None => rest,
        }
    }
}

/// The instructions that a function ends up with.
pub open spec fn settled_instrs(a: AsmState) -> Seq<Ins> {
    if a.on {
        optimize(a.instrs)
    } else {
        a.instrs
    }
}

/// Which instruction each of those was before optimizing.
pub open spec fn settled_from(a: AsmState) -> Seq<usize> {
    if a.on {
        optimize_from(a.instrs, identity(a.instrs.len()))
    } else {
        identity(a.instrs.len())
    }
}

/// The marks of a function's statements.
pub open spec fn kept_marks(a: AsmState, notes: Seq<LineNote>) -> Seq<LineMark> {
    if a.sealed || a.instrs.len() == 0 {
        Seq::empty()
    } else {
        marks_from(settled_instrs(a), settled_from(a), notes, 0)
    }
}

// ---------------------------------------------------------------------------
//  Laws
// ---------------------------------------------------------------------------

proof fn first_is_first(s: Seq<Ins>, o: Seq<usize>, n: LineNote, k: int)
    requires
        0 <= k,
    ensures
        first_kept(s, o, n, k) matches Some(j) ==> k <= j < s.len() && belongs(s, o, n, j)
            && forall|i: int| k <= i < j ==> !#[trigger] belongs(s, o, n, i),
        first_kept(s, o, n, k) is None ==> forall|i: int|
            k <= i < s.len() ==> !#[trigger] belongs(s, o, n, i),
    decreases s.len() - k,
{
    if k < s.len() && !belongs(s, o, n, k) {
        first_is_first(s, o, n, k + 1);
    }
}

/// Every statement with a line of which any code is left has a mark at the first byte of that
/// code, with its line.
pub proof fn statement_is_marked(
    s: Seq<Ins>,
    o: Seq<usize>,
    notes: Seq<LineNote>,
    i: int,
    k: int,
)
    requires
        0 <= i < notes.len(),
        0 <= k < s.len(),
        belongs(s, o, notes[i], k),
        forall|j: int| 0 <= j < k ==> !#[trigger] belongs(s, o, notes[i], j),
    ensures
        marks_from(s, o, notes, 0).contains(mark_at(s, k, notes[i].line)),
{
    first_is_first(s, o, notes[i], 0);
    marked_from(s, o, notes, 0, i, k);
}

proof fn marked_from(s: Seq<Ins>, o: Seq<usize>, notes: Seq<LineNote>, j: int, i: int, k: int)
    requires
        0 <= j <= i < notes.len(),
        first_kept(s, o, notes[i], 0) == Some(k),
    ensures
        marks_from(s, o, notes, j).contains(mark_at(s, k, notes[i].line)),
    decreases i - j,
{
    let all = marks_from(s, o, notes, j);
    let rest = marks_from(s, o, notes, j + 1);
    let m = mark_at(s, k, notes[i].line);
    if j == i {
        assert(all[0] == m);
    } else {
        marked_from(s, o, notes, j + 1, i, k);
        let at = choose|x: int| 0 <= x < rest.len() && rest[x] == m;
        if first_kept(s, o, notes[j], 0) is Some {
            assert(all[at + 1] == m);
        }
    }
}

/// Every mark is that of a statement: it stands where the first code of it that is left
/// begins, within the code.
pub proof fn mark_is_of_a_statement(
    s: Seq<Ins>,
    o: Seq<usize>,
    notes: Seq<LineNote>,
    x: int,
) -> (r: (int, int))
    requires
        0 <= x < marks_from(s, o, notes, 0).len(),
        flat(s).len() <= usize::MAX,
    ensures
        0 <= r.0 < notes.len(),
        0 <= r.1 < s.len(),
        belongs(s, o, notes[r.0], r.1),
        forall|j: int| 0 <= j < r.1 ==> !#[trigger] belongs(s, o, notes[r.0], j),
        marks_from(s, o, notes, 0)[x] == mark_at(s, r.1, notes[r.0].line),
        marks_from(s, o, notes, 0)[x].at < flat(s).len(),
{
    of_a_statement(s, o, notes, 0, x)
}

proof fn of_a_statement(
    s: Seq<Ins>,
    o: Seq<usize>,
    notes: Seq<LineNote>,
    i: int,
    x: int,
) -> (r: (int, int))
    requires
        0 <= i,
        0 <= x < marks_from(s, o, notes, i).len(),
        flat(s).len() <= usize::MAX,
    ensures
        i <= r.0 < notes.len(),
        0 <= r.1 < s.len(),
        belongs(s, o, notes[r.0], r.1),
        forall|j: int| 0 <= j < r.1 ==> !#[trigger] belongs(s, o, notes[r.0], j),
        marks_from(s, o, notes, i)[x] == mark_at(s, r.1, notes[r.0].line),
        marks_from(s, o, notes, i)[x].at < flat(s).len(),
    decreases notes.len() - i,
{
    let rest = marks_from(s, o, notes, i + 1);
    first_is_first(s, o, notes[i], 0);
    match first_kept(s, o, notes[i], 0) {
        Some(k) => {
            if x == 0 {
                flat_of_prefix(s, k);
                (i, k)
            } else {
                assert(marks_from(s, o, notes, i)[x] == rest[x - 1]);
                of_a_statement(s, o, notes, i + 1, x - 1)
            }
        },
        None => of_a_statement(s, o, notes, i + 1, x),
    }
}

/// There are no more marks than statements.
pub proof fn marks_are_few(s: Seq<Ins>, o: Seq<usize>, notes: Seq<LineNote>, i: int)
    requires
        0 <= i <= notes.len(),
    ensures
        marks_from(s, o, notes, i).len() <= notes.len() - i,
    decreases notes.len() - i,
{
    if i < notes.len() {
        marks_are_few(s, o, notes, i + 1);
    }
}

// ---------------------------------------------------------------------------
//  Finding them
// ---------------------------------------------------------------------------

fn first_mark(instrs: &Vec<Instr>, from: &Vec<usize>, n: LineNote) -> (r: Option<usize>)
    requires
        from@.len() == instrs@.len(),
        flat(views(instrs@)).len() <= usize::MAX,
    ensures
        match (r, first_kept(views(instrs@), from@, n, 0)) {
            (Some(at), Some(k)) => at == flat(views(instrs@).take(k)).len(),
            (None, None) => true,
            _ => false,
        },
{
    let ghost s = views(instrs@);
    let mut at: usize = 0;
    let mut k: usize = 0;
    assert(s.take(0) =~= Seq::empty());
    while k < instrs.len()
        invariant
            s == views(instrs@),
            from@.len() == instrs@.len(),
            flat(s).len() <= usize::MAX,
            k <= instrs@.len(),
            at == flat(s.take(k as int)).len(),
            first_kept(s, from@, n, 0) == first_kept(s, from@, n, k as int),
        decreases instrs@.len() - k,
    {
        assert(s[k as int] == instrs@[k as int]@);
        let len: usize = instrs[k].bytes.len();
        if n.from <= from[k] && from[k] < n.to && len > 0 {
            return Some(at);
        }
        proof {
            flat_of_prefix(s, k as int);
        }
        at = at + len;
        k = k + 1;
    }
    None
}

/// The marks of the statements whose instructions `notes` gives.
pub(crate) fn surviving(
    instrs: &Vec<Instr>,
    from: &Vec<usize>,
    notes: &Vec<LineNote>,
) -> (marks: Vec<LineMark>)
    requires
        from@.len() == instrs@.len(),
        flat(views(instrs@)).len() <= usize::MAX,
    ensures
        marks@ == marks_from(views(instrs@), from@, notes@, 0),
{
    let ghost s = views(instrs@);
    let mut marks: Vec<LineMark> = Vec::new();
    let mut i: usize = 0;
    assert(marks@ + marks_from(s, from@, notes@, 0) =~= marks_from(s, from@, notes@, 0));
    while i < notes.len()
        invariant
            s == views(instrs@),
            from@.len() == instrs@.len(),
            flat(s).len() <= usize::MAX,
            i <= notes@.len(),
            marks@ + marks_from(s, from@, notes@, i as int) == marks_from(s, from@, notes@, 0),
        decreases notes@.len() - i,
    {
        let ghost before = marks@;
        let ghost rest = marks_from(s, from@, notes@, i + 1);
        match first_mark(instrs, from, notes[i]) {
            Some(at) => {
                let m = LineMark { at, line: notes[i].line };
                marks.push(m);
                assert(before + (seq![m] + rest) =~= marks@ + rest);
            },
            None => {},
        }
        i = i + 1;
    }
    assert(marks@ + Seq::<LineMark>::empty() =~= marks@);
    marks
}

} // verus!
