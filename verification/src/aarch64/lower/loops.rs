//! Where lowered code goes when branches go back: a processor with a place in the code.
use vstd::prelude::*;

use crate::aarch64::encode::{A64State, Branch, BranchKind};
use crate::aarch64::fields::bits_at;
use crate::aarch64::lower::effects::takes;
use crate::aarch64::lower::env::A64Low;
use crate::aarch64::lower::flow::{
    branch_at, branches_added, branches_behind, cond_number, condition_word,
};
use crate::aarch64::machine::{Core, act, condition, read, run};
use crate::bytes::{le32, le32_reads_back, rd32};
use crate::encode::{Cc, LabelId};

verus! {

/// A processor and where it stands in the code.
pub struct Place {
    pub at: nat,
    pub core: Core,
}

/// The place of a label.
pub open spec fn jumped(w: A64State, l: LabelId, c: Core) -> Option<Place> {
    if l.0 < w.labels.len() {
        match w.labels[l.0 as int] {
            Some(o) => Some(Place { at: o as nat, core: c }),
            None => None,
        }
    } else {
        None
    }
}

/// The place that follows; `None` at the end of the code, and where the word stops the program
/// or is not known. A branch goes to its label, always or where its condition holds.
pub open spec fn following(w: A64State, p: Place) -> Option<Place> {
    if p.at + 4 > w.code.len() {
        None
    } else {
        let i = rd32(w.code, p.at as int) as u32;
        match branch_at(w.branches, p.at as int) {
            Some(l) => if i == 0x1400_0000 {
                jumped(w, l, p.core)
            } else if bits_at(i, 24, 8) == 0x54 {
                if condition(p.core, bits_at(i, 0, 4) as int) {
                    jumped(w, l, p.core)
                } else {
                    Some(Place { at: p.at + 4, core: p.core })
                }
            } else {
                None
            },
            None => match act(read(i), p.core) {
                Some(e) => Some(Place { at: p.at + 4, core: e }),
                None => None,
            },
        }
    }
}

/// The place after `n` words.
pub open spec fn after(w: A64State, p: Place, n: nat) -> Option<Place>
    decreases n,
{
    if n == 0 {
        Some(p)
    } else {
        match following(w, p) {
            Some(q) => after(w, q, (n - 1) as nat),
            None => None,
        }
    }
}

/// Whether running `w` from `p` comes to `q`.
#[verifier::opaque]
pub open spec fn comes(w: A64State, p: Place, q: Place) -> bool {
    exists|n: nat| #[trigger] after(w, p, n) == Some(q)
}

/// Whether running `w` from the end of `s` comes to the end of `t`.
pub open spec fn reaches(w: A64State, s: A64Low, c: Core, t: A64Low, d: Core) -> bool {
    comes(w, Place { at: s.text.code.len(), core: c }, Place { at: t.text.code.len(), core: d })
}

/// Whether `w` is `s` with more code: its branches stand behind those of `s`, and what `s` has
/// bound stays bound.
pub open spec fn starts(w: A64State, s: A64State) -> bool {
    &&& s.code.len() <= w.code.len()
    &&& w.code.take(s.code.len() as int) == s.code
    &&& branches_added(s, w)
    &&& s.labels.len() <= w.labels.len()
    &&& forall|i: int|
        0 <= i < s.labels.len() && s.labels[i] is Some ==> #[trigger] w.labels[i] == s.labels[i]
}

pub(crate) proof fn starts_trans(w: A64State, t: A64State, s: A64State)
    requires
        starts(w, t),
        starts(t, s),
    ensures
        starts(w, s),
{
    assert(w.code.take(s.code.len() as int) =~= w.code.take(t.code.len() as int).take(
        s.code.len() as int,
    ));
    assert forall|i: int| 0 <= i < w.branches.len() implies if i < s.branches.len() {
        #[trigger] w.branches[i] == s.branches[i]
    } else {
        w.branches[i].at >= s.code.len()
    } by {
        if i < t.branches.len() {
            assert(w.branches[i] == t.branches[i]);
            if i < s.branches.len() {
                assert(t.branches[i] == s.branches[i]);
            }
        }
    }
    assert forall|i: int| 0 <= i < s.labels.len() && s.labels[i] is Some implies
        #[trigger] w.labels[i] == s.labels[i] by {
        assert(t.labels[i] == s.labels[i]);
    }
}

proof fn after_adds(w: A64State, p: Place, n: nat, m: nat)
    requires
        after(w, p, n) is Some,
    ensures
        after(w, p, n + m) == after(w, after(w, p, n).unwrap(), m),
    decreases n,
{
    if n > 0 {
        let q = following(w, p).unwrap();
        after_adds(w, q, (n - 1) as nat, m);
        assert((n + m - 1) as nat == (n - 1) as nat + m);
    }
}

proof fn comes_one(w: A64State, p: Place, q: Place)
    requires
        following(w, p) == Some(q),
    ensures
        comes(w, p, q),
{
    reveal(comes);
    assert(after(w, q, 0) == Some(q));
    assert(after(w, p, 1) == Some(q));
}

proof fn comes_trans(w: A64State, p: Place, q: Place, r: Place)
    requires
        comes(w, p, q),
        comes(w, q, r),
    ensures
        comes(w, p, r),
{
    reveal(comes);
    let n = choose|n: nat| #[trigger] after(w, p, n) == Some(q);
    let m = choose|m: nat| #[trigger] after(w, q, m) == Some(r);
    after_adds(w, p, n, m);
}

/// One way behind another.
pub(crate) proof fn onwards(
    w: A64State,
    s: A64Low,
    c: Core,
    t: A64Low,
    d: Core,
    u: A64Low,
    e: Core,
)
    requires
        reaches(w, s, c, t, d),
        reaches(w, t, d, u, e),
    ensures
        reaches(w, s, c, u, e),
{
    comes_trans(
        w,
        Place { at: s.text.code.len(), core: c },
        Place { at: t.text.code.len(), core: d },
        Place { at: u.text.code.len(), core: e },
    );
}

proof fn no_branch_at(b: Seq<Branch>, k: int)
    requires
        forall|i: int| 0 <= i < b.len() ==> (#[trigger] b[i]).at != k,
    ensures
        branch_at(b, k) is None,
    decreases b.len(),
{
    if b.len() > 0 {
        assert(b[b.len() - 1].at != k);
        assert forall|i: int| 0 <= i < b.drop_last().len() implies (
        #[trigger] b.drop_last()[i]).at != k by {
            assert(b.drop_last()[i] == b[i]);
        }
        no_branch_at(b.drop_last(), k);
    }
}

proof fn branch_found(b: Seq<Branch>, i: int, k: int)
    requires
        0 <= i < b.len(),
        b[i].at == k,
        forall|j: int| i < j < b.len() ==> (#[trigger] b[j]).at != k,
    ensures
        branch_at(b, k) == Some(b[i].label),
    decreases b.len(),
{
    if i < b.len() - 1 {
        assert(b[b.len() - 1].at != k);
        let c = b.drop_last();
        assert forall|j: int| i < j < c.len() implies (#[trigger] c[j]).at != k by {
            assert(c[j] == b[j]);
        }
        branch_found(c, i, k);
    }
}

proof fn word_at(w: Seq<u8>, s: Seq<u8>, k: int)
    requires
        s.len() <= w.len(),
        w.take(s.len() as int) == s,
        0 <= k,
        k + 4 <= s.len(),
    ensures
        rd32(w, k) == rd32(s, k),
{
    assert forall|j: int| 0 <= j < s.len() implies #[trigger] w[j] == s[j] by {
        assert(w.take(s.len() as int)[j] == w[j]);
    }
}

proof fn run_comes(w: A64State, code: Seq<u8>, n: nat, c: Core, d: Core)
    requires
        code.len() <= w.code.len(),
        w.code.take(code.len() as int) == code,
        n <= code.len(),
        (code.len() - n) % 4 == 0,
        run(code, n, c) == Some(d),
        forall|i: int|
            0 <= i < w.branches.len() ==> (#[trigger] w.branches[i]).at < n || w.branches[i].at
                >= code.len(),
    ensures
        comes(w, Place { at: n, core: c }, Place { at: code.len(), core: d }),
    decreases code.len(),
{
    if code.len() < n + 4 {
        reveal(comes);
        assert(after(w, Place { at: n, core: c }, 0) is Some);
    } else {
        let k = code.len() - 4;
        let t = code.take(k);
        let e = run(t, n, c).unwrap();
        assert(w.code.take(k) =~= w.code.take(code.len() as int).take(k));
        assert forall|i: int| 0 <= i < w.branches.len() implies (#[trigger] w.branches[i]).at < n
            || w.branches[i].at >= t.len() by {}
        run_comes(w, t, n, c, e);
        word_at(w.code, code, k);
        assert forall|i: int| 0 <= i < w.branches.len() implies (#[trigger] w.branches[i]).at
            != k by {}
        no_branch_at(w.branches, k);
        comes_one(w, Place { at: k as nat, core: e }, Place { at: code.len(), core: d });
        comes_trans(
            w,
            Place { at: n, core: c },
            Place { at: k as nat, core: e },
            Place { at: code.len(), core: d },
        );
    }
}

/// Straight code.
pub(crate) proof fn straight_on(w: A64State, s: A64Low, t: A64Low, c: Core, d: Core)
    requires
        takes(s, t, c, d),
        starts(w, t.text),
        branches_behind(s.text),
    ensures
        reaches(w, s, c, t, d),
        branches_behind(t.text),
{
    reveal(takes);
    assert forall|i: int| 0 <= i < w.branches.len() implies (#[trigger] w.branches[i]).at
        < s.text.code.len() || w.branches[i].at >= t.text.code.len() by {
        if i < t.text.branches.len() {
            assert(w.branches[i] == t.text.branches[i]);
            assert(s.text.branches[i].at < s.text.code.len());
        }
    }
    run_comes(w, t.text.code, s.text.code.len(), c, d);
    assert forall|i: int| 0 <= i < t.text.branches.len() implies (
    #[trigger] t.text.branches[i]).at < t.text.code.len() by {
        assert(s.text.branches[i].at < s.text.code.len());
    }
}

/// What `w` has at a branch.
proof fn branch_read(w: A64State, t: A64Low, l: LabelId, kind: BranchKind, i: u32)
    requires
        starts(w, t.text.branch(l, kind).word(i)),
        w.code.len() <= usize::MAX,
    ensures
        ({
            let k = t.text.code.len() as int;
            &&& k + 4 <= w.code.len()
            &&& rd32(w.code, k) as u32 == i
            &&& branch_at(w.branches, k) == Some(l)
        }),
{
    let u = t.text.branch(l, kind).word(i);
    let k = t.text.code.len() as int;
    let n = t.text.branches.len() as int;
    le32_reads_back(i);
    word_at(w.code, u.code, k);
    assert(u.code.len() == k + 4);
    assert(rd32(u.code, k) == rd32(le32(i), 0));
    assert(w.branches[n] == u.branches[n]);
    assert forall|j: int| n < j < w.branches.len() implies (#[trigger] w.branches[j]).at != k by {
        assert(w.branches[j].at >= u.code.len());
    }
    branch_found(w.branches, n, k);
}

/// A branch leaves every other branch behind the code.
pub(crate) proof fn branch_behind(t: A64Low, l: LabelId, kind: BranchKind, i: u32)
    requires
        branches_behind(t.text),
        t.text.code.len() <= usize::MAX,
    ensures
        branches_behind(t.text.branch(l, kind).word(i)),
        starts(t.text.branch(l, kind).word(i), t.text),
{
    let u = t.text.branch(l, kind).word(i);
    assert(u.code.take(t.text.code.len() as int) =~= t.text.code);
    assert forall|j: int| 0 <= j < u.branches.len() implies (#[trigger] u.branches[j]).at
        < u.code.len() by {
        if j < t.text.branches.len() {
            assert(u.branches[j] == t.text.branches[j]);
        }
    }
}

/// A jump goes to where its label is bound.
pub(crate) proof fn jump_comes(w: A64State, t: A64Low, l: LabelId, at: A64Low, c: Core)
    requires
        starts(w, t.text.b(l)),
        w.code.len() <= usize::MAX,
        starts(w, at.text.bind(l)),
        l.0 < at.text.labels.len(),
    ensures
        reaches(w, t, c, at, c),
{
    reveal(A64State::b);
    branch_read(w, t, l, BranchKind::Imm26, 0x1400_0000);
    assert(w.labels[l.0 as int] == at.text.bind(l).labels[l.0 as int]);
    comes_one(
        w,
        Place { at: t.text.code.len(), core: c },
        Place { at: at.text.code.len(), core: c },
    );
}

/// A conditional branch goes to where its label is bound where the condition holds.
pub(crate) proof fn branch_taken(w: A64State, t: A64Low, cc: Cc, l: LabelId, at: A64Low, c: Core)
    requires
        starts(w, t.text.bcc(cc, l)),
        w.code.len() <= usize::MAX,
        starts(w, at.text.bind(l)),
        l.0 < at.text.labels.len(),
        condition(c, cond_number(cc)),
    ensures
        reaches(w, t, c, at, c),
{
    reveal(A64State::bcc);
    condition_word(cc);
    branch_read(w, t, l, BranchKind::Imm19, 0x5400_0000u32 | (cc.cond_bits() as u32));
    assert(w.labels[l.0 as int] == at.text.bind(l).labels[l.0 as int]);
    comes_one(
        w,
        Place { at: t.text.code.len(), core: c },
        Place { at: at.text.code.len(), core: c },
    );
}

/// A conditional branch goes on where the condition does not hold.
pub(crate) proof fn branch_passed(w: A64State, t: A64Low, cc: Cc, l: LabelId, c: Core)
    requires
        starts(w, t.text.bcc(cc, l)),
        w.code.len() <= usize::MAX,
        !condition(c, cond_number(cc)),
    ensures
        reaches(w, t, c, t.on(t.text.bcc(cc, l)), c),
{
    reveal(A64State::bcc);
    condition_word(cc);
    branch_read(w, t, l, BranchKind::Imm19, 0x5400_0000u32 | (cc.cond_bits() as u32));
    let k = t.text.code.len();
    comes_one(w, Place { at: k, core: c }, Place { at: k + 4, core: c });
}

} // verus!
