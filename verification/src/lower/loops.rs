//! Where lowered code goes when jumps go back: a processor with a place in the code.
use vstd::prelude::*;

use crate::behavior::labels_once;
use crate::encode::{AsmState, Cc, ITag, LabelId};
use crate::lower::effects::{takes, tells};
use crate::lower::env::LowState;
use crate::machine::{Act, Cpu, act, condition, meaning, run};
use crate::peephole::{Ins, last_label, last_label_in_range};

verus! {

/// A processor and where it stands in a list of instructions.
pub struct Place {
    pub at: nat,
    pub cpu: Cpu,
}

/// The place of a label.
pub open spec fn jumped(w: Seq<Ins>, l: LabelId, c: Cpu) -> Option<Place> {
    match last_label(w, l) {
        Some(i) => Some(Place { at: i as nat, cpu: c }),
        None => None,
    }
}

/// The place that follows; `None` at the end of the list, and where the instruction stops the
/// program or is not known.
pub open spec fn following(w: Seq<Ins>, p: Place) -> Option<Place> {
    if p.at >= w.len() {
        None
    } else {
        let i = w[p.at as int];
        match i.tag {
            ITag::Label { .. } => Some(Place { at: p.at + 1, cpu: p.cpu }),
            ITag::Jmp { label } => jumped(w, label, p.cpu),
            ITag::Jcc { label } => match condition(p.cpu, i.bytes[1] as int % 16) {
                Some(true) => jumped(w, label, p.cpu),
                Some(false) => Some(Place { at: p.at + 1, cpu: p.cpu }),
                None => None,
            },
            _ => match act(meaning(i), p.cpu) {
                Some(e) => Some(Place { at: p.at + 1, cpu: e }),
                None => None,
            },
        }
    }
}

/// The place after `n` instructions.
pub open spec fn after(w: Seq<Ins>, p: Place, n: nat) -> Option<Place>
    decreases n,
{
    if n == 0 {
        Some(p)
    } else {
        match following(w, p) {
            Some(q) => after(w, q, (n - 1) as nat),
            None => None,
        }
    }
}

/// Whether running `w` from `p` comes to `q`.
#[verifier::opaque]
pub open spec fn comes(w: Seq<Ins>, p: Place, q: Place) -> bool {
    exists|n: nat| #[trigger] after(w, p, n) == Some(q)
}

/// Whether running `w` from the end of `s` comes to the end of `t`.
pub open spec fn reaches(w: Seq<Ins>, s: LowState, c: Cpu, t: LowState, d: Cpu) -> bool {
    comes(
        w,
        Place { at: s.text.instrs.len(), cpu: c },
        Place { at: t.text.instrs.len(), cpu: d },
    )
}

/// Whether `w` starts with `s`.
pub open spec fn starts(w: Seq<Ins>, s: Seq<Ins>) -> bool {
    s.len() <= w.len() && w.take(s.len() as int) == s
}

/// Whether `w` starts with the code of `t`.
pub open spec fn within(w: Seq<Ins>, t: LowState) -> bool {
    starts(w, t.text.instrs)
}

pub(crate) proof fn starts_trans(w: Seq<Ins>, t: Seq<Ins>, s: Seq<Ins>)
    requires
        starts(w, t),
        starts(t, s),
    ensures
        starts(w, s),
{
    assert(w.take(s.len() as int) =~= w.take(t.len() as int).take(s.len() as int));
}

proof fn after_adds(w: Seq<Ins>, p: Place, n: nat, m: nat)
    requires
        after(w, p, n) is Some,
    ensures
        after(w, p, n + m) == after(w, after(w, p, n).unwrap(), m),
    decreases n,
{
    if n > 0 {
        let q = following(w, p).unwrap();
        after_adds(w, q, (n - 1) as nat, m);
        assert((n + m - 1) as nat == (n - 1) as nat + m);
    }
}

proof fn comes_one(w: Seq<Ins>, p: Place, q: Place)
    requires
        following(w, p) == Some(q),
    ensures
        comes(w, p, q),
{
    reveal(comes);
    assert(after(w, q, 0) == Some(q));
    assert(after(w, p, 1) == Some(q));
}

/// One way behind another.
pub(crate) proof fn onwards(
    w: Seq<Ins>,
    s: LowState,
    c: Cpu,
    t: LowState,
    d: Cpu,
    u: LowState,
    e: Cpu,
)
    requires
        reaches(w, s, c, t, d),
        reaches(w, t, d, u, e),
    ensures
        reaches(w, s, c, u, e),
{
    comes_trans(
        w,
        Place { at: s.text.instrs.len(), cpu: c },
        Place { at: t.text.instrs.len(), cpu: d },
        Place { at: u.text.instrs.len(), cpu: e },
    );
}

proof fn comes_trans(w: Seq<Ins>, p: Place, q: Place, r: Place)
    requires
        comes(w, p, q),
        comes(w, q, r),
    ensures
        comes(w, p, r),
{
    reveal(comes);
    let n = choose|n: nat| #[trigger] after(w, p, n) == Some(q);
    let m = choose|m: nat| #[trigger] after(w, q, m) == Some(r);
    after_adds(w, p, n, m);
}

proof fn run_comes(w: Seq<Ins>, s: Seq<Ins>, n: nat, c: Cpu, d: Cpu)
    requires
        starts(w, s),
        n <= s.len(),
        run(s, n, c) == Some(d),
    ensures
        comes(w, Place { at: n, cpu: c }, Place { at: s.len(), cpu: d }),
    decreases s.len(),
{
    if s.len() == n {
        reveal(comes);
        assert(after(w, Place { at: n, cpu: c }, 0) is Some);
    } else {
        let t = s.drop_last();
        assert(t =~= s.take(t.len() as int));
        starts_trans(w, s, t);
        let e = run(t, n, c).unwrap();
        run_comes(w, t, n, c, e);
        let i = s.last();
        assert(w[t.len() as int] == i) by {
            assert(w.take(s.len() as int)[t.len() as int] == i);
        }
        assert(act(Act::Unknown, e) is None) by {
            reveal(act);
        }
        comes_one(w, Place { at: t.len(), cpu: e }, Place { at: s.len(), cpu: d });
        comes_trans(
            w,
            Place { at: n, cpu: c },
            Place { at: t.len(), cpu: e },
            Place { at: s.len(), cpu: d },
        );
    }
}

/// Straight code.
pub(crate) proof fn straight_on(w: Seq<Ins>, s: LowState, t: LowState, c: Cpu, d: Cpu)
    requires
        takes(s, t, c, d),
        within(w, t),
    ensures
        reaches(w, s, c, t, d),
        within(w, s),
{
    reveal(takes);
    run_comes(w, t.text.instrs, s.text.instrs.len(), c, d);
    starts_trans(w, t.text.instrs, s.text.instrs);
}

/// A label is passed.
pub(crate) proof fn past_label(w: Seq<Ins>, s: LowState, l: LabelId, c: Cpu)
    requires
        within(w, s.on(s.text.bind(l))),
    ensures
        reaches(w, s, c, s.on(s.text.bind(l)), c),
{
    let t = s.on(s.text.bind(l));
    let n = s.text.instrs.len();
    assert(w[n as int] == t.text.instrs[n as int]) by {
        assert(w.take(t.text.instrs.len() as int)[n as int] == w[n as int]);
    }
    comes_one(w, Place { at: n, cpu: c }, Place { at: n + 1, cpu: c });
}

proof fn bound_here(w: Seq<Ins>, s: LowState, l: LabelId)
    requires
        labels_once(w),
        within(w, s.on(s.text.bind(l))),
    ensures
        last_label(w, l) == Some(s.text.instrs.len() as int),
{
    let t = s.on(s.text.bind(l));
    let n = s.text.instrs.len() as int;
    assert(w[n] == t.text.instrs[n]) by {
        assert(w.take(t.text.instrs.len() as int)[n] == w[n]);
    }
    last_label_in_range(w, l);
    if last_label(w, l) is Some {
        let k = last_label(w, l).unwrap();
        if k < n {
            assert(w[k].tag is Label && w[n].tag == w[k].tag);
        } else if n < k {
            assert(w[n].tag is Label && w[k].tag == w[n].tag);
        }
    }
}

/// A jump goes to where its label is bound.
pub(crate) proof fn jump_comes(w: Seq<Ins>, t: LowState, l: LabelId, s: LowState, c: Cpu)
    requires
        labels_once(w),
        within(w, s.on(s.text.bind(l))),
        within(w, t.on(t.text.jmp_local(l))),
    ensures
        reaches(w, t, c, s, c),
{
    reveal(AsmState::jmp_local);
    let u = t.on(t.text.jmp_local(l));
    let n = t.text.instrs.len();
    assert(w[n as int] == u.text.instrs[n as int]) by {
        assert(w.take(u.text.instrs.len() as int)[n as int] == w[n as int]);
    }
    bound_here(w, s, l);
    comes_one(w, Place { at: n, cpu: c }, Place { at: s.text.instrs.len(), cpu: c });
}

proof fn condition_read(w: Seq<Ins>, t: LowState, cc: Cc, l: LabelId)
    requires
        within(w, t.on(t.text.jcc_local(cc, l))),
    ensures
        ({
            let n = t.text.instrs.len() as int;
            &&& n < w.len()
            &&& w[n].tag == (ITag::Jcc { label: l })
            &&& w[n].bytes[1] as int % 16 == cc.bits()
            &&& t.on(t.text.jcc_local(cc, l)).text.instrs.len() == n + 1
        }),
{
    reveal(AsmState::jcc_local);
    let u = t.on(t.text.jcc_local(cc, l));
    let n = t.text.instrs.len() as int;
    assert(w[n] == u.text.instrs[n]) by {
        assert(w.take(u.text.instrs.len() as int)[n] == w[n]);
    }
    assert(w[n].bytes[1] == 0x80 + cc.bits());
}

/// A conditional jump goes to where its label is bound where the condition holds.
pub(crate) proof fn branch_taken(
    w: Seq<Ins>,
    t: LowState,
    cc: Cc,
    l: LabelId,
    s: LowState,
    c: Cpu,
)
    requires
        labels_once(w),
        within(w, s.on(s.text.bind(l))),
        within(w, t.on(t.text.jcc_local(cc, l))),
        tells(c, cc) == Some(true),
    ensures
        reaches(w, t, c, s, c),
{
    condition_read(w, t, cc, l);
    bound_here(w, s, l);
    comes_one(
        w,
        Place { at: t.text.instrs.len(), cpu: c },
        Place { at: s.text.instrs.len(), cpu: c },
    );
}

/// A conditional jump goes on where the condition does not hold.
pub(crate) proof fn branch_passed(w: Seq<Ins>, t: LowState, cc: Cc, l: LabelId, c: Cpu)
    requires
        within(w, t.on(t.text.jcc_local(cc, l))),
        tells(c, cc) == Some(false),
    ensures
        reaches(w, t, c, t.on(t.text.jcc_local(cc, l)), c),
{
    condition_read(w, t, cc, l);
    let n = t.text.instrs.len();
    comes_one(w, Place { at: n, cpu: c }, Place { at: n + 1, cpu: c });
}

} // verus!
