//! A pool of byte strings in one buffer, each stored once.
use vstd::prelude::*;

use crate::bytes::{copy_bytes, push_all, same_bytes};

verus! {

/// What an [`Interner`] holds: the buffer, and every string added with the
/// offset it was given, in order.
pub struct Pool {
    pub bytes: Seq<u8>,
    pub seen: Seq<(Seq<u8>, u32)>,
}

/// The offset that `key` has in `seen`, where it was added.
pub open spec fn lookup(seen: Seq<(Seq<u8>, u32)>, key: Seq<u8>) -> Option<u32>
    decreases seen.len(),
{
    if seen.len() == 0 {
        None
    } else if seen.last().0 == key {
        Some(seen.last().1)
    } else {
        lookup(seen.drop_last(), key)
    }
}

impl Pool {
    /// A pool whose buffer starts with `bytes` and in which nothing was added.
    pub open spec fn start(bytes: Seq<u8>) -> Pool {
        Pool { bytes, seen: Seq::empty() }
    }

    /// The offset that adding `key` returns.
    pub open spec fn offset_of(self, key: Seq<u8>) -> u32 {
        match lookup(self.seen, key) {
            Some(off) => off,
            None => (self.bytes.len() % 0x1_0000_0000) as u32,
        }
    }

    /// The pool after adding `key`: a string that was there changes nothing, a
    /// new one goes to the end.
    pub open spec fn add(self, key: Seq<u8>) -> Pool {
        match lookup(self.seen, key) {
            Some(_) => self,
            None => Pool {
                bytes: self.bytes + key,
                seen: self.seen.push((key, self.offset_of(key))),
            },
        }
    }

    /// The pool after adding the strings of `keys`, one after the other.
    pub open spec fn add_all(self, keys: Seq<Seq<u8>>) -> Pool
        decreases keys.len(),
    {
        if keys.len() == 0 {
            self
        } else {
            self.add_all(keys.drop_last()).add(keys.last())
        }
    }

    /// Every string stands behind those that were added before it, and none was added twice.
    pub open spec fn in_order(self) -> bool {
        &&& self.bytes.len() <= u32::MAX ==> forall|i: int, j: int|
            0 <= i < j < self.seen.len() ==> (#[trigger] self.seen[i]).1 + self.seen[i].0.len() <= (
            #[trigger] self.seen[j]).1
        &&& forall|i: int, j: int|
            0 <= i < j < self.seen.len() ==> (#[trigger] self.seen[i]).0 != (
            #[trigger] self.seen[j]).0
    }

    /// Every string that was added stands at its offset.
    pub open spec fn wf(self) -> bool {
        forall|i: int|
            0 <= i < self.seen.len() && self.bytes.len() <= u32::MAX ==> (#[trigger] self.seen[i]).1
                + self.seen[i].0.len() <= self.bytes.len() && self.bytes.subrange(
                self.seen[i].1 as int,
                self.seen[i].1 + self.seen[i].0.len(),
            ) == self.seen[i].0
    }
}

proof fn lookup_in_seen(seen: Seq<(Seq<u8>, u32)>, key: Seq<u8>)
    ensures
        lookup(seen, key) matches Some(off) ==> exists|i: int|
            0 <= i < seen.len() && #[trigger] seen[i] == (key, off),
    decreases seen.len(),
{
    if seen.len() > 0 {
        if seen.last().0 == key {
            assert(seen[seen.len() - 1] == (key, seen.last().1));
        } else {
            lookup_in_seen(seen.drop_last(), key);
            if lookup(seen, key) is Some {
                let off = lookup(seen, key).unwrap();
                let i = choose|i: int|
                    0 <= i < seen.drop_last().len() && #[trigger] seen.drop_last()[i] == (key, off);
                assert(seen[i] == (key, off));
            }
        }
    }
}

/// Adding keeps every string at its offset.
pub proof fn add_keeps_wf(p: Pool, key: Seq<u8>)
    requires
        p.wf(),
    ensures
        p.add(key).wf(),
{
    let q = p.add(key);
    if lookup(p.seen, key) is None && q.bytes.len() <= u32::MAX {
        assert forall|i: int| 0 <= i < q.seen.len() implies (#[trigger] q.seen[i]).1
            + q.seen[i].0.len() <= q.bytes.len() && q.bytes.subrange(
            q.seen[i].1 as int,
            q.seen[i].1 + q.seen[i].0.len(),
        ) == q.seen[i].0 by {
            if i < p.seen.len() {
                assert(p.seen[i] == q.seen[i]);
                assert(q.bytes.subrange(q.seen[i].1 as int, q.seen[i].1 + q.seen[i].0.len())
                    =~= p.bytes.subrange(p.seen[i].1 as int, p.seen[i].1 + p.seen[i].0.len()));
            } else {
                assert(q.bytes.subrange(q.seen[i].1 as int, q.seen[i].1 + key.len()) =~= key);
            }
        }
    }
}

/// The bytes at the offset that adding returns are the string that was added.
pub proof fn added_reads_back(p: Pool, key: Seq<u8>)
    requires
        p.wf(),
        p.add(key).bytes.len() <= u32::MAX,
    ensures
        p.offset_of(key) + key.len() <= p.add(key).bytes.len(),
        p.add(key).bytes.subrange(p.offset_of(key) as int, p.offset_of(key) + key.len()) == key,
{
    add_keeps_wf(p, key);
    let q = p.add(key);
    lookup_in_seen(p.seen, key);
    match lookup(p.seen, key) {
        Some(off) => {
            let i = choose|i: int| 0 <= i < p.seen.len() && #[trigger] p.seen[i] == (key, off);
            assert(q.seen[i] == (key, off));
        },
        None => {
            assert(q.seen[p.seen.len() as int] == (key, p.offset_of(key)));
        },
    }
}

/// Adding a string again returns the same offset and changes nothing.
pub proof fn added_twice(p: Pool, key: Seq<u8>)
    ensures
        p.add(key).offset_of(key) == p.offset_of(key),
        p.add(key).add(key) == p.add(key),
{
    match lookup(p.seen, key) {
        Some(_) => {},
        None => {
            assert(p.add(key).seen.last() == (key, p.offset_of(key)));
        },
    }
}

/// What was there keeps its place: adding only ever extends the buffer.
pub proof fn adding_extends(p: Pool, key: Seq<u8>, other: Seq<u8>)
    requires
        lookup(p.seen, other) is Some,
    ensures
        p.add(key).offset_of(other) == p.offset_of(other),
        p.bytes.len() <= p.add(key).bytes.len(),
        p.add(key).bytes.take(p.bytes.len() as int) == p.bytes,
{
    assert(p.add(key).bytes.take(p.bytes.len() as int) =~= p.bytes);
    if lookup(p.seen, key) is None {
        assert(p.add(key).seen.drop_last() =~= p.seen);
    }
}

proof fn lookup_finds(seen: Seq<(Seq<u8>, u32)>, i: int)
    requires
        0 <= i < seen.len(),
    ensures
        lookup(seen, seen[i].0) is Some,
    decreases seen.len(),
{
    if seen.last().0 != seen[i].0 {
        assert(seen.drop_last()[i] == seen[i]);
        lookup_finds(seen.drop_last(), i);
    }
}

proof fn add_keeps_order(p: Pool, key: Seq<u8>)
    requires
        p.wf(),
        p.in_order(),
    ensures
        p.add(key).in_order(),
{
    let q = p.add(key);
    if lookup(p.seen, key) is None {
        assert forall|i: int, j: int| 0 <= i < j < q.seen.len() implies (#[trigger] q.seen[i]).0 != (
        #[trigger] q.seen[j]).0 by {
            assert(q.seen[i] == p.seen[i]);
            if j == p.seen.len() {
                lookup_finds(p.seen, i);
            } else {
                assert(q.seen[j] == p.seen[j]);
            }
        }
        if q.bytes.len() <= u32::MAX {
            assert forall|i: int, j: int| 0 <= i < j < q.seen.len() implies (
            #[trigger] q.seen[i]).1 + q.seen[i].0.len() <= (#[trigger] q.seen[j]).1 by {
                assert(q.seen[i] == p.seen[i]);
                if j < p.seen.len() {
                    assert(q.seen[j] == p.seen[j]);
                }
            }
        }
    }
}

proof fn run_keeps(p: Pool, keys: Seq<Seq<u8>>)
    requires
        p.wf(),
        p.in_order(),
    ensures
        p.add_all(keys).wf(),
        p.add_all(keys).in_order(),
        p.bytes.len() <= p.add_all(keys).bytes.len(),
        p.add_all(keys).bytes.take(p.bytes.len() as int) == p.bytes,
    decreases keys.len(),
{
    if keys.len() == 0 {
        assert(p.bytes.take(p.bytes.len() as int) =~= p.bytes);
    } else {
        let q = p.add_all(keys.drop_last());
        run_keeps(p, keys.drop_last());
        add_keeps_wf(q, keys.last());
        add_keeps_order(q, keys.last());
        let r = q.add(keys.last());
        let n = p.bytes.len() as int;
        assert(r.bytes.take(n) =~= q.bytes.take(n));
    }
}

proof fn stays_at_offset(p: Pool, keys: Seq<Seq<u8>>, i: int)
    requires
        0 <= i < keys.len(),
    ensures
        lookup(p.add_all(keys).seen, keys[i]) is Some,
        p.add_all(keys).offset_of(keys[i]) == p.add_all(keys.take(i)).offset_of(keys[i]),
    decreases keys.len(),
{
    let k0 = keys.drop_last();
    let q = p.add_all(k0);
    if i == keys.len() - 1 {
        assert(keys.take(i) =~= k0);
        added_twice(q, keys[i]);
        if lookup(q.seen, keys[i]) is None {
            assert(q.add(keys[i]).seen.last().0 == keys[i]);
        }
    } else {
        assert(k0[i] == keys[i]);
        assert(k0.take(i) =~= keys.take(i));
        stays_at_offset(p, k0, i);
        adding_extends(q, keys.last(), keys[i]);
        if lookup(q.seen, keys.last()) is None {
            assert(q.add(keys.last()).seen.drop_last() =~= q.seen);
        }
    }
}

/// Over any run of additions: the buffer keeps what it started with, the offset that a string
/// was given is its offset ever after, its bytes stand there, equal strings share it, and
/// different strings that are not empty have different ones. (An empty string has the offset
/// of whatever is added behind it.)
pub proof fn offsets_are_apart(start: Seq<u8>, keys: Seq<Seq<u8>>, i: int, j: int)
    requires
        0 <= i < keys.len(),
        0 <= j < keys.len(),
        Pool::start(start).add_all(keys).bytes.len() <= u32::MAX,
    ensures
        ({
            let p = Pool::start(start).add_all(keys);
            let off = p.offset_of(keys[i]);
            &&& start.len() <= p.bytes.len()
            &&& p.bytes.take(start.len() as int) == start
            &&& Pool::start(start).add_all(keys.take(i)).offset_of(keys[i]) == off
            &&& off + keys[i].len() <= p.bytes.len()
            &&& p.bytes.subrange(off as int, off + keys[i].len()) == keys[i]
            &&& keys[i] != keys[j] && keys[i].len() > 0 && keys[j].len() > 0 ==> off
                != p.offset_of(keys[j])
        }),
{
    let p = Pool::start(start).add_all(keys);
    run_keeps(Pool::start(start), keys);
    stays_at_offset(Pool::start(start), keys, i);
    stays_at_offset(Pool::start(start), keys, j);
    lookup_in_seen(p.seen, keys[i]);
    lookup_in_seen(p.seen, keys[j]);
    let a = p.offset_of(keys[i]);
    let b = p.offset_of(keys[j]);
    let m = choose|m: int| 0 <= m < p.seen.len() && #[trigger] p.seen[m] == (keys[i], a);
    let n = choose|n: int| 0 <= n < p.seen.len() && #[trigger] p.seen[n] == (keys[j], b);
    if keys[i] != keys[j] {
        if m < n {
            assert(p.seen[m].1 + p.seen[m].0.len() <= p.seen[n].1);
        } else {
            assert(p.seen[n].1 + p.seen[n].0.len() <= p.seen[m].1);
        }
    }
}

/// A pool of byte strings in one buffer.
pub struct Interner {
    bytes: Vec<u8>,
    seen: Vec<(Vec<u8>, u32)>,
}

impl View for Interner {
    type V = Pool;

    closed spec fn view(&self) -> Pool {
        Pool {
            bytes: self.bytes@,
            seen: Seq::new(self.seen@.len(), |i: int| (self.seen@[i].0@, self.seen@[i].1)),
        }
    }
}

impl Interner {
    /// A pool whose buffer starts with `bytes`.
    pub fn start(bytes: Vec<u8>) -> (r: Interner)
        ensures
            r@ == Pool::start(bytes@),
            r@.wf(),
    {
        let r = Interner { bytes, seen: Vec::new() };
        assert(r@.seen =~= Seq::empty());
        r
    }

    /// Adds `key` where it is not there yet, and returns its offset.
    pub fn intern(&mut self, key: &[u8]) -> (off: u32)
        requires
            old(self)@.wf(),
        ensures
            final(self)@.wf(),
            final(self)@ == old(self)@.add(key@),
            off == old(self)@.offset_of(key@),
    {
        let ghost p = self@;
        proof {
            add_keeps_wf(p, key@);
        }
        let mut i: usize = self.seen.len();
        assert(p.seen.take(i as int) =~= p.seen);
        while i > 0
            invariant
                i <= self.seen@.len(),
                self@ == p,
                p == old(self)@,
                p.add(key@).wf(),
                lookup(p.seen, key@) == lookup(p.seen.take(i as int), key@),
            decreases i,
        {
            let ghost t = p.seen.take(i as int);
            assert(t.last() == (self.seen@[i - 1].0@, self.seen@[i - 1].1));
            assert(t.drop_last() =~= p.seen.take(i - 1));
            if same_bytes(self.seen[i - 1].0.as_slice(), key) {
                return self.seen[i - 1].1;
            }
            i = i - 1;
        }
        let off: u32 = ((self.bytes.len() as u64) % 0x1_0000_0000) as u32;
        push_all(&mut self.bytes, key);
        self.seen.push((copy_bytes(key), off));
        assert(self@.seen =~= p.add(key@).seen);
        off
    }

    /// The buffer.
    pub fn bytes(&self) -> (r: &[u8])
        ensures
            r@ == self@.bytes,
    {
        self.bytes.as_slice()
    }

    /// The buffer, taken out.
    pub fn into_bytes(self) -> (r: Vec<u8>)
        ensures
            r@ == self@.bytes,
    {
        self.bytes
    }
}

} // verus!
