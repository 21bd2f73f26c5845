//! Stores at different offsets are different code.
use vstd::prelude::*;

use crate::aarch64::encode::{
    A64State, MemSize, Reg, at_register, at_scaled, at_unscaled, mov_imm_builds_value, mov_words,
    run_movs, scaled, unscaled, word_bytes, word_bytes_len,
};
use crate::aarch64::machine::{Act, read};
use crate::aarch64::steps::{Access, index, named, register_word, scaled_word, unscaled_word};
use crate::bytes::{le32, le32_reads_back, rd32, wrap64};

verus! {

/// Whether one word reaches an offset: it is a multiple of the size of up to 4095 of them, or
/// within 256 bytes.
pub open spec fn in_reach(off: i64, size: MemSize) -> bool {
    (0 <= off && off % size.width() == 0 && off / size.width() <= 4095) || -256 <= off <= 255
}

/// The last word of code.
pub open spec fn last_word(t: A64State) -> u32 {
    rd32(t.code, t.code.len() - 4) as u32
}

/// The words in front of the last one where the offset is not in reach: they set `x17`.
pub open spec fn offset_words(off: i64) -> Seq<u32> {
    mov_words(Reg(17), wrap64(off as int), 0, false)
}

/// A store is one word just where the offset is in reach, and that word stores at the offset.
/// Elsewhere the words in front of the last one leave the offset in `x17`, whatever it held,
/// and the last one stores at the offset in `x17`.
pub proof fn store_is_at_offset(s: A64State, rt: Reg, rn: Reg, off: i64, size: MemSize, before: int)
    requires
        named(rt),
        named(rn),
    ensures
        ({
            let t = s.store(rt, rn, off, size);
            let n = s.code.len();
            &&& in_reach(off, size) <==> t.code.len() == n + 4
            &&& in_reach(off, size) ==> t.code == s.code + le32(last_word(t)) && read(last_word(t))
                == (Act::Store { size, rt: index(rt), rn: index(rn), off: off as int })
            &&& !in_reach(off, size) ==> t.code == s.code + word_bytes(offset_words(off)) + le32(
                last_word(t),
            ) && read(last_word(t)) == (Act::StoreAt {
                size,
                rt: index(rt),
                rn: index(rn),
                rm: 17,
            }) && last_word(t) == at_register(0x3820_6800, size, Reg(17), rn, rt)
            &&& run_movs(before, offset_words(off)) == wrap64(off as int)
        }),
{
    reveal(A64State::store);
    reveal(A64State::mov_imm);
    let t = s.store(rt, rn, off, size);
    mov_imm_builds_value(Reg(17), off, before);
    word_bytes_len(offset_words(off));
    match scaled(off, size) {
        Some(i) => {
            let w = at_scaled(0x3900_0000, size, i, rn, rt);
            scaled_word(Access::Store, size, i, rn, rt);
            scale_back(off, size);
            word_is_last(s.code, w);
        },
        None => match unscaled(off) {
            Some(i) => {
                let w = at_unscaled(0x3800_0000, size, i, rn, rt);
                unscaled_word(Access::Store, size, off, rn, rt);
                word_is_last(s.code, w);
            },
            None => {
                let w = at_register(0x3820_6800, size, Reg(17), rn, rt);
                register_word(Access::Store, size, Reg(17), rn, rt);
                word_is_last(s.code + word_bytes(offset_words(off)), w);
            },
        },
    }
}

proof fn scale_back(off: i64, size: MemSize)
    requires
        scaled(off, size) is Some,
    ensures
        scaled(off, size).unwrap() * size.width() == off,
        scaled(off, size).unwrap() <= 0xFFF,
{
    match size {
        MemSize::B => {
            assert(off / 1 * 1 == off);
        },
        MemSize::H => {
            assert(off / 2 * 2 == off);
        },
        MemSize::W => {
            assert(off / 4 * 4 == off);
        },
        MemSize::X => {
            assert(off / 8 * 8 == off);
        },
    }
}

proof fn word_is_last(code: Seq<u8>, w: u32)
    ensures
        rd32(code + le32(w), (code + le32(w)).len() - 4) as u32 == w,
        (code + le32(w)).len() == code.len() + 4,
{
    le32_reads_back(w);
    assert(rd32(code + le32(w), code.len() as int) == rd32(le32(w), 0));
}

proof fn words_read_back(a: Seq<u32>, b: Seq<u32>)
    requires
        word_bytes(a) == word_bytes(b),
    ensures
        a == b,
    decreases a.len(),
{
    word_bytes_len(a);
    word_bytes_len(b);
    if a.len() == 0 {
        assert(a =~= b);
    } else {
        let x = word_bytes(a.drop_last());
        let y = word_bytes(b.drop_last());
        word_bytes_len(a.drop_last());
        word_bytes_len(b.drop_last());
        word_is_last(x, a.last());
        word_is_last(y, b.last());
        assert(a.last() == b.last());
        assert(x =~= word_bytes(a).take(x.len() as int));
        assert(y =~= word_bytes(b).take(y.len() as int));
        words_read_back(a.drop_last(), b.drop_last());
        assert(a =~= a.drop_last().push(a.last()));
        assert(b =~= b.drop_last().push(b.last()));
    }
}

/// Stores that differ in their offset alone are different code: no two places alias.
pub proof fn stores_do_not_alias(s: A64State, rt: Reg, rn: Reg, a: i64, b: i64, size: MemSize)
    requires
        named(rt),
        named(rn),
        a != b,
    ensures
        s.store(rt, rn, a, size).code != s.store(rt, rn, b, size).code,
{
    let x = s.store(rt, rn, a, size);
    let y = s.store(rt, rn, b, size);
    store_is_at_offset(s, rt, rn, a, size, 0);
    store_is_at_offset(s, rt, rn, b, size, 0);
    if x.code == y.code {
        assert(last_word(x) == last_word(y));
        if !in_reach(a, size) {
            let p = word_bytes(offset_words(a));
            let q = word_bytes(offset_words(b));
            let n = s.code.len() as int;
            let m = x.code.len() - 4;
            assert(p =~= x.code.subrange(n, m));
            assert(q =~= y.code.subrange(n, m));
            words_read_back(offset_words(a), offset_words(b));
            assert(wrap64(a as int) == wrap64(b as int));
        }
    }
}

} // verus!
