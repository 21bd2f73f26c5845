//! Patching an address into the four moves that build it.
use vstd::prelude::*;

use crate::aarch64::encode::{A64State, Reg, lane, lane_value, movw, movw_fields, run_mov, run_movs};
use crate::aarch64::link::{with_imm16, with_lanes};
use crate::encode::FixupKind;
use crate::bytes::{le32, le32_reads_back, rd32, splice32};

verus! {

/// The `k`-th word at a site after patching.
pub open spec fn patched_word(text: Seq<u8>, site: int, value: u64, k: int) -> u32 {
    with_imm16(rd32(text, site + 4 * k), lane(value, k))
}

proof fn lanes_in_place(text: Seq<u8>, site: int, value: u64, n: int)
    requires
        0 <= site,
        site + 16 <= text.len(),
        0 <= n <= 4,
    ensures
        ({
            let t = with_lanes(text, site, value, n);
            &&& t.len() == text.len()
            &&& forall|i: int|
                0 <= i < text.len() && !(site <= i < site + 4 * n) ==> #[trigger] t[i] == text[i]
            &&& forall|k: int, j: int|
                #![trigger le32(patched_word(text, site, value, k))[j]]
                0 <= k < n && 0 <= j < 4 ==> t[site + 4 * k + j] == le32(
                    patched_word(text, site, value, k),
                )[j]
        }),
    decreases n,
{
    if n > 0 {
        lanes_in_place(text, site, value, n - 1);
        let b = with_lanes(text, site, value, n - 1);
        let at = site + 4 * (n - 1);
        assert(rd32(b, at) == rd32(text, at));
        let w = patched_word(text, site, value, n - 1);
        let t = with_lanes(text, site, value, n);
        assert(t == splice32(b, at, w));
        assert forall|k: int, j: int| 0 <= k < n && 0 <= j < 4 implies t[site + 4 * k + j]
            == #[trigger] le32(patched_word(text, site, value, k))[j] by {
            if k < n - 1 {
                assert(b[site + 4 * k + j] == le32(patched_word(text, site, value, k))[j]);
            }
        }
    }
}

/// Patching sets the immediate of each of the four words at a site to one lane of the value,
/// keeps the rest of each word, and changes no byte elsewhere.
pub proof fn lanes_are_patched(text: Seq<u8>, site: int, value: u64)
    requires
        0 <= site,
        site + 16 <= text.len(),
    ensures
        ({
            let t = with_lanes(text, site, value, 4);
            &&& t.len() == text.len()
            &&& forall|i: int|
                0 <= i < text.len() && !(site <= i < site + 16) ==> #[trigger] t[i] == text[i]
            &&& forall|k: int|
                0 <= k < 4 ==> rd32(t, site + 4 * k) == #[trigger] patched_word(
                    text,
                    site,
                    value,
                    k,
                )
        }),
        lane(value, 0) + lane(value, 1) * 0x1_0000 + lane(value, 2) * 0x1_0000_0000 + lane(
            value,
            3,
        ) * 0x1_0000_0000_0000 == value,
{
    lanes_in_place(text, site, value, 4);
    let t = with_lanes(text, site, value, 4);
    assert forall|k: int| 0 <= k < 4 implies rd32(t, site + 4 * k) == #[trigger] patched_word(
        text,
        site,
        value,
        k,
    ) by {
        let w = patched_word(text, site, value, k);
        le32_reads_back(w);
        assert(t[site + 4 * k + 0] == le32(w)[0]);
        assert(t[site + 4 * k + 1] == le32(w)[1]);
        assert(t[site + 4 * k + 2] == le32(w)[2]);
        assert(t[site + 4 * k + 3] == le32(w)[3]);
    }
}

proof fn imm16_replaced(base: u32, a: u16, b: u16)
    ensures
        with_imm16(with_imm16(base as int, a) as int, b) == with_imm16(base as int, b),
{
}

proof fn word_bounds(text: Seq<u8>, at: int)
    ensures
        0 <= rd32(text, at) <= 0xFFFF_FFFF,
{
}

/// Patching again leaves what patching once with the second value leaves.
pub proof fn patching_twice(text: Seq<u8>, site: int, first: u64, second: u64)
    requires
        0 <= site,
        site + 16 <= text.len(),
    ensures
        with_lanes(with_lanes(text, site, first, 4), site, second, 4) == with_lanes(
            text,
            site,
            second,
            4,
        ),
{
    let a = with_lanes(text, site, first, 4);
    let b = with_lanes(a, site, second, 4);
    let c = with_lanes(text, site, second, 4);
    lanes_are_patched(text, site, first);
    lanes_in_place(text, site, first, 4);
    lanes_in_place(a, site, second, 4);
    lanes_in_place(text, site, second, 4);
    assert forall|i: int| 0 <= i < text.len() implies b[i] == c[i] by {
        if site <= i < site + 16 {
            let k = (i - site) / 4;
            let j = (i - site) % 4;
            assert(i == site + 4 * k + j);
            word_bounds(text, site + 4 * k);
            imm16_replaced(rd32(text, site + 4 * k) as u32, lane(first, k), lane(second, k));
            assert(rd32(a, site + 4 * k) == patched_word(text, site, first, k));
            assert(patched_word(a, site, second, k) == patched_word(text, site, second, k));
            assert(b[i] == le32(patched_word(a, site, second, k))[j]);
            assert(c[i] == le32(patched_word(text, site, second, k))[j]);
        } else {
            assert(b[i] == a[i] && a[i] == text[i] && c[i] == text[i]);
        }
    }
    assert(b =~= c);
}

/// The opcode of the `k`-th of the moves that build an address.
pub open spec fn move_op(k: int) -> u32 {
    if k == 0 {
        0xD280_0000
    } else {
        0xF280_0000
    }
}

proof fn move_filled(k: int, rd: Reg, v: u16)
    requires
        0 <= k < 4,
        rd.0 < 32,
    ensures
        with_imm16(movw(move_op(k), rd, 0, k as u8) as int, v) == movw(move_op(k), rd, v, k as u8),
{
    let base = move_op(k);
    let d = rd.0 as u32;
    let h = (k as u8) as u32;
    let n = v as u32;
    let x = base | ((h & 3) << 21) | (0u32 << 5) | d;
    let w = base | ((h & 3) << 21) | (n << 5) | d;
    movw_fields(rd, 0, k as u8);
    assert(w == x + n * 32) by (bit_vector)
        requires
            x == base | ((h & 3) << 21) | (0u32 << 5) | d,
            w == base | ((h & 3) << 21) | (n << 5) | d,
            base == 0xD280_0000 || base == 0xF280_0000,
            d < 32,
            n <= 0xFFFF,
    ;
    assert(x / 32 % 0x1_0000 == 0) by (bit_vector)
        requires
            x == base | ((h & 3) << 21) | (0u32 << 5) | d,
            base == 0xD280_0000 || base == 0xF280_0000,
            d < 32,
    ;
}

/// What the four moves at a site do to a register that held `before`.
pub open spec fn moved(text: Seq<u8>, site: int, before: int) -> int {
    run_movs(
        before,
        seq![
            rd32(text, site) as u32,
            rd32(text, site + 4) as u32,
            rd32(text, site + 8) as u32,
            rd32(text, site + 12) as u32,
        ],
    )
}

proof fn four_moves(before: int, a: u32, b: u32, c: u32, d: u32)
    ensures
        run_movs(before, seq![a, b, c, d]) == run_mov(
            run_mov(run_mov(run_mov(before, a), b), c),
            d,
        ),
{
    let s = seq![a, b, c, d];
    assert(s.skip(1) =~= seq![b, c, d]);
    assert(s.skip(1).skip(1) =~= seq![c, d]);
    assert(s.skip(1).skip(1).skip(1) =~= seq![d]);
    assert(s.skip(1).skip(1).skip(1).skip(1) =~= Seq::<u32>::empty());
    reveal_with_fuel(run_movs, 5);
}

proof fn lanes_build(value: u64, before: int)
    ensures
        ({
            let a = lane_value(before, false, lane(value, 0) as int, 0);
            let b = lane_value(a, true, lane(value, 1) as int, 1);
            let c = lane_value(b, true, lane(value, 2) as int, 2);
            lane_value(c, true, lane(value, 3) as int, 3) == value
        }),
{
    let a = lane(value, 0) as int;
    let b = a + lane(value, 1) * 0x1_0000;
    let c = b + lane(value, 2) * 0x1_0000_0000;
    assert(a / 0x1_0000 == 0);
    assert(b / 0x1_0000_0000 == 0);
    assert(c / 0x1_0000_0000_0000 == 0);
}

/// Patching an address into the moves that were emitted for it keeps the opcode, part and
/// register of each, and the moves then leave the address in the register, whatever it held.
pub proof fn patched_moves_build_value(text: Seq<u8>, site: int, rd: Reg, value: u64, before: int)
    requires
        0 <= site,
        site + 16 <= text.len(),
        rd.0 < 32,
        forall|k: int|
            0 <= k < 4 ==> rd32(text, site + 4 * k) == #[trigger] movw(
                move_op(k),
                rd,
                0,
                k as u8,
            ),
    ensures
        ({
            let t = with_lanes(text, site, value, 4);
            &&& forall|k: int|
                0 <= k < 4 ==> rd32(t, site + 4 * k) == #[trigger] movw(
                    move_op(k),
                    rd,
                    lane(value, k),
                    k as u8,
                )
            &&& moved(t, site, before) == value
        }),
{
    let t = with_lanes(text, site, value, 4);
    assert forall|k: int| 0 <= k < 4 implies rd32(t, site + 4 * k) == #[trigger] movw(
        move_op(k),
        rd,
        lane(value, k),
        k as u8,
    ) by {
        assert(rd32(text, site + 4 * k) == movw(move_op(k), rd, 0, k as u8));
        move_patched(text, site, rd, value, k);
    }
    site_moves(t, site, rd, value, before);
}

proof fn move_patched(text: Seq<u8>, site: int, rd: Reg, value: u64, k: int)
    requires
        0 <= site,
        site + 16 <= text.len(),
        rd.0 < 32,
        0 <= k < 4,
        rd32(text, site + 4 * k) == movw(move_op(k), rd, 0, k as u8),
    ensures
        rd32(with_lanes(text, site, value, 4), site + 4 * k) == movw(
            move_op(k),
            rd,
            lane(value, k),
            k as u8,
        ),
{
    lanes_are_patched(text, site, value);
    assert(rd32(with_lanes(text, site, value, 4), site + 4 * k) == patched_word(
        text,
        site,
        value,
        k,
    ));
    move_filled(k, rd, lane(value, k));
}

proof fn site_moves(t: Seq<u8>, site: int, rd: Reg, value: u64, before: int)
    requires
        rd.0 < 32,
        forall|k: int|
            0 <= k < 4 ==> rd32(t, site + 4 * k) == #[trigger] movw(
                move_op(k),
                rd,
                lane(value, k),
                k as u8,
            ),
    ensures
        moved(t, site, before) == value,
{
    assert(rd32(t, site + 4 * 0) == movw(move_op(0), rd, lane(value, 0), 0int as u8));
    assert(rd32(t, site + 4 * 1) == movw(move_op(1), rd, lane(value, 1), 1int as u8));
    assert(rd32(t, site + 4 * 2) == movw(move_op(2), rd, lane(value, 2), 2int as u8));
    assert(rd32(t, site + 4 * 3) == movw(move_op(3), rd, lane(value, 3), 3int as u8));
    moves_leave(rd, value, before);
}

proof fn moves_leave(rd: Reg, value: u64, before: int)
    requires
        rd.0 < 32,
    ensures
        run_movs(
            before,
            seq![
                movw(move_op(0), rd, lane(value, 0), 0),
                movw(move_op(1), rd, lane(value, 1), 1),
                movw(move_op(2), rd, lane(value, 2), 2),
                movw(move_op(3), rd, lane(value, 3), 3),
            ],
        ) == value,
{
    let a = movw(move_op(0), rd, lane(value, 0), 0);
    let b = movw(move_op(1), rd, lane(value, 1), 1);
    let c = movw(move_op(2), rd, lane(value, 2), 2);
    let d = movw(move_op(3), rd, lane(value, 3), 3);
    move_runs(before, 0, rd, lane(value, 0));
    let x = run_mov(before, a);
    move_runs(x, 1, rd, lane(value, 1));
    let y = run_mov(x, b);
    move_runs(y, 2, rd, lane(value, 2));
    let z = run_mov(y, c);
    move_runs(z, 3, rd, lane(value, 3));
    four_moves(before, a, b, c, d);
    lanes_build(value, before);
}

proof fn move_runs(before: int, k: int, rd: Reg, v: u16)
    requires
        0 <= k < 4,
        rd.0 < 32,
    ensures
        run_mov(before, movw(move_op(k), rd, v, k as u8)) == lane_value(
            before,
            k != 0,
            v as int,
            k,
        ),
{
    movw_fields(rd, v, k as u8);
}

/// What is emitted for an address is the four moves that patching fills.
pub proof fn address_hole_is_moves(s: A64State, rd: Reg, kind: FixupKind)
    ensures
        ({
            let t = s.address_hole(rd, kind);
            let n = s.code.len() as int;
            &&& t.code.len() == n + 16
            &&& t.code.take(n) == s.code
            &&& forall|k: int|
                0 <= k < 4 ==> rd32(t.code, n + 4 * k) == #[trigger] movw(
                    move_op(k),
                    rd,
                    0,
                    k as u8,
                )
        }),
{
    reveal(A64State::movz);
    reveal(A64State::movk);
    let t = s.address_hole(rd, kind);
    let n = s.code.len() as int;
    let a = movw(move_op(0), rd, 0, 0);
    let b = movw(move_op(1), rd, 0, 1);
    let c = movw(move_op(2), rd, 0, 2);
    let d = movw(move_op(3), rd, 0, 3);
    le32_reads_back(a);
    le32_reads_back(b);
    le32_reads_back(c);
    le32_reads_back(d);
    assert(t.code =~= s.code + le32(a) + le32(b) + le32(c) + le32(d));
    assert(t.code.take(n) =~= s.code);
    assert(rd32(t.code, n) == rd32(le32(a), 0));
    assert(rd32(t.code, n + 4) == rd32(le32(b), 0));
    assert(rd32(t.code, n + 8) == rd32(le32(c), 0));
    assert(rd32(t.code, n + 12) == rd32(le32(d), 0));
}

} // verus!
